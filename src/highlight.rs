//! The highlighter: lines and their tokens in, lines with marked tokens out.

use vstd::prelude::*;

use colored::Colorize;
use im::catlist::CatList;

use crate::parser::{
    all_hex,
    is_hex,
    is_hex_digit_char,
    is_token_of,
    lemma_tokens_disjoint,
    precedes,
    text_tokens,
    token_end,
    token_len,
    Located,
    RefLike,
};
use crate::text::{chars_of, string_of};

verus! {

/// im's catenable list, which collects the rendered lines.
#[verifier::external_type_specification]
#[verifier::external_body]
#[verifier::reject_recursive_types(A)]
pub struct ExCatList<A>(CatList<A>);

/// The texts held by a list of rendered lines, front to back.
pub uninterp spec fn list_items(l: CatList<String>) -> Seq<Seq<char>>;

/// Relies on im's `CatList::new`: the new list is empty.
#[verifier::external_body]
fn empty_list() -> (r: CatList<String>)
    ensures
        list_items(r) == Seq::<Seq<char>>::empty(),
{
    CatList::new()
}

/// Relies on im's `CatList::snoc`: a new list holding the items of `l`, then
/// `item`.
#[verifier::external_body]
fn snoc_item(l: &CatList<String>, item: String) -> (r: CatList<String>)
    ensures
        list_items(r) == list_items(*l).push(item@),
{
    l.snoc(item)
}

/// The escape code that starts the style of the selected token (yellow).
pub open spec fn emphasis_open() -> Seq<char> {
    seq!['\u{1b}', '[', '3', '3', 'm']
}

/// The escape code that starts the style of the other tokens (magenta).
pub open spec fn match_open() -> Seq<char> {
    seq!['\u{1b}', '[', '3', '5', 'm']
}

/// The escape code that ends a style.
pub open spec fn style_reset() -> Seq<char> {
    seq!['\u{1b}', '[', '0', 'm']
}

/// The escape code that starts the style of a token, by whether it is the
/// selected one.
pub open spec fn style_open(emphasis: bool) -> Seq<char> {
    if emphasis {
        emphasis_open()
    } else {
        match_open()
    }
}

/// `t` holds no escape character.
pub open spec fn no_escape(t: Seq<char>) -> bool {
    forall|i: int| 0 <= i < t.len() ==> t[i] != '\u{1b}'
}

/// `p` is `text` in the style that `open` starts, or `text` itself where
/// the terminal gets no colours.
pub open spec fn painted_as(p: Seq<char>, text: Seq<char>, open: Seq<char>) -> bool {
    p == text || p == open + text + style_reset()
}

/// Relies on colored's `Colorize::yellow` and the `Display` of its result:
/// the text wrapped in the yellow and reset codes, or unchanged where
/// colouring is off; a text without escape characters holds no reset code
/// that would need escaping.
#[verifier::external_body]
fn paint_emphasis(s: &str) -> (r: String)
    ensures
        no_escape(s@) ==> painted_as(r@, s@, emphasis_open()),
{
    s.yellow().to_string()
}

/// Relies on colored's `Colorize::magenta` and the `Display` of its result:
/// the text wrapped in the magenta and reset codes, or unchanged where
/// colouring is off; a text without escape characters holds no reset code
/// that would need escaping.
#[verifier::external_body]
fn paint_match(s: &str) -> (r: String)
    ensures
        no_escape(s@) ==> painted_as(r@, s@, match_open()),
{
    s.magenta().to_string()
}

/// Where the text after the first `n` tokens of `ts` starts.
pub open spec fn end_before(ts: Seq<Located<RefLike>>, n: int) -> int {
    if n <= 0 {
        0
    } else {
        token_end(ts[n - 1])
    }
}

/// `s` up to the end of its `n`-th token, each token replaced by its entry
/// in `painted`, and the text before it copied.
pub open spec fn marked_prefix(
    s: Seq<char>,
    ts: Seq<Located<RefLike>>,
    painted: Seq<Seq<char>>,
    n: int,
) -> Seq<char>
    decreases n,
{
    if n <= 0 {
        seq![]
    } else {
        marked_prefix(s, ts, painted, n - 1) + s.subrange(end_before(ts, n - 1), ts[n - 1].col as int)
            + painted[n - 1]
    }
}

/// `s` with each token of `ts` replaced by its entry in `painted`: the
/// untouched prefixes, the painted tokens, then the rest of the line.
pub open spec fn marked(s: Seq<char>, ts: Seq<Located<RefLike>>, painted: Seq<Seq<char>>) -> Seq<
    char,
> {
    marked_prefix(s, ts, painted, ts.len() as int) + s.subrange(
        end_before(ts, ts.len() as int),
        s.len() as int,
    )
}

/// The tokens `ts[lo..hi)` hold hexadecimal text and lie inside `s` in
/// column order, without overlap.
pub open spec fn span_fits(s: Seq<char>, ts: Seq<Located<RefLike>>, lo: int, hi: int) -> bool {
    &&& 0 <= lo <= hi <= ts.len()
    &&& forall|k: int|
        lo <= k < hi ==> token_end(#[trigger] ts[k]) <= s.len() && all_hex(
            ts[k].el.hash@,
            0,
            token_len(ts[k]),
        )
    &&& forall|k: int| lo <= k < hi - 1 ==> token_end(#[trigger] ts[k]) <= ts[k + 1].col
}

/// `out` is `s` with the tokens `ts[lo..hi)` marked: the one at index
/// `selected` in the emphasis style, every other in the match style.
pub open spec fn is_marked_span(
    s: Seq<char>,
    ts: Seq<Located<RefLike>>,
    lo: int,
    hi: int,
    selected: Option<usize>,
    out: Seq<char>,
) -> bool {
    exists|painted: Seq<Seq<char>>|
        {
            &&& painted.len() == hi - lo
            &&& forall|k: int|
                0 <= k < hi - lo ==> painted_as(
                    #[trigger] painted[k],
                    ts[lo + k].el.hash@,
                    style_open(selected == Some((lo + k) as usize)),
                )
            &&& out == #[trigger] marked(s, ts.subrange(lo, hi), painted)
        }
}

/// Copies `s`, putting `painted[k]` in place of the token `ts[lo + k]`.
pub fn splice(s: &str, ts: &[Located<RefLike>], lo: usize, hi: usize, painted: &Vec<String>) -> (r:
    String)
    requires
        span_fits(s@, ts@, lo as int, hi as int),
        painted.len() == hi - lo,
    ensures
        r@ == marked(s@, ts@.subrange(lo as int, hi as int), painted@.map_values(|p: String| p@)),
{
    let chars = chars_of(s);
    let ghost sub = ts@.subrange(lo as int, hi as int);
    let ghost pv = painted@.map_values(|p: String| p@);
    let mut out = String::new();
    let mut cursor: usize = 0;
    let mut k = lo;
    while k < hi
        invariant
            chars@ == s@,
            span_fits(s@, ts@, lo as int, hi as int),
            painted.len() == hi - lo,
            sub == ts@.subrange(lo as int, hi as int),
            pv == painted@.map_values(|p: String| p@),
            lo <= k <= hi,
            cursor == end_before(sub, k - lo),
            k < hi ==> cursor <= ts@[k as int].col,
            k == hi ==> cursor <= s@.len(),
            out@ == marked_prefix(s@, sub, pv, k - lo),
        decreases hi - k,
    {
        let col = ts[k].col;
        let len = ts[k].el.hash.as_str().unicode_len();
        let before = string_of(&chars, cursor, col);
        out.push_str(before.as_str());
        out.push_str(painted[k - lo].as_str());
        assert(sub[k - lo] == ts@[k as int]);
        assert(token_end(ts@[k as int]) <= chars.len());
        assert(out@ == marked_prefix(s@, sub, pv, k - lo + 1));
        cursor = col + len;
        k = k + 1;
    }
    let rest = string_of(&chars, cursor, chars.len());
    out.push_str(rest.as_str());
    out
}

/// Marks the tokens `ts[lo..hi)` of `s`.
fn mark_span(s: &str, ts: &[Located<RefLike>], lo: usize, hi: usize, selected: Option<usize>) -> (r:
    String)
    requires
        span_fits(s@, ts@, lo as int, hi as int),
    ensures
        is_marked_span(s@, ts@, lo as int, hi as int, selected, r@),
{
    let mut painted: Vec<String> = Vec::new();
    let mut k = lo;
    while k < hi
        invariant
            span_fits(s@, ts@, lo as int, hi as int),
            lo <= k <= hi,
            painted.len() == k - lo,
            forall|j: int|
                0 <= j < k - lo ==> painted_as(
                    (#[trigger] painted@[j])@,
                    ts@[lo + j].el.hash@,
                    style_open(selected == Some((lo + j) as usize)),
                ),
        decreases hi - k,
    {
        let hash = ts[k].el.hash.as_str();
        assert(no_escape(hash@)) by {
            assert(all_hex(hash@, 0, token_len(ts@[k as int])));
            assert forall|i: int| 0 <= i < hash@.len() implies hash@[i] != '\u{1b}' by {
                assert(is_hex(hash@[i]));
            }
        }
        let emphasis = match selected {
            Some(i) => i == k,
            None => false,
        };
        let p = if emphasis {
            paint_emphasis(hash)
        } else {
            paint_match(hash)
        };
        painted.push(p);
        k = k + 1;
    }
    let r = splice(s, ts, lo, hi, &painted);
    let ghost pv = painted@.map_values(|p: String| p@);
    assert forall|j: int|
        0 <= j < hi - lo implies painted_as(
        #[trigger] pv[j],
        ts@[lo + j].el.hash@,
        style_open(selected == Some((lo + j) as usize)),
    ) by {
        assert(pv[j] == painted@[j]@);
    }
    r
}

/// Renders one line: `s` with each token of `rls` marked, the one at index
/// `selected` in the emphasis style and every other in the match style.
pub fn line(s: &str, rls: &[Located<RefLike>], selected: Option<usize>) -> (r: String)
    requires
        span_fits(s@, rls@, 0, rls@.len() as int),
    ensures
        is_marked_span(s@, rls@, 0, rls@.len() as int, selected, r@),
{
    mark_span(s, rls, 0, rls.len(), selected)
}

/// `ts[lo..hi)` are exactly the tokens of line `row`.
pub open spec fn line_span(ts: Seq<Located<RefLike>>, row: int, lo: int, hi: int) -> bool {
    &&& 0 <= lo <= hi <= ts.len()
    &&& forall|k: int| 0 <= k < lo ==> (#[trigger] ts[k]).line < row
    &&& forall|k: int| lo <= k < hi ==> (#[trigger] ts[k]).line == row
    &&& forall|k: int| hi <= k < ts.len() ==> (#[trigger] ts[k]).line > row
}

/// `out` is line `row`, whose text is `s`, with its tokens among `ts`
/// marked.
#[verifier::opaque]
pub open spec fn renders_line(
    s: Seq<char>,
    ts: Seq<Located<RefLike>>,
    row: int,
    selected: Option<usize>,
    out: Seq<char>,
) -> bool {
    exists|lo: int, hi: int| #[trigger]
        line_span(ts, row, lo, hi) && is_marked_span(s, ts, lo, hi, selected, out)
}

/// The tokens `ts` are ordered by line, each lies inside its line and holds
/// hexadecimal text, and tokens of one line are in column order without
/// overlap.
pub open spec fn tokens_fit(lines: Seq<Seq<char>>, ts: Seq<Located<RefLike>>) -> bool {
    &&& forall|k: int|
        0 <= k < ts.len() ==> (#[trigger] ts[k]).line < lines.len() && token_end(ts[k])
            <= lines[ts[k].line as int].len() && all_hex(ts[k].el.hash@, 0, token_len(ts[k]))
    &&& forall|k: int, j: int| 0 <= k < j < ts.len() ==> ts[k].line <= ts[j].line
    &&& forall|k: int|
        0 <= k < ts.len() - 1 && (#[trigger] ts[k]).line == ts[k + 1].line ==> token_end(ts[k])
            <= ts[k + 1].col
}

/// Where the tokens from `lo` on that are of line `row` end at `hi`, they
/// are exactly the tokens of that line, and they fit it.
proof fn lemma_line_span_fits(
    ls: Seq<Seq<char>>,
    ts: Seq<Located<RefLike>>,
    row: int,
    lo: int,
    hi: int,
)
    requires
        tokens_fit(ls, ts),
        0 <= row < ls.len(),
        0 <= lo <= hi <= ts.len(),
        forall|k: int| 0 <= k < lo ==> (#[trigger] ts[k]).line < row,
        lo < ts.len() ==> ts[lo].line >= row,
        forall|k: int| lo <= k < hi ==> (#[trigger] ts[k]).line == row,
        hi < ts.len() ==> ts[hi].line != row,
    ensures
        line_span(ts, row, lo, hi),
        span_fits(ls[row], ts, lo, hi),
        hi < ts.len() ==> ts[hi].line > row,
{
    assert forall|k: int| hi <= k < ts.len() implies (#[trigger] ts[k]).line > row by {
        assert(ts[hi].line <= ts[k].line);
        if hi > lo {
            assert(ts[hi - 1].line <= ts[hi].line);
        }
    }
    assert forall|k: int| lo <= k < hi - 1 implies token_end(#[trigger] ts[k]) <= ts[k + 1].col by {
        assert(ts[k].line == row);
        assert(ts[k + 1].line == row);
    }
}

/// The end of the run of tokens of line `row` that starts at `lo`.
fn span_end(ts: &[Located<RefLike>], lo: usize, row: usize) -> (hi: usize)
    requires
        lo <= ts.len(),
    ensures
        lo <= hi <= ts.len(),
        forall|k: int| lo <= k < hi ==> (#[trigger] ts@[k]).line == row,
        hi < ts.len() ==> ts@[hi as int].line != row,
{
    let mut hi = lo;
    while hi < ts.len() && ts[hi].line == row
        invariant
            lo <= hi <= ts.len(),
            forall|k: int| lo <= k < hi ==> (#[trigger] ts@[k]).line == row,
        decreases ts.len() - hi,
    {
        hi = hi + 1;
    }
    hi
}

/// Renders every line of `vlines`, marking the tokens of `rls` on it: the
/// one at index `selected` in the emphasis style, every other in the match
/// style. Lines without tokens come out unchanged.
pub fn revs(vlines: &[String], rls: &[Located<RefLike>], selected: Option<usize>) -> (r: CatList<
    String,
>)
    requires
        tokens_fit(vlines@.map_values(|l: String| l@), rls@),
    ensures
        list_items(r).len() == vlines@.len(),
        forall|i: int|
            0 <= i < vlines@.len() ==> renders_line(
                vlines@[i]@,
                rls@,
                i,
                selected,
                #[trigger] list_items(r)[i],
            ),
{
    let ghost ls = vlines@.map_values(|l: String| l@);
    let mut out = empty_list();
    let mut p: usize = 0;
    let mut row: usize = 0;
    while row < vlines.len()
        invariant
            ls == vlines@.map_values(|l: String| l@),
            tokens_fit(ls, rls@),
            row <= vlines.len(),
            p <= rls.len(),
            forall|k: int| 0 <= k < p ==> (#[trigger] rls@[k]).line < row,
            p < rls.len() ==> rls@[p as int].line >= row,
            list_items(out).len() == row,
            forall|i: int|
                0 <= i < row ==> renders_line(
                    vlines@[i]@,
                    rls@,
                    i,
                    selected,
                    #[trigger] list_items(out)[i],
                ),
        decreases vlines.len() - row,
    {
        let lo = p;
        p = span_end(rls, lo, row);
        proof {
            lemma_line_span_fits(ls, rls@, row as int, lo as int, p as int);
        }
        assert(ls[row as int] == vlines@[row as int]@);
        let text = mark_span(vlines[row].as_str(), rls, lo, p, selected);
        let ghost before = list_items(out);
        out = snoc_item(&out, text);
        assert(renders_line(vlines@[row as int]@, rls@, row as int, selected, text@)) by {
            reveal(renders_line);
        }
        assert forall|i: int|
            0 <= i < row + 1 implies renders_line(
                vlines@[i]@,
                rls@,
                i,
                selected,
                #[trigger] list_items(out)[i],
            ) by {
            if i < row {
                assert(list_items(out)[i] == before[i]);
            }
        }
        row = row + 1;
    }
    out
}

/// Tokens found by a scan fit the lines they were found in.
pub proof fn lemma_scanned_tokens_fit(lines: Seq<Seq<char>>, ts: Seq<Located<RefLike>>)
    requires
        text_tokens(lines, ts),
    ensures
        tokens_fit(lines, ts),
{
    lemma_tokens_disjoint(lines, ts);
    assert forall|k: int| 0 <= k < ts.len() implies (#[trigger] ts[k]).line < lines.len()
        && token_end(ts[k]) <= lines[ts[k].line as int].len() && all_hex(
        ts[k].el.hash@,
        0,
        token_len(ts[k]),
    ) by {
        let s = lines[ts[k].line as int];
        assert(is_token_of(s, ts[k].line as int, ts[k]));
        assert forall|i: int| 0 <= i < token_len(ts[k]) implies is_hex(#[trigger] ts[k].el.hash@[i]) by {
            assert(ts[k].el.hash@[i] == s[ts[k].col + i]);
        }
    }
    assert forall|k: int, j: int| 0 <= k < j < ts.len() implies ts[k].line <= ts[j].line by {
        assert(precedes(ts[k], ts[j]));
    }
    assert forall|k: int|
        0 <= k < ts.len() - 1 && (#[trigger] ts[k]).line == ts[k + 1].line implies token_end(ts[k])
        <= ts[k + 1].col by {
        assert(token_end(ts[k]) < ts[k + 1].col);
    }
}

/// Whether every character of `s` is hexadecimal.
fn is_hex_str(s: &str) -> (r: bool)
    ensures
        r == all_hex(s@, 0, s@.len() as int),
{
    let chars = chars_of(s);
    let mut i: usize = 0;
    while i < chars.len()
        invariant
            chars@ == s@,
            i <= chars.len(),
            all_hex(s@, 0, i as int),
        decreases chars.len() - i,
    {
        if !is_hex_digit_char(chars[i]) {
            return false;
        }
        i = i + 1;
    }
    true
}

proof fn lemma_lines_ordered(ts: Seq<Located<RefLike>>)
    requires
        forall|k: int| 0 <= k < ts.len() - 1 ==> (#[trigger] ts[k]).line <= ts[k + 1].line,
    ensures
        forall|k: int, j: int| 0 <= k < j < ts.len() ==> ts[k].line <= ts[j].line,
    decreases ts.len(),
{
    if ts.len() > 0 {
        let init = ts.drop_last();
        assert forall|k: int| 0 <= k < init.len() - 1 implies (#[trigger] init[k]).line <= init[k
            + 1].line by {
            assert(ts[k].line <= ts[k + 1].line);
        }
        lemma_lines_ordered(init);
        assert forall|k: int, j: int| 0 <= k < j < ts.len() implies ts[k].line <= ts[j].line by {
            if j < ts.len() - 1 {
                assert(init[k] == ts[k] && init[j] == ts[j]);
            } else if k < j - 1 {
                assert(init[k] == ts[k] && init[j - 1] == ts[j - 1]);
                assert(ts[j - 1].line <= ts[j].line);
            } else {
                assert(ts[j - 1].line <= ts[j].line);
            }
        }
    }
}

/// Whether `rls` fits `vlines` as `revs` needs it to.
pub fn tokens_fit_lines(vlines: &[String], rls: &[Located<RefLike>]) -> (r: bool)
    ensures
        r == tokens_fit(vlines@.map_values(|l: String| l@), rls@),
{
    let ghost ls = vlines@.map_values(|l: String| l@);
    let mut lens: Vec<usize> = Vec::new();
    let mut i: usize = 0;
    while i < vlines.len()
        invariant
            ls == vlines@.map_values(|l: String| l@),
            i <= vlines.len(),
            lens.len() == i,
            forall|j: int| 0 <= j < i ==> lens@[j] == ls[j].len(),
        decreases vlines.len() - i,
    {
        lens.push(vlines[i].as_str().unicode_len());
        i = i + 1;
    }
    let n = rls.len();
    let mut k: usize = 0;
    while k < n
        invariant
            ls == vlines@.map_values(|l: String| l@),
            lens.len() == vlines.len(),
            forall|j: int| 0 <= j < vlines.len() ==> lens@[j] == ls[j].len(),
            n == rls.len(),
            k <= n,
            forall|j: int|
                0 <= j < k ==> (#[trigger] rls@[j]).line < ls.len() && token_end(rls@[j])
                    <= ls[rls@[j].line as int].len() && all_hex(
                    rls@[j].el.hash@,
                    0,
                    token_len(rls@[j]),
                ),
            forall|j: int|
                0 <= j < k && j < n - 1 ==> (#[trigger] rls@[j]).line <= rls@[j + 1].line,
            forall|j: int|
                0 <= j < k && j < n - 1 && (#[trigger] rls@[j]).line == rls@[j + 1].line
                    ==> token_end(rls@[j]) <= rls@[j + 1].col,
        decreases n - k,
    {
        let t = &rls[k];
        if t.line >= lens.len() {
            return false;
        }
        let hash = t.el.hash.as_str();
        let hlen = hash.unicode_len();
        let room = lens[t.line];
        if t.col > room || hlen > room - t.col {
            return false;
        }
        if !is_hex_str(hash) {
            return false;
        }
        if k + 1 < n {
            let u = &rls[k + 1];
            if u.line < t.line {
                return false;
            }
            if u.line == t.line && t.col + hlen > u.col {
                return false;
            }
        }
        k = k + 1;
    }
    proof {
        lemma_lines_ordered(rls@);
    }
    true
}

/// The tokens `ts` lie inside `s` in column order, without overlap, and
/// each holds the text of `s` under it.
pub open spec fn tokens_of_text(s: Seq<char>, ts: Seq<Located<RefLike>>) -> bool {
    &&& forall|k: int|
        0 <= k < ts.len() ==> token_end(#[trigger] ts[k]) <= s.len() && ts[k].el.hash@
            == s.subrange(ts[k].col as int, token_end(ts[k]))
    &&& forall|k: int| 0 <= k < ts.len() - 1 ==> token_end(#[trigger] ts[k]) <= ts[k + 1].col
}

/// The text of each token.
pub open spec fn plain_texts(ts: Seq<Located<RefLike>>) -> Seq<Seq<char>> {
    ts.map_values(|t: Located<RefLike>| t.el.hash@)
}

proof fn lemma_plain_prefix(s: Seq<char>, ts: Seq<Located<RefLike>>, n: int)
    requires
        tokens_of_text(s, ts),
        0 <= n <= ts.len(),
    ensures
        marked_prefix(s, ts, plain_texts(ts), n) == s.subrange(0, end_before(ts, n)),
    decreases n,
{
    if n > 0 {
        lemma_plain_prefix(s, ts, n - 1);
        if n > 1 {
            assert(token_end(ts[n - 2]) <= ts[n - 1].col);
        }
        assert(token_end(ts[n - 1]) <= s.len());
        assert(s.subrange(0, end_before(ts, n - 1)) + s.subrange(end_before(ts, n - 1), ts[n - 1].col as int)
            + ts[n - 1].el.hash@ =~= s.subrange(0, end_before(ts, n)));
    }
}

/// Marking is purely additive: with each painted token taken back to its
/// plain text (its style codes stripped), the marked line is `s` again.
pub proof fn lemma_round_trip(s: Seq<char>, ts: Seq<Located<RefLike>>)
    requires
        tokens_of_text(s, ts),
    ensures
        marked(s, ts, plain_texts(ts)) == s,
{
    lemma_plain_prefix(s, ts, ts.len() as int);
    if ts.len() > 0 {
        assert(token_end(ts[ts.len() - 1]) <= s.len());
    }
    assert(s.subrange(0, end_before(ts, ts.len() as int)) + s.subrange(
        end_before(ts, ts.len() as int),
        s.len() as int,
    ) =~= s);
}

} // verus!
