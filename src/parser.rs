//! The tokenizer: text lines in, located hexadecimal runs out.

use vstd::prelude::*;

use crate::text::{chars_of, split_lines, text_lines};

verus! {

/// A candidate revision hash.
#[derive(Debug, PartialEq, Eq)]
pub struct RefLike {
    pub hash: String,
}

/// A value together with where it starts in the text.
#[derive(Debug, PartialEq, Eq)]
pub struct Located<A> {
    pub el: A,
    pub col: usize,
    pub line: usize,
}

/// The shortest hexadecimal run that counts as a candidate hash.
pub const MIN_HASH_LEN: usize = 6;

/// `c` is one of `0-9`, `a-f`, `A-F`.
pub open spec fn is_hex(c: char) -> bool {
    ('0' <= c && c <= '9') || ('a' <= c && c <= 'f') || ('A' <= c && c <= 'F')
}

/// Whether `c` is a hexadecimal digit.
pub fn is_hex_digit_char(c: char) -> (r: bool)
    ensures
        r == is_hex(c),
{
    ('0' <= c && c <= '9') || ('a' <= c && c <= 'f') || ('A' <= c && c <= 'F')
}

/// Wraps `hash` as a candidate when it is long enough.
pub fn mk_reflike(hash: &str) -> (r: Option<RefLike>)
    ensures
        r is Some <==> hash@.len() >= MIN_HASH_LEN,
        r matches Some(v) ==> v.hash@ == hash@,
{
    if hash.unicode_len() >= MIN_HASH_LEN {
        Some(RefLike { hash: hash.to_owned() })
    } else {
        None
    }
}

/// Every position in `s[a..b)` holds a hexadecimal character.
pub open spec fn all_hex(s: Seq<char>, a: int, b: int) -> bool {
    forall|i: int| a <= i < b ==> is_hex(#[trigger] s[i])
}

/// `s[start..start + len)` is a maximal run of hexadecimal characters.
pub open spec fn is_hex_run(s: Seq<char>, start: int, len: int) -> bool {
    &&& 0 <= start
    &&& 0 < len
    &&& start + len <= s.len()
    &&& all_hex(s, start, start + len)
    &&& (start == 0 || !is_hex(s[start - 1]))
    &&& (start + len == s.len() || !is_hex(s[start + len]))
}

/// A maximal hexadecimal run that is long enough to be reported.
pub open spec fn is_candidate(s: Seq<char>, start: int, len: int) -> bool {
    is_hex_run(s, start, len) && len >= MIN_HASH_LEN
}

/// The number of characters that `t` covers.
pub open spec fn token_len(t: Located<RefLike>) -> int {
    t.el.hash@.len() as int
}

/// One past the last column that `t` covers.
pub open spec fn token_end(t: Located<RefLike>) -> int {
    t.col + token_len(t)
}

/// `t` is a candidate of line `s`, numbered `row`, and holds that candidate's text.
pub open spec fn is_token_of(s: Seq<char>, row: int, t: Located<RefLike>) -> bool {
    &&& t.line == row
    &&& is_candidate(s, t.col as int, token_len(t))
    &&& t.el.hash@ == s.subrange(t.col as int, token_end(t))
}

/// `ts` is exactly the list of candidates of line `s`, left to right.
pub open spec fn line_tokens(s: Seq<char>, row: int, ts: Seq<Located<RefLike>>) -> bool {
    &&& forall|k: int| 0 <= k < ts.len() ==> is_token_of(s, row, #[trigger] ts[k])
    &&& forall|k: int, j: int| 0 <= k < j < ts.len() ==> ts[k].col < ts[j].col
    &&& forall|start: int, len: int|
        #[trigger] is_candidate(s, start, len) ==> exists|k: int|
            0 <= k < ts.len() && #[trigger] ts[k].col == start
}

/// The tokenizer never fails on its input; this error is kept for callers
/// that distinguish a scanning fault from an empty result.
#[derive(Debug, PartialEq, Eq)]
pub struct ParseError {
    pub line: usize,
    pub col: usize,
}

/// Scans one line and returns its candidates, numbered `row`.
pub fn parse_line(ls: &str, row: usize) -> (r: Result<Vec<Located<RefLike>>, ParseError>)
    ensures
        r matches Ok(ts) && line_tokens(ls@, row as int, ts@),
{
    let chars = chars_of(ls);
    let n = chars.len();
    let ghost s = ls@;
    let mut tokens: Vec<Located<RefLike>> = Vec::new();
    let mut i: usize = 0;
    while i < n
        invariant
            chars@ == s,
            n == s.len(),
            i <= n,
            i < n && is_hex(s[i as int]) ==> (i == 0 || !is_hex(s[i - 1])),
            forall|k: int| 0 <= k < tokens.len() ==> is_token_of(s, row as int, #[trigger] tokens@[k]),
            forall|k: int| 0 <= k < tokens.len() ==> token_end(#[trigger] tokens@[k]) <= i,
            forall|k: int, j: int| 0 <= k < j < tokens.len() ==> tokens@[k].col < tokens@[j].col,
            forall|start: int, len: int|
                #[trigger] is_candidate(s, start, len) && start < i ==> exists|k: int|
                    0 <= k < tokens.len() && #[trigger] tokens@[k].col == start,
        decreases n - i,
    {
        if !is_hex_digit_char(chars[i]) {
            i = i + 1;
        } else {
            let start = i;
            let mut hash = String::new();
            while i < n && is_hex_digit_char(chars[i])
                invariant
                    chars@ == s,
                    n == s.len(),
                    start <= i <= n,
                    all_hex(s, start as int, i as int),
                    hash@ == s.subrange(start as int, i as int),
                decreases n - i,
            {
                hash.push(chars[i]);
                i = i + 1;
            }
            assert(is_hex_run(s, start as int, i - start));
            assert forall|st: int, len: int|
                #[trigger] is_candidate(s, st, len) && start <= st < i implies st == start && len
                    == i - start by {
                if st > start {
                    assert(is_hex(s[st - 1]));
                }
                if len < i - start {
                    assert(is_hex(s[st + len]));
                }
                if len > i - start {
                    assert(is_hex(s[i as int]));
                }
            }
            if i - start >= MIN_HASH_LEN {
                let ghost old_tokens = tokens@;
                tokens.push(Located { el: RefLike { hash }, col: start, line: row });
                assert(tokens@[tokens@.len() - 1].col == start);
                assert forall|st: int, len: int|
                    #[trigger] is_candidate(s, st, len) && st < i implies exists|k: int|
                        0 <= k < tokens.len() && #[trigger] tokens@[k].col == st by {
                    if st < start {
                        let k = choose|k: int| 0 <= k < old_tokens.len() && #[trigger] old_tokens[k].col == st;
                        assert(tokens@[k] == old_tokens[k]);
                    }
                }
            }
        }
    }
    Ok(tokens)
}

/// The text of each line.
pub open spec fn line_views(lines: Seq<String>) -> Seq<Seq<char>> {
    lines.map_values(|l: String| l@)
}

/// `a` comes strictly before `b`: by line, then by column.
pub open spec fn precedes(a: Located<RefLike>, b: Located<RefLike>) -> bool {
    a.line < b.line || (a.line == b.line && a.col < b.col)
}

/// `ts` is exactly the list of candidates of all of `lines`, ordered by line,
/// then by column.
pub open spec fn text_tokens(lines: Seq<Seq<char>>, ts: Seq<Located<RefLike>>) -> bool {
    &&& forall|k: int|
        0 <= k < ts.len() ==> #[trigger] ts[k].line < lines.len() && is_token_of(
            lines[ts[k].line as int],
            ts[k].line as int,
            ts[k],
        )
    &&& forall|k: int, j: int| 0 <= k < j < ts.len() ==> precedes(ts[k], ts[j])
    &&& forall|row: int, start: int, len: int|
        0 <= row < lines.len() && #[trigger] is_candidate(lines[row], start, len) ==> exists|k: int|
            0 <= k < ts.len() && #[trigger] ts[k].line == row && ts[k].col == start
}

/// Scans every line, numbering lines from 0, and returns all candidates in
/// text order.
pub fn parse_lines(lines: &[String]) -> (r: Vec<Located<RefLike>>)
    ensures
        text_tokens(line_views(lines@), r@),
{
    let ghost ls = line_views(lines@);
    let mut out: Vec<Located<RefLike>> = Vec::new();
    let mut row: usize = 0;
    while row < lines.len()
        invariant
            ls == line_views(lines@),
            row <= lines.len(),
            forall|k: int|
                0 <= k < out.len() ==> #[trigger] out@[k].line < row && is_token_of(
                    ls[out@[k].line as int],
                    out@[k].line as int,
                    out@[k],
                ),
            forall|k: int, j: int| 0 <= k < j < out.len() ==> precedes(out@[k], out@[j]),
            forall|r: int, start: int, len: int|
                0 <= r < row && #[trigger] is_candidate(ls[r], start, len) ==> exists|k: int|
                    0 <= k < out.len() && #[trigger] out@[k].line == r && out@[k].col == start,
        decreases lines.len() - row,
    {
        assert(ls[row as int] == lines@[row as int]@);
        match parse_line(lines[row].as_str(), row) {
            Ok(mut ts) => {
                let ghost prev = out@;
                let ghost found = ts@;
                out.append(&mut ts);
                assert(out@ == prev + found);
                assert forall|k: int|
                    0 <= k < out.len() implies #[trigger] out@[k].line < row + 1 && is_token_of(
                        ls[out@[k].line as int],
                        out@[k].line as int,
                        out@[k],
                    ) by {
                    if k >= prev.len() {
                        assert(out@[k] == found[k - prev.len()]);
                    }
                }
                assert forall|k: int, j: int|
                    0 <= k < j < out.len() implies precedes(out@[k], out@[j]) by {
                    if j >= prev.len() {
                        assert(out@[j] == found[j - prev.len()]);
                        if k >= prev.len() {
                            assert(out@[k] == found[k - prev.len()]);
                        }
                    }
                }
                assert forall|r: int, start: int, len: int|
                    0 <= r < row + 1 && #[trigger] is_candidate(ls[r], start, len) implies exists|k: int|
                        0 <= k < out.len() && #[trigger] out@[k].line == r && out@[k].col == start by {
                    if r < row {
                        let k = choose|k: int|
                            0 <= k < prev.len() && #[trigger] prev[k].line == r && prev[k].col == start;
                        assert(out@[k] == prev[k]);
                    } else {
                        let k = choose|k: int| 0 <= k < found.len() && #[trigger] found[k].col == start;
                        assert(out@[prev.len() + k] == found[k]);
                    }
                }
            },
            Err(_) => {},
        }
        row = row + 1;
    }
    out
}

/// Splits `text` into lines and scans them all.
pub fn parse_bufread(text: &str) -> (r: Vec<Located<RefLike>>)
    ensures
        text_tokens(text_lines(text@), r@),
{
    let lines = split_lines(text);
    parse_lines(lines.as_slice())
}

/// No reported hash is shorter than six characters.
pub proof fn lemma_tokens_long_enough(lines: Seq<Seq<char>>, ts: Seq<Located<RefLike>>)
    requires
        text_tokens(lines, ts),
    ensures
        forall|k: int| 0 <= k < ts.len() ==> (#[trigger] ts[k]).el.hash@.len() >= MIN_HASH_LEN,
{
    assert forall|k: int| 0 <= k < ts.len() implies (#[trigger] ts[k]).el.hash@.len()
        >= MIN_HASH_LEN by {
        assert(ts[k].line < lines.len());
    }
}

/// Tokens on one line come with strictly increasing columns, and each ends
/// before the next one begins.
pub proof fn lemma_tokens_disjoint(lines: Seq<Seq<char>>, ts: Seq<Located<RefLike>>)
    requires
        text_tokens(lines, ts),
    ensures
        forall|k: int, j: int|
            0 <= k < j < ts.len() && ts[k].line == ts[j].line ==> ts[k].col < ts[j].col
                && token_end(#[trigger] ts[k]) < (#[trigger] ts[j]).col,
{
    assert forall|k: int, j: int|
        0 <= k < j < ts.len() && ts[k].line == ts[j].line implies ts[k].col < ts[j].col
            && token_end(#[trigger] ts[k]) < (#[trigger] ts[j]).col by {
        assert(precedes(ts[k], ts[j]));
        assert(ts[k].line < lines.len());
        assert(ts[j].line < lines.len());
        let s = lines[ts[k].line as int];
        assert(is_token_of(s, ts[k].line as int, ts[k]));
        assert(is_token_of(s, ts[j].line as int, ts[j]));
        let cj = ts[j].col as int;
        if token_end(ts[k]) > cj {
            assert(is_hex(s[cj - 1]));
        }
        if token_end(ts[k]) == cj {
            assert(is_hex(s[cj]));
        }
    }
}

} // verus!
