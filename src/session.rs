//! The decisions around one run: which lines to show, which backend to use,
//! and when there is nothing to choose.

use vstd::prelude::*;

use crate::parser::{is_candidate, text_tokens, Located, RefLike};
use crate::select::initial_selection;

verus! {

/// Where the shown lines start among `len` lines: the last `height - 1`
/// lines are shown when the terminal's height is known, all of them
/// otherwise.
pub open spec fn viewport_start(len: nat, height: Option<usize>) -> nat {
    match height {
        None => 0,
        Some(h) => if h == 0 {
            len
        } else if h - 1 >= len {
            0
        } else {
            (len - (h - 1)) as nat
        },
    }
}

/// The lines that fit a terminal of `height` rows, keeping one row free.
pub fn truncate_to_viewport(lines: &Vec<String>, height: Option<usize>) -> (r: Vec<String>)
    ensures
        r@ == lines@.subrange(viewport_start(lines@.len(), height) as int, lines@.len() as int),
{
    let len = lines.len();
    let first = match height {
        None => 0,
        Some(h) => if h == 0 {
            len
        } else if h - 1 >= len {
            0
        } else {
            len - (h - 1)
        },
    };
    let mut r: Vec<String> = Vec::new();
    let mut i = first;
    while i < len
        invariant
            first <= i <= len,
            len == lines.len(),
            first == viewport_start(lines@.len(), height),
            r@ == lines@.subrange(first as int, i as int),
        decreases len - i,
    {
        r.push(lines[i].clone());
        assert(lines@.subrange(first as int, i + 1) =~= lines@.subrange(first as int, i as int).push(
            lines@[i as int],
        ));
        i = i + 1;
    }
    r
}

/// The backend to use, given `found[d][b]`: whether directory `d` (0 is the
/// starting directory, then each parent in turn) holds the marker of
/// backend `b` (in priority order). The nearest directory with any marker
/// wins, and there the first backend in priority order.
pub fn first_backend(found: &Vec<Vec<bool>>) -> (r: Option<(usize, usize)>)
    ensures
        r is None ==> forall|d: int, b: int|
            0 <= d < found@.len() && 0 <= b < found@[d]@.len() ==> !found@[d]@[b],
        r matches Some((d, b)) ==> {
            &&& d < found@.len()
            &&& b < found@[d as int]@.len()
            &&& found@[d as int]@[b as int]
            &&& forall|d2: int, b2: int|
                0 <= d2 < d && 0 <= b2 < found@[d2]@.len() ==> !found@[d2]@[b2]
            &&& forall|b2: int| 0 <= b2 < b ==> !found@[d as int]@[b2]
        },
{
    let mut d: usize = 0;
    while d < found.len()
        invariant
            d <= found.len(),
            forall|d2: int, b2: int| 0 <= d2 < d && 0 <= b2 < found@[d2]@.len() ==> !found@[d2]@[b2],
        decreases found.len() - d,
    {
        let row = &found[d];
        let mut b: usize = 0;
        while b < row.len()
            invariant
                d < found.len(),
                forall|d2: int, b2: int|
                    0 <= d2 < d && 0 <= b2 < found@[d2]@.len() ==> !found@[d2]@[b2],
                row@ == found@[d as int]@,
                b <= row.len(),
                forall|b2: int| 0 <= b2 < b ==> !row@[b2],
            decreases row.len() - b,
        {
            if row[b] {
                return Some((d, b));
            }
            b = b + 1;
        }
        d = d + 1;
    }
    None
}

/// When no line holds a candidate, the scan finds nothing, and the choice
/// is over before any key is read, with nothing chosen.
pub proof fn lemma_nothing_to_choose(lines: Seq<Seq<char>>, ts: Seq<Located<RefLike>>)
    requires
        text_tokens(lines, ts),
        forall|row: int, start: int, len: int|
            0 <= row < lines.len() ==> !is_candidate(lines[row], start, len),
    ensures
        ts.len() == 0,
        initial_selection(ts.len()) is None,
{
    if ts.len() > 0 {
        assert(ts[0].line < lines.len());
    }
}

} // verus!
