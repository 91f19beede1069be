//! The selector: a state machine that moves a selection over the tokens as
//! keys come in, until one is confirmed or the choice is cancelled.

use vstd::prelude::*;

use vstd::arithmetic::div_mod::{lemma_add_mod_noop_right, lemma_mod_self_0, lemma_small_mod};

verus! {

/// A key as the terminal reports it.
#[derive(Debug, Clone, Copy, PartialEq, Eq, Structural)]
pub enum Key {
    ArrowUp,
    ArrowDown,
    ArrowLeft,
    ArrowRight,
    Enter,
    Escape,
    Char(char),
    Other,
}

/// Where the choice among the tokens stands.
#[derive(Debug, Clone, Copy, PartialEq, Eq, Structural)]
pub enum Selection {
    /// The token at this index is highlighted, and keys are still read.
    Browsing(usize),
    /// The token at this index was chosen.
    Confirmed(usize),
    /// The choice was given up.
    Cancelled,
}

/// Keys that move the selection forward.
pub open spec fn is_next_key(key: Key) -> bool {
    key is ArrowDown || key is ArrowRight || key == Key::Char('j')
}

/// Keys that move the selection back.
pub open spec fn is_prev_key(key: Key) -> bool {
    key is ArrowUp || key is ArrowLeft || key == Key::Char('k')
}

/// The state before any key is read among `n` tokens: none when there is
/// nothing to choose from.
pub open spec fn initial_selection(n: nat) -> Option<Selection> {
    if n == 0 {
        None
    } else {
        Some(Selection::Browsing(0))
    }
}

/// The state after `key` among `n` tokens. Moving wraps around at both
/// ends; a confirmed or cancelled choice stays as it is.
pub open spec fn next_selection(s: Selection, key: Key, n: nat) -> Selection {
    match s {
        Selection::Browsing(i) => {
            if is_next_key(key) {
                Selection::Browsing(((i + 1) % (n as int)) as usize)
            } else if is_prev_key(key) {
                Selection::Browsing(((i - 1 + n) % (n as int)) as usize)
            } else if key is Enter {
                Selection::Confirmed(i)
            } else if key is Escape {
                Selection::Cancelled
            } else {
                s
            }
        },
        _ => s,
    }
}

/// Every index that `s` holds is one of the `n` tokens.
pub open spec fn selection_in_range(s: Selection, n: nat) -> bool {
    match s {
        Selection::Browsing(i) => i < n,
        Selection::Confirmed(i) => i < n,
        Selection::Cancelled => true,
    }
}

/// The state after each of `keys`, pressed in order, starting from `s`.
pub open spec fn after_keys(s: Selection, keys: Seq<Key>, n: nat) -> Selection
    decreases keys.len(),
{
    if keys.len() == 0 {
        s
    } else {
        next_selection(after_keys(s, keys.drop_last(), n), keys.last(), n)
    }
}

/// Where the choice starts among `n` tokens; `None` means there is nothing
/// to choose, and the choice is over without one.
pub fn start(n: usize) -> (r: Option<Selection>)
    ensures
        r == initial_selection(n as nat),
{
    if n == 0 {
        None
    } else {
        Some(Selection::Browsing(0))
    }
}

/// Moves the choice on by one key.
pub fn step(s: Selection, key: Key, n: usize) -> (r: Selection)
    requires
        n > 0,
        selection_in_range(s, n as nat),
    ensures
        r == next_selection(s, key, n as nat),
        selection_in_range(r, n as nat),
{
    match s {
        Selection::Browsing(i) => {
            proof {
                lemma_mod_self_0(n as int);
                if i + 1 < n {
                    lemma_small_mod((i + 1) as nat, n as nat);
                }
                if i > 0 {
                    lemma_small_mod((i - 1) as nat, n as nat);
                    assert((i - 1 + n) % (n as int) == i - 1) by {
                        lemma_add_mod_noop_right(i - 1, n as int, n as int);
                    }
                } else {
                    lemma_small_mod((n - 1) as nat, n as nat);
                }
            }
            let next = match key {
                Key::ArrowDown | Key::ArrowRight | Key::Char('j') => true,
                _ => false,
            };
            let prev = match key {
                Key::ArrowUp | Key::ArrowLeft | Key::Char('k') => true,
                _ => false,
            };
            if next {
                Selection::Browsing(if i + 1 == n {
                    0
                } else {
                    i + 1
                })
            } else if prev {
                Selection::Browsing(if i == 0 {
                    n - 1
                } else {
                    i - 1
                })
            } else {
                match key {
                    Key::Enter => Selection::Confirmed(i),
                    Key::Escape => Selection::Cancelled,
                    _ => s,
                }
            }
        },
        _ => s,
    }
}

/// The index that the choice settled on, if it was confirmed.
pub fn chosen(s: Selection) -> (r: Option<usize>)
    ensures
        r == (match s {
            Selection::Confirmed(i) => Some(i),
            _ => None,
        }),
{
    match s {
        Selection::Confirmed(i) => Some(i),
        _ => None,
    }
}

/// `k` presses of the down arrow.
pub open spec fn downs(k: nat) -> Seq<Key> {
    Seq::new(k, |i: int| Key::ArrowDown)
}

proof fn lemma_downs_from_first(n: nat, k: nat)
    requires
        n > 0,
        n <= usize::MAX,
    ensures
        after_keys(Selection::Browsing(0), downs(k), n) == Selection::Browsing((k % n) as usize),
    decreases k,
{
    if k == 0 {
        lemma_small_mod(0, n);
    } else {
        lemma_downs_from_first(n, (k - 1) as nat);
        assert(downs(k).drop_last() =~= downs((k - 1) as nat));
        lemma_add_mod_noop_right(1, k - 1, n as int);
        assert(((k - 1) as int % n as int + 1) % (n as int) == k as int % n as int);
    }
}

/// Cycling: among `n` tokens, `n` presses of next from the first token come
/// back to it, and one press of previous from the first token goes to the
/// last.
pub proof fn lemma_cyclic_navigation(n: usize)
    requires
        n > 0,
    ensures
        after_keys(Selection::Browsing(0), downs(n as nat), n as nat) == Selection::Browsing(0),
        next_selection(Selection::Browsing(0), Key::ArrowUp, n as nat) == Selection::Browsing(
            (n - 1) as usize,
        ),
{
    lemma_downs_from_first(n as nat, n as nat);
    lemma_mod_self_0(n as int);
    lemma_small_mod((n - 1) as nat, n as nat);
}

} // verus!
