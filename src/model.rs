//! The scoring model: a dynamic program over query prefixes and target
//! positions, and the notion of a query occurring in order in a target.
use vstd::prelude::*;

use crate::chars::{chars_match, is_path_separator, is_separator, is_upper_char};

verus! {

/// Points for matching query character `qc` at target position `i`, with
/// `run` target characters before `i` already matched contiguously: 1, plus 5
/// for each character of the run, plus 1 when the case agrees, plus the first
/// that applies of 8 at the start of the target, 5 on a path separator, 4 on
/// another separator, and 2 at the start of a word (after a separator or on
/// an upper case letter, with no run), plus 2 at the end of the target.
pub open spec fn char_score(t: Seq<char>, i: int, qc: char, run: nat) -> nat {
    let c = t[i];
    let position: nat = if i == 0 {
        8
    } else if is_path_separator(c) {
        5
    } else if is_separator(c) {
        4
    } else if run == 0 && (is_separator(t[i - 1]) || is_upper_char(c)) {
        2
    } else {
        0
    };
    let same_case: nat = if c == qc {
        1
    } else {
        0
    };
    let last: nat = if i + 1 == t.len() {
        2
    } else {
        0
    };
    1 + 5 * run + same_case + position + last
}

/// One step of the scoring model at target position `i` for query character
/// `qc`: `before` is the best score at positions before `i`, `from_prev` the
/// best score of the previous query character before `i` and `run` its run
/// length there. `later` is false for the first query character, which needs
/// no earlier placement. Returns the best score at or before `i` and the run
/// length ending at `i`.
pub open spec fn extend(
    t: Seq<char>,
    i: int,
    qc: char,
    later: bool,
    before: nat,
    from_prev: nat,
    run: nat,
) -> (nat, nat) {
    if later && from_prev == 0 {
        (before, 0)
    } else if !chars_match(t[i], qc) {
        (before, 0)
    } else {
        let cand = from_prev + char_score(t, i, qc, run);
        if cand >= before {
            (cand, run + 1)
        } else {
            (before, 0)
        }
    }
}

/// The best score for placing the first `j` query characters within target
/// positions `0..=i`, paired with the length of the contiguous run that ends
/// at `i` when that best placement puts query character `j - 1` at `i`
/// (otherwise 0). A score of 0 means no placement.
pub open spec fn cell(t: Seq<char>, q: Seq<char>, j: int, i: int) -> (nat, nat)
    decreases j, i,
{
    if j < 1 || j > q.len() || i < 0 || i >= t.len() {
        (0, 0)
    } else {
        let before: nat = if i == 0 {
            0
        } else {
            cell(t, q, j, i - 1).0
        };
        let from_prev: nat = if i == 0 || j == 1 {
            0
        } else {
            cell(t, q, j - 1, i - 1).0
        };
        let run: nat = if i == 0 || j == 1 {
            0
        } else {
            cell(t, q, j - 1, i - 1).1
        };
        extend(t, i, q[j - 1], j > 1, before, from_prev, run)
    }
}

/// The score of `q` against `t`: the best placement of the whole query, or
/// `None` where there is none (an empty query or target included).
pub open spec fn score_of(t: Seq<char>, q: Seq<char>) -> Option<nat> {
    if q.len() == 0 || t.len() == 0 {
        None
    } else {
        let s = cell(t, q, q.len() as int, t.len() - 1).0;
        if s == 0 {
            None
        } else {
            Some(s)
        }
    }
}

/// The largest score a query of `m` characters can reach: query character
/// `k` (from 0) earns at most 12 points plus 5 for a run of `k` characters.
pub open spec fn max_score(m: nat) -> nat {
    (12 * m + 5 * m * (m - 1) / 2) as nat
}

/// `idx` places each character of `q` on a matching character of `t`, at
/// strictly increasing positions.
pub open spec fn is_placement(t: Seq<char>, q: Seq<char>, idx: Seq<int>) -> bool {
    &&& idx.len() == q.len()
    &&& forall|k: int| 0 <= k < idx.len() ==> 0 <= #[trigger] idx[k] < t.len()
    &&& forall|k: int| 0 <= k < idx.len() ==> chars_match(t[#[trigger] idx[k]], q[k])
    &&& forall|k: int| 0 < k < idx.len() ==> idx[k - 1] < #[trigger] idx[k]
}

/// The characters of `q` occur in `t` in order (case-insensitively, with `/`
/// and `\` interchangeable).
pub open spec fn occurs_in_order(t: Seq<char>, q: Seq<char>) -> bool {
    exists|idx: Seq<int>| is_placement(t, q, idx)
}

} // verus!
