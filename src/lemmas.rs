//! Facts about the scoring model used by the matcher's proofs.
use vstd::prelude::*;

use crate::chars::chars_match;
use crate::model::{cell, char_score, is_placement, max_score, occurs_in_order, score_of};

verus! {

/// Once the first `f` positions of row `j - 1` score 0, row `j` scores 0 on
/// positions `0..=f`, with no run.
pub proof fn lemma_zero_prefix(t: Seq<char>, q: Seq<char>, j: int, f: int)
    requires
        2 <= j <= q.len(),
        0 <= f < t.len(),
        forall|i: int| 0 <= i < f ==> #[trigger] cell(t, q, j - 1, i).0 == 0,
    ensures
        forall|i: int| 0 <= i <= f ==> #[trigger] cell(t, q, j, i) == (0nat, 0nat),
    decreases f,
{
    if f > 0 {
        lemma_zero_prefix(t, q, j, f - 1);
        assert(cell(t, q, j - 1, f - 1).0 == 0);
        assert(cell(t, q, j, f - 1).0 == 0);
    }
    assert(cell(t, q, j, f) == (0nat, 0nat));
}

/// A row that scores 0 everywhere leaves the whole query without a placement.
pub proof fn lemma_zero_row_is_final(t: Seq<char>, q: Seq<char>, j: int)
    requires
        1 <= j <= q.len(),
        t.len() > 0,
        forall|i: int| 0 <= i < t.len() ==> #[trigger] cell(t, q, j, i).0 == 0,
    ensures
        cell(t, q, q.len() as int, t.len() - 1).0 == 0,
    decreases q.len() - j,
{
    if j < q.len() {
        lemma_zero_prefix(t, q, j + 1, t.len() - 1);
        lemma_zero_row_is_final(t, q, j + 1);
    }
}

pub proof fn lemma_max_score_step(j: nat)
    requires
        j >= 1,
    ensures
        max_score((j - 1) as nat) + 12 + 5 * (j - 1) == max_score(j),
{
    let p = (j - 1) as int;
    let x = 5 * p * (p - 1);
    assert(5 * (p + 1) * p == x + 10 * p) by (nonlinear_arith)
        requires
            x == 5 * p * (p - 1),
    ;
    assert(x >= 0) by (nonlinear_arith)
        requires
            x == 5 * p * (p - 1),
            p >= 0,
    ;
    assert((x + 10 * p) / 2 == x / 2 + 5 * p);
}

pub proof fn lemma_max_score_monotone(a: nat, b: nat)
    requires
        a <= b,
    ensures
        max_score(a) <= max_score(b),
    decreases b - a,
{
    if a < b {
        lemma_max_score_step(b);
        lemma_max_score_monotone(a, (b - 1) as nat);
    }
}

/// Scores of row `j` stay within `max_score(j)` and runs within `j`.
pub proof fn lemma_cell_bounds(t: Seq<char>, q: Seq<char>, j: int, i: int)
    requires
        1 <= j <= q.len(),
        0 <= i < t.len(),
    ensures
        cell(t, q, j, i).0 <= max_score(j as nat),
        cell(t, q, j, i).1 <= j,
    decreases j, i,
{
    if i > 0 {
        lemma_cell_bounds(t, q, j, i - 1);
    }
    if i > 0 && j > 1 {
        lemma_cell_bounds(t, q, j - 1, i - 1);
    }
    lemma_max_score_step(j as nat);
}

/// A positive score in row `j` up to position `i` comes from a placement of
/// the first `j` query characters within positions `0..=i`.
pub proof fn lemma_placement_of_score(t: Seq<char>, q: Seq<char>, j: int, i: int) -> (idx: Seq<
    int,
>)
    requires
        1 <= j <= q.len(),
        0 <= i < t.len(),
        cell(t, q, j, i).0 > 0,
    ensures
        idx.len() == j,
        forall|k: int| 0 <= k < j ==> 0 <= #[trigger] idx[k] <= i,
        forall|k: int| 0 <= k < j ==> chars_match(t[#[trigger] idx[k]], q[k]),
        forall|k: int| 0 < k < j ==> idx[k - 1] < #[trigger] idx[k],
    decreases j, i,
{
    let before: nat = if i == 0 {
        0
    } else {
        cell(t, q, j, i - 1).0
    };
    let from_prev: nat = if i == 0 || j == 1 {
        0
    } else {
        cell(t, q, j - 1, i - 1).0
    };
    let run: nat = if i == 0 || j == 1 {
        0
    } else {
        cell(t, q, j - 1, i - 1).1
    };
    let accepted = !(j > 1 && from_prev == 0) && chars_match(t[i], q[j - 1]) && from_prev
        + char_score(t, i, q[j - 1], run) >= before;
    if accepted {
        if j == 1 {
            seq![i]
        } else {
            let prev = lemma_placement_of_score(t, q, j - 1, i - 1);
            let idx = prev.push(i);
            assert(idx[j - 1] == i);
            assert forall|k: int| 0 <= k < j - 1 implies idx[k] == prev[k] by {}
            idx
        }
    } else {
        lemma_placement_of_score(t, q, j, i - 1)
    }
}

/// A placement of the first `j` query characters within positions `0..=i`
/// gives row `j` a positive score at `i`.
pub proof fn lemma_score_of_placement(t: Seq<char>, q: Seq<char>, j: int, i: int, idx: Seq<int>)
    requires
        1 <= j <= q.len(),
        0 <= i < t.len(),
        j <= idx.len(),
        forall|k: int| 0 <= k < j ==> 0 <= #[trigger] idx[k] < t.len(),
        forall|k: int| 0 <= k < j ==> chars_match(t[#[trigger] idx[k]], q[k]),
        forall|k: int| 0 < k < j ==> idx[k - 1] < #[trigger] idx[k],
        idx[j - 1] <= i,
    ensures
        cell(t, q, j, i).0 > 0,
    decreases j, i,
{
    let p = idx[j - 1];
    if i > p {
        lemma_score_of_placement(t, q, j, i - 1, idx);
        assert(cell(t, q, j, i).0 >= cell(t, q, j, i - 1).0);
    } else {
        if j > 1 {
            assert(idx[j - 2] < idx[j - 1]);
            lemma_score_of_placement(t, q, j - 1, i - 1, idx);
        }
        assert(chars_match(t[i], q[j - 1]));
    }
}

/// A query scores exactly when it is non-empty and its characters occur in
/// the target in order, compared case-insensitively with `/` and `\`
/// interchangeable. In particular an empty query never scores, and a query
/// that does not occur in order never scores.
pub proof fn lemma_match_iff_in_order(t: Seq<char>, q: Seq<char>)
    ensures
        score_of(t, q) is Some <==> (q.len() > 0 && occurs_in_order(t, q)),
{
    if score_of(t, q) is Some {
        let idx = lemma_placement_of_score(t, q, q.len() as int, t.len() - 1);
        assert(is_placement(t, q, idx));
    }
    if q.len() > 0 && occurs_in_order(t, q) {
        let idx = choose|idx: Seq<int>| is_placement(t, q, idx);
        assert(0 <= idx[0] < t.len());
        lemma_score_of_placement(t, q, q.len() as int, t.len() - 1, idx);
    }
}

} // verus!
