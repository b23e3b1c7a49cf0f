//! The matcher: a row-by-row sweep of the scoring model, holding two rows of
//! scores and run lengths at a time.
use vstd::prelude::*;

use crate::chars::{char_matches, is_separator, path_separator, separator, upper_char};
use crate::lemmas::{
    lemma_cell_bounds, lemma_max_score_monotone, lemma_max_score_step, lemma_zero_prefix,
    lemma_match_iff_in_order, lemma_zero_row_is_final,
};
use crate::model::{cell, extend, max_score, occurs_in_order, score_of};

verus! {

/// What the previous row hands to the sweep of row `j`: for the first query
/// character, rows of zeros from position 0; afterwards, row `j - 1` from the
/// position before `cursor` on, which is its first placement.
pub open spec fn row_ready(
    t: Seq<char>,
    q: Seq<char>,
    j: int,
    cursor: int,
    prev_score: Seq<usize>,
    prev_counts: Seq<usize>,
) -> bool {
    &&& prev_score.len() == t.len()
    &&& prev_counts.len() == t.len()
    &&& 0 <= cursor < t.len()
    &&& j == 1 ==> {
        &&& cursor == 0
        &&& forall|i: int| 0 <= i < t.len() ==> prev_score[i] == 0 && prev_counts[i] == 0
    }
    &&& j > 1 ==> {
        &&& cursor >= 1
        &&& forall|i: int|
            cursor - 1 <= i < t.len() ==> prev_score[i] == #[trigger] cell(t, q, j - 1, i).0
                && prev_counts[i] == cell(t, q, j - 1, i).1
        &&& forall|i: int| 0 <= i < cursor - 1 ==> #[trigger] cell(t, q, j - 1, i).0 == 0
        &&& cell(t, q, j - 1, cursor - 1).1 >= 1
    }
}

/// Row `j` from position `f` on is held in `score` and `counts`, and `f` is its
/// first placement.
pub open spec fn row_done(
    t: Seq<char>,
    q: Seq<char>,
    j: int,
    f: int,
    score: Seq<usize>,
    counts: Seq<usize>,
) -> bool {
    &&& score.len() == t.len()
    &&& counts.len() == t.len()
    &&& 0 <= f < t.len()
    &&& forall|i: int|
        f <= i < t.len() ==> score[i] == #[trigger] cell(t, q, j, i).0 && counts[i] == cell(
            t,
            q,
            j,
            i,
        ).1
    &&& forall|i: int| 0 <= i < f ==> #[trigger] cell(t, q, j, i).0 == 0
    &&& cell(t, q, j, f).1 >= 1
}

/// Replaces the contents of `out` with the characters of `s`.
fn load_chars(s: &str, out: &mut Vec<char>)
    ensures
        final(out)@ == s@,
{
    broadcast use vstd::string::axiom_spec_iter;

    out.clear();
    for c in it: s.chars()
        invariant
            out@ == it.seq().take(it.index() as int),
    {
        out.push(c);
    }
    assert(out@ == s@);
}

/// Makes `v` a row of `n` zeros.
fn zero_row(v: &mut Vec<usize>, n: usize)
    ensures
        final(v).len() == n,
        forall|i: int| 0 <= i < n ==> final(v)[i] == 0,
{
    v.clear();
    let mut i: usize = 0;
    while i < n
        invariant
            i <= n,
            v.len() == i,
            forall|k: int| 0 <= k < i ==> v[k] == 0,
        decreases n - i,
    {
        v.push(0);
        i = i + 1;
    }
}

/// Sets the entries of `v` from position `from` on to zero.
fn clear_from(v: &mut Vec<usize>, from: usize)
    requires
        from <= old(v).len(),
    ensures
        final(v).len() == old(v).len(),
        forall|i: int| 0 <= i < from ==> final(v)[i] == old(v)[i],
        forall|i: int| from <= i < final(v).len() ==> final(v)[i] == 0,
{
    let mut i = from;
    while i < v.len()
        invariant
            from <= i <= v.len(),
            v.len() == old(v).len(),
            forall|k: int| 0 <= k < from ==> v[k] == old(v)[k],
            forall|k: int| from <= k < i ==> v[k] == 0,
        decreases v.len() - i,
    {
        v.set(i, 0);
        i = i + 1;
    }
}

/// Copies `src` into `dst` from position `from` on.
fn copy_from(dst: &mut Vec<usize>, src: &Vec<usize>, from: usize)
    requires
        old(dst).len() == src.len(),
        from <= src.len(),
    ensures
        final(dst).len() == src.len(),
        forall|i: int| from <= i < src.len() ==> final(dst)[i] == src[i],
{
    let mut i = from;
    while i < src.len()
        invariant
            from <= i <= src.len(),
            dst.len() == src.len(),
            forall|k: int| from <= k < i ==> dst[k] == src[k],
        decreases src.len() - i,
    {
        dst.set(i, src[i]);
        i = i + 1;
    }
}

/// The step of the scoring model at position `i`, computed.
fn extend_at(
    target: &Vec<char>,
    i: usize,
    query_char: char,
    later: bool,
    prev_is_separator: bool,
    before: usize,
    from_prev: usize,
    run: usize,
) -> (r: (usize, usize))
    requires
        i < target.len(),
        run == 0 && i > 0 ==> prev_is_separator == is_separator(target@[i - 1]),
        from_prev + 12 + 5 * run <= usize::MAX,
    ensures
        (r.0 as nat, r.1 as nat) == extend(
            target@,
            i as int,
            query_char,
            later,
            before as nat,
            from_prev as nat,
            run as nat,
        ),
{
    if later && from_prev == 0 {
        return (before, 0);
    }
    let target_char = target[i];
    if !char_matches(target_char, query_char) {
        return (before, 0);
    }
    let mut char_score: usize = 1 + run * 5;
    if target_char == query_char {
        char_score = char_score + 1;
    }
    if i == 0 {
        char_score = char_score + 8;
    } else if path_separator(target_char) {
        char_score = char_score + 5;
    } else if separator(target_char) {
        char_score = char_score + 4;
    } else if run == 0 {
        if prev_is_separator || upper_char(target_char) {
            char_score = char_score + 2;
        }
    }
    if i + 1 == target.len() {
        char_score = char_score + 2;
    }
    let cand = from_prev + char_score;
    if cand >= before {
        (cand, run + 1)
    } else {
        (before, 0)
    }
}

/// Computes row `j` of the scoring model, for query character `query_char`,
/// from position `cursor` on. Returns the row's first placement, or `None`
/// where the row has none.
#[verifier::loop_isolation(false)]
fn sweep_row(
    target: &Vec<char>,
    q: Ghost<Seq<char>>,
    j: Ghost<int>,
    query_char: char,
    first_row: bool,
    cursor: usize,
    prev_score: &Vec<usize>,
    prev_counts: &Vec<usize>,
    score: &mut Vec<usize>,
    counts: &mut Vec<usize>,
) -> (first: Option<usize>)
    requires
        1 <= j@ <= q@.len(),
        q@[j@ - 1] == query_char,
        first_row == (j@ == 1),
        max_score(q@.len()) <= usize::MAX,
        row_ready(target@, q@, j@, cursor as int, prev_score@, prev_counts@),
        old(score).len() == target.len(),
        old(counts).len() == target.len(),
    ensures
        final(score).len() == target.len(),
        final(counts).len() == target.len(),
        match first {
            None => forall|i: int| 0 <= i < target.len() ==> #[trigger] cell(target@, q@, j@, i).0 == 0,
            Some(f) => cursor <= f && row_done(target@, q@, j@, f as int, final(score)@, final(counts)@),
        },
{
    let ghost t = target@;
    let n = target.len();
    proof {
        if j@ > 1 {
            lemma_zero_prefix(t, q@, j@, cursor - 1);
        }
        lemma_max_score_monotone(j@ as nat, q@.len());
    }
    clear_from(counts, cursor);
    clear_from(score, cursor);
    let mut first_nonzero: Option<usize> = None;
    let mut prev_is_separator = false;
    let mut i = cursor;
    while i < n
        invariant
            cursor <= i <= n,
            score.len() == n,
            counts.len() == n,
            prev_is_separator == (i > cursor && is_separator(t[i - 1])),
            forall|k: int| cursor <= k < i ==> score[k] == #[trigger] cell(t, q@, j@, k).0,
            forall|k: int| cursor <= k < i ==> counts[k] == #[trigger] cell(t, q@, j@, k).1,
            forall|k: int| i <= k < n ==> score[k] == 0,
            forall|k: int| i <= k < n ==> counts[k] == 0,
            match first_nonzero {
                None => forall|k: int| cursor <= k < i ==> #[trigger] cell(t, q@, j@, k).0 == 0,
                Some(f) => {
                    &&& cursor <= f < i
                    &&& forall|k: int| cursor <= k < f ==> #[trigger] cell(t, q@, j@, k).0 == 0
                    &&& cell(t, q@, j@, f as int).1 >= 1
                },
            },
        decreases n - i,
    {
        let target_char = target[i];
        let target_separator = separator(target_char);
        let prev_target_score = if i == cursor {
            0
        } else {
            score[i - 1]
        };
        let prev_query_score = if i == 0 {
            0
        } else {
            prev_score[i - 1]
        };
        let seq_match_count = if i == 0 {
            0
        } else {
            prev_counts[i - 1]
        };
        proof {
            if i > 0 && j@ > 1 {
                lemma_cell_bounds(t, q@, j@ - 1, i - 1);
            }
            lemma_max_score_step(j@ as nat);
            let before: nat = if i == 0 { 0 } else { cell(t, q@, j@, i - 1).0 };
            let from_prev: nat = if i == 0 || j@ == 1 { 0 } else { cell(t, q@, j@ - 1, i - 1).0 };
            let run: nat = if i == 0 || j@ == 1 { 0 } else { cell(t, q@, j@ - 1, i - 1).1 };
            assert(prev_target_score == before);
            assert(prev_query_score == from_prev);
            assert(seq_match_count == run);
            assert(cell(t, q@, j@, i as int) == extend(t, i as int, query_char, j@ > 1, before, from_prev, run));
        }
        let (new_score, new_count) = extend_at(
            target,
            i,
            query_char,
            !first_row,
            prev_is_separator,
            prev_target_score,
            prev_query_score,
            seq_match_count,
        );
        let ghost old_score = score@;
        let ghost old_counts = counts@;
        score.set(i, new_score);
        counts.set(i, new_count);
        assert(score@ == old_score.update(i as int, new_score));
        assert(counts@ == old_counts.update(i as int, new_count));
        if new_count > 0 && first_nonzero.is_none() {
            first_nonzero = Some(i);
        }
        prev_is_separator = target_separator;
        i = i + 1;
    }
    first_nonzero
}

/// Scores queries against targets, keeping its working rows between calls so
/// that a batch of matches allocates little.
pub struct FuzzyMatcher {
    target_chars: Vec<char>,
    prev_seq_match_counts: Vec<usize>,
    prev_score: Vec<usize>,
    seq_match_counts: Vec<usize>,
    score: Vec<usize>,
}

impl FuzzyMatcher {
    /// The matcher holds no target and no working rows.
    pub closed spec fn is_fresh(&self) -> bool {
        &&& self.target_chars@.len() == 0
        &&& self.prev_seq_match_counts@.len() == 0
        &&& self.prev_score@.len() == 0
        &&& self.seq_match_counts@.len() == 0
        &&& self.score@.len() == 0
    }

    /// A matcher with empty working rows.
    pub fn new() -> (r: Self)
        ensures
            r.is_fresh(),
    {
        FuzzyMatcher {
            target_chars: Vec::new(),
            prev_seq_match_counts: Vec::new(),
            prev_score: Vec::new(),
            seq_match_counts: Vec::new(),
            score: Vec::new(),
        }
    }

    /// Scores `query` against `target`: higher for a more confident match,
    /// `None` where the query does not occur in order in the target. The
    /// result does not depend on earlier calls.
    #[verifier::loop_isolation(false)]
    pub fn fuzzy_match(&mut self, target: &str, query: &str) -> (r: Option<usize>)
        requires
            max_score(query@.len()) <= usize::MAX,
        ensures
            r is Some <==> score_of(target@, query@) is Some,
            r is Some ==> r->0 as nat == score_of(target@, query@)->0,
            r is Some ==> r->0 > 0,
            query@.len() == 0 ==> r is None,
            r is Some <==> (query@.len() > 0 && occurs_in_order(target@, query@)),
    {
        proof {
            lemma_match_iff_in_order(target@, query@);
        }
        let ghost t = target@;
        let ghost q = query@;
        load_chars(target, &mut self.target_chars);
        let n = self.target_chars.len();
        zero_row(&mut self.prev_seq_match_counts, n);
        zero_row(&mut self.prev_score, n);
        zero_row(&mut self.seq_match_counts, n);
        zero_row(&mut self.score, n);
        let mut first_possible_target_idx: usize = 0;
        let mut first_query_char = true;
        for query_char in it: query.chars()
            invariant
                self.target_chars@ == t,
                n == t.len(),
                it.seq() == q,
                self.seq_match_counts.len() == n,
                self.score.len() == n,
                first_query_char == (it.index() == 0),
                it.index() == 0 ==> row_ready(
                    t,
                    q,
                    1,
                    first_possible_target_idx as int,
                    self.prev_score@,
                    self.prev_seq_match_counts@,
                ) || n == 0,
                it.index() > 0 ==> row_done(
                    t,
                    q,
                    it.index() as int,
                    first_possible_target_idx - 1,
                    self.prev_score@,
                    self.prev_seq_match_counts@,
                ),
        {
            if first_possible_target_idx >= n {
                proof {
                    if it.index() > 0 {
                        lemma_zero_prefix(t, q, it.index() + 1, n - 1);
                        lemma_zero_row_is_final(t, q, it.index() + 1);
                    }
                }
                return None;
            }
            let first = sweep_row(
                &self.target_chars,
                Ghost(q),
                Ghost(it.index() + 1),
                query_char,
                first_query_char,
                first_possible_target_idx,
                &self.prev_score,
                &self.prev_seq_match_counts,
                &mut self.score,
                &mut self.seq_match_counts,
            );
            match first {
                Some(f) => {
                    first_possible_target_idx = f + 1;
                    copy_from(&mut self.prev_score, &self.score, f);
                    copy_from(&mut self.prev_seq_match_counts, &self.seq_match_counts, f);
                    first_query_char = false;
                    proof {
                        let j = it.index() + 1;
                        assert forall|i: int| f <= i < n implies self.prev_score@[i] == #[trigger] cell(t, q, j, i).0
                            && self.prev_seq_match_counts@[i] == cell(t, q, j, i).1 by {
                            assert(self.score@[i] == cell(t, q, j, i).0);
                            assert(self.seq_match_counts@[i] == cell(t, q, j, i).1);
                        }
                        assert(row_done(t, q, j, f as int, self.prev_score@, self.prev_seq_match_counts@));
                    }
                },
                None => {
                    proof {
                        lemma_zero_row_is_final(t, q, it.index() + 1);
                    }
                    return None;
                },
            }
        }
        let score = if n == 0 {
            0
        } else {
            self.prev_score[n - 1]
        };
        if score == 0 {
            None
        } else {
            Some(score)
        }
    }
}

/// Scores `query` against `target` with a fresh matcher.
pub fn fuzzy_match(target: &str, query: &str) -> (r: Option<usize>)
    requires
        max_score(query@.len()) <= usize::MAX,
    ensures
        r is Some <==> score_of(target@, query@) is Some,
        r is Some ==> r->0 as nat == score_of(target@, query@)->0,
        r is Some ==> r->0 > 0,
        query@.len() == 0 ==> r is None,
        r is Some <==> (query@.len() > 0 && occurs_in_order(target@, query@)),
{
    let mut matcher = FuzzyMatcher::new();
    matcher.fuzzy_match(target, query)
}

} // verus!
