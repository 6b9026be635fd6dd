//! The match engine: ranks the candidate list against the current
//! pattern.
//!
//! With an empty pattern every candidate is listed, in lexicographic
//! order. With a non-empty pattern only the candidates the scoring
//! oracle accepts are listed, best score first; ties are broken by the
//! same lexicographic order, ascending, and last by candidate position,
//! so the ranking is deterministic whatever the oracle's internals.

use vstd::prelude::*;
use vstd::relations::{sorted_by, total_ordering};
use vstd::seq_lib::{lemma_multiset_commutative, lemma_sorted_unique};
use crate::order::{lex_cmp, lex_le, lemma_lex_cmp_eq, lemma_lex_cmp_lt_trans, lemma_lex_cmp_sign, str_cmp};
use crate::oracle::{fuzzy_score, oracle_score};

verus! {

/// The view of a candidate list: each candidate as its character
/// sequence.
pub open spec fn views_of(cands: Seq<String>) -> Seq<Seq<char>> {
    cands.map_values(|c: String| c@)
}

/// The score the engine attributes to candidate `i`: zero for everyone
/// when the pattern is empty (browse mode), otherwise the oracle's.
pub open spec fn score_at(cands: Seq<Seq<char>>, pattern: Seq<char>, i: int) -> int {
    if pattern.len() == 0 {
        0
    } else {
        match fuzzy_score(cands[i], pattern) {
            Option::Some(s) => s as int,
            Option::None => 0,
        }
    }
}

/// Whether candidate `i` belongs to the match list for `pattern`.
pub open spec fn is_match(cands: Seq<Seq<char>>, pattern: Seq<char>, i: int) -> bool {
    pattern.len() == 0 || fuzzy_score(cands[i], pattern) is Some
}

/// The indices of the matching candidates among the first `n`,
/// ascending.
pub open spec fn matching_indices(cands: Seq<Seq<char>>, pattern: Seq<char>, n: int) -> Seq<usize>
    decreases n,
{
    if n <= 0 {
        Seq::empty()
    } else if is_match(cands, pattern, n - 1) {
        matching_indices(cands, pattern, n - 1).push((n - 1) as usize)
    } else {
        matching_indices(cands, pattern, n - 1)
    }
}

/// The ranking order on candidate indices: higher score first, score
/// ties by the lexicographic order on the candidates, and exact ties by
/// position.
pub open spec fn rank_le(cands: Seq<Seq<char>>, pattern: Seq<char>, i: usize, j: usize) -> bool {
    let si = score_at(cands, pattern, i as int);
    let sj = score_at(cands, pattern, j as int);
    if si != sj {
        si > sj
    } else {
        let c = lex_cmp(cands[i as int], cands[j as int]);
        if c != 0 {
            c < 0
        } else {
            i <= j
        }
    }
}

/// The ranking order as a relation, for a fixed candidate list and
/// pattern.
pub open spec fn rank_order(cands: Seq<Seq<char>>, pattern: Seq<char>) -> spec_fn(usize, usize) -> bool {
    |i: usize, j: usize| rank_le(cands, pattern, i, j)
}

/// The ranked match list for `pattern`: the matching indices, sorted by
/// the ranking order.
pub open spec fn spec_rank(cands: Seq<Seq<char>>, pattern: Seq<char>) -> Seq<usize> {
    matching_indices(cands, pattern, cands.len() as int).sort_by(rank_order(cands, pattern))
}

/// Any two candidate indices are comparable under the ranking order.
pub proof fn lemma_rank_le_connected(cands: Seq<Seq<char>>, pattern: Seq<char>, i: usize, j: usize)
    ensures
        rank_le(cands, pattern, i, j) || rank_le(cands, pattern, j, i),
{
    lemma_lex_cmp_sign(cands[i as int], cands[j as int]);
}

/// The ranking order is transitive.
pub proof fn lemma_rank_le_trans(cands: Seq<Seq<char>>, pattern: Seq<char>, i: usize, j: usize, k: usize)
    requires
        rank_le(cands, pattern, i, j),
        rank_le(cands, pattern, j, k),
    ensures
        rank_le(cands, pattern, i, k),
{
    let si = score_at(cands, pattern, i as int);
    let sj = score_at(cands, pattern, j as int);
    let sk = score_at(cands, pattern, k as int);
    if si == sj && sj == sk {
        let cij = lex_cmp(cands[i as int], cands[j as int]);
        let cjk = lex_cmp(cands[j as int], cands[k as int]);
        lemma_lex_cmp_eq(cands[i as int], cands[j as int]);
        lemma_lex_cmp_eq(cands[j as int], cands[k as int]);
        lemma_lex_cmp_eq(cands[i as int], cands[k as int]);
        if cij < 0 && cjk < 0 {
            lemma_lex_cmp_lt_trans(cands[i as int], cands[j as int], cands[k as int]);
        }
    }
}

/// The ranking order is a total order on candidate indices.
pub proof fn lemma_rank_order_total(cands: Seq<Seq<char>>, pattern: Seq<char>)
    ensures
        total_ordering(rank_order(cands, pattern)),
{
    let leq = rank_order(cands, pattern);
    assert forall|i: usize| #[trigger] leq(i, i) by {
        lemma_lex_cmp_eq(cands[i as int], cands[i as int]);
    }
    assert forall|i: usize, j: usize| #[trigger] leq(i, j) && #[trigger] leq(j, i) implies i == j by {
        lemma_lex_cmp_sign(cands[i as int], cands[j as int]);
    }
    assert forall|i: usize, j: usize| #[trigger] leq(i, j) || #[trigger] leq(j, i) by {
        lemma_rank_le_connected(cands, pattern, i, j);
    }
    assert forall|i: usize, j: usize, k: usize| #[trigger] leq(i, j) && #[trigger] leq(j, k) implies leq(
        i,
        k,
    ) by {
        lemma_rank_le_trans(cands, pattern, i, j, k);
    }
}

/// Every element of the matching-index list is a matching index below
/// `n`, the list ascends strictly, and it holds every matching index
/// below `n`.
pub proof fn lemma_matching_indices(cands: Seq<Seq<char>>, pattern: Seq<char>, n: int)
    requires
        n <= usize::MAX,
    ensures
        forall|k: int|
            0 <= k < matching_indices(cands, pattern, n).len() ==> (
            #[trigger] matching_indices(cands, pattern, n)[k] as int) < n && is_match(
                cands,
                pattern,
                matching_indices(cands, pattern, n)[k] as int,
            ),
        forall|k1: int, k2: int|
            0 <= k1 < k2 < matching_indices(cands, pattern, n).len() ==> matching_indices(
                cands,
                pattern,
                n,
            )[k1] < matching_indices(cands, pattern, n)[k2],
        forall|i: int|
            0 <= i < n && is_match(cands, pattern, i) ==> matching_indices(
                cands,
                pattern,
                n,
            ).contains(i as usize),
    decreases n,
{
    if n > 0 {
        lemma_matching_indices(cands, pattern, n - 1);
        let prev = matching_indices(cands, pattern, n - 1);
        let cur = matching_indices(cands, pattern, n);
        if is_match(cands, pattern, n - 1) {
            assert(cur == prev.push((n - 1) as usize));
            assert forall|k1: int, k2: int| 0 <= k1 < k2 < cur.len() implies cur[k1] < cur[k2] by {
                if k2 == cur.len() - 1 {
                    assert((prev[k1] as int) < n - 1);
                }
            }
            assert forall|i: int|
                0 <= i < n && is_match(cands, pattern, i) implies cur.contains(i as usize) by {
                if i < n - 1 {
                    let k = choose|k: int| 0 <= k < prev.len() && prev[k] == i as usize;
                    assert(cur[k] == i as usize);
                } else {
                    assert(cur[cur.len() - 1] == i as usize);
                }
            }
        } else {
            assert forall|i: int|
                0 <= i < n && is_match(cands, pattern, i) implies cur.contains(i as usize) by {
                if i < n - 1 {
                    let k = choose|k: int| 0 <= k < prev.len() && prev[k] == i as usize;
                    assert(cur[k] == i as usize);
                }
            }
        }
    }
}

/// With the empty pattern, every candidate index matches.
pub proof fn lemma_matching_indices_full(cands: Seq<Seq<char>>, pattern: Seq<char>, n: int)
    requires
        pattern.len() == 0,
        0 <= n,
    ensures
        matching_indices(cands, pattern, n) =~= Seq::new(n as nat, |i: int| i as usize),
    decreases n,
{
    if n > 0 {
        lemma_matching_indices_full(cands, pattern, n - 1);
    }
}

/// What the ranking holds: exactly the matching indices, each once,
/// in ranking order.
pub proof fn lemma_spec_rank_elements(cands: Seq<Seq<char>>, pattern: Seq<char>)
    requires
        cands.len() <= usize::MAX,
    ensures
        forall|k: int|
            0 <= k < spec_rank(cands, pattern).len() ==> (#[trigger] spec_rank(cands, pattern)[k]
                as int) < cands.len() && is_match(cands, pattern, spec_rank(cands, pattern)[k] as int),
        forall|i: int|
            0 <= i < cands.len() && is_match(cands, pattern, i) ==> spec_rank(
                cands,
                pattern,
            ).contains(i as usize),
        spec_rank(cands, pattern).no_duplicates(),
        sorted_by(spec_rank(cands, pattern), rank_order(cands, pattern)),
        spec_rank(cands, pattern).len() <= cands.len(),
{
    broadcast use vstd::seq_lib::group_to_multiset_ensures;

    let n = cands.len() as int;
    let m = matching_indices(cands, pattern, n);
    let leq = rank_order(cands, pattern);
    let r = spec_rank(cands, pattern);
    lemma_matching_indices(cands, pattern, n);
    lemma_rank_order_total(cands, pattern);
    m.lemma_sort_by_ensures(leq);
    assert(r.to_multiset() == m.to_multiset());
    assert(m.no_duplicates());
    m.lemma_multiset_has_no_duplicates();
    r.lemma_multiset_has_no_duplicates_conv();
    assert forall|k: int|
        0 <= k < r.len() implies (#[trigger] r[k] as int) < cands.len() && is_match(
        cands,
        pattern,
        r[k] as int,
    ) by {
        assert(r.contains(r[k]));
        assert(r.to_multiset().count(r[k]) > 0);
        assert(m.contains(r[k]));
        let k2 = choose|k2: int| 0 <= k2 < m.len() && m[k2] == r[k];
        assert((m[k2] as int) < n && is_match(cands, pattern, m[k2] as int));
    }
    assert forall|i: int|
        0 <= i < cands.len() && is_match(cands, pattern, i) implies r.contains(i as usize) by {
        assert(m.contains(i as usize));
        assert(m.to_multiset().count(i as usize) > 0);
    }
    assert(r.len() == r.to_multiset().len());
    assert(m.len() == m.to_multiset().len());
    assert(m.len() <= n) by {
        lemma_matching_indices_len(cands, pattern, n);
    }
}

/// The matching-index list among the first `n` holds at most `n`
/// entries.
proof fn lemma_matching_indices_len(cands: Seq<Seq<char>>, pattern: Seq<char>, n: int)
    requires
        0 <= n,
    ensures
        matching_indices(cands, pattern, n).len() <= n,
    decreases n,
{
    if n > 0 {
        lemma_matching_indices_len(cands, pattern, n - 1);
    }
}

/// Browse mode: with the empty pattern the ranking is the whole
/// candidate list — every index exactly once — in lexicographic order.
pub proof fn lemma_rank_empty_pattern(cands: Seq<Seq<char>>, pattern: Seq<char>)
    requires
        pattern.len() == 0,
        cands.len() <= usize::MAX,
    ensures
        spec_rank(cands, pattern).len() == cands.len(),
        spec_rank(cands, pattern).no_duplicates(),
        forall|i: int|
            0 <= i < cands.len() ==> #[trigger] spec_rank(cands, pattern).contains(i as usize),
        forall|k: int|
            0 <= k < spec_rank(cands, pattern).len() ==> (#[trigger] spec_rank(cands, pattern)[k]
                as int) < cands.len(),
        forall|k1: int, k2: int|
            0 <= k1 < k2 < spec_rank(cands, pattern).len() ==> lex_le(
                cands[spec_rank(cands, pattern)[k1] as int],
                cands[spec_rank(cands, pattern)[k2] as int],
            ),
{
    broadcast use vstd::seq_lib::group_to_multiset_ensures;

    let n = cands.len() as int;
    let m = matching_indices(cands, pattern, n);
    let leq = rank_order(cands, pattern);
    let r = spec_rank(cands, pattern);
    lemma_spec_rank_elements(cands, pattern);
    lemma_rank_order_total(cands, pattern);
    m.lemma_sort_by_ensures(leq);
    lemma_matching_indices_full(cands, pattern, n);
    assert(r.len() == r.to_multiset().len());
    assert(m.len() == m.to_multiset().len());
    assert(r.len() == cands.len());
    assert forall|i: int| 0 <= i < cands.len() implies #[trigger] r.contains(i as usize) by {
        assert(is_match(cands, pattern, i));
    }
    assert forall|k1: int, k2: int|
        0 <= k1 < k2 < r.len() implies lex_le(cands[r[k1] as int], cands[r[k2] as int]) by {
        assert(leq(r[k1], r[k2]));
        assert(rank_le(cands, pattern, r[k1], r[k2]));
        lemma_lex_cmp_eq(cands[r[k1] as int], cands[r[k2] as int]);
    }
}

/// Scored mode: with a non-empty pattern the ranking holds exactly the
/// candidates the oracle accepts, sorted by score, best first, with
/// score ties in lexicographic order.
pub proof fn lemma_rank_scored(cands: Seq<Seq<char>>, pattern: Seq<char>)
    requires
        pattern.len() > 0,
        cands.len() <= usize::MAX,
    ensures
        forall|k: int|
            0 <= k < spec_rank(cands, pattern).len() ==> (#[trigger] spec_rank(cands, pattern)[k]
                as int) < cands.len() && fuzzy_score(
                cands[spec_rank(cands, pattern)[k] as int],
                pattern,
            ) is Some,
        forall|i: int|
            0 <= i < cands.len() && fuzzy_score(cands[i], pattern) is Some ==> spec_rank(
                cands,
                pattern,
            ).contains(i as usize),
        spec_rank(cands, pattern).no_duplicates(),
        forall|k1: int, k2: int|
            0 <= k1 < k2 < spec_rank(cands, pattern).len() ==> score_at(
                cands,
                pattern,
                spec_rank(cands, pattern)[k1] as int,
            ) >= score_at(cands, pattern, spec_rank(cands, pattern)[k2] as int),
        forall|k1: int, k2: int|
            0 <= k1 < k2 < spec_rank(cands, pattern).len() && score_at(
                cands,
                pattern,
                spec_rank(cands, pattern)[k1] as int,
            ) == score_at(cands, pattern, spec_rank(cands, pattern)[k2] as int) ==> lex_le(
                cands[spec_rank(cands, pattern)[k1] as int],
                cands[spec_rank(cands, pattern)[k2] as int],
            ),
{
    let leq = rank_order(cands, pattern);
    let r = spec_rank(cands, pattern);
    lemma_spec_rank_elements(cands, pattern);
    assert forall|k: int|
        0 <= k < r.len() implies (#[trigger] r[k] as int) < cands.len() && fuzzy_score(
        cands[r[k] as int],
        pattern,
    ) is Some by {
        assert(is_match(cands, pattern, r[k] as int));
    }
    assert forall|i: int|
        0 <= i < cands.len() && fuzzy_score(cands[i], pattern) is Some implies r.contains(
        i as usize,
    ) by {
        assert(is_match(cands, pattern, i));
    }
    assert forall|k1: int, k2: int|
        0 <= k1 < k2 < r.len() implies score_at(cands, pattern, r[k1] as int) >= score_at(
        cands,
        pattern,
        r[k2] as int,
    ) by {
        assert(leq(r[k1], r[k2]));
        assert(rank_le(cands, pattern, r[k1], r[k2]));
    }
    assert forall|k1: int, k2: int|
        0 <= k1 < k2 < r.len() && score_at(cands, pattern, r[k1] as int) == score_at(
        cands,
        pattern,
        r[k2] as int,
    ) implies lex_le(cands[r[k1] as int], cands[r[k2] as int]) by {
        assert(leq(r[k1], r[k2]));
        assert(rank_le(cands, pattern, r[k1], r[k2]));
        lemma_lex_cmp_eq(cands[r[k1] as int], cands[r[k2] as int]);
    }
}

/// A candidate index paired with its score, while ranking is under way.
#[derive(Clone, Copy)]
struct Scored {
    idx: usize,
    score: i64,
}

/// The index column of a scored column.
spec fn idxs_of(s: Seq<Scored>) -> Seq<usize> {
    s.map_values(|e: Scored| e.idx)
}

/// Well-formedness of one scored entry against the candidate list and
/// the pattern.
spec fn scored_wf(e: Scored, cands: Seq<Seq<char>>, pattern: Seq<char>) -> bool {
    &&& (e.idx as int) < cands.len()
    &&& is_match(cands, pattern, e.idx as int)
    &&& e.score as int == score_at(cands, pattern, e.idx as int)
}

/// Inserting into a sequence inserts into its multiset.
proof fn lemma_to_multiset_insert<A>(s: Seq<A>, i: int, x: A)
    requires
        0 <= i <= s.len(),
    ensures
        s.insert(i, x).to_multiset() =~= s.to_multiset().insert(x),
{
    broadcast use vstd::seq_lib::group_to_multiset_ensures;
    broadcast use vstd::multiset::group_multiset_axioms;

    let pre = s.subrange(0, i);
    let post = s.subrange(i, s.len() as int);
    assert(s.insert(i, x) == pre.push(x) + post);
    lemma_multiset_commutative(pre.push(x), post);
    lemma_multiset_commutative(pre, post);
    assert(s =~= pre + post);
}

/// Mapping to the index column commutes with insertion.
proof fn lemma_idxs_of_insert(s: Seq<Scored>, i: int, e: Scored)
    requires
        0 <= i <= s.len(),
    ensures
        idxs_of(s.insert(i, e)) =~= idxs_of(s).insert(i, e.idx),
{
    s.insert_ensures(i, e);
    idxs_of(s).insert_ensures(i, e.idx);
}

/// Executable form of the ranking order, on two scored entries.
fn scored_le(a: &Scored, b: &Scored, cands: &Vec<String>, Ghost(pattern): Ghost<Seq<char>>) -> (r:
    bool)
    requires
        (a.idx as int) < cands@.len(),
        (b.idx as int) < cands@.len(),
        a.score as int == score_at(views_of(cands@), pattern, a.idx as int),
        b.score as int == score_at(views_of(cands@), pattern, b.idx as int),
    ensures
        r == rank_le(views_of(cands@), pattern, a.idx, b.idx),
{
    proof {
        assert(views_of(cands@)[a.idx as int] == cands@[a.idx as int]@);
        assert(views_of(cands@)[b.idx as int] == cands@[b.idx as int]@);
    }
    if a.score != b.score {
        a.score > b.score
    } else {
        let c = str_cmp(cands[a.idx].as_str(), cands[b.idx].as_str());
        if c != 0 {
            c < 0
        } else {
            a.idx <= b.idx
        }
    }
}

/// The position at which a new entry belongs in an already ranked
/// column: after everything that ranks at or before it, before all the
/// rest.
fn insert_pos(out: &Vec<Scored>, e: &Scored, cands: &Vec<String>, Ghost(pattern): Ghost<
    Seq<char>,
>) -> (j: usize)
    requires
        forall|k: int| 0 <= k < out@.len() ==> scored_wf(#[trigger] out@[k], views_of(cands@), pattern),
        scored_wf(*e, views_of(cands@), pattern),
        forall|k1: int, k2: int|
            0 <= k1 < k2 < out@.len() ==> rank_le(
                views_of(cands@),
                pattern,
                out@[k1].idx,
                out@[k2].idx,
            ),
    ensures
        j <= out@.len(),
        forall|k: int| 0 <= k < j ==> rank_le(views_of(cands@), pattern, #[trigger] out@[k].idx, e.idx),
        forall|k: int|
            j <= k < out@.len() ==> rank_le(views_of(cands@), pattern, e.idx, #[trigger] out@[k].idx),
{
    let ghost cv = views_of(cands@);
    let mut j: usize = 0;
    while j < out.len()
        invariant
            j <= out@.len(),
            forall|k: int| 0 <= k < out@.len() ==> scored_wf(#[trigger] out@[k], cv, pattern),
            scored_wf(*e, cv, pattern),
            cv == views_of(cands@),
            forall|k1: int, k2: int|
                0 <= k1 < k2 < out@.len() ==> rank_le(cv, pattern, out@[k1].idx, out@[k2].idx),
            forall|k: int| 0 <= k < j ==> rank_le(cv, pattern, #[trigger] out@[k].idx, e.idx),
        decreases out@.len() - j,
    {
        let le = scored_le(&out[j], e, cands, Ghost(pattern));
        if !le {
            proof {
                lemma_rank_le_connected(cv, pattern, out@[j as int].idx, e.idx);
                assert forall|k: int|
                    j <= k < out@.len() implies rank_le(cv, pattern, e.idx, #[trigger] out@[k].idx) by {
                    if k > j {
                        lemma_rank_le_trans(cv, pattern, e.idx, out@[j as int].idx, out@[k].idx);
                    }
                }
            }
            return j;
        }
        j = j + 1;
    }
    j
}

/// Rank the candidate list against `pattern`.
///
/// The result is exactly `spec_rank` of the two: the matching candidate
/// indices, best first.
pub fn rank(cands: &Vec<String>, pattern: &Vec<char>) -> (r: Vec<usize>)
    ensures
        r@ == spec_rank(views_of(cands@), pattern@),
{
    let ghost cv = views_of(cands@);
    let ghost pat = pattern@;
    let mut out: Vec<Scored> = Vec::new();
    let mut i: usize = 0;
    proof {
        assert(idxs_of(out@) =~= Seq::<usize>::empty());
        assert(matching_indices(cv, pat, 0) =~= Seq::<usize>::empty());
    }
    while i < cands.len()
        invariant
            i <= cands@.len(),
            cv == views_of(cands@),
            pat == pattern@,
            idxs_of(out@).to_multiset() == matching_indices(cv, pat, i as int).to_multiset(),
            forall|k: int| 0 <= k < out@.len() ==> scored_wf(#[trigger] out@[k], cv, pat),
            forall|k1: int, k2: int|
                0 <= k1 < k2 < out@.len() ==> rank_le(cv, pat, out@[k1].idx, out@[k2].idx),
        decreases cands@.len() - i,
    {
        let sc: Option<i64> = if pattern.len() == 0 {
            Some(0)
        } else {
            oracle_score(cands[i].as_str(), pattern)
        };
        proof {
            assert(cv[i as int] == cands@[i as int]@);
        }
        match sc {
            Option::Some(score) => {
                let e = Scored { idx: i, score };
                let j = insert_pos(&out, &e, cands, Ghost(pat));
                let ghost old_out = out@;
                out.insert(j, e);
                proof {
                    broadcast use vstd::seq_lib::group_to_multiset_ensures;

                    lemma_idxs_of_insert(old_out, j as int, e);
                    lemma_to_multiset_insert(idxs_of(old_out), j as int, e.idx);
                    assert(matching_indices(cv, pat, i + 1) == matching_indices(
                        cv,
                        pat,
                        i as int,
                    ).push(i as usize));
                    old_out.insert_ensures(j as int, e);
                }
            },
            Option::None => {
                proof {
                    assert(matching_indices(cv, pat, i + 1) == matching_indices(cv, pat, i as int));
                }
            },
        }
        i = i + 1;
    }
    let ghost leq = rank_order(cv, pat);
    proof {
        lemma_rank_order_total(cv, pat);
        matching_indices(cv, pat, cands@.len() as int).lemma_sort_by_ensures(leq);
        assert(sorted_by(idxs_of(out@), leq));
        lemma_sorted_unique(idxs_of(out@), spec_rank(cv, pat), leq);
        assert(idxs_of(out@) == spec_rank(cv, pat));
    }
    let mut r: Vec<usize> = Vec::new();
    let mut k: usize = 0;
    while k < out.len()
        invariant
            k <= out@.len(),
            r@ =~= idxs_of(out@).subrange(0, k as int),
        decreases out@.len() - k,
    {
        r.push(out[k].idx);
        k = k + 1;
    }
    proof {
        assert(r@ =~= idxs_of(out@));
    }
    r
}

} // verus!
