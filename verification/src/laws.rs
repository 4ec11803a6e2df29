//! Laws of the matcher, stated over the spec-level models and proved once
//! and for all: what holds of every pattern, haystack and matcher state.

use vstd::prelude::*;

use crate::engine::{spec_atom_score, spec_match, spec_valid_positions, SCORE_ADJACENT, SCORE_BASE,
    SCORE_BOUNDARY, SCORE_EMPTY_PATTERN};
use crate::engine::{lemma_best_run_range, lemma_best_sub_props, lemma_first_run_bnd_range,
    spec_adj_upto, spec_ascending_of, spec_at_boundary, spec_best_run, spec_best_sub,
    spec_count_adjacent, spec_extra_of, spec_first_run, spec_first_run_bnd, spec_index_set,
    spec_is_placement, spec_one_based, spec_run_at, spec_run_positions, SCORE_FULL};
use crate::fold::spec_fold_seq;
use crate::matcher::{spec_view_match, spec_with_pattern, MatcherView};
use crate::pattern::{spec_parse, spec_tokens, PatternView};

verus! {

/// Setting the same pattern text twice in a row leaves the matcher in the
/// state a single call reaches, so every later match outcome is identical.
pub proof fn lemma_set_pattern_idempotent(m: MatcherView, text: Seq<char>, hay: Seq<char>)
    ensures
        spec_with_pattern(spec_with_pattern(m, text), text) == spec_with_pattern(m, text),
        spec_view_match(spec_with_pattern(spec_with_pattern(m, text), text), hay)
            == spec_view_match(spec_with_pattern(m, text), hay),
{
}

/// Reparsing in place is equivalent to a fresh parse: two matchers with the
/// same options reach the same state when the same text is set, whatever
/// pattern either held before, so every later match outcome is identical.
pub proof fn lemma_reparse_equivalent(
    m1: MatcherView,
    m2: MatcherView,
    text: Seq<char>,
    hay: Seq<char>,
)
    requires
        m1.options == m2.options,
    ensures
        spec_with_pattern(m1, text) == spec_with_pattern(m2, text),
        spec_view_match(spec_with_pattern(m1, text), hay) == spec_view_match(
            spec_with_pattern(m2, text),
            hay,
        ),
{
}

/// An empty pattern accepts every haystack with the sentinel score and no
/// highlighted indices.
pub proof fn lemma_empty_pattern_accepts_all(m: MatcherView, hay: Seq<char>)
    ensures
        spec_view_match(spec_with_pattern(m, Seq::empty()), hay) == Some(
            ((SCORE_EMPTY_PATTERN as nat), Seq::<int>::empty()),
        ),
{
    let text = Seq::<char>::empty();
    assert(spec_tokens(text) =~= Seq::<Seq<char>>::empty());
    assert(spec_parse(text, m.options).atoms =~= Seq::empty());
    assert(spec_match(spec_parse(text, m.options), hay) == (
        (SCORE_EMPTY_PATTERN as nat),
        Seq::<int>::empty(),
    ));
}

/// Ascending positions grow at least linearly from the first.
proof fn lemma_positions_lower(pos: Seq<int>, n: int, j: int)
    requires
        spec_valid_positions(pos, n),
        0 <= j < pos.len(),
    ensures
        pos[j] >= pos[0] + j,
    decreases j,
{
    if j > 0 {
        lemma_positions_lower(pos, n, j - 1);
    }
}

/// Ascending positions stay at least linearly below the last.
proof fn lemma_positions_upper(pos: Seq<int>, n: int, j: int)
    requires
        spec_valid_positions(pos, n),
        0 <= j < pos.len(),
    ensures
        pos[j] <= pos[pos.len() - 1] - (pos.len() - 1 - j),
    decreases pos.len() - j,
{
    if j < pos.len() - 1 {
        lemma_positions_upper(pos, n, j + 1);
    }
}

/// At most one adjacency per scanned pair.
proof fn lemma_adj_upto_le(pos: Seq<int>, t: int)
    requires
        0 <= t < pos.len(),
    ensures
        spec_adj_upto(pos, t) <= t,
    decreases t,
{
    if t >= 1 {
        lemma_adj_upto_le(pos, t - 1);
    }
}

/// A pair that is not adjacent costs one adjacency.
proof fn lemma_adj_upto_gap(pos: Seq<int>, t: int, g: int)
    requires
        1 <= g <= t < pos.len(),
        pos[g] != pos[g - 1] + 1,
    ensures
        spec_adj_upto(pos, t) <= t - 1,
    decreases t,
{
    if t == g {
        lemma_adj_upto_le(pos, t - 1);
    } else {
        lemma_adj_upto_gap(pos, t - 1, g);
    }
}

/// A fully contiguous placement has every adjacency.
proof fn lemma_adj_upto_full(pos: Seq<int>, t: int)
    requires
        0 <= t < pos.len(),
        forall|j: int| 0 < j < pos.len() ==> #[trigger] pos[j] == pos[j - 1] + 1,
    ensures
        spec_adj_upto(pos, t) == t,
    decreases t,
{
    if t >= 1 {
        lemma_adj_upto_full(pos, t - 1);
    }
}

/// Monotonicity of the score: in the same haystack, a placement that is one
/// contiguous run scores strictly higher than any scattered placement of the
/// same number of characters.
pub proof fn lemma_contiguous_scores_higher(hay: Seq<char>, p1: Seq<int>, p2: Seq<int>)
    requires
        p1.len() == p2.len(),
        p1.len() >= 1,
        spec_valid_positions(p1, hay.len() as int),
        spec_valid_positions(p2, hay.len() as int),
        forall|j: int| 0 < j < p1.len() ==> #[trigger] p1[j] == p1[j - 1] + 1,
        exists|j: int| 0 < j < p2.len() && #[trigger] p2[j] != p2[j - 1] + 1,
    ensures
        spec_atom_score(p1, hay) > spec_atom_score(p2, hay),
{
    let k = p1.len() as int;
    let g = choose|j: int| 0 < j < p2.len() && #[trigger] p2[j] != p2[j - 1] + 1;
    assert(k >= 2);
    lemma_adj_upto_full(p1, k - 1);
    assert(spec_count_adjacent(p1) == k - 1);
    lemma_adj_upto_gap(p2, k - 1, g);
    assert(spec_count_adjacent(p2) <= k - 2);
    assert(p2.len() != hay.len()) by {
        if p2.len() == hay.len() {
            lemma_positions_lower(p2, hay.len() as int, g - 1);
            lemma_positions_upper(p2, hay.len() as int, g);
            assert(p2[g - 1] >= p2[0] + g - 1 >= g - 1);
            assert(p2[g] <= p2[k - 1] - (k - 1 - g) <= hay.len() - 1 - (k - 1 - g));
            assert(p2[g] <= g);
            assert(p2[g] > p2[g - 1]);
            assert(p2[g] == p2[g - 1] + 1);
        }
    }
    assert(spec_atom_score(p1, hay) >= (SCORE_BASE as nat) * k as nat + (SCORE_ADJACENT as nat) * (
    k - 1) as nat);
    assert(spec_atom_score(p2, hay) <= (SCORE_BASE as nat) * k as nat + (SCORE_ADJACENT as nat) * (
    k - 2) as nat + (SCORE_BOUNDARY as nat));
}

/// The members of a scanned range come out in strictly ascending order,
/// each within the range.
proof fn lemma_ascending_of_props(s: Set<int>, lo: int, hi: int)
    ensures
        forall|j: int|
            0 <= j < spec_ascending_of(s, lo, hi).len() ==> lo <= #[trigger] spec_ascending_of(
                s,
                lo,
                hi,
            )[j] < hi,
        forall|j: int|
            0 < j < spec_ascending_of(s, lo, hi).len() ==> spec_ascending_of(s, lo, hi)[j - 1]
                < #[trigger] spec_ascending_of(s, lo, hi)[j],
    decreases hi - lo,
{
    if lo < hi {
        lemma_ascending_of_props(s, lo + 1, hi);
        let rest = spec_ascending_of(s, lo + 1, hi);
        if s.contains(lo) {
            let whole = seq![lo] + rest;
            assert(spec_ascending_of(s, lo, hi) == whole);
            assert(whole[0] == lo);
            assert(forall|j: int| 0 < j < whole.len() ==> whole[j] == rest[j - 1]);
        }
    }
}

/// The indices of every match outcome are one-based, within the haystack,
/// strictly ascending and therefore free of duplicates.
pub proof fn lemma_match_indices_sorted(p: PatternView, hay: Seq<char>)
    ensures
        forall|j: int|
            0 <= j < spec_match(p, hay).1.len() ==> 1 <= #[trigger] spec_match(p, hay).1[j]
                <= hay.len(),
        forall|j: int|
            0 < j < spec_match(p, hay).1.len() ==> spec_match(p, hay).1[j - 1] < #[trigger] spec_match(
                p,
                hay,
            ).1[j],
{
    let ind = spec_match(p, hay).1;
    if p.atoms.len() == 0 {
    } else if ind.len() == 0 {
    } else {
        let fh = spec_fold_seq(hay, p.sensitive, p.normalize);
        let base = spec_ascending_of(spec_index_set(p.atoms, fh, hay), 0, hay.len() as int);
        lemma_ascending_of_props(spec_index_set(p.atoms, fh, hay), 0, hay.len() as int);
        assert(ind == spec_one_based(base));
        assert(forall|j: int| 0 <= j < base.len() ==> ind[j] == #[trigger] base[j] + 1);
    }
}

/// Dropping the head shifts the adjacency count by the first pair.
proof fn lemma_adj_shift(q: Seq<int>, t: int)
    requires
        1 <= t < q.len(),
    ensures
        spec_adj_upto(q, t) == spec_adj_upto(q.drop_first(), t - 1) + (if q[1] == q[0] + 1 {
            1nat
        } else {
            0nat
        }),
    decreases t,
{
    let d = q.drop_first();
    if t == 1 {
        assert(spec_adj_upto(q, 0) == 0);
        assert(spec_adj_upto(d, 0) == 0);
        assert(spec_adj_upto(q, 1) == spec_adj_upto(q, 0) + (if q[1] == q[0] + 1 {
            1nat
        } else {
            0nat
        }));
    } else {
        lemma_adj_shift(q, t - 1);
        assert(d[t - 1] == q[t]);
        assert(d[t - 2] == q[t - 1]);
        assert(spec_adj_upto(d, t - 1) == spec_adj_upto(d, t - 2) + (if d[t - 1] == d[t - 2] + 1 {
            1nat
        } else {
            0nat
        }));
        assert(spec_adj_upto(q, t) == spec_adj_upto(q, t - 1) + (if q[t] == q[t - 1] + 1 {
            1nat
        } else {
            0nat
        }));
    }
}

/// The accumulated extra score is the boundary reward of the first position
/// plus one adjacency reward per adjacent pair.
proof fn lemma_extra_decomposes(q: Seq<int>, hay: Seq<char>, first: bool, prev: int)
    requires
        q.len() >= 1,
    ensures
        spec_extra_of(q, hay, first, prev) == (if first {
            if spec_at_boundary(hay, q[0]) {
                SCORE_BOUNDARY as int
            } else {
                0
            }
        } else if q[0] == prev + 1 {
            SCORE_ADJACENT as int
        } else {
            0
        }) + (SCORE_ADJACENT as int) * spec_count_adjacent(q),
    decreases q.len(),
{
    let d = q.drop_first();
    if q.len() == 1 {
        assert(spec_count_adjacent(q) == 0);
        assert(spec_extra_of(d, hay, false, q[0]) == 0);
    } else {
        lemma_extra_decomposes(d, hay, false, q[0]);
        lemma_adj_shift(q, q.len() - 1);
        assert(d[0] == q[1]);
        assert(spec_count_adjacent(q) == spec_count_adjacent(d) + (if q[1] == q[0] + 1 {
            1nat
        } else {
            0nat
        }));
    }
}

/// The score of a non-empty placement is the per-character base, the
/// accumulated extra score, and the whole-haystack reward.
proof fn lemma_score_decomposes(q: Seq<int>, hay: Seq<char>)
    requires
        q.len() >= 1,
    ensures
        spec_atom_score(q, hay) == (SCORE_BASE as int) * q.len() + spec_extra_of(q, hay, true, -2)
            + (if q.len() == hay.len() {
            SCORE_FULL as int
        } else {
            0
        }),
{
    lemma_extra_decomposes(q, hay, true, -2);
}

/// No valid placement of the remaining needle accumulates more than the
/// chosen one.
proof fn lemma_best_sub_optimal(
    needle: Seq<char>,
    fh: Seq<char>,
    hay: Seq<char>,
    j: int,
    i: int,
    prev: int,
    q: Seq<int>,
)
    requires
        0 <= j <= needle.len(),
        0 <= i <= fh.len(),
        q.len() == needle.len() - j,
        forall|t: int| 0 <= t < q.len() ==> i <= #[trigger] q[t] < fh.len(),
        forall|t: int| 0 < t < q.len() ==> q[t - 1] < #[trigger] q[t],
        forall|t: int| 0 <= t < q.len() ==> fh[#[trigger] q[t]] == needle[j + t],
    ensures
        spec_best_sub(needle, fh, hay, j, i, prev) is Some,
        spec_extra_of(q, hay, j == 0, prev) <= spec_best_sub(needle, fh, hay, j, i, prev).unwrap().0,
    decreases fh.len() - i,
{
    if j >= needle.len() {
    } else {
        assert(q.len() >= 1);
        assert(i <= q[0] < fh.len());
        if q[0] == i {
            let d = q.drop_first();
            assert(forall|t: int| 0 <= t < d.len() ==> d[t] == q[t + 1]);
            lemma_best_sub_optimal(needle, fh, hay, j + 1, i + 1, i, d);
            assert(fh[i] == needle[j]);
            let bonus: int = if j == 0 {
                if spec_at_boundary(hay, i) {
                    SCORE_BOUNDARY as int
                } else {
                    0
                }
            } else if i == prev + 1 {
                SCORE_ADJACENT as int
            } else {
                0
            };
            assert(spec_extra_of(q, hay, j == 0, prev) == bonus + spec_extra_of(d, hay, false, i));
            let rest = spec_best_sub(needle, fh, hay, j + 1, i + 1, i).unwrap();
            assert(spec_extra_of(d, hay, false, i) <= rest.0);
            let here_v = rest.0 + bonus;
            match spec_best_sub(needle, fh, hay, j, i + 1, prev) {
                None => {
                    assert(spec_best_sub(needle, fh, hay, j, i, prev).unwrap().0 == here_v);
                },
                Some(sk) => {
                    assert(spec_best_sub(needle, fh, hay, j, i, prev).unwrap().0 >= here_v);
                },
            }
        } else {
            lemma_best_sub_optimal(needle, fh, hay, j, i + 1, prev, q);
            let sk = spec_best_sub(needle, fh, hay, j, i + 1, prev).unwrap();
            assert(spec_best_sub(needle, fh, hay, j, i, prev) is Some
                && spec_best_sub(needle, fh, hay, j, i, prev).unwrap().0 >= sk.0) by {
                if fh[i] == needle[j] {
                    match spec_best_sub(needle, fh, hay, j + 1, i + 1, i) {
                        None => {},
                        Some(rest) => {},
                    }
                }
            }
        }
    }
}

/// Optimality of the plain-atom placement: what the engine chooses for a
/// fuzzy needle scores at least as high as every valid placement of that
/// needle in the same haystack.
pub proof fn lemma_fuzzy_placement_best(
    needle: Seq<char>,
    fh: Seq<char>,
    hay: Seq<char>,
    q: Seq<int>,
)
    requires
        spec_is_placement(needle, fh, q),
    ensures
        spec_best_sub(needle, fh, hay, 0, 0, -2) is Some,
        spec_atom_score(spec_best_sub(needle, fh, hay, 0, 0, -2).unwrap().1, hay)
            >= spec_atom_score(q, hay),
{
    lemma_best_sub_optimal(needle, fh, hay, 0, 0, -2, q);
    lemma_best_sub_props(needle, fh, hay, 0, 0, -2);
    let r = spec_best_sub(needle, fh, hay, 0, 0, -2).unwrap();
    if needle.len() == 0 {
        assert(q.len() == 0 && r.1.len() == 0);
    } else {
        lemma_score_decomposes(q, hay);
        lemma_score_decomposes(r.1, hay);
        assert(spec_extra_of(r.1, hay, true, -2) == r.0);
        assert(spec_extra_of(q, hay, true, -2) <= r.0);
    }
}

/// Any run at or after `from` makes the scan find one.
proof fn lemma_first_run_complete(needle: Seq<char>, fh: Seq<char>, from: int, r: int)
    requires
        0 <= from <= r,
        spec_run_at(needle, fh, r),
    ensures
        spec_first_run(needle, fh, from) is Some,
    decreases r - from,
{
    if !spec_run_at(needle, fh, from) && from < r {
        lemma_first_run_complete(needle, fh, from + 1, r);
    }
}

/// Any boundary run at or after `from` makes the boundary scan find one.
proof fn lemma_first_run_bnd_complete(
    needle: Seq<char>,
    fh: Seq<char>,
    hay: Seq<char>,
    from: int,
    r: int,
)
    requires
        0 <= from <= r,
        spec_run_at(needle, fh, r),
        spec_at_boundary(hay, r),
    ensures
        spec_first_run_bnd(needle, fh, hay, from) is Some,
    decreases r - from,
{
    if !(spec_run_at(needle, fh, from) && spec_at_boundary(hay, from)) && from < r {
        lemma_first_run_bnd_complete(needle, fh, hay, from + 1, r);
    }
}

/// Optimality of the contiguous-atom placement: the run the engine chooses
/// scores at least as high as any other run of the same needle.
pub proof fn lemma_exact_run_best(needle: Seq<char>, fh: Seq<char>, hay: Seq<char>, r: int)
    requires
        spec_run_at(needle, fh, r),
        fh.len() == hay.len(),
    ensures
        spec_best_run(needle, fh, hay) is Some,
        spec_atom_score(
            spec_run_positions(spec_best_run(needle, fh, hay).unwrap(), needle.len() as int),
            hay,
        ) >= spec_atom_score(spec_run_positions(r, needle.len() as int), hay),
{
    let k = needle.len() as int;
    lemma_first_run_complete(needle, fh, 0, r);
    let b = spec_best_run(needle, fh, hay).unwrap();
    lemma_best_run_range(needle, fh, hay);
    let pb = spec_run_positions(b, k);
    let pr = spec_run_positions(r, k);
    if k == 0 {
        assert(pb =~= Seq::<int>::empty());
        assert(pr =~= Seq::<int>::empty());
    } else {
        assert(pb[0] == b && pr[0] == r);
        assert(forall|t: int| 0 < t < k ==> #[trigger] pb[t] == pb[t - 1] + 1);
        assert(forall|t: int| 0 < t < k ==> #[trigger] pr[t] == pr[t - 1] + 1);
        lemma_adj_upto_full(pb, k - 1);
        lemma_adj_upto_full(pr, k - 1);
        if k == hay.len() {
            assert(b == 0 && r == 0);
            assert(pb =~= pr);
        } else {
            if spec_at_boundary(hay, r) {
                lemma_first_run_bnd_complete(needle, fh, hay, 0, r);
                lemma_first_run_bnd_range(needle, fh, hay, 0);
                assert(spec_at_boundary(hay, b));
            }
        }
    }
}

} // verus!
