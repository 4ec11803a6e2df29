//! The match engine.
//!
//! A compiled atom is placed in a (folded) haystack: a plain atom at its
//! best-scoring ordered subsequence, a contiguous atom at its best run, an
//! anchored atom at the start, the end, or over the whole string. The
//! placement, the score of a placement and the highlighted indices are all
//! defined as spec functions, and the executable engine is proved to return
//! exactly them.

use vstd::prelude::*;
use vstd::pervasive::VecAdditionalExecFns;

use crate::fold::{fold_vec, is_lower, is_separator, is_upper, spec_fold_seq, spec_is_lower,
    spec_is_separator, spec_is_upper};
use crate::pattern::{atom_views, Atom, AtomKind, AtomView, Pattern, PatternView};

verus! {

/// Score granted to each matched character.
pub const SCORE_BASE: u32 = 4;

/// Score granted to each pair of adjacent matched characters.
pub const SCORE_ADJACENT: u32 = 8;

/// Score granted when a match begins at a word boundary.
pub const SCORE_BOUNDARY: u32 = 4;

/// Score granted when a match covers the whole haystack.
pub const SCORE_FULL: u32 = 32;

/// Score of a match with an empty pattern.
pub const SCORE_EMPTY_PATTERN: u32 = 1;

/// The integer values of a vector of positions.
pub open spec fn to_ints(s: Seq<usize>) -> Seq<int> {
    s.map_values(|u: usize| u as int)
}

/// The variable part of a placement's score, accumulated left to right: the
/// boundary reward for the first character, the adjacency reward for every
/// character placed right after the one before it (`prev` is the previous
/// character's position).
pub open spec fn spec_extra_of(p: Seq<int>, hay: Seq<char>, first: bool, prev: int) -> int
    decreases p.len(),
{
    if p.len() == 0 {
        0
    } else {
        (if first {
            if spec_at_boundary(hay, p[0]) {
                SCORE_BOUNDARY as int
            } else {
                0
            }
        } else if p[0] == prev + 1 {
            SCORE_ADJACENT as int
        } else {
            0
        }) + spec_extra_of(p.drop_first(), hay, false, p[0])
    }
}

/// Whether `q` is a valid placement of `needle` in the folded haystack `fh`:
/// one strictly ascending in-range position per needle character, each
/// holding that character.
pub open spec fn spec_is_placement(needle: Seq<char>, fh: Seq<char>, q: Seq<int>) -> bool {
    &&& q.len() == needle.len()
    &&& spec_valid_positions(q, fh.len() as int)
    &&& forall|t: int| 0 <= t < q.len() ==> fh[#[trigger] q[t]] == needle[t]
}

/// The best placement of `needle[j..]` at positions `>= i` of `fh`, together
/// with its accumulated variable score; `prev` is where `needle[j - 1]` sits.
/// Of two equally good placements the one placing the next character earlier
/// is preferred, which makes the choice a function.
pub open spec fn spec_best_sub(
    needle: Seq<char>,
    fh: Seq<char>,
    hay: Seq<char>,
    j: int,
    i: int,
    prev: int,
) -> Option<(int, Seq<int>)>
    decreases fh.len() - i,
{
    if j >= needle.len() {
        Some((0, Seq::empty()))
    } else if i < 0 || i >= fh.len() {
        None
    } else {
        let skip = spec_best_sub(needle, fh, hay, j, i + 1, prev);
        if fh[i] == needle[j] {
            let bonus: int = if j == 0 {
                if spec_at_boundary(hay, i) {
                    SCORE_BOUNDARY as int
                } else {
                    0
                }
            } else if i == prev + 1 {
                SCORE_ADJACENT as int
            } else {
                0
            };
            match spec_best_sub(needle, fh, hay, j + 1, i + 1, i) {
                None => skip,
                Some(rest) => {
                    let here_v = rest.0 + bonus;
                    let here_p = seq![i] + rest.1;
                    match skip {
                        None => Some((here_v, here_p)),
                        Some(sk) => if here_v >= sk.0 {
                            Some((here_v, here_p))
                        } else {
                            skip
                        },
                    }
                },
            }
        } else {
            skip
        }
    }
}

/// Whether `needle` occurs as a contiguous run of `hay` at position `i`.
pub open spec fn spec_run_at(needle: Seq<char>, hay: Seq<char>, i: int) -> bool {
    0 <= i && i + needle.len() <= hay.len() && (forall|j: int|
        0 <= j < needle.len() ==> hay[i + j] == needle[j])
}

/// The first position `>= from` where `needle` occurs as a contiguous run.
pub open spec fn spec_first_run(needle: Seq<char>, hay: Seq<char>, from: int) -> Option<int>
    decreases hay.len() - from,
{
    if from < 0 || from + needle.len() > hay.len() {
        None
    } else if spec_run_at(needle, hay, from) {
        Some(from)
    } else {
        spec_first_run(needle, hay, from + 1)
    }
}

/// The first position `>= from` where `needle` occurs as a contiguous run
/// that begins at a word boundary.
pub open spec fn spec_first_run_bnd(needle: Seq<char>, fh: Seq<char>, hay: Seq<char>, from: int) -> Option<int>
    decreases fh.len() + 1 - from,
{
    if from < 0 || from + needle.len() > fh.len() {
        None
    } else if spec_run_at(needle, fh, from) && spec_at_boundary(hay, from) {
        Some(from)
    } else {
        spec_first_run_bnd(needle, fh, hay, from + 1)
    }
}

/// The best run of `needle` in `fh`: the first one at a word boundary when
/// any run is, the first run otherwise.
pub open spec fn spec_best_run(needle: Seq<char>, fh: Seq<char>, hay: Seq<char>) -> Option<int> {
    match spec_first_run_bnd(needle, fh, hay, 0) {
        Some(i) => Some(i),
        None => spec_first_run(needle, fh, 0),
    }
}

/// The positions `i, i + 1, ..., i + k - 1` of a run.
pub open spec fn spec_run_positions(i: int, k: int) -> Seq<int> {
    Seq::new(k as nat, |j: int| i + j)
}

/// Where an atom is placed, if its condition holds: a plain atom at its
/// best-scoring subsequence placement, a contiguous atom at its best run,
/// an anchored atom at its only possible position. `hay`, the unfolded
/// haystack, supplies the boundary information that steers the choice.
pub open spec fn spec_atom_positions(a: AtomView, fh: Seq<char>, hay: Seq<char>) -> Option<
    Seq<int>,
> {
    match a.kind {
        AtomKind::Fuzzy => match spec_best_sub(a.needle, fh, hay, 0, 0, -2) {
            None => None,
            Some(r) => Some(r.1),
        },
        AtomKind::Exact => match spec_best_run(a.needle, fh, hay) {
            None => None,
            Some(i) => Some(spec_run_positions(i, a.needle.len() as int)),
        },
        AtomKind::Prefix => if spec_run_at(a.needle, fh, 0) {
            Some(spec_run_positions(0, a.needle.len() as int))
        } else {
            None
        },
        AtomKind::Suffix => if fh.len() >= a.needle.len() && spec_run_at(
            a.needle,
            fh,
            fh.len() - a.needle.len(),
        ) {
            Some(spec_run_positions(fh.len() - a.needle.len(), a.needle.len() as int))
        } else {
            None
        },
        AtomKind::Full => if fh.len() == a.needle.len() && spec_run_at(a.needle, fh, 0) {
            Some(spec_run_positions(0, a.needle.len() as int))
        } else {
            None
        },
    }
}

/// Whether an atom is satisfied: its condition holds, or, for a negated
/// atom, does not hold.
pub open spec fn spec_atom_ok(a: AtomView, fh: Seq<char>, hay: Seq<char>) -> bool {
    if a.negated {
        spec_atom_positions(a, fh, hay) is None
    } else {
        spec_atom_positions(a, fh, hay) is Some
    }
}

/// Positions that are strictly ascending and within a haystack of length `n`.
pub open spec fn spec_valid_positions(pos: Seq<int>, n: int) -> bool {
    &&& forall|j: int| 0 <= j < pos.len() ==> 0 <= #[trigger] pos[j] < n
    &&& forall|j: int| 0 < j < pos.len() ==> pos[j - 1] < #[trigger] pos[j]
}

/// The number of adjacent pairs among the first `t + 1` positions.
pub open spec fn spec_adj_upto(pos: Seq<int>, t: int) -> nat
    decreases t,
{
    if t < 1 {
        0
    } else {
        spec_adj_upto(pos, t - 1) + if pos[t] == pos[t - 1] + 1 {
            1nat
        } else {
            0nat
        }
    }
}

/// The number of adjacent pairs of a placement.
pub open spec fn spec_count_adjacent(pos: Seq<int>) -> nat {
    spec_adj_upto(pos, pos.len() - 1)
}

/// Whether haystack position `i` sits at a word boundary: the start of the
/// haystack, after a separator, or at a lower-to-upper camel-case step.
pub open spec fn spec_at_boundary(hay: Seq<char>, i: int) -> bool {
    i == 0 || (0 < i < hay.len() && (spec_is_separator(hay[i - 1]) || (spec_is_lower(hay[i - 1])
        && spec_is_upper(hay[i]))))
}

/// The score of one placement: a base per matched character, a reward per
/// adjacent pair, a reward for starting at a word boundary, and a reward for
/// covering the whole haystack. The haystack as given, before folding,
/// supplies the boundary information.
pub open spec fn spec_atom_score(pos: Seq<int>, hay: Seq<char>) -> nat {
    if pos.len() == 0 {
        0
    } else {
        (SCORE_BASE as nat) * pos.len() + (SCORE_ADJACENT as nat) * spec_count_adjacent(pos) + (
        if spec_at_boundary(hay, pos[0]) {
            SCORE_BOUNDARY as nat
        } else {
            0nat
        }) + (if pos.len() == hay.len() {
            SCORE_FULL as nat
        } else {
            0nat
        })
    }
}

/// What a non-negated atom adds to the total score.
pub open spec fn spec_atom_contrib(a: AtomView, fh: Seq<char>, hay: Seq<char>) -> nat {
    if a.negated {
        0
    } else {
        match spec_atom_positions(a, fh, hay) {
            Some(p) => spec_atom_score(p, hay),
            None => 0,
        }
    }
}

/// The total score of a pattern whose atoms are all satisfied.
pub open spec fn spec_total_score(atoms: Seq<AtomView>, fh: Seq<char>, hay: Seq<char>) -> nat
    decreases atoms.len(),
{
    if atoms.len() == 0 {
        0
    } else {
        spec_atom_contrib(atoms[0], fh, hay) + spec_total_score(atoms.drop_first(), fh, hay)
    }
}

/// What a non-negated atom adds to the highlighted positions.
pub open spec fn spec_atom_index_set(a: AtomView, fh: Seq<char>, hay: Seq<char>) -> Set<int> {
    if a.negated {
        Set::empty()
    } else {
        match spec_atom_positions(a, fh, hay) {
            Some(p) => p.to_set(),
            None => Set::empty(),
        }
    }
}

/// The union of the highlighted positions of all atoms.
pub open spec fn spec_index_set(atoms: Seq<AtomView>, fh: Seq<char>, hay: Seq<char>) -> Set<int>
    decreases atoms.len(),
{
    if atoms.len() == 0 {
        Set::empty()
    } else {
        spec_atom_index_set(atoms[0], fh, hay) + spec_index_set(atoms.drop_first(), fh, hay)
    }
}

/// The members of `s` within `lo..hi`, in ascending order.
pub open spec fn spec_ascending_of(s: Set<int>, lo: int, hi: int) -> Seq<int>
    decreases hi - lo,
{
    if lo >= hi {
        Seq::empty()
    } else if s.contains(lo) {
        seq![lo] + spec_ascending_of(s, lo + 1, hi)
    } else {
        spec_ascending_of(s, lo + 1, hi)
    }
}

/// Zero-based positions shifted to the one-based convention of the result.
pub open spec fn spec_one_based(s: Seq<int>) -> Seq<int> {
    s.map_values(|v: int| v + 1)
}

/// Whether all atoms are satisfied against the folded haystack.
pub open spec fn spec_all_ok(atoms: Seq<AtomView>, fh: Seq<char>, hay: Seq<char>) -> bool {
    forall|i: int| 0 <= i < atoms.len() ==> spec_atom_ok(#[trigger] atoms[i], fh, hay)
}

/// A score clipped to what the engine's result type can carry.
pub open spec fn spec_clip(n: nat) -> nat {
    if n > u32::MAX {
        u32::MAX as nat
    } else {
        n
    }
}

/// The value of a best placement is bounded by one adjacency reward per
/// remaining character and one boundary reward.
pub proof fn lemma_best_sub_bound(
    needle: Seq<char>,
    fh: Seq<char>,
    hay: Seq<char>,
    j: int,
    i: int,
    prev: int,
)
    requires
        j <= needle.len(),
    ensures
        spec_best_sub(needle, fh, hay, j, i, prev) matches Some(r) ==> r.0 <= (SCORE_ADJACENT
            as int) * (needle.len() - j) + (SCORE_BOUNDARY as int),
    decreases fh.len() - i,
{
    if j >= needle.len() {
    } else if i < 0 || i >= fh.len() {
    } else {
        lemma_best_sub_bound(needle, fh, hay, j, i + 1, prev);
        lemma_best_sub_bound(needle, fh, hay, j + 1, i + 1, i);
    }
}

/// A best placement is a placement: its positions are ascending, in range,
/// hold the needle characters, and its value is its accumulated extra score.
pub proof fn lemma_best_sub_props(
    needle: Seq<char>,
    fh: Seq<char>,
    hay: Seq<char>,
    j: int,
    i: int,
    prev: int,
)
    requires
        0 <= j <= needle.len(),
        0 <= i,
    ensures
        spec_best_sub(needle, fh, hay, j, i, prev) matches Some(r) ==> {
            &&& r.1.len() == needle.len() - j
            &&& forall|t: int| 0 <= t < r.1.len() ==> i <= #[trigger] r.1[t] < fh.len()
            &&& forall|t: int| 0 < t < r.1.len() ==> r.1[t - 1] < #[trigger] r.1[t]
            &&& forall|t: int| 0 <= t < r.1.len() ==> fh[#[trigger] r.1[t]] == needle[j + t]
            &&& spec_extra_of(r.1, hay, j == 0, prev) == r.0
        },
    decreases fh.len() - i,
{
    if j >= needle.len() {
        assert(spec_extra_of(Seq::<int>::empty(), hay, j == 0, prev) == 0);
    } else if i >= fh.len() {
    } else {
        lemma_best_sub_props(needle, fh, hay, j, i + 1, prev);
        lemma_best_sub_props(needle, fh, hay, j + 1, i + 1, i);
        if fh[i] == needle[j] {
            match spec_best_sub(needle, fh, hay, j + 1, i + 1, i) {
                None => {},
                Some(rest) => {
                    let here_p = seq![i] + rest.1;
                    assert(here_p[0] == i);
                    assert(here_p.drop_first() =~= rest.1);
                    assert(forall|t: int| 0 < t < here_p.len() ==> here_p[t] == rest.1[t - 1]);
                    assert(spec_extra_of(here_p, hay, j == 0, prev) == (if j == 0 {
                        if spec_at_boundary(hay, i) {
                            SCORE_BOUNDARY as int
                        } else {
                            0
                        }
                    } else if i == prev + 1 {
                        SCORE_ADJACENT as int
                    } else {
                        0
                    }) + spec_extra_of(rest.1, hay, false, i));
                },
            }
        }
    }
}

/// A found first run lies in range and matches.
pub proof fn lemma_first_run_range(needle: Seq<char>, hay: Seq<char>, from: int)
    requires
        spec_first_run(needle, hay, from) is Some,
    ensures
        from <= spec_first_run(needle, hay, from).unwrap(),
        spec_run_at(needle, hay, spec_first_run(needle, hay, from).unwrap()),
    decreases hay.len() - from,
{
    if from < 0 || from + needle.len() > hay.len() {
    } else if spec_run_at(needle, hay, from) {
    } else {
        lemma_first_run_range(needle, hay, from + 1);
    }
}

/// A found first boundary run lies in range, matches, and sits at a
/// boundary.
pub proof fn lemma_first_run_bnd_range(
    needle: Seq<char>,
    fh: Seq<char>,
    hay: Seq<char>,
    from: int,
)
    requires
        spec_first_run_bnd(needle, fh, hay, from) is Some,
    ensures
        from <= spec_first_run_bnd(needle, fh, hay, from).unwrap(),
        spec_run_at(needle, fh, spec_first_run_bnd(needle, fh, hay, from).unwrap()),
        spec_at_boundary(hay, spec_first_run_bnd(needle, fh, hay, from).unwrap()),
    decreases fh.len() + 1 - from,
{
    if from < 0 || from + needle.len() > fh.len() {
    } else if spec_run_at(needle, fh, from) && spec_at_boundary(hay, from) {
    } else {
        lemma_first_run_bnd_range(needle, fh, hay, from + 1);
    }
}

/// A found best run lies in range and matches.
pub proof fn lemma_best_run_range(needle: Seq<char>, fh: Seq<char>, hay: Seq<char>)
    requires
        spec_best_run(needle, fh, hay) is Some,
    ensures
        0 <= spec_best_run(needle, fh, hay).unwrap(),
        spec_run_at(needle, fh, spec_best_run(needle, fh, hay).unwrap()),
{
    match spec_first_run_bnd(needle, fh, hay, 0) {
        Some(_) => {
            lemma_first_run_bnd_range(needle, fh, hay, 0);
        },
        None => {
            lemma_first_run_range(needle, fh, 0);
        },
    }
}

/// The positions an atom is placed at are valid for the haystack length.
pub proof fn lemma_atom_positions_valid(a: AtomView, fh: Seq<char>, hay: Seq<char>, pos: Seq<int>)
    requires
        spec_atom_positions(a, fh, hay) == Some(pos),
    ensures
        spec_valid_positions(pos, fh.len() as int),
        pos.len() == a.needle.len(),
{
    match a.kind {
        AtomKind::Fuzzy => {
            lemma_best_sub_props(a.needle, fh, hay, 0, 0, -2);
        },
        AtomKind::Exact => {
            let i = spec_best_run(a.needle, fh, hay).unwrap();
            lemma_best_run_range(a.needle, fh, hay);
            assert(pos == spec_run_positions(i, a.needle.len() as int));
        },
        AtomKind::Prefix => {
            assert(pos == spec_run_positions(0, a.needle.len() as int));
        },
        AtomKind::Suffix => {
            assert(pos == spec_run_positions(
                fh.len() - a.needle.len(),
                a.needle.len() as int,
            ));
        },
        AtomKind::Full => {
            assert(pos == spec_run_positions(0, a.needle.len() as int));
        },
    }
}

/// Whether haystack position `i` sits at a word boundary.
pub fn at_boundary(hay: &Vec<char>, i: usize) -> (r: bool)
    ensures
        r == spec_at_boundary(hay@, i as int),
{
    if i == 0 {
        true
    } else if i >= hay.len() {
        false
    } else {
        is_separator(hay[i - 1]) || (is_lower(hay[i - 1]) && is_upper(hay[i]))
    }
}

/// Finds the best-scoring subsequence placement of `needle[j..]` in `fh` at
/// positions `>= i`, and its accumulated extra score; `prev` is where the
/// previous needle character was placed (unused when `j == 0`).
fn best_sub(
    needle: &Vec<char>,
    fh: &Vec<char>,
    hay: &Vec<char>,
    j: usize,
    i: usize,
    prev: usize,
) -> (r: Option<(u128, Vec<usize>)>)
    requires
        hay@.len() == fh@.len(),
        j <= needle@.len(),
        j >= 1 ==> prev < i,
    ensures
        ({
            let sp: int = if j == 0 {
                -2
            } else {
                prev as int
            };
            match r {
                None => spec_best_sub(needle@, fh@, hay@, j as int, i as int, sp) is None,
                Some(p) => spec_best_sub(needle@, fh@, hay@, j as int, i as int, sp) == Some(
                    (p.0 as int, to_ints(p.1@)),
                ),
            }
        }),
    decreases fh@.len() - i,
{
    let ghost sp: int = if j == 0 { -2int } else { prev as int };
    if j >= needle.len() {
        let pos: Vec<usize> = Vec::new();
        proof {
            assert(to_ints(pos@) =~= Seq::<int>::empty());
        }
        return Some((0, pos));
    }
    if i >= fh.len() {
        return None;
    }
    let skip = best_sub(needle, fh, hay, j, i + 1, prev);
    if fh[i] == needle[j] {
        let bonus: u128 = if j == 0 {
            if at_boundary(hay, i) {
                SCORE_BOUNDARY as u128
            } else {
                0
            }
        } else if i == prev + 1 {
            SCORE_ADJACENT as u128
        } else {
            0
        };
        match best_sub(needle, fh, hay, j + 1, i + 1, i) {
            None => skip,
            Some((rv, rpos)) => {
                proof {
                    lemma_best_sub_bound(needle@, fh@, hay@, j + 1, i + 1, i as int);
                }
                let here_v = rv + bonus;
                let mut here_p: Vec<usize> = Vec::new();
                here_p.push(i);
                let mut t: usize = 0;
                while t < rpos.len()
                    invariant
                        t <= rpos@.len(),
                        here_p@.len() == t + 1,
                        here_p@[0] == i,
                        forall|u: int| 0 < u <= t ==> here_p@[u] == rpos@[u - 1],
                    decreases rpos@.len() - t,
                {
                    let x = rpos[t];
                    here_p.push(x);
                    t = t + 1;
                }
                proof {
                    assert(to_ints(here_p@) =~= seq![i as int] + to_ints(rpos@));
                }
                match skip {
                    None => Some((here_v, here_p)),
                    Some(sk) => {
                        if here_v >= sk.0 {
                            Some((here_v, here_p))
                        } else {
                            Some(sk)
                        }
                    },
                }
            },
        }
    } else {
        skip
    }
}

/// The outcome of holding one compiled pattern against one haystack: an
/// empty pattern accepts everything with the sentinel score and no indices;
/// a pattern whose atoms are all satisfied yields its total score and the
/// ascending, one-based, de-duplicated union of the placements; any other
/// pattern yields the failure score and no indices.
pub open spec fn spec_match(p: PatternView, hay: Seq<char>) -> (nat, Seq<int>) {
    let fh = spec_fold_seq(hay, p.sensitive, p.normalize);
    if p.atoms.len() == 0 {
        (SCORE_EMPTY_PATTERN as nat, Seq::empty())
    } else if spec_all_ok(p.atoms, fh, hay) {
        (
            spec_total_score(p.atoms, fh, hay),
            spec_one_based(
                spec_ascending_of(spec_index_set(p.atoms, fh, hay), 0, hay.len() as int),
            ),
        )
    } else {
        (0, Seq::empty())
    }
}

/// Whether `needle` occurs as a contiguous run at `i`.
pub fn check_run(needle: &Vec<char>, fh: &Vec<char>, i: usize) -> (r: bool)
    requires
        i + needle@.len() <= fh@.len(),
    ensures
        r == spec_run_at(needle@, fh@, i as int),
{
    let n = fh.len();
    let mut j: usize = 0;
    while j < needle.len()
        invariant
            n == fh@.len(),
            j <= needle@.len(),
            i + needle@.len() <= fh@.len(),
            forall|t: int| 0 <= t < j ==> fh@[i + t] == needle@[t],
        decreases needle@.len() - j,
    {
        proof {
            assert(i + j < n);
        }
        if fh[i + j] != needle[j] {
            return false;
        }
        j = j + 1;
    }
    true
}

/// Finds the best run of `needle` in `fh`: the first at a word boundary if
/// any run is, the first run otherwise.
pub fn find_best_run(needle: &Vec<char>, fh: &Vec<char>, hay: &Vec<char>) -> (r: Option<usize>)
    requires
        hay@.len() == fh@.len(),
    ensures
        match r {
            Some(i) => spec_best_run(needle@, fh@, hay@) == Some(i as int) && spec_run_at(
                needle@,
                fh@,
                i as int,
            ),
            None => spec_best_run(needle@, fh@, hay@) is None,
        },
{
    if needle.len() > fh.len() {
        return None;
    }
    if needle.len() == 0 {
        proof {
            assert(spec_run_at(needle@, fh@, 0));
            assert(spec_at_boundary(hay@, 0));
        }
        return Some(0);
    }
    let mut first: Option<usize> = None;
    let mut i: usize = 0;
    while i <= fh.len() - needle.len()
        invariant
            hay@.len() == fh@.len(),
            needle@.len() <= fh@.len(),
            i <= fh@.len() - needle@.len() + 1,
            spec_first_run_bnd(needle@, fh@, hay@, 0) == spec_first_run_bnd(
                needle@,
                fh@,
                hay@,
                i as int,
            ),
            match first {
                Some(f) => spec_first_run(needle@, fh@, 0) == Some(f as int) && spec_run_at(
                    needle@,
                    fh@,
                    f as int,
                ),
                None => spec_first_run(needle@, fh@, 0) == spec_first_run(
                    needle@,
                    fh@,
                    i as int,
                ),
            },
        decreases fh.len() - i,
    {
        if check_run(needle, fh, i) {
            if at_boundary(hay, i) {
                return Some(i);
            }
            if first.is_none() {
                first = Some(i);
            }
        }
        proof {
            assert(i < fh@.len());
        }
        i = i + 1;
    }
    proof {
        assert(spec_first_run_bnd(needle@, fh@, hay@, i as int) is None);
        if first is None {
            assert(spec_first_run(needle@, fh@, i as int) is None);
        }
    }
    first
}

/// The run positions, as a vector.
pub fn run_positions_vec(i: usize, k: usize) -> (r: Vec<usize>)
    requires
        i + k <= usize::MAX,
    ensures
        to_ints(r@) == spec_run_positions(i as int, k as int),
{
    let mut r: Vec<usize> = Vec::new();
    let mut j: usize = 0;
    while j < k
        invariant
            j <= k,
            i + k <= usize::MAX,
            to_ints(r@) =~= spec_run_positions(i as int, k as int).take(
                j as int,
            ),
        decreases k - j,
    {
        let ghost pre = r@;
        r.push(i + j);
        proof {
            assert(to_ints(r@)
                =~= to_ints(pre).push((i + j) as int));
            assert(to_ints(r@) =~= spec_run_positions(
                i as int,
                k as int,
            ).take(j + 1));
        }
        j = j + 1;
    }
    proof {
        assert(to_ints(r@) =~= spec_run_positions(i as int, k as int));
    }
    r
}

/// Places one atom, if its condition holds in the folded haystack `fh`;
/// `hay` supplies the boundary information that steers the choice.
pub fn atom_place(a: &Atom, fh: &Vec<char>, hay: &Vec<char>) -> (r: Option<Vec<usize>>)
    requires
        hay@.len() == fh@.len(),
    ensures
        match r {
            Some(v) => spec_atom_positions(a@, fh@, hay@) == Some(to_ints(v@)),
            None => spec_atom_positions(a@, fh@, hay@) is None,
        },
{
    match a.kind {
        AtomKind::Fuzzy => {
            match best_sub(&a.needle, fh, hay, 0, 0, 0) {
                None => None,
                Some((_, pos)) => Some(pos),
            }
        },
        AtomKind::Exact => {
            match find_best_run(&a.needle, fh, hay) {
                None => None,
                Some(i) => {
                    let n = fh.len();
                    proof {
                        assert(i + a.needle@.len() <= n);
                    }
                    Some(run_positions_vec(i, a.needle.len()))
                },
            }
        },
        AtomKind::Prefix => {
            if a.needle.len() <= fh.len() && check_run(&a.needle, fh, 0) {
                Some(run_positions_vec(0, a.needle.len()))
            } else {
                None
            }
        },
        AtomKind::Suffix => {
            if a.needle.len() <= fh.len() {
                let start = fh.len() - a.needle.len();
                if check_run(&a.needle, fh, start) {
                    Some(run_positions_vec(start, a.needle.len()))
                } else {
                    None
                }
            } else {
                None
            }
        },
        AtomKind::Full => {
            if a.needle.len() == fh.len() && check_run(&a.needle, fh, 0) {
                Some(run_positions_vec(0, a.needle.len()))
            } else {
                None
            }
        },
    }
}

/// Saturating addition of two clipped scores.
pub fn clip_add(a: u32, b: u32) -> (r: u32)
    ensures
        r as nat == spec_clip((a as nat) + (b as nat)),
{
    if a > u32::MAX - b {
        u32::MAX
    } else {
        a + b
    }
}

/// Clipping commutes with addition of clipped summands.
pub proof fn lemma_clip_add(x: nat, y: nat)
    ensures
        spec_clip(spec_clip(x) + spec_clip(y)) == spec_clip(x + y),
{
}

/// The score of a placement, clipped to the result type.
pub fn score_positions(pos: &Vec<usize>, hay: &Vec<char>) -> (r: u32)
    requires
        spec_valid_positions(to_ints(pos@), hay@.len() as int),
    ensures
        r as nat == spec_clip(spec_atom_score(to_ints(pos@), hay@)),
{
    let ghost mp = to_ints(pos@);
    let k = pos.len();
    let hn = hay.len();
    if k == 0 {
        return 0;
    }
    if k >= 0x4000_0000 {
        proof {
            assert(spec_atom_score(mp, hay@) >= (SCORE_BASE as nat) * mp.len());
            assert((SCORE_BASE as nat) * mp.len() > u32::MAX);
        }
        return u32::MAX;
    }
    let mut count: u32 = 0;
    let mut t: usize = 1;
    while t < k
        invariant
            1 <= t <= k,
            k == pos@.len(),
            k < 0x4000_0000,
            hn == hay@.len(),
            mp == to_ints(pos@),
            spec_valid_positions(mp, hay@.len() as int),
            count <= t - 1,
            count as nat == spec_adj_upto(mp, t - 1),
        decreases k - t,
    {
        proof {
            assert(mp[t as int] == pos@[t as int] as int);
            assert(mp[t - 1] == pos@[t - 1] as int);
            assert(mp[t - 1] < hay@.len());
        }
        if pos[t] == pos[t - 1] + 1 {
            count = count + 1;
        }
        t = t + 1;
    }
    let p0 = pos[0];
    proof {
        assert(mp[0] == p0 as int);
        assert(0 <= mp[0] < hay@.len());
    }
    let boundary = if p0 == 0 {
        true
    } else {
        is_separator(hay[p0 - 1]) || (is_lower(hay[p0 - 1]) && is_upper(hay[p0]))
    };
    proof {
        assert(boundary == spec_at_boundary(hay@, mp[0]));
    }
    let full = k == hn;
    let score64: u64 = (SCORE_BASE as u64) * (k as u64) + (SCORE_ADJACENT as u64) * (count as u64)
        + (if boundary {
        SCORE_BOUNDARY as u64
    } else {
        0
    }) + (if full {
        SCORE_FULL as u64
    } else {
        0
    });
    proof {
        assert(score64 as nat == spec_atom_score(mp, hay@));
    }
    if score64 > (u32::MAX as u64) {
        u32::MAX
    } else {
        score64 as u32
    }
}

/// Appending an atom adds its contribution to the total score.
pub proof fn lemma_total_push(atoms: Seq<AtomView>, x: AtomView, fh: Seq<char>, hay: Seq<char>)
    ensures
        spec_total_score(atoms.push(x), fh, hay) == spec_total_score(atoms, fh, hay)
            + spec_atom_contrib(x, fh, hay),
    decreases atoms.len(),
{
    if atoms.len() == 0 {
        assert(atoms.push(x)[0] == x);
        assert(atoms.push(x).drop_first() =~= Seq::<AtomView>::empty());
        assert(spec_total_score(atoms.push(x), fh, hay) == spec_atom_contrib(x, fh, hay)
            + spec_total_score(atoms.push(x).drop_first(), fh, hay));
        assert(spec_total_score(atoms.push(x).drop_first(), fh, hay) == 0);
        assert(spec_total_score(atoms, fh, hay) == 0);
    } else {
        assert(atoms.push(x).drop_first() =~= atoms.drop_first().push(x));
        lemma_total_push(atoms.drop_first(), x, fh, hay);
        assert(atoms.push(x)[0] == atoms[0]);
        assert(spec_total_score(atoms.push(x), fh, hay) == spec_atom_contrib(atoms[0], fh, hay)
            + spec_total_score(atoms.drop_first().push(x), fh, hay));
        assert(spec_total_score(atoms, fh, hay) == spec_atom_contrib(atoms[0], fh, hay)
            + spec_total_score(atoms.drop_first(), fh, hay));
    }
}

/// Appending an atom adds its positions to the highlighted set.
pub proof fn lemma_index_set_push(atoms: Seq<AtomView>, x: AtomView, fh: Seq<char>, hay: Seq<char>)
    ensures
        spec_index_set(atoms.push(x), fh, hay) == spec_index_set(atoms, fh, hay)
            + spec_atom_index_set(x, fh, hay),
    decreases atoms.len(),
{
    if atoms.len() == 0 {
        assert(atoms.push(x)[0] == x);
        assert(atoms.push(x).drop_first() =~= Seq::<AtomView>::empty());
        assert(spec_index_set(atoms.push(x), fh, hay) == spec_atom_index_set(x, fh, hay)
            + spec_index_set(atoms.push(x).drop_first(), fh, hay));
        assert(spec_index_set(atoms.push(x).drop_first(), fh, hay) =~= Set::<int>::empty());
        assert(spec_index_set(atoms, fh, hay) =~= Set::<int>::empty());
        assert(spec_atom_index_set(x, fh, hay) + Set::<int>::empty() =~= Set::<int>::empty()
            + spec_atom_index_set(x, fh, hay));
    } else {
        assert(atoms.push(x).drop_first() =~= atoms.drop_first().push(x));
        lemma_index_set_push(atoms.drop_first(), x, fh, hay);
        assert(atoms.push(x)[0] == atoms[0]);
        assert(spec_index_set(atoms.push(x), fh, hay) == spec_atom_index_set(atoms[0], fh, hay)
            + spec_index_set(atoms.drop_first().push(x), fh, hay));
        assert(spec_index_set(atoms, fh, hay) == spec_atom_index_set(atoms[0], fh, hay)
            + spec_index_set(atoms.drop_first(), fh, hay));
        assert(spec_atom_index_set(atoms[0], fh, hay) + (spec_index_set(
            atoms.drop_first(),
            fh,
            hay,
        ) + spec_atom_index_set(x, fh, hay)) =~= (spec_atom_index_set(atoms[0], fh, hay)
            + spec_index_set(atoms.drop_first(), fh, hay)) + spec_atom_index_set(x, fh, hay));
    }
}

/// Extending the scanned range by one position appends it when it is a
/// member.
pub proof fn lemma_asc_snoc(s: Set<int>, lo: int, hi: int)
    requires
        lo <= hi,
    ensures
        spec_ascending_of(s, lo, hi + 1) == spec_ascending_of(s, lo, hi) + (if s.contains(hi) {
            seq![hi]
        } else {
            Seq::<int>::empty()
        }),
    decreases hi - lo,
{
    let tail = if s.contains(hi) {
        seq![hi]
    } else {
        Seq::<int>::empty()
    };
    if lo == hi {
        assert(spec_ascending_of(s, lo, hi) =~= Seq::<int>::empty());
        if s.contains(lo) {
            assert(spec_ascending_of(s, lo, hi + 1) == seq![lo] + spec_ascending_of(
                s,
                lo + 1,
                hi + 1,
            ));
            assert(spec_ascending_of(s, lo + 1, hi + 1) =~= Seq::<int>::empty());
            assert(seq![lo] + Seq::<int>::empty() =~= seq![lo]);
            assert(Seq::<int>::empty() + seq![lo] =~= seq![lo]);
        } else {
            assert(spec_ascending_of(s, lo, hi + 1) == spec_ascending_of(s, lo + 1, hi + 1));
            assert(spec_ascending_of(s, lo + 1, hi + 1) =~= Seq::<int>::empty());
            assert(Seq::<int>::empty() + Seq::<int>::empty() =~= Seq::<int>::empty());
        }
    } else {
        lemma_asc_snoc(s, lo + 1, hi);
        if s.contains(lo) {
            assert(spec_ascending_of(s, lo, hi + 1) == seq![lo] + spec_ascending_of(
                s,
                lo + 1,
                hi + 1,
            ));
            assert(spec_ascending_of(s, lo, hi) == seq![lo] + spec_ascending_of(s, lo + 1, hi));
            assert((seq![lo] + spec_ascending_of(s, lo + 1, hi)) + tail =~= seq![lo] + (
            spec_ascending_of(s, lo + 1, hi) + tail));
        } else {
            assert(spec_ascending_of(s, lo, hi + 1) == spec_ascending_of(s, lo + 1, hi + 1));
            assert(spec_ascending_of(s, lo, hi) == spec_ascending_of(s, lo + 1, hi));
        }
    }
}

/// Holds a compiled pattern against one haystack: the clipped total score
/// and the one-based highlighted indices of [`spec_match`], exactly.
pub fn run_match(p: &Pattern, hay: &Vec<char>, marks: &mut Vec<bool>) -> (r: (u32, Vec<usize>))
    ensures
        r.0 as nat == spec_clip(spec_match(p@, hay@).0),
        to_ints(r.1@) == spec_match(p@, hay@).1,
{
    let hn = hay.len();
    if p.atoms.len() == 0 {
        let out: Vec<usize> = Vec::new();
        proof {
            assert(to_ints(out@) =~= Seq::<int>::empty());
        }
        return (SCORE_EMPTY_PATTERN, out);
    }
    let fh = fold_vec(hay, p.sensitive, p.normalize);
    let ghost av = atom_views(p.atoms@);
    let ghost fhs = fh@;
    proof {
        assert(fhs.len() == hay@.len());
    }
    marks.clear();
    let mut m: usize = 0;
    while m < hn
        invariant
            m <= hn,
            marks@.len() == m,
            forall|q: int| 0 <= q < m ==> marks@[q] == false,
        decreases hn - m,
    {
        marks.push(false);
        m = m + 1;
    }
    let mut total: u32 = 0;
    let mut a: usize = 0;
    proof {
        assert(av.take(0) =~= Seq::<AtomView>::empty());
    }
    while a < p.atoms.len()
        invariant
            a <= p.atoms@.len(),
            av == atom_views(p.atoms@),
            av.len() == p.atoms@.len(),
            fhs == fh@,
            fhs == spec_fold_seq(hay@, p.sensitive, p.normalize),
            fhs.len() == hay@.len(),
            hn == hay@.len(),
            marks@.len() == hn,
            total as nat == spec_clip(spec_total_score(av.take(a as int), fhs, hay@)),
            forall|q: int| 0 <= q < a ==> spec_atom_ok(#[trigger] av[q], fhs, hay@),
            forall|q: int|
                0 <= q < hn ==> marks@[q] == spec_index_set(av.take(a as int), fhs, hay@).contains(q),
        decreases p.atoms@.len() - a,
    {
        let atom = &p.atoms[a];
        proof {
            assert(av[a as int] == atom@);
        }
        let placed = atom_place(atom, &fh, hay);
        let failed = if atom.negated {
            placed.is_some()
        } else {
            placed.is_none()
        };
        if failed {
            proof {
                assert(!spec_atom_ok(av[a as int], fhs, hay@));
                assert(!spec_all_ok(av, fhs, hay@));
            }
            let out: Vec<usize> = Vec::new();
            proof {
                assert(to_ints(out@) =~= Seq::<int>::empty());
            }
            return (0, out);
        }
        proof {
            assert(spec_atom_ok(av[a as int], fhs, hay@));
            assert(av.take(a + 1) =~= av.take(a as int).push(av[a as int]));
            lemma_total_push(av.take(a as int), av[a as int], fhs, hay@);
            lemma_index_set_push(av.take(a as int), av[a as int], fhs, hay@);
        }
        if atom.negated {
            proof {
                assert(spec_index_set(av.take(a + 1), fhs, hay@) =~= spec_index_set(
                    av.take(a as int),
                    fhs,
                    hay@,
                ));
            }
        } else {
            match placed {
                None => {
                    proof {
                        assert(false);
                    }
                },
                Some(pos) => {
                    proof {
                        lemma_atom_positions_valid(
                            atom@,
                            fhs,
                            hay@,
                            to_ints(pos@),
                        );
                    }
                    let sc = score_positions(&pos, hay);
                    proof {
                        lemma_clip_add(
                            spec_total_score(av.take(a as int), fhs, hay@),
                            spec_atom_contrib(av[a as int], fhs, hay@),
                        );
                    }
                    total = clip_add(total, sc);
                    let ghost pre_marks = marks@;
                    proof {
                        assert(forall|q: int|
                            0 <= q < hn ==> #[trigger] pre_marks[q] == spec_index_set(
                                av.take(a as int),
                                fhs,
                                hay@,
                            ).contains(q));
                    }
                    let mut t: usize = 0;
                    while t < pos.len()
                        invariant
                            t <= pos@.len(),
                            marks@.len() == pre_marks.len(),
                            hn == pre_marks.len(),
                            spec_valid_positions(
                                to_ints(pos@),
                                hn as int,
                            ),
                            forall|q: int|
                                0 <= q < hn ==> marks@[q] == (pre_marks[q] || exists|u: int|
                                    0 <= u < t && pos@[u] as int == q),
                        decreases pos@.len() - t,
                    {
                        proof {
                            assert(to_ints(pos@)[t as int] == pos@[t as int]
                                as int);
                            assert((pos@[t as int] as int) < hn);
                            assert(forall|q: int|
                                0 <= q < hn ==> marks@[q] == (pre_marks[q] || exists|u: int|
                                    0 <= u < t && pos@[u] as int == q));
                        }
                        let idx = pos[t];
                        let ghost before = marks@;
                        proof {
                            assert(forall|q: int|
                                0 <= q < hn ==> before[q] == (pre_marks[q] || exists|u: int|
                                    0 <= u < t && pos@[u] as int == q));
                        }
                        marks.set(idx, true);
                        proof {
                            assert(pos@[t as int] == idx);
                            assert(marks@ == before.update(idx as int, true));
                            assert forall|q: int| 0 <= q < hn implies marks@[q] == (pre_marks[q]
                                || exists|u: int| 0 <= u < t + 1 && pos@[u] as int == q) by {
                                assert(before[q] == (pre_marks[q] || exists|u: int|
                                    0 <= u < t && pos@[u] as int == q));
                                if q == idx as int {
                                    assert(marks@[q] == true);
                                    assert(0 <= t < t + 1 && pos@[t as int] as int == q);
                                } else {
                                    assert(marks@[q] == before[q]);
                                    if exists|u: int| 0 <= u < t + 1 && pos@[u] as int == q {
                                        let u = choose|u: int|
                                            0 <= u < t + 1 && pos@[u] as int == q;
                                        if u == t {
                                            assert(q == idx as int);
                                        }
                                        assert(0 <= u < t && pos@[u] as int == q);
                                    }
                                    if exists|u: int| 0 <= u < t && pos@[u] as int == q {
                                        let u = choose|u: int|
                                            0 <= u < t && pos@[u] as int == q;
                                        assert(0 <= u < t + 1 && pos@[u] as int == q);
                                    }
                                }
                            }
                        }
                        t = t + 1;
                    }
                    proof {
                        let mp = to_ints(pos@);
                        assert(t == pos@.len());
                        assert(forall|q: int|
                            0 <= q < hn ==> #[trigger] marks@[q] == (pre_marks[q] || exists|u: int|
                                0 <= u < t && pos@[u] as int == q));
                        assert(spec_atom_index_set(av[a as int], fhs, hay@) == mp.to_set());
                        assert forall|q: int| 0 <= q < hn implies marks@[q] == spec_index_set(
                            av.take(a + 1),
                            fhs,
                            hay@,
                        ).contains(q) by {
                            assert(forall|u: int|
                                0 <= u < pos@.len() ==> mp[u] == #[trigger] pos@[u] as int);
                            if exists|u: int| 0 <= u < t && pos@[u] as int == q {
                                let u = choose|u: int| 0 <= u < t && pos@[u] as int == q;
                                assert(mp[u] == q);
                                assert(mp.contains(q));
                            }
                            if mp.contains(q) {
                                let u = choose|u: int| 0 <= u < mp.len() && mp[u] == q;
                                assert(pos@[u] as int == q);
                                assert(exists|v: int| 0 <= v < t && pos@[v] as int == q);
                            }
                            assert(mp.to_set().contains(q) == mp.contains(q));
                            assert(spec_index_set(av.take(a + 1), fhs, hay@).contains(q) == (
                            spec_index_set(av.take(a as int), fhs, hay@).contains(q)
                                || mp.to_set().contains(q)));
                        }
                    }
                },
            }
        }
        a = a + 1;
    }
    proof {
        assert(av.take(av.len() as int) =~= av);
        assert(spec_all_ok(av, fhs, hay@));
    }
    let ghost hset = spec_index_set(av, fhs, hay@);
    let mut out: Vec<usize> = Vec::new();
    let mut q: usize = 0;
    proof {
        assert(to_ints(out@) =~= Seq::<int>::empty());
        assert(spec_one_based(spec_ascending_of(hset, 0, 0)) =~= Seq::<int>::empty());
    }
    while q < hn
        invariant
            q <= hn,
            hn == hay@.len(),
            marks@.len() == hn,
            hset == spec_index_set(av, fhs, hay@),
            forall|j: int| 0 <= j < hn ==> marks@[j] == hset.contains(j),
            to_ints(out@) == spec_one_based(
                spec_ascending_of(hset, 0, q as int),
            ),
        decreases hn - q,
    {
        let ghost pre = out@;
        if marks[q] {
            out.push(q + 1);
        }
        proof {
            lemma_asc_snoc(hset, 0, q as int);
            if marks@[q as int] {
                assert(to_ints(out@) =~= to_ints(pre).push((q + 1) as int));
                assert(spec_one_based(spec_ascending_of(hset, 0, q + 1)) =~= spec_one_based(
                    spec_ascending_of(hset, 0, q as int),
                ).push(q + 1));
            } else {
                assert(spec_ascending_of(hset, 0, q + 1) =~= spec_ascending_of(
                    hset,
                    0,
                    q as int,
                ));
            }
        }
        q = q + 1;
    }
    (total, out)
}

} // verus!

