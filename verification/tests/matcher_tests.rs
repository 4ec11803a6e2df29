use nucleo_nvim::matcher::{create_matcher, Matcher};
use nucleo_nvim::options::{CaseMode, ConfigError, MatchOptions, NormalizeMode};

fn matcher(case: &str, norm: &str) -> Matcher {
    create_matcher(case, norm).ok().unwrap()
}

fn score_and_indices(m: &mut Matcher, hay: &str) -> (u32, Vec<usize>) {
    let r = m.match_haystack(hay).ok().unwrap();
    (r.score, r.indices)
}

#[test]
fn create_rejects_bad_case_mode() {
    match create_matcher("bogus", "smart") {
        Err(ConfigError::BadCaseMode { value }) => {
            assert_eq!(value, "bogus");
        }
        _ => panic!("expected a case-mode error"),
    }
}

#[test]
fn create_rejects_bad_normalize_mode() {
    match create_matcher("smart", "sometimes") {
        Err(ConfigError::BadNormalizeMode { value }) => {
            assert_eq!(value, "sometimes");
        }
        _ => panic!("expected a normalize-mode error"),
    }
}

#[test]
fn config_error_names_the_value() {
    let e = create_matcher("loud", "smart").err().unwrap();
    assert_eq!(e.message(), "loud is not a valid `case_mode` option");
    let e = create_matcher("smart", "loud").err().unwrap();
    assert_eq!(e.message(), "loud is not a valid `normalize_mode` option");
}

#[test]
fn create_accepts_all_valid_names() {
    for case in ["smart", "ignore", "respect"] {
        for norm in ["smart", "never"] {
            assert!(create_matcher(case, norm).is_ok());
        }
    }
}

#[test]
fn options_from_names_maps_values() {
    let o = MatchOptions::from_names("respect", "never").ok().unwrap();
    assert!(o.case_mode == CaseMode::Respect);
    assert!(o.normalization == NormalizeMode::Never);
}

#[test]
fn default_options_are_smart() {
    let o = MatchOptions::default();
    assert!(o.case_mode == CaseMode::Smart);
    assert!(o.normalization == NormalizeMode::Smart);
}

#[test]
fn match_before_set_pattern_is_an_error() {
    let mut m = matcher("smart", "smart");
    let r = m.match_haystack("anything");
    assert!(r.is_err());
    assert_eq!(r.err().unwrap().message(), "no pattern has been set");
    // the matcher stays usable
    m.set_pattern("a");
    assert!(m.match_haystack("abc").is_ok());
}

#[test]
fn empty_pattern_accepts_everything() {
    let mut m = matcher("smart", "smart");
    m.set_pattern("");
    for hay in ["", "a", "some long candidate", "xyz"] {
        let (score, indices) = score_and_indices(&mut m, hay);
        assert_eq!(score, 1);
        assert!(indices.is_empty());
    }
}

#[test]
fn whitespace_pattern_accepts_everything() {
    let mut m = matcher("smart", "smart");
    m.set_pattern("  \t ");
    let (score, indices) = score_and_indices(&mut m, "candidate");
    assert_eq!(score, 1);
    assert!(indices.is_empty());
}

#[test]
fn fuzzy_match_reports_positions_one_based() {
    let mut m = matcher("smart", "smart");
    m.set_pattern("abc");
    let (score, indices) = score_and_indices(&mut m, "xabxcx");
    assert!(score > 0);
    assert_eq!(indices, vec![2, 3, 5]);
}

#[test]
fn fuzzy_match_exact_score() {
    let mut m = matcher("smart", "smart");
    m.set_pattern("abc");
    // positions 1, 2, 4 (zero-based): one adjacent pair, no boundary, not full
    let (score, _) = score_and_indices(&mut m, "xabxcx");
    assert_eq!(score, 3 * 4 + 8);
}

#[test]
fn full_equality_gets_the_top_bonus() {
    let mut m = matcher("smart", "smart");
    m.set_pattern("abc");
    // all three characters, two adjacent pairs, boundary at the start, full cover
    let (score, indices) = score_and_indices(&mut m, "abc");
    assert_eq!(score, 3 * 4 + 2 * 8 + 4 + 32);
    assert_eq!(indices, vec![1, 2, 3]);
}

#[test]
fn failed_match_is_a_normal_zero_result() {
    let mut m = matcher("smart", "smart");
    m.set_pattern("abc");
    let (score, indices) = score_and_indices(&mut m, "xyz");
    assert_eq!(score, 0);
    assert!(indices.is_empty());
}

#[test]
fn respect_case_rejects_mismatch() {
    let mut m = matcher("respect", "smart");
    m.set_pattern("Abc");
    let (score, indices) = score_and_indices(&mut m, "abc");
    assert_eq!(score, 0);
    assert!(indices.is_empty());
}

#[test]
fn ignore_case_accepts_mismatch() {
    let mut m = matcher("ignore", "smart");
    m.set_pattern("Abc");
    let (score, indices) = score_and_indices(&mut m, "abc");
    assert!(score > 0);
    assert_eq!(indices, vec![1, 2, 3]);
}

#[test]
fn smart_case_is_sensitive_only_with_uppercase() {
    let mut m = matcher("smart", "smart");
    m.set_pattern("abc");
    let (score, _) = score_and_indices(&mut m, "ABC");
    assert!(score > 0);
    m.set_pattern("Abc");
    let (score, _) = score_and_indices(&mut m, "abc");
    assert_eq!(score, 0);
}

#[test]
fn smart_normalization_folds_diacritics() {
    let mut m = matcher("smart", "smart");
    m.set_pattern("cafe");
    let (score, indices) = score_and_indices(&mut m, "caf\u{e9}");
    assert!(score > 0);
    assert_eq!(indices, vec![1, 2, 3, 4]);
}

#[test]
fn never_normalization_keeps_diacritics() {
    let mut m = matcher("smart", "never");
    m.set_pattern("cafe");
    let (score, indices) = score_and_indices(&mut m, "caf\u{e9}");
    assert_eq!(score, 0);
    assert!(indices.is_empty());
}

#[test]
fn set_pattern_is_idempotent() {
    let mut m = matcher("smart", "smart");
    m.set_pattern("ab cd");
    let once = score_and_indices(&mut m, "xaxbxcxdx");
    m.set_pattern("ab cd");
    m.set_pattern("ab cd");
    let twice = score_and_indices(&mut m, "xaxbxcxdx");
    assert_eq!(once, twice);
}

#[test]
fn reparse_equals_fresh_parse() {
    let mut incremental = matcher("smart", "smart");
    incremental.set_pattern("ab");
    let _ = score_and_indices(&mut incremental, "cabbage");
    incremental.set_pattern("abc");
    let mut fresh = matcher("smart", "smart");
    fresh.set_pattern("abc");
    for hay in ["cabbage", "abc", "xaxbxcx", "zzz", ""] {
        assert_eq!(
            score_and_indices(&mut incremental, hay),
            score_and_indices(&mut fresh, hay)
        );
    }
}

#[test]
fn contiguous_beats_scattered() {
    let mut m = matcher("smart", "smart");
    m.set_pattern("ab");
    let (contiguous, _) = score_and_indices(&mut m, "abx");
    let (scattered, _) = score_and_indices(&mut m, "axb");
    assert!(contiguous > scattered);
}

#[test]
fn boundary_alignment_scores_higher() {
    let mut m = matcher("smart", "smart");
    m.set_pattern("b");
    let (at_boundary, _) = score_and_indices(&mut m, "a_bc");
    let mut m2 = matcher("smart", "smart");
    m2.set_pattern("b");
    let (inside, _) = score_and_indices(&mut m2, "axbc");
    assert!(at_boundary > inside);
}

#[test]
fn exact_atom_needs_contiguous_run() {
    let mut m = matcher("smart", "smart");
    m.set_pattern("'bc");
    let (score, indices) = score_and_indices(&mut m, "abcd");
    assert!(score > 0);
    assert_eq!(indices, vec![2, 3]);
    let (score, indices) = score_and_indices(&mut m, "bxc");
    assert_eq!(score, 0);
    assert!(indices.is_empty());
}

#[test]
fn prefix_atom_anchors_at_start() {
    let mut m = matcher("smart", "smart");
    m.set_pattern("^ab");
    let (score, indices) = score_and_indices(&mut m, "abc");
    assert!(score > 0);
    assert_eq!(indices, vec![1, 2]);
    let (score, _) = score_and_indices(&mut m, "xab");
    assert_eq!(score, 0);
}

#[test]
fn suffix_atom_anchors_at_end() {
    let mut m = matcher("smart", "smart");
    m.set_pattern("bc$");
    let (score, indices) = score_and_indices(&mut m, "abc");
    assert!(score > 0);
    assert_eq!(indices, vec![2, 3]);
    let (score, _) = score_and_indices(&mut m, "bca");
    assert_eq!(score, 0);
}

#[test]
fn negated_atom_inverts_the_condition() {
    let mut m = matcher("smart", "smart");
    m.set_pattern("!x");
    let (score, indices) = score_and_indices(&mut m, "abc");
    assert_eq!(score, 0);
    assert!(indices.is_empty());
    let (score, indices) = score_and_indices(&mut m, "axc");
    assert_eq!(score, 0);
    assert!(indices.is_empty());
}

#[test]
fn negated_atom_fails_where_it_should_not_hold() {
    let mut m = matcher("smart", "smart");
    m.set_pattern("a !b");
    // "b" occurs: the negation is violated, the whole match fails
    let (score, indices) = score_and_indices(&mut m, "ab");
    assert_eq!(score, 0);
    assert!(indices.is_empty());
    // "b" absent: the fuzzy atom alone contributes score and indices
    let (score, indices) = score_and_indices(&mut m, "ac");
    assert!(score > 0);
    assert_eq!(indices, vec![1]);
}

#[test]
fn multiple_atoms_are_conjunctive() {
    let mut m = matcher("smart", "smart");
    m.set_pattern("ab xy");
    let (score, indices) = score_and_indices(&mut m, "xyab");
    assert!(score > 0);
    assert_eq!(indices, vec![1, 2, 3, 4]);
    let (score, _) = score_and_indices(&mut m, "abx");
    assert_eq!(score, 0);
}

#[test]
fn overlapping_atoms_deduplicate_indices() {
    let mut m = matcher("smart", "smart");
    m.set_pattern("ab ab");
    let (score, indices) = score_and_indices(&mut m, "ab");
    assert!(score > 0);
    assert_eq!(indices, vec![1, 2]);
}

#[test]
fn match_does_not_disturb_the_pattern() {
    let mut m = matcher("smart", "smart");
    m.set_pattern("ab");
    let first = score_and_indices(&mut m, "cab");
    let _ = score_and_indices(&mut m, "zzzzz");
    let again = score_and_indices(&mut m, "cab");
    assert_eq!(first, again);
}

#[test]
fn default_matcher_has_no_pattern() {
    let mut m = Matcher::default();
    assert!(m.match_haystack("abc").is_err());
}

#[test]
fn camel_case_transition_is_a_boundary() {
    let mut m = matcher("smart", "smart");
    m.set_pattern("B");
    // 'B' after a lowercase letter: base score plus the boundary reward
    let (score, indices) = score_and_indices(&mut m, "fooBar");
    assert_eq!(score, 4 + 4);
    assert_eq!(indices, vec![4]);
}

#[test]
fn normalization_keeps_the_case_of_the_base_letter() {
    let mut m = matcher("respect", "smart");
    m.set_pattern("Arbol");
    let (score, indices) = score_and_indices(&mut m, "\u{c1}rbol");
    assert!(score > 0);
    assert_eq!(indices, vec![1, 2, 3, 4, 5]);
    // the accented capital does not fold to a lowercase base
    let mut m2 = matcher("respect", "smart");
    m2.set_pattern("arbol");
    let (score, _) = score_and_indices(&mut m2, "\u{c1}rbol");
    assert_eq!(score, 0);
}

#[test]
fn fuzzy_atom_prefers_the_best_scoring_placement() {
    let mut m = matcher("smart", "smart");
    m.set_pattern("ab");
    // the contiguous run later in the haystack beats the earlier scattered one
    let (score, indices) = score_and_indices(&mut m, "axab");
    assert_eq!(indices, vec![3, 4]);
    assert_eq!(score, 2 * 4 + 8);
}

#[test]
fn exact_atom_prefers_a_run_at_a_boundary() {
    let mut m = matcher("smart", "smart");
    m.set_pattern("'ab");
    // both positions hold "ab"; the one after the separator scores higher
    let (score, indices) = score_and_indices(&mut m, "xab_ab");
    assert_eq!(indices, vec![5, 6]);
    assert_eq!(score, 2 * 4 + 8 + 4);
}

#[test]
fn doubly_anchored_atom_means_whole_string() {
    let mut m = matcher("smart", "smart");
    m.set_pattern("^ab$");
    let (score, indices) = score_and_indices(&mut m, "ab");
    assert!(score > 0);
    assert_eq!(indices, vec![1, 2]);
    let (score, _) = score_and_indices(&mut m, "abc");
    assert_eq!(score, 0);
    let (score, _) = score_and_indices(&mut m, "xab");
    assert_eq!(score, 0);
}

#[test]
fn latin1_uppercase_triggers_smart_case_and_folds() {
    // an accented capital in the pattern makes Smart case sensitive
    let mut m = matcher("smart", "never");
    m.set_pattern("\u{c9}x");
    let (score, _) = score_and_indices(&mut m, "\u{e9}x");
    assert_eq!(score, 0);
    // with a lowercase pattern the accented capital in the haystack folds
    let mut m2 = matcher("smart", "never");
    m2.set_pattern("\u{e9}x");
    let (score, indices) = score_and_indices(&mut m2, "\u{c9}x");
    assert!(score > 0);
    assert_eq!(indices, vec![1, 2]);
}
