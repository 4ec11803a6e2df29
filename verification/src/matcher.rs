//! The matcher: one long-lived engine instance holding its options, the
//! current compiled pattern, and a reusable scratch buffer.

use vstd::prelude::*;

use crate::engine::{run_match, spec_clip, spec_match, to_ints};
use crate::options::{spec_case_of, spec_normalize_of, spec_options_of, CaseMode, ConfigError,
    MatchOptions, NormalizeMode};
use crate::pattern::{spec_parse, Pattern, PatternView};
use crate::text::chars_of;

verus! {

/// What one `match_haystack` call hands back: a non-negative score and the
/// ascending, one-based, de-duplicated haystack positions that matched.
pub struct MatchResult {
    pub score: u32,
    pub indices: Vec<usize>,
}

/// `match_haystack` was called before any `set_pattern` call.
pub struct StateError;

impl StateError {
    /// A human-readable description.
    pub fn message(&self) -> (r: String)
        ensures
            r@ == "no pattern has been set"@,
    {
        String::from_str("no pattern has been set")
    }
}

/// The mathematical image of a [`Matcher`]: its options and the compiled
/// image of its pattern, if one has been set. The scratch buffer carries no
/// information and has no image.
pub struct MatcherView {
    pub options: MatchOptions,
    pub pattern: Option<PatternView>,
}

/// The state a matcher reaches when a pattern with text `text` is set.
pub open spec fn spec_with_pattern(m: MatcherView, text: Seq<char>) -> MatcherView {
    MatcherView { options: m.options, pattern: Some(spec_parse(text, m.options)) }
}

/// The outcome of matching `hay` in state `m`: nothing when no pattern has
/// been set, the score and indices of [`spec_match`] otherwise.
pub open spec fn spec_view_match(m: MatcherView, hay: Seq<char>) -> Option<(nat, Seq<int>)> {
    match m.pattern {
        None => None,
        Some(p) => Some(spec_match(p, hay)),
    }
}

/// A fuzzy matcher: immutable options, the current pattern (absent until the
/// first `set_pattern` call), and a scratch buffer reused by every
/// `match_haystack` call.
pub struct Matcher {
    pub options: MatchOptions,
    pub pattern: Option<Pattern>,
    pub scratch: Vec<bool>,
}

impl View for Matcher {
    type V = MatcherView;

    open spec fn view(&self) -> MatcherView {
        MatcherView {
            options: self.options,
            pattern: match self.pattern {
                None => None,
                Some(p) => Some(p@),
            },
        }
    }
}

impl Matcher {
    /// The pattern, if any, is the compilation of its own raw text under the
    /// matcher's options.
    pub open spec fn wf(&self) -> bool {
        match self@.pattern {
            None => true,
            Some(p) => p == spec_parse(p.raw, self.options),
        }
    }

    /// A matcher with the given options and no pattern yet.
    pub fn new(options: MatchOptions) -> (r: Matcher)
        ensures
            r.wf(),
            r@.options == options,
            r@.pattern is None,
    {
        Matcher { options, pattern: None, scratch: Vec::new() }
    }

    /// Compiles `text` as the matcher's pattern, in place. The first call
    /// parses afresh; later calls reparse, reusing the compiled state where
    /// the text allows it. Either way the matcher ends in the state a fresh
    /// parse of `text` reaches.
    pub fn set_pattern(&mut self, text: &str)
        requires
            old(self).wf(),
        ensures
            final(self).wf(),
            final(self)@ == spec_with_pattern(old(self)@, text@),
    {
        let opts = self.options;
        match &mut self.pattern {
            Some(p) => {
                p.reparse(text, opts);
            },
            None => {
                self.pattern = Some(Pattern::parse(text, opts));
            },
        }
    }

    /// Scores `haystack` against the current pattern.
    ///
    /// Fails exactly when no pattern has been set. With an empty pattern
    /// every haystack is accepted with the sentinel score and no indices;
    /// otherwise the result is the outcome of [`spec_match`], its score
    /// clipped to the result type. A failed match is the normal outcome with
    /// score zero and no indices. The pattern and the options are untouched.
    pub fn match_haystack(&mut self, haystack: &str) -> (r: Result<MatchResult, StateError>)
        ensures
            final(self)@ == old(self)@,
            final(self).wf() == old(self).wf(),
            (r is Err) == (old(self)@.pattern is None),
            match r {
                Err(_) => old(self)@.pattern is None,
                Ok(res) => {
                    &&& spec_view_match(old(self)@, haystack@) is Some
                    &&& res.score as nat == spec_clip(
                        spec_view_match(old(self)@, haystack@).unwrap().0,
                    )
                    &&& to_ints(res.indices@) == spec_view_match(
                        old(self)@,
                        haystack@,
                    ).unwrap().1
                },
            },
    {
        let chars = chars_of(haystack);
        match &self.pattern {
            None => Err(StateError),
            Some(p) => {
                let (score, indices) = run_match(p, &chars, &mut self.scratch);
                Ok(MatchResult { score, indices })
            },
        }
    }
}

impl Default for Matcher {
    /// A matcher with the default options and no pattern yet.
    fn default() -> (r: Self)
        ensures
            r.wf(),
            r@.options == (MatchOptions {
                case_mode: CaseMode::Smart,
                normalization: NormalizeMode::Smart,
            }),
            r@.pattern is None,
    {
        Matcher::new(MatchOptions::default())
    }
}

/// Builds a matcher from the free-form option names a host hands in.
///
/// Succeeds, with no pattern set, exactly when both names are recognized;
/// fails otherwise, creating nothing, with an error that carries the
/// offending name: the unrecognized `case_mode` first, else the
/// unrecognized `normalize_mode`.
pub fn create_matcher(case_mode: &str, normalize_mode: &str) -> (r: Result<Matcher, ConfigError>)
    ensures
        match r {
            Ok(m) => {
                &&& m.wf()
                &&& m@.pattern is None
                &&& spec_options_of(case_mode@, normalize_mode@) == Some(m@.options)
            },
            Err(e) => {
                &&& spec_options_of(case_mode@, normalize_mode@) is None
                &&& match e {
                    ConfigError::BadCaseMode { value } => {
                        &&& spec_case_of(case_mode@) is None
                        &&& value@ == case_mode@
                    },
                    ConfigError::BadNormalizeMode { value } => {
                        &&& spec_case_of(case_mode@) is Some
                        &&& spec_normalize_of(normalize_mode@) is None
                        &&& value@ == normalize_mode@
                    },
                }
            },
        },
{
    match MatchOptions::from_names(case_mode, normalize_mode) {
        Ok(o) => Ok(Matcher::new(o)),
        Err(e) => Err(e),
    }
}

} // verus!
