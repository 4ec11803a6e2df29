//! Matcher configuration: case and normalization policy, and the validation
//! of the free-form option names a host hands in.

use vstd::prelude::*;

use crate::text::str_eq;

verus! {

/// Case-sensitivity policy of a matcher.
#[derive(Clone, Copy, PartialEq, Eq, Structural, Debug)]
pub enum CaseMode {
    /// Case-insensitive unless the pattern contains an uppercase character.
    Smart,
    /// Always case-insensitive.
    Ignore,
    /// Always case-sensitive.
    Respect,
}

/// Diacritic-normalization policy of a matcher.
#[derive(Clone, Copy, PartialEq, Eq, Structural, Debug)]
pub enum NormalizeMode {
    /// Fold diacritics unless the pattern itself contains a non-ASCII character.
    Smart,
    /// Never fold.
    Never,
}

/// Immutable per-matcher configuration.
#[derive(Clone, Copy, PartialEq, Eq, Structural, Debug)]
pub struct MatchOptions {
    pub case_mode: CaseMode,
    pub normalization: NormalizeMode,
}

impl Default for MatchOptions {
    /// Smart case and smart normalization.
    fn default() -> (r: Self)
        ensures
            r == (MatchOptions { case_mode: CaseMode::Smart, normalization: NormalizeMode::Smart }),
    {
        MatchOptions { case_mode: CaseMode::Smart, normalization: NormalizeMode::Smart }
    }
}

/// An options record named an unrecognized `case_mode` or `normalize_mode`
/// value; the offending value is carried along.
pub enum ConfigError {
    BadCaseMode { value: String },
    BadNormalizeMode { value: String },
}

impl ConfigError {
    /// A human-readable description naming the offending value.
    pub fn message(&self) -> (r: String)
        ensures
            (self is BadCaseMode ==> r@ == self->BadCaseMode_value@ + " is not a valid `case_mode` option"@),
            (self is BadNormalizeMode ==> r@ == self->BadNormalizeMode_value@
                + " is not a valid `normalize_mode` option"@),
    {
        match self {
            ConfigError::BadCaseMode { value } => {
                let mut m = value.clone();
                m.append(" is not a valid `case_mode` option");
                m
            },
            ConfigError::BadNormalizeMode { value } => {
                let mut m = value.clone();
                m.append(" is not a valid `normalize_mode` option");
                m
            },
        }
    }
}

/// The case mode a name selects, if it is recognized.
pub open spec fn spec_case_of(s: Seq<char>) -> Option<CaseMode> {
    if s == "smart"@ {
        Some(CaseMode::Smart)
    } else if s == "ignore"@ {
        Some(CaseMode::Ignore)
    } else if s == "respect"@ {
        Some(CaseMode::Respect)
    } else {
        None
    }
}

/// The normalization mode a name selects, if it is recognized.
pub open spec fn spec_normalize_of(s: Seq<char>) -> Option<NormalizeMode> {
    if s == "smart"@ {
        Some(NormalizeMode::Smart)
    } else if s == "never"@ {
        Some(NormalizeMode::Never)
    } else {
        None
    }
}

/// The configuration a pair of option names selects, if both are recognized.
pub open spec fn spec_options_of(case: Seq<char>, norm: Seq<char>) -> Option<MatchOptions> {
    match spec_case_of(case) {
        None => None,
        Some(c) => match spec_normalize_of(norm) {
            None => None,
            Some(n) => Some(MatchOptions { case_mode: c, normalization: n }),
        },
    }
}

impl MatchOptions {
    /// Validates a pair of option names into a configuration.
    ///
    /// Succeeds exactly when `case_mode` is one of `smart`, `ignore`,
    /// `respect` and `normalize_mode` one of `smart`, `never`; an
    /// unrecognized `case_mode` is reported first.
    pub fn from_names(case_mode: &str, normalize_mode: &str) -> (r: Result<MatchOptions, ConfigError>)
        ensures
            match r {
                Ok(o) => {
                    &&& spec_case_of(case_mode@) == Some(o.case_mode)
                    &&& spec_normalize_of(normalize_mode@) == Some(o.normalization)
                },
                Err(e) => match e {
                    ConfigError::BadCaseMode { value } => {
                        &&& spec_case_of(case_mode@) is None
                        &&& value@ == case_mode@
                    },
                    ConfigError::BadNormalizeMode { value } => {
                        &&& spec_case_of(case_mode@) is Some
                        &&& spec_normalize_of(normalize_mode@) is None
                        &&& value@ == normalize_mode@
                    },
                },
            },
    {
        let case = if str_eq(case_mode, "smart") {
            CaseMode::Smart
        } else if str_eq(case_mode, "ignore") {
            CaseMode::Ignore
        } else if str_eq(case_mode, "respect") {
            CaseMode::Respect
        } else {
            return Err(ConfigError::BadCaseMode { value: String::from_str(case_mode) });
        };
        let normalization = if str_eq(normalize_mode, "smart") {
            NormalizeMode::Smart
        } else if str_eq(normalize_mode, "never") {
            NormalizeMode::Never
        } else {
            return Err(ConfigError::BadNormalizeMode { value: String::from_str(normalize_mode) });
        };
        Ok(MatchOptions { case_mode: case, normalization })
    }
}

} // verus!
