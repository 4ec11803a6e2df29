//! Character classification and folding.
//!
//! Comparison of pattern and haystack characters goes through a fold that
//! optionally lowercases (over ASCII and the Latin-1 letters) and optionally
//! strips the diacritics of the common Latin-1 letters. Both steps are plain
//! total functions of the character, stated as spec functions and mirrored
//! by executable twins.

use vstd::prelude::*;

verus! {

/// Whitespace for the purpose of splitting a pattern into atoms.
pub open spec fn spec_is_ws(c: char) -> bool {
    c == ' ' || c == '\t' || c == '\n' || c == '\r'
}

pub fn is_ws(c: char) -> (r: bool)
    ensures
        r == spec_is_ws(c),
{
    c == ' ' || c == '\t' || c == '\n' || c == '\r'
}

/// Uppercase letter, over ASCII and the Latin-1 letters (drives the Smart
/// case heuristic and the camel-case boundary).
pub open spec fn spec_is_upper(c: char) -> bool {
    65 <= c as u32 <= 90 || (0xc0 <= c as u32 <= 0xde && c as u32 != 0xd7)
}

pub fn is_upper(c: char) -> (r: bool)
    ensures
        r == spec_is_upper(c),
{
    let u = c as u32;
    (65 <= u && u <= 90) || (0xc0 <= u && u <= 0xde && u != 0xd7)
}

/// Lowercase letter, over ASCII and the Latin-1 letters (drives the
/// camel-case boundary bonus).
pub open spec fn spec_is_lower(c: char) -> bool {
    97 <= c as u32 <= 122 || (0xdf <= c as u32 <= 0xff && c as u32 != 0xf7)
}

pub fn is_lower(c: char) -> (r: bool)
    ensures
        r == spec_is_lower(c),
{
    let u = c as u32;
    (97 <= u && u <= 122) || (0xdf <= u && u <= 0xff && u != 0xf7)
}

pub open spec fn spec_is_ascii(c: char) -> bool {
    c as u32 <= 127
}

pub fn is_ascii(c: char) -> (r: bool)
    ensures
        r == spec_is_ascii(c),
{
    c as u32 <= 127
}

/// Word separators for the purpose of the boundary bonus.
pub open spec fn spec_is_separator(c: char) -> bool {
    c == ' ' || c == '\t' || c == '/' || c == '\\' || c == '.' || c == '-' || c == '_' || c == ':'
        || c == ','
}

pub fn is_separator(c: char) -> (r: bool)
    ensures
        r == spec_is_separator(c),
{
    c == ' ' || c == '\t' || c == '/' || c == '\\' || c == '.' || c == '-' || c == '_' || c == ':'
        || c == ','
}

/// Diacritic folding over the Latin-1 letters: each accented letter goes to
/// its base letter, keeping its case; every other character is unchanged.
pub open spec fn spec_norm_char(c: char) -> char {
    let u = c as u32;
    if 0xc0 <= u <= 0xc5 {
        'A'
    } else if u == 0xc7 {
        'C'
    } else if 0xc8 <= u <= 0xcb {
        'E'
    } else if 0xcc <= u <= 0xcf {
        'I'
    } else if u == 0xd1 {
        'N'
    } else if 0xd2 <= u <= 0xd6 || u == 0xd8 {
        'O'
    } else if 0xd9 <= u <= 0xdc {
        'U'
    } else if u == 0xdd {
        'Y'
    } else if 0xe0 <= u <= 0xe5 {
        'a'
    } else if u == 0xe7 {
        'c'
    } else if 0xe8 <= u <= 0xeb {
        'e'
    } else if 0xec <= u <= 0xef {
        'i'
    } else if u == 0xf1 {
        'n'
    } else if 0xf2 <= u <= 0xf6 || u == 0xf8 {
        'o'
    } else if 0xf9 <= u <= 0xfc {
        'u'
    } else if u == 0xfd || u == 0xff {
        'y'
    } else {
        c
    }
}

pub fn norm_char(c: char) -> (r: char)
    ensures
        r == spec_norm_char(c),
{
    let u = c as u32;
    if 0xc0 <= u && u <= 0xc5 {
        'A'
    } else if u == 0xc7 {
        'C'
    } else if 0xc8 <= u && u <= 0xcb {
        'E'
    } else if 0xcc <= u && u <= 0xcf {
        'I'
    } else if u == 0xd1 {
        'N'
    } else if (0xd2 <= u && u <= 0xd6) || u == 0xd8 {
        'O'
    } else if 0xd9 <= u && u <= 0xdc {
        'U'
    } else if u == 0xdd {
        'Y'
    } else if 0xe0 <= u && u <= 0xe5 {
        'a'
    } else if u == 0xe7 {
        'c'
    } else if 0xe8 <= u && u <= 0xeb {
        'e'
    } else if 0xec <= u && u <= 0xef {
        'i'
    } else if u == 0xf1 {
        'n'
    } else if (0xf2 <= u && u <= 0xf6) || u == 0xf8 {
        'o'
    } else if 0xf9 <= u && u <= 0xfc {
        'u'
    } else if u == 0xfd || u == 0xff {
        'y'
    } else {
        c
    }
}

/// Lowercasing over ASCII and the Latin-1 letters; every other character is
/// unchanged.
pub open spec fn spec_lower_char(c: char) -> char {
    if c == 'A' {
        'a'
    } else if c == 'B' {
        'b'
    } else if c == 'C' {
        'c'
    } else if c == 'D' {
        'd'
    } else if c == 'E' {
        'e'
    } else if c == 'F' {
        'f'
    } else if c == 'G' {
        'g'
    } else if c == 'H' {
        'h'
    } else if c == 'I' {
        'i'
    } else if c == 'J' {
        'j'
    } else if c == 'K' {
        'k'
    } else if c == 'L' {
        'l'
    } else if c == 'M' {
        'm'
    } else if c == 'N' {
        'n'
    } else if c == 'O' {
        'o'
    } else if c == 'P' {
        'p'
    } else if c == 'Q' {
        'q'
    } else if c == 'R' {
        'r'
    } else if c == 'S' {
        's'
    } else if c == 'T' {
        't'
    } else if c == 'U' {
        'u'
    } else if c == 'V' {
        'v'
    } else if c == 'W' {
        'w'
    } else if c == 'X' {
        'x'
    } else if c == 'Y' {
        'y'
    } else if c == 'Z' {
        'z'
    } else if c == '\u{c0}' {
        '\u{e0}'
    } else if c == '\u{c1}' {
        '\u{e1}'
    } else if c == '\u{c2}' {
        '\u{e2}'
    } else if c == '\u{c3}' {
        '\u{e3}'
    } else if c == '\u{c4}' {
        '\u{e4}'
    } else if c == '\u{c5}' {
        '\u{e5}'
    } else if c == '\u{c6}' {
        '\u{e6}'
    } else if c == '\u{c7}' {
        '\u{e7}'
    } else if c == '\u{c8}' {
        '\u{e8}'
    } else if c == '\u{c9}' {
        '\u{e9}'
    } else if c == '\u{ca}' {
        '\u{ea}'
    } else if c == '\u{cb}' {
        '\u{eb}'
    } else if c == '\u{cc}' {
        '\u{ec}'
    } else if c == '\u{cd}' {
        '\u{ed}'
    } else if c == '\u{ce}' {
        '\u{ee}'
    } else if c == '\u{cf}' {
        '\u{ef}'
    } else if c == '\u{d0}' {
        '\u{f0}'
    } else if c == '\u{d1}' {
        '\u{f1}'
    } else if c == '\u{d2}' {
        '\u{f2}'
    } else if c == '\u{d3}' {
        '\u{f3}'
    } else if c == '\u{d4}' {
        '\u{f4}'
    } else if c == '\u{d5}' {
        '\u{f5}'
    } else if c == '\u{d6}' {
        '\u{f6}'
    } else if c == '\u{d8}' {
        '\u{f8}'
    } else if c == '\u{d9}' {
        '\u{f9}'
    } else if c == '\u{da}' {
        '\u{fa}'
    } else if c == '\u{db}' {
        '\u{fb}'
    } else if c == '\u{dc}' {
        '\u{fc}'
    } else if c == '\u{dd}' {
        '\u{fd}'
    } else if c == '\u{de}' {
        '\u{fe}'
    } else {
        c
    }
}

pub fn lower_char(c: char) -> (r: char)
    ensures
        r == spec_lower_char(c),
{
    if c == 'A' {
        'a'
    } else if c == 'B' {
        'b'
    } else if c == 'C' {
        'c'
    } else if c == 'D' {
        'd'
    } else if c == 'E' {
        'e'
    } else if c == 'F' {
        'f'
    } else if c == 'G' {
        'g'
    } else if c == 'H' {
        'h'
    } else if c == 'I' {
        'i'
    } else if c == 'J' {
        'j'
    } else if c == 'K' {
        'k'
    } else if c == 'L' {
        'l'
    } else if c == 'M' {
        'm'
    } else if c == 'N' {
        'n'
    } else if c == 'O' {
        'o'
    } else if c == 'P' {
        'p'
    } else if c == 'Q' {
        'q'
    } else if c == 'R' {
        'r'
    } else if c == 'S' {
        's'
    } else if c == 'T' {
        't'
    } else if c == 'U' {
        'u'
    } else if c == 'V' {
        'v'
    } else if c == 'W' {
        'w'
    } else if c == 'X' {
        'x'
    } else if c == 'Y' {
        'y'
    } else if c == 'Z' {
        'z'
    } else if c == '\u{c0}' {
        '\u{e0}'
    } else if c == '\u{c1}' {
        '\u{e1}'
    } else if c == '\u{c2}' {
        '\u{e2}'
    } else if c == '\u{c3}' {
        '\u{e3}'
    } else if c == '\u{c4}' {
        '\u{e4}'
    } else if c == '\u{c5}' {
        '\u{e5}'
    } else if c == '\u{c6}' {
        '\u{e6}'
    } else if c == '\u{c7}' {
        '\u{e7}'
    } else if c == '\u{c8}' {
        '\u{e8}'
    } else if c == '\u{c9}' {
        '\u{e9}'
    } else if c == '\u{ca}' {
        '\u{ea}'
    } else if c == '\u{cb}' {
        '\u{eb}'
    } else if c == '\u{cc}' {
        '\u{ec}'
    } else if c == '\u{cd}' {
        '\u{ed}'
    } else if c == '\u{ce}' {
        '\u{ee}'
    } else if c == '\u{cf}' {
        '\u{ef}'
    } else if c == '\u{d0}' {
        '\u{f0}'
    } else if c == '\u{d1}' {
        '\u{f1}'
    } else if c == '\u{d2}' {
        '\u{f2}'
    } else if c == '\u{d3}' {
        '\u{f3}'
    } else if c == '\u{d4}' {
        '\u{f4}'
    } else if c == '\u{d5}' {
        '\u{f5}'
    } else if c == '\u{d6}' {
        '\u{f6}'
    } else if c == '\u{d8}' {
        '\u{f8}'
    } else if c == '\u{d9}' {
        '\u{f9}'
    } else if c == '\u{da}' {
        '\u{fa}'
    } else if c == '\u{db}' {
        '\u{fb}'
    } else if c == '\u{dc}' {
        '\u{fc}'
    } else if c == '\u{dd}' {
        '\u{fd}'
    } else if c == '\u{de}' {
        '\u{fe}'
    } else {
        c
    }
}

/// The full fold: diacritic folding when `norm`, then lowercasing when
/// `!sensitive`.
pub open spec fn spec_fold_char(c: char, sensitive: bool, norm: bool) -> char {
    let c1 = if norm {
        spec_norm_char(c)
    } else {
        c
    };
    if sensitive {
        c1
    } else {
        spec_lower_char(c1)
    }
}

pub fn fold_char(c: char, sensitive: bool, norm: bool) -> (r: char)
    ensures
        r == spec_fold_char(c, sensitive, norm),
{
    let c1 = if norm {
        norm_char(c)
    } else {
        c
    };
    if sensitive {
        c1
    } else {
        lower_char(c1)
    }
}

/// A whole sequence, folded character by character.
pub open spec fn spec_fold_seq(s: Seq<char>, sensitive: bool, norm: bool) -> Seq<char> {
    s.map_values(|c: char| spec_fold_char(c, sensitive, norm))
}

/// Folds every character of `v` under the given policy.
pub fn fold_vec(v: &Vec<char>, sensitive: bool, norm: bool) -> (r: Vec<char>)
    ensures
        r@ == spec_fold_seq(v@, sensitive, norm),
{
    let mut r: Vec<char> = Vec::new();
    let mut i: usize = 0;
    while i < v.len()
        invariant
            i <= v.len(),
            r@ == spec_fold_seq(v@, sensitive, norm).take(i as int),
        decreases v.len() - i,
    {
        r.push(fold_char(v[i], sensitive, norm));
        proof {
            assert(r@ =~= spec_fold_seq(v@, sensitive, norm).take(i + 1));
        }
        i = i + 1;
    }
    proof {
        assert(r@ =~= spec_fold_seq(v@, sensitive, norm));
    }
    r
}

} // verus!
