//! The pattern compiler.
//!
//! A raw search string is split on whitespace into atoms. A leading `!`
//! negates an atom; a leading `'` asks for a contiguous (exact) occurrence, a
//! leading `^` anchors it at the start, a trailing `$` (on a plain token)
//! anchors it at the end (on an already anchored or contiguous token it asks
//! for whole-string equality); a plain token matches as a subsequence. A
//! negated plain token is treated as a negated contiguous occurrence, the
//! customary reading of `!word`. The whole compilation is a function of the
//! raw text and the matcher options alone.

use vstd::prelude::*;
use vstd::pervasive::VecAdditionalExecFns;

use crate::fold::{fold_char, is_ascii, is_upper, is_ws, spec_fold_seq, spec_is_ascii, spec_is_upper,
    spec_is_ws};
use crate::options::{CaseMode, MatchOptions, NormalizeMode};
use crate::text::{chars_eq, chars_of};

verus! {

/// How one atom must occur in the haystack.
#[derive(Clone, Copy, PartialEq, Eq, Structural, Debug)]
pub enum AtomKind {
    /// As an ordered, not necessarily contiguous, subsequence.
    Fuzzy,
    /// As a contiguous run anywhere.
    Exact,
    /// As a contiguous run at the start.
    Prefix,
    /// As a contiguous run at the end.
    Suffix,
    /// As the whole haystack.
    Full,
}

/// One whitespace-delimited term of a pattern, with its folded text.
pub struct Atom {
    pub needle: Vec<char>,
    pub kind: AtomKind,
    pub negated: bool,
}

/// The mathematical image of an [`Atom`].
pub struct AtomView {
    pub needle: Seq<char>,
    pub kind: AtomKind,
    pub negated: bool,
}

impl View for Atom {
    type V = AtomView;

    open spec fn view(&self) -> AtomView {
        AtomView { needle: self.needle@, kind: self.kind, negated: self.negated }
    }
}

/// The views of a vector of tokens.
pub open spec fn token_views(ts: Seq<Vec<char>>) -> Seq<Seq<char>> {
    ts.map_values(|t: Vec<char>| t@)
}

/// The views of a vector of atoms.
pub open spec fn atom_views(a: Seq<Atom>) -> Seq<AtomView> {
    a.map_values(|a: Atom| a@)
}

/// Whitespace splitting, written with an accumulator for the token being
/// read: the tokens of `s` from position `i` on, given that the characters
/// of `cur` have been read just before `i` without meeting whitespace.
pub open spec fn spec_tokens_acc(s: Seq<char>, i: int, cur: Seq<char>) -> Seq<Seq<char>>
    decreases s.len() - i,
{
    if i < 0 || i >= s.len() {
        if cur.len() > 0 {
            seq![cur]
        } else {
            Seq::empty()
        }
    } else if spec_is_ws(s[i]) {
        (if cur.len() > 0 {
            seq![cur]
        } else {
            Seq::empty()
        }) + spec_tokens_acc(s, i + 1, Seq::empty())
    } else {
        spec_tokens_acc(s, i + 1, cur.push(s[i]))
    }
}

/// The whitespace-delimited tokens of `s`, in order.
pub open spec fn spec_tokens(s: Seq<char>) -> Seq<Seq<char>> {
    spec_tokens_acc(s, 0, Seq::empty())
}

/// Splits `s` into its whitespace-delimited tokens.
pub fn tokenize(s: &Vec<char>) -> (r: Vec<Vec<char>>)
    ensures
        r@.map_values(|t: Vec<char>| t@) == spec_tokens(s@),
{
    let mut toks: Vec<Vec<char>> = Vec::new();
    let mut cur: Vec<char> = Vec::new();
    let mut i: usize = 0;
    while i < s.len()
        invariant
            i <= s.len(),
            token_views(toks@) + spec_tokens_acc(s@, i as int, cur@)
                =~= spec_tokens(s@),
        decreases s.len() - i,
    {
        let ghost pre_toks = toks@;
        let ghost pre_cur = cur@;
        if is_ws(s[i]) {
            proof {
                assert(spec_tokens_acc(s@, i as int, pre_cur) == (if pre_cur.len() > 0 {
                    seq![pre_cur]
                } else {
                    Seq::<Seq<char>>::empty()
                }) + spec_tokens_acc(s@, i + 1, Seq::<char>::empty()));
            }
            if cur.len() > 0 {
                toks.push(cur);
                cur = Vec::new();
                proof {
                    assert(token_views(toks@)
                        =~= token_views(pre_toks).push(pre_cur));
                    assert(token_views(toks@) + spec_tokens_acc(
                        s@,
                        i + 1,
                        cur@,
                    ) =~= token_views(pre_toks) + spec_tokens_acc(
                        s@,
                        i as int,
                        pre_cur,
                    ));
                }
            } else {
                proof {
                    assert(cur@ =~= Seq::<char>::empty());
                    assert(Seq::<Seq<char>>::empty() + spec_tokens_acc(
                        s@,
                        i + 1,
                        Seq::<char>::empty(),
                    ) =~= spec_tokens_acc(s@, i + 1, Seq::<char>::empty()));
                }
            }
        } else {
            let c = s[i];
            cur.push(c);
            proof {
                assert(spec_tokens_acc(s@, i as int, pre_cur) == spec_tokens_acc(
                    s@,
                    i + 1,
                    pre_cur.push(s@[i as int]),
                ));
            }
        }
        i = i + 1;
    }
    let ghost end_toks = toks@;
    let ghost end_cur = cur@;
    if cur.len() > 0 {
        toks.push(cur);
        proof {
            assert(token_views(toks@)
                =~= token_views(end_toks).push(end_cur));
        }
    }
    proof {
        assert(token_views(toks@) =~= spec_tokens(s@));
    }
    toks
}

/// The atom a token compiles to under a folding policy.
pub open spec fn spec_atom_of(t: Seq<char>, sensitive: bool, norm: bool) -> AtomView {
    let negated = t.len() > 0 && t[0] == '!';
    let t1 = if negated {
        t.drop_first()
    } else {
        t
    };
    let kind0 = if t1.len() > 0 && t1[0] == '\'' {
        AtomKind::Exact
    } else if t1.len() > 0 && t1[0] == '^' {
        AtomKind::Prefix
    } else {
        AtomKind::Fuzzy
    };
    let t2 = if kind0 is Fuzzy {
        t1
    } else {
        t1.drop_first()
    };
    let anchored_end = t2.len() > 0 && t2.last() == '$';
    let t3 = if anchored_end {
        t2.drop_last()
    } else {
        t2
    };
    let kind = if anchored_end {
        if kind0 is Fuzzy {
            AtomKind::Suffix
        } else {
            AtomKind::Full
        }
    } else if negated && kind0 is Fuzzy {
        AtomKind::Exact
    } else {
        kind0
    };
    AtomView { needle: spec_fold_seq(t3, sensitive, norm), kind, negated }
}

/// Compiles one token into an atom.
pub fn atom_of(t: &Vec<char>, sensitive: bool, norm: bool) -> (r: Atom)
    ensures
        r@ == spec_atom_of(t@, sensitive, norm),
{
    let mut start: usize = 0;
    let mut end: usize = t.len();
    let negated = t.len() > 0 && t[0] == '!';
    if negated {
        start = 1;
    }
    let mut kind = AtomKind::Fuzzy;
    if end > start && t[start] == '\'' {
        kind = AtomKind::Exact;
        start = start + 1;
    } else if end > start && t[start] == '^' {
        kind = AtomKind::Prefix;
        start = start + 1;
    }
    if end > start && t[end - 1] == '$' {
        kind = if kind == AtomKind::Fuzzy {
            AtomKind::Suffix
        } else {
            AtomKind::Full
        };
        end = end - 1;
    }
    if negated && kind == AtomKind::Fuzzy {
        kind = AtomKind::Exact;
    }
    let ghost gt3 = t@.subrange(start as int, end as int);
    proof {
        let spec_r = spec_atom_of(t@, sensitive, norm);
        assert(spec_r.needle == spec_fold_seq(gt3, sensitive, norm) && spec_r.kind == kind
            && spec_r.negated == negated) by {
            let tt = t@;
            let t1 = if negated { tt.drop_first() } else { tt };
            assert(t1 =~= tt.subrange(if negated { 1int } else { 0int }, tt.len() as int));
            let kind0 = if t1.len() > 0 && t1[0] == '\'' {
                AtomKind::Exact
            } else if t1.len() > 0 && t1[0] == '^' {
                AtomKind::Prefix
            } else {
                AtomKind::Fuzzy
            };
            let t2 = if kind0 is Fuzzy { t1 } else { t1.drop_first() };
            let anchored_end = t2.len() > 0 && t2.last() == '$';
            let t3 = if anchored_end { t2.drop_last() } else { t2 };
            assert(t3 =~= gt3);
        }
    }
    let mut needle: Vec<char> = Vec::new();
    let mut i: usize = start;
    while i < end
        invariant
            start <= i <= end <= t@.len(),
            gt3 == t@.subrange(start as int, end as int),
            needle@ =~= spec_fold_seq(gt3, sensitive, norm).take(i - start),
        decreases end - i,
    {
        needle.push(fold_char(t[i], sensitive, norm));
        proof {
            assert(needle@ =~= spec_fold_seq(gt3, sensitive, norm).take(i + 1 - start));
        }
        i = i + 1;
    }
    proof {
        assert(needle@ =~= spec_fold_seq(gt3, sensitive, norm));
    }
    Atom { needle, kind, negated }
}

/// Whether `s` contains an (ASCII) uppercase character.
pub open spec fn spec_has_upper(s: Seq<char>) -> bool {
    exists|i: int| 0 <= i < s.len() && spec_is_upper(s[i])
}

/// Whether every character of `s` is ASCII.
pub open spec fn spec_all_ascii(s: Seq<char>) -> bool {
    forall|i: int| 0 <= i < s.len() ==> spec_is_ascii(s[i])
}

/// The effective case-sensitivity of a pattern with text `text`.
pub open spec fn spec_sensitive(text: Seq<char>, case: CaseMode) -> bool {
    match case {
        CaseMode::Respect => true,
        CaseMode::Ignore => false,
        CaseMode::Smart => spec_has_upper(text),
    }
}

/// The effective normalization of a pattern with text `text`.
pub open spec fn spec_normalize(text: Seq<char>, norm: NormalizeMode) -> bool {
    match norm {
        NormalizeMode::Never => false,
        NormalizeMode::Smart => spec_all_ascii(text),
    }
}

/// The compiled image of a raw pattern string under fixed options.
pub struct PatternView {
    pub raw: Seq<char>,
    pub sensitive: bool,
    pub normalize: bool,
    pub atoms: Seq<AtomView>,
}

/// Full compilation: a function of the raw text and the options alone.
pub open spec fn spec_parse(text: Seq<char>, opts: MatchOptions) -> PatternView {
    let s = spec_sensitive(text, opts.case_mode);
    let n = spec_normalize(text, opts.normalization);
    PatternView {
        raw: text,
        sensitive: s,
        normalize: n,
        atoms: spec_tokens(text).map_values(|t: Seq<char>| spec_atom_of(t, s, n)),
    }
}

/// A compiled pattern: the raw text it came from, the folding policy that
/// text selected, and the compiled atoms.
pub struct Pattern {
    pub raw: Vec<char>,
    pub sensitive: bool,
    pub normalize: bool,
    pub atoms: Vec<Atom>,
}

impl View for Pattern {
    type V = PatternView;

    open spec fn view(&self) -> PatternView {
        PatternView {
            raw: self.raw@,
            sensitive: self.sensitive,
            normalize: self.normalize,
            atoms: atom_views(self.atoms@),
        }
    }
}

/// Computes the effective folding policy of a pattern text.
pub fn scan_flags(chars: &Vec<char>, opts: MatchOptions) -> (r: (bool, bool))
    ensures
        r.0 == spec_sensitive(chars@, opts.case_mode),
        r.1 == spec_normalize(chars@, opts.normalization),
{
    let mut has_upper = false;
    let mut all_ascii = true;
    let mut i: usize = 0;
    while i < chars.len()
        invariant
            i <= chars.len(),
            has_upper == spec_has_upper(chars@.take(i as int)),
            all_ascii == spec_all_ascii(chars@.take(i as int)),
        decreases chars.len() - i,
    {
        proof {
            assert(chars@.take(i + 1).drop_last() =~= chars@.take(i as int));
        }
        if is_upper(chars[i]) {
            has_upper = true;
        }
        if !is_ascii(chars[i]) {
            all_ascii = false;
        }
        proof {
            let pre = chars@.take(i + 1);
            assert(has_upper == spec_has_upper(pre)) by {
                if has_upper {
                    if spec_is_upper(chars@[i as int]) {
                        assert(spec_is_upper(pre[i as int]));
                    } else {
                        let j = choose|j: int|
                            0 <= j < i && spec_is_upper(chars@.take(i as int)[j]);
                        assert(spec_is_upper(pre[j]));
                    }
                } else {
                    assert(forall|j: int| 0 <= j < i + 1 ==> pre[j] == chars@[j]);
                }
            }
            assert(all_ascii == spec_all_ascii(pre)) by {
                if all_ascii {
                    assert(forall|j: int|
                        0 <= j < i ==> pre[j] == #[trigger] chars@.take(i as int)[j]);
                } else {
                    if spec_is_ascii(chars@[i as int]) {
                        let j = choose|j: int|
                            0 <= j < i && !spec_is_ascii(chars@.take(i as int)[j]);
                        assert(!spec_is_ascii(pre[j]));
                    } else {
                        assert(!spec_is_ascii(pre[i as int]));
                    }
                }
            }
        }
        i = i + 1;
    }
    proof {
        assert(chars@.take(chars@.len() as int) =~= chars@);
    }
    let sensitive = match opts.case_mode {
        CaseMode::Respect => true,
        CaseMode::Ignore => false,
        CaseMode::Smart => has_upper,
    };
    let normalize = match opts.normalization {
        NormalizeMode::Never => false,
        NormalizeMode::Smart => all_ascii,
    };
    (sensitive, normalize)
}

/// A text without whitespace is its own single token.
pub proof fn lemma_tokens_single(s: Seq<char>, i: int, cur: Seq<char>)
    requires
        0 <= i <= s.len(),
        cur.len() + (s.len() - i) > 0,
        forall|j: int| i <= j < s.len() ==> !spec_is_ws(#[trigger] s[j]),
    ensures
        spec_tokens_acc(s, i, cur) == seq![cur + s.skip(i)],
    decreases s.len() - i,
{
    if i >= s.len() {
        assert(cur + s.skip(i) =~= cur);
    } else {
        lemma_tokens_single(s, i + 1, cur.push(s[i]));
        assert(cur.push(s[i]) + s.skip(i + 1) =~= cur + s.skip(i));
    }
}

impl Pattern {
    /// Compiles `chars` under `opts`.
    pub fn parse_chars(chars: Vec<char>, opts: MatchOptions) -> (r: Pattern)
        ensures
            r@ == spec_parse(chars@, opts),
    {
        let (sensitive, normalize) = scan_flags(&chars, opts);
        let toks = tokenize(&chars);
        let mut atoms: Vec<Atom> = Vec::new();
        let mut k: usize = 0;
        while k < toks.len()
            invariant
                k <= toks.len(),
                sensitive == spec_sensitive(chars@, opts.case_mode),
                normalize == spec_normalize(chars@, opts.normalization),
                token_views(toks@) == spec_tokens(chars@),
                atom_views(atoms@) =~= spec_tokens(chars@).map_values(
                    |t: Seq<char>| spec_atom_of(t, sensitive, normalize),
                ).take(k as int),
            decreases toks.len() - k,
        {
            let a = atom_of(&toks[k], sensitive, normalize);
            let ghost pre_atoms = atoms@;
            atoms.push(a);
            proof {
                let sm = spec_tokens(chars@).map_values(
                    |t: Seq<char>| spec_atom_of(t, sensitive, normalize),
                );
                assert(token_views(toks@)[k as int] == toks@[k as int]@);
                assert(sm[k as int] == a@);
                assert(atom_views(atoms@)
                    =~= atom_views(pre_atoms).push(a@));
                assert(atom_views(atoms@) =~= sm.take(k + 1));
            }
            k = k + 1;
        }
        proof {
            assert(atom_views(atoms@) =~= spec_tokens(chars@).map_values(
                |t: Seq<char>| spec_atom_of(t, sensitive, normalize),
            ));
        }
        Pattern { raw: chars, sensitive, normalize, atoms }
    }

    /// Compiles `text` under `opts`.
    pub fn parse(text: &str, opts: MatchOptions) -> (r: Pattern)
        ensures
            r@ == spec_parse(text@, opts),
    {
        Pattern::parse_chars(chars_of(text), opts)
    }

    /// Recompiles this pattern for `text`, reusing the compiled state where
    /// the edit allows it: an unchanged text keeps everything, and an edit
    /// within a single-term pattern keeps the token split and the atom
    /// storage, recompiling the one atom in place. The outcome is always the
    /// same as a fresh parse.
    pub fn reparse(&mut self, text: &str, opts: MatchOptions)
        requires
            old(self)@ == spec_parse(old(self)@.raw, opts),
        ensures
            final(self)@ == spec_parse(text@, opts),
    {
        let chars = chars_of(text);
        if chars_eq(&chars, &self.raw) {
            return ;
        }
        if self.atoms.len() == 1 && chars.len() > 0 {
            let mut single = true;
            let mut i: usize = 0;
            while i < chars.len()
                invariant
                    i <= chars.len(),
                    single == (forall|j: int|
                        0 <= j < i ==> !spec_is_ws(#[trigger] chars@[j])),
                decreases chars.len() - i,
            {
                if is_ws(chars[i]) {
                    single = false;
                }
                i = i + 1;
            }
            if single {
                let (sensitive, normalize) = scan_flags(&chars, opts);
                let a = atom_of(&chars, sensitive, normalize);
                self.atoms.set(0, a);
                self.raw = chars;
                self.sensitive = sensitive;
                self.normalize = normalize;
                proof {
                    lemma_tokens_single(self.raw@, 0, Seq::<char>::empty());
                    assert(Seq::<char>::empty() + self.raw@.skip(0) =~= self.raw@);
                    assert(spec_tokens(self.raw@) =~= seq![self.raw@]);
                    assert(atom_views(self.atoms@) =~= spec_tokens(self.raw@).map_values(
                        |t: Seq<char>| spec_atom_of(t, sensitive, normalize),
                    ));
                }
                return ;
            }
        }
        *self = Pattern::parse_chars(chars, opts);
    }
}

} // verus!
