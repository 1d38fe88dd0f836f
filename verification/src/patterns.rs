//! Exclusion patterns: globs, and regular expressions marked by the prefix
//! `regex:`.
use vstd::prelude::*;
use vstd::string::*;
use crate::text::{chars_of, has_prefix, starts_with, string_of};
use globset::GlobMatcher;
use regex::Regex;

verus! {

/// Most characters a glob may have. A longer text is no pattern.
pub const MAX_GLOB_LENGTH: usize = 4096;

/// Most opening braces a glob may have. A text with more is no pattern.
pub const MAX_GLOB_BRACES: usize = 64;

/// Number of opening braces of a text.
pub open spec fn open_braces(s: Seq<char>) -> nat
    decreases s.len(),
{
    if s.len() == 0 {
        0
    } else {
        open_braces(s.drop_last()) + if s.last() == '{' { 1nat } else { 0nat }
    }
}

/// Whether a text is within the size that a glob may have.
pub open spec fn glob_sized(s: Seq<char>) -> bool {
    s.len() <= MAX_GLOB_LENGTH && open_braces(s) <= MAX_GLOB_BRACES
}

fn count_open_braces(chars: &Vec<char>) -> (n: usize)
    ensures
        n == open_braces(chars@),
{
    let mut n: usize = 0;
    let mut i: usize = 0;
    while i < chars.len()
        invariant
            i <= chars.len(),
            n <= i,
            n == open_braces(chars@.take(i as int)),
        decreases chars.len() - i,
    {
        proof {
            assert(chars@.take(i + 1).drop_last() == chars@.take(i as int));
            assert(chars@.take(i + 1).last() == chars@[i as int]);
        }
        if chars[i] == '{' {
            n = n + 1;
        }
        i = i + 1;
    }
    proof {
        assert(chars@.take(chars.len() as int) == chars@);
    }
    n
}

/// A compiled glob of the `globset` crate.
#[verifier::external_type_specification]
#[verifier::external_body]
pub struct ExGlobMatcher(GlobMatcher);

/// A compiled regular expression of the `regex` crate.
#[verifier::external_type_specification]
#[verifier::external_body]
pub struct ExRegex(Regex);

/// The names that a compiled glob matches.
pub uninterp spec fn glob_names(m: GlobMatcher) -> Set<Seq<char>>;

/// The names that a compiled regular expression matches somewhere.
pub uninterp spec fn regex_names(r: Regex) -> Set<Seq<char>>;

/// The names that a glob pattern matches; none where it does not parse.
pub uninterp spec fn glob_language(pattern: Seq<char>) -> Option<Set<Seq<char>>>;

/// The names that a regular expression matches somewhere; none where it
/// does not parse.
pub uninterp spec fn regex_language(pattern: Seq<char>) -> Option<Set<Seq<char>>>;

/// Trusted: wraps `Glob::new` and `Glob::compile_matcher` of `globset`. The
/// matcher is a function of the pattern alone; the contract names the set of
/// names it matches. The bounds keep the pattern within what
/// `compile_matcher` can build: it panics where the automaton of a pattern
/// outgrows its size limit, which the length bounds, or nests too deep,
/// which the number of opening braces bounds.
#[verifier::external_body]
fn compile_glob(pattern: &str) -> (r: Option<GlobMatcher>)
    requires
        glob_sized(pattern@),
    ensures
        r is Some == glob_language(pattern@) is Some,
        r matches Some(m) ==> glob_names(m) == glob_language(pattern@).unwrap(),
{
    globset::Glob::new(pattern).ok().map(|g| g.compile_matcher())
}

/// Trusted: wraps `GlobMatcher::is_match` of `globset`. On targets other
/// than Unix `globset` reads every path separator in the name as a slash
/// before it matches; the set named here is the one of the target.
#[verifier::external_body]
fn glob_is_match(m: &GlobMatcher, name: &str) -> (b: bool)
    ensures
        b == glob_names(*m).contains(name@),
{
    m.is_match(name)
}

/// Trusted: wraps `Regex::new` of `regex`. The expression is a function of
/// the pattern alone; the contract names the set of names it matches.
#[verifier::external_body]
fn compile_regex(pattern: &str) -> (r: Option<Regex>)
    ensures
        r is Some == regex_language(pattern@) is Some,
        r matches Some(x) ==> regex_names(x) == regex_language(pattern@).unwrap(),
{
    Regex::new(pattern).ok()
}

/// Trusted: wraps `Regex::is_match` of `regex`.
#[verifier::external_body]
fn regex_is_match(r: &Regex, name: &str) -> (b: bool)
    ensures
        b == regex_names(*r).contains(name@),
{
    r.is_match(name)
}

/// One exclusion pattern, compiled.
pub enum PatternMatcher {
    /// A glob.
    Glob(GlobMatcher),
    /// A regular expression.
    Regex(Regex),
}

impl PatternMatcher {
    /// The names the pattern matches.
    pub open spec fn names(self) -> Set<Seq<char>> {
        match self {
            PatternMatcher::Glob(m) => glob_names(m),
            PatternMatcher::Regex(r) => regex_names(r),
        }
    }

    /// Tests a name against the pattern.
    pub fn is_match(&self, name: &str) -> (b: bool)
        ensures
            b == self.names().contains(name@),
    {
        match self {
            PatternMatcher::Glob(m) => glob_is_match(m, name),
            PatternMatcher::Regex(r) => regex_is_match(r, name),
        }
    }

    /// Compiles a pattern: a regular expression where it begins with
    /// `regex:`, which is stripped, a glob otherwise. None where the pattern
    /// does not parse, and for a glob of more than `MAX_GLOB_LENGTH`
    /// characters or more than `MAX_GLOB_BRACES` opening braces.
    pub fn parse(pattern: &str) -> (r: Option<PatternMatcher>)
        ensures
            r is Some == pattern_language(pattern@) is Some,
            r matches Some(m) ==> m.names() == pattern_language(pattern@).unwrap(),
    {
        let chars = chars_of(pattern);
        let prefix = chars_of("regex:");
        proof {
            reveal_strlit("regex:");
        }
        if starts_with(&chars, &prefix) {
            let stripped = string_of(&chars, 6, chars.len());
            match compile_regex(stripped.as_str()) {
                Some(x) => Some(PatternMatcher::Regex(x)),
                None => None,
            }
        } else if chars.len() > MAX_GLOB_LENGTH || count_open_braces(&chars) > MAX_GLOB_BRACES {
            None
        } else {
            match compile_glob(pattern) {
                Some(m) => Some(PatternMatcher::Glob(m)),
                None => None,
            }
        }
    }
}

/// The names that a pattern text matches; none where it does not parse.
pub open spec fn pattern_language(pattern: Seq<char>) -> Option<Set<Seq<char>>> {
    if has_prefix(pattern, "regex:"@) {
        regex_language(pattern.subrange(6, pattern.len() as int))
    } else if !glob_sized(pattern) {
        None
    } else {
        glob_language(pattern)
    }
}

/// Whether one of the patterns matches a name.
pub open spec fn any_matches(patterns: Seq<PatternMatcher>, name: Seq<char>) -> bool {
    exists|i: int| 0 <= i < patterns.len() && (#[trigger] patterns[i]).names().contains(name)
}

/// Tests a name against a list of patterns.
pub fn matches_patterns(name: &str, patterns: &Vec<PatternMatcher>) -> (b: bool)
    ensures
        b == any_matches(patterns@, name@),
{
    let mut i: usize = 0;
    while i < patterns.len()
        invariant
            i <= patterns.len(),
            forall|k: int| 0 <= k < i ==> !(#[trigger] patterns@[k]).names().contains(name@),
        decreases patterns.len() - i,
    {
        if patterns[i].is_match(name) {
            return true;
        }
        i = i + 1;
    }
    false
}

/// The name sets of the patterns that parse, in the order of the texts.
pub open spec fn compiled_languages(texts: Seq<String>) -> Seq<Set<Seq<char>>>
    decreases texts.len(),
{
    if texts.len() == 0 {
        Seq::empty()
    } else {
        match pattern_language(texts.last()@) {
            Some(l) => compiled_languages(texts.drop_last()).push(l),
            None => compiled_languages(texts.drop_last()),
        }
    }
}

/// The name sets of a list of compiled patterns.
pub open spec fn languages(patterns: Seq<PatternMatcher>) -> Seq<Set<Seq<char>>> {
    Seq::new(patterns.len(), |i: int| patterns[i].names())
}

/// Compiles a list of pattern texts. A text that does not parse is dropped.
pub fn compile_patterns(texts: &Vec<String>) -> (r: Vec<PatternMatcher>)
    ensures
        languages(r@) == compiled_languages(texts@),
{
    let mut r: Vec<PatternMatcher> = Vec::new();
    let mut i: usize = 0;
    assert(languages(r@) =~= compiled_languages(texts@.take(0)));
    while i < texts.len()
        invariant
            i <= texts.len(),
            languages(r@) == compiled_languages(texts@.take(i as int)),
        decreases texts.len() - i,
    {
        proof {
            assert(texts@.take(i + 1).drop_last() == texts@.take(i as int));
            assert(texts@.take(i + 1).last() == texts@[i as int]);
        }
        let ghost before = r@;
        match PatternMatcher::parse(texts[i].as_str()) {
            Some(m) => {
                r.push(m);
                assert(languages(r@) =~= languages(before).push(m.names()));
            },
            None => {},
        }
        i = i + 1;
    }
    proof {
        assert(texts@.take(texts.len() as int) == texts@);
    }
    r
}

} // verus!
