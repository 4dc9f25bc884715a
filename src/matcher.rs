//! The regular-expression engine this lexer relies on, as seen by the proofs.
//!
//! Compilation and matching are done by the `regex` crate. What the lexer's
//! proofs assume of it is stated here, next to each call. A compiled matcher
//! keeps the text it was compiled from, so that what it matches can be spoken
//! of in terms of that text; only the compiling functions below build one.
use vstd::prelude::*;
use vstd::string::{StringExecFns, StringSliceAdditionalSpecFns};
use vstd::utf8::is_char_boundary;

verus! {

#[verifier::external_type_specification]
#[verifier::external_body]
pub struct ExRegex(regex::Regex);

#[verifier::external_type_specification]
#[verifier::external_body]
pub struct ExRegexSet(regex::RegexSet);

#[verifier::external_type_specification]
#[verifier::external_body]
pub struct ExRegexError(regex::Error);

/// Whether `regex::Regex::new` accepts this pattern.
pub uninterp spec fn regex_compiles(pattern: Seq<char>) -> bool;

/// Whether `regex::RegexSet::new` accepts these patterns together.
pub uninterp spec fn regex_set_compiles(patterns: Seq<Seq<char>>) -> bool;

/// The byte offsets of the leftmost match that `regex::Regex::find` reports
/// for this pattern in this haystack.
pub uninterp spec fn regex_find(pattern: Seq<char>, haystack: Seq<char>) -> Option<(usize, usize)>;

/// The indices, ascending, of the patterns that `regex::RegexSet::matches`
/// reports as matching somewhere in this haystack.
pub uninterp spec fn regex_set_matches(patterns: Seq<Seq<char>>, haystack: Seq<char>) -> Seq<usize>;

/// The form in which a rule's pattern is compiled: behind a start anchor, so
/// that a match of it at the start of the text is the one that is found.
pub open spec fn anchored_pattern(pattern: Seq<char>) -> Seq<char> {
    seq!['^'] + pattern
}

/// The pattern text behind a `^`.
pub fn anchored(pattern: &str) -> (r: String)
    ensures
        r@ == anchored_pattern(pattern@),
{
    let mut r = String::from_str("^");
    r.append(pattern);
    proof {
        reveal_strlit("^");
    }
    r
}

/// A compiled regular expression together with the text it was compiled from.
#[derive(Debug)]
pub struct CompiledRegex {
    re: regex::Regex,
    pattern: String,
}

impl CompiledRegex {
    /// The pattern text this matcher was compiled from.
    pub closed spec fn pattern(&self) -> Seq<char> {
        self.pattern@
    }
}

/// A compiled set of regular expressions together with their texts.
#[derive(Debug)]
pub struct CompiledSet {
    set: regex::RegexSet,
    patterns: Vec<String>,
}

impl CompiledSet {
    /// The pattern texts this set was compiled from, in order.
    pub closed spec fn patterns(&self) -> Seq<Seq<char>> {
        self.patterns.deep_view()
    }
}

/// Relies on `regex::Regex::new`: whether it succeeds depends on the pattern
/// text alone. The text is kept beside the compiled regex.
#[verifier::external_body]
pub(crate) fn compile_regex(pattern: &str) -> (r: Result<CompiledRegex, regex::Error>)
    ensures
        r is Ok <==> regex_compiles(pattern@),
        r matches Ok(c) ==> c.pattern() == pattern@,
{
    match regex::Regex::new(pattern) {
        Ok(re) => Ok(CompiledRegex { re, pattern: pattern.to_string() }),
        Err(e) => Err(e),
    }
}

/// Relies on `regex::RegexSet::new`: whether it succeeds depends on the
/// pattern texts alone. The texts are kept beside the compiled set.
#[verifier::external_body]
pub(crate) fn compile_regex_set(patterns: &Vec<String>) -> (r: Result<CompiledSet, regex::Error>)
    ensures
        r is Ok <==> regex_set_compiles(patterns.deep_view()),
        r matches Ok(c) ==> c.patterns() == patterns.deep_view(),
{
    match regex::RegexSet::new(patterns) {
        Ok(set) => Ok(CompiledSet { set, patterns: patterns.clone() }),
        Err(e) => Err(e),
    }
}

/// Relies on `regex::RegexSet::matches` and the iterator of `SetMatches`: the
/// indices of the patterns that match somewhere in `haystack`, which come out
/// in ascending order.
#[verifier::external_body]
pub(crate) fn matching_indices(set: &CompiledSet, haystack: &str) -> (r: Vec<usize>)
    ensures
        r@ == regex_set_matches(set.patterns(), haystack@),
        forall|i: int, j: int| 0 <= i < j < r.len() ==> r[i] < r[j],
{
    set.set.matches(haystack).into_iter().collect()
}

/// Relies on `regex::Regex::find` with `Match::start` and `Match::end`: the
/// byte offsets of the leftmost match, `start <= end`, both on character
/// boundaries of `haystack`.
#[verifier::external_body]
pub(crate) fn find_span(re: &CompiledRegex, haystack: &str) -> (r: Option<(usize, usize)>)
    ensures
        r == regex_find(re.pattern(), haystack@),
        match r {
            Some((s, e)) => {
                &&& s <= e <= haystack.spec_bytes().len()
                &&& is_char_boundary(haystack.spec_bytes(), s as int)
                &&& is_char_boundary(haystack.spec_bytes(), e as int)
            },
            None => true,
        },
{
    re.re.find(haystack).map(|m| (m.start(), m.end()))
}

} // verus!
