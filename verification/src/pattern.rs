//! Regular expressions that mark further URLs as internal, compiled and
//! matched by `regex_lite`.

use vstd::prelude::*;

verus! {

#[verifier::external_type_specification]
#[verifier::external_body]
pub struct ExRegex(regex_lite::Regex);

/// Whether `regex_lite::Regex::new` accepts `pattern` (a valid expression
/// within the default size limit).
pub uninterp spec fn regex_compiles(pattern: Seq<char>) -> bool;

/// Whether the expression compiled from `pattern` matches anywhere in
/// `haystack` (`regex_lite::Regex::is_match`).
pub uninterp spec fn regex_is_match(pattern: Seq<char>, haystack: Seq<char>) -> bool;

/// A compiled expression together with the source it was compiled from.
pub struct UrlPattern {
    source: String,
    regex: regex_lite::Regex,
}

impl UrlPattern {
    /// The source text of the expression.
    pub closed spec fn source(&self) -> Seq<char> {
        self.source@
    }

    /// The source text of the expression.
    pub fn as_str(&self) -> (r: &str)
        ensures
            r@ == self.source(),
    {
        self.source.as_str()
    }
}

/// Compiles `pattern` with `regex_lite::Regex::new`. The result is `Some` exactly
/// when the crate accepts the pattern, and then holds the pattern as its source
/// next to the compiled expression.
#[verifier::external_body]
fn compile_pattern(pattern: &str) -> (r: Option<UrlPattern>)
    ensures
        r is Some <==> regex_compiles(pattern@),
        r matches Some(p) ==> p.source() == pattern@,
{
    match regex_lite::Regex::new(pattern) {
        Ok(regex) => Some(UrlPattern { source: pattern.to_string(), regex }),
        Err(_) => None,
    }
}

/// `regex_lite::Regex::is_match` on the compiled expression of `p`: whether it
/// matches anywhere in `haystack`.
#[verifier::external_body]
fn pattern_is_match(p: &UrlPattern, haystack: &str) -> (r: bool)
    ensures
        r == regex_is_match(p.source(), haystack@),
{
    p.regex.is_match(haystack)
}

/// The sources among `patterns` that compile, in the order given.
pub open spec fn compiling(patterns: Seq<Seq<char>>) -> Seq<Seq<char>>
    decreases patterns.len(),
{
    if patterns.len() == 0 {
        seq![]
    } else if regex_compiles(patterns.last()) {
        compiling(patterns.drop_last()).push(patterns.last())
    } else {
        compiling(patterns.drop_last())
    }
}

/// The sources of a list of compiled patterns.
pub open spec fn sources(ps: Seq<UrlPattern>) -> Seq<Seq<char>> {
    ps.map_values(|p: UrlPattern| p.source())
}

/// Compiles every pattern, silently dropping those that do not compile.
pub fn compile_patterns(patterns: &Vec<String>) -> (r: Vec<UrlPattern>)
    ensures
        sources(r@) == compiling(patterns@.map_values(|s: String| s@)),
{
    let ghost all = patterns@.map_values(|s: String| s@);
    let mut out: Vec<UrlPattern> = Vec::new();
    let mut i: usize = 0;
    while i < patterns.len()
        invariant
            i <= patterns.len(),
            all == patterns@.map_values(|s: String| s@),
            sources(out@) == compiling(all.take(i as int)),
        decreases patterns.len() - i,
    {
        let compiled = compile_pattern(patterns[i].as_str());
        assert(all.take(i + 1).drop_last() =~= all.take(i as int));
        assert(all.take(i + 1).last() == patterns@[i as int]@);
        match compiled {
            Some(p) => {
                out.push(p);
                assert(sources(out@) =~= compiling(all.take(i as int)).push(all[i as int]));
            },
            None => {},
        }
        i = i + 1;
    }
    assert(all.take(patterns.len() as int) =~= all);
    out
}

/// Whether some pattern in `ps` matches `haystack`.
pub open spec fn any_matches(ps: Seq<Seq<char>>, haystack: Seq<char>) -> bool {
    exists|i: int| 0 <= i < ps.len() && #[trigger] regex_is_match(ps[i], haystack)
}

/// Whether any of `patterns` matches `haystack`.
pub fn matches_any(patterns: &Vec<UrlPattern>, haystack: &str) -> (r: bool)
    ensures
        r == any_matches(sources(patterns@), haystack@),
{
    let ghost srcs = sources(patterns@);
    let mut i: usize = 0;
    while i < patterns.len()
        invariant
            i <= patterns.len(),
            srcs == sources(patterns@),
            forall|j: int| 0 <= j < i ==> !#[trigger] regex_is_match(srcs[j], haystack@),
        decreases patterns.len() - i,
    {
        if pattern_is_match(&patterns[i], haystack) {
            assert(regex_is_match(srcs[i as int], haystack@));
            return true;
        }
        i = i + 1;
    }
    false
}

} // verus!
