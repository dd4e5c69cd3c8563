//! Match predicates over lines of text.
//!
//! A predicate is either a literal substring test, implemented and verified
//! here, or a compiled regular expression, supplied by the regex engine and
//! consumed through the narrow `Matcher` capability. Predicates hold no
//! mutable state, so one predicate may serve any number of scanning tasks.
use vstd::prelude::*;
use vstd::utf8::encode_utf8;

verus! {

/// True when `needle` occurs as a contiguous run of bytes inside `hay`.
pub open spec fn bytes_contain(hay: Seq<u8>, needle: Seq<u8>) -> bool {
    exists|i: int|
        0 <= i && i + needle.len() <= hay.len() && #[trigger] hay.subrange(i, i + needle.len())
            == needle
}

/// A line-match capability: a single predicate over a line of text, with its
/// meaning pinned down by the `matches` spec function.
pub trait Matcher {
    /// What the predicate holds of a line, stated over the line's characters.
    spec fn matches(&self, line: Seq<char>) -> bool;

    /// Decides whether a line satisfies the predicate.
    fn is_match(&self, line: &str) -> (r: bool)
        ensures
            r == self.matches(line@),
    ;
}

/// True when the bytes of `hay` starting at `at` are exactly `needle`.
fn match_at(hay: &[u8], needle: &[u8], at: usize) -> (r: bool)
    requires
        at + needle@.len() <= hay@.len(),
    ensures
        r == (hay@.subrange(at as int, at as int + needle@.len()) == needle@),
{
    let n = hay.len();
    let m = needle.len();
    let mut j: usize = 0;
    while j < m
        invariant
            0 <= j <= m,
            m == needle@.len(),
            n == hay@.len(),
            at + m <= n,
            forall|t: int| 0 <= t < j ==> hay@[at + t] == needle@[t],
        decreases m - j,
    {
        if hay[at + j] != needle[j] {
            proof {
                assert(hay@.subrange(at as int, at as int + needle@.len())[j as int] != needle@[
                    j as int]);
            }
            return false;
        }
        j = j + 1;
    }
    proof {
        assert(hay@.subrange(at as int, at as int + needle@.len()) =~= needle@);
    }
    true
}

/// True exactly when `needle` occurs somewhere inside `hay`; the empty
/// needle occurs in everything.
fn find_bytes(hay: &[u8], needle: &[u8]) -> (r: bool)
    ensures
        r == bytes_contain(hay@, needle@),
{
    let n = hay.len();
    let m = needle.len();
    if m == 0 {
        proof {
            assert(hay@.subrange(0, 0 + needle@.len() as int) =~= needle@);
        }
        return true;
    }
    if m > n {
        return false;
    }
    let mut i: usize = 0;
    while i <= n - m
        invariant
            0 <= i <= n - m + 1,
            1 <= m <= n,
            n == hay@.len(),
            m == needle@.len(),
            forall|k: int| 0 <= k < i ==> #[trigger] hay@.subrange(k, k + needle@.len()) != needle@,
        decreases n - m - i + 1,
    {
        if match_at(hay, needle, i) {
            proof {
                assert(0 <= i as int && i as int + needle@.len() <= hay@.len() && hay@.subrange(
                    i as int,
                    i as int + needle@.len(),
                ) == needle@);
            }
            return true;
        }
        i = i + 1;
    }
    proof {
        assert forall|k: int| 0 <= k && k + needle@.len() <= hay@.len() implies #[trigger] hay@
            .subrange(k, k + needle@.len()) != needle@ by {
            assert(k < i);
        }
    }
    false
}

/// A literal substring predicate: a line matches when the pattern's bytes
/// occur anywhere in the line's bytes.
pub struct LiteralMatcher {
    pub pattern: String,
}

impl Matcher for LiteralMatcher {
    open spec fn matches(&self, line: Seq<char>) -> bool {
        bytes_contain(encode_utf8(line), encode_utf8(self.pattern@))
    }

    fn is_match(&self, line: &str) -> (r: bool) {
        find_bytes(line.as_bytes(), self.pattern.as_str().as_bytes())
    }
}

#[verifier::external_type_specification]
#[verifier::external_body]
pub struct ExRegex(regex::Regex);

#[verifier::external_type_specification]
#[verifier::external_body]
pub struct ExRegexError(regex::Error);

/// Whether the regex engine accepts `pattern` as a valid pattern. Compilation
/// is deterministic in the pattern text (under the engine's default
/// configuration), so this is a function of the pattern alone.
pub uninterp spec fn regex_valid(pattern: Seq<char>) -> bool;

/// The regex engine's verdict for a non-anchored search for `pattern`
/// anywhere in `line`: deterministic in the pattern and the line.
pub uninterp spec fn regex_match(pattern: Seq<char>, line: Seq<char>) -> bool;

/// A compiled regular-expression predicate. The compiled engine state is kept
/// beside the pattern text it was compiled from; the fields are private, and
/// `RegexMatcher::new` is the only constructor, so the two always agree.
pub struct RegexMatcher {
    re: regex::Regex,
    pattern: String,
}

impl RegexMatcher {
    /// The text of the pattern this predicate was compiled from.
    pub closed spec fn pattern_view(&self) -> Seq<char> {
        self.pattern@
    }

    /// Relies on `regex::Regex::new`: it compiles the pattern, succeeding
    /// exactly when the pattern is accepted by the engine's default
    /// configuration, and the compiled value searches for that pattern.
    #[verifier::external_body]
    pub(crate) fn new(pattern: &str) -> (r: Result<RegexMatcher, regex::Error>)
        ensures
            r is Ok <==> regex_valid(pattern@),
            r is Ok ==> (r->Ok_0).pattern_view() == pattern@,
    {
        match regex::Regex::new(pattern) {
            Ok(re) => Ok(RegexMatcher { re, pattern: pattern.to_owned() }),
            Err(e) => Err(e),
        }
    }

    /// Relies on `regex::Regex::is_match`: true if and only if the compiled
    /// pattern matches anywhere in the line; the verdict depends on the
    /// pattern and the line alone.
    #[verifier::external_body]
    fn search(&self, line: &str) -> (r: bool)
        ensures
            r == regex_match(self.pattern_view(), line@),
    {
        self.re.is_match(line)
    }
}

impl Matcher for RegexMatcher {
    open spec fn matches(&self, line: Seq<char>) -> bool {
        regex_match(self.pattern_view(), line)
    }

    fn is_match(&self, line: &str) -> (r: bool) {
        self.search(line)
    }
}

/// The predicate a scan runs with: a literal substring test or a compiled
/// regular expression, behind one `Matcher` face.
pub enum CompiledMatcher {
    Literal(LiteralMatcher),
    Regexp(RegexMatcher),
}

impl Matcher for CompiledMatcher {
    open spec fn matches(&self, line: Seq<char>) -> bool {
        match self {
            CompiledMatcher::Literal(m) => m.matches(line),
            CompiledMatcher::Regexp(m) => m.matches(line),
        }
    }

    fn is_match(&self, line: &str) -> (r: bool) {
        match self {
            CompiledMatcher::Literal(m) => m.is_match(line),
            CompiledMatcher::Regexp(m) => m.is_match(line),
        }
    }
}

/// What a predicate built from `(regex_mode, pattern)` holds of a line.
pub open spec fn spec_match(regex_mode: bool, pattern: Seq<char>, line: Seq<char>) -> bool {
    if regex_mode {
        regex_match(pattern, line)
    } else {
        bytes_contain(encode_utf8(line), encode_utf8(pattern))
    }
}

/// Builds the scan's match predicate from its configuration: a literal
/// substring test, or a compiled regular expression. A literal pattern always
/// succeeds; a regular expression succeeds exactly when the engine accepts
/// the pattern, and fails with the engine's error otherwise.
pub fn build_matcher(regex_mode: bool, pattern: String) -> (r: Result<
    CompiledMatcher,
    regex::Error,
>)
    ensures
        !regex_mode ==> r is Ok,
        regex_mode ==> (r is Ok <==> regex_valid(pattern@)),
        r is Ok ==> forall|line: Seq<char>| #[trigger]
            (r->Ok_0).matches(line) == spec_match(regex_mode, pattern@, line),
{
    if regex_mode {
        match RegexMatcher::new(pattern.as_str()) {
            Ok(m) => Ok(CompiledMatcher::Regexp(m)),
            Err(e) => Err(e),
        }
    } else {
        Ok(CompiledMatcher::Literal(LiteralMatcher { pattern }))
    }
}

} // verus!
