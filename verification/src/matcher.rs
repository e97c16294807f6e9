use vstd::prelude::*;
use vstd::string::StrSliceExecFns;

verus! {

/// The two matching strategies a run can be configured with: unanchored
/// extended-regular-expression matching, or literal substring containment.
#[derive(Clone, Copy, PartialEq, Eq, Structural, Debug)]
pub enum MatchMode {
    ExtendedRegexp,
    FixedStrings,
}

/// The pattern is not a syntactically valid extended regular expression.
/// Detected once, before any file work; fixed-string compilation never
/// produces it.
#[derive(Clone, Copy, PartialEq, Eq, Structural, Debug)]
pub struct InvalidPatternError;

/// Whether `regex::Regex::new` accepts a pattern. Compilation succeeds or
/// fails depending on the pattern text alone, so its outcome can be named.
pub uninterp spec fn regex_accepts(pattern: Seq<char>) -> bool;

/// Whether the compiled form of `pattern` has an unanchored match somewhere
/// in `line`, as `regex::Regex::is_match` reports it. The answer depends on
/// the two strings alone, so it can be named.
pub uninterp spec fn regex_match(pattern: Seq<char>, line: Seq<char>) -> bool;

/// Relies on `regex::Regex::new`: compilation is a function of the pattern
/// text alone, and the empty pattern is a valid regular expression.
#[verifier::external_body]
fn regex_compiles(pattern: &str) -> (r: bool)
    ensures
        r == regex_accepts(pattern@),
        pattern@.len() == 0 ==> r,
{
    regex::Regex::new(pattern).is_ok()
}

/// Relies on `regex::Regex::new` and `regex::Regex::is_match`: the compiled
/// regex is a function of the pattern text, and `is_match` reports whether it
/// matches anywhere in the haystack. The empty pattern matches every line.
#[verifier::external_body]
fn regex_test(pattern: &str, line: &str) -> (r: bool)
    requires
        regex_accepts(pattern@),
    ensures
        r == regex_match(pattern@, line@),
        pattern@.len() == 0 ==> r,
{
    match regex::Regex::new(pattern) {
        Ok(re) => re.is_match(line),
        Err(_) => false,
    }
}

/// `pattern` occurs in `line` as a contiguous run starting at index `i`.
pub open spec fn contains_at(line: Seq<char>, pattern: Seq<char>, i: int) -> bool {
    &&& 0 <= i
    &&& i + pattern.len() <= line.len()
    &&& line.subrange(i, i + pattern.len()) == pattern
}

/// `pattern` occurs somewhere in `line` as a contiguous literal substring.
pub open spec fn contains_substring(line: Seq<char>, pattern: Seq<char>) -> bool {
    exists|i: int| contains_at(line, pattern, i)
}

/// The empty pattern is contained in every line, at its start.
pub proof fn lemma_empty_pattern_contained(line: Seq<char>)
    ensures
        contains_substring(line, Seq::<char>::empty()),
{
    assert(line.subrange(0, 0) =~= Seq::<char>::empty());
    assert(contains_at(line, Seq::<char>::empty(), 0));
}

/// Does `pattern` stand at position `i` of `line`, character for character?
fn matches_at(line: &str, pattern: &str, i: usize) -> (r: bool)
    requires
        i + pattern@.len() <= line@.len(),
        line@.len() <= usize::MAX,
    ensures
        r == contains_at(line@, pattern@, i as int),
{
    let m = pattern.unicode_len();
    let mut j: usize = 0;
    while j < m
        invariant
            m == pattern@.len(),
            i + m <= line@.len() <= usize::MAX,
            0 <= j <= m,
            forall|t: int| 0 <= t < j ==> line@[i + t] == pattern@[t],
        decreases m - j,
    {
        if line.get_char(i + j) != pattern.get_char(j) {
            proof {
                let sub = line@.subrange(i as int, i + pattern@.len());
                if sub == pattern@ {
                    assert(sub[j as int] == line@[i + j]);
                    assert(false);
                }
            }
            return false;
        }
        j += 1;
    }
    proof {
        assert(line@.subrange(i as int, i + pattern@.len()) =~= pattern@);
    }
    true
}

/// Literal, case-sensitive substring search: does `pattern` occur anywhere
/// in `line`? No metacharacter is interpreted.
pub fn str_contains(line: &str, pattern: &str) -> (r: bool)
    ensures
        r == contains_substring(line@, pattern@),
{
    let n = line.unicode_len();
    let m = pattern.unicode_len();
    if m == 0 {
        proof {
            assert(pattern@ =~= Seq::<char>::empty());
            lemma_empty_pattern_contained(line@);
        }
        return true;
    }
    if m > n {
        proof {
            assert(forall|i: int| !contains_at(line@, pattern@, i));
        }
        return false;
    }
    let mut i: usize = 0;
    while i <= n - m
        invariant
            n == line@.len(),
            m == pattern@.len(),
            0 < m <= n,
            0 <= i <= n - m + 1,
            forall|k: int| 0 <= k < i ==> !contains_at(line@, pattern@, k),
        decreases n - m - i + 1,
    {
        if matches_at(line, pattern, i) {
            return true;
        }
        i += 1;
    }
    proof {
        assert(forall|k: int| !contains_at(line@, pattern@, k));
    }
    false
}

/// Literal matcher: a line matches when it contains the pattern as a
/// contiguous substring.
pub struct FixedStringsMatcher {
    pattern: String,
}

impl FixedStringsMatcher {
    /// The pattern this matcher was built from.
    pub closed spec fn pattern_view(&self) -> Seq<char> {
        self.pattern@
    }

    /// Fixed-string compilation never fails.
    pub fn new(pattern: &str) -> (m: FixedStringsMatcher)
        ensures
            m.pattern_view() == pattern@,
    {
        FixedStringsMatcher { pattern: pattern.to_owned() }
    }

    /// True iff the line contains the pattern as a literal substring.
    /// The empty pattern matches every line.
    pub fn execute(&self, line: &str) -> (r: bool)
        ensures
            r == contains_substring(line@, self.pattern_view()),
            self.pattern_view().len() == 0 ==> r,
    {
        proof {
            if self.pattern@.len() == 0 {
                assert(self.pattern@ =~= Seq::<char>::empty());
                lemma_empty_pattern_contained(line@);
            }
        }
        str_contains(line, self.pattern.as_str())
    }
}

/// Extended-regex matcher: a line matches when the pattern has an unanchored
/// match somewhere in it. Holds only patterns that compile.
pub struct ExtendedRegexpMatcher {
    pattern: String,
}

impl ExtendedRegexpMatcher {
    #[verifier::type_invariant]
    spec fn wf(self) -> bool {
        regex_accepts(self.pattern@)
    }

    /// The pattern this matcher was built from.
    pub closed spec fn pattern_view(&self) -> Seq<char> {
        self.pattern@
    }

    /// Compiles the pattern; fails exactly when it is not a valid extended
    /// regular expression. The empty pattern always compiles.
    pub fn new(pattern: &str) -> (r: Result<ExtendedRegexpMatcher, InvalidPatternError>)
        ensures
            r is Ok <==> regex_accepts(pattern@),
            r matches Ok(m) ==> m.pattern_view() == pattern@,
            pattern@.len() == 0 ==> r is Ok,
    {
        if regex_compiles(pattern) {
            Ok(ExtendedRegexpMatcher { pattern: pattern.to_owned() })
        } else {
            Err(InvalidPatternError)
        }
    }

    /// True iff the pattern has an unanchored match somewhere in the line.
    /// The empty pattern matches every line.
    pub fn execute(&self, line: &str) -> (r: bool)
        ensures
            r == regex_match(self.pattern_view(), line@),
            self.pattern_view().len() == 0 ==> r,
    {
        proof {
            use_type_invariant(self);
        }
        regex_test(self.pattern.as_str(), line)
    }
}

/// A compiled, single-pattern matching capability: one of the two matcher
/// kinds, chosen once per run.
pub enum Matcher {
    ExtendedRegexp(ExtendedRegexpMatcher),
    FixedStrings(FixedStringsMatcher),
}

impl Matcher {
    /// The pattern this matcher was built from.
    pub open spec fn pattern_view(&self) -> Seq<char> {
        match self {
            Matcher::ExtendedRegexp(m) => m.pattern_view(),
            Matcher::FixedStrings(m) => m.pattern_view(),
        }
    }

    /// The mode this matcher implements.
    pub open spec fn mode(&self) -> MatchMode {
        match self {
            Matcher::ExtendedRegexp(_) => MatchMode::ExtendedRegexp,
            Matcher::FixedStrings(_) => MatchMode::FixedStrings,
        }
    }

    /// What `test` returns: substring containment in fixed-string mode,
    /// an unanchored regex match in extended-regex mode.
    pub open spec fn spec_test(&self, line: Seq<char>) -> bool {
        match self {
            Matcher::ExtendedRegexp(m) => regex_match(m.pattern_view(), line),
            Matcher::FixedStrings(m) => contains_substring(line, m.pattern_view()),
        }
    }

    /// Turns a raw pattern and a mode flag into a matcher. Fails exactly when
    /// the mode is extended-regex and the pattern does not compile;
    /// fixed-string compilation never fails.
    pub fn compile(pattern: &str, mode: MatchMode) -> (r: Result<Matcher, InvalidPatternError>)
        ensures
            r is Ok <==> (mode == MatchMode::FixedStrings || regex_accepts(pattern@)),
            r matches Ok(m) ==> m.pattern_view() == pattern@ && m.mode() == mode,
            pattern@.len() == 0 ==> r is Ok,
    {
        match mode {
            MatchMode::FixedStrings => Ok(Matcher::FixedStrings(FixedStringsMatcher::new(pattern))),
            MatchMode::ExtendedRegexp => {
                match ExtendedRegexpMatcher::new(pattern) {
                    Ok(m) => Ok(Matcher::ExtendedRegexp(m)),
                    Err(e) => Err(e),
                }
            },
        }
    }

    /// Tests one line against the pattern; no side effects. The empty
    /// pattern matches every line, in either mode.
    pub fn test(&self, line: &str) -> (r: bool)
        ensures
            r == self.spec_test(line@),
            self.pattern_view().len() == 0 ==> r,
    {
        match self {
            Matcher::ExtendedRegexp(m) => m.execute(line),
            Matcher::FixedStrings(m) => m.execute(line),
        }
    }
}

} // verus!
