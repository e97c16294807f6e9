use line_grep::matcher::{ExtendedRegexpMatcher, FixedStringsMatcher, MatchMode, Matcher};

#[test]
fn test_extended_regexp_matcher() {
    let matcher = ExtendedRegexpMatcher::new("c").unwrap();
    assert_eq!(true, matcher.execute("abcdefg"));
    let matcher = ExtendedRegexpMatcher::new("fg").unwrap();
    assert_eq!(true, matcher.execute("abcdefg"));
    let matcher = ExtendedRegexpMatcher::new("Z").unwrap();
    assert_eq!(false, matcher.execute("abcdefg"));
    let matcher = ExtendedRegexpMatcher::new("a.c").unwrap();
    assert_eq!(true, matcher.execute("abcdefg"));
    let matcher = ExtendedRegexpMatcher::new("a+.b+").unwrap();
    assert_eq!(true, matcher.execute("aaa bbb"));
    let matcher = ExtendedRegexpMatcher::new("[aA][bB][cC]").unwrap();
    assert_eq!(true, matcher.execute("aBc"));
    assert_eq!(true, matcher.execute("Abc"));
}

#[test]
fn test_match_fix_string() {
    let matcher = FixedStringsMatcher::new("c");
    assert_eq!(true, matcher.execute("abcdefg"));
    assert_eq!(true, matcher.execute("cccc"));
    let matcher = FixedStringsMatcher::new("fg");
    assert_eq!(true, matcher.execute("abcdefg"));
    let matcher = FixedStringsMatcher::new("Z");
    assert_eq!(false, matcher.execute("abcdefg"));
    let matcher = FixedStringsMatcher::new("a.c");
    assert_eq!(false, matcher.execute("abcdefg"));
    let matcher = FixedStringsMatcher::new("a+.b+");
    assert_eq!(false, matcher.execute("aaa bbb"));
    let matcher = FixedStringsMatcher::new("[aA][bB][cC]");
    assert_eq!(false, matcher.execute("aBc"));
}

#[test]
fn empty_fixed_pattern_matches_every_line() {
    let matcher = FixedStringsMatcher::new("");
    assert_eq!(true, matcher.execute(""));
    assert_eq!(true, matcher.execute("abc"));
    assert_eq!(true, matcher.execute("   "));
}

#[test]
fn empty_regex_pattern_matches_every_line() {
    let matcher = ExtendedRegexpMatcher::new("").unwrap();
    assert_eq!(true, matcher.execute(""));
    assert_eq!(true, matcher.execute("abc"));
    let matcher = Matcher::compile("", MatchMode::ExtendedRegexp).unwrap();
    assert_eq!(true, matcher.test("anything"));
}

#[test]
fn invalid_regex_pattern_is_rejected() {
    assert!(ExtendedRegexpMatcher::new("[").is_err());
    assert!(Matcher::compile("(unclosed", MatchMode::ExtendedRegexp).is_err());
}

#[test]
fn fixed_strings_compilation_never_fails() {
    let matcher = Matcher::compile("[", MatchMode::FixedStrings).unwrap();
    assert_eq!(true, matcher.test("a[b"));
    assert_eq!(false, matcher.test("ab"));
}

#[test]
fn compile_dispatches_on_mode() {
    let fixed = Matcher::compile("a.c", MatchMode::FixedStrings).unwrap();
    assert_eq!(false, fixed.test("abcdefg"));
    assert_eq!(true, fixed.test("xa.cy"));
    let regex = Matcher::compile("a.c", MatchMode::ExtendedRegexp).unwrap();
    assert_eq!(true, regex.test("abcdefg"));
    assert_eq!(false, regex.test("axd"));
}

#[test]
fn extended_regex_quantifiers_and_alternation() {
    let matcher = ExtendedRegexpMatcher::new("ab{2,3}c").unwrap();
    assert_eq!(true, matcher.execute("xabbcy"));
    assert_eq!(false, matcher.execute("xabcy"));
    let matcher = ExtendedRegexpMatcher::new("cat|dog").unwrap();
    assert_eq!(true, matcher.execute("hotdog"));
    assert_eq!(false, matcher.execute("bird"));
    let matcher = ExtendedRegexpMatcher::new("(ab)+").unwrap();
    assert_eq!(true, matcher.execute("zababz"));
}
