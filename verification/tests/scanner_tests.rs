use line_grep::matcher::{MatchMode, Matcher};
use line_grep::scanner::{scan_content, split_lines, ScanFailure, ScanResult};

fn fixed(pattern: &str) -> Matcher {
    Matcher::compile(pattern, MatchMode::FixedStrings).unwrap()
}

#[test]
fn scan_yields_matching_lines_in_file_order() {
    let r = scan_content("data.txt", &fixed("abc"), "abc\nxyz\nabcx");
    assert_eq!(r.file_path, "data.txt".to_string());
    assert_eq!(r.hit_lines, vec!["abc".to_string(), "abcx".to_string()]);
    assert_eq!(r.failure, None);
}

#[test]
fn scanning_twice_yields_identical_results() {
    let content = "one\ntwo\nthree\ntwenty-two";
    let first = scan_content("f", &fixed("two"), content);
    let second = scan_content("f", &fixed("two"), content);
    assert_eq!(first.file_path, second.file_path);
    assert_eq!(first.hit_lines, second.hit_lines);
    assert_eq!(first.failure, second.failure);
    assert_eq!(first.hit_lines, vec!["two".to_string(), "twenty-two".to_string()]);
}

#[test]
fn empty_file_yields_empty_match_sequence() {
    let r = scan_content("empty.txt", &fixed("a"), "");
    assert_eq!(r.hit_lines, Vec::<String>::new());
    assert_eq!(r.failure, None);
}

#[test]
fn zero_matches_is_not_an_error() {
    let r = scan_content("f", &fixed("zzz"), "abc\ndef\n");
    assert_eq!(r.hit_lines, Vec::<String>::new());
    assert_eq!(r.failure, None);
}

#[test]
fn split_lines_handles_newline_family_delimiters() {
    assert_eq!(split_lines(""), Vec::<String>::new());
    assert_eq!(split_lines("abc"), vec!["abc".to_string()]);
    assert_eq!(split_lines("abc\n"), vec!["abc".to_string()]);
    assert_eq!(split_lines("a\nb\nc"), vec!["a".to_string(), "b".to_string(), "c".to_string()]);
    assert_eq!(split_lines("a\r\nb\r\n"), vec!["a".to_string(), "b".to_string()]);
    assert_eq!(split_lines("a\n\nb"), vec!["a".to_string(), "".to_string(), "b".to_string()]);
}

#[test]
fn split_lines_keeps_bare_carriage_returns() {
    assert_eq!(split_lines("a\rb\nc"), vec!["a\rb".to_string(), "c".to_string()]);
    assert_eq!(split_lines("abc\r"), vec!["abc\r".to_string()]);
    assert_eq!(split_lines("a\r\r\nb"), vec!["a\r".to_string(), "b".to_string()]);
}

#[test]
fn matched_lines_keep_exact_original_text() {
    let r = scan_content("f", &fixed("pat"), "  pat with spaces  \npat\tand tab\nnothing");
    assert_eq!(
        r.hit_lines,
        vec!["  pat with spaces  ".to_string(), "pat\tand tab".to_string()]
    );
}

#[test]
fn regex_scan_matches_unanchored() {
    let m = Matcher::compile("b+c", MatchMode::ExtendedRegexp).unwrap();
    let r = scan_content("f", &m, "abbc\nacb\nxbc\n");
    assert_eq!(r.hit_lines, vec!["abbc".to_string(), "xbc".to_string()]);
}

#[test]
fn failed_results_carry_path_and_descriptor() {
    let r = ScanResult::failed("gone.txt", ScanFailure::FileAccess);
    assert_eq!(r.file_path, "gone.txt".to_string());
    assert_eq!(r.hit_lines, Vec::<String>::new());
    assert_eq!(r.failure, Some(ScanFailure::FileAccess));
    let r = ScanResult::failed("junk.bin", ScanFailure::Decode);
    assert_eq!(r.failure, Some(ScanFailure::Decode));
}

#[test]
fn duplicate_preserves_every_observable_part() {
    let r = scan_content("f", &fixed("a"), "abc\nxyz\nca");
    let copy = r.duplicate();
    assert_eq!(copy.file_path, r.file_path);
    assert_eq!(copy.hit_lines, r.hit_lines);
    assert_eq!(copy.failure, r.failure);
}
