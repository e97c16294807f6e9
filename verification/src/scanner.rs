use vstd::prelude::*;
use vstd::string::StrSliceExecFns;

use crate::matcher::Matcher;

verus! {

/// Why scanning one file failed. Per-file failures never abort the scans of
/// sibling files.
#[derive(Clone, Copy, PartialEq, Eq, Structural, Debug)]
pub enum ScanFailure {
    /// The path does not exist, is unreadable, or is a directory.
    FileAccess,
    /// The file's content is not valid text.
    Decode,
}

/// Index of the first newline in `s`, or `s.len()` when there is none.
pub open spec fn first_newline(s: Seq<char>) -> int
    decreases s.len(),
{
    if s.len() == 0 {
        0
    } else if s[0] == '\n' {
        0
    } else {
        1 + first_newline(s.drop_first())
    }
}

/// `first_newline` points at the first newline: it is in bounds, nothing
/// before it is a newline, and it is a newline unless there is none.
pub proof fn lemma_first_newline(s: Seq<char>)
    ensures
        0 <= first_newline(s) <= s.len(),
        forall|j: int| 0 <= j < first_newline(s) ==> s[j] != '\n',
        first_newline(s) < s.len() ==> s[first_newline(s)] == '\n',
    decreases s.len(),
{
    if s.len() == 0 {
    } else if s[0] == '\n' {
    } else {
        lemma_first_newline(s.drop_first());
        assert forall|j: int| 0 <= j < first_newline(s) implies s[j] != '\n' by {
            if j > 0 {
                assert(s.drop_first()[j - 1] == s[j]);
            }
        }
        if first_newline(s) < s.len() {
            assert(s.drop_first()[first_newline(s) - 1] == s[first_newline(s)]);
        }
    }
}

/// A position with no newline before it, and a newline at it unless it is
/// the end, is exactly `first_newline`.
pub proof fn lemma_first_newline_is(s: Seq<char>, k: int)
    requires
        0 <= k <= s.len(),
        forall|j: int| 0 <= j < k ==> s[j] != '\n',
        k < s.len() ==> s[k] == '\n',
    ensures
        first_newline(s) == k,
{
    lemma_first_newline(s);
    if first_newline(s) < k {
        assert(s[first_newline(s)] == '\n');
        assert(false);
    }
    if first_newline(s) > k {
        assert(s[k] != '\n');
        assert(false);
    }
}

/// One trailing carriage return is removed: a `\r\n` sequence terminates a
/// line just as `\n` does.
pub open spec fn strip_carriage_return(l: Seq<char>) -> Seq<char> {
    if l.len() > 0 && l[l.len() - 1] == '\r' {
        l.drop_last()
    } else {
        l
    }
}

/// The lines of a text: maximal runs between newline-family delimiters, in
/// order. A final line without a trailing terminator is still yielded; the
/// empty text has no lines.
pub open spec fn split_lines_spec(s: Seq<char>) -> Seq<Seq<char>>
    decreases s.len(),
    via split_lines_spec_decreases
{
    if s.len() == 0 {
        Seq::<Seq<char>>::empty()
    } else if first_newline(s) >= s.len() {
        seq![s]
    } else {
        seq![strip_carriage_return(s.take(first_newline(s)))] + split_lines_spec(
            s.skip(first_newline(s) + 1),
        )
    }
}

#[via_fn]
proof fn split_lines_spec_decreases(s: Seq<char>) {
    lemma_first_newline(s);
}

/// Peeling the first line off a text whose first newline stands at `k`.
pub proof fn lemma_split_lines_step(s: Seq<char>, k: int)
    requires
        0 <= k < s.len(),
        s[k] == '\n',
        forall|j: int| 0 <= j < k ==> s[j] != '\n',
    ensures
        split_lines_spec(s) == seq![strip_carriage_return(s.take(k))] + split_lines_spec(
            s.skip(k + 1),
        ),
{
    lemma_first_newline_is(s, k);
}

/// A text without a newline is one single line, or no line at all when it
/// is empty.
pub proof fn lemma_split_lines_tail(s: Seq<char>)
    requires
        forall|j: int| 0 <= j < s.len() ==> s[j] != '\n',
    ensures
        s.len() == 0 ==> split_lines_spec(s) == Seq::<Seq<char>>::empty(),
        s.len() > 0 ==> split_lines_spec(s) == seq![s],
{
    lemma_first_newline_is(s, s.len() as int);
}

/// Splits a text into its lines, in order, delimiter removed. A `\n` or
/// `\r\n` ends a line; the final line needs no terminator; nothing else is
/// trimmed.
pub fn split_lines(content: &str) -> (lines: Vec<String>)
    ensures
        lines.deep_view() == split_lines_spec(content@),
{
    let n = content.unicode_len();
    let mut lines: Vec<String> = Vec::new();
    let mut start: usize = 0;
    let mut i: usize = 0;
    proof {
        assert(lines.deep_view() =~= Seq::<Seq<char>>::empty());
        assert(content@.skip(0) =~= content@);
        assert(Seq::<Seq<char>>::empty() + split_lines_spec(content@) =~= split_lines_spec(
            content@,
        ));
    }
    while i < n
        invariant
            n == content@.len(),
            0 <= start <= i <= n,
            forall|j: int| start <= j < i ==> content@[j] != '\n',
            split_lines_spec(content@) == lines.deep_view() + split_lines_spec(
                content@.skip(start as int),
            ),
        decreases n - i,
    {
        if content.get_char(i) == '\n' {
            let end: usize = if i > start && content.get_char(i - 1) == '\r' {
                i - 1
            } else {
                i
            };
            let ghost pre = lines.deep_view();
            let line = content.substring_char(start, end);
            lines.push(line.to_owned());
            proof {
                let suffix = content@.skip(start as int);
                let k = i - start;
                assert forall|j: int| 0 <= j < k implies suffix[j] != '\n' by {
                    assert(suffix[j] == content@[start + j]);
                }
                assert(suffix[k as int] == content@[i as int]);
                lemma_split_lines_step(suffix, k as int);
                assert(suffix.take(k as int) =~= content@.subrange(start as int, i as int));
                assert(strip_carriage_return(suffix.take(k as int)) =~= content@.subrange(
                    start as int,
                    end as int,
                ));
                assert(suffix.skip(k + 1) =~= content@.skip(i + 1));
                assert(lines.deep_view() =~= pre.push(line@));
                assert(pre.push(line@) + split_lines_spec(content@.skip(i + 1)) =~= pre + (seq![
                    strip_carriage_return(suffix.take(k as int)),
                ] + split_lines_spec(suffix.skip(k + 1))));
            }
            start = i + 1;
        }
        i += 1;
    }
    if start < n {
        let ghost pre = lines.deep_view();
        let line = content.substring_char(start, n);
        lines.push(line.to_owned());
        proof {
            let suffix = content@.skip(start as int);
            assert forall|j: int| 0 <= j < suffix.len() implies suffix[j] != '\n' by {
                assert(suffix[j] == content@[start + j]);
            }
            lemma_split_lines_tail(suffix);
            assert(suffix =~= content@.subrange(start as int, n as int));
            assert(lines.deep_view() =~= pre.push(line@));
            assert(pre.push(line@) =~= pre + seq![suffix]);
        }
    } else {
        proof {
            assert(content@.skip(start as int).len() == 0);
            assert(lines.deep_view() + split_lines_spec(content@.skip(start as int))
                =~= lines.deep_view());
        }
    }
    lines
}

/// The lines of `lines` that `m` accepts, kept in their original order.
pub open spec fn matched_lines(m: Matcher, lines: Seq<Seq<char>>) -> Seq<Seq<char>>
    decreases lines.len(),
{
    if lines.len() == 0 {
        Seq::<Seq<char>>::empty()
    } else {
        let rest = matched_lines(m, lines.drop_last());
        if m.spec_test(lines.last()) {
            rest.push(lines.last())
        } else {
            rest
        }
    }
}

/// What scanning a text with matcher `m` yields: the matching lines, in the
/// text's original line order.
pub open spec fn scan_hits(m: Matcher, content: Seq<char>) -> Seq<Seq<char>> {
    matched_lines(m, split_lines_spec(content))
}

/// The tagged outcome of scanning one file: the originating path, the
/// matched lines in original order, and a failure descriptor when the file
/// could not be read or decoded.
pub struct ScanResult {
    pub file_path: String,
    pub hit_lines: Vec<String>,
    pub failure: Option<ScanFailure>,
}

impl ScanResult {
    /// The path this result is tagged with.
    pub open spec fn path_view(&self) -> Seq<char> {
        self.file_path@
    }

    /// The matched lines, as sequences of characters.
    pub open spec fn hits_view(&self) -> Seq<Seq<char>> {
        self.hit_lines.deep_view()
    }

    /// The whole contract of scanning `content` at `path` with `m`: the
    /// result is tagged with the path, carries exactly the matching lines in
    /// order, and no failure.
    pub open spec fn is_scan_of(&self, path: Seq<char>, m: Matcher, content: Seq<char>) -> bool {
        &&& self.path_view() == path
        &&& self.hits_view() == scan_hits(m, content)
        &&& self.failure is None
    }

    /// A failure-tagged result: the path, no matched lines, the descriptor.
    /// Built at the worker boundary instead of unwinding past it.
    pub fn failed(path: &str, failure: ScanFailure) -> (r: ScanResult)
        ensures
            r.path_view() == path@,
            r.hits_view() == Seq::<Seq<char>>::empty(),
            r.failure == Some(failure),
    {
        let r = ScanResult { file_path: path.to_owned(), hit_lines: Vec::new(), failure: Some(failure) };
        proof {
            assert(r.hits_view() =~= Seq::<Seq<char>>::empty());
        }
        r
    }

    /// A copy that agrees with this result in path, matched lines and
    /// failure descriptor.
    pub fn duplicate(&self) -> (r: ScanResult)
        ensures
            r.path_view() == self.path_view(),
            r.hits_view() == self.hits_view(),
            r.failure == self.failure,
    {
        let mut hit_lines: Vec<String> = Vec::new();
        let mut i: usize = 0;
        while i < self.hit_lines.len()
            invariant
                0 <= i <= self.hit_lines@.len(),
                hit_lines.deep_view() == self.hit_lines.deep_view().take(i as int),
            decreases self.hit_lines@.len() - i,
        {
            let ghost pre = hit_lines.deep_view();
            hit_lines.push(self.hit_lines[i].clone());
            proof {
                assert(hit_lines.deep_view() =~= pre.push(self.hit_lines@[i as int]@));
                assert(self.hit_lines.deep_view().take(i + 1) =~= pre.push(
                    self.hit_lines@[i as int]@,
                ));
            }
            i += 1;
        }
        proof {
            assert(self.hit_lines.deep_view().take(self.hit_lines@.len() as int)
                =~= self.hit_lines.deep_view());
        }
        ScanResult {
            file_path: self.file_path.clone(),
            hit_lines,
            failure: self.failure,
        }
    }
}

/// Applies the matcher to every line of an already-read file content and
/// accumulates the matching lines in order, tagged with the file's path.
/// Zero matches is an empty sequence, not an error.
pub fn scan_content(file_path: &str, matcher: &Matcher, content: &str) -> (r: ScanResult)
    ensures
        r.is_scan_of(file_path@, *matcher, content@),
{
    let lines = split_lines(content);
    let mut hit_lines: Vec<String> = Vec::new();
    let mut i: usize = 0;
    while i < lines.len()
        invariant
            0 <= i <= lines@.len(),
            lines.deep_view() == split_lines_spec(content@),
            hit_lines.deep_view() == matched_lines(*matcher, lines.deep_view().take(i as int)),
        decreases lines@.len() - i,
    {
        let ghost pre = hit_lines.deep_view();
        let line = &lines[i];
        if matcher.test(line.as_str()) {
            hit_lines.push(line.clone());
        }
        proof {
            let lv = lines.deep_view();
            assert(lv.take(i + 1).drop_last() =~= lv.take(i as int));
            assert(lv.take(i + 1).last() == lv[i as int]);
            assert(lv[i as int] == line@);
            if matcher.spec_test(line@) {
                assert(hit_lines.deep_view() =~= pre.push(line@));
            }
        }
        i += 1;
    }
    proof {
        assert(lines.deep_view().take(lines@.len() as int) =~= lines.deep_view());
    }
    ScanResult { file_path: file_path.to_owned(), hit_lines, failure: None }
}

/// Scanning is deterministic: two results of scanning the same content at
/// the same path with the same matcher agree in every observable part. No
/// hidden state carries between runs.
pub proof fn lemma_scan_deterministic(
    r1: ScanResult,
    r2: ScanResult,
    path: Seq<char>,
    m: Matcher,
    content: Seq<char>,
)
    requires
        r1.is_scan_of(path, m, content),
        r2.is_scan_of(path, m, content),
    ensures
        r1.path_view() == r2.path_view(),
        r1.hits_view() == r2.hits_view(),
        r1.failure == r2.failure,
{
}

/// An empty file yields an empty matched sequence, whatever the matcher.
pub proof fn lemma_empty_content_no_hits(m: Matcher)
    ensures
        scan_hits(m, Seq::<char>::empty()) == Seq::<Seq<char>>::empty(),
{
}

} // verus!
