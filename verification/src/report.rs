use vstd::prelude::*;
use vstd::string::{StrSliceExecFns, StringExecFns};

use crate::scanner::{ScanFailure, ScanResult};

verus! {

/// Character-for-character string equality.
pub fn str_eq(a: &str, b: &str) -> (r: bool)
    ensures
        r == (a@ == b@),
{
    let n = a.unicode_len();
    let m = b.unicode_len();
    if n != m {
        return false;
    }
    let mut i: usize = 0;
    while i < n
        invariant
            n == a@.len(),
            n == b@.len(),
            0 <= i <= n,
            forall|j: int| 0 <= j < i ==> a@[j] == b@[j],
        decreases n - i,
    {
        if a.get_char(i) != b.get_char(i) {
            return false;
        }
        i += 1;
    }
    proof {
        assert(a@ =~= b@);
    }
    true
}

/// The first result tagged with `path`, if any.
pub open spec fn find_result(results: Seq<ScanResult>, path: Seq<char>) -> Option<ScanResult>
    decreases results.len(),
{
    if results.len() == 0 {
        None::<ScanResult>
    } else if results[0].path_view() == path {
        Some(results[0])
    } else {
        find_result(results.drop_first(), path)
    }
}

proof fn lemma_find_result_none(results: Seq<ScanResult>, path: Seq<char>)
    requires
        forall|t: int| 0 <= t < results.len() ==> (#[trigger] results[t]).path_view() != path,
    ensures
        find_result(results, path) is None,
    decreases results.len(),
{
    if results.len() > 0 {
        assert(results[0].path_view() != path);
        assert forall|t: int| 0 <= t < results.drop_first().len() implies (#[trigger] results.drop_first()[t]).path_view() != path by {
            assert(results.drop_first()[t] == results[t + 1]);
        }
        lemma_find_result_none(results.drop_first(), path);
    }
}

proof fn lemma_find_result_first(results: Seq<ScanResult>, path: Seq<char>, j: int)
    requires
        0 <= j < results.len(),
        results[j].path_view() == path,
        forall|t: int| 0 <= t < j ==> (#[trigger] results[t]).path_view() != path,
    ensures
        find_result(results, path) == Some(results[j]),
    decreases results.len(),
{
    if j == 0 {
    } else {
        assert(results[0].path_view() != path);
        assert(results.drop_first()[j - 1] == results[j]);
        assert forall|t: int| 0 <= t < j - 1 implies (#[trigger] results.drop_first()[t]).path_view() != path by {
            assert(results.drop_first()[t] == results[t + 1]);
        }
        lemma_find_result_first(results.drop_first(), path, j - 1);
    }
}

/// Index of the first result tagged with `path`, if any.
fn find_for_path(results: &Vec<ScanResult>, path: &str) -> (r: Option<usize>)
    ensures
        r matches Some(j) ==> j < results@.len() && find_result(results@, path@) == Some(
            results@[j as int],
        ),
        r is None ==> find_result(results@, path@) is None,
{
    let mut j: usize = 0;
    while j < results.len()
        invariant
            0 <= j <= results@.len(),
            forall|t: int| 0 <= t < j ==> (#[trigger] results@[t]).path_view() != path@,
        decreases results@.len() - j,
    {
        if str_eq(results[j].file_path.as_str(), path) {
            proof {
                lemma_find_result_first(results@, path@, j as int);
            }
            return Some(j);
        }
        j += 1;
    }
    proof {
        lemma_find_result_none(results@, path@);
    }
    None
}

/// Every input path has a result tagged with it: the aggregation invariant
/// a complete run establishes, one result per input file.
pub open spec fn covers(results: Seq<ScanResult>, paths: Seq<String>) -> bool {
    forall|i: int| 0 <= i < paths.len() ==> find_result(results, (#[trigger] paths[i])@) is Some
}

/// Checks the aggregation invariant: does every path have a result?
pub fn has_result_for_each(paths: &Vec<String>, results: &Vec<ScanResult>) -> (r: bool)
    ensures
        r == covers(results@, paths@),
{
    let mut i: usize = 0;
    while i < paths.len()
        invariant
            0 <= i <= paths@.len(),
            forall|k: int| 0 <= k < i ==> find_result(results@, (#[trigger] paths@[k])@) is Some,
        decreases paths@.len() - i,
    {
        if find_for_path(results, paths[i].as_str()).is_none() {
            return false;
        }
        i += 1;
    }
    true
}

/// The parts of a result a caller can observe agree.
pub open spec fn same_result(a: ScanResult, b: ScanResult) -> bool {
    &&& a.path_view() == b.path_view()
    &&& a.hits_view() == b.hits_view()
    &&& a.failure == b.failure
}

/// Reorders per-worker results into the caller's input file order. Each
/// output slot is filled with the result tagged with that slot's path —
/// association is by the embedded identifier, never by arrival order.
pub fn order_results(paths: &Vec<String>, results: &Vec<ScanResult>) -> (ordered: Vec<ScanResult>)
    requires
        covers(results@, paths@),
    ensures
        ordered@.len() == paths@.len(),
        forall|i: int| 0 <= i < paths@.len() ==> (find_result(results@, paths@[i]@) matches Some(r)
            && same_result(#[trigger] ordered@[i], r)),
{
    let mut ordered: Vec<ScanResult> = Vec::new();
    let mut i: usize = 0;
    while i < paths.len()
        invariant
            covers(results@, paths@),
            0 <= i <= paths@.len(),
            ordered@.len() == i,
            forall|k: int| 0 <= k < i ==> (find_result(results@, paths@[k]@) matches Some(r)
                && same_result(#[trigger] ordered@[k], r)),
        decreases paths@.len() - i,
    {
        match find_for_path(results, paths[i].as_str()) {
            Some(j) => {
                ordered.push(results[j].duplicate());
            },
            None => {
                proof {
                    assert(find_result(results@, paths@[i as int]@) is Some);
                    assert(false);
                }
            },
        }
        i += 1;
    }
    ordered
}

/// The matched lines, each followed by a newline.
pub open spec fn render_lines(lines: Seq<Seq<char>>) -> Seq<char>
    decreases lines.len(),
{
    if lines.len() == 0 {
        Seq::<char>::empty()
    } else {
        render_lines(lines.drop_last()) + lines.last() + "\n"@
    }
}

/// The report block of one result: the path on its own line, each matched
/// line verbatim, then a blank separator. A result with no matches or with
/// a failure produces no block.
pub open spec fn render_result(r: ScanResult) -> Seq<char> {
    if r.failure is None && r.hits_view().len() > 0 {
        r.path_view() + "\n"@ + render_lines(r.hits_view()) + "\n"@
    } else {
        Seq::<char>::empty()
    }
}

/// The whole match report: each result's block, in the order given.
pub open spec fn render_report(results: Seq<ScanResult>) -> Seq<char>
    decreases results.len(),
{
    if results.len() == 0 {
        Seq::<char>::empty()
    } else {
        render_report(results.drop_last()) + render_result(results.last())
    }
}

/// A failed or matchless result produces no output block.
pub proof fn lemma_silent_result(r: ScanResult)
    requires
        r.hits_view().len() == 0 || r.failure is Some,
    ensures
        render_result(r) == Seq::<char>::empty(),
{
}

/// The report of a run is the concatenation of each result's own block: one
/// result's outcome never disturbs another's part of the report.
pub proof fn lemma_report_concat(a: Seq<ScanResult>, b: Seq<ScanResult>)
    ensures
        render_report(a + b) == render_report(a) + render_report(b),
    decreases b.len(),
{
    if b.len() == 0 {
        assert(a + b =~= a);
        assert(render_report(a) + Seq::<char>::empty() =~= render_report(a));
    } else {
        lemma_report_concat(a, b.drop_last());
        assert((a + b).drop_last() =~= a + b.drop_last());
        assert((a + b).last() == b.last());
        assert((render_report(a) + render_report(b.drop_last())) + render_result(b.last())
            =~= render_report(a) + (render_report(b.drop_last()) + render_result(b.last())));
    }
}

/// Renders the match report of `results`, in the order given. Only results
/// with at least one matched line and no failure contribute a block.
pub fn report(results: &Vec<ScanResult>) -> (out: String)
    ensures
        out@ == render_report(results@),
{
    let mut out = String::new();
    let mut i: usize = 0;
    proof {
        assert(results@.take(0) =~= Seq::<ScanResult>::empty());
    }
    while i < results.len()
        invariant
            0 <= i <= results@.len(),
            out@ == render_report(results@.take(i as int)),
        decreases results@.len() - i,
    {
        let r = &results[i];
        if r.failure.is_none() && r.hit_lines.len() > 0 {
            out.append(r.file_path.as_str());
            out.append("\n");
            let ghost base = out@;
            let mut k: usize = 0;
            proof {
                assert(r.hits_view().take(0) =~= Seq::<Seq<char>>::empty());
            }
            while k < r.hit_lines.len()
                invariant
                    0 <= k <= r.hit_lines@.len(),
                    out@ == base + render_lines(r.hits_view().take(k as int)),
                decreases r.hit_lines@.len() - k,
            {
                out.append(r.hit_lines[k].as_str());
                out.append("\n");
                proof {
                    let hv = r.hits_view();
                    assert(hv.take(k + 1).drop_last() =~= hv.take(k as int));
                    assert(hv.take(k + 1).last() == hv[k as int]);
                    assert(hv[k as int] == r.hit_lines@[k as int]@);
                    assert(out@ =~= base + render_lines(hv.take(k + 1)));
                }
                k += 1;
            }
            out.append("\n");
            proof {
                assert(r.hits_view().take(r.hit_lines@.len() as int) =~= r.hits_view());
                assert(out@ =~= render_report(results@.take(i as int)) + render_result(
                    results@[i as int],
                ));
            }
        }
        proof {
            assert(results@.take(i + 1).drop_last() =~= results@.take(i as int));
            assert(results@.take(i + 1).last() == results@[i as int]);
            if !(results@[i as int].failure is None && results@[i as int].hits_view().len() > 0) {
                assert(out@ =~= render_report(results@.take(i as int)) + render_result(
                    results@[i as int],
                ));
            }
        }
        i += 1;
    }
    proof {
        assert(results@.take(results@.len() as int) =~= results@);
    }
    out
}

/// The reason a file failed, in words.
pub open spec fn failure_text(f: ScanFailure) -> Seq<char> {
    match f {
        ScanFailure::FileAccess => "cannot open file"@,
        ScanFailure::Decode => "file content is not valid text"@,
    }
}

/// The reason a file failed, in words.
pub fn describe_failure(f: ScanFailure) -> (s: String)
    ensures
        s@ == failure_text(f),
{
    match f {
        ScanFailure::FileAccess => "cannot open file".to_owned(),
        ScanFailure::Decode => "file content is not valid text".to_owned(),
    }
}

/// The diagnostic lines of a run: one line, `path: reason`, per failing
/// file, in the order given; successful files contribute nothing.
pub open spec fn render_diagnostics(results: Seq<ScanResult>) -> Seq<char>
    decreases results.len(),
{
    if results.len() == 0 {
        Seq::<char>::empty()
    } else {
        render_diagnostics(results.drop_last()) + (match results.last().failure {
            Some(f) => results.last().path_view() + ": "@ + failure_text(f) + "\n"@,
            None => Seq::<char>::empty(),
        })
    }
}

/// Renders the diagnostics of `results`, kept apart from the match report
/// so the two never interleave.
pub fn diagnostics(results: &Vec<ScanResult>) -> (out: String)
    ensures
        out@ == render_diagnostics(results@),
{
    let mut out = String::new();
    let mut i: usize = 0;
    proof {
        assert(results@.take(0) =~= Seq::<ScanResult>::empty());
    }
    while i < results.len()
        invariant
            0 <= i <= results@.len(),
            out@ == render_diagnostics(results@.take(i as int)),
        decreases results@.len() - i,
    {
        let r = &results[i];
        match r.failure {
            Some(f) => {
                out.append(r.file_path.as_str());
                out.append(": ");
                let text = describe_failure(f);
                out.append(text.as_str());
                out.append("\n");
            },
            None => {},
        }
        proof {
            assert(results@.take(i + 1).drop_last() =~= results@.take(i as int));
            assert(results@.take(i + 1).last() == results@[i as int]);
            assert(out@ =~= render_diagnostics(results@.take(i + 1)));
        }
        i += 1;
    }
    proof {
        assert(results@.take(results@.len() as int) =~= results@);
    }
    out
}

/// Some result carries at least one matched line and no failure.
pub open spec fn spec_any_match(results: Seq<ScanResult>) -> bool {
    exists|i: int| 0 <= i < results.len() && (#[trigger] results[i]).failure is None
        && results[i].hits_view().len() > 0
}

/// Some result carries a failure descriptor.
pub open spec fn spec_any_failure(results: Seq<ScanResult>) -> bool {
    exists|i: int| 0 <= i < results.len() && (#[trigger] results[i]).failure is Some
}

/// Whether any file matched at all, for the exit-code decision.
pub fn any_match(results: &Vec<ScanResult>) -> (r: bool)
    ensures
        r == spec_any_match(results@),
{
    let mut i: usize = 0;
    while i < results.len()
        invariant
            0 <= i <= results@.len(),
            forall|k: int| 0 <= k < i ==> !((#[trigger] results@[k]).failure is None
                && results@[k].hits_view().len() > 0),
        decreases results@.len() - i,
    {
        if results[i].failure.is_none() && results[i].hit_lines.len() > 0 {
            return true;
        }
        i += 1;
    }
    false
}

/// Whether any file failed at all, for the exit-code decision.
pub fn any_failure(results: &Vec<ScanResult>) -> (r: bool)
    ensures
        r == spec_any_failure(results@),
{
    let mut i: usize = 0;
    while i < results.len()
        invariant
            0 <= i <= results@.len(),
            forall|k: int| 0 <= k < i ==> !((#[trigger] results@[k]).failure is Some),
        decreases results@.len() - i,
    {
        if results[i].failure.is_some() {
            return true;
        }
        i += 1;
    }
    false
}

/// The process exit status: 0 when something matched and nothing failed, 1
/// when nothing matched and nothing failed, 2 as soon as anything failed.
pub fn exit_code(any_match: bool, any_failure: bool) -> (c: i32)
    ensures
        any_failure ==> c == 2,
        !any_failure && any_match ==> c == 0,
        !any_failure && !any_match ==> c == 1,
{
    if any_failure {
        2
    } else if any_match {
        0
    } else {
        1
    }
}

} // verus!
