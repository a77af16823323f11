use vstd::prelude::*;

use crate::ascii_tree::{tree_text, Tree};
use crate::formats::tree::{categories_fit, draw_tree, tree_from_test_result};
use crate::test_case::{shown_id, TestCase};
use crate::test_result::{result_passes, RunError, TestResult};
use crate::utils::string::{digits_of, natural_text};

verus! {

/// How results are reported.
pub enum ReportFormat {
    Summary { show_all_tests: bool },
    Tap,
}

pub struct ReportConfig {
    pub number_of_tests: usize,
    pub format: ReportFormat,
}

/// A test case with the outcome of its run.
pub struct RunResult {
    pub test_case: TestCase,
    pub result: Result<TestResult, RunError>,
}

/// A run passes when it could be run and no channel differs.
pub open spec fn run_passes(r: RunResult) -> bool {
    r.result is Ok && result_passes(r.result->Ok_0)
}

impl RunResult {
    pub fn is_success(&self) -> (r: bool)
        ensures
            r == run_passes(*self),
    {
        match &self.result {
            Ok(test_result) => test_result.is_success(),
            Err(_) => false,
        }
    }
}

/// The number of passing runs among `s`.
pub open spec fn passed_count(s: Seq<bool>) -> int
    decreases s.len(),
{
    if s.len() == 0 {
        0
    } else {
        passed_count(s.drop_last()) + (if s.last() {
            1int
        } else {
            0
        })
    }
}

pub open spec fn outcomes(s: Seq<RunResult>) -> Seq<bool> {
    s.map_values(|r: RunResult| run_passes(r))
}

proof fn lemma_passed_count_bound(s: Seq<bool>)
    ensures
        0 <= passed_count(s) <= s.len(),
    decreases s.len(),
{
    if s.len() > 0 {
        lemma_passed_count_bound(s.drop_last());
    }
}

pub fn count_passed(run_results: &Vec<RunResult>) -> (r: usize)
    ensures
        r == passed_count(outcomes(run_results@)),
{
    let ghost all = outcomes(run_results@);
    let mut n: usize = 0;
    let mut i: usize = 0;
    while i < run_results.len()
        invariant
            all == outcomes(run_results@),
            i <= run_results@.len(),
            n == passed_count(all.subrange(0, i as int)),
        decreases run_results@.len() - i,
    {
        assert(all.subrange(0, i + 1).drop_last() =~= all.subrange(0, i as int));
        proof {
            lemma_passed_count_bound(all.subrange(0, i as int));
        }
        if run_results[i].is_success() {
            n = n + 1;
        }
        i = i + 1;
    }
    assert(all.subrange(0, i as int) =~= all);
    n
}

/// `placed` holds, at each index, the item that `tagged` tags with it; the
/// tags are distinct and cover the indices exactly.
pub open spec fn is_placement<T>(tagged: Seq<(usize, T)>, placed: Seq<T>) -> bool {
    &&& placed.len() == tagged.len()
    &&& forall|i: int| 0 <= i < tagged.len() ==> (#[trigger] tagged[i]).0 < placed.len()
        && placed[tagged[i].0 as int] == tagged[i].1
    &&& forall|i: int, j: int|
        0 <= i < j < tagged.len() ==> (#[trigger] tagged[i]).0 != (#[trigger] tagged[j]).0
    &&& forall|k: int| 0 <= k < placed.len() ==> #[trigger] has_tag(tagged, k)
}

/// Some item of `tagged` carries the tag `k`.
pub open spec fn has_tag<T>(tagged: Seq<(usize, T)>, k: int) -> bool {
    exists|i: int| 0 <= i < tagged.len() && (#[trigger] tagged[i]).0 == k
}

/// Puts items that were tagged with their input index, in whatever order
/// they came back, into input order.
pub fn in_input_order<T>(tagged: Vec<(usize, T)>) -> (r: Vec<T>)
    requires
        forall|i: int| 0 <= i < tagged@.len() ==> (#[trigger] tagged@[i]).0 < tagged@.len(),
        forall|i: int, j: int|
            0 <= i < j < tagged@.len() ==> (#[trigger] tagged@[i]).0 != (#[trigger] tagged@[j]).0,
        forall|k: int| 0 <= k < tagged@.len() ==> #[trigger] has_tag(tagged@, k),
    ensures
        is_placement(tagged@, r@),
{
    let ghost all = tagged@;
    let n = tagged.len();
    let mut slots: Vec<Option<T>> = Vec::new();
    let mut i: usize = 0;
    while i < n
        invariant
            i <= n,
            slots@.len() == i,
            forall|k: int| 0 <= k < i ==> slots@[k] is None,
        decreases n - i,
    {
        slots.push(None);
        i = i + 1;
    }
    let mut tagged = tagged;
    let mut j: usize = 0;
    while j < n
        invariant
            n == all.len(),
            j <= n,
            slots@.len() == n,
            tagged@ == all.subrange(j as int, n as int),
            forall|i: int| 0 <= i < n ==> (#[trigger] all[i]).0 < n,
            forall|a: int, b: int| 0 <= a < b < n ==> (#[trigger] all[a]).0 != (#[trigger] all[b]).0,
            forall|i: int| 0 <= i < j ==> slots@[(#[trigger] all[i]).0 as int] == Some(all[i].1),
            forall|k: int| 0 <= k < n ==> (slots@[k] is Some <==> exists|i: int| 0 <= i < j && (#[trigger] all[i]).0 == k),
        decreases n - j,
    {
        assert(tagged@[0] == all[j as int]);
        let (index, item) = tagged.remove(0);
        assert(tagged@ =~= all.subrange(j + 1, n as int));
        slots[index] = Some(item);
        assert forall|k: int| 0 <= k < n implies (slots@[k] is Some <==> exists|i: int| 0 <= i < j + 1 && (#[trigger] all[i]).0 == k) by {
            if k == index as int {
                assert(all[j as int].0 == k);
            }
        }
        j = j + 1;
    }
    let mut out: Vec<T> = Vec::new();
    let mut slots = slots;
    let ghost filled = slots@;
    let mut k: usize = 0;
    while k < n
        invariant
            n == all.len(),
            k <= n,
            filled.len() == n,
            slots@ == filled.subrange(k as int, n as int),
            forall|i: int| 0 <= i < n ==> (#[trigger] all[i]).0 < n,
            forall|q: int| 0 <= q < n ==> #[trigger] has_tag(all, q),
            forall|i: int| 0 <= i < n ==> filled[(#[trigger] all[i]).0 as int] == Some(all[i].1),
            forall|q: int| 0 <= q < n ==> (filled[q] is Some <==> exists|i: int| 0 <= i < n && (#[trigger] all[i]).0 == q),
            out@.len() == k,
            forall|q: int| 0 <= q < k ==> filled[q] == Some(#[trigger] out@[q]),
        decreases n - k,
    {
        assert(slots@[0] == filled[k as int]);
        let slot = slots.remove(0);
        assert(slots@ =~= filled.subrange(k + 1, n as int));
        match slot {
            Some(item) => {
                out.push(item);
            },
            None => {
                assert(false) by {
                    assert(has_tag(all, k as int));
                }
                return out;
            },
        }
        k = k + 1;
    }
    assert forall|i: int| 0 <= i < all.len() implies (#[trigger] all[i]).0 < out@.len() && out@[all[i].0 as int] == all[i].1 by {
        assert(filled[all[i].0 as int] == Some(all[i].1));
    }

    out
}

/// Results put back in input order do not depend on the order in which the
/// runs finished: two runs of the same tests that yield the same outcome
/// for each test give the same ordered outcomes and the same number of passes.
pub proof fn lemma_order_free(a: Seq<(usize, bool)>, b: Seq<(usize, bool)>, ra: Seq<bool>, rb: Seq<bool>)
    requires
        is_placement(a, ra),
        is_placement(b, rb),
        a.to_set() == b.to_set(),
    ensures
        ra == rb,
        passed_count(ra) == passed_count(rb),
{
    assert(ra.len() == rb.len()) by {
        lemma_same_length(a, b, ra, rb);
    }
    assert forall|q: int| 0 <= q < ra.len() implies ra[q] == rb[q] by {
        assert(has_tag(a, q));
        let i = choose|i: int| 0 <= i < a.len() && (#[trigger] a[i]).0 == q;
        assert(a.to_set().contains(a[i]));
        assert(b.to_set().contains(a[i]));
        let k = choose|k: int| 0 <= k < b.len() && b[k] == a[i];
        assert(b[k].0 == q);
    }
    assert(ra =~= rb);
}

proof fn lemma_same_length(a: Seq<(usize, bool)>, b: Seq<(usize, bool)>, ra: Seq<bool>, rb: Seq<bool>)
    requires
        is_placement(a, ra),
        is_placement(b, rb),
        a.to_set() == b.to_set(),
    ensures
        ra.len() == rb.len(),
{
    if ra.len() < rb.len() {
        let q = rb.len() - 1;
        assert(has_tag(b, q));
        let k = choose|k: int| 0 <= k < b.len() && (#[trigger] b[k]).0 == q;
        assert(b.to_set().contains(b[k]));
        assert(a.to_set().contains(b[k]));
        let i = choose|i: int| 0 <= i < a.len() && a[i] == b[k];
        assert(a[i].0 < ra.len());
    } else if ra.len() > rb.len() {
        let q = ra.len() - 1;
        assert(has_tag(a, q));
        let i = choose|i: int| 0 <= i < a.len() && (#[trigger] a[i]).0 == q;
        assert(a.to_set().contains(a[i]));
        assert(b.to_set().contains(a[i]));
        let k = choose|k: int| 0 <= k < b.len() && b[k] == a[i];
        assert(b[k].0 < rb.len());
    }
}

// SUMMARY

/// How a test is named in the summary: its id, and its description after ` - `.
pub open spec fn summary_message_of(t: TestCase) -> Seq<char> {
    match t.description {
        Some(d) => shown_id(t.source_file@, t.id@) + " - "@ + d@,
        None => shown_id(t.source_file@, t.id@),
    }
}

/// How a test is named in TAP: its id, and its description after ` # `.
pub open spec fn tap_message_of(t: TestCase) -> Seq<char> {
    match t.description {
        Some(d) => shown_id(t.source_file@, t.id@) + " # "@ + d@,
        None => shown_id(t.source_file@, t.id@),
    }
}

pub fn summary_message(test_case: &TestCase) -> (r: String)
    ensures
        r@ == summary_message_of(*test_case),
{
    let mut out = test_case.id();
    match &test_case.description {
        Some(description) => {
            out.append(" - ");
            out.append(description.as_str());
        },
        None => {},
    }
    out
}

pub fn tap_message(test_case: &TestCase) -> (r: String)
    ensures
        r@ == tap_message_of(*test_case),
{
    let mut out = test_case.id();
    match &test_case.description {
        Some(description) => {
            out.append(" # ");
            out.append(description.as_str());
        },
        None => {},
    }
    out
}

/// The progress mark of one run: `.` for a pass, `F` otherwise.
pub fn progress_mark(result: &Result<TestResult, RunError>) -> (r: &'static str)
    ensures
        r@ == (if result is Ok && result_passes(result->Ok_0) {
            "."@
        } else {
            "F"@
        }),
{
    match result {
        Ok(test_result) => {
            if test_result.is_success() {
                "."
            } else {
                "F"
            }
        },
        Err(_) => "F",
    }
}

/// The indices of the runs that the summary lists, in order: all of them,
/// or the failures only.
pub open spec fn listed_indices(show_all_tests: bool, s: Seq<bool>) -> Seq<usize>
    decreases s.len(),
{
    if s.len() == 0 {
        Seq::empty()
    } else {
        let init = listed_indices(show_all_tests, s.drop_last());
        if show_all_tests || !s.last() {
            init.push((s.len() - 1) as usize)
        } else {
            init
        }
    }
}

pub fn listed_results(show_all_tests: bool, run_results: &Vec<RunResult>) -> (r: Vec<usize>)
    ensures
        r@ == listed_indices(show_all_tests, outcomes(run_results@)),
{
    let ghost all = outcomes(run_results@);
    let mut out: Vec<usize> = Vec::new();
    let mut k: usize = 0;
    while k < run_results.len()
        invariant
            all == outcomes(run_results@),
            k <= run_results@.len(),
            out@ == listed_indices(show_all_tests, all.subrange(0, k as int)),
        decreases run_results@.len() - k,
    {
        assert(all.subrange(0, k + 1).drop_last() =~= all.subrange(0, k as int));
        if show_all_tests || !run_results[k].is_success() {
            out.push(k);
        }
        k = k + 1;
    }
    assert(all.subrange(0, k as int) =~= all);
    out
}

/// The summary entry of one run: a tick for a pass; for a failure, a tree
/// of the channels that differ, or a note that the test could not run.
pub fn summary_result_text(run_result: &RunResult) -> (r: String)
    ensures
        run_passes(*run_result) ==> r@ == "✅ "@ + summary_message_of(run_result.test_case) + "\n"@,
        run_result.result is Err ==> r@ == "❌ "@ + summary_message_of(run_result.test_case)
            + "\nFailed to run test\n"@,
        run_result.result is Ok && !run_passes(*run_result) ==> exists|t: Tree|
            r@ == tree_text(t, Seq::empty()) && (t matches Tree::Node(title, cs) && title@ == "❌ "@
                + summary_message_of(run_result.test_case) && categories_fit(
                cs@,
                run_result.result->Ok_0,
            )),
{
    let message = summary_message(&run_result.test_case);
    if run_result.is_success() {
        let mut out = String::from_str("✅ ");
        out.append(message.as_str());
        out.append("\n");
        out
    } else {
        match &run_result.result {
            Ok(result) => {
                let mut header = String::from_str("❌ ");
                header.append(message.as_str());
                let tree = Tree::Node(header, tree_from_test_result(result));
                draw_tree(&tree)
            },
            Err(_) => {
                let mut out = String::from_str("❌ ");
                out.append(message.as_str());
                out.append("\nFailed to run test\n");
                out
            },
        }
    }
}

/// The closing line of the summary.
pub fn summary_line(passed: usize, failed: usize) -> (r: String)
    ensures
        r@ == "Test result: "@ + (if failed == 0 {
            "OK"@
        } else {
            "FAIL"@
        }) + " ("@ + digits_of(passed as nat) + " passed, "@ + digits_of(failed as nat)
            + " failed)"@,
{
    let mut out = String::from_str("Test result: ");
    if failed == 0 {
        out.append("OK");
    } else {
        out.append("FAIL");
    }
    out.append(" (");
    out.append(natural_text(passed as u64).as_str());
    out.append(" passed, ");
    out.append(natural_text(failed as u64).as_str());
    out.append(" failed)");
    out
}

/// The exit code of a whole run: 2 when no document was found, 1 when a
/// document had errors or a test failed, 0 otherwise.
pub fn process_exit_code(any_documents: bool, any_failed_configs: bool, all_tests_passed: bool) -> (r: i32)
    ensures
        r == (if !any_documents {
            2i32
        } else if any_failed_configs || !all_tests_passed {
            1i32
        } else {
            0i32
        }),
{
    if !any_documents {
        2
    } else if any_failed_configs || !all_tests_passed {
        1
    } else {
        0
    }
}

} // verus!
