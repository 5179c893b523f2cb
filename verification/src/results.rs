//! The final imported occurrence of each test kind, and the appliance outcome
//! derived from those final results.
use crate::model::{kind_key, same_kind, ApplianceStatus, TestResult, TestStatus};
use vstd::prelude::*;

verus! {

/// No later result in `tests` has the same kind as the one at `i`.
pub open spec fn is_latest(tests: Seq<TestResult>, i: int) -> bool {
    forall|j: int| i < j < tests.len() ==> kind_key(#[trigger] tests[j].kind) != kind_key(tests[i].kind)
}

/// The positions below `n` that hold the final occurrence of their kind, in order.
pub open spec fn latest_indices(tests: Seq<TestResult>, n: int) -> Seq<usize>
    decreases n,
{
    if n <= 0 {
        seq![]
    } else {
        let rest = latest_indices(tests, n - 1);
        if is_latest(tests, n - 1) {
            rest.push((n - 1) as usize)
        } else {
            rest
        }
    }
}

/// Whether the result at `i` is the final occurrence of its kind.
pub fn is_latest_at(tests: &[TestResult], i: usize) -> (r: bool)
    requires
        i < tests@.len(),
    ensures
        r == is_latest(tests@, i as int),
{
    let mut j = i;
    while j < tests.len()
        invariant
            i <= j <= tests@.len(),
            forall|k: int| i < k < j ==> kind_key(#[trigger] tests@[k].kind) != kind_key(tests@[i as int].kind),
        decreases tests.len() - j,
    {
        if j != i && same_kind(&tests[j].kind, &tests[i].kind) {
            return false;
        }
        j = j + 1;
    }
    true
}

/// Returns the final occurrence of each imported test kind in source order.
pub fn latest_test_indices(tests: &[TestResult]) -> (r: Vec<usize>)
    ensures
        r@ == latest_indices(tests@, tests@.len() as int),
{
    let mut out: Vec<usize> = Vec::new();
    let mut i: usize = 0;
    while i < tests.len()
        invariant
            0 <= i <= tests@.len(),
            out@ == latest_indices(tests@, i as int),
        decreases tests.len() - i,
    {
        if is_latest_at(tests, i) {
            out.push(i);
        }
        i = i + 1;
    }
    out
}

pub proof fn lemma_latest_indices_bound(tests: Seq<TestResult>, n: int)
    requires
        n <= tests.len(),
    ensures
        forall|k: int|
            0 <= k < latest_indices(tests, n).len() ==> #[trigger] latest_indices(tests, n)[k]
                < n,
    decreases n,
{
    if n > 0 {
        lemma_latest_indices_bound(tests, n - 1);
        let rest = latest_indices(tests, n - 1);
        assert forall|k: int| 0 <= k < latest_indices(tests, n).len() implies #[trigger] latest_indices(
            tests,
            n,
        )[k] < n by {
            if k < rest.len() {
                assert(latest_indices(tests, n)[k] == rest[k]);
            }
        }
    }
}

/// Returns the final occurrence of each imported test kind in source order.
pub fn latest_tests(tests: &[TestResult]) -> (r: Vec<&TestResult>)
    ensures
        r@.len() == latest_indices(tests@, tests@.len() as int).len(),
        forall|k: int|
            0 <= k < r@.len() ==> *r@[k] == tests@[latest_indices(tests@, tests@.len() as int)[k] as int],
{
    let indices = latest_test_indices(tests);
    proof {
        lemma_latest_indices_bound(tests@, tests@.len() as int);
    }
    let mut out: Vec<&TestResult> = Vec::new();
    let mut k: usize = 0;
    while k < indices.len()
        invariant
            indices@ == latest_indices(tests@, tests@.len() as int),
            forall|m: int| 0 <= m < indices@.len() ==> #[trigger] indices@[m] < tests@.len(),
            0 <= k <= indices@.len(),
            out@.len() == k,
            forall|m: int| 0 <= m < k ==> *out@[m] == tests@[indices@[m] as int],
        decreases indices.len() - k,
    {
        out.push(&tests[indices[k]]);
        k = k + 1;
    }
    out
}

/// Some final result has the given status.
pub open spec fn latest_has_status(tests: Seq<TestResult>, status: TestStatus) -> bool {
    exists|i: int| 0 <= i < tests.len() && is_latest(tests, i) && #[trigger] tests[i].status == status
}

/// Fail when a final result failed, pass when none failed and one passed,
/// and no outcome when every final result was skipped.
pub open spec fn overall_status(tests: Seq<TestResult>) -> Option<ApplianceStatus> {
    if latest_has_status(tests, TestStatus::Fail) {
        Some(ApplianceStatus::Fail)
    } else if latest_has_status(tests, TestStatus::Pass) {
        Some(ApplianceStatus::Pass)
    } else {
        None
    }
}

impl ApplianceStatus {
    pub fn from_tests(tests: &[TestResult]) -> (r: Option<ApplianceStatus>)
        ensures
            r == overall_status(tests@),
    {
        let mut any_fail = false;
        let mut any_pass = false;
        let mut i: usize = 0;
        while i < tests.len()
            invariant
                0 <= i <= tests@.len(),
                any_fail == exists|k: int|
                    0 <= k < i && is_latest(tests@, k) && #[trigger] tests@[k].status
                        == TestStatus::Fail,
                any_pass == exists|k: int|
                    0 <= k < i && is_latest(tests@, k) && #[trigger] tests@[k].status
                        == TestStatus::Pass,
            decreases tests.len() - i,
        {
            if is_latest_at(tests, i) {
                if tests[i].status == TestStatus::Fail {
                    any_fail = true;
                } else if tests[i].status == TestStatus::Pass {
                    any_pass = true;
                }
            }
            i = i + 1;
        }
        if any_fail {
            Some(ApplianceStatus::Fail)
        } else if any_pass {
            Some(ApplianceStatus::Pass)
        } else {
            None
        }
    }
}

/// Only the final result of each kind decides the outcome: appending a result
/// of a kind that is already present changes the outcome exactly as if the
/// earlier result of that kind had been removed.
pub proof fn lemma_status_ignores_superseded(tests: Seq<TestResult>, i: int)
    requires
        0 <= i < tests.len(),
        !is_latest(tests, i),
    ensures
        overall_status(tests) == overall_status(tests.remove(i)),
{
    let t = tests.remove(i);
    assert forall|s: TestStatus| latest_has_status(tests, s) == latest_has_status(t, s) by {
        if latest_has_status(tests, s) {
            let k = choose|k: int|
                0 <= k < tests.len() && is_latest(tests, k) && #[trigger] tests[k].status == s;
            assert(k != i);
            let k2 = if k < i {
                k
            } else {
                k - 1
            };
            assert(t[k2] == tests[k]);
            assert forall|j: int| k2 < j < t.len() implies kind_key(#[trigger] t[j].kind) != kind_key(
                t[k2].kind,
            ) by {
                let jj = if j < i {
                    j
                } else {
                    j + 1
                };
                assert(t[j] == tests[jj]);
            }
            assert(is_latest(t, k2));
        }
        if latest_has_status(t, s) {
            let k2 = choose|k: int| 0 <= k < t.len() && is_latest(t, k) && #[trigger] t[k].status == s;
            let k = if k2 < i {
                k2
            } else {
                k2 + 1
            };
            assert(t[k2] == tests[k]);
            let m = choose|j: int|
                i < j < tests.len() && kind_key(#[trigger] tests[j].kind) == kind_key(tests[i].kind);
            assert forall|j: int| k < j < tests.len() implies kind_key(#[trigger] tests[j].kind) != kind_key(
                tests[k].kind,
            ) by {
                if j == i {
                    assert(t[m - 1] == tests[m]);
                    if k2 < m - 1 {
                        assert(kind_key(t[m - 1].kind) != kind_key(t[k2].kind));
                    }
                } else {
                    let jj = if j < i {
                        j
                    } else {
                        j - 1
                    };
                    assert(t[jj] == tests[j]);
                }
            }
            assert(is_latest(tests, k));
        }
    }
}

} // verus!
