//! Abstract values of the model types, in which text is a sequence of characters.
use crate::date::{date_view_opt, CalendarDate, ClockTime};
use crate::import::{ImportWarning, ImportWarningKind};
use crate::model::{
    kind_key, Appliance, ApplianceStatus, Comparison, Limit, Measurement, RawField, TestResult,
    TestStatus,
};
use crate::results::{is_latest, overall_status};
use crate::tokens::string_views;
use vstd::prelude::*;

verus! {

pub struct TestView {
    pub kind: (int, Seq<char>),
    pub raw_name: Seq<char>,
    pub status: TestStatus,
    pub measurement: Option<(Comparison, Seq<char>, Seq<char>)>,
    pub limit: Option<(Comparison, Seq<char>, Seq<char>, Seq<char>)>,
    pub raw_line: Seq<char>,
}

pub open spec fn measurement_of_view(m: Option<Measurement>) -> Option<(Comparison, Seq<char>, Seq<char>)> {
    match m {
        Some(x) => Some((x.comparison, x.value@, x.unit@)),
        None => None,
    }
}

pub open spec fn limit_view(l: Option<Limit>) -> Option<(Comparison, Seq<char>, Seq<char>, Seq<char>)> {
    match l {
        Some(x) => Some((x.comparison, x.value@, x.unit@, x.raw@)),
        None => None,
    }
}

pub open spec fn test_view(t: TestResult) -> TestView {
    TestView {
        kind: kind_key(t.kind),
        raw_name: t.raw_name@,
        status: t.status,
        measurement: measurement_of_view(t.measurement),
        limit: limit_view(t.limit),
        raw_line: t.raw_line@,
    }
}

pub open spec fn test_views(ts: Seq<TestResult>) -> Seq<TestView> {
    ts.map_values(|t: TestResult| test_view(t))
}

pub open spec fn raw_view(f: RawField) -> (Seq<char>, Seq<char>, int) {
    (f.name@, f.value@, f.line_number as int)
}

pub open spec fn raw_views(fs: Seq<RawField>) -> Seq<(Seq<char>, Seq<char>, int)> {
    fs.map_values(|f: RawField| raw_view(f))
}

pub struct WarningView {
    pub kind: ImportWarningKind,
    pub message: Seq<char>,
    pub record: Option<Seq<char>>,
    pub line: Option<int>,
}

pub open spec fn opt_text(s: Option<String>) -> Option<Seq<char>> {
    match s {
        Some(x) => Some(x@),
        None => None,
    }
}

pub open spec fn opt_int(n: Option<usize>) -> Option<int> {
    match n {
        Some(x) => Some(x as int),
        None => None,
    }
}

pub open spec fn warning_view(w: ImportWarning) -> WarningView {
    WarningView { kind: w.kind, message: w.message@, record: opt_text(w.record), line: opt_int(w.line) }
}

pub open spec fn warning_views(ws: Seq<ImportWarning>) -> Seq<WarningView> {
    ws.map_values(|w: ImportWarning| warning_view(w))
}

pub open spec fn time_view_opt(t: Option<ClockTime>) -> Option<(int, int, int)> {
    match t {
        Some(x) => Some(x@),
        None => None,
    }
}

pub struct ApplianceView {
    pub source_record_number: Seq<char>,
    pub removed: bool,
    pub appliance_id: Seq<char>,
    pub description: Seq<char>,
    pub description_segments: Seq<Seq<char>>,
    pub location: Seq<char>,
    pub location_segments: Seq<Seq<char>>,
    pub test_date: Option<(int, int, int)>,
    pub test_time: Option<(int, int, int)>,
    pub retest_date: Option<(int, int, int)>,
    pub comments: Seq<char>,
    pub mode: (Seq<char>, Seq<char>),
    pub user: Seq<char>,
    pub tests: Seq<TestView>,
    pub status: ApplianceStatus,
    pub raw_fields: Seq<(Seq<char>, Seq<char>, int)>,
}

pub open spec fn appliance_view(a: Appliance) -> ApplianceView {
    ApplianceView {
        source_record_number: a.source_record_number@,
        removed: a.removed,
        appliance_id: a.appliance_id@,
        description: a.description@,
        description_segments: string_views(a.description_segments@),
        location: a.location@,
        location_segments: string_views(a.location_segments@),
        test_date: date_view_opt(a.test_date),
        test_time: time_view_opt(a.test_time),
        retest_date: date_view_opt(a.retest_date),
        comments: a.comments@,
        mode: (a.mode.code@, a.mode.label@),
        user: a.user@,
        tests: test_views(a.tests@),
        status: a.status,
        raw_fields: raw_views(a.raw_fields@),
    }
}

pub open spec fn appliance_views(apps: Seq<Appliance>) -> Seq<ApplianceView> {
    apps.map_values(|a: Appliance| appliance_view(a))
}

/// No later view has the same kind as the one at `i`.
pub open spec fn is_latest_view(ts: Seq<TestView>, i: int) -> bool {
    forall|j: int| i < j < ts.len() ==> (#[trigger] ts[j]).kind != ts[i].kind
}

pub open spec fn views_have_status(ts: Seq<TestView>, status: TestStatus) -> bool {
    exists|i: int| 0 <= i < ts.len() && is_latest_view(ts, i) && #[trigger] ts[i].status == status
}

/// The appliance outcome decided by the final result of each kind.
pub open spec fn status_of_views(ts: Seq<TestView>) -> Option<ApplianceStatus> {
    if views_have_status(ts, TestStatus::Fail) {
        Some(ApplianceStatus::Fail)
    } else if views_have_status(ts, TestStatus::Pass) {
        Some(ApplianceStatus::Pass)
    } else {
        None
    }
}

pub proof fn lemma_status_of_views(tests: Seq<TestResult>)
    ensures
        overall_status(tests) == status_of_views(test_views(tests)),
{
    let ts = test_views(tests);
    assert(ts.len() == tests.len());
    assert forall|i: int| 0 <= i < tests.len() implies is_latest(tests, i) == is_latest_view(ts, i) by {
        assert(ts[i] == test_view(tests[i]));
        if is_latest(tests, i) {
            assert forall|j: int| i < j < ts.len() implies (#[trigger] ts[j]).kind != ts[i].kind by {
                assert(ts[j] == test_view(tests[j]));
                assert(kind_key(tests[j].kind) != kind_key(tests[i].kind));
            }
        }
        if is_latest_view(ts, i) {
            assert forall|j: int| i < j < tests.len() implies kind_key(#[trigger] tests[j].kind)
                != kind_key(tests[i].kind) by {
                assert(ts[j] == test_view(tests[j]));
                assert(ts[j].kind != ts[i].kind);
            }
        }
    }
    assert forall|s: TestStatus| crate::results::latest_has_status(tests, s) == views_have_status(ts, s) by {
        if crate::results::latest_has_status(tests, s) {
            let k = choose|k: int|
                0 <= k < tests.len() && is_latest(tests, k) && #[trigger] tests[k].status == s;
            assert(ts[k] == test_view(tests[k]));
            assert(is_latest_view(ts, k));
            assert(ts[k].status == s);
        }
        if views_have_status(ts, s) {
            let k = choose|k: int| 0 <= k < ts.len() && is_latest_view(ts, k) && #[trigger] ts[k].status == s;
            assert(ts[k] == test_view(tests[k]));
            assert(is_latest(tests, k));
            assert(tests[k].status == s);
        }
    }
}

} // verus!
