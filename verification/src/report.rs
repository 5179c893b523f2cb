//! What the appliance report and the completion certificate show: job totals
//! and testing period, result summaries, dates, truncated text, and how rows
//! are spread over pages.
use crate::date::{
    date_before, date_is_before, date_le, date_view_opt, lemma_date_view_injective,
    local_date_of, offset_day_carry, offset_stays_in_range, shifted_date, CalendarDate, ClockTime,
};
use crate::date_format::{formatted_date, ReportDateFormat};
use crate::model::{
    comparison_symbol, reading_text, Appliance, ApplianceStatus, Job, PostalAddress, TestResult,
    TestStatus,
};
use crate::text::{
    append_chars, append_str, chars_of, is_blank, join, push_char, string_of, trim, trim_end,
    trim_end_chars, upper_seq, to_ascii_upper,
};
use crate::tokens::string_views;
use crate::appliance_order::{in_key_order, sort_indices, SortKey};
use crate::session::{lemma_shown_indices, shown_indices};
use vstd::prelude::*;

verus! {

/// Totals and testing period used by reports and the desktop summary.
#[derive(Clone, Copy, Debug, PartialEq, Eq)]
pub struct JobSummary {
    pub appliances: usize,
    pub passed: usize,
    pub failed: usize,
    pub first_test: Option<CalendarDate>,
    pub last_test: Option<CalendarDate>,
}

impl Default for JobSummary {
    fn default() -> (r: Self)
        ensures
            r.appliances == 0,
            r.passed == 0,
            r.failed == 0,
            r.first_test is None,
            r.last_test is None,
    {
        JobSummary { appliances: 0, passed: 0, failed: 0, first_test: None, last_test: None }
    }
}

/// Number of appliances that are not removed.
pub open spec fn active_count(apps: Seq<Appliance>) -> nat
    decreases apps.len(),
{
    if apps.len() == 0 {
        0
    } else {
        active_count(apps.drop_last()) + if apps.last().removed {
            0nat
        } else {
            1nat
        }
    }
}

/// Number of appliances that are not removed and have the given outcome.
pub open spec fn outcome_count(apps: Seq<Appliance>, status: ApplianceStatus) -> nat
    decreases apps.len(),
{
    if apps.len() == 0 {
        0
    } else {
        outcome_count(apps.drop_last(), status) + if !apps.last().removed && apps.last().status
            == status {
            1nat
        } else {
            0nat
        }
    }
}

/// The earliest test date of the appliances that are not removed.
pub open spec fn earliest_test(apps: Seq<Appliance>) -> Option<(int, int, int)>
    decreases apps.len(),
{
    if apps.len() == 0 {
        None
    } else {
        let e = earliest_test(apps.drop_last());
        let a = apps.last();
        match (a.removed, a.test_date) {
            (false, Some(d)) => match e {
                None => Some(d@),
                Some(x) => Some(
                    if date_before(d@, x) {
                        d@
                    } else {
                        x
                    },
                ),
            },
            _ => e,
        }
    }
}

/// The latest test date of the appliances that are not removed.
pub open spec fn latest_test(apps: Seq<Appliance>) -> Option<(int, int, int)>
    decreases apps.len(),
{
    if apps.len() == 0 {
        None
    } else {
        let e = latest_test(apps.drop_last());
        let a = apps.last();
        match (a.removed, a.test_date) {
            (false, Some(d)) => match e {
                None => Some(d@),
                Some(x) => Some(
                    if date_before(x, d@) {
                        d@
                    } else {
                        x
                    },
                ),
            },
            _ => e,
        }
    }
}

proof fn lemma_counts_bounded(apps: Seq<Appliance>)
    ensures
        active_count(apps) <= apps.len(),
        active_count(apps) == outcome_count(apps, ApplianceStatus::Pass) + outcome_count(apps, ApplianceStatus::Fail),
    decreases apps.len(),
{
    if apps.len() > 0 {
        lemma_counts_bounded(apps.drop_last());
    }
}

/// Counts the appliances that are not removed, their outcomes, and the range of their test dates.
pub fn summarize_job(job: &Job) -> (r: JobSummary)
    ensures
        r.appliances == active_count(job.appliances@),
        r.passed == outcome_count(job.appliances@, ApplianceStatus::Pass),
        r.failed == outcome_count(job.appliances@, ApplianceStatus::Fail),
        date_view_opt(r.first_test) == earliest_test(job.appliances@),
        date_view_opt(r.last_test) == latest_test(job.appliances@),
{
    let apps = &job.appliances;
    let mut summary = JobSummary::default();
    let mut i: usize = 0;
    proof {
        assert(apps@.take(0) =~= seq![]);
    }
    while i < apps.len()
        invariant
            0 <= i <= apps@.len(),
            summary.appliances == active_count(apps@.take(i as int)),
            summary.passed == outcome_count(apps@.take(i as int), ApplianceStatus::Pass),
            summary.failed == outcome_count(apps@.take(i as int), ApplianceStatus::Fail),
            date_view_opt(summary.first_test) == earliest_test(apps@.take(i as int)),
            date_view_opt(summary.last_test) == latest_test(apps@.take(i as int)),
        decreases apps.len() - i,
    {
        let a = &apps[i];
        proof {
            assert(apps@.take(i + 1).drop_last() =~= apps@.take(i as int));
            assert(apps@.take(i + 1).last() == *a);
            lemma_counts_bounded(apps@.take(i as int));
        }
        if !a.removed {
            summary.appliances = summary.appliances + 1;
            match a.status {
                ApplianceStatus::Pass => summary.passed = summary.passed + 1,
                ApplianceStatus::Fail => summary.failed = summary.failed + 1,
            }
            if let Some(date) = a.test_date {
                summary.first_test = Some(
                    match summary.first_test {
                        None => date,
                        Some(current) => if date_is_before(&date, &current) {
                            date
                        } else {
                            current
                        },
                    },
                );
                summary.last_test = Some(
                    match summary.last_test {
                        None => date,
                        Some(current) => if date_is_before(&current, &date) {
                            date
                        } else {
                            current
                        },
                    },
                );
            }
        }
        i = i + 1;
    }
    proof {
        assert(apps@.take(apps@.len() as int) =~= apps@);
    }
    summary
}

/// The summary counts every appliance that is not removed exactly once, as passed or failed.
pub proof fn lemma_summary_totals(apps: Seq<Appliance>)
    ensures
        active_count(apps) == outcome_count(apps, ApplianceStatus::Pass) + outcome_count(apps, ApplianceStatus::Fail),
        active_count(apps) <= apps.len(),
{
    lemma_counts_bounded(apps);
}

/// The testing period has both ends or neither, and the first test is not after the last.
pub proof fn lemma_testing_period_ordered(apps: Seq<Appliance>)
    ensures
        earliest_test(apps) is Some == latest_test(apps) is Some,
        earliest_test(apps) matches Some(first) ==> latest_test(apps) matches Some(last) && date_le(first, last),
    decreases apps.len(),
{
    if apps.len() > 0 {
        lemma_testing_period_ordered(apps.drop_last());
    }
}

/// Report text for an appliance outcome.
pub open spec fn status_label(status: ApplianceStatus) -> Seq<char> {
    match status {
        ApplianceStatus::Pass => "PASS"@,
        ApplianceStatus::Fail => "FAIL"@,
    }
}

pub fn status_text(status: ApplianceStatus) -> (r: &'static str)
    ensures
        r@ == status_label(status),
{
    match status {
        ApplianceStatus::Pass => "PASS",
        ApplianceStatus::Fail => "FAIL",
    }
}

/// Report text for a test outcome.
pub open spec fn test_status_label(status: TestStatus) -> Seq<char> {
    match status {
        TestStatus::Pass => "PASS"@,
        TestStatus::Fail => "FAIL"@,
        TestStatus::Skipped => "SKIPPED"@,
    }
}

pub fn test_status_text(status: TestStatus) -> (r: &'static str)
    ensures
        r@ == test_status_label(status),
{
    match status {
        TestStatus::Pass => "PASS",
        TestStatus::Fail => "FAIL",
        TestStatus::Skipped => "SKIPPED",
    }
}

/// The pieces of a test's summary: name, outcome, reading and limit.
pub open spec fn test_summary_parts(t: TestResult) -> Seq<Seq<char>> {
    let base = seq![t.raw_name@, test_status_label(t.status)];
    let with_reading = match t.measurement {
        Some(m) => base.push(reading_text(m.comparison, m.value@, m.unit@)),
        None => base,
    };
    match t.limit {
        Some(l) => with_reading.push(
            trim_end("limit "@ + comparison_symbol(l.comparison) + l.value@ + " "@ + l.unit@),
        ),
        None => with_reading,
    }
}

/// The summary pieces joined by a middle dot.
pub open spec fn test_summary_text(t: TestResult) -> Seq<char> {
    join(test_summary_parts(t), " · "@)
}

pub fn test_summary(test: &TestResult) -> (r: String)
    ensures
        r@ == test_summary_text(*test),
{
    let ghost parts = test_summary_parts(*test);
    proof {
        reveal_strlit(" · ");
        reveal_strlit("limit ");
        reveal_strlit(" ");
    }
    let mut out = String::new();
    append_str(&mut out, test.raw_name.as_str());
    append_str(&mut out, " · ");
    append_str(&mut out, test_status_text(test.status));
    let ghost base = seq![test.raw_name@, test_status_label(test.status)];
    proof {
        assert(base.drop_last() =~= seq![test.raw_name@]);
        assert(join(seq![test.raw_name@], " · "@) == test.raw_name@);
        assert(join(base, " · "@) == join(base.drop_last(), " · "@) + " · "@ + base.last());
        assert(out@ =~= join(base, " · "@));
    }
    let ghost mut acc = base;
    assert(out@ == join(acc, " · "@));
    if let Some(m) = &test.measurement {
        let v = m.display_value();
        let ghost prev = out@;
        append_str(&mut out, " · ");
        append_str(&mut out, v.as_str());
        proof {
            assert(acc.push(v@).drop_last() =~= acc);
            assert(join(acc.push(v@), " · "@) == join(acc, " · "@) + " · "@ + v@);
            assert(out@ =~= prev + " · "@ + v@);
            acc = acc.push(v@);
        }
    }
    if let Some(l) = &test.limit {
        let mut text = String::new();
        append_str(&mut text, "limit ");
        append_str(&mut text, l.comparison.symbol());
        append_str(&mut text, l.value.as_str());
        append_str(&mut text, " ");
        append_str(&mut text, l.unit.as_str());
        let cs = chars_of(text.as_str());
        let t = trim_end_chars(cs.as_slice());
        let ghost prev = out@;
        append_str(&mut out, " · ");
        append_chars(&mut out, t);
        proof {
            assert(acc.push(t@).drop_last() =~= acc);
            assert(join(acc.push(t@), " · "@) == join(acc, " · "@) + " · "@ + t@);
            assert(out@ =~= prev + " · "@ + t@);
            assert(cs@ =~= "limit "@ + comparison_symbol(l.comparison) + l.value@ + " "@ + l.unit@);
            acc = acc.push(t@);
        }
    }
    proof {
        assert(acc == parts);
        assert(out@ == join(acc, " · "@));
    }
    out
}

/// A date in the report's format, or a dash when there is none.
pub open spec fn date_or_dash(date: Option<CalendarDate>, format: ReportDateFormat) -> Seq<char> {
    match date {
        Some(d) => formatted_date(format, d@),
        None => "—"@,
    }
}

pub fn format_date(date: Option<CalendarDate>, format: ReportDateFormat) -> (r: String)
    ensures
        r@ == date_or_dash(date, format),
{
    match date {
        Some(d) => format.format(&d),
        None => {
            let mut out = String::new();
            append_str(&mut out, "—");
            out
        },
    }
}

/// A dash for text that is blank, the text itself otherwise.
pub open spec fn dash_if_blank(value: Seq<char>) -> Seq<char> {
    if trim(value).len() == 0 {
        "—"@
    } else {
        value
    }
}

pub fn blank_as_dash(value: &str) -> (r: &str)
    ensures
        r@ == dash_if_blank(value@),
{
    let cs = chars_of(value);
    if is_blank(cs.as_slice()) {
        "—"
    } else {
        value
    }
}

/// At most `maximum` characters: longer text keeps its first `maximum - 1`
/// characters and ends with an ellipsis.
pub open spec fn truncated(value: Seq<char>, maximum: nat) -> Seq<char> {
    if value.len() <= maximum {
        value
    } else {
        value.take(if maximum >= 1 { maximum - 1 } else { 0 }) + "…"@
    }
}

pub fn truncate(value: &str, maximum: usize) -> (r: String)
    ensures
        r@ == truncated(value@, maximum as nat),
{
    let cs = chars_of(value);
    if cs.len() <= maximum {
        return value.to_owned();
    }
    let keep = if maximum >= 1 {
        maximum - 1
    } else {
        0
    };
    let mut out = string_of(vstd::slice::slice_subrange(cs.as_slice(), 0, keep));
    append_str(&mut out, "…");
    proof {
        assert(cs@.subrange(0, keep as int) =~= value@.take(keep as int));
    }
    out
}

/// A truncated text is never longer than the room it is given (at least one character).
pub proof fn lemma_truncated_fits(value: Seq<char>, maximum: nat)
    requires
        maximum >= 1,
    ensures
        truncated(value, maximum).len() <= maximum,
{
    reveal_strlit("…");
}

/// The testing period: first to last date when they differ, one date when
/// there is one, otherwise "Not recorded".
pub open spec fn testing_period_text(first: Option<(int, int, int)>, last: Option<(int, int, int)>, format: ReportDateFormat) -> Seq<char> {
    match (first, last) {
        (Some(f), Some(l)) => if f != l {
            formatted_date(format, f) + " to "@ + formatted_date(format, l)
        } else {
            formatted_date(format, f)
        },
        (Some(f), None) => formatted_date(format, f),
        _ => "Not recorded"@,
    }
}

pub fn testing_period(summary: &JobSummary, format: ReportDateFormat) -> (r: String)
    ensures
        r@ == testing_period_text(date_view_opt(summary.first_test), date_view_opt(summary.last_test), format),
{
    match (summary.first_test, summary.last_test) {
        (Some(first), Some(last)) => {
            if first.year() != last.year() || first.month() != last.month() || first.day() != last.day() {
                let mut out = format.format(&first);
                append_str(&mut out, " to ");
                let l = format.format(&last);
                append_str(&mut out, l.as_str());
                out
            } else {
                proof {
                    assert(first@ == last@);
                }
                format.format(&first)
            }
        },
        (Some(first), None) => format.format(&first),
        _ => "Not recorded".to_owned(),
    }
}

/// The lines that are not blank, as written.
pub open spec fn nonblank_lines(lines: Seq<Seq<char>>) -> Seq<Seq<char>>
    decreases lines.len(),
{
    if lines.len() == 0 {
        seq![]
    } else {
        let r = nonblank_lines(lines.drop_last());
        if trim(lines.last()).len() > 0 {
            r.push(lines.last())
        } else {
            r
        }
    }
}

/// The lines of an address that are not blank, as written.
pub open spec fn address_text_lines(a: PostalAddress) -> Seq<Seq<char>> {
    nonblank_lines(seq![a.line_1@, a.line_2@, a.town@, a.county@, a.postcode@])
}

pub fn address_lines(address: &PostalAddress) -> (r: Vec<String>)
    ensures
        string_views(r@) == address_text_lines(*address),
{
    let all: [&String; 5] = [&address.line_1, &address.line_2, &address.town, &address.county, &address.postcode];
    let ghost views = seq![address.line_1@, address.line_2@, address.town@, address.county@, address.postcode@];
    let mut out: Vec<String> = Vec::new();
    let mut i: usize = 0;
    proof {
        assert(nonblank_lines(views.take(0)) =~= seq![]);
        assert(string_views(out@) =~= seq![]);
    }
    while i < 5
        invariant
            0 <= i <= 5,
            views == seq![address.line_1@, address.line_2@, address.town@, address.county@, address.postcode@],
            all@ == seq![&address.line_1, &address.line_2, &address.town, &address.county, &address.postcode],
            string_views(out@) == nonblank_lines(views.take(i as int)),
        decreases 5 - i,
    {
        let line = all[i];
        proof {
            assert(views[i as int] == line@);
            assert(views.take(i + 1).drop_last() =~= views.take(i as int));
            assert(views.take(i + 1).last() == line@);
        }
        let cs = chars_of(line.as_str());
        if !is_blank(cs.as_slice()) {
            let ghost before = out@;
            out.push(line.clone());
            proof {
                assert(string_views(out@) =~= string_views(before).push(line@));
            }
        }
        i = i + 1;
    }
    proof {
        assert(views.take(5) =~= views);
    }
    out
}

/// A label in upper case, as certificates print field names.
pub fn uppercase_label(label: &str) -> (r: String)
    ensures
        r@ == upper_seq(label@),
{
    let cs = chars_of(label);
    let mut out = String::new();
    let mut i: usize = 0;
    while i < cs.len()
        invariant
            0 <= i <= cs@.len(),
            out@ == upper_seq(cs@.take(i as int)),
        decreases cs.len() - i,
    {
        push_char(&mut out, to_ascii_upper(cs[i]));
        i = i + 1;
        proof {
            assert(out@ =~= upper_seq(cs@.take(i as int)));
        }
    }
    proof {
        assert(cs@.take(cs@.len() as int) =~= cs@);
        assert(cs@ == label@);
    }
    out
}

/// Half-millimetre units of the report layout: rows start at 474 and must end above 36.
pub open spec fn first_row_top() -> int {
    474
}

pub open spec fn bottom_margin() -> int {
    36
}

/// Lines of test summaries for an appliance: three per line, at least one line.
pub open spec fn test_lines(test_count: nat) -> nat {
    let n = if test_count == 0 { 1nat } else { test_count };
    ((n + 2) / 3) as nat
}

/// Height of an appliance row: a heading line and its test lines.
pub open spec fn row_height(test_count: nat) -> int {
    18 + 11 * (test_lines(test_count) as int)
}

pub fn appliance_height(test_count: usize) -> (r: u128)
    ensures
        r == row_height(test_count as nat),
{
    let n: u128 = if test_count == 0 {
        1
    } else {
        test_count as u128
    };
    let lines = (n + 2) / 3;
    18 + 11 * lines
}

/// Page and top of each row, with the page and top at which the next row
/// would start: a row starts a new page when it does not fit above the margin
/// and the page already holds a row.
pub open spec fn layout(counts: Seq<usize>) -> (Seq<(int, int)>, int, int)
    decreases counts.len(),
{
    if counts.len() == 0 {
        (seq![], 0, first_row_top())
    } else {
        let (before, page, y) = layout(counts.drop_last());
        let h = row_height(counts.last() as nat);
        let (p2, top) = if y - h < bottom_margin() && y < first_row_top() {
            (page + 1, first_row_top())
        } else {
            (page, y)
        };
        (before.push((p2, top)), p2, top - h)
    }
}

pub open spec fn row_places(counts: Seq<usize>) -> Seq<(int, int)> {
    layout(counts).0
}

pub proof fn lemma_layout_len(counts: Seq<usize>)
    ensures
        layout(counts).0.len() == counts.len(),
    decreases counts.len(),
{
    if counts.len() > 0 {
        lemma_layout_len(counts.drop_last());
    }
}

/// Rows fill pages in order: the first row is on the first page, and each row
/// is on the page of the row before it or on the next one.
pub proof fn lemma_pages_in_order(counts: Seq<usize>)
    ensures
        counts.len() > 0 ==> row_places(counts)[0].0 == 0,
        forall|k: int|
            0 < k < counts.len() ==> row_places(counts)[k - 1].0 <= #[trigger] row_places(counts)[k].0
                <= row_places(counts)[k - 1].0 + 1,
        counts.len() > 0 ==> layout(counts).1 == row_places(counts).last().0,
    decreases counts.len(),
{
    lemma_layout_len(counts);
    if counts.len() > 0 {
        let pre = counts.drop_last();
        lemma_pages_in_order(pre);
        lemma_layout_len(pre);
        assert forall|k: int| 0 < k < counts.len() implies row_places(counts)[k - 1].0 <= #[trigger] row_places(counts)[k].0
            <= row_places(counts)[k - 1].0 + 1 by {
            if k < counts.len() - 1 {
                assert(row_places(counts)[k] == row_places(pre)[k]);
                assert(row_places(counts)[k - 1] == row_places(pre)[k - 1]);
            } else {
                assert(row_places(counts)[k - 1] == row_places(pre)[k - 1]);
            }
        }
        if pre.len() > 0 {
            assert(row_places(counts)[0] == row_places(pre)[0]);
        }
    }
}

/// The page (from 0) of each row of the appliance report, for the given numbers of tests.
pub fn report_page_numbers(test_counts: &[usize]) -> (r: Vec<usize>)
    ensures
        r@.len() == test_counts@.len(),
        forall|k: int| 0 <= k < r@.len() ==> r@[k] as int == #[trigger] row_places(test_counts@)[k].0,
{
    let mut out: Vec<usize> = Vec::new();
    let mut page: usize = 0;
    let mut y: i128 = 474;
    let mut i: usize = 0;
    proof {
        assert(test_counts@.take(0) =~= seq![]);
    }
    while i < test_counts.len()
        invariant
            0 <= i <= test_counts@.len(),
            out@.len() == i,
            page <= i,
            row_places(test_counts@.take(i as int)).len() == i,
            page as int == layout(test_counts@.take(i as int)).1,
            y as int == layout(test_counts@.take(i as int)).2,
            474 - 18 - 11 * 0x10000_0000_0000_0000 <= y <= 474,
            forall|k: int| 0 <= k < i ==> out@[k] as int == #[trigger] row_places(test_counts@.take(i as int))[k].0,
        decreases test_counts.len() - i,
    {
        let ghost pre = test_counts@.take(i as int);
        let ghost next = test_counts@.take(i + 1);
        proof {
            assert(next.drop_last() =~= pre);
            assert(next.last() == test_counts@[i as int]);
            lemma_layout_len(next);
        }
        let h = appliance_height(test_counts[i]);
        proof {
            assert(h <= 18 + 11 * 0x10000_0000_0000_0000) by (nonlinear_arith)
                requires h == row_height(test_counts@[i as int] as nat), test_counts@[i as int] <= usize::MAX;
        }
        let hi = h as i128;
        if y - hi < 36 && y < 474 {
            page = page + 1;
            y = 474;
        }
        out.push(page);
        y = y - hi;
        proof {
            assert(row_places(next) == row_places(pre).push((page as int, (y + hi) as int)));
            assert forall|k: int| 0 <= k < i + 1 implies out@[k] as int == #[trigger] row_places(next)[k].0 by {
                if k < i {
                    assert(row_places(next)[k] == row_places(pre)[k]);
                }
            }
            assert(layout(next).1 == page as int);
            assert(layout(next).2 == y as int);
        }
        i = i + 1;
    }
    proof {
        assert(test_counts@.take(test_counts@.len() as int) =~= test_counts@);
    }
    out
}

/// The indices of the appliances that are not removed, in report order:
/// by identifier, then by source record number, equal ones by index.
pub fn sorted_appliances(job: &Job) -> (r: Vec<usize>)
    ensures
        ({
            let kept = shown_indices(
                job.appliances@,
                seq![],
                false,
                job.metadata.report_date_format,
                job.appliances@.len() as int,
            );
            &&& r@.len() == kept.len()
            &&& r@.to_set() == kept.to_set()
            &&& r@.no_duplicates()
            &&& in_key_order(job.appliances@, r@, SortKey::Report)
        }),
{
    let apps = &job.appliances;
    let format = job.metadata.report_date_format;
    let mut indices: Vec<usize> = Vec::new();
    let mut i: usize = 0;
    while i < apps.len()
        invariant
            0 <= i <= apps@.len(),
            indices@ == shown_indices(apps@, seq![], false, format, i as int),
        decreases apps.len() - i,
    {
        if !apps[i].removed {
            indices.push(i);
        }
        i = i + 1;
    }
    proof {
        lemma_shown_indices(apps@, seq![], false, format, apps@.len() as int);
    }
    sort_indices(apps, &indices, SortKey::Report)
}

/// Text shown only when it is not blank, truncated to `maximum` characters.
pub open spec fn optional_value(value: Seq<char>, maximum: nat) -> Option<Seq<char>> {
    if trim(value).len() > 0 {
        Some(truncated(value, maximum))
    } else {
        None
    }
}

fn optional_truncated(value: &String, maximum: usize) -> (r: Option<String>)
    ensures
        opt_view(r) == optional_value(value@, maximum as nat),
{
    let cs = chars_of(value.as_str());
    if is_blank(cs.as_slice()) {
        None
    } else {
        Some(truncate(value.as_str(), maximum))
    }
}

pub open spec fn opt_view(s: Option<String>) -> Option<Seq<char>> {
    match s {
        Some(x) => Some(x@),
        None => None,
    }
}

/// Everything the completion certificate prints, as text and counts.
pub struct CertificateContent {
    pub certificate_number: String,
    pub customer: String,
    pub site: String,
    pub customer_address: Vec<String>,
    pub site_address: Vec<String>,
    pub appliances: usize,
    pub passed: usize,
    pub failed: usize,
    pub testing_period: String,
    pub valid_until: Option<String>,
    pub contractor: String,
    pub contractor_address: Vec<String>,
    pub order_reference: Option<String>,
    pub telephone: Option<String>,
    pub email: Option<String>,
    pub tester_name: Option<String>,
    pub declaration_date: String,
}

/// The certificate of `job`, dated `today`: current metadata, the summary of
/// the appliances that are not removed, and only the optional details that are set.
pub open spec fn certificate_of(job: Job, today: CalendarDate, c: CertificateContent) -> bool {
    let m = job.metadata;
    let apps = job.appliances@;
    let format = m.report_date_format;
    &&& c.certificate_number@ == truncated(m.certificate_number@, 24)
    &&& c.customer@ == truncated(m.customer_name@, 42)
    &&& c.site@ == truncated(m.site_name@, 42)
    &&& string_views(c.customer_address@) == address_text_lines(m.customer_address)
    &&& string_views(c.site_address@) == address_text_lines(m.site_address)
    &&& c.appliances == active_count(apps)
    &&& c.passed == outcome_count(apps, ApplianceStatus::Pass)
    &&& c.failed == outcome_count(apps, ApplianceStatus::Fail)
    &&& c.testing_period@ == truncated(testing_period_text(earliest_test(apps), latest_test(apps), format), 42)
    &&& opt_view(c.valid_until) == match m.valid_until {
        Some(d) => Some(truncated(formatted_date(format, d@), 42)),
        None => None,
    }
    &&& c.contractor@ == truncated(m.contractor_name@, 42)
    &&& string_views(c.contractor_address@) == address_text_lines(m.contractor_address)
    &&& opt_view(c.order_reference) == optional_value(m.order_reference@, 42)
    &&& opt_view(c.telephone) == optional_value(m.contractor_telephone@, 42)
    &&& opt_view(c.email) == optional_value(m.contractor_email@, 42)
    &&& opt_view(c.tester_name) == optional_value(m.tester_name@, 42)
    &&& c.declaration_date@ == formatted_date(format, today@)
}

pub fn certificate_content(job: &Job, today: CalendarDate) -> (r: CertificateContent)
    ensures
        certificate_of(*job, today, r),
{
    let m = &job.metadata;
    let format = m.report_date_format;
    let summary = summarize_job(job);
    let period = testing_period(&summary, format);
    let valid_until = match m.valid_until {
        Some(d) => {
            let text = format.format(&d);
            Some(truncate(text.as_str(), 42))
        },
        None => None,
    };
    CertificateContent {
        certificate_number: truncate(m.certificate_number.as_str(), 24),
        customer: truncate(m.customer_name.as_str(), 42),
        site: truncate(m.site_name.as_str(), 42),
        customer_address: address_lines(&m.customer_address),
        site_address: address_lines(&m.site_address),
        appliances: summary.appliances,
        passed: summary.passed,
        failed: summary.failed,
        testing_period: truncate(period.as_str(), 42),
        valid_until,
        contractor: truncate(m.contractor_name.as_str(), 42),
        contractor_address: address_lines(&m.contractor_address),
        order_reference: optional_truncated(&m.order_reference, 42),
        telephone: optional_truncated(&m.contractor_telephone, 42),
        email: optional_truncated(&m.contractor_email, 42),
        tester_name: optional_truncated(&m.tester_name, 42),
        declaration_date: format.format(&today),
    }
}

/// The offset in seconds that a certificate date is taken at: the local one
/// where it is known, else UTC.
pub open spec fn offset_or_utc(offset: Option<i32>) -> int {
    match offset {
        Some(o) => o as int,
        None => 0,
    }
}

/// The calendar date that the UTC instant `date` `time` falls on at the local
/// offset (seconds east of UTC), or in UTC where no offset is known.
pub fn calendar_date_at_offset(date: CalendarDate, time: ClockTime, offset: Option<i32>) -> (r:
    CalendarDate)
    requires
        offset matches Some(o) ==> -93599 <= o <= 93599 && offset_stays_in_range(
            date@,
            time@,
            o as int,
        ),
    ensures
        shifted_date(date@, offset_day_carry(time@, offset_or_utc(offset))) == Some(r@),
        offset is None ==> r == date,
{
    let seconds: i32 = match offset {
        Some(o) => o,
        None => 0,
    };
    date.note_valid();
    time.note_valid();
    let r = local_date_of(date, time, seconds);
    proof {
        if offset is None {
            lemma_date_view_injective(r, date);
        }
    }
    r
}

/// The header of each report page.
pub struct ReportHeader {
    pub site: String,
    pub appliance_count: String,
    pub certificate: String,
}

/// The site (52 characters at most), the number of appliances that are not
/// removed, and the certificate number or a dash.
pub open spec fn header_of(job: Job, h: ReportHeader) -> bool {
    &&& h.site@ == truncated(job.metadata.site_name@, 52)
    &&& h.appliance_count@ == crate::tokens::decimal(active_count(job.appliances@)) + " appliances"@
    &&& h.certificate@ == "Certificate "@ + dash_if_blank(job.metadata.certificate_number@)
}

pub fn report_header(job: &Job) -> (r: ReportHeader)
    ensures
        header_of(*job, r),
{
    let summary = summarize_job(job);
    let mut count = String::new();
    crate::tokens::push_decimal(&mut count, summary.appliances as u64);
    append_str(&mut count, " appliances");
    let mut certificate = String::new();
    append_str(&mut certificate, "Certificate ");
    append_str(&mut certificate, blank_as_dash(job.metadata.certificate_number.as_str()));
    ReportHeader { site: truncate(job.metadata.site_name.as_str(), 52), appliance_count: count, certificate }
}

/// One appliance row of the report.
pub struct ReportRow {
    pub index: usize,
    pub page: usize,
    pub appliance_id: String,
    pub description: String,
    pub location: String,
    pub test_date: String,
    pub retest_date: String,
    pub status: ApplianceStatus,
    /// Summaries of the final result of each test kind; none means no imported results.
    pub tests: Vec<String>,
}

/// The final result of each kind, in source order.
pub open spec fn final_results(a: Appliance) -> Seq<TestResult> {
    let li = crate::results::latest_indices(a.tests@, a.tests@.len() as int);
    Seq::new(li.len(), |k: int| a.tests@[li[k] as int])
}

/// The row that shows appliance `a`.
pub open spec fn row_of(a: Appliance, format: ReportDateFormat, row: ReportRow) -> bool {
    let finals = final_results(a);
    &&& row.appliance_id@ == truncated(a.appliance_id@, 12)
    &&& row.description@ == truncated(a.description@, 27)
    &&& row.location@ == truncated(a.location@, 18)
    &&& row.test_date@ == date_or_dash(a.test_date, format)
    &&& row.retest_date@ == date_or_dash(a.retest_date, format)
    &&& row.status == a.status
    &&& row.tests@.len() == finals.len()
    &&& forall|k: int| 0 <= k < finals.len() ==> (#[trigger] row.tests@[k])@ == truncated(test_summary_text(finals[k]), 48)
}

pub open spec fn row_indices(rows: Seq<ReportRow>) -> Seq<usize> {
    Seq::new(rows.len(), |k: int| rows[k].index)
}

pub open spec fn row_test_counts(rows: Seq<ReportRow>) -> Seq<usize> {
    Seq::new(rows.len(), |k: int| rows[k].tests@.len() as usize)
}

fn appliance_row(a: &Appliance, index: usize, format: ReportDateFormat) -> (r: ReportRow)
    ensures
        row_of(*a, format, r),
        r.index == index,
        r.page == 0,
{
    let finals = crate::results::latest_tests(a.tests.as_slice());
    let ghost li = crate::results::latest_indices(a.tests@, a.tests@.len() as int);
    let mut tests: Vec<String> = Vec::new();
    let mut k: usize = 0;
    while k < finals.len()
        invariant
            li == crate::results::latest_indices(a.tests@, a.tests@.len() as int),
            finals@.len() == li.len(),
            forall|j: int| 0 <= j < finals@.len() ==> *finals@[j] == a.tests@[li[j] as int],
            0 <= k <= finals@.len(),
            tests@.len() == k,
            forall|j: int| 0 <= j < k ==> (#[trigger] tests@[j])@ == truncated(test_summary_text(final_results(*a)[j]), 48),
        decreases finals.len() - k,
    {
        let summary = test_summary(finals[k]);
        let text = truncate(summary.as_str(), 48);
        proof {
            assert(final_results(*a)[k as int] == a.tests@[li[k as int] as int]);
        }
        let ghost prev = tests@;
        tests.push(text);
        proof {
            assert forall|j: int| 0 <= j < k + 1 implies (#[trigger] tests@[j])@ == truncated(test_summary_text(final_results(*a)[j]), 48) by {
                if j < k {
                    assert(tests@[j] == prev[j]);
                }
            }
        }
        k = k + 1;
    }
    ReportRow {
        index,
        page: 0,
        appliance_id: truncate(a.appliance_id.as_str(), 12),
        description: truncate(a.description.as_str(), 27),
        location: truncate(a.location.as_str(), 18),
        test_date: format_date(a.test_date, format),
        retest_date: format_date(a.retest_date, format),
        status: a.status,
        tests,
    }
}

/// The rows of the appliance report: the appliances that are not removed in
/// report order, each with its final results, and the page it is printed on.
pub fn report_rows(job: &Job) -> (r: Vec<ReportRow>)
    ensures
        ({
            let kept = shown_indices(
                job.appliances@,
                seq![],
                false,
                job.metadata.report_date_format,
                job.appliances@.len() as int,
            );
            let order = row_indices(r@);
            &&& order.len() == kept.len()
            &&& order.to_set() == kept.to_set()
            &&& order.no_duplicates()
            &&& in_key_order(job.appliances@, order, SortKey::Report)
            &&& forall|k: int| 0 <= k < r@.len() ==> row_of(job.appliances@[#[trigger] r@[k].index as int], job.metadata.report_date_format, r@[k])
            &&& forall|k: int| 0 <= k < r@.len() ==> #[trigger] r@[k].page as int == row_places(row_test_counts(r@))[k].0
        }),
{
    let format = job.metadata.report_date_format;
    let count = job.appliances.len();
    let order = sorted_appliances(job);
    let ghost kept = shown_indices(job.appliances@, seq![], false, format, job.appliances@.len() as int);
    proof {
        lemma_shown_indices(job.appliances@, seq![], false, format, job.appliances@.len() as int);
        assert forall|k: int| 0 <= k < order@.len() implies order@[k] < job.appliances@.len() by {
            assert(order@.to_set().contains(order@[k]));
            assert(kept.to_set().contains(order@[k]));
            let j = choose|j: int| 0 <= j < kept.len() && kept[j] == order@[k];
        }
    }
    let mut rows: Vec<ReportRow> = Vec::new();
    let mut counts: Vec<usize> = Vec::new();
    let mut k: usize = 0;
    while k < order.len()
        invariant
            forall|j: int| 0 <= j < order@.len() ==> order@[j] < job.appliances@.len(),
            0 <= k <= order@.len(),
            rows@.len() == k,
            counts@.len() == k,
            forall|j: int| 0 <= j < k ==> (#[trigger] rows@[j]).index == order@[j],
            forall|j: int| 0 <= j < k ==> counts@[j] == (#[trigger] rows@[j]).tests@.len(),
            forall|j: int| 0 <= j < k ==> row_of(job.appliances@[(#[trigger] rows@[j]).index as int], format, rows@[j]),
        decreases order.len() - k,
    {
        let row = appliance_row(&job.appliances[order[k]], order[k], format);
        counts.push(row.tests.len());
        rows.push(row);
        k = k + 1;
    }
    let pages = report_page_numbers(counts.as_slice());
    proof {
        assert(counts@ =~= row_test_counts(rows@));
        lemma_layout_len(counts@);
    }
    let ghost before = rows@;
    let mut k: usize = 0;
    while k < rows.len()
        invariant
            pages@.len() == before.len(),
            forall|j: int| 0 <= j < pages@.len() ==> pages@[j] as int == #[trigger] row_places(row_test_counts(before))[j].0,
            rows@.len() == before.len(),
            0 <= k <= rows@.len(),
            forall|j: int| 0 <= j < rows@.len() ==> (#[trigger] rows@[j]).index == before[j].index,
            forall|j: int| 0 <= j < rows@.len() ==> (#[trigger] rows@[j]).tests == before[j].tests,
            forall|j: int| 0 <= j < rows@.len() ==> row_of(job.appliances@[(#[trigger] rows@[j]).index as int], format, rows@[j]),
            forall|j: int| 0 <= j < k ==> (#[trigger] rows@[j]).page == pages@[j],
        decreases rows.len() - k,
    {
        set_page(&mut rows[k], pages[k]);
        k = k + 1;
    }
    proof {
        assert(row_test_counts(rows@) =~= row_test_counts(before));
        assert(row_indices(rows@) =~= order@);
    }
    rows
}

fn set_page(row: &mut ReportRow, page: usize)
    ensures
        *final(row) == (ReportRow { page, ..*old(row) }),
{
    row.page = page;
}

/// PDF font parsing or file output failure.
#[derive(Clone, Debug, PartialEq, Eq)]
pub enum ReportError {
    InvalidFont,
    /// Writing the PDF failed; the text is the system's description of the error.
    Io(String),
}

pub open spec fn report_error_message(e: ReportError) -> Seq<char> {
    match e {
        ReportError::InvalidFont => "embedded Go font could not be parsed"@,
        ReportError::Io(detail) => "could not write PDF: "@ + detail@,
    }
}

impl ReportError {
    /// The human-readable description of the error.
    pub fn message(&self) -> (r: String)
        ensures
            r@ == report_error_message(*self),
    {
        let mut out = String::new();
        match self {
            ReportError::InvalidFont => append_str(&mut out, "embedded Go font could not be parsed"),
            ReportError::Io(detail) => {
                append_str(&mut out, "could not write PDF: ");
                append_str(&mut out, detail.as_str());
            },
        }
        out
    }
}

} // verus!
