use librepat::date::CalendarDate;
use librepat::date_format::ReportDateFormat;
use librepat::dates::{apply_bulk_date_edit, BulkDateEdit, BulkEditError, DateField};
use librepat::identifier_order::compare_identifiers;
use librepat::model::{
    Appliance, ApplianceStatus, Comparison, ContinuedText, Measurement, TestKind, TestMode,
    TestResult, TestStatus,
};
use librepat::results::{latest_test_indices, latest_tests};
use std::cmp::Ordering;

fn result(status: TestStatus) -> TestResult {
    TestResult {
        kind: TestKind::Visual,
        raw_name: "VISUAL CHECK".into(),
        status,
        measurement: None,
        limit: None,
        raw_line: String::new(),
    }
}

fn kind_result(kind: TestKind, status: TestStatus) -> TestResult {
    TestResult {
        raw_name: format!("{kind:?}"),
        kind,
        status,
        measurement: None,
        limit: None,
        raw_line: String::new(),
    }
}

fn date(year: i32, month: u8, day: u8) -> CalendarDate {
    CalendarDate::from_calendar_date(year, month, day).unwrap()
}

fn appliance(retest_date: Option<CalendarDate>) -> Appliance {
    Appliance {
        source_record_number: "1".into(),
        removed: false,
        appliance_id: "A-1".into(),
        description: String::new(),
        description_segments: Vec::new(),
        location: String::new(),
        location_segments: Vec::new(),
        test_date: None,
        test_time: None,
        retest_date,
        comments: String::new(),
        mode: TestMode::default(),
        user: String::new(),
        tests: Vec::new(),
        status: ApplianceStatus::Pass,
        raw_fields: Vec::new(),
    }
}

#[test]
fn overall_status_should_fail_when_any_test_fails() {
    assert_eq!(
        ApplianceStatus::from_tests(&[result(TestStatus::Pass), result(TestStatus::Fail)]),
        Some(ApplianceStatus::Fail)
    );
}

#[test]
fn overall_status_should_pass_when_at_least_one_test_passes() {
    assert_eq!(
        ApplianceStatus::from_tests(&[result(TestStatus::Skipped), result(TestStatus::Pass)]),
        Some(ApplianceStatus::Pass)
    );
}

#[test]
fn overall_status_should_use_the_final_result_for_repeated_tests() {
    assert_eq!(
        ApplianceStatus::from_tests(&[result(TestStatus::Fail), result(TestStatus::Pass)]),
        Some(ApplianceStatus::Pass)
    );
}

#[test]
fn overall_status_should_be_absent_when_all_tests_are_skipped() {
    assert_eq!(ApplianceStatus::from_tests(&[result(TestStatus::Skipped)]), None);
}

#[test]
fn overall_status_should_ignore_a_superseded_failure_of_another_kind() {
    let tests = [
        kind_result(TestKind::EarthBond, TestStatus::Fail),
        kind_result(TestKind::Insulation, TestStatus::Pass),
        kind_result(TestKind::EarthBond, TestStatus::Pass),
    ];
    assert_eq!(ApplianceStatus::from_tests(&tests), Some(ApplianceStatus::Pass));
}

#[test]
fn latest_tests_should_keep_only_the_final_occurrence_of_each_kind() {
    let tests = [
        kind_result(TestKind::EarthBond, TestStatus::Fail),
        kind_result(TestKind::Insulation, TestStatus::Pass),
        kind_result(TestKind::EarthBond, TestStatus::Pass),
    ];

    assert_eq!(latest_test_indices(&tests), [1, 2]);
    assert_eq!(
        latest_tests(&tests)
            .into_iter()
            .map(|test| test.status)
            .collect::<Vec<_>>(),
        [TestStatus::Pass, TestStatus::Pass]
    );
}

#[test]
fn latest_tests_should_tell_unknown_kinds_apart_by_name() {
    let tests = [
        kind_result(TestKind::Unknown("ARC".into()), TestStatus::Fail),
        kind_result(TestKind::Unknown("RCD".into()), TestStatus::Pass),
    ];
    assert_eq!(latest_test_indices(&tests), [0, 1]);
}

#[test]
fn numeric_identifiers_should_sort_by_value() {
    let mut identifiers = ["10", "2", "001", "1"];
    identifiers.sort_by(|left, right| compare_identifiers(left, right));
    assert_eq!(identifiers, ["1", "001", "2", "10"]);
}

#[test]
fn identifiers_should_compare_case_insensitively_then_exactly() {
    assert_eq!(compare_identifiers("a-1", "A-2"), Ordering::Less);
    assert_eq!(compare_identifiers("A-1", "a-1"), Ordering::Less);
    assert_eq!(compare_identifiers(" A-1 ", "A-1"), Ordering::Equal);
    assert_eq!(compare_identifiers("10", "9"), Ordering::Greater);
}

#[test]
fn shift_should_leave_blank_retest_date_blank() {
    let mut appliances = vec![appliance(None)];
    let result = apply_bulk_date_edit(
        &mut appliances,
        &[0],
        BulkDateEdit::Shift {
            field: DateField::Retest,
            days: 30,
        },
    );
    assert!(result.is_ok(), "bulk edit failed: {result:?}");
    assert_eq!(appliances[0].retest_date, None);
}

#[test]
fn invalid_selection_should_not_partially_update() {
    let original = CalendarDate::from_calendar_date(2026, 1, 1);
    let mut appliances = vec![appliance(original)];
    let result = apply_bulk_date_edit(
        &mut appliances,
        &[0, 4],
        BulkDateEdit::Replace {
            field: DateField::Retest,
            value: None,
        },
    );
    assert_eq!(result, Err(BulkEditError::InvalidSelection(4)));
    assert_eq!(appliances[0].retest_date, original);
}

#[test]
fn shift_should_move_a_date_across_a_month_end() {
    let mut appliances = vec![appliance(Some(date(2026, 1, 20)))];
    let result = apply_bulk_date_edit(
        &mut appliances,
        &[0],
        BulkDateEdit::Shift {
            field: DateField::Retest,
            days: 30,
        },
    );
    assert_eq!(result, Ok(()));
    assert_eq!(appliances[0].retest_date, Some(date(2026, 2, 19)));
}

#[test]
fn replace_should_set_the_selected_test_dates() {
    let mut appliances = vec![appliance(None), appliance(None)];
    let result = apply_bulk_date_edit(
        &mut appliances,
        &[1],
        BulkDateEdit::Replace {
            field: DateField::Test,
            value: Some(date(2026, 8, 24)),
        },
    );
    assert_eq!(result, Ok(()));
    assert_eq!(appliances[0].test_date, None);
    assert_eq!(appliances[1].test_date, Some(date(2026, 8, 24)));
}

#[test]
fn default_format_should_be_unambiguous_customer_date() {
    assert_eq!(ReportDateFormat::default().format(&date(2026, 8, 19)), "19 Aug 2026");
}

#[test]
fn each_format_should_write_its_own_layout() {
    let d = date(2026, 8, 24);
    assert_eq!(ReportDateFormat::DayMonthYear.format(&d), "24/08/2026");
    assert_eq!(ReportDateFormat::Iso.format(&d), "2026-08-24");
    assert_eq!(ReportDateFormat::DayMonthNameYear.label(), "19 Aug 2026");
}

#[test]
fn storage_values_should_round_trip() {
    for format in ReportDateFormat::ALL {
        assert_eq!(ReportDateFormat::from_storage_value(format.storage_value()), Some(format));
    }
    assert_eq!(ReportDateFormat::from_storage_value("unknown"), None);
}

#[test]
fn calendar_dates_should_reject_impossible_days() {
    assert!(CalendarDate::from_calendar_date(2026, 2, 29).is_none());
    assert!(CalendarDate::from_calendar_date(2024, 2, 29).is_some());
    assert!(CalendarDate::from_calendar_date(2026, 13, 1).is_none());
}

#[test]
fn continued_text_should_join_trimmed_segments() {
    let text = ContinuedText::from_segments(vec![" Bench ".into(), "".into(), "supply".into()]);
    assert_eq!(text.joined, "Bench supply");
    assert_eq!(text.segments, [" Bench ", "", "supply"]);
}

#[test]
fn measurement_should_display_comparison_value_and_unit() {
    let m = Measurement {
        comparison: Comparison::GreaterThan,
        value: "299.9".into(),
        unit: "MOHM".into(),
    };
    assert_eq!(m.display_value(), ">299.9 MOHM");
    let bare = Measurement {
        comparison: Comparison::Equal,
        value: "0.04".into(),
        unit: String::new(),
    };
    assert_eq!(bare.display_value(), "0.04");
}

#[test]
fn shift_by_an_uncountable_number_of_days_should_report_overflow() {
    let original = Some(date(2026, 1, 20));
    let mut appliances = vec![appliance(original)];
    let result = apply_bulk_date_edit(
        &mut appliances,
        &[0],
        BulkDateEdit::Shift {
            field: DateField::Retest,
            days: i64::MAX,
        },
    );
    assert_eq!(result, Err(BulkEditError::DateOverflow(0)));
    assert_eq!(appliances[0].retest_date, original);
}

#[test]
fn shift_past_the_supported_years_should_report_overflow() {
    let original = Some(date(9999, 12, 1));
    let mut appliances = vec![appliance(original)];
    let result = apply_bulk_date_edit(
        &mut appliances,
        &[0],
        BulkDateEdit::Shift {
            field: DateField::Retest,
            days: 60,
        },
    );
    assert_eq!(result, Err(BulkEditError::DateOverflow(0)));
    assert_eq!(appliances[0].retest_date, original);
}
