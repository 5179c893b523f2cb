use librepat::about::copyright_years;
use librepat::appliance_order::{sort_indices, SortColumn, SortKey};
use librepat::date::{CalendarDate, ClockTime};
use librepat::date_format::ReportDateFormat;
use librepat::file_types::{case_variants, drop_kind, extension_variants, filter_label, unique_extensions, DropKind};
use librepat::import::ImporterMetadata;
use librepat::model::{
    Appliance, ApplianceStatus, ImportProvenance, Job, JobMetadata, SourceArchive, TestMode,
    TestResult,
};
use librepat::path::with_extension;
use librepat::report::sorted_appliances;
use librepat::selection::{apply_range_selection, position, select_visible, set_selected, RangeSelection};
use librepat::dates::{BulkDateEdit, BulkEditError, DateField};
use librepat::session::{
    format_date, format_display_date, format_time, parse_date, set_removed,
    visible_indices, JobSession, parse_shift_days,
};
use std::collections::BTreeSet;

fn date(year: i32, month: u8, day: u8) -> CalendarDate {
    CalendarDate::from_calendar_date(year, month, day).unwrap()
}

#[test]
fn with_extension_should_replace_a_different_extension() {
    assert_eq!(with_extension("job.sqlite", "librepat"), "job.librepat");
}

#[test]
fn with_extension_should_accept_case_insensitive_match() {
    assert_eq!(with_extension("report.PDF", "pdf"), "report.PDF");
}

#[test]
fn with_extension_should_add_a_missing_extension() {
    assert_eq!(with_extension("exports/job", "librepat"), "exports/job.librepat");
    assert_eq!(with_extension("archive.tar.gz", "pdf"), "archive.tar.pdf");
    assert_eq!(with_extension(".hidden", "pdf"), ".hidden.pdf");
}

fn test_importer() -> ImporterMetadata {
    ImporterMetadata::new("test", "test-format", "Test format", &["flk", "txt"])
}

#[test]
fn drop_kind_should_open_job_extension_case_insensitively() {
    assert_eq!(drop_kind("job.LIBREPAT", &[]), Some(DropKind::Job));
}

#[test]
fn drop_kind_should_import_registered_extension_case_insensitively() {
    assert_eq!(drop_kind("export.FLK", &[test_importer()]), Some(DropKind::TesterExport));
}

#[test]
fn drop_kind_should_reject_an_unsupported_extension() {
    assert_eq!(drop_kind("report.pdf", &[test_importer()]), None);
    assert_eq!(drop_kind("README", &[test_importer()]), None);
}

#[test]
fn import_filter_labels_show_the_supported_extensions() {
    assert_eq!(
        filter_label("Supported tester exports", &["flk", "txt", "asc"]),
        "Supported tester exports (*.flk, *.txt, *.asc)"
    );
    assert_eq!(
        filter_label("Fluke FLK text export", &["flk"]),
        "Fluke FLK text export (*.flk)"
    );
}

#[test]
fn combined_filter_extensions_are_unique_and_case_insensitive() {
    let unique = unique_extensions(&["flk", "txt", "asc", "txt", "asc"]);
    assert_eq!(unique, ["flk", "txt", "asc"]);
    assert_eq!(
        extension_variants(&unique),
        [
            "flk", "flK", "fLk", "fLK", "Flk", "FlK", "FLk", "FLK", "txt", "txT", "tXt", "tXT",
            "Txt", "TxT", "TXt", "TXT", "asc", "asC", "aSc", "aSC", "Asc", "AsC", "ASc", "ASC",
        ]
    );
}

#[test]
fn case_variants_should_keep_other_characters() {
    assert_eq!(case_variants("7z"), ["7z", "7Z"]);
    assert_eq!(case_variants(""), [""]);
    assert_eq!(case_variants("a.b").len(), 4);
}

#[test]
fn apply_range_selection_should_follow_visible_order_inclusively() {
    let mut selection = BTreeSet::from([8]);

    apply_range_selection(&mut selection, &[4, 2, 8, 1], Some(4), 8, RangeSelection::Replace);

    assert_eq!(selection, BTreeSet::from([2, 4, 8]));
}

#[test]
fn apply_range_selection_should_support_reverse_ranges() {
    let mut selection = BTreeSet::new();

    apply_range_selection(&mut selection, &[4, 2, 8, 1], Some(8), 4, RangeSelection::Replace);

    assert_eq!(selection, BTreeSet::from([2, 4, 8]));
}

#[test]
fn apply_range_selection_should_add_to_an_existing_selection() {
    let mut selection = BTreeSet::from([9]);

    apply_range_selection(&mut selection, &[4, 2, 8, 1], Some(2), 1, RangeSelection::Add);

    assert_eq!(selection, BTreeSet::from([1, 2, 8, 9]));
}

#[test]
fn apply_range_selection_should_remove_checked_range() {
    let mut selection = BTreeSet::from([1, 2, 4, 8, 9]);

    apply_range_selection(&mut selection, &[4, 2, 8, 1], Some(2), 1, RangeSelection::Remove);

    assert_eq!(selection, BTreeSet::from([4, 9]));
}

#[test]
fn apply_range_selection_should_use_target_when_anchor_is_hidden() {
    let mut selection = BTreeSet::from([4]);

    let anchor = apply_range_selection(&mut selection, &[2, 8, 1], Some(4), 8, RangeSelection::Replace);

    assert_eq!((selection, anchor), (BTreeSet::from([8]), 8));
}

#[test]
fn position_should_find_the_first_occurrence() {
    assert_eq!(position(&[4, 2, 8, 2], 2), Some(1));
    assert_eq!(position(&[4, 2, 8], 5), None);
    let mut selection = BTreeSet::from([1]);
    set_selected(&mut selection, 3, true);
    set_selected(&mut selection, 1, false);
    assert_eq!(selection, BTreeSet::from([3]));
}

#[test]
fn copyright_should_not_repeat_the_first_year() {
    assert_eq!(copyright_years(2026), "2026");
}

#[test]
fn copyright_should_extend_to_a_later_year() {
    assert_eq!(copyright_years(2027), "2026–2027");
}

fn appliance(id: &str, description: &str, location: &str) -> Appliance {
    Appliance {
        source_record_number: id.into(),
        removed: false,
        appliance_id: id.into(),
        description: description.into(),
        description_segments: vec![description.into()],
        location: location.into(),
        location_segments: vec![location.into()],
        test_date: None,
        test_time: None,
        retest_date: None,
        comments: String::new(),
        mode: TestMode {
            code: "0".into(),
            label: "MAN".into(),
        },
        user: String::new(),
        tests: Vec::<TestResult>::new(),
        status: ApplianceStatus::Pass,
        raw_fields: Vec::new(),
    }
}

fn job() -> Job {
    Job {
        metadata: JobMetadata::default(),
        original_metadata: JobMetadata::default(),
        appliances: vec![
            appliance("B-002", "Desk fan", "Office"),
            appliance("A-001", "Kettle", "Kitchen"),
        ],
        source: SourceArchive {
            provenance: ImportProvenance {
                importer_id: "synthetic-importer".into(),
                format_id: "synthetic-format".into(),
            },
            filename: "synthetic.flk".into(),
            bytes: Vec::new(),
            sha256: [0; 32],
            imported_at: time::OffsetDateTime::UNIX_EPOCH,
            tester_model: String::new(),
            tester_serial: String::new(),
        },
    }
}

#[test]
fn visible_indices_should_filter_across_location() {
    assert_eq!(visible_indices(&job(), "kitchen", false, SortColumn::Id, true), [1]);
}

#[test]
fn visible_indices_should_sort_ids_ascending_by_default() {
    assert_eq!(visible_indices(&job(), "", false, SortColumn::Id, true), [1, 0]);
}

#[test]
fn visible_indices_should_separate_active_and_removed_appliances() {
    let mut job = job();
    job.appliances[0].removed = true;
    assert_eq!(
        (
            visible_indices(&job, "", false, SortColumn::Id, true),
            visible_indices(&job, "", true, SortColumn::Id, true),
        ),
        (vec![1], vec![0])
    );
}

#[test]
fn visible_indices_should_sort_descending_and_by_text_columns() {
    let job = job();
    assert_eq!(visible_indices(&job, "", false, SortColumn::Id, false), [0, 1]);
    assert_eq!(visible_indices(&job, "", false, SortColumn::Description, true), [0, 1]);
    assert_eq!(visible_indices(&job, "", false, SortColumn::Location, true), [1, 0]);
    assert_eq!(visible_indices(&job, " FAN ", false, SortColumn::Id, true), [0]);
    assert_eq!(visible_indices(&job, "pass", false, SortColumn::Status, true), [0, 1]);
}

#[test]
fn sorting_should_keep_equal_appliances_in_index_order() {
    let mut job = job();
    job.appliances.push(appliance("A-001", "Second kettle", "Kitchen"));
    assert_eq!(visible_indices(&job, "", false, SortColumn::Id, true), [1, 2, 0]);
    assert_eq!(sort_indices(&job.appliances, &vec![0, 1, 2], SortKey::Column(SortColumn::Location, true)), [1, 2, 0]);
}

#[test]
fn report_order_should_sort_numeric_ids_naturally_and_omit_removed() {
    let mut job = job();
    job.appliances = vec![
        appliance("10", "Tenth", "Room"),
        appliance("2", "Second", "Room"),
        appliance("1", "First", "Room"),
        appliance("3", "Removed", "Room"),
    ];
    job.appliances[3].removed = true;
    assert_eq!(sorted_appliances(&job), [2, 1, 0]);
}

#[test]
fn parse_date_should_reject_malformed_input() {
    assert!(parse_date("31-02-2026").is_err());
    assert_eq!(parse_date("2026-02-31"), Err("Use a valid date in YYYY-MM-DD format".to_owned()));
}

#[test]
fn parse_date_should_accept_iso_dates_and_blank_text() {
    assert_eq!(parse_date(" 2026-08-24 "), Ok(Some(date(2026, 8, 24))));
    assert_eq!(parse_date("   "), Ok(None));
}

#[test]
fn display_date_should_use_the_selected_report_format() {
    assert_eq!(
        format_display_date(Some(date(2026, 8, 24)), ReportDateFormat::DayMonthYear),
        "24/08/2026"
    );
    assert_eq!(format_display_date(None, ReportDateFormat::DayMonthYear), "");
}

#[test]
fn editor_text_should_show_iso_dates_and_padded_times() {
    assert_eq!(format_date(Some(date(2026, 8, 4))), "2026-08-04");
    assert_eq!(format_date(None), "");
    assert_eq!(format_time(ClockTime::from_hms(9, 5, 0)), "09:05:00");
    assert_eq!(format_time(None), "");
}

#[test]
fn set_removed_should_mark_only_the_selection() {
    let mut appliances = job().appliances;
    assert_eq!(set_removed(&mut appliances, &[1], true), Ok(()));
    assert!(!appliances[0].removed);
    assert!(appliances[1].removed);
    assert_eq!(
        set_removed(&mut appliances, &[0, 7], true),
        Err("Appliance selection contains invalid index 7".to_owned())
    );
    assert!(!appliances[0].removed);
}

#[test]
fn appliance_summary_should_count_shown_appliances() {
    let mut job = job();
    job.appliances[1].status = ApplianceStatus::Fail;
    assert_eq!(librepat::session::appliance_summary(&job, false), "2 appliances · 1 pass · 1 fail");
    job.appliances[0].removed = true;
    assert_eq!(librepat::session::appliance_summary(&job, false), "1 appliances · 0 pass · 1 fail");
    assert_eq!(librepat::session::appliance_summary(&job, true), "1 removed appliances");
}

#[test]
fn select_visible_should_add_every_shown_appliance_and_drop_the_anchor() {
    let mut selection: BTreeSet<usize> = [7].into_iter().collect();
    let mut anchor = Some(7);
    select_visible(&mut selection, &mut anchor, &[2, 4, 7]);
    assert_eq!(selection.into_iter().collect::<Vec<_>>(), vec![2, 4, 7]);
    assert_eq!(anchor, None);
}

#[test]
fn session_set_removed_should_mark_the_selection_and_become_dirty() {
    let mut session = JobSession::new(job());
    assert!(!session.dirty);
    let selection: BTreeSet<usize> = [1].into_iter().collect();
    assert_eq!(session.set_removed(&selection, true), Ok(()));
    assert!(session.dirty);
    assert!(!session.job.appliances[0].removed);
    assert!(session.job.appliances[1].removed);
}

#[test]
fn session_set_removed_should_name_the_smallest_invalid_index() {
    let mut session = JobSession::new(job());
    let selection: BTreeSet<usize> = [9, 0, 7].into_iter().collect();
    assert_eq!(
        session.set_removed(&selection, true),
        Err("Appliance selection contains invalid index 7".to_owned())
    );
    assert!(!session.dirty);
    assert!(!session.job.appliances[0].removed);
}

#[test]
fn session_apply_bulk_should_report_the_smallest_failing_index() {
    let mut session = JobSession::new(job());
    let selection: BTreeSet<usize> = [8, 1, 5].into_iter().collect();
    let result = session.apply_bulk(
        &selection,
        BulkDateEdit::Replace { field: DateField::Retest, value: Some(date(2027, 1, 1)) },
    );
    assert_eq!(result, Err(BulkEditError::InvalidSelection(5)));
    assert!(!session.dirty);
}

#[test]
fn session_apply_bulk_should_edit_the_selection_and_become_dirty() {
    let mut session = JobSession::new(job());
    let selection: BTreeSet<usize> = [1].into_iter().collect();
    let result = session.apply_bulk(
        &selection,
        BulkDateEdit::Replace { field: DateField::Retest, value: Some(date(2027, 1, 1)) },
    );
    assert_eq!(result, Ok(()));
    assert!(session.dirty);
    assert_eq!(session.job.appliances[1].retest_date, Some(date(2027, 1, 1)));
}

#[test]
fn shift_days_should_accept_a_signed_whole_number() {
    assert_eq!(parse_shift_days(" +30 "), Ok(30));
    assert_eq!(parse_shift_days("-7"), Ok(-7));
    assert_eq!(parse_shift_days("-9223372036854775808"), Ok(i64::MIN));
    assert_eq!(parse_shift_days("9223372036854775807"), Ok(i64::MAX));
}

#[test]
fn shift_days_should_reject_other_text() {
    let message = Err("Enter a signed whole number of days".to_owned());
    assert_eq!(parse_shift_days("3.5"), message);
    assert_eq!(parse_shift_days(""), message);
    assert_eq!(parse_shift_days("9223372036854775808"), message);
    assert_eq!(parse_shift_days("1 2"), message);
}

#[test]
fn parse_date_should_follow_the_year_rules_of_the_date_format() {
    assert_eq!(parse_date("2026-08-24"), Ok(Some(date(2026, 8, 24))));
    assert_eq!(parse_date("+1234-05-06"), Ok(Some(date(1234, 5, 6))));
    assert_eq!(parse_date("-0000-01-01"), Ok(Some(date(0, 1, 1))));
    assert_eq!(parse_date("-0001-12-31"), Ok(Some(date(-1, 12, 31))));
    assert_eq!(parse_date("+2026-08-24"), Ok(Some(date(2026, 8, 24))));
    let invalid = Err("Use a valid date in YYYY-MM-DD format".to_owned());
    assert_eq!(parse_date("+12345-01-01"), invalid);
    assert_eq!(parse_date("+01234-05-06"), invalid);
    assert_eq!(parse_date("12026-08-24"), invalid);
    assert_eq!(parse_date("026-08-24"), invalid);
    assert_eq!(parse_date("2026-8-24"), invalid);
    assert_eq!(parse_date("2026-00-24"), invalid);
    assert_eq!(parse_date("2026-02-29"), invalid);
    assert_eq!(parse_date("2024-02-29"), Ok(Some(date(2024, 2, 29))));
    assert_eq!(parse_date("2026-08-24x"), invalid);
}
