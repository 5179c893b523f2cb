use librepat::date::CalendarDate;
use librepat::date_format::ReportDateFormat;
use librepat::model::{
    Appliance, ApplianceStatus, Comparison, ImportProvenance, Job, JobMetadata, Limit, Measurement,
    PostalAddress, SourceArchive, TestKind, TestMode, TestResult, TestStatus,
};
use librepat::report::{
    address_lines, appliance_height, blank_as_dash, format_date, report_page_numbers, status_text,
    summarize_job, test_status_text, test_summary, testing_period, truncate, uppercase_label,
    JobSummary, ReportError,
};

fn date(year: i32, month: u8, day: u8) -> CalendarDate {
    CalendarDate::from_calendar_date(year, month, day).unwrap()
}

fn pelv_result() -> TestResult {
    TestResult {
        kind: TestKind::Pelv,
        raw_name: "PROBE PELV".into(),
        status: TestStatus::Skipped,
        measurement: Some(Measurement {
            comparison: Comparison::Equal,
            value: "47".into(),
            unit: "V".into(),
        }),
        limit: Some(Limit {
            comparison: Comparison::Equal,
            value: "50".into(),
            unit: "V".into(),
            raw: "50 V".into(),
        }),
        raw_line: "PROBE PELV 47 V P".into(),
    }
}

fn sample_job() -> Job {
    let mut metadata = JobMetadata::default();
    metadata.customer_name = "Current customer".into();
    metadata.site_name = "Synthetic test site".into();
    metadata.tester_name = "Test operator".into();
    metadata.certificate_number = "CERT-001".into();
    let appliance = Appliance {
        source_record_number: "1".into(),
        removed: false,
        appliance_id: "A-001".into(),
        description: "Synthetic control panel".into(),
        description_segments: vec!["Synthetic control panel".into()],
        location: "Plant room".into(),
        location_segments: vec!["Plant room".into()],
        test_date: Some(date(2026, 2, 3)),
        test_time: None,
        retest_date: Some(date(2027, 2, 3)),
        comments: String::new(),
        mode: TestMode {
            code: "0".into(),
            label: "MAN".into(),
        },
        user: "Test operator".into(),
        tests: vec![pelv_result()],
        status: ApplianceStatus::Pass,
        raw_fields: Vec::new(),
    };
    let appliances = (1..=25)
        .map(|index| {
            let mut a = appliance.clone();
            a.appliance_id = format!("A-{index:03}");
            a.source_record_number = index.to_string();
            a
        })
        .collect();
    Job {
        metadata,
        original_metadata: JobMetadata::default(),
        appliances,
        source: SourceArchive {
            provenance: ImportProvenance::new("synthetic-importer", "synthetic-format"),
            filename: "synthetic.flk".into(),
            bytes: b"synthetic".to_vec(),
            sha256: [0; 32],
            imported_at: time::OffsetDateTime::UNIX_EPOCH,
            tester_model: "SYNTHETIC".into(),
            tester_serial: "0001".into(),
        },
    }
}

#[test]
fn job_summary_should_omit_removed_appliances() {
    let mut job = sample_job();
    job.appliances[0].removed = true;

    let summary = summarize_job(&job);

    assert_eq!((summary.appliances, summary.passed, summary.failed), (24, 24, 0));
}

#[test]
fn job_summary_should_span_the_test_dates() {
    let mut job = sample_job();
    job.appliances[3].test_date = Some(date(2026, 1, 15));
    job.appliances[4].test_date = Some(date(2026, 3, 1));
    job.appliances[5].status = ApplianceStatus::Fail;
    job.appliances[6].test_date = Some(date(2025, 12, 1));
    job.appliances[6].removed = true;
    let summary = summarize_job(&job);
    assert_eq!(
        summary,
        JobSummary {
            appliances: 24,
            passed: 23,
            failed: 1,
            first_test: Some(date(2026, 1, 15)),
            last_test: Some(date(2026, 3, 1)),
        }
    );
    assert_eq!(
        testing_period(&summary, ReportDateFormat::DayMonthYear),
        "15/01/2026 to 01/03/2026"
    );
}

#[test]
fn testing_period_should_name_one_date_or_none() {
    let one = JobSummary {
        appliances: 1,
        passed: 1,
        failed: 0,
        first_test: Some(date(2027, 2, 3)),
        last_test: Some(date(2027, 2, 3)),
    };
    assert_eq!(testing_period(&one, ReportDateFormat::DayMonthNameYear), "03 Feb 2027");
    assert_eq!(testing_period(&JobSummary::default(), ReportDateFormat::Iso), "Not recorded");
}

#[test]
fn test_summary_should_list_name_outcome_reading_and_limit() {
    assert_eq!(test_summary(&pelv_result()), "PROBE PELV · SKIPPED · 47 V · limit 50 V");
    let mut bare = pelv_result();
    bare.measurement = None;
    bare.limit = None;
    bare.status = TestStatus::Fail;
    assert_eq!(test_summary(&bare), "PROBE PELV · FAIL");
}

#[test]
fn outcome_texts_should_be_upper_case() {
    assert_eq!(status_text(ApplianceStatus::Pass), "PASS");
    assert_eq!(status_text(ApplianceStatus::Fail), "FAIL");
    assert_eq!(test_status_text(TestStatus::Skipped), "SKIPPED");
}

#[test]
fn missing_dates_and_blank_text_should_show_a_dash() {
    assert_eq!(format_date(None, ReportDateFormat::Iso), "—");
    assert_eq!(format_date(Some(date(2026, 8, 24)), ReportDateFormat::Iso), "2026-08-24");
    assert_eq!(blank_as_dash("  "), "—");
    assert_eq!(blank_as_dash("CERT-001"), "CERT-001");
}

#[test]
fn truncate_should_end_long_text_with_an_ellipsis() {
    assert_eq!(truncate("short", 12), "short");
    assert_eq!(truncate("Synthetic control panel", 10), "Synthetic…");
    assert_eq!(truncate("abc", 0), "…");
}

#[test]
fn address_lines_should_skip_blank_lines() {
    let address = PostalAddress {
        line_1: "Example House".into(),
        line_2: "  ".into(),
        town: "Exampleton".into(),
        county: String::new(),
        postcode: "EX1 2AB".into(),
    };
    assert_eq!(address_lines(&address), ["Example House", "Exampleton", "EX1 2AB"]);
    assert_eq!(uppercase_label("Valid until"), "VALID UNTIL");
}

#[test]
fn report_rows_should_break_onto_new_pages() {
    assert_eq!(appliance_height(0), 29);
    assert_eq!(appliance_height(4), 40);
    let pages = report_page_numbers(&[2; 25]);
    assert_eq!(pages[0], 0);
    assert_eq!(pages[14], 0);
    assert_eq!(pages[15], 1);
    assert_eq!(pages[24], 1);
    assert_eq!(report_page_numbers(&[200, 1]), [0, 1]);
}

#[test]
fn certificate_should_use_current_metadata_and_expected_summary() {
    let mut job = sample_job();
    job.metadata.customer_address.line_1 = "Example House".into();
    job.metadata.customer_address.line_2 = "Long Industrial Estate Road".into();
    job.metadata.customer_address.town = "Exampleton".into();
    job.metadata.customer_address.postcode = "EX1 2AB".into();
    job.metadata.contractor_telephone = "   ".into();
    job.metadata.order_reference = "PO-7".into();
    job.metadata.report_date_format = ReportDateFormat::DayMonthYear;
    job.appliances[1].status = ApplianceStatus::Fail;
    let content = librepat::report::certificate_content(&job, date(2026, 8, 24));
    assert_eq!(content.customer, "Current customer");
    assert_eq!(content.site, "Synthetic test site");
    assert_eq!(content.certificate_number, "CERT-001");
    assert_eq!(
        content.customer_address,
        ["Example House", "Long Industrial Estate Road", "Exampleton", "EX1 2AB"]
    );
    assert_eq!(content.site_address, Vec::<String>::new());
    assert_eq!((content.appliances, content.passed, content.failed), (25, 24, 1));
    assert_eq!(content.testing_period, "03/02/2026");
    assert_eq!(content.valid_until, None);
    assert_eq!(content.order_reference, Some("PO-7".to_owned()));
    assert_eq!(content.telephone, None);
    assert_eq!(content.email, None);
    assert_eq!(content.tester_name, Some("Test operator".to_owned()));
    assert_eq!(content.declaration_date, "24/08/2026");
}

#[test]
fn certificate_should_show_valid_until_only_when_explicitly_set() {
    let mut job = sample_job();
    job.metadata.valid_until = Some(date(2027, 2, 3));
    let content = librepat::report::certificate_content(&job, date(2026, 8, 24));
    assert_eq!(content.valid_until, Some("03 Feb 2027".to_owned()));
}

#[test]
fn appliance_report_should_omit_removed_appliances() {
    let mut job = sample_job();
    job.appliances[0].removed = true;
    let header = librepat::report::report_header(&job);
    let rows = librepat::report::report_rows(&job);
    assert_eq!(header.appliance_count, "24 appliances");
    assert_eq!(header.certificate, "Certificate CERT-001");
    assert_eq!(header.site, "Synthetic test site");
    assert_eq!(rows.len(), 24);
    assert!(rows.iter().all(|row| row.appliance_id != "A-001"));
}

#[test]
fn appliance_report_should_include_final_tests_without_an_annex() {
    let rows = librepat::report::report_rows(&sample_job());
    let first = &rows[0];
    assert_eq!(first.appliance_id, "A-001");
    assert_eq!(first.description, "Synthetic control panel");
    assert_eq!(first.location, "Plant room");
    assert_eq!(first.test_date, "03 Feb 2026");
    assert_eq!(first.retest_date, "03 Feb 2027");
    assert_eq!(first.tests, ["PROBE PELV · SKIPPED · 47 V · limit 50 V"]);
    assert_eq!(rows[14].page, 0);
    assert_eq!(rows[15].page, 1);
}

#[test]
fn appliance_report_should_use_the_final_repeated_test() {
    let mut job = sample_job();
    let mut earlier = pelv_result();
    earlier.status = TestStatus::Fail;
    earlier.measurement = Some(Measurement {
        comparison: Comparison::Equal,
        value: "9.99".into(),
        unit: "V".into(),
    });
    job.appliances[0].tests.insert(0, earlier);
    let rows = librepat::report::report_rows(&job);
    assert_eq!(rows[0].tests, ["PROBE PELV · SKIPPED · 47 V · limit 50 V"]);
}

#[test]
fn appliance_report_should_sort_numeric_ids_naturally() {
    let mut job = sample_job();
    job.appliances.truncate(3);
    job.appliances[0].appliance_id = "10".into();
    job.appliances[0].description = "Tenth".into();
    job.appliances[1].appliance_id = "2".into();
    job.appliances[1].description = "Second".into();
    job.appliances[2].appliance_id = "1".into();
    job.appliances[2].description = "First".into();
    let rows = librepat::report::report_rows(&job);
    assert_eq!(
        rows.iter().map(|row| row.description.as_str()).collect::<Vec<_>>(),
        ["First", "Second", "Tenth"]
    );
}

#[test]
fn report_errors_should_describe_themselves() {
    assert_eq!(ReportError::InvalidFont.message(), "embedded Go font could not be parsed");
    assert_eq!(
        ReportError::Io("disk full".into()).message(),
        "could not write PDF: disk full"
    );
}

#[test]
fn certificate_should_render_postal_address_lines_without_truncation() {
    let mut job = sample_job();
    job.metadata.customer_address = PostalAddress {
        line_1: "Example House".into(),
        line_2: "Long Industrial Estate Road".into(),
        town: "Exampleton".into(),
        county: String::new(),
        postcode: "EX1 2AB".into(),
    };
    let content = librepat::report::certificate_content(&job, date(2026, 8, 24));
    assert!(content.customer_address.iter().any(|line| line == "Long Industrial Estate Road"));
}

#[test]
fn certificate_should_use_saved_numeric_date_format() {
    let mut job = sample_job();
    job.metadata.report_date_format = ReportDateFormat::DayMonthYear;
    job.metadata.valid_until = Some(date(2027, 2, 3));
    let content = librepat::report::certificate_content(&job, date(2026, 8, 24));
    assert_eq!(content.valid_until, Some("03/02/2027".to_owned()));
}

#[test]
fn declaration_date_should_use_the_selected_format() {
    let mut job = sample_job();
    job.metadata.report_date_format = ReportDateFormat::DayMonthYear;
    let content = librepat::report::certificate_content(&job, date(2026, 8, 24));
    assert_eq!(content.declaration_date, "24/08/2026");
}

#[test]
fn certificate_should_omit_internal_provenance_note() {
    let job = sample_job();
    let content = librepat::report::certificate_content(&job, date(2026, 8, 24));
    let mut texts = vec![
        content.certificate_number.clone(),
        content.customer.clone(),
        content.site.clone(),
        content.testing_period.clone(),
        content.contractor.clone(),
        content.declaration_date.clone(),
    ];
    texts.extend(content.customer_address.iter().cloned());
    texts.extend(content.site_address.iter().cloned());
    texts.extend(content.contractor_address.iter().cloned());
    assert!(texts.iter().all(|text| !text.contains("Results remain as imported")));
    assert_eq!(content.contractor, "");
}

fn clock(hour: u8, minute: u8, second: u8) -> librepat::date::ClockTime {
    librepat::date::ClockTime::from_hms(hour, minute, second).unwrap()
}

#[test]
fn local_calendar_date_should_apply_the_available_offset() {
    assert_eq!(
        librepat::report::calendar_date_at_offset(date(2026, 8, 24), clock(23, 30, 0), Some(3600)),
        date(2026, 8, 25)
    );
}

#[test]
fn local_calendar_date_should_fall_back_to_utc_when_offset_is_unavailable() {
    assert_eq!(
        librepat::report::calendar_date_at_offset(date(2026, 8, 24), clock(23, 30, 0), None),
        date(2026, 8, 24)
    );
}

#[test]
fn local_calendar_date_should_move_back_across_a_year_for_a_western_offset() {
    assert_eq!(
        librepat::report::calendar_date_at_offset(date(2026, 1, 1), clock(0, 30, 0), Some(-3600)),
        date(2025, 12, 31)
    );
}
