use librepat::date::{CalendarDate, ClockTime};
use librepat::fluke::{self, FlukeAdapter, FlukeImporter};
use librepat::import::{
    Detection, ImportError, ImportSource, ImportWarningKind, ImporterMetadata, ImporterRegistry,
    TesterImporter,
};
use librepat::kewtech::{self, KewtechImporter};
use librepat::labelled::{
    decode_ascii, decode_utf8, field, has_field, FieldMapping, FieldTarget, LabelledTextAdapter,
    Separator,
};
use librepat::model::{
    ApplianceStatus, Comparison, ImportProvenance, ImportedJob, Job, JobMetadata, SourceArchive,
    TestKind, TestStatus,
};
use librepat::seaward::{self, SeawardImporter};
use librepat::value::{parse_dmy_date, parse_hms_time, parse_measurement};

fn date(year: i32, month: u8, day: u8) -> CalendarDate {
    CalendarDate::from_calendar_date(year, month, day).unwrap()
}

fn fluke_import(bytes: &[u8]) -> ImportedJob {
    FlukeImporter::default()
        .import(&ImportSource::new("synthetic.flk", bytes))
        .unwrap_or_else(|error| panic!("synthetic import failed: {}", error.message()))
}

fn regression_import(bytes: &[u8]) -> ImportedJob {
    FlukeImporter::default()
        .import(&ImportSource::new("anonymous.flk", bytes))
        .unwrap_or_else(|error| panic!("synthetic import failed: {}", error.message()))
}

fn kewtech_import(bytes: &[u8]) -> ImportedJob {
    KewtechImporter::default()
        .import(&ImportSource::new("synthetic.asc", bytes))
        .unwrap_or_else(|error| panic!("fixture import failed: {}", error.message()))
}

fn seaward_import(bytes: &[u8]) -> ImportedJob {
    SeawardImporter::default()
        .import(&ImportSource::new("synthetic.txt", bytes))
        .unwrap_or_else(|error| panic!("fixture import failed: {}", error.message()))
}

#[test]
fn ascii_decoder_should_distinguish_non_ascii_from_invalid_utf8() {
    let error = match decode_ascii("Café".as_bytes()) {
        Ok(_) => panic!("valid UTF-8 containing non-ASCII text was accepted"),
        Err(error) => error,
    };
    assert!(matches!(error, ImportError::NonAscii));
    assert_eq!(error.message(), "the source contains non-ASCII text");
}

#[test]
fn utf8_decoder_should_keep_reporting_invalid_utf8() {
    let error = match decode_utf8(&[0xff]) {
        Ok(_) => panic!("invalid UTF-8 was accepted"),
        Err(error) => error,
    };
    assert!(matches!(error, ImportError::InvalidText));
}

#[test]
fn decoders_should_return_the_text_of_valid_bytes() {
    assert_eq!(decode_utf8("Café".as_bytes()).ok(), Some("Café"));
    assert_eq!(decode_ascii(b"TEST NUMBER 1").ok(), Some("TEST NUMBER 1"));
    assert!(matches!(decode_ascii(&[0xff]), Err(ImportError::NonAscii)));
}

#[test]
fn combined_reading_should_preserve_a_numeric_test_name_suffix() {
    let (name, measurement) = parse_measurement(&["INS", "1", ">299.9MEG"]);
    let measurement = measurement.unwrap_or_else(|| panic!("combined reading was not parsed"));
    assert_eq!(
        (
            name.as_str(),
            measurement.comparison,
            measurement.value.as_str(),
            measurement.unit.as_str(),
        ),
        ("INS 1", Comparison::GreaterThan, "299.9", "MEG")
    );
}

#[test]
fn separate_reading_and_unit_should_remain_supported() {
    let (name, measurement) = parse_measurement(&["INS", "1", ">299.9", "MEG"]);
    let measurement = measurement.unwrap_or_else(|| panic!("separate reading was not parsed"));
    assert_eq!(
        (
            name.as_str(),
            measurement.comparison,
            measurement.value.as_str(),
            measurement.unit.as_str(),
        ),
        ("INS 1", Comparison::GreaterThan, "299.9", "MEG")
    );
}

#[test]
fn a_name_without_reading_should_have_no_measurement() {
    let (name, measurement) = parse_measurement(&["VISUAL", "CHECK"]);
    assert_eq!(name, "VISUAL CHECK");
    assert!(measurement.is_none());
}

#[test]
fn day_month_year_dates_should_use_the_year_pivot() {
    assert_eq!(parse_dmy_date("01-JAN-80", '-', 80), Some(date(1980, 1, 1)));
    assert_eq!(parse_dmy_date("31-DEC-79", '-', 80), Some(date(2079, 12, 31)));
    assert_eq!(parse_dmy_date("24/08/2026", '/', 80), Some(date(2026, 8, 24)));
    assert_eq!(parse_dmy_date("31/02/2026", '/', 80), None);
}

#[test]
fn clock_times_should_accept_optional_seconds() {
    assert_eq!(parse_hms_time("14:05:09"), ClockTime::from_hms(14, 5, 9));
    assert_eq!(parse_hms_time("09:30"), ClockTime::from_hms(9, 30, 0));
    assert_eq!(parse_hms_time("25:00"), None);
}

#[test]
fn two_digit_year_80_should_use_twentieth_century() {
    assert_eq!(
        FlukeAdapter.parse_date("01-JAN-80").map(|date| date.year()),
        Some(1980)
    );
}

#[test]
fn two_digit_year_79_should_use_twenty_first_century() {
    assert_eq!(
        FlukeAdapter.parse_date("31-DEC-79").map(|date| date.year()),
        Some(2079)
    );
}

#[test]
fn detection_should_not_treat_test_number_as_a_fluke_signature() {
    let bytes = b"TEST NUMBER 1\nAPP NO A-1\nVISUAL CHECK P\n";
    assert_eq!(
        FlukeAdapter.detect_text(&ImportSource::new("source.txt", bytes), "TEST NUMBER 1\n"),
        Detection::NotRecognized
    );
    assert_eq!(
        FlukeAdapter.detect_text(&ImportSource::new("source.flk", bytes), "TEST NUMBER 1\n"),
        Detection::Possible
    );
}

#[test]
fn fields_should_follow_their_separator_rules() {
    let whitespace = FieldMapping::new("SITE", FieldTarget::Site(0), Separator::Whitespace);
    let exact = FieldMapping::new("SITE1", FieldTarget::Site(1), Separator::Exact(" "));
    assert_eq!(field("SITE   Example", &whitespace), Some("Example"));
    assert_eq!(field("SITE", &whitespace), Some(""));
    assert_eq!(field("SITE1 E   NORTH WI", &whitespace), None);
    assert_eq!(field("SITE1 E   NORTH WI", &exact), Some("E   NORTH WI"));
    assert_eq!(field("SITE2 NG", &exact), None);
    assert!(has_field("MODEL X\nSITE  Here\n", &whitespace));
    assert!(!has_field("MODEL X\n", &whitespace));
}

#[test]
fn continuation_fields_should_rejoin_words_split_at_field_boundaries() {
    let imported = fluke_import(
        b"MODEL  SYNTHETIC\nTEST NUMBER  1\nAPP NO  A-001\nSITE  EXAMPLE HOUS\nSITE1 E   NORTH WI\nSITE2 NG\nVISUAL CHECK  P\nEND OF DATA\n",
    );
    assert_eq!(imported.job.metadata.site_name, "EXAMPLE HOUSE NORTH WING");
}

#[test]
fn continuation_fields_should_join_and_retain_segments() {
    let imported = fluke_import(
        b"MODEL  SYNTHETIC\nTEST NUMBER  1\nAPP NO  A-001\nDES1  Bench\nDES2  supply\nLOC1  Workshop\nVISUAL CHECK  P\nEND OF DATA\n",
    );
    let appliance = &imported.job.appliances[0];
    assert_eq!(appliance.description, "Bench supply");
    assert_eq!(appliance.description_segments, ["Bench", "supply", ""]);
    assert_eq!(appliance.location_segments, ["Workshop", ""]);
}

#[test]
fn limit_without_measurement_should_be_preserved_and_warned() {
    let imported = fluke_import(
        b"MODEL  SYNTHETIC\nTEST NUMBER  1\nAPP NO  A-001\nVISUAL CHECK  P\nLIMIT  >0.10 OHM\nEND OF DATA\n",
    );
    assert_eq!(imported.job.appliances[0].tests[0].limit, None);
    assert_eq!(
        imported.job.appliances[0].raw_fields[0].value,
        "LIMIT  >0.10 OHM"
    );
    assert!(imported.warnings.iter().any(|warning| {
        warning.kind == ImportWarningKind::InconsistentField
            && warning.message.contains("does not follow a measurement")
    }));
}

#[test]
fn limit_should_attach_to_preceding_measurement() {
    let imported = fluke_import(
        b"MODEL  SYNTHETIC\nTEST NUMBER  1\nAPP NO  A-001\nEARTH  0.04 OHM P\nLIMIT  <0.10 OHM\nEND OF DATA\n",
    );
    let limit = imported.job.appliances[0].tests[0]
        .limit
        .as_ref()
        .unwrap_or_else(|| panic!("expected earth limit"));
    assert_eq!(
        (limit.comparison, limit.value.as_str(), limit.unit.as_str(), limit.raw.as_str()),
        (Comparison::LessThan, "0.10", "OHM", "<0.10 OHM")
    );
}

#[test]
fn status_should_use_the_final_repeated_test_result() {
    let imported = fluke_import(
        b"MODEL  SYNTHETIC\nTEST NUMBER  1\nAPP NO  A-001\nEARTH  9.99 OHM F\nEARTH  0.04 OHM P\nEND OF DATA\n",
    );
    assert_eq!(imported.job.appliances[0].tests.len(), 2);
    assert_eq!(imported.job.appliances[0].status, ApplianceStatus::Pass);
}

#[test]
fn records_with_only_skipped_tests_should_be_discarded() {
    let imported = fluke_import(
        b"MODEL SYNTHETIC\nTEST NUMBER 1\nAPP NO A-001\nVISUAL CHECK S\nTEST NUMBER 2\nAPP NO A-002\nVISUAL CHECK P\nEND OF DATA\n",
    );
    assert_eq!(imported.job.appliances.len(), 1);
    assert_eq!(imported.job.appliances[0].appliance_id, "A-002");
    assert!(imported.warnings.iter().any(|warning| {
        warning.kind == ImportWarningKind::IncompleteRecord
            && warning.message.contains("no final pass or fail")
    }));
}

#[test]
fn pelv_limit_should_attach_without_a_reported_reading() {
    let imported = fluke_import(
        b"MODEL  SYNTHETIC\nTEST NUMBER  1\nAPP NO  A-001\nPROBE PELV  P\nLIMIT  25 V\nEND OF DATA\n",
    );
    let limit = imported.job.appliances[0].tests[0]
        .limit
        .as_ref()
        .unwrap_or_else(|| panic!("expected PELV limit"));
    assert_eq!((limit.value.as_str(), limit.unit.as_str()), ("25", "V"));
    assert_eq!(imported.job.appliances[0].tests[0].kind, TestKind::Pelv);
}

#[test]
fn bond_range_should_be_preserved_without_an_import_warning() {
    let imported = fluke_import(
        b"MODEL  SYNTHETIC\nTEST NUMBER  1\nAPP NO  A-001\nBOND RANGE   200mA\nEARTH  0.10 OHM P\nEND OF DATA\n",
    );
    assert!(
        imported.warnings.is_empty(),
        "unexpected warnings: {:?}",
        imported.warnings
    );
    assert_eq!(imported.job.appliances[0].raw_fields[0].name, "BOND RANGE");
}

#[test]
fn missing_end_marker_should_return_warning() {
    let imported = fluke_import(b"MODEL SYNTHETIC\nTEST NUMBER 1\nAPP NO A-001\nVISUAL CHECK P\n");
    assert!(imported.warnings.iter().any(|warning| {
        warning.kind == ImportWarningKind::IncompleteRecord
            && warning.message.contains("end-of-data")
    }));
}

#[test]
fn malformed_date_should_warn_and_leave_date_blank() {
    let imported = fluke_import(
        b"MODEL SYNTHETIC\nTEST NUMBER 1\nDATE 31-FEB-24\nAPP NO A-001\nVISUAL CHECK P\nEND OF DATA\n",
    );
    assert_eq!(imported.job.appliances[0].test_date, None);
    assert!(imported.warnings.iter().any(|warning| {
        warning.kind == ImportWarningKind::InvalidDate && warning.message == "date `31-FEB-24` is not valid"
    }));
}

#[test]
fn numeric_month_should_remain_invalid_for_fluke_dates() {
    let imported = fluke_import(
        b"MODEL SYNTHETIC\nTEST NUMBER 1\nDATE 01-01-24\nAPP NO A-001\nVISUAL CHECK P\nEND OF DATA\n",
    );
    assert_eq!(imported.job.appliances[0].test_date, None);
    assert!(
        imported
            .warnings
            .iter()
            .any(|warning| warning.kind == ImportWarningKind::InvalidDate)
    );
}

#[test]
fn word_status_should_remain_unrecognized_for_fluke_results() {
    let result = FlukeImporter::default().import(&ImportSource::new(
        "synthetic.flk",
        b"MODEL SYNTHETIC\nTEST NUMBER 1\nAPP NO A-001\nVISUAL CHECK PASS\nEND OF DATA\n",
    ));
    assert!(matches!(result, Err(ImportError::NoUsableRecords)));
}

#[test]
fn unknown_line_should_be_preserved_and_warned() {
    let imported = fluke_import(
        b"MODEL SYNTHETIC\nTEST NUMBER 1\nAPP NO A-001\nTEST VOLTAGE   500V\nLEAD CONTINUITY  P\nEND OF DATA\n",
    );
    assert_eq!(
        imported.job.appliances[0].raw_fields[0].value,
        "TEST VOLTAGE   500V"
    );
    assert_eq!(imported.job.appliances[0].raw_fields[0].name, "TEST");
    assert!(
        imported
            .warnings
            .iter()
            .any(|warning| warning.kind == ImportWarningKind::UnknownLine)
    );
}

#[test]
fn unsupported_mode_should_be_kept_and_warned() {
    let imported = fluke_import(
        b"MODEL SYNTHETIC\nTEST NUMBER 1\nAPP NO A-001\nTEST MODE 999 CUSTOM  MODE\nVISUAL CHECK P\nEND OF DATA\n",
    );
    let mode = &imported.job.appliances[0].mode;
    assert_eq!((mode.code.as_str(), mode.label.as_str()), ("999", "CUSTOM MODE"));
    assert!(imported.warnings.iter().any(|warning| {
        warning.kind == ImportWarningKind::UnsupportedMode
            && warning.message == "preserved unrecognized test mode `999`"
    }));
}

#[test]
fn duplicate_appliance_id_should_warn_without_rejecting_records() {
    let imported = fluke_import(
        b"MODEL SYNTHETIC\nTEST NUMBER 1\nAPP NO  A-001\nVISUAL CHECK P\nTEST NUMBER 2\nAPP NO  A-001\nVISUAL CHECK P\nEND OF DATA\n",
    );
    assert_eq!(imported.job.appliances.len(), 2);
    assert!(imported.warnings.iter().any(|warning| {
        warning.kind == ImportWarningKind::DuplicateId && warning.message == "duplicate appliance ID `A-001`"
    }));
}

#[test]
fn inconsistent_site_should_warn_without_losing_record() {
    let imported = fluke_import(
        b"MODEL SYNTHETIC\nTEST NUMBER 1\nAPP NO A-001\nSITE  Example\nVISUAL CHECK P\nTEST NUMBER 2\nAPP NO A-002\nSITE  Different\nVISUAL CHECK P\nEND OF DATA\n",
    );
    assert_eq!(imported.job.appliances.len(), 2);
    assert_eq!(imported.job.metadata.site_name, "Example");
    assert!(
        imported
            .warnings
            .iter()
            .any(|warning| warning.kind == ImportWarningKind::InconsistentField)
    );
}

#[test]
fn crlf_input_should_preserve_original_bytes() {
    let crlf = b"MODEL SYNTHETIC\r\nTEST NUMBER 1\r\nAPP NO A-001\r\nVISUAL CHECK P\r\nEND OF DATA\r\n";
    let imported = fluke_import(crlf);
    assert_eq!(imported.job.source.bytes, crlf.to_vec());
    assert_eq!(imported.job.appliances[0].appliance_id, "A-001");
    assert!(imported.warnings.is_empty(), "unexpected warnings: {:?}", imported.warnings);
}

#[test]
fn end_marker_should_stop_later_records_from_being_imported() {
    let imported = regression_import(
        b"MODEL SYNTHETIC\nTEST NUMBER 1\nAPP NO A-001\nVISUAL CHECK P\nEND OF DATA\nTEST NUMBER 2\nAPP NO A-002\nVISUAL CHECK F\n",
    );
    assert_eq!(
        imported
            .job
            .appliances
            .iter()
            .map(|appliance| appliance.appliance_id.as_str())
            .collect::<Vec<_>>(),
        ["A-001"]
    );
}

#[test]
fn header_and_record_fields_should_reach_their_destinations() {
    let imported = regression_import(
        b"MODEL SYNTHETIC\nSN ANONYMOUS-0001\nTEST NUMBER 7\nDATE 24-AUG-26\nAPP NO A-007\nVISUAL CHECK P\nEND OF DATA\n",
    );
    let appliance = &imported.job.appliances[0];
    assert_eq!(
        (
            imported.job.source.tester_model.as_str(),
            imported.job.source.tester_serial.as_str(),
            appliance.source_record_number.as_str(),
            appliance.appliance_id.as_str(),
            appliance.test_date,
        ),
        (
            "SYNTHETIC",
            "ANONYMOUS-0001",
            "7",
            "A-007",
            Some(date(2026, 8, 24)),
        )
    );
}

#[test]
fn imported_source_should_keep_its_digest_and_provenance() {
    let bytes = b"MODEL SYNTHETIC\nTEST NUMBER 1\nAPP NO A-001\nVISUAL CHECK P\nEND OF DATA\n";
    let imported = fluke_import(bytes);
    let source = &imported.job.source;
    assert_eq!(source.provenance, ImportProvenance::new("librepat-fluke", "fluke-flk-text"));
    assert_eq!(source.filename, "synthetic.flk");
    assert_eq!(
        source.sha256,
        [
            20, 228, 127, 113, 202, 120, 17, 227, 79, 56, 41, 161, 50, 230, 34, 99, 185, 245, 141,
            116, 227, 56, 143, 128, 198, 94, 126, 140, 242, 158, 169, 12,
        ]
    );
    let again = fluke_import(bytes);
    assert_eq!(again.job.source.sha256, source.sha256);
    let other = fluke_import(b"MODEL OTHER\nTEST NUMBER 1\nAPP NO A-001\nVISUAL CHECK P\nEND OF DATA\n");
    assert_ne!(other.job.source.sha256, source.sha256);
}

#[test]
fn detection_should_require_kewtech_specific_fields() {
    let importer = KewtechImporter::default();
    assert_eq!(
        importer.detect(&ImportSource::new(
            "synthetic.asc",
            b"TEST NUMBER 1\nDATE 24/08/2026\nAPP NO A-001\nDESCRIPTION Anonymous appliance\nLOCN Test room\nVISUAL CHECK P\n"
        )),
        Detection::Certain
    );
    assert_eq!(
        importer.detect(&ImportSource::new(
            "generic.asc",
            b"TEST NUMBER 1\nAPP NO A-1\nVISUAL CHECK P\n"
        )),
        Detection::NotRecognized
    );
}

#[test]
fn fixture_should_map_every_supported_field_and_result() {
    let imported = kewtech_import(
        b"TEST NUMBER 1\nDATE 24/08/2026\nAPP NO A-001\nDESCRIPTION Anonymous appliance\nLOCN Test room\nSITE Example Site\nTEXT  Synthetic fixture only\nVISUAL CHECK P\nEARTH 0.09 OHM P\nINS >199.9 MOHM P\n",
    );
    let appliance = &imported.job.appliances[0];
    assert_eq!(imported.job.source.provenance, kewtech::importer_metadata().provenance());
    assert_eq!(imported.job.source.tester_model, "Kewtech KT74/77");
    assert_eq!(imported.job.metadata.site_name, "Example Site");
    assert_eq!(appliance.test_date, Some(date(2026, 8, 24)));
    assert_eq!(appliance.appliance_id, "A-001");
    assert_eq!(appliance.description, "Anonymous appliance");
    assert_eq!(appliance.location, "Test room");
    assert_eq!(appliance.comments, "Synthetic fixture only");
    assert_eq!(appliance.raw_fields[0].name, "TEXT");
    assert_eq!(appliance.raw_fields[0].value, "TEXT  Synthetic fixture only");
    assert_eq!(appliance.tests.len(), 3);
    assert_eq!(appliance.tests[1].kind, TestKind::EarthBond);
    assert_eq!(appliance.tests[2].kind, TestKind::Insulation);
    assert_eq!(
        appliance.tests[2].measurement.as_ref().map(|m| m.display_value()),
        Some(">199.9 MOHM".to_owned())
    );
}

#[test]
fn malformed_unknown_and_duplicate_fields_should_warn_without_data_loss() {
    let imported = kewtech_import(
        b"TEST NUMBER 1\nDATE 31/02/2026\nAPP NO A-1\nDESCRIPTION Anonymous item\nLOCN Test room\nMYSTERY VALUE\nEARTH 0.09 OHM P\nTEST NUMBER 1\nAPP NO A-1\nDESCRIPTION Anonymous item\nLOCN Test room\nEARTH 0.08 OHM P\n",
    );
    assert_eq!(imported.job.appliances.len(), 2);
    assert_eq!(imported.job.appliances[0].test_date, None);
    assert_eq!(
        imported.job.appliances[0].raw_fields[0].value,
        "MYSTERY VALUE"
    );
    for kind in [
        ImportWarningKind::InvalidDate,
        ImportWarningKind::UnknownLine,
        ImportWarningKind::DuplicateId,
    ] {
        assert!(imported.warnings.iter().any(|warning| warning.kind == kind));
    }
    assert_eq!(
        imported
            .warnings
            .iter()
            .filter(|warning| warning.kind == ImportWarningKind::DuplicateId)
            .count(),
        2
    );
}

#[test]
fn detection_should_require_seaward_specific_markers() {
    let importer = SeawardImporter::default();
    assert_eq!(
        importer.detect(&ImportSource::new(
            "synthetic.txt",
            b"TESTER PrimeTest 350\nTEST NUMBER 1\nTIME 14:05:09\nAPP NO A-001\nTEST MODE AUTO\nEARTH CURRENT 200mA\nEARTH 0.1 OHM P\n"
        )),
        Detection::Certain
    );
    assert_eq!(
        importer.detect(&ImportSource::new(
            "generic.txt",
            b"TEST NUMBER  1\nAPP NO  A-001\n"
        )),
        Detection::NotRecognized
    );
}

#[test]
fn fixture_should_normalize_fields_and_preserve_source() {
    let imported = seaward_import(
        b"TESTER PrimeTest 350\nTEST NUMBER 1\nDATE 24/08/2026\nTIME 14:05:09\nAPP NO A-001\nTEST MODE AUTO  CLASS I\nEARTH CURRENT 200mA\nUSER Operator\nSITE Example Site\nIEC P\nEARTH 0.1 OHM P\n",
    );
    let appliance = &imported.job.appliances[0];
    assert_eq!(imported.job.source.tester_model, "PrimeTest 350");
    assert_eq!(imported.job.metadata.site_name, "Example Site");
    assert_eq!(imported.job.metadata.tester_name, "Operator");
    assert_eq!(appliance.test_date, Some(date(2026, 8, 24)));
    assert_eq!(appliance.test_time, ClockTime::from_hms(14, 5, 9));
    assert_eq!(appliance.mode.code, "AUTO");
    assert_eq!(appliance.mode.label, "AUTO  CLASS I");
    assert_eq!(appliance.raw_fields[0].name, "EARTH CURRENT");
    assert_eq!(appliance.tests[0].kind, TestKind::IecLead);
    assert_eq!(imported.job.source.provenance, seaward::importer_metadata().provenance());
}

#[test]
fn malformed_values_unknown_fields_and_duplicates_should_warn() {
    let imported = seaward_import(
        b"TESTER PrimeTest 350\nTEST NUMBER 1\nDATE 31/02/2026\nTIME 25:00\nAPP NO A-1\nTEST MODE AUTO\nEARTH CURRENT 200mA\nMYSTERY VALUE\nEARTH 0.1 OHM P\nTEST NUMBER 1\nAPP NO A-1\nEARTH 0.1 OHM P\n",
    );
    for kind in [
        ImportWarningKind::InvalidDate,
        ImportWarningKind::InvalidTime,
        ImportWarningKind::UnknownLine,
        ImportWarningKind::DuplicateId,
    ] {
        assert!(imported.warnings.iter().any(|warning| warning.kind == kind));
    }
    assert_eq!(
        imported.job.appliances[0].raw_fields[1].value,
        "MYSTERY VALUE"
    );
}

#[test]
fn word_statuses_should_be_read_by_ascii_formats() {
    let imported = kewtech_import(
        b"TEST NUMBER 1\nAPP NO A-1\nDESCRIPTION Item\nLOCN Room\nVISUAL CHECK PASS\nEARTH 0.1 OHM SKIPPED\n",
    );
    let tests = &imported.job.appliances[0].tests;
    assert_eq!(tests[0].status, TestStatus::Pass);
    assert_eq!(tests[1].status, TestStatus::Skipped);
}

#[test]
fn registry_should_select_each_labelled_ascii_adapter() {
    let mut registry = ImporterRegistry::new();
    fluke::register(&mut registry);
    seaward::register(&mut registry);
    kewtech::register(&mut registry);

    let cases = [
        (
            "source.flk",
            b"MODEL 6500\nTEST NUMBER 1\nAPP NO A-1\nVISUAL CHECK P\nEND OF DATA\n".as_slice(),
            "fluke-flk-text",
        ),
        (
            "source.txt",
            b"TESTER PrimeTest 350\nTEST NUMBER 1\nTIME 09:30\nAPP NO A-1\nTEST MODE AUTO\nIEC P\n"
                .as_slice(),
            "seaward-primetest-ascii",
        ),
        (
            "source.asc",
            b"TEST NUMBER 1\nAPP NO A-1\nDESCRIPTION Item\nLOCN Room\nVISUAL CHECK P\n".as_slice(),
            "kewtech-kt74-77-ascii",
        ),
    ];
    for (filename, bytes, format_id) in cases {
        let imported = registry
            .import(&ImportSource::new(filename, bytes))
            .unwrap_or_else(|error| panic!("{filename} import failed: {}", error.message()));
        assert_eq!(imported.job.source.provenance.format_id, format_id);
    }
}

#[derive(Clone, Copy)]
struct PossibleImporter;

impl TesterImporter for PossibleImporter {
    fn metadata(&self) -> ImporterMetadata {
        ImporterMetadata::new("test", "ambiguous-test", "Test", &[])
    }

    fn detect(&self, _source: &ImportSource<'_>) -> Detection {
        Detection::Possible
    }

    fn import(&self, _source: &ImportSource<'_>) -> Result<ImportedJob, ImportError> {
        Err(ImportError::NotRecognized)
    }
}

#[test]
fn registry_should_report_equal_confidence_as_ambiguous() {
    let mut registry = ImporterRegistry::new();
    registry.register(PossibleImporter);
    registry.register(PossibleImporter);
    let error = match registry.import(&ImportSource::new("source.txt", b"match")) {
        Ok(_) => panic!("equal confidence selected by registration order"),
        Err(error) => error,
    };
    assert!(matches!(error, ImportError::AmbiguousImporter { .. }));
    assert_eq!(
        error.message(),
        "multiple importers matched the source equally: ambiguous-test, ambiguous-test"
    );
}

struct SyntheticImporter;

fn synthetic_metadata() -> ImporterMetadata {
    ImporterMetadata::new(
        "synthetic-importer",
        "synthetic-format",
        "Synthetic tester export",
        &["synthetic"],
    )
}

impl TesterImporter for SyntheticImporter {
    fn metadata(&self) -> ImporterMetadata {
        synthetic_metadata()
    }

    fn detect(&self, source: &ImportSource<'_>) -> Detection {
        if source.bytes.starts_with(b"SYNTHETIC FORMAT") {
            Detection::Certain
        } else {
            Detection::NotRecognized
        }
    }

    fn import(&self, source: &ImportSource<'_>) -> Result<ImportedJob, ImportError> {
        if self.detect(source) == Detection::NotRecognized {
            return Err(ImportError::NotRecognized);
        }
        let mut metadata = JobMetadata::default();
        metadata.site_name = "Synthetic adapter".into();
        Ok(ImportedJob {
            job: Job {
                metadata: metadata.clone(),
                original_metadata: metadata,
                appliances: Vec::new(),
                source: SourceArchive {
                    provenance: ImportProvenance {
                        importer_id: "unstamped".into(),
                        format_id: "unstamped".into(),
                    },
                    filename: source.filename.into(),
                    bytes: source.bytes.into(),
                    sha256: [0; 32],
                    imported_at: time::OffsetDateTime::UNIX_EPOCH,
                    tester_model: String::new(),
                    tester_serial: String::new(),
                },
            },
            warnings: Vec::new(),
        })
    }
}

#[test]
fn registry_should_select_between_fluke_and_synthetic_importers() {
    let mut registry = ImporterRegistry::new();
    fluke::register(&mut registry);
    registry.register(SyntheticImporter);

    let synthetic = registry
        .import(&ImportSource::new("source.synthetic", b"SYNTHETIC FORMAT\n"))
        .unwrap_or_else(|error| panic!("synthetic import failed: {}", error.message()));
    assert_eq!(synthetic.job.metadata.site_name, "Synthetic adapter");
    assert_eq!(synthetic.job.source.provenance, synthetic_metadata().provenance());

    let fluke = registry
        .import(&ImportSource::new(
            "source.flk",
            b"MODEL  SYNTHETIC\nTEST NUMBER  1\nAPP NO  A-001\nVISUAL CHECK  P\nEND OF DATA\n",
        ))
        .unwrap_or_else(|error| panic!("Fluke import failed: {}", error.message()));
    assert_eq!(fluke.job.source.provenance, fluke::importer_metadata().provenance());
}

#[test]
fn registry_should_report_an_unrecognized_source() {
    let mut registry = ImporterRegistry::new();
    fluke::register(&mut registry);
    let error = match registry.import(&ImportSource::new("notes.txt", b"hello\n")) {
        Ok(_) => panic!("an unrelated file was imported"),
        Err(error) => error,
    };
    assert!(matches!(error, ImportError::NoImporter));
    assert_eq!(ImporterRegistry::new().metadata().len(), 0);
}

#[test]
fn importer_failure_should_name_the_format() {
    let mut registry = ImporterRegistry::new();
    fluke::register(&mut registry);
    let error = match registry.import(&ImportSource::new(
        "source.flk",
        b"MODEL SYNTHETIC\nTEST NUMBER 1\nVISUAL CHECK S\nEND OF DATA\n",
    )) {
        Ok(_) => panic!("a source without usable records was imported"),
        Err(error) => error,
    };
    assert_eq!(
        error.message(),
        "importer `fluke-flk-text` failed: no usable appliance records were found"
    );
}

#[test]
fn application_registry_should_include_every_supported_adapter() {
    let format_ids = librepat::importers::registry()
        .metadata()
        .into_iter()
        .map(|metadata| metadata.format_id)
        .collect::<Vec<_>>();
    assert_eq!(
        format_ids,
        [
            "fluke-flk-text",
            "seaward-primetest-ascii",
            "kewtech-kt74-77-ascii",
        ]
    );
}

const MODES: &[u8] = b"MODEL  SYNTHETIC\nSN  0001\nTEST NUMBER  1\nDATE  01-JAN-80\nAPP NO  A-001\nTEST MODE  0 MANUAL\nSITE  Example\nDES1  Bench\nDES2  supply\nVISUAL CHECK  P\nEARTH  0.04 OHM P\nLIMIT  <0.10 OHM\nINS 1  >299.9 MEG P\nTEST NUMBER  2\nAPP NO  A-002\nTEST MODE  133\nVISUAL CHECK  P\nEARTH  9.99 OHM F\nTEST NUMBER  3\nAPP NO  A-003\nTEST MODE  333\nVISUAL CHECK  P\nLKGE  0.10 mA P\nTEST NUMBER  4\nAPP NO  A-004\nTEST MODE  336\nPROBE PELV  P\nARC TEST  S\nEND OF DATA\n";

#[test]
fn fixture_should_cover_all_observed_modes() {
    let imported = fluke_import(MODES);
    let modes = imported
        .job
        .appliances
        .iter()
        .map(|appliance| appliance.mode.code.as_str())
        .collect::<Vec<_>>();
    assert_eq!(modes, ["0", "133", "333", "336"]);
    assert!(imported.warnings.is_empty(), "unexpected warnings: {:?}", imported.warnings);
}

#[test]
fn exact_reading_should_preserve_comparison_and_decimal() {
    let imported = fluke_import(MODES);
    let measurement = imported.job.appliances[0].tests[2]
        .measurement
        .as_ref()
        .unwrap_or_else(|| panic!("expected insulation measurement"));
    assert_eq!(
        (measurement.comparison, measurement.value.as_str()),
        (Comparison::GreaterThan, "299.9")
    );
    assert_eq!(imported.job.appliances[0].tests[2].raw_name, "INS 1");
    assert_eq!(imported.job.appliances[0].tests[2].kind, TestKind::Insulation);
}

#[test]
fn status_should_fail_when_any_test_fails() {
    let imported = fluke_import(MODES);
    assert_eq!(imported.job.appliances[1].status, ApplianceStatus::Fail);
    assert_eq!(imported.job.appliances[0].status, ApplianceStatus::Pass);
}

#[test]
fn skipped_unknown_test_should_be_preserved() {
    let imported = fluke_import(MODES);
    let test = &imported.job.appliances[3].tests[1];
    assert_eq!(test.kind, TestKind::Unknown("ARC TEST".into()));
    assert_eq!(test.status, TestStatus::Skipped);
}

#[test]
fn pelv_test_should_import_without_mode_schema() {
    let imported = fluke_import(MODES);
    assert_eq!(imported.job.appliances[3].tests[0].kind, TestKind::Pelv);
}

#[test]
fn modes_333_and_336_should_not_require_earth_result() {
    let imported = fluke_import(MODES);
    let relevant = imported
        .job
        .appliances
        .iter()
        .filter(|appliance| matches!(appliance.mode.code.as_str(), "333" | "336"));
    assert!(relevant.into_iter().all(|appliance| {
        appliance
            .tests
            .iter()
            .all(|test| test.kind != TestKind::EarthBond)
    }));
}

#[test]
fn header_fields_should_fill_the_job() {
    let imported = fluke_import(MODES);
    let first = &imported.job.appliances[0];
    assert_eq!(imported.job.source.tester_model, "SYNTHETIC");
    assert_eq!(imported.job.source.tester_serial, "0001");
    assert_eq!(imported.job.metadata.site_name, "Example");
    assert_eq!(imported.job.original_metadata.site_name, "Example");
    assert_eq!(first.test_date, Some(date(1980, 1, 1)));
    assert_eq!(first.mode.label, "MANUAL");
    assert_eq!(first.description, "Bench supply");
    assert_eq!(first.tests[1].limit.as_ref().map(|limit| limit.value.as_str()), Some("0.10"));
}

#[test]
fn parse_source_should_record_the_given_import_time() {
    let text = "MODEL  6500\nTEST NUMBER  1\nAPP NO  A-001\nVISUAL CHECK  P\nEND OF DATA\n";
    let source = ImportSource::new("synthetic.flk", text.as_bytes());
    let now = time::OffsetDateTime::UNIX_EPOCH;
    let imported = librepat::parser::parse_source(&FlukeAdapter, &source, text, now)
        .unwrap_or_else(|error| panic!("import failed: {}", error.message()));
    assert_eq!(imported.job.source.imported_at, now);
    assert_eq!(imported.job.source.bytes, text.as_bytes());
}

#[test]
fn registry_metadata_should_follow_registration_order() {
    let mut registry = ImporterRegistry::new();
    kewtech::register(&mut registry);
    fluke::register(&mut registry);
    let format_ids = registry
        .metadata()
        .into_iter()
        .map(|metadata| metadata.format_id)
        .collect::<Vec<_>>();
    assert_eq!(format_ids, ["kewtech-kt74-77-ascii", "fluke-flk-text"]);
}

#[test]
fn parse_exact_should_read_back_each_comparison_symbol_with_the_text_kept() {
    for comparison in [
        Comparison::LessThan,
        Comparison::LessThanOrEqual,
        Comparison::Equal,
        Comparison::GreaterThanOrEqual,
        Comparison::GreaterThan,
    ] {
        let input = format!("{}{}", comparison.symbol(), "0.10");
        assert_eq!(
            librepat::value::parse_exact(&input),
            Some((comparison, "0.10".to_owned()))
        );
    }
    assert_eq!(librepat::value::parse_exact("PASS"), None);
    assert_eq!(librepat::value::parse_exact(">"), None);
    assert_eq!(librepat::value::parse_exact("1.2.3"), None);
}
