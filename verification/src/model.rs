//! Tester-independent jobs, appliances and immutable electrical results.
use crate::date::{CalendarDate, ClockTime};
use crate::date_format::ReportDateFormat;
use crate::import::ImportWarning;
use crate::text::{append_chars, chars_of, push_char, trim, trim_chars, trim_end, trim_end_chars};
use crate::tokens::{string_views};
use vstd::prelude::*;

verus! {

/// Editable postal address fields used for customer, site, and contractor details.
#[derive(Clone, Debug, PartialEq, Eq)]
pub struct PostalAddress {
    pub line_1: String,
    pub line_2: String,
    pub town: String,
    pub county: String,
    pub postcode: String,
}

impl Default for PostalAddress {
    fn default() -> (r: Self)
        ensures
            r.line_1@ == Seq::<char>::empty(),
            r.line_2@ == Seq::<char>::empty(),
            r.town@ == Seq::<char>::empty(),
            r.county@ == Seq::<char>::empty(),
            r.postcode@ == Seq::<char>::empty(),
    {
        PostalAddress {
            line_1: String::new(),
            line_2: String::new(),
            town: String::new(),
            county: String::new(),
            postcode: String::new(),
        }
    }
}

/// Editable job and certificate metadata.
#[derive(Clone, Debug, PartialEq, Eq)]
pub struct JobMetadata {
    pub customer_name: String,
    pub customer_address: PostalAddress,
    pub site_name: String,
    pub site_address: PostalAddress,
    pub contractor_name: String,
    pub contractor_address: PostalAddress,
    pub contractor_telephone: String,
    pub contractor_email: String,
    pub tester_name: String,
    pub certificate_number: String,
    pub order_reference: String,
    pub valid_until: Option<CalendarDate>,
    pub report_date_format: ReportDateFormat,
    pub report_notes: String,
}

impl JobMetadata {
    /// Metadata with every text blank, no validity date and the default date format.
    pub open spec fn is_blank(&self) -> bool {
        &&& self.customer_name@.len() == 0
        &&& self.site_name@.len() == 0
        &&& self.contractor_name@.len() == 0
        &&& self.contractor_telephone@.len() == 0
        &&& self.contractor_email@.len() == 0
        &&& self.tester_name@.len() == 0
        &&& self.certificate_number@.len() == 0
        &&& self.order_reference@.len() == 0
        &&& self.valid_until is None
        &&& self.report_date_format == ReportDateFormat::DayMonthNameYear
        &&& self.report_notes@.len() == 0
    }
}

impl Default for JobMetadata {
    fn default() -> (r: Self)
        ensures
            r.is_blank(),
    {
        JobMetadata {
            customer_name: String::new(),
            customer_address: PostalAddress::default(),
            site_name: String::new(),
            site_address: PostalAddress::default(),
            contractor_name: String::new(),
            contractor_address: PostalAddress::default(),
            contractor_telephone: String::new(),
            contractor_email: String::new(),
            tester_name: String::new(),
            certificate_number: String::new(),
            order_reference: String::new(),
            valid_until: None,
            report_date_format: ReportDateFormat::DayMonthNameYear,
            report_notes: String::new(),
        }
    }
}

/// A tester mode code and its optional text label.
#[derive(Clone, Debug, PartialEq, Eq)]
pub struct TestMode {
    pub code: String,
    pub label: String,
}

impl Default for TestMode {
    fn default() -> (r: Self)
        ensures
            r.code@ == Seq::<char>::empty(),
            r.label@ == Seq::<char>::empty(),
    {
        TestMode { code: String::new(), label: String::new() }
    }
}

/// The segments that are kept when continued text is joined: each trimmed,
/// the blank ones left out.
pub open spec fn trimmed_nonblank(segments: Seq<Seq<char>>) -> Seq<Seq<char>>
    decreases segments.len(),
{
    if segments.len() == 0 {
        seq![]
    } else {
        let rest = trimmed_nonblank(segments.drop_last());
        let t = trim(segments.last());
        if t.len() > 0 {
            rest.push(t)
        } else {
            rest
        }
    }
}

/// Raw segments and their display form for continued tester fields.
#[derive(Clone, Debug, PartialEq, Eq)]
pub struct ContinuedText {
    pub joined: String,
    pub segments: Vec<String>,
}

/// The trimmed non-blank segments joined with single spaces.
pub fn join_trimmed(segments: &Vec<String>) -> (r: String)
    ensures
        r@ == crate::text::join(trimmed_nonblank(string_views(segments@)), seq![' ']),
{
    let ghost segs = string_views(segments@);
    let mut out = String::new();
    let ghost mut kept: Seq<Seq<char>> = seq![];
    let mut any = false;
    let mut i: usize = 0;
    while i < segments.len()
        invariant
            any == (kept.len() > 0),
            segs == string_views(segments@),
            0 <= i <= segments@.len(),
            kept == trimmed_nonblank(segs.take(i as int)),
            out@ == crate::text::join(kept, seq![' ']),
        decreases segments.len() - i,
    {
        let cs = chars_of(segments[i].as_str());
        let t = trim_chars(cs.as_slice());
        proof {
            assert(segs.take(i + 1).drop_last() =~= segs.take(i as int));
            assert(segs.take(i + 1).last() == segs[i as int]);
        }
        if t.len() > 0 {
            if any {
                push_char(&mut out, ' ');
            }
            append_chars(&mut out, t);
            proof {
                let nk = kept.push(t@);
                if kept.len() > 0 {
                    assert(nk.drop_last() =~= kept);
                    assert(out@ =~= crate::text::join(kept, seq![' ']) + seq![' '] + t@);
                } else {
                    assert(out@ =~= t@);
                }
                kept = nk;
            }
            any = true;
        }
        i = i + 1;
    }
    proof {
        assert(segs.take(segments@.len() as int) =~= segs);
    }
    out
}

impl ContinuedText {
    /// Keeps the raw segments and joins their trimmed non-blank forms with spaces.
    pub fn from_segments(segments: Vec<String>) -> (r: Self)
        ensures
            r.segments@ == segments@,
            r.joined@ == crate::text::join(trimmed_nonblank(string_views(segments@)), seq![' ']),
    {
        let joined = join_trimmed(&segments);
        ContinuedText { joined, segments }
    }
}

/// Imported fields that do not have a tester-independent representation.
#[derive(Clone, Debug, PartialEq, Eq)]
pub struct RawField {
    pub name: String,
    pub value: String,
    pub line_number: usize,
}

/// Comparison marker associated with an exact decimal reading.
#[derive(Clone, Copy, Debug, PartialEq, Eq, Structural)]
pub enum Comparison {
    LessThan,
    LessThanOrEqual,
    Equal,
    GreaterThanOrEqual,
    GreaterThan,
}

pub open spec fn comparison_symbol(c: Comparison) -> Seq<char> {
    match c {
        Comparison::LessThan => seq!['<'],
        Comparison::LessThanOrEqual => seq!['<', '='],
        Comparison::Equal => seq![],
        Comparison::GreaterThanOrEqual => seq!['>', '='],
        Comparison::GreaterThan => seq!['>'],
    }
}

impl Comparison {
    pub fn symbol(self) -> (r: &'static str)
        ensures
            r@ == comparison_symbol(self),
    {
        match self {
            Comparison::LessThan => {
                proof {
                    reveal_strlit("<");
                }
                "<"
            },
            Comparison::LessThanOrEqual => {
                proof {
                    reveal_strlit("<=");
                }
                "<="
            },
            Comparison::Equal => {
                proof {
                    reveal_strlit("");
                }
                ""
            },
            Comparison::GreaterThanOrEqual => {
                proof {
                    reveal_strlit(">=");
                }
                ">="
            },
            Comparison::GreaterThan => {
                proof {
                    reveal_strlit(">");
                }
                ">"
            },
        }
    }
}

/// `{symbol}{value} {unit}` without trailing whitespace.
pub open spec fn reading_text(c: Comparison, value: Seq<char>, unit: Seq<char>) -> Seq<char> {
    trim_end(comparison_symbol(c) + value + seq![' '] + unit)
}

/// Writes `{symbol}{value} {unit}` without trailing whitespace.
pub fn reading_string(c: Comparison, value: &String, unit: &String) -> (r: String)
    ensures
        r@ == reading_text(c, value@, unit@),
{
    let mut text = String::new();
    crate::text::append_str(&mut text, c.symbol());
    crate::text::append_str(&mut text, value.as_str());
    push_char(&mut text, ' ');
    crate::text::append_str(&mut text, unit.as_str());
    let cs = chars_of(text.as_str());
    let t = trim_end_chars(cs.as_slice());
    proof {
        assert(cs@ =~= comparison_symbol(c) + value@ + seq![' '] + unit@);
    }
    crate::text::string_of(t)
}

/// Exact tester reading. The decimal text is never converted to floating point.
#[derive(Clone, Debug, PartialEq, Eq)]
pub struct Measurement {
    pub comparison: Comparison,
    pub value: String,
    pub unit: String,
}

impl Measurement {
    pub fn display_value(&self) -> (r: String)
        ensures
            r@ == reading_text(self.comparison, self.value@, self.unit@),
    {
        reading_string(self.comparison, &self.value, &self.unit)
    }
}

/// Exact tester threshold attached to the preceding measurement.
#[derive(Clone, Debug, PartialEq, Eq)]
pub struct Limit {
    pub comparison: Comparison,
    pub value: String,
    pub unit: String,
    pub raw: String,
}

/// Tester-independent test classification with lossless unknown support.
#[derive(Clone, Debug, PartialEq, Eq, Hash)]
pub enum TestKind {
    Visual,
    LeadContinuity,
    IecLead,
    EarthBond,
    Insulation,
    PolarityContinuity,
    TouchCurrent,
    Load,
    Current,
    Leakage,
    SubstituteLeakage,
    Pelv,
    Unknown(String),
}

/// The identity of a test kind: a variant number, and the name for an unknown kind.
pub open spec fn kind_key(k: TestKind) -> (int, Seq<char>) {
    match k {
        TestKind::Visual => (0, seq![]),
        TestKind::LeadContinuity => (1, seq![]),
        TestKind::IecLead => (2, seq![]),
        TestKind::EarthBond => (3, seq![]),
        TestKind::Insulation => (4, seq![]),
        TestKind::PolarityContinuity => (5, seq![]),
        TestKind::TouchCurrent => (6, seq![]),
        TestKind::Load => (7, seq![]),
        TestKind::Current => (8, seq![]),
        TestKind::Leakage => (9, seq![]),
        TestKind::SubstituteLeakage => (10, seq![]),
        TestKind::Pelv => (11, seq![]),
        TestKind::Unknown(name) => (12, name@),
    }
}

fn kind_number(k: &TestKind) -> (r: u8)
    ensures
        r as int == kind_key(*k).0,
{
    match k {
        TestKind::Visual => 0,
        TestKind::LeadContinuity => 1,
        TestKind::IecLead => 2,
        TestKind::EarthBond => 3,
        TestKind::Insulation => 4,
        TestKind::PolarityContinuity => 5,
        TestKind::TouchCurrent => 6,
        TestKind::Load => 7,
        TestKind::Current => 8,
        TestKind::Leakage => 9,
        TestKind::SubstituteLeakage => 10,
        TestKind::Pelv => 11,
        TestKind::Unknown(_) => 12,
    }
}

/// Whether two test kinds are the same kind.
pub fn same_kind(a: &TestKind, b: &TestKind) -> (r: bool)
    ensures
        r == (kind_key(*a) == kind_key(*b)),
{
    match (a, b) {
        (TestKind::Unknown(x), TestKind::Unknown(y)) => *x == *y,
        _ => kind_number(a) == kind_number(b),
    }
}

/// Outcome reported for an individual test.
#[derive(Clone, Copy, Debug, PartialEq, Eq, Structural)]
pub enum TestStatus {
    Pass,
    Fail,
    Skipped,
}

/// Immutable imported electrical result.
#[derive(Clone, Debug, PartialEq, Eq)]
pub struct TestResult {
    pub kind: TestKind,
    pub raw_name: String,
    pub status: TestStatus,
    pub measurement: Option<Measurement>,
    pub limit: Option<Limit>,
    pub raw_line: String,
}

/// Derived appliance outcome.
#[derive(Clone, Copy, Debug, PartialEq, Eq, Structural)]
pub enum ApplianceStatus {
    Pass,
    Fail,
}

/// Appliance metadata and immutable imported electrical results.
#[derive(Clone, Debug, PartialEq, Eq)]
pub struct Appliance {
    pub source_record_number: String,
    pub removed: bool,
    pub appliance_id: String,
    pub description: String,
    pub description_segments: Vec<String>,
    pub location: String,
    pub location_segments: Vec<String>,
    pub test_date: Option<CalendarDate>,
    pub test_time: Option<ClockTime>,
    pub retest_date: Option<CalendarDate>,
    pub comments: String,
    pub mode: TestMode,
    pub user: String,
    pub tests: Vec<TestResult>,
    pub status: ApplianceStatus,
    pub raw_fields: Vec<RawField>,
}

/// Stable importer and format identity recorded when a source is imported.
#[derive(Clone, Debug, PartialEq, Eq)]
pub struct ImportProvenance {
    pub importer_id: String,
    pub format_id: String,
}

impl ImportProvenance {
    pub fn new(importer_id: &str, format_id: &str) -> (r: Self)
        ensures
            r.importer_id@ == importer_id@,
            r.format_id@ == format_id@,
    {
        ImportProvenance {
            importer_id: importer_id.to_owned(),
            format_id: format_id.to_owned(),
        }
    }
}

/// Original import bytes, provenance, and tester identity embedded in a portable job.
#[derive(Clone, Debug, PartialEq, Eq)]
pub struct SourceArchive {
    pub provenance: ImportProvenance,
    pub filename: String,
    pub bytes: Vec<u8>,
    pub sha256: [u8; 32],
    pub imported_at: time::OffsetDateTime,
    pub tester_model: String,
    pub tester_serial: String,
}

/// Editable job state loaded by the application.
#[derive(Clone, Debug, PartialEq, Eq)]
pub struct Job {
    pub metadata: JobMetadata,
    pub original_metadata: JobMetadata,
    pub appliances: Vec<Appliance>,
    pub source: SourceArchive,
}

/// Result returned by an importer before the destination job is accepted.
#[derive(Clone, Debug, PartialEq, Eq)]
pub struct ImportedJob {
    pub job: Job,
    pub warnings: Vec<ImportWarning>,
}

} // verus!
