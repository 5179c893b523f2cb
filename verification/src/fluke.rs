//! Lossless importer for Fluke FLK text exports.
use crate::date::CalendarDate;
use crate::date::ClockTime;
use crate::import::{Detection, ImportError, ImportSource, ImporterMetadata, ImporterRegistry};
use crate::labelled::{
    decode_utf8, has_field, text_has_field, utf8_decoding, FieldMapping, FieldTarget,
    LabelledTextAdapter, LabelledTextImporter, Separator, TextField,
};
use crate::model::{TestKind, TestMode, TestStatus};
use crate::path::{extension_matches, has_extension_ignoring_case};
use crate::text::{chars_of, has_prefix, is_ascii_alpha, join, split_on, string_of, str_equals, trim, trim_chars, words};
use crate::tokens::{join_slices, split_on_char, split_words, views};
use crate::value::{dmy_date, parse_dmy_date};
use vstd::prelude::*;

verus! {

/// Fluke-specific rules for the shared labelled-text pipeline.
#[derive(Clone, Copy, Debug)]
pub struct FlukeAdapter;

impl Default for FlukeAdapter {
    fn default() -> (r: Self)
        ensures
            r == FlukeAdapter,
    {
        FlukeAdapter
    }
}

/// Shared labelled-text importer configured with Fluke format rules.
pub type FlukeImporter = LabelledTextImporter<FlukeAdapter>;

impl Default for LabelledTextImporter<FlukeAdapter> {
    fn default() -> (r: Self)
        ensures
            r.inner() == FlukeAdapter,
    {
        LabelledTextImporter::new(FlukeAdapter)
    }
}

pub open spec fn fluke_metadata() -> ImporterMetadata {
    ImporterMetadata {
        importer_id: "librepat-fluke",
        format_id: "fluke-flk-text",
        display_name: "Fluke FLK text export",
        extensions: &["flk"],
    }
}

/// Metadata for the Fluke text-export adapter.
pub fn importer_metadata() -> (r: ImporterMetadata)
    ensures
        r == fluke_metadata(),
{
    ImporterMetadata {
        importer_id: "librepat-fluke",
        format_id: "fluke-flk-text",
        display_name: "Fluke FLK text export",
        extensions: &["flk"],
    }
}

/// The Fluke labels in match priority order.
pub open spec fn fluke_mappings() -> Seq<FieldMapping> {
    seq![
        FieldMapping { label: "MODEL", target: FieldTarget::TesterModel, separator: Separator::Whitespace },
        FieldMapping { label: "SN", target: FieldTarget::TesterSerial, separator: Separator::Whitespace },
        FieldMapping { label: "TEST NUMBER", target: FieldTarget::RecordNumber, separator: Separator::Whitespace },
        FieldMapping { label: "DATE", target: FieldTarget::TestDate, separator: Separator::Whitespace },
        FieldMapping { label: "APP NO", target: FieldTarget::ApplianceId, separator: Separator::Whitespace },
        FieldMapping { label: "TEST MODE", target: FieldTarget::TestMode, separator: Separator::Whitespace },
        FieldMapping { label: "SITE1", target: FieldTarget::Site(1), separator: Separator::Exact(" ") },
        FieldMapping { label: "SITE2", target: FieldTarget::Site(2), separator: Separator::Exact(" ") },
        FieldMapping { label: "SITE", target: FieldTarget::Site(0), separator: Separator::Exact("  ") },
        FieldMapping { label: "USER", target: FieldTarget::User, separator: Separator::Whitespace },
        FieldMapping { label: "DES1", target: FieldTarget::Description(0), separator: Separator::Exact("  ") },
        FieldMapping { label: "DES2", target: FieldTarget::Description(1), separator: Separator::Exact("  ") },
        FieldMapping { label: "DES3", target: FieldTarget::Description(2), separator: Separator::Exact("  ") },
        FieldMapping { label: "LOC1", target: FieldTarget::Location(0), separator: Separator::Exact("  ") },
        FieldMapping { label: "LOC2", target: FieldTarget::Location(1), separator: Separator::Exact("  ") },
        FieldMapping { label: "BOND RANGE", target: FieldTarget::Preserve, separator: Separator::Whitespace },
        FieldMapping { label: "LIMIT", target: FieldTarget::Limit, separator: Separator::Whitespace },
    ]
}

fn mapping_vec() -> (r: Vec<FieldMapping>)
    ensures
        r@ == fluke_mappings(),
{
    let r = vec![
        FieldMapping { label: "MODEL", target: FieldTarget::TesterModel, separator: Separator::Whitespace },
        FieldMapping { label: "SN", target: FieldTarget::TesterSerial, separator: Separator::Whitespace },
        FieldMapping { label: "TEST NUMBER", target: FieldTarget::RecordNumber, separator: Separator::Whitespace },
        FieldMapping { label: "DATE", target: FieldTarget::TestDate, separator: Separator::Whitespace },
        FieldMapping { label: "APP NO", target: FieldTarget::ApplianceId, separator: Separator::Whitespace },
        FieldMapping { label: "TEST MODE", target: FieldTarget::TestMode, separator: Separator::Whitespace },
        FieldMapping { label: "SITE1", target: FieldTarget::Site(1), separator: Separator::Exact(" ") },
        FieldMapping { label: "SITE2", target: FieldTarget::Site(2), separator: Separator::Exact(" ") },
        FieldMapping { label: "SITE", target: FieldTarget::Site(0), separator: Separator::Exact("  ") },
        FieldMapping { label: "USER", target: FieldTarget::User, separator: Separator::Whitespace },
        FieldMapping { label: "DES1", target: FieldTarget::Description(0), separator: Separator::Exact("  ") },
        FieldMapping { label: "DES2", target: FieldTarget::Description(1), separator: Separator::Exact("  ") },
        FieldMapping { label: "DES3", target: FieldTarget::Description(2), separator: Separator::Exact("  ") },
        FieldMapping { label: "LOC1", target: FieldTarget::Location(0), separator: Separator::Exact("  ") },
        FieldMapping { label: "LOC2", target: FieldTarget::Location(1), separator: Separator::Exact("  ") },
        FieldMapping { label: "BOND RANGE", target: FieldTarget::Preserve, separator: Separator::Whitespace },
        FieldMapping { label: "LIMIT", target: FieldTarget::Limit, separator: Separator::Whitespace },
    ];
    assert(r@ =~= fluke_mappings());
    r
}

/// Certain with a record number and a tester model; possible with record
/// numbers and an `.flk` name; otherwise not recognized.
pub open spec fn fluke_detection(filename: Seq<char>, text: Seq<char>) -> Detection {
    let has_records = text_has_field(text, fluke_mappings()[2]);
    let has_model = text_has_field(text, fluke_mappings()[0]);
    if has_records && has_model {
        Detection::Certain
    } else if has_records && has_extension_ignoring_case(filename, "flk"@) {
        Detection::Possible
    } else {
        Detection::NotRecognized
    }
}

/// A day, month name and two- or four-digit year separated by hyphens; the
/// month must be letters only.
pub open spec fn fluke_date(value: Seq<char>) -> Option<(int, int, int)> {
    let parts = split_on(trim(value), '-');
    if parts.len() < 2 {
        None
    } else if !(forall|i: int| 0 <= i < parts[1].len() ==> is_ascii_alpha(#[trigger] parts[1][i])) {
        None
    } else {
        dmy_date(value, '-', 80)
    }
}

/// The Fluke test names and their kinds.
pub open spec fn fluke_kind(name: Seq<char>) -> (int, Seq<char>) {
    if name == "VISUAL CHECK"@ {
        (0, seq![])
    } else if name == "LEAD CONTINUITY"@ {
        (1, seq![])
    } else if name == "EARTH"@ {
        (3, seq![])
    } else if has_prefix(name, "INS "@) {
        (4, seq![])
    } else if name == "PN CONTINUITY"@ {
        (5, seq![])
    } else if name == "TOUCH"@ {
        (6, seq![])
    } else if name == "LOAD"@ {
        (7, seq![])
    } else if name == "CURRENT"@ {
        (8, seq![])
    } else if name == "LKGE"@ {
        (9, seq![])
    } else if has_prefix(name, "SUBST "@) {
        (10, seq![])
    } else if name == "PROBE PELV"@ {
        (11, seq![])
    } else {
        (12, name)
    }
}

/// The first word is the mode code and the rest, joined by single spaces, its label.
pub open spec fn fluke_mode(value: Seq<char>) -> (Seq<char>, Seq<char>) {
    let ws = words(value);
    if ws.len() == 0 {
        (seq![], seq![])
    } else {
        (ws[0], join(ws.skip(1), seq![' ']))
    }
}

/// The mode codes observed in Fluke exports.
pub open spec fn fluke_mode_supported(code: Seq<char>) -> bool {
    ||| code == "0"@
    ||| code == "133"@
    ||| code == "136"@
    ||| code == "231"@
    ||| code == "232"@
    ||| code == "233"@
    ||| code == "333"@
    ||| code == "334"@
    ||| code == "336"@
}

/// Fluke writes single-letter statuses only.
pub open spec fn fluke_status(token: Seq<char>) -> Option<TestStatus> {
    if token == "P"@ {
        Some(TestStatus::Pass)
    } else if token == "F"@ {
        Some(TestStatus::Fail)
    } else if token == "S"@ {
        Some(TestStatus::Skipped)
    } else {
        None
    }
}

fn is_prefix_of(prefix: &str, name: &str) -> (r: bool)
    ensures
        r == has_prefix(name@, prefix@),
{
    let p = chars_of(prefix);
    let n = chars_of(name);
    crate::text::starts_with(n.as_slice(), p.as_slice())
}

impl LabelledTextAdapter for FlukeAdapter {
    open spec fn meta(&self) -> ImporterMetadata {
        fluke_metadata()
    }

    open spec fn decoding(&self, bytes: Seq<u8>) -> Result<Seq<char>, ImportError> {
        utf8_decoding(bytes)
    }

    open spec fn detection(&self, filename: Seq<char>, text: Seq<char>) -> Detection {
        fluke_detection(filename, text)
    }

    open spec fn mapping_list(&self) -> Seq<FieldMapping> {
        fluke_mappings()
    }

    open spec fn date_of(&self, value: Seq<char>) -> Option<(int, int, int)> {
        fluke_date(value)
    }

    open spec fn time_of(&self, value: Seq<char>) -> Option<(int, int, int)> {
        None
    }

    open spec fn kind_of(&self, name: Seq<char>) -> (int, Seq<char>) {
        fluke_kind(name)
    }

    open spec fn is_end(&self, line: Seq<char>) -> bool {
        line == "END OF DATA"@
    }

    open spec fn mode_of(&self, value: Seq<char>) -> (Seq<char>, Seq<char>) {
        fluke_mode(value)
    }

    open spec fn supports_mode(&self, code: Seq<char>) -> bool {
        fluke_mode_supported(code)
    }

    open spec fn default_model(&self) -> Seq<char> {
        seq![]
    }

    open spec fn needs_end_marker(&self) -> bool {
        true
    }

    open spec fn width_for(&self, field: TextField) -> Option<usize> {
        Some(12)
    }

    open spec fn segments_for(&self, field: TextField) -> usize {
        match field {
            TextField::Site | TextField::Description => 3,
            TextField::Location => 2,
        }
    }

    open spec fn status_of(&self, token: Seq<char>) -> Option<TestStatus> {
        fluke_status(token)
    }

    open spec fn unit_of(&self, unit: Seq<char>) -> Seq<char> {
        unit
    }

    fn metadata(&self) -> (r: ImporterMetadata) {
        importer_metadata()
    }

    fn decode<'a>(&self, bytes: &'a [u8]) -> (r: Result<&'a str, ImportError>) {
        decode_utf8(bytes)
    }

    fn detect_text(&self, source: &ImportSource<'_>, text: &str) -> (r: Detection) {
        let ms = mapping_vec();
        let has_records = has_field(text, &ms[2]);
        let has_model = has_field(text, &ms[0]);
        if has_records && has_model {
            Detection::Certain
        } else if has_records && extension_matches(source.filename, "flk") {
            Detection::Possible
        } else {
            Detection::NotRecognized
        }
    }

    fn mappings(&self) -> (r: Vec<FieldMapping>) {
        mapping_vec()
    }

    fn parse_date(&self, value: &str) -> (r: Option<CalendarDate>) {
        let cs = chars_of(value);
        let t = trim_chars(cs.as_slice());
        let parts = split_on_char(t, '-');
        proof {
            assert(views(parts@).len() == parts@.len());
        }
        if parts.len() < 2 {
            return None;
        }
        let month = parts[1];
        proof {
            assert(views(parts@)[1] == month@);
        }
        let mut i: usize = 0;
        while i < month.len()
            invariant
                0 <= i <= month@.len(),
                views(parts@) == split_on(trim(value@), '-'),
                parts@.len() >= 2,
                views(parts@)[1] == month@,
                forall|k: int| 0 <= k < i ==> is_ascii_alpha(#[trigger] month@[k]),
            decreases month.len() - i,
        {
            let c = month[i];
            if !(('a' <= c && c <= 'z') || ('A' <= c && c <= 'Z')) {
                proof {
                    assert(!is_ascii_alpha(month@[i as int]));
                }
                return None;
            }
            i = i + 1;
        }
        parse_dmy_date(value, '-', 80)
    }

    fn parse_time(&self, value: &str) -> (r: Option<ClockTime>) {
        None
    }

    fn test_kind(&self, name: &str) -> (r: TestKind) {
        proof {
            reveal_strlit("VISUAL CHECK");
            reveal_strlit("LEAD CONTINUITY");
            reveal_strlit("EARTH");
            reveal_strlit("INS ");
            reveal_strlit("PN CONTINUITY");
            reveal_strlit("TOUCH");
            reveal_strlit("LOAD");
            reveal_strlit("CURRENT");
            reveal_strlit("LKGE");
            reveal_strlit("SUBST ");
            reveal_strlit("PROBE PELV");
        }
        if str_equals(name, "VISUAL CHECK") {
            TestKind::Visual
        } else if str_equals(name, "LEAD CONTINUITY") {
            TestKind::LeadContinuity
        } else if str_equals(name, "EARTH") {
            TestKind::EarthBond
        } else if is_prefix_of("INS ", name) {
            TestKind::Insulation
        } else if str_equals(name, "PN CONTINUITY") {
            TestKind::PolarityContinuity
        } else if str_equals(name, "TOUCH") {
            TestKind::TouchCurrent
        } else if str_equals(name, "LOAD") {
            TestKind::Load
        } else if str_equals(name, "CURRENT") {
            TestKind::Current
        } else if str_equals(name, "LKGE") {
            TestKind::Leakage
        } else if is_prefix_of("SUBST ", name) {
            TestKind::SubstituteLeakage
        } else if str_equals(name, "PROBE PELV") {
            TestKind::Pelv
        } else {
            TestKind::Unknown(name.to_owned())
        }
    }

    fn is_end_marker(&self, line: &str) -> (r: bool) {
        str_equals(line, "END OF DATA")
    }

    fn parse_mode(&self, value: &str) -> (r: TestMode) {
        let cs = chars_of(value);
        let ws = split_words(cs.as_slice());
        proof {
            assert(views(ws@).len() == ws@.len());
        }
        if ws.len() == 0 {
            return TestMode { code: String::new(), label: String::new() };
        }
        proof {
            assert(views(ws@)[0] == ws@[0]@);
        }
        let code = string_of(ws[0]);
        let mut rest: Vec<&[char]> = Vec::new();
        let mut k: usize = 1;
        while k < ws.len()
            invariant
                1 <= k <= ws@.len(),
                views(rest@) == views(ws@).subrange(1, k as int),
            decreases ws.len() - k,
        {
            let ghost before = rest@;
            rest.push(ws[k]);
            proof {
                assert(views(rest@) =~= views(before).push(ws@[k as int]@));
                assert(views(ws@)[k as int] == ws@[k as int]@);
                assert(views(rest@) =~= views(ws@).subrange(1, k + 1));
            }
            k = k + 1;
        }
        let space: [char; 1] = [' '];
        proof {
            assert(space@ =~= seq![' ']);
            assert(views(ws@).subrange(1, ws@.len() as int) =~= views(ws@).skip(1));
        }
        let label = join_slices(&rest, space.as_slice());
        TestMode { code, label }
    }

    fn mode_is_supported(&self, code: &str) -> (r: bool) {
        proof {
            reveal_strlit("0");
            reveal_strlit("133");
            reveal_strlit("136");
            reveal_strlit("231");
            reveal_strlit("232");
            reveal_strlit("233");
            reveal_strlit("333");
            reveal_strlit("334");
            reveal_strlit("336");
        }
        str_equals(code, "0") || str_equals(code, "133") || str_equals(code, "136") || str_equals(code, "231")
            || str_equals(code, "232") || str_equals(code, "233") || str_equals(code, "333")
            || str_equals(code, "334") || str_equals(code, "336")
    }

    fn default_tester_model(&self) -> (r: &'static str) {
        proof {
            reveal_strlit("");
        }
        ""
    }

    fn requires_end_marker(&self) -> (r: bool) {
        true
    }

    fn continuation_width(&self, field: TextField) -> (r: Option<usize>) {
        Some(12)
    }

    fn continuation_segments(&self, field: TextField) -> (r: usize) {
        match field {
            TextField::Site | TextField::Description => 3,
            TextField::Location => 2,
        }
    }

    fn status_token(&self, token: &str) -> (r: Option<TestStatus>) {
        proof {
            reveal_strlit("P");
            reveal_strlit("F");
            reveal_strlit("S");
        }
        if str_equals(token, "P") {
            Some(TestStatus::Pass)
        } else if str_equals(token, "F") {
            Some(TestStatus::Fail)
        } else if str_equals(token, "S") {
            Some(TestStatus::Skipped)
        } else {
            None
        }
    }

    fn normalize_unit(&self, unit: &str) -> (r: String) {
        unit.to_owned()
    }
}

/// Adds this adapter's importer after those already in the registry.
pub fn register(registry: &mut ImporterRegistry)
    ensures
        final(registry).importer_count() == old(registry).importer_count() + 1,
        final(registry).metas() == old(registry).metas().push(fluke_metadata()),
{
    registry.register(LabelledTextImporter::new(FlukeAdapter));
}

} // verus!
