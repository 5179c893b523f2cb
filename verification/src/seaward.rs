//! Seaward PrimeTest 300/350 labelled ASCII adapter.
use crate::date::{CalendarDate, ClockTime};
use crate::import::{Detection, ImportError, ImportSource, ImporterMetadata, ImporterRegistry};
use crate::labelled::{
    ascii_decoding, common_status, common_status_token, decode_ascii, has_field, has_result,
    parse_slash_or_dash_date, slash_or_dash_date, text_has_field, text_has_result, FieldMapping,
    FieldTarget, LabelledTextAdapter, LabelledTextImporter, Separator, TextField,
};
use crate::model::{TestKind, TestMode, TestStatus};
use crate::text::{chars_of, has_prefix, string_of, str_equals, trim, trim_chars, words};
use crate::tokens::{split_words, views};
use crate::value::{hms_time, parse_hms_time};
use vstd::prelude::*;

verus! {

/// Seaward-specific rules for PrimeTest labelled ASCII exports.
#[derive(Clone, Copy, Debug)]
pub struct SeawardAdapter;

impl Default for SeawardAdapter {
    fn default() -> (r: Self)
        ensures
            r == SeawardAdapter,
    {
        SeawardAdapter
    }
}

/// Shared labelled-text importer configured with Seaward ASCII rules.
pub type SeawardImporter = LabelledTextImporter<SeawardAdapter>;

impl Default for LabelledTextImporter<SeawardAdapter> {
    fn default() -> (r: Self)
        ensures
            r.inner() == SeawardAdapter,
    {
        LabelledTextImporter::new(SeawardAdapter)
    }
}

pub open spec fn seaward_metadata() -> ImporterMetadata {
    ImporterMetadata {
        importer_id: "librepat-seaward",
        format_id: "seaward-primetest-ascii",
        display_name: "Seaward PrimeTest 300/350 ASCII",
        extensions: &["txt", "asc"],
    }
}

/// Stable identity for the Seaward PrimeTest ASCII format.
pub fn importer_metadata() -> (r: ImporterMetadata)
    ensures
        r == seaward_metadata(),
{
    ImporterMetadata {
        importer_id: "librepat-seaward",
        format_id: "seaward-primetest-ascii",
        display_name: "Seaward PrimeTest 300/350 ASCII",
        extensions: &["txt", "asc"],
    }
}

/// The Seaward labels in match priority order.
pub open spec fn seaward_mappings() -> Seq<FieldMapping> {
    seq![
        FieldMapping { label: "TESTER", target: FieldTarget::TesterModel, separator: Separator::Whitespace },
        FieldMapping { label: "TEST NUMBER", target: FieldTarget::RecordNumber, separator: Separator::Whitespace },
        FieldMapping { label: "DATE", target: FieldTarget::TestDate, separator: Separator::Whitespace },
        FieldMapping { label: "TIME", target: FieldTarget::TestTime, separator: Separator::Whitespace },
        FieldMapping { label: "APP NO", target: FieldTarget::ApplianceId, separator: Separator::Whitespace },
        FieldMapping { label: "TEST MODE", target: FieldTarget::TestMode, separator: Separator::Whitespace },
        FieldMapping { label: "EARTH CURRENT", target: FieldTarget::Preserve, separator: Separator::Whitespace },
        FieldMapping { label: "USER", target: FieldTarget::User, separator: Separator::Whitespace },
        FieldMapping { label: "SITE", target: FieldTarget::Site(0), separator: Separator::Whitespace },
        FieldMapping { label: "TEXT", target: FieldTarget::Comment, separator: Separator::Whitespace },
    ]
}

fn mapping_vec() -> (r: Vec<FieldMapping>)
    ensures
        r@ == seaward_mappings(),
{
    let r = vec![
        FieldMapping { label: "TESTER", target: FieldTarget::TesterModel, separator: Separator::Whitespace },
        FieldMapping { label: "TEST NUMBER", target: FieldTarget::RecordNumber, separator: Separator::Whitespace },
        FieldMapping { label: "DATE", target: FieldTarget::TestDate, separator: Separator::Whitespace },
        FieldMapping { label: "TIME", target: FieldTarget::TestTime, separator: Separator::Whitespace },
        FieldMapping { label: "APP NO", target: FieldTarget::ApplianceId, separator: Separator::Whitespace },
        FieldMapping { label: "TEST MODE", target: FieldTarget::TestMode, separator: Separator::Whitespace },
        FieldMapping { label: "EARTH CURRENT", target: FieldTarget::Preserve, separator: Separator::Whitespace },
        FieldMapping { label: "USER", target: FieldTarget::User, separator: Separator::Whitespace },
        FieldMapping { label: "SITE", target: FieldTarget::Site(0), separator: Separator::Whitespace },
        FieldMapping { label: "TEXT", target: FieldTarget::Comment, separator: Separator::Whitespace },
    ];
    assert(r@ =~= seaward_mappings());
    r
}

/// Certain with record numbers, a tester and Seaward-specific markers (a test
/// mode with an earth current or an IEC result); possible with record numbers,
/// a tester and a time; otherwise not recognized.
pub open spec fn seaward_detection(text: Seq<char>) -> Detection {
    let ms = seaward_mappings();
    let records = text_has_field(text, ms[1]);
    let tester = text_has_field(text, ms[0]);
    let specific = text_has_field(text, ms[5]) && (text_has_field(text, ms[6]) || text_has_result(text, "IEC"@));
    if records && tester && specific {
        Detection::Certain
    } else if records && tester && text_has_field(text, ms[3]) {
        Detection::Possible
    } else {
        Detection::NotRecognized
    }
}

/// The Seaward test names and their kinds.
pub open spec fn seaward_kind(name: Seq<char>) -> (int, Seq<char>) {
    if name == "VISUAL CHECK"@ {
        (0, seq![])
    } else if name == "EARTH"@ {
        (3, seq![])
    } else if name == "IEC"@ {
        (2, seq![])
    } else if name == "LEAD CONTINUITY"@ {
        (1, seq![])
    } else if name == "INS"@ || has_prefix(name, "INS "@) {
        (4, seq![])
    } else if name == "LOAD"@ {
        (7, seq![])
    } else if name == "LKGE"@ {
        (9, seq![])
    } else {
        (12, name)
    }
}

/// The mode code is the first word of the trimmed value; the label is the whole trimmed value.
pub open spec fn seaward_mode(value: Seq<char>) -> (Seq<char>, Seq<char>) {
    let t = trim(value);
    let ws = words(t);
    (if ws.len() > 0 { ws[0] } else { seq![] }, t)
}

fn is_prefix_of(prefix: &str, name: &str) -> (r: bool)
    ensures
        r == has_prefix(name@, prefix@),
{
    let p = chars_of(prefix);
    let n = chars_of(name);
    crate::text::starts_with(n.as_slice(), p.as_slice())
}

impl LabelledTextAdapter for SeawardAdapter {
    open spec fn meta(&self) -> ImporterMetadata {
        seaward_metadata()
    }

    open spec fn decoding(&self, bytes: Seq<u8>) -> Result<Seq<char>, ImportError> {
        ascii_decoding(bytes)
    }

    open spec fn detection(&self, filename: Seq<char>, text: Seq<char>) -> Detection {
        seaward_detection(text)
    }

    open spec fn mapping_list(&self) -> Seq<FieldMapping> {
        seaward_mappings()
    }

    open spec fn date_of(&self, value: Seq<char>) -> Option<(int, int, int)> {
        slash_or_dash_date(value)
    }

    open spec fn time_of(&self, value: Seq<char>) -> Option<(int, int, int)> {
        hms_time(value)
    }

    open spec fn kind_of(&self, name: Seq<char>) -> (int, Seq<char>) {
        seaward_kind(name)
    }

    open spec fn is_end(&self, line: Seq<char>) -> bool {
        line == "END OF DATA"@
    }

    open spec fn mode_of(&self, value: Seq<char>) -> (Seq<char>, Seq<char>) {
        seaward_mode(value)
    }

    open spec fn supports_mode(&self, code: Seq<char>) -> bool {
        true
    }

    open spec fn default_model(&self) -> Seq<char> {
        seq![]
    }

    open spec fn needs_end_marker(&self) -> bool {
        false
    }

    open spec fn width_for(&self, field: TextField) -> Option<usize> {
        None
    }

    open spec fn segments_for(&self, field: TextField) -> usize {
        0
    }

    open spec fn status_of(&self, token: Seq<char>) -> Option<TestStatus> {
        common_status(token)
    }

    open spec fn unit_of(&self, unit: Seq<char>) -> Seq<char> {
        unit
    }

    fn metadata(&self) -> (r: ImporterMetadata) {
        importer_metadata()
    }

    fn decode<'a>(&self, bytes: &'a [u8]) -> (r: Result<&'a str, ImportError>) {
        decode_ascii(bytes)
    }

    fn detect_text(&self, source: &ImportSource<'_>, text: &str) -> (r: Detection) {
        let ms = mapping_vec();
        let records = has_field(text, &ms[1]);
        let tester = has_field(text, &ms[0]);
        proof {
            reveal_strlit("IEC");
        }
        let specific = has_field(text, &ms[5]) && (has_field(text, &ms[6]) || has_result(text, "IEC"));
        if records && tester && specific {
            Detection::Certain
        } else if records && tester && has_field(text, &ms[3]) {
            Detection::Possible
        } else {
            Detection::NotRecognized
        }
    }

    fn mappings(&self) -> (r: Vec<FieldMapping>) {
        mapping_vec()
    }

    fn parse_date(&self, value: &str) -> (r: Option<CalendarDate>) {
        parse_slash_or_dash_date(value)
    }

    fn parse_time(&self, value: &str) -> (r: Option<ClockTime>) {
        parse_hms_time(value)
    }

    fn test_kind(&self, name: &str) -> (r: TestKind) {
        proof {
            reveal_strlit("VISUAL CHECK");
            reveal_strlit("EARTH");
            reveal_strlit("IEC");
            reveal_strlit("LEAD CONTINUITY");
            reveal_strlit("INS");
            reveal_strlit("INS ");
            reveal_strlit("LOAD");
            reveal_strlit("LKGE");
        }
        if str_equals(name, "VISUAL CHECK") {
            TestKind::Visual
        } else if str_equals(name, "EARTH") {
            TestKind::EarthBond
        } else if str_equals(name, "IEC") {
            TestKind::IecLead
        } else if str_equals(name, "LEAD CONTINUITY") {
            TestKind::LeadContinuity
        } else if str_equals(name, "INS") || is_prefix_of("INS ", name) {
            TestKind::Insulation
        } else if str_equals(name, "LOAD") {
            TestKind::Load
        } else if str_equals(name, "LKGE") {
            TestKind::Leakage
        } else {
            TestKind::Unknown(name.to_owned())
        }
    }

    fn is_end_marker(&self, line: &str) -> (r: bool) {
        str_equals(line, "END OF DATA")
    }

    fn parse_mode(&self, value: &str) -> (r: TestMode) {
        let cs = chars_of(value);
        let t = trim_chars(cs.as_slice());
        let ws = split_words(t);
        proof {
            assert(views(ws@).len() == ws@.len());
        }
        let code = if ws.len() > 0 {
            proof {
                assert(views(ws@)[0] == ws@[0]@);
            }
            string_of(ws[0])
        } else {
            String::new()
        };
        TestMode { code, label: string_of(t) }
    }

    fn mode_is_supported(&self, code: &str) -> (r: bool) {
        true
    }

    fn default_tester_model(&self) -> (r: &'static str) {
        proof {
            reveal_strlit("");
        }
        ""
    }

    fn requires_end_marker(&self) -> (r: bool) {
        false
    }

    fn continuation_width(&self, field: TextField) -> (r: Option<usize>) {
        None
    }

    fn continuation_segments(&self, field: TextField) -> (r: usize) {
        0
    }

    fn status_token(&self, token: &str) -> (r: Option<TestStatus>) {
        common_status_token(token)
    }

    fn normalize_unit(&self, unit: &str) -> (r: String) {
        unit.to_owned()
    }
}

/// Adds the Seaward ASCII adapter to an importer registry.
pub fn register(registry: &mut ImporterRegistry)
    ensures
        final(registry).importer_count() == old(registry).importer_count() + 1,
        final(registry).metas() == old(registry).metas().push(seaward_metadata()),
{
    registry.register(LabelledTextImporter::new(SeawardAdapter));
}

} // verus!
