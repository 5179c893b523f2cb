//! Kewtech KT74/77 labelled ASCII adapter.
use crate::date::{CalendarDate, ClockTime};
use crate::import::{Detection, ImportError, ImportSource, ImporterMetadata, ImporterRegistry};
use crate::labelled::{
    ascii_decoding, common_status, common_status_token, decode_ascii, has_field, has_result,
    parse_slash_or_dash_date, slash_or_dash_date, text_has_field, text_has_result, trimmed_mode,
    trimmed_mode_of, FieldMapping, FieldTarget, LabelledTextAdapter, LabelledTextImporter,
    Separator, TextField,
};
use crate::model::{TestKind, TestMode, TestStatus};
use crate::text::{chars_of, has_prefix, str_equals};
use vstd::prelude::*;

verus! {

/// Kewtech-specific rules for KT74/77 labelled ASCII exports.
#[derive(Clone, Copy, Debug)]
pub struct KewtechAdapter;

impl Default for KewtechAdapter {
    fn default() -> (r: Self)
        ensures
            r == KewtechAdapter,
    {
        KewtechAdapter
    }
}

/// Shared labelled-text importer configured with Kewtech ASCII rules.
pub type KewtechImporter = LabelledTextImporter<KewtechAdapter>;

impl Default for LabelledTextImporter<KewtechAdapter> {
    fn default() -> (r: Self)
        ensures
            r.inner() == KewtechAdapter,
    {
        LabelledTextImporter::new(KewtechAdapter)
    }
}

pub open spec fn kewtech_metadata() -> ImporterMetadata {
    ImporterMetadata {
        importer_id: "librepat-kewtech",
        format_id: "kewtech-kt74-77-ascii",
        display_name: "Kewtech KT74/77 ASCII",
        extensions: &["txt", "asc"],
    }
}

/// Stable identity for the Kewtech KT74/77 ASCII format.
pub fn importer_metadata() -> (r: ImporterMetadata)
    ensures
        r == kewtech_metadata(),
{
    ImporterMetadata {
        importer_id: "librepat-kewtech",
        format_id: "kewtech-kt74-77-ascii",
        display_name: "Kewtech KT74/77 ASCII",
        extensions: &["txt", "asc"],
    }
}

/// The Kewtech labels in match priority order.
pub open spec fn kewtech_mappings() -> Seq<FieldMapping> {
    seq![
        FieldMapping { label: "TEST NUMBER", target: FieldTarget::RecordNumber, separator: Separator::Whitespace },
        FieldMapping { label: "DATE", target: FieldTarget::TestDate, separator: Separator::Whitespace },
        FieldMapping { label: "APP NO", target: FieldTarget::ApplianceId, separator: Separator::Whitespace },
        FieldMapping { label: "DESCRIPTION", target: FieldTarget::Description(0), separator: Separator::Whitespace },
        FieldMapping { label: "LOCN", target: FieldTarget::Location(0), separator: Separator::Whitespace },
        FieldMapping { label: "SITE", target: FieldTarget::Site(0), separator: Separator::Whitespace },
        FieldMapping { label: "TEXT", target: FieldTarget::Comment, separator: Separator::Whitespace },
    ]
}

fn mapping_vec() -> (r: Vec<FieldMapping>)
    ensures
        r@ == kewtech_mappings(),
{
    let r = vec![
        FieldMapping { label: "TEST NUMBER", target: FieldTarget::RecordNumber, separator: Separator::Whitespace },
        FieldMapping { label: "DATE", target: FieldTarget::TestDate, separator: Separator::Whitespace },
        FieldMapping { label: "APP NO", target: FieldTarget::ApplianceId, separator: Separator::Whitespace },
        FieldMapping { label: "DESCRIPTION", target: FieldTarget::Description(0), separator: Separator::Whitespace },
        FieldMapping { label: "LOCN", target: FieldTarget::Location(0), separator: Separator::Whitespace },
        FieldMapping { label: "SITE", target: FieldTarget::Site(0), separator: Separator::Whitespace },
        FieldMapping { label: "TEXT", target: FieldTarget::Comment, separator: Separator::Whitespace },
    ];
    assert(r@ =~= kewtech_mappings());
    r
}

/// Certain with record numbers, description and location fields and a visual
/// check result; possible without the visual check; otherwise not recognized.
pub open spec fn kewtech_detection(text: Seq<char>) -> Detection {
    let ms = kewtech_mappings();
    let records = text_has_field(text, ms[0]);
    let fields = text_has_field(text, ms[3]) && text_has_field(text, ms[4]);
    if records && fields && text_has_result(text, "VISUAL CHECK"@) {
        Detection::Certain
    } else if records && fields {
        Detection::Possible
    } else {
        Detection::NotRecognized
    }
}

/// The Kewtech test names and their kinds.
pub open spec fn kewtech_kind(name: Seq<char>) -> (int, Seq<char>) {
    if name == "VISUAL CHECK"@ {
        (0, seq![])
    } else if name == "EARTH"@ {
        (3, seq![])
    } else if name == "INS"@ || has_prefix(name, "INS "@) {
        (4, seq![])
    } else if name == "LOAD"@ {
        (7, seq![])
    } else if name == "LKGE"@ {
        (9, seq![])
    } else if name == "LEAD CONTINUITY"@ {
        (1, seq![])
    } else {
        (12, name)
    }
}

fn is_prefix_of(prefix: &str, name: &str) -> (r: bool)
    ensures
        r == has_prefix(name@, prefix@),
{
    let p = chars_of(prefix);
    let n = chars_of(name);
    crate::text::starts_with(n.as_slice(), p.as_slice())
}

impl LabelledTextAdapter for KewtechAdapter {
    open spec fn meta(&self) -> ImporterMetadata {
        kewtech_metadata()
    }

    open spec fn decoding(&self, bytes: Seq<u8>) -> Result<Seq<char>, ImportError> {
        ascii_decoding(bytes)
    }

    open spec fn detection(&self, filename: Seq<char>, text: Seq<char>) -> Detection {
        kewtech_detection(text)
    }

    open spec fn mapping_list(&self) -> Seq<FieldMapping> {
        kewtech_mappings()
    }

    open spec fn date_of(&self, value: Seq<char>) -> Option<(int, int, int)> {
        slash_or_dash_date(value)
    }

    open spec fn time_of(&self, value: Seq<char>) -> Option<(int, int, int)> {
        None
    }

    open spec fn kind_of(&self, name: Seq<char>) -> (int, Seq<char>) {
        kewtech_kind(name)
    }

    open spec fn is_end(&self, line: Seq<char>) -> bool {
        line == "END OF DATA"@
    }

    open spec fn mode_of(&self, value: Seq<char>) -> (Seq<char>, Seq<char>) {
        trimmed_mode(value)
    }

    open spec fn supports_mode(&self, code: Seq<char>) -> bool {
        true
    }

    open spec fn default_model(&self) -> Seq<char> {
        "Kewtech KT74/77"@
    }

    open spec fn needs_end_marker(&self) -> bool {
        false
    }

    open spec fn width_for(&self, field: TextField) -> Option<usize> {
        None
    }

    open spec fn segments_for(&self, field: TextField) -> usize {
        0
    }

    open spec fn status_of(&self, token: Seq<char>) -> Option<TestStatus> {
        common_status(token)
    }

    open spec fn unit_of(&self, unit: Seq<char>) -> Seq<char> {
        unit
    }

    fn metadata(&self) -> (r: ImporterMetadata) {
        importer_metadata()
    }

    fn decode<'a>(&self, bytes: &'a [u8]) -> (r: Result<&'a str, ImportError>) {
        decode_ascii(bytes)
    }

    fn detect_text(&self, source: &ImportSource<'_>, text: &str) -> (r: Detection) {
        let ms = mapping_vec();
        let records = has_field(text, &ms[0]);
        let fields = has_field(text, &ms[3]) && has_field(text, &ms[4]);
        proof {
            reveal_strlit("VISUAL CHECK");
        }
        if records && fields && has_result(text, "VISUAL CHECK") {
            Detection::Certain
        } else if records && fields {
            Detection::Possible
        } else {
            Detection::NotRecognized
        }
    }

    fn mappings(&self) -> (r: Vec<FieldMapping>) {
        mapping_vec()
    }

    fn parse_date(&self, value: &str) -> (r: Option<CalendarDate>) {
        parse_slash_or_dash_date(value)
    }

    fn parse_time(&self, value: &str) -> (r: Option<ClockTime>) {
        None
    }

    fn test_kind(&self, name: &str) -> (r: TestKind) {
        proof {
            reveal_strlit("VISUAL CHECK");
            reveal_strlit("EARTH");
            reveal_strlit("INS");
            reveal_strlit("INS ");
            reveal_strlit("LOAD");
            reveal_strlit("LKGE");
            reveal_strlit("LEAD CONTINUITY");
        }
        if str_equals(name, "VISUAL CHECK") {
            TestKind::Visual
        } else if str_equals(name, "EARTH") {
            TestKind::EarthBond
        } else if str_equals(name, "INS") || is_prefix_of("INS ", name) {
            TestKind::Insulation
        } else if str_equals(name, "LOAD") {
            TestKind::Load
        } else if str_equals(name, "LKGE") {
            TestKind::Leakage
        } else if str_equals(name, "LEAD CONTINUITY") {
            TestKind::LeadContinuity
        } else {
            TestKind::Unknown(name.to_owned())
        }
    }

    fn is_end_marker(&self, line: &str) -> (r: bool) {
        str_equals(line, "END OF DATA")
    }

    fn parse_mode(&self, value: &str) -> (r: TestMode) {
        trimmed_mode_of(value)
    }

    fn mode_is_supported(&self, code: &str) -> (r: bool) {
        true
    }

    fn default_tester_model(&self) -> (r: &'static str) {
        "Kewtech KT74/77"
    }

    fn requires_end_marker(&self) -> (r: bool) {
        false
    }

    fn continuation_width(&self, field: TextField) -> (r: Option<usize>) {
        None
    }

    fn continuation_segments(&self, field: TextField) -> (r: usize) {
        0
    }

    fn status_token(&self, token: &str) -> (r: Option<TestStatus>) {
        common_status_token(token)
    }

    fn normalize_unit(&self, unit: &str) -> (r: String) {
        unit.to_owned()
    }
}

/// Adds the Kewtech ASCII adapter to an importer registry.
pub fn register(registry: &mut ImporterRegistry)
    ensures
        final(registry).importer_count() == old(registry).importer_count() + 1,
        final(registry).metas() == old(registry).metas().push(kewtech_metadata()),
{
    registry.register(LabelledTextImporter::new(KewtechAdapter));
}

} // verus!
