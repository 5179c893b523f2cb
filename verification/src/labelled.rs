//! Line-oriented labelled tester exports: label mappings, field extraction,
//! text decoding, and the rules that each tester format supplies.
use crate::import::{Detection, ImportError, ImportSource, ImporterMetadata};
use crate::model::TestStatus;
use crate::text::{chars_of, has_prefix, is_space, lines, strip_prefix, trim_start, trim_start_chars};
use crate::tokens::{split_lines, views};
use vstd::prelude::*;
use vstd::string::StrSliceExecFns;
use vstd::utf8::valid_utf8;

verus! {

/// Shared destination for a labelled source field.
#[derive(Clone, Copy, Debug, PartialEq, Eq, Structural)]
pub enum FieldTarget {
    TesterModel,
    TesterSerial,
    RecordNumber,
    TestDate,
    TestTime,
    ApplianceId,
    TestMode,
    Site(usize),
    User,
    Description(usize),
    Location(usize),
    Comment,
    Limit,
    Preserve,
}

/// Whitespace rule between a label and its value.
#[derive(Clone, Copy, Debug, PartialEq, Eq)]
pub enum Separator {
    Whitespace,
    Exact(&'static str),
}

/// One manufacturer label and its shared destination.
#[derive(Clone, Copy, Debug, PartialEq, Eq)]
pub struct FieldMapping {
    pub label: &'static str,
    pub target: FieldTarget,
    pub separator: Separator,
}

impl FieldMapping {
    pub fn new(label: &'static str, target: FieldTarget, separator: Separator) -> (r: Self)
        ensures
            r.label == label,
            r.target == target,
            r.separator == separator,
    {
        FieldMapping { label, target, separator }
    }
}

/// Continued-text destination used to select format-specific joining rules.
#[derive(Clone, Copy, Debug, PartialEq, Eq, Structural)]
pub enum TextField {
    Site,
    Description,
    Location,
}

/// The value of `line` for `mapping`: the text after the label and its separator.
/// A whitespace separator needs whitespace (or the end of the line) right after
/// the label and drops all leading whitespace; an exact separator is removed as is.
pub open spec fn field_value(line: Seq<char>, mapping: FieldMapping) -> Option<Seq<char>> {
    if !has_prefix(line, mapping.label@) {
        None
    } else {
        let rest = line.skip(mapping.label@.len() as int);
        match mapping.separator {
            Separator::Whitespace => if rest.len() == 0 || is_space(rest[0]) {
                Some(trim_start(rest))
            } else {
                None
            },
            Separator::Exact(sep) => if has_prefix(rest, sep@) {
                Some(rest.skip(sep@.len() as int))
            } else {
                None
            },
        }
    }
}

/// Whether some line of `text` carries `mapping`'s field.
pub open spec fn text_has_field(text: Seq<char>, mapping: FieldMapping) -> bool {
    exists|i: int| 0 <= i < lines(text).len() && (#[trigger] field_value(lines(text)[i], mapping)) is Some
}

/// The value of `line` for `mapping`, as a suffix of `line`.
pub fn field_chars<'a>(line: &'a [char], mapping: &FieldMapping) -> (r: Option<&'a [char]>)
    ensures
        r matches Some(v) ==> field_value(line@, *mapping) == Some(v@) && v@.len() <= line@.len()
            && v@ == line@.skip(line@.len() - v@.len()),
        r is None ==> field_value(line@, *mapping) is None,
{
    let label = chars_of(mapping.label);
    let rest = match strip_prefix(line, label.as_slice()) {
        Some(rest) => rest,
        None => return None,
    };
    match mapping.separator {
        Separator::Whitespace => {
            if rest.len() == 0 || crate::text::char_is_space(rest[0]) {
                let v = trim_start_chars(rest);
                proof {
                    crate::text::lemma_leading_bound(rest@);
                    assert(v@ =~= line@.skip(line@.len() - v@.len()));
                }
                Some(v)
            } else {
                None
            }
        },
        Separator::Exact(sep) => {
            let sc = chars_of(sep);
            match strip_prefix(rest, sc.as_slice()) {
                Some(v) => {
                    proof {
                        assert(v@ =~= line@.skip(line@.len() - v@.len()));
                    }
                    Some(v)
                },
                None => None,
            }
        },
    }
}

/// The value of `line` for `mapping`, when `line` carries that field.
pub fn field<'a>(line: &'a str, mapping: &FieldMapping) -> (r: Option<&'a str>)
    ensures
        r matches Some(v) ==> field_value(line@, *mapping) == Some(v@),
        r is None ==> field_value(line@, *mapping) is None,
{
    let cs = chars_of(line);
    match field_chars(cs.as_slice(), mapping) {
        Some(v) => {
            let start = cs.len() - v.len();
            let s = line.substring_char(start, cs.len());
            proof {
                assert(s@ =~= v@);
            }
            Some(s)
        },
        None => None,
    }
}

/// Whether one of `lines` carries `mapping`'s field.
pub fn lines_have_field(lines: &Vec<&[char]>, mapping: &FieldMapping) -> (r: bool)
    ensures
        r == exists|i: int| 0 <= i < lines@.len() && (#[trigger] field_value(views(lines@)[i], *mapping)) is Some,
{
    let mut i: usize = 0;
    while i < lines.len()
        invariant
            0 <= i <= lines@.len(),
            forall|k: int| 0 <= k < i ==> (#[trigger] field_value(views(lines@)[k], *mapping)) is None,
        decreases lines.len() - i,
    {
        let found = field_chars(lines[i], mapping);
        proof {
            assert(views(lines@)[i as int] == lines@[i as int]@);
        }
        if found.is_some() {
            return true;
        }
        i = i + 1;
    }
    false
}

/// Whether some line of `text` carries `mapping`'s field.
pub fn has_field(text: &str, mapping: &FieldMapping) -> (r: bool)
    ensures
        r == text_has_field(text@, *mapping),
{
    let cs = chars_of(text);
    let ls = split_lines(cs.as_slice());
    let r = lines_have_field(&ls, mapping);
    proof {
        assert(views(ls@).len() == ls@.len());
        if r {
            let i = choose|i: int| 0 <= i < ls@.len() && (#[trigger] field_value(views(ls@)[i], *mapping)) is Some;
            assert(field_value(lines(text@)[i], *mapping) is Some);
        }
    }
    r
}

/// Whether some line of `text` is a result named `name`: it starts with the
/// name, and whitespace follows directly.
pub open spec fn text_has_result(text: Seq<char>, name: Seq<char>) -> bool {
    exists|i: int|
        0 <= i < lines(text).len() && has_prefix(#[trigger] lines(text)[i], name) && lines(text)[i].len()
            > name.len() && is_space(lines(text)[i][name.len() as int])
}

pub fn has_result(text: &str, name: &str) -> (r: bool)
    ensures
        r == text_has_result(text@, name@),
{
    let cs = chars_of(text);
    let ls = split_lines(cs.as_slice());
    let nc = chars_of(name);
    let n = nc.as_slice();
    let ghost all = views(ls@);
    let mut i: usize = 0;
    while i < ls.len()
        invariant
            all == views(ls@),
            all == lines(text@),
            n@ == name@,
            0 <= i <= ls@.len(),
            forall|k: int|
                0 <= k < i ==> !(has_prefix(#[trigger] all[k], name@) && all[k].len() > name@.len()
                    && is_space(all[k][name@.len() as int])),
        decreases ls.len() - i,
    {
        let line = ls[i];
        proof {
            assert(all[i as int] == line@);
        }
        if crate::text::starts_with(line, n) && line.len() > n.len() && crate::text::char_is_space(line[n.len()]) {
            return true;
        }
        i = i + 1;
    }
    false
}

/// A day, month and year separated by slashes, or else by hyphens.
pub open spec fn slash_or_dash_date(value: Seq<char>) -> Option<(int, int, int)> {
    match crate::value::dmy_date(value, '/', 80) {
        Some(d) => Some(d),
        None => crate::value::dmy_date(value, '-', 80),
    }
}

pub fn parse_slash_or_dash_date(value: &str) -> (r: Option<crate::date::CalendarDate>)
    ensures
        crate::date::date_view_opt(r) == slash_or_dash_date(value@),
{
    match crate::value::parse_dmy_date(value, '/', 80) {
        Some(d) => Some(d),
        None => crate::value::parse_dmy_date(value, '-', 80),
    }
}

/// How UTF-8 decoding treats `bytes`.
pub open spec fn utf8_decoding(bytes: Seq<u8>) -> Result<Seq<char>, ImportError> {
    if valid_utf8(bytes) {
        Ok(vstd::utf8::decode_utf8(bytes))
    } else {
        Err(ImportError::InvalidText)
    }
}

/// How ASCII decoding treats `bytes`: a byte above 127 is refused first.
pub open spec fn ascii_decoding(bytes: Seq<u8>) -> Result<Seq<char>, ImportError> {
    if exists|i: int| 0 <= i < bytes.len() && #[trigger] bytes[i] >= 128 {
        Err(ImportError::NonAscii)
    } else {
        utf8_decoding(bytes)
    }
}

/// The text of `bytes` when they are UTF-8 (`std::str::from_utf8`).
#[verifier::external_body]
fn str_from_utf8(bytes: &[u8]) -> (r: Option<&str>)
    ensures
        r matches Some(s) ==> valid_utf8(bytes@) && s@ == vstd::utf8::decode_utf8(bytes@),
        r is None ==> !valid_utf8(bytes@),
{
    match std::str::from_utf8(bytes) {
        Ok(s) => Some(s),
        Err(_) => None,
    }
}

pub fn decode_utf8(bytes: &[u8]) -> (r: Result<&str, ImportError>)
    ensures
        r matches Ok(s) ==> utf8_decoding(bytes@) == Ok::<Seq<char>, ImportError>(s@),
        r matches Err(e) ==> utf8_decoding(bytes@) == Err::<Seq<char>, ImportError>(e),
{
    match str_from_utf8(bytes) {
        Some(s) => Ok(s),
        None => Err(ImportError::InvalidText),
    }
}

pub fn decode_ascii(bytes: &[u8]) -> (r: Result<&str, ImportError>)
    ensures
        r matches Ok(s) ==> ascii_decoding(bytes@) == Ok::<Seq<char>, ImportError>(s@),
        r matches Err(e) ==> ascii_decoding(bytes@) == Err::<Seq<char>, ImportError>(e),
{
    let mut i: usize = 0;
    while i < bytes.len()
        invariant
            0 <= i <= bytes@.len(),
            forall|k: int| 0 <= k < i ==> bytes@[k] < 128,
        decreases bytes.len() - i,
    {
        if bytes[i] >= 128 {
            return Err(ImportError::NonAscii);
        }
        i = i + 1;
    }
    decode_utf8(bytes)
}

/// Manufacturer-specific rules consumed by the shared labelled-text pipeline.
/// Each rule is stated by a spec function that the format defines.
pub trait LabelledTextAdapter {
    spec fn meta(&self) -> ImporterMetadata;

    spec fn decoding(&self, bytes: Seq<u8>) -> Result<Seq<char>, ImportError>;

    spec fn detection(&self, filename: Seq<char>, text: Seq<char>) -> Detection;

    spec fn mapping_list(&self) -> Seq<FieldMapping>;

    spec fn date_of(&self, value: Seq<char>) -> Option<(int, int, int)>;

    spec fn time_of(&self, value: Seq<char>) -> Option<(int, int, int)>;

    spec fn kind_of(&self, name: Seq<char>) -> (int, Seq<char>);

    spec fn is_end(&self, line: Seq<char>) -> bool;

    spec fn mode_of(&self, value: Seq<char>) -> (Seq<char>, Seq<char>);

    spec fn supports_mode(&self, code: Seq<char>) -> bool;

    spec fn default_model(&self) -> Seq<char>;

    spec fn needs_end_marker(&self) -> bool;

    spec fn width_for(&self, field: TextField) -> Option<usize>;

    spec fn segments_for(&self, field: TextField) -> usize;

    spec fn status_of(&self, token: Seq<char>) -> Option<TestStatus>;

    spec fn unit_of(&self, unit: Seq<char>) -> Seq<char>;

    fn metadata(&self) -> (r: ImporterMetadata)
        ensures
            r == self.meta(),
    ;

    fn decode<'a>(&self, bytes: &'a [u8]) -> (r: Result<&'a str, ImportError>)
        ensures
            r matches Ok(s) ==> self.decoding(bytes@) == Ok::<Seq<char>, ImportError>(s@),
            r matches Err(e) ==> self.decoding(bytes@) == Err::<Seq<char>, ImportError>(e),
    ;

    fn detect_text(&self, source: &ImportSource<'_>, text: &str) -> (r: Detection)
        ensures
            r == self.detection(source.filename@, text@),
    ;

    /// Mappings in match priority order; the parser uses the first matching entry.
    fn mappings(&self) -> (r: Vec<FieldMapping>)
        ensures
            r@ == self.mapping_list(),
    ;

    fn parse_date(&self, value: &str) -> (r: Option<crate::date::CalendarDate>)
        ensures
            crate::date::date_view_opt(r) == self.date_of(value@),
    ;

    fn parse_time(&self, value: &str) -> (r: Option<crate::date::ClockTime>)
        ensures
            crate::model_view::time_view_opt(r) == self.time_of(value@),
    ;

    fn test_kind(&self, name: &str) -> (r: crate::model::TestKind)
        ensures
            crate::model::kind_key(r) == self.kind_of(name@),
    ;

    fn is_end_marker(&self, line: &str) -> (r: bool)
        ensures
            r == self.is_end(line@),
    ;

    fn parse_mode(&self, value: &str) -> (r: crate::model::TestMode)
        ensures
            (r.code@, r.label@) == self.mode_of(value@),
    ;

    fn mode_is_supported(&self, code: &str) -> (r: bool)
        ensures
            r == self.supports_mode(code@),
    ;

    fn default_tester_model(&self) -> (r: &'static str)
        ensures
            r@ == self.default_model(),
    ;

    fn requires_end_marker(&self) -> (r: bool)
        ensures
            r == self.needs_end_marker(),
    ;

    fn continuation_width(&self, field: TextField) -> (r: Option<usize>)
        ensures
            r == self.width_for(field),
    ;

    fn continuation_segments(&self, field: TextField) -> (r: usize)
        ensures
            r == self.segments_for(field),
    ;

    fn status_token(&self, token: &str) -> (r: Option<TestStatus>)
        ensures
            r == self.status_of(token@),
    ;

    fn normalize_unit(&self, unit: &str) -> (r: String)
        ensures
            r@ == self.unit_of(unit@),
    ;
}

/// The status words that most formats accept: `P`/`PASS`, `F`/`FAIL`, `S`/`SKIP`/`SKIPPED`.
pub open spec fn common_status(token: Seq<char>) -> Option<TestStatus> {
    if token == "P"@ || token == "PASS"@ {
        Some(TestStatus::Pass)
    } else if token == "F"@ || token == "FAIL"@ {
        Some(TestStatus::Fail)
    } else if token == "S"@ || token == "SKIP"@ || token == "SKIPPED"@ {
        Some(TestStatus::Skipped)
    } else {
        None
    }
}

pub fn common_status_token(token: &str) -> (r: Option<TestStatus>)
    ensures
        r == common_status(token@),
{
    proof {
        reveal_strlit("P");
        reveal_strlit("PASS");
        reveal_strlit("F");
        reveal_strlit("FAIL");
        reveal_strlit("S");
        reveal_strlit("SKIP");
        reveal_strlit("SKIPPED");
    }
    if crate::text::str_equals(token, "P") || crate::text::str_equals(token, "PASS") {
        Some(TestStatus::Pass)
    } else if crate::text::str_equals(token, "F") || crate::text::str_equals(token, "FAIL") {
        Some(TestStatus::Fail)
    } else if crate::text::str_equals(token, "S") || crate::text::str_equals(token, "SKIP")
        || crate::text::str_equals(token, "SKIPPED") {
        Some(TestStatus::Skipped)
    } else {
        None
    }
}

/// A mode whose code is the trimmed value and whose label is empty.
pub open spec fn trimmed_mode(value: Seq<char>) -> (Seq<char>, Seq<char>) {
    (crate::text::trim(value), Seq::<char>::empty())
}

pub fn trimmed_mode_of(value: &str) -> (r: crate::model::TestMode)
    ensures
        (r.code@, r.label@) == trimmed_mode(value@),
{
    let cs = chars_of(value);
    let t = crate::text::trim_chars(cs.as_slice());
    crate::model::TestMode { code: crate::text::string_of(t), label: String::new() }
}

/// `TesterImporter` implementation backed by one format adapter.
#[derive(Clone, Copy, Debug)]
pub struct LabelledTextImporter<A> {
    adapter: A,
}

impl<A> LabelledTextImporter<A> {
    pub closed spec fn inner(&self) -> A {
        self.adapter
    }

    pub fn new(adapter: A) -> (r: Self)
        ensures
            r.inner() == adapter,
    {
        LabelledTextImporter { adapter }
    }

    pub fn adapter(&self) -> (r: &A)
        ensures
            *r == self.inner(),
    {
        &self.adapter
    }
}

} // verus!
