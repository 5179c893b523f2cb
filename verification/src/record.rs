//! One appliance record while its lines are read: fields, results, limits,
//! preserved lines, and the appliance that a finished record yields.
use crate::date::{date_view_opt, CalendarDate, ClockTime};
use crate::import::{ImportWarning, ImportWarningKind};
use crate::labelled::{LabelledTextAdapter, TextField};
use crate::model::{
    join_trimmed, trimmed_nonblank, Appliance, ApplianceStatus, ContinuedText, Limit, RawField,
    TestMode, TestResult,
};
use crate::model_view::{
    raw_view, raw_views, status_of_views, test_view, test_views, time_view_opt, warning_view,
    warning_views, ApplianceView, TestView, WarningView, lemma_status_of_views,
};
use crate::text::{
    append_chars, append_str, chars_of, is_space, join, push_char, string_of, trim, trim_chars,
    trim_end, trim_end_chars, words,
};
use crate::tokens::{join_slices, split_words, string_views, views};
use crate::value::{exact_reading, exact_reading_of, measurement_of, measurement_parts};
use vstd::prelude::*;
use vstd::slice::slice_subrange;

verus! {

/// The abstract content of a record being read.
pub struct RecordView {
    pub start_line: int,
    pub number: Seq<char>,
    pub appliance_id: Seq<char>,
    pub date: Option<(int, int, int)>,
    pub time: Option<(int, int, int)>,
    pub mode: (Seq<char>, Seq<char>),
    pub user: Seq<char>,
    pub site: Seq<Seq<char>>,
    pub description: Seq<Seq<char>>,
    pub location: Seq<Seq<char>>,
    pub comments: Seq<Seq<char>>,
    pub tests: Seq<TestView>,
    pub raw_fields: Seq<(Seq<char>, Seq<char>, int)>,
}

/// The fields of one appliance record collected so far.
pub struct RecordBuilder {
    pub start_line: usize,
    pub number: String,
    pub appliance_id: String,
    pub date: Option<CalendarDate>,
    pub time: Option<ClockTime>,
    pub mode: TestMode,
    pub user: String,
    pub site: Vec<String>,
    pub description: Vec<String>,
    pub location: Vec<String>,
    pub comments: Vec<String>,
    pub tests: Vec<TestResult>,
    pub raw_fields: Vec<RawField>,
}

impl View for RecordBuilder {
    type V = RecordView;

    open spec fn view(&self) -> RecordView {
        RecordView {
            start_line: self.start_line as int,
            number: self.number@,
            appliance_id: self.appliance_id@,
            date: date_view_opt(self.date),
            time: time_view_opt(self.time),
            mode: (self.mode.code@, self.mode.label@),
            user: self.user@,
            site: string_views(self.site@),
            description: string_views(self.description@),
            location: string_views(self.location@),
            comments: string_views(self.comments@),
            tests: test_views(self.tests@),
            raw_fields: raw_views(self.raw_fields@),
        }
    }
}

/// A record that starts at `start_line` with the given number and nothing else.
pub open spec fn record_started(start_line: int, number: Seq<char>) -> RecordView {
    RecordView {
        start_line,
        number,
        appliance_id: seq![],
        date: None,
        time: None,
        mode: (seq![], seq![]),
        user: seq![],
        site: seq![],
        description: seq![],
        location: seq![],
        comments: seq![],
        tests: seq![],
        raw_fields: seq![],
    }
}

/// `None` for empty text, the text otherwise.
pub open spec fn optional_text(s: Seq<char>) -> Option<Seq<char>> {
    if s.len() == 0 {
        None
    } else {
        Some(s)
    }
}

/// A warning tied to a record (when its number is known) and a source line.
pub open spec fn warning_at(kind: ImportWarningKind, message: Seq<char>, record: Seq<char>, line: int) -> WarningView {
    WarningView { kind, message, record: optional_text(record), line: Some(line) }
}

pub fn warning(kind: ImportWarningKind, message: String, record: &str, line: usize) -> (r: ImportWarning)
    ensures
        warning_view(r) == warning_at(kind, message@, record@, line as int),
{
    let rec = if record.is_empty() {
        proof {
            assert(record@.len() == 0);
        }
        None
    } else {
        proof {
            assert(record@.len() != 0);
        }
        Some(record.to_owned())
    };
    ImportWarning { kind, message, record: rec, line: Some(line) }
}

pub proof fn lemma_warning_views_push(ws: Seq<ImportWarning>, w: ImportWarning)
    ensures
        warning_views(ws.push(w)) == warning_views(ws).push(warning_view(w)),
{
    assert(warning_views(ws.push(w)) =~= warning_views(ws).push(warning_view(w)));
}

fn push_warning(warnings: &mut Vec<ImportWarning>, w: ImportWarning)
    ensures
        warning_views(final(warnings)@) == warning_views(old(warnings)@).push(warning_view(w)),
{
    proof {
        lemma_warning_views_push(warnings@, w);
    }
    warnings.push(w);
}

/// The warning for a date that does not read as a date.
pub open spec fn date_warnings<A: LabelledTextAdapter>(a: A, value: Seq<char>, record: Seq<char>, line: int) -> Seq<WarningView> {
    if a.date_of(value) is None && trim(value).len() > 0 {
        seq![warning_at(ImportWarningKind::InvalidDate, "date `"@ + trim(value) + "` is not valid"@, record, line)]
    } else {
        seq![]
    }
}

/// The warning for a time that does not read as a time.
pub open spec fn time_warnings<A: LabelledTextAdapter>(a: A, value: Seq<char>, record: Seq<char>, line: int) -> Seq<WarningView> {
    if a.time_of(value) is None && trim(value).len() > 0 {
        seq![warning_at(ImportWarningKind::InvalidTime, "time `"@ + trim(value) + "` is not valid"@, record, line)]
    } else {
        seq![]
    }
}

/// The warning for a mode code that the format does not list.
pub open spec fn mode_warnings<A: LabelledTextAdapter>(a: A, value: Seq<char>, record: Seq<char>, line: int) -> Seq<WarningView> {
    let code = a.mode_of(value).0;
    if code.len() > 0 && !a.supports_mode(code) {
        seq![warning_at(ImportWarningKind::UnsupportedMode, "preserved unrecognized test mode `"@ + code + "`"@, record, line)]
    } else {
        seq![]
    }
}

/// `segments` with the piece at `index` set to `value`, grown with empty pieces as needed.
pub open spec fn segment_set(segments: Seq<Seq<char>>, index: int, value: Seq<char>) -> Seq<Seq<char>> {
    let grown = if segments.len() <= index {
        segments + Seq::new((index + 1 - segments.len()) as nat, |i: int| Seq::<char>::empty())
    } else {
        segments
    };
    grown.update(index, value)
}

/// Position of the last whitespace character of `s`, or -1 when there is none.
pub open spec fn last_space(s: Seq<char>) -> int
    decreases s.len(),
{
    if s.len() == 0 {
        -1
    } else if is_space(s.last()) {
        s.len() - 1
    } else {
        last_space(s.drop_last())
    }
}

/// The measurement with its unit normalized by the format.
pub open spec fn normalized_measurement<A: LabelledTextAdapter>(a: A, m: Option<(crate::model::Comparison, Seq<char>, Seq<char>)>) -> Option<(crate::model::Comparison, Seq<char>, Seq<char>)> {
    match m {
        Some((c, v, u)) => Some((c, v, a.unit_of(u))),
        None => None,
    }
}

/// The test result that `line` reports: the text up to the last whitespace is the
/// test name and an optional reading, and the final token is the status.
pub open spec fn result_line<A: LabelledTextAdapter>(a: A, line: Seq<char>) -> Option<TestView> {
    let t = trim_end(line);
    let k = last_space(t);
    if k < 0 {
        None
    } else {
        match a.status_of(trim(t.skip(k))) {
            None => None,
            Some(status) => {
                let (name, m) = measurement_parts(words(trim_end(t.take(k))));
                if name.len() == 0 {
                    None
                } else {
                    Some(
                        TestView {
                            kind: a.kind_of(name),
                            raw_name: name,
                            status,
                            measurement: normalized_measurement(a, m),
                            limit: None,
                            raw_line: line,
                        },
                    )
                }
            },
        }
    }
}

/// The limit that `raw` gives the last result: it needs a result that has a
/// reading (or is a PELV or unknown test) and a first token that is an exact reading.
pub open spec fn limit_for<A: LabelledTextAdapter>(a: A, tests: Seq<TestView>, raw: Seq<char>) -> Option<(crate::model::Comparison, Seq<char>, Seq<char>, Seq<char>)> {
    if tests.len() == 0 {
        None
    } else {
        let t = tests.last();
        if t.measurement is None && !(t.kind.0 == 11 || t.kind.0 == 12) {
            None
        } else {
            let ws = words(raw);
            if ws.len() == 0 {
                None
            } else {
                match exact_reading(ws[0]) {
                    None => None,
                    Some((c, v)) => Some(
                        (c, v, a.unit_of(if ws.len() > 1 { ws[1] } else { Seq::<char>::empty() }), raw),
                    ),
                }
            }
        }
    }
}

/// The record with `l` as the limit of its last result.
pub open spec fn apply_limit_view(rec: RecordView, l: (crate::model::Comparison, Seq<char>, Seq<char>, Seq<char>)) -> RecordView {
    RecordView {
        tests: rec.tests.update(rec.tests.len() - 1, TestView { limit: Some(l), ..rec.tests.last() }),
        ..rec
    }
}

/// Trailing empty pieces added up to `minimum`.
pub open spec fn padded(segments: Seq<Seq<char>>, minimum: int) -> Seq<Seq<char>> {
    if segments.len() >= minimum {
        segments
    } else {
        segments + Seq::new((minimum - segments.len()) as nat, |i: int| Seq::<char>::empty())
    }
}

/// The first `n` pieces run together; a piece shorter than `width` is followed
/// by a space, unless it is the last piece.
pub open spec fn glued(segments: Seq<Seq<char>>, width: int, n: int) -> Seq<char>
    decreases n,
{
    if n <= 0 {
        seq![]
    } else {
        glued(segments, width, n - 1) + segments[n - 1] + if n < segments.len()
            && segments[n - 1].len() < width {
            seq![' ']
        } else {
            seq![]
        }
    }
}

/// Joined text and kept segments of a continued field.
pub open spec fn continued(segments: Seq<Seq<char>>, width: Option<usize>, minimum: usize) -> (Seq<char>, Seq<Seq<char>>) {
    let p = padded(segments, minimum as int);
    match width {
        None => (join(trimmed_nonblank(p), seq![' ']), p),
        Some(w) => (join(words(glued(p, w as int, p.len() as int)), seq![' ']), p),
    }
}

/// Joins continued tester text. Without a width the trimmed non-blank segments are
/// joined with spaces; with one, a segment that filled its field continues into
/// the next without a space, and runs of whitespace become single spaces.
pub fn continued_text(segments: Vec<String>, width: Option<usize>, minimum_segments: usize) -> (r: ContinuedText)
    ensures
        (r.joined@, string_views(r.segments@)) == continued(string_views(segments@), width, minimum_segments),
{
    let mut segments = segments;
    let ghost start = string_views(segments@);
    while segments.len() < minimum_segments
        invariant
            string_views(segments@) == padded(start, minimum_segments as int).take(segments@.len() as int),
            start.len() <= segments@.len(),
            start.len() < minimum_segments ==> segments@.len() <= minimum_segments,
            start.len() >= minimum_segments ==> segments@.len() == start.len(),
        decreases minimum_segments - segments.len(),
    {
        let ghost before = segments@;
        segments.push(String::new());
        proof {
            assert(padded(start, minimum_segments as int)[before.len() as int] == Seq::<char>::empty());
            assert(string_views(segments@) =~= string_views(before).push(Seq::<char>::empty()));
            assert(string_views(segments@) =~= padded(start, minimum_segments as int).take(segments@.len() as int));
        }
    }
    proof {
        assert(string_views(segments@) =~= padded(start, minimum_segments as int));
    }
    let ghost p = string_views(segments@);
    match width {
        None => ContinuedText::from_segments(segments),
        Some(w) => {
            let mut text = String::new();
            let mut i: usize = 0;
            while i < segments.len()
                invariant
                    p == string_views(segments@),
                    0 <= i <= segments@.len(),
                    text@ == glued(p, w as int, i as int),
                decreases segments.len() - i,
            {
                let cs = chars_of(segments[i].as_str());
                append_chars(&mut text, cs.as_slice());
                proof {
                    assert(p[i as int] == segments@[i as int]@);
                }
                if i + 1 < segments.len() && cs.len() < w {
                    push_char(&mut text, ' ');
                }
                i = i + 1;
            }
            let all = chars_of(text.as_str());
            let ws = split_words(all.as_slice());
            let space: [char; 1] = [' '];
            proof {
                assert(space@ =~= seq![' ']);
            }
            let joined = join_slices(&ws, space.as_slice());
            ContinuedText { joined, segments }
        },
    }
}

/// The appliance that a finished record yields, with the joined site text.
pub open spec fn finished_appliance<A: LabelledTextAdapter>(a: A, rec: RecordView, status: ApplianceStatus) -> (ApplianceView, Seq<char>) {
    let site = continued(rec.site, a.width_for(TextField::Site), a.segments_for(TextField::Site));
    let d = continued(rec.description, a.width_for(TextField::Description), a.segments_for(TextField::Description));
    let l = continued(rec.location, a.width_for(TextField::Location), a.segments_for(TextField::Location));
    (
        ApplianceView {
            source_record_number: rec.number,
            removed: false,
            appliance_id: trim(rec.appliance_id),
            description: d.0,
            description_segments: d.1,
            location: l.0,
            location_segments: l.1,
            test_date: rec.date,
            test_time: rec.time,
            retest_date: None,
            comments: join(trimmed_nonblank(rec.comments), seq![' ']),
            mode: rec.mode,
            user: trim(rec.user),
            tests: rec.tests,
            status,
            raw_fields: rec.raw_fields,
        },
        site.0,
    )
}

/// What finishing a record gives: its warnings, and the appliance with its site
/// text unless the record is unusable.
pub open spec fn finish_outcome<A: LabelledTextAdapter>(a: A, rec: RecordView) -> (Seq<WarningView>, Option<(ApplianceView, Seq<char>)>) {
    let incomplete = rec.number.len() == 0 || trim(rec.appliance_id).len() == 0 || rec.tests.len() == 0;
    let w1 = if incomplete {
        seq![WarningView {
            kind: ImportWarningKind::IncompleteRecord,
            message: "record is missing its number, appliance ID, or test results"@,
            record: optional_text(rec.number),
            line: Some(rec.start_line),
        }]
    } else {
        seq![]
    };
    if rec.tests.len() == 0 || (rec.number.len() == 0 && trim(rec.appliance_id).len() == 0) {
        (w1, None)
    } else {
        match status_of_views(rec.tests) {
            None => (
                w1 + seq![WarningView {
                    kind: ImportWarningKind::IncompleteRecord,
                    message: "discarded record with no final pass or fail result"@,
                    record: optional_text(rec.number),
                    line: Some(rec.start_line),
                }],
                None,
            ),
            Some(status) => (w1, Some(finished_appliance(a, rec, status))),
        }
    }
}

fn trimmed_string(s: &String) -> (r: String)
    ensures
        r@ == trim(s@),
{
    let cs = chars_of(s.as_str());
    string_of(trim_chars(cs.as_slice()))
}

fn quoted_message(prefix: &str, middle: &[char], suffix: &str) -> (r: String)
    ensures
        r@ == prefix@ + middle@ + suffix@,
{
    let mut out = String::new();
    append_str(&mut out, prefix);
    append_chars(&mut out, middle);
    append_str(&mut out, suffix);
    out
}

impl RecordBuilder {
    /// A record that starts at `start_line` with the given source number.
    pub fn started(start_line: usize, number: String) -> (r: Self)
        ensures
            r@ == record_started(start_line as int, number@),
    {
        let r = RecordBuilder {
            start_line,
            number,
            appliance_id: String::new(),
            date: None,
            time: None,
            mode: TestMode { code: String::new(), label: String::new() },
            user: String::new(),
            site: Vec::new(),
            description: Vec::new(),
            location: Vec::new(),
            comments: Vec::new(),
            tests: Vec::new(),
            raw_fields: Vec::new(),
        };
        proof {
            assert(r@.site =~= seq![]);
            assert(r@.description =~= seq![]);
            assert(r@.location =~= seq![]);
            assert(r@.comments =~= seq![]);
            assert(r@.tests =~= seq![]);
            assert(r@.raw_fields =~= seq![]);
        }
        r
    }

    pub fn set_date<A: LabelledTextAdapter>(
        &mut self,
        adapter: &A,
        value: &str,
        line: usize,
        warnings: &mut Vec<ImportWarning>,
    )
        ensures
            final(self)@ == (RecordView { date: adapter.date_of(value@), ..old(self)@ }),
            warning_views(final(warnings)@) == warning_views(old(warnings)@) + date_warnings(
                *adapter,
                value@,
                old(self)@.number,
                line as int,
            ),
    {
        self.date = adapter.parse_date(value);
        let cs = chars_of(value);
        let t = trim_chars(cs.as_slice());
        if self.date.is_none() && t.len() > 0 {
            let message = quoted_message("date `", t, "` is not valid");
            proof {
                reveal_strlit("date `");
                reveal_strlit("` is not valid");
            }
            push_warning(warnings, warning(ImportWarningKind::InvalidDate, message, self.number.as_str(), line));
        } else {
            assert(warning_views(warnings@) + seq![] =~= warning_views(warnings@));
        }
    }

    pub fn set_time<A: LabelledTextAdapter>(
        &mut self,
        adapter: &A,
        value: &str,
        line: usize,
        warnings: &mut Vec<ImportWarning>,
    )
        ensures
            final(self)@ == (RecordView { time: adapter.time_of(value@), ..old(self)@ }),
            warning_views(final(warnings)@) == warning_views(old(warnings)@) + time_warnings(
                *adapter,
                value@,
                old(self)@.number,
                line as int,
            ),
    {
        self.time = adapter.parse_time(value);
        let cs = chars_of(value);
        let t = trim_chars(cs.as_slice());
        if self.time.is_none() && t.len() > 0 {
            let message = quoted_message("time `", t, "` is not valid");
            proof {
                reveal_strlit("time `");
                reveal_strlit("` is not valid");
            }
            push_warning(warnings, warning(ImportWarningKind::InvalidTime, message, self.number.as_str(), line));
        } else {
            assert(warning_views(warnings@) + seq![] =~= warning_views(warnings@));
        }
    }

    pub fn set_mode<A: LabelledTextAdapter>(
        &mut self,
        adapter: &A,
        value: &str,
        line: usize,
        warnings: &mut Vec<ImportWarning>,
    )
        ensures
            final(self)@ == (RecordView { mode: adapter.mode_of(value@), ..old(self)@ }),
            warning_views(final(warnings)@) == warning_views(old(warnings)@) + mode_warnings(
                *adapter,
                value@,
                old(self)@.number,
                line as int,
            ),
    {
        self.mode = adapter.parse_mode(value);
        if !self.mode.code.as_str().is_empty() && !adapter.mode_is_supported(self.mode.code.as_str()) {
            let code = chars_of(self.mode.code.as_str());
            let message = quoted_message("preserved unrecognized test mode `", code.as_slice(), "`");
            proof {
                reveal_strlit("preserved unrecognized test mode `");
                reveal_strlit("`");
            }
            push_warning(warnings, warning(ImportWarningKind::UnsupportedMode, message, self.number.as_str(), line));
        } else {
            assert(warning_views(warnings@) + seq![] =~= warning_views(warnings@));
        }
    }

    /// Sets the piece at `index`, adding empty pieces before it as needed.
    pub fn set_segment(segments: &mut Vec<String>, index: usize, value: &str)
        ensures
            string_views(final(segments)@) == segment_set(string_views(old(segments)@), index as int, value@),
    {
        let ghost start = string_views(segments@);
        let ghost grown = if start.len() <= index {
            start + Seq::new((index + 1 - start.len()) as nat, |i: int| Seq::<char>::empty())
        } else {
            start
        };
        while segments.len() <= index
            invariant
                start.len() <= segments@.len(),
                grown == if start.len() <= index {
                    start + Seq::new((index + 1 - start.len()) as nat, |i: int| Seq::<char>::empty())
                } else {
                    start
                },
                start.len() > index ==> segments@.len() == start.len(),
                string_views(segments@) == grown.take(segments@.len() as int),
                start.len() <= index ==> segments@.len() <= index + 1,
                grown.len() == if start.len() <= index { index + 1 } else { start.len() as int },
            decreases index + 1 - segments.len(),
        {
            let ghost before = segments@;
            segments.push(String::new());
            proof {
                assert(grown[before.len() as int] == Seq::<char>::empty());
                assert(string_views(segments@) =~= string_views(before).push(Seq::<char>::empty()));
                assert(string_views(segments@) =~= grown.take(segments@.len() as int));
            }
        }
        proof {
            assert(string_views(segments@) =~= grown);
        }
        let ghost before = segments@;
        segments.set(index, value.to_owned());
        proof {
            assert(string_views(segments@) =~= string_views(before).update(index as int, value@));
        }
    }

    /// Reads `line` as a test result and adds it; `false` when it is not one.
    pub fn add_result<A: LabelledTextAdapter>(&mut self, adapter: &A, line: &str) -> (r: bool)
        ensures
            r == (result_line(*adapter, line@) is Some),
            result_line(*adapter, line@) matches Some(t) ==> final(self)@ == (RecordView {
                tests: old(self)@.tests.push(t),
                ..old(self)@
            }),
            result_line(*adapter, line@) is None ==> final(self)@ == old(self)@,
    {
        let cs = chars_of(line);
        let trimmed = trim_end_chars(cs.as_slice());
        let split = match last_space_at(trimmed) {
            Some(k) => k,
            None => return false,
        };
        let tail = slice_subrange(trimmed, split, trimmed.len());
        proof {
            assert(tail@ =~= trimmed@.skip(split as int));
        }
        let token_chars = trim_chars(tail);
        let token = string_of(token_chars);
        let status = match adapter.status_token(token.as_str()) {
            Some(s) => s,
            None => return false,
        };
        let head = slice_subrange(trimmed, 0, split);
        proof {
            assert(head@ =~= trimmed@.take(split as int));
        }
        let body = trim_end_chars(head);
        let tokens = split_words(body);
        let (raw_name, measurement) = measurement_of(&tokens);
        if raw_name.as_str().is_empty() {
            return false;
        }
        let measurement = match measurement {
            Some(m) => {
                let unit = adapter.normalize_unit(m.unit.as_str());
                Some(crate::model::Measurement { comparison: m.comparison, value: m.value, unit })
            },
            None => None,
        };
        let kind = adapter.test_kind(raw_name.as_str());
        let result = TestResult {
            kind,
            raw_name,
            status,
            measurement,
            limit: None,
            raw_line: line.to_owned(),
        };
        let ghost before = self.tests@;
        self.tests.push(result);
        proof {
            assert(test_views(self.tests@) =~= test_views(before).push(test_view(result)));
        }
        true
    }

    /// Gives the last result the limit written in `raw`; `false` when it cannot.
    pub fn attach_limit<A: LabelledTextAdapter>(&mut self, adapter: &A, raw: &str) -> (r: bool)
        ensures
            r == (limit_for(*adapter, old(self)@.tests, raw@) is Some),
            limit_for(*adapter, old(self)@.tests, raw@) matches Some(l) ==> final(self)@ == apply_limit_view(old(self)@, l),
            limit_for(*adapter, old(self)@.tests, raw@) is None ==> final(self)@ == old(self)@,
    {
        let n = self.tests.len();
        if n == 0 {
            return false;
        }
        proof {
            assert(test_views(self.tests@).last() == test_view(self.tests@[n - 1]));
        }
        let eligible = self.tests[n - 1].measurement.is_some() || match &self.tests[n - 1].kind {
            crate::model::TestKind::Pelv => true,
            crate::model::TestKind::Unknown(_) => true,
            _ => false,
        };
        if !eligible {
            return false;
        }
        let cs = chars_of(raw);
        let tokens = split_words(cs.as_slice());
        proof {
            assert(views(tokens@).len() == tokens@.len());
        }
        if tokens.len() == 0 {
            return false;
        }
        proof {
            assert(views(tokens@)[0] == tokens@[0]@);
        }
        let (comparison, value) = match exact_reading_of(tokens[0]) {
            Some(x) => x,
            None => return false,
        };
        let unit_text = if tokens.len() > 1 {
            proof {
                assert(views(tokens@)[1] == tokens@[1]@);
            }
            string_of(tokens[1])
        } else {
            String::new()
        };
        let unit = adapter.normalize_unit(unit_text.as_str());
        let limit = Limit { comparison, value, unit, raw: raw.to_owned() };
        let ghost before = self.tests@;
        let mut last = self.tests.pop().unwrap();
        last.limit = Some(limit);
        self.tests.push(last);
        proof {
            assert(before.drop_last().push(last) =~= self.tests@);
            assert(test_views(self.tests@) =~= test_views(before).update(
                before.len() - 1,
                TestView { limit: Some((comparison, value@, unit@, raw@)), ..test_views(before).last() },
            ));
        }
        true
    }

    /// Keeps a source line that has no structured destination.
    pub fn preserve(&mut self, name: &str, line: &str, line_number: usize)
        ensures
            final(self)@ == (RecordView {
                raw_fields: old(self)@.raw_fields.push((name@, line@, line_number as int)),
                ..old(self)@
            }),
    {
        let f = RawField { name: name.to_owned(), value: line.to_owned(), line_number };
        let ghost before = self.raw_fields@;
        self.raw_fields.push(f);
        proof {
            assert(raw_views(self.raw_fields@) =~= raw_views(before).push(raw_view(f)));
        }
    }

    /// The appliance this record describes, with its joined site text; `None`
    /// (with a warning) when the record cannot be used.
    pub fn finish<A: LabelledTextAdapter>(self, adapter: &A, warnings: &mut Vec<ImportWarning>) -> (r: Option<(Appliance, ContinuedText)>)
        ensures
            warning_views(final(warnings)@) == warning_views(old(warnings)@) + finish_outcome(*adapter, self@).0,
            r is Some == finish_outcome(*adapter, self@).1 is Some,
            r matches Some((app, site)) ==> finish_outcome(*adapter, self@).1 == Some(
                (crate::model_view::appliance_view(app), site.joined@),
            ),
            r matches Some((app, site)) ==> string_views(site.segments@) == continued(
                self@.site,
                adapter.width_for(TextField::Site),
                adapter.segments_for(TextField::Site),
            ).1,
    {
        let ghost rec = self@;
        let id = trimmed_string(&self.appliance_id);
        let ghost w0 = warning_views(warnings@);
        if self.number.as_str().is_empty() || id.as_str().is_empty() || self.tests.len() == 0 {
            let record = if self.number.as_str().is_empty() {
                None
            } else {
                Some(self.number.clone())
            };
            let message = String::from_str("record is missing its number, appliance ID, or test results");
            proof {
                reveal_strlit("record is missing its number, appliance ID, or test results");
            }
            push_warning(
                warnings,
                ImportWarning { kind: ImportWarningKind::IncompleteRecord, message, record, line: Some(self.start_line) },
            );
        } else {
            assert(w0 + seq![] =~= w0);
        }
        let ghost w1 = warning_views(warnings@);
        if self.tests.len() == 0 || (self.number.as_str().is_empty() && id.as_str().is_empty()) {
            return None;
        }
        let status = match ApplianceStatus::from_tests(self.tests.as_slice()) {
            Some(s) => s,
            None => {
                proof {
                    lemma_status_of_views(self.tests@);
                }
                let record = if self.number.as_str().is_empty() {
                    None
                } else {
                    Some(self.number.clone())
                };
                let message = String::from_str("discarded record with no final pass or fail result");
                proof {
                    reveal_strlit("discarded record with no final pass or fail result");
                }
                push_warning(
                    warnings,
                    ImportWarning { kind: ImportWarningKind::IncompleteRecord, message, record, line: Some(self.start_line) },
                );
                proof {
                    assert(warning_views(warnings@) =~= w0 + finish_outcome(*adapter, rec).0);
                }
                return None;
            },
        };
        proof {
            lemma_status_of_views(self.tests@);
        }
        let site = continued_text(
            self.site,
            adapter.continuation_width(TextField::Site),
            adapter.continuation_segments(TextField::Site),
        );
        let description = continued_text(
            self.description,
            adapter.continuation_width(TextField::Description),
            adapter.continuation_segments(TextField::Description),
        );
        let location = continued_text(
            self.location,
            adapter.continuation_width(TextField::Location),
            adapter.continuation_segments(TextField::Location),
        );
        let comments = join_trimmed(&self.comments);
        let user = trimmed_string(&self.user);
        let app = Appliance {
            source_record_number: self.number,
            removed: false,
            appliance_id: id,
            description: description.joined,
            description_segments: description.segments,
            location: location.joined,
            location_segments: location.segments,
            test_date: self.date,
            test_time: self.time,
            retest_date: None,
            comments,
            mode: self.mode,
            user,
            tests: self.tests,
            status,
            raw_fields: self.raw_fields,
        };
        proof {
            assert(crate::model_view::appliance_view(app) == finished_appliance(*adapter, rec, status).0);
        }
        Some((app, site))
    }
}

/// Position of the last whitespace character.
fn last_space_at(s: &[char]) -> (r: Option<usize>)
    ensures
        r matches Some(k) ==> k as int == last_space(s@) && k < s@.len(),
        r is None ==> last_space(s@) == -1,
{
    let mut n = s.len();
    proof {
        lemma_last_space_whole(s@);
    }
    while n > 0
        invariant
            0 <= n <= s@.len(),
            last_space(s@) == last_space(s@.take(n as int)),
        decreases n,
    {
        proof {
            assert(s@.take(n as int).last() == s@[n - 1]);
            assert(s@.take(n as int).drop_last() =~= s@.take(n - 1));
        }
        if crate::text::char_is_space(s[n - 1]) {
            return Some(n - 1);
        }
        n = n - 1;
    }
    None
}

proof fn lemma_last_space_whole(s: Seq<char>)
    ensures
        last_space(s) == last_space(s.take(s.len() as int)),
{
    assert(s.take(s.len() as int) =~= s);
}

} // verus!
