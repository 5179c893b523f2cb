//! The shared reading of labelled tester exports: each line either sets a
//! header field, starts a record, fills a record field, adds a test result,
//! or is preserved with a warning; an end marker stops the reading.
use crate::date::now_utc;
use crate::date_format::ReportDateFormat;
use crate::digest::{sha256_digest, sha256_of};
use crate::import::{
    Detection, ImportError, ImportSource, ImportWarning, ImportWarningKind, ImporterMetadata,
    TesterImporter,
};
use crate::labelled::{field_chars, field_value, FieldMapping, FieldTarget, LabelledTextAdapter, LabelledTextImporter};
use crate::model::{
    Appliance, ImportedJob, Job, JobMetadata, PostalAddress, SourceArchive, TestMode,
};
use crate::model_view::{appliance_view, appliance_views, warning_view, warning_views, ApplianceView, TestView, WarningView};
use crate::record::{
    apply_limit_view, finish_outcome, limit_for, optional_text, record_started, result_line,
    segment_set, warning, warning_at, date_warnings, mode_warnings, time_warnings, RecordBuilder,
    RecordView,
};
use crate::text::{chars_of, is_blank, lines, string_of, str_equals, trim, trim_chars, words};
use crate::tokens::{split_lines, split_words, string_views, views};
use vstd::prelude::*;

verus! {

/// The abstract state of a reading.
pub struct ParseView {
    pub model: Seq<char>,
    pub serial: Seq<char>,
    pub current: Option<RecordView>,
    pub appliances: Seq<ApplianceView>,
    pub warnings: Seq<WarningView>,
    pub site_name: Seq<char>,
    pub tester_name: Seq<char>,
    pub record_ids: Seq<Seq<char>>,
    pub appliance_ids: Seq<Seq<char>>,
    pub saw_end: bool,
}

/// Nothing read yet.
pub open spec fn parse_start() -> ParseView {
    ParseView {
        model: seq![],
        serial: seq![],
        current: None,
        appliances: seq![],
        warnings: seq![],
        site_name: seq![],
        tester_name: seq![],
        record_ids: seq![],
        appliance_ids: seq![],
        saw_end: false,
    }
}

/// Starts a record; a number seen before is warned about.
pub open spec fn start_record_view(st: ParseView, number: Seq<char>, line: int) -> ParseView {
    let dup = number.len() > 0 && st.record_ids.contains(number);
    ParseView {
        warnings: if dup {
            st.warnings.push(
                warning_at(
                    ImportWarningKind::DuplicateId,
                    "duplicate source record number `"@ + number + "`"@,
                    number,
                    line,
                ),
            )
        } else {
            st.warnings
        },
        record_ids: if number.len() > 0 && !dup {
            st.record_ids.push(number)
        } else {
            st.record_ids
        },
        current: Some(record_started(line, number)),
        ..st
    }
}

/// Adds a finished appliance: a repeated appliance ID and a site that differs
/// from the first one are warned about; the first site and user are kept.
pub open spec fn accept_appliance(st: ParseView, app: ApplianceView, site: Seq<char>) -> ParseView {
    let id = app.appliance_id;
    let dup = id.len() > 0 && st.appliance_ids.contains(id);
    let w1 = if dup {
        seq![WarningView {
            kind: ImportWarningKind::DuplicateId,
            message: "duplicate appliance ID `"@ + id + "`"@,
            record: Some(app.source_record_number),
            line: None,
        }]
    } else {
        seq![]
    };
    let w2 = if st.site_name.len() > 0 && site.len() > 0 && st.site_name != site {
        seq![WarningView {
            kind: ImportWarningKind::InconsistentField,
            message: "site fields differ between appliance records"@,
            record: Some(app.source_record_number),
            line: None,
        }]
    } else {
        seq![]
    };
    ParseView {
        warnings: st.warnings + w1 + w2,
        appliance_ids: if id.len() > 0 && !dup {
            st.appliance_ids.push(id)
        } else {
            st.appliance_ids
        },
        site_name: if st.site_name.len() == 0 {
            site
        } else {
            st.site_name
        },
        tester_name: if st.tester_name.len() == 0 {
            app.user
        } else {
            st.tester_name
        },
        appliances: st.appliances.push(app),
        ..st
    }
}

/// Finishes the open record, if any.
pub open spec fn finish_record_view<A: LabelledTextAdapter>(a: A, st: ParseView) -> ParseView {
    match st.current {
        None => st,
        Some(rec) => {
            let (ws, res) = finish_outcome(a, rec);
            let st1 = ParseView { current: None, warnings: st.warnings + ws, ..st };
            match res {
                None => st1,
                Some((app, site)) => accept_appliance(st1, app, site),
            }
        },
    }
}

/// A record field applied to the open record, with the warnings it raises.
pub open spec fn apply_field<A: LabelledTextAdapter>(
    a: A,
    rec: RecordView,
    target: FieldTarget,
    label: Seq<char>,
    value: Seq<char>,
    line: Seq<char>,
    n: int,
) -> (RecordView, Seq<WarningView>) {
    match target {
        FieldTarget::TestDate => (RecordView { date: a.date_of(value), ..rec }, date_warnings(a, value, rec.number, n)),
        FieldTarget::TestTime => (RecordView { time: a.time_of(value), ..rec }, time_warnings(a, value, rec.number, n)),
        FieldTarget::ApplianceId => (RecordView { appliance_id: value, ..rec }, seq![]),
        FieldTarget::TestMode => (RecordView { mode: a.mode_of(value), ..rec }, mode_warnings(a, value, rec.number, n)),
        FieldTarget::Site(i) => (RecordView { site: segment_set(rec.site, i as int, value), ..rec }, seq![]),
        FieldTarget::User => (RecordView { user: value, ..rec }, seq![]),
        FieldTarget::Description(i) => (
            RecordView { description: segment_set(rec.description, i as int, value), ..rec },
            seq![],
        ),
        FieldTarget::Location(i) => (
            RecordView { location: segment_set(rec.location, i as int, value), ..rec },
            seq![],
        ),
        FieldTarget::Comment => (
            RecordView {
                comments: rec.comments.push(value),
                raw_fields: rec.raw_fields.push((label, line, n)),
                ..rec
            },
            seq![],
        ),
        FieldTarget::Limit => match limit_for(a, rec.tests, trim(value)) {
            Some(l) => (apply_limit_view(rec, l), seq![]),
            None => (
                RecordView { raw_fields: rec.raw_fields.push((label, line, n)), ..rec },
                seq![warning_at(ImportWarningKind::InconsistentField, "limit does not follow a measurement"@, rec.number, n)],
            ),
        },
        FieldTarget::Preserve => (RecordView { raw_fields: rec.raw_fields.push((label, line, n)), ..rec }, seq![]),
        _ => (rec, seq![]),
    }
}

/// A labelled field read from line `n`.
pub open spec fn consume_field_view<A: LabelledTextAdapter>(
    a: A,
    st: ParseView,
    target: FieldTarget,
    label: Seq<char>,
    value: Seq<char>,
    line: Seq<char>,
    n: int,
) -> ParseView {
    match target {
        FieldTarget::TesterModel => ParseView { model: trim(value), ..st },
        FieldTarget::TesterSerial => ParseView { serial: trim(value), ..st },
        FieldTarget::RecordNumber => start_record_view(finish_record_view(a, st), trim(value), n),
        _ => match st.current {
            None => ParseView {
                warnings: st.warnings.push(
                    warning_at(ImportWarningKind::UnknownLine, "ignored field outside an appliance record"@, seq![], n),
                ),
                ..st
            },
            Some(rec) => {
                let (r2, ws) = apply_field(a, rec, target, label, value, line, n);
                ParseView { current: Some(r2), warnings: st.warnings + ws, ..st }
            },
        },
    }
}

/// The first mapping (in priority order) whose field `line` carries, with its value.
pub open spec fn first_field(ms: Seq<FieldMapping>, line: Seq<char>) -> Option<(FieldMapping, Seq<char>)>
    decreases ms.len(),
{
    if ms.len() == 0 {
        None
    } else {
        match field_value(line, ms[0]) {
            Some(v) => Some((ms[0], v)),
            None => first_field(ms.drop_first(), line),
        }
    }
}

/// The first word of a line, or `UNKNOWN` when it has none.
pub open spec fn first_word_or_unknown(line: Seq<char>) -> Seq<char> {
    let ws = words(line);
    if ws.len() > 0 {
        ws[0]
    } else {
        "UNKNOWN"@
    }
}

/// One line read at line number `n`, and whether reading goes on.
pub open spec fn consume_view<A: LabelledTextAdapter>(a: A, st: ParseView, line: Seq<char>, n: int) -> (ParseView, bool) {
    if trim(line).len() == 0 {
        (st, true)
    } else if a.is_end(trim(line)) {
        (ParseView { saw_end: true, ..finish_record_view(a, st) }, false)
    } else {
        match first_field(a.mapping_list(), line) {
            Some((m, v)) => (consume_field_view(a, st, m.target, m.label@, v, line, n), true),
            None => match st.current {
                Some(rec) => match result_line(a, line) {
                    Some(t) => (
                        ParseView { current: Some(RecordView { tests: rec.tests.push(t), ..rec }), ..st },
                        true,
                    ),
                    None => (
                        ParseView {
                            current: Some(
                                RecordView {
                                    raw_fields: rec.raw_fields.push((first_word_or_unknown(line), line, n)),
                                    ..rec
                                },
                            ),
                            warnings: st.warnings.push(
                                warning_at(
                                    ImportWarningKind::UnknownLine,
                                    "preserved unrecognized record line in raw fields"@,
                                    rec.number,
                                    n,
                                ),
                            ),
                            ..st
                        },
                        true,
                    ),
                },
                None => (
                    ParseView {
                        warnings: st.warnings.push(
                            warning_at(ImportWarningKind::UnknownLine, "ignored line outside an appliance record"@, seq![], n),
                        ),
                        ..st
                    },
                    true,
                ),
            },
        }
    }
}

/// The lines from index `i` on read into `st`, stopping after an end marker.
pub open spec fn run_lines<A: LabelledTextAdapter>(a: A, st: ParseView, ls: Seq<Seq<char>>, i: int) -> ParseView
    decreases ls.len() - i,
{
    if i < 0 || i >= ls.len() {
        st
    } else {
        let (s2, go) = consume_view(a, st, ls[i], i + 1);
        if go {
            run_lines(a, s2, ls, i + 1)
        } else {
            s2
        }
    }
}

/// The state after reading all of `text` and finishing the last record.
pub open spec fn parsed_text<A: LabelledTextAdapter>(a: A, text: Seq<char>) -> ParseView {
    finish_record_view(a, run_lines(a, parse_start(), lines(text), 0))
}

pub open spec fn address_blank(a: PostalAddress) -> bool {
    &&& a.line_1@.len() == 0
    &&& a.line_2@.len() == 0
    &&& a.town@.len() == 0
    &&& a.county@.len() == 0
    &&& a.postcode@.len() == 0
}

/// Metadata of a fresh import: the site and tester name from the records, all else blank.
pub open spec fn imported_metadata(m: JobMetadata, site: Seq<char>, tester: Seq<char>) -> bool {
    &&& m.site_name@ == site
    &&& m.tester_name@ == tester
    &&& m.customer_name@.len() == 0
    &&& address_blank(m.customer_address)
    &&& address_blank(m.site_address)
    &&& m.contractor_name@.len() == 0
    &&& address_blank(m.contractor_address)
    &&& m.contractor_telephone@.len() == 0
    &&& m.contractor_email@.len() == 0
    &&& m.certificate_number@.len() == 0
    &&& m.order_reference@.len() == 0
    &&& m.valid_until is None
    &&& m.report_date_format == ReportDateFormat::DayMonthNameYear
    &&& m.report_notes@.len() == 0
}

/// The warning for a source that needs an end marker and has none.
pub open spec fn end_marker_warnings<A: LabelledTextAdapter>(a: A, s: ParseView) -> Seq<WarningView> {
    if a.needs_end_marker() && !s.saw_end {
        seq![WarningView {
            kind: ImportWarningKind::IncompleteRecord,
            message: "source has no end-of-data marker"@,
            record: None,
            line: None,
        }]
    } else {
        seq![]
    }
}

/// The job imported from `source`, read as `s`.
pub open spec fn job_from<A: LabelledTextAdapter>(a: A, source: ImportSource, s: ParseView, j: ImportedJob) -> bool {
    &&& appliance_views(j.job.appliances@) == s.appliances
    &&& warning_views(j.warnings@) == s.warnings + end_marker_warnings(a, s)
    &&& imported_metadata(j.job.metadata, s.site_name, s.tester_name)
    &&& imported_metadata(j.job.original_metadata, s.site_name, s.tester_name)
    &&& j.job.source.provenance.importer_id@ == a.meta().importer_id@
    &&& j.job.source.provenance.format_id@ == a.meta().format_id@
    &&& j.job.source.filename@ == source.filename@
    &&& j.job.source.bytes@ == source.bytes@
    &&& j.job.source.sha256@ == sha256_of(source.bytes@)
    &&& j.job.source.tester_model@ == if s.model.len() == 0 {
        a.default_model()
    } else {
        s.model
    }
    &&& j.job.source.tester_serial@ == s.serial
}

/// The outcome of importing `source` whose decoded text is `text`: no usable
/// record is an error, otherwise the job that the reading yields.
pub open spec fn import_outcome<A: LabelledTextAdapter>(a: A, source: ImportSource, text: Seq<char>, r: Result<ImportedJob, ImportError>) -> bool {
    let s = parsed_text(a, text);
    if s.appliances.len() == 0 {
        r matches Err(e) && e == ImportError::NoUsableRecords
    } else {
        r matches Ok(j) && job_from(a, source, s, j)
    }
}

fn contains_text(items: &Vec<String>, s: &str) -> (r: bool)
    ensures
        r == string_views(items@).contains(s@),
{
    let mut i: usize = 0;
    while i < items.len()
        invariant
            0 <= i <= items@.len(),
            forall|k: int| 0 <= k < i ==> string_views(items@)[k] != s@,
        decreases items.len() - i,
    {
        if str_equals(items[i].as_str(), s) {
            proof {
                assert(string_views(items@)[i as int] == s@);
            }
            return true;
        }
        i = i + 1;
    }
    false
}

fn push_text(items: &mut Vec<String>, s: String)
    ensures
        string_views(final(items)@) == string_views(old(items)@).push(s@),
{
    let ghost before = items@;
    items.push(s);
    proof {
        assert(string_views(items@) =~= string_views(before).push(s@));
    }
}

fn push_warning(warnings: &mut Vec<ImportWarning>, w: ImportWarning)
    ensures
        warning_views(final(warnings)@) == warning_views(old(warnings)@).push(warning_view(w)),
{
    proof {
        crate::record::lemma_warning_views_push(warnings@, w);
    }
    warnings.push(w);
}

fn literal(s: &str) -> (r: String)
    ensures
        r@ == s@,
{
    s.to_owned()
}

fn find_field<'b>(mappings: &Vec<FieldMapping>, line: &'b [char]) -> (r: Option<(usize, &'b [char])>)
    ensures
        r matches Some((i, v)) ==> i < mappings@.len() && first_field(mappings@, line@) == Some(
            (mappings@[i as int], v@),
        ),
        r is None ==> first_field(mappings@, line@) is None,
{
    let mut i: usize = 0;
    proof {
        assert(mappings@.skip(0) =~= mappings@);
    }
    while i < mappings.len()
        invariant
            0 <= i <= mappings@.len(),
            first_field(mappings@, line@) == first_field(mappings@.skip(i as int), line@),
        decreases mappings.len() - i,
    {
        proof {
            assert(mappings@.skip(i as int)[0] == mappings@[i as int]);
            assert(mappings@.skip(i as int).drop_first() =~= mappings@.skip(i + 1));
        }
        match field_chars(line, &mappings[i]) {
            Some(v) => {
                return Some((i, v));
            },
            None => {},
        }
        i = i + 1;
    }
    None
}

fn apply_record_field<A: LabelledTextAdapter>(
    adapter: &A,
    record: &mut RecordBuilder,
    target: FieldTarget,
    label: &str,
    value: &str,
    line: &str,
    line_number: usize,
    warnings: &mut Vec<ImportWarning>,
)
    ensures
        final(record)@ == apply_field(*adapter, old(record)@, target, label@, value@, line@, line_number as int).0,
        warning_views(final(warnings)@) == warning_views(old(warnings)@) + apply_field(
            *adapter,
            old(record)@,
            target,
            label@,
            value@,
            line@,
            line_number as int,
        ).1,
{
    let ghost w0 = warning_views(warnings@);
    match target {
        FieldTarget::TestDate => record.set_date(adapter, value, line_number, warnings),
        FieldTarget::TestTime => record.set_time(adapter, value, line_number, warnings),
        FieldTarget::ApplianceId => {
            record.appliance_id = value.to_owned();
            assert(w0 + seq![] =~= w0);
        },
        FieldTarget::TestMode => record.set_mode(adapter, value, line_number, warnings),
        FieldTarget::Site(index) => {
            RecordBuilder::set_segment(&mut record.site, index, value);
            assert(w0 + seq![] =~= w0);
        },
        FieldTarget::User => {
            record.user = value.to_owned();
            assert(w0 + seq![] =~= w0);
        },
        FieldTarget::Description(index) => {
            RecordBuilder::set_segment(&mut record.description, index, value);
            assert(w0 + seq![] =~= w0);
        },
        FieldTarget::Location(index) => {
            RecordBuilder::set_segment(&mut record.location, index, value);
            assert(w0 + seq![] =~= w0);
        },
        FieldTarget::Comment => {
            push_text(&mut record.comments, value.to_owned());
            record.preserve(label, line, line_number);
            assert(w0 + seq![] =~= w0);
        },
        FieldTarget::Limit => {
            let cs = chars_of(value);
            let t = string_of(trim_chars(cs.as_slice()));
            if !record.attach_limit(adapter, t.as_str()) {
                record.preserve(label, line, line_number);
                let message = literal("limit does not follow a measurement");
                proof {
                    reveal_strlit("limit does not follow a measurement");
                }
                push_warning(
                    warnings,
                    warning(ImportWarningKind::InconsistentField, message, record.number.as_str(), line_number),
                );
            } else {
                assert(w0 + seq![] =~= w0);
            }
        },
        FieldTarget::Preserve => {
            record.preserve(label, line, line_number);
            assert(w0 + seq![] =~= w0);
        },
        _ => {
            assert(w0 + seq![] =~= w0);
        },
    }
}

struct ParserState<'a, A> {
    adapter: &'a A,
    mappings: Vec<FieldMapping>,
    model: String,
    serial: String,
    current: Option<RecordBuilder>,
    appliances: Vec<Appliance>,
    warnings: Vec<ImportWarning>,
    site_name: String,
    tester_name: String,
    record_ids: Vec<String>,
    appliance_ids: Vec<String>,
    saw_end: bool,
}

spec fn record_view_opt(r: Option<RecordBuilder>) -> Option<RecordView> {
    match r {
        Some(x) => Some(x@),
        None => None,
    }
}

impl<'a, A: LabelledTextAdapter> ParserState<'a, A> {
    spec fn view(&self) -> ParseView {
        ParseView {
            model: self.model@,
            serial: self.serial@,
            current: record_view_opt(self.current),
            appliances: appliance_views(self.appliances@),
            warnings: warning_views(self.warnings@),
            site_name: self.site_name@,
            tester_name: self.tester_name@,
            record_ids: string_views(self.record_ids@),
            appliance_ids: string_views(self.appliance_ids@),
            saw_end: self.saw_end,
        }
    }

    spec fn well_formed(&self) -> bool {
        self.mappings@ == self.adapter.mapping_list()
    }

    fn new(adapter: &'a A) -> (r: Self)
        ensures
            r.view() == parse_start(),
            r.adapter == adapter,
            r.well_formed(),
    {
        let r = ParserState {
            adapter,
            mappings: adapter.mappings(),
            model: String::new(),
            serial: String::new(),
            current: None,
            appliances: Vec::new(),
            warnings: Vec::new(),
            site_name: String::new(),
            tester_name: String::new(),
            record_ids: Vec::new(),
            appliance_ids: Vec::new(),
            saw_end: false,
        };
        proof {
            assert(r.view().appliances =~= seq![]);
            assert(r.view().warnings =~= seq![]);
            assert(r.view().record_ids =~= seq![]);
            assert(r.view().appliance_ids =~= seq![]);
        }
        r
    }

    fn start_record(&mut self, number: String, line_number: usize)
        requires
            old(self).current is None,
        ensures
            final(self).view() == start_record_view(old(self).view(), number@, line_number as int),
            final(self).adapter == old(self).adapter,
            final(self).mappings == old(self).mappings,
    {
        if !number.as_str().is_empty() {
            if contains_text(&self.record_ids, number.as_str()) {
                let mut message = literal("duplicate source record number `");
                crate::text::append_str(&mut message, number.as_str());
                crate::text::append_str(&mut message, "`");
                proof {
                    reveal_strlit("duplicate source record number `");
                    reveal_strlit("`");
                }
                push_warning(
                    &mut self.warnings,
                    warning(ImportWarningKind::DuplicateId, message, number.as_str(), line_number),
                );
            } else {
                push_text(&mut self.record_ids, number.clone());
            }
        }
        self.current = Some(RecordBuilder::started(line_number, number));
    }

    fn finish_record(&mut self)
        ensures
            final(self).view() == finish_record_view(*old(self).adapter, old(self).view()),
            final(self).current is None,
            final(self).adapter == old(self).adapter,
            final(self).mappings == old(self).mappings,
            final(self).saw_end == old(self).saw_end,
    {
        let ghost s0 = self.view();
        let record = match self.current.take() {
            Some(r) => r,
            None => return,
        };
        let ghost rec = record@;
        let outcome = record.finish(self.adapter, &mut self.warnings);
        let ghost st1 = ParseView { current: None, warnings: s0.warnings + finish_outcome(*self.adapter, rec).0, ..s0 };
        assert(self.view() == st1);
        let (appliance, site) = match outcome {
            Some(x) => x,
            None => return,
        };
        let ghost av = appliance_view(appliance);
        let ghost w_dup: Seq<WarningView> = seq![];
        if !appliance.appliance_id.as_str().is_empty() {
            if contains_text(&self.appliance_ids, appliance.appliance_id.as_str()) {
                let mut message = literal("duplicate appliance ID `");
                crate::text::append_str(&mut message, appliance.appliance_id.as_str());
                crate::text::append_str(&mut message, "`");
                proof {
                    reveal_strlit("duplicate appliance ID `");
                    reveal_strlit("`");
                }
                let w = ImportWarning {
                    kind: ImportWarningKind::DuplicateId,
                    message,
                    record: Some(appliance.source_record_number.clone()),
                    line: None,
                };
                proof {
                    w_dup = seq![warning_view(w)];
                }
                push_warning(&mut self.warnings, w);
            } else {
                push_text(&mut self.appliance_ids, appliance.appliance_id.clone());
            }
        }
        assert(warning_views(self.warnings@) == st1.warnings + w_dup);
        let ghost w_site: Seq<WarningView> = seq![];
        let ghost old_site = self.site_name@;
        if self.site_name.as_str().is_empty() {
            self.site_name = site.joined;
        } else if !site.joined.as_str().is_empty() && !str_equals(self.site_name.as_str(), site.joined.as_str()) {
            let message = literal("site fields differ between appliance records");
            proof {
                reveal_strlit("site fields differ between appliance records");
            }
            let w = ImportWarning {
                kind: ImportWarningKind::InconsistentField,
                message,
                record: Some(appliance.source_record_number.clone()),
                line: None,
            };
            proof {
                w_site = seq![warning_view(w)];
            }
            push_warning(&mut self.warnings, w);
        }
        assert(warning_views(self.warnings@) =~= st1.warnings + w_dup + w_site);
        if self.tester_name.as_str().is_empty() {
            self.tester_name = appliance.user.clone();
        }
        let ghost before = self.appliances@;
        self.appliances.push(appliance);
        proof {
            assert(appliance_views(self.appliances@) =~= appliance_views(before).push(av));
            assert(self.view() == accept_appliance(st1, av, site.joined@));
        }
    }
    fn consume_field(
        &mut self,
        target: FieldTarget,
        label: &str,
        value: &[char],
        line: &[char],
        line_number: usize,
    )
        ensures
            final(self).view() == consume_field_view(
                *old(self).adapter,
                old(self).view(),
                target,
                label@,
                value@,
                line@,
                line_number as int,
            ),
            final(self).adapter == old(self).adapter,
            final(self).mappings == old(self).mappings,
            final(self).saw_end == old(self).saw_end,
    {
        match target {
            FieldTarget::TesterModel => {
                self.model = string_of(trim_chars(value));
            },
            FieldTarget::TesterSerial => {
                self.serial = string_of(trim_chars(value));
            },
            FieldTarget::RecordNumber => {
                self.finish_record();
                self.start_record(string_of(trim_chars(value)), line_number);
            },
            _ => {
                match self.current.take() {
                    None => {
                        let message = literal("ignored field outside an appliance record");
                        proof {
                            reveal_strlit("ignored field outside an appliance record");
                            reveal_strlit("");
                        }
                        push_warning(
                            &mut self.warnings,
                            warning(ImportWarningKind::UnknownLine, message, "", line_number),
                        );
                    },
                    Some(record) => {
                        let mut record = record;
                        let value_text = string_of(value);
                        let line_text = string_of(line);
                        apply_record_field(
                            self.adapter,
                            &mut record,
                            target,
                            label,
                            value_text.as_str(),
                            line_text.as_str(),
                            line_number,
                            &mut self.warnings,
                        );
                        self.current = Some(record);
                    },
                }
            },
        }
    }

    fn consume(&mut self, line: &[char], line_number: usize) -> (r: bool)
        requires
            old(self).well_formed(),
        ensures
            (final(self).view(), r) == consume_view(*old(self).adapter, old(self).view(), line@, line_number as int),
            final(self).adapter == old(self).adapter,
            final(self).well_formed(),
    {
        if is_blank(line) {
            return true;
        }
        let t = string_of(trim_chars(line));
        if self.adapter.is_end_marker(t.as_str()) {
            self.finish_record();
            self.saw_end = true;
            return false;
        }
        match find_field(&self.mappings, line) {
            Some((i, v)) => {
                let m = self.mappings[i];
                self.consume_field(m.target, m.label, v, line, line_number);
            },
            None => {
                match self.current.take() {
                    Some(record) => {
                        let mut record = record;
                        let line_text = string_of(line);
                        if !record.add_result(self.adapter, line_text.as_str()) {
                            let ws = split_words(line);
                            proof {
                                assert(views(ws@).len() == ws@.len());
                            }
                            let name = if ws.len() > 0 {
                                proof {
                                    assert(views(ws@)[0] == ws@[0]@);
                                }
                                string_of(ws[0])
                            } else {
                                proof {
                                    reveal_strlit("UNKNOWN");
                                }
                                literal("UNKNOWN")
                            };
                            record.preserve(name.as_str(), line_text.as_str(), line_number);
                            let message = literal("preserved unrecognized record line in raw fields");
                            proof {
                                reveal_strlit("preserved unrecognized record line in raw fields");
                            }
                            push_warning(
                                &mut self.warnings,
                                warning(ImportWarningKind::UnknownLine, message, record.number.as_str(), line_number),
                            );
                        }
                        self.current = Some(record);
                    },
                    None => {
                        let message = literal("ignored line outside an appliance record");
                        proof {
                            reveal_strlit("ignored line outside an appliance record");
                            reveal_strlit("");
                        }
                        push_warning(
                            &mut self.warnings,
                            warning(ImportWarningKind::UnknownLine, message, "", line_number),
                        );
                    },
                }
            },
        }
        true
    }

    fn finish(self, source: &ImportSource<'_>, now: time::OffsetDateTime) -> (r: Result<ImportedJob, ImportError>)
        ensures
            r matches Ok(j) ==> j.job.source.imported_at == now,
            ({
                let s = finish_record_view(*self.adapter, self.view());
                if s.appliances.len() == 0 {
                    r matches Err(e) && e == ImportError::NoUsableRecords
                } else {
                    r matches Ok(j) && job_from(*self.adapter, *source, s, j)
                }
            }),
    {
        let mut st = self;
        st.finish_record();
        if st.appliances.len() == 0 {
            return Err(ImportError::NoUsableRecords);
        }
        let ghost s = st.view();
        if st.adapter.requires_end_marker() && !st.saw_end {
            let message = literal("source has no end-of-data marker");
            proof {
                reveal_strlit("source has no end-of-data marker");
            }
            let w = ImportWarning { kind: ImportWarningKind::IncompleteRecord, message, record: None, line: None };
            push_warning(&mut st.warnings, w);
            assert(warning_views(st.warnings@) =~= s.warnings + end_marker_warnings(*st.adapter, s));
        } else {
            assert(s.warnings + seq![] =~= s.warnings);
        }
        let metadata = imported_job_metadata(st.site_name.clone(), st.tester_name.clone());
        let original_metadata = imported_job_metadata(st.site_name, st.tester_name);
        let provenance = st.adapter.metadata().provenance();
        let tester_model = if st.model.as_str().is_empty() {
            st.adapter.default_tester_model().to_owned()
        } else {
            st.model
        };
        let source_archive = SourceArchive {
            provenance,
            filename: source.filename.to_owned(),
            bytes: vstd::slice::slice_to_vec(source.bytes),
            sha256: sha256_digest(source.bytes),
            imported_at: now,
            tester_model,
            tester_serial: st.serial,
        };
        let j = ImportedJob {
            job: Job { metadata, original_metadata, appliances: st.appliances, source: source_archive },
            warnings: st.warnings,
        };
        assert(appliance_views(j.job.appliances@) == s.appliances);
        assert(warning_views(j.warnings@) == s.warnings + end_marker_warnings(*st.adapter, s));
        assert(j.job.source.tester_model@ == if s.model.len() == 0 {
            st.adapter.default_model()
        } else {
            s.model
        });
        assert(j.job.source.tester_serial@ == s.serial);
        Ok(j)
    }
}

fn blank_address() -> (r: PostalAddress)
    ensures
        address_blank(r),
{
    PostalAddress {
        line_1: String::new(),
        line_2: String::new(),
        town: String::new(),
        county: String::new(),
        postcode: String::new(),
    }
}

fn imported_job_metadata(site_name: String, tester_name: String) -> (r: JobMetadata)
    ensures
        imported_metadata(r, site_name@, tester_name@),
{
    JobMetadata {
        customer_name: String::new(),
        customer_address: blank_address(),
        site_name,
        site_address: blank_address(),
        contractor_name: String::new(),
        contractor_address: blank_address(),
        contractor_telephone: String::new(),
        contractor_email: String::new(),
        tester_name,
        certificate_number: String::new(),
        order_reference: String::new(),
        valid_until: None,
        report_date_format: ReportDateFormat::DayMonthNameYear,
        report_notes: String::new(),
    }
}

/// Reads decoded `text` of `source` with `adapter`'s rules into an imported
/// job, imported at the time `now`.
pub fn parse_source<A: LabelledTextAdapter>(
    adapter: &A,
    source: &ImportSource<'_>,
    text: &str,
    now: time::OffsetDateTime,
) -> (r: Result<ImportedJob, ImportError>)
    ensures
        import_outcome(*adapter, *source, text@, r),
        r matches Ok(j) ==> j.job.source.imported_at == now,
{
    let cs = chars_of(text);
    let ls = split_lines(cs.as_slice());
    let ghost all = views(ls@);
    let mut state = ParserState::new(adapter);
    let mut i: usize = 0;
    while i < ls.len()
        invariant_except_break
            run_lines(*adapter, parse_start(), all, 0) == run_lines(*adapter, state.view(), all, i as int),
        invariant
            all == views(ls@),
            all == lines(text@),
            state.adapter == adapter,
            state.well_formed(),
            0 <= i <= ls@.len(),
        ensures
            run_lines(*adapter, parse_start(), all, 0) == state.view(),
        decreases ls.len() - i,
    {
        proof {
            assert(all[i as int] == ls@[i as int]@);
        }
        let go = state.consume(ls[i], i + 1);
        if !go {
            break;
        }
        i = i + 1;
    }
    state.finish(source, now)
}

/// What detection gives: the format's verdict on the decoded text, or not
/// recognized when the bytes do not decode.
pub open spec fn detection_for<A: LabelledTextAdapter>(a: A, filename: Seq<char>, bytes: Seq<u8>) -> Detection {
    match a.decoding(bytes) {
        Ok(t) => a.detection(filename, t),
        Err(_) => Detection::NotRecognized,
    }
}

/// What an import gives: the decoding error, not recognized when detection
/// refuses the text, and otherwise the outcome of reading the text.
pub open spec fn import_result<A: LabelledTextAdapter>(a: A, source: ImportSource, r: Result<ImportedJob, ImportError>) -> bool {
    match a.decoding(source.bytes@) {
        Err(e) => r matches Err(x) && x == e,
        Ok(t) => if a.detection(source.filename@, t) == Detection::NotRecognized {
            r matches Err(x) && x == ImportError::NotRecognized
        } else {
            import_outcome(a, source, t, r)
        },
    }
}

impl<A: LabelledTextAdapter> TesterImporter for LabelledTextImporter<A> {
    open spec fn meta_of(&self) -> ImporterMetadata {
        self.inner().meta()
    }

    open spec fn detection_of(&self, filename: Seq<char>, bytes: Seq<u8>) -> Detection {
        detection_for(self.inner(), filename, bytes)
    }

    open spec fn import_gives(&self, source: ImportSource<'_>, r: Result<ImportedJob, ImportError>) -> bool {
        import_result(self.inner(), source, r)
    }

    fn metadata(&self) -> (r: ImporterMetadata)
        ensures
            r == self.inner().meta(),
    {
        self.adapter().metadata()
    }

    fn detect(&self, source: &ImportSource<'_>) -> (r: Detection)
        ensures
            r == detection_for(self.inner(), source.filename@, source.bytes@),
    {
        let a = self.adapter();
        match a.decode(source.bytes) {
            Ok(text) => a.detect_text(source, text),
            Err(_) => Detection::NotRecognized,
        }
    }

    fn import(&self, source: &ImportSource<'_>) -> (r: Result<ImportedJob, ImportError>)
        ensures
            import_result(self.inner(), *source, r),
    {
        let a = self.adapter();
        let text = match a.decode(source.bytes) {
            Ok(t) => t,
            Err(e) => return Err(e),
        };
        if a.detect_text(source, text) == Detection::NotRecognized {
            return Err(ImportError::NotRecognized);
        }
        parse_source(a, source, text, now_utc())
    }
}

/// An imported appliance: it has results, its outcome is that of its final
/// results, it is not removed, and it has no retest date yet.
pub open spec fn imported_appliance(app: ApplianceView) -> bool {
    &&& app.tests.len() > 0
    &&& crate::model_view::status_of_views(app.tests) == Some(app.status)
    &&& !app.removed
    &&& app.retest_date is None
}

pub open spec fn all_imported(st: ParseView) -> bool {
    forall|i: int| 0 <= i < st.appliances.len() ==> imported_appliance(#[trigger] st.appliances[i])
}

proof fn lemma_finish_keeps<A: LabelledTextAdapter>(a: A, st: ParseView)
    requires
        all_imported(st),
    ensures
        all_imported(finish_record_view(a, st)),
{
    match st.current {
        None => {},
        Some(rec) => {
            let (ws, res) = finish_outcome(a, rec);
            let st1 = ParseView { current: None, warnings: st.warnings + ws, ..st };
            match res {
                None => {},
                Some((app, site)) => {
                    let st2 = accept_appliance(st1, app, site);
                    assert forall|i: int| 0 <= i < st2.appliances.len() implies imported_appliance(#[trigger] st2.appliances[i]) by {
                        if i < st.appliances.len() {
                            assert(st2.appliances[i] == st.appliances[i]);
                        }
                    }
                },
            }
        },
    }
}

proof fn lemma_consume_keeps<A: LabelledTextAdapter>(a: A, st: ParseView, line: Seq<char>, n: int)
    requires
        all_imported(st),
    ensures
        all_imported(consume_view(a, st, line, n).0),
{
    lemma_finish_keeps(a, st);
}

proof fn lemma_run_keeps<A: LabelledTextAdapter>(a: A, st: ParseView, ls: Seq<Seq<char>>, i: int)
    requires
        all_imported(st),
    ensures
        all_imported(run_lines(a, st, ls, i)),
    decreases ls.len() - i,
{
    if 0 <= i < ls.len() {
        lemma_consume_keeps(a, st, ls[i], i + 1);
        let (s2, go) = consume_view(a, st, ls[i], i + 1);
        if go {
            lemma_run_keeps(a, s2, ls, i + 1);
        }
    }
}

/// Every appliance that reading a text yields has results, the outcome of
/// its final results, is not removed, and has no retest date.
pub proof fn lemma_imported_appliances<A: LabelledTextAdapter>(a: A, text: Seq<char>)
    ensures
        all_imported(parsed_text(a, text)),
{
    lemma_run_keeps(a, parse_start(), lines(text), 0);
    lemma_finish_keeps(a, run_lines(a, parse_start(), lines(text), 0));
}

} // verus!
