//! Editing an open job: which appliances the table shows and in what order,
//! date and time text in the editor, and marking appliances removed.
use crate::appliance_order::{in_key_order, outcome_label, sort_indices, status_text, SortColumn, SortKey, strictly_increasing};
use crate::date::{parse_iso_date, iso_parsed, CalendarDate, ClockTime};
use crate::date_format::{formatted_date, iso_string, iso_text, ReportDateFormat};
use crate::model::{Appliance, ApplianceStatus, Job};
use crate::report::{active_count, lemma_summary_totals, outcome_count};
use crate::model_view::time_view_opt;
use crate::text::{append_str, chars_of, is_blank, lower_seq, push_char, string_of, to_ascii_lower, trim, trim_chars};
use crate::tokens::{decimal, decimal2, parse_i64, parse_signed, push_decimal, push_decimal2};
use crate::dates::{apply_bulk_date_edit, edit_applied, edited_at, edited_date, entry_error, entry_ok, selected, BulkDateEdit, BulkEditError};
use crate::selection::selected_indices;
use std::collections::BTreeSet;
use vstd::prelude::*;

verus! {

/// Whether `needle` occurs in `hay`.
pub open spec fn contains_text(hay: Seq<char>, needle: Seq<char>) -> bool {
    exists|i: int| 0 <= i && i + needle.len() <= hay.len() && #[trigger] hay.subrange(i, i + needle.len()) == needle
}

pub fn text_contains(hay: &[char], needle: &[char]) -> (r: bool)
    ensures
        r == contains_text(hay@, needle@),
{
    if needle.len() > hay.len() {
        return false;
    }
    let mut i: usize = 0;
    let hay_len = hay.len();
    let last = hay_len - needle.len();
    while i <= last
        invariant
            needle@.len() <= hay@.len(),
            hay_len == hay@.len(),
            last == hay@.len() - needle@.len(),
            0 <= i <= last + 1,
            forall|j: int| 0 <= j < i ==> #[trigger] hay@.subrange(j, j + needle@.len()) != needle@,
        decreases hay.len() - i,
    {
        let mut k: usize = 0;
        let mut same = true;
        while k < needle.len()
            invariant
                i <= last,
                hay_len == hay@.len(),
                last + needle@.len() == hay@.len(),
                i + needle@.len() <= hay@.len(),
                0 <= k <= needle@.len(),
                same == forall|m: int| 0 <= m < k ==> hay@[i + m] == needle@[m],
            decreases needle.len() - k,
        {
            if hay[i + k] != needle[k] {
                same = false;
            }
            k = k + 1;
        }
        if same {
            proof {
                assert(hay@.subrange(i as int, i + needle@.len()) =~= needle@);
            }
            return true;
        }
        proof {
            let m = choose|m: int| 0 <= m < needle@.len() && hay@[i + m] != needle@[m];
            assert(hay@.subrange(i as int, i + needle@.len())[m] != needle@[m]);
        }
        i = i + 1;
    }
    false
}

fn lowercase(s: &[char]) -> (r: Vec<char>)
    ensures
        r@ == lower_seq(s@),
{
    let mut out: Vec<char> = Vec::new();
    let mut i: usize = 0;
    while i < s.len()
        invariant
            0 <= i <= s@.len(),
            out@ == lower_seq(s@.take(i as int)),
        decreases s.len() - i,
    {
        out.push(to_ascii_lower(s[i]));
        i = i + 1;
        proof {
            assert(out@ =~= lower_seq(s@.take(i as int)));
        }
    }
    proof {
        assert(s@.take(s@.len() as int) =~= s@);
    }
    out
}

/// A date as the table shows it, or nothing.
pub open spec fn display_date_text(value: Option<CalendarDate>, format: ReportDateFormat) -> Seq<char> {
    match value {
        Some(d) => formatted_date(format, d@),
        None => seq![],
    }
}

pub fn format_display_date(value: Option<CalendarDate>, format: ReportDateFormat) -> (r: String)
    ensures
        r@ == display_date_text(value, format),
{
    match value {
        Some(d) => format.format(&d),
        None => String::new(),
    }
}

/// A date as the editor shows it (`YYYY-MM-DD`), or nothing.
pub open spec fn editor_date_text(value: Option<CalendarDate>) -> Seq<char> {
    match value {
        Some(d) => iso_text(d@),
        None => seq![],
    }
}

pub fn format_date(value: Option<CalendarDate>) -> (r: String)
    ensures
        r@ == editor_date_text(value),
{
    match value {
        Some(d) => iso_string(&d),
        None => String::new(),
    }
}

/// A time as `HH:MM:SS`, or nothing.
pub open spec fn time_text(value: Option<(int, int, int)>) -> Seq<char> {
    match value {
        Some((h, m, s)) => decimal2(h as nat) + seq![':'] + decimal2(m as nat) + seq![':'] + decimal2(s as nat),
        None => seq![],
    }
}

pub fn format_time(value: Option<ClockTime>) -> (r: String)
    ensures
        r@ == time_text(time_view_opt(value)),
{
    match value {
        Some(t) => {
            let mut out = String::new();
            push_decimal2(&mut out, t.hour() as u64);
            push_char(&mut out, ':');
            push_decimal2(&mut out, t.minute() as u64);
            push_char(&mut out, ':');
            push_decimal2(&mut out, t.second() as u64);
            proof {
                assert(out@ =~= time_text(time_view_opt(value)));
            }
            out
        },
        None => String::new(),
    }
}

/// Reading a date typed in the editor: blank means no date, otherwise it must
/// be a valid `YYYY-MM-DD` date.
pub open spec fn editor_date(value: Seq<char>) -> Result<Option<(int, int, int)>, Seq<char>> {
    if trim(value).len() == 0 {
        Ok(None)
    } else {
        match iso_parsed(trim(value)) {
            Some(d) => Ok(Some(d)),
            None => Err("Use a valid date in YYYY-MM-DD format"@),
        }
    }
}

pub fn parse_date(value: &str) -> (r: Result<Option<CalendarDate>, String>)
    ensures
        match r {
            Ok(Some(d)) => editor_date(value@) == Ok::<Option<(int, int, int)>, Seq<char>>(Some(d@)),
            Ok(None) => editor_date(value@) == Ok::<Option<(int, int, int)>, Seq<char>>(None),
            Err(e) => editor_date(value@) == Err::<Option<(int, int, int)>, Seq<char>>(e@),
        },
{
    let cs = chars_of(value);
    let t = trim_chars(cs.as_slice());
    if t.len() == 0 {
        return Ok(None);
    }
    let text = string_of(t);
    match parse_iso_date(text.as_str()) {
        Some(d) => Ok(Some(d)),
        None => {
            proof {
                reveal_strlit("Use a valid date in YYYY-MM-DD format");
            }
            Err("Use a valid date in YYYY-MM-DD format".to_owned())
        },
    }
}

/// Whether the lower-case needle occurs in a shown field of the appliance,
/// ignoring ASCII case: identifier, description, location, outcome, or a date.
pub open spec fn appliance_matches(a: Appliance, needle: Seq<char>, format: ReportDateFormat) -> bool {
    ||| contains_text(lower_seq(a.appliance_id@), needle)
    ||| contains_text(lower_seq(a.description@), needle)
    ||| contains_text(lower_seq(a.location@), needle)
    ||| contains_text(lower_seq(outcome_label(a.status)), needle)
    ||| contains_text(lower_seq(display_date_text(a.test_date, format)), needle)
    ||| contains_text(lower_seq(display_date_text(a.retest_date, format)), needle)
}

fn field_contains(value: &str, needle: &[char]) -> (r: bool)
    ensures
        r == contains_text(lower_seq(value@), needle@),
{
    let cs = chars_of(value);
    let lower = lowercase(cs.as_slice());
    text_contains(lower.as_slice(), needle)
}

pub fn matches_filter(appliance: &Appliance, needle: &[char], format: ReportDateFormat) -> (r: bool)
    ensures
        r == appliance_matches(*appliance, needle@, format),
{
    if field_contains(appliance.appliance_id.as_str(), needle) || field_contains(appliance.description.as_str(), needle)
        || field_contains(appliance.location.as_str(), needle) || field_contains(status_text(appliance.status), needle) {
        return true;
    }
    let tested = format_display_date(appliance.test_date, format);
    if field_contains(tested.as_str(), needle) {
        return true;
    }
    let retest = format_display_date(appliance.retest_date, format);
    field_contains(retest.as_str(), needle)
}

/// Whether the table shows the appliance: it is on the chosen side (removed or
/// not) and matches the filter, if there is one.
pub open spec fn is_shown(a: Appliance, needle: Seq<char>, show_removed: bool, format: ReportDateFormat) -> bool {
    a.removed == show_removed && (needle.len() == 0 || appliance_matches(a, needle, format))
}

/// The indices below `n` of the appliances the table shows, in index order.
pub open spec fn shown_indices(apps: Seq<Appliance>, needle: Seq<char>, show_removed: bool, format: ReportDateFormat, n: int) -> Seq<usize>
    decreases n,
{
    if n <= 0 {
        seq![]
    } else {
        let rest = shown_indices(apps, needle, show_removed, format, n - 1);
        if is_shown(apps[n - 1], needle, show_removed, format) {
            rest.push((n - 1) as usize)
        } else {
            rest
        }
    }
}

pub proof fn lemma_shown_indices(apps: Seq<Appliance>, needle: Seq<char>, show_removed: bool, format: ReportDateFormat, n: int)
    requires
        0 <= n <= apps.len(),
        n <= usize::MAX,
    ensures
        strictly_increasing(shown_indices(apps, needle, show_removed, format, n)),
        forall|k: int| 0 <= k < shown_indices(apps, needle, show_removed, format, n).len() ==> #[trigger] shown_indices(apps, needle, show_removed, format, n)[k] < n,
    decreases n,
{
    if n > 0 {
        lemma_shown_indices(apps, needle, show_removed, format, n - 1);
    }
}

proof fn lemma_shown_stays(apps: Seq<Appliance>, needle: Seq<char>, show_removed: bool, format: ReportDateFormat, i: int, n: int)
    requires
        0 <= i < n <= apps.len(),
        n <= usize::MAX,
        is_shown(apps[i], needle, show_removed, format),
    ensures
        shown_indices(apps, needle, show_removed, format, n).contains(i as usize),
    decreases n,
{
    let s = shown_indices(apps, needle, show_removed, format, n);
    if n == i + 1 {
        assert(s.last() == i as usize);
    } else {
        lemma_shown_stays(apps, needle, show_removed, format, i, n - 1);
        let rest = shown_indices(apps, needle, show_removed, format, n - 1);
        let k = choose|k: int| 0 <= k < rest.len() && rest[k] == i as usize;
        if is_shown(apps[n - 1], needle, show_removed, format) {
            assert(s[k] == rest[k]);
        }
    }
}

/// The filter finds an appliance by any field the table shows: when the
/// filter text occurs in its identifier, description, location, outcome, or
/// displayed test or retest date, and it is on the side shown (removed or
/// not), it is among the appliances shown, and so among those listed.
pub proof fn lemma_filter_finds_shown_fields(
    apps: Seq<Appliance>,
    needle: Seq<char>,
    show_removed: bool,
    format: ReportDateFormat,
    i: int,
)
    requires
        0 <= i < apps.len() <= usize::MAX,
        apps[i].removed == show_removed,
        ({
            let a = apps[i];
            ||| contains_text(lower_seq(a.appliance_id@), needle)
            ||| contains_text(lower_seq(a.description@), needle)
            ||| contains_text(lower_seq(a.location@), needle)
            ||| contains_text(lower_seq(outcome_label(a.status)), needle)
            ||| contains_text(lower_seq(display_date_text(a.test_date, format)), needle)
            ||| contains_text(lower_seq(display_date_text(a.retest_date, format)), needle)
        }),
    ensures
        shown_indices(apps, needle, show_removed, format, apps.len() as int).contains(i as usize),
{
    lemma_shown_stays(apps, needle, show_removed, format, i, apps.len() as int);
}

/// The indices of the appliances the table shows, ordered by the chosen
/// column and direction; equal appliances stay in index order.
pub fn visible_indices(job: &Job, filter: &str, show_removed: bool, sort: SortColumn, ascending: bool) -> (r: Vec<usize>)
    ensures
        ({
            let shown = shown_indices(
                job.appliances@,
                lower_seq(trim(filter@)),
                show_removed,
                job.metadata.report_date_format,
                job.appliances@.len() as int,
            );
            &&& r@.len() == shown.len()
            &&& r@.to_set() == shown.to_set()
            &&& r@.no_duplicates()
            &&& in_key_order(job.appliances@, r@, SortKey::Column(sort, ascending))
        }),
{
    let apps = &job.appliances;
    let format = job.metadata.report_date_format;
    let fc = chars_of(filter);
    let needle = lowercase(trim_chars(fc.as_slice()));
    let ghost nv = needle@;
    let mut indices: Vec<usize> = Vec::new();
    let mut i: usize = 0;
    while i < apps.len()
        invariant
            nv == needle@,
            0 <= i <= apps@.len(),
            indices@ == shown_indices(apps@, nv, show_removed, format, i as int),
        decreases apps.len() - i,
    {
        let a = &apps[i];
        if a.removed == show_removed && (needle.len() == 0 || matches_filter(a, needle.as_slice(), format)) {
            indices.push(i);
        }
        i = i + 1;
    }
    proof {
        lemma_shown_indices(apps@, nv, show_removed, format, apps@.len() as int);
    }
    sort_indices(apps, &indices, SortKey::Column(sort, ascending))
}

/// Whether one of the first `n` entries of `selection` is `i`.
pub open spec fn selects(selection: Seq<usize>, n: int, i: int) -> bool {
    exists|j: int| 0 <= j < n && #[trigger] selection[j] as int == i
}

proof fn lemma_selects_step(selection: Seq<usize>, k: int, i: int)
    requires
        0 <= k < selection.len(),
    ensures
        selects(selection, k + 1, i) == (selects(selection, k, i) || selection[k] as int == i),
{
    if selects(selection, k + 1, i) {
        let j = choose|j: int| 0 <= j < k + 1 && #[trigger] selection[j] as int == i;
        if j < k {
            assert(selects(selection, k, i));
        }
    }
    if selects(selection, k, i) {
        let j = choose|j: int| 0 <= j < k && #[trigger] selection[j] as int == i;
        assert(selects(selection, k + 1, i));
    }
    if selection[k] as int == i {
        assert(selects(selection, k + 1, i));
    }
}

/// The first position in `selection` that holds no appliance, if any.
pub open spec fn first_invalid(selection: Seq<usize>, count: int) -> Option<int>
    decreases selection.len(),
{
    if selection.len() == 0 {
        None
    } else {
        match first_invalid(selection.drop_last(), count) {
            Some(k) => Some(k),
            None => if selection.last() >= count {
                Some(selection.len() - 1)
            } else {
                None
            },
        }
    }
}

proof fn lemma_first_invalid(selection: Seq<usize>, count: int)
    ensures
        first_invalid(selection, count) matches Some(k) ==> 0 <= k < selection.len() && selection[k] >= count
            && forall|j: int| 0 <= j < k ==> selection[j] < count,
        first_invalid(selection, count) is None ==> forall|j: int| 0 <= j < selection.len() ==> selection[j] < count,
    decreases selection.len(),
{
    if selection.len() > 0 {
        lemma_first_invalid(selection.drop_last(), count);
        assert forall|j: int| 0 <= j < selection.len() - 1 implies #[trigger] selection[j] == selection.drop_last()[j] by {}
    }
}

/// Marks the selected appliances as removed (or restores them). A selection
/// that names a missing appliance changes nothing and is reported.
pub fn set_removed(appliances: &mut Vec<Appliance>, selection: &[usize], removed: bool) -> (r: Result<(), String>)
    ensures
        match first_invalid(selection@, old(appliances)@.len() as int) {
            Some(k) => {
                &&& final(appliances)@ == old(appliances)@
                &&& r matches Err(e) && e@ == "Appliance selection contains invalid index "@ + decimal(selection@[k] as nat)
            },
            None => {
                &&& r is Ok
                &&& final(appliances)@.len() == old(appliances)@.len()
                &&& forall|i: int|
                    0 <= i < old(appliances)@.len() ==> #[trigger] final(appliances)@[i] == if selects(selection@, selection@.len() as int, i) {
                        Appliance { removed, ..old(appliances)@[i] }
                    } else {
                        old(appliances)@[i]
                    }
            },
        },
{
    proof {
        lemma_first_invalid(selection@, appliances@.len() as int);
    }
    let mut k: usize = 0;
    while k < selection.len()
        invariant
            0 <= k <= selection@.len(),
            forall|j: int| 0 <= j < k ==> selection@[j] < appliances@.len(),
        decreases selection.len() - k,
    {
        if selection[k] >= appliances.len() {
            proof {
                lemma_first_invalid(selection@, appliances@.len() as int);
                reveal_strlit("Appliance selection contains invalid index ");
            }
            let mut message = String::new();
            append_str(&mut message, "Appliance selection contains invalid index ");
            push_decimal(&mut message, selection[k] as u64);
            return Err(message);
        }
        k = k + 1;
    }
    let ghost start = appliances@;
    let mut k: usize = 0;
    while k < selection.len()
        invariant
            0 <= k <= selection@.len(),
            forall|j: int| 0 <= j < selection@.len() ==> selection@[j] < start.len(),
            appliances@.len() == start.len(),
            forall|i: int|
                0 <= i < start.len() ==> #[trigger] appliances@[i] == if selects(selection@, k as int, i) {
                    Appliance { removed, ..start[i] }
                } else {
                    start[i]
                },
        decreases selection.len() - k,
    {
        let index = selection[k];
        let ghost prev = appliances@;
        set_removed_flag(&mut appliances[index], removed);
        proof {
            assert(appliances@ == prev.update(index as int, Appliance { removed, ..prev[index as int] }));
            assert(selection@.take(k + 1)[k as int] == index);
            assert forall|i: int| 0 <= i < start.len() implies #[trigger] appliances@[i] == if selects(selection@, k + 1, i) {
                Appliance { removed, ..start[i] }
            } else {
                start[i]
            } by {
                lemma_selects_step(selection@, k as int, i);
            }
        }
        k = k + 1;
    }
    Ok(())
}

fn set_removed_flag(appliance: &mut Appliance, removed: bool)
    ensures
        *final(appliance) == (Appliance { removed, ..*old(appliance) }),
{
    appliance.removed = removed;
}

/// The count line above the table: removed appliances when those are shown,
/// otherwise the total with its passes and failures.
pub open spec fn summary_line(apps: Seq<Appliance>, show_removed: bool) -> Seq<char> {
    let total = active_count(apps);
    let pass = outcome_count(apps, ApplianceStatus::Pass);
    if show_removed {
        decimal((apps.len() - total) as nat) + " removed appliances"@
    } else {
        decimal(total) + " appliances · "@ + decimal(pass) + " pass · "@ + decimal((total - pass) as nat) + " fail"@
    }
}

pub fn appliance_summary(job: &Job, show_removed: bool) -> (r: String)
    ensures
        r@ == summary_line(job.appliances@, show_removed),
{
    let apps = &job.appliances;
    let mut total: usize = 0;
    let mut pass: usize = 0;
    let mut i: usize = 0;
    proof {
        assert(apps@.take(0) =~= seq![]);
    }
    while i < apps.len()
        invariant
            0 <= i <= apps@.len(),
            total == active_count(apps@.take(i as int)),
            pass == outcome_count(apps@.take(i as int), ApplianceStatus::Pass),
            total <= i,
            pass <= total,
        decreases apps.len() - i,
    {
        proof {
            assert(apps@.take(i + 1).drop_last() =~= apps@.take(i as int));
            assert(apps@.take(i + 1).last() == apps@[i as int]);
            lemma_summary_totals(apps@.take(i as int));
        }
        if !apps[i].removed {
            total = total + 1;
            if let ApplianceStatus::Pass = apps[i].status {
                pass = pass + 1;
            }
        }
        i = i + 1;
    }
    proof {
        assert(apps@.take(apps@.len() as int) =~= apps@);
    }
    let mut out = String::new();
    if show_removed {
        push_decimal(&mut out, (apps.len() - total) as u64);
        append_str(&mut out, " removed appliances");
    } else {
        push_decimal(&mut out, total as u64);
        append_str(&mut out, " appliances · ");
        push_decimal(&mut out, pass as u64);
        append_str(&mut out, " pass · ");
        push_decimal(&mut out, (total - pass) as u64);
        append_str(&mut out, " fail");
    }
    out
}

/// The message for a shift that is not a whole number of days.
pub open spec fn shift_days_error() -> Seq<char> {
    "Enter a signed whole number of days"@
}

/// Reads the number of days that a bulk shift moves dates by: a signed whole
/// number, surrounding whitespace ignored.
pub fn parse_shift_days(input: &str) -> (r: Result<i64, String>)
    ensures
        match parse_signed(trim(input@), i64::MIN as int, i64::MAX as int) {
            Some(v) => r == Ok::<i64, String>(v as i64),
            None => r matches Err(e) && e@ == shift_days_error(),
        },
{
    let cs = chars_of(input);
    let t = trim_chars(cs.as_slice());
    match parse_i64(t) {
        Some(v) => Ok(v),
        None => {
            let mut message = String::new();
            append_str(&mut message, "Enter a signed whole number of days");
            Err(message)
        },
    }
}

/// Whether `i` is an index that a bulk edit can apply to.
pub open spec fn bulk_entry_ok(apps: Seq<Appliance>, i: int, edit: BulkDateEdit) -> bool {
    i < apps.len() && edited_date(apps[i], edit) is Some
}

/// The error for an index that a bulk edit cannot apply to.
pub open spec fn bulk_entry_error(apps: Seq<Appliance>, i: usize) -> BulkEditError {
    if i >= apps.len() {
        BulkEditError::InvalidSelection(i)
    } else {
        BulkEditError::DateOverflow(i)
    }
}

/// `order` lists the members of `s` in increasing order.
pub open spec fn ascending_members(s: Set<usize>, order: Seq<usize>) -> bool {
    &&& order.to_set() == s
    &&& forall|a: int, b: int| 0 <= a < b < order.len() ==> order[a] < order[b]
}

proof fn lemma_ascending_position(s: Set<usize>, order: Seq<usize>, x: usize) -> (k: int)
    requires
        ascending_members(s, order),
        s.contains(x),
    ensures
        0 <= k < order.len(),
        order[k] == x,
{
    assert(order.to_set().contains(x));
    choose|k: int| 0 <= k < order.len() && order[k] == x
}

/// An open job being edited: the job and whether it has edits not yet saved.
pub struct JobSession {
    pub job: Job,
    pub dirty: bool,
}

impl JobSession {
    /// A session on a job as it was loaded: nothing is unsaved yet.
    pub fn new(job: Job) -> (r: Self)
        ensures
            r.job == job,
            !r.dirty,
    {
        JobSession { job, dirty: false }
    }

    /// Applies a bulk date edit to the selected appliances. It succeeds when
    /// every selected index names an appliance whose edited date is in range,
    /// and then the session has unsaved edits; otherwise nothing changes and
    /// the error names the smallest selected index that cannot be edited.
    pub fn apply_bulk(&mut self, selection: &BTreeSet<usize>, edit: BulkDateEdit) -> (r: Result<(), BulkEditError>)
        ensures
            ({
                let apps = old(self).job.appliances@;
                &&& r is Ok == (forall|i: usize| selection@.contains(i) ==> bulk_entry_ok(apps, i as int, edit))
                &&& r matches Err(e) ==> {
                    &&& final(self).dirty == old(self).dirty
                    &&& final(self).job == Job { appliances: final(self).job.appliances, ..old(self).job }
                    &&& final(self).job.appliances@ == apps
                    &&& exists|i: usize|
                        #![trigger selection@.contains(i)]
                        selection@.contains(i) && !bulk_entry_ok(apps, i as int, edit) && (forall|j: usize|
                            selection@.contains(j) && j < i ==> bulk_entry_ok(apps, j as int, edit))
                            && e == bulk_entry_error(apps, i)
                }
                &&& r is Ok ==> {
                    &&& final(self).dirty
                    &&& final(self).job == Job { appliances: final(self).job.appliances, ..old(self).job }
                    &&& final(self).job.appliances@.len() == apps.len()
                    &&& forall|i: int|
                        0 <= i < apps.len() ==> (selection@.contains(i as usize) ==> edited_at(
                            apps,
                            final(self).job.appliances@,
                            i,
                            edit,
                        )) && (!selection@.contains(i as usize) ==> final(self).job.appliances@[i] == apps[i])
                    &&& forall|i: int|
                        0 <= i < apps.len() && selection@.contains(i as usize) ==> edit_applied(
                            apps[i],
                            #[trigger] final(self).job.appliances@[i],
                            edit,
                        )
                }
            }),
    {
        let order = selected_indices(selection);
        let count = self.job.appliances.len();
        let ghost apps = self.job.appliances@;
        let result = apply_bulk_date_edit(&mut self.job.appliances, order.as_slice(), edit);
        proof {
            assert(ascending_members(selection@, order@));
            assert forall|k: int| 0 <= k < order@.len() implies #[trigger] entry_ok(apps, order@, edit, k)
                == bulk_entry_ok(apps, order@[k] as int, edit) by {}
            if result is Ok {
                assert forall|i: usize| selection@.contains(i) implies bulk_entry_ok(apps, i as int, edit) by {
                    let k = lemma_ascending_position(selection@, order@, i);
                    assert(entry_ok(apps, order@, edit, k));
                }
            } else {
                let e = result->Err_0;
                let k = choose|k: int|
                    0 <= k < order@.len() && (forall|j: int|
                        0 <= j < k ==> entry_ok(apps, order@, edit, j)) && !entry_ok(apps, order@, edit, k)
                        && e == entry_error(apps, order@, k);
                let i = order@[k];
                assert(order@.to_set().contains(i));
                assert forall|j: usize| selection@.contains(j) && j < i implies bulk_entry_ok(apps, j as int, edit) by {
                    let m = lemma_ascending_position(selection@, order@, j);
                    assert(m < k);
                    assert(entry_ok(apps, order@, edit, m));
                }
                assert(self.job.appliances@ == apps);
            }
        }
        match result {
            Ok(()) => {
                self.dirty = true;
                assert forall|i: int| 0 <= i < apps.len() implies (selection@.contains(i as usize) ==> edited_at(
                    apps,
                    self.job.appliances@,
                    i,
                    edit,
                )) && (!selection@.contains(i as usize) ==> self.job.appliances@[i] == apps[i]) by {
                    if selection@.contains(i as usize) {
                        let k = lemma_ascending_position(selection@, order@, i as usize);
                        assert(selected(order@, i));
                    } else if selected(order@, i) {
                        let k = choose|k: int| 0 <= k < order@.len() && order@[k] == i;
                        assert(order@.to_set().contains(order@[k]));
                    }
                }
                assert forall|i: int|
                    0 <= i < apps.len() && selection@.contains(i as usize) implies edit_applied(
                        apps[i],
                        #[trigger] self.job.appliances@[i],
                        edit,
                    ) by {
                    let k = lemma_ascending_position(selection@, order@, i as usize);
                    assert(selected(order@, i));
                }
                Ok(())
            },
            Err(e) => Err(e),
        }
    }

    /// Marks the selected appliances as removed (or restores them). When a
    /// selected index names no appliance nothing changes, and the message
    /// names the smallest such index; otherwise the session has unsaved edits.
    pub fn set_removed(&mut self, selection: &BTreeSet<usize>, removed: bool) -> (r: Result<(), String>)
        ensures
            ({
                let apps = old(self).job.appliances@;
                &&& r is Ok == (forall|i: usize| selection@.contains(i) ==> i < apps.len())
                &&& r matches Err(e) ==> {
                    &&& final(self).dirty == old(self).dirty
                    &&& final(self).job == Job { appliances: final(self).job.appliances, ..old(self).job }
                    &&& final(self).job.appliances@ == apps
                    &&& exists|i: usize|
                        #![trigger selection@.contains(i)]
                        selection@.contains(i) && i >= apps.len() && (forall|j: usize|
                            selection@.contains(j) && j < i ==> j < apps.len())
                            && e@ == "Appliance selection contains invalid index "@ + decimal(i as nat)
                }
                &&& r is Ok ==> {
                    &&& final(self).dirty
                    &&& final(self).job == Job { appliances: final(self).job.appliances, ..old(self).job }
                    &&& final(self).job.appliances@.len() == apps.len()
                    &&& forall|i: int|
                        0 <= i < apps.len() ==> #[trigger] final(self).job.appliances@[i] == if selection@.contains(i as usize) {
                            Appliance { removed, ..apps[i] }
                        } else {
                            apps[i]
                        }
                }
            }),
    {
        let order = selected_indices(selection);
        let count = self.job.appliances.len();
        let ghost apps = self.job.appliances@;
        proof {
            lemma_first_invalid(order@, count as int);
        }
        let result = set_removed(&mut self.job.appliances, order.as_slice(), removed);
        match result {
            Ok(()) => {
                self.dirty = true;
                proof {
                    assert forall|i: usize| selection@.contains(i) implies i < apps.len() by {
                        let k = lemma_ascending_position(selection@, order@, i);
                    }
                    assert forall|i: int| 0 <= i < apps.len() implies #[trigger] self.job.appliances@[i]
                        == if selection@.contains(i as usize) {
                        Appliance { removed, ..apps[i] }
                    } else {
                        apps[i]
                    } by {
                        if selection@.contains(i as usize) {
                            let k = lemma_ascending_position(selection@, order@, i as usize);
                            assert(selects(order@, order@.len() as int, i));
                        } else if selects(order@, order@.len() as int, i) {
                            let k = choose|k: int| 0 <= k < order@.len() && order@[k] as int == i;
                            assert(order@.to_set().contains(order@[k]));
                        }
                    }
                }
                Ok(())
            },
            Err(e) => {
                proof {
                    let k = first_invalid(order@, count as int)->Some_0;
                    let i = order@[k];
                    assert(order@.to_set().contains(i));
                    assert forall|j: usize| selection@.contains(j) && j < i implies j < apps.len() by {
                        let m = lemma_ascending_position(selection@, order@, j);
                        assert(m < k);
                    }
                }
                Err(e)
            },
        }
    }
}

} // verus!
