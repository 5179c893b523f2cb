//! Atomic date edits applied to a selection of appliances.
use crate::date::{
    date_view_opt, day_number, is_shifted, lemma_date_view_injective, shift_date, shiftable_days,
    shifted_date, valid_date, CalendarDate,
};
use crate::model::Appliance;
use crate::text::append_str;
use crate::tokens::push_decimal;
use vstd::prelude::*;

verus! {

/// Editable appliance date column.
#[derive(Clone, Copy, Debug, PartialEq, Eq, Structural)]
pub enum DateField {
    Test,
    Retest,
}

/// Atomic date operation applied to selected appliances.
#[derive(Clone, Copy, Debug, PartialEq, Eq)]
pub enum BulkDateEdit {
    Replace { field: DateField, value: Option<CalendarDate> },
    Shift { field: DateField, days: i64 },
}

/// Bulk edit validation failure. No appliance is changed on error.
#[derive(Clone, Copy, Debug, PartialEq, Eq, Structural)]
pub enum BulkEditError {
    InvalidSelection(usize),
    DateOverflow(usize),
}

impl BulkEditError {
    /// The human-readable description of the error.
    pub fn message(&self) -> (r: String)
        ensures
            r@ == match *self {
                BulkEditError::InvalidSelection(i) => "selection contains appliance index "@
                    + crate::tokens::decimal(i as nat) + ", which does not exist"@,
                BulkEditError::DateOverflow(i) => "shifting the date for appliance "@
                    + crate::tokens::decimal(i as nat) + " would exceed the supported range"@,
            },
    {
        let mut out = String::new();
        match self {
            BulkEditError::InvalidSelection(i) => {
                append_str(&mut out, "selection contains appliance index ");
                push_decimal(&mut out, *i as u64);
                append_str(&mut out, ", which does not exist");
            },
            BulkEditError::DateOverflow(i) => {
                append_str(&mut out, "shifting the date for appliance ");
                push_decimal(&mut out, *i as u64);
                append_str(&mut out, " would exceed the supported range");
            },
        }
        out
    }
}

pub open spec fn edit_field(edit: BulkDateEdit) -> DateField {
    match edit {
        BulkDateEdit::Replace { field, .. } => field,
        BulkDateEdit::Shift { field, .. } => field,
    }
}

pub open spec fn date_field(a: Appliance, field: DateField) -> Option<CalendarDate> {
    match field {
        DateField::Test => a.test_date,
        DateField::Retest => a.retest_date,
    }
}

/// The appliance with one date column replaced.
pub open spec fn with_date(a: Appliance, field: DateField, value: Option<CalendarDate>) -> Appliance {
    match field {
        DateField::Test => Appliance { test_date: value, ..a },
        DateField::Retest => Appliance { retest_date: value, ..a },
    }
}

/// The new date of an appliance under the edit, by year, month and day;
/// `None` when shifting would leave the supported range (as any shift by
/// more days than a duration can count does). A blank date stays blank.
pub open spec fn edited_date(a: Appliance, edit: BulkDateEdit) -> Option<Option<(int, int, int)>> {
    match edit {
        BulkDateEdit::Replace { value, .. } => Some(date_view_opt(value)),
        BulkDateEdit::Shift { field, days } => match date_field(a, field) {
            None => Some(None),
            Some(d) => if !shiftable_days(days as int) {
                None
            } else {
                match shifted_date(d@, days as int) {
                    Some(n) => Some(Some(n)),
                    None => None,
                }
            },
        },
    }
}

/// The selection entry at position `k` can be applied.
pub open spec fn entry_ok(apps: Seq<Appliance>, sel: Seq<usize>, edit: BulkDateEdit, k: int) -> bool {
    sel[k] < apps.len() && edited_date(apps[sel[k] as int], edit) is Some
}

/// The error for the entry at position `k`, when it cannot be applied.
pub open spec fn entry_error(apps: Seq<Appliance>, sel: Seq<usize>, k: int) -> BulkEditError {
    if sel[k] >= apps.len() {
        BulkEditError::InvalidSelection(sel[k])
    } else {
        BulkEditError::DateOverflow(sel[k])
    }
}

pub open spec fn selected(sel: Seq<usize>, i: int) -> bool {
    exists|k: int| 0 <= k < sel.len() && sel[k] == i
}

fn field_value(appliance: &Appliance, field: DateField) -> (r: Option<CalendarDate>)
    ensures
        r == date_field(*appliance, field),
{
    match field {
        DateField::Test => appliance.test_date,
        DateField::Retest => appliance.retest_date,
    }
}

fn set_field(appliance: &mut Appliance, field: DateField, value: Option<CalendarDate>)
    ensures
        *final(appliance) == with_date(*old(appliance), field, value),
{
    match field {
        DateField::Test => appliance.test_date = value,
        DateField::Retest => appliance.retest_date = value,
    }
}

/// The appliance at `i` in `now` is the one in `apps` with the edited date.
pub open spec fn edited_at(
    apps: Seq<Appliance>,
    now: Seq<Appliance>,
    i: int,
    edit: BulkDateEdit,
) -> bool {
    exists|v: Option<CalendarDate>|
        now[i] == with_date(apps[i], edit_field(edit), v) && Some(date_view_opt(v)) == edited_date(
            apps[i],
            edit,
        )
}

/// `new` is the date `old` moved by `days` days; a blank date stays blank.
pub open spec fn moved_by(old: Option<CalendarDate>, new: Option<CalendarDate>, days: int) -> bool {
    match (old, new) {
        (None, None) => true,
        (Some(t), Some(u)) => valid_date(u@.0, u@.1, u@.2) && day_number(u@) == day_number(t@) + days,
        _ => false,
    }
}

/// What an edit does to one appliance, on its own date fields: a shift moves
/// the edited column's own date by the days given, a replacement sets it, and
/// everything else stays as it was.
pub open spec fn edit_applied(old: Appliance, new: Appliance, edit: BulkDateEdit) -> bool {
    match edit {
        BulkDateEdit::Shift { field: DateField::Test, days } => moved_by(old.test_date, new.test_date, days as int)
            && new == (Appliance { test_date: new.test_date, ..old }),
        BulkDateEdit::Shift { field: DateField::Retest, days } => moved_by(
            old.retest_date,
            new.retest_date,
            days as int,
        ) && new == (Appliance { retest_date: new.retest_date, ..old }),
        BulkDateEdit::Replace { field: DateField::Test, value } => date_view_opt(new.test_date)
            == date_view_opt(value) && new == (Appliance { test_date: new.test_date, ..old }),
        BulkDateEdit::Replace { field: DateField::Retest, value } => date_view_opt(new.retest_date)
            == date_view_opt(value) && new == (Appliance { retest_date: new.retest_date, ..old }),
    }
}

/// An appliance edited by a bulk edit has its own date in the edited column
/// shifted by the days given (a blank date staying blank) or replaced, and
/// keeps every other field, the other date included.
pub proof fn lemma_edit_on_own_fields(apps: Seq<Appliance>, now: Seq<Appliance>, i: int, edit: BulkDateEdit)
    requires
        0 <= i < apps.len(),
        edited_at(apps, now, i, edit),
    ensures
        edit_applied(apps[i], now[i], edit),
{
    let v = choose|v: Option<CalendarDate>|
        now[i] == with_date(apps[i], edit_field(edit), v) && Some(date_view_opt(v)) == edited_date(
            apps[i],
            edit,
        );
    match edit {
        BulkDateEdit::Shift { field, days } => {
            match date_field(apps[i], field) {
                Some(d) => {
                    let n = shifted_date(d@, days as int)->Some_0;
                    assert(is_shifted(d@, days as int, n));
                },
                None => {},
            }
        },
        BulkDateEdit::Replace { .. } => {},
    }
}

pub open spec fn selected_before(sel: Seq<usize>, m: int, i: int) -> bool {
    exists|j: int| 0 <= j < m && sel[j] == i
}

/// Validates the complete operation before mutating any appliance.
///
/// Blank dates remain blank when shifted. On error no appliance changes, and
/// the error names the first selection entry that cannot be applied.
pub fn apply_bulk_date_edit(
    appliances: &mut Vec<Appliance>,
    selection: &[usize],
    edit: BulkDateEdit,
) -> (r: Result<(), BulkEditError>)
    ensures
        r is Ok == (forall|k: int|
            0 <= k < selection@.len() ==> entry_ok(old(appliances)@, selection@, edit, k)),
        r matches Err(e) ==> {
            &&& final(appliances)@ == old(appliances)@
            &&& exists|k: int|
                0 <= k < selection@.len() && (forall|j: int|
                    0 <= j < k ==> entry_ok(old(appliances)@, selection@, edit, j)) && !entry_ok(
                    old(appliances)@,
                    selection@,
                    edit,
                    k,
                ) && e == entry_error(old(appliances)@, selection@, k)
        },
        r is Ok ==> {
            &&& final(appliances)@.len() == old(appliances)@.len()
            &&& forall|i: int|
                0 <= i < old(appliances)@.len() ==> (selected(selection@, i) ==> edited_at(
                    old(appliances)@,
                    final(appliances)@,
                    i,
                    edit,
                )) && (!selected(selection@, i) ==> final(appliances)@[i] == old(appliances)@[i])
            &&& forall|i: int|
                0 <= i < old(appliances)@.len() && selected(selection@, i) ==> edit_applied(
                    old(appliances)@[i],
                    #[trigger] final(appliances)@[i],
                    edit,
                )
        },
{
    let ghost apps = appliances@;
    let field = match edit {
        BulkDateEdit::Replace { field, .. } => field,
        BulkDateEdit::Shift { field, .. } => field,
    };
    let mut replacements: Vec<(usize, Option<CalendarDate>)> = Vec::new();
    let mut k: usize = 0;
    while k < selection.len()
        invariant
            apps == appliances@,
            0 <= k <= selection@.len(),
            replacements@.len() == k,
            forall|j: int| 0 <= j < k ==> entry_ok(apps, selection@, edit, j),
            forall|j: int|
                0 <= j < k ==> (#[trigger] replacements@[j]).0 == selection@[j] && selection@[j]
                    < apps.len() && Some(date_view_opt(replacements@[j].1)) == edited_date(
                    apps[selection@[j] as int],
                    edit,
                ),
        decreases selection.len() - k,
    {
        let index = selection[k];
        if index >= appliances.len() {
            proof {
                assert(!entry_ok(apps, selection@, edit, k as int));
                assert(0 <= k < selection@.len() && (forall|j: int|
                    0 <= j < k ==> entry_ok(apps, selection@, edit, j)) && !entry_ok(
                    apps,
                    selection@,
                    edit,
                    k as int,
                ) && BulkEditError::InvalidSelection(index) == entry_error(apps, selection@, k as int));
            }
            return Err(BulkEditError::InvalidSelection(index));
        }
        let value = match edit {
            BulkDateEdit::Replace { value, .. } => value,
            BulkDateEdit::Shift { field, days } => {
                match field_value(&appliances[index], field) {
                    Some(date) => {
                        if days < -106751991167300 || days > 106751991167300 {
                            proof {
                                assert(!entry_ok(apps, selection@, edit, k as int));
                                assert(0 <= k < selection@.len() && (forall|j: int|
                                    0 <= j < k ==> entry_ok(apps, selection@, edit, j))
                                    && !entry_ok(apps, selection@, edit, k as int)
                                    && BulkEditError::DateOverflow(index) == entry_error(
                                    apps,
                                    selection@,
                                    k as int,
                                ));
                            }
                            return Err(BulkEditError::DateOverflow(index));
                        }
                        match shift_date(date, days) {
                            Some(shifted) => Some(shifted),
                            None => {
                                proof {
                                    assert(!entry_ok(apps, selection@, edit, k as int));
                                    assert(0 <= k < selection@.len() && (forall|j: int|
                                        0 <= j < k ==> entry_ok(apps, selection@, edit, j))
                                        && !entry_ok(apps, selection@, edit, k as int)
                                        && BulkEditError::DateOverflow(index) == entry_error(
                                        apps,
                                        selection@,
                                        k as int,
                                    ));
                                }
                                return Err(BulkEditError::DateOverflow(index));
                            },
                        }
                    },
                    None => None,
                }
            },
        };
        replacements.push((index, value));
        k = k + 1;
    }
    let mut m: usize = 0;
    while m < replacements.len()
        invariant
            replacements@.len() == selection@.len(),
            0 <= m <= replacements@.len(),
            appliances@.len() == apps.len(),
            field == edit_field(edit),
            forall|j: int|
                0 <= j < selection@.len() ==> (#[trigger] replacements@[j]).0 == selection@[j]
                    && selection@[j] < apps.len() && Some(date_view_opt(replacements@[j].1))
                    == edited_date(apps[selection@[j] as int], edit),
            forall|i: int|
                0 <= i < apps.len() ==> (selected_before(selection@, m as int, i) ==> edited_at(
                    apps,
                    appliances@,
                    i,
                    edit,
                )) && (!selected_before(selection@, m as int, i) ==> appliances@[i] == apps[i]),
        decreases replacements.len() - m,
    {
        let (index, value) = replacements[m];
        proof {
            assert(replacements@[m as int].0 == selection@[m as int]);
        }
        let ghost before = appliances@;
        set_field(&mut appliances[index], field, value);
        proof {
            assert(appliances@ == before.update(index as int, with_date(before[index as int], field, value)));
            assert forall|i: int| 0 <= i < apps.len() implies (selected_before(
                selection@,
                m + 1,
                i,
            ) ==> edited_at(apps, appliances@, i, edit)) && (!selected_before(
                selection@,
                m + 1,
                i,
            ) ==> appliances@[i] == apps[i]) by {
                assert(selection@[m as int] == index);
                if i == index {
                    assert(selected_before(selection@, m + 1, i));
                    if selected_before(selection@, m as int, i) {
                        let v = choose|v: Option<CalendarDate>|
                            before[i] == with_date(apps[i], edit_field(edit), v) && Some(
                                date_view_opt(v),
                            ) == edited_date(apps[i], edit);
                        assert(date_view_opt(v) == date_view_opt(value));
                        match (v, value) {
                            (Some(a), Some(b)) => {
                                lemma_date_view_injective(a, b);
                            },
                            _ => {},
                        }
                    }
                    assert(appliances@[i] == with_date(apps[i], field, value));
                    assert(edited_at(apps, appliances@, i, edit));
                } else {
                    assert(appliances@[i] == before[i]);
                    if selected_before(selection@, m + 1, i) {
                        let j = choose|j: int| 0 <= j < m + 1 && selection@[j] == i;
                        assert(j < m);
                        assert(selected_before(selection@, m as int, i));
                    }
                    if selected_before(selection@, m as int, i) {
                        let j = choose|j: int| 0 <= j < m && selection@[j] == i;
                        assert(selected_before(selection@, m + 1, i));
                    }
                }
            }
        }
        m = m + 1;
    }
    proof {
        assert forall|i: int| 0 <= i < apps.len() implies selected(selection@, i)
            == selected_before(selection@, m as int, i) by {
            if selected(selection@, i) {
                let j = choose|j: int| 0 <= j < selection@.len() && selection@[j] == i;
                assert(selected_before(selection@, m as int, i));
            }
            if selected_before(selection@, m as int, i) {
                let j = choose|j: int| 0 <= j < m && selection@[j] == i;
                assert(selected(selection@, i));
            }
        }
    }
    proof {
        assert forall|i: int|
            0 <= i < apps.len() && selected(selection@, i) implies edit_applied(
                apps[i],
                #[trigger] appliances@[i],
                edit,
            ) by {
            lemma_edit_on_own_fields(apps, appliances@, i, edit);
        }
    }
    Ok(())
}

} // verus!
