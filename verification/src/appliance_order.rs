//! The orders in which appliances are listed: by a chosen column in either
//! direction, and by identifier then source record for reports. Sorting is
//! stable: appliances that compare equal keep their order.
use crate::date::{date_before, date_is_before, CalendarDate};
use crate::identifier_order::{
    identifier_rank, identifier_rank_of, lemma_identifier_order_antisymmetric,
    lemma_lex_antisymmetric, lex_order, lex_order_chars, then_order,
};
use crate::model::{Appliance, ApplianceStatus};
use crate::text::chars_of;
use vstd::prelude::*;

verus! {

/// Column by which the appliance table is ordered.
#[derive(Clone, Copy, Debug, PartialEq, Eq, Structural)]
pub enum SortColumn {
    Id,
    Description,
    Location,
    TestDate,
    RetestDate,
    Status,
}

/// An order of appliances.
#[derive(Clone, Copy, Debug, PartialEq, Eq, Structural)]
pub enum SortKey {
    /// By a column, ascending when the flag is set.
    Column(SortColumn, bool),
    /// By identifier, then by source record number.
    Report,
}

/// Table text for an appliance outcome.
pub open spec fn outcome_label(status: ApplianceStatus) -> Seq<char> {
    match status {
        ApplianceStatus::Pass => "Pass"@,
        ApplianceStatus::Fail => "Fail"@,
    }
}

pub fn status_text(status: ApplianceStatus) -> (r: &'static str)
    ensures
        r@ == outcome_label(status),
{
    match status {
        ApplianceStatus::Pass => "Pass",
        ApplianceStatus::Fail => "Fail",
    }
}

/// Order of two optional dates: none first, then chronological.
pub open spec fn date_option_order(a: Option<CalendarDate>, b: Option<CalendarDate>) -> int {
    match (a, b) {
        (None, None) => 0,
        (None, Some(_)) => -1,
        (Some(_), None) => 1,
        (Some(x), Some(y)) => if date_before(x@, y@) {
            -1
        } else if date_before(y@, x@) {
            1
        } else {
            0
        },
    }
}

/// Order of two appliances by a column, as -1, 0 or 1.
pub open spec fn column_order(a: Appliance, b: Appliance, column: SortColumn) -> int {
    match column {
        SortColumn::Id => identifier_rank(a.appliance_id@, b.appliance_id@),
        SortColumn::Description => lex_order(a.description@, b.description@),
        SortColumn::Location => lex_order(a.location@, b.location@),
        SortColumn::TestDate => date_option_order(a.test_date, b.test_date),
        SortColumn::RetestDate => date_option_order(a.retest_date, b.retest_date),
        SortColumn::Status => lex_order(outcome_label(a.status), outcome_label(b.status)),
    }
}

/// Order of two appliances under `key`, as -1, 0 or 1.
pub open spec fn key_order(a: Appliance, b: Appliance, key: SortKey) -> int {
    match key {
        SortKey::Column(column, ascending) => if ascending {
            column_order(a, b, column)
        } else {
            -column_order(a, b, column)
        },
        SortKey::Report => then_order(
            identifier_rank(a.appliance_id@, b.appliance_id@),
            identifier_rank(a.source_record_number@, b.source_record_number@),
        ),
    }
}

/// Swapping two appliances reverses their order under any key.
pub proof fn lemma_key_order_antisymmetric(a: Appliance, b: Appliance, key: SortKey)
    ensures
        key_order(a, b, key) == -key_order(b, a, key),
{
    lemma_identifier_order_antisymmetric(a.appliance_id@, b.appliance_id@);
    lemma_identifier_order_antisymmetric(a.source_record_number@, b.source_record_number@);
    lemma_lex_antisymmetric(a.description@, b.description@);
    lemma_lex_antisymmetric(a.location@, b.location@);
    lemma_lex_antisymmetric(outcome_label(a.status), outcome_label(b.status));
}

fn date_option_rank(a: Option<CalendarDate>, b: Option<CalendarDate>) -> (r: i8)
    ensures
        r as int == date_option_order(a, b),
{
    match (a, b) {
        (None, None) => 0,
        (None, Some(_)) => -1,
        (Some(_), None) => 1,
        (Some(x), Some(y)) => if date_is_before(&x, &y) {
            -1
        } else if date_is_before(&y, &x) {
            1
        } else {
            0
        },
    }
}

fn text_rank(a: &str, b: &str) -> (r: i8)
    ensures
        r as int == lex_order(a@, b@),
{
    let x = chars_of(a);
    let y = chars_of(b);
    lex_order_chars(x.as_slice(), y.as_slice())
}

fn column_rank(a: &Appliance, b: &Appliance, column: SortColumn) -> (r: i8)
    ensures
        r as int == column_order(*a, *b, column),
        -1 <= r <= 1,
{
    proof {
        lemma_key_order_antisymmetric(*a, *b, SortKey::Column(column, true));
        lemma_lex_antisymmetric(a.description@, b.description@);
        lemma_lex_antisymmetric(a.location@, b.location@);
        lemma_lex_antisymmetric(outcome_label(a.status), outcome_label(b.status));
        crate::identifier_order::lemma_identifier_rank_range(a.appliance_id@, b.appliance_id@);
    }
    match column {
        SortColumn::Id => identifier_rank_of(a.appliance_id.as_str(), b.appliance_id.as_str()),
        SortColumn::Description => text_rank(a.description.as_str(), b.description.as_str()),
        SortColumn::Location => text_rank(a.location.as_str(), b.location.as_str()),
        SortColumn::TestDate => date_option_rank(a.test_date, b.test_date),
        SortColumn::RetestDate => date_option_rank(a.retest_date, b.retest_date),
        SortColumn::Status => text_rank(status_text(a.status), status_text(b.status)),
    }
}

/// Order of two appliances under `key`.
pub fn key_rank(a: &Appliance, b: &Appliance, key: SortKey) -> (r: i8)
    ensures
        r as int == key_order(*a, *b, key),
{
    match key {
        SortKey::Column(column, ascending) => {
            let r = column_rank(a, b, column);
            if ascending {
                r
            } else {
                -r
            }
        },
        SortKey::Report => {
            let first = identifier_rank_of(a.appliance_id.as_str(), b.appliance_id.as_str());
            if first != 0 {
                first
            } else {
                identifier_rank_of(a.source_record_number.as_str(), b.source_record_number.as_str())
            }
        },
    }
}

/// Whether `s` lists indices of `apps` in order under `key`, equal ones by index.
pub open spec fn in_key_order(apps: Seq<Appliance>, s: Seq<usize>, key: SortKey) -> bool {
    forall|k: int|
        0 <= k < s.len() - 1 ==> {
            let o = key_order(apps[s[k] as int], apps[#[trigger] s[k + 1] as int], key);
            o < 0 || (o == 0 && s[k] < s[k + 1])
        }
}

proof fn lemma_in_key_order_at(apps: Seq<Appliance>, s: Seq<usize>, key: SortKey, k: int)
    requires
        in_key_order(apps, s, key),
        0 <= k < s.len() - 1,
    ensures
        ({
            let o = key_order(apps[s[k] as int], apps[s[k + 1] as int], key);
            o < 0 || (o == 0 && s[k] < s[k + 1])
        }),
{
}

/// Optional dates in chronological order with a blank first: `a` does not
/// come after `b`.
pub open spec fn blank_or_not_after(a: Option<CalendarDate>, b: Option<CalendarDate>) -> bool {
    match (a, b) {
        (None, _) => true,
        (Some(_), None) => false,
        (Some(x), Some(y)) => !date_before(y@, x@),
    }
}

/// The test-date and retest-date columns order appliances by those dates
/// alone: two pairs of appliances with the same dates in that column compare
/// alike, whatever else they hold.
pub proof fn lemma_date_columns_read_their_dates(
    a: Appliance,
    b: Appliance,
    c: Appliance,
    d: Appliance,
    ascending: bool,
)
    ensures
        a.test_date == c.test_date && b.test_date == d.test_date ==> key_order(
            a,
            b,
            SortKey::Column(SortColumn::TestDate, ascending),
        ) == key_order(c, d, SortKey::Column(SortColumn::TestDate, ascending)),
        a.retest_date == c.retest_date && b.retest_date == d.retest_date ==> key_order(
            a,
            b,
            SortKey::Column(SortColumn::RetestDate, ascending),
        ) == key_order(c, d, SortKey::Column(SortColumn::RetestDate, ascending)),
{
}

/// Every column orders appliances by its own field alone (the identifier,
/// description, location or outcome), and descending is ascending with the
/// two appliances swapped.
pub proof fn lemma_columns_read_their_fields(a: Appliance, b: Appliance, c: Appliance, d: Appliance, column: SortColumn)
    ensures
        a.appliance_id == c.appliance_id && b.appliance_id == d.appliance_id ==> key_order(
            a,
            b,
            SortKey::Column(SortColumn::Id, true),
        ) == key_order(c, d, SortKey::Column(SortColumn::Id, true)),
        a.description == c.description && b.description == d.description ==> key_order(
            a,
            b,
            SortKey::Column(SortColumn::Description, true),
        ) == key_order(c, d, SortKey::Column(SortColumn::Description, true)),
        a.location == c.location && b.location == d.location ==> key_order(
            a,
            b,
            SortKey::Column(SortColumn::Location, true),
        ) == key_order(c, d, SortKey::Column(SortColumn::Location, true)),
        a.status == c.status && b.status == d.status ==> key_order(
            a,
            b,
            SortKey::Column(SortColumn::Status, true),
        ) == key_order(c, d, SortKey::Column(SortColumn::Status, true)),
        key_order(a, b, SortKey::Column(column, false)) == key_order(b, a, SortKey::Column(column, true)),
{
    lemma_key_order_antisymmetric(a, b, SortKey::Column(column, true));
}

/// Listed by the test-date or retest-date column, appliances follow those
/// dates: ascending, blank dates first and then from earliest to latest;
/// descending, the other way round.
pub proof fn lemma_date_columns_follow_dates(apps: Seq<Appliance>, s: Seq<usize>, ascending: bool)
    ensures
        in_key_order(apps, s, SortKey::Column(SortColumn::TestDate, ascending)) ==> forall|k: int|
            0 <= k < s.len() - 1 ==> if ascending {
                blank_or_not_after(apps[s[k] as int].test_date, apps[#[trigger] s[k + 1] as int].test_date)
            } else {
                blank_or_not_after(apps[s[k + 1] as int].test_date, apps[s[k] as int].test_date)
            },
        in_key_order(apps, s, SortKey::Column(SortColumn::RetestDate, ascending)) ==> forall|k: int|
            0 <= k < s.len() - 1 ==> if ascending {
                blank_or_not_after(apps[s[k] as int].retest_date, apps[#[trigger] s[k + 1] as int].retest_date)
            } else {
                blank_or_not_after(apps[s[k + 1] as int].retest_date, apps[s[k] as int].retest_date)
            },
{
    let kt = SortKey::Column(SortColumn::TestDate, ascending);
    let kr = SortKey::Column(SortColumn::RetestDate, ascending);
    if in_key_order(apps, s, kt) {
        assert forall|k: int| 0 <= k < s.len() - 1 implies if ascending {
            blank_or_not_after(apps[s[k] as int].test_date, apps[#[trigger] s[k + 1] as int].test_date)
        } else {
            blank_or_not_after(apps[s[k + 1] as int].test_date, apps[s[k] as int].test_date)
        } by {
            lemma_in_key_order_at(apps, s, kt, k);
        }
    }
    if in_key_order(apps, s, kr) {
        assert forall|k: int| 0 <= k < s.len() - 1 implies if ascending {
            blank_or_not_after(apps[s[k] as int].retest_date, apps[#[trigger] s[k + 1] as int].retest_date)
        } else {
            blank_or_not_after(apps[s[k + 1] as int].retest_date, apps[s[k] as int].retest_date)
        } by {
            lemma_in_key_order_at(apps, s, kr, k);
        }
    }
}

/// Whether `s` rises strictly.
pub open spec fn strictly_increasing(s: Seq<usize>) -> bool {
    forall|a: int, b: int| 0 <= a < b < s.len() ==> s[a] < s[b]
}

/// The indices in `indices` (which rise strictly) reordered stably under `key`.
pub fn sort_indices(apps: &Vec<Appliance>, indices: &Vec<usize>, key: SortKey) -> (r: Vec<usize>)
    requires
        strictly_increasing(indices@),
        forall|k: int| 0 <= k < indices@.len() ==> indices@[k] < apps@.len(),
    ensures
        r@.len() == indices@.len(),
        r@.to_set() == indices@.to_set(),
        r@.no_duplicates(),
        in_key_order(apps@, r@, key),
{
    let mut out: Vec<usize> = Vec::new();
    let mut i: usize = 0;
    while i < indices.len()
        invariant
            strictly_increasing(indices@),
            forall|k: int| 0 <= k < indices@.len() ==> indices@[k] < apps@.len(),
            0 <= i <= indices@.len(),
            out@.len() == i,
            out@.to_set() == indices@.take(i as int).to_set(),
            out@.no_duplicates(),
            in_key_order(apps@, out@, key),
            forall|k: int| 0 <= k < out@.len() ==> out@[k] < apps@.len(),
            i < indices@.len() ==> forall|k: int| 0 <= k < out@.len() ==> out@[k] < indices@[i as int],
        decreases indices.len() - i,
    {
        let x = indices[i];
        let mut p = out.len();
        loop
            invariant
                0 <= p <= out@.len(),
                x < apps@.len(),
                forall|k: int| 0 <= k < out@.len() ==> out@[k] < apps@.len(),
                forall|q: int| p <= q < out@.len() ==> key_order(apps@[#[trigger] out@[q] as int], apps@[x as int], key) > 0,
            ensures
                0 <= p <= out@.len(),
                p == 0 || key_order(apps@[out@[p - 1] as int], apps@[x as int], key) <= 0,
                forall|q: int| p <= q < out@.len() ==> key_order(apps@[#[trigger] out@[q] as int], apps@[x as int], key) > 0,
            decreases p,
        {
            if p == 0 {
                break;
            }
            let rank = key_rank(&apps[out[p - 1]], &apps[x], key);
            if rank <= 0 {
                break;
            }
            p = p - 1;
        }
        let ghost before = out@;
        out.insert(p, x);
        proof {
            assert(out@ == before.insert(p as int, x));
            assert forall|k: int| 0 <= k < out@.len() - 1 implies {
                let o = key_order(apps@[out@[k] as int], apps@[#[trigger] out@[k + 1] as int], key);
                o < 0 || (o == 0 && out@[k] < out@[k + 1])
            } by {
                if k + 1 < p {
                    assert(out@[k] == before[k] && out@[k + 1] == before[k + 1]);
                    lemma_in_key_order_at(apps@, before, key, k);
                } else if k + 1 == p {
                    assert(out@[k] == before[k] && out@[k + 1] == x);
                    assert(before[k] < x);
                } else if k == p {
                    assert(out@[k] == x);
                    assert(out@[k + 1] == before[k]);
                    assert(key_order(apps@[before[k] as int], apps@[x as int], key) > 0);
                    lemma_key_order_antisymmetric(apps@[before[k] as int], apps@[x as int], key);
                } else {
                    assert(out@[k] == before[k - 1] && out@[k + 1] == before[k]);
                    lemma_in_key_order_at(apps@, before, key, k - 1);
                }
            }
            assert forall|a: int, b: int| 0 <= a < b < out@.len() implies out@[a] != out@[b] by {
                if a < p && b < p {
                    assert(out@[a] == before[a] && out@[b] == before[b]);
                } else if a < p && b == p {
                    assert(out@[a] == before[a]);
                } else if a < p {
                    assert(out@[a] == before[a] && out@[b] == before[b - 1]);
                } else if a == p {
                    assert(out@[b] == before[b - 1]);
                } else {
                    assert(out@[a] == before[a - 1] && out@[b] == before[b - 1]);
                }
            }
            assert(indices@.take(i + 1) =~= indices@.take(i as int).push(x));
            indices@.take(i as int).lemma_push_to_set_commute(x);
            assert forall|y: usize| out@.to_set().contains(y) <==> before.to_set().insert(x).contains(y) by {
                if out@.contains(y) {
                    let k = choose|k: int| 0 <= k < out@.len() && out@[k] == y;
                    if k < p {
                        assert(before[k] == y);
                    } else if k > p {
                        assert(before[k - 1] == y);
                    }
                }
                if before.contains(y) {
                    let k = choose|k: int| 0 <= k < before.len() && before[k] == y;
                    if k < p {
                        assert(out@[k] == y);
                    } else {
                        assert(out@[k + 1] == y);
                    }
                }
                if y == x {
                    assert(out@[p as int] == x);
                }
            }
            assert(out@.to_set() =~= indices@.take(i + 1).to_set());
            assert forall|k: int| 0 <= k < out@.len() implies out@[k] < apps@.len() by {
                if k < p {
                    assert(out@[k] == before[k]);
                } else if k > p {
                    assert(out@[k] == before[k - 1]);
                }
            }
            if i + 1 < indices@.len() {
                assert forall|k: int| 0 <= k < out@.len() implies out@[k] < indices@[i + 1] by {
                    if k < p {
                        assert(out@[k] == before[k]);
                    } else if k > p {
                        assert(out@[k] == before[k - 1]);
                    }
                }
            }
        }
        i = i + 1;
    }
    proof {
        assert(indices@.take(indices@.len() as int) =~= indices@);
    }
    out
}

} // verus!
