//! Exact readings, limits, dates and times as tester exports write them.
use crate::date::{valid_date, valid_time, CalendarDate, ClockTime};
use crate::model::{comparison_symbol, Comparison, Measurement};
use crate::text::{
    chars_of, is_ascii_alpha, is_ascii_digit, is_space, join, split_on, string_of, to_ascii_upper, trim,
    trim_chars, upper_seq,
};
use crate::tokens::{
    join_slices, parse_i32, parse_signed, parse_u8, parse_unsigned, split_on_char, views,
};
use vstd::prelude::*;
use vstd::slice::slice_subrange;

verus! {

/// The text after one leading `+` or `-`.
pub open spec fn unsigned_part(v: Seq<char>) -> Seq<char> {
    if v.len() > 0 && (v[0] == '+' || v[0] == '-') {
        v.drop_first()
    } else {
        v
    }
}

pub open spec fn dot_count(s: Seq<char>) -> nat
    decreases s.len(),
{
    if s.len() == 0 {
        0
    } else {
        dot_count(s.drop_last()) + if s.last() == '.' {
            1nat
        } else {
            0nat
        }
    }
}

/// An optional sign, then digits with at most one decimal point and at least one digit.
pub open spec fn is_decimal_text(v: Seq<char>) -> bool {
    let u = unsigned_part(v);
    &&& u.len() > 0
    &&& exists|i: int| 0 <= i < u.len() && is_ascii_digit(#[trigger] u[i])
    &&& dot_count(u) <= 1
    &&& forall|i: int| 0 <= i < u.len() ==> is_ascii_digit(#[trigger] u[i]) || u[i] == '.'
}

/// The comparison marker at the front of a reading and the text after it.
pub open spec fn reading_parts(input: Seq<char>) -> (Comparison, Seq<char>) {
    if input.len() >= 2 && input[0] == '<' && input[1] == '=' {
        (Comparison::LessThanOrEqual, input.skip(2))
    } else if input.len() >= 2 && input[0] == '>' && input[1] == '=' {
        (Comparison::GreaterThanOrEqual, input.skip(2))
    } else if input.len() >= 1 && input[0] == '<' {
        (Comparison::LessThan, input.skip(1))
    } else if input.len() >= 1 && input[0] == '>' {
        (Comparison::GreaterThan, input.skip(1))
    } else if input.len() >= 1 && input[0] == '=' {
        (Comparison::Equal, input.skip(1))
    } else {
        (Comparison::Equal, input)
    }
}

/// An exact reading: a comparison marker and a decimal that is kept as text.
pub open spec fn exact_reading(input: Seq<char>) -> Option<(Comparison, Seq<char>)> {
    let (c, v) = reading_parts(input);
    if is_decimal_text(v) {
        Some((c, v))
    } else {
        None
    }
}

/// A comparison's symbol followed by decimal text reads back as that
/// comparison and the text itself, unchanged ("0.10" stays "0.10").
pub proof fn lemma_exact_reading_round_trip(c: Comparison, v: Seq<char>)
    requires
        is_decimal_text(v),
    ensures
        exact_reading(comparison_symbol(c) + v) == Some((c, v)),
{
    let u = unsigned_part(v);
    assert(v.len() > 0);
    assert(v[0] != '<' && v[0] != '>' && v[0] != '=') by {
        if !(v[0] == '+' || v[0] == '-') {
            assert(u[0] == v[0]);
            assert(is_ascii_digit(u[0]) || u[0] == '.');
        }
    }
    let input = comparison_symbol(c) + v;
    match c {
        Comparison::LessThan => {
            assert(input.skip(1) =~= v);
        },
        Comparison::LessThanOrEqual => {
            assert(input.skip(2) =~= v);
        },
        Comparison::Equal => {
            assert(input =~= v);
        },
        Comparison::GreaterThanOrEqual => {
            assert(input.skip(2) =~= v);
        },
        Comparison::GreaterThan => {
            assert(input.skip(1) =~= v);
        },
    }
}

/// Position of the first ASCII letter, or the length when there is none.
pub open spec fn first_alpha(s: Seq<char>) -> nat
    decreases s.len(),
{
    if s.len() == 0 {
        0
    } else if is_ascii_alpha(s[0]) {
        0
    } else {
        1 + first_alpha(s.drop_first())
    }
}

/// A reading with its unit attached, such as `>299.9MEG`.
pub open spec fn combined_reading(input: Seq<char>) -> Option<(Comparison, Seq<char>, Seq<char>)> {
    let i = first_alpha(input) as int;
    if i >= input.len() {
        None
    } else {
        match exact_reading(input.take(i)) {
            Some((c, v)) => Some((c, v, input.skip(i))),
            None => None,
        }
    }
}

/// A result line's test name and its measurement, from the tokens before the status.
pub open spec fn measurement_parts(tokens: Seq<Seq<char>>) -> (
    Seq<char>,
    Option<(Comparison, Seq<char>, Seq<char>)>,
) {
    let n = tokens.len() as int;
    if n >= 2 && combined_reading(tokens[n - 1]) is Some {
        (join(tokens.take(n - 1), seq![' ']), combined_reading(tokens[n - 1]))
    } else if n >= 3 && exact_reading(tokens[n - 2]) is Some {
        let (c, v) = exact_reading(tokens[n - 2]).unwrap();
        (join(tokens.take(n - 2), seq![' ']), Some((c, v, tokens[n - 1])))
    } else {
        (join(tokens, seq![' ']), None)
    }
}

pub open spec fn measurement_view(m: Option<Measurement>) -> Option<(Comparison, Seq<char>, Seq<char>)> {
    match m {
        Some(x) => Some((x.comparison, x.value@, x.unit@)),
        None => None,
    }
}

proof fn lemma_dot_count_step(s: Seq<char>, i: int)
    requires
        0 <= i < s.len(),
    ensures
        dot_count(s.take(i + 1)) == dot_count(s.take(i)) + if s[i] == '.' {
            1nat
        } else {
            0nat
        },
{
    assert(s.take(i + 1).drop_last() =~= s.take(i));
}

pub fn is_decimal(value: &[char]) -> (r: bool)
    ensures
        r == is_decimal_text(value@),
{
    let u = if value.len() > 0 && (value[0] == '+' || value[0] == '-') {
        slice_subrange(value, 1, value.len())
    } else {
        value
    };
    proof {
        if value@.len() > 0 && (value@[0] == '+' || value@[0] == '-') {
            assert(u@ =~= value@.drop_first());
        }
        assert(unsigned_part(value@) == u@);
    }
    if u.len() == 0 {
        return false;
    }
    let mut digit = false;
    let mut dots: usize = 0;
    let mut i: usize = 0;
    while i < u.len()
        invariant
            unsigned_part(value@) == u@,
            0 <= i <= u@.len(),
            dots == dot_count(u@.take(i as int)),
            dots <= 1,
            digit == exists|k: int| 0 <= k < i && is_ascii_digit(#[trigger] u@[k]),
            forall|k: int| 0 <= k < i ==> is_ascii_digit(#[trigger] u@[k]) || u@[k] == '.',
        decreases u.len() - i,
    {
        let c = u[i];
        proof {
            lemma_dot_count_step(u@, i as int);
        }
        if '0' <= c && c <= '9' {
            digit = true;
        } else if c == '.' {
            if dots == 1 {
                proof {
                    lemma_dot_monotone(u@, i + 1);
                    assert(dot_count(u@.take(i + 1)) == 2);
                    assert(!is_decimal_text(value@));
                }
                return false;
            }
            dots = dots + 1;
        } else {
            proof {
                assert(!(is_ascii_digit(u@[i as int]) || u@[i as int] == '.'));
            }
            return false;
        }
        i = i + 1;
    }
    proof {
        assert(u@.take(u@.len() as int) =~= u@);
    }
    digit
}

proof fn lemma_dot_monotone(s: Seq<char>, k: int)
    requires
        0 <= k <= s.len(),
    ensures
        dot_count(s.take(k)) <= dot_count(s),
    decreases s.len(),
{
    if k < s.len() {
        assert(s.take(k) =~= s.drop_last().take(k));
        lemma_dot_monotone(s.drop_last(), k);
    } else {
        assert(s.take(k) =~= s);
    }
}

/// Reads an exact reading from characters.
pub fn exact_reading_of(input: &[char]) -> (r: Option<(Comparison, String)>)
    ensures
        r matches Some((c, v)) ==> exact_reading(input@) == Some((c, v@)),
        r is None ==> exact_reading(input@) is None,
{
    let (c, start): (Comparison, usize) = if input.len() >= 2 && input[0] == '<' && input[1] == '=' {
        (Comparison::LessThanOrEqual, 2)
    } else if input.len() >= 2 && input[0] == '>' && input[1] == '=' {
        (Comparison::GreaterThanOrEqual, 2)
    } else if input.len() >= 1 && input[0] == '<' {
        (Comparison::LessThan, 1)
    } else if input.len() >= 1 && input[0] == '>' {
        (Comparison::GreaterThan, 1)
    } else if input.len() >= 1 && input[0] == '=' {
        (Comparison::Equal, 1)
    } else {
        (Comparison::Equal, 0)
    };
    let v = slice_subrange(input, start, input.len());
    proof {
        assert(input@.skip(0) =~= input@);
        assert(reading_parts(input@) == (c, v@));
    }
    if is_decimal(v) {
        Some((c, string_of(v)))
    } else {
        None
    }
}

/// The comparison and decimal text of an exact reading or limit.
pub fn parse_exact(input: &str) -> (r: Option<(Comparison, String)>)
    ensures
        r matches Some((c, v)) ==> exact_reading(input@) == Some((c, v@)),
        r is None ==> exact_reading(input@) is None,
{
    let cs = chars_of(input);
    exact_reading_of(cs.as_slice())
}

proof fn lemma_first_alpha_is(s: Seq<char>, i: int)
    requires
        0 <= i <= s.len(),
        forall|j: int| 0 <= j < i ==> !is_ascii_alpha(s[j]),
        i == s.len() || is_ascii_alpha(s[i]),
    ensures
        first_alpha(s) == i,
    decreases i,
{
    if i > 0 {
        lemma_first_alpha_is(s.drop_first(), i - 1);
    }
}

fn combined_reading_of(input: &[char]) -> (r: Option<(Comparison, String, String)>)
    ensures
        r matches Some((c, v, u)) ==> combined_reading(input@) == Some((c, v@, u@)),
        r is None ==> combined_reading(input@) is None,
{
    let mut i: usize = 0;
    while i < input.len() && !(('a' <= input[i] && input[i] <= 'z') || ('A' <= input[i] && input[i] <= 'Z'))
        invariant
            0 <= i <= input@.len(),
            forall|j: int| 0 <= j < i ==> !is_ascii_alpha(input@[j]),
        decreases input.len() - i,
    {
        i = i + 1;
    }
    proof {
        lemma_first_alpha_is(input@, i as int);
    }
    if i >= input.len() {
        return None;
    }
    let reading = slice_subrange(input, 0, i);
    match exact_reading_of(reading) {
        Some((c, v)) => Some((c, v, string_of(slice_subrange(input, i, input.len())))),
        None => None,
    }
}

/// Splits a reading with an attached unit, such as `>299.9MEG`.
pub fn split_reading(input: &str) -> (r: Option<(Comparison, String, String)>)
    ensures
        r matches Some((c, v, u)) ==> combined_reading(input@) == Some((c, v@, u@)),
        r is None ==> combined_reading(input@) is None,
{
    let cs = chars_of(input);
    combined_reading_of(cs.as_slice())
}

/// A result line's test name and its measurement, from the tokens before the status.
pub fn measurement_of(tokens: &Vec<&[char]>) -> (r: (String, Option<Measurement>))
    ensures
        (r.0@, measurement_view(r.1)) == measurement_parts(views(tokens@)),
{
    let ghost ts = views(tokens@);
    let n = tokens.len();
    let space: [char; 1] = [' '];
    let sep = space.as_slice();
    proof {
        assert(sep@ =~= seq![' ']);
    }
    if n >= 2 {
        if let Some((c, v, u)) = combined_reading_of(tokens[n - 1]) {
            let mut head: Vec<&[char]> = Vec::new();
            let mut k: usize = 0;
            while k < n - 1
                invariant
                    n == tokens@.len(),
                    n >= 2,
                    0 <= k <= n - 1,
                    head@ == tokens@.take(k as int),
                decreases n - 1 - k,
            {
                head.push(tokens[k]);
                k = k + 1;
                assert(head@ =~= tokens@.take(k as int));
            }
            let name = join_slices(&head, sep);
            proof {
                assert(views(head@) =~= ts.take(n - 1));
            }
            return (name, Some(Measurement { comparison: c, value: v, unit: u }));
        }
    }
    if n >= 3 {
        if let Some((c, v)) = exact_reading_of(tokens[n - 2]) {
            let mut head: Vec<&[char]> = Vec::new();
            let mut k: usize = 0;
            while k < n - 2
                invariant
                    n == tokens@.len(),
                    n >= 3,
                    0 <= k <= n - 2,
                    head@ == tokens@.take(k as int),
                decreases n - 2 - k,
            {
                head.push(tokens[k]);
                k = k + 1;
                assert(head@ =~= tokens@.take(k as int));
            }
            let name = join_slices(&head, sep);
            proof {
                assert(views(head@) =~= ts.take(n - 2));
            }
            let unit = string_of(tokens[n - 1]);
            return (name, Some(Measurement { comparison: c, value: v, unit }));
        }
    }
    (join_slices(tokens, sep), None)
}

/// Splits result tokens into the test name and its measurement.
pub fn parse_measurement(tokens: &[&str]) -> (r: (String, Option<Measurement>))
    ensures
        (r.0@, measurement_view(r.1)) == measurement_parts(tokens@.map_values(|t: &str| t@)),
{
    let mut owned: Vec<Vec<char>> = Vec::new();
    let mut i: usize = 0;
    while i < tokens.len()
        invariant
            0 <= i <= tokens@.len(),
            owned@.len() == i,
            forall|k: int| 0 <= k < i ==> (#[trigger] owned@[k])@ == tokens@[k]@,
        decreases tokens.len() - i,
    {
        owned.push(chars_of(tokens[i]));
        i = i + 1;
    }
    let mut refs: Vec<&[char]> = Vec::new();
    let mut k: usize = 0;
    while k < owned.len()
        invariant
            0 <= k <= owned@.len(),
            owned@.len() == tokens@.len(),
            refs@.len() == k,
            forall|m: int| 0 <= m < k ==> (#[trigger] refs@[m])@ == owned@[m]@,
        decreases owned.len() - k,
    {
        refs.push(owned[k].as_slice());
        k = k + 1;
    }
    proof {
        assert(views(refs@) =~= tokens@.map_values(|t: &str| t@));
    }
    measurement_of(&refs)
}

/// Month number from a number or a three-letter English name in any case.
pub open spec fn month_number(input: Seq<char>) -> Option<int> {
    match parse_unsigned(input, 255) {
        Some(n) => if 1 <= n <= 12 {
            Some(n)
        } else {
            None
        },
        None => {
            let u = upper_seq(input);
            if u == seq!['J', 'A', 'N'] {
                Some(1)
            } else if u == seq!['F', 'E', 'B'] {
                Some(2)
            } else if u == seq!['M', 'A', 'R'] {
                Some(3)
            } else if u == seq!['A', 'P', 'R'] {
                Some(4)
            } else if u == seq!['M', 'A', 'Y'] {
                Some(5)
            } else if u == seq!['J', 'U', 'N'] {
                Some(6)
            } else if u == seq!['J', 'U', 'L'] {
                Some(7)
            } else if u == seq!['A', 'U', 'G'] {
                Some(8)
            } else if u == seq!['S', 'E', 'P'] {
                Some(9)
            } else if u == seq!['O', 'C', 'T'] {
                Some(10)
            } else if u == seq!['N', 'O', 'V'] {
                Some(11)
            } else if u == seq!['D', 'E', 'C'] {
                Some(12)
            } else {
                None
            }
        },
    }
}

/// A year written with two digits (placed around `pivot`) or four.
pub open spec fn year_value(raw: Seq<char>, pivot: int) -> Option<int> {
    if raw.len() == 2 {
        match parse_signed(raw, i32::MIN as int, i32::MAX as int) {
            Some(y) => if y >= pivot {
                Some(1900 + y)
            } else {
                Some(2000 + y)
            },
            None => None,
        }
    } else if raw.len() == 4 {
        parse_signed(raw, i32::MIN as int, i32::MAX as int)
    } else {
        None
    }
}

/// A day, month and year separated by `sep`, as a date.
pub open spec fn dmy_date(input: Seq<char>, sep: char, pivot: int) -> Option<(int, int, int)> {
    let parts = split_on(trim(input), sep);
    if parts.len() != 3 {
        None
    } else {
        match (parse_unsigned(parts[0], 255), month_number(parts[1]), year_value(parts[2], pivot)) {
            (Some(day), Some(month), Some(year)) => if valid_date(year, month, day) {
                Some((year, month, day))
            } else {
                None
            },
            _ => None,
        }
    }
}

fn upper_is(u: &[char], a: char, b: char, c: char) -> (r: bool)
    ensures
        r == (u@ == seq![a, b, c]),
{
    let r = u.len() == 3 && u[0] == a && u[1] == b && u[2] == c;
    proof {
        if r {
            assert(u@ =~= seq![a, b, c]);
        }
    }
    r
}

fn month_of(input: &[char]) -> (r: Option<u8>)
    ensures
        r matches Some(m) ==> month_number(input@) == Some(m as int),
        r is None ==> month_number(input@) is None,
{
    match parse_u8(input) {
        Some(n) => {
            if 1 <= n && n <= 12 {
                Some(n)
            } else {
                None
            }
        },
        None => {
            let mut u: Vec<char> = Vec::new();
            let mut i: usize = 0;
            while i < input.len()
                invariant
                    0 <= i <= input@.len(),
                    u@ == upper_seq(input@.take(i as int)),
                decreases input.len() - i,
            {
                u.push(to_ascii_upper(input[i]));
                i = i + 1;
                assert(u@ =~= upper_seq(input@.take(i as int)));
            }
            proof {
                assert(input@.take(input@.len() as int) =~= input@);
            }
            let s = u.as_slice();
            if upper_is(s, 'J', 'A', 'N') {
                Some(1)
            } else if upper_is(s, 'F', 'E', 'B') {
                Some(2)
            } else if upper_is(s, 'M', 'A', 'R') {
                Some(3)
            } else if upper_is(s, 'A', 'P', 'R') {
                Some(4)
            } else if upper_is(s, 'M', 'A', 'Y') {
                Some(5)
            } else if upper_is(s, 'J', 'U', 'N') {
                Some(6)
            } else if upper_is(s, 'J', 'U', 'L') {
                Some(7)
            } else if upper_is(s, 'A', 'U', 'G') {
                Some(8)
            } else if upper_is(s, 'S', 'E', 'P') {
                Some(9)
            } else if upper_is(s, 'O', 'C', 'T') {
                Some(10)
            } else if upper_is(s, 'N', 'O', 'V') {
                Some(11)
            } else if upper_is(s, 'D', 'E', 'C') {
                Some(12)
            } else {
                None
            }
        },
    }
}

fn year_of(raw: &[char], pivot: i32) -> (r: Option<i32>)
    ensures
        r matches Some(y) ==> year_value(raw@, pivot as int) == Some(y as int),
        r is None ==> year_value(raw@, pivot as int) is None,
{
    if raw.len() == 2 {
        match parse_i32(raw) {
            Some(y) => {
                proof {
                    crate::tokens::lemma_short_signed_bound(raw@);
                }
                if y >= pivot {
                    Some(1900 + y)
                } else {
                    Some(2000 + y)
                }
            },
            None => None,
        }
    } else if raw.len() == 4 {
        parse_i32(raw)
    } else {
        None
    }
}

/// Reads a date written as day, month and year separated by `separator`.
pub fn dmy_date_of(input: &[char], separator: char, year_pivot: i32) -> (r: Option<CalendarDate>)
    ensures
        r matches Some(d) ==> dmy_date(input@, separator, year_pivot as int) == Some(d@),
        r is None ==> dmy_date(input@, separator, year_pivot as int) is None,
{
    let t = trim_chars(input);
    let parts = split_on_char(t, separator);
    proof {
        assert(views(parts@).len() == parts@.len());
    }
    if parts.len() != 3 {
        return None;
    }
    proof {
        assert(views(parts@)[0] == parts@[0]@);
        assert(views(parts@)[1] == parts@[1]@);
        assert(views(parts@)[2] == parts@[2]@);
    }
    let day = match parse_u8(parts[0]) {
        Some(d) => d,
        None => return None,
    };
    let month = match month_of(parts[1]) {
        Some(m) => m,
        None => return None,
    };
    let year = match year_of(parts[2], year_pivot) {
        Some(y) => y,
        None => return None,
    };
    CalendarDate::from_calendar_date(year, month, day)
}

/// Reads a date written as day, month and year separated by `separator`; a
/// two-digit year from `year_pivot` upwards is in the 1900s, below it in the 2000s.
pub fn parse_dmy_date(input: &str, separator: char, year_pivot: i32) -> (r: Option<CalendarDate>)
    ensures
        r matches Some(d) ==> dmy_date(input@, separator, year_pivot as int) == Some(d@),
        r is None ==> dmy_date(input@, separator, year_pivot as int) is None,
{
    let cs = chars_of(input);
    dmy_date_of(cs.as_slice(), separator, year_pivot)
}

/// Hours and minutes, with optional seconds, separated by colons.
pub open spec fn hms_time(input: Seq<char>) -> Option<(int, int, int)> {
    let parts = split_on(trim(input), ':');
    if parts.len() < 2 || parts.len() > 3 {
        None
    } else {
        let second = if parts.len() == 3 {
            parse_unsigned(parts[2], 255)
        } else {
            Some(0)
        };
        match (parse_unsigned(parts[0], 255), parse_unsigned(parts[1], 255), second) {
            (Some(h), Some(m), Some(s)) => if valid_time(h, m, s) {
                Some((h, m, s))
            } else {
                None
            },
            _ => None,
        }
    }
}

pub fn hms_time_of(input: &[char]) -> (r: Option<ClockTime>)
    ensures
        r matches Some(t) ==> hms_time(input@) == Some(t@),
        r is None ==> hms_time(input@) is None,
{
    let t = trim_chars(input);
    let parts = split_on_char(t, ':');
    proof {
        assert(views(parts@).len() == parts@.len());
    }
    if parts.len() < 2 || parts.len() > 3 {
        return None;
    }
    proof {
        assert(views(parts@)[0] == parts@[0]@);
        assert(views(parts@)[1] == parts@[1]@);
        if parts@.len() == 3 {
            assert(views(parts@)[2] == parts@[2]@);
        }
    }
    let hour = match parse_u8(parts[0]) {
        Some(h) => h,
        None => return None,
    };
    let minute = match parse_u8(parts[1]) {
        Some(m) => m,
        None => return None,
    };
    let second = if parts.len() == 3 {
        match parse_u8(parts[2]) {
            Some(s) => s,
            None => return None,
        }
    } else {
        0
    };
    ClockTime::from_hms(hour, minute, second)
}

/// Reads a time written as hours and minutes, with optional seconds.
pub fn parse_hms_time(input: &str) -> (r: Option<ClockTime>)
    ensures
        r matches Some(t) ==> hms_time(input@) == Some(t@),
        r is None ==> hms_time(input@) is None,
{
    let cs = chars_of(input);
    hms_time_of(cs.as_slice())
}

/// The month names as tester exports write them: the first three letters of
/// the English name, January first.
pub open spec fn english_month_codes() -> Seq<Seq<char>> {
    seq![
        seq!['J', 'A', 'N'],
        seq!['F', 'E', 'B'],
        seq!['M', 'A', 'R'],
        seq!['A', 'P', 'R'],
        seq!['M', 'A', 'Y'],
        seq!['J', 'U', 'N'],
        seq!['J', 'U', 'L'],
        seq!['A', 'U', 'G'],
        seq!['S', 'E', 'P'],
        seq!['O', 'C', 'T'],
        seq!['N', 'O', 'V'],
        seq!['D', 'E', 'C'],
    ]
}

/// The months as two-digit numbers, January first.
pub open spec fn two_digit_months() -> Seq<Seq<char>> {
    seq![
        seq!['0', '1'],
        seq!['0', '2'],
        seq!['0', '3'],
        seq!['0', '4'],
        seq!['0', '5'],
        seq!['0', '6'],
        seq!['0', '7'],
        seq!['0', '8'],
        seq!['0', '9'],
        seq!['1', '0'],
        seq!['1', '1'],
        seq!['1', '2'],
    ]
}

proof fn lemma_split_first(a: Seq<char>, rest: Seq<char>, c: char)
    requires
        !a.contains(c),
    ensures
        split_on(a + seq![c] + rest, c) == seq![a] + split_on(rest, c),
{
    let s = a + seq![c] + rest;
    assert forall|j: int| 0 <= j < a.len() implies s[j] != c by {
        assert(s[j] == a[j]);
    }
    crate::text::lemma_find_char_is(s, c, a.len() as int);
    assert(s.take(a.len() as int) =~= a);
    assert(s.skip(a.len() as int + 1) =~= rest);
}

proof fn lemma_split_none(a: Seq<char>, c: char)
    requires
        !a.contains(c),
    ensures
        split_on(a, c) == seq![a],
{
    crate::text::lemma_find_char_is(a, c, a.len() as int);
}

/// The month number that the name or number written for month `m` reads as.
proof fn lemma_month_codes(m: int, name: Seq<char>)
    requires
        1 <= m <= 12,
        upper_seq(name) == english_month_codes()[m - 1],
    ensures
        month_number(name) == Some(m),
        month_number(two_digit_months()[m - 1]) == Some(m),
{
    let codes = english_month_codes();
    let numbers = two_digit_months();
    let code = codes[m - 1];
    assert(codes[0].len() == 3 && codes[1].len() == 3 && codes[2].len() == 3 && codes[3].len() == 3);
    assert(codes[4].len() == 3 && codes[5].len() == 3 && codes[6].len() == 3 && codes[7].len() == 3);
    assert(codes[8].len() == 3 && codes[9].len() == 3 && codes[10].len() == 3 && codes[11].len() == 3);
    assert(upper_seq(name).len() == name.len());
    assert(name.len() == 3);
    assert(upper_seq(name)[0] == crate::text::ascii_upper(name[0]));
    assert(is_ascii_alpha(code[0])) by {
        assert(codes[0][0] == 'J' && codes[1][0] == 'F' && codes[2][0] == 'M' && codes[3][0] == 'A');
        assert(codes[4][0] == 'M' && codes[5][0] == 'J' && codes[6][0] == 'J' && codes[7][0] == 'A');
        assert(codes[8][0] == 'S' && codes[9][0] == 'O' && codes[10][0] == 'N' && codes[11][0] == 'D');
    }
    assert(name[0] != '+' && !is_ascii_digit(name[0]));
    assert(parse_unsigned(name, 255) is None);
    let num = numbers[m - 1];
    assert(num.len() == 2 && num[0] != '+');
    assert(num.drop_last().drop_last() =~= Seq::<char>::empty());
    assert(crate::tokens::digits_value(num) == crate::tokens::digits_value(num.drop_last()) * 10
        + crate::tokens::digit_value(num.last()));
    assert(crate::tokens::digits_value(num.drop_last()) == crate::tokens::digit_value(num[0])) by {
        let one = num.drop_last();
        assert(one.drop_last() =~= Seq::<char>::empty());
        assert(one.last() == num[0]);
        assert(crate::tokens::digits_value(one.drop_last()) == 0);
        assert(crate::tokens::digits_value(one) == crate::tokens::digits_value(one.drop_last()) * 10
            + crate::tokens::digit_value(one.last()));
    }
    assert(crate::tokens::all_digits(num));
}

/// A day-month-year date whose month is written as its English three-letter
/// name, in any case (JAN ... DEC), reads as the same date as with the
/// month's two-digit number (01 ... 12): "15-JUN-26" is read as "15-06-26".
pub proof fn lemma_month_name_reads_as_number(
    day: Seq<char>,
    name: Seq<char>,
    year: Seq<char>,
    sep: char,
    pivot: int,
    m: int,
)
    requires
        1 <= m <= 12,
        upper_seq(name) == english_month_codes()[m - 1],
        !is_space(sep) && !is_ascii_digit(sep) && !is_ascii_alpha(sep),
        !day.contains(sep),
        !name.contains(sep),
        !year.contains(sep),
        day.len() > 0 && !is_space(day[0]),
        year.len() > 0 && !is_space(year.last()),
    ensures
        month_number(name) == Some(m),
        dmy_date(day + seq![sep] + name + seq![sep] + year, sep, pivot) == dmy_date(
            day + seq![sep] + two_digit_months()[m - 1] + seq![sep] + year,
            sep,
            pivot,
        ),
{
    lemma_month_codes(m, name);
    let num = two_digit_months()[m - 1];
    assert(!num.contains(sep)) by {
        if num.contains(sep) {
            let k = choose|k: int| 0 <= k < num.len() && num[k] == sep;
            assert(crate::tokens::all_digits(num));
        }
    }
    let a = day + seq![sep] + name + seq![sep] + year;
    let b = day + seq![sep] + num + seq![sep] + year;
    assert forall|mid: Seq<char>| !mid.contains(sep) implies {
        let s = day + seq![sep] + mid + seq![sep] + year;
        &&& trim(s) == s
        &&& split_on(s, sep) == seq![day, mid, year]
    } by {
        let s = day + seq![sep] + mid + seq![sep] + year;
        assert(s[0] == day[0]);
        assert(s[s.len() - 1] == year.last());
        crate::text::lemma_leading_is(s, 0);
        assert(s.skip(0) =~= s);
        crate::text::lemma_trailing_is(s, 0);
        assert(s.take(s.len() as int) =~= s);
        assert(s =~= day + seq![sep] + (mid + seq![sep] + year));
        lemma_split_first(day, mid + seq![sep] + year, sep);
        lemma_split_first(mid, year, sep);
        lemma_split_none(year, sep);
        assert(seq![day] + (seq![mid] + seq![year]) =~= seq![day, mid, year]);
    }
    assert(split_on(trim(a), sep) == seq![day, name, year]);
    assert(split_on(trim(b), sep) == seq![day, num, year]);
}

} // verus!
