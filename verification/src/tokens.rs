//! Splitting text into tokens, lines and separated pieces, joining pieces,
//! and reading and writing decimal integers.
use crate::text::{
    append_chars, char_is_space, is_ascii_digit, is_space, join, lemma_find_char_is, lemma_word_len_is,
    lines, push_char, split_on, strip_cr, words,
};
use vstd::prelude::*;
use vstd::slice::slice_subrange;

verus! {

pub open spec fn views(v: Seq<&[char]>) -> Seq<Seq<char>> {
    v.map_values(|w: &[char]| w@)
}

pub open spec fn string_views(v: Seq<String>) -> Seq<Seq<char>> {
    v.map_values(|w: String| w@)
}

proof fn lemma_views_push(v: Seq<&[char]>, w: &[char])
    ensures
        views(v.push(w)) == views(v) + seq![w@],
{
    assert(views(v.push(w)) =~= views(v) + seq![w@]);
}

/// The whitespace-separated tokens of `s` (`str::split_whitespace`).
pub fn split_words(s: &[char]) -> (r: Vec<&[char]>)
    ensures
        views(r@) == words(s@),
{
    let mut out: Vec<&[char]> = Vec::new();
    let mut i: usize = 0;
    proof {
        assert(s@.skip(0) =~= s@);
        assert(views(out@) =~= seq![]);
    }
    while i < s.len()
        invariant
            0 <= i <= s@.len(),
            words(s@) == views(out@) + words(s@.skip(i as int)),
        decreases s.len() - i,
    {
        let ghost rest = s@.skip(i as int);
        if char_is_space(s[i]) {
            proof {
                assert(rest.drop_first() =~= s@.skip(i + 1));
            }
            i = i + 1;
        } else {
            let mut j: usize = i;
            while j < s.len() && !char_is_space(s[j])
                invariant
                    i <= j <= s@.len(),
                    forall|k: int| i <= k < j ==> !is_space(s@[k]),
                decreases s.len() - j,
            {
                j = j + 1;
            }
            proof {
                assert forall|k: int| 0 <= k < j - i implies !is_space(rest[k]) by {
                    assert(rest[k] == s@[i + k]);
                }
                if j < s.len() {
                    assert(rest[j - i] == s@[j as int]);
                }
                lemma_word_len_is(rest, j - i);
                assert(rest.take(j - i) =~= s@.subrange(i as int, j as int));
                assert(rest.skip(j - i) =~= s@.skip(j as int));
            }
            let w = slice_subrange(s, i, j);
            proof {
                lemma_views_push(out@, w);
            }
            out.push(w);
            i = j;
        }
    }
    proof {
        assert(s@.skip(i as int) =~= seq![]);
        assert(views(out@) + seq![] =~= views(out@));
    }
    out
}

proof fn lemma_join_step(parts: Seq<Seq<char>>, sep: Seq<char>, i: int)
    requires
        1 <= i < parts.len(),
    ensures
        join(parts.take(i + 1), sep) == join(parts.take(i), sep) + sep + parts[i],
{
    assert(parts.take(i + 1).drop_last() =~= parts.take(i));
}

/// The pieces joined with `sep` between each pair (`[..].join(sep)`).
pub fn join_slices(parts: &Vec<&[char]>, sep: &[char]) -> (r: String)
    ensures
        r@ == join(views(parts@), sep@),
{
    let ghost ps = views(parts@);
    let mut out = String::new();
    let mut i: usize = 0;
    while i < parts.len()
        invariant
            ps == views(parts@),
            0 <= i <= parts@.len(),
            out@ == join(ps.take(i as int), sep@),
        decreases parts.len() - i,
    {
        if i == 0 {
            append_chars(&mut out, parts[0]);
            proof {
                assert(ps.take(1) =~= seq![ps[0]]);
            }
        } else {
            append_chars(&mut out, sep);
            append_chars(&mut out, parts[i]);
            proof {
                lemma_join_step(ps, sep@, i as int);
            }
        }
        i = i + 1;
    }
    proof {
        assert(ps.take(parts@.len() as int) =~= ps);
    }
    out
}

/// The lines of `s`, without terminators (`str::lines`).
pub fn split_lines(s: &[char]) -> (r: Vec<&[char]>)
    ensures
        views(r@) == lines(s@),
{
    let mut out: Vec<&[char]> = Vec::new();
    let mut i: usize = 0;
    proof {
        assert(s@.skip(0) =~= s@);
        assert(views(out@) =~= seq![]);
    }
    while i < s.len()
        invariant
            0 <= i <= s@.len(),
            lines(s@) == views(out@) + lines(s@.skip(i as int)),
        decreases s.len() - i,
    {
        let ghost rest = s@.skip(i as int);
        let mut j: usize = i;
        while j < s.len() && s[j] != '\n'
            invariant
                i <= j <= s@.len(),
                forall|k: int| i <= k < j ==> s@[k] != '\n',
            decreases s.len() - j,
        {
            j = j + 1;
        }
        proof {
            assert forall|k: int| 0 <= k < j - i implies rest[k] != '\n' by {
                assert(rest[k] == s@[i + k]);
            }
            if j < s.len() {
                assert(rest[j - i] == s@[j as int]);
            }
            lemma_find_char_is(rest, '\n', j - i);
        }
        if j < s.len() {
            let mut end = j;
            if end > i && s[end - 1] == '\r' {
                end = end - 1;
            }
            let w = slice_subrange(s, i, end);
            proof {
                assert(strip_cr(rest.take(j - i)) =~= w@);
                assert(rest.skip(j - i + 1) =~= s@.skip(j + 1));
                lemma_views_push(out@, w);
            }
            out.push(w);
            i = j + 1;
        } else {
            let w = slice_subrange(s, i, s.len());
            proof {
                assert(rest =~= w@);
                lemma_views_push(out@, w);
                assert(s@.skip(s@.len() as int) =~= seq![]);
            }
            out.push(w);
            i = s.len();
        }
    }
    proof {
        assert(s@.skip(i as int) =~= seq![]);
        assert(views(out@) + seq![] =~= views(out@));
    }
    out
}

/// The pieces of `s` between occurrences of `c` (`str::split` with a character).
pub fn split_on_char(s: &[char], c: char) -> (r: Vec<&[char]>)
    ensures
        views(r@) == split_on(s@, c),
        r@.len() >= 1,
{
    let mut out: Vec<&[char]> = Vec::new();
    let mut i: usize = 0;
    proof {
        assert(s@.skip(0) =~= s@);
        assert(views(out@) =~= seq![]);
    }
    loop
        invariant
            0 <= i <= s@.len(),
            split_on(s@, c) == views(out@) + split_on(s@.skip(i as int), c),
        decreases s.len() - i,
    {
        let ghost rest = s@.skip(i as int);
        let mut j: usize = i;
        while j < s.len() && s[j] != c
            invariant
                i <= j <= s@.len(),
                forall|k: int| i <= k < j ==> s@[k] != c,
            decreases s.len() - j,
        {
            j = j + 1;
        }
        proof {
            assert forall|k: int| 0 <= k < j - i implies rest[k] != c by {
                assert(rest[k] == s@[i + k]);
            }
            if j < s.len() {
                assert(rest[j - i] == s@[j as int]);
            }
            lemma_find_char_is(rest, c, j - i);
        }
        let w = slice_subrange(s, i, j);
        proof {
            lemma_views_push(out@, w);
        }
        out.push(w);
        if j < s.len() {
            proof {
                assert(rest.take(j - i) =~= w@);
                assert(rest.skip(j - i + 1) =~= s@.skip(j + 1));
            }
            i = j + 1;
        } else {
            proof {
                assert(rest =~= w@);
                assert(views(out@) =~= views(out@.drop_last()) + seq![w@]);
            }
            return out;
        }
    }
}

pub open spec fn digit_value(c: char) -> int {
    (c as int) - ('0' as int)
}

pub open spec fn all_digits(s: Seq<char>) -> bool {
    forall|i: int| 0 <= i < s.len() ==> is_ascii_digit(#[trigger] s[i])
}

/// The value of a run of decimal digits.
pub open spec fn digits_value(s: Seq<char>) -> int
    decreases s.len(),
{
    if s.len() == 0 {
        0
    } else {
        digits_value(s.drop_last()) * 10 + digit_value(s.last())
    }
}

/// `str::parse` for an unsigned integer whose largest value is `max`:
/// an optional `+`, then at least one decimal digit, with no overflow.
pub open spec fn parse_unsigned(s: Seq<char>, max: int) -> Option<int> {
    let body = if s.len() > 0 && s[0] == '+' {
        s.drop_first()
    } else {
        s
    };
    if body.len() > 0 && all_digits(body) && digits_value(body) <= max {
        Some(digits_value(body))
    } else {
        None
    }
}

/// `str::parse` for a signed integer in `min..=max`: an optional sign, then
/// at least one decimal digit, with no overflow.
pub open spec fn parse_signed(s: Seq<char>, min: int, max: int) -> Option<int> {
    if s.len() > 0 && s[0] == '-' {
        let body = s.drop_first();
        if body.len() > 0 && all_digits(body) && -digits_value(body) >= min {
            Some(-digits_value(body))
        } else {
            None
        }
    } else {
        parse_unsigned(s, max)
    }
}

pub proof fn lemma_digits_nonneg(s: Seq<char>)
    requires
        all_digits(s),
    ensures
        digits_value(s) >= 0,
    decreases s.len(),
{
    if s.len() > 0 {
        lemma_digits_nonneg(s.drop_last());
    }
}

pub proof fn lemma_digits_monotone(s: Seq<char>, k: int)
    requires
        all_digits(s),
        0 <= k <= s.len(),
    ensures
        digits_value(s.take(k)) <= digits_value(s),
    decreases s.len(),
{
    if k < s.len() {
        assert(s.take(k) =~= s.drop_last().take(k));
        lemma_digits_monotone(s.drop_last(), k);
        lemma_digits_nonneg(s.drop_last());
    } else {
        assert(s.take(k) =~= s);
    }
}

/// The value of `body` when it is a non-empty run of digits worth at most `max`.
fn digits_at_most(body: &[char], max: u64) -> (r: Option<u64>)
    ensures
        r matches Some(v) ==> body@.len() > 0 && all_digits(body@) && v == digits_value(body@)
            && v <= max,
        r is None ==> !(body@.len() > 0 && all_digits(body@) && digits_value(body@) <= max),
{
    if body.len() == 0 {
        return None;
    }
    let mut acc: u64 = 0;
    let mut i: usize = 0;
    while i < body.len()
        invariant
            0 <= i <= body@.len(),
            all_digits(body@.take(i as int)),
            acc == digits_value(body@.take(i as int)),
            acc <= max,
        decreases body.len() - i,
    {
        let c = body[i];
        if !('0' <= c && c <= '9') {
            return None;
        }
        let d = (c as u64) - ('0' as u64);
        proof {
            assert(body@.take(i + 1).drop_last() =~= body@.take(i as int));
        }
        let next: u128 = (acc as u128) * 10 + (d as u128);
        if next > max as u128 {
            proof {
                assert(all_digits(body@.take(i + 1)));
                assert(digits_value(body@.take(i + 1)) == next);
                if all_digits(body@) {
                    lemma_digits_monotone(body@, i + 1);
                }
            }
            return None;
        }
        acc = next as u64;
        i = i + 1;
    }
    proof {
        assert(body@.take(body@.len() as int) =~= body@);
    }
    Some(acc)
}

/// `str::parse::<u8>` on characters.
pub fn parse_u8(s: &[char]) -> (r: Option<u8>)
    ensures
        r matches Some(v) ==> parse_unsigned(s@, 255) == Some(v as int),
        r is None ==> parse_unsigned(s@, 255) is None,
{
    let body = if s.len() > 0 && s[0] == '+' {
        slice_subrange(s, 1, s.len())
    } else {
        s
    };
    proof {
        if s@.len() > 0 && s@[0] == '+' {
            assert(body@ =~= s@.drop_first());
        }
    }
    match digits_at_most(body, 255) {
        Some(v) => Some(v as u8),
        None => None,
    }
}

/// `str::parse::<i32>` on characters.
pub fn parse_i32(s: &[char]) -> (r: Option<i32>)
    ensures
        r matches Some(v) ==> parse_signed(s@, i32::MIN as int, i32::MAX as int) == Some(v as int),
        r is None ==> parse_signed(s@, i32::MIN as int, i32::MAX as int) is None,
{
    if s.len() > 0 && s[0] == '-' {
        let body = slice_subrange(s, 1, s.len());
        proof {
            assert(body@ =~= s@.drop_first());
        }
        match digits_at_most(body, 2147483648) {
            Some(v) => {
                if v == 2147483648 {
                    Some(i32::MIN)
                } else {
                    let n: i32 = v as i32;
                    Some(-n)
                }
            },
            None => None,
        }
    } else {
        let body = if s.len() > 0 && s[0] == '+' {
            slice_subrange(s, 1, s.len())
        } else {
            s
        };
        proof {
            if s@.len() > 0 && s@[0] == '+' {
                assert(body@ =~= s@.drop_first());
            }
        }
        match digits_at_most(body, 2147483647) {
            Some(v) => Some(v as i32),
            None => None,
        }
    }
}

/// `str::parse::<i64>` on characters.
pub fn parse_i64(s: &[char]) -> (r: Option<i64>)
    ensures
        r matches Some(v) ==> parse_signed(s@, i64::MIN as int, i64::MAX as int) == Some(v as int),
        r is None ==> parse_signed(s@, i64::MIN as int, i64::MAX as int) is None,
{
    if s.len() > 0 && s[0] == '-' {
        let body = slice_subrange(s, 1, s.len());
        proof {
            assert(body@ =~= s@.drop_first());
        }
        match digits_at_most(body, 9223372036854775808) {
            Some(v) => {
                if v == 9223372036854775808 {
                    Some(i64::MIN)
                } else {
                    let n: i64 = v as i64;
                    Some(-n)
                }
            },
            None => None,
        }
    } else {
        let body = if s.len() > 0 && s[0] == '+' {
            slice_subrange(s, 1, s.len())
        } else {
            s
        };
        proof {
            if s@.len() > 0 && s@[0] == '+' {
                assert(body@ =~= s@.drop_first());
            }
        }
        match digits_at_most(body, 9223372036854775807) {
            Some(v) => Some(v as i64),
            None => None,
        }
    }
}

pub open spec fn digit_char(d: int) -> char {
    (('0' as int) + d) as char
}

/// Decimal digits of `n`, most significant first, without leading zeros.
pub open spec fn decimal(n: nat) -> Seq<char>
    decreases n,
{
    if n < 10 {
        seq![digit_char(n as int)]
    } else {
        decimal(n / 10).push(digit_char((n % 10) as int))
    }
}

/// `{:02}`: at least two digits, padded with a leading zero.
pub open spec fn decimal2(n: nat) -> Seq<char> {
    if n < 10 {
        seq!['0'] + decimal(n)
    } else {
        decimal(n)
    }
}

/// `{}` for a signed integer.
pub open spec fn signed_decimal(n: int) -> Seq<char> {
    if n < 0 {
        seq!['-'] + decimal((-n) as nat)
    } else {
        decimal(n as nat)
    }
}

fn digit(d: u64) -> (c: char)
    requires
        d < 10,
    ensures
        c == digit_char(d as int),
{
    let b = (d as u8) + 48;
    b as char
}

pub fn push_decimal(out: &mut String, n: u64)
    ensures
        final(out)@ == old(out)@ + decimal(n as nat),
    decreases n,
{
    if n >= 10 {
        push_decimal(out, n / 10);
        push_char(out, digit(n % 10));
        proof {
            assert(decimal(n as nat) == decimal((n / 10) as nat).push(digit_char((n % 10) as int)));
        }
        assert(out@ =~= old(out)@ + decimal(n as nat));
    } else {
        push_char(out, digit(n));
        assert(out@ =~= old(out)@ + decimal(n as nat));
    }
}

pub fn push_decimal2(out: &mut String, n: u64)
    ensures
        final(out)@ == old(out)@ + decimal2(n as nat),
{
    if n < 10 {
        push_char(out, '0');
    }
    push_decimal(out, n);
    assert(out@ =~= old(out)@ + decimal2(n as nat));
}

pub fn push_signed(out: &mut String, n: i64)
    requires
        n > i64::MIN,
    ensures
        final(out)@ == old(out)@ + signed_decimal(n as int),
{
    if n < 0 {
        push_char(out, '-');
        push_decimal(out, (-n) as u64);
    } else {
        push_decimal(out, n as u64);
    }
    assert(out@ =~= old(out)@ + signed_decimal(n as int));
}

pub fn decimal_string(n: u64) -> (r: String)
    ensures
        r@ == decimal(n as nat),
{
    let mut out = String::new();
    push_decimal(&mut out, n);
    assert(out@ =~= decimal(n as nat));
    out
}

/// A signed number written with two characters lies between -9 and 99.
pub proof fn lemma_short_signed_bound(s: Seq<char>)
    requires
        s.len() == 2,
    ensures
        parse_signed(s, i32::MIN as int, i32::MAX as int) matches Some(v) ==> -9 <= v <= 99,
{
    reveal_with_fuel(digits_value, 3);
    let d = s.drop_first();
    if d.len() == 1 {
        assert(d.drop_last().len() == 0);
    }
    assert(s.drop_last().drop_last().len() == 0);
}

} // verus!
