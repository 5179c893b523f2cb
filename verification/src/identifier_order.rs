//! Natural ordering of appliance identifiers: numeric identifiers by value,
//! other identifiers case-insensitively.
use crate::text::{chars_of, is_ascii_digit, lower_seq, to_ascii_lower, trim, trim_chars};
use crate::tokens::{all_digits, digit_value, digits_value};
use std::cmp::Ordering;
use vstd::prelude::*;
use vstd::string::StrSliceExecFns;

verus! {

/// Lexicographic order of two character sequences: -1, 0 or 1.
pub open spec fn lex_order(a: Seq<char>, b: Seq<char>) -> int
    decreases a.len(),
{
    if a.len() == 0 {
        if b.len() == 0 {
            0
        } else {
            -1
        }
    } else if b.len() == 0 {
        1
    } else if a[0] < b[0] {
        -1
    } else if a[0] > b[0] {
        1
    } else {
        lex_order(a.drop_first(), b.drop_first())
    }
}

pub open spec fn int_order(a: int, b: int) -> int {
    if a < b {
        -1
    } else if a > b {
        1
    } else {
        0
    }
}

/// The first comparison unless it is a tie.
pub open spec fn then_order(first: int, second: int) -> int {
    if first != 0 {
        first
    } else {
        second
    }
}

pub open spec fn leading_zero_count(s: Seq<char>) -> nat
    decreases s.len(),
{
    if s.len() > 0 && s[0] == '0' {
        1 + leading_zero_count(s.drop_first())
    } else {
        0
    }
}

/// A non-empty run of ASCII digits without its leading zeros (`"0"` when
/// nothing else is left); `None` for anything else.
pub open spec fn digits_normal_form(s: Seq<char>) -> Option<Seq<char>> {
    if s.len() == 0 || !all_digits(s) {
        None
    } else {
        let t = s.skip(leading_zero_count(s) as int);
        if t.len() == 0 {
            Some(seq!['0'])
        } else {
            Some(t)
        }
    }
}

/// The order of two identifiers as -1, 0 or 1.
pub open spec fn identifier_rank(left: Seq<char>, right: Seq<char>) -> int {
    let l = trim(left);
    let r = trim(right);
    match (digits_normal_form(l), digits_normal_form(r)) {
        (Some(ld), Some(rd)) => then_order(
            int_order(ld.len() as int, rd.len() as int),
            then_order(
                lex_order(ld, rd),
                then_order(int_order(l.len() as int, r.len() as int), lex_order(l, r)),
            ),
        ),
        _ => then_order(lex_order(lower_seq(l), lower_seq(r)), lex_order(l, r)),
    }
}

pub open spec fn ordering_of(i: int) -> Ordering {
    if i < 0 {
        Ordering::Less
    } else if i == 0 {
        Ordering::Equal
    } else {
        Ordering::Greater
    }
}

/// Lexicographic order of two character slices.
pub fn lex_order_chars(a: &[char], b: &[char]) -> (r: i8)
    ensures
        r as int == lex_order(a@, b@),
{
    let mut i: usize = 0;
    proof {
        assert(a@.skip(0) =~= a@);
        assert(b@.skip(0) =~= b@);
    }
    while i < a.len() && i < b.len()
        invariant
            0 <= i <= a@.len(),
            i <= b@.len(),
            lex_order(a@, b@) == lex_order(a@.skip(i as int), b@.skip(i as int)),
        decreases a.len() - i,
    {
        proof {
            assert(a@.skip(i as int).drop_first() =~= a@.skip(i + 1));
            assert(b@.skip(i as int).drop_first() =~= b@.skip(i + 1));
        }
        if a[i] < b[i] {
            return -1;
        } else if a[i] > b[i] {
            return 1;
        }
        i = i + 1;
    }
    if i == a.len() {
        if i == b.len() {
            0
        } else {
            -1
        }
    } else {
        1
    }
}

fn lower_vec(s: &[char]) -> (r: Vec<char>)
    ensures
        r@ == lower_seq(s@),
{
    let mut out: Vec<char> = Vec::new();
    let mut i: usize = 0;
    while i < s.len()
        invariant
            0 <= i <= s@.len(),
            out@ == lower_seq(s@.take(i as int)),
        decreases s.len() - i,
    {
        out.push(to_ascii_lower(s[i]));
        i = i + 1;
        assert(out@ =~= lower_seq(s@.take(i as int)));
    }
    assert(s@.take(s@.len() as int) =~= s@);
    out
}

fn digits_only(s: &[char]) -> (r: bool)
    ensures
        r == (s@.len() > 0 && all_digits(s@)),
{
    if s.len() == 0 {
        return false;
    }
    let mut i: usize = 0;
    while i < s.len()
        invariant
            0 <= i <= s@.len(),
            all_digits(s@.take(i as int)),
        decreases s.len() - i,
    {
        if !('0' <= s[i] && s[i] <= '9') {
            proof {
                assert(!crate::text::is_ascii_digit(s@[i as int]));
            }
            return false;
        }
        i = i + 1;
        assert(all_digits(s@.take(i as int)));
    }
    assert(s@.take(s@.len() as int) =~= s@);
    true
}

proof fn lemma_zero_count_is(s: Seq<char>, i: int)
    requires
        0 <= i <= s.len(),
        forall|j: int| 0 <= j < i ==> s[j] == '0',
        i == s.len() || s[i] != '0',
    ensures
        leading_zero_count(s) == i,
    decreases i,
{
    if i > 0 {
        lemma_zero_count_is(s.drop_first(), i - 1);
    }
}

/// Start of the normal form of a run of digits, or `None` when all digits are
/// zero (the normal form is then `"0"`).
fn normal_start(s: &[char]) -> (r: Option<usize>)
    requires
        s@.len() > 0,
        all_digits(s@),
    ensures
        r matches Some(i) ==> i < s@.len() && digits_normal_form(s@) == Some(s@.skip(i as int)),
        r is None ==> digits_normal_form(s@) == Some(seq!['0']),
{
    let mut i: usize = 0;
    while i < s.len() && s[i] == '0'
        invariant
            0 <= i <= s@.len(),
            forall|j: int| 0 <= j < i ==> s@[j] == '0',
        decreases s.len() - i,
    {
        i = i + 1;
    }
    proof {
        lemma_zero_count_is(s@, i as int);
    }
    if i == s.len() {
        None
    } else {
        Some(i)
    }
}

/// A numeric identifier without its leading zeros (`"0"` for all zeros);
/// `None` unless the value is a non-empty run of ASCII digits.
pub fn normalized_digits(value: &str) -> (r: Option<&str>)
    ensures
        r matches Some(d) ==> digits_normal_form(value@) == Some(d@),
        r is None ==> digits_normal_form(value@) is None,
{
    let cs = chars_of(value);
    if !digits_only(cs.as_slice()) {
        return None;
    }
    match normal_start(cs.as_slice()) {
        Some(i) => Some(value.substring_char(i, cs.len())),
        None => {
            proof {
                reveal_strlit("0");
                assert("0"@ =~= seq!['0']);
            }
            Some("0")
        },
    }
}

fn normal_form_vec(s: &[char]) -> (r: Option<Vec<char>>)
    ensures
        r matches Some(d) ==> digits_normal_form(s@) == Some(d@),
        r is None ==> digits_normal_form(s@) is None,
{
    if !digits_only(s) {
        return None;
    }
    match normal_start(s) {
        Some(i) => Some(vstd::slice::slice_to_vec(vstd::slice::slice_subrange(s, i, s.len()))),
        None => {
            let mut v: Vec<char> = Vec::new();
            v.push('0');
            proof {
                assert(v@ =~= seq!['0']);
            }
            Some(v)
        },
    }
}

fn len_order(a: usize, b: usize) -> (r: i8)
    ensures
        r as int == int_order(a as int, b as int),
{
    if a < b {
        -1
    } else if a > b {
        1
    } else {
        0
    }
}

/// The order of two identifiers as -1, 0 or 1.
pub fn identifier_rank_of(left: &str, right: &str) -> (r: i8)
    ensures
        r as int == identifier_rank(left@, right@),
{
    let lc = chars_of(left);
    let rc = chars_of(right);
    let l = trim_chars(lc.as_slice());
    let r = trim_chars(rc.as_slice());
    match (normal_form_vec(l), normal_form_vec(r)) {
        (Some(ld), Some(rd)) => {
            let a = len_order(ld.len(), rd.len());
            if a != 0 {
                return a;
            }
            let b = lex_order_chars(ld.as_slice(), rd.as_slice());
            if b != 0 {
                return b;
            }
            let c = len_order(l.len(), r.len());
            if c != 0 {
                return c;
            }
            lex_order_chars(l, r)
        },
        _ => {
            let ll = lower_vec(l);
            let rl = lower_vec(r);
            let a = lex_order_chars(ll.as_slice(), rl.as_slice());
            if a != 0 {
                return a;
            }
            lex_order_chars(l, r)
        },
    }
}

/// Compares numeric appliance IDs by value and other IDs case-insensitively.
pub fn compare_identifiers(left: &str, right: &str) -> (r: Ordering)
    ensures
        r == ordering_of(identifier_rank(left@, right@)),
{
    let rank = identifier_rank_of(left, right);
    if rank < 0 {
        Ordering::Less
    } else if rank == 0 {
        Ordering::Equal
    } else {
        Ordering::Greater
    }
}

pub proof fn lemma_lex_antisymmetric(a: Seq<char>, b: Seq<char>)
    ensures
        lex_order(a, b) == -lex_order(b, a),
        (lex_order(a, b) == 0) == (a == b),
        -1 <= lex_order(a, b) <= 1,
    decreases a.len(),
{
    if a.len() > 0 && b.len() > 0 && a[0] == b[0] {
        lemma_lex_antisymmetric(a.drop_first(), b.drop_first());
        if a.drop_first() == b.drop_first() {
            assert(a =~= seq![a[0]] + a.drop_first());
            assert(b =~= seq![b[0]] + b.drop_first());
        }
    }
    if a.len() == 0 && b.len() == 0 {
        assert(a =~= b);
    }
}

/// Swapping the identifiers reverses their order.
pub proof fn lemma_identifier_order_antisymmetric(left: Seq<char>, right: Seq<char>)
    ensures
        identifier_rank(left, right) == -identifier_rank(right, left),
{
    let l = trim(left);
    let r = trim(right);
    lemma_lex_antisymmetric(l, r);
    lemma_lex_antisymmetric(lower_seq(l), lower_seq(r));
    match (digits_normal_form(l), digits_normal_form(r)) {
        (Some(ld), Some(rd)) => {
            lemma_lex_antisymmetric(ld, rd);
        },
        _ => {},
    }
}

/// Two identifiers are equal in the order exactly when they are equal once trimmed.
pub proof fn lemma_identifier_order_equal(left: Seq<char>, right: Seq<char>)
    ensures
        (identifier_rank(left, right) == 0) == (trim(left) == trim(right)),
{
    let l = trim(left);
    let r = trim(right);
    lemma_lex_antisymmetric(l, r);
    lemma_lex_antisymmetric(lower_seq(l), lower_seq(r));
    match (digits_normal_form(l), digits_normal_form(r)) {
        (Some(ld), Some(rd)) => {
            lemma_lex_antisymmetric(ld, rd);
        },
        _ => {},
    }
}

/// The order of two identifiers is -1, 0 or 1.
pub proof fn lemma_identifier_rank_range(left: Seq<char>, right: Seq<char>)
    ensures
        -1 <= identifier_rank(left, right) <= 1,
{
    let l = trim(left);
    let r = trim(right);
    lemma_lex_antisymmetric(l, r);
    lemma_lex_antisymmetric(lower_seq(l), lower_seq(r));
    match (digits_normal_form(l), digits_normal_form(r)) {
        (Some(ld), Some(rd)) => {
            lemma_lex_antisymmetric(ld, rd);
        },
        _ => {},
    }
}

pub open spec fn pow10(n: nat) -> int
    decreases n,
{
    if n == 0 {
        1
    } else {
        10 * pow10((n - 1) as nat)
    }
}

proof fn lemma_pow10_positive(n: nat)
    ensures
        pow10(n) >= 1,
    decreases n,
{
    if n > 0 {
        lemma_pow10_positive((n - 1) as nat);
    }
}

proof fn lemma_pow10_monotone(a: nat, b: nat)
    requires
        a <= b,
    ensures
        pow10(a) <= pow10(b),
    decreases b,
{
    if a < b {
        lemma_pow10_monotone(a, (b - 1) as nat);
        lemma_pow10_positive((b - 1) as nat);
    }
}

proof fn lemma_digit_range(s: Seq<char>, i: int)
    requires
        all_digits(s),
        0 <= i < s.len(),
    ensures
        0 <= digit_value(s[i]) <= 9,
{
    assert(is_ascii_digit(s[i]));
}

/// A run of `n` digits is worth less than `10^n`.
proof fn lemma_digits_bound(s: Seq<char>)
    requires
        all_digits(s),
    ensures
        0 <= digits_value(s) < pow10(s.len()),
    decreases s.len(),
{
    if s.len() > 0 {
        let p = s.drop_last();
        lemma_digits_bound(p);
        lemma_digit_range(s, s.len() - 1);
        let v = digits_value(p);
        let d = digit_value(s.last());
        let q = pow10(p.len());
        assert(pow10(s.len()) == 10 * q);
        assert(0 <= v * 10 + d < 10 * q) by (nonlinear_arith)
            requires
                0 <= v < q,
                0 <= d <= 9,
        ;
    }
}

/// The value of a run of digits read from its first digit.
proof fn lemma_digits_front(s: Seq<char>)
    requires
        all_digits(s),
        s.len() >= 1,
    ensures
        digits_value(s) == digit_value(s[0]) * pow10((s.len() - 1) as nat) + digits_value(s.drop_first()),
    decreases s.len(),
{
    if s.len() == 1 {
        assert(s.drop_first().len() == 0);
        assert(s.drop_last().len() == 0);
        assert(digits_value(s.drop_last()) == 0);
        assert(s.last() == s[0]);
        assert(digits_value(s) == digits_value(s.drop_last()) * 10 + digit_value(s.last()));
        assert(digits_value(s) == digit_value(s[0]));
        assert(pow10(0) == 1);
    } else {
        let p = s.drop_last();
        lemma_digits_front(p);
        assert(digits_value(s) == digits_value(p) * 10 + digit_value(s.last()));
        assert(s.drop_first().len() > 0);
        assert(digits_value(s.drop_first()) == digits_value(s.drop_first().drop_last()) * 10 + digit_value(s.drop_first().last()));
        assert(s.drop_first().drop_last() =~= p.drop_first());
        assert(s.drop_first().last() == s.last());
        assert(p[0] == s[0]);
        let d0 = digit_value(s[0]);
        let q = pow10((p.len() - 1) as nat);
        let vp = digits_value(p.drop_first());
        let dl = digit_value(s.last());
        assert(pow10((s.len() - 1) as nat) == 10 * q);
        assert((d0 * q + vp) * 10 + dl == d0 * (10 * q) + (vp * 10 + dl)) by (nonlinear_arith);
    }
}

/// Leading zeros do not change the value of a run of digits.
proof fn lemma_leading_zeros_value(s: Seq<char>)
    requires
        all_digits(s),
    ensures
        leading_zero_count(s) <= s.len(),
        digits_value(s) == digits_value(s.skip(leading_zero_count(s) as int)),
        leading_zero_count(s) < s.len() ==> s[leading_zero_count(s) as int] != '0',
    decreases s.len(),
{
    if s.len() > 0 && s[0] == '0' {
        let t = s.drop_first();
        assert forall|i: int| 0 <= i < t.len() implies is_ascii_digit(#[trigger] t[i]) by {
            assert(t[i] == s[i + 1]);
        }
        lemma_leading_zeros_value(t);
        lemma_digits_front(s);
        assert(s.skip(leading_zero_count(s) as int) =~= t.skip(leading_zero_count(t) as int));
        assert(s[leading_zero_count(s) as int] == t[leading_zero_count(t) as int] || leading_zero_count(t) >= t.len());
    } else {
        assert(s.skip(0) =~= s);
    }
}

/// Equal-length runs of digits compare lexicographically as their values compare.
proof fn lemma_equal_length_order(a: Seq<char>, b: Seq<char>)
    requires
        all_digits(a),
        all_digits(b),
        a.len() == b.len(),
    ensures
        lex_order(a, b) == int_order(digits_value(a), digits_value(b)),
    decreases a.len(),
{
    if a.len() > 0 {
        let ta = a.drop_first();
        let tb = b.drop_first();
        assert forall|i: int| 0 <= i < ta.len() implies is_ascii_digit(#[trigger] ta[i]) by {
            assert(ta[i] == a[i + 1]);
        }
        assert forall|i: int| 0 <= i < tb.len() implies is_ascii_digit(#[trigger] tb[i]) by {
            assert(tb[i] == b[i + 1]);
        }
        lemma_equal_length_order(ta, tb);
        lemma_digits_front(a);
        lemma_digits_front(b);
        lemma_digits_bound(ta);
        lemma_digits_bound(tb);
        lemma_digit_range(a, 0);
        lemma_digit_range(b, 0);
        let p = pow10((a.len() - 1) as nat);
        let da = digit_value(a[0]);
        let db = digit_value(b[0]);
        let va = digits_value(ta);
        let vb = digits_value(tb);
        if da < db {
            assert(da * p + va < db * p + vb) by (nonlinear_arith)
                requires
                    da + 1 <= db,
                    0 <= va < p,
                    0 <= vb,
            ;
        } else if da > db {
            assert(da * p + va > db * p + vb) by (nonlinear_arith)
                requires
                    db + 1 <= da,
                    0 <= vb < p,
                    0 <= va,
            ;
        } else {
            assert(a[0] == b[0]);
        }
    } else {
        assert(a.len() == 0 && b.len() == 0);
    }
}

/// Numeric identifiers are ordered by their value: whatever their leading
/// zeros, one worth less comes first.
pub proof fn lemma_numeric_identifiers_by_value(left: Seq<char>, right: Seq<char>)
    requires
        trim(left).len() > 0,
        all_digits(trim(left)),
        trim(right).len() > 0,
        all_digits(trim(right)),
        digits_value(trim(left)) < digits_value(trim(right)),
    ensures
        identifier_rank(left, right) == -1,
        identifier_rank(right, left) == 1,
{
    let l = trim(left);
    let r = trim(right);
    lemma_leading_zeros_value(l);
    lemma_leading_zeros_value(r);
    let sl = l.skip(leading_zero_count(l) as int);
    let sr = r.skip(leading_zero_count(r) as int);
    let ld = if sl.len() == 0 { seq!['0'] } else { sl };
    let rd = if sr.len() == 0 { seq!['0'] } else { sr };
    assert(digits_normal_form(l) == Some(ld));
    assert(digits_normal_form(r) == Some(rd));
    assert forall|i: int| 0 <= i < ld.len() implies is_ascii_digit(#[trigger] ld[i]) by {
        if sl.len() > 0 {
            assert(ld[i] == l[i + leading_zero_count(l)]);
        }
    }
    assert forall|i: int| 0 <= i < rd.len() implies is_ascii_digit(#[trigger] rd[i]) by {
        if sr.len() > 0 {
            assert(rd[i] == r[i + leading_zero_count(r)]);
        }
    }
    assert(digits_value(ld) == digits_value(l)) by {
        if sl.len() == 0 {
            assert(seq!['0'].drop_last().len() == 0);
            assert(digits_value(seq!['0']) == digits_value(seq!['0'].drop_last()) * 10 + digit_value('0'));
            assert(digits_value(sl) == 0);
        } else {
            assert(ld == sl);
        }
    }
    assert(digits_value(rd) == digits_value(r)) by {
        if sr.len() == 0 {
            assert(seq!['0'].drop_last().len() == 0);
            assert(digits_value(seq!['0']) == digits_value(seq!['0'].drop_last()) * 10 + digit_value('0'));
            assert(digits_value(sr) == 0);
        } else {
            assert(rd == sr);
        }
    }
    lemma_digits_bound(ld);
    lemma_digits_bound(rd);
    if ld.len() > rd.len() {
        assert(ld[0] != '0');
        lemma_digits_front(ld);
        lemma_digit_range(ld, 0);
        lemma_pow10_monotone(rd.len(), (ld.len() - 1) as nat);
        let dv = digits_value(ld.drop_first());
        assert forall|i: int| 0 <= i < ld.drop_first().len() implies is_ascii_digit(#[trigger] ld.drop_first()[i]) by {
            assert(ld.drop_first()[i] == ld[i + 1]);
        }
        crate::tokens::lemma_digits_nonneg(ld.drop_first());
        let p = pow10((ld.len() - 1) as nat);
        assert(digit_value(ld[0]) >= 1);
        assert(digit_value(ld[0]) * p + dv >= p) by (nonlinear_arith)
            requires
                digit_value(ld[0]) >= 1,
                dv >= 0,
                p >= 0,
        ;
        assert(false);
    } else if ld.len() == rd.len() {
        lemma_equal_length_order(ld, rd);
    }
    lemma_identifier_order_antisymmetric(left, right);
}

} // verus!
