//! Numbers that are written in decimal read back.

use vstd::arithmetic::div_mod::{
    lemma_fundamental_div_mod, lemma_fundamental_div_mod_converse, lemma_mod_bound,
};
use vstd::prelude::*;

use crate::fixed::{Fixed, UNIT};
use crate::layout::scale_text;
use crate::number::{
    all_digits, clamp_i64, digit_char, digits_value, int_text, is_digit, lemma_digits_split,
    lemma_pow10_pos, lemma_pow10_sum, nat_text, padded, parse_decimal, parse_int, parse_nanos,
    parse_nat, pow10, ratio_text, round_half_even, run_end,
};
use crate::text::{ends_with, strip_end};

verus! {

proof fn lemma_digit(d: int)
    requires
        0 <= d < 10,
    ensures
        is_digit(digit_char(d)),
        digit_char(d) as u32 == 48 + d,
{
}

proof fn lemma_push_digit(s: Seq<char>, c: char)
    requires
        all_digits(s),
        is_digit(c),
    ensures
        all_digits(s.push(c)),
        digits_value(s.push(c)) == digits_value(s) * 10 + (c as u32 - 48),
{
    assert(s.push(c).drop_last() =~= s);
    assert forall|i: int| 0 <= i < s.push(c).len() implies is_digit(#[trigger] s.push(c)[i]) by {
        if i < s.len() {
            assert(is_digit(s[i]));
        }
    }
}

/// A natural number reads back.
pub proof fn naturals_read_back(n: nat)
    ensures
        nat_text(n).len() > 0,
        all_digits(nat_text(n)),
        digits_value(nat_text(n)) == n,
        parse_nat(nat_text(n)) == Some(n),
    decreases n,
{
    if n < 10 {
        lemma_digit(n as int);
        lemma_push_digit(Seq::empty(), digit_char(n as int));
        assert(nat_text(n) =~= Seq::<char>::empty().push(digit_char(n as int)));
    } else {
        naturals_read_back(n / 10);
        lemma_digit((n % 10) as int);
        lemma_push_digit(nat_text(n / 10), digit_char((n % 10) as int));
    }
}

/// An integer reads back.
pub proof fn integers_read_back(n: int)
    ensures
        parse_int(int_text(n)) == Some(n),
        int_text(n).len() > 0,
        forall|i: int|
            0 <= i < int_text(n).len() ==> is_digit(#[trigger] int_text(n)[i]) || int_text(n)[i]
                == '-',
        is_digit(int_text(n).last()),
{
    let s = int_text(n);
    if n < 0 {
        let t = nat_text((-n) as nat);
        naturals_read_back((-n) as nat);
        assert(s.skip(1) =~= t);
        assert forall|i: int| 0 <= i < s.len() implies is_digit(#[trigger] s[i]) || s[i] == '-' by {
            if i > 0 {
                assert(s[i] == t[i - 1]);
            }
        }
        assert(s.last() == t.last());
    } else {
        naturals_read_back(n as nat);
        assert(is_digit(s[0]));
    }
}

proof fn lemma_padded(n: nat, w: nat)
    ensures
        padded(n, w).len() == w,
        all_digits(padded(n, w)),
        digits_value(padded(n, w)) == n % pow10(w),
    decreases w,
{
    if w > 0 {
        let v = (w - 1) as nat;
        lemma_padded(n / 10, v);
        lemma_digit((n % 10) as int);
        lemma_push_digit(padded(n / 10, v), digit_char((n % 10) as int));
        let p = pow10(v);
        lemma_pow10_pos(v);
        let a = n / 10;
        let r = a % p;
        let q = a / p;
        lemma_fundamental_div_mod(a as int, p as int);
        lemma_fundamental_div_mod(n as int, 10);
        lemma_mod_bound(a as int, p as int);
        assert(n == q * (10 * p) + (10 * r + n % 10)) by (nonlinear_arith)
            requires
                a == p * q + r,
                n == 10 * a + n % 10,
        ;
        lemma_fundamental_div_mod_converse(
            n as int,
            (10 * p) as int,
            q as int,
            (10 * r + n % 10) as int,
        );
    }
}

proof fn lemma_run(s: Seq<char>, i: int, e: int)
    requires
        0 <= i <= e <= s.len(),
        forall|j: int| i <= j < e ==> is_digit(#[trigger] s[j]),
        e < s.len() ==> !is_digit(s[e]),
    ensures
        run_end(s, i) == e,
    decreases e - i,
{
    if i < e {
        assert(is_digit(s[i]));
        lemma_run(s, i + 1, e);
    }
}

/// Digits, a point, and digits behind it.
pub open spec fn pointed(whole: Seq<char>, fraction: Seq<char>) -> Seq<char> {
    whole + seq!['.'] + fraction
}

/// The billionths that digits with a fraction stand for.
proof fn lemma_pointed(whole: Seq<char>, fraction: Seq<char>)
    requires
        whole.len() > 0,
        all_digits(whole),
        all_digits(fraction),
        fraction.len() <= 9,
    ensures
        parse_nanos(pointed(whole, fraction)) == Some(
            clamp_i64(
                (digits_value(whole + fraction) * pow10((9 - fraction.len()) as nat)) as int,
            ),
        ),
{
    let s = pointed(whole, fraction);
    let k = whole.len() as int;
    assert forall|j: int| 0 <= j < k implies is_digit(#[trigger] s[j]) by {
        assert(s[j] == whole[j]);
    }
    assert(s[k] == '.');
    assert forall|j: int| k + 1 <= j < s.len() implies is_digit(#[trigger] s[j]) by {
        assert(s[j] == fraction[j - k - 1]);
    }
    assert(is_digit(s[0]));
    lemma_run(s, 0, k);
    lemma_run(s, k + 1, s.len() as int);
    assert(s.subrange(0, k) =~= whole);
    assert(s.subrange(k + 1, s.len() as int) =~= fraction);
    assert(parse_decimal(s).unwrap().exponent == -(fraction.len() as int));
}

/// The billionths that digits alone stand for.
proof fn lemma_unpointed(whole: Seq<char>)
    requires
        whole.len() > 0,
        all_digits(whole),
    ensures
        parse_nanos(whole) == Some(clamp_i64((digits_value(whole) * pow10(9)) as int)),
{
    assert(is_digit(whole[0]));
    lemma_run(whole, 0, whole.len() as int);
    assert(whole.subrange(0, whole.len() as int) =~= whole);
    assert(whole + Seq::<char>::empty() =~= whole);
    assert(parse_decimal(whole).unwrap().exponent == 0);
}

/// The whole and the fractional digits of a number of billionths to some places.
pub open spec fn units_of(nanos: int, places: nat) -> nat {
    round_half_even((nanos * pow10(places)) as nat, UNIT as nat)
}

proof fn lemma_units(nanos: int, places: nat)
    requires
        0 <= nanos <= i64::MAX,
        places <= 9,
    ensures
        ({
            let w = nat_text(units_of(nanos, places) / pow10(places));
            let f = padded(units_of(nanos, places) % pow10(places), places);
            let step = pow10((9 - places) as nat) as int;
            let back = units_of(nanos, places) * step;
            &&& places > 0 ==> ratio_text(nanos, UNIT as int, places) == pointed(w, f)
            &&& w.len() > 0 && all_digits(w) && all_digits(f) && f.len() == places
            &&& digits_value(w + f) == units_of(nanos, places)
            &&& 2 * (back - nanos) <= step && 2 * (nanos - back) <= step
        }),
{
    let p = pow10(places);
    let u = units_of(nanos, places);
    let step = pow10((9 - places) as nat);
    lemma_pow10_pos(places);
    lemma_pow10_pos((9 - places) as nat);
    let w = nat_text(u / p);
    let f = padded(u % p, places);
    naturals_read_back(u / p);
    lemma_padded(u % p, places);
    lemma_mod_bound(u as int, p as int);
    vstd::arithmetic::div_mod::lemma_small_mod(u % p, p);
    lemma_digits_split(w + f, w.len() as int);
    assert((w + f).take(w.len() as int) =~= w);
    assert((w + f).skip(w.len() as int) =~= f);
    lemma_fundamental_div_mod(u as int, p as int);
    assert((u / p) * p == p * (u / p)) by (nonlinear_arith);
    if places > 0 {
        assert(Seq::<char>::empty() + w + seq!['.'] + f =~= pointed(w, f));
    }
    lemma_pow10_sum(places, (9 - places) as nat);
    assert(pow10(9) == UNIT) by {
        reveal_with_fuel(pow10, 10);
    }
    let top = nanos * p;
    assert(top >= 0) by (nonlinear_arith)
        requires
            nanos >= 0,
            p >= 0,
            top == nanos * p,
    ;
    lemma_fundamental_div_mod(top, UNIT as int);
    lemma_mod_bound(top, UNIT as int);
    let unit = UNIT as int;
    assert(unit * (u as int) - top <= unit / 2 + 0 && top - unit * (u as int) <= unit / 2) by {
        let q = top / unit;
        let r = top % unit;
        assert(u == q || u == q + 1);
        assert(unit * (q + 1) == unit * q + unit) by (nonlinear_arith);
    }
    let back = u * step;
    assert(unit * u == p * back) by (nonlinear_arith)
        requires
            unit == p * step,
            back == u * step,
    ;
    assert(2 * (p * back - nanos * p) <= p * step && 2 * (nanos * p - p * back) <= p * step);
    assert(2 * (back - nanos) <= step && 2 * (nanos - back) <= step) by (nonlinear_arith)
        requires
            2 * (p * back - nanos * p) <= p * step,
            2 * (nanos * p - p * back) <= p * step,
            p > 0,
    ;
}

/// A number of billionths that is not negative, written to some places, reads
/// back to half of the last one.
pub proof fn decimals_read_back(nanos: int, places: nat)
    requires
        0 <= nanos <= i64::MAX,
        0 < places <= 9,
    ensures
        ({
            let text = ratio_text(nanos, UNIT as int, places);
            let step = pow10((9 - places) as nat) as int;
            &&& parse_nanos(text) is Some
            &&& 2 * (parse_nanos(text).unwrap() - nanos) <= step
            &&& 2 * (nanos - parse_nanos(text).unwrap()) <= step
            &&& text.len() > 0
            &&& is_digit(text[0])
            &&& is_digit(text.last())
            &&& forall|i: int| 0 <= i < text.len() ==> is_digit(#[trigger] text[i]) || text[i] == '.'
        }),
{
    let p = pow10(places);
    let u = units_of(nanos, places);
    let w = nat_text(u / p);
    let f = padded(u % p, places);
    lemma_units(nanos, places);
    lemma_pointed(w, f);
    lemma_pow10_pos((9 - places) as nat);
    let text = pointed(w, f);
    assert(text[0] == w[0]);
    assert(text.last() == f.last());
    assert(is_digit(f[f.len() - 1]));
    assert forall|i: int| 0 <= i < text.len() implies is_digit(#[trigger] text[i]) || text[i]
        == '.' by {
        if i < w.len() {
            assert(text[i] == w[i]);
        } else if i > w.len() {
            assert(text[i] == f[i - w.len() - 1]);
        }
    }
}

/// A number without the zeros that its fraction ends with, and without a point
/// that nothing follows.
proof fn lemma_stripped(whole: Seq<char>, fraction: Seq<char>)
    requires
        whole.len() > 0,
        all_digits(whole),
        all_digits(fraction),
        fraction.len() <= 9,
    ensures
        ({
            let t = strip_end(strip_end(pointed(whole, fraction), "0"@), "."@);
            &&& parse_nanos(t) == parse_nanos(pointed(whole, fraction))
            &&& t.len() > 0
            &&& forall|i: int| 0 <= i < t.len() ==> is_digit(#[trigger] t[i]) || t[i] == '.'
        }),
    decreases fraction.len(),
{
    reveal_strlit("0");
    reveal_strlit(".");
    let s = pointed(whole, fraction);
    let n = s.len() as int;
    if fraction.len() > 0 && fraction.last() == '0' {
        let less = fraction.drop_last();
        assert(less.push('0') =~= fraction);
        assert(is_digit(fraction[fraction.len() - 1]));
        assert forall|i: int| 0 <= i < less.len() implies is_digit(#[trigger] less[i]) by {
            assert(is_digit(fraction[i]));
        }
        lemma_stripped(whole, less);
        lemma_pointed(whole, fraction);
        lemma_pointed(whole, less);
        assert(s.subrange(n - 1, n) =~= "0"@);
        assert(ends_with(s, "0"@));
        assert(s.take(n - 1) =~= pointed(whole, less));
        assert((whole + fraction).drop_last() =~= whole + less);
        assert((whole + fraction).last() == '0');
        let v = digits_value(whole + less);
        let p = pow10((9 - fraction.len()) as nat);
        assert(digits_value(whole + fraction) == v * 10);
        assert(pow10((9 - less.len()) as nat) == 10 * p);
        assert((v * 10) * p == v * (10 * p)) by (nonlinear_arith);
        assert(parse_nanos(s) == parse_nanos(pointed(whole, less)));
        assert(strip_end(s, "0"@) == strip_end(pointed(whole, less), "0"@));
    } else {

        assert(!ends_with(s, "0"@)) by {
            if ends_with(s, "0"@) {
                assert(s.subrange(n - 1, n)[0] == s.last());
                assert("0"@[0] == '0');
                if fraction.len() > 0 {
                    assert(s.last() == fraction.last());
                } else {
                    assert(s.last() == '.');
                }
            }
        }
        assert(strip_end(s, "0"@) == s);
        if fraction.len() == 0 {
            assert(s.subrange(n - 1, n) =~= "."@);
            assert(ends_with(s, "."@));
            assert(s.take(n - 1) =~= whole);
            assert(is_digit(whole[whole.len() - 1]));
            assert(!ends_with(whole, "."@)) by {
                if ends_with(whole, "."@) {
                    let m = whole.len() as int;
                    assert(whole.subrange(m - 1, m)[0] == whole.last());
                    assert("."@[0] == '.');
                }
            }
            lemma_pointed(whole, fraction);
            lemma_unpointed(whole);
            assert(whole + fraction =~= whole);
            assert(strip_end(whole, "."@) == whole);
            assert(strip_end(s, "."@) == whole);
            assert(parse_nanos(whole) == parse_nanos(s));
            assert forall|i: int| 0 <= i < whole.len() implies is_digit(#[trigger] whole[i])
                || whole[i] == '.' by {
            }
        } else {
            assert(is_digit(fraction[fraction.len() - 1]));
            assert(s.last() == fraction.last());
            assert(!ends_with(s, "."@)) by {
                if ends_with(s, "."@) {
                    assert(s.subrange(n - 1, n)[0] == s.last());
                    assert("."@[0] == '.');
                }
            }
            assert(strip_end(s, "."@) == s);
            assert forall|i: int| 0 <= i < s.len() implies is_digit(#[trigger] s[i]) || s[i]
                == '.' by {
                if i < whole.len() {
                    assert(s[i] == whole[i]);
                } else if i > whole.len() {
                    assert(s[i] == fraction[i - whole.len() - 1]);
                }
            }
        }
    }
}

/// A scale that is not negative reads back to half a millionth.
pub proof fn scales_read_back(scale: Fixed)
    requires
        scale.nanos >= 0,
    ensures
        parse_nanos(scale_text(scale)) is Some,
        -500 <= parse_nanos(scale_text(scale)).unwrap() - scale.nanos <= 500,
        scale_text(scale).len() > 0,
        forall|i: int|
            0 <= i < scale_text(scale).len() ==> is_digit(#[trigger] scale_text(scale)[i])
                || scale_text(scale)[i] == '.',
{
    let n = scale.nanos as int;
    let u = units_of(n, 6);
    let p = pow10(6);
    let w = nat_text(u / p);
    let f = padded(u % p, 6);
    lemma_units(n, 6);
    decimals_read_back(n, 6);
    lemma_stripped(w, f);
    assert(pow10(3) == 1000) by {
        reveal_with_fuel(pow10, 4);
    }
}

/// What is read is never beyond the range.
pub proof fn lemma_nanos_in_range(s: Seq<char>)
    requires
        parse_nanos(s) is Some,
    ensures
        i64::MIN <= parse_nanos(s).unwrap() <= i64::MAX,
{
}

} // verus!
