//! Numbers as text: decimal and hexadecimal digits, and the numbers that a
//! text stands for.

use vstd::prelude::*;
use vstd::arithmetic::div_mod::lemma_fundamental_div_mod_converse;

use crate::text::{ascii_lowercase, lowered_ascii, same, slice_string, to_chars};

verus! {

// ---------------------------------------------------------------- models

pub open spec fn digit_char(d: int) -> char {
    ((48 + d) as u8) as char
}

pub open spec fn hex_char(d: int) -> char {
    if d < 10 {
        digit_char(d)
    } else {
        ((87 + d) as u8) as char
    }
}

/// A natural number in decimal.
pub open spec fn nat_text(n: nat) -> Seq<char>
    decreases n,
{
    if n < 10 {
        seq![digit_char(n as int)]
    } else {
        nat_text(n / 10).push(digit_char((n % 10) as int))
    }
}

/// An integer in decimal.
pub open spec fn int_text(n: int) -> Seq<char> {
    if n < 0 {
        seq!['-'] + nat_text((-n) as nat)
    } else {
        nat_text(n as nat)
    }
}

/// The last `width` decimal digits of `n`.
pub open spec fn padded(n: nat, width: nat) -> Seq<char>
    decreases width,
{
    if width == 0 {
        Seq::empty()
    } else {
        padded(n / 10, (width - 1) as nat).push(digit_char((n % 10) as int))
    }
}

pub open spec fn pow10(k: nat) -> nat
    decreases k,
{
    if k == 0 {
        1
    } else {
        10 * pow10((k - 1) as nat)
    }
}

/// `n / d` rounded to the nearest integer, ties to the even one.
pub open spec fn round_half_even(n: nat, d: nat) -> nat {
    let q = n / d;
    let r = n % d;
    if 2 * r > d || (2 * r == d && q % 2 == 1) {
        q + 1
    } else {
        q
    }
}

/// `num / den`, with `den > 0`, to a given number of decimal places.
pub open spec fn ratio_text(num: int, den: int, places: nat) -> Seq<char> {
    let size = if num < 0 {
        -num
    } else {
        num
    };
    let units = round_half_even((size * pow10(places)) as nat, den as nat);
    let whole = nat_text(units / pow10(places));
    let sign = if num < 0 {
        seq!['-']
    } else {
        Seq::<char>::empty()
    };
    if places == 0 {
        sign + whole
    } else {
        sign + whole + seq!['.'] + padded(units % pow10(places), places)
    }
}

pub open spec fn is_digit(c: char) -> bool {
    '0' <= c && c <= '9'
}

/// What a run of decimal digits is worth.
pub open spec fn digits_value(s: Seq<char>) -> nat
    decreases s.len(),
{
    if s.len() == 0 {
        0
    } else {
        digits_value(s.drop_last()) * 10 + (s.last() as u32 - 48) as nat
    }
}

pub open spec fn all_digits(s: Seq<char>) -> bool {
    forall|i: int| 0 <= i < s.len() ==> is_digit(#[trigger] s[i])
}

/// One decimal digit or more.
pub open spec fn parse_nat(s: Seq<char>) -> Option<nat> {
    if s.len() > 0 && all_digits(s) {
        Some(digits_value(s))
    } else {
        None
    }
}

/// An optional sign, then one decimal digit or more.
pub open spec fn parse_int(s: Seq<char>) -> Option<int> {
    if s.len() > 0 && (s[0] == '-' || s[0] == '+') {
        match parse_nat(s.skip(1)) {
            Some(n) => Some(if s[0] == '-' {
                -(n as int)
            } else {
                n as int
            }),
            None => None,
        }
    } else {
        match parse_nat(s) {
            Some(n) => Some(n as int),
            None => None,
        }
    }
}

/// An integer that lies between two bounds.
pub open spec fn parse_between(s: Seq<char>, lo: int, hi: int) -> Option<int> {
    match parse_int(s) {
        Some(n) => if lo <= n <= hi {
            Some(n)
        } else {
            None
        },
        None => None,
    }
}

/// A number written in decimal: the value of `digits`, shifted by `exponent`
/// decimal places to the left, with a sign.
#[verifier::ext_equal]
pub ghost struct Decimal {
    pub negative: bool,
    pub digits: Seq<char>,
    pub exponent: int,
}

/// Where the run of digits that starts at `i` ends.
pub open spec fn run_end(s: Seq<char>, i: int) -> int
    decreases s.len() - i,
{
    if 0 <= i < s.len() && is_digit(s[i]) {
        run_end(s, i + 1)
    } else {
        i
    }
}

/// An optional sign, digits with at most one point among or around them, and
/// an optional exponent.
pub open spec fn parse_decimal(s: Seq<char>) -> Option<Decimal> {
    let signed = s.len() > 0 && (s[0] == '-' || s[0] == '+');
    let start = if signed {
        1int
    } else {
        0int
    };
    let a = run_end(s, start);
    let dot = a < s.len() && s[a] == '.';
    let b = if dot {
        run_end(s, a + 1)
    } else {
        a
    };
    let fraction = if dot {
        s.subrange(a + 1, b)
    } else {
        Seq::<char>::empty()
    };
    let digits = s.subrange(start, a) + fraction;
    let shift = -(fraction.len() as int);
    let negative = signed && s[0] == '-';
    if digits.len() == 0 {
        None
    } else if b == s.len() {
        Some(Decimal { negative, digits, exponent: shift })
    } else if s[b] == 'e' || s[b] == 'E' {
        match parse_int(s.skip(b + 1)) {
            Some(e) => Some(Decimal { negative, digits, exponent: shift + e }),
            None => None,
        }
    } else {
        None
    }
}

/// `m * 10^k` rounded to the nearest integer, ties to the even one.
pub open spec fn shifted(m: nat, k: int) -> nat {
    if k >= 0 {
        m * pow10(k as nat)
    } else {
        round_half_even(m, pow10((-k) as nat))
    }
}

/// `n` brought into the range of an `i64`.
pub open spec fn clamp_i64(n: int) -> int {
    if n < i64::MIN {
        i64::MIN as int
    } else if n > i64::MAX {
        i64::MAX as int
    } else {
        n
    }
}

/// A number written as a word, whatever its case, with or without a sign: an
/// infinity is as far out as an `i64` goes, and what is no number counts for
/// nothing.
pub open spec fn parse_word(s: Seq<char>) -> Option<int> {
    let signed = s.len() > 0 && (s[0] == '-' || s[0] == '+');
    let word = ascii_lowercase(
        if signed {
            s.skip(1)
        } else {
            s
        },
    );
    if word == "inf"@ || word == "infinity"@ {
        Some(
            if signed && s[0] == '-' {
                i64::MIN as int
            } else {
                i64::MAX as int
            },
        )
    } else if word == "nan"@ {
        Some(0)
    } else {
        None
    }
}

/// The billionths that a number stands for, as far as an `i64` goes.
pub open spec fn parse_nanos(s: Seq<char>) -> Option<int> {
    match parse_decimal(s) {
        Some(d) => {
            let size = shifted(digits_value(d.digits), d.exponent + 9) as int;
            Some(
                clamp_i64(
                    if d.negative {
                        -size
                    } else {
                        size
                    },
                ),
            )
        },
        None => parse_word(s),
    }
}

// ---------------------------------------------------------------- lemmas

pub proof fn lemma_pow10_pos(k: nat)
    ensures
        pow10(k) > 0,
    decreases k,
{
    if k > 0 {
        lemma_pow10_pos((k - 1) as nat);
    }
}

pub proof fn lemma_pow10_le(a: nat, b: nat)
    requires
        a <= b,
    ensures
        pow10(a) <= pow10(b),
    decreases b,
{
    if a < b {
        lemma_pow10_le(a, (b - 1) as nat);
        lemma_pow10_pos((b - 1) as nat);
    }
}

pub proof fn lemma_pow10_sum(a: nat, b: nat)
    ensures
        pow10(a + b) == pow10(a) * pow10(b),
    decreases a,
{
    if a == 0 {
        assert(pow10(0) * pow10(b) == pow10(b)) by (nonlinear_arith)
            requires
                pow10(0) == 1,
        ;
    } else {
        lemma_pow10_sum((a - 1) as nat, b);
        assert((a + b - 1) as nat == (a - 1) as nat + b);
        assert(10 * (pow10((a - 1) as nat) * pow10(b)) == (10 * pow10((a - 1) as nat)) * pow10(b))
            by (nonlinear_arith);
    }
}

proof fn lemma_digits_bound(s: Seq<char>)
    requires
        all_digits(s),
    ensures
        digits_value(s) < pow10(s.len()),
    decreases s.len(),
{
    if s.len() > 0 {
        assert(is_digit(s[s.len() - 1]));
        assert forall|i: int| 0 <= i < s.drop_last().len() implies is_digit(
            #[trigger] s.drop_last()[i],
        ) by {
            assert(is_digit(s[i]));
        }
        lemma_digits_bound(s.drop_last());
    }
}

/// A number's leading digits count for a power of ten each.
pub proof fn lemma_digits_split(s: Seq<char>, t: int)
    requires
        0 <= t <= s.len(),
    ensures
        digits_value(s) == digits_value(s.take(t)) * pow10((s.len() - t) as nat) + digits_value(
            s.skip(t),
        ),
    decreases s.len() - t,
{
    if t == s.len() {
        assert(s.take(t) =~= s);
        assert(s.skip(t) =~= Seq::<char>::empty());
        assert(digits_value(s.skip(t)) == 0);
        let all = digits_value(s);
        assert(all * pow10(0) == all) by (nonlinear_arith)
            requires
                pow10(0) == 1,
        ;
    } else {
        let body = s.drop_last();
        lemma_digits_split(body, t);
        assert(body.take(t) =~= s.take(t));
        assert(s.skip(t).drop_last() =~= body.skip(t));
        assert(s.skip(t).last() == s.last());
        let p = pow10((body.len() - t) as nat);
        let q = digits_value(s.take(t));
        assert((s.len() - t - 1) as nat == (body.len() - t) as nat);
        assert(pow10((s.len() - t) as nat) == 10 * p);
        assert((q * p) * 10 == q * (10 * p)) by (nonlinear_arith);
    }
}

proof fn lemma_all_digits_sub(s: Seq<char>, a: int, b: int)
    requires
        all_digits(s),
        0 <= a <= b <= s.len(),
    ensures
        all_digits(s.subrange(a, b)),
{
    assert forall|i: int| 0 <= i < s.subrange(a, b).len() implies is_digit(
        #[trigger] s.subrange(a, b)[i],
    ) by {
        assert(is_digit(s[a + i]));
    }
}

pub proof fn lemma_run_end(s: Seq<char>, i: int)
    requires
        0 <= i <= s.len(),
    ensures
        i <= run_end(s, i) <= s.len(),
        run_end(s, i) < s.len() ==> !is_digit(s[run_end(s, i)]),
        all_digits(s.subrange(i, run_end(s, i))),
    decreases s.len() - i,
{
    if i < s.len() && is_digit(s[i]) {
        lemma_run_end(s, i + 1);
        let e = run_end(s, i);
        assert forall|j: int| 0 <= j < s.subrange(i, e).len() implies is_digit(
            #[trigger] s.subrange(i, e)[j],
        ) by {
            if j > 0 {
                assert(s.subrange(i + 1, e)[j - 1] == s[i + j]);
            }
        }
    }
}

// ---------------------------------------------------------------- functions

fn digit(d: u8) -> (r: char)
    requires
        d < 10,
    ensures
        r == digit_char(d as int),
{
    (48 + d) as char
}

/// A natural number in decimal.
pub fn nat_string(n: u128) -> (r: String)
    ensures
        r@ == nat_text(n as nat),
    decreases n,
{
    if n < 10 {
        let mut s = String::new();
        s.push(digit(n as u8));
        assert(s@ =~= nat_text(n as nat));
        s
    } else {
        let mut s = nat_string(n / 10);
        s.push(digit((n % 10) as u8));
        s
    }
}

/// An integer in decimal.
pub fn int_string(n: i64) -> (r: String)
    ensures
        r@ == int_text(n as int),
{
    if n < 0 {
        let mut s = String::new();
        s.push('-');
        let size: u128 = (-(n as i128)) as u128;
        s.append(nat_string(size).as_str());
        assert(s@ =~= int_text(n as int));
        s
    } else {
        nat_string(n as u128)
    }
}

fn padded_string(n: u128, width: u8) -> (r: String)
    ensures
        r@ == padded(n as nat, width as nat),
    decreases width,
{
    if width == 0 {
        let s = String::new();
        assert(s@ =~= padded(n as nat, 0));
        s
    } else {
        let mut s = padded_string(n / 10, width - 1);
        s.push(digit((n % 10) as u8));
        s
    }
}

/// A byte as two hexadecimal digits in lower case.
pub fn hex_byte(b: u8) -> (r: (char, char))
    ensures
        r.0 == hex_char((b / 16) as int),
        r.1 == hex_char((b % 16) as int),
{
    let h: u8 = b / 16;
    let l: u8 = b % 16;
    (
        if h < 10 {
            digit(h)
        } else {
            (87 + h) as char
        },
        if l < 10 {
            digit(l)
        } else {
            (87 + l) as char
        },
    )
}

fn power(k: u8) -> (r: u128)
    requires
        k <= 9,
    ensures
        r == pow10(k as nat),
        1 <= r <= 1_000_000_000,
    decreases k,
{
    proof {
        reveal_with_fuel(pow10, 10);
    }
    if k == 0 {
        1
    } else {
        10 * power(k - 1)
    }
}

/// `n / d` rounded to the nearest integer, ties to the even one.
pub fn rounded_half_even(n: u128, d: u128) -> (r: u128)
    requires
        0 < d <= 0x7fff_ffff_ffff_ffff,
        n < u128::MAX,
    ensures
        r == round_half_even(n as nat, d as nat),
{
    let q: u128 = n / d;
    let r: u128 = n % d;
    assert(q <= n) by (nonlinear_arith)
        requires
            q == n / d,
            d > 0,
    ;
    if 2 * r > d || (2 * r == d && q % 2 == 1) {
        q + 1
    } else {
        q
    }
}

/// `num / den` to a given number of decimal places.
pub fn ratio_string(num: i64, den: i64, places: u8) -> (r: String)
    requires
        den > 0,
        places <= 9,
    ensures
        r@ == ratio_text(num as int, den as int, places as nat),
{
    let size: u128 = if num < 0 {
        (-(num as i128)) as u128
    } else {
        num as u128
    };
    let p: u128 = power(places);
    assert(size * p <= 0x1_0000_0000_0000_0000 * 1_000_000_000) by (nonlinear_arith)
        requires
            0 <= size <= 0x1_0000_0000_0000_0000,
            0 <= p <= 1_000_000_000,
    ;
    assert(size * p >= 0) by (nonlinear_arith)
        requires
            0 <= size,
            0 <= p,
    ;
    let units: u128 = rounded_half_even(size * p, den as u128);
    let mut s = String::new();
    if num < 0 {
        s.push('-');
    }
    s.append(nat_string(units / p).as_str());
    if places > 0 {
        s.push('.');
        s.append(padded_string(units % p, places).as_str());
    }
    assert(s@ =~= ratio_text(num as int, den as int, places as nat));
    s
}

pub fn is_digit_char(c: char) -> (r: bool)
    ensures
        r == is_digit(c),
{
    '0' <= c && c <= '9'
}

/// The value of the digits `v[from..to]`, at most `cap`.
fn capped_value(v: &Vec<char>, from: usize, to: usize, cap: u128) -> (r: u128)
    requires
        from <= to <= v@.len(),
        all_digits(v@.subrange(from as int, to as int)),
        cap <= 1_000_000_000_000_000_000_000_000_000_000,
    ensures
        r <= cap,
        r == cap || r == digits_value(v@.subrange(from as int, to as int)),
        r == cap ==> digits_value(v@.subrange(from as int, to as int)) >= cap,
{
    let mut acc: u128 = 0;
    let mut i: usize = from;
    assert(v@.subrange(from as int, from as int) =~= Seq::<char>::empty());
    if cap == 0 {
        return 0;
    }
    while i < to
        invariant
            from <= i <= to <= v@.len(),
            all_digits(v@.subrange(from as int, to as int)),
            cap <= 1_000_000_000_000_000_000_000_000_000_000,
            acc <= cap,
            acc == cap || acc == digits_value(v@.subrange(from as int, i as int)),
            acc == cap ==> digits_value(v@.subrange(from as int, i as int)) >= cap,
        decreases to - i,
    {
        assert(v@.subrange(from as int, i + 1).drop_last() =~= v@.subrange(from as int, i as int));
        assert(is_digit(v@.subrange(from as int, to as int)[i - from]));
        let d: u128 = (v[i] as u32 - 48) as u128;
        let next: u128 = acc * 10 + d;
        acc = if next < cap {
            next
        } else {
            cap
        };
        i = i + 1;
    }
    acc
}

/// The value of what follows `from`, at most `cap`, where that is a run of digits.
fn parse_capped(v: &Vec<char>, from: usize, cap: u128) -> (r: Option<u128>)
    requires
        from <= v@.len(),
        cap <= 1_000_000_000_000_000_000_000_000_000_000,
    ensures
        match (r, parse_nat(v@.skip(from as int))) {
            (Some(n), Some(m)) => n <= cap && (n == cap || n == m) && (n == cap ==> m >= cap),
            (None, None) => true,
            _ => false,
        },
{
    if from == v.len() {
        return None;
    }
    let mut i: usize = from;
    while i < v.len()
        invariant
            from <= i <= v@.len(),
            forall|j: int| from <= j < i ==> is_digit(#[trigger] v@[j]),
        decreases v@.len() - i,
    {
        if !is_digit_char(v[i]) {
            assert(!is_digit(v@.skip(from as int)[i - from]));
            return None;
        }
        i = i + 1;
    }
    assert(v@.subrange(from as int, v@.len() as int) =~= v@.skip(from as int));
    Some(capped_value(v, from, v.len(), cap))
}

/// The integer that follows `from`, brought between `-cap` and `cap`.
fn parse_signed_capped(v: &Vec<char>, from: usize, cap: u128) -> (r: Option<i128>)
    requires
        from <= v@.len(),
        cap <= 1_000_000_000_000_000_000_000_000_000_000,
    ensures
        match (r, parse_int(v@.skip(from as int))) {
            (Some(n), Some(m)) => -cap <= n <= cap && (n == m || (n == cap && m >= cap) || (n
                == -cap && m <= -cap)),
            (None, None) => true,
            _ => false,
        },
{
    if from < v.len() && (v[from] == '-' || v[from] == '+') {
        assert(v@.skip(from as int).skip(1) =~= v@.skip(from + 1));
        match parse_capped(v, from + 1, cap) {
            Some(n) => if v[from] == '-' {
                Some(-(n as i128))
            } else {
                Some(n as i128)
            },
            None => None,
        }
    } else {
        match parse_capped(v, from, cap) {
            Some(n) => Some(n as i128),
            None => None,
        }
    }
}

/// An integer between two bounds that lie around zero.
pub fn parse_bounded(s: &str, lo: i64, hi: i64) -> (r: Option<i64>)
    requires
        lo <= 0 <= hi,
    ensures
        match r {
            Some(n) => parse_between(s@, lo as int, hi as int) == Some(n as int),
            None => parse_between(s@, lo as int, hi as int) is None,
        },
{
    let v = to_chars(s);
    assert(v@.skip(0) =~= v@);
    match parse_signed_capped(&v, 0, 100_000_000_000_000_000_000) {
        Some(n) => if lo as i128 <= n && n <= hi as i128 {
            Some(n as i64)
        } else {
            None
        },
        None => None,
    }
}

fn digits_end(v: &Vec<char>, from: usize) -> (r: usize)
    requires
        from <= v@.len(),
    ensures
        r == run_end(v@, from as int),
        from <= r <= v@.len(),
{
    let mut i: usize = from;
    while i < v.len() && is_digit_char(v[i])
        invariant
            from <= i <= v@.len(),
            run_end(v@, i as int) == run_end(v@, from as int),
        decreases v@.len() - i,
    {
        i = i + 1;
    }
    i
}

/// `m * 10^k`, at most `cap`.
fn scaled_up(m: u128, k: i128, cap: u128) -> (r: u128)
    requires
        m <= cap,
        0 < cap <= 1_000_000_000_000_000_000_000_000_000_000,
        k >= 0,
    ensures
        r <= cap,
        r == cap || r == m * pow10(k as nat),
        r == cap ==> m * pow10(k as nat) >= cap,
{
    let mut acc: u128 = m;
    let mut j: i128 = 0;
    proof {
        assert(pow10(0) == 1);
        assert(m * 1 == m);
    }
    while j < k && acc > 0 && acc < cap
        invariant
            0 <= j <= k,
            m <= cap,
            0 < cap <= 1_000_000_000_000_000_000_000_000_000_000,
            acc <= cap,
            acc == cap || acc == m * pow10(j as nat),
            acc == cap ==> m * pow10(j as nat) >= cap,
        decreases k - j,
    {
        let next: u128 = acc * 10;
        proof {
            assert(pow10((j + 1) as nat) == 10 * pow10(j as nat));
            assert(m * (10 * pow10(j as nat)) == (m * pow10(j as nat)) * 10) by (nonlinear_arith);
        }
        acc = if next < cap {
            next
        } else {
            cap
        };
        j = j + 1;
    }
    proof {
        lemma_pow10_sum(j as nat, (k - j) as nat);
        lemma_pow10_pos(j as nat);
        lemma_pow10_pos((k - j) as nat);
        let a = pow10(j as nat);
        let b = pow10((k - j) as nat);
        assert(m * (a * b) == (m * a) * b) by (nonlinear_arith);
        if acc == 0 {
            assert(m * a == 0);
            assert((m * a) * b == 0) by (nonlinear_arith)
                requires
                    m * a == 0,
            ;
        } else if acc == cap {
            assert((m * a) * b >= cap) by (nonlinear_arith)
                requires
                    m * a >= cap,
                    b >= 1,
            ;
        }
    }
    acc
}

/// Digits of which the last `drop` count as a fraction, rounded half to even.
fn scaled_down(v: &Vec<char>, drop: usize, cap: u128) -> (r: u128)
    requires
        all_digits(v@),
        0 < drop <= v@.len(),
        0 < cap <= 100_000_000_000_000_000_000,
    ensures
        r <= cap + 1,
        r >= cap || r == round_half_even(digits_value(v@), pow10(drop as nat)),
        r >= cap ==> round_half_even(digits_value(v@), pow10(drop as nat)) >= cap,
{
    let t: usize = v.len() - drop;
    let ghost head = v@.take(t as int);
    let ghost rest = v@.skip(t as int);
    let ghost p = pow10(drop as nat);
    let ghost h = pow10((drop - 1) as nat);
    let ghost m = digits_value(v@);
    let ghost low = digits_value(rest);
    let ghost lower = digits_value(rest.skip(1));
    proof {
        assert(v@.subrange(0, t as int) =~= head);
        assert(v@.subrange(t as int, v@.len() as int) =~= rest);
        lemma_all_digits_sub(v@, 0, t as int);
        lemma_all_digits_sub(v@, t as int, v@.len() as int);
        lemma_digits_split(v@, t as int);
        lemma_digits_bound(rest);
        lemma_digits_split(rest, 1);
        assert(rest.subrange(1, rest.len() as int) =~= rest.skip(1));
        lemma_all_digits_sub(rest, 1, rest.len() as int);
        lemma_digits_bound(rest.skip(1));
        assert(rest.take(1).drop_last() =~= Seq::<char>::empty());
        assert(digits_value(rest.take(1).drop_last()) == 0);
        assert(is_digit(rest[0]));
        assert(digits_value(rest.take(1)) == rest[0] as u32 - 48);
        lemma_pow10_pos(drop as nat);
        lemma_fundamental_div_mod_converse(m as int, p as int, digits_value(head) as int, low as int);
    }
    let q: u128 = capped_value(v, 0, t, cap);
    let first: u32 = v[t] as u32 - 48;
    let mut i: usize = t + 1;
    let mut tail_is_zero = true;
    assert(rest.skip(1).take(0) =~= Seq::<char>::empty());
    assert(digits_value(rest.skip(1).take(0)) == 0);
    while i < v.len()
        invariant
            t < i <= v@.len(),
            rest == v@.skip(t as int),
            all_digits(v@),
            t < v@.len(),
            tail_is_zero == (digits_value(rest.skip(1).take(i - t - 1)) == 0),
        decreases v@.len() - i,
    {
        proof {
            let k = i - t - 1;
            assert(rest.skip(1).take(k + 1).drop_last() =~= rest.skip(1).take(k));
            assert(rest.skip(1).take(k + 1).last() == v@[i as int]);
            assert(is_digit(v@[i as int]));
        }
        if v[i] != '0' {
            tail_is_zero = false;
        }
        i = i + 1;
    }
    assert(rest.skip(1).take(v@.len() - t - 1) =~= rest.skip(1));
    proof {
        assert(low == first * h + lower);
        assert(p == 10 * h);
        if first >= 6 {
            assert(first * h >= 6 * h) by (nonlinear_arith)
                requires
                    first >= 6,
                    h >= 0,
            ;
            lemma_pow10_pos((drop - 1) as nat);
        } else if first <= 4 {
            assert(first * h <= 4 * h) by (nonlinear_arith)
                requires
                    first <= 4,
                    h >= 0,
            ;
        } else {
            assert(first * h == 5 * h);
        }
    }
    if first > 5 || (first == 5 && (!tail_is_zero || q % 2 == 1)) {
        q + 1
    } else {
        q
    }
}

proof fn lemma_shift_far_down(m: nat, n: nat, k: int)
    requires
        m < pow10(n),
        -k > n,
    ensures
        shifted(m, k) == 0,
{
    let p = pow10((-k) as nat);
    lemma_pow10_le(n + 1, (-k) as nat);
    lemma_pow10_pos(n);
    assert(pow10(n + 1) == 10 * pow10(n));
    lemma_fundamental_div_mod_converse(m as int, p as int, 0, m as int);
}

proof fn lemma_shift_far_up(m: nat, k: int)
    requires
        k >= 20,
        m > 0,
    ensures
        shifted(m, k) >= 100_000_000_000_000_000_000,
{
    lemma_pow10_le(20, k as nat);
    assert(pow10(20) == 100_000_000_000_000_000_000) by {
        reveal_with_fuel(pow10, 21);
    }
    let p = pow10(k as nat);
    assert(m * p >= p) by (nonlinear_arith)
        requires
            m >= 1,
            p >= 0,
    ;
}

/// A decimal number as it was read: its digits, how many of them follow the
/// point, and its exponent brought between two far bounds.
struct Read {
    negative: bool,
    digits: Vec<char>,
    fraction: usize,
    exponent: i128,
}

const FAR: i128 = 1_000_000_000_000_000_000_000_000_000_000;

impl Read {
    /// Whether this is what `d` says, but for an exponent out of bounds.
    spec fn reads(self, d: Decimal) -> bool {
        let e = d.exponent + self.fraction;
        &&& self.negative == d.negative
        &&& self.digits@ == d.digits
        &&& all_digits(d.digits)
        &&& self.fraction <= d.digits.len()
        &&& -FAR <= self.exponent <= FAR
        &&& self.exponent == e || (self.exponent == FAR && e >= FAR) || (self.exponent == -FAR && e
            <= -FAR)
    }
}

/// Appends `v[from..to]` to a list of characters.
fn extend_chars(to_list: &mut Vec<char>, v: &Vec<char>, from: usize, to: usize)
    requires
        from <= to <= v@.len(),
    ensures
        final(to_list)@ == old(to_list)@ + v@.subrange(from as int, to as int),
{
    let mut i: usize = from;
    assert(to_list@ =~= to_list@ + v@.subrange(from as int, from as int));
    while i < to
        invariant
            from <= i <= to <= v@.len(),
            to_list@ == old(to_list)@ + v@.subrange(from as int, i as int),
        decreases to - i,
    {
        to_list.push(v[i]);
        i = i + 1;
        assert(to_list@ =~= old(to_list)@ + v@.subrange(from as int, i as int));
    }
}

fn read_decimal(v: &Vec<char>) -> (r: Option<Read>)
    ensures
        match (r, parse_decimal(v@)) {
            (Some(x), Some(d)) => x.reads(d),
            (None, None) => true,
            _ => false,
        },
{
    let signed = v.len() > 0 && (v[0] == '-' || v[0] == '+');
    let negative = signed && v[0] == '-';
    let start: usize = if signed {
        1
    } else {
        0
    };
    let a: usize = digits_end(v, start);
    let dot = a < v.len() && v[a] == '.';
    let b: usize = if dot {
        digits_end(v, a + 1)
    } else {
        a
    };
    let mut digits: Vec<char> = Vec::new();
    extend_chars(&mut digits, v, start, a);
    let ghost whole = v@.subrange(start as int, a as int);
    assert(digits@ =~= whole);
    let fraction: usize = if dot {
        b - (a + 1)
    } else {
        0
    };
    if dot {
        extend_chars(&mut digits, v, a + 1, b);
    } else {
        assert(whole + Seq::<char>::empty() =~= whole);
    }
    proof {
        lemma_run_end(v@, start as int);
        if dot {
            lemma_run_end(v@, a + 1);
            assert forall|j: int| 0 <= j < digits@.len() implies is_digit(
                #[trigger] digits@[j],
            ) by {
                if j < whole.len() {
                    assert(digits@[j] == whole[j]);
                } else {
                    assert(digits@[j] == v@.subrange(a + 1, b as int)[j - whole.len()]);
                }
            }
        }
    }
    if digits.len() == 0 {
        return None;
    }
    if b == v.len() {
        Some(Read { negative, digits, fraction, exponent: 0 })
    } else if v[b] == 'e' || v[b] == 'E' {
        match parse_signed_capped(v, b + 1, 1_000_000_000_000_000_000_000_000_000_000) {
            Some(exponent) => Some(Read { negative, digits, fraction, exponent }),
            None => None,
        }
    } else {
        None
    }
}

/// Digits shifted by `k` decimal places, at most about `cap`.
fn shifted_digits(digits: &Vec<char>, k: i128, cap: u128) -> (r: u128)
    requires
        all_digits(digits@),
        k > -0x7fff_ffff_ffff_ffff_ffff_ffff_ffff_ffff,
        0 < cap <= 100_000_000_000_000_000_000,
    ensures
        r <= cap + 1,
        r == shifted(digits_value(digits@), k as int) || (r >= cap && shifted(
            digits_value(digits@),
            k as int,
        ) >= cap),
{
    let ghost m = digits_value(digits@);
    if k >= 0 {
        assert(digits@.subrange(0, digits@.len() as int) =~= digits@);
        let m0: u128 = capped_value(digits, 0, digits.len(), cap);
        let up: u128 = scaled_up(m0, k, cap);
        proof {
            lemma_pow10_pos(k as nat);
            let p = pow10(k as nat);
            if m0 == cap {
                assert(cap * p >= cap) by (nonlinear_arith)
                    requires
                        p >= 1,
                        cap >= 0,
                ;
                assert(m * p >= cap * p) by (nonlinear_arith)
                    requires
                        m >= cap,
                        p >= 0,
                ;
            }
        }
        up
    } else if -k > digits.len() as i128 {
        proof {
            lemma_digits_bound(digits@);
            lemma_shift_far_down(m, digits@.len(), k as int);
        }
        0
    } else {
        scaled_down(digits, (-k) as usize, cap)
    }
}

/// Shifting zero, or shifting far, by two amounts gives the same but for size.
proof fn lemma_shift_bounds(m: nat, n: nat, k: int, exact: int)
    requires
        m < pow10(n),
        k == exact || (k >= 20 && exact >= 20) || (-k > n && -exact > n),
    ensures
        shifted(m, k) == shifted(m, exact) || (shifted(m, k) >= 100_000_000_000_000_000_000
            && shifted(m, exact) >= 100_000_000_000_000_000_000),
{
    if k != exact {
        if m == 0 && k >= 20 {
            assert(0 * pow10(k as nat) == 0 && 0 * pow10(exact as nat) == 0);
        } else if k >= 20 {
            lemma_shift_far_up(m, k);
            lemma_shift_far_up(m, exact);
        } else {
            lemma_shift_far_down(m, n, k);
            lemma_shift_far_down(m, n, exact);
        }
    }
}

fn word_value(v: &Vec<char>) -> (r: Option<i64>)
    ensures
        match r {
            Some(n) => parse_word(v@) == Some(n as int),
            None => parse_word(v@) is None,
        },
{
    let signed = v.len() > 0 && (v[0] == '-' || v[0] == '+');
    let start: usize = if signed {
        1
    } else {
        0
    };
    let body = slice_string(v, start, v.len());
    let word = lowered_ascii(body.as_str());
    proof {
        if signed {
            assert(body@ =~= v@.skip(1));
        } else {
            assert(body@ =~= v@);
        }
    }
    if same(word.as_str(), "inf") || same(word.as_str(), "infinity") {
        if signed && v[0] == '-' {
            Some(i64::MIN)
        } else {
            Some(i64::MAX)
        }
    } else if same(word.as_str(), "nan") {
        Some(0)
    } else {
        None
    }
}

/// The billionths that a number stands for, as far as an `i64` goes.
pub fn parse_nanos_of(s: &str) -> (r: Option<i64>)
    ensures
        match r {
            Some(n) => parse_nanos(s@) == Some(n as int),
            None => parse_nanos(s@) is None,
        },
{
    let v = to_chars(s);
    match read_decimal(&v) {
        None => word_value(&v),
        Some(x) => {
            let k: i128 = x.exponent - x.fraction as i128 + 9;
            let size: u128 = shifted_digits(&x.digits, k, 100_000_000_000_000_000_000);
            proof {
                let d = parse_decimal(s@).unwrap();
                lemma_digits_bound(d.digits);
                assert(x.digits.len() == d.digits.len());
                lemma_shift_bounds(
                    digits_value(d.digits),
                    d.digits.len(),
                    k as int,
                    d.exponent + 9,
                );
            }
            if x.negative {
                if size <= 0x8000_0000_0000_0000 {
                    Some((-(size as i128)) as i64)
                } else {
                    Some(i64::MIN)
                }
            } else if size <= 0x7fff_ffff_ffff_ffff {
                Some(size as i64)
            } else {
                Some(i64::MAX)
            }
        },
    }
}

} // verus!
