//! What a profile saves of an output reads back as it was, and designates the
//! monitor it was saved for.

use vstd::arithmetic::div_mod::{lemma_fundamental_div_mod, lemma_fundamental_div_mod_converse};
use vstd::prelude::*;

use crate::apply::monitor_from;
use crate::cli::rules_of;
use crate::config::{
    covered, designates, first_free, glob, globs, open_mode, open_position, output_names,
    read_position, rotation_by, rule_of, ruled, separator_from, taken_by, uncovered, with_mode,
    ProfileView,
};
use crate::fixed::{Fixed, UNIT};
use crate::layout::{fits_i32, live_layout, output_of, LayoutView, OutputView};
use crate::monitor::{
    bare_mode, cross_from, read_mode, read_resolution, squeezed, Mode, Monitor,
};
use crate::notice::NoticeView;
use crate::number::{
    all_digits, digit_char, digits_value, int_text, is_digit, lemma_digits_split, nat_text, padded,
    parse_decimal, parse_int, parse_nanos, pow10, ratio_text, round_half_even, run_end,
};
use crate::text::{
    ends_with, find, is_white, lemma_find, lowercase_of, occurs_at, trim, trim_end, trim_start,
};

verus! {

// ---------------------------------------------------------------- numbers

proof fn lemma_digit(d: int)
    requires
        0 <= d < 10,
    ensures
        is_digit(digit_char(d)),
        digit_char(d) as u32 == 48 + d,
{
}

/// A number in decimal is digits that are worth the number.
proof fn lemma_nat_text(n: nat)
    ensures
        nat_text(n).len() > 0,
        all_digits(nat_text(n)),
        digits_value(nat_text(n)) == n,
    decreases n,
{
    let s = nat_text(n);
    if n < 10 {
        lemma_digit(n as int);
        assert(s.drop_last() =~= Seq::empty());
        assert(digits_value(s.drop_last()) == 0);
    } else {
        lemma_nat_text(n / 10);
        lemma_digit((n % 10) as int);
        let head = nat_text(n / 10);
        assert(s.drop_last() =~= head);
        assert forall|i: int| 0 <= i < s.len() implies is_digit(#[trigger] s[i]) by {
            if i < head.len() {
                assert(s[i] == head[i]);
            }
        }
    }
}

/// A digit or a minus sign.
spec fn is_numeric(c: char) -> bool {
    is_digit(c) || c == '-'
}

spec fn numeric(s: Seq<char>) -> bool {
    s.len() > 0 && forall|i: int| 0 <= i < s.len() ==> is_numeric(#[trigger] s[i])
}

/// An integer in decimal reads back.
proof fn lemma_int_text(n: int)
    ensures
        numeric(int_text(n)),
        parse_int(int_text(n)) == Some(n),
        is_digit(int_text(n).last()),
{
    let s = int_text(n);
    if n < 0 {
        let t = nat_text((-n) as nat);
        lemma_nat_text((-n) as nat);
        assert(s.skip(1) =~= t);
        assert forall|i: int| 0 <= i < s.len() implies is_numeric(#[trigger] s[i]) by {
            if i > 0 {
                assert(s[i] == t[i - 1]);
            }
        }
        assert(s.last() == t.last());
    } else {
        lemma_nat_text(n as nat);
        assert(is_digit(s[0]));
    }
}

proof fn lemma_trimmed(s: Seq<char>)
    requires
        s.len() > 0,
        !is_white(s[0]),
        !is_white(s.last()),
    ensures
        trim(s) == s,
{
}

proof fn lemma_numeric_not_white(c: char)
    requires
        is_numeric(c),
    ensures
        !is_white(c),
        c != 'x',
        c != 'X',
        c != ',',
        c != '@',
        c != 'z',
        c != 'p',
        c != 'a',
{
}

proof fn lemma_trimmed_number(s: Seq<char>)
    requires
        numeric(s),
    ensures
        trim(s) == s,
{
    lemma_numeric_not_white(s[0]);
    lemma_numeric_not_white(s[s.len() - 1]);
    lemma_trimmed(s);
}

// ---------------------------------------------------------------- positions

/// Two numbers with an `x` between them.
spec fn pair(a: int, b: int) -> Seq<char> {
    int_text(a) + "x"@ + int_text(b)
}

proof fn lemma_pair(a: int, b: int)
    ensures
        ({
            let s = pair(a, b);
            let k = int_text(a).len() as int;
            &&& s.len() > k + 1
            &&& k > 0
            &&& s[k] == 'x'
            &&& s.take(k) == int_text(a)
            &&& s.skip(k + 1) == int_text(b)
            &&& forall|i: int| 0 <= i < s.len() && i != k ==> is_numeric(#[trigger] s[i])
            &&& is_digit(s.last())
        }),
{
    reveal_strlit("x");
    lemma_int_text(a);
    lemma_int_text(b);
    let s = pair(a, b);
    let k = int_text(a).len() as int;
    assert(s.take(k) =~= int_text(a));
    assert(s.skip(k + 1) =~= int_text(b));
    assert forall|i: int| 0 <= i < s.len() && i != k implies is_numeric(#[trigger] s[i]) by {
        if i < k {
            assert(s[i] == int_text(a)[i]);
        } else {
            assert(s[i] == int_text(b)[i - k - 1]);
        }
    }
    assert(s.last() == int_text(b).last());
}

proof fn lemma_separator(s: Seq<char>, i: int, k: int)
    requires
        0 <= i <= k < s.len(),
        s[k] == 'x',
        forall|j: int| i <= j < k ==> is_numeric(#[trigger] s[j]),
    ensures
        cross_from(s, i) == Some(k),
    decreases k - i,
{
    if i < k {
        lemma_numeric_not_white(s[i]);
        lemma_separator(s, i + 1, k);
    }
}

/// Nothing but white space.
pub open spec fn is_blank(s: Seq<char>) -> bool {
    forall|i: int| 0 <= i < s.len() ==> is_white(#[trigger] s[i])
}

proof fn lemma_blank_ahead(a: Seq<char>, s: Seq<char>)
    requires
        is_blank(a),
        s.len() > 0,
        !is_white(s[0]),
    ensures
        trim_start(a + s) == s,
    decreases a.len(),
{
    let t = a + s;
    if a.len() > 0 {
        assert(is_white(a[0]));
        assert(t.skip(1) =~= a.skip(1) + s);
        lemma_blank_ahead(a.skip(1), s);
    } else {
        assert(t =~= s);
    }
}

proof fn lemma_blank_behind(s: Seq<char>, d: Seq<char>)
    requires
        is_blank(d),
        s.len() > 0,
        !is_white(s.last()),
    ensures
        trim_end(s + d) == s,
    decreases d.len(),
{
    let t = s + d;
    if d.len() > 0 {
        assert(is_white(d[d.len() - 1]));
        assert(t.drop_last() =~= s + d.drop_last());
        lemma_blank_behind(s, d.drop_last());
    } else {
        assert(t =~= s);
    }
}

/// White space around a text is trimmed off.
proof fn lemma_blank_around(a: Seq<char>, s: Seq<char>, d: Seq<char>)
    requires
        is_blank(a),
        is_blank(d),
        s.len() > 0,
        !is_white(s[0]),
        !is_white(s.last()),
    ensures
        trim(a + s + d) == s,
{
    assert(a + s + d =~= a + (s + d));
    assert((s + d)[0] == s[0]);
    lemma_blank_ahead(a, s + d);
    lemma_blank_behind(s, d);
}

proof fn lemma_first_separator(s: Seq<char>, i: int, k: int)
    requires
        0 <= i <= k < s.len(),
        s[k] == 'x' || s[k] == 'X' || s[k] == ',',
        forall|j: int| i <= j < k ==> is_numeric(#[trigger] s[j]) || is_white(s[j]),
    ensures
        separator_from(s, i) == Some(k),
    decreases k - i,
{
    if i < k {
        if is_numeric(s[i]) {
            lemma_numeric_not_white(s[i]);
        }
        lemma_first_separator(s, i + 1, k);
    }
}

/// A position that was written reads back, with any of the separators between
/// the two numbers and any white space around them.
pub proof fn positions_read_back(
    x: int,
    y: int,
    separator: char,
    ahead: Seq<char>,
    before: Seq<char>,
    after: Seq<char>,
    behind: Seq<char>,
)
    requires
        fits_i32(x),
        fits_i32(y),
        separator == 'x' || separator == 'X' || separator == ',',
        is_blank(ahead),
        is_blank(before),
        is_blank(after),
        is_blank(behind),
    ensures
        read_position(
            ahead + (int_text(x) + before + seq![separator] + after + int_text(y)) + behind,
        ) == Ok::<(int, int), NoticeView>((x, y)),
{
    let a = int_text(x);
    let b = int_text(y);
    let s = a + before + seq![separator] + after + b;
    let k = (a.len() + before.len()) as int;
    lemma_int_text(x);
    lemma_int_text(y);
    lemma_numeric_not_white(a[0]);
    lemma_numeric_not_white(a[a.len() - 1]);
    lemma_numeric_not_white(b[0]);
    lemma_numeric_not_white(b[b.len() - 1]);
    assert(s[0] == a[0]);
    assert(s.last() == b.last());
    lemma_blank_around(ahead, s, behind);
    assert(s[k] == separator);
    assert forall|j: int| 0 <= j < k implies is_numeric(#[trigger] s[j]) || is_white(s[j]) by {
        if j < a.len() {
            assert(s[j] == a[j]);
        } else {
            assert(s[j] == before[j - a.len()]);
        }
    }
    lemma_first_separator(s, 0, k);
    let none = Seq::<char>::empty();
    assert(s.take(k) =~= none + a + before);
    assert(s.skip(k + 1) =~= after + b + none);
    lemma_blank_around(none, a, before);
    lemma_blank_around(after, b, none);
}

// ---------------------------------------------------------------- modes

proof fn lemma_run_end_is(s: Seq<char>, i: int, e: int)
    requires
        0 <= i <= e <= s.len(),
        forall|j: int| i <= j < e ==> is_digit(#[trigger] s[j]),
        e < s.len() ==> !is_digit(s[e]),
    ensures
        run_end(s, i) == e,
    decreases e - i,
{
    if i < e {
        assert(is_digit(s[i]));
        lemma_run_end_is(s, i + 1, e);
    }
}

proof fn lemma_two_digits(n: nat)
    requires
        n < 100,
    ensures
        padded(n, 2).len() == 2,
        all_digits(padded(n, 2)),
        digits_value(padded(n, 2)) == n,
{
    let s = padded(n, 2);
    reveal_with_fuel(padded, 3);
    lemma_digit((n / 10 % 10) as int);
    lemma_digit((n % 10) as int);
    assert(s =~= seq![digit_char((n / 10 % 10) as int), digit_char((n % 10) as int)]);
    assert(s.drop_last() =~= seq![digit_char((n / 10 % 10) as int)]);
    assert(s.drop_last().drop_last() =~= Seq::empty());
    reveal_with_fuel(digits_value, 3);
}

/// A number of hundredths, in decimal.
spec fn hundredths(q: nat) -> Seq<char> {
    nat_text(q / 100) + seq!['.'] + padded(q % 100, 2)
}

proof fn lemma_hundredths(q: nat)
    requires
        q * 10_000_000 <= i64::MAX,
    ensures
        parse_nanos(hundredths(q)) == Some((q * 10_000_000) as int),
        hundredths(q).len() > 0,
        is_digit(hundredths(q)[0]),
        is_digit(hundredths(q).last()),
        forall|i: int| 0 <= i < hundredths(q).len() ==> #[trigger] hundredths(q)[i] != '@',
{
    let w = nat_text(q / 100);
    let f = padded(q % 100, 2);
    let s = hundredths(q);
    let k = w.len() as int;
    lemma_nat_text(q / 100);
    lemma_two_digits(q % 100);
    assert forall|j: int| 0 <= j < k implies is_digit(#[trigger] s[j]) by {
        assert(s[j] == w[j]);
    }
    assert(s[k] == '.');
    assert(s.len() == k + 3);
    assert forall|j: int| k + 1 <= j < s.len() implies is_digit(#[trigger] s[j]) by {
        assert(s[j] == f[j - k - 1]);
    }
    assert(is_digit(s[0]));
    lemma_run_end_is(s, 0, k);
    lemma_run_end_is(s, k + 1, s.len() as int);
    assert(s.subrange(0, k) =~= w);
    assert(s.subrange(k + 1, s.len() as int) =~= f);
    let digits = w + f;
    lemma_digits_split(digits, k);
    assert(digits.take(k) =~= w);
    assert(digits.skip(k) =~= f);
    assert(pow10(2) == 100) by {
        reveal_with_fuel(pow10, 3);
    }
    assert((digits.len() - k) as nat == 2);
    let a = q / 100;
    assert(a * pow10(2) == a * 100) by (nonlinear_arith)
        requires
            pow10(2) == 100,
    ;
    assert(digits_value(digits) == q);
    assert(pow10(7) == 10_000_000) by {
        reveal_with_fuel(pow10, 8);
    }
    assert(parse_decimal(s).unwrap().exponent == -2);
    assert forall|i: int| 0 <= i < s.len() implies #[trigger] s[i] != '@' by {
        if i != k {
            assert(is_digit(s[i]));
        }
    }
}

/// The refresh rate that is left of one: rounded to hundredths of a hertz, and
/// open where it is not positive.
pub open spec fn kept_rate(nanos: i64) -> i64 {
    if nanos > 0 {
        (round_half_even((nanos * 100) as nat, UNIT as nat) * 10_000_000) as i64
    } else {
        0
    }
}

/// The mode that is left of one.
pub open spec fn kept_mode(m: Mode) -> Mode {
    Mode { refresh: Fixed { nanos: kept_rate(m.refresh.nanos) }, ..m }
}

/// The output that is left of one.
pub open spec fn kept(o: OutputView) -> OutputView {
    OutputView {
        mode: match o.mode {
            Some(m) => Some(kept_mode(m)),
            None => None,
        },
        ..o
    }
}

proof fn lemma_kept_rate(nanos: i64)
    requires
        nanos > 0,
    ensures
        ({
            let q = round_half_even((nanos * 100) as nat, UNIT as nat);
            &&& q * 10_000_000 <= i64::MAX
            &&& kept_rate(nanos) == q * 10_000_000
            &&& ratio_text(nanos as int, UNIT as int, 2) == hundredths(q)
            &&& nanos % 10_000_000 == 0 ==> kept_rate(nanos) == nanos
        }),
{
    let top = nanos * 100;
    let q = round_half_even(top as nat, UNIT as nat);
    assert(pow10(2) == 100) by {
        reveal_with_fuel(pow10, 3);
    }
    lemma_fundamental_div_mod(top, UNIT as int);
    assert(q * 1_000_000_000 <= top + 500_000_000);
    assert(ratio_text(nanos as int, UNIT as int, 2) =~= hundredths(q));
    if nanos % 10_000_000 == 0 {
        let k = nanos as int / 10_000_000;
        assert(nanos == k * 10_000_000);
        assert(top == k * 1_000_000_000);
        lemma_fundamental_div_mod_converse(top, 1_000_000_000, k, 0);
    }
}

proof fn lemma_bare(s: Seq<char>)
    requires
        s.len() > 0,
        !is_white(s[0]),
        is_digit(s.last()),
    ensures
        bare_mode(s) == s,
{
    lemma_numeric_not_white(s.last());
    lemma_trimmed(s);
    reveal_strlit("Hz");
    reveal_strlit("hz");
    assert(!ends_with(s, "Hz"@)) by {
        if ends_with(s, "Hz"@) {
            assert(s.subrange(s.len() - 2, s.len() as int)[1] == s.last());
            assert("Hz"@[1] == 'z');
        }
    }
    assert(!ends_with(s, "hz"@)) by {
        if ends_with(s, "hz"@) {
            assert(s.subrange(s.len() - 2, s.len() as int)[1] == s.last());
            assert("hz"@[1] == 'z');
        }
    }
}

proof fn lemma_no_at(s: Seq<char>, from: int, to: int)
    requires
        0 <= from <= to <= s.len(),
        forall|i: int| from <= i < to ==> #[trigger] s[i] != '@',
    ensures
        forall|j: int| from <= j < to ==> !occurs_at(s, "@"@, j),
{
    reveal_strlit("@");
    assert forall|j: int| from <= j < to implies !occurs_at(s, "@"@, j) by {
        if occurs_at(s, "@"@, j) {
            assert(s.subrange(j, j + 1)[0] == s[j]);
            assert("@"@[0] == '@');
        }
    }
}

proof fn lemma_resolution(s: Seq<char>, w: int, h: int, nanos: i64)
    requires
        fits_i32(w),
        fits_i32(h),
    ensures
        read_resolution(s, pair(w, h), nanos as int) == Ok::<Mode, NoticeView>(
            Mode { width: w as i32, height: h as i32, refresh: Fixed { nanos } },
        ),
{
    let res = pair(w, h);
    let k = int_text(w).len() as int;
    lemma_pair(w, h);
    lemma_int_text(w);
    lemma_int_text(h);
    lemma_separator(res, 0, k);
    lemma_trimmed_number(int_text(w));
    lemma_trimmed_number(int_text(h));
}

/// The unit behind a mode changes nothing.
proof fn lemma_bare_unit(s: Seq<char>)
    requires
        s.len() > 0,
        !is_white(s[0]),
        is_digit(s.last()),
    ensures
        bare_mode(s + "Hz"@) == s,
{
    reveal_strlit("Hz");
    let t = s + "Hz"@;
    assert(t[0] == s[0]);
    assert(t.last() == 'z');
    lemma_trimmed(t);
    assert(t.subrange(t.len() - 2, t.len() as int) =~= "Hz"@);
    assert(ends_with(t, "Hz"@));
    assert(t.take(t.len() - 2) =~= s);
    lemma_bare(s);
    lemma_numeric_not_white(s.last());
    lemma_trimmed(s);
    assert(!ends_with(s, "Hz"@)) by {
        if ends_with(s, "Hz"@) {
            assert(s.subrange(s.len() - 2, s.len() as int)[1] == s.last());
            assert("Hz"@[1] == 'z');
        }
    }
}

/// A size with a rate behind it reads back, with the rate's unit or without.
pub proof fn rated_modes_read_back(width: i32, height: i32, rate: Seq<char>)
    requires
        parse_nanos(rate) is Some,
        rate.len() > 0,
        is_digit(rate[0]),
        is_digit(rate.last()),
        forall|i: int| 0 <= i < rate.len() ==> is_digit(#[trigger] rate[i]) || rate[i] == '.',
    ensures
        ({
            let s = int_text(width as int) + "x"@ + int_text(height as int) + "@"@ + rate;
            let m = Mode {
                width,
                height,
                refresh: Fixed { nanos: parse_nanos(rate).unwrap() as i64 },
            };
            &&& read_mode(s) == Ok::<Mode, NoticeView>(m)
            &&& read_mode(s + "Hz"@) == Ok::<Mode, NoticeView>(m)
        }),
{
    let w = width as int;
    let h = height as int;
    let res = pair(w, h);
    let s = res + "@"@ + rate;
    let nanos = parse_nanos(rate).unwrap();
    lemma_pair(w, h);
    lemma_numeric_not_white(res[0]);
    reveal_strlit("@");
    let n = res.len() as int;
    assert(s[0] == res[0]);
    assert(s.last() == rate.last());
    lemma_resolution(s, w, h, nanos as i64);
    lemma_find(s, "@"@, 0);
    lemma_bare(s);
    lemma_bare_unit(s);
    assert(s.subrange(n, n + 1) =~= "@"@);
    assert(occurs_at(s, "@"@, n));
    assert forall|i: int| 0 <= i < n implies #[trigger] s[i] != '@' by {
        assert(s[i] == res[i]);
        if i != int_text(w).len() {
            lemma_numeric_not_white(res[i]);
        }
    }
    lemma_no_at(s, 0, n);
    assert(find(s, "@"@) == Some(n));
    assert(s.take(n) =~= res);
    assert(s.skip(n + 1) =~= rate);
    lemma_numeric_not_white(rate[0]);
    lemma_numeric_not_white(rate.last());
    lemma_trimmed(rate);
}

/// A mode that was written reads back, with its unit or without, but for what is
/// beyond hundredths of a hertz.
pub proof fn modes_read_back(m: Mode)
    ensures
        read_mode(m.shown()) == Ok::<Mode, NoticeView>(kept_mode(m)),
        read_mode(m.shown() + "Hz"@) == Ok::<Mode, NoticeView>(kept_mode(m)),
        m.shown().len() > 0,
        is_digit(m.shown()[0]) || m.shown()[0] == '-',
        m.refresh.nanos >= 0 && m.refresh.nanos % 10_000_000 == 0 ==> kept_mode(m) == m,
{
    let w = m.width as int;
    let h = m.height as int;
    let res = pair(w, h);
    let s = m.shown();
    lemma_pair(w, h);
    lemma_numeric_not_white(res[0]);
    reveal_strlit("@");
    let n = res.len() as int;
    assert forall|i: int| 0 <= i < n implies #[trigger] res[i] != '@' by {
        if i != int_text(w).len() {
            lemma_numeric_not_white(res[i]);
        }
    }
    lemma_resolution(s, w, h, kept_rate(m.refresh.nanos));
    lemma_find(s, "@"@, 0);
    if m.refresh.nanos <= 0 {
        assert(s == res);
        lemma_bare(s);
        lemma_bare_unit(s);
        lemma_no_at(s, 0, n);
        assert(find(s, "@"@) is None) by {
            if let Some(k) = find(s, "@"@) {
                assert(occurs_at(s, "@"@, k));
                assert(k < n);
            }
        }
    } else {
        lemma_kept_rate(m.refresh.nanos);
        let q = round_half_even((m.refresh.nanos * 100) as nat, UNIT as nat);
        lemma_hundredths(q);
        let rate = hundredths(q);
        assert(s =~= res + "@"@ + rate);
        assert(s[0] == res[0]);
        assert(s.last() == rate.last());
        lemma_bare(s);
        lemma_bare_unit(s);
        assert(s.subrange(n, n + 1) =~= "@"@);
        assert(occurs_at(s, "@"@, n));
        assert forall|i: int| 0 <= i < n implies #[trigger] s[i] != '@' by {
            assert(s[i] == res[i]);
        }
        lemma_no_at(s, 0, n);
        assert(find(s, "@"@) == Some(n));
        assert(s.take(n) =~= res);
        assert(s.skip(n + 1) =~= rate);
        lemma_numeric_not_white(rate[0]);
        lemma_numeric_not_white(rate.last());
        lemma_trimmed(rate);
    }
}

// ---------------------------------------------------------------- rules

proof fn lemma_not_a_word(s: Seq<char>)
    requires
        s.len() > 0,
        is_numeric(s[0]),
    ensures
        !open_mode(Some(s)),
        !open_position(Some(s)),
{
    reveal_strlit("preferred");
    reveal_strlit("auto");
    lemma_numeric_not_white(s[0]);
    assert("preferred"@[0] == 'p');
    assert("auto"@[0] == 'a');
}

/// An output that is saved as a rule is given back by that rule as it was: its
/// place, scale, orientation, mirroring, state and mode. Of the refresh rate a
/// rule keeps hundredths of a hertz.
pub proof fn saved_outputs_read_back(o: OutputView, monitor: Option<Monitor>)
    requires
        fits_i32(o.x),
        fits_i32(o.y),
    ensures
        rule_of(o, monitor).state(o.name) == Ok::<OutputView, NoticeView>(kept(o)),
        !open_position(rule_of(o, monitor).position),
{
    let rule = rule_of(o, monitor);
    let none = Seq::<char>::empty();
    positions_read_back(o.x, o.y, 'x', none, none, none, none);
    lemma_pair(o.x, o.y);
    assert(pair(o.x, o.y) =~= none + (int_text(o.x) + none + seq!['x'] + none + int_text(o.y))
        + none) by {
        reveal_strlit("x");
    }
    lemma_not_a_word(pair(o.x, o.y));
    if let Some(m) = o.mode {
        modes_read_back(m);
        lemma_not_a_word(m.shown());
    }
    assert(rotation_by(rule.rotation as int) == o.transform.rotation);
}

proof fn lemma_glob_itself(p: Seq<char>)
    ensures
        glob(p, p),
    decreases p.len(),
{
    if p.len() > 0 {
        let rest = p.skip(1);
        lemma_glob_itself(rest);
        if p[0] == '*' {
            assert(glob(p, rest));
        }
    }
}

proof fn lemma_squeezed(s: Seq<Seq<char>>, i: int) -> (k: int)
    requires
        0 <= i < s.len(),
    ensures
        0 <= k < squeezed(s).len(),
        squeezed(s)[k] == s[i],
    decreases s.len(),
{
    if s.len() <= 1 {
        i
    } else if s.last() == s[s.len() - 2] {
        if i == s.len() - 1 {
            lemma_squeezed(s.drop_last(), i - 1)
        } else {
            lemma_squeezed(s.drop_last(), i)
        }
    } else if i == s.len() - 1 {
        squeezed(s).len() - 1
    } else {
        lemma_squeezed(s.drop_last(), i)
    }
}

/// A rule that was saved for a monitor designates it, on whichever connector.
pub proof fn saved_rules_designate_their_monitor(o: OutputView, m: Monitor)
    ensures
        designates(rule_of(o, Some(m)).pattern, m),
{
    let desc = trim(m.description@);
    let ids = seq![m.name@, m.print()];
    let all = if desc.len() > 0 {
        ids.push(desc).push("desc:"@ + desc)
    } else {
        ids
    };
    assert(all[1] == m.print());
    let k = lemma_squeezed(all, 1);
    assert(m.designations()[k] == m.print());
    lemma_glob_itself(lowercase_of(trim(m.print())));
    assert(globs(m.print(), m.designations()[k]));
}

// ---------------------------------------------------------------- profiles

/// Every monitor has a connector and a fingerprint of its own.
pub open spec fn told_apart(monitors: Seq<Monitor>) -> bool {
    &&& forall|i: int, j: int|
        0 <= i < j < monitors.len() ==> (#[trigger] monitors[i]).name@ != (
        #[trigger] monitors[j]).name@
    &&& forall|i: int, j: int|
        0 <= i < monitors.len() && 0 <= j < monitors.len() && i != j ==> !designates(
            (#[trigger] monitors[i]).print(),
            #[trigger] monitors[j],
        )
}

/// The profile that the live layout is saved as.
pub open spec fn saved_profile(name: Seq<char>, exact: bool, monitors: Seq<Monitor>) -> ProfileView {
    ProfileView { name, exact, outputs: rules_of(live_layout(monitors).outputs, monitors) }
}

/// The live layout as a profile keeps it.
pub open spec fn kept_outputs(monitors: Seq<Monitor>, n: int) -> Seq<OutputView> {
    Seq::new(
        n as nat,
        |i: int| with_mode(kept(output_of(monitors[i], monitors)), monitors[i]),
    )
}

proof fn lemma_monitor_named(monitors: Seq<Monitor>, i: int, k: int)
    requires
        told_apart(monitors),
        0 <= i <= k < monitors.len(),
    ensures
        monitor_from(monitors, monitors[k].name@, i) == Some(k),
    decreases k - i,
{
    if i < k {
        assert(monitors[i].name@ != monitors[k].name@);
        lemma_monitor_named(monitors, i + 1, k);
    }
}

proof fn lemma_saved_rule(p: ProfileView, monitors: Seq<Monitor>, k: int)
    requires
        told_apart(monitors),
        p.outputs == rules_of(live_layout(monitors).outputs, monitors),
        0 <= k < monitors.len(),
    ensures
        p.outputs.len() == monitors.len(),
        p.outputs[k] == rule_of(output_of(monitors[k], monitors), Some(monitors[k])),
{
    lemma_monitor_named(monitors, 0, k);
    assert(live_layout(monitors).outputs[k] == output_of(monitors[k], monitors));
}

spec fn first_numbers(n: int) -> Seq<int> {
    Seq::new(n as nat, |i: int| i)
}

proof fn lemma_first_free_at(
    pattern: Seq<char>,
    monitors: Seq<Monitor>,
    taken: Seq<int>,
    i: int,
    k: int,
)
    requires
        0 <= i <= k < monitors.len(),
        forall|j: int| i <= j < k ==> taken.contains(j),
        !taken.contains(k),
        designates(pattern, monitors[k]),
    ensures
        first_free(pattern, monitors, taken, i) == Some(k),
    decreases k - i,
{
    if i < k {
        assert(taken.contains(i));
        lemma_first_free_at(pattern, monitors, taken, i + 1, k);
    }
}

proof fn lemma_saved_assignment(p: ProfileView, monitors: Seq<Monitor>, n: int)
    requires
        told_apart(monitors),
        p.outputs == rules_of(live_layout(monitors).outputs, monitors),
        0 <= n <= monitors.len(),
    ensures
        taken_by(p.outputs, monitors, n) == Some(first_numbers(n)),
    decreases n,
{
    if n == 0 {
        assert(first_numbers(0) =~= Seq::empty());
    } else {
        lemma_saved_assignment(p, monitors, n - 1);
        let taken = first_numbers(n - 1);
        let k = n - 1;
        lemma_saved_rule(p, monitors, k);
        saved_rules_designate_their_monitor(output_of(monitors[k], monitors), monitors[k]);
        assert forall|j: int| 0 <= j < k implies taken.contains(j) by {
            assert(taken[j] == j);
        }
        lemma_first_free_at(p.outputs[k].pattern, monitors, taken, 0, k);
        assert(taken.push(k) =~= first_numbers(n));
    }
}

proof fn lemma_saved_states(p: ProfileView, monitors: Seq<Monitor>, n: int)
    requires
        told_apart(monitors),
        p.outputs == rules_of(live_layout(monitors).outputs, monitors),
        0 <= n <= monitors.len(),
    ensures
        ruled(p, monitors, first_numbers(monitors.len() as int), n) == Ok::<
            (Seq<OutputView>, Seq<Seq<char>>),
            NoticeView,
        >((kept_outputs(monitors, n), Seq::empty())),
    decreases n,
{
    if n == 0 {
        assert(kept_outputs(monitors, 0) =~= Seq::empty());
    } else {
        lemma_saved_states(p, monitors, n - 1);
        let k = n - 1;
        let o = output_of(monitors[k], monitors);
        lemma_saved_rule(p, monitors, k);
        saved_outputs_read_back(o, Some(monitors[k]));
        assert(kept_outputs(monitors, n - 1).push(with_mode(kept(o), monitors[k]))
            =~= kept_outputs(monitors, n));
    }
}

proof fn lemma_all_covered(monitors: Seq<Monitor>, n: int)
    requires
        0 <= n <= monitors.len(),
    ensures
        uncovered(monitors, first_numbers(monitors.len() as int), n) == Seq::<OutputView>::empty(),
    decreases n,
{
    if n > 0 {
        lemma_all_covered(monitors, n - 1);
        let taken = first_numbers(monitors.len() as int);
        assert(taken[n - 1] == n - 1);
        assert(covered(taken, monitors, monitors[n - 1].name@));
    }
}

/// A layout that is saved as a profile is what the profile resolves to on the
/// same monitors, anchored anew: every output as it was, but for what is beyond
/// hundredths of a hertz, and in its preferred mode where it had none. Monitors
/// that share a fingerprint or a connector cannot be told apart and are left
/// out.
pub proof fn saved_layouts_resolve_to_themselves(
    name: Seq<char>,
    exact: bool,
    monitors: Seq<Monitor>,
)
    requires
        told_apart(monitors),
    ensures
        saved_profile(name, exact, monitors).layout(monitors) == Ok::<LayoutView, NoticeView>(
            (LayoutView {
                outputs: kept_outputs(monitors, monitors.len() as int),
                primary: None,
            }).normalized(),
        ),
        monitors.len() > 0 ==> saved_profile(name, exact, monitors).fits(monitors),
{
    let p = saved_profile(name, exact, monitors);
    let n = monitors.len() as int;
    let taken = first_numbers(n);
    assert(p.outputs.len() == n);
    lemma_saved_assignment(p, monitors, n);
    lemma_saved_states(p, monitors, n);
    lemma_all_covered(monitors, n);
    assert forall|j: int| 0 <= j < n implies taken.contains(j) by {
        assert(taken[j] == j);
    }
    assert(p.assignment(monitors) == Some(taken));
    let outputs = kept_outputs(monitors, n);
    let none = Seq::<OutputView>::empty();
    assert(outputs + none =~= outputs);
    assert(Seq::<Seq<char>>::empty() + output_names(none) =~= Seq::empty());
}

} // verus!
