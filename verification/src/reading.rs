//! What reading comes down to: trimming, splitting, lines, words, paths and
//! numbers, each told by the text that it takes apart.

use vstd::prelude::*;

use crate::decimals::naturals_read_back;
use crate::fixed::{round_half_away, Ratio};
use crate::i18n::Locale;
use crate::monitor::{ranking_orders_the_modes, read_mode, read_modes, Monitor, Transform};
use crate::notice::{fill, turn_text, ArgView};
use crate::number::{
    all_digits, int_text, is_digit, parse_decimal, parse_int, parse_nanos, parse_nat,
    round_half_even, run_end, Decimal,
};
use crate::path::{is_rooted, last_dot, path_join, stem};
use crate::seqs::{comes_first, lemma_text_order, sorted_texts, text_order};
use crate::text::{
    ascii_lower, ascii_lowercase, contains, find, is_white, join, lemma_find, lemma_find_first,
    lines, occurs_at, replace, run_len, split, strip_return, trim, trim_end, trim_start, views, words,
};

verus! {

// ---------------------------------------------------------------- text

pub open spec fn all_white(s: Seq<char>) -> bool {
    forall|i: int| 0 <= i < s.len() ==> is_white(#[trigger] s[i])
}

pub open spec fn none_white(s: Seq<char>) -> bool {
    forall|i: int| 0 <= i < s.len() ==> !is_white(#[trigger] s[i])
}

/// White space before a text that begins with none is what trimming its start
/// takes away.
pub proof fn leading_white_is_trimmed(a: Seq<char>, s: Seq<char>)
    requires
        all_white(a),
        s.len() > 0 ==> !is_white(s[0]),
    ensures
        trim_start(a + s) == s,
    decreases a.len(),
{
    if a.len() == 0 {
        assert(a + s =~= s);
    } else {
        assert((a + s)[0] == a[0]);
        assert((a + s).skip(1) =~= a.skip(1) + s);
        leading_white_is_trimmed(a.skip(1), s);
    }
}

proof fn lemma_trailing_white(s: Seq<char>, b: Seq<char>)
    requires
        all_white(b),
        s.len() > 0 ==> !is_white(s.last()),
    ensures
        trim_end(s + b) == s,
    decreases b.len(),
{
    if b.len() == 0 {
        assert(s + b =~= s);
    } else {
        assert((s + b).last() == b.last());
        assert((s + b).drop_last() =~= s + b.drop_last());
        lemma_trailing_white(s, b.drop_last());
    }
}

/// Trimming takes away the white space around a text and nothing else.
pub proof fn surrounding_white_is_trimmed(a: Seq<char>, s: Seq<char>, b: Seq<char>)
    requires
        all_white(a),
        all_white(b),
        s.len() > 0 ==> !is_white(s[0]) && !is_white(s.last()),
    ensures
        trim(a + s + b) == s,
{
    if s.len() == 0 {
        assert(a + s + b =~= (a + b) + s);
        leading_white_is_trimmed(a + b, s);
    } else {
        assert(a + s + b =~= a + (s + b));
        leading_white_is_trimmed(a, s + b);
        lemma_trailing_white(s, b);
    }
}

/// A text is its pieces with the separator between them, and no piece holds the
/// separator.
pub proof fn pieces_join_back(s: Seq<char>, p: Seq<char>)
    requires
        p.len() > 0,
    ensures
        join(split(s, p), p) == s,
        split(s, p).len() > 0,
        forall|i: int| 0 <= i < split(s, p).len() ==> !contains(#[trigger] split(s, p)[i], p),
    decreases s.len(),
{
    lemma_find(s, p, 0);
    let parts = split(s, p);
    match find(s, p) {
        None => {
            assert(parts == seq![s]);
            reveal_with_fuel(join, 2);
        },
        Some(i) => {
            let rest = s.skip(i + p.len());
            pieces_join_back(rest, p);
            lemma_join_cons(s.take(i), split(rest, p), p);
            assert(s =~= s.take(i) + p + rest);
            assert(!contains(s.take(i), p)) by {
                if contains(s.take(i), p) {
                    let j = choose|j: int| occurs_at(s.take(i), p, j);
                    assert(s.subrange(j, j + p.len()) =~= s.take(i).subrange(j, j + p.len()));
                    assert(occurs_at(s, p, j));
                }
            }
            assert forall|j: int| 0 <= j < parts.len() implies !contains(
                #[trigger] parts[j],
                p,
            ) by {
                if j > 0 {
                    assert(parts[j] == split(rest, p)[j - 1]);
                }
            }
        },
    }
}

proof fn lemma_join_cons(head: Seq<char>, tail: Seq<Seq<char>>, sep: Seq<char>)
    requires
        tail.len() > 0,
    ensures
        join(seq![head] + tail, sep) == head + sep + join(tail, sep),
    decreases tail.len(),
{
    let all = seq![head] + tail;
    reveal_with_fuel(join, 2);
    assert(all.last() == tail.last());
    if tail.len() == 1 {
        assert(all.drop_last() =~= seq![head]);
    } else {
        assert(all.drop_last() =~= seq![head] + tail.drop_last());
        lemma_join_cons(head, tail.drop_last(), sep);
        assert(join(all, sep) =~= head + sep + join(tail, sep));
    }
}

/// Where a text stands first, it is replaced there and in what follows.
pub proof fn replacing_goes_from_left_to_right(
    a: Seq<char>,
    p: Seq<char>,
    b: Seq<char>,
    w: Seq<char>,
)
    requires
        p.len() > 0,
        find(a + p + b, p) == Some(a.len() as int),
    ensures
        replace(a + p + b, p, w) == a + w + replace(b, p, w),
{
    let s = a + p + b;
    pieces_join_back(b, p);
    assert(s.take(a.len() as int) =~= a);
    assert(s.skip((a.len() + p.len()) as int) =~= b);
    lemma_join_cons(a, split(b, p), w);
}

/// Where a text does not stand, nothing is replaced.
pub proof fn nothing_else_is_replaced(s: Seq<char>, p: Seq<char>, w: Seq<char>)
    requires
        p.len() > 0,
        !contains(s, p),
    ensures
        replace(s, p, w) == s,
{
    lemma_find(s, p, 0);
    reveal_with_fuel(join, 2);
}

/// The first line of a text ends with the first line feed, or with the carriage
/// return before it; the other lines are those of what follows.
pub proof fn lines_end_with_their_terminator(line: Seq<char>, rest: Seq<char>)
    requires
        !line.contains('\n'),
        line.len() > 0 ==> line.last() != '\r',
    ensures
        lines(line + seq!['\n'] + rest) == seq![line] + lines(rest),
        lines(line + seq!['\r', '\n'] + rest) == seq![line] + lines(rest),
        line.len() > 0 ==> lines(line) == seq![line],
        lines(Seq::empty()).len() == 0,
{
    let feed = seq!['\n'];
    let a = line + feed + rest;
    lemma_first_feed(line, rest);
    assert(a.take(line.len() as int) =~= line);
    assert(a.skip(line.len() as int + 1) =~= rest);
    assert(strip_return(line) == line);
    let longer = line.push('\r');
    let b = line + seq!['\r', '\n'] + rest;
    assert(b =~= longer + feed + rest);
    assert(!longer.contains('\n')) by {
        if longer.contains('\n') {
            let k = choose|k: int| 0 <= k < longer.len() && longer[k] == '\n';
            assert(line[k] == '\n');
        }
    }
    lemma_first_feed(longer, rest);
    assert(b.take(longer.len() as int) =~= longer);
    assert(b.skip(longer.len() as int + 1) =~= rest);
    assert(strip_return(longer) =~= line);
    lemma_find(line, feed, 0);
    match find(line, feed) {
        Some(k) => {
            assert(line.subrange(k, k + 1)[0] == line[k]);
        },
        None => {},
    }
}

proof fn lemma_first_feed(line: Seq<char>, rest: Seq<char>)
    requires
        !line.contains('\n'),
    ensures
        find(line + seq!['\n'] + rest, seq!['\n']) == Some(line.len() as int),
{
    let feed = seq!['\n'];
    let a = line + feed + rest;
    let n = line.len() as int;
    assert(a[n] == '\n');
    assert(a.subrange(n, n + 1) =~= feed);
    assert(occurs_at(a, feed, n));
    assert forall|k: int| 0 <= k < n implies !occurs_at(a, feed, k) by {
        assert(a[k] == line[k]);
        if occurs_at(a, feed, k) {
            assert(a.subrange(k, k + 1)[0] == a[k]);
            assert(line.contains('\n'));
        }
    }
    lemma_find_first(a, feed, n);
}

/// The first word of a text is the run without white space that comes first; the
/// other words are those of what follows. White space alone holds none.
pub proof fn words_stand_between_white_space(a: Seq<char>, word: Seq<char>, b: Seq<char>)
    requires
        all_white(a),
        none_white(word),
        word.len() > 0,
        b.len() > 0 ==> is_white(b[0]),
    ensures
        words(a + word + b) == seq![word] + words(b),
        words(a).len() == 0,
{
    let s = a + word + b;
    assert(s =~= a + (word + b));
    leading_white_is_trimmed(a, word + b);
    let rest = word + b;
    lemma_run_of(word, b);
    assert(rest.take(word.len() as int) =~= word);
    assert(rest.skip(word.len() as int) =~= b);
    assert(a =~= a + Seq::<char>::empty());
    leading_white_is_trimmed(a, Seq::empty());
}

proof fn lemma_run_of(word: Seq<char>, b: Seq<char>)
    requires
        none_white(word),
        b.len() > 0 ==> is_white(b[0]),
    ensures
        run_len(word + b, false) == word.len(),
    decreases word.len(),
{
    let s = word + b;
    if word.len() == 0 {
        assert(s =~= b);
    } else {
        assert(s[0] == word[0]);
        assert(s.skip(1) =~= word.skip(1) + b);
        lemma_run_of(word.skip(1), b);
    }
}

/// Lowering changes the twenty-six capital letters, each to its own small one.
pub proof fn lowering_is_for_capitals(c: char)
    ensures
        'A' <= c && c <= 'Z' ==> ascii_lower(c) as u32 == c as u32 + 'a' as u32 - 'A' as u32,
        !('A' <= c && c <= 'Z') ==> ascii_lower(c) == c,
{
}

// ---------------------------------------------------------------- paths

/// A name is put behind its directory with exactly one slash between, unless it
/// is absolute or there is no directory.
pub proof fn names_are_put_behind_their_directory(dir: Seq<char>, name: Seq<char>)
    requires
        !is_rooted(name),
    ensures
        path_join(Seq::empty(), name) == name,
        path_join(dir, seq!['/'] + name) == seq!['/'] + name,
        path_join(dir.push('/'), name) == dir.push('/') + name,
        dir.len() > 0 && dir.last() != '/' ==> path_join(dir, name) == dir.push('/') + name,
{
    reveal_strlit("/");
    assert((seq!['/'] + name)[0] == '/');
    assert(dir + "/"@ =~= dir.push('/'));
}

/// A name loses its last extension, and a name that only begins with a dot keeps
/// it.
pub proof fn stems_stand_before_the_last_dot(base: Seq<char>, extension: Seq<char>)
    requires
        !extension.contains('.'),
    ensures
        base.len() > 0 ==> stem(base.push('.') + extension) == base,
        stem(extension) == extension,
        stem(seq!['.'] + extension) == seq!['.'] + extension,
{
    lemma_last_dot(base, extension);
    assert((base.push('.') + extension).take(base.len() as int) =~= base);
    lemma_last_dot(Seq::empty(), extension);
    assert(Seq::<char>::empty().push('.') =~= seq!['.']);
    lemma_no_dot(extension);
}

proof fn lemma_no_dot(s: Seq<char>)
    requires
        !s.contains('.'),
    ensures
        last_dot(s) is None,
    decreases s.len(),
{
    if s.len() > 0 {
        assert(s[s.len() - 1] != '.');
        assert forall|i: int| 0 <= i < s.len() - 1 implies s.drop_last()[i] != '.' by {
            assert(s[i] != '.');
        }
        lemma_no_dot(s.drop_last());
    }
}

proof fn lemma_last_dot(base: Seq<char>, extension: Seq<char>)
    requires
        !extension.contains('.'),
    ensures
        last_dot(base.push('.') + extension) == Some(base.len() as int),
    decreases extension.len(),
{
    let s = base.push('.') + extension;
    if extension.len() == 0 {
        assert(s =~= base.push('.'));
    } else {
        assert(extension[extension.len() - 1] != '.');
        assert(s.drop_last() =~= base.push('.') + extension.drop_last());
        assert forall|i: int| 0 <= i < extension.len() - 1 implies extension.drop_last()[i]
            != '.' by {
            assert(extension[i] != '.');
        }
        lemma_last_dot(base, extension.drop_last());
    }
}

// ---------------------------------------------------------------- numbers

/// No integer is nearer to a quotient than the one it is rounded to. Of two that
/// are equally near the one rule takes the even one, the other the one that is
/// farther from zero.
pub proof fn rounding_finds_the_nearest(n: int, d: int)
    requires
        d > 0,
    ensures
        n >= 0 ==> ({
            let r = round_half_even(n as nat, d as nat) as int;
            &&& -d <= 2 * (n - r * d) <= d
            &&& 2 * (n - r * d) == d || 2 * (n - r * d) == -d ==> r % 2 == 0
        }),
        ({
            let r = round_half_away(n, d);
            &&& -d <= 2 * (n - r * d) <= d
            &&& 2 * (n - r * d) == d ==> n < 0
            &&& 2 * (n - r * d) == -d ==> n > 0
        }),
{
    if n >= 0 {
        lemma_near(n, d);
        lemma_quotient(n, d);
        let q = n / d;
        assert((q + 1) * d == q * d + d) by (nonlinear_arith);
    } else {
        lemma_near(-n, d);
        let r = (2 * -n + d) / (2 * d);
        assert((-r) * d == -(r * d)) by (nonlinear_arith);
    }
}

proof fn lemma_quotient(n: int, d: int)
    requires
        d > 0,
    ensures
        n == (n / d) * d + n % d,
        0 <= n % d < d,
{
    assert(n == d * (n / d) + n % d && 0 <= n % d < d) by (nonlinear_arith)
        requires
            d > 0,
    ;
    assert(d * (n / d) == (n / d) * d) by (nonlinear_arith);
}

proof fn lemma_near(n: int, d: int)
    requires
        d > 0,
        n >= 0,
    ensures
        ({
            let r = (2 * n + d) / (2 * d);
            &&& -d <= 2 * (n - r * d) < d
            &&& 2 * (n - r * d) == -d ==> n > 0
        }),
{
    let r = (2 * n + d) / (2 * d);
    lemma_quotient(2 * n + d, 2 * d);
    assert(r * (2 * d) == 2 * (r * d)) by (nonlinear_arith);
    if n == 0 {
        assert(r == 0) by (nonlinear_arith)
            requires
                d > 0,
                r == (2 * 0 + d) / (2 * d),
        ;
    }
}

/// A quotient is rounded as its value, whichever of its parts carries the sign.
pub proof fn quotients_are_rounded_by_value(num: i64, den: i64)
    requires
        den != 0,
    ensures
        ({
            let r = (Ratio { num, den }).nearest();
            let (n, d) = if den > 0 {
                (num as int, den as int)
            } else {
                (-num, -den)
            };
            &&& i32::MIN < r < i32::MAX ==> -d <= 2 * (n - r * d) <= d
            &&& r == i32::MAX ==> 2 * n >= (2 * i32::MAX - 1) * d
            &&& r == i32::MIN ==> 2 * n <= (2 * i32::MIN + 1) * d
            &&& i32::MIN <= r <= i32::MAX
        }),
{
    let (n, d) = if den > 0 {
        (num as int, den as int)
    } else {
        (-num, -den)
    };
    rounding_finds_the_nearest(n, d);
    let r = round_half_away(n, d);
    let hi = i32::MAX as int;
    let lo = i32::MIN as int;
    if r >= hi {
        assert(r * d >= hi * d) by (nonlinear_arith)
            requires
                r >= hi,
                d > 0,
        ;
        assert((2 * hi - 1) * d == 2 * (hi * d) - d) by (nonlinear_arith);
    }
    if r <= lo {
        assert(r * d <= lo * d) by (nonlinear_arith)
            requires
                r <= lo,
                d > 0,
        ;
        assert((2 * lo + 1) * d == 2 * (lo * d) + d) by (nonlinear_arith);
    }
}

/// Digits with a point among them are those digits, shifted by as many places as
/// follow the point; an exponent shifts them back.
pub proof fn decimals_are_digits_and_a_shift(
    whole: Seq<char>,
    fraction: Seq<char>,
    exponent: Seq<char>,
)
    requires
        all_digits(whole),
        all_digits(fraction),
        whole.len() + fraction.len() > 0,
        parse_int(exponent) is Some,
    ensures
        parse_decimal(whole + seq!['.'] + fraction) == Some(
            Decimal {
                negative: false,
                digits: whole + fraction,
                exponent: -(fraction.len() as int),
            },
        ),
        parse_decimal(whole + seq!['.'] + fraction + seq!['e'] + exponent) == Some(
            Decimal {
                negative: false,
                digits: whole + fraction,
                exponent: parse_int(exponent)->0 - fraction.len(),
            },
        ),
        whole.len() > 0 ==> parse_decimal(seq!['-'] + whole) == Some(
            Decimal { negative: true, digits: whole, exponent: 0 },
        ),
{
    let dot = seq!['.'];
    let s = whole + dot + fraction;
    assert(s =~= Seq::empty() + whole + (dot + fraction));
    lemma_run_to(Seq::empty(), whole, dot + fraction);
    assert(s =~= (whole + dot) + fraction + Seq::empty());
    lemma_run_to(whole + dot, fraction, Seq::empty());
    if whole.len() > 0 {
        assert(is_digit(whole[0]));
        assert(s[0] == whole[0]);
    } else {
        assert(s[0] == '.');
    }
    assert(s.subrange(0, whole.len() as int) =~= whole);
    assert(s.subrange(whole.len() as int + 1, s.len() as int) =~= fraction);

    let tail = seq!['e'] + exponent;
    let t = whole + dot + fraction + seq!['e'] + exponent;
    assert(t =~= Seq::empty() + whole + (dot + fraction + tail));
    lemma_run_to(Seq::empty(), whole, dot + fraction + tail);
    assert(t =~= (whole + dot) + fraction + tail);
    lemma_run_to(whole + dot, fraction, tail);
    assert(t[0] == s[0]);
    assert(t.subrange(0, whole.len() as int) =~= whole);
    assert(t.subrange(whole.len() as int + 1, s.len() as int) =~= fraction);
    assert(t.skip(s.len() as int + 1) =~= exponent);

    if whole.len() > 0 {
        let m = seq!['-'] + whole;
        assert(m =~= seq!['-'] + whole + Seq::empty());
        lemma_run_to(seq!['-'], whole, Seq::empty());
        assert(m.subrange(1, m.len() as int) + Seq::<char>::empty() =~= whole);
    }
}

proof fn lemma_run_to(a: Seq<char>, digits: Seq<char>, b: Seq<char>)
    requires
        all_digits(digits),
        b.len() > 0 ==> !is_digit(b[0]),
    ensures
        run_end(a + digits + b, a.len() as int) == a.len() + digits.len(),
    decreases digits.len(),
{
    let s = a + digits + b;
    if digits.len() > 0 {
        assert(s[a.len() as int] == digits[0]);
        assert(s =~= a.push(digits[0]) + digits.skip(1) + b);
        lemma_run_to(a.push(digits[0]), digits.skip(1), b);
    } else if b.len() > 0 {
        assert(s[a.len() as int] == b[0]);
    }
}

/// An infinity in words, in capitals or not, is as far out as its sign says, and
/// what is no number counts for nothing.
pub proof fn numbers_in_words_are_far_out_or_nothing(word: Seq<char>)
    requires
        ascii_lowercase(word) == "inf"@ || ascii_lowercase(word) == "infinity"@ || ascii_lowercase(
            word,
        ) == "nan"@,
    ensures
        ({
            let far = ascii_lowercase(word) != "nan"@;
            &&& parse_nanos(word) == Some(
                if far {
                    i64::MAX as int
                } else {
                    0
                },
            )
            &&& parse_nanos(seq!['-'] + word) == Some(
                if far {
                    i64::MIN as int
                } else {
                    0
                },
            )
        }),
{
    reveal_strlit("inf");
    reveal_strlit("infinity");
    reveal_strlit("nan");
    let lowered = ascii_lowercase(word);
    assert(lowered.len() == word.len());
    assert(lowered[0] == ascii_lower(word[0]));
    assert(lowered[0] == 'i' || lowered[0] == 'n');
    assert("inf"@.len() != "infinity"@.len() && "inf"@[0] != "nan"@[0] && "infinity"@[0]
        != "nan"@[0]);
    assert(!is_digit(word[0]) && word[0] != '-' && word[0] != '+' && word[0] != '.');
    assert(run_end(word, 0) == 0);
    assert(word.subrange(0, 0) + Seq::<char>::empty() =~= Seq::empty());
    assert(parse_decimal(word) is None);
    let signed = seq!['-'] + word;
    assert(signed[0] == '-' && signed[1] == word[0]);
    assert(signed.skip(1) =~= word);
    assert(run_end(signed, 1) == 1);
    assert(signed.subrange(1, 1) + Seq::<char>::empty() =~= Seq::empty());
    assert(parse_decimal(signed) is None);
}

// ---------------------------------------------------------------- modes

/// The preferred mode is one of those listed; none listed has more pixels, and
/// none with as many is faster.
pub proof fn preferred_modes_are_the_largest(m: Monitor, k: int)
    requires
        0 <= k < m.modes().len(),
    ensures
        m.preferred() is Some,
        m.modes().contains(m.preferred()->0),
        ({
            let best = m.preferred()->0;
            let other = m.modes()[k];
            let more = best.width * best.height - other.width * other.height;
            more > 0 || (more == 0 && best.refresh.nanos >= other.refresh.nanos)
        }),
{
    ranking_orders_the_modes(read_modes(views(m.available_modes@)));
    assert(m.modes()[0] == m.preferred()->0);
    assert(!m.modes()[k].beats(m.modes()[0]));
}

/// A mode says the same with its unit behind it.
pub proof fn units_of_modes_are_passed_over(s: Seq<char>)
    requires
        s.len() > 0,
        !is_white(s[0]),
        !is_white(s.last()),
    ensures
        read_mode(s + "Hz"@) == read_mode(s),
{
    reveal_strlit("Hz");
    let unit = "Hz"@;
    let t = s + unit;
    let none = Seq::<char>::empty();
    assert(none + t + none =~= t);
    assert(t[0] == s[0]);
    assert(t.last() == 'z');
    surrounding_white_is_trimmed(none, t, none);
    assert(none + s + none =~= s);
    surrounding_white_is_trimmed(none, s, none);
    assert(t.subrange(s.len() as int, t.len() as int) =~= unit);
    assert(t.take(s.len() as int) =~= s);
}

// ---------------------------------------------------------------- order

/// Two texts come in the order of the first character in which they differ, and a
/// text comes before those that it begins.
pub proof fn texts_come_by_their_first_difference(
    same: Seq<char>,
    a: char,
    b: char,
    c: Seq<char>,
    d: Seq<char>,
)
    requires
        a < b,
    ensures
        comes_first(same.push(a) + c, same.push(b) + d),
        !comes_first(same.push(b) + d, same.push(a) + c),
        comes_first(same, same.push(a) + c),
        !comes_first(same.push(a) + c, same),
    decreases same.len(),
{
    let x = same.push(a) + c;
    let y = same.push(b) + d;
    if same.len() > 0 {
        let rest = same.skip(1);
        assert(x.skip(1) =~= rest.push(a) + c);
        assert(y.skip(1) =~= rest.push(b) + d);
        assert(x[0] == same[0] && y[0] == same[0]);
        texts_come_by_their_first_difference(rest, a, b, c, d);
    } else {
        assert(x[0] == a && y[0] == b);
    }
}

/// Sorting keeps the texts and puts none behind one that it comes before.
pub proof fn sorted_texts_are_in_order(texts: Seq<Seq<char>>, i: int, j: int)
    requires
        0 <= i < j < texts.len(),
    ensures
        sorted_texts(texts).to_multiset() == texts.to_multiset(),
        sorted_texts(texts).len() == texts.len(),
        comes_first(sorted_texts(texts)[i], sorted_texts(texts)[j]),
{
    lemma_text_order();
    texts.lemma_sort_by_ensures(text_order());
    let sorted = sorted_texts(texts);
    texts.to_multiset_ensures();
    sorted.to_multiset_ensures();
    assert(text_order()(sorted[i], sorted[j]));
}

// ---------------------------------------------------------------- sentences

/// The values of a sentence stand in its gaps, in their order.
pub proof fn values_fill_the_gaps_in_order(
    a: Seq<char>,
    b: Seq<char>,
    c: Seq<char>,
    x: Seq<char>,
    y: Seq<char>,
    locale: Locale,
)
    ensures
        fill(seq![a], seq![], locale) == a,
        fill(seq![a, b], seq![ArgView::Text(x)], locale) == a + x + b,
        fill(seq![a, b, c], seq![ArgView::Text(x), ArgView::Text(y)], locale) == a + x + b + y + c,
{
    let args = seq![ArgView::Text(x), ArgView::Text(y)];
    assert(seq![a, b, c].drop_last() =~= seq![a, b]);
    assert(seq![a, b].drop_last() =~= seq![a]);
    reveal_with_fuel(fill, 4);
    assert(args[0] == ArgView::Text(x));
}

/// A turn is told by its degrees, and a flip behind them.
pub proof fn turns_are_told_in_degrees(t: Transform, locale: Locale)
    ensures
        ({
            let s = turn_text(t, locale);
            let k = find(s, "°"@);
            &&& k is Some
            &&& parse_nat(s.take(k->0)) == Some(t.rotation.angle() as nat)
            &&& t.flipped == (s.len() > k->0 + 1)
        }),
{
    reveal_strlit("°");
    reveal_strlit(" flipped");
    reveal_strlit(" retourné");
    let digits = int_text(t.rotation.angle());
    naturals_read_back(t.rotation.angle() as nat);
    let s = turn_text(t, locale);
    let n = digits.len() as int;
    assert(s.subrange(n, n + 1) =~= "°"@);
    assert(occurs_at(s, "°"@, n));
    assert forall|k: int| 0 <= k < n implies !occurs_at(s, "°"@, k) by {
        assert(is_digit(digits[k]));
        assert(s[k] == digits[k]);
        if occurs_at(s, "°"@, k) {
            assert(s.subrange(k, k + 1)[0] == s[k]);
        }
    }
    lemma_find_first(s, "°"@, n);
    assert(s.take(n) =~= digits);
}

} // verus!
