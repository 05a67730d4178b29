//! Text as sequences of characters: what trimming, splitting, searching and
//! joining mean, and the functions that do them.

use vstd::prelude::*;

verus! {

/// `String::push` appends the given character and changes nothing else.
pub assume_specification[ String::push ](s: &mut String, c: char)
    ensures
        final(s)@ == old(s)@.push(c),
;

// ---------------------------------------------------------------- models

/// Unicode's `White_Space` property.
pub open spec fn is_white(c: char) -> bool {
    let n = c as u32;
    (9 <= n <= 13) || n == 32 || n == 0x85 || n == 0xA0 || n == 0x1680 || (0x2000 <= n <= 0x200A)
        || n == 0x2028 || n == 0x2029 || n == 0x202F || n == 0x205F || n == 0x3000
}

/// `s` without the white space it starts with.
pub open spec fn trim_start(s: Seq<char>) -> Seq<char>
    decreases s.len(),
{
    if s.len() > 0 && is_white(s[0]) {
        trim_start(s.skip(1))
    } else {
        s
    }
}

/// `s` without the white space it ends with.
pub open spec fn trim_end(s: Seq<char>) -> Seq<char>
    decreases s.len(),
{
    if s.len() > 0 && is_white(s.last()) {
        trim_end(s.drop_last())
    } else {
        s
    }
}

/// `s` without the white space around it.
pub open spec fn trim(s: Seq<char>) -> Seq<char> {
    trim_end(trim_start(s))
}

/// Whether `p` stands in `s` at position `i`.
pub open spec fn occurs_at(s: Seq<char>, p: Seq<char>, i: int) -> bool {
    0 <= i && i + p.len() <= s.len() && s.subrange(i, i + p.len()) == p
}

/// Whether `p` stands somewhere in `s`.
pub open spec fn contains(s: Seq<char>, p: Seq<char>) -> bool {
    exists|i: int| occurs_at(s, p, i)
}

pub open spec fn starts_with(s: Seq<char>, p: Seq<char>) -> bool {
    occurs_at(s, p, 0)
}

pub open spec fn ends_with(s: Seq<char>, p: Seq<char>) -> bool {
    occurs_at(s, p, s.len() - p.len())
}

/// The first position at or after `i` where `p` stands in `s`.
pub open spec fn find_from(s: Seq<char>, p: Seq<char>, i: int) -> Option<int>
    decreases s.len() + 1 - i,
{
    if i < 0 || i + p.len() > s.len() {
        None
    } else if occurs_at(s, p, i) {
        Some(i)
    } else {
        find_from(s, p, i + 1)
    }
}

/// The first position where `p` stands in `s`.
pub open spec fn find(s: Seq<char>, p: Seq<char>) -> Option<int> {
    find_from(s, p, 0)
}

/// The pieces of `s` between the occurrences of a non-empty separator.
pub open spec fn split(s: Seq<char>, p: Seq<char>) -> Seq<Seq<char>>
    decreases s.len(),
    when p.len() > 0
    via split_decreases
{
    match find(s, p) {
        None => seq![s],
        Some(i) => seq![s.take(i)] + split(s.skip(i + p.len()), p),
    }
}

#[via_fn]
proof fn split_decreases(s: Seq<char>, p: Seq<char>) {
    lemma_find(s, p, 0);
}

/// What stands before and after the first occurrence of `p`.
pub open spec fn split_once(s: Seq<char>, p: Seq<char>) -> Option<(Seq<char>, Seq<char>)> {
    match find(s, p) {
        None => None,
        Some(i) => Some((s.take(i), s.skip(i + p.len()))),
    }
}

/// `s` with every occurrence of a non-empty `p`, left to right, replaced by `w`.
pub open spec fn replace(s: Seq<char>, p: Seq<char>, w: Seq<char>) -> Seq<char> {
    join(split(s, p), w)
}

/// `parts` in order with `sep` between neighbours.
pub open spec fn join(parts: Seq<Seq<char>>, sep: Seq<char>) -> Seq<char>
    decreases parts.len(),
{
    if parts.len() == 0 {
        Seq::empty()
    } else if parts.len() == 1 {
        parts[0]
    } else {
        join(parts.drop_last(), sep) + sep + parts.last()
    }
}

/// A terminated line without its terminator: `\n`, or `\r\n`.
pub open spec fn strip_return(s: Seq<char>) -> Seq<char> {
    if s.len() > 0 && s.last() == '\r' {
        s.drop_last()
    } else {
        s
    }
}

/// The lines of `s`. A last line needs no terminator, and an empty one after
/// the last terminator does not count.
pub open spec fn lines(s: Seq<char>) -> Seq<Seq<char>>
    decreases s.len(),
    via lines_decreases
{
    if s.len() == 0 {
        Seq::empty()
    } else {
        match find(s, seq!['\n']) {
            None => seq![s],
            Some(i) => seq![strip_return(s.take(i))] + lines(s.skip(i + 1)),
        }
    }
}

#[via_fn]
proof fn lines_decreases(s: Seq<char>) {
    lemma_find(s, seq!['\n'], 0);
}

/// The length of the run of characters at the start of `s` that are white
/// space, or that are not.
pub open spec fn run_len(s: Seq<char>, white: bool) -> nat
    decreases s.len(),
{
    if s.len() > 0 && is_white(s[0]) == white {
        1 + run_len(s.skip(1), white)
    } else {
        0
    }
}

/// The words of `s`: the longest runs that hold no white space.
pub open spec fn words(s: Seq<char>) -> Seq<Seq<char>>
    decreases s.len(),
    via words_decreases
{
    let rest = trim_start(s);
    if rest.len() == 0 {
        Seq::empty()
    } else {
        let n = run_len(rest, false) as int;
        seq![rest.take(n)] + words(rest.skip(n))
    }
}

#[via_fn]
proof fn words_decreases(s: Seq<char>) {
    lemma_trim_start_len(s);
    lemma_run_len(trim_start(s), false);
}

/// The strings that a vector holds.
pub open spec fn views(v: Seq<String>) -> Seq<Seq<char>> {
    Seq::new(v.len(), |i: int| v[i]@)
}

/// The text that an optional string holds.
pub open spec fn view_opt(o: Option<String>) -> Option<Seq<char>> {
    match o {
        Some(s) => Some(s@),
        None => None,
    }
}

/// The text that an optional string slice holds.
pub open spec fn view_opt_str(o: Option<&str>) -> Option<Seq<char>> {
    match o {
        Some(s) => Some(s@),
        None => None,
    }
}

/// How often `c` stands in `s`.
pub open spec fn count(s: Seq<char>, c: char) -> nat
    decreases s.len(),
{
    if s.len() == 0 {
        0
    } else {
        count(s.drop_last(), c) + if s.last() == c { 1nat } else { 0nat }
    }
}

/// `s` without the characters `c`.
pub open spec fn without(s: Seq<char>, c: char) -> Seq<char> {
    s.filter(|x: char| x != c)
}

/// `s` without the copies of a non-empty `p` that it ends with.
pub open spec fn strip_end(s: Seq<char>, p: Seq<char>) -> Seq<char>
    decreases s.len(),
{
    if p.len() > 0 && ends_with(s, p) {
        strip_end(s.take(s.len() - p.len()), p)
    } else {
        s
    }
}

/// The lower case of an ASCII letter; any other character is its own.
pub open spec fn ascii_lower(c: char) -> char {
    if 'A' <= c && c <= 'Z' {
        ((c as u8 + 32) as u8) as char
    } else {
        c
    }
}

pub open spec fn ascii_lowercase(s: Seq<char>) -> Seq<char> {
    s.map_values(|c: char| ascii_lower(c))
}

/// The total length of the pieces.
pub open spec fn total_len(parts: Seq<Seq<char>>) -> nat
    decreases parts.len(),
{
    if parts.len() == 0 {
        0
    } else {
        total_len(parts.drop_last()) + parts.last().len()
    }
}

// ---------------------------------------------------------------- lemmas

pub proof fn lemma_find(s: Seq<char>, p: Seq<char>, i: int)
    requires
        0 <= i,
    ensures
        match find_from(s, p, i) {
            Some(k) => i <= k && occurs_at(s, p, k) && forall|j: int|
                i <= j < k ==> !occurs_at(s, p, j),
            None => forall|j: int| i <= j ==> !occurs_at(s, p, j),
        },
    decreases s.len() + 1 - i,
{
    if i + p.len() <= s.len() && !occurs_at(s, p, i) {
        lemma_find(s, p, i + 1);
    }
}

/// Where `p` stands and nowhere before it stands, there it is found.
pub proof fn lemma_find_first(s: Seq<char>, p: Seq<char>, n: int)
    requires
        occurs_at(s, p, n),
        forall|j: int| 0 <= j < n ==> !occurs_at(s, p, j),
    ensures
        find(s, p) == Some(n),
{
    lemma_find(s, p, 0);
    match find(s, p) {
        None => {
            assert(!occurs_at(s, p, n));
        },
        Some(k) => {
            if k > n {
                assert(!occurs_at(s, p, n));
            }
        },
    }
}

pub proof fn lemma_contains(s: Seq<char>, p: Seq<char>)
    ensures
        contains(s, p) == (find(s, p) is Some),
{
    lemma_find(s, p, 0);
}

/// Searching from `i` is searching what follows `i`.
pub proof fn lemma_find_skip(s: Seq<char>, p: Seq<char>, from: int, i: int)
    requires
        0 <= from <= i <= s.len(),
    ensures
        find_from(s, p, i) == match find_from(s.skip(from), p, i - from) {
            Some(k) => Some(k + from),
            None => None,
        },
    decreases s.len() - i,
{
    if i + p.len() <= s.len() {
        assert(s.subrange(i, i + p.len()) =~= s.skip(from).subrange(i - from, i - from + p.len()));
        if !occurs_at(s, p, i) && i < s.len() {
            lemma_find_skip(s, p, from, i + 1);
        }
    }
}

pub proof fn lemma_trim_start_len(s: Seq<char>)
    ensures
        trim_start(s).len() <= s.len(),
        trim_start(s) == s.skip(s.len() - trim_start(s).len()),
        trim_start(s).len() > 0 ==> !is_white(trim_start(s)[0]),
        forall|i: int| 0 <= i < s.len() - trim_start(s).len() ==> is_white(s[i]),
    decreases s.len(),
{
    if s.len() > 0 && is_white(s[0]) {
        lemma_trim_start_len(s.skip(1));
        let n = s.len() - trim_start(s).len();
        assert(s.skip(1).skip(n - 1) =~= s.skip(n));
        assert forall|i: int| 0 <= i < n implies is_white(s[i]) by {
            if i > 0 {
                assert(s[i] == s.skip(1)[i - 1]);
            }
        }
    } else {
        assert(s.skip(0) =~= s);
    }
}

pub proof fn lemma_trim_end_len(s: Seq<char>)
    ensures
        trim_end(s).len() <= s.len(),
        trim_end(s) == s.take(trim_end(s).len() as int),
        trim_end(s).len() > 0 ==> !is_white(trim_end(s).last()),
    decreases s.len(),
{
    if s.len() > 0 && is_white(s.last()) {
        lemma_trim_end_len(s.drop_last());
        assert(s.drop_last().take(trim_end(s).len() as int) =~= s.take(trim_end(s).len() as int));
    } else {
        assert(s.take(s.len() as int) =~= s);
    }
}

pub proof fn lemma_run_len(s: Seq<char>, white: bool)
    ensures
        run_len(s, white) <= s.len(),
        s.len() > 0 && is_white(s[0]) == white ==> run_len(s, white) > 0,
        run_len(s, white) < s.len() ==> is_white(s[run_len(s, white) as int]) != white,
        forall|i: int| 0 <= i < run_len(s, white) ==> is_white(s[i]) == white,
    decreases s.len(),
{
    if s.len() > 0 && is_white(s[0]) == white {
        lemma_run_len(s.skip(1), white);
        assert forall|i: int| 0 <= i < run_len(s, white) implies is_white(s[i]) == white by {
            if i > 0 {
                assert(s[i] == s.skip(1)[i - 1]);
            }
        }
    }
}

/// A run that ends at `n` has length `n`.
proof fn lemma_run_is(s: Seq<char>, white: bool, n: int)
    requires
        0 <= n <= s.len(),
        forall|i: int| 0 <= i < n ==> is_white(s[i]) == white,
        n < s.len() ==> is_white(s[n]) != white,
    ensures
        run_len(s, white) == n,
    decreases s.len(),
{
    if n > 0 {
        assert forall|i: int| 0 <= i < n - 1 implies is_white(s.skip(1)[i]) == white by {
            assert(s.skip(1)[i] == s[i + 1]);
        }
        if n < s.len() {
            assert(s.skip(1)[n - 1] == s[n]);
        }
        lemma_run_is(s.skip(1), white, n - 1);
    }
}

pub proof fn lemma_views_push(v: Seq<String>, s: String)
    ensures
        views(v.push(s)) == views(v).push(s@),
{
    assert(views(v.push(s)) =~= views(v).push(s@));
}

/// What is left of a text is of the text, and not what was taken out.
pub proof fn lemma_without(s: Seq<char>, c: char, i: int)
    requires
        0 <= i < without(s, c).len(),
    ensures
        without(s, c)[i] != c,
        s.contains(without(s, c)[i]),
    decreases s.len(),
{
    reveal(Seq::filter);
    let body = s.drop_last();
    if i < without(body, c).len() {
        lemma_without(body, c, i);
        let k = choose|k: int| 0 <= k < body.len() && body[k] == without(body, c)[i];
        assert(s[k] == without(s, c)[i]);
    } else {
        assert(s[s.len() - 1] == s.last());
    }
}

pub proof fn lemma_total_len_cons(head: Seq<char>, tail: Seq<Seq<char>>)
    ensures
        total_len(seq![head] + tail) == head.len() + total_len(tail),
    decreases tail.len(),
{
    if tail.len() == 0 {
        assert(seq![head] + tail =~= seq![head]);
        assert(seq![head].drop_last() =~= Seq::<Seq<char>>::empty());
        assert(total_len(seq![head]) == head.len()) by {
            reveal_with_fuel(total_len, 2);
        }
    } else {
        assert((seq![head] + tail).drop_last() =~= seq![head] + tail.drop_last());
        assert((seq![head] + tail).last() == tail.last());
        lemma_total_len_cons(head, tail.drop_last());
    }
}

/// The lines of a text are together no longer than the text.
pub proof fn lemma_lines_total(s: Seq<char>)
    ensures
        total_len(lines(s)) <= s.len(),
    decreases s.len(),
{
    if s.len() > 0 {
        lemma_find(s, seq!['\n'], 0);
        match find(s, seq!['\n']) {
            None => {
                lemma_total_len_cons(s, Seq::empty());
                assert(seq![s] + Seq::<Seq<char>>::empty() =~= seq![s]);
            },
            Some(i) => {
                lemma_lines_total(s.skip(i + 1));
                lemma_total_len_cons(strip_return(s.take(i)), lines(s.skip(i + 1)));
            },
        }
    }
}

// ---------------------------------------------------------------- functions

/// The characters of a string.
pub fn to_chars(s: &str) -> (r: Vec<char>)
    ensures
        r@ == s@,
{
    let mut r: Vec<char> = Vec::new();
    for c in iter: s.chars()
        invariant
            r@ == iter.seq().take(iter.index()),
            iter.seq() == s@,
    {
        r.push(c);
        assert(r@ == iter.seq().take(iter.index() + 1));
    }
    assert(r@ == s@);
    r
}

/// The characters `v[from..to]` as a string.
pub fn slice_string(v: &Vec<char>, from: usize, to: usize) -> (r: String)
    requires
        from <= to <= v@.len(),
    ensures
        r@ == v@.subrange(from as int, to as int),
{
    let mut r = String::new();
    let mut i: usize = from;
    while i < to
        invariant
            from <= i <= to <= v@.len(),
            r@ == v@.subrange(from as int, i as int),
        decreases to - i,
    {
        r.push(v[i]);
        i = i + 1;
        assert(r@ == v@.subrange(from as int, i as int));
    }
    r
}

/// Whether two strings hold the same text.
pub fn same(a: &str, b: &str) -> (r: bool)
    ensures
        r == (a@ == b@),
{
    a.to_owned() == b.to_owned()
}

/// Whether two optional strings hold the same text.
pub fn same_opt(a: &Option<String>, b: &Option<String>) -> (r: bool)
    ensures
        r == (view_opt(*a) == view_opt(*b)),
{
    match (a, b) {
        (Some(x), Some(y)) => same(x.as_str(), y.as_str()),
        (None, None) => true,
        _ => false,
    }
}

/// A copy of an optional string.
pub fn copy_opt(a: &Option<String>) -> (r: Option<String>)
    ensures
        view_opt(r) == view_opt(*a),
{
    match a {
        Some(x) => Some(x.clone()),
        None => None,
    }
}

/// A copy of a list of strings.
pub fn copy_all(v: &Vec<String>) -> (r: Vec<String>)
    ensures
        views(r@) == views(v@),
{
    let mut r: Vec<String> = Vec::new();
    let mut i: usize = 0;
    while i < v.len()
        invariant
            i <= v@.len(),
            views(r@) == views(v@).take(i as int),
        decreases v@.len() - i,
    {
        let s = v[i].clone();
        proof {
            lemma_views_push(r@, s);
        }
        r.push(s);
        i = i + 1;
        assert(views(r@) =~= views(v@).take(i as int));
    }
    assert(views(v@).take(v@.len() as int) =~= views(v@));
    r
}

/// Whether the list holds the text.
pub fn among(v: &Vec<String>, s: &str) -> (r: bool)
    ensures
        r == views(v@).contains(s@),
{
    let mut i: usize = 0;
    while i < v.len()
        invariant
            i <= v@.len(),
            forall|j: int| 0 <= j < i ==> views(v@)[j] != s@,
        decreases v@.len() - i,
    {
        if same(v[i].as_str(), s) {
            assert(views(v@)[i as int] == s@);
            return true;
        }
        i = i + 1;
    }
    false
}

pub fn is_white_char(c: char) -> (r: bool)
    ensures
        r == is_white(c),
{
    let n: u32 = c as u32;
    (9 <= n && n <= 13) || n == 32 || n == 0x85 || n == 0xA0 || n == 0x1680 || (0x2000 <= n && n
        <= 0x200A) || n == 0x2028 || n == 0x2029 || n == 0x202F || n == 0x205F || n == 0x3000
}

/// Where the text of `v` begins after white space.
pub fn start_of(v: &Vec<char>, from: usize) -> (r: usize)
    requires
        from <= v@.len(),
    ensures
        from <= r <= v@.len(),
        v@.skip(r as int) == trim_start(v@.skip(from as int)),
{
    let mut i: usize = from;
    while i < v.len() && is_white_char(v[i])
        invariant
            from <= i <= v@.len(),
            trim_start(v@.skip(i as int)) == trim_start(v@.skip(from as int)),
        decreases v@.len() - i,
    {
        assert(v@.skip(i as int).skip(1) =~= v@.skip(i as int + 1));
        i = i + 1;
    }
    i
}

/// Where the text of `v`, from `from` on, ends before white space.
fn end_of(v: &Vec<char>, from: usize) -> (r: usize)
    requires
        from <= v@.len(),
    ensures
        from <= r <= v@.len(),
        v@.subrange(from as int, r as int) == trim_end(v@.skip(from as int)),
{
    let mut i: usize = v.len();
    assert(v@.subrange(from as int, i as int) =~= v@.skip(from as int));
    while i > from && is_white_char(v[i - 1])
        invariant
            from <= i <= v@.len(),
            trim_end(v@.subrange(from as int, i as int)) == trim_end(v@.skip(from as int)),
        decreases i,
    {
        assert(v@.subrange(from as int, i as int).drop_last() =~= v@.subrange(
            from as int,
            i - 1,
        ));
        i = i - 1;
    }
    i
}

/// `s` without the white space around it.
pub fn trimmed(s: &str) -> (r: String)
    ensures
        r@ == trim(s@),
{
    let v = to_chars(s);
    let a: usize = start_of(&v, 0);
    let b: usize = end_of(&v, a);
    assert(v@.skip(0) =~= v@);
    slice_string(&v, a, b)
}

/// `s` without the white space it starts with.
pub fn trimmed_start(s: &str) -> (r: String)
    ensures
        r@ == trim_start(s@),
{
    let v = to_chars(s);
    let a: usize = start_of(&v, 0);
    assert(v@.skip(0) =~= v@);
    assert(v@.subrange(a as int, v@.len() as int) =~= v@.skip(a as int));
    slice_string(&v, a, v.len())
}

/// Whether `p` stands in `v` at position `i`.
pub fn occurs(v: &Vec<char>, p: &Vec<char>, i: usize) -> (r: bool)
    requires
        i <= v@.len(),
    ensures
        r == occurs_at(v@, p@, i as int),
{
    if p.len() > v.len() - i {
        return false;
    }
    let mut k: usize = 0;
    while k < p.len()
        invariant
            k <= p@.len(),
            i + p@.len() <= v.len(),
            forall|j: int| 0 <= j < k ==> v@[i + j] == p@[j],
        decreases p@.len() - k,
    {
        if v[i + k] != p[k] {
            assert(v@.subrange(i as int, i + p@.len())[k as int] != p@[k as int]);
            return false;
        }
        k = k + 1;
    }
    assert(v@.subrange(i as int, i + p@.len()) =~= p@);
    true
}

/// The first position at or after `from` where `p` stands in `v`.
pub fn position(v: &Vec<char>, p: &Vec<char>, from: usize) -> (r: Option<usize>)
    requires
        from <= v@.len(),
    ensures
        match r {
            Some(k) => find_from(v@, p@, from as int) == Some(k as int),
            None => find_from(v@, p@, from as int) is None,
        },
{
    let mut i: usize = from;
    while p.len() <= v.len() - i
        invariant
            from <= i <= v@.len(),
            find_from(v@, p@, from as int) == find_from(v@, p@, i as int),
        decreases v@.len() - i,
    {
        if occurs(v, p, i) {
            return Some(i);
        }
        if i == v.len() {
            assert(find_from(v@, p@, i + 1) is None);
            return None;
        }
        i = i + 1;
    }
    None
}

pub fn has(s: &str, p: &str) -> (r: bool)
    ensures
        r == contains(s@, p@),
{
    proof {
        lemma_contains(s@, p@);
    }
    position(&to_chars(s), &to_chars(p), 0).is_some()
}

pub fn begins(s: &str, p: &str) -> (r: bool)
    ensures
        r == starts_with(s@, p@),
{
    occurs(&to_chars(s), &to_chars(p), 0)
}

pub fn finishes(s: &str, p: &str) -> (r: bool)
    ensures
        r == ends_with(s@, p@),
{
    let v = to_chars(s);
    let w = to_chars(p);
    w.len() <= v.len() && occurs(&v, &w, v.len() - w.len())
}

/// What follows `p`, where `s` starts with it.
pub fn after_prefix(s: &str, p: &str) -> (r: Option<String>)
    ensures
        match r {
            Some(t) => starts_with(s@, p@) && t@ == s@.skip(p@.len() as int),
            None => !starts_with(s@, p@),
        },
{
    let v = to_chars(s);
    let w = to_chars(p);
    if occurs(&v, &w, 0) {
        assert(v@.subrange(w@.len() as int, v@.len() as int) =~= v@.skip(w@.len() as int));
        Some(slice_string(&v, w.len(), v.len()))
    } else {
        None
    }
}

/// The parts before and after the first `p`.
pub fn halves(s: &str, p: &str) -> (r: Option<(String, String)>)
    ensures
        match r {
            Some(t) => split_once(s@, p@) == Some((t.0@, t.1@)),
            None => split_once(s@, p@) is None,
        },
{
    let v = to_chars(s);
    let w = to_chars(p);
    proof {
        lemma_find(s@, p@, 0);
    }
    match position(&v, &w, 0) {
        Some(i) => {
            assert(i + w@.len() <= v.len());
            let a = slice_string(&v, 0, i);
            let b = slice_string(&v, i + w.len(), v.len());
            assert(a@ =~= s@.take(i as int));
            assert(b@ =~= s@.skip(i + w@.len()));
            Some((a, b))
        },
        None => None,
    }
}

/// The pieces between the occurrences of a non-empty separator.
pub fn pieces(s: &str, p: &str) -> (r: Vec<String>)
    requires
        p@.len() > 0,
    ensures
        views(r@) == split(s@, p@),
{
    let v = to_chars(s);
    let w = to_chars(p);
    let mut r: Vec<String> = Vec::new();
    let mut at: usize = 0;
    assert(v@.skip(0) =~= v@);
    assert(views(r@) + split(s@, p@) =~= split(s@, p@));
    loop
        invariant
            v@ == s@,
            w@ == p@,
            p@.len() > 0,
            at <= v@.len(),
            views(r@) + split(v@.skip(at as int), p@) == split(s@, p@),
        decreases v@.len() - at,
    {
        proof {
            lemma_find(v@, p@, at as int);
            lemma_find_skip(v@, p@, at as int, at as int);
        }
        match position(&v, &w, at) {
            Some(i) => {
                let t = slice_string(&v, at, i);
                assert(t@ =~= v@.skip(at as int).take(i - at));
                assert(v@.skip(at as int).skip(i - at + p@.len()) =~= v@.skip(i + p@.len()));
                proof {
                    lemma_views_push(r@, t);
                    assert(views(r@).push(t@) + split(v@.skip(i + p@.len()), p@) =~= views(r@) + (
                    seq![t@] + split(v@.skip(i + p@.len()), p@)));
                }
                r.push(t);
                assert(i + w@.len() <= v.len());
                at = i + w.len();
            },
            None => {
                let t = slice_string(&v, at, v.len());
                assert(t@ =~= v@.skip(at as int));
                proof {
                    lemma_views_push(r@, t);
                    assert(views(r@).push(t@) =~= views(r@) + seq![t@]);
                }
                r.push(t);
                return r;
            },
        }
    }
}

/// `parts` in order with `sep` between neighbours.
pub fn joined(parts: &Vec<String>, sep: &str) -> (r: String)
    ensures
        r@ == join(views(parts@), sep@),
{
    let mut r = String::new();
    let mut i: usize = 0;
    while i < parts.len()
        invariant
            i <= parts@.len(),
            r@ == join(views(parts@).take(i as int), sep@),
        decreases parts@.len() - i,
    {
        let ghost before = views(parts@).take(i as int);
        let ghost now = views(parts@).take(i + 1);
        assert(now.drop_last() =~= before);
        assert(now.last() == parts@[i as int]@);
        if i > 0 {
            r.append(sep);
        }
        r.append(parts[i].as_str());
        assert(r@ =~= join(now, sep@));
        i = i + 1;
    }
    assert(views(parts@).take(parts@.len() as int) =~= views(parts@));
    r
}

/// `s` with every occurrence of a non-empty `p` replaced by `w`.
pub fn replaced(s: &str, p: &str, w: &str) -> (r: String)
    requires
        p@.len() > 0,
    ensures
        r@ == replace(s@, p@, w@),
{
    joined(&pieces(s, p), w)
}

/// The lines of a text.
pub fn lines_of(s: &str) -> (r: Vec<String>)
    ensures
        views(r@) == lines(s@),
{
    let v = to_chars(s);
    let mut w: Vec<char> = Vec::new();
    w.push('\n');
    assert(w@ =~= seq!['\n']);
    let mut r: Vec<String> = Vec::new();
    let mut at: usize = 0;
    assert(v@.skip(0) =~= v@);
    assert(views(r@) + lines(s@) =~= lines(s@));
    while at < v.len()
        invariant
            v@ == s@,
            w@ == seq!['\n'],
            at <= v@.len(),
            views(r@) + lines(v@.skip(at as int)) == lines(s@),
        decreases v@.len() - at,
    {
        proof {
            lemma_find(v@, w@, at as int);
            lemma_find_skip(v@, w@, at as int, at as int);
        }
        match position(&v, &w, at) {
            Some(i) => {
                let end: usize = if i > at && v[i - 1] == '\r' {
                    i - 1
                } else {
                    i
                };
                let t = slice_string(&v, at, end);
                assert(t@ =~= strip_return(v@.skip(at as int).take(i - at)));
                assert(v@.skip(at as int).skip(i - at + 1) =~= v@.skip(i + 1));
                proof {
                    lemma_views_push(r@, t);
                    assert(views(r@).push(t@) + lines(v@.skip(i + 1)) =~= views(r@) + (seq![t@]
                        + lines(v@.skip(i + 1))));
                }
                r.push(t);
                at = i + 1;
            },
            None => {
                let t = slice_string(&v, at, v.len());
                assert(t@ =~= v@.skip(at as int));
                proof {
                    lemma_views_push(r@, t);
                    assert(views(r@).push(t@) =~= views(r@) + seq![t@]);
                }
                r.push(t);
                return r;
            },
        }
    }
    assert(views(r@) + Seq::<Seq<char>>::empty() =~= views(r@));
    r
}

/// The words of a text.
pub fn words_of(s: &str) -> (r: Vec<String>)
    ensures
        views(r@) == words(s@),
{
    let v = to_chars(s);
    let mut r: Vec<String> = Vec::new();
    let mut at: usize = 0;
    assert(v@.skip(0) =~= v@);
    assert(views(r@) + words(s@) =~= words(s@));
    loop
        invariant
            v@ == s@,
            at <= v@.len(),
            views(r@) + words(v@.skip(at as int)) == words(s@),
        decreases v@.len() - at,
    {
        let from: usize = start_of(&v, at);
        let ghost rest = v@.skip(from as int);
        if from == v.len() {
            assert(rest =~= Seq::<char>::empty());
            assert(views(r@) + Seq::<Seq<char>>::empty() =~= views(r@));
            return r;
        }
        let mut to: usize = from;
        while to < v.len() && !is_white_char(v[to])
            invariant
                from <= to <= v@.len(),
                forall|j: int| from <= j < to ==> !is_white(v@[j]),
            decreases v@.len() - to,
        {
            to = to + 1;
        }
        proof {
            lemma_trim_start_len(v@.skip(at as int));
            lemma_run_is(rest, false, to - from);
        }
        let t = slice_string(&v, from, to);
        assert(t@ =~= rest.take(to - from));
        assert(rest.skip(to - from) =~= v@.skip(to as int));
        proof {
            lemma_views_push(r@, t);
            assert(views(r@).push(t@) + words(v@.skip(to as int)) =~= views(r@) + (seq![t@] + words(
                v@.skip(to as int),
            )));
        }
        r.push(t);
        at = to;
    }
}

/// `s` without the copies of `p` that it ends with.
pub fn stripped_end(s: &str, p: &str) -> (r: String)
    ensures
        r@ == strip_end(s@, p@),
{
    let v = to_chars(s);
    let w = to_chars(p);
    let mut n: usize = v.len();
    assert(v@.take(n as int) =~= v@);
    while w.len() > 0 && w.len() <= n && ends_before(&v, &w, n)
        invariant
            n <= v@.len(),
            v@ == s@,
            w@ == p@,
            strip_end(v@.take(n as int), w@) == strip_end(s@, p@),
        decreases n,
    {
        assert(v@.take(n as int).take(n - w@.len()) =~= v@.take(n - w@.len()));
        n = n - w.len();
    }
    assert(v@.subrange(0, n as int) =~= v@.take(n as int));
    slice_string(&v, 0, n)
}

/// Whether `v[..n]` ends with `p`.
fn ends_before(v: &Vec<char>, p: &Vec<char>, n: usize) -> (r: bool)
    requires
        p@.len() <= n <= v@.len(),
    ensures
        r == ends_with(v@.take(n as int), p@),
{
    assert(v@.take(n as int).subrange(n - p@.len(), n as int) =~= v@.subrange(
        n - p@.len(),
        n as int,
    ));
    occurs(v, p, n - p.len())
}

/// `s` with its ASCII letters in lower case.
pub fn lowered_ascii(s: &str) -> (r: String)
    ensures
        r@ == ascii_lowercase(s@),
{
    let v = to_chars(s);
    let mut r = String::new();
    let mut i: usize = 0;
    while i < v.len()
        invariant
            i <= v@.len(),
            v@ == s@,
            r@ == ascii_lowercase(s@).take(i as int),
        decreases v@.len() - i,
    {
        let c = v[i];
        if 'A' <= c && c <= 'Z' {
            r.push((c as u8 + 32) as char);
        } else {
            r.push(c);
        }
        i = i + 1;
        assert(r@ =~= ascii_lowercase(s@).take(i as int));
    }
    assert(ascii_lowercase(s@).take(s@.len() as int) =~= ascii_lowercase(s@));
    r
}

/// `s` without the characters `c`.
pub fn removed(s: &str, c: char) -> (r: String)
    ensures
        r@ == without(s@, c),
{
    let v = to_chars(s);
    let mut r = String::new();
    let mut i: usize = 0;
    assert(without(v@.take(0), c) =~= Seq::<char>::empty()) by {
        reveal(Seq::filter);
    }
    while i < v.len()
        invariant
            i <= v@.len(),
            v@ == s@,
            r@ == without(v@.take(i as int), c),
        decreases v@.len() - i,
    {
        assert(v@.take(i + 1).drop_last() =~= v@.take(i as int));
        assert(without(v@.take(i + 1), c) == if v@[i as int] != c {
            without(v@.take(i as int), c).push(v@[i as int])
        } else {
            without(v@.take(i as int), c)
        }) by {
            reveal(Seq::filter);
        }
        if v[i] != c {
            r.push(v[i]);
        }
        i = i + 1;
    }
    assert(v@.take(v@.len() as int) =~= v@);
    r
}

/// The lower case of a text, by Unicode's rules.
pub uninterp spec fn lowercase_of(s: Seq<char>) -> Seq<char>;

/// Whether every character is an ASCII one.
pub open spec fn all_ascii(s: Seq<char>) -> bool {
    forall|i: int| 0 <= i < s.len() ==> (#[trigger] s[i]) as u32 <= 127
}

/// `str::to_lowercase`: the result depends on the text alone, and in a text of
/// ASCII characters it is the lower case of each.
#[verifier::external_body]
pub(crate) fn lowercase(s: &str) -> (r: String)
    ensures
        r@ == lowercase_of(s@),
        all_ascii(s@) ==> r@ == ascii_lowercase(s@),
{
    s.to_lowercase()
}

} // verus!
