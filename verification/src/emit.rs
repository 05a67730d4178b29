//! Persistence: generating the configuration files and wiring them into the
//! user's own configuration.
//!
//! Guiding principle: the program is the sole owner of the files it generates
//! and only touches the user's main configuration once, to pull them in.
//!
//! Nothing here knows a compositor's syntax. The directives, the comment marker,
//! the statement that pulls a file in and the shape of a directive worth
//! adopting all come from a [`Compositor`] plugin.

use vstd::prelude::*;

use crate::compositor::Compositor;
use crate::i18n::Locale;
use crate::input::{InputConfig, InputView};
use crate::layout::{Layout, LayoutView, OutputView};
use crate::notice::{note, Notice, NoticeId};
use crate::number::{nat_string, nat_text};
use crate::path::{file_name, name_of, tilde_path, tilded};
use crate::text::{
    begins, count, ends_with, find, finishes, join, joined, lemma_find, lemma_lines_total,
    lemma_views_push, lines, lines_of, occurs_at, position, starts_with, to_chars, total_len, trim,
    trim_start, trimmed, trimmed_start, view_opt, view_opt_str, views,
};

verus! {

// ---------------------------------------------------------------- rendering

/// The lines, each behind a comment marker and with its line end.
pub open spec fn commented_lines(ls: Seq<Seq<char>>, marker: Seq<char>) -> Seq<char>
    decreases ls.len(),
{
    if ls.len() == 0 {
        Seq::empty()
    } else {
        commented_lines(ls.drop_last(), marker) + marker + " "@ + ls.last() + "\n"@
    }
}

/// The texts, each with its line end.
pub open spec fn as_lines(ls: Seq<Seq<char>>) -> Seq<char>
    decreases ls.len(),
{
    if ls.len() == 0 {
        Seq::empty()
    } else {
        as_lines(ls.drop_last()) + ls.last() + "\n"@
    }
}

/// The generated monitor configuration.
pub open spec fn rendered<C: Compositor>(c: C, layout: LayoutView, locale: Locale) -> Seq<char> {
    let header = commented_lines(
        lines(note(NoticeId::EmitHeader, seq![]).said(locale)),
        c.marker(),
    );
    let remark = match layout.primary_at() {
        Some(i) => c.marker() + " "@ + note(
            NoticeId::PrimaryComment,
            seq![layout.outputs[i].name],
        ).said(locale) + "\n"@,
        None => Seq::empty(),
    };
    header + remark + as_lines(layout.outputs.map_values(|o: OutputView| c.directive(o)))
}

/// The generated keyboard and pointer configuration.
pub open spec fn rendered_input<C: Compositor>(c: C, input: InputView, locale: Locale) -> Seq<char> {
    commented_lines(lines(note(NoticeId::EmitInputHeader, seq![]).said(locale)), c.marker())
        + as_lines(c.input_texts(input))
}

/// Prefixes every line of `text` with the compositor's comment marker.
///
/// The headers are plain sentences with no marker of their own: one translated
/// block serves every plugin, and the syntax is added here.
fn commented<C: Compositor>(c: &C, text: &str) -> (r: String)
    ensures
        r@ == commented_lines(lines(text@), c.marker()),
{
    let ls = lines_of(text);
    let ghost all = lines(text@);
    let mut out = String::new();
    let mut i: usize = 0;
    assert(out@ =~= Seq::empty());
    while i < ls.len()
        invariant
            i <= ls@.len(),
            all == views(ls@),
            out@ == commented_lines(all.take(i as int), c.marker()),
        decreases ls@.len() - i,
    {
        assert(all.take(i + 1).drop_last() =~= all.take(i as int));
        out.append(c.comment());
        out.append(" ");
        out.append(ls[i].as_str());
        out.append("\n");
        i = i + 1;
    }
    assert(all.take(all.len() as int) =~= all);
    out
}

fn append_lines(out: &mut String, ls: &Vec<String>)
    ensures
        final(out)@ == old(out)@ + as_lines(views(ls@)),
{
    let ghost all = views(ls@);
    let mut i: usize = 0;
    assert(out@ + as_lines(all.take(0)) =~= out@);
    while i < ls.len()
        invariant
            i <= ls@.len(),
            all == views(ls@),
            out@ == old(out)@ + as_lines(all.take(i as int)),
        decreases ls@.len() - i,
    {
        assert(all.take(i + 1).drop_last() =~= all.take(i as int));
        out.append(ls[i].as_str());
        out.append("\n");
        i = i + 1;
        assert(out@ =~= old(out)@ + as_lines(all.take(i as int)));
    }
    assert(all.take(all.len() as int) =~= all);
}

/// Renders the generated monitor configuration for a layout.
///
/// The main screen appears as a comment rather than as a directive: no
/// compositor here has a "primary output" keyword, and what makes a screen the
/// main one — being the output at (0, 0) — is already baked into the positions.
pub fn render<C: Compositor>(c: &C, layout: &Layout, locale: Locale) -> (r: String)
    ensures
        r@ == rendered(*c, layout@, locale),
{
    let mut out = commented(c, Notice::plain(NoticeId::EmitHeader).text(locale).as_str());
    let ghost header = out@;
    if let Some(primary) = layout.primary_output() {
        assert(layout@.outputs[layout@.primary_at().unwrap()] == primary@);
        out.append(c.comment());
        out.append(" ");
        out.append(
            Notice::one(NoticeId::PrimaryComment, primary.name.as_str()).text(locale).as_str(),
        );
        out.append("\n");
    }
    let ghost remark = match layout@.primary_at() {
        Some(i) => c.marker() + " "@ + note(
            NoticeId::PrimaryComment,
            seq![layout@.outputs[i].name],
        ).said(locale) + "\n"@,
        None => Seq::empty(),
    };
    assert(out@ =~= header + remark);
    append_lines(&mut out, &c.output_directives(layout));
    out
}

/// Renders the generated keyboard and pointer configuration.
pub fn render_input<C: Compositor>(c: &C, input: &InputConfig, locale: Locale) -> (r: String)
    ensures
        r@ == rendered_input(*c, input@, locale),
{
    let mut out = commented(c, Notice::plain(NoticeId::EmitInputHeader).text(locale).as_str());
    append_lines(&mut out, &c.input_directives(input));
    out
}

// ---------------------------------------------------------------- wiring

/// What wiring did (or would do, in a dry run).
#[derive(Debug, PartialEq, Eq)]
pub struct InitReport {
    /// The main configuration was already pulling in the generated file.
    pub already_wired: bool,
    /// Backup copy created.
    pub backup: Option<String>,
    /// Output directives lifted from the main configuration and then commented
    /// out, each flattened onto a single line.
    pub adopted: Vec<String>,
    /// New contents of the main configuration.
    pub new_conf: String,
}

#[verifier::ext_equal]
pub ghost struct InitView {
    pub already_wired: bool,
    pub backup: Option<Seq<char>>,
    pub adopted: Seq<Seq<char>>,
    pub new_conf: Seq<char>,
}

impl View for InitReport {
    type V = InitView;

    open spec fn view(&self) -> InitView {
        InitView {
            already_wired: self.already_wired,
            backup: view_opt(self.backup),
            adopted: views(self.adopted@),
            new_conf: self.new_conf@,
        }
    }
}

pub open spec fn is_comment(line: Seq<char>, marker: Seq<char>) -> bool {
    starts_with(trim_start(line), marker)
}

/// A line without its trailing comment.
pub open spec fn code_part(line: Seq<char>, marker: Seq<char>) -> Seq<char> {
    match find(line, marker) {
        Some(i) => line.take(i),
        None => line,
    }
}

/// How many delimiters a text leaves open.
pub open spec fn balance(s: Seq<char>) -> int {
    count(s, '(') + count(s, '{') - count(s, ')') - count(s, '}')
}

/// How many delimiters a line leaves open, trailing comment excluded.
pub open spec fn delta(line: Seq<char>, marker: Seq<char>) -> int {
    balance(code_part(line, marker))
}

/// How many lines behind line `i` belong to the directive that has reached it
/// with `depth` delimiters open: all up to the one that closes them, or up to
/// the end of the file.
pub open spec fn further_lines(ls: Seq<Seq<char>>, marker: Seq<char>, i: int, depth: int) -> nat
    decreases ls.len() - i,
{
    if i < 0 || i + 1 >= ls.len() || depth + delta(ls[i], marker) <= 0 {
        0
    } else {
        1 + further_lines(ls, marker, i + 1, depth + delta(ls[i], marker))
    }
}

/// Where the directive that starts at line `i` ends.
pub open spec fn block_end(ls: Seq<Seq<char>>, marker: Seq<char>, i: int) -> int {
    i + 1 + further_lines(ls, marker, i, 0)
}

/// Whether the directive is closed at all.
pub open spec fn block_closes(ls: Seq<Seq<char>>, marker: Seq<char>, i: int, depth: int) -> bool
    decreases ls.len() - i,
{
    if i < 0 || i >= ls.len() {
        false
    } else if depth + delta(ls[i], marker) <= 0 {
        true
    } else {
        block_closes(ls, marker, i + 1, depth + delta(ls[i], marker))
    }
}

/// What becomes of a line.
pub ghost enum Line {
    /// It stays as it is.
    Kept(Seq<char>),
    /// A remark on the directive that follows; it stands for no line.
    Remark,
    /// It is commented out.
    Adopted(Seq<char>),
}

pub open spec fn opens_at<C: Compositor>(c: C, ls: Seq<Seq<char>>, i: int) -> bool {
    !is_comment(ls[i], c.marker()) && c.opens(ls[i])
}

pub open spec fn adopted_lines(ls: Seq<Seq<char>>, i: int, j: int) -> Seq<Line> {
    ls.subrange(i, j).map_values(|l: Seq<char>| Line::Adopted(l))
}

/// How many lines there are from `i` on.
pub open spec fn lines_left(ls: Seq<Seq<char>>, i: int) -> nat {
    if i < ls.len() {
        (ls.len() - i) as nat
    } else {
        0
    }
}

/// What becomes of the lines from `i` on: a directive that configures outputs
/// is adopted as a block, everything else is kept.
pub open spec fn sorted_lines<C: Compositor>(c: C, ls: Seq<Seq<char>>, i: int) -> Seq<Line>
    decreases lines_left(ls, i),
{
    if i < 0 || i >= ls.len() {
        Seq::empty()
    } else if opens_at(c, ls, i) {
        let j = block_end(ls, c.marker(), i);
        seq![Line::Remark] + adopted_lines(ls, i, j) + sorted_lines(c, ls, j)
    } else {
        seq![Line::Kept(ls[i])] + sorted_lines(c, ls, i + 1)
    }
}

/// The directives that are adopted, each on one line.
pub open spec fn adopted_from<C: Compositor>(c: C, ls: Seq<Seq<char>>, i: int) -> Seq<Seq<char>>
    decreases lines_left(ls, i),
{
    if i < 0 || i >= ls.len() {
        Seq::empty()
    } else if opens_at(c, ls, i) {
        let j = block_end(ls, c.marker(), i);
        seq![join(ls.subrange(i, j).map_values(|l: Seq<char>| trim(l)), " "@)] + adopted_from(
            c,
            ls,
            j,
        )
    } else {
        adopted_from(c, ls, i + 1)
    }
}

/// Behind which of the new lines the last closed directive ends, and the last
/// statement stands that pulls a file in. `at` is the number of new lines made
/// of what comes before line `i`.
pub open spec fn landmarks<C: Compositor>(
    c: C,
    ls: Seq<Seq<char>>,
    i: int,
    at: int,
    found: (Option<int>, Option<int>),
) -> (Option<int>, Option<int>)
    decreases lines_left(ls, i),
{
    if i < 0 || i >= ls.len() {
        found
    } else if opens_at(c, ls, i) {
        let j = block_end(ls, c.marker(), i);
        let next = at + 1 + (j - i);
        let adopted = if block_closes(ls, c.marker(), i, 0) {
            Some(next)
        } else {
            found.0
        };
        landmarks(c, ls, j, next, (adopted, found.1))
    } else {
        let pulled = if !is_comment(ls[i], c.marker()) && c.pulls(ls[i]) {
            Some(at + 1)
        } else {
            found.1
        };
        landmarks(c, ls, i + 1, at + 1, (found.0, pulled))
    }
}

/// The text of a line in the new configuration.
pub open spec fn line_text(l: Line, marker: Seq<char>, remark: Seq<char>) -> Seq<char> {
    match l {
        Line::Kept(s) => s,
        Line::Remark => marker + " "@ + remark,
        Line::Adopted(s) => marker + " "@ + s,
    }
}

pub open spec fn line_texts(v: Seq<Line>, marker: Seq<char>, remark: Seq<char>) -> Seq<Seq<char>> {
    v.map_values(|l: Line| line_text(l, marker, remark))
}

/// The remark on an adopted directive: where it went.
pub open spec fn adoption_remark(generated: Seq<char>, locale: Locale) -> Seq<char> {
    let target = match file_name(generated) {
        Some(n) => n,
        None => "the generated file"@,
    };
    note(NoticeId::AdoptedComment, seq![target]).said(locale)
}

/// Where the statement goes: behind the directives it replaces; failing that,
/// behind the other statements of its kind; failing that, to the top.
pub open spec fn landing<C: Compositor>(c: C, ls: Seq<Seq<char>>) -> int {
    let found = landmarks(c, ls, 0, 0, (None, None));
    match found.0 {
        Some(k) => k,
        None => match found.1 {
            Some(k) => k,
            None => 0,
        },
    }
}

/// The new lines of the main configuration.
pub open spec fn wired_lines<C: Compositor>(
    c: C,
    ls: Seq<Seq<char>>,
    statement: Seq<char>,
    remark: Seq<char>,
) -> Seq<Seq<char>> {
    line_texts(sorted_lines(c, ls, 0), c.marker(), remark).insert(landing(c, ls), statement)
}

/// Whether a line of the configuration pulls the generated file in.
pub open spec fn is_wired<C: Compositor>(c: C, conf: Seq<char>, generated: Seq<char>) -> bool {
    exists|i: int|
        0 <= i < lines(conf).len() && !is_comment(#[trigger] lines(conf)[i], c.marker())
            && c.pulls_in(lines(conf)[i], generated)
}

/// The transformation of the user's main configuration.
pub open spec fn planned<C: Compositor>(
    c: C,
    conf: Seq<char>,
    main: Seq<char>,
    generated: Seq<char>,
    home: Seq<char>,
    locale: Locale,
) -> InitView {
    if is_wired(c, conf, generated) {
        InitView { already_wired: true, backup: None, adopted: Seq::empty(), new_conf: conf }
    } else {
        let ls = lines(conf);
        let text = join(
            wired_lines(
                c,
                ls,
                c.statement(main, generated, home),
                adoption_remark(generated, locale),
            ),
            "\n"@,
        );
        InitView {
            already_wired: false,
            backup: None,
            adopted: adopted_from(c, ls, 0),
            new_conf: if ends_with(conf, "\n"@) || text.len() == 0 {
                text + "\n"@
            } else {
                text
            },
        }
    }
}

/// Several generated files wired one after the other.
pub open spec fn planned_all<C: Compositor>(
    c: C,
    conf: Seq<char>,
    main: Seq<char>,
    generated: Seq<Seq<char>>,
    home: Seq<char>,
    locale: Locale,
) -> InitView
    decreases generated.len(),
{
    if generated.len() == 0 {
        InitView { already_wired: true, backup: None, adopted: Seq::empty(), new_conf: conf }
    } else {
        let before = planned_all(c, conf, main, generated.drop_last(), home, locale);
        let step = planned(c, before.new_conf, main, generated.last(), home, locale);
        InitView {
            already_wired: before.already_wired && step.already_wired,
            backup: None,
            adopted: before.adopted + step.adopted,
            new_conf: step.new_conf,
        }
    }
}

pub proof fn lemma_block_end(ls: Seq<Seq<char>>, marker: Seq<char>, i: int, depth: int)
    requires
        0 <= i < ls.len(),
    ensures
        i + 1 + further_lines(ls, marker, i, depth) <= ls.len(),
    decreases ls.len() - i,
{
    if i + 1 < ls.len() && depth + delta(ls[i], marker) > 0 {
        lemma_block_end(ls, marker, i + 1, depth + delta(ls[i], marker));
    }
}

proof fn lemma_balance_step(s: Seq<char>)
    requires
        s.len() > 0,
    ensures
        balance(s) == balance(s.drop_last()) + (if s.last() == '(' || s.last() == '{' {
            1int
        } else if s.last() == ')' || s.last() == '}' {
            -1int
        } else {
            0int
        }),
{
}

/// How many delimiters the line leaves open, trailing comment excluded.
pub fn delimiter_delta(line: &str, comment: &str) -> (r: i128)
    ensures
        r == delta(line@, comment@),
        -line@.len() <= r <= line@.len(),
{
    let v = to_chars(line);
    let w = to_chars(comment);
    proof {
        lemma_find(line@, comment@, 0);
    }
    let end: usize = match position(&v, &w, 0) {
        Some(i) => i,
        None => v.len(),
    };
    assert(v@.take(v@.len() as int) =~= v@);
    let mut n: i128 = 0;
    let mut i: usize = 0;
    while i < end
        invariant
            i <= end <= v@.len(),
            n == balance(v@.take(i as int)),
            -(i as int) <= n <= i,
        decreases end - i,
    {
        proof {
            assert(v@.take(i + 1).drop_last() =~= v@.take(i as int));
            lemma_balance_step(v@.take(i + 1));
        }
        let ch = v[i];
        if ch == '(' || ch == '{' {
            n = n + 1;
        } else if ch == ')' || ch == '}' {
            n = n - 1;
        }
        i = i + 1;
    }
    n
}

fn comments_out<C: Compositor>(c: &C, line: &str) -> (r: bool)
    ensures
        r == is_comment(line@, c.marker()),
{
    begins(trimmed_start(line).as_str(), c.comment())
}

/// Whether a line of the configuration pulls the generated file in.
pub fn already_includes<C: Compositor>(c: &C, ls: &Vec<String>, generated: &str) -> (r: bool)
    ensures
        r == (exists|i: int|
            0 <= i < ls@.len() && !is_comment(#[trigger] views(ls@)[i], c.marker()) && c.pulls_in(
                views(ls@)[i],
                generated@,
            )),
{
    let ghost all = views(ls@);
    let mut i: usize = 0;
    while i < ls.len()
        invariant
            i <= ls@.len(),
            all == views(ls@),
            forall|j: int|
                0 <= j < i ==> is_comment(#[trigger] all[j], c.marker()) || !c.pulls_in(
                    all[j],
                    generated@,
                ),
        decreases ls@.len() - i,
    {
        let line = ls[i].as_str();
        assert(all[i as int] == line@);
        if !comments_out(c, line) && c.includes(line, generated) {
            assert(views(ls@)[i as int] == line@);
            return true;
        }
        i = i + 1;
    }
    false
}

proof fn lemma_total_from(ls: Seq<Seq<char>>, i: int, j: int)
    requires
        0 <= i <= j <= ls.len(),
    ensures
        total_len(ls.take(i)) <= total_len(ls.take(j)),
        j < ls.len() ==> total_len(ls.take(j + 1)) == total_len(ls.take(j)) + ls[j].len(),
    decreases j,
{
    if i < j {
        lemma_total_from(ls, i, j - 1);
        assert(ls.take(j).drop_last() =~= ls.take(j - 1));
    }
    if j < ls.len() {
        assert(ls.take(j + 1).drop_last() =~= ls.take(j));
    }
}

/// Where the directive that starts at line `i` ends, and whether it is closed.
fn find_block_end(ls: &Vec<String>, comment: &str, i: usize) -> (r: (usize, bool))
    requires
        i < ls@.len(),
        total_len(views(ls@)) <= usize::MAX,
    ensures
        r.0 == block_end(views(ls@), comment@, i as int),
        r.1 == block_closes(views(ls@), comment@, i as int, 0),
        i < r.0 <= ls@.len(),
{
    let ghost all = views(ls@);
    let mut depth: i128 = 0;
    let mut k: usize = i;
    proof {
        lemma_block_end(all, comment@, i as int, 0);
        assert(all.take(all.len() as int) =~= all);
    }
    while k < ls.len()
        invariant
            i <= k <= ls@.len(),
            all == views(ls@),
            total_len(all) <= usize::MAX,
            all.take(all.len() as int) == all,
            -total_len(all.take(k as int)) <= depth <= total_len(all.take(k as int)),
            i < ls@.len(),
            block_end(all, comment@, i as int) == if k < ls@.len() {
                k + 1 + further_lines(all, comment@, k as int, depth as int)
            } else {
                k as int
            },
            block_closes(all, comment@, k as int, depth as int) == block_closes(
                all,
                comment@,
                i as int,
                0,
            ),
        decreases ls@.len() - k,
    {
        proof {
            assert(all[k as int] == ls@[k as int]@);
            lemma_total_from(all, k as int, k as int);
            lemma_total_from(all, k + 1, all.len() as int);
        }
        let d: i128 = delimiter_delta(ls[k].as_str(), comment);
        depth = depth + d;
        k = k + 1;
        if depth <= 0 {
            return (k, true);
        }
    }
    (k, false)
}

/// The text of a block on one line.
fn flat_block(ls: &Vec<String>, from: usize, to: usize) -> (r: String)
    requires
        from <= to <= ls@.len(),
    ensures
        r@ == join(
            views(ls@).subrange(from as int, to as int).map_values(|l: Seq<char>| trim(l)),
            " "@,
        ),
{
    let ghost want = views(ls@).subrange(from as int, to as int).map_values(
        |l: Seq<char>| trim(l),
    );
    let mut parts: Vec<String> = Vec::new();
    let mut i: usize = from;
    while i < to
        invariant
            from <= i <= to <= ls@.len(),
            want == views(ls@).subrange(from as int, to as int).map_values(
                |l: Seq<char>| trim(l),
            ),
            views(parts@) == want.take(i - from),
        decreases to - i,
    {
        let s = trimmed(ls[i].as_str());
        proof {
            lemma_views_push(parts@, s);
        }
        parts.push(s);
        i = i + 1;
        assert(views(parts@) =~= want.take(i - from));
    }
    assert(views(parts@) =~= want);
    joined(&parts, " ")
}

fn behind_marker(comment: &str, line: &str) -> (r: String)
    ensures
        r@ == comment@ + " "@ + line@,
{
    let mut s = comment.to_owned();
    s.append(" ");
    s.append(line);
    s
}

/// Appends the remark and the commented lines of an adopted directive.
fn push_block(
    out: &mut Vec<String>,
    ls: &Vec<String>,
    from: usize,
    to: usize,
    comment: &str,
    remark: &str,
)
    requires
        from <= to <= ls@.len(),
    ensures
        views(final(out)@) == views(old(out)@) + line_texts(
            seq![Line::Remark] + adopted_lines(views(ls@), from as int, to as int),
            comment@,
            remark@,
        ),
{
    let ghost want = line_texts(
        seq![Line::Remark] + adopted_lines(views(ls@), from as int, to as int),
        comment@,
        remark@,
    );
    let ghost before = views(out@);
    let s = behind_marker(comment, remark);
    proof {
        lemma_views_push(out@, s);
    }
    out.push(s);
    assert(views(out@) =~= before + want.take(1));
    let mut i: usize = from;
    while i < to
        invariant
            from <= i <= to <= ls@.len(),
            want == line_texts(
                seq![Line::Remark] + adopted_lines(views(ls@), from as int, to as int),
                comment@,
                remark@,
            ),
            views(out@) == before + want.take(1 + i - from),
        decreases to - i,
    {
        let s = behind_marker(comment, ls[i].as_str());
        proof {
            lemma_views_push(out@, s);
            assert(want[1 + i - from] == s@);
        }
        out.push(s);
        i = i + 1;
        assert(views(out@) =~= before + want.take(1 + i - from));
    }
    assert(want.take(1 + to - from) =~= want);
}

/// The lines of the main configuration, sorted, with the places where a
/// statement can go.
struct Sorted {
    lines: Vec<String>,
    adopted: Vec<String>,
    after_adopted: Option<usize>,
    after_include: Option<usize>,
}

pub open spec fn as_int(o: Option<usize>) -> Option<int> {
    match o {
        Some(n) => Some(n as int),
        None => None,
    }
}

fn sort_lines<C: Compositor>(c: &C, ls: &Vec<String>, remark: &str) -> (r: Sorted)
    requires
        total_len(views(ls@)) <= usize::MAX,
    ensures
        views(r.lines@) == line_texts(sorted_lines(*c, views(ls@), 0), c.marker(), remark@),
        views(r.adopted@) == adopted_from(*c, views(ls@), 0),
        (as_int(r.after_adopted), as_int(r.after_include)) == landmarks(
            *c,
            views(ls@),
            0,
            0,
            (None, None),
        ),
        match r.after_adopted {
            Some(k) => k <= r.lines@.len(),
            None => true,
        },
        match r.after_include {
            Some(k) => k <= r.lines@.len(),
            None => true,
        },
{
    let ghost all = views(ls@);
    let ghost want = line_texts(sorted_lines(*c, all, 0), c.marker(), remark@);
    let ghost gone = adopted_from(*c, all, 0);
    let mut lines: Vec<String> = Vec::new();
    let mut adopted: Vec<String> = Vec::new();
    let mut after_adopted: Option<usize> = None;
    let mut after_include: Option<usize> = None;
    let mut i: usize = 0;
    assert(views(lines@) + want =~= want);
    assert(views(adopted@) + gone =~= gone);
    while i < ls.len()
        invariant
            i <= ls@.len(),
            all == views(ls@),
            total_len(all) <= usize::MAX,
                want == line_texts(sorted_lines(*c, all, 0), c.marker(), remark@),
            gone == adopted_from(*c, all, 0),
            views(lines@) + line_texts(sorted_lines(*c, all, i as int), c.marker(), remark@)
                == want,
            views(adopted@) + adopted_from(*c, all, i as int) == gone,
            landmarks(
                *c,
                all,
                i as int,
                lines@.len() as int,
                (as_int(after_adopted), as_int(after_include)),
            ) == landmarks(*c, all, 0, 0, (None, None)),
            match after_adopted {
                Some(k) => k <= lines@.len(),
                None => true,
            },
            match after_include {
                Some(k) => k <= lines@.len(),
                None => true,
            },
        decreases ls@.len() - i,
    {
        let line = ls[i].as_str();
        assert(all[i as int] == line@);
        let ghost m = c.marker();
        let ghost before = views(lines@);
        if !comments_out(c, line) && c.opens_output(line) {
            let (end, closed) = find_block_end(ls, c.comment(), i);
            proof {
                let block = seq![Line::Remark] + adopted_lines(all, i as int, end as int);
                let tail = sorted_lines(*c, all, end as int);
                assert(line_texts(block + tail, m, remark@) =~= line_texts(block, m, remark@)
                    + line_texts(tail, m, remark@));
                assert(sorted_lines(*c, all, i as int) == block + tail);
                assert(before + (line_texts(block, m, remark@) + line_texts(tail, m, remark@))
                    =~= (before + line_texts(block, m, remark@)) + line_texts(tail, m, remark@));
            }
            push_block(&mut lines, ls, i, end, c.comment(), remark);
            let one = flat_block(ls, i, end);
            proof {
                lemma_views_push(adopted@, one);
                assert(views(adopted@).push(one@) + adopted_from(*c, all, end as int) =~= views(
                    adopted@,
                ) + (seq![one@] + adopted_from(*c, all, end as int)));
                assert(views(lines@).len() == lines@.len());
                assert(before.len() + 1 + (end - i) == lines@.len());
            }
            adopted.push(one);
            if closed {
                after_adopted = Some(lines.len());
            }
            i = end;
        } else {
            let s = line.to_owned();
            proof {
                let tail = sorted_lines(*c, all, i + 1);
                assert(line_texts(seq![Line::Kept(line@)] + tail, m, remark@) =~= seq![line@]
                    + line_texts(tail, m, remark@));
                lemma_views_push(lines@, s);
                assert(before.push(s@) + line_texts(tail, m, remark@) =~= before + (seq![line@]
                    + line_texts(tail, m, remark@)));
                assert(before.len() == lines@.len());
            }
            lines.push(s);
            if !comments_out(c, line) && c.is_include(line) {
                after_include = Some(lines.len());
            }
            i = i + 1;
        }
    }
    assert(views(lines@) + line_texts(Seq::empty(), c.marker(), remark@) =~= views(lines@));
    assert(views(adopted@) + Seq::<Seq<char>>::empty() =~= views(adopted@));
    Sorted { lines, adopted, after_adopted, after_include }
}

/// Computes the transformation to apply to the user's main configuration.
///
/// Kept separate from the write so the result can be shown to the user
/// before touching their file. A directive may span several lines, so it is
/// commented out as a block, tracked by counting the delimiters it leaves open.
/// An unterminated one means the file was already broken; everything behind it
/// is commented out, so nothing is lost.
pub fn plan_init<C: Compositor>(
    c: &C,
    conf: &str,
    main: &str,
    generated: &str,
    home: &str,
    locale: Locale,
) -> (r: InitReport)
    ensures
        r@ == planned(*c, conf@, main@, generated@, home@, locale),
{
    let ls = lines_of(conf);
    let chars: usize = conf.unicode_len();
    proof {
        lemma_lines_total(conf@);
        assert(chars == conf@.len());
    }
    if already_includes(c, &ls, generated) {
        let adopted: Vec<String> = Vec::new();
        assert(views(adopted@) =~= Seq::empty());
        return InitReport {
            already_wired: true,
            backup: None,
            adopted,
            new_conf: conf.to_owned(),
        };
    }
    let statement = c.include_statement(main, generated, home);
    let target = match name_of(generated) {
        Some(n) => n,
        None => "the generated file".to_owned(),
    };
    let remark = Notice::one(NoticeId::AdoptedComment, target.as_str()).text(locale);
    let sorted = sort_lines(c, &ls, remark.as_str());
    let mut lines = sorted.lines;
    let at: usize = match sorted.after_adopted {
        Some(k) => k,
        None => match sorted.after_include {
            Some(k) => k,
            None => 0,
        },
    };
    let ghost before = views(lines@);
    let ghost text = statement@;
    lines.insert(at, statement);
    assert(views(lines@) =~= before.insert(at as int, text));
    let mut new_conf = joined(&lines, "\n");
    if finishes(conf, "\n") || new_conf.as_str().unicode_len() == 0 {
        new_conf.append("\n");
    }
    InitReport { already_wired: false, backup: None, adopted: sorted.adopted, new_conf }
}

/// Wires several generated files in one pass, each against the outcome of the
/// one before, so that the second statement lands next to the first.
///
/// `already_wired` in the report means *everything* was already wired: one
/// file still missing is enough to make the pass worth running.
///
/// Order matters: the monitor file must come first, since that pass is also the
/// one that adopts the output directives already in the file, and the comment it
/// leaves behind names the file they moved to.
pub fn plan_init_all<C: Compositor>(
    c: &C,
    conf: &str,
    main: &str,
    generated: &Vec<String>,
    home: &str,
    locale: Locale,
) -> (r: InitReport)
    ensures
        r@ == planned_all(*c, conf@, main@, views(generated@), home@, locale),
{
    let ghost all = views(generated@);
    let adopted: Vec<String> = Vec::new();
    assert(views(adopted@) =~= Seq::empty());
    let mut report = InitReport {
        already_wired: true,
        backup: None,
        adopted,
        new_conf: conf.to_owned(),
    };
    let mut i: usize = 0;
    while i < generated.len()
        invariant
            i <= generated@.len(),
            all == views(generated@),
            report@ == planned_all(*c, conf@, main@, all.take(i as int), home@, locale),
        decreases generated@.len() - i,
    {
        assert(all.take(i + 1).drop_last() =~= all.take(i as int));
        let step = plan_init(
            c,
            report.new_conf.as_str(),
            main,
            generated[i].as_str(),
            home,
            locale,
        );
        let ghost before = report@;
        let ghost done = step@;
        let mut adopted = report.adopted;
        let mut more = step.adopted;
        adopted.append(&mut more);
        assert(views(adopted@) =~= before.adopted + done.adopted);
        report = InitReport {
            already_wired: report.already_wired && step.already_wired,
            backup: None,
            adopted,
            new_conf: step.new_conf,
        };
        i = i + 1;
    }
    assert(all.take(all.len() as int) =~= all);
    report
}

/// Wires one generated file into the main configuration.
pub fn run_init<C: Compositor>(
    c: &C,
    conf: &str,
    main: &str,
    generated: &str,
    home: &str,
    locale: Locale,
) -> (r: InitReport)
    ensures
        r@ == planned_all(*c, conf@, main@, seq![generated@], home@, locale),
{
    let mut targets: Vec<String> = Vec::new();
    targets.push(generated.to_owned());
    assert(views(targets@) =~= seq![generated@]);
    plan_init_all(c, conf, main, &targets, home, locale)
}

/// Whether a planned pass is to be written: something is not wired yet, and it
/// is not only a rehearsal.
pub fn must_write(report: &InitReport, dry_run: bool) -> (r: bool)
    ensures
        r == (!report@.already_wired && !dry_run),
{
    !report.already_wired && !dry_run
}

/// The name of a file's backup copy.
///
/// Appended rather than substituted: replacing the extension would lose which
/// file it came from.
pub fn backup_name(file: &str) -> (r: String)
    ensures
        r@ == file@ + ".hyprdmc.bak"@,
{
    let mut s = file.to_owned();
    s.append(".hyprdmc.bak");
    s
}

/// The name of the sibling file that is written before it takes the place of
/// the real one.
pub fn temporary_name(file: Option<&str>, process: u32, serial: u64) -> (r: String)
    ensures
        r@ == "."@ + (match view_opt_str(file) {
            Some(n) => n,
            None => "out"@,
        }) + ".hyprdmc."@ + nat_text(process as nat) + "."@ + nat_text(serial as nat) + ".tmp"@,
{
    let mut s = ".".to_owned();
    match file {
        Some(n) => s.append(n),
        None => s.append("out"),
    }
    s.append(".hyprdmc.");
    s.append(nat_string(process as u128).as_str());
    s.append(".");
    s.append(nat_string(serial as u128).as_str());
    s.append(".tmp");
    s
}

/// Replaces the home directory prefix with `~`, the way one would write it
/// by hand in a configuration file.
pub fn tildify(path: &str, home: &str) -> (r: String)
    ensures
        r@ == tilded(path@, home@),
{
    tilde_path(path, home)
}

// ---------------------------------------------------------------- laws

/// The lines that the new lines stand for.
pub open spec fn sources(v: Seq<Line>) -> Seq<Seq<char>>
    decreases v.len(),
{
    if v.len() == 0 {
        Seq::empty()
    } else {
        match v[0] {
            Line::Kept(s) => seq![s] + sources(v.skip(1)),
            Line::Adopted(s) => seq![s] + sources(v.skip(1)),
            Line::Remark => sources(v.skip(1)),
        }
    }
}

proof fn lemma_sources_adopted(block: Seq<Seq<char>>, tail: Seq<Line>)
    ensures
        sources(block.map_values(|l: Seq<char>| Line::Adopted(l)) + tail) == block + sources(tail),
    decreases block.len(),
{
    let m = block.map_values(|l: Seq<char>| Line::Adopted(l));
    if block.len() == 0 {
        assert(m + tail =~= tail);
        assert(block + sources(tail) =~= sources(tail));
    } else {
        let rest = block.skip(1);
        lemma_sources_adopted(rest, tail);
        assert((m + tail).skip(1) =~= rest.map_values(|l: Seq<char>| Line::Adopted(l)) + tail);
        assert(seq![block[0]] + (rest + sources(tail)) =~= block + sources(tail));
    }
}

/// Wiring loses nothing: without the remarks, and with the markers of the
/// adopted lines taken off, the new lines are the old ones in their order.
pub proof fn wiring_loses_nothing<C: Compositor>(c: C, ls: Seq<Seq<char>>, i: int)
    requires
        0 <= i <= ls.len(),
    ensures
        sources(sorted_lines(c, ls, i)) == ls.skip(i),
    decreases ls.len() - i,
{
    let v = sorted_lines(c, ls, i);
    if i == ls.len() {
        assert(ls.skip(i) =~= Seq::empty());
    } else if opens_at(c, ls, i) {
        let j = block_end(ls, c.marker(), i);
        lemma_block_end(ls, c.marker(), i, 0);
        let tail = sorted_lines(c, ls, j);
        wiring_loses_nothing(c, ls, j);
        assert(v.skip(1) =~= adopted_lines(ls, i, j) + tail);
        lemma_sources_adopted(ls.subrange(i, j), tail);
        assert(ls.subrange(i, j) + ls.skip(j) =~= ls.skip(i));
    } else {
        wiring_loses_nothing(c, ls, i + 1);
        assert(v.skip(1) =~= sorted_lines(c, ls, i + 1));
        assert(seq![ls[i]] + ls.skip(i + 1) =~= ls.skip(i));
    }
}

/// Every line that is kept is a comment or configures no output: no directive
/// is left alive beside the generated file.
pub proof fn wiring_leaves_no_directive_alive<C: Compositor>(c: C, ls: Seq<Seq<char>>, i: int, k: int)
    requires
        0 <= i <= ls.len(),
        0 <= k < sorted_lines(c, ls, i).len(),
    ensures
        match sorted_lines(c, ls, i)[k] {
            Line::Kept(s) => is_comment(s, c.marker()) || !c.opens(s),
            _ => true,
        },
    decreases ls.len() - i,
{
    if i < ls.len() {
        if opens_at(c, ls, i) {
            let j = block_end(ls, c.marker(), i);
            lemma_block_end(ls, c.marker(), i, 0);
            let n = 1 + (j - i);
            if k >= n {
                wiring_leaves_no_directive_alive(c, ls, j, k - n);
            }
        } else if k > 0 {
            wiring_leaves_no_directive_alive(c, ls, i + 1, k - 1);
        }
    }
}

/// A text that stands between line ends is a line.
proof fn lemma_line_between(a: Seq<char>, s: Seq<char>, b: Seq<char>)
    requires
        s.len() > 0,
        !s.contains('\n'),
        s.last() != '\r',
        a.len() > 0 ==> a.last() == '\n',
        b.len() > 0 ==> b[0] == '\n',
    ensures
        lines(a + s + b).contains(s),
    decreases a.len(),
{
    let t = a + s + b;
    let nl = seq!['\n'];
    lemma_find(t, nl, 0);
    if a.len() > 0 {
        let n = a.len() - 1;
        assert(t.subrange(n, n + 1) =~= nl);
        assert(occurs_at(t, nl, n));
        let i = find(t, nl).unwrap();
        let rest = a.skip(i + 1);
        assert(t.skip(i + 1) =~= rest + s + b);
        lemma_line_between(rest, s, b);
        let tail = lines(t.skip(i + 1));
        let k = choose|k: int| 0 <= k < tail.len() && tail[k] == s;
        assert(lines(t)[k + 1] == s);
    } else {
        assert(t =~= s + b);
        match find(t, nl) {
            None => {
                if b.len() > 0 {
                    assert(t.subrange(s.len() as int, (s.len() + 1) as int) =~= nl);
                    assert(occurs_at(t, nl, s.len() as int));
                }
                assert(t =~= s);
                assert(lines(t)[0] == s);
            },
            Some(i) => {
                assert(t.subrange(i, i + 1)[0] == '\n');
                assert(t[i] == '\n');
                if i < s.len() {
                    assert(s[i] == '\n');
                }
                assert(b.len() > 0);
                assert(t.subrange(s.len() as int, (s.len() + 1) as int) =~= nl);
                assert(occurs_at(t, nl, s.len() as int));
                assert(i == s.len());
                assert(t.take(i) =~= s);
                assert(lines(t)[0] == s);
            },
        }
    }
}

/// Where an element stands in the joined text.
proof fn lemma_join_around(parts: Seq<Seq<char>>, k: int) -> (r: (Seq<char>, Seq<char>))
    requires
        0 <= k < parts.len(),
    ensures
        join(parts, "\n"@) == r.0 + parts[k] + r.1,
        r.0.len() > 0 ==> r.0.last() == '\n',
        r.1.len() > 0 ==> r.1[0] == '\n',
    decreases parts.len(),
{
    reveal_strlit("\n");
    let body = parts.drop_last();
    let nl = "\n"@;
    if parts.len() == 1 {
        assert(Seq::<char>::empty() + parts[0] + Seq::<char>::empty() =~= parts[0]);
        (Seq::empty(), Seq::empty())
    } else if k == parts.len() - 1 {
        let a = join(body, nl) + nl;
        assert(join(parts, nl) =~= a + parts[k] + Seq::<char>::empty());
        assert(a.last() == '\n');
        (a, Seq::empty())
    } else {
        let (a, b) = lemma_join_around(body, k);
        let c = b + nl + parts.last();
        assert(join(parts, nl) =~= a + parts[k] + c);
        if b.len() == 0 {
            assert(c[0] == nl[0]);
        }
        (a, c)
    }
}

/// A statement that can be recognised again: it is a line of its own, no
/// comment, and pulls the generated file in.
pub open spec fn recognisable<C: Compositor>(c: C, statement: Seq<char>, generated: Seq<char>) -> bool {
    &&& statement.len() > 0
    &&& !statement.contains('\n')
    &&& statement.last() != '\r'
    &&& !is_comment(statement, c.marker())
    &&& c.pulls_in(statement, generated)
}

pub proof fn lemma_landmarks<C: Compositor>(
    c: C,
    ls: Seq<Seq<char>>,
    i: int,
    at: int,
    found: (Option<int>, Option<int>),
)
    requires
        0 <= i <= ls.len(),
        0 <= at,
        found.0 is Some ==> 0 <= found.0.unwrap() <= at,
        found.1 is Some ==> 0 <= found.1.unwrap() <= at,
    ensures
        ({
            let r = landmarks(c, ls, i, at, found);
            let n = at + sorted_lines(c, ls, i).len();
            (r.0 is Some ==> 0 <= r.0.unwrap() <= n) && (r.1 is Some ==> 0 <= r.1.unwrap() <= n)
        }),
    decreases ls.len() - i,
{
    if i < ls.len() {
        if opens_at(c, ls, i) {
            let j = block_end(ls, c.marker(), i);
            lemma_block_end(ls, c.marker(), i, 0);
            let next = at + 1 + (j - i);
            let adopted = if block_closes(ls, c.marker(), i, 0) {
                Some(next)
            } else {
                found.0
            };
            lemma_landmarks(c, ls, j, next, (adopted, found.1));
        } else {
            let pulled = if !is_comment(ls[i], c.marker()) && c.pulls(ls[i]) {
                Some(at + 1)
            } else {
                found.1
            };
            lemma_landmarks(c, ls, i + 1, at + 1, (found.0, pulled));
        }
    }
}

/// Wiring is idempotent: what was wired once is found wired, and left as it is.
pub proof fn wiring_is_idempotent<C: Compositor>(
    c: C,
    conf: Seq<char>,
    main: Seq<char>,
    generated: Seq<char>,
    home: Seq<char>,
    locale: Locale,
)
    requires
        recognisable(c, c.statement(main, generated, home), generated),
    ensures
        ({
            let first = planned(c, conf, main, generated, home, locale);
            let second = planned(c, first.new_conf, main, generated, home, locale);
            &&& second.already_wired
            &&& second.adopted.len() == 0
            &&& second.new_conf == first.new_conf
        }),
{
    reveal_strlit("\n");
    let first = planned(c, conf, main, generated, home, locale);
    if !is_wired(c, conf, generated) {
        let ls = lines(conf);
        let s = c.statement(main, generated, home);
        let remark = adoption_remark(generated, locale);
        let v = wired_lines(c, ls, s, remark);
        lemma_landmarks(c, ls, 0, 0, (None, None));
        let k = landing(c, ls);
        assert(v[k] == s);
        let (a, b) = lemma_join_around(v, k);
        let text = join(v, "\n"@);
        let b2 = if first.new_conf == text {
            b
        } else {
            b + "\n"@
        };
        assert(first.new_conf =~= a + s + b2);
        lemma_line_between(a, s, b2);
        let all = lines(first.new_conf);
        let i = choose|i: int| 0 <= i < all.len() && all[i] == s;
        assert(is_wired(c, first.new_conf, generated)) by {
            assert(lines(first.new_conf)[i] == s);
        }
    }
}

} // verus!
