//! A generated file holds its directives, line by line, and nothing else but
//! comments; the main configuration that pulls it in keeps everything else.

use vstd::prelude::*;

use crate::compositor::Compositor;
use crate::emit::{
    adopted_from, adopted_lines, adoption_remark, as_lines, balance, block_end, commented_lines,
    delta, is_comment, landing, landmarks, lemma_landmarks, line_text, line_texts, opens_at,
    planned, rendered, rendered_input, sorted_lines, wired_lines, Line,
};
use crate::i18n::Locale;
use crate::input::InputView;
use crate::layout::{LayoutView, OutputView};
use crate::notice::{note, NoticeId};
use crate::text::{
    find, is_white, join, lemma_find, lines, occurs_at, strip_return, trim, trim_start,
};

verus! {

/// A text that stands on one line.
pub open spec fn is_one_line(s: Seq<char>) -> bool {
    !s.contains('\n') && (s.len() > 0 ==> s.last() != '\r')
}

/// Whether the lines of a file are comments, and behind them just these.
pub open spec fn holds_only(ls: Seq<Seq<char>>, wanted: Seq<Seq<char>>, marker: Seq<char>) -> bool {
    &&& ls.len() >= wanted.len()
    &&& ls.skip(ls.len() - wanted.len()) == wanted
    &&& forall|i: int|
        0 <= i < ls.len() - wanted.len() ==> is_comment(#[trigger] ls[i], marker)
}

proof fn lemma_first_line(s: Seq<char>, rest: Seq<char>)
    requires
        !s.contains('\n'),
    ensures
        lines(s + "\n"@ + rest) == seq![strip_return(s)] + lines(rest),
{
    reveal_strlit("\n");
    let nl = seq!['\n'];
    assert("\n"@ =~= nl);
    let t = s + "\n"@ + rest;
    let n = s.len() as int;
    assert(t.subrange(n, n + 1) =~= nl);
    assert(occurs_at(t, nl, n));
    lemma_find(t, nl, 0);
    let k = find(t, nl).unwrap();
    if k < n {
        assert(t.subrange(k, k + 1)[0] == t[k]);
        assert(s[k] == '\n');
    }
    assert(t.take(n) =~= s);
    assert(t.skip(n + 1) =~= rest);
}

proof fn lemma_body_lines(ls: Seq<Seq<char>>, rest: Seq<char>)
    requires
        forall|i: int| 0 <= i < ls.len() ==> is_one_line(#[trigger] ls[i]),
    ensures
        lines(as_lines(ls) + rest) == ls + lines(rest),
    decreases ls.len(),
{
    if ls.len() == 0 {
        assert(as_lines(ls) + rest =~= rest);
        assert(ls + lines(rest) =~= lines(rest));
    } else {
        let body = ls.drop_last();
        let last = ls.last();
        assert(is_one_line(ls[ls.len() - 1]));
        assert forall|i: int| 0 <= i < body.len() implies is_one_line(#[trigger] body[i]) by {
            assert(is_one_line(ls[i]));
        }
        let tail = last + "\n"@ + rest;
        assert(as_lines(ls) + rest =~= as_lines(body) + tail);
        lemma_body_lines(body, tail);
        lemma_first_line(last, rest);
        assert(strip_return(last) == last);
        assert(body + (seq![last] + lines(rest)) =~= ls + lines(rest));
    }
}

proof fn lemma_comment(marker: Seq<char>, text: Seq<char>)
    requires
        marker.len() > 0,
        !is_white(marker[0]),
    ensures
        is_comment(strip_return(marker + " "@ + text), marker),
{
    reveal_strlit(" ");
    let s = marker + " "@ + text;
    let t = strip_return(s);
    assert(t.len() >= marker.len());
    if t.len() < s.len() {
        assert(s.last() == '\r');
        assert(text.len() > 0);
    }
    assert(t.subrange(0, marker.len() as int) =~= marker);
    assert(t[0] == marker[0]);
    assert(trim_start(t) == t);
}

/// Whether every line is a comment.
spec fn all_comments(ls: Seq<Seq<char>>, marker: Seq<char>) -> bool {
    forall|i: int| 0 <= i < ls.len() ==> is_comment(#[trigger] ls[i], marker)
}

proof fn lemma_header_lines(hs: Seq<Seq<char>>, marker: Seq<char>, rest: Seq<char>) -> (cs: Seq<
    Seq<char>,
>)
    requires
        marker.len() > 0,
        !is_white(marker[0]),
        !marker.contains('\n'),
        forall|i: int| 0 <= i < hs.len() ==> !(#[trigger] hs[i]).contains('\n'),
    ensures
        lines(commented_lines(hs, marker) + rest) == cs + lines(rest),
        all_comments(cs, marker),
    decreases hs.len(),
{
    if hs.len() == 0 {
        assert(commented_lines(hs, marker) + rest =~= rest);
        assert(Seq::<Seq<char>>::empty() + lines(rest) =~= lines(rest));
        Seq::empty()
    } else {
        let body = hs.drop_last();
        let last = hs.last();
        let line = marker + " "@ + last;
        assert(!hs[hs.len() - 1].contains('\n'));
        assert forall|i: int| 0 <= i < body.len() implies !(#[trigger] body[i]).contains('\n') by {
            assert(!hs[i].contains('\n'));
        }
        let tail = line + "\n"@ + rest;
        assert(commented_lines(hs, marker) + rest =~= commented_lines(body, marker) + tail);
        let cs = lemma_header_lines(body, marker, tail);
        lemma_marked(marker, last);
        lemma_first_line(line, rest);
        lemma_comment(marker, last);
        let all = cs.push(strip_return(line));
        assert(cs + (seq![strip_return(line)] + lines(rest)) =~= all + lines(rest));
        assert forall|i: int| 0 <= i < all.len() implies is_comment(#[trigger] all[i], marker) by {
            if i < cs.len() {
                assert(is_comment(cs[i], marker));
            }
        }
        all
    }
}

proof fn lemma_marked(marker: Seq<char>, text: Seq<char>)
    requires
        !marker.contains('\n'),
        !text.contains('\n'),
    ensures
        !(marker + " "@ + text).contains('\n'),
{
    reveal_strlit(" ");
    let s = marker + " "@ + text;
    if s.contains('\n') {
        let i = choose|i: int| 0 <= i < s.len() && s[i] == '\n';
        if i < marker.len() {
            assert(marker[i] == '\n');
        } else if i > marker.len() {
            assert(text[i - marker.len() - 1] == '\n');
        }
    }
}

proof fn lemma_lines_are_lines(s: Seq<char>)
    ensures
        forall|i: int| 0 <= i < lines(s).len() ==> !(#[trigger] lines(s)[i]).contains('\n'),
    decreases s.len(),
{
    let nl = seq!['\n'];
    if s.len() > 0 {
        lemma_find(s, nl, 0);
        let ls = lines(s);
        match find(s, nl) {
            None => {
                assert(!s.contains('\n')) by {
                    if s.contains('\n') {
                        let k = choose|k: int| 0 <= k < s.len() && s[k] == '\n';
                        assert(s.subrange(k, k + 1) =~= nl);
                        assert(occurs_at(s, nl, k));
                    }
                }
            },
            Some(n) => {
                let head = strip_return(s.take(n));
                lemma_lines_are_lines(s.skip(n + 1));
                assert(!head.contains('\n')) by {
                    if head.contains('\n') {
                        let k = choose|k: int| 0 <= k < head.len() && head[k] == '\n';
                        assert(s[k] == '\n');
                        assert(s.subrange(k, k + 1) =~= nl);
                        assert(occurs_at(s, nl, k));
                    }
                }
                assert forall|i: int| 0 <= i < ls.len() implies !(#[trigger] ls[i]).contains(
                    '\n',
                ) by {
                    if i > 0 {
                        assert(ls[i] == lines(s.skip(n + 1))[i - 1]);
                    }
                }
            },
        }
    }
}

/// The generated monitor file is comments and then one directive for each output,
/// in their order, as long as each stands on a line, and so does the remark on the
/// main screen.
pub proof fn monitor_files_hold_their_directives<C: Compositor>(
    c: C,
    layout: LayoutView,
    locale: Locale,
)
    requires
        c.marker().len() > 0,
        !is_white(c.marker()[0]),
        !c.marker().contains('\n'),
        forall|i: int|
            0 <= i < layout.outputs.len() ==> is_one_line(
                c.directive(#[trigger] layout.outputs[i]),
            ),
        layout.primary_at() is Some ==> !note(
            NoticeId::PrimaryComment,
            seq![layout.outputs[layout.primary_at()->0].name],
        ).said(locale).contains('\n'),
    ensures
        holds_only(
            lines(rendered(c, layout, locale)),
            Seq::new(layout.outputs.len(), |i: int| c.directive(layout.outputs[i])),
            c.marker(),
        ),
{
    let ds = layout.outputs.map_values(|o: OutputView| c.directive(o));
    let want = Seq::new(layout.outputs.len(), |i: int| c.directive(layout.outputs[i]));
    assert(ds =~= want);
    let title = note(NoticeId::EmitHeader, seq![]).said(locale);
    let hs = lines(title);
    lemma_lines_are_lines(title);
    let none = Seq::<char>::empty();
    assert forall|i: int| 0 <= i < ds.len() implies is_one_line(#[trigger] ds[i]) by {
        assert(ds[i] == c.directive(layout.outputs[i]));
    }
    lemma_body_lines(ds, none);
    assert(as_lines(ds) + none =~= as_lines(ds));
    assert(ds + lines(none) =~= ds);
    let header = commented_lines(hs, c.marker());
    let ls = lines(rendered(c, layout, locale));
    match layout.primary_at() {
        None => {
            assert(header + none + as_lines(ds) =~= header + as_lines(ds));
            let cs = lemma_header_lines(hs, c.marker(), as_lines(ds));
            assert(ls == cs + ds);
            lemma_behind(ls, cs, ds, c.marker());
        },
        Some(i) => {
            let said = note(NoticeId::PrimaryComment, seq![layout.outputs[i].name]).said(locale);
            let line = c.marker() + " "@ + said;
            let tail = line + "\n"@ + as_lines(ds);
            assert(header + (line + "\n"@) + as_lines(ds) =~= header + tail);
            let cs = lemma_header_lines(hs, c.marker(), tail);
            lemma_marked(c.marker(), said);
            lemma_first_line(line, as_lines(ds));
            lemma_comment(c.marker(), said);
            let all = cs.push(strip_return(line));
            assert(cs + (seq![strip_return(line)] + ds) =~= all + ds);
            assert forall|k: int| 0 <= k < all.len() implies is_comment(
                #[trigger] all[k],
                c.marker(),
            ) by {
                if k < cs.len() {
                    assert(is_comment(cs[k], c.marker()));
                }
            }
            assert(ls == all + ds);
            lemma_behind(ls, all, ds, c.marker());
        },
    }
}

proof fn lemma_behind(
    ls: Seq<Seq<char>>,
    cs: Seq<Seq<char>>,
    ds: Seq<Seq<char>>,
    marker: Seq<char>,
)
    requires
        ls == cs + ds,
        all_comments(cs, marker),
    ensures
        holds_only(ls, ds, marker),
{
    assert(ls.skip(cs.len() as int) =~= ds);
    assert forall|i: int| 0 <= i < ls.len() - ds.len() implies is_comment(
        #[trigger] ls[i],
        marker,
    ) by {
        assert(ls[i] == cs[i]);
    }
}

/// The generated keyboard and pointer file is comments and then the settings, as
/// long as each stands on a line.
pub proof fn input_files_hold_their_settings<C: Compositor>(c: C, input: InputView, locale: Locale)
    requires
        c.marker().len() > 0,
        !is_white(c.marker()[0]),
        !c.marker().contains('\n'),
        forall|i: int|
            0 <= i < c.input_texts(input).len() ==> is_one_line(#[trigger] c.input_texts(input)[i]),
    ensures
        holds_only(lines(rendered_input(c, input, locale)), c.input_texts(input), c.marker()),
{
    let ds = c.input_texts(input);
    let title = note(NoticeId::EmitInputHeader, seq![]).said(locale);
    let hs = lines(title);
    lemma_lines_are_lines(title);
    let none = Seq::<char>::empty();
    lemma_body_lines(ds, none);
    assert(as_lines(ds) + none =~= as_lines(ds));
    assert(ds + lines(none) =~= ds);
    let cs = lemma_header_lines(hs, c.marker(), as_lines(ds));
    lemma_behind(lines(rendered_input(c, input, locale)), cs, ds, c.marker());
}

// ---------------------------------------------------------------- wiring

/// Of the new lines of the main configuration one is the statement; the others
/// are, in order, the old lines as they were, each adopted one behind the comment
/// marker, with a remark before every adopted directive.
pub proof fn wired_files_keep_the_rest<C: Compositor>(
    c: C,
    ls: Seq<Seq<char>>,
    statement: Seq<char>,
    remark: Seq<char>,
    k: int,
)
    requires
        0 <= k < sorted_lines(c, ls, 0).len(),
    ensures
        ({
            let v = sorted_lines(c, ls, 0);
            let new = wired_lines(c, ls, statement, remark);
            let at = landing(c, ls);
            let line = if k < at {
                new[k]
            } else {
                new[k + 1]
            };
            &&& 0 <= at <= v.len()
            &&& new.len() == v.len() + 1
            &&& new[at] == statement
            &&& match v[k] {
                Line::Kept(s) => line == s,
                Line::Adopted(s) => line == c.marker() + seq![' '] + s,
                Line::Remark => line == c.marker() + seq![' '] + remark,
            }
        }),
{
    let v = sorted_lines(c, ls, 0);
    lemma_landmarks(c, ls, 0, 0, (None, None));
    assert(" "@ =~= seq![' ']) by {
        reveal_strlit(" ");
    }
    let texts = line_texts(v, c.marker(), remark);
    let at = landing(c, ls);
    assert(texts[k] == line_text(v[k], c.marker(), remark));
    let new = texts.insert(at, statement);
    if k < at {
        assert(new[k] == texts[k]);
    } else {
        assert(new[k + 1] == texts[k]);
    }
}

/// Where no line opens a directive, every line is kept, and the statement goes
/// behind the last line that pulls a file in, or to the top where none does.
pub proof fn statements_join_their_kind<C: Compositor>(c: C, ls: Seq<Seq<char>>)
    requires
        forall|i: int| 0 <= i < ls.len() ==> !#[trigger] opens_at(c, ls, i),
    ensures
        ({
            let at = landing(c, ls);
            &&& 0 <= at <= ls.len()
            &&& at > 0 ==> !is_comment(ls[at - 1], c.marker()) && c.pulls(ls[at - 1])
            &&& forall|i: int|
                at <= i < ls.len() ==> is_comment(#[trigger] ls[i], c.marker()) || !c.pulls(ls[i])
        }),
{
    lemma_plain_landmarks(c, ls, 0, None);
}

proof fn lemma_plain_landmarks<C: Compositor>(
    c: C,
    ls: Seq<Seq<char>>,
    i: int,
    found: Option<int>,
)
    requires
        forall|j: int| 0 <= j < ls.len() ==> !#[trigger] opens_at(c, ls, j),
        0 <= i <= ls.len(),
        found is Some ==> found->0 <= i,
    ensures
        ({
            let (adopted, pulled) = landmarks(c, ls, i, i, (None, found));
            &&& adopted is None
            &&& pulled == found || (pulled is Some && i < pulled->0 <= ls.len() && !is_comment(
                ls[pulled->0 - 1],
                c.marker(),
            ) && c.pulls(ls[pulled->0 - 1]))
            &&& forall|j: int|
                i <= j < ls.len() && (pulled is Some ==> pulled->0 <= j) ==> is_comment(
                    #[trigger] ls[j],
                    c.marker(),
                ) || !c.pulls(ls[j])
        }),
    decreases ls.len() - i,
{
    if i < ls.len() {
        assert(!opens_at(c, ls, i));
        let next = if !is_comment(ls[i], c.marker()) && c.pulls(ls[i]) {
            Some(i + 1)
        } else {
            found
        };
        lemma_plain_landmarks(c, ls, i + 1, next);
    }
}

/// A directive on a line of its own is adopted as that line, trimmed.
pub proof fn adopted_directives_are_their_lines<C: Compositor>(c: C, ls: Seq<Seq<char>>, i: int)
    requires
        0 <= i < ls.len(),
        opens_at(c, ls, i),
        delta(ls[i], c.marker()) <= 0,
    ensures
        adopted_from(c, ls, i).len() > 0,
        adopted_from(c, ls, i)[0] == trim(ls[i]),
        adopted_from(c, ls, i).skip(1) == adopted_from(c, ls, i + 1),
        sorted_lines(c, ls, i) == seq![Line::Remark, Line::Adopted(ls[i])] + sorted_lines(
            c,
            ls,
            i + 1,
        ),
{
    assert(block_end(ls, c.marker(), i) == i + 1);
    let block = ls.subrange(i, i + 1).map_values(|l: Seq<char>| trim(l));
    assert(block =~= seq![trim(ls[i])]);
    reveal_with_fuel(join, 2);
    assert(adopted_from(c, ls, i).skip(1) =~= adopted_from(c, ls, i + 1));
    assert(adopted_lines(ls, i, i + 1) =~= seq![Line::Adopted(ls[i])]);
    assert(sorted_lines(c, ls, i) =~= seq![Line::Remark, Line::Adopted(ls[i])] + sorted_lines(
        c,
        ls,
        i + 1,
    ));
}

/// What opens a bracket leaves one more open, what closes one leaves one less, and
/// nothing else counts.
pub proof fn brackets_are_counted(s: Seq<char>, ch: char)
    ensures
        balance(Seq::empty()) == 0,
        balance(s.push(ch)) == balance(s) + if ch == '(' || ch == '{' {
            1int
        } else if ch == ')' || ch == '}' {
            -1int
        } else {
            0int
        },
{
    assert(s.push(ch).drop_last() =~= s);
}

/// A configuration that is wired already is left as it is. Otherwise its new lines
/// are joined, and end in a line feed where it did.
pub proof fn configurations_keep_their_last_line_feed<C: Compositor>(
    c: C,
    conf: Seq<char>,
    main: Seq<char>,
    generated: Seq<char>,
    home: Seq<char>,
    locale: Locale,
)
    ensures
        ({
            let plan = planned(c, conf, main, generated, home, locale);
            let wired = exists|i: int|
                0 <= i < lines(conf).len() && !is_comment(#[trigger] lines(conf)[i], c.marker())
                    && c.pulls_in(lines(conf)[i], generated);
            let new = wired_lines(
                c,
                lines(conf),
                c.statement(main, generated, home),
                adoption_remark(generated, locale),
            );
            let text = join(new, seq!['\n']);
            &&& plan.already_wired == wired
            &&& wired ==> plan.new_conf == conf && plan.adopted.len() == 0
            &&& !wired ==> plan.adopted == adopted_from(c, lines(conf), 0)
            &&& !wired && text.len() > 0 ==> plan.new_conf == if conf.len() > 0 && conf.last()
                == '\n' {
                text.push('\n')
            } else {
                text
            }
        }),
{
    reveal_strlit("\n");
    assert("\n"@ =~= seq!['\n']);
    if conf.len() > 0 {
        assert(conf.subrange(conf.len() - 1, conf.len() as int) =~= seq![conf.last()]);
        assert(seq![conf.last()][0] == conf.last());
    }
    let new = wired_lines(
        c,
        lines(conf),
        c.statement(main, generated, home),
        adoption_remark(generated, locale),
    );
    let text = join(new, seq!['\n']);
    assert(text + "\n"@ =~= text.push('\n'));
}

} // verus!
