//! The statements that pull a generated file in are recognised again by the
//! plugin that wrote them, which is what makes wiring idempotent in practice.

use vstd::prelude::*;

use crate::compositor::hyprland::{
    hypr_call, lua_body, lua_escape, lua_literal, lua_strings_read_back, lua_text, Hyprland,
};
use crate::compositor::sway::{quotable, sway_path, unquoted, Sway};
use crate::compositor::Compositor;
use crate::emit::recognisable;
use crate::layout::OutputView;
use crate::path::{components, file_name, same_parent, stem, tilded, tilded_paths_keep_their_file_name};
use crate::reading::{all_white, leading_white_is_trimmed, surrounding_white_is_trimmed};
use crate::text::{
    contains, find, is_white, lemma_find, occurs_at, starts_with, trim, trim_end,
    trim_start, without,
};

verus! {

proof fn lemma_no_newline(parts: Seq<char>, s: Seq<char>, tail: Seq<char>)
    requires
        !parts.contains('\n'),
        !s.contains('\n'),
        !tail.contains('\n'),
    ensures
        !(parts + s + tail).contains('\n'),
{
    let t = parts + s + tail;
    if t.contains('\n') {
        let i = choose|i: int| 0 <= i < t.len() && t[i] == '\n';
        if i < parts.len() {
            assert(parts[i] == '\n');
        } else if i < parts.len() + s.len() {
            assert(s[i - parts.len()] == '\n');
        } else {
            assert(tail[i - parts.len() - s.len()] == '\n');
        }
    }
}

/// A literal stands on one line.
proof fn lemma_one_line(s: Seq<char>)
    ensures
        !lua_body(s).contains('\n'),
    decreases s.len(),
{
    if s.len() > 0 {
        lemma_one_line(s.skip(1));
        assert(!lua_escape(s[0]).contains('\n'));
        lemma_no_newline(lua_escape(s[0]), lua_body(s.skip(1)), Seq::empty());
        assert(lua_escape(s[0]) + lua_body(s.skip(1)) + Seq::<char>::empty() =~= lua_body(s));
    }
}

/// A call with a literal as its argument.
proof fn lemma_call(head: Seq<char>, inner: Seq<char>)
    requires
        head.len() > 0,
        !head.contains('\n'),
        !is_white(head[0]),
        head[0] != '-',
    ensures
        ({
            let s = head + lua_text(inner) + ")"@;
            &&& occurs_at(s, head, 0)
            &&& !contains(s.take(0), "--"@)
            &&& lua_literal(s.skip(head.len() as int)) == Some(inner)
            &&& !s.contains('\n')
            &&& s.last() == ')'
            &&& trim_start(s) == s
            &&& !starts_with(s, "--"@)
        }),
{
    let s = head + lua_text(inner) + ")"@;
    let q = seq!['"'];
    reveal_strlit(")");
    reveal_strlit("--");
    assert(s.subrange(0, head.len() as int) =~= head);
    let t = s.skip(head.len() as int);
    assert(t =~= lua_text(inner) + ")"@);
    assert(t[0] == '"');
    assert(t.skip(1) =~= lua_text(inner).skip(1) + ")"@);
    lua_strings_read_back(inner, ")"@);
    lemma_one_line(inner);
    lemma_no_newline(q, lua_body(inner), q);
    lemma_no_newline(head, lua_text(inner), ")"@);
    if starts_with(s, "--"@) {
        assert(s.subrange(0, 2)[0] == s[0]);
        assert("--"@[0] == '-');
    }
}

/// Hyprland recognises the statement that it writes for a file.
pub proof fn hyprland_recognises_its_statement(
    main: Seq<char>,
    generated: Seq<char>,
    home: Seq<char>,
)
    requires
        file_name(generated) is Some,
    ensures
        recognisable(Hyprland, Hyprland.statement(main, generated, home), generated),
{
    let name = file_name(generated).unwrap();
    let s = Hyprland.statement(main, generated, home);
    if same_parent(generated, main) {
        reveal_strlit("require(");
        lemma_call("require("@, stem(name));
    } else {
        reveal_strlit("dofile(");
        lemma_call("dofile("@, generated);
    }
    assert(hypr_call(s, name, 0));
}

pub proof fn lemma_without_keeps(s: Seq<char>, c: char)
    requires
        !s.contains(c),
    ensures
        without(s, c) == s,
    decreases s.len(),
{
    reveal(Seq::filter);
    if s.len() > 0 {
        let body = s.drop_last();
        assert(s[s.len() - 1] != c);
        assert(!body.contains(c)) by {
            if body.contains(c) {
                let i = choose|i: int| 0 <= i < body.len() && body[i] == c;
                assert(s[i] == c);
            }
        }
        lemma_without_keeps(body, c);
        assert(body.push(s.last()) =~= s);
    } else {
        assert(without(s, c) =~= s);
    }
}

/// A text in quotes gives the text back.
proof fn lemma_unquoted(inner: Seq<char>)
    requires
        !inner.contains('"'),
    ensures
        ({
            let t = seq!['"'] + inner + seq!['"'];
            trim(t) == t && unquoted(t) == inner
        }),
{
    let q = seq!['"'];
    let t = q + inner + q;
    assert(t[0] == '"' && t.last() == '"');
    assert(trim_start(t) == t);
    assert(trim_end(t) == t);
    let rest = t.skip(1);
    assert(rest =~= inner + q);
    assert(t.take(1) =~= q);
    let n = inner.len() as int;
    assert(rest.subrange(n, n + 1) =~= q);
    assert(occurs_at(rest, q, n));
    lemma_find(rest, q, 0);
    let k = find(rest, q).unwrap();
    if k < n {
        assert(rest.subrange(k, k + 1)[0] == rest[k]);
        assert(inner[k] == '"');
    }
    assert(rest.take(n) =~= inner);
}

/// sway's quotes change nothing in a path that can be quoted.
proof fn lemma_quotable(p: Seq<char>, home: Seq<char>)
    requires
        quotable_path(p),
        file_name(p) is Some,
        components(p) != components(home),
    ensures
        quotable(tilded(p, home)) == tilded(p, home),
        quotable_path(tilded(p, home)),
{
    let path = tilded(p, home);
    tilded_paths_keep_their_file_name(p, home);
    assert forall|i: int| 0 <= i < path.len() implies (#[trigger] path[i]) != '"' && path[i]
        != '\n' && path[i] != '\r' by {
        if p.contains(path[i]) {
            let j = choose|j: int| 0 <= j < p.len() && p[j] == path[i];
            assert(p[j] != '"');
        }
    }
    lemma_without_keeps(path, '"');
    lemma_without_keeps(path, '\n');
    lemma_without_keeps(path, '\r');
}

/// A path without the characters that sway cannot hold between quotes.
pub open spec fn quotable_path(s: Seq<char>) -> bool {
    forall|i: int| 0 <= i < s.len() ==> (#[trigger] s[i]) != '"' && s[i] != '\n' && s[i] != '\r'
}

proof fn lemma_no_hash(s: Seq<char>)
    requires
        s.len() > 0,
        s[0] != '#',
    ensures
        !starts_with(s, "#"@),
{
    reveal_strlit("#");
    if occurs_at(s, "#"@, 0) {
        assert(s.subrange(0, 1)[0] == s[0]);
        assert("#"@[0] == '#');
    }
}

/// sway recognises the statement that it writes for any file whose path can be
/// quoted, but for the home directory itself.
pub proof fn sway_recognises_its_statement(
    main: Seq<char>,
    generated: Seq<char>,
    home: Seq<char>,
)
    requires
        quotable_path(generated),
        file_name(generated) is Some,
        components(generated) != components(home),
    ensures
        recognisable(Sway, Sway.statement(main, generated, home), generated),
{
    let s = Sway.statement(main, generated, home);
    let path = tilded(generated, home);
    let head = "include "@;
    let q = seq!['"'];
    tilded_paths_keep_their_file_name(generated, home);
    lemma_quotable(generated, home);
    assert(head.len() == 8 && head[0] == 'i' && !head.contains('\n')) by {
        reveal_strlit("include ");
    }
    assert("\""@ =~= q) by {
        reveal_strlit("\"");
    }
    assert(!path.contains('"') && !path.contains('\n'));
    let t = q + path + q;
    assert(s == head + t);
    assert(s[0] == 'i');
    assert(trim_start(s) == s);
    assert(s.subrange(0, 8) =~= head);
    assert(s.skip(8) =~= t);
    lemma_unquoted(path);
    assert(sway_path(s) == path);
    lemma_no_newline(q, path, q);
    lemma_no_newline(head, t, Seq::empty());
    assert(head + t + Seq::<char>::empty() =~= s);
    assert(s.last() == '"');
    lemma_no_hash(s);
}

/// What Hyprland takes for a file being pulled in is a call, not behind a comment's
/// marker, that is given the file: as a module, by its stem, or by a path that ends
/// in its name.
pub proof fn hyprland_pulls_in_what_is_called(line: Seq<char>, generated: Seq<char>) -> (k: int)
    requires
        Hyprland.pulls_in(line, generated),
    ensures
        !contains(line.take(k), "--"@),
        occurs_at(line, "require("@, k) || occurs_at(line, "dofile("@, k),
        ({
            let called = lua_literal(line.skip(k + 8));
            let done = lua_literal(line.skip(k + 7));
            ||| occurs_at(line, "require("@, k) && called is Some && (called->0 == stem(
                file_name(generated)->0,
            ) || file_name(called->0) == file_name(generated))
            ||| occurs_at(line, "dofile("@, k) && done is Some && file_name(done->0)
                == file_name(generated)
        }),
        file_name(generated) is Some,
        Hyprland.pulls(line),
{
    let name = file_name(generated).unwrap();
    let k = choose|k: int| #[trigger] hypr_call(line, name, k);
    assert(contains(line, "require("@) || contains(line, "dofile("@));
    k
}

/// sway pulls in the file that an include names, whatever stands before it; what
/// it takes for a directive begins with its word.
pub proof fn sway_pulls_in_what_is_named(
    lead: Seq<char>,
    path: Seq<char>,
    generated: Seq<char>,
)
    requires
        all_white(lead),
        path.len() > 0,
        !is_white(path[0]),
        !is_white(path.last()),
        path[0] != '"',
        path[0] != '\'',
    ensures
        ({
            let include_line = lead + ("include "@ + path);
            let output_line = lead + ("output "@ + path);
            &&& Sway.pulls(include_line)
            &&& !Sway.opens(include_line)
            &&& Sway.opens(output_line)
            &&& !Sway.pulls(output_line)
            &&& Sway.pulls_in(include_line, generated) == (file_name(generated) is Some
                && file_name(path) == file_name(generated))
            &&& !Sway.pulls_in(output_line, generated)
        }),
{
    reveal_strlit("include ");
    reveal_strlit("output ");
    let a = "include "@ + path;
    let b = "output "@ + path;
    assert(a[0] == 'i' && b[0] == 'o');
    leading_white_is_trimmed(lead, a);
    leading_white_is_trimmed(lead, b);
    assert(a.subrange(0, 8) =~= "include "@);
    assert(b.subrange(0, 7) =~= "output "@);
    if starts_with(a, "output "@) {
        assert(a.subrange(0, 7)[0] == a[0]);
    }
    if starts_with(b, "include "@) {
        assert(b.subrange(0, 8)[0] == b[0]);
    }
    assert(a.skip(8) =~= path);
    let none = Seq::<char>::empty();
    assert(none + path + none =~= path);
    surrounding_white_is_trimmed(none, path, none);
}

/// A plugin takes the directives that it writes for directives, and none of them
/// for a file being pulled in.
pub proof fn plugins_recognise_their_directives(o: OutputView)
    ensures
        Hyprland.opens(Hyprland.directive(o)),
        Sway.opens(Sway.directive(o)),
        !Sway.pulls(Sway.directive(o)),
{
    reveal_strlit("hl.monitor({ output = ");
    reveal_strlit("hl.monitor(");
    reveal_strlit("output ");
    reveal_strlit("include ");
    let h = Hyprland.directive(o);
    assert(h.subrange(0, 11) =~= "hl.monitor("@);
    assert(occurs_at(h, "hl.monitor("@, 0));
    let w = Sway.directive(o);
    assert(w.subrange(0, 7) =~= "output "@);
    assert(w[0] == "output "@[0]);
    assert(trim_start(w) == w);
    if starts_with(w, "include "@) {
        assert(w.subrange(0, 8)[0] == w[0]);
    }
}

} // verus!
