//! Unix paths as text: their components, their names and how they are joined.

use vstd::prelude::*;

use crate::text::{
    contains, lemma_views_push, occurs_at, same, slice_string, to_chars, views,
};

verus! {

// ---------------------------------------------------------------- models

/// `s` from the first component on: separators, and `.` for the directory
/// itself, are passed over.
pub open spec fn skip_separators(s: Seq<char>) -> Seq<char>
    decreases s.len(),
{
    if s.len() > 0 && s[0] == '/' {
        skip_separators(s.skip(1))
    } else if s.len() == 1 && s[0] == '.' {
        Seq::empty()
    } else if s.len() >= 2 && s[0] == '.' && s[1] == '/' {
        skip_separators(s.skip(2))
    } else {
        s
    }
}

/// The length of the component that `s` starts with.
pub open spec fn name_len(s: Seq<char>) -> nat
    decreases s.len(),
{
    if s.len() == 0 || s[0] == '/' {
        0
    } else {
        1 + name_len(s.skip(1))
    }
}

/// The names in a path.
pub open spec fn names(s: Seq<char>) -> Seq<Seq<char>>
    decreases s.len(),
    via names_decreases
{
    let t = skip_separators(s);
    if t.len() == 0 {
        Seq::empty()
    } else {
        let n = name_len(t) as int;
        seq![t.take(n)] + names(t.skip(n))
    }
}

#[via_fn]
proof fn names_decreases(s: Seq<char>) {
    lemma_skip_separators(s);
    lemma_name_len(skip_separators(s));
}

pub open spec fn is_rooted(p: Seq<char>) -> bool {
    p.len() > 0 && p[0] == '/'
}

/// A path that starts with `.` for the current directory.
pub open spec fn is_dotted(p: Seq<char>) -> bool {
    p.len() > 0 && p[0] == '.' && (p.len() == 1 || p[1] == '/')
}

/// The components of a path: a root or a leading `.` counts as one.
pub open spec fn components(p: Seq<char>) -> Seq<Seq<char>> {
    if is_rooted(p) || is_dotted(p) {
        seq![p.take(1)] + names(p.skip(1))
    } else {
        names(p)
    }
}

/// The last component, where it is a name.
pub open spec fn file_name(p: Seq<char>) -> Option<Seq<char>> {
    let c = components(p);
    if c.len() > 0 && c.last() != "/"@ && c.last() != "."@ && c.last() != ".."@ {
        Some(c.last())
    } else {
        None
    }
}

/// Where the last dot stands.
pub open spec fn last_dot(s: Seq<char>) -> Option<int>
    decreases s.len(),
{
    if s.len() == 0 {
        None
    } else if s.last() == '.' {
        Some(s.len() - 1)
    } else {
        last_dot(s.drop_last())
    }
}

/// A name without its extension.
pub open spec fn stem(name: Seq<char>) -> Seq<char> {
    match last_dot(name) {
        Some(i) => if i > 0 {
            name.take(i)
        } else {
            name
        },
        None => name,
    }
}

/// Whether two paths have a parent, and the same one.
pub open spec fn same_parent(a: Seq<char>, b: Seq<char>) -> bool {
    let c = components(a);
    let d = components(b);
    &&& c.len() > 0
    &&& d.len() > 0
    &&& c != seq!["/"@]
    &&& d != seq!["/"@]
    &&& c.drop_last() == d.drop_last()
}

/// What is left of the text behind `k` names.
pub open spec fn behind_names(s: Seq<char>, k: nat) -> Seq<char>
    decreases k,
{
    let t = skip_separators(s);
    if k == 0 {
        t
    } else {
        behind_names(t.skip(name_len(t) as int), (k - 1) as nat)
    }
}

/// `s` without the separators, and the `.` behind them, that it ends with.
pub open spec fn trim_separators(s: Seq<char>) -> Seq<char>
    decreases s.len(),
{
    if s.len() > 0 && s.last() == '/' {
        trim_separators(s.drop_last())
    } else if s.len() > 1 && s.last() == '.' && s[s.len() - 2] == '/' {
        trim_separators(s.drop_last())
    } else {
        s
    }
}

/// What follows the first `k` components.
pub open spec fn behind(p: Seq<char>, k: nat) -> Seq<char> {
    if k == 0 {
        p
    } else if is_rooted(p) || is_dotted(p) {
        trim_separators(behind_names(p.skip(1), (k - 1) as nat))
    } else {
        trim_separators(behind_names(p, k))
    }
}

/// Whether a path begins with all the components of another one.
pub open spec fn lies_in(p: Seq<char>, dir: Seq<char>) -> bool {
    components(dir).is_prefix_of(components(p))
}

/// A name appended to a directory; an absolute name stands for itself.
pub open spec fn path_join(dir: Seq<char>, name: Seq<char>) -> Seq<char> {
    if is_rooted(name) || dir.len() == 0 {
        name
    } else if dir.last() == '/' {
        dir + name
    } else {
        dir + "/"@ + name
    }
}

/// A path with the home directory written as `~`.
pub open spec fn tilded(p: Seq<char>, home: Seq<char>) -> Seq<char> {
    if lies_in(p, home) {
        "~/"@ + behind(p, components(home).len())
    } else {
        p
    }
}

// ---------------------------------------------------------------- lemmas

proof fn lemma_skip_separators(s: Seq<char>)
    ensures
        skip_separators(s).len() <= s.len(),
        skip_separators(s) == s.skip(s.len() - skip_separators(s).len()),
        skip_separators(s).len() > 0 ==> skip_separators(s)[0] != '/',
        !is_dotted(skip_separators(s)),
        skip_separators(skip_separators(s)) == skip_separators(s),
    decreases s.len(),
{
    let t = skip_separators(s);
    if s.len() > 0 && s[0] == '/' {
        lemma_skip_separators(s.skip(1));
        assert(s.skip(1).skip(s.len() - 1 - t.len()) =~= s.skip(s.len() - t.len()));
    } else if s.len() == 1 && s[0] == '.' {
        assert(s.skip(1) =~= Seq::empty());
    } else if s.len() >= 2 && s[0] == '.' && s[1] == '/' {
        lemma_skip_separators(s.skip(2));
        assert(s.skip(2).skip(s.len() - 2 - t.len()) =~= s.skip(s.len() - t.len()));
    } else {
        assert(s.skip(0) =~= s);
    }
}

proof fn lemma_name_len(s: Seq<char>)
    ensures
        name_len(s) <= s.len(),
        s.len() > 0 && s[0] != '/' ==> name_len(s) > 0,
        forall|i: int| 0 <= i < name_len(s) ==> s[i] != '/',
        name_len(s) < s.len() ==> s[name_len(s) as int] == '/',
    decreases s.len(),
{
    if s.len() > 0 && s[0] != '/' {
        let r = s.skip(1);
        lemma_name_len(r);
        assert forall|i: int| 0 <= i < name_len(s) implies s[i] != '/' by {
            if i > 0 {
                assert(s[i] == r[i - 1]);
            }
        }
    }
}

/// Where the last name stands in the text.
proof fn lemma_last_name(s: Seq<char>) -> (r: (int, int))
    requires
        names(s).len() > 0,
    ensures
        0 <= r.0 < r.1 <= s.len(),
        s.subrange(r.0, r.1) == names(s).last(),
        forall|i: int| r.0 <= i < r.1 ==> s[i] != '/',
        r.1 - r.0 == 1 ==> s[r.0] != '.',
    decreases s.len(),
{
    let t = skip_separators(s);
    let d = s.len() - t.len();
    let m = name_len(t) as int;
    lemma_skip_separators(s);
    lemma_name_len(t);
    let rest = t.skip(m);
    if names(rest).len() == 0 {
        assert(names(s) =~= seq![t.take(m)]);
        assert(s.subrange(d, d + m) =~= t.take(m));
        assert forall|i: int| d <= i < d + m implies s[i] != '/' by {
            assert(s[i] == t[i - d]);
        }
        if m == 1 {
            assert(s[d] == t[0]);
        }
        (d, d + m)
    } else {
        let (a, b) = lemma_last_name(rest);
        assert(names(s).last() == names(rest).last());
        assert(s.subrange(d + m + a, d + m + b) =~= rest.subrange(a, b));
        assert forall|i: int| d + m + a <= i < d + m + b implies s[i] != '/' by {
            assert(s[i] == rest[i - d - m]);
        }
        if b - a == 1 {
            assert(s[d + m + a] == rest[a]);
        }
        (d + m + a, d + m + b)
    }
}

/// A path's file name stands in the path.
pub proof fn paths_hold_their_file_name(p: Seq<char>)
    ensures
        file_name(p) is Some ==> contains(p, file_name(p).unwrap()) && file_name(p).unwrap().len()
            > 0,
{
    if let Some(n) = file_name(p) {
        let lead = is_rooted(p) || is_dotted(p);
        let s = if lead {
            p.skip(1)
        } else {
            p
        };
        let o = if lead {
            1int
        } else {
            0int
        };
        if names(s).len() == 0 {
            reveal_strlit("/");
            reveal_strlit(".");
            assert(components(p) =~= seq![p.take(1)]);
            assert(p.take(1) =~= "/"@ || p.take(1) =~= "."@);
        }
        let (a, b) = lemma_last_name(s);
        assert(components(p).last() == names(s).last());
        assert(p.subrange(o + a, o + b) =~= s.subrange(a, b));
        assert(occurs_at(p, n, o + a));
    }
}

/// What stands behind some of the names still has the others.
proof fn lemma_behind_names(s: Seq<char>, k: nat)
    requires
        k <= names(s).len(),
    ensures
        names(behind_names(s, k)) == names(s).skip(k as int),
        behind_names(s, k).len() <= s.len(),
        behind_names(s, k) == s.skip(s.len() - behind_names(s, k).len()),
    decreases k,
{
    let t = skip_separators(s);
    lemma_skip_separators(s);
    if k == 0 {
        assert(names(s).skip(0) =~= names(s));
    } else {
        let m = name_len(t) as int;
        lemma_name_len(t);
        let rest = t.skip(m);
        assert(names(s) =~= seq![t.take(m)] + names(rest));
        lemma_behind_names(rest, (k - 1) as nat);
        assert(names(s).skip(k as int) =~= names(rest).skip(k - 1));
        let r = behind_names(s, k);
        assert(rest.skip(rest.len() - r.len()) =~= s.skip(s.len() - r.len()));
    }
}

proof fn lemma_same_names(a: Seq<char>, b: Seq<char>)
    requires
        skip_separators(a) == skip_separators(b),
    ensures
        names(a) == names(b),
{
}

/// The separator, or the `.` behind one, that a text ends with adds no name.
proof fn lemma_names_drop(s: Seq<char>)
    requires
        s.len() > 0,
        s.last() == '/' || (s.len() > 1 && s.last() == '.' && s[s.len() - 2] == '/'),
    ensures
        names(s.drop_last()) == names(s),
    decreases s.len(),
{
    let d = s.drop_last();
    if s[0] == '/' {
        let r = s.skip(1);
        lemma_same_names(s, r);
        if s.len() == 1 {
            assert(r =~= d);
        } else if s.len() == 2 && s[1] == '.' {
            assert(d.skip(1) =~= Seq::empty());
            assert(skip_separators(d) == skip_separators(d.skip(1)));
            assert(skip_separators(r) =~= Seq::empty());
            lemma_same_names(d, r);
        } else {
            assert(r.last() == s.last());
            lemma_names_drop(r);
            assert(d.skip(1) =~= r.drop_last());
            lemma_same_names(d, r.drop_last());
        }
    } else if s[0] == '.' && s[1] == '/' {
        let r = s.skip(2);
        lemma_same_names(s, r);
        if s.len() == 2 {
            assert(d[0] == '.');
            assert(r =~= Seq::empty());
            lemma_same_names(d, r);
        } else if s.len() == 3 && s[2] == '.' {
            assert(d.skip(2) =~= Seq::empty());
            assert(skip_separators(d) == skip_separators(d.skip(2)));
            assert(skip_separators(r) =~= Seq::empty());
            lemma_same_names(d, r);
        } else {
            assert(r.last() == s.last());
            lemma_names_drop(r);
            assert(d.skip(2) =~= r.drop_last());
            lemma_same_names(d, r.drop_last());
        }
    } else {
        let n = name_len(s) as int;
        lemma_name_len(s);
        let rest = s.skip(n);
        if n == s.len() {
            assert(s[s.len() - 1] != '/');
            assert(s[s.len() - 2] != '/');
        }
        assert(rest.last() == s.last());
        assert(rest[0] == '/');
        if s.last() == '.' {
            assert(n <= s.len() - 2);
            assert(rest[rest.len() - 2] == s[s.len() - 2]);
        }
        lemma_names_drop(rest);
        lemma_name_len(d);
        let m = name_len(d) as int;
        if m < n {
            assert(d[m] == s[m]);
        } else if m > n {
            assert(d[n] == s[n]);
        }
        assert(d.take(n) =~= s.take(n));
        assert(d.skip(n) =~= rest.drop_last());
        assert(skip_separators(s) == s);
        assert(skip_separators(d) == d);
        assert(names(s) == seq![s.take(n)] + names(rest));
        assert(names(d) == seq![d.take(n)] + names(d.skip(n)));
    }
}

/// Trimming takes no name off.
proof fn lemma_names_trim(s: Seq<char>)
    ensures
        names(trim_separators(s)) == names(s),
    decreases s.len(),
{
    if s.len() > 0 && (s.last() == '/' || (s.len() > 1 && s.last() == '.' && s[s.len() - 2]
        == '/')) {
        lemma_names_drop(s);
        lemma_names_trim(s.drop_last());
    }
}

proof fn lemma_trim_is_prefix(s: Seq<char>)
    ensures
        trim_separators(s).len() <= s.len(),
        trim_separators(s) == s.take(trim_separators(s).len() as int),
    decreases s.len(),
{
    let n = trim_separators(s).len() as int;
    if s.len() > 0 && (s.last() == '/' || (s.len() > 1 && s.last() == '.' && s[s.len() - 2]
        == '/')) {
        lemma_trim_is_prefix(s.drop_last());
        assert(s.drop_last().take(n) =~= s.take(n));
    } else {
        assert(s.take(n) =~= s);
    }
}

/// The names behind `~/`.
proof fn lemma_tilde(u: Seq<char>)
    requires
        names(u).len() > 0,
    ensures
        components("~/"@ + u).len() > 0,
        components("~/"@ + u).last() == names(u).last(),
{
    reveal_strlit("~/");
    let r = "~/"@ + u;
    let rest = r.skip(1);
    assert(r[0] == '~' && r[1] == '/');
    assert(r.skip(1)[0] == '/');
    assert(name_len(r.skip(1)) == 0);
    assert(name_len(r) == 1);
    assert(skip_separators(r) == r);
    assert(rest.skip(1) =~= u);
    assert(skip_separators(rest) == skip_separators(u));
    assert(names(rest) == names(u));
    assert(names(r) =~= seq![r.take(1)] + names(rest));
}

/// The last component of a path with a file name is the last of its names.
proof fn lemma_named_path(p: Seq<char>)
    requires
        file_name(p) is Some,
    ensures
        names(p).len() > 0,
        names(p).last() == components(p).last(),
        is_rooted(p) || is_dotted(p) ==> names(p) == names(p.skip(1)),
{
    reveal_strlit("/");
    reveal_strlit(".");
    if is_rooted(p) || is_dotted(p) {
        if names(p.skip(1)).len() == 0 {
            assert(components(p) =~= seq![p.take(1)]);
            assert(p.take(1) =~= "/"@ || p.take(1) =~= "."@);
        }
        if is_dotted(p) {
            if p.len() == 1 {
                assert(p.skip(1) =~= Seq::empty());
            } else {
                assert(p.skip(1).skip(1) =~= p.skip(2));
            }
        }
    }
}

/// A path written with `~` for the home directory keeps its file name, and has
/// no characters but its own and those of `~/`. The home directory itself is left
/// out.
pub proof fn tilded_paths_keep_their_file_name(p: Seq<char>, home: Seq<char>)
    requires
        file_name(p) is Some,
        components(p) != components(home),
    ensures
        file_name(tilded(p, home)) == file_name(p),
        forall|i: int|
            0 <= i < tilded(p, home).len() ==> p.contains(#[trigger] tilded(p, home)[i])
                || tilded(p, home)[i] == '~' || tilded(p, home)[i] == '/',
{
    reveal_strlit("~/");
    let r = tilded(p, home);
    let k = components(home).len();
    lemma_named_path(p);
    if !lies_in(p, home) {
        assert(r == p);
    } else if k == 0 {
        assert(r =~= "~/"@ + p);
        lemma_tilde(p);
        assert forall|i: int| 0 <= i < r.len() implies p.contains(#[trigger] r[i]) || r[i] == '~'
            || r[i] == '/' by {
            if i >= 2 {
                assert(r[i] == p[i - 2]);
            }
        }
    } else {
        if components(p).len() == k {
            assert(components(p) =~= components(home));
        }
        let lead = is_rooted(p) || is_dotted(p);
        let s = if lead {
            p.skip(1)
        } else {
            p
        };
        let q = if lead {
            (k - 1) as nat
        } else {
            k
        };
        assert(q < names(s).len());
        lemma_behind_names(s, q);
        let t = behind_names(s, q);
        assert(names(t).last() == names(s).last());
        let u = trim_separators(t);
        lemma_names_trim(t);
        lemma_trim_is_prefix(t);
        assert(r =~= "~/"@ + u);
        lemma_tilde(u);
        assert forall|i: int| 0 <= i < r.len() implies p.contains(#[trigger] r[i]) || r[i] == '~'
            || r[i] == '/' by {
            if i >= 2 {
                let d = s.len() - t.len();
                assert(r[i] == u[i - 2]);
                assert(u[i - 2] == t[i - 2]);
                assert(t[i - 2] == s[d + i - 2]);
                if lead {
                    assert(s[d + i - 2] == p[1 + d + i - 2]);
                }
            }
        }
    }
}

proof fn lemma_skip_before(s: Seq<char>, rest: Seq<char>)
    requires
        rest.len() > 0,
        !is_rooted(rest),
        !is_dotted(rest),
    ensures
        ({
            let whole = s.push('/') + rest;
            let t = skip_separators(s);
            &&& t.len() == 0 ==> skip_separators(whole) == rest
            &&& t.len() > 0 ==> skip_separators(whole) == t.push('/') + rest
        }),
    decreases s.len(),
{
    let whole = s.push('/') + rest;
    if s.len() == 0 {
        assert(whole.skip(1) =~= rest);
        assert(skip_separators(rest) == rest);
    } else if s[0] == '/' {
        assert(whole.skip(1) =~= s.skip(1).push('/') + rest);
        lemma_skip_before(s.skip(1), rest);
    } else if s.len() == 1 && s[0] == '.' {
        assert(whole.skip(2) =~= rest);
        assert(skip_separators(rest) == rest);
    } else if s.len() >= 2 && s[0] == '.' && s[1] == '/' {
        assert(whole.skip(2) =~= s.skip(2).push('/') + rest);
        lemma_skip_before(s.skip(2), rest);
    } else {
        assert(whole[0] == s[0]);
        assert(s.len() >= 2 ==> whole[1] == s[1]);
    }
}

proof fn lemma_name_before(t: Seq<char>, rest: Seq<char>)
    ensures
        name_len(t.push('/') + rest) == name_len(t),
    decreases t.len(),
{
    let whole = t.push('/') + rest;
    if t.len() > 0 && t[0] != '/' {
        assert(whole.skip(1) =~= t.skip(1).push('/') + rest);
        lemma_name_before(t.skip(1), rest);
    }
}

proof fn lemma_names_before(s: Seq<char>, rest: Seq<char>)
    requires
        rest.len() > 0,
        !is_rooted(rest),
        !is_dotted(rest),
    ensures
        names(s.push('/') + rest) == names(s) + names(rest),
        behind_names(s.push('/') + rest, names(s).len()) == rest,
    decreases s.len(),
{
    let whole = s.push('/') + rest;
    let t = skip_separators(s);
    lemma_skip_before(s, rest);
    lemma_skip_separators(s);
    assert(skip_separators(rest) == rest);
    if t.len() == 0 {
        assert(names(whole) =~= names(s) + names(rest));
    } else {
        let n = name_len(t) as int;
        lemma_name_len(t);
        lemma_name_before(t, rest);
        let all = t.push('/') + rest;
        assert(all.take(n) =~= t.take(n));
        assert(all.skip(n) =~= t.skip(n).push('/') + rest);
        lemma_names_before(t.skip(n), rest);
        assert(names(whole) =~= names(s) + names(rest));
        assert(names(s).len() == 1 + names(t.skip(n)).len());
    }
}

/// The components of a path below a directory are those of the directory and then
/// the names below it; a name without a slash is one of them.
pub proof fn paths_hold_the_names_below_their_directory(dir: Seq<char>, rest: Seq<char>)
    requires
        dir.len() > 0,
        rest.len() > 0,
        !is_rooted(rest),
        !is_dotted(rest),
    ensures
        components(dir.push('/') + rest) == components(dir) + names(rest),
        !rest.contains('/') ==> names(rest) == seq![rest],
        lies_in(dir.push('/') + rest, dir),
{
    let p = dir.push('/') + rest;
    assert(p[0] == dir[0]);
    assert(dir.len() >= 2 ==> p[1] == dir[1]);
    if is_rooted(dir) || is_dotted(dir) {
        assert(p.skip(1) =~= dir.skip(1).push('/') + rest);
        assert(p.take(1) =~= dir.take(1));
        lemma_names_before(dir.skip(1), rest);
        assert(components(p) =~= components(dir) + names(rest));
    } else {
        lemma_names_before(dir, rest);
    }
    assert(components(p).take(components(dir).len() as int) =~= components(dir));
    if !rest.contains('/') {
        assert(skip_separators(rest) == rest);
        lemma_name_len(rest);
        let n = name_len(rest) as int;
        if n < rest.len() {
            assert(rest.contains('/'));
        }
        assert(rest.take(n) =~= rest);
        assert(rest.skip(n) =~= Seq::empty());
        assert(names(Seq::<char>::empty()).len() == 0);
        assert(names(rest) =~= seq![rest.take(n)] + names(rest.skip(n)));
        assert(names(rest) =~= seq![rest]);
    }
}

/// Files side by side have the same parent, and a file does not share it with one
/// that lies deeper.
pub proof fn files_side_by_side_are_neighbours(dir: Seq<char>, a: Seq<char>, b: Seq<char>)
    requires
        dir.len() > 0,
        a.len() > 0,
        b.len() > 0,
        !is_dotted(a),
        !is_dotted(b),
        !a.contains('/'),
        !b.contains('/'),
    ensures
        same_parent(dir.push('/') + a, dir.push('/') + b),
        !same_parent(dir.push('/') + a, dir.push('/') + (a.push('/') + b)),
{
    let deeper = a.push('/') + b;
    assert(!is_rooted(a)) by {
        if is_rooted(a) {
            assert(a.contains('/'));
        }
    }
    assert(!is_rooted(b)) by {
        if is_rooted(b) {
            assert(b.contains('/'));
        }
    }
    paths_hold_the_names_below_their_directory(dir, a);
    paths_hold_the_names_below_their_directory(dir, b);
    assert(deeper[0] == a[0]);
    assert(a.len() >= 2 ==> deeper[1] == a[1]);
    assert(a.len() == 1 ==> a[0] != '.');
    if is_dotted(deeper) {
        assert(a[1] == '/');
    }
    paths_hold_the_names_below_their_directory(dir, deeper);
    lemma_names_before(a, b);
    let c = components(dir);
    assert((c + seq![a]).drop_last() =~= c);
    assert((c + seq![b]).drop_last() =~= c);
    assert((c + (seq![a] + seq![b])).drop_last() =~= c + seq![a]);
    reveal_strlit("/");
    assert(c.len() > 0 || c + seq![a] =~= seq![a]);
    assert(a != "/"@) by {
        if a == "/"@ {
            assert(a[0] == '/');
        }
    }
    assert((c + seq![a]).last() == a);
    assert(b != "/"@) by {
        if b == "/"@ {
            assert(b[0] == '/');
        }
    }
    assert((c + seq![b]).last() == b);
}

/// What lies in the home directory is written behind a tilde as it stands there.
pub proof fn homes_are_written_as_a_tilde(home: Seq<char>, rest: Seq<char>)
    requires
        home.len() > 0,
        rest.len() > 0,
        !is_rooted(rest),
        !is_dotted(rest),
        rest.last() != '/',
        rest.len() > 1 && rest.last() == '.' ==> rest[rest.len() - 2] != '/',
    ensures
        tilded(home.push('/') + rest, home) == seq!['~', '/'] + rest,
{
    let p = home.push('/') + rest;
    reveal_strlit("~/");
    assert("~/"@ =~= seq!['~', '/']);
    paths_hold_the_names_below_their_directory(home, rest);
    assert(p[0] == home[0]);
    assert(home.len() >= 2 ==> p[1] == home[1]);
    assert(trim_separators(rest) == rest);
    let k = components(home).len();
    if is_rooted(home) || is_dotted(home) {
        assert(p.skip(1) =~= home.skip(1).push('/') + rest);
        lemma_names_before(home.skip(1), rest);
    } else {
        lemma_names_before(home, rest);
        lemma_skip_separators(home);
        if k == 0 {
            assert(skip_separators(home).len() == 0);
        }
    }
}

// ---------------------------------------------------------------- functions

fn skipped(v: &Vec<char>, from: usize) -> (r: usize)
    requires
        from <= v@.len(),
    ensures
        from <= r <= v@.len(),
        v@.skip(r as int) == skip_separators(v@.skip(from as int)),
{
    let mut i: usize = from;
    loop
        invariant
            from <= i <= v@.len(),
            skip_separators(v@.skip(i as int)) == skip_separators(v@.skip(from as int)),
        decreases v@.len() - i,
    {
        let ghost rest = v@.skip(i as int);
        if i < v.len() && v[i] == '/' {
            assert(rest.skip(1) =~= v@.skip(i + 1));
            i = i + 1;
        } else if v.len() - i == 1 && v[i] == '.' {
            assert(v@.skip(v@.len() as int) =~= Seq::empty());
            return v.len();
        } else if v.len() - i >= 2 && v[i] == '.' && v[i + 1] == '/' {
            assert(rest.skip(2) =~= v@.skip(i + 2));
            i = i + 2;
        } else {
            return i;
        }
    }
}

fn name_end(v: &Vec<char>, from: usize) -> (r: usize)
    requires
        from <= v@.len(),
    ensures
        from <= r <= v@.len(),
        r - from == name_len(v@.skip(from as int)),
{
    let mut i: usize = from;
    while i < v.len() && v[i] != '/'
        invariant
            from <= i <= v@.len(),
            i - from + name_len(v@.skip(i as int)) == name_len(v@.skip(from as int)),
        decreases v@.len() - i,
    {
        assert(v@.skip(i as int).skip(1) =~= v@.skip(i + 1));
        i = i + 1;
    }
    i
}

/// The components of a path.
pub fn components_of(p: &str) -> (r: Vec<String>)
    ensures
        views(r@) == components(p@),
{
    let v = to_chars(p);
    let mut r: Vec<String> = Vec::new();
    let mut at: usize = 0;
    assert(v@.skip(0) =~= v@);
    if v.len() > 0 && (v[0] == '/' || (v[0] == '.' && (v.len() == 1 || v[1] == '/'))) {
        let first = slice_string(&v, 0, 1);
        assert(first@ =~= p@.take(1));
        r.push(first);
        at = 1;
        assert(views(r@) =~= seq![p@.take(1)]);
    }
    assert(views(r@) + names(v@.skip(at as int)) =~= components(p@));
    loop
        invariant
            at <= v@.len(),
            views(r@) + names(v@.skip(at as int)) == components(p@),
        decreases v@.len() - at,
    {
        let from: usize = skipped(&v, at);
        let ghost rest = v@.skip(from as int);
        if from == v.len() {
            assert(rest =~= Seq::empty());
            assert(views(r@) + Seq::<Seq<char>>::empty() =~= views(r@));
            return r;
        }
        proof {
            lemma_skip_separators(v@.skip(at as int));
            lemma_name_len(rest);
        }
        let to: usize = name_end(&v, from);
        let t = slice_string(&v, from, to);
        assert(t@ =~= rest.take(to - from));
        assert(rest.skip(to - from) =~= v@.skip(to as int));
        proof {
            lemma_views_push(r@, t);
            assert(views(r@).push(t@) + names(v@.skip(to as int)) =~= views(r@) + (seq![t@]
                + names(v@.skip(to as int))));
        }
        r.push(t);
        at = to;
    }
}

/// The last component, where it is a name.
pub fn name_of(p: &str) -> (r: Option<String>)
    ensures
        match (r, file_name(p@)) {
            (Some(a), Some(b)) => a@ == b,
            (None, None) => true,
            _ => false,
        },
{
    let c = components_of(p);
    assert(views(c@).len() == c@.len());
    if c.len() == 0 {
        return None;
    }
    let last = c[c.len() - 1].clone();
    assert(views(c@).last() == last@);
    if same(last.as_str(), "/") || same(last.as_str(), ".") || same(last.as_str(), "..") {
        None
    } else {
        Some(last)
    }
}

/// A name without its extension.
pub fn stem_of(name: &str) -> (r: String)
    ensures
        r@ == stem(name@),
{
    let v = to_chars(name);
    let mut n: usize = v.len();
    assert(v@.take(n as int) =~= v@);
    while n > 0 && v[n - 1] != '.'
        invariant
            n <= v@.len(),
            last_dot(v@.take(n as int)) == last_dot(v@),
        decreases n,
    {
        assert(v@.take(n as int).drop_last() =~= v@.take(n - 1));
        n = n - 1;
    }
    if n > 1 {
        assert(v@.subrange(0, n - 1) =~= v@.take(n - 1));
        slice_string(&v, 0, n - 1)
    } else {
        assert(v@.subrange(0, v@.len() as int) =~= v@);
        slice_string(&v, 0, v.len())
    }
}

fn starts_alike(a: &Vec<String>, b: &Vec<String>, n: usize) -> (r: bool)
    requires
        n <= a@.len(),
        n <= b@.len(),
    ensures
        r == (views(a@).take(n as int) == views(b@).take(n as int)),
{
    let mut i: usize = 0;
    while i < n
        invariant
            i <= n,
            n <= a@.len(),
            n <= b@.len(),
            forall|j: int| 0 <= j < i ==> #[trigger] views(a@)[j] == views(b@)[j],
        decreases n - i,
    {
        if !same(a[i].as_str(), b[i].as_str()) {
            assert(views(a@).take(n as int)[i as int] != views(b@).take(n as int)[i as int]);
            return false;
        }
        i = i + 1;
    }
    assert(views(a@).take(n as int) =~= views(b@).take(n as int));
    true
}

/// Whether two paths have a parent, and the same one.
pub fn are_neighbours(a: &str, b: &str) -> (r: bool)
    ensures
        r == same_parent(a@, b@),
{
    let c = components_of(a);
    let d = components_of(b);
    assert(views(c@).len() == c@.len());
    assert(views(d@).len() == d@.len());
    if c.len() == 0 || d.len() == 0 {
        return false;
    }
    assert(views(c@)[0] == c@[0]@);
    assert(views(d@)[0] == d@[0]@);
    if c.len() == 1 && same(c[0].as_str(), "/") {
        assert(views(c@) =~= seq!["/"@]);
        return false;
    }
    if d.len() == 1 && same(d[0].as_str(), "/") {
        assert(views(d@) =~= seq!["/"@]);
        return false;
    }
    assert(c@.len() == 1 ==> views(c@)[0] != seq!["/"@][0]);
    assert(d@.len() == 1 ==> views(d@)[0] != seq!["/"@][0]);
    if c.len() != d.len() {
        assert(views(c@).drop_last().len() != views(d@).drop_last().len());
        return false;
    }
    assert(views(c@).drop_last() =~= views(c@).take(c@.len() - 1));
    assert(views(d@).drop_last() =~= views(d@).take(d@.len() - 1));
    starts_alike(&c, &d, c.len() - 1)
}

fn text_behind(p: &str, k: usize) -> (r: String)
    ensures
        r@ == behind(p@, k as nat),
{
    if k == 0 {
        return p.to_owned();
    }
    let v = to_chars(p);
    let lead = v.len() > 0 && (v[0] == '/' || (v[0] == '.' && (v.len() == 1 || v[1] == '/')));
    let mut left: usize = if lead {
        k - 1
    } else {
        k
    };
    let mut at: usize = if lead {
        1
    } else {
        0
    };
    let ghost start = v@.skip(at as int);
    let ghost count = left as nat;
    assert(v@.skip(0) =~= v@);
    while left > 0
        invariant
            at <= v@.len(),
            behind_names(v@.skip(at as int), left as nat) == behind_names(start, count),
        decreases left,
    {
        let from: usize = skipped(&v, at);
        let to: usize = name_end(&v, from);
        assert(v@.skip(from as int).skip(to - from) =~= v@.skip(to as int));
        at = to;
        left = left - 1;
    }
    let from: usize = skipped(&v, at);
    let mut to: usize = v.len();
    assert(v@.subrange(from as int, to as int) =~= v@.skip(from as int));
    while to > from && (v[to - 1] == '/' || (to - from > 1 && v[to - 1] == '.' && v[to - 2] == '/'))
        invariant
            from <= to <= v@.len(),
            trim_separators(v@.subrange(from as int, to as int)) == trim_separators(
                v@.skip(from as int),
            ),
        decreases to,
    {
        assert(v@.subrange(from as int, to as int).drop_last() =~= v@.subrange(
            from as int,
            to - 1,
        ));
        to = to - 1;
    }
    slice_string(&v, from, to)
}

/// A name appended to a directory; an absolute name stands for itself.
pub fn join_path(dir: &str, name: &str) -> (r: String)
    ensures
        r@ == path_join(dir@, name@),
{
    let d = to_chars(dir);
    let n = to_chars(name);
    if d.len() == 0 || (n.len() > 0 && n[0] == '/') {
        return name.to_owned();
    }
    let mut s = dir.to_owned();
    if d[d.len() - 1] != '/' {
        s.append("/");
    }
    s.append(name);
    s
}

/// Replaces the home directory prefix with `~`, the way one would write it
/// by hand in a configuration file.
pub fn tilde_path(p: &str, home: &str) -> (r: String)
    ensures
        r@ == tilded(p@, home@),
{
    let c = components_of(p);
    let h = components_of(home);
    assert(views(c@).len() == c@.len());
    assert(views(h@).len() == h@.len());
    if h.len() <= c.len() && starts_alike(&c, &h, h.len()) {
        assert(views(h@).take(h@.len() as int) =~= views(h@));
        assert(forall|i: int| 0 <= i < h@.len() ==> views(c@).take(h@.len() as int)[i] == views(c@)[i]);
        assert(lies_in(p@, home@));
        let mut s = "~/".to_owned();
        s.append(text_behind(p, h.len()).as_str());
        s
    } else {
        proof {
            if lies_in(p@, home@) {
                assert(views(c@).take(h@.len() as int) =~= views(h@));
                assert(views(h@).take(h@.len() as int) =~= views(h@));
            }
        }
        p.to_owned()
    }
}

} // verus!
