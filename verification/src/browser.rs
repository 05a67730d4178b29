//! Opening the web UI in the user's browser: which program to run, on which
//! address.

use vstd::prelude::*;

use crate::notice::{note, Notice, NoticeId};
use crate::number::{nat_string, nat_text};
use crate::text::{
    contains, has, lemma_views_push, replace, replaced, trim, trimmed, view_opt_str, views, words,
    words_of,
};

verus! {

/// Is there a graphical session to open a browser into?
///
/// Guards against the daemon being started by systemd before the session is
/// up, where `xdg-open` would fail with a confusing message.
pub fn has_display(wayland: bool, x11: bool) -> (r: bool)
    ensures
        r == (wayland || x11),
{
    wayland || x11
}

/// Whether an argument marks where the address goes.
pub open spec fn marks_url(args: Seq<Seq<char>>) -> bool {
    exists|i: int| 0 <= i < args.len() && contains(#[trigger] args[i], "%s"@)
}

/// The arguments with the address in them: where `%s` stands, or at the end.
pub open spec fn with_url(args: Seq<Seq<char>>, url: Seq<char>) -> Seq<Seq<char>> {
    if marks_url(args) {
        args.map_values(|a: Seq<char>| replace(a, "%s"@, url))
    } else {
        args.push(url)
    }
}

/// The program and its arguments that open an address.
pub open spec fn launch(browser: Option<Seq<char>>, url: Seq<char>) -> (Seq<char>, Seq<Seq<char>>) {
    let w = match browser {
        Some(spec) => words(trim(spec)),
        None => Seq::empty(),
    };
    if w.len() == 0 {
        ("xdg-open"@, seq![url])
    } else {
        (w[0], with_url(w.skip(1), url))
    }
}

fn find_mark(args: &Vec<String>) -> (r: bool)
    ensures
        r == marks_url(views(args@)),
{
    let ghost all = views(args@);
    let mut i: usize = 0;
    while i < args.len()
        invariant
            i <= args@.len(),
            all == views(args@),
            forall|j: int| 0 <= j < i ==> !contains(#[trigger] all[j], "%s"@),
        decreases args@.len() - i,
    {
        assert(all[i as int] == args@[i as int]@);
        if has(args[i].as_str(), "%s") {
            return true;
        }
        i = i + 1;
    }
    false
}

fn place_url(args: &Vec<String>, url: &str) -> (r: Vec<String>)
    ensures
        views(r@) == with_url(views(args@), url@),
{
    proof {
        reveal_strlit("%s");
    }
    let ghost all = views(args@);
    let marked = find_mark(args);
    let mut r: Vec<String> = Vec::new();
    let mut i: usize = 0;
    let ghost want = if marked {
        all.map_values(|a: Seq<char>| replace(a, "%s"@, url@))
    } else {
        all
    };
    while i < args.len()
        invariant
            i <= args@.len(),
            all == views(args@),
            "%s"@.len() > 0,
            want == if marked {
                all.map_values(|a: Seq<char>| replace(a, "%s"@, url@))
            } else {
                all
            },
            views(r@) == want.take(i as int),
        decreases args@.len() - i,
    {
        let s = if marked {
            replaced(args[i].as_str(), "%s", url)
        } else {
            args[i].clone()
        };
        proof {
            lemma_views_push(r@, s);
        }
        r.push(s);
        i = i + 1;
        assert(views(r@) =~= want.take(i as int));
    }
    assert(views(r@) =~= want);
    if !marked {
        let s = url.to_owned();
        proof {
            lemma_views_push(r@, s);
        }
        r.push(s);
    }
    r
}

/// Builds the command line used to open `url`.
///
/// Honours `$BROWSER`, including the convention where `%s` marks where the URL
/// goes — some wrappers need it in the middle of their arguments. Falls back
/// to `xdg-open`, which every desktop portal on Linux implements.
pub fn launcher(browser: Option<&str>, url: &str) -> (r: (String, Vec<String>))
    ensures
        (r.0@, views(r.1@)) == launch(view_opt_str(browser), url@),
{
    let w: Vec<String> = match browser {
        Some(spec) => words_of(trimmed(spec).as_str()),
        None => Vec::new(),
    };
    let ghost all = match browser {
        Some(spec) => words(trim(spec@)),
        None => Seq::empty(),
    };
    assert(views(w@) =~= all);
    assert(all.len() == w@.len());
    if w.len() == 0 {
        let mut args: Vec<String> = Vec::new();
        args.push(url.to_owned());
        assert(views(args@) =~= seq![url@]);
        return ("xdg-open".to_owned(), args);
    }
    let mut rest: Vec<String> = Vec::new();
    let mut i: usize = 1;
    while i < w.len()
        invariant
            1 <= i <= w@.len(),
            all == views(w@),
            views(rest@) == all.subrange(1, i as int),
        decreases w@.len() - i,
    {
        let s = w[i].clone();
        proof {
            lemma_views_push(rest@, s);
        }
        rest.push(s);
        i = i + 1;
        assert(views(rest@) =~= all.subrange(1, i as int));
    }
    assert(views(rest@) =~= all.skip(1));
    assert(all[0] == w@[0]@);
    (w[0].clone(), place_url(&rest, url))
}

/// What to run to open `url`, where there is a session to open it into.
pub fn open(display: bool, browser: Option<&str>, url: &str) -> (r: Result<
    (String, Vec<String>),
    Notice,
>)
    ensures
        match r {
            Ok(p) => display && (p.0@, views(p.1@)) == launch(view_opt_str(browser), url@),
            Err(e) => !display && e@ == note(NoticeId::NoDisplay, seq![]),
        },
{
    if display {
        Ok(launcher(browser, url))
    } else {
        Err(Notice::plain(NoticeId::NoDisplay))
    }
}

/// Address a browser on this machine can actually reach.
///
/// Binding to `0.0.0.0` or `::` means "every interface", which is not a
/// destination: the browser gets sent to the loopback instead. `addr` is the
/// address with its port.
pub fn reachable_url(unspecified: bool, addr: &str, port: u16) -> (r: String)
    ensures
        r@ == if unspecified {
            "http://127.0.0.1:"@ + nat_text(port as nat)
        } else {
            "http://"@ + addr@
        },
{
    if unspecified {
        let mut s = "http://127.0.0.1:".to_owned();
        s.append(nat_string(port as u128).as_str());
        s
    } else {
        let mut s = "http://".to_owned();
        s.append(addr);
        s
    }
}

} // verus!
