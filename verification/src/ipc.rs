//! Hyprland's requests, replies and events as text.

use vstd::prelude::*;

use crate::notice::{note, Notice, NoticeId};
use crate::text::{
    halves, join, joined, lines, lines_of, pieces, same, slice_string, split, split_once, to_chars,
    trim, trimmed, view_opt, views,
};

verus! {

/// A line that says nothing but that all is well.
pub open spec fn is_quiet(line: Seq<char>) -> bool {
    trim(line) == Seq::<char>::empty() || trim(line) == "ok"@
}

/// Whether a reply accepts everything that was asked.
pub open spec fn accepted(reply: Seq<char>) -> bool {
    let ls = lines(trim(reply));
    forall|i: int| 0 <= i < ls.len() ==> is_quiet(#[trigger] ls[i])
}

/// Hyprland replies `ok` for every accepted command; anything else is an
/// error message that must be surfaced to the user as-is.
pub fn check_ok(reply: &str, cmds: &Vec<String>) -> (r: Result<(), Notice>)
    ensures
        match r {
            Ok(_) => accepted(reply@),
            Err(e) => !accepted(reply@) && e@ == note(
                NoticeId::Rejected,
                seq![trim(reply@), join(views(cmds@), "\n  "@)],
            ),
        },
{
    let text = trimmed(reply);
    let ls = lines_of(text.as_str());
    let ghost all = lines(trim(reply@));
    let mut i: usize = 0;
    assert(all.len() == ls@.len());
    while i < ls.len()
        invariant
            i <= ls@.len(),
            all == views(ls@),
            all == lines(trim(reply@)),
            text@ == trim(reply@),
            forall|j: int| 0 <= j < i ==> is_quiet(#[trigger] all[j]),
        decreases ls@.len() - i,
    {
        let line = trimmed(ls[i].as_str());
        assert(all[i as int] == ls@[i as int]@);
        if line.as_str().unicode_len() == 0 {
            assert(line@ =~= Seq::empty());
        } else if !same(line.as_str(), "ok") {
            assert(!is_quiet(all[i as int]));
            return Err(
                Notice::two(NoticeId::Rejected, text.as_str(), joined(cmds, "\n  ").as_str()),
            );
        }
        i = i + 1;
    }
    Ok(())
}

/// How many bytes a character takes in UTF-8.
pub open spec fn utf8_len(c: char) -> nat {
    let n = c as u32;
    if n < 0x80 {
        1
    } else if n < 0x800 {
        2
    } else if n < 0x1_0000 {
        3
    } else {
        4
    }
}

/// How many of the characters from `i` on fit into `room` bytes.
pub open spec fn fitting(s: Seq<char>, i: int, room: int) -> int
    decreases s.len() - i,
{
    if 0 <= i < s.len() && utf8_len(s[i]) <= room {
        1 + fitting(s, i + 1, room - utf8_len(s[i]))
    } else {
        0
    }
}

/// A text cut after two hundred bytes, without cutting a character.
pub open spec fn shortened(text: Seq<char>) -> Seq<char> {
    let s = trim(text);
    let n = fitting(s, 0, 200);
    if n == s.len() {
        s
    } else {
        s.take(n) + "…"@
    }
}

/// As much of a response as an error message can show.
pub fn truncate(text: &str) -> (r: String)
    ensures
        r@ == shortened(text@),
{
    let s = trimmed(text);
    let v = to_chars(s.as_str());
    let mut i: usize = 0;
    let mut room: u32 = 200;
    while i < v.len()
        invariant
            i <= v@.len(),
            v@ == s@,
            s@ == trim(text@),
            i + fitting(v@, i as int, room as int) == fitting(v@, 0, 200),
        decreases v@.len() - i,
    {
        let n: u32 = v[i] as u32;
        let width: u32 = if n < 0x80 {
            1
        } else if n < 0x800 {
            2
        } else if n < 0x1_0000 {
            3
        } else {
            4
        };
        if width > room {
            let mut cut = slice_string(&v, 0, i);
            assert(cut@ =~= s@.take(i as int));
            cut.append("…");
            return cut;
        }
        room = room - width;
        i = i + 1;
    }
    s
}

/// The request that applies several commands in one transaction.
///
/// Beware: Hyprland splits a batch on `;`, so this is only usable for
/// commands that cannot contain one — Lua code notably cannot go through here.
pub fn batch(cmds: &Vec<String>) -> (r: Option<String>)
    ensures
        view_opt(r) == if cmds@.len() == 0 {
            None
        } else {
            Some("[[BATCH]]"@ + join(views(cmds@), ";"@))
        },
{
    if cmds.len() == 0 {
        return None;
    }
    let mut s = "[[BATCH]]".to_owned();
    s.append(joined(cmds, ";").as_str());
    Some(s)
}

/// The request that runs one Lua statement.
pub fn eval(lua: &str) -> (r: String)
    ensures
        r@ == "/eval "@ + lua@,
{
    let mut s = "/eval ".to_owned();
    s.append(lua);
    s
}

/// Events of the event stream.
#[derive(Debug, Clone, PartialEq, Eq)]
pub enum HyprEvent {
    /// An output appeared (connector name).
    MonitorAdded(String),
    /// An output disappeared (connector name).
    MonitorRemoved(String),
    /// The configuration was reloaded: the state may have changed under us.
    ConfigReloaded,
    /// Everything else, kept for verbose logging.
    Other(String),
}

pub ghost enum HyprEventView {
    MonitorAdded(Seq<char>),
    MonitorRemoved(Seq<char>),
    ConfigReloaded,
    Other(Seq<char>),
}

impl View for HyprEvent {
    type V = HyprEventView;

    open spec fn view(&self) -> HyprEventView {
        match *self {
            HyprEvent::MonitorAdded(s) => HyprEventView::MonitorAdded(s@),
            HyprEvent::MonitorRemoved(s) => HyprEventView::MonitorRemoved(s@),
            HyprEvent::ConfigReloaded => HyprEventView::ConfigReloaded,
            HyprEvent::Other(s) => HyprEventView::Other(s@),
        }
    }
}

/// The name in `ID,NAME,DESCRIPTION`.
pub open spec fn second_field(data: Seq<char>) -> Seq<char> {
    let parts = split(data, ","@);
    if parts.len() > 1 {
        parts[1]
    } else {
        Seq::empty()
    }
}

/// What a line shaped like `EVENT>>DATA` says.
pub open spec fn event_of(line: Seq<char>) -> Option<HyprEventView> {
    match split_once(line, ">>"@) {
        None => None,
        Some((event, data)) => Some(
            if event == "monitoraddedv2"@ {
                HyprEventView::MonitorAdded(second_field(data))
            } else if event == "monitoradded"@ {
                HyprEventView::MonitorAdded(data)
            } else if event == "monitorremovedv2"@ {
                HyprEventView::MonitorRemoved(second_field(data))
            } else if event == "monitorremoved"@ {
                HyprEventView::MonitorRemoved(data)
            } else if event == "configreloaded"@ {
                HyprEventView::ConfigReloaded
            } else {
                HyprEventView::Other(line)
            },
        ),
    }
}

fn second(data: &str) -> (r: String)
    ensures
        r@ == second_field(data@),
{
    proof {
        reveal_strlit(",");
    }
    let parts = pieces(data, ",");
    assert(views(parts@).len() == parts@.len());
    if parts.len() > 1 {
        assert(views(parts@)[1] == parts@[1]@);
        parts[1].clone()
    } else {
        let s = String::new();
        assert(s@ =~= Seq::empty());
        s
    }
}

impl HyprEvent {
    /// Parses a line shaped like `EVENT>>DATA`.
    pub fn parse(line: &str) -> (r: Option<Self>)
        ensures
            match (r, event_of(line@)) {
                (Some(a), Some(b)) => a@ == b,
                (None, None) => true,
                _ => false,
            },
    {
        match halves(line, ">>") {
            None => None,
            Some((event, data)) => {
                let e = event.as_str();
                Some(
                    if same(e, "monitoraddedv2") {
                        HyprEvent::MonitorAdded(second(data.as_str()))
                    } else if same(e, "monitoradded") {
                        HyprEvent::MonitorAdded(data)
                    } else if same(e, "monitorremovedv2") {
                        HyprEvent::MonitorRemoved(second(data.as_str()))
                    } else if same(e, "monitorremoved") {
                        HyprEvent::MonitorRemoved(data)
                    } else if same(e, "configreloaded") {
                        HyprEvent::ConfigReloaded
                    } else {
                        HyprEvent::Other(line.to_owned())
                    },
                )
            },
        }
    }

    /// An event that should trigger a profile re-evaluation.
    pub fn affects_monitors(&self) -> (r: bool)
        ensures
            r == (self@ is MonitorAdded || self@ is MonitorRemoved),
    {
        match self {
            HyprEvent::MonitorAdded(_) => true,
            HyprEvent::MonitorRemoved(_) => true,
            _ => false,
        }
    }
}

} // verus!
