//! Hyprland's wire protocol: where its sockets lie, which requests read its
//! settings, what its replies say and what its event stream carries.

use vstd::prelude::*;

use crate::input::{InputConfig, InputView};
use crate::ipc::{event_of, HyprEvent, HyprEventView};
use crate::json::{json_member, json_member_of, Member, MemberView};
use crate::notice::{note, Notice, NoticeId, NoticeView};
use crate::number::{nat_string, nat_text};
use crate::path::{join_path, path_join};
use crate::session::{CompositorEvent, EventView};
use crate::text::{replace, replaced, trim, trimmed, views};

verus! {

/// Where Hyprland's sockets lie.
#[derive(Debug, Clone)]
pub struct HyprSocket {
    pub dir: String,
}

impl HyprSocket {
    pub fn at(dir: String) -> (r: Self)
        ensures
            r.dir@ == dir@,
    {
        HyprSocket { dir }
    }

    /// One connection per command: write the command, read the response.
    pub fn request_socket(&self) -> (r: String)
        ensures
            r@ == path_join(self.dir@, ".socket.sock"@),
    {
        join_path(self.dir.as_str(), ".socket.sock")
    }

    /// Long-lived connection, one event per line.
    pub fn event_socket(&self) -> (r: String)
        ensures
            r@ == path_join(self.dir@, ".socket2.sock"@),
    {
        join_path(self.dir.as_str(), ".socket2.sock")
    }
}

/// The directory that holds the instances: under the runtime directory, or the
/// user's own where the environment names none.
pub open spec fn instances_dir(runtime: Option<Seq<char>>, uid: u32) -> Seq<char> {
    let base = match runtime {
        Some(dir) => dir,
        None => "/run/user/"@ + nat_text(uid as nat),
    };
    path_join(base, "hypr"@)
}

/// The directory that holds the instances.
pub fn instance_base(runtime: Option<&str>, uid: u32) -> (r: String)
    ensures
        r@ == instances_dir(crate::text::view_opt_str(runtime), uid),
{
    let base = match runtime {
        Some(dir) => dir.to_owned(),
        None => {
            let mut s = "/run/user/".to_owned();
            s.append(nat_string(uid as u128).as_str());
            s
        },
    };
    join_path(base.as_str(), "hypr")
}

/// What is known of the instances that may be running.
pub enum Instances {
    /// The environment names one; whether its directory exists.
    Signature(String, bool),
    /// The directory of the instances cannot be read.
    Unreadable,
    /// The instances that have a socket.
    Listed(Vec<String>),
}

/// The directory of the instance to talk to.
pub open spec fn located(base: Seq<char>, found: Instances) -> Result<Seq<char>, NoticeView> {
    match found {
        Instances::Signature(sig, present) => {
            let dir = path_join(base, sig@);
            if present {
                Ok(dir)
            } else {
                Err(note(NoticeId::StaleSignature, seq![sig@, dir]))
            }
        },
        Instances::Unreadable => Err(note(NoticeId::NotRunning, seq![base])),
        Instances::Listed(list) => if list@.len() == 0 {
            Err(note(NoticeId::NoInstance, seq![base]))
        } else if list@.len() == 1 {
            Ok(list@[0]@)
        } else {
            Err(note(NoticeId::ManyInstances, seq![nat_text(list@.len()), base]))
        },
    }
}

/// Locates the current Hyprland instance directory.
///
/// Outside a Hyprland session (systemd --user, for instance): if there is
/// only one instance, it is used.
pub fn instance_dir(base: &str, found: &Instances) -> (r: Result<String, Notice>)
    ensures
        match (r, located(base@, *found)) {
            (Ok(a), Ok(b)) => a@ == b,
            (Err(a), Err(b)) => a@ == b,
            _ => false,
        },
{
    match found {
        Instances::Signature(sig, present) => {
            let dir = join_path(base, sig.as_str());
            if *present {
                Ok(dir)
            } else {
                Err(Notice::two(NoticeId::StaleSignature, sig.as_str(), dir.as_str()))
            }
        },
        Instances::Unreadable => Err(Notice::one(NoticeId::NotRunning, base)),
        Instances::Listed(list) => {
            if list.len() == 0 {
                Err(Notice::one(NoticeId::NoInstance, base))
            } else if list.len() == 1 {
                Ok(list[0].clone())
            } else {
                Err(
                    Notice::two(
                        NoticeId::ManyInstances,
                        nat_string(list.len() as u128).as_str(),
                        base,
                    ),
                )
            }
        },
    }
}

/// Parses a line of the event stream, shaped like `EVENT>>DATA`.
pub fn parse_event(line: &str) -> (r: Option<CompositorEvent>)
    ensures
        match (r, event_of(line@)) {
            (Some(a), Some(b)) => a@ == shared_event(b),
            (None, None) => true,
            _ => false,
        },
{
    match HyprEvent::parse(line) {
        None => None,
        Some(HyprEvent::MonitorAdded(s)) => Some(CompositorEvent::OutputAdded(s)),
        Some(HyprEvent::MonitorRemoved(s)) => Some(CompositorEvent::OutputRemoved(s)),
        Some(HyprEvent::ConfigReloaded) => Some(CompositorEvent::ConfigReloaded),
        Some(HyprEvent::Other(s)) => Some(CompositorEvent::Other(s)),
    }
}

/// A Hyprland event in the form that all compositors share.
pub open spec fn shared_event(e: HyprEventView) -> EventView {
    match e {
        HyprEventView::MonitorAdded(s) => EventView::OutputAdded(s),
        HyprEventView::MonitorRemoved(s) => EventView::OutputRemoved(s),
        HyprEventView::ConfigReloaded => EventView::ConfigReloaded,
        HyprEventView::Other(s) => EventView::Other(s),
    }
}

/// Whether a request is worth sending at all.
pub fn is_request(request: &str) -> (r: bool)
    ensures
        r == (trim(request@).len() > 0),
{
    trimmed(request).as_str().unicode_len() > 0
}

/// The request that reads an option.
pub fn getoption(option: &str) -> (r: String)
    ensures
        r@ == "j/getoption "@ + option@,
{
    let mut s = "j/getoption ".to_owned();
    s.append(option);
    s
}

/// The text that a string option has. An unset one is reported as the literal
/// `[[EMPTY]]`, which is not something to show in a text field.
pub open spec fn option_string(str_member: MemberView) -> Seq<char> {
    match str_member {
        MemberView::Text(s) => replace(s, "[[EMPTY]]"@, Seq::empty()),
        _ => Seq::empty(),
    }
}

/// The value that a boolean option has: reported as a boolean, or as a number
/// by older versions.
pub open spec fn option_bool(bool_member: MemberView, int_member: MemberView) -> bool {
    match bool_member {
        MemberView::Flag(b) => b,
        _ => match int_member {
            MemberView::Integer(i) => i != 0,
            _ => false,
        },
    }
}

/// The text of a string option.
pub fn string_option(member: &Member) -> (r: String)
    ensures
        r@ == option_string(member@),
{
    match member {
        Member::Text(s) => {
            proof {
                reveal_strlit("[[EMPTY]]");
                reveal_strlit("");
                assert(""@ =~= Seq::empty());
            }
            replaced(s.as_str(), "[[EMPTY]]", "")
        },
        _ => {
            let s = String::new();
            assert(s@ =~= Seq::empty());
            s
        },
    }
}

/// The value of a boolean option.
pub fn bool_option(bool_member: &Member, int_member: &Member) -> (r: bool)
    ensures
        r == option_bool(bool_member@, int_member@),
{
    match bool_member {
        Member::Flag(b) => *b,
        _ => match int_member {
            Member::Integer(i) => *i != 0,
            _ => false,
        },
    }
}

/// Reads a string option out of a `getoption` reply.
pub fn get_string(raw: &str, option: &str) -> (r: Result<String, Notice>)
    ensures
        match (r, json_member_of(raw@, "str"@)) {
            (Ok(s), Some(m)) => s@ == option_string(m),
            (Err(e), None) => e@ == note(NoticeId::UnreadableOption, seq![option@]),
            _ => false,
        },
{
    match json_member(raw, "str") {
        Ok(m) => Ok(string_option(&m)),
        Err(_) => Err(Notice::one(NoticeId::UnreadableOption, option)),
    }
}

/// Reads a boolean option out of a `getoption` reply.
pub fn get_bool(raw: &str, option: &str) -> (r: Result<bool, Notice>)
    ensures
        match (r, json_member_of(raw@, "bool"@), json_member_of(raw@, "int"@)) {
            (Ok(b), Some(m), Some(n)) => b == option_bool(m, n),
            (Err(e), m, n) => (m is None || n is None) && e@ == note(
                NoticeId::UnreadableOption,
                seq![option@],
            ),
            _ => false,
        },
{
    match (json_member(raw, "bool"), json_member(raw, "int")) {
        (Ok(m), Ok(n)) => Ok(bool_option(&m, &n)),
        _ => Err(Notice::one(NoticeId::UnreadableOption, option)),
    }
}

/// The options that hold the keyboard and pointer settings, in the order in
/// which their replies are read.
pub open spec fn input_option_names() -> Seq<Seq<char>> {
    seq![
        "input:kb_layout"@,
        "input:kb_variant"@,
        "input:kb_options"@,
        "input:natural_scroll"@,
        "input:touchpad:natural_scroll"@,
    ]
}

pub fn input_options() -> (r: Vec<String>)
    ensures
        views(r@) == input_option_names(),
{
    let mut r: Vec<String> = Vec::new();
    r.push("input:kb_layout".to_owned());
    r.push("input:kb_variant".to_owned());
    r.push("input:kb_options".to_owned());
    r.push("input:natural_scroll".to_owned());
    r.push("input:touchpad:natural_scroll".to_owned());
    assert(views(r@) =~= input_option_names());
    r
}

/// The settings that the replies report, taken as the members of their JSON;
/// the first reply that is none is an error.
pub open spec fn reported_input(replies: Seq<Seq<char>>) -> Result<InputView, NoticeView> {
    let names = input_option_names();
    match (
        json_member_of(replies[0], "str"@),
        json_member_of(replies[1], "str"@),
        json_member_of(replies[2], "str"@),
        json_member_of(replies[3], "bool"@),
        json_member_of(replies[3], "int"@),
        json_member_of(replies[4], "bool"@),
        json_member_of(replies[4], "int"@),
    ) {
        (Some(a), Some(b), Some(c), Some(d), Some(e), Some(f), Some(g)) => Ok(
            InputView {
                kb_layout: option_string(a),
                kb_variant: option_string(b),
                kb_options: option_string(c),
                natural_scroll: option_bool(d, e),
                touchpad_natural_scroll: option_bool(f, g),
            },
        ),
        (a, b, c, d, e, _, _) => Err(
            note(
                NoticeId::UnreadableOption,
                seq![
                    names[if a is None {
                        0
                    } else if b is None {
                        1
                    } else if c is None {
                        2
                    } else if d is None || e is None {
                        3
                    } else {
                        4
                    }],
                ],
            ),
        ),
    }
}

/// The keyboard and pointer settings Hyprland currently reports.
///
/// The live state is the source of truth: the user may well have set `kb_layout`
/// by hand long before, and the UI must show that rather than a default.
pub fn read_input(replies: &Vec<String>) -> (r: Result<InputConfig, Notice>)
    requires
        replies@.len() == 5,
    ensures
        match (r, reported_input(views(replies@))) {
            (Ok(a), Ok(b)) => a@ == b,
            (Err(a), Err(b)) => a@ == b,
            _ => false,
        },
{
    assert(forall|i: int| 0 <= i < 5 ==> views(replies@)[i] == replies@[i]@);
    let kb_layout = match get_string(replies[0].as_str(), "input:kb_layout") {
        Ok(s) => s,
        Err(e) => {
            return Err(e);
        },
    };
    let kb_variant = match get_string(replies[1].as_str(), "input:kb_variant") {
        Ok(s) => s,
        Err(e) => {
            return Err(e);
        },
    };
    let kb_options = match get_string(replies[2].as_str(), "input:kb_options") {
        Ok(s) => s,
        Err(e) => {
            return Err(e);
        },
    };
    let natural_scroll = match get_bool(replies[3].as_str(), "input:natural_scroll") {
        Ok(b) => b,
        Err(e) => {
            return Err(e);
        },
    };
    let touchpad_natural_scroll = match get_bool(
        replies[4].as_str(),
        "input:touchpad:natural_scroll",
    ) {
        Ok(b) => b,
        Err(e) => {
            return Err(e);
        },
    };
    Ok(
        InputConfig {
            kb_layout,
            kb_variant,
            kb_options,
            natural_scroll,
            touchpad_natural_scroll,
        },
    )
}

} // verus!
