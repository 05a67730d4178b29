//! sway's wire protocol: i3's IPC, plus sway's own extensions.
//!
//! A length-framed binary protocol:
//!
//! ```text
//! "i3-ipc" <length: u32> <type: u32> <payload: length bytes>
//! ```
//!
//! The integers are in the machine's own byte order, which is a parameter here.
//! An event is a reply whose type has its highest bit set.

use vstd::prelude::*;
use vstd::utf8::{decode_utf8, valid_utf8};

use crate::compositor::sway::keyword;
use crate::fixed::{Fixed, UNIT};
use crate::i18n::Locale;
use crate::input::{default_input, InputConfig, InputView};
use crate::ipc::{shortened, truncate};
use crate::json::{ascii_bytes, is_plain, json_list, json_list_of, plain_list};
use crate::monitor::{Monitor, Rotation, Transform};
use crate::notice::{note, Notice, NoticeId};
use crate::number::{int_string, int_text, ratio_string, ratio_text};
use crate::session::{CompositorEvent, EventView};
use crate::text::{
    join, joined, lemma_views_push, same, to_chars, trim, trimmed, view_opt, view_opt_str, views,
};

verus! {

/// The order in which the bytes of a word lie in memory.
#[derive(Debug, Clone, Copy, PartialEq, Eq, Structural)]
pub enum ByteOrder {
    Little,
    Big,
}

/// Message types we use. The numbering is i3's; 100 is sway's own.
#[derive(Debug, Clone, Copy, PartialEq, Eq, Structural)]
pub enum Message {
    RunCommand,
    Subscribe,
    GetOutputs,
    GetInputs,
}

/// Set on a reply's type to mark it an event rather than a command reply.
pub const EVENT_BIT: u32 = 0x8000_0000;

/// How many bytes stand before the payload.
pub const HEADER_LEN: usize = 14;

/// The bytes every message starts with.
pub open spec fn magic() -> Seq<u8> {
    seq![0x69, 0x33, 0x2d, 0x69, 0x70, 0x63]
}

/// The bytes every message starts with: `i3-ipc`.
pub fn magic_bytes() -> (r: Vec<u8>)
    ensures
        r@ == magic(),
{
    let mut r: Vec<u8> = Vec::new();
    r.push(0x69);
    r.push(0x33);
    r.push(0x2d);
    r.push(0x69);
    r.push(0x70);
    r.push(0x63);
    assert(r@ =~= magic());
    r
}

impl Message {
    pub open spec fn number(self) -> u32 {
        match self {
            Message::RunCommand => 0,
            Message::Subscribe => 2,
            Message::GetOutputs => 3,
            Message::GetInputs => 100,
        }
    }

    /// The code on the wire.
    pub fn code(self) -> (r: u32)
        ensures
            r == self.number(),
    {
        match self {
            Message::RunCommand => 0,
            Message::Subscribe => 2,
            Message::GetOutputs => 3,
            Message::GetInputs => 100,
        }
    }
}

/// A word as bytes.
pub open spec fn word_bytes(v: u32, order: ByteOrder) -> Seq<u8> {
    let a = (v % 256) as u8;
    let b = (v / 256 % 256) as u8;
    let c = (v / 65536 % 256) as u8;
    let d = (v / 16777216) as u8;
    match order {
        ByteOrder::Little => seq![a, b, c, d],
        ByteOrder::Big => seq![d, c, b, a],
    }
}

/// The word that four bytes make.
pub open spec fn word_value(b: Seq<u8>, order: ByteOrder) -> int {
    match order {
        ByteOrder::Little => b[0] + 256 * b[1] + 65536 * b[2] + 16777216 * b[3],
        ByteOrder::Big => b[3] + 256 * b[2] + 65536 * b[1] + 16777216 * b[0],
    }
}

/// A message as it goes over the wire.
pub open spec fn framed(message: Message, payload: Seq<u8>, order: ByteOrder) -> Seq<u8> {
    magic() + word_bytes(payload.len() as u32, order) + word_bytes(message.number(), order)
        + payload
}

/// Whether a reply's type marks an event.
pub open spec fn marks_event(kind: u32) -> bool {
    kind >= EVENT_BIT
}

/// What stands before a payload: its length and the message's type.
pub open spec fn header_of(header: Seq<u8>, order: ByteOrder) -> Option<(int, int)> {
    if header.take(6) == magic() {
        Some(
            (
                word_value(header.subrange(6, 10), order),
                word_value(header.subrange(10, 14), order),
            ),
        )
    } else {
        None
    }
}

/// A framed message is read back with its length, its type and its payload, and
/// no request is mistaken for an event.
pub proof fn frames_read_back(message: Message, payload: Seq<u8>, order: ByteOrder)
    requires
        payload.len() <= u32::MAX,
    ensures
        ({
            let frame = framed(message, payload, order);
            &&& frame.len() == HEADER_LEN + payload.len()
            &&& header_of(frame.take(HEADER_LEN as int), order) == Some(
                (payload.len() as int, message.number() as int),
            )
            &&& frame.skip(HEADER_LEN as int) == payload
        }),
        !marks_event(message.number()),
{
    let frame = framed(message, payload, order);
    let head = frame.take(14);
    assert(head.take(6) =~= magic());
    assert(head.subrange(6, 10) =~= word_bytes(payload.len() as u32, order));
    assert(head.subrange(10, 14) =~= word_bytes(message.number(), order));
    assert(frame.skip(14) =~= payload);
    lemma_word(payload.len() as u32, order);
    lemma_word(message.number(), order);
}

proof fn lemma_word(v: u32, order: ByteOrder)
    ensures
        word_value(word_bytes(v, order), order) == v,
{
}

fn push_word(out: &mut Vec<u8>, v: u32, order: ByteOrder)
    ensures
        final(out)@ == old(out)@ + word_bytes(v, order),
{
    let a: u8 = (v % 256) as u8;
    let b: u8 = (v / 256 % 256) as u8;
    let c: u8 = (v / 65536 % 256) as u8;
    let d: u8 = (v / 16777216) as u8;
    match order {
        ByteOrder::Little => {
            out.push(a);
            out.push(b);
            out.push(c);
            out.push(d);
        },
        ByteOrder::Big => {
            out.push(d);
            out.push(c);
            out.push(b);
            out.push(a);
        },
    }
    assert(out@ =~= old(out)@ + word_bytes(v, order));
}

/// The bytes that carry a message.
pub fn frame(message: Message, payload: &Vec<u8>, order: ByteOrder) -> (r: Vec<u8>)
    requires
        payload@.len() <= u32::MAX,
    ensures
        r@ == framed(message, payload@, order),
{
    let mut r = magic_bytes();
    push_word(&mut r, payload.len() as u32, order);
    push_word(&mut r, message.code(), order);
    r.extend_from_slice(payload.as_slice());
    assert(r@ =~= framed(message, payload@, order));
    r
}

fn read_word(b: &Vec<u8>, at: usize, order: ByteOrder) -> (r: u32)
    requires
        at + 4 <= b.len(),
    ensures
        r == word_value(b@.subrange(at as int, at + 4), order),
{
    let x: u32 = b[at] as u32;
    let y: u32 = b[at + 1] as u32;
    let z: u32 = b[at + 2] as u32;
    let w: u32 = b[at + 3] as u32;
    match order {
        ByteOrder::Little => x + 256 * y + 65536 * z + 16777216 * w,
        ByteOrder::Big => w + 256 * z + 65536 * y + 16777216 * x,
    }
}

/// Reads a frame's header: the payload's length and the message's type.
pub fn parse_header(header: &Vec<u8>, order: ByteOrder) -> (r: Result<(u32, u32), Notice>)
    requires
        header@.len() == HEADER_LEN,
    ensures
        match (r, header_of(header@, order)) {
            (Ok(a), Some(b)) => (a.0 as int, a.1 as int) == b,
            (Err(e), None) => e@ == note(NoticeId::SwayBadFrame, seq![]),
            _ => false,
        },
{
    let want = magic_bytes();
    let mut i: usize = 0;
    while i < 6
        invariant
            i <= 6,
            want@ == magic(),
            header@.len() == HEADER_LEN,
            forall|j: int| 0 <= j < i ==> header@[j] == magic()[j],
        decreases 6 - i,
    {
        if header[i] != want[i] {
            assert(header@.take(6)[i as int] != magic()[i as int]);
            return Err(Notice::plain(NoticeId::SwayBadFrame));
        }
        i = i + 1;
    }
    assert(header@.take(6) =~= magic());
    Ok((read_word(header, 6, order), read_word(header, 10, order)))
}

/// Events are skipped rather than mixed in with the replies: a stray event must
/// not be mistaken for the answer to the question just asked.
pub fn is_event(kind: u32) -> (r: bool)
    ensures
        r == marks_event(kind),
{
    kind >= EVENT_BIT
}

/// Where sway is listening: `SWAYSOCK` first, then `I3SOCK`, which sway also
/// sets for compatibility with i3 clients.
///
/// A session whose socket is not in the environment is not guessed at.
pub fn socket_path(swaysock: Option<&str>, i3sock: Option<&str>) -> (r: Result<String, Notice>)
    ensures
        match (r, view_opt_str(swaysock), view_opt_str(i3sock)) {
            (Ok(p), Some(a), _) => p@ == a,
            (Ok(p), None, Some(b)) => p@ == b,
            (Err(e), None, None) => e@ == note(NoticeId::SwayNotRunning, seq![]),
            _ => false,
        },
{
    match (swaysock, i3sock) {
        (Some(a), _) => Ok(a.to_owned()),
        (None, Some(b)) => Ok(b.to_owned()),
        (None, None) => Err(Notice::plain(NoticeId::SwayNotRunning)),
    }
}

// ---------------------------------------------------------------- commands

/// What became of one command.
#[derive(Debug, Clone)]
pub struct Outcome {
    pub success: bool,
    pub error: Option<String>,
    pub parse_error: Option<bool>,
}

/// sway's own sentence on a failure, or one for the failure without any.
pub open spec fn reason(o: Outcome, locale: Locale) -> Seq<char> {
    match o.error {
        Some(e) => e@,
        None => if o.parse_error == Some(true) {
            note(NoticeId::SwayParseError, seq![]).said(locale)
        } else {
            note(NoticeId::SwayUnknownError, seq![]).said(locale)
        },
    }
}

/// One line per command that failed.
pub open spec fn failures(outcomes: Seq<Outcome>, locale: Locale) -> Seq<Seq<char>>
    decreases outcomes.len(),
{
    if outcomes.len() == 0 {
        Seq::empty()
    } else {
        let before = failures(outcomes.drop_last(), locale);
        if outcomes.last().success {
            before
        } else {
            before.push("  • "@ + reason(outcomes.last(), locale))
        }
    }
}

/// A reply without a failed command has nothing to report, and one with a
/// failed command has.
pub proof fn failures_are_reported(outcomes: Seq<Outcome>, locale: Locale)
    ensures
        (failures(outcomes, locale).len() == 0) == (forall|i: int|
            0 <= i < outcomes.len() ==> (#[trigger] outcomes[i]).success),
    decreases outcomes.len(),
{
    if outcomes.len() > 0 {
        let body = outcomes.drop_last();
        failures_are_reported(body, locale);
        let last = outcomes.len() - 1;
        assert(outcomes[last] == outcomes.last());
        if failures(outcomes, locale).len() == 0 {
            assert forall|i: int| 0 <= i < outcomes.len() implies (#[trigger] outcomes[i]).success by {
                if i < last {
                    assert(body[i].success);
                }
            }
        } else if failures(body, locale).len() > 0 {
            let i = choose|i: int| 0 <= i < body.len() && !(#[trigger] body[i]).success;
            assert(!outcomes[i].success);
        }
    }
}

/// Fails if sway rejected any of the commands.
///
/// The reply is one object per parsed command. Reporting sway's own sentence
/// matters: "Unknown output DP-9" tells the user something, "command failed"
/// does not.
pub fn check_outcomes(outcomes: &Vec<Outcome>, command: &str, locale: Locale) -> (r: Result<
    (),
    Notice,
>)
    ensures
        match r {
            Ok(_) => failures(outcomes@, locale).len() == 0,
            Err(e) => failures(outcomes@, locale).len() > 0 && e@ == note(
                NoticeId::Rejected,
                seq![join(failures(outcomes@, locale), "\n"@), command@],
            ),
        },
{
    let mut lines: Vec<String> = Vec::new();
    let mut i: usize = 0;
    assert(views(lines@) =~= Seq::empty());
    while i < outcomes.len()
        invariant
            i <= outcomes@.len(),
            views(lines@) == failures(outcomes@.take(i as int), locale),
        decreases outcomes@.len() - i,
    {
        assert(outcomes@.take(i + 1).drop_last() =~= outcomes@.take(i as int));
        let o = &outcomes[i];
        if !o.success {
            let why = match &o.error {
                Some(e) => e.clone(),
                None => match o.parse_error {
                    Some(true) => Notice::plain(NoticeId::SwayParseError).text(locale),
                    _ => Notice::plain(NoticeId::SwayUnknownError).text(locale),
                },
            };
            let mut s = "  • ".to_owned();
            s.append(why.as_str());
            proof {
                lemma_views_push(lines@, s);
            }
            lines.push(s);
        }
        i = i + 1;
    }
    assert(outcomes@.take(outcomes@.len() as int) =~= outcomes@);
    assert(views(lines@).len() == lines@.len());
    if lines.len() == 0 {
        Ok(())
    } else {
        Err(Notice::two(NoticeId::Rejected, joined(&lines, "\n").as_str(), command))
    }
}

/// The payload that subscribes a connection to event types.
pub fn subscription(events: &Vec<String>) -> (r: Result<Vec<u8>, Notice>)
    ensures
        match (r, json_list_of(views(events@))) {
            (Ok(b), Some(c)) => b@ == c,
            (Err(e), None) => e@ == note(NoticeId::SwaySubscribeFailed, seq![]),
            _ => false,
        },
        (forall|i: int| 0 <= i < events@.len() ==> is_plain(#[trigger] events@[i]@)) ==> match r {
            Ok(b) => b@ == ascii_bytes(plain_list(views(events@))),
            Err(_) => false,
        },
{
    match json_list(events) {
        Ok(b) => Ok(b),
        Err(_) => Err(Notice::plain(NoticeId::SwaySubscribeFailed)),
    }
}

/// The text that bytes hold, with replacements for what is no UTF-8.
pub uninterp spec fn lossy_text_of(bytes: Seq<u8>) -> Seq<char>;

/// `String::from_utf8_lossy`: the text depends on the bytes alone, and bytes that
/// are UTF-8 give the text that they encode. What the others give is not stated
/// here.
#[verifier::external_body]
fn lossy_text(bytes: &[u8]) -> (r: String)
    ensures
        r@ == lossy_text_of(bytes@),
        valid_utf8(bytes@) ==> r@ == decode_utf8(bytes@),
{
    String::from_utf8_lossy(bytes).into_owned()
}

/// The error for a reply that makes no sense, with as much of it as can be
/// shown.
pub fn unexpected(body: &[u8]) -> (r: Notice)
    ensures
        r@ == note(NoticeId::UnexpectedResponse, seq![shortened(lossy_text_of(body@))]),
        valid_utf8(body@) ==> r@ == note(
            NoticeId::UnexpectedResponse,
            seq![shortened(decode_utf8(body@))],
        ),
{
    Notice::one(NoticeId::UnexpectedResponse, truncate(lossy_text(body).as_str()).as_str())
}

// ---------------------------------------------------------------- outputs

/// One output as `GET_OUTPUTS` reports it.
#[derive(Debug, Clone)]
pub struct SwayOutput {
    pub name: String,
    pub make: String,
    pub model: String,
    pub serial: String,
    pub active: bool,
    pub focused: bool,
    pub scale: Fixed,
    /// `"normal"`, `"90"`, `"flipped-180"`… Absent on an inactive output.
    pub transform: Option<String>,
    /// The logical position.
    pub x: i32,
    pub y: i32,
    pub modes: Vec<SwayMode>,
    pub current_mode: Option<SwayMode>,
    /// `"enabled"`, `"disabled"` or `"unknown"`.
    pub adaptive_sync_status: Option<String>,
}

#[derive(Debug, Clone, Copy, PartialEq, Eq, Structural)]
pub struct SwayMode {
    pub width: i32,
    pub height: i32,
    /// Millihertz: 60000 is 60 Hz.
    pub refresh: i32,
}

impl SwayMode {
    pub open spec fn rate(self) -> Fixed {
        Fixed { nanos: (self.refresh * 1_000_000) as i64 }
    }

    /// `1920x1080@60.056Hz`.
    pub open spec fn shown(self) -> Seq<char> {
        int_text(self.width as int) + "x"@ + int_text(self.height as int) + "@"@ + ratio_text(
            self.rate().nanos as int,
            UNIT as int,
            3,
        ) + "Hz"@
    }

    fn refresh_rate(self) -> (r: Fixed)
        ensures
            r == self.rate(),
    {
        Fixed { nanos: self.refresh as i64 * 1_000_000 }
    }

    fn text(self) -> (r: String)
        ensures
            r@ == self.shown(),
    {
        let mut s = int_string(self.width as i64);
        s.append("x");
        s.append(int_string(self.height as i64).as_str());
        s.append("@");
        s.append(ratio_string(self.refresh_rate().nanos, UNIT, 3).as_str());
        s.append("Hz");
        s
    }
}

/// The transform that one of sway's keywords stands for. An unknown one is read
/// as unrotated: sway may add one, and an unknown orientation is not fatal.
pub open spec fn transform_named(word: Option<Seq<char>>) -> Transform {
    match word {
        None => Transform::upright(),
        Some(w) => {
            let k = trim(w);
            let (flipped, rotation) = if k == "90"@ {
                (false, Rotation::R90)
            } else if k == "180"@ {
                (false, Rotation::R180)
            } else if k == "270"@ {
                (false, Rotation::R270)
            } else if k == "flipped"@ || k == "flipped-0"@ {
                (true, Rotation::R0)
            } else if k == "flipped-90"@ {
                (true, Rotation::R90)
            } else if k == "flipped-180"@ {
                (true, Rotation::R180)
            } else if k == "flipped-270"@ {
                (true, Rotation::R270)
            } else {
                (false, Rotation::R0)
            };
            Transform { rotation, flipped }
        },
    }
}

/// sway's transform keyword, back to the rotation-plus-flip pair.
pub fn parse_transform(keyword: Option<&str>) -> (r: Transform)
    ensures
        r == transform_named(view_opt_str(keyword)),
{
    match keyword {
        None => Transform::default(),
        Some(w) => {
            let k = trimmed(w);
            let s = k.as_str();
            let (flipped, rotation) = if same(s, "90") {
                (false, Rotation::R90)
            } else if same(s, "180") {
                (false, Rotation::R180)
            } else if same(s, "270") {
                (false, Rotation::R270)
            } else if same(s, "flipped") || same(s, "flipped-0") {
                (true, Rotation::R0)
            } else if same(s, "flipped-90") {
                (true, Rotation::R90)
            } else if same(s, "flipped-180") {
                (true, Rotation::R180)
            } else if same(s, "flipped-270") {
                (true, Rotation::R270)
            } else {
                (false, Rotation::R0)
            };
            Transform::new(rotation, flipped)
        },
    }
}

/// Every keyword that is written is read back as the transform it was written
/// for.
pub proof fn transform_keywords_round_trip(t: Transform)
    ensures
        transform_named(Some(keyword(t))) == t,
{
    reveal_strlit("normal");
    reveal_strlit("90");
    reveal_strlit("180");
    reveal_strlit("270");
    reveal_strlit("flipped");
    reveal_strlit("flipped-0");
    reveal_strlit("flipped-90");
    reveal_strlit("flipped-180");
    reveal_strlit("flipped-270");
    let k = keyword(t);
    assert(trim(k) == k) by {
        reveal_with_fuel(crate::text::trim_start, 2);
        reveal_with_fuel(crate::text::trim_end, 2);
    }
    assert("90"@.len() == 2);
    assert("180"@.len() == 3 && "180"@[0] == '1');
    assert("270"@.len() == 3 && "270"@[0] == '2');
    assert("normal"@.len() == 6);
    assert("flipped"@.len() == 7);
    assert("flipped-0"@.len() == 9);
    assert("flipped-90"@.len() == 10);
    assert("flipped-180"@.len() == 11 && "flipped-180"@[8] == '1');
    assert("flipped-270"@.len() == 11 && "flipped-270"@[8] == '2');
}

/// The mode that an output has: the current one, else the first it offers.
pub open spec fn mode_in_use(o: SwayOutput) -> Option<SwayMode> {
    match o.current_mode {
        Some(m) => Some(m),
        None => if o.modes@.len() > 0 {
            Some(o.modes@[0])
        } else {
            None
        },
    }
}

/// Whether a monitor is what an output maps onto, at a position in the reply.
pub open spec fn maps_onto(o: SwayOutput, index: int, m: Monitor) -> bool {
    let mode = mode_in_use(o);
    &&& m.id == index
    &&& m.name@ == o.name@
    &&& m.make@ == o.make@
    &&& m.model@ == o.model@
    &&& m.serial@ == o.serial@
    &&& m.description@ == trim(o.make@ + " "@ + o.model@)
    &&& m.x == o.x
    &&& m.y == o.y
    &&& m.width == (match mode {
        Some(s) => s.width,
        None => 0,
    })
    &&& m.height == (match mode {
        Some(s) => s.height,
        None => 0,
    })
    &&& m.refresh_rate == (match mode {
        Some(s) => s.rate(),
        None => Fixed { nanos: 0 },
    })
    &&& m.scale == (if o.scale.nanos > 0 {
        o.scale
    } else {
        Fixed::one()
    })
    &&& m.transform == transform_named(view_opt(o.transform)).code()
    &&& m.focused == o.focused
    &&& m.disabled == !o.active
    &&& m.mirror_of@ == "none"@
    &&& m.vrr == (view_opt(o.adaptive_sync_status) == Some("enabled"@))
    &&& views(m.available_modes@) == o.modes@.map_values(|s: SwayMode| s.shown())
}

fn mode_texts(modes: &Vec<SwayMode>) -> (r: Vec<String>)
    ensures
        views(r@) == modes@.map_values(|s: SwayMode| s.shown()),
{
    let ghost want = modes@.map_values(|s: SwayMode| s.shown());
    let mut r: Vec<String> = Vec::new();
    let mut i: usize = 0;
    while i < modes.len()
        invariant
            i <= modes@.len(),
            want == modes@.map_values(|s: SwayMode| s.shown()),
            views(r@) == want.take(i as int),
        decreases modes@.len() - i,
    {
        let s = modes[i].text();
        proof {
            lemma_views_push(r@, s);
        }
        r.push(s);
        i = i + 1;
        assert(views(r@) =~= want.take(i as int));
    }
    assert(views(r@) =~= want);
    r
}

fn to_monitor(o: &SwayOutput, index: i64) -> (r: Monitor)
    ensures
        maps_onto(*o, index as int, r),
{
    let mode = match o.current_mode {
        Some(m) => Some(m),
        None => if o.modes.len() > 0 {
            Some(o.modes[0])
        } else {
            None
        },
    };
    let mut description = o.make.clone();
    description.append(" ");
    description.append(o.model.as_str());
    let word = match &o.transform {
        Some(t) => Some(t.as_str()),
        None => None,
    };
    let vrr = match &o.adaptive_sync_status {
        Some(s) => same(s.as_str(), "enabled"),
        None => false,
    };
    let (width, height, refresh_rate) = match mode {
        Some(m) => (m.width, m.height, m.refresh_rate()),
        None => (0i32, 0i32, Fixed { nanos: 0 }),
    };
    Monitor {
        id: index,
        name: o.name.clone(),
        description: trimmed(description.as_str()),
        make: o.make.clone(),
        model: o.model.clone(),
        serial: o.serial.clone(),
        width,
        height,
        refresh_rate,
        x: o.x,
        y: o.y,
        scale: if o.scale.nanos > 0 {
            o.scale
        } else {
            Fixed { nanos: UNIT }
        },
        transform: parse_transform(word).to_u8(),
        focused: o.focused,
        disabled: !o.active,
        // sway has no mirroring at all.
        mirror_of: "none".to_owned(),
        vrr,
        available_modes: mode_texts(&o.modes),
    }
}

/// Maps sway's outputs onto the shared model.
///
/// sway gives outputs no numeric id; the index is stable within one reply and
/// nothing depends on it across replies.
pub fn to_monitors(outputs: &Vec<SwayOutput>) -> (r: Vec<Monitor>)
    requires
        outputs@.len() <= i64::MAX,
    ensures
        r@.len() == outputs@.len(),
        forall|i: int| 0 <= i < r@.len() ==> maps_onto(outputs@[i], i, #[trigger] r@[i]),
{
    let mut r: Vec<Monitor> = Vec::new();
    let mut i: usize = 0;
    while i < outputs.len()
        invariant
            i <= outputs@.len(),
            outputs@.len() <= i64::MAX,
            r@.len() == i,
            forall|k: int| 0 <= k < i ==> maps_onto(outputs@[k], k, #[trigger] r@[k]),
        decreases outputs@.len() - i,
    {
        r.push(to_monitor(&outputs[i], i as i64));
        i = i + 1;
    }
    r
}

// ---------------------------------------------------------------- input

/// One input device as `GET_INPUTS` reports it.
#[derive(Debug, Clone)]
pub struct SwayInput {
    pub kind: String,
    pub xkb_active_layout_name: Option<String>,
    /// `"enabled"` or `"disabled"`, where the device reports it.
    pub natural_scroll: Option<String>,
}

/// Whether a device of a class scrolls naturally.
pub open spec fn scrolls_naturally(devices: Seq<SwayInput>, kind: Seq<char>) -> bool {
    exists|i: int|
        0 <= i < devices.len() && (#[trigger] devices[i]).kind@ == kind && view_opt(
            devices[i].natural_scroll,
        ) == Some("enabled"@)
}

/// The layout name of the first keyboard.
pub open spec fn keyboard_name(devices: Seq<SwayInput>) -> Option<Seq<char>>
    decreases devices.len(),
{
    if devices.len() == 0 {
        None
    } else if devices[0].kind@ == "keyboard"@ {
        view_opt(devices[0].xkb_active_layout_name)
    } else {
        keyboard_name(devices.skip(1))
    }
}

/// A name that can be a layout's code: short, and lower-case letters alone.
pub open spec fn looks_like_a_code(name: Seq<char>) -> bool {
    name.len() <= 8 && forall|i: int| 0 <= i < name.len() ==> 'a' <= #[trigger] name[i] && name[i]
        <= 'z'
}

/// What the devices tell of the settings in force.
pub open spec fn devices_input(devices: Seq<SwayInput>) -> InputView {
    InputView {
        kb_layout: match keyboard_name(devices) {
            Some(name) => if looks_like_a_code(name) {
                name
            } else {
                default_input().kb_layout
            },
            None => default_input().kb_layout,
        },
        natural_scroll: scrolls_naturally(devices, "pointer"@),
        touchpad_natural_scroll: scrolls_naturally(devices, "touchpad"@),
        ..default_input()
    }
}

fn natural(devices: &Vec<SwayInput>, kind: &str) -> (r: bool)
    ensures
        r == scrolls_naturally(devices@, kind@),
{
    let mut i: usize = 0;
    while i < devices.len()
        invariant
            i <= devices@.len(),
            forall|j: int|
                0 <= j < i ==> !((#[trigger] devices@[j]).kind@ == kind@ && view_opt(
                    devices@[j].natural_scroll,
                ) == Some("enabled"@)),
        decreases devices@.len() - i,
    {
        let d = &devices[i];
        if same(d.kind.as_str(), kind) {
            if let Some(value) = &d.natural_scroll {
                if same(value.as_str(), "enabled") {
                    return true;
                }
            }
        }
        i = i + 1;
    }
    false
}

fn first_keyboard(devices: &Vec<SwayInput>) -> (r: Option<String>)
    ensures
        view_opt(r) == keyboard_name(devices@),
{
    let mut i: usize = 0;
    assert(devices@.skip(0) =~= devices@);
    while i < devices.len()
        invariant
            i <= devices@.len(),
            keyboard_name(devices@) == keyboard_name(devices@.skip(i as int)),
        decreases devices@.len() - i,
    {
        if same(devices[i].kind.as_str(), "keyboard") {
            return crate::text::copy_opt(&devices[i].xkb_active_layout_name);
        }
        assert(devices@.skip(i as int).skip(1) =~= devices@.skip(i + 1));
        i = i + 1;
    }
    None
}

/// Whether a layout's name happens to be its code. sway reports "French (alt.)",
/// never "fr": writing that into a configuration would have it rejected.
pub fn is_layout_code(name: &str) -> (r: bool)
    ensures
        r == looks_like_a_code(name@),
{
    let v = to_chars(name);
    if v.len() > 8 {
        return false;
    }
    let mut i: usize = 0;
    while i < v.len()
        invariant
            i <= v@.len(),
            v@ == name@,
            forall|j: int| 0 <= j < i ==> 'a' <= #[trigger] name@[j] && name@[j] <= 'z',
        decreases v@.len() - i,
    {
        if v[i] < 'a' || v[i] > 'z' {
            assert(!('a' <= name@[i as int] && name@[i as int] <= 'z'));
            return false;
        }
        i = i + 1;
    }
    true
}

/// Reads what the session is currently using.
///
/// Deliberately partial: the devices report the *active layout's human name*,
/// not the codes that were configured. What comes out here is the scroll
/// direction, which *is* reported, plus defaults for the keyboard.
pub fn read_input(devices: &Vec<SwayInput>) -> (r: InputConfig)
    ensures
        r@ == devices_input(devices@),
{
    let mut input = InputConfig::default();
    input.natural_scroll = natural(devices, "pointer");
    input.touchpad_natural_scroll = natural(devices, "touchpad");
    if let Some(name) = first_keyboard(devices) {
        if is_layout_code(name.as_str()) {
            input.kb_layout = name;
        }
    }
    input
}

// ---------------------------------------------------------------- events

/// Turns an `output` event into the shared form.
///
/// sway's payload says *something* about the outputs changed, never which one
/// or how. There is nothing to map onto an output that was added or removed, so
/// it becomes [`CompositorEvent::ConfigReloaded`]: the daemon reads the outputs
/// again and compares, which is the same conclusion by a different route.
pub fn parse_event(body: &[u8]) -> (r: CompositorEvent)
    ensures
        r@ == EventView::ConfigReloaded,
{
    CompositorEvent::ConfigReloaded
}

} // verus!
