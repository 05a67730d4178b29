//! What a compositor tells is taken as it was told: events, settings and frames.

use vstd::prelude::*;

use crate::compositor::hyprland::ipc::{
    input_option_names, option_bool, option_string, reported_input, shared_event,
};
use crate::compositor::sway::ipc::{
    devices_input, failures, framed, keyboard_name, looks_like_a_code, magic, marks_event, ByteOrder,
    Message, Outcome, SwayInput,
};
use crate::i18n::Locale;
use crate::ipc::{accepted, event_of, is_quiet, second_field, HyprEventView};
use crate::json::{json_member_of, MemberView};
use crate::notice::{note, NoticeId};
use crate::session::EventView;
use crate::text::{find, lemma_find_first, lines, occurs_at, split, split_once, trim, view_opt};

verus! {

// ---------------------------------------------------------------- Hyprland

/// A text without a given character.
spec fn lacks(s: Seq<char>, c: char) -> bool {
    forall|i: int| 0 <= i < s.len() ==> #[trigger] s[i] != c
}

proof fn lemma_split_once(head: Seq<char>, mark: Seq<char>, tail: Seq<char>)
    requires
        mark.len() > 0,
        lacks(head, mark[0]),
    ensures
        split_once(head + mark + tail, mark) == Some((head, tail)),
        find(head + mark + tail, mark) == Some(head.len() as int),
{
    let s = head + mark + tail;
    let n = head.len() as int;
    assert(s.subrange(n, n + mark.len()) =~= mark);
    assert(occurs_at(s, mark, n));
    assert forall|k: int| 0 <= k < n implies !occurs_at(s, mark, k) by {
        assert(s[k] == head[k]);
        if occurs_at(s, mark, k) {
            assert(s.subrange(k, k + mark.len())[0] == s[k]);
        }
    }
    lemma_find_first(s, mark, n);
    assert(s.take(n) =~= head);
    assert(s.skip(n + mark.len()) =~= tail);
}

proof fn lemma_event_words()
    ensures
        ">>"@.len() == 2 && ">>"@[0] == '>',
        ","@ == seq![','],
        "monitoradded"@.len() == 12 && "monitoraddedv2"@.len() == 14,
        "monitorremoved"@.len() == 14 && "monitorremovedv2"@.len() == 16,
        "monitoraddedv2"@[7] == 'a' && "monitorremoved"@[7] == 'r',
        "configreloaded"@.len() == 14 && "configreloaded"@[0] == 'c',
        "monitoraddedv2"@[0] == 'm' && "monitorremoved"@[0] == 'm',
        lacks("monitoradded"@, '>'),
        lacks("monitoraddedv2"@, '>'),
        lacks("monitorremoved"@, '>'),
        lacks("monitorremovedv2"@, '>'),
        lacks("configreloaded"@, '>'),
{
    reveal_strlit(">>");
    reveal_strlit(",");
    reveal_strlit("monitoradded");
    reveal_strlit("monitoraddedv2");
    reveal_strlit("monitorremoved");
    reveal_strlit("monitorremovedv2");
    reveal_strlit("configreloaded");
    assert(","@ =~= seq![',']);
}

/// An event that names an output is about that output, for every name: the plain
/// forms have the name alone, the second ones between an id and a description.
pub proof fn events_name_their_output(name: Seq<char>, id: Seq<char>, description: Seq<char>)
    requires
        lacks_comma(id),
        lacks_comma(name),
    ensures
        event_of("monitoradded"@ + ">>"@ + name) == Some(HyprEventView::MonitorAdded(name)),
        event_of("monitorremoved"@ + ">>"@ + name) == Some(HyprEventView::MonitorRemoved(name)),
        event_of("monitoraddedv2"@ + ">>"@ + (id + ","@ + (name + ","@ + description))) == Some(
            HyprEventView::MonitorAdded(name),
        ),
        event_of("monitorremovedv2"@ + ">>"@ + (id + ","@ + (name + ","@ + description))) == Some(
            HyprEventView::MonitorRemoved(name),
        ),
        event_of("configreloaded"@ + ">>"@ + description) == Some(HyprEventView::ConfigReloaded),
        shared_event(HyprEventView::MonitorAdded(name)) == EventView::OutputAdded(name),
        shared_event(HyprEventView::MonitorRemoved(name)) == EventView::OutputRemoved(name),
        EventView::OutputAdded(name).moves_outputs(),
        EventView::OutputRemoved(name).moves_outputs(),
        !EventView::ConfigReloaded.moves_outputs(),
        !EventView::Other(name).moves_outputs(),
{
    lemma_event_words();
    let rest = name + ","@ + description;
    let data = id + ","@ + rest;
    lemma_split_once("monitoradded"@, ">>"@, name);
    lemma_split_once("monitorremoved"@, ">>"@, name);
    lemma_split_once("monitoraddedv2"@, ">>"@, data);
    lemma_split_once("monitorremovedv2"@, ">>"@, data);
    lemma_split_once("configreloaded"@, ">>"@, description);
    lemma_split_once(id, ","@, rest);
    lemma_split_once(name, ","@, description);
    assert(data.take(id.len() as int) =~= id);
    assert(data.skip(id.len() as int + 1) =~= rest);
    assert(rest.take(name.len() as int) =~= name);
    assert(split(data, ","@) == seq![id] + split(rest, ","@));
    assert(split(rest, ","@)[0] == name);
    assert(split(data, ","@)[1] == name);
    assert(second_field(data) == name);
}

pub open spec fn lacks_comma(s: Seq<char>) -> bool {
    forall|i: int| 0 <= i < s.len() ==> #[trigger] s[i] != ','
}

/// Every setting is read from the reply to its own option: the five replies are
/// those to the layout, the variant, the options, the scroll direction and the
/// touchpad's, in that order.
pub proof fn settings_are_read_from_their_own_reply(
    replies: Seq<Seq<char>>,
    layout: Seq<char>,
    variant: Seq<char>,
    options: Seq<char>,
    scroll: bool,
    touchpad: bool,
)
    requires
        replies.len() == 5,
        json_member_of(replies[0], "str"@) == Some(MemberView::Text(layout)),
        json_member_of(replies[1], "str"@) == Some(MemberView::Text(variant)),
        json_member_of(replies[2], "str"@) == Some(MemberView::Text(options)),
        json_member_of(replies[3], "bool"@) == Some(MemberView::Flag(scroll)),
        json_member_of(replies[3], "int"@) is Some,
        json_member_of(replies[4], "bool"@) == Some(MemberView::Flag(touchpad)),
        json_member_of(replies[4], "int"@) is Some,
        find(layout, "[[EMPTY]]"@) is None,
        find(variant, "[[EMPTY]]"@) is None,
        find(options, "[[EMPTY]]"@) is None,
    ensures
        input_option_names().len() == 5,
        input_option_names()[0] == "input:kb_layout"@,
        input_option_names()[1] == "input:kb_variant"@,
        input_option_names()[2] == "input:kb_options"@,
        input_option_names()[3] == "input:natural_scroll"@,
        input_option_names()[4] == "input:touchpad:natural_scroll"@,
        reported_input(replies) is Ok,
        reported_input(replies)->Ok_0.kb_layout == layout,
        reported_input(replies)->Ok_0.kb_variant == variant,
        reported_input(replies)->Ok_0.kb_options == options,
        reported_input(replies)->Ok_0.natural_scroll == scroll,
        reported_input(replies)->Ok_0.touchpad_natural_scroll == touchpad,
{
    assert("[[EMPTY]]"@.len() > 0) by {
        reveal_strlit("[[EMPTY]]");
    }
    reveal_with_fuel(crate::text::join, 2);
    assert(split(layout, "[[EMPTY]]"@) =~= seq![layout]);
    assert(split(variant, "[[EMPTY]]"@) =~= seq![variant]);
    assert(split(options, "[[EMPTY]]"@) =~= seq![options]);
}

/// A flag that is reported as a number is set by every number but zero, and one
/// that is not reported at all is not set.
pub proof fn flags_are_read_from_numbers_too(n: int)
    ensures
        option_bool(MemberView::Missing, MemberView::Integer(n)) == (n != 0),
        !option_bool(MemberView::Missing, MemberView::Missing),
        option_string(MemberView::Missing).len() == 0,
{
}

/// A reply is accepted exactly when every line of it is blank or `ok`.
pub proof fn replies_are_accepted_line_by_line(reply: Seq<char>)
    ensures
        accepted(reply) == forall|i: int|
            0 <= i < lines(trim(reply)).len() ==> {
                let line = trim(#[trigger] lines(trim(reply))[i]);
                line.len() == 0 || line == "ok"@
            },
{
    let ls = lines(trim(reply));
    if accepted(reply) {
        assert forall|i: int| 0 <= i < ls.len() implies ({
            let line = trim(#[trigger] ls[i]);
            line.len() == 0 || line == "ok"@
        }) by {
            assert(is_quiet(ls[i]));
        }
    } else {
        let i = choose|i: int| 0 <= i < ls.len() && !is_quiet(#[trigger] ls[i]);
        let line = trim(ls[i]);
        if line.len() == 0 {
            assert(line =~= Seq::empty());
        }
    }
}

// ---------------------------------------------------------------- sway

/// Each scroll direction is that of its own class of device, and a layout's code
/// is taken from the first keyboard; what cannot be told is left at the defaults.
pub proof fn devices_tell_their_own_settings(devices: Seq<SwayInput>, k: int)
    ensures
        ({
            let i = devices_input(devices);
            &&& i.natural_scroll == exists|d: int|
                0 <= d < devices.len() && (#[trigger] devices[d]).kind@ == "pointer"@ && view_opt(
                    devices[d].natural_scroll,
                ) == Some("enabled"@)
            &&& i.touchpad_natural_scroll == exists|d: int|
                0 <= d < devices.len() && (#[trigger] devices[d]).kind@ == "touchpad"@ && view_opt(
                    devices[d].natural_scroll,
                ) == Some("enabled"@)
            &&& i.kb_variant.len() == 0
            &&& i.kb_options.len() == 0
            &&& 0 <= k < devices.len() && devices[k].kind@ == "keyboard"@ && (forall|j: int|
                0 <= j < k ==> (#[trigger] devices[j]).kind@ != "keyboard"@) ==> match view_opt(
                devices[k].xkb_active_layout_name,
            ) {
                Some(name) => if looks_like_a_code(name) {
                    i.kb_layout == name
                } else {
                    i.kb_layout == "us"@
                },
                None => i.kb_layout == "us"@,
            }
        }),
{
    if 0 <= k < devices.len() && devices[k].kind@ == "keyboard"@ && (forall|j: int|
        0 <= j < k ==> (#[trigger] devices[j]).kind@ != "keyboard"@) {
        lemma_first_keyboard(devices, k);
    }
}

proof fn lemma_first_keyboard(devices: Seq<SwayInput>, k: int)
    requires
        0 <= k < devices.len(),
        devices[k].kind@ == "keyboard"@,
        forall|j: int| 0 <= j < k ==> (#[trigger] devices[j]).kind@ != "keyboard"@,
    ensures
        keyboard_name(devices) == view_opt(devices[k].xkb_active_layout_name),
    decreases k,
{
    if k > 0 {
        let rest = devices.skip(1);
        assert(devices[0].kind@ != "keyboard"@);
        assert forall|j: int| 0 <= j < k - 1 implies (#[trigger] rest[j]).kind@ != "keyboard"@ by {
            assert(rest[j] == devices[j + 1]);
        }
        lemma_first_keyboard(rest, k - 1);
    }
}

/// A frame starts with the six bytes of `i3-ipc`; behind them stand the payload's
/// length and the message's number, each as four bytes, the least first or last as
/// the machine has it.
pub proof fn frames_hold_length_and_number(message: Message, payload: Seq<u8>)
    requires
        payload.len() < 256,
    ensures
        ({
            let little = framed(message, payload, ByteOrder::Little);
            let big = framed(message, payload, ByteOrder::Big);
            &&& little.take(6) == big.take(6)
            &&& little.take(6) == seq![0x69u8, 0x33, 0x2d, 0x69, 0x70, 0x63]
            &&& little[6] == payload.len() && little[7] == 0 && little[8] == 0 && little[9] == 0
            &&& big[9] == payload.len() && big[8] == 0 && big[7] == 0 && big[6] == 0
            &&& little[10] == message.number() && big[13] == message.number()
            &&& little.skip(14) == payload
        }),
{
    let little = framed(message, payload, ByteOrder::Little);
    let big = framed(message, payload, ByteOrder::Big);
    assert(little.take(6) =~= magic());
    assert(big.take(6) =~= magic());
    assert(little.skip(14) =~= payload);
}

/// A command that failed is told with the reason that it gave; one that gave none
/// is told as unreadable or unknown.
pub proof fn failures_give_their_reason(before: Seq<Outcome>, last: Outcome, locale: Locale)
    ensures
        last.success ==> failures(before.push(last), locale) == failures(before, locale),
        !last.success ==> ({
            let told = failures(before.push(last), locale);
            let why = match last.error {
                Some(e) => e@,
                None => note(
                    if last.parse_error == Some(true) {
                        NoticeId::SwayParseError
                    } else {
                        NoticeId::SwayUnknownError
                    },
                    seq![],
                ).said(locale),
            };
            told == failures(before, locale).push("  • "@ + why)
        }),
{
    assert(before.push(last).drop_last() =~= before);
}

/// A reply is an event exactly when the highest bit of its type is set: the type
/// is then at least half of what the word can hold.
pub proof fn events_have_the_highest_bit(kind: u32)
    ensures
        marks_event(kind) == (2 * kind > u32::MAX),
{
}

} // verus!
