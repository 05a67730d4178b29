//! What is written for a compositor says what was asked for: every directive,
//! read the way the compositor reads it, gives the settings back.

use vstd::prelude::*;

use crate::compositor::hyprland::{
    bool_text, hypr_mode, lua_read, lua_strings_read_back, lua_text,
    plain_text_stands_in_its_literal, Hyprland,
};
use crate::compositor::sway::ipc::{transform_keywords_round_trip, transform_named};
use crate::compositor::sway::{
    enabled_text, keyboard_lines, keyword, quotable, quoted, quoting_drops_what_breaks_out,
    sway_mode, Sway,
};
use crate::compositor::{Compositor, Plugin};
use crate::config::read_position;
use crate::decimals::{
    decimals_read_back, integers_read_back, lemma_nanos_in_range, naturals_read_back,
    scales_read_back,
};
use crate::env::Environment;
use crate::fixed::UNIT;
use crate::input::InputView;
use crate::layout::{fits_i32, scale_text, OutputView};
use crate::monitor::{
    decoded, read_mode, transform_codes_round_trip, Mode, Rotation, Transform,
};
use crate::notice::NoticeView;
use crate::number::{
    int_text, is_digit, nat_text, parse_int, parse_nanos, parse_nat, pow10, ratio_text,
};
use crate::saved::{modes_read_back, positions_read_back, rated_modes_read_back};
use crate::text::{join, starts_with, trim};
use crate::wiring::{lemma_without_keeps, quotable_path};

verus! {

// ---------------------------------------------------------------- reading Lua

/// How far a word without quotes goes.
pub open spec fn word_len(s: Seq<char>) -> nat
    decreases s.len(),
{
    if s.len() == 0 || s[0] == ',' || s[0] == ' ' {
        0
    } else {
        1 + word_len(s.skip(1))
    }
}

/// A value, and what follows it.
pub ghost struct Field {
    pub value: Seq<char>,
    pub rest: Seq<char>,
}

/// The value behind a key, and what follows it: a string literal, or a word.
pub open spec fn lua_field(s: Seq<char>, key: Seq<char>) -> Option<Field> {
    if starts_with(s, key) {
        let t = s.skip(key.len() as int);
        if t.len() > 0 && t[0] == '"' {
            match lua_read(t.skip(1), '"') {
                Some((value, rest)) => Some(Field { value, rest }),
                None => None,
            }
        } else {
            Some(Field { value: t.take(word_len(t) as int), rest: t.skip(word_len(t) as int) })
        }
    } else {
        None
    }
}

/// What follows the value behind a key.
pub open spec fn behind(s: Seq<char>, key: Seq<char>) -> Seq<char> {
    lua_field(s, key)->0.rest
}

/// The fields of a `hl.monitor{…}` call, as they are written.
pub ghost struct MonitorCall {
    pub output: Option<Field>,
    pub mode: Option<Field>,
    pub position: Option<Field>,
    pub scale: Option<Field>,
    pub transform: Option<Field>,
    pub mirror: Option<Field>,
    pub vrr: Option<Field>,
    pub disabled: Option<Field>,
}

/// A `hl.monitor{…}` call, read field by field.
pub open spec fn read_call(s: Seq<char>) -> MonitorCall {
    let a = behind(s, "hl.monitor({ output = "@);
    let b = behind(a, ", mode = "@);
    let c = behind(b, ", position = "@);
    let d = behind(c, ", scale = "@);
    let e = behind(d, ", transform = "@);
    let f = behind(e, ", mirror = "@);
    let g = behind(f, ", vrr = "@);
    MonitorCall {
        output: lua_field(s, "hl.monitor({ output = "@),
        mode: lua_field(a, ", mode = "@),
        position: lua_field(b, ", position = "@),
        scale: lua_field(c, ", scale = "@),
        transform: lua_field(d, ", transform = "@),
        mirror: lua_field(e, ", mirror = "@),
        vrr: lua_field(f, ", vrr = "@),
        disabled: lua_field(g, ", disabled = "@),
    }
}

/// Whether a field was there, with a value.
pub open spec fn is_field(f: Option<Field>, value: Seq<char>) -> bool {
    f is Some && f->0.value == value
}

proof fn lemma_text_field(key: Seq<char>, text: Seq<char>, rest: Seq<char>)
    ensures
        lua_field(key + (lua_text(text) + rest), key) == Some(Field { value: text, rest }),
{
    let s = key + (lua_text(text) + rest);
    assert(s.subrange(0, key.len() as int) =~= key);
    let t = s.skip(key.len() as int);
    assert(t =~= lua_text(text) + rest);
    assert(t[0] == '"');
    assert(t.skip(1) =~= lua_text(text).skip(1) + rest);
    lua_strings_read_back(text, rest);
}

/// A text of which neither a comma nor a space nor a quote is part.
spec fn is_word(s: Seq<char>) -> bool {
    forall|i: int| 0 <= i < s.len() ==> (#[trigger] s[i]) != ',' && s[i] != ' ' && s[i] != '"'
}

proof fn lemma_word_len(word: Seq<char>, rest: Seq<char>)
    requires
        is_word(word),
        rest.len() > 0,
        rest[0] == ',' || rest[0] == ' ',
    ensures
        word_len(word + rest) == word.len(),
    decreases word.len(),
{
    let t = word + rest;
    if word.len() > 0 {
        assert(t[0] == word[0]);
        let less = word.skip(1);
        assert forall|i: int| 0 <= i < less.len() implies (#[trigger] less[i]) != ',' && less[i]
            != ' ' && less[i] != '"' by {
            assert(less[i] == word[i + 1]);
        }
        lemma_word_len(less, rest);
        assert(t.skip(1) =~= less + rest);
    } else {
        assert(t[0] == rest[0]);
    }
}

proof fn lemma_word_field(key: Seq<char>, word: Seq<char>, rest: Seq<char>)
    requires
        word.len() > 0,
        is_word(word),
        rest.len() > 0,
        rest[0] == ',' || rest[0] == ' ',
    ensures
        lua_field(key + (word + rest), key) == Some(Field { value: word, rest }),
{
    let s = key + (word + rest);
    assert(s.subrange(0, key.len() as int) =~= key);
    let t = s.skip(key.len() as int);
    assert(t =~= word + rest);
    assert(t[0] == word[0]);
    lemma_word_len(word, rest);
    assert(t.take(word.len() as int) =~= word);
    assert(t.skip(word.len() as int) =~= rest);
}

proof fn lemma_assoc(a: Seq<char>, b: Seq<char>, c: Seq<char>)
    ensures
        (a + b) + c == a + (b + c),
{
    assert((a + b) + c =~= a + (b + c));
}

proof fn lemma_numeric_word(s: Seq<char>)
    requires
        forall|i: int|
            0 <= i < s.len() ==> is_digit(#[trigger] s[i]) || s[i] == '-' || s[i] == '.',
    ensures
        is_word(s),
{
}

// ---------------------------------------------------------------- Hyprland

/// A position between quotes.
proof fn lemma_quoted_position(x: int, y: int, tail: Seq<char>)
    requires
        fits_i32(x),
        fits_i32(y),
    ensures
        ({
            let p = int_text(x) + "x"@ + int_text(y);
            &&& ", position = \""@ + int_text(x) + "x"@ + int_text(y) + "\", scale = "@ + tail
                == ", position = "@ + (lua_text(p) + (", scale = "@ + tail))
            &&& read_position(p) == Ok::<(int, int), NoticeView>((x, y))
        }),
{
    let p = int_text(x) + "x"@ + int_text(y);
    let none = Seq::<char>::empty();
    integers_read_back(x);
    integers_read_back(y);
    assert("x"@ =~= seq!['x']) by {
        reveal_strlit("x");
    }
    assert forall|i: int| 0 <= i < p.len() implies p[i] != '\\' && p[i] != '"' && p[i] != '\n'
        && p[i] != '\r' by {
        if i < int_text(x).len() {
            assert(p[i] == int_text(x)[i]);
        } else if i > int_text(x).len() {
            assert(p[i] == int_text(y)[i - int_text(x).len() - 1]);
        }
    }
    plain_text_stands_in_its_literal(p);
    let q = seq!['"'];
    assert(", position = \""@ =~= ", position = "@ + q) by {
        reveal_strlit(", position = \"");
        reveal_strlit(", position = ");
    }
    assert("\", scale = "@ =~= q + ", scale = "@) by {
        reveal_strlit("\", scale = ");
        reveal_strlit(", scale = ");
    }
    assert(", position = \""@ + int_text(x) + "x"@ + int_text(y) + "\", scale = "@ + tail
        =~= ", position = "@ + (lua_text(p) + (", scale = "@ + tail)));
    positions_read_back(x, y, 'x', none, none, none, none);
    assert(p =~= none + (int_text(x) + none + seq!['x'] + none + int_text(y)) + none);
}

/// The first characters of what stands between the fields.
proof fn lemma_separators()
    ensures
        ", transform = "@.len() > 0 && ", transform = "@[0] == ',',
        ", mirror = "@.len() > 0 && ", mirror = "@[0] == ',',
        ", disabled = "@.len() > 0 && ", disabled = "@[0] == ',',
        " })"@.len() > 0 && " })"@[0] == ' ',
{
    reveal_strlit(", transform = ");
    reveal_strlit(", mirror = ");
    reveal_strlit(", disabled = ");
    reveal_strlit(" })");
}

proof fn lemma_disabled_false()
    ensures
        ", disabled = false })"@ == ", disabled = "@ + ("false"@ + " })"@),
        is_word("false"@),
        "false"@.len() > 0,
{
    reveal_strlit(", disabled = false })");
    reveal_strlit(", disabled = ");
    reveal_strlit("false");
    reveal_strlit(" })");
    assert(", disabled = false })"@ =~= ", disabled = "@ + ("false"@ + " })"@));
}

/// The mode in a call, and what it reads as.
pub open spec fn says_mode(text: Seq<char>, mode: Option<Mode>, step: int) -> bool {
    match mode {
        None => text == "preferred"@,
        Some(m) => match read_mode(text) {
            Ok(r) => {
                &&& r.width == m.width
                &&& r.height == m.height
                &&& 2 * (r.refresh.nanos - m.refresh.nanos) <= step
                &&& 2 * (m.refresh.nanos - r.refresh.nanos) <= step
            },
            Err(_) => false,
        },
    }
}

/// What an output's rate and scale have to be: no less than nothing.
pub open spec fn is_measured(o: OutputView) -> bool {
    &&& o.scale.nanos >= 0
    &&& o.mode is Some ==> o.mode->0.refresh.nanos >= 0
    &&& fits_i32(o.x)
    &&& fits_i32(o.y)
}

proof fn lemma_hypr_mode(o: OutputView)
    requires
        is_measured(o),
    ensures
        says_mode(hypr_mode(o), o.mode, 10_000_000),
{
    if let Some(m) = o.mode {
        let n = m.refresh.nanos as int;
        decimals_read_back(n, 2);
        assert(pow10(7) == 10_000_000) by {
            reveal_with_fuel(pow10, 8);
        }
        rated_modes_read_back(m.width, m.height, ratio_text(n, UNIT as int, 2));
        lemma_nanos_in_range(ratio_text(n, UNIT as int, 2));
    }
}

/// A call with these values.
spec fn call_text(
    name: Seq<char>,
    mode: Seq<char>,
    place: Seq<char>,
    scale: Seq<char>,
    turn: Seq<char>,
    target: Seq<char>,
    vrr: Seq<char>,
) -> Seq<char> {
    "hl.monitor({ output = "@ + (lua_text(name) + (", mode = "@ + (lua_text(mode) + (
    ", position = "@ + (lua_text(place) + (", scale = "@ + (scale + tail_text(
        turn,
        target,
        vrr,
    ))))))))
}

spec fn tail_text(turn: Seq<char>, target: Seq<char>, vrr: Seq<char>) -> Seq<char> {
    ", transform = "@ + (turn + (", mirror = "@ + (lua_text(target) + (", vrr = "@ + (vrr + (
    ", disabled = "@ + ("false"@ + " })"@)))))))
}

/// A call is read as what it was made of.
proof fn lemma_call_fields(
    name: Seq<char>,
    mode: Seq<char>,
    place: Seq<char>,
    scale: Seq<char>,
    turn: Seq<char>,
    target: Seq<char>,
    vrr: Seq<char>,
)
    requires
        scale.len() > 0 && is_word(scale),
        turn.len() > 0 && is_word(turn),
        vrr.len() > 0 && is_word(vrr),
    ensures
        ({
            let call = read_call(call_text(name, mode, place, scale, turn, target, vrr));
            &&& is_field(call.output, name)
            &&& is_field(call.mode, mode)
            &&& is_field(call.position, place)
            &&& is_field(call.scale, scale)
            &&& is_field(call.transform, turn)
            &&& is_field(call.mirror, target)
            &&& is_field(call.vrr, vrr)
            &&& is_field(call.disabled, "false"@)
            &&& call.disabled->0.rest == " })"@
        }),
{
    let end = " })"@;
    let g7 = ", disabled = "@ + ("false"@ + end);
    let g6 = ", vrr = "@ + (vrr + g7);
    let g5 = ", mirror = "@ + (lua_text(target) + g6);
    let g4 = ", transform = "@ + (turn + g5);
    let g3 = ", scale = "@ + (scale + g4);
    let g2 = ", position = "@ + (lua_text(place) + g3);
    let g1 = ", mode = "@ + (lua_text(mode) + g2);
    lemma_disabled_false();
    lemma_separators();
    lemma_text_field("hl.monitor({ output = "@, name, g1);
    lemma_text_field(", mode = "@, mode, g2);
    lemma_text_field(", position = "@, place, g3);
    lemma_word_field(", scale = "@, scale, g4);
    lemma_word_field(", transform = "@, turn, g5);
    lemma_text_field(", mirror = "@, target, g6);
    lemma_word_field(", vrr = "@, vrr, g7);
    lemma_word_field(", disabled = "@, "false"@, end);
}

/// Three parts behind a text, regrouped.
proof fn lemma_regroup(a: Seq<char>, b: Seq<char>, c: Seq<char>, tail: Seq<char>)
    ensures
        a + b + c + tail == a + (b + (c + tail)),
{
    lemma_assoc(a + b, c, tail);
    lemma_assoc(a, b, c + tail);
}

/// The directive is such a call.
proof fn lemma_call_text(o: OutputView)
    requires
        o.enabled,
        fits_i32(o.x),
        fits_i32(o.y),
    ensures
        Hyprland.directive(o) == call_text(
            o.name,
            hypr_mode(o),
            int_text(o.x) + "x"@ + int_text(o.y),
            scale_text(o.scale),
            nat_text(o.transform.code() as nat),
            match o.mirror_of {
                Some(t) => t,
                None => Seq::empty(),
            },
            nat_text(
                if o.vrr {
                    1
                } else {
                    0
                },
            ),
        ),
{
    let mode = hypr_mode(o);
    let target = match o.mirror_of {
        Some(t) => t,
        None => Seq::empty(),
    };
    let scale = scale_text(o.scale);
    let turn = nat_text(o.transform.code() as nat);
    let vrr = nat_text(
        if o.vrr {
            1
        } else {
            0
        },
    );
    let posq = ", position = \""@;
    let sc = "\", scale = "@;
    let x = int_text(o.x);
    let y = int_text(o.y);
    let dis = ", disabled = false })"@;
    let g7 = ", disabled = "@ + ("false"@ + " })"@);
    let g6 = ", vrr = "@ + (vrr + g7);
    let g5 = ", mirror = "@ + (lua_text(target) + g6);
    let g4 = ", transform = "@ + (turn + g5);
    let start = "hl.monitor({ output = "@;
    let h0 = start + lua_text(o.name) + ", mode = "@ + lua_text(mode);
    let h1 = h0 + posq + x + "x"@ + y + sc;
    let h2 = h1 + scale + ", transform = "@;
    let h3 = h2 + turn + ", mirror = "@;
    let h4 = h3 + lua_text(target) + ", vrr = "@;
    lemma_disabled_false();
    assert(Hyprland.directive(o) == h4 + vrr + dis);
    lemma_assoc(h4, vrr, g7);
    lemma_regroup(h3, lua_text(target), ", vrr = "@, vrr + g7);
    lemma_regroup(h2, turn, ", mirror = "@, lua_text(target) + g6);
    lemma_regroup(h1, scale, ", transform = "@, turn + g5);
    assert(Hyprland.directive(o) == h1 + (scale + g4));
    lemma_quoted_position(o.x, o.y, scale + g4);
    let tail = scale + g4;
    let place = x + "x"@ + y;
    let g2 = ", position = "@ + (lua_text(place) + (", scale = "@ + tail));
    lemma_assoc(h0 + posq + x + "x"@ + y, sc, tail);
    lemma_assoc(h0 + posq + x + "x"@, y, sc + tail);
    lemma_assoc(h0 + posq + x, "x"@, y + (sc + tail));
    lemma_assoc(h0 + posq, x, "x"@ + (y + (sc + tail)));
    lemma_assoc(h0, posq, x + ("x"@ + (y + (sc + tail))));
    lemma_assoc(posq + x + "x"@ + y, sc, tail);
    lemma_assoc(posq + x + "x"@, y, sc + tail);
    lemma_assoc(posq + x, "x"@, y + (sc + tail));
    lemma_assoc(posq, x, "x"@ + (y + (sc + tail)));
    assert(Hyprland.directive(o) == h0 + g2);
    lemma_assoc(start + lua_text(o.name) + ", mode = "@, lua_text(mode), g2);
    lemma_regroup(start, lua_text(o.name), ", mode = "@, lua_text(mode) + g2);
}

/// The `hl.monitor{…}` call of an enabled output, read field by field, gives the
/// output back: its name, its mode to the hundredth of a hertz, its position, its
/// scale to the millionth, its transform, what it mirrors, and its variable
/// refresh.
pub proof fn monitor_calls_read_back(o: OutputView)
    requires
        o.enabled,
        is_measured(o),
    ensures
        ({
            let call = read_call(Hyprland.directive(o));
            &&& is_field(call.output, o.name)
            &&& call.mode is Some && says_mode(call.mode->0.value, o.mode, 10_000_000)
            &&& call.position is Some && read_position(call.position->0.value) == Ok::<
                (int, int),
                NoticeView,
            >((o.x, o.y))
            &&& call.scale is Some && parse_nanos(call.scale->0.value) is Some && -500 <= parse_nanos(
                call.scale->0.value,
            ).unwrap() - o.scale.nanos <= 500
            &&& call.transform is Some && match parse_nat(call.transform->0.value) {
                Some(code) => code <= 7 && decoded(code as u8) == o.transform,
                None => false,
            }
            &&& is_field(
                call.mirror,
                match o.mirror_of {
                    Some(target) => target,
                    None => Seq::empty(),
                },
            )
            &&& is_field(
                call.vrr,
                if o.vrr {
                    seq!['1']
                } else {
                    seq!['0']
                },
            )
            &&& is_field(call.disabled, "false"@)
            &&& call.disabled->0.rest == " })"@
        }),
{
    let scale = scale_text(o.scale);
    let turn = nat_text(o.transform.code() as nat);
    let flag: nat = if o.vrr {
        1
    } else {
        0
    };
    lemma_call_text(o);
    lemma_quoted_position(o.x, o.y, Seq::empty());
    lemma_hypr_mode(o);
    scales_read_back(o.scale);
    naturals_read_back(o.transform.code() as nat);
    naturals_read_back(flag);
    transform_codes_round_trip(o.transform, 0, o.transform);
    lemma_numeric_word(scale);
    lemma_numeric_word(turn);
    lemma_numeric_word(nat_text(flag));
    assert(nat_text(flag) =~= if o.vrr {
        seq!['1']
    } else {
        seq!['0']
    });
    lemma_call_fields(
        o.name,
        hypr_mode(o),
        int_text(o.x) + "x"@ + int_text(o.y),
        scale,
        turn,
        match o.mirror_of {
            Some(t) => t,
            None => Seq::empty(),
        },
        nat_text(flag),
    );
}

/// The call of a disabled output names it and switches it off.
pub proof fn disabling_calls_read_back(o: OutputView)
    requires
        !o.enabled,
    ensures
        ({
            let d = Hyprland.directive(o);
            &&& is_field(lua_field(d, "hl.monitor({ output = "@), o.name)
            &&& is_field(lua_field(behind(d, "hl.monitor({ output = "@), ", disabled = "@), "true"@)
        }),
{
    let rest = ", disabled = true })"@;
    reveal_strlit(", disabled = true })");
    reveal_strlit(", disabled = ");
    reveal_strlit("true");
    reveal_strlit(" })");
    assert(rest =~= ", disabled = "@ + ("true"@ + " })"@));
    lemma_assoc("hl.monitor({ output = "@, lua_text(o.name), rest);
    lemma_text_field("hl.monitor({ output = "@, o.name, rest);
    lemma_word_field(", disabled = "@, "true"@, " })"@);
}

/// The fields of a `hl.config{…}` call.
pub ghost struct InputCall {
    pub kb_layout: Option<Field>,
    pub kb_variant: Option<Field>,
    pub kb_options: Option<Field>,
    pub natural_scroll: Option<Field>,
    pub touchpad_natural_scroll: Option<Field>,
}

/// A `hl.config{…}` call, read field by field.
pub open spec fn read_input_call(s: Seq<char>) -> InputCall {
    let a = behind(s, "hl.config({ input = { kb_layout = "@);
    let b = behind(a, ", kb_variant = "@);
    let c = behind(b, ", kb_options = "@);
    let d = behind(c, ", natural_scroll = "@);
    InputCall {
        kb_layout: lua_field(s, "hl.config({ input = { kb_layout = "@),
        kb_variant: lua_field(a, ", kb_variant = "@),
        kb_options: lua_field(b, ", kb_options = "@),
        natural_scroll: lua_field(c, ", natural_scroll = "@),
        touchpad_natural_scroll: lua_field(d, ", touchpad = { natural_scroll = "@),
    }
}

/// `true` or `false`, as Lua has it.
pub open spec fn lua_flag(b: bool) -> Seq<char> {
    if b {
        seq!['t', 'r', 'u', 'e']
    } else {
        seq!['f', 'a', 'l', 's', 'e']
    }
}

proof fn lemma_flag(b: bool)
    ensures
        bool_text(b) == lua_flag(b),
        is_word(bool_text(b)),
        bool_text(b).len() > 0,
{
    reveal_strlit("true");
    reveal_strlit("false");
    assert(bool_text(b) =~= lua_flag(b));
}

/// The one call that carries the keyboard and pointer settings, read field by
/// field, gives each of them back under its own key.
pub proof fn input_calls_read_back(i: InputView)
    ensures
        Hyprland.input_texts(i).len() == 1,
        ({
            let call = read_input_call(Hyprland.input_texts(i)[0]);
            &&& is_field(call.kb_layout, i.kb_layout)
            &&& is_field(call.kb_variant, i.kb_variant)
            &&& is_field(call.kb_options, i.kb_options)
            &&& is_field(call.natural_scroll, lua_flag(i.natural_scroll))
            &&& is_field(call.touchpad_natural_scroll, lua_flag(i.touchpad_natural_scroll))
        }),
{
    let start = "hl.config({ input = { kb_layout = "@;
    let kv = ", kb_variant = "@;
    let ko = ", kb_options = "@;
    let ns = ", natural_scroll = "@;
    let tp = ", touchpad = { natural_scroll = "@;
    let end = " } } })"@;
    let l = lua_text(i.kb_layout);
    let v = lua_text(i.kb_variant);
    let p = lua_text(i.kb_options);
    let n = bool_text(i.natural_scroll);
    let t = bool_text(i.touchpad_natural_scroll);
    let g4 = tp + (t + end);
    let g3 = ns + (n + g4);
    let g2 = ko + (p + g3);
    let g1 = kv + (v + g2);
    let d = Hyprland.input_texts(i)[0];
    assert(d == start + l + kv + v + ko + p + ns + n + tp + t + end);
    lemma_assoc(start + l + kv + v + ko + p + ns + n + tp, t, end);
    lemma_regroup(start + l + kv + v + ko + p + ns, n, tp, t + end);
    lemma_regroup(start + l + kv + v + ko, p, ns, n + g4);
    lemma_regroup(start + l + kv, v, ko, p + g3);
    lemma_regroup(start, l, kv, v + g2);
    assert(d == start + (l + g1));
    lemma_flag(i.natural_scroll);
    lemma_flag(i.touchpad_natural_scroll);
    assert(tp.len() > 0 && tp[0] == ',') by {
        reveal_strlit(", touchpad = { natural_scroll = ");
    }
    assert(end.len() > 0 && end[0] == ' ') by {
        reveal_strlit(" } } })");
    }
    lemma_text_field(start, i.kb_layout, g1);
    lemma_text_field(kv, i.kb_variant, g2);
    lemma_text_field(ko, i.kb_options, g3);
    lemma_word_field(ns, n, g4);
    lemma_word_field(tp, t, end);
}

// ---------------------------------------------------------------- sway

/// How far a word goes: to a space or to the line's end.
pub open spec fn sway_word_len(s: Seq<char>) -> nat
    decreases s.len(),
{
    if s.len() == 0 || s[0] == ' ' || s[0] == '\n' {
        0
    } else {
        1 + sway_word_len(s.skip(1))
    }
}

/// How far a text between quotes goes.
pub open spec fn quote_len(s: Seq<char>) -> nat
    decreases s.len(),
{
    if s.len() == 0 || s[0] == '"' {
        0
    } else {
        1 + quote_len(s.skip(1))
    }
}

/// The value behind a key, and what follows it: a text in quotes, or a word.
pub open spec fn sway_field(s: Seq<char>, key: Seq<char>) -> Option<Field> {
    if starts_with(s, key) {
        let t = s.skip(key.len() as int);
        if t.len() > 0 && t[0] == '"' {
            let n = quote_len(t.skip(1)) as int;
            if n + 1 < t.len() {
                Some(Field { value: t.subrange(1, n + 1), rest: t.skip(n + 2) })
            } else {
                None
            }
        } else {
            let n = sway_word_len(t) as int;
            Some(Field { value: t.take(n), rest: t.skip(n) })
        }
    } else {
        None
    }
}

pub open spec fn sway_behind(s: Seq<char>, key: Seq<char>) -> Seq<char> {
    sway_field(s, key)->0.rest
}

/// The parts of an `output …` line, as they are written.
pub ghost struct OutputLine {
    pub output: Option<Field>,
    pub mode: Option<Field>,
    pub x: Option<Field>,
    pub y: Option<Field>,
    pub scale: Option<Field>,
    pub transform: Option<Field>,
    pub sync: Option<Field>,
}

/// An `output …` line that switches an output on, read part by part. `asking` is
/// what stands before the mode.
pub open spec fn read_line(s: Seq<char>, asking: Seq<char>) -> OutputLine {
    let a = sway_behind(s, "output "@);
    let b = sway_behind(a, asking);
    let c = sway_behind(b, " position "@);
    let d = sway_behind(c, " "@);
    let e = sway_behind(d, " scale "@);
    let f = sway_behind(e, " transform "@);
    OutputLine {
        output: sway_field(s, "output "@),
        mode: sway_field(a, asking),
        x: sway_field(b, " position "@),
        y: sway_field(c, " "@),
        scale: sway_field(d, " scale "@),
        transform: sway_field(e, " transform "@),
        sync: sway_field(f, " adaptive_sync "@),
    }
}

proof fn lemma_quote_len(s: Seq<char>, rest: Seq<char>)
    requires
        forall|i: int| 0 <= i < s.len() ==> #[trigger] s[i] != '"',
        rest.len() > 0,
        rest[0] == '"',
    ensures
        quote_len(s + rest) == s.len(),
    decreases s.len(),
{
    let t = s + rest;
    if s.len() > 0 {
        assert(t[0] == s[0]);
        assert forall|i: int| 0 <= i < s.skip(1).len() implies #[trigger] s.skip(1)[i] != '"' by {
            assert(s.skip(1)[i] == s[i + 1]);
        }
        lemma_quote_len(s.skip(1), rest);
        assert(t.skip(1) =~= s.skip(1) + rest);
    } else {
        assert(t[0] == rest[0]);
    }
}

proof fn lemma_quoted_field(key: Seq<char>, text: Seq<char>, rest: Seq<char>)
    ensures
        sway_field(key + (quoted(text) + rest), key) == Some(
            Field { value: quotable(text), rest },
        ),
{
    let inner = quotable(text);
    let q = seq!['"'];
    assert("\""@ =~= q) by {
        reveal_strlit("\"");
    }
    assert forall|i: int| 0 <= i < inner.len() implies #[trigger] inner[i] != '"' by {
        quoting_drops_what_breaks_out(text, i);
    }
    let s = key + (quoted(text) + rest);
    assert(s.subrange(0, key.len() as int) =~= key);
    let t = s.skip(key.len() as int);
    assert(t =~= quoted(text) + rest);
    assert(t[0] == '"');
    assert(t.skip(1) =~= inner + (q + rest));
    lemma_quote_len(inner, q + rest);
    let n = inner.len() as int;
    assert(t.subrange(1, n + 1) =~= inner);
    assert(t.skip(n + 2) =~= rest);
}

/// A text of which neither a space nor a line's end nor a quote is part.
spec fn is_sway_word(s: Seq<char>) -> bool {
    forall|i: int| 0 <= i < s.len() ==> (#[trigger] s[i]) != ' ' && s[i] != '\n' && s[i] != '"'
}

proof fn lemma_sway_word_len(word: Seq<char>, rest: Seq<char>)
    requires
        is_sway_word(word),
        rest.len() == 0 || rest[0] == ' ' || rest[0] == '\n',
    ensures
        sway_word_len(word + rest) == word.len(),
    decreases word.len(),
{
    let t = word + rest;
    if word.len() > 0 {
        assert(t[0] == word[0]);
        let less = word.skip(1);
        assert forall|i: int| 0 <= i < less.len() implies (#[trigger] less[i]) != ' ' && less[i]
            != '\n' && less[i] != '"' by {
            assert(less[i] == word[i + 1]);
        }
        lemma_sway_word_len(less, rest);
        assert(t.skip(1) =~= less + rest);
    } else if rest.len() > 0 {
        assert(t[0] == rest[0]);
    }
}

proof fn lemma_sway_field(key: Seq<char>, word: Seq<char>, rest: Seq<char>)
    requires
        word.len() > 0,
        is_sway_word(word),
        rest.len() == 0 || rest[0] == ' ' || rest[0] == '\n',
    ensures
        sway_field(key + (word + rest), key) == Some(Field { value: word, rest }),
{
    let s = key + (word + rest);
    assert(s.subrange(0, key.len() as int) =~= key);
    let t = s.skip(key.len() as int);
    assert(t =~= word + rest);
    assert(t[0] == word[0]);
    lemma_sway_word_len(word, rest);
    assert(t.take(word.len() as int) =~= word);
    assert(t.skip(word.len() as int) =~= rest);
}

/// What stands before the mode: a mode is asked for as it is, and the preferred
/// one by name.
pub open spec fn asking(o: OutputView) -> Seq<char> {
    if o.mode is Some {
        " enable mode "@
    } else {
        " enable mode --custom "@
    }
}

spec fn mode_word(o: OutputView) -> Seq<char> {
    match o.mode {
        Some(m) => {
            let size = int_text(m.width as int) + "x"@ + int_text(m.height as int);
            if m.refresh.nanos > 0 {
                size + "@"@ + ratio_text(m.refresh.nanos as int, UNIT as int, 3) + "Hz"@
            } else {
                size
            }
        },
        None => "preferred"@,
    }
}

proof fn lemma_mode_word(o: OutputView)
    requires
        is_measured(o),
    ensures
        says_mode(mode_word(o), o.mode, 1_000_000),
        mode_word(o).len() > 0,
        is_sway_word(mode_word(o)),
{
    let s = mode_word(o);
    match o.mode {
        Some(m) => {
            let n = m.refresh.nanos as int;
            let a = int_text(m.width as int);
            let b = int_text(m.height as int);
            integers_read_back(m.width as int);
            integers_read_back(m.height as int);
            assert("x"@ =~= seq!['x']) by {
                reveal_strlit("x");
            }
            if n > 0 {
                let rate = ratio_text(n, UNIT as int, 3);
                decimals_read_back(n, 3);
                assert(pow10(6) == 1_000_000) by {
                    reveal_with_fuel(pow10, 7);
                }
                rated_modes_read_back(m.width, m.height, rate);
                lemma_nanos_in_range(rate);
                assert("@"@ =~= seq!['@'] && "Hz"@ =~= seq!['H', 'z']) by {
                    reveal_strlit("@");
                    reveal_strlit("Hz");
                }
                let k = a.len() + 1 + b.len();
                assert forall|i: int| 0 <= i < s.len() implies (#[trigger] s[i]) != ' ' && s[i]
                    != '\n' && s[i] != '"' by {
                    if i < a.len() {
                        assert(s[i] == a[i]);
                    } else if a.len() < i < k {
                        assert(s[i] == b[i - a.len() - 1]);
                    } else if k < i < k + 1 + rate.len() {
                        assert(s[i] == rate[i - k - 1]);
                    }
                }
            } else {
                modes_read_back(m);
                assert(s == m.shown());
                assert forall|i: int| 0 <= i < s.len() implies (#[trigger] s[i]) != ' ' && s[i]
                    != '\n' && s[i] != '"' by {
                    if i < a.len() {
                        assert(s[i] == a[i]);
                    } else if i > a.len() {
                        assert(s[i] == b[i - a.len() - 1]);
                    }
                }
            }
        },
        None => {
            reveal_strlit("preferred");
        },
    }
}

proof fn lemma_mode_part(o: OutputView)
    ensures
        " enable"@ + sway_mode(o) == asking(o) + mode_word(o),
{
    let e = " enable"@;
    match o.mode {
        Some(m) => {
            let a = int_text(m.width as int);
            let b = int_text(m.height as int);
            assert(e + " mode "@ =~= " enable mode "@) by {
                reveal_strlit(" enable");
                reveal_strlit(" mode ");
                reveal_strlit(" enable mode ");
            }
            if m.refresh.nanos > 0 {
                let r = ratio_text(m.refresh.nanos as int, UNIT as int, 3);
                assert(e + (" mode "@ + a + "x"@ + b + "@"@ + r + "Hz"@) =~= (e + " mode "@) + (a
                    + "x"@ + b + "@"@ + r + "Hz"@));
            } else {
                assert(e + (" mode "@ + a + "x"@ + b) =~= (e + " mode "@) + (a + "x"@ + b));
            }
        },
        None => {
            reveal_strlit(" enable");
            reveal_strlit(" mode --custom preferred");
            reveal_strlit(" enable mode --custom ");
            reveal_strlit("preferred");
            assert(e + sway_mode(o) =~= asking(o) + mode_word(o));
        },
    }
}

proof fn lemma_keyword(t: Transform)
    ensures
        keyword(t).len() > 0,
        is_sway_word(keyword(t)),
{
    match (t.flipped, t.rotation) {
        (false, Rotation::R0) => {
            reveal_strlit("normal");
        },
        (false, Rotation::R90) => {
            reveal_strlit("90");
        },
        (false, Rotation::R180) => {
            reveal_strlit("180");
        },
        (false, Rotation::R270) => {
            reveal_strlit("270");
        },
        (true, Rotation::R0) => {
            reveal_strlit("flipped");
        },
        (true, Rotation::R90) => {
            reveal_strlit("flipped-90");
        },
        (true, Rotation::R180) => {
            reveal_strlit("flipped-180");
        },
        (true, Rotation::R270) => {
            reveal_strlit("flipped-270");
        },
    }
}

spec fn sync_word(vrr: bool) -> Seq<char> {
    if vrr {
        "on"@
    } else {
        "off"@
    }
}

/// What is said of a mirror that sway cannot have.
spec fn remark(o: OutputView) -> Seq<char> {
    match o.mirror_of {
        Some(target) => "  # mirror of "@ + target + " dropped: sway has no equivalent"@,
        None => Seq::empty(),
    }
}

spec fn line_text(
    name: Seq<char>,
    asking: Seq<char>,
    mode: Seq<char>,
    x: Seq<char>,
    y: Seq<char>,
    scale: Seq<char>,
    turn: Seq<char>,
    sync: Seq<char>,
    rest: Seq<char>,
) -> Seq<char> {
    "output "@ + (quoted(name) + (asking + (mode + (" position "@ + (x + (" "@ + (y + (" scale "@
        + (scale + (" transform "@ + (turn + (" adaptive_sync "@ + (sync + rest)))))))))))))
}

proof fn lemma_line_fields(
    name: Seq<char>,
    asking: Seq<char>,
    mode: Seq<char>,
    x: Seq<char>,
    y: Seq<char>,
    scale: Seq<char>,
    turn: Seq<char>,
    sync: Seq<char>,
    rest: Seq<char>,
)
    requires
        mode.len() > 0 && is_sway_word(mode),
        x.len() > 0 && is_sway_word(x),
        y.len() > 0 && is_sway_word(y),
        scale.len() > 0 && is_sway_word(scale),
        turn.len() > 0 && is_sway_word(turn),
        sync.len() > 0 && is_sway_word(sync),
        rest.len() == 0 || rest[0] == ' ',
    ensures
        ({
            let line = read_line(
                line_text(name, asking, mode, x, y, scale, turn, sync, rest),
                asking,
            );
            &&& is_field(line.output, quotable(name))
            &&& is_field(line.mode, mode)
            &&& is_field(line.x, x)
            &&& is_field(line.y, y)
            &&& is_field(line.scale, scale)
            &&& is_field(line.transform, turn)
            &&& is_field(line.sync, sync)
            &&& line.sync->0.rest == rest
        }),
{
    let g6 = " adaptive_sync "@ + (sync + rest);
    let g5 = " transform "@ + (turn + g6);
    let g4 = " scale "@ + (scale + g5);
    let g3 = " "@ + (y + g4);
    let g2 = " position "@ + (x + g3);
    let g1 = asking + (mode + g2);
    assert(" position "@.len() > 0 && " position "@[0] == ' ') by {
        reveal_strlit(" position ");
    }
    assert(" "@.len() > 0 && " "@[0] == ' ') by {
        reveal_strlit(" ");
    }
    assert(" scale "@.len() > 0 && " scale "@[0] == ' ') by {
        reveal_strlit(" scale ");
    }
    assert(" transform "@.len() > 0 && " transform "@[0] == ' ') by {
        reveal_strlit(" transform ");
    }
    assert(" adaptive_sync "@.len() > 0 && " adaptive_sync "@[0] == ' ') by {
        reveal_strlit(" adaptive_sync ");
    }
    lemma_quoted_field("output "@, name, g1);
    lemma_sway_field(asking, mode, g2);
    lemma_sway_field(" position "@, x, g3);
    lemma_sway_field(" "@, y, g4);
    lemma_sway_field(" scale "@, scale, g5);
    lemma_sway_field(" transform "@, turn, g6);
    lemma_sway_field(" adaptive_sync "@, sync, rest);
}

proof fn lemma_line_text(o: OutputView)
    requires
        o.enabled,
    ensures
        Sway.directive(o) == line_text(
            o.name,
            asking(o),
            mode_word(o),
            int_text(o.x),
            int_text(o.y),
            scale_text(o.scale),
            keyword(o.transform),
            sync_word(o.vrr),
            remark(o),
        ),
{
    let x = int_text(o.x);
    let y = int_text(o.y);
    let scale = scale_text(o.scale);
    let turn = keyword(o.transform);
    let sync = sync_word(o.vrr);
    let rest = remark(o);
    let start = "output "@ + quoted(o.name);
    let po = " position "@;
    let sp = " "@;
    let sc = " scale "@;
    let tr = " transform "@;
    let ad = " adaptive_sync "@;
    let h = start + " enable"@ + sway_mode(o);
    let line = h + po + x + sp + y + sc + scale + tr + turn + ad + sync;
    assert(Sway.directive(o) == line + rest) by {
        match o.mirror_of {
            Some(target) => {
                assert(line + "  # mirror of "@ + target + " dropped: sway has no equivalent"@
                    =~= line + rest);
            },
            None => {
                assert(line + rest =~= line);
            },
        }
    }
    let g6 = ad + (sync + rest);
    let g5 = tr + (turn + g6);
    let g4 = sc + (scale + g5);
    let g3 = sp + (y + g4);
    let g2 = po + (x + g3);
    lemma_assoc(h + po + x + sp + y + sc + scale + tr + turn + ad, sync, rest);
    lemma_regroup(h + po + x + sp + y + sc + scale + tr, turn, ad, sync + rest);
    lemma_regroup(h + po + x + sp + y + sc, scale, tr, turn + g6);
    lemma_regroup(h + po + x + sp, y, sc, scale + g5);
    lemma_regroup(h + po, x, sp, y + g4);
    lemma_assoc(h, po, x + g3);
    assert(Sway.directive(o) == h + g2);
    lemma_mode_part(o);
    lemma_assoc(start, " enable"@, sway_mode(o));
    lemma_assoc(start, asking(o) + mode_word(o), g2);
    lemma_assoc(asking(o), mode_word(o), g2);
    lemma_assoc("output "@, quoted(o.name), asking(o) + (mode_word(o) + g2));
}

/// Whether a line says what is wanted of an output: its name without what cannot
/// be quoted, its mode to the thousandth of a hertz, its position, its scale to
/// the millionth, its transform and its variable refresh. Behind that stands a
/// remark, where it is to mirror another one, and nothing else.
pub open spec fn says_output(line: OutputLine, o: OutputView) -> bool {
    &&& is_field(line.output, quotable(o.name))
    &&& line.mode is Some && says_mode(line.mode->0.value, o.mode, 1_000_000)
    &&& line.x is Some && parse_int(line.x->0.value) == Some(o.x)
    &&& line.y is Some && parse_int(line.y->0.value) == Some(o.y)
    &&& line.scale is Some && parse_nanos(line.scale->0.value) is Some && -500 <= parse_nanos(
        line.scale->0.value,
    ).unwrap() - o.scale.nanos <= 500
    &&& line.transform is Some && transform_named(Some(line.transform->0.value)) == o.transform
    &&& is_field(
        line.sync,
        if o.vrr {
            seq!['o', 'n']
        } else {
            seq!['o', 'f', 'f']
        },
    )
    &&& match o.mirror_of {
        Some(target) => starts_with(line.sync->0.rest, "  # mirror of "@ + target),
        None => line.sync->0.rest.len() == 0,
    }
}

/// The `output …` line of an enabled output, read part by part, says what is
/// wanted of the output.
pub proof fn output_lines_read_back(o: OutputView)
    requires
        o.enabled,
        is_measured(o),
    ensures
        says_output(read_line(Sway.directive(o), asking(o)), o),
{
    let x = int_text(o.x);
    let y = int_text(o.y);
    let scale = scale_text(o.scale);
    let rest = remark(o);
    lemma_line_text(o);
    lemma_mode_word(o);
    integers_read_back(o.x);
    integers_read_back(o.y);
    scales_read_back(o.scale);
    lemma_keyword(o.transform);
    transform_keywords_round_trip(o.transform);
    assert(sync_word(o.vrr) =~= if o.vrr {
        seq!['o', 'n']
    } else {
        seq!['o', 'f', 'f']
    }) by {
        reveal_strlit("on");
        reveal_strlit("off");
    }
    assert forall|i: int| 0 <= i < x.len() implies (#[trigger] x[i]) != ' ' && x[i] != '\n' && x[i]
        != '"' by {
        assert(is_digit(x[i]) || x[i] == '-');
    }
    assert forall|i: int| 0 <= i < y.len() implies (#[trigger] y[i]) != ' ' && y[i] != '\n' && y[i]
        != '"' by {
        assert(is_digit(y[i]) || y[i] == '-');
    }
    assert forall|i: int| 0 <= i < scale.len() implies (#[trigger] scale[i]) != ' ' && scale[i]
        != '\n' && scale[i] != '"' by {
        assert(is_digit(scale[i]) || scale[i] == '.');
    }
    if let Some(target) = o.mirror_of {
        let head = "  # mirror of "@;
        assert(head.len() > 0 && head[0] == ' ') by {
            reveal_strlit("  # mirror of ");
        }
        assert(rest[0] == head[0]);
        assert(rest.subrange(0, (head + target).len() as int) =~= head + target);
    }
    lemma_line_fields(
        o.name,
        asking(o),
        mode_word(o),
        x,
        y,
        scale,
        keyword(o.transform),
        sync_word(o.vrr),
        rest,
    );
}

/// The line of a disabled output names it and switches it off.
pub proof fn disabling_lines_read_back(o: OutputView)
    requires
        !o.enabled,
    ensures
        is_field(sway_field(Sway.directive(o), "output "@), quotable(o.name)),
        sway_behind(Sway.directive(o), "output "@) == " disable"@,
{
    lemma_assoc("output "@, quoted(o.name), " disable"@);
    lemma_quoted_field("output "@, o.name, " disable"@);
}

/// What can be quoted is quoted as it is.
pub proof fn quoting_keeps_the_rest(s: Seq<char>)
    requires
        quotable_path(s),
    ensures
        quotable(s) == s,
{
    lemma_without_keeps(s, '"');
    lemma_without_keeps(s, '\n');
    lemma_without_keeps(s, '\r');
}

/// `enabled` or `disabled`, as sway has it.
pub open spec fn sway_flag(b: bool) -> Seq<char> {
    if b {
        seq!['e', 'n', 'a', 'b', 'l', 'e', 'd']
    } else {
        seq!['d', 'i', 's', 'a', 'b', 'l', 'e', 'd']
    }
}

proof fn lemma_sway_flag(b: bool)
    ensures
        enabled_text(b) == sway_flag(b),
        is_sway_word(enabled_text(b)),
        enabled_text(b).len() > 0,
{
    reveal_strlit("enabled");
    reveal_strlit("disabled");
    assert(enabled_text(b) =~= sway_flag(b));
}

/// The blocks that carry the keyboard and pointer settings, one for each class of
/// device, read setting by setting: the keyboard's has the layout, and variant and
/// options where they are not blank; those of the touchpad and of the pointer have
/// each its own scroll direction.
pub proof fn input_blocks_read_back(i: InputView)
    ensures
        Sway.input_texts(i).len() == 3,
        ({
            let k = Sway.input_texts(i)[0];
            let layout = "input type:keyboard {\n    xkb_layout "@;
            let a = sway_behind(k, layout);
            let b = if trim(i.kb_variant).len() > 0 {
                sway_behind(a, "\n    xkb_variant "@)
            } else {
                a
            };
            let c = if trim(i.kb_options).len() > 0 {
                sway_behind(b, "\n    xkb_options "@)
            } else {
                b
            };
            &&& is_field(sway_field(k, layout), quotable(i.kb_layout))
            &&& trim(i.kb_variant).len() > 0 ==> is_field(
                sway_field(a, "\n    xkb_variant "@),
                quotable(i.kb_variant),
            )
            &&& trim(i.kb_options).len() > 0 ==> is_field(
                sway_field(b, "\n    xkb_options "@),
                quotable(i.kb_options),
            )
            &&& c == "\n}"@
        }),
        is_field(
            sway_field(
                Sway.input_texts(i)[1],
                "input type:touchpad {\n    natural_scroll "@,
            ),
            sway_flag(i.touchpad_natural_scroll),
        ),
        is_field(
            sway_field(Sway.input_texts(i)[2], "input type:pointer {\n    natural_scroll "@),
            sway_flag(i.natural_scroll),
        ),
{
    let end = "\n}"@;
    assert(end.len() > 0 && end[0] == '\n') by {
        reveal_strlit("\n}");
    }
    lemma_sway_flag(i.natural_scroll);
    lemma_sway_flag(i.touchpad_natural_scroll);
    let tp = "input type:touchpad {\n    natural_scroll "@;
    let po = "input type:pointer {\n    natural_scroll "@;
    lemma_assoc(tp, enabled_text(i.touchpad_natural_scroll), end);
    lemma_assoc(po, enabled_text(i.natural_scroll), end);
    lemma_sway_field(tp, enabled_text(i.touchpad_natural_scroll), end);
    lemma_sway_field(po, enabled_text(i.natural_scroll), end);
    lemma_keyboard_block(i);
}

/// A line behind others, regrouped.
proof fn lemma_line_step(
    x: Seq<char>,
    nl: Seq<char>,
    key: Seq<char>,
    q: Seq<char>,
    tail: Seq<char>,
)
    ensures
        (x + nl + (key + q)) + tail == x + ((nl + key) + (q + tail)),
{
    lemma_assoc(x, nl, key + q);
    lemma_assoc(x, nl + (key + q), tail);
    lemma_assoc(nl, key, q);
    lemma_assoc(nl + key, q, tail);
}

/// The keyboard's lines, one behind the other.
proof fn lemma_keyboard_join(i: InputView)
    ensures
        ({
            let nl = "\n"@;
            let l0 = "    xkb_layout "@ + quoted(i.kb_layout);
            let l1 = "    xkb_variant "@ + quoted(i.kb_variant);
            let l2 = "    xkb_options "@ + quoted(i.kb_options);
            join(keyboard_lines(i), nl) == if trim(i.kb_variant).len() > 0 {
                if trim(i.kb_options).len() > 0 {
                    l0 + nl + l1 + nl + l2
                } else {
                    l0 + nl + l1
                }
            } else if trim(i.kb_options).len() > 0 {
                l0 + nl + l2
            } else {
                l0
            }
        }),
{
    let l0 = "    xkb_layout "@ + quoted(i.kb_layout);
    let l1 = "    xkb_variant "@ + quoted(i.kb_variant);
    let l2 = "    xkb_options "@ + quoted(i.kb_options);
    let ls = keyboard_lines(i);
    reveal_with_fuel(join, 4);
    if trim(i.kb_variant).len() > 0 {
        if trim(i.kb_options).len() > 0 {
            assert(ls =~= seq![l0, l1, l2]);
            assert(ls.drop_last() =~= seq![l0, l1]);
            assert(ls.drop_last().drop_last() =~= seq![l0]);
        } else {
            assert(ls =~= seq![l0, l1]);
            assert(ls.drop_last() =~= seq![l0]);
        }
    } else if trim(i.kb_options).len() > 0 {
        assert(ls =~= seq![l0, l2]);
        assert(ls.drop_last() =~= seq![l0]);
    } else {
        assert(ls =~= seq![l0]);
    }
}

proof fn lemma_keyboard_block(i: InputView)
    ensures
        ({
            let k = Sway.input_texts(i)[0];
            let layout = "input type:keyboard {\n    xkb_layout "@;
            let a = sway_behind(k, layout);
            let b = if trim(i.kb_variant).len() > 0 {
                sway_behind(a, "\n    xkb_variant "@)
            } else {
                a
            };
            let c = if trim(i.kb_options).len() > 0 {
                sway_behind(b, "\n    xkb_options "@)
            } else {
                b
            };
            &&& is_field(sway_field(k, layout), quotable(i.kb_layout))
            &&& trim(i.kb_variant).len() > 0 ==> is_field(
                sway_field(a, "\n    xkb_variant "@),
                quotable(i.kb_variant),
            )
            &&& trim(i.kb_options).len() > 0 ==> is_field(
                sway_field(b, "\n    xkb_options "@),
                quotable(i.kb_options),
            )
            &&& c == "\n}"@
        }),
{
    let end = "\n}"@;
    let nl = "\n"@;
    let head = "input type:keyboard {\n"@;
    let layout = "input type:keyboard {\n    xkb_layout "@;
    let va = "\n    xkb_variant "@;
    let op = "\n    xkb_options "@;
    let has_variant = trim(i.kb_variant).len() > 0;
    let has_options = trim(i.kb_options).len() > 0;
    let c = end;
    let b = if has_options {
        op + (quoted(i.kb_options) + c)
    } else {
        c
    };
    let a = if has_variant {
        va + (quoted(i.kb_variant) + b)
    } else {
        b
    };
    assert(head + "    xkb_layout "@ =~= layout) by {
        reveal_strlit("input type:keyboard {\n");
        reveal_strlit("    xkb_layout ");
        reveal_strlit("input type:keyboard {\n    xkb_layout ");
    }
    assert(nl + "    xkb_variant "@ =~= va) by {
        reveal_strlit("\n");
        reveal_strlit("    xkb_variant ");
        reveal_strlit("\n    xkb_variant ");
    }
    assert(nl + "    xkb_options "@ =~= op) by {
        reveal_strlit("\n");
        reveal_strlit("    xkb_options ");
        reveal_strlit("\n    xkb_options ");
    }
    let l0 = "    xkb_layout "@ + quoted(i.kb_layout);
    let l1 = "    xkb_variant "@ + quoted(i.kb_variant);
    let l2 = "    xkb_options "@ + quoted(i.kb_options);
    let k = Sway.input_texts(i)[0];
    let ql = quoted(i.kb_layout);
    let qv = quoted(i.kb_variant);
    let qo = quoted(i.kb_options);
    lemma_keyboard_join(i);
    lemma_assoc(head, "    xkb_layout "@, ql);
    if has_variant && has_options {
        lemma_line_step(l0 + nl + l1, nl, "    xkb_options "@, qo, end);
        lemma_line_step(l0, nl, "    xkb_variant "@, qv, b);
        lemma_assoc(head, l0 + nl + l1 + nl + l2, end);
    } else if has_variant {
        lemma_line_step(l0, nl, "    xkb_variant "@, qv, b);
        lemma_assoc(head, l0 + nl + l1, end);
    } else if has_options {
        lemma_line_step(l0, nl, "    xkb_options "@, qo, end);
        lemma_assoc(head, l0 + nl + l2, end);
    } else {
        lemma_assoc(head, l0, end);
    }
    assert(k == head + (l0 + a));
    lemma_assoc("    xkb_layout "@, ql, a);
    lemma_assoc(head, "    xkb_layout "@, ql + a);
    assert(k == layout + (ql + a));
    lemma_quoted_field(layout, i.kb_layout, a);
    lemma_quoted_field(va, i.kb_variant, b);
    lemma_quoted_field(op, i.kb_options, c);
}

// ---------------------------------------------------------------- plugins

/// A plugin writes what its compositor reads, and recognises what it reads, under
/// its name and in its files.
pub proof fn plugins_act_for_their_compositor(
    o: OutputView,
    i: InputView,
    env: Environment,
    a: Seq<char>,
    b: Seq<char>,
    c: Seq<char>,
)
    ensures
        Plugin::Hyprland.directive(o) == Hyprland.directive(o),
        Plugin::Sway.directive(o) == Sway.directive(o),
        Plugin::Hyprland.input_texts(i) == Hyprland.input_texts(i),
        Plugin::Sway.input_texts(i) == Sway.input_texts(i),
        Plugin::Hyprland.statement(a, b, c) == Hyprland.statement(a, b, c),
        Plugin::Sway.statement(a, b, c) == Sway.statement(a, b, c),
        Plugin::Hyprland.pulls_in(a, b) == Hyprland.pulls_in(a, b),
        Plugin::Sway.pulls_in(a, b) == Sway.pulls_in(a, b),
        Plugin::Hyprland.pulls(a) == Hyprland.pulls(a),
        Plugin::Sway.pulls(a) == Sway.pulls(a),
        Plugin::Hyprland.opens(a) == Hyprland.opens(a),
        Plugin::Sway.opens(a) == Sway.opens(a),
        Plugin::Hyprland.named() == Hyprland.named(),
        Plugin::Sway.named() == Sway.named(),
        Plugin::Hyprland.labelled() == Hyprland.labelled(),
        Plugin::Sway.labelled() == Sway.labelled(),
        Plugin::Hyprland.marker() == Hyprland.marker(),
        Plugin::Sway.marker() == Sway.marker(),
        Plugin::Hyprland.runs(env) == Hyprland.runs(env),
        Plugin::Sway.runs(env) == Sway.runs(env),
        Plugin::Hyprland.dir_in(env) == Hyprland.dir_in(env),
        Plugin::Sway.dir_in(env) == Sway.dir_in(env),
        Plugin::Hyprland.main_file() == Hyprland.main_file(),
        Plugin::Sway.main_file() == Sway.main_file(),
        Plugin::Hyprland.monitors_name() == Hyprland.monitors_name(),
        Plugin::Sway.monitors_name() == Sway.monitors_name(),
        Plugin::Hyprland.input_name() == Hyprland.input_name(),
        Plugin::Sway.input_name() == Sway.input_name(),
        Plugin::Hyprland.drives() == Hyprland.drives(),
        Plugin::Sway.drives() == Sway.drives(),
{
}

// ---------------------------------------------------------------- one line

/// The word behind a comma, up to the next one.
pub open spec fn comma_field(s: Seq<char>) -> Option<Field> {
    if s.len() > 0 && s[0] == ',' {
        let t = s.skip(1);
        let n = comma_len(t) as int;
        Some(Field { value: t.take(n), rest: t.skip(n) })
    } else {
        None
    }
}

/// How far a text goes to the next comma.
pub open spec fn comma_len(s: Seq<char>) -> nat
    decreases s.len(),
{
    if s.len() == 0 || s[0] == ',' {
        0
    } else {
        1 + comma_len(s.skip(1))
    }
}

proof fn lemma_comma_len(word: Seq<char>, rest: Seq<char>)
    requires
        forall|i: int| 0 <= i < word.len() ==> #[trigger] word[i] != ',',
        rest.len() == 0 || rest[0] == ',',
    ensures
        comma_len(word + rest) == word.len(),
    decreases word.len(),
{
    let t = word + rest;
    if word.len() > 0 {
        assert(t[0] == word[0]);
        let less = word.skip(1);
        assert forall|i: int| 0 <= i < less.len() implies #[trigger] less[i] != ',' by {
            assert(less[i] == word[i + 1]);
        }
        lemma_comma_len(less, rest);
        assert(t.skip(1) =~= less + rest);
    } else if rest.len() > 0 {
        assert(t[0] == rest[0]);
    }
}

proof fn lemma_comma_field(word: Seq<char>, rest: Seq<char>)
    requires
        forall|i: int| 0 <= i < word.len() ==> #[trigger] word[i] != ',',
        rest.len() == 0 || rest[0] == ',',
    ensures
        comma_field(","@ + (word + rest)) == Some(Field { value: word, rest }),
{
    assert(","@ =~= seq![',']) by {
        reveal_strlit(",");
    }
    let s = ","@ + (word + rest);
    assert(s[0] == ',');
    let t = s.skip(1);
    assert(t =~= word + rest);
    lemma_comma_len(word, rest);
    assert(t.take(word.len() as int) =~= word);
    assert(t.skip(word.len() as int) =~= rest);
}

/// What stands behind the scale: a turn, a mirror, variable refresh, as far as
/// there is any.
pub open spec fn extras_of(o: OutputView) -> Seq<char> {
    let turn = if o.transform.code() != 0 {
        ",transform,"@ + nat_text(o.transform.code() as nat)
    } else {
        Seq::empty()
    };
    let mirror = match o.mirror_of {
        Some(target) => ",mirror,"@ + target,
        None => Seq::empty(),
    };
    let vrr = if o.vrr {
        ",vrr,1"@
    } else {
        Seq::empty()
    };
    turn + mirror + vrr
}

proof fn lemma_extras(o: OutputView)
    ensures
        extras_of(o).len() == 0 || extras_of(o)[0] == ',',
{
    reveal_strlit(",transform,");
    reveal_strlit(",mirror,");
    reveal_strlit(",vrr,1");
    let turn = if o.transform.code() != 0 {
        ",transform,"@ + nat_text(o.transform.code() as nat)
    } else {
        Seq::empty()
    };
    let mirror = match o.mirror_of {
        Some(target) => ",mirror,"@ + target,
        None => Seq::empty(),
    };
    let vrr = if o.vrr {
        ",vrr,1"@
    } else {
        Seq::empty()
    };
    if turn.len() > 0 {
        assert(extras_of(o)[0] == turn[0]);
    } else if mirror.len() > 0 {
        assert(extras_of(o)[0] == mirror[0]);
    } else if vrr.len() > 0 {
        assert(extras_of(o)[0] == vrr[0]);
    }
}

spec fn line_mode(o: OutputView) -> Seq<char> {
    match o.mode {
        Some(m) => m.shown(),
        None => "preferred"@,
    }
}

proof fn lemma_line_mode(o: OutputView)
    requires
        is_measured(o),
    ensures
        says_mode(line_mode(o), o.mode, 10_000_000),
        forall|i: int| 0 <= i < line_mode(o).len() ==> #[trigger] line_mode(o)[i] != ',',
{
    let s = line_mode(o);
    match o.mode {
        Some(m) => {
            let n = m.refresh.nanos as int;
            let a = int_text(m.width as int);
            let b = int_text(m.height as int);
            integers_read_back(m.width as int);
            integers_read_back(m.height as int);
            assert("x"@ =~= seq!['x'] && "@"@ =~= seq!['@']) by {
                reveal_strlit("x");
                reveal_strlit("@");
            }
            let k = a.len() + 1 + b.len();
            if n > 0 {
                let rate = ratio_text(n, UNIT as int, 2);
                decimals_read_back(n, 2);
                assert(pow10(7) == 10_000_000) by {
                    reveal_with_fuel(pow10, 8);
                }
                rated_modes_read_back(m.width, m.height, rate);
                lemma_nanos_in_range(rate);
                assert forall|i: int| 0 <= i < s.len() implies #[trigger] s[i] != ',' by {
                    if i < a.len() {
                        assert(s[i] == a[i]);
                    } else if a.len() < i < k {
                        assert(s[i] == b[i - a.len() - 1]);
                    } else if k < i {
                        assert(s[i] == rate[i - k - 1]);
                    }
                }
            } else {
                modes_read_back(m);
                assert forall|i: int| 0 <= i < s.len() implies #[trigger] s[i] != ',' by {
                    if i < a.len() {
                        assert(s[i] == a[i]);
                    } else if i > a.len() {
                        assert(s[i] == b[i - a.len() - 1]);
                    }
                }
            }
        },
        None => {
            reveal_strlit("preferred");
        },
    }
}

/// The one-line form of an output reads back: behind its name the mode, the
/// position and the scale, each behind a comma; behind those the turn, the mirror
/// and the variable refresh, each where there is one. An output that is off is its
/// name and `disable`.
pub proof fn one_line_forms_read_back(o: OutputView)
    requires
        is_measured(o),
    ensures
        ({
            let s = o.spec_text();
            let a = s.skip(o.name.len() as int);
            let mode = comma_field(a);
            let place = comma_field(mode->0.rest);
            let scale = comma_field(place->0.rest);
            &&& starts_with(s, o.name)
            &&& !o.enabled ==> s == o.name + ",disable"@
            &&& o.enabled ==> {
                &&& mode is Some && says_mode(mode->0.value, o.mode, 10_000_000)
                &&& place is Some && read_position(place->0.value) == Ok::<(int, int), NoticeView>(
                    (o.x, o.y),
                )
                &&& scale is Some && parse_nanos(scale->0.value) is Some && -500 <= parse_nanos(
                    scale->0.value,
                ).unwrap() - o.scale.nanos <= 500
                &&& scale->0.rest == extras_of(o)
            }
        }),
{
    let s = o.spec_text();
    if o.enabled {
        let mode = line_mode(o);
        let x = int_text(o.x);
        let y = int_text(o.y);
        let place = x + "x"@ + y;
        let scale = scale_text(o.scale);
        let rest = extras_of(o);
        lemma_line_mode(o);
        lemma_extras(o);
        lemma_quoted_position(o.x, o.y, Seq::empty());
        integers_read_back(o.x);
        integers_read_back(o.y);
        scales_read_back(o.scale);
        assert("x"@ =~= seq!['x'] && ","@ =~= seq![',']) by {
            reveal_strlit("x");
            reveal_strlit(",");
        }
        assert forall|i: int| 0 <= i < place.len() implies #[trigger] place[i] != ',' by {
            if i < x.len() {
                assert(place[i] == x[i]);
            } else if i > x.len() {
                assert(place[i] == y[i - x.len() - 1]);
            }
        }
        assert forall|i: int| 0 <= i < scale.len() implies #[trigger] scale[i] != ',' by {
            assert(is_digit(scale[i]) || scale[i] == '.');
        }
        lemma_one_line_text(o);
        lemma_one_line_fields(o.name, mode, place, scale, rest);
    } else {
        assert(s.subrange(0, o.name.len() as int) =~= o.name);
    }
}

proof fn lemma_one_line_text(o: OutputView)
    requires
        o.enabled,
    ensures
        o.spec_text() == o.name + (","@ + (line_mode(o) + (","@ + ((int_text(o.x) + "x"@ + int_text(
            o.y,
        )) + (","@ + (scale_text(o.scale) + extras_of(o))))))),
{
    let n = o.name;
    let c = ","@;
    let m = line_mode(o);
    let x = int_text(o.x);
    let y = int_text(o.y);
    let k = scale_text(o.scale);
    let e = extras_of(o);
    let base = n + c + m + c + x + "x"@ + y + c + k;
    let turn = if o.transform.code() != 0 {
        ",transform,"@ + nat_text(o.transform.code() as nat)
    } else {
        Seq::empty()
    };
    let mirror = match o.mirror_of {
        Some(target) => ",mirror,"@ + target,
        None => Seq::empty(),
    };
    let vrr = if o.vrr {
        ",vrr,1"@
    } else {
        Seq::empty()
    };
    assert(o.spec_text() == base + turn + mirror + vrr);
    lemma_assoc(base + turn, mirror, vrr);
    lemma_assoc(base, turn, mirror + vrr);
    lemma_assoc(turn, mirror, vrr);
    assert(o.spec_text() == base + e);
    lemma_regroup(n + c + m + c + x + "x"@ + y, c, k, e);
    let t = c + (k + e);
    lemma_regroup(n + c + m + c + x, "x"@, y, t);
    lemma_assoc(n + c + m + c, x, "x"@ + (y + t));
    lemma_regroup(x, "x"@, y, t);
    let place = x + "x"@ + y;
    assert(place + t == x + ("x"@ + (y + t)));
    lemma_assoc(n + c + m, c, place + t);
    lemma_assoc(n + c, m, c + (place + t));
    lemma_assoc(n, c, m + (c + (place + t)));
}

proof fn lemma_one_line_fields(
    name: Seq<char>,
    mode: Seq<char>,
    place: Seq<char>,
    scale: Seq<char>,
    rest: Seq<char>,
)
    requires
        forall|i: int| 0 <= i < mode.len() ==> #[trigger] mode[i] != ',',
        forall|i: int| 0 <= i < place.len() ==> #[trigger] place[i] != ',',
        forall|i: int| 0 <= i < scale.len() ==> #[trigger] scale[i] != ',',
        rest.len() == 0 || rest[0] == ',',
    ensures
        ({
            let s = name + (","@ + (mode + (","@ + (place + (","@ + (scale + rest))))));
            let a = comma_field(s.skip(name.len() as int));
            let b = comma_field(a->0.rest);
            let c = comma_field(b->0.rest);
            &&& starts_with(s, name)
            &&& is_field(a, mode)
            &&& is_field(b, place)
            &&& is_field(c, scale)
            &&& c->0.rest == rest
        }),
{
    assert(","@ =~= seq![',']) by {
        reveal_strlit(",");
    }
    let g2 = ","@ + (scale + rest);
    let g1 = ","@ + (place + g2);
    let g0 = ","@ + (mode + g1);
    let s = name + g0;
    assert(s.subrange(0, name.len() as int) =~= name);
    assert(s.skip(name.len() as int) =~= g0);
    lemma_comma_field(mode, g1);
    lemma_comma_field(place, g2);
    lemma_comma_field(scale, rest);
}

} // verus!
