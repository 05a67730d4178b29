//! sway: a flat `output …` configuration, `#` comments, and files pulled in by
//! path.
//!
//! The same directives that go into a file are what a running sway accepts as
//! commands, so one renderer serves both paths.

use vstd::prelude::*;

use crate::compositor::{desktop_is, desktop_names, Compositor};
use crate::env::Environment;
use crate::fixed::UNIT;
use crate::input::{InputConfig, InputView};
use crate::layout::{format_scale, scale_text, OutputState, OutputView};
use crate::monitor::{Rotation, Transform};
use crate::number::{int_string, int_text, ratio_string, ratio_text};
use crate::path::{file_name, join_path, name_of, path_join, tilde_path, tilded};
use crate::text::{
    after_prefix, begins, contains, halves, has, join, joined, lemma_views_push, lemma_without,
    lines, lines_of, removed, same, slice_string, split_once, starts_with, to_chars, trim,
    trim_start, trimmed, trimmed_start, views, without,
};

pub mod ipc;

verus! {

pub struct Sway;

/// A text without what sway's parser cannot take inside quotes.
pub open spec fn quotable(s: Seq<char>) -> Seq<char> {
    without(without(without(s, '"'), '\n'), '\r')
}

pub open spec fn quoted(s: Seq<char>) -> Seq<char> {
    "\""@ + quotable(s) + "\""@
}

/// Quotes a value the way sway's parser reads it.
///
/// sway splits on whitespace and has no escape for a double quote inside a
/// quoted word, so one is dropped rather than written out to break the line it
/// sits on. Output names come from the compositor and patterns come from the
/// user; neither is trusted.
pub fn quote(s: &str) -> (r: String)
    ensures
        r@ == quoted(s@),
{
    let mut out = "\"".to_owned();
    let a = removed(s, '"');
    let b = removed(a.as_str(), '\n');
    let c = removed(b.as_str(), '\r');
    out.append(c.as_str());
    out.append("\"");
    out
}

/// Nothing that is quoted can end its quotes or its line.
pub proof fn quoting_drops_what_breaks_out(s: Seq<char>, i: int)
    requires
        0 <= i < quotable(s).len(),
    ensures
        quotable(s)[i] != '"',
        quotable(s)[i] != '\n',
        quotable(s)[i] != '\r',
        s.contains(quotable(s)[i]),
{
    let a = without(s, '"');
    let b = without(a, '\n');
    let x = quotable(s)[i];
    lemma_without(b, '\r', i);
    let j = choose|j: int| 0 <= j < b.len() && b[j] == x;
    lemma_without(a, '\n', j);
    let k = choose|k: int| 0 <= k < a.len() && a[k] == x;
    lemma_without(s, '"', k);
}

pub open spec fn enabled_text(value: bool) -> Seq<char> {
    if value {
        "enabled"@
    } else {
        "disabled"@
    }
}

fn enabled(value: bool) -> (r: &'static str)
    ensures
        r@ == enabled_text(value),
{
    if value {
        "enabled"
    } else {
        "disabled"
    }
}

/// sway's single keyword for rotation and flipping.
pub open spec fn keyword(t: Transform) -> Seq<char> {
    match (t.flipped, t.rotation) {
        (false, Rotation::R0) => "normal"@,
        (false, Rotation::R90) => "90"@,
        (false, Rotation::R180) => "180"@,
        (false, Rotation::R270) => "270"@,
        (true, Rotation::R0) => "flipped"@,
        (true, Rotation::R90) => "flipped-90"@,
        (true, Rotation::R180) => "flipped-180"@,
        (true, Rotation::R270) => "flipped-270"@,
    }
}

/// sway's single keyword for rotation and flipping.
///
/// The flipped forms are spelled `flipped-90`, and `flipped` alone means
/// "flipped, not rotated" — there is no `flipped-0`.
pub fn transform_keyword(t: Transform) -> (r: &'static str)
    ensures
        r@ == keyword(t),
{
    match (t.flipped, t.rotation) {
        (false, Rotation::R0) => "normal",
        (false, Rotation::R90) => "90",
        (false, Rotation::R180) => "180",
        (false, Rotation::R270) => "270",
        (true, Rotation::R0) => "flipped",
        (true, Rotation::R90) => "flipped-90",
        (true, Rotation::R180) => "flipped-180",
        (true, Rotation::R270) => "flipped-270",
    }
}

/// The mode in a directive: the rate to the millihertz, with its unit.
pub open spec fn sway_mode(o: OutputView) -> Seq<char> {
    match o.mode {
        Some(m) => {
            let size = " mode "@ + int_text(m.width as int) + "x"@ + int_text(m.height as int);
            if m.refresh.nanos > 0 {
                size + "@"@ + ratio_text(m.refresh.nanos as int, UNIT as int, 3) + "Hz"@
            } else {
                size
            }
        },
        None => " mode --custom preferred"@,
    }
}

/// The `output …` line that configures an output.
pub open spec fn sway_directive(o: OutputView) -> Seq<char> {
    if !o.enabled {
        "output "@ + quoted(o.name) + " disable"@
    } else {
        let line = "output "@ + quoted(o.name) + " enable"@ + sway_mode(o) + " position "@
            + int_text(o.x) + " "@ + int_text(o.y) + " scale "@ + scale_text(o.scale)
            + " transform "@ + keyword(o.transform) + " adaptive_sync "@ + if o.vrr {
            "on"@
        } else {
            "off"@
        };
        match o.mirror_of {
            Some(target) => line + "  # mirror of "@ + target
                + " dropped: sway has no equivalent"@,
            None => line,
        }
    }
}

/// The lines inside the keyboard's block. An empty variant or option is left
/// out: sway would set it.
pub open spec fn keyboard_lines(i: InputView) -> Seq<Seq<char>> {
    let layout = seq!["    xkb_layout "@ + quoted(i.kb_layout)];
    let variant = if trim(i.kb_variant).len() > 0 {
        seq!["    xkb_variant "@ + quoted(i.kb_variant)]
    } else {
        Seq::empty()
    };
    let options = if trim(i.kb_options).len() > 0 {
        seq!["    xkb_options "@ + quoted(i.kb_options)]
    } else {
        Seq::empty()
    };
    layout + variant + options
}

/// One block per device class.
pub open spec fn sway_input(i: InputView) -> Seq<Seq<char>> {
    seq![
        "input type:keyboard {\n"@ + join(keyboard_lines(i), "\n"@) + "\n}"@,
        "input type:touchpad {\n    natural_scroll "@ + enabled_text(i.touchpad_natural_scroll)
            + "\n}"@,
        "input type:pointer {\n    natural_scroll "@ + enabled_text(i.natural_scroll) + "\n}"@,
    ]
}

pub open spec fn sway_pulls(line: Seq<char>) -> bool {
    starts_with(trim_start(line), "include "@)
}

/// What a text in quotes holds, up to the closing one; another text is itself.
pub open spec fn unquoted(t: Seq<char>) -> Seq<char> {
    if t.len() > 0 && (t[0] == '"' || t[0] == '\'') {
        match split_once(t.skip(1), t.take(1)) {
            Some((inner, _)) => inner,
            None => t.skip(1),
        }
    } else {
        t
    }
}

/// The path that an include names.
pub open spec fn sway_path(line: Seq<char>) -> Seq<char> {
    unquoted(trim(trim_start(line).skip("include "@.len() as int)))
}

fn unquote(t: &str) -> (r: String)
    ensures
        r@ == unquoted(t@),
{
    let v = to_chars(t);
    if v.len() > 0 && (v[0] == '"' || v[0] == '\'') {
        let mark = slice_string(&v, 0, 1);
        let rest = slice_string(&v, 1, v.len());
        assert(mark@ =~= t@.take(1));
        assert(rest@ =~= t@.skip(1));
        match halves(rest.as_str(), mark.as_str()) {
            Some((inner, _)) => inner,
            None => rest,
        }
    } else {
        t.to_owned()
    }
}

impl Compositor for Sway {
    open spec fn named(&self) -> Seq<char> {
        "sway"@
    }

    open spec fn labelled(&self) -> Seq<char> {
        "sway"@
    }

    open spec fn runs(&self, env: Environment) -> bool {
        env.sway_socket || desktop_names(env, "sway"@)
    }

    open spec fn dir_in(&self, env: Environment) -> Seq<char> {
        path_join(env.config_root(), "sway"@)
    }

    open spec fn main_file(&self) -> Seq<char> {
        "config"@
    }

    open spec fn monitors_name(&self) -> Seq<char> {
        "monitors.conf"@
    }

    open spec fn input_name(&self) -> Seq<char> {
        "input.conf"@
    }

    open spec fn marker(&self) -> Seq<char> {
        "#"@
    }

    open spec fn directive(&self, output: OutputView) -> Seq<char> {
        sway_directive(output)
    }

    open spec fn input_texts(&self, input: InputView) -> Seq<Seq<char>> {
        sway_input(input)
    }

    open spec fn statement(&self, main: Seq<char>, generated: Seq<char>, home: Seq<char>) -> Seq<
        char,
    > {
        "include "@ + quoted(tilded(generated, home))
    }

    open spec fn pulls_in(&self, line: Seq<char>, generated: Seq<char>) -> bool {
        match file_name(generated) {
            Some(name) => sway_pulls(line) && file_name(sway_path(line)) == Some(name),
            None => false,
        }
    }

    open spec fn pulls(&self, line: Seq<char>) -> bool {
        sway_pulls(line)
    }

    open spec fn opens(&self, line: Seq<char>) -> bool {
        starts_with(trim_start(line), "output "@)
    }

    open spec fn drives(&self) -> bool {
        true
    }

    fn id(&self) -> (r: &'static str) {
        "sway"
    }

    fn label(&self) -> (r: &'static str) {
        "sway"
    }

    fn running(&self, env: &Environment) -> (r: bool) {
        env.sway_socket || desktop_is(env, "sway")
    }

    fn config_dir(&self, env: &Environment) -> (r: String) {
        env.config_subdir("sway")
    }

    fn main_config(&self, env: &Environment) -> (r: String) {
        join_path(self.config_dir(env).as_str(), "config")
    }

    fn monitors_file(&self) -> (r: &'static str) {
        "monitors.conf"
    }

    fn input_file(&self) -> (r: &'static str) {
        "input.conf"
    }

    fn comment(&self) -> (r: &'static str) {
        proof {
            reveal_strlit("#");
        }
        "#"
    }

    /// One `output …` line per screen.
    ///
    /// Every field we own is stated, for the same reason as under Hyprland: sway
    /// keeps whatever a previous line set, so an omitted `transform` would let a
    /// rotation outlive its own removal.
    ///
    /// Mirroring has no equivalent — `wl-mirror` is the usual answer — so a
    /// mirrored output is written as the plain output it is, with a comment
    /// saying what was dropped.
    fn output_directive(&self, o: &OutputState) -> (r: String) {
        let mut line = "output ".to_owned();
        line.append(quote(o.name.as_str()).as_str());
        if !o.enabled {
            line.append(" disable");
            return line;
        }
        line.append(" enable");
        line.append(mode_part(o).as_str());
        line.append(" position ");
        line.append(int_string(o.x as i64).as_str());
        line.append(" ");
        line.append(int_string(o.y as i64).as_str());
        line.append(" scale ");
        line.append(format_scale(o.scale).as_str());
        line.append(" transform ");
        line.append(transform_keyword(o.transform));
        line.append(" adaptive_sync ");
        if o.vrr {
            line.append("on");
        } else {
            line.append("off");
        }
        if let Some(target) = &o.mirror_of {
            line.append("  # mirror of ");
            line.append(target.as_str());
            line.append(" dropped: sway has no equivalent");
        }
        line
    }

    /// One block per device class, because that is how sway addresses devices.
    ///
    /// `type:keyboard` and `type:pointer` rather than `*`: applying a touchpad
    /// setting to every input device is how you end up with a mouse that scrolls
    /// backwards.
    fn input_directives(&self, input: &InputConfig) -> (r: Vec<String>) {
        let mut keyboard: Vec<String> = Vec::new();
        let mut layout = "    xkb_layout ".to_owned();
        layout.append(quote(input.kb_layout.as_str()).as_str());
        keyboard.push(layout);
        if trimmed(input.kb_variant.as_str()).as_str().unicode_len() > 0 {
            let mut variant = "    xkb_variant ".to_owned();
            variant.append(quote(input.kb_variant.as_str()).as_str());
            keyboard.push(variant);
        }
        if trimmed(input.kb_options.as_str()).as_str().unicode_len() > 0 {
            let mut options = "    xkb_options ".to_owned();
            options.append(quote(input.kb_options.as_str()).as_str());
            keyboard.push(options);
        }
        assert(views(keyboard@) =~= keyboard_lines(input@));
        let mut a = "input type:keyboard {\n".to_owned();
        a.append(joined(&keyboard, "\n").as_str());
        a.append("\n}");
        let mut b = "input type:touchpad {\n    natural_scroll ".to_owned();
        b.append(enabled(input.touchpad_natural_scroll));
        b.append("\n}");
        let mut c = "input type:pointer {\n    natural_scroll ".to_owned();
        c.append(enabled(input.natural_scroll));
        c.append("\n}");
        let mut r: Vec<String> = Vec::new();
        r.push(a);
        r.push(b);
        r.push(c);
        assert(views(r@) =~= sway_input(input@));
        r
    }

    /// The statement takes a path, and understands `~`.
    fn include_statement(&self, main: &str, generated: &str, home: &str) -> (r: String) {
        let mut s = "include ".to_owned();
        s.append(quote(tilde_path(generated, home).as_str()).as_str());
        s
    }

    fn includes(&self, line: &str, generated: &str) -> (r: bool) {
        let name = match name_of(generated) {
            Some(name) => name,
            None => {
                return false;
            },
        };
        match after_prefix(trimmed_start(line).as_str(), "include ") {
            Some(rest) => match name_of(unquote(trimmed(rest.as_str()).as_str()).as_str()) {
                Some(n) => same(n.as_str(), name.as_str()),
                None => false,
            },
            None => false,
        }
    }

    fn is_include(&self, line: &str) -> (r: bool) {
        begins(trimmed_start(line).as_str(), "include ")
    }

    /// `output` at the start of the directive only: `workspace 1 output DP-1`
    /// assigns a workspace and is none of our business.
    fn opens_output(&self, line: &str) -> (r: bool) {
        begins(trimmed_start(line).as_str(), "output ")
    }

    fn drives_sessions(&self) -> (r: bool) {
        true
    }
}

fn mode_part(o: &OutputState) -> (r: String)
    ensures
        r@ == sway_mode(o@),
{
    match o.mode {
        Some(m) => {
            let mut s = " mode ".to_owned();
            s.append(int_string(m.width as i64).as_str());
            s.append("x");
            s.append(int_string(m.height as i64).as_str());
            if m.refresh.nanos > 0 {
                s.append("@");
                s.append(ratio_string(m.refresh.nanos, UNIT, 3).as_str());
                s.append("Hz");
            }
            s
        },
        None => " mode --custom preferred".to_owned(),
    }
}

/// `s` without the closing braces, line ends and spaces it ends with.
pub open spec fn strip_closing(s: Seq<char>) -> Seq<char>
    decreases s.len(),
{
    if s.len() > 0 && (s.last() == '}' || s.last() == '\n' || s.last() == ' ') {
        strip_closing(s.drop_last())
    } else {
        s
    }
}

/// The settings inside a block, each behind the block's head.
pub open spec fn settings(head: Seq<char>, ls: Seq<Seq<char>>) -> Seq<Seq<char>>
    decreases ls.len(),
{
    if ls.len() == 0 {
        Seq::empty()
    } else {
        let before = settings(head, ls.drop_last());
        let line = trim(ls.last());
        if line.len() == 0 {
            before
        } else {
            before.push(head + " "@ + line)
        }
    }
}

/// A rendered block as a runtime command: the settings without the braces.
pub open spec fn flat(block: Seq<char>) -> Seq<char> {
    match split_once(block, "{"@) {
        None => block,
        Some((head, body)) => join(settings(trim(head), lines(strip_closing(body))), ", "@),
    }
}

/// Turns a rendered `input type:x {\n  a b\n}` block into `input type:x a b`.
///
/// sway accepts both, but only the one-line form as a runtime command. A block
/// with several settings becomes several commands joined by `,`, which is how
/// sway chains them.
pub fn flatten(block: &str) -> (r: String)
    ensures
        r@ == flat(block@),
{
    match halves(block, "{") {
        None => block.to_owned(),
        Some((head, body)) => {
            let v = to_chars(body.as_str());
            let mut n: usize = v.len();
            assert(v@.take(n as int) =~= v@);
            while n > 0 && (v[n - 1] == '}' || v[n - 1] == '\n' || v[n - 1] == ' ')
                invariant
                    n <= v@.len(),
                    strip_closing(v@.take(n as int)) == strip_closing(v@),
                decreases n,
            {
                assert(v@.take(n as int).drop_last() =~= v@.take(n - 1));
                n = n - 1;
            }
            assert(v@.subrange(0, n as int) =~= v@.take(n as int));
            let inside = slice_string(&v, 0, n);
            let ls = lines_of(inside.as_str());
            joined(&settings_of(trimmed(head.as_str()).as_str(), &ls), ", ")
        },
    }
}

fn settings_of(head: &str, ls: &Vec<String>) -> (r: Vec<String>)
    ensures
        views(r@) == settings(head@, views(ls@)),
{
    let ghost all = views(ls@);
    let mut r: Vec<String> = Vec::new();
    let mut i: usize = 0;
    assert(views(r@) =~= Seq::empty());
    while i < ls.len()
        invariant
            i <= ls@.len(),
            all == views(ls@),
            views(r@) == settings(head@, all.take(i as int)),
        decreases ls@.len() - i,
    {
        assert(all.take(i + 1).drop_last() =~= all.take(i as int));
        let line = trimmed(ls[i].as_str());
        if line.as_str().unicode_len() > 0 {
            let mut s = head.to_owned();
            s.append(" ");
            s.append(line.as_str());
            proof {
                lemma_views_push(r@, s);
            }
            r.push(s);
        }
        i = i + 1;
    }
    assert(all.take(all.len() as int) =~= all);
    r
}

/// What a session sends to a running sway.
#[derive(Debug, Clone)]
pub struct SwaySession {
    pub socket: String,
}

impl SwaySession {
    pub fn new(socket: String) -> (r: Self)
        ensures
            r.socket@ == socket@,
    {
        SwaySession { socket }
    }

    /// The command that moves the focus to an output.
    pub fn focus(&self, output: &str) -> (r: String)
        ensures
            r@ == "focus output "@ + quoted(output@),
    {
        let mut s = "focus output ".to_owned();
        s.append(quote(output).as_str());
        s
    }

    /// The commands that carry keyboard and pointer settings.
    ///
    /// The rendered blocks are multi-line for the file; runtime commands want
    /// one line, so the braces are flattened away.
    pub fn apply_input(&self, input: &InputConfig) -> (r: Vec<String>)
        ensures
            views(r@) == sway_input(input@).map_values(|b: Seq<char>| flat(b)),
    {
        let blocks = Sway.input_directives(input);
        let ghost want = sway_input(input@).map_values(|b: Seq<char>| flat(b));
        let mut r: Vec<String> = Vec::new();
        let mut i: usize = 0;
        assert(views(blocks@) == sway_input(input@));
        assert(views(blocks@).len() == blocks@.len());
        while i < blocks.len()
            invariant
                i <= blocks@.len(),
                views(blocks@) == sway_input(input@),
                want == sway_input(input@).map_values(|b: Seq<char>| flat(b)),
                want.len() == blocks@.len(),
                views(r@) == want.take(i as int),
            decreases blocks@.len() - i,
        {
            let s = flatten(blocks[i].as_str());
            assert(views(blocks@)[i as int] == blocks@[i as int]@);
            proof {
                lemma_views_push(r@, s);
            }
            r.push(s);
            i = i + 1;
            assert(views(r@) =~= want.take(i as int));
        }
        assert(views(r@) =~= want);
        r
    }
}

} // verus!
