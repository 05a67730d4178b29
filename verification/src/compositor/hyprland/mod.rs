//! Hyprland, since 0.55: a Lua configuration, and `/eval` to reconfigure a
//! running session.

use vstd::prelude::*;

use crate::compositor::{desktop_is, desktop_names, Compositor};
use crate::env::Environment;
use crate::fixed::UNIT;
use crate::i18n::Locale;
use crate::input::{InputConfig, InputView};
use crate::layout::{format_scale, scale_text, OutputState, OutputView};
use crate::notice::{note, Notice, NoticeId};
use crate::number::{int_string, int_text, nat_string, nat_text, ratio_string, ratio_text};
use crate::path::{
    are_neighbours, file_name, join_path, name_of, path_join, same_parent, stem, stem_of,
};
use crate::text::{
    contains, has, join, joined, occurs, occurs_at, same, start_of, to_chars, trim_start, view_opt,
    views,
};

pub mod ipc;

verus! {

pub struct Hyprland;

/// A character as it is written between the quotes of a Lua string.
pub open spec fn lua_escape(c: char) -> Seq<char> {
    if c == '\\' {
        seq!['\\', '\\']
    } else if c == '"' {
        seq!['\\', '"']
    } else if c == '\n' {
        seq!['\\', 'n']
    } else if c == '\r' {
        seq!['\\', 'r']
    } else {
        seq![c]
    }
}

pub open spec fn lua_body(s: Seq<char>) -> Seq<char>
    decreases s.len(),
{
    if s.len() == 0 {
        Seq::empty()
    } else {
        lua_escape(s[0]) + lua_body(s.skip(1))
    }
}

/// A text as a Lua string literal.
pub open spec fn lua_text(s: Seq<char>) -> Seq<char> {
    seq!['"'] + lua_body(s) + seq!['"']
}

/// The text that a Lua string literal stands for from behind its opening quote
/// on, and what follows its closing one.
pub open spec fn lua_read(s: Seq<char>, quote: char) -> Option<(Seq<char>, Seq<char>)>
    decreases s.len(),
{
    if s.len() == 0 || s[0] == '\n' || s[0] == '\r' {
        None
    } else if s[0] == quote {
        Some((Seq::empty(), s.skip(1)))
    } else if s[0] == '\\' {
        if s.len() < 2 {
            None
        } else {
            ahead(seq![lua_unescape(s[1])], lua_read(s.skip(2), quote))
        }
    } else {
        ahead(seq![s[0]], lua_read(s.skip(1), quote))
    }
}

/// The character that a backslash and another one stand for.
pub open spec fn lua_unescape(c: char) -> char {
    if c == 'n' {
        '\n'
    } else if c == 'r' {
        '\r'
    } else {
        c
    }
}

/// What was read, with some text ahead of it.
pub open spec fn ahead(text: Seq<char>, read: Option<(Seq<char>, Seq<char>)>) -> Option<
    (Seq<char>, Seq<char>),
> {
    match read {
        Some((value, rest)) => Some((text + value, rest)),
        None => None,
    }
}

/// The string literal that an expression starts with, in either kind of quotes.
pub open spec fn lua_literal(s: Seq<char>) -> Option<Seq<char>> {
    let t = trim_start(s);
    if t.len() > 0 && (t[0] == '"' || t[0] == '\'') {
        match lua_read(t.skip(1), t[0]) {
            Some((value, _)) => Some(value),
            None => None,
        }
    } else {
        None
    }
}

/// Lua reads every quoted text back as it was: no text can break out of its
/// quotes.
pub proof fn lua_strings_read_back(s: Seq<char>, rest: Seq<char>)
    ensures
        lua_read(lua_text(s).skip(1) + rest, '"') == Some((s, rest)),
    decreases s.len(),
{
    let whole = lua_text(s).skip(1) + rest;
    if s.len() == 0 {
        assert(whole =~= seq!['"'] + rest);
        assert(whole.skip(1) =~= rest);
        assert(s =~= Seq::empty());
    } else {
        let tail = lua_text(s.skip(1)).skip(1) + rest;
        lua_strings_read_back(s.skip(1), rest);
        let e = lua_escape(s[0]);
        assert(whole =~= e + tail);
        assert(whole.skip(e.len() as int) =~= tail);
        assert(seq![s[0]] + s.skip(1) =~= s);
    }
}

/// A text without the characters that are escaped stands in its literal as it is.
pub proof fn plain_text_stands_in_its_literal(s: Seq<char>)
    requires
        forall|i: int|
            0 <= i < s.len() ==> s[i] != '\\' && s[i] != '"' && s[i] != '\n' && s[i] != '\r',
    ensures
        lua_text(s) == seq!['"'] + s + seq!['"'],
    decreases s.len(),
{
    if s.len() > 0 {
        let t = s.skip(1);
        assert forall|i: int| 0 <= i < t.len() implies t[i] != '\\' && t[i] != '"' && t[i] != '\n'
            && t[i] != '\r' by {
            assert(t[i] == s[i + 1]);
        }
        plain_text_stands_in_its_literal(t);
        assert(lua_text(t).subrange(1, lua_text(t).len() - 1) =~= lua_body(t));
        assert((seq!['"'] + t + seq!['"']).subrange(1, (t.len() + 1) as int) =~= t);
        assert(lua_body(t) == t);
        assert(seq![s[0]] + t =~= s);
    } else {
        assert(lua_body(s) =~= s);
    }
}

/// Quotes a value as a Lua string literal.
///
/// Output names come from the compositor and profile rules come from the user:
/// neither is trusted to be free of quotes or backslashes.
pub fn lua_string(s: &str) -> (r: String)
    ensures
        r@ == lua_text(s@),
{
    let v = to_chars(s);
    let mut out = String::new();
    out.push('"');
    let mut i: usize = 0;
    assert(v@.skip(0) =~= v@);
    assert(out@ + lua_body(s@) =~= seq!['"'] + lua_body(s@));
    while i < v.len()
        invariant
            i <= v@.len(),
            out@ + lua_body(v@.skip(i as int)) == seq!['"'] + lua_body(s@),
        decreases v@.len() - i,
    {
        let ghost before = out@;
        let ghost rest = v@.skip(i as int);
        let c = v[i];
        if c == '\\' {
            out.push('\\');
            out.push('\\');
        } else if c == '"' {
            out.push('\\');
            out.push('"');
        } else if c == '\n' {
            out.push('\\');
            out.push('n');
        } else if c == '\r' {
            out.push('\\');
            out.push('r');
        } else {
            out.push(c);
        }
        assert(out@ =~= before + lua_escape(c));
        assert(rest.skip(1) =~= v@.skip(i + 1));
        assert(out@ + lua_body(v@.skip(i + 1)) =~= before + lua_body(rest));
        i = i + 1;
    }
    assert(v@.skip(v@.len() as int) =~= Seq::empty());
    assert(out@ =~= seq!['"'] + lua_body(s@));
    out.push('"');
    assert(out@ =~= lua_text(s@));
    out
}

/// `true` or `false`.
pub open spec fn bool_text(b: bool) -> Seq<char> {
    if b {
        "true"@
    } else {
        "false"@
    }
}

fn bool_str(b: bool) -> (r: &'static str)
    ensures
        r@ == bool_text(b),
{
    if b {
        "true"
    } else {
        "false"
    }
}

/// The mode in a directive.
pub open spec fn hypr_mode(o: OutputView) -> Seq<char> {
    match o.mode {
        Some(m) => int_text(m.width as int) + "x"@ + int_text(m.height as int) + "@"@ + ratio_text(
            m.refresh.nanos as int,
            UNIT as int,
            2,
        ),
        None => "preferred"@,
    }
}

/// The `hl.monitor{…}` call that configures an output.
pub open spec fn hypr_directive(o: OutputView) -> Seq<char> {
    if !o.enabled {
        "hl.monitor({ output = "@ + lua_text(o.name) + ", disabled = true })"@
    } else {
        "hl.monitor({ output = "@ + lua_text(o.name) + ", mode = "@ + lua_text(hypr_mode(o))
            + ", position = \""@ + int_text(o.x) + "x"@ + int_text(o.y) + "\", scale = "@
            + scale_text(o.scale) + ", transform = "@ + nat_text(o.transform.code() as nat)
            + ", mirror = "@ + lua_text(
            match o.mirror_of {
                Some(target) => target,
                None => Seq::empty(),
            },
        ) + ", vrr = "@ + nat_text(
            if o.vrr {
                1
            } else {
                0
            },
        ) + ", disabled = false })"@
    }
}

/// The `hl.config{…}` call that carries the keyboard and pointer settings.
pub open spec fn hypr_input(i: InputView) -> Seq<char> {
    "hl.config({ input = { kb_layout = "@ + lua_text(i.kb_layout) + ", kb_variant = "@ + lua_text(
        i.kb_variant,
    ) + ", kb_options = "@ + lua_text(i.kb_options) + ", natural_scroll = "@ + bool_text(
        i.natural_scroll,
    ) + ", touchpad = { natural_scroll = "@ + bool_text(i.touchpad_natural_scroll) + " } } })"@
}

/// `require` for a neighbour of the main configuration, `dofile` otherwise.
pub open spec fn hypr_statement(main: Seq<char>, generated: Seq<char>) -> Seq<char> {
    match file_name(generated) {
        Some(name) => if same_parent(generated, main) {
            "require("@ + lua_text(stem(name)) + ")"@
        } else {
            "dofile("@ + lua_text(generated) + ")"@
        },
        None => "dofile("@ + lua_text(generated) + ")"@,
    }
}

pub open spec fn hypr_pulls(line: Seq<char>) -> bool {
    contains(line, "require("@) || contains(line, "dofile("@)
}

/// Whether a call at `k` is given the file with that name: as a module, by its
/// stem, or by a path that ends in the name. Behind a comment's marker nothing is
/// called.
pub open spec fn hypr_call(line: Seq<char>, name: Seq<char>, k: int) -> bool {
    &&& 0 <= k <= line.len()
    &&& !contains(line.take(k), "--"@)
    &&& {
        ||| occurs_at(line, "require("@, k) && match lua_literal(line.skip(k + 8)) {
            Some(arg) => arg == stem(name) || file_name(arg) == Some(name),
            None => false,
        }
        ||| occurs_at(line, "dofile("@, k) && match lua_literal(line.skip(k + 7)) {
            Some(arg) => file_name(arg) == Some(name),
            None => false,
        }
    }
}

pub open spec fn hypr_pulls_in(line: Seq<char>, generated: Seq<char>) -> bool {
    match file_name(generated) {
        Some(name) => exists|k: int| #[trigger] hypr_call(line, name, k),
        None => false,
    }
}

/// The literal from behind its opening quote on.
fn read_quoted(v: &Vec<char>, from: usize, quote: char) -> (r: Option<String>)
    requires
        from <= v@.len(),
    ensures
        match (r, lua_read(v@.skip(from as int), quote)) {
            (Some(text), Some((value, _))) => text@ == value,
            (None, None) => true,
            _ => false,
        },
{
    let ghost whole = lua_read(v@.skip(from as int), quote);
    let mut out = String::new();
    let mut i: usize = from;
    proof {
        if let Some((value, _)) = whole {
            assert(Seq::<char>::empty() + value =~= value);
        }
    }
    while i < v.len()
        invariant
            from <= i <= v@.len(),
            whole == lua_read(v@.skip(from as int), quote),
            ahead(out@, lua_read(v@.skip(i as int), quote)) == whole,
        decreases v@.len() - i,
    {
        let ghost rest = v@.skip(i as int);
        let ghost before = out@;
        let c = v[i];
        assert(rest[0] == c);
        if c == '\n' || c == '\r' {
            return None;
        }
        if c == quote {
            assert(before + Seq::<char>::empty() =~= before);
            return Some(out);
        }
        if c == '\\' {
            if v.len() - i < 2 {
                return None;
            }
            let d = v[i + 1];
            assert(rest[1] == d);
            out.push(
                if d == 'n' {
                    '\n'
                } else if d == 'r' {
                    '\r'
                } else {
                    d
                },
            );
            assert(rest.skip(2) =~= v@.skip(i + 2));
            i = i + 2;
        } else {
            out.push(c);
            assert(rest.skip(1) =~= v@.skip(i + 1));
            i = i + 1;
        }
        proof {
            if let Some((value, _)) = lua_read(v@.skip(i as int), quote) {
                assert(out@ + value =~= before + (seq![out@.last()] + value));
            }
        }
    }
    assert(v@.skip(i as int).len() == 0);
    None
}

/// The string literal that stands next.
fn read_literal(v: &Vec<char>, from: usize) -> (r: Option<String>)
    requires
        from <= v@.len(),
    ensures
        view_opt(r) == lua_literal(v@.skip(from as int)),
{
    let at: usize = start_of(v, from);
    let ghost t = v@.skip(at as int);
    if at < v.len() && (v[at] == '"' || v[at] == '\'') {
        assert(t.skip(1) =~= v@.skip(at + 1));
        read_quoted(v, at + 1, v[at])
    } else {
        None
    }
}

/// Whether a path ends in the name.
fn ends_in(path: &str, name: &str) -> (r: bool)
    ensures
        r == (file_name(path@) == Some(name@)),
{
    match name_of(path) {
        Some(n) => same(n.as_str(), name),
        None => false,
    }
}

/// Behind a marker every position is commented out.
proof fn lemma_commented(line: Seq<char>, k: int)
    requires
        2 <= k <= line.len(),
        occurs_at(line, "--"@, k - 2),
    ensures
        forall|j: int, name: Seq<char>| k <= j ==> !#[trigger] hypr_call(line, name, j),
{
    reveal_strlit("--");
    assert forall|j: int, name: Seq<char>| k <= j implies !#[trigger] hypr_call(line, name, j) by {
        if j <= line.len() {
            let part = line.take(j);
            assert(part.subrange(k - 2, k) =~= line.subrange(k - 2, k));
            assert(occurs_at(part, "--"@, k - 2));
        }
    }
}

/// One position on, only a marker that ends there can be new.
proof fn lemma_uncommented(line: Seq<char>, k: int)
    requires
        0 <= k <= line.len(),
        k == 0 || !contains(line.take(k - 1), "--"@),
        k >= 2 ==> !occurs_at(line, "--"@, k - 2),
    ensures
        !contains(line.take(k), "--"@),
{
    reveal_strlit("--");
    let part = line.take(k);
    if contains(part, "--"@) {
        let j = choose|j: int| occurs_at(part, "--"@, j);
        assert(part.subrange(j, j + 2) =~= line.subrange(j, j + 2));
        if j + 2 < k {
            let less = line.take(k - 1);
            assert(less.subrange(j, j + 2) =~= line.subrange(j, j + 2));
            assert(occurs_at(less, "--"@, j));
        } else {
            assert(occurs_at(line, "--"@, k - 2));
        }
    }
}

fn is_call(v: &Vec<char>, name: &str, k: usize) -> (r: bool)
    requires
        k <= v@.len(),
        !contains(v@.take(k as int), "--"@),
    ensures
        r == hypr_call(v@, name@, k as int),
{
    let require = to_chars("require(");
    let dofile = to_chars("dofile(");
    proof {
        reveal_strlit("require(");
        reveal_strlit("dofile(");
    }
    if occurs(v, &require, k) {
        assert(k + 8 <= v.len());
        if let Some(arg) = read_literal(v, k + 8) {
            if same(arg.as_str(), stem_of(name).as_str()) || ends_in(arg.as_str(), name) {
                return true;
            }
        }
    }
    if occurs(v, &dofile, k) {
        assert(k + 7 <= v.len());
        if let Some(arg) = read_literal(v, k + 7) {
            return ends_in(arg.as_str(), name);
        }
    }
    false
}

impl Compositor for Hyprland {
    open spec fn named(&self) -> Seq<char> {
        "hyprland"@
    }

    open spec fn labelled(&self) -> Seq<char> {
        "Hyprland"@
    }

    open spec fn runs(&self, env: Environment) -> bool {
        env.hyprland_signature || desktop_names(env, "Hyprland"@)
    }

    open spec fn dir_in(&self, env: Environment) -> Seq<char> {
        path_join(env.config_root(), "hypr"@)
    }

    open spec fn main_file(&self) -> Seq<char> {
        "hyprland.lua"@
    }

    open spec fn monitors_name(&self) -> Seq<char> {
        "monitors.lua"@
    }

    open spec fn input_name(&self) -> Seq<char> {
        "inputs.lua"@
    }

    open spec fn marker(&self) -> Seq<char> {
        "--"@
    }

    open spec fn directive(&self, output: OutputView) -> Seq<char> {
        hypr_directive(output)
    }

    open spec fn input_texts(&self, input: InputView) -> Seq<Seq<char>> {
        seq![hypr_input(input)]
    }

    open spec fn statement(&self, main: Seq<char>, generated: Seq<char>, home: Seq<char>) -> Seq<
        char,
    > {
        hypr_statement(main, generated)
    }

    open spec fn pulls_in(&self, line: Seq<char>, generated: Seq<char>) -> bool {
        hypr_pulls_in(line, generated)
    }

    open spec fn pulls(&self, line: Seq<char>) -> bool {
        hypr_pulls(line)
    }

    open spec fn opens(&self, line: Seq<char>) -> bool {
        contains(line, "hl.monitor("@)
    }

    open spec fn drives(&self) -> bool {
        true
    }

    fn id(&self) -> (r: &'static str) {
        "hyprland"
    }

    fn label(&self) -> (r: &'static str) {
        "Hyprland"
    }

    fn running(&self, env: &Environment) -> (r: bool) {
        env.hyprland_signature || desktop_is(env, "Hyprland")
    }

    fn config_dir(&self, env: &Environment) -> (r: String) {
        env.config_subdir("hypr")
    }

    fn main_config(&self, env: &Environment) -> (r: String) {
        join_path(self.config_dir(env).as_str(), "hyprland.lua")
    }

    fn monitors_file(&self) -> (r: &'static str) {
        "monitors.lua"
    }

    /// `inputs.lua`, not `input.lua`: the file is pulled in with
    /// `require("<stem>")`, and `input` is already taken in Hyprland's Lua
    /// environment — requiring it would resolve to that module instead of ours.
    fn input_file(&self) -> (r: &'static str) {
        "inputs.lua"
    }

    fn comment(&self) -> (r: &'static str) {
        proof {
            reveal_strlit("--");
        }
        "--"
    }

    /// Renders the `hl.monitor{…}` call that configures this output.
    ///
    /// Hyprland's Lua rules are cumulative: a field left out keeps whatever an
    /// earlier call gave it. Every field we own is therefore always written out,
    /// otherwise a mirror or a rotation would survive its own removal.
    fn output_directive(&self, o: &OutputState) -> (r: String) {
        let mut s = "hl.monitor({ output = ".to_owned();
        s.append(lua_string(o.name.as_str()).as_str());
        if !o.enabled {
            s.append(", disabled = true })");
            return s;
        }
        s.append(", mode = ");
        let mode = match o.mode {
            Some(m) => {
                let mut t = int_string(m.width as i64);
                t.append("x");
                t.append(int_string(m.height as i64).as_str());
                t.append("@");
                t.append(ratio_string(m.refresh.nanos, UNIT, 2).as_str());
                t
            },
            None => "preferred".to_owned(),
        };
        s.append(lua_string(mode.as_str()).as_str());
        s.append(", position = \"");
        s.append(int_string(o.x as i64).as_str());
        s.append("x");
        s.append(int_string(o.y as i64).as_str());
        s.append("\", scale = ");
        s.append(format_scale(o.scale).as_str());
        s.append(", transform = ");
        s.append(nat_string(o.transform.to_u8() as u128).as_str());
        s.append(", mirror = ");
        let target = match &o.mirror_of {
            Some(t) => t.clone(),
            None => String::new(),
        };
        assert(target@ =~= match o@.mirror_of {
            Some(t) => t,
            None => Seq::empty(),
        });
        s.append(lua_string(target.as_str()).as_str());
        s.append(", vrr = ");
        let vrr: u128 = if o.vrr {
            1
        } else {
            0
        };
        s.append(nat_string(vrr).as_str());
        s.append(", disabled = false })");
        s
    }

    /// One `hl.config{…}` call carrying every setting.
    ///
    /// One call rather than one per field: the compositor reconfigures the
    /// devices once, and a half-applied keyboard is not a state anyone wants to
    /// debug.
    fn input_directives(&self, input: &InputConfig) -> (r: Vec<String>) {
        let mut s = "hl.config({ input = { kb_layout = ".to_owned();
        s.append(lua_string(input.kb_layout.as_str()).as_str());
        s.append(", kb_variant = ");
        s.append(lua_string(input.kb_variant.as_str()).as_str());
        s.append(", kb_options = ");
        s.append(lua_string(input.kb_options.as_str()).as_str());
        s.append(", natural_scroll = ");
        s.append(bool_str(input.natural_scroll));
        s.append(", touchpad = { natural_scroll = ");
        s.append(bool_str(input.touchpad_natural_scroll));
        s.append(" } } })");
        let mut r: Vec<String> = Vec::new();
        r.push(s);
        assert(views(r@) =~= seq![hypr_input(input@)]);
        r
    }

    /// `require("monitors")` when the file is a neighbour, `dofile` otherwise.
    ///
    /// Hyprland's `package.path` only covers its own configuration directory, so
    /// `require` works exactly when both files sit side by side; a generated file
    /// placed anywhere else is loaded by absolute path.
    fn include_statement(&self, main: &str, generated: &str, home: &str) -> (r: String) {
        if let Some(name) = name_of(generated) {
            if are_neighbours(generated, main) {
                let mut s = "require(".to_owned();
                s.append(lua_string(stem_of(name.as_str()).as_str()).as_str());
                s.append(")");
                return s;
            }
        }
        let mut s = "dofile(".to_owned();
        s.append(lua_string(generated).as_str());
        s.append(")");
        s
    }

    fn includes(&self, line: &str, generated: &str) -> (r: bool) {
        let name = match name_of(generated) {
            Some(name) => name,
            None => {
                return false;
            },
        };
        let v = to_chars(line);
        let marker = to_chars("--");
        let mut k: usize = 0;
        proof {
            reveal_strlit("--");
        }
        while k <= v.len()
            invariant
                k <= v@.len() + 1,
                v@ == line@,
                marker@ == "--"@,
                marker@.len() == 2,
                Some(name@) == file_name(generated@),
                k == 0 || !contains(v@.take(k - 1), "--"@),
                forall|j: int| 0 <= j < k ==> !#[trigger] hypr_call(v@, name@, j),
            decreases v@.len() + 1 - k,
        {
            if k >= 2 && occurs(&v, &marker, k - 2) {
                proof {
                    lemma_commented(v@, k as int);
                }
                return false;
            }
            proof {
                lemma_uncommented(v@, k as int);
            }
            if is_call(&v, name.as_str(), k) {
                assert(hypr_call(line@, name@, k as int));
                assert(hypr_call(line@, file_name(generated@).unwrap(), k as int));
                return true;
            }
            if k == v.len() {
                return false;
            }
            k = k + 1;
        }
        false
    }

    fn is_include(&self, line: &str) -> (r: bool) {
        has(line, "require(") || has(line, "dofile(")
    }

    fn opens_output(&self, line: &str) -> (r: bool) {
        has(line, "hl.monitor(")
    }

    fn drives_sessions(&self) -> (r: bool) {
        true
    }
}

/// What a session sends to a running Hyprland.
///
/// Since 0.55 the configuration is Lua and `keyword` is refused outright
/// ("keyword can't work with non-legacy parsers"), so every change goes through
/// `/eval`.
#[derive(Debug, Clone)]
pub struct HyprSession {
    pub sockets: ipc::HyprSocket,
}

impl HyprSession {
    pub fn new(sockets: ipc::HyprSocket) -> (r: Self)
        ensures
            r.sockets == sockets,
    {
        HyprSession { sockets }
    }

    /// The request that carries directives, if there are any.
    ///
    /// Every call travels in a *single* request: `[[BATCH]]` would cut the Lua in
    /// half at the first `;`, and one request also means the compositor
    /// reconfigures the outputs once rather than once per screen.
    pub fn apply(&self, directives: &Vec<String>) -> (r: Option<String>)
        ensures
            view_opt(r) == if directives@.len() == 0 {
                None
            } else {
                Some("/eval "@ + join(views(directives@), " "@))
            },
    {
        if directives.len() == 0 {
            return None;
        }
        let mut s = "/eval ".to_owned();
        s.append(joined(directives, " ").as_str());
        Some(s)
    }

    /// The request that moves the focus to an output.
    ///
    /// A dispatcher rather than a configuration change: this is the runtime half
    /// of "main screen".
    pub fn focus(&self, output: &str) -> (r: String)
        ensures
            r@ == "dispatch focusmonitor "@ + output@,
    {
        let mut s = "dispatch focusmonitor ".to_owned();
        s.append(output);
        s
    }

    /// The request that carries keyboard and pointer settings.
    pub fn apply_input(&self, input: &InputConfig) -> (r: String)
        ensures
            r@ == "/eval "@ + hypr_input(input@),
    {
        let mut s = "/eval ".to_owned();
        s.append(self.input_lua(input).as_str());
        s
    }

    /// The `hl.config{…}` call carrying the input settings.
    pub fn input_lua(&self, input: &InputConfig) -> (r: String)
        ensures
            r@ == hypr_input(input@),
    {
        let d = Hyprland.input_directives(input);
        proof {
            assert(views(d@) == seq![hypr_input(input@)]);
            reveal_with_fuel(join, 2);
        }
        joined(&d, " ")
    }
}

/// Header of the generated monitor file.
pub fn monitors_header(locale: Locale) -> (r: String)
    ensures
        r@ == note(NoticeId::EmitHeader, seq![]).said(locale),
{
    Notice::plain(NoticeId::EmitHeader).text(locale)
}

} // verus!
