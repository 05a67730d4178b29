//! Compositor plugins: turning a layout into the file a given Wayland
//! compositor reads, and into the request that reconfigures it live.
//!
//! Everything above this module — geometry, validation, profiles, recall,
//! history — is compositor-agnostic. The last step lives behind [`Compositor`],
//! so supporting another compositor is one module implementing one trait.

use vstd::prelude::*;

use crate::compositor::hyprland::Hyprland;
use crate::compositor::sway::Sway;
use crate::env::Environment;
use crate::input::{InputConfig, InputView};
use crate::layout::{Layout, OutputState, OutputView};
use crate::notice::{note, Notice, NoticeId, NoticeView};
use crate::path::{join_path, path_join};
use crate::text::{
    ascii_lowercase, lemma_views_push, lowered_ascii, pieces, same, split, trim, trimmed, views,
};

pub mod hyprland;
pub mod sway;
pub mod testing;

verus! {

/// What the program needs to know about a compositor.
///
/// Implementations are stateless: they are consulted, never configured.
pub trait Compositor {
    spec fn named(&self) -> Seq<char>;

    spec fn labelled(&self) -> Seq<char>;

    spec fn runs(&self, env: Environment) -> bool;

    spec fn dir_in(&self, env: Environment) -> Seq<char>;

    spec fn main_file(&self) -> Seq<char>;

    spec fn monitors_name(&self) -> Seq<char>;

    spec fn input_name(&self) -> Seq<char>;

    spec fn marker(&self) -> Seq<char>;

    spec fn directive(&self, output: OutputView) -> Seq<char>;

    spec fn input_texts(&self, input: InputView) -> Seq<Seq<char>>;

    spec fn statement(&self, main: Seq<char>, generated: Seq<char>, home: Seq<char>) -> Seq<char>;

    spec fn pulls_in(&self, line: Seq<char>, generated: Seq<char>) -> bool;

    spec fn pulls(&self, line: Seq<char>) -> bool;

    spec fn opens(&self, line: Seq<char>) -> bool;

    spec fn drives(&self) -> bool;

    /// Stable identifier, used in `config.toml` and on the command line.
    fn id(&self) -> (r: &'static str)
        ensures
            r@ == self.named(),
    ;

    /// Name to show a human.
    fn label(&self) -> (r: &'static str)
        ensures
            r@ == self.labelled(),
    ;

    /// Is this the compositor running in this session?
    ///
    /// Read from the environment only. Probing sockets here would make
    /// detection depend on whether a daemon happens to be up.
    fn running(&self, env: &Environment) -> (r: bool)
        ensures
            r == self.runs(*env),
    ;

    /// Directory holding the user's own configuration.
    fn config_dir(&self, env: &Environment) -> (r: String)
        ensures
            r@ == self.dir_in(*env),
    ;

    /// The user's main configuration file, the one generated files are wired
    /// into.
    fn main_config(&self, env: &Environment) -> (r: String)
        ensures
            r@ == path_join(self.dir_in(*env), self.main_file()),
    ;

    /// File name for the generated monitor configuration.
    fn monitors_file(&self) -> (r: &'static str)
        ensures
            r@ == self.monitors_name(),
    ;

    /// File name for the generated keyboard and pointer configuration.
    fn input_file(&self) -> (r: &'static str)
        ensures
            r@ == self.input_name(),
    ;

    /// Marker that starts a line comment: `--` for Lua, `#` for sway.
    fn comment(&self) -> (r: &'static str)
        ensures
            r@ == self.marker(),
            r@.len() > 0,
    ;

    /// The directive configuring one output.
    fn output_directive(&self, output: &OutputState) -> (r: String)
        ensures
            r@ == self.directive(output@),
    ;

    /// Directives that carry the keyboard and pointer settings.
    ///
    /// A list because compositors disagree on the shape: Hyprland takes one
    /// nested call, sway wants one block per device class.
    fn input_directives(&self, input: &InputConfig) -> (r: Vec<String>)
        ensures
            views(r@) == self.input_texts(input@),
    ;

    /// The statement that pulls `generated` into `main`.
    fn include_statement(&self, main: &str, generated: &str, home: &str) -> (r: String)
        ensures
            r@ == self.statement(main@, generated@, home@),
    ;

    /// Does this line already pull `generated` in?
    ///
    /// Only ever called on lines that are not comments.
    fn includes(&self, line: &str, generated: &str) -> (r: bool)
        ensures
            r == self.pulls_in(line@, generated@),
    ;

    /// Does this line pull in *some* other file?
    ///
    /// Separate from [`Self::includes`] because it answers a different question:
    /// where the user keeps their includes, so a new one joins them instead of
    /// landing at the top of the file.
    fn is_include(&self, line: &str) -> (r: bool)
        ensures
            r == self.pulls(line@),
    ;

    /// Does this line open a directive that is being taken over, and that
    /// should therefore be commented out?
    fn opens_output(&self, line: &str) -> (r: bool)
        ensures
            r == self.opens(line@),
    ;

    /// Does this plugin know how to talk to a live session at all?
    ///
    /// A capability of the *plugin*, not of the machine: it says nothing of
    /// whether the compositor is running.
    fn drives_sessions(&self) -> (r: bool)
        ensures
            r == self.drives(),
    ;

    /// Every output's directive, in order.
    fn output_directives(&self, layout: &Layout) -> (r: Vec<String>)
        ensures
            views(r@) == layout@.outputs.map_values(|o: OutputView| self.directive(o)),
    {
        let ghost want = layout@.outputs.map_values(|o: OutputView| self.directive(o));
        let mut r: Vec<String> = Vec::new();
        let mut i: usize = 0;
        while i < layout.outputs.len()
            invariant
                i <= layout.outputs@.len(),
                want == layout@.outputs.map_values(|o: OutputView| self.directive(o)),
                views(r@) == want.take(i as int),
            decreases layout.outputs@.len() - i,
        {
            let s = self.output_directive(&layout.outputs[i]);
            proof {
                lemma_views_push(r@, s);
            }
            r.push(s);
            i = i + 1;
            assert(views(r@) =~= want.take(i as int));
        }
        assert(views(r@) =~= want);
        r
    }

    /// Default path of the generated monitor file.
    fn monitors_path(&self, env: &Environment) -> (r: String)
        ensures
            r@ == path_join(self.dir_in(*env), self.monitors_name()),
    {
        join_path(self.config_dir(env).as_str(), self.monitors_file())
    }

    /// Default path of the generated input file.
    fn input_path(&self, env: &Environment) -> (r: String)
        ensures
            r@ == path_join(self.dir_in(*env), self.input_name()),
    {
        join_path(self.config_dir(env).as_str(), self.input_file())
    }
}

/// Whether one of the texts is the given one, whatever the case and the white
/// space around it.
pub open spec fn lists(entries: Seq<Seq<char>>, name: Seq<char>) -> bool {
    exists|i: int|
        0 <= i < entries.len() && ascii_lowercase(trim(#[trigger] entries[i])) == ascii_lowercase(
            name,
        )
}

/// Whether the list of desktops in the environment holds this one.
pub open spec fn desktop_names(env: Environment, name: Seq<char>) -> bool {
    match env.desktop {
        Some(value) => lists(split(value@, ":"@), name),
        None => false,
    }
}

fn listed(entries: &Vec<String>, name: &str) -> (r: bool)
    ensures
        r == lists(views(entries@), name@),
{
    let want = lowered_ascii(name);
    let ghost all = views(entries@);
    let mut i: usize = 0;
    while i < entries.len()
        invariant
            i <= entries@.len(),
            all == views(entries@),
            want@ == ascii_lowercase(name@),
            forall|j: int| 0 <= j < i ==> ascii_lowercase(trim(#[trigger] all[j])) != want@,
        decreases entries@.len() - i,
    {
        assert(all[i as int] == entries@[i as int]@);
        let entry = lowered_ascii(trimmed(entries[i].as_str()).as_str());
        if same(entry.as_str(), want.as_str()) {
            return true;
        }
        i = i + 1;
    }
    false
}

/// True when the environment names this compositor.
///
/// `XDG_CURRENT_DESKTOP` is a colon-separated list and its case is not
/// guaranteed, which is why this is a helper and not an equality test.
pub fn desktop_is(env: &Environment, name: &str) -> (r: bool)
    ensures
        r == desktop_names(*env, name@),
{
    match &env.desktop {
        Some(value) => {
            proof {
                reveal_strlit(":");
            }
            listed(&pieces(value.as_str(), ":"), name)
        },
        None => false,
    }
}

/// A plugin that is compiled in.
#[derive(Debug, Clone, Copy, PartialEq, Eq, Structural)]
pub enum Plugin {
    Hyprland,
    Sway,
}

impl Compositor for Plugin {
    open spec fn named(&self) -> Seq<char> {
        match self {
            Plugin::Hyprland => Hyprland.named(),
            Plugin::Sway => Sway.named(),
        }
    }

    open spec fn labelled(&self) -> Seq<char> {
        match self {
            Plugin::Hyprland => Hyprland.labelled(),
            Plugin::Sway => Sway.labelled(),
        }
    }

    open spec fn runs(&self, env: Environment) -> bool {
        match self {
            Plugin::Hyprland => Hyprland.runs(env),
            Plugin::Sway => Sway.runs(env),
        }
    }

    open spec fn dir_in(&self, env: Environment) -> Seq<char> {
        match self {
            Plugin::Hyprland => Hyprland.dir_in(env),
            Plugin::Sway => Sway.dir_in(env),
        }
    }

    open spec fn main_file(&self) -> Seq<char> {
        match self {
            Plugin::Hyprland => Hyprland.main_file(),
            Plugin::Sway => Sway.main_file(),
        }
    }

    open spec fn monitors_name(&self) -> Seq<char> {
        match self {
            Plugin::Hyprland => Hyprland.monitors_name(),
            Plugin::Sway => Sway.monitors_name(),
        }
    }

    open spec fn input_name(&self) -> Seq<char> {
        match self {
            Plugin::Hyprland => Hyprland.input_name(),
            Plugin::Sway => Sway.input_name(),
        }
    }

    open spec fn marker(&self) -> Seq<char> {
        match self {
            Plugin::Hyprland => Hyprland.marker(),
            Plugin::Sway => Sway.marker(),
        }
    }

    open spec fn directive(&self, output: OutputView) -> Seq<char> {
        match self {
            Plugin::Hyprland => Hyprland.directive(output),
            Plugin::Sway => Sway.directive(output),
        }
    }

    open spec fn input_texts(&self, input: InputView) -> Seq<Seq<char>> {
        match self {
            Plugin::Hyprland => Hyprland.input_texts(input),
            Plugin::Sway => Sway.input_texts(input),
        }
    }

    open spec fn statement(&self, main: Seq<char>, generated: Seq<char>, home: Seq<char>) -> Seq<char> {
        match self {
            Plugin::Hyprland => Hyprland.statement(main, generated, home),
            Plugin::Sway => Sway.statement(main, generated, home),
        }
    }

    open spec fn pulls_in(&self, line: Seq<char>, generated: Seq<char>) -> bool {
        match self {
            Plugin::Hyprland => Hyprland.pulls_in(line, generated),
            Plugin::Sway => Sway.pulls_in(line, generated),
        }
    }

    open spec fn pulls(&self, line: Seq<char>) -> bool {
        match self {
            Plugin::Hyprland => Hyprland.pulls(line),
            Plugin::Sway => Sway.pulls(line),
        }
    }

    open spec fn opens(&self, line: Seq<char>) -> bool {
        match self {
            Plugin::Hyprland => Hyprland.opens(line),
            Plugin::Sway => Sway.opens(line),
        }
    }

    open spec fn drives(&self) -> bool {
        match self {
            Plugin::Hyprland => Hyprland.drives(),
            Plugin::Sway => Sway.drives(),
        }
    }

    fn id(&self) -> (r: &'static str) {
        match self {
            Plugin::Hyprland => Hyprland.id(),
            Plugin::Sway => Sway.id(),
        }
    }

    fn label(&self) -> (r: &'static str) {
        match self {
            Plugin::Hyprland => Hyprland.label(),
            Plugin::Sway => Sway.label(),
        }
    }

    fn running(&self, env: &Environment) -> (r: bool) {
        match self {
            Plugin::Hyprland => Hyprland.running(env),
            Plugin::Sway => Sway.running(env),
        }
    }

    fn config_dir(&self, env: &Environment) -> (r: String) {
        match self {
            Plugin::Hyprland => Hyprland.config_dir(env),
            Plugin::Sway => Sway.config_dir(env),
        }
    }

    fn main_config(&self, env: &Environment) -> (r: String) {
        match self {
            Plugin::Hyprland => Hyprland.main_config(env),
            Plugin::Sway => Sway.main_config(env),
        }
    }

    fn monitors_file(&self) -> (r: &'static str) {
        match self {
            Plugin::Hyprland => Hyprland.monitors_file(),
            Plugin::Sway => Sway.monitors_file(),
        }
    }

    fn input_file(&self) -> (r: &'static str) {
        match self {
            Plugin::Hyprland => Hyprland.input_file(),
            Plugin::Sway => Sway.input_file(),
        }
    }

    fn comment(&self) -> (r: &'static str) {
        match self {
            Plugin::Hyprland => Hyprland.comment(),
            Plugin::Sway => Sway.comment(),
        }
    }

    fn output_directive(&self, output: &OutputState) -> (r: String) {
        match self {
            Plugin::Hyprland => Hyprland.output_directive(output),
            Plugin::Sway => Sway.output_directive(output),
        }
    }

    fn input_directives(&self, input: &InputConfig) -> (r: Vec<String>) {
        match self {
            Plugin::Hyprland => Hyprland.input_directives(input),
            Plugin::Sway => Sway.input_directives(input),
        }
    }

    fn include_statement(&self, main: &str, generated: &str, home: &str) -> (r: String) {
        match self {
            Plugin::Hyprland => Hyprland.include_statement(main, generated, home),
            Plugin::Sway => Sway.include_statement(main, generated, home),
        }
    }

    fn includes(&self, line: &str, generated: &str) -> (r: bool) {
        match self {
            Plugin::Hyprland => Hyprland.includes(line, generated),
            Plugin::Sway => Sway.includes(line, generated),
        }
    }

    fn is_include(&self, line: &str) -> (r: bool) {
        match self {
            Plugin::Hyprland => Hyprland.is_include(line),
            Plugin::Sway => Sway.is_include(line),
        }
    }

    fn opens_output(&self, line: &str) -> (r: bool) {
        match self {
            Plugin::Hyprland => Hyprland.opens_output(line),
            Plugin::Sway => Sway.opens_output(line),
        }
    }

    fn drives_sessions(&self) -> (r: bool) {
        match self {
            Plugin::Hyprland => Hyprland.drives_sessions(),
            Plugin::Sway => Sway.drives_sessions(),
        }
    }
}

/// The plugins available, in registration order.
pub open spec fn registry() -> Seq<Plugin> {
    seq![Plugin::Hyprland, Plugin::Sway]
}

/// The first plugin from `i` on with this identifier.
pub open spec fn plugin_named(id: Seq<char>) -> Option<Plugin> {
    if id == Plugin::Hyprland.named() {
        Some(Plugin::Hyprland)
    } else if id == Plugin::Sway.named() {
        Some(Plugin::Sway)
    } else {
        None
    }
}

/// The plugin of the compositor that this session is running.
pub open spec fn detected(env: Environment) -> Option<Plugin> {
    if Plugin::Hyprland.runs(env) {
        Some(Plugin::Hyprland)
    } else if Plugin::Sway.runs(env) {
        Some(Plugin::Sway)
    } else {
        None
    }
}

/// The plugin to use: the configured one, else the one detected, else Hyprland.
pub open spec fn resolved(preference: Option<Seq<char>>, env: Environment) -> Result<
    Plugin,
    NoticeView,
> {
    let wish = match preference {
        Some(p) => trim(p),
        None => Seq::empty(),
    };
    if wish.len() == 0 || wish == "auto"@ {
        Ok(
            match detected(env) {
                Some(p) => p,
                None => Plugin::Hyprland,
            },
        )
    } else {
        match plugin_named(ascii_lowercase(trim(wish))) {
            Some(p) => Ok(p),
            None => Err(note(NoticeId::UnknownCompositor, seq![wish, "hyprland, sway"@])),
        }
    }
}

/// The plugins available, in registration order.
pub fn all() -> (r: Vec<Plugin>)
    ensures
        r@ == registry(),
{
    let mut r: Vec<Plugin> = Vec::new();
    r.push(Plugin::Hyprland);
    r.push(Plugin::Sway);
    assert(r@ =~= registry());
    r
}

/// The plugin with this identifier.
pub fn by_id(id: &str) -> (r: Option<Plugin>)
    ensures
        r == plugin_named(ascii_lowercase(trim(id@))),
{
    let id = lowered_ascii(trimmed(id).as_str());
    if same(id.as_str(), Plugin::Hyprland.id()) {
        Some(Plugin::Hyprland)
    } else if same(id.as_str(), Plugin::Sway.id()) {
        Some(Plugin::Sway)
    } else {
        None
    }
}

/// The compositor this session is running, if we recognise it.
pub fn detect(env: &Environment) -> (r: Option<Plugin>)
    ensures
        r == detected(*env),
{
    if Plugin::Hyprland.running(env) {
        Some(Plugin::Hyprland)
    } else if Plugin::Sway.running(env) {
        Some(Plugin::Sway)
    } else {
        None
    }
}

/// The plugin to use: the configured one, else the one detected, else Hyprland.
///
/// Hyprland is the fallback rather than an error because it is what a session
/// with no recognisable signature is most likely to be — being wrong there
/// costs a clear error from the compositor, whereas refusing to start costs the
/// user their displays.
pub fn resolve(preference: Option<&str>, env: &Environment) -> (r: Result<Plugin, Notice>)
    ensures
        match (r, resolved(crate::text::view_opt_str(preference), *env)) {
            (Ok(a), Ok(b)) => a == b,
            (Err(a), Err(b)) => a@ == b,
            _ => false,
        },
{
    let wish = match preference {
        Some(p) => trimmed(p),
        None => String::new(),
    };
    assert(wish@ =~= match preference {
        Some(p) => trim(p@),
        None => Seq::empty(),
    });
    if wish.as_str().unicode_len() == 0 || same(wish.as_str(), "auto") {
        match detect(env) {
            Some(p) => Ok(p),
            None => Ok(Plugin::Hyprland),
        }
    } else {
        match by_id(wish.as_str()) {
            Some(p) => Ok(p),
            None => Err(Notice::two(NoticeId::UnknownCompositor, wish.as_str(), "hyprland, sway")),
        }
    }
}

/// What is configured wins over what is running, and what is running over the
/// fallback; only a configured name that no plugin has is refused.
pub proof fn resolution_prefers_the_configured_plugin(
    preference: Option<Seq<char>>,
    env: Environment,
)
    ensures
        preference is None ==> resolved(preference, env) is Ok,
        preference is None && detected(env) is Some ==> resolved(preference, env) == Ok::<
            Plugin,
            NoticeView,
        >(detected(env).unwrap()),
        forall|p: Plugin|
            registry().contains(p) ==> resolved(Some(#[trigger] p.named()), env) == Ok::<
                Plugin,
                NoticeView,
            >(p),
{
    reveal_strlit("auto");
    reveal_strlit("hyprland");
    reveal_strlit("sway");
    assert("auto"@[0] != "sway"@[0]);
    assert("hyprland"@.len() == 8 && "sway"@.len() == 4 && "auto"@.len() == 4);
    assert forall|p: Plugin| registry().contains(p) implies resolved(
        Some(#[trigger] p.named()),
        env,
    ) == Ok::<Plugin, NoticeView>(p) by {
        let n = p.named();
        reveal_with_fuel(crate::text::trim_start, 2);
        reveal_with_fuel(crate::text::trim_end, 2);
        assert(trim(n) == n);
        assert(ascii_lowercase(n) =~= n);
    }
}

} // verus!
