//! What the commands do to a layout and a configuration, and what they show.

use vstd::prelude::*;

use crate::apply::{asks_for_confirmation, drift_views, find_monitor, monitor_named, ApplyReport};
use crate::compositor::{all, registry, Compositor, Plugin};
use crate::config::{
    best_of, designates, matches_pattern, parse_position, profile_named, read_position, rule_of,
    rule_views, upserted, without_profile, Config, ConfigView, OutputRule, Profile, ProfileView,
    SettingsView,
};
use crate::daemon::stamped;
use crate::env::Environment;
use crate::fixed::Fixed;
use crate::history::{age_notice, layout_summary, SnapshotView, Store};
use crate::i18n::Locale;
use crate::layout::{
    format_scale, issue_views, live_layout, named, output_of, relation_named, relation_word,
    scale_text, Layout, LayoutView, OutputState, OutputView, Relation, Severity,
};
use crate::monitor::{decoded, read_mode, Mode, Monitor, Rotation, Transform};
use crate::notice::{note, turn_string, turn_text, Notice, NoticeId, NoticeView};
use crate::number::{int_string, int_text, nat_string, nat_text};
use crate::service;
use crate::text::{
    ascii_lowercase, copy_opt, join, joined, lemma_views_push, lowered_ascii, same, view_opt, views,
};

verus! {

// ---------------------------------------------------------------- arguments

#[derive(Debug, Clone)]
pub struct WebArgs {
    /// Listening port; `None` = the one from the configuration.
    pub port: Option<u16>,
    /// Listening address; `None` = the one from the configuration.
    pub bind: Option<String>,
    /// Open the web UI in the default browser once the server is listening.
    pub open: bool,
    /// Do not open a browser.
    pub no_open: bool,
}

impl WebArgs {
    /// Should a browser be launched, given what this command does by default?
    pub fn should_open(&self, default: bool) -> (r: bool)
        ensures
            r == (self.open || (!self.no_open && default)),
    {
        if self.open {
            return true;
        }
        if self.no_open {
            return false;
        }
        default
    }

    /// The address and the port to listen on: those of the command line, else
    /// those of the settings.
    pub fn target(&self, config: &Config) -> (r: (String, u16))
        ensures
            r.0@ == match view_opt(self.bind) {
                Some(b) => b,
                None => config@.settings.bind,
            },
            r.1 == match self.port {
                Some(p) => p,
                None => config@.settings.web_port,
            },
    {
        (
            match &self.bind {
                Some(b) => b.clone(),
                None => config.settings.bind.clone(),
            },
            match self.port {
                Some(p) => p,
                None => config.settings.web_port,
            },
        )
    }
}

#[derive(Debug, Clone, Copy, PartialEq, Eq, Structural)]
pub struct SafetyArgs {
    /// Applies despite validation errors and observed drifts.
    pub force: bool,
    /// No confirmation prompt and no automatic revert.
    pub no_confirm: bool,
}

#[derive(Debug, Clone)]
pub struct SetArgs {
    /// Name of the connector to change.
    pub output: String,
    /// Mode: `1920x1080@60`, or `preferred`.
    pub mode: Option<String>,
    /// Position in the workspace: `1920x0`.
    pub pos: Option<String>,
    pub scale: Option<Fixed>,
    /// Rotation in degrees: 0, 90, 180 or 270.
    pub rotate: Option<String>,
    pub flip: bool,
    pub no_flip: bool,
    /// Mirrors the given output.
    pub mirror: Option<String>,
    pub no_mirror: bool,
    pub enable: bool,
    pub disable: bool,
    /// Variable refresh rate.
    pub vrr: Option<bool>,
    /// Saves the result to the given profile.
    pub save: Option<String>,
    pub safety: SafetyArgs,
}

#[derive(Debug, Clone)]
pub enum ProfileAction {
    List,
    Show { name: String },
    /// Saves the current layout under a name.
    Save { name: String, exact: bool },
    Apply { name: String, safety: SafetyArgs },
    Delete { name: String },
    Rename { from: String, to: String },
}

#[derive(Debug, Clone)]
pub enum HistoryAction {
    List,
    /// Reapply a recorded layout. `0` is the most recent.
    Restore { index: usize, safety: SafetyArgs },
    /// Forget the history and every remembered display set.
    Clear,
}

#[derive(Debug, Clone)]
pub enum ServiceAction {
    Install { enable: bool, wanted_by: String, dry_run: bool },
    Uninstall,
    Status,
}

/// What the service command does when nothing is said: that is what someone
/// typing it is after, and rewriting the same unit costs nothing.
pub fn service_action(action: Option<ServiceAction>) -> (r: ServiceAction)
    ensures
        match action {
            Some(a) => r == a,
            None => match r {
                ServiceAction::Install { enable, wanted_by, dry_run } => !enable && !dry_run
                    && wanted_by@ == "graphical-session.target"@,
                _ => false,
            },
        },
{
    match action {
        Some(a) => a,
        None => ServiceAction::Install {
            enable: false,
            wanted_by: service::default_target().to_owned(),
            dry_run: false,
        },
    }
}

/// The values that stand for on and off, in either language.
pub open spec fn switch(word: Seq<char>) -> Option<bool> {
    if word == "on"@ || word == "true"@ || word == "1"@ || word == "oui"@ {
        Some(true)
    } else if word == "off"@ || word == "false"@ || word == "0"@ || word == "non"@ {
        Some(false)
    } else {
        None
    }
}

pub fn parse_onoff(s: &str) -> (r: Result<bool, Notice>)
    ensures
        match (r, switch(ascii_lowercase(s@))) {
            (Ok(a), Some(b)) => a == b,
            (Err(e), None) => e@ == note(NoticeId::InvalidOnOff, seq![ascii_lowercase(s@)]),
            _ => false,
        },
{
    let word = lowered_ascii(s);
    let w = word.as_str();
    if same(w, "on") || same(w, "true") || same(w, "1") || same(w, "oui") {
        Ok(true)
    } else if same(w, "off") || same(w, "false") || same(w, "0") || same(w, "non") {
        Ok(false)
    } else {
        Err(Notice::one(NoticeId::InvalidOnOff, w))
    }
}

// ---------------------------------------------------------------- outputs

pub open spec fn connectors(monitors: Seq<Monitor>) -> Seq<Seq<char>> {
    monitors.map_values(|m: Monitor| m.name@)
}

fn connector_names(monitors: &[Monitor]) -> (r: Vec<String>)
    ensures
        views(r@) == connectors(monitors@),
{
    let ghost want = connectors(monitors@);
    let mut r: Vec<String> = Vec::new();
    let mut i: usize = 0;
    while i < monitors.len()
        invariant
            i <= monitors@.len(),
            want == connectors(monitors@),
            views(r@) == want.take(i as int),
        decreases monitors@.len() - i,
    {
        let s = monitors[i].name.clone();
        proof {
            lemma_views_push(r@, s);
        }
        r.push(s);
        i = i + 1;
        assert(views(r@) =~= want.take(i as int));
    }
    assert(views(r@) =~= want);
    r
}

/// The error that names what is known.
pub open spec fn unknown_connector(monitors: Seq<Monitor>, name: Seq<char>) -> NoticeView {
    note(NoticeId::UnknownConnector, seq![name, join(connectors(monitors), ", "@)])
}

/// The monitor with the given connector.
pub fn find(monitors: &[Monitor], name: &str) -> (r: Result<usize, Notice>)
    ensures
        match (r, monitor_named(monitors@, name@)) {
            (Ok(i), Some(k)) => i == k && i < monitors@.len(),
            (Err(e), None) => e@ == unknown_connector(monitors@, name@),
            _ => false,
        },
{
    match find_monitor(monitors, name) {
        Some(i) => Ok(i),
        None => Err(
            Notice::two(
                NoticeId::UnknownConnector,
                name,
                joined(&connector_names(monitors), ", ").as_str(),
            ),
        ),
    }
}

/// A mode that is offered, and whether it is the one in use.
#[derive(Debug, Clone, Copy, PartialEq, Eq, Structural)]
pub struct ModeRow {
    pub mode: Mode,
    pub current: bool,
}

/// The same resolution, and less than half a hertz apart.
pub open spec fn is_in_use(mode: Mode, current: Mode) -> bool {
    let d = mode.refresh.nanos - current.refresh.nanos;
    mode.width == current.width && mode.height == current.height && -500_000_000 < d < 500_000_000
}

/// The modes that a monitor offers.
pub fn mode_rows(m: &Monitor) -> (r: Vec<ModeRow>)
    ensures
        r@ == m.modes().map_values(
            |mode: Mode| ModeRow { mode, current: is_in_use(mode, m.current_mode()) },
        ),
{
    let modes = m.parsed_modes();
    let current = m.mode();
    let ghost want = m.modes().map_values(
        |mode: Mode| ModeRow { mode, current: is_in_use(mode, m.current_mode()) },
    );
    let mut r: Vec<ModeRow> = Vec::new();
    let mut i: usize = 0;
    while i < modes.len()
        invariant
            i <= modes@.len(),
            modes@ == m.modes(),
            current == m.current_mode(),
            want == m.modes().map_values(
                |mode: Mode| ModeRow { mode, current: is_in_use(mode, m.current_mode()) },
            ),
            r@ == want.take(i as int),
        decreases modes@.len() - i,
    {
        let mode = modes[i];
        let d: i128 = mode.refresh.nanos as i128 - current.refresh.nanos as i128;
        r.push(
            ModeRow {
                mode,
                current: mode.width == current.width && mode.height == current.height
                    && -500_000_000 < d && d < 500_000_000,
            },
        );
        i = i + 1;
        assert(r@ =~= want.take(i as int));
    }
    assert(r@ =~= want);
    r
}

/// What an output is doing.
#[derive(Debug, Clone, PartialEq, Eq)]
pub enum OutputStatus {
    Disabled,
    Mirror(String),
    Focused,
    Active,
}

pub ghost enum StatusView {
    Disabled,
    Mirror(Seq<char>),
    Focused,
    Active,
}

impl View for OutputStatus {
    type V = StatusView;

    open spec fn view(&self) -> StatusView {
        match *self {
            OutputStatus::Disabled => StatusView::Disabled,
            OutputStatus::Mirror(t) => StatusView::Mirror(t@),
            OutputStatus::Focused => StatusView::Focused,
            OutputStatus::Active => StatusView::Active,
        }
    }
}

/// One line of the listing. What makes no sense of a disabled output is absent.
#[derive(Debug, Clone, PartialEq, Eq)]
pub struct OutputRow {
    pub name: String,
    /// Marked in the table rather than told on a line of its own.
    pub primary: bool,
    pub status: OutputStatus,
    pub mode: Option<String>,
    pub position: Option<String>,
    pub scale: String,
    pub orientation: String,
    pub identifier: String,
}

#[verifier::ext_equal]
pub ghost struct OutputRowView {
    pub name: Seq<char>,
    pub primary: bool,
    pub status: StatusView,
    pub mode: Option<Seq<char>>,
    pub position: Option<Seq<char>>,
    pub scale: Seq<char>,
    pub orientation: Seq<char>,
    pub identifier: Seq<char>,
}

impl View for OutputRow {
    type V = OutputRowView;

    open spec fn view(&self) -> OutputRowView {
        OutputRowView {
            name: self.name@,
            primary: self.primary,
            status: self.status@,
            mode: view_opt(self.mode),
            position: view_opt(self.position),
            scale: self.scale@,
            orientation: self.orientation@,
            identifier: self.identifier@,
        }
    }
}

pub open spec fn row_of(
    m: Monitor,
    monitors: Seq<Monitor>,
    primary: Option<Seq<char>>,
    locale: Locale,
) -> OutputRowView {
    OutputRowView {
        name: m.name@,
        primary: primary == Some(m.name@),
        status: if m.disabled {
            StatusView::Disabled
        } else {
            match m.mirrored(monitors) {
                Some(target) => StatusView::Mirror(target),
                None => if m.focused {
                    StatusView::Focused
                } else {
                    StatusView::Active
                },
            }
        },
        mode: if m.disabled {
            None
        } else {
            Some(m.current_mode().shown())
        },
        position: if m.disabled {
            None
        } else {
            Some(int_text(m.x as int) + "x"@ + int_text(m.y as int))
        },
        scale: scale_text(m.scale),
        orientation: turn_text(decoded(m.transform), locale),
        identifier: m.print(),
    }
}

fn output_row(m: &Monitor, monitors: &[Monitor], primary: &Option<String>, locale: Locale) -> (r: OutputRow)
    ensures
        r@ == row_of(*m, monitors@, view_opt(*primary), locale),
{
    let status = if m.disabled {
        OutputStatus::Disabled
    } else {
        match m.mirror_target(monitors) {
            Some(target) => OutputStatus::Mirror(target),
            None => if m.focused {
                OutputStatus::Focused
            } else {
                OutputStatus::Active
            },
        }
    };
    let is_primary = match primary {
        Some(p) => same(p.as_str(), m.name.as_str()),
        None => false,
    };
    let mut position = int_string(m.x as i64);
    position.append("x");
    position.append(int_string(m.y as i64).as_str());
    OutputRow {
        name: m.name.clone(),
        primary: is_primary,
        status,
        mode: if m.disabled {
            None
        } else {
            Some(m.mode().text())
        },
        position: if m.disabled {
            None
        } else {
            Some(position)
        },
        scale: format_scale(m.scale),
        orientation: turn_string(m.transform(), locale),
        identifier: m.fingerprint(),
    }
}

/// The listing of the detected outputs.
pub fn list_rows(monitors: &[Monitor], primary: &Option<String>, locale: Locale) -> (r: Vec<OutputRow>)
    ensures
        r@.len() == monitors@.len(),
        forall|i: int|
            0 <= i < r@.len() ==> (#[trigger] r@[i])@ == row_of(
                monitors@[i],
                monitors@,
                view_opt(*primary),
                locale,
            ),
{
    let mut r: Vec<OutputRow> = Vec::new();
    let mut i: usize = 0;
    while i < monitors.len()
        invariant
            i <= monitors@.len(),
            r@.len() == i,
            forall|k: int|
                0 <= k < i ==> (#[trigger] r@[k])@ == row_of(
                    monitors@[k],
                    monitors@,
                    view_opt(*primary),
                    locale,
                ),
        decreases monitors@.len() - i,
    {
        r.push(output_row(&monitors[i], monitors, primary, locale));
        i = i + 1;
    }
    r
}

// ---------------------------------------------------------------- changes

/// The rotations that can be asked for.
pub open spec fn rotation_word(s: Seq<char>) -> Option<Rotation> {
    if s == "0"@ {
        Some(Rotation::R0)
    } else if s == "90"@ {
        Some(Rotation::R90)
    } else if s == "180"@ {
        Some(Rotation::R180)
    } else if s == "270"@ {
        Some(Rotation::R270)
    } else {
        None
    }
}

/// The mode of an output after a change; a mode that is left open is the
/// preferred one.
pub open spec fn mode_set(o: OutputView, args: SetArgs, preferred: Option<Mode>) -> Result<
    Option<Mode>,
    NoticeView,
> {
    let asked = match view_opt(args.mode) {
        None => Ok(o.mode),
        Some(s) => if s == "preferred"@ || s == "auto"@ {
            Ok(None)
        } else {
            match read_mode(s) {
                Ok(m) => Ok(Some(m)),
                Err(e) => Err(e),
            }
        },
    };
    match asked {
        Ok(Some(m)) => Ok(Some(m)),
        Ok(None) => Ok(preferred),
        Err(e) => Err(e),
    }
}

pub open spec fn position_set(o: OutputView, args: SetArgs) -> Result<(int, int), NoticeView> {
    match view_opt(args.pos) {
        None => Ok((o.x, o.y)),
        Some(s) => read_position(s),
    }
}

pub open spec fn rotation_set(o: OutputView, args: SetArgs) -> Result<Rotation, NoticeView> {
    match view_opt(args.rotate) {
        None => Ok(o.transform.rotation),
        Some(s) => match rotation_word(s) {
            Some(r) => Ok(r),
            None => Err(note(NoticeId::InvalidRotation, seq![s])),
        },
    }
}

/// An output after a change: what was not asked for stays.
pub open spec fn edited(o: OutputView, args: SetArgs, preferred: Option<Mode>) -> Result<
    OutputView,
    NoticeView,
> {
    match (mode_set(o, args, preferred), position_set(o, args), rotation_set(o, args)) {
        (Err(e), _, _) => Err(e),
        (_, Err(e), _) => Err(e),
        (_, _, Err(e)) => Err(e),
        (Ok(mode), Ok((x, y)), Ok(rotation)) => Ok(
            OutputView {
                name: o.name,
                enabled: if args.disable {
                    false
                } else {
                    args.enable || o.enabled
                },
                mode,
                x,
                y,
                scale: match args.scale {
                    Some(s) => s,
                    None => o.scale,
                },
                transform: Transform {
                    rotation,
                    flipped: if args.no_flip {
                        false
                    } else {
                        args.flip || o.transform.flipped
                    },
                },
                mirror_of: if args.no_mirror {
                    None
                } else {
                    match view_opt(args.mirror) {
                        Some(t) => Some(t),
                        None => o.mirror_of,
                    }
                },
                vrr: match args.vrr {
                    Some(v) => v,
                    None => o.vrr,
                },
            },
        ),
    }
}

fn pick_mode(o: &OutputState, args: &SetArgs, preferred: Option<Mode>) -> (r: Result<
    Option<Mode>,
    Notice,
>)
    ensures
        match (r, mode_set(o@, *args, preferred)) {
            (Ok(a), Ok(b)) => a == b,
            (Err(a), Err(b)) => a@ == b,
            _ => false,
        },
{
    let asked = match &args.mode {
        None => o.mode,
        Some(mode) => if same(mode.as_str(), "preferred") || same(mode.as_str(), "auto") {
            None
        } else {
            match Mode::parse(mode.as_str()) {
                Ok(m) => Some(m),
                Err(e) => {
                    return Err(e);
                },
            }
        },
    };
    // The logical size — and therefore overlap detection — depends on the
    // mode: it must be resolved before validating.
    match asked {
        Some(m) => Ok(Some(m)),
        None => Ok(preferred),
    }
}

fn pick_position(o: &OutputState, args: &SetArgs) -> (r: Result<(i32, i32), Notice>)
    ensures
        match (r, position_set(o@, *args)) {
            (Ok(a), Ok(b)) => (a.0 as int, a.1 as int) == b,
            (Err(a), Err(b)) => a@ == b,
            _ => false,
        },
{
    match &args.pos {
        None => Ok((o.x, o.y)),
        Some(pos) => parse_position(pos.as_str()),
    }
}

fn pick_rotation(o: &OutputState, args: &SetArgs) -> (r: Result<Rotation, Notice>)
    ensures
        match (r, rotation_set(o@, *args)) {
            (Ok(a), Ok(b)) => a == b,
            (Err(a), Err(b)) => a@ == b,
            _ => false,
        },
{
    match &args.rotate {
        None => Ok(o.transform.rotation),
        Some(deg) => {
            let d = deg.as_str();
            if same(d, "0") {
                Ok(Rotation::R0)
            } else if same(d, "90") {
                Ok(Rotation::R90)
            } else if same(d, "180") {
                Ok(Rotation::R180)
            } else if same(d, "270") {
                Ok(Rotation::R270)
            } else {
                Err(Notice::one(NoticeId::InvalidRotation, d))
            }
        },
    }
}

fn edit(o: &OutputState, args: &SetArgs, preferred: Option<Mode>) -> (r: Result<
    OutputState,
    Notice,
>)
    ensures
        match (r, edited(o@, *args, preferred)) {
            (Ok(a), Ok(b)) => a@ == b,
            (Err(a), Err(b)) => a@ == b,
            _ => false,
        },
{
    let mode = match pick_mode(o, args, preferred) {
        Ok(m) => m,
        Err(e) => {
            return Err(e);
        },
    };
    let (x, y) = match pick_position(o, args) {
        Ok(p) => p,
        Err(e) => {
            return Err(e);
        },
    };
    let rotation = match pick_rotation(o, args) {
        Ok(r) => r,
        Err(e) => {
            return Err(e);
        },
    };
    let flipped = !args.no_flip && (args.flip || o.transform.flipped);
    let mirror_of = if args.no_mirror {
        None
    } else {
        match &args.mirror {
            Some(t) => Some(t.clone()),
            None => copy_opt(&o.mirror_of),
        }
    };
    Ok(
        OutputState {
            name: o.name.clone(),
            enabled: !args.disable && (args.enable || o.enabled),
            mode,
            x,
            y,
            scale: match args.scale {
                Some(s) => s,
                None => o.scale,
            },
            transform: Transform::new(rotation, flipped),
            mirror_of,
            vrr: match args.vrr {
                Some(v) => v,
                None => o.vrr,
            },
        },
    )
}

/// The live layout with one output changed.
pub open spec fn layout_set(
    monitors: Seq<Monitor>,
    primary: Option<Seq<char>>,
    args: SetArgs,
) -> Result<LayoutView, NoticeView> {
    match monitor_named(monitors, args.output@) {
        None => Err(unknown_connector(monitors, args.output@)),
        Some(k) => match edited(output_of(monitors[k], monitors), args, monitors[k].preferred()) {
            Ok(o) => Ok(
                LayoutView { outputs: live_layout(monitors).outputs.update(k, o), primary },
            ),
            Err(e) => Err(e),
        },
    }
}

/// Changes one output of the live layout.
///
/// The main screen comes along but the layout is not re-anchored: this changes
/// one field of one output, and silently shifting every other screen would be a
/// surprise.
pub fn set(monitors: &[Monitor], primary: Option<String>, args: &SetArgs) -> (r: Result<Layout, Notice>)
    ensures
        match (r, layout_set(monitors@, view_opt(primary), *args)) {
            (Ok(a), Ok(b)) => a@ == b,
            (Err(a), Err(b)) => a@ == b,
            _ => false,
        },
{
    let k = match find(monitors, args.output.as_str()) {
        Ok(k) => k,
        Err(e) => {
            return Err(e);
        },
    };
    let mut layout = Layout::from_monitors(monitors).with_primary(primary);
    let ghost before = layout@.outputs;
    assert(before.len() == monitors@.len());
    assert(layout.outputs@.len() == before.len());
    assert(before[k as int] == layout.outputs@[k as int]@);
    match edit(&layout.outputs[k], args, monitors[k].preferred_mode()) {
        Ok(o) => {
            let ghost shown = o@;
            layout.outputs.set(k, o);
            assert(layout@.outputs =~= before.update(k as int, shown));
            Ok(layout)
        },
        Err(e) => Err(e),
    }
}

/// A change touches the named output alone, and nothing of it that was not
/// asked for.
pub proof fn a_change_touches_one_output(
    monitors: Seq<Monitor>,
    primary: Option<Seq<char>>,
    args: SetArgs,
)
    requires
        layout_set(monitors, primary, args) is Ok,
    ensures
        ({
            let k = monitor_named(monitors, args.output@).unwrap();
            let before = live_layout(monitors);
            let after = layout_set(monitors, primary, args)->Ok_0;
            &&& after.outputs.len() == before.outputs.len()
            &&& forall|i: int|
                0 <= i < before.outputs.len() && i != k ==> #[trigger] after.outputs[i]
                    == before.outputs[i]
            &&& 0 <= k < before.outputs.len()
            &&& after.outputs[k].name == before.outputs[k].name
            &&& args.pos is None ==> after.outputs[k].x == before.outputs[k].x
                && after.outputs[k].y == before.outputs[k].y
            &&& args.scale is None ==> after.outputs[k].scale == before.outputs[k].scale
            &&& args.vrr is None ==> after.outputs[k].vrr == before.outputs[k].vrr
        }),
{
    lemma_monitor_at(monitors, args.output@, 0);
}

proof fn lemma_monitor_at(monitors: Seq<Monitor>, name: Seq<char>, i: int)
    requires
        0 <= i,
    ensures
        match crate::apply::monitor_from(monitors, name, i) {
            Some(k) => i <= k < monitors.len() && monitors[k].name@ == name,
            None => true,
        },
    decreases monitors.len() - i,
{
    if i < monitors.len() && monitors[i].name@ != name {
        lemma_monitor_at(monitors, name, i + 1);
    }
}

/// The layout after the placements from the word at `i` on.
pub open spec fn placed_by(l: LayoutView, words: Seq<Seq<char>>, i: int) -> Result<
    LayoutView,
    NoticeView,
>
    decreases words.len() - i,
{
    if i < 0 || i + 3 > words.len() {
        Ok(l)
    } else {
        match relation_named(relation_word(words[i + 1])) {
            None => Err(note(NoticeId::UnknownRelation, seq![relation_word(words[i + 1])])),
            Some(relation) => if !l.placeable(words[i], relation, words[i + 2]) {
                Err(note(NoticeId::OutOfRange, seq![]))
            } else {
                match l.placed(words[i], relation, words[i + 2]) {
                    Ok(next) => placed_by(next, words, i + 3),
                    Err(e) => Err(e),
                }
            },
        }
    }
}

/// A layout anchored, where its coordinates can be expressed.
pub open spec fn anchored(l: LayoutView) -> Result<LayoutView, NoticeView> {
    if l.normalizable() {
        Ok(l.normalized())
    } else {
        Err(note(NoticeId::OutOfRange, seq![]))
    }
}

/// The layout that triples of output, relation and reference make.
pub open spec fn arranged_by(l: LayoutView, words: Seq<Seq<char>>) -> Result<
    LayoutView,
    NoticeView,
> {
    if words.len() % 3 != 0 {
        Err(note(NoticeId::TriplesExpected, seq![nat_text(words.len())]))
    } else {
        match placed_by(l, words, 0) {
            Ok(next) => anchored(next),
            Err(e) => Err(e),
        }
    }
}

/// Anchors a layout on its main screen, else on its top-left corner.
pub fn anchor(layout: Layout) -> (r: Result<Layout, Notice>)
    ensures
        match (r, anchored(layout@)) {
            (Ok(a), Ok(b)) => a@ == b,
            (Err(a), Err(b)) => a@ == b,
            _ => false,
        },
{
    let mut l = layout;
    if l.can_normalize() {
        l.normalize();
        Ok(l)
    } else {
        Err(Notice::plain(NoticeId::OutOfRange))
    }
}

/// Positions outputs relative to one another.
pub fn arrange(layout: Layout, words: &Vec<String>) -> (r: Result<Layout, Notice>)
    ensures
        match (r, arranged_by(layout@, views(words@))) {
            (Ok(a), Ok(b)) => a@ == b,
            (Err(a), Err(b)) => a@ == b,
            _ => false,
        },
{
    let ghost all = views(words@);
    let ghost first = layout@;
    assert(all.len() == words@.len());
    if words.len() % 3 != 0 {
        return Err(
            Notice::one(NoticeId::TriplesExpected, nat_string(words.len() as u128).as_str()),
        );
    }
    let mut l = layout;
    let mut i: usize = 0;
    while i < words.len()
        invariant
            i <= words@.len(),
            i % 3 == 0,
            words@.len() % 3 == 0,
            all == views(words@),
            all.len() == words@.len(),
            placed_by(l@, all, i as int) == placed_by(first, all, 0),
            first == layout@,
            arranged_by(first, all) == match placed_by(first, all, 0) {
                Ok(next) => anchored(next),
                Err(e) => Err(e),
            },
        decreases words@.len() - i,
    {
        assert(i + 3 <= words.len());
        assert(all[i as int] == words@[i as int]@);
        assert(all[i + 1] == words@[i + 1]@);
        assert(all[i + 2] == words@[i + 2]@);
        let relation = match Relation::parse(words[i + 1].as_str()) {
            Ok(x) => x,
            Err(e) => {
                return Err(e);
            },
        };
        let subject = words[i].as_str();
        let reference = words[i + 2].as_str();
        if !l.can_place(subject, relation, reference) {
            return Err(Notice::plain(NoticeId::OutOfRange));
        }
        match l.place(subject, relation, reference) {
            Ok(_) => {},
            Err(e) => {
                return Err(e);
            },
        }
        i = i + 3;
    }
    anchor(l)
}

/// The outputs in a row.
pub fn auto(layout: Layout) -> (r: Result<Layout, Notice>)
    ensures
        match r {
            Ok(l) => layout@.arrangeable() && l@ == layout@.arranged(),
            Err(e) => !layout@.arrangeable() && e@ == note(NoticeId::OutOfRange, seq![]),
        },
{
    let mut l = layout;
    if l.can_arrange() {
        l.auto_arrange();
        Ok(l)
    } else {
        Err(Notice::plain(NoticeId::OutOfRange))
    }
}

// ---------------------------------------------------------------- profiles

/// A profile's layout, anchored on the main screen.
pub open spec fn profile_layout(
    p: ProfileView,
    monitors: Seq<Monitor>,
    primary: Option<Seq<char>>,
) -> Result<LayoutView, NoticeView> {
    if !p.resolvable(monitors) {
        Err(note(NoticeId::OutOfRange, seq![]))
    } else {
        match p.layout(monitors) {
            Ok(l) => anchored(stamped(l, primary)),
            Err(e) => Err(e),
        }
    }
}

/// The layout of a named profile for the connected hardware, anchored on the
/// main screen.
pub open spec fn named_layout(cfg: ConfigView, name: Seq<char>, monitors: Seq<Monitor>) -> Result<
    LayoutView,
    NoticeView,
> {
    match profile_named(cfg.profiles, name) {
        Some(i) => profile_layout(cfg.profiles[i], monitors, cfg.primary_among(monitors)),
        None => Err(note(NoticeId::UnknownProfile, seq![name])),
    }
}

fn resolve_anchored(p: &Profile, monitors: &[Monitor], primary: Option<String>) -> (r: Result<
    Layout,
    Notice,
>)
    ensures
        match (r, profile_layout(p@, monitors@, view_opt(primary))) {
            (Ok(a), Ok(b)) => a@ == b,
            (Err(a), Err(b)) => a@ == b,
            _ => false,
        },
{
    if !p.can_resolve(monitors) {
        return Err(Notice::plain(NoticeId::OutOfRange));
    }
    match p.resolve(monitors) {
        Ok(l) => anchor(l.with_primary(primary)),
        Err(e) => Err(e),
    }
}

/// The layout of a named profile.
pub fn apply_profile(config: &Config, name: &str, monitors: &[Monitor]) -> (r: Result<Layout, Notice>)
    ensures
        match (r, named_layout(config@, name@, monitors@)) {
            (Ok(a), Ok(b)) => a@ == b,
            (Err(a), Err(b)) => a@ == b,
            _ => false,
        },
{
    match config.profile(name) {
        Some(p) => {
            assert(config@.profiles[profile_named(config@.profiles, name@).unwrap()] == p@);
            resolve_anchored(p, monitors, config.primary_output(monitors))
        },
        None => Err(Notice::one(NoticeId::UnknownProfile, name)),
    }
}

/// The layout for the connected hardware: the matching profile's, else the
/// outputs in a row. With it comes the name of the profile.
pub open spec fn hardware_layout(cfg: ConfigView, monitors: Seq<Monitor>) -> Result<
    (LayoutView, Option<Seq<char>>),
    NoticeView,
> {
    let primary = cfg.primary_among(monitors);
    let live = stamped(live_layout(monitors), primary);
    match best_of(cfg.profiles, monitors, cfg.profiles.len() as int) {
        Some(b) => match profile_layout(cfg.profiles[b], monitors, primary) {
            Ok(l) => Ok((l, Some(cfg.profiles[b].name))),
            Err(e) => Err(e),
        },
        None => if live.arrangeable() {
            match anchored(live.arranged()) {
                Ok(l) => Ok((l, None)),
                Err(e) => Err(e),
            }
        } else {
            Err(note(NoticeId::OutOfRange, seq![]))
        },
    }
}

/// The layout for the connected hardware.
pub fn apply_for_hardware(config: &Config, monitors: &[Monitor]) -> (r: Result<
    (Layout, Option<String>),
    Notice,
>)
    ensures
        match (r, hardware_layout(config@, monitors@)) {
            (Ok(a), Ok(b)) => a.0@ == b.0 && view_opt(a.1) == b.1,
            (Err(a), Err(b)) => a@ == b,
            _ => false,
        },
{
    let primary = config.primary_output(monitors);
    match config.best_match(monitors) {
        Some(p) => {
            proof {
                let b = best_of(
                    config@.profiles,
                    monitors@,
                    config@.profiles.len() as int,
                ).unwrap();
                assert(config@.profiles[b] == p@);
            }
            match resolve_anchored(p, monitors, primary) {
                Ok(l) => Ok((l, Some(p.name.clone()))),
                Err(e) => Err(e),
            }
        },
        None => {
            let live = Layout::from_monitors(monitors).with_primary(primary);
            match auto(live) {
                Ok(l) => match anchor(l) {
                    Ok(a) => Ok((a, None)),
                    Err(e) => Err(e),
                },
                Err(e) => Err(e),
            }
        },
    }
}

/// The rules that describe a layout, each designating its monitor by its
/// fingerprint.
pub open spec fn rules_of(outputs: Seq<OutputView>, monitors: Seq<Monitor>) -> Seq<
    crate::config::RuleView,
> {
    outputs.map_values(
        |o: OutputView|
            rule_of(
                o,
                match monitor_named(monitors, o.name) {
                    Some(i) => Some(monitors[i]),
                    None => None,
                },
            ),
    )
}

/// The profile that describes a layout, so that it survives a change of
/// connector.
pub fn profile_of(name: &str, exact: bool, outputs: &Vec<OutputState>, monitors: &[Monitor]) -> (r: Profile)
    ensures
        r@ == (ProfileView {
            name: name@,
            exact,
            outputs: rules_of(crate::layout::output_views(outputs@), monitors@),
        }),
{
    let ghost want = rules_of(crate::layout::output_views(outputs@), monitors@);
    let mut rules: Vec<OutputRule> = Vec::new();
    let mut i: usize = 0;
    while i < outputs.len()
        invariant
            i <= outputs@.len(),
            want == rules_of(crate::layout::output_views(outputs@), monitors@),
            rule_views(rules@) == want.take(i as int),
        decreases outputs@.len() - i,
    {
        let o = &outputs[i];
        let m = match find_monitor(monitors, o.name.as_str()) {
            Some(k) => Some(&monitors[k]),
            None => None,
        };
        let rule = OutputRule::from_state(o, m);
        let ghost before = rule_views(rules@);
        let ghost shown = rule@;
        assert(crate::layout::output_views(outputs@)[i as int] == o@);
        assert(shown == want[i as int]);
        rules.push(rule);
        i = i + 1;
        assert(rule_views(rules@) =~= before.push(shown));
        assert(rule_views(rules@) =~= want.take(i as int));
    }
    assert(rule_views(rules@) =~= want);
    Profile { name: name.to_owned(), exact, outputs: rules }
}

/// Saves a layout under a name.
pub fn save_profile(
    config: &mut Config,
    name: &str,
    exact: bool,
    outputs: &Vec<OutputState>,
    monitors: &[Monitor],
)
    ensures
        final(config)@ == (ConfigView {
            profiles: upserted(
                old(config)@.profiles,
                ProfileView {
                    name: name@,
                    exact,
                    outputs: rules_of(crate::layout::output_views(outputs@), monitors@),
                },
            ),
            ..old(config)@
        }),
{
    config.upsert(profile_of(name, exact, outputs, monitors));
}

/// The profiles with one under another name.
pub open spec fn renamed(profiles: Seq<ProfileView>, from: Seq<char>, to: Seq<char>) -> Seq<
    ProfileView,
> {
    let p = profiles[profile_named(profiles, from).unwrap()];
    upserted(without_profile(profiles, from), ProfileView { name: to, ..p })
}

/// Renames a profile.
pub fn rename_profile(config: &mut Config, from: &str, to: &str) -> (r: Result<(), Notice>)
    ensures
        match r {
            Ok(_) => profile_named(old(config)@.profiles, from@) is Some && final(config)@ == (
            ConfigView { profiles: renamed(old(config)@.profiles, from@, to@), ..old(config)@ }),
            Err(e) => profile_named(old(config)@.profiles, from@) is None && final(config)@ == old(
                config,
            )@ && e@ == note(NoticeId::UnknownProfile, seq![from@]),
        },
{
    let p = match config.profile(from) {
        Some(p) => {
            assert(config@.profiles[profile_named(config@.profiles, from@).unwrap()] == p@);
            p.clone()
        },
        None => {
            return Err(Notice::one(NoticeId::UnknownProfile, from));
        },
    };
    let renamed = Profile { name: to.to_owned(), exact: p.exact, outputs: p.outputs };
    match config.remove(from) {
        Ok(_) => {},
        Err(e) => {
            return Err(e);
        },
    }
    config.upsert(renamed);
    Ok(())
}

/// How a profile stands to the connected hardware.
#[derive(Debug, Clone, Copy, PartialEq, Eq, Structural)]
pub enum Standing {
    Active,
    Matches,
    DoesNotMatch,
}

#[derive(Debug, Clone, PartialEq, Eq)]
pub struct ProfileRow {
    pub name: String,
    pub outputs: String,
    pub exact: bool,
    pub standing: Standing,
}

pub open spec fn patterns(p: ProfileView) -> Seq<Seq<char>> {
    p.outputs.map_values(|r: crate::config::RuleView| r.pattern)
}

/// The name of the profile that would be applied.
pub open spec fn active_name(cfg: ConfigView, monitors: Seq<Monitor>) -> Option<Seq<char>> {
    match best_of(cfg.profiles, monitors, cfg.profiles.len() as int) {
        Some(b) => Some(cfg.profiles[b].name),
        None => None,
    }
}

pub open spec fn is_profile_row(row: ProfileRow, p: ProfileView, cfg: ConfigView, monitors: Seq<Monitor>) -> bool {
    &&& row.name@ == p.name
    &&& row.outputs@ == join(patterns(p), ", "@)
    &&& row.exact == p.exact
    &&& row.standing == (if active_name(cfg, monitors) == Some(p.name) {
        Standing::Active
    } else if p.fits(monitors) {
        Standing::Matches
    } else {
        Standing::DoesNotMatch
    })
}

fn pattern_list(p: &Profile) -> (r: Vec<String>)
    ensures
        views(r@) == patterns(p@),
{
    let ghost want = patterns(p@);
    let mut r: Vec<String> = Vec::new();
    let mut i: usize = 0;
    while i < p.outputs.len()
        invariant
            i <= p.outputs@.len(),
            want == patterns(p@),
            views(r@) == want.take(i as int),
        decreases p.outputs@.len() - i,
    {
        let s = p.outputs[i].pattern.clone();
        proof {
            lemma_views_push(r@, s);
        }
        r.push(s);
        i = i + 1;
        assert(views(r@) =~= want.take(i as int));
    }
    assert(views(r@) =~= want);
    r
}

/// The listing of the saved profiles.
pub fn profile_rows(config: &Config, monitors: &[Monitor]) -> (r: Vec<ProfileRow>)
    ensures
        r@.len() == config@.profiles.len(),
        forall|i: int|
            0 <= i < r@.len() ==> is_profile_row(
                #[trigger] r@[i],
                config@.profiles[i],
                config@,
                monitors@,
            ),
{
    let active = match config.best_match(monitors) {
        Some(p) => {
            proof {
                let b = best_of(
                    config@.profiles,
                    monitors@,
                    config@.profiles.len() as int,
                ).unwrap();
                assert(config@.profiles[b] == p@);
            }
            Some(p.name.clone())
        },
        None => None,
    };
    let mut r: Vec<ProfileRow> = Vec::new();
    let mut i: usize = 0;
    assert(config@.profiles.len() == config.profiles@.len());
    while i < config.profiles.len()
        invariant
            i <= config.profiles@.len(),
            config@.profiles.len() == config.profiles@.len(),
            view_opt(active) == active_name(config@, monitors@),
            r@.len() == i,
            forall|k: int|
                0 <= k < i ==> is_profile_row(
                    #[trigger] r@[k],
                    config@.profiles[k],
                    config@,
                    monitors@,
                ),
        decreases config.profiles@.len() - i,
    {
        let p = &config.profiles[i];
        assert(config@.profiles[i as int] == p@);
        let chosen = match &active {
            Some(a) => same(a.as_str(), p.name.as_str()),
            None => false,
        };
        let standing = if chosen {
            Standing::Active
        } else if p.matches(monitors) {
            Standing::Matches
        } else {
            Standing::DoesNotMatch
        };
        r.push(
            ProfileRow {
                name: p.name.clone(),
                outputs: joined(&pattern_list(p), ", "),
                exact: p.exact,
                standing,
            },
        );
        i = i + 1;
    }
    r
}

// ---------------------------------------------------------------- main screen

/// What is known of the main screen.
#[derive(Debug, Clone, PartialEq, Eq)]
pub enum PrimaryStatus {
    /// Designated and connected: its connector and the pattern.
    Current(String, String),
    /// Designated, but not plugged in right now: the pattern.
    Absent(String),
    Unset,
}

pub fn primary_status(config: &Config, monitors: &[Monitor]) -> (r: PrimaryStatus)
    ensures
        match (config@.settings.primary, config@.primary_among(monitors@)) {
            (Some(p), Some(n)) => match r {
                PrimaryStatus::Current(name, pattern) => name@ == n && pattern@ == p,
                _ => false,
            },
            (Some(p), None) => match r {
                PrimaryStatus::Absent(pattern) => pattern@ == p,
                _ => false,
            },
            (None, _) => r is Unset,
        },
{
    match (&config.settings.primary, config.primary_output(monitors)) {
        (Some(p), Some(n)) => PrimaryStatus::Current(n, p.clone()),
        (Some(p), None) => PrimaryStatus::Absent(p.clone()),
        (None, _) => PrimaryStatus::Unset,
    }
}

/// The first monitor from `i` on that a pattern designates.
pub open spec fn first_designated(pattern: Seq<char>, monitors: Seq<Monitor>, i: int) -> Option<int>
    decreases monitors.len() - i,
{
    if i < 0 || i >= monitors.len() {
        None
    } else if designates(pattern, monitors[i]) {
        Some(i)
    } else {
        first_designated(pattern, monitors, i + 1)
    }
}

/// Designates the main screen, by name, fingerprint or pattern.
///
/// Recorded by fingerprint, like a profile rule: the choice is about a screen,
/// not about the port it happens to be plugged into today. The position of the
/// monitor is handed out.
pub fn designate_primary(config: &mut Config, wanted: &str, monitors: &[Monitor]) -> (r: Result<
    usize,
    Notice,
>)
    ensures
        match (r, first_designated(wanted@, monitors@, 0)) {
            (Ok(i), Some(k)) => i == k && i < monitors@.len() && final(config)@ == (ConfigView {
                settings: SettingsView {
                    primary: Some(monitors@[k].print()),
                    ..old(config)@.settings
                },
                ..old(config)@
            }),
            (Err(e), None) => final(config)@ == old(config)@ && e@ == unknown_connector(
                monitors@,
                wanted@,
            ),
            _ => false,
        },
{
    let mut i: usize = 0;
    while i < monitors.len() && !matches_pattern(wanted, &monitors[i])
        invariant
            i <= monitors@.len(),
            config@ == old(config)@,
            first_designated(wanted@, monitors@, 0) == first_designated(
                wanted@,
                monitors@,
                i as int,
            ),
        decreases monitors@.len() - i,
    {
        i = i + 1;
    }
    if i == monitors.len() {
        return Err(
            Notice::two(
                NoticeId::UnknownConnector,
                wanted,
                joined(&connector_names(monitors), ", ").as_str(),
            ),
        );
    }
    config.settings.primary = Some(monitors[i].fingerprint());
    Ok(i)
}

/// Forgets the main screen.
pub fn clear_primary(config: &mut Config)
    ensures
        final(config)@ == (ConfigView {
            settings: SettingsView { primary: None, ..old(config)@.settings },
            ..old(config)@
        }),
{
    config.settings.primary = None;
}

/// The live layout rebuilt around a main screen.
pub fn layout_around(monitors: &[Monitor], primary: Option<String>) -> (r: Result<Layout, Notice>)
    ensures
        match (r, anchored(stamped(live_layout(monitors@), view_opt(primary)))) {
            (Ok(a), Ok(b)) => a@ == b,
            (Err(a), Err(b)) => a@ == b,
            _ => false,
        },
{
    anchor(Layout::from_monitors(monitors).with_primary(primary))
}

// ---------------------------------------------------------------- reporting

/// What is told of an application: the warnings about the layout, then every
/// drift.
pub open spec fn told(report: crate::apply::ReportView) -> Seq<(Severity, NoticeView)> {
    warnings(report.issues) + report.drifts.map_values(
        |d: crate::apply::DriftView| (d.severity, d.message),
    )
}

pub open spec fn warnings(issues: Seq<crate::layout::IssueView>) -> Seq<(Severity, NoticeView)>
    decreases issues.len(),
{
    if issues.len() == 0 {
        Seq::empty()
    } else {
        let before = warnings(issues.drop_last());
        if issues.last().severity == Severity::Warning {
            before.push((Severity::Warning, issues.last().message))
        } else {
            before
        }
    }
}

pub open spec fn told_views(v: Seq<(Severity, Notice)>) -> Seq<(Severity, NoticeView)> {
    Seq::new(v.len(), |i: int| (v[i].0, v[i].1@))
}

pub fn report_lines(report: &ApplyReport) -> (r: Vec<(Severity, Notice)>)
    ensures
        told_views(r@) == told(report@),
{
    let ghost issues = report@.issues;
    let ghost drifts = report@.drifts.map_values(
        |d: crate::apply::DriftView| (d.severity, d.message),
    );
    let mut r: Vec<(Severity, Notice)> = Vec::new();
    let mut i: usize = 0;
    assert(told_views(r@) =~= Seq::empty());
    while i < report.issues.len()
        invariant
            i <= report.issues@.len(),
            issues == issue_views(report.issues@),
            told_views(r@) == warnings(issues.take(i as int)),
        decreases report.issues@.len() - i,
    {
        assert(issues.take(i + 1).drop_last() =~= issues.take(i as int));
        if report.issues[i].severity == Severity::Warning {
            let ghost before = told_views(r@);
            let m = report.issues[i].message.copy();
            let ghost shown = m@;
            r.push((Severity::Warning, m));
            assert(told_views(r@) =~= before.push((Severity::Warning, shown)));
        }
        i = i + 1;
    }
    assert(issues.take(issues.len() as int) =~= issues);
    let ghost head = told_views(r@);
    let mut i: usize = 0;
    assert(head + drifts.take(0) =~= head);
    while i < report.drifts.len()
        invariant
            i <= report.drifts@.len(),
            drifts == drift_views(report.drifts@).map_values(
                |d: crate::apply::DriftView| (d.severity, d.message),
            ),
            told_views(r@) == head + drifts.take(i as int),
        decreases report.drifts@.len() - i,
    {
        let ghost before = told_views(r@);
        let m = report.drifts[i].message.copy();
        let ghost shown = m@;
        let severity = report.drifts[i].severity;
        assert(drifts[i as int] == (severity, shown));
        r.push((severity, m));
        i = i + 1;
        assert(told_views(r@) =~= before.push((severity, shown)));
        assert(told_views(r@) =~= head + drifts.take(i as int));
    }
    assert(drifts.take(drifts.len() as int) =~= drifts);
    r
}

/// What follows an application on the command line.
#[derive(Debug, Clone, Copy, PartialEq, Eq, Structural)]
pub enum Next {
    /// It was rolled back.
    Fail,
    /// The user is asked to confirm.
    Confirm,
    /// It is filed in the history.
    File,
}

/// Skipping the prompt means "do not ask", not "do not record": a layout applied
/// without a question is still one the user may want to undo. Only a layout that
/// was rolled back, or that the user rejects, is not filed.
pub fn after_application(rolled_back: bool, no_confirm: bool, timeout_secs: u64, terminal: bool) -> (r: Next)
    ensures
        r == if rolled_back {
            Next::Fail
        } else if !no_confirm && timeout_secs > 0 && terminal {
            Next::Confirm
        } else {
            Next::File
        },
{
    if rolled_back {
        Next::Fail
    } else if !no_confirm && asks_for_confirmation(timeout_secs, terminal) {
        Next::Confirm
    } else {
        Next::File
    }
}

/// One line of the history listing.
#[derive(Debug, Clone, PartialEq, Eq)]
pub struct HistoryRow {
    pub index: usize,
    pub when: String,
    /// The profile, where the layout came from one.
    pub profile: Option<String>,
    pub summary: String,
}

pub open spec fn is_history_row(row: HistoryRow, index: int, s: SnapshotView, now: u64, locale: Locale) -> bool {
    &&& row.index == index
    &&& row.when@ == age_notice(
        if now >= s.at {
            now - s.at
        } else {
            0
        },
    ).said(locale)
    &&& view_opt(row.profile) == s.profile
    &&& row.summary@ == layout_summary(s.layout, locale)
}

/// The listing of the recorded layouts.
pub fn history_rows(store: &Store, now: u64, locale: Locale) -> (r: Vec<HistoryRow>)
    ensures
        r@.len() == store@.history.len(),
        forall|i: int|
            0 <= i < r@.len() ==> is_history_row(
                #[trigger] r@[i],
                i,
                store@.history[i],
                now,
                locale,
            ),
{
    let mut r: Vec<HistoryRow> = Vec::new();
    let mut i: usize = 0;
    assert(store@.history.len() == store.history@.len());
    while i < store.history.len()
        invariant
            i <= store.history@.len(),
            store@.history.len() == store.history@.len(),
            r@.len() == i,
            forall|k: int|
                0 <= k < i ==> is_history_row(
                    #[trigger] r@[k],
                    k,
                    store@.history[k],
                    now,
                    locale,
                ),
        decreases store.history@.len() - i,
    {
        let s = &store.history[i];
        assert(store@.history[i as int] == s@);
        r.push(
            HistoryRow {
                index: i,
                when: s.age_label(now, locale),
                profile: copy_opt(&s.profile),
                summary: s.describe(locale),
            },
        );
        i = i + 1;
    }
    r
}

/// One line of the listing of plugins.
#[derive(Debug, Clone, PartialEq, Eq)]
pub struct PluginRow {
    pub label: String,
    pub active: bool,
    pub detected: bool,
    /// Whether it can reconfigure a running session, or writes files only.
    pub live: bool,
    pub files: String,
}

pub open spec fn is_plugin_row(row: PluginRow, p: Plugin, active: Plugin, env: Environment) -> bool {
    &&& row.label@ == p.labelled()
    &&& row.active == (p.named() == active.named())
    &&& row.detected == p.runs(env)
    &&& row.live == p.drives()
    &&& row.files@ == p.monitors_name() + ", "@ + p.input_name()
}

/// The listing of the plugins, with the one in force marked.
pub fn plugin_rows(active: Plugin, env: &Environment) -> (r: Vec<PluginRow>)
    ensures
        r@.len() == registry().len(),
        forall|i: int|
            0 <= i < r@.len() ==> is_plugin_row(#[trigger] r@[i], registry()[i], active, *env),
{
    let plugins = all();
    let mut r: Vec<PluginRow> = Vec::new();
    let mut i: usize = 0;
    while i < plugins.len()
        invariant
            i <= plugins@.len(),
            plugins@ == registry(),
            r@.len() == i,
            forall|k: int|
                0 <= k < i ==> is_plugin_row(#[trigger] r@[k], registry()[k], active, *env),
        decreases plugins@.len() - i,
    {
        let p = plugins[i];
        let mut files = p.monitors_file().to_owned();
        files.append(", ");
        files.append(p.input_file());
        r.push(
            PluginRow {
                label: p.label().to_owned(),
                active: same(p.id(), active.id()),
                detected: p.running(env),
                live: p.drives_sessions(),
                files,
            },
        );
        i = i + 1;
    }
    r
}

/// Names the plugin in force and where the choice came from.
///
/// Which file gets written, and in which syntax, is the one thing a user cannot
/// guess.
pub fn describe_compositor(config: &Config, plugin: Plugin) -> (r: Notice)
    ensures
        r@ == note(
            if config@.settings.compositor is Some {
                NoticeId::CompositorConfigured
            } else {
                NoticeId::CompositorDetected
            },
            seq![plugin.labelled()],
        ),
{
    if config.settings.compositor.is_some() {
        Notice::one(NoticeId::CompositorConfigured, plugin.label())
    } else {
        Notice::one(NoticeId::CompositorDetected, plugin.label())
    }
}

/// Is the compositor's own configuration already pulling in the generated file?
pub fn requires_generated_file<C: Compositor>(c: &C, conf: &str, generated: &str) -> (r: bool)
    ensures
        r == crate::emit::is_wired(*c, conf@, generated@),
{
    let ls = crate::text::lines_of(conf);
    assert(views(ls@).len() == ls@.len());
    crate::emit::already_includes(c, &ls, generated)
}

} // verus!
