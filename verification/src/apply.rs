//! Applying a layout with a safety net.
//!
//! A compositor replies `ok` even when it hasn't done what was asked: a
//! nonexistent mode is accepted without complaint, an invalid scale is silently
//! rounded. The only reliable way to know what actually happened is to re-read
//! the state afterwards and compare it to what was wanted — that's the role of
//! [`diff`].
//!
//! But the change isn't instantaneous: reading only once, right after the `ok`,
//! would wrongly conclude failure — hence the settling phase of
//! [`Application`].

use vstd::prelude::*;

use crate::compositor::Compositor;
use crate::fixed::{Fixed, UNIT};
use crate::i18n::Locale;
use crate::layout::{
    format_scale, issue_views, live_layout, output_of, scale_text, Issue, IssueView, Layout,
    LayoutView, OutputState, OutputView, Severity,
};
use crate::monitor::{decoded, Mode, Monitor, Transform};
use crate::notice::{note, Arg, ArgView, Notice, NoticeId, NoticeView};
use crate::number::{int_string, int_text, ratio_string, ratio_text};
use crate::seqs::gather;
use crate::text::{
    all_ascii, ascii_lowercase, begins, copy_all, join, joined, lemma_views_push, lowercase,
    lowercase_of, same, same_opt, starts_with, trim, trimmed, view_opt, view_opt_str, views,
};

verus! {

/// Tolerance on the scale before reporting a drift: 0.005.
pub const SCALE_TOLERANCE: i64 = 5_000_000;

/// Tolerance on the refresh rate (compositors round: 60 → 60.06): 1.5 Hz.
pub const REFRESH_TOLERANCE: i64 = 1_500_000_000;

/// Milliseconds between two reads while settling.
pub const SETTLE_INTERVAL: u64 = 50;

/// Milliseconds after which the compositor won't do anything more.
pub const SETTLE_TIMEOUT: u64 = 1500;

/// Property a drift is about.
#[derive(Debug, Clone, Copy, PartialEq, Eq, Structural)]
pub enum Field {
    Presence,
    Enabled,
    Mode,
    Refresh,
    Position,
    Transform,
    Scale,
    Mirror,
}

impl Field {
    /// Everything a compositor applies on the next commit; scale and refresh
    /// rate are deliberate corrections, and waiting would change nothing.
    pub open spec fn settles(self) -> bool {
        self != Field::Scale && self != Field::Refresh
    }

    /// Can this drift resolve itself if we wait?
    pub fn converges(self) -> (r: bool)
        ensures
            r == self.settles(),
    {
        !matches!(self, Field::Scale | Field::Refresh)
    }
}

/// A drift between what was requested and what the compositor actually did.
#[derive(Debug, Clone, PartialEq, Eq)]
pub struct Drift {
    pub output: String,
    pub field: Field,
    pub severity: Severity,
    pub message: Notice,
}

#[verifier::ext_equal]
pub ghost struct DriftView {
    pub output: Seq<char>,
    pub field: Field,
    pub severity: Severity,
    pub message: NoticeView,
}

impl View for Drift {
    type V = DriftView;

    open spec fn view(&self) -> DriftView {
        DriftView {
            output: self.output@,
            field: self.field,
            severity: self.severity,
            message: self.message@,
        }
    }
}

pub open spec fn drift_views(v: Seq<Drift>) -> Seq<DriftView> {
    Seq::new(v.len(), |i: int| v[i]@)
}

impl Drift {
    fn error(output: &str, field: Field, message: Notice) -> (r: Self)
        ensures
            r@ == (DriftView {
                output: output@,
                field,
                severity: Severity::Error,
                message: message@,
            }),
    {
        Drift { output: output.to_owned(), field, severity: Severity::Error, message }
    }

    fn warning(output: &str, field: Field, message: Notice) -> (r: Self)
        ensures
            r@ == (DriftView {
                output: output@,
                field,
                severity: Severity::Warning,
                message: message@,
            }),
    {
        Drift { output: output.to_owned(), field, severity: Severity::Warning, message }
    }
}

// ---------------------------------------------------------------- drifts

/// The first monitor from `i` on with the given name.
pub open spec fn monitor_from(all: Seq<Monitor>, name: Seq<char>, i: int) -> Option<int>
    decreases all.len() - i,
{
    if i < 0 || i >= all.len() {
        None
    } else if all[i].name@ == name {
        Some(i)
    } else {
        monitor_from(all, name, i + 1)
    }
}

pub open spec fn monitor_named(all: Seq<Monitor>, name: Seq<char>) -> Option<int> {
    monitor_from(all, name, 0)
}

pub open spec fn apart(a: int, b: int, tolerance: int) -> bool {
    a - b > tolerance || b - a > tolerance
}

/// `WxH`, or `XxY`.
pub open spec fn pair_text(a: int, b: int) -> Seq<char> {
    int_text(a) + "x"@ + int_text(b)
}

pub open spec fn mode_drift(want: OutputView, got: Monitor) -> Seq<DriftView> {
    match want.mode {
        Some(mode) => if mode.width != got.width || mode.height != got.height {
            seq![
                DriftView {
                    output: want.name,
                    field: Field::Mode,
                    severity: Severity::Error,
                    message: note(
                        NoticeId::ModeRefused,
                        seq![
                            want.name,
                            pair_text(mode.width as int, mode.height as int),
                            pair_text(got.width as int, got.height as int),
                        ],
                    ),
                },
            ]
        } else if mode.refresh.nanos > 0 && apart(
            mode.refresh.nanos as int,
            got.refresh_rate.nanos as int,
            REFRESH_TOLERANCE as int,
        ) {
            seq![
                DriftView {
                    output: want.name,
                    field: Field::Refresh,
                    severity: Severity::Warning,
                    message: note(
                        NoticeId::RefreshAdjusted,
                        seq![
                            want.name,
                            ratio_text(mode.refresh.nanos as int, UNIT as int, 2),
                            ratio_text(got.refresh_rate.nanos as int, UNIT as int, 2),
                        ],
                    ),
                },
            ]
        } else {
            Seq::empty()
        },
        None => Seq::empty(),
    }
}

/// A mirrored output snaps to its source's position: only others are compared.
pub open spec fn position_drift(want: OutputView, got: Monitor) -> Seq<DriftView> {
    if want.mirror_of is None && (want.x != got.x || want.y != got.y) {
        seq![
            DriftView {
                output: want.name,
                field: Field::Position,
                severity: Severity::Error,
                message: note(
                    NoticeId::PositionRefused,
                    seq![
                        want.name,
                        pair_text(want.x, want.y),
                        pair_text(got.x as int, got.y as int),
                    ],
                ),
            },
        ]
    } else {
        Seq::empty()
    }
}

pub open spec fn transform_drift(want: OutputView, got: Monitor) -> Seq<DriftView> {
    if want.transform.code() != got.transform {
        seq![
            DriftView {
                output: want.name,
                field: Field::Transform,
                severity: Severity::Error,
                message: NoticeView {
                    id: NoticeId::TransformRefused,
                    args: seq![
                        ArgView::Text(want.name),
                        ArgView::Turn(want.transform),
                        ArgView::Turn(decoded(got.transform)),
                    ],
                },
            },
        ]
    } else {
        Seq::empty()
    }
}

/// Compositors round the scale to a value that yields an integral logical size:
/// this is an expected correction, not a failure.
pub open spec fn scale_drift(want: OutputView, got: Monitor) -> Seq<DriftView> {
    if apart(want.scale.nanos as int, got.scale.nanos as int, SCALE_TOLERANCE as int) {
        seq![
            DriftView {
                output: want.name,
                field: Field::Scale,
                severity: Severity::Warning,
                message: note(
                    NoticeId::ScaleAdjusted,
                    seq![want.name, scale_text(want.scale), scale_text(got.scale)],
                ),
            },
        ]
    } else {
        Seq::empty()
    }
}

pub open spec fn text_or_nothing(o: Option<Seq<char>>) -> ArgView {
    match o {
        Some(s) => ArgView::Text(s),
        None => ArgView::Nothing,
    }
}

pub open spec fn mirror_drift(want: OutputView, got: Monitor, all: Seq<Monitor>) -> Seq<DriftView> {
    if want.mirror_of != got.mirrored(all) {
        seq![
            DriftView {
                output: want.name,
                field: Field::Mirror,
                severity: Severity::Warning,
                message: NoticeView {
                    id: NoticeId::MirrorMismatch,
                    args: seq![
                        ArgView::Text(want.name),
                        text_or_nothing(want.mirror_of),
                        text_or_nothing(got.mirrored(all)),
                    ],
                },
            },
        ]
    } else {
        Seq::empty()
    }
}

/// How one output differs from what was wanted of it.
pub open spec fn drifts_of(want: OutputView, all: Seq<Monitor>) -> Seq<DriftView> {
    match monitor_named(all, want.name) {
        None => seq![
            DriftView {
                output: want.name,
                field: Field::Presence,
                severity: Severity::Error,
                message: note(NoticeId::Vanished, seq![want.name]),
            },
        ],
        Some(i) => {
            let got = all[i];
            if want.enabled == got.disabled {
                seq![
                    DriftView {
                        output: want.name,
                        field: Field::Enabled,
                        severity: Severity::Error,
                        message: note(
                            if want.enabled {
                                NoticeId::EnabledButDisabled
                            } else {
                                NoticeId::DisabledButEnabled
                            },
                            seq![want.name],
                        ),
                    },
                ]
            } else if !want.enabled {
                Seq::empty()
            } else {
                mode_drift(want, got) + position_drift(want, got) + transform_drift(want, got)
                    + scale_drift(want, got) + mirror_drift(want, got, all)
            }
        },
    }
}

/// How the state differs from the layout that was wanted.
pub open spec fn all_drifts(layout: LayoutView, all: Seq<Monitor>) -> Seq<DriftView> {
    gather(|i: int| drifts_of(layout.outputs[i], all), layout.outputs.len() as int)
}

fn pair_string(a: i32, b: i32) -> (r: String)
    ensures
        r@ == pair_text(a as int, b as int),
{
    let mut s = int_string(a as i64);
    s.append("x");
    s.append(int_string(b as i64).as_str());
    s
}

fn is_apart(a: Fixed, b: Fixed, tolerance: i64) -> (r: bool)
    ensures
        r == apart(a.nanos as int, b.nanos as int, tolerance as int),
{
    let d: i128 = a.nanos as i128 - b.nanos as i128;
    d > tolerance as i128 || -d > tolerance as i128
}

fn push_drift(drifts: &mut Vec<Drift>, d: Drift)
    ensures
        drift_views(final(drifts)@) == drift_views(old(drifts)@) + seq![d@],
{
    drifts.push(d);
    assert(drift_views(drifts@) =~= drift_views(old(drifts)@) + seq![d@]);
}

pub fn find_monitor(all: &[Monitor], name: &str) -> (r: Option<usize>)
    ensures
        match r {
            Some(i) => monitor_named(all@, name@) == Some(i as int) && i < all@.len(),
            None => monitor_named(all@, name@) is None,
        },
{
    let mut i: usize = 0;
    while i < all.len()
        invariant
            i <= all@.len(),
            monitor_named(all@, name@) == monitor_from(all@, name@, i as int),
        decreases all@.len() - i,
    {
        if same(all[i].name.as_str(), name) {
            return Some(i);
        }
        i = i + 1;
    }
    None
}

fn arg_of(o: &Option<String>) -> (r: Arg)
    ensures
        r@ == text_or_nothing(view_opt(*o)),
{
    match o {
        Some(s) => Arg::Text(s.clone()),
        None => Arg::Nothing,
    }
}

fn mode_drifts(want: &OutputState, got: &Monitor, drifts: &mut Vec<Drift>)
    ensures
        drift_views(final(drifts)@) == drift_views(old(drifts)@) + mode_drift(want@, *got),
{
    let ghost before = drift_views(drifts@);
    let name = want.name.as_str();
    if let Some(mode) = want.mode {
        if mode.width != got.width || mode.height != got.height {
            push_drift(
                drifts,
                Drift::error(
                    name,
                    Field::Mode,
                    Notice::three(
                        NoticeId::ModeRefused,
                        name,
                        pair_string(mode.width, mode.height).as_str(),
                        pair_string(got.width, got.height).as_str(),
                    ),
                ),
            );
            return;
        }
        if mode.refresh.nanos > 0 && is_apart(mode.refresh, got.refresh_rate, REFRESH_TOLERANCE) {
            push_drift(
                drifts,
                Drift::warning(
                    name,
                    Field::Refresh,
                    Notice::three(
                        NoticeId::RefreshAdjusted,
                        name,
                        ratio_string(mode.refresh.nanos, UNIT, 2).as_str(),
                        ratio_string(got.refresh_rate.nanos, UNIT, 2).as_str(),
                    ),
                ),
            );
            return;
        }
    }
    assert(drift_views(drifts@) =~= before + mode_drift(want@, *got));
}

fn diff_output(want: &OutputState, all: &[Monitor], drifts: &mut Vec<Drift>)
    ensures
        drift_views(final(drifts)@) == drift_views(old(drifts)@) + drifts_of(want@, all@),
{
    let ghost before = drift_views(drifts@);
    let name = want.name.as_str();
    let got = match find_monitor(all, name) {
        Some(i) => &all[i],
        None => {
            push_drift(
                drifts,
                Drift::error(name, Field::Presence, Notice::one(NoticeId::Vanished, name)),
            );
            return;
        },
    };
    if want.enabled == got.disabled {
        let id = if want.enabled {
            NoticeId::EnabledButDisabled
        } else {
            NoticeId::DisabledButEnabled
        };
        push_drift(drifts, Drift::error(name, Field::Enabled, Notice::one(id, name)));
        return;
    }
    if !want.enabled {
        assert(drift_views(drifts@) =~= before + Seq::<DriftView>::empty());
        return;
    }
    mode_drifts(want, got, drifts);
    let ghost a = mode_drift(want@, *got);
    if want.mirror_of.is_none() && (want.x != got.x || want.y != got.y) {
        push_drift(
            drifts,
            Drift::error(
                name,
                Field::Position,
                Notice::three(
                    NoticeId::PositionRefused,
                    name,
                    pair_string(want.x, want.y).as_str(),
                    pair_string(got.x, got.y).as_str(),
                ),
            ),
        );
    }
    let ghost b = a + position_drift(want@, *got);
    assert(drift_views(drifts@) =~= before + b);
    if want.transform.to_u8() != got.transform {
        let mut message = Notice::one(NoticeId::TransformRefused, name);
        message.args.push(Arg::Turn(want.transform));
        message.args.push(Arg::Turn(got.transform()));
        assert(message@.args =~= seq![
            ArgView::Text(want@.name),
            ArgView::Turn(want@.transform),
            ArgView::Turn(decoded(got.transform)),
        ]) by {
            assert(note(NoticeId::TransformRefused, seq![name@]).args.len() == 1);
            assert(note(NoticeId::TransformRefused, seq![name@]).args[0] == ArgView::Text(name@));
        }
        push_drift(drifts, Drift::error(name, Field::Transform, message));
    }
    let ghost c = b + transform_drift(want@, *got);
    assert(drift_views(drifts@) =~= before + c);
    if is_apart(want.scale, got.scale, SCALE_TOLERANCE) {
        push_drift(
            drifts,
            Drift::warning(
                name,
                Field::Scale,
                Notice::three(
                    NoticeId::ScaleAdjusted,
                    name,
                    format_scale(want.scale).as_str(),
                    format_scale(got.scale).as_str(),
                ),
            ),
        );
    }
    let ghost d = c + scale_drift(want@, *got);
    assert(drift_views(drifts@) =~= before + d);
    let got_mirror = got.mirror_target(all);
    if !same_opt(&want.mirror_of, &got_mirror) {
        let mut message = Notice::one(NoticeId::MirrorMismatch, name);
        let x = arg_of(&want.mirror_of);
        let y = arg_of(&got_mirror);
        message.args.push(x);
        message.args.push(y);
        assert(message@.args =~= seq![
            ArgView::Text(want@.name),
            text_or_nothing(want@.mirror_of),
            text_or_nothing(got.mirrored(all@)),
        ]) by {
            assert(note(NoticeId::MirrorMismatch, seq![name@]).args.len() == 1);
            assert(note(NoticeId::MirrorMismatch, seq![name@]).args[0] == ArgView::Text(name@));
        }
        push_drift(drifts, Drift::warning(name, Field::Mirror, message));
    }
    assert(drift_views(drifts@) =~= before + drifts_of(want@, all@));
}

/// Compares the requested layout to the state actually obtained.
pub fn diff(requested: &Layout, actual: &[Monitor]) -> (r: Vec<Drift>)
    ensures
        drift_views(r@) == all_drifts(requested@, actual@),
{
    let mut drifts: Vec<Drift> = Vec::new();
    let ghost f = |i: int| drifts_of(requested@.outputs[i], actual@);
    let mut i: usize = 0;
    assert(drift_views(drifts@) =~= Seq::empty());
    while i < requested.outputs.len()
        invariant
            i <= requested.outputs@.len(),
            f == (|i: int| drifts_of(requested@.outputs[i], actual@)),
            drift_views(drifts@) == gather(f, i as int),
        decreases requested.outputs@.len() - i,
    {
        diff_output(&requested.outputs[i], actual, &mut drifts);
        assert(gather(f, i + 1) == gather(f, i as int) + f(i as int));
        i = i + 1;
    }
    drifts
}

// ---------------------------------------------------------------- laws

/// Whether a monitor does what was wanted of its output.
pub open spec fn obeyed(want: OutputView, got: Monitor, all: Seq<Monitor>) -> bool {
    &&& want.enabled == !got.disabled
    &&& want.enabled ==> {
        &&& match want.mode {
            Some(m) => m.width == got.width && m.height == got.height && (m.refresh.nanos > 0
                ==> !apart(
                m.refresh.nanos as int,
                got.refresh_rate.nanos as int,
                REFRESH_TOLERANCE as int,
            )),
            None => true,
        }
        &&& want.mirror_of is None ==> want.x == got.x && want.y == got.y
        &&& want.transform.code() == got.transform
        &&& !apart(want.scale.nanos as int, got.scale.nanos as int, SCALE_TOLERANCE as int)
        &&& want.mirror_of == got.mirrored(all)
    }
}

/// The comparison is silent on an output exactly when it is there and obeys.
pub proof fn silence_means_obedience(want: OutputView, all: Seq<Monitor>)
    ensures
        (drifts_of(want, all).len() == 0) == (match monitor_named(all, want.name) {
            Some(i) => obeyed(want, all[i], all),
            None => false,
        }),
{
}

/// Whether a field's drift blocks: those that a compositor corrects on purpose,
/// and mirroring, do not.
pub open spec fn blocks(field: Field) -> bool {
    field != Field::Refresh && field != Field::Scale && field != Field::Mirror
}

/// Every drift is about the output that was asked for, and is an error exactly
/// when its field blocks.
pub proof fn drifts_are_graded_by_field(want: OutputView, all: Seq<Monitor>, k: int)
    requires
        0 <= k < drifts_of(want, all).len(),
    ensures
        drifts_of(want, all)[k].output == want.name,
        (drifts_of(want, all)[k].severity == Severity::Error) == blocks(
            drifts_of(want, all)[k].field,
        ),
{
}

proof fn lemma_monitor_from(all: Seq<Monitor>, name: Seq<char>, i: int, k: int)
    requires
        0 <= i <= k < all.len(),
        all[k].name@ == name,
        forall|j: int| i <= j < k ==> (#[trigger] all[j]).name@ != name,
    ensures
        monitor_from(all, name, i) == Some(k),
    decreases k - i,
{
    if i < k {
        assert(all[i].name@ != name);
        lemma_monitor_from(all, name, i + 1, k);
    }
}

/// A state compared to the layout that was read from it shows no drift, as long
/// as no two monitors share a name, and scales and transforms are real ones.
pub proof fn a_layout_read_back_shows_no_drift(all: Seq<Monitor>)
    requires
        forall|i: int, j: int|
            0 <= i < j < all.len() ==> (#[trigger] all[i]).name@ != (#[trigger] all[j]).name@,
        forall|i: int|
            0 <= i < all.len() ==> (#[trigger] all[i]).scale.nanos > 0 && all[i].transform <= 7,
    ensures
        all_drifts(live_layout(all), all) == Seq::<DriftView>::empty(),
{
    let l = live_layout(all);
    let f = |i: int| drifts_of(l.outputs[i], all);
    assert forall|i: int| 0 <= i < all.len() implies #[trigger] f(i) == Seq::<
        DriftView,
    >::empty() by {
        let want = l.outputs[i];
        assert(want == output_of(all[i], all));
        lemma_monitor_from(all, want.name, 0, i);
        assert(decoded(all[i].transform).code() == all[i].transform);
        assert(obeyed(want, all[i], all));
        silence_means_obedience(want, all);
        assert(f(i) =~= Seq::empty());
    }
    lemma_nothing_gathered(f, all.len() as int);
}

proof fn lemma_nothing_gathered(f: spec_fn(int) -> Seq<DriftView>, n: int)
    requires
        forall|i: int| 0 <= i < n ==> #[trigger] f(i) == Seq::<DriftView>::empty(),
    ensures
        gather(f, n) == Seq::<DriftView>::empty(),
    decreases n,
{
    if n > 0 {
        lemma_nothing_gathered(f, n - 1);
        assert(f(n - 1) == Seq::<DriftView>::empty());
        assert(gather(f, n) =~= Seq::<DriftView>::empty());
    }
}

// ---------------------------------------------------------------- applying

/// Result of an apply operation.
#[derive(Debug, Clone, PartialEq, Eq)]
pub struct ApplyReport {
    /// Directives sent to the compositor, in its own syntax.
    pub specs: Vec<String>,
    /// Problems detected before sending.
    pub issues: Vec<Issue>,
    /// Drifts observed after sending.
    pub drifts: Vec<Drift>,
    /// The previous state has been restored.
    pub rolled_back: bool,
}

#[verifier::ext_equal]
pub ghost struct ReportView {
    pub specs: Seq<Seq<char>>,
    pub issues: Seq<IssueView>,
    pub drifts: Seq<DriftView>,
    pub rolled_back: bool,
}

impl View for ApplyReport {
    type V = ReportView;

    open spec fn view(&self) -> ReportView {
        ReportView {
            specs: views(self.specs@),
            issues: issue_views(self.issues@),
            drifts: drift_views(self.drifts@),
            rolled_back: self.rolled_back,
        }
    }
}

impl Default for ApplyReport {
    fn default() -> (r: Self)
        ensures
            r@ == (ReportView {
                specs: Seq::empty(),
                issues: Seq::empty(),
                drifts: Seq::empty(),
                rolled_back: false,
            }),
    {
        let r = ApplyReport {
            specs: Vec::new(),
            issues: Vec::new(),
            drifts: Vec::new(),
            rolled_back: false,
        };
        assert(r@.specs =~= Seq::empty());
        assert(r@.issues =~= Seq::empty());
        assert(r@.drifts =~= Seq::empty());
        r
    }
}

/// Whether a drift makes the result unusable.
pub open spec fn fatal(drifts: Seq<DriftView>) -> bool {
    exists|i: int| 0 <= i < drifts.len() && (#[trigger] drifts[i]).severity == Severity::Error
}

/// Whether waiting may still resolve a drift.
pub open spec fn unsettled(drifts: Seq<DriftView>) -> bool {
    exists|i: int| 0 <= i < drifts.len() && (#[trigger] drifts[i]).field.settles()
}

fn is_fatal(drifts: &Vec<Drift>) -> (r: bool)
    ensures
        r == fatal(drift_views(drifts@)),
{
    let ghost all = drift_views(drifts@);
    let mut i: usize = 0;
    while i < drifts.len()
        invariant
            i <= drifts@.len(),
            all == drift_views(drifts@),
            forall|j: int| 0 <= j < i ==> (#[trigger] all[j]).severity != Severity::Error,
        decreases drifts@.len() - i,
    {
        assert(all[i as int] == drifts@[i as int]@);
        if drifts[i].severity == Severity::Error {
            return true;
        }
        i = i + 1;
    }
    false
}

/// Whether the state is still on its way.
pub fn is_unsettled(drifts: &Vec<Drift>) -> (r: bool)
    ensures
        r == unsettled(drift_views(drifts@)),
{
    let ghost all = drift_views(drifts@);
    let mut i: usize = 0;
    while i < drifts.len()
        invariant
            i <= drifts@.len(),
            all == drift_views(drifts@),
            forall|j: int| 0 <= j < i ==> !(#[trigger] all[j]).field.settles(),
        decreases drifts@.len() - i,
    {
        assert(all[i as int] == drifts@[i as int]@);
        if drifts[i].field.converges() {
            return true;
        }
        i = i + 1;
    }
    false
}

impl ApplyReport {
    pub fn succeeded(&self) -> (r: bool)
        ensures
            r == (!self@.rolled_back && !fatal(self@.drifts)),
    {
        !self.rolled_back && !is_fatal(&self.drifts)
    }
}

/// Why a layout is refused before anything is read or sent.
#[derive(Debug, Clone, PartialEq, Eq)]
pub enum ApplyError {
    /// The plugin has no way to apply.
    NoLiveApply(Notice),
    /// The layout's own errors.
    Rejected(Vec<Issue>),
}

/// The issues that block.
pub open spec fn blocking(issues: Seq<IssueView>) -> Seq<IssueView>
    decreases issues.len(),
{
    if issues.len() == 0 {
        Seq::empty()
    } else {
        let before = blocking(issues.drop_last());
        if issues.last().severity == Severity::Error {
            before.push(issues.last())
        } else {
            before
        }
    }
}

/// There are blocking issues exactly when the layout has errors.
pub proof fn erroneous_layouts_have_blocking_issues(issues: Seq<IssueView>)
    ensures
        (blocking(issues).len() > 0) == (exists|i: int|
            0 <= i < issues.len() && (#[trigger] issues[i]).severity == Severity::Error),
    decreases issues.len(),
{
    if issues.len() > 0 {
        let body = issues.drop_last();
        erroneous_layouts_have_blocking_issues(body);
        let last = issues.len() - 1;
        assert(issues[last] == issues.last());
        if blocking(issues).len() > 0 && issues.last().severity != Severity::Error {
            let i = choose|i: int|
                0 <= i < body.len() && (#[trigger] body[i]).severity == Severity::Error;
            assert(issues[i].severity == Severity::Error);
        }
        if exists|i: int| 0 <= i < issues.len() && (#[trigger] issues[i]).severity
            == Severity::Error {
            let i = choose|i: int|
                0 <= i < issues.len() && (#[trigger] issues[i]).severity == Severity::Error;
            if i < last {
                assert(body[i].severity == Severity::Error);
            }
        }
    }
}

/// One bullet per issue.
pub open spec fn bullets(issues: Seq<IssueView>, locale: Locale) -> Seq<Seq<char>> {
    issues.map_values(|i: IssueView| "  • "@ + i.message.said(locale))
}

impl ApplyError {
    /// The refusal in words.
    pub fn text(&self, locale: Locale) -> (r: String)
        ensures
            r@ == match *self {
                ApplyError::NoLiveApply(n) => n@.said(locale),
                ApplyError::Rejected(issues) => note(
                    NoticeId::ApplyRejected,
                    seq![join(bullets(issue_views(issues@), locale), "\n"@)],
                ).said(locale),
            },
    {
        match self {
            ApplyError::NoLiveApply(n) => n.text(locale),
            ApplyError::Rejected(issues) => {
                let ghost want = bullets(issue_views(issues@), locale);
                let mut parts: Vec<String> = Vec::new();
                let mut i: usize = 0;
                while i < issues.len()
                    invariant
                        i <= issues@.len(),
                        want == bullets(issue_views(issues@), locale),
                        views(parts@) == want.take(i as int),
                    decreases issues@.len() - i,
                {
                    let mut s = "  • ".to_owned();
                    s.append(issues[i].message.text(locale).as_str());
                    proof {
                        lemma_views_push(parts@, s);
                    }
                    parts.push(s);
                    i = i + 1;
                    assert(views(parts@) =~= want.take(i as int));
                }
                assert(views(parts@) =~= want);
                Notice::one(NoticeId::ApplyRejected, joined(&parts, "\n").as_str()).text(locale)
            },
        }
    }
}

/// Where an application stands.
#[derive(Debug, Clone, Copy, PartialEq, Eq, Structural)]
pub enum Phase {
    /// The current state is being read, to go back to if need be.
    Reading,
    /// The layout is being sent.
    Sending,
    /// Sending failed: the previous state is being sent, in case a part was applied.
    Undoing,
    /// The state is being re-read until it matches the request.
    Settling,
    /// The result is unusable: the previous state is being sent.
    Reverting,
    /// The main screen is being given the focus.
    Focusing,
    /// Nothing is left to do.
    Over,
}

/// What happened to the last action.
#[derive(Debug, Clone)]
pub enum Event {
    /// The outputs as they are, and whether the time to settle has run out.
    Outputs(Vec<Monitor>, bool),
    /// It was done.
    Done,
    /// The session refused it.
    Refused,
}

/// What to do next.
#[derive(Debug, Clone, PartialEq, Eq)]
pub enum Action {
    ReadOutputs,
    /// Send directives to the session.
    Push(Vec<String>),
    /// Wait a settling interval.
    Wait,
    /// Give the focus to an output.
    Focus(String),
    /// Hand out the report.
    Finish,
    /// Hand out the error of the first action that was refused.
    Fail,
}

pub ghost enum ActionView {
    ReadOutputs,
    Push(Seq<Seq<char>>),
    Wait,
    Focus(Seq<char>),
    Finish,
    Fail,
}

impl View for Action {
    type V = ActionView;

    open spec fn view(&self) -> ActionView {
        match *self {
            Action::ReadOutputs => ActionView::ReadOutputs,
            Action::Push(d) => ActionView::Push(views(d@)),
            Action::Wait => ActionView::Wait,
            Action::Focus(n) => ActionView::Focus(n@),
            Action::Finish => ActionView::Finish,
            Action::Fail => ActionView::Fail,
        }
    }
}

/// A layout on its way to the compositor.
#[derive(Debug)]
pub struct Application {
    pub layout: Layout,
    /// Bypasses validation errors *and* observed drifts: the escape hatch for
    /// when the user knows what they're doing.
    pub force: bool,
    pub report: ApplyReport,
    /// The state before.
    pub previous: Layout,
    pub phase: Phase,
}

#[verifier::ext_equal]
pub ghost struct ApplicationView {
    pub layout: LayoutView,
    pub force: bool,
    pub report: ReportView,
    pub previous: LayoutView,
    pub phase: Phase,
}

impl View for Application {
    type V = ApplicationView;

    open spec fn view(&self) -> ApplicationView {
        ApplicationView {
            layout: self.layout@,
            force: self.force,
            report: self.report@,
            previous: self.previous@,
            phase: self.phase,
        }
    }
}

/// The directives of a layout.
pub open spec fn directives<C: Compositor>(c: C, layout: LayoutView) -> Seq<Seq<char>> {
    layout.outputs.map_values(|o: OutputView| c.directive(o))
}

/// An application before anything was read.
pub open spec fn begun<C: Compositor>(c: C, layout: LayoutView, force: bool) -> ApplicationView {
    ApplicationView {
        layout,
        force,
        report: ReportView {
            specs: directives(c, layout),
            issues: layout.issues(),
            drifts: Seq::empty(),
            rolled_back: false,
        },
        previous: LayoutView { outputs: Seq::empty(), primary: None },
        phase: Phase::Reading,
    }
}

impl ApplicationView {
    /// The state has settled: a result that is unusable is undone, any other is
    /// kept, and the main screen takes the focus.
    pub open spec fn concluded<C: Compositor>(self, c: C, drifts: Seq<DriftView>) -> (
        ApplicationView,
        ActionView,
    ) {
        let report = ReportView { drifts, ..self.report };
        if fatal(drifts) && !self.force {
            (
                ApplicationView { report, phase: Phase::Reverting, ..self },
                ActionView::Push(directives(c, self.previous)),
            )
        } else {
            match self.layout.primary_at() {
                Some(i) => (
                    ApplicationView { report, phase: Phase::Focusing, ..self },
                    ActionView::Focus(self.layout.outputs[i].name),
                ),
                None => (
                    ApplicationView { report, phase: Phase::Over, ..self },
                    ActionView::Finish,
                ),
            }
        }
    }

    /// What follows an event.
    pub open spec fn advanced<C: Compositor>(self, c: C, event: Event) -> (
        ApplicationView,
        ActionView,
    ) {
        match (self.phase, event) {
            (Phase::Reading, Event::Outputs(all, _)) => (
                ApplicationView { previous: live_layout(all@), phase: Phase::Sending, ..self },
                ActionView::Push(self.report.specs),
            ),
            (Phase::Sending, Event::Done) => (
                ApplicationView { phase: Phase::Settling, ..self },
                ActionView::ReadOutputs,
            ),
            (Phase::Sending, Event::Refused) => (
                ApplicationView { phase: Phase::Undoing, ..self },
                ActionView::Push(directives(c, self.previous)),
            ),
            (Phase::Settling, Event::Outputs(all, expired)) => {
                let drifts = all_drifts(self.layout, all@);
                if unsettled(drifts) && !expired {
                    (self, ActionView::Wait)
                } else {
                    self.concluded(c, drifts)
                }
            },
            (Phase::Settling, Event::Done) => (self, ActionView::ReadOutputs),
            (Phase::Reverting, Event::Done) => (
                ApplicationView {
                    report: ReportView { rolled_back: true, ..self.report },
                    phase: Phase::Over,
                    ..self
                },
                ActionView::Finish,
            ),
            (Phase::Focusing, _) => (
                ApplicationView { phase: Phase::Over, ..self },
                ActionView::Finish,
            ),
            _ => (ApplicationView { phase: Phase::Over, ..self }, ActionView::Fail),
        }
    }

    /// What holds of every application at every moment.
    pub open spec fn consistent(self) -> bool {
        &&& self.report.rolled_back ==> self.phase == Phase::Over && fatal(self.report.drifts)
            && !self.force
        &&& self.phase == Phase::Reverting ==> fatal(self.report.drifts) && !self.force
        &&& self.phase == Phase::Focusing ==> (fatal(self.report.drifts) ==> self.force)
        &&& self.phase == Phase::Reading || self.phase == Phase::Sending || self.phase
            == Phase::Undoing || self.phase == Phase::Settling ==> self.report.drifts.len() == 0
    }
}

/// Applications are consistent from their beginning on, and a finished one was
/// rolled back exactly when its result was unusable and not forced.
pub proof fn applications_stay_consistent<C: Compositor>(
    c: C,
    layout: LayoutView,
    force: bool,
    a: ApplicationView,
    event: Event,
)
    requires
        a.consistent(),
    ensures
        begun(c, layout, force).consistent(),
        a.advanced(c, event).0.consistent(),
        a.advanced(c, event).1 is Finish ==> ({
            let report = a.advanced(c, event).0.report;
            report.rolled_back == (fatal(report.drifts) && !a.force)
        }),
        a.advanced(c, event).0.layout == a.layout,
        a.advanced(c, event).0.force == a.force,
{
}

/// The focus only ever moves to the main screen of a layout that was kept: no
/// application that is rolled back moves it.
pub proof fn focus_follows_a_kept_layout<C: Compositor>(c: C, a: ApplicationView, event: Event)
    requires
        a.consistent(),
        a.advanced(c, event).1 is Focus,
    ensures
        ({
            let next = a.advanced(c, event).0;
            let i = a.layout.primary_at();
            &&& i is Some
            &&& a.advanced(c, event).1 == ActionView::Focus(a.layout.outputs[i.unwrap()].name)
            &&& !next.report.rolled_back
            &&& fatal(next.report.drifts) ==> a.force
            &&& forall|later: Event| !(#[trigger] next.advanced(c, later)).0.report.rolled_back
        }),
{
}

/// Nothing but the layout and the state before are ever sent: the layout once,
/// after the state was read, and the state before only once sending failed or
/// the result was unusable.
pub proof fn only_the_layout_and_the_state_before_are_sent<C: Compositor>(
    c: C,
    a: ApplicationView,
    event: Event,
    sent: Seq<Seq<char>>,
)
    requires
        a.advanced(c, event).1 == ActionView::Push(sent),
    ensures
        a.phase == Phase::Reading ==> sent == a.report.specs,
        a.phase != Phase::Reading ==> sent == directives(c, a.previous),
        a.phase == Phase::Reading || (a.phase == Phase::Sending && event is Refused) || (a.phase
            == Phase::Settling && !a.force && fatal(a.advanced(c, event).0.report.drifts)),
{
}

impl Application {
    /// Prepares a layout for its way to the compositor.
    ///
    /// Refused before anything is read or written: a plugin with no session
    /// has no way to apply, and a layout with errors would leave an output
    /// unusable.
    pub fn begin<C: Compositor>(c: &C, layout: Layout, force: bool) -> (r: Result<
        Application,
        ApplyError,
    >)
        ensures
            match r {
                Ok(a) => c.drives() && (force || !layout@.erroneous()) && a@ == begun(
                    *c,
                    layout@,
                    force,
                ),
                Err(ApplyError::NoLiveApply(n)) => !c.drives() && n@ == note(
                    NoticeId::NoLiveApply,
                    seq![c.labelled(), c.monitors_name()],
                ),
                Err(ApplyError::Rejected(issues)) => c.drives() && !force && layout@.erroneous()
                    && issue_views(issues@) == blocking(layout@.issues()),
            },
    {
        if !c.drives_sessions() {
            return Err(
                ApplyError::NoLiveApply(
                    Notice::two(NoticeId::NoLiveApply, c.label(), c.monitors_file()),
                ),
            );
        }
        let issues = layout.validate();
        if !force {
            if layout.has_errors() {
                return Err(ApplyError::Rejected(blocking_of(issues)));
            }
        }
        let specs = c.output_directives(&layout);
        let report = ApplyReport { specs, issues, drifts: Vec::new(), rolled_back: false };
        let nothing: Vec<OutputState> = Vec::new();
        let previous = Layout::new(nothing);
        assert(previous@.outputs =~= Seq::empty());
        assert(report@.drifts =~= Seq::empty());
        Ok(Application { layout, force, report, previous, phase: Phase::Reading })
    }

    fn conclude<C: Compositor>(self, c: &C, drifts: Vec<Drift>) -> (r: (Application, Action))
        ensures
            (r.0@, r.1@) == self@.concluded(*c, drift_views(drifts@)),
    {
        let mut next = self;
        let unusable = is_fatal(&drifts) && !next.force;
        next.report.drifts = drifts;
        if unusable {
            next.phase = Phase::Reverting;
            let back = c.output_directives(&next.previous);
            return (next, Action::Push(back));
        }
        let name = match next.layout.primary_output() {
            Some(o) => {
                assert(next.layout@.outputs[next.layout@.primary_at().unwrap()] == o@);
                Some(o.name.clone())
            },
            None => None,
        };
        match name {
            Some(n) => {
                next.phase = Phase::Focusing;
                (next, Action::Focus(n))
            },
            None => {
                next.phase = Phase::Over;
                (next, Action::Finish)
            },
        }
    }

    /// What follows an event.
    pub fn step<C: Compositor>(self, c: &C, event: Event) -> (r: (Application, Action))
        ensures
            (r.0@, r.1@) == self@.advanced(*c, event),
    {
        let mut next = self;
        match (next.phase, event) {
            (Phase::Reading, Event::Outputs(all, _)) => {
                next.previous = Layout::from_monitors(all.as_slice());
                next.phase = Phase::Sending;
                let specs = copy_all(&next.report.specs);
                (next, Action::Push(specs))
            },
            (Phase::Sending, Event::Done) => {
                next.phase = Phase::Settling;
                (next, Action::ReadOutputs)
            },
            (Phase::Sending, Event::Refused) => {
                next.phase = Phase::Undoing;
                let back = c.output_directives(&next.previous);
                (next, Action::Push(back))
            },
            (Phase::Settling, Event::Outputs(all, expired)) => {
                let drifts = diff(&next.layout, all.as_slice());
                if is_unsettled(&drifts) && !expired {
                    (next, Action::Wait)
                } else {
                    next.conclude(c, drifts)
                }
            },
            (Phase::Settling, Event::Done) => (next, Action::ReadOutputs),
            (Phase::Reverting, Event::Done) => {
                next.report.rolled_back = true;
                next.phase = Phase::Over;
                (next, Action::Finish)
            },
            (Phase::Focusing, _) => {
                next.phase = Phase::Over;
                (next, Action::Finish)
            },
            _ => {
                next.phase = Phase::Over;
                (next, Action::Fail)
            },
        }
    }
}

fn blocking_of(issues: Vec<Issue>) -> (r: Vec<Issue>)
    ensures
        issue_views(r@) == blocking(issue_views(issues@)),
{
    let ghost all = issue_views(issues@);
    let mut r: Vec<Issue> = Vec::new();
    let mut i: usize = 0;
    assert(issue_views(r@) =~= Seq::empty());
    while i < issues.len()
        invariant
            i <= issues@.len(),
            all == issue_views(issues@),
            issue_views(r@) == blocking(all.take(i as int)),
        decreases issues@.len() - i,
    {
        assert(all.take(i + 1).drop_last() =~= all.take(i as int));
        if issues[i].severity == Severity::Error {
            let ghost before = issue_views(r@);
            let issue = Issue {
                severity: issues[i].severity,
                outputs: copy_all(&issues[i].outputs),
                message: issues[i].message.copy(),
            };
            assert(issue@ == all[i as int]);
            r.push(issue);
            assert(issue_views(r@) =~= before.push(all[i as int]));
        }
        i = i + 1;
    }
    assert(all.take(all.len() as int) =~= all);
    r
}

/// The requests that bring a known layout back, without validation or
/// verification: we're going back to a state that worked, and this must not
/// fail.
pub fn restore<C: Compositor>(c: &C, layout: &Layout) -> (r: Vec<String>)
    ensures
        views(r@) == directives(*c, layout@),
{
    c.output_directives(layout)
}

/// The current state as a layout, to go back to.
pub fn snapshot(outputs: &[Monitor]) -> (r: Layout)
    ensures
        r@ == live_layout(outputs@),
{
    Layout::from_monitors(outputs)
}

/// Whether the user is asked to confirm: not when the safety net is off, and not
/// without a terminal, where no one can.
pub fn asks_for_confirmation(timeout_secs: u64, terminal: bool) -> (r: bool)
    ensures
        r == (timeout_secs > 0 && terminal),
{
    timeout_secs > 0 && terminal
}

/// Whether an answer, in lower case, is a yes in either language.
pub open spec fn says_yes(answer: Seq<char>) -> bool {
    starts_with(answer, "o"@) || starts_with(answer, "y"@)
}

/// Whether an answer in lower case is a yes.
pub fn is_yes(lowered: &str) -> (r: bool)
    ensures
        r == says_yes(lowered@),
{
    begins(lowered, "o") || begins(lowered, "y")
}

/// Whether what the user answered, if anything, keeps the new layout.
///
/// This is the classic safety net for display settings: if the new
/// configuration makes the screen unreadable, doing nothing is enough to
/// revert.
pub fn keeps(answer: Option<&str>) -> (r: bool)
    ensures
        r == match view_opt_str(answer) {
            Some(line) => says_yes(lowercase_of(trim(line))),
            None => false,
        },
        answer is Some && all_ascii(trim(answer.unwrap()@)) ==> r == says_yes(
            ascii_lowercase(trim(answer.unwrap()@)),
        ),
{
    match answer {
        Some(line) => is_yes(lowercase(trimmed(line).as_str()).as_str()),
        None => false,
    }
}

} // verus!
