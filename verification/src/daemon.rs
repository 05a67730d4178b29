//! The daemon's decisions: which layout goes with the connected hardware, what
//! becomes of a layout that was applied, and when a change is acted upon.

use vstd::prelude::*;

use crate::config::{best_of, Config, ConfigView, Profile};
use crate::history::{
    signature, signature_of, Snapshot, SnapshotView, Store, StoreView,
};
use crate::i18n::Locale;
use crate::layout::{live_layout, Layout, LayoutView};
use crate::monitor::Monitor;
use crate::notice::{note, Notice, NoticeId, NoticeView};
use crate::number::{nat_string, nat_text};
use crate::session::{CompositorEvent, EventView};
use crate::text::{among, join, joined, lemma_views_push, same, view_opt, view_opt_str, views};

verus! {

/// Milliseconds to wait for things to settle: a dock fires several events in a
/// row.
pub const DEBOUNCE: u64 = 500;

/// Milliseconds before the event stream is opened again, at first and at most.
pub const RECONNECT_MIN: u64 = 250;

pub const RECONNECT_MAX: u64 = 30_000;

/// Why a given layout was chosen.
///
/// Carried rather than reduced to a boolean because it is what the user gets
/// told: "profile desk applied" and "restored your previous arrangement" mean
/// very different things when a screen has just appeared.
#[derive(Debug, PartialEq, Eq)]
pub enum Origin {
    /// A named profile matched the connected outputs.
    Profile { name: String, layout: Layout },
    /// These exact screens had been arranged before; that arrangement is back.
    Recalled { layout: Layout },
    /// Nothing was known and the current state was unusable, so the outputs
    /// were laid out left to right.
    Arranged { layout: Layout },
    /// Nothing was known but the current state was fine: left alone.
    Unchanged { layout: Layout },
}

pub ghost enum OriginView {
    Profile(Seq<char>, LayoutView),
    Recalled(LayoutView),
    Arranged(LayoutView),
    Unchanged(LayoutView),
}

impl View for Origin {
    type V = OriginView;

    open spec fn view(&self) -> OriginView {
        match *self {
            Origin::Profile { name, layout } => OriginView::Profile(name@, layout@),
            Origin::Recalled { layout } => OriginView::Recalled(layout@),
            Origin::Arranged { layout } => OriginView::Arranged(layout@),
            Origin::Unchanged { layout } => OriginView::Unchanged(layout@),
        }
    }
}

impl OriginView {
    pub open spec fn layout(self) -> LayoutView {
        match self {
            OriginView::Profile(_, l) => l,
            OriginView::Recalled(l) => l,
            OriginView::Arranged(l) => l,
            OriginView::Unchanged(l) => l,
        }
    }

    /// The sentence shown to the user.
    pub open spec fn sentence(self) -> NoticeView {
        match self {
            OriginView::Profile(name, _) => note(NoticeId::OriginProfile, seq![name]),
            OriginView::Recalled(_) => note(NoticeId::OriginRecalled, seq![]),
            OriginView::Arranged(_) => note(NoticeId::OriginArranged, seq![]),
            OriginView::Unchanged(_) => note(NoticeId::OriginUnchanged, seq![]),
        }
    }
}

impl Origin {
    pub fn layout(&self) -> (r: &Layout)
        ensures
            r@ == self@.layout(),
    {
        match self {
            Origin::Profile { name: _, layout } => layout,
            Origin::Recalled { layout } => layout,
            Origin::Arranged { layout } => layout,
            Origin::Unchanged { layout } => layout,
        }
    }

    pub fn profile(&self) -> (r: Option<&str>)
        ensures
            view_opt_str(r) == match self@ {
                OriginView::Profile(name, _) => Some(name),
                _ => None,
            },
    {
        match self {
            Origin::Profile { name, layout: _ } => Some(name.as_str()),
            _ => None,
        }
    }

    /// Sentence shown to the user.
    pub fn describe(&self) -> (r: Notice)
        ensures
            r@ == self@.sentence(),
    {
        match self {
            Origin::Profile { name, layout: _ } => Notice::one(
                NoticeId::OriginProfile,
                name.as_str(),
            ),
            Origin::Recalled { layout: _ } => Notice::plain(NoticeId::OriginRecalled),
            Origin::Arranged { layout: _ } => Notice::plain(NoticeId::OriginArranged),
            Origin::Unchanged { layout: _ } => Notice::plain(NoticeId::OriginUnchanged),
        }
    }

    /// Is this worth interrupting the user for?
    ///
    /// Leaving a working layout alone is not news; anything that moved their
    /// screens is.
    pub fn worth_notifying(&self) -> (r: bool)
        ensures
            r == !(self@ is Unchanged),
    {
        match self {
            Origin::Unchanged { layout: _ } => false,
            _ => true,
        }
    }
}

/// A layout with the main screen that the settings designate.
pub open spec fn stamped(l: LayoutView, primary: Option<Seq<char>>) -> LayoutView {
    LayoutView { outputs: l.outputs, primary }
}

/// The layout for the connected hardware, and where it comes from.
pub open spec fn chosen(
    cfg: ConfigView,
    recall: Map<Seq<char>, SnapshotView>,
    monitors: Seq<Monitor>,
) -> Result<OriginView, NoticeView> {
    let primary = cfg.primary_among(monitors);
    let key = signature_of(monitors);
    let live = stamped(live_layout(monitors), primary);
    match best_of(cfg.profiles, monitors, cfg.profiles.len() as int) {
        Some(b) => match cfg.profiles[b].layout(monitors) {
            Ok(l) => Ok(
                OriginView::Profile(cfg.profiles[b].name, stamped(l, primary).normalized()),
            ),
            Err(e) => Err(e),
        },
        None => if cfg.settings.remember && recall.contains_key(key) {
            Ok(OriginView::Recalled(stamped(recall[key].layout, primary)))
        } else if live.erroneous() {
            Ok(OriginView::Arranged(live.arranged()))
        } else {
            Ok(OriginView::Unchanged(live))
        },
    }
}

/// Whether every coordinate of that layout can be expressed.
pub open spec fn choosable(
    cfg: ConfigView,
    recall: Map<Seq<char>, SnapshotView>,
    monitors: Seq<Monitor>,
) -> bool {
    let primary = cfg.primary_among(monitors);
    let live = stamped(live_layout(monitors), primary);
    match best_of(cfg.profiles, monitors, cfg.profiles.len() as int) {
        Some(b) => cfg.profiles[b].resolvable(monitors) && match cfg.profiles[b].layout(monitors) {
            Ok(l) => stamped(l, primary).normalizable(),
            Err(_) => true,
        },
        None => (cfg.settings.remember && recall.contains_key(signature_of(monitors)))
            || !live.erroneous() || live.arrangeable(),
    }
}

/// Decides which layout to apply for the connected hardware.
///
/// Order matters, and encodes what the user meant most recently:
///
/// 1. a **named profile** — an explicit, deliberate choice;
/// 2. the **layout last used with these exact screens** — implicit, but
///    still the user's own arrangement, and the reason plugging a dock
///    back in just works without configuring anything;
/// 3. **automatic arrangement** — only when nothing is known and the
///    current state is unusable.
///
/// The main screen is a standing choice, so it is stamped onto whichever layout
/// wins. Anchoring on it is only done where the layout is being (re)positioned
/// anyway.
///
/// A layout whose coordinates cannot be expressed is an error.
pub fn choose_layout(config: &Config, store: &Store, monitors: &[Monitor]) -> (r: Result<Origin, Notice>)
    ensures
        if choosable(config@, store@.recall, monitors@) {
            match (r, chosen(config@, store@.recall, monitors@)) {
                (Ok(a), Ok(b)) => a@ == b,
                (Err(a), Err(b)) => a@ == b,
                _ => false,
            }
        } else {
            match r {
                Ok(_) => false,
                Err(e) => e@ == note(NoticeId::OutOfRange, seq![]),
            }
        },
{
    let primary = config.primary_output(monitors);
    if let Some(profile) = config.best_match(monitors) {
        proof {
            let b = best_of(config@.profiles, monitors@, config@.profiles.len() as int).unwrap();
            assert(config@.profiles[b] == profile@);
        }
        if !profile.can_resolve(monitors) {
            return Err(Notice::plain(NoticeId::OutOfRange));
        }
        return match profile.resolve(monitors) {
            Ok(l) => {
                let mut layout = l.with_primary(primary);
                if !layout.can_normalize() {
                    return Err(Notice::plain(NoticeId::OutOfRange));
                }
                layout.normalize();
                Ok(Origin::Profile { name: profile.name.clone(), layout })
            },
            Err(e) => Err(e),
        };
    }
    if config.settings.remember {
        if let Some(snapshot) = store.recall_for(monitors) {
            return Ok(
                Origin::Recalled { layout: snapshot.layout.clone().with_primary(primary) },
            );
        }
    }
    let mut layout = Layout::from_monitors(monitors).with_primary(primary);
    if layout.has_errors() {
        if !layout.can_arrange() {
            return Err(Notice::plain(NoticeId::OutOfRange));
        }
        layout.auto_arrange();
        return Ok(Origin::Arranged { layout });
    }
    Ok(Origin::Unchanged { layout })
}

/// A profile that matches is chosen over everything else, a recalled layout over
/// any arrangement, and a state that works is left where it is.
pub proof fn explicit_choices_win(
    cfg: ConfigView,
    recall: Map<Seq<char>, SnapshotView>,
    monitors: Seq<Monitor>,
)
    ensures
        best_of(cfg.profiles, monitors, cfg.profiles.len() as int) is Some ==> match chosen(
            cfg,
            recall,
            monitors,
        ) {
            Ok(o) => o is Profile,
            Err(_) => true,
        },
        best_of(cfg.profiles, monitors, cfg.profiles.len() as int) is None ==> chosen(
            cfg,
            recall,
            monitors,
        ) is Ok,
        match chosen(cfg, recall, monitors) {
            Ok(OriginView::Unchanged(l)) => l.outputs == live_layout(monitors).outputs
                && !l.erroneous(),
            Ok(OriginView::Recalled(l)) => cfg.settings.remember && l.outputs
                == recall[signature_of(monitors)].layout.outputs,
            _ => true,
        },
        match chosen(cfg, recall, monitors) {
            Ok(o) => o.layout().primary == cfg.primary_among(monitors),
            Err(_) => true,
        },
{
}

/// Plugging known screens back in brings their layout back: what was recorded
/// last for a set of outputs is what is chosen for it, as long as no profile
/// matches and recalling is on.
pub proof fn remembered_layouts_come_back(
    cfg: ConfigView,
    store: StoreView,
    s: SnapshotView,
    monitors: Seq<Monitor>,
)
    requires
        s.signature == signature_of(monitors),
        cfg.settings.remember,
        best_of(cfg.profiles, monitors, cfg.profiles.len() as int) is None,
    ensures
        choosable(cfg, store.recorded(s).recall, monitors),
        chosen(cfg, store.recorded(s).recall, monitors) == Ok::<OriginView, NoticeView>(
            OriginView::Recalled(stamped(s.layout, cfg.primary_among(monitors))),
        ),
{
}

// ---------------------------------------------------------------- reverting

/// A layout that waits for confirmation.
#[derive(Debug)]
pub struct Pending {
    /// Last confirmed state, to revert to.
    pub previous: Layout,
    /// State awaiting confirmation. A layout only earns its place in the
    /// history once the user has said they can still see their screens.
    pub applied: Layout,
    /// Named profile this layout came from, if any.
    pub profile: Option<String>,
}

#[verifier::ext_equal]
pub ghost struct PendingView {
    pub previous: LayoutView,
    pub applied: LayoutView,
    pub profile: Option<Seq<char>>,
}

impl View for Pending {
    type V = PendingView;

    open spec fn view(&self) -> PendingView {
        PendingView {
            previous: self.previous@,
            applied: self.applied@,
            profile: view_opt(self.profile),
        }
    }
}

/// The scheduled revert, if there is one.
#[derive(Debug)]
pub struct Guard {
    pub pending: Option<Pending>,
}

impl Guard {
    pub open spec fn waiting(self) -> Option<PendingView> {
        match self.pending {
            Some(p) => Some(p@),
            None => None,
        }
    }
}

/// What to do about a layout that was applied.
#[derive(Debug, Clone, Copy, PartialEq, Eq, Structural)]
pub enum FollowUp {
    /// Start, or restart, the time after which it is reverted.
    Arm,
    /// File it in the history: nobody will confirm it.
    File,
    /// Nothing: it did not succeed.
    Leave,
}

/// What follows an application.
pub open spec fn follow_up(succeeded: bool, guarded: bool, timeout_secs: u64) -> FollowUp {
    if !succeeded {
        FollowUp::Leave
    } else if guarded && timeout_secs > 0 {
        FollowUp::Arm
    } else {
        FollowUp::File
    }
}

/// The revert that is scheduled after an application. One that was scheduled
/// already keeps its reference state: the last one confirmed by the user, not
/// some intermediate state that was never validated.
pub open spec fn guarded_after(
    before: Option<PendingView>,
    next: FollowUp,
    previous: LayoutView,
    applied: LayoutView,
    profile: Option<Seq<char>>,
) -> Option<PendingView> {
    match next {
        FollowUp::Leave => before,
        FollowUp::File => None,
        FollowUp::Arm => Some(
            PendingView {
                previous: match before {
                    Some(p) => p.previous,
                    None => previous,
                },
                applied,
                profile,
            },
        ),
    }
}

impl Guard {
    pub fn new() -> (r: Self)
        ensures
            r.waiting() is None,
    {
        Guard { pending: None }
    }

    /// Takes note of an application, and says what to do about it.
    ///
    /// Filing happens on a firm application or on confirmation — never at both,
    /// and never for a layout that was rolled back.
    pub fn applied(
        &mut self,
        succeeded: bool,
        guarded: bool,
        timeout_secs: u64,
        previous: Layout,
        layout: Layout,
        profile: Option<String>,
    ) -> (r: FollowUp)
        ensures
            r == follow_up(succeeded, guarded, timeout_secs),
            final(self).waiting() == guarded_after(
                old(self).waiting(),
                r,
                previous@,
                layout@,
                view_opt(profile),
            ),
    {
        if !succeeded {
            return FollowUp::Leave;
        }
        if guarded && timeout_secs > 0 {
            let previous = match self.pending.take() {
                Some(old_one) => old_one.previous,
                None => previous,
            };
            self.pending = Some(Pending { previous, applied: layout, profile });
            FollowUp::Arm
        } else {
            self.pending = None;
            FollowUp::File
        }
    }

    /// Confirms the current configuration: the revert is disarmed, and what was
    /// confirmed is handed out to be filed in the history.
    ///
    /// The history is an undo list, and an arrangement the user rejected (or
    /// never answered for) has no business in it.
    pub fn confirm(&mut self) -> (r: Option<(Layout, Option<String>)>)
        ensures
            final(self).waiting() is None,
            match (r, old(self).waiting()) {
                (Some(f), Some(p)) => f.0@ == p.applied && view_opt(f.1) == p.profile,
                (None, None) => true,
                _ => false,
            },
    {
        match self.pending.take() {
            Some(p) => Some((p.applied, p.profile)),
            None => None,
        }
    }

    /// Gives the configuration up, at once or because the time has run out: the
    /// state to go back to is handed out, and nothing is filed.
    pub fn revert(&mut self) -> (r: Option<Layout>)
        ensures
            final(self).waiting() is None,
            match (r, old(self).waiting()) {
                (Some(l), Some(p)) => l@ == p.previous,
                (None, None) => true,
                _ => false,
            },
    {
        match self.pending.take() {
            Some(p) => Some(p.previous),
            None => None,
        }
    }

    /// Is a revert pending confirmation?
    pub fn revert_pending(&self) -> (r: bool)
        ensures
            r == (self.waiting() is Some),
    {
        self.pending.is_some()
    }
}

/// However many guarded applications follow one another, a revert goes back to
/// the state before the first of them, and a confirmation files the last.
pub proof fn guarded_applications_revert_to_the_last_confirmed_state(
    first: LayoutView,
    a: LayoutView,
    between: LayoutView,
    b: LayoutView,
    p: Option<Seq<char>>,
    q: Option<Seq<char>>,
)
    ensures
        ({
            let once = guarded_after(None, FollowUp::Arm, first, a, p);
            let twice = guarded_after(once, FollowUp::Arm, between, b, q);
            &&& twice == Some(PendingView { previous: first, applied: b, profile: q })
            &&& guarded_after(twice, FollowUp::Leave, between, b, q) == twice
            &&& guarded_after(twice, FollowUp::File, between, b, q) is None
        }),
{
}

/// The snapshot to file for a layout.
pub fn snapshot_of(layout: Layout, monitors: &[Monitor], profile: Option<String>, now: u64) -> (r: Snapshot)
    ensures
        r@ == (SnapshotView {
            at: now,
            signature: signature_of(monitors@),
            profile: view_opt(profile),
            layout: layout@,
        }),
{
    Snapshot::new(layout, signature(monitors), profile, now)
}

/// The history entry to reapply.
pub fn restorable(store: &Store, index: usize) -> (r: Result<Snapshot, Notice>)
    ensures
        match r {
            Ok(s) => index < store@.history.len() && s@ == store@.history[index as int],
            Err(e) => index >= store@.history.len() && e@ == note(
                NoticeId::NoHistoryEntry,
                seq![nat_text(index as nat)],
            ),
        },
{
    match store.entry(index) {
        Some(s) => Ok(s.clone()),
        None => Err(Notice::one(NoticeId::NoHistoryEntry, nat_string(index as u128).as_str())),
    }
}

// ---------------------------------------------------------------- hotplug

/// The outputs that came and went, to say what actually changed rather than
/// just "something did".
#[derive(Debug)]
pub struct Changes {
    pub added: Vec<String>,
    pub removed: Vec<String>,
}

/// A list with a name in it, once.
pub open spec fn noted(names: Seq<Seq<char>>, name: Seq<char>) -> Seq<Seq<char>> {
    if names.contains(name) {
        names
    } else {
        names.push(name)
    }
}

/// A list with those names in it that are not known, each once.
pub open spec fn noted_new(
    list: Seq<Seq<char>>,
    names: Seq<Seq<char>>,
    known: Seq<Seq<char>>,
) -> Seq<Seq<char>>
    decreases names.len(),
{
    if names.len() == 0 {
        list
    } else {
        let before = noted_new(list, names.drop_last(), known);
        if known.contains(names.last()) {
            before
        } else {
            noted(before, names.last())
        }
    }
}

/// No name is new.
pub open spec fn all_known(names: Seq<Seq<char>>, known: Seq<Seq<char>>) -> bool {
    forall|i: int| 0 <= i < names.len() ==> known.contains(#[trigger] names[i])
}

/// Notes the names that are not known. Says whether there was one.
fn note_new(list: &mut Vec<String>, names: &Vec<String>, known: &Vec<String>) -> (r: bool)
    ensures
        views(final(list)@) == noted_new(views(old(list)@), views(names@), views(known@)),
        r == !all_known(views(names@), views(known@)),
{
    let ghost start = views(list@);
    let ghost all = views(names@);
    let ghost old_names = views(known@);
    let mut found = false;
    let mut i: usize = 0;
    assert(all.take(0) =~= Seq::empty());
    while i < names.len()
        invariant
            i <= names.len(),
            all == views(names@),
            old_names == views(known@),
            views(list@) == noted_new(start, all.take(i as int), old_names),
            found == !all_known(all.take(i as int), old_names),
        decreases names.len() - i,
    {
        let name = names[i].as_str();
        let ghost next = all.take(i + 1);
        proof {
            assert(next.drop_last() =~= all.take(i as int));
            assert(next.last() == name@);
            assert(next[i as int] == name@);
            assert forall|k: int| 0 <= k < i implies #[trigger] next[k] == all.take(i as int)[k] by {}
        }
        if !among(known, name) {
            proof {
                assert(!old_names.contains(next[i as int]));
                assert(!all_known(next, old_names));
            }
            found = true;
            if !among(list, name) {
                let s = name.to_owned();
                proof {
                    lemma_views_push(list@, s);
                }
                list.push(s);
            }
        } else {
            proof {
                assert(all_known(next, old_names) == all_known(all.take(i as int), old_names)) by {
                    if all_known(next, old_names) {
                        assert forall|k: int| 0 <= k < i implies old_names.contains(
                            #[trigger] all.take(i as int)[k],
                        ) by {
                            assert(next[k] == all.take(i as int)[k]);
                        }
                    }
                }
            }
        }
        i += 1;
    }
    assert(all.take(i as int) =~= all);
    found
}

/// What came and what went, in words.
pub open spec fn changes_text(
    added: Seq<Seq<char>>,
    removed: Seq<Seq<char>>,
    locale: Locale,
) -> Seq<char> {
    let came = if added.len() > 0 {
        seq![note(NoticeId::NotifyConnected, seq![join(added, ", "@)]).said(locale)]
    } else {
        Seq::empty()
    };
    let went = if removed.len() > 0 {
        seq![note(NoticeId::NotifyDisconnected, seq![join(removed, ", "@)]).said(locale)]
    } else {
        Seq::empty()
    };
    if added.len() == 0 && removed.len() == 0 {
        note(NoticeId::NotifyChanged, seq![]).said(locale)
    } else {
        join(came + went, " · "@)
    }
}

impl Default for Changes {
    fn default() -> (r: Self)
        ensures
            views(r.added@) == Seq::<Seq<char>>::empty(),
            views(r.removed@) == Seq::<Seq<char>>::empty(),
    {
        let r = Changes { added: Vec::new(), removed: Vec::new() };
        assert(views(r.added@) =~= Seq::empty());
        assert(views(r.removed@) =~= Seq::empty());
        r
    }
}

impl Changes {
    pub fn record(&mut self, event: &CompositorEvent)
        ensures
            views(final(self).added@) == match event@ {
                EventView::OutputAdded(name) => noted(views(old(self).added@), name),
                _ => views(old(self).added@),
            },
            views(final(self).removed@) == match event@ {
                EventView::OutputRemoved(name) => noted(views(old(self).removed@), name),
                _ => views(old(self).removed@),
            },
    {
        match event {
            CompositorEvent::OutputAdded(name) => {
                if !among(&self.added, name.as_str()) {
                    let s = name.clone();
                    proof {
                        lemma_views_push(self.added@, s);
                    }
                    self.added.push(s);
                }
            },
            CompositorEvent::OutputRemoved(name) => {
                if !among(&self.removed, name.as_str()) {
                    let s = name.clone();
                    proof {
                        lemma_views_push(self.removed@, s);
                    }
                    self.removed.push(s);
                }
            },
            _ => {},
        }
    }

    /// Consumes the batch and renders it as a sentence.
    pub fn take(&mut self, locale: Locale) -> (r: String)
        ensures
            r@ == changes_text(views(old(self).added@), views(old(self).removed@), locale),
            views(final(self).added@) == Seq::<Seq<char>>::empty(),
            views(final(self).removed@) == Seq::<Seq<char>>::empty(),
    {
        let ghost added = views(self.added@);
        let ghost removed = views(self.removed@);
        assert(added.len() == self.added@.len());
        assert(removed.len() == self.removed@.len());
        let mut parts: Vec<String> = Vec::new();
        if self.added.len() > 0 {
            parts.push(
                Notice::one(NoticeId::NotifyConnected, joined(&self.added, ", ").as_str()).text(
                    locale,
                ),
            );
        }
        if self.removed.len() > 0 {
            parts.push(
                Notice::one(
                    NoticeId::NotifyDisconnected,
                    joined(&self.removed, ", ").as_str(),
                ).text(locale),
            );
        }
        let ghost came = if added.len() > 0 {
            seq![note(NoticeId::NotifyConnected, seq![join(added, ", "@)]).said(locale)]
        } else {
            Seq::empty()
        };
        let ghost went = if removed.len() > 0 {
            seq![note(NoticeId::NotifyDisconnected, seq![join(removed, ", "@)]).said(locale)]
        } else {
            Seq::empty()
        };
        assert(views(parts@) =~= came + went);
        let quiet = self.added.len() == 0 && self.removed.len() == 0;
        self.added.clear();
        self.removed.clear();
        assert(views(self.added@) =~= Seq::empty());
        assert(views(self.removed@) =~= Seq::empty());
        if quiet {
            Notice::plain(NoticeId::NotifyChanged).text(locale)
        } else {
            joined(&parts, " · ")
        }
    }
}

/// The daemon's watch on the hardware: what changed, and when it is acted upon.
#[derive(Debug)]
pub struct Watch {
    pub changes: Changes,
    /// The moment, in milliseconds, at which things are taken to have settled.
    pub deadline: Option<u64>,
}

/// What to do once things have settled.
#[derive(Debug, Clone, PartialEq, Eq)]
pub enum Reaction {
    /// Pick and apply a layout, then announce it under this summary.
    Reconcile(String),
    /// Only announce the change: automatic configuration is off.
    Announce(String),
}

impl Watch {
    pub fn new() -> (r: Self)
        ensures
            views(r.changes.added@) == Seq::<Seq<char>>::empty(),
            views(r.changes.removed@) == Seq::<Seq<char>>::empty(),
            r.deadline is None,
    {
        Watch { changes: Changes::default(), deadline: None }
    }

    /// Takes note of an event. One that moves outputs puts the deadline off.
    pub fn on_event(&mut self, event: &CompositorEvent, now: u64)
        requires
            now <= u64::MAX - DEBOUNCE,
        ensures
            final(self).deadline == if event@.moves_outputs() {
                Some((now + DEBOUNCE) as u64)
            } else {
                old(self).deadline
            },
            views(final(self).changes.added@) == match event@ {
                EventView::OutputAdded(name) => noted(views(old(self).changes.added@), name),
                _ => views(old(self).changes.added@),
            },
            views(final(self).changes.removed@) == match event@ {
                EventView::OutputRemoved(name) => noted(views(old(self).changes.removed@), name),
                _ => views(old(self).changes.removed@),
            },
    {
        if event.affects_outputs() {
            self.changes.record(event);
            self.deadline = Some(now + DEBOUNCE);
        }
    }

    /// Things have settled: what changed is summed up and forgotten.
    pub fn on_settled(&mut self, auto_apply: bool, locale: Locale) -> (r: Reaction)
        ensures
            final(self).deadline is None,
            views(final(self).changes.added@) == Seq::<Seq<char>>::empty(),
            views(final(self).changes.removed@) == Seq::<Seq<char>>::empty(),
            match r {
                Reaction::Reconcile(s) => auto_apply && s@ == changes_text(
                    views(old(self).changes.added@),
                    views(old(self).changes.removed@),
                    locale,
                ),
                Reaction::Announce(s) => !auto_apply && s@ == changes_text(
                    views(old(self).changes.added@),
                    views(old(self).changes.removed@),
                    locale,
                ),
            },
    {
        self.deadline = None;
        let summary = self.changes.take(locale);
        if auto_apply {
            Reaction::Reconcile(summary)
        } else {
            Reaction::Announce(summary)
        }
    }
}

/// What is announced under the summary of a change: where the layout comes from,
/// or that there is none.
pub fn announcement(outcome: &Option<Origin>) -> (r: Notice)
    ensures
        r@ == match *outcome {
            Some(o) => o@.sentence(),
            None => note(NoticeId::NotifyFailed, seq![]),
        },
{
    match outcome {
        Some(o) => o.describe(),
        None => Notice::plain(NoticeId::NotifyFailed),
    }
}

/// What the daemon is busy with.
#[derive(Debug)]
pub enum Business {
    /// The first alignment: the hardware may have changed while it was not
    /// running.
    Starting,
    Idle,
    /// A change of the hardware, with its summary.
    Reacting(String),
}

pub ghost enum BusinessView {
    Starting,
    Idle,
    Reacting(Seq<char>),
}

impl View for Business {
    type V = BusinessView;

    open spec fn view(&self) -> BusinessView {
        match *self {
            Business::Starting => BusinessView::Starting,
            Business::Idle => BusinessView::Idle,
            Business::Reacting(s) => BusinessView::Reacting(s@),
        }
    }
}

/// What reaches the daemon.
#[derive(Debug)]
pub enum Incoming {
    Started,
    /// The compositor reported something, at a moment in milliseconds.
    Event(CompositorEvent, u64),
    /// The connectors that the compositor lists, at a moment in milliseconds.
    Outputs(Vec<String>, u64),
    /// The deadline has passed.
    Settled,
    /// A layout was picked and applied; `None` if that failed.
    Reconciled(Option<Origin>),
    /// A signal to shut down, or the end of the events.
    Stop,
}

/// What the daemon does about it.
#[derive(Debug)]
pub enum Outgoing {
    Nothing,
    /// Read the outputs again: something changed, and nothing says what.
    Reread,
    /// Pick and apply a layout.
    Reconcile,
    /// Tell the user: a summary, and what was done about it.
    Announce(String, Notice),
    Exit,
}

pub ghost enum OutgoingView {
    Nothing,
    Reread,
    Reconcile,
    Announce(Seq<char>, NoticeView),
    Exit,
}

impl View for Outgoing {
    type V = OutgoingView;

    open spec fn view(&self) -> OutgoingView {
        match *self {
            Outgoing::Nothing => OutgoingView::Nothing,
            Outgoing::Reread => OutgoingView::Reread,
            Outgoing::Reconcile => OutgoingView::Reconcile,
            Outgoing::Announce(s, n) => OutgoingView::Announce(s@, n@),
            Outgoing::Exit => OutgoingView::Exit,
        }
    }
}

/// The daemon's loop, without its waiting.
#[derive(Debug)]
pub struct Daemon {
    pub watch: Watch,
    pub business: Business,
    /// The connectors that were there last, once they have been read.
    pub known: Option<Vec<String>>,
}

#[verifier::ext_equal]
pub ghost struct DaemonView {
    pub added: Seq<Seq<char>>,
    pub removed: Seq<Seq<char>>,
    pub deadline: Option<u64>,
    pub business: BusinessView,
    pub known: Option<Seq<Seq<char>>>,
}

impl View for Daemon {
    type V = DaemonView;

    open spec fn view(&self) -> DaemonView {
        DaemonView {
            added: views(self.watch.changes.added@),
            removed: views(self.watch.changes.removed@),
            deadline: self.watch.deadline,
            business: self.business@,
            known: match self.known {
                Some(names) => Some(views(names@)),
                None => None,
            },
        }
    }
}

/// When things are taken to have settled, if something happened now.
pub open spec fn settling(now: u64) -> u64 {
    if now <= u64::MAX - DEBOUNCE {
        (now + DEBOUNCE) as u64
    } else {
        u64::MAX
    }
}

/// The connectors that are there after an event.
pub open spec fn known_after(names: Seq<Seq<char>>, event: EventView) -> Seq<Seq<char>> {
    match event {
        EventView::OutputAdded(name) => noted(names, name),
        EventView::OutputRemoved(name) => lacking(names, name),
        _ => names,
    }
}

/// A list without a name.
pub open spec fn lacking(names: Seq<Seq<char>>, name: Seq<char>) -> Seq<Seq<char>>
    decreases names.len(),
{
    if names.len() == 0 {
        Seq::empty()
    } else {
        let before = lacking(names.drop_last(), name);
        if names.last() == name {
            before
        } else {
            before.push(names.last())
        }
    }
}

fn leave_out(names: &Vec<String>, name: &str) -> (r: Vec<String>)
    ensures
        views(r@) == lacking(views(names@), name@),
{
    let ghost all = views(names@);
    let mut r: Vec<String> = Vec::new();
    let mut i: usize = 0;
    assert(all.take(0) =~= Seq::empty());
    assert(views(r@) =~= Seq::empty());
    while i < names.len()
        invariant
            i <= names.len(),
            all == views(names@),
            views(r@) == lacking(all.take(i as int), name@),
        decreases names.len() - i,
    {
        proof {
            assert(all.take(i + 1).drop_last() =~= all.take(i as int));
            assert(all.take(i + 1).last() == names@[i as int]@);
        }
        if !same(names[i].as_str(), name) {
            let s = names[i].clone();
            proof {
                lemma_views_push(r@, s);
            }
            r.push(s);
        }
        i += 1;
    }
    assert(all.take(i as int) =~= all);
    r
}

/// The connectors that are there after an event.
fn follow(known: &mut Vec<String>, event: &CompositorEvent)
    ensures
        views(final(known)@) == known_after(views(old(known)@), event@),
{
    match event {
        CompositorEvent::OutputAdded(name) => {
            if !among(known, name.as_str()) {
                let s = name.clone();
                proof {
                    lemma_views_push(known@, s);
                }
                known.push(s);
            }
        },
        CompositorEvent::OutputRemoved(name) => {
            let rest = leave_out(known, name.as_str());
            *known = rest;
        },
        _ => {},
    }
}

/// Where an attempt to pick and apply a layout led.
pub open spec fn outcome_notice(outcome: Option<Origin>) -> NoticeView {
    match outcome {
        Some(o) => o@.sentence(),
        None => note(NoticeId::NotifyFailed, seq![]),
    }
}

impl DaemonView {
    pub open spec fn fresh() -> DaemonView {
        DaemonView {
            added: Seq::empty(),
            removed: Seq::empty(),
            deadline: None,
            business: BusinessView::Starting,
            known: None,
        }
    }

    /// What follows what reaches the daemon.
    pub open spec fn reacted(self, incoming: Incoming, auto_apply: bool, locale: Locale) -> (
        DaemonView,
        OutgoingView,
    ) {
        match incoming {
            Incoming::Started => if auto_apply {
                (
                    DaemonView { business: BusinessView::Starting, ..self },
                    OutgoingView::Reconcile,
                )
            } else {
                (DaemonView { business: BusinessView::Idle, ..self }, OutgoingView::Nothing)
            },
            Incoming::Event(event, now) => (
                DaemonView {
                    added: match event@ {
                        EventView::OutputAdded(name) => noted(self.added, name),
                        _ => self.added,
                    },
                    removed: match event@ {
                        EventView::OutputRemoved(name) => noted(self.removed, name),
                        _ => self.removed,
                    },
                    deadline: if event@.moves_outputs() {
                        Some(settling(now))
                    } else {
                        self.deadline
                    },
                    known: match self.known {
                        Some(names) => Some(known_after(names, event@)),
                        None => None,
                    },
                    ..self
                },
                if event@ is ConfigReloaded {
                    OutgoingView::Reread
                } else {
                    OutgoingView::Nothing
                },
            ),
            Incoming::Outputs(listed, now) => {
                let names = views(listed@);
                (
                    match self.known {
                        Some(known) => DaemonView {
                            added: noted_new(self.added, names, known),
                            removed: noted_new(self.removed, known, names),
                            deadline: if all_known(names, known) && all_known(known, names) {
                                self.deadline
                            } else {
                                Some(settling(now))
                            },
                            known: Some(names),
                            ..self
                        },
                        None => DaemonView { known: Some(names), ..self },
                    },
                    OutgoingView::Nothing,
                )
            },
            Incoming::Settled => {
                let summary = changes_text(self.added, self.removed, locale);
                let quiet = DaemonView {
                    added: Seq::empty(),
                    removed: Seq::empty(),
                    deadline: None,
                    ..self
                };
                if auto_apply {
                    (
                        DaemonView { business: BusinessView::Reacting(summary), ..quiet },
                        OutgoingView::Reconcile,
                    )
                } else {
                    (
                        DaemonView { business: BusinessView::Idle, ..quiet },
                        OutgoingView::Announce(summary, note(NoticeId::NotifyManual, seq![])),
                    )
                }
            },
            Incoming::Reconciled(outcome) => {
                let idle = DaemonView { business: BusinessView::Idle, ..self };
                match self.business {
                    BusinessView::Starting => (
                        idle,
                        match outcome {
                            Some(o) => if o@ is Unchanged {
                                OutgoingView::Nothing
                            } else {
                                OutgoingView::Announce(
                                    note(NoticeId::NotifyStartup, seq![]).said(locale),
                                    o@.sentence(),
                                )
                            },
                            None => OutgoingView::Nothing,
                        },
                    ),
                    BusinessView::Reacting(summary) => (
                        idle,
                        OutgoingView::Announce(summary, outcome_notice(outcome)),
                    ),
                    BusinessView::Idle => (idle, OutgoingView::Nothing),
                }
            },
            Incoming::Stop => (self, OutgoingView::Exit),
        }
    }
}

impl Daemon {
    pub fn new() -> (r: Self)
        ensures
            r@ == DaemonView::fresh(),
    {
        Daemon { watch: Watch::new(), business: Business::Starting, known: None }
    }

    /// What follows what reaches the daemon.
    ///
    /// Startup is not a "change": it is only announced if something moved. A
    /// change of the hardware is announced in any case, with what was done about
    /// it.
    pub fn react(&mut self, incoming: Incoming, auto_apply: bool, locale: Locale) -> (r: Outgoing)
        ensures
            (final(self)@, r@) == old(self)@.reacted(incoming, auto_apply, locale),
    {
        match incoming {
            Incoming::Started => {
                if auto_apply {
                    self.business = Business::Starting;
                    Outgoing::Reconcile
                } else {
                    self.business = Business::Idle;
                    Outgoing::Nothing
                }
            },
            Incoming::Event(event, now) => {
                let moment: u64 = if now <= u64::MAX - DEBOUNCE {
                    now
                } else {
                    u64::MAX - DEBOUNCE
                };
                self.watch.on_event(&event, moment);
                let mut known: Option<Vec<String>> = None;
                std::mem::swap(&mut known, &mut self.known);
                if let Some(mut names) = known {
                    follow(&mut names, &event);
                    self.known = Some(names);
                }
                match event {
                    CompositorEvent::ConfigReloaded => Outgoing::Reread,
                    _ => Outgoing::Nothing,
                }
            },
            Incoming::Outputs(names, now) => {
                let mut known: Option<Vec<String>> = None;
                std::mem::swap(&mut known, &mut self.known);
                if let Some(before) = known {
                    let came = note_new(&mut self.watch.changes.added, &names, &before);
                    let went = note_new(&mut self.watch.changes.removed, &before, &names);
                    if came || went {
                        self.watch.deadline = Some(
                            if now <= u64::MAX - DEBOUNCE {
                                now + DEBOUNCE
                            } else {
                                u64::MAX
                            },
                        );
                    }
                }
                self.known = Some(names);
                Outgoing::Nothing
            },
            Incoming::Settled => match self.watch.on_settled(auto_apply, locale) {
                Reaction::Reconcile(summary) => {
                    self.business = Business::Reacting(summary);
                    Outgoing::Reconcile
                },
                Reaction::Announce(summary) => {
                    self.business = Business::Idle;
                    Outgoing::Announce(summary, Notice::plain(NoticeId::NotifyManual))
                },
            },
            Incoming::Reconciled(outcome) => {
                let mut business = Business::Idle;
                std::mem::swap(&mut business, &mut self.business);
                match business {
                    Business::Starting => match &outcome {
                        Some(o) => if o.worth_notifying() {
                            Outgoing::Announce(
                                Notice::plain(NoticeId::NotifyStartup).text(locale),
                                o.describe(),
                            )
                        } else {
                            Outgoing::Nothing
                        },
                        None => Outgoing::Nothing,
                    },
                    Business::Reacting(summary) => Outgoing::Announce(
                        summary,
                        announcement(&outcome),
                    ),
                    Business::Idle => Outgoing::Nothing,
                }
            },
            Incoming::Stop => Outgoing::Exit,
        }
    }
}

/// Every change that settles is announced once, under the summary of what came
/// and went: at once where automatic configuration is off, else as soon as a
/// layout was picked, whatever came of that. Events in between put nothing off.
pub proof fn settled_changes_are_announced(
    d: DaemonView,
    event: Incoming,
    outcome: Option<Origin>,
    auto_apply: bool,
    locale: Locale,
)
    requires
        event is Event,
    ensures
        ({
            let summary = changes_text(d.added, d.removed, locale);
            let (settled, first) = d.reacted(Incoming::Settled, auto_apply, locale);
            let (between, nothing) = settled.reacted(event, auto_apply, locale);
            let (done, last) = between.reacted(Incoming::Reconciled(outcome), auto_apply, locale);
            &&& settled.deadline is None
            &&& settled.added.len() == 0 && settled.removed.len() == 0
            &&& nothing is Nothing || nothing is Reread
            &&& if auto_apply {
                first is Reconcile && last == OutgoingView::Announce(
                    summary,
                    outcome_notice(outcome),
                ) && done.business is Idle
            } else {
                first is Announce && first->Announce_0 == summary && last is Nothing
            }
        }),
{
}

proof fn lemma_noted_new(
    list: Seq<Seq<char>>,
    names: Seq<Seq<char>>,
    known: Seq<Seq<char>>,
    x: Seq<char>,
)
    ensures
        noted_new(list, names, known).contains(x) == (list.contains(x) || (names.contains(x)
            && !known.contains(x))),
    decreases names.len(),
{
    if names.len() > 0 {
        let rest = names.drop_last();
        let last = names.last();
        lemma_noted_new(list, rest, known, x);
        let before = noted_new(list, rest, known);
        assert(names =~= rest.push(last));
        lemma_pushed(rest, last, x);
        lemma_pushed(before, last, x);
    }
}

proof fn lemma_pushed(list: Seq<Seq<char>>, y: Seq<char>, x: Seq<char>)
    ensures
        list.push(y).contains(x) == (list.contains(x) || x == y),
{
    let all = list.push(y);
    assert(all[list.len() as int] == y);
    if list.contains(x) {
        let k = choose|k: int| 0 <= k < list.len() && list[k] == x;
        assert(all[k] == x);
    }
    if all.contains(x) {
        let k = choose|k: int| 0 <= k < all.len() && all[k] == x;
        if k < list.len() {
            assert(list[k] == x);
        }
    }
}

/// A change that no event names is found by comparing: the outputs are read
/// again, and what is acted upon is exactly what came and what went since they
/// were last known. Where nothing did, nothing is.
pub proof fn unnamed_changes_are_found(
    d: DaemonView,
    reported: u64,
    listed: Vec<String>,
    now: u64,
    x: Seq<char>,
    auto_apply: bool,
    locale: Locale,
)
    requires
        d.known is Some,
        d.added.len() == 0,
        d.removed.len() == 0,
        d.deadline is None,
    ensures
        ({
            let known = d.known->0;
            let names = views(listed@);
            let event = Incoming::Event(CompositorEvent::ConfigReloaded, reported);
            let (waiting, first) = d.reacted(event, auto_apply, locale);
            let (compared, second) = waiting.reacted(
                Incoming::Outputs(listed, now),
                auto_apply,
                locale,
            );
            &&& first is Reread
            &&& waiting == d
            &&& second is Nothing
            &&& compared.added.contains(x) == (names.contains(x) && !known.contains(x))
            &&& compared.removed.contains(x) == (known.contains(x) && !names.contains(x))
            &&& compared.added.contains(x) || compared.removed.contains(x) ==> compared.deadline
                is Some
            &&& compared.deadline is Some ==> exists|y: Seq<char>|
                names.contains(y) != #[trigger] known.contains(y)
            &&& compared.known == Some(names)
        }),
{
    let known = d.known->0;
    let names = views(listed@);
    lemma_noted_new(d.added, names, known, x);
    lemma_noted_new(d.removed, known, names, x);
    if names.contains(x) && !known.contains(x) {
        let k = choose|k: int| 0 <= k < names.len() && names[k] == x;
        assert(!known.contains(names[k]));
    }
    if known.contains(x) && !names.contains(x) {
        let k = choose|k: int| 0 <= k < known.len() && known[k] == x;
        assert(!names.contains(known[k]));
    }
    if !all_known(names, known) {
        let k = choose|k: int| 0 <= k < names.len() && !known.contains(#[trigger] names[k]);
        assert(names.contains(names[k]) != known.contains(names[k]));
    }
    if !all_known(known, names) {
        let k = choose|k: int| 0 <= k < known.len() && !names.contains(#[trigger] known[k]);
        assert(names.contains(known[k]) != known.contains(known[k]));
    }
}

/// The delay before the next attempt to open the event stream: twice as long,
/// up to a limit.
pub fn next_backoff(delay: u64) -> (r: u64)
    requires
        delay <= RECONNECT_MAX,
    ensures
        r == if 2 * delay < RECONNECT_MAX {
            (2 * delay) as u64
        } else {
            RECONNECT_MAX
        },
        r <= RECONNECT_MAX,
{
    let twice: u64 = 2 * delay;
    if twice < RECONNECT_MAX {
        twice
    } else {
        RECONNECT_MAX
    }
}

} // verus!
