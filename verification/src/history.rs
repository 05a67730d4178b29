//! What is remembered between runs.
//!
//! Two distinct things:
//!
//! * a **history** of the last few layouts actually applied, so a bad change
//!   can be undone even after the confirmation window has closed;
//! * a **recall map** of the last layout used with each set of connected
//!   outputs, so plugging the same screens back in restores what the user had,
//!   without them having to name a profile first.

use vstd::prelude::*;

use crate::env::Environment;
use crate::i18n::Locale;
use crate::layout::{Layout, LayoutView, OutputState, OutputView};
use crate::monitor::{nonempty, Monitor, Transform};
use crate::notice::{note, turn_string, turn_text, Notice, NoticeId, NoticeView};
use crate::number::{int_string, int_text, nat_string, nat_text};
use crate::path::{join_path, path_join};
use crate::seqs::{
    comes_first, is_first, lemma_text_order, sort_texts, sorted_texts, sorting_forgets_the_order,
    text_order,
};
use crate::text::{
    copy_opt, join, joined, lemma_views_push, same, trim, view_opt, view_opt_str, views,
};

verus! {

/// How many layouts to keep. Enough to walk back out of a bad session,
/// short enough that the list stays readable at a glance.
pub const CAPACITY: usize = 5;

/// A layout that was applied, and the circumstances it was applied in.
#[derive(Debug, PartialEq, Eq)]
pub struct Snapshot {
    /// Unix seconds. Stored as a number rather than a formatted date to keep
    /// the file stable and avoid a date-formatting dependency.
    pub at: u64,
    /// Which outputs were connected, see [`signature`].
    pub signature: String,
    /// Profile this came from, when it came from one.
    pub profile: Option<String>,
    pub layout: Layout,
}

#[verifier::ext_equal]
pub ghost struct SnapshotView {
    pub at: u64,
    pub signature: Seq<char>,
    pub profile: Option<Seq<char>>,
    pub layout: LayoutView,
}

impl View for Snapshot {
    type V = SnapshotView;

    open spec fn view(&self) -> SnapshotView {
        SnapshotView {
            at: self.at,
            signature: self.signature@,
            profile: view_opt(self.profile),
            layout: self.layout@,
        }
    }
}

impl Clone for Snapshot {
    fn clone(&self) -> (r: Self)
        ensures
            r@ == self@,
    {
        Snapshot {
            at: self.at,
            signature: self.signature.clone(),
            profile: copy_opt(&self.profile),
            layout: self.layout.clone(),
        }
    }
}

/// How long ago, in the coarsest unit that fits.
pub open spec fn age_notice(seconds: int) -> NoticeView {
    if seconds < 60 {
        note(NoticeId::JustNow, seq![])
    } else if seconds < 3600 {
        note(NoticeId::MinutesAgo, seq![nat_text((seconds / 60) as nat)])
    } else if seconds < 86400 {
        note(NoticeId::HoursAgo, seq![nat_text((seconds / 3600) as nat)])
    } else {
        note(NoticeId::DaysAgo, seq![nat_text((seconds / 86400) as nat)])
    }
}

/// Renders an age in seconds as a short relative label.
pub fn humanize(seconds: u64, locale: Locale) -> (r: String)
    ensures
        r@ == age_notice(seconds as int).said(locale),
{
    if seconds < 60 {
        Notice::plain(NoticeId::JustNow).text(locale)
    } else if seconds < 3600 {
        let n: u128 = (seconds / 60) as u128;
        Notice::one(NoticeId::MinutesAgo, nat_string(n).as_str()).text(locale)
    } else if seconds < 86400 {
        let n: u128 = (seconds / 3600) as u128;
        Notice::one(NoticeId::HoursAgo, nat_string(n).as_str()).text(locale)
    } else {
        let n: u128 = (seconds / 86400) as u128;
        Notice::one(NoticeId::DaysAgo, nat_string(n).as_str()).text(locale)
    }
}

/// One output in the history listing. Orientation is often the only thing
/// separating two entries: a 90° and a 270° rotation share the same logical
/// size.
pub open spec fn summary_of(o: OutputView, locale: Locale) -> Seq<char> {
    if !o.enabled {
        o.name + " off"@
    } else {
        let (w, h) = o.size();
        let line = o.name + " "@ + int_text(w) + "x"@ + int_text(h) + "@"@ + int_text(o.x) + "x"@
            + int_text(o.y);
        let turn = if o.transform != Transform::upright() {
            " "@ + turn_text(o.transform, locale)
        } else {
            Seq::empty()
        };
        let mirror = match o.mirror_of {
            Some(target) => " ⧉"@ + target,
            None => Seq::empty(),
        };
        line + turn + mirror
    }
}

fn summary_string(o: &OutputState, locale: Locale) -> (r: String)
    ensures
        r@ == summary_of(o@, locale),
{
    let mut s = o.name.clone();
    if !o.enabled {
        s.append(" off");
        return s;
    }
    let (w, h) = o.logical_size_rounded();
    s.append(" ");
    s.append(int_string(w as i64).as_str());
    s.append("x");
    s.append(int_string(h as i64).as_str());
    s.append("@");
    s.append(int_string(o.x as i64).as_str());
    s.append("x");
    s.append(int_string(o.y as i64).as_str());
    if o.transform != Transform::default() {
        s.append(" ");
        s.append(turn_string(o.transform, locale).as_str());
    }
    if let Some(target) = &o.mirror_of {
        s.append(" ⧉");
        s.append(target.as_str());
    }
    assert(s@ =~= summary_of(o@, locale));
    s
}

/// The outputs of a layout on one line, in the order of their text.
pub open spec fn layout_summary(l: LayoutView, locale: Locale) -> Seq<char> {
    join(sorted_texts(l.outputs.map_values(|o: OutputView| summary_of(o, locale))), ", "@)
}

impl Snapshot {
    pub fn new(layout: Layout, signature: String, profile: Option<String>, now: u64) -> (r: Self)
        ensures
            r@ == (SnapshotView {
                at: now,
                signature: signature@,
                profile: view_opt(profile),
                layout: layout@,
            }),
    {
        Snapshot { at: now, signature, profile, layout }
    }

    /// Age in seconds, saturating so a clock that moved backwards reads as 0
    /// rather than wrapping around.
    pub fn age_secs(&self, now: u64) -> (r: u64)
        ensures
            r == if now >= self.at {
                now - self.at
            } else {
                0
            },
    {
        if now >= self.at {
            now - self.at
        } else {
            0
        }
    }

    /// Human-readable age, in the user's language.
    ///
    /// Relative rather than absolute: in an undo list, "5 min ago" answers the
    /// question better than a timestamp, and it needs no date library.
    pub fn age_label(&self, now: u64, locale: Locale) -> (r: String)
        ensures
            r@ == age_notice(
                if now >= self.at {
                    now - self.at
                } else {
                    0
                },
            ).said(locale),
    {
        humanize(self.age_secs(now), locale)
    }

    /// One-line description of the outputs, for the history listing.
    pub fn describe(&self, locale: Locale) -> (r: String)
        ensures
            r@ == layout_summary(self@.layout, locale),
    {
        let ghost want = self@.layout.outputs.map_values(|o: OutputView| summary_of(o, locale));
        let mut parts: Vec<String> = Vec::new();
        let mut i: usize = 0;
        while i < self.layout.outputs.len()
            invariant
                i <= self.layout.outputs@.len(),
                want == self@.layout.outputs.map_values(|o: OutputView| summary_of(o, locale)),
                views(parts@) == want.take(i as int),
            decreases self.layout.outputs@.len() - i,
        {
            let s = summary_string(&self.layout.outputs[i], locale);
            proof {
                lemma_views_push(parts@, s);
            }
            parts.push(s);
            i = i + 1;
            assert(views(parts@) =~= want.take(i as int));
        }
        assert(views(parts@) =~= want);
        joined(&sort_texts(&parts), ", ")
    }
}

pub open spec fn fingerprints(monitors: Seq<Monitor>) -> Seq<Seq<char>> {
    monitors.map_values(|m: Monitor| m.print())
}

/// The fingerprints of the connected monitors, in order.
pub open spec fn signature_of(monitors: Seq<Monitor>) -> Seq<char> {
    join(sorted_texts(fingerprints(monitors)), " + "@)
}

/// Identifies a set of connected outputs, regardless of order or connector.
///
/// Built from fingerprints so that the same physical screens produce the same
/// signature whichever port they end up on — that is the whole point of
/// recalling a layout.
pub fn signature(monitors: &[Monitor]) -> (r: String)
    ensures
        r@ == signature_of(monitors@),
{
    let ghost want = fingerprints(monitors@);
    let mut ids: Vec<String> = Vec::new();
    let mut i: usize = 0;
    while i < monitors.len()
        invariant
            i <= monitors@.len(),
            want == fingerprints(monitors@),
            views(ids@) == want.take(i as int),
        decreases monitors@.len() - i,
    {
        let s = monitors[i].fingerprint();
        proof {
            lemma_views_push(ids@, s);
        }
        ids.push(s);
        i = i + 1;
        assert(views(ids@) =~= want.take(i as int));
    }
    assert(views(ids@) =~= want);
    joined(&sort_texts(&ids), " + ")
}

/// A signature does not depend on the order in which the monitors are listed.
pub proof fn signatures_ignore_the_order(a: Seq<Monitor>, b: Seq<Monitor>)
    requires
        fingerprints(a).to_multiset() == fingerprints(b).to_multiset(),
    ensures
        signature_of(a) == signature_of(b),
{
    sorting_forgets_the_order(fingerprints(a), fingerprints(b));
}

/// Whether two monitors say the same of themselves, and anything at all. The
/// description counts only where make, model and serial number say nothing.
pub open spec fn same_screen(a: Monitor, b: Monitor) -> bool {
    &&& trim(a.make@) == trim(b.make@)
    &&& trim(a.model@) == trim(b.model@)
    &&& trim(a.serial@) == trim(b.serial@)
    &&& nonempty(seq![trim(a.make@), trim(a.model@), trim(a.serial@)]).len() == 0 ==> trim(
        a.description@,
    ).len() > 0 && trim(a.description@) == trim(b.description@)
}

/// A monitor that says anything of itself has the same fingerprint whichever
/// connector it is plugged into.
pub proof fn fingerprints_ignore_the_connector(a: Monitor, b: Monitor)
    requires
        same_screen(a, b),
    ensures
        a.print() == b.print(),
{
}

/// The same screens have the same signature whichever ports they end up on and
/// in whichever order they are listed: `b` lists them as `order` says.
pub proof fn signatures_ignore_the_ports(a: Seq<Monitor>, b: Seq<Monitor>, order: Seq<int>)
    requires
        a.len() == b.len() == order.len(),
        forall|i: int|
            0 <= i < b.len() ==> 0 <= #[trigger] order[i] < a.len() && same_screen(
                a[order[i]],
                b[i],
            ),
        order.no_duplicates(),
    ensures
        signature_of(a) == signature_of(b),
{
    let x = fingerprints(a);
    let y = fingerprints(b);
    assert forall|i: int| 0 <= i < y.len() implies #[trigger] y[i] == x[order[i]] by {
        fingerprints_ignore_the_connector(a[order[i]], b[i]);
    }
    lemma_reordered(x, y, order);
    signatures_ignore_the_order(a, b);
}

/// A reordered list holds the same texts as often.
proof fn lemma_reordered(x: Seq<Seq<char>>, y: Seq<Seq<char>>, order: Seq<int>)
    requires
        x.len() == y.len() == order.len(),
        forall|i: int| 0 <= i < y.len() ==> 0 <= #[trigger] order[i] < x.len(),
        forall|i: int| 0 <= i < y.len() ==> #[trigger] y[i] == x[order[i]],
        order.no_duplicates(),
    ensures
        x.to_multiset() == y.to_multiset(),
    decreases x.len(),
{
    if x.len() == 0 {
        assert(x =~= y);
    } else {
        let k = order.last();
        let rest = x.remove(k);
        let less = order.drop_last().map_values(
            |i: int|
                if i > k {
                    i - 1
                } else {
                    i
                },
        );
        assert forall|i: int| 0 <= i < less.len() implies 0 <= #[trigger] less[i] < rest.len() by {
            assert(order[i] != order[order.len() - 1]);
        }
        assert forall|i: int| 0 <= i < less.len() implies #[trigger] y.drop_last()[i]
            == rest[less[i]] by {
            assert(order[i] != order[order.len() - 1]);
            assert(y[i] == x[order[i]]);
        }
        assert forall|i: int, j: int|
            0 <= i < less.len() && 0 <= j < less.len() && i != j implies less[i] != less[j] by {
            assert(order[i] != order[j]);
            assert(order[i] != order[order.len() - 1]);
            assert(order[j] != order[order.len() - 1]);
        }
        lemma_reordered(rest, y.drop_last(), less);
        assert(y =~= y.drop_last().push(x[k]));
        assert(x =~= rest.insert(k, x[k]));
        broadcast use vstd::seq_lib::group_to_multiset_ensures;
        assert(rest.insert(k, x[k]).to_multiset() =~= rest.to_multiset().insert(x[k]));
        assert(y.to_multiset() =~= y.drop_last().to_multiset().insert(x[k]));
    }
}

// ---------------------------------------------------------------- the store

/// The layout last used with a set of outputs.
#[derive(Debug, PartialEq, Eq)]
pub struct Recalled {
    pub signature: String,
    pub snapshot: Snapshot,
}

/// Everything persisted between runs.
#[derive(Debug)]
pub struct Store {
    /// Newest first, at most [`CAPACITY`] entries.
    pub history: Vec<Snapshot>,
    /// Last layout used with each set of outputs, in the order of their
    /// [`signature`]s, each once.
    pub recall: Vec<Recalled>,
    /// Where to write back. `None` means "nowhere", which stops a store of
    /// unknown provenance from overwriting the real one.
    pub path: Option<String>,
}

#[verifier::ext_equal]
pub ghost struct StoreView {
    pub history: Seq<SnapshotView>,
    pub recall: Map<Seq<char>, SnapshotView>,
    pub path: Option<Seq<char>>,
}

pub open spec fn snapshot_views(v: Seq<Snapshot>) -> Seq<SnapshotView> {
    Seq::new(v.len(), |i: int| v[i]@)
}

pub open spec fn keys(v: Seq<Recalled>) -> Seq<Seq<char>> {
    Seq::new(v.len(), |i: int| v[i].signature@)
}

/// Whether a key comes strictly before another one.
pub open spec fn precedes(a: Seq<char>, b: Seq<char>) -> bool {
    comes_first(a, b) && a != b
}

/// Where a key stands.
pub open spec fn key_from(v: Seq<Recalled>, key: Seq<char>, i: int) -> Option<int>
    decreases v.len() - i,
{
    if i < 0 || i >= v.len() {
        None
    } else if v[i].signature@ == key {
        Some(i)
    } else {
        key_from(v, key, i + 1)
    }
}

/// The map from keys to snapshots.
pub open spec fn recall_map(v: Seq<Recalled>) -> Map<Seq<char>, SnapshotView> {
    Map::new(
        |k: Seq<char>| key_from(v, k, 0) is Some,
        |k: Seq<char>| v[key_from(v, k, 0).unwrap()].snapshot@,
    )
}

impl View for Store {
    type V = StoreView;

    open spec fn view(&self) -> StoreView {
        StoreView {
            history: snapshot_views(self.history@),
            recall: recall_map(self.recall@),
            path: view_opt(self.path),
        }
    }
}

/// The newest entries, as many as are kept.
pub open spec fn newest(s: Seq<SnapshotView>) -> Seq<SnapshotView> {
    if s.len() > CAPACITY {
        s.take(CAPACITY as int)
    } else {
        s
    }
}

impl StoreView {
    /// The store with one more layout: identical consecutive layouts are one.
    pub open spec fn recorded(self, s: SnapshotView) -> StoreView {
        StoreView {
            recall: self.recall.insert(s.signature, s),
            history: if self.history.len() > 0 && self.history[0].layout == s.layout {
                self.history
            } else {
                newest(seq![s] + self.history)
            },
            path: self.path,
        }
    }
}

impl Store {
    /// The keys are in order, each once.
    pub open spec fn ordered(self) -> bool {
        forall|i: int, j: int|
            0 <= i < j < self.recall@.len() ==> precedes(
                (#[trigger] self.recall@[i]).signature@,
                (#[trigger] self.recall@[j]).signature@,
            )
    }

    /// The keys are in order, and the history is no longer than it may be.
    pub open spec fn well_formed(self) -> bool {
        self.ordered() && self.history@.len() <= CAPACITY
    }
}

proof fn lemma_key_from(v: Seq<Recalled>, key: Seq<char>, i: int)
    requires
        0 <= i,
    ensures
        match key_from(v, key, i) {
            Some(k) => i <= k < v.len() && v[k].signature@ == key && forall|j: int|
                i <= j < k ==> (#[trigger] v[j]).signature@ != key,
            None => forall|j: int| i <= j < v.len() ==> (#[trigger] v[j]).signature@ != key,
        },
    decreases v.len() - i,
{
    if i < v.len() && v[i].signature@ != key {
        lemma_key_from(v, key, i + 1);
    }
}

/// Two lists with the same pairs, each key once, make the same map.
proof fn lemma_map_value(v: Seq<Recalled>, i: int)
    requires
        0 <= i < v.len(),
        forall|a: int, b: int|
            0 <= a < b < v.len() ==> (#[trigger] v[a]).signature@ != (#[trigger] v[b]).signature@,
    ensures
        key_from(v, v[i].signature@, 0) == Some(i),
{
    lemma_key_from(v, v[i].signature@, 0);
    let k = key_from(v, v[i].signature@, 0);
    if let Some(j) = k {
        if j < i {
            assert(v[j].signature@ != v[i].signature@);
        } else if j > i {
            assert(v[i].signature@ != v[j].signature@);
        }
    }
}

impl Default for Store {
    fn default() -> (r: Self)
        ensures
            r.well_formed(),
            r@ == (StoreView { history: Seq::empty(), recall: Map::empty(), path: None }),
    {
        let r = Store { history: Vec::new(), recall: Vec::new(), path: None };
        assert(r@.history =~= Seq::empty());
        assert(r@.recall =~= Map::empty());
        r
    }
}

impl Store {
    /// A store backed by nothing, for tests and dry runs.
    pub fn ephemeral() -> (r: Self)
        ensures
            r.well_formed(),
            r@ == (StoreView { history: Seq::empty(), recall: Map::empty(), path: None }),
    {
        Store::default()
    }

    /// A store with the given history, of which the newest entries are kept, and
    /// nothing to recall yet.
    pub fn with_history(history: Vec<Snapshot>, path: Option<String>) -> (r: Self)
        ensures
            r.well_formed(),
            r@ == (StoreView {
                history: newest(snapshot_views(history@)),
                recall: Map::empty(),
                path: view_opt(path),
            }),
    {
        let mut kept = history;
        let ghost all = snapshot_views(history@);
        kept.truncate(CAPACITY);
        let r = Store { history: kept, recall: Vec::new(), path };
        assert(r@.history =~= newest(all));
        assert(r@.recall =~= Map::empty());
        r
    }

    /// Files a snapshot under a key.
    pub fn remember(&mut self, key: String, snapshot: Snapshot)
        requires
            old(self).ordered(),
        ensures
            final(self).ordered(),
            final(self).history == old(self).history,
            final(self).path == old(self).path,
            final(self)@.recall == old(self)@.recall.insert(key@, snapshot@),
    {
        let ghost before = self.recall@;
        let ghost k = key@;
        let ghost shown = snapshot@;
        let mut i: usize = 0;
        while i < self.recall.len() && !is_first(key.as_str(), self.recall[i].signature.as_str())
            invariant
                i <= self.recall@.len(),
                self.recall@ == before,
                self.ordered(),
                k == key@,
                self.history == old(self).history,
                self.path == old(self).path,
                forall|j: int|
                    0 <= j < i ==> !comes_first(k, (#[trigger] before[j]).signature@),
            decreases self.recall@.len() - i,
        {
            i = i + 1;
        }
        proof {
            lemma_text_order();
            let leq = text_order();
            assert forall|j: int| 0 <= j < i implies precedes(
                (#[trigger] before[j]).signature@,
                k,
            ) by {
                assert(leq(k, before[j].signature@) || leq(before[j].signature@, k));
                assert(leq(k, k));
            }
        }
        if i < self.recall.len() && same(self.recall[i].signature.as_str(), key.as_str()) {
            self.recall.set(i, Recalled { signature: key, snapshot });
            proof {
                let after = self.recall@;
                assert forall|a: int, b: int| 0 <= a < b < after.len() implies precedes(
                    (#[trigger] after[a]).signature@,
                    (#[trigger] after[b]).signature@,
                ) by {
                    assert(precedes(before[a].signature@, before[b].signature@));
                }
                lemma_recall_replaced(before, after, i as int, k, shown);
            }
        } else {
            proof {
                let leq = text_order();
                if i < before.len() {
                    assert(precedes(k, before[i as int].signature@));
                }
                assert forall|j: int| i <= j < before.len() implies precedes(
                    k,
                    (#[trigger] before[j]).signature@,
                ) by {
                    if j > i {
                        assert(precedes(before[i as int].signature@, before[j].signature@));
                        assert(leq(k, before[i as int].signature@));
                        assert(leq(before[i as int].signature@, before[j].signature@));
                        assert(leq(k, before[j].signature@));
                        if k == before[j].signature@ {
                            assert(leq(before[i as int].signature@, k));
                        }
                    }
                }
            }
            self.recall.insert(i, Recalled { signature: key, snapshot });
            proof {
                let after = self.recall@;
                assert forall|a: int, b: int| 0 <= a < b < after.len() implies precedes(
                    (#[trigger] after[a]).signature@,
                    (#[trigger] after[b]).signature@,
                ) by {
                    if b < i {
                        assert(precedes(before[a].signature@, before[b].signature@));
                    } else if b == i {
                        assert(precedes(before[a].signature@, k));
                    } else if a < i {
                        assert(precedes(before[a].signature@, before[b - 1].signature@));
                    } else if a == i {
                        assert(precedes(k, before[b - 1].signature@));
                    } else {
                        assert(precedes(before[a - 1].signature@, before[b - 1].signature@));
                    }
                }
                lemma_recall_inserted(before, after, i as int, k, shown);
            }
        }
    }

    /// Records a layout that was just applied.
    ///
    /// Consecutive identical layouts are collapsed: reconciling on every
    /// hotplug event would otherwise fill the history with copies of the same
    /// thing and push the entry the user actually wants to undo out of reach.
    pub fn record(&mut self, snapshot: Snapshot)
        requires
            old(self).well_formed(),
        ensures
            final(self).well_formed(),
            final(self)@ == old(self)@.recorded(snapshot@),
    {
        let ghost s = snapshot@;
        let ghost before = self@.history;
        self.remember(snapshot.signature.clone(), snapshot.clone());
        let repeated = self.history.len() > 0 && self.history[0].layout.same_as(&snapshot.layout);
        assert(before.len() == self.history@.len());
        if self.history.len() > 0 {
            assert(before[0] == self.history@[0]@);
        }
        if repeated {
            return;
        }
        self.history.insert(0, snapshot);
        assert(snapshot_views(self.history@) =~= seq![s] + before);
        self.history.truncate(CAPACITY);
        assert(snapshot_views(self.history@) =~= newest(seq![s] + before));
    }

    /// Layout previously used with exactly these outputs.
    pub fn recall_for(&self, monitors: &[Monitor]) -> (r: Option<&Snapshot>)
        ensures
            match r {
                Some(s) => self@.recall.contains_key(signature_of(monitors@))
                    && self@.recall[signature_of(monitors@)] == s@,
                None => !self@.recall.contains_key(signature_of(monitors@)),
            },
    {
        let key = signature(monitors);
        let mut i: usize = 0;
        while i < self.recall.len()
            invariant
                i <= self.recall@.len(),
                key@ == signature_of(monitors@),
                key_from(self.recall@, key@, 0) == key_from(self.recall@, key@, i as int),
            decreases self.recall@.len() - i,
        {
            if same(self.recall[i].signature.as_str(), key.as_str()) {
                return Some(&self.recall[i].snapshot);
            }
            i = i + 1;
        }
        None
    }

    /// History entry by position, `0` being the most recent.
    pub fn entry(&self, index: usize) -> (r: Option<&Snapshot>)
        ensures
            match r {
                Some(s) => index < self@.history.len() && s@ == self@.history[index as int],
                None => index >= self@.history.len(),
            },
    {
        if index < self.history.len() {
            Some(&self.history[index])
        } else {
            None
        }
    }

    /// Where to write back to, if anywhere.
    pub fn save_target(&self) -> (r: Option<&str>)
        ensures
            view_opt_str(r) == self@.path,
    {
        match &self.path {
            Some(p) => Some(p.as_str()),
            None => None,
        }
    }

    /// Forgets everything.
    pub fn clear(&mut self)
        ensures
            final(self).well_formed(),
            final(self)@ == (StoreView {
                history: Seq::empty(),
                recall: Map::empty(),
                path: old(self)@.path,
            }),
    {
        self.history.clear();
        self.recall.clear();
        assert(self@.history =~= Seq::empty());
        assert(self@.recall =~= Map::empty());
    }
}

proof fn lemma_recall_replaced(
    before: Seq<Recalled>,
    after: Seq<Recalled>,
    i: int,
    key: Seq<char>,
    s: SnapshotView,
)
    requires
        0 <= i < before.len(),
        after.len() == before.len(),
        before[i].signature@ == key,
        after[i].signature@ == key,
        after[i].snapshot@ == s,
        forall|j: int| 0 <= j < before.len() && j != i ==> #[trigger] after[j] == before[j],
        forall|a: int, b: int|
            0 <= a < b < before.len() ==> (#[trigger] before[a]).signature@ != (
            #[trigger] before[b]).signature@,
    ensures
        recall_map(after) == recall_map(before).insert(key, s),
{
    assert forall|a: int, b: int| 0 <= a < b < after.len() implies (#[trigger] after[a]).signature@
        != (#[trigger] after[b]).signature@ by {
        assert(before[a].signature@ != before[b].signature@);
    }
    assert forall|k: Seq<char>| key_from(after, k, 0) == key_from(before, k, 0) by {
        lemma_key_from(before, k, 0);
        lemma_key_from(after, k, 0);
        if let Some(j) = key_from(before, k, 0) {
            assert(after[j].signature@ == k);
            lemma_map_value(after, j);
        } else if let Some(j) = key_from(after, k, 0) {
            assert(before[j].signature@ == k);
        }
    }
    lemma_map_value(before, i);
    assert forall|k: Seq<char>| recall_map(after).contains_key(k) && k
        != key implies recall_map(after)[k] == recall_map(before)[k] by {
        lemma_key_from(before, k, 0);
        let j = key_from(before, k, 0).unwrap();
        assert(after[j] == before[j]);
    }
    assert(recall_map(after) =~= recall_map(before).insert(key, s));
}

proof fn lemma_recall_inserted(
    before: Seq<Recalled>,
    after: Seq<Recalled>,
    i: int,
    key: Seq<char>,
    s: SnapshotView,
)
    requires
        0 <= i <= before.len(),
        after.len() == before.len() + 1,
        after[i].signature@ == key,
        after[i].snapshot@ == s,
        forall|j: int| 0 <= j < i ==> #[trigger] after[j] == before[j],
        forall|j: int| i <= j < before.len() ==> #[trigger] before[j] == after[j + 1],
        forall|a: int, b: int|
            0 <= a < b < after.len() ==> (#[trigger] after[a]).signature@ != (
            #[trigger] after[b]).signature@,
    ensures
        recall_map(after) == recall_map(before).insert(key, s),
{
    lemma_map_value(after, i);
    assert forall|a: int, b: int|
        0 <= a < b < before.len() implies (#[trigger] before[a]).signature@ != (
    #[trigger] before[b]).signature@ by {
        let p = if a < i {
            a
        } else {
            a + 1
        };
        let q = if b < i {
            b
        } else {
            b + 1
        };
        assert(after[p] == before[a] && after[q] == before[b]);
        assert(after[p].signature@ != after[q].signature@);
    }
    assert forall|k: Seq<char>| k != key implies match (
        key_from(before, k, 0),
        #[trigger] key_from(after, k, 0),
    ) {
        (Some(a), Some(b)) => before[a] == after[b],
        (None, None) => true,
        _ => false,
    } by {
        lemma_key_from(before, k, 0);
        lemma_key_from(after, k, 0);
        if let Some(a) = key_from(before, k, 0) {
            let p = if a < i {
                a
            } else {
                a + 1
            };
            assert(after[p] == before[a]);
            lemma_map_value(after, p);
        } else if let Some(b) = key_from(after, k, 0) {
            if b < i {
                assert(before[b].signature@ == k);
            } else {
                assert(b != i);
                assert(before[b - 1] == after[b]);
                assert(before[b - 1].signature@ == k);
            }
        }
    }
    assert(recall_map(after) =~= recall_map(before).insert(key, s));
}

/// What was recorded for a set of outputs is what is recalled for it, and
/// nothing else changes what another set recalls.
pub proof fn recorded_layouts_are_recalled(store: StoreView, s: SnapshotView, other: Seq<char>)
    ensures
        store.recorded(s).recall.contains_key(s.signature),
        store.recorded(s).recall[s.signature] == s,
        other != s.signature ==> store.recorded(s).recall.contains_key(other)
            == store.recall.contains_key(other) && (store.recall.contains_key(other)
            ==> store.recorded(s).recall[other] == store.recall[other]),
{
}

/// The newest entry of the history has the layout that was recorded last, the
/// history never outgrows its capacity, and recording the same layout again
/// leaves it as it is.
pub proof fn history_holds_the_newest_layouts(store: StoreView, s: SnapshotView, again: SnapshotView)
    requires
        store.history.len() <= CAPACITY,
        again.layout == s.layout,
    ensures
        store.recorded(s).history.len() <= CAPACITY,
        store.recorded(s).history.len() > 0,
        store.recorded(s).history[0].layout == s.layout,
        store.recorded(s).recorded(again).history == store.recorded(s).history,
        forall|i: int|
            0 <= i < store.recorded(s).history.len() - 1 && (store.history.len() == 0
                || store.history[0].layout != s.layout) ==> #[trigger] store.recorded(s).history[i
                + 1] == store.history[i],
{
}

/// `$XDG_STATE_HOME/hyprdmc/state.json`, or the usual fallback.
pub fn state_path(state_home: Option<&str>, env: &Environment) -> (r: String)
    ensures
        r@ == path_join(
            path_join(
                match view_opt_str(state_home) {
                    Some(dir) => dir,
                    None => path_join(path_join(env.home_dir(), ".local"@), "state"@),
                },
                "hyprdmc"@,
            ),
            "state.json"@,
        ),
{
    let root = match state_home {
        Some(dir) => dir.to_owned(),
        None => join_path(join_path(env.home().as_str(), ".local").as_str(), "state"),
    };
    join_path(join_path(root.as_str(), "hyprdmc").as_str(), "state.json")
}

} // verus!
