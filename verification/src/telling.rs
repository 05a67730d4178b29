//! What is remembered and told: which layout is chosen and why, what becomes of
//! one that was applied, and how the past reads.

use vstd::prelude::*;

use crate::config::{best_of, designated, designates, read_position, ConfigView};
use crate::daemon::{
    changes_text, chosen, follow_up, guarded_after, lacking, noted, settling, stamped, DaemonView,
    FollowUp, Incoming, Origin, OriginView, OutgoingView, PendingView,
};
use crate::decimals::{integers_read_back, naturals_read_back};
use crate::editing::is_shifted;
use crate::history::{age_notice, signature_of, summary_of, SnapshotView, StoreView};
use crate::i18n::Locale;
use crate::layout::{
    arranging_leaves_no_overlap, fits_i32, live_layout, normalizing_anchors_the_layout, sized,
    LayoutView, OutputView,
};
use crate::monitor::{nonempty, Monitor, Transform};
use crate::notice::{note, turn_text, ArgView, NoticeId, NoticeView};
use crate::number::{int_text, parse_nat};
use crate::rendering::sway_word_len;
use crate::saved::positions_read_back;
use crate::session::{CompositorEvent, EventView};
use crate::text::{find, join, lemma_find, occurs_at, split_once, starts_with, trim};

verus! {

// ---------------------------------------------------------------- choosing

/// Where a layout comes from is what it is: a profile's is what the best profile
/// resolves to, built around the main screen; a recalled one is what was recorded
/// for these screens; a row is only made where the live layout has errors; and
/// otherwise the live layout is left as it is. Every one has the main screen that
/// the settings designate.
pub proof fn chosen_layouts_are_what_they_say(
    cfg: ConfigView,
    recall: Map<Seq<char>, SnapshotView>,
    monitors: Seq<Monitor>,
)
    requires
        chosen(cfg, recall, monitors) is Ok,
    ensures
        chosen(cfg, recall, monitors)->Ok_0.layout().primary == cfg.primary_among(monitors),
        match chosen(cfg, recall, monitors)->Ok_0 {
            OriginView::Profile(name, l) => {
                let b = best_of(cfg.profiles, monitors, cfg.profiles.len() as int);
                &&& b is Some
                &&& name == cfg.profiles[b->0].name
                &&& is_shifted(cfg.profiles[b->0].layout(monitors)->Ok_0, l)
                &&& l.primary_at() is Some ==> l.outputs[l.primary_at()->0].x == 0
                    && l.outputs[l.primary_at()->0].y == 0
            },
            OriginView::Recalled(l) => {
                &&& cfg.settings.remember
                &&& recall.contains_key(signature_of(monitors))
                &&& l.outputs == recall[signature_of(monitors)].layout.outputs
            },
            OriginView::Arranged(l) => {
                &&& stamped(live_layout(monitors), cfg.primary_among(monitors)).erroneous()
                &&& l.outputs.len() == monitors.len()
                &&& sized(live_layout(monitors)) ==> forall|i: int|
                    0 <= i < l.outputs.len() && (#[trigger] l.outputs[i]).occupies()
                        ==> l.outputs[i].y == 0 && l.outputs[i].x >= 0
            },
            OriginView::Unchanged(l) => {
                &&& l.outputs == live_layout(monitors).outputs
                &&& !l.erroneous()
            },
        },
{
    let primary = cfg.primary_among(monitors);
    let live = stamped(live_layout(monitors), primary);
    match chosen(cfg, recall, monitors)->Ok_0 {
        OriginView::Profile(name, l) => {
            let b = best_of(cfg.profiles, monitors, cfg.profiles.len() as int)->0;
            let from = cfg.profiles[b].layout(monitors)->Ok_0;
            let at = stamped(from, primary);
            normalizing_anchors_the_layout(at);
            let (ax, ay) = at.anchor();
            assert(crate::editing::is_shifted_by(from, l, -ax, -ay));
        },
        OriginView::Arranged(l) => {
            if sized(live_layout(monitors)) {
                assert forall|k: int|
                    0 <= k < live.outputs.len() && (
                    #[trigger] live.outputs[k]).occupies() implies live.outputs[k].size().0 >= 0
                    && live.outputs[k].size().1 >= 0 by {
                    assert(live_layout(monitors).outputs[k].occupies());
                }
                arranging_leaves_no_overlap(live);
                assert forall|i: int|
                    0 <= i < l.outputs.len() && (
                    #[trigger] l.outputs[i]).occupies() implies l.outputs[i].y == 0
                    && l.outputs[i].x >= 0 by {
                    assert(live.outputs[i].occupies());
                }
            }
        },
        _ => {},
    }
}

/// The main screen is the first connected one that the setting designates; there
/// is none without a setting, and none where it designates nothing.
pub proof fn main_screens_are_the_first_designated(cfg: ConfigView, monitors: Seq<Monitor>)
    ensures
        match cfg.settings.primary {
            None => cfg.primary_among(monitors) is None,
            Some(pattern) => match cfg.primary_among(monitors) {
                None => forall|i: int|
                    0 <= i < monitors.len() ==> !designates(pattern, #[trigger] monitors[i]),
                Some(name) => exists|k: int|
                    0 <= k < monitors.len() && designates(pattern, #[trigger] monitors[k])
                        && monitors[k].name@ == name && forall|j: int|
                        0 <= j < k ==> !designates(pattern, #[trigger] monitors[j]),
            },
        },
{
    if let Some(pattern) = cfg.settings.primary {
        lemma_designated(pattern, monitors);
    }
}

proof fn lemma_designated(pattern: Seq<char>, monitors: Seq<Monitor>)
    ensures
        match designated(pattern, monitors) {
            None => forall|i: int|
                0 <= i < monitors.len() ==> !designates(pattern, #[trigger] monitors[i]),
            Some(name) => exists|k: int|
                0 <= k < monitors.len() && designates(pattern, #[trigger] monitors[k])
                    && monitors[k].name@ == name && forall|j: int|
                    0 <= j < k ==> !designates(pattern, #[trigger] monitors[j]),
        },
    decreases monitors.len(),
{
    if monitors.len() > 0 && !designates(pattern, monitors[0]) {
        let rest = monitors.skip(1);
        lemma_designated(pattern, rest);
        match designated(pattern, rest) {
            None => {
                assert forall|i: int| 0 <= i < monitors.len() implies !designates(
                    pattern,
                    #[trigger] monitors[i],
                ) by {
                    if i > 0 {
                        assert(rest[i - 1] == monitors[i]);
                    }
                }
            },
            Some(name) => {
                let k = choose|k: int|
                    0 <= k < rest.len() && designates(pattern, #[trigger] rest[k])
                        && rest[k].name@ == name && forall|j: int|
                        0 <= j < k ==> !designates(pattern, #[trigger] rest[j]);
                assert(designates(pattern, monitors[k + 1]));
                assert forall|j: int| 0 <= j < k + 1 implies !designates(
                    pattern,
                    #[trigger] monitors[j],
                ) by {
                    if j > 0 {
                        assert(rest[j - 1] == monitors[j]);
                    }
                }
            },
        }
    }
}

/// A fingerprint is make, model and serial number with spaces between them, as
/// far as each is known; else the description; else the connector.
pub proof fn fingerprints_name_the_make_first(m: Monitor)
    ensures
        ({
            let a = trim(m.make@);
            let b = trim(m.model@);
            let c = trim(m.serial@);
            let d = trim(m.description@);
            let sp = seq![' '];
            &&& a.len() > 0 && b.len() > 0 && c.len() > 0 ==> m.print() == a + sp + b + sp + c
            &&& a.len() > 0 && b.len() > 0 && c.len() == 0 ==> m.print() == a + sp + b
            &&& a.len() > 0 && b.len() == 0 && c.len() > 0 ==> m.print() == a + sp + c
            &&& a.len() == 0 && b.len() > 0 && c.len() > 0 ==> m.print() == b + sp + c
            &&& a.len() > 0 && b.len() == 0 && c.len() == 0 ==> m.print() == a
            &&& a.len() == 0 && b.len() > 0 && c.len() == 0 ==> m.print() == b
            &&& a.len() == 0 && b.len() == 0 && c.len() > 0 ==> m.print() == c
            &&& a.len() == 0 && b.len() == 0 && c.len() == 0 && d.len() > 0 ==> m.print() == d
            &&& a.len() == 0 && b.len() == 0 && c.len() == 0 && d.len() == 0 ==> m.print()
                == m.name@
        }),
{
    let a = trim(m.make@);
    let b = trim(m.model@);
    let c = trim(m.serial@);
    let none = Seq::<Seq<char>>::empty();
    let all = seq![a, b, c];
    let p = nonempty(all);
    assert(" "@ =~= seq![' ']) by {
        reveal_strlit(" ");
    }
    assert(nonempty(none) == none) by {
        reveal(Seq::filter);
    }
    lemma_nonempty(none, a);
    lemma_nonempty(none.push(a), b);
    lemma_nonempty(none.push(a).push(b), c);
    assert(none.push(a).push(b).push(c) =~= all);
    reveal_with_fuel(join, 4);
    if a.len() > 0 && b.len() > 0 && c.len() > 0 {
        assert(p =~= seq![a, b, c]);
        assert(p.drop_last() =~= seq![a, b]);
        assert(p.drop_last().drop_last() =~= seq![a]);
    } else if p.len() == 2 {
        assert(p.drop_last() =~= seq![p[0]]);
    }
}

proof fn lemma_nonempty(parts: Seq<Seq<char>>, part: Seq<char>)
    ensures
        nonempty(parts.push(part)) == if part.len() > 0 {
            nonempty(parts).push(part)
        } else {
            nonempty(parts)
        },
{
    reveal(Seq::filter);
    assert(parts.push(part).drop_last() =~= parts);
}

// ---------------------------------------------------------------- reverting

/// A layout that did not succeed changes nothing of what is pending and is not
/// filed; one that succeeded is filed at once where nobody is asked or the time is
/// nothing, and otherwise waits, with what it was, what it came from and what to
/// go back to.
pub proof fn applied_layouts_wait_or_are_filed(
    before: Option<PendingView>,
    succeeded: bool,
    guarded: bool,
    timeout_secs: u64,
    previous: LayoutView,
    applied: LayoutView,
    profile: Option<Seq<char>>,
)
    ensures
        ({
            let next = follow_up(succeeded, guarded, timeout_secs);
            let after = guarded_after(before, next, previous, applied, profile);
            &&& !succeeded ==> next == FollowUp::Leave && after == before
            &&& succeeded && (!guarded || timeout_secs == 0) ==> next == FollowUp::File && after
                is None
            &&& succeeded && guarded && timeout_secs > 0 ==> {
                &&& next == FollowUp::Arm
                &&& after is Some
                &&& after->0.applied == applied
                &&& after->0.profile == profile
                &&& before is None ==> after->0.previous == previous
                &&& before is Some ==> after->0.previous == before->0.previous
            }
        }),
{
}

/// An output that comes or goes is noted under its name, once, and acted upon half
/// a second later; nothing else is.
pub proof fn comings_and_goings_are_noted(
    d: DaemonView,
    name: Seq<char>,
    event: CompositorEvent,
    now: u64,
    auto_apply: bool,
    locale: Locale,
)
    requires
        now <= u64::MAX - 500,
    ensures
        ({
            let (after, out) = d.reacted(Incoming::Event(event, now), auto_apply, locale);
            &&& event@ == EventView::OutputAdded(name) ==> after.added.contains(name)
                && after.removed == d.removed && after.deadline == Some((now + 500) as u64) && out
                is Nothing
            &&& event@ == EventView::OutputRemoved(name) ==> after.removed.contains(name)
                && after.added == d.added && after.deadline == Some((now + 500) as u64) && out
                is Nothing
            &&& event@ is Other ==> after.added == d.added && after.removed == d.removed
                && after.deadline == d.deadline && out is Nothing
            &&& event@ is ConfigReloaded ==> after.added == d.added && after.removed == d.removed
                && after.deadline == d.deadline && out is Reread
        }),
{
    if event@ == EventView::OutputAdded(name) {
        assert(d.added.push(name)[d.added.len() as int] == name);
    }
    if event@ == EventView::OutputRemoved(name) {
        assert(d.removed.push(name)[d.removed.len() as int] == name);
    }
}

// ---------------------------------------------------------------- the past

/// A number in a message.
pub open spec fn tells_number(n: NoticeView, value: nat) -> bool {
    n.args.len() == 1 && match n.args[0] {
        ArgView::Text(s) => parse_nat(s) == Some(value),
        _ => false,
    }
}

/// An age is told in the coarsest unit of which it is at least one: in whole
/// minutes below an hour, whole hours below a day, whole days from there on.
pub proof fn ages_are_told_in_whole_units(seconds: int)
    requires
        0 <= seconds,
    ensures
        seconds < 60 ==> age_notice(seconds).id == NoticeId::JustNow,
        60 <= seconds < 60 * 60 ==> age_notice(seconds).id == NoticeId::MinutesAgo && tells_number(
            age_notice(seconds),
            (seconds / 60) as nat,
        ),
        60 * 60 <= seconds < 24 * 60 * 60 ==> age_notice(seconds).id == NoticeId::HoursAgo
            && tells_number(age_notice(seconds), (seconds / 3600) as nat),
        24 * 60 * 60 <= seconds ==> age_notice(seconds).id == NoticeId::DaysAgo && tells_number(
            age_notice(seconds),
            (seconds / 86_400) as nat,
        ),
{
    naturals_read_back((seconds / 60) as nat);
    naturals_read_back((seconds / 3600) as nat);
    naturals_read_back((seconds / 86400) as nat);
}

proof fn lemma_place(x: int, y: int)
    requires
        fits_i32(x),
        fits_i32(y),
    ensures
        read_position(int_text(x) + "x"@ + int_text(y)) == Ok::<(int, int), NoticeView>((x, y)),
        forall|i: int|
            0 <= i < (int_text(x) + "x"@ + int_text(y)).len() ==> (#[trigger] (int_text(x) + "x"@
                + int_text(y))[i]) != ' ' && (int_text(x) + "x"@ + int_text(y))[i] != '@' && (
            int_text(x) + "x"@ + int_text(y))[i] != '\n',
{
    let none = Seq::<char>::empty();
    let p = int_text(x) + "x"@ + int_text(y);
    positions_read_back(x, y, 'x', none, none, none, none);
    integers_read_back(x);
    integers_read_back(y);
    assert("x"@ =~= seq!['x']) by {
        reveal_strlit("x");
    }
    assert(p =~= none + (int_text(x) + none + seq!['x'] + none + int_text(y)) + none);
    assert forall|i: int| 0 <= i < p.len() implies (#[trigger] p[i]) != ' ' && p[i] != '@' && p[i]
        != '\n' by {
        if i < int_text(x).len() {
            assert(p[i] == int_text(x)[i]);
        } else if i > int_text(x).len() {
            assert(p[i] == int_text(y)[i - int_text(x).len() - 1]);
        }
    }
}

proof fn lemma_first_word(word: Seq<char>, rest: Seq<char>)
    requires
        forall|i: int| 0 <= i < word.len() ==> (#[trigger] word[i]) != ' ' && word[i] != '\n',
        rest.len() == 0 || rest[0] == ' ',
    ensures
        sway_word_len(word + rest) == word.len(),
    decreases word.len(),
{
    let t = word + rest;
    if word.len() > 0 {
        assert(t[0] == word[0]);
        let less = word.skip(1);
        assert forall|i: int| 0 <= i < less.len() implies (#[trigger] less[i]) != ' ' && less[i]
            != '\n' by {
            assert(less[i] == word[i + 1]);
        }
        lemma_first_word(less, rest);
        assert(t.skip(1) =~= less + rest);
    } else if rest.len() > 0 {
        assert(t[0] == rest[0]);
    }
}

/// What stands behind the size and the position.
spec fn remarks(o: OutputView, locale: Locale) -> Seq<char> {
    let turn = if o.transform != Transform::upright() {
        " "@ + turn_text(o.transform, locale)
    } else {
        Seq::empty()
    };
    let mirror = match o.mirror_of {
        Some(target) => " ⧉"@ + target,
        None => Seq::empty(),
    };
    turn + mirror
}

proof fn lemma_remarks(o: OutputView, locale: Locale)
    ensures
        remarks(o, locale).len() == 0 || remarks(o, locale)[0] == ' ',
{
    assert(" "@ =~= seq![' ']) by {
        reveal_strlit(" ");
    }
    assert(" ⧉"@.len() > 0 && " ⧉"@[0] == ' ') by {
        reveal_strlit(" ⧉");
    }
}

proof fn lemma_summary_text(o: OutputView, locale: Locale)
    requires
        o.enabled,
    ensures
        summary_of(o, locale) == o.name + seq![' '] + ((int_text(o.size().0) + "x"@ + int_text(
            o.size().1,
        )) + "@"@ + (int_text(o.x) + "x"@ + int_text(o.y)) + remarks(o, locale)),
{
    assert(" "@ =~= seq![' ']) by {
        reveal_strlit(" ");
    }
    let a = int_text(o.size().0);
    let b = int_text(o.size().1);
    let c = int_text(o.x);
    let d = int_text(o.y);
    let turn = if o.transform != Transform::upright() {
        " "@ + turn_text(o.transform, locale)
    } else {
        Seq::empty()
    };
    let mirror = match o.mirror_of {
        Some(target) => " ⧉"@ + target,
        None => Seq::empty(),
    };
    let line = o.name + " "@ + a + "x"@ + b + "@"@ + c + "x"@ + d;
    assert(line + turn + mirror =~= line + (turn + mirror));
    assert(line =~= o.name + seq![' '] + ((a + "x"@ + b) + "@"@ + (c + "x"@ + d)));
    assert(line + remarks(o, locale) =~= o.name + seq![' '] + ((a + "x"@ + b) + "@"@ + (c + "x"@
        + d) + remarks(o, locale)));
}

proof fn lemma_split_at(size: Seq<char>, place: Seq<char>)
    requires
        forall|i: int| 0 <= i < size.len() ==> #[trigger] size[i] != '@',
    ensures
        split_once(size + "@"@ + place, "@"@) == Some((size, place)),
{
    assert("@"@ =~= seq!['@']) by {
        reveal_strlit("@");
    }
    let word = size + "@"@ + place;
    let n = size.len() as int;
    assert(word.subrange(n, n + 1) =~= "@"@);
    assert(occurs_at(word, "@"@, n));
    lemma_find(word, "@"@, 0);
    let k = find(word, "@"@).unwrap();
    if k < n {
        assert(word.subrange(k, k + 1)[0] == word[k]);
        assert(word[k] == size[k]);
    }
    assert(word.take(n) =~= size);
    assert(word.skip(n + 1) =~= place);
}

/// A line of the history names its output. One that is off is told to be; of any
/// other the word behind the name has the size, then the position.
pub proof fn summaries_tell_size_and_place(o: OutputView, locale: Locale)
    requires
        fits_i32(o.x),
        fits_i32(o.y),
    ensures
        ({
            let s = summary_of(o, locale);
            let behind = s.skip(o.name.len() as int + 1);
            let word = behind.take(sway_word_len(behind) as int);
            &&& starts_with(s, o.name)
            &&& !o.enabled ==> s == o.name + " off"@
            &&& o.enabled ==> match split_once(word, "@"@) {
                Some((size, place)) => {
                    &&& read_position(size) == Ok::<(int, int), NoticeView>(o.size())
                    &&& read_position(place) == Ok::<(int, int), NoticeView>((o.x, o.y))
                },
                None => false,
            }
        }),
{
    let s = summary_of(o, locale);
    if o.enabled {
        let (w, h) = o.size();
        let size = int_text(w) + "x"@ + int_text(h);
        let place = int_text(o.x) + "x"@ + int_text(o.y);
        lemma_summary_text(o, locale);
        lemma_remarks(o, locale);
        lemma_place(o.x, o.y);
        lemma_place(w, h);
        lemma_summary_word(o.name, size, place, remarks(o, locale));
    } else {
        assert(s.subrange(0, o.name.len() as int) =~= o.name);
    }
}

#[verifier::rlimit(40)]
proof fn lemma_summary_word(
    name: Seq<char>,
    size: Seq<char>,
    place: Seq<char>,
    rest: Seq<char>,
)
    requires
        forall|i: int|
            0 <= i < size.len() ==> (#[trigger] size[i]) != ' ' && size[i] != '@' && size[i]
                != '\n',
        forall|i: int| 0 <= i < place.len() ==> (#[trigger] place[i]) != ' ' && place[i] != '\n',
        rest.len() == 0 || rest[0] == ' ',
    ensures
        ({
            let s = name + seq![' '] + (size + "@"@ + place + rest);
            let behind = s.skip(name.len() as int + 1);
            let word = behind.take(sway_word_len(behind) as int);
            starts_with(s, name) && split_once(word, "@"@) == Some((size, place))
        }),
{
    assert("@"@ =~= seq!['@']) by {
        reveal_strlit("@");
    }
    let word = size + "@"@ + place;
    let s = name + seq![' '] + (word + rest);
    assert(s.subrange(0, name.len() as int) =~= name);
    let behind = s.skip(name.len() as int + 1);
    assert(behind =~= word + rest);
    assert forall|i: int| 0 <= i < word.len() implies (#[trigger] word[i]) != ' ' && word[i]
        != '\n' by {
        if i < size.len() {
            assert(word[i] == size[i]);
        } else if i > size.len() {
            assert(word[i] == place[i - size.len() - 1]);
        }
    }
    lemma_first_word(word, rest);
    assert(behind.take(word.len() as int) =~= word);
    lemma_split_at(size, place);
}

/// What is recorded stays where the store stays: the path is kept, and the newest
/// entry has the layout, the moment, the profile and the screens it was recorded
/// with, unless the layout is the one recorded last.
pub proof fn records_keep_their_circumstances(store: StoreView, s: SnapshotView)
    ensures
        store.recorded(s).path == store.path,
        store.recorded(s).recall[s.signature].at == s.at,
        store.recorded(s).recall[s.signature].profile == s.profile,
        store.recorded(s).recall[s.signature].layout == s.layout,
        store.history.len() == 0 || store.history[0].layout != s.layout
            ==> store.recorded(s).history[0] == s,
        store.history.len() > 0 && store.history[0].layout == s.layout
            ==> store.recorded(s).history == store.history,
{
}

/// The history keeps five layouts: one more pushes out the oldest of a full one,
/// and the others stay in their order behind it.
pub proof fn five_layouts_are_kept(store: StoreView, s: SnapshotView)
    requires
        store.history.len() <= 5,
        store.history.len() > 0 ==> store.history[0].layout != s.layout,
    ensures
        store.history.len() < 5 ==> store.recorded(s).history == seq![s] + store.history,
        store.history.len() == 5 ==> store.recorded(s).history == seq![s]
            + store.history.drop_last(),
{
    if store.history.len() == 5 {
        assert((seq![s] + store.history).take(5) =~= seq![s] + store.history.drop_last());
    }
}

/// Where a layout comes from is told by its kind, and a profile by its name.
pub proof fn origins_are_told_by_their_kind(layout: LayoutView, name: Seq<char>)
    ensures
        OriginView::Profile(name, layout).sentence() == note(NoticeId::OriginProfile, seq![name]),
        OriginView::Recalled(layout).sentence().id == NoticeId::OriginRecalled,
        OriginView::Arranged(layout).sentence().id == NoticeId::OriginArranged,
        OriginView::Unchanged(layout).sentence().id == NoticeId::OriginUnchanged,
{
}

/// A change is acted on half a second after it, as far as the clock goes.
pub proof fn changes_settle_for_half_a_second(now: u64)
    ensures
        now + 500 <= u64::MAX ==> settling(now) == now + 500,
        now + 500 > u64::MAX ==> settling(now) == u64::MAX,
{
}

/// An output that came is known from then on, one that went no longer, and no
/// event changes what is known of another.
pub proof fn events_change_what_is_known(
    d: DaemonView,
    event: CompositorEvent,
    now: u64,
    name: Seq<char>,
    other: Seq<char>,
    auto_apply: bool,
    locale: Locale,
)
    requires
        d.known is Some,
        other != name,
    ensures
        ({
            let known = d.known->0;
            let after = d.reacted(Incoming::Event(event, now), auto_apply, locale).0.known;
            &&& after is Some
            &&& event@ == EventView::OutputAdded(name) ==> after->0.contains(name)
            &&& event@ == EventView::OutputRemoved(name) ==> !after->0.contains(name)
            &&& event@ == EventView::OutputAdded(name) || event@ == EventView::OutputRemoved(name)
                ==> after->0.contains(other) == known.contains(other)
            &&& event@ is ConfigReloaded || event@ is Other ==> after->0 == known
        }),
{
    let known = d.known->0;
    lemma_lacking(known, name, name);
    lemma_lacking(known, name, other);
    lemma_pushed(known, name, name);
    lemma_pushed(known, name, other);
}

proof fn lemma_pushed(names: Seq<Seq<char>>, name: Seq<char>, x: Seq<char>)
    ensures
        names.push(name).contains(x) == (names.contains(x) || x == name),
{
    let all = names.push(name);
    assert(all[names.len() as int] == name);
    if names.contains(x) {
        let k = choose|k: int| 0 <= k < names.len() && names[k] == x;
        assert(all[k] == x);
    }
    if all.contains(x) {
        let k = choose|k: int| 0 <= k < all.len() && all[k] == x;
        if k < names.len() {
            assert(names[k] == x);
        }
    }
}

proof fn lemma_lacking(names: Seq<Seq<char>>, name: Seq<char>, x: Seq<char>)
    ensures
        lacking(names, name).contains(x) == (names.contains(x) && x != name),
    decreases names.len(),
{
    if names.len() > 0 {
        let rest = names.drop_last();
        lemma_lacking(rest, name, x);
        lemma_pushed(rest, names.last(), x);
        lemma_pushed(lacking(rest, name), names.last(), x);
        assert(rest.push(names.last()) =~= names);
    }
}

/// At its start the daemon applies what fits, if it may, and tells of it only where
/// something was done; it ends when it is told to.
pub proof fn startups_are_told_where_something_was_done(
    d: DaemonView,
    outcome: Option<Origin>,
    auto_apply: bool,
    locale: Locale,
)
    ensures
        ({
            let (started, first) = d.reacted(Incoming::Started, auto_apply, locale);
            let (done, last) = started.reacted(Incoming::Reconciled(outcome), auto_apply, locale);
            &&& auto_apply ==> first is Reconcile
            &&& !auto_apply ==> first is Nothing && last is Nothing
            &&& auto_apply && outcome is Some ==> (last is Nothing) == (outcome->0@ is Unchanged)
            &&& auto_apply && outcome is None ==> last is Nothing
            &&& last is Announce ==> last == OutgoingView::Announce(
                note(NoticeId::NotifyStartup, seq![]).said(locale),
                outcome->0@.sentence(),
            )
            &&& d.reacted(Incoming::Stop, auto_apply, locale) == (d, OutgoingView::Exit)
        }),
{
}

/// A change is told by what came, what went, or both, what came first.
pub proof fn changes_tell_what_came_and_went(
    added: Seq<Seq<char>>,
    removed: Seq<Seq<char>>,
    locale: Locale,
)
    requires
        added.len() > 0,
        removed.len() > 0,
    ensures
        ({
            let none = Seq::<Seq<char>>::empty();
            let came = note(NoticeId::NotifyConnected, seq![join(added, ", "@)]).said(locale);
            let went = note(NoticeId::NotifyDisconnected, seq![join(removed, ", "@)]).said(locale);
            &&& changes_text(added, none, locale) == came
            &&& changes_text(none, removed, locale) == went
            &&& changes_text(added, removed, locale) == came + " · "@ + went
            &&& changes_text(none, none, locale) == note(NoticeId::NotifyChanged, seq![]).said(
                locale,
            )
        }),
{
    let none = Seq::<Seq<char>>::empty();
    let came = note(NoticeId::NotifyConnected, seq![join(added, ", "@)]).said(locale);
    let went = note(NoticeId::NotifyDisconnected, seq![join(removed, ", "@)]).said(locale);
    assert(seq![came] + none =~= seq![came]);
    assert(none + seq![went] =~= seq![went]);
    let both = seq![came] + seq![went];
    assert(both.drop_last() =~= seq![came]);
    reveal_with_fuel(join, 3);
}

} // verus!
