//! What the commands do to a layout: each option sets its own field, a placement
//! goes where it says, and what is listed is what is there.

use vstd::prelude::*;

use crate::apply::{monitor_from, monitor_named, DriftView, ReportView};
use crate::cli::{
    arranged_by, hardware_layout, is_history_row, is_in_use, is_plugin_row, is_profile_row,
    layout_set, named_layout, placed_by, renamed, rotation_word, row_of, rules_of, told, warnings,
    HistoryRow, PluginRow, ProfileRow, SetArgs, Standing, StatusView,
};
use crate::compositor::{Compositor, Plugin};
use crate::config::{
    best_of, profile_named, read_position, upserted, without_profile, ConfigView, ProfileView,
};
use crate::daemon::stamped;
use crate::decimals::scales_read_back;
use crate::detection::live_outputs_show_their_monitors;
use crate::env::Environment;
use crate::history::SnapshotView;
use crate::i18n::Locale;
use crate::layout::{
    fits_i32, live_layout, named, normalizing_anchors_the_layout, relation_named, IssueView,
    LayoutView, OutputView, Relation, Severity,
};
use crate::monitor::{read_mode, Mode, Monitor, Rotation};
use crate::notice::NoticeView;
use crate::number::{parse_int, parse_nanos};
use crate::saved::{kept_mode, modes_read_back, positions_read_back};
use crate::text::view_opt;

verus! {

// ---------------------------------------------------------------- one output

proof fn lemma_monitor(monitors: Seq<Monitor>, name: Seq<char>, i: int)
    requires
        0 <= i,
    ensures
        match monitor_from(monitors, name, i) {
            Some(k) => i <= k < monitors.len() && monitors[k].name@ == name && forall|j: int|
                i <= j < k ==> (#[trigger] monitors[j]).name@ != name,
            None => forall|j: int|
                i <= j < monitors.len() ==> (#[trigger] monitors[j]).name@ != name,
        },
    decreases monitors.len() - i,
{
    if i < monitors.len() && monitors[i].name@ != name {
        lemma_monitor(monitors, name, i + 1);
    }
}

proof fn lemma_rotation_words(word: Seq<char>)
    ensures
        match rotation_word(word) {
            Some(r) => parse_int(word) == Some(r.angle()),
            None => true,
        },
        rotation_word("0"@) == Some(Rotation::R0),
        rotation_word("90"@) == Some(Rotation::R90),
        rotation_word("180"@) == Some(Rotation::R180),
        rotation_word("270"@) == Some(Rotation::R270),
{
    reveal_strlit("0");
    reveal_strlit("90");
    reveal_strlit("180");
    reveal_strlit("270");
    reveal_with_fuel(crate::number::digits_value, 4);
    assert("0"@.drop_last() =~= Seq::empty());
    assert("90"@.drop_last().drop_last() =~= Seq::empty());
    assert("180"@.drop_last().drop_last().drop_last() =~= Seq::empty());
    assert("270"@.drop_last().drop_last().drop_last() =~= Seq::empty());
    assert("0"@.len() != "90"@.len() && "90"@.len() != "180"@.len());
    assert("180"@[0] != "270"@[0]);
}

/// Whether an output after a change differs from the one before by the options
/// that were given, and by nothing else. A mode that is open in the end is the
/// preferred one.
pub open spec fn follows_options(
    before: OutputView,
    after: OutputView,
    args: SetArgs,
    preferred: Option<Mode>,
) -> bool {
    &&& after.name == before.name
    &&& match args.mode {
        None => if before.mode is Some {
            after.mode == before.mode
        } else {
            after.mode == preferred
        },
        Some(text) => if text@ == "preferred"@ || text@ == "auto"@ {
            after.mode == preferred
        } else {
            after.mode is Some && read_mode(text@) == Ok::<Mode, NoticeView>(after.mode->0)
        },
    }
    &&& match args.pos {
        None => after.x == before.x && after.y == before.y,
        Some(text) => read_position(text@) == Ok::<(int, int), NoticeView>((after.x, after.y)),
    }
    &&& match args.scale {
        None => after.scale == before.scale,
        Some(s) => after.scale == s,
    }
    &&& match args.rotate {
        None => after.transform.rotation == before.transform.rotation,
        Some(text) => parse_int(text@) == Some(after.transform.rotation.angle()),
    }
    &&& !args.flip && !args.no_flip ==> after.transform.flipped == before.transform.flipped
    &&& args.flip && !args.no_flip ==> after.transform.flipped
    &&& args.no_flip ==> !after.transform.flipped
    &&& !args.no_mirror ==> match args.mirror {
        None => after.mirror_of == before.mirror_of,
        Some(target) => after.mirror_of == Some(target@),
    }
    &&& args.no_mirror ==> after.mirror_of is None
    &&& !args.enable && !args.disable ==> after.enabled == before.enabled
    &&& args.enable && !args.disable ==> after.enabled
    &&& args.disable ==> !after.enabled
    &&& match args.vrr {
        None => after.vrr == before.vrr,
        Some(v) => after.vrr == v,
    }
}

/// A change follows the options, on the output that is named, and leaves every
/// other output as it is.
pub proof fn options_set_their_fields_alone(
    monitors: Seq<Monitor>,
    primary: Option<Seq<char>>,
    args: SetArgs,
    k: int,
)
    requires
        layout_set(monitors, primary, args) is Ok,
        0 <= k < monitors.len(),
    ensures
        ({
            let before = live_layout(monitors).outputs[k];
            let after = layout_set(monitors, primary, args)->Ok_0.outputs[k];
            &&& layout_set(monitors, primary, args)->Ok_0.outputs.len() == monitors.len()
            &&& layout_set(monitors, primary, args)->Ok_0.primary == primary
            &&& monitors[k].name@ != args.output@ ==> after == before
            &&& monitor_named(monitors, args.output@) != Some(k) ==> after == before
            &&& monitor_named(monitors, args.output@) == Some(k) ==> follows_options(
                before,
                after,
                args,
                monitors[k].preferred(),
            )
        }),
{
    lemma_monitor(monitors, args.output@, 0);
    if let Some(text) = args.rotate {
        lemma_rotation_words(text@);
    }
}

/// A change succeeds exactly when the output is connected and what is asked of
/// its mode, its position and its rotation can be read.
pub proof fn changes_succeed_when_they_can_be_read(
    monitors: Seq<Monitor>,
    primary: Option<Seq<char>>,
    args: SetArgs,
)
    ensures
        layout_set(monitors, primary, args) is Ok <==> {
            &&& exists|k: int|
                0 <= k < monitors.len() && (#[trigger] monitors[k]).name@ == args.output@
            &&& match args.mode {
                None => true,
                Some(text) => text@ == "preferred"@ || text@ == "auto"@ || read_mode(text@) is Ok,
            }
            &&& match args.pos {
                None => true,
                Some(text) => read_position(text@) is Ok,
            }
            &&& match args.rotate {
                None => true,
                Some(text) => text@ == "0"@ || text@ == "90"@ || text@ == "180"@ || text@
                    == "270"@,
            }
        },
{
    lemma_monitor(monitors, args.output@, 0);
}

// ---------------------------------------------------------------- placement

/// A placement goes to the side that it names: to the left the subject ends where
/// the reference begins, to the right it begins where the reference ends, above
/// and below the same from top to bottom, and in the other direction the two are
/// aligned.
pub proof fn placements_go_to_their_side(
    l: LayoutView,
    subject: Seq<char>,
    relation: Relation,
    anchor: Seq<char>,
)
    requires
        l.placed(subject, relation, anchor) is Ok,
    ensures
        ({
            let a = l.outputs[named(l.outputs, anchor).unwrap()];
            let r = l.placed(subject, relation, anchor)->Ok_0;
            let s = r.outputs[named(l.outputs, subject).unwrap()];
            let old_s = l.outputs[named(l.outputs, subject).unwrap()];
            &&& a.name == anchor
            &&& s == old_s.at(s.x, s.y)
            &&& s.name == subject
            &&& relation == Relation::LeftOf ==> s.area().2 == a.x && s.y == a.y
            &&& relation == Relation::RightOf ==> s.x == a.area().2 && s.y == a.y
            &&& relation == Relation::Above ==> s.area().3 == a.y && s.x == a.x
            &&& relation == Relation::Below ==> s.y == a.area().3 && s.x == a.x
            &&& relation == Relation::SameAs ==> s.x == a.x && s.y == a.y
            &&& r.primary == l.primary
        }),
{
    crate::layout::lemma_named(l.outputs, anchor, 0);
    crate::layout::lemma_named(l.outputs, subject, 0);
    let i = named(l.outputs, subject).unwrap();
    let r = l.placed(subject, relation, anchor)->Ok_0;
    assert(r.outputs[i].size() == l.outputs[i].size());
}

/// A placement fails exactly when one of the two outputs is unknown or both are
/// the same.
pub proof fn placements_need_two_outputs(
    l: LayoutView,
    subject: Seq<char>,
    relation: Relation,
    anchor: Seq<char>,
)
    ensures
        l.placed(subject, relation, anchor) is Ok <==> {
            &&& subject != anchor
            &&& exists|i: int|
                0 <= i < l.outputs.len() && (#[trigger] l.outputs[i]).name == anchor
            &&& exists|i: int|
                0 <= i < l.outputs.len() && (#[trigger] l.outputs[i]).name == subject
        },
{
    crate::layout::lemma_named(l.outputs, anchor, 0);
    crate::layout::lemma_named(l.outputs, subject, 0);
}

/// The words for a relation: the long and the short one, and the French one.
pub open spec fn words_for(relation: Relation) -> Seq<Seq<char>> {
    match relation {
        Relation::LeftOf => seq!["left-of"@, "left"@, "gauche-de"@],
        Relation::RightOf => seq!["right-of"@, "right"@, "droite-de"@],
        Relation::Above => seq!["above"@, "up"@, "au-dessus-de"@],
        Relation::Below => seq!["below"@, "down"@, "en-dessous-de"@],
        Relation::SameAs => seq!["same-as"@, "mirror-position"@],
    }
}

/// Every relation answers to its words, and a word to nothing but its relation.
pub proof fn relations_answer_to_their_words(relation: Relation, word: Seq<char>)
    ensures
        (relation_named(word) == Some(relation)) == words_for(relation).contains(word),
{
    let ws = words_for(relation);
    lemma_relation_words();
    if ws.contains(word) {
        let i = choose|i: int| 0 <= i < ws.len() && ws[i] == word;
        assert(ws[i] == word);
    }
    if relation_named(word) == Some(relation) {
        match relation {
            Relation::SameAs => {
                assert(word == ws[0] || word == ws[1]);
            },
            _ => {
                assert(word == ws[0] || word == ws[1] || word == ws[2]);
            },
        }
    }
}

/// No two of the words are the same: they differ in length or at a place.
proof fn lemma_relation_words()
    ensures
        "left-of"@.len() == 7 && "left-of"@[0] == 'l',
        "gauche-de"@.len() == 9 && "gauche-de"@[0] == 'g',
        "left"@.len() == 4 && "left"@[0] == 'l',
        "right-of"@.len() == 8 && "right-of"@[0] == 'r',
        "droite-de"@.len() == 9 && "droite-de"@[0] == 'd',
        "right"@.len() == 5 && "right"@[0] == 'r',
        "above"@.len() == 5 && "above"@[0] == 'a',
        "au-dessus-de"@.len() == 12,
        "up"@.len() == 2,
        "below"@.len() == 5 && "below"@[0] == 'b',
        "en-dessous-de"@.len() == 13,
        "down"@.len() == 4 && "down"@[0] == 'd',
        "same-as"@.len() == 7 && "same-as"@[0] == 's',
        "mirror-position"@.len() == 15,
{
    lemma_words_across();
    lemma_words_down();
    reveal_strlit("same-as");
    reveal_strlit("mirror-position");
}

proof fn lemma_words_across()
    ensures
        "left-of"@.len() == 7 && "left-of"@[0] == 'l',
        "gauche-de"@.len() == 9 && "gauche-de"@[0] == 'g',
        "left"@.len() == 4 && "left"@[0] == 'l',
        "right-of"@.len() == 8 && "right-of"@[0] == 'r',
        "droite-de"@.len() == 9 && "droite-de"@[0] == 'd',
        "right"@.len() == 5 && "right"@[0] == 'r',
{
    reveal_strlit("left-of");
    reveal_strlit("gauche-de");
    reveal_strlit("left");
    reveal_strlit("right-of");
    reveal_strlit("droite-de");
    reveal_strlit("right");
}

proof fn lemma_words_down()
    ensures
        "above"@.len() == 5 && "above"@[0] == 'a',
        "au-dessus-de"@.len() == 12,
        "up"@.len() == 2,
        "below"@.len() == 5 && "below"@[0] == 'b',
        "en-dessous-de"@.len() == 13,
        "down"@.len() == 4 && "down"@[0] == 'd',
{
    reveal_strlit("above");
    reveal_strlit("au-dessus-de");
    reveal_strlit("up");
    reveal_strlit("below");
    reveal_strlit("en-dessous-de");
    reveal_strlit("down");
}

/// Placements follow one another: three words, output, relation and reference,
/// are one placement, and the words behind them apply to what it made. Nothing is
/// asked for by no words, and a number that is no multiple of three is refused.
pub proof fn placements_follow_in_order(
    l: LayoutView,
    subject: Seq<char>,
    relation: Relation,
    anchor: Seq<char>,
    word: Seq<char>,
    rest: Seq<Seq<char>>,
)
    requires
        relation_named(crate::layout::relation_word(word)) == Some(relation),
        l.placed(subject, relation, anchor) is Ok,
        l.placeable(subject, relation, anchor),
    ensures
        placed_by(l, seq![subject, word, anchor] + rest, 0) == placed_by(
            l.placed(subject, relation, anchor)->Ok_0,
            rest,
            0,
        ),
        placed_by(l, Seq::empty(), 0) == Ok::<LayoutView, NoticeView>(l),
        rest.len() % 3 != 0 ==> arranged_by(l, rest) is Err,
{
    let words = seq![subject, word, anchor] + rest;
    let next = l.placed(subject, relation, anchor)->Ok_0;
    assert(words[0] == subject && words[1] == word && words[2] == anchor);
    assert(words.skip(3) =~= rest);
    lemma_placed_from(next, words, 3);
}

proof fn lemma_placed_from(l: LayoutView, words: Seq<Seq<char>>, i: int)
    requires
        0 <= i <= words.len(),
    ensures
        placed_by(l, words, i) == placed_by(l, words.skip(i), 0),
    decreases words.len() - i,
{
    lemma_placed_shift(l, words, words.skip(i), i, 0);
}

proof fn lemma_placed_shift(
    l: LayoutView,
    words: Seq<Seq<char>>,
    rest: Seq<Seq<char>>,
    i: int,
    j: int,
)
    requires
        0 <= j,
        0 <= i - j <= words.len(),
        rest == words.skip(i - j),
    ensures
        placed_by(l, words, i) == placed_by(l, rest, j),
    decreases words.len() - i,
{
    if i + 3 <= words.len() {
        assert(rest[j] == words[i] && rest[j + 1] == words[i + 1] && rest[j + 2] == words[i + 2]);
        if let Some(relation) = relation_named(crate::layout::relation_word(words[i + 1])) {
            if l.placeable(words[i], relation, words[i + 2]) {
                if let Ok(next) = l.placed(words[i], relation, words[i + 2]) {
                    lemma_placed_shift(next, words, rest, i + 3, j + 3);
                }
            }
        }
    }
}

// ---------------------------------------------------------------- profiles

/// Every output of a profile's layout is anchored as the profile placed it, but
/// for one shift for all that take up space; the main screen, where it takes up
/// space, stands at the origin.
pub proof fn profiles_are_applied_around_the_main_screen(
    cfg: ConfigView,
    name: Seq<char>,
    monitors: Seq<Monitor>,
)
    requires
        named_layout(cfg, name, monitors) is Ok,
    ensures
        ({
            let l = named_layout(cfg, name, monitors)->Ok_0;
            &&& l.primary == cfg.primary_among(monitors)
            &&& l.primary_at() is Some ==> {
                let o = l.outputs[l.primary_at().unwrap()];
                o.x == 0 && o.y == 0
            }
            &&& exists|p: int|
                #![trigger cfg.profiles[p]]
                0 <= p < cfg.profiles.len() && cfg.profiles[p].name == name && is_shifted(
                    cfg.profiles[p].layout(monitors)->Ok_0,
                    l,
                )
        }),
{
    lemma_profile(cfg.profiles, name, 0);
    let p = profile_named(cfg.profiles, name).unwrap();
    let at = stamped(cfg.profiles[p].layout(monitors)->Ok_0, cfg.primary_among(monitors));
    normalizing_anchors_the_layout(at);
    let (ax, ay) = at.anchor();
    assert(is_shifted_by(
        cfg.profiles[p].layout(monitors)->Ok_0,
        at.normalized(),
        -ax,
        -ay,
    ));
}

/// Whether a layout has the outputs of another one, those that take up space all
/// moved by the same amount.
pub open spec fn is_shifted(a: LayoutView, b: LayoutView) -> bool {
    &&& a.outputs.len() == b.outputs.len()
    &&& exists|dx: int, dy: int| #[trigger] is_shifted_by(a, b, dx, dy)
}

pub open spec fn is_shifted_by(a: LayoutView, b: LayoutView, dx: int, dy: int) -> bool {
    forall|i: int|
        0 <= i < a.outputs.len() ==> #[trigger] b.outputs[i] == if a.outputs[i].occupies() {
            a.outputs[i].at(a.outputs[i].x + dx, a.outputs[i].y + dy)
        } else {
            a.outputs[i]
        }
}

/// Normalizing moves everything that takes up space by the same amount, and
/// changes nothing else.
pub proof fn normalizing_shifts(l: LayoutView)
    ensures
        is_shifted(l, l.normalized()),
        l.normalized().primary == l.primary,
{
    let (ax, ay) = l.anchor();
    assert(is_shifted_by(l, l.normalized(), -ax, -ay));
}

proof fn lemma_profile(profiles: Seq<ProfileView>, name: Seq<char>, i: int)
    requires
        0 <= i,
    ensures
        match crate::config::profile_from(profiles, name, i) {
            Some(k) => i <= k < profiles.len() && profiles[k].name == name,
            None => forall|j: int| i <= j < profiles.len() ==> (#[trigger] profiles[j]).name != name,
        },
    decreases profiles.len() - i,
{
    if i < profiles.len() && profiles[i].name != name {
        lemma_profile(profiles, name, i + 1);
    }
}

/// Without a name, the profile that matches best is applied under its name; where
/// none matches, what takes up space stands in a row on the top edge, the main
/// screen first.
pub proof fn hardware_gets_its_profile_or_a_row(cfg: ConfigView, monitors: Seq<Monitor>, i: int)
    requires
        hardware_layout(cfg, monitors) is Ok,
        0 <= i < monitors.len(),
    ensures
        ({
            let (l, name) = hardware_layout(cfg, monitors)->Ok_0;
            let live = live_layout(monitors).outputs[i];
            &&& l.primary == cfg.primary_among(monitors)
            &&& (name is Some) == (best_of(cfg.profiles, monitors, cfg.profiles.len() as int)
                is Some)
            &&& name is None && crate::layout::sized(live_layout(monitors)) && live.occupies() ==> {
                let o = l.outputs[i];
                &&& o == live.at(o.x, o.y)
                &&& o.y == 0
                &&& l.primary_at() == Some(i) ==> o.x == 0
            }
            &&& name is None && !live.occupies() ==> l.outputs[i] == live
        }),
{
    let primary = cfg.primary_among(monitors);
    let live = stamped(live_layout(monitors), primary);
    live_outputs_show_their_monitors(monitors, i);
    if best_of(cfg.profiles, monitors, cfg.profiles.len() as int) is None {
        let row = live.arranged();
        normalizing_anchors_the_layout(row);
        if crate::layout::sized(live_layout(monitors)) && live.outputs[i].occupies() {
            assert forall|k: int|
                0 <= k < live.outputs.len() && (#[trigger] live.outputs[k]).occupies() implies live.outputs[k].size().0
                >= 0 && live.outputs[k].size().1 >= 0 by {
                assert(live_layout(monitors).outputs[k].occupies());
            }
            crate::layout::arranging_leaves_no_overlap(live);
            crate::layout::lemma_row_anchor(live);
            assert(row.outputs[i].y == 0);
        }
    } else {
        let b = best_of(cfg.profiles, monitors, cfg.profiles.len() as int)->0;
        normalizing_anchors_the_layout(stamped(cfg.profiles[b].layout(monitors)->Ok_0, primary));
    }
}

/// The rules of a saved layout describe its outputs one by one: each names the
/// monitor by its fingerprint, or the connector where there is no monitor, and
/// has the output's own state, scale, orientation, mirroring, variable refresh,
/// place and mode.
pub proof fn saved_rules_describe_their_outputs(
    outputs: Seq<OutputView>,
    monitors: Seq<Monitor>,
    k: int,
)
    requires
        0 <= k < outputs.len(),
        fits_i32(outputs[k].x),
        fits_i32(outputs[k].y),
    ensures
        rules_of(outputs, monitors).len() == outputs.len(),
        ({
            let o = outputs[k];
            let r = rules_of(outputs, monitors)[k];
            &&& r.enabled == o.enabled
            &&& r.scale == o.scale
            &&& r.rotation == o.transform.rotation.angle()
            &&& r.flipped == o.transform.flipped
            &&& r.mirror_of == o.mirror_of
            &&& r.vrr == o.vrr
            &&& r.position is Some && read_position(r.position->0) == Ok::<(int, int), NoticeView>(
                (o.x, o.y),
            )
            &&& (r.mode is Some) == (o.mode is Some)
            &&& o.mode is Some ==> read_mode(r.mode->0) == Ok::<Mode, NoticeView>(
                kept_mode(o.mode->0),
            )
            &&& (forall|j: int|
                0 <= j < monitors.len() ==> (#[trigger] monitors[j]).name@ != o.name) ==> r.pattern
                == o.name
            &&& (exists|j: int|
                0 <= j < monitors.len() && (#[trigger] monitors[j]).name@ == o.name) ==> exists|j:
                int|
                0 <= j < monitors.len() && (#[trigger] monitors[j]).name@ == o.name && r.pattern
                    == monitors[j].print()
        }),
{
    let o = outputs[k];
    lemma_monitor(monitors, o.name, 0);
    if let Some(m) = o.mode {
        modes_read_back(m);
    }
    lemma_place_text(o.x, o.y);
}

proof fn lemma_place_text(x: int, y: int)
    requires
        fits_i32(x),
        fits_i32(y),
    ensures
        read_position(crate::number::int_text(x) + "x"@ + crate::number::int_text(y)) == Ok::<
            (int, int),
            NoticeView,
        >((x, y)),
{
    let none = Seq::<char>::empty();
    positions_read_back(x, y, 'x', none, none, none, none);
    assert("x"@ =~= seq!['x']) by {
        reveal_strlit("x");
    }
    assert(crate::number::int_text(x) + "x"@ + crate::number::int_text(y) =~= none + (
    crate::number::int_text(x) + none + seq!['x'] + none + crate::number::int_text(y)) + none);
}

/// A renamed profile is found under its new name, as it was, and no longer under
/// its old one.
pub proof fn renamed_profiles_keep_their_rules(
    profiles: Seq<ProfileView>,
    from: Seq<char>,
    to: Seq<char>,
)
    requires
        profile_named(profiles, from) is Some,
    ensures
        ({
            let after = renamed(profiles, from, to);
            let p = profiles[profile_named(profiles, from).unwrap()];
            &&& profile_named(after, to) is Some
            &&& after[profile_named(after, to).unwrap()].name == to
            &&& after[profile_named(after, to).unwrap()].exact == p.exact
            &&& after[profile_named(after, to).unwrap()].outputs == p.outputs
            &&& p.name == from
            &&& from != to ==> profile_named(after, from) is None
        }),
{
    lemma_profile(profiles, from, 0);
    let p = profiles[profile_named(profiles, from).unwrap()];
    let rest = without_profile(profiles, from);
    let q = ProfileView { name: to, ..p };
    lemma_without(profiles, from);
    lemma_profile(rest, to, 0);
    let after = upserted(rest, q);
    lemma_profile(after, to, 0);
    lemma_profile(after, from, 0);
    match profile_named(rest, to) {
        Some(i) => {
            assert(after[i].name == to);
            let j = profile_named(after, to).unwrap();
            lemma_first_profile(rest, after, to, 0);
        },
        None => {
            assert(after[rest.len() as int].name == to);
            let j = profile_named(after, to).unwrap();
            if j < rest.len() {
                assert(rest[j].name == to);
            }
        },
    }
    if from != to && profile_named(after, from) is Some {
        let j = profile_named(after, from).unwrap();
        assert(after[j].name == from);
        if j < rest.len() && after[j] == rest[j] {
            assert(rest[j].name == from);
        }
    }
}

/// Replacing an entry by one of the same name moves no first place.
proof fn lemma_first_profile(a: Seq<ProfileView>, b: Seq<ProfileView>, name: Seq<char>, i: int)
    requires
        0 <= i,
        a.len() == b.len(),
        forall|k: int| 0 <= k < a.len() ==> (#[trigger] a[k]).name == b[k].name,
    ensures
        crate::config::profile_from(a, name, i) == crate::config::profile_from(b, name, i),
    decreases a.len() - i,
{
    if i < a.len() {
        assert(a[i].name == b[i].name);
        lemma_first_profile(a, b, name, i + 1);
    }
}

proof fn lemma_without(profiles: Seq<ProfileView>, name: Seq<char>)
    ensures
        forall|k: int|
            0 <= k < without_profile(profiles, name).len() ==> (#[trigger] without_profile(
                profiles,
                name,
            )[k]).name != name,
    decreases profiles.len(),
{
    if profiles.len() > 0 {
        let before = without_profile(profiles.drop_last(), name);
        lemma_without(profiles.drop_last(), name);
        let all = without_profile(profiles, name);
        assert forall|k: int| 0 <= k < all.len() implies (#[trigger] all[k]).name != name by {
            if k < before.len() {
                assert(all[k] == before[k]);
            }
        }
    }
}

// ---------------------------------------------------------------- listings

/// A line of the listing shows its monitor: the name, whether it is the main
/// screen, what it is doing, and, unless it is off, its mode and its place; the
/// scale and the fingerprint in any case.
pub proof fn listed_outputs_are_the_monitors(
    m: Monitor,
    monitors: Seq<Monitor>,
    primary: Option<Seq<char>>,
    locale: Locale,
)
    ensures
        ({
            let row = row_of(m, monitors, primary, locale);
            &&& row.name == m.name@
            &&& row.primary == (primary == Some(m.name@))
            &&& (row.status is Disabled) == m.disabled
            &&& !m.disabled && m.mirrored(monitors) is Some ==> row.status == StatusView::Mirror(
                m.mirrored(monitors)->0,
            )
            &&& !m.disabled && m.mirrored(monitors) is None ==> (row.status is Focused) == m.focused
                && (row.status is Active) == !m.focused
            &&& (row.mode is Some) == !m.disabled
            &&& (row.position is Some) == !m.disabled
            &&& !m.disabled ==> read_position(row.position->0) == Ok::<(int, int), NoticeView>(
                (m.x as int, m.y as int),
            )
            &&& !m.disabled ==> read_mode(row.mode->0) == Ok::<Mode, NoticeView>(
                kept_mode(
                    Mode { width: m.width, height: m.height, refresh: m.refresh_rate },
                ),
            )
            &&& m.scale.nanos >= 0 ==> parse_nanos(row.scale) is Some && -500 <= parse_nanos(
                row.scale,
            ).unwrap() - m.scale.nanos <= 500
            &&& row.identifier == m.print()
        }),
{
    modes_read_back(Mode { width: m.width, height: m.height, refresh: m.refresh_rate });
    lemma_place_text(m.x as int, m.y as int);
    if m.scale.nanos >= 0 {
        scales_read_back(m.scale);
    }
}

/// Of what is told of an application every drift is part, and of the issues
/// exactly the warnings.
pub proof fn everything_observed_is_told(report: ReportView, issue: IssueView, k: int)
    ensures
        0 <= k < report.drifts.len() ==> told(report).contains(
            (report.drifts[k].severity, report.drifts[k].message),
        ),
        report.issues.contains(issue) && issue.severity == Severity::Warning ==> told(
            report,
        ).contains((Severity::Warning, issue.message)),
        told(report).len() >= report.drifts.len(),
        forall|i: int|
            0 <= i < told(report).len() - report.drifts.len() ==> (#[trigger] told(report)[i]).0
                == Severity::Warning,
{
    let w = warnings(report.issues);
    let d = report.drifts.map_values(|d: DriftView| (d.severity, d.message));
    lemma_warnings(report.issues, issue);
    if 0 <= k < report.drifts.len() {
        assert(told(report)[w.len() + k] == d[k]);
    }
    if report.issues.contains(issue) && issue.severity == Severity::Warning {
        let i = choose|i: int| 0 <= i < w.len() && w[i] == (Severity::Warning, issue.message);
        assert(told(report)[i] == w[i]);
    }
}

proof fn lemma_warnings(issues: Seq<IssueView>, issue: IssueView)
    ensures
        issues.contains(issue) && issue.severity == Severity::Warning ==> warnings(
            issues,
        ).contains((Severity::Warning, issue.message)),
        forall|i: int|
            0 <= i < warnings(issues).len() ==> (#[trigger] warnings(issues)[i]).0
                == Severity::Warning,
    decreases issues.len(),
{
    if issues.len() > 0 {
        let body = issues.drop_last();
        let w = warnings(body);
        lemma_warnings(body, issue);
        if issues.contains(issue) && issue.severity == Severity::Warning {
            let i = choose|i: int| 0 <= i < issues.len() && issues[i] == issue;
            if i < body.len() {
                assert(body[i] == issue);
                let k = choose|k: int| 0 <= k < w.len() && w[k] == (
                    Severity::Warning,
                    issue.message,
                );
                assert(warnings(issues)[k] == w[k]);
            } else {
                assert(warnings(issues)[w.len() as int] == (Severity::Warning, issue.message));
            }
        }
    }
}

/// A mode is marked as the one in use exactly when it has the current size and is
/// less than half a hertz away from the current rate.
pub proof fn modes_in_use_are_the_current_one(m: Monitor, mode: Mode)
    ensures
        is_in_use(mode, m.current_mode()) == {
            &&& mode.width == m.width
            &&& mode.height == m.height
            &&& -500_000_000 < mode.refresh.nanos - m.refresh_rate.nanos < 500_000_000
        },
{
}

/// A line of the profiles' listing shows its profile: active where it would be
/// applied, and otherwise whether it matches.
pub proof fn listed_profiles_are_the_saved_ones(
    row: ProfileRow,
    p: ProfileView,
    cfg: ConfigView,
    monitors: Seq<Monitor>,
)
    requires
        is_profile_row(row, p, cfg, monitors),
    ensures
        row.name@ == p.name,
        row.exact == p.exact,
        ({
            let b = best_of(cfg.profiles, monitors, cfg.profiles.len() as int);
            let active = b is Some && cfg.profiles[b->0].name == p.name;
            &&& (row.standing == Standing::Active) == active
            &&& !active ==> (row.standing == Standing::Matches) == p.fits(monitors)
        }),
        p.outputs.len() == 1 ==> row.outputs@ == p.outputs[0].pattern,
{
    if p.outputs.len() == 1 {
        reveal_with_fuel(crate::text::join, 2);
        assert(crate::cli::patterns(p)[0] == p.outputs[0].pattern);
    }
}

/// A line of the plugins' listing shows its plugin.
pub proof fn listed_plugins_are_what_they_say(
    row: PluginRow,
    p: Plugin,
    active: Plugin,
    env: Environment,
)
    requires
        is_plugin_row(row, p, active, env),
    ensures
        row.label@ == p.labelled(),
        row.active == (p == active),
        row.detected == p.runs(env),
        row.live,
{
    reveal_strlit("hyprland");
    reveal_strlit("sway");
    assert("hyprland"@.len() != "sway"@.len());
}

/// A line of the history's listing has its place, the profile and the summary of
/// its entry, and an age that is never negative.
pub proof fn listed_layouts_are_the_recorded_ones(
    row: HistoryRow,
    index: int,
    s: SnapshotView,
    now: u64,
    locale: Locale,
)
    requires
        is_history_row(row, index, s, now, locale),
    ensures
        row.index == index,
        view_opt(row.profile) == s.profile,
        row.summary@ == crate::history::layout_summary(s.layout, locale),
        now < s.at ==> row.when@ == crate::history::age_notice(0).said(locale),
        now >= s.at ==> row.when@ == crate::history::age_notice(now - s.at).said(locale),
{
}

} // verus!
