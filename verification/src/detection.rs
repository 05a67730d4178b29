//! What is detected is what is there: a monitor is what the compositor reported,
//! and the live layout shows every monitor as it is.

use vstd::prelude::*;

use crate::compositor::sway::ipc::{maps_onto, transform_named, SwayMode, SwayOutput};
use crate::compositor::sway::{keyword, Sway};
use crate::compositor::Compositor;
use crate::decimals::{decimals_read_back, integers_read_back, lemma_nanos_in_range};
use crate::fixed::{Fixed, UNIT};
use crate::layout::{live_layout, output_of, OutputView};
use crate::monitor::{
    decoded, named_by_id, ranked, ranking_orders_the_modes, read_mode, read_modes,
    transform_codes_round_trip, Mode, Monitor, Rotation, Transform,
};
use crate::notice::NoticeView;
use crate::number::{parse_int, pow10, ratio_text};
use crate::rendering::{
    asking, output_lines_read_back, read_line, says_mode, says_output, OutputLine,
};
use crate::saved::rated_modes_read_back;
use crate::text::{trim, view_opt, views};

verus! {

// ---------------------------------------------------------------- live layout

/// The live layout has one output for each monitor, in their order, and no main
/// screen. Every field of an output is its monitor's own: a size that is not
/// positive leaves the mode open, a scale that is not positive counts as one, and
/// an unknown transform as upright.
pub proof fn live_outputs_show_their_monitors(all: Seq<Monitor>, i: int)
    requires
        0 <= i < all.len(),
    ensures
        live_layout(all).outputs.len() == all.len(),
        live_layout(all).primary is None,
        live_layout(all).outputs[i] == output_of(all[i], all),
        ({
            let m = all[i];
            let o = live_layout(all).outputs[i];
            &&& o.name == m.name@
            &&& o.enabled == !m.disabled
            &&& o.x == m.x
            &&& o.y == m.y
            &&& o.vrr == m.vrr
            &&& m.scale.nanos > 0 ==> o.scale == m.scale
            &&& m.scale.nanos <= 0 ==> o.scale.nanos == 1_000_000_000
            &&& m.width > 0 && m.height > 0 ==> o.mode is Some && o.mode->0.width == m.width
                && o.mode->0.height == m.height && o.mode->0.refresh == m.refresh_rate
            &&& m.width <= 0 || m.height <= 0 ==> o.mode is None
            &&& m.transform <= 7 ==> o.transform.code() == m.transform
            &&& m.transform > 7 ==> o.transform.rotation == Rotation::R0 && !o.transform.flipped
        }),
{
    transform_codes_round_trip(decoded(all[i].transform), all[i].transform, Transform::upright());
}

/// A transform's code counts quarter turns, and four more for a flip; only a
/// quarter turn to either side swaps width and height.
pub proof fn codes_count_quarter_turns(t: Transform)
    ensures
        t.rotation == Rotation::R0 ==> t.code() % 4 == 0 && !t.rotation.swaps(),
        t.rotation == Rotation::R90 ==> t.code() % 4 == 1 && t.rotation.swaps(),
        t.rotation == Rotation::R180 ==> t.code() % 4 == 2 && !t.rotation.swaps(),
        t.rotation == Rotation::R270 ==> t.code() % 4 == 3 && t.rotation.swaps(),
        t.flipped == (t.code() >= 4),
        0 <= t.code() <= 7,
        t.rotation.angle() == 90 * (t.code() % 4),
{
}

proof fn lemma_by_id(all: Seq<Monitor>, id: int)
    ensures
        match named_by_id(all, id) {
            Some(name) => exists|k: int|
                0 <= k < all.len() && (#[trigger] all[k]).id == id && all[k].name@ == name
                    && forall|j: int| 0 <= j < k ==> (#[trigger] all[j]).id != id,
            None => forall|k: int| 0 <= k < all.len() ==> (#[trigger] all[k]).id != id,
        },
    decreases all.len(),
{
    if all.len() > 0 && all[0].id != id {
        let rest = all.skip(1);
        lemma_by_id(rest, id);
        match named_by_id(all, id) {
            Some(name) => {
                let k = choose|k: int|
                    0 <= k < rest.len() && (#[trigger] rest[k]).id == id && rest[k].name@ == name
                        && forall|j: int| 0 <= j < k ==> (#[trigger] rest[j]).id != id;
                assert(all[k + 1].id == id);
                assert forall|j: int| 0 <= j < k + 1 implies (#[trigger] all[j]).id != id by {
                    if j > 0 {
                        assert(rest[j - 1].id != id);
                    }
                }
            },
            None => {
                assert forall|k: int| 0 <= k < all.len() implies (#[trigger] all[k]).id != id by {
                    if k > 0 {
                        assert(rest[k - 1].id != id);
                    }
                }
            },
        }
    }
}

/// A monitor that says it mirrors nothing mirrors nothing. One that gives the id
/// of a monitor mirrors the first with that id, by name. Any other text is the
/// name of what is mirrored.
pub proof fn mirrors_are_found_by_id_or_name(m: Monitor, all: Seq<Monitor>)
    ensures
        ({
            let raw = trim(m.mirror_of@);
            let id = parse_int(raw);
            let known = exists|k: int|
                0 <= k < all.len() && id == Some((#[trigger] all[k]).id as int);
            &&& raw.len() == 0 || raw == "none"@ ==> m.mirrored(all) is None
            &&& raw.len() > 0 && raw != "none"@ ==> {
                &&& m.mirrored(all) is Some
                &&& !known ==> m.mirrored(all) == Some(raw)
                &&& known ==> exists|k: int|
                    0 <= k < all.len() && id == Some((#[trigger] all[k]).id as int)
                        && m.mirrored(all) == Some(all[k].name@) && forall|j: int|
                        0 <= j < k ==> id != Some((#[trigger] all[j]).id as int)
            }
            &&& output_of(m, all).mirror_of == m.mirrored(all)
        }),
{
    let raw = trim(m.mirror_of@);
    if let Some(id) = parse_int(raw) {
        lemma_by_id(all, id);
    }
}

// ---------------------------------------------------------------- modes

proof fn lemma_read_modes(texts: Seq<Seq<char>>, m: Mode)
    ensures
        read_modes(texts).contains(m) == exists|i: int|
            0 <= i < texts.len() && read_mode(#[trigger] texts[i]) == Ok::<Mode, NoticeView>(m),
        read_modes(texts).no_duplicates(),
    decreases texts.len(),
{
    if texts.len() > 0 {
        let body = texts.drop_last();
        let before = read_modes(body);
        let last = texts.len() - 1;
        lemma_read_modes(body, m);
        assert(texts[last] == texts.last());
        if before.contains(m) {
            let i = choose|i: int|
                0 <= i < body.len() && read_mode(#[trigger] body[i]) == Ok::<Mode, NoticeView>(m);
            assert(texts[i] == body[i]);
            let k = choose|k: int| 0 <= k < before.len() && before[k] == m;
            assert(read_modes(texts)[k] == m);
        }
        if let Ok(n) = read_mode(texts.last()) {
            if !before.contains(n) {
                let all = before.push(n);
                assert(all[before.len() as int] == n);
                if all.contains(m) && m != n {
                    let k = choose|k: int| 0 <= k < all.len() && all[k] == m;
                    assert(before[k] == m);
                }
            }
        }
        if exists|i: int|
            0 <= i < texts.len() && read_mode(#[trigger] texts[i]) == Ok::<Mode, NoticeView>(m) {
            let i = choose|i: int|
                0 <= i < texts.len() && read_mode(#[trigger] texts[i]) == Ok::<Mode, NoticeView>(m);
            if i < last {
                assert(body[i] == texts[i]);
            }
        }
    }
}

/// The modes that a monitor offers are what its texts say, each once; the
/// preferred one is one of them, and none has a larger area, nor the same area
/// and a higher rate.
pub proof fn offered_modes_are_what_is_listed(m: Monitor, mode: Mode)
    ensures
        m.modes().contains(mode) == exists|i: int|
            0 <= i < views(m.available_modes@).len() && read_mode(
                #[trigger] views(m.available_modes@)[i],
            ) == Ok::<Mode, NoticeView>(mode),
        m.preferred() is None ==> !m.modes().contains(mode),
        m.preferred() is Some ==> m.modes().contains(m.preferred()->0),
        m.modes().contains(mode) ==> {
            let best = m.preferred()->0;
            &&& m.preferred() is Some
            &&& mode.width * mode.height <= best.width * best.height
            &&& mode.width * mode.height == best.width * best.height ==> mode.refresh.nanos
                <= best.refresh.nanos
        },
{
    let read = read_modes(views(m.available_modes@));
    lemma_read_modes(views(m.available_modes@), mode);
    ranking_orders_the_modes(read);
    let all = ranked(read);
    broadcast use vstd::seq_lib::group_to_multiset_ensures;

    assert(all.contains(mode) == read.contains(mode)) by {
        assert(all.contains(mode) == (all.to_multiset().count(mode) > 0));
        assert(read.contains(mode) == (read.to_multiset().count(mode) > 0));
    }
    if all.len() > 0 {
        assert(all.contains(all[0]));
        if all.contains(mode) {
            assert(!mode.beats(all[0]));
        }
    }
}

// ---------------------------------------------------------------- sway

/// The mode in use is the current one, else the first that is offered.
pub open spec fn is_in_use(o: SwayOutput, s: SwayMode) -> bool {
    match o.current_mode {
        Some(c) => s == c,
        None => o.modes@.len() > 0 && s == o.modes@[0],
    }
}

/// A monitor has everything that its output was reported with: the names, the
/// place, the mode in use with its rate in billionths, the scale, whether it is
/// on, focused and has variable refresh.
pub proof fn reported_outputs_are_taken_over(o: SwayOutput, index: int, m: Monitor, s: SwayMode)
    requires
        maps_onto(o, index, m),
    ensures
        m.id == index,
        m.name@ == o.name@,
        m.make@ == o.make@,
        m.model@ == o.model@,
        m.serial@ == o.serial@,
        m.x == o.x,
        m.y == o.y,
        m.focused == o.focused,
        m.disabled == !o.active,
        m.vrr == (view_opt(o.adaptive_sync_status) == Some("enabled"@)),
        o.scale.nanos > 0 ==> m.scale == o.scale,
        o.scale.nanos <= 0 ==> m.scale.nanos == 1_000_000_000,
        is_in_use(o, s) ==> m.width == s.width && m.height == s.height && m.refresh_rate.nanos
            == s.refresh * 1_000_000,
        o.current_mode is None && o.modes@.len() == 0 ==> m.width == 0 && m.height == 0
            && m.refresh_rate.nanos == 0,
        decoded(m.transform) == transform_named(view_opt(o.transform)),
        m.mirrored(seq![m]) is None,
        m.available_modes@.len() == o.modes@.len(),
{
    let t = transform_named(view_opt(o.transform));
    transform_codes_round_trip(t, m.transform, t);
    assert(views(m.available_modes@).len() == o.modes@.len());
    reveal_strlit("none");
    assert(trim("none"@) == "none"@);
}

/// The modes that a monitor lists are those that were reported, in their order,
/// with their rates to the thousandth of a hertz.
pub proof fn reported_modes_are_listed(o: SwayOutput, index: int, m: Monitor, k: int)
    requires
        maps_onto(o, index, m),
        0 <= k < o.modes@.len(),
        o.modes@[k].refresh >= 0,
    ensures
        says_mode(
            views(m.available_modes@)[k],
            Some(
                Mode {
                    width: o.modes@[k].width,
                    height: o.modes@[k].height,
                    refresh: Fixed { nanos: (o.modes@[k].refresh * 1_000_000) as i64 },
                },
            ),
            1_000_000,
        ),
{
    let s = o.modes@[k];
    let n = s.rate().nanos as int;
    assert(views(m.available_modes@)[k] == s.shown());
    assert(n == s.refresh * 1_000_000);
    decimals_read_back(n, 3);
    assert(pow10(6) == 1_000_000) by {
        reveal_with_fuel(pow10, 7);
    }
    rated_modes_read_back(s.width, s.height, ratio_text(n, UNIT as int, 3));
    lemma_nanos_in_range(ratio_text(n, UNIT as int, 3));
}

/// Whether a line says what was reported of an output in a mode.
pub open spec fn says_reported(line: OutputLine, o: SwayOutput, s: SwayMode) -> bool {
    &&& line.x is Some && parse_int(line.x->0.value) == Some(o.x as int)
    &&& line.y is Some && parse_int(line.y->0.value) == Some(o.y as int)
    &&& line.transform is Some && transform_named(Some(line.transform->0.value))
        == transform_named(view_opt(o.transform))
    &&& line.mode is Some && says_mode(
        line.mode->0.value,
        Some(
            Mode {
                width: s.width,
                height: s.height,
                refresh: Fixed { nanos: (s.refresh * 1_000_000) as i64 },
            },
        ),
        1_000_000,
    )
    &&& line.sync is Some && (line.sync->0.value == seq!['o', 'n']) == (view_opt(
        o.adaptive_sync_status,
    ) == Some("enabled"@))
}

proof fn lemma_says_reported(
    line: OutputLine,
    out: OutputView,
    o: SwayOutput,
    s: SwayMode,
)
    requires
        says_output(line, out),
        out.x == o.x,
        out.y == o.y,
        out.transform == transform_named(view_opt(o.transform)),
        out.mode == Some(
            Mode {
                width: s.width,
                height: s.height,
                refresh: Fixed { nanos: (s.refresh * 1_000_000) as i64 },
            },
        ),
        out.vrr == (view_opt(o.adaptive_sync_status) == Some("enabled"@)),
    ensures
        says_reported(line, o, s),
{
    assert(seq!['o', 'f', 'f'].len() != seq!['o', 'n'].len());
}

/// Detection and rendering agree: the live layout read from a reported output,
/// rendered as a directive, has the output where it was reported, in the mode and
/// the orientation that were reported, and with its variable refresh.
pub proof fn reported_outputs_render_where_they_are(
    o: SwayOutput,
    index: int,
    m: Monitor,
    all: Seq<Monitor>,
    s: SwayMode,
)
    requires
        maps_onto(o, index, m),
        o.active,
        is_in_use(o, s),
        s.width > 0,
        s.height > 0,
        s.refresh >= 0,
    ensures
        ({
            let out = output_of(m, all);
            says_reported(read_line(Sway.directive(out), asking(out)), o, s)
        }),
{
    let out = output_of(m, all);
    reported_outputs_are_taken_over(o, index, m, s);
    output_lines_read_back(out);
    lemma_says_reported(read_line(Sway.directive(out), asking(out)), out, o, s);
}

/// A keyword ends in the degrees of the rotation, where there is one, and starts
/// with `flipped` exactly where the image is flipped.
pub proof fn keywords_name_the_degrees(t: Transform)
    ensures
        t.rotation != Rotation::R0 && !t.flipped ==> parse_int(keyword(t)) == Some(
            t.rotation.angle(),
        ),
        t.rotation != Rotation::R0 && t.flipped ==> parse_int(keyword(t).skip(8)) == Some(
            t.rotation.angle(),
        ),
        t.flipped == (keyword(t).len() >= 7 && keyword(t).take(7) == "flipped"@),
        t.rotation == Rotation::R0 && t.flipped ==> keyword(t) == "flipped"@,
        t.rotation == Rotation::R0 && !t.flipped ==> keyword(t) == "normal"@,
{
    integers_read_back(90);
    integers_read_back(180);
    integers_read_back(270);
    reveal_strlit("flipped");
    lemma_degrees();
    match (t.flipped, t.rotation) {
        (false, Rotation::R0) => {
            reveal_strlit("normal");
        },
        (false, Rotation::R90) => {
            reveal_strlit("90");
        },
        (false, Rotation::R180) => {
            reveal_strlit("180");
        },
        (false, Rotation::R270) => {
            reveal_strlit("270");
        },
        (true, Rotation::R0) => {
            assert("flipped"@.take(7) =~= "flipped"@);
        },
        (true, Rotation::R90) => {
            reveal_strlit("flipped-90");
            reveal_strlit("90");
            assert("flipped-90"@.skip(8) =~= "90"@);
            assert("flipped-90"@.take(7) =~= "flipped"@);
        },
        (true, Rotation::R180) => {
            reveal_strlit("flipped-180");
            reveal_strlit("180");
            assert("flipped-180"@.skip(8) =~= "180"@);
            assert("flipped-180"@.take(7) =~= "flipped"@);
        },
        (true, Rotation::R270) => {
            reveal_strlit("flipped-270");
            reveal_strlit("270");
            assert("flipped-270"@.skip(8) =~= "270"@);
            assert("flipped-270"@.take(7) =~= "flipped"@);
        },
    }
}

proof fn lemma_degrees()
    ensures
        parse_int("90"@) == Some(90int),
        parse_int("180"@) == Some(180int),
        parse_int("270"@) == Some(270int),
{
    reveal_strlit("90");
    reveal_strlit("180");
    reveal_strlit("270");
    reveal_with_fuel(crate::number::digits_value, 4);
    assert("90"@.drop_last().drop_last() =~= Seq::empty());
    assert("180"@.drop_last().drop_last().drop_last() =~= Seq::empty());
    assert("270"@.drop_last().drop_last().drop_last() =~= Seq::empty());
}

} // verus!
