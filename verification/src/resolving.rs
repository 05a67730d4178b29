//! What a profile's rules make of the connected monitors, and what is sent and
//! told of a layout that is applied.

use vstd::prelude::*;

use crate::apply::{
    all_drifts, begun, blocking, directives, mirror_drift, mode_drift, position_drift, scale_drift,
    transform_drift, ActionView, ApplicationView, Event, Field, Phase,
};
use crate::compositor::Compositor;
use crate::config::{
    assignments_are_one_to_one, edge_or_zero, lemma_row_shape, lined_up, open_mode, open_position,
    prepared, read_position, right_edge, ruled, uncovered, ProfileView, RuleView,
};
use crate::decimals::{decimals_read_back, scales_read_back};
use crate::layout::{fits_i32, named, output_of, IssueView, LayoutView, OutputView, Severity};
use crate::monitor::{decoded, read_mode, Mode, Monitor};
use crate::notice::{ArgView, NoticeId, NoticeView};
use crate::number::{parse_nanos, pow10};
use crate::saved::positions_read_back;

verus! {

// ---------------------------------------------------------------- rules

/// A rule gives a connector its own state: what it says of being on, of the
/// scale, the orientation, mirroring and variable refresh; the mode it names, or
/// none; and the position it names.
pub proof fn rules_give_what_they_say(r: RuleView, connector: Seq<char>)
    requires
        r.state(connector) is Ok,
    ensures
        ({
            let o = r.state(connector)->Ok_0;
            &&& o.name == connector
            &&& o.enabled == r.enabled
            &&& o.scale == r.scale
            &&& o.transform.rotation.angle() == r.rotation % 360
            &&& o.transform.flipped == r.flipped
            &&& o.mirror_of == r.mirror_of
            &&& o.vrr == r.vrr
            &&& open_mode(r.mode) ==> o.mode is None
            &&& !open_mode(r.mode) ==> o.mode is Some && read_mode(r.mode->0) == Ok::<
                Mode,
                NoticeView,
            >(o.mode->0)
            &&& !open_position(r.position) ==> read_position(r.position->0) == Ok::<
                (int, int),
                NoticeView,
            >((o.x, o.y))
        }),
{
}

/// A rule leaves open what it does not name.
pub proof fn rules_leave_open_what_they_do_not_name(r: RuleView)
    ensures
        r.mode is None ==> open_mode(r.mode),
        r.position is None ==> open_position(r.position),
        open_position(r.position) && r.position is Some ==> r.position->0.len() == 0
            || r.position->0 == "auto"@,
        open_mode(r.mode) && r.mode is Some ==> r.mode->0.len() == 0 || r.mode->0 == "auto"@
            || r.mode->0 == "preferred"@,
        r.mode == Some("auto"@) ==> open_mode(r.mode),
        r.mode == Some("preferred"@) ==> open_mode(r.mode),
        r.position == Some("auto"@) ==> open_position(r.position),
{
}

/// Whether an output is what a rule wants of a monitor, wherever it is placed.
pub open spec fn follows_rule(o: OutputView, r: RuleView, m: Monitor) -> bool {
    &&& o.name == m.name@
    &&& o.enabled == r.enabled
    &&& o.scale == r.scale
    &&& o.transform.rotation.angle() == r.rotation % 360
    &&& o.transform.flipped == r.flipped
    &&& o.mirror_of == r.mirror_of
    &&& o.vrr == r.vrr
    &&& open_mode(r.mode) ==> o.mode == m.preferred()
    &&& !open_mode(r.mode) ==> o.mode is Some && read_mode(r.mode->0) == Ok::<Mode, NoticeView>(
        o.mode->0,
    )
}

/// Whether an output is what becomes of a monitor without a rule, wherever it is
/// placed: it is on, in its preferred mode, and otherwise as it is.
pub open spec fn stands_for(o: OutputView, m: Monitor, all: Seq<Monitor>) -> bool {
    let live = output_of(m, all);
    &&& o.name == m.name@
    &&& o.enabled
    &&& o.scale == live.scale
    &&& o.transform == live.transform
    &&& o.mirror_of == live.mirror_of
    &&& o.vrr == m.vrr
    &&& m.preferred() is Some ==> o.mode == m.preferred()
    &&& m.preferred() is None ==> o.mode == live.mode
}

proof fn lemma_ruled(p: ProfileView, monitors: Seq<Monitor>, taken: Seq<int>, n: int, k: int)
    requires
        0 <= k < n <= p.outputs.len(),
        ruled(p, monitors, taken, n) is Ok,
    ensures
        ruled(p, monitors, taken, n)->Ok_0.0.len() == n,
        follows_rule(
            ruled(p, monitors, taken, n)->Ok_0.0[k],
            p.outputs[k],
            monitors[taken[k]],
        ),
        !open_position(p.outputs[k].position) ==> read_position(p.outputs[k].position->0) == Ok::<
            (int, int),
            NoticeView,
        >((ruled(p, monitors, taken, n)->Ok_0.0[k].x, ruled(p, monitors, taken, n)->Ok_0.0[k].y)),
        open_position(p.outputs[k].position) ==> ruled(p, monitors, taken, n)->Ok_0.1.contains(
            monitors[taken[k]].name@,
        ),
    decreases n,
{
    let before = ruled(p, monitors, taken, n - 1)->Ok_0;
    let now = ruled(p, monitors, taken, n)->Ok_0;
    let m = monitors[taken[n - 1]];
    let rule = p.outputs[n - 1];
    rules_give_what_they_say(rule, m.name@);
    if k < n - 1 {
        lemma_ruled(p, monitors, taken, n - 1, k);
        assert(now.0[k] == before.0[k]);
        if open_position(p.outputs[k].position) {
            let j = choose|j: int|
                0 <= j < before.1.len() && before.1[j] == monitors[taken[k]].name@;
            assert(now.1[j] == before.1[j]);
        }
    } else {
        lemma_ruled_len(p, monitors, taken, n - 1);
        if open_position(rule.position) {
            assert(now.1[before.1.len() as int] == m.name@);
        }
    }
}

proof fn lemma_ruled_len(p: ProfileView, monitors: Seq<Monitor>, taken: Seq<int>, n: int)
    requires
        0 <= n,
        ruled(p, monitors, taken, n) is Ok,
    ensures
        ruled(p, monitors, taken, n)->Ok_0.0.len() == n,
    decreases n,
{
    if n > 0 {
        lemma_ruled_len(p, monitors, taken, n - 1);
    }
}

/// The outputs of a resolved profile follow its rules, in their order, each on the
/// monitor that was assigned to it: name, state, scale, orientation, mirroring,
/// variable refresh and mode are what the rule says.
pub proof fn resolved_outputs_follow_their_rules(
    p: ProfileView,
    monitors: Seq<Monitor>,
    k: int,
)
    requires
        p.layout(monitors) is Ok,
        0 <= k < p.outputs.len(),
    ensures
        p.assignment(monitors) is Some,
        p.layout(monitors)->Ok_0.outputs.len() >= p.outputs.len(),
        follows_rule(
            p.layout(monitors)->Ok_0.outputs[k],
            p.outputs[k],
            monitors[p.assignment(monitors)->0[k]],
        ),
{
    let taken = p.assignment(monitors)->0;
    let n = p.outputs.len() as int;
    lemma_ruled(p, monitors, taken, n, k);
    let (l, free) = prepared(p, monitors)->Ok_0;
    let cursor = edge_or_zero(right_edge(l.outputs, free));
    lemma_row_shape(l, free, cursor);
    let s = lined_up(l, free, cursor);
    let out = s.normalized().outputs[k];
    assert(l.outputs[k] == ruled(p, monitors, taken, n)->Ok_0.0[k]);
    assert(s.outputs[k].at(0, 0) == l.outputs[k].at(0, 0));
    assert(out.at(0, 0) == l.outputs[k].at(0, 0));
}

proof fn lemma_uncovered(monitors: Seq<Monitor>, taken: Seq<int>, n: int, k: int) -> (i: int)
    requires
        0 <= n <= monitors.len(),
        0 <= k < uncovered(monitors, taken, n).len(),
    ensures
        0 <= i < n,
        stands_for(uncovered(monitors, taken, n)[k], monitors[i], monitors),
        forall|j: int|
            0 <= j < taken.len() ==> monitors[#[trigger] taken[j]].name@ != monitors[i].name@,
    decreases n,
{
    let before = uncovered(monitors, taken, n - 1);
    if k < before.len() {
        lemma_uncovered(monitors, taken, n - 1, k)
    } else {
        n - 1
    }
}

/// The outputs behind those of the rules stand for monitors that no rule covers:
/// they are on, in their preferred mode, and otherwise as they are.
pub proof fn resolved_outputs_cover_the_rest(p: ProfileView, monitors: Seq<Monitor>, k: int) -> (i:
    int)
    requires
        p.layout(monitors) is Ok,
        p.outputs.len() <= k < p.layout(monitors)->Ok_0.outputs.len(),
    ensures
        0 <= i < monitors.len(),
        stands_for(p.layout(monitors)->Ok_0.outputs[k], monitors[i], monitors),
        forall|j: int|
            0 <= j < p.outputs.len() ==> monitors[#[trigger] p.assignment(
                monitors,
            )->0[j]].name@ != monitors[i].name@,
{
    let taken = p.assignment(monitors)->0;
    let n = p.outputs.len() as int;
    lemma_ruled_len(p, monitors, taken, n);
    assignments_are_one_to_one(p, monitors, n);
    let (l, free) = prepared(p, monitors)->Ok_0;
    let cursor = edge_or_zero(right_edge(l.outputs, free));
    lemma_row_shape(l, free, cursor);
    let s = lined_up(l, free, cursor);
    let out = s.normalized().outputs[k];
    let i = lemma_uncovered(monitors, taken, monitors.len() as int, k - n);
    assert(l.outputs[k] == uncovered(monitors, taken, monitors.len() as int)[k - n]);
    assert(s.outputs[k].at(0, 0) == l.outputs[k].at(0, 0));
    assert(out.at(0, 0) == l.outputs[k].at(0, 0));
    i
}

// ---------------------------------------------------------------- applying

/// What is sent for a layout is one directive for each output, in their order; an
/// application starts with the layout it was given and with every issue found in
/// it, and takes what it reads first for the state to go back to.
pub proof fn applications_send_what_was_asked<C: Compositor>(
    c: C,
    layout: LayoutView,
    force: bool,
    all: Vec<Monitor>,
    expired: bool,
    i: int,
)
    ensures
        directives(c, layout).len() == layout.outputs.len(),
        0 <= i < layout.outputs.len() ==> directives(c, layout)[i] == c.directive(layout.outputs[i]),
        ({
            let a = begun(c, layout, force);
            let (next, action) = a.advanced(c, Event::Outputs(all, expired));
            &&& a.layout == layout
            &&& a.force == force
            &&& a.report.issues == layout.issues()
            &&& !a.report.rolled_back
            &&& action == ActionView::Push(directives(c, layout))
            &&& next.previous.outputs.len() == all@.len()
            &&& 0 <= i < all@.len() ==> next.previous.outputs[i] == output_of(all@[i], all@)
            &&& next.layout == layout
        }),
{
}

/// An application that was sent waits while something may still settle and time
/// is left; then it is kept if nothing blocks or it is forced, and undone
/// otherwise.
pub proof fn applications_are_kept_when_nothing_blocks<C: Compositor>(
    c: C,
    a: ApplicationView,
    all: Vec<Monitor>,
    expired: bool,
)
    requires
        a.phase == Phase::Settling,
    ensures
        ({
            let drifts = all_drifts(a.layout, all@);
            let moving = exists|i: int|
                0 <= i < drifts.len() && (#[trigger] drifts[i]).field != Field::Scale
                    && drifts[i].field != Field::Refresh;
            let blocked = exists|i: int|
                0 <= i < drifts.len() && (#[trigger] drifts[i]).severity == Severity::Error;
            let (next, action) = a.advanced(c, Event::Outputs(all, expired));
            &&& moving && !expired ==> action is Wait && next == a
            &&& !(moving && !expired) ==> next.report.drifts == drifts
            &&& !(moving && !expired) && blocked && !a.force ==> action == ActionView::Push(
                directives(c, a.previous),
            )
            &&& !(moving && !expired) && (!blocked || a.force) ==> action is Focus || action
                is Finish
        }),
{
    let drifts = all_drifts(a.layout, all@);
    if crate::apply::unsettled(drifts) {
        let i = choose|i: int| 0 <= i < drifts.len() && (#[trigger] drifts[i]).field.settles();
        assert(drifts[i].field != Field::Scale);
    }
    if exists|i: int|
        0 <= i < drifts.len() && (#[trigger] drifts[i]).field != Field::Scale && drifts[i].field
            != Field::Refresh {
        let i = choose|i: int|
            0 <= i < drifts.len() && (#[trigger] drifts[i]).field != Field::Scale
                && drifts[i].field != Field::Refresh;
        assert(drifts[i].field.settles());
    }
}

/// A pair of numbers as an argument of a message.
pub open spec fn tells_pair(a: ArgView, x: int, y: int) -> bool {
    match a {
        ArgView::Text(s) => read_position(s) == Ok::<(int, int), NoticeView>((x, y)),
        _ => false,
    }
}

proof fn lemma_pair(x: int, y: int)
    requires
        fits_i32(x),
        fits_i32(y),
    ensures
        tells_pair(ArgView::Text(crate::apply::pair_text(x, y)), x, y),
{
    let none = Seq::<char>::empty();
    positions_read_back(x, y, 'x', none, none, none, none);
    assert("x"@ =~= seq!['x']) by {
        reveal_strlit("x");
    }
    assert(crate::apply::pair_text(x, y) =~= none + (crate::number::int_text(x) + none + seq!['x']
        + none + crate::number::int_text(y)) + none);
}

/// A message about a mode or a position that was refused names the output, then
/// what was wanted, then what there is.
pub proof fn refusals_tell_wanted_then_got(want: OutputView, got: Monitor, k: int)
    requires
        fits_i32(want.x),
        fits_i32(want.y),
    ensures
        0 <= k < position_drift(want, got).len() ==> ({
            let d = position_drift(want, got)[k];
            &&& d.message.id == NoticeId::PositionRefused
            &&& d.message.args.len() == 3
            &&& d.message.args[0] == ArgView::Text(want.name)
            &&& tells_pair(d.message.args[1], want.x, want.y)
            &&& tells_pair(d.message.args[2], got.x as int, got.y as int)
        }),
        0 <= k < mode_drift(want, got).len() && mode_drift(want, got)[k].field == Field::Mode ==> ({
            let d = mode_drift(want, got)[k];
            &&& d.message.id == NoticeId::ModeRefused
            &&& d.message.args.len() == 3
            &&& d.message.args[0] == ArgView::Text(want.name)
            &&& tells_pair(
                d.message.args[1],
                want.mode->0.width as int,
                want.mode->0.height as int,
            )
            &&& tells_pair(d.message.args[2], got.width as int, got.height as int)
        }),
{
    lemma_pair(want.x, want.y);
    lemma_pair(got.x as int, got.y as int);
    lemma_pair(got.width as int, got.height as int);
    if let Some(m) = want.mode {
        lemma_pair(m.width as int, m.height as int);
    }
}

/// A number to some places as an argument of a message.
pub open spec fn tells_nanos(a: ArgView, nanos: int, step: int) -> bool {
    match a {
        ArgView::Text(s) => match parse_nanos(s) {
            Some(n) => 2 * (n - nanos) <= step && 2 * (nanos - n) <= step,
            None => false,
        },
        _ => false,
    }
}

/// A message about a rate, a scale, a transform or a mirror that is another one
/// names the output, then what was wanted, then what there is.
pub proof fn corrections_tell_wanted_then_got(
    want: OutputView,
    got: Monitor,
    all: Seq<Monitor>,
    k: int,
)
    requires
        want.scale.nanos >= 0,
        got.scale.nanos >= 0,
        got.refresh_rate.nanos >= 0,
    ensures
        0 <= k < scale_drift(want, got).len() ==> ({
            let d = scale_drift(want, got)[k];
            &&& d.message.id == NoticeId::ScaleAdjusted
            &&& d.message.args[0] == ArgView::Text(want.name)
            &&& tells_nanos(d.message.args[1], want.scale.nanos as int, 1000)
            &&& tells_nanos(d.message.args[2], got.scale.nanos as int, 1000)
        }),
        0 <= k < transform_drift(want, got).len() ==> ({
            let d = transform_drift(want, got)[k];
            &&& d.message.id == NoticeId::TransformRefused
            &&& d.message.args[0] == ArgView::Text(want.name)
            &&& d.message.args[1] == ArgView::Turn(want.transform)
            &&& d.message.args[2] == ArgView::Turn(decoded(got.transform))
        }),
        0 <= k < mirror_drift(want, got, all).len() ==> ({
            let d = mirror_drift(want, got, all)[k];
            &&& d.message.id == NoticeId::MirrorMismatch
            &&& d.message.args[0] == ArgView::Text(want.name)
            &&& want.mirror_of is Some ==> d.message.args[1] == ArgView::Text(want.mirror_of->0)
            &&& want.mirror_of is None ==> d.message.args[1] is Nothing
            &&& got.mirrored(all) is Some ==> d.message.args[2] == ArgView::Text(
                got.mirrored(all)->0,
            )
            &&& got.mirrored(all) is None ==> d.message.args[2] is Nothing
        }),
        0 <= k < mode_drift(want, got).len() && mode_drift(want, got)[k].field == Field::Refresh
            ==> ({
            let d = mode_drift(want, got)[k];
            &&& d.message.id == NoticeId::RefreshAdjusted
            &&& d.message.args[0] == ArgView::Text(want.name)
            &&& tells_nanos(d.message.args[1], want.mode->0.refresh.nanos as int, 10_000_000)
            &&& tells_nanos(d.message.args[2], got.refresh_rate.nanos as int, 10_000_000)
        }),
{
    scales_read_back(want.scale);
    scales_read_back(got.scale);
    decimals_read_back(got.refresh_rate.nanos as int, 2);
    if let Some(m) = want.mode {
        if m.refresh.nanos > 0 {
            decimals_read_back(m.refresh.nanos as int, 2);
        }
    }
    assert(pow10(7) == 10_000_000) by {
        reveal_with_fuel(pow10, 8);
    }
}

/// An output that is not put in the row stays.
proof fn lemma_row_stays(l: LayoutView, free: Seq<Seq<char>>, cursor: int, k: int)
    requires
        0 <= k < l.outputs.len(),
        !free.contains(l.outputs[k].name),
    ensures
        lined_up(l, free, cursor).outputs[k] == l.outputs[k],
    decreases free.len(),
{
    if free.len() > 0 {
        let rest = free.skip(1);
        assert(free[0] != l.outputs[k].name) by {
            assert(free.contains(free[0]));
        }
        assert(!rest.contains(l.outputs[k].name)) by {
            if rest.contains(l.outputs[k].name) {
                let j = choose|j: int| 0 <= j < rest.len() && rest[j] == l.outputs[k].name;
                assert(free[j + 1] == l.outputs[k].name);
            }
        }
        crate::layout::lemma_named(l.outputs, free[0], 0);
        match named(l.outputs, free[0]) {
            Some(i) => if l.outputs[i].occupies() {
                let next = LayoutView {
                    outputs: l.outputs.update(i, l.outputs[i].at(cursor, 0)),
                    primary: l.primary,
                };
                lemma_row_stays(next, rest, cursor + l.outputs[i].size().0, k);
            } else {
                lemma_row_stays(l, rest, cursor, k);
            },
            None => lemma_row_stays(l, rest, cursor, k),
        }
    }
}

/// Where two rules name positions, and both outputs take up space, the outputs of
/// the resolved profile stand to one another as the positions do.
pub proof fn resolved_positions_keep_their_distance(
    p: ProfileView,
    monitors: Seq<Monitor>,
    j: int,
    k: int,
)
    requires
        p.layout(monitors) is Ok,
        0 <= j < p.outputs.len(),
        0 <= k < p.outputs.len(),
        !open_position(p.outputs[j].position),
        !open_position(p.outputs[k].position),
        p.layout(monitors)->Ok_0.outputs[j].occupies(),
        p.layout(monitors)->Ok_0.outputs[k].occupies(),
        !prepared(p, monitors)->Ok_0.1.contains(p.layout(monitors)->Ok_0.outputs[j].name),
        !prepared(p, monitors)->Ok_0.1.contains(p.layout(monitors)->Ok_0.outputs[k].name),
    ensures
        ({
            let a = p.layout(monitors)->Ok_0.outputs[j];
            let b = p.layout(monitors)->Ok_0.outputs[k];
            let (ax, ay) = read_position(p.outputs[j].position->0)->Ok_0;
            let (bx, by) = read_position(p.outputs[k].position->0)->Ok_0;
            a.x - b.x == ax - bx && a.y - b.y == ay - by
        }),
{
    let taken = p.assignment(monitors)->0;
    let n = p.outputs.len() as int;
    lemma_ruled(p, monitors, taken, n, j);
    lemma_ruled(p, monitors, taken, n, k);
    let (l, free) = prepared(p, monitors)->Ok_0;
    let cursor = edge_or_zero(right_edge(l.outputs, free));
    let s = lined_up(l, free, cursor);
    lemma_row_shape(l, free, cursor);
    assert(l.outputs[j] == ruled(p, monitors, taken, n)->Ok_0.0[j]);
    assert(l.outputs[k] == ruled(p, monitors, taken, n)->Ok_0.0[k]);
    assert(s.outputs[j].at(0, 0) == l.outputs[j].at(0, 0));
    assert(s.outputs[k].at(0, 0) == l.outputs[k].at(0, 0));
    lemma_row_stays(l, free, cursor, j);
    lemma_row_stays(l, free, cursor, k);
}

// ---------------------------------------------------------------- tolerances

/// A scale may differ by five thousandths and a refresh rate by a hertz and a
/// half before anything is said of it.
pub proof fn small_corrections_are_not_told(want: OutputView, got: Monitor)
    ensures
        ({
            let d = want.scale.nanos - got.scale.nanos;
            (scale_drift(want, got).len() == 0) == (-5_000_000 <= d <= 5_000_000)
        }),
        want.mode is None ==> mode_drift(want, got).len() == 0,
        want.mode is Some && want.mode->0.width == got.width && want.mode->0.height == got.height
            ==> ({
            let asked = want.mode->0.refresh.nanos;
            let d = asked - got.refresh_rate.nanos;
            (mode_drift(want, got).len() == 0) == (asked <= 0 || -1_500_000_000 <= d
                <= 1_500_000_000)
        }),
{
}

/// What blocks a layout is every one of its errors, in order, and nothing else.
pub proof fn errors_alone_block(issues: Seq<IssueView>)
    ensures
        blocking(issues) == issues.filter(|i: IssueView| i.severity == Severity::Error),
    decreases issues.len(),
{
    reveal(Seq::filter);
    if issues.len() > 0 {
        errors_alone_block(issues.drop_last());
    }
}

} // verus!
