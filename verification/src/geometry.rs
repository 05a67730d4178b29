//! What sizes, overlaps and warnings mean.

use vstd::arithmetic::div_mod::{
    lemma_fundamental_div_mod, lemma_fundamental_div_mod_converse, lemma_mod_bound,
};
use vstd::prelude::*;

use crate::fixed::{round_half_away, Fixed, UNIT};
use crate::layout::{
    active_of, chosen_step_is_the_closest, fraction_issue, isolation_issue, lemma_named,
    mirror_issue, named, output_issues, overlap_issue, overlapping, overlaps_of, scale_text, scaled,
    search_step, step_scale, touching, turned, usable_scale, valid_scale, valid_step, warning_on,
    IssueView, LayoutView, OutputView, Rect, Severity, STEPS,
};
use crate::monitor::{Mode, Rotation, Transform};
use crate::notice::{note, NoticeId};
use crate::number::ratio_text;
use crate::reading::rounding_finds_the_nearest;
use crate::seqs::{gather, lemma_gathered};

verus! {

/// Whether a point lies in a rectangle.
pub open spec fn holds(r: Rect, x: int, y: int) -> bool {
    r.0 <= x < r.2 && r.1 <= y < r.3
}

/// Two rectangles overlap exactly when a point lies in both.
pub proof fn overlaps_have_a_common_point(a: Rect, b: Rect)
    requires
        a.0 < a.2 && a.1 < a.3,
        b.0 < b.2 && b.1 < b.3,
    ensures
        overlapping(a, b) == exists|x: int, y: int| #[trigger] holds(a, x, y) && holds(b, x, y),
        overlapping(a, b) == overlapping(b, a),
{
    let x = if a.0 < b.0 {
        b.0
    } else {
        a.0
    };
    let y = if a.1 < b.1 {
        b.1
    } else {
        a.1
    };
    if overlapping(a, b) {
        assert(holds(a, x, y) && holds(b, x, y));
    }
}

/// Whether a step to a neighbouring point leads from one rectangle to another.
pub open spec fn leads_over(a: Rect, b: Rect, x: int, y: int) -> bool {
    holds(a, x, y) && (holds(b, x + 1, y) || holds(b, x - 1, y) || holds(b, x, y + 1) || holds(
        b,
        x,
        y - 1,
    ))
}

/// Two rectangles that do not overlap touch exactly when a step to a
/// neighbouring point leads from one to the other.
pub proof fn touching_lets_the_pointer_over(a: Rect, b: Rect)
    requires
        a.0 < a.2 && a.1 < a.3,
        b.0 < b.2 && b.1 < b.3,
        !overlapping(a, b),
    ensures
        touching(a, b) == exists|x: int, y: int| #[trigger] leads_over(a, b, x, y),
{
    let x = if a.0 < b.0 {
        b.0
    } else {
        a.0
    };
    let y = if a.1 < b.1 {
        b.1
    } else {
        a.1
    };
    if touching(a, b) {
        if a.2 == b.0 && a.1 < b.3 && b.1 < a.3 {
            assert(leads_over(a, b, a.2 - 1, y));
        } else if b.2 == a.0 && a.1 < b.3 && b.1 < a.3 {
            assert(leads_over(a, b, a.0, y));
        } else if a.3 == b.1 {
            assert(leads_over(a, b, x, a.3 - 1));
        } else {
            assert(leads_over(a, b, x, a.1));
        }
    }
}

proof fn lemma_rounded(n: int, d: int)
    requires
        n >= 0,
        d > 0,
    ensures
        2 * (round_half_away(n, d) * d - n) <= d,
        2 * (n - round_half_away(n, d) * d) <= d,
{
    let q = (2 * n + d) / (2 * d);
    lemma_fundamental_div_mod(2 * n + d, 2 * d);
    vstd::arithmetic::div_mod::lemma_mod_bound(2 * n + d, 2 * d);
    assert((2 * d) * q == 2 * (q * d)) by (nonlinear_arith);
}

/// An output takes up its mode's size divided by its scale, to the nearest pixel:
/// as it lies for a rotation that leaves the image upright or upside down, and on
/// its side for a quarter turn.
pub proof fn sizes_are_modes_divided_by_the_scale(o: OutputView)
    requires
        o.mode is Some,
        o.mode->0.width >= 0,
        o.mode->0.height >= 0,
        o.scale.nanos >= 1_000_000_000,
    ensures
        ({
            let m = o.mode->0;
            let side = o.transform.rotation == Rotation::R90 || o.transform.rotation
                == Rotation::R270;
            let w = if side {
                m.height as int
            } else {
                m.width as int
            };
            let h = if side {
                m.width as int
            } else {
                m.height as int
            };
            &&& 2 * (o.size().0 * o.scale.nanos - w * 1_000_000_000) <= o.scale.nanos
            &&& 2 * (w * 1_000_000_000 - o.size().0 * o.scale.nanos) <= o.scale.nanos
            &&& 2 * (o.size().1 * o.scale.nanos - h * 1_000_000_000) <= o.scale.nanos
            &&& 2 * (h * 1_000_000_000 - o.size().1 * o.scale.nanos) <= o.scale.nanos
            &&& o.area() == (o.x, o.y, o.x + o.size().0, o.y + o.size().1)
        }),
{
    let (w, h) = turned(o.mode->0, o.transform);
    let s = o.scale.nanos as int;
    lemma_rounded(w * UNIT, s);
    lemma_rounded(h * UNIT, s);
    lemma_small(w, s);
    lemma_small(h, s);
}

proof fn lemma_small(w: int, s: int)
    requires
        0 <= w <= i32::MAX,
        s >= 1_000_000_000,
    ensures
        0 <= round_half_away(w * UNIT, s) <= i32::MAX,
{
    let n = w * UNIT;
    let q = (2 * n + s) / (2 * s);
    lemma_fundamental_div_mod(2 * n + s, 2 * s);
    vstd::arithmetic::div_mod::lemma_mod_bound(2 * n + s, 2 * s);
    assert(q >= 0) by (nonlinear_arith)
        requires
            q == (2 * n + s) / (2 * s),
            n >= 0,
            s > 0,
    ;
    if q > w {
        assert((2 * s) * q >= (2 * s) * (w + 1)) by (nonlinear_arith)
            requires
                q >= w + 1,
                s > 0,
        ;
        assert((2 * s) * (w + 1) == 2 * (s * w) + 2 * s) by (nonlinear_arith);
        assert(s * w >= 1_000_000_000 * w) by (nonlinear_arith)
            requires
                s >= 1_000_000_000,
                w >= 0,
        ;
    }
}

/// Takes up space: what is on and mirrors nothing.
pub proof fn space_is_taken_by_what_is_on(o: OutputView)
    ensures
        o.occupies() == (o.enabled && o.mirror_of is None),
        o.mode is None ==> o.size() == (0int, 0int),
{
}

/// A scale is warned of exactly where the output is on, its scale is positive and
/// its logical size is not whole; the scale that is suggested leaves whole sizes.
pub proof fn fractions_are_warned_of(l: LayoutView, i: int)
    requires
        0 <= i < l.outputs.len(),
        l.outputs[i].enabled,
        l.outputs[i].scale.nanos > 0,
        l.outputs[i].mode is Some,
    ensures
        ({
            let o = l.outputs[i];
            let (w, h) = turned(o.mode->0, o.transform);
            let found = exists|e: IssueView|
                #[trigger] l.own_issues().contains(e) && e.severity == Severity::Warning
                    && e.outputs == seq![o.name] && e.message.id == NoticeId::NonIntegralScale;
            !valid_scale(w, h, o.scale) ==> found
        }),
{
    let o = l.outputs[i];
    let f = |i: int| output_issues(l.outputs, i);
    let (w, h) = turned(o.mode->0, o.transform);
    if !valid_scale(w, h, o.scale) {
        assert(fraction_issue(o).len() == 1);
        assert(f(i)[0] == fraction_issue(o)[0]);
        lemma_gathered(f, l.outputs.len() as int, i, 0);
        assert(l.own_issues().contains(f(i)[0]));
    }
}

/// An output that takes up space beside others is warned of exactly when it
/// touches none of another name.
pub proof fn isolation_is_warned_of(l: LayoutView, k: int)
    requires
        0 <= k < active_of(l.outputs).len(),
        active_of(l.outputs).len() > 1,
    ensures
        ({
            let active = active_of(l.outputs);
            let alone = forall|j: int|
                0 <= j < active.len() && (#[trigger] active[j]).name != active[k].name ==> !touching(
                    active[k].area(),
                    active[j].area(),
                );
            alone ==> l.isolation_issues().contains(
                warning_on(seq![active[k].name], note(NoticeId::Unreachable, seq![active[k].name])),
            )
        }),
{
    let active = active_of(l.outputs);
    let f = |i: int| isolation_issue(active, i);
    if forall|j: int|
        0 <= j < active.len() && (#[trigger] active[j]).name != active[k].name ==> !touching(
            active[k].area(),
            active[j].area(),
        ) {
        assert(f(k).len() == 1);
        lemma_gathered(f, active.len() as int, k, 0);
    }
}

/// A main screen is told to be unusable exactly when one is designated that is
/// not there or takes up no space.
pub proof fn unusable_main_screens_are_told(l: LayoutView)
    ensures
        ({
            let told = exists|k: int|
                0 <= k < l.whole_issues().len() && (#[trigger] l.whole_issues()[k]).message.id
                    == NoticeId::PrimaryUnusable;
            told == match l.primary {
                None => false,
                Some(name) => match named(l.outputs, name) {
                    None => true,
                    Some(i) => !l.outputs[i].enabled || l.outputs[i].mirror_of is Some,
                },
            }
        }),
{
    if let Some(name) = l.primary {
        if l.primary_at() is None {
            let e = warning_on(seq![name], note(NoticeId::PrimaryUnusable, seq![name]));
            let w = l.whole_issues();
            assert(w[w.len() - 1] == e);
        }
    }
}

/// An enabled output without a positive scale, and one that mirrors an output
/// that is missing or off, is an error that names what it is about.
pub proof fn troubled_outputs_are_told(l: LayoutView, i: int, target: Seq<char>)
    requires
        0 <= i < l.outputs.len(),
        l.outputs[i].enabled,
    ensures
        ({
            let o = l.outputs[i];
            let missing = forall|j: int|
                0 <= j < l.outputs.len() ==> (#[trigger] l.outputs[j]).name != target;
            let off = !missing && forall|j: int|
                0 <= j < l.outputs.len() && (#[trigger] l.outputs[j]).name == target
                    ==> !l.outputs[j].enabled;
            &&& o.scale.nanos <= 0 ==> l.own_issues().contains(
                IssueView {
                    severity: Severity::Error,
                    outputs: seq![o.name],
                    message: note(NoticeId::InvalidScale, seq![o.name, o.scale.shown()]),
                },
            )
            &&& o.scale.nanos > 0 && o.mirror_of == Some(target) && missing
                ==> l.own_issues().contains(
                IssueView {
                    severity: Severity::Error,
                    outputs: seq![o.name],
                    message: note(NoticeId::MirrorMissing, seq![o.name, target]),
                },
            )
            &&& o.scale.nanos > 0 && o.mirror_of == Some(target) && off ==> l.own_issues().contains(
                IssueView {
                    severity: Severity::Error,
                    outputs: seq![o.name, target],
                    message: note(NoticeId::MirrorDisabled, seq![o.name, target]),
                },
            )
        }),
{
    let o = l.outputs[i];
    let f = |i: int| output_issues(l.outputs, i);
    lemma_named(l.outputs, target, 0);
    if o.scale.nanos <= 0 {
        lemma_gathered(f, l.outputs.len() as int, i, 0);
    } else if mirror_issue(l.outputs, o).len() > 0 {
        let k = fraction_issue(o).len() as int;
        assert(f(i)[k] == mirror_issue(l.outputs, o)[0]);
        lemma_gathered(f, l.outputs.len() as int, i, k);
    }
}

/// Two outputs that overlap are an error that names both.
pub proof fn overlaps_are_told(l: LayoutView, a: int, b: int)
    requires
        0 <= a < b < active_of(l.outputs).len(),
        overlapping(active_of(l.outputs)[a].area(), active_of(l.outputs)[b].area()),
    ensures
        ({
            let names = seq![active_of(l.outputs)[a].name, active_of(l.outputs)[b].name];
            l.overlap_issues().contains(
                IssueView {
                    severity: Severity::Error,
                    outputs: names,
                    message: note(NoticeId::Overlap, names),
                },
            )
        }),
{
    let active = active_of(l.outputs);
    let g = |j: int|
        if j > a {
            overlap_issue(active[a], active[j])
        } else {
            Seq::empty()
        };
    let f = |i: int| overlaps_of(active, i);
    let n = active.len() as int;
    assert(g(b)[0] == overlap_issue(active[a], active[b])[0]);
    lemma_gathered(g, n, b, 0);
    assert(f(a) == gather(g, n));
    let k = choose|k: int| 0 <= k < f(a).len() && #[trigger] f(a)[k] == g(b)[0];
    lemma_gathered(f, n, a, k);
}

/// A warning of a fraction tells the scale, the width and the height that it
/// leads to, and the scale to use instead; a usable scale is not warned of.
pub proof fn fractions_are_told_with_a_better_scale(o: OutputView, k: int)
    requires
        o.mode is Some,
        o.scale.nanos > 0,
        0 <= k < fraction_issue(o).len(),
    ensures
        ({
            let (w, h) = turned(o.mode->0, o.transform);
            let said = fraction_issue(o)[k].message;
            let unit = 1_000_000_000int;
            &&& !valid_scale(w, h, o.scale)
            &&& said == note(
                NoticeId::NonIntegralScale,
                seq![
                    o.name,
                    scale_text(o.scale),
                    ratio_text(w * unit, o.scale.nanos as int, 3),
                    ratio_text(h * unit, o.scale.nanos as int, 3),
                    scale_text(usable_scale(o.mode->0, o.transform, o.scale)),
                ],
            )
        }),
{
}

// ---------------------------------------------------------------- scales

/// Whether a length divided by a scale lies less than a thousandth from `n`.
pub open spec fn nearly(pixels: int, scale: Fixed, n: int) -> bool {
    -scale.nanos < 1000 * (pixels * 1_000_000_000 - n * scale.nanos) < scale.nanos
}

/// A scale is usable exactly when width and height divided by it lie less than a
/// thousandth from whole numbers: `a` and `b`, where these are given.
pub proof fn usable_scales_leave_whole_sizes(w: i32, h: i32, scale: Fixed, a: int, b: int)
    requires
        scale.nanos > 0,
    ensures
        nearly(w as int, scale, a) && nearly(h as int, scale, b) ==> valid_scale(
            w as int,
            h as int,
            scale,
        ),
        valid_scale(w as int, h as int, scale) ==> (exists|n: int| nearly(w as int, scale, n)) && (
        exists|n: int| nearly(h as int, scale, n)),
{
    lemma_whole(w, scale, a);
    lemma_whole(h, scale, b);
}

proof fn lemma_whole(pixels: i32, scale: Fixed, n: int)
    requires
        scale.nanos > 0,
    ensures
        nearly(pixels as int, scale, n) ==> scaled(pixels as int, scale).integral(),
        scaled(pixels as int, scale).integral() ==> exists|n: int| nearly(pixels as int, scale, n),
{
    let num = pixels * 1_000_000_000;
    let den = scale.nanos as int;
    let q = num / den;
    let r = num % den;
    lemma_fundamental_div_mod(num, den);
    lemma_mod_bound(num, den);
    assert(den * q == q * den) by (nonlinear_arith);
    assert((q + 1) * den == q * den + den) by (nonlinear_arith);
    assert(scaled(pixels as int, scale).num == num);
    if nearly(pixels as int, scale, n) {
        let d = num - n * den;
        if d >= 0 {
            lemma_fundamental_div_mod_converse(num, den, n, d);
        } else {
            assert((n - 1) * den == n * den - den) by (nonlinear_arith);
            lemma_fundamental_div_mod_converse(num, den, n - 1, d + den);
        }
    }
    if 1000 * r < den {
        assert(nearly(pixels as int, scale, q));
    }
    if 1000 * (den - r) < den {
        assert(nearly(pixels as int, scale, q + 1));
    }
}

/// A step is a hundred-and-twentieth, to the nearest billionth.
pub proof fn steps_are_hundred_and_twentieths(k: int)
    requires
        0 <= k <= 1_000_000_000_000,
    ensures
        -120 <= 2 * (k * 1_000_000_000 - step_scale(k).nanos * 120) <= 120,
{
    let n = round_half_away(k * UNIT, STEPS as int);
    rounding_finds_the_nearest(k * UNIT, STEPS as int);
    assert(0 <= n <= i64::MAX);
}

/// How far a number of steps is from a scale, in billionths of a step.
pub open spec fn gap(wanted: Fixed, k: int) -> int {
    let d = wanted.nanos * 120 - k * 1_000_000_000;
    if d >= 0 {
        d
    } else {
        -d
    }
}

/// A scale that is not usable is replaced by a usable step, and no usable one
/// that lies less than about half from it is nearer.
pub proof fn unusable_scales_go_to_the_nearest_step(
    mode: Mode,
    transform: Transform,
    wanted: Fixed,
    other: int,
) -> (k: int)
    requires
        ({
            let (w, h) = turned(mode, transform);
            !valid_scale(w, h, wanted) && valid_step(w, h, other)
        }),
        gap(wanted, other) <= 59_000_000_000,
    ensures
        ({
            let (w, h) = turned(mode, transform);
            &&& valid_step(w, h, k)
            &&& usable_scale(mode, transform, wanted) == step_scale(k)
            &&& gap(wanted, k) <= gap(wanted, other)
        }),
{
    let (w, h) = turned(mode, transform);
    rounding_finds_the_nearest(wanted.nanos * STEPS, UNIT as int);
    chosen_step_is_the_closest(w, h, wanted, other);
    search_step(w, h, wanted, 0)->0
}

} // verus!
