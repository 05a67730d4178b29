//! Description of a monitor layout, its validation and automatic
//! arrangement.
//!
//! This entire module is purely computational: no I/O, no dependency on a
//! compositor. This is where the rules live that keep a configuration from
//! being sent that would leave the user staring at a black screen.

use vstd::prelude::*;

use crate::fixed::{round_half_away, rounded_half_away, Fixed, Ratio, UNIT};
use crate::i18n::Locale;
use crate::monitor::{decoded, Mode, Monitor, Transform};
use crate::notice::{note, Notice, NoticeId, NoticeView};
use crate::number::{int_string, int_text, nat_string, nat_text, ratio_string, ratio_text};
use crate::seqs::{gather, lemma_gathered, lemma_gathered_from};
use crate::text::{
    ascii_lowercase, copy_opt, lemma_views_push, lowered_ascii, replace, replaced, same, same_opt, strip_end,
    stripped_end, view_opt, views,
};

verus! {

/// The fractional scales that compositors work with are multiples of `1 / STEPS`.
pub const STEPS: i64 = 120;

/// How many steps away from a wanted scale a usable one is looked for.
pub const REACH: i64 = 60;

/// Desired configuration for a monitor.
///
/// This is the pivot type of the application: the command line, the web UI,
/// profiles and the live state all translate into `OutputState`.
#[derive(Debug, PartialEq, Eq)]
pub struct OutputState {
    /// Connector name (`eDP-1`, `DP-3`…).
    pub name: String,
    pub enabled: bool,
    /// `None` = let the compositor choose the preferred mode.
    pub mode: Option<Mode>,
    pub x: i32,
    pub y: i32,
    pub scale: Fixed,
    pub transform: Transform,
    pub mirror_of: Option<String>,
    pub vrr: bool,
}

#[verifier::ext_equal]
pub ghost struct OutputView {
    pub name: Seq<char>,
    pub enabled: bool,
    pub mode: Option<Mode>,
    pub x: int,
    pub y: int,
    pub scale: Fixed,
    pub transform: Transform,
    pub mirror_of: Option<Seq<char>>,
    pub vrr: bool,
}

impl View for OutputState {
    type V = OutputView;

    open spec fn view(&self) -> OutputView {
        OutputView {
            name: self.name@,
            enabled: self.enabled,
            mode: self.mode,
            x: self.x as int,
            y: self.y as int,
            scale: self.scale,
            transform: self.transform,
            mirror_of: view_opt(self.mirror_of),
            vrr: self.vrr,
        }
    }
}

/// A rectangle: left, top, right and bottom edge, the last two excluded.
pub type Rect = (int, int, int, int);

/// Whether the rectangles have an area in common.
pub open spec fn overlapping(a: Rect, b: Rect) -> bool {
    a.0 < b.2 && b.0 < a.2 && a.1 < b.3 && b.1 < a.3
}

/// Whether the rectangles share an edge over a length that is not zero.
pub open spec fn touching(a: Rect, b: Rect) -> bool {
    let x_overlap = a.0 < b.2 && b.0 < a.2;
    let y_overlap = a.1 < b.3 && b.1 < a.3;
    let x_adjacent = a.2 == b.0 || b.2 == a.0;
    let y_adjacent = a.3 == b.1 || b.3 == a.1;
    (x_adjacent && y_overlap) || (y_adjacent && x_overlap)
}

pub open spec fn fits_i32(n: int) -> bool {
    i32::MIN <= n <= i32::MAX
}

/// Width and height of a mode as they lie in the workspace.
pub open spec fn turned(mode: Mode, transform: Transform) -> (int, int) {
    if transform.rotation.swaps() {
        (mode.height as int, mode.width as int)
    } else {
        (mode.width as int, mode.height as int)
    }
}

/// A length in pixels divided by a scale.
pub open spec fn scaled(pixels: int, scale: Fixed) -> Ratio {
    Ratio { num: (pixels * UNIT) as i64, den: scale.nanos }
}

/// The formatted scale without trailing noise: `1`, `1.5`, `1.333333`.
pub open spec fn scale_text(scale: Fixed) -> Seq<char> {
    let s = strip_end(strip_end(ratio_text(scale.nanos as int, UNIT as int, 6), "0"@), "."@);
    if s.len() == 0 {
        "1"@
    } else {
        s
    }
}

impl OutputView {
    /// Size occupied in the workspace, in logical pixels: rotation swaps the
    /// axes, scale divides.
    pub open spec fn logical(self) -> Option<(Ratio, Ratio)> {
        match self.mode {
            Some(m) => {
                let (w, h) = turned(m, self.transform);
                Some((scaled(w, self.scale), scaled(h, self.scale)))
            },
            None => None,
        }
    }

    /// The logical size in whole pixels, nothing where the mode is open.
    pub open spec fn size(self) -> (int, int) {
        match self.logical() {
            Some((w, h)) => (w.nearest(), h.nearest()),
            None => (0, 0),
        }
    }

    pub open spec fn area(self) -> Rect {
        let (w, h) = self.size();
        (self.x, self.y, self.x + w, self.y + h)
    }

    /// A mirrored output deliberately overlaps its target: it takes no space.
    pub open spec fn occupies(self) -> bool {
        self.enabled && self.mirror_of is None
    }

    pub open spec fn at(self, x: int, y: int) -> OutputView {
        OutputView { x, y, ..self }
    }

    /// The one-line form of the configuration.
    pub open spec fn spec_text(self) -> Seq<char> {
        if !self.enabled {
            self.name + ",disable"@
        } else {
            let mode = match self.mode {
                Some(m) => m.shown(),
                None => "preferred"@,
            };
            let base = self.name + ","@ + mode + ","@ + int_text(self.x) + "x"@ + int_text(self.y)
                + ","@ + scale_text(self.scale);
            let turn = if self.transform.code() != 0 {
                ",transform,"@ + nat_text(self.transform.code() as nat)
            } else {
                Seq::empty()
            };
            let mirror = match self.mirror_of {
                Some(target) => ",mirror,"@ + target,
                None => Seq::empty(),
            };
            let vrr = if self.vrr {
                ",vrr,1"@
            } else {
                Seq::empty()
            };
            base + turn + mirror + vrr
        }
    }
}

/// The configuration that reflects a monitor's current state.
pub open spec fn output_of(m: Monitor, all: Seq<Monitor>) -> OutputView {
    OutputView {
        name: m.name@,
        enabled: !m.disabled,
        mode: if m.width > 0 && m.height > 0 {
            Some(m.current_mode())
        } else {
            None
        },
        x: m.x as int,
        y: m.y as int,
        scale: if m.scale.nanos > 0 {
            m.scale
        } else {
            Fixed::one()
        },
        transform: decoded(m.transform),
        mirror_of: m.mirrored(all),
        vrr: m.vrr,
    }
}

/// Flipping changes no size, and a quarter turn swaps width and height.
pub proof fn size_depends_on_rotation_alone(o: OutputView, flipped: bool)
    ensures
        ({
            let flip = OutputView {
                transform: Transform { flipped, ..o.transform },
                ..o
            };
            flip.size() == o.size()
        }),
        ({
            let quarter = OutputView {
                transform: Transform { rotation: crate::monitor::Rotation::R90, flipped },
                ..o
            };
            let upright = OutputView { transform: Transform::upright(), ..o };
            quarter.size() == (upright.size().1, upright.size().0)
        }),
{
}

fn times_unit(n: i32) -> (r: i64)
    ensures
        r == n * UNIT,
{
    n as i64 * UNIT
}

impl Clone for OutputState {
    fn clone(&self) -> (r: Self)
        ensures
            r@ == self@,
    {
        OutputState {
            name: self.name.clone(),
            enabled: self.enabled,
            mode: self.mode,
            x: self.x,
            y: self.y,
            scale: self.scale,
            transform: self.transform,
            mirror_of: copy_opt(&self.mirror_of),
            vrr: self.vrr,
        }
    }
}

impl OutputState {
    /// Desired configuration reflecting a monitor's current state.
    ///
    /// `all` is used to resolve the mirror target, which may be designated by
    /// its numeric id.
    pub fn from_monitor(m: &Monitor, all: &[Monitor]) -> (r: Self)
        ensures
            r@ == output_of(*m, all@),
    {
        OutputState {
            name: m.name.clone(),
            enabled: !m.disabled,
            mode: if m.width > 0 && m.height > 0 {
                Some(m.mode())
            } else {
                None
            },
            x: m.x,
            y: m.y,
            scale: if m.scale.nanos > 0 {
                m.scale
            } else {
                Fixed { nanos: UNIT }
            },
            transform: m.transform(),
            mirror_of: m.mirror_target(all),
            vrr: m.vrr,
        }
    }

    /// Size occupied in the workspace, in logical pixels.
    ///
    /// Rotation swaps the axes; scale divides. Returns `None` as long as the
    /// mode hasn't been resolved.
    pub fn logical_size(&self) -> (r: Option<(Ratio, Ratio)>)
        ensures
            r == self@.logical(),
    {
        match self.mode {
            Some(m) => {
                let (w, h) = if self.transform.swaps_axes() {
                    (m.height, m.width)
                } else {
                    (m.width, m.height)
                };
                Some(
                    (
                        Ratio { num: times_unit(w), den: self.scale.nanos },
                        Ratio { num: times_unit(h), den: self.scale.nanos },
                    ),
                )
            },
            None => None,
        }
    }

    /// Rounded logical size, as the compositor will reserve it.
    pub fn logical_size_rounded(&self) -> (r: (i32, i32))
        ensures
            (r.0 as int, r.1 as int) == self@.size(),
    {
        match self.logical_size() {
            Some((w, h)) => (w.rounded(), h.rounded()),
            None => (0, 0),
        }
    }

    /// The edges of the occupied rectangle, wide enough for every size.
    fn bounds(&self) -> (r: (i64, i64, i64, i64))
        ensures
            (r.0 as int, r.1 as int, r.2 as int, r.3 as int) == self@.area(),
    {
        let (w, h) = self.logical_size_rounded();
        (self.x as i64, self.y as i64, self.x as i64 + w as i64, self.y as i64 + h as i64)
    }

    /// Occupied rectangle: `(x1, y1, x2, y2)`, right/bottom edge excluded.
    pub fn rect(&self) -> (r: (i32, i32, i32, i32))
        requires
            fits_i32(self@.area().2),
            fits_i32(self@.area().3),
        ensures
            (r.0 as int, r.1 as int, r.2 as int, r.3 as int) == self@.area(),
    {
        let (w, h) = self.logical_size_rounded();
        (self.x, self.y, self.x + w, self.y + h)
    }

    /// Does it take up space in the workspace?
    ///
    /// A mirrored output deliberately overlaps its target: it is excluded
    /// from overlap detection.
    pub fn occupies_space(&self) -> (r: bool)
        ensures
            r == self@.occupies(),
    {
        self.enabled && self.mirror_of.is_none()
    }

    /// Renders the one-line form of the configuration.
    pub fn to_spec(&self) -> (r: String)
        ensures
            r@ == self@.spec_text(),
    {
        let mut s = self.name.clone();
        if !self.enabled {
            s.append(",disable");
            return s;
        }
        s.append(",");
        match self.mode {
            Some(m) => s.append(m.text().as_str()),
            None => s.append("preferred"),
        }
        s.append(",");
        s.append(int_string(self.x as i64).as_str());
        s.append("x");
        s.append(int_string(self.y as i64).as_str());
        s.append(",");
        s.append(format_scale(self.scale).as_str());
        if self.transform.to_u8() != 0 {
            s.append(",transform,");
            s.append(nat_string(self.transform.to_u8() as u128).as_str());
        }
        if let Some(target) = &self.mirror_of {
            s.append(",mirror,");
            s.append(target.as_str());
        }
        if self.vrr {
            s.append(",vrr,1");
        }
        assert(s@ =~= self@.spec_text());
        s
    }

    /// Whether two configurations are the same.
    pub fn same_as(&self, other: &OutputState) -> (r: bool)
        ensures
            r == (self@ == other@),
    {
        same(self.name.as_str(), other.name.as_str()) && self.enabled == other.enabled && self.mode
            == other.mode && self.x == other.x && self.y == other.y && self.scale == other.scale
            && self.transform == other.transform && same_opt(&self.mirror_of, &other.mirror_of)
            && self.vrr == other.vrr
    }
}

/// Formats a scale without trailing noise: `1`, `1.5`, `1.333333`.
pub fn format_scale(scale: Fixed) -> (r: String)
    ensures
        r@ == scale_text(scale),
{
    let s = stripped_end(
        stripped_end(ratio_string(scale.nanos, UNIT, 6).as_str(), "0").as_str(),
        ".",
    );
    if s.as_str().unicode_len() == 0 {
        "1".to_owned()
    } else {
        s
    }
}

fn rects_overlap(a: (i64, i64, i64, i64), b: (i64, i64, i64, i64)) -> (r: bool)
    ensures
        r == overlapping(
            (a.0 as int, a.1 as int, a.2 as int, a.3 as int),
            (b.0 as int, b.1 as int, b.2 as int, b.3 as int),
        ),
{
    a.0 < b.2 && b.0 < a.2 && a.1 < b.3 && b.1 < a.3
}

/// Do the rectangles share an edge over a non-zero length?
fn rects_touch(a: (i64, i64, i64, i64), b: (i64, i64, i64, i64)) -> (r: bool)
    ensures
        r == touching(
            (a.0 as int, a.1 as int, a.2 as int, a.3 as int),
            (b.0 as int, b.1 as int, b.2 as int, b.3 as int),
        ),
{
    let x_overlap = a.0 < b.2 && b.0 < a.2;
    let y_overlap = a.1 < b.3 && b.1 < a.3;
    let x_adjacent = a.2 == b.0 || b.2 == a.0;
    let y_adjacent = a.3 == b.1 || b.3 == a.1;
    (x_adjacent && y_overlap) || (y_adjacent && x_overlap)
}

// ---------------------------------------------------------------- scales

/// Whether a scale leaves whole logical sizes.
pub open spec fn valid_scale(w: int, h: int, scale: Fixed) -> bool {
    scale.nanos > 0 && scaled(w, scale).integral() && scaled(h, scale).integral()
}

/// Whether `k / STEPS`, as it can be expressed, leaves whole logical sizes.
pub open spec fn valid_step(w: int, h: int, k: int) -> bool {
    k > 0 && valid_scale(w, h, step_scale(k))
}

/// The step nearest to a scale.
pub open spec fn base_step(wanted: Fixed) -> int {
    round_half_away(wanted.nanos * STEPS, UNIT as int)
}

/// The distance between a scale and a step, in billionths of a step.
pub open spec fn distance(wanted: Fixed, k: int) -> int {
    let d = wanted.nanos * STEPS - k * UNIT;
    if d < 0 {
        -d
    } else {
        d
    }
}

/// The two steps at a given number of steps from the base, the nearer first.
pub open spec fn candidates(wanted: Fixed, step: int) -> (int, int) {
    let base = base_step(wanted);
    if wanted.nanos * STEPS >= base * UNIT {
        (base + step, base - step)
    } else {
        (base - step, base + step)
    }
}

/// The first usable step from the base outwards.
pub open spec fn search_step(w: int, h: int, wanted: Fixed, step: int) -> Option<int>
    decreases REACH + 1 - step,
{
    if step > REACH {
        None
    } else {
        let (near, far) = candidates(wanted, step);
        if valid_step(w, h, near) {
            Some(near)
        } else if valid_step(w, h, far) {
            Some(far)
        } else {
            search_step(w, h, wanted, step + 1)
        }
    }
}

/// `k / STEPS`, to the nearest billionth.
pub open spec fn step_scale(k: int) -> Fixed {
    let n = round_half_away(k * UNIT, STEPS as int);
    Fixed {
        nanos: if n > i64::MAX {
            i64::MAX
        } else {
            n as i64
        },
    }
}

/// The scale to use in place of the wanted one: itself where it leaves whole
/// sizes, else the closest step that does, else one.
pub open spec fn usable_scale(mode: Mode, transform: Transform, wanted: Fixed) -> Fixed {
    let (w, h) = turned(mode, transform);
    if valid_scale(w, h, wanted) {
        wanted
    } else {
        match search_step(w, h, wanted, 0) {
            Some(k) => step_scale(k),
            None => Fixed::one(),
        }
    }
}

proof fn lemma_search_step(w: int, h: int, wanted: Fixed, step: int)
    requires
        0 <= step,
    ensures
        match search_step(w, h, wanted, step) {
            Some(k) => {
                let base = base_step(wanted);
                let s = if k < base {
                    base - k
                } else {
                    k - base
                };
                &&& valid_step(w, h, k)
                &&& step <= s <= REACH
                &&& k == candidates(wanted, s).0 || (k == candidates(wanted, s).1 && !valid_step(
                    w,
                    h,
                    candidates(wanted, s).0,
                ))
                &&& forall|j: int|
                    base - s < j < base + s && !(base - step < j < base + step)
                        ==> !#[trigger] valid_step(w, h, j)
            },
            None => forall|j: int|
                base_step(wanted) - REACH <= j <= base_step(wanted) + REACH && !(base_step(wanted)
                    - step < j < base_step(wanted) + step) ==> !#[trigger] valid_step(w, h, j),
        },
    decreases REACH + 1 - step,
{
    if step <= REACH {
        let (near, far) = candidates(wanted, step);
        if !valid_step(w, h, near) && !valid_step(w, h, far) {
            lemma_search_step(w, h, wanted, step + 1);
        }
    }
}

/// The step that is chosen is usable, and no usable step within reach is
/// closer to the wanted scale; none is chosen only where none is usable.
pub proof fn chosen_step_is_the_closest(w: int, h: int, wanted: Fixed, other: int)
    requires
        base_step(wanted) - REACH <= other <= base_step(wanted) + REACH,
        valid_step(w, h, other),
    ensures
        match search_step(w, h, wanted, 0) {
            Some(k) => valid_step(w, h, k) && distance(wanted, k) <= distance(wanted, other),
            None => false,
        },
{
    lemma_search_step(w, h, wanted, 0);
    let n = wanted.nanos * STEPS;
    let base = base_step(wanted);
    assert(2 * (n - base * UNIT) <= UNIT && 2 * (base * UNIT - n) <= UNIT) by {
        let size = if n >= 0 {
            n
        } else {
            -n
        };
        let q = (2 * size + UNIT) / (2 * UNIT as int);
        vstd::arithmetic::div_mod::lemma_fundamental_div_mod(2 * size + UNIT, 2 * UNIT as int);
    }
}

proof fn lemma_search_step_turned(w: int, h: int, wanted: Fixed, step: int)
    ensures
        search_step(w, h, wanted, step) == search_step(h, w, wanted, step),
    decreases REACH + 1 - step,
{
    if step <= REACH {
        lemma_search_step_turned(w, h, wanted, step + 1);
    }
}

/// The scale that is chosen leaves whole sizes. Chosen again it stays, and so does
/// one that was usable from the start. No rotation matters.
pub proof fn chosen_scale_is_usable(mode: Mode, transform: Transform, wanted: Fixed)
    ensures
        ({
            let (w, h) = turned(mode, transform);
            let chosen = usable_scale(mode, transform, wanted);
            &&& valid_scale(w, h, chosen)
            &&& valid_scale(w, h, wanted) ==> chosen == wanted
            &&& usable_scale(mode, transform, chosen) == chosen
            &&& forall|other: Transform| #[trigger]
                usable_scale(mode, other, wanted) == chosen
        }),
{
    let (w, h) = turned(mode, transform);
    lemma_search_step(w, h, wanted, 0);
    lemma_search_step_turned(mode.width as int, mode.height as int, wanted, 0);
    assert(valid_scale(w, h, Fixed::one())) by {
        assert((w * UNIT) % (UNIT as int) == 0 && (h * UNIT) % (UNIT as int) == 0)
            by (nonlinear_arith)
            requires
                UNIT == 1_000_000_000,
        ;
    }
}

fn is_valid_scale(w: i32, h: i32, scale: Fixed) -> (r: bool)
    ensures
        r == valid_scale(w as int, h as int, scale),
{
    scale.nanos > 0 && (Ratio { num: times_unit(w), den: scale.nanos }).is_integral() && (Ratio {
        num: times_unit(h),
        den: scale.nanos,
    }).is_integral()
}

/// A step's scale, where it is usable.
fn usable_step(w: i32, h: i32, k: i64) -> (r: Option<Fixed>)
    requires
        k <= 4_000_000_000_000,
    ensures
        match r {
            Some(s) => valid_step(w as int, h as int, k as int) && s == step_scale(k as int),
            None => !valid_step(w as int, h as int, k as int),
        },
{
    if k <= 0 {
        return None;
    }
    let s = scale_of_step(k);
    if is_valid_scale(w, h, s) {
        Some(s)
    } else {
        None
    }
}

/// Finds the valid scale closest to the one requested.
///
/// Compositors require that `size / scale` land on an integer, and work in
/// steps of 1/120. The steps are swept around the desired value, half a unit
/// on each side, and the first acceptable one is kept.
pub fn nearest_valid_scale(mode: Mode, transform: Transform, wanted: Fixed) -> (r: Fixed)
    ensures
        r == usable_scale(mode, transform, wanted),
{
    let (w, h): (i32, i32) = if transform.swaps_axes() {
        (mode.height, mode.width)
    } else {
        (mode.width, mode.height)
    };
    if is_valid_scale(w, h, wanted) {
        return wanted;
    }
    let n: i128 = wanted.nanos as i128 * STEPS as i128;
    let base: i64 = base_of(wanted);
    let up_first = n >= base as i128 * UNIT as i128;
    let mut step: i64 = 0;
    while step <= REACH
        invariant
            0 <= step <= REACH + 1,
            base == base_step(wanted),
            -2_000_000_000_000 <= base <= 2_000_000_000_000,
            up_first == (wanted.nanos * STEPS >= base * UNIT),
            search_step(w as int, h as int, wanted, 0) == search_step(
                w as int,
                h as int,
                wanted,
                step as int,
            ),
            !valid_scale(w as int, h as int, wanted),
            (w as int, h as int) == turned(mode, transform),
        decreases REACH + 1 - step,
    {
        let (near, far): (i64, i64) = if up_first {
            (base + step, base - step)
        } else {
            (base - step, base + step)
        };
        if let Some(s) = usable_step(w, h, near) {
            return s;
        }
        if let Some(s) = usable_step(w, h, far) {
            return s;
        }
        step = step + 1;
    }
    Fixed { nanos: UNIT }
}

fn base_of(wanted: Fixed) -> (r: i64)
    ensures
        r == base_step(wanted),
        -2_000_000_000_000 <= r <= 2_000_000_000_000,
{
    let steps: i128 = STEPS as i128;
    assert(steps == 120);
    let n: i128 = wanted.nanos as i128 * steps;
    let r: i128 = rounded_half_away(n, UNIT as i128);
    proof {
        let size = if n >= 0 {
            n as int
        } else {
            -n as int
        };
        let q = (2 * size + UNIT) / (2 * UNIT as int);
        vstd::arithmetic::div_mod::lemma_fundamental_div_mod(2 * size + UNIT, 2 * UNIT as int);
        assert(q <= 2_000_000_000_000);
    }
    r as i64
}

fn scale_of_step(k: i64) -> (r: Fixed)
    requires
        0 < k <= 4_000_000_000_000,
    ensures
        r == step_scale(k as int),
{
    let unit: i128 = UNIT as i128;
    assert(unit == 1_000_000_000);
    let n: i128 = rounded_half_away(k as i128 * unit, STEPS as i128);
    if n > i64::MAX as i128 {
        Fixed { nanos: i64::MAX }
    } else {
        proof {
            let m = k * UNIT;
            assert((2 * m + STEPS) / (2 * STEPS as int) >= 0) by (nonlinear_arith)
                requires
                    m >= 0,
                    STEPS == 120,
            ;
        }
        Fixed { nanos: n as i64 }
    }
}

// ---------------------------------------------------------------- issues

/// Severity of a problem detected in a layout.
#[derive(Debug, Clone, Copy, PartialEq, Eq, Structural)]
pub enum Severity {
    /// Blocking: the compositor would refuse the configuration, or it would
    /// render an output unusable.
    Error,
    /// Suspicious but still applicable.
    Warning,
}

#[derive(Debug, Clone, PartialEq, Eq)]
pub struct Issue {
    pub severity: Severity,
    /// Outputs involved, so the UI can highlight them.
    pub outputs: Vec<String>,
    pub message: Notice,
}

#[verifier::ext_equal]
pub ghost struct IssueView {
    pub severity: Severity,
    pub outputs: Seq<Seq<char>>,
    pub message: NoticeView,
}

impl View for Issue {
    type V = IssueView;

    open spec fn view(&self) -> IssueView {
        IssueView {
            severity: self.severity,
            outputs: views(self.outputs@),
            message: self.message@,
        }
    }
}

pub open spec fn issue_views(v: Seq<Issue>) -> Seq<IssueView> {
    Seq::new(v.len(), |i: int| v[i]@)
}

/// The tag and the message of an issue in a language.
pub open spec fn issue_text(i: IssueView, locale: Locale) -> Seq<char> {
    let tag = match (i.severity, locale) {
        (Severity::Error, Locale::En) => "error"@,
        (Severity::Error, Locale::Fr) => "erreur"@,
        (Severity::Warning, Locale::En) => "warning"@,
        (Severity::Warning, Locale::Fr) => "avertissement"@,
    };
    "["@ + tag + "] "@ + i.message.said(locale)
}

impl Issue {
    fn error1(name: &str, message: Notice) -> (r: Self)
        ensures
            r@ == error_on(seq![name@], message@),
    {
        let mut outputs: Vec<String> = Vec::new();
        outputs.push(name.to_owned());
        assert(views(outputs@) =~= seq![name@]);
        Issue { severity: Severity::Error, outputs, message }
    }

    fn error2(a: &str, b: &str, message: Notice) -> (r: Self)
        ensures
            r@ == error_on(seq![a@, b@], message@),
    {
        let mut outputs: Vec<String> = Vec::new();
        outputs.push(a.to_owned());
        outputs.push(b.to_owned());
        assert(views(outputs@) =~= seq![a@, b@]);
        Issue { severity: Severity::Error, outputs, message }
    }

    fn warning1(name: &str, message: Notice) -> (r: Self)
        ensures
            r@ == warning_on(seq![name@], message@),
    {
        let mut outputs: Vec<String> = Vec::new();
        outputs.push(name.to_owned());
        assert(views(outputs@) =~= seq![name@]);
        Issue { severity: Severity::Warning, outputs, message }
    }

    /// The issue in words.
    pub fn text(&self, locale: Locale) -> (r: String)
        ensures
            r@ == issue_text(self@, locale),
    {
        let mut s = "[".to_owned();
        match (self.severity, locale) {
            (Severity::Error, Locale::En) => s.append("error"),
            (Severity::Error, Locale::Fr) => s.append("erreur"),
            (Severity::Warning, Locale::En) => s.append("warning"),
            (Severity::Warning, Locale::Fr) => s.append("avertissement"),
        }
        s.append("] ");
        s.append(self.message.text(locale).as_str());
        s
    }
}

pub open spec fn error_on(outputs: Seq<Seq<char>>, message: NoticeView) -> IssueView {
    IssueView { severity: Severity::Error, outputs, message }
}

pub open spec fn warning_on(outputs: Seq<Seq<char>>, message: NoticeView) -> IssueView {
    IssueView { severity: Severity::Warning, outputs, message }
}

// ---------------------------------------------------------------- layouts

/// A complete layout, ready to be validated then applied.
#[derive(Debug, PartialEq, Eq)]
pub struct Layout {
    pub outputs: Vec<OutputState>,
    /// The connector of the main screen, on which the layout is anchored.
    pub primary: Option<String>,
}

#[verifier::ext_equal]
pub ghost struct LayoutView {
    pub outputs: Seq<OutputView>,
    pub primary: Option<Seq<char>>,
}

pub open spec fn output_views(v: Seq<OutputState>) -> Seq<OutputView> {
    Seq::new(v.len(), |i: int| v[i]@)
}

impl View for Layout {
    type V = LayoutView;

    open spec fn view(&self) -> LayoutView {
        LayoutView { outputs: output_views(self.outputs@), primary: view_opt(self.primary) }
    }
}

/// The first output at or behind `i` with the given name.
pub open spec fn named_from(outputs: Seq<OutputView>, name: Seq<char>, i: int) -> Option<int>
    decreases outputs.len() - i,
{
    if i < 0 || i >= outputs.len() {
        None
    } else if outputs[i].name == name {
        Some(i)
    } else {
        named_from(outputs, name, i + 1)
    }
}

/// The first output with the given name.
pub open spec fn named(outputs: Seq<OutputView>, name: Seq<char>) -> Option<int> {
    named_from(outputs, name, 0)
}

pub open spec fn count_named(outputs: Seq<OutputView>, name: Seq<char>) -> nat
    decreases outputs.len(),
{
    if outputs.len() == 0 {
        0
    } else {
        count_named(outputs.drop_last(), name) + if outputs.last().name == name {
            1nat
        } else {
            0nat
        }
    }
}

/// The outputs that take up space.
pub open spec fn active_of(outputs: Seq<OutputView>) -> Seq<OutputView> {
    outputs.filter(|o: OutputView| o.occupies())
}

/// A connector that is defined more than once, told at its first place.
pub open spec fn duplicate_at(outputs: Seq<OutputView>, i: int) -> Seq<IssueView> {
    let name = outputs[i].name;
    let count = count_named(outputs, name);
    if named(outputs, name) == Some(i) && count > 1 {
        seq![
            error_on(seq![name], note(NoticeId::DuplicateOutput, seq![name, nat_text(count)])),
        ]
    } else {
        Seq::empty()
    }
}

/// A scale that leaves a fraction of a logical pixel.
pub open spec fn fraction_issue(o: OutputView) -> Seq<IssueView> {
    match o.logical() {
        Some((w, h)) => if w.integral() && h.integral() {
            Seq::empty()
        } else {
            let better = usable_scale(o.mode.unwrap(), o.transform, o.scale);
            seq![
                warning_on(
                    seq![o.name],
                    note(
                        NoticeId::NonIntegralScale,
                        seq![
                            o.name,
                            scale_text(o.scale),
                            w.shown(),
                            h.shown(),
                            scale_text(better),
                        ],
                    ),
                ),
            ]
        },
        None => Seq::empty(),
    }
}

/// A mirror whose target is missing or disabled.
pub open spec fn mirror_issue(outputs: Seq<OutputView>, o: OutputView) -> Seq<IssueView> {
    match o.mirror_of {
        None => Seq::empty(),
        Some(target) => match named(outputs, target) {
            None => seq![
                error_on(seq![o.name], note(NoticeId::MirrorMissing, seq![o.name, target])),
            ],
            Some(t) => if outputs[t].enabled {
                Seq::empty()
            } else {
                seq![
                    error_on(
                        seq![o.name, target],
                        note(NoticeId::MirrorDisabled, seq![o.name, target]),
                    ),
                ]
            },
        },
    }
}

/// What is wrong with one output.
pub open spec fn output_issues(outputs: Seq<OutputView>, i: int) -> Seq<IssueView> {
    let o = outputs[i];
    if !o.enabled {
        Seq::empty()
    } else if o.scale.nanos <= 0 {
        seq![
            error_on(seq![o.name], note(NoticeId::InvalidScale, seq![o.name, o.scale.shown()])),
        ]
    } else {
        fraction_issue(o) + mirror_issue(outputs, o)
    }
}

/// Two outputs that take up the same space.
pub open spec fn overlap_issue(a: OutputView, b: OutputView) -> Seq<IssueView> {
    if overlapping(a.area(), b.area()) {
        seq![error_on(seq![a.name, b.name], note(NoticeId::Overlap, seq![a.name, b.name]))]
    } else {
        Seq::empty()
    }
}

/// The overlaps of an output with those behind it.
pub open spec fn overlaps_of(active: Seq<OutputView>, i: int) -> Seq<IssueView> {
    gather(
        |j: int|
            if j > i {
                overlap_issue(active[i], active[j])
            } else {
                Seq::empty()
            },
        active.len() as int,
    )
}

/// Whether an output touches one of another name.
pub open spec fn reachable(active: Seq<OutputView>, a: OutputView) -> bool {
    exists|j: int|
        0 <= j < active.len() && (#[trigger] active[j]).name != a.name && touching(
            a.area(),
            active[j].area(),
        )
}

/// An output that the pointer cannot reach from another one.
pub open spec fn isolation_issue(active: Seq<OutputView>, i: int) -> Seq<IssueView> {
    if reachable(active, active[i]) {
        Seq::empty()
    } else {
        seq![
            warning_on(seq![active[i].name], note(NoticeId::Unreachable, seq![active[i].name])),
        ]
    }
}

/// An enabled output has a positive scale and mirrors nothing but an enabled
/// output.
pub open spec fn usable_at(outputs: Seq<OutputView>, i: int) -> bool {
    let o = outputs[i];
    o.enabled ==> {
        &&& o.scale.nanos > 0
        &&& match o.mirror_of {
            Some(target) => match named(outputs, target) {
                Some(t) => outputs[t].enabled,
                None => false,
            },
            None => true,
        }
    }
}

impl LayoutView {
    /// Where the main screen stands, if it is there and takes up space.
    pub open spec fn primary_at(self) -> Option<int> {
        match self.primary {
            Some(name) => match named(self.outputs, name) {
                Some(i) => if self.outputs[i].occupies() {
                    Some(i)
                } else {
                    None
                },
                None => None,
            },
            None => None,
        }
    }

    pub open spec fn duplicate_issues(self) -> Seq<IssueView> {
        gather(|i: int| duplicate_at(self.outputs, i), self.outputs.len() as int)
    }

    pub open spec fn own_issues(self) -> Seq<IssueView> {
        gather(|i: int| output_issues(self.outputs, i), self.outputs.len() as int)
    }

    pub open spec fn overlap_issues(self) -> Seq<IssueView> {
        let active = active_of(self.outputs);
        gather(|i: int| overlaps_of(active, i), active.len() as int)
    }

    pub open spec fn isolation_issues(self) -> Seq<IssueView> {
        let active = active_of(self.outputs);
        if active.len() > 1 {
            gather(|i: int| isolation_issue(active, i), active.len() as int)
        } else {
            Seq::empty()
        }
    }

    pub open spec fn whole_issues(self) -> Seq<IssueView> {
        let dark = if self.outputs.len() > 0 && active_of(self.outputs).len() == 0 {
            seq![error_on(seq![], note(NoticeId::AllDisabled, seq![]))]
        } else {
            Seq::empty()
        };
        let adrift = match self.primary {
            Some(name) => if self.primary_at() is None {
                seq![warning_on(seq![name], note(NoticeId::PrimaryUnusable, seq![name]))]
            } else {
                Seq::empty()
            },
            None => Seq::empty(),
        };
        dark + adrift
    }

    /// Everything that is wrong with the layout.
    pub open spec fn issues(self) -> Seq<IssueView> {
        self.duplicate_issues() + self.own_issues() + self.overlap_issues()
            + self.isolation_issues() + self.whole_issues()
    }

    pub open spec fn erroneous(self) -> bool {
        exists|i: int|
            0 <= i < self.issues().len() && (#[trigger] self.issues()[i]).severity
                == Severity::Error
    }

    /// Names are unique, every enabled output has a positive scale and mirrors
    /// nothing but an enabled output, no two outputs overlap, and something
    /// stays visible.
    pub open spec fn sound(self) -> bool {
        &&& forall|i: int, j: int|
            0 <= i < j < self.outputs.len() ==> (#[trigger] self.outputs[i]).name != (
            #[trigger] self.outputs[j]).name
        &&& forall|i: int| 0 <= i < self.outputs.len() ==> #[trigger] usable_at(self.outputs, i)
        &&& forall|i: int, j: int|
            0 <= i < j < self.outputs.len() && (#[trigger] self.outputs[i]).occupies() && (
            #[trigger] self.outputs[j]).occupies() ==> !overlapping(
                self.outputs[i].area(),
                self.outputs[j].area(),
            )
        &&& self.outputs.len() > 0 ==> exists|i: int|
            0 <= i < self.outputs.len() && (#[trigger] self.outputs[i]).occupies()
    }
}

pub proof fn lemma_named(outputs: Seq<OutputView>, name: Seq<char>, i: int)
    requires
        0 <= i,
    ensures
        match named_from(outputs, name, i) {
            Some(k) => i <= k < outputs.len() && outputs[k].name == name && forall|j: int|
                i <= j < k ==> (#[trigger] outputs[j]).name != name,
            None => forall|j: int| i <= j < outputs.len() ==> (#[trigger] outputs[j]).name != name,
        },
    decreases outputs.len() - i,
{
    if i < outputs.len() && outputs[i].name != name {
        lemma_named(outputs, name, i + 1);
    }
}

proof fn lemma_count_named(outputs: Seq<OutputView>, name: Seq<char>, i: int, j: int)
    requires
        0 <= i < outputs.len(),
        outputs[i].name == name,
        i < j < outputs.len() ==> outputs[j].name == name,
    ensures
        count_named(outputs, name) >= 1,
        i < j < outputs.len() ==> count_named(outputs, name) >= 2,
    decreases outputs.len(),
{
    let last = outputs.len() - 1;
    if i < last {
        if j < last {
            lemma_count_named(outputs.drop_last(), name, i, j);
        } else {
            lemma_count_named(outputs.drop_last(), name, i, i);
        }
    }
}

/// Where an element that passes the filter stands among those that pass.
proof fn lemma_active_position(outputs: Seq<OutputView>, i: int) -> (r: int)
    requires
        0 <= i < outputs.len(),
        outputs[i].occupies(),
    ensures
        0 <= r < active_of(outputs).len(),
        active_of(outputs)[r] == outputs[i],
        r == active_of(outputs.take(i)).len(),
    decreases outputs.len(),
{
    reveal(Seq::filter);
    let body = outputs.drop_last();
    if i == outputs.len() - 1 {
        assert(outputs.take(i) =~= body);
        active_of(body).len() as int
    } else {
        let r = lemma_active_position(body, i);
        assert(body.take(i) =~= outputs.take(i));
        r
    }
}

proof fn lemma_active_grows(outputs: Seq<OutputView>, i: int, j: int)
    requires
        0 <= i < j <= outputs.len(),
        outputs[i].occupies(),
    ensures
        active_of(outputs.take(i)).len() < active_of(outputs.take(j)).len(),
    decreases j,
{
    reveal(Seq::filter);
    assert(outputs.take(j).drop_last() =~= outputs.take(j - 1));
    if i < j - 1 {
        lemma_active_grows(outputs, i, j - 1);
    }
}

/// An issue in one part of the list of issues is in the list.
proof fn lemma_issue_parts(l: LayoutView, e: IssueView)
    requires
        e.severity == Severity::Error,
        l.duplicate_issues().contains(e) || l.own_issues().contains(e)
            || l.overlap_issues().contains(e) || l.whole_issues().contains(e),
    ensures
        l.erroneous(),
{
    let a = l.duplicate_issues();
    let b = l.own_issues();
    let c = l.overlap_issues();
    let d = l.isolation_issues();
    let f = l.whole_issues();
    let all = l.issues();
    if a.contains(e) {
        let k = choose|k: int| 0 <= k < a.len() && a[k] == e;
        assert(all[k] == e);
    } else if b.contains(e) {
        let k = choose|k: int| 0 <= k < b.len() && b[k] == e;
        assert(all[a.len() + k] == e);
    } else if c.contains(e) {
        let k = choose|k: int| 0 <= k < c.len() && c[k] == e;
        assert(all[a.len() + b.len() + k] == e);
    } else {
        let k = choose|k: int| 0 <= k < f.len() && f[k] == e;
        assert(all[a.len() + b.len() + c.len() + d.len() + k] == e);
    }
}

proof fn lemma_unique_names(l: LayoutView, i: int, j: int)
    requires
        !l.erroneous(),
        0 <= i < j < l.outputs.len(),
    ensures
        l.outputs[i].name != l.outputs[j].name,
{
    let outs = l.outputs;
    if outs[i].name == outs[j].name {
        let name = outs[i].name;
        lemma_named(outs, name, 0);
        let k = named(outs, name).unwrap();
        lemma_count_named(outs, name, i, j);
        let f = |i: int| duplicate_at(outs, i);
        assert(f(k).len() == 1);
        lemma_gathered(f, outs.len() as int, k, 0);
        lemma_issue_parts(l, f(k)[0]);
    }
}

proof fn lemma_own_soundness(l: LayoutView, i: int)
    requires
        !l.erroneous(),
        0 <= i < l.outputs.len(),
        l.outputs[i].enabled,
    ensures
        l.outputs[i].scale.nanos > 0,
        mirror_issue(l.outputs, l.outputs[i]).len() == 0,
{
    let outs = l.outputs;
    let f = |i: int| output_issues(outs, i);
    let o = outs[i];
    if o.scale.nanos <= 0 {
        assert(f(i).len() == 1);
        lemma_gathered(f, outs.len() as int, i, 0);
        lemma_issue_parts(l, f(i)[0]);
    } else if mirror_issue(outs, o).len() > 0 {
        let k = fraction_issue(o).len() as int;
        assert(f(i)[k] == mirror_issue(outs, o)[0]);
        lemma_gathered(f, outs.len() as int, i, k);
        lemma_issue_parts(l, f(i)[k]);
    }
}

proof fn lemma_no_overlap(l: LayoutView, i: int, j: int)
    requires
        !l.erroneous(),
        0 <= i < j < l.outputs.len(),
        l.outputs[i].occupies(),
        l.outputs[j].occupies(),
    ensures
        !overlapping(l.outputs[i].area(), l.outputs[j].area()),
{
    let outs = l.outputs;
    let active = active_of(outs);
    if overlapping(outs[i].area(), outs[j].area()) {
        let a = lemma_active_position(outs, i);
        let b = lemma_active_position(outs, j);
        lemma_active_grows(outs, i, j);
        let inner = |k: int|
            if k > a {
                overlap_issue(active[a], active[k])
            } else {
                Seq::empty()
            };
        let f = |k: int| overlaps_of(active, k);
        let e = inner(b)[0];
        assert(inner(b).len() == 1);
        lemma_gathered(inner, active.len() as int, b, 0);
        let part = overlaps_of(active, a);
        assert(part == gather(inner, active.len() as int));
        let k = choose|k: int| 0 <= k < part.len() && part[k] == e;
        assert(f(a) == part);
        lemma_gathered(f, active.len() as int, a, k);
        lemma_issue_parts(l, e);
    }
}

proof fn lemma_something_visible(l: LayoutView) -> (k: int)
    requires
        !l.erroneous(),
        l.outputs.len() > 0,
    ensures
        0 <= k < l.outputs.len(),
        l.outputs[k].occupies(),
{
    if active_of(l.outputs).len() == 0 {
        let e = error_on(seq![], note(NoticeId::AllDisabled, seq![]));
        assert(l.whole_issues()[0] == e);
        lemma_issue_parts(l, e);
        0
    } else {
        lemma_active_from(l.outputs, 0)
    }
}

proof fn lemma_counted_once(outputs: Seq<OutputView>, name: Seq<char>)
    requires
        forall|i: int, j: int|
            0 <= i < j < outputs.len() ==> (#[trigger] outputs[i]).name != (
            #[trigger] outputs[j]).name,
    ensures
        count_named(outputs, name) <= 1,
        count_named(outputs, name) == 1 ==> exists|i: int|
            0 <= i < outputs.len() && (#[trigger] outputs[i]).name == name,
    decreases outputs.len(),
{
    if outputs.len() > 0 {
        let body = outputs.drop_last();
        let last = outputs.len() - 1;
        assert forall|i: int, j: int| 0 <= i < j < body.len() implies (#[trigger] body[i]).name != (
        #[trigger] body[j]).name by {
            assert(outputs[i].name != outputs[j].name);
        }
        lemma_counted_once(body, name);
        if count_named(body, name) == 1 {
            let i = choose|i: int| 0 <= i < body.len() && (#[trigger] body[i]).name == name;
            assert(outputs[i].name == name);
            assert(outputs[i].name != outputs[last].name);
        } else if outputs.last().name == name {
            assert(outputs[last].name == name);
        }
    }
}

/// Two outputs in a sound layout that take up space do not overlap, wherever
/// they stand among those that do.
proof fn lemma_apart(l: LayoutView, a: int, b: int)
    requires
        l.sound(),
        0 <= a < b < active_of(l.outputs).len(),
    ensures
        overlap_issue(active_of(l.outputs)[a], active_of(l.outputs)[b]).len() == 0,
{
    let outs = l.outputs;
    let i = lemma_active_from(outs, a);
    let j = lemma_active_from(outs, b);
    if j < i {
        lemma_active_grows(outs, j, i);
    }
    assert(!overlapping(outs[i].area(), outs[j].area()));
}

/// A sound layout gives no cause for an error.
proof fn lemma_sound(l: LayoutView)
    requires
        l.sound(),
    ensures
        !l.erroneous(),
{
    let outs = l.outputs;
    let n = outs.len() as int;
    let active = active_of(outs);
    let a = l.duplicate_issues();
    let b = l.own_issues();
    let c = l.overlap_issues();
    let d = l.isolation_issues();
    let all = l.issues();
    if l.erroneous() {
        let k = choose|k: int|
            0 <= k < all.len() && (#[trigger] all[k]).severity == Severity::Error;
        if k < a.len() {
            let f = |i: int| duplicate_at(outs, i);
            let (i, j) = lemma_gathered_from(f, n, k);
            lemma_counted_once(outs, outs[i].name);
        } else if k < a.len() + b.len() {
            let f = |i: int| output_issues(outs, i);
            let (i, j) = lemma_gathered_from(f, n, k - a.len());
            assert(usable_at(outs, i));
            assert(all[k] == f(i)[j]);
            assert(mirror_issue(outs, outs[i]).len() == 0);
        } else if k < a.len() + b.len() + c.len() {
            let f = |i: int| overlaps_of(active, i);
            let (i, j) = lemma_gathered_from(f, active.len() as int, k - a.len() - b.len());
            let inner = |m: int|
                if m > i {
                    overlap_issue(active[i], active[m])
                } else {
                    Seq::empty()
                };
            assert(f(i) == gather(inner, active.len() as int));
            let (m, q) = lemma_gathered_from(inner, active.len() as int, j);
            lemma_apart(l, i, m);
        } else if k < a.len() + b.len() + c.len() + d.len() {
            let f = |i: int| isolation_issue(active, i);
            let at = k - a.len() - b.len() - c.len();
            let (i, j) = lemma_gathered_from(f, active.len() as int, at);
            assert(all[k] == f(i)[j]);
        } else {
            let i = choose|i: int| 0 <= i < n && (#[trigger] outs[i]).occupies();
            if n > 0 {
                let r = lemma_active_position(outs, i);
            }
            assert(all[k] == l.whole_issues()[k - a.len() - b.len() - c.len() - d.len()]);
        }
    }
}

/// A layout is free of errors exactly when it is sound: validation lets nothing
/// through that would leave an output unusable, and blocks nothing else.
pub proof fn error_free_layouts_are_sound(l: LayoutView)
    ensures
        l.sound() == !l.erroneous(),
{
    if l.sound() {
        lemma_sound(l);
    }
    if !l.erroneous() {
        lemma_error_free(l);
    }
}

proof fn lemma_error_free(l: LayoutView)
    requires
        !l.erroneous(),
    ensures
        l.sound(),
{
    let outs = l.outputs;
    let n = outs.len() as int;
    assert forall|i: int, j: int| 0 <= i < j < n implies (#[trigger] outs[i]).name != (
    #[trigger] outs[j]).name by {
        lemma_unique_names(l, i, j);
    }
    assert forall|i: int| 0 <= i < n implies #[trigger] usable_at(outs, i) by {
        if outs[i].enabled {
            lemma_own_soundness(l, i);
        }
    }
    assert forall|i: int, j: int|
        0 <= i < j < n && (#[trigger] outs[i]).occupies() && (
        #[trigger] outs[j]).occupies() implies !overlapping(outs[i].area(), outs[j].area()) by {
        lemma_no_overlap(l, i, j);
    }
    if n > 0 {
        let k = lemma_something_visible(l);
        assert(outs[k].occupies());
    }
}

/// What passes the filter is one of the outputs.
proof fn lemma_active_from(outputs: Seq<OutputView>, k: int) -> (r: int)
    requires
        0 <= k < active_of(outputs).len(),
    ensures
        0 <= r < outputs.len(),
        outputs[r].occupies(),
        outputs[r] == active_of(outputs)[k],
        k == active_of(outputs.take(r)).len(),
    decreases outputs.len(),
{
    reveal(Seq::filter);
    let body = outputs.drop_last();
    if k < active_of(body).len() {
        let r = lemma_active_from(body, k);
        assert(body.take(r) =~= outputs.take(r));
        r
    } else {
        assert(outputs.take(outputs.len() - 1) =~= body);
        outputs.len() - 1
    }
}

impl Clone for Layout {
    fn clone(&self) -> (r: Self)
        ensures
            r@ == self@,
    {
        let outputs = copy_outputs(&self.outputs);
        Layout { outputs, primary: copy_opt(&self.primary) }
    }
}

pub fn copy_outputs(v: &Vec<OutputState>) -> (r: Vec<OutputState>)
    ensures
        output_views(r@) == output_views(v@),
{
    let mut r: Vec<OutputState> = Vec::new();
    let mut i: usize = 0;
    while i < v.len()
        invariant
            i <= v@.len(),
            output_views(r@) == output_views(v@).take(i as int),
        decreases v@.len() - i,
    {
        let ghost before = output_views(r@);
        let o = v[i].clone();
        r.push(o);
        i = i + 1;
        assert(output_views(r@) =~= before.push(output_views(v@)[i - 1]));
        assert(output_views(r@) =~= output_views(v@).take(i as int));
    }
    assert(output_views(r@) =~= output_views(v@));
    r
}

fn push_issue(issues: &mut Vec<Issue>, issue: Issue)
    ensures
        issue_views(final(issues)@) == issue_views(old(issues)@) + seq![issue@],
{
    issues.push(issue);
    assert(issue_views(issues@) =~= issue_views(old(issues)@) + seq![issue@]);
}

fn append_issues(issues: &mut Vec<Issue>, more: Vec<Issue>)
    ensures
        issue_views(final(issues)@) == issue_views(old(issues)@) + issue_views(more@),
{
    let mut rest = more;
    issues.append(&mut rest);
    assert(issue_views(issues@) =~= issue_views(old(issues)@) + issue_views(more@));
}

fn no_issues() -> (r: Vec<Issue>)
    ensures
        issue_views(r@) == Seq::<IssueView>::empty(),
{
    let r: Vec<Issue> = Vec::new();
    assert(issue_views(r@) =~= Seq::empty());
    r
}

impl Layout {
    pub fn new(outputs: Vec<OutputState>) -> (r: Self)
        ensures
            r@ == (LayoutView { outputs: output_views(outputs@), primary: None }),
    {
        Layout { outputs, primary: None }
    }

    /// The same layout, anchored on the given connector.
    pub fn with_primary(self, primary: Option<String>) -> (r: Self)
        ensures
            r@ == (LayoutView { outputs: self@.outputs, primary: view_opt(primary) }),
    {
        Layout { outputs: self.outputs, primary }
    }

    /// Layout reflecting the live state.
    pub fn from_monitors(monitors: &[Monitor]) -> (r: Self)
        ensures
            r@ == live_layout(monitors@),
    {
        let mut outputs: Vec<OutputState> = Vec::new();
        let mut i: usize = 0;
        while i < monitors.len()
            invariant
                i <= monitors@.len(),
                output_views(outputs@) == live_layout(monitors@).outputs.take(i as int),
            decreases monitors@.len() - i,
        {
            let ghost before = output_views(outputs@);
            let o = OutputState::from_monitor(&monitors[i], monitors);
            outputs.push(o);
            i = i + 1;
            assert(output_views(outputs@) =~= before.push(
                output_of(monitors@[i - 1], monitors@),
            ));
            assert(output_views(outputs@) =~= live_layout(monitors@).outputs.take(i as int));
        }
        assert(output_views(outputs@) =~= live_layout(monitors@).outputs);
        Layout::new(outputs)
    }

    /// The position of the first output with the given name.
    pub fn position(&self, name: &str) -> (r: Option<usize>)
        ensures
            match r {
                Some(i) => named(self@.outputs, name@) == Some(i as int) && i < self.outputs@.len(),
                None => named(self@.outputs, name@) is None,
            },
    {
        let mut i: usize = 0;
        while i < self.outputs.len()
            invariant
                i <= self.outputs@.len(),
                named(self@.outputs, name@) == named_from(self@.outputs, name@, i as int),
            decreases self.outputs@.len() - i,
        {
            if same(self.outputs[i].name.as_str(), name) {
                return Some(i);
            }
            i = i + 1;
        }
        None
    }

    pub fn get(&self, name: &str) -> (r: Option<&OutputState>)
        ensures
            match (r, named(self@.outputs, name@)) {
                (Some(o), Some(i)) => 0 <= i < self.outputs@.len() && *o == self.outputs@[i],
                (None, None) => true,
                _ => false,
            },
    {
        match self.position(name) {
            Some(i) => Some(&self.outputs[i]),
            None => None,
        }
    }

    pub fn get_mut(&mut self, name: &str) -> (r: Option<&mut OutputState>)
        ensures
            match (r, named(old(self)@.outputs, name@)) {
                (Some(o), Some(i)) => {
                    &&& *o == old(self).outputs@[i]
                    &&& final(self).outputs@ == old(self).outputs@.update(i, *final(o))
                    &&& final(self).primary == old(self).primary
                },
                (None, None) => *final(self) == *old(self),
                _ => false,
            },
    {
        match self.position(name) {
            Some(i) => Some(&mut self.outputs[i]),
            None => None,
        }
    }

    /// The positions of the outputs that take up space.
    fn active_positions(&self) -> (r: Vec<usize>)
        ensures
            forall|k: int| 0 <= k < r@.len() ==> #[trigger] r@[k] < self.outputs@.len(),
            r@.len() == active_of(self@.outputs).len(),
            forall|k: int|
                0 <= k < r@.len() ==> self@.outputs[#[trigger] r@[k] as int] == active_of(
                    self@.outputs,
                )[k],
    {
        let mut r: Vec<usize> = Vec::new();
        let mut i: usize = 0;
        let ghost outs = self@.outputs;
        assert(active_of(outs.take(0)) =~= Seq::empty()) by {
            reveal(Seq::filter);
        }
        while i < self.outputs.len()
            invariant
                i <= self.outputs@.len(),
                outs == self@.outputs,
                forall|k: int| 0 <= k < r@.len() ==> #[trigger] r@[k] < self.outputs@.len(),
                r@.len() == active_of(outs.take(i as int)).len(),
                forall|k: int|
                    0 <= k < r@.len() ==> outs[#[trigger] r@[k] as int] == active_of(
                        outs.take(i as int),
                    )[k],
            decreases self.outputs@.len() - i,
        {
            assert(active_of(outs.take(i + 1)) == if outs[i as int].occupies() {
                active_of(outs.take(i as int)).push(outs[i as int])
            } else {
                active_of(outs.take(i as int))
            }) by {
                reveal(Seq::filter);
                assert(outs.take(i + 1).drop_last() =~= outs.take(i as int));
            }
            if self.outputs[i].occupies_space() {
                r.push(i);
            }
            i = i + 1;
        }
        assert(outs.take(outs.len() as int) =~= outs);
        r
    }

    /// The outputs that take up space.
    pub fn active(&self) -> (r: Vec<&OutputState>)
        ensures
            r@.map_values(|o: &OutputState| o@) == active_of(self@.outputs),
    {
        let at = self.active_positions();
        let mut r: Vec<&OutputState> = Vec::new();
        let mut k: usize = 0;
        while k < at.len()
            invariant
                k <= at@.len(),
                forall|k: int| 0 <= k < at@.len() ==> #[trigger] at@[k] < self.outputs@.len(),
                at@.len() == active_of(self@.outputs).len(),
                forall|k: int|
                    0 <= k < at@.len() ==> self@.outputs[#[trigger] at@[k] as int] == active_of(
                        self@.outputs,
                    )[k],
                r@.len() == k,
                forall|j: int| 0 <= j < k ==> (#[trigger] r@[j])@ == active_of(self@.outputs)[j],
            decreases at@.len() - k,
        {
            let o = &self.outputs[at[k]];
            assert(o@ == self@.outputs[at@[k as int] as int]);
            r.push(o);
            k = k + 1;
        }
        assert(r@.map_values(|o: &OutputState| o@) =~= active_of(self@.outputs));
        r
    }

    /// One-line forms for the entire layout.
    pub fn to_specs(&self) -> (r: Vec<String>)
        ensures
            views(r@) == self@.outputs.map_values(|o: OutputView| o.spec_text()),
    {
        let ghost want = self@.outputs.map_values(|o: OutputView| o.spec_text());
        let mut r: Vec<String> = Vec::new();
        let mut i: usize = 0;
        while i < self.outputs.len()
            invariant
                i <= self.outputs@.len(),
                want == self@.outputs.map_values(|o: OutputView| o.spec_text()),
                views(r@) == want.take(i as int),
            decreases self.outputs@.len() - i,
        {
            let s = self.outputs[i].to_spec();
            proof {
                lemma_views_push(r@, s);
            }
            r.push(s);
            i = i + 1;
            assert(views(r@) =~= want.take(i as int));
        }
        assert(views(r@) =~= want);
        r
    }

    pub fn has_errors(&self) -> (r: bool)
        ensures
            r == self@.erroneous(),
    {
        let issues = self.validate();
        let mut i: usize = 0;
        while i < issues.len()
            invariant
                i <= issues@.len(),
                issue_views(issues@) == self@.issues(),
                forall|j: int| 0 <= j < i ==> (#[trigger] self@.issues()[j]).severity != Severity::Error,
            decreases issues@.len() - i,
        {
            assert(self@.issues()[i as int] == issues@[i as int]@);
            if issues[i].severity == Severity::Error {
                return true;
            }
            i = i + 1;
        }
        assert(self@.issues().len() == issues@.len());
        false
    }

    fn count(&self, name: &str) -> (r: u128)
        ensures
            r == count_named(self@.outputs, name@),
    {
        let mut n: u128 = 0;
        let mut i: usize = 0;
        while i < self.outputs.len()
            invariant
                i <= self.outputs@.len(),
                n == count_named(self@.outputs.take(i as int), name@),
                n <= i,
            decreases self.outputs@.len() - i,
        {
            assert(self@.outputs.take(i + 1).drop_last() =~= self@.outputs.take(i as int));
            if same(self.outputs[i].name.as_str(), name) {
                n = n + 1;
            }
            i = i + 1;
        }
        assert(self@.outputs.take(self@.outputs.len() as int) =~= self@.outputs);
        n
    }

    fn find_duplicates(&self) -> (r: Vec<Issue>)
        ensures
            issue_views(r@) == self@.duplicate_issues(),
    {
        let mut issues = no_issues();
        let ghost f = |i: int| duplicate_at(self@.outputs, i);
        let mut i: usize = 0;
        while i < self.outputs.len()
            invariant
                i <= self.outputs@.len(),
                f == (|i: int| duplicate_at(self@.outputs, i)),
                issue_views(issues@) == gather(f, i as int),
            decreases self.outputs@.len() - i,
        {
            let name = self.outputs[i].name.as_str();
            let first = match self.position(name) {
                Some(k) => k == i,
                None => false,
            };
            let count: u128 = self.count(name);
            assert(gather(f, i + 1) == gather(f, i as int) + f(i as int));
            if first && count > 1 {
                push_issue(
                    &mut issues,
                    Issue::error1(
                        name,
                        Notice::two(NoticeId::DuplicateOutput, name, nat_string(count).as_str()),
                    ),
                );
            } else {
                assert(gather(f, i as int) + Seq::<IssueView>::empty() =~= gather(f, i as int));
            }
            i = i + 1;
        }
        issues
    }

    fn review_output(&self, i: usize) -> (r: Vec<Issue>)
        requires
            i < self.outputs@.len(),
        ensures
            issue_views(r@) == output_issues(self@.outputs, i as int),
    {
        let o = &self.outputs[i];
        let name = o.name.as_str();
        let ghost v = self@.outputs[i as int];
        assert(v == o@);
        let mut issues = no_issues();
        let ghost none = Seq::<IssueView>::empty();
        if !o.enabled {
            return issues;
        }
        if o.scale.nanos <= 0 {
            push_issue(
                &mut issues,
                Issue::error1(
                    name,
                    Notice::two(NoticeId::InvalidScale, name, o.scale.text().as_str()),
                ),
            );
            assert(none + output_issues(self@.outputs, i as int) =~= output_issues(
                self@.outputs,
                i as int,
            ));
            return issues;
        }
        // A scale that doesn't yield an integral logical size isn't rejected by
        // compositors: they silently round it. Might as well warn about the
        // value that will actually be used.
        if let (Some((w, h)), Some(mode)) = (o.logical_size(), o.mode) {
            if !w.is_integral() || !h.is_integral() {
                let better = nearest_valid_scale(mode, o.transform, o.scale);
                let notice = Notice::three(
                    NoticeId::NonIntegralScale,
                    name,
                    format_scale(o.scale).as_str(),
                    w.text().as_str(),
                ).with(h.text().as_str()).with(format_scale(better).as_str());
                assert(notice@.args =~= note(
                    NoticeId::NonIntegralScale,
                    seq![v.name, scale_text(v.scale), w.shown(), h.shown(), scale_text(better)],
                ).args);
                push_issue(&mut issues, Issue::warning1(name, notice));
            }
        }
        assert(issue_views(issues@) =~= fraction_issue(v));
        // A missing mirror target makes the directive fail.
        if let Some(target) = &o.mirror_of {
            match self.get(target.as_str()) {
                None => {
                    push_issue(
                        &mut issues,
                        Issue::error1(
                            name,
                            Notice::two(NoticeId::MirrorMissing, name, target.as_str()),
                        ),
                    );
                },
                Some(t) => {
                    if !t.enabled {
                        push_issue(
                            &mut issues,
                            Issue::error2(
                                name,
                                target.as_str(),
                                Notice::two(NoticeId::MirrorDisabled, name, target.as_str()),
                            ),
                        );
                    }
                },
            }
            proof {
                lemma_named(self@.outputs, target@, 0);
            }
        }
        assert(issue_views(issues@) =~= fraction_issue(v) + mirror_issue(self@.outputs, v));
        issues
    }

    fn find_own_issues(&self) -> (r: Vec<Issue>)
        ensures
            issue_views(r@) == self@.own_issues(),
    {
        let mut issues = no_issues();
        let ghost f = |i: int| output_issues(self@.outputs, i);
        let mut i: usize = 0;
        while i < self.outputs.len()
            invariant
                i <= self.outputs@.len(),
                f == (|i: int| output_issues(self@.outputs, i)),
                issue_views(issues@) == gather(f, i as int),
            decreases self.outputs@.len() - i,
        {
            append_issues(&mut issues, self.review_output(i));
            assert(gather(f, i + 1) == gather(f, i as int) + f(i as int));
            i = i + 1;
        }
        issues
    }

    /// Two outputs that overlap: the common area becomes unreachable by the
    /// mouse on one of them.
    fn find_overlaps(&self, active: &Vec<&OutputState>) -> (r: Vec<Issue>)
        requires
            active@.map_values(|o: &OutputState| o@) == active_of(self@.outputs),
        ensures
            issue_views(r@) == self@.overlap_issues(),
    {
        let ghost seen = active_of(self@.outputs);
        let ghost f = |i: int| overlaps_of(seen, i);
        let mut issues = no_issues();
        let mut i: usize = 0;
        while i < active.len()
            invariant
                i <= active@.len(),
                seen.len() == active@.len(),
                forall|k: int| 0 <= k < seen.len() ==> #[trigger] seen[k] == active@[k]@,
                f == (|i: int| overlaps_of(seen, i)),
                issue_views(issues@) == gather(f, i as int),
            decreases active@.len() - i,
        {
            let a = active[i];
            let ghost g = |j: int|
                if j > i {
                    overlap_issue(seen[i as int], seen[j])
                } else {
                    Seq::empty()
                };
            let ghost before = issue_views(issues@);
            let mut j: usize = 0;
            assert(before + gather(g, 0) =~= before);
            while j < active.len()
                invariant
                    i < active@.len(),
                    j <= active@.len(),
                    seen.len() == active@.len(),
                    forall|k: int| 0 <= k < seen.len() ==> #[trigger] seen[k] == active@[k]@,
                    a@ == seen[i as int],
                    g == (|j: int|
                        if j > i {
                            overlap_issue(seen[i as int], seen[j])
                        } else {
                            Seq::empty()
                        }),
                    issue_views(issues@) == before + gather(g, j as int),
                decreases active@.len() - j,
            {
                assert(gather(g, j + 1) == gather(g, j as int) + g(j as int));
                let b = active[j];
                assert(b@ == seen[j as int]);
                if j > i && rects_overlap(a.bounds(), b.bounds()) {
                    push_issue(
                        &mut issues,
                        Issue::error2(
                            a.name.as_str(),
                            b.name.as_str(),
                            Notice::two(NoticeId::Overlap, a.name.as_str(), b.name.as_str()),
                        ),
                    );
                    assert(g(j as int) =~= seq![
                        error_on(seq![a@.name, b@.name], note(NoticeId::Overlap, seq![a@.name, b@.name])),
                    ]);
                } else {
                    assert(g(j as int) =~= Seq::empty());
                }
                j = j + 1;
                assert(issue_views(issues@) =~= before + gather(g, j as int));
            }
            assert(gather(f, i + 1) == gather(f, i as int) + f(i as int));
            assert(f(i as int) == gather(g, active@.len() as int));
            i = i + 1;
        }
        issues
    }

    /// An isolated output stays reachable via the keyboard but the mouse can't
    /// reach it: that's a warning, not an error.
    fn find_isolated(&self, active: &Vec<&OutputState>) -> (r: Vec<Issue>)
        requires
            active@.map_values(|o: &OutputState| o@) == active_of(self@.outputs),
        ensures
            issue_views(r@) == self@.isolation_issues(),
    {
        let ghost seen = active_of(self@.outputs);
        let ghost f = |i: int| isolation_issue(seen, i);
        let mut issues = no_issues();
        assert(seen.len() == active@.len());
        if active.len() <= 1 {
            return issues;
        }
        let mut i: usize = 0;
        while i < active.len()
            invariant
                i <= active@.len(),
                seen.len() == active@.len(),
                forall|k: int| 0 <= k < seen.len() ==> #[trigger] seen[k] == active@[k]@,
                f == (|i: int| isolation_issue(seen, i)),
                issue_views(issues@) == gather(f, i as int),
            decreases active@.len() - i,
        {
            let a = active[i];
            assert(a@ == seen[i as int]);
            let mut touches = false;
            let mut j: usize = 0;
            while j < active.len()
                invariant
                    i < active@.len(),
                    j <= active@.len(),
                    seen.len() == active@.len(),
                    forall|k: int| 0 <= k < seen.len() ==> #[trigger] seen[k] == active@[k]@,
                    a@ == seen[i as int],
                    touches ==> reachable(seen, a@),
                    !touches ==> forall|k: int|
                        0 <= k < j ==> !((#[trigger] seen[k]).name != a@.name && touching(
                            a@.area(),
                            seen[k].area(),
                        )),
                decreases active@.len() - j,
            {
                let b = active[j];
                assert(b@ == seen[j as int]);
                if !same(b.name.as_str(), a.name.as_str()) && rects_touch(a.bounds(), b.bounds()) {
                    touches = true;
                }
                j = j + 1;
            }
            assert(gather(f, i + 1) == gather(f, i as int) + f(i as int));
            if !touches {
                push_issue(
                    &mut issues,
                    Issue::warning1(
                        a.name.as_str(),
                        Notice::one(NoticeId::Unreachable, a.name.as_str()),
                    ),
                );
            } else {
                assert(gather(f, i as int) + Seq::<IssueView>::empty() =~= gather(f, i as int));
            }
            i = i + 1;
        }
        issues
    }

    /// Reviews every known pitfall.
    pub fn validate(&self) -> (r: Vec<Issue>)
        ensures
            issue_views(r@) == self@.issues(),
    {
        // Duplicate connector: the last directive would overwrite the first.
        let mut issues = self.find_duplicates();
        append_issues(&mut issues, self.find_own_issues());
        let active = self.active();
        append_issues(&mut issues, self.find_overlaps(&active));
        append_issues(&mut issues, self.find_isolated(&active));
        let ghost before = issue_views(issues@);
        assert(active@.len() == active_of(self@.outputs).len());
        if self.outputs.len() > 0 && active.len() == 0 {
            let outputs: Vec<String> = Vec::new();
            assert(views(outputs@) =~= seq![]);
            push_issue(
                &mut issues,
                Issue {
                    severity: Severity::Error,
                    outputs,
                    message: Notice::plain(NoticeId::AllDisabled),
                },
            );
        }
        if let Some(name) = &self.primary {
            if self.primary_position().is_none() {
                push_issue(
                    &mut issues,
                    Issue::warning1(
                        name.as_str(),
                        Notice::one(NoticeId::PrimaryUnusable, name.as_str()),
                    ),
                );
            }
        }
        assert(issue_views(issues@) =~= before + self@.whole_issues());
        issues
    }

    fn primary_position(&self) -> (r: Option<usize>)
        ensures
            match r {
                Some(i) => self@.primary_at() == Some(i as int) && i < self.outputs@.len(),
                None => self@.primary_at() is None,
            },
    {
        match &self.primary {
            Some(name) => match self.position(name.as_str()) {
                Some(i) => if self.outputs[i].occupies_space() {
                    Some(i)
                } else {
                    None
                },
                None => None,
            },
            None => None,
        }
    }

    /// The main screen, where it is connected, enabled and not a mirror.
    pub fn primary_output(&self) -> (r: Option<&OutputState>)
        ensures
            match (r, self@.primary_at()) {
                (Some(o), Some(i)) => 0 <= i < self.outputs@.len() && *o == self.outputs@[i],
                (None, None) => true,
                _ => false,
            },
    {
        match self.primary_position() {
            Some(i) => Some(&self.outputs[i]),
            None => None,
        }
    }

    /// The point that normalizing brings to the origin.
    fn anchor_point(&self) -> (r: (i32, i32))
        ensures
            (r.0 as int, r.1 as int) == self@.anchor(),
    {
        if let Some(o) = self.primary_output() {
            return (o.x, o.y);
        }
        let active = self.active();
        let ghost seen = active_of(self@.outputs);
        let mut x: i32 = 0;
        let mut y: i32 = 0;
        let mut i: usize = 0;
        assert(seen.len() == active@.len());
        assert forall|k: int| 0 <= k < seen.len() implies #[trigger] seen[k] == active@[k]@ by {
            assert(active@.map_values(|o: &OutputState| o@)[k] == active@[k]@);
        }
        while i < active.len()
            invariant
                i <= active@.len(),
                seen.len() == active@.len(),
                forall|k: int| 0 <= k < seen.len() ==> #[trigger] seen[k] == active@[k]@,
                x == least_x(seen.take(i as int)),
                y == least_y(seen.take(i as int)),
            decreases active@.len() - i,
        {
            let o = active[i];
            assert(seen.take(i + 1).drop_last() =~= seen.take(i as int));
            assert(o@ == seen[i as int]);
            if i == 0 || o.x < x {
                x = o.x;
            }
            if i == 0 || o.y < y {
                y = o.y;
            }
            i = i + 1;
        }
        assert(seen.take(seen.len() as int) =~= seen);
        (x, y)
    }

    /// Whether every coordinate still fits once the layout is normalized.
    pub fn can_normalize(&self) -> (r: bool)
        ensures
            r == self@.normalizable(),
    {
        let (ax, ay) = self.anchor_point();
        let mut i: usize = 0;
        while i < self.outputs.len()
            invariant
                i <= self.outputs@.len(),
                (ax as int, ay as int) == self@.anchor(),
                forall|k: int|
                    0 <= k < i && (#[trigger] self@.outputs[k]).occupies() ==> fits_i32(
                        self@.outputs[k].x - ax,
                    ) && fits_i32(self@.outputs[k].y - ay),
            decreases self.outputs@.len() - i,
        {
            let o = &self.outputs[i];
            assert(self@.outputs[i as int] == o@);
            if o.occupies_space() {
                let x: i64 = o.x as i64 - ax as i64;
                let y: i64 = o.y as i64 - ay as i64;
                if x < i32::MIN as i64 || x > i32::MAX as i64 || y < i32::MIN as i64 || y
                    > i32::MAX as i64 {
                    return false;
                }
            }
            i = i + 1;
        }
        true
    }

    /// Brings the main screen to (0, 0), or the top-left corner of the whole
    /// layout where there is none.
    pub fn normalize(&mut self)
        requires
            old(self)@.normalizable(),
        ensures
            final(self)@ == old(self)@.normalized(),
    {
        let (ax, ay) = self.anchor_point();
        let ghost start = self@;
        let ghost want = self@.normalized();
        let mut i: usize = 0;
        while i < self.outputs.len()
            invariant
                i <= self.outputs@.len(),
                self@.outputs.len() == start.outputs.len(),
                self@.primary == start.primary,
                start.normalizable(),
                want == start.normalized(),
                (ax as int, ay as int) == start.anchor(),
                forall|k: int| 0 <= k < i ==> #[trigger] self@.outputs[k] == want.outputs[k],
                forall|k: int|
                    i <= k < start.outputs.len() ==> #[trigger] self@.outputs[k]
                        == start.outputs[k],
            decreases self.outputs@.len() - i,
        {
            assert(self@.outputs[i as int] == start.outputs[i as int]);
            let ghost before = self@.outputs;
            if self.outputs[i].occupies_space() {
                assert(start.outputs[i as int].occupies());
                self.outputs[i].x = self.outputs[i].x - ax;
                self.outputs[i].y = self.outputs[i].y - ay;
            }
            assert(self@.outputs =~= before.update(i as int, want.outputs[i as int]));
            i = i + 1;
        }
        assert(self@.outputs =~= want.outputs);
    }

    /// Whether every coordinate fits once the outputs stand in a row.
    pub fn can_arrange(&self) -> (r: bool)
        ensures
            r == self@.arrangeable(),
    {
        let primary = self.primary_position();
        let mut cursor: i64 = match primary {
            Some(p) => self.outputs[p].logical_size_rounded().0 as i64,
            None => 0,
        };
        let ghost l = self@;
        let mut i: usize = 0;
        while i < self.outputs.len()
            invariant
                i <= self.outputs@.len(),
                l == self@,
                match primary {
                    Some(p) => l.primary_at() == Some(p as int),
                    None => l.primary_at() is None,
                },
                cursor == l.row_start() + widths_before(l, i as int),
                -0x1_0000_0000 <= cursor <= 0x1_0000_0000,
                forall|k: int|
                    0 <= k < i && (#[trigger] l.outputs[k]).occupies() ==> fits_i32(l.row_x(k)),
            decreases self.outputs@.len() - i,
        {
            let o = &self.outputs[i];
            assert(l.outputs[i as int] == o@);
            let first = match primary {
                Some(p) => p == i,
                None => false,
            };
            if o.occupies_space() && !first {
                if cursor < i32::MIN as i64 || cursor > i32::MAX as i64 {
                    return false;
                }
                cursor = cursor + o.logical_size_rounded().0 as i64;
            }
            i = i + 1;
        }
        true
    }

    /// Lines up the active outputs side by side, left to right, top-aligned,
    /// the main screen first.
    ///
    /// This is the fallback when no profile matches the connected hardware.
    pub fn auto_arrange(&mut self)
        requires
            old(self)@.arrangeable(),
        ensures
            final(self)@ == old(self)@.arranged(),
    {
        let primary = self.primary_position();
        let mut cursor: i64 = match primary {
            Some(p) => self.outputs[p].logical_size_rounded().0 as i64,
            None => 0,
        };
        let ghost start = self@;
        let ghost want = self@.arranged();
        let mut i: usize = 0;
        while i < self.outputs.len()
            invariant
                i <= self.outputs@.len(),
                self@.outputs.len() == start.outputs.len(),
                self@.primary == start.primary,
                start.arrangeable(),
                want == start.arranged(),
                match primary {
                    Some(p) => start.primary_at() == Some(p as int),
                    None => start.primary_at() is None,
                },
                cursor == start.row_start() + widths_before(start, i as int),
                -0x1_0000_0000 <= cursor <= 0x1_0000_0000,
                forall|k: int| 0 <= k < i ==> #[trigger] self@.outputs[k] == want.outputs[k],
                forall|k: int|
                    i <= k < start.outputs.len() ==> #[trigger] self@.outputs[k]
                        == start.outputs[k],
            decreases self.outputs@.len() - i,
        {
            assert(self@.outputs[i as int] == start.outputs[i as int]);
            let ghost before = self@.outputs;
            let first = match primary {
                Some(p) => p == i,
                None => false,
            };
            if self.outputs[i].occupies_space() {
                assert(start.outputs[i as int].occupies());
                let width: i32 = self.outputs[i].logical_size_rounded().0;
                assert(fits_i32(start.row_x(i as int)));
                if first {
                    self.outputs[i].x = 0;
                } else {
                    self.outputs[i].x = cursor as i32;
                    cursor = cursor + width as i64;
                }
                self.outputs[i].y = 0;
            }
            assert(self@.outputs =~= before.update(i as int, want.outputs[i as int]));
            i = i + 1;
        }
        assert(self@.outputs =~= want.outputs);
    }

    /// Whether the place that a relation designates can be expressed; what is
    /// refused anyway can.
    pub fn can_place(&self, subject: &str, relation: Relation, anchor: &str) -> (r: bool)
        ensures
            r == self@.placeable(subject@, relation, anchor@),
    {
        match (self.get(anchor), self.get(subject)) {
            (Some(a), Some(s)) => {
                if same(subject, anchor) {
                    return true;
                }
                let (x, y) = spot_for(relation, a, s);
                i32::MIN as i64 <= x && x <= i32::MAX as i64 && i32::MIN as i64 <= y && y
                    <= i32::MAX as i64
            },
            _ => true,
        }
    }

    /// Applies a placement relation: `subject` is placed against `anchor`.
    pub fn place(&mut self, subject: &str, relation: Relation, anchor: &str) -> (r: Result<
        (),
        Notice,
    >)
        requires
            old(self)@.placeable(subject@, relation, anchor@),
        ensures
            match (r, old(self)@.placed(subject@, relation, anchor@)) {
                (Ok(_), Ok(l)) => final(self)@ == l,
                (Err(e), Err(n)) => e@ == n && final(self)@ == old(self)@,
                _ => false,
            },
    {
        let a = match self.position(anchor) {
            Some(a) => a,
            None => {
                return Err(Notice::one(NoticeId::UnknownAnchor, anchor));
            },
        };
        let s = match self.position(subject) {
            Some(s) => s,
            None => {
                return Err(Notice::one(NoticeId::UnknownOutput, subject));
            },
        };
        if same(subject, anchor) {
            return Err(Notice::one(NoticeId::SelfReference, subject));
        }
        assert(self@.outputs[a as int] == self.outputs@[a as int]@);
        assert(self@.outputs[s as int] == self.outputs@[s as int]@);
        let (x, y) = spot_for(relation, &self.outputs[a], &self.outputs[s]);
        self.outputs[s].x = x as i32;
        self.outputs[s].y = y as i32;
        assert(self@.outputs =~= old(self)@.outputs.update(
            s as int,
            old(self)@.outputs[s as int].at(x as int, y as int),
        ));
        Ok(())
    }

    /// Whether two layouts are the same.
    pub fn same_as(&self, other: &Layout) -> (r: bool)
        ensures
            r == (self@ == other@),
    {
        assert(self@.outputs.len() == self.outputs@.len());
        assert(other@.outputs.len() == other.outputs@.len());
        if self.outputs.len() != other.outputs.len() || !same_opt(&self.primary, &other.primary) {
            return false;
        }
        let mut i: usize = 0;
        while i < self.outputs.len()
            invariant
                i <= self.outputs@.len(),
                self.outputs@.len() == other.outputs@.len(),
                forall|k: int|
                    0 <= k < i ==> #[trigger] self@.outputs[k] == other@.outputs[k],
            decreases self.outputs@.len() - i,
        {
            if !self.outputs[i].same_as(&other.outputs[i]) {
                assert(self@.outputs[i as int] != other@.outputs[i as int]);
                return false;
            }
            i = i + 1;
        }
        assert(self@.outputs =~= other@.outputs);
        true
    }
}

/// The layout that reflects the live state.
pub open spec fn live_layout(monitors: Seq<Monitor>) -> LayoutView {
    LayoutView {
        outputs: Seq::new(monitors.len(), |i: int| output_of(monitors[i], monitors)),
        primary: None,
    }
}

// ---------------------------------------------------------------- placement

pub open spec fn least_x(s: Seq<OutputView>) -> int
    decreases s.len(),
{
    if s.len() == 0 {
        0
    } else if s.len() == 1 || s.last().x < least_x(s.drop_last()) {
        s.last().x
    } else {
        least_x(s.drop_last())
    }
}

pub open spec fn least_y(s: Seq<OutputView>) -> int
    decreases s.len(),
{
    if s.len() == 0 {
        0
    } else if s.len() == 1 || s.last().y < least_y(s.drop_last()) {
        s.last().y
    } else {
        least_y(s.drop_last())
    }
}

/// The widths of the outputs that take up space ahead of position `i`, but for
/// the main screen's.
pub open spec fn widths_before(l: LayoutView, i: int) -> int
    decreases i,
{
    if i <= 0 {
        0
    } else {
        widths_before(l, i - 1) + if l.outputs[i - 1].occupies() && l.primary_at() != Some(i - 1) {
            l.outputs[i - 1].size().0
        } else {
            0
        }
    }
}

/// Placement relations between two outputs.
#[derive(Debug, Clone, Copy, PartialEq, Eq, Structural)]
pub enum Relation {
    LeftOf,
    RightOf,
    Above,
    Below,
    SameAs,
}

/// Where an output comes to stand against another one.
pub open spec fn spot(relation: Relation, anchor: OutputView, subject: OutputView) -> (int, int) {
    match relation {
        Relation::LeftOf => (anchor.x - subject.size().0, anchor.y),
        Relation::RightOf => (anchor.x + anchor.size().0, anchor.y),
        Relation::Above => (anchor.x, anchor.y - subject.size().1),
        Relation::Below => (anchor.x, anchor.y + anchor.size().1),
        Relation::SameAs => (anchor.x, anchor.y),
    }
}

fn spot_for(relation: Relation, anchor: &OutputState, subject: &OutputState) -> (r: (i64, i64))
    ensures
        (r.0 as int, r.1 as int) == spot(relation, anchor@, subject@),
{
    let (aw, ah) = anchor.logical_size_rounded();
    let (sw, sh) = subject.logical_size_rounded();
    let x: i64 = anchor.x as i64;
    let y: i64 = anchor.y as i64;
    match relation {
        Relation::LeftOf => (x - sw as i64, y),
        Relation::RightOf => (x + aw as i64, y),
        Relation::Above => (x, y - sh as i64),
        Relation::Below => (x, y + ah as i64),
        Relation::SameAs => (x, y),
    }
}

impl LayoutView {
    /// The main screen's corner, or the top-left corner of what takes up space.
    pub open spec fn anchor(self) -> (int, int) {
        match self.primary_at() {
            Some(i) => (self.outputs[i].x, self.outputs[i].y),
            None => (least_x(active_of(self.outputs)), least_y(active_of(self.outputs))),
        }
    }

    /// The layout with its anchor at the origin; what takes no space stays.
    pub open spec fn normalized(self) -> LayoutView {
        let (ax, ay) = self.anchor();
        LayoutView {
            outputs: Seq::new(
                self.outputs.len(),
                |i: int|
                    if self.outputs[i].occupies() {
                        self.outputs[i].at(self.outputs[i].x - ax, self.outputs[i].y - ay)
                    } else {
                        self.outputs[i]
                    },
            ),
            primary: self.primary,
        }
    }

    pub open spec fn normalizable(self) -> bool {
        forall|i: int|
            0 <= i < self.outputs.len() && (#[trigger] self.outputs[i]).occupies() ==> fits_i32(
                self.outputs[i].x - self.anchor().0,
            ) && fits_i32(self.outputs[i].y - self.anchor().1)
    }

    /// Where the outputs behind the main screen begin.
    pub open spec fn row_start(self) -> int {
        match self.primary_at() {
            Some(p) => self.outputs[p].size().0,
            None => 0,
        }
    }

    /// Where an output begins in the row.
    pub open spec fn row_x(self, i: int) -> int {
        if self.primary_at() == Some(i) {
            0
        } else {
            self.row_start() + widths_before(self, i)
        }
    }

    /// The layout with what takes up space in a row, the main screen first.
    pub open spec fn arranged(self) -> LayoutView {
        LayoutView {
            outputs: Seq::new(
                self.outputs.len(),
                |i: int|
                    if self.outputs[i].occupies() {
                        self.outputs[i].at(self.row_x(i), 0)
                    } else {
                        self.outputs[i]
                    },
            ),
            primary: self.primary,
        }
    }

    pub open spec fn arrangeable(self) -> bool {
        forall|i: int|
            0 <= i < self.outputs.len() && (#[trigger] self.outputs[i]).occupies() ==> fits_i32(
                self.row_x(i),
            )
    }

    /// The layout with one output placed against another one.
    pub open spec fn placed(self, subject: Seq<char>, relation: Relation, anchor: Seq<char>) -> Result<
        LayoutView,
        NoticeView,
    > {
        match (named(self.outputs, anchor), named(self.outputs, subject)) {
            (None, _) => Err(note(NoticeId::UnknownAnchor, seq![anchor])),
            (_, None) => Err(note(NoticeId::UnknownOutput, seq![subject])),
            (Some(a), Some(s)) => if subject == anchor {
                Err(note(NoticeId::SelfReference, seq![subject]))
            } else {
                let (x, y) = spot(relation, self.outputs[a], self.outputs[s]);
                Ok(
                    LayoutView {
                        outputs: self.outputs.update(s, self.outputs[s].at(x, y)),
                        primary: self.primary,
                    },
                )
            },
        }
    }

    pub open spec fn placeable(self, subject: Seq<char>, relation: Relation, anchor: Seq<char>) -> bool {
        match (named(self.outputs, anchor), named(self.outputs, subject)) {
            (Some(a), Some(s)) => subject != anchor ==> {
                let (x, y) = spot(relation, self.outputs[a], self.outputs[s]);
                fits_i32(x) && fits_i32(y)
            },
            _ => true,
        }
    }
}

proof fn lemma_least(s: Seq<OutputView>)
    ensures
        forall|i: int| 0 <= i < s.len() ==> least_x(s) <= (#[trigger] s[i]).x && least_y(s) <= s[i].y,
        s.len() > 0 ==> (exists|i: int| 0 <= i < s.len() && (#[trigger] s[i]).x == least_x(s)) && (
        exists|i: int| 0 <= i < s.len() && (#[trigger] s[i]).y == least_y(s)),
    decreases s.len(),
{
    if s.len() > 0 {
        let body = s.drop_last();
        lemma_least(body);
        assert forall|i: int| 0 <= i < s.len() implies least_x(s) <= (#[trigger] s[i]).x && least_y(
            s,
        ) <= s[i].y by {
            if i < body.len() {
                assert(body[i] == s[i]);
            }
        }
        assert(s[s.len() - 1] == s.last());
        if body.len() > 0 {
            let i = choose|i: int| 0 <= i < body.len() && (#[trigger] body[i]).x == least_x(body);
            let j = choose|j: int| 0 <= j < body.len() && (#[trigger] body[j]).y == least_y(body);
            assert(s[i] == body[i] && s[j] == body[j]);
        }
    }
}

proof fn lemma_named_keeps(a: Seq<OutputView>, b: Seq<OutputView>, name: Seq<char>, i: int)
    requires
        a.len() == b.len(),
        forall|k: int| 0 <= k < a.len() ==> (#[trigger] a[k]).name == b[k].name,
    ensures
        named_from(a, name, i) == named_from(b, name, i),
    decreases a.len() - i,
{
    if 0 <= i < a.len() {
        assert(a[i].name == b[i].name);
        if a[i].name != name {
            lemma_named_keeps(a, b, name, i + 1);
        }
    }
}

/// Normalizing keeps the main screen, puts it at the origin, and moves
/// everything that takes up space by the same amount. Without a main screen the
/// least coordinates become zero. What is normalized is left as it is.
pub proof fn normalizing_anchors_the_layout(l: LayoutView)
    ensures
        l.normalized().primary_at() == l.primary_at(),
        l.primary_at() is Some ==> ({
            let o = l.normalized().outputs[l.primary_at().unwrap()];
            o.x == 0 && o.y == 0
        }),
        l.normalized().anchor() == (0int, 0int),
        forall|i: int, j: int|
            0 <= i < l.outputs.len() && 0 <= j < l.outputs.len() && (
            #[trigger] l.outputs[i]).occupies() && (#[trigger] l.outputs[j]).occupies() ==> {
                let a = l.normalized().outputs[i];
                let b = l.normalized().outputs[j];
                a.x - b.x == l.outputs[i].x - l.outputs[j].x && a.y - b.y == l.outputs[i].y
                    - l.outputs[j].y
            },
        l.normalized().normalized() == l.normalized(),
{
    let n = l.normalized();
    let (ax, ay) = l.anchor();
    if let Some(name) = l.primary {
        lemma_named(l.outputs, name, 0);
        lemma_named_keeps(l.outputs, n.outputs, name, 0);
    }
    if l.primary_at() is None {
        lemma_active_shift(l.outputs, n.outputs, ax, ay);
        let a = active_of(l.outputs);
        let b = active_of(n.outputs);
        lemma_least(a);
        lemma_least(b);
        if a.len() > 0 {
            let i = choose|i: int| 0 <= i < a.len() && (#[trigger] a[i]).x == least_x(a);
            let j = choose|j: int| 0 <= j < a.len() && (#[trigger] a[j]).y == least_y(a);
            assert(b[i].x == 0 && b[j].y == 0);
            let p = choose|p: int| 0 <= p < b.len() && (#[trigger] b[p]).x == least_x(b);
            let q = choose|q: int| 0 <= q < b.len() && (#[trigger] b[q]).y == least_y(b);
            assert(b[p].x == a[p].x - ax && b[q].y == a[q].y - ay);
        }
    }
    assert(n.anchor() == (0int, 0int));
    assert(n.normalized().outputs =~= n.outputs);
}

proof fn lemma_active_shift(a: Seq<OutputView>, b: Seq<OutputView>, dx: int, dy: int)
    requires
        a.len() == b.len(),
        forall|i: int|
            0 <= i < a.len() ==> #[trigger] b[i] == if a[i].occupies() {
                a[i].at(a[i].x - dx, a[i].y - dy)
            } else {
                a[i]
            },
    ensures
        active_of(a).len() == active_of(b).len(),
        forall|i: int|
            0 <= i < active_of(a).len() ==> #[trigger] active_of(b)[i] == active_of(a)[i].at(
                active_of(a)[i].x - dx,
                active_of(a)[i].y - dy,
            ),
    decreases a.len(),
{
    reveal(Seq::filter);
    if a.len() > 0 {
        let p = a.drop_last();
        let q = b.drop_last();
        assert forall|i: int| 0 <= i < p.len() implies #[trigger] q[i] == if p[i].occupies() {
            p[i].at(p[i].x - dx, p[i].y - dy)
        } else {
            p[i]
        } by {
            assert(b[i] == q[i]);
        }
        lemma_active_shift(p, q, dx, dy);
        assert(b[a.len() - 1] == b.last());
    }
}

/// The outputs that take up space have no negative size.
pub open spec fn sized(l: LayoutView) -> bool {
    forall|i: int|
        0 <= i < l.outputs.len() && (#[trigger] l.outputs[i]).occupies() ==> l.outputs[i].size().0
            >= 0 && l.outputs[i].size().1 >= 0
}

proof fn lemma_widths(l: LayoutView, i: int, j: int)
    requires
        sized(l),
        0 <= i <= j <= l.outputs.len(),
    ensures
        widths_before(l, i) >= 0,
        widths_before(l, i) <= widths_before(l, j),
        i < j && l.outputs[i].occupies() && l.primary_at() != Some(i) ==> widths_before(l, i)
            + l.outputs[i].size().0 <= widths_before(l, j),
    decreases j,
{
    if j > 0 {
        if i == j {
            lemma_widths(l, i - 1, j - 1);
        } else {
            lemma_widths(l, i, j - 1);
        }
        assert(l.outputs[j - 1].occupies() ==> l.outputs[j - 1].size().0 >= 0);
    }
}

/// Outputs in a row do not overlap, and the main screen opens the row.
pub proof fn arranging_leaves_no_overlap(l: LayoutView)
    requires
        sized(l),
    ensures
        forall|i: int, j: int|
            0 <= i < j < l.outputs.len() && (#[trigger] l.outputs[i]).occupies() && (
            #[trigger] l.outputs[j]).occupies() ==> !overlapping(
                l.arranged().outputs[i].area(),
                l.arranged().outputs[j].area(),
            ),
        l.primary_at() is Some ==> ({
            let o = l.arranged().outputs[l.primary_at().unwrap()];
            o.x == 0 && o.y == 0
        }),
        forall|i: int|
            0 <= i < l.outputs.len() && (#[trigger] l.outputs[i]).occupies()
                ==> l.arranged().outputs[i].x >= 0 && l.arranged().outputs[i].y == 0,
        l.arranged().overlap_issues() == Seq::<IssueView>::empty(),
{
    if let Some(name) = l.primary {
        lemma_named(l.outputs, name, 0);
    }
    if let Some(p) = l.primary_at() {
        assert(l.outputs[p].size().0 >= 0);
    }
    let outs = l.arranged().outputs;
    assert forall|i: int| 0 <= i < l.outputs.len() && (#[trigger] l.outputs[i]).occupies() implies outs[i].x
        >= 0 && outs[i].y == 0 by {
        lemma_widths(l, i, i);
    }
    assert forall|i: int, j: int|
        0 <= i < j < l.outputs.len() && (#[trigger] l.outputs[i]).occupies() && (
        #[trigger] l.outputs[j]).occupies() implies !overlapping(outs[i].area(), outs[j].area()) by {
        lemma_widths(l, i, j);
        lemma_widths(l, 0, i);
        assert(outs[i].size() == l.outputs[i].size());
        assert(outs[j].size() == l.outputs[j].size());
    }
    let active = active_of(outs);
    assert forall|a: int, b: int| 0 <= a < b < active.len() implies !overlapping(
        (#[trigger] active[a]).area(),
        (#[trigger] active[b]).area(),
    ) by {
        let (i, j) = lemma_active_pair(outs, a, b);
        assert(l.outputs[i].occupies() && l.outputs[j].occupies());
    }
    lemma_no_overlap_issues(active, active.len() as int);
}

/// Two of the elements that pass the filter, in order, are two of the outputs,
/// in order.
proof fn lemma_active_pair(outputs: Seq<OutputView>, a: int, b: int) -> (r: (int, int))
    requires
        0 <= a < b < active_of(outputs).len(),
    ensures
        0 <= r.0 < r.1 < outputs.len(),
        outputs[r.0] == active_of(outputs)[a],
        outputs[r.1] == active_of(outputs)[b],
        outputs[r.0].occupies(),
        outputs[r.1].occupies(),
    decreases outputs.len(),
{
    reveal(Seq::filter);
    let body = outputs.drop_last();
    if b < active_of(body).len() {
        lemma_active_pair(body, a, b)
    } else {
        let i = lemma_active_from(body, a);
        (i, outputs.len() - 1)
    }
}

proof fn lemma_gather_nothing<T>(f: spec_fn(int) -> Seq<T>, n: int)
    requires
        forall|i: int| 0 <= i < n ==> #[trigger] f(i) == Seq::<T>::empty(),
    ensures
        gather(f, n) == Seq::<T>::empty(),
    decreases n,
{
    if n > 0 {
        lemma_gather_nothing(f, n - 1);
        assert(f(n - 1) == Seq::<T>::empty());
        assert(gather(f, n) =~= Seq::<T>::empty());
    }
}

proof fn lemma_no_overlap_issues(active: Seq<OutputView>, n: int)
    requires
        n == active.len(),
        forall|a: int, b: int|
            0 <= a < b < active.len() ==> !overlapping(
                (#[trigger] active[a]).area(),
                (#[trigger] active[b]).area(),
            ),
    ensures
        gather(|i: int| overlaps_of(active, i), n) == Seq::<IssueView>::empty(),
{
    let f = |i: int| overlaps_of(active, i);
    assert forall|i: int| 0 <= i < n implies #[trigger] f(i) == Seq::<IssueView>::empty() by {
        let g = |j: int|
            if j > i {
                overlap_issue(active[i], active[j])
            } else {
                Seq::empty()
            };
        assert forall|j: int| 0 <= j < n implies #[trigger] g(j) == Seq::<IssueView>::empty() by {
            if j > i {
                assert(!overlapping(active[i].area(), active[j].area()));
            }
        }
        lemma_gather_nothing(g, n);
        assert(overlaps_of(active, i) == gather(g, n));
    }
    lemma_gather_nothing(f, n);
}

/// A row is anchored where it is: normalizing it moves nothing down or up, and
/// not its main screen.
pub proof fn lemma_row_anchor(l: LayoutView)
    requires
        sized(l),
    ensures
        l.arranged().anchor().1 == 0,
        l.arranged().primary_at() == l.primary_at(),
{
    let r = l.arranged();
    if let Some(name) = l.primary {
        lemma_named(l.outputs, name, 0);
        lemma_named_keeps(l.outputs, r.outputs, name, 0);
    }
    arranging_leaves_no_overlap(l);
    let a = active_of(r.outputs);
    lemma_least(a);
    if r.primary_at() is None && a.len() > 0 {
        let j = choose|j: int| 0 <= j < a.len() && (#[trigger] a[j]).y == least_y(a);
        let i = lemma_active_from(r.outputs, j);
        assert(l.outputs[i].occupies());
    }
}

/// In a row every output but the first begins where another one ends; with
/// positive sizes it therefore touches that one.
pub proof fn arranging_leaves_no_gap(l: LayoutView, i: int) -> (k: int)
    requires
        sized(l),
        0 <= i < l.outputs.len(),
        l.outputs[i].occupies(),
        l.row_x(i) != 0,
    ensures
        0 <= k < l.outputs.len(),
        k != i,
        l.outputs[k].occupies(),
        l.arranged().outputs[k].area().2 == l.arranged().outputs[i].area().0,
        l.outputs[i].size().1 > 0 && l.outputs[k].size().1 > 0 ==> touching(
            l.arranged().outputs[i].area(),
            l.arranged().outputs[k].area(),
        ),
{
    if let Some(name) = l.primary {
        lemma_named(l.outputs, name, 0);
    }
    let outs = l.arranged().outputs;
    assert(outs[i].size() == l.outputs[i].size());
    if widths_before(l, i) == 0 {
        let p = l.primary_at().unwrap();
        assert(outs[p].size() == l.outputs[p].size());
        p
    } else {
        let k = lemma_previous(l, i);
        assert(outs[k].size() == l.outputs[k].size());
        k
    }
}

proof fn lemma_previous(l: LayoutView, i: int) -> (k: int)
    requires
        0 <= i <= l.outputs.len(),
        widths_before(l, i) != 0,
    ensures
        0 <= k < i,
        l.outputs[k].occupies(),
        l.primary_at() != Some(k),
        widths_before(l, k) + l.outputs[k].size().0 == widths_before(l, i),
    decreases i,
{
    if l.outputs[i - 1].occupies() && l.primary_at() != Some(i - 1) {
        i - 1
    } else {
        lemma_previous(l, i - 1)
    }
}

/// An output that is placed beside another one shares an edge with it and does
/// not overlap it, where both have an area; placed on it, it shares its corner.
/// Every other output stays where it is.
pub proof fn placing_attaches_the_subject(
    l: LayoutView,
    subject: Seq<char>,
    relation: Relation,
    anchor: Seq<char>,
)
    requires
        l.placed(subject, relation, anchor) is Ok,
    ensures
        ({
            let a = named(l.outputs, anchor).unwrap();
            let s = named(l.outputs, subject).unwrap();
            let r = l.placed(subject, relation, anchor)->Ok_0;
            let p = l.outputs[a].size();
            let q = l.outputs[s].size();
            &&& r.outputs.len() == l.outputs.len()
            &&& r.outputs[a] == l.outputs[a]
            &&& forall|i: int|
                0 <= i < l.outputs.len() && i != s ==> #[trigger] r.outputs[i] == l.outputs[i]
            &&& relation == Relation::SameAs ==> r.outputs[s].x == l.outputs[a].x && r.outputs[s].y
                == l.outputs[a].y
            &&& relation != Relation::SameAs && p.0 > 0 && p.1 > 0 && q.0 > 0 && q.1 > 0
                ==> touching(r.outputs[s].area(), r.outputs[a].area()) && !overlapping(
                r.outputs[s].area(),
                r.outputs[a].area(),
            )
        }),
{
    lemma_named(l.outputs, anchor, 0);
    lemma_named(l.outputs, subject, 0);
    let s = named(l.outputs, subject).unwrap();
    let r = l.placed(subject, relation, anchor)->Ok_0;
    assert(r.outputs[s].size() == l.outputs[s].size());
}

/// The relation that a word stands for, in either language.
pub open spec fn relation_named(word: Seq<char>) -> Option<Relation> {
    if word == "left-of"@ || word == "gauche-de"@ || word == "left"@ {
        Some(Relation::LeftOf)
    } else if word == "right-of"@ || word == "droite-de"@ || word == "right"@ {
        Some(Relation::RightOf)
    } else if word == "above"@ || word == "au-dessus-de"@ || word == "up"@ {
        Some(Relation::Above)
    } else if word == "below"@ || word == "en-dessous-de"@ || word == "down"@ {
        Some(Relation::Below)
    } else if word == "same-as"@ || word == "mirror-position"@ {
        Some(Relation::SameAs)
    } else {
        None
    }
}

/// A relation as it is written: case does not matter, nor `_` for `-`.
pub open spec fn relation_word(s: Seq<char>) -> Seq<char> {
    replace(ascii_lowercase(s), "_"@, "-"@)
}

impl Relation {
    pub fn parse(s: &str) -> (r: Result<Self, Notice>)
        ensures
            match (r, relation_named(relation_word(s@))) {
                (Ok(a), Some(b)) => a == b,
                (Err(e), None) => e@ == note(NoticeId::UnknownRelation, seq![relation_word(s@)]),
                _ => false,
            },
    {
        proof {
            reveal_strlit("_");
        }
        let lowered = replaced(lowered_ascii(s).as_str(), "_", "-");
        let word = lowered.as_str();
        if same(word, "left-of") || same(word, "gauche-de") || same(word, "left") {
            Ok(Relation::LeftOf)
        } else if same(word, "right-of") || same(word, "droite-de") || same(word, "right") {
            Ok(Relation::RightOf)
        } else if same(word, "above") || same(word, "au-dessus-de") || same(word, "up") {
            Ok(Relation::Above)
        } else if same(word, "below") || same(word, "en-dessous-de") || same(word, "down") {
            Ok(Relation::Below)
        } else if same(word, "same-as") || same(word, "mirror-position") {
            Ok(Relation::SameAs)
        } else {
            Err(Notice::one(NoticeId::UnknownRelation, word))
        }
    }
}

impl std::str::FromStr for Relation {
    type Err = Notice;

    fn from_str(s: &str) -> (r: Result<Self, Notice>)
        ensures
            match (r, relation_named(relation_word(s@))) {
                (Ok(a), Some(b)) => a == b,
                (Err(e), None) => e@ == note(NoticeId::UnknownRelation, seq![relation_word(s@)]),
                _ => false,
            },
    {
        Relation::parse(s)
    }
}

} // verus!
