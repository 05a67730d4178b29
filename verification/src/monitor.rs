//! The model of a monitor as a compositor reports it, plus the rotation and
//! mode types that revolve around it.

use vstd::prelude::*;

use crate::fixed::{Fixed, UNIT};
use crate::notice::{note, Notice, NoticeId, NoticeView};
use crate::number::{
    int_string, int_text, nat_string, nat_text, parse_between, parse_bounded, parse_nanos,
    parse_nanos_of, ratio_string, ratio_text,
};
use crate::text::{
    halves, join, joined, same, slice_string, split_once, strip_end, stripped_end, to_chars, trim,
    trimmed, view_opt, views,
};

verus! {

/// Rotation applied to a monitor, in clockwise degrees.
#[derive(Debug, Clone, Copy, PartialEq, Eq, Structural)]
pub enum Rotation {
    R0,
    R90,
    R180,
    R270,
}

impl Default for Rotation {
    fn default() -> (r: Self)
        ensures
            r == Rotation::R0,
    {
        Rotation::R0
    }
}

impl Rotation {
    pub open spec fn angle(self) -> int {
        match self {
            Rotation::R0 => 0,
            Rotation::R90 => 90,
            Rotation::R180 => 180,
            Rotation::R270 => 270,
        }
    }

    pub open spec fn quarter_turns(self) -> int {
        self.angle() / 90
    }

    /// Whether the rotation swaps width and height.
    pub open spec fn swaps(self) -> bool {
        self == Rotation::R90 || self == Rotation::R270
    }

    pub fn degrees(self) -> (r: u16)
        ensures
            r == self.angle(),
    {
        match self {
            Rotation::R0 => 0,
            Rotation::R90 => 90,
            Rotation::R180 => 180,
            Rotation::R270 => 270,
        }
    }

    /// The rotation by a whole number of quarter turns.
    pub fn from_degrees(deg: u16) -> (r: Result<Self, Notice>)
        ensures
            match r {
                Ok(x) => x.angle() == deg % 360,
                Err(e) => deg % 90 != 0 && e@ == note(
                    NoticeId::InvalidRotation,
                    seq![nat_text((deg % 360) as nat)],
                ),
            },
    {
        let d: u16 = deg % 360;
        if d == 0 {
            Ok(Rotation::R0)
        } else if d == 90 {
            Ok(Rotation::R90)
        } else if d == 180 {
            Ok(Rotation::R180)
        } else if d == 270 {
            Ok(Rotation::R270)
        } else {
            Err(Notice::one(NoticeId::InvalidRotation, nat_string(d as u128).as_str()))
        }
    }

    /// True when the rotation swaps width and height.
    pub fn swaps_axes(self) -> (r: bool)
        ensures
            r == self.swaps(),
    {
        matches!(self, Rotation::R90 | Rotation::R270)
    }

    fn index(self) -> (r: u8)
        ensures
            r == self.quarter_turns(),
    {
        match self {
            Rotation::R0 => 0,
            Rotation::R90 => 1,
            Rotation::R180 => 2,
            Rotation::R270 => 3,
        }
    }
}

/// Rotation + flip, encoded into a single value.
///
/// | transform | 0 | 1  | 2   | 3   | 4 | 5  | 6   | 7   |
/// |-----------|---|----|-----|-----|---|----|-----|-----|
/// | rotation  | 0 | 90 | 180 | 270 | 0 | 90 | 180 | 270 |
/// | flipped   | n | n  | n   | n   | y | y  | y   | y   |
#[derive(Debug, Clone, Copy, PartialEq, Eq, Structural)]
pub struct Transform {
    pub rotation: Rotation,
    pub flipped: bool,
}

impl Default for Transform {
    fn default() -> (r: Self)
        ensures
            r == Transform::upright(),
    {
        Transform { rotation: Rotation::R0, flipped: false }
    }
}

impl Transform {
    pub open spec fn upright() -> Self {
        Transform { rotation: Rotation::R0, flipped: false }
    }

    /// The single value that encodes the transform.
    pub open spec fn code(self) -> int {
        self.rotation.quarter_turns() + if self.flipped {
            4int
        } else {
            0int
        }
    }

    pub fn new(rotation: Rotation, flipped: bool) -> (r: Self)
        ensures
            r == (Transform { rotation, flipped }),
    {
        Transform { rotation, flipped }
    }

    pub fn to_u8(self) -> (r: u8)
        ensures
            r == self.code(),
            r <= 7,
    {
        self.rotation.index() + if self.flipped {
            4u8
        } else {
            0u8
        }
    }

    pub fn from_u8(v: u8) -> (r: Result<Self, Notice>)
        ensures
            match r {
                Ok(t) => t.code() == v,
                Err(e) => v > 7 && e@ == note(NoticeId::InvalidTransform, seq![nat_text(v as nat)]),
            },
    {
        if v > 7 {
            return Err(Notice::one(NoticeId::InvalidTransform, nat_string(v as u128).as_str()));
        }
        let q: u8 = v % 4;
        let rotation = if q == 0 {
            Rotation::R0
        } else if q == 1 {
            Rotation::R90
        } else if q == 2 {
            Rotation::R180
        } else {
            Rotation::R270
        };
        Ok(Transform { rotation, flipped: v >= 4 })
    }

    pub fn swaps_axes(self) -> (r: bool)
        ensures
            r == self.rotation.swaps(),
    {
        self.rotation.swaps_axes()
    }
}

/// The transform that a code stands for; an unknown code counts as upright.
pub open spec fn decoded(code: u8) -> Transform {
    Transform {
        rotation: if code > 7 || code % 4 == 0 {
            Rotation::R0
        } else if code % 4 == 1 {
            Rotation::R90
        } else if code % 4 == 2 {
            Rotation::R180
        } else {
            Rotation::R270
        },
        flipped: 4 <= code <= 7,
    }
}

/// Every transform is decoded from the code that it is encoded to, every code
/// up to seven is the code of what it is decoded to, and two transforms never
/// share a code.
pub proof fn transform_codes_round_trip(t: Transform, code: u8, other: Transform)
    ensures
        0 <= t.code() <= 7,
        decoded(t.code() as u8) == t,
        code <= 7 ==> decoded(code).code() == code,
        t.code() == other.code() ==> t == other,
{
}

/// A display mode: resolution + refresh rate.
#[derive(Debug, Clone, Copy, PartialEq, Eq, Structural)]
pub struct Mode {
    pub width: i32,
    pub height: i32,
    pub refresh: Fixed,
}

/// Where the first `x` or `X` at or after `i` stands.
pub open spec fn cross_from(s: Seq<char>, i: int) -> Option<int>
    decreases s.len() - i,
{
    if i < 0 || i >= s.len() {
        None
    } else if s[i] == 'x' || s[i] == 'X' {
        Some(i)
    } else {
        cross_from(s, i + 1)
    }
}

/// A mode with its `Hz` taken off.
pub open spec fn bare_mode(s: Seq<char>) -> Seq<char> {
    strip_end(strip_end(trim(s), "Hz"@), "hz"@)
}

/// `WIDTHxHEIGHT` with the given refresh rate; `s` is the whole text.
pub open spec fn read_resolution(s: Seq<char>, res: Seq<char>, nanos: int) -> Result<
    Mode,
    NoticeView,
> {
    match cross_from(res, 0) {
        None => Err(note(NoticeId::InvalidMode, seq![s])),
        Some(i) => match parse_between(trim(res.take(i)), i32::MIN as int, i32::MAX as int) {
            None => Err(note(NoticeId::InvalidWidth, seq![s])),
            Some(w) => match parse_between(
                trim(res.skip(i + 1)),
                i32::MIN as int,
                i32::MAX as int,
            ) {
                None => Err(note(NoticeId::InvalidHeight, seq![s])),
                Some(h) => Ok(
                    Mode {
                        width: w as i32,
                        height: h as i32,
                        refresh: Fixed { nanos: nanos as i64 },
                    },
                ),
            },
        },
    }
}

/// What a text says as a mode: `1920x1080`, `1920x1080@60`, `1920x1080@60.06Hz`.
pub open spec fn read_mode(text: Seq<char>) -> Result<Mode, NoticeView> {
    let s = bare_mode(text);
    match split_once(s, "@"@) {
        Some(p) => match parse_nanos(trim(p.1)) {
            Some(n) => read_resolution(s, p.0, n),
            None => Err(note(NoticeId::InvalidRefresh, seq![s])),
        },
        None => read_resolution(s, s, 0),
    }
}

/// What came back stands for what was promised.
pub open spec fn agrees(r: Result<Mode, Notice>, want: Result<Mode, NoticeView>) -> bool {
    match (r, want) {
        (Ok(a), Ok(b)) => a == b,
        (Err(a), Err(b)) => a@ == b,
        _ => false,
    }
}

impl Mode {
    pub fn new(width: i32, height: i32, refresh: Fixed) -> (r: Self)
        ensures
            r == (Mode { width, height, refresh }),
    {
        Mode { width, height, refresh }
    }

    /// `1920x1080@60.00`, or `1920x1080` where the refresh rate is open.
    pub open spec fn shown(self) -> Seq<char> {
        let size = int_text(self.width as int) + "x"@ + int_text(self.height as int);
        if self.refresh.nanos > 0 {
            size + "@"@ + ratio_text(self.refresh.nanos as int, UNIT as int, 2)
        } else {
            size
        }
    }

    pub fn text(self) -> (r: String)
        ensures
            r@ == self.shown(),
    {
        let mut s = int_string(self.width as i64);
        s.append("x");
        s.append(int_string(self.height as i64).as_str());
        if self.refresh.nanos > 0 {
            s.append("@");
            s.append(ratio_string(self.refresh.nanos, UNIT, 2).as_str());
        }
        s
    }

    /// Accepts `1920x1080`, `1920x1080@60`, `1920x1080@60.06Hz`.
    pub fn parse(text: &str) -> (r: Result<Self, Notice>)
        ensures
            agrees(r, read_mode(text@)),
    {
        let bare = stripped_end(stripped_end(trimmed(text).as_str(), "Hz").as_str(), "hz");
        let s = bare.as_str();
        match halves(s, "@") {
            Some((res, rate)) => match parse_nanos_of(trimmed(rate.as_str()).as_str()) {
                Some(n) => Mode::parse_resolution(s, res.as_str(), n),
                None => Err(Notice::one(NoticeId::InvalidRefresh, s)),
            },
            None => Mode::parse_resolution(s, s, 0),
        }
    }

    fn parse_resolution(s: &str, res: &str, nanos: i64) -> (r: Result<Self, Notice>)
        ensures
            agrees(r, read_resolution(s@, res@, nanos as int)),
    {
        let v = to_chars(res);
        let mut i: usize = 0;
        while i < v.len() && v[i] != 'x' && v[i] != 'X'
            invariant
                i <= v@.len(),
                cross_from(v@, 0) == cross_from(v@, i as int),
            decreases v@.len() - i,
        {
            i = i + 1;
        }
        if i == v.len() {
            return Err(Notice::one(NoticeId::InvalidMode, s));
        }
        let w = slice_string(&v, 0, i);
        let h = slice_string(&v, i + 1, v.len());
        assert(w@ =~= res@.take(i as int));
        assert(h@ =~= res@.skip(i + 1));
        match parse_bounded(trimmed(w.as_str()).as_str(), i32::MIN as i64, i32::MAX as i64) {
            None => Err(Notice::one(NoticeId::InvalidWidth, s)),
            Some(width) => match parse_bounded(
                trimmed(h.as_str()).as_str(),
                i32::MIN as i64,
                i32::MAX as i64,
            ) {
                None => Err(Notice::one(NoticeId::InvalidHeight, s)),
                Some(height) => Ok(
                    Mode {
                        width: width as i32,
                        height: height as i32,
                        refresh: Fixed { nanos },
                    },
                ),
            },
        }
    }

    pub open spec fn area(self) -> int {
        self.width * self.height
    }

    /// Larger, or as large and faster.
    pub open spec fn beats(self, other: Mode) -> bool {
        self.area() > other.area() || (self.area() == other.area() && self.refresh.nanos
            > other.refresh.nanos)
    }

    fn is_ahead_of(self, other: Mode) -> (r: bool)
        ensures
            r == self.beats(other),
    {
        proof {
            assert(-0x4000_0000_0000_0000 <= self.width * self.height <= 0x4000_0000_0000_0000)
                by (nonlinear_arith)
                requires
                    -0x8000_0000 <= self.width <= 0x7fff_ffff,
                    -0x8000_0000 <= self.height <= 0x7fff_ffff,
            ;
            assert(-0x4000_0000_0000_0000 <= other.width * other.height <= 0x4000_0000_0000_0000)
                by (nonlinear_arith)
                requires
                    -0x8000_0000 <= other.width <= 0x7fff_ffff,
                    -0x8000_0000 <= other.height <= 0x7fff_ffff,
            ;
        }
        let a: i64 = self.width as i64 * self.height as i64;
        let b: i64 = other.width as i64 * other.height as i64;
        a > b || (a == b && self.refresh.nanos > other.refresh.nanos)
    }
}

impl std::str::FromStr for Mode {
    type Err = Notice;

    fn from_str(s: &str) -> (r: Result<Self, Notice>)
        ensures
            agrees(r, read_mode(s@)),
    {
        Mode::parse(s)
    }
}

/// The modes that the texts stand for, each once, in the order in which they
/// first occur; a text that is no mode is passed over.
pub open spec fn read_modes(texts: Seq<Seq<char>>) -> Seq<Mode>
    decreases texts.len(),
{
    if texts.len() == 0 {
        Seq::empty()
    } else {
        let before = read_modes(texts.drop_last());
        match read_mode(texts.last()) {
            Ok(m) => if before.contains(m) {
                before
            } else {
                before.push(m)
            },
            Err(_) => before,
        }
    }
}

/// `sorted` with `m` behind every mode that `m` does not beat.
pub open spec fn ranked_with(sorted: Seq<Mode>, m: Mode) -> Seq<Mode>
    decreases sorted.len(),
{
    if sorted.len() > 0 && m.beats(sorted.last()) {
        ranked_with(sorted.drop_last(), m).push(sorted.last())
    } else {
        sorted.push(m)
    }
}

/// The modes from the largest down, the faster first among equally large ones,
/// and otherwise in the order given.
pub open spec fn ranked(modes: Seq<Mode>) -> Seq<Mode>
    decreases modes.len(),
{
    if modes.len() == 0 {
        Seq::empty()
    } else {
        ranked_with(ranked(modes.drop_last()), modes.last())
    }
}

/// No mode stands behind one that it beats.
pub open spec fn in_rank_order(modes: Seq<Mode>) -> bool {
    forall|i: int, j: int| 0 <= i < j < modes.len() ==> !(#[trigger] modes[j]).beats(#[trigger] modes[i])
}

proof fn lemma_ranked_with(sorted: Seq<Mode>, m: Mode)
    requires
        in_rank_order(sorted),
    ensures
        in_rank_order(ranked_with(sorted, m)),
        ranked_with(sorted, m).to_multiset() == sorted.to_multiset().insert(m),
        ranked_with(sorted, m).len() == sorted.len() + 1,
    decreases sorted.len(),
{
    broadcast use vstd::seq_lib::group_to_multiset_ensures;

    let r = ranked_with(sorted, m);
    if sorted.len() > 0 && m.beats(sorted.last()) {
        let body = sorted.drop_last();
        assert(in_rank_order(body));
        lemma_ranked_with(body, m);
        let s = ranked_with(body, m);
        assert(sorted =~= body.push(sorted.last()));
        assert(r.to_multiset() =~= sorted.to_multiset().insert(m));
        assert forall|i: int, j: int| 0 <= i < j < r.len() implies !(#[trigger] r[j]).beats(
            #[trigger] r[i],
        ) by {
            if j == r.len() - 1 {
                assert(r[i] == s[i]);
                assert(s.to_multiset().count(s[i]) > 0);
                if s[i] != m {
                    assert(body.to_multiset().count(s[i]) > 0);
                    assert(body.contains(s[i]));
                    let k = choose|k: int| 0 <= k < body.len() && body[k] == s[i];
                    assert(sorted[k] == s[i]);
                    assert(!sorted[sorted.len() - 1].beats(sorted[k]));
                }
            } else {
                assert(r[i] == s[i] && r[j] == s[j]);
            }
        }
    } else {
        assert forall|i: int, j: int| 0 <= i < j < r.len() implies !(#[trigger] r[j]).beats(
            #[trigger] r[i],
        ) by {
            if j == sorted.len() {
                if i < sorted.len() - 1 {
                    assert(!sorted[sorted.len() - 1].beats(sorted[i]));
                }
            } else {
                assert(!sorted[j].beats(sorted[i]));
            }
        }
    }
}

/// Ranking keeps the modes and puts them in rank order: the first is one that
/// no other beats.
pub proof fn ranking_orders_the_modes(modes: Seq<Mode>)
    ensures
        in_rank_order(ranked(modes)),
        ranked(modes).to_multiset() == modes.to_multiset(),
        ranked(modes).len() == modes.len(),
        forall|m: Mode|
            modes.contains(m) ==> ranked(modes).len() > 0 && !(#[trigger] m.beats(ranked(modes)[0])),
    decreases modes.len(),
{
    broadcast use vstd::seq_lib::group_to_multiset_ensures;

    if modes.len() > 0 {
        let body = modes.drop_last();
        ranking_orders_the_modes(body);
        lemma_ranked_with(ranked(body), modes.last());
        assert(modes =~= body.push(modes.last()));
    }
    let r = ranked(modes);
    assert forall|m: Mode| modes.contains(m) implies r.len() > 0 && !(#[trigger] m.beats(r[0])) by {
        assert(modes.to_multiset().count(m) > 0);
        assert(r.contains(m));
        let k = choose|k: int| 0 <= k < r.len() && r[k] == m;
        if k > 0 {
            assert(!r[k].beats(r[0]));
        }
    }
}

/// A monitor as a compositor reports it.
#[derive(Debug, Clone, PartialEq, Eq)]
pub struct Monitor {
    pub id: i64,
    pub name: String,
    pub description: String,
    pub make: String,
    pub model: String,
    pub serial: String,
    pub width: i32,
    pub height: i32,
    pub refresh_rate: Fixed,
    pub x: i32,
    pub y: i32,
    pub scale: Fixed,
    pub transform: u8,
    pub focused: bool,
    pub disabled: bool,
    pub mirror_of: String,
    pub vrr: bool,
    pub available_modes: Vec<String>,
}

/// The first of the monitors with the given id.
pub open spec fn named_by_id(all: Seq<Monitor>, id: int) -> Option<Seq<char>>
    decreases all.len(),
{
    if all.len() == 0 {
        None
    } else if all[0].id == id {
        Some(all[0].name@)
    } else {
        named_by_id(all.skip(1), id)
    }
}

fn name_of_id(all: &[Monitor], id: i64) -> (r: Option<String>)
    ensures
        view_opt(r) == named_by_id(all@, id as int),
{
    let mut i: usize = 0;
    assert(all@.skip(0) =~= all@);
    while i < all.len()
        invariant
            i <= all@.len(),
            named_by_id(all@, id as int) == named_by_id(all@.skip(i as int), id as int),
        decreases all@.len() - i,
    {
        if all[i].id == id {
            return Some(all[i].name.clone());
        }
        assert(all@.skip(i as int).skip(1) =~= all@.skip(i + 1));
        i = i + 1;
    }
    None
}

/// `s` without the elements that equal the one before them.
pub open spec fn squeezed(s: Seq<Seq<char>>) -> Seq<Seq<char>>
    decreases s.len(),
{
    if s.len() <= 1 {
        s
    } else if s.last() == s[s.len() - 2] {
        squeezed(s.drop_last())
    } else {
        squeezed(s.drop_last()).push(s.last())
    }
}

/// The texts that are not empty.
pub open spec fn nonempty(parts: Seq<Seq<char>>) -> Seq<Seq<char>> {
    parts.filter(|p: Seq<char>| p.len() > 0)
}

impl Monitor {
    pub open spec fn current_mode(self) -> Mode {
        Mode { width: self.width, height: self.height, refresh: self.refresh_rate }
    }

    /// The connector that the monitor mirrors. A number is the id of another
    /// monitor; where no monitor has it, and otherwise, the text is the name.
    pub open spec fn mirrored(self, all: Seq<Monitor>) -> Option<Seq<char>> {
        let raw = trim(self.mirror_of@);
        if raw.len() == 0 || raw == "none"@ {
            None
        } else {
            match parse_between(raw, i64::MIN as int, i64::MAX as int) {
                Some(id) => match named_by_id(all, id) {
                    Some(name) => Some(name),
                    None => Some(raw),
                },
                None => Some(raw),
            }
        }
    }

    /// Make, model and serial number, as far as they are known; else the
    /// description; else the connector.
    pub open spec fn print(self) -> Seq<char> {
        let parts = nonempty(seq![trim(self.make@), trim(self.model@), trim(self.serial@)]);
        if parts.len() > 0 {
            join(parts, " "@)
        } else if trim(self.description@).len() > 0 {
            trim(self.description@)
        } else {
            self.name@
        }
    }

    /// Every text by which the monitor can be designated.
    pub open spec fn designations(self) -> Seq<Seq<char>> {
        let desc = trim(self.description@);
        let ids = seq![self.name@, self.print()];
        squeezed(
            if desc.len() > 0 {
                ids.push(desc).push("desc:"@ + desc)
            } else {
                ids
            },
        )
    }

    /// The modes that the monitor offers, from the largest and fastest down.
    pub open spec fn modes(self) -> Seq<Mode> {
        ranked(read_modes(views(self.available_modes@)))
    }

    pub open spec fn preferred(self) -> Option<Mode> {
        if self.modes().len() > 0 {
            Some(self.modes()[0])
        } else {
            None
        }
    }

    pub fn mode(&self) -> (r: Mode)
        ensures
            r == self.current_mode(),
    {
        Mode::new(self.width, self.height, self.refresh_rate)
    }

    pub fn transform(&self) -> (r: Transform)
        ensures
            r == decoded(self.transform),
    {
        match Transform::from_u8(self.transform) {
            Ok(t) => t,
            Err(_) => Transform::default(),
        }
    }

    /// The output mirrored by this one, resolved to a connector name.
    ///
    /// A compositor may publish the source monitor's **numeric id** here
    /// (`"0"`), whereas a directive expects its name (`eDP-1`): without this
    /// resolution, any comparison would fail.
    pub fn mirror_target(&self, all: &[Monitor]) -> (r: Option<String>)
        ensures
            view_opt(r) == self.mirrored(all@),
    {
        let raw = trimmed(self.mirror_of.as_str());
        if raw.as_str().unicode_len() == 0 || same(raw.as_str(), "none") {
            return None;
        }
        match parse_bounded(raw.as_str(), i64::MIN, i64::MAX) {
            Some(id) => match name_of_id(all, id) {
                Some(name) => Some(name),
                None => Some(raw),
            },
            None => Some(raw),
        }
    }

    /// Stable identifier for a monitor, independent of the connector it is
    /// plugged into: `"make model serial"`.
    ///
    /// Some monitors (laptop panels in particular) don't publish a usable
    /// serial or make; the description stands in for them, then the connector.
    pub fn fingerprint(&self) -> (r: String)
        ensures
            r@ == self.print(),
    {
        let make = trimmed(self.make.as_str());
        let model = trimmed(self.model.as_str());
        let serial = trimmed(self.serial.as_str());
        let ghost all = seq![make@, model@, serial@];
        let mut parts: Vec<String> = Vec::new();
        proof {
            reveal(Seq::filter);
            assert(all.drop_last() =~= seq![make@, model@]);
            assert(all.drop_last().drop_last() =~= seq![make@]);
            assert(all.drop_last().drop_last().drop_last() =~= Seq::<Seq<char>>::empty());
            reveal_with_fuel(Seq::filter, 4);
        }
        if make.as_str().unicode_len() > 0 {
            parts.push(make);
        }
        if model.as_str().unicode_len() > 0 {
            parts.push(model);
        }
        if serial.as_str().unicode_len() > 0 {
            parts.push(serial);
        }
        assert(views(parts@) =~= nonempty(all));
        if parts.len() > 0 {
            return joined(&parts, " ");
        }
        let description = trimmed(self.description.as_str());
        if description.as_str().unicode_len() > 0 {
            return description;
        }
        self.name.clone()
    }

    /// Every string by which a profile rule can designate this monitor, from
    /// the most specific to the most generic.
    pub fn identifiers(&self) -> (r: Vec<String>)
        ensures
            views(r@) == self.designations(),
    {
        let mut ids: Vec<String> = Vec::new();
        ids.push(self.name.clone());
        ids.push(self.fingerprint());
        let desc = trimmed(self.description.as_str());
        if desc.as_str().unicode_len() > 0 {
            ids.push(desc.clone());
            let mut full = "desc:".to_owned();
            full.append(desc.as_str());
            ids.push(full);
        }
        let ghost all = views(ids@);
        proof {
            let d = trim(self.description@);
            let two = seq![self.name@, self.print()];
            if d.len() > 0 {
                assert(all =~= two.push(d).push("desc:"@ + d));
            } else {
                assert(all =~= two);
            }
        }
        let mut r: Vec<String> = Vec::new();
        let mut i: usize = 0;
        while i < ids.len()
            invariant
                i <= ids@.len(),
                all == views(ids@),
                views(r@) == squeezed(all.take(i as int)),
            decreases ids@.len() - i,
        {
            assert(all.take(i + 1).drop_last() =~= all.take(i as int));
            let id = ids[i].clone();
            if i == 0 || !same(ids[i - 1].as_str(), id.as_str()) {
                proof {
                    crate::text::lemma_views_push(r@, id);
                    if i == 0 {
                        assert(views(r@).push(id@) =~= all.take(1));
                    }
                }
                r.push(id);
            }
            i = i + 1;
        }
        assert(all.take(ids@.len() as int) =~= all);
        r
    }

    /// Available modes, parsed and deduplicated.
    pub fn parsed_modes(&self) -> (r: Vec<Mode>)
        ensures
            r@ == self.modes(),
    {
        let mut found: Vec<Mode> = Vec::new();
        let ghost texts = views(self.available_modes@);
        let mut i: usize = 0;
        while i < self.available_modes.len()
            invariant
                i <= self.available_modes@.len(),
                texts == views(self.available_modes@),
                found@ == read_modes(texts.take(i as int)),
            decreases self.available_modes@.len() - i,
        {
            assert(texts.take(i + 1).drop_last() =~= texts.take(i as int));
            if let Ok(m) = Mode::parse(self.available_modes[i].as_str()) {
                let mut known = false;
                let mut k: usize = 0;
                while k < found.len()
                    invariant
                        k <= found@.len(),
                        known == found@.take(k as int).contains(m),
                    decreases found@.len() - k,
                {
                    proof {
                        assert(found@.take(k + 1) =~= found@.take(k as int).push(found@[k as int]));
                        if found@.take(k as int).contains(m) {
                            let j = choose|j: int| 0 <= j < k && found@.take(k as int)[j] == m;
                            assert(found@.take(k + 1)[j] == m);
                        }
                        if found@[k as int] == m {
                            assert(found@.take(k + 1)[k as int] == m);
                        }
                    }
                    if found[k] == m {
                        known = true;
                    }
                    k = k + 1;
                }
                assert(found@.take(found@.len() as int) =~= found@);
                if !known {
                    found.push(m);
                }
            }
            i = i + 1;
        }
        assert(texts.take(texts.len() as int) =~= texts);
        let mut sorted: Vec<Mode> = Vec::new();
        let mut i: usize = 0;
        while i < found.len()
            invariant
                i <= found@.len(),
                sorted@ == ranked(found@.take(i as int)),
            decreases found@.len() - i,
        {
            assert(found@.take(i + 1).drop_last() =~= found@.take(i as int));
            let m = found[i];
            let ghost before = sorted@;
            let mut at: usize = sorted.len();
            assert(before.take(at as int) =~= before);
            assert(before.skip(at as int) =~= Seq::empty());
            assert(ranked_with(before, m) =~= ranked_with(before.take(at as int), m)
                + before.skip(at as int));
            while at > 0 && m.is_ahead_of(sorted[at - 1])
                invariant
                    at <= sorted@.len(),
                    sorted@ == before,
                    ranked_with(before, m) == ranked_with(before.take(at as int), m)
                        + before.skip(at as int),
                decreases at,
            {
                proof {
                    let head = before.take(at as int);
                    assert(head.drop_last() =~= before.take(at - 1));
                    assert(ranked_with(head.drop_last(), m).push(head.last()) + before.skip(
                        at as int,
                    ) =~= ranked_with(before.take(at - 1), m) + before.skip(at - 1));
                }
                at = at - 1;
            }
            sorted.insert(at, m);
            assert(sorted@ =~= before.take(at as int).push(m) + before.skip(at as int));
            i = i + 1;
        }
        assert(found@.take(found@.len() as int) =~= found@);
        sorted
    }

    /// Preferred mode: the largest, then the fastest.
    pub fn preferred_mode(&self) -> (r: Option<Mode>)
        ensures
            r == self.preferred(),
    {
        let modes = self.parsed_modes();
        if modes.len() > 0 {
            Some(modes[0])
        } else {
            None
        }
    }
}

} // verus!
