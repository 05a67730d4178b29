//! User profiles: the contents of `config.toml`, and the choice of the profile
//! that matches the connected hardware.

use vstd::prelude::*;

use crate::compositor::{resolve as resolve_plugin, resolved, Plugin};
use crate::env::Environment;
use crate::fixed::Fixed;
use crate::input::{default_input, InputConfig, InputView};
use crate::layout::{
    fits_i32, named, named_from, output_of, output_views, overlapping, sized, Layout, LayoutView,
    OutputState, OutputView,
};
use crate::monitor::{read_mode, Mode, Monitor, Rotation, Transform};
use crate::notice::{note, Notice, NoticeId, NoticeView};
use crate::number::{int_string, int_text, nat_text, parse_between, parse_bounded};
use crate::path::{join_path, path_join};
use crate::text::{
    all_ascii, among, ascii_lowercase, contains, copy_opt, lemma_views_push, lowercase,
    lowercase_of, occurs_at, same, slice_string, to_chars, trim, trimmed, view_opt, views,
};

verus! {

// ---------------------------------------------------------------- patterns

/// Whether a value matches a pattern in which `*` stands for anything.
pub open spec fn glob(pattern: Seq<char>, value: Seq<char>) -> bool
    decreases pattern.len() + value.len(),
{
    if pattern.len() == 0 {
        value.len() == 0
    } else if pattern[0] == '*' {
        glob(pattern.skip(1), value) || (value.len() > 0 && glob(pattern, value.skip(1)))
    } else {
        value.len() > 0 && pattern[0] == value[0] && glob(pattern.skip(1), value.skip(1))
    }
}

/// The same, whatever the case and the white space around.
pub open spec fn globs(pattern: Seq<char>, value: Seq<char>) -> bool {
    glob(lowercase_of(trim(pattern)), lowercase_of(trim(value)))
}

/// The same for texts of ASCII characters.
pub open spec fn globs_ascii(pattern: Seq<char>, value: Seq<char>) -> bool {
    glob(ascii_lowercase(trim(pattern)), ascii_lowercase(trim(value)))
}

/// Whether one of a monitor's designations matches a pattern.
pub open spec fn designates(pattern: Seq<char>, m: Monitor) -> bool {
    exists|i: int|
        0 <= i < m.designations().len() && globs(pattern, #[trigger] m.designations()[i])
}

proof fn lemma_rest_is_plain(p: Seq<char>)
    requires
        p.len() > 0,
        !p.contains('*'),
    ensures
        p[0] != '*',
        !p.skip(1).contains('*'),
{
    let rest = p.skip(1);
    if rest.contains('*') {
        let i = choose|i: int| 0 <= i < rest.len() && rest[i] == '*';
        assert(p[i + 1] == '*');
    }
}

proof fn lemma_plain_pattern(p: Seq<char>, v: Seq<char>)
    requires
        !p.contains('*'),
    ensures
        glob(p, v) == (p == v),
    decreases p.len(),
{
    if p.len() == 0 {
        assert(glob(p, v) == (p =~= v));
    } else {
        lemma_rest_is_plain(p);
        if v.len() > 0 {
            lemma_plain_pattern(p.skip(1), v.skip(1));
            if p[0] == v[0] && p.skip(1) == v.skip(1) {
                assert(seq![p[0]] + p.skip(1) =~= p);
                assert(seq![v[0]] + v.skip(1) =~= v);
            }
        }
    }
}

proof fn lemma_open_end(p: Seq<char>, v: Seq<char>)
    requires
        !p.contains('*'),
    ensures
        glob(p.push('*'), v) == (p.len() <= v.len() && v.take(p.len() as int) == p),
    decreases p.len(),
{
    let q = p.push('*');
    if p.len() == 0 {
        lemma_star_takes_all(v);
        assert(q =~= seq!['*']);
        assert(v.take(0) =~= p);
    } else {
        lemma_rest_is_plain(p);
        let rest = p.skip(1);
        assert(q.skip(1) =~= rest.push('*'));
        assert(q[0] == p[0]);
        if v.len() > 0 {
            let tail = v.skip(1);
            lemma_open_end(rest, tail);
            if p.len() <= v.len() {
                let head = v.take(p.len() as int);
                assert(head.skip(1) =~= tail.take(rest.len() as int));
                assert(head[0] == v[0]);
                if p[0] == v[0] && tail.take(rest.len() as int) == rest {
                    assert(seq![p[0]] + rest =~= p);
                    assert(seq![head[0]] + head.skip(1) =~= head);
                }
            }
        }
    }
}

proof fn lemma_open_start(p: Seq<char>, v: Seq<char>)
    requires
        !p.contains('*'),
    ensures
        glob(seq!['*'] + p, v) == (p.len() <= v.len() && v.skip(v.len() - p.len()) == p),
    decreases v.len(),
{
    let star = seq!['*'] + p;
    assert(star.skip(1) =~= p);
    lemma_plain_pattern(p, v);
    if v.len() == 0 {
        assert(v.skip(0) =~= v);
        if p.len() == 0 {
            assert(p =~= v);
        }
    } else {
        let tail = v.skip(1);
        lemma_open_start(p, tail);
        if p.len() < v.len() {
            assert(v.skip(v.len() - p.len()) =~= tail.skip(tail.len() - p.len()));
            if glob(p, v) {
                assert(p.len() == v.len());
            }
        } else if p.len() == v.len() {
            assert(v.skip(0) =~= v);
        }
    }
}

proof fn lemma_open_both(p: Seq<char>, v: Seq<char>)
    requires
        !p.contains('*'),
    ensures
        glob(seq!['*'] + p.push('*'), v) == contains(v, p),
    decreases v.len(),
{
    let q = p.push('*');
    let star = seq!['*'] + q;
    assert(star.skip(1) =~= q);
    lemma_open_end(p, v);
    if glob(q, v) {
        assert(v.subrange(0, p.len() as int) =~= v.take(p.len() as int));
        assert(occurs_at(v, p, 0));
    }
    if v.len() > 0 {
        let tail = v.skip(1);
        lemma_open_both(p, tail);
        if contains(tail, p) {
            let i = choose|i: int| occurs_at(tail, p, i);
            assert(v.subrange(i + 1, i + 1 + p.len()) =~= tail.subrange(i, i + p.len()));
            assert(occurs_at(v, p, i + 1));
        }
        if contains(v, p) {
            let i = choose|i: int| occurs_at(v, p, i);
            if i > 0 {
                assert(tail.subrange(i - 1, i - 1 + p.len()) =~= v.subrange(i, i + p.len()));
                assert(occurs_at(tail, p, i - 1));
            } else {
                assert(v.subrange(0, p.len() as int) =~= v.take(p.len() as int));
            }
        }
    } else if contains(v, p) {
        let i = choose|i: int| occurs_at(v, p, i);
        assert(v.take(0) =~= p);
    }
}

/// Without a `*` a pattern matches nothing but itself; a `*` at its end matches
/// everything that starts with what stands before it, one at its start
/// everything that ends with what stands behind it, and one at either end
/// everything that holds what stands between.
pub proof fn patterns_are_anchored(p: Seq<char>, v: Seq<char>)
    requires
        !p.contains('*'),
    ensures
        glob(p, v) == (p == v),
        glob(p.push('*'), v) == (p.len() <= v.len() && v.take(p.len() as int) == p),
        glob(seq!['*'] + p, v) == (p.len() <= v.len() && v.skip(v.len() - p.len()) == p),
        glob(seq!['*'] + p.push('*'), v) == contains(v, p),
{
    lemma_plain_pattern(p, v);
    lemma_open_end(p, v);
    lemma_open_start(p, v);
    lemma_open_both(p, v);
}

proof fn lemma_star_takes_all(v: Seq<char>)
    ensures
        glob(seq!['*'], v),
    decreases v.len(),
{
    let star = seq!['*'];
    assert(star.skip(1) =~= Seq::empty());
    if v.len() > 0 {
        lemma_star_takes_all(v.skip(1));
    } else {
        assert(glob(star.skip(1), v));
    }
}

/// The same for a pattern and a monitor that are described in ASCII.
pub open spec fn designates_ascii(pattern: Seq<char>, m: Monitor) -> bool {
    exists|i: int|
        0 <= i < m.designations().len() && globs_ascii(pattern, #[trigger] m.designations()[i])
}

pub open spec fn speaks_ascii(pattern: Seq<char>, m: Monitor) -> bool {
    &&& all_ascii(trim(pattern))
    &&& forall|i: int|
        0 <= i < m.designations().len() ==> all_ascii(trim(#[trigger] m.designations()[i]))
}

/// Matching of a pattern against a value that are both in one case.
pub fn glob_match_folded(pattern: &str, value: &str) -> (r: bool)
    ensures
        r == glob(pattern@, value@),
{
    let p = to_chars(pattern);
    let v = to_chars(value);
    // `row[j]` tells whether the pattern from `i` on matches the value from
    // `j` on.
    let mut row: Vec<bool> = Vec::new();
    let mut j: usize = 0;
    while j < v.len()
        invariant
            j <= v@.len(),
            row@.len() == j,
            forall|k: int| 0 <= k < j ==> !(#[trigger] row@[k]),
        decreases v@.len() - j,
    {
        row.push(false);
        j = j + 1;
    }
    row.push(true);
    let mut i: usize = p.len();
    assert forall|k: int| 0 <= k <= v@.len() implies #[trigger] row@[k] == glob(
        p@.skip(i as int),
        v@.skip(k),
    ) by {
    }
    while i > 0
        invariant
            i <= p@.len(),
            row@.len() == v@.len() + 1,
            forall|k: int|
                0 <= k <= v@.len() ==> #[trigger] row@[k] == glob(p@.skip(i as int), v@.skip(k)),
        decreases i,
    {
        i = i - 1;
        let c = p[i];
        let ghost old_row = row@;
        let ghost rest = p@.skip(i + 1);
        let ghost now = p@.skip(i as int);
        assert(now.skip(1) =~= rest);
        // From left to right for a plain character, which looks at what was;
        // from right to left for a `*`, which looks at what is new.
        if c == '*' {
            let mut j: usize = v.len();
            assert(glob(now, v@.skip(j as int)) == old_row[j as int]);
            while j > 0
                invariant
                    j <= v@.len(),
                    i < p@.len(),
                    row@.len() == v@.len() + 1,
                    now == p@.skip(i as int),
                    now[0] == '*',
                    now.len() > 0,
                    now.skip(1) == rest,
                    forall|k: int|
                        0 <= k <= v@.len() ==> #[trigger] old_row[k] == glob(rest, v@.skip(k)),
                    forall|k: int| 0 <= k < j ==> #[trigger] row@[k] == old_row[k],
                    forall|k: int|
                        j <= k <= v@.len() ==> #[trigger] row@[k] == glob(now, v@.skip(k)),
                decreases j,
            {
                j = j - 1;
                assert(v@.skip(j as int).skip(1) =~= v@.skip(j + 1));
                let hit = row[j] || row[j + 1];
                assert(old_row[j as int] == glob(rest, v@.skip(j as int)));
                row.set(j, hit);
            }
        } else {
            let mut j: usize = 0;
            while j < v.len()
                invariant
                    j <= v@.len(),
                    i < p@.len(),
                    row@.len() == v@.len() + 1,
                    now == p@.skip(i as int),
                    now[0] == c,
                    c != '*',
                    now.len() > 0,
                    now.skip(1) == rest,
                    forall|k: int|
                        0 <= k <= v@.len() ==> #[trigger] old_row[k] == glob(rest, v@.skip(k)),
                    forall|k: int| 0 <= k < j ==> #[trigger] row@[k] == glob(now, v@.skip(k)),
                    forall|k: int| j <= k <= v@.len() ==> #[trigger] row@[k] == old_row[k],
                decreases v@.len() - j,
            {
                assert(v@.skip(j as int).skip(1) =~= v@.skip(j + 1));
                assert(row@[j + 1] == old_row[j + 1]);
                let hit = c == v[j] && row[j + 1];
                row.set(j, hit);
                j = j + 1;
            }
            let last: usize = v.len();
            assert(v@.skip(last as int).len() == 0);
            row.set(last, false);
        }
    }
    assert(p@.skip(0) =~= p@);
    assert(v@.skip(0) =~= v@);
    row[0]
}

/// Matching with `*` as a wildcard, whatever the case.
pub fn glob_match(pattern: &str, value: &str) -> (r: bool)
    ensures
        r == globs(pattern@, value@),
        all_ascii(trim(pattern@)) && all_ascii(trim(value@)) ==> r == globs_ascii(
            pattern@,
            value@,
        ),
{
    glob_match_folded(
        lowercase(trimmed(pattern).as_str()).as_str(),
        lowercase(trimmed(value).as_str()).as_str(),
    )
}

/// Whether a pattern designates a monitor.
pub fn matches_pattern(pattern: &str, m: &Monitor) -> (r: bool)
    ensures
        r == designates(pattern@, *m),
        speaks_ascii(pattern@, *m) ==> r == designates_ascii(pattern@, *m),
{
    let ids = m.identifiers();
    let ghost all = m.designations();
    let mut i: usize = 0;
    assert(all.len() == ids@.len());
    while i < ids.len()
        invariant
            i <= ids@.len(),
            all == views(ids@),
            all == m.designations(),
            forall|j: int| 0 <= j < i ==> !globs(pattern@, #[trigger] all[j]),
            speaks_ascii(pattern@, *m) ==> forall|j: int|
                0 <= j < i ==> !globs_ascii(pattern@, #[trigger] all[j]),
        decreases ids@.len() - i,
    {
        assert(all[i as int] == ids@[i as int]@);
        if glob_match(pattern, ids[i].as_str()) {
            return true;
        }
        i = i + 1;
    }
    false
}

// ---------------------------------------------------------------- rules

/// Rule that says how to configure a given monitor.
#[derive(Debug, PartialEq, Eq)]
pub struct OutputRule {
    /// Pattern that designates the monitor: connector (`DP-1`), fingerprint
    /// (`Dell Inc. U2723QE ABC123`) or a pattern with `*`.
    pub pattern: String,
    pub enabled: bool,
    /// `None` = the monitor's preferred mode.
    pub mode: Option<String>,
    /// `None` or `"auto"` = position computed automatically.
    pub position: Option<String>,
    pub scale: Fixed,
    pub rotation: u16,
    pub flipped: bool,
    pub mirror_of: Option<String>,
    pub vrr: bool,
}

#[verifier::ext_equal]
pub ghost struct RuleView {
    pub pattern: Seq<char>,
    pub enabled: bool,
    pub mode: Option<Seq<char>>,
    pub position: Option<Seq<char>>,
    pub scale: Fixed,
    pub rotation: u16,
    pub flipped: bool,
    pub mirror_of: Option<Seq<char>>,
    pub vrr: bool,
}

impl View for OutputRule {
    type V = RuleView;

    open spec fn view(&self) -> RuleView {
        RuleView {
            pattern: self.pattern@,
            enabled: self.enabled,
            mode: view_opt(self.mode),
            position: view_opt(self.position),
            scale: self.scale,
            rotation: self.rotation,
            flipped: self.flipped,
            mirror_of: view_opt(self.mirror_of),
            vrr: self.vrr,
        }
    }
}

impl Clone for OutputRule {
    fn clone(&self) -> (r: Self)
        ensures
            r@ == self@,
    {
        OutputRule {
            pattern: self.pattern.clone(),
            enabled: self.enabled,
            mode: copy_opt(&self.mode),
            position: copy_opt(&self.position),
            scale: self.scale,
            rotation: self.rotation,
            flipped: self.flipped,
            mirror_of: copy_opt(&self.mirror_of),
            vrr: self.vrr,
        }
    }
}

/// Where the first of `x`, `X` and `,` at or after `i` stands.
pub open spec fn separator_from(s: Seq<char>, i: int) -> Option<int>
    decreases s.len() - i,
{
    if i < 0 || i >= s.len() {
        None
    } else if s[i] == 'x' || s[i] == 'X' || s[i] == ',' {
        Some(i)
    } else {
        separator_from(s, i + 1)
    }
}

/// What a text says as a position: `1920x0` or `1920,0`.
pub open spec fn read_position(text: Seq<char>) -> Result<(int, int), NoticeView> {
    let s = trim(text);
    match separator_from(s, 0) {
        None => Err(note(NoticeId::InvalidPosition, seq![s])),
        Some(i) => match parse_between(trim(s.take(i)), i32::MIN as int, i32::MAX as int) {
            None => Err(note(NoticeId::InvalidAbscissa, seq![s])),
            Some(x) => match parse_between(trim(s.skip(i + 1)), i32::MIN as int, i32::MAX as int) {
                None => Err(note(NoticeId::InvalidOrdinate, seq![s])),
                Some(y) => Ok((x, y)),
            },
        },
    }
}

/// Parses `"1920x0"` or `"1920,0"`.
pub fn parse_position(text: &str) -> (r: Result<(i32, i32), Notice>)
    ensures
        match (r, read_position(text@)) {
            (Ok(a), Ok(b)) => (a.0 as int, a.1 as int) == b,
            (Err(a), Err(b)) => a@ == b,
            _ => false,
        },
{
    let s = trimmed(text);
    let v = to_chars(s.as_str());
    let mut i: usize = 0;
    while i < v.len() && v[i] != 'x' && v[i] != 'X' && v[i] != ','
        invariant
            i <= v@.len(),
            separator_from(v@, 0) == separator_from(v@, i as int),
        decreases v@.len() - i,
    {
        i = i + 1;
    }
    if i == v.len() {
        return Err(Notice::one(NoticeId::InvalidPosition, s.as_str()));
    }
    let a = slice_string(&v, 0, i);
    let b = slice_string(&v, i + 1, v.len());
    assert(a@ =~= s@.take(i as int));
    assert(b@ =~= s@.skip(i + 1));
    match parse_bounded(trimmed(a.as_str()).as_str(), i32::MIN as i64, i32::MAX as i64) {
        None => Err(Notice::one(NoticeId::InvalidAbscissa, s.as_str())),
        Some(x) => match parse_bounded(
            trimmed(b.as_str()).as_str(),
            i32::MIN as i64,
            i32::MAX as i64,
        ) {
            None => Err(Notice::one(NoticeId::InvalidOrdinate, s.as_str())),
            Some(y) => Ok((x as i32, y as i32)),
        },
    }
}

/// Whether a rule leaves the mode to the monitor.
pub open spec fn open_mode(mode: Option<Seq<char>>) -> bool {
    match mode {
        None => true,
        Some(s) => s.len() == 0 || s == "preferred"@ || s == "auto"@,
    }
}

/// Whether a rule leaves the position open.
pub open spec fn open_position(position: Option<Seq<char>>) -> bool {
    match position {
        None => true,
        Some(s) => s.len() == 0 || s == "auto"@,
    }
}

impl RuleView {
    pub open spec fn wanted_mode(self) -> Result<Option<Mode>, NoticeView> {
        if open_mode(self.mode) {
            Ok(None)
        } else {
            match read_mode(self.mode.unwrap()) {
                Ok(m) => Ok(Some(m)),
                Err(e) => Err(e),
            }
        }
    }

    pub open spec fn wanted_position(self) -> Result<(int, int), NoticeView> {
        if open_position(self.position) {
            Ok((0, 0))
        } else {
            read_position(self.position.unwrap())
        }
    }

    /// The configuration that the rule gives a connector.
    pub open spec fn state(self, connector: Seq<char>) -> Result<OutputView, NoticeView> {
        match (self.wanted_mode(), self.wanted_position()) {
            (Err(e), _) => Err(e),
            (_, Err(e)) => Err(e),
            (Ok(mode), Ok((x, y))) => if self.rotation % 90 != 0 {
                Err(
                    note(NoticeId::InvalidRotation, seq![nat_text((self.rotation % 360) as nat)]),
                )
            } else {
                Ok(
                    OutputView {
                        name: connector,
                        enabled: self.enabled,
                        mode,
                        x,
                        y,
                        scale: self.scale,
                        transform: Transform {
                            rotation: rotation_by(self.rotation as int),
                            flipped: self.flipped,
                        },
                        mirror_of: self.mirror_of,
                        vrr: self.vrr,
                    },
                )
            },
        }
    }
}

/// The rotation by an angle that is a whole number of quarter turns.
pub open spec fn rotation_by(degrees: int) -> Rotation {
    let d = degrees % 360;
    if d == 0 {
        Rotation::R0
    } else if d == 90 {
        Rotation::R90
    } else if d == 180 {
        Rotation::R180
    } else {
        Rotation::R270
    }
}

/// The rule that a configuration and its monitor make.
pub open spec fn rule_of(state: OutputView, monitor: Option<Monitor>) -> RuleView {
    RuleView {
        pattern: match monitor {
            Some(m) => m.print(),
            None => state.name,
        },
        enabled: state.enabled,
        mode: match state.mode {
            Some(m) => Some(m.shown()),
            None => None,
        },
        position: Some(int_text(state.x) + "x"@ + int_text(state.y)),
        scale: state.scale,
        rotation: state.transform.rotation.angle() as u16,
        flipped: state.transform.flipped,
        mirror_of: state.mirror_of,
        vrr: state.vrr,
    }
}

impl OutputRule {
    /// Builds a rule from a concrete state, designating the monitor by its
    /// fingerprint so that the profile survives a change of connector.
    pub fn from_state(state: &OutputState, monitor: Option<&Monitor>) -> (r: Self)
        ensures
            r@ == rule_of(
                state@,
                match monitor {
                    Some(m) => Some(*m),
                    None => None,
                },
            ),
    {
        let pattern = match monitor {
            Some(m) => m.fingerprint(),
            None => state.name.clone(),
        };
        let mut position = int_string(state.x as i64);
        position.append("x");
        position.append(int_string(state.y as i64).as_str());
        OutputRule {
            pattern,
            enabled: state.enabled,
            mode: match state.mode {
                Some(m) => Some(m.text()),
                None => None,
            },
            position: Some(position),
            scale: state.scale,
            rotation: state.transform.rotation.degrees(),
            flipped: state.transform.flipped,
            mirror_of: copy_opt(&state.mirror_of),
            vrr: state.vrr,
        }
    }

    /// Does this rule designate this monitor?
    pub fn matches(&self, m: &Monitor) -> (r: bool)
        ensures
            r == designates(self@.pattern, *m),
            speaks_ascii(self@.pattern, *m) ==> r == designates_ascii(self@.pattern, *m),
    {
        matches_pattern(self.pattern.as_str(), m)
    }

    /// The configuration that the rule gives a connector.
    pub fn to_state(&self, connector: &str) -> (r: Result<OutputState, Notice>)
        ensures
            match (r, self@.state(connector@)) {
                (Ok(a), Ok(b)) => a@ == b,
                (Err(a), Err(b)) => a@ == b,
                _ => false,
            },
    {
        let mode = match &self.mode {
            None => None,
            Some(s) => if s.as_str().unicode_len() == 0 || same(s.as_str(), "preferred") || same(
                s.as_str(),
                "auto",
            ) {
                None
            } else {
                match Mode::parse(s.as_str()) {
                    Ok(m) => Some(m),
                    Err(e) => {
                        return Err(e);
                    },
                }
            },
        };
        let (x, y) = match &self.position {
            None => (0, 0),
            Some(s) => if s.as_str().unicode_len() == 0 || same(s.as_str(), "auto") {
                (0, 0)
            } else {
                match parse_position(s.as_str()) {
                    Ok(p) => p,
                    Err(e) => {
                        return Err(e);
                    },
                }
            },
        };
        let rotation = match Rotation::from_degrees(self.rotation) {
            Ok(r) => r,
            Err(e) => {
                return Err(e);
            },
        };
        Ok(
            OutputState {
                name: connector.to_owned(),
                enabled: self.enabled,
                mode,
                x,
                y,
                scale: self.scale,
                transform: Transform::new(rotation, self.flipped),
                mirror_of: copy_opt(&self.mirror_of),
                vrr: self.vrr,
            },
        )
    }

    /// Is the position left to be computed?
    pub fn auto_position(&self) -> (r: bool)
        ensures
            r == open_position(self@.position),
    {
        match &self.position {
            None => true,
            Some(s) => s.as_str().unicode_len() == 0 || same(s.as_str(), "auto"),
        }
    }
}

// ---------------------------------------------------------------- profiles

/// A named arrangement for a set of monitors.
#[derive(Debug, PartialEq, Eq)]
pub struct Profile {
    pub name: String,
    /// If true, the profile only applies when *all* connected monitors are
    /// covered by a rule.
    pub exact: bool,
    pub outputs: Vec<OutputRule>,
}

#[verifier::ext_equal]
pub ghost struct ProfileView {
    pub name: Seq<char>,
    pub exact: bool,
    pub outputs: Seq<RuleView>,
}

pub open spec fn rule_views(v: Seq<OutputRule>) -> Seq<RuleView> {
    Seq::new(v.len(), |i: int| v[i]@)
}

impl View for Profile {
    type V = ProfileView;

    open spec fn view(&self) -> ProfileView {
        ProfileView { name: self.name@, exact: self.exact, outputs: rule_views(self.outputs@) }
    }
}

impl Clone for Profile {
    fn clone(&self) -> (r: Self)
        ensures
            r@ == self@,
    {
        let mut outputs: Vec<OutputRule> = Vec::new();
        let mut i: usize = 0;
        while i < self.outputs.len()
            invariant
                i <= self.outputs@.len(),
                rule_views(outputs@) == rule_views(self.outputs@).take(i as int),
            decreases self.outputs@.len() - i,
        {
            let ghost before = rule_views(outputs@);
            let o = self.outputs[i].clone();
            outputs.push(o);
            i = i + 1;
            assert(rule_views(outputs@) =~= before.push(rule_views(self.outputs@)[i - 1]));
            assert(rule_views(outputs@) =~= rule_views(self.outputs@).take(i as int));
        }
        assert(rule_views(outputs@) =~= rule_views(self.outputs@));
        Profile { name: self.name.clone(), exact: self.exact, outputs }
    }
}

/// The first monitor from `i` on that is not taken and that the pattern
/// designates.
pub open spec fn first_free(
    pattern: Seq<char>,
    monitors: Seq<Monitor>,
    taken: Seq<int>,
    i: int,
) -> Option<int>
    decreases monitors.len() - i,
{
    if i < 0 || i >= monitors.len() {
        None
    } else if !taken.contains(i) && designates(pattern, monitors[i]) {
        Some(i)
    } else {
        first_free(pattern, monitors, taken, i + 1)
    }
}

/// The monitors that the first `n` rules take, each the first one left that it
/// designates.
pub open spec fn taken_by(rules: Seq<RuleView>, monitors: Seq<Monitor>, n: int) -> Option<Seq<int>>
    decreases n,
{
    if n <= 0 {
        Some(Seq::empty())
    } else {
        match taken_by(rules, monitors, n - 1) {
            None => None,
            Some(taken) => match first_free(rules[n - 1].pattern, monitors, taken, 0) {
                Some(i) => Some(taken.push(i)),
                None => None,
            },
        }
    }
}

impl ProfileView {
    /// The monitor of each rule, where the profile matches the hardware.
    pub open spec fn assignment(self, monitors: Seq<Monitor>) -> Option<Seq<int>> {
        match taken_by(self.outputs, monitors, self.outputs.len() as int) {
            None => None,
            Some(taken) => if self.exact && exists|j: int|
                0 <= j < monitors.len() && !(#[trigger] taken.contains(j)) {
                None
            } else {
                Some(taken)
            },
        }
    }

    pub open spec fn fits(self, monitors: Seq<Monitor>) -> bool {
        self.outputs.len() > 0 && self.assignment(monitors) is Some
    }
}

proof fn lemma_first_free(pattern: Seq<char>, monitors: Seq<Monitor>, taken: Seq<int>, i: int)
    requires
        0 <= i,
    ensures
        match first_free(pattern, monitors, taken, i) {
            Some(k) => i <= k < monitors.len() && !taken.contains(k) && designates(
                pattern,
                monitors[k],
            ) && forall|j: int|
                i <= j < k ==> taken.contains(j) || !designates(pattern, #[trigger] monitors[j]),
            None => forall|j: int|
                i <= j < monitors.len() ==> taken.contains(j) || !designates(
                    pattern,
                    #[trigger] monitors[j],
                ),
        },
    decreases monitors.len() - i,
{
    if i < monitors.len() && (taken.contains(i) || !designates(pattern, monitors[i])) {
        lemma_first_free(pattern, monitors, taken, i + 1);
    }
}

/// Every rule of a profile takes a monitor that it designates, no monitor is
/// taken twice, and an exact profile leaves none.
pub proof fn assignments_are_one_to_one(p: ProfileView, monitors: Seq<Monitor>, n: int)
    requires
        0 <= n <= p.outputs.len(),
        taken_by(p.outputs, monitors, n) is Some,
    ensures
        ({
            let taken = taken_by(p.outputs, monitors, n).unwrap();
            &&& taken.len() == n
            &&& forall|k: int|
                0 <= k < n ==> 0 <= #[trigger] taken[k] < monitors.len() && designates(
                    p.outputs[k].pattern,
                    monitors[taken[k]],
                )
            &&& forall|j: int, k: int|
                0 <= j < k < n ==> #[trigger] taken[j] != #[trigger] taken[k]
        }),
        p.exact && p.assignment(monitors) is Some ==> forall|j: int|
            0 <= j < monitors.len() ==> #[trigger] p.assignment(monitors).unwrap().contains(j),
    decreases n,
{
    if n > 0 {
        assignments_are_one_to_one(p, monitors, n - 1);
        let before = taken_by(p.outputs, monitors, n - 1).unwrap();
        let taken = taken_by(p.outputs, monitors, n).unwrap();
        lemma_first_free(p.outputs[n - 1].pattern, monitors, before, 0);
        assert forall|j: int, k: int| 0 <= j < k < n implies #[trigger] taken[j]
            != #[trigger] taken[k] by {
            if k == n - 1 {
                assert(before[j] == taken[j]);
                assert(before.contains(before[j]));
            } else {
                assert(before[j] == taken[j] && before[k] == taken[k]);
            }
        }
    }
}

/// Whether an output of the profile is one of the given names.
pub open spec fn covered(taken: Seq<int>, monitors: Seq<Monitor>, name: Seq<char>) -> bool {
    exists|k: int| 0 <= k < taken.len() && monitors[#[trigger] taken[k]].name@ == name
}

/// A configuration with its mode filled in.
pub open spec fn with_mode(o: OutputView, m: Monitor) -> OutputView {
    if o.mode is None {
        OutputView { mode: m.preferred(), ..o }
    } else {
        o
    }
}

/// The outputs that the first `n` rules give, with the names of those whose
/// position is open; or the first error.
pub open spec fn ruled(
    p: ProfileView,
    monitors: Seq<Monitor>,
    taken: Seq<int>,
    n: int,
) -> Result<(Seq<OutputView>, Seq<Seq<char>>), NoticeView>
    decreases n,
{
    if n <= 0 {
        Ok((Seq::empty(), Seq::empty()))
    } else {
        match ruled(p, monitors, taken, n - 1) {
            Err(e) => Err(e),
            Ok((outputs, free)) => {
                let m = monitors[taken[n - 1]];
                let rule = p.outputs[n - 1];
                match rule.state(m.name@) {
                    Err(e) => Err(e),
                    Ok(o) => Ok(
                        (
                            outputs.push(with_mode(o, m)),
                            if open_position(rule.position) {
                                free.push(m.name@)
                            } else {
                                free
                            },
                        ),
                    ),
                }
            },
        }
    }
}

/// The configuration of a monitor that no rule covers: switched on, in its
/// preferred mode, or in its current one if it lists none.
pub open spec fn uncovered_state(m: Monitor, monitors: Seq<Monitor>) -> OutputView {
    OutputView {
        enabled: true,
        mode: match m.preferred() {
            Some(p) => Some(p),
            None => output_of(m, monitors).mode,
        },
        ..output_of(m, monitors)
    }
}

/// The outputs of the monitors among the first `n` that no rule covers.
pub open spec fn uncovered(monitors: Seq<Monitor>, taken: Seq<int>, n: int) -> Seq<OutputView>
    decreases n,
{
    if n <= 0 {
        Seq::empty()
    } else {
        let before = uncovered(monitors, taken, n - 1);
        if covered(taken, monitors, monitors[n - 1].name@) {
            before
        } else {
            before.push(uncovered_state(monitors[n - 1], monitors))
        }
    }
}

pub open spec fn output_names(outputs: Seq<OutputView>) -> Seq<Seq<char>> {
    outputs.map_values(|o: OutputView| o.name)
}

/// The outputs of the layout and the names of those whose position is open.
pub open spec fn prepared(p: ProfileView, monitors: Seq<Monitor>) -> Result<
    (LayoutView, Seq<Seq<char>>),
    NoticeView,
> {
    match p.assignment(monitors) {
        None => Err(note(NoticeId::ProfileMismatch, seq![p.name])),
        Some(taken) => match ruled(p, monitors, taken, p.outputs.len() as int) {
            Err(e) => Err(e),
            Ok((outputs, free)) => {
                let others = uncovered(monitors, taken, monitors.len() as int);
                Ok(
                    (
                        LayoutView { outputs: outputs + others, primary: None },
                        free + output_names(others),
                    ),
                )
            },
        },
    }
}

/// The right edge of what takes up space and has its position; zero where
/// nothing does.
pub open spec fn right_edge(outputs: Seq<OutputView>, free: Seq<Seq<char>>) -> Option<int>
    decreases outputs.len(),
{
    if outputs.len() == 0 {
        None
    } else {
        let o = outputs.last();
        let before = right_edge(outputs.drop_last(), free);
        if o.occupies() && !free.contains(o.name) {
            match before {
                Some(e) => Some(
                    if o.area().2 > e {
                        o.area().2
                    } else {
                        e
                    },
                ),
                None => Some(o.area().2),
            }
        } else {
            before
        }
    }
}

pub open spec fn edge_or_zero(e: Option<int>) -> int {
    match e {
        Some(n) => n,
        None => 0,
    }
}

/// The layout with the outputs of the given names in a row from `cursor` on.
pub open spec fn lined_up(l: LayoutView, free: Seq<Seq<char>>, cursor: int) -> LayoutView
    decreases free.len(),
{
    if free.len() == 0 {
        l
    } else {
        match named(l.outputs, free[0]) {
            Some(i) => if l.outputs[i].occupies() {
                lined_up(
                    LayoutView {
                        outputs: l.outputs.update(i, l.outputs[i].at(cursor, 0)),
                        primary: l.primary,
                    },
                    free.skip(1),
                    cursor + l.outputs[i].size().0,
                )
            } else {
                lined_up(l, free.skip(1), cursor)
            },
            None => lined_up(l, free.skip(1), cursor),
        }
    }
}

/// Whether every place in that row can be expressed.
pub open spec fn line_fits(l: LayoutView, free: Seq<Seq<char>>, cursor: int) -> bool
    decreases free.len(),
{
    if free.len() == 0 {
        true
    } else {
        match named(l.outputs, free[0]) {
            Some(i) => if l.outputs[i].occupies() {
                fits_i32(cursor) && line_fits(
                    LayoutView {
                        outputs: l.outputs.update(i, l.outputs[i].at(cursor, 0)),
                        primary: l.primary,
                    },
                    free.skip(1),
                    cursor + l.outputs[i].size().0,
                )
            } else {
                line_fits(l, free.skip(1), cursor)
            },
            None => line_fits(l, free.skip(1), cursor),
        }
    }
}

impl ProfileView {
    /// The profile's layout before it is normalized.
    pub open spec fn spread(self, monitors: Seq<Monitor>) -> Result<LayoutView, NoticeView> {
        match prepared(self, monitors) {
            Err(e) => Err(e),
            Ok((l, free)) => Ok(lined_up(l, free, edge_or_zero(right_edge(l.outputs, free)))),
        }
    }

    /// The concrete layout of the profile for the connected hardware.
    pub open spec fn layout(self, monitors: Seq<Monitor>) -> Result<LayoutView, NoticeView> {
        match self.spread(monitors) {
            Err(e) => Err(e),
            Ok(l) => Ok(l.normalized()),
        }
    }

    /// Whether every coordinate of that layout can be expressed.
    pub open spec fn resolvable(self, monitors: Seq<Monitor>) -> bool {
        match prepared(self, monitors) {
            Err(_) => true,
            Ok((l, free)) => {
                let cursor = edge_or_zero(right_edge(l.outputs, free));
                line_fits(l, free, cursor) && lined_up(l, free, cursor).normalizable()
            },
        }
    }
}

pub open spec fn index_views(v: Seq<usize>) -> Seq<int> {
    v.map_values(|i: usize| i as int)
}

fn holds_index(v: &Vec<usize>, i: usize) -> (r: bool)
    ensures
        r == index_views(v@).contains(i as int),
{
    let mut k: usize = 0;
    while k < v.len()
        invariant
            k <= v@.len(),
            forall|j: int| 0 <= j < k ==> index_views(v@)[j] != i,
        decreases v@.len() - k,
    {
        if v[k] == i {
            assert(index_views(v@)[k as int] == i);
            return true;
        }
        k = k + 1;
    }
    false
}

impl Profile {
    /// The monitor of each rule, by its position.
    fn assign_positions(&self, monitors: &[Monitor]) -> (r: Option<Vec<usize>>)
        ensures
            match (r, self@.assignment(monitors@)) {
                (Some(v), Some(taken)) => index_views(v@) == taken && v@.len()
                    == self.outputs@.len() && forall|k: int|
                    0 <= k < v@.len() ==> #[trigger] v@[k] < monitors@.len(),
                (None, None) => true,
                _ => false,
            },
    {
        let ghost rules = self@.outputs;
        let mut taken: Vec<usize> = Vec::new();
        let mut n: usize = 0;
        assert(index_views(taken@) =~= Seq::empty());
        assert(rules.len() == self.outputs@.len());
        while n < self.outputs.len()
            invariant
                n <= self.outputs@.len(),
                rules == self@.outputs,
                taken_by(rules, monitors@, n as int) == Some(index_views(taken@)),
                taken@.len() == n,
                forall|k: int| 0 <= k < taken@.len() ==> #[trigger] taken@[k] < monitors@.len(),
            decreases self.outputs@.len() - n,
        {
            assert(rules[n as int] == self.outputs@[n as int]@);
            let mut i: usize = 0;
            while i < monitors.len() && (holds_index(&taken, i) || !self.outputs[n].matches(
                &monitors[i],
            ))
                invariant
                    i <= monitors@.len(),
                    n < self.outputs@.len(),
                    rules[n as int] == self.outputs@[n as int]@,
                    first_free(rules[n as int].pattern, monitors@, index_views(taken@), 0)
                        == first_free(
                        rules[n as int].pattern,
                        monitors@,
                        index_views(taken@),
                        i as int,
                    ),
                decreases monitors@.len() - i,
            {
                i = i + 1;
            }
            if i == monitors.len() {
                proof {
                    lemma_assignment_fails(rules, monitors@, n + 1, rules.len() as int);
                }
                return None;
            }
            let ghost before = index_views(taken@);
            taken.push(i);
            assert(index_views(taken@) =~= before.push(i as int));
            n = n + 1;
        }
        if self.exact {
            let mut i: usize = 0;
            while i < monitors.len()
                invariant
                    i <= monitors@.len(),
                    self@.exact,
                    taken_by(self@.outputs, monitors@, self@.outputs.len() as int) == Some(
                        index_views(taken@),
                    ),
                    forall|j: int|
                        0 <= j < i ==> #[trigger] index_views(taken@).contains(j),
                decreases monitors@.len() - i,
            {
                if !holds_index(&taken, i) {
                    assert(!index_views(taken@).contains(i as int));
                    return None;
                }
                i = i + 1;
            }
        }
        Some(taken)
    }

    /// Pairs each rule with a connected monitor.
    ///
    /// Greedy, in declaration order: a rule cannot steal the monitor already
    /// taken by a previous one. Returns `None` as soon as a rule finds no taker:
    /// the profile then does not match the hardware.
    pub fn assign<'a>(&'a self, monitors: &'a [Monitor]) -> (r: Option<
        Vec<(&'a OutputRule, &'a Monitor)>,
    >)
        ensures
            match (r, self@.assignment(monitors@)) {
                (Some(pairs), Some(taken)) => pairs@.len() == taken.len() && forall|k: int|
                    0 <= k < pairs@.len() ==> *(#[trigger] pairs@[k]).0 == self.outputs@[k]
                        && *pairs@[k].1 == monitors@[taken[k]],
                (None, None) => true,
                _ => false,
            },
    {
        match self.assign_positions(monitors) {
            None => None,
            Some(taken) => {
                let mut pairs: Vec<(&OutputRule, &Monitor)> = Vec::new();
                let mut k: usize = 0;
                while k < taken.len()
                    invariant
                        k <= taken@.len(),
                        taken@.len() == self.outputs@.len(),
                        forall|k: int|
                            0 <= k < taken@.len() ==> #[trigger] taken@[k] < monitors@.len(),
                        pairs@.len() == k,
                        forall|j: int|
                            0 <= j < k ==> *(#[trigger] pairs@[j]).0 == self.outputs@[j]
                                && *pairs@[j].1 == monitors@[index_views(taken@)[j]],
                    decreases taken@.len() - k,
                {
                    let at: usize = taken[k];
                    pairs.push((&self.outputs[k], &monitors[at]));
                    k = k + 1;
                }
                Some(pairs)
            },
        }
    }

    pub fn matches(&self, monitors: &[Monitor]) -> (r: bool)
        ensures
            r == self@.fits(monitors@),
    {
        self.outputs.len() > 0 && self.assign_positions(monitors).is_some()
    }

    /// The outputs before those with an open position are placed.
    fn prepare(&self, monitors: &[Monitor]) -> (r: Result<(Layout, Vec<String>), Notice>)
        ensures
            match (r, prepared(self@, monitors@)) {
                (Ok(a), Ok(b)) => a.0@ == b.0 && views(a.1@) == b.1,
                (Err(a), Err(b)) => a@ == b,
                _ => false,
            },
    {
        let taken = match self.assign_positions(monitors) {
            Some(t) => t,
            None => {
                return Err(Notice::one(NoticeId::ProfileMismatch, self.name.as_str()));
            },
        };
        let ghost seen = index_views(taken@);
        let mut outputs: Vec<OutputState> = Vec::new();
        let mut free: Vec<String> = Vec::new();
        let mut n: usize = 0;
        assert(output_views(outputs@) =~= Seq::empty());
        assert(views(free@) =~= Seq::empty());
        while n < taken.len()
            invariant
                n <= taken@.len(),
                seen == index_views(taken@),
                taken@.len() == self.outputs@.len(),
                self@.assignment(monitors@) == Some(seen),
                forall|k: int| 0 <= k < taken@.len() ==> #[trigger] taken@[k] < monitors@.len(),
                ruled(self@, monitors@, seen, n as int) == Ok::<
                    (Seq<OutputView>, Seq<Seq<char>>),
                    NoticeView,
                >((output_views(outputs@), views(free@))),
            decreases taken@.len() - n,
        {
            let at: usize = taken[n];
            let m = &monitors[at];
            let rule = &self.outputs[n];
            assert(self@.outputs[n as int] == rule@);
            assert(seen[n as int] == at);
            let mut state = match rule.to_state(m.name.as_str()) {
                Ok(s) => s,
                Err(e) => {
                    proof {
                        lemma_ruled_fails(self@, monitors@, seen, n + 1, taken@.len() as int);
                    }
                    return Err(e);
                },
            };
            if state.mode.is_none() {
                state.mode = m.preferred_mode();
            }
            let ghost shown = state@;
            let ghost before = output_views(outputs@);
            if rule.auto_position() {
                let name = m.name.clone();
                proof {
                    lemma_views_push(free@, name);
                }
                free.push(name);
            }
            outputs.push(state);
            assert(output_views(outputs@) =~= before.push(shown));
            n = n + 1;
        }
        let ghost fixed = output_views(outputs@);
        let ghost named_free = views(free@);
        let mut i: usize = 0;
        assert(fixed + uncovered(monitors@, seen, 0) =~= fixed);
        assert(named_free + output_names(uncovered(monitors@, seen, 0)) =~= named_free);
        while i < monitors.len()
            invariant
                i <= monitors@.len(),
                seen == index_views(taken@),
                forall|k: int| 0 <= k < taken@.len() ==> #[trigger] taken@[k] < monitors@.len(),
                output_views(outputs@) == fixed + uncovered(monitors@, seen, i as int),
                views(free@) == named_free + output_names(uncovered(monitors@, seen, i as int)),
            decreases monitors@.len() - i,
        {
            let m = &monitors[i];
            if !covers(&taken, monitors, m.name.as_str()) {
                let mut state = OutputState::from_monitor(m, monitors);
                state.enabled = true;
                if let Some(preferred) = m.preferred_mode() {
                    state.mode = Some(preferred);
                }
                let ghost shown = state@;
                let ghost before = uncovered(monitors@, seen, i as int);
                let ghost so_far = output_views(outputs@);
                assert(shown == uncovered_state(*m, monitors@));
                let name = m.name.clone();
                proof {
                    lemma_views_push(free@, name);
                    assert(output_names(before.push(shown)) =~= output_names(before).push(name@));
                }
                free.push(name);
                outputs.push(state);
                assert(output_views(outputs@) =~= so_far.push(shown));
                assert(output_views(outputs@) =~= fixed + before.push(shown));
                assert(views(free@) =~= named_free + output_names(before.push(shown)));
            }
            i = i + 1;
        }
        Ok((Layout::new(outputs), free))
    }

    /// Whether every coordinate of the profile's layout can be expressed.
    pub fn can_resolve(&self, monitors: &[Monitor]) -> (r: bool)
        ensures
            r == self@.resolvable(monitors@),
    {
        match self.prepare(monitors) {
            Err(_) => true,
            Ok((layout, free)) => {
                let mut l = layout;
                if !can_place_free(&l, &free) {
                    return false;
                }
                place_free_outputs(&mut l, &free);
                l.can_normalize()
            },
        }
    }

    /// Translates the profile into a concrete layout for the connected hardware.
    ///
    /// The connected monitors that no rule covers are not lost: they are added
    /// to the right of the layout with their preferred mode.
    pub fn resolve(&self, monitors: &[Monitor]) -> (r: Result<Layout, Notice>)
        requires
            self@.resolvable(monitors@),
        ensures
            match (r, self@.layout(monitors@)) {
                (Ok(a), Ok(b)) => a@ == b,
                (Err(a), Err(b)) => a@ == b,
                _ => false,
            },
    {
        match self.prepare(monitors) {
            Err(e) => Err(e),
            Ok((layout, free)) => {
                let mut l = layout;
                place_free_outputs(&mut l, &free);
                l.normalize();
                Ok(l)
            },
        }
    }
}

proof fn lemma_assignment_fails(rules: Seq<RuleView>, monitors: Seq<Monitor>, n: int, m: int)
    requires
        n <= m,
        taken_by(rules, monitors, n) is None,
    ensures
        taken_by(rules, monitors, m) is None,
    decreases m,
{
    if n < m {
        lemma_assignment_fails(rules, monitors, n, m - 1);
        assert(taken_by(rules, monitors, m - 1) is None);
        if m <= 0 {
            assert(taken_by(rules, monitors, n) is Some);
        }
    }
}

proof fn lemma_ruled_fails(
    p: ProfileView,
    monitors: Seq<Monitor>,
    taken: Seq<int>,
    n: int,
    m: int,
)
    requires
        0 < n <= m,
        ruled(p, monitors, taken, n) is Err,
    ensures
        ruled(p, monitors, taken, m) == ruled(p, monitors, taken, n),
    decreases m,
{
    if n < m {
        lemma_ruled_fails(p, monitors, taken, n, m - 1);
    }
}

fn covers(taken: &Vec<usize>, monitors: &[Monitor], name: &str) -> (r: bool)
    requires
        forall|k: int| 0 <= k < taken@.len() ==> #[trigger] taken@[k] < monitors@.len(),
    ensures
        r == covered(index_views(taken@), monitors@, name@),
{
    let ghost seen = index_views(taken@);
    let mut k: usize = 0;
    while k < taken.len()
        invariant
            k <= taken@.len(),
            seen == index_views(taken@),
            forall|k: int| 0 <= k < taken@.len() ==> #[trigger] taken@[k] < monitors@.len(),
            forall|j: int| 0 <= j < k ==> monitors@[#[trigger] seen[j]].name@ != name@,
        decreases taken@.len() - k,
    {
        let at: usize = taken[k];
        assert(seen[k as int] == at);
        if same(monitors[at].name.as_str(), name) {
            return true;
        }
        k = k + 1;
    }
    false
}

/// The right edge of what has its position.
fn free_start(layout: &Layout, free: &Vec<String>) -> (r: i64)
    ensures
        r == edge_or_zero(right_edge(layout@.outputs, views(free@))),
        -0x1_0000_0000 <= r <= 0x1_0000_0000,
{
    let ghost outs = layout@.outputs;
    let mut edge: Option<i64> = None;
    let mut i: usize = 0;
    while i < layout.outputs.len()
        invariant
            i <= layout.outputs@.len(),
            outs == layout@.outputs,
            match (edge, right_edge(outs.take(i as int), views(free@))) {
                (Some(a), Some(b)) => a == b && -0x1_0000_0000 <= a <= 0x1_0000_0000,
                (None, None) => true,
                _ => false,
            },
        decreases layout.outputs@.len() - i,
    {
        assert(outs.take(i + 1).drop_last() =~= outs.take(i as int));
        let o = &layout.outputs[i];
        assert(outs[i as int] == o@);
        if o.occupies_space() && !among(free, o.name.as_str()) {
            let right: i64 = o.x as i64 + o.logical_size_rounded().0 as i64;
            edge = match edge {
                Some(e) => if right > e {
                    Some(right)
                } else {
                    Some(e)
                },
                None => Some(right),
            };
        }
        i = i + 1;
    }
    assert(outs.take(outs.len() as int) =~= outs);
    match edge {
        Some(e) => e,
        None => 0,
    }
}

/// Whether every place in the row of free outputs can be expressed.
fn can_place_free(layout: &Layout, free: &Vec<String>) -> (r: bool)
    ensures
        r == line_fits(
            layout@,
            views(free@),
            edge_or_zero(right_edge(layout@.outputs, views(free@))),
        ),
{
    let mut work = layout.clone();
    let mut cursor: i64 = free_start(layout, free);
    let ghost all = views(free@);
    let ghost start = cursor as int;
    let mut k: usize = 0;
    assert(all.skip(0) =~= all);
    while k < free.len()
        invariant
            k <= free@.len(),
            all == views(free@),
            line_fits(work@, all.skip(k as int), cursor as int) == line_fits(layout@, all, start),
            start == edge_or_zero(right_edge(layout@.outputs, views(free@))),
            -0x1_0000_0000 <= cursor <= 0x1_0000_0000,
        decreases free@.len() - k,
    {
        let ghost rest = all.skip(k as int);
        assert(rest[0] == free@[k as int]@);
        assert(rest.skip(1) =~= all.skip(k + 1));
        if let Some(i) = work.position(free[k].as_str()) {
            assert(work@.outputs[i as int] == work.outputs@[i as int]@);
            if work.outputs[i].occupies_space() {
                if cursor < i32::MIN as i64 || cursor > i32::MAX as i64 {
                    return false;
                }
                let ghost before = work@.outputs;
                let width: i64 = work.outputs[i].logical_size_rounded().0 as i64;
                work.outputs[i].x = cursor as i32;
                work.outputs[i].y = 0;
                assert(work@.outputs =~= before.update(
                    i as int,
                    before[i as int].at(cursor as int, 0),
                ));
                cursor = cursor + width;
            }
        }
        k = k + 1;
    }
    true
}

/// Places the outputs whose position is open to the right of the layout.
fn place_free_outputs(layout: &mut Layout, free: &Vec<String>)
    requires
        line_fits(
            old(layout)@,
            views(free@),
            edge_or_zero(right_edge(old(layout)@.outputs, views(free@))),
        ),
    ensures
        final(layout)@ == lined_up(
            old(layout)@,
            views(free@),
            edge_or_zero(right_edge(old(layout)@.outputs, views(free@))),
        ),
{
    let mut cursor: i64 = free_start(layout, free);
    let ghost all = views(free@);
    let ghost first = layout@;
    let ghost start = cursor as int;
    let mut k: usize = 0;
    assert(all.skip(0) =~= all);
    while k < free.len()
        invariant
            k <= free@.len(),
            all == views(free@),
            line_fits(layout@, all.skip(k as int), cursor as int),
            lined_up(layout@, all.skip(k as int), cursor as int) == lined_up(first, all, start),
            -0x1_0000_0000 <= cursor <= 0x1_0000_0000,
        decreases free@.len() - k,
    {
        let ghost rest = all.skip(k as int);
        assert(rest[0] == free@[k as int]@);
        assert(rest.skip(1) =~= all.skip(k + 1));
        if let Some(i) = layout.position(free[k].as_str()) {
            assert(layout@.outputs[i as int] == layout.outputs@[i as int]@);
            if layout.outputs[i].occupies_space() {
                let ghost before = layout@.outputs;
                let width: i64 = layout.outputs[i].logical_size_rounded().0 as i64;
                layout.outputs[i].x = cursor as i32;
                layout.outputs[i].y = 0;
                assert(layout@.outputs =~= before.update(
                    i as int,
                    before[i as int].at(cursor as int, 0),
                ));
                cursor = cursor + width;
            }
        }
        k = k + 1;
    }
}

proof fn lemma_ruled_names(p: ProfileView, monitors: Seq<Monitor>, taken: Seq<int>, n: int)
    requires
        0 <= n <= p.outputs.len(),
        ruled(p, monitors, taken, n) is Ok,
    ensures
        ruled(p, monitors, taken, n)->Ok_0.0.len() == n,
        forall|k: int|
            0 <= k < n ==> (#[trigger] ruled(p, monitors, taken, n)->Ok_0.0[k]).name
                == monitors[taken[k]].name@,
    decreases n,
{
    if n > 0 {
        lemma_ruled_names(p, monitors, taken, n - 1);
    }
}

proof fn lemma_uncovered_names(monitors: Seq<Monitor>, taken: Seq<int>, n: int, i: int) -> (k: int)
    requires
        0 <= i < n <= monitors.len(),
        !covered(taken, monitors, monitors[i].name@),
    ensures
        0 <= k < uncovered(monitors, taken, n).len(),
        uncovered(monitors, taken, n)[k].name == monitors[i].name@,
    decreases n,
{
    if i == n - 1 {
        uncovered(monitors, taken, n).len() - 1
    } else {
        lemma_uncovered_names(monitors, taken, n - 1, i)
    }
}

proof fn lemma_lined_up_names(l: LayoutView, free: Seq<Seq<char>>, cursor: int)
    ensures
        lined_up(l, free, cursor).outputs.len() == l.outputs.len(),
        forall|k: int|
            0 <= k < l.outputs.len() ==> (#[trigger] lined_up(l, free, cursor).outputs[k]).name
                == l.outputs[k].name,
    decreases free.len(),
{
    if free.len() > 0 {
        crate::layout::lemma_named(l.outputs, free[0], 0);
        match named(l.outputs, free[0]) {
            Some(i) => if l.outputs[i].occupies() {
                let next = LayoutView {
                    outputs: l.outputs.update(i, l.outputs[i].at(cursor, 0)),
                    primary: l.primary,
                };
                lemma_lined_up_names(next, free.skip(1), cursor + l.outputs[i].size().0);
                assert forall|k: int| 0 <= k < l.outputs.len() implies (#[trigger] lined_up(
                    l,
                    free,
                    cursor,
                ).outputs[k]).name == l.outputs[k].name by {
                    assert(next.outputs[k].name == l.outputs[k].name);
                }
            } else {
                lemma_lined_up_names(l, free.skip(1), cursor);
            },
            None => lemma_lined_up_names(l, free.skip(1), cursor),
        }
    }
}

/// A resolved profile drops no screen: every connected monitor has an output,
/// whether a rule covers it or not.
pub proof fn resolving_keeps_every_monitor(p: ProfileView, monitors: Seq<Monitor>, i: int) -> (k: int)
    requires
        p.layout(monitors) is Ok,
        0 <= i < monitors.len(),
    ensures
        0 <= k < p.layout(monitors)->Ok_0.outputs.len(),
        p.layout(monitors)->Ok_0.outputs[k].name == monitors[i].name@,
{
    let n = p.outputs.len() as int;
    let taken = p.assignment(monitors).unwrap();
    assignments_are_one_to_one(p, monitors, n);
    let (fixed, free0) = ruled(p, monitors, taken, n)->Ok_0;
    lemma_ruled_names(p, monitors, taken, n);
    let others = uncovered(monitors, taken, monitors.len() as int);
    let (l, free) = prepared(p, monitors)->Ok_0;
    lemma_lined_up_names(l, free, edge_or_zero(right_edge(l.outputs, free)));
    let k = if covered(taken, monitors, monitors[i].name@) {
        let k = choose|k: int|
            0 <= k < taken.len() && monitors[#[trigger] taken[k]].name@ == monitors[i].name@;
        assert(l.outputs[k] == fixed[k]);
        k
    } else {
        let k = lemma_uncovered_names(monitors, taken, monitors.len() as int, i);
        assert(l.outputs[n + k] == others[k]);
        n + k
    };
    let s = p.spread(monitors)->Ok_0;
    assert(s.outputs[k].name == l.outputs[k].name);
    k
}

/// Whether an output is put in the row.
pub open spec fn in_row(outputs: Seq<OutputView>, free: Seq<Seq<char>>, k: int) -> bool {
    outputs[k].occupies() && free.contains(outputs[k].name) && named(outputs, outputs[k].name)
        == Some(k)
}

proof fn lemma_named_moved(outputs: Seq<OutputView>, i: int, x: int, name: Seq<char>, from: int)
    requires
        0 <= i < outputs.len(),
        0 <= from,
    ensures
        named_from(outputs.update(i, outputs[i].at(x, 0)), name, from) == named_from(
            outputs,
            name,
            from,
        ),
    decreases outputs.len() - from,
{
    if from < outputs.len() {
        lemma_named_moved(outputs, i, x, name, from + 1);
    }
}

proof fn lemma_rest(free: Seq<Seq<char>>, name: Seq<char>)
    requires
        free.len() > 0,
    ensures
        free.contains(name) == (name == free[0] || free.skip(1).contains(name)),
{
    let rest = free.skip(1);
    if rest.contains(name) {
        let j = choose|j: int| 0 <= j < rest.len() && rest[j] == name;
        assert(free[j + 1] == name);
    }
    if free.contains(name) && name != free[0] {
        let j = choose|j: int| 0 <= j < free.len() && free[j] == name;
        assert(rest[j - 1] == name);
    }
}

/// An output in the row stands at the cursor or behind it; another one stays.
proof fn lemma_row_place(l: LayoutView, free: Seq<Seq<char>>, cursor: int, k: int)
    requires
        sized(l),
        0 <= k < l.outputs.len(),
    ensures
        ({
            let r = lined_up(l, free, cursor).outputs;
            &&& r.len() == l.outputs.len()
            &&& if in_row(l.outputs, free, k) {
                r[k] == l.outputs[k].at(r[k].x, 0) && r[k].x >= cursor
            } else {
                r[k] == l.outputs[k]
            }
        }),
    decreases free.len(),
{
    if free.len() > 0 {
        let outs = l.outputs;
        let rest = free.skip(1);
        lemma_rest(free, outs[k].name);
        crate::layout::lemma_named(outs, free[0], 0);
        match named(outs, free[0]) {
            Some(i) => if outs[i].occupies() {
                let next = LayoutView {
                    outputs: outs.update(i, outs[i].at(cursor, 0)),
                    primary: l.primary,
                };
                assert forall|j: int|
                    0 <= j < next.outputs.len() && (
                    #[trigger] next.outputs[j]).occupies() implies next.outputs[j].size().0 >= 0
                    && next.outputs[j].size().1 >= 0 by {
                    assert(outs[j].occupies());
                }
                lemma_named_moved(outs, i, cursor, outs[k].name, 0);
                lemma_row_place(next, rest, cursor + outs[i].size().0, k);
            } else {
                lemma_row_place(l, rest, cursor, k);
            },
            None => lemma_row_place(l, rest, cursor, k),
        }
    }
}

/// Two outputs in the row stand behind one another.
proof fn lemma_row_apart(l: LayoutView, free: Seq<Seq<char>>, cursor: int, k: int, j: int)
    requires
        sized(l),
        0 <= k < l.outputs.len(),
        0 <= j < l.outputs.len(),
        k != j,
        in_row(l.outputs, free, k),
        in_row(l.outputs, free, j),
    ensures
        ({
            let r = lined_up(l, free, cursor).outputs;
            r[k].area().2 <= r[j].x || r[j].area().2 <= r[k].x
        }),
    decreases free.len(),
{
    let outs = l.outputs;
    let rest = free.skip(1);
    lemma_rest(free, outs[k].name);
    lemma_rest(free, outs[j].name);
    crate::layout::lemma_named(outs, free[0], 0);
    match named(outs, free[0]) {
        Some(i) => if outs[i].occupies() {
            let next = LayoutView {
                outputs: outs.update(i, outs[i].at(cursor, 0)),
                primary: l.primary,
            };
            let c = cursor + outs[i].size().0;
            assert forall|m: int|
                0 <= m < next.outputs.len() && (
                #[trigger] next.outputs[m]).occupies() implies next.outputs[m].size().0 >= 0
                && next.outputs[m].size().1 >= 0 by {
                assert(outs[m].occupies());
            }
            lemma_named_moved(outs, i, cursor, outs[k].name, 0);
            lemma_named_moved(outs, i, cursor, outs[j].name, 0);
            if in_row(next.outputs, rest, k) && in_row(next.outputs, rest, j) {
                lemma_row_apart(next, rest, c, k, j);
            } else {
                lemma_row_place(next, rest, c, k);
                lemma_row_place(next, rest, c, j);
                assert(k == i || j == i);
                assert(next.outputs[i].size() == outs[i].size());
            }
        } else {
            lemma_row_apart(l, rest, cursor, k, j);
        },
        None => lemma_row_apart(l, rest, cursor, k, j),
    }
}

/// No output with a position of its own reaches beyond the right edge.
proof fn lemma_right_edge(outputs: Seq<OutputView>, free: Seq<Seq<char>>, j: int)
    requires
        0 <= j < outputs.len(),
        outputs[j].occupies(),
        !free.contains(outputs[j].name),
    ensures
        right_edge(outputs, free) is Some,
        outputs[j].area().2 <= right_edge(outputs, free).unwrap(),
    decreases outputs.len(),
{
    if j < outputs.len() - 1 {
        assert(outputs.drop_last()[j] == outputs[j]);
        lemma_right_edge(outputs.drop_last(), free, j);
    }
}

/// Where no size is negative, an output whose position is open stands to the
/// right of every output that has a position, and overlaps no output that takes
/// up space. Of outputs with an open position that share a connector only the
/// first is placed.
pub proof fn free_outputs_overlap_nothing(p: ProfileView, monitors: Seq<Monitor>, k: int, j: int)
    requires
        p.layout(monitors) is Ok,
        sized(p.layout(monitors)->Ok_0),
        0 <= k < p.layout(monitors)->Ok_0.outputs.len(),
        0 <= j < p.layout(monitors)->Ok_0.outputs.len(),
        k != j,
        p.layout(monitors)->Ok_0.outputs[j].occupies(),
        in_row(p.layout(monitors)->Ok_0.outputs, prepared(p, monitors)->Ok_0.1, k),
        prepared(p, monitors)->Ok_0.1.contains(p.layout(monitors)->Ok_0.outputs[j].name)
            ==> in_row(p.layout(monitors)->Ok_0.outputs, prepared(p, monitors)->Ok_0.1, j),
    ensures
        ({
            let outs = p.layout(monitors)->Ok_0.outputs;
            let free = prepared(p, monitors)->Ok_0.1;
            &&& !overlapping(outs[k].area(), outs[j].area())
            &&& !free.contains(outs[j].name) ==> outs[j].area().2 <= outs[k].x
        }),
{
    let (l, free) = prepared(p, monitors)->Ok_0;
    let cursor = edge_or_zero(right_edge(l.outputs, free));
    let s = lined_up(l, free, cursor);
    let outs = s.normalized().outputs;
    lemma_row_shape(l, free, cursor);
    assert forall|i: int| 0 <= i < l.outputs.len() && (#[trigger] l.outputs[i]).occupies() implies l.outputs[i].size().0
        >= 0 && l.outputs[i].size().1 >= 0 by {
        assert(s.outputs[i].at(0, 0) == l.outputs[i].at(0, 0));
        assert(outs[i].occupies());
        assert(outs[i].size() == l.outputs[i].size());
    }
    assert(s.outputs[k].at(0, 0) == l.outputs[k].at(0, 0));
    assert(s.outputs[j].at(0, 0) == l.outputs[j].at(0, 0));
    lemma_same_named(l.outputs, outs, l.outputs[k].name, 0);
    lemma_same_named(l.outputs, outs, l.outputs[j].name, 0);
    lemma_row_place(l, free, cursor, k);
    lemma_row_place(l, free, cursor, j);
    assert(outs[k].size() == s.outputs[k].size());
    assert(outs[j].size() == s.outputs[j].size());
    if free.contains(l.outputs[j].name) {
        lemma_row_apart(l, free, cursor, k, j);
    } else {
        lemma_right_edge(l.outputs, free, j);
    }
}

/// Lining up moves outputs and changes nothing else of them.
pub proof fn lemma_row_shape(l: LayoutView, free: Seq<Seq<char>>, cursor: int)
    ensures
        lined_up(l, free, cursor).outputs.len() == l.outputs.len(),
        forall|k: int|
            0 <= k < l.outputs.len() ==> (#[trigger] lined_up(l, free, cursor).outputs[k]).at(0, 0)
                == l.outputs[k].at(0, 0),
    decreases free.len(),
{
    if free.len() > 0 {
        crate::layout::lemma_named(l.outputs, free[0], 0);
        match named(l.outputs, free[0]) {
            Some(i) => if l.outputs[i].occupies() {
                let next = LayoutView {
                    outputs: l.outputs.update(i, l.outputs[i].at(cursor, 0)),
                    primary: l.primary,
                };
                lemma_row_shape(next, free.skip(1), cursor + l.outputs[i].size().0);
                assert forall|k: int| 0 <= k < l.outputs.len() implies (#[trigger] lined_up(
                    l,
                    free,
                    cursor,
                ).outputs[k]).at(0, 0) == l.outputs[k].at(0, 0) by {
                    assert(next.outputs[k].at(0, 0) == l.outputs[k].at(0, 0));
                }
            } else {
                lemma_row_shape(l, free.skip(1), cursor);
            },
            None => lemma_row_shape(l, free.skip(1), cursor),
        }
    }
}

proof fn lemma_same_named(a: Seq<OutputView>, b: Seq<OutputView>, name: Seq<char>, from: int)
    requires
        a.len() == b.len(),
        forall|i: int| 0 <= i < a.len() ==> (#[trigger] a[i]).name == b[i].name,
        0 <= from,
    ensures
        named_from(a, name, from) == named_from(b, name, from),
    decreases a.len() - from,
{
    if from < a.len() {
        assert(a[from].name == b[from].name);
        lemma_same_named(a, b, name, from + 1);
    }
}

// ---------------------------------------------------------------- settings

/// Global settings of the daemon and the web server.
#[derive(Debug, PartialEq, Eq)]
pub struct Settings {
    /// Port of the web UI.
    pub web_port: u16,
    /// Address to listen on. Local by default: the API drives the display, it
    /// has no business on the network without an explicit decision.
    pub bind: String,
    /// Apply the matching profile when hardware changes.
    pub auto_apply: bool,
    /// The plugin to use; `None` or `auto` = the one that is running.
    pub compositor: Option<String>,
    /// Seconds before an unconfirmed change is reverted; `0` switches the
    /// safety net off.
    pub confirm_timeout_secs: u64,
    /// Generated monitor file; `None` = the plugin's own path.
    pub monitors_lua: Option<String>,
    /// Generated keyboard and pointer file; `None` = the plugin's own path.
    pub input_lua: Option<String>,
    /// Tell the user what changed.
    pub notifications: bool,
    /// Bring back the layout last used with the same screens.
    pub remember: bool,
    /// The main screen, as a pattern.
    pub primary: Option<String>,
    /// The language to speak; `None` = the one the environment asks for.
    pub language: Option<String>,
}

#[verifier::ext_equal]
pub ghost struct SettingsView {
    pub web_port: u16,
    pub bind: Seq<char>,
    pub auto_apply: bool,
    pub compositor: Option<Seq<char>>,
    pub confirm_timeout_secs: u64,
    pub monitors_lua: Option<Seq<char>>,
    pub input_lua: Option<Seq<char>>,
    pub notifications: bool,
    pub remember: bool,
    pub primary: Option<Seq<char>>,
    pub language: Option<Seq<char>>,
}

impl View for Settings {
    type V = SettingsView;

    open spec fn view(&self) -> SettingsView {
        SettingsView {
            web_port: self.web_port,
            bind: self.bind@,
            auto_apply: self.auto_apply,
            compositor: view_opt(self.compositor),
            confirm_timeout_secs: self.confirm_timeout_secs,
            monitors_lua: view_opt(self.monitors_lua),
            input_lua: view_opt(self.input_lua),
            notifications: self.notifications,
            remember: self.remember,
            primary: view_opt(self.primary),
            language: view_opt(self.language),
        }
    }
}

pub open spec fn default_settings() -> SettingsView {
    SettingsView {
        web_port: 8787,
        bind: "127.0.0.1"@,
        auto_apply: true,
        compositor: None,
        confirm_timeout_secs: 10,
        monitors_lua: None,
        input_lua: None,
        notifications: true,
        remember: true,
        primary: None,
        language: None,
    }
}

impl Default for Settings {
    fn default() -> (r: Self)
        ensures
            r@ == default_settings(),
    {
        Settings {
            web_port: 8787,
            bind: "127.0.0.1".to_owned(),
            auto_apply: true,
            compositor: None,
            confirm_timeout_secs: 10,
            monitors_lua: None,
            input_lua: None,
            notifications: true,
            remember: true,
            primary: None,
            language: None,
        }
    }
}

impl Clone for Settings {
    fn clone(&self) -> (r: Self)
        ensures
            r@ == self@,
    {
        Settings {
            web_port: self.web_port,
            bind: self.bind.clone(),
            auto_apply: self.auto_apply,
            compositor: copy_opt(&self.compositor),
            confirm_timeout_secs: self.confirm_timeout_secs,
            monitors_lua: copy_opt(&self.monitors_lua),
            input_lua: copy_opt(&self.input_lua),
            notifications: self.notifications,
            remember: self.remember,
            primary: copy_opt(&self.primary),
            language: copy_opt(&self.language),
        }
    }
}

/// The complete contents of `config.toml`.
#[derive(Debug, PartialEq, Eq)]
pub struct Config {
    pub settings: Settings,
    pub profiles: Vec<Profile>,
    pub input: InputConfig,
}

#[verifier::ext_equal]
pub ghost struct ConfigView {
    pub settings: SettingsView,
    pub profiles: Seq<ProfileView>,
    pub input: InputView,
}

pub open spec fn profile_views(v: Seq<Profile>) -> Seq<ProfileView> {
    Seq::new(v.len(), |i: int| v[i]@)
}

impl View for Config {
    type V = ConfigView;

    open spec fn view(&self) -> ConfigView {
        ConfigView {
            settings: self.settings@,
            profiles: profile_views(self.profiles@),
            input: self.input@,
        }
    }
}

impl Default for Config {
    fn default() -> (r: Self)
        ensures
            r@ == (ConfigView {
                settings: default_settings(),
                profiles: Seq::empty(),
                input: default_input(),
            }),
    {
        let profiles: Vec<Profile> = Vec::new();
        assert(profile_views(profiles@) =~= Seq::empty());
        Config { settings: Settings::default(), profiles, input: InputConfig::default() }
    }
}

impl Clone for Config {
    fn clone(&self) -> (r: Self)
        ensures
            r@ == self@,
    {
        let mut profiles: Vec<Profile> = Vec::new();
        let mut i: usize = 0;
        while i < self.profiles.len()
            invariant
                i <= self.profiles@.len(),
                profile_views(profiles@) == self@.profiles.take(i as int),
            decreases self.profiles@.len() - i,
        {
            let ghost before = profile_views(profiles@);
            let p = self.profiles[i].clone();
            profiles.push(p);
            i = i + 1;
            assert(profile_views(profiles@) =~= before.push(self@.profiles[i - 1]));
            assert(profile_views(profiles@) =~= self@.profiles.take(i as int));
        }
        assert(profile_views(profiles@) =~= self@.profiles);
        Config { settings: self.settings.clone(), profiles, input: self.input.clone() }
    }
}

/// The first profile from `i` on with the given name.
pub open spec fn profile_from(profiles: Seq<ProfileView>, name: Seq<char>, i: int) -> Option<int>
    decreases profiles.len() - i,
{
    if i < 0 || i >= profiles.len() {
        None
    } else if profiles[i].name == name {
        Some(i)
    } else {
        profile_from(profiles, name, i + 1)
    }
}

pub open spec fn profile_named(profiles: Seq<ProfileView>, name: Seq<char>) -> Option<int> {
    profile_from(profiles, name, 0)
}

/// The profiles with one put in: in the place of the first of its name, or at
/// the end.
pub open spec fn upserted(profiles: Seq<ProfileView>, p: ProfileView) -> Seq<ProfileView> {
    match profile_named(profiles, p.name) {
        Some(i) => profiles.update(i, p),
        None => profiles.push(p),
    }
}

/// The profiles of other names.
pub open spec fn without_profile(profiles: Seq<ProfileView>, name: Seq<char>) -> Seq<ProfileView>
    decreases profiles.len(),
{
    if profiles.len() == 0 {
        Seq::empty()
    } else {
        let before = without_profile(profiles.drop_last(), name);
        if profiles.last().name == name {
            before
        } else {
            before.push(profiles.last())
        }
    }
}

/// Whether a profile is preferred to another one that comes before it.
pub open spec fn outranks(a: ProfileView, b: ProfileView) -> bool {
    a.outputs.len() > b.outputs.len() || (a.outputs.len() == b.outputs.len() && a.exact && !b.exact)
}

/// The best of the first `n` profiles: the one that covers the most monitors,
/// then an exact one, then the first declared.
pub open spec fn best_of(profiles: Seq<ProfileView>, monitors: Seq<Monitor>, n: int) -> Option<int>
    decreases n,
{
    if n <= 0 {
        None
    } else {
        let best = best_of(profiles, monitors, n - 1);
        if !profiles[n - 1].fits(monitors) {
            best
        } else {
            match best {
                Some(b) => if outranks(profiles[n - 1], profiles[b]) {
                    Some(n - 1)
                } else {
                    best
                },
                None => Some(n - 1),
            }
        }
    }
}

/// The chosen profile matches the hardware, no other one that matches outranks
/// it, and none that is its equal was declared before it. None is chosen only
/// where none matches.
pub proof fn best_profile_is_unbeaten(profiles: Seq<ProfileView>, monitors: Seq<Monitor>, n: int)
    requires
        0 <= n <= profiles.len(),
    ensures
        match best_of(profiles, monitors, n) {
            Some(b) => 0 <= b < n && profiles[b].fits(monitors) && forall|j: int|
                0 <= j < n && (#[trigger] profiles[j]).fits(monitors) ==> !outranks(
                    profiles[j],
                    profiles[b],
                ) && (j < b ==> outranks(profiles[b], profiles[j])),
            None => forall|j: int| 0 <= j < n ==> !(#[trigger] profiles[j]).fits(monitors),
        },
    decreases n,
{
    if n > 0 {
        best_profile_is_unbeaten(profiles, monitors, n - 1);
    }
}

/// The connector of the first monitor that a pattern designates.
pub open spec fn designated(pattern: Seq<char>, monitors: Seq<Monitor>) -> Option<Seq<char>>
    decreases monitors.len(),
{
    if monitors.len() == 0 {
        None
    } else if designates(pattern, monitors[0]) {
        Some(monitors[0].name@)
    } else {
        designated(pattern, monitors.skip(1))
    }
}

impl ConfigView {
    /// The connector of the main screen, where it is connected.
    pub open spec fn primary_among(self, monitors: Seq<Monitor>) -> Option<Seq<char>> {
        match self.settings.primary {
            Some(pattern) => designated(pattern, monitors),
            None => None,
        }
    }
}

impl Config {
    /// The position of the first profile with the given name.
    pub fn profile_position(&self, name: &str) -> (r: Option<usize>)
        ensures
            match r {
                Some(i) => profile_named(self@.profiles, name@) == Some(i as int) && i
                    < self.profiles@.len(),
                None => profile_named(self@.profiles, name@) is None,
            },
    {
        let mut i: usize = 0;
        while i < self.profiles.len()
            invariant
                i <= self.profiles@.len(),
                profile_named(self@.profiles, name@) == profile_from(
                    self@.profiles,
                    name@,
                    i as int,
                ),
            decreases self.profiles@.len() - i,
        {
            if same(self.profiles[i].name.as_str(), name) {
                return Some(i);
            }
            i = i + 1;
        }
        None
    }

    pub fn profile(&self, name: &str) -> (r: Option<&Profile>)
        ensures
            match (r, profile_named(self@.profiles, name@)) {
                (Some(p), Some(i)) => 0 <= i < self.profiles@.len() && *p == self.profiles@[i],
                (None, None) => true,
                _ => false,
            },
    {
        match self.profile_position(name) {
            Some(i) => Some(&self.profiles[i]),
            None => None,
        }
    }

    /// Replaces the profile of the same name, or adds it.
    pub fn upsert(&mut self, profile: Profile)
        ensures
            final(self)@ == (ConfigView {
                profiles: upserted(old(self)@.profiles, profile@),
                ..old(self)@
            }),
    {
        let ghost before = self@.profiles;
        let ghost shown = profile@;
        match self.profile_position(profile.name.as_str()) {
            Some(i) => {
                self.profiles.set(i, profile);
                assert(self@.profiles =~= before.update(i as int, shown));
            },
            None => {
                self.profiles.push(profile);
                assert(self@.profiles =~= before.push(shown));
            },
        }
    }

    /// Removes the profiles of a name; there has to be one.
    pub fn remove(&mut self, name: &str) -> (r: Result<(), Notice>)
        ensures
            final(self)@ == (ConfigView {
                profiles: without_profile(old(self)@.profiles, name@),
                ..old(self)@
            }),
            match r {
                Ok(_) => profile_named(old(self)@.profiles, name@) is Some,
                Err(e) => profile_named(old(self)@.profiles, name@) is None && e@ == note(
                    NoticeId::UnknownProfile,
                    seq![name@],
                ),
            },
    {
        let known = self.profile_position(name).is_some();
        let ghost all = self@.profiles;
        let mut kept: Vec<Profile> = Vec::new();
        let mut i: usize = 0;
        assert(profile_views(kept@) =~= Seq::empty());
        while i < self.profiles.len()
            invariant
                i <= self.profiles@.len(),
                all == self@.profiles,
                profile_views(kept@) == without_profile(all.take(i as int), name@),
            decreases self.profiles@.len() - i,
        {
            assert(all.take(i + 1).drop_last() =~= all.take(i as int));
            if !same(self.profiles[i].name.as_str(), name) {
                let ghost before = profile_views(kept@);
                let p = self.profiles[i].clone();
                let ghost shown = p@;
                kept.push(p);
                assert(profile_views(kept@) =~= before.push(shown));
            }
            i = i + 1;
        }
        assert(all.take(all.len() as int) =~= all);
        self.profiles = kept;
        if known {
            Ok(())
        } else {
            Err(Notice::one(NoticeId::UnknownProfile, name))
        }
    }

    /// Best profile for the connected hardware.
    ///
    /// The profile that covers the most monitors wins; among equals an `exact`
    /// one, then the first declared.
    pub fn best_match(&self, monitors: &[Monitor]) -> (r: Option<&Profile>)
        ensures
            match (r, best_of(self@.profiles, monitors@, self@.profiles.len() as int)) {
                (Some(p), Some(i)) => 0 <= i < self.profiles@.len() && *p == self.profiles@[i],
                (None, None) => true,
                _ => false,
            },
    {
        let mut best: Option<usize> = None;
        let mut i: usize = 0;
        let ghost all = self@.profiles;
        while i < self.profiles.len()
            invariant
                i <= self.profiles@.len(),
                all == self@.profiles,
                match (best, best_of(all, monitors@, i as int)) {
                    (Some(a), Some(b)) => a == b && a < i,
                    (None, None) => true,
                    _ => false,
                },
            decreases self.profiles@.len() - i,
        {
            let p = &self.profiles[i];
            assert(all[i as int] == p@);
            assert(p@.outputs.len() == p.outputs@.len());
            if p.matches(monitors) {
                best = match best {
                    Some(b) => {
                        let q = &self.profiles[b];
                        assert(all[b as int] == q@);
                        assert(q@.outputs.len() == q.outputs@.len());
                        if p.outputs.len() > q.outputs.len() || (p.outputs.len() == q.outputs.len()
                            && p.exact && !q.exact) {
                            Some(i)
                        } else {
                            Some(b)
                        }
                    },
                    None => Some(i),
                };
            }
            i = i + 1;
        }
        match best {
            Some(i) => Some(&self.profiles[i]),
            None => None,
        }
    }

    /// The connector of the main screen, where it is connected.
    ///
    /// Kept as a pattern rather than a connector, so that it survives being
    /// plugged into another port.
    pub fn primary_output(&self, monitors: &[Monitor]) -> (r: Option<String>)
        ensures
            view_opt(r) == self@.primary_among(monitors@),
    {
        match &self.settings.primary {
            Some(pattern) => designated_name(pattern.as_str(), monitors),
            None => None,
        }
    }

    /// The plugin that the settings or the environment ask for.
    pub fn compositor(&self, env: &Environment) -> (r: Result<Plugin, Notice>)
        ensures
            match (r, resolved(self@.settings.compositor, *env)) {
                (Ok(a), Ok(b)) => a == b,
                (Err(a), Err(b)) => a@ == b,
                _ => false,
            },
    {
        let wish = match &self.settings.compositor {
            Some(s) => Some(s.as_str()),
            None => None,
        };
        resolve_plugin(wish, env)
    }
}

fn designated_name(pattern: &str, monitors: &[Monitor]) -> (r: Option<String>)
    ensures
        view_opt(r) == designated(pattern@, monitors@),
{
    let mut i: usize = 0;
    assert(monitors@.skip(0) =~= monitors@);
    while i < monitors.len()
        invariant
            i <= monitors@.len(),
            designated(pattern@, monitors@) == designated(pattern@, monitors@.skip(i as int)),
        decreases monitors@.len() - i,
    {
        if matches_pattern(pattern, &monitors[i]) {
            return Some(monitors[i].name.clone());
        }
        assert(monitors@.skip(i as int).skip(1) =~= monitors@.skip(i + 1));
        i = i + 1;
    }
    None
}

proof fn lemma_profile_from(profiles: Seq<ProfileView>, name: Seq<char>, i: int)
    requires
        0 <= i,
    ensures
        match profile_from(profiles, name, i) {
            Some(k) => i <= k < profiles.len() && profiles[k].name == name && forall|j: int|
                i <= j < k ==> (#[trigger] profiles[j]).name != name,
            None => forall|j: int|
                i <= j < profiles.len() ==> (#[trigger] profiles[j]).name != name,
        },
    decreases profiles.len() - i,
{
    if i < profiles.len() && profiles[i].name != name {
        lemma_profile_from(profiles, name, i + 1);
    }
}

proof fn lemma_profile_at(profiles: Seq<ProfileView>, name: Seq<char>, i: int, k: int)
    requires
        0 <= i <= k < profiles.len(),
        profiles[k].name == name,
        forall|j: int| i <= j < k ==> (#[trigger] profiles[j]).name != name,
    ensures
        profile_from(profiles, name, i) == Some(k),
    decreases k - i,
{
    if i < k {
        assert(profiles[i].name != name);
        lemma_profile_at(profiles, name, i + 1, k);
    }
}

/// What was put in is found under its name, and every other name still finds
/// what it found before.
pub proof fn upserted_profiles_are_found(profiles: Seq<ProfileView>, p: ProfileView, other: Seq<char>)
    ensures
        ({
            let after = upserted(profiles, p);
            let at = profile_named(after, p.name);
            &&& at is Some
            &&& after[at.unwrap()] == p
            &&& other != p.name ==> profile_named(after, other) == profile_named(profiles, other)
                && (profile_named(profiles, other) is Some
                ==> after[profile_named(profiles, other).unwrap()]
                == profiles[profile_named(profiles, other).unwrap()])
        }),
{
    let after = upserted(profiles, p);
    lemma_profile_from(profiles, p.name, 0);
    let k = match profile_named(profiles, p.name) {
        Some(i) => i,
        None => profiles.len() as int,
    };
    assert forall|j: int| 0 <= j < k implies (#[trigger] after[j]).name != p.name by {
        assert(profiles[j].name != p.name);
    }
    lemma_profile_at(after, p.name, 0, k);
    if other != p.name {
        lemma_profile_from(profiles, other, 0);
        lemma_profile_from(after, other, 0);
        match profile_named(profiles, other) {
            Some(i) => {
                assert(after[i].name == other);
                assert forall|j: int| 0 <= j < i implies (#[trigger] after[j]).name != other by {
                    assert(profiles[j].name != other);
                }
                lemma_profile_at(after, other, 0, i);
            },
            None => {
                if let Some(i) = profile_named(after, other) {
                    if i < profiles.len() && i != k {
                        assert(profiles[i].name == other);
                    }
                }
            },
        }
    }
}

/// What was removed is not found any more.
pub proof fn removed_profiles_are_gone(profiles: Seq<ProfileView>, name: Seq<char>)
    ensures
        forall|j: int|
            0 <= j < without_profile(profiles, name).len() ==> (#[trigger] without_profile(
                profiles,
                name,
            )[j]).name != name,
        profile_named(without_profile(profiles, name), name) is None,
        profile_named(profiles, name) is None ==> without_profile(profiles, name) == profiles,
    decreases profiles.len(),
{
    let after = without_profile(profiles, name);
    if profiles.len() > 0 {
        let body = profiles.drop_last();
        removed_profiles_are_gone(body, name);
        lemma_profile_from(profiles, name, 0);
        lemma_profile_from(body, name, 0);
        if profile_named(profiles, name) is None {
            assert(profiles[profiles.len() - 1].name != name);
            if let Some(i) = profile_named(body, name) {
                assert(profiles[i].name == name);
            }
            assert(body.push(profiles.last()) =~= profiles);
        }
    } else {
        assert(after =~= profiles);
    }
    lemma_profile_from(after, name, 0);
}

// ---------------------------------------------------------------- paths

/// The program's own directory.
pub fn config_dir(env: &Environment) -> (r: String)
    ensures
        r@ == path_join(env.config_root(), "hyprdmc"@),
{
    env.config_subdir("hyprdmc")
}

/// Where `config.toml` lies.
pub fn config_path(env: &Environment) -> (r: String)
    ensures
        r@ == path_join(path_join(env.config_root(), "hyprdmc"@), "config.toml"@),
{
    join_path(config_dir(env).as_str(), "config.toml")
}

/// Hyprland's configuration file from before its Lua times.
pub fn hyprland_conf(env: &Environment) -> (r: String)
    ensures
        r@ == path_join(path_join(env.config_root(), "hypr"@), "hyprland.conf"@),
{
    join_path(env.config_subdir("hypr").as_str(), "hyprland.conf")
}

} // verus!
