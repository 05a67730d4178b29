//! What the web interface decides: which layout a request asks for, which asset
//! answers one and whether it has changed, and what an imported configuration
//! may replace.

use vstd::prelude::*;

use crate::apply::monitor_named;
use crate::cli::{anchor, anchored, find, unknown_connector};
use crate::config::{Config, ConfigView, SettingsView};
use crate::layout::{output_views, Layout, LayoutView, OutputState};
use crate::monitor::Monitor;
use crate::notice::{note, Notice, NoticeId, NoticeView};
use crate::number::{hex_byte, hex_char, nat_string, nat_text};
use crate::text::{
    copy_opt, pieces, same, slice_string, split, to_chars, trim, trimmed, view_opt, view_opt_str,
    views,
};

verus! {

/// The layout that a request asks for: as it was drawn, unless it names a main
/// screen, around which it is then built.
pub fn requested_layout(outputs: Vec<OutputState>, primary: Option<String>) -> (r: Result<
    Layout,
    Notice,
>)
    ensures
        ({
            let drawn = LayoutView { outputs: output_views(outputs@), primary: view_opt(primary) };
            match r {
                Ok(l) => if primary is Some {
                    anchored(drawn) == Ok::<LayoutView, NoticeView>(l@)
                } else {
                    l@ == drawn
                },
                Err(e) => primary is Some && anchored(drawn) == Err::<LayoutView, NoticeView>(e@),
            }
        }),
{
    let named = primary.is_some();
    let layout = Layout::new(outputs).with_primary(primary);
    if named {
        anchor(layout)
    } else {
        Ok(layout)
    }
}

/// Records the main screen that a request names by its connector, or that there
/// is none.
///
/// Recorded by fingerprint: the choice is about a screen, not about a port.
pub fn record_primary(config: &mut Config, primary: Option<&str>, monitors: &[Monitor]) -> (r:
    Result<(), Notice>)
    ensures
        match (r, primary) {
            (Ok(()), None) => final(config)@ == with_main(old(config)@, None),
            (Ok(()), Some(name)) => match monitor_named(monitors@, name@) {
                Some(k) => final(config)@ == with_main(old(config)@, Some(monitors@[k].print())),
                None => false,
            },
            (Err(e), Some(name)) => monitor_named(monitors@, name@) is None && e@
                == unknown_connector(monitors@, name@) && final(config)@ == old(config)@,
            (Err(_), None) => false,
        },
{
    match primary {
        None => {
            config.settings.primary = None;
            Ok(())
        },
        Some(name) => match find(monitors, name) {
            Ok(i) => {
                config.settings.primary = Some(monitors[i].fingerprint());
                Ok(())
            },
            Err(e) => Err(e),
        },
    }
}

/// A configuration with another main screen.
pub open spec fn with_main(config: ConfigView, primary: Option<Seq<char>>) -> ConfigView {
    ConfigView { settings: SettingsView { primary, ..config.settings }, ..config }
}

/// Marker carried by an exported file, so an import can tell a configuration
/// from any other JSON the user happened to pick.
pub fn bundle_kind() -> (r: &'static str)
    ensures
        r@ == "hyprdmc-config"@,
{
    "hyprdmc-config"
}

/// Bumped when the shape changes in a way an older program cannot read.
pub const BUNDLE_VERSION: u32 = 1;

/// A configuration with the machine-local settings of another one.
pub open spec fn imported(current: ConfigView, bundle: ConfigView) -> ConfigView {
    ConfigView {
        settings: SettingsView {
            web_port: current.settings.web_port,
            bind: current.settings.bind,
            monitors_lua: current.settings.monitors_lua,
            input_lua: current.settings.input_lua,
            ..bundle.settings
        },
        ..bundle
    }
}

/// Replaces the configuration with an exported one.
///
/// Machine-local plumbing is deliberately *not* imported: the listening port,
/// the bind address and the two generated-file paths stay as they are here. A
/// configuration exported on another machine carries that machine's home
/// directory. Everything the user actually meant to move — profiles, keyboard
/// and pointer, behaviour — comes across.
pub fn import_config(current: &Config, kind: &str, version: u32, config: Config) -> (r: Result<
    Config,
    Notice,
>)
    ensures
        match r {
            Ok(c) => kind@ == "hyprdmc-config"@ && version <= BUNDLE_VERSION && c@ == imported(
                current@,
                config@,
            ),
            Err(e) => if kind@ != "hyprdmc-config"@ {
                e@ == note(NoticeId::NotABundle, seq![])
            } else {
                version > BUNDLE_VERSION && e@ == note(
                    NoticeId::BundleTooNew,
                    seq![nat_text(version as nat), nat_text(BUNDLE_VERSION as nat)],
                )
            },
        },
{
    if !same(kind, bundle_kind()) {
        return Err(Notice::plain(NoticeId::NotABundle));
    }
    if version > BUNDLE_VERSION {
        return Err(
            Notice::two(
                NoticeId::BundleTooNew,
                nat_string(version as u128).as_str(),
                nat_string(BUNDLE_VERSION as u128).as_str(),
            ),
        );
    }
    let mut next = config;
    next.settings.web_port = current.settings.web_port;
    next.settings.bind = current.settings.bind.clone();
    next.settings.monitors_lua = copy_opt(&current.settings.monitors_lua);
    next.settings.input_lua = copy_opt(&current.settings.input_lua);
    Ok(next)
}

/// An import brings every profile and the keyboard and pointer settings, keeps
/// the four machine-local settings, and importing one's own export changes
/// nothing.
pub proof fn imports_keep_what_is_local(current: ConfigView, bundle: ConfigView)
    ensures
        imported(current, bundle).profiles == bundle.profiles,
        imported(current, bundle).input == bundle.input,
        imported(current, bundle).settings.web_port == current.settings.web_port,
        imported(current, bundle).settings.bind == current.settings.bind,
        imported(current, bundle).settings.monitors_lua == current.settings.monitors_lua,
        imported(current, bundle).settings.input_lua == current.settings.input_lua,
        imported(current, bundle).settings.primary == bundle.settings.primary,
        imported(current, bundle).settings.compositor == bundle.settings.compositor,
        imported(current, current) == current,
{
}

/// The leading slashes of a request's path.
pub open spec fn slashes(s: Seq<char>) -> nat
    decreases s.len(),
{
    if s.len() > 0 && s[0] == '/' {
        1 + slashes(s.skip(1))
    } else {
        0
    }
}

/// The asset that a path asks for.
pub open spec fn asset_named(path: Seq<char>) -> Seq<char> {
    let p = path.skip(slashes(path) as int);
    if p.len() == 0 {
        "index.html"@
    } else {
        p
    }
}

/// The asset that a request's path asks for: the page itself where it asks for
/// nothing.
pub fn asset_path(path: &str) -> (r: String)
    ensures
        r@ == asset_named(path@),
{
    let v = to_chars(path);
    let mut i: usize = 0;
    assert(v@.skip(0) =~= v@);
    while i < v.len() && v[i] == '/'
        invariant
            i <= v@.len(),
            i + slashes(v@.skip(i as int)) == slashes(v@),
        decreases v@.len() - i,
    {
        assert(v@.skip(i as int).skip(1) =~= v@.skip(i + 1));
        i = i + 1;
    }
    if i == v.len() {
        return "index.html".to_owned();
    }
    assert(v@.subrange(i as int, v@.len() as int) =~= v@.skip(i as int));
    slice_string(&v, i, v.len())
}

/// The first bytes in hexadecimal.
pub open spec fn hex_text(bytes: Seq<u8>, n: int) -> Seq<char>
    decreases n,
{
    if n <= 0 {
        Seq::empty()
    } else {
        hex_text(bytes, n - 1).push(hex_char((bytes[n - 1] / 16) as int)).push(
            hex_char((bytes[n - 1] % 16) as int),
        )
    }
}

/// A content hash as a quoted entity tag. Eight bytes are ample to tell two
/// builds apart and keep the header short.
pub open spec fn etag(hash: Seq<u8>) -> Seq<char> {
    seq!['"'] + hex_text(hash, 8) + seq!['"']
}

/// Renders a content hash as a quoted entity tag.
pub fn etag_for(hash: &[u8; 32]) -> (r: String)
    ensures
        r@ == etag(hash@),
{
    let mut tag = String::new();
    tag.push('"');
    let mut i: usize = 0;
    assert(tag@ =~= seq!['"'] + hex_text(hash@, 0));
    while i < 8
        invariant
            i <= 8,
            tag@ == seq!['"'] + hex_text(hash@, i as int),
        decreases 8 - i,
    {
        let (h, l) = hex_byte(hash[i]);
        tag.push(h);
        tag.push(l);
        i = i + 1;
        assert(tag@ =~= seq!['"'] + hex_text(hash@, i as int));
    }
    tag.push('"');
    assert(tag@ =~= etag(hash@));
    tag
}

proof fn lemma_hex(a: u8, b: u8)
    requires
        hex_char((a / 16) as int) == hex_char((b / 16) as int),
        hex_char((a % 16) as int) == hex_char((b % 16) as int),
    ensures
        a == b,
{
    lemma_hex_char((a / 16) as int, (b / 16) as int);
    lemma_hex_char((a % 16) as int, (b % 16) as int);
}

proof fn lemma_hex_char(a: int, b: int)
    requires
        0 <= a < 16,
        0 <= b < 16,
        hex_char(a) == hex_char(b),
    ensures
        a == b,
{
    assert(((48 + a) as u8) as char == ((48 + a) as char));
}

proof fn lemma_hex_text(a: Seq<u8>, b: Seq<u8>, n: int)
    requires
        0 <= n <= a.len(),
        n <= b.len(),
        hex_text(a, n) == hex_text(b, n),
    ensures
        forall|i: int| 0 <= i < n ==> a[i] == b[i],
        hex_text(a, n).len() == 2 * n,
    decreases n,
{
    lemma_hex_len(a, n);
    lemma_hex_len(b, n);
    if n > 0 {
        lemma_hex_len(a, n - 1);
        lemma_hex_len(b, n - 1);
        let x = hex_text(a, n);
        let y = hex_text(b, n);
        assert(x[2 * n - 2] == y[2 * n - 2] && x[2 * n - 1] == y[2 * n - 1]);
        lemma_hex(a[n - 1], b[n - 1]);
        assert(x.take(2 * n - 2) =~= hex_text(a, n - 1));
        assert(y.take(2 * n - 2) =~= hex_text(b, n - 1));
        lemma_hex_text(a, b, n - 1);
    }
}

proof fn lemma_hex_len(a: Seq<u8>, n: int)
    requires
        0 <= n,
    ensures
        hex_text(a, n).len() == 2 * n,
    decreases n,
{
    if n > 0 {
        lemma_hex_len(a, n - 1);
    }
}

/// Two hashes have the same tag exactly when their first eight bytes agree.
pub proof fn tags_tell_hashes_apart(a: Seq<u8>, b: Seq<u8>)
    requires
        a.len() >= 8,
        b.len() >= 8,
    ensures
        (etag(a) == etag(b)) == (a.take(8) == b.take(8)),
{
    lemma_hex_len(a, 8);
    lemma_hex_len(b, 8);
    if etag(a) == etag(b) {
        assert(etag(a).subrange(1, 17) =~= hex_text(a, 8));
        assert(etag(b).subrange(1, 17) =~= hex_text(b, 8));
        lemma_hex_text(a, b, 8);
        assert(a.take(8) =~= b.take(8));
    }
    if a.take(8) == b.take(8) {
        lemma_hex_same(a, b, 8);
    }
}

proof fn lemma_hex_same(a: Seq<u8>, b: Seq<u8>, n: int)
    requires
        0 <= n <= 8,
        a.len() >= 8,
        b.len() >= 8,
        a.take(8) == b.take(8),
    ensures
        hex_text(a, n) == hex_text(b, n),
    decreases n,
{
    if n > 0 {
        lemma_hex_same(a, b, n - 1);
        assert(a[n - 1] == a.take(8)[n - 1]);
        assert(b[n - 1] == b.take(8)[n - 1]);
    }
}

/// Whether a list of tags holds this one.
pub open spec fn lists_tag(sent: Seq<Seq<char>>, tag: Seq<char>) -> bool {
    exists|i: int| 0 <= i < sent.len() && trim(#[trigger] sent[i]) == tag
}

/// Whether what the browser has is what would be sent: the `If-None-Match`
/// header, a comma-separated list, holds the tag.
pub fn is_unchanged(sent: Option<&str>, tag: &str) -> (r: bool)
    ensures
        r == match view_opt_str(sent) {
            Some(s) => lists_tag(split(s, ","@), tag@),
            None => false,
        },
{
    match sent {
        Some(s) => {
            proof {
                reveal_strlit(",");
            }
            holds_tag(&pieces(s, ","), tag)
        },
        None => false,
    }
}

fn holds_tag(sent: &Vec<String>, tag: &str) -> (r: bool)
    ensures
        r == lists_tag(views(sent@), tag@),
{
    let ghost all = views(sent@);
    let mut i: usize = 0;
    while i < sent.len()
        invariant
            i <= sent@.len(),
            all == views(sent@),
            forall|j: int| 0 <= j < i ==> trim(#[trigger] all[j]) != tag@,
        decreases sent@.len() - i,
    {
        assert(all[i as int] == sent@[i as int]@);
        if same(trimmed(sent[i].as_str()).as_str(), tag) {
            return true;
        }
        i = i + 1;
    }
    false
}

} // verus!
