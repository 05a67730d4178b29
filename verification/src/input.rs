//! Keyboard and pointer settings.
//!
//! Deliberately kept out of the screen profiles: which layout you type in and
//! which way your touchpad scrolls have nothing to do with which monitors are
//! plugged in. What is here is the model, its validation, and the xkb catalogue
//! that offers a choice at all.

use vstd::prelude::*;

use crate::notice::{note, Notice, NoticeId};
use crate::seqs::{gather, lemma_gathered_from};
use crate::text::{
    after_prefix, contains, halves, has, lines, lines_of, run_len, same, slice_string, split_once,
    starts_with, to_chars, trim, trimmed, views, words, words_of,
};

verus! {

/// Keyboard and pointer settings.
///
/// Empty strings mean "unset": `kb_variant = ""` is how xkb spells "the plain
/// layout", so there is no need for an `Option` here.
#[derive(Debug, PartialEq, Eq)]
pub struct InputConfig {
    /// xkb layout code, e.g. `fr`. Several may be comma-separated.
    pub kb_layout: String,
    /// xkb variant, e.g. `oss`. Empty for the plain layout.
    pub kb_variant: String,
    /// xkb options, e.g. `compose:ralt`. Comma-separated.
    pub kb_options: String,
    /// Scroll direction for mice.
    pub natural_scroll: bool,
    /// Scroll direction for touchpads: natural on the touchpad, normal on the
    /// wheel is a common pairing.
    pub touchpad_natural_scroll: bool,
}

#[verifier::ext_equal]
pub ghost struct InputView {
    pub kb_layout: Seq<char>,
    pub kb_variant: Seq<char>,
    pub kb_options: Seq<char>,
    pub natural_scroll: bool,
    pub touchpad_natural_scroll: bool,
}

impl View for InputConfig {
    type V = InputView;

    open spec fn view(&self) -> InputView {
        InputView {
            kb_layout: self.kb_layout@,
            kb_variant: self.kb_variant@,
            kb_options: self.kb_options@,
            natural_scroll: self.natural_scroll,
            touchpad_natural_scroll: self.touchpad_natural_scroll,
        }
    }
}

/// A plain US keyboard and no natural scrolling.
pub open spec fn default_input() -> InputView {
    InputView {
        kb_layout: "us"@,
        kb_variant: Seq::empty(),
        kb_options: Seq::empty(),
        natural_scroll: false,
        touchpad_natural_scroll: false,
    }
}

impl Default for InputConfig {
    fn default() -> (r: Self)
        ensures
            r@ == default_input(),
    {
        let r = InputConfig {
            kb_layout: "us".to_owned(),
            kb_variant: String::new(),
            kb_options: String::new(),
            natural_scroll: false,
            touchpad_natural_scroll: false,
        };
        assert(r@ =~= default_input());
        r
    }
}

impl Clone for InputConfig {
    fn clone(&self) -> (r: Self)
        ensures
            r@ == self@,
    {
        InputConfig {
            kb_layout: self.kb_layout.clone(),
            kb_variant: self.kb_variant.clone(),
            kb_options: self.kb_options.clone(),
            natural_scroll: self.natural_scroll,
            touchpad_natural_scroll: self.touchpad_natural_scroll,
        }
    }
}

impl InputConfig {
    /// Rejects what the compositor would only complain about later.
    ///
    /// Only the layout is required: an empty variant or options string is the
    /// normal way to say "none".
    pub fn validate(&self) -> (r: Result<(), Notice>)
        ensures
            match r {
                Ok(_) => trim(self.kb_layout@).len() > 0,
                Err(e) => trim(self.kb_layout@).len() == 0 && e@ == note(
                    NoticeId::LayoutRequired,
                    seq![],
                ),
            },
    {
        if trimmed(self.kb_layout.as_str()).as_str().unicode_len() == 0 {
            Err(Notice::plain(NoticeId::LayoutRequired))
        } else {
            Ok(())
        }
    }
}

/// One selectable entry of the xkb catalogue: the code a compositor wants, and
/// the description a human recognises.
#[derive(Debug, Clone, PartialEq, Eq)]
pub struct Entry {
    pub code: String,
    pub label: String,
    /// Layout this variant belongs to. Always empty for layouts and options.
    pub layout: String,
}

#[verifier::ext_equal]
pub ghost struct EntryView {
    pub code: Seq<char>,
    pub label: Seq<char>,
    pub layout: Seq<char>,
}

impl View for Entry {
    type V = EntryView;

    open spec fn view(&self) -> EntryView {
        EntryView { code: self.code@, label: self.label@, layout: self.layout@ }
    }
}

pub open spec fn entry_views(v: Seq<Entry>) -> Seq<EntryView> {
    Seq::new(v.len(), |i: int| v[i]@)
}

/// Everything the UI needs to populate its dropdowns.
#[derive(Debug, Clone, PartialEq, Eq)]
pub struct Catalog {
    pub layouts: Vec<Entry>,
    pub variants: Vec<Entry>,
    pub options: Vec<Entry>,
}

#[verifier::ext_equal]
pub ghost struct CatalogView {
    pub layouts: Seq<EntryView>,
    pub variants: Seq<EntryView>,
    pub options: Seq<EntryView>,
}

impl View for Catalog {
    type V = CatalogView;

    open spec fn view(&self) -> CatalogView {
        CatalogView {
            layouts: entry_views(self.layouts@),
            variants: entry_views(self.variants@),
            options: entry_views(self.options@),
        }
    }
}

impl Default for Catalog {
    fn default() -> (r: Self)
        ensures
            r@ == (CatalogView {
                layouts: Seq::empty(),
                variants: Seq::empty(),
                options: Seq::empty(),
            }),
    {
        let r = Catalog { layouts: Vec::new(), variants: Vec::new(), options: Vec::new() };
        assert(r@.layouts =~= Seq::empty());
        assert(r@.variants =~= Seq::empty());
        assert(r@.options =~= Seq::empty());
        r
    }
}

/// A line that opens a section of an xkb rules list.
pub open spec fn is_heading(line: Seq<char>) -> bool {
    starts_with(line, "!"@)
}

/// The section that a heading opens.
pub open spec fn heading(line: Seq<char>) -> Seq<char> {
    let w = words(line.skip(1));
    if w.len() > 0 {
        w[0]
    } else {
        Seq::empty()
    }
}

/// The section in which line `i` stands.
pub open spec fn section_at(ls: Seq<Seq<char>>, i: int) -> Seq<char>
    decreases i,
{
    if i <= 0 {
        Seq::empty()
    } else if is_heading(ls[i - 1]) {
        heading(ls[i - 1])
    } else {
        section_at(ls, i - 1)
    }
}

/// The code and the description on a line: what stands before and behind the
/// first white space.
pub open spec fn code_and_label(line: Seq<char>) -> Option<(Seq<char>, Seq<char>)> {
    let s = trim(line);
    let n = run_len(s, false) as int;
    if is_heading(line) || n >= s.len() {
        None
    } else {
        Some((s.take(n), trim(s.skip(n + 1))))
    }
}

/// A layout and its description.
pub open spec fn layout_at(ls: Seq<Seq<char>>, i: int) -> Seq<EntryView> {
    match code_and_label(ls[i]) {
        Some((code, label)) => if section_at(ls, i) == "layout"@ {
            seq![EntryView { code, label, layout: Seq::empty() }]
        } else {
            Seq::empty()
        },
        None => Seq::empty(),
    }
}

/// A variant: its description starts with the layout it belongs to.
pub open spec fn variant_at(ls: Seq<Seq<char>>, i: int) -> Seq<EntryView> {
    match code_and_label(ls[i]) {
        Some((code, text)) => if section_at(ls, i) == "variant"@ {
            match split_once(text, ": "@) {
                Some((layout, label)) => seq![EntryView { code, label, layout }],
                None => seq![EntryView { code, label: text, layout: Seq::empty() }],
            }
        } else {
            Seq::empty()
        },
        None => Seq::empty(),
    }
}

/// An option: its code has a colon, which tells it from a section heading.
pub open spec fn option_at(ls: Seq<Seq<char>>, i: int) -> Seq<EntryView> {
    match code_and_label(ls[i]) {
        Some((code, label)) => if section_at(ls, i) == "option"@ && contains(code, ":"@) {
            seq![EntryView { code, label, layout: Seq::empty() }]
        } else {
            Seq::empty()
        },
        None => Seq::empty(),
    }
}

/// The catalogue that the lines of an xkb rules list make.
pub open spec fn catalog_of(ls: Seq<Seq<char>>) -> CatalogView {
    CatalogView {
        layouts: gather(|i: int| layout_at(ls, i), ls.len() as int),
        variants: gather(|i: int| variant_at(ls, i), ls.len() as int),
        options: gather(|i: int| option_at(ls, i), ls.len() as int),
    }
}

/// Layouts and options carry no layout of their own, and every option's code
/// has a colon.
pub proof fn catalogue_entries_are_clean(ls: Seq<Seq<char>>, k: int)
    ensures
        0 <= k < catalog_of(ls).layouts.len() ==> catalog_of(ls).layouts[k].layout.len() == 0,
        0 <= k < catalog_of(ls).options.len() ==> catalog_of(ls).options[k].layout.len() == 0
            && contains(catalog_of(ls).options[k].code, ":"@),
{
    let f = |i: int| layout_at(ls, i);
    let g = |i: int| option_at(ls, i);
    if 0 <= k < catalog_of(ls).layouts.len() {
        let (i, j) = lemma_gathered_from(f, ls.len() as int, k);
    }
    if 0 <= k < catalog_of(ls).options.len() {
        let (i, j) = lemma_gathered_from(g, ls.len() as int, k);
    }
}

fn push_entry(entries: &mut Vec<Entry>, code: String, label: String, layout: String)
    ensures
        entry_views(final(entries)@) == entry_views(old(entries)@) + seq![
            EntryView { code: code@, label: label@, layout: layout@ },
        ],
{
    let e = Entry { code, label, layout };
    let ghost shown = e@;
    entries.push(e);
    assert(entry_views(entries@) =~= entry_views(old(entries)@) + seq![shown]);
}

fn split_code(line: &str) -> (r: Option<(String, String)>)
    requires
        !is_heading(line@),
    ensures
        match (r, code_and_label(line@)) {
            (Some(a), Some(b)) => (a.0@, a.1@) == b,
            (None, None) => true,
            _ => false,
        },
{
    let s = trimmed(line);
    let v = to_chars(s.as_str());
    let mut n: usize = 0;
    assert(v@.skip(0) =~= v@);
    while n < v.len() && !crate::text::is_white_char(v[n])
        invariant
            n <= v@.len(),
            n + run_len(v@.skip(n as int), false) == run_len(v@, false),
        decreases v@.len() - n,
    {
        assert(v@.skip(n as int).skip(1) =~= v@.skip(n + 1));
        n = n + 1;
    }
    if n == v.len() {
        return None;
    }
    let code = slice_string(&v, 0, n);
    let rest = slice_string(&v, n + 1, v.len());
    assert(code@ =~= v@.take(n as int));
    assert(rest@ =~= v@.skip(n + 1));
    Some((code, trimmed(rest.as_str())))
}

/// Parses the `! layout` / `! variant` / `! option` sections of an xkb rules
/// list.
///
/// Format, one entry per line: a code, whitespace, then a description.
/// Variants prefix their description with `layout: `, which is how each one is
/// attached to its layout. Option lines without a `:` in the code are section
/// headings ("Switching to another layout") rather than options, and are
/// skipped.
pub fn parse_rules(text: &str) -> (r: Catalog)
    ensures
        r@ == catalog_of(lines(text@)),
{
    let ls = lines_of(text);
    let ghost all = lines(text@);
    let mut catalog = Catalog::default();
    let mut section = String::new();
    let ghost f = |i: int| layout_at(all, i);
    let ghost g = |i: int| variant_at(all, i);
    let ghost h = |i: int| option_at(all, i);
    let ghost none = Seq::<EntryView>::empty();
    assert(section@ =~= Seq::empty());
    let mut i: usize = 0;
    while i < ls.len()
        invariant
            i <= ls@.len(),
            views(ls@) == all,
            section@ == section_at(all, i as int),
            f == (|i: int| layout_at(all, i)),
            g == (|i: int| variant_at(all, i)),
            h == (|i: int| option_at(all, i)),
            none == Seq::<EntryView>::empty(),
            entry_views(catalog.layouts@) == gather(f, i as int),
            entry_views(catalog.variants@) == gather(g, i as int),
            entry_views(catalog.options@) == gather(h, i as int),
        decreases ls@.len() - i,
    {
        let line = ls[i].as_str();
        assert(all[i as int] == line@);
        assert(gather(f, i + 1) == gather(f, i as int) + f(i as int));
        assert(gather(g, i + 1) == gather(g, i as int) + g(i as int));
        assert(gather(h, i + 1) == gather(h, i as int) + h(i as int));
        assert(gather(f, i as int) + none =~= gather(f, i as int));
        assert(gather(g, i as int) + none =~= gather(g, i as int));
        assert(gather(h, i as int) + none =~= gather(h, i as int));
        proof {
            reveal_strlit("!");
        }
        match after_prefix(line, "!") {
            Some(name) => {
                let w = words_of(name.as_str());
                assert(views(w@).len() == w@.len());
                section = if w.len() > 0 {
                    assert(views(w@)[0] == w@[0]@);
                    w[0].clone()
                } else {
                    String::new()
                };
                assert(section@ =~= heading(line@));
            },
            None => {
                if let Some((code, rest)) = split_code(line) {
                    proof {
                        reveal_strlit("layout");
                        reveal_strlit("variant");
                        reveal_strlit("option");
                    }
                    if same(section.as_str(), "layout") {
                        assert("layout"@.len() == 6 && "variant"@.len() == 7);
                        assert("layout"@[0] != "option"@[0]);
                        push_entry(&mut catalog.layouts, code, rest, String::new());
                    } else if same(section.as_str(), "variant") {
                        assert("option"@.len() == 6 && "variant"@.len() == 7);
                        match halves(rest.as_str(), ": ") {
                            Some((layout, label)) => {
                                push_entry(&mut catalog.variants, code, label, layout);
                            },
                            None => {
                                push_entry(&mut catalog.variants, code, rest, String::new());
                            },
                        }
                    } else if same(section.as_str(), "option") && has(code.as_str(), ":") {
                        push_entry(&mut catalog.options, code, rest, String::new());
                    }
                }
            },
        }
        i = i + 1;
    }
    catalog
}

/// What is offered where xkb's own list is unavailable.
pub open spec fn fallback_layouts() -> Seq<(Seq<char>, Seq<char>)> {
    seq![
        ("us"@, "English (US)"@),
        ("fr"@, "French"@),
        ("de"@, "German"@),
        ("es"@, "Spanish"@),
        ("it"@, "Italian"@),
        ("gb"@, "English (UK)"@),
        ("be"@, "Belgian"@),
        ("ch"@, "Swiss"@),
        ("ca"@, "French (Canada)"@),
    ]
}

pub open spec fn fallback() -> CatalogView {
    CatalogView {
        layouts: fallback_layouts().map_values(
            |p: (Seq<char>, Seq<char>)|
                EntryView { code: p.0, label: p.1, layout: Seq::empty() },
        ),
        variants: Seq::empty(),
        options: Seq::empty(),
    }
}

fn plain_entry(code: &str, label: &str) -> (r: Entry)
    ensures
        r@ == (EntryView { code: code@, label: label@, layout: Seq::empty() }),
{
    let layout = String::new();
    assert(layout@ =~= Seq::empty());
    Entry { code: code.to_owned(), label: label.to_owned(), layout }
}

/// Enough to configure the common cases when xkb's own list is unavailable.
pub fn fallback_catalog() -> (r: Catalog)
    ensures
        r@ == fallback(),
{
    let mut layouts: Vec<Entry> = Vec::new();
    layouts.push(plain_entry("us", "English (US)"));
    layouts.push(plain_entry("fr", "French"));
    layouts.push(plain_entry("de", "German"));
    layouts.push(plain_entry("es", "Spanish"));
    layouts.push(plain_entry("it", "Italian"));
    layouts.push(plain_entry("gb", "English (UK)"));
    layouts.push(plain_entry("be", "Belgian"));
    layouts.push(plain_entry("ch", "Swiss"));
    layouts.push(plain_entry("ca", "French (Canada)"));
    assert(entry_views(layouts@) =~= fallback().layouts);
    let mut r = Catalog::default();
    r.layouts = layouts;
    r
}

/// The catalogue that the first usable rules list makes.
pub open spec fn chosen_catalog(sources: Seq<Seq<char>>) -> CatalogView
    decreases sources.len(),
{
    if sources.len() == 0 {
        fallback()
    } else if catalog_of(lines(sources[0])).layouts.len() > 0 {
        catalog_of(lines(sources[0]))
    } else {
        chosen_catalog(sources.skip(1))
    }
}

/// There is always a layout to choose.
pub proof fn catalogue_is_never_empty(sources: Seq<Seq<char>>)
    ensures
        chosen_catalog(sources).layouts.len() > 0,
    decreases sources.len(),
{
    if sources.len() > 0 {
        catalogue_is_never_empty(sources.skip(1));
    }
}

/// The xkb catalogue that the rules lists on this system make, falling back to
/// a built-in shortlist.
///
/// A container or a stripped image may have no list, and a keyboard dropdown
/// with nothing in it is worse than a short one.
pub fn catalog(sources: &Vec<String>) -> (r: Catalog)
    ensures
        r@ == chosen_catalog(views(sources@)),
{
    let mut i: usize = 0;
    let ghost all = views(sources@);
    assert(all.skip(0) =~= all);
    while i < sources.len()
        invariant
            i <= sources@.len(),
            all == views(sources@),
            chosen_catalog(all) == chosen_catalog(all.skip(i as int)),
        decreases sources@.len() - i,
    {
        let c = parse_rules(sources[i].as_str());
        assert(all.skip(i as int)[0] == sources@[i as int]@);
        assert(all.skip(i as int).skip(1) =~= all.skip(i + 1));
        assert(c@.layouts.len() == c.layouts@.len());
        if c.layouts.len() > 0 {
            return c;
        }
        i = i + 1;
    }
    fallback_catalog()
}

} // verus!
