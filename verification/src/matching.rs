//! How profiles, screens and settings are told apart and found again.

use vstd::prelude::*;

use crate::config::{
    best_of, best_profile_is_unbeaten, default_settings, designates, first_free, globs,
    profile_named, taken_by, upserted, without_profile, ProfileView,
};
use crate::history::{fingerprints, layout_summary, signature_of, summary_of};
use crate::i18n::Locale;
use crate::input::{
    catalog_of, code_and_label, default_input, layout_at, option_at, section_at, variant_at,
    EntryView,
};
use crate::layout::{LayoutView, OutputView};
use crate::monitor::{squeezed, Monitor};
use crate::seqs::{lemma_gathered, lemma_gathered_from, sorted_texts, text_order};
use crate::text::{contains, join, lemma_run_len, occurs_at, split_once, trim, is_white};

verus! {

// ---------------------------------------------------------------- profiles

proof fn lemma_first_free(
    pattern: Seq<char>,
    monitors: Seq<Monitor>,
    taken: Seq<int>,
    i: int,
)
    requires
        0 <= i,
    ensures
        match first_free(pattern, monitors, taken, i) {
            Some(k) => i <= k < monitors.len() && !taken.contains(k) && designates(
                pattern,
                monitors[k],
            ) && forall|j: int|
                i <= j < k ==> taken.contains(j) || !designates(pattern, #[trigger] monitors[j]),
            None => forall|j: int|
                i <= j < monitors.len() ==> taken.contains(j) || !designates(
                    pattern,
                    #[trigger] monitors[j],
                ),
        },
    decreases monitors.len() - i,
{
    if i < monitors.len() && (taken.contains(i) || !designates(pattern, monitors[i])) {
        lemma_first_free(pattern, monitors, taken, i + 1);
    }
}

/// Rules take monitors in their order: each takes the first that it designates
/// and that no rule before it has taken; where there is none, the profile does not
/// match.
pub proof fn rules_take_the_first_monitor_left(p: ProfileView, monitors: Seq<Monitor>, n: int)
    requires
        0 <= n < p.outputs.len(),
        taken_by(p.outputs, monitors, n) is Some,
    ensures
        ({
            let before = taken_by(p.outputs, monitors, n)->0;
            let after = taken_by(p.outputs, monitors, n + 1);
            let pattern = p.outputs[n].pattern;
            match after {
                Some(taken) => {
                    let k = taken[n];
                    &&& taken.len() == n + 1
                    &&& taken.take(n) == before
                    &&& 0 <= k < monitors.len()
                    &&& !before.contains(k)
                    &&& designates(pattern, monitors[k])
                    &&& forall|j: int|
                        0 <= j < k ==> before.contains(j) || !designates(
                            pattern,
                            #[trigger] monitors[j],
                        )
                },
                None => {
                    &&& forall|j: int|
                        0 <= j < monitors.len() ==> before.contains(j) || !designates(
                            pattern,
                            #[trigger] monitors[j],
                        )
                    &&& p.assignment(monitors) is None
                },
            }
        }),
{
    let before = taken_by(p.outputs, monitors, n)->0;
    lemma_first_free(p.outputs[n].pattern, monitors, before, 0);
    lemma_taken_len(p, monitors, n);
    match taken_by(p.outputs, monitors, n + 1) {
        Some(taken) => {
            assert(taken.take(n) =~= before);
        },
        None => {
            lemma_never_taken(p, monitors, n + 1, p.outputs.len() as int);
        },
    }
}

proof fn lemma_taken_len(p: ProfileView, monitors: Seq<Monitor>, n: int)
    requires
        0 <= n,
        taken_by(p.outputs, monitors, n) is Some,
    ensures
        taken_by(p.outputs, monitors, n)->0.len() == n,
    decreases n,
{
    if n > 0 {
        lemma_taken_len(p, monitors, n - 1);
    }
}

proof fn lemma_never_taken(p: ProfileView, monitors: Seq<Monitor>, n: int, m: int)
    requires
        0 < n <= m,
        taken_by(p.outputs, monitors, n) is None,
    ensures
        taken_by(p.outputs, monitors, m) is None,
    decreases m - n,
{
    if n < m {
        lemma_never_taken(p, monitors, n, m - 1);
    }
}

/// A profile matches when it has rules, each finds a monitor, and an exact one
/// covers them all.
pub proof fn profiles_match_with_all_their_rules(p: ProfileView, monitors: Seq<Monitor>)
    ensures
        p.fits(monitors) ==> p.outputs.len() > 0 && taken_by(
            p.outputs,
            monitors,
            p.outputs.len() as int,
        ) is Some,
        p.outputs.len() > 0 && !p.exact && taken_by(
            p.outputs,
            monitors,
            p.outputs.len() as int,
        ) is Some ==> p.fits(monitors),
        p.outputs.len() > 0 && p.exact && taken_by(
            p.outputs,
            monitors,
            p.outputs.len() as int,
        ) is Some ==> (p.fits(monitors) == forall|j: int|
            0 <= j < monitors.len() ==> #[trigger] taken_by(
                p.outputs,
                monitors,
                p.outputs.len() as int,
            )->0.contains(j)),
{
}

/// The profile that is chosen has the most rules of those that match; among those
/// with as many it is exact if one of them is, and else the first declared.
pub proof fn the_widest_profile_is_chosen(profiles: Seq<ProfileView>, monitors: Seq<Monitor>, j: int)
    requires
        0 <= j < profiles.len(),
        profiles[j].fits(monitors),
    ensures
        ({
            let b = best_of(profiles, monitors, profiles.len() as int);
            &&& b is Some
            &&& 0 <= b->0 < profiles.len()
            &&& profiles[b->0].fits(monitors)
            &&& profiles[j].outputs.len() <= profiles[b->0].outputs.len()
            &&& profiles[j].outputs.len() == profiles[b->0].outputs.len() && profiles[j].exact
                ==> profiles[b->0].exact
            &&& profiles[j].outputs.len() == profiles[b->0].outputs.len() && profiles[j].exact
                == profiles[b->0].exact ==> b->0 <= j
        }),
{
    best_profile_is_unbeaten(profiles, monitors, profiles.len() as int);
}

/// Removing a profile removes no other one.
pub proof fn removing_keeps_the_others(profiles: Seq<ProfileView>, name: Seq<char>, k: int)
    requires
        0 <= k < profiles.len(),
        profiles[k].name != name,
    ensures
        without_profile(profiles, name).contains(profiles[k]),
        without_profile(profiles, name).len() <= profiles.len(),
    decreases profiles.len(),
{
    let body = profiles.drop_last();
    let before = without_profile(body, name);
    lemma_without_len(body, name);
    if k < body.len() {
        removing_keeps_the_others(body, name, k);
        let i = choose|i: int| 0 <= i < before.len() && before[i] == profiles[k];
        assert(without_profile(profiles, name)[i] == profiles[k]);
    } else {
        assert(without_profile(profiles, name)[before.len() as int] == profiles[k]);
    }
}

proof fn lemma_without_len(profiles: Seq<ProfileView>, name: Seq<char>)
    ensures
        without_profile(profiles, name).len() <= profiles.len(),
    decreases profiles.len(),
{
    if profiles.len() > 0 {
        lemma_without_len(profiles.drop_last(), name);
    }
}

/// Saving a profile under a name takes the place of the first one with that name,
/// or the end, and leaves every other place as it is.
pub proof fn saving_keeps_the_other_places(profiles: Seq<ProfileView>, p: ProfileView, k: int)
    requires
        0 <= k < profiles.len(),
    ensures
        profile_named(profiles, p.name) != Some(k) ==> upserted(profiles, p)[k] == profiles[k],
        profile_named(profiles, p.name) == Some(k) ==> upserted(profiles, p)[k] == p,
        profile_named(profiles, p.name) is Some ==> upserted(profiles, p).len() == profiles.len(),
        profile_named(profiles, p.name) is None ==> upserted(profiles, p).len() == profiles.len()
            + 1 && upserted(profiles, p).last() == p,
{
    lemma_profile(profiles, p.name, 0);
}

proof fn lemma_profile(profiles: Seq<ProfileView>, name: Seq<char>, i: int)
    requires
        0 <= i,
    ensures
        match crate::config::profile_from(profiles, name, i) {
            Some(k) => i <= k < profiles.len(),
            None => true,
        },
    decreases profiles.len() - i,
{
    if i < profiles.len() && profiles[i].name != name {
        lemma_profile(profiles, name, i + 1);
    }
}

// ---------------------------------------------------------------- screens

proof fn lemma_squeezed(s: Seq<Seq<char>>, x: Seq<char>)
    ensures
        squeezed(s).contains(x) == s.contains(x),
        s.len() > 0 ==> squeezed(s).len() > 0 && squeezed(s).last() == s.last(),
    decreases s.len(),
{
    if s.len() > 1 {
        let body = s.drop_last();
        lemma_squeezed(body, x);
        let q = squeezed(body);
        if s.contains(x) {
            let i = choose|i: int| 0 <= i < s.len() && s[i] == x;
            if i < body.len() {
                assert(body[i] == x);
            } else {
                assert(body[body.len() - 1] == s[s.len() - 2]);
            }
        }
        if body.contains(x) {
            let i = choose|i: int| 0 <= i < body.len() && body[i] == x;
            assert(s[i] == x);
        }
        if q.contains(x) {
            let i = choose|i: int| 0 <= i < q.len() && q[i] == x;
            assert(q.push(s.last())[i] == x);
        }
        assert(q.push(s.last())[q.len() as int] == s.last());
        if q.push(s.last()).contains(x) && x != s.last() {
            let i = choose|i: int| 0 <= i < q.push(s.last()).len() && q.push(s.last())[i] == x;
            assert(q[i] == x);
        }
        if x == s.last() {
            assert(s[s.len() - 1] == x);
            if s.last() == s[s.len() - 2] {
                assert(body[body.len() - 1] == x);
            }
        }
    }
}

/// A monitor can be designated by its connector, its fingerprint, and, where it
/// has one, its description, with or without `desc:` before it; by nothing else.
pub proof fn monitors_answer_to_what_they_are_called(m: Monitor, x: Seq<char>)
    ensures
        m.designations().contains(x) == {
            let d = trim(m.description@);
            ||| x == m.name@
            ||| x == m.print()
            ||| d.len() > 0 && (x == d || x == "desc:"@ + d)
        },
        designates(m.name@, m) == exists|i: int|
            0 <= i < m.designations().len() && globs(m.name@, #[trigger] m.designations()[i]),
{
    let d = trim(m.description@);
    let ids = seq![m.name@, m.print()];
    let all = if d.len() > 0 {
        ids.push(d).push("desc:"@ + d)
    } else {
        ids
    };
    lemma_squeezed(all, x);
    assert(all[0] == m.name@ && all[1] == m.print());
    if d.len() > 0 {
        assert(all[2] == d && all[3] == "desc:"@ + d);
    }
}

proof fn lemma_join_contains(parts: Seq<Seq<char>>, sep: Seq<char>, k: int)
    requires
        0 <= k < parts.len(),
    ensures
        contains(join(parts, sep), parts[k]),
    decreases parts.len(),
{
    let all = join(parts, sep);
    if parts.len() == 1 {
        assert(all.subrange(0, all.len() as int) =~= parts[0]);
        assert(occurs_at(all, parts[0], 0));
    } else {
        let body = parts.drop_last();
        let head = join(body, sep);
        if k == parts.len() - 1 {
            let n = (head + sep).len() as int;
            assert(all.subrange(n, n + parts[k].len()) =~= parts[k]);
            assert(occurs_at(all, parts[k], n));
        } else {
            lemma_join_contains(body, sep, k);
            let i = choose|i: int| occurs_at(head, body[k], i);
            assert(all.subrange(i, i + parts[k].len()) =~= head.subrange(i, i + parts[k].len()));
            assert(occurs_at(all, parts[k], i));
        }
    }
}

proof fn lemma_sorted_contains(texts: Seq<Seq<char>>, k: int)
    requires
        0 <= k < texts.len(),
    ensures
        sorted_texts(texts).contains(texts[k]),
        sorted_texts(texts).len() == texts.len(),
{
    crate::seqs::lemma_text_order();
    texts.lemma_sort_by_ensures(text_order());
    broadcast use vstd::seq_lib::group_to_multiset_ensures;

    assert(texts.contains(texts[k]));
    assert(texts.to_multiset().count(texts[k]) > 0);
    assert(sorted_texts(texts).to_multiset().count(texts[k]) > 0);
    assert(texts.to_multiset().len() == texts.len());
    assert(sorted_texts(texts).to_multiset().len() == sorted_texts(texts).len());
}

/// A signature holds the fingerprint of every screen, and for a single screen
/// nothing else.
pub proof fn signatures_hold_every_fingerprint(monitors: Seq<Monitor>, k: int)
    requires
        0 <= k < monitors.len(),
    ensures
        contains(signature_of(monitors), monitors[k].print()),
        monitors.len() == 1 ==> signature_of(monitors) == monitors[0].print(),
{
    let texts = fingerprints(monitors);
    lemma_sorted_contains(texts, k);
    let s = sorted_texts(texts);
    assert(texts[k] == monitors[k].print());
    let i = choose|i: int| 0 <= i < s.len() && s[i] == texts[k];
    lemma_join_contains(s, " + "@, i);
    if monitors.len() == 1 {
        reveal_with_fuel(join, 2);
        assert(s[0] == texts[0]);
    }
}

/// The description of a layout has the line of every output.
pub proof fn descriptions_hold_every_output(l: LayoutView, locale: Locale, k: int)
    requires
        0 <= k < l.outputs.len(),
    ensures
        contains(layout_summary(l, locale), summary_of(l.outputs[k], locale)),
        l.outputs.len() == 1 ==> layout_summary(l, locale) == summary_of(l.outputs[0], locale),
{
    let texts = l.outputs.map_values(|o: OutputView| summary_of(o, locale));
    lemma_sorted_contains(texts, k);
    let s = sorted_texts(texts);
    let i = choose|i: int| 0 <= i < s.len() && s[i] == texts[k];
    lemma_join_contains(s, ", "@, i);
    if l.outputs.len() == 1 {
        reveal_with_fuel(join, 2);
        assert(s[0] == texts[0]);
    }
}

// ---------------------------------------------------------------- catalogue

/// A line with a code and a description splits at the first white space: the code
/// has none, and the two make up the line.
pub proof fn lines_split_into_code_and_label(line: Seq<char>)
    ensures
        match code_and_label(line) {
            Some((code, label)) => {
                let s = trim(line);
                &&& code.len() < s.len()
                &&& s.take(code.len() as int) == code
                &&& forall|i: int| 0 <= i < code.len() ==> !is_white(#[trigger] code[i])
                &&& is_white(s[code.len() as int])
                &&& label == trim(s.skip(code.len() as int + 1))
            },
            None => true,
        },
{
    let s = trim(line);
    lemma_run_len(s, false);
    if let Some((code, label)) = code_and_label(line) {
        assert forall|i: int| 0 <= i < code.len() implies !is_white(#[trigger] code[i]) by {
            assert(code[i] == s[i]);
        }
    }
}

/// Every line of the section for layouts with a code and a description is a layout
/// under that code, every one of the section for options whose code has a colon
/// an option, and every one of the section for variants a variant.
pub proof fn catalogue_lines_are_entries(ls: Seq<Seq<char>>, i: int)
    requires
        0 <= i < ls.len(),
        code_and_label(ls[i]) is Some,
    ensures
        ({
            let (code, label) = code_and_label(ls[i])->0;
            let section = section_at(ls, i);
            let c = catalog_of(ls);
            &&& section == "layout"@ ==> c.layouts.contains(
                EntryView { code, label, layout: Seq::empty() },
            )
            &&& section == "option"@ && contains(code, ":"@) ==> c.options.contains(
                EntryView { code, label, layout: Seq::empty() },
            )
            &&& section == "variant"@ ==> match split_once(label, ": "@) {
                Some((layout, rest)) => c.variants.contains(
                    EntryView { code, label: rest, layout },
                ),
                None => c.variants.contains(EntryView { code, label, layout: Seq::empty() }),
            }
        }),
{
    let n = ls.len() as int;
    let f = |i: int| layout_at(ls, i);
    let g = |i: int| variant_at(ls, i);
    let h = |i: int| option_at(ls, i);
    let (code, label) = code_and_label(ls[i])->0;
    let section = section_at(ls, i);
    if section == "layout"@ {
        assert(f(i).len() == 1);
        lemma_gathered(f, n, i, 0);
    }
    if section == "variant"@ {
        assert(g(i).len() == 1);
        lemma_gathered(g, n, i, 0);
    }
    if section == "option"@ && contains(code, ":"@) {
        assert(h(i).len() == 1);
        lemma_gathered(h, n, i, 0);
    }
}

/// Every entry of the catalogue comes from a line of its section.
pub proof fn catalogue_entries_are_lines(ls: Seq<Seq<char>>, k: int)
    ensures
        0 <= k < catalog_of(ls).layouts.len() ==> exists|i: int|
            0 <= i < ls.len() && #[trigger] section_at(ls, i) == "layout"@ && code_and_label(
                ls[i],
            ) == Some((catalog_of(ls).layouts[k].code, catalog_of(ls).layouts[k].label)),
        0 <= k < catalog_of(ls).options.len() ==> exists|i: int|
            0 <= i < ls.len() && #[trigger] section_at(ls, i) == "option"@ && code_and_label(
                ls[i],
            ) == Some((catalog_of(ls).options[k].code, catalog_of(ls).options[k].label)),
        0 <= k < catalog_of(ls).variants.len() ==> exists|i: int|
            0 <= i < ls.len() && #[trigger] section_at(ls, i) == "variant"@ && code_and_label(
                ls[i],
            ) is Some && (code_and_label(ls[i])->0).0 == catalog_of(ls).variants[k].code,
{
    let n = ls.len() as int;
    let f = |i: int| layout_at(ls, i);
    let g = |i: int| variant_at(ls, i);
    let h = |i: int| option_at(ls, i);
    if 0 <= k < catalog_of(ls).layouts.len() {
        let (i, j) = lemma_gathered_from(f, n, k);
        assert(section_at(ls, i) == "layout"@);
    }
    if 0 <= k < catalog_of(ls).options.len() {
        let (i, j) = lemma_gathered_from(h, n, k);
        assert(section_at(ls, i) == "option"@);
    }
    if 0 <= k < catalog_of(ls).variants.len() {
        let (i, j) = lemma_gathered_from(g, n, k);
        assert(section_at(ls, i) == "variant"@);
    }
}

// ---------------------------------------------------------------- defaults

/// Without a configuration the program is safe and helpful: it listens on this
/// machine alone, reverts what is not confirmed in ten seconds, applies, remembers
/// and announces on its own, and has no opinion on anything else.
pub proof fn defaults_are_safe_and_helpful()
    ensures
        ({
            let s = default_settings();
            &&& s.bind == "127.0.0.1"@
            &&& s.confirm_timeout_secs == 10
            &&& s.auto_apply && s.remember && s.notifications
            &&& s.compositor is None && s.primary is None && s.language is None
            &&& s.monitors_lua is None && s.input_lua is None
        }),
        default_input().kb_layout == "us"@,
        default_input().kb_variant.len() == 0,
        default_input().kb_options.len() == 0,
        !default_input().natural_scroll,
        !default_input().touchpad_natural_scroll,
{
}

} // verus!
