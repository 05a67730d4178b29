//! The languages that the program speaks, and how one is chosen.
//!
//! Resolution order, most specific first:
//!
//! 1. `HYPRDMC_LANG` — explicit override, handy for scripts and bug reports.
//! 2. `language` in `config.toml` — the user's lasting preference.
//! 3. `LC_ALL`, `LC_MESSAGES`, `LANG` — the usual POSIX chain.
//! 4. English.

use vstd::prelude::*;

use crate::text::{
    all_ascii, ascii_lowercase, lowercase, lowercase_of, same, slice_string, to_chars, trim,
    trimmed, view_opt, view_opt_str,
};

verus! {

/// A language that the program ships.
#[derive(Debug, Clone, Copy, PartialEq, Eq, Structural)]
pub enum Locale {
    En,
    Fr,
}

impl Locale {
    pub open spec fn tag(self) -> Seq<char> {
        match self {
            Locale::En => "en"@,
            Locale::Fr => "fr"@,
        }
    }

    /// The language's code.
    pub fn code(self) -> (r: &'static str)
        ensures
            r@ == self.tag(),
    {
        match self {
            Locale::En => "en",
            Locale::Fr => "fr",
        }
    }
}

/// How many characters stand before the first `.`, `@`, `-` or `_`.
pub open spec fn language_len(s: Seq<char>) -> nat
    decreases s.len(),
{
    if s.len() == 0 || s[0] == '.' || s[0] == '@' || s[0] == '-' || s[0] == '_' {
        0
    } else {
        1 + language_len(s.skip(1))
    }
}

/// The language in a POSIX locale or a language tag: `fr` in `fr_FR.UTF-8`.
pub open spec fn language_part(raw: Seq<char>) -> Seq<char> {
    let s = trim(raw);
    s.take(language_len(s) as int)
}

/// The shipped language of a code in lower case.
pub open spec fn shipped(language: Seq<char>) -> Option<Locale> {
    if language == "en"@ {
        Some(Locale::En)
    } else if language == "fr"@ {
        Some(Locale::Fr)
    } else {
        None
    }
}

/// The shipped language that a locale asks for.
pub open spec fn asked_for(raw: Seq<char>) -> Option<Locale> {
    shipped(lowercase_of(language_part(raw)))
}

/// The same for a locale whose language is in ASCII characters.
pub open spec fn asked_in_ascii(raw: Seq<char>) -> Option<Locale> {
    shipped(ascii_lowercase(language_part(raw)))
}

/// The shipped language of a code in lower case.
pub fn language(lowered: &str) -> (r: Option<Locale>)
    ensures
        r == shipped(lowered@),
{
    if same(lowered, "en") {
        Some(Locale::En)
    } else if same(lowered, "fr") {
        Some(Locale::Fr)
    } else {
        None
    }
}

/// Maps a POSIX locale string onto a shipped language.
///
/// Accepts the shapes found in the wild — `fr`, `fr_FR`, `fr_FR.UTF-8`,
/// `fr-CA` — and matches on the language subtag alone: a Québécois user gets
/// French rather than English.
pub fn normalize(raw: &str) -> (r: Option<Locale>)
    ensures
        r == asked_for(raw@),
        all_ascii(language_part(raw@)) ==> r == asked_in_ascii(raw@),
{
    let v = to_chars(trimmed(raw).as_str());
    let mut n: usize = 0;
    assert(v@.skip(0) =~= v@);
    while n < v.len() && v[n] != '.' && v[n] != '@' && v[n] != '-' && v[n] != '_'
        invariant
            n <= v@.len(),
            n + language_len(v@.skip(n as int)) == language_len(v@),
        decreases v@.len() - n,
    {
        assert(v@.skip(n as int).skip(1) =~= v@.skip(n + 1));
        n = n + 1;
    }
    let part = slice_string(&v, 0, n);
    assert(part@ =~= v@.take(n as int));
    language(lowercase(part.as_str()).as_str())
}

/// The environment variables that ask for a language.
#[derive(Debug)]
pub struct LanguageEnv {
    /// `HYPRDMC_LANG`.
    pub override_with: Option<String>,
    /// `LC_ALL`.
    pub lc_all: Option<String>,
    /// `LC_MESSAGES`.
    pub lc_messages: Option<String>,
    /// `LANG`.
    pub lang: Option<String>,
}

pub open spec fn asked_by(o: Option<Seq<char>>) -> Option<Locale> {
    match o {
        Some(s) => asked_for(s),
        None => None,
    }
}

/// The first of the languages, else English.
pub open spec fn first_asked(
    override_with: Option<Locale>,
    preferred: Option<Locale>,
    lc_all: Option<Locale>,
    lc_messages: Option<Locale>,
    lang: Option<Locale>,
) -> Locale {
    match (override_with, preferred, lc_all, lc_messages, lang) {
        (Some(l), _, _, _, _) => l,
        (None, Some(l), _, _, _) => l,
        (None, None, Some(l), _, _) => l,
        (None, None, None, Some(l), _) => l,
        (None, None, None, None, Some(l)) => l,
        (None, None, None, None, None) => Locale::En,
    }
}

/// The language to speak: the first shipped one that is asked for, from the
/// override to the environment, else English.
pub open spec fn spoken(preferred: Option<Seq<char>>, env: LanguageEnv) -> Locale {
    first_asked(
        asked_by(view_opt(env.override_with)),
        asked_by(preferred),
        asked_by(view_opt(env.lc_all)),
        asked_by(view_opt(env.lc_messages)),
        asked_by(view_opt(env.lang)),
    )
}

/// The same where every locale is given in ASCII characters.
pub open spec fn spoken_ascii(preferred: Option<Seq<char>>, env: LanguageEnv) -> Locale {
    first_asked(
        asked_by_ascii(view_opt(env.override_with)),
        asked_by_ascii(preferred),
        asked_by_ascii(view_opt(env.lc_all)),
        asked_by_ascii(view_opt(env.lc_messages)),
        asked_by_ascii(view_opt(env.lang)),
    )
}

/// Whether a locale, if there is one, has its language in ASCII characters.
pub open spec fn asked_plainly(o: Option<Seq<char>>) -> bool {
    match o {
        Some(s) => all_ascii(language_part(s)),
        None => true,
    }
}

pub open spec fn asked_by_ascii(o: Option<Seq<char>>) -> Option<Locale> {
    match o {
        Some(s) => asked_in_ascii(s),
        None => None,
    }
}

fn wish(o: &Option<String>) -> (r: Option<Locale>)
    ensures
        r == asked_by(view_opt(*o)),
        asked_plainly(view_opt(*o)) ==> r == asked_by_ascii(view_opt(*o)),
{
    match o {
        Some(s) => normalize(s.as_str()),
        None => None,
    }
}

/// Picks a language from the environment, honouring an explicit preference.
///
/// `preferred` comes from the configuration file; the environment overrides it
/// only through `HYPRDMC_LANG`, so that a saved preference is not silently
/// undone by a system-wide `LANG`.
pub fn detect_with(preferred: Option<&str>, env: &LanguageEnv) -> (r: Locale)
    ensures
        r == spoken(view_opt_str(preferred), *env),
        asked_plainly(view_opt(env.override_with)) && asked_plainly(view_opt_str(preferred))
            && asked_plainly(view_opt(env.lc_all)) && asked_plainly(view_opt(env.lc_messages))
            && asked_plainly(view_opt(env.lang)) ==> r == spoken_ascii(
            view_opt_str(preferred),
            *env,
        ),
{
    if let Some(l) = wish(&env.override_with) {
        return l;
    }
    if let Some(p) = preferred {
        if let Some(l) = normalize(p) {
            return l;
        }
    }
    if let Some(l) = wish(&env.lc_all) {
        return l;
    }
    if let Some(l) = wish(&env.lc_messages) {
        return l;
    }
    if let Some(l) = wish(&env.lang) {
        return l;
    }
    Locale::En
}

/// A saved preference for a shipped language yields to the override alone: no
/// system-wide language undoes it.
pub proof fn preference_withstands_the_system_language(
    preferred: Seq<char>,
    a: LanguageEnv,
    b: LanguageEnv,
)
    requires
        asked_for(preferred) is Some,
        view_opt(a.override_with) == view_opt(b.override_with),
    ensures
        spoken(Some(preferred), a) == spoken(Some(preferred), b),
        a.override_with is None ==> spoken(Some(preferred), a) == asked_for(preferred).unwrap(),
{
}

} // verus!
