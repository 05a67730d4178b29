//! What the program does with its surroundings: the browser, the service, the
//! sockets, the requests of a browser and the user's language.

use vstd::prelude::*;

use crate::browser::launch;
use crate::compositor::hyprland::ipc::{instances_dir, located, Instances};
use crate::compositor::hyprland::Hyprland;
use crate::compositor::sway::Sway;
use crate::compositor::{detected, resolved, Compositor, Plugin};
use crate::config::ConfigView;
use crate::decimals::naturals_read_back;
use crate::env::Environment;
use crate::i18n::{
    asked_for, asked_in_ascii, language_len, language_part, spoken, LanguageEnv, Locale,
};
use crate::ipc::{fitting, shortened, utf8_len};
use crate::notice::{note, NoticeId, NoticeView};
use crate::notify::{notification, Urgency};
use crate::number::{hex_char, is_digit, nat_text, parse_nat};
use crate::path::is_rooted;
use crate::reading::{
    names_are_put_behind_their_directory, none_white, nothing_else_is_replaced,
    replacing_goes_from_left_to_right, surrounding_white_is_trimmed,
    words_stand_between_white_space,
};
use crate::service::unit_text;
use crate::text::{
    ascii_lowercase, contains, ends_with, is_white, lemma_find_first, occurs_at, split, starts_with,
    trim, view_opt, words,
};
use crate::web::{asset_named, etag, hex_text, imported, slashes, with_main};

verus! {

// ---------------------------------------------------------------- browser

/// A browser that says where the address goes gets it there, and its other
/// arguments as they are; one that does not gets it last. Without a browser the
/// desktop opens the address.
pub proof fn addresses_go_where_they_are_asked_for(
    program: Seq<char>,
    before: Seq<char>,
    after: Seq<char>,
    url: Seq<char>,
)
    requires
        program.len() > 0,
        none_white(program),
        none_white(before),
        none_white(after),
        !contains(before.push('%'), "%s"@),
        !contains(after, "%s"@),
    ensures
        ({
            let marked = program + seq![' '] + (before + "%s"@ + after);
            let plain = program + seq![' '] + before;
            &&& launch(Some(marked), url) == (program, seq![before + url + after])
            &&& launch(Some(program), url) == (program, seq![url])
            &&& before.len() > 0 ==> launch(Some(plain), url) == (program, seq![before, url])
            &&& launch(None, url) == ("xdg-open"@, seq![url])
        }),
{
    reveal_strlit("%s");
    let none = Seq::<char>::empty();
    let mark = "%s"@;
    let arg = before + mark + after;
    assert(none_white(arg)) by {
        assert forall|i: int| 0 <= i < arg.len() implies !is_white(#[trigger] arg[i]) by {
            if i < before.len() {
                assert(arg[i] == before[i]);
            } else if i >= before.len() + 2 {
                assert(arg[i] == after[i - before.len() - 2]);
            }
        }
    }
    lemma_two_words(program, arg);
    let args = seq![program, arg].skip(1);
    assert(args =~= seq![arg]);
    assert(occurs_at(arg, mark, before.len() as int)) by {
        assert(arg.subrange(before.len() as int, before.len() as int + 2) =~= mark);
    }
    assert(contains(args[0], mark));
    assert forall|k: int| 0 <= k < before.len() implies !occurs_at(arg, mark, k) by {
        if occurs_at(arg, mark, k) {
            assert(before.push('%').subrange(k, k + 2) =~= arg.subrange(k, k + 2));
            assert(occurs_at(before.push('%'), mark, k));
        }
    }
    lemma_find_first(arg, mark, before.len() as int);
    replacing_goes_from_left_to_right(before, mark, after, url);
    nothing_else_is_replaced(after, mark, url);
    assert(launch(Some(program + seq![' '] + arg), url).1 =~= seq![before + url + after]);

    lemma_one_word(program);
    assert(seq![program].skip(1) =~= Seq::empty());
    assert(launch(Some(program), url).1 =~= seq![url]);

    if before.len() > 0 {
        lemma_two_words(program, before);
        let rest = seq![program, before].skip(1);
        assert(rest =~= seq![before]);
        if contains(before, mark) {
            let j = choose|j: int| occurs_at(before, mark, j);
            assert(before.push('%').subrange(j, j + 2) =~= before.subrange(j, j + 2));
            assert(occurs_at(before.push('%'), mark, j));
        }
        assert(launch(Some(program + seq![' '] + before), url).1 =~= seq![before, url]);
    }
}

proof fn lemma_one_word(word: Seq<char>)
    requires
        word.len() > 0,
        none_white(word),
    ensures
        words(trim(word)) == seq![word],
{
    let none = Seq::<char>::empty();
    assert(none + word + none =~= word);
    surrounding_white_is_trimmed(none, word, none);
    words_stand_between_white_space(none, word, none);
    assert(words(none).len() == 0);
    assert(seq![word] + words(none) =~= seq![word]);
}

proof fn lemma_two_words(a: Seq<char>, b: Seq<char>)
    requires
        a.len() > 0,
        b.len() > 0,
        none_white(a),
        none_white(b),
    ensures
        words(trim(a + seq![' '] + b)) == seq![a, b],
{
    let none = Seq::<char>::empty();
    let s = a + seq![' '] + b;
    assert(none + s + none =~= s);
    surrounding_white_is_trimmed(none, s, none);
    assert(s =~= none + a + (seq![' '] + b));
    words_stand_between_white_space(none, a, seq![' '] + b);
    assert(seq![' '] + b =~= seq![' '] + b + none);
    words_stand_between_white_space(seq![' '], b, none);
    words_stand_between_white_space(none, b, none);
    assert(seq![a] + (seq![b] + words(none)) =~= seq![a, b]);
}

// ---------------------------------------------------------------- requests

/// A path asks for what stands behind its slashes, and a path of slashes alone
/// for the page itself.
pub proof fn paths_ask_for_what_follows_their_slashes(lead: Seq<char>, name: Seq<char>)
    requires
        forall|i: int| 0 <= i < lead.len() ==> lead[i] == '/',
        name.len() > 0 ==> name[0] != '/',
    ensures
        name.len() > 0 ==> asset_named(lead + name) == name,
        name.len() == 0 ==> asset_named(lead) == "index.html"@,
{
    lemma_slashes(lead, name);
    lemma_slashes(lead, Seq::empty());
    assert((lead + name).skip(lead.len() as int) =~= name);
    assert(lead + Seq::<char>::empty() =~= lead);
}

proof fn lemma_slashes(lead: Seq<char>, name: Seq<char>)
    requires
        forall|i: int| 0 <= i < lead.len() ==> lead[i] == '/',
        name.len() > 0 ==> name[0] != '/',
    ensures
        slashes(lead + name) == lead.len(),
    decreases lead.len(),
{
    if lead.len() == 0 {
        assert(lead + name =~= name);
    } else {
        assert((lead + name).skip(1) =~= lead.skip(1) + name);
        assert forall|i: int| 0 <= i < lead.len() - 1 implies lead.skip(1)[i] == '/' by {
            assert(lead[i + 1] == '/');
        }
        lemma_slashes(lead.skip(1), name);
    }
}

/// A tag holds two digits for each of the first eight bytes, the higher one
/// first, between quotes.
pub proof fn tags_are_read_as_hexadecimal(hash: Seq<u8>, i: int)
    requires
        hash.len() >= 8,
        0 <= i < 8,
    ensures
        etag(hash).len() == 18,
        etag(hash)[0] == '"',
        etag(hash)[17] == '"',
        "0123456789abcdef"@[(hash[i] / 16) as int] == etag(hash)[1 + 2 * i],
        "0123456789abcdef"@[(hash[i] % 16) as int] == etag(hash)[2 + 2 * i],
{
    reveal_strlit("0123456789abcdef");
    lemma_hex(hash, 8, i);
}

proof fn lemma_hex(bytes: Seq<u8>, n: int, i: int)
    requires
        0 <= n <= bytes.len(),
    ensures
        hex_text(bytes, n).len() == 2 * n,
        0 <= i < n ==> hex_text(bytes, n)[2 * i] == hex_char((bytes[i] / 16) as int)
            && hex_text(bytes, n)[2 * i + 1] == hex_char((bytes[i] % 16) as int),
    decreases n,
{
    if n > 0 {
        lemma_hex(bytes, n - 1, i);
    }
}

/// Recording a main screen changes nothing else: recording the old one again
/// brings the configuration back.
pub proof fn main_screens_are_recorded_alone(config: ConfigView, primary: Option<Seq<char>>)
    ensures
        with_main(config, primary).settings.primary == primary,
        with_main(with_main(config, primary), config.settings.primary) == config,
        with_main(config, primary).profiles == config.profiles,
        with_main(config, primary).input == config.input,
        with_main(config, primary).settings.web_port == config.settings.web_port,
        with_main(config, primary).settings.compositor == config.settings.compositor,
{
}

/// What the characters of a text take in bytes.
pub open spec fn bytes_taken(s: Seq<char>) -> nat
    decreases s.len(),
{
    if s.len() == 0 {
        0
    } else {
        bytes_taken(s.drop_last()) + utf8_len(s.last())
    }
}

/// A character takes one byte as long as its number has seven bits, two up to
/// eleven bits, three up to sixteen, and four beyond.
pub proof fn characters_take_bytes_by_their_bits(c: char)
    ensures
        utf8_len(c) == 1 <==> (c as u32) < 128,
        utf8_len(c) <= 2 <==> (c as u32) < 2048,
        utf8_len(c) <= 3 <==> (c as u32) < 65536,
        1 <= utf8_len(c) <= 4,
{
}

/// A response is shown whole where it takes no more than two hundred bytes. A
/// longer one is cut to as many characters as those bytes hold, and ends in a
/// mark that says so.
pub proof fn responses_are_shown_as_far_as_they_fit(text: Seq<char>)
    ensures
        ({
            let s = trim(text);
            let n = shortened(text).len() - 1;
            &&& bytes_taken(s) <= 200 ==> shortened(text) == s
            &&& bytes_taken(s) > 200 ==> {
                &&& 0 <= n < s.len()
                &&& shortened(text) == s.take(n).push('…')
                &&& bytes_taken(s.take(n)) <= 200
                &&& bytes_taken(s.take(n + 1)) > 200
            }
        }),
{
    let s = trim(text);
    lemma_fitting(s, 0, 200);
    let n = fitting(s, 0, 200);
    assert(s.take(0) =~= Seq::empty());
    assert(s.take(s.len() as int) =~= s);
    reveal_strlit("…");
    assert(s.take(n) + "…"@ =~= s.take(n).push('…'));
    if n < s.len() {
        lemma_bytes_grow(s, n + 1);
    }
}

proof fn lemma_bytes_grow(s: Seq<char>, n: int)
    requires
        0 <= n <= s.len(),
    ensures
        bytes_taken(s.take(n)) <= bytes_taken(s),
    decreases s.len() - n,
{
    if n < s.len() {
        lemma_bytes_grow(s, n + 1);
        assert(s.take(n + 1).drop_last() =~= s.take(n));
    } else {
        assert(s.take(n) =~= s);
    }
}

proof fn lemma_fitting(s: Seq<char>, i: int, room: int)
    requires
        0 <= i <= s.len(),
        room >= 0,
    ensures
        0 <= fitting(s, i, room) <= s.len() - i,
        bytes_taken(s.take(i + fitting(s, i, room))) - bytes_taken(s.take(i)) <= room,
        i + fitting(s, i, room) < s.len() ==> bytes_taken(s.take(i + fitting(s, i, room) + 1))
            - bytes_taken(s.take(i)) > room,
    decreases s.len() - i,
{
    if i < s.len() {
        assert(s.take(i + 1).drop_last() =~= s.take(i));
        assert(s.take(i + 1).last() == s[i]);
        if utf8_len(s[i]) <= room {
            lemma_fitting(s, i + 1, room - utf8_len(s[i]));
        }
    }
}

// ---------------------------------------------------------------- notifications

/// A notification hands out its summary, then its body where there is one, and
/// says how urgent it is.
pub proof fn notifications_say_what_they_are_given(
    summary: Seq<char>,
    body: Seq<char>,
    urgency: Urgency,
)
    ensures
        ({
            let args = notification(summary, body, urgency);
            &&& body.len() > 0 ==> args.len() >= 2 && args[args.len() - 2] == summary
                && args.last() == body
            &&& body.len() == 0 ==> args.last() == summary
            &&& urgency == Urgency::Low ==> args.contains("--urgency=low"@)
            &&& urgency == Urgency::Normal ==> args.contains("--urgency=normal"@)
        }),
{
    let args = notification(summary, body, urgency);
    reveal_strlit("--urgency=");
    reveal_strlit("--urgency=low");
    reveal_strlit("--urgency=normal");
    reveal_strlit("low");
    reveal_strlit("normal");
    assert(args[1] == "--urgency="@ + urgency.word());
    if urgency == Urgency::Low {
        assert(args[1] =~= "--urgency=low"@);
    } else {
        assert(args[1] =~= "--urgency=normal"@);
    }
}

// ---------------------------------------------------------------- service

/// A unit runs its binary as a daemon, and belongs to, follows and is wanted by
/// its target.
pub proof fn units_serve_their_target(exec: Seq<char>, target: Seq<char>, locale: Locale)
    ensures
        contains(unit_text(exec, target, locale), "ExecStart="@ + exec + " daemon\n"@),
        contains(unit_text(exec, target, locale), "PartOf="@ + (target + "\nAfter="@ + target)),
        contains(unit_text(exec, target, locale), "WantedBy="@ + target + "\n"@),
{
    let head = "# "@ + note(NoticeId::ServiceGenerated, seq![]).said(locale);
    let about =
        "\n[Unit]\nDescription=Dynamic monitor configuration for Hyprland\nDocumentation=https://github.com/jacquesh82/hyprdmc\nPartOf="@;
    let retries =
        "\n# Hyprland's socket is often not up yet on the first tries after\n# login — especially when hooked onto default.target, which systemd\n# reaches long before the compositor exists. Roughly a minute of\n# retries, then it gives up rather than spinning forever.\nStartLimitIntervalSec=120\nStartLimitBurst=20\n\n[Service]\nType=simple\nExecStart="@;
    let restart =
        " daemon\nRestart=on-failure\nRestartSec=3\nSlice=session.slice\n\n[Install]\nWantedBy="@;
    let after = "\nAfter="@;
    let end = "\n"@;
    let text = head + about + target + after + target + retries + exec + restart + target + end;
    assert(ends_with(about, "PartOf="@)) by {
        reveal_strlit(
            "\n[Unit]\nDescription=Dynamic monitor configuration for Hyprland\nDocumentation=https://github.com/jacquesh82/hyprdmc\nPartOf=",
        );
        reveal_strlit("PartOf=");
        assert(about.subrange(about.len() - 7, about.len() as int) =~= "PartOf="@);
    }
    assert(ends_with(retries, "ExecStart="@)) by {
        reveal_strlit(
            "\n# Hyprland's socket is often not up yet on the first tries after\n# login — especially when hooked onto default.target, which systemd\n# reaches long before the compositor exists. Roughly a minute of\n# retries, then it gives up rather than spinning forever.\nStartLimitIntervalSec=120\nStartLimitBurst=20\n\n[Service]\nType=simple\nExecStart=",
        );
        reveal_strlit("ExecStart=");
        assert(retries.subrange(retries.len() - 10, retries.len() as int) =~= "ExecStart="@);
    }
    assert(ends_with(restart, "WantedBy="@) && starts_with(restart, " daemon\n"@)) by {
        reveal_strlit(
            " daemon\nRestart=on-failure\nRestartSec=3\nSlice=session.slice\n\n[Install]\nWantedBy=",
        );
        reveal_strlit("WantedBy=");
        reveal_strlit(" daemon\n");
        assert(restart.subrange(restart.len() - 9, restart.len() as int) =~= "WantedBy="@);
        assert(restart.subrange(0, 8) =~= " daemon\n"@);
    }
    let none = Seq::<char>::empty();
    let rest = retries + exec + restart + target + end;
    assert(starts_with(rest, none)) by {
        assert(rest.subrange(0, 0) =~= none);
    }
    let middle = target + after + target;
    assert(text =~= head + about + middle + rest);
    lemma_stands_between(head, about, "PartOf="@, middle, rest, none);
    assert("PartOf="@ + middle + none =~= "PartOf="@ + middle);
    let before = head + about + target + after + target;
    let behind = restart + target + end;
    assert(starts_with(behind, " daemon\n"@)) by {
        let n = " daemon\n"@.len() as int;
        assert(behind.subrange(0, n) =~= restart.subrange(0, n));
    }
    assert(text =~= before + retries + exec + behind);
    lemma_stands_between(before, retries, "ExecStart="@, exec, behind, " daemon\n"@);
    let most = before + retries + exec;
    assert(end.subrange(0, end.len() as int) =~= end);
    lemma_stands_between(most, restart, "WantedBy="@, target, end, end);
}

proof fn lemma_stands_between(
    a: Seq<char>,
    l: Seq<char>,
    t: Seq<char>,
    m: Seq<char>,
    r: Seq<char>,
    u: Seq<char>,
)
    requires
        ends_with(l, t),
        starts_with(r, u),
    ensures
        contains(a + l + m + r, t + m + u),
{
    let s = a + l + m + r;
    let p = t + m + u;
    let i = a.len() + l.len() - t.len();
    assert forall|k: int| 0 <= k < p.len() implies s.subrange(i, i + p.len())[k] == p[k] by {
        if k < t.len() {
            assert(l.subrange(l.len() - t.len(), l.len() as int)[k] == t[k]);
        } else if k >= t.len() + m.len() {
            let j = k - t.len() - m.len();
            assert(r.subrange(0, u.len() as int)[j] == u[j]);
        }
    }
    assert(s.subrange(i, i + p.len()) =~= p);
    assert(occurs_at(s, p, i));
}

// ---------------------------------------------------------------- sockets

/// The instance that the environment names is the one to talk to, as long as it
/// is there; where it names none, the only one that runs is. Anything else is
/// told apart.
pub proof fn instances_are_found_by_name_or_alone(base: Seq<char>, found: Instances)
    requires
        base.len() > 0,
        base.last() != '/',
    ensures
        match found {
            Instances::Signature(sig, true) => !is_rooted(sig@) ==> located(base, found) == Ok::<
                Seq<char>,
                NoticeView,
            >(base.push('/') + sig@),
            Instances::Signature(sig, false) => located(base, found) matches Err(e) && e.id
                == NoticeId::StaleSignature,
            Instances::Unreadable => located(base, found) matches Err(e) && e.id
                == NoticeId::NotRunning,
            Instances::Listed(list) => match located(base, found) {
                Ok(dir) => list@.len() == 1 && dir == list@[0]@,
                Err(e) => list@.len() != 1 && e.id == if list@.len() == 0 {
                    NoticeId::NoInstance
                } else {
                    NoticeId::ManyInstances
                },
            },
        },
{
    match found {
        Instances::Signature(sig, _) => {
            if !is_rooted(sig@) {
                names_are_put_behind_their_directory(base, sig@);
            }
        },
        _ => {},
    }
}

/// The instances lie in the runtime directory; where none is named, in that of
/// the user, whose number is read in its name.
pub proof fn instances_lie_in_the_runtime_directory(dir: Seq<char>, uid: u32)
    requires
        dir.len() > 0,
        dir.last() != '/',
    ensures
        instances_dir(Some(dir), uid) == dir + "/hypr"@,
        ({
            let own = instances_dir(None, uid);
            &&& starts_with(own, "/run/user/"@)
            &&& ends_with(own, "/hypr"@)
            &&& parse_nat(own.subrange(10, own.len() - 5)) == Some(uid as nat)
        }),
{
    reveal_strlit("hypr");
    reveal_strlit("/hypr");
    reveal_strlit("/run/user/");
    names_are_put_behind_their_directory(dir, "hypr"@);
    assert(dir.push('/') + "hypr"@ =~= dir + "/hypr"@);
    let digits = nat_text(uid as nat);
    naturals_read_back(uid as nat);
    let base = "/run/user/"@ + digits;
    assert(base.last() == digits.last());
    assert(is_digit(digits[digits.len() - 1]));
    names_are_put_behind_their_directory(base, "hypr"@);
    let own = instances_dir(None, uid);
    assert(own =~= "/run/user/"@ + digits + "/hypr"@);
    assert(own.subrange(0, 10) =~= "/run/user/"@);
    assert(own.subrange(own.len() - 5, own.len() as int) =~= "/hypr"@);
    assert(own.subrange(10, own.len() - 5) =~= digits);
}

// ---------------------------------------------------------------- sessions

/// A session is known by the variable of its compositor or by the list of its
/// desktops, in any case; with neither, no compositor runs. Hyprland is asked
/// first, and is what is assumed where nothing runs.
pub proof fn sessions_are_known_by_their_environment(env: Environment, k: int)
    ensures
        env.hyprland_signature ==> detected(env) == Some(Plugin::Hyprland),
        !env.hyprland_signature && env.sway_socket && env.desktop is None ==> detected(env)
            == Some(Plugin::Sway),
        !env.hyprland_signature && !env.sway_socket && env.desktop is None ==> detected(env)
            is None && resolved(None, env) == Ok::<Plugin, NoticeView>(Plugin::Hyprland),
        env.desktop is Some && 0 <= k < split(env.desktop->0@, ":"@).len() ==> ({
            let desktop = ascii_lowercase(trim(split(env.desktop->0@, ":"@)[k]));
            &&& desktop == "hyprland"@ ==> detected(env) == Some(Plugin::Hyprland)
            &&& desktop == "sway"@ ==> Plugin::Sway.runs(env) && detected(env) is Some
        }),
{
    reveal_strlit("Hyprland");
    reveal_strlit("hyprland");
    reveal_strlit("sway");
    assert(ascii_lowercase("Hyprland"@) =~= "hyprland"@);
    assert(ascii_lowercase("sway"@) =~= "sway"@);
}

/// The files of a compositor lie in a directory of its own, in the user's
/// configuration directory or in `.config` under their home.
pub proof fn configurations_lie_under_the_home(env: Environment)
    requires
        env.config_home is None,
        env.home is Some,
        env.home->0@.len() > 0,
        env.home->0@.last() != '/',
    ensures
        Hyprland.dir_in(env) == env.home->0@ + "/.config/hypr"@,
        Sway.dir_in(env) == env.home->0@ + "/.config/sway"@,
{
    reveal_strlit(".config");
    reveal_strlit("hypr");
    reveal_strlit("sway");
    reveal_strlit("/.config/hypr");
    reveal_strlit("/.config/sway");
    let home = env.home->0@;
    names_are_put_behind_their_directory(home, ".config"@);
    let root = home.push('/') + ".config"@;
    assert(root.last() == 'g');
    names_are_put_behind_their_directory(root, "hypr"@);
    names_are_put_behind_their_directory(root, "sway"@);
    assert(root.push('/') + "hypr"@ =~= home + "/.config/hypr"@);
    assert(root.push('/') + "sway"@ =~= home + "/.config/sway"@);
}

/// An import brings everything but what is local: with the local settings of the
/// bundle put back it is the bundle again.
pub proof fn imports_bring_everything_else(current: ConfigView, bundle: ConfigView)
    ensures
        imported(bundle, imported(current, bundle)) == bundle,
        imported(imported(current, bundle), current) == current,
{
}

// ---------------------------------------------------------------- language

/// What parts a language from its region.
pub open spec fn parts_language(c: char) -> bool {
    c == '.' || c == '@' || c == '-' || c == '_'
}

/// A locale asks for the language that stands before its region, in capitals or
/// not; French and English are spoken.
pub proof fn languages_stand_before_their_region(language: Seq<char>, sep: char, region: Seq<char>)
    requires
        language.len() > 0,
        none_white(language),
        forall|i: int| 0 <= i < language.len() ==> !parts_language(#[trigger] language[i]),
        parts_language(sep),
        region.len() > 0 ==> !is_white(region.last()),
    ensures
        language_part(language) == language,
        language_part(language.push(sep) + region) == language,
        asked_in_ascii(language.push(sep) + region) == asked_in_ascii(language),
        (asked_in_ascii(language) == Some(Locale::Fr)) == (ascii_lowercase(language) == "fr"@),
        (asked_in_ascii(language) == Some(Locale::En)) == (ascii_lowercase(language) == "en"@),
{
    reveal_strlit("fr");
    reveal_strlit("en");
    assert("fr"@[0] != "en"@[0]);
    let none = Seq::<char>::empty();
    let s = language.push(sep) + region;
    assert(none + s + none =~= s);
    assert(s[0] == language[0]);
    if region.len() == 0 {
        assert(s.last() == sep);
    }
    surrounding_white_is_trimmed(none, s, none);
    assert(none + language + none =~= language);
    surrounding_white_is_trimmed(none, language, none);
    lemma_language_len(language, none);
    assert(language + none =~= language);
    assert(s =~= language + seq![sep] + region);
    assert(s =~= language + (seq![sep] + region));
    lemma_language_len(language, seq![sep] + region);
    assert(s.take(language.len() as int) =~= language);
    assert(language.take(language.len() as int) =~= language);
}

proof fn lemma_language_len(language: Seq<char>, rest: Seq<char>)
    requires
        forall|i: int| 0 <= i < language.len() ==> !parts_language(#[trigger] language[i]),
        rest.len() > 0 ==> parts_language(rest[0]),
    ensures
        language_len(language + rest) == language.len(),
    decreases language.len(),
{
    let s = language + rest;
    if language.len() == 0 {
        assert(s =~= rest);
    } else {
        assert(s[0] == language[0]);
        assert(s.skip(1) =~= language.skip(1) + rest);
        lemma_language_len(language.skip(1), rest);
    }
}

/// Whether nothing, or no language that is spoken, is asked for.
pub open spec fn asks_for_nothing(o: Option<String>) -> bool {
    match o {
        Some(s) => asked_for(s@) is None,
        None => true,
    }
}

/// Languages are asked for by the override, the preference and then the three
/// variables of the system, in that order; where none of them asks, English is
/// spoken.
pub proof fn languages_are_asked_for_in_order(preferred: Option<String>, env: LanguageEnv)
    ensures
        ({
            let said = spoken(view_opt(preferred), env);
            let a = asks_for_nothing(env.override_with);
            let b = a && asks_for_nothing(preferred);
            let c = b && asks_for_nothing(env.lc_all);
            let d = c && asks_for_nothing(env.lc_messages);
            let e = d && asks_for_nothing(env.lang);
            &&& !a ==> asked_for(env.override_with->0@) == Some(said)
            &&& a && !b ==> asked_for(preferred->0@) == Some(said)
            &&& b && !c ==> asked_for(env.lc_all->0@) == Some(said)
            &&& c && !d ==> asked_for(env.lc_messages->0@) == Some(said)
            &&& d && !e ==> asked_for(env.lang->0@) == Some(said)
            &&& e ==> said == Locale::En
        }),
{
}

} // verus!
