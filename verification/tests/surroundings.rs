use hyprdmc::apply::ApplyReport;
use hyprdmc::browser::{has_display, launcher, open, reachable_url};
use hyprdmc::cli;
use hyprdmc::compositor::{all, by_id, detect, resolve, Compositor, Plugin};
use hyprdmc::config::{Config, Profile};
use hyprdmc::env::Environment;
use hyprdmc::i18n::{detect_with, language, normalize, LanguageEnv, Locale};
use hyprdmc::input::{catalog, fallback_catalog, parse_rules, InputConfig};
use hyprdmc::layout::{Issue, Severity};
use hyprdmc::notice::{Notice, NoticeId};
use hyprdmc::notify::{build_args, Urgency};
use hyprdmc::service::{
    default_target, disable_command, enable_command, executable, install, installed,
    reload_command, render_unit, systemctl_rejected, uninstall, unit_path, Removal,
};
use hyprdmc::web::{asset_path, bundle_kind, etag_for, import_config, is_unchanged};
use hyprdmc::wordings::{web_strings, Phrase, WEB_WORDINGS};

const EN: Locale = Locale::En;

fn environment() -> Environment {
    Environment {
        home: Some("/home/u".into()),
        config_home: None,
        desktop: None,
        hyprland_signature: false,
        sway_socket: false,
    }
}

/// Builds a fake environment from `(key, value)` pairs.
fn env(pairs: &[(&str, &str)]) -> LanguageEnv {
    let get = |key: &str| pairs.iter().find(|(k, _)| *k == key).map(|(_, v)| v.to_string());
    LanguageEnv {
        override_with: get("HYPRDMC_LANG"),
        lc_all: get("LC_ALL"),
        lc_messages: get("LC_MESSAGES"),
        lang: get("LANG"),
    }
}

fn norm(raw: &str) -> Option<&'static str> {
    normalize(raw).map(Locale::code)
}

#[test]
fn falls_back_to_xdg_open() {
    assert_eq!(
        launcher(None, "http://x"),
        ("xdg-open".to_string(), vec!["http://x".to_string()])
    );
}

#[test]
fn blank_browser_variable_is_ignored() {
    // BROWSER="" is common in stripped environments; it must not become
    // an attempt to execute the empty program.
    assert_eq!(launcher(Some("   "), "http://x").0, "xdg-open");
    assert_eq!(launcher(Some(""), "http://x").0, "xdg-open");
}

#[test]
fn browser_variable_is_honoured() {
    assert_eq!(
        launcher(Some("firefox"), "http://x"),
        ("firefox".to_string(), vec!["http://x".to_string()])
    );
}

#[test]
fn browser_variable_may_carry_arguments() {
    let (program, args) = launcher(Some("firefox --new-window"), "http://x");
    assert_eq!(program, "firefox");
    assert_eq!(args, vec!["--new-window", "http://x"]);
}

#[test]
fn percent_s_marks_where_the_url_goes() {
    // Wrappers that need the URL before their own flags rely on this.
    let (program, args) = launcher(Some("my-wrapper %s --kiosk"), "http://x");
    assert_eq!(program, "my-wrapper");
    assert_eq!(args, vec!["http://x", "--kiosk"]);
}

#[test]
fn wildcard_bind_sends_the_browser_to_loopback() {
    assert_eq!(reachable_url(true, "0.0.0.0:8787", 8787), "http://127.0.0.1:8787");
    assert_eq!(reachable_url(true, "[::]:8787", 8787), "http://127.0.0.1:8787");
}

#[test]
fn concrete_bind_is_used_as_is() {
    assert_eq!(reachable_url(false, "127.0.0.1:9000", 9000), "http://127.0.0.1:9000");
}

#[test]
fn a_browser_needs_a_session() {
    assert!(has_display(true, false) && has_display(false, true));
    assert!(!has_display(false, false));
    assert_eq!(open(false, None, "u").unwrap_err().id, NoticeId::NoDisplay);
    assert_eq!(open(true, Some("lynx"), "u").unwrap().0, "lynx");
}

#[test]
fn summary_only_notifications_omit_the_body() {
    let args = build_args("Profile applied", "", Urgency::Low);
    assert_eq!(args.last().unwrap(), "Profile applied");
    assert_eq!(args.iter().filter(|a| !a.starts_with("--")).count(), 1);
}

#[test]
fn body_follows_the_summary() {
    let args = build_args("Display connected", "DP-1", Urgency::Normal);
    assert_eq!(args[args.len() - 2], "Display connected");
    assert_eq!(args[args.len() - 1], "DP-1");
}

#[test]
fn urgency_is_forwarded() {
    assert!(build_args("s", "", Urgency::Low).contains(&"--urgency=low".to_string()));
    assert!(build_args("s", "", Urgency::Normal).contains(&"--urgency=normal".to_string()));
}

#[test]
fn notifications_replace_each_other_rather_than_stacking() {
    let args = build_args("s", "b", Urgency::Low);
    assert!(
        args.iter()
            .any(|a| a.contains("x-canonical-private-synchronous:hyprdmc")),
        "a burst of hotplug events must not produce a stack of popups"
    );
}

#[test]
fn the_unit_points_at_the_binary_it_was_generated_from() {
    let unit = render_unit("/usr/bin/hyprdmc", default_target(), EN);
    assert!(unit.contains("ExecStart=/usr/bin/hyprdmc daemon"));
}

#[test]
fn the_unit_hooks_onto_the_requested_target() {
    let unit = render_unit("/usr/bin/hyprdmc", "hyprland-session.target", EN);
    assert!(unit.contains("WantedBy=hyprland-session.target"));
    assert!(unit.contains("PartOf=hyprland-session.target"));
    assert!(unit.contains("After=hyprland-session.target"));
    assert!(
        !unit.contains("graphical-session.target"),
        "the default must not leak in when another target was asked for"
    );
}

#[test]
fn the_unit_restarts_on_failure_but_not_forever() {
    let unit = render_unit("/usr/bin/hyprdmc", default_target(), EN);
    assert!(unit.contains("Restart=on-failure"));
    assert!(unit.contains("StartLimitBurst=20"));
}

#[test]
fn a_relative_executable_is_refused() {
    // `ExecStart` is resolved by systemd, not by the shell that installed
    // the unit: a relative path would point somewhere else entirely.
    let err = executable("target/release/hyprdmc").unwrap_err();
    assert_eq!(err.id, NoticeId::RelativeExecutable);
    assert_eq!(executable("/usr/bin/hyprdmc").unwrap(), "/usr/bin/hyprdmc");
}

#[test]
fn the_unit_lands_under_the_user_unit_directory() {
    let path = unit_path(&environment());
    assert!(path.ends_with("systemd/user/hyprdmc.service"), "{path:?}");
}

#[test]
fn an_installation_is_planned_before_it_is_made() {
    let env = environment();
    let plan = install(true, "/usr/bin/hyprdmc", "x.target", true, &env, EN).unwrap();
    assert_eq!(plan.path, "/home/u/.config/systemd/user/hyprdmc.service");
    assert!(plan.content.starts_with("# Generated by hyprdmc service install.\n[Unit]\n"));
    assert!(plan.content.ends_with("WantedBy=x.target\n"));
    let done = installed(plan, false);
    assert!(done.enabled && done.target_inactive);
    let id = |systemd, exe| {
        install(systemd, exe, "x.target", true, &environment(), EN)
            .unwrap_err()
            .id
    };
    assert_eq!(id(false, "hyprdmc"), NoticeId::NoSystemd);
    assert_eq!(id(true, "hyprdmc"), NoticeId::RelativeExecutable);
    assert_eq!(uninstall(false, true), Removal::Nothing);
    assert_eq!(uninstall(true, false), Removal::File);
    assert_eq!(uninstall(true, true), Removal::DisableFileReload);
    assert_eq!(reload_command(), vec!["daemon-reload"]);
    assert_eq!(enable_command(), vec!["enable", "--now", "hyprdmc.service"]);
    assert_eq!(
        systemctl_rejected(&disable_command(), " no \n").text(EN),
        "systemctl --user disable --now hyprdmc.service failed: no"
    );
    match cli::service_action(None) {
        cli::ServiceAction::Install { enable, wanted_by, dry_run } => {
            assert!(!enable && !dry_run);
            assert_eq!(wanted_by, "graphical-session.target");
        }
        _ => panic!("installing is the default"),
    }
}

#[test]
fn plain_language_tags_are_recognised() {
    assert_eq!(norm("fr"), Some("fr"));
    assert_eq!(norm("en"), Some("en"));
}

#[test]
fn posix_locales_are_reduced_to_their_language() {
    assert_eq!(norm("fr_FR.UTF-8"), Some("fr"));
    assert_eq!(norm("fr_BE@euro"), Some("fr"));
    assert_eq!(norm("en_GB.utf8"), Some("en"));
    // A regional variant we do not ship still resolves to its language.
    assert_eq!(norm("fr-CA"), Some("fr"));
}

#[test]
fn unshipped_and_empty_locales_are_rejected() {
    assert_eq!(norm("de_DE.UTF-8"), None);
    assert_eq!(norm("C"), None);
    assert_eq!(norm(""), None);
    assert_eq!(norm("   "), None);
}

#[test]
fn posix_c_locale_falls_back_to_english() {
    // `LANG=C` is the scripting default: English is the right answer.
    assert_eq!(detect_with(None, &env(&[("LANG", "C")])).code(), "en");
    assert_eq!(detect_with(None, &env(&[])).code(), "en");
}

#[test]
fn system_locale_is_honoured() {
    assert_eq!(detect_with(None, &env(&[("LANG", "fr_FR.UTF-8")])).code(), "fr");
    // LC_ALL outranks LANG, as POSIX prescribes.
    assert_eq!(
        detect_with(None, &env(&[("LC_ALL", "en_US"), ("LANG", "fr_FR")])).code(),
        "en"
    );
}

#[test]
fn configured_preference_outranks_the_system_locale() {
    // A preference saved in config.toml must not be undone by a
    // system-wide LANG.
    assert_eq!(
        detect_with(Some("fr"), &env(&[("LANG", "en_US.UTF-8")])).code(),
        "fr"
    );
    // An unshipped preference does not shadow the rest of the chain.
    assert_eq!(detect_with(Some("de"), &env(&[("LANG", "fr_FR")])).code(), "fr");
}

#[test]
fn explicit_override_beats_everything() {
    assert_eq!(
        detect_with(
            Some("fr"),
            &env(&[("HYPRDMC_LANG", "en"), ("LANG", "fr_FR")])
        )
        .code(),
        "en"
    );
}

#[test]
fn languages_are_matched_in_lower_case() {
    assert_eq!(norm("FR_fr"), Some("fr"));
    assert_eq!(language("FR"), None);
    assert_eq!(language("fr"), Some(Locale::Fr));
}

const RULES: &str = "\
! model
  pc105           Generic 105-key PC

! layout
  us              English (US)
  fr              French

! variant
  oss             fr: French (alt.)
  dvorak          us: English (Dvorak)

! option
  grp             Switching to another layout
  grp:alt_shift_toggle  Alt+Shift
  compose:ralt    Right Alt
";

#[test]
fn the_catalogue_keeps_codes_and_descriptions_apart() {
    let catalog = parse_rules(RULES);
    assert_eq!(catalog.layouts.len(), 2);
    assert_eq!(catalog.layouts[1].code, "fr");
    assert_eq!(catalog.layouts[1].label, "French");
}

#[test]
fn a_variant_remembers_which_layout_it_belongs_to() {
    let catalog = parse_rules(RULES);
    let oss = catalog.variants.iter().find(|v| v.code == "oss").unwrap();
    assert_eq!(oss.layout, "fr");
    assert_eq!(oss.label, "French (alt.)");
}

#[test]
fn option_section_headings_are_not_options() {
    let catalog = parse_rules(RULES);
    assert!(
        !catalog.options.iter().any(|o| o.code == "grp"),
        "\"grp\" is a heading, not something to select"
    );
    assert_eq!(catalog.options.len(), 2);
}

#[test]
fn a_missing_rules_file_still_offers_something_to_pick() {
    let catalog = fallback_catalog();
    assert!(catalog.layouts.iter().any(|l| l.code == "fr"));
}

#[test]
fn a_layout_is_the_one_thing_that_cannot_be_empty() {
    let mut cfg = InputConfig { kb_variant: String::new(), ..Default::default() };
    assert!(cfg.validate().is_ok());
    cfg.kb_layout = "  ".into();
    assert!(cfg.validate().is_err());
}

#[test]
fn the_first_usable_rules_list_is_taken() {
    assert_eq!(catalog(&Vec::new()), fallback_catalog());
    assert_eq!(catalog(&vec!["! model\n a b\n".into()]), fallback_catalog());
    assert_eq!(catalog(&vec!["".into(), RULES.into()]), parse_rules(RULES));
}

#[test]
fn every_plugin_has_a_distinct_identifier() {
    let mut ids: Vec<&str> = all().iter().map(|c| c.id()).collect();
    let count = ids.len();
    ids.sort_unstable();
    ids.dedup();
    assert_eq!(ids.len(), count, "two plugins answer to the same id");
    assert!(count >= 2, "the seam is not proven by a single plugin");
}

#[test]
fn a_plugin_can_be_looked_up_by_id_case_insensitively() {
    assert_eq!(by_id("hyprland").unwrap().id(), "hyprland");
    assert_eq!(by_id("  SWAY ").unwrap().id(), "sway");
    assert!(by_id("mutter").is_none());
}

#[test]
fn an_explicit_choice_wins_and_a_wrong_one_is_named() {
    let env = environment();
    assert_eq!(resolve(Some("sway"), &env).unwrap().id(), "sway");
    let Err(err) = resolve(Some("mutter"), &env) else {
        panic!("a compositor nobody implements must not silently resolve");
    };
    let err = err.text(EN);
    assert!(err.contains("mutter"), "{err}");
    assert!(err.contains("hyprland"), "the error must list what works");
}

#[test]
fn no_preference_falls_back_rather_than_failing() {
    // A session we cannot identify must still be usable.
    let env = environment();
    assert!(resolve(None, &env).is_ok());
    assert!(resolve(Some("auto"), &env).is_ok());
    assert!(resolve(Some("  "), &env).is_ok());
}

#[test]
fn generated_file_names_are_distinct_within_a_plugin() {
    for c in all() {
        assert_ne!(
            c.monitors_file(),
            c.input_file(),
            "{}: one file would overwrite the other",
            c.id()
        );
    }
}

#[test]
fn every_shipped_plugin_drives_a_session() {
    for c in all() {
        assert!(
            c.drives_sessions(),
            "{}: shipped without a session implementation",
            c.id()
        );
    }
}

#[test]
fn the_running_compositor_is_recognised() {
    let mut env = environment();
    assert_eq!(detect(&env), None);
    env.desktop = Some("GNOME: SWAY ".into());
    assert_eq!(detect(&env), Some(Plugin::Sway));
    env.hyprland_signature = true;
    assert_eq!(detect(&env), Some(Plugin::Hyprland));
    assert_eq!(resolve(Some("sway"), &env), Ok(Plugin::Sway));
    env.hyprland_signature = false;
    env.desktop = None;
    env.sway_socket = true;
    assert_eq!(resolve(Some("auto"), &env), Ok(Plugin::Sway));
    assert_eq!(
        Plugin::Sway.monitors_path(&env),
        "/home/u/.config/sway/monitors.conf"
    );
    assert_eq!(
        Plugin::Hyprland.input_path(&env),
        "/home/u/.config/hypr/inputs.lua"
    );
    assert_eq!(Plugin::Sway.main_config(&env), "/home/u/.config/sway/config");

    let rows = cli::plugin_rows(Plugin::Sway, &env);
    assert!(rows[1].active && !rows[0].active);
    assert!(rows[1].detected && !rows[0].detected);
    assert_eq!(rows[0].files, "monitors.lua, inputs.lua");
    let mut config = Config::default();
    assert_eq!(
        cli::describe_compositor(&config, Plugin::Sway).text(EN),
        "compositor: sway (detected)"
    );
    config.settings.compositor = Some("hyprland".into());
    assert_eq!(config.compositor(&env), Ok(Plugin::Hyprland));
    assert_eq!(
        cli::describe_compositor(&config, Plugin::Hyprland).id,
        NoticeId::CompositorConfigured
    );
}

#[test]
fn an_import_keeps_what_belongs_to_this_machine() {
    let mut here = Config::default();
    here.settings.web_port = 4000;
    here.settings.bind = "0.0.0.0".into();
    here.settings.monitors_lua = Some("/here/monitors.lua".into());
    let mut there = Config::default();
    there.settings.web_port = 5000;
    there.settings.monitors_lua = Some("/there/monitors.lua".into());
    there.settings.input_lua = Some("/there/inputs.lua".into());
    there.settings.primary = Some("Dell*".into());
    there.upsert(Profile { name: "desk".into(), exact: true, outputs: Vec::new() });

    let now = import_config(&here, bundle_kind(), 1, there.clone()).unwrap();
    assert_eq!(now.settings.web_port, 4000);
    assert_eq!(now.settings.bind, "0.0.0.0");
    assert_eq!(now.settings.monitors_lua.as_deref(), Some("/here/monitors.lua"));
    assert_eq!(now.settings.input_lua, None);
    assert_eq!(now.settings.primary.as_deref(), Some("Dell*"));
    assert_eq!(now.profiles.len(), 1);

    assert_eq!(
        import_config(&here, "other", 1, there.clone()).unwrap_err().id,
        NoticeId::NotABundle
    );
    assert_eq!(
        import_config(&here, bundle_kind(), 2, there).unwrap_err().text(EN),
        "this configuration has version 2, and only versions up to 1 can be read"
    );
}

#[test]
fn assets_are_named_and_revalidated() {
    assert_eq!(asset_path("/"), "index.html");
    assert_eq!(asset_path(""), "index.html");
    assert_eq!(asset_path("//app.js"), "app.js");
    let mut hash = [0u8; 32];
    hash[0] = 0xab;
    hash[7] = 0x09;
    let tag = etag_for(&hash);
    assert_eq!(tag, "\"ab00000000000009\"");
    hash[8] = 1;
    assert_eq!(etag_for(&hash), tag);
    hash[3] = 1;
    assert_ne!(etag_for(&hash), tag);
    assert!(is_unchanged(Some("\"x\", \"ab00000000000009\""), &tag));
    assert!(!is_unchanged(Some("\"x\""), &tag));
    assert!(!is_unchanged(None, &tag));
}

#[test]
fn a_browser_is_opened_when_asked_or_by_default() {
    let args = |open, no_open| cli::WebArgs { port: None, bind: None, open, no_open };
    assert!(args(true, false).should_open(false));
    assert!(!args(false, true).should_open(true));
    assert!(args(false, false).should_open(true));
    assert!(!args(false, false).should_open(false));
    let config = Config::default();
    assert_eq!(args(false, false).target(&config), ("127.0.0.1".to_string(), 8787));
    let given = cli::WebArgs {
        port: Some(0),
        bind: Some("::1".into()),
        open: false,
        no_open: false,
    };
    assert_eq!(given.target(&config), ("::1".to_string(), 0));
}

#[test]
fn a_report_tells_warnings_and_drifts() {
    let report = ApplyReport {
        issues: vec![
            Issue {
                severity: Severity::Error,
                outputs: Vec::new(),
                message: Notice::plain(NoticeId::AllDisabled),
            },
            Issue {
                severity: Severity::Warning,
                outputs: Vec::new(),
                message: Notice::one(NoticeId::Unreachable, "DP-1"),
            },
        ],
        ..ApplyReport::default()
    };
    let lines = cli::report_lines(&report);
    assert_eq!(lines.len(), 1);
    assert_eq!(lines[0].0, Severity::Warning);
    assert!(lines[0].1.text(EN).starts_with("DP-1 touches no other display"));
}

#[test]
fn an_application_is_filed_unless_it_failed_or_is_in_doubt() {
    assert_eq!(cli::after_application(true, true, 10, true), cli::Next::Fail);
    assert_eq!(cli::after_application(false, false, 10, true), cli::Next::Confirm);
    assert_eq!(cli::after_application(false, true, 10, true), cli::Next::File);
    assert_eq!(cli::after_application(false, false, 0, true), cli::Next::File);
    assert_eq!(cli::after_application(false, false, 10, false), cli::Next::File);
}

#[test]
fn every_served_key_has_a_translation() {
    for locale in [Locale::En, Locale::Fr] {
        let strings = web_strings(locale);
        assert_eq!(strings.len(), WEB_WORDINGS);
        for (key, text) in &strings {
            assert!(key.starts_with("web."));
            assert!(!text.is_empty());
            assert_ne!(key, text, "key {key} has no {} translation", locale.code());
        }
    }
}

#[test]
fn the_strings_are_those_of_the_language() {
    let apply = |locale| {
        web_strings(locale).into_iter().find(|(key, _)| key == "web.action.apply").unwrap().1
    };
    assert_eq!(apply(Locale::En), "Apply");
    assert_eq!(apply(Locale::Fr), "Appliquer");
}

#[test]
fn phrases_are_those_of_the_language() {
    assert_eq!(Phrase::No.text(Locale::En), "no");
    assert_eq!(Phrase::No.text(Locale::Fr), "non");
    assert_eq!(Phrase::HistoryCleared.text(Locale::En), "History cleared.");
    assert_eq!(Phrase::HistoryCleared.text(Locale::Fr), "Historique effacé.");
}
