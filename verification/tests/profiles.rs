use hyprdmc::cli;
use hyprdmc::config::{
    config_path, glob_match, glob_match_folded, hyprland_conf, matches_pattern, parse_position,
    Config, OutputRule, Profile, Settings,
};
use hyprdmc::env::Environment;
use hyprdmc::fixed::Fixed;
use hyprdmc::i18n::Locale;
use hyprdmc::input::InputConfig;
use hyprdmc::layout::{Layout, Relation};
use hyprdmc::monitor::{Mode, Monitor, Rotation};
use hyprdmc::notice::NoticeId;

fn fixed(v: f64) -> Fixed {
    Fixed::from_nanos((v * 1e9).round() as i64)
}

fn monitor(name: &str, make: &str, model: &str, serial: &str) -> Monitor {
    Monitor {
        id: 0,
        name: name.into(),
        description: format!("{make} {model}").trim().into(),
        make: make.into(),
        model: model.into(),
        serial: serial.into(),
        width: 1920,
        height: 1080,
        refresh_rate: fixed(60.0),
        x: 0,
        y: 0,
        scale: fixed(1.0),
        transform: 0,
        focused: false,
        disabled: false,
        mirror_of: "none".into(),
        vrr: false,
        available_modes: vec!["1920x1080@60.00Hz".into()],
    }
}

fn rule(pattern: &str) -> OutputRule {
    OutputRule {
        pattern: pattern.into(),
        enabled: true,
        mode: None,
        position: None,
        scale: fixed(1.0),
        rotation: 0,
        flipped: false,
        mirror_of: None,
        vrr: false,
    }
}

fn profile(name: &str, exact: bool, outputs: Vec<OutputRule>) -> Profile {
    Profile { name: name.into(), exact, outputs }
}

fn config(profiles: Vec<Profile>) -> Config {
    Config { settings: Settings::default(), profiles, input: InputConfig::default() }
}

fn environment() -> Environment {
    Environment {
        home: Some("/home/u".into()),
        config_home: None,
        desktop: None,
        hyprland_signature: false,
        sway_socket: false,
    }
}

fn set_args(output: &str) -> cli::SetArgs {
    cli::SetArgs {
        output: output.into(),
        mode: None,
        pos: None,
        scale: None,
        rotate: None,
        flip: false,
        no_flip: false,
        mirror: None,
        no_mirror: false,
        enable: false,
        disable: false,
        vrr: None,
        save: None,
        safety: cli::SafetyArgs { force: false, no_confirm: false },
    }
}

#[test]
fn glob_matching_handles_anchors_and_wildcards() {
    assert!(glob_match("DP-1", "DP-1"));
    assert!(glob_match("dp-1", "DP-1"));
    assert!(!glob_match("DP-1", "DP-11"));
    assert!(glob_match("Dell*", "Dell Inc. U2723QE ABC"));
    assert!(!glob_match("Dell*", "Acer Dell"));
    assert!(glob_match("*U2723QE*", "Dell Inc. U2723QE ABC"));
    assert!(glob_match("*ABC", "Dell Inc. U2723QE ABC"));
    assert!(!glob_match("*ABC", "Dell Inc. U2723QE ABCD"));
    assert!(glob_match("*", "n'importe quoi"));
}

#[test]
fn rule_matches_by_connector_or_fingerprint() {
    let m = monitor("DP-1", "Dell Inc.", "U2723QE", "ABC123");
    assert!(rule("DP-1").matches(&m));
    assert!(rule("Dell Inc. U2723QE ABC123").matches(&m));
    assert!(rule("Dell*").matches(&m));
    assert!(!rule("eDP-1").matches(&m));
}

#[test]
fn profile_does_not_match_when_a_screen_is_missing() {
    let p = profile("desk", false, vec![rule("eDP-1"), rule("Dell*")]);
    let laptop_only = vec![monitor("eDP-1", "AU Optronics", "0x5799", "")];
    assert!(!p.matches(&laptop_only));

    let docked = vec![
        monitor("eDP-1", "AU Optronics", "0x5799", ""),
        monitor("DP-1", "Dell Inc.", "U2723QE", "ABC123"),
    ];
    assert!(p.matches(&docked));
}

#[test]
fn two_rules_cannot_claim_the_same_screen() {
    let p = profile("double", false, vec![rule("Dell*"), rule("Dell*")]);
    let one_dell = vec![monitor("DP-1", "Dell Inc.", "U2723QE", "ABC")];
    assert!(!p.matches(&one_dell));

    let two_dells = vec![
        monitor("DP-1", "Dell Inc.", "U2723QE", "ABC"),
        monitor("DP-2", "Dell Inc.", "U2723QE", "DEF"),
    ];
    assert!(p.matches(&two_dells));
    let pairs = p.assign(&two_dells).unwrap();
    assert_eq!(pairs[0].1.name, "DP-1");
    assert_eq!(pairs[1].1.name, "DP-2");
}

#[test]
fn exact_profile_rejects_extra_screens() {
    let p = profile("solo", true, vec![rule("eDP-1")]);
    assert!(p.matches(&[monitor("eDP-1", "AU", "X", "")]));
    assert!(!p.matches(&[
        monitor("eDP-1", "AU", "X", ""),
        monitor("DP-1", "Dell", "U", "")
    ]));
}

#[test]
fn best_match_prefers_the_most_specific_profile() {
    let cfg = config(vec![
        profile("solo", false, vec![rule("eDP-1")]),
        profile("desk", false, vec![rule("eDP-1"), rule("Dell*")]),
    ]);
    let laptop = vec![monitor("eDP-1", "AU", "X", "")];
    assert_eq!(cfg.best_match(&laptop).unwrap().name, "solo");

    let docked = vec![
        monitor("eDP-1", "AU", "X", ""),
        monitor("DP-1", "Dell Inc.", "U2723QE", "ABC"),
    ];
    assert_eq!(cfg.best_match(&docked).unwrap().name, "desk");
}

#[test]
fn best_match_returns_nothing_without_a_candidate() {
    let cfg = Config::default();
    assert!(cfg.best_match(&[monitor("eDP-1", "AU", "X", "")]).is_none());
}

#[test]
fn resolve_produces_connector_names_not_patterns() {
    let p = profile(
        "desk",
        false,
        vec![OutputRule { position: Some("0x0".into()), ..rule("Dell*") }],
    );
    let monitors = vec![monitor("DP-3", "Dell Inc.", "U2723QE", "ABC")];
    let layout = p.resolve(&monitors).unwrap();
    assert_eq!(layout.outputs[0].name, "DP-3");
    assert_eq!(layout.outputs[0].mode.unwrap().width, 1920);
}

#[test]
fn resolve_adopts_uncovered_screens_instead_of_dropping_them() {
    let p = profile(
        "desk",
        false,
        vec![OutputRule { position: Some("0x0".into()), ..rule("eDP-1") }],
    );
    let monitors = vec![
        monitor("eDP-1", "AU", "X", ""),
        monitor("DP-1", "Dell Inc.", "U2723QE", "ABC"),
    ];
    let layout = p.resolve(&monitors).unwrap();
    assert_eq!(layout.outputs.len(), 2);
    let extra = layout.get("DP-1").unwrap();
    assert!(extra.enabled);
    assert_eq!(extra.x, 1920);
    assert!(!layout.has_errors());
}

#[test]
fn resolve_places_auto_positioned_rules_side_by_side() {
    let p = profile("desk", false, vec![rule("eDP-1"), rule("Dell*")]);
    let monitors = vec![
        monitor("eDP-1", "AU", "X", ""),
        monitor("DP-1", "Dell Inc.", "U2723QE", "ABC"),
    ];
    let layout = p.resolve(&monitors).unwrap();
    assert!(!layout.has_errors());
    assert_eq!(layout.get("eDP-1").unwrap().x, 0);
    assert_eq!(layout.get("DP-1").unwrap().x, 1920);
}

#[test]
fn disabled_rule_survives_resolution() {
    let p = profile(
        "closed",
        false,
        vec![
            OutputRule { enabled: false, ..rule("eDP-1") },
            OutputRule { position: Some("0x0".into()), ..rule("Dell*") },
        ],
    );
    let monitors = vec![
        monitor("eDP-1", "AU", "X", ""),
        monitor("DP-1", "Dell Inc.", "U2723QE", "ABC"),
    ];
    let layout = p.resolve(&monitors).unwrap();
    assert!(!layout.get("eDP-1").unwrap().enabled);
    assert!(!layout.has_errors());
}

#[test]
fn rotation_and_flip_survive_resolution() {
    let p = profile(
        "portrait",
        false,
        vec![OutputRule {
            rotation: 270,
            flipped: true,
            position: Some("0x0".into()),
            ..rule("DP-1")
        }],
    );
    let layout = p.resolve(&[monitor("DP-1", "Dell", "U", "")]).unwrap();
    let t = layout.outputs[0].transform;
    assert_eq!(t.rotation, Rotation::R270);
    assert!(t.flipped);
    assert_eq!(t.to_u8(), 7);
}

#[test]
fn invalid_rotation_in_config_is_reported() {
    let p = profile("x", false, vec![OutputRule { rotation: 45, ..rule("DP-1") }]);
    let err = p.resolve(&[monitor("DP-1", "Dell", "U", "")]).unwrap_err();
    assert!(err.text(Locale::Fr).contains("rotation invalide"));
}

#[test]
fn position_parsing() {
    assert_eq!(parse_position("1920x0").unwrap(), (1920, 0));
    assert_eq!(parse_position("-1920,-100").unwrap(), (-1920, -100));
    assert!(parse_position("1920").is_err());
}

#[test]
fn upsert_replaces_and_remove_reports_unknown() {
    let mut cfg = Config::default();
    cfg.upsert(profile("a", false, vec![rule("X")]));
    cfg.upsert(profile("a", true, vec![rule("Y")]));
    assert_eq!(cfg.profiles.len(), 1);
    assert!(cfg.profiles[0].exact);
    assert!(cfg.remove("inconnu").is_err());
    assert!(cfg.remove("a").is_ok());
}

#[test]
fn missing_config_file_yields_defaults() {
    let cfg = Config::default();
    assert!(cfg.profiles.is_empty());
    assert_eq!(cfg.settings.web_port, 8787);
}

#[test]
fn a_wildcard_stands_for_anything_at_all() {
    assert!(glob_match("*ABC", "ABCABC"));
    assert!(glob_match("a*b*c", "a-bb-b-c"));
    assert!(!glob_match("a*b*c", "a-c-b"));
    assert!(glob_match("**", ""));
    assert!(!glob_match("", "x"));
    assert!(glob_match("  dell  ", "DELL"));
    // Folding goes beyond ASCII; the folded form does no folding.
    assert!(glob_match("écran*", "ÉCRAN 27"));
    assert!(!glob_match_folded("dp-1", "DP-1"));
    assert!(glob_match_folded("dp-*", "dp-1"));
}

#[test]
fn each_part_of_a_position_has_its_own_error() {
    let id = |s: &str| parse_position(s).unwrap_err().id;
    assert_eq!(id("1920"), NoticeId::InvalidPosition);
    assert_eq!(id("ax0"), NoticeId::InvalidAbscissa);
    assert_eq!(id("0xb"), NoticeId::InvalidOrdinate);
    assert_eq!(id("0x99999999999"), NoticeId::InvalidOrdinate);
    assert_eq!(parse_position(" 5 X +7 ").unwrap(), (5, 7));
}

#[test]
fn equals_go_to_the_exact_profile_then_to_the_first() {
    let laptop = vec![monitor("eDP-1", "AU", "X", "")];
    let cfg = config(vec![
        profile("first", false, vec![rule("eDP-1")]),
        profile("second", false, vec![rule("eDP-1")]),
        profile("exact", true, vec![rule("eDP-1")]),
    ]);
    assert_eq!(cfg.best_match(&laptop).unwrap().name, "exact");
    let cfg = config(vec![
        profile("first", false, vec![rule("eDP-1")]),
        profile("second", false, vec![rule("eDP-1")]),
    ]);
    assert_eq!(cfg.best_match(&laptop).unwrap().name, "first");
    // A profile without rules matches nothing.
    let cfg = config(vec![profile("empty", false, Vec::new())]);
    assert!(cfg.best_match(&laptop).is_none());
}

#[test]
fn a_profile_that_does_not_match_is_refused() {
    let p = profile("desk", false, vec![rule("Dell*")]);
    let err = p.resolve(&[monitor("eDP-1", "AU", "X", "")]).unwrap_err();
    assert_eq!(err.id, NoticeId::ProfileMismatch);
    assert_eq!(
        err.text(Locale::En),
        "profile \"desk\" does not match the connected displays"
    );
}

#[test]
fn coordinates_out_of_range_are_foreseen_in_a_profile() {
    let p = profile(
        "far",
        false,
        vec![
            OutputRule { position: Some("2147483647x0".into()), ..rule("eDP-1") },
            rule("Dell*"),
        ],
    );
    let monitors = vec![
        monitor("eDP-1", "AU", "X", ""),
        monitor("DP-1", "Dell Inc.", "U2723QE", "ABC"),
    ];
    assert!(!p.can_resolve(&monitors));
    let cfg = config(vec![p]);
    assert_eq!(
        cli::apply_profile(&cfg, "far", &monitors).unwrap_err().id,
        NoticeId::OutOfRange
    );
}

#[test]
fn the_main_screen_is_found_by_its_fingerprint() {
    let mut cfg = Config::default();
    let monitors = vec![
        monitor("eDP-1", "AU", "X", ""),
        monitor("DP-1", "Dell Inc.", "U2723QE", "ABC"),
    ];
    assert_eq!(cfg.primary_output(&monitors), None);
    assert_eq!(cli::primary_status(&cfg, &monitors), cli::PrimaryStatus::Unset);
    assert_eq!(cli::designate_primary(&mut cfg, "dell*", &monitors), Ok(1));
    assert_eq!(cfg.settings.primary.as_deref(), Some("Dell Inc. U2723QE ABC"));
    assert_eq!(cfg.primary_output(&monitors), Some("DP-1".into()));
    assert_eq!(
        cli::primary_status(&cfg, &monitors),
        cli::PrimaryStatus::Current("DP-1".into(), "Dell Inc. U2723QE ABC".into())
    );
    assert_eq!(
        cli::primary_status(&cfg, &monitors[..1]),
        cli::PrimaryStatus::Absent("Dell Inc. U2723QE ABC".into())
    );
    let err = cli::designate_primary(&mut cfg, "HDMI-1", &monitors).unwrap_err();
    assert!(err.text(Locale::En).contains("eDP-1, DP-1"));
    cli::clear_primary(&mut cfg);
    assert_eq!(cfg.settings.primary, None);
    assert!(matches_pattern("desc:AU X", &monitors[0]));
}

#[test]
fn a_saved_layout_resolves_to_itself() {
    let mut monitors = vec![
        monitor("eDP-1", "AU", "X", ""),
        monitor("DP-1", "Dell Inc.", "U2723QE", "ABC"),
    ];
    monitors[1].x = 1920;
    monitors[1].y = 0;
    monitors[1].transform = 1;
    monitors[1].refresh_rate = fixed(59.95);
    let layout = Layout::from_monitors(&monitors);
    let mut cfg = Config::default();
    cli::save_profile(&mut cfg, "desk", true, &layout.outputs, &monitors);
    assert_eq!(cfg.profile("desk").unwrap().outputs[1].pattern, "Dell Inc. U2723QE ABC");
    // Plugged in the other way round, they are still recognised.
    monitors[0].name = "DP-7".into();
    let back = cfg.profile("desk").unwrap().resolve(&monitors).unwrap();
    assert_eq!(back.outputs[0].name, "DP-7");
    assert_eq!(back.outputs[1], layout.outputs[1]);
}

#[test]
fn profiles_are_renamed_in_place_of_their_old_name() {
    let mut cfg = config(vec![
        profile("a", false, vec![rule("X")]),
        profile("b", true, vec![rule("Y")]),
    ]);
    cli::rename_profile(&mut cfg, "a", "c").unwrap();
    let names: Vec<&str> = cfg.profiles.iter().map(|p| p.name.as_str()).collect();
    assert_eq!(names, vec!["b", "c"]);
    assert_eq!(cfg.profile("c").unwrap().outputs[0].pattern, "X");
    assert_eq!(
        cli::rename_profile(&mut cfg, "a", "d").unwrap_err().id,
        NoticeId::UnknownProfile
    );
}

#[test]
fn setting_changes_what_was_asked_and_nothing_else() {
    let monitors = vec![
        monitor("eDP-1", "AU", "X", ""),
        monitor("DP-1", "Dell Inc.", "U2723QE", "ABC"),
    ];
    let mut args = set_args("DP-1");
    args.pos = Some("1920x0".into());
    args.rotate = Some("90".into());
    args.flip = true;
    args.scale = Some(fixed(2.0));
    args.vrr = Some(true);
    args.mode = Some("preferred".into());
    let layout = cli::set(&monitors, Some("eDP-1".into()), &args).unwrap();
    let before = Layout::from_monitors(&monitors);
    assert_eq!(layout.outputs[0], before.outputs[0]);
    let o = &layout.outputs[1];
    assert_eq!((o.x, o.y), (1920, 0));
    assert_eq!(o.transform.to_u8(), 5);
    assert_eq!(o.scale, fixed(2.0));
    assert!(o.vrr);
    assert_eq!(o.mode, Some(Mode::new(1920, 1080, fixed(60.0))));
    assert_eq!(layout.primary.as_deref(), Some("eDP-1"));

    let id = |args: &cli::SetArgs| cli::set(&monitors, None, args).unwrap_err().id;
    assert_eq!(id(&set_args("HDMI-1")), NoticeId::UnknownConnector);
    args.rotate = Some("45".into());
    assert_eq!(id(&args), NoticeId::InvalidRotation);
    args.pos = Some("nowhere".into());
    assert_eq!(id(&args), NoticeId::InvalidPosition);
    args.mode = Some("huge".into());
    assert_eq!(id(&args), NoticeId::InvalidMode);

    let mut off = set_args("DP-1");
    off.disable = true;
    off.mirror = Some("eDP-1".into());
    let layout = cli::set(&monitors, None, &off).unwrap();
    assert!(!layout.outputs[1].enabled);
    assert_eq!(layout.outputs[1].mirror_of.as_deref(), Some("eDP-1"));
}

#[test]
fn triples_place_the_outputs_one_after_the_other() {
    let monitors = vec![
        monitor("eDP-1", "AU", "X", ""),
        monitor("DP-1", "Dell Inc.", "U2723QE", "ABC"),
        monitor("DP-2", "Dell Inc.", "U2723QE", "DEF"),
    ];
    let words: Vec<String> = ["DP-1", "left-of", "eDP-1", "DP-2", "below", "DP-1"]
        .iter()
        .map(|s| s.to_string())
        .collect();
    let layout = cli::arrange(Layout::from_monitors(&monitors), &words).unwrap();
    let at: Vec<(i32, i32)> = layout.outputs.iter().map(|o| (o.x, o.y)).collect();
    assert_eq!(at, vec![(1920, 0), (0, 0), (0, 1080)]);

    let id = |words: &[&str]| {
        let words: Vec<String> = words.iter().map(|s| s.to_string()).collect();
        cli::arrange(Layout::from_monitors(&monitors), &words)
            .unwrap_err()
            .id
    };
    assert_eq!(id(&["DP-1", "left-of"]), NoticeId::TriplesExpected);
    assert_eq!(id(&["DP-1", "near", "eDP-1"]), NoticeId::UnknownRelation);
    assert_eq!(id(&["DP-9", "above", "eDP-1"]), NoticeId::UnknownOutput);
    let mut far = Layout::from_monitors(&monitors);
    far.outputs[0].x = i32::MAX;
    assert!(!far.can_place("DP-1", Relation::RightOf, "eDP-1"));
    let words: Vec<String> = ["DP-1", "right-of", "eDP-1"]
        .iter()
        .map(|s| s.to_string())
        .collect();
    assert_eq!(
        cli::arrange(far, &words).unwrap_err().id,
        NoticeId::OutOfRange
    );
}

#[test]
fn hardware_without_a_profile_is_put_in_a_row() {
    let monitors = vec![
        monitor("eDP-1", "AU", "X", ""),
        monitor("DP-1", "Dell Inc.", "U2723QE", "ABC"),
    ];
    let mut cfg = Config::default();
    cfg.settings.primary = Some("Dell*".into());
    let (layout, chosen) = cli::apply_for_hardware(&cfg, &monitors).unwrap();
    assert_eq!(chosen, None);
    assert_eq!((layout.outputs[0].x, layout.outputs[1].x), (1920, 0));
    cfg.upsert(profile("desk", false, vec![rule("eDP-1"), rule("Dell*")]));
    let (layout, chosen) = cli::apply_for_hardware(&cfg, &monitors).unwrap();
    assert_eq!(chosen.as_deref(), Some("desk"));
    // Anchored on the main screen.
    assert_eq!((layout.outputs[0].x, layout.outputs[1].x), (-1920, 0));
    assert_eq!(
        cli::apply_profile(&cfg, "nope", &monitors).unwrap_err().id,
        NoticeId::UnknownProfile
    );
    assert_eq!(
        cli::layout_around(&monitors, None).unwrap().outputs[1].x,
        0
    );
    assert_eq!(
        cli::auto(Layout::from_monitors(&monitors)).unwrap().outputs[1].x,
        1920
    );
}

#[test]
fn listings_show_what_is_there() {
    let mut monitors = vec![
        monitor("eDP-1", "AU", "X", ""),
        monitor("DP-1", "Dell Inc.", "U2723QE", "ABC"),
        monitor("DP-2", "Dell Inc.", "U2723QE", "DEF"),
    ];
    monitors[0].focused = true;
    monitors[1].disabled = true;
    monitors[2].mirror_of = "eDP-1".into();
    let rows = cli::list_rows(&monitors, &Some("DP-2".into()), Locale::En);
    assert_eq!(rows[0].status, cli::OutputStatus::Focused);
    assert_eq!(rows[0].mode.as_deref(), Some("1920x1080@60.00"));
    assert_eq!(rows[0].orientation, "0°");
    assert_eq!(rows[1].status, cli::OutputStatus::Disabled);
    assert_eq!(rows[1].mode, None);
    assert_eq!(rows[1].position, None);
    assert_eq!(rows[2].status, cli::OutputStatus::Mirror("eDP-1".into()));
    assert!(rows[2].primary && !rows[0].primary);
    assert_eq!(rows[2].identifier, "Dell Inc. U2723QE DEF");

    monitors[0].available_modes = vec!["1920x1080@60.06Hz".into(), "1920x1080@50".into()];
    let modes = cli::mode_rows(&monitors[0]);
    assert_eq!(modes.len(), 2);
    assert!(modes[0].current && !modes[1].current);

    let cfg = config(vec![
        profile("desk", true, vec![rule("eDP-1"), rule("Dell*")]),
        profile("any", false, vec![rule("eDP-1")]),
        profile("gone", false, vec![rule("Acer*")]),
    ]);
    let rows = cli::profile_rows(&cfg, &monitors);
    assert_eq!(rows[0].outputs, "eDP-1, Dell*");
    assert_eq!(rows[0].standing, cli::Standing::DoesNotMatch);
    assert_eq!(rows[1].standing, cli::Standing::Active);
    assert_eq!(rows[2].standing, cli::Standing::DoesNotMatch);
}

#[test]
fn files_lie_under_the_configuration_directory() {
    let mut env = environment();
    assert_eq!(config_path(&env), "/home/u/.config/hyprdmc/config.toml");
    assert_eq!(hyprland_conf(&env), "/home/u/.config/hypr/hyprland.conf");
    env.config_home = Some("/etc/xdg/".into());
    assert_eq!(config_path(&env), "/etc/xdg/hyprdmc/config.toml");
    env.config_home = None;
    env.home = None;
    assert_eq!(config_path(&env), "/.config/hyprdmc/config.toml");
}

#[test]
fn switches_are_read_in_both_languages() {
    assert_eq!(cli::parse_onoff("ON"), Ok(true));
    assert_eq!(cli::parse_onoff("non"), Ok(false));
    assert_eq!(cli::parse_onoff("maybe").unwrap_err().id, NoticeId::InvalidOnOff);
}

#[test]
fn what_a_rule_writes_reads_back() {
    assert_eq!(parse_position("-1920x0").unwrap(), (-1920, 0));
    let mode = Mode::new(2560, 1440, fixed(143.97));
    assert_eq!(mode.text().parse::<Mode>().unwrap(), mode);
    let finer = Mode::new(2560, 1440, fixed(143.974));
    assert_eq!(finer.text().parse::<Mode>().unwrap(), mode);
}

#[test]
fn a_monitor_without_a_rule_gets_its_preferred_mode() {
    let mut other = monitor("DP-1", "Dell", "U", "D1");
    other.width = 1280;
    other.height = 720;
    other.available_modes = vec!["1920x1080@60.00Hz".into(), "1280x720@60.00Hz".into()];
    let mut panel = OutputRule::from_state(
        &Layout::from_monitors(&[monitor("eDP-1", "AU", "X", "L1")]).outputs[0],
        None,
    );
    panel.pattern = "eDP-1".into();
    panel.position = Some("0x0".into());
    let profile = Profile { name: "desk".into(), exact: false, outputs: vec![panel] };
    let monitors = [monitor("eDP-1", "AU", "X", "L1"), other];
    let layout = profile.resolve(&monitors).unwrap();
    let added = layout.get("DP-1").unwrap();
    assert!(added.enabled);
    assert_eq!(added.mode, Some(Mode::new(1920, 1080, fixed(60.0))));
    assert_eq!(added.x, 1920);

    // Without a list the current mode stays.
    let mut unlisted = monitors[1].clone();
    unlisted.available_modes.clear();
    let layout = profile.resolve(&[monitors[0].clone(), unlisted]).unwrap();
    assert_eq!(layout.get("DP-1").unwrap().mode, Some(Mode::new(1280, 720, fixed(60.0))));
}

#[test]
fn positions_read_back_with_every_separator() {
    for text in ["1920x-10", " 1920 X -10 ", "1920,-10", "1920 ,\t-10"] {
        assert_eq!(parse_position(text).unwrap(), (1920, -10));
    }
    let mode = Mode::new(1920, 1080, fixed(60.06));
    assert_eq!((mode.text() + "Hz").parse::<Mode>().unwrap(), mode);
    assert!(glob_match("*u27*", "Dell U2723QE"));
    assert!(!glob_match("*u28*", "Dell U2723QE"));
}

#[test]
fn outputs_with_an_open_position_overlap_nothing() {
    let mut monitors = vec![
        monitor("eDP-1", "AU", "X", "L1"),
        monitor("DP-1", "Dell", "U", "D1"),
        monitor("DP-2", "Dell", "U", "D2"),
    ];
    monitors[2].transform = 1;
    let mut rules: Vec<OutputRule> = Layout::from_monitors(&monitors[..2])
        .outputs
        .iter()
        .map(|o| OutputRule::from_state(o, None))
        .collect();
    rules[0].position = Some("-300x40".into());
    rules[1].position = Some("auto".into());
    let profile = Profile { name: "desk".into(), exact: false, outputs: rules };
    let layout = profile.resolve(&monitors).unwrap();
    let right_of = |name: &str| layout.get(name).unwrap().rect().2;
    assert_eq!(layout.get("DP-1").unwrap().x, right_of("eDP-1"));
    assert_eq!(layout.get("DP-2").unwrap().x, right_of("DP-1"));
    assert!(!layout.has_errors());
}
