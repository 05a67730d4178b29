use hyprdmc::compositor::hyprland::ipc::{
    get_bool, get_string, getoption, input_options, instance_base, instance_dir, is_request,
    parse_event, read_input, HyprSocket, Instances,
};
use hyprdmc::compositor::hyprland::{lua_string, HyprSession, Hyprland};
use hyprdmc::compositor::Compositor;
use hyprdmc::fixed::Fixed;
use hyprdmc::i18n::Locale;
use hyprdmc::input::InputConfig;
use hyprdmc::ipc::{batch, check_ok, eval, truncate, HyprEvent};
use hyprdmc::layout::OutputState;
use hyprdmc::monitor::{Mode, Rotation, Transform};
use hyprdmc::notice::NoticeId;
use hyprdmc::session::CompositorEvent;

fn fixed(v: f64) -> Fixed {
    Fixed::from_nanos((v * 1e9).round() as i64)
}

fn out(name: &str, x: i32, y: i32) -> OutputState {
    OutputState {
        name: name.into(),
        enabled: true,
        mode: Some(Mode::new(1920, 1080, fixed(60.0))),
        x,
        y,
        scale: fixed(1.0),
        transform: Transform::default(),
        mirror_of: None,
        vrr: false,
    }
}

fn session() -> HyprSession {
    HyprSession::new(HyprSocket::at("/run/user/1000/hypr/sig".to_string()))
}

/// A wire that records what goes down it.
struct Wire {
    sent: Vec<String>,
}

impl Wire {
    fn new() -> Self {
        Wire { sent: Vec::new() }
    }

    fn send(&mut self, request: &str) {
        if is_request(request) {
            self.sent.push(request.to_string());
        }
    }
}

#[test]
fn ipc_parses_monitor_added_v2() {
    assert_eq!(
        parse_event("monitoraddedv2>>1,DP-1,Dell Inc. U2723QE ABC"),
        Some(CompositorEvent::OutputAdded("DP-1".into()))
    );
}

#[test]
fn ipc_parses_monitor_added_v1() {
    assert_eq!(
        parse_event("monitoradded>>DP-1"),
        Some(CompositorEvent::OutputAdded("DP-1".into()))
    );
}

#[test]
fn ipc_parses_monitor_removed_both_variants() {
    assert_eq!(
        parse_event("monitorremoved>>DP-1"),
        Some(CompositorEvent::OutputRemoved("DP-1".into()))
    );
    assert_eq!(
        parse_event("monitorremovedv2>>1,DP-1,Dell"),
        Some(CompositorEvent::OutputRemoved("DP-1".into()))
    );
}

#[test]
fn ipc_unrelated_events_are_ignored_by_the_daemon() {
    assert!(!parse_event("workspace>>2").unwrap().affects_outputs());
    assert!(parse_event("monitoradded>>DP-1").unwrap().affects_outputs());
}

#[test]
fn ipc_malformed_lines_yield_nothing() {
    assert_eq!(parse_event("no separator"), None);
}

#[test]
fn a_request_is_sent_verbatim() {
    let mut wire = Wire::new();
    let request = "/eval hl.monitor({ output = \"A\" }) hl.monitor({ output = \"B\" })";
    wire.send(request);
    assert_eq!(wire.sent, vec![request]);
}

#[test]
fn an_empty_request_touches_no_socket() {
    let mut wire = Wire::new();
    wire.send("");
    wire.send("   ");
    assert!(wire.sent.is_empty());
}

#[test]
fn ipc_rejected_configuration_surfaces_hyprland_message() {
    let cmds = vec!["hl.monitor({ output = \"DP-1\", mode = \"bogus\" })".to_string()];
    let err = check_ok("error: hl.monitor: error applying field 'mode'", &cmds).unwrap_err();
    assert!(err.text(Locale::En).contains("error applying field"));
    assert!(check_ok("ok", &cmds).is_ok());
    assert!(check_ok("ok\n\n\nok", &cmds).is_ok());
}

#[test]
fn rejected_configuration_surfaces_hyprland_message() {
    let cmds = vec!["hl.monitor({ output = \"DP-1\", mode = \"bogus\" })".to_string()];
    let err = check_ok("error: hl.monitor: error applying field 'mode'", &cmds).unwrap_err();
    assert!(err.text(Locale::Fr).contains("error applying field"));
    assert!(check_ok("ok", &cmds).is_ok());
    assert!(check_ok("ok\n\n\nok", &cmds).is_ok());
}

#[test]
fn a_call_always_states_every_field_it_owns() {
    // Cumulative rules: omitting a field would let the previous value
    // survive, so defaults are spelled out too.
    assert_eq!(
        Hyprland.output_directive(&out("eDP-1", 0, 0)),
        "hl.monitor({ output = \"eDP-1\", mode = \"1920x1080@60.00\", position = \"0x0\", \
         scale = 1, transform = 0, mirror = \"\", vrr = 0, disabled = false })"
    );
}

#[test]
fn a_call_carries_transform_mirror_and_vrr() {
    let mut o = out("DP-1", 1920, 0);
    o.transform = Transform::new(Rotation::R90, true);
    o.mirror_of = Some("eDP-1".into());
    o.vrr = true;
    o.scale = fixed(1.25);
    assert_eq!(
        Hyprland.output_directive(&o),
        "hl.monitor({ output = \"DP-1\", mode = \"1920x1080@60.00\", position = \"1920x0\", \
         scale = 1.25, transform = 5, mirror = \"eDP-1\", vrr = 1, disabled = false })"
    );
}

#[test]
fn a_disabled_output_only_states_that_it_is_off() {
    let mut o = out("eDP-1", 0, 0);
    o.enabled = false;
    assert_eq!(
        Hyprland.output_directive(&o),
        "hl.monitor({ output = \"eDP-1\", disabled = true })"
    );
}

#[test]
fn an_output_without_a_mode_falls_back_to_preferred() {
    let mut o = out("eDP-1", 0, 0);
    o.mode = None;
    assert!(Hyprland
        .output_directive(&o)
        .contains("mode = \"preferred\""));
}

#[test]
fn lua_strings_escape_quotes_and_backslashes() {
    assert_eq!(
        lua_string(r#"desc:Acme "X" \ 1"#),
        r#""desc:Acme \"X\" \\ 1""#
    );
}

#[test]
fn input_settings_travel_as_a_single_nested_config_call() {
    let directives = Hyprland.input_directives(&InputConfig {
        kb_layout: "fr".into(),
        kb_variant: "oss".into(),
        kb_options: "compose:ralt".into(),
        natural_scroll: false,
        touchpad_natural_scroll: true,
    });
    assert_eq!(directives.len(), 1);
    let lua = &directives[0];
    assert!(lua.starts_with("hl.config({ input = {"));
    assert!(lua.contains(r#"kb_layout = "fr""#));
    assert!(lua.contains("natural_scroll = false"));
    assert!(lua.contains("touchpad = { natural_scroll = true }"));
}

#[test]
fn a_neighbour_is_required_and_anything_else_is_loaded_by_path() {
    let main = "/home/u/.config/hypr/hyprland.lua";
    assert_eq!(
        Hyprland.include_statement(main, "/home/u/.config/hypr/monitors.lua", "/home/u"),
        r#"require("monitors")"#
    );
    assert_eq!(
        Hyprland.include_statement(main, "/srv/shared/screens.lua", "/home/u"),
        r#"dofile("/srv/shared/screens.lua")"#
    );
}

#[test]
fn an_include_is_recognised_by_module_or_by_file_name() {
    let generated = "/home/u/.config/hypr/monitors.lua";
    assert!(Hyprland.includes(r#"require("monitors")"#, generated));
    assert!(Hyprland.includes(r#"dofile("/x/monitors.lua")"#, generated));
    assert!(!Hyprland.includes(r#"require("binds")"#, generated));
    assert!(!Hyprland.includes("hl.config({})", generated));
}

#[test]
fn hyprland_drives_live_sessions() {
    assert!(Hyprland.drives_sessions());
}

#[test]
fn a_session_sends_every_call_in_one_eval() {
    // `[[BATCH]]` would cut the Lua in half at the first `;`.
    let mut wire = Wire::new();
    let request = session().apply(&vec!["hl.monitor({ a })".into(), "hl.monitor({ b })".into()]);
    wire.send(&request.unwrap());
    assert_eq!(
        wire.sent,
        vec!["/eval hl.monitor({ a }) hl.monitor({ b })"]
    );
}

#[test]
fn mod_applying_nothing_touches_no_socket() {
    assert_eq!(session().apply(&Vec::new()), None);
}

#[test]
fn focus_is_a_dispatcher() {
    let mut wire = Wire::new();
    wire.send(&session().focus("DP-1"));
    assert_eq!(wire.sent, vec!["dispatch focusmonitor DP-1"]);
}

#[test]
fn the_session_and_the_renderer_agree_on_the_input_call() {
    let mut wire = Wire::new();
    let input = InputConfig::default();
    wire.send(&session().apply_input(&input));
    assert_eq!(
        wire.sent[0],
        format!("/eval {}", Hyprland.input_directives(&input).join(" "))
    );
}

#[test]
fn live_input_values_are_read_from_the_compositor() {
    let options = [
        (
            "input:kb_layout",
            r#"{"option":"input:kb_layout","str":"fr","set":true}"#,
        ),
        (
            "input:kb_variant",
            r#"{"option":"input:kb_variant","str":"[[EMPTY]]","set":false}"#,
        ),
        (
            "input:touchpad:natural_scroll",
            r#"{"option":"input:touchpad:natural_scroll","bool":true,"set":true}"#,
        ),
    ];
    // An option nobody stubbed answers like Hyprland does for one that was
    // never set.
    let replies: Vec<String> = input_options()
        .iter()
        .map(|name| {
            options.iter().find(|(k, _)| k == name).map_or_else(
                || format!(r#"{{"option":"{name}","str":"[[EMPTY]]","set":false}}"#),
                |(_, reply)| reply.to_string(),
            )
        })
        .collect();
    let cfg = read_input(&replies).unwrap();
    assert_eq!(cfg.kb_layout, "fr");
    assert_eq!(cfg.kb_variant, "", "[[EMPTY]] is not a variant name");
    assert!(cfg.touchpad_natural_scroll);
}

#[test]
fn parses_monitor_added_v2() {
    assert_eq!(
        HyprEvent::parse("monitoraddedv2>>1,DP-1,Dell Inc. U2723QE ABC"),
        Some(HyprEvent::MonitorAdded("DP-1".into()))
    );
}

#[test]
fn parses_monitor_added_v1() {
    assert_eq!(
        HyprEvent::parse("monitoradded>>DP-1"),
        Some(HyprEvent::MonitorAdded("DP-1".into()))
    );
}

#[test]
fn parses_monitor_removed_both_variants() {
    assert_eq!(
        HyprEvent::parse("monitorremoved>>DP-1"),
        Some(HyprEvent::MonitorRemoved("DP-1".into()))
    );
    assert_eq!(
        HyprEvent::parse("monitorremovedv2>>1,DP-1,Dell"),
        Some(HyprEvent::MonitorRemoved("DP-1".into()))
    );
}

#[test]
fn unrelated_events_are_ignored_by_the_daemon() {
    let ev = HyprEvent::parse("workspace>>2").unwrap();
    assert!(!ev.affects_monitors());
    assert!(HyprEvent::parse("monitoradded>>DP-1")
        .unwrap()
        .affects_monitors());
}

#[test]
fn malformed_lines_yield_nothing() {
    assert_eq!(HyprEvent::parse("no separator"), None);
}

#[test]
fn batch_joins_commands() {
    assert_eq!(
        batch(&vec!["dispatch A".into(), "dispatch B".into()]),
        Some("[[BATCH]]dispatch A;dispatch B".to_string())
    );
}

#[test]
fn empty_batch_is_a_no_op() {
    assert_eq!(batch(&Vec::new()), None);
}

#[test]
fn monitors_are_applied_through_a_single_eval() {
    // A batch would split the Lua on its first `;`.
    assert_eq!(
        session().apply(&vec![
            "hl.monitor({ output = \"A\" })".into(),
            "hl.monitor({ output = \"B\" })".into(),
        ]),
        Some("/eval hl.monitor({ output = \"A\" }) hl.monitor({ output = \"B\" })".to_string())
    );
    assert_eq!(eval("hl.reload()"), "/eval hl.reload()");
}

#[test]
fn ipc_applying_nothing_touches_no_socket() {
    let mut wire = Wire::new();
    if let Some(request) = session().apply(&Vec::new()) {
        wire.send(&request);
    }
    assert!(wire.sent.is_empty());
}

#[test]
fn only_appearing_and_disappearing_outputs_trigger_a_re_evaluation() {
    assert!(CompositorEvent::OutputAdded("DP-1".into()).affects_outputs());
    assert!(CompositorEvent::OutputRemoved("DP-1".into()).affects_outputs());
    assert!(!CompositorEvent::ConfigReloaded.affects_outputs());
    assert!(!CompositorEvent::Other("workspace".into()).affects_outputs());
}

#[test]
fn an_event_names_the_output_it_is_about() {
    assert_eq!(
        CompositorEvent::OutputAdded("DP-1".into()).output(),
        Some("DP-1")
    );
    assert_eq!(CompositorEvent::ConfigReloaded.output(), None);
}

#[test]
fn options_are_asked_for_and_read_by_type() {
    assert_eq!(getoption("input:kb_layout"), "j/getoption input:kb_layout");
    assert_eq!(get_string(r#"{"str":"fr,us"}"#, "x").unwrap(), "fr,us");
    assert_eq!(get_string(r#"{"int":1}"#, "x").unwrap(), "");
    assert_eq!(get_string(r#"[1,2]"#, "x").unwrap(), "");
    assert!(get_bool(r#"{"bool":true,"int":0}"#, "x").unwrap());
    // Older versions answer with a number.
    assert!(get_bool(r#"{"int":1}"#, "x").unwrap());
    assert!(!get_bool(r#"{"int":0}"#, "x").unwrap());
    assert!(!get_bool(r#"{"int":0.5}"#, "x").unwrap());
    let err = get_string("no such option", "input:kb_layout").unwrap_err();
    assert_eq!(err.id, NoticeId::UnreadableOption);
    assert!(err.text(Locale::En).contains("input:kb_layout"));
    assert!(get_bool("", "x").is_err());
}

#[test]
fn the_first_unreadable_reply_is_named() {
    let replies = vec![
        "{}".to_string(),
        "broken".to_string(),
        "{}".to_string(),
        "broken".to_string(),
        "{}".to_string(),
    ];
    let err = read_input(&replies).unwrap_err();
    assert!(err.text(Locale::En).contains("input:kb_variant"));
}

#[test]
fn the_instance_is_the_one_named_or_the_only_one() {
    let base = instance_base(Some("/run/user/7"), 7);
    assert_eq!(base, "/run/user/7/hypr");
    assert_eq!(instance_base(None, 1000), "/run/user/1000/hypr");
    assert_eq!(
        instance_dir(&base, &Instances::Signature("abc".into(), true)).unwrap(),
        "/run/user/7/hypr/abc"
    );
    let id = |found: &Instances| instance_dir(&base, found).unwrap_err().id;
    assert_eq!(
        id(&Instances::Signature("abc".into(), false)),
        NoticeId::StaleSignature
    );
    assert_eq!(id(&Instances::Unreadable), NoticeId::NotRunning);
    assert_eq!(id(&Instances::Listed(Vec::new())), NoticeId::NoInstance);
    assert_eq!(
        instance_dir(&base, &Instances::Listed(vec!["/x/only".into()])).unwrap(),
        "/x/only"
    );
    assert_eq!(
        id(&Instances::Listed(vec!["/x/a".into(), "/x/b".into()])),
        NoticeId::ManyInstances
    );
    let socket = HyprSocket::at("/x/only".to_string());
    assert_eq!(socket.request_socket(), "/x/only/.socket.sock");
    assert_eq!(socket.event_socket(), "/x/only/.socket2.sock");
}

#[test]
fn long_responses_are_cut_between_characters() {
    assert_eq!(truncate("  short \n"), "short");
    let long = "a".repeat(300);
    assert_eq!(truncate(&long), format!("{}…", "a".repeat(200)));
    // Two bytes each, and an odd start: the hundredth one does not fit.
    let accents = format!("x{}", "é".repeat(150));
    assert_eq!(truncate(&accents), format!("x{}…", "é".repeat(99)));
}

#[test]
fn a_call_is_known_by_its_argument() {
    let generated = "/home/u/.config/hypr/monitors.lua";
    assert!(!Hyprland.includes(r#"require("monitors_old")"#, generated));
    assert!(!Hyprland.includes(r#"dofile("/x/old_monitors.lua")"#, generated));
    assert!(!Hyprland.includes(r#"dofile("/x/monitors.lua/other")"#, generated));
    assert!(!Hyprland.includes(r#"require("binds") -- require("monitors")"#, generated));
    assert!(!Hyprland.includes(r#"require("monitors"#, generated));
    assert!(!Hyprland.includes("require(monitors)", generated));
    assert!(Hyprland.includes(r#"local m = require( "monitors" )"#, generated));
    assert!(Hyprland.includes("require('monitors')", generated));
    assert!(Hyprland.includes(r#"require("binds") require("monitors")"#, generated));
    // What has to be escaped is read back.
    let odd = "/home/u/a \"b\"/c\\d\n.lua";
    let line = Hyprland.include_statement("/home/u/.config/hypr/hyprland.lua", odd, "/home/u");
    assert!(!line.contains('\n'));
    assert!(Hyprland.includes(&line, odd));
}
