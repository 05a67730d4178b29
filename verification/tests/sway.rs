use hyprdmc::compositor::sway::ipc::{
    check_outcomes, frame, is_event, is_layout_code, magic_bytes, parse_event, parse_header,
    parse_transform, read_input, socket_path, subscription, to_monitors, unexpected, ByteOrder,
    Message, Outcome, SwayInput, SwayMode, SwayOutput, EVENT_BIT, HEADER_LEN,
};
use hyprdmc::compositor::sway::{flatten, quote, Sway, SwaySession};
use hyprdmc::compositor::Compositor;
use hyprdmc::fixed::Fixed;
use hyprdmc::i18n::Locale;
use hyprdmc::input::InputConfig;
use hyprdmc::layout::OutputState;
use hyprdmc::monitor::{Mode, Rotation, Transform};
use hyprdmc::notice::NoticeId;
use hyprdmc::session::CompositorEvent;

fn fixed(v: f64) -> Fixed {
    Fixed::from_nanos((v * 1e9).round() as i64)
}

fn out(name: &str, x: i32, y: i32) -> OutputState {
    OutputState {
        name: name.into(),
        enabled: true,
        mode: Some(Mode::new(1920, 1080, fixed(60.0))),
        x,
        y,
        scale: fixed(1.0),
        transform: Transform::default(),
        mirror_of: None,
        vrr: false,
    }
}

fn native() -> ByteOrder {
    if 1u32.to_ne_bytes()[0] == 1 {
        ByteOrder::Little
    } else {
        ByteOrder::Big
    }
}

fn device(kind: &str, layout: Option<&str>, scroll: Option<&str>) -> SwayInput {
    SwayInput {
        kind: kind.into(),
        xkb_active_layout_name: layout.map(str::to_string),
        natural_scroll: scroll.map(str::to_string),
    }
}

#[test]
fn a_frame_is_magic_then_two_native_endian_words() {
    // Native byte order, not network order.
    let framed = frame(Message::RunCommand, &vec![1, 2, 3], native());
    assert_eq!(&framed[..6], b"i3-ipc");
    assert_eq!(framed.len() - 3, 14);
    assert_eq!(
        u32::from_ne_bytes(framed[6..10].try_into().unwrap()),
        3,
        "the length must survive a round trip in the same order"
    );
    assert_eq!(magic_bytes(), b"i3-ipc".to_vec());
}

#[test]
fn message_codes_match_the_published_protocol() {
    // i3: RUN_COMMAND 0, SUBSCRIBE 2, GET_OUTPUTS 3. sway adds GET_INPUTS 100.
    assert_eq!(Message::RunCommand.code(), 0);
    assert_eq!(Message::Subscribe.code(), 2);
    assert_eq!(Message::GetOutputs.code(), 3);
    assert_eq!(Message::GetInputs.code(), 100);
}

#[test]
fn an_event_is_a_reply_with_the_high_bit_set() {
    assert_eq!(EVENT_BIT, 1 << 31);
    assert_ne!(EVENT_BIT & Message::GetOutputs.code(), EVENT_BIT);
    assert!(is_event(EVENT_BIT | 1));
    assert!(!is_event(Message::GetInputs.code()));
}

#[test]
fn sway_outputs_map_onto_the_shared_model() {
    let outputs = vec![
        SwayOutput {
            name: "eDP-1".into(),
            make: "AU Optronics".into(),
            model: "0x5799".into(),
            serial: "".into(),
            active: true,
            focused: true,
            scale: fixed(1.5),
            transform: Some("90".into()),
            x: 0,
            y: 0,
            modes: vec![
                SwayMode { width: 1920, height: 1080, refresh: 60056 },
                SwayMode { width: 1280, height: 720, refresh: 60000 },
            ],
            current_mode: Some(SwayMode { width: 1920, height: 1080, refresh: 60056 }),
            adaptive_sync_status: Some("enabled".into()),
        },
        SwayOutput {
            name: "DP-3".into(),
            make: "Dell".into(),
            model: "U2723QE".into(),
            serial: "ABC".into(),
            active: false,
            focused: false,
            scale: fixed(1.0),
            transform: None,
            x: 0,
            y: 0,
            modes: Vec::new(),
            current_mode: None,
            adaptive_sync_status: None,
        },
    ];
    let monitors = to_monitors(&outputs);
    assert_eq!(monitors.len(), 2);

    let laptop = &monitors[0];
    assert_eq!(laptop.name, "eDP-1");
    // The mode is physical pixels; `rect` is the logical position.
    assert_eq!((laptop.width, laptop.height), (1920, 1080));
    assert_eq!((laptop.x, laptop.y), (0, 0));
    // Millihertz on the wire, hertz in the model.
    let rate = laptop.refresh_rate.nanos as f64 / 1e9;
    assert!((rate - 60.056).abs() < 1e-6, "{rate}");
    assert_eq!(laptop.scale, fixed(1.5));
    assert_eq!(laptop.transform, 1, "\"90\" is transform 1");
    assert!(laptop.vrr, "adaptive_sync_status enabled");
    assert!(!laptop.disabled);
    assert!(laptop.focused);
    assert_eq!(laptop.fingerprint(), "AU Optronics 0x5799");
    assert_eq!(laptop.available_modes.len(), 2);
    // The formatted mode has to survive our own parser.
    assert_eq!(
        laptop.available_modes[0].parse::<Mode>().unwrap(),
        Mode::new(1920, 1080, fixed(60.056))
    );

    let off = &monitors[1];
    assert!(off.disabled, "active:false is disabled");
    assert_eq!(off.mirror_of, "none", "sway has no mirroring");
    assert_eq!((off.id, off.width), (1, 0));
    assert_eq!(off.description, "Dell U2723QE");
}

#[test]
fn every_transform_keyword_round_trips_through_the_plugin() {
    for value in 0u8..=7 {
        let transform = Transform::from_u8(value).unwrap();
        let mut state = out("DP-1", 0, 0);
        state.transform = transform;
        let directive = Sway.output_directive(&state);
        let keyword = directive
            .split("transform ")
            .nth(1)
            .and_then(|rest| rest.split_whitespace().next())
            .expect("the directive states a transform");
        assert_eq!(
            parse_transform(Some(keyword)).to_u8(),
            value,
            "transform {value} became {keyword:?} and did not come back"
        );
    }
}

#[test]
fn an_unknown_transform_keyword_is_read_as_unrotated() {
    // sway may grow one; an unfamiliar orientation is not worth a panic.
    assert_eq!(parse_transform(Some("sideways")).to_u8(), 0);
    assert_eq!(parse_transform(None).to_u8(), 0);
}

#[test]
fn a_failed_command_reports_sways_own_sentence() {
    // "Unknown output DP-9" tells the user something; "failed" does not.
    let outcomes = vec![Outcome {
        success: false,
        error: Some("Unknown output DP-9".into()),
        parse_error: None,
    }];
    let err = check_outcomes(&outcomes, "output DP-9 enable", Locale::En).unwrap_err();
    assert!(err.text(Locale::En).contains("Unknown output DP-9"));
    assert!(err.text(Locale::En).contains("output DP-9 enable"));
}

#[test]
fn scroll_direction_is_read_per_device_class() {
    let devices = vec![
        device("keyboard", Some("French (alt.)"), None),
        device("touchpad", None, Some("enabled")),
        device("pointer", None, Some("disabled")),
    ];
    let input = read_input(&devices);
    assert!(input.touchpad_natural_scroll);
    assert!(!input.natural_scroll);
}

#[test]
fn a_human_layout_name_is_not_mistaken_for_a_code() {
    // sway reports "French (alt.)", never "fr": writing that into kb_layout
    // would produce a config sway itself rejects.
    assert!(!is_layout_code("French (alt.)"));
    let input = read_input(&vec![device("keyboard", Some("French (alt.)"), None)]);
    assert_eq!(input.kb_layout, "us");
    let input = read_input(&vec![device("keyboard", Some("fr"), None)]);
    assert_eq!(input.kb_layout, "fr");
}

#[test]
fn the_socket_comes_from_the_environment_or_not_at_all() {
    let err = socket_path(None, None).unwrap_err();
    assert!(err.text(Locale::En).to_lowercase().contains("sway"));
    assert_eq!(socket_path(Some("/a"), Some("/b")).unwrap(), "/a");
    assert_eq!(socket_path(None, Some("/b")).unwrap(), "/b");
}

#[test]
fn an_output_line_states_every_field_we_own() {
    assert_eq!(
        Sway.output_directive(&out("DP-1", 1920, 0)),
        "output \"DP-1\" enable mode 1920x1080@60.000Hz position 1920 0 \
         scale 1 transform normal adaptive_sync off"
    );
}

#[test]
fn a_disabled_output_is_one_word() {
    let mut o = out("eDP-1", 0, 0);
    o.enabled = false;
    assert_eq!(Sway.output_directive(&o), "output \"eDP-1\" disable");
}

#[test]
fn rotation_and_flipping_become_sways_single_keyword() {
    let cases = [
        (Rotation::R0, false, "normal"),
        (Rotation::R90, false, "90"),
        (Rotation::R270, false, "270"),
        (Rotation::R0, true, "flipped"),
        (Rotation::R90, true, "flipped-90"),
        (Rotation::R270, true, "flipped-270"),
    ];
    for (rotation, flipped, expected) in cases {
        let mut o = out("DP-1", 0, 0);
        o.transform = Transform::new(rotation, flipped);
        assert!(
            Sway.output_directive(&o)
                .contains(&format!("transform {expected}")),
            "{rotation:?}/{flipped} should be {expected}"
        );
    }
}

#[test]
fn a_mirror_is_dropped_out_loud_rather_than_faked() {
    // sway has no mirroring. Emitting the position of the target instead
    // would put two screens on top of each other and call it a feature.
    let mut o = out("DP-1", 1920, 0);
    o.mirror_of = Some("eDP-1".into());
    let line = Sway.output_directive(&o);
    assert!(line.contains("# mirror of eDP-1 dropped"), "{line}");
    assert!(
        line.contains("position 1920 0"),
        "the output is still placed"
    );
}

#[test]
fn vrr_and_fractional_scale_are_carried() {
    let mut o = out("DP-1", 0, 0);
    o.vrr = true;
    o.scale = fixed(1.25);
    let line = Sway.output_directive(&o);
    assert!(line.contains("adaptive_sync on"), "{line}");
    assert!(line.contains("scale 1.25"), "{line}");
}

#[test]
fn an_unset_variant_is_omitted_rather_than_set_to_nothing() {
    let directives = Sway.input_directives(&InputConfig {
        kb_layout: "fr".into(),
        kb_variant: String::new(),
        kb_options: String::new(),
        natural_scroll: false,
        touchpad_natural_scroll: true,
    });
    let keyboard = &directives[0];
    assert!(keyboard.contains(r#"xkb_layout "fr""#));
    assert!(!keyboard.contains("xkb_variant"), "{keyboard}");
    assert!(!keyboard.contains("xkb_options"), "{keyboard}");
}

#[test]
fn each_device_class_gets_its_own_scroll_direction() {
    let directives = Sway.input_directives(&InputConfig {
        kb_layout: "us".into(),
        kb_variant: String::new(),
        kb_options: String::new(),
        natural_scroll: false,
        touchpad_natural_scroll: true,
    });
    let touchpad = directives
        .iter()
        .find(|d| d.contains("type:touchpad"))
        .unwrap();
    let pointer = directives
        .iter()
        .find(|d| d.contains("type:pointer"))
        .unwrap();
    assert!(touchpad.contains("natural_scroll enabled"));
    assert!(pointer.contains("natural_scroll disabled"));
}

#[test]
fn quoting_drops_what_sway_cannot_escape() {
    // sway has no escape for a quote inside a quoted word: keeping it would
    // break the line it sits on.
    assert_eq!(quote(r#"Acme "27""#), r#""Acme 27""#);
}

#[test]
fn an_include_is_a_path_and_is_recognised_again() {
    let main = "/home/u/.config/sway/config";
    let generated = "/home/u/.config/sway/monitors.conf";
    let line = Sway.include_statement(main, generated, "/root");
    assert!(line.starts_with("include "), "{line}");
    assert!(Sway.includes(&line, generated));
    assert!(!Sway.includes("include \"other.conf\"", generated));
}

#[test]
fn only_an_output_directive_is_adopted() {
    assert!(Sway.opens_output("output DP-1 enable"));
    assert!(Sway.opens_output("   output DP-1 enable"));
    assert!(
        !Sway.opens_output("workspace 1 output DP-1"),
        "assigning a workspace is not configuring an output"
    );
    assert!(!Sway.opens_output("input type:keyboard {"));
}

#[test]
fn sway_drives_live_sessions() {
    assert!(Sway.drives_sessions());
}

#[test]
fn an_input_block_flattens_into_runtime_commands() {
    // The file form is a brace block; `RUN_COMMAND` wants one line per
    // setting, chained under the same criteria.
    let block = "input type:keyboard {\n    xkb_layout \"fr\"\n    xkb_variant \"oss\"\n}";
    assert_eq!(
        flatten(block),
        r#"input type:keyboard xkb_layout "fr", input type:keyboard xkb_variant "oss""#
    );
    // Something with no block at all passes through untouched.
    assert_eq!(flatten("output DP-1 enable"), "output DP-1 enable");
}

#[test]
fn frames_are_read_back_in_either_byte_order() {
    for order in [ByteOrder::Little, ByteOrder::Big] {
        let framed = frame(Message::GetInputs, &vec![7u8; 300], order);
        let header = framed[..HEADER_LEN].to_vec();
        assert_eq!(parse_header(&header, order), Ok((300, 100)));
        let mut broken = header.clone();
        broken[0] = b'X';
        assert_eq!(
            parse_header(&broken, order).unwrap_err().id,
            NoticeId::SwayBadFrame
        );
    }
}

#[test]
fn failures_without_a_sentence_get_one() {
    let done = Outcome { success: true, error: None, parse_error: None };
    assert!(check_outcomes(&vec![done.clone()], "x", Locale::En).is_ok());
    assert!(check_outcomes(&Vec::new(), "", Locale::En).is_ok());
    let outcomes = vec![
        done,
        Outcome { success: false, error: None, parse_error: Some(true) },
        Outcome { success: false, error: None, parse_error: None },
    ];
    let text = check_outcomes(&outcomes, "x", Locale::En)
        .unwrap_err()
        .text(Locale::En);
    assert!(
        text.contains("  • sway could not parse the command\n  • sway gave no reason"),
        "{text}"
    );
}

#[test]
fn a_subscription_is_a_json_list() {
    assert_eq!(
        subscription(&vec!["output".into(), "a\"b".into()]).unwrap(),
        b"[\"output\",\"a\\\"b\"]".to_vec()
    );
}

#[test]
fn bytes_that_are_no_text_are_still_shown() {
    let notice = unexpected(&[b'o', 0xff, b'k']);
    assert_eq!(notice.text(Locale::En), "unexpected response: o\u{fffd}k");
}

#[test]
fn an_output_event_asks_for_a_fresh_look() {
    assert_eq!(
        parse_event(br#"{"change":"unspecified"}"#),
        CompositorEvent::ConfigReloaded
    );
}

#[test]
fn runtime_commands_are_the_flattened_blocks() {
    let session = SwaySession::new("/run/sway.sock".into());
    assert_eq!(session.focus("DP-1"), "focus output \"DP-1\"");
    assert_eq!(
        session.apply_input(&InputConfig::default()),
        vec![
            "input type:keyboard xkb_layout \"us\"",
            "input type:touchpad natural_scroll disabled",
            "input type:pointer natural_scroll disabled"
        ]
    );
}

#[test]
fn the_home_directory_is_written_as_a_tilde() {
    let line = Sway.include_statement(
        "/home/u/.config/sway/config",
        "/home/u/.config/sway/monitors.conf",
        "/home/u",
    );
    assert_eq!(line, "include \"~/.config/sway/monitors.conf\"");
}

#[test]
fn an_include_is_known_by_its_path() {
    let generated = "/home/u/.config/sway/monitors.conf";
    assert!(!Sway.includes("include \"~/.config/sway/monitors.conf.old\"", generated));
    assert!(!Sway.includes("include old-monitors.conf", generated));
    assert!(!Sway.includes("include ~/monitors.conf/other", generated));
    assert!(Sway.includes("include ~/.config/sway/monitors.conf", generated));
    assert!(Sway.includes("  include  'monitors.conf' ", generated));
    // Outside the home directory, with a shorter path.
    let short = "/m.conf";
    let line = Sway.include_statement("/home/u/.config/sway/config", short, "/home/u");
    assert_eq!(line, "include \"/m.conf\"");
    assert!(Sway.includes(&line, short));
}
