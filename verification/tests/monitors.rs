use hyprdmc::fixed::Fixed;
use hyprdmc::i18n::Locale;
use hyprdmc::monitor::{Mode, Monitor, Rotation, Transform};
use hyprdmc::notice::{turn_string, NoticeId};

fn fixed(v: f64) -> Fixed {
    Fixed::from_nanos((v * 1e9).round() as i64)
}

fn mode(width: i32, height: i32, refresh: f64) -> Mode {
    Mode::new(width, height, fixed(refresh))
}

fn sample(make: &str, model: &str, serial: &str, desc: &str) -> Monitor {
    Monitor {
        id: 0,
        name: "eDP-1".into(),
        description: desc.into(),
        make: make.into(),
        model: model.into(),
        serial: serial.into(),
        width: 1920,
        height: 1080,
        refresh_rate: fixed(60.056),
        x: 0,
        y: 0,
        scale: fixed(1.0),
        transform: 0,
        focused: true,
        disabled: false,
        mirror_of: "none".into(),
        vrr: false,
        available_modes: vec!["1920x1080@60.06Hz".into(), "1280x720@60.00Hz".into()],
    }
}

#[test]
fn transform_encode_decode_roundtrip() {
    for v in 0u8..=7 {
        let t = Transform::from_u8(v).unwrap();
        assert_eq!(t.to_u8(), v, "round trip broken for transform={v}");
    }
    assert!(Transform::from_u8(8).is_err());
}

#[test]
fn transform_layout_matches_hyprland_table() {
    assert_eq!(Transform::new(Rotation::R0, false).to_u8(), 0);
    assert_eq!(Transform::new(Rotation::R90, false).to_u8(), 1);
    assert_eq!(Transform::new(Rotation::R180, false).to_u8(), 2);
    assert_eq!(Transform::new(Rotation::R270, false).to_u8(), 3);
    assert_eq!(Transform::new(Rotation::R0, true).to_u8(), 4);
    assert_eq!(Transform::new(Rotation::R270, true).to_u8(), 7);

    let t = Transform::from_u8(5).unwrap();
    assert_eq!(t.rotation, Rotation::R90);
    assert!(t.flipped);
}

#[test]
fn rotation_axis_swap() {
    assert!(!Rotation::R0.swaps_axes());
    assert!(Rotation::R90.swaps_axes());
    assert!(!Rotation::R180.swaps_axes());
    assert!(Rotation::R270.swaps_axes());
}

#[test]
fn rotation_from_degrees() {
    assert_eq!(Rotation::from_degrees(90).unwrap(), Rotation::R90);
    assert_eq!(Rotation::from_degrees(360).unwrap(), Rotation::R0);
    assert!(Rotation::from_degrees(45).is_err());
}

#[test]
fn mode_parsing_accepts_hyprland_forms() {
    assert_eq!("1920x1080".parse::<Mode>().unwrap(), mode(1920, 1080, 0.0));
    assert_eq!("1920x1080@60".parse::<Mode>().unwrap(), mode(1920, 1080, 60.0));
    assert_eq!(
        "1920x1080@60.06Hz".parse::<Mode>().unwrap(),
        mode(1920, 1080, 60.06)
    );
    assert!("nawak".parse::<Mode>().is_err());
    assert!("1920x@60".parse::<Mode>().is_err());
}

#[test]
fn fingerprint_prefers_make_model_serial() {
    let m = sample("Dell Inc.", "U2723QE", "ABC123", "Dell Inc. U2723QE");
    assert_eq!(m.fingerprint(), "Dell Inc. U2723QE ABC123");
}

#[test]
fn fingerprint_skips_empty_parts() {
    // Real-world case: laptop panel with an empty serial.
    let m = sample("AU Optronics", "0x5799", "", "AU Optronics 0x5799");
    assert_eq!(m.fingerprint(), "AU Optronics 0x5799");
}

#[test]
fn fingerprint_falls_back_to_connector_name() {
    let m = sample("", "", "", "");
    assert_eq!(m.fingerprint(), "eDP-1");
}

#[test]
fn preferred_mode_is_largest_then_fastest() {
    let m = sample("x", "y", "z", "");
    assert_eq!(m.preferred_mode().unwrap(), mode(1920, 1080, 60.06));
}

#[test]
fn mirror_target_normalises_none() {
    let mut m = sample("x", "y", "z", "");
    assert_eq!(m.mirror_target(&[]), None);
    m.mirror_of = String::new();
    assert_eq!(m.mirror_target(&[]), None);
}

#[test]
fn mirror_target_resolves_the_numeric_id_hyprland_publishes() {
    // Hyprland reports mirrorOf: "0" to designate the monitor with id 0.
    let mut source = sample("x", "y", "z", "");
    source.id = 0;
    source.name = "eDP-1".into();

    let mut mirrored = sample("a", "b", "c", "");
    mirrored.id = 1;
    mirrored.name = "DP-1".into();
    mirrored.mirror_of = "0".into();

    let all = vec![source, mirrored.clone()];
    assert_eq!(mirrored.mirror_target(&all), Some("eDP-1".to_string()));
}

#[test]
fn mirror_target_accepts_a_plain_name_too() {
    let mut m = sample("x", "y", "z", "");
    m.mirror_of = "DP-1".into();
    assert_eq!(m.mirror_target(&[]), Some("DP-1".to_string()));
}

#[test]
fn every_part_of_a_mode_has_its_own_error() {
    let id = |s: &str| Mode::parse(s).unwrap_err().id;
    assert_eq!(id("1920x1080@fast"), NoticeId::InvalidRefresh);
    assert_eq!(id("nawak"), NoticeId::InvalidMode);
    assert_eq!(id("widex1080"), NoticeId::InvalidWidth);
    assert_eq!(id("1920xtall"), NoticeId::InvalidHeight);
    assert_eq!(id("99999999999x1"), NoticeId::InvalidWidth);
}

#[test]
fn refresh_rates_take_every_decimal_notation() {
    let nanos = |s: &str| Mode::parse(s).unwrap().refresh.nanos;
    assert_eq!(nanos("1x1@59.94Hz"), 59_940_000_000);
    assert_eq!(nanos("1x1@.5"), 500_000_000);
    assert_eq!(nanos("1x1@6e1"), 60_000_000_000);
    assert_eq!(nanos("1x1@+60."), 60_000_000_000);
    assert_eq!(nanos("1x1@-1.5"), -1_500_000_000);
    assert_eq!(nanos("1X1@600e-1"), 60_000_000_000);
    // More digits than are kept: rounded, ties to even.
    assert_eq!(nanos("1x1@0.0000000005"), 0);
    assert_eq!(nanos("1x1@0.0000000015"), 2);
    assert_eq!(nanos("1x1@0.00000000051"), 1);
    assert_eq!(nanos("1x1@1e-99999999999999999999999"), 0);
    // As far out as a rate goes.
    assert_eq!(nanos("1x1@1e99"), i64::MAX);
    assert_eq!(nanos("1x1@-99999999999"), i64::MIN);
    assert_eq!(nanos("1x1@inf"), i64::MAX);
    assert_eq!(nanos("1x1@+Infinity"), i64::MAX);
    assert_eq!(nanos("1x1@-INF"), i64::MIN);
    assert_eq!(nanos("1x1@NaN"), 0);
    assert!(Mode::parse("1x1@infinit").is_err());
    assert!(Mode::parse("1x1@--inf").is_err());
    assert!(Mode::parse("1x1@1e").is_err());
    assert!(Mode::parse("1x1@").is_err());
    assert!(Mode::parse("1x1@1.2.3").is_err());
}

#[test]
fn modes_are_shown_with_two_decimals() {
    assert_eq!(mode(1920, 1080, 60.0).text(), "1920x1080@60.00");
    assert_eq!(mode(1920, 1080, 59.951).text(), "1920x1080@59.95");
    assert_eq!(mode(1920, 1080, 0.0).text(), "1920x1080");
    assert_eq!(mode(-1, 2, 0.125).text(), "-1x2@0.12");
}

#[test]
fn repeated_modes_are_listed_once_and_ranked() {
    let mut m = sample("x", "y", "z", "");
    m.available_modes = vec![
        "1280x720@60.00Hz".into(),
        "1920x1080@60.00Hz".into(),
        "not a mode".into(),
        "1920x1080@144.00Hz".into(),
        "1920x1080@60.00Hz".into(),
    ];
    assert_eq!(
        m.parsed_modes(),
        vec![mode(1920, 1080, 144.0), mode(1920, 1080, 60.0), mode(1280, 720, 60.0)]
    );
}

#[test]
fn identifiers_go_from_the_connector_to_the_description() {
    let m = sample("Dell Inc.", "U2723QE", "ABC123", "Dell Inc. U2723QE");
    assert_eq!(
        m.identifiers(),
        vec![
            "eDP-1",
            "Dell Inc. U2723QE ABC123",
            "Dell Inc. U2723QE",
            "desc:Dell Inc. U2723QE"
        ]
    );
    // Neighbours that say the same are told once.
    let bare = sample("", "", "", "");
    assert_eq!(bare.identifiers(), vec!["eDP-1"]);
}

#[test]
fn an_unknown_transform_counts_as_upright() {
    let mut m = sample("x", "y", "z", "");
    m.transform = 9;
    assert_eq!(m.transform(), Transform::default());
    m.transform = 6;
    assert_eq!(m.transform(), Transform::new(Rotation::R180, true));
}

#[test]
fn orientations_are_said_in_both_languages() {
    let t = Transform::new(Rotation::R90, true);
    assert_eq!(turn_string(t, Locale::En), "90° flipped");
    assert_eq!(turn_string(t, Locale::Fr), "90° retourné");
    assert_eq!(turn_string(Transform::default(), Locale::En), "0°");
}
