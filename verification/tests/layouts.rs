use hyprdmc::fixed::Fixed;
use hyprdmc::i18n::Locale;
use hyprdmc::layout::{
    format_scale, nearest_valid_scale, Layout, OutputState, Relation, Severity,
};
use hyprdmc::monitor::{Mode, Rotation, Transform};
use hyprdmc::notice::NoticeId;

fn fixed(v: f64) -> Fixed {
    Fixed::from_nanos((v * 1e9).round() as i64)
}

fn out(name: &str, w: i32, h: i32, x: i32, y: i32) -> OutputState {
    OutputState {
        name: name.into(),
        enabled: true,
        mode: Some(Mode::new(w, h, fixed(60.0))),
        x,
        y,
        scale: fixed(1.0),
        transform: Transform::default(),
        mirror_of: None,
        vrr: false,
    }
}

#[test]
fn logical_size_swaps_axes_when_rotated() {
    let mut o = out("DP-1", 1920, 1080, 0, 0);
    assert_eq!(o.logical_size_rounded(), (1920, 1080));
    o.transform = Transform::new(Rotation::R90, false);
    assert_eq!(o.logical_size_rounded(), (1080, 1920));
    o.transform = Transform::new(Rotation::R180, false);
    assert_eq!(o.logical_size_rounded(), (1920, 1080));
}

#[test]
fn logical_size_divides_by_scale() {
    let mut o = out("DP-1", 3840, 2160, 0, 0);
    o.scale = fixed(1.5);
    assert_eq!(o.logical_size_rounded(), (2560, 1440));
}

#[test]
fn flipping_does_not_change_logical_size() {
    let mut o = out("DP-1", 1920, 1080, 0, 0);
    o.transform = Transform::new(Rotation::R0, true);
    assert_eq!(o.logical_size_rounded(), (1920, 1080));
}

#[test]
fn spec_omits_default_extras() {
    let o = out("eDP-1", 1920, 1080, 0, 0);
    assert_eq!(o.to_spec(), "eDP-1,1920x1080@60.00,0x0,1");
}

#[test]
fn spec_includes_transform_mirror_and_vrr() {
    let mut o = out("DP-1", 1920, 1080, 1920, 0);
    o.transform = Transform::new(Rotation::R90, true);
    o.mirror_of = Some("eDP-1".into());
    o.vrr = true;
    o.scale = fixed(1.25);
    assert_eq!(
        o.to_spec(),
        "DP-1,1920x1080@60.00,1920x0,1.25,transform,5,mirror,eDP-1,vrr,1"
    );
}

#[test]
fn disabled_output_spec_is_just_disable() {
    let mut o = out("eDP-1", 1920, 1080, 0, 0);
    o.enabled = false;
    assert_eq!(o.to_spec(), "eDP-1,disable");
}

#[test]
fn scale_formatting_drops_noise() {
    assert_eq!(format_scale(fixed(1.0)), "1");
    assert_eq!(format_scale(fixed(1.5)), "1.5");
    assert_eq!(format_scale(fixed(1.6666666666)), "1.666667");
}

#[test]
fn overlap_is_an_error() {
    let layout = Layout::new(vec![
        out("A", 1920, 1080, 0, 0),
        out("B", 1920, 1080, 1000, 0),
    ]);
    let issues = layout.validate();
    assert!(issues
        .iter()
        .any(|i| i.severity == Severity::Error && i.message.text(Locale::En).contains("overlap")));
}

#[test]
fn adjacent_screens_are_clean() {
    let layout = Layout::new(vec![
        out("A", 1920, 1080, 0, 0),
        out("B", 1920, 1080, 1920, 0),
    ]);
    assert_eq!(layout.validate(), Vec::new());
}

#[test]
fn isolated_screen_warns_but_does_not_block() {
    let layout = Layout::new(vec![
        out("A", 1920, 1080, 0, 0),
        out("B", 1920, 1080, 5000, 0),
    ]);
    let issues = layout.validate();
    assert!(!layout.has_errors());
    assert!(issues.iter().any(|i| i.severity == Severity::Warning));
}

#[test]
fn corner_contact_does_not_count_as_touching() {
    // Corner against corner: no shared edge, the cursor can't cross.
    let layout = Layout::new(vec![
        out("A", 1920, 1080, 0, 0),
        out("B", 1920, 1080, 1920, 1080),
    ]);
    assert!(layout
        .validate()
        .iter()
        .any(|i| i.severity == Severity::Warning));
}

#[test]
fn mirrored_output_may_overlap_its_target() {
    let mut b = out("B", 1920, 1080, 0, 0);
    b.mirror_of = Some("A".into());
    let layout = Layout::new(vec![out("A", 1920, 1080, 0, 0), b]);
    assert!(!layout.has_errors());
}

#[test]
fn mirroring_a_missing_or_disabled_output_is_an_error() {
    let mut b = out("B", 1920, 1080, 0, 0);
    b.mirror_of = Some("ABSENT".into());
    assert!(Layout::new(vec![out("A", 1920, 1080, 0, 0), b]).has_errors());

    let mut a = out("A", 1920, 1080, 0, 0);
    a.enabled = false;
    let mut b = out("B", 1920, 1080, 0, 0);
    b.mirror_of = Some("A".into());
    assert!(Layout::new(vec![a, b]).has_errors());
}

#[test]
fn duplicate_connector_is_an_error() {
    let layout = Layout::new(vec![out("A", 1920, 1080, 0, 0), out("A", 1280, 720, 0, 0)]);
    assert!(layout
        .validate()
        .iter()
        .any(|i| i.message.text(Locale::En).contains("defined 2 times")));
}

#[test]
fn disabling_everything_is_an_error() {
    let mut a = out("A", 1920, 1080, 0, 0);
    a.enabled = false;
    assert!(Layout::new(vec![a]).has_errors());
}

#[test]
fn non_integral_scale_warns_without_blocking() {
    // Hyprland accepts 1.37 and silently rounds it to 1.33: that's a
    // warning, not a refusal.
    let mut o = out("DP-1", 1920, 1080, 0, 0);
    o.scale = fixed(1.37);
    let layout = Layout::new(vec![o]);
    let issues = layout.validate();
    let issue = issues
        .iter()
        .find(|i| i.message.text(Locale::En).contains("non-integral"))
        .expect("the wonky scale should be reported");
    assert_eq!(issue.severity, Severity::Warning);
    assert!(!layout.has_errors());
}

#[test]
fn nearest_valid_scale_finds_a_usable_value() {
    let mode = Mode::new(1920, 1080, fixed(60.0));
    let s = nearest_valid_scale(mode, Transform::default(), fixed(1.37)).nanos as f64 / 1e9;
    assert!((1920.0 / s - (1920.0 / s).round()).abs() < 1e-3);
    assert!((1080.0 / s - (1080.0 / s).round()).abs() < 1e-3);
    assert!((s - 1.37).abs() < 0.5, "scale too far off: {s}");
}

#[test]
fn nearest_valid_scale_keeps_already_valid_values() {
    let mode = Mode::new(3840, 2160, fixed(60.0));
    assert_eq!(
        nearest_valid_scale(mode, Transform::default(), fixed(1.5)),
        fixed(1.5)
    );
}

#[test]
fn auto_arrange_lines_screens_up() {
    let mut layout = Layout::new(vec![
        out("A", 1920, 1080, 500, 500),
        out("B", 2560, 1440, 0, 0),
    ]);
    layout.auto_arrange();
    assert_eq!(
        (layout.get("A").unwrap().x, layout.get("A").unwrap().y),
        (0, 0)
    );
    assert_eq!(
        (layout.get("B").unwrap().x, layout.get("B").unwrap().y),
        (1920, 0)
    );
    assert!(!layout.has_errors());
}

#[test]
fn auto_arrange_accounts_for_rotation() {
    let mut a = out("A", 1920, 1080, 0, 0);
    a.transform = Transform::new(Rotation::R90, false);
    let mut layout = Layout::new(vec![a, out("B", 1920, 1080, 0, 0)]);
    layout.auto_arrange();
    // A rotated occupies 1080 of width.
    assert_eq!(layout.get("B").unwrap().x, 1080);
    assert!(!layout.has_errors());
}

#[test]
fn auto_arrange_skips_disabled_screens() {
    let mut b = out("B", 1920, 1080, 0, 0);
    b.enabled = false;
    let mut layout = Layout::new(vec![
        out("A", 1920, 1080, 0, 0),
        b,
        out("C", 1280, 720, 0, 0),
    ]);
    layout.auto_arrange();
    assert_eq!(layout.get("C").unwrap().x, 1920);
}

#[test]
fn place_positions_relative_to_anchor() {
    let mut layout = Layout::new(vec![
        out("A", 1920, 1080, 0, 0),
        out("B", 1280, 720, 9999, 9999),
    ]);
    layout.place("B", Relation::LeftOf, "A").unwrap();
    assert_eq!(
        (layout.get("B").unwrap().x, layout.get("B").unwrap().y),
        (-1280, 0)
    );

    layout.place("B", Relation::Below, "A").unwrap();
    assert_eq!(
        (layout.get("B").unwrap().x, layout.get("B").unwrap().y),
        (0, 1080)
    );

    layout.place("B", Relation::Above, "A").unwrap();
    assert_eq!(
        (layout.get("B").unwrap().x, layout.get("B").unwrap().y),
        (0, -720)
    );
}

#[test]
fn place_rejects_unknown_and_self_reference() {
    let mut layout = Layout::new(vec![out("A", 1920, 1080, 0, 0)]);
    assert!(layout.place("A", Relation::LeftOf, "ABSENT").is_err());
    assert!(layout.place("A", Relation::LeftOf, "A").is_err());
}

#[test]
fn normalize_moves_layout_back_to_origin() {
    let mut layout = Layout::new(vec![
        out("A", 1920, 1080, -1920, -100),
        out("B", 1920, 1080, 0, -100),
    ]);
    layout.normalize();
    assert_eq!(
        (layout.get("A").unwrap().x, layout.get("A").unwrap().y),
        (0, 0)
    );
    assert_eq!(
        (layout.get("B").unwrap().x, layout.get("B").unwrap().y),
        (1920, 0)
    );
}

#[test]
fn relation_parsing_is_forgiving() {
    assert_eq!("left-of".parse::<Relation>().unwrap(), Relation::LeftOf);
    assert_eq!("RIGHT_OF".parse::<Relation>().unwrap(), Relation::RightOf);
    assert_eq!("droite-de".parse::<Relation>().unwrap(), Relation::RightOf);
    assert!("diagonale".parse::<Relation>().is_err());
}

#[test]
fn a_step_right_at_the_wanted_scale_is_not_passed_over() {
    // 1.334 is off, and 160/120 is the step nearest to it.
    let mode = Mode::new(1920, 1080, fixed(60.0));
    assert_eq!(
        nearest_valid_scale(mode, Transform::default(), fixed(1.334)).nanos,
        1_333_333_333
    );
    // Nothing usable in reach: one.
    let odd = Mode::new(1_000_003, 7, fixed(60.0));
    assert_eq!(
        nearest_valid_scale(odd, Transform::default(), fixed(3.77)),
        fixed(1.0)
    );
}

#[test]
fn the_main_screen_anchors_the_layout() {
    let mut layout = Layout::new(vec![
        out("A", 1920, 1080, 0, 0),
        out("B", 2560, 1440, 1920, 200),
    ])
    .with_primary(Some("B".into()));
    layout.normalize();
    assert_eq!((layout.outputs[1].x, layout.outputs[1].y), (0, 0));
    assert_eq!((layout.outputs[0].x, layout.outputs[0].y), (-1920, -200));
    let once = layout.clone();
    layout.normalize();
    assert_eq!(layout, once);
}

#[test]
fn the_main_screen_opens_the_row() {
    let mut layout = Layout::new(vec![
        out("A", 1920, 1080, 7, 7),
        out("B", 2560, 1440, 7, 7),
        out("C", 1280, 720, 7, 7),
    ])
    .with_primary(Some("B".into()));
    assert!(layout.can_arrange());
    layout.auto_arrange();
    let xs: Vec<i32> = layout.outputs.iter().map(|o| o.x).collect();
    assert_eq!(xs, vec![2560, 0, 4480]);
    assert_eq!(layout.validate(), Vec::new());
}

#[test]
fn an_unusable_main_screen_anchors_nothing_and_is_reported() {
    let mut b = out("B", 1920, 1080, 2000, 0);
    b.enabled = false;
    let mut layout =
        Layout::new(vec![out("A", 1920, 1080, 100, 50), b]).with_primary(Some("B".into()));
    assert!(layout.primary_output().is_none());
    let issues = layout.validate();
    assert_eq!(issues.len(), 1);
    assert_eq!(issues[0].message.id, NoticeId::PrimaryUnusable);
    assert_eq!(issues[0].severity, Severity::Warning);
    layout.normalize();
    assert_eq!((layout.outputs[0].x, layout.outputs[0].y), (0, 0));
}

#[test]
fn issues_come_in_a_fixed_order_with_their_outputs() {
    let mut bad = out("A", 1920, 1080, 0, 0);
    bad.scale = fixed(0.0);
    let layout = Layout::new(vec![bad, out("A", 1920, 1080, 0, 0)]);
    let issues = layout.validate();
    let ids: Vec<NoticeId> = issues.iter().map(|i| i.message.id).collect();
    assert_eq!(
        ids,
        vec![
            NoticeId::DuplicateOutput,
            NoticeId::InvalidScale,
            NoticeId::Overlap,
            NoticeId::Unreachable,
            NoticeId::Unreachable
        ]
    );
    assert_eq!(issues[0].outputs, vec!["A"]);
    assert_eq!(issues[1].text(Locale::En), "[error] A: invalid scale 0");
    assert_eq!(
        issues[0].text(Locale::Fr),
        "[erreur] la sortie A est définie 2 fois"
    );
}

#[test]
fn a_rounded_scale_is_reported_with_the_one_to_use() {
    let mut o = out("DP-1", 1920, 1080, 0, 0);
    o.scale = fixed(1.37);
    let issue = &Layout::new(vec![o]).validate()[0];
    assert_eq!(
        issue.message.text(Locale::En),
        "DP-1: scale 1.37 gives a non-integral logical size (1401.460 x 788.321), use 1.333333"
    );
}

#[test]
fn placing_beside_shares_an_edge() {
    for relation in [Relation::LeftOf, Relation::RightOf, Relation::Above, Relation::Below] {
        let mut layout = Layout::new(vec![
            out("A", 1920, 1080, 300, 400),
            out("B", 1280, 720, 0, 0),
        ]);
        assert!(layout.can_place("B", relation, "A"));
        layout.place("B", relation, "A").unwrap();
        assert_eq!(layout.validate(), Vec::new());
    }
    let mut layout = Layout::new(vec![
        out("A", 1920, 1080, 300, 400),
        out("B", 1280, 720, 0, 0),
    ]);
    layout.place("B", Relation::SameAs, "A").unwrap();
    assert_eq!((layout.outputs[1].x, layout.outputs[1].y), (300, 400));
    assert_eq!(
        layout.place("X", Relation::Above, "A").unwrap_err().id,
        NoticeId::UnknownOutput
    );
    assert_eq!(
        layout.place("A", Relation::Above, "X").unwrap_err().id,
        NoticeId::UnknownAnchor
    );
    assert_eq!(
        layout.place("A", Relation::Above, "A").unwrap_err().id,
        NoticeId::SelfReference
    );
}

#[test]
fn coordinates_that_do_not_fit_are_foreseen() {
    let layout = Layout::new(vec![
        out("A", 1920, 1080, i32::MAX, 0),
        out("B", 1920, 1080, i32::MIN, 0),
    ]);
    assert!(!layout.can_normalize());
    assert!(!layout.can_place("B", Relation::RightOf, "A"));
    // Validation takes any coordinate.
    assert!(!layout.has_errors());
}

#[test]
fn outputs_are_found_and_changed_by_name() {
    let mut layout = Layout::new(vec![out("A", 1920, 1080, 0, 0), out("B", 1280, 720, 1920, 0)]);
    assert_eq!(layout.position("B"), Some(1));
    layout.get_mut("B").unwrap().enabled = false;
    assert!(layout.get_mut("C").is_none());
    let names: Vec<&str> = layout.active().iter().map(|o| o.name.as_str()).collect();
    assert_eq!(names, vec!["A"]);
    assert_eq!(layout.to_specs(), vec!["A,1920x1080@60.00,0x0,1", "B,disable"]);
    assert_eq!(layout.outputs[0].rect(), (0, 0, 1920, 1080));
}

#[test]
fn a_scale_of_zero_is_as_large_as_can_be() {
    let mut o = out("A", 1920, 0, 0, 0);
    o.scale = fixed(0.0);
    assert_eq!(o.logical_size_rounded(), (i32::MAX, 0));
    o.scale = fixed(-2.0);
    assert_eq!(o.logical_size_rounded(), (-960, 0));
    // Halves round away from zero.
    let mut p = out("A", 3, 5, 0, 0);
    p.scale = fixed(2.0);
    assert_eq!(p.logical_size_rounded(), (2, 3));
}

#[test]
fn the_nearest_scale_is_always_a_valid_one() {
    let mode = Mode::new(1920, 1080, fixed(60.0));
    let quarter = Transform::new(Rotation::R90, false);
    for wanted in [0.0085, 0.37, 1.1, 1.37, 2.9, 4.0] {
        let s = nearest_valid_scale(mode, Transform::default(), fixed(wanted));
        for side in [1920.0, 1080.0] {
            let size = side * 1e9 / s.nanos as f64;
            assert!((size - size.round()).abs() < 1e-3, "{wanted} gave {size}");
        }
        assert_eq!(nearest_valid_scale(mode, Transform::default(), s), s);
        assert_eq!(nearest_valid_scale(mode, quarter, fixed(wanted)), s);
    }
}
