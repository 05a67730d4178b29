use hyprdmc::apply::{
    asks_for_confirmation, diff, is_yes, keeps, restore, snapshot, Action, Application, ApplyError,
    ApplyReport, Event, Field, SETTLE_INTERVAL, SETTLE_TIMEOUT,
};
use hyprdmc::compositor::hyprland::ipc::HyprSocket;
use hyprdmc::compositor::hyprland::{HyprSession, Hyprland};
use hyprdmc::compositor::testing::FileOnly;
use hyprdmc::compositor::Compositor;
use hyprdmc::fixed::Fixed;
use hyprdmc::i18n::Locale;
use hyprdmc::layout::{Layout, OutputState, Severity};
use hyprdmc::monitor::{Mode, Monitor, Rotation, Transform};

const HYPR: Hyprland = Hyprland;

fn fixed(v: f64) -> Fixed {
    Fixed::from_nanos((v * 1e9).round() as i64)
}

/// `(name, width, height, x, y, scale, transform, disabled)`
type Row<'a> = (&'a str, i32, i32, i32, i32, f64, u8, bool);

fn monitors(entries: &[Row<'_>]) -> Vec<Monitor> {
    entries
        .iter()
        .map(|(name, w, h, x, y, scale, transform, disabled)| Monitor {
            id: 0,
            name: name.to_string(),
            description: "d".into(),
            make: "m".into(),
            model: "mo".into(),
            serial: "s".into(),
            width: *w,
            height: *h,
            refresh_rate: fixed(60.0),
            x: *x,
            y: *y,
            scale: fixed(*scale),
            transform: *transform,
            focused: false,
            disabled: *disabled,
            mirror_of: "none".into(),
            vrr: false,
            available_modes: vec!["1920x1080@60.00Hz".into()],
        })
        .collect()
}

fn want(name: &str, w: i32, h: i32, x: i32, y: i32) -> OutputState {
    OutputState {
        name: name.into(),
        enabled: true,
        mode: Some(Mode::new(w, h, fixed(60.0))),
        x,
        y,
        scale: fixed(1.0),
        transform: Transform::default(),
        mirror_of: None,
        vrr: false,
    }
}

/// A session that replays states and records the commands sent.
struct FakeSession {
    stale: Vec<Vec<Monitor>>,
    settled: Vec<Monitor>,
    sent: Vec<String>,
    waited: u64,
    refuse_push: bool,
}

impl FakeSession {
    fn with_monitors(settled: Vec<Monitor>) -> Self {
        FakeSession { stale: Vec::new(), settled, sent: Vec::new(), waited: 0, refuse_push: false }
    }

    /// Returns `stale` for `repeats` reads before `settled`.
    fn settling_after(repeats: usize, stale: Vec<Monitor>, settled: Vec<Monitor>) -> Self {
        FakeSession {
            stale: vec![stale; repeats],
            settled,
            sent: Vec::new(),
            waited: 0,
            refuse_push: false,
        }
    }

    fn outputs(&mut self) -> Vec<Monitor> {
        self.sent.push("j/monitors all".into());
        self.stale.pop().unwrap_or_else(|| self.settled.clone())
    }

    fn monitor_reads(&self) -> usize {
        self.sent.iter().filter(|c| c.starts_with("j/monitors")).count()
    }

    fn evals(&self) -> Vec<String> {
        self.sent.iter().filter(|c| c.starts_with("/eval ")).cloned().collect()
    }

    fn focused(&self) -> bool {
        self.sent.iter().any(|c| c.contains("focusmonitor"))
    }
}

/// Takes a layout all the way to the fake session.
fn apply<C: Compositor>(
    backend: &mut FakeSession,
    c: &C,
    layout: &Layout,
    force: bool,
) -> Result<ApplyReport, String> {
    let hypr = HyprSession::new(HyprSocket::at("/nowhere".into()));
    let mut app = match Application::begin(c, layout.clone(), force) {
        Ok(app) => app,
        Err(e) => return Err(e.text(Locale::En)),
    };
    let mut action = Action::ReadOutputs;
    loop {
        let event = match action {
            Action::ReadOutputs => {
                let expired = backend.waited >= SETTLE_TIMEOUT;
                Event::Outputs(backend.outputs(), expired)
            }
            Action::Push(d) => {
                if let Some(request) = hypr.apply(&d) {
                    backend.sent.push(request);
                }
                if backend.refuse_push {
                    Event::Refused
                } else {
                    Event::Done
                }
            }
            Action::Wait => {
                backend.waited += SETTLE_INTERVAL;
                Event::Done
            }
            Action::Focus(name) => {
                backend.sent.push(hypr.focus(&name));
                Event::Done
            }
            Action::Finish => return Ok(app.report),
            Action::Fail => return Err("refused".into()),
        };
        let (next, todo) = app.step(c, event);
        app = next;
        action = todo;
    }
}

#[test]
fn a_plugin_may_render_without_driving_a_session() {
    assert!(!FileOnly.drives_sessions());
    let mut output = want("DP-1", 1920, 1080, 0, 0);
    output.mode = None;
    assert_eq!(
        FileOnly.output_directive(&output),
        "output DP-1",
        "rendering never needs a live compositor"
    );
}

#[test]
fn diff_is_silent_when_hyprland_obeyed() {
    let layout = Layout::new(vec![want("DP-1", 1920, 1080, 0, 0)]);
    let actual = monitors(&[("DP-1", 1920, 1080, 0, 0, 1.0, 0, false)]);
    assert_eq!(diff(&layout, &actual), Vec::new());
}

#[test]
fn diff_catches_a_silently_refused_mode() {
    // Hyprland replies "ok" for a nonexistent mode: only a fresh read reveals it.
    let layout = Layout::new(vec![want("DP-1", 9999, 9999, 0, 0)]);
    let actual = monitors(&[("DP-1", 1920, 1080, 0, 0, 1.0, 0, false)]);
    let drifts = diff(&layout, &actual);
    assert_eq!(drifts.len(), 1);
    assert_eq!(drifts[0].severity, Severity::Error);
    assert!(drifts[0].message.text(Locale::En).contains("mode refused"));
}

#[test]
fn diff_catches_a_refused_position_and_orientation() {
    let mut w = want("DP-1", 1920, 1080, 3000, 0);
    w.transform = Transform::new(Rotation::R90, false);
    let layout = Layout::new(vec![w]);
    let actual = monitors(&[("DP-1", 1920, 1080, 0, 0, 1.0, 0, false)]);
    let drifts = diff(&layout, &actual);
    assert_eq!(drifts.len(), 2);
    assert!(drifts.iter().all(|d| d.severity == Severity::Error));
}

#[test]
fn adjusted_scale_is_only_a_warning() {
    // Real-world case: 1.37 requested, 1.33 applied.
    let mut w = want("DP-1", 1920, 1080, 0, 0);
    w.scale = fixed(1.37);
    let layout = Layout::new(vec![w]);
    let actual = monitors(&[("DP-1", 1920, 1080, 0, 0, 1.33, 0, false)]);
    let drifts = diff(&layout, &actual);
    assert_eq!(drifts.len(), 1);
    assert_eq!(drifts[0].severity, Severity::Warning);
}

#[test]
fn refresh_rounding_is_tolerated() {
    // 60 requested, 60.056 applied: it's the same mode.
    let layout = Layout::new(vec![want("eDP-1", 1920, 1080, 0, 0)]);
    let mut actual = monitors(&[("eDP-1", 1920, 1080, 0, 0, 1.0, 0, false)]);
    actual[0].refresh_rate = fixed(60.056);
    assert_eq!(diff(&layout, &actual), Vec::new());
}

#[test]
fn diff_catches_a_vanished_output() {
    let layout = Layout::new(vec![want("DP-1", 1920, 1080, 0, 0)]);
    let drifts = diff(&layout, &[]);
    assert_eq!(drifts[0].severity, Severity::Error);
    assert!(drifts[0].message.text(Locale::En).contains("disappeared"));
}

#[test]
fn diff_catches_enable_disable_mismatch() {
    let mut w = want("DP-1", 1920, 1080, 0, 0);
    w.enabled = false;
    let layout = Layout::new(vec![w]);
    let actual = monitors(&[("DP-1", 1920, 1080, 0, 0, 1.0, 0, false)]);
    let drifts = diff(&layout, &actual);
    assert_eq!(drifts[0].severity, Severity::Error);
    assert!(drifts[0].message.text(Locale::En).contains("disabled"));
}

#[test]
fn apply_sends_a_single_eval_and_reports_success() {
    let mut backend = FakeSession::with_monitors(monitors(&[
        ("eDP-1", 1920, 1080, 0, 0, 1.0, 0, false),
        ("DP-1", 1920, 1080, 1920, 0, 1.0, 0, false),
    ]));
    let layout = Layout::new(vec![
        want("eDP-1", 1920, 1080, 0, 0),
        want("DP-1", 1920, 1080, 1920, 0),
    ]);

    let report = apply(&mut backend, &HYPR, &layout, false).unwrap();
    assert!(report.succeeded());
    assert!(!report.rolled_back);

    let sent = backend.evals();
    assert_eq!(sent.len(), 1, "expected a single round trip");
    assert!(sent[0].contains(r#"output = "eDP-1", mode = "1920x1080@60.00", position = "0x0""#));
    assert!(sent[0].contains(r#"output = "DP-1", mode = "1920x1080@60.00", position = "1920x0""#));
}

#[test]
fn a_plugin_that_drives_no_session_refuses_before_reading_anything() {
    let mut backend =
        FakeSession::with_monitors(monitors(&[("DP-1", 1920, 1080, 0, 0, 1.0, 0, false)]));
    let layout = Layout::new(vec![want("DP-1", 1920, 1080, 0, 0)]);

    let err = apply(&mut backend, &FileOnly, &layout, false).unwrap_err();
    assert!(err.contains("file only"), "{err}");
    assert!(
        backend.sent.is_empty(),
        "not even a read should have happened"
    );
}

#[test]
fn apply_refuses_an_invalid_layout_without_touching_hyprland() {
    let mut backend =
        FakeSession::with_monitors(monitors(&[("A", 1920, 1080, 0, 0, 1.0, 0, false)]));
    // Two overlapping outputs: validation error.
    let layout = Layout::new(vec![
        want("A", 1920, 1080, 0, 0),
        want("B", 1920, 1080, 100, 0),
    ]);
    let err = apply(&mut backend, &HYPR, &layout, false).unwrap_err();
    assert!(err.contains("overlap"));
    assert!(
        !backend.sent.iter().any(|c| c.contains("hl.monitor(")),
        "no command should be sent"
    );
}

#[test]
fn apply_rolls_back_when_the_result_is_wrong() {
    // The backend always reports 1920x1080 at 0x0: the request for
    // 3000x0 won't be honored, hence rollback.
    let mut backend =
        FakeSession::with_monitors(monitors(&[("DP-1", 1920, 1080, 0, 0, 1.0, 0, false)]));
    let layout = Layout::new(vec![want("DP-1", 1920, 1080, 3000, 0)]);

    let report = apply(&mut backend, &HYPR, &layout, false).unwrap();
    assert!(report.rolled_back);
    assert!(!report.succeeded());

    let sent = backend.evals();
    assert_eq!(sent.len(), 2, "apply then restore");
    assert!(
        sent[1].contains(r#"position = "0x0""#),
        "restore must rewrite the original state: {}",
        sent[1]
    );
}

#[test]
fn apply_waits_for_hyprland_to_catch_up() {
    // Real-world case: a rotation takes ~50ms to show up in j/monitors.
    // Reading only once would wrongly conclude failure.
    let rotated = monitors(&[("DP-1", 1920, 1080, 0, 0, 1.0, 1, false)]);
    let not_yet = monitors(&[("DP-1", 1920, 1080, 0, 0, 1.0, 0, false)]);
    let mut backend = FakeSession::settling_after(2, not_yet, rotated);

    let mut w = want("DP-1", 1920, 1080, 0, 0);
    w.transform = Transform::new(Rotation::R90, false);
    let report = apply(&mut backend, &HYPR, &Layout::new(vec![w]), false).unwrap();

    assert!(report.succeeded(), "drifts: {:?}", report.drifts);
    assert!(!report.rolled_back);
    assert!(
        backend.monitor_reads() >= 3,
        "the state must be re-read until it converges"
    );
}

#[test]
fn settling_also_waits_for_the_mirror_to_take_effect() {
    // Mirroring is only a warning, but it does eventually apply: we
    // must wait for it like everything else.
    let mut mirrored = monitors(&[
        ("eDP-1", 1920, 1080, 0, 0, 1.0, 0, false),
        ("DP-1", 1920, 1080, 0, 0, 1.0, 0, false),
    ]);
    mirrored[1].id = 1;
    let not_yet = mirrored.clone();
    mirrored[1].mirror_of = "0".into();
    let mut backend = FakeSession::settling_after(2, not_yet, mirrored);

    let mut b = want("DP-1", 1920, 1080, 0, 0);
    b.mirror_of = Some("eDP-1".into());
    let layout = Layout::new(vec![want("eDP-1", 1920, 1080, 0, 0), b]);

    let report = apply(&mut backend, &HYPR, &layout, false).unwrap();
    assert_eq!(report.drifts, Vec::new(), "mirroring must be awaited");
}

#[test]
fn an_adjusted_scale_does_not_stall_the_settle_loop() {
    // Hyprland will never revisit its rounding: no point waiting.
    let mut w = want("DP-1", 1920, 1080, 0, 0);
    w.scale = fixed(1.37);
    let mut backend =
        FakeSession::with_monitors(monitors(&[("DP-1", 1920, 1080, 0, 0, 1.33, 0, false)]));

    let report = apply(&mut backend, &HYPR, &Layout::new(vec![w]), false).unwrap();
    assert!(report.succeeded());
    assert_eq!(report.drifts.len(), 1);
    assert!(
        backend.waited < 400,
        "apply must not wait out the full settle timeout"
    );
}

#[test]
fn settling_gives_up_and_reports_a_genuine_failure() {
    // Nothing moves: after the timeout, the drift is properly reported.
    let mut backend =
        FakeSession::with_monitors(monitors(&[("DP-1", 1920, 1080, 0, 0, 1.0, 0, false)]));
    let mut w = want("DP-1", 1920, 1080, 0, 0);
    w.transform = Transform::new(Rotation::R90, false);

    let report = apply(&mut backend, &HYPR, &Layout::new(vec![w]), false).unwrap();
    assert!(report.rolled_back);
    assert_eq!(backend.waited, SETTLE_TIMEOUT);
}

#[test]
fn force_keeps_the_result_despite_drift() {
    let mut backend =
        FakeSession::with_monitors(monitors(&[("DP-1", 1920, 1080, 0, 0, 1.0, 0, false)]));
    let layout = Layout::new(vec![want("DP-1", 1920, 1080, 3000, 0)]);

    let report = apply(&mut backend, &HYPR, &layout, true).unwrap();
    assert!(!report.rolled_back);
    assert!(!report.drifts.is_empty());
}

#[test]
fn apply_moves_the_focus_to_the_main_screen() {
    let mut backend = FakeSession::with_monitors(monitors(&[
        ("eDP-1", 1920, 1080, 0, 0, 1.0, 0, false),
        ("DP-1", 1920, 1080, 1920, 0, 1.0, 0, false),
    ]));
    let layout = Layout::new(vec![
        want("eDP-1", 1920, 1080, 0, 0),
        want("DP-1", 1920, 1080, 1920, 0),
    ])
    .with_primary(Some("DP-1".into()));

    assert!(apply(&mut backend, &HYPR, &layout, false).unwrap().succeeded());
    assert!(backend.sent.iter().any(|c| c == "dispatch focusmonitor DP-1"));
}

#[test]
fn without_a_main_screen_the_focus_is_left_alone() {
    let mut backend =
        FakeSession::with_monitors(monitors(&[("DP-1", 1920, 1080, 0, 0, 1.0, 0, false)]));
    apply(
        &mut backend,
        &HYPR,
        &Layout::new(vec![want("DP-1", 1920, 1080, 0, 0)]),
        false,
    )
    .unwrap();
    assert!(
        !backend.focused(),
        "nothing was designated: the focus is none of our business"
    );
}

#[test]
fn a_rolled_back_layout_does_not_move_the_focus() {
    // The backend never honours 3000x0, so this apply rolls back; focusing
    // the main screen of a layout that no longer exists would be wrong.
    let mut backend =
        FakeSession::with_monitors(monitors(&[("DP-1", 1920, 1080, 0, 0, 1.0, 0, false)]));
    let layout =
        Layout::new(vec![want("DP-1", 1920, 1080, 3000, 0)]).with_primary(Some("DP-1".into()));

    assert!(apply(&mut backend, &HYPR, &layout, false).unwrap().rolled_back);
    assert!(!backend.focused());
}

#[test]
fn force_bypasses_validation_errors() {
    let mut backend = FakeSession::with_monitors(monitors(&[
        ("A", 1920, 1080, 0, 0, 1.0, 0, false),
        ("B", 1920, 1080, 100, 0, 1.0, 0, false),
    ]));
    let layout = Layout::new(vec![
        want("A", 1920, 1080, 0, 0),
        want("B", 1920, 1080, 100, 0),
    ]);
    let report = apply(&mut backend, &HYPR, &layout, true).unwrap();
    assert!(!report.rolled_back);
}

#[test]
fn a_refused_layout_is_undone_and_the_error_handed_out() {
    let mut backend =
        FakeSession::with_monitors(monitors(&[("DP-1", 1920, 1080, 0, 0, 1.0, 0, false)]));
    backend.refuse_push = true;
    let layout = Layout::new(vec![want("DP-1", 1920, 1080, 640, 0)]);
    assert_eq!(
        apply(&mut backend, &HYPR, &layout, false).unwrap_err(),
        "refused"
    );
    let sent = backend.evals();
    assert_eq!(sent.len(), 2);
    assert!(sent[0].contains("640x0"));
    assert!(sent[1].contains("\"0x0\""));
    assert!(!backend.focused());
}

#[test]
fn a_state_that_cannot_be_read_fails_the_application() {
    let layout = Layout::new(vec![want("DP-1", 1920, 1080, 0, 0)]);
    let app = Application::begin(&HYPR, layout, false).unwrap();
    let (_, action) = app.step(&HYPR, Event::Refused);
    assert_eq!(action, Action::Fail);
}

#[test]
fn every_field_is_compared_and_said() {
    let mut w = want("DP-1", 1920, 1080, 10, 20);
    w.mode = Some(Mode::new(1920, 1080, fixed(144.0)));
    w.transform = Transform::new(Rotation::R90, true);
    w.scale = fixed(2.0);
    let mut actual = monitors(&[("DP-1", 1920, 1080, 0, 0, 1.0, 0, false)]);
    actual[0].mirror_of = "eDP-1".into();
    let drifts = diff(&Layout::new(vec![w]), &actual);
    let fields: Vec<Field> = drifts.iter().map(|d| d.field).collect();
    assert_eq!(
        fields,
        vec![Field::Refresh, Field::Position, Field::Transform, Field::Scale, Field::Mirror]
    );
    let texts: Vec<String> = drifts.iter().map(|d| d.message.text(Locale::En)).collect();
    assert_eq!(texts[0], "DP-1: refresh rate adjusted from 144.00 Hz to 60.00 Hz");
    assert_eq!(texts[1], "DP-1: position refused, wanted 10x20 and got 0x0");
    assert_eq!(texts[2], "DP-1: orientation refused, wanted 90° flipped and got 0°");
    assert_eq!(texts[3], "DP-1: scale adjusted from 2 to 1");
    assert_eq!(texts[4], "DP-1: mirroring differs, wanted none and got eDP-1");
    assert!(drifts[4].message.text(Locale::Fr).contains("demandé aucun"));
    assert!(!Field::Scale.converges() && !Field::Refresh.converges());
    assert!(Field::Mirror.converges() && Field::Presence.converges());
}

#[test]
fn a_layout_that_was_read_back_shows_no_drift() {
    let mut actual = monitors(&[
        ("eDP-1", 1920, 1080, 0, 0, 1.25, 5, false),
        ("DP-1", 2560, 1440, 1920, -100, 2.0, 0, true),
        ("DP-2", 2560, 1440, 0, 0, 1.0, 0, false),
    ]);
    actual[2].id = 2;
    actual[2].mirror_of = "eDP-1".into();
    assert_eq!(diff(&snapshot(&actual), &actual), Vec::new());
    assert_eq!(restore(&HYPR, &snapshot(&actual)).len(), 3);
}

#[test]
fn a_refusal_lists_only_what_blocks() {
    let mut layout = Layout::new(vec![
        want("A", 1920, 1080, 0, 0),
        want("B", 1920, 1080, 100, 0),
    ]);
    layout.outputs[0].scale = fixed(1.37);
    match Application::begin(&HYPR, layout, false) {
        Err(ApplyError::Rejected(issues)) => {
            assert!(issues.iter().all(|i| i.severity == Severity::Error));
            assert_eq!(issues.len(), 1);
            let text = ApplyError::Rejected(issues).text(Locale::En);
            assert_eq!(text, "layout rejected:\n  • A and B overlap");
        }
        _ => panic!("an overlap must be refused"),
    }
}

#[test]
fn a_yes_in_either_language_keeps_the_layout() {
    assert!(keeps(Some("y\n")));
    assert!(keeps(Some("  Oui ")));
    assert!(keeps(Some("YES")));
    assert!(!keeps(Some("n")));
    assert!(!keeps(Some("")));
    assert!(!keeps(None));
    assert!(is_yes("o") && !is_yes("O"));
    assert!(asks_for_confirmation(10, true));
    assert!(!asks_for_confirmation(0, true));
    assert!(!asks_for_confirmation(10, false));
}
