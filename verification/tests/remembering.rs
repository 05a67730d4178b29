use hyprdmc::cli;
use hyprdmc::config::{Config, OutputRule, Profile};
use hyprdmc::daemon::{
    announcement, choose_layout, next_backoff, restorable, snapshot_of, Changes, Daemon, FollowUp,
    Guard, Incoming, Origin, Outgoing, Reaction, Watch, DEBOUNCE, RECONNECT_MAX, RECONNECT_MIN,
};
use hyprdmc::env::Environment;
use hyprdmc::fixed::Fixed;
use hyprdmc::history::{humanize, signature, state_path, Snapshot, Store, CAPACITY};
use hyprdmc::i18n::Locale;
use hyprdmc::layout::{Layout, OutputState};
use hyprdmc::monitor::{Mode, Monitor, Rotation, Transform};
use hyprdmc::notice::NoticeId;
use hyprdmc::session::CompositorEvent;
use hyprdmc::web::{record_primary, requested_layout};

const EN: Locale = Locale::En;

fn fixed(v: f64) -> Fixed {
    Fixed::from_nanos((v * 1e9).round() as i64)
}

fn monitor(name: &str, make: &str, serial: &str) -> Monitor {
    Monitor {
        id: 0,
        name: name.into(),
        description: String::new(),
        make: make.into(),
        model: "M".into(),
        serial: serial.into(),
        width: 1920,
        height: 1080,
        refresh_rate: fixed(60.0),
        x: 0,
        y: 0,
        scale: fixed(1.0),
        transform: 0,
        focused: false,
        disabled: false,
        mirror_of: "none".into(),
        vrr: false,
        available_modes: vec!["1920x1080@60.00Hz".into()],
    }
}

fn layout_at(x: i32) -> Layout {
    Layout::new(vec![OutputState {
        name: "DP-1".into(),
        enabled: true,
        mode: Some(Mode::new(1920, 1080, fixed(60.0))),
        x,
        y: 0,
        scale: fixed(1.0),
        transform: Transform::default(),
        mirror_of: None,
        vrr: false,
    }])
}

fn snap(x: i32, signature: &str) -> Snapshot {
    Snapshot::new(layout_at(x), signature.to_string(), None, 0)
}

fn rule(pattern: &str, position: Option<&str>) -> OutputRule {
    OutputRule {
        pattern: pattern.into(),
        enabled: true,
        mode: None,
        position: position.map(str::to_string),
        scale: fixed(1.0),
        rotation: 0,
        flipped: false,
        mirror_of: None,
        vrr: false,
    }
}

/// Two screens on top of each other.
fn stacked() -> Vec<Monitor> {
    vec![monitor("eDP-1", "AU", "B"), monitor("DP-1", "Dell", "A")]
}

#[test]
fn signature_ignores_order_and_connector() {
    let a = vec![monitor("DP-1", "Dell", "A"), monitor("eDP-1", "AU", "B")];
    let b = vec![monitor("DP-3", "AU", "B"), monitor("HDMI-A-1", "Dell", "A")];
    assert_eq!(signature(&a), signature(&b));
}

#[test]
fn signature_distinguishes_different_sets() {
    let solo = vec![monitor("eDP-1", "AU", "B")];
    let docked = vec![monitor("eDP-1", "AU", "B"), monitor("DP-1", "Dell", "A")];
    assert_ne!(signature(&solo), signature(&docked));
}

#[test]
fn history_keeps_only_the_last_five() {
    let mut store = Store::default();
    for x in 0..8 {
        store.record(snap(x * 100, "sig"));
    }
    assert_eq!(store.history.len(), CAPACITY);
    // Newest first.
    assert_eq!(store.history[0].layout, layout_at(700));
    assert_eq!(store.history[4].layout, layout_at(300));
}

#[test]
fn identical_consecutive_layouts_are_collapsed() {
    // Every hotplug triggers a reconcile; without this the history would
    // fill up with copies of the same layout.
    let mut store = Store::default();
    store.record(snap(0, "sig"));
    store.record(snap(0, "sig"));
    store.record(snap(0, "sig"));
    assert_eq!(store.history.len(), 1);

    store.record(snap(1920, "sig"));
    assert_eq!(store.history.len(), 2);
}

#[test]
fn recall_returns_the_layout_used_with_those_outputs() {
    let solo = vec![monitor("eDP-1", "AU", "B")];
    let docked = vec![monitor("eDP-1", "AU", "B"), monitor("DP-1", "Dell", "A")];

    let mut store = Store::default();
    store.record(snap(0, &signature(&solo)));
    store.record(snap(1920, &signature(&docked)));

    assert_eq!(store.recall_for(&solo).unwrap().layout, layout_at(0));
    assert_eq!(store.recall_for(&docked).unwrap().layout, layout_at(1920));
}

#[test]
fn recall_is_updated_not_appended() {
    let solo = vec![monitor("eDP-1", "AU", "B")];
    let sig = signature(&solo);
    let mut store = Store::default();
    store.record(snap(0, &sig));
    store.record(snap(500, &sig));

    assert_eq!(store.recall.len(), 1);
    assert_eq!(store.recall_for(&solo).unwrap().layout, layout_at(500));
}

#[test]
fn recall_survives_a_layout_being_pushed_out_of_the_history() {
    // The recall map is not bounded: a setup used long ago must still be
    // restored even once its history entry is gone.
    let old = vec![monitor("eDP-1", "AU", "OLD")];
    let mut store = Store::default();
    store.record(snap(42, &signature(&old)));
    for x in 1..10 {
        store.record(snap(x * 100, "other"));
    }
    assert_eq!(store.history.len(), CAPACITY);
    assert_eq!(store.recall_for(&old).unwrap().layout, layout_at(42));
}

#[test]
fn unknown_output_set_recalls_nothing() {
    let store = Store::default();
    assert!(store.recall_for(&[monitor("eDP-1", "AU", "B")]).is_none());
}

#[test]
fn an_ephemeral_store_never_writes_anywhere() {
    // Protects the user's real state file from tests and dry runs.
    let mut store = Store::ephemeral();
    store.record(snap(0, "sig"));
    assert_eq!(store.save_target(), None);
}

#[test]
fn ages_are_rendered_from_the_largest_fitting_unit() {
    assert_eq!(humanize(0, EN), "just now");
    assert_eq!(humanize(59, EN), "just now");
    assert_eq!(humanize(60, EN), "1 min ago");
    assert_eq!(humanize(3599, EN), "59 min ago");
    assert_eq!(humanize(3600, EN), "1 h ago");
    assert_eq!(humanize(86_400, EN), "1 d ago");
    assert_eq!(humanize(200_000, EN), "2 d ago");
}

#[test]
fn describe_lists_outputs_and_flags_disabled_ones() {
    let mut layout = layout_at(0);
    layout.outputs[0].enabled = false;
    let s = Snapshot::new(layout, "sig".into(), None, 0);
    assert_eq!(s.describe(EN), "DP-1 off");
    assert_eq!(snap(0, "sig").describe(EN), "DP-1 1920x1080@0x0");
}

#[test]
fn describe_distinguishes_rotations_that_share_a_logical_size() {
    // 90° and 270° both turn 1920x1080 into 1080x1920: without the
    // orientation, two different history entries would read the same.
    let rotated = |rotation, flipped| {
        let mut layout = layout_at(0);
        layout.outputs[0].transform = Transform::new(rotation, flipped);
        Snapshot::new(layout, "sig".into(), None, 0).describe(EN)
    };

    let ninety = rotated(Rotation::R90, false);
    let two_seventy = rotated(Rotation::R270, false);
    assert_ne!(ninety, two_seventy);
    assert!(ninety.contains("1080x1920"), "{ninety}");
    assert_ne!(rotated(Rotation::R90, true), ninety);
}

#[test]
fn describe_marks_mirrored_outputs() {
    let mut layout = layout_at(0);
    layout.outputs[0].mirror_of = Some("eDP-1".into());
    let described = Snapshot::new(layout, "sig".into(), None, 0).describe(EN);
    assert!(described.contains("⧉eDP-1"), "{described}");
}

#[test]
fn descriptions_are_in_the_order_of_their_text() {
    let mut layout = layout_at(5);
    layout.outputs.push(layout_at(0).outputs[0].clone());
    layout.outputs[1].name = "AA".into();
    let s = Snapshot::new(layout, "sig".into(), None, 0);
    assert_eq!(s.describe(EN), "AA 1920x1080@0x0, DP-1 1920x1080@5x0");
}

#[test]
fn a_clock_that_went_backwards_reads_as_now() {
    let mut s = snap(0, "sig");
    s.at = 1000;
    assert_eq!(s.age_secs(400), 0);
    assert_eq!(s.age_secs(1090), 90);
    assert_eq!(s.age_label(1090, Locale::Fr), "il y a 1 min");
}

#[test]
fn the_recall_map_is_kept_in_order() {
    let mut store = Store::default();
    for key in ["m", "a", "z", "m", "b"] {
        store.record(snap(1, key));
    }
    let keys: Vec<&str> = store.recall.iter().map(|r| r.signature.as_str()).collect();
    assert_eq!(keys, vec!["a", "b", "m", "z"]);
    let six: Vec<Snapshot> = (0..6).map(|x| snap(x, "k")).collect();
    let mut store = Store::with_history(six, Some("/tmp/state.json".into()));
    assert_eq!(store.history.len(), CAPACITY);
    assert_eq!(store.save_target(), Some("/tmp/state.json"));
    store.clear();
    assert!(store.history.is_empty() && store.recall.is_empty());
}

#[test]
fn history_entries_are_listed_and_found_by_position() {
    let mut store = Store::default();
    store.record(Snapshot::new(layout_at(0), "s".into(), Some("desk".into()), 100));
    store.record(Snapshot::new(layout_at(640), "s".into(), None, 200));
    let rows = cli::history_rows(&store, 260, EN);
    assert_eq!(rows[0].when, "1 min ago");
    assert_eq!(rows[0].profile, None);
    assert_eq!(rows[1].profile.as_deref(), Some("desk"));
    assert_eq!(rows[1].summary, "DP-1 1920x1080@0x0");
    assert_eq!(restorable(&store, 1).unwrap().layout, layout_at(0));
    let err = restorable(&store, 2).unwrap_err();
    assert_eq!(err.text(EN), "no history entry at position 2");
}

#[test]
fn a_known_set_of_screens_gets_its_layout_back() {
    let monitors = stacked();
    let mut layout = Layout::from_monitors(&monitors);
    layout.outputs[1].y = 1080;
    let mut store = Store::default();
    store.record(snapshot_of(layout.clone(), &monitors, None, 7));
    let mut config = Config::default();
    // On other connectors, and listed the other way round.
    let again = vec![monitor("HDMI-1", "Dell", "A"), monitor("DP-9", "AU", "B")];
    assert_eq!(
        choose_layout(&config, &store, &again).unwrap(),
        Origin::Recalled { layout: layout.clone() }
    );
    config.settings.remember = false;
    let arranged = choose_layout(&config, &store, &monitors).unwrap();
    assert!(matches!(arranged, Origin::Arranged { .. }));
    assert_eq!(arranged.layout().outputs[1].x, 1920);
}

#[test]
fn a_named_profile_outranks_what_was_remembered() {
    let monitors = stacked();
    let mut store = Store::default();
    store.record(snapshot_of(layout_at(99), &monitors, None, 7));
    let mut config = Config::default();
    config.upsert(Profile {
        name: "desk".into(),
        exact: false,
        outputs: vec![rule("eDP-1", Some("0x0")), rule("Dell*", Some("1920x0"))],
    });
    config.settings.primary = Some("Dell*".into());
    let origin = choose_layout(&config, &store, &monitors).unwrap();
    assert_eq!(origin.profile(), Some("desk"));
    // Anchored on the main screen.
    assert_eq!(origin.layout().outputs[0].x, -1920);
    assert_eq!(origin.layout().primary.as_deref(), Some("DP-1"));
    assert_eq!(origin.describe().text(EN), "Profile \"desk\" applied");
    assert!(origin.worth_notifying());
}

#[test]
fn a_state_that_works_is_left_alone() {
    let mut monitors = stacked();
    monitors[1].x = 1920;
    let mut config = Config::default();
    config.settings.primary = Some("Dell*".into());
    let origin = choose_layout(&config, &Store::default(), &monitors).unwrap();
    assert!(matches!(origin, Origin::Unchanged { .. }));
    assert!(!origin.worth_notifying());
    assert_eq!(origin.layout().primary.as_deref(), Some("DP-1"));
    assert_eq!(origin.layout().outputs[1].x, 1920);
}

#[test]
fn a_layout_that_does_not_fit_is_an_error() {
    let mut monitors = stacked();
    monitors[0].width = i32::MAX;
    monitors[1].width = i32::MAX;
    monitors.push(monitor("DP-2", "Acer", "C"));
    let err = choose_layout(&Config::default(), &Store::default(), &monitors).unwrap_err();
    assert_eq!(err.id, NoticeId::OutOfRange);
}

#[test]
fn a_second_apply_still_reverts_to_the_last_confirmed_layout() {
    let mut guard = Guard::new();
    assert_eq!(
        guard.applied(true, true, 10, layout_at(0), layout_at(1), None),
        FollowUp::Arm
    );
    assert_eq!(
        guard.applied(true, true, 10, layout_at(1), layout_at(2), Some("desk".into())),
        FollowUp::Arm
    );
    assert!(guard.revert_pending());
    assert_eq!(guard.revert(), Some(layout_at(0)));
    assert!(!guard.revert_pending());
    assert_eq!(guard.revert(), None);
}

#[test]
fn only_what_was_confirmed_is_filed() {
    let mut guard = Guard::new();
    guard.applied(true, true, 10, layout_at(0), layout_at(1), Some("desk".into()));
    assert_eq!(guard.confirm(), Some((layout_at(1), Some("desk".into()))));
    assert_eq!(guard.confirm(), None);
    // A failed application changes nothing of what is pending.
    guard.applied(true, true, 10, layout_at(0), layout_at(1), None);
    assert_eq!(
        guard.applied(false, true, 10, layout_at(1), layout_at(2), None),
        FollowUp::Leave
    );
    assert_eq!(guard.confirm(), Some((layout_at(1), None)));
    // A firm one, or one without a safety net, is filed at once.
    assert_eq!(
        guard.applied(true, false, 10, layout_at(0), layout_at(1), None),
        FollowUp::File
    );
    assert_eq!(
        guard.applied(true, true, 0, layout_at(0), layout_at(1), None),
        FollowUp::File
    );
    assert!(!guard.revert_pending());
}

#[test]
fn changes_are_summed_up_once_things_have_settled() {
    let mut watch = Watch::new();
    watch.on_event(&CompositorEvent::ConfigReloaded, 5);
    assert_eq!(watch.deadline, None);
    watch.on_event(&CompositorEvent::OutputAdded("DP-1".into()), 100);
    watch.on_event(&CompositorEvent::OutputAdded("DP-1".into()), 150);
    watch.on_event(&CompositorEvent::OutputAdded("DP-2".into()), 200);
    watch.on_event(&CompositorEvent::OutputRemoved("eDP-1".into()), 300);
    assert_eq!(watch.deadline, Some(300 + DEBOUNCE));
    assert_eq!(
        watch.on_settled(true, EN),
        Reaction::Reconcile("connected: DP-1, DP-2 · disconnected: eDP-1".into())
    );
    assert_eq!(watch.deadline, None);
    assert_eq!(
        watch.on_settled(false, EN),
        Reaction::Announce("displays changed".into())
    );
    let mut changes = Changes::default();
    changes.record(&CompositorEvent::OutputRemoved("DP-1".into()));
    assert_eq!(changes.take(Locale::Fr), "débranché : DP-1");
}

#[test]
fn announcements_say_where_a_layout_comes_from() {
    let recalled = Some(Origin::Recalled { layout: layout_at(0) });
    assert_eq!(
        announcement(&recalled).text(EN),
        "Restored the layout you last used with these displays"
    );
    let arranged = Some(Origin::Arranged { layout: layout_at(0) });
    assert_eq!(
        announcement(&arranged).text(EN),
        "No known layout: displays arranged left to right"
    );
    assert_eq!(announcement(&None).id, NoticeId::NotifyFailed);
}

#[test]
fn reconnecting_takes_longer_each_time() {
    let mut delay = RECONNECT_MIN;
    let mut seen = vec![delay];
    for _ in 0..8 {
        delay = next_backoff(delay);
        seen.push(delay);
    }
    assert_eq!(
        seen,
        vec![250, 500, 1000, 2000, 4000, 8000, 16000, RECONNECT_MAX, RECONNECT_MAX]
    );
}

#[test]
fn the_state_lies_under_the_state_directory() {
    let env = Environment {
        home: Some("/home/u".into()),
        config_home: None,
        desktop: None,
        hyprland_signature: false,
        sway_socket: false,
    };
    assert_eq!(state_path(None, &env), "/home/u/.local/state/hyprdmc/state.json");
    assert_eq!(state_path(Some("/s"), &env), "/s/hyprdmc/state.json");
}

fn said(outgoing: Outgoing) -> (String, NoticeId) {
    match outgoing {
        Outgoing::Announce(summary, detail) => (summary, detail.id),
        other => panic!("unexpected: {other:?}"),
    }
}

#[test]
fn startup_is_only_announced_if_something_moved() {
    let mut daemon = Daemon::new();
    assert!(matches!(daemon.react(Incoming::Started, true, EN), Outgoing::Reconcile));
    let quiet = Incoming::Reconciled(Some(Origin::Unchanged { layout: layout_at(0) }));
    assert!(matches!(daemon.react(quiet, true, EN), Outgoing::Nothing));

    let mut daemon = Daemon::new();
    daemon.react(Incoming::Started, true, EN);
    let moved = Incoming::Reconciled(Some(Origin::Recalled { layout: layout_at(0) }));
    assert_eq!(said(daemon.react(moved, true, EN)).1, NoticeId::OriginRecalled);

    let mut daemon = Daemon::new();
    daemon.react(Incoming::Started, true, EN);
    assert!(matches!(daemon.react(Incoming::Reconciled(None), true, EN), Outgoing::Nothing));
}

#[test]
fn hotplug_is_answered_once_it_has_settled() {
    let mut daemon = Daemon::new();
    assert!(matches!(daemon.react(Incoming::Started, false, EN), Outgoing::Nothing));
    let added = CompositorEvent::OutputAdded("DP-1".into());
    assert!(matches!(daemon.react(Incoming::Event(added, 1000), true, EN), Outgoing::Nothing));
    assert_eq!(daemon.watch.deadline, Some(1000 + DEBOUNCE));
    let other = CompositorEvent::Other("workspace".into());
    assert!(matches!(daemon.react(Incoming::Event(other, 1200), true, EN), Outgoing::Nothing));
    assert_eq!(daemon.watch.deadline, Some(1000 + DEBOUNCE));

    assert!(matches!(daemon.react(Incoming::Settled, true, EN), Outgoing::Reconcile));
    assert_eq!(daemon.watch.deadline, None);
    let (summary, detail) = said(daemon.react(Incoming::Reconciled(None), true, EN));
    assert!(summary.contains("DP-1"));
    assert_eq!(detail, NoticeId::NotifyFailed);
    assert!(matches!(daemon.react(Incoming::Stop, true, EN), Outgoing::Exit));
}

#[test]
fn without_automatic_application_a_change_is_only_announced() {
    let mut daemon = Daemon::new();
    daemon.react(Incoming::Started, false, EN);
    let removed = CompositorEvent::OutputRemoved("DP-1".into());
    daemon.react(Incoming::Event(removed, u64::MAX), false, EN);
    assert_eq!(daemon.watch.deadline, Some(u64::MAX));
    let (summary, detail) = said(daemon.react(Incoming::Settled, false, EN));
    assert!(summary.contains("DP-1"));
    assert_eq!(detail, NoticeId::NotifyManual);
}

#[test]
fn a_change_without_a_name_is_found_by_comparing() {
    let reload = || Incoming::Event(CompositorEvent::ConfigReloaded, 900);
    let names = |all: &[&str]| all.iter().map(|n| n.to_string()).collect::<Vec<String>>();
    let mut daemon = Daemon::new();
    daemon.react(Incoming::Outputs(names(&["eDP-1", "DP-1"]), 0), true, EN);
    assert_eq!(daemon.watch.deadline, None);
    daemon.react(Incoming::Started, false, EN);

    // Nothing came or went.
    assert!(matches!(daemon.react(reload(), true, EN), Outgoing::Reread));
    let same = Incoming::Outputs(names(&["DP-1", "eDP-1"]), 1000);
    assert!(matches!(daemon.react(same, true, EN), Outgoing::Nothing));
    assert_eq!(daemon.watch.deadline, None);

    // One screen was replaced by another.
    daemon.react(reload(), true, EN);
    daemon.react(Incoming::Outputs(names(&["eDP-1", "HDMI-A-1"]), 2000), true, EN);
    assert_eq!(daemon.watch.deadline, Some(2000 + DEBOUNCE));
    assert_eq!(daemon.watch.changes.added, ["HDMI-A-1"]);
    assert_eq!(daemon.watch.changes.removed, ["DP-1"]);

    // What an event named is known already.
    let mut daemon = Daemon::new();
    daemon.react(Incoming::Outputs(names(&["eDP-1"]), 0), true, EN);
    let added = CompositorEvent::OutputAdded("DP-1".into());
    daemon.react(Incoming::Event(added, 10), true, EN);
    daemon.react(Incoming::Settled, false, EN);
    daemon.react(Incoming::Outputs(names(&["eDP-1", "DP-1"]), 900), true, EN);
    assert_eq!(daemon.watch.deadline, None);
    let removed = CompositorEvent::OutputRemoved("DP-1".into());
    daemon.react(Incoming::Event(removed, 1000), true, EN);
    assert_eq!(daemon.known, Some(names(&["eDP-1"])));
}

/// Two adjacent screens — a layout that needs no fixing.
fn two() -> Vec<Monitor> {
    let mut left = monitor("eDP-1", "AU", "L1");
    left.model = "X".into();
    let mut right = monitor("DP-1", "Dell", "D1");
    right.id = 1;
    right.model = "U".into();
    right.x = 1920;
    vec![left, right]
}

fn desk() -> Config {
    let mut config = Config::default();
    config.upsert(Profile {
        name: "desk".into(),
        exact: false,
        outputs: vec![rule("eDP-1", Some("0x0")), rule("Dell*", Some("1920x0"))],
    });
    config
}

fn store_with(layout: Layout, monitors: &[Monitor]) -> Store {
    let mut store = Store::ephemeral();
    store.record(Snapshot::new(layout, signature(monitors), None, 0));
    store
}

#[test]
fn a_known_output_set_recalls_its_layout() {
    let monitors = two();
    // Pretend the user once stacked the screens vertically.
    let mut stacked = Layout::from_monitors(&monitors);
    stacked.get_mut("DP-1").unwrap().x = 0;
    stacked.get_mut("DP-1").unwrap().y = 1080;
    let store = store_with(stacked.clone(), &monitors);
    let origin = choose_layout(&Config::default(), &store, &monitors).unwrap();
    assert!(matches!(origin, Origin::Recalled { .. }));
    assert_eq!(origin.layout(), &stacked);
}

#[test]
fn a_named_profile_outranks_the_recalled_layout() {
    // An explicit choice must win over an implicit one.
    let monitors = two();
    let mut stacked = Layout::from_monitors(&monitors);
    stacked.get_mut("DP-1").unwrap().y = 1080;
    let store = store_with(stacked, &monitors);
    assert_eq!(choose_layout(&desk(), &store, &monitors).unwrap().profile(), Some("desk"));
}

#[test]
fn the_main_screen_is_stamped_on_whatever_layout_wins() {
    // Including a layout recalled from the store, which was recorded before the
    // choice existed.
    let mut config = Config::default();
    config.settings.primary = Some("Dell*".into());
    let monitors = two();
    let stacked = Layout::from_monitors(&monitors);
    assert_eq!(stacked.primary, None, "the live state knows nothing of it");
    let store = store_with(stacked, &monitors);
    let origin = choose_layout(&config, &store, &monitors).unwrap();
    assert!(matches!(origin, Origin::Recalled { .. }));
    assert_eq!(origin.layout().primary.as_deref(), Some("DP-1"));
}

#[test]
fn a_profile_is_anchored_on_the_main_screen() {
    let mut config = desk();
    config.settings.primary = Some("Dell*".into());
    let origin = choose_layout(&config, &Store::ephemeral(), &two()).unwrap();
    assert_eq!(origin.profile(), Some("desk"));
    let layout = origin.layout();
    assert_eq!(layout.get("DP-1").unwrap().x, 0);
    assert_eq!(layout.get("eDP-1").unwrap().x, -1920);
    assert!(!layout.has_errors());
}

#[test]
fn recall_can_be_switched_off() {
    let mut config = Config::default();
    config.settings.remember = false;
    let monitors = two();
    let mut stacked = Layout::from_monitors(&monitors);
    stacked.get_mut("DP-1").unwrap().y = 1080;
    let store = store_with(stacked, &monitors);
    let origin = choose_layout(&config, &store, &monitors).unwrap();
    assert!(matches!(origin, Origin::Unchanged { .. }));
}

#[test]
fn an_unknown_output_set_is_left_alone_when_already_usable() {
    let origin = choose_layout(&Config::default(), &Store::ephemeral(), &two()).unwrap();
    assert!(matches!(origin, Origin::Unchanged { .. }));
}

#[test]
fn reconcile_without_profile_keeps_a_valid_layout() {
    // Two adjacent screens are already a usable layout: nothing to do.
    let origin = choose_layout(&Config::default(), &Store::ephemeral(), &two()).unwrap();
    assert!(matches!(origin, Origin::Unchanged { .. }));
    assert!(!origin.worth_notifying());
}

#[test]
fn reconcile_picks_the_matching_profile() {
    let origin = choose_layout(&desk(), &Store::ephemeral(), &two()).unwrap();
    assert_eq!(origin.profile(), Some("desk"));
    assert!(origin.worth_notifying());
}

#[test]
fn guarded_apply_arms_a_revert_that_confirm_cancels() {
    let layout = Layout::from_monitors(&two());
    let mut guard = Guard::new();
    guard.applied(true, true, 60, layout.clone(), layout, None);
    assert!(guard.revert_pending());
    assert!(guard.confirm().is_some());
    assert!(!guard.revert_pending());
}

#[test]
fn unguarded_apply_leaves_nothing_pending() {
    let layout = Layout::from_monitors(&two());
    let mut guard = Guard::new();
    guard.applied(true, false, 60, layout.clone(), layout, None);
    assert!(!guard.revert_pending());
}

#[test]
fn restore_reapplies_a_history_entry() {
    let monitors = two();
    let layout = Layout::from_monitors(&monitors);
    let store = store_with(layout.clone(), &monitors);
    assert_eq!(restorable(&store, 0).unwrap().layout, layout);
    assert!(restorable(&store, 9).is_err());
}

#[test]
fn applying_an_unknown_profile_is_rejected() {
    let err = cli::apply_profile(&Config::default(), "absent", &two()).unwrap_err();
    assert!(err.text(EN).contains("unknown profile"));
}

#[test]
fn a_request_is_built_around_the_main_screen_it_names() {
    let outputs = Layout::from_monitors(&two()).outputs;
    let drawn = requested_layout(Layout::from_monitors(&two()).outputs, None).unwrap();
    assert_eq!(drawn.outputs, outputs);
    assert_eq!(drawn.primary, None);
    let built = requested_layout(outputs, Some("DP-1".into())).unwrap();
    assert_eq!(built.primary.as_deref(), Some("DP-1"));
    assert_eq!(built.get("DP-1").unwrap().x, 0);
    assert_eq!(built.get("eDP-1").unwrap().x, -1920);

    let mut far = Layout::from_monitors(&two()).outputs;
    far[0].x = i32::MIN;
    let err = requested_layout(far, Some("DP-1".into())).unwrap_err();
    assert_eq!(err.id, NoticeId::OutOfRange);
}

#[test]
fn a_requested_main_screen_is_recorded_by_its_fingerprint() {
    let mut config = Config::default();
    record_primary(&mut config, Some("DP-1"), &two()).unwrap();
    assert_eq!(config.settings.primary.as_deref(), Some("Dell U D1"));
    let err = record_primary(&mut config, Some("HDMI-A-1"), &two()).unwrap_err();
    assert_eq!(err.id, NoticeId::UnknownConnector);
    assert_eq!(config.settings.primary.as_deref(), Some("Dell U D1"));
    record_primary(&mut config, None, &two()).unwrap();
    assert_eq!(config.settings.primary, None);
}

#[test]
fn the_description_counts_only_where_nothing_else_is_known() {
    let left = monitor("eDP-1", "AU", "B");
    let right = monitor("DP-1", "Dell", "A");
    let mut moved = monitor("HDMI-A-1", " Dell ", "A");
    moved.description = "something else".into();
    assert_eq!(signature(&[left.clone(), right]), signature(&[moved, left]));

    let mut bare = monitor("DP-1", "", "");
    bare.model = String::new();
    bare.description = " Acme 27 ".into();
    let mut elsewhere = bare.clone();
    elsewhere.name = "DP-9".into();
    assert_eq!(signature(&[bare.clone()]), signature(&[elsewhere.clone()]));
    elsewhere.description = "Acme 32".into();
    assert_ne!(signature(&[bare]), signature(&[elsewhere]));
}
