use hyprdmc::cli::requires_generated_file;
use hyprdmc::compositor::hyprland::{monitors_header, Hyprland};
use hyprdmc::compositor::sway::Sway;
use hyprdmc::compositor::Compositor;
use hyprdmc::emit::{
    backup_name, delimiter_delta, must_write, plan_init, plan_init_all, render, render_input,
    run_init, temporary_name, tildify, InitReport,
};
use hyprdmc::fixed::Fixed;
use hyprdmc::i18n::Locale;
use hyprdmc::input::InputConfig;
use hyprdmc::layout::{Layout, OutputState};
use hyprdmc::monitor::{Mode, Rotation, Transform};
use hyprdmc::path::{are_neighbours, components_of, join_path, name_of, stem_of};

const EN: Locale = Locale::En;
const HOME: &str = "/home/u";
const HYPRLAND_LUA: &str = "/home/u/.config/hypr/hyprland.lua";
const MONITORS_LUA: &str = "/home/u/.config/hypr/monitors.lua";
const INPUT_LUA: &str = "/home/u/.config/hypr/inputs.lua";

fn fixed(v: f64) -> Fixed {
    Fixed::from_nanos((v * 1e9).round() as i64)
}

fn out(name: &str, x: i32, y: i32) -> OutputState {
    OutputState {
        name: name.into(),
        enabled: true,
        mode: Some(Mode::new(1920, 1080, fixed(60.0))),
        x,
        y,
        scale: fixed(1.0),
        transform: Transform::default(),
        mirror_of: None,
        vrr: false,
    }
}

fn plan(conf: &str) -> InitReport {
    plan_init(&Hyprland, conf, HYPRLAND_LUA, MONITORS_LUA, HOME, EN)
}

#[test]
fn render_emits_one_directive_per_output() {
    let mut b = out("DP-1", 1920, 0);
    b.transform = Transform::new(Rotation::R90, false);
    let layout = Layout::new(vec![out("eDP-1", 0, 0), b]);
    let text = render(&Hyprland, &layout, EN);
    assert!(text.starts_with("-- Generated by hyprdmc"));
    assert!(text.contains("output = \"eDP-1\""));
    assert!(text.contains("position = \"1920x0\", scale = 1, transform = 1"));
    assert_eq!(
        text.lines()
            .filter(|l| l.starts_with("hl.monitor("))
            .count(),
        2
    );
}

#[test]
fn the_same_layout_renders_for_another_compositor() {
    // The point of the seam: one layout, two syntaxes, no branch in here.
    let layout = Layout::new(vec![out("eDP-1", 0, 0), out("DP-1", 1920, 0)]);
    let text = render(&Sway, &layout, EN);
    assert!(
        text.starts_with("# Generated by hyprdmc"),
        "the header takes the compositor's comment marker: {text}"
    );
    assert!(text.contains(r#"output "eDP-1" enable mode 1920x1080@60.000Hz position 0 0"#));
    assert_eq!(text.lines().filter(|l| l.starts_with("output ")).count(), 2);
    assert!(
        !text.contains("hl.monitor"),
        "no Lua leaked into a sway file"
    );
}

#[test]
fn the_main_screen_is_recorded_as_a_comment_in_either_syntax() {
    let layout = Layout::new(vec![out("eDP-1", 0, 0), out("DP-1", 1920, 0)])
        .with_primary(Some("DP-1".into()));
    assert!(render(&Hyprland, &layout, EN).contains("-- main screen: DP-1"));
    assert!(render(&Sway, &layout, EN).contains("# main screen: DP-1"));

    let plain = render(&Hyprland, &Layout::new(vec![out("eDP-1", 0, 0)]), EN);
    assert!(!plain.contains("main screen"));
}

#[test]
fn the_input_file_carries_only_input_settings() {
    let input = InputConfig {
        kb_layout: "fr".into(),
        kb_variant: "oss".into(),
        kb_options: String::new(),
        natural_scroll: false,
        touchpad_natural_scroll: true,
    };
    let text = render_input(&Hyprland, &input, EN);
    assert!(text.starts_with("-- Generated by hyprdmc"));
    assert!(text.contains(r#"kb_layout = "fr""#));
    assert!(
        !text.contains("hl.monitor("),
        "a screen has no business in the input file"
    );

    let sway = render_input(&Sway, &input, EN);
    assert!(sway.starts_with("# Generated by hyprdmc"));
    assert!(sway.contains("input type:keyboard {"));
    assert!(sway.contains(r#"xkb_layout "fr""#));
}

#[test]
fn wiring_several_files_adds_one_include_each() {
    let report = plan_init_all(
        &Hyprland,
        "-- my config\n",
        HYPRLAND_LUA,
        &vec![MONITORS_LUA.to_string(), INPUT_LUA.to_string()],
        HOME,
        EN,
    );
    assert!(!report.already_wired);
    assert!(report.new_conf.contains(r#"require("monitors")"#));
    assert!(report.new_conf.contains(r#"require("inputs")"#));
}

#[test]
fn a_file_already_wired_is_not_wired_twice() {
    let step = plan("require(\"monitors\")\n");
    assert!(step.already_wired);
    assert_eq!(step.new_conf.matches(r#"require("monitors")"#).count(), 1);
}

#[test]
fn render_disables_switched_off_screens() {
    let mut a = out("eDP-1", 0, 0);
    a.enabled = false;
    let layout = Layout::new(vec![a, out("DP-1", 0, 0)]);
    assert!(render(&Hyprland, &layout, EN)
        .contains("hl.monitor({ output = \"eDP-1\", disabled = true })\n"));
    assert!(render(&Sway, &layout, EN).contains("output \"eDP-1\" disable\n"));
}

#[test]
fn generated_file_is_valid_for_a_layout_with_quotes_in_it() {
    let mut a = out("desc:Acme \"27\"", 0, 0);
    a.mirror_of = Some("eDP-1".into());
    let text = render(&Hyprland, &Layout::new(vec![a]), EN);
    assert!(text.contains(r#"output = "desc:Acme \"27\"""#));
}

const SAMPLE: &str = r#"-- my config
require("colors")
require("binds")

hl.monitor({
    output   = "eDP-1",
    mode     = "preferred",
    position = "auto",
    scale    = "auto",
})

hl.config({ general = { gaps_in = 5 } })
"#;

#[test]
fn init_takes_the_place_of_the_monitor_configuration() {
    let report = plan(SAMPLE);
    let lines: Vec<&str> = report.new_conf.lines().collect();
    let req = lines
        .iter()
        .position(|l| l.trim() == r#"require("monitors")"#)
        .unwrap();
    let last_commented = lines.iter().rposition(|l| l.contains("-- })")).unwrap();
    assert_eq!(req, last_commented + 1);
}

#[test]
fn init_adopts_a_multi_line_call_as_one_entry() {
    let report = plan(SAMPLE);
    assert_eq!(report.adopted.len(), 1);
    assert!(report.adopted[0].starts_with("hl.monitor({"));
    assert!(report.adopted[0].contains(r#"output   = "eDP-1","#));
    // Not a single live `hl.monitor` call left.
    assert!(!report
        .new_conf
        .lines()
        .any(|l| !l.trim().starts_with("--") && l.contains("hl.monitor(")));
}

#[test]
fn init_adopts_a_single_line_call_too() {
    let report = plan("hl.monitor({ output = \"DP-1\", scale = 1 })\n");
    assert_eq!(
        report.adopted,
        vec!["hl.monitor({ output = \"DP-1\", scale = 1 })"]
    );
    assert!(report
        .new_conf
        .contains("-- hl.monitor({ output = \"DP-1\""));
}

#[test]
fn init_adopts_a_one_line_syntax_without_delimiters_too() {
    // sway's directives never open a brace, so the block tracker has to
    // close them on their own line rather than swallowing the rest of the
    // file.
    let conf = "# my config\ninclude colors\noutput DP-1 mode 1920x1080 position 0 0\nbindsym Mod4+Return exec foot\n";
    let generated = "/home/u/.config/sway/monitors.conf";
    let report = plan_init(&Sway, conf, "/home/u/.config/sway/config", generated, HOME, EN);

    assert_eq!(
        report.adopted,
        vec!["output DP-1 mode 1920x1080 position 0 0"]
    );
    assert!(
        report.new_conf.contains("# output DP-1 mode"),
        "the directive is commented out: {}",
        report.new_conf
    );
    assert!(
        report.new_conf.contains("bindsym Mod4+Return exec foot"),
        "everything after it must survive untouched: {}",
        report.new_conf
    );
    // The include the plugin wrote is one the plugin recognises again, which
    // is what makes `init` idempotent whatever the syntax.
    let added = report
        .new_conf
        .lines()
        .find(|l| Sway.includes(l, generated))
        .expect("an include was added");
    assert!(added.starts_with("include "), "{added}");
    assert!(plan_init(&Sway, &report.new_conf, "/x/config", generated, HOME, EN).already_wired);
}

#[test]
fn init_is_idempotent() {
    let first = plan(SAMPLE);
    let second = plan(&first.new_conf);
    assert!(second.already_wired);
    assert_eq!(second.new_conf, first.new_conf);
}

#[test]
fn init_ignores_commented_out_calls() {
    let conf = "-- hl.monitor({ output = \"eDP-1\" })\n-- require(\"monitors\")\n";
    let report = plan(conf);
    assert!(!report.already_wired);
    assert!(report.adopted.is_empty());
    assert!(report
        .new_conf
        .lines()
        .any(|l| l.trim() == r#"require("monitors")"#));
}

#[test]
fn init_falls_back_to_the_last_include_then_to_the_top() {
    let after_include = plan("require(\"colors\")\nhl.config({})\n");
    assert_eq!(
        after_include.new_conf.lines().nth(1).unwrap(),
        r#"require("monitors")"#
    );

    let at_the_top = plan("hl.config({})\n");
    assert!(at_the_top.new_conf.starts_with("require(\"monitors\")\n"));
}

#[test]
fn a_generated_file_outside_the_config_directory_is_loaded_by_path() {
    assert_eq!(
        Hyprland.include_statement(HYPRLAND_LUA, "/srv/shared/screens.lua", HOME),
        r#"dofile("/srv/shared/screens.lua")"#
    );
}

#[test]
fn delimiter_counting_ignores_trailing_comments() {
    assert_eq!(delimiter_delta("hl.monitor({", "--"), 2);
    assert_eq!(delimiter_delta("}) -- (see above)", "--"), -2);
    assert_eq!(delimiter_delta("hl.monitor({ output = \"X\" })", "--"), 0);
    // A `#` comment must not be cut at a Lua marker, and vice versa.
    assert_eq!(delimiter_delta("output DP-1 # (note)", "#"), 0);
}

#[test]
fn nothing_is_lost_even_of_a_broken_file() {
    let conf = "a = 1\nhl.monitor({\n  output = \"X\",\nb = 2";
    let report = plan(conf);
    assert_eq!(
        report.new_conf,
        "require(\"monitors\")\na = 1\n-- hyprdmc: moved to monitors.lua\n-- hl.monitor({\n--   output = \"X\",\n-- b = 2"
    );
    assert_eq!(report.adopted, vec!["hl.monitor({ output = \"X\", b = 2"]);
    // An empty file gets the statement and a line end of its own.
    assert_eq!(plan("").new_conf, "require(\"monitors\")");
    assert_eq!(plan("\n").new_conf, "require(\"monitors\")\n\n");
}

#[test]
fn windows_line_ends_are_read_as_line_ends() {
    let report = plan("require(\"colors\")\r\nx = 1\r\n");
    assert_eq!(report.new_conf, "require(\"colors\")\nrequire(\"monitors\")\nx = 1\n");
}

#[test]
fn a_pass_is_written_only_when_it_changes_something() {
    let report = run_init(&Hyprland, "x = 1\n", HYPRLAND_LUA, MONITORS_LUA, HOME, EN);
    assert!(must_write(&report, false));
    assert!(!must_write(&report, true));
    let again = run_init(&Hyprland, &report.new_conf, HYPRLAND_LUA, MONITORS_LUA, HOME, EN);
    assert!(!must_write(&again, false));
    assert!(requires_generated_file(&Hyprland, &report.new_conf, MONITORS_LUA));
    assert!(!requires_generated_file(&Hyprland, "x = 1\n", MONITORS_LUA));
}

#[test]
fn names_of_the_files_beside_a_file() {
    assert_eq!(backup_name("hyprland.lua"), "hyprland.lua.hyprdmc.bak");
    assert_eq!(
        temporary_name(Some("monitors.lua"), 42, 7),
        ".monitors.lua.hyprdmc.42.7.tmp"
    );
    assert_eq!(temporary_name(None, 0, 0), ".out.hyprdmc.0.0.tmp");
    assert_eq!(tildify("/home/u/.config//hypr/./x.lua/", HOME), "~/.config//hypr/./x.lua");
    assert_eq!(tildify("/etc/x.lua", HOME), "/etc/x.lua");
    assert_eq!(tildify("/home/user/x", HOME), "/home/user/x");
}

#[test]
fn paths_are_taken_apart_like_the_system_does() {
    assert_eq!(components_of("/a//b/./c/"), vec!["/", "a", "b", "c"]);
    assert_eq!(components_of("./a"), vec![".", "a"]);
    assert_eq!(name_of("/a/b/"), Some("b".to_string()));
    assert_eq!(name_of("/"), None);
    assert_eq!(name_of(".."), None);
    assert_eq!(name_of(""), None);
    assert_eq!(stem_of("monitors.lua"), "monitors");
    assert_eq!(stem_of(".hidden"), ".hidden");
    assert_eq!(stem_of("a.b.c"), "a.b");
    assert!(are_neighbours("/a/x", "/a//y"));
    assert!(!are_neighbours("/a/x", "/b/x"));
    assert!(!are_neighbours("/", "/"));
    assert_eq!(join_path("/a", "b"), "/a/b");
    assert_eq!(join_path("/a/", "b"), "/a/b");
    assert_eq!(join_path("/a", "/b"), "/b");
    assert_eq!(join_path("", "b"), "b");
}

#[test]
fn the_header_is_in_the_language_of_the_user() {
    assert!(monitors_header(Locale::En).contains("DO NOT EDIT"));
    assert!(monitors_header(Locale::Fr).contains("NE PAS MODIFIER"));
}

#[test]
fn another_file_with_a_longer_name_wires_nothing() {
    let generated = "/home/u/.config/hypr/monitors.lua";
    let conf = "require(\"monitors_old\")\n";
    let main = "/home/u/.config/hypr/hyprland.lua";
    let report = plan_init(&Hyprland, conf, main, generated, "/home/u", EN);
    assert!(!report.already_wired);
    assert!(report.new_conf.contains("require(\"monitors\")"));
}
