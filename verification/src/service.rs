//! Autostart: the systemd user service.
//!
//! One *user* unit, with nothing distribution-specific in it. The unit is
//! generated rather than copied, because the one line that matters is the path
//! to the binary, and that path depends on how it was installed.

use vstd::prelude::*;

use crate::env::Environment;
use crate::i18n::Locale;
use crate::notice::{note, Notice, NoticeId};
use crate::path::{is_rooted, join_path, path_join};
use crate::text::{begins, join, joined, starts_with, trim, trimmed, views};

verus! {

/// Unit file name, both on disk and for `systemctl`.
pub open spec fn unit_name() -> Seq<char> {
    "hyprdmc.service"@
}

pub fn unit() -> (r: &'static str)
    ensures
        r@ == unit_name(),
{
    "hyprdmc.service"
}

/// Target the unit hooks onto by default.
///
/// It is the conventional one, but it is only reached if something in the
/// session activates it, which is why an installation reports on it.
pub fn default_target() -> (r: &'static str)
    ensures
        r@ == "graphical-session.target"@,
{
    "graphical-session.target"
}

/// The unit for a binary and a target.
pub open spec fn unit_text(exec: Seq<char>, wanted_by: Seq<char>, locale: Locale) -> Seq<char> {
    "# "@ + note(NoticeId::ServiceGenerated, seq![]).said(locale)
        + "\n[Unit]\nDescription=Dynamic monitor configuration for Hyprland\nDocumentation=https://github.com/jacquesh82/hyprdmc\nPartOf="@
        + wanted_by + "\nAfter="@ + wanted_by
        + "\n# Hyprland's socket is often not up yet on the first tries after\n# login — especially when hooked onto default.target, which systemd\n# reaches long before the compositor exists. Roughly a minute of\n# retries, then it gives up rather than spinning forever.\nStartLimitIntervalSec=120\nStartLimitBurst=20\n\n[Service]\nType=simple\nExecStart="@
        + exec
        + " daemon\nRestart=on-failure\nRestartSec=3\nSlice=session.slice\n\n[Install]\nWantedBy="@
        + wanted_by + "\n"@
}

/// Renders the unit for a given binary path.
///
/// Kept pure so the content can be shown before anything is written.
pub fn render_unit(exec: &str, wanted_by: &str, locale: Locale) -> (r: String)
    ensures
        r@ == unit_text(exec@, wanted_by@, locale),
{
    let mut s = "# ".to_owned();
    s.append(Notice::plain(NoticeId::ServiceGenerated).text(locale).as_str());
    s.append(
        "\n[Unit]\nDescription=Dynamic monitor configuration for Hyprland\nDocumentation=https://github.com/jacquesh82/hyprdmc\nPartOf=",
    );
    s.append(wanted_by);
    s.append("\nAfter=");
    s.append(wanted_by);
    s.append(
        "\n# Hyprland's socket is often not up yet on the first tries after\n# login — especially when hooked onto default.target, which systemd\n# reaches long before the compositor exists. Roughly a minute of\n# retries, then it gives up rather than spinning forever.\nStartLimitIntervalSec=120\nStartLimitBurst=20\n\n[Service]\nType=simple\nExecStart=",
    );
    s.append(exec);
    s.append(
        " daemon\nRestart=on-failure\nRestartSec=3\nSlice=session.slice\n\n[Install]\nWantedBy=",
    );
    s.append(wanted_by);
    s.append("\n");
    s
}

/// `$XDG_CONFIG_HOME/systemd/user`, or the usual fallback.
pub fn unit_dir(env: &Environment) -> (r: String)
    ensures
        r@ == path_join(env.config_root(), "systemd/user"@),
{
    env.config_subdir("systemd/user")
}

pub fn unit_path(env: &Environment) -> (r: String)
    ensures
        r@ == path_join(path_join(env.config_root(), "systemd/user"@), unit_name()),
{
    join_path(unit_dir(env).as_str(), unit())
}

/// Path of the running binary, for `ExecStart`.
///
/// A relative path would be resolved against systemd's working directory, not
/// the shell's, so this insists on an absolute one.
pub fn executable(exe: &str) -> (r: Result<String, Notice>)
    ensures
        match r {
            Ok(p) => is_rooted(exe@) && p@ == exe@,
            Err(e) => !is_rooted(exe@) && e@ == note(NoticeId::RelativeExecutable, seq![exe@]),
        },
{
    proof {
        reveal_strlit("/");
        if exe@.len() > 0 {
            assert(exe@.subrange(0, 1) =~= seq![exe@[0]]);
        }
        if starts_with(exe@, "/"@) {
            assert("/"@[0] == '/');
        }
        if is_rooted(exe@) {
            assert(exe@.subrange(0, 1) =~= "/"@);
        }
    }
    if begins(exe, "/") {
        Ok(exe.to_owned())
    } else {
        Err(Notice::one(NoticeId::RelativeExecutable, exe))
    }
}

/// What an installation writes and runs.
#[derive(Debug, Clone, PartialEq, Eq)]
pub struct InstallPlan {
    pub path: String,
    pub content: String,
    /// Whether the unit is enabled and started once systemd has read it.
    pub enable: bool,
}

/// Prepares an installation: the unit to write, and whether to enable it. It
/// needs systemd, and a binary with an absolute path.
pub fn install(
    systemd: bool,
    exe: &str,
    wanted_by: &str,
    enable: bool,
    env: &Environment,
    locale: Locale,
) -> (r: Result<InstallPlan, Notice>)
    ensures
        match r {
            Ok(p) => systemd && is_rooted(exe@) && p.path@ == path_join(
                path_join(env.config_root(), "systemd/user"@),
                unit_name(),
            ) && p.content@ == unit_text(exe@, wanted_by@, locale) && p.enable == enable,
            Err(e) => if !systemd {
                e@ == note(NoticeId::NoSystemd, seq![])
            } else {
                !is_rooted(exe@) && e@ == note(NoticeId::RelativeExecutable, seq![exe@])
            },
        },
{
    if !systemd {
        return Err(Notice::plain(NoticeId::NoSystemd));
    }
    match executable(exe) {
        Ok(exec) => Ok(
            InstallPlan {
                path: unit_path(env),
                content: render_unit(exec.as_str(), wanted_by, locale),
                enable,
            },
        ),
        Err(e) => Err(e),
    }
}

pub open spec fn reload_args() -> Seq<Seq<char>> {
    seq!["daemon-reload"@]
}

pub open spec fn enable_args() -> Seq<Seq<char>> {
    seq!["enable"@, "--now"@, unit_name()]
}

pub open spec fn disable_args() -> Seq<Seq<char>> {
    seq!["disable"@, "--now"@, unit_name()]
}

/// Has systemd re-read its units.
pub fn reload_command() -> (r: Vec<String>)
    ensures
        views(r@) == reload_args(),
{
    let mut r: Vec<String> = Vec::new();
    r.push("daemon-reload".to_owned());
    assert(views(r@) =~= reload_args());
    r
}

/// Enables the unit and starts it.
pub fn enable_command() -> (r: Vec<String>)
    ensures
        views(r@) == enable_args(),
{
    let mut r: Vec<String> = Vec::new();
    r.push("enable".to_owned());
    r.push("--now".to_owned());
    r.push(unit().to_owned());
    assert(views(r@) =~= enable_args());
    r
}

/// Disables the unit and stops it.
pub fn disable_command() -> (r: Vec<String>)
    ensures
        views(r@) == disable_args(),
{
    let mut r: Vec<String> = Vec::new();
    r.push("disable".to_owned());
    r.push("--now".to_owned());
    r.push(unit().to_owned());
    assert(views(r@) =~= disable_args());
    r
}

/// The error for a `systemctl` command that failed, with what it printed.
pub fn systemctl_rejected(args: &Vec<String>, stderr: &str) -> (r: Notice)
    ensures
        r@ == note(NoticeId::SystemctlRejected, seq![join(views(args@), " "@), trim(stderr@)]),
{
    Notice::two(
        NoticeId::SystemctlRejected,
        joined(args, " ").as_str(),
        trimmed(stderr).as_str(),
    )
}

/// What an installation did, so the caller can report it in the user's language.
#[derive(Debug, Clone, PartialEq, Eq)]
pub struct Installed {
    pub path: String,
    pub enabled: bool,
    /// The unit was written, but its target is not active in this session, so
    /// it will not start on its own until that is fixed.
    pub target_inactive: bool,
}

/// What an installation that went through did.
pub fn installed(plan: InstallPlan, target_active: bool) -> (r: Installed)
    ensures
        r.path@ == plan.path@,
        r.enabled == plan.enable,
        r.target_inactive == !target_active,
{
    Installed { path: plan.path, enabled: plan.enable, target_inactive: !target_active }
}

/// What has to be done to remove the unit.
#[derive(Debug, Clone, Copy, PartialEq, Eq, Structural)]
pub enum Removal {
    /// There is none.
    Nothing,
    /// The file alone: no systemd is there to be told.
    File,
    /// Disable it as far as possible, remove the file, have systemd re-read.
    DisableFileReload,
}

pub fn uninstall(present: bool, systemd: bool) -> (r: Removal)
    ensures
        r == if !present {
            Removal::Nothing
        } else if systemd {
            Removal::DisableFileReload
        } else {
            Removal::File
        },
{
    if !present {
        Removal::Nothing
    } else if systemd {
        Removal::DisableFileReload
    } else {
        Removal::File
    }
}

/// Where the unit is, and what systemd makes of it.
#[derive(Debug, Clone)]
pub struct Status {
    pub path: String,
    pub installed: bool,
    pub enabled: bool,
    pub active: bool,
}

} // verus!
