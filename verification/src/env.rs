//! What the program takes from its environment, as plain values.

use vstd::prelude::*;

use crate::path::{join_path, path_join};

verus! {

/// The environment variables that decide where files lie and which compositor
/// is running.
#[derive(Debug)]
pub struct Environment {
    /// `HOME`.
    pub home: Option<String>,
    /// `XDG_CONFIG_HOME`.
    pub config_home: Option<String>,
    /// `XDG_CURRENT_DESKTOP`.
    pub desktop: Option<String>,
    /// Whether `HYPRLAND_INSTANCE_SIGNATURE` is set.
    pub hyprland_signature: bool,
    /// Whether `SWAYSOCK` is set.
    pub sway_socket: bool,
}

impl Environment {
    pub open spec fn home_dir(self) -> Seq<char> {
        match self.home {
            Some(h) => h@,
            None => "/"@,
        }
    }

    /// `$XDG_CONFIG_HOME`, falling back to `~/.config`.
    pub open spec fn config_root(self) -> Seq<char> {
        match self.config_home {
            Some(c) => c@,
            None => path_join(self.home_dir(), ".config"@),
        }
    }

    /// The home directory; the root where the environment names none.
    pub fn home(&self) -> (r: String)
        ensures
            r@ == self.home_dir(),
    {
        match &self.home {
            Some(h) => h.clone(),
            None => "/".to_owned(),
        }
    }

    /// `$XDG_CONFIG_HOME/<name>`, falling back to `~/.config/<name>`.
    pub fn config_subdir(&self, name: &str) -> (r: String)
        ensures
            r@ == path_join(self.config_root(), name@),
    {
        let root = match &self.config_home {
            Some(c) => c.clone(),
            None => join_path(self.home().as_str(), ".config"),
        };
        join_path(root.as_str(), name)
    }
}

} // verus!
