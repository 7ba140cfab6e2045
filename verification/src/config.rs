//! The settings that an upgrade goes by.

use crate::style::Colors;
use vstd::prelude::*;

verus! {

/// Which kinds of packages the user asked for.
pub struct Mode {
    pub repo: bool,
    pub aur: bool,
    pub pkgbuild: bool,
}

/// The settings that an upgrade goes by.
pub struct Config {
    pub mode: Mode,
    /// Whether development packages are checked for new commits.
    pub devel: bool,
    /// Whether packages of the sync repositories are upgraded along with the others.
    pub combined_upgrade: bool,
    /// Whether the user is asked which upgrades to leave out.
    pub upgrade_menu: bool,
    /// Whether built packages are kept in local repositories.
    pub local_repos: bool,
    /// How often a system upgrade was asked for on the command line.
    pub sysupgrades: usize,
    /// For how many days a modified AUR package is held back; 0 for not at all.
    pub aur_cooldown: u64,
    /// The AUR packages that are never held back.
    pub cooldown_skip: Vec<String>,
    /// The repository name that stands for the AUR.
    pub aur_namespace: String,
    pub color: Colors,
}

impl Config {
    /// Whether upgrades from the sync repositories are listed with the others.
    pub fn lists_repo_upgrades(&self) -> (r: bool)
        ensures
            r == (self.mode.repo && self.combined_upgrade),
    {
        self.mode.repo && self.combined_upgrade
    }

    /// Whether a system upgrade may put in an older version.
    pub fn allows_downgrade(&self) -> (r: bool)
        ensures
            r == (self.sysupgrades > 1),
    {
        self.sysupgrades > 1
    }
}

} // verus!
