use upgrades::config::{Config, Mode};
use upgrades::net::{get_devel_upgrades, get_resolver_upgrades, net_upgrades, Announcement};
use upgrades::style::{Colors, Style};

fn plain() -> Style {
    Style { prefix: String::new(), suffix: String::new() }
}

fn config(aur: bool, pkgbuild: bool, devel: bool, local_repos: bool) -> Config {
    Config {
        mode: Mode { repo: true, aur, pkgbuild },
        devel,
        combined_upgrade: true,
        upgrade_menu: true,
        local_repos,
        sysupgrades: 2,
        aur_cooldown: 0,
        cooldown_skip: Vec::new(),
        aur_namespace: "aur".to_string(),
        color: Colors {
            old_version: plain(),
            new_version: plain(),
            number_menu: plain(),
            bold: plain(),
        },
    }
}

#[test]
fn resolver_is_announced_and_asked() {
    let r = get_resolver_upgrades(&config(true, true, true, false), Vec::new(), true).unwrap();
    assert_eq!(r.announce.len(), 2);
    assert!(matches!(r.announce[0], Announcement::Pkgbuild));
    assert!(matches!(r.announce[1], Announcement::Aur));
    assert_eq!(r.dbs, None);
}

#[test]
fn the_aur_is_announced_behind_pkgbuilds_only() {
    let r = get_resolver_upgrades(&config(true, false, true, false), Vec::new(), true).unwrap();
    assert_eq!(r.announce.len(), 0);
    let r = get_resolver_upgrades(&config(false, true, true, false), Vec::new(), true).unwrap();
    assert_eq!(r.announce.len(), 1);
    assert!(matches!(r.announce[0], Announcement::Pkgbuild));
}

#[test]
fn local_repositories_are_searched() {
    let dbs = vec!["custom".to_string()];
    let r = get_resolver_upgrades(&config(true, true, true, true), dbs.clone(), true).unwrap();
    assert_eq!(r.dbs, Some(dbs));
}

#[test]
fn a_silent_run_does_not_search() {
    assert!(get_resolver_upgrades(&config(true, true, true, true), Vec::new(), false).is_none());
}

#[test]
fn commits_are_searched_for_where_it_makes_sense() {
    assert!(get_devel_upgrades(&config(true, true, false, false), true).is_none());
    assert!(get_devel_upgrades(&config(false, false, true, false), true).is_none());
    let loud = get_devel_upgrades(&config(true, false, true, false), true).unwrap();
    assert_eq!(loud.announce.len(), 1);
    assert!(matches!(loud.announce[0], Announcement::Devel));
    let silent = get_devel_upgrades(&config(false, true, true, false), false).unwrap();
    assert_eq!(silent.announce.len(), 0);
}

#[test]
fn both_searches_together() {
    let r = net_upgrades(&config(true, true, true, false), Vec::new(), true);
    assert!(r.resolver.is_some());
    assert!(r.devel.is_some());
    let r = net_upgrades(&config(true, true, false, false), Vec::new(), false);
    assert!(r.resolver.is_none());
    assert!(r.devel.is_none());
}

#[test]
fn settings_decide_on_repositories() {
    let mut c = config(true, true, true, true);
    assert!(c.lists_repo_upgrades());
    assert!(c.allows_downgrade());
    c.combined_upgrade = false;
    c.sysupgrades = 1;
    assert!(!c.lists_repo_upgrades());
    assert!(!c.allows_downgrade());
}
