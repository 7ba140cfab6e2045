use upgrades::config::{Config, Mode};
use upgrades::menu::Candidates;
use upgrades::package::{AurUpdate, Package, PkgbuildUpdate, Target};
use upgrades::style::{Colors, Style};
use upgrades::upgrade::{
    choose_upgrades, get_upgrades, get_upgrades_at, take_all, Found, Next, Upgrades,
};

const DAY: i64 = 24 * 60 * 60;
const NOW: i64 = 1_000 * DAY;

fn plain() -> Style {
    Style { prefix: String::new(), suffix: String::new() }
}

fn config(upgrade_menu: bool, aur_cooldown: u64) -> Config {
    Config {
        mode: Mode { repo: true, aur: true, pkgbuild: true },
        devel: true,
        combined_upgrade: true,
        upgrade_menu,
        local_repos: false,
        sysupgrades: 1,
        aur_cooldown,
        cooldown_skip: Vec::new(),
        aur_namespace: "aur".to_string(),
        color: Colors {
            old_version: plain(),
            new_version: plain(),
            number_menu: plain(),
            bold: plain(),
        },
    }
}

fn pkg(db: &str, name: &str) -> Package {
    Package { name: name.to_string(), db: db.to_string(), version: "2-1".to_string() }
}

fn aur(local: &str, remote: &str, db: Option<&str>, last_modified: i64) -> AurUpdate {
    AurUpdate {
        local_name: local.to_string(),
        local_version: "1-1".to_string(),
        local_db: db.map(|d| d.to_string()),
        remote_name: remote.to_string(),
        remote_version: "2-1".to_string(),
        last_modified,
    }
}

fn pkgbuild(repo: &str, name: &str) -> PkgbuildUpdate {
    PkgbuildUpdate {
        repo: repo.to_string(),
        local_name: name.to_string(),
        local_version: "1-1".to_string(),
        remote_version: "2-1".to_string(),
    }
}

fn target(repo: &str, name: &str) -> Target {
    Target { repo: Some(repo.to_string()), pkg: name.to_string() }
}

fn found() -> Found {
    Found {
        repo: vec![pkg("extra", "vim"), pkg("core", "linux"), pkg("other", "zsh")],
        repo_dbs: vec!["core".to_string(), "extra".to_string()],
        aur: vec![
            aur("paru", "paru", Some("custom"), 0),
            aur("foo-git", "foo-git", Some("custom"), 0),
            aur("new", "new-remote", None, NOW),
        ],
        devel: vec![target("work", "tool-git"), target("aur", "foo-git"), target("aur", "foo-git")],
        pkgbuild: vec![pkgbuild("work", "mine")],
    }
}

fn nothing_found() -> Found {
    Found {
        repo: Vec::new(),
        repo_dbs: Vec::new(),
        aur: Vec::new(),
        devel: Vec::new(),
        pkgbuild: Vec::new(),
    }
}

fn pairs(v: &[(&str, &str)]) -> Vec<(String, String)> {
    v.iter().map(|(a, b)| (a.to_string(), b.to_string())).collect()
}

fn done(next: Next) -> Upgrades {
    match next {
        Next::Done(u) => u,
        Next::Ask(_) => panic!("a menu"),
    }
}

fn asked(next: Next) -> Candidates {
    match next {
        Next::Ask(c) => c,
        Next::Done(_) => panic!("no menu"),
    }
}

fn is_nothing(u: &Upgrades) -> bool {
    u.aur_repos.is_empty()
        && u.pkgbuild_keep.is_empty()
        && u.repo_keep.is_empty()
        && u.repo_skip.is_empty()
        && u.aur_keep.is_empty()
        && u.devel.is_empty()
}

#[test]
fn nothing_found_nothing_done() {
    assert!(is_nothing(&Upgrades::default()));
    assert!(is_nothing(&done(get_upgrades(&config(true, 7), nothing_found()).next)));
    assert!(is_nothing(&done(get_upgrades_at(&config(false, 7), nothing_found(), NOW).next)));
}

#[test]
fn without_a_menu_everything_is_taken() {
    let plan = get_upgrades_at(&config(false, 0), found(), NOW);
    assert_eq!(plan.held_back.len(), 0);
    let u = done(plan.next);
    assert_eq!(u.repo_keep, vec!["linux", "vim"]);
    assert_eq!(u.repo_skip.len(), 0);
    assert_eq!(u.aur_keep, vec!["paru", "new-remote", "foo-git"]);
    assert_eq!(u.pkgbuild_keep, pairs(&[("work", "mine"), ("work", "tool-git")]));
    assert_eq!(u.aur_repos.len(), 1);
    assert_eq!(u.aur_repos.get("paru").unwrap(), "custom");
    assert_eq!(u.devel.len(), 2);
    assert!(u.devel.contains("foo-git"));
    assert!(u.devel.contains("tool-git"));
}

#[test]
fn cooldown_takes_upgrades_out() {
    let plan = get_upgrades_at(&config(false, 7), found(), NOW);
    assert_eq!(plan.held_back.len(), 1);
    assert_eq!(plan.held_back[0].pkg, "new");
    assert_eq!(plan.held_back[0].days, 7);
    assert_eq!(done(plan.next).aur_keep, vec!["paru", "foo-git"]);
    let later = get_upgrades_at(&config(false, 7), found(), NOW + 7 * DAY);
    assert_eq!(later.held_back.len(), 0);
    assert_eq!(done(later.next).aur_keep, vec!["paru", "new-remote", "foo-git"]);
}

#[test]
fn everything_held_back_is_nothing_to_do() {
    let mut f = nothing_found();
    f.aur.push(aur("new", "new", Some("custom"), NOW));
    let plan = get_upgrades_at(&config(true, 7), f, NOW);
    assert_eq!(plan.held_back.len(), 1);
    assert!(is_nothing(&done(plan.next)));
}

#[test]
fn upgrades_go_by_the_clock() {
    let mut f = found();
    f.aur[2].last_modified = i64::MAX;
    let plan = get_upgrades(&config(false, 7), f);
    assert_eq!(plan.held_back.len(), 1);
    assert_eq!(plan.held_back[0].pkg, "new");
    assert_eq!(done(plan.next).aur_keep, vec!["paru", "foo-git"]);
}

#[test]
fn repositories_only_along_with_the_rest() {
    let mut c = config(true, 0);
    c.combined_upgrade = false;
    assert_eq!(asked(get_upgrades(&c, found()).next).repo.len(), 0);
    let mut c = config(true, 0);
    c.mode.repo = false;
    assert_eq!(asked(get_upgrades(&c, found()).next).repo.len(), 0);
    assert_eq!(asked(get_upgrades(&config(true, 0), found()).next).repo.len(), 2);
}

#[test]
fn devel_stands_in_for_the_aur() {
    let c = asked(get_upgrades(&config(true, 0), found()).next);
    let names: Vec<String> = c.aur.iter().map(|u| u.remote_name.clone()).collect();
    assert_eq!(names, vec!["paru", "new-remote"]);
    let devel: Vec<String> = c.devel.iter().map(|t| t.pkg.clone()).collect();
    assert_eq!(devel, vec!["foo-git", "tool-git"]);
}

#[test]
fn an_empty_answer_keeps_everything() {
    let conf = config(true, 0);
    let c = asked(get_upgrades(&conf, found()).next);
    let u = choose_upgrades(&conf, &c, "", &vec![true; 7]);
    assert_eq!(u.repo_keep, vec!["linux", "vim"]);
    assert_eq!(u.repo_skip.len(), 0);
    assert_eq!(u.aur_keep, vec!["paru", "new", "foo-git"]);
    assert_eq!(u.pkgbuild_keep, pairs(&[("work", "tool-git"), ("work", "mine")]));
    assert_eq!(u.devel.len(), 2);
    assert_eq!(u.aur_repos.get("paru").unwrap(), "custom");
}

#[test]
fn an_answer_leaves_out_what_it_names() {
    let conf = config(true, 0);
    let c = asked(get_upgrades(&conf, found()).next);
    // linux, vim, paru, new, foo-git, tool-git, mine
    let named = vec![true, false, true, false, false, true, false];
    let u = choose_upgrades(&conf, &c, "7 5 2", &named);
    assert_eq!(u.repo_keep, vec!["vim"]);
    assert_eq!(u.repo_skip, vec!["linux"]);
    assert_eq!(u.aur_keep, vec!["new", "foo-git"]);
    assert_eq!(u.pkgbuild_keep, pairs(&[("work", "mine")]));
    assert!(u.devel.contains("tool-git"));
    assert!(u.aur_repos.contains_key("paru"));
}

#[test]
fn naming_everything_leaves_everything_out() {
    let conf = config(true, 0);
    let c = asked(get_upgrades(&conf, found()).next);
    let u = choose_upgrades(&conf, &c, "1-7", &vec![true; 7]);
    assert_eq!(u.repo_keep.len(), 0);
    assert_eq!(u.repo_skip, vec!["linux", "vim"]);
    assert_eq!(u.aur_keep.len(), 0);
    assert_eq!(u.pkgbuild_keep.len(), 0);
}

#[test]
fn a_target_without_repository_can_be_left_out() {
    let conf = config(true, 0);
    let c = Candidates {
        repo: Vec::new(),
        aur: Vec::new(),
        devel: vec![Target { repo: None, pkg: "x".to_string() }],
        pkgbuild: Vec::new(),
    };
    let u = choose_upgrades(&conf, &c, "1", &vec![true]);
    assert_eq!(u.aur_keep.len(), 0);
    assert_eq!(u.pkgbuild_keep.len(), 0);
    assert!(u.devel.contains("x"));
}

#[test]
fn the_later_database_is_named() {
    let conf = config(false, 0);
    let c = Candidates {
        repo: Vec::new(),
        aur: vec![
            aur("a", "a", Some("one"), 0),
            aur("a", "a", Some("two"), 0),
            aur("b", "b", None, 0),
        ],
        devel: Vec::new(),
        pkgbuild: Vec::new(),
    };
    let u = take_all(&conf, &c);
    assert_eq!(u.aur_repos.len(), 1);
    assert_eq!(u.aur_repos.get("a").unwrap(), "two");
}
