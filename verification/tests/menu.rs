use upgrades::menu::{build_menu, db_len, Candidates, Menu};
use upgrades::package::{AurUpdate, Databases, Package, PackageDb, PkgbuildUpdate, Target};
use upgrades::style::{Colors, Style};
use upgrades::text::{align_left, align_right, decimal_text, spaces};

fn style(prefix: &str, suffix: &str) -> Style {
    Style { prefix: prefix.to_string(), suffix: suffix.to_string() }
}

fn plain() -> Colors {
    Colors {
        old_version: style("", ""),
        new_version: style("", ""),
        number_menu: style("", ""),
        bold: style("", ""),
    }
}

fn marked() -> Colors {
    Colors {
        old_version: style("<", ">"),
        new_version: style("[", "]"),
        number_menu: style("#", ";"),
        bold: style("*", "_"),
    }
}

fn pkg(db: &str, name: &str, version: &str) -> Package {
    Package { name: name.to_string(), db: db.to_string(), version: version.to_string() }
}

fn aur(name: &str, old: &str, new: &str) -> AurUpdate {
    AurUpdate {
        local_name: name.to_string(),
        local_version: old.to_string(),
        local_db: None,
        remote_name: name.to_string(),
        remote_version: new.to_string(),
        last_modified: 0,
    }
}

fn pkgbuild(repo: &str, name: &str, old: &str, new: &str) -> PkgbuildUpdate {
    PkgbuildUpdate {
        repo: repo.to_string(),
        local_name: name.to_string(),
        local_version: old.to_string(),
        remote_version: new.to_string(),
    }
}

fn devel(name: &str) -> Target {
    Target { repo: Some("aur".to_string()), pkg: name.to_string() }
}

fn databases() -> Databases {
    Databases {
        local: PackageDb {
            pkgs: vec![
                pkg("local", "linux", "6.1-1"),
                pkg("local", "foo-git", "r10.abc-1"),
                pkg("local", "bar-git", "r2-1"),
            ],
        },
        sync: PackageDb { pkgs: vec![pkg("core", "linux", "6.2-1")] },
        aur: PackageDb {
            pkgs: vec![
                pkg("custom", "paru", "2.0-1"),
                pkg("custom", "bar-git", "r1-1"),
                pkg("custom", "mine", "1-1"),
            ],
        },
    }
}

fn no_candidates() -> Candidates {
    Candidates { repo: Vec::new(), aur: Vec::new(), devel: Vec::new(), pkgbuild: Vec::new() }
}

fn everything() -> Candidates {
    Candidates {
        repo: vec![pkg("core", "linux", "6.2-1")],
        aur: vec![aur("paru", "2.0-1", "2.1-1"), aur("yay", "12-1", "13-1")],
        devel: vec![devel("bar-git"), devel("foo-git")],
        pkgbuild: vec![pkgbuild("work", "mine", "1-1", "2-1"), pkgbuild("work", "tool", "1", "2")],
    }
}

fn column(menu: &Menu, pick: fn(&upgrades::menu::Entry) -> String) -> Vec<String> {
    menu.entries.iter().map(pick).collect()
}

#[test]
fn entries_from_top_to_bottom() {
    let menu = build_menu(&databases(), &everything());
    assert_eq!(
        column(&menu, |e| e.pkg.clone()),
        vec!["linux", "paru", "yay", "bar-git", "foo-git", "mine", "tool"]
    );
    assert_eq!(
        column(&menu, |e| e.db.clone()),
        vec!["core", "custom-aur", "aur", "custom-devel", "devel", "custom-work", "aur"]
    );
    assert_eq!(
        column(&menu, |e| e.word.clone()),
        vec!["core", "custom", "aur", "custom-devel-devel", "devel-devel", "custom", "work"]
    );
    assert_eq!(
        column(&menu, |e| e.old.clone()),
        vec!["6.1-1", "2.0-1", "12-1", "r1-1", "r10.abc-1", "1-1", "1"]
    );
    assert_eq!(
        column(&menu, |e| e.new.clone()),
        vec!["6.2-1", "2.1-1", "13-1", "latest-commit", "latest-commit", "2-1", "2"]
    );
}

#[test]
fn numbers_count_down_to_one() {
    let menu = build_menu(&databases(), &everything());
    let numbers: Vec<usize> = (0..menu.entries.len()).map(|i| menu.number(i)).collect();
    assert_eq!(numbers, vec![7, 6, 5, 4, 3, 2, 1]);
}

#[test]
fn columns_are_as_wide_as_the_widest() {
    let menu = build_menu(&databases(), &everything());
    assert_eq!(menu.n_max, 1);
    // custom-devel and bar-git
    assert_eq!(menu.db_pkg_max, 19);
    // r10.abc-1
    assert_eq!(menu.old_max, 9);
}

#[test]
fn pkgbuilds_do_not_widen_the_numbers() {
    let mut c = no_candidates();
    for i in 0..12 {
        c.pkgbuild.push(pkgbuild("work", &format!("p{}", i), "1", "2"));
    }
    let menu = build_menu(&databases(), &c);
    assert_eq!(menu.n_max, 1);
    for i in 0..10 {
        c.aur.push(aur(&format!("a{}", i), "1", "2"));
    }
    let menu = build_menu(&databases(), &c);
    assert_eq!(menu.n_max, 2);
    assert_eq!(menu.number(0), 22);
}

#[test]
fn lines_line_up() {
    let menu = build_menu(&databases(), &everything());
    let lines: Vec<String> = (0..menu.entries.len())
        .map(|i| menu.upgrade_line(&plain(), i, &menu.entries[i].db))
        .collect();
    assert_eq!(
        lines,
        vec![
            "7 core/linux            6.1-1     -> 6.2-1",
            "6 custom-aur/paru       2.0-1     -> 2.1-1",
            "5 aur/yay               12-1      -> 13-1",
            "4 custom-devel/bar-git  r1-1      -> latest-commit",
            "3 devel/foo-git         r10.abc-1 -> latest-commit",
            "2 custom-work/mine      1-1       -> 2-1",
            "1 aur/tool              1         -> 2",
        ]
    );
}

#[test]
fn a_line_with_colours() {
    let c = Candidates {
        repo: vec![pkg("core", "linux", "6.2-1")],
        aur: Vec::new(),
        devel: Vec::new(),
        pkgbuild: Vec::new(),
    };
    let menu = build_menu(&databases(), &c);
    assert_eq!(menu.db_pkg_max, 9);
    assert_eq!(
        menu.upgrade_line(&marked(), 0, "{core}"),
        "#1; *{core}/*linux_ _ 6.<1-1> -> 6.[2-1]"
    );
    assert_eq!(
        menu.line_with(&marked(), 0, "core", &("old".to_string(), "new".to_string())),
        "#1; *core/*linux_ _ old -> new"
    );
}

#[test]
fn a_short_repository_name_has_no_room() {
    let c = Candidates {
        repo: Vec::new(),
        aur: Vec::new(),
        devel: Vec::new(),
        pkgbuild: vec![pkgbuild("w", "tool", "1", "2")],
    };
    let menu = build_menu(&databases(), &c);
    assert_eq!(menu.entries[0].db, "aur");
    assert_eq!(menu.db_pkg_max, 5);
    assert!(!menu.has_room(0));
    let menu = build_menu(&databases(), &everything());
    assert!((0..menu.entries.len()).all(|i| menu.has_room(i)));
}

#[test]
fn lengths_with_and_without_a_database() {
    let dbs = databases();
    assert_eq!(db_len("paru", "aur", &dbs.aur), 4 + 6 + 3 + 1);
    assert_eq!(db_len("yay", "aur", &dbs.aur), 3 + 3);
    assert_eq!(db_len("\u{e9}", "aur", &dbs.aur), 2 + 3);
}

#[test]
fn padding_and_numbers() {
    assert_eq!(decimal_text(0), "0");
    assert_eq!(decimal_text(1234567890), "1234567890");
    assert_eq!(decimal_text(usize::MAX), format!("{}", usize::MAX));
    assert_eq!(align_right("7", 3), "  7");
    assert_eq!(align_right("1234", 3), "1234");
    assert_eq!(align_left("\u{e9}", 3), "\u{e9}  ");
    assert_eq!(align_left("abcd", 3), "abcd");
    assert_eq!(spaces(0), "");
    assert_eq!(spaces(2), "  ");
}

#[test]
fn an_empty_menu() {
    let c = no_candidates();
    let menu = build_menu(&databases(), &c);
    assert_eq!(menu.entries.len(), 0);
    assert_eq!(menu.n_max, 1);
    assert_eq!(menu.db_pkg_max, 0);
    assert_eq!(menu.old_max, 0);
}
