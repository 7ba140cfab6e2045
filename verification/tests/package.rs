use upgrades::package::{sort_dedup, target_less, Package, PackageDb, Target};
use upgrades::text::{byte_length, same_text, text_less};

fn target(repo: Option<&str>, pkg: &str) -> Target {
    Target { repo: repo.map(|r| r.to_string()), pkg: pkg.to_string() }
}

fn shown(targets: &Vec<Target>) -> Vec<String> {
    targets
        .iter()
        .map(|t| match &t.repo {
            Some(repo) => format!("{}/{}", repo, t.pkg),
            None => t.pkg.clone(),
        })
        .collect()
}

#[test]
fn targets_without_repository_come_first() {
    let sorted = sort_dedup(vec![
        target(Some("aur"), "b"),
        target(None, "z"),
        target(Some("aur"), "a"),
        target(Some("Abc"), "c"),
    ]);
    assert_eq!(shown(&sorted), vec!["z", "Abc/c", "aur/a", "aur/b"]);
}

#[test]
fn equal_targets_are_kept_once() {
    let sorted = sort_dedup(vec![
        target(Some("aur"), "a"),
        target(Some("x"), "a"),
        target(Some("aur"), "a"),
        target(None, "a"),
        target(None, "a"),
    ]);
    assert_eq!(shown(&sorted), vec!["a", "aur/a", "x/a"]);
}

#[test]
fn sorting_goes_by_content() {
    let a = sort_dedup(vec![target(None, "b"), target(None, "a"), target(None, "b")]);
    let b = sort_dedup(vec![target(None, "a"), target(None, "b")]);
    assert_eq!(shown(&a), shown(&b));
    assert_eq!(sort_dedup(Vec::new()).len(), 0);
}

#[test]
fn target_order_is_strict() {
    let a = target(Some("aur"), "a");
    let b = target(Some("aur"), "ab");
    assert!(target_less(&a, &b));
    assert!(!target_less(&b, &a));
    assert!(!target_less(&a, &a));
}

#[test]
fn texts_are_ordered_by_bytes() {
    assert!(text_less("", "a"));
    assert!(text_less("a", "ab"));
    assert!(text_less("B", "a"));
    assert!(text_less("z", "\u{e9}"));
    assert!(!text_less("a", "a"));
    assert!(same_text("\u{e9}", "\u{e9}"));
    assert!(!same_text("a", "b"));
    assert!(!same_text("a", "aa"));
    assert_eq!(byte_length("\u{2013}a"), 4);
}

#[test]
fn first_database_wins() {
    let db = PackageDb {
        pkgs: vec![
            Package { name: "a".to_string(), db: "one".to_string(), version: "1".to_string() },
            Package { name: "a".to_string(), db: "two".to_string(), version: "2".to_string() },
        ],
    };
    assert_eq!(db.pkg("a").unwrap().db, "one");
    assert!(db.pkg("b").is_none());
}
