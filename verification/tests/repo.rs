use upgrades::package::Package;
use upgrades::repo::repo_upgrades;

fn pkg(db: &str, name: &str, version: &str) -> Package {
    Package { name: name.to_string(), db: db.to_string(), version: version.to_string() }
}

fn shown(pkgs: &Vec<Package>) -> Vec<String> {
    pkgs.iter().map(|p| format!("{}/{} {}", p.db, p.name, p.version)).collect()
}

fn dbs(names: &[&str]) -> Vec<String> {
    names.iter().map(|n| n.to_string()).collect()
}

#[test]
fn sorted_by_repository_and_name() {
    let pkgs = vec![
        pkg("extra", "b", "1"),
        pkg("core", "z", "1"),
        pkg("extra", "a", "1"),
        pkg("core", "B", "1"),
    ];
    let list = repo_upgrades(pkgs, &dbs(&["core", "extra"]));
    assert_eq!(shown(&list), vec!["core/B 1", "core/z 1", "extra/a 1", "extra/b 1"]);
}

#[test]
fn other_repositories_are_left_out() {
    let pkgs = vec![pkg("aur-local", "a", "1"), pkg("core", "b", "1")];
    let list = repo_upgrades(pkgs, &dbs(&["core"]));
    assert_eq!(shown(&list), vec!["core/b 1"]);
    let none = repo_upgrades(vec![pkg("core", "b", "1")], &dbs(&[]));
    assert_eq!(none.len(), 0);
}

#[test]
fn equal_packages_keep_their_order() {
    let pkgs = vec![pkg("core", "a", "2"), pkg("core", "b", "1"), pkg("core", "a", "1")];
    let list = repo_upgrades(pkgs, &dbs(&["core"]));
    assert_eq!(shown(&list), vec!["core/a 2", "core/a 1", "core/b 1"]);
}

#[test]
fn the_first_place_of_a_repository_counts() {
    let pkgs = vec![pkg("b", "x", "1"), pkg("a", "y", "1")];
    let list = repo_upgrades(pkgs, &dbs(&["a", "b", "a"]));
    assert_eq!(shown(&list), vec!["a/y 1", "b/x 1"]);
}

#[test]
fn listing_twice_changes_nothing() {
    let pkgs = vec![pkg("b", "x", "1"), pkg("a", "y", "2"), pkg("a", "y", "1")];
    let once = repo_upgrades(pkgs, &dbs(&["a", "b"]));
    let before = shown(&once);
    let twice = repo_upgrades(once, &dbs(&["a", "b"]));
    assert_eq!(shown(&twice), before);
}
