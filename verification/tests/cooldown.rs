use upgrades::config::{Config, Mode};
use upgrades::cooldown::{cooldown_days_left, cooldown_filter, cooldown_filter_at};
use upgrades::package::AurUpdate;
use upgrades::style::{Colors, Style};

const DAY: i64 = 24 * 60 * 60;
const NOW: i64 = 1_000 * DAY;

fn plain() -> Style {
    Style { prefix: String::new(), suffix: String::new() }
}

fn config(cooldown: u64, skip: Vec<String>) -> Config {
    Config {
        mode: Mode { repo: true, aur: true, pkgbuild: true },
        devel: true,
        combined_upgrade: true,
        upgrade_menu: true,
        local_repos: false,
        sysupgrades: 1,
        aur_cooldown: cooldown,
        cooldown_skip: skip,
        aur_namespace: "aur".to_string(),
        color: Colors {
            old_version: plain(),
            new_version: plain(),
            number_menu: plain(),
            bold: plain(),
        },
    }
}

fn update(name: &str, last_modified: i64) -> AurUpdate {
    AurUpdate {
        local_name: name.to_string(),
        local_version: "1-1".to_string(),
        local_db: None,
        remote_name: name.to_string(),
        remote_version: "2-1".to_string(),
        last_modified,
    }
}

fn names(updates: &Vec<AurUpdate>) -> Vec<String> {
    updates.iter().map(|u| u.remote_name.clone()).collect()
}

#[test]
fn cooldown_disabled_never_holds() {
    // cooldown of 0 means the window is empty, so nothing is ever held back.
    assert_eq!(cooldown_days_left(NOW, NOW, 0), None);
}

#[test]
fn old_package_is_installable() {
    // Modified 10 days ago with a 7 day cooldown -> past the window.
    assert_eq!(cooldown_days_left(NOW - 10 * DAY, NOW, 7), None);
}

#[test]
fn package_exactly_at_window_is_installable() {
    assert_eq!(cooldown_days_left(NOW - 7 * DAY, NOW, 7), None);
}

#[test]
fn fresh_package_holds_full_window() {
    // Just modified -> the whole cooldown remains.
    assert_eq!(cooldown_days_left(NOW, NOW, 7), Some(7));
}

#[test]
fn partial_day_rounds_up() {
    // Modified 6.5 days ago, 7 day cooldown -> 0.5 days left, reported as 1.
    assert_eq!(cooldown_days_left(NOW - 6 * DAY - DAY / 2, NOW, 7), Some(1));
}

#[test]
fn future_timestamp_holds_full_window() {
    // A maintainer with a clock ahead shouldn't bypass the cooldown.
    assert_eq!(cooldown_days_left(NOW + 3 * DAY, NOW, 7), Some(7));
}

#[test]
fn empty_window_never_holds_a_future_timestamp() {
    assert_eq!(cooldown_days_left(NOW + 1, NOW, 0), None);
    assert_eq!(cooldown_days_left(i64::MAX, i64::MIN, 0), None);
}

#[test]
fn one_second_before_the_end_is_a_day() {
    assert_eq!(cooldown_days_left(NOW - 7 * DAY + 1, NOW, 7), Some(1));
    assert_eq!(cooldown_days_left(NOW - DAY, NOW, 7), Some(6));
    assert_eq!(cooldown_days_left(NOW - DAY + 1, NOW, 7), Some(7));
}

#[test]
fn extreme_times_do_not_overflow() {
    assert_eq!(cooldown_days_left(i64::MIN, i64::MAX, 7), None);
    assert_eq!(cooldown_days_left(i64::MAX, i64::MIN, u64::MAX), Some(u64::MAX));
    assert_eq!(cooldown_days_left(0, 0, u64::MAX), Some(u64::MAX));
}

#[test]
fn waiting_never_adds_days() {
    let mut last = Some(7);
    for hours in 0..200 {
        let left = cooldown_days_left(NOW, NOW + hours * 3600, 7);
        match (last, left) {
            (Some(before), Some(after)) => assert!(after <= before),
            (None, after) => assert_eq!(after, None),
            (Some(_), None) => {}
        }
        last = left;
    }
    assert_eq!(last, None);
}

#[test]
fn filter_holds_back_and_reports() {
    let c = config(7, vec!["trusted".to_string()]);
    let mut aur = vec![
        update("old", NOW - 30 * DAY),
        update("fresh", NOW - 2 * DAY),
        update("trusted", NOW),
        update("future", NOW + DAY),
    ];
    let held = cooldown_filter_at(&c, NOW, &mut aur);
    assert_eq!(names(&aur), vec!["old".to_string(), "trusted".to_string()]);
    assert_eq!(held.len(), 2);
    assert_eq!(held[0].pkg, "fresh");
    assert_eq!(held[0].old, "1-1");
    assert_eq!(held[0].new, "2-1");
    assert_eq!(held[0].days, 5);
    assert_eq!(held[1].pkg, "future");
    assert_eq!(held[1].days, 7);
}

#[test]
fn filter_with_a_cooldown_of_zero_keeps_everything() {
    let c = config(0, Vec::new());
    let mut aur = vec![update("fresh", NOW), update("future", NOW + 9 * DAY)];
    assert_eq!(cooldown_filter_at(&c, NOW, &mut aur).len(), 0);
    assert_eq!(cooldown_filter(&c, &mut aur).len(), 0);
    assert_eq!(names(&aur), vec!["fresh".to_string(), "future".to_string()]);
}

#[test]
fn filter_goes_by_the_clock() {
    let c = config(7, Vec::new());
    let mut aur = vec![update("epoch", 0), update("far", i64::MAX), update("lately", NOW)];
    let held = cooldown_filter(&c, &mut aur);
    // `epoch` and `lately` are decades old by any clock that is set.
    assert_eq!(names(&aur), vec!["epoch".to_string(), "lately".to_string()]);
    assert_eq!(held.len(), 1);
    assert_eq!(held[0].pkg, "far");
    assert_eq!(held[0].days, 7);
}
