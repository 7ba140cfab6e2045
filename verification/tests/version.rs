use upgrades::style::{Colors, Style};
use upgrades::version::{diff_at_breaks, get_version_diff};

fn style(prefix: &str, suffix: &str) -> Style {
    Style { prefix: prefix.to_string(), suffix: suffix.to_string() }
}

fn marked() -> Colors {
    Colors {
        old_version: style("<", ">"),
        new_version: style("[", "]"),
        number_menu: style("", ""),
        bold: style("", ""),
    }
}

fn plain() -> Colors {
    Colors {
        old_version: style("", ""),
        new_version: style("", ""),
        number_menu: style("", ""),
        bold: style("", ""),
    }
}

fn diff(old: &str, new: &str) -> (String, String) {
    get_version_diff(&marked(), old, new)
}

#[test]
fn changed_component_is_painted_whole() {
    assert_eq!(diff("1.2.3-1", "1.2.40-1"), ("1.2.<3-1>".to_string(), "1.2.[40-1]".to_string()));
    assert_eq!(diff("1.20-1", "1.21-1"), ("1.<20-1>".to_string(), "1.[21-1]".to_string()));
}

#[test]
fn release_change_paints_the_release() {
    assert_eq!(diff("1.2-1", "1.2-2"), ("1.2-<1>".to_string(), "1.2-[2]".to_string()));
}

#[test]
fn nothing_in_common_paints_everything() {
    assert_eq!(diff("abc", "xyz"), ("<abc>".to_string(), "[xyz]".to_string()));
    assert_eq!(diff("10.1", "11.1"), ("<10.1>".to_string(), "[11.1]".to_string()));
}

#[test]
fn equal_versions_split_at_last_break() {
    assert_eq!(diff("1.2-3", "1.2-3"), ("1.2-<3>".to_string(), "1.2-[3]".to_string()));
    assert_eq!(diff("1.2-", "1.2-"), ("1.2-<>".to_string(), "1.2-[]".to_string()));
}

#[test]
fn one_version_starts_the_other() {
    assert_eq!(diff("1.2", "1.2.1"), ("1.<2>".to_string(), "1.[2.1]".to_string()));
    assert_eq!(diff("1.2.1", "1.2"), ("1.<2.1>".to_string(), "1.[2]".to_string()));
    assert_eq!(diff("1.", "1.2"), ("1.<>".to_string(), "1.[2]".to_string()));
}

#[test]
fn empty_versions() {
    assert_eq!(diff("", ""), ("<>".to_string(), "[]".to_string()));
    assert_eq!(diff("", "1"), ("<>".to_string(), "[1]".to_string()));
    assert_eq!(diff("1", ""), ("<1>".to_string(), "[]".to_string()));
}

#[test]
fn letters_beyond_ascii_are_no_break() {
    // U+00E9 is a letter, U+2013 is punctuation of three bytes.
    assert_eq!(
        diff("1.\u{e9}1", "1.\u{e9}2"),
        ("1.<\u{e9}1>".to_string(), "1.[\u{e9}2]".to_string())
    );
    assert_eq!(
        diff("1\u{2013}1", "1\u{2013}2"),
        ("1\u{2013}<1>".to_string(), "1\u{2013}[2]".to_string())
    );
}

#[test]
fn without_colour_versions_come_back() {
    let (old, new) = get_version_diff(&plain(), "1:2.3.r4-1", "1:2.3.r5-1");
    assert_eq!(old, "1:2.3.r4-1");
    assert_eq!(new, "1:2.3.r5-1");
}

#[test]
fn breaks_are_what_the_caller_says() {
    let all = vec![true, true, true, true];
    let none = vec![false, false, false, false];
    assert_eq!(
        diff_at_breaks(&marked(), "a.bc", "a.bd", &all),
        ("<a.bc>".to_string(), "[a.bd]".to_string())
    );
    assert_eq!(
        diff_at_breaks(&marked(), "a.bc", "a.bd", &none),
        ("a.b<c>".to_string(), "a.b[d]".to_string())
    );
}
