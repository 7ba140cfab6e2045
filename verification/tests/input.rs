use upgrades::input::trim;

#[test]
fn white_space_goes_from_both_ends() {
    assert_eq!(trim("  1 2-3 \t\n"), "1 2-3");
    assert_eq!(trim("\u{3000}core\u{a0}"), "core");
    assert_eq!(trim("a"), "a");
}

#[test]
fn white_space_alone_leaves_nothing() {
    assert_eq!(trim(""), "");
    assert_eq!(trim(" \n "), "");
}

#[test]
fn every_character_is_trimmed_as_std_does() {
    for c in '\0'..=char::MAX {
        let s = c.to_string();
        assert_eq!(trim(&s), s.trim(), "{:?}", c);
    }
}
