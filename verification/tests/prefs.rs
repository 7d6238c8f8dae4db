use ytune::prefs::{discord_enabled_from, flag_text, format_popup_pos, parse_popup_pos, song_link_from};

#[test]
fn flag_texts() {
    assert_eq!(flag_text(true), "true");
    assert_eq!(flag_text(false), "false");
}

#[test]
fn discord_flag_defaults_on() {
    assert!(discord_enabled_from(None));
    assert!(discord_enabled_from(Some("")));
    assert!(discord_enabled_from(Some("no")));
    assert!(discord_enabled_from(Some("FALSE")));
    assert!(!discord_enabled_from(Some("false")));
    assert!(!discord_enabled_from(Some("  false\n")));
}

#[test]
fn song_link_flag_defaults_off() {
    assert!(!song_link_from(None));
    assert!(!song_link_from(Some("yes")));
    assert!(!song_link_from(Some("TRUE")));
    assert!(song_link_from(Some("true")));
    assert!(song_link_from(Some("\ttrue \r\n")));
}

#[test]
fn flags_read_back() {
    for b in [true, false] {
        assert_eq!(discord_enabled_from(Some(flag_text(b))), b);
        assert_eq!(song_link_from(Some(flag_text(b))), b);
    }
}

#[test]
fn popup_pos_format() {
    assert_eq!(format_popup_pos(-12, 345), "-12,345");
    assert_eq!(format_popup_pos(0, 0), "0,0");
    assert_eq!(format_popup_pos(i32::MIN, i32::MAX), "-2147483648,2147483647");
}

#[test]
fn popup_pos_parse() {
    assert_eq!(parse_popup_pos(" -12 , 345\n"), Some((-12, 345)));
    assert_eq!(parse_popup_pos("+5,6"), Some((5, 6)));
    assert_eq!(parse_popup_pos("007,-0"), Some((7, 0)));
}

#[test]
fn popup_pos_parse_errors() {
    assert_eq!(parse_popup_pos("1;2"), None);
    assert_eq!(parse_popup_pos("1,2,3"), None);
    assert_eq!(parse_popup_pos(",2"), None);
    assert_eq!(parse_popup_pos("1,"), None);
    assert_eq!(parse_popup_pos("2147483648,1"), None);
    assert_eq!(parse_popup_pos("1,-2147483649"), None);
    assert_eq!(parse_popup_pos("1 2,3"), None);
    assert_eq!(parse_popup_pos("+,3"), None);
    assert_eq!(parse_popup_pos("--1,3"), None);
}

#[test]
fn popup_pos_read_back() {
    for (x, y) in [(0, 0), (-1, 1), (i32::MIN, i32::MAX), (1920, -1080)] {
        assert_eq!(parse_popup_pos(&format_popup_pos(x, y)), Some((x, y)));
    }
}
