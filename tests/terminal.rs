use mdcat::terminal::DEFAULT_COLUMNS;
use mdcat::text::{parse_unsigned_range, str_contains};
use mdcat::{columns, columns_from_env, get_vte_version, osc, Format, Terminal};

#[test]
fn columns_default_without_device_or_variable() {
    assert_eq!(columns(None, None), 80);
    assert_eq!(DEFAULT_COLUMNS, 80);
}

#[test]
fn columns_default_for_malformed_variable() {
    for value in ["", "abc", "12ab", " 80", "80 ", "-5", "+", "0", "65536", "1e3", "８０"] {
        assert_eq!(columns(None, Some(value)), 80, "COLUMNS={:?}", value);
    }
}

#[test]
fn columns_prefers_device() {
    assert_eq!(columns(Some(100), None), 100);
    assert_eq!(columns(Some(100), Some("abc")), 100);
    assert_eq!(columns(Some(100), Some("120")), 100);
}

#[test]
fn columns_from_variable_without_device() {
    assert_eq!(columns(None, Some("120")), 120);
    assert_eq!(columns(None, Some("1")), 1);
    assert_eq!(columns(None, Some("65535")), 65535);
    assert_eq!(columns(None, Some("+42")), 42);
    assert_eq!(columns(None, Some("0080")), 80);
    for v in [1u16, 9, 10, 99, 132, 1000, 65535] {
        assert_eq!(columns(None, Some(&v.to_string())), v);
    }
}

#[test]
fn columns_from_env_values() {
    assert_eq!(columns_from_env(None), None);
    assert_eq!(columns_from_env(Some("")), None);
    assert_eq!(columns_from_env(Some("0")), None);
    assert_eq!(columns_from_env(Some("200")), Some(200));
    assert_eq!(columns_from_env(Some("99999")), None);
}

#[test]
fn vte_version_parsing() {
    assert_eq!(get_vte_version(Some("5000")), Some((50, 0)));
    assert_eq!(get_vte_version(Some("4912")), Some((49, 12)));
    assert_eq!(get_vte_version(Some("12")), None);
    assert_eq!(get_vte_version(Some("ab12")), None);
    assert_eq!(get_vte_version(Some("12ab")), None);
    assert_eq!(get_vte_version(None), None);
    assert_eq!(get_vte_version(Some("")), None);
    assert_eq!(get_vte_version(Some("6003xyz")), Some((60, 3)));
    assert_eq!(get_vte_version(Some("é123")), None);
}

#[test]
fn terminal_identification() {
    assert_eq!(Terminal::detect(Some("iTerm.app"), Some("5000")), Terminal::ITerm2);
    assert_eq!(Terminal::detect(Some("iTerm.app"), Some("4912")), Terminal::ITerm2);
    assert_eq!(Terminal::detect(Some("iTerm.app"), None), Terminal::ITerm2);
    assert_eq!(Terminal::detect(None, Some("5000")), Terminal::VTE50);
    assert_eq!(Terminal::detect(Some("Apple_Terminal"), Some("5000")), Terminal::VTE50);
    assert_eq!(Terminal::detect(None, Some("4912")), Terminal::Unknown);
    assert_eq!(Terminal::detect(None, None), Terminal::Unknown);
}

#[test]
fn terminal_identification_edges() {
    assert_eq!(Terminal::detect(Some("my-iTerm.app-build"), None), Terminal::ITerm2);
    assert_eq!(Terminal::detect(Some("iterm.app"), None), Terminal::Unknown);
    assert_eq!(Terminal::detect(Some("iTerm"), None), Terminal::Unknown);
    assert_eq!(Terminal::detect(None, Some("5099")), Terminal::VTE50);
    assert_eq!(Terminal::detect(None, Some("9900")), Terminal::VTE50);
    assert_eq!(Terminal::detect(None, Some("4999")), Terminal::Unknown);
    assert_eq!(Terminal::detect(None, Some("50")), Terminal::Unknown);
}

#[test]
fn auto_detect_not_a_tty() {
    let forced = Format::auto_detect(true, false, Some("iTerm.app"), Some("5000"));
    assert!(forced.enables_colours());
    assert!(!forced.enables_inline_links());
    assert!(!forced.enables_inline_images());
    assert!(!forced.enables_iterm_marks());
    let plain = Format::auto_detect(false, false, Some("iTerm.app"), Some("5000"));
    assert_eq!(plain, Format::empty());
}

#[test]
fn auto_detect_on_tty() {
    for force in [false, true] {
        let iterm = Format::auto_detect(force, true, Some("iTerm.app"), None);
        assert!(iterm.enables_colours());
        assert!(iterm.enables_inline_links());
        assert!(iterm.enables_inline_images());
        assert!(iterm.enables_iterm_marks());

        let vte = Format::auto_detect(force, true, None, Some("5000"));
        assert!(vte.enables_colours());
        assert!(vte.enables_inline_links());
        assert!(!vte.enables_inline_images());
        assert!(!vte.enables_iterm_marks());

        let unknown = Format::auto_detect(force, true, None, Some("4912"));
        assert!(unknown.enables_colours());
        assert!(!unknown.enables_inline_links());
        assert!(!unknown.enables_inline_images());
        assert!(!unknown.enables_iterm_marks());
    }
}

#[test]
fn formats_enable_colours_with_other_features() {
    let programs = [None, Some("iTerm.app"), Some("xterm")];
    let versions = [None, Some("5000"), Some("4912"), Some("ab")];
    for force in [false, true] {
        for tty in [false, true] {
            for program in programs {
                for version in versions {
                    let f = Format::auto_detect(force, tty, program, version);
                    if f.enables_inline_links() || f.enables_inline_images() || f.enables_iterm_marks() {
                        assert!(f.enables_colours());
                    }
                }
            }
        }
    }
}

#[test]
fn osc_renders_escape_sequence() {
    assert_eq!(osc("1337;File=...").render(), "\x1B]1337;File=...\x07");
    assert_eq!(osc("").render(), "\x1B]\x07");
    assert_eq!(osc("8;;https://example.com").render(), "\u{1b}]8;;https://example.com\u{7}");
}

#[test]
fn empty_twice_is_equal() {
    let a = Format::empty();
    let b = Format::empty();
    assert_eq!(a, b);
    assert!(!a.enables_colours());
    assert!(!a.enables_inline_links());
    assert!(!a.enables_inline_images());
    assert!(!a.enables_iterm_marks());
}

#[test]
fn substring_search() {
    assert!(str_contains("abc", ""));
    assert!(str_contains("", ""));
    assert!(!str_contains("", "a"));
    assert!(str_contains("xxabcxx", "abc"));
    assert!(str_contains("abc", "abc"));
    assert!(!str_contains("ab", "abc"));
    assert!(!str_contains("abdabc", "abcd"));
}

#[test]
fn unsigned_numerals() {
    assert_eq!(parse_unsigned_range("x255y", 1, 4, 255), Some(255));
    assert_eq!(parse_unsigned_range("x256y", 1, 4, 255), None);
    assert_eq!(parse_unsigned_range("+7", 0, 2, 255), Some(7));
    assert_eq!(parse_unsigned_range("-7", 0, 2, 255), None);
    assert_eq!(parse_unsigned_range("abc", 1, 1, 255), None);
    assert_eq!(parse_unsigned_range("4294967295", 0, 10, u32::MAX), Some(u32::MAX));
    assert_eq!(parse_unsigned_range("4294967296", 0, 10, u32::MAX), None);
    assert_eq!(parse_unsigned_range("99999999999999999999", 0, 20, 65535), None);
}
