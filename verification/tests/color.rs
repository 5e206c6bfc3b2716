use sponsored_logs::color::{colorize, gild_with, no_color_unset, Color};

const GOLD: &str = "\x1b[38;5;214m";
const RESET: &str = "\x1b[0m";

#[test]
fn colorize_wraps_in_gold_when_enabled() {
    let out = colorize("[AD]", true);
    assert!(out.starts_with(GOLD));
    assert!(out.ends_with(RESET));
    assert!(out.contains("[AD]"));
}

#[test]
fn colorize_is_identity_when_disabled() {
    assert_eq!(colorize("[AD]", false), "[AD]");
}

#[test]
fn colorize_is_exact() {
    assert_eq!(colorize("[AD]", true), "\x1b[38;5;214m[AD]\x1b[0m");
    assert_eq!(colorize("", true), "\x1b[38;5;214m\x1b[0m");
    assert_eq!(colorize("", false), "");
}

#[test]
fn never_never_gilds() {
    assert!(!gild_with(Color::Never, true, true));
}

#[test]
fn always_always_gilds_even_off_tty_or_with_no_color() {
    assert!(gild_with(Color::Always, false, false));
}

#[test]
fn auto_gilds_only_on_tty_with_no_color_unset() {
    assert!(gild_with(Color::Auto, true, true));
    assert!(!gild_with(Color::Auto, true, false), "not a tty");
    assert!(!gild_with(Color::Auto, false, true), "NO_COLOR set");
}

#[test]
fn from_env_str_parses_modes() {
    assert_eq!(Color::from_env_str("always"), Color::Always);
    assert_eq!(Color::from_env_str(" NEVER "), Color::Never);
    assert_eq!(Color::from_env_str("auto"), Color::Auto);
    assert_eq!(
        Color::from_env_str("banana"),
        Color::Auto,
        "invalid settles to auto"
    );
}

#[test]
fn from_env_str_trims_unicode_white_space() {
    assert_eq!(Color::from_env_str("\u{3000}Always\u{a0}\n"), Color::Always);
    assert_eq!(Color::from_env_str("nev er"), Color::Auto);
    assert_eq!(Color::from_env_str(""), Color::Auto);
}

#[test]
fn default_color_is_auto() {
    assert_eq!(Color::default(), Color::Auto);
}

#[test]
fn no_color_unset_honors_the_convention() {
    assert!(no_color_unset(None), "unset leaves auto available");
    assert!(
        no_color_unset(Some(String::new())),
        "empty is treated as unset"
    );
    assert!(
        !no_color_unset(Some("1".to_string())),
        "any non-empty value disables color"
    );
}
