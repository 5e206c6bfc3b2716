use std::collections::HashMap;

use sponsored_logs::env::{activate_with, config_with, truthy};
use sponsored_logs::{Color, Config, Selection};

fn lookup(pairs: &[(&str, &str)]) -> impl Fn(&str) -> Option<String> {
    let map: HashMap<String, String> = pairs
        .iter()
        .map(|(k, v)| (k.to_string(), v.to_string()))
        .collect();
    move |k: &str| map.get(k).cloned()
}

#[test]
fn activate_honors_truthy_values() {
    for v in ["1", "true", "YES", " on "] {
        assert!(
            activate_with(lookup(&[("SPONSORED_LOGS", v)])),
            "{v:?} is truthy"
        );
    }
}

#[test]
fn activate_is_false_when_unset_or_falsey() {
    assert!(!activate_with(lookup(&[])));
    assert!(!activate_with(lookup(&[("SPONSORED_LOGS", "0")])));
    assert!(!activate_with(lookup(&[("SPONSORED_LOGS", "nope")])));
}

#[test]
fn unset_vars_leave_defaults_untouched() {
    let config = config_with(lookup(&[]));
    let default = Config::default();
    assert_eq!(config.ad_prefix, default.ad_prefix);
    assert_eq!(config.selection, default.selection);
    assert!(!config.ascii_only);
    assert_eq!(config.color, Color::Auto);
    assert_eq!(config.ads.len(), default.ads.len());
}

#[test]
fn present_vars_override_defaults() {
    let config = config_with(lookup(&[
        ("SPONSORED_LOGS_PROBABILITY", "0.25"),
        ("SPONSORED_LOGS_PREFIX", "SPONSORED:"),
        ("SPONSORED_LOGS_SELECTION", "cpm"),
        ("SPONSORED_LOGS_ASCII_ONLY", "true"),
    ]));
    assert_eq!(config.ad_prefix, "SPONSORED:");
    assert_eq!(config.selection, Selection::Cpm);
    assert!(config.ascii_only);
}

#[test]
fn unknown_selection_settles_to_weight() {
    let config = config_with(lookup(&[("SPONSORED_LOGS_SELECTION", "auction")]));
    assert_eq!(config.selection, Selection::Weight);
}

#[test]
fn color_var_sets_the_mode() {
    let config = config_with(lookup(&[("SPONSORED_LOGS_COLOR", " Never")]));
    assert_eq!(config.color, Color::Never);
    let config = config_with(lookup(&[("SPONSORED_LOGS_COLOR", "sometimes")]));
    assert_eq!(config.color, Color::Auto);
}

#[test]
fn blank_prefix_var_is_kept_as_given() {
    let config = config_with(lookup(&[("SPONSORED_LOGS_PREFIX", "")]));
    assert_eq!(config.ad_prefix, "");
}

#[test]
fn truthy_values_are_exactly_the_four() {
    for v in ["1", "TRUE", "Yes", "oN", "\ttrue\n"] {
        assert!(truthy(v), "{v:?}");
    }
    for v in ["", "0", "false", "y", "onn", "t rue"] {
        assert!(!truthy(v), "{v:?}");
    }
}

#[test]
fn selection_from_env_str_parses() {
    assert_eq!(Selection::from_env_str(" CPM "), Selection::Cpm);
    assert_eq!(Selection::from_env_str("weight"), Selection::Weight);
    assert_eq!(Selection::from_env_str("cpmx"), Selection::Weight);
    assert_eq!(Selection::default(), Selection::Weight);
}
