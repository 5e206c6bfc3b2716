use std::collections::HashMap;

use rand::rngs::StdRng;
use rand::SeedableRng;

use sponsored_logs::{Ad, Box, Color, Config, Selection, SponsoredLayer};

fn always_on_config() -> Config {
    Config {
        ads: vec![Ad::new("Contoso", 1, 2200)],
        selection: Selection::Weight,
        ad_prefix: "[AD]".to_string(),
        ascii_only: false,
        color: Color::Never,
    }
}

#[test]
fn fills_and_books_when_probability_is_one() {
    let mut layer = SponsoredLayer::new(always_on_config(), true, true);
    let mut rng = StdRng::seed_from_u64(1);
    let placement = layer.maybe_fill(true, &mut rng).expect("should fill");
    assert_eq!(placement.text, "[AD] Contoso");
    assert!(!placement.is_banner, "a line creative is not a banner");
    assert!(!placement.gilded, "Color::Never does not gild");
    assert_eq!(layer.impressions(), 1);
}

#[test]
fn gilded_placement_carries_a_real_escape_byte_and_is_flagged() {
    let config = Config {
        ads: vec![Ad::new("Contoso", 1, 2200)],
        selection: Selection::Weight,
        ad_prefix: "[AD]".to_string(),
        ascii_only: false,
        color: Color::Always,
    };
    let mut layer = SponsoredLayer::new(config, false, false);
    let mut rng = StdRng::seed_from_u64(1);
    let placement = layer.maybe_fill(true, &mut rng).expect("should fill");
    assert!(placement.gilded, "Color::Always gilds");
    assert!(
        placement.text.contains('\u{1b}'),
        "carries a real ESC byte, not the literal string backslash-x-1-b"
    );
    assert!(
        !placement.text.contains("\\x1b"),
        "must not contain the literal escape text"
    );
}

#[test]
fn banner_creatives_are_flagged_for_the_banner_emit_path() {
    let config = Config {
        ads: vec![Ad::new("Own the viewport.", 1, 0).banner(Box::Double)],
        selection: Selection::Weight,
        ad_prefix: "[AD]".to_string(),
        ascii_only: false,
        color: Color::Never,
    };
    let mut layer = SponsoredLayer::new(config, true, true);
    let mut rng = StdRng::seed_from_u64(1);
    let placement = layer.maybe_fill(true, &mut rng).expect("should fill");
    assert!(
        placement.is_banner,
        "a banner creative routes to the banner path"
    );
    assert!(placement.text.starts_with("╔═ [AD] "));
}

#[test]
fn never_fills_at_zero_probability() {
    let mut layer = SponsoredLayer::new(always_on_config(), true, true);
    let mut rng = StdRng::seed_from_u64(1);
    for _ in 0..1000 {
        assert!(layer.maybe_fill(false, &mut rng).is_none());
    }
    assert_eq!(layer.impressions(), 0);
}

#[test]
fn unsponsor_pauses_the_firehose() {
    let mut layer = SponsoredLayer::new(always_on_config(), true, true);
    layer.unsponsor();
    let mut rng = StdRng::seed_from_u64(1);
    assert!(layer.maybe_fill(true, &mut rng).is_none());
    assert!(!layer.active());

    layer.sponsor();
    assert!(layer.active());
    assert!(layer.maybe_fill(true, &mut rng).is_some());
}

#[test]
fn layer_reset_clears_the_book() {
    let mut layer = SponsoredLayer::new(always_on_config(), true, true);
    let mut rng = StdRng::seed_from_u64(1);
    layer.maybe_fill(true, &mut rng);
    layer.reset_ledger();
    assert_eq!(layer.impressions(), 0);
}

#[test]
fn auto_color_gilds_only_on_a_terminal_without_no_color() {
    let mut config = always_on_config();
    config.color = Color::Auto;
    let mut layer = SponsoredLayer::new(config, true, true);
    let mut rng = StdRng::seed_from_u64(3);
    assert!(layer.maybe_fill(true, &mut rng).unwrap().gilded);
    let mut config = always_on_config();
    config.color = Color::Auto;
    let mut layer = SponsoredLayer::new(config, false, true);
    assert!(!layer.maybe_fill(true, &mut rng).unwrap().gilded);
}

#[test]
fn fills_book_against_the_picked_creative() {
    let config = Config {
        ads: vec![Ad::new("never", 0, 0), Ad::new("Initech", 2, 800)],
        selection: Selection::Weight,
        ad_prefix: "".to_string(),
        ascii_only: true,
        color: Color::Never,
    };
    let mut layer = SponsoredLayer::new(config, true, true);
    let mut rng = StdRng::seed_from_u64(11);
    for _ in 0..1000 {
        assert_eq!(layer.maybe_fill(true, &mut rng).unwrap().text, "Initech");
    }
    let report = layer.report();
    assert_eq!(report.impressions, 1000);
    assert_eq!(report.ads.len(), 1);
    assert_eq!(report.ads[0].text, "Initech");
    assert_eq!(report.spend, 800);
}

#[test]
fn an_empty_pool_never_fills() {
    let mut config = always_on_config();
    config.ads = Vec::new();
    let mut layer = SponsoredLayer::new(config, true, true);
    let mut rng = StdRng::seed_from_u64(1);
    assert!(layer.maybe_fill(true, &mut rng).is_none());
    assert_eq!(layer.impressions(), 0);
}

#[test]
fn a_paused_or_missed_fill_leaves_the_generator() {
    let mut layer = SponsoredLayer::new(always_on_config(), true, true);
    let mut rng = StdRng::seed_from_u64(8);
    let before = rng.clone();
    assert!(layer.maybe_fill(false, &mut rng).is_none());
    layer.unsponsor();
    assert!(layer.maybe_fill(true, &mut rng).is_none());
    assert_eq!(rng, before);
}

#[test]
fn place_books_and_renders_the_given_creative() {
    let mut layer = SponsoredLayer::new(always_on_config(), true, true);
    let ad = Ad::new("Initech", 1, 800).banner(Box::Light);
    let placement = layer.place(&ad);
    assert!(placement.is_banner);
    assert!(!placement.gilded);
    assert!(placement.text.starts_with("┌─ [AD] "));
    assert_eq!(layer.impressions(), 1);
    assert_eq!(layer.report().ads[0].text, "Initech");
}

#[test]
fn the_environment_decides_activation() {
    let env: HashMap<&str, &str> = [("SPONSORED_LOGS", " Yes"), ("SPONSORED_LOGS_PREFIX", "SPONSORED:")]
        .into_iter()
        .collect();
    let layer = SponsoredLayer::from_env_with(|k| env.get(k).map(|v| v.to_string()), true, false);
    assert!(layer.active());
    assert_eq!(layer.impressions(), 0);
    let quiet: HashMap<&str, &str> = [("SPONSORED_LOGS", "no")].into_iter().collect();
    let layer = SponsoredLayer::from_env_with(|k| quiet.get(k).map(|v| v.to_string()), true, false);
    assert!(!layer.active());
    let unset = SponsoredLayer::from_env_with(|_| None, true, false);
    assert!(!unset.active());
}
