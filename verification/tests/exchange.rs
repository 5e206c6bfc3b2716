use rand::rngs::StdRng;
use rand::SeedableRng;

use sponsored_logs::{pick, render, selection_weights, Ad, Box, Selection};

#[test]
fn render_includes_prefix() {
    let ad = Ad::new("Contoso", 1, 2200);
    assert_eq!(render(&ad, "[AD]", false, false), "[AD] Contoso");
}

#[test]
fn render_omits_blank_prefix() {
    let ad = Ad::new("Contoso", 1, 2200);
    assert_eq!(render(&ad, "", false, false), "Contoso");
}

#[test]
fn render_draws_a_banner_for_banner_format() {
    let ad = Ad::new("Own the viewport.", 1, 0).banner(Box::Double);
    let out = render(&ad, "[AD]", false, false);
    assert!(out.starts_with("╔═ [AD] "));
    assert!(out.contains("Own the viewport."));
}

#[test]
fn render_gilds_a_line_tag() {
    let ad = Ad::new("Contoso", 1, 2200);
    assert_eq!(
        render(&ad, "[AD]", false, true),
        "\x1b[38;5;214m[AD]\x1b[0m Contoso"
    );
    assert_eq!(render(&ad, "", false, true), "Contoso");
}

#[test]
fn pick_returns_none_for_empty_pool() {
    let mut rng = StdRng::seed_from_u64(1);
    assert!(pick(&[], Selection::Weight, &mut rng).is_none());
}

#[test]
fn pick_returns_none_when_all_weights_zero() {
    let mut rng = StdRng::seed_from_u64(1);
    let ads = vec![Ad::new("a", 0, 0), Ad::new("b", 0, 0)];
    assert!(pick(&ads, Selection::Weight, &mut rng).is_none());
}

#[test]
fn pick_never_chooses_zero_weight() {
    let mut rng = StdRng::seed_from_u64(42);
    let ads = vec![Ad::new("skip", 0, 0), Ad::new("keep", 5, 0)];
    for _ in 0..100 {
        assert_eq!(
            pick(&ads, Selection::Weight, &mut rng).unwrap().text,
            "keep"
        );
    }
}

#[test]
fn cpm_selection_falls_back_to_weight_when_all_cpm_zero() {
    let mut rng = StdRng::seed_from_u64(7);
    let ads = vec![Ad::new("only", 3, 0)];
    assert_eq!(pick(&ads, Selection::Cpm, &mut rng).unwrap().text, "only");
}

#[test]
fn cpm_selection_favors_the_highest_bidder() {
    let mut rng = StdRng::seed_from_u64(123);
    let ads = vec![Ad::new("cheap", 1, 100), Ad::new("dear", 1, 100000)];
    let mut dear = 0;
    for _ in 0..1000 {
        if pick(&ads, Selection::Cpm, &mut rng).unwrap().text == "dear" {
            dear += 1;
        }
    }
    assert!(
        dear > 900,
        "highest bidder should win most inventory, got {dear}"
    );
}

#[test]
fn cpm_selection_never_chooses_a_zero_bid() {
    let mut rng = StdRng::seed_from_u64(9);
    let ads = vec![Ad::new("free", 9, 0), Ad::new("paid", 1, 1)];
    for _ in 0..200 {
        assert_eq!(pick(&ads, Selection::Cpm, &mut rng).unwrap().text, "paid");
    }
}

#[test]
fn pick_reaches_every_weighted_creative() {
    let mut rng = StdRng::seed_from_u64(5);
    let ads = vec![Ad::new("a", 1, 0), Ad::new("b", 0, 0), Ad::new("c", 1, 0)];
    let mut seen = [0usize; 3];
    for _ in 0..400 {
        let chosen = pick(&ads, Selection::Weight, &mut rng).unwrap();
        let i = ads.iter().position(|a| a.text == chosen.text).unwrap();
        seen[i] += 1;
    }
    assert!(seen[0] > 0 && seen[2] > 0);
    assert_eq!(seen[1], 0);
}

#[test]
fn selection_weights_follow_the_selection() {
    let ads = vec![Ad::new("a", 3, 100), Ad::new("b", 1, 0), Ad::new("c", 2, 5000)];
    assert_eq!(selection_weights(&ads, Selection::Weight), vec![3, 1, 2]);
    assert_eq!(selection_weights(&ads, Selection::Cpm), vec![100, 0, 5000]);
    let free = vec![Ad::new("a", 3, 0), Ad::new("b", 1, 0)];
    assert_eq!(selection_weights(&free, Selection::Cpm), vec![3, 1]);
    assert!(selection_weights(&[], Selection::Cpm).is_empty());
}

#[test]
fn an_unfilled_pick_leaves_the_generator() {
    let mut rng = StdRng::seed_from_u64(4);
    let before = rng.clone();
    let ads = vec![Ad::new("a", 0, 0)];
    assert!(pick(&ads, Selection::Weight, &mut rng).is_none());
    assert_eq!(rng, before);
}
