use sponsored_logs::{Ad, Ledger};

#[test]
fn records_and_totals_impressions() {
    let mut ledger = Ledger::new();
    let ad = Ad::new("Contoso", 1, 2200);
    ledger.record(&ad);
    ledger.record(&ad);
    assert_eq!(ledger.total_impressions(), 2);
}

#[test]
fn report_computes_spend() {
    let mut ledger = Ledger::new();
    let ad = Ad::new("Contoso", 1, 2200);
    for _ in 0..1000 {
        ledger.record(&ad);
    }
    let report = ledger.report();
    assert_eq!(report.impressions, 1000);
    assert_eq!(report.spend, 2200, "1000 impressions at 22.0 cpm = 22.0");
}

#[test]
fn report_sorts_by_spend_descending() {
    let mut ledger = Ledger::new();
    let cheap = Ad::new("Initech", 1, 800);
    let dear = Ad::new("Contoso", 1, 2200);
    for _ in 0..1000 {
        ledger.record(&cheap);
        ledger.record(&dear);
    }
    let report = ledger.report();
    assert_eq!(report.ads[0].text, "Contoso");
    assert_eq!(report.ads[1].text, "Initech");
}

#[test]
fn ledger_reset_clears_the_book() {
    let mut ledger = Ledger::new();
    ledger.record(&Ad::new("Contoso", 1, 2200));
    ledger.reset();
    assert_eq!(ledger.total_impressions(), 0);
}

#[test]
fn spend_rounds_to_the_nearest_cent() {
    let mut ledger = Ledger::new();
    ledger.record(&Ad::new("a", 1, 2200));
    let report = ledger.report();
    assert_eq!(report.ads[0].spend, 2);
    let mut ledger = Ledger::new();
    let half = Ad::new("b", 1, 500);
    for _ in 0..3 {
        ledger.record(&half);
    }
    assert_eq!(ledger.report().spend, 2);
    let mut ledger = Ledger::new();
    ledger.record(&Ad::new("c", 1, 499));
    assert_eq!(ledger.report().spend, 0);
}

#[test]
fn the_latest_cpm_is_booked() {
    let mut ledger = Ledger::new();
    ledger.record(&Ad::new("Contoso", 1, 1000));
    ledger.record(&Ad::new("Contoso", 5, 3000));
    let report = ledger.report();
    assert_eq!(report.ads.len(), 1);
    assert_eq!(report.ads[0].impressions, 2);
    assert_eq!(report.ads[0].cpm, 3000);
    assert_eq!(report.ads[0].spend, 6);
}

#[test]
fn report_totals_every_row() {
    let mut ledger = Ledger::new();
    for (text, n, cpm) in [("a", 3u32, 1000u64), ("b", 7, 0), ("c", 1, 50000), ("d", 2, 1000)] {
        let ad = Ad::new(text, 1, cpm);
        for _ in 0..n {
            ledger.record(&ad);
        }
    }
    let report = ledger.report();
    assert_eq!(report.impressions, 13);
    assert_eq!(report.spend, 3 + 0 + 50 + 2);
    let spends: Vec<u128> = report.ads.iter().map(|a| a.spend).collect();
    assert_eq!(spends, vec![50, 3, 2, 0]);
    assert_eq!(report.ads[0].text, "c");
    assert_eq!(report.ads[3].text, "b");
}

#[test]
fn empty_ledger_reports_nothing() {
    let report = Ledger::new().report();
    assert_eq!(report.impressions, 0);
    assert_eq!(report.spend, 0);
    assert!(report.ads.is_empty());
}

#[test]
fn booking_one_text_leaves_the_others() {
    let mut ledger = Ledger::new();
    ledger.record(&Ad::new("a", 1, 1000));
    ledger.record(&Ad::new("b", 1, 1000));
    ledger.record(&Ad::new("a", 1, 1000));
    let report = ledger.report();
    let a = report.ads.iter().find(|r| r.text == "a").unwrap();
    let b = report.ads.iter().find(|r| r.text == "b").unwrap();
    assert_eq!(a.impressions, 2);
    assert_eq!(b.impressions, 1);
    assert_eq!(ledger.total_impressions(), 3);
}
