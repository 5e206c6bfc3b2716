use sponsored_logs::advertisers::default_pool;
use sponsored_logs::{Ad, Box, Format};

#[test]
fn default_pool_has_thirteen_creatives() {
    assert_eq!(default_pool().len(), 13);
}

#[test]
fn house_ads_bill_at_zero() {
    let pool = default_pool();
    let house: Vec<&Ad> = pool.iter().filter(|a| a.cpm == 0).collect();
    assert_eq!(house.len(), 3, "three house creatives, all at zero cpm");
}

#[test]
fn ad_new_sets_fields() {
    let ad = Ad::new("hi", 2, 500);
    assert_eq!(ad.text, "hi");
    assert_eq!(ad.weight, 2);
    assert_eq!(ad.cpm, 500);
}

#[test]
fn ad_new_is_a_light_line() {
    let ad = Ad::new("hi", 2, 500);
    assert_eq!(ad.format, Format::Line);
    assert_eq!(ad.box_tier, Box::Light);
}

#[test]
fn banner_promotes_the_creative() {
    let ad = Ad::new("hi", 2, 500).banner(Box::Heavy);
    assert_eq!(ad.format, Format::Banner);
    assert_eq!(ad.box_tier, Box::Heavy);
    assert_eq!(ad.text, "hi");
    assert_eq!(ad.weight, 2);
    assert_eq!(ad.cpm, 500);
}

#[test]
fn default_pool_leads_with_contoso() {
    let pool = default_pool();
    assert_eq!(
        pool[0].text,
        "Brought to you by Contoso, the enterprise you invented for the demo."
    );
    assert_eq!(pool[0].weight, 3);
    assert_eq!(pool[0].cpm, 2200);
    assert!(pool.iter().all(|a| a.format == Format::Line && a.weight > 0));
    assert!(pool[..10].iter().all(|a| a.cpm > 0));
}
