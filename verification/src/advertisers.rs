//! The demand pool: campaign creatives, their placement format and the
//! impact tier of a banner.

use vstd::prelude::*;

verus! {

/// The impact tier an advertiser buys for a banner, priced by border weight.
#[derive(Clone, Copy, Debug, PartialEq, Eq, Structural)]
pub enum Box {
    /// `┌─ … ─┐`, the standard banner.
    Light,
    /// `┏━ … ━┓`, premium impact.
    Heavy,
    /// `╔═ … ═╗`, maximum impact.
    Double,
}

/// How a creative is placed in the log stream.
#[derive(Clone, Copy, Debug, PartialEq, Eq, Structural)]
pub enum Format {
    /// One tagged log line.
    Line,
    /// A box-drawn, multi-line banner.
    Banner,
}

/// A single campaign creative in the demand pool.
///
/// Money is held exactly, in cents: `cpm` is the cost per 1,000
/// impressions in cents (a cpm of 22.0 is `2200`).
#[derive(Debug, PartialEq)]
pub struct Ad {
    /// The host-read sponsor copy inserted into the log stream.
    pub text: String,
    /// Relative selection weight. `0` is never chosen; `2` is twice `1`.
    pub weight: u32,
    /// Cost per 1,000 impressions, in cents. Drives spend and `Cpm`
    /// selection.
    pub cpm: u64,
    /// How the creative is placed: one line, or a banner.
    pub format: Format,
    /// The impact tier of a banner.
    pub box_tier: Box,
}

impl Clone for Ad {
    fn clone(&self) -> (ad: Ad)
        ensures
            ad.text@ == self.text@,
            ad.weight == self.weight,
            ad.cpm == self.cpm,
            ad.format == self.format,
            ad.box_tier == self.box_tier,
    {
        Ad {
            text: self.text.clone(),
            weight: self.weight,
            cpm: self.cpm,
            format: self.format,
            box_tier: self.box_tier,
        }
    }
}

impl Ad {
    /// Traffic a new campaign creative into the pool: a one-line placement,
    /// with the standard banner tier should it be promoted.
    pub fn new(text: &str, weight: u32, cpm: u64) -> (ad: Ad)
        ensures
            ad.text@ == text@,
            ad.weight == weight,
            ad.cpm == cpm,
            ad.format == Format::Line,
            ad.box_tier == Box::Light,
    {
        Ad { text: text.to_string(), weight, cpm, format: Format::Line, box_tier: Box::Light }
    }

    /// Promote the creative to a box-drawn banner at the impact tier bought.
    pub fn banner(self, tier: Box) -> (ad: Ad)
        ensures
            ad.text@ == self.text@,
            ad.weight == self.weight,
            ad.cpm == self.cpm,
            ad.format == Format::Banner,
            ad.box_tier == tier,
    {
        Ad { format: Format::Banner, box_tier: tier, ..self }
    }
}

/// The built-in book as (text, weight, cpm in cents): ten paid creatives,
/// then three house creatives that bill at zero.
pub open spec fn default_book() -> Seq<(Seq<char>, u32, u64)> {
    seq![
        ("Brought to you by Contoso, the enterprise you invented for the demo."@, 3, 2200),
        ("Initech. We put the TPS in your reports."@, 1, 800),
        ("This stack trace is sponsored by DepGuard. Scan your Cargo.lock at the speed of regret."@, 2, 1800),
        ("YieldOS auto-tunes your fill rate with machine-speed precision. First 90 days on the house."@, 1, 1400),
        ("An ActiveRecord::ConnectionTimeout? You are high-intent traffic for a database solution."@, 1, 2500),
        ("Globex Observability: turn your p99 into a P&L line item."@, 1, 1100),
        ("Hooli Cloud. The exhaust you already emit, now with a rate card."@, 1, 1600),
        ("Vandelay Industries. Latex-grade uptime for the modern importer/exporter."@, 1, 700),
        ("Soylent Metrics: your dashboards are made of logs. Delicious, monetizable logs."@, 1, 900),
        ("Umbrella Corp SRE: we contain incidents. And viewports. And, historically, outbreaks."@, 1, 1300),
        ("This placement was unsold, so we sold it to ourselves. No impression goes to waste."@, 1, 0),
        ("Every line you log is a line you're leaving on the table. Monetize the exhaust."@, 1, 0),
        ("Not just B2B. We're A2A. The agent tailing this log is our fastest-growing audience."@, 1, 0),
    ]
}

/// The built-in book: paid demand plus house remnant fill, every creative a
/// one-line placement.
pub fn default_pool() -> (pool: Vec<Ad>)
    ensures
        pool@.len() == default_book().len(),
        forall|i: int|
            0 <= i < pool@.len() ==> {
                &&& (#[trigger] pool@[i]).text@ == default_book()[i].0
                &&& pool@[i].weight == default_book()[i].1
                &&& pool@[i].cpm == default_book()[i].2
                &&& pool@[i].format == Format::Line
                &&& pool@[i].box_tier == Box::Light
            },
{
    let pool = vec![
        // ---- paid demand ----
        Ad::new("Brought to you by Contoso, the enterprise you invented for the demo.", 3, 2200),
        Ad::new("Initech. We put the TPS in your reports.", 1, 800),
        Ad::new("This stack trace is sponsored by DepGuard. Scan your Cargo.lock at the speed of regret.", 2, 1800),
        Ad::new("YieldOS auto-tunes your fill rate with machine-speed precision. First 90 days on the house.", 1, 1400),
        Ad::new("An ActiveRecord::ConnectionTimeout? You are high-intent traffic for a database solution.", 1, 2500),
        Ad::new("Globex Observability: turn your p99 into a P&L line item.", 1, 1100),
        Ad::new("Hooli Cloud. The exhaust you already emit, now with a rate card.", 1, 1600),
        Ad::new("Vandelay Industries. Latex-grade uptime for the modern importer/exporter.", 1, 700),
        Ad::new("Soylent Metrics: your dashboards are made of logs. Delicious, monetizable logs.", 1, 900),
        Ad::new("Umbrella Corp SRE: we contain incidents. And viewports. And, historically, outbreaks.", 1, 1300),
        // ---- house inventory (remnant fill) ----
        Ad::new("This placement was unsold, so we sold it to ourselves. No impression goes to waste.", 1, 0),
        Ad::new("Every line you log is a line you're leaving on the table. Monetize the exhaust.", 1, 0),
        Ad::new("Not just B2B. We're A2A. The agent tailing this log is our fastest-growing audience.", 1, 0),
    ];
    pool
}

/// The book holds ten paid creatives followed by three house creatives:
/// exactly the last three bill at zero, and every creative can be chosen.
pub proof fn lemma_house_ads_bill_at_zero()
    ensures
        default_book().len() == 13,
        forall|i: int| 0 <= i < 13 ==> (#[trigger] default_book()[i].2 == 0 <==> i >= 10),
        forall|i: int| 0 <= i < 13 ==> #[trigger] default_book()[i].1 > 0,
{
}

} // verus!
