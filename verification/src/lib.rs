//! Sponsor placements for a log stream.
//!
//! The library decides everything about a placement: which creative fills a
//! slot (a weighted pick by weight or by bid), how it is drawn (a tagged line
//! or a box-drawn banner with a masthead), whether its tag is gilded, what
//! the environment switches mean, and how impressions and spend are booked.
//! Rolling the fill dice, reading the process environment and the terminal,
//! and emitting through a log subscriber are left to the caller.

pub mod advertisers;
pub mod banner;
pub mod chars;
pub mod color;
pub mod env;
pub mod layer;
pub mod ledger;
pub mod sampling;

pub use advertisers::{Ad, Box, Format};
pub use color::Color;
pub use layer::{Placement, SponsoredLayer};
pub use ledger::{AdReport, Ledger, Report};

use vstd::prelude::*;

use rand::rngs::StdRng;

use crate::chars::{chars_of, normalize, same_chars, string_of};
use crate::sampling::{sample_index, weighted_index};

verus! {

/// How the exchange samples which creative fills a slot.
#[derive(Clone, Copy, Debug, PartialEq, Eq, Structural)]
pub enum Selection {
    /// Pick by each ad's `weight`. Fill rate is king.
    Weight,
    /// Pick by each ad's `cpm`. The highest bidder wins more inventory.
    Cpm,
}

/// The selection named by a raw setting: `cpm` after trimming and ASCII
/// lower-casing; anything else is `Weight`.
pub open spec fn selection_named(value: Seq<char>) -> Selection {
    if crate::chars::normalized(value) == seq!['c', 'p', 'm'] {
        Selection::Cpm
    } else {
        Selection::Weight
    }
}

impl Default for Selection {
    fn default() -> (s: Selection)
        ensures
            s == Selection::Weight,
    {
        Selection::Weight
    }
}

impl Selection {
    /// Parse a raw setting. Unrecognized values settle to `Weight`, because
    /// fill rate is king.
    pub fn from_env_str(value: &str) -> (s: Selection)
        ensures
            s == selection_named(value@),
    {
        let v = normalize(value);
        let cpm = vec!['c', 'p', 'm'];
        assert(cpm@ =~= seq!['c', 'p', 'm']);
        if same_chars(&v, &cpm) {
            Selection::Cpm
        } else {
            Selection::Weight
        }
    }
}

/// One placement as text. A `Line` creative is the tagged line
/// `prefix text` (the bare text for a blank prefix), its tag gilded when
/// `gild` is set; a `Banner` is the box-drawn unit at its bought tier.
pub open spec fn placement_text(ad: Ad, prefix: Seq<char>, ascii_only: bool, gild: bool) -> Seq<
    char,
> {
    match ad.format {
        Format::Banner => crate::banner::banner(ad.text@, prefix, ad.box_tier, ascii_only, gild),
        Format::Line => if prefix.len() == 0 {
            ad.text@
        } else {
            crate::color::gilded(prefix, gild) + seq![' '] + ad.text@
        },
    }
}

/// Format one placement with the configured prefix. A `Line` creative
/// renders as the classic tagged line; a `Banner` graduates into a box-drawn
/// unit at its bought impact tier.
pub fn render(ad: &Ad, prefix: &str, ascii_only: bool, gild: bool) -> (out: String)
    ensures
        out@ == placement_text(*ad, prefix@, ascii_only, gild),
{
    match ad.format {
        Format::Banner => banner::render(ad.text.as_str(), prefix, ad.box_tier, ascii_only, gild),
        Format::Line => {
            let p = chars_of(prefix);
            if p.len() == 0 {
                ad.text.clone()
            } else {
                let tag = color::colorize(prefix, gild);
                let mut out = chars_of(tag.as_str());
                out.push(' ');
                let t = chars_of(ad.text.as_str());
                let mut rest = t;
                out.append(&mut rest);
                string_of(&out)
            }
        },
    }
}

/// The selection weight of every ad: its `weight`, or under `Cpm` its bid,
/// falling back to `weight` when no ad bids above zero.
pub open spec fn pick_weights(ads: Seq<Ad>, selection: Selection) -> Seq<u128> {
    let by_weight = ads.map_values(|a: Ad| a.weight as u128);
    let by_cpm = ads.map_values(|a: Ad| a.cpm as u128);
    match selection {
        Selection::Weight => by_weight,
        Selection::Cpm => if crate::sampling::total(by_cpm) > 0 {
            by_cpm
        } else {
            by_weight
        },
    }
}

proof fn lemma_total_bound(ws: Seq<u128>, bound: int)
    requires
        bound >= 0,
        forall|i: int| 0 <= i < ws.len() ==> ws[i] <= bound,
    ensures
        0 <= crate::sampling::total(ws) <= ws.len() * bound,
    decreases ws.len(),
{
    if ws.len() > 0 {
        lemma_total_bound(ws.drop_last(), bound);
        let n = ws.len() as int;
        assert((n - 1) * bound + bound == n * bound) by (nonlinear_arith);
    }
}

proof fn lemma_total_push(ws: Seq<u128>, w: u128)
    ensures
        crate::sampling::total(ws.push(w)) == crate::sampling::total(ws) + w,
{
    assert(ws.push(w).drop_last() =~= ws);
}

/// The weight each creative of `ads` is sampled with: its `weight`, or under
/// `Cpm` its bid, falling back to `weight` when no creative bids above zero.
pub fn selection_weights(ads: &[Ad], selection: Selection) -> (w: Vec<u128>)
    ensures
        w@ == pick_weights(ads@, selection),
{
    let ghost by_weight = ads@.map_values(|a: Ad| a.weight as u128);
    let ghost by_cpm = ads@.map_values(|a: Ad| a.cpm as u128);
    let mut weights: Vec<u128> = Vec::new();
    let mut cpms: Vec<u128> = Vec::new();
    let mut cpm_sum: u128 = 0;
    let mut k: usize = 0;
    while k < ads.len()
        invariant
            k <= ads@.len(),
            by_weight == ads@.map_values(|a: Ad| a.weight as u128),
            by_cpm == ads@.map_values(|a: Ad| a.cpm as u128),
            weights@ == by_weight.take(k as int),
            cpms@ == by_cpm.take(k as int),
            cpm_sum == crate::sampling::total(by_cpm.take(k as int)),
            crate::sampling::total(by_cpm.take(k as int)) <= k * (u64::MAX as int),
        decreases ads@.len() - k,
    {
        let ad = &ads[k];
        proof {
            assert(by_cpm.take(k + 1) =~= by_cpm.take(k as int).push(by_cpm[k as int]));
            assert(by_weight.take(k + 1) =~= by_weight.take(k as int).push(by_weight[k as int]));
            lemma_total_push(by_cpm.take(k as int), by_cpm[k as int]);
            assert(k * (u64::MAX as int) + u64::MAX <= (k + 1) * (u64::MAX as int)) by (
            nonlinear_arith);
            assert((k + 1) * (u64::MAX as int) <= (usize::MAX as int) * (u64::MAX as int)) by (
            nonlinear_arith)
                requires
                    k + 1 <= usize::MAX,
            ;
            assert((usize::MAX as int) * (u64::MAX as int) < u128::MAX);
        }
        weights.push(ad.weight as u128);
        cpms.push(ad.cpm as u128);
        cpm_sum = cpm_sum + ad.cpm as u128;
        k = k + 1;
    }
    assert(by_weight.take(ads@.len() as int) =~= by_weight);
    assert(by_cpm.take(ads@.len() as int) =~= by_cpm);
    let chosen = match selection {
        Selection::Weight => weights,
        Selection::Cpm => if cpm_sum > 0 {
            cpms
        } else {
            weights
        },
    };
    chosen
}

/// The real-time yield-optimization engine: given an eligible pool, pick
/// which creative fills the slot. The sampler is handed exactly the
/// `selection_weights` of the pool, so each creative's chance is in
/// proportion to its weight or, under `Cpm`, to its bid. Returns `None`
/// exactly when the pool is empty or every weight is zero, and then leaves
/// the generator untouched; a creative of weight zero is never chosen.
pub fn pick<'a>(ads: &'a [Ad], selection: Selection, rng: &mut StdRng) -> (r: Option<&'a Ad>)
    ensures
        r is None <==> (ads@.len() == 0 || crate::sampling::total(pick_weights(ads@, selection))
            == 0),
        r is None ==> *final(rng) == *old(rng),
        r matches Some(a) ==> exists|i: int|
            0 <= i < ads@.len() && *a == ads@[i] && pick_weights(ads@, selection)[i] > 0,
{
    if ads.len() == 0 {
        return None;
    }
    let chosen = selection_weights(ads, selection);
    proof {
        assert forall|i: int| 0 <= i < chosen@.len() implies chosen@[i] <= u64::MAX as int by {
            assert(ads@[i].weight <= u64::MAX);
        }
        lemma_total_bound(chosen@, u64::MAX as int);
        assert(chosen@.len() * (u64::MAX as int) <= (usize::MAX as int) * (u64::MAX as int)) by (
        nonlinear_arith)
            requires
                chosen@.len() <= usize::MAX,
        ;
        assert((usize::MAX as int) * (u64::MAX as int) < u128::MAX);
    }
    match weighted_index(&chosen) {
        Ok(d) => {
            let i = sample_index(&d, rng);
            Some(&ads[i])
        },
        Err(_) => None,
    }
}

/// Self-serve campaign controls. The fill rate lives with the caller, which
/// rolls the dice; everything the exchange decides from is here.
#[derive(Clone, Debug)]
pub struct Config {
    /// The demand pool.
    pub ads: Vec<Ad>,
    /// How the pool is sampled.
    pub selection: Selection,
    /// Tag prepended to each message. Blank omits it.
    pub ad_prefix: String,
    /// Force portable `+`/`-`/`|` banner borders for legacy sinks.
    pub ascii_only: bool,
    /// When the tag is gilded.
    pub color: Color,
}

/// Whether `ads` is the built-in book.
pub open spec fn is_default_pool(ads: Seq<Ad>) -> bool {
    &&& ads.len() == crate::advertisers::default_book().len()
    &&& forall|i: int|
        0 <= i < ads.len() ==> {
            &&& (#[trigger] ads[i]).text@ == crate::advertisers::default_book()[i].0
            &&& ads[i].weight == crate::advertisers::default_book()[i].1
            &&& ads[i].cpm == crate::advertisers::default_book()[i].2
            &&& ads[i].format == Format::Line
            &&& ads[i].box_tier == Box::Light
        }
}

impl Default for Config {
    /// The built-in book, sampled by weight, tagged `[AD]`, box-drawn
    /// borders, gilded automatically.
    fn default() -> (c: Config)
        ensures
            is_default_pool(c.ads@),
            c.selection == Selection::Weight,
            c.ad_prefix@ == "[AD]"@,
            !c.ascii_only,
            c.color == Color::Auto,
    {
        Config {
            ads: advertisers::default_pool(),
            selection: Selection::Weight,
            ad_prefix: "[AD]".to_string(),
            ascii_only: false,
            color: Color::Auto,
        }
    }
}

proof fn lemma_total_zero(ws: Seq<u128>)
    requires
        forall|i: int| 0 <= i < ws.len() ==> ws[i] == 0,
    ensures
        crate::sampling::total(ws) == 0,
    decreases ws.len(),
{
    if ws.len() > 0 {
        lemma_total_zero(ws.drop_last());
    }
}

/// When every creative bids zero, selection by cpm falls back to selection
/// by weight, so the slot is still filled whenever some weight is positive.
pub proof fn lemma_cpm_falls_back_to_weight(ads: Seq<Ad>)
    requires
        forall|i: int| 0 <= i < ads.len() ==> #[trigger] ads[i].cpm == 0,
    ensures
        pick_weights(ads, Selection::Cpm) == pick_weights(ads, Selection::Weight),
{
    lemma_total_zero(ads.map_values(|a: Ad| a.cpm as u128));
}

} // verus!
