//! The exchange: an on/off switch, the campaign controls and the impression
//! ledger, and the decision of what fills a slot once the fill dice have hit.

use vstd::prelude::*;

use rand::rngs::StdRng;

use crate::color::gild_with;
use crate::ledger::{impressions_total, AdReport, Ledger, Report, Row};
use crate::{pick, render, Ad, Config, Format};

verus! {

/// One rendered placement, with whether it is a multi-line banner and
/// whether its tag carries gilding; the emitter frames banners with blank
/// lines and sends gilded text where escapes survive.
#[derive(Clone, Debug, PartialEq, Eq)]
pub struct Placement {
    pub text: String,
    pub is_banner: bool,
    pub gilded: bool,
}

/// The exchange. Active on creation.
pub struct SponsoredLayer {
    config: Config,
    ledger: Ledger,
    active: bool,
    gild: bool,
}

impl SponsoredLayer {
    /// The campaign controls the exchange was built with.
    pub closed spec fn settings(&self) -> Config {
        self.config
    }

    /// The booked impressions.
    pub closed spec fn book(&self) -> Seq<Row> {
        self.ledger@
    }

    /// Whether the exchange is filling inventory.
    pub closed spec fn on(&self) -> bool {
        self.active
    }

    /// Whether placements carry a gilded tag; settled once, at creation.
    pub closed spec fn gilding(&self) -> bool {
        self.gild
    }

    /// The ledger is sound.
    pub closed spec fn wf(&self) -> bool {
        self.ledger.wf()
    }

    /// Stand up the exchange from a `Config`, active, with an empty book.
    /// Whether to gild is settled here from the color mode and the state of
    /// the environment (`NO_COLOR` unset, stdout a terminal).
    pub fn new(config: Config, no_color_unset: bool, is_tty: bool) -> (l: SponsoredLayer)
        ensures
            l.wf(),
            l.on(),
            l.book() == Seq::<Row>::empty(),
            l.gilding() == crate::color::gilds(config.color, no_color_unset, is_tty),
            l.settings() == config,
    {
        let gild = gild_with(config.color, no_color_unset, is_tty);
        SponsoredLayer { config, ledger: Ledger::new(), active: true, gild }
    }

    /// Resume monetization.
    pub fn sponsor(&mut self)
        ensures
            final(self).on(),
            final(self).book() == old(self).book(),
            final(self).settings() == old(self).settings(),
            final(self).gilding() == old(self).gilding(),
            final(self).wf() == old(self).wf(),
    {
        self.active = true;
    }

    /// Pause the revenue firehose. The layer stays resident but inert.
    pub fn unsponsor(&mut self)
        ensures
            !final(self).on(),
            final(self).book() == old(self).book(),
            final(self).settings() == old(self).settings(),
            final(self).gilding() == old(self).gilding(),
            final(self).wf() == old(self).wf(),
    {
        self.active = false;
    }

    /// Whether the exchange is currently filling inventory.
    pub fn active(&self) -> (on: bool)
        ensures
            on == self.on(),
    {
        self.active
    }

    /// The live revenue dashboard (see `Ledger::report`).
    pub fn report(&self) -> (r: Report)
        requires
            self.wf(),
        ensures
            r.ads@.len() == self.book().len(),
            forall|i: int, j: int|
                0 <= i < j < r.ads@.len() ==> r.ads@[i].spend >= r.ads@[j].spend,
            r.ads@.map_values(|a: AdReport| crate::ledger::report_row(a)).to_multiset()
                == self.book().map_values(|e: Row| crate::ledger::priced(e)).to_multiset(),
            r.impressions == impressions_total(self.book()),
            r.spend == crate::ledger::spend_total(self.book()),
            r.impressions == crate::ledger::column_total(
                r.ads@.map_values(|a: AdReport| crate::ledger::report_row(a)),
                false,
            ),
            r.spend == crate::ledger::column_total(
                r.ads@.map_values(|a: AdReport| crate::ledger::report_row(a)),
                true,
            ),
    {
        self.ledger.report()
    }

    /// Total impressions booked.
    pub fn impressions(&self) -> (n: u64)
        requires
            self.wf(),
        ensures
            n == impressions_total(self.book()),
    {
        self.ledger.total_impressions()
    }

    /// Clear the tally.
    pub fn reset_ledger(&mut self)
        ensures
            final(self).wf(),
            final(self).book() == Seq::<Row>::empty(),
            final(self).on() == old(self).on(),
            final(self).settings() == old(self).settings(),
            final(self).gilding() == old(self).gilding(),
    {
        self.ledger.reset();
    }

    /// The core auction, once the fill dice have been rolled (`hit` is
    /// whether they came up under the fill rate). Nothing happens when the
    /// exchange is paused, the dice missed, or no creative can be picked, and
    /// the generator is then left as it was.
    /// Otherwise a creative of positive weight is picked, one impression is
    /// booked against it, and its rendered placement is returned.
    pub fn maybe_fill(&mut self, hit: bool, rng: &mut StdRng) -> (p: Option<Placement>)
        requires
            old(self).wf(),
            old(self).on() && hit ==> impressions_total(old(self).book()) < u64::MAX,
        ensures
            final(self).wf(),
            final(self).on() == old(self).on(),
            final(self).settings() == old(self).settings(),
            final(self).gilding() == old(self).gilding(),
            p is None ==> final(self).book() == old(self).book(),
            p is None ==> *final(rng) == *old(rng),
            p is Some ==> impressions_total(final(self).book()) == impressions_total(
                old(self).book(),
            ) + 1,
            p is None <==> (!old(self).on() || !hit || old(self).settings().ads@.len() == 0
                || crate::sampling::total(
                crate::pick_weights(old(self).settings().ads@, old(self).settings().selection),
            ) == 0),
            p matches Some(pl) ==> exists|i: int|
                #![trigger old(self).settings().ads@[i]]
                {
                    &&& 0 <= i < old(self).settings().ads@.len()
                    &&& crate::pick_weights(
                        old(self).settings().ads@,
                        old(self).settings().selection,
                    )[i] > 0
                    &&& final(self).book() == crate::ledger::book_one(
                        old(self).book(),
                        old(self).settings().ads@[i].text@,
                        old(self).settings().ads@[i].cpm,
                    )
                    &&& pl.text@ == crate::placement_text(
                        old(self).settings().ads@[i],
                        old(self).settings().ad_prefix@,
                        old(self).settings().ascii_only,
                        old(self).gilding(),
                    )
                    &&& pl.is_banner == (old(self).settings().ads@[i].format == Format::Banner)
                    &&& pl.gilded == old(self).gilding()
                },
    {
        if !self.active || !hit {
            return None;
        }
        let ad = match pick(self.config.ads.as_slice(), self.config.selection, rng) {
            Some(a) => a.clone(),
            None => return None,
        };
        Some(self.place(&ad))
    }

    /// What follows once a creative has been picked: book one impression
    /// against `ad` and render its placement with the configured tag, border
    /// set and gilding.
    pub fn place(&mut self, ad: &Ad) -> (pl: Placement)
        requires
            old(self).wf(),
            impressions_total(old(self).book()) < u64::MAX,
        ensures
            final(self).wf(),
            final(self).on() == old(self).on(),
            final(self).settings() == old(self).settings(),
            final(self).gilding() == old(self).gilding(),
            final(self).book() == crate::ledger::book_one(old(self).book(), ad.text@, ad.cpm),
            impressions_total(final(self).book()) == impressions_total(old(self).book()) + 1,
            pl.text@ == crate::placement_text(
                *ad,
                old(self).settings().ad_prefix@,
                old(self).settings().ascii_only,
                old(self).gilding(),
            ),
            pl.is_banner == (ad.format == Format::Banner),
            pl.gilded == old(self).gilding(),
    {
        self.ledger.record(ad);
        let text = render(ad, self.config.ad_prefix.as_str(), self.config.ascii_only, self.gild);
        Placement { text, is_banner: ad.format == Format::Banner, gilded: self.gild }
    }

    /// The exchange as the environment sets it up, against a caller-supplied
    /// lookup: the controls come from the `SPONSORED_LOGS_*` overrides (see
    /// `config_with`), and the exchange is active exactly when
    /// `SPONSORED_LOGS` is present and truthy, resident but inert otherwise.
    pub fn from_env_with(
        get: impl Fn(&str) -> Option<String>,
        no_color_unset: bool,
        is_tty: bool,
    ) -> (l: SponsoredLayer)
        requires
            forall|k: &str| call_requires(get, (k,)),
        ensures
            l.wf(),
            l.book() == Seq::<Row>::empty(),
            exists|v: Option<String>|
                call_ensures(get, ("SPONSORED_LOGS",), v) && l.on() == crate::env::requests(v),
            l.gilding() == crate::color::gilds(l.settings().color, no_color_unset, is_tty),
            crate::is_default_pool(l.settings().ads@),
            exists|v: Option<String>|
                call_ensures(get, ("SPONSORED_LOGS_PREFIX",), v) && l.settings().ad_prefix@
                    == crate::env::prefix_setting(v),
            exists|v: Option<String>|
                call_ensures(get, ("SPONSORED_LOGS_SELECTION",), v) && l.settings().selection
                    == crate::env::selection_setting(v),
            exists|v: Option<String>|
                call_ensures(get, ("SPONSORED_LOGS_ASCII_ONLY",), v) && l.settings().ascii_only
                    == crate::env::requests(v),
            exists|v: Option<String>|
                call_ensures(get, ("SPONSORED_LOGS_COLOR",), v) && l.settings().color
                    == crate::env::color_setting(v),
    {
        let requested = get("SPONSORED_LOGS");
        let on = match &requested {
            Some(v) => crate::env::truthy(v.as_str()),
            None => false,
        };
        assert(call_ensures(get, ("SPONSORED_LOGS",), requested) && on == crate::env::requests(
            requested,
        ));
        let config = crate::env::config_with(get);
        let mut layer = SponsoredLayer::new(config, no_color_unset, is_tty);
        if !on {
            layer.unsponsor();
        }
        layer
    }
}

} // verus!
