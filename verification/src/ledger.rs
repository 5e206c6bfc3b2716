//! The impression ledger: the source of financial truth.
//!
//! Each inserted message counts as one impression for its ad, keyed by the
//! ad's text. Money is exact, in cents: the spend of `n` impressions at a
//! cpm of `c` cents is `n * c / 1000` cents, rounded to the nearest cent
//! (halves up).

use vstd::prelude::*;

use crate::advertisers::Ad;

verus! {

broadcast use {vstd::seq_lib::group_to_multiset_ensures, vstd::multiset::group_multiset_axioms};

/// One booked creative: its text, its impressions and the cpm (in cents)
/// last seen for it.
pub type Row = (Seq<char>, u64, u64);

/// A dashboard row as plain values: text, impressions, cpm, spend.
pub type PricedRow = (Seq<char>, u64, u64, int);

/// A single row of the revenue dashboard. `cpm` and `spend` are in cents.
#[derive(Clone, Debug, PartialEq)]
pub struct AdReport {
    pub text: String,
    pub impressions: u64,
    pub cpm: u64,
    pub spend: u128,
}

/// The full revenue snapshot. `spend` is in cents.
#[derive(Clone, Debug, PartialEq)]
pub struct Report {
    pub impressions: u64,
    pub spend: u128,
    pub ads: Vec<AdReport>,
}

struct Entry {
    text: String,
    impressions: u64,
    cpm: u64,
}

/// In-memory impression tally, keyed by ad text. Not persisted.
pub struct Ledger {
    entries: Vec<Entry>,
}

/// The spend, in cents, of `impressions` at a cpm of `cpm` cents: the
/// exact `impressions * cpm / 1000`, rounded to the nearest cent.
pub open spec fn spend_cents(impressions: int, cpm: int) -> int {
    (impressions * cpm + 500) / 1000
}

/// The impressions booked over `rows`.
pub open spec fn impressions_total(rows: Seq<Row>) -> int
    decreases rows.len(),
{
    if rows.len() == 0 {
        0
    } else {
        impressions_total(rows.drop_last()) + rows.last().1
    }
}

/// The spend, in cents, booked over `rows`.
pub open spec fn spend_total(rows: Seq<Row>) -> int
    decreases rows.len(),
{
    if rows.len() == 0 {
        0
    } else {
        spend_total(rows.drop_last()) + spend_cents(rows.last().1 as int, rows.last().2 as int)
    }
}

/// A book is sound when no text is booked twice, every booked creative has
/// at least one impression, and the impressions add up to a `u64`.
pub open spec fn sound_book(rows: Seq<Row>) -> bool {
    &&& forall|i: int, j: int| 0 <= i < j < rows.len() ==> rows[i].0 != rows[j].0
    &&& forall|i: int| 0 <= i < rows.len() ==> #[trigger] rows[i].1 >= 1
    &&& impressions_total(rows) <= u64::MAX
}

/// Whether `text` is booked in `rows`.
pub open spec fn booked_at(rows: Seq<Row>, text: Seq<char>, i: int) -> bool {
    0 <= i < rows.len() && rows[i].0 == text
}

/// `rows` after one more impression of `text` at a cpm of `cpm`: the
/// impressions of `text` go up by one (from zero if it was not booked) and
/// its cpm becomes `cpm`.
pub open spec fn book_one(rows: Seq<Row>, text: Seq<char>, cpm: u64) -> Seq<Row> {
    if exists|i: int| booked_at(rows, text, i) {
        let i = choose|i: int| booked_at(rows, text, i);
        rows.update(i, (text, (rows[i].1 + 1) as u64, cpm))
    } else {
        rows.push((text, 1u64, cpm))
    }
}

/// A dashboard row as plain values: text, impressions, cpm, spend.
pub open spec fn report_row(a: AdReport) -> PricedRow {
    (a.text@, a.impressions, a.cpm, a.spend as int)
}

/// A booked row with its spend.
pub open spec fn priced(r: Row) -> PricedRow {
    (r.0, r.1, r.2, spend_cents(r.1 as int, r.2 as int))
}

/// The total of a column of dashboard rows: their spends when `spend`,
/// else their impressions.
pub open spec fn column_total(rows: Seq<PricedRow>, spend: bool) -> int
    decreases rows.len(),
{
    if rows.len() == 0 {
        0
    } else {
        column_total(rows.drop_last(), spend) + if spend {
            rows.last().3
        } else {
            rows.last().1 as int
        }
    }
}

proof fn lemma_column_remove(rows: Seq<PricedRow>, i: int, spend: bool)
    requires
        0 <= i < rows.len(),
    ensures
        column_total(rows, spend) == column_total(rows.remove(i), spend) + if spend {
            rows[i].3
        } else {
            rows[i].1 as int
        },
    decreases rows.len(),
{
    if i == rows.len() - 1 {
        assert(rows.remove(i) =~= rows.drop_last());
    } else {
        lemma_column_remove(rows.drop_last(), i, spend);
        assert(rows.remove(i).drop_last() =~= rows.drop_last().remove(i));
        assert(rows.remove(i).last() == rows.last());
    }
}

proof fn lemma_column_permutation(a: Seq<PricedRow>, b: Seq<PricedRow>, spend: bool)
    requires
        a.to_multiset() == b.to_multiset(),
    ensures
        column_total(a, spend) == column_total(b, spend),
    decreases a.len(),
{
    assert(a.to_multiset().len() == a.len());
    assert(b.to_multiset().len() == b.len());
    if a.len() > 0 {
        let x = a.last();
        assert(a.drop_last().push(x) =~= a);
        assert(a.to_multiset() == a.drop_last().to_multiset().insert(x));
        assert(b.to_multiset().count(x) > 0);
        assert(b.contains(x));
        let j = choose|j: int| 0 <= j < b.len() && b[j] == x;
        assert(b.remove(j).to_multiset() == b.to_multiset().remove(x));
        assert(a.drop_last().to_multiset() =~= b.remove(j).to_multiset());
        lemma_column_permutation(a.drop_last(), b.remove(j), spend);
        lemma_column_remove(b, j, spend);
    }
}

proof fn lemma_priced_columns(rows: Seq<Row>)
    ensures
        column_total(rows.map_values(|e: Row| priced(e)), false) == impressions_total(rows),
        column_total(rows.map_values(|e: Row| priced(e)), true) == spend_total(rows),
    decreases rows.len(),
{
    if rows.len() > 0 {
        lemma_priced_columns(rows.drop_last());
        assert(rows.map_values(|e: Row| priced(e)).drop_last() =~= rows.drop_last().map_values(
            |e: Row| priced(e),
        ));
    }
}

impl View for Ledger {
    type V = Seq<Row>;

    closed spec fn view(&self) -> Seq<Row> {
        self.entries@.map_values(|e: Entry| (e.text@, e.impressions, e.cpm))
    }
}

impl Ledger {
    /// Whether the book is sound (see `sound_book`).
    pub open spec fn wf(&self) -> bool {
        sound_book(self@)
    }

    /// Open a fresh, empty book.
    pub fn new() -> (l: Ledger)
        ensures
            l@ == Seq::<Row>::empty(),
            l.wf(),
    {
        let l = Ledger { entries: Vec::new() };
        assert(l@ =~= Seq::<Row>::empty());
        l
    }
}

proof fn lemma_total_push(rows: Seq<Row>, r: Row)
    ensures
        impressions_total(rows.push(r)) == impressions_total(rows) + r.1,
        spend_total(rows.push(r)) == spend_total(rows) + spend_cents(r.1 as int, r.2 as int),
{
    assert(rows.push(r).drop_last() =~= rows);
}

proof fn lemma_total_update(rows: Seq<Row>, i: int, r: Row)
    requires
        0 <= i < rows.len(),
    ensures
        impressions_total(rows.update(i, r)) == impressions_total(rows) - rows[i].1 + r.1,
    decreases rows.len(),
{
    if i < rows.len() - 1 {
        lemma_total_update(rows.drop_last(), i, r);
        assert(rows.update(i, r).drop_last() =~= rows.drop_last().update(i, r));
    } else {
        assert(rows.update(i, r).drop_last() =~= rows.drop_last());
    }
}

proof fn lemma_total_prefix(rows: Seq<Row>, k: int)
    requires
        0 <= k <= rows.len(),
    ensures
        impressions_total(rows.take(k)) <= impressions_total(rows),
        forall|i: int| 0 <= i < rows.len() ==> #[trigger] rows[i].1 <= impressions_total(rows),
    decreases rows.len(),
{
    if rows.len() > 0 {
        lemma_total_prefix(rows.drop_last(), if k == rows.len() {
            0
        } else {
            k
        });
        if k < rows.len() {
            assert(rows.take(k) =~= rows.drop_last().take(k));
        } else {
            assert(rows.take(k) =~= rows);
        }
        assert forall|i: int| 0 <= i < rows.len() implies #[trigger] rows[i].1 <= impressions_total(
            rows,
        ) by {
            if i < rows.len() - 1 {
                assert(rows[i] == rows.drop_last()[i]);
            }
        }
    }
}

/// The impressions booked for `text` in `rows` (zero when not booked).
pub open spec fn count_of(rows: Seq<Row>, text: Seq<char>) -> int {
    if exists|i: int| booked_at(rows, text, i) {
        rows[choose|i: int| booked_at(rows, text, i)].1 as int
    } else {
        0
    }
}

proof fn lemma_count_at(rows: Seq<Row>, text: Seq<char>, i: int)
    requires
        sound_book(rows),
        booked_at(rows, text, i),
    ensures
        count_of(rows, text) == rows[i].1,
{
    let j = choose|j: int| booked_at(rows, text, j);
    if j != i {
        if j < i {
            assert(rows[j].0 != rows[i].0);
        } else {
            assert(rows[i].0 != rows[j].0);
        }
    }
}

/// Booking one impression keeps the book sound, adds exactly one impression
/// to the total and to the count of the booked text, and leaves the count of
/// every other text as it was.
pub proof fn lemma_booking_one_impression(rows: Seq<Row>, text: Seq<char>, cpm: u64)
    requires
        sound_book(rows),
        impressions_total(rows) < u64::MAX,
    ensures
        sound_book(book_one(rows, text, cpm)),
        impressions_total(book_one(rows, text, cpm)) == impressions_total(rows) + 1,
        count_of(book_one(rows, text, cpm), text) == count_of(rows, text) + 1,
        forall|t: Seq<char>|
            t != text ==> #[trigger] count_of(book_one(rows, text, cpm), t) == count_of(rows, t),
{
    let new_rows = book_one(rows, text, cpm);
    lemma_total_prefix(rows, 0);
    if exists|i: int| booked_at(rows, text, i) {
        let i = choose|i: int| booked_at(rows, text, i);
        let r: Row = (text, (rows[i].1 + 1) as u64, cpm);
        assert(new_rows == rows.update(i, r));
        lemma_total_update(rows, i, r);
        assert forall|a: int, b: int| 0 <= a < b < new_rows.len() implies new_rows[a].0
            != new_rows[b].0 by {
            assert(rows[a].0 != rows[b].0);
        }
        assert forall|a: int| 0 <= a < new_rows.len() implies #[trigger] new_rows[a].1 >= 1 by {
            assert(rows[a].1 >= 1);
        }
        lemma_count_at(rows, text, i);
        lemma_count_at(new_rows, text, i);
        assert forall|t: Seq<char>| t != text implies #[trigger] count_of(new_rows, t) == count_of(
            rows,
            t,
        ) by {
            if exists|j: int| booked_at(rows, t, j) {
                let j = choose|j: int| booked_at(rows, t, j);
                assert(booked_at(new_rows, t, j));
                lemma_count_at(rows, t, j);
                lemma_count_at(new_rows, t, j);
            } else {
                assert forall|j: int| !booked_at(new_rows, t, j) by {
                    if booked_at(new_rows, t, j) {
                        assert(booked_at(rows, t, j));
                    }
                }
            }
        }
    } else {
        let r: Row = (text, 1u64, cpm);
        assert(new_rows == rows.push(r));
        lemma_total_push(rows, r);
        assert forall|a: int, b: int| 0 <= a < b < new_rows.len() implies new_rows[a].0
            != new_rows[b].0 by {
            if b < rows.len() {
                assert(rows[a].0 != rows[b].0);
            } else {
                assert(!booked_at(rows, text, a));
            }
        }
        assert forall|a: int| 0 <= a < new_rows.len() implies #[trigger] new_rows[a].1 >= 1 by {
            if a < rows.len() {
                assert(rows[a].1 >= 1);
            }
        }
        lemma_count_at(new_rows, text, rows.len() as int);
        assert forall|t: Seq<char>| t != text implies #[trigger] count_of(new_rows, t) == count_of(
            rows,
            t,
        ) by {
            if exists|j: int| booked_at(rows, t, j) {
                let j = choose|j: int| booked_at(rows, t, j);
                assert(booked_at(new_rows, t, j));
                lemma_count_at(rows, t, j);
                lemma_count_at(new_rows, t, j);
            } else {
                assert forall|j: int| !booked_at(new_rows, t, j) by {
                    if booked_at(new_rows, t, j) && j < rows.len() {
                        assert(booked_at(rows, t, j));
                    }
                }
            }
        }
    }
}

impl Ledger {
    /// Book one impression against a creative: its count goes up by one
    /// (a creative not yet booked starts at one) and the cpm booked for its
    /// text becomes the creative's cpm.
    pub fn record(&mut self, ad: &Ad)
        requires
            old(self).wf(),
            impressions_total(old(self)@) < u64::MAX,
        ensures
            final(self).wf(),
            final(self)@ == book_one(old(self)@, ad.text@, ad.cpm),
            impressions_total(final(self)@) == impressions_total(old(self)@) + 1,
    {
        let ghost rows = self@;
        let mut k: usize = 0;
        while k < self.entries.len()
            invariant
                k <= self.entries@.len(),
                self@ == rows,
                rows == old(self)@,
                sound_book(rows),
                impressions_total(rows) < u64::MAX,
                forall|m: int| 0 <= m < k ==> rows[m].0 != ad.text@,
            decreases self.entries@.len() - k,
        {
            if self.entries[k].text == ad.text {
                proof {
                    assert(self.entries@[k as int].impressions == rows[k as int].1);
                    lemma_total_prefix(rows, 0);
                    assert(booked_at(rows, ad.text@, k as int));
                    let i = choose|i: int| booked_at(rows, ad.text@, i);
                    if i != k {
                        if i < k {
                            assert(rows[i].0 != rows[k as int].0);
                        } else {
                            assert(rows[k as int].0 != rows[i].0);
                        }
                    }
                }
                let impressions = self.entries[k].impressions + 1;
                let entry = Entry { text: ad.text.clone(), impressions, cpm: ad.cpm };
                self.entries.set(k, entry);
                proof {
                    assert(self@ =~= rows.update(k as int, (ad.text@, impressions, ad.cpm)));
                    lemma_booking_one_impression(rows, ad.text@, ad.cpm);
                }
                return;
            }
            k = k + 1;
        }
        let entry = Entry { text: ad.text.clone(), impressions: 1, cpm: ad.cpm };
        self.entries.push(entry);
        proof {
            assert(self@ =~= rows.push((ad.text@, 1u64, ad.cpm)));
            lemma_booking_one_impression(rows, ad.text@, ad.cpm);
        }
    }

    /// Total impressions across every creative.
    pub fn total_impressions(&self) -> (n: u64)
        requires
            self.wf(),
        ensures
            n == impressions_total(self@),
    {
        let ghost rows = self@;
        let mut n: u64 = 0;
        let mut k: usize = 0;
        assert(rows.take(0) =~= Seq::<Row>::empty());
        while k < self.entries.len()
            invariant
                k <= self.entries@.len(),
                self@ == rows,
                rows.len() == self.entries@.len(),
                sound_book(rows),
                n == impressions_total(rows.take(k as int)),
            decreases self.entries@.len() - k,
        {
            proof {
                assert(rows.take(k + 1) =~= rows.take(k as int).push(rows[k as int]));
                lemma_total_push(rows.take(k as int), rows[k as int]);
                lemma_total_prefix(rows, k + 1);
            }
            n = n + self.entries[k].impressions;
            k = k + 1;
        }
        assert(rows.take(rows.len() as int) =~= rows);
        n
    }

    /// Clear the tally.
    pub fn reset(&mut self)
        ensures
            final(self)@ == Seq::<Row>::empty(),
            final(self).wf(),
    {
        self.entries.clear();
        assert(self@ =~= Seq::<Row>::empty());
    }
}

proof fn lemma_spend_bound(i: int, c: int)
    requires
        0 <= i,
        0 <= c <= u64::MAX,
    ensures
        0 <= spend_cents(i, c) <= i * 0x1_0000_0000_0000_0000,
{
    assert(0 <= i * c <= i * (u64::MAX as int)) by (nonlinear_arith)
        requires
            0 <= i,
            0 <= c <= u64::MAX,
    ;
    if i >= 1 {
        assert((i * c + 500) / 1000 <= i * c + 1) by (nonlinear_arith)
            requires
                i * c >= 0,
        ;
        assert(i * (u64::MAX as int) + 1 <= i * 0x1_0000_0000_0000_0000) by (nonlinear_arith)
            requires
                i >= 1,
        ;
    } else {
        assert(i * c == 0) by (nonlinear_arith)
            requires
                i == 0,
        ;
    }
}

proof fn lemma_map_push<A, B>(s: Seq<A>, x: A, f: spec_fn(A) -> B)
    ensures
        s.push(x).map_values(f) == s.map_values(f).push(f(x)),
{
    assert(s.push(x).map_values(f) =~= s.map_values(f).push(f(x)));
}

proof fn lemma_map_remove<A, B>(s: Seq<A>, i: int, f: spec_fn(A) -> B)
    requires
        0 <= i < s.len(),
    ensures
        s.remove(i).map_values(f) == s.map_values(f).remove(i),
{
    assert(s.remove(i).map_values(f) =~= s.map_values(f).remove(i));
}

impl Ledger {
    /// The revenue dashboard as structured data: one row per booked
    /// creative with its spend, spend descending, with the totals of
    /// impressions and spend.
    pub fn report(&self) -> (r: Report)
        requires
            self.wf(),
        ensures
            r.ads@.len() == self@.len(),
            forall|i: int, j: int|
                0 <= i < j < r.ads@.len() ==> r.ads@[i].spend >= r.ads@[j].spend,
            r.ads@.map_values(|a: AdReport| report_row(a)).to_multiset() == self@.map_values(
                |e: Row| priced(e),
            ).to_multiset(),
            r.impressions == impressions_total(self@),
            r.spend == spend_total(self@),
            r.impressions == column_total(r.ads@.map_values(|a: AdReport| report_row(a)), false),
            r.spend == column_total(r.ads@.map_values(|a: AdReport| report_row(a)), true),
    {
        let ghost rows = self@;
        let ghost target = rows.map_values(|e: Row| priced(e));
        let mut pending: Vec<AdReport> = Vec::new();
        let mut spend: u128 = 0;
        let mut impressions: u64 = 0;
        let mut k: usize = 0;
        assert(rows.take(0) =~= Seq::<Row>::empty());
        while k < self.entries.len()
            invariant
                k <= self.entries@.len(),
                self@ == rows,
                rows.len() == self.entries@.len(),
                sound_book(rows),
                target == rows.map_values(|e: Row| priced(e)),
                pending@.map_values(|a: AdReport| report_row(a)) == target.take(k as int),
                impressions == impressions_total(rows.take(k as int)),
                spend == spend_total(rows.take(k as int)),
                spend <= impressions_total(rows.take(k as int)) * 0x1_0000_0000_0000_0000,
            decreases self.entries@.len() - k,
        {
            let e = &self.entries[k];
            let ghost row = rows[k as int];
            assert(row == (e.text@, e.impressions, e.cpm));
            proof {
                assert(rows.take(k + 1) =~= rows.take(k as int).push(row));
                lemma_total_push(rows.take(k as int), row);
                lemma_total_prefix(rows, k + 1);
                lemma_spend_bound(e.impressions as int, e.cpm as int);
                assert((e.impressions as int) * (e.cpm as int) <= (u64::MAX as int) * (
                u64::MAX as int)) by (nonlinear_arith)
                    requires
                        e.impressions <= u64::MAX,
                        e.cpm <= u64::MAX,
                ;
                assert(impressions_total(rows.take(k + 1)) * 0x1_0000_0000_0000_0000 <= (
                u64::MAX as int) * 0x1_0000_0000_0000_0000) by (nonlinear_arith)
                    requires
                        impressions_total(rows.take(k + 1)) <= u64::MAX,
                ;
                assert(impressions_total(rows.take(k as int)) * 0x1_0000_0000_0000_0000 + (
                e.impressions as int) * 0x1_0000_0000_0000_0000 == impressions_total(
                    rows.take(k + 1),
                ) * 0x1_0000_0000_0000_0000) by (nonlinear_arith)
                    requires
                        impressions_total(rows.take(k + 1)) == impressions_total(
                            rows.take(k as int),
                        ) + e.impressions,
                ;
            }
            let sp = ((e.impressions as u128) * (e.cpm as u128) + 500) / 1000;
            let a = AdReport {
                text: e.text.clone(),
                impressions: e.impressions,
                cpm: e.cpm,
                spend: sp,
            };
            proof {
                lemma_map_push(pending@, a, |a: AdReport| report_row(a));
                assert(target.take(k + 1) =~= target.take(k as int).push(priced(row)));
            }
            pending.push(a);
            spend = spend + sp;
            impressions = impressions + e.impressions;
            k = k + 1;
        }
        assert(rows.take(rows.len() as int) =~= rows);
        assert(target.take(rows.len() as int) =~= target);
        let mut ads: Vec<AdReport> = Vec::new();
        while pending.len() > 0
            invariant
                ads@.map_values(|a: AdReport| report_row(a)).to_multiset().add(
                    pending@.map_values(|a: AdReport| report_row(a)).to_multiset(),
                ) == target.to_multiset(),
                forall|i: int, j: int| 0 <= i < j < ads@.len() ==> ads@[i].spend >= ads@[j].spend,
                forall|i: int, j: int|
                    0 <= i < ads@.len() && 0 <= j < pending@.len() ==> ads@[i].spend
                        >= pending@[j].spend,
            decreases pending@.len(),
        {
            let mut m: usize = 0;
            let mut q: usize = 1;
            while q < pending.len()
                invariant
                    m < q <= pending@.len(),
                    forall|j: int| 0 <= j < q ==> pending@[m as int].spend >= pending@[j].spend,
                decreases pending@.len() - q,
            {
                if pending[q].spend > pending[m].spend {
                    m = q;
                }
                q = q + 1;
            }
            let ghost before_ads = ads@;
            let ghost before_pending = pending@;
            let a = pending.remove(m);
            proof {
                let f = |a: AdReport| report_row(a);
                lemma_map_remove(before_pending, m as int, f);
                lemma_map_push(before_ads, a, f);
                let pm = before_pending.map_values(f);
                assert(pm[m as int] == f(a));
                let ma = before_ads.map_values(f).to_multiset();
                let mp = pm.to_multiset();
                assert(mp.count(f(a)) > 0);
                assert(ma.insert(f(a)).add(mp.remove(f(a))) =~= ma.add(mp));
            }
            ads.push(a);
            assert forall|i: int, j: int|
                0 <= i < ads@.len() && 0 <= j < pending@.len() implies ads@[i].spend
                    >= pending@[j].spend by {
                if i < before_ads.len() {
                    assert(pending@[j] == before_pending[if j < m { j } else { j + 1 }]);
                } else {
                    assert(pending@[j] == before_pending[if j < m { j } else { j + 1 }]);
                }
            }
        }
        assert(pending@.map_values(|a: AdReport| report_row(a)).to_multiset() =~= vstd::multiset::Multiset::empty());
        assert(ads@.map_values(|a: AdReport| report_row(a)).to_multiset() =~= target.to_multiset());
        assert(ads@.map_values(|a: AdReport| report_row(a)).to_multiset().len() == ads@.len());
        assert(target.to_multiset().len() == target.len());
        proof {
            let shown = ads@.map_values(|a: AdReport| report_row(a));
            lemma_priced_columns(rows);
            lemma_column_permutation(shown, target, false);
            lemma_column_permutation(shown, target, true);
        }
        Report { impressions, spend, ads }
    }
}

} // verus!
