//! Prices per commune: the median €/m² now, and thirty days ago.
use crate::double::{Double, ONE_BITS};
use crate::listing::{
    Listing, ListingStatus, ListingWithHistory, Moderation, PricePoint, Timestamp,
};
use crate::ratio::{per_square_metre, price_ratio};
use crate::search::live;
use crate::status::CommuneStat;
use crate::text::{
    comes_before, lemma_filter_push, lemma_text_total, lemma_text_transitive, same_text, text_before,
};
use vstd::prelude::*;
use vstd::relations::{sorted_by, total_ordering};
use vstd::seq_lib::lemma_sorted_unique;

verus! {

/// The price per square metre of a listing with a known surface and commune.
#[derive(Debug, Clone, PartialEq)]
pub struct PricedRow {
    pub commune: String,
    pub postal_code: Option<String>,
    pub m2_cents: i64,
}

// ---------------------------------------------------------------------------
// Medians

/// The values in ascending order.
pub open spec fn ascending(values: Seq<i64>) -> Seq<i64> {
    values.sort_by(|a: i64, b: i64| a <= b)
}

/// The lower median: of an even number of values the smaller of the middle two.
pub open spec fn median_of(values: Seq<i64>) -> Option<i64> {
    if values.len() == 0 {
        None
    } else {
        Some(ascending(values)[(values.len() - 1) / 2])
    }
}

/// The values in ascending order.
fn sorted(values: &Vec<i64>) -> (r: Vec<i64>)
    ensures
        r@ == ascending(values@),
        r@.len() == values@.len(),
{
    let ghost leq = |a: i64, b: i64| a <= b;
    let mut r: Vec<i64> = Vec::new();
    let mut i: usize = 0;
    proof {
        assert(values@.take(0) =~= r@);
    }
    while i < values.len()
        invariant
            i <= values@.len(),
            leq == (|a: i64, b: i64| a <= b),
            forall|a: int, b: int| 0 <= a < b < r@.len() ==> r@[a] <= r@[b],
            r@.to_multiset() == values@.take(i as int).to_multiset(),
            r@.len() == i,
        decreases values@.len() - i,
    {
        let v: i64 = values[i];
        let mut p: usize = 0;
        while p < r.len() && r[p] <= v
            invariant
                p <= r@.len(),
                forall|a: int| 0 <= a < p ==> r@[a] <= v,
            decreases r@.len() - p,
        {
            p = p + 1;
        }
        let ghost before = r@;
        r.insert(p, v);
        proof {
            broadcast use vstd::seq_lib::group_to_multiset_ensures;

            assert(r@ == before.insert(p as int, v));
            vstd::seq_lib::to_multiset_insert(before, p as int, v);
            assert(values@.take(i as int + 1) =~= values@.take(i as int).push(v));
            vstd::seq_lib::to_multiset_build(values@.take(i as int), v);
            assert forall|a: int, b: int| 0 <= a < b < r@.len() implies r@[a] <= r@[b] by {
                if a < p && b > p {
                    assert(r@[a] == before[a] && r@[b] == before[b - 1]);
                } else if a >= p && b > p {
                    if a > p {
                        assert(r@[a] == before[a - 1] && r@[b] == before[b - 1]);
                    } else {
                        assert(r@[b] == before[b - 1]);
                        assert(v < before[p as int]);
                    }
                }
            }
        }
        i = i + 1;
    }
    proof {
        assert(values@.take(values@.len() as int) =~= values@);
        assert(total_ordering(leq));
        values@.lemma_sort_by_ensures(leq);
        assert(sorted_by(r@, leq));
        lemma_sorted_unique(r@, ascending(values@), leq);
    }
    r
}

/// The lower median of some values.
pub fn median(values: &Vec<i64>) -> (r: Option<i64>)
    ensures
        r == median_of(values@),
{
    if values.len() == 0 {
        return None;
    }
    let v = sorted(values);
    Some(v[(values.len() - 1) / 2])
}

/// The median is one of the values; no more than half of them lie below it, and
/// no more than half above.
pub proof fn law_median_is_in_the_middle(values: Seq<i64>, m: i64)
    requires
        median_of(values) == Some(m),
    ensures
        values.contains(m),
        forall|k: int|
            0 <= k <= (values.len() - 1) / 2 ==> #[trigger] ascending(values)[k] <= m,
        forall|k: int|
            (values.len() - 1) / 2 <= k < values.len() ==> #[trigger] ascending(values)[k] >= m,
        ascending(values).to_multiset() == values.to_multiset(),
{
    let leq = |a: i64, b: i64| a <= b;
    assert(total_ordering(leq));
    values.lemma_sort_by_ensures(leq);
    let s = ascending(values);
    broadcast use vstd::seq_lib::group_to_multiset_ensures;

    assert(s.len() == s.to_multiset().len());
    let mid = (values.len() - 1) / 2;
    assert(s.contains(s[mid]));
    assert forall|k: int| 0 <= k <= mid implies #[trigger] s[k] <= m by {
        if k < mid {
            assert(leq(s[k], s[mid]));
        }
    }
    assert forall|k: int| mid <= k < values.len() implies #[trigger] s[k] >= m by {
        if mid < k {
            assert(leq(s[mid], s[k]));
        }
    }
}

// ---------------------------------------------------------------------------
// Order

/// More listings first; among equals by name.
pub open spec fn ahead(a: CommuneStat, b: CommuneStat) -> bool {
    a.listings > b.listings || (a.listings == b.listings && text_before(a.commune@, b.commune@))
}

fn is_ahead(a: &CommuneStat, b: &CommuneStat) -> (r: bool)
    ensures
        r == ahead(*a, *b),
{
    a.listings > b.listings || (a.listings == b.listings && comes_before(
        a.commune.as_str(),
        b.commune.as_str(),
    ))
}

// ---------------------------------------------------------------------------
// Aggregation

/// The listing counts: it is live, its commune known and its surface plausible.
pub open spec fn counts(listing: Listing) -> bool {
    live(listing) && listing.commune is Some && listing.plausible()
}

/// The row of a listing that counts, at a price of its own, today's or an older
/// one.
pub open spec fn row_of(listing: Listing, price_cents: i64) -> PricedRow {
    PricedRow {
        commune: listing.commune->0,
        postal_code: listing.postal_code,
        m2_cents: price_ratio(price_cents as int, listing.surface_m2->0) as i64,
    }
}

/// The row of a listing at an older price: it counts where the listing itself
/// does now.
pub fn priced_then(listing: &Listing, price_cents: i64) -> (r: Option<PricedRow>)
    ensures
        r is Some <==> counts(*listing),
        r matches Some(row) ==> {
            &&& row == row_of(*listing, price_cents)
            &&& row.m2_cents == price_ratio(price_cents as int, listing.surface_m2->0)
        },
{
    if listing.status != ListingStatus::Active || listing.moderation != Moderation::Unmoderated {
        return None;
    }
    match (&listing.commune, listing.surface_m2) {
        (Some(c), Some(s)) => if s.at_least(Double { bits: ONE_BITS }) {
            Some(
                PricedRow {
                    commune: c.clone(),
                    postal_code: listing.postal_code.clone(),
                    m2_cents: per_square_metre(price_cents, s),
                },
            )
        } else {
            None
        },
        _ => None,
    }
}

/// The row of a listing at its price.
pub fn priced_now(listing: &Listing) -> (r: Option<PricedRow>)
    ensures
        r is Some <==> counts(*listing),
        r matches Some(row) ==> {
            &&& row == row_of(*listing, listing.price_cents)
            &&& Some(row.m2_cents as int) == listing.m2_cents()
        },
{
    priced_then(listing, listing.price_cents)
}

/// The rows of the listings that count, at their prices.
pub open spec fn rows_now(items: Seq<ListingWithHistory>) -> Seq<PricedRow>
    decreases items.len(),
{
    if items.len() == 0 {
        Seq::empty()
    } else {
        let before = rows_now(items.drop_last());
        let listing = items.last().listing;
        if counts(listing) {
            before.push(row_of(listing, listing.price_cents))
        } else {
            before
        }
    }
}

/// The rows of a listing at the prices that were observed on the cutoff day or
/// before.
pub open spec fn rows_until(
    listing: Listing,
    history: Seq<PricePoint>,
    cutoff: Seq<char>,
) -> Seq<PricedRow>
    decreases history.len(),
{
    if history.len() == 0 {
        Seq::empty()
    } else {
        let before = rows_until(listing, history.drop_last(), cutoff);
        if counts(listing) && !text_before(cutoff, history.last().day@) {
            before.push(row_of(listing, history.last().price_cents))
        } else {
            before
        }
    }
}

/// The rows of the listings that count, at the prices that were observed on the
/// cutoff day or before.
pub open spec fn rows_then(items: Seq<ListingWithHistory>, cutoff: Seq<char>) -> Seq<PricedRow>
    decreases items.len(),
{
    if items.len() == 0 {
        Seq::empty()
    } else {
        rows_then(items.drop_last(), cutoff) + rows_until(
            items.last().listing,
            items.last().history@,
            cutoff,
        )
    }
}

/// Adds the rows of a listing at its older prices.
fn add_older(rows: &mut Vec<PricedRow>, item: &ListingWithHistory, cutoff: &str)
    ensures
        final(rows)@ == old(rows)@ + rows_until(item.listing, item.history@, cutoff@),
{
    let ghost start = rows@;
    let ghost history = item.history@;
    let mut i: usize = 0;
    proof {
        assert(history.take(0) =~= Seq::<PricePoint>::empty());
        assert(start + rows_until(item.listing, history.take(0), cutoff@) =~= start);
    }
    while i < item.history.len()
        invariant
            i <= item.history@.len(),
            history == item.history@,
            rows@ == start + rows_until(item.listing, history.take(i as int), cutoff@),
        decreases item.history@.len() - i,
    {
        let ghost before = rows_until(item.listing, history.take(i as int), cutoff@);
        proof {
            assert(history.take(i as int + 1).drop_last() =~= history.take(i as int));
            assert(history.take(i as int + 1).last() == history[i as int]);
        }
        if !comes_before(cutoff, item.history[i].day.as_str()) {
            if let Some(row) = priced_then(&item.listing, item.history[i].price_cents) {
                rows.push(row);
                proof {
                    assert(start + before.push(row) =~= (start + before).push(row));
                }
            }
        }
        i = i + 1;
    }
    proof {
        assert(history.take(item.history@.len() as int) =~= history);
    }
}

/// Is this a row of the commune?
pub open spec fn is_of(commune: Seq<char>) -> spec_fn(PricedRow) -> bool {
    |row: PricedRow| row.commune@ == commune
}

/// The prices per square metre of a commune, in the order of the rows.
pub open spec fn prices_in(rows: Seq<PricedRow>, commune: Seq<char>) -> Seq<i64> {
    rows.filter(is_of(commune)).map_values(|row: PricedRow| row.m2_cents)
}

/// The first row of a commune.
pub open spec fn first_row(rows: Seq<PricedRow>, commune: Seq<char>, i: int) -> bool {
    0 <= i < rows.len() && rows[i].commune@ == commune && forall|j: int|
        0 <= j < i ==> rows[j].commune@ != commune
}

/// The aggregates of a commune: how many listings it has, the median now and
/// that of older prices, and the postal code of its first listing.
pub open spec fn describes(stat: CommuneStat, now: Seq<PricedRow>, old_rows: Seq<PricedRow>) -> bool {
    &&& stat.listings == prices_in(now, stat.commune@).len()
    &&& stat.median_m2_cents == median_of(prices_in(now, stat.commune@))
    &&& stat.median_m2_cents_30d == median_of(prices_in(old_rows, stat.commune@))
    &&& exists|i: int|
        #[trigger] first_row(now, stat.commune@, i) && stat.postal_code == now[i].postal_code
}

/// Some entry is about the commune.
pub open spec fn covers(stats: Seq<CommuneStat>, commune: Seq<char>) -> bool {
    exists|i: int| 0 <= i < stats.len() && #[trigger] stats[i].commune@ == commune
}

fn prices_of(rows: &Vec<PricedRow>, commune: &str) -> (r: Vec<i64>)
    ensures
        r@ == prices_in(rows@, commune@),
        r@.len() <= rows@.len(),
{
    let mut r: Vec<i64> = Vec::new();
    let ghost pick = is_of(commune@);
    let ghost price = |row: PricedRow| row.m2_cents;
    let mut i: usize = 0;
    proof {
        reveal(Seq::filter);
        assert(rows@.take(0).filter(pick).map_values(price) =~= r@);
    }
    while i < rows.len()
        invariant
            i <= rows@.len(),
            pick == is_of(commune@),
            price == (|row: PricedRow| row.m2_cents),
            r@ == rows@.take(i as int).filter(pick).map_values(price),
            r@.len() <= i,
        decreases rows@.len() - i,
    {
        let ghost row = rows@[i as int];
        proof {
            lemma_filter_push(rows@.take(i as int), row, pick);
            assert(rows@.take(i as int).push(row) =~= rows@.take(i as int + 1));
            assert(rows@.take(i as int).filter(pick).push(row).map_values(price) =~= rows@.take(
                i as int,
            ).filter(pick).map_values(price).push(row.m2_cents));
        }
        if same_text(rows[i].commune.as_str(), commune) {
            r.push(rows[i].m2_cents);
        }
        i = i + 1;
    }
    proof {
        assert(rows@.take(rows@.len() as int) =~= rows@);
    }
    r
}

fn lists_commune(stats: &Vec<CommuneStat>, commune: &str) -> (r: bool)
    ensures
        r == covers(stats@, commune@),
{
    let mut i: usize = 0;
    while i < stats.len()
        invariant
            i <= stats@.len(),
            forall|k: int| 0 <= k < i ==> #[trigger] stats@[k].commune@ != commune@,
        decreases stats@.len() - i,
    {
        if same_text(stats[i].commune.as_str(), commune) {
            return true;
        }
        i = i + 1;
    }
    false
}

/// Puts a commune where it belongs in the order.
fn insert_in_order(stats: &mut Vec<CommuneStat>, stat: CommuneStat)
    requires
        forall|i: int, j: int| 0 <= i < j < old(stats)@.len() ==> ahead(old(stats)@[i], old(stats)@[j]),
        forall|i: int| 0 <= i < old(stats)@.len() ==> #[trigger] old(stats)@[i].commune@ != stat.commune@,
    ensures
        forall|i: int, j: int|
            0 <= i < j < final(stats)@.len() ==> ahead(final(stats)@[i], final(stats)@[j]),
        exists|p: int| 0 <= p <= old(stats)@.len() && final(stats)@ == #[trigger] old(stats)@.insert(p, stat),
{
    let ghost before = stats@;
    let mut p: usize = 0;
    while p < stats.len() && !is_ahead(&stat, &stats[p])
        invariant
            p <= stats@.len(),
            stats@ == before,
            forall|k: int| 0 <= k < p ==> !ahead(stat, #[trigger] before[k]),
        decreases stats@.len() - p,
    {
        p = p + 1;
    }
    stats.insert(p, stat);
    proof {
        let after = stats@;
        assert(after == before.insert(p as int, stat));
        assert forall|i: int, j: int| 0 <= i < j < after.len() implies ahead(after[i], after[j]) by {
            if i < p && j < p {
                assert(ahead(before[i], before[j]));
            } else if i < p && j == p {
                assert(!ahead(stat, before[i]));
                assert(before[i].commune@ != stat.commune@);
                lemma_text_total(before[i].commune@, stat.commune@);
            } else if i < p && j > p {
                assert(ahead(before[i], before[j - 1]));
            } else if i == p {
                let next = before[p as int];
                assert(ahead(stat, next));
                if j - 1 > p {
                    assert(ahead(next, before[j - 1]));
                    lemma_ahead_transitive(stat, next, before[j - 1]);
                }
            } else {
                assert(ahead(before[i - 1], before[j - 1]));
            }
        }
    }
}

proof fn lemma_ahead_transitive(a: CommuneStat, b: CommuneStat, c: CommuneStat)
    requires
        ahead(a, b),
        ahead(b, c),
    ensures
        ahead(a, c),
{
    if a.listings == b.listings && b.listings == c.listings {
        lemma_text_transitive(a.commune@, b.commune@, c.commune@);
    }
}

/// The aggregates of all communes: the one with the most listings first, equals
/// by name.
pub open spec fn aggregates(
    stats: Seq<CommuneStat>,
    now: Seq<PricedRow>,
    old_rows: Seq<PricedRow>,
) -> bool {
    &&& forall|i: int, j: int| 0 <= i < j < stats.len() ==> ahead(stats[i], stats[j])
    &&& forall|i: int| 0 <= i < stats.len() ==> describes(#[trigger] stats[i], now, old_rows)
    &&& forall|k: int| 0 <= k < now.len() ==> covers(stats, #[trigger] now[k].commune@)
}

/// Median €/m² per commune, now and over the prices observed on the cutoff day
/// or before, both over live listings with a known commune and surface.
pub fn commune_stats(items: &Vec<ListingWithHistory>, cutoff: &str) -> (r: Vec<CommuneStat>)
    requires
        items@.len() <= i64::MAX,
    ensures
        aggregates(r@, rows_now(items@), rows_then(items@, cutoff@)),
{
    let mut now: Vec<PricedRow> = Vec::new();
    let mut older: Vec<PricedRow> = Vec::new();
    let mut i: usize = 0;
    proof {
        assert(items@.take(0) =~= Seq::<ListingWithHistory>::empty());
    }
    while i < items.len()
        invariant
            i <= items@.len() <= i64::MAX,
            now@ == rows_now(items@.take(i as int)),
            now@.len() <= i,
            older@ == rows_then(items@.take(i as int), cutoff@),
        decreases items@.len() - i,
    {
        proof {
            assert(items@.take(i as int + 1).drop_last() =~= items@.take(i as int));
            assert(items@.take(i as int + 1).last() == items@[i as int]);
        }
        if let Some(row) = priced_now(&items[i].listing) {
            now.push(row);
        }
        add_older(&mut older, &items[i], cutoff);
        i = i + 1;
    }
    proof {
        assert(items@.take(items@.len() as int) =~= items@);
    }
    aggregate(&now, &older)
}

/// Is this a live listing?
pub open spec fn is_live() -> spec_fn(ListingWithHistory) -> bool {
    |item: ListingWithHistory| live(item.listing)
}

/// Only live listings count, in both medians: without those that are gone,
/// dismissed or banned, the rows are the same.
pub proof fn law_only_live_listings_count(items: Seq<ListingWithHistory>, cutoff: Seq<char>)
    ensures
        rows_now(items) == rows_now(items.filter(is_live())),
        rows_then(items, cutoff) == rows_then(items.filter(is_live()), cutoff),
    decreases items.len(),
{
    if items.len() == 0 {
        reveal(Seq::filter);
        assert(items.filter(is_live()) =~= items);
    } else {
        let init = items.drop_last();
        let item = items.last();
        law_only_live_listings_count(init, cutoff);
        lemma_filter_push(init, item, is_live());
        assert(init.push(item) =~= items);
        let kept = init.filter(is_live());
        if live(item.listing) {
            assert(kept.push(item).drop_last() =~= kept);
        } else {
            lemma_no_rows(item.listing, item.history@, cutoff);
            assert(rows_then(items, cutoff) =~= rows_then(init, cutoff));
        }
    }
}

proof fn lemma_no_rows(listing: Listing, history: Seq<PricePoint>, cutoff: Seq<char>)
    requires
        !counts(listing),
    ensures
        rows_until(listing, history, cutoff) == Seq::<PricedRow>::empty(),
    decreases history.len(),
{
    if history.len() > 0 {
        lemma_no_rows(listing, history.drop_last(), cutoff);
    }
}

/// The aggregates of the communes that some rows name.
pub fn aggregate(now: &Vec<PricedRow>, old_rows: &Vec<PricedRow>) -> (r: Vec<CommuneStat>)
    requires
        now@.len() <= i64::MAX,
    ensures
        aggregates(r@, now@, old_rows@),
{
    let mut stats: Vec<CommuneStat> = Vec::new();
    let mut k: usize = 0;
    while k < now.len()
        invariant
            k <= now@.len(),
            now@.len() <= i64::MAX,
            forall|i: int, j: int| 0 <= i < j < stats@.len() ==> ahead(stats@[i], stats@[j]),
            forall|i: int| 0 <= i < stats@.len() ==> describes(#[trigger] stats@[i], now@, old_rows@),
            forall|m: int| 0 <= m < k ==> covers(stats@, #[trigger] now@[m].commune@),
        decreases now@.len() - k,
    {
        let commune = now[k].commune.as_str();
        if !lists_commune(&stats, commune) {
            let values = prices_of(now, commune);
            let older = prices_of(old_rows, commune);
            let stat = CommuneStat {
                commune: commune.to_owned(),
                postal_code: now[k].postal_code.clone(),
                listings: values.len() as i64,
                median_m2_cents: median(&values),
                median_m2_cents_30d: median(&older),
            };
            let ghost before = stats@;
            proof {
                assert forall|j: int| 0 <= j < k implies now@[j].commune@ != commune@ by {
                    assert(covers(before, now@[j].commune@));
                }
                assert(first_row(now@, stat.commune@, k as int));
                assert(describes(stat, now@, old_rows@));
            }
            insert_in_order(&mut stats, stat);
            proof {
                let p = choose|p: int|
                    0 <= p <= before.len() && stats@ == #[trigger] before.insert(p, stat);
                assert(stats@[p] == stat);
                assert forall|m: int| 0 <= m <= k implies covers(
                    stats@,
                    #[trigger] now@[m].commune@,
                ) by {
                    if m < k {
                        let i = choose|i: int|
                            0 <= i < before.len() && #[trigger] before[i].commune@
                                == now@[m].commune@;
                        let n = if i < p {
                            i
                        } else {
                            i + 1
                        };
                        assert(stats@[n] == before[i]);
                    } else {
                        assert(stats@[p].commune@ == now@[m].commune@);
                    }
                }
            }
        }
        k = k + 1;
    }
    stats
}

/// No commune is listed twice.
pub proof fn law_each_commune_once(
    r: Seq<CommuneStat>,
    now: Seq<PricedRow>,
    old_rows: Seq<PricedRow>,
    i: int,
    j: int,
)
    requires
        aggregates(r, now, old_rows),
        0 <= i < j < r.len(),
    ensures
        r[i].commune@ != r[j].commune@,
{
    assert(ahead(r[i], r[j]));
    assert(describes(r[i], now, old_rows) && describes(r[j], now, old_rows));
    lemma_text_total(r[i].commune@, r[i].commune@);
}

// ---------------------------------------------------------------------------
// Days

pub uninterp spec fn utc_day_text(secs: i64) -> Option<Seq<char>>;

/// `chrono::DateTime::from_timestamp`, with its date as text: the UTC day of a
/// point in time, which the name `utc_day_text` stands for; nothing where the
/// calendar does not reach.
#[verifier::external_body]
fn day_text(secs: i64) -> (r: Option<String>)
    ensures
        match r {
            Some(day) => utc_day_text(secs) == Some(day@),
            None => utc_day_text(secs) is None,
        },
{
    chrono::DateTime::from_timestamp(secs, 0).map(|t| t.date_naive().to_string())
}

/// The UTC day of a point in time, on which a price is recorded.
pub fn utc_day(now: Timestamp) -> (r: Option<String>)
    ensures
        match r {
            Some(day) => utc_day_text(now.secs) == Some(day@),
            None => utc_day_text(now.secs) is None,
        },
{
    day_text(now.secs)
}

/// The last day whose prices count as thirty days old.
pub fn trend_cutoff(now: Timestamp) -> (r: Option<String>)
    requires
        now.secs >= i64::MIN + 2_592_000,
    ensures
        match r {
            Some(day) => utc_day_text((now.secs - 30 * 86_400) as i64) == Some(day@),
            None => utc_day_text((now.secs - 30 * 86_400) as i64) is None,
        },
{
    day_text(now.secs - 2_592_000)
}

} // verus!
