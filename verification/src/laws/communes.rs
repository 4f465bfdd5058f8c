//! The dashboard of communes: which listings count, and how they are summed up.
use crate::communes::{
    aggregates, ahead, ascending, counts, describes, median_of, prices_in, row_of, rows_now,
    rows_then, rows_until, PricedRow,
};
use crate::double::{Double, ONE_BITS};
use crate::listing::{Listing, ListingStatus, ListingWithHistory, Moderation, PricePoint};
use crate::ratio::price_ratio;
use crate::status::CommuneStat;
use crate::text::{lemma_filter_push, text_before};
use vstd::prelude::*;

verus! {

/// A listing counts exactly where it is active, has no verdict, a commune and a
/// surface of at least one square metre, whatever else it is.
pub proof fn law_what_counts(listing: Listing)
    ensures
        counts(listing) <==> listing.status == ListingStatus::Active && listing.moderation
            == Moderation::Unmoderated && listing.commune is Some && listing.surface_m2 is Some
            && listing.surface_m2->0.ge(Double { bits: ONE_BITS }),
{
}

/// The listings that meet the four conditions, in order.
pub open spec fn countable(items: Seq<ListingWithHistory>) -> Seq<ListingWithHistory> {
    items.filter(
        |item: ListingWithHistory|
            item.listing.status == ListingStatus::Active && item.listing.moderation
                == Moderation::Unmoderated && item.listing.commune is Some
                && item.listing.surface_m2 is Some && item.listing.surface_m2->0.ge(
                Double { bits: ONE_BITS },
            ),
    )
}

/// Every listing that meets the conditions has one row now, and no other has
/// any: there are as many rows as such listings, and each row has the commune,
/// the postal code and the price per square metre of its listing.
pub proof fn law_every_countable_listing_has_a_row(items: Seq<ListingWithHistory>)
    ensures
        rows_now(items).len() == countable(items).len(),
        forall|k: int|
            0 <= k < rows_now(items).len() ==> {
                let l = countable(items)[k].listing;
                let row = #[trigger] rows_now(items)[k];
                &&& Some(row.commune) == l.commune
                &&& row.postal_code == l.postal_code
                &&& row.m2_cents == price_ratio(l.price_cents as int, l.surface_m2->0) as i64
            },
    decreases items.len(),
{
    let pick = |item: ListingWithHistory|
        item.listing.status == ListingStatus::Active && item.listing.moderation
            == Moderation::Unmoderated && item.listing.commune is Some
            && item.listing.surface_m2 is Some && item.listing.surface_m2->0.ge(
            Double { bits: ONE_BITS },
        );
    if items.len() == 0 {
        reveal(Seq::filter);
        assert(countable(items) =~= Seq::empty());
    } else {
        let init = items.drop_last();
        law_every_countable_listing_has_a_row(init);
        lemma_filter_push(init, items.last(), pick);
        assert(init.push(items.last()) =~= items);
        assert(countable(init) == init.filter(pick));
        assert(countable(items) == items.filter(pick));
    }
}

/// Does the listing name the commune?
pub open spec fn names_commune(commune: Seq<char>) -> spec_fn(ListingWithHistory) -> bool {
    |item: ListingWithHistory| item.listing.commune matches Some(name) && name@ == commune
}

/// The number of listings that a commune is credited with is the number of
/// listings that meet the conditions and name it.
pub proof fn law_communes_are_credited_with_their_listings(
    stat: CommuneStat,
    items: Seq<ListingWithHistory>,
    old_rows: Seq<PricedRow>,
)
    requires
        describes(stat, rows_now(items), old_rows),
    ensures
        stat.listings == countable(items).filter(names_commune(stat.commune@)).len(),
        stat.median_m2_cents is Some,
{
    lemma_credit(items, stat.commune@);
    let i = choose|i: int|
        #[trigger] crate::communes::first_row(rows_now(items), stat.commune@, i)
            && stat.postal_code == rows_now(items)[i].postal_code;
    let pick = crate::communes::is_of(stat.commune@);
    broadcast use vstd::seq_lib::group_filter_ensures;

    assert(pick(rows_now(items)[i]));
    assert(rows_now(items).filter(pick).contains(rows_now(items)[i]));
}

proof fn lemma_credit(items: Seq<ListingWithHistory>, commune: Seq<char>)
    ensures
        prices_in(rows_now(items), commune).len() == countable(items).filter(
            names_commune(commune),
        ).len(),
    decreases items.len(),
{
    let named = names_commune(commune);
    let pick = crate::communes::is_of(commune);
    let cond = |item: ListingWithHistory|
        item.listing.status == ListingStatus::Active && item.listing.moderation
            == Moderation::Unmoderated && item.listing.commune is Some
            && item.listing.surface_m2 is Some && item.listing.surface_m2->0.ge(
            Double { bits: ONE_BITS },
        );
    if items.len() == 0 {
        reveal(Seq::filter);
        assert(countable(items) =~= Seq::empty());
        assert(countable(items).filter(named) =~= Seq::empty());
        assert(rows_now(items).filter(pick) =~= Seq::empty());
    } else {
        let init = items.drop_last();
        let item = items.last();
        lemma_credit(init, commune);
        assert(init.push(item) =~= items);
        lemma_filter_push(init, item, cond);
        assert(countable(init) == init.filter(cond) && countable(items) == items.filter(cond));
        if counts(item.listing) {
            let row = row_of(item.listing, item.listing.price_cents);
            lemma_filter_push(rows_now(init), row, pick);
            lemma_filter_push(countable(init), item, named);
        }
    }
}

/// A listing that meets the conditions has a row for each of its prices that was
/// observed on the cutoff day or before, in order, at that price; no other
/// listing has any.
pub proof fn law_older_prices_count_up_to_the_cutoff(
    listing: Listing,
    history: Seq<PricePoint>,
    p: PricePoint,
    cutoff: Seq<char>,
)
    ensures
        rows_until(listing, Seq::empty(), cutoff) == Seq::<PricedRow>::empty(),
        ({
            let before = rows_until(listing, history, cutoff);
            let after = rows_until(listing, history.push(p), cutoff);
            if listing.status == ListingStatus::Active && listing.moderation
                == Moderation::Unmoderated && listing.commune is Some && listing.surface_m2 is Some
                && listing.surface_m2->0.ge(Double { bits: ONE_BITS }) && (p.day@ == cutoff
                || text_before(p.day@, cutoff)) {
                &&& after.len() == before.len() + 1
                &&& after.drop_last() == before
                &&& Some(after.last().commune) == listing.commune
                &&& after.last().m2_cents == price_ratio(
                    p.price_cents as int,
                    listing.surface_m2->0,
                ) as i64
            } else {
                after == before
            }
        }),
{
    assert(history.push(p).drop_last() =~= history);
    crate::text::lemma_text_total(p.day@, cutoff);
    crate::text::lemma_text_total(cutoff, p.day@);
    if text_before(p.day@, cutoff) && text_before(cutoff, p.day@) {
        crate::text::lemma_text_transitive(p.day@, cutoff, p.day@);
    }
    let before = rows_until(listing, history, cutoff);
    let after = rows_until(listing, history.push(p), cutoff);
    if after.len() == before.len() + 1 {
        assert(after.drop_last() =~= before);
    }
}

/// The rows of all listings are those of each, one listing after the other.
pub proof fn law_older_rows_add_up(
    items: Seq<ListingWithHistory>,
    item: ListingWithHistory,
    cutoff: Seq<char>,
)
    ensures
        rows_then(Seq::empty(), cutoff) == Seq::<PricedRow>::empty(),
        rows_then(items.push(item), cutoff) == rows_then(items, cutoff) + rows_until(
            item.listing,
            item.history@,
            cutoff,
        ),
{
    assert(items.push(item).drop_last() =~= items);
}

/// A median is taken over the prices of the commune alone: it is one of them, as
/// many of them as half lie at it or below, and no more than half lie below.
pub proof fn law_medians_stand_in_the_middle(
    stat: CommuneStat,
    now: Seq<PricedRow>,
    old_rows: Seq<PricedRow>,
)
    requires
        describes(stat, now, old_rows),
    ensures
        stat.median_m2_cents matches Some(m) ==> exists|i: int|
            0 <= i < now.len() && (#[trigger] now[i]).commune@ == stat.commune@ && now[i].m2_cents
                == m,
        stat.median_m2_cents_30d matches Some(m) ==> exists|i: int|
            0 <= i < old_rows.len() && (#[trigger] old_rows[i]).commune@ == stat.commune@
                && old_rows[i].m2_cents == m,
        stat.median_m2_cents_30d is None <==> forall|i: int|
            0 <= i < old_rows.len() ==> (#[trigger] old_rows[i]).commune@ != stat.commune@,
        exists|i: int|
            0 <= i < now.len() && (#[trigger] now[i]).commune@ == stat.commune@ && stat.postal_code
                == now[i].postal_code && forall|j: int|
                0 <= j < i ==> (#[trigger] now[j]).commune@ != stat.commune@,
{
    lemma_median_among(now, stat.commune@);
    lemma_median_among(old_rows, stat.commune@);
    let i = choose|i: int|
        #[trigger] crate::communes::first_row(now, stat.commune@, i) && stat.postal_code
            == now[i].postal_code;
    assert(now[i].commune@ == stat.commune@);
}

proof fn lemma_median_among(rows: Seq<PricedRow>, commune: Seq<char>)
    ensures
        median_of(prices_in(rows, commune)) matches Some(m) ==> exists|i: int|
            0 <= i < rows.len() && (#[trigger] rows[i]).commune@ == commune && rows[i].m2_cents
                == m,
        median_of(prices_in(rows, commune)) is None <==> forall|i: int|
            0 <= i < rows.len() ==> (#[trigger] rows[i]).commune@ != commune,
{
    broadcast use vstd::seq_lib::group_filter_ensures;

    let pick = crate::communes::is_of(commune);
    let mine = rows.filter(pick);
    let values = prices_in(rows, commune);
    if let Some(m) = median_of(values) {
        crate::communes::law_median_is_in_the_middle(values, m);
        let k = choose|k: int| 0 <= k < values.len() && values[k] == m;
        crate::normalize::lemma_filter_from(rows, pick, k);
        assert(pick(mine[k]));
        let i = choose|i: int| 0 <= i < rows.len() && rows[i] == mine[k];
        assert(rows[i].commune@ == commune);
    } else {
        assert(mine.len() == 0);
        assert forall|i: int| 0 <= i < rows.len() implies (#[trigger] rows[i]).commune@
            != commune by {
            if rows[i].commune@ == commune {
                assert(pick(rows[i]));
                assert(mine.contains(rows[i]));
            }
        }
    }
}

/// In ascending order half of the values stand at the median or before it: the
/// one at position (n - 1) / 2 is it, and what stands before is no larger, what
/// stands behind no smaller.
pub proof fn law_the_median_is_the_middle_value(values: Seq<i64>, a: int, b: int)
    requires
        values.len() > 0,
        0 <= a <= (values.len() - 1) / 2 <= b < values.len(),
    ensures
        median_of(values) is Some,
        ascending(values).to_multiset() == values.to_multiset(),
        ascending(values)[a] <= median_of(values)->0 <= ascending(values)[b],
{
    crate::communes::law_median_is_in_the_middle(values, median_of(values)->0);
}

/// The commune with more listings comes first, and among equals the one whose
/// name does; every commune with a row is there.
pub proof fn law_communes_are_ranked(
    stats: Seq<CommuneStat>,
    now: Seq<PricedRow>,
    old_rows: Seq<PricedRow>,
    i: int,
    j: int,
    k: int,
)
    requires
        aggregates(stats, now, old_rows),
        0 <= i < j < stats.len(),
        0 <= k < now.len(),
    ensures
        stats[i].listings >= stats[j].listings,
        stats[i].listings == stats[j].listings ==> text_before(stats[i].commune@, stats[j].commune@),
        exists|m: int| 0 <= m < stats.len() && (#[trigger] stats[m]).commune@ == now[k].commune@,
{
    assert(ahead(stats[i], stats[j]));
    assert(crate::communes::covers(stats, now[k].commune@));
}

} // verus!
