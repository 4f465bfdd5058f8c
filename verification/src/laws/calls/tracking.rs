//! Calls that follow listings from scrape to push.
use crate::communes::{
    ahead, commune_stats, law_each_commune_once, priced_now, priced_then, rows_now, rows_then, PricedRow,
};
use crate::double::{Double, ONE_BITS};
use crate::laws::communes::{
    countable, law_communes_are_credited_with_their_listings, names_commune,
};
use crate::laws::matching::{
    law_what_matches_meets_the_criteria, law_what_meets_the_criteria_matches,
};
use crate::laws::storing::law_retries_count_and_double;
use crate::limit::has_dropped;
use crate::listing::{
    ExtractedAttrs, Flag, Listing, ListingStatus, ListingWithHistory, Moderation, RawListing,
    Timestamp,
};
use crate::normalize::canonical;
use crate::pipeline::{
    judge, law_matching_is_exact, matching, says_dropped, says_new, Accepted, Effects, Pipeline, PipelineStats, Push, RawNumbers,
    Sighting, Verdict,
};
use crate::ratio::price_ratio;
use crate::search::{located, satisfies, search_matches, Search};
use crate::status::{CommuneStat, TickStats};
use crate::store::{
    enqueue_enrichment, enrichment_failed, is_listed, set_attributes, set_moderation,
    upsert_listing, EnrichState, QueueItem, Retry, StoreError, UpsertOutcome,
};
use crate::text::texts;
use vstd::prelude::*;

verus! {

/// A search matches a listing if and only if both are live and every criterion that the search
/// states is met: one of the locations, the price, the surface, the rooms, one of the types.
pub proof fn law_searches_match_what_meets_every_criterion(
    search: Search,
    listing: Listing,
    r: bool,
)
    requires
        call_ensures(search_matches, (&search, &listing), r),
    ensures
        r <==> {
            &&& search.active
            &&& listing.status == ListingStatus::Active
            &&& listing.moderation == Moderation::Unmoderated
            &&& search.locations@.len() == 0 || exists|i: int|
                0 <= i < search.locations@.len() && located(
                    #[trigger] search.locations@[i]@,
                    listing,
                )
            &&& search.max_price_cents is None || listing.price_cents <= search.max_price_cents->0
            &&& search.min_surface_m2 is None || (listing.surface_m2 is Some
                && !listing.surface_m2->0.is_nan() && !search.min_surface_m2->0.is_nan()
                && listing.surface_m2->0.units() >= search.min_surface_m2->0.units())
            &&& search.min_rooms is None || (listing.rooms is Some && listing.rooms->0
                >= search.min_rooms->0)
            &&& search.property_types@.len() == 0 || exists|k: int|
                0 <= k < search.property_types@.len() && #[trigger] search.property_types@[k]
                    == listing.property_type
        },
{
    if r {
        law_what_matches_meets_the_criteria(search, listing);
    } else {
        if search.locations@.len() > 0 && exists|i: int|
            0 <= i < search.locations@.len() && located(#[trigger] search.locations@[i]@, listing) {
            let at: int = choose|i: int|
                0 <= i < search.locations@.len() && located(
                    #[trigger] search.locations@[i]@,
                    listing,
                );
            if search_met(search, listing) {
                law_what_meets_the_criteria_matches(search, listing, at);
            }
        } else if search.locations@.len() == 0 {
            if search_met(search, listing) {
                law_what_meets_the_criteria_matches(search, listing, 0);
            }
        }
    }
}

/// Whether both are live and every criterion but that on locations is met.
spec fn search_met(search: Search, listing: Listing) -> bool {
    &&& search.active
    &&& listing.status == ListingStatus::Active
    &&& listing.moderation == Moderation::Unmoderated
    &&& search.max_price_cents is None || listing.price_cents <= search.max_price_cents->0
    &&& search.min_surface_m2 is None || (listing.surface_m2 is Some
        && !listing.surface_m2->0.is_nan() && !search.min_surface_m2->0.is_nan()
        && listing.surface_m2->0.units() >= search.min_surface_m2->0.units())
    &&& search.min_rooms is None || (listing.rooms is Some && listing.rooms->0
        >= search.min_rooms->0)
    &&& search.property_types@.len() == 0 || exists|k: int|
        0 <= k < search.property_types@.len() && #[trigger] search.property_types@[k]
            == listing.property_type
}

/// A match is judged by its flags, its sighting and its drop alone: what differs in every other
/// fact is judged alike.
pub proof fn law_offers_of_every_type_are_judged_alike(
    a: Listing,
    b: Listing,
    sighting: Sighting,
    drop_pct: Double,
    ra: Verdict,
    rb: Verdict,
)
    requires
        a.price_cents == b.price_cents,
        a.flags@ == b.flags@,
        call_ensures(judge, (&a, sighting, drop_pct), ra),
        call_ensures(judge, (&b, sighting, drop_pct), rb),
    ensures
        ra == rb,
{
}

/// What a match of an offer leads to: a new one is pushed, a drop is pushed with the price that
/// was pushed before, and nothing else is.
pub proof fn law_offers_are_pushed_when_new_or_dropped(
    stored: Listing,
    sighting: Sighting,
    drop_pct: Double,
    r: Verdict,
)
    requires
        forall|k: int| 0 <= k < stored.flags@.len() ==> stored.flags@[k] != Flag::WantedAd,
        call_ensures(judge, (&stored, sighting, drop_pct), r),
    ensures
        sighting is Fresh ==> r == Verdict::PushNew,
        sighting is Silent ==> r == Verdict::Nothing,
        sighting matches Sighting::Pushed { price_cents } ==> r == if has_dropped(
            stored.price_cents as int,
            price_cents as int,
            drop_pct,
        ) {
            Verdict::PushDrop { previous: price_cents }
        } else {
            Verdict::Nothing
        },
{
}

/// A match of an offer is pushed to the search's reader, and counted.
pub proof fn law_matches_are_pushed_and_counted(
    p: &mut Pipeline,
    at: usize,
    stored: Listing,
    sighting: Sighting,
    r: Option<Push>,
)
    requires
        at < old(p).searches@.len(),
        old(p).stats.notified < u64::MAX,
        old(p).stats.suppressed < u64::MAX,
        forall|k: int| 0 <= k < stored.flags@.len() ==> stored.flags@[k] != Flag::WantedAd,
        call_ensures(Pipeline::matched, (p, at, &stored, sighting), r),
    ensures
        final(p).searches == old(p).searches,
        final(p).drop_pct == old(p).drop_pct,
        final(p).seen_urls == old(p).seen_urls,
        final(p).stats.suppressed == old(p).stats.suppressed,
        final(p).stats.new_listings == old(p).stats.new_listings,
        final(p).stats.updated_listings == old(p).stats.updated_listings,
        final(p).stats.skipped == old(p).stats.skipped,
        final(p).stats.gone == old(p).stats.gone,
        final(p).stats.notified == old(p).stats.notified + if r is Some {
            1int
        } else {
            0int
        },
        sighting is Fresh ==> r is Some && says_new(r->0, old(p).searches@[at as int], stored),
        sighting is Silent ==> r is None,
        sighting matches Sighting::Pushed { price_cents } ==> (r is Some <==> has_dropped(
            stored.price_cents as int,
            price_cents as int,
            old(p).drop_pct,
        )) && (r is Some ==> says_dropped(
            r->0,
            old(p).searches@[at as int],
            stored,
            price_cents,
        )),
{
}

/// Scraping a listing that is known brings every fact of the ad up to date, and keeps what the
/// store alone knows.
pub proof fn law_known_listings_take_the_scraped_facts(
    stored: Listing,
    scraped: Listing,
    r: (Listing, UpsertOutcome),
)
    requires
        call_ensures(upsert_listing, (Some(stored), scraped), r),
    ensures
        r.0.title == scraped.title && r.0.price_cents == scraped.price_cents,
        r.0.source_id == scraped.source_id && r.0.canonical_url == scraped.canonical_url,
        r.0.property_type == scraped.property_type && r.0.surface_m2 == scraped.surface_m2,
        r.0.rooms == scraped.rooms && r.0.bedrooms == scraped.bedrooms,
        r.0.land_m2 == scraped.land_m2 && r.0.commune == scraped.commune,
        r.0.postal_code == scraped.postal_code && r.0.lat == scraped.lat && r.0.lng == scraped.lng,
        r.0.dpe == scraped.dpe && r.0.ges == scraped.ges && r.0.sell_type == scraped.sell_type,
        r.0.flags == scraped.flags && r.0.last_seen == scraped.last_seen,
        r.0.id == stored.id && r.0.first_seen == stored.first_seen,
        r.0.attributes == stored.attributes && r.0.status == ListingStatus::Active,
        r.1 is Unchanged <==> stored.price_cents == scraped.price_cents,
        r.1 matches UpsertOutcome::PriceChanged { old_price_cents } ==> old_price_cents
            == stored.price_cents,
        !(r.1 is New),
{
}

/// Scraping the same ad twice in a row changes nothing the second time, and is no news.
pub proof fn law_scraping_again_changes_nothing(
    stored: Listing,
    scraped: Listing,
    once: (Listing, UpsertOutcome),
    twice: (Listing, UpsertOutcome),
)
    requires
        call_ensures(upsert_listing, (Some(stored), scraped), once),
        call_ensures(upsert_listing, (Some(once.0), scraped), twice),
    ensures
        twice.0 == once.0,
        twice.1 is Unchanged,
{
}

/// A listing has a row in the dashboard if and only if it is live, lies in a known commune and
/// has a surface of at least one square metre; the row has its place and its price by the metre.
pub proof fn law_listings_that_count_have_a_row(
    l: Listing,
    price_cents: i64,
    now: Option<PricedRow>,
    older: Option<PricedRow>,
)
    requires
        call_ensures(priced_now, (&l,), now),
        call_ensures(priced_then, (&l, price_cents), older),
    ensures
        now is Some <==> l.status == ListingStatus::Active && l.moderation
            == Moderation::Unmoderated && l.commune is Some && l.surface_m2 is Some
            && l.surface_m2->0.ge(Double { bits: ONE_BITS }),
        older is Some <==> now is Some,
        now matches Some(row) ==> Some(row.commune) == l.commune && row.postal_code
            == l.postal_code && row.m2_cents == price_ratio(
            l.price_cents as int,
            l.surface_m2->0,
        ) as i64,
        older matches Some(row) ==> Some(row.commune) == l.commune && row.postal_code
            == l.postal_code && row.m2_cents == price_ratio(price_cents as int, l.surface_m2->0),
{
}

/// The dashboard credits each commune with the listings that count there, and names no commune
/// twice.
pub proof fn law_dashboards_count_per_commune(
    items: Vec<ListingWithHistory>,
    cutoff: &str,
    r: Vec<CommuneStat>,
    i: int,
    j: int,
)
    requires
        call_ensures(commune_stats, (&items, cutoff), r),
        0 <= i < r@.len(),
        0 <= j < r@.len(),
    ensures
        r@[i].listings == countable(items@).filter(names_commune(r@[i].commune@)).len(),
        r@[i].median_m2_cents is Some,
        i < j ==> r@[i].listings >= r@[j].listings,
        i != j ==> r@[i].commune@ != r@[j].commune@,
{
    let now = rows_now(items@);
    let then = rows_then(items@, cutoff@);
    law_communes_are_credited_with_their_listings(r@[i], items@, then);
    if i < j {
        law_each_commune_once(r@, now, then, i, j);
        assert(ahead(r@[i], r@[j]));
    } else if j < i {
        law_each_commune_once(r@, now, then, j, i);
    }
}

/// What is hidden by a verdict is listed among the hidden, what is not is listed among the rest,
/// and a verdict on an unknown listing is an error.
pub proof fn law_verdicts_move_listings_between_the_lists(
    rows: u64,
    m: Moderation,
    hidden: bool,
    r: Result<bool, StoreError>,
    listed: bool,
)
    requires
        call_ensures(set_moderation, (rows, m), r),
        call_ensures(is_listed, (m, hidden), listed),
    ensures
        rows == 0 ==> r is Err && r->Err_0 is NotFound,
        rows > 0 ==> r is Ok && (listed <==> hidden == r->Ok_0),
        m == Moderation::Unmoderated ==> listed == !hidden,
        m == Moderation::Dismissed ==> listed == hidden,
        m == Moderation::Banned ==> listed == hidden,
{
}

/// A listing that waits anew is due at once, keeps the count of its failures, and is read again
/// if and only if its price has changed.
pub proof fn law_waiting_listings_keep_their_failures(
    waiting: Option<QueueItem>,
    reason: &str,
    now: Timestamp,
    r: (QueueItem, bool),
)
    requires
        call_ensures(enqueue_enrichment, (waiting, reason, now), r),
    ensures
        r.0.reason@ == reason@,
        r.0.next_attempt_at == now,
        waiting is None ==> r.0.attempts == 0 && r.0.last_error is None,
        waiting matches Some(item) ==> r.0.attempts == item.attempts && r.0.last_error
            == item.last_error,
        r.1 <==> reason@ == "price-change"@,
{
}

/// A reading changes the facts of the listing alone, fills only those that were unknown, and is
/// noted with its time.
pub proof fn law_readings_fill_what_is_unknown(
    state: EnrichState,
    found: ExtractedAttrs,
    now: Timestamp,
    r: EnrichState,
)
    requires
        call_ensures(set_attributes, (state, &found, now), r),
    ensures
        r.extracted_at == Some(now),
        r.enriched_at == state.enriched_at,
        r.listing == (Listing { attributes: r.listing.attributes, ..state.listing }),
        state.listing.attributes.travaux is Some ==> r.listing.attributes.travaux
            == state.listing.attributes.travaux,
        state.listing.attributes.travaux is None ==> r.listing.attributes.travaux == found.travaux,
        state.listing.attributes.etage is Some ==> r.listing.attributes.etage
            == state.listing.attributes.etage,
        state.listing.attributes.etage is None ==> r.listing.attributes.etage == found.etage,
        r.listing.attributes.filled(state.listing.attributes, found),
{
}

/// A failure is tried again while attempts are left, a little later each time, and never for a
/// listing that waits no more.
pub proof fn law_failures_are_tried_again(attempts: Option<u32>, max_attempts: u32, r: Retry)
    requires
        attempts matches Some(n) ==> n < u32::MAX,
        call_ensures(enrichment_failed, (attempts, max_attempts), r),
    ensures
        attempts is None ==> r == Retry::GiveUp,
        attempts matches Some(n) ==> (r is GiveUp <==> n + 1 >= max_attempts),
        r matches Retry::Later { attempts: a, backoff_secs } ==> attempts is Some && a
            == attempts->0 + 1 && backoff_secs <= 21600,
{
    if let Some(n) = attempts {
        if n < u32::MAX - 1 {
            law_retries_count_and_double(n, max_attempts);
        }
    }
}

/// A scraped ad with a web address is accepted once and noted as seen; any other is skipped and
/// counted.
pub proof fn law_scraped_ads_are_accepted_or_skipped(
    p: &mut Pipeline,
    raw: RawListing,
    numbers: RawNumbers,
    id: u128,
    now: Timestamp,
    r: Option<Accepted>,
)
    requires
        old(p).stats.skipped < u64::MAX,
        call_ensures(Pipeline::accept, (p, raw, numbers, id, now), r),
    ensures
        final(p).searches == old(p).searches && final(p).drop_pct == old(p).drop_pct,
        r is Some <==> canonical(raw.url@) is Some,
        r matches Some(a) ==> {
            &&& a.image_urls == raw.image_urls
            &&& a.listing.id == id
            &&& a.listing.property_type == raw.property_type
            &&& a.listing.surface_m2 == numbers.surface_m2
            &&& a.listing.commune == raw.commune
            &&& a.listing.postal_code == raw.postal_code
            &&& final(p).seen_urls@.len() == old(p).seen_urls@.len() + 1
            &&& final(p).seen_urls@.last()@ == a.listing.canonical_url@
            &&& final(p).stats == old(p).stats
        },
        r is None ==> final(p).seen_urls == old(p).seen_urls && final(p).stats.skipped
            == old(p).stats.skipped + 1 && final(p).stats.notified == old(p).stats.notified
            && final(p).stats.gone == old(p).stats.gone,
{
    if let Some(a) = r {
        let seen = texts(final(p).seen_urls@);
        assert(seen.len() == final(p).seen_urls@.len());
        assert(texts(old(p).seen_urls@).len() == old(p).seen_urls@.len());
        assert(seen.last() == a.listing.canonical_url@);
        assert(seen.last() == final(p).seen_urls@.last()@);
    }
}

/// What is stored is counted as new or updated, is enriched if it is news, and matches the
/// searches that it satisfies.
pub proof fn law_stored_listings_meet_their_searches(
    p: &mut Pipeline,
    outcome: UpsertOutcome,
    stored: Listing,
    r: Effects,
    k: int,
)
    requires
        old(p).stats.new_listings < u64::MAX,
        old(p).stats.updated_listings < u64::MAX,
        call_ensures(Pipeline::stored, (p, outcome, &stored), r),
        0 <= k < old(p).searches@.len(),
    ensures
        final(p).searches == old(p).searches && final(p).drop_pct == old(p).drop_pct,
        final(p).seen_urls == old(p).seen_urls,
        final(p).stats.new_listings == old(p).stats.new_listings + if outcome is New {
            1int
        } else {
            0int
        },
        final(p).stats.updated_listings == old(p).stats.updated_listings + if outcome is New {
            0int
        } else {
            1int
        },
        final(p).stats.notified == old(p).stats.notified,
        r.enrich is None <==> outcome is Unchanged,
        outcome is New ==> r.enrich is Some && r.enrich->0@ == "new"@,
        outcome is PriceChanged ==> r.enrich is Some && r.enrich->0@ == "price-change"@,
        (exists|i: int| 0 <= i < r.matches@.len() && #[trigger] r.matches@[i] == k)
            <==> satisfies(old(p).searches@[k], stored),
{
    law_matching_is_exact(old(p).searches@, stored);
    let found = r.matches@.map_values(|i: usize| i as int);
    let expected = matching(old(p).searches@, stored);
    assert(found == expected);
    if satisfies(old(p).searches@[k], stored) {
        assert(expected.contains(k));
        let i: int = choose|i: int| 0 <= i < found.len() && found[i] == k;
        assert(r.matches@[i] == k);
    }
    if exists|i: int| 0 <= i < r.matches@.len() && #[trigger] r.matches@[i] == k {
        let i: int = choose|i: int| 0 <= i < r.matches@.len() && #[trigger] r.matches@[i] == k;
        assert(found[i] == k);
        assert(expected.contains(k));
    }
}

/// A pipeline starts with nothing counted, and ends with the listings that have gone.
pub proof fn law_pipelines_start_empty_and_end_with_the_gone(
    searches: Vec<Search>,
    drop_pct: Double,
    fresh: Pipeline,
    p: &mut Pipeline,
    gone: u64,
    fetched: u64,
    tick: TickStats,
)
    requires
        call_ensures(Pipeline::new, (searches, drop_pct), fresh),
        call_ensures(Pipeline::finish, (p, gone), ()),
        call_ensures(PipelineStats::tick, (final(p).stats, fetched), tick),
    ensures
        fresh.searches == searches && fresh.drop_pct == drop_pct && fresh.seen_urls@.len() == 0,
        fresh.stats.new_listings == 0 && fresh.stats.updated_listings == 0 && fresh.stats.skipped
            == 0,
        fresh.stats.notified == 0 && fresh.stats.gone == 0 && fresh.stats.suppressed == 0,
        final(p).searches == old(p).searches && final(p).seen_urls == old(p).seen_urls,
        tick.fetched == fetched && tick.gone == gone,
        tick.new_listings == old(p).stats.new_listings,
        tick.updated_listings == old(p).stats.updated_listings,
        tick.skipped == old(p).stats.skipped,
        tick.notified == old(p).stats.notified,
        tick.suppressed == old(p).stats.suppressed,
{
}

} // verus!
