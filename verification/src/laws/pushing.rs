//! Pushes: what is said of which listings, and when.
use crate::double::Double;
use crate::fixed::fixed_text;
use crate::limit::has_dropped;
use crate::listing::{Amount, Flag, Listing, ListingStatus, Moderation, RawListing, Timestamp};
use crate::normalize::{canonical, leads_with_intent};
use crate::pipeline::{
    description_text, detail_texts, normalized, says_dropped, says_new, verdict,
    whole_euros, PipelineStats, Push, RawNumbers, Sighting, Verdict,
};
use crate::ratio::euro_cents;
use crate::search::Search;
use crate::store::UpsertOutcome;
use crate::text::{int_text, join, words};
use vstd::prelude::*;

verus! {

/// Every drop is pushed: a listing that carries no wanted flag, whatever else it
/// is, and whose price now is at most the price pushed before less the
/// percentage, leads to a push that names that price. A match that is new is
/// pushed too, and one that was never pushed stays silent.
pub proof fn law_every_drop_is_pushed(stored: Listing, previous: i64, drop_pct: Double)
    requires
        forall|k: int| 0 <= k < stored.flags@.len() ==> stored.flags@[k] != Flag::WantedAd,
    ensures
        has_dropped(stored.price_cents as int, previous as int, drop_pct) ==> verdict(
            stored,
            Sighting::Pushed { price_cents: previous },
            drop_pct,
        ) == (Verdict::PushDrop { previous }),
        !has_dropped(stored.price_cents as int, previous as int, drop_pct) ==> verdict(
            stored,
            Sighting::Pushed { price_cents: previous },
            drop_pct,
        ) == Verdict::Nothing,
        verdict(stored, Sighting::Fresh, drop_pct) == Verdict::PushNew,
        verdict(stored, Sighting::Silent, drop_pct) == Verdict::Nothing,
{
}

/// A listing with a wanted flag is suppressed when its match is new, and leads
/// to nothing afterwards.
pub proof fn law_wanted_ads_are_suppressed(
    stored: Listing,
    k: int,
    previous: i64,
    drop_pct: Double,
)
    requires
        0 <= k < stored.flags@.len(),
        stored.flags@[k] == Flag::WantedAd,
    ensures
        verdict(stored, Sighting::Fresh, drop_pct) == Verdict::Suppress,
        verdict(stored, Sighting::Silent, drop_pct) == Verdict::Nothing,
        verdict(stored, Sighting::Pushed { price_cents: previous }, drop_pct) == Verdict::Nothing,
{
    assert(stored.flags@.contains(stored.flags@[k]));
}

/// Whole euros are the cents without what is less than a euro.
pub proof fn law_whole_euros_are_cut_off(cents: int)
    ensures
        cents >= 0 ==> whole_euros(cents) * 100 <= cents < whole_euros(cents) * 100 + 100,
        cents < 0 ==> whole_euros(cents) == -whole_euros(-cents),
{
}

/// The push about a new match says the search and the price; its message is the
/// description. The push about a drop says the price before and the one now.
pub proof fn law_pushes_state_search_and_prices(
    push: Push,
    search: Search,
    stored: Listing,
    previous: i64,
)
    ensures
        says_new(push, search, stored) ==> push.title@ == search.name@ + ": "@ + (int_text(
            whole_euros(stored.price_cents as int),
        ) + " €"@) && push.message@ == description_text(stored) && push.tags@
            == "house_with_garden"@ && push.priority@ == "default"@,
        says_dropped(push, search, stored, previous) ==> push.title@ == search.name@ + ": "@ + (
        int_text(whole_euros(previous as int)) + " €"@) + " → "@ + (int_text(
            whole_euros(stored.price_cents as int),
        ) + " €"@) && push.message@ == "Baisse de prix\n"@ + description_text(stored) && push.tags@
            == "chart_with_downwards_trend"@ && push.priority@ == "default"@,
{
}

/// A description starts with the title of the listing and ends with its URL,
/// each on a line of its own; between them the line of what is known: the
/// surface, the price per square metre, the commune.
pub proof fn law_descriptions_say_what_is_known(listing: Listing)
    ensures
        listing.surface_m2 is None && listing.commune is None ==> description_text(listing)
            == listing.title@ + "\n"@ + listing.canonical_url@,
        listing.surface_m2 is None && listing.commune is Some ==> description_text(listing)
            == listing.title@ + "\n"@ + listing.commune->0@ + "\n"@ + listing.canonical_url@,
        listing.surface_m2 is Some && listing.m2_cents() is None && listing.commune is None
            ==> description_text(listing) == listing.title@ + "\n"@ + (fixed_text(
            listing.surface_m2->0,
            0,
        ) + " m²"@) + "\n"@ + listing.canonical_url@,
        listing.surface_m2 is Some && listing.m2_cents() is Some && listing.commune is None
            ==> description_text(listing) == listing.title@ + "\n"@ + ((fixed_text(
            listing.surface_m2->0,
            0,
        ) + " m²"@) + " · "@ + (int_text(whole_euros(listing.m2_cents()->0)) + " €/m²"@)) + "\n"@
            + listing.canonical_url@,
        listing.surface_m2 is Some && listing.m2_cents() is None && listing.commune is Some
            ==> description_text(listing) == listing.title@ + "\n"@ + ((fixed_text(
            listing.surface_m2->0,
            0,
        ) + " m²"@) + " · "@ + listing.commune->0@) + "\n"@ + listing.canonical_url@,
        listing.surface_m2 is Some && listing.m2_cents() is Some && listing.commune is Some
            ==> description_text(listing) == listing.title@ + "\n"@ + ((fixed_text(
            listing.surface_m2->0,
            0,
        ) + " m²"@) + " · "@ + (int_text(whole_euros(listing.m2_cents()->0)) + " €/m²"@) + " · "@
            + listing.commune->0@) + "\n"@ + listing.canonical_url@,
{
    let d = detail_texts(listing);
    let u = seq![listing.title@, listing.canonical_url@];
    reveal_with_fuel(join, 4);
    assert(u.drop_last() =~= seq![listing.title@]);
    let v = seq![listing.title@, join(d, " · "@), listing.canonical_url@];
    assert(v.drop_last() =~= seq![listing.title@, join(d, " · "@)]);
    assert(v.drop_last().drop_last() =~= seq![listing.title@]);
    if d.len() == 1 {
        assert(join(d, " · "@) == d[0]);
    } else if d.len() == 2 {
        assert(d.drop_last() =~= seq![d[0]]);
        assert(join(d, " · "@) == d[0] + " · "@ + d[1]);
    } else if d.len() == 3 {
        assert(d.drop_last() =~= seq![d[0], d[1]]);
        assert(d.drop_last().drop_last() =~= seq![d[0]]);
        assert(join(d, " · "@) == d[0] + " · "@ + d[1] + " · "@ + d[2]);
    }
}

/// A normalized listing is the scraped one, fact by fact: its place, price and
/// ratings are as the source states them, and it starts active and without a
/// verdict, seen now. A title keeps its words, and a wanted flag stands on it
/// exactly where it leads with a word that asks to buy.
pub proof fn law_normalizing_keeps_the_facts(
    l: Listing,
    raw: RawListing,
    n: RawNumbers,
    id: u128,
    now: Timestamp,
)
    requires
        normalized(l, raw, n, id, now),
    ensures
        l.id == id,
        l.source_id@ == raw.source_id@,
        canonical(raw.url@) == Some(l.canonical_url@),
        l.title@ == join(words(raw.title@), seq![' ']),
        raw.price matches Amount::Cents(c) ==> l.price_cents == c,
        raw.price is Euros ==> l.price_cents == euro_cents(n.euros) as i64,
        l.property_type == raw.property_type,
        l.surface_m2 == n.surface_m2,
        l.rooms == raw.rooms,
        l.bedrooms == raw.bedrooms,
        l.land_m2 == n.land_m2,
        l.commune == raw.commune,
        l.postal_code == raw.postal_code,
        l.lat == n.lat,
        l.lng == n.lng,
        l.dpe == raw.dpe,
        l.ges == raw.ges,
        l.sell_type == raw.sell_type,
        l.description == raw.description,
        l.address == raw.address,
        l.seller == raw.seller,
        l.status == ListingStatus::Active,
        l.moderation == Moderation::Unmoderated,
        l.first_seen == now,
        l.last_seen == now,
        leads_with_intent(l.title@) <==> l.flags@.len() == 1,
        l.flags@.len() <= 1,
        l.flags@.len() == 1 ==> l.flags@[0] == Flag::WantedAd,
{
}

/// A push counts as one, a suppressed match as one, and nothing else does; a
/// listing counts as new where it was, and else as updated.
pub proof fn law_counters_count_what_happened(
    stats: PipelineStats,
    previous: i64,
    outcome: UpsertOutcome,
)
    requires
        stats.notified < u64::MAX,
        stats.suppressed < u64::MAX,
        stats.new_listings < u64::MAX,
        stats.updated_listings < u64::MAX,
        stats.skipped < u64::MAX,
    ensures
        stats.with_match(Verdict::PushNew) == (PipelineStats {
            notified: (stats.notified + 1) as u64,
            ..stats
        }),
        stats.with_match(Verdict::PushDrop { previous }) == (PipelineStats {
            notified: (stats.notified + 1) as u64,
            ..stats
        }),
        stats.with_match(Verdict::Suppress) == (PipelineStats {
            suppressed: (stats.suppressed + 1) as u64,
            ..stats
        }),
        stats.with_match(Verdict::Nothing) == stats,
        stats.with_stored(UpsertOutcome::New) == (PipelineStats {
            new_listings: (stats.new_listings + 1) as u64,
            ..stats
        }),
        outcome != UpsertOutcome::New ==> stats.with_stored(outcome) == (PipelineStats {
            updated_listings: (stats.updated_listings + 1) as u64,
            ..stats
        }),
        stats.with_skipped() == (PipelineStats { skipped: (stats.skipped + 1) as u64, ..stats }),
{
}

} // verus!
