//! Calls that keep records: rows, histories, lists and settings.
use crate::api;
use crate::client::ClientError;
use crate::communes::{trend_cutoff, utc_day};
use crate::config::{
    Config, EnrichmentConfig, LeboncoinConfig, LlmConfig, NotificationsConfig, OuestFranceConfig,
    ScrapeConfig,
};
use crate::double::{Double, ONE_BITS};
use crate::enrich::detail_or_nothing;
use crate::laws::storing::{
    law_lists_show_what_they_are_for, law_lists_start_with_the_latest, law_unseen_listings_go_gone,
};
use crate::listing::{
    Listing, ListingDetail, ListingStatus, ListingWithHistory, Moderation, PricePoint, Timestamp,
};
use crate::search::{Search, SearchRequest};
use crate::state::{all_locations, distinct, refresh_search_locations};
use crate::status::SourceStatus;
use crate::store::{
    is_ordinary, is_pending, json_texts, list_listings, mark_gone, observations, observed_on,
    pending_images, photo_texts, record_price, rfc3339_value, row_to_listing, row_to_search,
    search_from_request, search_to_row, set_detail, shown, unseen, url_rows, uuid_value, DbImage,
    EnrichState, ListingRow, SearchRow, StoreError,
};
use crate::text::{int_text, texts};
use std::collections::HashMap;
use vstd::prelude::*;

verus! {

/// A row makes a listing if and only if each of its coded columns can be read, and the listing
/// has what the columns state.
pub proof fn law_readable_rows_make_listings(row: ListingRow, r: Result<Listing, StoreError>)
    requires
        call_ensures(row_to_listing, (row,), r),
    ensures
        r is Ok <==> row.flags is Ok && uuid_value(row.id@) is Ok && row.attributes is Ok
            && rfc3339_value(row.first_seen@) is Ok && rfc3339_value(row.last_seen@) is Ok,
        r is Err ==> r->Err_0 is Corrupt,
        r matches Ok(l) ==> {
            &&& uuid_value(row.id@) == Ok::<u128, Seq<char>>(l.id)
            &&& rfc3339_value(row.first_seen@) == Ok::<Timestamp, Seq<char>>(l.first_seen)
            &&& rfc3339_value(row.last_seen@) == Ok::<Timestamp, Seq<char>>(l.last_seen)
            &&& l.title == row.title && l.price_cents == row.price_cents
            &&& l.surface_m2 == row.surface_m2 && l.land_m2 == row.land_m2
            &&& l.rooms == row.rooms && l.bedrooms == row.bedrooms
            &&& l.commune == row.commune && l.postal_code == row.postal_code
            &&& l.status == ListingStatus::Gone <==> row.status@ == "gone"@
        },
{
}

/// What is read of a search is what was written of it.
pub proof fn law_searches_read_back(
    search: Search,
    row: SearchRow,
    r: Result<Search, StoreError>,
)
    requires
        is_ordinary(search.created_at),
        call_ensures(search_to_row, (&search,), Some(row)),
        call_ensures(row_to_search, (row,), r),
    ensures
        r is Ok,
        r->Ok_0.id == search.id && r->Ok_0.name == search.name,
        texts(r->Ok_0.locations@) == texts(search.locations@),
        r->Ok_0.max_price_cents == search.max_price_cents,
        r->Ok_0.min_surface_m2 == search.min_surface_m2,
        r->Ok_0.min_rooms == search.min_rooms,
        r->Ok_0.property_types@ == search.property_types@,
        r->Ok_0.active == search.active && r->Ok_0.created_at == search.created_at,
{
}

/// A row makes a search if and only if each of its coded columns can be read.
pub proof fn law_readable_rows_make_searches(row: SearchRow, r: Result<Search, StoreError>)
    requires
        call_ensures(row_to_search, (row,), r),
    ensures
        r is Ok <==> uuid_value(row.id@) is Ok && json_texts(row.locations@) is Ok
            && row.property_types is Ok && rfc3339_value(row.created_at@) is Ok,
        r is Err ==> r->Err_0 is Corrupt,
        r matches Ok(s) ==> s.name == row.name && s.max_price_cents == row.max_price_cents
            && s.min_surface_m2 == row.min_surface_m2 && s.min_rooms == row.min_rooms && s.active
            == row.active,
{
}

/// A search has what was requested, its own id and the time of the request.
pub proof fn law_searches_are_made_as_requested(
    req: SearchRequest,
    id: u128,
    now: Timestamp,
    r: Search,
)
    requires
        call_ensures(search_from_request, (req, id, now), r),
    ensures
        r.id == id && r.created_at == now,
        r.name == req.name && r.locations == req.locations,
        r.max_price_cents == req.max_price_cents && r.min_surface_m2 == req.min_surface_m2,
        r.min_rooms == req.min_rooms && r.property_types == req.property_types,
        r.active == req.active,
{
}

/// A listing goes gone if and only if its address was not seen.
pub proof fn law_listings_go_gone_unseen(
    active: Vec<(u128, String)>,
    seen: Vec<String>,
    r: Vec<u128>,
    i: int,
)
    requires
        call_ensures(mark_gone, (&active, &seen), r),
        0 <= i < active@.len(),
    ensures
        !texts(seen@).contains(active@[i].1@) ==> r@.contains(active@[i].0),
        forall|k: int|
            0 <= k < r@.len() ==> exists|j: int|
                0 <= j < active@.len() && (#[trigger] active@[j]).0 == #[trigger] r@[k] && !texts(
                    seen@,
                ).contains(active@[j].1@),
{
    let rows = url_rows(active@);
    let out = unseen(rows, texts(seen@));
    let ids = out.map_values(|row: (u128, Seq<char>)| row.0);
    assert(r@ == ids);
    assert(rows[i] == (active@[i].0, active@[i].1@));
    law_unseen_listings_go_gone(rows, texts(seen@), rows[i]);
    if !texts(seen@).contains(active@[i].1@) {
        assert(rows.contains(rows[i]));
        let k: int = choose|k: int| 0 <= k < out.len() && out[k] == rows[i];
        assert(ids[k] == active@[i].0);
    }
    assert forall|k: int| 0 <= k < r@.len() implies exists|j: int|
        0 <= j < active@.len() && (#[trigger] active@[j]).0 == #[trigger] r@[k] && !texts(
            seen@,
        ).contains(active@[j].1@) by {
        law_unseen_listings_go_gone(rows, texts(seen@), out[k]);
        assert(out.contains(out[k]));
        let j: int = choose|j: int| 0 <= j < rows.len() && rows[j] == out[k];
        assert(rows[j] == (active@[j].0, active@[j].1@));
        assert(active@[j].0 == r@[k]);
    }
}

/// After a price is recorded the day has it, and no other day has changed.
pub proof fn law_days_have_their_price(
    history: &mut Vec<PricePoint>,
    day: &str,
    price_cents: i64,
    other: (Seq<char>, i64),
)
    requires
        other.0 != day@,
        call_ensures(record_price, (history, day, price_cents), ()),
    ensures
        observations(final(history)@).contains((day@, price_cents)),
        observations(final(history)@).contains(other) <==> observations(old(history)@).contains(
            other,
        ),
        old(history)@.len() <= final(history)@.len() <= old(history)@.len() + 1,
{
    let before = observations(old(history)@);
    let after = observations(final(history)@);
    let new = (day@, price_cents);
    if exists|i: int| #[trigger] observed_on(before, day@, i) {
        let i: int = choose|i: int|
            #[trigger] observed_on(before, day@, i) && (forall|j: int|
                0 <= j < i ==> !observed_on(before, day@, j)) && after
                == before.update(i, new);
        assert(after[i] == new);
        if before.contains(other) {
            let k: int = choose|k: int| 0 <= k < before.len() && before[k] == other;
            assert(k != i);
            assert(after[k] == other);
        }
        if after.contains(other) {
            let k: int = choose|k: int| 0 <= k < after.len() && after[k] == other;
            assert(k != i);
            assert(before[k] == other);
        }
    } else {
        assert(after == before.push(new));
        assert(after[before.len() as int] == new);
        if before.contains(other) {
            let k: int = choose|k: int| 0 <= k < before.len() && before[k] == other;
            assert(after[k] == other);
        }
        if after.contains(other) {
            let k: int = choose|k: int| 0 <= k < after.len() && after[k] == other;
            assert(before[k] == other);
        }
    }
}

/// A detail page asks for another reading if and only if it has a text that is not the known one.
pub proof fn law_new_texts_are_read_anew(
    state: EnrichState,
    found: ListingDetail,
    now: Timestamp,
    r: (EnrichState, bool),
)
    requires
        call_ensures(set_detail, (state, &found, now), r),
    ensures
        r.1 <==> found.description is Some && (state.listing.description is None
            || state.listing.description->0@ != found.description->0@),
        found.description is Some ==> r.0.listing.description == found.description,
        found.description is None ==> r.0.listing.description == state.listing.description,
        r.0.enriched_at == Some(now),
        r.1 ==> r.0.extracted_at is None,
        !r.1 ==> r.0.extracted_at == state.extracted_at,
{
}

/// A page that was not there brings nothing.
pub proof fn law_missing_pages_bring_nothing(found: ListingDetail, r: ListingDetail, n: ListingDetail)
    requires
        call_ensures(detail_or_nothing, (Some(found),), r),
        call_ensures(detail_or_nothing, (None,), n),
    ensures
        r == found,
        n.description is None && n.address is None && n.seller is None,
        n.image_urls@.len() == 0 && n.attributes.unset(),
{
}

/// The list shows the listings that are not hidden, or those that are, and all of them.
pub proof fn law_lists_show_hidden_or_not(
    listings: Vec<Listing>,
    hidden: bool,
    r: Vec<Listing>,
    l: Listing,
)
    requires
        call_ensures(list_listings, (listings, None, hidden), r),
    ensures
        r@.contains(l) <==> listings@.contains(l) && hidden == (l.moderation
            != Moderation::Unmoderated),
        forall|i: int, j: int|
            0 <= i < j < r@.len() ==> (#[trigger] r@[i]).last_seen.secs >= (
            #[trigger] r@[j]).last_seen.secs,
{
    let kept = shown(listings@, None, hidden);
    law_lists_show_what_they_are_for(listings@, Seq::empty(), l);
    r@.to_multiset_ensures();
    kept.to_multiset_ensures();
    assert(r@.to_multiset() == kept.to_multiset());
    assert(r@.contains(l) <==> r@.to_multiset().count(l) > 0);
    assert(kept.contains(l) <==> kept.to_multiset().count(l) > 0);
    assert forall|i: int, j: int| 0 <= i < j < r@.len() implies (#[trigger] r@[i]).last_seen.secs
        >= (#[trigger] r@[j]).last_seen.secs by {
        law_lists_start_with_the_latest(r@, kept, i, j);
    }
}

/// A listing is shown with the prices that are known of it.
pub proof fn law_listings_are_shown_with_their_prices(
    listings: Vec<Listing>,
    histories: HashMap<u128, Vec<PricePoint>>,
    images: HashMap<u128, Vec<DbImage>>,
    r: Vec<ListingWithHistory>,
    i: int,
)
    requires
        call_ensures(api::list_listings, (listings, histories, images), r),
        0 <= i < listings@.len(),
        forall|j: int| 0 <= j < i ==> (#[trigger] listings@[j]).id != listings@[i].id,
    ensures
        r@.len() == listings@.len(),
        r@[i].listing == listings@[i],
        histories@.contains_key(listings@[i].id) ==> r@[i].history@
            == histories@[listings@[i].id]@,
        !histories@.contains_key(listings@[i].id) ==> r@[i].history@.len() == 0,
{
    assert(api::first_of_id(listings@, i));
    assert(api::assembled(r@[i], listings@[i], histories@, images@));
}

/// Photos that are saved are not fetched again, and no more are fetched than are allowed.
pub proof fn law_saved_photos_are_not_pending(
    stored: Vec<DbImage>,
    limit: usize,
    r: Vec<(i64, String)>,
    k: int,
)
    requires
        call_ensures(pending_images, (&stored, limit), r),
        0 <= k < r@.len(),
    ensures
        r@.len() <= limit,
        exists|i: int|
            0 <= i < stored@.len() && (#[trigger] stored@[i]).local_path is None
                && stored@[i].position == r@[k].0 && stored@[i].url@ == r@[k].1@,
{
    let pred = |i: DbImage| is_pending(i);
    let waiting = stored@.filter(pred);
    let n = if waiting.len() <= limit {
        waiting.len()
    } else {
        limit as nat
    };
    let out = waiting.take(n as int).map_values(|i: DbImage| (i.position, i.url@));
    let got = photo_texts(r@);
    assert(got == out);
    assert(got[k] == (r@[k].0, r@[k].1@));
    stored@.filter_lemma(pred);
    assert(pred(waiting[k]));
    assert(waiting.contains(waiting[k]));
    stored@.lemma_filter_contains_rev(pred, waiting[k]);
    let i: int = choose|i: int| 0 <= i < stored@.len() && stored@[i] == waiting[k];
    assert(stored@[i].position == r@[k].0);
}

/// The trend looks back thirty days.
pub proof fn law_trends_look_back_thirty_days(
    now: Timestamp,
    then: Timestamp,
    cutoff: Option<String>,
    day: Option<String>,
)
    requires
        now.secs >= i64::MIN + 2_592_000,
        then.secs == now.secs - 30 * 24 * 60 * 60,
        call_ensures(trend_cutoff, (now,), cutoff),
        call_ensures(utc_day, (then,), day),
    ensures
        cutoff is Some <==> day is Some,
        cutoff is Some ==> cutoff->0@ == day->0@,
{
}

/// No more locations are scraped for the searches than are allowed, the first ones first.
pub proof fn law_searched_locations_are_capped(
    searches: Vec<Search>,
    cap: usize,
    r: Vec<String>,
    all: Vec<String>,
)
    requires
        call_ensures(refresh_search_locations, (&searches, cap), r),
        call_ensures(refresh_search_locations, (&searches, usize::MAX), all),
        distinct(all_locations(searches@)).len() <= usize::MAX,
    ensures
        r@.len() <= cap,
        texts(r@).is_prefix_of(texts(all@)),
        texts(all@) == distinct(all_locations(searches@)),
        r@.len() == cap || r@.len() == all@.len(),
{
    assert(texts(r@).len() == r@.len());
    assert(texts(all@).len() == all@.len());
}

/// A source that has not run yet has nothing to report.
pub proof fn law_idle_sources_report_nothing(source: &str, minutes: u64, r: SourceStatus)
    requires
        call_ensures(SourceStatus::idle, (source, minutes), r),
    ensures
        r.source_id@ == source@ && r.interval_minutes == minutes,
        r.last_tick is None && r.last_stats is None && r.last_error is None,
        r.consecutive_failures == 0,
{
}

/// An error says what went wrong, and why.
pub proof fn law_errors_say_why(
    why: String,
    status: u16,
    missing: String,
    corrupt: String,
    refused: String,
    lost: String,
    garbled: String,
)
    requires
        call_ensures(StoreError::message, (&StoreError::NotFound,), missing),
        call_ensures(StoreError::message, (&StoreError::Corrupt(why),), corrupt),
        call_ensures(
            ClientError::message,
            (&(ClientError::Api { status, message: why }),),
            refused,
        ),
        call_ensures(ClientError::message, (&ClientError::Transport(why),), lost),
        call_ensures(ClientError::message, (&ClientError::Decode(why),), garbled),
    ensures
        missing@ == "not found"@,
        corrupt@ == "invalid stored data: "@ + why@,
        refused@ == "server returned "@ + int_text(status as int) + ": "@ + why@,
        lost@ == "request failed: "@ + why@,
        garbled@ == "invalid response body: "@ + why@,
{
}

/// What is configured where nothing is said.
pub proof fn law_defaults_are_modest(
    c: Config,
    scrape: ScrapeConfig,
    notifications: NotificationsConfig,
    leboncoin: LeboncoinConfig,
    ouestfrance: OuestFranceConfig,
    llm: LlmConfig,
    enrichment: EnrichmentConfig,
)
    requires
        call_ensures(<Config as Default>::default, (), c),
        call_ensures(<ScrapeConfig as Default>::default, (), scrape),
        call_ensures(<NotificationsConfig as Default>::default, (), notifications),
        call_ensures(<LeboncoinConfig as Default>::default, (), leboncoin),
        call_ensures(<OuestFranceConfig as Default>::default, (), ouestfrance),
        call_ensures(<LlmConfig as Default>::default, (), llm),
        call_ensures(<EnrichmentConfig as Default>::default, (), enrichment),
    ensures
        c.listen.port == 4810 && c.db_path@ == "terrier.db"@ && c.static_dir is None,
        scrape.failure_alert_after == 5 && scrape.max_search_locations == 20,
        scrape.renotify_drop_pct == (Double { bits: ONE_BITS }),
        notifications.ntfy_url is None && notifications.token_file is None,
        notifications.topic@.len() == 0,
        !leboncoin.enabled && leboncoin.locations@.len() == 0,
        leboncoin.pages_per_location == 1 && leboncoin.delay_ms == 3000,
        leboncoin.interval_minutes == 60,
        !ouestfrance.enabled && ouestfrance.locations@.len() == 0,
        ouestfrance.delay_ms == 5000 && ouestfrance.interval_minutes == 120,
        ouestfrance.fetch_command@.len() == 0,
        !llm.enabled && llm.model@.len() == 0 && llm.api_key_file is None,
        llm.base_url@ == "http://127.0.0.1:8080/v1"@ && llm.timeout_secs == 120,
        enrichment.poll_seconds == 60 && enrichment.max_attempts == 8,
        enrichment.max_images == 10 && enrichment.images_dir@ == "images"@,
        c.scrape.failure_alert_after == 5 && !c.leboncoin.enabled && !c.ouestfrance.enabled,
        !c.llm.enabled && c.enrichment.max_images == 10 && c.notifications.ntfy_url is None,
{
}

} // verus!
