//! Storing: what a scrape, a detail page and a reading make of a listing.
use crate::listing::{
    ExtractedAttrs, Flag, Listing, ListingDetail, ListingStatus, Moderation, PropertyType, Seller,
    SellerKind, Timestamp,
};
use crate::normalize::lemma_filter_from;
use crate::store::{
    detailed, enrichment_backoff, grouped, image_urls_of, is_pending, newer, newest_first,
    next_position, photos_to_add, retried, row_listing, rows_of, seen_at, seller_in, shown,
    status_column, unknown_count, unseen, upserted, DbImage, EnrichState, ListingRow, Retry,
    SellerColumns, UpsertOutcome,
};
use crate::text::lemma_filter_push;
use vstd::prelude::*;

verus! {

/// A scrape is the authority on what it reads off the page: each of these facts
/// of a known listing is the scraped one afterwards, set or unset.
pub proof fn law_scrapes_bring_the_facts_up_to_date(stored: Listing, scraped: Listing)
    ensures
        ({
            let (l, outcome) = upserted(Some(stored), scraped);
            &&& l.source_id == scraped.source_id
            &&& l.canonical_url == scraped.canonical_url
            &&& l.title == scraped.title
            &&& l.price_cents == scraped.price_cents
            &&& l.property_type == scraped.property_type
            &&& l.surface_m2 == scraped.surface_m2
            &&& l.rooms == scraped.rooms
            &&& l.bedrooms == scraped.bedrooms
            &&& l.land_m2 == scraped.land_m2
            &&& l.commune == scraped.commune
            &&& l.postal_code == scraped.postal_code
            &&& l.lat == scraped.lat
            &&& l.lng == scraped.lng
            &&& l.dpe == scraped.dpe
            &&& l.ges == scraped.ges
            &&& l.sell_type == scraped.sell_type
            &&& l.flags == scraped.flags
            &&& l.last_seen == scraped.last_seen
        }),
{
}

/// What a scrape is no authority on stays with the stored listing: who it is,
/// when it was first seen, what has been read out of its prose. Where a
/// description or an address is missing the scrape supplies it, and a seller is
/// replaced whole by one that the scrape names.
pub proof fn law_scrapes_keep_what_is_known(stored: Listing, scraped: Listing)
    ensures
        ({
            let (l, outcome) = upserted(Some(stored), scraped);
            &&& l.id == stored.id
            &&& l.first_seen == stored.first_seen
            &&& l.attributes == stored.attributes
            &&& l.status == ListingStatus::Active
            &&& stored.description is Some ==> l.description == stored.description
            &&& stored.description is None ==> l.description == scraped.description
            &&& stored.address is Some ==> l.address == stored.address
            &&& stored.address is None ==> l.address == scraped.address
            &&& scraped.seller is Some ==> l.seller == scraped.seller
            &&& scraped.seller is None ==> l.seller == stored.seller
            &&& stored.moderation == Moderation::Banned ==> l.moderation == Moderation::Banned
            &&& stored.moderation == Moderation::Unmoderated ==> l.moderation
                == Moderation::Unmoderated
            &&& stored.moderation == Moderation::Dismissed && stored.status == ListingStatus::Gone
                ==> l.moderation == Moderation::Unmoderated
            &&& stored.moderation == Moderation::Dismissed && stored.status
                == ListingStatus::Active ==> l.moderation == Moderation::Dismissed
        }),
{
}

/// The outcome of a scrape says what became of the price: a listing is new, or
/// its price changed from the one stored, or it did not change.
pub proof fn law_outcomes_tell_the_price(stored: Listing, scraped: Listing)
    ensures
        upserted(None, scraped).1 == UpsertOutcome::New,
        stored.price_cents != scraped.price_cents ==> upserted(Some(stored), scraped).1 == (
        UpsertOutcome::PriceChanged { old_price_cents: stored.price_cents }),
        stored.price_cents == scraped.price_cents ==> upserted(Some(stored), scraped).1
            == UpsertOutcome::Unchanged,
        UpsertOutcome::New.is_news() && UpsertOutcome::New.reason() == Some("new"@),
        (UpsertOutcome::PriceChanged { old_price_cents: stored.price_cents }).is_news(),
        (UpsertOutcome::PriceChanged { old_price_cents: stored.price_cents }).reason() == Some(
            "price-change"@,
        ),
        !UpsertOutcome::Unchanged.is_news() && UpsertOutcome::Unchanged.reason() is None,
{
}

/// A listing that was not known is stored as it was scraped, and is active.
pub proof fn law_new_listings_are_stored_as_scraped(scraped: Listing)
    ensures
        ({
            let (l, outcome) = upserted(None, scraped);
            &&& l.status == ListingStatus::Active
            &&& l.id == scraped.id && l.source_id == scraped.source_id
            &&& l.canonical_url == scraped.canonical_url && l.title == scraped.title
            &&& l.price_cents == scraped.price_cents && l.property_type == scraped.property_type
            &&& l.surface_m2 == scraped.surface_m2 && l.rooms == scraped.rooms
            &&& l.bedrooms == scraped.bedrooms && l.land_m2 == scraped.land_m2
            &&& l.commune == scraped.commune && l.postal_code == scraped.postal_code
            &&& l.lat == scraped.lat && l.lng == scraped.lng
            &&& l.dpe == scraped.dpe && l.ges == scraped.ges && l.sell_type == scraped.sell_type
            &&& l.description == scraped.description && l.address == scraped.address
            &&& l.seller == scraped.seller && l.attributes == scraped.attributes
            &&& l.flags == scraped.flags && l.moderation == scraped.moderation
            &&& l.first_seen == scraped.first_seen && l.last_seen == scraped.last_seen
        }),
{
}

/// A row that has no fault holds its columns: each fact of the listing is the
/// column's, none is left out or swapped.
pub proof fn law_rows_hold_their_columns(row: ListingRow)
    ensures
        ({
            let l = row_listing(row);
            &&& l.source_id == row.source_id && l.canonical_url == row.canonical_url
            &&& l.title == row.title && l.price_cents == row.price_cents
            &&& l.surface_m2 == row.surface_m2 && l.land_m2 == row.land_m2
            &&& l.rooms == row.rooms && l.bedrooms == row.bedrooms
            &&& l.commune == row.commune && l.postal_code == row.postal_code
            &&& l.lat == row.lat && l.lng == row.lng
            &&& l.dpe == row.dpe && l.ges == row.ges && l.sell_type == row.sell_type
            &&& l.description == row.description && l.address == row.address
            &&& row.flags matches Ok(flags) ==> l.flags == flags
            &&& row.attributes matches Ok(attributes) ==> l.attributes == attributes
            &&& row.property_type@ == "house"@ ==> l.property_type == PropertyType::House
            &&& row.property_type@ == "apartment"@ ==> l.property_type == PropertyType::Apartment
            &&& row.property_type@ == "land"@ ==> l.property_type == PropertyType::Land
            &&& row.property_type@ != "house"@ && row.property_type@ != "apartment"@
                && row.property_type@ != "land"@ ==> l.property_type == PropertyType::Other
            &&& l.status == ListingStatus::Gone <==> row.status@ == "gone"@
            &&& row.moderation@ == "banned"@ ==> l.moderation == Moderation::Banned
            &&& row.moderation@ == "dismissed"@ ==> l.moderation == Moderation::Dismissed
            &&& row.moderation@ != "banned"@ && row.moderation@ != "dismissed"@ ==> l.moderation
                == Moderation::Unmoderated
        }),
{
    crate::store::law_property_type_reads_back(PropertyType::House);
    crate::store::law_property_type_reads_back(PropertyType::Apartment);
    crate::store::law_property_type_reads_back(PropertyType::Land);
    crate::store::law_moderation_reads_back(Moderation::Banned);
    crate::store::law_moderation_reads_back(Moderation::Dismissed);
}

/// The status of a listing reads back from its column.
pub proof fn law_status_reads_back(s: ListingStatus)
    ensures
        s == ListingStatus::Gone <==> status_column(s) == "gone"@,
{
    reveal_strlit("gone");
    reveal_strlit("active");
    assert("gone"@[0] != "active"@[0]);
}

/// The columns of a seller hold whom they name: by kind, with name and SIREN as
/// they are, nobody where the kind is missing or unknown.
pub proof fn law_seller_columns_name_the_seller(c: SellerColumns)
    ensures
        c.kind matches Some(k) && k@ == "pro"@ ==> seller_in(c) == Some(
            Seller { kind: SellerKind::Pro, name: c.name, siren: c.siren },
        ),
        c.kind matches Some(k) && k@ == "private"@ ==> seller_in(c) == Some(
            Seller { kind: SellerKind::Private, name: c.name, siren: c.siren },
        ),
        c.kind is None ==> seller_in(c) is None,
        c.kind matches Some(k) && k@ != "pro"@ && k@ != "private"@ ==> seller_in(c) is None,
{
    reveal_strlit("pro");
    reveal_strlit("private");
    assert("pro"@.len() != "private"@.len());
}

// ---------------------------------------------------------------------------
// Lifecycle

/// A listing goes gone exactly where no page of the scrape showed its URL; those
/// that go keep their order, and each goes once.
pub proof fn law_unseen_listings_go_gone(
    active: Seq<(u128, Seq<char>)>,
    seen: Seq<Seq<char>>,
    row: (u128, Seq<char>),
)
    ensures
        unseen(active, seen).contains(row) <==> active.contains(row) && !seen.contains(row.1),
        unseen(active.push(row), seen) == if seen.contains(row.1) {
            unseen(active, seen)
        } else {
            unseen(active, seen).push(row)
        },
        unseen(Seq::empty(), seen) == Seq::<(u128, Seq<char>)>::empty(),
{
    broadcast use vstd::seq_lib::group_filter_ensures;

    let pick = |row: (u128, Seq<char>)| !seen.contains(row.1);
    lemma_filter_push(active, row, pick);
    assert(Seq::<(u128, Seq<char>)>::empty().filter(pick) =~= Seq::<(u128, Seq<char>)>::empty())
        by {
        reveal(Seq::filter);
    }
    if unseen(active, seen).contains(row) {
        let i = choose|i: int|
            0 <= i < unseen(active, seen).len() && unseen(active, seen)[i] == row;
        lemma_filter_from(active, pick, i);
        assert(pick(unseen(active, seen)[i]));
    }
    if active.contains(row) && !seen.contains(row.1) {
        let i = choose|i: int| 0 <= i < active.len() && active[i] == row;
        assert(pick(active[i]));
    }
}

/// A list shows a listing exactly where the listing is stored, its verdict is of
/// the kind that the list is for, and a chosen search has matched it.
pub proof fn law_lists_show_what_they_are_for(
    listings: Seq<Listing>,
    ids: Seq<u128>,
    l: Listing,
)
    ensures
        shown(listings, None, false).contains(l) <==> listings.contains(l) && l.moderation
            == Moderation::Unmoderated,
        shown(listings, None, true).contains(l) <==> listings.contains(l) && (l.moderation
            == Moderation::Dismissed || l.moderation == Moderation::Banned),
        shown(listings, Some(ids), false).contains(l) <==> listings.contains(l) && l.moderation
            == Moderation::Unmoderated && ids.contains(l.id),
        shown(listings, Some(ids), true).contains(l) <==> listings.contains(l) && l.moderation
            != Moderation::Unmoderated && ids.contains(l.id),
{
    lemma_shown(listings, None, false, l);
    lemma_shown(listings, None, true, l);
    lemma_shown(listings, Some(ids), false, l);
    lemma_shown(listings, Some(ids), true, l);
}

proof fn lemma_shown(listings: Seq<Listing>, matched: Option<Seq<u128>>, hidden: bool, l: Listing)
    ensures
        shown(listings, matched, hidden).contains(l) <==> listings.contains(l) && (
        crate::store::is_shown(matched, hidden))(l),
{
    broadcast use vstd::seq_lib::group_filter_ensures;

    let pick = crate::store::is_shown(matched, hidden);
    let list = shown(listings, matched, hidden);
    if list.contains(l) {
        let i = choose|i: int| 0 <= i < list.len() && list[i] == l;
        lemma_filter_from(listings, pick, i);
        assert(pick(list[i]));
    }
    if listings.contains(l) && pick(l) {
        let i = choose|i: int| 0 <= i < listings.len() && listings[i] == l;
        assert(pick(listings[i]));
    }
}

/// In a list a listing that was seen later stands first: seconds decide, then
/// nanoseconds.
pub proof fn law_lists_start_with_the_latest(
    out: Seq<Listing>,
    listings: Seq<Listing>,
    i: int,
    j: int,
)
    requires
        newest_first(out, listings),
        0 <= i < j < out.len(),
    ensures
        out[i].last_seen.secs >= out[j].last_seen.secs,
        out[i].last_seen.secs == out[j].last_seen.secs ==> out[i].last_seen.nanos
            >= out[j].last_seen.nanos,
        out.to_multiset() == listings.to_multiset(),
{
    assert(!newer(out[j], out[i]));
}

/// Rows of a listing are grouped under it, all of them and in order; a listing
/// without rows has no group.
pub proof fn law_groups_hold_every_row<T>(
    groups: Map<u128, Vec<T>>,
    rows: Seq<(u128, T)>,
    id: u128,
)
    requires
        grouped(groups, rows),
    ensures
        groups.contains_key(id) <==> exists|i: int| 0 <= i < rows.len() && (#[trigger] rows[i]).0 == id,
        forall|i: int|
            0 <= i < rows.len() && (#[trigger] rows[i]).0 == id ==> groups[id]@.contains(rows[i].1),
        groups.contains_key(id) ==> forall|k: int|
            0 <= k < groups[id]@.len() ==> rows.contains((id, #[trigger] groups[id]@[k])),
{
    broadcast use vstd::seq_lib::group_filter_ensures;

    let pick = crate::store::belongs_to::<T>(id);
    let mine = rows.filter(pick);
    assert(rows_of(rows, id).len() == mine.len());
    assert forall|i: int| 0 <= i < rows.len() && (#[trigger] rows[i]).0 == id implies rows_of(
        rows,
        id,
    ).contains(rows[i].1) && rows_of(rows, id).len() > 0 by {
        assert(pick(rows[i]));
        assert(mine.contains(rows[i]));
        let k = choose|k: int| 0 <= k < mine.len() && mine[k] == rows[i];
        assert(rows_of(rows, id)[k] == rows[i].1);
    }
    if groups.contains_key(id) {
        assert(groups[id]@ == rows_of(rows, id));
        assert forall|k: int| 0 <= k < groups[id]@.len() implies rows.contains(
            (id, #[trigger] groups[id]@[k]),
        ) by {
            lemma_filter_from(rows, pick, k);
            assert(pick(mine[k]));
            assert(mine[k] == (id, groups[id]@[k]));
        }
        lemma_filter_from(rows, pick, 0);
        assert(pick(mine[0]));
        let i = choose|i: int| 0 <= i < rows.len() && rows[i] == mine[0];
        assert(rows[i].0 == id);
    }
}

// ---------------------------------------------------------------------------
// Enrichment

/// A detail page states what it knows, fact by fact: what it sets is stored, and
/// what it leaves unset stays. Nothing else of the listing changes.
pub proof fn law_details_bring_what_they_state(
    after: EnrichState,
    before: EnrichState,
    found: ListingDetail,
    now: Timestamp,
)
    requires
        detailed(after, before, found, now),
    ensures
        ({
            let l = before.listing;
            let m = after.listing;
            &&& found.description is Some ==> m.description == found.description
            &&& found.description is None ==> m.description == l.description
            &&& found.address is Some ==> m.address == found.address
            &&& found.address is None ==> m.address == l.address
            &&& found.seller is None ==> m.seller == l.seller
            &&& found.seller is Some && l.seller is None ==> m.seller == found.seller
            &&& found.seller is Some && l.seller is Some ==> m.seller is Some && m.seller->0.kind
                == found.seller->0.kind
            &&& found.seller is Some && l.seller is Some && found.seller->0.name is Some
                ==> m.seller->0.name == found.seller->0.name
            &&& found.seller is Some && l.seller is Some && found.seller->0.name is None
                ==> m.seller->0.name == l.seller->0.name
            &&& found.seller is Some && l.seller is Some && found.seller->0.siren is Some
                ==> m.seller->0.siren == found.seller->0.siren
            &&& found.seller is Some && l.seller is Some && found.seller->0.siren is None
                ==> m.seller->0.siren == l.seller->0.siren
            &&& after.enriched_at == Some(now)
            &&& found.description is Some && l.description is Some && found.description->0@
                == l.description->0@ ==> after.extracted_at == before.extracted_at
            &&& found.description is Some && (l.description is None || found.description->0@
                != l.description->0@) ==> after.extracted_at is None
            &&& found.description is None ==> after.extracted_at == before.extracted_at
            &&& m.id == l.id && m.source_id == l.source_id && m.canonical_url == l.canonical_url
            &&& m.title == l.title && m.price_cents == l.price_cents
            &&& m.property_type == l.property_type && m.surface_m2 == l.surface_m2
            &&& m.rooms == l.rooms && m.bedrooms == l.bedrooms && m.land_m2 == l.land_m2
            &&& m.commune == l.commune && m.postal_code == l.postal_code
            &&& m.lat == l.lat && m.lng == l.lng && m.dpe == l.dpe && m.ges == l.ges
            &&& m.sell_type == l.sell_type && m.flags == l.flags && m.status == l.status
            &&& m.moderation == l.moderation && m.first_seen == l.first_seen
            &&& m.last_seen == l.last_seen
            &&& m.attributes.filled(found.attributes, l.attributes)
        }),
{
}

/// Filling gaps works fact by fact: a fact that is known stays, one that is not
/// comes from the other side; notes come over where there are none.
pub proof fn law_gaps_are_filled_fact_by_fact(
    r: ExtractedAttrs,
    own: ExtractedAttrs,
    other: ExtractedAttrs,
)
    requires
        r.filled(own, other),
    ensures
        r.annee_construction == if own.annee_construction is Some {
            own.annee_construction
        } else {
            other.annee_construction
        },
        r.travaux == if own.travaux is Some { own.travaux } else { other.travaux },
        r.chauffage_type == if own.chauffage_type is Some {
            own.chauffage_type
        } else {
            other.chauffage_type
        },
        r.chauffage_energie == if own.chauffage_energie is Some {
            own.chauffage_energie
        } else {
            other.chauffage_energie
        },
        r.fibre == if own.fibre is Some { own.fibre } else { other.fibre },
        r.charges_copro_month_cents == if own.charges_copro_month_cents is Some {
            own.charges_copro_month_cents
        } else {
            other.charges_copro_month_cents
        },
        r.taxe_fonciere_year_cents == if own.taxe_fonciere_year_cents is Some {
            own.taxe_fonciere_year_cents
        } else {
            other.taxe_fonciere_year_cents
        },
        r.etage == if own.etage is Some { own.etage } else { other.etage },
        r.ascenseur == if own.ascenseur is Some { own.ascenseur } else { other.ascenseur },
        r.jardin == if own.jardin is Some { own.jardin } else { other.jardin },
        r.garage_parking == if own.garage_parking is Some {
            own.garage_parking
        } else {
            other.garage_parking
        },
        r.piscine == if own.piscine is Some { own.piscine } else { other.piscine },
        r.orientation == if own.orientation is Some { own.orientation } else { other.orientation },
        r.mitoyenne == if own.mitoyenne is Some { own.mitoyenne } else { other.mitoyenne },
        own.notes@.len() > 0 ==> r.notes@ == own.notes@,
        own.notes@.len() == 0 ==> r.notes@ == other.notes@,
{
}

/// Facts are unset exactly where none is known and there is no note; a copy has
/// every one of them.
pub proof fn law_facts_are_unset_where_none_is_known(a: ExtractedAttrs, b: ExtractedAttrs)
    ensures
        a.unset() <==> a.annee_construction is None && a.travaux is None && a.chauffage_type is None
            && a.chauffage_energie is None && a.fibre is None && a.charges_copro_month_cents is None
            && a.taxe_fonciere_year_cents is None && a.etage is None && a.ascenseur is None
            && a.jardin is None && a.garage_parking is None && a.piscine is None
            && a.orientation is None && a.mitoyenne is None && a.notes@.len() == 0,
        a.same(b) ==> a.annee_construction == b.annee_construction && a.travaux == b.travaux
            && a.chauffage_type == b.chauffage_type && a.chauffage_energie == b.chauffage_energie
            && a.fibre == b.fibre && a.charges_copro_month_cents == b.charges_copro_month_cents
            && a.taxe_fonciere_year_cents == b.taxe_fonciere_year_cents && a.etage == b.etage
            && a.ascenseur == b.ascenseur && a.jardin == b.jardin && a.garage_parking
            == b.garage_parking && a.piscine == b.piscine && a.orientation == b.orientation
            && a.mitoyenne == b.mitoyenne && a.notes@ == b.notes@,
{
}

/// A listing is a wanted ad exactly where one of its flags says so.
pub proof fn law_flags_make_wanted_ads(l: Listing)
    ensures
        l.wanted() <==> exists|k: int|
            0 <= k < l.flags@.len() && #[trigger] l.flags@[k] == Flag::WantedAd,
{
    if l.wanted() {
        let k = choose|k: int| 0 <= k < l.flags@.len() && l.flags@[k] == Flag::WantedAd;
        assert(l.flags@[k] == Flag::WantedAd);
    }
}

/// A failed attempt is retried below the cap, with one attempt more; at the cap,
/// or out of the queue, the listing is given up. The pause doubles with every
/// attempt up to six hours.
pub proof fn law_retries_count_and_double(n: u32, max_attempts: u32)
    requires
        n < u32::MAX - 1,
    ensures
        retried(None, max_attempts) == Retry::GiveUp,
        n + 1 >= max_attempts ==> retried(Some(n), max_attempts) == Retry::GiveUp,
        n + 1 < max_attempts ==> retried(Some(n), max_attempts) is Later && retried(
            Some(n),
            max_attempts,
        )->attempts == n + 1 && retried(Some(n), max_attempts)->backoff_secs == enrichment_backoff(
            n + 1,
        ),
        enrichment_backoff(1) == 60,
        enrichment_backoff(n + 2) == if 2 * enrichment_backoff(n + 1) <= 21600 {
            2 * enrichment_backoff(n + 1)
        } else {
            21600
        },
{
    crate::store::law_enrichment_backs_off(1, (n + 1) as nat);
    vstd::arithmetic::power2::lemma2_to64();
    vstd::arithmetic::power2::lemma_pow2_unfold((n + 1) as nat);
    vstd::arithmetic::power2::lemma_pow2_pos(n as nat);
}

/// The position of the next photo lies behind all stored ones, directly behind
/// the last; the first is zero.
pub proof fn law_photos_go_behind_the_stored_ones(stored: Seq<DbImage>, k: int)
    ensures
        stored.len() == 0 ==> next_position(stored) == 0,
        0 <= k < stored.len() ==> stored[k].position < next_position(stored),
        stored.len() > 0 ==> exists|i: int|
            0 <= i < stored.len() && (#[trigger] stored[i]).position + 1 == next_position(stored),
    decreases stored.len(),
{
    if stored.len() > 0 {
        let init = stored.drop_last();
        law_photos_go_behind_the_stored_ones(init, k);
        if k < init.len() && 0 <= k {
            assert(init[k] == stored[k]);
        }
        if init.len() > 0 && next_position(stored) == next_position(init) {
            let i = choose|i: int|
                0 <= i < init.len() && (#[trigger] init[i]).position + 1 == next_position(init);
            assert(stored[i] == init[i]);
        } else {
            assert(stored[stored.len() - 1].position + 1 == next_position(stored));
        }
    }
}

/// Every address that is not stored is added, once, and nothing else; the
/// positions ascend from the first free one.
pub proof fn law_unknown_photos_are_added(
    stored: Seq<Seq<char>>,
    start: int,
    urls: Seq<Seq<char>>,
    url: Seq<char>,
)
    requires
        i64::MIN <= start,
        start + urls.len() <= i64::MAX,
    ensures
        (exists|k: int|
            0 <= k < photos_to_add(stored, start, urls).len() && (#[trigger] photos_to_add(
                stored,
                start,
                urls,
            )[k]).1 == url) <==> urls.contains(url) && !stored.contains(url),
        forall|j: int, k: int|
            0 <= j < k < photos_to_add(stored, start, urls).len() ==> (#[trigger] photos_to_add(
                stored,
                start,
                urls,
            )[j]).1 != (#[trigger] photos_to_add(stored, start, urls)[k]).1 && photos_to_add(
                stored,
                start,
                urls,
            )[j].0 < photos_to_add(stored, start, urls)[k].0,
        forall|k: int|
            0 <= k < photos_to_add(stored, start, urls).len() ==> start <= (
            #[trigger] photos_to_add(stored, start, urls)[k]).0 < start + unknown_count(
                stored,
                urls,
            ),
        unknown_count(stored, urls) <= urls.len(),
    decreases urls.len(),
{
    let all = photos_to_add(stored, start, urls);
    if urls.len() > 0 {
        let init = urls.drop_last();
        let last = urls.last();
        let before = photos_to_add(stored, start, init);
        law_unknown_photos_are_added(stored, start, init, url);
        law_unknown_photos_are_added(stored, start, init, last);
        assert(urls.contains(url) <==> init.contains(url) || url == last) by {
            if urls.contains(url) {
                let k = choose|k: int| 0 <= k < urls.len() && urls[k] == url;
                if k < init.len() {
                    assert(init[k] == url);
                }
            }
            if init.contains(url) {
                let k = choose|k: int| 0 <= k < init.len() && init[k] == url;
                assert(urls[k] == url);
            }
            assert(urls[urls.len() - 1] == last);
        }
        if !(stored.contains(last) || init.contains(last)) {
            assert forall|k: int| 0 <= k < before.len() implies (#[trigger] before[k]).1 != last by {
                if before[k].1 == last {
                    assert(photos_to_add(stored, start, init)[k].1 == last);
                }
            }
            assert(all[before.len() as int].1 == last);
            if init.contains(url) && !stored.contains(url) {
                let k = choose|k: int|
                    0 <= k < before.len() && (#[trigger] photos_to_add(stored, start, init)[k]).1
                        == url;
                assert(all[k].1 == url);
            }
            assert forall|j: int, k: int| 0 <= j < k < all.len() implies (#[trigger] all[j]).1 != (
            #[trigger] all[k]).1 && all[j].0 < all[k].0 by {
                assert(all[j] == before[j]);
                if k < before.len() {
                    assert(all[k] == before[k]);
                }
            }
            assert forall|k: int| 0 <= k < all.len() implies start <= (#[trigger] all[k]).0 < start
                + unknown_count(stored, urls) by {
                if k < before.len() {
                    assert(all[k] == before[k]);
                }
            }
            if exists|k: int| 0 <= k < all.len() && (#[trigger] all[k]).1 == url {
                let k = choose|k: int| 0 <= k < all.len() && (#[trigger] all[k]).1 == url;
                if k < before.len() {
                    assert(photos_to_add(stored, start, init)[k].1 == url);
                }
            }
        } else {
            assert(all == before);
        }
    }
}

/// A photo is still to be fetched exactly where it has no local copy, and stored
/// photos are known by their addresses.
pub proof fn law_photos_are_known_by_address(images: Seq<DbImage>, i: int)
    requires
        0 <= i < images.len(),
    ensures
        is_pending(images[i]) <==> images[i].local_path is None,
        image_urls_of(images).contains(images[i].url@),
        image_urls_of(images).len() == images.len(),
{
    assert(image_urls_of(images)[i] == images[i].url@);
}

/// The listings of one time stay in the order they came in.
pub proof fn law_lists_keep_ties_in_order(
    out: Seq<Listing>,
    listings: Seq<Listing>,
    time: Timestamp,
)
    requires
        newest_first(out, listings),
    ensures
        out.filter(|l: Listing| l.last_seen == time) == listings.filter(
            |l: Listing| l.last_seen == time,
        ),
{
    let same = |l: Listing| l.last_seen == time;
    assert(out.filter(seen_at(time)) == listings.filter(seen_at(time)));
    assert(seen_at(time) =~= same);
}

} // verus!
