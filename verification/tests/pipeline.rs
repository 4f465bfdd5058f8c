use std::collections::HashMap;

use terrier::api::{create_search, error_status, list_listings, retro_match, sorted_sources};
use terrier::config::ScrapeConfig;
use terrier::communes::{
    aggregate, commune_stats, median, priced_now, priced_then, trend_cutoff, utc_day, PricedRow,
};
use terrier::double::Double;
use terrier::enrich::{
    detail_or_nothing, image_file, local_path, process_one, Stage, Step,
};
use terrier::listing::{
    Amount, ExtractedAttrs, Flag, Listing, ListingDetail, ListingStatus, ListingWithHistory, Moderation,
    PricePoint, PropertyType, RawListing, Seller, SellerKind, Timestamp,
};
use terrier::pipeline::{
    describe, euros, format_price, judge, Pipeline, PipelineStats, RawNumbers, Sighting, Verdict,
};
use terrier::search::{Search, SearchRequest};
use terrier::state::refresh_search_locations;
use terrier::status::SourceStatus;
use terrier::store::{
    self, add_image_urls, enqueue_enrichment, enrichment_failed, group_by_listing, id_column,
    is_listed, locations_column, mark_gone, search_to_row, time_column,
    moderation_from, moderation_str, parse_ts, parse_uuid, pending_images, property_type_from,
    property_type_str, record_price, row_to_listing, row_to_search, search_from_request,
    seller_cols, seller_of, set_attributes, set_detail, set_moderation, status_from, status_str,
    upsert_listing, DbImage, EnrichState, ListingRow, QueueItem, Retry, SearchRow, StoreError,
    UpsertOutcome,
};

const NOW: Timestamp = Timestamp { secs: 1_784_000_000, nanos: 0 };
const LATER: Timestamp = Timestamp { secs: 1_784_100_000, nanos: 0 };

fn double(x: f64) -> Double {
    Double { bits: x.to_bits() }
}

fn value(d: Double) -> f64 {
    f64::from_bits(d.bits)
}

/// A store that performs what the library decides, in memory.
#[derive(Default)]
struct Memory {
    searches: Vec<Search>,
    listings: Vec<EnrichState>,
    prices: HashMap<u128, Vec<PricePoint>>,
    matches: HashMap<(u128, u128), Option<i64>>,
    queue: HashMap<u128, QueueItem>,
    images: HashMap<u128, Vec<DbImage>>,
    sent: Vec<(String, String)>,
    ids: u128,
}

impl Memory {
    fn add_search(&mut self, request: SearchRequest) -> u128 {
        self.ids += 1;
        self.searches.push(search_from_request(request, self.ids, NOW));
        self.ids
    }

    fn state(&self, id: u128) -> &EnrichState {
        self.listings.iter().find(|s| s.listing.id == id).unwrap()
    }

    fn upsert(&mut self, listing: Listing) -> (Listing, UpsertOutcome) {
        let known = self.listings.iter().position(|s| {
            s.listing.source_id == listing.source_id
                && s.listing.canonical_url == listing.canonical_url
        });
        let existing = known.map(|i| self.listings[i].listing.clone());
        let (stored, outcome) = upsert_listing(existing, listing);
        match known {
            Some(i) => self.listings[i].listing = stored.clone(),
            None => self.listings.push(EnrichState {
                listing: stored.clone(),
                enriched_at: None,
                extracted_at: None,
            }),
        }
        if outcome.records_price() {
            let history = self.prices.entry(stored.id).or_default();
            record_price(history, "2026-07-22", stored.price_cents);
        }
        (stored, outcome)
    }

    fn add_images(&mut self, id: u128, urls: &Vec<String>) {
        let stored = self.images.entry(id).or_default();
        for (position, url) in add_image_urls(stored, urls) {
            stored.push(DbImage { position, url, local_path: None });
        }
    }

    fn enqueue(&mut self, id: u128, reason: &str) {
        let (item, again) = enqueue_enrichment(self.queue.remove(&id), reason, NOW);
        self.queue.insert(id, item);
        if again {
            let i = self.listings.iter().position(|s| s.listing.id == id).unwrap();
            self.listings[i].enriched_at = None;
        }
    }

    fn gone(&mut self, source_id: &str, seen: &Vec<String>) -> u64 {
        let active: Vec<(u128, String)> = self
            .listings
            .iter()
            .filter(|s| {
                s.listing.source_id == source_id && s.listing.status == ListingStatus::Active
            })
            .map(|s| (s.listing.id, s.listing.canonical_url.clone()))
            .collect();
        let gone = mark_gone(&active, seen);
        for id in &gone {
            let i = self.listings.iter().position(|s| s.listing.id == *id).unwrap();
            self.listings[i].listing.status = ListingStatus::Gone;
        }
        gone.len() as u64
    }

    fn moderate(&mut self, id: u128, moderation: Moderation) {
        let i = self.listings.iter().position(|s| s.listing.id == id).unwrap();
        self.listings[i].listing.moderation = moderation;
        if set_moderation(1, moderation).unwrap() {
            self.matches.retain(|(listing, _), _| *listing != id);
        }
    }

    fn listed(&self, hidden: bool) -> Vec<Listing> {
        self.listings
            .iter()
            .map(|s| s.listing.clone())
            .filter(|l| is_listed(l.moderation, hidden))
            .collect()
    }

    fn run(&mut self, listings: Vec<RawListing>) -> PipelineStats {
        let mut pipeline = Pipeline::new(self.searches.clone(), ScrapeConfig::default().renotify_drop_pct);
        for raw in listings {
            let numbers = RawNumbers {
                euros: match &raw.price {
                    Amount::Euros(t) => double(t.parse::<f64>().unwrap()),
                    Amount::Cents(_) => double(0.0),
                },
                surface_m2: raw.surface_m2.as_ref().and_then(|t| t.parse().ok()).map(double),
                land_m2: raw.land_m2.as_ref().and_then(|t| t.parse().ok()).map(double),
                lat: raw.lat.as_ref().and_then(|t| t.parse().ok()).map(double),
                lng: raw.lng.as_ref().and_then(|t| t.parse().ok()).map(double),
            };
            self.ids += 1;
            let Some(accepted) = pipeline.accept(raw, numbers, self.ids, NOW) else {
                continue;
            };
            let (stored, outcome) = self.upsert(accepted.listing);
            self.add_images(stored.id, &accepted.image_urls);
            let effects = pipeline.stored(outcome, &stored);
            if let Some(reason) = effects.enrich {
                self.enqueue(stored.id, reason);
            }
            for at in effects.matches {
                let key = (stored.id, pipeline.searches[at].id);
                let sighting = match self.matches.get(&key) {
                    None => Sighting::Fresh,
                    Some(None) => Sighting::Silent,
                    Some(Some(prev)) => Sighting::Pushed { price_cents: *prev },
                };
                self.matches.entry(key).or_insert(None);
                if let Some(push) = pipeline.matched(at, &stored, sighting) {
                    self.sent.push((push.title, push.message));
                    self.matches.insert(key, Some(stored.price_cents));
                }
            }
        }
        let seen = pipeline.seen_urls.clone();
        let gone = self.gone("leboncoin-immo", &seen);
        pipeline.finish(gone);
        pipeline.stats
    }
}

fn raw(url: &str, price: i64, title: &str) -> RawListing {
    RawListing {
        source_id: "leboncoin-immo".into(),
        url: url.into(),
        title: title.into(),
        price: Amount::Cents(price),
        property_type: PropertyType::House,
        surface_m2: Some("100".into()),
        rooms: Some(5),
        bedrooms: Some(3),
        land_m2: None,
        commune: Some("Bruz".into()),
        postal_code: Some("35170".into()),
        lat: None,
        lng: None,
        dpe: Some("c".into()),
        ges: None,
        sell_type: Some("old".into()),
        description: None,
        address: None,
        image_urls: vec![],
        seller: None,
    }
}

fn listing(id: u128, url: &str, price: i64) -> Listing {
    Listing {
        id,
        source_id: "src".into(),
        canonical_url: url.into(),
        title: "Maison 5 pièces Bruz".into(),
        price_cents: price,
        property_type: PropertyType::House,
        surface_m2: Some(double(110.0)),
        rooms: Some(5),
        bedrooms: Some(3),
        land_m2: None,
        commune: Some("Bruz".into()),
        postal_code: Some("35170".into()),
        lat: None,
        lng: None,
        dpe: Some("c".into()),
        ges: None,
        sell_type: Some("old".into()),
        description: None,
        address: None,
        seller: None,
        attributes: Default::default(),
        flags: vec![],
        status: ListingStatus::Active,
        moderation: Moderation::Unmoderated,
        first_seen: NOW,
        last_seen: NOW,
    }
}

fn any_search(name: &str) -> SearchRequest {
    SearchRequest {
        name: name.into(),
        locations: vec![],
        max_price_cents: None,
        min_surface_m2: None,
        min_rooms: None,
        property_types: vec![],
        active: true,
    }
}

fn setup() -> Memory {
    let mut db = Memory::default();
    db.add_search(SearchRequest {
        name: "maison bruz".into(),
        locations: vec!["Bruz 35170".into()],
        max_price_cents: Some(40_000_000),
        min_surface_m2: Some(double(80.0)),
        min_rooms: None,
        property_types: vec![PropertyType::House],
        active: true,
    });
    db
}

#[test]
fn new_match_notifies_with_m2_price() {
    let mut db = setup();
    let stats = db.run(vec![raw("https://x/1", 32_000_000, "Maison 5 pièces Bruz")]);
    assert_eq!(stats.new_listings, 1);
    assert_eq!(stats.notified, 1);
    assert!(db.sent[0].0.contains("320000 €"), "title: {}", db.sent[0].0);
    assert!(db.sent[0].1.contains("3200 €/m²"), "€/m² in the push: {}", db.sent[0].1);
    assert!(db.sent[0].1.contains("Bruz"));
    assert_eq!(db.sent[0].0, "maison bruz: 320000 €");
    assert_eq!(
        db.sent[0].1,
        "Maison 5 pièces Bruz\n100 m² · 3200 €/m² · Bruz\nhttps://x/1"
    );
}

#[test]
fn price_drop_renotifies_and_records_history() {
    let mut db = setup();
    db.run(vec![raw("https://x/1", 32_000_000, "Maison 5 pièces Bruz")]);
    let stats = db.run(vec![raw("https://x/1", 30_000_000, "Maison 5 pièces Bruz")]);
    assert_eq!(stats.notified, 1, "6% drop re-notifies");
    assert!(db.sent[1].0.contains("320000 € → 300000 €"), "{}", db.sent[1].0);
    assert!(db.sent[1].1.contains("Baisse de prix"));
}

#[test]
fn tiny_price_wiggle_stays_silent() {
    let mut db = setup();
    db.run(vec![raw("https://x/1", 32_000_000, "Maison 5 pièces Bruz")]);
    let stats = db.run(vec![raw("https://x/1", 31_900_000, "Maison 5 pièces Bruz")]);
    assert_eq!(stats.notified, 0);
    assert_eq!(db.sent.len(), 1);
}

#[test]
fn wanted_ads_match_silently() {
    let mut db = setup();
    let stats = db.run(vec![raw("https://x/1", 30_000_000, "Recherche maison Bruz")]);
    assert_eq!(stats.suppressed, 1);
    assert!(db.sent.is_empty());
    let stats = db.run(vec![raw("https://x/1", 10_000_000, "Recherche maison Bruz")]);
    assert_eq!((stats.suppressed, stats.notified), (0, 0), "silent for ever");
}

#[test]
fn new_and_price_change_enqueue_enrichment() {
    let mut db = setup();
    let mut r = raw("https://x/1", 32_000_000, "Maison 5 pièces Bruz");
    r.image_urls = vec!["https://cdn/a.jpg".into()];
    db.run(vec![r.clone()]);
    assert_eq!(db.queue.len(), 1, "new listing enqueued");
    let listings = db.listed(false);
    assert_eq!(db.images[&listings[0].id].len(), 1);

    db.queue.remove(&listings[0].id);
    db.run(vec![r.clone()]);
    assert_eq!(db.queue.len(), 0, "unchanged: not re-enqueued");

    r.price = Amount::Cents(30_000_000);
    db.run(vec![r]);
    assert_eq!(db.queue.len(), 1, "price change re-enqueued");
}

#[test]
fn unseen_listing_goes_gone_and_revives_silently() {
    let mut db = setup();
    db.run(vec![raw("https://x/1", 32_000_000, "Maison 5 pièces Bruz")]);
    let stats = db.run(vec![]);
    assert_eq!(stats.gone, 1);
    let stats = db.run(vec![raw("https://x/1", 32_000_000, "Maison 5 pièces Bruz")]);
    assert_eq!(stats.gone, 0);
    assert_eq!(stats.notified, 0, "revival is not a fresh match");
}

#[test]
fn listings_without_a_web_url_are_skipped() {
    let mut db = setup();
    let mut euros = raw("https://X.com/1?utm_source=a", 0, "  Maison \n Bruz ");
    euros.price = Amount::Euros("319999.995".into());
    let stats = db.run(vec![raw("nowhere", 1, "t"), euros]);
    assert_eq!((stats.skipped, stats.new_listings), (1, 1));
    let stored = &db.listings[0].listing;
    assert_eq!(stored.canonical_url, "https://x.com/1");
    assert_eq!(stored.title, "Maison Bruz");
    assert_eq!(stored.price_cents, 32_000_000);
    assert!(stored.flags.is_empty());
    assert_eq!((stored.first_seen, stored.last_seen), (NOW, NOW));
}

#[test]
fn messages_leave_out_what_is_unknown() {
    let mut l = listing(1, "https://x/1", -12_345);
    assert_eq!(describe(&l), "Maison 5 pièces Bruz\n110 m² · -1 €/m² · Bruz\nhttps://x/1");
    l.surface_m2 = Some(double(0.5));
    l.commune = None;
    assert_eq!(describe(&l), "Maison 5 pièces Bruz\n0 m²\nhttps://x/1");
    l.surface_m2 = None;
    assert_eq!(describe(&l), "Maison 5 pièces Bruz\nhttps://x/1");
    assert_eq!(format_price(-12_399), "-123 €");
    assert_eq!(format_price(-50), "0 €");
    assert_eq!(euros(i64::MIN), i64::MIN / 100);
}

#[test]
fn moderated_listings_match_nothing() {
    let mut db = setup();
    db.run(vec![raw("https://x/1", 32_000_000, "Maison 5 pièces Bruz")]);
    let id = db.listings[0].listing.id;
    db.moderate(id, Moderation::Banned);
    assert!(db.matches.is_empty());
    let stats = db.run(vec![raw("https://x/1", 10_000_000, "Maison 5 pièces Bruz")]);
    assert_eq!((stats.updated_listings, stats.notified), (1, 0));
    assert!(db.matches.is_empty());
    assert_eq!(set_moderation(0, Moderation::Banned), Err(StoreError::NotFound));
    assert_eq!(set_moderation(1, Moderation::Unmoderated), Ok(false));
}

#[test]
fn upsert_records_price_history_and_revives() {
    let mut db = Memory::default();
    let (l1, o1) = db.upsert(listing(1, "https://x/1", 30_000_000));
    assert_eq!(o1, UpsertOutcome::New);

    let (_, o2) = db.upsert(listing(2, "https://x/1", 30_000_000));
    assert_eq!(o2, UpsertOutcome::Unchanged);

    let (_, o3) = db.upsert(listing(3, "https://x/1", 29_000_000));
    assert_eq!(o3, UpsertOutcome::PriceChanged { old_price_cents: 30_000_000 });
    let prices = &db.prices[&l1.id];
    assert_eq!(prices.len(), 1, "one row per day, latest wins");
    assert_eq!(prices[0].price_cents, 29_000_000);

    assert_eq!(db.gone("src", &vec![]), 1);
    let (l4, _) = db.upsert(listing(4, "https://x/1", 29_000_000));
    assert_eq!(l4.status, ListingStatus::Active);
    assert_eq!(l4.id, 1, "the identity stays");
}

#[test]
fn histories_have_one_price_a_day() {
    let mut h = Vec::new();
    record_price(&mut h, "2026-07-21", 3);
    record_price(&mut h, "2026-07-22", 2);
    record_price(&mut h, "2026-07-22", 1);
    let point = |day: &str, price_cents| PricePoint { day: day.into(), price_cents };
    assert_eq!(h, vec![point("2026-07-21", 3), point("2026-07-22", 1)]);
}

#[test]
fn moderation_semantics_match_ferret() {
    let mut db = Memory::default();
    let (l, _) = db.upsert(listing(1, "https://x/1", 30_000_000));
    let s = db.add_search(any_search("s"));
    db.matches.insert((l.id, s), None);

    db.moderate(l.id, Moderation::Dismissed);
    assert!(db.listed(false).is_empty());
    assert_eq!(db.listed(true).len(), 1);
    assert!(db.matches.is_empty(), "matches dropped");

    db.gone("src", &vec![]);
    let (l2, _) = db.upsert(listing(2, "https://x/1", 30_000_000));
    assert_eq!(l2.moderation, Moderation::Unmoderated);
    db.moderate(l.id, Moderation::Banned);
    db.gone("src", &vec![]);
    let (l3, _) = db.upsert(listing(3, "https://x/1", 30_000_000));
    assert_eq!(l3.moderation, Moderation::Banned);
    db.moderate(l.id, Moderation::Dismissed);
    let (l4, _) = db.upsert(listing(4, "https://x/1", 30_000_000));
    assert_eq!(l4.moderation, Moderation::Dismissed, "never gone: the dismissal stays");
}

fn at(commune: &str, code: Option<&str>, price: i64, surface: f64) -> PricedRow {
    let mut l = listing(1, "https://x/1", 0);
    l.commune = Some(commune.to_string());
    l.postal_code = code.map(|c| c.to_string());
    l.surface_m2 = Some(double(surface));
    priced_then(&l, price).unwrap()
}

fn with_history(listing: Listing, points: &[(&str, i64)]) -> ListingWithHistory {
    let history = points
        .iter()
        .map(|(day, price_cents)| PricePoint { day: day.to_string(), price_cents: *price_cents })
        .collect();
    ListingWithHistory { listing, history, images: vec![] }
}

#[test]
fn commune_stats_median() {
    let mut db = Memory::default();
    db.upsert(listing(1, "https://x/1", 30_000_000));
    let mut l2 = listing(2, "https://x/2", 35_000_000);
    l2.surface_m2 = Some(double(100.0));
    db.upsert(l2);
    let mut l3 = listing(3, "https://x/3", 20_000_000);
    l3.surface_m2 = Some(double(50.0));
    db.upsert(l3);
    let items = db.listed(false).into_iter().map(|l| with_history(l, &[])).collect();
    let stats = commune_stats(&items, "2026-06-22");
    assert_eq!(stats.len(), 1);
    assert_eq!(stats[0].commune, "Bruz");
    assert_eq!(stats[0].listings, 3);
    assert_eq!(stats[0].median_m2_cents, Some(350_000));
    assert_eq!(stats[0].median_m2_cents_30d, None);
}

#[test]
fn only_live_listings_count_in_the_medians() {
    let sold = |id: u128, status: ListingStatus, moderation: Moderation, price: i64| {
        let mut l = listing(id, "https://x/1", price);
        l.surface_m2 = Some(double(100.0));
        l.status = status;
        l.moderation = moderation;
        with_history(l, &[("2026-06-12", price), ("2026-06-23", 1)])
    };
    let items = vec![
        sold(1, ListingStatus::Active, Moderation::Unmoderated, 20_000_000),
        sold(2, ListingStatus::Gone, Moderation::Unmoderated, 10_000_000),
        sold(3, ListingStatus::Active, Moderation::Banned, 10_000_000),
    ];
    let stats = commune_stats(&items, "2026-06-22");
    assert_eq!(stats.len(), 1);
    assert_eq!(stats[0].listings, 1);
    assert_eq!(stats[0].median_m2_cents, Some(200_000));
    assert_eq!(stats[0].median_m2_cents_30d, Some(200_000));
    let on_the_day = commune_stats(&items, "2026-06-12");
    assert_eq!(on_the_day[0].median_m2_cents_30d, Some(200_000));
    let before = commune_stats(&items, "2026-06-11");
    assert_eq!(before[0].median_m2_cents_30d, None);
}

#[test]
fn communes_come_by_size_then_name() {
    let rows = vec![
        at("Vern", Some("1"), 100, 1.0),
        at("Bruz", None, 200, 1.0),
        at("Acigné", Some("3"), 300, 1.0),
        at("Bruz", Some("x"), 400, 1.0),
        at("Éancé", None, 1, 1.0),
    ];
    let old = vec![at("Vern", None, 90, 1.0), at("Vern", None, 80, 1.0), at("Gone", None, 1, 1.0)];
    let stats = aggregate(&rows, &old);
    let names: Vec<&str> = stats.iter().map(|s| s.commune.as_str()).collect();
    assert_eq!(names, vec!["Bruz", "Acigné", "Vern", "Éancé"]);
    assert_eq!(stats[0].postal_code, None, "the first listing's");
    assert_eq!(stats[0].median_m2_cents, Some(200), "the lower median");
    assert_eq!(stats[2].median_m2_cents_30d, Some(80));
    let mut l = listing(1, "https://x/1", 1);
    l.status = ListingStatus::Gone;
    assert!(priced_now(&l).is_none());
    l.status = ListingStatus::Active;
    l.surface_m2 = Some(double(0.5));
    assert!(priced_then(&l, 1).is_none());
    l.surface_m2 = Some(double(2.0));
    assert!(priced_then(&l, 1).is_some());
    l.commune = None;
    assert!(priced_then(&l, 1).is_none());
    assert_eq!(median(&vec![5, 1, 9, 3, 3]), Some(3));
    assert_eq!(median(&vec![]), None);
}

#[test]
fn two_lists_hold_every_listing_once() {
    let seen = |id: u128, secs: i64, moderation: Moderation| {
        let mut l = listing(id, "https://x/1", 1);
        l.last_seen = Timestamp { secs, nanos: 5 };
        l.moderation = moderation;
        l
    };
    let mut late = seen(6, 10, Moderation::Unmoderated);
    late.last_seen.nanos = 6;
    let all = vec![
        seen(1, 10, Moderation::Unmoderated),
        seen(2, 30, Moderation::Banned),
        seen(3, 20, Moderation::Unmoderated),
        seen(4, 10, Moderation::Unmoderated),
        seen(5, 40, Moderation::Dismissed),
        late,
    ];
    let ids = |l: Vec<Listing>| -> Vec<u128> { l.into_iter().map(|l| l.id).collect() };
    assert_eq!(ids(store::list_listings(all.clone(), None, false)), vec![3, 6, 1, 4]);
    assert_eq!(ids(store::list_listings(all.clone(), None, true)), vec![5, 2]);
    let matched = vec![4, 5, 3];
    assert_eq!(ids(store::list_listings(all.clone(), Some(&matched), false)), vec![3, 4]);
    assert_eq!(ids(store::list_listings(all, Some(&matched), true)), vec![5]);
}

#[test]
fn photos_are_capped_per_listing() {
    let photo = |position: i64, saved: bool| DbImage {
        position,
        url: format!("https://cdn/{position}"),
        local_path: saved.then_some(format!("xx/{position}.jpg")),
    };
    let state = EnrichState {
        listing: listing(1, "https://x/1", 1),
        enriched_at: Some(NOW),
        extracted_at: None,
    };
    let wanted = |images: Vec<DbImage>, max: usize| -> Vec<i64> {
        match process_one(Stage::Detail, &state, &images, max, false, &None).0 {
            Step::FetchPhotos(list) => list.into_iter().map(|(position, _)| position).collect(),
            _ => vec![],
        }
    };
    assert_eq!(wanted(vec![photo(0, false), photo(1, false), photo(2, false)], 2), vec![0, 1]);
    assert_eq!(wanted(vec![photo(0, true), photo(1, false), photo(2, false)], 2), vec![1]);
    assert!(wanted(vec![photo(0, true), photo(1, true), photo(2, false)], 2).is_empty());
    assert!(wanted(vec![photo(0, true), photo(1, true), photo(2, false)], 1).is_empty());
}

#[test]
fn days_are_utc_days() {
    let t = Timestamp { secs: 1_784_764_799, nanos: 0 };
    assert_eq!(utc_day(t).as_deref(), Some("2026-07-22"));
    assert_eq!(trend_cutoff(t).as_deref(), Some("2026-06-22"));
    assert_eq!(utc_day(Timestamp { secs: i64::MAX, nanos: 0 }), None);
    assert_eq!(utc_day(Timestamp { secs: -1, nanos: 0 }).as_deref(), Some("1969-12-31"));
}

#[test]
fn upsert_keeps_enriched_description_and_updates_seller() {
    let mut db = Memory::default();
    let mut l = listing(1, "https://x/1", 30_000_000);
    l.description = Some("truncated body".into());
    l.seller = Some(Seller {
        kind: SellerKind::Pro,
        name: Some("Agence X".into()),
        siren: Some("123456789".into()),
    });
    let (stored, _) = db.upsert(l.clone());
    assert_eq!(stored.description.as_deref(), Some("truncated body"));

    let detail = ListingDetail {
        description: Some("the full, longer description".into()),
        ..Default::default()
    };
    let (state, changed) = set_detail(db.state(1).clone(), &detail, NOW);
    assert!(changed);
    db.listings[0] = state;

    let (again, _) = db.upsert(l.clone());
    assert_eq!(again.description.as_deref(), Some("the full, longer description"));
    assert_eq!(again.seller.as_ref().unwrap().name.as_deref(), Some("Agence X"));

    let mut l2 = l.clone();
    l2.seller = Some(Seller {
        kind: SellerKind::Private,
        name: Some("Jean".into()),
        siren: None,
    });
    db.upsert(l2);
    let stored_listings = db.listed(false);
    let stored = stored_listings.iter().find(|x| x.id == again.id).unwrap();
    let seller = stored.seller.as_ref().expect("seller present");
    assert_eq!(seller.kind, SellerKind::Private);
    assert_eq!(seller.name.as_deref(), Some("Jean"));
    assert_eq!(seller.siren, None, "stale pro siren must not survive a seller change");
}

#[test]
fn enrichment_queue_lifecycle() {
    let (item, again) = enqueue_enrichment(None, "new", NOW);
    assert_eq!((item.attempts, item.next_attempt_at, again), (0, NOW, false));
    assert_eq!(enrichment_failed(Some(0), 8), Retry::Later { attempts: 1, backoff_secs: 60 });
    assert_eq!(enrichment_failed(Some(4), 8), Retry::Later { attempts: 5, backoff_secs: 960 });
    assert_eq!(enrichment_failed(Some(30), 99), Retry::Later { attempts: 31, backoff_secs: 21_600 });
    assert_eq!(enrichment_failed(Some(7), 8), Retry::GiveUp);
    assert_eq!(enrichment_failed(None, 8), Retry::GiveUp);
    let waiting = QueueItem {
        reason: "new".into(),
        attempts: 3,
        next_attempt_at: LATER,
        last_error: Some("boom".into()),
    };
    let (item, again) = enqueue_enrichment(Some(waiting), "price-change", NOW);
    assert_eq!((item.attempts, item.next_attempt_at, again), (3, NOW, true));
    assert_eq!(item.last_error.as_deref(), Some("boom"));
}

#[test]
fn price_change_enqueue_clears_enriched_at() {
    let mut db = Memory::default();
    db.upsert(listing(1, "https://x/1", 30_000_000));
    db.listings[0] = set_detail(db.state(1).clone(), &ListingDetail::default(), NOW).0;
    assert!(db.state(1).enriched_at.is_some());
    db.enqueue(1, "price-change");
    assert!(db.state(1).enriched_at.is_none());
}

#[test]
fn detail_merge_images_and_extraction_state() {
    let mut db = Memory::default();
    db.upsert(listing(1, "https://x/1", 30_000_000));
    db.add_images(1, &vec!["https://cdn/a.jpg".into(), "https://cdn/b.jpg".into()]);
    db.add_images(1, &vec!["https://cdn/b.jpg".into(), "https://cdn/c.jpg".into()]);
    let pending = pending_images(&db.images[&1], 10);
    assert_eq!(
        pending,
        vec![
            (0, "https://cdn/a.jpg".to_string()),
            (1, "https://cdn/b.jpg".to_string()),
            (2, "https://cdn/c.jpg".to_string())
        ]
    );
    db.images.get_mut(&1).unwrap()[0].local_path = Some("xx/0.jpg".into());
    assert_eq!(pending_images(&db.images[&1], 10).len(), 2);
    assert_eq!(pending_images(&db.images[&1], 1), vec![(1, "https://cdn/b.jpg".to_string())]);

    let attrs = ExtractedAttrs { fibre: Some(true), ..Default::default() };
    let state = set_attributes(db.state(1).clone(), &attrs, NOW);
    assert!(state.extracted_at.is_some());
    let detail = ListingDetail { description: Some("desc v1".into()), ..Default::default() };
    let (state, changed) = set_detail(state, &detail, NOW);
    assert!(changed);
    assert!(state.extracted_at.is_none(), "new description re-triggers extraction");
    assert_eq!(state.listing.attributes.fibre, Some(true), "old attrs kept meanwhile");
    let state = set_attributes(state, &attrs, NOW);
    let (state, changed) = set_detail(state, &detail, LATER);
    assert!(!changed, "same description: no change");
    assert!(state.extracted_at.is_some());
    assert_eq!(state.enriched_at, Some(LATER));
}

#[test]
fn details_never_clear_and_structure_wins() {
    let mut l = listing(1, "https://x/1", 1);
    l.address = Some("rue A".into());
    l.seller = Some(Seller { kind: SellerKind::Pro, name: Some("A".into()), siren: Some("1".into()) });
    l.attributes.orientation = Some("nord".into());
    l.attributes.fibre = Some(true);
    let state = EnrichState { listing: l, enriched_at: None, extracted_at: Some(NOW) };
    let detail = ListingDetail {
        seller: Some(Seller { kind: SellerKind::Private, name: None, siren: Some("2".into()) }),
        attributes: ExtractedAttrs { orientation: Some("sud".into()), ..Default::default() },
        ..Default::default()
    };
    let (state, changed) = set_detail(state, &detail, LATER);
    assert!(!changed);
    assert_eq!(state.extracted_at, Some(NOW));
    assert_eq!(state.listing.address.as_deref(), Some("rue A"));
    let seller = state.listing.seller.as_ref().unwrap();
    assert_eq!((seller.kind, seller.name.as_deref(), seller.siren.as_deref()),
        (SellerKind::Private, Some("A"), Some("2")));
    assert_eq!(state.listing.attributes.orientation.as_deref(), Some("sud"));
    assert_eq!(state.listing.attributes.fibre, Some(true));
    let read = ExtractedAttrs {
        orientation: Some("est".into()),
        jardin: Some(true),
        ..Default::default()
    };
    let state = set_attributes(state, &read, LATER);
    assert_eq!(state.listing.attributes.orientation.as_deref(), Some("sud"), "structure wins");
    assert_eq!(state.listing.attributes.jardin, Some(true));
}

#[test]
fn repeated_photos_take_a_position_but_no_row() {
    let urls = |list: &[&str]| list.iter().map(|s| s.to_string()).collect::<Vec<_>>();
    let stored = vec![DbImage { position: 4, url: "a".into(), local_path: None }];
    assert_eq!(
        add_image_urls(&stored, &urls(&["b", "a", "b", "c"])),
        vec![(5, "b".to_string()), (7, "c".to_string())]
    );
    assert!(add_image_urls(&stored, &urls(&["a", "a"])).is_empty());
    assert_eq!(add_image_urls(&vec![], &urls(&["z"])), vec![(0, "z".to_string())]);
}

/// Runs the enrichment of a listing against a source and an extractor.
fn enrich(
    db: &mut Memory,
    id: u128,
    detail: Result<Option<ListingDetail>, String>,
    llm: Option<&dyn Fn(&str) -> ExtractedAttrs>,
) -> Result<Vec<String>, String> {
    let mut files = Vec::new();
    let mut stage = Stage::Detail;
    loop {
        let state = db.state(id).clone();
        let images = db.images.entry(id).or_default().clone();
        let surface = Some("110.0".to_string());
        let (step, next) = process_one(stage, &state, &images, 10, llm.is_some(), &surface);
        stage = next;
        match step {
            Step::FetchDetail(url) => {
                assert_eq!(url, state.listing.canonical_url);
                let found = detail_or_nothing(detail.clone()?);
                let at = db.listings.iter().position(|s| s.listing.id == id).unwrap();
                db.listings[at] = set_detail(state, &found, NOW).0;
                db.add_images(id, &found.image_urls);
            }
            Step::FetchPhotos(photos) => {
                for (position, url) in photos {
                    let file = image_file(position, &url);
                    let path = local_path(id, &file);
                    let stored = db.images.get_mut(&id).unwrap();
                    stored.iter_mut().find(|i| i.position == position).unwrap().local_path =
                        Some(path.clone());
                    files.push(path);
                }
            }
            Step::Extract(input) => {
                let found = (llm.unwrap())(&input.description);
                assert_eq!(input.property_type, "maison");
                let at = db.listings.iter().position(|s| s.listing.id == id).unwrap();
                db.listings[at] = set_attributes(state, &found, NOW);
            }
            Step::Finish => {
                db.queue.remove(&id);
                return Ok(files);
            }
        }
    }
}

fn enrich_setup() -> Memory {
    let mut db = Memory::default();
    db.upsert(listing(1, "https://x/1", 30_000_000));
    db.enqueue(1, "new");
    db
}

#[test]
fn full_enrichment_detail_images_extraction() {
    let mut db = enrich_setup();
    let detail = ListingDetail {
        description: Some("the full description".into()),
        image_urls: vec!["https://cdn/a.jpg".into(), "https://cdn/b.webp?rule=x".into()],
        ..Default::default()
    };
    let calls = std::cell::Cell::new(0);
    let llm = |description: &str| {
        calls.set(calls.get() + 1);
        assert!(description.contains("full description"));
        ExtractedAttrs { fibre: Some(true), ..Default::default() }
    };
    let files = enrich(&mut db, 1, Ok(Some(detail.clone())), Some(&llm)).unwrap();

    let st = db.state(1);
    assert!(st.enriched_at.is_some() && st.extracted_at.is_some());
    assert_eq!(st.listing.description.as_deref(), Some("the full description"));
    assert_eq!(st.listing.attributes.fibre, Some(true));
    assert_eq!(calls.get(), 1);
    assert!(pending_images(&db.images[&1], 10).is_empty());
    let dir = id_column(1);
    let expected = vec![format!("{dir}/0.jpg"), format!("{dir}/1.webp")];
    assert_eq!(files, expected, "query string stripped");
    assert_eq!(db.queue.len(), 0, "dequeued");

    let again = enrich(&mut db, 1, Err("not asked".into()), Some(&llm)).unwrap();
    assert!(again.is_empty());
    assert_eq!(calls.get(), 1, "nothing is done twice");
}

#[test]
fn no_detail_support_and_no_llm_still_completes() {
    let mut db = enrich_setup();
    enrich(&mut db, 1, Ok(None), None).unwrap();
    let st = db.state(1);
    assert!(st.enriched_at.is_some(), "marked enriched even without detail");
    assert!(st.extracted_at.is_none(), "no llm: no extraction claim");
    assert_eq!(db.queue.len(), 0);
}

#[test]
fn detail_failure_propagates_for_retry() {
    let mut db = enrich_setup();
    let err = enrich(&mut db, 1, Err("blocked".into()), None).unwrap_err();
    assert!(err.contains("blocked"));
    assert_eq!(db.queue.len(), 1, "stays queued for retry");
}

#[test]
fn listings_come_with_inline_history() {
    let mut db = Memory::default();
    let (l, _) = db.upsert(listing(7, "https://x/1", 30_000_000));
    let rows = db.prices[&l.id].iter().map(|p| (l.id, p.clone())).collect();
    let out = list_listings(db.listed(false), group_by_listing(rows), HashMap::new());
    assert_eq!(out.len(), 1);
    assert_eq!(out[0].listing.commune.as_deref(), Some("Bruz"));
    assert_eq!(out[0].history.len(), 1, "history rides along");
    assert!(out[0].images.is_empty());
}

#[test]
fn listings_carry_images_with_local_urls() {
    let mut db = Memory::default();
    let (l, _) = db.upsert(listing(7, "https://x/1", 30_000_000));
    db.add_images(l.id, &vec!["https://cdn/a.jpg".into(), "https://cdn/b.jpg".into()]);
    db.images.get_mut(&l.id).unwrap()[0].local_path = Some("the-id/0.jpg".into());
    let mut images = HashMap::new();
    images.insert(l.id, db.images[&l.id].clone());
    let out = list_listings(db.listed(false), HashMap::new(), images);
    assert_eq!(out[0].images.len(), 2);
    assert_eq!(out[0].images[0].url, "/images/the-id/0.jpg");
    assert_eq!(out[0].images[1].url, "https://cdn/b.jpg", "not yet local: CDN url");
    assert_eq!(out[0].images[1].position, 1);
}

#[test]
fn rows_are_grouped_in_order() {
    let groups = group_by_listing(vec![(1, 'a'), (2, 'b'), (1, 'c')]);
    assert_eq!(groups.len(), 2);
    assert_eq!(groups[&1], vec!['a', 'c']);
    assert_eq!(groups[&2], vec!['b']);
}

#[test]
fn new_searches_match_at_once() {
    let mut other = listing(2, "https://x/2", 50_000_000);
    other.status = ListingStatus::Gone;
    let listings = vec![listing(1, "https://x/1", 30_000_000), other, listing(3, "https://x/3", 1)];
    let search = search_from_request(any_search("s"), 9, NOW);
    assert_eq!(search.created_at, NOW);
    assert_eq!(retro_match(&search, &listings), vec![0, 2]);
    let push = create_search("Bruz", 2);
    assert_eq!(push.title, "terrier: recherche « Bruz » créée");
    assert_eq!(push.message, "2 annonce(s) existante(s) correspondent déjà.");
    assert_eq!(push.tags, "mag");
    assert_eq!(
        create_search("Bruz", 0).message,
        "Aucune annonce existante ne correspond — les sources vont chercher."
    );
    assert_eq!(error_status(&StoreError::NotFound), 404);
    assert_eq!(error_status(&StoreError::Corrupt("x".into())), 500);
    assert_eq!(StoreError::NotFound.message(), "not found");
    assert_eq!(StoreError::Corrupt("x".into()).message(), "invalid stored data: x");
    let sources = vec![SourceStatus::idle("b", 1), SourceStatus::idle("a", 1)];
    assert_eq!(sorted_sources(sources)[0].source_id, "a");
}

#[test]
fn locations_are_pooled_once() {
    let mut a = search_from_request(any_search("a"), 1, NOW);
    a.locations = vec![" Bruz 35170 ".into(), "".into(), "Rennes".into()];
    let mut b = a.clone();
    b.locations = vec!["RENNES".into(), "bruz 35170".into(), "Vern".into()];
    let mut paused = a.clone();
    paused.active = false;
    paused.locations = vec!["Nantes".into()];
    let all = vec![paused, a, b];
    assert_eq!(refresh_search_locations(&all, 20), vec!["Bruz 35170", "Rennes", "Vern"]);
    assert_eq!(refresh_search_locations(&all, 2), vec!["Bruz 35170", "Rennes"]);
    assert!(refresh_search_locations(&vec![], 2).is_empty());
}

fn row() -> ListingRow {
    ListingRow {
        id: "00000000-0000-0000-0000-0000000000ff".into(),
        source_id: "src".into(),
        canonical_url: "https://x/1".into(),
        title: "t".into(),
        price_cents: 5,
        property_type: "land".into(),
        surface_m2: None,
        rooms: None,
        bedrooms: None,
        land_m2: Some(double(2.5)),
        commune: None,
        postal_code: None,
        lat: None,
        lng: None,
        dpe: None,
        ges: None,
        sell_type: None,
        description: None,
        address: None,
        seller: seller_cols(&Some(Seller { kind: SellerKind::Pro, name: None, siren: Some("1".into()) })),
        attributes: Ok(ExtractedAttrs::default()),
        flags: Ok(vec![Flag::WantedAd]),
        status: "gone".into(),
        moderation: "banned".into(),
        first_seen: "1970-01-01T01:00:00.5+01:00".into(),
        last_seen: "2026-07-22T00:00:00Z".into(),
    }
}

#[test]
fn rows_become_listings() {
    let l = row_to_listing(row()).unwrap();
    assert_eq!(l.id, 255);
    assert_eq!(l.property_type, PropertyType::Land);
    assert_eq!((l.status, l.moderation), (ListingStatus::Gone, Moderation::Banned));
    assert_eq!(l.first_seen, Timestamp { secs: 0, nanos: 500_000_000 });
    assert_eq!(l.last_seen.secs, 1_784_678_400);
    assert_eq!(l.seller.unwrap().siren.as_deref(), Some("1"));
    assert_eq!(l.flags, vec![Flag::WantedAd]);
    let message = |r: ListingRow| row_to_listing(r).unwrap_err().message();
    assert_eq!(
        message(ListingRow { flags: Err("nope".into()), ..row() }),
        "invalid stored data: bad flags: nope"
    );
    let bad = message(ListingRow { id: "a\"b".into(), ..row() });
    assert!(bad.starts_with("invalid stored data: bad uuid \"a\\\"b\": "), "{bad}");
    assert_eq!(
        message(ListingRow { attributes: Err("nope".into()), ..row() }),
        "invalid stored data: bad attributes: nope"
    );
    let bad = message(ListingRow { first_seen: "yesterday".into(), ..row() });
    assert!(bad.starts_with("invalid stored data: bad timestamp \"yesterday\": "), "{bad}");
    assert!(row_to_listing(ListingRow { last_seen: "".into(), ..row() }).is_err());
    assert_eq!(parse_uuid("00000000000000000000000000000010"), Ok(16));
    assert!(parse_ts("2026-07-22").is_err());
}

#[test]
fn rows_become_searches() {
    let row = || SearchRow {
        id: "00000000-0000-0000-0000-000000000001".into(),
        name: "s".into(),
        locations: r#"["Bruz", "Saint-Aubin \u00e9"]"#.into(),
        max_price_cents: Some(1),
        min_surface_m2: None,
        min_rooms: None,
        property_types: Ok(vec![]),
        active: true,
        created_at: "2026-07-22T00:00:00Z".into(),
    };
    let s = row_to_search(row()).unwrap();
    assert_eq!((s.id, s.name.as_str(), s.active), (1, "s", true));
    assert_eq!(s.locations, vec!["Bruz", "Saint-Aubin é"]);
    let message = |r: SearchRow| row_to_search(r).unwrap_err().message();
    for bad in ["", "{}", "[1]", "[\"a\""] {
        let why = message(SearchRow { locations: bad.into(), ..row() });
        assert!(why.starts_with("invalid stored data: bad locations: "), "{why}");
    }
    assert_eq!(
        message(SearchRow { property_types: Err("x".into()), ..row() }),
        "invalid stored data: bad property_types: x"
    );
    assert!(row_to_search(SearchRow { id: "".into(), ..row() }).is_err());
    assert!(row_to_search(SearchRow { created_at: "".into(), ..row() }).is_err());
}

#[test]
fn columns_read_back() {
    for t in [PropertyType::House, PropertyType::Apartment, PropertyType::Land, PropertyType::Other] {
        assert_eq!(property_type_from(property_type_str(t)), t);
    }
    assert_eq!(property_type_from("castle"), PropertyType::Other);
    for m in [Moderation::Unmoderated, Moderation::Dismissed, Moderation::Banned] {
        assert_eq!(moderation_from(moderation_str(m)), m);
    }
    assert_eq!(moderation_str(Moderation::Unmoderated), "none");
    for s in [ListingStatus::Active, ListingStatus::Gone] {
        assert_eq!(status_from(status_str(s)), s);
    }
    for seller in [
        None,
        Some(Seller { kind: SellerKind::Private, name: Some("J".into()), siren: None }),
    ] {
        assert_eq!(seller_of(seller_cols(&seller)), seller);
    }
    let mut unknown = seller_cols(&None);
    unknown.name = Some("J".into());
    unknown.kind = Some("robot".into());
    assert_eq!(seller_of(unknown), None);
}

#[test]
fn unchanged_prices_are_pushed_once() {
    let mut l = listing(1, "https://x/1", 32_000_000);
    for pct in [1.0, 5.0, 1e-13, 100.0, 250.0, f64::INFINITY, f64::NAN] {
        for price in [1, 99, 32_000_000, 9_007_199_254_740_992, i64::MAX] {
            l.price_cents = price;
            let seen = Sighting::Pushed { price_cents: price };
            assert_eq!(judge(&l, seen, double(pct)), Verdict::Nothing, "{price} less {pct}%");
        }
    }
    // what cannot be told from nothing is nothing, and a free listing is always cheap enough
    l.price_cents = 100;
    let seen = Sighting::Pushed { price_cents: 100 };
    assert_eq!(judge(&l, seen, double(1e-15)), Verdict::PushDrop { previous: 100 });
    l.price_cents = 0;
    let seen = Sighting::Pushed { price_cents: 0 };
    assert_eq!(judge(&l, seen, double(5.0)), Verdict::PushDrop { previous: 0 });
}

#[test]
fn every_listing_is_counted_once() {
    let mut db = setup();
    let house = |n: i64| raw(&format!("https://x/{n}"), 30_000_000 + n, "Maison 5 pièces Bruz");
    let stats = db.run(vec![house(1), house(2), raw("nowhere", 1, "t"), house(2)]);
    assert_eq!((stats.new_listings, stats.updated_listings, stats.skipped), (2, 1, 1));
    let stats = db.run(vec![house(2), house(3)]);
    assert_eq!((stats.new_listings, stats.updated_listings, stats.skipped), (1, 1, 0));
    assert_eq!((stats.notified, stats.gone), (1, 1));
}

#[test]
fn histories_end_with_the_price() {
    let mut db = Memory::default();
    for price in [30, 30, 29, 31, 31] {
        let (stored, _) = db.upsert(listing(1, "https://x/1", price));
        assert_eq!(db.prices[&stored.id].last().unwrap().price_cents, stored.price_cents);
    }
    assert_eq!(db.prices[&1].len(), 1, "one observation a day");
}

#[test]
fn searches_read_back_from_their_rows() {
    let search = search_from_request(
        SearchRequest {
            name: "maison".into(),
            locations: vec!["Bruz 35170".into(), "a \"b\" \\ \n é \u{1}".into(), "".into()],
            max_price_cents: Some(35_000_000),
            min_surface_m2: Some(double(90.5)),
            min_rooms: None,
            property_types: vec![PropertyType::Land, PropertyType::House],
            active: false,
        },
        0x0123_4567_89ab_cdef_0011_2233_4455_66ff,
        Timestamp { secs: 1_784_764_799, nanos: 120_000_000 },
    );
    let row = search_to_row(&search).unwrap();
    assert_eq!(row.id, "01234567-89ab-cdef-0011-2233445566ff");
    assert_eq!(row.created_at, "2026-07-22T23:59:59.120+00:00");
    assert_eq!(row_to_search(row).unwrap(), search);
    assert_eq!(locations_column(&vec!["a".into(), "é\"".into()]), "[\"a\",\"é\\\"\"]");
    assert_eq!(locations_column(&vec![]), "[]");
}

#[test]
fn ids_and_times_read_back() {
    for id in [0, 1, u128::MAX, 1 << 127, 0xf00d] {
        assert_eq!(parse_uuid(&id_column(id)).unwrap(), id);
    }
    assert_eq!(id_column(0xf00d), "00000000-0000-0000-0000-00000000f00d");
    for (secs, nanos) in [(0, 0), (1, 1), (1_784_764_799, 999_999_999), (253_402_300_799, 1_000)] {
        let t = Timestamp { secs, nanos };
        assert_eq!(parse_ts(&time_column(t).unwrap()).unwrap(), t);
    }
    assert_eq!(time_column(Timestamp { secs: i64::MAX, nanos: 0 }), None);
    assert_eq!(time_column(Timestamp { secs: 0, nanos: 2_000_000_000 }), None);
    let late = time_column(Timestamp { secs: 253_402_300_800, nanos: 0 }).unwrap();
    assert_eq!(late, "+10000-01-01T00:00:00+00:00");
    assert!(parse_ts(&late).is_err(), "years have four digits");
}
