use std::collections::HashMap;

use terrier::client::{
    check_status, listings_path, moderation_path, search_path, ClientError, TerrierClient,
};
use terrier::double::Double;
use terrier::listing::{
    Flag, Listing, ListingStatus, ListingWithHistory, Moderation, PricePoint, PropertyType,
    Timestamp,
};
use terrier::llm::LlmSettings;
use terrier::search::Search;
use terrier::status::{CommuneStat, SourceStatus, StatusResponse, TickStats};
use terrier::ui::communes::{commune_row, has_fitting_trend};
use terrier::ui::listings::{
    drop_pct_milli, empty_text, has_fitting_move, has_move_in_range, listing_card, sort_from,
    sort_key, sorted, Sort,
};
use terrier::ui::searches::{
    all_types, has_fitting_price, match_count, match_label, pause_label, save_label, search_row,
    toggled, SearchForm,
};
use terrier::ui::sparkline::{
    has_fitting_history, has_fitting_span, polyline_points, sparkline,
};
use terrier::ui::settings::{failure_feedback, models_feedback, SettingsForm};
use terrier::ui::status::{ago, is_failing, minutes_since, source_label};
use terrier::ui::{
    format_price, resolve, save_server, server_line, unreachable_text, ServerChoice, Tab,
};

const EPOCH: Timestamp = Timestamp { secs: 0, nanos: 0 };

fn double(x: f64) -> Double {
    Double { bits: x.to_bits() }
}

fn item(price: i64, history: &[i64]) -> ListingWithHistory {
    ListingWithHistory {
        listing: Listing {
            id: 1,
            source_id: "leboncoin-immo".into(),
            canonical_url: "https://x/1".into(),
            title: "Maison".into(),
            price_cents: price,
            property_type: PropertyType::House,
            surface_m2: Some(double(100.0)),
            rooms: Some(5),
            bedrooms: None,
            land_m2: Some(double(400.0)),
            commune: Some("Bruz".into()),
            postal_code: Some("35170".into()),
            lat: None,
            lng: None,
            dpe: Some("c".into()),
            ges: None,
            sell_type: None,
            description: None,
            address: None,
            seller: None,
            attributes: Default::default(),
            flags: vec![],
            status: ListingStatus::Active,
            moderation: Moderation::Unmoderated,
            first_seen: EPOCH,
            last_seen: EPOCH,
        },
        history: history
            .iter()
            .enumerate()
            .map(|(i, p)| PricePoint { day: format!("2026-07-{:02}", i + 1), price_cents: *p })
            .collect(),
        images: vec![],
    }
}

#[test]
fn price_formatting_groups_thousands() {
    assert_eq!(format_price(32_000_000), "320\u{202f}000 €");
    assert_eq!(format_price(128_500_000), "1\u{202f}285\u{202f}000 €");
    assert_eq!(format_price(99_900), "999 €");
    assert_eq!(format_price(0), "0 €");
    assert_eq!(format_price(-123_456_789), "-1\u{202f}234\u{202f}567 €");
    assert_eq!(format_price(-99), "0 €");
}

#[test]
fn price_moves_in_thousandths() {
    assert_eq!(drop_pct_milli(&item(30_000_000, &[32_000_000, 30_000_000])), -62);
    assert_eq!(drop_pct_milli(&item(33_000_000, &[32_000_000])), 31);
    assert_eq!(drop_pct_milli(&item(1, &[])), i64::MAX, "missing history sorts last");
    assert_eq!(drop_pct_milli(&item(1, &[0])), i64::MAX);
    assert!(has_fitting_move(&item(30_000_000, &[32_000_000])));
    assert!(!has_fitting_move(&item(i64::MAX, &[1])));
}

#[test]
fn listings_are_put_in_order() {
    assert_eq!(sort_from("drop"), Sort::BiggestDrop);
    assert_eq!(sort_from("m2"), Sort::PricePerM2);
    assert_eq!(sort_from("price"), Sort::Price);
    assert_eq!(sort_from("?"), Sort::Recent);
    let order = |sort: Sort, list: &[ListingWithHistory]| -> Vec<usize> {
        let keyed = list.iter().enumerate().map(|(i, l)| (sort_key(l, sort), i));
        sorted(keyed.collect()).into_iter().map(|(_, i)| i).collect()
    };
    let mut bare = item(5_000, &[]);
    bare.listing.surface_m2 = None;
    let list = [item(9_000, &[10_000]), item(3_000, &[3_000]), bare, item(3_000, &[6_000])];
    assert_eq!(order(Sort::Recent, &list), vec![0, 1, 2, 3]);
    assert_eq!(order(Sort::Price, &list), vec![1, 3, 2, 0], "equal prices stay in order");
    assert_eq!(order(Sort::BiggestDrop, &list), vec![3, 0, 1, 2]);
    assert_eq!(order(Sort::PricePerM2, &list), vec![1, 3, 0, 2]);
}

#[test]
fn cards_state_the_facts() {
    let mut it = item(30_000_000, &[32_000_000, 30_000_000]);
    let card = listing_card(&it);
    assert_eq!(card.price, "300\u{202f}000 €");
    assert_eq!(card.m2.as_deref(), Some("3000 €/m²"));
    assert_eq!(card.facts, "maison · 100 m² · 5 p. · terrain 400 m² · Bruz (35170) · leboncoin-immo");
    let badges: Vec<(&str, &str)> =
        card.badges.iter().map(|b| (b.class.as_str(), b.text.as_str())).collect();
    assert_eq!(
        badges,
        vec![("badge dpe dpe-c", "DPE C"), ("badge ok", "-6.2% depuis publication")]
    );
    assert_eq!(card.sparkline.unwrap().line.unwrap(), "5.0,5.0 215.0,43.0");
    assert!(!card.gone);
    assert!(card.can_dismiss && card.can_ban && !card.can_restore);

    it.listing.status = ListingStatus::Gone;
    it.listing.moderation = Moderation::Dismissed;
    it.listing.flags = vec![Flag::WantedAd];
    it.listing.dpe = None;
    it.listing.price_cents = 33_000_000;
    it.listing.postal_code = None;
    it.listing.surface_m2 = None;
    it.history.truncate(1);
    let card = listing_card(&it);
    let badges: Vec<(&str, &str)> =
        card.badges.iter().map(|b| (b.class.as_str(), b.text.as_str())).collect();
    assert_eq!(
        badges,
        vec![
            ("badge warn", "+3.1% depuis publication"),
            ("badge muted", "recherche (pas une offre)"),
            ("badge muted", "masquée"),
            ("badge muted", "disparue"),
        ]
    );
    assert_eq!(card.facts, "maison · 5 p. · terrain 400 m² · Bruz · leboncoin-immo");
    let spark = card.sparkline.unwrap();
    assert!(spark.line.is_none(), "one observation is a dot");
    assert_eq!((spark.x.as_str(), spark.y.as_str()), ("5.0", "24.0"));
    assert!(card.m2.is_none() && card.gone);
    assert!(listing_card(&item(1, &[])).sparkline.is_none());
    assert!(!card.can_dismiss && card.can_ban && card.can_restore);
    assert_eq!(empty_text(true), "Rien de masqué ni banni.");
    assert!(empty_text(false).starts_with("Aucune annonce"));
    assert!(has_move_in_range(&it) && has_move_in_range(&item(1, &[])));
    assert!(!has_move_in_range(&item(i64::MIN, &[1])));
    assert!(has_move_in_range(&item(i64::MIN + 1, &[1])));
}

fn search() -> Search {
    Search {
        id: 7,
        name: "maison bruz".into(),
        locations: vec!["Bruz 35170".into(), "Rennes".into()],
        max_price_cents: Some(35_000_000),
        min_surface_m2: Some(double(90.0)),
        min_rooms: Some(4),
        property_types: vec![PropertyType::House, PropertyType::Land],
        active: true,
        created_at: EPOCH,
    }
}

#[test]
fn forms_make_requests() {
    let mut form = SearchForm::default();
    assert_eq!(form.save(None), Err("il faut un nom"));
    form.name = "  maison  ".into();
    form.locations = " , ,".into();
    assert_eq!(form.save(None), Err("au moins une commune ou un code postal"));
    form.locations = " Bruz 35170 ,, Rennes".into();
    form.max_price = " 350 000\u{202f} ".into();
    form.min_rooms = " 4 ".into();
    form.toggle_type(PropertyType::House, true);
    form.toggle_type(PropertyType::House, true);
    form.toggle_type(PropertyType::Land, true);
    let request = form.save(Some(double(90.0))).unwrap();
    assert_eq!(request.name, "maison");
    assert_eq!(request.locations, vec!["Bruz 35170", "Rennes"]);
    assert_eq!(request.max_price_cents, Some(35_000_000));
    assert_eq!(request.min_rooms, Some(4));
    assert_eq!(request.property_types, vec![PropertyType::House, PropertyType::Land]);
    assert!(request.active);
    form.toggle_type(PropertyType::House, false);
    assert_eq!(form.types, vec![PropertyType::Land]);
    form.max_price = "beaucoup".into();
    assert_eq!(form.save(None).unwrap().max_price_cents, None);
    assert!(has_fitting_price("350 000") && !has_fitting_price("99999999999999999"));
    assert_eq!(all_types().len(), 3);
    assert_eq!(save_label(true, true), "Enregistrement…");
    assert_eq!(save_label(false, true), "Mettre à jour");
    assert_eq!(save_label(false, false), "Créer la recherche");
}

#[test]
fn editing_a_search_keeps_it() {
    let s = search();
    let form = SearchForm::load(&s);
    assert_eq!(form.editing, Some(7));
    assert_eq!(form.locations, "Bruz 35170, Rennes");
    assert_eq!((form.max_price.as_str(), form.min_surface.as_str(), form.min_rooms.as_str()), ("350000", "90", "4"));
    let request = form.save(s.min_surface_m2).unwrap();
    assert_eq!(request.name, s.name);
    assert_eq!(request.locations, s.locations);
    assert_eq!(request.max_price_cents, s.max_price_cents);
    assert_eq!(request.min_rooms, s.min_rooms);
    assert_eq!(request.property_types, s.property_types);
}

#[test]
fn rows_state_the_criteria() {
    let mut s = search();
    assert_eq!(
        search_row(&s),
        "Bruz 35170, Rennes · ≤ 350\u{202f}000 € · ≥ 90 m² · ≥ 4 pièces · maison/terrain"
    );
    let request = toggled(&s);
    assert!(!request.active);
    assert_eq!(request.locations, s.locations);
    s.max_price_cents = None;
    s.min_surface_m2 = None;
    s.min_rooms = None;
    s.property_types = vec![];
    assert_eq!(search_row(&s), "Bruz 35170, Rennes");
    let mut matches = HashMap::new();
    matches.insert(7u128, 3i64);
    let status = StatusResponse {
        sources: vec![],
        search_matches: matches,
        enrichment_pending: 0,
        llm: None,
    };
    assert_eq!(match_count(Some(&status), 7), 3);
    assert_eq!(match_count(Some(&status), 8), 0);
    assert_eq!(match_count(None, 7), 0);
    assert_eq!(match_label(3), "3 annonces");
    assert_eq!((pause_label(true), pause_label(false)), ("pause", "reprendre"));
}

#[test]
fn sources_say_when_they_ran() {
    assert_eq!(ago(None), "waiting for first pass");
    assert_eq!(ago(Some(-3)), "just now");
    assert_eq!(ago(Some(0)), "just now");
    assert_eq!(ago(Some(59)), "59 min ago");
    assert_eq!(ago(Some(60)), "1h00 ago");
    assert_eq!(ago(Some(605)), "10h05 ago");
    assert_eq!(ago(Some(119)), "1h59 ago");
    let at = |secs: i64, nanos: u32| Timestamp { secs, nanos };
    assert_eq!(minutes_since(None, at(0, 0)), None);
    assert_eq!(minutes_since(Some(at(1_000, 5)), at(1_120, 4)), Some(1));
    assert_eq!(minutes_since(Some(at(1_000, 5)), at(1_120, 5)), Some(2));
    assert_eq!(minutes_since(Some(at(1_120, 4)), at(1_000, 5)), Some(-1));
    assert_eq!(minutes_since(Some(at(i64::MAX, 0)), at(0, 0)), None);
    let mut s = SourceStatus::idle("src", 60);
    assert_eq!(source_label(&s, None), "src · every 60 min, waiting for first pass");
    s.last_stats = Some(TickStats { fetched: 12, ..Default::default() });
    assert_eq!(source_label(&s, Some(5)), "src ✓ 12 annonces, 5 min ago");
    assert!(!is_failing(&s));
    s.last_error = Some("boom".into());
    assert_eq!(source_label(&s, Some(5)), "src ✗ failing, 5 min ago");
    assert!(is_failing(&s));
}

#[test]
fn communes_show_their_trend() {
    let mut s = CommuneStat {
        commune: "Bruz".into(),
        postal_code: Some("35170".into()),
        listings: 3,
        median_m2_cents: Some(350_000),
        median_m2_cents_30d: None,
    };
    let row = commune_row(&s);
    assert_eq!((row.name.as_str(), row.now.as_str(), row.before.as_str()), ("Bruz (35170)", "3500 €", "—"));
    assert_eq!((row.trend_class, row.trend.as_str()), ("muted", "—"));
    s.median_m2_cents_30d = Some(360_000);
    let row = commune_row(&s);
    assert_eq!((row.trend_class, row.trend.as_str()), ("ok", "-2.8%"));
    s.median_m2_cents_30d = Some(340_000);
    let row = commune_row(&s);
    assert_eq!((row.trend_class, row.trend.as_str()), ("warn", "+2.9%"));
    s.median_m2_cents_30d = Some(350_000);
    assert_eq!(commune_row(&s).trend, "+0.0%");
    assert!(has_fitting_trend(&s));
    s.median_m2_cents = Some(i64::MIN);
    assert!(!has_fitting_trend(&s));

    s.median_m2_cents_30d = Some(0);
    assert_eq!(commune_row(&s).trend, "—");
}

#[test]
fn settings_keep_the_key_when_blank() {
    let settings = LlmSettings {
        enabled: true,
        base_url: "http://z".into(),
        model: "m".into(),
        api_key_set: true,
        from_override: false,
    };
    let mut form = SettingsForm::load(&settings);
    assert_eq!(form.update().api_key, None);
    form.api_key = " sk ".into();
    let update = form.update();
    assert_eq!(update.api_key.as_deref(), Some("sk"));
    assert!(update.enabled && update.base_url == "http://z" && update.model == "m");
    assert_eq!(models_feedback(3), "3 modèle(s)");
    assert_eq!(failure_feedback("x"), "échec : x");
}

#[test]
fn the_api_is_found_in_order() {
    let some = |s: &str| Some(s.to_string());
    assert_eq!(resolve(some("http://shell:1"), some("http://stored:2"), some("http://o")), "http://shell:1/");
    assert_eq!(resolve(some("nowhere"), some("http://stored:2"), some("http://o")), "http://stored:2/");
    assert_eq!(resolve(None, None, some("https://o:3")), "https://o:3/");
    assert_eq!(resolve(None, None, some("tauri://localhost")), "http://127.0.0.1:4810/");
    assert_eq!(resolve(None, None, some("http://tauri.localhost")), "http://127.0.0.1:4810/");
    assert_eq!(resolve(None, some(""), None), "http://127.0.0.1:4810/");
    assert_eq!(resolve(some("HTTP://Shell:80/a"), None, None), "http://shell/a");
    assert_eq!(resolve(some("http://127.0.0.1:4810"), None, None), resolve(None, None, None));
    assert_eq!(save_server(" http://z:4810 "), ServerChoice::Keep("http://z:4810".into()));
    assert_eq!(save_server("  "), ServerChoice::Forget);
    assert_eq!(save_server("zeus"), ServerChoice::Forget);
    assert_eq!(Tab::Settings.label(), "Réglages");
    assert_eq!((Tab::About.display(Tab::About), Tab::About.display(Tab::Listings)), ("", "none"));
    assert_eq!(unreachable_text("x"), "serveur injoignable : x");
    assert_eq!(server_line("0.1.0", &None, "http://z/"), "0.1.0 (unknown) — http://z/");
}

#[test]
fn clients_know_their_paths() {
    let client = TerrierClient::new("http://z:4810".into());
    assert_eq!(client.url("api/health").unwrap(), "http://z:4810/api/health");
    let error = client.url("http://[").unwrap_err().message();
    assert!(error.starts_with("request failed: bad url \"http://[\": "), "{error}");
    assert_eq!(listings_path(Some(7), false), "api/listings?search_id=00000000-0000-0000-0000-000000000007&hidden=false");
    assert_eq!(listings_path(Some(7), true), "api/listings?search_id=00000000-0000-0000-0000-000000000007&hidden=true");
    assert_eq!(listings_path(None, true), "api/listings?hidden=true");
    assert_eq!(listings_path(None, false), "api/listings");
    assert_eq!(search_path(7), "api/searches/00000000-0000-0000-0000-000000000007");
    assert_eq!(moderation_path(7), "api/listings/00000000-0000-0000-0000-000000000007/moderation");
    assert_eq!(check_status(204, "".into()), Ok(()));
    let error = check_status(404, "not found".into()).unwrap_err();
    assert_eq!(error.message(), "server returned 404: not found");
    assert_eq!(check_status(199, "".into()), Err(ClientError::Api { status: 199, message: "".into() }));
    assert_eq!(ClientError::Decode("x".into()).message(), "invalid response body: x");
}

const W: f64 = 220.0;
const H: f64 = 48.0;
const PAD: f64 = 5.0;

#[test]
fn scales_into_padded_viewbox() {
    let pts = polyline_points(&vec![100, 200, 150]);
    let coords: Vec<(f64, f64)> = pts
        .split(' ')
        .map(|p| {
            let (x, y) = p.split_once(',').unwrap();
            (x.parse().unwrap(), y.parse().unwrap())
        })
        .collect();
    assert_eq!(coords.len(), 3);
    // max price → top pad, min price → bottom pad
    assert_eq!(coords[1].1, PAD);
    assert_eq!(coords[0].1, H - PAD);
    // x spans the padded width
    assert_eq!(coords[0].0, PAD);
    assert_eq!(coords[2].0, W - PAD);
}

#[test]
fn flat_and_single_series() {
    // flat series sits mid-height instead of dividing by zero
    assert!(polyline_points(&vec![500, 500]).contains(&format!("{:.1}", H / 2.0)));
    // single point → one coordinate pair
    assert_eq!(polyline_points(&vec![500]).split(' ').count(), 1);
    assert_eq!(polyline_points(&vec![]), "");
}

fn points_in_floating_point(prices: &[i64]) -> String {
    let n = prices.len();
    let (min, max) = (*prices.iter().min().unwrap(), *prices.iter().max().unwrap());
    let step = if n > 1 { (W - 2.0 * PAD) / (n - 1) as f64 } else { 0.0 };
    let pairs: Vec<String> = prices
        .iter()
        .enumerate()
        .map(|(i, p)| {
            let x = PAD + step * i as f64;
            let y = if max == min {
                H / 2.0
            } else {
                PAD + (H - 2.0 * PAD) * (1.0 - (p - min) as f64 / (max - min) as f64)
            };
            format!("{x:.1},{y:.1}")
        })
        .collect();
    pairs.join(" ")
}

#[test]
fn points_stand_where_floating_point_puts_them() {
    let mut seed: u64 = 7;
    for n in 1..40 {
        let prices: Vec<i64> = (0..n)
            .map(|_| {
                seed = seed.wrapping_mul(6364136223846793005).wrapping_add(1442695040888963407);
                (seed >> 36) as i64 - 1_000_000
            })
            .collect();
        assert_eq!(polyline_points(&prices), points_in_floating_point(&prices));
    }
    let wide = vec![-i64::MAX / 2, 3, i64::MAX / 2];
    assert!(has_fitting_span(&wide));
    assert_eq!(polyline_points(&wide), points_in_floating_point(&wide));
    assert!(!has_fitting_span(&vec![i64::MIN, 0]));
}

#[test]
fn histories_are_captioned() {
    let it = item(30_000_000, &[32_000_000, 29_999_999, 30_000_000]);
    let spark = sparkline(&it.history, "EUR").unwrap();
    assert_eq!(spark.line.unwrap(), "5.0,5.0 110.0,43.0 215.0,43.0");
    assert_eq!((spark.x.as_str(), spark.y.as_str()), ("215.0", "43.0"));
    assert_eq!((spark.low_x.as_str(), spark.low_y.as_str()), ("110.0", "43.0"));
    let twice = sparkline(&item(9, &[5, 3, 9, 3]).history, "EUR").unwrap();
    assert_eq!((twice.low_x.as_str(), twice.low_y.as_str()), ("75.0", "43.0"), "the first lowest");
    assert!(has_fitting_history(&it.history));
    assert_eq!(
        spark.title,
        "2026-07-01: 320000.00 EUR\n2026-07-02: 299999.99 EUR\n2026-07-03: 300000.00 EUR"
    );
    assert_eq!(spark.caption, "3 pts · min 299999.99 · now 300000.00 EUR");
    let one = sparkline(&item(1, &[-5]).history, "EUR").unwrap();
    assert!(one.line.is_none());
    assert_eq!((one.x.as_str(), one.y.as_str()), ("5.0", "24.0"));
    assert_eq!(one.caption, "1 pt · min -0.05 · now -0.05 EUR");
    assert!(sparkline(&vec![], "EUR").is_none());
}
