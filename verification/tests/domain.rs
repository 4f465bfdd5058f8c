use terrier::double::{Double, ONE_BITS};
use terrier::fixed::{euros_fixed, fixed, percent_move};
use terrier::limit::{complement, drop_limit, dropped, hundredth, percent, product, quotient, sum};
use terrier::listing::{
    ExtractedAttrs, Flag, Listing, ListingDetail, ListingStatus, Moderation, PropertyType, Seller,
    SellerKind, Timestamp,
};
use terrier::normalize::{
    canonical_url, clean_title, is_tracking_param, is_wanted_ad, number_cents, parse_fitting_price,
    parse_price, without_tracking,
};
use terrier::ratio::{cents_of_euros, double_of, per_square_metre};
use terrier::search::{default_true, location_matches, search_matches, Search};
use terrier::status::{SourceStatus, TickStats};

fn double(x: f64) -> Double {
    Double { bits: x.to_bits() }
}

fn sample_listing() -> Listing {
    Listing {
        id: 0,
        source_id: "leboncoin-immo".into(),
        canonical_url: "https://x/1".into(),
        title: "Maison 5 pièces".into(),
        price_cents: 30_000_000,
        property_type: PropertyType::House,
        surface_m2: Some(double(110.0)),
        rooms: Some(5),
        bedrooms: Some(3),
        land_m2: Some(double(400.0)),
        commune: Some("Bruz".into()),
        postal_code: Some("35170".into()),
        lat: None,
        lng: None,
        dpe: Some("c".into()),
        ges: None,
        sell_type: Some("old".into()),
        description: None,
        address: None,
        seller: None,
        attributes: ExtractedAttrs::default(),
        flags: vec![],
        status: ListingStatus::Active,
        moderation: Moderation::Unmoderated,
        first_seen: Timestamp { secs: 0, nanos: 0 },
        last_seen: Timestamp { secs: 0, nanos: 0 },
    }
}

fn sample_search() -> Search {
    Search {
        id: 0,
        name: "maison bruz".into(),
        locations: vec!["Bruz 35170".into()],
        max_price_cents: Some(35_000_000),
        min_surface_m2: Some(double(90.0)),
        min_rooms: Some(4),
        property_types: vec![PropertyType::House],
        active: true,
        created_at: Timestamp { secs: 0, nanos: 0 },
    }
}

#[test]
fn fill_gaps_keeps_own_values_and_adopts_missing() {
    let mut structured = ExtractedAttrs {
        chauffage_energie: Some("gaz".into()),
        orientation: Some("sud".into()),
        etage: Some(2),
        ..Default::default()
    };
    let llm = ExtractedAttrs {
        chauffage_energie: Some("electrique".into()),
        orientation: Some("nord".into()),
        fibre: Some(true),
        notes: vec!["locataire en place".into()],
        ..Default::default()
    };
    structured.fill_gaps_from(&llm);

    assert_eq!(structured.chauffage_energie.as_deref(), Some("gaz"));
    assert_eq!(structured.orientation.as_deref(), Some("sud"));
    assert_eq!(structured.etage, Some(2));
    assert_eq!(structured.fibre, Some(true), "adopted from llm");
    assert_eq!(structured.notes, vec!["locataire en place".to_string()]);
}

#[test]
fn fill_gaps_does_not_replace_existing_notes() {
    let mut a = ExtractedAttrs {
        notes: vec!["servitude".into()],
        ..Default::default()
    };
    a.fill_gaps_from(&ExtractedAttrs {
        notes: vec!["other".into()],
        ..Default::default()
    });
    assert_eq!(a.notes, vec!["servitude".to_string()]);
}

#[test]
fn filling_gaps_twice_or_from_nothing_changes_nothing() {
    let own = ExtractedAttrs {
        etage: Some(3),
        ..Default::default()
    };
    let other = ExtractedAttrs {
        etage: Some(9),
        jardin: Some(true),
        notes: vec!["viager".into()],
        ..Default::default()
    };
    let mut once = own.duplicate();
    once.fill_gaps_from(&other);
    let mut twice = once.duplicate();
    twice.fill_gaps_from(&other);
    assert_eq!(once, twice);
    assert_eq!(once.etage, Some(3));
    assert_eq!(once.jardin, Some(true));
    let mut same = own.duplicate();
    same.fill_gaps_from(&ExtractedAttrs::default());
    assert_eq!(same, own);
}

#[test]
fn price_per_m2_needs_a_plausible_surface() {
    let mut l = sample_listing();
    l.surface_m2 = Some(double(100.0));
    assert_eq!(l.price_per_m2_cents(), Some(300_000)); // 3 000 €/m²
    l.surface_m2 = Some(double(0.0));
    assert_eq!(l.price_per_m2_cents(), None, "zero surface = no ratio");
    l.surface_m2 = None;
    assert_eq!(l.price_per_m2_cents(), None);
    l.surface_m2 = Some(double(1.0));
    assert_eq!(l.price_per_m2_cents(), Some(30_000_000), "one square metre is enough");
    l.surface_m2 = Some(double(0.999));
    assert_eq!(l.price_per_m2_cents(), None);
    l.surface_m2 = Some(double(f64::NAN));
    assert_eq!(l.price_per_m2_cents(), None);
}

#[test]
fn ratios_round_as_doubles_do() {
    let prices = [
        0,
        1,
        3,
        4,
        5,
        7,
        20_000_000,
        30_000_001,
        99_999_999,
        9_007_199_254_740_991,
        9_007_199_254_740_993,
        9_007_199_254_740_995,
        i64::MAX - 1,
        i64::MAX,
    ];
    let surfaces = [
        1.0,
        1.0000000000000002,
        1.1,
        1.6,
        1.9999999999999998,
        2.0,
        2.5,
        3.0,
        40.7,
        110.0,
        139.37,
        1e6,
        3.3e15,
        4.5e17,
        9.3e18,
        1e19,
        1e40,
        1.7e308,
        f64::INFINITY,
    ];
    for p in prices {
        for s in surfaces {
            for price in [p, -p] {
                let expected = (price as f64 / s).round() as i64;
                assert_eq!(per_square_metre(price, double(s)), expected, "{price} / {s}");
            }
        }
    }
    assert_eq!(per_square_metre(i64::MIN, double(1.0)), i64::MIN);
    assert_eq!(per_square_metre(4, double(1.6)), 3, "the quotient is a half as a double");
}

#[test]
fn euros_round_as_doubles_do() {
    for e in [
        0.0,
        0.004,
        0.005,
        0.015,
        0.285,
        1.005,
        1.115,
        8.575,
        319_999.995,
        425_000.5,
        1_200.5,
        1e-300,
        5e-324,
        4.35,
        70_368_744_177_664.25,
        92_233_720_368_547_750.0,
        92_233_720_368_547_758.0,
        1e18,
        1e300,
        1.7e308,
        f64::INFINITY,
        f64::NAN,
    ] {
        for euros in [e, -e] {
            let expected = (euros * 100.0).round() as i64;
            assert_eq!(cents_of_euros(double(euros)), expected, "{euros}");
        }
    }
}

#[test]
fn drops_are_reckoned_as_doubles_are() {
    let percents = [
        0.0,
        -0.0,
        1.0,
        0.1,
        2.5,
        33.3,
        99.99999999999999,
        100.0,
        100.00000000000001,
        150.0,
        1e-14,
        1.1e-14,
        2.3e-14,
        1e-300,
        5e-324,
        1e17,
        1.8e18,
        3e20,
        1e300,
        1.7e308,
        f64::INFINITY,
        f64::NAN,
    ];
    let prices = [0, 1, 99, 100, 31_680_000, 32_000_000, 9_007_199_254_740_993, i64::MAX];
    for pct in percents.iter().flat_map(|p| [*p, -*p]) {
        for prev in prices.iter().flat_map(|p| [*p, -*p]) {
            let limit = prev as f64 * (1.0 - pct / 100.0);
            let found = f64::from_bits(drop_limit(prev, double(pct)).bits);
            assert!(found == limit || (found.is_nan() && limit.is_nan()), "{prev} less {pct}%: {found} {limit}");
            for price in prices.iter().flat_map(|p| [*p, -*p]) {
                assert_eq!(dropped(price, prev, double(pct)), price as f64 <= limit, "{price} {prev} {pct}");
            }
        }
    }
    assert!(dropped(31_680_000, 32_000_000, double(1.0)));
    assert!(!dropped(31_680_001, 32_000_000, double(1.0)));
    for x in percents.iter().flat_map(|p| [*p, -*p, *p * 1e-3, 1.0 / *p]) {
        let same = |a: f64, b: f64| a == b || (a.is_nan() && b.is_nan());
        assert!(same(f64::from_bits(hundredth(double(x)).bits), x / 100.0), "{x} / 100");
        assert!(same(f64::from_bits(complement(double(x)).bits), 1.0 - x), "1 - {x}");
        for y in [0.5, -3.0, 1e-200, 1e200, 5e-324, 1.7e308, 0.1] {
            assert!(same(f64::from_bits(product(double(y), double(x)).bits), y * x), "{y} * {x}");
        }
    }
}

#[test]
fn integers_become_the_nearest_doubles() {
    for v in [
        0,
        1,
        -1,
        5,
        32_000_000,
        9_007_199_254_740_991,
        9_007_199_254_740_993,
        9_007_199_254_740_995,
        -36_028_797_018_963_971,
        i64::MAX,
        i64::MIN,
        i64::MIN + 1,
    ] {
        assert_eq!(double_of(v), double(v as f64), "{v}");
    }
}

#[test]
fn extracted_attrs_defaults_and_is_empty() {
    assert!(ExtractedAttrs::default().is_empty());
    let attrs = ExtractedAttrs {
        fibre: Some(true),
        notes: vec!["locataire en place".into()],
        ..Default::default()
    };
    assert!(!attrs.is_empty());
    assert_eq!(attrs.fibre, Some(true));
    assert_eq!(attrs.notes, vec!["locataire en place"]);
    let detail = ListingDetail::default();
    assert!(detail.description.is_none() && detail.attributes.is_empty());
}

#[test]
fn doubles_compare_as_numbers() {
    let values = [
        f64::NEG_INFINITY,
        -1.5e300,
        -2.0,
        -1.0,
        -5e-324,
        -0.0,
        0.0,
        5e-324,
        2.2e-308,
        0.5,
        1.0,
        1.0000000000000002,
        110.0,
        1.7e308,
        f64::INFINITY,
        f64::NAN,
    ];
    for a in values {
        for b in values {
            assert_eq!(double(a).at_least(double(b)), a >= b, "{a} >= {b}");
        }
    }
    assert_eq!(double(1.0), Double { bits: ONE_BITS });
}

#[test]
fn labels_are_french() {
    assert_eq!(PropertyType::House.label(), "maison");
    assert_eq!(PropertyType::Apartment.label(), "appartement");
    assert_eq!(PropertyType::Land.label(), "terrain");
    assert_eq!(PropertyType::Other.label(), "autre");
    assert_eq!(PropertyType::default(), PropertyType::Other);
}

#[test]
fn sellers_and_idle_sources() {
    let s = Seller { kind: SellerKind::Pro, name: Some("Agence".into()), siren: None };
    assert_eq!(s.duplicate(), s);
    let idle = SourceStatus::idle("leboncoin-immo", 60);
    assert_eq!(idle.source_id, "leboncoin-immo");
    assert_eq!(idle.interval_minutes, 60);
    assert!(idle.last_tick.is_none() && idle.last_stats.is_none() && idle.last_error.is_none());
    assert_eq!(idle.consecutive_failures, 0);
    assert_eq!(TickStats::default().fetched, 0);
    assert!(default_true());
}

#[test]
fn parses_eu_style_price() {
    assert_eq!(parse_price("1 234,56 €"), Some((123_456, "EUR".into())));
    assert_eq!(parse_price("49,99€"), Some((4_999, "EUR".into())));
}

#[test]
fn parses_us_style_price() {
    assert_eq!(parse_price("$1,234.56"), Some((123_456, "USD".into())));
    assert_eq!(parse_price("USD 12.00"), Some((1_200, "USD".into())));
}

#[test]
fn parses_bare_integer_price() {
    assert_eq!(parse_price("120 €"), Some((12_000, "EUR".into())));
}

#[test]
fn wanted_ads_are_detected_by_leading_intent_words() {
    assert!(is_wanted_ad("Recherche RTX 5090"));
    assert!(is_wanted_ad("recherche rtx 5090 sous garantie"));
    assert!(is_wanted_ad("Je cherche une RTX 4090"));
    assert!(is_wanted_ad("ACHAT rtx 3090"));
    assert!(is_wanted_ad("Achète carte graphique"));
    assert!(!is_wanted_ad(
        "RTX 4090 état neuf, recherche nouveau proprio"
    ));
    assert!(!is_wanted_ad("PC gamer rtx 5090"));
}

#[test]
fn wanted_words_stand_whole() {
    assert!(is_wanted_ad("** ACHÈTE maison"));
    assert!(is_wanted_ad("rech. maison Bruz"));
    assert!(is_wanted_ad("rech.maison"));
    assert!(is_wanted_ad("Rech"));
    assert!(is_wanted_ad("je\u{a0}recherche"));
    assert!(is_wanted_ad("achete"));
    assert!(!is_wanted_ad("recherches"));
    assert!(!is_wanted_ad("Recherché"));
    assert!(!is_wanted_ad("jerecherche"));
    assert!(!is_wanted_ad("acheteur sérieux"));
    assert!(!is_wanted_ad("_recherche"));
    assert!(!is_wanted_ad(""));
    assert!(!is_wanted_ad("je"));
}

#[test]
fn four_plus_digit_prices_without_separator_keep_all_digits() {
    assert_eq!(parse_price("7000.00 €"), Some((700_000, "EUR".into())));
    assert_eq!(parse_price("1234 €"), Some((123_400, "EUR".into())));
    assert_eq!(parse_price("1299.99 €"), Some((129_999, "EUR".into())));
    assert_eq!(parse_price("12345,50"), Some((1_234_550, "EUR".into())));
}

#[test]
fn separator_styles_still_parse_after_the_fix() {
    assert_eq!(parse_price("7 000,99 €"), Some((700_099, "EUR".into())));
    assert_eq!(parse_price("7.000 €"), Some((700_000, "EUR".into())));
    assert_eq!(parse_price("$12,345.67"), Some((1_234_567, "USD".into())));
    assert_eq!(parse_price("1.23 €"), Some((123, "EUR".into())));
}

#[test]
fn rejects_priceless_text() {
    assert_eq!(parse_price("Contact seller"), None);
    assert_eq!(parse_price(""), None);
}

#[test]
fn price_edge_cases() {
    assert_eq!(parse_price("£5"), Some((500, "GBP".into())));
    assert_eq!(parse_price("gbp 5,5"), Some((550, "GBP".into())), "one decimal is tenths");
    assert_eq!(parse_price("1 2345"), Some((123_400, "EUR".into())), "groups have three digits");
    assert_eq!(parse_price("12\u{202f}345\u{a0}678,9"), Some((1_234_567_890, "EUR".into())));
    assert_eq!(parse_price("1.2345"), Some((123_400, "EUR".into())));
    assert_eq!(parse_price("3 pièces, 120 €"), Some((300, "EUR".into())), "the first number");
    assert_eq!(parse_price("٣"), None, "digits of other scripts write no price");
    assert_eq!(parse_price("1,٣"), None);
    assert_eq!(parse_price("99999999999999999999 €"), None);
    assert_eq!(parse_fitting_price("99999999999999999 €"), None);
    assert_eq!(parse_fitting_price("92233720368547758,07"), Some((i64::MAX, "EUR".into())));
    assert_eq!(parse_fitting_price("92233720368547758,08"), None);
    assert_eq!(number_cents("1 234", &Some("56".into())), Some(Some(123_456)));
    assert_eq!(number_cents("12", &Some("5".into())), Some(Some(1_250)));
    assert_eq!(number_cents("", &None), Some(None));
    assert_eq!(number_cents("99999999999999999", &None), None);
}

#[test]
fn canonical_url_strips_tracking_and_fragment() {
    assert_eq!(
        canonical_url("https://ex.com/item/42?utm_source=x&ref=abc&id=7#frag").unwrap(),
        "https://ex.com/item/42?id=7"
    );
}

#[test]
fn canonical_url_lowercases_host_keeps_path_case() {
    assert_eq!(
        canonical_url("https://Ex.COM/Item/42").unwrap(),
        "https://ex.com/Item/42"
    );
}

#[test]
fn canonical_url_rejects_garbage() {
    assert!(canonical_url("not a url").is_none());
    assert!(canonical_url("ftp://ex.com/item").is_none());
}

#[test]
fn retargeted_urls_have_one_canonical_form() {
    let plain = canonical_url("https://ex.com/a?id=7&q=x%20y").unwrap();
    assert_eq!(plain, "https://ex.com/a?id=7&q=x+y");
    for raw in [
        "https://EX.com/a?id=7&utm_medium=m&q=x%20y",
        "https://ex.com/a?fbclid=1&id=7&gclid=2&q=x+y#top",
        "https://ex.com/a?tag=t&id=7&mc_eid=e&q=x%20y&aff=1",
    ] {
        assert_eq!(canonical_url(raw).unwrap(), plain);
    }
    assert_eq!(canonical_url(&plain).unwrap(), plain);
    assert_eq!(canonical_url("https://ex.com/a?ref=1").unwrap(), "https://ex.com/a");
    assert!(is_tracking_param("utm_") && is_tracking_param("affid") && !is_tracking_param("utm"));
    let pairs = vec![("ref".to_string(), "1".to_string()), ("a".into(), "&=".into())];
    let kept = without_tracking(&pairs);
    assert_eq!(kept, vec![("a".to_string(), "&=".to_string())]);
    assert_eq!(canonical_url("https://x?a=%26%3d#t").unwrap(), "https://x/?a=%26%3D");
    assert_eq!(canonical_url("https://x/?a=é&b&=#t").unwrap(), "https://x/?a=%C3%A9&b=&=");
    assert_eq!(canonical_url("https://u:p%3f@x:443/%3F#a?b").unwrap(), "https://u:p%3f@x/%3F");
    for raw in [
        "https://x/?a=b c&utm_x=1&é=%ff#t",
        "http://EXämple.com:80/a b/../c?ref=1",
        "http://[::1]/?x",
        "https://x?=&&=",
    ] {
        let once = canonical_url(raw).unwrap();
        assert_eq!(canonical_url(&once).unwrap(), once, "{raw}");
    }
}

#[test]
fn clean_title_collapses_whitespace() {
    assert_eq!(clean_title("  RTX\u{a0}3080\n 10GB  "), "RTX 3080 10GB");
}

#[test]
fn cleaning_is_idempotent() {
    for t in ["", "   ", "a", "\u{2003}Maison\t\u{3000}5  pièces\r\n"] {
        let once = clean_title(t);
        assert_eq!(clean_title(&once), once);
    }
    assert_eq!(clean_title("\u{2003}Maison\t\u{3000}5  pièces\r\n"), "Maison 5 pièces");
    assert_eq!(clean_title("   "), "");
}

#[test]
fn full_criteria_match() {
    assert!(search_matches(&sample_search(), &sample_listing()));
}

#[test]
fn location_matches_by_code_or_name() {
    let mut s = sample_search();
    s.locations = vec!["35170".into()];
    assert!(search_matches(&s, &sample_listing()), "postal code alone");
    s.locations = vec!["bruz".into()];
    assert!(search_matches(&s, &sample_listing()), "commune name, any case");
    s.locations = vec!["Rennes 35000".into()];
    assert!(!search_matches(&s, &sample_listing()), "different commune");
    s.locations = vec![];
    assert!(search_matches(&s, &sample_listing()), "no location = anywhere");
}

#[test]
fn unknown_places_match_no_location() {
    let mut l = sample_listing();
    l.commune = Some("".into());
    l.postal_code = Some("".into());
    assert!(!location_matches("Bruz 35170", &l), "empty names match nothing");
    l.commune = Some("SAINT-ÉTIENNE".into());
    assert!(location_matches("saint-étienne (42)", &l));
    l.commune = None;
    l.postal_code = None;
    assert!(!location_matches("Bruz 35170", &l));
}

#[test]
fn criteria_fail_closed_on_missing_attributes() {
    let mut l = sample_listing();
    l.surface_m2 = None;
    assert!(!search_matches(&sample_search(), &l), "min-surface set, surface unknown");
    let mut s = sample_search();
    s.min_surface_m2 = None;
    assert!(search_matches(&s, &l), "criterion unset — missing attr is fine");
    let mut l = sample_listing();
    l.rooms = None;
    assert!(!search_matches(&sample_search(), &l), "min-rooms set, rooms unknown");
}

#[test]
fn price_type_and_state_gates() {
    let s = sample_search();
    let mut l = sample_listing();
    l.price_cents = 40_000_000;
    assert!(!search_matches(&s, &l), "over budget");
    let mut l = sample_listing();
    l.property_type = PropertyType::Apartment;
    assert!(!search_matches(&s, &l), "wrong type");
    let mut l = sample_listing();
    l.status = ListingStatus::Gone;
    assert!(!search_matches(&s, &l), "gone listings never match");
    let mut l = sample_listing();
    l.moderation = Moderation::Dismissed;
    assert!(!search_matches(&s, &l), "moderated listings never match");
    let mut s = sample_search();
    s.active = false;
    assert!(!search_matches(&s, &sample_listing()), "paused search");
}

#[test]
fn bounds_are_inclusive() {
    let s = sample_search();
    let mut l = sample_listing();
    l.price_cents = 35_000_000;
    l.surface_m2 = Some(double(90.0));
    l.rooms = Some(4);
    assert!(search_matches(&s, &l));
    l.surface_m2 = Some(double(89.99));
    assert!(!search_matches(&s, &l));
    l.surface_m2 = Some(double(f64::NAN));
    assert!(!search_matches(&s, &l));
    let mut cheap = sample_listing();
    cheap.price_cents = -1;
    assert!(search_matches(&s, &cheap), "a cheaper price still matches");
    cheap.flags = vec![Flag::WantedAd];
    assert!(search_matches(&s, &cheap), "flags gate pushes, not matches");
}

#[test]
fn no_criteria_match_every_live_listing() {
    let s = Search {
        id: 1,
        name: "tout".into(),
        locations: vec![],
        max_price_cents: None,
        min_surface_m2: None,
        min_rooms: None,
        property_types: vec![],
        active: true,
        created_at: Timestamp { secs: 0, nanos: 0 },
    };
    let mut l = sample_listing();
    l.surface_m2 = None;
    l.rooms = None;
    l.commune = None;
    assert!(search_matches(&s, &l));
    l.moderation = Moderation::Banned;
    assert!(!search_matches(&s, &l));
}

#[test]
fn decimals_are_written_as_floating_point_is() {
    let mut samples = vec![
        0.0, -0.0, 0.5, 1.5, 2.5, -0.5, 0.05, 0.25, 0.35, 0.125, 0.375, 9.995, 99.95, 110.0,
        1e15, 123456789.125, 5e-324, 1e300, f64::MAX, f64::MIN_POSITIVE, f64::INFINITY,
        f64::NEG_INFINITY, f64::NAN,
    ];
    let mut seed: u64 = 11;
    for _ in 0..300 {
        seed = seed.wrapping_mul(6364136223846793005).wrapping_add(1442695040888963407);
        samples.push((seed >> 40) as f64 / 1000.0);
        samples.push(f64::from_bits(seed));
    }
    for x in samples {
        assert_eq!(fixed(double(x), 0), format!("{x:.0}"));
        assert_eq!(fixed(double(x), 1), format!("{x:.1}"));
        assert_eq!(fixed(double(x), 2), format!("{x:.2}"));
    }
}

#[test]
fn quotients_and_sums_are_those_of_floating_point() {
    let samples = [0.0, 1.0, 3.0, 5.0, 0.1, 210.0, 38.0, 1e-310, 1e300, 7e15, f64::MAX, 5e-324];
    for a in samples {
        for b in samples {
            assert_eq!(sum(double(a), double(b)).bits, (a + b).to_bits(), "{a} + {b}");
            if b > 0.0 {
                assert_eq!(quotient(double(a), double(b)).bits, (a / b).to_bits(), "{a} / {b}");
                assert_eq!(quotient(double(-a), double(b)).bits, (-a / b).to_bits(), "-{a} / {b}");
            }
        }
    }
    for (part, whole) in [(0i64, 1i64), (1, 3), (2_000_000, 32_000_000), (i64::MAX, 1), (7, i64::MAX)] {
        assert_eq!(percent(part as u64, whole).bits, (part as f64 / whole as f64 * 100.0).to_bits());
    }
}

#[test]
fn amounts_and_moves_are_written_out() {
    for cents in [0, 1, -1, 5, 50, 149, 150, 250, -250, 30_000_049, -99_999, i64::MAX, i64::MIN] {
        let euros = cents as f64 / 100.0;
        assert_eq!(euros_fixed(cents, 0), format!("{euros:.0}"));
        assert_eq!(euros_fixed(cents, 2), format!("{euros:.2}"));
    }
    for (now, before) in [(94, 100), (100, 94), (5, 5), (99_999_999, 100_000_000), (-3, 7), (i64::MAX, 1), (i64::MIN + 1, 1)] {
        let d = (now - before) as f64 / before as f64 * 100.0;
        assert_eq!(percent_move(now, before), format!("{d:+.1}"));
    }
}

#[test]
fn postal_codes_match_in_any_case() {
    let mut l = sample_listing();
    l.postal_code = Some("SW1A 1AA".into());
    l.commune = None;
    assert!(location_matches("SW1A 1AA", &l));
    assert!(location_matches("London sw1a 1aa", &l));
    assert!(!location_matches("SW1A 1AB", &l));
}
