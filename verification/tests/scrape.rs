use terrier::config::{LeboncoinConfig, OuestFranceConfig};
use terrier::json::{parse_json, Json};
use terrier::listing::{Amount, PropertyType, RawListing, SellerKind};
use terrier::normalize::clean_title;
use terrier::scrape::leboncoin::{
    after_response, attr_i64, condition_to_travaux, curl_args, detail_api_url, garage_parking,
    heating_energy_fr, heating_type_fr, image_urls, list_id_of, orientation_fr, parse_ad_json, parse_fitting_ad_json, parse_search_page, search_url, seller, LeboncoinSource,
    PageStep,
};
use terrier::scrape::ouestfrance::{self, collect_offers, parse_page, script_texts, OuestFranceSource};
use terrier::scrape::{location_slug, looks_like_postal_code, merge_locations, Crawl};

fn json(text: &str) -> Json {
    parse_json(text).unwrap()
}

fn strings(list: &[&str]) -> Vec<String> {
    list.iter().map(|s| s.to_string()).collect()
}

#[test]
fn location_slug_normalizes_user_input() {
    assert_eq!(location_slug("Rennes 35000"), "Rennes_35000");
    assert_eq!(location_slug("rennes 35000"), "Rennes_35000");
    assert_eq!(location_slug("Rennes_35000"), "Rennes_35000");
    assert_eq!(location_slug("Bruz"), "Bruz");
    assert_eq!(location_slug("35170"), "35170");
    assert_eq!(location_slug("saint-malo 35400"), "Saint-malo_35400");
}

#[test]
fn location_slug_edge_cases() {
    assert_eq!(location_slug("  "), "");
    assert_eq!(location_slug("le  rheu 35650"), "Le Rheu_35650");
    assert_eq!(location_slug("évran 22630"), "Évran_22630");
    assert_eq!(location_slug("bruz 3517"), "Bruz 3517", "four digits are no postal code");
    assert!(looks_like_postal_code("35000") && !looks_like_postal_code("٣5000"));
}

#[test]
fn search_url_builds_category_9_with_location() {
    assert_eq!(
        search_url("Rennes 35000", 1),
        "https://www.leboncoin.fr/recherche?category=9&locations=Rennes_35000"
    );
    assert_eq!(
        search_url("Rennes 35000", 2),
        "https://www.leboncoin.fr/recherche?category=9&locations=Rennes_35000&page=2"
    );
}

#[test]
fn search_url_encodes_the_location() {
    assert_eq!(
        search_url("évran l'est*~ 22630", 0),
        "https://www.leboncoin.fr/recherche?category=9&locations=%C3%89vran+L%27est*%7E_22630"
    );
}

#[test]
fn curl_gets_the_headers_of_a_browser() {
    let args = curl_args("https://x/");
    assert_eq!(args.len(), 12);
    assert_eq!(args[0], "-sL");
    assert_eq!(args[3], "30");
    assert_eq!(
        args[6],
        "User-Agent: Mozilla/5.0 (Windows NT 10.0; Win64; x64) AppleWebKit/537.36 \
         (KHTML, like Gecko) Chrome/126.0.0.0 Safari/537.36"
    );
    assert_eq!(args[8], "Accept-Language: fr-FR,fr;q=0.9");
    assert_eq!(args[10], "Accept: text/html,application/xhtml+xml,application/json;q=0.9,*/*;q=0.8");
    assert_eq!(args[11], "https://x/");
}

#[test]
fn blocked_requests_go_through_curl() {
    assert_eq!(after_response(None), PageStep::Curl);
    assert_eq!(after_response(Some(403)), PageStep::Curl);
    assert_eq!(after_response(Some(429)), PageStep::Curl);
    assert_eq!(after_response(Some(200)), PageStep::Use);
    assert_eq!(after_response(Some(304)), PageStep::Use);
    assert_eq!(after_response(Some(404)), PageStep::Fail);
    assert_eq!(after_response(Some(503)), PageStep::Fail);
}

const SEARCH_PAGE: &str = r#"<html><body><script id="__NEXT_DATA__" type="application/json">
{"props":{"pageProps":{"searchData":{"total":3,"ads":[
 {"list_id":1,"status":"active","subject":"Penthouse 5 pièces 139 m²",
  "url":"https://www.leboncoin.fr/ad/ventes_immobilieres/1","price_cents":128500000,"price":[1285000],
  "body":"Penthouse d'exception au centre de Rennes.",
  "location":{"city":"Rennes","zipcode":"35000","lat":48.11,"lng":-1.68},
  "images":{"urls":["https://cdn/small.jpg"],"urls_large":["https://cdn/pent-1.jpg","https://cdn/pent-2.jpg"]},
  "owner":{"type":"pro","name":"Agence Horizon","siren":"123456789"},
  "attributes":[{"key":"real_estate_type","value":"2"},{"key":"square","value":"139"},
   {"key":"rooms","value":"5"},{"key":"bedrooms","value":"3"},{"key":"energy_rate","value":"C"},
   {"key":"ges","value":"n"},{"key":"immo_sell_type","value":"old"}]},
 {"list_id":2,"status":"sold","subject":"Vendue","url":"https://x/2","price_cents":100},
 {"list_id":3,"subject":"Maison 6 pièces","url":"https://www.leboncoin.fr/ad/ventes_immobilieres/3",
  "price":[425000.5],"owner":{"type":"private","name":"Jeanne"},
  "attributes":[{"key":"real_estate_type","value":"1"},{"key":"land_plot_surface","value":"600"},
   {"key":"square","value":"grande"},{"key":"energy_rate","value":"a"}]},
 {"list_id":4,"subject":"Sans prix","url":"https://x/4"}
]}}}}</script></body></html>"#;

#[test]
fn parses_immo_fixture_with_structured_attributes() {
    let listings = parse_search_page(SEARCH_PAGE).unwrap();
    assert_eq!(listings.len(), 2, "sold ad skipped");

    let flat = &listings[0];
    assert_eq!(flat.source_id, "leboncoin-immo");
    assert_eq!(flat.title, "Penthouse 5 pièces 139 m²");
    assert_eq!(flat.price, Amount::Cents(128_500_000));
    assert_eq!(flat.property_type, PropertyType::Apartment);
    assert_eq!(flat.surface_m2.as_ref().unwrap().parse::<f64>().ok(), Some(139.0));
    assert_eq!(flat.rooms, Some(5));
    assert_eq!(flat.bedrooms, Some(3));
    assert_eq!(flat.commune.as_deref(), Some("Rennes"));
    assert_eq!(flat.postal_code.as_deref(), Some("35000"));
    assert_eq!(flat.lat.as_deref(), Some("48.11"));
    assert_eq!(flat.lng.as_deref(), Some("-1.68"));
    assert_eq!(flat.dpe.as_deref(), Some("c"));
    assert_eq!(flat.ges, None, "no rating beyond G");
    assert_eq!(flat.sell_type.as_deref(), Some("old"));
    assert_eq!(flat.image_urls.len(), 2);
    assert!(flat.image_urls[0].ends_with("pent-1.jpg"));
    assert!(
        flat.description
            .as_deref()
            .unwrap()
            .starts_with("Penthouse d'exception")
    );
    let seller = flat.seller.as_ref().unwrap();
    assert_eq!(seller.kind, SellerKind::Pro);
    assert_eq!(seller.name.as_deref(), Some("Agence Horizon"));
    assert_eq!(seller.siren.as_deref(), Some("123456789"));

    let house = &listings[1];
    assert_eq!(house.property_type, PropertyType::House);
    assert_eq!(house.price, Amount::Euros("425000.5".into()));
    assert_eq!(house.land_m2.as_ref().unwrap().parse::<f64>().ok(), Some(600.0));
    assert_eq!(house.surface_m2, None, "no number");
    assert_eq!(house.dpe.as_deref(), Some("a"));
    assert_eq!(house.seller.as_ref().unwrap().kind, SellerKind::Private);
}

#[test]
fn no_results_is_empty_not_error() {
    let html = r#"<script id="__NEXT_DATA__" type="application/json">{"props":{"pageProps":{"searchData":{"total":0}}}}</script>"#;
    assert_eq!(parse_search_page(html).unwrap(), Vec::new());
}

#[test]
fn blocked_page_is_a_hard_error() {
    assert!(parse_search_page("<html>datadome says no</html>").is_err());
}

#[test]
fn each_page_fault_is_named() {
    let error = |html: &str| parse_search_page(html).unwrap_err();
    assert_eq!(error("<html>"), "__NEXT_DATA__ not found (blocked page or new layout)");
    assert_eq!(error(r#"<script id="__NEXT_DATA__""#), "malformed __NEXT_DATA__ tag");
    assert_eq!(error(r#"<script id="__NEXT_DATA__">{}"#), "unterminated __NEXT_DATA__ tag");
    let fault = error(r#"<script id="__NEXT_DATA__">{]</script>"#);
    assert!(fault.contains("line 1 column 2"), "{fault}");
}

const AD: &str = r#"{"list_id":3138407746,"body":"Bel appartement. Copropriété de 24 lots.",
 "images":{"urls_large":["https://cdn/ad-1.jpg","https://cdn/ad-2.jpg",7,"https://cdn/ad-3.jpg"]},
 "location":{"city_label":"Rennes 35000","district":"Bourg l'Év. la Touche"},
 "owner":{"type":"pro","name":"Agence"},
 "attributes":[{"key":"siren","value":"833292865"},{"key":"building_year","value":"1960"},
  {"key":"global_condition","value":"2","value_label":"Bon état"},
  {"key":"heating_type","value":"individual"},{"key":"heating_mode","value":"gas"},
  {"key":"annual_charges","value":"1200"},{"key":"property_tax","value":"600"},
  {"key":"floor_number","value":"2"},{"key":"elevator","value":"1"},
  {"key":"orientation","value":"south_east"},{"key":"nb_parkings","value":"0"},
  {"key":"specificities","value":"a,b","value_label":"Balcon, Garage"}]}"#;

#[test]
fn parses_ad_detail_json() {
    let d = parse_ad_json(AD).unwrap();
    assert!(
        d.description
            .as_deref()
            .unwrap()
            .contains("Copropriété de 24 lots")
    );
    assert_eq!(d.image_urls.len(), 3);
    assert!(d.image_urls[0].ends_with("ad-1.jpg"));
    assert_eq!(d.address.as_deref(), Some("Bourg l'Év. la Touche"));
    let seller = d.seller.as_ref().unwrap();
    assert_eq!(seller.kind, SellerKind::Pro);
    assert_eq!(seller.siren.as_deref(), Some("833292865"));

    let a = &d.attributes;
    assert_eq!(a.annee_construction, Some(1960));
    assert_eq!(a.travaux.as_deref(), Some("aucun"));
    assert_eq!(a.chauffage_type.as_deref(), Some("individuel"));
    assert_eq!(a.chauffage_energie.as_deref(), Some("gaz"));
    assert_eq!(a.charges_copro_month_cents, Some(1200 * 100 / 12));
    assert_eq!(a.taxe_fonciere_year_cents, Some(60_000));
    assert_eq!(a.etage, Some(2));
    assert_eq!(a.ascenseur, Some(true));
    assert_eq!(a.orientation.as_deref(), Some("sud-est"));
    assert_eq!(a.garage_parking, Some(true), "from specificities label");
    assert_eq!(a.fibre, None);
    assert_eq!(a.piscine, None);
    assert!(a.notes.is_empty());
}

#[test]
fn amounts_that_do_not_fit_are_set_aside() {
    let ad = r#"{"body":"x","attributes":[{"key":"property_tax","value":"92233720368547759"}]}"#;
    assert!(parse_fitting_ad_json(ad).is_none());
    let ad = r#"{"body":"x","attributes":[{"key":"annual_charges","value":"-100"}]}"#;
    let d = parse_fitting_ad_json(ad).unwrap().unwrap();
    assert_eq!(d.attributes.charges_copro_month_cents, Some(-833));
    assert!(parse_fitting_ad_json("no").unwrap().is_err());
}

#[test]
fn attributes_take_the_first_value_that_is_text() {
    let ad = json(
        r#"{"attributes":[{"key":"rooms","value":4},{"key":"rooms","value":"5"},{"key":"rooms","value":"6"},
            {"key":"nb_parkings","value":"2"}]}"#,
    );
    assert_eq!(attr_i64(&ad, "rooms"), Some(5));
    assert_eq!(attr_i64(&ad, "bedrooms"), None);
    assert_eq!(garage_parking(&ad), Some(true));
    assert_eq!(garage_parking(&json("{}")), None);
    assert_eq!(attr_i64(&json(r#"{"attributes":{"key":"rooms","value":"5"}}"#), "rooms"), None);
    assert!(seller(&json(r#"{"owner":{"type":"agency"}}"#)).is_none());
}

#[test]
fn conditions_and_codes_in_french() {
    assert_eq!(condition_to_travaux("À RÉNOVER").as_deref(), Some("a-prevoir"));
    assert_eq!(condition_to_travaux("Travaux à prévoir").as_deref(), Some("a-prevoir"));
    assert_eq!(condition_to_travaux("À rafraîchir").as_deref(), Some("rafraichissement"));
    assert_eq!(condition_to_travaux("Très bon état").as_deref(), Some("aucun"));
    assert_eq!(condition_to_travaux("inconnu"), None);
    assert_eq!(heating_type_fr("collective").as_deref(), Some("collectif"));
    assert_eq!(heating_type_fr("x"), None);
    assert_eq!(heating_energy_fr("oil").as_deref(), Some("fioul"));
    assert_eq!(heating_energy_fr("heat_pump").as_deref(), Some("pompe à chaleur"));
    assert_eq!(heating_energy_fr("sun"), None);
    assert_eq!(orientation_fr("north_west").as_deref(), Some("nord-ouest"));
    assert_eq!(orientation_fr("up"), None);
}

#[test]
fn blocked_or_malformed_ad_json_is_a_hard_error() {
    assert!(parse_ad_json("<html>datadome says no</html>").is_err());
    assert!(parse_ad_json(r#"{"error": "forbidden"}"#).is_err());
    assert_eq!(
        parse_ad_json(r#"{"error": "forbidden"}"#).unwrap_err(),
        "not a finder ad payload (blocked or unexpected shape)"
    );
}

#[test]
fn list_id_extracted_from_ad_url() {
    assert_eq!(
        list_id_of("https://www.leboncoin.fr/ad/ventes_immobilieres/3138407746").as_deref(),
        Some("3138407746")
    );
    assert_eq!(
        list_id_of("https://www.leboncoin.fr/ad/ventes_immobilieres/3138407746/").as_deref(),
        Some("3138407746")
    );
    assert_eq!(
        list_id_of("https://www.leboncoin.fr/recherche?foo=bar"),
        None
    );
    assert_eq!(
        detail_api_url("3138407746"),
        "https://api.leboncoin.fr/finder/classified/3138407746"
    );
    assert_eq!(list_id_of("https://x/12//?page=9").as_deref(), Some("12"));
    assert_eq!(list_id_of("https://x/12#a/b").as_deref(), Some("12"));
    assert_eq!(list_id_of("///"), None);
}

#[test]
fn image_urls_falls_back_to_plain_urls() {
    let ad = json(r#"{"images": {"urls": ["https://cdn/x.jpg"]}}"#);
    assert_eq!(image_urls(&ad), vec!["https://cdn/x.jpg".to_string()]);
    assert!(image_urls(&json("{}")).is_empty());
}

#[test]
fn documents_are_read_as_trees() {
    let doc = json(r#"{"b":[1,-2.5,true,null,"é"],"a":{"x":1e3},"b2":18446744073709551615}"#);
    let Some(Json::Array(items)) = doc.get("b") else {
        panic!("an array");
    };
    assert_eq!(items.len(), 5);
    let Json::Number(n) = &items[0] else {
        panic!("a number");
    };
    assert_eq!((n.integer, n.text.as_str()), (Some(1), "1"));
    let Json::Number(n) = &items[1] else {
        panic!("a number");
    };
    assert_eq!((n.integer, n.text.as_str()), (None, "-2.5"));
    assert_eq!(items[2], Json::Bool(true));
    assert_eq!(items[3], Json::Null);
    assert_eq!(items[4], Json::Text("é".into()));
    let Some(Json::Number(n)) = doc.get("b2") else {
        panic!("a number");
    };
    assert_eq!(n.integer, None, "beyond the signed integers");
    assert!(doc.get("c").is_none() && items[0].get("a").is_none());
    assert!(parse_json("{").unwrap_err().contains("EOF"));
}

fn raw(url: &str) -> RawListing {
    let page = format!(
        r#"<script id="__NEXT_DATA__">{{"props":{{"pageProps":{{"searchData":{{"ads":[
            {{"subject":"t","url":"{url}","price_cents":1}}]}}}}}}}}</script>"#
    );
    parse_search_page(&page).unwrap().remove(0)
}

#[test]
fn a_short_page_is_the_last_one() {
    let source = LeboncoinSource::new(LeboncoinConfig {
        locations: strings(&["Rennes 35000"]),
        pages_per_location: 3,
        ..Default::default()
    });
    let mut crawl = source.crawl(&strings(&["Bruz", "Rennes 35000", "Bruz"]));
    assert_eq!(crawl.locations, strings(&["Rennes 35000", "Bruz"]));
    assert_eq!(crawl.next(), Some((&"Rennes 35000".to_string(), 1)));
    crawl.take_page((0..35).map(|i| raw(&format!("https://x/{i}"))).collect());
    assert_eq!(crawl.next(), Some((&"Rennes 35000".to_string(), 2)));
    crawl.take_page(vec![raw("https://x/3"), raw("https://x/100")]);
    assert_eq!(crawl.next(), Some((&"Bruz".to_string(), 1)), "short page");
    for _ in 0..3 {
        crawl.take_page((0..35).map(|i| raw(&format!("https://x/{i}"))).collect());
    }
    assert!(crawl.next().is_none(), "no more than three pages");
    assert_eq!(crawl.listings.len(), 36, "each url once");
    assert_eq!(crawl.listings[35].url, "https://x/100");
    let nothing = Crawl::new(&vec![], &vec![], 0, 35);
    assert_eq!(nothing.pages, 1);
    assert!(nothing.next().is_none());
    assert_eq!(merge_locations(&strings(&["a", "a"]), &strings(&["b"])), strings(&["a", "a", "b"]));
}

#[test]
fn slug_builds_ville_dep_cp() {
    assert_eq!(ouestfrance::location_slug("Rennes 35000"), "rennes-35-35000");
    assert_eq!(ouestfrance::location_slug("Saint-Malo 35400"), "saint-malo-35-35400");
    assert_eq!(ouestfrance::location_slug("bruz"), "bruz");
}

#[test]
fn ouestfrance_urls() {
    assert_eq!(
        ouestfrance::search_url("Le_Rheu 35650"),
        "https://www.ouestfrance-immo.com/acheter/le-rheu-35-35650/"
    );
    assert_eq!(ouestfrance::location_slug("35000"), "-35-35000");
}

#[test]
fn parses_json_ld_offers() {
    let html = r#"<html><script type="application/ld+json">
    {"@type":"ItemList","itemListElement":[
      {"@type":"ListItem","item":{"@type":"House","name":"Maison 5 pièces Bruz",
       "url":"https://www.ouestfrance-immo.com/annonce/1",
       "offers":{"price":"320000"},
       "floorSize":{"value":110},"numberOfRooms":5,
       "address":{"addressLocality":"Bruz","postalCode":"35170"}}}
    ]}</script></html>"#;
    let listings = parse_page(html).unwrap();
    assert_eq!(listings.len(), 1);
    let Amount::Euros(euros) = &listings[0].price else {
        panic!("euros");
    };
    assert_eq!((euros.parse::<f64>().unwrap() * 100.0).round() as i64, 32_000_000);
    assert_eq!(listings[0].property_type, PropertyType::House);
    assert_eq!(listings[0].surface_m2.as_ref().unwrap().parse::<f64>().ok(), Some(110.0));
    assert_eq!(listings[0].rooms, Some(5));
    assert_eq!(listings[0].commune.as_deref(), Some("Bruz"));
    assert_eq!(listings[0].source_id, "ouestfrance-immo");
}

#[test]
fn page_without_json_ld_is_a_hard_error() {
    assert!(parse_page("<html>bot wall</html>").is_err());
    assert!(parse_page("<script type=\"application/ld+json\">not json</script>").is_err());
}

#[test]
fn offers_are_found_wherever_they_nest() {
    let doc = json(
        r#"[{"@type":"Offer","name":"Terrain à bâtir","url":"https://x/1","price":50000},
            {"@graph":[{"@type":"Product","name":"Un appartement","offers":{"url":"https://x/2","price":1.5}}],
             "item":{"@type":"Product","name":"Une Maison","url":"https://x/3","offers":{"price":"cher"},"price":7}},
            {"@type":"Person","name":"n","url":"https://x/4","price":1},
            {"@type":"Offer","name":"sans prix","url":"https://x/5"},
            {"@type":"Offer","url":"https://x/6","price":1},
            {"@type":"Offer","name":"sans adresse","price":1},
            "texte", 3]"#,
    );
    let found = collect_offers(&doc);
    let seen: Vec<(&str, PropertyType)> =
        found.iter().map(|l| (l.url.as_str(), l.property_type)).collect();
    assert_eq!(
        seen,
        vec![
            ("https://x/1", PropertyType::Land),
            ("https://x/2", PropertyType::Apartment),
            ("https://x/3", PropertyType::House),
        ]
    );
    assert_eq!(found[1].price, Amount::Euros("1.5".into()));
    assert_eq!(found[2].price, Amount::Euros("7".into()), "the price that reads as a number");
}

#[test]
fn scripts_that_close_too_early_are_set_aside() {
    assert!(script_texts("application/ld+json</script>").is_none());
    assert_eq!(script_texts("application/ld+json>a").unwrap(), Vec::<String>::new());
    assert_eq!(
        script_texts("<application/ld+json>a</script> application/ld+json x>b</script>").unwrap(),
        strings(&["a", "b"])
    );
}

#[test]
fn the_fetch_command_gets_the_url() {
    let source = OuestFranceSource::new(OuestFranceConfig {
        fetch_command: strings(&["browse", "--page={url}", "{url}{url}", "{ur"]),
        locations: strings(&["Bruz"]),
        ..Default::default()
    });
    assert_eq!(
        source.command("https://x/").unwrap(),
        strings(&["browse", "--page=https://x/", "https://x/https://x/", "{ur"])
    );
    let crawl = source.crawl(&strings(&["Rennes"]));
    assert_eq!(crawl.locations, strings(&["Bruz", "Rennes"]));
    assert_eq!(crawl.pages, 1);
    let none = OuestFranceSource::new(OuestFranceConfig::default());
    assert!(none.command("https://x/").unwrap_err().starts_with("ouestfrance-immo needs fetch_command"));
}

#[test]
fn slugs_are_final() {
    for raw in ["", "35000", "  rennes_35000 ", "saint malo 35400", "le rheu", "_a__b_", "élan 3500"] {
        let once = location_slug(raw);
        assert_eq!(location_slug(&once), once);
        assert_eq!(location_slug(&raw.replace('_', " ")), once);
        assert_eq!(clean_title(&once), once);
    }
    assert_eq!(location_slug("saint malo 35400"), "Saint Malo_35400");
    assert_eq!(location_slug("ßa"), "SSa");
    assert_eq!(location_slug("SSa"), "SSa");
}
