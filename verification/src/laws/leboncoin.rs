//! Leboncoin: what an ad says, and what listing it makes.
use crate::json::{json_document, opt_text, Tree};
use crate::listing::{
    Amount, ExtractedAttrs, ListingDetail, PropertyType, RawListing, Seller, SellerKind,
};
use crate::scrape::leboncoin::{
    ads_in, attr_integer, attr_text, attribute_from, details_ad, embedded, heating_energy_text,
    heating_type_text, is_ad, label_text, list_id, listable, lists_ad, lists_ads, monthly_cents,
    next_data_text, orientation_text, parking, photos, search_url_text, sold_by, states,
    texts_among, travaux_text, type_of,
};
use crate::text::{
    all_digits, contains_text, decimal, is_decimal, lemma_filter_push, lemma_find, lowercase,
    occurs_at, parse_i64, texts,
};
use vstd::prelude::*;

verus! {

/// Among the attributes of an ad this one is the first with the key that has a
/// text under the field.
pub open spec fn is_stated_by(
    items: Seq<Tree>,
    key: Seq<char>,
    field: Seq<char>,
    i: int,
) -> bool {
    &&& 0 <= i < items.len()
    &&& items[i].at("key"@) == Tree::Text(key)
    &&& items[i].at(field) is Text
    &&& forall|j: int|
        0 <= j < i ==> (#[trigger] items[j]).at("key"@) != Tree::Text(key) || !(items[j].at(field)
            is Text)
}

/// No attribute of an ad has the key and a text under the field.
pub open spec fn is_stated_by_none(items: Seq<Tree>, key: Seq<char>, field: Seq<char>) -> bool {
    forall|j: int|
        0 <= j < items.len() ==> (#[trigger] items[j]).at("key"@) != Tree::Text(key) || !(
        items[j].at(field) is Text)
}

/// The value of an attribute is that of the first one with its key that has a
/// text; its label likewise.
pub proof fn law_attributes_are_the_first_ones(ad: Tree, items: Seq<Tree>, key: Seq<char>, i: int)
    requires
        ad.at("attributes"@) == Tree::Array(items),
    ensures
        is_stated_by(items, key, "value"@, i) ==> attr_text(ad, key) == Some(
            items[i].at("value"@)->Text_0,
        ),
        is_stated_by_none(items, key, "value"@) ==> attr_text(ad, key) is None,
        is_stated_by(items, key, "value_label"@, i) ==> label_text(ad, key) == Some(
            items[i].at("value_label"@)->Text_0,
        ),
        is_stated_by_none(items, key, "value_label"@) ==> label_text(ad, key) is None,
        is_stated_by(items, key, "value"@, i) ==> attr_integer(ad, key) == parse_i64(
            items[i].at("value"@)->Text_0,
        ),
        is_stated_by_none(items, key, "value"@) ==> attr_integer(ad, key) is None,
{
    if is_stated_by(items, key, "value"@, i) {
        lemma_stated(items, key, "value"@, 0, i);
    }
    if is_stated_by_none(items, key, "value"@) {
        lemma_unstated(items, key, "value"@, 0);
    }
    if is_stated_by(items, key, "value_label"@, i) {
        lemma_stated(items, key, "value_label"@, 0, i);
    }
    if is_stated_by_none(items, key, "value_label"@) {
        lemma_unstated(items, key, "value_label"@, 0);
    }
}

proof fn lemma_stated(items: Seq<Tree>, key: Seq<char>, field: Seq<char>, from: int, i: int)
    requires
        0 <= from <= i,
        is_stated_by(items, key, field, i),
    ensures
        attribute_from(items, key, field, from) == Some(items[i].at(field)->Text_0),
    decreases i - from,
{
    if from < i {
        assert(items[from].at("key"@) != Tree::Text(key) || !(items[from].at(field) is Text));
        lemma_stated(items, key, field, from + 1, i);
    }
}

proof fn lemma_unstated(items: Seq<Tree>, key: Seq<char>, field: Seq<char>, from: int)
    requires
        0 <= from <= items.len(),
        is_stated_by_none(items, key, field),
    ensures
        attribute_from(items, key, field, from) is None,
    decreases items.len() - from,
{
    if from < items.len() {
        assert(items[from].at("key"@) != Tree::Text(key) || !(items[from].at(field) is Text));
        lemma_unstated(items, key, field, from + 1);
    }
}

/// The code of an ad's type makes the type of its listing: 1 a house, 2 an
/// apartment, 3 land; another code, or none, something else.
pub proof fn law_codes_make_property_types(raw: RawListing, ad: Tree, items: Seq<Tree>, i: int)
    requires
        lists_ad(raw, ad),
        ad.at("attributes"@) == Tree::Array(items),
    ensures
        is_stated_by(items, "real_estate_type"@, "value"@, i) && items[i].at("value"@)
            == Tree::Text("1"@) ==> raw.property_type == PropertyType::House,
        is_stated_by(items, "real_estate_type"@, "value"@, i) && items[i].at("value"@)
            == Tree::Text("2"@) ==> raw.property_type == PropertyType::Apartment,
        is_stated_by(items, "real_estate_type"@, "value"@, i) && items[i].at("value"@)
            == Tree::Text("3"@) ==> raw.property_type == PropertyType::Land,
        is_stated_by(items, "real_estate_type"@, "value"@, i) && items[i].at("value"@)
            != Tree::Text("1"@) && items[i].at("value"@) != Tree::Text("2"@) && items[i].at(
            "value"@,
        ) != Tree::Text("3"@) ==> raw.property_type == PropertyType::Other,
        is_stated_by_none(items, "real_estate_type"@, "value"@) ==> raw.property_type
            == PropertyType::Other,
{
    law_attributes_are_the_first_ones(ad, items, "real_estate_type"@, i);
    reveal_strlit("1");
    reveal_strlit("2");
    reveal_strlit("3");
    assert("1"@[0] != "2"@[0] && "1"@[0] != "3"@[0] && "2"@[0] != "3"@[0]);
    assert(raw.property_type == type_of(ad));
}

/// The listing of an ad has what the ad states: title and URL, price, place,
/// surfaces, rooms, ratings, text, photos and seller, each from where the ad has
/// it.
pub proof fn law_listings_have_what_the_ad_states(raw: RawListing, ad: Tree)
    requires
        lists_ad(raw, ad),
    ensures
        raw.source_id@ == "leboncoin-immo"@,
        ad.at("url"@) == Tree::Text(raw.url@),
        ad.at("subject"@) == Tree::Text(raw.title@),
        ad.at("price_cents"@).as_integer() matches Some(c) ==> raw.price == Amount::Cents(c),
        ad.at("price_cents"@).as_integer() is None ==> raw.price is Euros && ad.at(
            "price"@,
        ).head().number_text() == Some(raw.price->Euros_0@),
        raw.rooms == attr_integer(ad, "rooms"@),
        raw.bedrooms == attr_integer(ad, "bedrooms"@),
        attr_text(ad, "square"@) matches Some(s) ==> opt_text(raw.surface_m2) == if is_decimal(s) {
            Some(s)
        } else {
            None
        },
        attr_text(ad, "square"@) is None ==> raw.surface_m2 is None,
        attr_text(ad, "land_plot_surface"@) matches Some(s) ==> opt_text(raw.land_m2) == if is_decimal(
            s,
        ) {
            Some(s)
        } else {
            None
        },
        attr_text(ad, "land_plot_surface"@) is None ==> raw.land_m2 is None,
        opt_text(raw.commune) == ad.at("location"@).at("city"@).as_text(),
        opt_text(raw.postal_code) == ad.at("location"@).at("zipcode"@).as_text(),
        opt_text(raw.lat) == ad.at("location"@).at("lat"@).number_text(),
        opt_text(raw.lng) == ad.at("location"@).at("lng"@).number_text(),
        opt_text(raw.sell_type) == attr_text(ad, "immo_sell_type"@),
        opt_text(raw.description) == ad.at("body"@).as_text(),
        texts(raw.image_urls@) == photos(ad),
        sold_by(raw.seller, ad),
        attr_text(ad, "energy_rate"@) is None ==> raw.dpe is None,
        attr_text(ad, "ges"@) is None ==> raw.ges is None,
{
    reveal_strlit("leboncoin-immo");
}

/// A rating is one of the seven letters in lower case, whatever its case in the
/// ad; another text is no rating.
pub proof fn law_ratings_are_letters(raw: RawListing, ad: Tree)
    requires
        lists_ad(raw, ad),
    ensures
        attr_text(ad, "energy_rate"@) matches Some(s) ==> opt_text(raw.dpe) == if lowercase(s)
            == "a"@ || lowercase(s) == "b"@ || lowercase(s) == "c"@ || lowercase(s) == "d"@
            || lowercase(s) == "e"@ || lowercase(s) == "f"@ || lowercase(s) == "g"@ {
            Some(lowercase(s))
        } else {
            None
        },
        attr_text(ad, "ges"@) matches Some(s) ==> opt_text(raw.ges) == if lowercase(s) == "a"@
            || lowercase(s) == "b"@ || lowercase(s) == "c"@ || lowercase(s) == "d"@ || lowercase(s)
            == "e"@ || lowercase(s) == "f"@ || lowercase(s) == "g"@ {
            Some(lowercase(s))
        } else {
            None
        },
{
    let grades = seq!["a"@, "b"@, "c"@, "d"@, "e"@, "f"@, "g"@];
    assert(grades[0] == "a"@ && grades[1] == "b"@ && grades[2] == "c"@ && grades[3] == "d"@
        && grades[4] == "e"@ && grades[5] == "f"@ && grades[6] == "g"@);
}

/// An ad makes a listing exactly where its status is active or unsaid, and it
/// has a title, a URL and a price, in cents or in euros.
pub proof fn law_active_ads_make_listings(ad: Tree)
    ensures
        listable(ad) <==> (!(ad.at("status"@) is Text) || ad.at("status"@) == Tree::Text(
            "active"@,
        )) && ad.at("subject"@) is Text && ad.at("url"@) is Text && (ad.at(
            "price_cents"@,
        ).as_integer() is Some || ad.at("price"@).head() is Number),
{
}

/// Every ad of a page that makes a listing has one, in the order of the page,
/// and nothing else has; a page without a list of ads has none.
pub proof fn law_pages_give_a_listing_per_ad(
    listings: Seq<RawListing>,
    longer: Seq<RawListing>,
    ads: Seq<Tree>,
    ad: Tree,
    data: Tree,
)
    ensures
        lists_ads(listings, Seq::empty()) <==> listings.len() == 0,
        lists_ads(longer, ads.push(ad)) && !listable(ad) ==> lists_ads(longer, ads),
        lists_ads(longer, ads.push(ad)) && listable(ad) ==> longer.len() > 0 && lists_ads(
            longer.drop_last(),
            ads,
        ) && lists_ad(longer.last(), ad),
        data.at("props"@).at("pageProps"@).at("searchData"@).at("ads"@) matches Tree::Array(list)
            ==> ads_in(data) == list,
        !(data.at("props"@).at("pageProps"@).at("searchData"@).at("ads"@) is Array) ==> ads_in(
            data,
        ).len() == 0,
{
    let pick = |ad: Tree| listable(ad);
    lemma_filter_push(ads, ad, pick);
    assert(Seq::<Tree>::empty().filter(pick) =~= Seq::<Tree>::empty()) by {
        reveal(Seq::filter);
    }
    if lists_ads(longer, ads.push(ad)) && listable(ad) {
        let kept = ads.filter(pick);
        let init = longer.drop_last();
        assert forall|i: int| 0 <= i < init.len() implies lists_ad(#[trigger] init[i], kept[i]) by {
            assert(init[i] == longer[i]);
            assert(lists_ad(longer[i], kept.push(ad)[i]));
        }
        assert(lists_ad(longer[longer.len() - 1], kept.push(ad)[longer.len() - 1]));
    }
}

/// The document of a page is what its script holds: from the end of the opening
/// tag to the closing one.
pub proof fn law_pages_embed_their_document(
    head: Seq<char>,
    tag_rest: Seq<char>,
    json: Seq<char>,
    tail: Seq<char>,
    html: Seq<char>,
)
    requires
        html == head + ("<script id=\"__NEXT_DATA__\""@ + (tag_rest + (">"@ + (json + (
        "</script>"@ + tail))))),
        forall|i: int| 0 <= i < head.len() ==> !occurs_at(html, "<script id=\"__NEXT_DATA__\""@, i),
        !tag_rest.contains('>'),
        forall|i: int|
            0 <= i < json.len() ==> !occurs_at(json + ("</script>"@ + tail), "</script>"@, i),
    ensures
        next_data_text(html) == Ok::<Seq<char>, Seq<char>>(json),
        embedded(html) == json_document(json),
{
    let open = "<script id=\"__NEXT_DATA__\""@;
    let close = "</script>"@;
    reveal_strlit("<script id=\"__NEXT_DATA__\"");
    reveal_strlit(">");
    reveal_strlit("</script>");
    let body = json + (close + tail);
    let tag = open + (tag_rest + (">"@ + body));
    let start = head.len() as int;
    assert(html.subrange(start, start + open.len()) =~= open);
    lemma_find(html, open, start);
    assert(html.skip(start) =~= tag);
    let i = (open.len() + tag_rest.len()) as int;
    assert(tag.subrange(i, i + 1) =~= ">"@);
    assert forall|j: int| 0 <= j < i implies !occurs_at(tag, ">"@, j) by {
        if occurs_at(tag, ">"@, j) {
            assert(tag.subrange(j, j + 1)[0] == tag[j]);
            if j < open.len() {
                assert(tag[j] == open[j]);
            } else {
                assert(tag[j] == tag_rest[j - open.len()]);
                assert(tag_rest.contains(tag_rest[j - open.len()]));
            }
        }
    }
    lemma_find(tag, ">"@, i);
    assert(tag.skip(i + 1) =~= body);
    let end = json.len() as int;
    assert(body.subrange(end, end + close.len()) =~= close);
    lemma_find(body, close, end);
    assert(body.take(end) =~= json);
}

/// A page without the script is an error, never an empty page.
pub proof fn law_blocked_pages_are_errors(html: Seq<char>)
    requires
        !contains_text(html, "<script id=\"__NEXT_DATA__\""@),
    ensures
        embedded(html) is Err,
{
}

/// The codes of heating, heat and direction in French; an unknown code says
/// nothing.
pub proof fn law_codes_in_french(code: Seq<char>)
    ensures
        code == "individual"@ ==> heating_type_text(code) == Some("individuel"@),
        code == "collective"@ ==> heating_type_text(code) == Some("collectif"@),
        code != "individual"@ && code != "collective"@ ==> heating_type_text(code) is None,
        code == "gas"@ ==> heating_energy_text(code) == Some("gaz"@),
        code == "electric"@ ==> heating_energy_text(code) == Some("electrique"@),
        code == "fuel"@ ==> heating_energy_text(code) == Some("fioul"@),
        code == "oil"@ ==> heating_energy_text(code) == Some("fioul"@),
        code == "wood"@ ==> heating_energy_text(code) == Some("bois"@),
        code == "heat_pump"@ ==> heating_energy_text(code) == Some("pompe à chaleur"@),
        code != "gas"@ && code != "electric"@ && code != "fuel"@ && code != "oil"@ && code != "wood"@ && code != "heat_pump"@ ==> heating_energy_text(code) is None,
        code == "north"@ ==> orientation_text(code) == Some("nord"@),
        code == "south"@ ==> orientation_text(code) == Some("sud"@),
        code == "east"@ ==> orientation_text(code) == Some("est"@),
        code == "west"@ ==> orientation_text(code) == Some("ouest"@),
        code == "north_east"@ ==> orientation_text(code) == Some("nord-est"@),
        code == "north_west"@ ==> orientation_text(code) == Some("nord-ouest"@),
        code == "south_east"@ ==> orientation_text(code) == Some("sud-est"@),
        code == "south_west"@ ==> orientation_text(code) == Some("sud-ouest"@),
        code != "north"@ && code != "south"@ && code != "east"@ && code != "west"@ && code != "north_east"@ && code != "north_west"@ && code != "south_east"@ && code != "south_west"@ ==> orientation_text(code) is None,
{
    reveal_strlit("individual");
    reveal_strlit("collective");
    reveal_strlit("gas");
    reveal_strlit("electric");
    reveal_strlit("fuel");
    reveal_strlit("oil");
    reveal_strlit("wood");
    reveal_strlit("heat_pump");
    reveal_strlit("north");
    reveal_strlit("south");
    reveal_strlit("east");
    reveal_strlit("west");
    reveal_strlit("north_east");
    reveal_strlit("north_west");
    reveal_strlit("south_east");
    reveal_strlit("south_west");
    assert("individual"@[0] != "collective"@[0]);
    assert("gas"@.len() != "electric"@.len());
    assert("gas"@.len() != "fuel"@.len());
    assert("gas"@[0] != "oil"@[0]);
    assert("gas"@.len() != "wood"@.len());
    assert("gas"@.len() != "heat_pump"@.len());
    assert("electric"@.len() != "fuel"@.len());
    assert("electric"@.len() != "oil"@.len());
    assert("electric"@.len() != "wood"@.len());
    assert("electric"@.len() != "heat_pump"@.len());
    assert("fuel"@.len() != "oil"@.len());
    assert("fuel"@[0] != "wood"@[0]);
    assert("fuel"@.len() != "heat_pump"@.len());
    assert("oil"@.len() != "wood"@.len());
    assert("oil"@.len() != "heat_pump"@.len());
    assert("wood"@.len() != "heat_pump"@.len());
    assert("north"@[0] != "south"@[0]);
    assert("north"@.len() != "east"@.len());
    assert("north"@.len() != "west"@.len());
    assert("north"@.len() != "north_east"@.len());
    assert("north"@.len() != "north_west"@.len());
    assert("north"@.len() != "south_east"@.len());
    assert("north"@.len() != "south_west"@.len());
    assert("south"@.len() != "east"@.len());
    assert("south"@.len() != "west"@.len());
    assert("south"@.len() != "north_east"@.len());
    assert("south"@.len() != "north_west"@.len());
    assert("south"@.len() != "south_east"@.len());
    assert("south"@.len() != "south_west"@.len());
    assert("east"@[0] != "west"@[0]);
    assert("east"@.len() != "north_east"@.len());
    assert("east"@.len() != "north_west"@.len());
    assert("east"@.len() != "south_east"@.len());
    assert("east"@.len() != "south_west"@.len());
    assert("west"@.len() != "north_east"@.len());
    assert("west"@.len() != "north_west"@.len());
    assert("west"@.len() != "south_east"@.len());
    assert("west"@.len() != "south_west"@.len());
    assert("north_east"@[6] != "north_west"@[6]);
    assert("north_east"@[0] != "south_east"@[0]);
    assert("north_east"@[0] != "south_west"@[0]);
    assert("north_west"@[0] != "south_east"@[0]);
    assert("north_west"@[0] != "south_west"@[0]);
    assert("south_east"@[6] != "south_west"@[6]);
}

/// What the label of a condition says of the work to be done: what is to be
/// renovated comes first, then what is to be refreshed, then what is in order.
pub proof fn law_conditions_tell_the_work(label: Seq<char>)
    ensures
        ({
            let l = lowercase(label);
            let heavy = contains_text(l, "rénov"@) || contains_text(l, "refaire"@) || contains_text(
                l,
                "travaux"@,
            );
            let light = contains_text(l, "rafraîch"@) || contains_text(l, "rafraich"@);
            let fine = contains_text(l, "bon état"@) || contains_text(l, "neuf"@);
            &&& heavy ==> travaux_text(label) == Some("a-prevoir"@)
            &&& !heavy && light ==> travaux_text(label) == Some("rafraichissement"@)
            &&& !heavy && !light && fine ==> travaux_text(label) == Some("aucun"@)
            &&& !heavy && !light && !fine ==> travaux_text(label) is None
        }),
{
}

/// A parking place is known by the number of places, or by the label of the
/// specificities; nothing says that there is none.
pub proof fn law_parking_is_known_by_number_or_label(ad: Tree)
    ensures
        attr_integer(ad, "nb_parkings"@) is Some && attr_integer(ad, "nb_parkings"@)->0 > 0
            ==> parking(ad) == Some(true),
        label_text(ad, "specificities"@) is Some && contains_text(
            lowercase(label_text(ad, "specificities"@)->0),
            "garage"@,
        ) ==> parking(ad) == Some(true),
        label_text(ad, "specificities"@) is Some && contains_text(
            lowercase(label_text(ad, "specificities"@)->0),
            "parking"@,
        ) ==> parking(ad) == Some(true),
        parking(ad) != Some(false),
        parking(ad) == Some(true) ==> (attr_integer(ad, "nb_parkings"@) is Some && attr_integer(
            ad,
            "nb_parkings"@,
        )->0 > 0) || label_text(ad, "specificities"@) is Some,
{
}

/// A month is a twelfth of a year, in cents, what is left over cut off.
pub proof fn law_months_are_twelfths(euros: int)
    ensures
        euros >= 0 ==> 12 * monthly_cents(euros) <= 100 * euros < 12 * monthly_cents(euros) + 12,
        euros < 0 ==> monthly_cents(euros) == -monthly_cents(-euros),
{
}

/// The facts of an ad are those of its attributes, each of its own.
pub proof fn law_facts_come_from_their_attributes(a: ExtractedAttrs, ad: Tree)
    requires
        states(a, ad),
    ensures
        a.annee_construction == attr_integer(ad, "building_year"@),
        a.etage == attr_integer(ad, "floor_number"@),
        attr_integer(ad, "annual_charges"@) is None ==> a.charges_copro_month_cents is None,
        attr_integer(ad, "annual_charges"@) matches Some(y) ==> a.charges_copro_month_cents == Some(
            monthly_cents(y as int) as i64,
        ),
        attr_integer(ad, "property_tax"@) is None ==> a.taxe_fonciere_year_cents is None,
        attr_integer(ad, "property_tax"@) matches Some(e) ==> a.taxe_fonciere_year_cents == Some(
            (e * 100) as i64,
        ),
        attr_text(ad, "elevator"@) is None ==> a.ascenseur is None,
        attr_text(ad, "elevator"@) matches Some(v) ==> a.ascenseur == Some(v == "1"@),
        a.garage_parking == parking(ad),
        attr_text(ad, "heating_type"@) matches Some(c) ==> opt_text(a.chauffage_type)
            == heating_type_text(c),
        attr_text(ad, "heating_mode"@) matches Some(c) ==> opt_text(a.chauffage_energie)
            == heating_energy_text(c),
        attr_text(ad, "orientation"@) matches Some(c) ==> opt_text(a.orientation)
            == orientation_text(c),
        label_text(ad, "global_condition"@) matches Some(l) ==> opt_text(a.travaux)
            == travaux_text(l),
        attr_text(ad, "heating_type"@) is None ==> a.chauffage_type is None,
        attr_text(ad, "heating_mode"@) is None ==> a.chauffage_energie is None,
        attr_text(ad, "orientation"@) is None ==> a.orientation is None,
        label_text(ad, "global_condition"@) is None ==> a.travaux is None,
        a.fibre is None && a.jardin is None && a.piscine is None && a.mitoyenne is None,
        a.notes@.len() == 0,
{
}

/// The photos of an ad are the large ones where it lists any, else the plain
/// ones: every text of the list, in order.
pub proof fn law_photos_are_the_large_ones(ad: Tree, items: Seq<Tree>, t: Tree, s: Seq<char>)
    ensures
        ad.at("images"@).at("urls_large"@) matches Tree::Array(large) ==> photos(ad) == texts_among(
            large,
        ),
        !(ad.at("images"@).at("urls_large"@) is Array) ==> (ad.at("images"@).at("urls"@) matches
            Tree::Array(plain) ==> photos(ad) == texts_among(plain)),
        !(ad.at("images"@).at("urls_large"@) is Array) && !(ad.at("images"@).at("urls"@) is Array)
            ==> photos(ad).len() == 0,
        texts_among(Seq::empty()) == Seq::<Seq<char>>::empty(),
        texts_among(items.push(Tree::Text(s))) == texts_among(items).push(s),
        !(t is Text) ==> texts_among(items.push(t)) == texts_among(items),
{
    let pick = |t: Tree| t is Text;
    let inner = |t: Tree| t->Text_0;
    lemma_filter_push(items, Tree::Text(s), pick);
    lemma_filter_push(items, t, pick);
    assert(items.filter(pick).push(Tree::Text(s)).map_values(inner) =~= items.filter(
        pick,
    ).map_values(inner).push(s));
    assert(Seq::<Tree>::empty().filter(pick) =~= Seq::<Tree>::empty()) by {
        reveal(Seq::filter);
    }
    assert(texts_among(Seq::empty()) =~= Seq::<Seq<char>>::empty());
}

/// The seller is the owner that the ad names, by kind, with the SIREN of the
/// owner, else that of the attributes; nobody where the kind is not one of the
/// two.
pub proof fn law_sellers_are_the_owners(s: Option<Seller>, ad: Tree)
    requires
        sold_by(s, ad),
    ensures
        ad.at("owner"@).at("type"@) == Tree::Text("pro"@) ==> s is Some && s->0.kind
            == SellerKind::Pro,
        ad.at("owner"@).at("type"@) == Tree::Text("private"@) ==> s is Some && s->0.kind
            == SellerKind::Private,
        ad.at("owner"@).at("type"@) != Tree::Text("pro"@) && ad.at("owner"@).at("type"@)
            != Tree::Text("private"@) ==> s is None,
        s is Some ==> opt_text(s->0.name) == ad.at("owner"@).at("name"@).as_text(),
        s is Some && ad.at("owner"@).at("siren"@) is Text ==> opt_text(s->0.siren) == ad.at(
            "owner"@,
        ).at("siren"@).as_text(),
        s is Some && !(ad.at("owner"@).at("siren"@) is Text) ==> opt_text(s->0.siren) == attr_text(
            ad,
            "siren"@,
        ),
{
    reveal_strlit("pro");
    reveal_strlit("private");
    assert("pro"@.len() != "private"@.len());
}

/// A detail has what the ad states: its text, the district, else the city's
/// label, its photos, its seller and its facts.
pub proof fn law_details_have_what_the_ad_states(d: ListingDetail, ad: Tree)
    requires
        details_ad(d, ad),
    ensures
        opt_text(d.description) == ad.at("body"@).as_text(),
        ad.at("location"@).at("district"@) matches Tree::Text(s) ==> opt_text(d.address) == Some(s),
        !(ad.at("location"@).at("district"@) is Text) ==> opt_text(d.address) == ad.at(
            "location"@,
        ).at("city_label"@).as_text(),
        texts(d.image_urls@) == photos(ad),
        sold_by(d.seller, ad),
        states(d.attributes, ad),
{
}

/// A document is an ad exactly where it has an ad number or a text.
pub proof fn law_ads_have_a_number_or_a_text(ad: Tree)
    ensures
        is_ad(ad) <==> ad.at("list_id"@) is Number || ad.at("body"@) is Text,
{
}

/// The number of an ad is the last part of its address, whatever query stands
/// behind and with a slash at the end or without.
pub proof fn law_ad_numbers_end_the_address(
    head: Seq<char>,
    number: Seq<char>,
    c: char,
    rest: Seq<char>,
)
    requires
        !head.contains('?'),
        !head.contains('#'),
        number.len() > 0,
        all_digits(number),
        c == '?' || c == '#',
    ensures
        list_id(head.push('/') + number) == Some(number),
        list_id((head.push('/') + number).push(c) + rest) == Some(number),
        list_id((head.push('/') + number).push('/')) == Some(number),
{
    let s = head.push('/') + number;
    assert forall|k: int| 0 <= k < s.len() implies s[k] != '?' && s[k] != '#' by {
        if k < head.len() {
            assert(head.contains(head[k]));
        } else if k > head.len() {
            assert(s[k] == number[k - head.len() - 1]);
        }
    }
    assert forall|k: int| 0 <= k < number.len() implies number[k] != '/' by {
        assert(crate::text::is_digit(number[k]));
    }
    crate::laws::texts::law_cutting_at_the_first(s, c, rest, '?', '#');
    crate::laws::texts::law_cutting_at_the_first(s.push('/'), c, rest, '?', '#');
    crate::laws::texts::law_cutting_off_the_end(s, '/');
    crate::laws::texts::law_cutting_behind_the_last(head, '/', number);
    assert(s.last() == number.last());
    assert(number.last() != '/');
}

/// Result pages are told apart by their number; the first one has none.
pub proof fn law_pages_are_numbered(location: Seq<char>, page: nat)
    ensures
        page > 1 ==> search_url_text(location, page) == search_url_text(location, 1) + "&page="@
            + decimal(page),
        page <= 1 ==> search_url_text(location, page) == search_url_text(location, 1),
{
}

} // verus!
