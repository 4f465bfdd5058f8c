//! Leboncoin, property sales: searches per location, and reads the JSON that
//! its pages embed: the price in cents, structured attributes (surface, rooms,
//! energy rating, land), city and postal code.
use crate::json::{
    decimal_in, first_element, integer_in, json_document, member, opt_text, owned_text, parse_json,
    text_in, Json, Tree,
};
use crate::listing::{
    Amount, ExtractedAttrs, ListingDetail, PropertyType, RawListing, Seller, SellerKind,
};
use crate::config::LeboncoinConfig;
use crate::normalize::form_text;
use crate::scrape::{location_slug, merged_locations, slug, Crawl};
use crate::text::{
    after_last, all_digits, chars_of, contains_text, cut_after_last, cut_at, decimal, find, has_text,
    is_decimal, lemma_filter_push, lowercase, only_digits, parse_i64, position, push_decimal,
    reads_as_decimal, same_text, string_of, text_to_i64, texts, to_lower, trim_end_char,
    trimmed_end, up_to,
};
use vstd::prelude::*;
use vstd::string::StringExecFns;

verus! {

pub const SOURCE_ID: &'static str = "leboncoin-immo";

pub const SEARCH_URL: &'static str = "https://www.leboncoin.fr/recherche";

/// The JSON endpoint of an ad, which has the ad object at the top level.
pub const DETAIL_API: &'static str = "https://api.leboncoin.fr/finder/classified";

pub const USER_AGENT: &'static str = "Mozilla/5.0 (Windows NT 10.0; Win64; x64) AppleWebKit/537.36 (KHTML, like Gecko) Chrome/126.0.0.0 Safari/537.36";

pub const ACCEPT_LANGUAGE: &'static str = "fr-FR,fr;q=0.9";

pub const ACCEPT: &'static str = "text/html,application/xhtml+xml,application/json;q=0.9,*/*;q=0.8";

// ---------------------------------------------------------------------------
// URLs

/// `url::form_urlencoded::byte_serialize` on the UTF-8 bytes of a text: the text
/// in form encoding.
#[verifier::external_body]
fn form_encoded(text: &str) -> (r: String)
    ensures
        r@ == form_text(text@),
{
    url::form_urlencoded::byte_serialize(text.as_bytes()).collect()
}

/// The URL of a result page: property sales at a location. The first page has
/// no number.
pub open spec fn search_url_text(location: Seq<char>, page: nat) -> Seq<char> {
    let base = SEARCH_URL@ + "?category=9&locations="@ + form_text(slug(location));
    if page <= 1 {
        base
    } else {
        base + "&page="@ + decimal(page)
    }
}

pub fn search_url(location: &str, page: u32) -> (r: String)
    ensures
        r@ == search_url_text(location@, page as nat),
{
    let place = location_slug(location);
    let encoded = form_encoded(place.as_str());
    let mut url = SEARCH_URL.to_owned().concat("?category=9&locations=").concat(encoded.as_str());
    if page > 1 {
        url.append("&page=");
        push_decimal(&mut url, page as u64);
    }
    url
}

/// The arguments for `curl`: silent, failing on errors, following redirects,
/// within thirty seconds, with the headers of a browser.
pub open spec fn curl_arguments(url: Seq<char>) -> Seq<Seq<char>> {
    seq![
        "-sL"@,
        "--fail"@,
        "-m"@,
        "30"@,
        "--compressed"@,
        "-H"@,
        "User-Agent: "@ + USER_AGENT@,
        "-H"@,
        "Accept-Language: "@ + ACCEPT_LANGUAGE@,
        "-H"@,
        "Accept: "@ + ACCEPT@,
        url,
    ]
}

pub fn curl_args(url: &str) -> (r: Vec<String>)
    ensures
        texts(r@) == curl_arguments(url@),
{
    let mut args: Vec<String> = Vec::new();
    args.push("-sL".to_owned());
    args.push("--fail".to_owned());
    args.push("-m".to_owned());
    args.push("30".to_owned());
    args.push("--compressed".to_owned());
    args.push("-H".to_owned());
    args.push("User-Agent: ".to_owned().concat(USER_AGENT));
    args.push("-H".to_owned());
    args.push("Accept-Language: ".to_owned().concat(ACCEPT_LANGUAGE));
    args.push("-H".to_owned());
    args.push("Accept: ".to_owned().concat(ACCEPT));
    args.push(url.to_owned());
    proof {
        assert(texts(args@) =~= curl_arguments(url@));
    }
    args
}

/// How to go on after a request for a page.
#[derive(Debug, Clone, Copy, PartialEq, Eq, Structural)]
pub enum PageStep {
    /// The answer is the page.
    Use,
    /// The request was blocked: ask again through `curl`.
    Curl,
    /// The answer is an error.
    Fail,
}

/// A page was asked for: `status` is the status of the answer, or nothing where
/// there was none. The site blocks in two ways, by 403 or 429 and by dropping
/// the connection.
pub fn after_response(status: Option<u16>) -> (r: PageStep)
    ensures
        r == match status {
            None => PageStep::Curl,
            Some(code) => if code == 403 || code == 429 {
                PageStep::Curl
            } else if 400 <= code < 600 {
                PageStep::Fail
            } else {
                PageStep::Use
            },
        },
{
    match status {
        None => PageStep::Curl,
        Some(code) => if code == 403 || code == 429 {
            PageStep::Curl
        } else if code >= 400 && code < 600 {
            PageStep::Fail
        } else {
            PageStep::Use
        },
    }
}

/// The ad number that a URL ends with: its last path segment, where that is a
/// number.
pub open spec fn list_id(url: Seq<char>) -> Option<Seq<char>> {
    let segment = after_last(trim_end_char(up_to(url, '?', '#'), '/'), '/');
    if segment.len() > 0 && all_digits(segment) {
        Some(segment)
    } else {
        None
    }
}

pub fn list_id_of(url: &str) -> (r: Option<String>)
    ensures
        opt_text(r) == list_id(url@),
{
    let chars = chars_of(url);
    let segment = cut_after_last(trimmed_end(cut_at(chars.as_slice(), '?', '#'), '/'), '/');
    if segment.len() > 0 && only_digits(segment) {
        Some(string_of(segment))
    } else {
        None
    }
}

pub fn detail_api_url(list_id: &str) -> (r: String)
    ensures
        r@ == DETAIL_API@ + "/"@ + list_id@,
{
    DETAIL_API.to_owned().concat("/").concat(list_id)
}

// ---------------------------------------------------------------------------
// Attributes

/// The text under `field` of the first attribute with this key that has one.
pub open spec fn attribute_from(
    items: Seq<Tree>,
    key: Seq<char>,
    field: Seq<char>,
    from: int,
) -> Option<Seq<char>>
    decreases items.len() - from,
{
    if 0 <= from < items.len() {
        let a = items[from];
        if a.at("key"@).as_text() == Some(key) && a.at(field).as_text() is Some {
            a.at(field).as_text()
        } else {
            attribute_from(items, key, field, from + 1)
        }
    } else {
        None
    }
}

/// The value of an ad's attribute.
pub open spec fn attr_text(ad: Tree, key: Seq<char>) -> Option<Seq<char>> {
    attribute_from(ad.at("attributes"@).elements(), key, "value"@, 0)
}

/// The human-readable label of an ad's attribute, whose value is an opaque code.
pub open spec fn label_text(ad: Tree, key: Seq<char>) -> Option<Seq<char>> {
    attribute_from(ad.at("attributes"@).elements(), key, "value_label"@, 0)
}

/// The value of an ad's attribute, where it is an integer.
pub open spec fn attr_integer(ad: Tree, key: Seq<char>) -> Option<i64> {
    match attr_text(ad, key) {
        Some(s) => parse_i64(s),
        None => None,
    }
}

fn attribute<'a>(ad: &'a Json, key: &str, field: &str) -> (r: Option<&'a String>)
    ensures
        match r {
            Some(s) => attribute_from(ad.tree().at("attributes"@).elements(), key@, field@, 0)
                == Some(s@),
            None => attribute_from(ad.tree().at("attributes"@).elements(), key@, field@, 0) is None,
        },
{
    match ad.get("attributes") {
        Some(Json::Array(items)) => {
            let ghost all = ad.tree().at("attributes"@).elements();
            let mut i: usize = 0;
            while i < items.len()
                invariant
                    i <= items@.len(),
                    all == ad.tree().at("attributes"@).elements(),
                    all.len() == items@.len(),
                    forall|k: int| 0 <= k < items@.len() ==> #[trigger] all[k] == items@[k].tree(),
                    attribute_from(all, key@, field@, 0) == attribute_from(
                        all,
                        key@,
                        field@,
                        i as int,
                    ),
                decreases items@.len() - i,
            {
                proof {
                    assert(all[i as int] == items@[i as int].tree());
                }
                let item = Some(&items[i]);
                if let Some(k) = text_in(member(item, "key")) {
                    if same_text(k.as_str(), key) {
                        if let Some(v) = text_in(member(item, field)) {
                            return Some(v);
                        }
                    }
                }
                i = i + 1;
            }
            None
        },
        _ => None,
    }
}

pub fn attr<'a>(ad: &'a Json, key: &str) -> (r: Option<&'a String>)
    ensures
        match r {
            Some(s) => attr_text(ad.tree(), key@) == Some(s@),
            None => attr_text(ad.tree(), key@) is None,
        },
{
    attribute(ad, key, "value")
}

pub fn attr_label<'a>(ad: &'a Json, key: &str) -> (r: Option<&'a String>)
    ensures
        match r {
            Some(s) => label_text(ad.tree(), key@) == Some(s@),
            None => label_text(ad.tree(), key@) is None,
        },
{
    attribute(ad, key, "value_label")
}

pub fn attr_i64(ad: &Json, key: &str) -> (r: Option<i64>)
    ensures
        r == attr_integer(ad.tree(), key@),
{
    match attr(ad, key) {
        Some(s) => text_to_i64(s.as_str()),
        None => None,
    }
}

/// French for the code of a heating type.
pub open spec fn heating_type_text(code: Seq<char>) -> Option<Seq<char>> {
    if code == "individual"@ {
        Some("individuel"@)
    } else if code == "collective"@ {
        Some("collectif"@)
    } else {
        None
    }
}

pub fn heating_type_fr(code: &str) -> (r: Option<String>)
    ensures
        opt_text(r) == heating_type_text(code@),
{
    if same_text(code, "individual") {
        Some("individuel".to_owned())
    } else if same_text(code, "collective") {
        Some("collectif".to_owned())
    } else {
        None
    }
}

/// French for the code of a source of heat.
pub open spec fn heating_energy_text(code: Seq<char>) -> Option<Seq<char>> {
    if code == "gas"@ {
        Some("gaz"@)
    } else if code == "electric"@ {
        Some("electrique"@)
    } else if code == "fuel"@ || code == "oil"@ {
        Some("fioul"@)
    } else if code == "wood"@ {
        Some("bois"@)
    } else if code == "heat_pump"@ {
        Some("pompe à chaleur"@)
    } else {
        None
    }
}

pub fn heating_energy_fr(code: &str) -> (r: Option<String>)
    ensures
        opt_text(r) == heating_energy_text(code@),
{
    if same_text(code, "gas") {
        Some("gaz".to_owned())
    } else if same_text(code, "electric") {
        Some("electrique".to_owned())
    } else if same_text(code, "fuel") || same_text(code, "oil") {
        Some("fioul".to_owned())
    } else if same_text(code, "wood") {
        Some("bois".to_owned())
    } else if same_text(code, "heat_pump") {
        Some("pompe à chaleur".to_owned())
    } else {
        None
    }
}

/// French for the code of a direction.
pub open spec fn orientation_text(code: Seq<char>) -> Option<Seq<char>> {
    if code == "north"@ {
        Some("nord"@)
    } else if code == "south"@ {
        Some("sud"@)
    } else if code == "east"@ {
        Some("est"@)
    } else if code == "west"@ {
        Some("ouest"@)
    } else if code == "north_east"@ {
        Some("nord-est"@)
    } else if code == "north_west"@ {
        Some("nord-ouest"@)
    } else if code == "south_east"@ {
        Some("sud-est"@)
    } else if code == "south_west"@ {
        Some("sud-ouest"@)
    } else {
        None
    }
}

pub fn orientation_fr(code: &str) -> (r: Option<String>)
    ensures
        opt_text(r) == orientation_text(code@),
{
    if same_text(code, "north") {
        Some("nord".to_owned())
    } else if same_text(code, "south") {
        Some("sud".to_owned())
    } else if same_text(code, "east") {
        Some("est".to_owned())
    } else if same_text(code, "west") {
        Some("ouest".to_owned())
    } else if same_text(code, "north_east") {
        Some("nord-est".to_owned())
    } else if same_text(code, "north_west") {
        Some("nord-ouest".to_owned())
    } else if same_text(code, "south_east") {
        Some("sud-est".to_owned())
    } else if same_text(code, "south_west") {
        Some("sud-ouest".to_owned())
    } else {
        None
    }
}

/// What the label of a condition says of the work to be done.
pub open spec fn travaux_text(label: Seq<char>) -> Option<Seq<char>> {
    let l = lowercase(label);
    if contains_text(l, "rénov"@) || contains_text(l, "refaire"@) || contains_text(l, "travaux"@) {
        Some("a-prevoir"@)
    } else if contains_text(l, "rafraîch"@) || contains_text(l, "rafraich"@) {
        Some("rafraichissement"@)
    } else if contains_text(l, "bon état"@) || contains_text(l, "neuf"@) {
        Some("aucun"@)
    } else {
        None
    }
}

pub fn condition_to_travaux(label: &str) -> (r: Option<String>)
    ensures
        opt_text(r) == travaux_text(label@),
{
    let l = to_lower(label);
    let l = l.as_str();
    if has_text(l, "rénov") || has_text(l, "refaire") || has_text(l, "travaux") {
        Some("a-prevoir".to_owned())
    } else if has_text(l, "rafraîch") || has_text(l, "rafraich") {
        Some("rafraichissement".to_owned())
    } else if has_text(l, "bon état") || has_text(l, "neuf") {
        Some("aucun".to_owned())
    } else {
        None
    }
}

/// A garage or a parking place is known to be there: by their number, or by the
/// label of the specificities. Nothing says that there is none.
pub open spec fn parking(ad: Tree) -> Option<bool> {
    if attr_integer(ad, "nb_parkings"@) matches Some(n) && n > 0 {
        Some(true)
    } else {
        match label_text(ad, "specificities"@) {
            Some(l) => if contains_text(lowercase(l), "garage"@) || contains_text(
                lowercase(l),
                "parking"@,
            ) {
                Some(true)
            } else {
                None
            },
            None => None,
        }
    }
}

pub fn garage_parking(ad: &Json) -> (r: Option<bool>)
    ensures
        r == parking(ad.tree()),
{
    if let Some(n) = attr_i64(ad, "nb_parkings") {
        if n > 0 {
            return Some(true);
        }
    }
    match attr_label(ad, "specificities") {
        Some(label) => {
            let l = to_lower(label.as_str());
            if has_text(l.as_str(), "garage") || has_text(l.as_str(), "parking") {
                Some(true)
            } else {
                None
            }
        },
        None => None,
    }
}

/// Cents a month, from euros a year; what is left over is cut off.
pub open spec fn monthly_cents(euros_a_year: int) -> int {
    if euros_a_year >= 0 {
        euros_a_year * 100 / 12
    } else {
        -((-euros_a_year) * 100 / 12)
    }
}

/// The amounts of an ad, in cents, are ones that an `i64` holds.
pub open spec fn amounts_fit(ad: Tree) -> bool {
    &&& attr_integer(ad, "annual_charges"@) matches Some(y) ==> i64::MIN <= y * 100 <= i64::MAX
    &&& attr_integer(ad, "property_tax"@) matches Some(e) ==> i64::MIN <= e * 100 <= i64::MAX
}

/// The facts that an ad states structurally. Facts that only prose states are
/// left unset.
pub open spec fn states(a: ExtractedAttrs, ad: Tree) -> bool {
    &&& a.annee_construction == attr_integer(ad, "building_year"@)
    &&& opt_text(a.travaux) == match label_text(ad, "global_condition"@) {
        Some(l) => travaux_text(l),
        None => None,
    }
    &&& opt_text(a.chauffage_type) == match attr_text(ad, "heating_type"@) {
        Some(c) => heating_type_text(c),
        None => None,
    }
    &&& opt_text(a.chauffage_energie) == match attr_text(ad, "heating_mode"@) {
        Some(c) => heating_energy_text(c),
        None => None,
    }
    &&& a.charges_copro_month_cents == match attr_integer(ad, "annual_charges"@) {
        Some(y) => Some(monthly_cents(y as int) as i64),
        None => None,
    }
    &&& a.taxe_fonciere_year_cents == match attr_integer(ad, "property_tax"@) {
        Some(e) => Some((e * 100) as i64),
        None => None,
    }
    &&& a.etage == attr_integer(ad, "floor_number"@)
    &&& a.ascenseur == match attr_text(ad, "elevator"@) {
        Some(v) => Some(v == "1"@),
        None => None,
    }
    &&& a.garage_parking == parking(ad)
    &&& opt_text(a.orientation) == match attr_text(ad, "orientation"@) {
        Some(c) => orientation_text(c),
        None => None,
    }
    &&& a.fibre is None && a.jardin is None && a.piscine is None && a.mitoyenne is None
    &&& a.notes@.len() == 0
}

/// Do the amounts of an ad fit?
pub fn has_fitting_amounts(ad: &Json) -> (r: bool)
    ensures
        r == amounts_fit(ad.tree()),
{
    let charges_fit: bool = match attr_i64(ad, "annual_charges") {
        Some(y) => fits_hundredfold(y),
        None => true,
    };
    let tax_fits: bool = match attr_i64(ad, "property_tax") {
        Some(e) => fits_hundredfold(e),
        None => true,
    };
    charges_fit && tax_fits
}

fn fits_hundredfold(v: i64) -> (r: bool)
    ensures
        r == (i64::MIN <= v * 100 <= i64::MAX),
{
    v >= -92_233_720_368_547_758 && v <= 92_233_720_368_547_758
}

fn yearly_to_monthly(euros_a_year: i64) -> (r: i64)
    requires
        i64::MIN <= euros_a_year * 100 <= i64::MAX,
    ensures
        r == monthly_cents(euros_a_year as int),
{
    if euros_a_year >= 0 {
        euros_a_year * 100 / 12
    } else {
        -((-euros_a_year) * 100 / 12)
    }
}

/// The facts that an ad states structurally in its attributes: more reliable
/// than what is read out of the prose.
pub fn ad_attributes(ad: &Json) -> (r: ExtractedAttrs)
    requires
        amounts_fit(ad.tree()),
    ensures
        states(r, ad.tree()),
{
    let travaux = match attr_label(ad, "global_condition") {
        Some(l) => condition_to_travaux(l.as_str()),
        None => None,
    };
    let chauffage_type = match attr(ad, "heating_type") {
        Some(c) => heating_type_fr(c.as_str()),
        None => None,
    };
    let chauffage_energie = match attr(ad, "heating_mode") {
        Some(c) => heating_energy_fr(c.as_str()),
        None => None,
    };
    let charges_copro_month_cents = match attr_i64(ad, "annual_charges") {
        Some(y) => Some(yearly_to_monthly(y)),
        None => None,
    };
    let taxe_fonciere_year_cents = match attr_i64(ad, "property_tax") {
        Some(e) => Some(e * 100),
        None => None,
    };
    let ascenseur = match attr(ad, "elevator") {
        Some(v) => Some(same_text(v.as_str(), "1")),
        None => None,
    };
    let orientation = match attr(ad, "orientation") {
        Some(c) => orientation_fr(c.as_str()),
        None => None,
    };
    ExtractedAttrs {
        annee_construction: attr_i64(ad, "building_year"),
        travaux,
        chauffage_type,
        chauffage_energie,
        fibre: None,
        charges_copro_month_cents,
        taxe_fonciere_year_cents,
        etage: attr_i64(ad, "floor_number"),
        ascenseur,
        jardin: None,
        garage_parking: garage_parking(ad),
        piscine: None,
        orientation,
        mitoyenne: None,
        notes: Vec::new(),
    }
}

/// The property type by its code: 1 a house, 2 an apartment, 3 land.
pub open spec fn type_of(ad: Tree) -> PropertyType {
    match attr_text(ad, "real_estate_type"@) {
        Some(c) => if c == "1"@ {
            PropertyType::House
        } else if c == "2"@ {
            PropertyType::Apartment
        } else if c == "3"@ {
            PropertyType::Land
        } else {
            PropertyType::Other
        },
        None => PropertyType::Other,
    }
}

pub fn property_type(ad: &Json) -> (r: PropertyType)
    ensures
        r == type_of(ad.tree()),
{
    match attr(ad, "real_estate_type") {
        Some(c) => if same_text(c.as_str(), "1") {
            PropertyType::House
        } else if same_text(c.as_str(), "2") {
            PropertyType::Apartment
        } else if same_text(c.as_str(), "3") {
            PropertyType::Land
        } else {
            PropertyType::Other
        },
        None => PropertyType::Other,
    }
}

/// The texts among the elements of an array.
pub open spec fn texts_among(items: Seq<Tree>) -> Seq<Seq<char>> {
    items.filter(|t: Tree| t is Text).map_values(|t: Tree| t->Text_0)
}

/// The photos of an ad: the large ones, else the plain ones.
pub open spec fn photos(ad: Tree) -> Seq<Seq<char>> {
    let images = ad.at("images"@);
    if images.at("urls_large"@) is Array {
        texts_among(images.at("urls_large"@).elements())
    } else {
        texts_among(images.at("urls"@).elements())
    }
}

fn collect_texts(items: &Vec<Json>, Ghost(all): Ghost<Seq<Tree>>) -> (r: Vec<String>)
    requires
        all.len() == items@.len(),
        forall|k: int| 0 <= k < items@.len() ==> #[trigger] all[k] == items@[k].tree(),
    ensures
        texts(r@) == texts_among(all),
{
    let mut r: Vec<String> = Vec::new();
    let ghost pick = |t: Tree| t is Text;
    let ghost inner = |t: Tree| t->Text_0;
    let mut i: usize = 0;
    proof {
        reveal(Seq::filter);
        assert(texts(r@) =~= all.take(0).filter(pick).map_values(inner));
    }
    while i < items.len()
        invariant
            i <= items@.len(),
            all.len() == items@.len(),
            forall|k: int| 0 <= k < items@.len() ==> #[trigger] all[k] == items@[k].tree(),
            pick == (|t: Tree| t is Text),
            inner == (|t: Tree| t->Text_0),
            texts(r@) == all.take(i as int).filter(pick).map_values(inner),
        decreases items@.len() - i,
    {
        let ghost t = all[i as int];
        proof {
            lemma_filter_push(all.take(i as int), t, pick);
            assert(all.take(i as int).push(t) =~= all.take(i as int + 1));
            assert(t == items@[i as int].tree());
        }
        if let Json::Text(s) = &items[i] {
            let ghost before = r@;
            r.push(s.clone());
            proof {
                assert(texts(r@) =~= texts(before).push(s@));
                assert(all.take(i as int).filter(pick).push(t).map_values(inner) =~= all.take(
                    i as int,
                ).filter(pick).map_values(inner).push(s@));
            }
        }
        i = i + 1;
    }
    proof {
        assert(all.take(items@.len() as int) =~= all);
    }
    r
}

pub fn image_urls(ad: &Json) -> (r: Vec<String>)
    ensures
        texts(r@) == photos(ad.tree()),
{
    let images = member(Some(ad), "images");
    match member(images, "urls_large") {
        Some(Json::Array(items)) => collect_texts(
            items,
            Ghost(ad.tree().at("images"@).at("urls_large"@).elements()),
        ),
        _ => match member(images, "urls") {
            Some(Json::Array(items)) => collect_texts(
                items,
                Ghost(ad.tree().at("images"@).at("urls"@).elements()),
            ),
            _ => {
                proof {
                    reveal(Seq::filter);
                    assert(texts_among(Seq::<Tree>::empty()) =~= Seq::<Seq<char>>::empty());
                    assert(texts(Seq::<String>::empty()) =~= Seq::<Seq<char>>::empty());
                }
                Vec::new()
            },
        },
    }
}

/// The seller that an ad names: nobody where the kind of owner is unknown. The
/// SIREN is the owner's, else the one among the attributes.
pub open spec fn sold_by(s: Option<Seller>, ad: Tree) -> bool {
    let owner = ad.at("owner"@);
    let kind = owner.at("type"@).as_text();
    if kind == Some("pro"@) || kind == Some("private"@) {
        &&& s is Some
        &&& s->0.kind == if kind == Some("pro"@) {
            SellerKind::Pro
        } else {
            SellerKind::Private
        }
        &&& opt_text(s->0.name) == owner.at("name"@).as_text()
        &&& opt_text(s->0.siren) == if owner.at("siren"@).as_text() is Some {
            owner.at("siren"@).as_text()
        } else {
            attr_text(ad, "siren"@)
        }
    } else {
        s is None
    }
}

pub fn seller(ad: &Json) -> (r: Option<Seller>)
    ensures
        sold_by(r, ad.tree()),
{
    let owner = member(Some(ad), "owner");
    let kind = match text_in(member(owner, "type")) {
        Some(k) => if same_text(k.as_str(), "pro") {
            SellerKind::Pro
        } else if same_text(k.as_str(), "private") {
            proof {
                reveal_strlit("pro");
                reveal_strlit("private");
                assert("pro"@.len() != "private"@.len());
            }
            SellerKind::Private
        } else {
            return None;
        },
        None => {
            return None;
        },
    };
    let siren = match owned_text(member(owner, "siren")) {
        Some(s) => Some(s),
        None => match attr(ad, "siren") {
            Some(s) => Some(s.clone()),
            None => None,
        },
    };
    Some(Seller { kind, name: owned_text(member(owner, "name")), siren })
}

// ---------------------------------------------------------------------------
// Pages

/// The JSON text that a page embeds, or why it has none.
pub open spec fn next_data_text(html: Seq<char>) -> Result<Seq<char>, Seq<char>> {
    match find(html, "<script id=\"__NEXT_DATA__\""@) {
        None => Err("__NEXT_DATA__ not found (blocked page or new layout)"@),
        Some(start) => {
            let tag = html.skip(start);
            match find(tag, ">"@) {
                None => Err("malformed __NEXT_DATA__ tag"@),
                Some(i) => {
                    let body = tag.skip(i + 1);
                    match find(body, "</script>"@) {
                        None => Err("unterminated __NEXT_DATA__ tag"@),
                        Some(end) => Ok(body.take(end)),
                    }
                },
            }
        },
    }
}

/// The document that a page embeds, or what is wrong with it.
pub open spec fn embedded(html: Seq<char>) -> Result<Tree, Seq<char>> {
    match next_data_text(html) {
        Ok(text) => json_document(text),
        Err(why) => Err(why),
    }
}

/// The JSON that a page embeds. A page without it is blocked or has a new
/// layout.
pub fn next_data(html: &str) -> (r: Result<Json, String>)
    ensures
        match r {
            Ok(j) => embedded(html@) == Ok::<Tree, Seq<char>>(j.tree()),
            Err(why) => embedded(html@) == Err::<Tree, Seq<char>>(why@),
        },
{
    let chars = chars_of(html);
    let all = chars.as_slice();
    let tag_open = chars_of("<script id=\"__NEXT_DATA__\"");
    let bracket = chars_of(">");
    let tag_close = chars_of("</script>");
    let start: usize = match position(all, tag_open.as_slice()) {
        Some(i) => i,
        None => {
            return Err("__NEXT_DATA__ not found (blocked page or new layout)".to_owned());
        },
    };
    let tag = vstd::slice::slice_subrange(all, start, all.len());
    proof {
        assert(tag@ =~= html@.skip(start as int));
        reveal_strlit(">");
    }
    let i: usize = match position(tag, bracket.as_slice()) {
        Some(i) => i,
        None => {
            return Err("malformed __NEXT_DATA__ tag".to_owned());
        },
    };
    let body = vstd::slice::slice_subrange(tag, i + 1, tag.len());
    proof {
        assert(body@ =~= tag@.skip(i as int + 1));
    }
    let end: usize = match position(body, tag_close.as_slice()) {
        Some(e) => e,
        None => {
            return Err("unterminated __NEXT_DATA__ tag".to_owned());
        },
    };
    let text = string_of(vstd::slice::slice_subrange(body, 0, end));
    proof {
        assert(text@ =~= body@.take(end as int));
    }
    parse_json(text.as_str())
}

/// The price of an ad: in cents, else in euros.
pub open spec fn priced(price: Amount, ad: Tree) -> bool {
    match ad.at("price_cents"@).as_integer() {
        Some(c) => price == Amount::Cents(c),
        None => price is Euros && Some(price->Euros_0@) == ad.at(
            "price"@,
        ).head().number_text(),
    }
}

/// An ad that makes a listing: active, with a title, a URL and a price.
pub open spec fn listable(ad: Tree) -> bool {
    &&& ad.at("status"@).as_text() is None || ad.at("status"@).as_text() == Some("active"@)
    &&& ad.at("subject"@).as_text() is Some
    &&& ad.at("url"@).as_text() is Some
    &&& ad.at("price_cents"@).as_integer() is Some || ad.at(
        "price"@,
    ).head().number_text() is Some
}

/// The value of an attribute, where it reads as a number.
pub open spec fn attr_decimal(ad: Tree, key: Seq<char>) -> Option<Seq<char>> {
    match attr_text(ad, key) {
        Some(s) => if is_decimal(s) {
            Some(s)
        } else {
            None
        },
        None => None,
    }
}

/// A rating from A to G, in lower case.
pub open spec fn rating(text: Option<Seq<char>>) -> Option<Seq<char>> {
    match text {
        Some(s) => if seq!["a"@, "b"@, "c"@, "d"@, "e"@, "f"@, "g"@].contains(lowercase(s)) {
            Some(lowercase(s))
        } else {
            None
        },
        None => None,
    }
}

/// The raw listing that an ad makes.
pub open spec fn lists_ad(raw: RawListing, ad: Tree) -> bool {
    let place = ad.at("location"@);
    &&& raw.source_id@ == SOURCE_ID@
    &&& Some(raw.url@) == ad.at("url"@).as_text()
    &&& Some(raw.title@) == ad.at("subject"@).as_text()
    &&& priced(raw.price, ad)
    &&& raw.property_type == type_of(ad)
    &&& opt_text(raw.surface_m2) == attr_decimal(ad, "square"@)
    &&& raw.rooms == attr_integer(ad, "rooms"@)
    &&& raw.bedrooms == attr_integer(ad, "bedrooms"@)
    &&& opt_text(raw.land_m2) == attr_decimal(ad, "land_plot_surface"@)
    &&& opt_text(raw.commune) == place.at("city"@).as_text()
    &&& opt_text(raw.postal_code) == place.at("zipcode"@).as_text()
    &&& opt_text(raw.lat) == place.at("lat"@).number_text()
    &&& opt_text(raw.lng) == place.at("lng"@).number_text()
    &&& opt_text(raw.dpe) == rating(attr_text(ad, "energy_rate"@))
    &&& opt_text(raw.ges) == rating(attr_text(ad, "ges"@))
    &&& opt_text(raw.sell_type) == attr_text(ad, "immo_sell_type"@)
    &&& opt_text(raw.description) == ad.at("body"@).as_text()
    &&& raw.address is None
    &&& texts(raw.image_urls@) == photos(ad)
    &&& sold_by(raw.seller, ad)
}

fn owned_attr(ad: &Json, key: &str) -> (r: Option<String>)
    ensures
        opt_text(r) == attr_text(ad.tree(), key@),
{
    match attr(ad, key) {
        Some(s) => Some(s.clone()),
        None => None,
    }
}

fn decimal_attr(ad: &Json, key: &str) -> (r: Option<String>)
    ensures
        opt_text(r) == attr_decimal(ad.tree(), key@),
{
    match attr(ad, key) {
        Some(s) => if reads_as_decimal(s.as_str()) {
            Some(s.clone())
        } else {
            None
        },
        None => None,
    }
}

fn rating_attr(ad: &Json, key: &str) -> (r: Option<String>)
    ensures
        opt_text(r) == rating(attr_text(ad.tree(), key@)),
{
    match attr(ad, key) {
        Some(s) => {
            let l = to_lower(s.as_str());
            let grades = seven_grades();
            if crate::text::lists(&grades, l.as_str()) {
                Some(l)
            } else {
                None
            }
        },
        None => None,
    }
}

fn seven_grades() -> (r: Vec<String>)
    ensures
        texts(r@) == seq!["a"@, "b"@, "c"@, "d"@, "e"@, "f"@, "g"@],
{
    let mut r: Vec<String> = Vec::new();
    r.push("a".to_owned());
    r.push("b".to_owned());
    r.push("c".to_owned());
    r.push("d".to_owned());
    r.push("e".to_owned());
    r.push("f".to_owned());
    r.push("g".to_owned());
    proof {
        assert(texts(r@) =~= seq!["a"@, "b"@, "c"@, "d"@, "e"@, "f"@, "g"@]);
    }
    r
}

/// The raw listing that an ad makes, if it makes one.
pub fn ad_to_listing(ad: &Json) -> (r: Option<RawListing>)
    ensures
        match r {
            Some(raw) => listable(ad.tree()) && lists_ad(raw, ad.tree()),
            None => !listable(ad.tree()),
        },
{
    let here = Some(ad);
    if let Some(status) = text_in(member(here, "status")) {
        if !same_text(status.as_str(), "active") {
            return None;
        }
    }
    let title = match owned_text(member(here, "subject")) {
        Some(t) => t,
        None => {
            return None;
        },
    };
    let url = match owned_text(member(here, "url")) {
        Some(u) => u,
        None => {
            return None;
        },
    };
    let price = match integer_in(member(here, "price_cents")) {
        Some(c) => Amount::Cents(c),
        None => match decimal_in(first_element(member(here, "price"))) {
            Some(t) => Amount::Euros(t),
            None => {
                return None;
            },
        },
    };
    let place = member(here, "location");
    Some(
        RawListing {
            source_id: SOURCE_ID.to_owned(),
            url,
            title,
            price,
            property_type: property_type(ad),
            surface_m2: decimal_attr(ad, "square"),
            rooms: attr_i64(ad, "rooms"),
            bedrooms: attr_i64(ad, "bedrooms"),
            land_m2: decimal_attr(ad, "land_plot_surface"),
            commune: owned_text(member(place, "city")),
            postal_code: owned_text(member(place, "zipcode")),
            lat: decimal_in(member(place, "lat")),
            lng: decimal_in(member(place, "lng")),
            dpe: rating_attr(ad, "energy_rate"),
            ges: rating_attr(ad, "ges"),
            sell_type: owned_attr(ad, "immo_sell_type"),
            description: owned_text(member(here, "body")),
            address: None,
            image_urls: image_urls(ad),
            seller: seller(ad),
        },
    )
}

/// The ads of a result page; none where the page has no list of them.
pub open spec fn ads_in(data: Tree) -> Seq<Tree> {
    data.at("props"@).at("pageProps"@).at("searchData"@).at("ads"@).elements()
}

/// The listings are those of the ads that make one, in order.
pub open spec fn lists_ads(listings: Seq<RawListing>, ads: Seq<Tree>) -> bool {
    let kept = ads.filter(|ad: Tree| listable(ad));
    listings.len() == kept.len() && forall|i: int|
        0 <= i < listings.len() ==> lists_ad(#[trigger] listings[i], kept[i])
}

/// The listings of a page's document.
pub fn listings_in(data: &Json) -> (r: Vec<RawListing>)
    ensures
        lists_ads(r@, ads_in(data.tree())),
{
    let mut listings: Vec<RawListing> = Vec::new();
    let ghost pick = |ad: Tree| listable(ad);
    let results = member(member(member(Some(data), "props"), "pageProps"), "searchData");
    match member(results, "ads") {
        Some(Json::Array(ads)) => {
            let ghost all = ads_in(data.tree());
            let mut i: usize = 0;
            proof {
                reveal(Seq::filter);
                assert(all.take(0).filter(pick) =~= Seq::<Tree>::empty());
            }
            while i < ads.len()
                invariant
                    i <= ads@.len(),
                    all.len() == ads@.len(),
                    forall|k: int| 0 <= k < ads@.len() ==> #[trigger] all[k] == ads@[k].tree(),
                    pick == (|ad: Tree| listable(ad)),
                    listings@.len() == all.take(i as int).filter(pick).len(),
                    forall|k: int|
                        0 <= k < listings@.len() ==> lists_ad(
                            #[trigger] listings@[k],
                            all.take(i as int).filter(pick)[k],
                        ),
                decreases ads@.len() - i,
            {
                let ghost ad = all[i as int];
                proof {
                    lemma_filter_push(all.take(i as int), ad, pick);
                    assert(all.take(i as int).push(ad) =~= all.take(i as int + 1));
                    assert(ad == ads@[i as int].tree());
                }
                if let Some(raw) = ad_to_listing(&ads[i]) {
                    listings.push(raw);
                }
                i = i + 1;
            }
            proof {
                assert(all.take(ads@.len() as int) =~= all);
            }
        },
        _ => {
            proof {
                reveal(Seq::filter);
                assert(ads_in(data.tree()).filter(pick) =~= Seq::<Tree>::empty());
            }
        },
    }
    listings
}

/// The listings of a result page. A page without ads has none; a page without
/// the embedded JSON is an error, so that it is not taken for an empty one.
pub fn parse_search_page(html: &str) -> (r: Result<Vec<RawListing>, String>)
    ensures
        match embedded(html@) {
            Ok(data) => r is Ok && lists_ads(r->Ok_0@, ads_in(data)),
            Err(why) => r is Err && r->Err_0@ == why,
        },
{
    match next_data(html) {
        Ok(data) => Ok(listings_in(&data)),
        Err(why) => Err(why),
    }
}

/// The detail of an ad. The district is the finest address that there is.
pub open spec fn details_ad(d: ListingDetail, ad: Tree) -> bool {
    let place = ad.at("location"@);
    &&& opt_text(d.description) == ad.at("body"@).as_text()
    &&& opt_text(d.address) == if place.at("district"@).as_text() is Some {
        place.at("district"@).as_text()
    } else {
        place.at("city_label"@).as_text()
    }
    &&& texts(d.image_urls@) == photos(ad)
    &&& sold_by(d.seller, ad)
    &&& states(d.attributes, ad)
}

pub fn ad_detail(ad: &Json) -> (r: ListingDetail)
    requires
        amounts_fit(ad.tree()),
    ensures
        details_ad(r, ad.tree()),
{
    let place = member(Some(ad), "location");
    let address = match owned_text(member(place, "district")) {
        Some(d) => Some(d),
        None => owned_text(member(place, "city_label")),
    };
    ListingDetail {
        description: owned_text(member(Some(ad), "body")),
        address,
        image_urls: image_urls(ad),
        seller: seller(ad),
        attributes: ad_attributes(ad),
    }
}

/// The document is an ad: it has an ad number or a body.
pub open spec fn is_ad(ad: Tree) -> bool {
    ad.at("list_id"@) is Number || ad.at("body"@) is Text
}

/// Is the document an ad, and not an error or the answer to a blocked request?
pub fn looks_like_ad(ad: &Json) -> (r: bool)
    ensures
        r == is_ad(ad.tree()),
{
    let numbered = match member(Some(ad), "list_id") {
        Some(Json::Number(_)) => true,
        _ => false,
    };
    numbered || text_in(member(Some(ad), "body")).is_some()
}

/// The detail of the ad whose JSON this is. What is no ad is an error, so that
/// it is not stored as an empty detail.
pub fn parse_ad_json(body: &str) -> (r: Result<ListingDetail, String>)
    requires
        json_document(body@) matches Ok(ad) ==> amounts_fit(ad),
    ensures
        match json_document(body@) {
            Err(why) => r is Err && r->Err_0@ == why,
            Ok(ad) => if is_ad(ad) {
                r is Ok && details_ad(r->Ok_0, ad)
            } else {
                r is Err && r->Err_0@ == "not a finder ad payload (blocked or unexpected shape)"@
            },
        },
{
    let ad = match parse_json(body) {
        Ok(ad) => ad,
        Err(why) => {
            return Err(why);
        },
    };
    if !looks_like_ad(&ad) {
        return Err("not a finder ad payload (blocked or unexpected shape)".to_owned());
    }
    Ok(ad_detail(&ad))
}

/// `parse_ad_json` for any text: nothing where the ad states an amount that does
/// not fit.
pub fn parse_fitting_ad_json(body: &str) -> (r: Option<Result<ListingDetail, String>>)
    ensures
        match json_document(body@) {
            Err(why) => r is Some && r->0 is Err && r->0->Err_0@ == why,
            Ok(ad) => if !amounts_fit(ad) {
                r is None
            } else if is_ad(ad) {
                r is Some && r->0 is Ok && details_ad(r->0->Ok_0, ad)
            } else {
                r is Some && r->0 is Err && r->0->Err_0@
                    == "not a finder ad payload (blocked or unexpected shape)"@
            },
        },
{
    match parse_json(body) {
        Ok(ad) => if has_fitting_amounts(&ad) {
            Some(parse_ad_json(body))
        } else {
            None
        },
        Err(why) => Some(Err(why)),
    }
}

/// The source: what it fetches, and how it reads it.
pub struct LeboncoinSource {
    pub config: LeboncoinConfig,
}

impl LeboncoinSource {
    pub fn new(config: LeboncoinConfig) -> (r: LeboncoinSource)
        ensures
            r.config == config,
    {
        LeboncoinSource { config }
    }

    /// One full fetch: the configured locations and those of the searches. A
    /// full page has 35 ads.
    pub fn crawl(&self, extra: &Vec<String>) -> (r: Crawl)
        ensures
            r.wf(),
            texts(r.locations@) == merged_locations(
                texts(self.config.locations@),
                texts(extra@),
            ),
            r.pages == if self.config.pages_per_location < 1 {
                1
            } else {
                self.config.pages_per_location
            },
            r.full_page == 35,
            r.location == 0,
            r.page == 1,
            r.listings@.len() == 0,
    {
        Crawl::new(&self.config.locations, extra, self.config.pages_per_location, 35)
    }
}

} // verus!
