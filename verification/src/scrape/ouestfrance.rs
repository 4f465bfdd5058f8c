//! Ouest France Immo. The site is closed to plain clients, so its pages come
//! through an external command that renders them. What is read are their
//! schema.org JSON-LD blocks.
use crate::config::OuestFranceConfig;
use crate::json::{
    decimal_in, integer_in, json_document, member, opt_text, owned_text, parse_json, text_in, Json,
    Tree,
};
use crate::listing::{Amount, PropertyType, RawListing};
use crate::scrape::{is_postal_code, looks_like_postal_code, merged_locations, Crawl};
use crate::text::{
    chars_of, contains_text, find, has_text, is_decimal, join, joined, lemma_find_is_first,
    lowercase, position, reads_as_decimal, replace, replaced, same_text, string_of, swap_char,
    swapped_char, texts, to_lower, trim, trim_text, words, words_of,
};
use vstd::prelude::*;
use vstd::string::StringExecFns;

verus! {

pub const SOURCE_ID: &'static str = "ouestfrance-immo";

// ---------------------------------------------------------------------------
// URLs

/// The `ville-dep-cp` form of a location: the words of the name in lower case,
/// and where the last word is a postal code, the department and the code.
pub open spec fn slug(raw: Seq<char>) -> Seq<char> {
    let all = words(swap_char(lowercase(trim(raw)), '_', ' '));
    if all.len() > 0 && is_postal_code(all.last()) {
        join(all.drop_last(), "-"@) + "-"@ + all.last().take(2) + "-"@ + all.last()
    } else {
        join(all, "-"@)
    }
}

/// "Rennes 35000" in the form that the site uses ("rennes-35-35000").
pub fn location_slug(raw: &str) -> (r: String)
    ensures
        r@ == slug(raw@),
{
    let trimmed = trim_text(raw);
    let lowered = to_lower(trimmed.as_str());
    let spaced = swapped_char(lowered.as_str(), '_', ' ');
    let mut list = words_of(spaced.as_str());
    let ghost all = texts(list@);
    if list.len() > 0 && looks_like_postal_code(list[list.len() - 1].as_str()) {
        proof {
            assert(all.last() == list@.last()@);
        }
        let code = match list.pop() {
            Some(c) => c,
            None => {
                return String::new();
            },
        };
        proof {
            assert(texts(list@) =~= all.drop_last());
        }
        let city = joined(&list, "-");
        let digits = chars_of(code.as_str());
        let dep = string_of(vstd::slice::slice_subrange(digits.as_slice(), 0, 2));
        proof {
            assert(dep@ =~= all.last().take(2));
        }
        city.concat("-").concat(dep.as_str()).concat("-").concat(code.as_str())
    } else {
        proof {
            if all.len() > 0 {
                assert(all.last() == list@.last()@);
            }
        }
        joined(&list, "-")
    }
}

pub open spec fn search_url_text(location: Seq<char>) -> Seq<char> {
    "https://www.ouestfrance-immo.com/acheter/"@ + slug(location) + "/"@
}

pub fn search_url(location: &str) -> (r: String)
    ensures
        r@ == search_url_text(location@),
{
    let place = location_slug(location);
    "https://www.ouestfrance-immo.com/acheter/".to_owned().concat(place.as_str()).concat("/")
}

// ---------------------------------------------------------------------------
// Offers

/// The types of schema.org items that are offers.
pub open spec fn is_offer_type(ty: Seq<char>) -> bool {
    ty == "Product"@ || ty == "Offer"@ || ty == "House"@ || ty == "Apartment"@ || ty
        == "SingleFamilyResidence"@
}

/// The URL of an item: its own, else that of its offers.
pub open spec fn offer_url(v: Tree) -> Option<Seq<char>> {
    if v.at("url"@).as_text() is Some {
        v.at("url"@).as_text()
    } else {
        v.at("offers"@).at("url"@).as_text()
    }
}

/// The price of an item in euros, as decimal text: that of its offers, as a
/// number or as text that reads as one, else its own.
pub open spec fn offer_price(v: Tree) -> Option<Seq<char>> {
    let stated = v.at("offers"@).at("price"@);
    if stated is Number {
        stated.number_text()
    } else if stated.as_text() matches Some(s) && is_decimal(s) {
        stated.as_text()
    } else {
        v.at("price"@).number_text()
    }
}

/// An item that makes a listing: of the right type, with a name, a URL and a
/// price.
pub open spec fn is_offer(v: Tree) -> bool {
    &&& v.at("@type"@).as_text() matches Some(ty) && is_offer_type(ty)
    &&& v.at("name"@).as_text() is Some
    &&& offer_url(v) is Some
    &&& offer_price(v) is Some
}

/// The property type of an item: by its type, else by its name.
pub open spec fn offer_property_type(ty: Seq<char>, name: Seq<char>) -> PropertyType {
    let n = lowercase(name);
    if ty == "House"@ || ty == "SingleFamilyResidence"@ {
        PropertyType::House
    } else if ty == "Apartment"@ {
        PropertyType::Apartment
    } else if contains_text(n, "maison"@) {
        PropertyType::House
    } else if contains_text(n, "appartement"@) {
        PropertyType::Apartment
    } else if contains_text(n, "terrain"@) {
        PropertyType::Land
    } else {
        PropertyType::Other
    }
}

/// The raw listing that an item makes.
pub open spec fn lists_offer(raw: RawListing, v: Tree) -> bool {
    let place = v.at("address"@);
    &&& raw.source_id@ == SOURCE_ID@
    &&& Some(raw.url@) == offer_url(v)
    &&& Some(raw.title@) == v.at("name"@).as_text()
    &&& raw.price is Euros && Some(raw.price->Euros_0@) == offer_price(v)
    &&& raw.property_type == offer_property_type(
        v.at("@type"@).as_text()->0,
        v.at("name"@).as_text()->0,
    )
    &&& opt_text(raw.surface_m2) == v.at("floorSize"@).at("value"@).number_text()
    &&& raw.rooms == v.at("numberOfRooms"@).as_integer()
    &&& raw.bedrooms is None
    &&& raw.land_m2 is None
    &&& opt_text(raw.commune) == place.at("addressLocality"@).as_text()
    &&& opt_text(raw.postal_code) == place.at("postalCode"@).as_text()
    &&& raw.lat is None && raw.lng is None
    &&& raw.dpe is None && raw.ges is None && raw.sell_type is None
    &&& raw.description is None && raw.address is None
    &&& raw.image_urls@.len() == 0
    &&& raw.seller is None
}

fn offer_type_known(ty: &str) -> (r: bool)
    ensures
        r == is_offer_type(ty@),
{
    same_text(ty, "Product") || same_text(ty, "Offer") || same_text(ty, "House") || same_text(
        ty,
        "Apartment",
    ) || same_text(ty, "SingleFamilyResidence")
}

fn price_of_offer(v: &Json) -> (r: Option<String>)
    ensures
        opt_text(r) == offer_price(v.tree()),
{
    let stated = member(member(Some(v), "offers"), "price");
    if let Some(t) = decimal_in(stated) {
        return Some(t);
    }
    if let Some(s) = text_in(stated) {
        if reads_as_decimal(s.as_str()) {
            return Some(s.clone());
        }
    }
    decimal_in(member(Some(v), "price"))
}

fn kind_of_property(ty: &str, name: &str) -> (r: PropertyType)
    ensures
        r == offer_property_type(ty@, name@),
{
    let n = to_lower(name);
    if same_text(ty, "House") || same_text(ty, "SingleFamilyResidence") {
        PropertyType::House
    } else if same_text(ty, "Apartment") {
        PropertyType::Apartment
    } else if has_text(n.as_str(), "maison") {
        PropertyType::House
    } else if has_text(n.as_str(), "appartement") {
        PropertyType::Apartment
    } else if has_text(n.as_str(), "terrain") {
        PropertyType::Land
    } else {
        PropertyType::Other
    }
}

/// The raw listing that an item makes, if it makes one.
pub fn offer_to_listing(v: &Json) -> (r: Option<RawListing>)
    ensures
        match r {
            Some(raw) => is_offer(v.tree()) && lists_offer(raw, v.tree()),
            None => !is_offer(v.tree()),
        },
{
    let here = Some(v);
    let ty = match text_in(member(here, "@type")) {
        Some(t) => t,
        None => {
            return None;
        },
    };
    if !offer_type_known(ty.as_str()) {
        return None;
    }
    let name = match owned_text(member(here, "name")) {
        Some(n) => n,
        None => {
            return None;
        },
    };
    let url = match owned_text(member(here, "url")) {
        Some(u) => u,
        None => match owned_text(member(member(here, "offers"), "url")) {
            Some(u) => u,
            None => {
                return None;
            },
        },
    };
    let price = match price_of_offer(v) {
        Some(p) => p,
        None => {
            return None;
        },
    };
    let property_type = kind_of_property(ty.as_str(), name.as_str());
    let place = member(here, "address");
    Some(
        RawListing {
            source_id: SOURCE_ID.to_owned(),
            url,
            title: name,
            price: Amount::Euros(price),
            property_type,
            surface_m2: decimal_in(member(member(here, "floorSize"), "value")),
            rooms: integer_in(member(here, "numberOfRooms")),
            bedrooms: None,
            land_m2: None,
            commune: owned_text(member(place, "addressLocality")),
            postal_code: owned_text(member(place, "postalCode")),
            lat: None,
            lng: None,
            dpe: None,
            ges: None,
            sell_type: None,
            description: None,
            address: None,
            image_urls: Vec::new(),
            seller: None,
        },
    )
}

/// The offers in a document, in the order they are met: an array's elements one
/// after the other; an object itself, then what it has under the keys that nest
/// items.
pub open spec fn offers_in(v: Tree) -> Seq<Tree>
    decreases v, 0nat,
{
    match v {
        Tree::Array(items) => offers_among(items, items.len()),
        Tree::Object(entries) => {
            let own = if is_offer(v) {
                seq![v]
            } else {
                Seq::empty()
            };
            let i = crate::json::key_index(entries, "itemListElement"@, 0);
            let listed = if 0 <= i < entries.len() {
                offers_in(entries[i].1)
            } else {
                Seq::empty()
            };
            let j = crate::json::key_index(entries, "@graph"@, 0);
            let graph = if 0 <= j < entries.len() {
                offers_in(entries[j].1)
            } else {
                Seq::empty()
            };
            let k = crate::json::key_index(entries, "item"@, 0);
            let item = if 0 <= k < entries.len() {
                offers_in(entries[k].1)
            } else {
                Seq::empty()
            };
            own + listed + graph + item
        },
        _ => Seq::empty(),
    }
}

/// The offers in the first `n` of some documents.
pub open spec fn offers_among(items: Seq<Tree>, n: nat) -> Seq<Tree>
    decreases items, n,
{
    if n == 0 || n > items.len() {
        Seq::empty()
    } else {
        offers_among(items, (n - 1) as nat) + offers_in(items[n - 1])
    }
}

/// The listings are those of the offers, in order.
pub open spec fn lists_offers(listings: Seq<RawListing>, offers: Seq<Tree>) -> bool {
    listings.len() == offers.len() && forall|i: int|
        0 <= i < listings.len() ==> lists_offer(#[trigger] listings[i], offers[i])
}

/// Appends the listings of the offers in a document.
fn collect_into(v: &Json, out: &mut Vec<RawListing>, Ghost(met): Ghost<Seq<Tree>>)
    requires
        lists_offers(old(out)@, met),
    ensures
        lists_offers(final(out)@, met + offers_in(v.tree())),
    decreases v.tree(), 1nat,
{
    let ghost whole = v.tree();
    match v {
        Json::Array(items) => {
            let ghost all = whole->Array_0;
            let mut i: usize = 0;
            proof {
                assert(met + offers_among(all, 0) =~= met);
            }
            while i < items.len()
                invariant
                    i <= items@.len(),
                    whole == v.tree(),
                    whole == Tree::Array(all),
                    all.len() == items@.len(),
                    forall|k: int| 0 <= k < items@.len() ==> #[trigger] all[k] == items@[k].tree(),
                    lists_offers(out@, met + offers_among(all, i as nat)),
                decreases items@.len() - i,
            {
                proof {
                    assert(all[i as int] == items@[i as int].tree());
                    assert(decreases_to!(whole => whole->Array_0));
                    assert(decreases_to!(all => all[i as int]));
                    assert(met + offers_among(all, i as nat) + offers_in(all[i as int]) =~= met
                        + offers_among(all, (i + 1) as nat));
                }
                collect_into(&items[i], out, Ghost(met + offers_among(all, i as nat)));
                i = i + 1;
            }
        },
        Json::Object(entries) => {
            let ghost all = whole->Object_0;
            let ghost own = if is_offer(whole) {
                seq![whole]
            } else {
                Seq::empty()
            };
            if let Some(raw) = offer_to_listing(v) {
                out.push(raw);
            }
            let ghost listed = member_offers(whole, "itemListElement"@);
            let ghost graph = member_offers(whole, "@graph"@);
            let ghost item = member_offers(whole, "item"@);
            proof {
                assert(lists_offers(out@, met + own));
            }
            collect_member(v, "itemListElement", out, Ghost(met + own));
            collect_member(v, "@graph", out, Ghost(met + own + listed));
            collect_member(v, "item", out, Ghost(met + own + listed + graph));
            proof {
                assert(met + own + listed + graph + item =~= met + offers_in(whole));
            }
        },
        _ => {
            proof {
                assert(met + offers_in(whole) =~= met);
            }
        },
    }
}

/// The offers in what an object has under a key.
pub open spec fn member_offers(v: Tree, key: Seq<char>) -> Seq<Tree> {
    match v.get(key) {
        Some(t) => offers_in(t),
        None => Seq::empty(),
    }
}

/// Appends the listings of the offers in what an object has under a key.
fn collect_member(v: &Json, key: &str, out: &mut Vec<RawListing>, Ghost(met): Ghost<Seq<Tree>>)
    requires
        lists_offers(old(out)@, met),
    ensures
        lists_offers(final(out)@, met + member_offers(v.tree(), key@)),
    decreases v.tree(), 0nat,
{
    let ghost whole = v.tree();
    match v.get(key) {
        Some(inner) => {
            proof {
                let entries = whole->Object_0;
                let i = crate::json::key_index(entries, key@, 0);
                assert(decreases_to!(whole => whole->Object_0));
                assert(decreases_to!(entries => entries[i]));
                assert(decreases_to!(entries[i] => entries[i].1));
                assert(inner.tree() == entries[i].1);
            }
            collect_into(inner, out, Ghost(met));
        },
        None => {
            proof {
                assert(met + member_offers(whole, key@) =~= met);
            }
        },
    }
}

/// The listings of the offers in a document.
pub fn collect_offers(v: &Json) -> (r: Vec<RawListing>)
    ensures
        lists_offers(r@, offers_in(v.tree())),
{
    let mut out: Vec<RawListing> = Vec::new();
    collect_into(v, &mut out, Ghost(Seq::empty()));
    proof {
        assert(Seq::<Tree>::empty() + offers_in(v.tree()) =~= offers_in(v.tree()));
    }
    out
}

// ---------------------------------------------------------------------------
// Pages

/// The texts of the JSON-LD scripts of a page: from the end of each opening tag
/// to the next closing tag. Nothing where a script closes before its opening
/// tag ends.
pub open spec fn ld_scripts(page: Seq<char>) -> Option<Seq<Seq<char>>>
    decreases page.len(),
    via ld_scripts_decreases
{
    match find(page, "application/ld+json"@) {
        None => Some(Seq::empty()),
        Some(start) => {
            let after = page.skip(start);
            match (find(after, ">"@), find(after, "</script>"@)) {
                (Some(open), Some(close)) => if open + 1 > close {
                    None
                } else {
                    match ld_scripts(after.skip(close)) {
                        Some(more) => Some(seq![after.subrange(open + 1, close)] + more),
                        None => None,
                    }
                },
                _ => Some(Seq::empty()),
            }
        },
    }
}

#[via_fn]
proof fn ld_scripts_decreases(page: Seq<char>) {
    lemma_find_is_first(page, "application/ld+json"@);
    if let Some(start) = find(page, "application/ld+json"@) {
        let after = page.skip(start);
        lemma_find_is_first(after, ">"@);
        lemma_find_is_first(after, "</script>"@);
    }
}

/// The texts of the JSON-LD scripts of a page.
pub fn script_texts(html: &str) -> (r: Option<Vec<String>>)
    ensures
        match r {
            Some(list) => ld_scripts(html@) == Some(texts(list@)),
            None => ld_scripts(html@) is None,
        },
{
    let chars = chars_of(html);
    let marker = chars_of("application/ld+json");
    let bracket = chars_of(">");
    let closing = chars_of("</script>");
    let mut found: Vec<String> = Vec::new();
    let mut at: usize = 0;
    proof {
        assert(html@.skip(0) =~= html@);
        reveal_strlit(">");
        if ld_scripts(html@) is Some {
            assert(texts(found@) + ld_scripts(html@)->0 =~= ld_scripts(html@)->0);
        }
    }
    loop
        invariant
            at <= chars@.len(),
            chars@ == html@,
            marker@ == "application/ld+json"@,
            bracket@ == ">"@,
            bracket@.len() == 1,
            closing@ == "</script>"@,
            match ld_scripts(html@.skip(at as int)) {
                Some(rest) => ld_scripts(html@) == Some(texts(found@) + rest),
                None => ld_scripts(html@) is None,
            },
        decreases chars@.len() - at,
    {
        let ghost page = html@.skip(at as int);
        let rest = vstd::slice::slice_subrange(chars.as_slice(), at, chars.len());
        proof {
            assert(rest@ =~= page);
        }
        let start: usize = match position(rest, marker.as_slice()) {
            Some(i) => i,
            None => {
                proof {
                    assert(texts(found@) + Seq::<Seq<char>>::empty() =~= texts(found@));
                }
                return Some(found);
            },
        };
        let after = vstd::slice::slice_subrange(rest, start, rest.len());
        proof {
            assert(after@ =~= page.skip(start as int));
        }
        let open: usize = match position(after, bracket.as_slice()) {
            Some(i) => i,
            None => {
                proof {
                    assert(texts(found@) + Seq::<Seq<char>>::empty() =~= texts(found@));
                }
                return Some(found);
            },
        };
        let close: usize = match position(after, closing.as_slice()) {
            Some(i) => i,
            None => {
                proof {
                    assert(texts(found@) + Seq::<Seq<char>>::empty() =~= texts(found@));
                }
                return Some(found);
            },
        };
        if open + 1 > close {
            return None;
        }
        let text = string_of(vstd::slice::slice_subrange(after, open + 1, close));
        let ghost before = found@;
        found.push(text);
        proof {
            assert(texts(found@) =~= texts(before).push(text@));
            assert(after@.skip(close as int) =~= html@.skip(at + start + close));
            if ld_scripts(after@.skip(close as int)) is Some {
                let more = ld_scripts(after@.skip(close as int))->0;
                assert(texts(before) + (seq![text@] + more) =~= texts(found@) + more);
            }
        }
        at = at + start + close;
    }
}

/// The offers in the documents among some texts.
pub open spec fn offers_in_texts(list: Seq<Seq<char>>) -> Seq<Tree>
    decreases list.len(),
{
    if list.len() == 0 {
        Seq::empty()
    } else {
        let before = offers_in_texts(list.drop_last());
        match json_document(list.last()) {
            Ok(doc) => before + offers_in(doc),
            Err(_) => before,
        }
    }
}

/// One of the texts is a document.
pub open spec fn some_document(list: Seq<Seq<char>>) -> bool {
    exists|i: int| 0 <= i < list.len() && json_document(#[trigger] list[i]) is Ok
}

pub open spec fn no_document_text() -> Seq<char> {
    "no JSON-LD found — blocked page or layout change; capture a rendered fixture and adapt the parser"@
}

/// The listings of the offers in the documents among some texts; an error where
/// there is no document, so that a blocked page is not taken for an empty one.
pub fn listings_in(list: &Vec<String>) -> (r: Result<Vec<RawListing>, String>)
    ensures
        if some_document(texts(list@)) {
            r is Ok && lists_offers(r->Ok_0@, offers_in_texts(texts(list@)))
        } else {
            r is Err && r->Err_0@ == no_document_text()
        },
{
    let mut out: Vec<RawListing> = Vec::new();
    let mut any: bool = false;
    let ghost all = texts(list@);
    let mut i: usize = 0;
    proof {
        assert(all.take(0) =~= Seq::<Seq<char>>::empty());
    }
    while i < list.len()
        invariant
            i <= list@.len(),
            all == texts(list@),
            any ==> some_document(all),
            !any ==> forall|k: int| 0 <= k < i ==> json_document(#[trigger] all[k]) is Err,
            lists_offers(out@, offers_in_texts(all.take(i as int))),
        decreases list@.len() - i,
    {
        proof {
            assert(all.take(i as int + 1).drop_last() =~= all.take(i as int));
            assert(all.take(i as int + 1).last() == list@[i as int]@);
            assert(all[i as int] == list@[i as int]@);
        }
        if let Ok(doc) = parse_json(list[i].as_str()) {
            any = true;
            collect_into(&doc, &mut out, Ghost(offers_in_texts(all.take(i as int))));
        }
        i = i + 1;
    }
    proof {
        assert(all.take(list@.len() as int) =~= all);
    }
    if !any {
        return Err(
            "no JSON-LD found — blocked page or layout change; capture a rendered fixture and adapt the parser".to_owned(),
        );
    }
    Ok(out)
}

/// The listings in the JSON-LD blocks of a rendered page.
pub fn parse_page(html: &str) -> (r: Result<Vec<RawListing>, String>)
    requires
        ld_scripts(html@) is Some,
    ensures
        ({
            let scripts = ld_scripts(html@)->0;
            if some_document(scripts) {
                r is Ok && lists_offers(r->Ok_0@, offers_in_texts(scripts))
            } else {
                r is Err && r->Err_0@ == no_document_text()
            }
        }),
{
    match script_texts(html) {
        Some(list) => listings_in(&list),
        None => Ok(Vec::new()),
    }
}

// ---------------------------------------------------------------------------
// The source

pub struct OuestFranceSource {
    pub config: OuestFranceConfig,
}

pub open spec fn no_command_text() -> Seq<char> {
    "ouestfrance-immo needs fetch_command (stealth browser wrapper) — the site blocks plain HTTP clients"@
}

impl OuestFranceSource {
    pub fn new(config: OuestFranceConfig) -> (r: OuestFranceSource)
        ensures
            r.config == config,
    {
        OuestFranceSource { config }
    }

    /// One full fetch: one page for each of the configured locations and those
    /// of the searches.
    pub fn crawl(&self, extra: &Vec<String>) -> (r: Crawl)
        ensures
            r.wf(),
            texts(r.locations@) == merged_locations(
                texts(self.config.locations@),
                texts(extra@),
            ),
            r.pages == 1,
            r.location == 0,
            r.page == 1,
            r.listings@.len() == 0,
    {
        Crawl::new(&self.config.locations, extra, 1, 0)
    }

    /// The command that fetches a page: the configured one, with the page's URL
    /// for `{url}`.
    pub fn command(&self, url: &str) -> (r: Result<Vec<String>, String>)
        ensures
            if self.config.fetch_command@.len() == 0 {
                r is Err && r->Err_0@ == no_command_text()
            } else {
                r is Ok && texts(r->Ok_0@) == texts(self.config.fetch_command@).map_values(
                    |a: Seq<char>| replace(a, "{url}"@, url@),
                )
            },
    {
        if self.config.fetch_command.len() == 0 {
            return Err(
                "ouestfrance-immo needs fetch_command (stealth browser wrapper) — the site blocks plain HTTP clients".to_owned(),
            );
        }
        let ghost all = texts(self.config.fetch_command@);
        let ghost put = |a: Seq<char>| replace(a, "{url}"@, url@);
        let mut argv: Vec<String> = Vec::new();
        let mut i: usize = 0;
        proof {
            reveal_strlit("{url}");
        }
        while i < self.config.fetch_command.len()
            invariant
                i <= self.config.fetch_command@.len(),
                all == texts(self.config.fetch_command@),
                put == (|a: Seq<char>| replace(a, "{url}"@, url@)),
                "{url}"@.len() > 0,
                texts(argv@) == all.map_values(put).take(i as int),
            decreases self.config.fetch_command@.len() - i,
        {
            let ghost before = argv@;
            let arg = replaced(self.config.fetch_command[i].as_str(), "{url}", url);
            argv.push(arg);
            proof {
                assert(texts(argv@) =~= texts(before).push(arg@));
                assert(all.map_values(put).take(i as int + 1) =~= all.map_values(put).take(
                    i as int,
                ).push(arg@));
            }
            i = i + 1;
        }
        proof {
            assert(all.map_values(put).take(all.len() as int) =~= all.map_values(put));
        }
        Ok(argv)
    }
}

} // verus!
