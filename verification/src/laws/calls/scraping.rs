//! Calls that read pages and walk through locations.
use crate::json::{json_document, Json, Tree};
use crate::laws::leboncoin::{
    is_stated_by, is_stated_by_none, law_active_ads_make_listings,
    law_attributes_are_the_first_ones, law_codes_make_property_types,
    law_listings_have_what_the_ad_states,
};
use crate::laws::ouestfrance::{
    law_offers_have_type_name_url_and_price, law_offers_make_property_types,
};
use crate::laws::scraping::law_every_location_is_scraped;
use crate::listing::{ListingDetail, PropertyType, RawListing};
use crate::scrape::leboncoin::{
    ad_to_listing, after_response, attr_integer, curl_args, embedded, has_fitting_amounts, is_ad,
    listings_in, parse_ad_json, parse_fitting_ad_json, parse_search_page,
    property_type, LeboncoinSource, PageStep,
};
use crate::scrape::ouestfrance;
use crate::scrape::ouestfrance::{offer_to_listing, OuestFranceSource};
use crate::scrape::{merge_locations, with_fresh, Crawl};
use crate::text::{replace, texts};
use vstd::prelude::*;

verus! {

/// The code that an ad states first decides its type: a house, an apartment, a plot of land, or
/// else something other.
pub proof fn law_ads_have_the_type_of_their_code(ad: Json, items: Seq<Tree>, i: int, r: PropertyType)
    requires
        call_ensures(property_type, (&ad,), r),
        ad.tree().at("attributes"@) == Tree::Array(items),
    ensures
        is_stated_by(items, "real_estate_type"@, "value"@, i) ==> {
            &&& items[i].at("value"@) == Tree::Text("1"@) <==> r == PropertyType::House
            &&& items[i].at("value"@) == Tree::Text("2"@) <==> r == PropertyType::Apartment
            &&& items[i].at("value"@) == Tree::Text("3"@) <==> r == PropertyType::Land
        },
        is_stated_by_none(items, "real_estate_type"@, "value"@) ==> r == PropertyType::Other,
{
    reveal_strlit("1");
    reveal_strlit("2");
    reveal_strlit("3");
    assert("1"@[0] == '1' && "2"@[0] == '2' && "3"@[0] == '3');
    law_attributes_are_the_first_ones(ad.tree(), items, "real_estate_type"@, i);
}

/// An ad makes a listing if and only if it is live and has a title, an address and a price, and
/// the listing has the type of its code.
pub proof fn law_live_ads_make_listings(ad: Json, items: Seq<Tree>, i: int, r: Option<RawListing>)
    requires
        call_ensures(ad_to_listing, (&ad,), r),
        ad.tree().at("attributes"@) == Tree::Array(items),
    ensures
        r is Some <==> (!(ad.tree().at("status"@) is Text) || ad.tree().at("status"@) == Tree::Text(
            "active"@,
        )) && ad.tree().at("subject"@) is Text && ad.tree().at("url"@) is Text && (ad.tree().at(
            "price_cents"@,
        ).as_integer() is Some || ad.tree().at("price"@).head() is Number),
        r is Some && is_stated_by(items, "real_estate_type"@, "value"@, i) && items[i].at("value"@)
            == Tree::Text("3"@) ==> r->0.property_type == PropertyType::Land,
        r is Some && is_stated_by(items, "real_estate_type"@, "value"@, i) && items[i].at("value"@)
            == Tree::Text("2"@) ==> r->0.property_type == PropertyType::Apartment,
        r is Some && is_stated_by(items, "real_estate_type"@, "value"@, i) && items[i].at("value"@)
            == Tree::Text("1"@) ==> r->0.property_type == PropertyType::House,
        r is Some ==> ad.tree().at("url"@) == Tree::Text(r->0.url@) && ad.tree().at("subject"@)
            == Tree::Text(r->0.title@),
{
    law_active_ads_make_listings(ad.tree());
    if let Some(raw) = r {
        law_codes_make_property_types(raw, ad.tree(), items, i);
        law_listings_have_what_the_ad_states(raw, ad.tree());
    }
}

/// A page that embeds a document gives the listings of its ads; any other page is an error.
pub proof fn law_pages_give_their_listings_or_an_error(
    html: &str,
    data: Json,
    r: Result<Vec<RawListing>, String>,
    inside: Vec<RawListing>,
)
    requires
        call_ensures(parse_search_page, (html,), r),
        call_ensures(listings_in, (&data,), inside),
    ensures
        r is Ok <==> embedded(html@) is Ok,
        embedded(html@) == Ok::<Tree, Seq<char>>(data.tree()) ==> r->Ok_0@.len() == inside@.len()
            && forall|i: int|
            0 <= i < inside@.len() ==> (#[trigger] r->Ok_0@[i]).url@ == inside@[i].url@
                && r->Ok_0@[i].property_type == inside@[i].property_type && r->Ok_0@[i].title@
                == inside@[i].title@,
{
}

/// A detail is read from a document that is an ad, and from nothing else.
pub proof fn law_details_are_read_from_ads(body: &str, r: Result<ListingDetail, String>)
    requires
        call_ensures(parse_ad_json, (body,), r),
    ensures
        r is Ok <==> json_document(body@) is Ok && is_ad(json_document(body@)->Ok_0),
{
}

/// A page is used where the answer is no error, fetched another way where there was none or where
/// it was refused, and given up otherwise.
pub proof fn law_refused_pages_are_fetched_another_way(status: Option<u16>, r: PageStep)
    requires
        call_ensures(after_response, (status,), r),
    ensures
        status is None ==> r == PageStep::Curl,
        status matches Some(code) ==> {
            &&& r == PageStep::Curl <==> code == 403 || code == 429
            &&& code < 400 || code >= 600 ==> r == PageStep::Use
            &&& 400 <= code < 600 && code != 403 && code != 429 ==> r == PageStep::Fail
        },
{
}

/// A crawl starts at the first page of the first location, and visits every location that was
/// configured or asked for.
pub proof fn law_crawls_visit_every_location(
    configured: Vec<String>,
    extra: Vec<String>,
    pages: u32,
    full_page: usize,
    crawl: Crawl,
    merged: Vec<String>,
    place: Seq<char>,
)
    requires
        call_ensures(Crawl::new, (&configured, &extra, pages, full_page), crawl),
        call_ensures(merge_locations, (&configured, &extra), merged),
    ensures
        texts(crawl.locations@).contains(place) <==> texts(configured@).contains(place) || texts(
            extra@,
        ).contains(place),
        texts(merged@) == texts(crawl.locations@),
        crawl.location == 0 && crawl.page == 1 && crawl.listings@.len() == 0,
        crawl.pages >= 1 && (pages >= 1 ==> crawl.pages == pages),
        crawl.full_page == full_page,
{
    law_every_location_is_scraped(texts(configured@), texts(extra@), place);
}

/// A crawl asks for the page it stands at, goes on to the next page while pages are full and
/// allowed, and to the next location otherwise.
pub proof fn law_crawls_go_page_by_page(
    crawl: &mut Crawl,
    asked: Option<(&String, u32)>,
    found: Vec<RawListing>,
)
    requires
        old(crawl).wf(),
        call_ensures(Crawl::next, (&*old(crawl),), asked),
        old(crawl).location < old(crawl).locations@.len(),
        call_ensures(Crawl::take_page, (crawl, found), ()),
    ensures
        asked matches Some((location, page)) && *location == old(crawl).locations@[old(crawl).location as int] && page == old(crawl).page,
        found@.len() >= old(crawl).full_page && old(crawl).page < old(crawl).pages ==> final(crawl).location == old(crawl).location && final(crawl).page == old(crawl).page + 1,
        found@.len() < old(crawl).full_page ==> final(crawl).location == old(crawl).location + 1
            && final(crawl).page == 1,
        old(crawl).page == old(crawl).pages ==> final(crawl).location == old(crawl).location + 1
            && final(crawl).page == 1,
        final(crawl).locations == old(crawl).locations && final(crawl).pages == old(crawl).pages,
        final(crawl).full_page == old(crawl).full_page,
        final(crawl).listings@ == with_fresh(old(crawl).listings@, found@),
{
}

/// Both sources start their crawls at the first page of every location; one reads as many pages
/// as it is told, the other a single one.
pub proof fn law_sources_crawl_their_locations(
    a: LeboncoinSource,
    b: OuestFranceSource,
    extra: Vec<String>,
    ra: Crawl,
    rb: Crawl,
    place: Seq<char>,
)
    requires
        call_ensures(LeboncoinSource::crawl, (&a, &extra), ra),
        call_ensures(OuestFranceSource::crawl, (&b, &extra), rb),
    ensures
        texts(extra@).contains(place) ==> texts(ra.locations@).contains(place) && texts(
            rb.locations@,
        ).contains(place),
        texts(a.config.locations@).contains(place) ==> texts(ra.locations@).contains(place),
        texts(b.config.locations@).contains(place) ==> texts(rb.locations@).contains(place),
        ra.pages >= 1 && (a.config.pages_per_location >= 1 ==> ra.pages
            == a.config.pages_per_location),
        ra.full_page == 35 && rb.pages == 1,
        ra.location == 0 && rb.location == 0 && ra.page == 1 && rb.page == 1,
        ra.listings@.len() == 0 && rb.listings@.len() == 0,
{
    law_every_location_is_scraped(texts(a.config.locations@), texts(extra@), place);
    law_every_location_is_scraped(texts(b.config.locations@), texts(extra@), place);
}

/// An offer makes a listing if and only if it has a type that is known, a name, an address and a
/// price.
pub proof fn law_offers_make_listings(v: Json, r: Option<RawListing>)
    requires
        call_ensures(offer_to_listing, (&v,), r),
    ensures
        r is Some ==> v.tree().at("name"@) is Text,
        r is Some && (v.tree().at("@type"@) == Tree::Text("House"@) || v.tree().at("@type"@)
            == Tree::Text("SingleFamilyResidence"@)) ==> r->0.property_type == PropertyType::House,
        r is Some && v.tree().at("@type"@) == Tree::Text("Apartment"@) ==> r->0.property_type
            == PropertyType::Apartment,
        v.tree().at("@type"@) == Tree::Text("House"@) && v.tree().at("name"@) is Text && v.tree().at(
            "url"@,
        ) is Text && v.tree().at("offers"@).at("price"@) is Number ==> r is Some,
{
    law_offers_have_type_name_url_and_price(v.tree());
    if let Some(raw) = r {
        law_offers_make_property_types(
            raw,
            v.tree(),
            v.tree().at("name"@)->Text_0,
        );
    }
}

/// The command that fetches a page says where it is in the place that is kept for it, and there
/// has to be one.
pub proof fn law_commands_name_the_page(
    source: OuestFranceSource,
    url: &str,
    r: Result<Vec<String>, String>,
    i: int,
)
    requires
        call_ensures(OuestFranceSource::command, (&source, url), r),
        0 <= i < source.config.fetch_command@.len(),
    ensures
        r is Ok && r->Ok_0@.len() == source.config.fetch_command@.len(),
        r->Ok_0@[i]@ == replace(source.config.fetch_command@[i]@, "{url}"@, url@),
{
    let from = texts(source.config.fetch_command@);
    let to = texts(r->Ok_0@);
    assert(to.len() == from.len());
    assert(to[i] == r->Ok_0@[i]@ && from[i] == source.config.fetch_command@[i]@);
}

/// Without a command there is no page to be had.
pub proof fn law_pages_need_a_command(
    source: OuestFranceSource,
    url: &str,
    r: Result<Vec<String>, String>,
)
    requires
        call_ensures(OuestFranceSource::command, (&source, url), r),
    ensures
        r is Err <==> source.config.fetch_command@.len() == 0,
{
}

/// A page that is fetched the other way fails where the server refuses it, and is the last thing
/// that the call names.
pub proof fn law_other_fetches_name_the_page_last(url: &str, r: Vec<String>)
    requires
        call_ensures(curl_args, (url,), r),
    ensures
        r@.len() > 0 && r@.last()@ == url@,
        texts(r@).contains("--fail"@) && texts(r@).contains("-sL"@),
{
    assert(texts(r@).len() == r@.len());
    assert(texts(r@).last() == url@);
    assert(texts(r@)[1] == "--fail"@ && texts(r@)[0] == "-sL"@);
}

/// A detail is read alike with and without a look at its amounts first; amounts that do not fit
/// are found by that look.
pub proof fn law_fitting_details_are_read_alike(
    body: &str,
    ad: Json,
    fits: bool,
    r: Result<ListingDetail, String>,
    looked: Option<Result<ListingDetail, String>>,
)
    requires
        json_document(body@) == Ok::<Tree, Seq<char>>(ad.tree()),
        call_ensures(has_fitting_amounts, (&ad,), fits),
        call_ensures(parse_ad_json, (body,), r),
        call_ensures(parse_fitting_ad_json, (body,), looked),
    ensures
        looked is Some <==> fits,
        looked is Some ==> (looked->0 is Ok <==> r is Ok),
        looked is Some && looked->0 is Err ==> looked->0->Err_0@ == r->Err_0@,
        fits <==> (attr_integer(ad.tree(), "annual_charges"@) matches Some(y) ==> i64::MIN <= 100
            * y <= i64::MAX) && (attr_integer(ad.tree(), "property_tax"@) matches Some(e)
            ==> i64::MIN <= 100 * e <= i64::MAX),
{
}

/// The page of a location lies below the site, at the slug of the location.
pub proof fn law_offer_pages_lie_at_the_slug(location: &str, url: String, slug: String)
    requires
        call_ensures(ouestfrance::search_url, (location,), url),
        call_ensures(ouestfrance::location_slug, (location,), slug),
    ensures
        url@ == "https://www.ouestfrance-immo.com/acheter/"@ + slug@ + "/"@,
{
}

} // verus!
