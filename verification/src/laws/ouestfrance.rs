//! Ouest France: what an offer says, and what listing it makes.
use crate::json::{json_document, opt_text, Tree};
use crate::listing::{PropertyType, RawListing};
use crate::scrape::ouestfrance::{
    is_offer, ld_scripts, lists_offer, lists_offers, offer_price, offer_url, offers_among,
    offers_in, offers_in_texts, slug, some_document,
};
use crate::text::{
    contains_text, is_decimal, join, lemma_find, lowercase, occurs_at, swap_char, trim, words,
};
use vstd::prelude::*;

verus! {

/// An item makes a listing exactly where it is of one of the types of offers and
/// has a name, a URL and a price.
pub proof fn law_offers_have_type_name_url_and_price(v: Tree)
    ensures
        is_offer(v) <==> (v.at("@type"@) == Tree::Text("Product"@) || v.at("@type"@) == Tree::Text(
            "Offer"@,
        ) || v.at("@type"@) == Tree::Text("House"@) || v.at("@type"@) == Tree::Text("Apartment"@)
            || v.at("@type"@) == Tree::Text("SingleFamilyResidence"@)) && v.at("name"@) is Text && (
        v.at("url"@) is Text || v.at("offers"@).at("url"@) is Text) && (v.at("offers"@).at(
            "price"@,
        ) is Number || (v.at("offers"@).at("price"@) is Text && is_decimal(
            v.at("offers"@).at("price"@)->Text_0,
        )) || v.at("price"@) is Number),
{
}

/// The listing of an item has what the item states: its own URL, else that of its
/// offers; the price of its offers, as number or text, else its own; surface,
/// rooms and place where the item has them.
pub proof fn law_listings_have_what_the_offer_states(raw: RawListing, v: Tree)
    requires
        is_offer(v),
        lists_offer(raw, v),
    ensures
        raw.source_id@ == "ouestfrance-immo"@,
        v.at("name"@) == Tree::Text(raw.title@),
        v.at("url"@) is Text ==> v.at("url"@) == Tree::Text(raw.url@),
        !(v.at("url"@) is Text) ==> v.at("offers"@).at("url"@) == Tree::Text(raw.url@),
        raw.price is Euros,
        v.at("offers"@).at("price"@) is Number ==> v.at("offers"@).at("price"@).number_text()
            == Some(raw.price->Euros_0@),
        v.at("offers"@).at("price"@) is Text && is_decimal(v.at("offers"@).at("price"@)->Text_0)
            ==> v.at("offers"@).at("price"@) == Tree::Text(raw.price->Euros_0@),
        !(v.at("offers"@).at("price"@) is Number) && !(v.at("offers"@).at("price"@) is Text
            && is_decimal(v.at("offers"@).at("price"@)->Text_0)) ==> v.at("price"@).number_text()
            == Some(raw.price->Euros_0@),
        opt_text(raw.surface_m2) == v.at("floorSize"@).at("value"@).number_text(),
        raw.rooms == v.at("numberOfRooms"@).as_integer(),
        opt_text(raw.commune) == v.at("address"@).at("addressLocality"@).as_text(),
        opt_text(raw.postal_code) == v.at("address"@).at("postalCode"@).as_text(),
        raw.bedrooms is None && raw.land_m2 is None && raw.lat is None && raw.lng is None,
        raw.dpe is None && raw.ges is None && raw.sell_type is None && raw.description is None,
        raw.address is None && raw.image_urls@.len() == 0 && raw.seller is None,
{
    assert(offer_url(v) is Some && offer_price(v) is Some);
}

/// The type of an item makes the type of its listing; where it says neither
/// house nor apartment its name does: a house, else an apartment, else land.
pub proof fn law_offers_make_property_types(raw: RawListing, v: Tree, name: Seq<char>)
    requires
        lists_offer(raw, v),
        v.at("name"@) == Tree::Text(name),
    ensures
        v.at("@type"@) == Tree::Text("House"@) || v.at("@type"@) == Tree::Text(
            "SingleFamilyResidence"@,
        ) ==> raw.property_type == PropertyType::House,
        v.at("@type"@) == Tree::Text("Apartment"@) ==> raw.property_type == PropertyType::Apartment,
        v.at("@type"@) == Tree::Text("Product"@) || v.at("@type"@) == Tree::Text("Offer"@)
            ==> raw.property_type == if contains_text(lowercase(name), "maison"@) {
            PropertyType::House
        } else if contains_text(lowercase(name), "appartement"@) {
            PropertyType::Apartment
        } else if contains_text(lowercase(name), "terrain"@) {
            PropertyType::Land
        } else {
            PropertyType::Other
        },
{
    reveal_strlit("House");
    reveal_strlit("SingleFamilyResidence");
    reveal_strlit("Apartment");
    reveal_strlit("Product");
    reveal_strlit("Offer");
    assert("House"@[0] != "Apartment"@[0]);
    assert("SingleFamilyResidence"@[0] != "Apartment"@[0]);
    assert("Product"@[0] != "House"@[0] && "Product"@[0] != "SingleFamilyResidence"@[0]
        && "Product"@[0] != "Apartment"@[0]);
    assert("Offer"@[0] != "House"@[0] && "Offer"@[0] != "SingleFamilyResidence"@[0] && "Offer"@[0]
        != "Apartment"@[0]);
}

/// The offers of a list are those of its elements, one after the other.
pub proof fn law_lists_give_the_offers_of_their_elements(items: Seq<Tree>, t: Tree)
    ensures
        offers_in(Tree::Array(Seq::empty())) == Seq::<Tree>::empty(),
        offers_in(Tree::Array(items.push(t))) == offers_in(Tree::Array(items)) + offers_in(t),
        t is Null || t is Text || t is Number || t is Bool ==> offers_in(t).len() == 0,
{
    reveal_with_fuel(offers_in, 2);
    reveal_with_fuel(offers_among, 2);
    let more = items.push(t);
    lemma_among(items, more, items.len());
    assert(offers_among(Seq::<Tree>::empty(), 0) =~= Seq::<Tree>::empty());
    assert(offers_in(Tree::Array(more)) == offers_among(more, more.len()));
    assert(offers_in(Tree::Array(items)) == offers_among(items, items.len()));
    assert(more[items.len() as int] == t);
}

proof fn lemma_among(items: Seq<Tree>, more: Seq<Tree>, n: nat)
    requires
        n <= items.len() <= more.len(),
        forall|k: int| 0 <= k < n ==> items[k] == more[k],
    ensures
        offers_among(items, n) == offers_among(more, n),
    decreases n,
{
    if n > 0 {
        lemma_among(items, more, (n - 1) as nat);
        assert(items[n - 1] == more[n - 1]);
    }
}

/// The offers of an object are itself, where it is one, then those under its
/// three nesting keys, in their order.
pub proof fn law_objects_give_their_offers(entries: Seq<(Seq<char>, Tree)>)
    ensures
        ({
            let v = Tree::Object(entries);
            offers_in(v) == (if is_offer(v) {
                seq![v]
            } else {
                Seq::<Tree>::empty()
            }) + offers_in(v.at("itemListElement"@)) + offers_in(v.at("@graph"@)) + offers_in(
                v.at("item"@),
            )
        }),
{
    let v = Tree::Object(entries);
    assert(offers_in(Tree::Null) =~= Seq::<Tree>::empty());
    assert(offers_in(v) =~= (if is_offer(v) {
        seq![v]
    } else {
        Seq::<Tree>::empty()
    }) + offers_in(v.at("itemListElement"@)) + offers_in(v.at("@graph"@)) + offers_in(
        v.at("item"@),
    ));
}

/// The offers of a page are those of its documents in order; what is no document
/// gives none, and a page without any is an error.
pub proof fn law_documents_give_their_offers(list: Seq<Seq<char>>, text: Seq<char>)
    ensures
        offers_in_texts(Seq::empty()) == Seq::<Tree>::empty(),
        json_document(text) matches Ok(doc) ==> offers_in_texts(list.push(text)) == offers_in_texts(
            list,
        ) + offers_in(doc) && some_document(list.push(text)),
        json_document(text) is Err ==> offers_in_texts(list.push(text)) == offers_in_texts(list)
            && some_document(list.push(text)) == some_document(list),
        !some_document(Seq::empty()),
{
    let more = list.push(text);
    assert(more.drop_last() =~= list);
    assert(more[list.len() as int] == text);
    if json_document(text) is Err {
        if some_document(more) {
            let i = choose|i: int| 0 <= i < more.len() && json_document(#[trigger] more[i]) is Ok;
            assert(list[i] == more[i]);
        }
        if some_document(list) {
            let i = choose|i: int| 0 <= i < list.len() && json_document(#[trigger] list[i]) is Ok;
            assert(more[i] == list[i]);
        }
    }
}

/// Every offer has a listing, in order, and nothing else has.
pub proof fn law_offers_give_a_listing_each(
    listings: Seq<RawListing>,
    offers: Seq<Tree>,
    k: int,
)
    requires
        lists_offers(listings, offers),
        0 <= k < offers.len(),
    ensures
        listings.len() == offers.len(),
        lists_offer(listings[k], offers[k]),
{
}

/// A script of a page runs from the end of its opening tag to the next closing
/// one; the scripts behind it follow.
pub proof fn law_scripts_run_from_tag_to_tag(
    page: Seq<char>,
    head: Seq<char>,
    tag_rest: Seq<char>,
    json: Seq<char>,
    tail: Seq<char>,
)
    requires
        page == head + ("application/ld+json"@ + (tag_rest + (">"@ + (json + ("</script>"@
            + tail))))),
        forall|i: int| 0 <= i < head.len() ==> !occurs_at(page, "application/ld+json"@, i),
        !tag_rest.contains('>'),
        forall|i: int|
            0 <= i < "application/ld+json"@.len() + tag_rest.len() + 1 + json.len() ==> !occurs_at(
                page.skip(head.len() as int),
                "</script>"@,
                i,
            ),
        ld_scripts("</script>"@ + tail) is Some,
    ensures
        ld_scripts(page) == Some(seq![json] + ld_scripts("</script>"@ + tail)->0),
{
    let marker = "application/ld+json"@;
    let close = "</script>"@;
    reveal_strlit("application/ld+json");
    reveal_strlit(">");
    reveal_strlit("</script>");
    let after = marker + (tag_rest + (">"@ + (json + (close + tail))));
    let start = head.len() as int;
    assert(page.subrange(start, start + marker.len()) =~= marker);
    lemma_find(page, marker, start);
    assert(page.skip(start) =~= after);
    let open = (marker.len() + tag_rest.len()) as int;
    assert(after.subrange(open, open + 1) =~= ">"@);
    assert forall|j: int| 0 <= j < open implies !occurs_at(after, ">"@, j) by {
        if occurs_at(after, ">"@, j) {
            assert(after.subrange(j, j + 1)[0] == after[j]);
            if j < marker.len() {
                assert(after[j] == marker[j]);
            } else {
                assert(after[j] == tag_rest[j - marker.len()]);
                assert(tag_rest.contains(tag_rest[j - marker.len()]));
            }
        }
    }
    lemma_find(after, ">"@, open);
    let end = open + 1 + json.len();
    assert(after.subrange(end, end + close.len()) =~= close);
    lemma_find(after, close, end);
    assert(after.subrange(open + 1, end) =~= json);
    assert(after.skip(end) =~= close + tail);
}

/// A page without JSON-LD has no scripts.
pub proof fn law_plain_pages_have_no_scripts(page: Seq<char>)
    requires
        !contains_text(page, "application/ld+json"@),
    ensures
        ld_scripts(page) == Some(Seq::<Seq<char>>::empty()),
{
}

/// The slug of a place is its words in lower case with hyphens between them; a
/// postal code at the end comes behind its department.
pub proof fn law_slugs_name_town_department_and_code(
    raw: Seq<char>,
    name: Seq<Seq<char>>,
    code: Seq<char>,
)
    requires
        words(swap_char(lowercase(trim(raw)), '_', ' ')) == name.push(code),
    ensures
        code.len() == 5 && (forall|i: int| 0 <= i < 5 ==> 48 <= #[trigger] code[i] as int <= 57)
            ==> slug(raw) == join(name, "-"@) + "-"@ + seq![code[0], code[1]] + "-"@ + code,
        code.len() != 5 ==> slug(raw) == join(name.push(code), "-"@),
        (exists|i: int| 0 <= i < code.len() && !(48 <= #[trigger] code[i] as int <= 57))
            ==> slug(raw) == join(name.push(code), "-"@),
{
    assert(name.push(code).drop_last() =~= name);
    if code.len() == 5 {
        assert(code.take(2) =~= seq![code[0], code[1]]);
    }
    if exists|i: int| 0 <= i < code.len() && !(48 <= #[trigger] code[i] as int <= 57) {
        let i = choose|i: int| 0 <= i < code.len() && !(48 <= #[trigger] code[i] as int <= 57);
        assert(!crate::text::is_digit(code[i]));
    }
}

} // verus!
