//! Matching: which listings a search is for.
use crate::double::Double;
use crate::listing::{Listing, ListingStatus, Moderation};
use crate::search::{located, satisfies, Search};
use crate::text::{contains_text, lowercase};
use vstd::prelude::*;

verus! {

/// A location that holds a listing's postal code or the name of its commune,
/// whatever the case, is a location of the listing; an empty code or name is
/// held by none.
pub proof fn law_locations_name_code_or_commune(
    location: Seq<char>,
    before: Seq<char>,
    after: Seq<char>,
    listing: Listing,
)
    ensures
        listing.postal_code matches Some(code) && code@.len() > 0 && lowercase(location) == before
            + lowercase(code@) + after ==> located(location, listing),
        listing.commune matches Some(name) && name@.len() > 0 && lowercase(location) == before
            + lowercase(name@) + after ==> located(location, listing),
{
    if let Some(code) = listing.postal_code {
        lemma_held(lowercase(location), before, lowercase(code@), after);
    }
    if let Some(name) = listing.commune {
        lemma_held(lowercase(location), before, lowercase(name@), after);
    }
}

proof fn lemma_held(hay: Seq<char>, before: Seq<char>, needle: Seq<char>, after: Seq<char>)
    ensures
        hay == before + needle + after ==> contains_text(hay, needle),
{
    if hay == before + needle + after {
        let i = before.len() as int;
        assert(hay.subrange(i, i + needle.len()) =~= needle);
        assert(crate::text::occurs_at(hay, needle, i));
    }
}

/// A location of a listing holds its postal code or the name of its commune.
pub proof fn law_locations_hold_what_they_name(location: Seq<char>, listing: Listing)
    requires
        located(location, listing),
    ensures
        (listing.postal_code matches Some(code) && code@.len() > 0 && exists|i: int|
            0 <= i <= lowercase(location).len() - lowercase(code@).len() && #[trigger] lowercase(
                location,
            ).subrange(i, i + lowercase(code@).len()) == lowercase(code@)) || (
        listing.commune matches Some(name) && name@.len() > 0 && exists|i: int|
            0 <= i <= lowercase(location).len() - lowercase(name@).len() && #[trigger] lowercase(
                location,
            ).subrange(i, i + lowercase(name@).len()) == lowercase(name@)),
{
    let place = lowercase(location);
    if listing.postal_code is Some && listing.postal_code->0@.len() > 0 && contains_text(
        place,
        lowercase(listing.postal_code->0@),
    ) {
        let needle = lowercase(listing.postal_code->0@);
        let i = choose|i: int| #[trigger] crate::text::occurs_at(place, needle, i);
        assert(place.subrange(i, i + needle.len()) == needle);
    } else {
        let needle = lowercase(listing.commune->0@);
        let i = choose|i: int| #[trigger] crate::text::occurs_at(place, needle, i);
        assert(place.subrange(i, i + needle.len()) == needle);
    }
}

/// A listing that meets every criterion of an active search matches it,
/// whichever of the locations names it and whatever else it says: an active
/// listing without a verdict, at one of the locations where there are any, not
/// above the price, with the surface, the rooms and the type that are asked for.
pub proof fn law_what_meets_the_criteria_matches(search: Search, listing: Listing, at: int)
    requires
        search.active,
        listing.status == ListingStatus::Active,
        listing.moderation == Moderation::Unmoderated,
        search.locations@.len() == 0 || (0 <= at < search.locations@.len() && located(
            search.locations@[at]@,
            listing,
        )),
        search.max_price_cents is None || listing.price_cents <= search.max_price_cents->0,
        search.min_surface_m2 is None || (listing.surface_m2 is Some && !listing.surface_m2->0.is_nan()
            && !search.min_surface_m2->0.is_nan() && listing.surface_m2->0.units()
            >= search.min_surface_m2->0.units()),
        search.min_rooms is None || (listing.rooms is Some && listing.rooms->0
            >= search.min_rooms->0),
        search.property_types@.len() == 0 || exists|k: int|
            0 <= k < search.property_types@.len() && #[trigger] search.property_types@[k]
                == listing.property_type,
    ensures
        satisfies(search, listing),
{
    if search.locations@.len() > 0 {
        assert(located(search.locations@[at]@, listing));
    }
    if search.property_types@.len() > 0 {
        let k = choose|k: int|
            0 <= k < search.property_types@.len() && #[trigger] search.property_types@[k]
                == listing.property_type;
        assert(search.property_types@.contains(search.property_types@[k]));
    }
}

/// A listing that matches a search meets every criterion of it.
pub proof fn law_what_matches_meets_the_criteria(search: Search, listing: Listing)
    requires
        satisfies(search, listing),
    ensures
        search.active,
        listing.status == ListingStatus::Active,
        listing.moderation == Moderation::Unmoderated,
        search.locations@.len() > 0 ==> exists|i: int|
            0 <= i < search.locations@.len() && located(#[trigger] search.locations@[i]@, listing),
        search.max_price_cents is Some ==> listing.price_cents <= search.max_price_cents->0,
        search.min_surface_m2 is Some ==> listing.surface_m2 is Some
            && !listing.surface_m2->0.is_nan() && !search.min_surface_m2->0.is_nan()
            && listing.surface_m2->0.units() >= search.min_surface_m2->0.units(),
        search.min_rooms is Some ==> listing.rooms is Some && listing.rooms->0
            >= search.min_rooms->0,
        search.property_types@.len() > 0 ==> exists|k: int|
            0 <= k < search.property_types@.len() && #[trigger] search.property_types@[k]
                == listing.property_type,
{
    if search.property_types@.len() > 0 {
        assert(search.property_types@.contains(listing.property_type));
    }
}

/// More locations never lose a match, wherever they are added, and the order of
/// the locations does not matter: a search that is the same otherwise, and names
/// every location that this one names, matches what this one matches.
pub proof fn law_more_locations_lose_nothing(search: Search, wider: Search, listing: Listing)
    requires
        wider == (Search { locations: wider.locations, ..search }),
        search.locations@.len() > 0,
        forall|i: int|
            0 <= i < search.locations@.len() ==> exists|k: int|
                0 <= k < wider.locations@.len() && #[trigger] wider.locations@[k]@
                    == (#[trigger] search.locations@[i])@,
        satisfies(search, listing),
    ensures
        satisfies(wider, listing),
{
    let i = choose|i: int|
        0 <= i < search.locations@.len() && located(#[trigger] search.locations@[i]@, listing);
    let at = search.locations@[i];
    let k = choose|k: int|
        0 <= k < wider.locations@.len() && #[trigger] wider.locations@[k]@ == at@;
    assert(located(wider.locations@[k]@, listing));
}

/// Whether a listing matches depends on its place, price, surface, rooms, type,
/// status and verdict alone.
pub proof fn law_other_facts_do_not_matter(search: Search, a: Listing, b: Listing)
    requires
        a.status == b.status,
        a.moderation == b.moderation,
        a.price_cents == b.price_cents,
        a.property_type == b.property_type,
        a.surface_m2 == b.surface_m2,
        a.rooms == b.rooms,
        a.commune == b.commune,
        a.postal_code == b.postal_code,
    ensures
        satisfies(search, a) == satisfies(search, b),
        forall|location: Seq<char>| located(location, a) == located(location, b),
{
    assert forall|location: Seq<char>| located(location, a) == located(location, b) by {}
    if search.locations@.len() > 0 {
        if satisfies(search, a) {
            let i = choose|i: int|
                0 <= i < search.locations@.len() && located(#[trigger] search.locations@[i]@, a);
            assert(located(search.locations@[i]@, b));
        }
        if satisfies(search, b) {
            let i = choose|i: int|
                0 <= i < search.locations@.len() && located(#[trigger] search.locations@[i]@, b);
            assert(located(search.locations@[i]@, a));
        }
    }
}

/// One double is at least another exactly where both are numbers and its value
/// is.
pub proof fn law_surfaces_compare_by_value(a: Double, b: Double)
    ensures
        a.ge(b) <==> !a.is_nan() && !b.is_nan() && a.units() >= b.units(),
{
}

} // verus!
