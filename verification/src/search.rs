//! Saved searches: communes and criteria. The locations of the active ones
//! drive the scrape rotation.
use crate::double::Double;
use crate::listing::{Listing, ListingStatus, Moderation, PropertyType, Timestamp};
use crate::text::{contains_text, has_text, lowercase, to_lower};
use vstd::prelude::*;

verus! {

#[derive(Debug, Clone, PartialEq)]
pub struct Search {
    /// The 128 bits of the search's UUID.
    pub id: u128,
    pub name: String,
    /// Raw location strings as typed ("Rennes 35000", "35235", "Bruz"). Each
    /// source maps them to its own URL format.
    pub locations: Vec<String>,
    pub max_price_cents: Option<i64>,
    pub min_surface_m2: Option<Double>,
    pub min_rooms: Option<i64>,
    /// Empty: every type matches.
    pub property_types: Vec<PropertyType>,
    pub active: bool,
    pub created_at: Timestamp,
}

#[derive(Debug, Clone, PartialEq)]
pub struct SearchRequest {
    pub name: String,
    pub locations: Vec<String>,
    pub max_price_cents: Option<i64>,
    pub min_surface_m2: Option<Double>,
    pub min_rooms: Option<i64>,
    pub property_types: Vec<PropertyType>,
    pub active: bool,
}

/// A request that does not say whether it is active is.
pub fn default_true() -> (r: bool)
    ensures
        r,
{
    true
}

/// One location matches a listing when the listing's postal code or commune
/// name appears in it, whatever the case. "Rennes 35000" therefore matches both
/// by name and by code; a bare "35000" by code only.
pub open spec fn located(location: Seq<char>, listing: Listing) -> bool {
    let place = lowercase(location);
    ||| (listing.postal_code matches Some(code) && code@.len() > 0 && contains_text(
        place,
        lowercase(code@),
    ))
    ||| (listing.commune matches Some(name) && name@.len() > 0 && contains_text(
        place,
        lowercase(name@),
    ))
}

/// Neither gone nor moderated.
pub open spec fn live(listing: Listing) -> bool {
    listing.status == ListingStatus::Active && listing.moderation == Moderation::Unmoderated
}

/// The listing satisfies the search. A criterion that the search sets fails
/// closed on a listing that misses the attribute.
pub open spec fn satisfies(search: Search, listing: Listing) -> bool {
    &&& search.active
    &&& live(listing)
    &&& search.locations@.len() == 0 || exists|i: int|
        0 <= i < search.locations@.len() && located(#[trigger] search.locations@[i]@, listing)
    &&& search.max_price_cents matches Some(max) ==> listing.price_cents <= max
    &&& search.min_surface_m2 matches Some(min) ==> (listing.surface_m2 matches Some(s) && s.ge(
        min,
    ))
    &&& search.min_rooms matches Some(min) ==> (listing.rooms matches Some(n) && n >= min)
    &&& search.property_types@.len() == 0 || search.property_types@.contains(listing.property_type)
}

pub fn location_matches(location: &str, listing: &Listing) -> (r: bool)
    ensures
        r == located(location@, *listing),
{
    let place = to_lower(location);
    if let Some(code) = &listing.postal_code {
        if !code.as_str().is_empty() {
            let lowered = to_lower(code.as_str());
            if has_text(place.as_str(), lowered.as_str()) {
                return true;
            }
        }
    }
    if let Some(name) = &listing.commune {
        if !name.as_str().is_empty() {
            let lowered = to_lower(name.as_str());
            return has_text(place.as_str(), lowered.as_str());
        }
    }
    false
}

fn lists_type(types: &Vec<PropertyType>, wanted: PropertyType) -> (r: bool)
    ensures
        r == types@.contains(wanted),
{
    let mut i: usize = 0;
    while i < types.len()
        invariant
            i <= types@.len(),
            forall|k: int| 0 <= k < i ==> types@[k] != wanted,
        decreases types@.len() - i,
    {
        if types[i] == wanted {
            return true;
        }
        i = i + 1;
    }
    false
}

/// Does a listing satisfy a search?
pub fn search_matches(search: &Search, listing: &Listing) -> (r: bool)
    ensures
        r == satisfies(*search, *listing),
{
    if !search.active || listing.status != ListingStatus::Active || listing.moderation
        != Moderation::Unmoderated {
        return false;
    }
    if search.locations.len() > 0 {
        let mut found: bool = false;
        let mut i: usize = 0;
        while i < search.locations.len() && !found
            invariant
                i <= search.locations@.len(),
                found ==> exists|k: int|
                    0 <= k < search.locations@.len() && located(
                        #[trigger] search.locations@[k]@,
                        *listing,
                    ),
                !found ==> forall|k: int|
                    0 <= k < i ==> !located(#[trigger] search.locations@[k]@, *listing),
            decreases search.locations@.len() - i,
        {
            found = location_matches(search.locations[i].as_str(), listing);
            i = i + 1;
        }
        if !found {
            return false;
        }
    }
    if let Some(max) = search.max_price_cents {
        if listing.price_cents > max {
            return false;
        }
    }
    if let Some(min) = search.min_surface_m2 {
        match listing.surface_m2 {
            Some(s) => {
                if !s.at_least(min) {
                    return false;
                }
            },
            None => {
                return false;
            },
        }
    }
    if let Some(min) = search.min_rooms {
        match listing.rooms {
            Some(n) => {
                if n < min {
                    return false;
                }
            },
            None => {
                return false;
            },
        }
    }
    if search.property_types.len() > 0 && !lists_type(
        &search.property_types,
        listing.property_type,
    ) {
        return false;
    }
    true
}

/// Criteria fail closed: a listing without a known surface never matches a
/// search for a minimal surface, one without a known number of rooms never one
/// for a minimal number of rooms.
pub proof fn law_criteria_fail_closed(search: Search, listing: Listing)
    ensures
        search.min_surface_m2 is Some && listing.surface_m2 is None ==> !satisfies(search, listing),
        search.min_rooms is Some && listing.rooms is None ==> !satisfies(search, listing),
{
}

/// A listing that is gone, dismissed or banned matches no search, and a paused
/// search matches no listing.
pub proof fn law_only_live_listings_match(search: Search, listing: Listing)
    ensures
        listing.status == ListingStatus::Gone ==> !satisfies(search, listing),
        listing.moderation != Moderation::Unmoderated ==> !satisfies(search, listing),
        !search.active ==> !satisfies(search, listing),
{
}

/// A search without criteria matches every live listing.
pub proof fn law_no_criteria_match_everything(search: Search, listing: Listing)
    requires
        search.active,
        search.locations@.len() == 0,
        search.max_price_cents is None,
        search.min_surface_m2 is None,
        search.min_rooms is None,
        search.property_types@.len() == 0,
    ensures
        satisfies(search, listing) <==> live(listing),
{
}

/// A cheaper price never loses a match.
pub proof fn law_cheaper_still_matches(search: Search, listing: Listing, cheaper: Listing)
    requires
        cheaper.price_cents <= listing.price_cents,
        cheaper == (Listing { price_cents: cheaper.price_cents, ..listing }),
        satisfies(search, listing),
    ensures
        satisfies(search, cheaper),
{
    if search.locations@.len() > 0 {
        let i = choose|i: int|
            0 <= i < search.locations@.len() && located(#[trigger] search.locations@[i]@, listing);
        assert(located(search.locations@[i]@, cheaper));
    }
}

} // verus!
