//! The HTTP API: what its handlers answer with.
use crate::listing::{Listing, ListingImage, ListingWithHistory, PricePoint};
use crate::pipeline::{says, Push};
use crate::search::{satisfies, search_matches, Search};
use crate::status::SourceStatus;
use crate::store::{DbImage, StoreError};
use crate::text::{
    comes_before, decimal, lemma_text_total, lemma_text_transitive, push_decimal, text_before,
};
use std::collections::HashMap;
use vstd::prelude::*;
use vstd::string::StringExecFns;

verus! {

/// The status of the answer to a request that the store refused.
pub fn error_status(error: &StoreError) -> (r: u16)
    ensures
        r == if *error is NotFound {
            404u16
        } else {
            500u16
        },
{
    match error {
        StoreError::NotFound => 404,
        StoreError::Corrupt(_) => 500,
    }
}

/// The positions of the listings that a search matches.
pub open spec fn matched_by(search: Search, listings: Seq<Listing>) -> Seq<int>
    decreases listings.len(),
{
    if listings.len() == 0 {
        Seq::empty()
    } else {
        let before = matched_by(search, listings.drop_last());
        if satisfies(search, listings.last()) {
            before.push(listings.len() - 1)
        } else {
            before
        }
    }
}

/// Matches all stored listings against a new or changed search: the positions
/// of those that satisfy it. Their matches are recorded as pushed, for one
/// summary in place of one push each.
pub fn retro_match(search: &Search, listings: &Vec<Listing>) -> (r: Vec<usize>)
    ensures
        r@.map_values(|i: usize| i as int) == matched_by(*search, listings@),
{
    let mut matched: Vec<usize> = Vec::new();
    let ghost position = |i: usize| i as int;
    let mut i: usize = 0;
    proof {
        assert(listings@.take(0) =~= Seq::<Listing>::empty());
        assert(matched@.map_values(position) =~= Seq::<int>::empty());
    }
    while i < listings.len()
        invariant
            i <= listings@.len(),
            position == (|i: usize| i as int),
            matched@.map_values(position) == matched_by(*search, listings@.take(i as int)),
        decreases listings@.len() - i,
    {
        proof {
            assert(listings@.take(i as int + 1).drop_last() =~= listings@.take(i as int));
            assert(listings@.take(i as int + 1).last() == listings@[i as int]);
        }
        if search_matches(search, &listings[i]) {
            let ghost before = matched@;
            matched.push(i);
            proof {
                assert(matched@.map_values(position) =~= before.map_values(position).push(
                    i as int,
                ));
            }
        }
        i = i + 1;
    }
    proof {
        assert(listings@.take(listings@.len() as int) =~= listings@);
    }
    matched
}

/// The push about a search that has been created.
pub open spec fn says_created(push: Push, name: Seq<char>, matched: nat) -> bool {
    says(
        push,
        "terrier: recherche « "@ + name + " » créée"@,
        if matched > 0 {
            decimal(matched) + " annonce(s) existante(s) correspondent déjà."@
        } else {
            "Aucune annonce existante ne correspond — les sources vont chercher."@
        },
        "mag"@,
        "default"@,
    )
}

/// The push about a search that has been created: how many listings it matches
/// already.
pub fn create_search(name: &str, matched: u64) -> (r: Push)
    ensures
        says_created(r, name@, matched as nat),
{
    let message = if matched > 0 {
        let mut s = String::new();
        push_decimal(&mut s, matched);
        s.append(" annonce(s) existante(s) correspondent déjà.");
        proof {
            assert(s@ =~= decimal(matched as nat)
                + " annonce(s) existante(s) correspondent déjà."@);
        }
        s
    } else {
        "Aucune annonce existante ne correspond — les sources vont chercher.".to_owned()
    };
    Push {
        title: "terrier: recherche « ".to_owned().concat(name).concat(" » créée"),
        message,
        tags: "mag".to_owned(),
        priority: "default".to_owned(),
    }
}

// ---------------------------------------------------------------------------
// Listings

/// A photo as the UI loads it: the local copy where there is one.
pub open spec fn image_text(image: DbImage) -> (i64, Seq<char>) {
    (
        image.position,
        match image.local_path {
            Some(p) => "/images/"@ + p@,
            None => image.url@,
        },
    )
}

pub open spec fn images_text(images: Seq<ListingImage>) -> Seq<(i64, Seq<char>)> {
    images.map_values(|i: ListingImage| (i.position, i.url@))
}

/// The photos of a listing as the UI loads them.
pub fn shown_images(images: &Vec<DbImage>) -> (r: Vec<ListingImage>)
    ensures
        images_text(r@) == images@.map_values(|i: DbImage| image_text(i)),
{
    let mut r: Vec<ListingImage> = Vec::new();
    let ghost show = |i: DbImage| image_text(i);
    let mut i: usize = 0;
    proof {
        assert(images_text(r@) =~= images@.map_values(show).take(0));
    }
    while i < images.len()
        invariant
            i <= images@.len(),
            show == (|i: DbImage| image_text(i)),
            images_text(r@) == images@.map_values(show).take(i as int),
        decreases images@.len() - i,
    {
        let url = match &images[i].local_path {
            Some(p) => "/images/".to_owned().concat(p.as_str()),
            None => images[i].url.clone(),
        };
        let ghost before = r@;
        r.push(ListingImage { position: images[i].position, url });
        proof {
            assert(images_text(r@) =~= images_text(before).push(image_text(images@[i as int])));
            assert(images@.map_values(show).take(i as int + 1) =~= images@.map_values(show).take(
                i as int,
            ).push(image_text(images@[i as int])));
        }
        i = i + 1;
    }
    proof {
        assert(images@.map_values(show).take(images@.len() as int) =~= images@.map_values(show));
    }
    r
}

/// No earlier listing has the same id.
pub open spec fn first_of_id(listings: Seq<Listing>, i: int) -> bool {
    forall|j: int| 0 <= j < i ==> (#[trigger] listings[j]).id != listings[i].id
}

/// The listing with its history and its photos, each empty where there is none.
pub open spec fn assembled(
    out: ListingWithHistory,
    listing: Listing,
    histories: Map<u128, Vec<PricePoint>>,
    images: Map<u128, Vec<DbImage>>,
) -> bool {
    &&& out.listing == listing
    &&& out.history@ == if histories.contains_key(listing.id) {
        histories[listing.id]@
    } else {
        Seq::empty()
    }
    &&& images_text(out.images@) == if images.contains_key(listing.id) {
        images[listing.id]@.map_values(|i: DbImage| image_text(i))
    } else {
        Seq::empty()
    }
}

/// The listings in order, each with its whole price history and its photos. A
/// history goes to the first listing of its id.
pub fn list_listings(
    listings: Vec<Listing>,
    histories: HashMap<u128, Vec<PricePoint>>,
    images: HashMap<u128, Vec<DbImage>>,
) -> (r: Vec<ListingWithHistory>)
    ensures
        r@.len() == listings@.len(),
        forall|i: int|
            0 <= i < r@.len() && first_of_id(listings@, i) ==> assembled(
                #[trigger] r@[i],
                listings@[i],
                histories@,
                images@,
            ),
        forall|i: int|
            0 <= i < r@.len() && !first_of_id(listings@, i) ==> assembled(
                #[trigger] r@[i],
                listings@[i],
                Map::empty(),
                Map::empty(),
            ),
{
    broadcast use vstd::std_specs::hash::group_hash_axioms;

    let ghost all = listings@;
    let ghost given_histories = histories@;
    let ghost given_images = images@;
    let mut histories = histories;
    let mut images = images;
    let mut out: Vec<ListingWithHistory> = Vec::new();
    for listing in it: listings
        invariant
            it.seq() == all,
            out@.len() == it.index(),
            forall|id: u128|
                #[trigger] histories@.contains_key(id) <==> (given_histories.contains_key(id)
                    && forall|j: int| 0 <= j < it.index() ==> (#[trigger] all[j]).id != id),
            forall|id: u128|
                histories@.contains_key(id) ==> #[trigger] histories@[id] == given_histories[id],
            forall|id: u128|
                #[trigger] images@.contains_key(id) <==> (given_images.contains_key(id)
                    && forall|j: int| 0 <= j < it.index() ==> (#[trigger] all[j]).id != id),
            forall|id: u128|
                images@.contains_key(id) ==> #[trigger] images@[id] == given_images[id],
            forall|i: int|
                0 <= i < out@.len() && first_of_id(all, i) ==> assembled(
                    #[trigger] out@[i],
                    all[i],
                    given_histories,
                    given_images,
                ),
            forall|i: int|
                0 <= i < out@.len() && !first_of_id(all, i) ==> assembled(
                    #[trigger] out@[i],
                    all[i],
                    Map::empty(),
                    Map::empty(),
                ),
    {
        broadcast use vstd::std_specs::hash::group_hash_axioms;

        let ghost at = it.index();
        proof {
            assert(all[at] == listing);
        }
        let history = match histories.remove(&listing.id) {
            Some(h) => h,
            None => Vec::new(),
        };
        let stored = match images.remove(&listing.id) {
            Some(i) => i,
            None => Vec::new(),
        };
        let shown = shown_images(&stored);
        proof {
            assert(Seq::<DbImage>::empty().map_values(|i: DbImage| image_text(i)) =~= Seq::<
                (i64, Seq<char>),
            >::empty());
        }
        out.push(ListingWithHistory { listing, history, images: shown });
    }
    out
}

// ---------------------------------------------------------------------------
// Status

/// The sources are in the order of their ids.
pub open spec fn sources_in_order(list: Seq<SourceStatus>) -> bool {
    forall|i: int, j: int|
        0 <= i < j < list.len() ==> !text_before(
            (#[trigger] list[j]).source_id@,
            (#[trigger] list[i]).source_id@,
        )
}

/// The sources by id.
pub fn sorted_sources(list: Vec<SourceStatus>) -> (r: Vec<SourceStatus>)
    ensures
        sources_in_order(r@),
        r@.to_multiset() == list@.to_multiset(),
{
    let ghost all = list@;
    let mut r: Vec<SourceStatus> = Vec::new();
    proof {
        assert(r@ =~= all.take(0));
    }
    for s in it: list
        invariant
            it.seq() == all,
            sources_in_order(r@),
            r@.to_multiset() == all.take(it.index()).to_multiset(),
    {
        let ghost before = r@;
        let mut p: usize = 0;
        while p < r.len() && !comes_before(s.source_id.as_str(), r[p].source_id.as_str())
            invariant
                p <= r@.len(),
                r@ == before,
                forall|k: int|
                    0 <= k < p ==> !text_before(s.source_id@, (#[trigger] before[k]).source_id@),
            decreases r@.len() - p,
        {
            p = p + 1;
        }
        r.insert(p, s);
        proof {
            assert(r@ =~= before.insert(p as int, s));
            vstd::seq_lib::to_multiset_insert(before, p as int, s);
            assert(all.take(it.index() + 1) =~= all.take(it.index()).push(s));
            vstd::seq_lib::to_multiset_build(all.take(it.index()), s);
            assert forall|i: int, j: int| 0 <= i < j < r@.len() implies !text_before(
                (#[trigger] r@[j]).source_id@,
                (#[trigger] r@[i]).source_id@,
            ) by {
                if i < p && j == p {
                    assert(!text_before(s.source_id@, before[i].source_id@));
                } else if i == p {
                    let next = before[p as int].source_id@;
                    let other = before[j - 1].source_id@;
                    assert(text_before(s.source_id@, next));
                    if text_before(other, s.source_id@) {
                        lemma_text_transitive(other, s.source_id@, next);
                        if j - 1 > p {
                            assert(!text_before(
                                before[j - 1].source_id@,
                                before[p as int].source_id@,
                            ));
                        } else {
                            lemma_text_total(other, other);
                        }
                    }
                } else {
                    let x = if i < p {
                        i
                    } else {
                        i - 1
                    };
                    let y = if j < p {
                        j
                    } else {
                        j - 1
                    };
                    assert(!text_before(before[y].source_id@, before[x].source_id@));
                }
            }
        }
    }
    proof {
        assert(all.take(all.len() as int) =~= all);
    }
    r
}

} // verus!
