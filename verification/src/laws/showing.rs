//! Showing: what the views say, in which order, and what the form makes.
use crate::api::{assembled, image_text, matched_by, says_created, sources_in_order};
use crate::double::Double;
use crate::fixed::{fixed_text, move_text, value_text};
use crate::limit::percent_of;
use crate::listing::{
    Listing, ListingStatus, ListingWithHistory, Moderation, PricePoint, PropertyType,
};
use crate::pipeline::{whole_euros, Push};
use crate::search::{satisfies, Search, SearchRequest};
use crate::status::{CommuneStat, SourceStatus};
use crate::store::DbImage;
use crate::text::{
    decimal, int_text, is_white, join, lemma_filter_push, parse_i64, split, text_before, texts,
    trim, uppercase,
};
use crate::ui::communes::{has_trend, median_text};
use crate::ui::listings::{
    fact_texts, has_moved, key_of, marks, move_of, place_text, stably_sorted, Sort,
};
use crate::ui::searches::{criteria_texts, form_requests, typed_euros, typed_locations, SearchForm};
use crate::ui::sparkline::{
    caption_text, highest, is_first_lowest, lowest, observation_text, pictures, point_texts, title_text, values,
    x_of, y_of, Spark,
};
use crate::ui::status::{ago_text, source_text, two_digits};
use crate::ui::{grouped, price_label};
use vstd::prelude::*;

verus! {

// ---------------------------------------------------------------------------
// Order

/// Listings are put in order by what the user chose: by price, by the price per
/// square metre with the unknown last, by the move of the price since the first
/// observation with the unknown last, or left as they came.
pub proof fn law_listings_are_ordered_by_choice(item: ListingWithHistory)
    ensures
        key_of(item, Sort::Price) == item.listing.price_cents,
        item.listing.m2_cents() matches Some(m2) ==> key_of(item, Sort::PricePerM2) == m2,
        item.listing.m2_cents() is None ==> key_of(item, Sort::PricePerM2) == i64::MAX,
        key_of(item, Sort::Recent) == 0,
        item.history@.len() == 0 ==> key_of(item, Sort::BiggestDrop) == i64::MAX,
        item.history@.len() > 0 && item.history@[0].price_cents <= 0 ==> key_of(
            item,
            Sort::BiggestDrop,
        ) == i64::MAX,
        item.history@.len() > 0 && item.history@[0].price_cents > 0 && item.listing.price_cents
            >= item.history@[0].price_cents ==> {
            let d = (item.listing.price_cents - item.history@[0].price_cents) * 1000;
            let k = key_of(item, Sort::BiggestDrop);
            k * item.history@[0].price_cents <= d < (k + 1) * item.history@[0].price_cents
        },
        item.history@.len() > 0 && item.history@[0].price_cents > 0 && item.listing.price_cents
            < item.history@[0].price_cents ==> {
            let d = (item.history@[0].price_cents - item.listing.price_cents) * 1000;
            let k = -key_of(item, Sort::BiggestDrop);
            k * item.history@[0].price_cents <= d < (k + 1) * item.history@[0].price_cents
        },
{
    if item.history@.len() > 0 && item.history@[0].price_cents > 0 {
        let first = item.history@[0].price_cents as int;
        let d = (item.listing.price_cents - first) * 1000;
        let a = if d >= 0 {
            d
        } else {
            -d
        };
        vstd::arithmetic::div_mod::lemma_fundamental_div_mod(a, first);
        let k = a / first;
        assert(k * first == first * k) by (nonlinear_arith);
        assert((k + 1) * first == first * k + first) by (nonlinear_arith);
        assert(move_of(item) == if d >= 0 {
            k
        } else {
            -k
        });
    }
}

/// What is put in order is all there, smaller keys first, equal keys as they
/// came.
pub proof fn law_sorting_keeps_everything<T>(
    out: Seq<(i64, T)>,
    items: Seq<(i64, T)>,
    i: int,
    j: int,
    key: i64,
)
    requires
        stably_sorted(out, items),
        0 <= i < j < out.len(),
    ensures
        out[i].0 <= out[j].0,
        out.filter(|x: (i64, T)| x.0 == key) == items.filter(|x: (i64, T)| x.0 == key),
{
    let same = |x: (i64, T)| x.0 == key;
    assert(crate::ui::listings::has_key::<T>(key) =~= same);
    assert(out.filter(crate::ui::listings::has_key::<T>(key)) == items.filter(
        crate::ui::listings::has_key::<T>(key),
    ));
}

/// Sources are shown by id.
pub proof fn law_sources_are_shown_by_id(list: Seq<SourceStatus>, i: int, j: int)
    requires
        sources_in_order(list),
        0 <= i < j < list.len(),
    ensures
        !text_before(list[j].source_id@, list[i].source_id@),
{
}

// ---------------------------------------------------------------------------
// Prices

/// A price is shown in whole euros; between groups of three digits, counted from
/// the right, stands a narrow space.
pub proof fn law_prices_are_shown_in_groups(head: Seq<char>, tail: Seq<char>, cents: int)
    requires
        tail.len() == 3,
    ensures
        head.len() > 0 ==> grouped(head + tail) == grouped(head) + seq!['\u{202f}'] + tail,
        head.len() <= 3 ==> grouped(head) == head,
        cents >= 0 ==> price_label(cents) == grouped(decimal((cents / 100) as nat)) + " €"@,
        cents < 0 && whole_euros(cents) != 0 ==> price_label(cents) == seq!['-'] + grouped(
            decimal((-whole_euros(cents)) as nat),
        ) + " €"@,
{
    if head.len() > 0 {
        let all = head + tail;
        assert(all.take(all.len() - 3) =~= head);
        assert(all.skip(all.len() - 3) =~= tail);
        assert(grouped(head).push('\u{202f}') =~= grouped(head) + seq!['\u{202f}']);
    }
}

/// A move is shown with its sign: a fall with a minus, a rise or none with a
/// plus, in percent of the price before.
pub proof fn law_moves_are_shown_with_their_sign(now: int, before: int)
    ensures
        now < before ==> move_text(now, before) == "-"@ + value_text(
            percent_of(before - now, before),
            1,
        ),
        now >= before ==> move_text(now, before) == "+"@ + value_text(
            percent_of(now - before, before),
            1,
        ),
{
}

// ---------------------------------------------------------------------------
// Cards

/// The facts on a card are all that is known, in order: the type first, the
/// source last; surface, rooms, plot and place where they are known.
pub proof fn law_cards_state_every_fact(l: Listing, k: int)
    ensures
        fact_texts(l).len() >= 2,
        fact_texts(l)[0] == l.property_type.label_text(),
        fact_texts(l).last() == l.source_id@,
        l.surface_m2 matches Some(s) ==> fact_texts(l).contains(fixed_text(s, 0) + " m²"@),
        l.rooms matches Some(n) ==> fact_texts(l).contains(int_text(n as int) + " p."@),
        l.land_m2 matches Some(s) ==> fact_texts(l).contains(
            "terrain "@ + fixed_text(s, 0) + " m²"@,
        ),
        l.commune matches Some(c) ==> fact_texts(l).contains(place_text(c@, l.postal_code)),
        fact_texts(l).len() == 2 + (if l.surface_m2 is Some {
            1int
        } else {
            0
        }) + (if l.rooms is Some {
            1int
        } else {
            0
        }) + (if l.land_m2 is Some {
            1int
        } else {
            0
        }) + (if l.commune is Some {
            1int
        } else {
            0
        }),
{
    let f = fact_texts(l);
    let a: int = if l.surface_m2 is Some {
        1
    } else {
        0
    };
    let b: int = if l.rooms is Some {
        1
    } else {
        0
    };
    let c: int = if l.land_m2 is Some {
        1
    } else {
        0
    };
    if l.surface_m2 is Some {
        assert(f[1] == fixed_text(l.surface_m2->0, 0) + " m²"@);
    }
    if l.rooms is Some {
        assert(f[1 + a] == int_text(l.rooms->0 as int) + " p."@);
    }
    if l.land_m2 is Some {
        assert(f[1 + a + b] == "terrain "@ + fixed_text(l.land_m2->0, 0) + " m²"@);
    }
    if l.commune is Some {
        assert(f[1 + a + b + c] == place_text(l.commune->0@, l.postal_code));
    }
}

/// A place is a commune, with its postal code in brackets where it is known.
pub proof fn law_places_have_their_code(commune: Seq<char>, code: String)
    ensures
        place_text(commune, Some(code)) == commune + " ("@ + code@ + ")"@,
        place_text(commune, None) == commune,
{
}

/// A card is marked with the energy rating, the move of the price, the wanted
/// ad, the verdict and the disappearance, each exactly where there is one.
pub proof fn law_cards_are_marked_where_there_is_cause(item: ListingWithHistory)
    ensures
        ({
            let l = item.listing;
            let m = marks(item);
            let moved = item.history@.len() > 0 && item.history@[0].price_cents > 0
                && item.history@[0].price_cents != l.price_cents;
            &&& l.dpe matches Some(d) ==> m.contains(
                ("badge dpe dpe-"@ + d@, "DPE "@ + uppercase(d@)),
            )
            &&& moved && l.price_cents < item.history@[0].price_cents ==> m.contains(
                (
                    "badge ok"@,
                    move_text(l.price_cents as int, item.history@[0].price_cents as int)
                        + "% depuis publication"@,
                ),
            )
            &&& moved && l.price_cents > item.history@[0].price_cents ==> m.contains(
                (
                    "badge warn"@,
                    move_text(l.price_cents as int, item.history@[0].price_cents as int)
                        + "% depuis publication"@,
                ),
            )
            &&& l.wanted() ==> m.contains(("badge muted"@, "recherche (pas une offre)"@))
            &&& l.moderation == Moderation::Dismissed ==> m.contains(("badge muted"@, "masquée"@))
            &&& l.moderation == Moderation::Banned ==> m.contains(("badge bad"@, "bannie"@))
            &&& l.status == ListingStatus::Gone ==> m.contains(("badge muted"@, "disparue"@))
            &&& m.len() == (if l.dpe is Some {
                1int
            } else {
                0
            }) + (if moved {
                1int
            } else {
                0
            }) + (if l.wanted() {
                1int
            } else {
                0
            }) + (if l.moderation != Moderation::Unmoderated {
                1int
            } else {
                0
            }) + (if l.status == ListingStatus::Gone {
                1int
            } else {
                0
            })
        }),
{
    let l = item.listing;
    let m = marks(item);
    let moved = has_moved(item);
    let a: int = if l.dpe is Some {
        1
    } else {
        0
    };
    let b: int = if moved {
        1
    } else {
        0
    };
    let c: int = if l.wanted() {
        1
    } else {
        0
    };
    let d: int = if l.moderation != Moderation::Unmoderated {
        1
    } else {
        0
    };
    if l.dpe is Some {
        assert(m[0] == ("badge dpe dpe-"@ + l.dpe->0@, "DPE "@ + uppercase(l.dpe->0@)));
    }
    if moved {
        assert(m.contains(m[a]));
    }
    if l.wanted() {
        assert(m[a + b] == ("badge muted"@, "recherche (pas une offre)"@));
    }
    if l.moderation == Moderation::Dismissed {
        assert(m[a + b + c] == ("badge muted"@, "masquée"@));
    }
    if l.moderation == Moderation::Banned {
        assert(m[a + b + c] == ("badge bad"@, "bannie"@));
    }
    if l.status == ListingStatus::Gone {
        assert(m[a + b + c + d] == ("badge muted"@, "disparue"@));
    }
}

/// A photo is shown from its local copy where there is one, else from its source.
pub proof fn law_photos_are_shown_locally(image: DbImage)
    ensures
        image_text(image).0 == image.position,
        image.local_path matches Some(p) ==> image_text(image).1 == "/images/"@ + p@,
        image.local_path is None ==> image_text(image).1 == image.url@,
{
}

/// A listing is shown with its own history and its own photos, all of them, each
/// empty where there is none.
pub proof fn law_listings_are_shown_with_their_history(
    out: ListingWithHistory,
    listing: Listing,
    histories: Map<u128, Vec<PricePoint>>,
    images: Map<u128, Vec<DbImage>>,
)
    requires
        assembled(out, listing, histories, images),
    ensures
        out.listing == listing,
        histories.contains_key(listing.id) ==> out.history@ == histories[listing.id]@,
        !histories.contains_key(listing.id) ==> out.history@.len() == 0,
        images.contains_key(listing.id) ==> out.images@.len() == images[listing.id]@.len()
            && forall|i: int|
            0 <= i < out.images@.len() ==> (#[trigger] out.images@[i]).position
                == images[listing.id]@[i].position,
        !images.contains_key(listing.id) ==> out.images@.len() == 0,
{
    let shown = crate::api::images_text(out.images@);
    assert(shown.len() == out.images@.len());
    if images.contains_key(listing.id) {
        assert forall|i: int| 0 <= i < out.images@.len() implies (#[trigger] out.images@[i]).position
            == images[listing.id]@[i].position by {
            assert(shown[i] == image_text(images[listing.id]@[i]));
        }
    }
}

/// A new search is told of every stored listing that it matches, in order, and
/// its push says how many there are.
pub proof fn law_new_searches_look_back(
    search: Search,
    listings: Seq<Listing>,
    listing: Listing,
    push: Push,
    name: Seq<char>,
    n: nat,
)
    ensures
        matched_by(search, Seq::empty()) == Seq::<int>::empty(),
        satisfies(search, listing) ==> matched_by(search, listings.push(listing)) == matched_by(
            search,
            listings,
        ).push(listings.len() as int),
        !satisfies(search, listing) ==> matched_by(search, listings.push(listing)) == matched_by(
            search,
            listings,
        ),
        says_created(push, name, n) && n > 0 ==> push.message@ == decimal(n)
            + " annonce(s) existante(s) correspondent déjà."@,
        says_created(push, name, n) ==> push.title@ == "terrier: recherche « "@ + name
            + " » créée"@,
{
    assert(listings.push(listing).drop_last() =~= listings);
}

// ---------------------------------------------------------------------------
// Searches

/// The form makes the request that was typed: the name and each location
/// trimmed, the price in cents, the rooms, the ticked types; it is active.
pub proof fn law_forms_request_what_was_typed(
    r: SearchRequest,
    form: SearchForm,
    surface: Option<Double>,
)
    requires
        form_requests(r, form, surface),
    ensures
        r.name@ == trim(form.name@),
        texts(r.locations@) == typed_locations(form.locations@),
        typed_euros(form.max_price@) matches Some(e) ==> r.max_price_cents == Some(
            (100 * e) as i64,
        ),
        typed_euros(form.max_price@) is None ==> r.max_price_cents is None,
        r.min_surface_m2 == surface,
        r.min_rooms == parse_i64(trim(form.min_rooms@)),
        r.property_types@ == form.types@,
        r.active,
{
}

/// Locations are typed with commas between them, each trimmed; blanks do not
/// count.
pub proof fn law_locations_are_typed_with_commas(first: Seq<char>, rest: Seq<char>)
    requires
        !first.contains(','),
    ensures
        trim(first).len() > 0 ==> typed_locations(first) == seq![trim(first)] && typed_locations(
            first.push(',') + rest,
        ) == seq![trim(first)] + typed_locations(rest),
        trim(first).len() == 0 ==> typed_locations(first).len() == 0 && typed_locations(
            first.push(',') + rest,
        ) == typed_locations(rest),
{
    let sep = |c: char| c == ',';
    let cut = |l: Seq<char>| trim(l);
    let keep = |l: Seq<char>| l.len() > 0;
    assert forall|i: int| 0 <= i < first.len() implies !sep(#[trigger] first[i]) by {
        assert(first.contains(first[i]));
    }
    crate::laws::texts::law_splitting(first, ',', rest, sep);
    let tail = split(rest, sep).map_values(cut);
    assert(seq![first].map_values(cut) =~= seq![trim(first)]);
    assert((seq![first] + split(rest, sep)).map_values(cut) =~= seq![trim(first)] + tail);
    Seq::filter_distributes_over_add(seq![trim(first)], tail, keep);
    lemma_filter_push(Seq::<Seq<char>>::empty(), trim(first), keep);
    assert(Seq::<Seq<char>>::empty().push(trim(first)) =~= seq![trim(first)]);
    assert(Seq::<Seq<char>>::empty().filter(keep) =~= Seq::<Seq<char>>::empty()) by {
        reveal(Seq::filter);
    }
    assert(Seq::<Seq<char>>::empty() + tail.filter(keep) =~= tail.filter(keep));
}

/// A price is typed in whole euros; blanks at its ends and spaces between its
/// digits do not count.
pub proof fn law_prices_are_typed_in_euros(a: Seq<char>, b: Seq<char>, space: char)
    requires
        a.len() > 0 && b.len() > 0,
        forall|i: int| 0 <= i < a.len() ==> !is_white(#[trigger] a[i]),
        forall|i: int| 0 <= i < b.len() ==> !is_white(#[trigger] b[i]),
        space == ' ' || space == '\u{202f}',
    ensures
        typed_euros(a) == parse_i64(a),
        typed_euros(a.push(space) + b) == parse_i64(a + b),
{
    let keep = |c: char| c != ' ' && c != '\u{202f}';
    let none = Seq::<char>::empty();
    let s = a.push(space) + b;
    crate::laws::texts::law_trimming(none, a, none);
    crate::laws::texts::law_trimming(none, s, none);
    assert(none + a + none =~= a);
    assert(none + s + none =~= s);
    assert forall|i: int| 0 <= i < a.len() implies keep(#[trigger] a[i]) by {
        assert(!is_white(a[i]));
    }
    assert forall|i: int| 0 <= i < b.len() implies keep(#[trigger] b[i]) by {
        assert(!is_white(b[i]));
    }
    crate::normalize::lemma_filter_all(a, keep);
    crate::normalize::lemma_filter_all(b, keep);
    lemma_filter_push(a, space, keep);
    Seq::filter_distributes_over_add(a.push(space), b, keep);
}

/// The row of a search states each criterion that is set, the locations first.
pub proof fn law_rows_state_every_criterion(s: Search)
    ensures
        criteria_texts(s)[0] == join(texts(s.locations@), ", "@),
        s.max_price_cents matches Some(c) ==> criteria_texts(s).contains(
            "≤ "@ + price_label(c as int),
        ),
        s.min_surface_m2 matches Some(m) ==> criteria_texts(s).contains(
            "≥ "@ + fixed_text(m, 0) + " m²"@,
        ),
        s.min_rooms matches Some(n) ==> criteria_texts(s).contains(
            "≥ "@ + int_text(n as int) + " pièces"@,
        ),
        s.property_types@.len() > 0 ==> criteria_texts(s).contains(
            join(s.property_types@.map_values(|t: PropertyType| t.label_text()), "/"@),
        ),
        criteria_texts(s).len() == 1 + (if s.max_price_cents is Some {
            1int
        } else {
            0
        }) + (if s.min_surface_m2 is Some {
            1int
        } else {
            0
        }) + (if s.min_rooms is Some {
            1int
        } else {
            0
        }) + (if s.property_types@.len() > 0 {
            1int
        } else {
            0
        }),
{
    let f = criteria_texts(s);
    let a: int = if s.max_price_cents is Some {
        1
    } else {
        0
    };
    let b: int = if s.min_surface_m2 is Some {
        1
    } else {
        0
    };
    let c: int = if s.min_rooms is Some {
        1
    } else {
        0
    };
    if s.max_price_cents is Some {
        assert(f[1] == "≤ "@ + price_label(s.max_price_cents->0 as int));
    }
    if s.min_surface_m2 is Some {
        assert(f[1 + a] == "≥ "@ + fixed_text(s.min_surface_m2->0, 0) + " m²"@);
    }
    if s.min_rooms is Some {
        assert(f[1 + a + b] == "≥ "@ + int_text(s.min_rooms->0 as int) + " pièces"@);
    }
    if s.property_types@.len() > 0 {
        assert(f.contains(f[1 + a + b + c]));
    }
}

// ---------------------------------------------------------------------------
// Communes and sources

/// A median is shown in whole euros, a dash where there is none; there is a
/// trend where both medians are known and the earlier one is positive.
pub proof fn law_medians_are_shown_in_euros(cents: i64, s: CommuneStat)
    ensures
        median_text(Some(cents)) == int_text(whole_euros(cents as int)) + " €"@,
        median_text(None) == "—"@,
        has_trend(s) <==> s.median_m2_cents is Some && s.median_m2_cents_30d is Some
            && s.median_m2_cents_30d->0 > 0,
{
}

/// How long ago a source ran is said in minutes, and from an hour on in hours and
/// minutes.
pub proof fn law_times_are_said_in_hours_and_minutes(m: i64, n: nat)
    ensures
        ago_text(None) == "waiting for first pass"@,
        m < 1 ==> ago_text(Some(m)) == "just now"@,
        1 <= m < 60 ==> ago_text(Some(m)) == decimal(m as nat) + " min ago"@,
        m >= 60 ==> ago_text(Some(m)) == decimal((m / 60) as nat) + "h"@ + two_digits(
            (m % 60) as nat,
        ) + " ago"@,
        n < 10 ==> two_digits(n) == seq!['0'] + decimal(n),
        n >= 10 ==> two_digits(n) == decimal(n),
{
}

/// A source that failed last is said to fail; one that ran is said to have
/// fetched; one that has not is said to wait.
pub proof fn law_sources_say_how_they_are(s: SourceStatus, minutes: Option<i64>)
    ensures
        s.last_error is Some ==> source_text(s, minutes) == s.source_id@ + " ✗ failing, "@
            + ago_text(minutes),
        s.last_error is None && s.last_stats is Some ==> source_text(s, minutes) == s.source_id@
            + " ✓ "@ + decimal(s.last_stats->0.fetched as nat) + " annonces, "@ + ago_text(minutes),
        s.last_error is None && s.last_stats is None ==> source_text(s, minutes) == s.source_id@
            + " · every "@ + decimal(s.interval_minutes as nat) + " min, "@ + ago_text(minutes),
{
}

// ---------------------------------------------------------------------------
// Sparklines

/// The lowest price is one of the prices and none is lower; the highest
/// likewise.
pub proof fn law_extremes_are_prices(prices: Seq<i64>, i: int)
    requires
        0 <= i < prices.len(),
    ensures
        lowest(prices) <= prices[i] <= highest(prices),
        exists|k: int| 0 <= k < prices.len() && #[trigger] prices[k] == lowest(prices),
        exists|k: int| 0 <= k < prices.len() && #[trigger] prices[k] == highest(prices),
    decreases prices.len(),
{
    if prices.len() > 1 {
        let init = prices.drop_last();
        law_extremes_are_prices(init, 0);
        if i < init.len() {
            law_extremes_are_prices(init, i);
            assert(init[i] == prices[i]);
        }
        let a = choose|k: int| 0 <= k < init.len() && #[trigger] init[k] == lowest(init);
        let b = choose|k: int| 0 <= k < init.len() && #[trigger] init[k] == highest(init);
        assert(prices[a] == init[a] && prices[b] == init[b]);
        assert(prices[prices.len() - 1] == prices.last());
    } else {
        assert(prices[0] == lowest(prices) && prices[0] == highest(prices));
    }
}

/// A picture shows every observation: one point each, from the first on; the
/// marks stand at the latest price and at the lowest; the title lists them all.
pub proof fn law_pictures_show_every_observation(
    s: Spark,
    prices: Seq<PricePoint>,
    currency: Seq<char>,
    i: int,
)
    requires
        pictures(s, prices, currency),
        0 <= i < prices.len(),
    ensures
        ({
            let v = values(prices);
            &&& v.len() == prices.len() && v[i] == prices[i].price_cents
            &&& prices.len() > 1 ==> s.line is Some && s.line->0@ == join(point_texts(v), " "@)
            &&& prices.len() == 1 ==> s.line is None
            &&& point_texts(v).len() == v.len()
            &&& point_texts(v)[i] == value_text(x_of(v.len() as int, i), 1) + ","@ + value_text(
                y_of(prices[i].price_cents as int, lowest(v), highest(v)),
                1,
            )
            &&& s.x@ == value_text(x_of(v.len() as int, v.len() - 1), 1)
            &&& s.y@ == value_text(
                y_of(prices.last().price_cents as int, lowest(v), highest(v)),
                1,
            )
            &&& s.low_y@ == value_text(y_of(lowest(v), lowest(v), highest(v)), 1)
            &&& s.title@ == title_text(prices, currency)
            &&& s.caption@ == caption_text(v, currency)
            &&& observation_text(prices[i], currency) == prices[i].day@ + ": "@
                + crate::fixed::euros_text(prices[i].price_cents as int, 2) + " "@ + currency
        }),
{
}

/// The mark of the lowest price stands at the first price that no other is below.
pub proof fn law_the_first_lowest_price_is_marked(prices: Seq<i64>, k: int, j: int)
    requires
        0 <= j < prices.len(),
        is_first_lowest(prices, k),
    ensures
        0 <= k < prices.len(),
        prices[k] <= prices[j],
        j < k ==> prices[k] < prices[j],
{
    law_extremes_are_prices(prices, j);
}

} // verus!
