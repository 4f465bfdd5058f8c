//! Scraping: places, crawls and the pauses between requests.
use crate::listing::RawListing;
use crate::politeness::delay_left;
use crate::scrape::{capitalized, location_words, merged_locations, slug, urls_of, with_fresh};
use crate::search::Search;
use crate::state::{all_locations, distinct, locations_of};
use crate::text::{fold_all, join, swap_char, trim, uppercase, words};
use vstd::prelude::*;

verus! {

/// The slug of a place is its words, capitalized, with spaces between them; a
/// postal code at the end stands behind an underscore, or alone.
pub proof fn law_slugs_name_town_and_code(raw: Seq<char>, name: Seq<Seq<char>>, code: Seq<char>)
    requires
        words(swap_char(trim(raw), '_', ' ')) == name.push(code),
    ensures
        code.len() == 5 && (forall|i: int| 0 <= i < 5 ==> 48 <= #[trigger] code[i] as int <= 57)
            && join(name.map_values(|w: Seq<char>| capitalized(w)), " "@).len() > 0 ==> slug(raw)
            == join(name.map_values(|w: Seq<char>| capitalized(w)), " "@) + "_"@ + code,
        code.len() == 5 && (forall|i: int| 0 <= i < 5 ==> 48 <= #[trigger] code[i] as int <= 57)
            && name.len() == 0 ==> slug(raw) == code,
        code.len() != 5 ==> slug(raw) == join(
            name.push(code).map_values(|w: Seq<char>| capitalized(w)),
            " "@,
        ),
        (exists|i: int| 0 <= i < code.len() && !(48 <= #[trigger] code[i] as int <= 57))
            ==> slug(raw) == join(
            name.push(code).map_values(|w: Seq<char>| capitalized(w)),
            " "@,
        ),
        location_words(raw) == name.push(code),
{
    assert(name.push(code).drop_last() =~= name);
    if name.len() == 0 {
        assert(join(name.map_values(|w: Seq<char>| capitalized(w)), " "@).len() == 0);
    }
    if exists|i: int| 0 <= i < code.len() && !(48 <= #[trigger] code[i] as int <= 57) {
        let i = choose|i: int| 0 <= i < code.len() && !(48 <= #[trigger] code[i] as int <= 57);
        assert(!crate::text::is_digit(code[i]));
    }
}

/// Capitalizing changes the first letter of a word and nothing else.
pub proof fn law_capitals_stand_first(c: char, rest: Seq<char>)
    ensures
        capitalized(seq![c] + rest) == uppercase(seq![c]) + rest,
        capitalized(Seq::empty()) == Seq::<char>::empty(),
{
    assert((seq![c] + rest).take(1) =~= seq![c]);
    assert((seq![c] + rest).skip(1) =~= rest);
}

/// Every location is scraped, those of the configuration first, and none twice
/// for having been added.
pub proof fn law_every_location_is_scraped(
    configured: Seq<Seq<char>>,
    extra: Seq<Seq<char>>,
    place: Seq<char>,
)
    ensures
        merged_locations(configured, extra).contains(place) <==> configured.contains(place)
            || extra.contains(place),
        configured.is_prefix_of(merged_locations(configured, extra)),
        configured.no_duplicates() ==> merged_locations(configured, extra).no_duplicates(),
    decreases extra.len(),
{
    let all = merged_locations(configured, extra);
    if extra.len() == 0 {
        assert(configured.take(configured.len() as int) =~= configured);
    } else {
        let init = extra.drop_last();
        let last = extra.last();
        let before = merged_locations(configured, init);
        law_every_location_is_scraped(configured, init, place);
        law_every_location_is_scraped(configured, init, last);
        assert(extra.contains(place) <==> init.contains(place) || place == last) by {
            if extra.contains(place) {
                let k = choose|k: int| 0 <= k < extra.len() && extra[k] == place;
                if k < init.len() {
                    assert(init[k] == place);
                }
            }
            if init.contains(place) {
                let k = choose|k: int| 0 <= k < init.len() && init[k] == place;
                assert(extra[k] == place);
            }
            assert(extra[extra.len() - 1] == last);
        }
        if !before.contains(last) {
            assert(all[before.len() as int] == last);
            if before.contains(place) {
                let k = choose|k: int| 0 <= k < before.len() && before[k] == place;
                assert(all[k] == place);
            }
            if all.contains(place) && place != last {
                let k = choose|k: int| 0 <= k < all.len() && all[k] == place;
                assert(before[k] == place);
            }
            assert(configured =~= all.take(configured.len() as int)) by {
                assert(configured =~= before.take(configured.len() as int));
            }
        }
    }
}

/// Of listings with one URL the first found stays, and every URL that a page
/// shows is found.
pub proof fn law_first_finds_stay(all: Seq<RawListing>, more: Seq<RawListing>, raw: RawListing)
    ensures
        with_fresh(all, Seq::empty()) == all,
        urls_of(with_fresh(all, more)).contains(raw.url@) ==> with_fresh(all, more.push(raw))
            == with_fresh(all, more),
        !urls_of(with_fresh(all, more)).contains(raw.url@) ==> with_fresh(all, more.push(raw))
            == with_fresh(all, more).push(raw),
        urls_of(all.push(raw)) == urls_of(all).push(raw.url@),
{
    assert(more.push(raw).drop_last() =~= more);
    assert(urls_of(all.push(raw)) =~= urls_of(all).push(raw.url@));
}

/// An active search puts all of its locations into the rotation, trimmed and in
/// order, behind those of the searches before it; a paused one none.
pub proof fn law_active_searches_are_scraped(searches: Seq<Search>, search: Search, i: int)
    ensures
        all_locations(Seq::empty()) == Seq::<Seq<char>>::empty(),
        all_locations(searches.push(search)) == all_locations(searches) + locations_of(search),
        search.active ==> locations_of(search).len() == search.locations@.len(),
        search.active && 0 <= i < search.locations@.len() ==> locations_of(search)[i] == trim(
            search.locations@[i]@,
        ),
        !search.active ==> locations_of(search).len() == 0,
{
    assert(searches.push(search).drop_last() =~= searches);
}

/// A location joins the rotation unless it is blank or stands there already, in
/// whatever case.
pub proof fn law_locations_join_once(list: Seq<Seq<char>>, place: Seq<char>)
    ensures
        distinct(Seq::empty()) == Seq::<Seq<char>>::empty(),
        place.len() == 0 ==> distinct(list.push(place)) == distinct(list),
        (exists|i: int|
            0 <= i < distinct(list).len() && fold_all(#[trigger] distinct(list)[i]) == fold_all(
                place,
            )) ==> distinct(list.push(place)) == distinct(list),
        place.len() > 0 && (forall|i: int|
            0 <= i < distinct(list).len() ==> fold_all(#[trigger] distinct(list)[i]) != fold_all(
                place,
            )) ==> distinct(list.push(place)) == distinct(list).push(place),
{
    assert(list.push(place).drop_last() =~= list);
}

/// A request waits for what is left of the pause, no longer, and the first one
/// not at all.
pub proof fn law_requests_wait_no_longer_than_needed(min_delay: int, elapsed: u128)
    requires
        min_delay >= 0,
    ensures
        delay_left(min_delay, None) == 0,
        0 <= delay_left(min_delay, Some(elapsed)) <= min_delay,
        elapsed <= min_delay ==> elapsed + delay_left(min_delay, Some(elapsed)) == min_delay,
        elapsed > min_delay ==> delay_left(min_delay, Some(elapsed)) == 0,
{
}

} // verus!
