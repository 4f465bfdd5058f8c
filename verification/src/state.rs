//! The locations that the sources scrape: those of the active searches, pooled.
use crate::search::Search;
use crate::text::{fold_all, same_folded, texts, trim, trim_text};
use vstd::prelude::*;

verus! {

/// The locations of a search as typed, trimmed; none where it is paused.
pub open spec fn locations_of(search: Search) -> Seq<Seq<char>> {
    if search.active {
        search.locations@.map_values(|l: String| trim(l@))
    } else {
        Seq::empty()
    }
}

/// The locations of all searches, in order.
pub open spec fn all_locations(searches: Seq<Search>) -> Seq<Seq<char>>
    decreases searches.len(),
{
    if searches.len() == 0 {
        Seq::empty()
    } else {
        all_locations(searches.drop_last()) + locations_of(searches.last())
    }
}

/// Some text of the list is this one but for the case of ASCII letters.
pub open spec fn lists_folded(list: Seq<Seq<char>>, text: Seq<char>) -> bool {
    exists|i: int| 0 <= i < list.len() && fold_all(#[trigger] list[i]) == fold_all(text)
}

/// The list without blanks, and without what came before in another case.
pub open spec fn distinct(list: Seq<Seq<char>>) -> Seq<Seq<char>>
    decreases list.len(),
{
    if list.len() == 0 {
        Seq::empty()
    } else {
        let before = distinct(list.drop_last());
        if list.last().len() == 0 || lists_folded(before, list.last()) {
            before
        } else {
            before.push(list.last())
        }
    }
}

fn holds_folded(list: &Vec<String>, text: &str) -> (r: bool)
    ensures
        r == lists_folded(texts(list@), text@),
{
    let mut i: usize = 0;
    while i < list.len()
        invariant
            i <= list@.len(),
            forall|k: int| 0 <= k < i ==> fold_all(#[trigger] texts(list@)[k]) != fold_all(text@),
        decreases list@.len() - i,
    {
        if same_folded(list[i].as_str(), text) {
            proof {
                assert(fold_all(texts(list@)[i as int]) == fold_all(text@));
            }
            return true;
        }
        proof {
            assert(texts(list@)[i as int] == list@[i as int]@);
        }
        i = i + 1;
    }
    false
}

/// Adds the locations of one search to the pool.
fn pool_search(pool: &mut Vec<String>, search: &Search, Ghost(done): Ghost<Seq<Seq<char>>>)
    requires
        texts(old(pool)@) == distinct(done),
    ensures
        texts(final(pool)@) == distinct(done + locations_of(*search)),
{
    if !search.active {
        proof {
            assert(done + locations_of(*search) =~= done);
        }
        return;
    }
    let ghost mine = locations_of(*search);
    let mut i: usize = 0;
    proof {
        assert(done + mine.take(0) =~= done);
    }
    while i < search.locations.len()
        invariant
            i <= search.locations@.len(),
            search.active,
            mine == locations_of(*search),
            texts(pool@) == distinct(done + mine.take(i as int)),
        decreases search.locations@.len() - i,
    {
        let location = trim_text(search.locations[i].as_str());
        proof {
            assert(mine[i as int] == location@);
            let now = done + mine.take(i as int + 1);
            assert(now.drop_last() =~= done + mine.take(i as int));
            assert(now.last() == location@);
        }
        if !location.as_str().is_empty() && !holds_folded(pool, location.as_str()) {
            let ghost before = pool@;
            pool.push(location);
            proof {
                assert(texts(pool@) =~= texts(before).push(location@));
            }
        }
        i = i + 1;
    }
    proof {
        assert(mine.take(search.locations@.len() as int) =~= mine);
    }
}

/// The locations of the active searches: trimmed, without blanks, each once
/// whatever its case, and no more than the cap.
pub fn refresh_search_locations(searches: &Vec<Search>, cap: usize) -> (r: Vec<String>)
    ensures
        ({
            let pooled = distinct(all_locations(searches@));
            texts(r@) == if pooled.len() <= cap {
                pooled
            } else {
                pooled.take(cap as int)
            }
        }),
{
    let mut pool: Vec<String> = Vec::new();
    let mut i: usize = 0;
    proof {
        assert(searches@.take(0) =~= Seq::<Search>::empty());
        assert(texts(pool@) =~= distinct(all_locations(searches@.take(0))));
    }
    while i < searches.len()
        invariant
            i <= searches@.len(),
            texts(pool@) == distinct(all_locations(searches@.take(i as int))),
        decreases searches@.len() - i,
    {
        let ghost done = all_locations(searches@.take(i as int));
        proof {
            assert(searches@.take(i as int + 1).drop_last() =~= searches@.take(i as int));
            assert(searches@.take(i as int + 1).last() == searches@[i as int]);
        }
        pool_search(&mut pool, &searches[i], Ghost(done));
        i = i + 1;
    }
    proof {
        assert(searches@.take(searches@.len() as int) =~= searches@);
    }
    let ghost pooled = texts(pool@);
    pool.truncate(cap);
    proof {
        if pooled.len() <= cap {
            assert(texts(pool@) =~= pooled);
        } else {
            assert(texts(pool@) =~= pooled.take(cap as int));
        }
    }
    pool
}

/// A pool holds no blank and no location twice, whatever the case; every
/// location in it is one of those pooled, and every one of those that is not
/// blank is in it in some case.
pub proof fn law_locations_are_distinct(list: Seq<Seq<char>>)
    ensures
        forall|i: int, j: int|
            0 <= i < j < distinct(list).len() ==> fold_all(#[trigger] distinct(list)[i])
                != fold_all(#[trigger] distinct(list)[j]),
        forall|i: int| 0 <= i < distinct(list).len() ==> (#[trigger] distinct(list)[i]).len() > 0,
        forall|i: int| 0 <= i < distinct(list).len() ==> list.contains(#[trigger] distinct(list)[i]),
        forall|k: int|
            0 <= k < list.len() && (#[trigger] list[k]).len() > 0 ==> lists_folded(
                distinct(list),
                list[k],
            ),
    decreases list.len(),
{
    if list.len() > 0 {
        let init = list.drop_last();
        let before = distinct(init);
        let now = distinct(list);
        law_locations_are_distinct(init);
        assert forall|i: int, j: int| 0 <= i < j < now.len() implies fold_all(#[trigger] now[i])
            != fold_all(#[trigger] now[j]) by {
            if j < before.len() {
                assert(now[i] == before[i] && now[j] == before[j]);
            } else {
                assert(now[i] == before[i]);
            }
        }
        assert forall|i: int| 0 <= i < now.len() implies list.contains(#[trigger] now[i]) by {
            if i < before.len() {
                assert(init.contains(before[i]));
                let k = choose|k: int| 0 <= k < init.len() && init[k] == before[i];
                assert(list[k] == now[i]);
            } else {
                assert(list[list.len() - 1] == now[i]);
            }
        }
        assert forall|i: int| 0 <= i < now.len() implies (#[trigger] now[i]).len() > 0 by {
            if i < before.len() {
                assert(before[i].len() > 0);
            }
        }
        assert forall|k: int| 0 <= k < list.len() && (#[trigger] list[k]).len() > 0 implies lists_folded(
            now,
            list[k],
        ) by {
            if k < init.len() {
                assert(init[k] == list[k]);
                assert(lists_folded(before, init[k]));
                let i = choose|i: int|
                    0 <= i < before.len() && fold_all(#[trigger] before[i]) == fold_all(init[k]);
                assert(now[i] == before[i]);
            } else if !lists_folded(before, list.last()) {
                assert(now[before.len() as int] == list.last());
            } else {
                let i = choose|i: int|
                    0 <= i < before.len() && fold_all(#[trigger] before[i]) == fold_all(
                        list.last(),
                    );
                assert(now[i] == before[i]);
            }
        }
    }
}

/// Paused searches add nothing to the rotation.
pub proof fn law_paused_searches_are_not_scraped(searches: Seq<Search>)
    requires
        forall|i: int| 0 <= i < searches.len() ==> !(#[trigger] searches[i]).active,
    ensures
        all_locations(searches) == Seq::<Seq<char>>::empty(),
    decreases searches.len(),
{
    if searches.len() > 0 {
        let init = searches.drop_last();
        assert forall|i: int| 0 <= i < init.len() implies !(#[trigger] init[i]).active by {
            assert(init[i] == searches[i]);
        }
        law_paused_searches_are_not_scraped(init);
        assert(!searches[searches.len() - 1].active);
    }
}

} // verus!
