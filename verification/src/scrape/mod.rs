//! Source plugins: each turns the pages of its source into raw listings.
pub mod leboncoin;
pub mod ouestfrance;

use crate::listing::RawListing;
use crate::normalize::{cleaned, lemma_join_without, lemma_joined_words, lemma_words};
use crate::text::{
    all_digits, chars_of, is_digit, is_white, join, joined, lemma_filter_push,
    lemma_split_nonempty, lists, only_digits, same_text, split, string_of, swap_char, swapped_char,
    texts, to_upper, trim, trim_end, trim_start, trim_text, uppercase, words, words_of,
};
use vstd::prelude::*;
use vstd::string::StringExecFns;

verus! {

/// Five digits: a French postal code.
pub open spec fn is_postal_code(word: Seq<char>) -> bool {
    word.len() == 5 && all_digits(word)
}

pub fn looks_like_postal_code(word: &str) -> (r: bool)
    ensures
        r == is_postal_code(word@),
{
    let chars = chars_of(word);
    chars.len() == 5 && only_digits(chars.as_slice())
}

/// The word with its first letter in upper case.
pub open spec fn capitalized(word: Seq<char>) -> Seq<char> {
    if word.len() == 0 {
        word
    } else {
        uppercase(word.take(1)) + word.skip(1)
    }
}

fn capitalize(word: &str) -> (r: String)
    ensures
        r@ == capitalized(word@),
{
    let chars = chars_of(word);
    if chars.len() == 0 {
        return word.to_owned();
    }
    let first = string_of(vstd::slice::slice_subrange(chars.as_slice(), 0, 1));
    let rest = string_of(vstd::slice::slice_subrange(chars.as_slice(), 1, chars.len()));
    proof {
        assert(first@ =~= word@.take(1));
        assert(rest@ =~= word@.skip(1));
    }
    to_upper(first.as_str()).concat(rest.as_str())
}

/// The words of a location as typed, underscores counting as spaces.
pub open spec fn location_words(raw: Seq<char>) -> Seq<Seq<char>> {
    words(swap_char(trim(raw), '_', ' '))
}

/// The `Ville_CP` form of a location: the capitalized words of the name, and
/// behind an underscore the postal code, where the last word is one.
pub open spec fn slug(raw: Seq<char>) -> Seq<char> {
    let all = location_words(raw);
    let coded = all.len() > 0 && is_postal_code(all.last());
    let name = if coded {
        all.drop_last()
    } else {
        all
    };
    let city = join(name.map_values(|w: Seq<char>| capitalized(w)), " "@);
    if !coded {
        city
    } else if city.len() == 0 {
        all.last()
    } else {
        city + "_"@ + all.last()
    }
}

/// "Rennes 35000", "rennes_35000" or "Saint-Malo 35400" in the `Ville_CP` form
/// that the `locations=` parameter wants.
pub fn location_slug(raw: &str) -> (r: String)
    ensures
        r@ == slug(raw@),
{
    let trimmed = trim_text(raw);
    let spaced = swapped_char(trimmed.as_str(), '_', ' ');
    let mut list = words_of(spaced.as_str());
    let ghost all = texts(list@);
    let mut code: Option<String> = None;
    if list.len() > 0 && looks_like_postal_code(list[list.len() - 1].as_str()) {
        proof {
            assert(all.last() == list@.last()@);
        }
        let ghost before = list@;
        code = list.pop();
        proof {
            assert(texts(list@) =~= all.drop_last());
        }
    }
    let ghost name = texts(list@);
    let ghost cap = |w: Seq<char>| capitalized(w);
    proof {
        if all.len() > 0 && code is None {
            assert(all.last() == list@.last()@);
        }
    }
    let mut parts: Vec<String> = Vec::new();
    let mut i: usize = 0;
    while i < list.len()
        invariant
            i <= list@.len(),
            name == texts(list@),
            cap == (|w: Seq<char>| capitalized(w)),
            texts(parts@) == name.map_values(cap).take(i as int),
        decreases list@.len() - i,
    {
        let ghost before = parts@;
        parts.push(capitalize(list[i].as_str()));
        proof {
            assert(texts(parts@) =~= texts(before).push(capitalized(name[i as int])));
            assert(name.map_values(cap).take(i as int + 1) =~= name.map_values(cap).take(
                i as int,
            ).push(capitalized(name[i as int])));
        }
        i = i + 1;
    }
    proof {
        assert(name.map_values(cap).take(list@.len() as int) =~= name.map_values(cap));
    }
    let city = joined(&parts, " ");
    match code {
        None => city,
        Some(cp) => if city.as_str().is_empty() {
            cp
        } else {
            city.concat("_").concat(cp.as_str())
        },
    }
}

/// White space at the start of a text is no part of its words.
proof fn lemma_words_skip(t: Seq<char>)
    requires
        t.len() > 0,
        is_white(t[0]),
    ensures
        words(t.skip(1)) == words(t),
{
    let sep = |c: char| is_white(c);
    let keep = |w: Seq<char>| w.len() > 0;
    lemma_split_skip(t, sep);
    let first = seq![Seq::<char>::empty()];
    let rest = split(t.skip(1), sep);
    Seq::filter_distributes_over_add(first, rest, keep);
    lemma_filter_push(Seq::<Seq<char>>::empty(), Seq::<char>::empty(), keep);
    assert(Seq::<Seq<char>>::empty().push(Seq::<char>::empty()) =~= first);
    assert(first.filter(keep) =~= Seq::<Seq<char>>::empty()) by {
        reveal(Seq::filter);
    }
    assert(first.filter(keep) + rest.filter(keep) =~= rest.filter(keep));
}

/// A separator at the start of a text makes an empty first piece.
proof fn lemma_split_skip(t: Seq<char>, sep: spec_fn(char) -> bool)
    requires
        t.len() > 0,
        sep(t[0]),
    ensures
        split(t, sep) == seq![Seq::<char>::empty()] + split(t.skip(1), sep),
    decreases t.len(),
{
    let first = seq![Seq::<char>::empty()];
    let tail = t.skip(1);
    lemma_split_nonempty(tail, sep);
    if t.len() == 1 {
        assert(t.drop_last() =~= Seq::<char>::empty());
        assert(tail =~= Seq::<char>::empty());
        assert(split(t, sep) =~= first + split(tail, sep));
    } else {
        let init = t.drop_last();
        lemma_split_skip(init, sep);
        assert(init.skip(1) =~= tail.drop_last());
        let rest = split(tail.drop_last(), sep);
        lemma_split_nonempty(tail.drop_last(), sep);
        assert(tail.last() == t.last());
        assert((first + rest).drop_last() =~= first + rest.drop_last());
        assert((first + rest).last() == rest.last());
        assert(split(t, sep) =~= first + split(tail, sep));
    }
}

/// White space at the end of a text is no part of its words.
proof fn lemma_words_drop(t: Seq<char>)
    requires
        t.len() > 0,
        is_white(t.last()),
    ensures
        words(t.drop_last()) == words(t),
{
    let sep = |c: char| is_white(c);
    let keep = |w: Seq<char>| w.len() > 0;
    lemma_filter_push(split(t.drop_last(), sep), Seq::<char>::empty(), keep);
}

/// Trimming takes nothing from the words of a location.
proof fn lemma_trimmed_words(s: Seq<char>)
    ensures
        location_words(s) == words(swap_char(s, '_', ' ')),
{
    lemma_trim_start_words(s);
    lemma_trim_end_words(trim_start(s));
}

proof fn lemma_trim_start_words(s: Seq<char>)
    ensures
        words(swap_char(trim_start(s), '_', ' ')) == words(swap_char(s, '_', ' ')),
    decreases s.len(),
{
    if s.len() > 0 && is_white(s[0]) {
        lemma_trim_start_words(s.skip(1));
        assert(swap_char(s.skip(1), '_', ' ') =~= swap_char(s, '_', ' ').skip(1));
        lemma_words_skip(swap_char(s, '_', ' '));
    }
}

proof fn lemma_trim_end_words(s: Seq<char>)
    ensures
        words(swap_char(trim_end(s), '_', ' ')) == words(swap_char(s, '_', ' ')),
    decreases s.len(),
{
    if s.len() > 0 && is_white(s.last()) {
        lemma_trim_end_words(s.drop_last());
        assert(swap_char(s.drop_last(), '_', ' ') =~= swap_char(s, '_', ' ').drop_last());
        lemma_words_drop(swap_char(s, '_', ' '));
    }
}

/// Underscores and spaces make the same slug.
pub proof fn law_slugs_take_either_form(raw: Seq<char>)
    ensures
        slug(swap_char(raw, '_', ' ')) == slug(raw),
{
    let spaced = swap_char(raw, '_', ' ');
    lemma_trimmed_words(raw);
    lemma_trimmed_words(spaced);
    assert(swap_char(spaced, '_', ' ') =~= spaced);
}

/// The upper case of a character is plain: some characters, neither white space
/// nor underscores, of which the first is its own upper case, and a digit only
/// where the character itself is that digit.
pub open spec fn plain_upper(c: char) -> bool {
    let u = uppercase(seq![c]);
    &&& u.len() > 0
    &&& forall|k: int| 0 <= k < u.len() ==> !is_white(#[trigger] u[k]) && u[k] != '_'
    &&& uppercase(u.take(1)) == u.take(1)
    &&& is_digit(u[0]) ==> u == seq![c]
}

/// A word of a location: not empty, without white space and underscores.
spec fn is_word(w: Seq<char>) -> bool {
    w.len() > 0 && forall|k: int| 0 <= k < w.len() ==> !is_white(#[trigger] w[k]) && w[k] != '_'
}

/// A capitalized word is a word, stays as it is when it is capitalized again,
/// and is a postal code only where the word itself is that code.
proof fn lemma_capitalized(w: Seq<char>)
    requires
        is_word(w),
        plain_upper(w[0]),
    ensures
        is_word(capitalized(w)),
        capitalized(capitalized(w)) == capitalized(w),
        is_postal_code(capitalized(w)) ==> capitalized(w) == w,
{
    let u = uppercase(w.take(1));
    let c = capitalized(w);
    assert(w.take(1) =~= seq![w[0]]);
    assert(c == u + w.skip(1));
    assert forall|k: int| 0 <= k < c.len() implies !is_white(#[trigger] c[k]) && c[k] != '_' by {
        if k < u.len() {
            assert(c[k] == u[k]);
        } else {
            assert(c[k] == w[k - u.len() + 1]);
        }
    }
    assert(c.take(1) =~= u.take(1));
    assert(u.take(1) + c.skip(1) =~= c);
    if is_postal_code(c) {
        assert(is_digit(c[0]));
        assert(c =~= w);
    }
}

/// The words of a location are words.
proof fn lemma_location_words(raw: Seq<char>)
    ensures
        forall|i: int| 0 <= i < location_words(raw).len() ==> is_word(#[trigger] location_words(raw)[i]),
{
    let spaced = swap_char(trim(raw), '_', ' ');
    let all = location_words(raw);
    lemma_words(spaced);
    assert forall|i: int| 0 <= i < all.len() implies is_word(#[trigger] all[i]) by {
        assert forall|k: int| 0 <= k < all[i].len() implies !is_white(#[trigger] all[i][k])
            && all[i][k] != '_' by {
            assert(spaced.contains(all[i][k]));
            let j = choose|j: int| 0 <= j < spaced.len() && spaced[j] == all[i][k];
            assert(spaced[j] != '_');
        }
    }
}

/// A slug is in its final form: taking the slug of it changes nothing, it has
/// no white space at its ends and none doubled, and an underscore stands in it
/// only before a postal code at its end. What upper case makes of the first
/// letters must be plain.
pub proof fn law_slugs_are_final(raw: Seq<char>)
    requires
        forall|i: int|
            0 <= i < location_words(raw).len() ==> plain_upper(
                (#[trigger] location_words(raw)[i])[0],
            ),
    ensures
        slug(slug(raw)) == slug(raw),
        cleaned(slug(raw)) == slug(raw),
        forall|i: int|
            0 <= i < slug(raw).len() && #[trigger] slug(raw)[i] == '_' ==> i == slug(raw).len() - 6
                && is_postal_code(slug(raw).skip(i + 1)),
{
    let all = location_words(raw);
    let coded = all.len() > 0 && is_postal_code(all.last());
    let name = if coded {
        all.drop_last()
    } else {
        all
    };
    let cap = |w: Seq<char>| capitalized(w);
    let caps = name.map_values(cap);
    let city = join(caps, " "@);
    let r = slug(raw);
    reveal_strlit(" ");
    reveal_strlit("_");
    assert(" "@ =~= seq![' ']);
    lemma_location_words(raw);
    assert forall|i: int| 0 <= i < caps.len() implies is_word(#[trigger] caps[i]) && capitalized(
        caps[i],
    ) == caps[i] && (is_postal_code(caps[i]) ==> caps[i] == name[i]) by {
        assert(name[i] == all[i]);
        lemma_capitalized(all[i]);
    }
    lemma_join_without(caps, " "@, '_');
    if coded {
        assert(all[all.len() - 1] == all.last());
    }
    let code = all.last();
    let settled = if coded {
        caps.push(code)
    } else {
        caps
    };
    assert forall|i: int| 0 <= i < settled.len() implies is_word(#[trigger] settled[i]) by {
        if i < caps.len() {
            assert(settled[i] == caps[i]);
        }
    }
    // city empty exactly where there is no name
    if caps.len() > 0 {
        assert(city.len() > 0) by {
            assert(caps.last() == caps[caps.len() - 1]);
            if caps.len() == 1 {
                assert(city == caps[0]);
            }
        }
    }
    // the words of the slug, and the slug as words with single spaces
    assert(swap_char(r, '_', ' ') =~= join(settled, seq![' '])) by {
        assert forall|i: int| 0 <= i < city.len() implies #[trigger] city[i] != '_' by {
            assert(city.contains(city[i]));
        }
        if coded {
            assert forall|i: int| 0 <= i < code.len() implies #[trigger] code[i] != '_' by {
                assert(is_word(code));
            }
            assert(settled.drop_last() =~= caps);
        }
    }
    lemma_joined_words(settled);
    lemma_trimmed_words(r);
    assert(location_words(r) == settled);
    if coded {
        assert(settled.drop_last() =~= caps);
    } else if caps.len() > 0 {
        assert(caps.last() == caps[caps.len() - 1]);
        assert(name.last() == name[name.len() - 1]);
    }
    assert(caps.map_values(cap) =~= caps);
    assert(slug(r) == r);
    lemma_slug_spacing(caps, code, coded, r);
    assert forall|i: int| 0 <= i < r.len() && #[trigger] r[i] == '_' implies i == r.len() - 6
        && is_postal_code(r.skip(i + 1)) by {
        if i < city.len() && (!coded || caps.len() > 0) {
            assert(r[i] == city[i]);
            assert(city.contains(city[i]));
        } else if caps.len() == 0 {
            assert(is_word(code));
            assert(r[i] == code[i]);
        } else if i > city.len() {
            assert(is_word(code));
            assert(r[i] == code[i - city.len() - 1]);
        } else {
            assert(r.skip(i + 1) =~= code);
        }
    }
}

/// A slug is words with single spaces between them.
proof fn lemma_slug_spacing(caps: Seq<Seq<char>>, code: Seq<char>, coded: bool, r: Seq<char>)
    requires
        forall|i: int| 0 <= i < caps.len() ==> is_word(#[trigger] caps[i]),
        coded ==> is_word(code),
        r == if !coded {
            join(caps, " "@)
        } else if caps.len() == 0 {
            code
        } else {
            join(caps, " "@) + "_"@ + code
        },
    ensures
        cleaned(r) == r,
{
    reveal_strlit(" ");
    reveal_strlit("_");
    assert(" "@ =~= seq![' ']);
    let ws = if !coded {
        caps
    } else if caps.len() == 0 {
        seq![code]
    } else {
        caps.drop_last().push(caps.last() + "_"@ + code)
    };
    assert forall|i: int| 0 <= i < ws.len() implies (#[trigger] ws[i]).len() > 0 && forall|k: int|
        0 <= k < ws[i].len() ==> !is_white(#[trigger] ws[i][k]) by {
        if coded && caps.len() > 0 && i == caps.len() - 1 {
            let last = caps[caps.len() - 1];
            assert(is_word(last) && is_word(code));
            assert forall|k: int| 0 <= k < ws[i].len() implies !is_white(#[trigger] ws[i][k]) by {
                if k < last.len() {
                    assert(ws[i][k] == last[k]);
                } else if k > last.len() {
                    assert(ws[i][k] == code[k - last.len() - 1]);
                }
            }
        } else if i < caps.len() {
            assert(is_word(caps[i]));
        }
    }
    assert(join(ws, seq![' ']) =~= r) by {
        if coded && caps.len() > 0 {
            assert(ws.drop_last() =~= caps.drop_last());
        }
    }
    lemma_joined_words(ws);
}

// ---------------------------------------------------------------------------
// Crawls

/// The configured locations, and behind them those of the searches that are not
/// among them yet.
pub open spec fn merged_locations(
    configured: Seq<Seq<char>>,
    extra: Seq<Seq<char>>,
) -> Seq<Seq<char>>
    decreases extra.len(),
{
    if extra.len() == 0 {
        configured
    } else {
        let before = merged_locations(configured, extra.drop_last());
        if before.contains(extra.last()) {
            before
        } else {
            before.push(extra.last())
        }
    }
}

/// The configured locations with those of the searches.
pub fn merge_locations(configured: &Vec<String>, extra: &Vec<String>) -> (r: Vec<String>)
    ensures
        texts(r@) == merged_locations(texts(configured@), texts(extra@)),
{
    let mut all: Vec<String> = configured.clone();
    let ghost base = texts(configured@);
    let ghost more = texts(extra@);
    proof {
        assert(all@ =~= configured@);
        assert(more.take(0) =~= Seq::<Seq<char>>::empty());
    }
    let mut i: usize = 0;
    while i < extra.len()
        invariant
            i <= extra@.len(),
            base == texts(configured@),
            more == texts(extra@),
            texts(all@) == merged_locations(base, more.take(i as int)),
        decreases extra@.len() - i,
    {
        proof {
            assert(more.take(i as int + 1).drop_last() =~= more.take(i as int));
            assert(more.take(i as int + 1).last() == extra@[i as int]@);
        }
        if !lists(&all, extra[i].as_str()) {
            let ghost before = all@;
            all.push(extra[i].clone());
            proof {
                assert(texts(all@) =~= texts(before).push(extra@[i as int]@));
            }
        }
        i = i + 1;
    }
    proof {
        assert(more.take(extra@.len() as int) =~= more);
    }
    all
}

/// The URLs of raw listings.
pub open spec fn urls_of(listings: Seq<RawListing>) -> Seq<Seq<char>> {
    listings.map_values(|l: RawListing| l.url@)
}

/// The listings with more of them behind, leaving out those whose URL is there.
pub open spec fn with_fresh(all: Seq<RawListing>, more: Seq<RawListing>) -> Seq<RawListing>
    decreases more.len(),
{
    if more.len() == 0 {
        all
    } else {
        let before = with_fresh(all, more.drop_last());
        if urls_of(before).contains(more.last().url@) {
            before
        } else {
            before.push(more.last())
        }
    }
}

/// One full fetch of a source: every location, and of each the pages up to a
/// short one.
pub struct Crawl {
    pub locations: Vec<String>,
    /// Pages per location, at least one.
    pub pages: u32,
    /// How many listings a full page has; a page with fewer is the last one.
    pub full_page: usize,
    /// The location that is being fetched, and its page.
    pub location: usize,
    pub page: u32,
    /// What has been found, each URL once.
    pub listings: Vec<RawListing>,
}

impl Crawl {
    pub open spec fn wf(self) -> bool {
        &&& self.location <= self.locations@.len()
        &&& 1 <= self.page <= self.pages
        &&& urls_of(self.listings@).no_duplicates()
    }

    /// How many pages are left at most.
    pub open spec fn left(self) -> int {
        (self.locations@.len() - self.location) * self.pages - (self.page - 1)
    }

    pub fn new(
        configured: &Vec<String>,
        extra: &Vec<String>,
        pages: u32,
        full_page: usize,
    ) -> (r: Crawl)
        ensures
            r.wf(),
            texts(r.locations@) == merged_locations(texts(configured@), texts(extra@)),
            r.pages == if pages < 1 {
                1
            } else {
                pages
            },
            r.full_page == full_page,
            r.location == 0,
            r.page == 1,
            r.listings@.len() == 0,
    {
        Crawl {
            locations: merge_locations(configured, extra),
            pages: if pages < 1 {
                1
            } else {
                pages
            },
            full_page,
            location: 0,
            page: 1,
            listings: Vec::new(),
        }
    }

    /// The location and page to fetch next; nothing when all are done.
    pub fn next(&self) -> (r: Option<(&String, u32)>)
        ensures
            match r {
                Some((location, page)) => self.location < self.locations@.len() && location
                    == self.locations@[self.location as int] && page == self.page,
                None => self.location >= self.locations@.len(),
            },
    {
        if self.location < self.locations.len() {
            Some((&self.locations[self.location], self.page))
        } else {
            None
        }
    }

    /// Takes in the listings of the page: those with a new URL. A short page is
    /// the last one of its location.
    pub fn take_page(&mut self, found: Vec<RawListing>)
        requires
            old(self).wf(),
            old(self).location < old(self).locations@.len(),
        ensures
            final(self).wf(),
            final(self).listings@ == with_fresh(old(self).listings@, found@),
            final(self).locations == old(self).locations,
            final(self).pages == old(self).pages,
            final(self).full_page == old(self).full_page,
            if found@.len() < old(self).full_page || old(self).page >= old(self).pages {
                final(self).location == old(self).location + 1 && final(self).page == 1
            } else {
                final(self).location == old(self).location && final(self).page == old(self).page + 1
            },
    {
        let count: usize = found.len();
        let total: usize = self.locations.len();
        let ghost base = self.listings@;
        let ghost all = found@;
        proof {
            assert(all.take(0) =~= Seq::<RawListing>::empty());
        }
        for raw in it: found
            invariant
                it.seq() == all,
                self.listings@ == with_fresh(base, all.take(it.index())),
                urls_of(self.listings@).no_duplicates(),
                self.locations == old(self).locations,
                self.pages == old(self).pages,
                self.full_page == old(self).full_page,
                self.location == old(self).location,
                self.page == old(self).page,
                self.location < total,
        {
            proof {
                assert(all.take(it.index() + 1).drop_last() =~= all.take(it.index()));
                assert(all.take(it.index() + 1).last() == raw);
            }
            if !self.has_url(raw.url.as_str()) {
                let ghost before = self.listings@;
                self.listings.push(raw);
                proof {
                    assert(urls_of(self.listings@) =~= urls_of(before).push(raw.url@));
                }
            }
        }
        proof {
            assert(all.take(all.len() as int) =~= all);
        }
        if count < self.full_page || self.page >= self.pages {
            self.location = self.location + 1;
            self.page = 1;
        } else {
            self.page = self.page + 1;
        }
    }

    fn has_url(&self, url: &str) -> (r: bool)
        ensures
            r == urls_of(self.listings@).contains(url@),
    {
        let mut i: usize = 0;
        while i < self.listings.len()
            invariant
                i <= self.listings@.len(),
                forall|k: int| 0 <= k < i ==> urls_of(self.listings@)[k] != url@,
            decreases self.listings@.len() - i,
        {
            if same_text(self.listings[i].url.as_str(), url) {
                proof {
                    assert(urls_of(self.listings@)[i as int] == url@);
                }
                return true;
            }
            i = i + 1;
        }
        false
    }
}

/// Every page taken brings the end of a crawl nearer: a crawl fetches no more
/// pages than its locations have together.
pub proof fn law_crawls_end(before: Crawl, after: Crawl)
    requires
        before.wf(),
        before.location < before.locations@.len(),
        after.wf(),
        after.locations == before.locations,
        after.pages == before.pages,
        (after.location == before.location + 1 && after.page == 1) || (after.location
            == before.location && after.page == before.page + 1),
    ensures
        0 <= after.left() < before.left() <= before.locations@.len() * before.pages,
{
    let n = before.locations@.len();
    let p = before.pages;
    assert((n - before.location) * p == (n - before.location - 1) * p + p) by (nonlinear_arith);
    assert((n - before.location) * p <= n * p) by (nonlinear_arith)
        requires
            0 <= before.location,
            p >= 0,
    ;
    assert(after.left() >= 0) by (nonlinear_arith)
        requires
            after.left() == (n - after.location) * p - (after.page - 1),
            after.location == before.location + 1 && after.page == 1 || after.location
                == before.location && after.page <= p,
            before.location < n,
            p >= 1,
            after.page >= 1,
    ;
}

/// What a crawl has found stays, in order, and each new listing has a URL that
/// none before it has.
pub proof fn law_found_listings_stay(all: Seq<RawListing>, more: Seq<RawListing>)
    ensures
        all.is_prefix_of(with_fresh(all, more)),
        urls_of(all).no_duplicates() ==> urls_of(with_fresh(all, more)).no_duplicates(),
        forall|i: int|
            0 <= i < more.len() ==> urls_of(with_fresh(all, more)).contains(
                (#[trigger] more[i]).url@,
            ),
    decreases more.len(),
{
    if more.len() == 0 {
        assert(all.take(all.len() as int) =~= all);
    } else {
        let init = more.drop_last();
        let before = with_fresh(all, init);
        let now = with_fresh(all, more);
        law_found_listings_stay(all, init);
        assert(all =~= before.take(all.len() as int));
        assert(all =~= now.take(all.len() as int));
        let last = more.last();
        if !urls_of(before).contains(last.url@) {
            assert(urls_of(now) =~= urls_of(before).push(last.url@));
            assert(urls_of(now)[before.len() as int] == last.url@);
        }
        assert forall|i: int| 0 <= i < more.len() implies urls_of(now).contains(
            (#[trigger] more[i]).url@,
        ) by {
            if i < init.len() {
                assert(init[i] == more[i]);
                assert(urls_of(before).contains(init[i].url@));
                let k = choose|k: int|
                    0 <= k < urls_of(before).len() && urls_of(before)[k] == init[i].url@;
                assert(urls_of(now)[k] == init[i].url@);
            }
        }
    }
}

} // verus!
