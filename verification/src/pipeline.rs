//! The pipeline: raw listings are normalized, stored with their prices, matched
//! against the searches, and pushed when they are new or got cheaper. Wanted
//! ads never push.
use crate::double::Double;
use crate::listing::{
    Amount, ExtractedAttrs, Flag, Listing, ListingStatus, Moderation, RawListing, Timestamp,
};
use crate::normalize::{
    canonical, canonical_url, clean_title, cleaned, is_wanted_ad, leads_with_intent,
};
use crate::fixed::{fixed_text, whole_text};
use crate::limit::{
    complement_of, dropped, has_dropped, hundredth_of, law_an_unchanged_price_has_not_dropped,
};
use crate::ratio::{cents_of_euros, euro_cents, one};
use crate::search::{satisfies, search_matches, Search};
use crate::status::TickStats;
use crate::store::UpsertOutcome;
use crate::text::{int_text, join, joined, push_int, texts};
use vstd::prelude::*;
use vstd::string::StringExecFns;

verus! {

#[derive(Debug, Clone, Copy, PartialEq, Eq, Structural)]
pub struct PipelineStats {
    pub new_listings: u64,
    pub updated_listings: u64,
    pub skipped: u64,
    pub notified: u64,
    pub gone: u64,
    pub suppressed: u64,
}

impl Default for PipelineStats {
    fn default() -> (r: PipelineStats)
        ensures
            r == (PipelineStats {
                new_listings: 0,
                updated_listings: 0,
                skipped: 0,
                notified: 0,
                gone: 0,
                suppressed: 0,
            }),
    {
        PipelineStats {
            new_listings: 0,
            updated_listings: 0,
            skipped: 0,
            notified: 0,
            gone: 0,
            suppressed: 0,
        }
    }
}

impl PipelineStats {
    /// How many listings the run has dealt with.
    pub open spec fn dealt_with(self) -> nat {
        (self.new_listings + self.updated_listings + self.skipped) as nat
    }

    /// With one more listing that had no URL of use.
    pub open spec fn with_skipped(self) -> PipelineStats {
        PipelineStats { skipped: (self.skipped + 1) as u64, ..self }
    }

    /// With one more listing that went into the store.
    pub open spec fn with_stored(self, outcome: UpsertOutcome) -> PipelineStats {
        match outcome {
            UpsertOutcome::New => PipelineStats {
                new_listings: (self.new_listings + 1) as u64,
                ..self
            },
            _ => PipelineStats { updated_listings: (self.updated_listings + 1) as u64, ..self },
        }
    }

    /// With what became of one more match.
    pub open spec fn with_match(self, verdict: Verdict) -> PipelineStats {
        match verdict {
            Verdict::PushNew | Verdict::PushDrop { .. } => PipelineStats {
                notified: (self.notified + 1) as u64,
                ..self
            },
            Verdict::Suppress => PipelineStats { suppressed: (self.suppressed + 1) as u64, ..self },
            Verdict::Nothing => self,
        }
    }

    /// The stats of a tick that fetched this many listings.
    pub fn tick(self, fetched: u64) -> (r: TickStats)
        ensures
            r == (TickStats {
                fetched,
                new_listings: self.new_listings,
                updated_listings: self.updated_listings,
                skipped: self.skipped,
                notified: self.notified,
                gone: self.gone,
                suppressed: self.suppressed,
            }),
    {
        TickStats {
            fetched,
            new_listings: self.new_listings,
            updated_listings: self.updated_listings,
            skipped: self.skipped,
            notified: self.notified,
            gone: self.gone,
            suppressed: self.suppressed,
        }
    }
}

// ---------------------------------------------------------------------------
// Normalization

/// What the decimal texts of a raw listing amount to.
#[derive(Debug, Clone, Copy, PartialEq, Eq, Structural)]
pub struct RawNumbers {
    /// The price, where the source states it in euros.
    pub euros: Double,
    pub surface_m2: Option<Double>,
    pub land_m2: Option<Double>,
    pub lat: Option<Double>,
    pub lng: Option<Double>,
}

/// The price of a raw listing in cents.
pub open spec fn price_of(raw: RawListing, numbers: RawNumbers) -> i64 {
    match raw.price {
        Amount::Cents(c) => c,
        Amount::Euros(_) => euro_cents(numbers.euros) as i64,
    }
}

/// The listing is the raw one, normalized: a clean title, the canonical URL, a
/// flag where the title asks to buy; active, unmoderated, seen now.
pub open spec fn normalized(
    listing: Listing,
    raw: RawListing,
    numbers: RawNumbers,
    id: u128,
    now: Timestamp,
) -> bool {
    &&& listing.title@ == cleaned(raw.title@)
    &&& canonical(raw.url@) == Some(listing.canonical_url@)
    &&& listing.flags@ == if leads_with_intent(cleaned(raw.title@)) {
        seq![Flag::WantedAd]
    } else {
        Seq::empty()
    }
    &&& listing.attributes.unset()
    &&& listing == Listing {
        id,
        source_id: raw.source_id,
        canonical_url: listing.canonical_url,
        title: listing.title,
        price_cents: price_of(raw, numbers),
        property_type: raw.property_type,
        surface_m2: numbers.surface_m2,
        rooms: raw.rooms,
        bedrooms: raw.bedrooms,
        land_m2: numbers.land_m2,
        commune: raw.commune,
        postal_code: raw.postal_code,
        lat: numbers.lat,
        lng: numbers.lng,
        dpe: raw.dpe,
        ges: raw.ges,
        sell_type: raw.sell_type,
        description: raw.description,
        address: raw.address,
        seller: raw.seller,
        attributes: listing.attributes,
        flags: listing.flags,
        status: ListingStatus::Active,
        moderation: Moderation::Unmoderated,
        first_seen: now,
        last_seen: now,
    }
}

/// Normalizes a raw listing; nothing where its URL has no canonical form.
pub fn to_listing(raw: RawListing, numbers: RawNumbers, id: u128, now: Timestamp) -> (r: Option<
    Listing,
>)
    ensures
        match r {
            Some(listing) => normalized(listing, raw, numbers, id, now),
            None => canonical(raw.url@) is None,
        },
{
    let title = clean_title(raw.title.as_str());
    let url = match canonical_url(raw.url.as_str()) {
        Some(u) => u,
        None => {
            return None;
        },
    };
    let mut flags: Vec<Flag> = Vec::new();
    if is_wanted_ad(title.as_str()) {
        flags.push(Flag::WantedAd);
    }
    proof {
        assert(flags@ =~= if leads_with_intent(cleaned(raw.title@)) {
            seq![Flag::WantedAd]
        } else {
            Seq::empty()
        });
    }
    let price_cents: i64 = match raw.price {
        Amount::Cents(c) => c,
        Amount::Euros(_) => cents_of_euros(numbers.euros),
    };
    Some(
        Listing {
            id,
            source_id: raw.source_id,
            canonical_url: url,
            title,
            price_cents,
            property_type: raw.property_type,
            surface_m2: numbers.surface_m2,
            rooms: raw.rooms,
            bedrooms: raw.bedrooms,
            land_m2: numbers.land_m2,
            commune: raw.commune,
            postal_code: raw.postal_code,
            lat: numbers.lat,
            lng: numbers.lng,
            dpe: raw.dpe,
            ges: raw.ges,
            sell_type: raw.sell_type,
            description: raw.description,
            address: raw.address,
            seller: raw.seller,
            attributes: ExtractedAttrs::default(),
            flags,
            status: ListingStatus::Active,
            moderation: Moderation::Unmoderated,
            first_seen: now,
            last_seen: now,
        },
    )
}

// ---------------------------------------------------------------------------
// Messages

/// Whole euros, cents cut off.
pub open spec fn whole_euros(cents: int) -> int {
    if cents >= 0 {
        cents / 100
    } else {
        -((-cents) / 100)
    }
}

pub fn euros(cents: i64) -> (r: i64)
    ensures
        r == whole_euros(cents as int),
{
    if cents >= 0 {
        cents / 100
    } else if cents == i64::MIN {
        -92_233_720_368_547_758
    } else {
        -((-cents) / 100)
    }
}

pub open spec fn price_text(cents: int) -> Seq<char> {
    int_text(whole_euros(cents)) + " €"@
}

pub fn format_price(cents: i64) -> (r: String)
    ensures
        r@ == price_text(cents as int),
{
    let mut s = String::new();
    push_int(&mut s, euros(cents));
    s.append(" €");
    proof {
        assert(s@ =~= price_text(cents as int));
    }
    s
}

/// The facts of a listing that a message states on one line.
pub open spec fn detail_texts(listing: Listing) -> Seq<Seq<char>> {
    let surface = match listing.surface_m2 {
        Some(s) => seq![fixed_text(s, 0) + " m²"@],
        None => Seq::empty(),
    };
    let ratio = match listing.m2_cents() {
        Some(m2) => seq![int_text(whole_euros(m2)) + " €/m²"@],
        None => Seq::empty(),
    };
    let commune = match listing.commune {
        Some(c) => seq![c@],
        None => Seq::empty(),
    };
    surface + ratio + commune
}

/// A message about a listing: its title, its facts where there are any, and its
/// URL, each on a line of its own.
pub open spec fn description_text(listing: Listing) -> Seq<char> {
    let details = detail_texts(listing);
    let parts = if details.len() > 0 {
        seq![listing.title@, join(details, " · "@), listing.canonical_url@]
    } else {
        seq![listing.title@, listing.canonical_url@]
    };
    join(parts, "\n"@)
}

pub fn describe(listing: &Listing) -> (r: String)
    ensures
        r@ == description_text(*listing),
{
    let mut details: Vec<String> = Vec::new();
    if let Some(s) = listing.surface_m2 {
        details.push(whole_text(s).concat(" m²"));
    }
    if let Some(ratio) = listing.price_per_m2_cents() {
        let mut s = String::new();
        push_int(&mut s, euros(ratio));
        s.append(" €/m²");
        proof {
            assert(s@ =~= int_text(whole_euros(ratio as int)) + " €/m²"@);
        }
        details.push(s);
    }
    if let Some(c) = &listing.commune {
        details.push(c.clone());
    }
    proof {
        assert(texts(details@) =~= detail_texts(*listing));
    }
    let mut parts: Vec<String> = Vec::new();
    parts.push(listing.title.clone());
    if details.len() > 0 {
        parts.push(joined(&details, " · "));
    }
    parts.push(listing.canonical_url.clone());
    proof {
        let details_text = detail_texts(*listing);
        if details_text.len() > 0 {
            assert(texts(parts@) =~= seq![
                listing.title@,
                join(details_text, " · "@),
                listing.canonical_url@,
            ]);
        } else {
            assert(texts(parts@) =~= seq![listing.title@, listing.canonical_url@]);
        }
    }
    joined(&parts, "\n")
}

/// A notification to send.
#[derive(Debug, Clone, PartialEq)]
pub struct Push {
    pub title: String,
    pub message: String,
    pub tags: String,
    pub priority: String,
}

/// The texts of a notification.
pub open spec fn says(
    push: Push,
    title: Seq<char>,
    message: Seq<char>,
    tags: Seq<char>,
    priority: Seq<char>,
) -> bool {
    push.title@ == title && push.message@ == message && push.tags@ == tags && push.priority@
        == priority
}

/// Wanted ads are not worth a notification.
pub fn notification_worthy(listing: &Listing) -> (r: bool)
    ensures
        r == !listing.wanted(),
{
    let mut i: usize = 0;
    while i < listing.flags.len()
        invariant
            i <= listing.flags@.len(),
            forall|k: int| 0 <= k < i ==> listing.flags@[k] != Flag::WantedAd,
        decreases listing.flags@.len() - i,
    {
        if listing.flags[i] == Flag::WantedAd {
            return false;
        }
        i = i + 1;
    }
    true
}

/// The push about a listing that matches a search for the first time.
pub open spec fn says_new(push: Push, search: Search, stored: Listing) -> bool {
    says(
        push,
        search.name@ + ": "@ + price_text(stored.price_cents as int),
        description_text(stored),
        "house_with_garden"@,
        "default"@,
    )
}

/// The push about a listing whose price dropped since the last push.
pub open spec fn says_dropped(
    push: Push,
    search: Search,
    stored: Listing,
    previous: i64,
) -> bool {
    says(
        push,
        search.name@ + ": "@ + price_text(previous as int) + " → "@ + price_text(
            stored.price_cents as int,
        ),
        "Baisse de prix\n"@ + description_text(stored),
        "chart_with_downwards_trend"@,
        "default"@,
    )
}

// ---------------------------------------------------------------------------
// Processing

/// What is recorded of a listing's match with a search.
#[derive(Debug, Clone, Copy, PartialEq, Eq, Structural)]
pub enum Sighting {
    /// The match is new.
    Fresh,
    /// The match was known, and nothing has been pushed for it.
    Silent,
    /// The match was known, and this price was pushed for it.
    Pushed { price_cents: i64 },
}

/// What a match leads to.
#[derive(Debug, Clone, Copy, PartialEq, Eq, Structural)]
pub enum Verdict {
    PushNew,
    PushDrop { previous: i64 },
    Suppress,
    Nothing,
}

/// A new match is pushed, or suppressed for a wanted ad. A known one is pushed
/// again when the price has dropped by at least the percentage below the one
/// pushed before.
pub open spec fn verdict(stored: Listing, sighting: Sighting, drop_pct: Double) -> Verdict {
    match sighting {
        Sighting::Fresh => if stored.wanted() {
            Verdict::Suppress
        } else {
            Verdict::PushNew
        },
        Sighting::Silent => Verdict::Nothing,
        Sighting::Pushed { price_cents } => if has_dropped(
            stored.price_cents as int,
            price_cents as int,
            drop_pct,
        ) && !stored.wanted() {
            Verdict::PushDrop { previous: price_cents }
        } else {
            Verdict::Nothing
        },
    }
}

/// What a match leads to.
pub fn judge(stored: &Listing, sighting: Sighting, drop_pct: Double) -> (r: Verdict)
    ensures
        r == verdict(*stored, sighting, drop_pct),
{
    match sighting {
        Sighting::Fresh => if notification_worthy(stored) {
            Verdict::PushNew
        } else {
            Verdict::Suppress
        },
        Sighting::Silent => Verdict::Nothing,
        Sighting::Pushed { price_cents } => if dropped(stored.price_cents, price_cents, drop_pct)
            && notification_worthy(stored) {
            Verdict::PushDrop { previous: price_cents }
        } else {
            Verdict::Nothing
        },
    }
}

/// Wanted ads never lead to a push, whatever was recorded before.
pub proof fn law_wanted_ads_never_push(stored: Listing, sighting: Sighting, drop_pct: Double)
    requires
        stored.wanted(),
    ensures
        verdict(stored, sighting, drop_pct) == Verdict::Suppress || verdict(stored, sighting, drop_pct)
            == Verdict::Nothing,
{
}

/// A match is pushed as new once: afterwards only a drop below the limit
/// pushes, and a known match that was never pushed stays silent.
pub proof fn law_known_matches_push_drops_only(stored: Listing, sighting: Sighting, drop_pct: Double)
    requires
        sighting != Sighting::Fresh,
    ensures
        verdict(stored, sighting, drop_pct) != Verdict::PushNew,
        verdict(stored, sighting, drop_pct) != Verdict::Suppress,
        verdict(stored, sighting, drop_pct) matches Verdict::PushDrop { previous } ==> (
        sighting matches Sighting::Pushed { price_cents } && previous == price_cents
            && has_dropped(stored.price_cents as int, price_cents as int, drop_pct)),
{
}

/// The positions of the searches that a listing satisfies.
pub open spec fn matching(searches: Seq<Search>, listing: Listing) -> Seq<int>
    decreases searches.len(),
{
    if searches.len() == 0 {
        Seq::empty()
    } else {
        let before = matching(searches.drop_last(), listing);
        if satisfies(searches.last(), listing) {
            before.push(searches.len() - 1)
        } else {
            before
        }
    }
}

/// The state of one run over the listings of a source.
pub struct Pipeline {
    pub searches: Vec<Search>,
    /// Push a known match again when its price drops by at least this much, in
    /// percent.
    pub drop_pct: Double,
    pub stats: PipelineStats,
    /// The canonical URLs of the listings met so far.
    pub seen_urls: Vec<String>,
}

/// A listing on its way into the store, with the photos that came with it.
pub struct Accepted {
    pub listing: Listing,
    pub image_urls: Vec<String>,
}

/// What a stored listing leads to.
pub struct Effects {
    /// Why it is to be enriched, if it is.
    pub enrich: Option<&'static str>,
    /// The positions of the searches that it satisfies.
    pub matches: Vec<usize>,
}

impl Pipeline {
    pub fn new(searches: Vec<Search>, drop_pct: Double) -> (r: Pipeline)
        ensures
            r.searches == searches,
            r.drop_pct == drop_pct,
            r.seen_urls@.len() == 0,
            r.stats == (PipelineStats {
                new_listings: 0,
                updated_listings: 0,
                skipped: 0,
                notified: 0,
                gone: 0,
                suppressed: 0,
            }),
    {
        Pipeline { searches, drop_pct, stats: PipelineStats::default(), seen_urls: Vec::new() }
    }

    /// Takes the next raw listing: normalizes it and notes its URL as seen, or
    /// skips it where its URL has no canonical form.
    pub fn accept(
        &mut self,
        raw: RawListing,
        numbers: RawNumbers,
        id: u128,
        now: Timestamp,
    ) -> (r: Option<Accepted>)
        requires
            old(self).stats.skipped < u64::MAX,
        ensures
            final(self).searches == old(self).searches,
            final(self).drop_pct == old(self).drop_pct,
            match r {
                Some(a) => {
                    &&& normalized(a.listing, raw, numbers, id, now)
                    &&& a.image_urls == raw.image_urls
                    &&& texts(final(self).seen_urls@) == texts(old(self).seen_urls@).push(
                        a.listing.canonical_url@,
                    )
                    &&& final(self).stats == old(self).stats
                },
                None => {
                    &&& canonical(raw.url@) is None
                    &&& final(self).seen_urls == old(self).seen_urls
                    &&& final(self).stats == old(self).stats.with_skipped()
                },
            },
    {
        let RawListing {
            source_id,
            url,
            title,
            price,
            property_type,
            surface_m2,
            rooms,
            bedrooms,
            land_m2,
            commune,
            postal_code,
            lat,
            lng,
            dpe,
            ges,
            sell_type,
            description,
            address,
            image_urls,
            seller,
        } = raw;
        let rest = RawListing {
            source_id,
            url,
            title,
            price,
            property_type,
            surface_m2,
            rooms,
            bedrooms,
            land_m2,
            commune,
            postal_code,
            lat,
            lng,
            dpe,
            ges,
            sell_type,
            description,
            address,
            image_urls: Vec::new(),
            seller,
        };
        match to_listing(rest, numbers, id, now) {
            Some(listing) => {
                let ghost before = self.seen_urls@;
                self.seen_urls.push(listing.canonical_url.clone());
                proof {
                    assert(texts(self.seen_urls@) =~= texts(before).push(listing.canonical_url@));
                }
                Some(Accepted { listing, image_urls })
            },
            None => {
                self.stats.skipped = self.stats.skipped + 1;
                None
            },
        }
    }

    /// Takes in what became of a listing in the store: counts it, and says why
    /// it is to be enriched and which searches it satisfies.
    pub fn stored(&mut self, outcome: UpsertOutcome, stored: &Listing) -> (r: Effects)
        requires
            old(self).stats.new_listings < u64::MAX,
            old(self).stats.updated_listings < u64::MAX,
        ensures
            final(self).searches == old(self).searches,
            final(self).drop_pct == old(self).drop_pct,
            final(self).seen_urls == old(self).seen_urls,
            final(self).stats == old(self).stats.with_stored(outcome),
            match r.enrich {
                Some(why) => outcome.reason() == Some(why@),
                None => outcome.reason() is None,
            },
            r.matches@.map_values(|i: usize| i as int) == matching(old(self).searches@, *stored),
    {
        match outcome {
            UpsertOutcome::New => {
                self.stats.new_listings = self.stats.new_listings + 1;
            },
            _ => {
                self.stats.updated_listings = self.stats.updated_listings + 1;
            },
        }
        let mut matches: Vec<usize> = Vec::new();
        let ghost position = |i: usize| i as int;
        let mut i: usize = 0;
        proof {
            assert(self.searches@.take(0) =~= Seq::<Search>::empty());
            assert(matches@.map_values(position) =~= Seq::<int>::empty());
        }
        if stored.moderation != Moderation::Unmoderated {
            proof {
                lemma_moderated_matches_nothing(self.searches@, *stored);
            }
            return Effects { enrich: outcome.enrichment_reason(), matches };
        }
        while i < self.searches.len()
            invariant
                i <= self.searches@.len(),
                position == (|i: usize| i as int),
                matches@.map_values(position) == matching(self.searches@.take(i as int), *stored),
            decreases self.searches@.len() - i,
        {
            proof {
                assert(self.searches@.take(i as int + 1).drop_last() =~= self.searches@.take(
                    i as int,
                ));
                assert(self.searches@.take(i as int + 1).last() == self.searches@[i as int]);
            }
            if search_matches(&self.searches[i], stored) {
                let ghost before = matches@;
                matches.push(i);
                proof {
                    assert(matches@.map_values(position) =~= before.map_values(position).push(
                        i as int,
                    ));
                }
            }
            i = i + 1;
        }
        proof {
            assert(self.searches@.take(self.searches@.len() as int) =~= self.searches@);
        }
        Effects { enrich: outcome.enrichment_reason(), matches }
    }

    /// Takes in what is recorded of a match, and says what to push, if
    /// anything. The price is to be recorded as pushed with it.
    pub fn matched(
        &mut self,
        search: usize,
        stored: &Listing,
        sighting: Sighting,
    ) -> (r: Option<Push>)
        requires
            search < old(self).searches@.len(),
            old(self).stats.notified < u64::MAX,
            old(self).stats.suppressed < u64::MAX,
        ensures
            final(self).searches == old(self).searches,
            final(self).drop_pct == old(self).drop_pct,
            final(self).seen_urls == old(self).seen_urls,
            ({
                let s = old(self).searches@[search as int];
                match verdict(*stored, sighting, old(self).drop_pct) {
                    Verdict::PushNew => r is Some && says_new(r->0, s, *stored),
                    Verdict::PushDrop { previous } => r is Some && says_dropped(
                        r->0,
                        s,
                        *stored,
                        previous,
                    ),
                    _ => r is None,
                }
            }),
            final(self).stats == old(self).stats.with_match(
                verdict(*stored, sighting, old(self).drop_pct),
            ),
    {
        match judge(stored, sighting, self.drop_pct) {
            Verdict::Suppress => {
                self.stats.suppressed = self.stats.suppressed + 1;
                None
            },
            Verdict::Nothing => None,
            Verdict::PushNew => {
                self.stats.notified = self.stats.notified + 1;
                let price = format_price(stored.price_cents);
                Some(
                    Push {
                        title: self.searches[search].name.clone().concat(": ").concat(
                            price.as_str(),
                        ),
                        message: describe(stored),
                        tags: "house_with_garden".to_owned(),
                        priority: "default".to_owned(),
                    },
                )
            },
            Verdict::PushDrop { previous } => {
                self.stats.notified = self.stats.notified + 1;
                let before = format_price(previous);
                let price = format_price(stored.price_cents);
                let text = describe(stored);
                Some(
                    Push {
                        title: self.searches[search].name.clone().concat(": ").concat(
                            before.as_str(),
                        ).concat(" → ").concat(price.as_str()),
                        message: "Baisse de prix\n".to_owned().concat(text.as_str()),
                        tags: "chart_with_downwards_trend".to_owned(),
                        priority: "default".to_owned(),
                    },
                )
            },
        }
    }

    /// Ends a full run: notes how many listings went gone.
    pub fn finish(&mut self, gone: u64)
        ensures
            final(self).searches == old(self).searches,
            final(self).drop_pct == old(self).drop_pct,
            final(self).seen_urls == old(self).seen_urls,
            final(self).stats == (PipelineStats { gone, ..old(self).stats }),
    {
        self.stats.gone = gone;
    }
}

proof fn lemma_moderated_matches_nothing(searches: Seq<Search>, listing: Listing)
    requires
        listing.moderation != Moderation::Unmoderated,
    ensures
        matching(searches, listing) == Seq::<int>::empty(),
    decreases searches.len(),
{
    if searches.len() > 0 {
        lemma_moderated_matches_nothing(searches.drop_last(), listing);
    }
}

/// The searches that a listing is matched with are exactly those it satisfies,
/// each once and in order; a moderated or gone listing is matched with none.
pub proof fn law_matching_is_exact(searches: Seq<Search>, listing: Listing)
    ensures
        forall|i: int|
            #[trigger] matching(searches, listing).contains(i) <==> (0 <= i < searches.len()
                && satisfies(searches[i], listing)),
        forall|a: int, b: int|
            0 <= a < b < matching(searches, listing).len() ==> matching(searches, listing)[a]
                < matching(searches, listing)[b],
        listing.moderation != Moderation::Unmoderated || listing.status == ListingStatus::Gone
            ==> matching(searches, listing).len() == 0,
    decreases searches.len(),
{
    if searches.len() > 0 {
        let init = searches.drop_last();
        let before = matching(init, listing);
        let all = matching(searches, listing);
        law_matching_is_exact(init, listing);
        assert forall|i: int| #[trigger] all.contains(i) <==> (0 <= i < searches.len() && satisfies(
            searches[i],
            listing,
        )) by {
            if all.contains(i) {
                let k = choose|k: int| 0 <= k < all.len() && all[k] == i;
                if k < before.len() {
                    assert(before[k] == i);
                    assert(before.contains(i));
                }
            }
            if 0 <= i < searches.len() && satisfies(searches[i], listing) {
                if i < init.len() {
                    assert(init[i] == searches[i]);
                    assert(before.contains(i));
                    let k = choose|k: int| 0 <= k < before.len() && before[k] == i;
                    assert(all[k] == i);
                } else {
                    assert(all[before.len() as int] == i);
                }
            }
        }
        assert forall|a: int, b: int| 0 <= a < b < all.len() implies all[a] < all[b] by {
            if b == before.len() {
                assert(before.contains(before[a]));
            }
        }
    }
}

/// Every listing of a run is counted once: as skipped, as new or as updated.
/// What becomes of its matches counts no listing.
pub proof fn law_listings_are_counted_once(
    stats: PipelineStats,
    outcome: UpsertOutcome,
    verdict: Verdict,
)
    requires
        stats.skipped < u64::MAX,
        stats.new_listings < u64::MAX,
        stats.updated_listings < u64::MAX,
    ensures
        stats.with_skipped().dealt_with() == stats.dealt_with() + 1,
        stats.with_stored(outcome).dealt_with() == stats.dealt_with() + 1,
        stats.with_match(verdict).dealt_with() == stats.dealt_with(),
{
}

/// A price is pushed once: as long as it stays what it was when it was pushed,
/// the match leads to nothing. The percentage must be one that the price less
/// it can be told from the price, and the price positive.
pub proof fn law_a_price_is_pushed_once(stored: Listing, drop_pct: Double)
    requires
        stored.price_cents > 0,
        complement_of(hundredth_of(drop_pct.value())) matches Some(v) ==> v < one(),
    ensures
        verdict(stored, Sighting::Pushed { price_cents: stored.price_cents }, drop_pct)
            == Verdict::Nothing,
{
    law_an_unchanged_price_has_not_dropped(stored.price_cents, drop_pct);
}

} // verus!
