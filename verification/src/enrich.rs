//! The enrichment of listings: detail page, photos, extraction of facts. Each
//! step is skipped once it is done, so that a retry goes on where a failure
//! stopped.
use crate::config::EnrichmentConfig;
use crate::fixed::{euros_fixed, euros_text};
use crate::listing::{Listing, ListingDetail};
use crate::llm::ExtractInput;
use crate::normalize::lemma_filter_from;
use crate::store::{
    id_column, is_pending, pending_images, photo_texts, uuid_text, DbImage, EnrichState,
};
use crate::text::{
    after_last, alphanumeric, chars_of, cut_after_last, cut_at, int_text, is_alphanumeric,
    lemma_filter_push, push_int, string_of, up_to,
};
use vstd::prelude::*;
use vstd::string::StringExecFns;

verus! {

/// The extension of an image URL: what stands behind the last dot, queries and
/// fragments cut off, where that is one to four letters or digits; else "jpg".
pub open spec fn extension(url: Seq<char>) -> Seq<char> {
    let ext = after_last(up_to(url, '?', '#'), '.');
    if 1 <= ext.len() <= 4 && forall|i: int|
        0 <= i < ext.len() ==> is_alphanumeric(#[trigger] ext[i]) {
        ext
    } else {
        "jpg"@
    }
}

pub fn extension_of(url: &str) -> (r: String)
    ensures
        r@ == extension(url@),
{
    let chars = chars_of(url);
    let ext = cut_after_last(cut_at(chars.as_slice(), '?', '#'), '.');
    if ext.len() == 0 || ext.len() > 4 {
        return "jpg".to_owned();
    }
    let mut i: usize = 0;
    while i < ext.len()
        invariant
            i <= ext@.len() <= 4,
            ext@.len() > 0,
            ext@ == after_last(up_to(url@, '?', '#'), '.'),
            forall|k: int| 0 <= k < i ==> is_alphanumeric(#[trigger] ext@[k]),
        decreases ext@.len() - i,
    {
        if !alphanumeric(ext[i]) {
            proof {
                assert(!is_alphanumeric(ext@[i as int]));
            }
            return "jpg".to_owned();
        }
        i = i + 1;
    }
    string_of(ext)
}

/// The name of a photo's file: its position and the extension of its URL.
pub open spec fn file_name(position: int, url: Seq<char>) -> Seq<char> {
    int_text(position) + "."@ + extension(url)
}

pub fn image_file(position: i64, url: &str) -> (r: String)
    ensures
        r@ == file_name(position as int, url@),
{
    let mut name = String::new();
    push_int(&mut name, position);
    name.append(".");
    let ext = extension_of(url);
    name.append(ext.as_str());
    proof {
        assert(name@ =~= file_name(position as int, url@));
    }
    name
}

/// Where a photo lies below the images directory.
pub fn local_path(id: u128, file: &str) -> (r: String)
    ensures
        r@ == uuid_text(id) + "/"@ + file@,
{
    id_column(id).concat("/").concat(file)
}

/// Where the photos lie on disk.
pub fn images_root(config: &EnrichmentConfig) -> (r: String)
    ensures
        r == config.images_dir,
{
    config.images_dir.clone()
}

/// How far the enrichment of a listing has come.
#[derive(Debug, Clone, Copy, PartialEq, Eq, Structural)]
pub enum Stage {
    Detail,
    Photos,
    Extraction,
    Done,
}

/// What to do next for a listing.
pub enum Step {
    /// Fetch the detail page at this URL and merge what it says.
    FetchDetail(String),
    /// Fetch these photos, by position and URL.
    FetchPhotos(Vec<(i64, String)>),
    /// Extract the facts from the description.
    Extract(ExtractInput),
    /// Take the listing out of the queue.
    Finish,
}

/// What the extractor sees of a listing.
pub open spec fn shows(
    input: ExtractInput,
    listing: Listing,
    surface_m2: Option<String>,
) -> bool {
    &&& input.title == listing.title
    &&& input.price_eur@ == euros_text(listing.price_cents as int, 0)
    &&& input.property_type@ == listing.property_type.label_text()
    &&& input.surface_m2 == surface_m2
    &&& input.rooms == listing.rooms
    &&& listing.description == Some(input.description)
}

/// The detail page is still to be fetched.
pub open spec fn wants_detail(state: EnrichState) -> bool {
    state.enriched_at is None
}

/// Has the photo been stored?
pub open spec fn is_saved() -> spec_fn(DbImage) -> bool {
    |i: DbImage| !is_pending(i)
}

/// How many more photos of a listing may be fetched: those that have been stored
/// count toward the cap.
pub open spec fn photos_left(images: Seq<DbImage>, limit: nat) -> nat {
    let saved = images.filter(is_saved()).len();
    if saved <= limit {
        (limit - saved) as nat
    } else {
        0
    }
}

/// The first photos that are still to be fetched, up to the cap of the listing.
pub open spec fn wanted_photos(images: Seq<DbImage>, limit: nat) -> Seq<(i64, Seq<char>)> {
    let waiting = images.filter(|i: DbImage| is_pending(i));
    let left = photos_left(images, limit);
    let n = if waiting.len() <= left {
        waiting.len()
    } else {
        left
    };
    waiting.take(n as int).map_values(|i: DbImage| (i.position, i.url@))
}

/// How many more photos of a listing may be fetched.
fn left_of(images: &Vec<DbImage>, limit: usize) -> (r: usize)
    ensures
        r == photos_left(images@, limit as nat),
{
    let n: usize = images.len();
    let mut saved: usize = 0;
    let mut i: usize = 0;
    proof {
        reveal(Seq::filter);
        assert(images@.take(0).filter(is_saved()) =~= Seq::<DbImage>::empty());
    }
    while i < n
        invariant
            i <= n == images@.len(),
            saved <= i,
            saved == images@.take(i as int).filter(is_saved()).len(),
        decreases n - i,
    {
        proof {
            lemma_filter_push(images@.take(i as int), images@[i as int], is_saved());
            assert(images@.take(i as int).push(images@[i as int]) =~= images@.take(i as int + 1));
        }
        if images[i].local_path.is_some() {
            saved = saved + 1;
        }
        i = i + 1;
    }
    proof {
        assert(images@.take(n as int) =~= images@);
    }
    if saved <= limit {
        limit - saved
    } else {
        0
    }
}

/// There is a description that has not been read, and something to read it.
pub open spec fn wants_extraction(state: EnrichState, llm_ready: bool) -> bool {
    state.extracted_at is None && state.listing.description is Some && llm_ready
}

/// The next step from a stage on, and the stage behind it: the first of detail
/// page, photos and extraction that is not done.
pub open spec fn next_step(
    step: Step,
    next: Stage,
    stage: Stage,
    state: EnrichState,
    images: Seq<DbImage>,
    limit: nat,
    llm_ready: bool,
    surface_m2: Option<String>,
) -> bool {
    if stage == Stage::Detail && wants_detail(state) {
        step is FetchDetail && step->FetchDetail_0 == state.listing.canonical_url && next
            == Stage::Photos
    } else if (stage == Stage::Detail || stage == Stage::Photos) && wanted_photos(images, limit).len()
        > 0 {
        step is FetchPhotos && photo_texts(step->FetchPhotos_0@) == wanted_photos(images, limit)
            && next == Stage::Extraction
    } else if stage != Stage::Done && wants_extraction(state, llm_ready) {
        step is Extract && shows(step->Extract_0, state.listing, surface_m2) && next == Stage::Done
    } else {
        step is Finish && next == Stage::Done
    }
}

/// What to do next for a listing in the queue: its state and photos as they are
/// now, the cap on photos, whether an extractor is there, and the listing's
/// surface as decimal text.
pub fn process_one(
    stage: Stage,
    state: &EnrichState,
    images: &Vec<DbImage>,
    max_images: usize,
    llm_ready: bool,
    surface_m2: &Option<String>,
) -> (r: (Step, Stage))
    ensures
        next_step(
            r.0,
            r.1,
            stage,
            *state,
            images@,
            max_images as nat,
            llm_ready,
            *surface_m2,
        ),
{
    if stage == Stage::Detail && state.enriched_at.is_none() {
        return (Step::FetchDetail(state.listing.canonical_url.clone()), Stage::Photos);
    }
    if stage == Stage::Detail || stage == Stage::Photos {
        let pending = pending_images(images, left_of(images, max_images));
        proof {
            assert(photo_texts(pending@) == wanted_photos(images@, max_images as nat));
        }
        if pending.len() > 0 {
            return (Step::FetchPhotos(pending), Stage::Extraction);
        }
    }
    if stage != Stage::Done && state.extracted_at.is_none() && llm_ready {
        if let Some(description) = &state.listing.description {
            return (
                Step::Extract(
                    ExtractInput {
                        title: state.listing.title.clone(),
                        price_eur: euros_fixed(state.listing.price_cents, 0),
                        property_type: state.listing.property_type.label().to_owned(),
                        surface_m2: surface_m2.clone(),
                        rooms: state.listing.rooms,
                        description: description.clone(),
                    },
                ),
                Stage::Done,
            );
        }
    }
    (Step::Finish, Stage::Done)
}

/// What a detail page yields; a source without detail pages yields nothing, and
/// its listings are done after photos and extraction.
pub fn detail_or_nothing(fetched: Option<ListingDetail>) -> (r: ListingDetail)
    ensures
        match fetched {
            Some(d) => r == d,
            None => r.description is None && r.address is None && r.image_urls@.len() == 0
                && r.seller is None && r.attributes.unset(),
        },
{
    match fetched {
        Some(d) => d,
        None => ListingDetail::default(),
    }
}

/// The photo is one of those that are still to be fetched.
pub open spec fn awaits(images: Seq<DbImage>, photo: (i64, Seq<char>)) -> bool {
    exists|i: int|
        0 <= i < images.len() && is_pending(#[trigger] images[i]) && photo == (
            images[i].position,
            images[i].url@,
        )
}

/// A listing never has more photos fetched than the cap says, however often it
/// is enriched, and only those that are still to be fetched.
pub proof fn law_photos_are_capped(images: Seq<DbImage>, limit: nat)
    requires
        images.filter(is_saved()).len() <= limit,
    ensures
        images.filter(is_saved()).len() + wanted_photos(images, limit).len() <= limit,
        forall|k: int|
            0 <= k < wanted_photos(images, limit).len() ==> awaits(
                images,
                #[trigger] wanted_photos(images, limit)[k],
            ),
{
    broadcast use vstd::seq_lib::group_filter_ensures;

    let pick = |i: DbImage| is_pending(i);
    let waiting = images.filter(pick);
    assert forall|k: int| 0 <= k < wanted_photos(images, limit).len() implies awaits(
        images,
        #[trigger] wanted_photos(images, limit)[k],
    ) by {
        lemma_filter_from(images, pick, k);
        assert(pick(waiting[k]));
        let i = choose|i: int| 0 <= i < images.len() && images[i] == waiting[k];
        assert(is_pending(images[i]));
    }
}

/// How many steps a stage is from the end.
pub open spec fn steps_left(stage: Stage) -> nat {
    match stage {
        Stage::Detail => 3,
        Stage::Photos => 2,
        Stage::Extraction => 1,
        Stage::Done => 0,
    }
}

/// A run takes at most three steps before it finishes, and never fetches a
/// detail page that is there, nor reads a description that has been read.
pub proof fn law_a_run_finishes(
    step: Step,
    next: Stage,
    stage: Stage,
    state: EnrichState,
    images: Seq<DbImage>,
    limit: nat,
    llm_ready: bool,
    surface_m2: Option<String>,
)
    requires
        next_step(step, next, stage, state, images, limit, llm_ready, surface_m2),
    ensures
        step is Finish || steps_left(next) < steps_left(stage),
        stage == Stage::Done ==> step is Finish,
        step is FetchDetail ==> state.enriched_at is None,
        step is Extract ==> state.extracted_at is None && llm_ready,
{
}

} // verus!
