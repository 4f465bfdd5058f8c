//! Running: ticks, failures and the steps of an enrichment.
use crate::enrich::{
    extension, file_name, is_saved, next_step, photos_left, shows, wanted_photos, Stage, Step,
};
use crate::fixed::euros_text;
use crate::listing::Listing;
use crate::llm::ExtractInput;
use crate::pipeline::Push;
use crate::scheduler::{backoff, says_failing, FailureState};
use crate::store::{is_pending, photo_texts, DbImage, EnrichState};
use crate::text::{decimal, int_text, lemma_filter_push};
use vstd::prelude::*;

verus! {

/// A failure counts one more, and changes nothing else; a success starts over.
pub proof fn law_failures_are_counted(state: FailureState)
    ensures
        state.consecutive < u32::MAX ==> state.failed() == (FailureState {
            consecutive: (state.consecutive + 1) as u32,
            alert_after: state.alert_after,
            alerted: state.alerted,
        }),
        state.consecutive == u32::MAX ==> state.failed() == state,
        state.recovered() == (FailureState {
            consecutive: 0,
            alert_after: state.alert_after,
            alerted: false,
        }),
{
}

/// An alert is due once the failures reach the threshold, unless it has been
/// given; given, it is not due again, and the count stays.
pub proof fn law_alerts_are_due_at_the_threshold(state: FailureState)
    ensures
        state.alert_due() <==> state.consecutive >= state.alert_after && !state.alerted,
        state.alert_due() ==> state.after_alert() == (FailureState { alerted: true, ..state }),
        !state.alert_due() ==> state.after_alert() == state,
        !state.after_alert().alert_due(),
{
}

/// The pause after a failure is a minute, and doubles with every further one up
/// to an hour.
pub proof fn law_pauses_double_up_to_an_hour(n: nat)
    requires
        n >= 1,
    ensures
        backoff(1) == 60,
        backoff(n as int + 1) == if 2 * backoff(n as int) <= 3600 {
            2 * backoff(n as int)
        } else {
            3600
        },
{
    crate::scheduler::law_backoff_grows_and_caps(1, n);
    vstd::arithmetic::power2::lemma2_to64();
    vstd::arithmetic::power2::lemma_pow2_unfold(n);
    vstd::arithmetic::power2::lemma_pow2_pos((n - 1) as nat);
}

/// An alert names the source and the last error.
pub proof fn law_alerts_name_source_and_error(push: Push, source_id: Seq<char>, error: Seq<char>)
    requires
        says_failing(push, source_id, error),
    ensures
        push.title@ == "terrier: source "@ + source_id + " is failing"@,
        push.message@ == "Repeated scrape failures, backing off.\nLast error: "@ + error,
        push.tags@ == "warning,terrier"@ && push.priority@ == "high"@,
{
}

/// An enrichment goes on where it is not done: the detail page while it has not
/// been fetched, then the photos that are still to be fetched, then the reading
/// of a description that has not been read, where there is something to read it;
/// then it is finished.
pub proof fn law_enrichment_goes_on_where_it_is_not_done(
    step: Step,
    next: Stage,
    stage: Stage,
    state: EnrichState,
    images: Seq<DbImage>,
    limit: nat,
    llm_ready: bool,
    surface: Option<String>,
)
    requires
        next_step(step, next, stage, state, images, limit, llm_ready, surface),
    ensures
        ({
            let photos = wanted_photos(images, limit);
            let reads = state.extracted_at is None && state.listing.description is Some
                && llm_ready;
            &&& stage == Stage::Detail && state.enriched_at is None ==> (step matches
                Step::FetchDetail(url) && url == state.listing.canonical_url) && next
                == Stage::Photos
            &&& ((stage == Stage::Detail && state.enriched_at is Some) || stage == Stage::Photos)
                && photos.len() > 0 ==> (step matches Step::FetchPhotos(list) && photo_texts(list@)
                == photos) && next == Stage::Extraction
            &&& ((stage == Stage::Detail && state.enriched_at is Some) || stage == Stage::Photos)
                && photos.len() == 0 && reads ==> step is Extract && next == Stage::Done
            &&& stage == Stage::Extraction && reads ==> step is Extract && next == Stage::Done
            &&& step is Extract ==> reads && shows(step->Extract_0, state.listing, surface)
            &&& stage == Stage::Done ==> step is Finish
            &&& !reads && stage == Stage::Extraction ==> step is Finish
            &&& !reads && photos.len() == 0 && (stage == Stage::Photos || (stage == Stage::Detail
                && state.enriched_at is Some)) ==> step is Finish
        }),
{
}

/// What is read of a listing is what it says: title, price in euros, type,
/// surface, rooms and description.
pub proof fn law_readers_see_the_listing(
    input: ExtractInput,
    listing: Listing,
    surface: Option<String>,
)
    requires
        shows(input, listing, surface),
    ensures
        input.title == listing.title,
        input.price_eur@ == euros_text(listing.price_cents as int, 0),
        input.property_type@ == listing.property_type.label_text(),
        input.surface_m2 == surface,
        input.rooms == listing.rooms,
        listing.description == Some(input.description),
{
}

/// The photos to fetch are the first that have no local copy, as many as the cap
/// leaves: what is stored counts toward it.
pub proof fn law_photos_are_fetched_up_to_the_cap(
    images: Seq<DbImage>,
    image: DbImage,
    limit: nat,
)
    ensures
        photos_left(Seq::empty(), limit) == limit,
        image.local_path is Some ==> photos_left(images.push(image), limit) == if photos_left(
            images,
            limit,
        ) > 0 {
            (photos_left(images, limit) - 1) as nat
        } else {
            0
        },
        image.local_path is None ==> photos_left(images.push(image), limit) == photos_left(
            images,
            limit,
        ),
        image.local_path is None && wanted_photos(images, limit).len() < photos_left(images, limit)
            ==> wanted_photos(images.push(image), limit) == wanted_photos(images, limit).push(
            (image.position, image.url@),
        ),
        image.local_path is None && wanted_photos(images, limit).len() >= photos_left(images, limit)
            ==> wanted_photos(images.push(image), limit) == wanted_photos(images, limit),
        wanted_photos(Seq::empty(), limit).len() == 0,
{
    let pick = |i: DbImage| is_pending(i);
    lemma_filter_push(images, image, is_saved());
    lemma_filter_push(images, image, pick);
    assert(Seq::<DbImage>::empty().filter(is_saved()) =~= Seq::<DbImage>::empty()
        && Seq::<DbImage>::empty().filter(pick) =~= Seq::<DbImage>::empty()) by {
        reveal(Seq::filter);
    }
    let row = |i: DbImage| (i.position, i.url@);
    let waiting = images.filter(pick);
    let left = photos_left(images, limit) as int;
    if image.local_path is None {
        let more = waiting.push(image);
        if waiting.len() < left {
            assert(waiting.take(waiting.len() as int) =~= waiting);
            assert(more.take(more.len() as int) =~= more);
            assert(wanted_photos(images.push(image), limit) =~= wanted_photos(images, limit).push(
                row(image),
            ));
        } else {
            assert(more.take(left) =~= waiting.take(left));
        }
    }
}

/// The file of a photo has its position for a name and the extension of its
/// address: one to four letters or digits behind the last dot, whatever query
/// follows; else it is taken for a JPEG.
pub proof fn law_photos_keep_their_extension(
    head: Seq<char>,
    ext: Seq<char>,
    c: char,
    query: Seq<char>,
    position: nat,
)
    requires
        !head.contains('?') && !head.contains('#'),
        1 <= ext.len() <= 4,
        forall|i: int|
            0 <= i < ext.len() ==> ('0' <= #[trigger] ext[i] <= '9') || ('a' <= ext[i] <= 'z') || (
            'A' <= ext[i] <= 'Z'),
        c == '?' || c == '#',
    ensures
        extension(head.push('.') + ext) == ext,
        extension((head.push('.') + ext).push(c) + query) == ext,
        extension(head.push('.')) == "jpg"@,
        file_name(position as int, head.push('.') + ext) == decimal(position) + "."@ + ext,
{
    let s = head.push('.') + ext;
    assert forall|k: int| 0 <= k < s.len() implies s[k] != '?' && s[k] != '#' by {
        if k < head.len() {
            assert(head.contains(head[k]));
        } else if k > head.len() {
            assert(s[k] == ext[k - head.len() - 1]);
        }
    }
    crate::laws::texts::law_cutting_at_the_first(s, c, query, '?', '#');
    assert(!head.push('.').contains('?') && !head.push('.').contains('#')) by {
        assert forall|k: int| 0 <= k < head.push('.').len() implies head.push('.')[k] != '?'
            && head.push('.')[k] != '#' by {
            if k < head.len() {
                assert(head.contains(head[k]));
            }
        }
    }
    crate::laws::texts::law_cutting_at_the_first(head.push('.'), c, query, '?', '#');
    crate::laws::texts::law_cutting_behind_the_last(head, '.', ext);
    crate::laws::texts::law_cutting_behind_the_last(head, '.', Seq::empty());
    assert(head.push('.') + Seq::<char>::empty() =~= head.push('.'));
    assert(int_text(position as int) == decimal(position));
}

} // verus!
