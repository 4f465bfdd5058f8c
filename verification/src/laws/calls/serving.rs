//! Calls that run the sources and answer requests.
use crate::api::{create_search, error_status, matched_by, retro_match};
use crate::client::{check_status, listings_path, moderation_path, search_path, ClientError};
use crate::config::NotificationsConfig;
use crate::laws::running::law_pauses_double_up_to_an_hour;
use crate::listing::{Listing, Timestamp};
use crate::notify::{slashed, url_joined, NtfyNotifier};
use crate::pipeline::{PipelineStats, Push};
use crate::politeness::{concurrency, delay_before_request};
use crate::scheduler::{backoff, maybe_alert, record_tick, run_source, AfterTick, FailureState};
use crate::search::{satisfies, Search};
use crate::status::{SourceStatus, TickStats};
use crate::store::{uuid_text, StoreError};
use crate::text::{decimal, trim};
use vstd::prelude::*;

verus! {

/// A tick that succeeds clears the failures and waits for the interval; its counts are those of
/// the pipeline.
pub proof fn law_successes_clear_the_failures(
    f: &mut FailureState,
    source: &str,
    interval: u64,
    fetched: u64,
    stats: PipelineStats,
    r: AfterTick,
)
    requires
        call_ensures(run_source, (f, source, interval, Ok((fetched, stats))), r),
    ensures
        final(f).consecutive == 0 && !final(f).alerted && final(f).alert_after
            == old(f).alert_after,
        r.sleep_secs == interval && r.alert is None,
        r.result is Ok,
        r.result->Ok_0.fetched == fetched && r.result->Ok_0.gone == stats.gone,
        r.result->Ok_0.new_listings == stats.new_listings,
        r.result->Ok_0.updated_listings == stats.updated_listings,
        r.result->Ok_0.skipped == stats.skipped && r.result->Ok_0.notified == stats.notified,
        r.result->Ok_0.suppressed == stats.suppressed,
{
}

/// A tick that fails is counted, waits longer than the last, and alerts once at the threshold.
pub proof fn law_failures_wait_and_alert_once(
    f: &mut FailureState,
    source: &str,
    interval: u64,
    error: String,
    r: AfterTick,
)
    requires
        old(f).consecutive < u32::MAX,
        call_ensures(run_source, (f, source, interval, Err(error)), r),
    ensures
        final(f).consecutive == old(f).consecutive + 1,
        final(f).alert_after == old(f).alert_after,
        r.result == Err::<TickStats, String>(error),
        r.alert is Some <==> !old(f).alerted && old(f).consecutive + 1 >= old(f).alert_after,
        final(f).alerted <==> old(f).alerted || r.alert is Some,
        r.alert matches Some(push) ==> push.title@ == "terrier: source "@ + source@
            + " is failing"@ && push.message@
            == "Repeated scrape failures, backing off.\nLast error: "@ + error@,
        old(f).consecutive == 0 ==> r.sleep_secs == 60,
        old(f).consecutive > 0 ==> r.sleep_secs == if 2 * backoff(old(f).consecutive as int)
            <= 3600 {
            2 * backoff(old(f).consecutive as int)
        } else {
            3600
        },
{
    if old(f).consecutive > 0 {
        law_pauses_double_up_to_an_hour(old(f).consecutive as nat);
    } else {
        law_pauses_double_up_to_an_hour(1);
    }
}

/// An alert is given where it is due, and not a second time.
pub proof fn law_alerts_are_given_once(
    f: &mut FailureState,
    source: &str,
    error: &str,
    r: Option<Push>,
    g: &mut FailureState,
    again: Option<Push>,
)
    requires
        call_ensures(maybe_alert, (f, source, error), r),
        *old(g) == *final(f),
        call_ensures(maybe_alert, (g, source, error), again),
    ensures
        r is Some <==> old(f).consecutive >= old(f).alert_after && !old(f).alerted,
        again is None,
        final(f).consecutive == old(f).consecutive,
        *final(g) == *final(f),
{
}

/// The status of a source states its last tick: when it was, what it found or why it failed.
pub proof fn law_statuses_state_the_last_tick(
    s: &mut SourceStatus,
    result: Result<TickStats, String>,
    now: Timestamp,
)
    requires
        result is Err ==> old(s).consecutive_failures < u32::MAX,
        call_ensures(record_tick, (s, result, now), ()),
    ensures
        final(s).last_tick == Some(now),
        final(s).source_id == old(s).source_id,
        final(s).interval_minutes == old(s).interval_minutes,
        result matches Ok(stats) ==> final(s).last_stats == Some(stats) && final(s).last_error is None
            && final(s).consecutive_failures == 0,
        result matches Err(error) ==> final(s).last_stats == old(s).last_stats && final(s).last_error == Some(error) && final(s).consecutive_failures == old(s).consecutive_failures
            + 1,
{
}

/// A request waits until the delay since the last one has passed, and no longer.
pub proof fn law_requests_wait_for_the_delay(min_delay: u128, since: Option<u128>, r: u128)
    requires
        call_ensures(delay_before_request, (min_delay, since), r),
    ensures
        since is None ==> r == 0,
        since matches Some(elapsed) ==> r + elapsed >= min_delay && (r > 0 ==> r + elapsed
            == min_delay),
{
}

/// At least one request runs at a time, and as many as are allowed.
pub proof fn law_requests_run_as_allowed(max: usize, r: usize)
    requires
        call_ensures(concurrency, (max,), r),
    ensures
        r >= 1,
        max >= 1 ==> r == max,
        max == 0 ==> r == 1,
{
}

/// What is not there is answered with 404, and any other trouble with 500.
pub proof fn law_missing_things_are_not_found(error: StoreError, r: u16)
    requires
        call_ensures(error_status, (&error,), r),
    ensures
        error is NotFound <==> r == 404,
        !(error is NotFound) <==> r == 500,
{
}

/// An answer is taken if and only if its status says success; the error keeps status and message.
pub proof fn law_successful_answers_are_taken(
    status: u16,
    message: String,
    r: Result<(), ClientError>,
)
    requires
        call_ensures(check_status, (status, message), r),
    ensures
        r is Ok <==> 200 <= status && status < 300,
        r matches Err(e) ==> e == (ClientError::Api { status, message }),
{
}

/// Requests of different kinds go to different paths, and each names the item that it is for.
pub proof fn law_paths_name_the_item(
    id: u128,
    search: String,
    moderation: String,
    all: String,
    hidden: String,
    one: String,
    one_hidden: String,
)
    requires
        call_ensures(search_path, (id,), search),
        call_ensures(moderation_path, (id,), moderation),
        call_ensures(listings_path, (None, false), all),
        call_ensures(listings_path, (None, true), hidden),
        call_ensures(listings_path, (Some(id), false), one),
        call_ensures(listings_path, (Some(id), true), one_hidden),
    ensures
        search@ == "api/searches/"@ + uuid_text(id),
        moderation@ == "api/listings/"@ + uuid_text(id) + "/moderation"@,
        all@ == "api/listings"@,
        hidden@ == "api/listings?hidden=true"@,
        one@ == "api/listings?search_id="@ + uuid_text(id) + "&hidden=false"@,
        one_hidden@ == "api/listings?search_id="@ + uuid_text(id) + "&hidden=true"@,
{
    reveal_strlit("&hidden=");
    reveal_strlit("true");
    reveal_strlit("false");
    reveal_strlit("&hidden=true");
    reveal_strlit("&hidden=false");
    assert("&hidden="@ + "true"@ =~= "&hidden=true"@);
    assert("&hidden="@ + "false"@ =~= "&hidden=false"@);
    let head = "api/listings?search_id="@ + uuid_text(id);
    assert(head + "&hidden="@ + "true"@ =~= head + ("&hidden="@ + "true"@));
    assert(head + "&hidden="@ + "false"@ =~= head + ("&hidden="@ + "false"@));
}

/// A position is matched if and only if the listing there satisfies the search.
proof fn lemma_matched_by(search: Search, listings: Seq<Listing>, k: int)
    requires
        0 <= k,
    ensures
        matched_by(search, listings).contains(k) <==> k < listings.len() && satisfies(
            search,
            listings[k],
        ),
    decreases listings.len(),
{
    if listings.len() > 0 {
        let rest = listings.drop_last();
        let before = matched_by(search, rest);
        lemma_matched_by(search, rest, k);
        let all = matched_by(search, listings);
        if satisfies(search, listings.last()) {
            assert(all[before.len() as int] == listings.len() - 1);
            if before.contains(k) {
                let i: int = choose|i: int| 0 <= i < before.len() && before[i] == k;
                assert(all[i] == k);
            }
            if all.contains(k) && k != listings.len() - 1 {
                let i: int = choose|i: int| 0 <= i < all.len() && all[i] == k;
                assert(before[i] == k);
            }
        }
        if k < rest.len() {
            assert(rest[k] == listings[k]);
        }
    }
}

/// A search that is created is matched against the listings that are there already, each one
/// that satisfies it once.
pub proof fn law_new_searches_meet_what_is_there(
    search: Search,
    listings: Vec<Listing>,
    r: Vec<usize>,
    k: int,
)
    requires
        call_ensures(retro_match, (&search, &listings), r),
        0 <= k < listings@.len(),
    ensures
        (exists|i: int| 0 <= i < r@.len() && #[trigger] r@[i] == k) <==> satisfies(
            search,
            listings@[k],
        ),
{
    lemma_matched_by(search, listings@, k);
    let found = r@.map_values(|i: usize| i as int);
    if satisfies(search, listings@[k]) {
        let i: int = choose|i: int| 0 <= i < found.len() && found[i] == k;
        assert(r@[i] == k);
    }
    if exists|i: int| 0 <= i < r@.len() && #[trigger] r@[i] == k {
        let i: int = choose|i: int| 0 <= i < r@.len() && #[trigger] r@[i] == k;
        assert(found[i] == k);
    }
}

/// The push on a new search names it and says how many listings match already.
pub proof fn law_created_searches_are_announced(name: &str, matched: u64, r: Push)
    requires
        call_ensures(create_search, (name, matched), r),
    ensures
        r.title@ == "terrier: recherche « "@ + name@ + " » créée"@,
        matched == 0 ==> r.message@
            == "Aucune annonce existante ne correspond — les sources vont chercher."@,
        matched > 0 ==> r.message@ == decimal(matched as nat)
            + " annonce(s) existante(s) correspondent déjà."@,
{
}

/// A notifier is made if and only if there is a server to notify and a topic to notify it of,
/// and has the key that it is given.
pub proof fn law_notifiers_need_server_and_topic(
    config: NotificationsConfig,
    r: Result<Option<NtfyNotifier>, String>,
    contents: &str,
    with: NtfyNotifier,
)
    requires
        call_ensures(NtfyNotifier::new, (&config,), r),
        r is Ok && r->Ok_0 is Some,
        call_ensures(NtfyNotifier::with_token, (r->Ok_0->0, contents), with),
    ensures
        config.ntfy_url is Some,
        trim(config.topic@).len() > 0,
        url_joined(slashed(config.ntfy_url->0@), trim(config.topic@)) == Ok::<
            Seq<char>,
            Seq<char>,
        >(r->Ok_0->0.endpoint@),
        r->Ok_0->0.token is None,
        with.endpoint == r->Ok_0->0.endpoint,
        with.token is Some && with.token->0@ == trim(contents@),
{
}

/// Without a server there is no notifier, and a server without a topic is an error.
pub proof fn law_topics_are_needed_where_there_is_a_server(
    config: NotificationsConfig,
    r: Result<Option<NtfyNotifier>, String>,
)
    requires
        call_ensures(NtfyNotifier::new, (&config,), r),
    ensures
        config.ntfy_url is None <==> r is Ok && r->Ok_0 is None,
        config.ntfy_url is Some && trim(config.topic@).len() == 0 ==> r is Err,
{
}

} // verus!
