//! Calls that make the views, and what is typed into them.
use crate::double::Double;
use crate::laws::texts::law_trimming;
use crate::listing::{ListingStatus, ListingWithHistory, Moderation, PropertyType};
use crate::llm::{LlmSettings, LlmSettingsUpdate};
use crate::normalize::url_parts;
use crate::search::{Search, SearchRequest};
use crate::status::{CommuneStat, SourceStatus, StatusResponse};
use crate::text::{decimal, int_text, join, texts, trim};
use crate::ui::communes::{commune_row, CommuneRow};
use crate::ui::listings::{listing_card, sort_from, sort_key, sorted, Card, Sort};
use crate::ui::searches::{
    all_types, match_count, match_label, pause_label, save_label, toggled, typed_locations,
    SearchForm,
};
use crate::ui::settings::{failure_feedback, models_feedback, SettingsForm};
use crate::ui::status::is_failing;
use crate::ui::{
    resolve, save_server, server_line, unreachable_text, ServerChoice, Tab, LOCAL_SERVER,
};
use vstd::prelude::*;

verus! {

/// Pausing and resuming a search is all that toggling does.
pub proof fn law_toggling_pauses_and_resumes(search: Search, r: SearchRequest)
    requires
        call_ensures(toggled, (&search,), r),
    ensures
        r.active <==> !search.active,
        r.name == search.name && texts(r.locations@) == texts(search.locations@),
        r.max_price_cents == search.max_price_cents && r.min_surface_m2 == search.min_surface_m2,
        r.min_rooms == search.min_rooms && r.property_types@ == search.property_types@,
{
}

/// A search without a count matches nothing; one with a count matches that many.
pub proof fn law_counts_are_looked_up(status: StatusResponse, id: u128, known: i64, unknown: i64)
    requires
        call_ensures(match_count, (Some(&status), id), known),
        call_ensures(match_count, (None, id), unknown),
    ensures
        unknown == 0,
        status.search_matches@.contains_key(id) ==> known == status.search_matches@[id],
        !status.search_matches@.contains_key(id) ==> known == 0,
{
}

/// A form is refused if and only if it lacks a name or a location, the name first.
pub proof fn law_forms_need_name_and_location(
    form: SearchForm,
    surface: Option<Double>,
    r: Result<SearchRequest, &'static str>,
)
    requires
        call_ensures(SearchForm::save, (&form, surface), r),
    ensures
        r is Ok <==> trim(form.name@).len() > 0 && typed_locations(form.locations@).len() > 0,
        trim(form.name@).len() == 0 ==> r is Err && r->Err_0@ == "il faut un nom"@,
        r matches Ok(request) ==> request.active && request.name@ == trim(form.name@)
            && request.min_surface_m2 == surface && request.property_types@ == form.types@ && texts(
            request.locations@,
        ) == typed_locations(form.locations@),
        trim(form.name@).len() > 0 && typed_locations(form.locations@).len() == 0 ==> r is Err
            && r->Err_0@ == "au moins une commune ou un code postal"@,
{
}

/// The form of a search states what the search has, and is saved as that search.
pub proof fn law_forms_state_the_search(search: Search, form: SearchForm)
    requires
        call_ensures(SearchForm::load, (&search,), form),
    ensures
        form.editing == Some(search.id),
        form.name == search.name,
        form.locations@ == join(texts(search.locations@), ", "@),
        form.types@ == search.property_types@,
        search.max_price_cents is None ==> form.max_price@.len() == 0,
        search.min_surface_m2 is None ==> form.min_surface@.len() == 0,
        search.min_rooms is None ==> form.min_rooms@.len() == 0,
{
}

/// A type that is ticked is among the types afterwards, one that is not is not, and every other
/// stays as it was.
pub proof fn law_ticking_a_type_decides_that_type(
    form: &mut SearchForm,
    t: PropertyType,
    checked: bool,
    other: PropertyType,
)
    requires
        other != t,
        call_ensures(SearchForm::toggle_type, (form, t, checked), ()),
    ensures
        final(form).types@.contains(t) <==> checked,
        final(form).types@.contains(other) <==> old(form).types@.contains(other),
        final(form).name == old(form).name && final(form).locations == old(form).locations,
        final(form).max_price == old(form).max_price && final(form).min_rooms
            == old(form).min_rooms,
        final(form).min_surface == old(form).min_surface && final(form).editing
            == old(form).editing,
{
    let before = old(form).types@;
    let after = final(form).types@;
    if checked {
        if !before.contains(t) {
            assert(after == before.push(t));
            assert(after[before.len() as int] == t);
            if before.contains(other) {
                let i: int = choose|i: int| 0 <= i < before.len() && before[i] == other;
                assert(after[i] == other);
            }
            if after.contains(other) {
                let i: int = choose|i: int| 0 <= i < after.len() && after[i] == other;
                assert(before[i] == other);
            }
        }
    } else {
        let pred = |x: PropertyType| x != t;
        assert(after == before.filter(pred));
        before.filter_lemma(pred);
        if after.contains(t) {
            let i: int = choose|i: int| 0 <= i < after.len() && after[i] == t;
            assert(pred(after[i]));
        }
        if before.contains(other) {
            let i: int = choose|i: int| 0 <= i < before.len() && before[i] == other;
            assert(pred(before[i]));
            assert(after.contains(before[i]));
        }
        if after.contains(other) {
            before.lemma_filter_contains_rev(pred, other);
        }
    }
}

/// What the buttons say.
pub proof fn law_buttons_say_what_they_do(
    editing: bool,
    busy_label: &'static str,
    label: &'static str,
    pause: &'static str,
    resume: &'static str,
)
    requires
        call_ensures(save_label, (true, editing), busy_label),
        call_ensures(save_label, (false, editing), label),
        call_ensures(pause_label, (true,), pause),
        call_ensures(pause_label, (false,), resume),
    ensures
        busy_label@ == "Enregistrement…"@,
        editing ==> label@ == "Mettre à jour"@,
        !editing ==> label@ == "Créer la recherche"@,
        pause@ == "pause"@,
        resume@ == "reprendre"@,
{
}

/// The settings are edited with everything but the key, and saving the form as it was loaded
/// changes nothing: it names no key.
pub proof fn law_settings_are_saved_as_loaded(
    settings: LlmSettings,
    form: SettingsForm,
    update: LlmSettingsUpdate,
)
    requires
        call_ensures(SettingsForm::load, (&settings,), form),
        call_ensures(SettingsForm::update, (&form,), update),
    ensures
        form.api_key@.len() == 0,
        update.enabled == settings.enabled,
        update.base_url == settings.base_url,
        update.model == settings.model,
        update.api_key is None,
{
    assert(trim(form.api_key@).len() == 0) by {
        assert(form.api_key@ =~= Seq::<char>::empty());
        law_trimming(Seq::empty(), Seq::empty(), Seq::empty());
    }
}

/// A key that is typed is saved without the space around it.
pub proof fn law_typed_keys_are_saved(form: SettingsForm, update: LlmSettingsUpdate)
    requires
        call_ensures(SettingsForm::update, (&form,), update),
    ensures
        update.api_key is Some <==> trim(form.api_key@).len() > 0,
        update.api_key matches Some(k) ==> k@ == trim(form.api_key@),
        update.enabled == form.enabled && update.base_url == form.base_url && update.model
            == form.model,
{
}

/// Exactly the tab that is open is shown.
pub proof fn law_one_tab_is_shown(tab: Tab, current: Tab, r: &'static str)
    requires
        call_ensures(Tab::display, (tab, current), r),
    ensures
        r@ == "none"@ <==> tab != current,
        r@.len() == 0 <==> tab == current,
{
    reveal_strlit("none");
    reveal_strlit("");
}

/// The orders that can be chosen, and what each orders by.
pub proof fn law_orders_are_chosen_by_name(value: &str, r: Sort, item: ListingWithHistory, key: i64)
    requires
        call_ensures(sort_from, (value,), r),
        call_ensures(sort_key, (&item, r), key),
    ensures
        value@ == "price"@ <==> r == Sort::Price,
        value@ == "m2"@ <==> r == Sort::PricePerM2,
        value@ == "drop"@ <==> r == Sort::BiggestDrop,
        value@ == "price"@ ==> key == item.listing.price_cents,
        value@ == "m2"@ && item.listing.m2_cents() is Some ==> key == item.listing.m2_cents()->0,
        value@ == "m2"@ && item.listing.m2_cents() is None ==> key == i64::MAX,
        r == Sort::Recent ==> key == 0,
{
    reveal_strlit("price");
    reveal_strlit("m2");
    reveal_strlit("drop");
    assert("price"@.len() == 5 && "m2"@.len() == 2 && "drop"@.len() == 4);
}

/// A sorted list ascends.
pub proof fn law_sorted_lists_ascend<T>(items: Vec<(i64, T)>, r: Vec<(i64, T)>, i: int, j: int)
    requires
        call_ensures(sorted::<T>, (items,), r),
        0 <= i < j < r@.len(),
    ensures
        r@[i].0 <= r@[j].0,
        r@.len() == items@.len(),
{
}

/// A card marks what has gone and offers every verdict but the one in force.
pub proof fn law_cards_offer_the_other_verdicts(item: ListingWithHistory, r: Card)
    requires
        call_ensures(listing_card, (&item,), r),
    ensures
        r.gone <==> item.listing.status == ListingStatus::Gone,
        item.listing.moderation == Moderation::Unmoderated ==> r.can_dismiss && r.can_ban
            && !r.can_restore,
        item.listing.moderation == Moderation::Dismissed ==> !r.can_dismiss && r.can_ban
            && r.can_restore,
        item.listing.moderation == Moderation::Banned ==> r.can_dismiss && !r.can_ban
            && r.can_restore,
        r.m2 is Some <==> item.listing.m2_cents() is Some,
        r.sparkline is Some <==> item.history@.len() > 0,
{
}

/// A row shows a trend where both medians are known, marked by whether prices went up.
pub proof fn law_rows_mark_the_trend(s: CommuneStat, r: CommuneRow)
    requires
        call_ensures(commune_row, (&s,), r),
    ensures
        s.median_m2_cents is None || s.median_m2_cents_30d is None ==> r.trend@ == "—"@
            && r.trend_class@ == "muted"@,
        s.median_m2_cents is Some && s.median_m2_cents_30d is Some && s.median_m2_cents_30d->0 > 0
            ==> r.trend_class@ == if s.median_m2_cents->0 > s.median_m2_cents_30d->0 {
            "warn"@
        } else {
            "ok"@
        },
{
}

/// A source is failing if and only if its last tick ended with an error.
pub proof fn law_sources_fail_with_an_error(s: SourceStatus, r: bool)
    requires
        call_ensures(is_failing, (&s,), r),
    ensures
        r <==> s.last_error is Some,
{
}

/// The server is the one that was injected, else the stored one, and the local one where nothing
/// is known.
pub proof fn law_servers_are_found_in_order(
    a: String,
    b: Option<String>,
    c: Option<String>,
    first: String,
    second: String,
    local: String,
)
    requires
        call_ensures(resolve, (Some(a), b, c), first),
        call_ensures(resolve, (None, Some(a), c), second),
        call_ensures(resolve, (None, None, None), local),
    ensures
        url_parts(a@) matches Some(url) ==> first@ == url.text && second@
            == url.text,
        local@ == LOCAL_SERVER@,
{
}

/// An address that is typed is kept if and only if it is one.
pub proof fn law_typed_servers_are_kept(value: &str, r: ServerChoice)
    requires
        call_ensures(save_server, (value,), r),
    ensures
        r is Keep <==> trim(value@).len() > 0 && url_parts(trim(value@)) is Some,
        r matches ServerChoice::Keep(url) ==> url@ == trim(value@),
{
}

/// The lines that tell of the server.
pub proof fn law_lines_tell_of_the_server(
    error: &str,
    version: &str,
    commit: String,
    url: &str,
    down: String,
    known: String,
    unknown: String,
)
    requires
        call_ensures(unreachable_text, (error,), down),
        call_ensures(server_line, (version, &Some(commit), url), known),
        call_ensures(server_line, (version, &None, url), unknown),
    ensures
        down@ == "serveur injoignable : "@ + error@,
        known@ == version@ + " ("@ + commit@ + ") — "@ + url@,
        unknown@ == version@ + " ("@ + "unknown"@ + ") — "@ + url@,
{
}

/// The types that can be chosen are those that a search can be for, each once.
pub proof fn law_types_are_offered_once(r: Vec<PropertyType>)
    requires
        call_ensures(all_types, (), r),
    ensures
        r@.no_duplicates(),
        r@.contains(PropertyType::House) && r@.contains(PropertyType::Apartment) && r@.contains(
            PropertyType::Land,
        ),
        !r@.contains(PropertyType::Other),
{
    assert(r@[0] == PropertyType::House && r@[1] == PropertyType::Apartment && r@[2]
        == PropertyType::Land);
}

/// What the tabs are called.
pub proof fn law_tabs_are_called(
    listings: &'static str,
    searches: &'static str,
    communes: &'static str,
    settings: &'static str,
    about: &'static str,
)
    requires
        call_ensures(Tab::label, (Tab::Listings,), listings),
        call_ensures(Tab::label, (Tab::Searches,), searches),
        call_ensures(Tab::label, (Tab::Communes,), communes),
        call_ensures(Tab::label, (Tab::Settings,), settings),
        call_ensures(Tab::label, (Tab::About,), about),
    ensures
        listings@ == "Annonces"@ && searches@ == "Recherches"@ && communes@ == "Communes"@,
        settings@ == "Réglages"@ && about@ == "À propos"@,
{
}

/// What the feedback and the counts say.
pub proof fn law_feedback_says_what_came_back(
    count: u64,
    matched: i64,
    error: &str,
    models: String,
    failed: String,
    matches: String,
)
    requires
        call_ensures(models_feedback, (count,), models),
        call_ensures(failure_feedback, (error,), failed),
        call_ensures(match_label, (matched,), matches),
    ensures
        models@ == decimal(count as nat) + " modèle(s)"@,
        failed@ == "échec : "@ + error@,
        matches@ == int_text(matched as int) + " annonces"@,
{
}

} // verus!
