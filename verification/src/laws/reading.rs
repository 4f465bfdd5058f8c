//! Reading: what the language model is asked, and what its answers say.
use crate::config::LlmConfig;
use crate::json::{integer_tree, Tree};
use crate::listing::ExtractedAttrs;
use crate::llm::{
    after_thoughts, answer_fields, answer_schema, answer_text, endpoint, excerpt, in_effect,
    listing_entries, model_ids, outermost_object, override_key, picked, prompt_in_effect,
    refusal_text, request_tree, trouble_text, usage_in, wants_key_file, without_key, ExtractInput,
    LlmSettingsUpdate, RawExtraction, Trouble,
};
use crate::ratio::euro_cents;
use crate::text::{contains_text, find, lemma_rfind, occurs_at, rfind, trim};
use vstd::prelude::*;
use vstd::std_specs::convert::FromSpec;

verus! {

/// What the user stored counts before what is configured, trimmed, and what is
/// blank does not count; whether the model is in use is as the user stored it.
pub proof fn law_stored_settings_come_first(
    over: Seq<char>,
    configured: Seq<char>,
    base: LlmConfig,
    update: LlmSettingsUpdate,
)
    ensures
        trim(over).len() > 0 ==> picked(over, configured) == trim(over),
        trim(over).len() == 0 ==> picked(over, configured) == configured,
        in_effect(base, Some(update)) == update.enabled,
        in_effect(base, None) == base.enabled,
        update.api_key matches Some(k) ==> (k@.len() > 0 ==> override_key(Some(update)) == Some(k)),
        update.api_key matches Some(k) ==> (k@.len() == 0 ==> override_key(Some(update)) is None),
        update.api_key is None ==> override_key(Some(update)) is None,
        override_key(None) is None,
        wants_key_file(base, Some(update)) <==> update.enabled && base.api_key_file is Some && (
        update.api_key is None || update.api_key->0@.len() == 0),
        wants_key_file(base, None) <==> base.enabled && base.api_key_file is Some,
        trim(over).len() > 0 ==> prompt_in_effect(Some(over)) == trim(over),
        trim(over).len() == 0 ==> prompt_in_effect(Some(over)) == prompt_in_effect(None),
{
}

/// An endpoint lies below the base URL, with one slash between them however many
/// the base ends with.
pub proof fn law_endpoints_lie_below_the_base(base: Seq<char>, path: Seq<char>)
    ensures
        endpoint(base.push('/'), path) == endpoint(base, path),
        base.len() > 0 && base.last() != '/' ==> endpoint(base, path) == base + path,
{
    crate::laws::texts::law_cutting_off_the_end(base, '/');
}

/// The answer is what the assistant says where it says something; else what it
/// reasoned, where it came to an end by itself and wrote an object; else there is
/// none.
pub proof fn law_answers_are_what_the_assistant_says(body: Tree, choice: Tree)
    requires
        choice == body.at("choices"@).head(),
    ensures
        ({
            let content = choice.at("message"@).at("content"@);
            let thought = choice.at("message"@).at("reasoning_content"@);
            let said = content is Text && trim(content->Text_0).len() > 0;
            let thinks = thought is Text && trim(thought->Text_0).len() > 0;
            &&& said ==> answer_text(body) == Ok::<Seq<char>, Seq<char>>(content->Text_0)
            &&& !said && thinks && choice.at("finish_reason"@) == Tree::Text("stop"@)
                && thought->Text_0.contains('{') ==> answer_text(body) == Ok::<
                Seq<char>,
                Seq<char>,
            >(thought->Text_0)
            &&& !said && thinks && choice.at("finish_reason"@) != Tree::Text("stop"@)
                && choice.at("finish_reason"@) is Text ==> answer_text(body) is Err
            &&& !said && thinks && !thought->Text_0.contains('{') ==> answer_text(body) is Err
            &&& !said && !thinks ==> answer_text(body) is Err
        }),
{
}

/// What comes before the end of a chain of thought is no part of the answer.
pub proof fn law_thoughts_are_no_answer(thoughts: Seq<char>, rest: Seq<char>)
    requires
        forall|i: int|
            thoughts.len() < i ==> !occurs_at(thoughts + "</think>"@ + rest, "</think>"@, i),
    ensures
        after_thoughts(thoughts + "</think>"@ + rest) == rest,
        outermost_object(thoughts + "</think>"@ + rest) == if find(rest, "{"@) is Some && rfind(
            rest,
            "}"@,
        ) is Some && rfind(rest, "}"@)->0 > find(rest, "{"@)->0 {
            rest.subrange(find(rest, "{"@)->0, rfind(rest, "}"@)->0 + 1)
        } else {
            rest
        },
{
    let all = thoughts + "</think>"@ + rest;
    let i = thoughts.len() as int;
    assert(all.subrange(i, i + "</think>"@.len()) =~= "</think>"@);
    lemma_rfind(all, "</think>"@, i);
    assert(all.skip(i + "</think>"@.len()) =~= rest);
}

/// A text without a chain of thought is an answer as it is.
pub proof fn law_plain_answers_stay(content: Seq<char>)
    requires
        !contains_text(content, "</think>"@),
    ensures
        after_thoughts(content) == content,
{
}

/// The tokens are reported where both counts are integers.
pub proof fn law_tokens_are_reported_together(body: Tree)
    ensures
        usage_in(body) matches Some((p, c)) ==> body.at("usage"@).at("prompt_tokens"@).as_integer()
            == Some(p) && body.at("usage"@).at("completion_tokens"@).as_integer() == Some(c),
        usage_in(body) is None <==> body.at("usage"@).at("prompt_tokens"@).as_integer() is None
            || body.at("usage"@).at("completion_tokens"@).as_integer() is None,
{
}

/// An error shows no more than the start of a long text, and all of a short one.
pub proof fn law_excerpts_are_starts(s: Seq<char>, n: int, status: Seq<char>, t: Trouble)
    requires
        n >= 0,
    ensures
        s.len() <= n ==> excerpt(s, n) == s,
        s.len() > n ==> excerpt(s, n) == s.take(n),
        refusal_text(status, s) == status + ": "@ + trim(excerpt(s, 300)),
        t matches Trouble::Call(why) ==> trouble_text(t) == why@,
        t matches Trouble::Answer { error, content } ==> trouble_text(t) == error@ + " (content: "@
            + excerpt(content@, 120) + ")"@,
{
}

/// A retry leaves out what asked for a schema, and nothing else.
pub proof fn law_retries_leave_out_the_schema(
    entries: Seq<(Seq<char>, Tree)>,
    key: Seq<char>,
    value: Tree,
)
    ensures
        without_key(Seq::empty(), key) == Seq::<(Seq<char>, Tree)>::empty(),
        without_key(entries.push((key, value)), key) == without_key(entries, key),
        forall|other: Seq<char>|
            other != key ==> #[trigger] without_key(entries.push((other, value)), key)
                == without_key(entries, key).push((other, value)),
{
    reveal(Seq::filter);
    assert(entries.push((key, value)).drop_last() =~= entries);
    assert forall|other: Seq<char>| other != key implies #[trigger] without_key(
        entries.push((other, value)),
        key,
    ) == without_key(entries, key).push((other, value)) by {
        assert(entries.push((other, value)).drop_last() =~= entries);
    }
}

/// The models of a catalog are those with an id, every one of them.
pub proof fn law_models_are_listed_by_id(models: Seq<Tree>, model: Tree)
    ensures
        model_ids(Seq::empty()) == Seq::<Seq<char>>::empty(),
        model.at("id"@) matches Tree::Text(id) ==> model_ids(models.push(model)) == model_ids(
            models,
        ).push(id),
        !(model.at("id"@) is Text) ==> model_ids(models.push(model)) == model_ids(models),
{
    assert(models.push(model).drop_last() =~= models);
}

/// The facts of an answer are taken over one by one; amounts come in euros and
/// are kept in cents.
pub proof fn law_answers_are_taken_over_fact_by_fact(r: RawExtraction)
    ensures
        ({
            let a = <ExtractedAttrs as FromSpec<RawExtraction>>::from_spec(r);
            &&& a.annee_construction == r.annee_construction
            &&& a.travaux == r.travaux
            &&& a.chauffage_type == r.chauffage_type
            &&& a.chauffage_energie == r.chauffage_energie
            &&& a.fibre == r.fibre
            &&& a.etage == r.etage
            &&& a.ascenseur == r.ascenseur
            &&& a.jardin == r.jardin
            &&& a.garage_parking == r.garage_parking
            &&& a.piscine == r.piscine
            &&& a.orientation == r.orientation
            &&& a.mitoyenne == r.mitoyenne
            &&& a.notes == r.notes
            &&& r.charges_copro_month_eur is None ==> a.charges_copro_month_cents is None
            &&& r.charges_copro_month_eur is Some ==> a.charges_copro_month_cents == Some(
                euro_cents(r.charges_copro_month_eur->0) as i64,
            )
            &&& r.taxe_fonciere_year_eur is None ==> a.taxe_fonciere_year_cents is None
            &&& r.taxe_fonciere_year_eur is Some ==> a.taxe_fonciere_year_cents == Some(
                euro_cents(r.taxe_fonciere_year_eur->0) as i64,
            )
        }),
{
}

/// A request carries the model, the prompt and the listing, room for reasoning,
/// and the schema of the answer, strictly.
pub proof fn law_requests_carry_prompt_listing_and_schema(
    model: Seq<char>,
    user: Seq<char>,
    system: Seq<char>,
)
    ensures
        ({
            let r = request_tree(model, user, system);
            let messages = r.at("messages"@).elements();
            &&& r.at("model"@) == Tree::Text(model)
            &&& r.at("temperature"@) == integer_tree(0)
            &&& r.at("max_tokens"@) == integer_tree(4000)
            &&& messages.len() == 2
            &&& messages[0].at("role"@) == Tree::Text("system"@)
            &&& messages[0].at("content"@) == Tree::Text(system)
            &&& messages[1].at("role"@) == Tree::Text("user"@)
            &&& messages[1].at("content"@) == Tree::Text(user)
            &&& r.at("response_format"@).at("type"@) == Tree::Text("json_schema"@)
            &&& r.at("response_format"@).at("json_schema"@).at("schema"@) == answer_schema()
            &&& r.at("response_format"@).at("json_schema"@).at("strict"@) == Tree::Bool(true)
        }),
{
    reveal_strlit("model");
    reveal_strlit("temperature");
    reveal_strlit("max_tokens");
    reveal_strlit("messages");
    reveal_strlit("response_format");
    reveal_strlit("type");
    reveal_strlit("json_schema");
    reveal_strlit("name");
    reveal_strlit("strict");
    reveal_strlit("schema");
    reveal_strlit("role");
    reveal_strlit("content");
    assert("model"@[0] == 'm' && "temperature"@[0] == 't' && "max_tokens"@[1] == 'a'
        && "messages"@[1] == 'e' && "response_format"@[0] == 'r' && "model"@[1] == 'o');
    assert("type"@[0] != "json_schema"@[0]);
    assert("name"@[0] == 'n' && "strict"@[1] == 't' && "schema"@[1] == 'c' && "strict"@[0] == 's');
    assert("role"@[0] != "content"@[0]);
    reveal_with_fuel(crate::json::key_index, 6);
    let r = request_tree(model, user, system);
    let all = r->Object_0;
    assert(all.len() == 5);
    assert(all[0].0 == "model"@ && all[1].0 == "temperature"@ && all[2].0 == "max_tokens"@
        && all[3].0 == "messages"@ && all[4].0 == "response_format"@);
    crate::laws::documents::law_keys_lead_to_their_entries(all, "model"@, 0);
    crate::laws::documents::law_keys_lead_to_their_entries(all, "temperature"@, 1);
    crate::laws::documents::law_keys_lead_to_their_entries(all, "max_tokens"@, 2);
    crate::laws::documents::law_keys_lead_to_their_entries(all, "messages"@, 3);
    crate::laws::documents::law_keys_lead_to_their_entries(all, "response_format"@, 4);
    let format = r.at("response_format"@)->Object_0;
    crate::laws::documents::law_keys_lead_to_their_entries(format, "type"@, 0);
    crate::laws::documents::law_keys_lead_to_their_entries(format, "json_schema"@, 1);
    let schema = r.at("response_format"@).at("json_schema"@)->Object_0;
    crate::laws::documents::law_keys_lead_to_their_entries(schema, "strict"@, 1);
    crate::laws::documents::law_keys_lead_to_their_entries(schema, "schema"@, 2);
}

/// What the model is told of a listing is all that is known of it: title, price,
/// type, surface, rooms and description.
pub proof fn law_models_are_told_what_is_known(input: ExtractInput)
    ensures
        listing_entries(input).len() == 6,
        listing_entries(input)[0] == ("title"@, Tree::Text(input.title@)),
        listing_entries(input)[1] == ("price"@, Tree::Text(input.price_eur@ + " EUR"@)),
        listing_entries(input)[2] == ("property_type"@, Tree::Text(input.property_type@)),
        listing_entries(input)[3].0 == "surface_m2"@,
        input.surface_m2 is None ==> listing_entries(input)[3].1 == Tree::Null,
        listing_entries(input)[4].0 == "rooms"@,
        input.rooms matches Some(n) ==> listing_entries(input)[4].1 == integer_tree(n),
        input.rooms is None ==> listing_entries(input)[4].1 == Tree::Null,
        listing_entries(input)[5] == ("description"@, Tree::Text(input.description@)),
{
}

/// The schema asks for every field, and allows no other.
pub proof fn law_the_schema_asks_for_every_field(i: int)
    requires
        0 <= i < answer_fields().len(),
    ensures
        answer_fields().len() == 15,
        answer_schema().at("required"@).elements().len() == 15,
        answer_schema().at("required"@).elements()[i] == Tree::Text(answer_fields()[i]),
        answer_schema().at("additionalProperties"@) == Tree::Bool(false),
        answer_schema().at("properties"@)->Object_0.len() == 15,
        answer_schema().at("properties"@)->Object_0[i].0 == answer_fields()[i],
{
    reveal_strlit("type");
    reveal_strlit("properties");
    reveal_strlit("required");
    reveal_strlit("additionalProperties");
    assert("type"@[0] == 't' && "properties"@[0] == 'p' && "required"@[0] == 'r'
        && "additionalProperties"@[0] == 'a');
    let all = answer_schema()->Object_0;
    crate::laws::documents::law_keys_lead_to_their_entries(all, "properties"@, 1);
    crate::laws::documents::law_keys_lead_to_their_entries(all, "required"@, 2);
    crate::laws::documents::law_keys_lead_to_their_entries(all, "additionalProperties"@, 3);
}

} // verus!
