//! Calls that set up the model and read its answers.
use crate::config::LlmConfig;
use crate::json::{json_document, Json, Tree};
use crate::llm::{
    both_failed, build_runtime, chat_json_inner, content_in, content_of, effective, endpoint,
    keep_stored_key, key_file, list_models, log_entry, post_chat, probe, ChatAnswer, ChatStep,
    EffectiveLlm, LlmLogEntry, LlmPrompts, LlmRuntime, LlmSettingsUpdate, Trouble,
};
use crate::text::trim;
use vstd::prelude::*;

verus! {

/// The settings that are stored come before those of the file, each where it says something; the
/// key is the stored one, else that of the key file where the model is on.
pub proof fn law_stored_settings_are_in_effect(
    base: LlmConfig,
    u: LlmSettingsUpdate,
    key: Option<&str>,
    r: EffectiveLlm,
    file: Option<String>,
)
    requires
        call_ensures(effective, (&base, Some(&u), key), r),
        call_ensures(key_file, (&base, Some(&u)), file),
    ensures
        r.enabled == u.enabled,
        r.from_override,
        r.timeout_secs == base.timeout_secs,
        trim(u.base_url@).len() > 0 ==> r.base_url@ == trim(u.base_url@),
        trim(u.base_url@).len() == 0 ==> r.base_url@ == base.base_url@,
        trim(u.model@).len() > 0 ==> r.model@ == trim(u.model@),
        trim(u.model@).len() == 0 ==> r.model@ == base.model@,
        r.override_key_set <==> u.api_key is Some && u.api_key->0@.len() > 0,
        u.api_key is Some && u.api_key->0@.len() > 0 ==> r.api_key == u.api_key && file is None,
        !(u.api_key is Some && u.api_key->0@.len() > 0) && u.enabled ==> file == base.api_key_file
            && (r.api_key is Some <==> base.api_key_file is Some),
        !(u.api_key is Some && u.api_key->0@.len() > 0) && !u.enabled ==> r.api_key is None
            && file is None,
        r.api_key is Some && !r.override_key_set ==> r.api_key->0@ == trim(key->0@),
{
}

/// With nothing stored, the settings are those of the file.
pub proof fn law_configured_settings_are_in_effect(
    base: LlmConfig,
    key: Option<&str>,
    r: EffectiveLlm,
)
    requires
        call_ensures(effective, (&base, None, key), r),
    ensures
        r.enabled == base.enabled,
        !r.from_override && !r.override_key_set,
        r.base_url == base.base_url && r.model == base.model && r.timeout_secs == base.timeout_secs,
        r.api_key is Some <==> base.enabled && base.api_key_file is Some,
        r.api_key matches Some(k) ==> k@ == trim(key->0@),
{
}

/// An update without a key keeps the one that is stored, and one with a key replaces it; nothing
/// else of what was stored is kept.
pub proof fn law_updates_keep_the_key(
    update: LlmSettingsUpdate,
    stored: Option<LlmSettingsUpdate>,
    r: LlmSettingsUpdate,
)
    requires
        call_ensures(keep_stored_key, (update, stored), r),
    ensures
        r.enabled == update.enabled && r.base_url == update.base_url && r.model == update.model,
        update.api_key is Some ==> r.api_key == update.api_key,
        update.api_key is None && stored is Some ==> r.api_key == stored->0.api_key,
        update.api_key is None && stored is None ==> r.api_key is None,
{
}

/// There is something to read with if and only if the model is on, and it asks the endpoint, the
/// model and with the key that are in effect; the settings that are shown leave the key out.
pub proof fn law_runtimes_follow_the_settings(
    eff: EffectiveLlm,
    prompts: LlmPrompts,
    r: LlmRuntime,
)
    requires
        call_ensures(build_runtime, (eff, prompts), r),
    ensures
        r.extractor is Some <==> eff.enabled,
        r.extractor matches Some(x) ==> x.url@ == endpoint(eff.base_url@, "/chat/completions"@)
            && x.model == eff.model && x.api_key == eff.api_key && x.timeout_secs
            == eff.timeout_secs,
        r.extractor is Some && trim(prompts.extract@).len() > 0
            ==> r.extractor->0.prompts.extract@ == trim(prompts.extract@),
        r.status.enabled == eff.enabled && r.status.busy == 0,
        eff.enabled ==> r.status.model == Some(eff.model),
        !eff.enabled ==> r.status.model is None,
        r.settings.enabled == eff.enabled && r.settings.base_url == eff.base_url,
        r.settings.model == eff.model && r.settings.api_key_set == eff.override_key_set,
        r.settings.from_override == eff.from_override,
        r.prompts == prompts,
{
}

/// A call that is refused has no answer and no usage; one that is not has the text that a reading
/// of its body gives, and the probe succeeds if and only if there is one.
pub proof fn law_calls_answer_with_their_text(
    success: bool,
    status: &str,
    body: &str,
    r: ChatAnswer,
    text: Result<String, String>,
    probed: Result<(), String>,
)
    requires
        call_ensures(post_chat, (success, status, body), r),
        call_ensures(content_of, (body,), text),
        call_ensures(probe, (success, status, body), probed),
    ensures
        !success ==> r.content is Err && r.usage is None && probed is Err,
        success ==> (r.content is Ok <==> text is Ok) && (probed is Ok <==> text is Ok),
        r.content is Ok ==> success && r.content->Ok_0@ == text->Ok_0@,
        success && text is Err ==> r.content->Err_0@ == text->Err_0@ && probed->Err_0@
            == text->Err_0@,
        r.usage is Some ==> success && json_document(body@) is Ok,
        !success ==> r.content->Err_0@ == probed->Err_0@,
{
}

/// A request that asked for a schema is made once more without it; one that did not has failed.
pub proof fn law_failed_requests_are_made_once_more(body: Json, trouble: Trouble, r: ChatStep)
    requires
        body.tree() is Object,
        call_ensures(chat_json_inner, (body, trouble), r),
    ensures
        r is Retry <==> body.tree().get("response_format"@) is Some,
        r is Fail <==> body.tree().get("response_format"@) is None,
        r matches ChatStep::Fail(why) ==> (trouble matches Trouble::Call(t) ==> why@ == t@),
        r is Retry && trouble is Call ==> r->first@ == trouble->Call_0@,
{
}

/// The second failure is told after the first.
pub proof fn law_both_failures_are_told(first: &str, why: String, r: String)
    requires
        call_ensures(both_failed, (first, Trouble::Call(why)), r),
    ensures
        r@ == first@ + "; plain retry: "@ + why@,
{
}

/// The models are listed if and only if the call succeeded with a document that holds a list of
/// them.
pub proof fn law_models_are_listed_where_there_is_a_list(
    url: &str,
    success: bool,
    status: &str,
    body: &str,
    r: Result<Vec<String>, String>,
)
    requires
        call_ensures(list_models, (url, success, status, body), r),
    ensures
        r is Ok <==> success && json_document(body@) is Ok && json_document(body@)->Ok_0.at(
            "data"@,
        ) is Array,
{
}

/// The log of a call says whether it went well, why not, and what it used.
pub proof fn law_logs_say_how_calls_went(
    kind: &str,
    model: &str,
    duration_ms: i64,
    error: Option<String>,
    usage: Option<(i64, i64)>,
    r: LlmLogEntry,
)
    requires
        call_ensures(log_entry, (kind, model, duration_ms, error, usage), r),
    ensures
        r.kind@ == kind@ && r.model@ == model@ && r.duration_ms == duration_ms,
        r.ok <==> r.error is None,
        r.error == error,
        usage is None ==> r.prompt_tokens is None && r.completion_tokens is None,
        usage matches Some((p, c)) ==> r.prompt_tokens == Some(p) && r.completion_tokens == Some(c),
{
}

/// An answer that says nothing is an error: where the model only reasoned, the error says how it
/// came to an end; where it did not, that there is no answer.
pub proof fn law_silence_is_explained(body: Json, choice: Tree, r: Result<String, String>)
    requires
        choice == body.tree().at("choices"@).head(),
        call_ensures(content_in, (&body,), r),
        !(choice.at("message"@).at("content"@) is Text),
    ensures
        ({
            let thought = choice.at("message"@).at("reasoning_content"@);
            let finish = choice.at("finish_reason"@);
            let spent
                = "the model spent its whole token budget reasoning without answering (finish_reason="@;
            let advice = ") — thinking should be disabled for this call"@;
            &&& !(thought is Text) ==> r is Err && r->Err_0@
                == "no choices[0].message.content in llm response"@
            &&& thought is Text && trim(thought->Text_0).len() > 0 && finish is Text
                && finish->Text_0 != "stop"@ ==> r is Err && r->Err_0@ == spent + finish->Text_0
                + advice
            &&& thought is Text && trim(thought->Text_0).len() > 0 && !(finish is Text) ==> r is Err
                && r->Err_0@ == spent + "?"@ + advice
        }),
{
    reveal_strlit("?");
    reveal_strlit("stop");
    assert("?"@.len() == 1 && "stop"@.len() == 4);
}

} // verus!
