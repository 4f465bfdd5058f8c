//! Extraction of structured facts from listing descriptions through a chat
//! completions API: its settings, what it is asked, and how its answers are
//! read. Every error leaves the listing as it is.
use crate::config::LlmConfig;
use crate::double::Double;
use crate::json::{
    array, document, entry_trees, first_element, integer, integer_in, integer_tree, item_trees,
    json_document, member, object, object_text, owned_text, parse_json, scalar_entries, text,
    text_in, write_object, Json, Scalar, Tree,
};
use crate::listing::ExtractedAttrs;
use crate::ratio::{cents_of_euros, euro_cents};
use crate::status::LlmStatus;
use crate::text::{
    chars_of, contains_text, find, has_char, in_order, is_blank, last_position, position, rfind,
    same_text, sorted_texts, string_of, texts, trim, trim_end_char, trim_text, trimmed,
    trimmed_end,
};
use vstd::prelude::*;
use vstd::string::StringExecFns;

verus! {

/// The settings in effect, as the UI shows them (never the key itself).
#[derive(Debug, Clone, PartialEq)]
pub struct LlmSettings {
    pub enabled: bool,
    pub base_url: String,
    pub model: String,
    pub api_key_set: bool,
    pub from_override: bool,
}

/// Settings that the user stores over those of the configuration file. A blank
/// URL or model falls back to the file; an unset key keeps the stored one.
#[derive(Debug, Clone, PartialEq)]
pub struct LlmSettingsUpdate {
    pub enabled: bool,
    pub base_url: String,
    pub model: String,
    pub api_key: Option<String>,
}

/// System prompts that the user may override (blank: the built-in one).
#[derive(Debug, Clone, PartialEq)]
pub struct LlmPrompts {
    pub extract: String,
}

/// What the extractor sees of a listing.
#[derive(Debug, Clone, PartialEq)]
pub struct ExtractInput {
    pub title: String,
    /// The price in euros, rounded to a whole number.
    pub price_eur: String,
    pub property_type: String,
    /// The surface as decimal text.
    pub surface_m2: Option<String>,
    pub rooms: Option<i64>,
    pub description: String,
}

/// One call as it is logged.
#[derive(Debug, Clone, PartialEq)]
pub struct LlmLogEntry {
    pub kind: String,
    pub model: String,
    pub duration_ms: i64,
    pub ok: bool,
    pub error: Option<String>,
    pub prompt_tokens: Option<i64>,
    pub completion_tokens: Option<i64>,
}

pub const LLM_SETTINGS_KEY: &'static str = "llm";

pub const PROMPTS_SETTINGS_KEY: &'static str = "prompts";

// ---------------------------------------------------------------------------
// Settings

/// The settings in effect, ready to build a client from.
#[derive(Debug, Clone, PartialEq)]
pub struct EffectiveLlm {
    pub enabled: bool,
    pub base_url: String,
    pub model: String,
    pub timeout_secs: u64,
    pub api_key: Option<String>,
    pub from_override: bool,
    pub override_key_set: bool,
}

/// What the user typed, trimmed, or the configured text where that is blank.
pub open spec fn picked(over: Seq<char>, configured: Seq<char>) -> Seq<char> {
    if trim(over).len() == 0 {
        configured
    } else {
        trim(over)
    }
}

fn pick(over: &str, configured: &str) -> (r: String)
    ensures
        r@ == picked(over@, configured@),
{
    if is_blank(over) {
        configured.to_owned()
    } else {
        trim_text(over)
    }
}

pub open spec fn in_effect(base: LlmConfig, o: Option<LlmSettingsUpdate>) -> bool {
    match o {
        Some(u) => u.enabled,
        None => base.enabled,
    }
}

/// The key that the user stored, where it is not empty.
pub open spec fn override_key(o: Option<LlmSettingsUpdate>) -> Option<String> {
    match o {
        Some(u) => match u.api_key {
            Some(k) => if k@.len() > 0 {
                Some(k)
            } else {
                None
            },
            None => None,
        },
        None => None,
    }
}

/// The key file is to be read: the settings are enabled, the user stored no
/// key, and a file is configured.
pub open spec fn wants_key_file(base: LlmConfig, o: Option<LlmSettingsUpdate>) -> bool {
    in_effect(base, o) && override_key(o) is None && base.api_key_file is Some
}

fn stored_key(o: Option<&LlmSettingsUpdate>) -> (r: Option<String>)
    ensures
        r == override_key(
            match o {
                Some(u) => Some(*u),
                None => None,
            },
        ),
{
    match o {
        Some(u) => match &u.api_key {
            Some(k) => if !k.as_str().is_empty() {
                Some(k.clone())
            } else {
                None
            },
            None => None,
        },
        None => None,
    }
}

/// An optional reference as an optional value.
pub open spec fn deref<T>(o: Option<&T>) -> Option<T> {
    match o {
        Some(v) => Some(*v),
        None => None,
    }
}

/// The key file to read before the settings can take effect: only when they are
/// enabled, so that a broken path never blocks what is disabled.
pub fn key_file(base: &LlmConfig, o: Option<&LlmSettingsUpdate>) -> (r: Option<String>)
    ensures
        r == if wants_key_file(*base, deref(o)) {
            base.api_key_file
        } else {
            None
        },
{
    let enabled: bool = match o {
        Some(u) => u.enabled,
        None => base.enabled,
    };
    if enabled && stored_key(o).is_none() {
        base.api_key_file.clone()
    } else {
        None
    }
}

/// The settings in effect: those of the file with the stored ones over them,
/// and the key that was stored, else the one in the key file. `key_contents` is
/// what the key file holds, where it is to be read.
pub fn effective(
    base: &LlmConfig,
    o: Option<&LlmSettingsUpdate>,
    key_contents: Option<&str>,
) -> (r: EffectiveLlm)
    requires
        wants_key_file(*base, deref(o)) ==> key_contents is Some,
    ensures
        r.enabled == in_effect(*base, deref(o)),
        match o {
            Some(u) => r.base_url@ == picked(u.base_url@, base.base_url@) && r.model@ == picked(
                u.model@,
                base.model@,
            ),
            None => r.base_url == base.base_url && r.model == base.model,
        },
        r.timeout_secs == base.timeout_secs,
        r.from_override == (o is Some),
        r.override_key_set == (override_key(deref(o)) is Some),
        if override_key(deref(o)) is Some {
            r.api_key == override_key(deref(o))
        } else if wants_key_file(*base, deref(o)) {
            r.api_key is Some && r.api_key->0@ == trim(key_contents->0@)
        } else {
            r.api_key is None
        },
{
    let (enabled, base_url, model) = match o {
        Some(u) => (
            u.enabled,
            pick(u.base_url.as_str(), base.base_url.as_str()),
            pick(u.model.as_str(), base.model.as_str()),
        ),
        None => (base.enabled, base.base_url.clone(), base.model.clone()),
    };
    let stored = stored_key(o);
    let override_key_set = stored.is_some();
    let api_key = match stored {
        Some(k) => Some(k),
        None => if enabled && base.api_key_file.is_some() {
            match key_contents {
                Some(c) => Some(trim_text(c)),
                None => None,
            }
        } else {
            None
        },
    };
    EffectiveLlm {
        enabled,
        base_url,
        model,
        timeout_secs: base.timeout_secs,
        api_key,
        from_override: o.is_some(),
        override_key_set,
    }
}

/// What is disabled needs no key file and takes no key from one.
pub proof fn law_disabled_reads_no_key(base: LlmConfig, o: Option<LlmSettingsUpdate>)
    requires
        !in_effect(base, o),
    ensures
        !wants_key_file(base, o),
{
}

/// Takes over the stored key where an update leaves it unset.
pub fn keep_stored_key(update: LlmSettingsUpdate, stored: Option<LlmSettingsUpdate>) -> (r:
    LlmSettingsUpdate)
    ensures
        r == (LlmSettingsUpdate {
            api_key: if update.api_key is Some {
                update.api_key
            } else {
                match stored {
                    Some(s) => s.api_key,
                    None => None,
                }
            },
            ..update
        }),
{
    match update.api_key {
        Some(k) => LlmSettingsUpdate {
            enabled: update.enabled,
            base_url: update.base_url,
            model: update.model,
            api_key: Some(k),
        },
        None => {
            let api_key = match stored {
                Some(s) => s.api_key,
                None => None,
            };
            LlmSettingsUpdate {
                enabled: update.enabled,
                base_url: update.base_url,
                model: update.model,
                api_key,
            }
        },
    }
}

/// A client for the chat completions of one model.
#[derive(Debug, Clone, PartialEq)]
pub struct OpenAiExtractor {
    pub url: String,
    pub model: String,
    pub api_key: Option<String>,
    pub prompts: LlmPrompts,
    pub timeout_secs: u64,
}

/// What the settings in effect make of the language model.
pub struct LlmRuntime {
    /// Unset while the settings are disabled.
    pub extractor: Option<OpenAiExtractor>,
    pub status: LlmStatus,
    pub settings: LlmSettings,
    pub prompts: LlmPrompts,
}

/// The address of an endpoint below a base URL.
pub open spec fn endpoint(base_url: Seq<char>, path: Seq<char>) -> Seq<char> {
    trim_end_char(base_url, '/') + path
}

pub fn endpoint_url(base_url: &str, path: &str) -> (r: String)
    ensures
        r@ == endpoint(base_url@, path@),
{
    let chars = chars_of(base_url);
    string_of(trimmed_end(chars.as_slice(), '/')).concat(path)
}

pub fn build_runtime(eff: EffectiveLlm, prompts: LlmPrompts) -> (r: LlmRuntime)
    ensures
        match r.extractor {
            Some(x) => eff.enabled && x.url@ == endpoint(eff.base_url@, "/chat/completions"@)
                && x.model == eff.model && x.api_key == eff.api_key && x.timeout_secs
                == eff.timeout_secs && x.prompts.extract@ == prompt_in_effect(
                Some(prompts.extract@),
            ),
            None => !eff.enabled,
        },
        r.status.enabled == eff.enabled,
        r.status.model == if eff.enabled {
            Some(eff.model)
        } else {
            None
        },
        r.status.busy == 0,
        r.settings == (LlmSettings {
            enabled: eff.enabled,
            base_url: eff.base_url,
            model: eff.model,
            api_key_set: eff.override_key_set,
            from_override: eff.from_override,
        }),
        r.prompts == prompts,
{
    let extractor = if eff.enabled {
        Some(
            OpenAiExtractor {
                url: endpoint_url(eff.base_url.as_str(), "/chat/completions"),
                model: eff.model.clone(),
                api_key: eff.api_key.clone(),
                prompts: effective_prompts(Some(&prompts)),
                timeout_secs: eff.timeout_secs,
            },
        )
    } else {
        None
    };
    let model = if eff.enabled {
        Some(eff.model.clone())
    } else {
        None
    };
    LlmRuntime {
        extractor,
        status: LlmStatus { enabled: eff.enabled, model, busy: 0 },
        settings: LlmSettings {
            enabled: eff.enabled,
            base_url: eff.base_url,
            model: eff.model,
            api_key_set: eff.override_key_set,
            from_override: eff.from_override,
        },
        prompts,
    }
}

// ---------------------------------------------------------------------------
// Prompts

pub const EXTRACT_PROMPT: &'static str = "You extract structured facts from a French real-estate SALE listing for a price tracker. Fill ONLY what the text explicitly states — never guess, never infer from what is typical; absent from the text means null (empty list for notes).\n- annee_construction: the build year when stated.\n- travaux: \"a-prevoir\" (works needed), \"rafraichissement\" (light refresh), \"aucun\" ONLY if the text says none are needed / recently renovated.\n- chauffage_type (individuel/collectif/pompe à chaleur/poêle…), chauffage_energie (gaz/electrique/fioul/bois…).\n- charges_copro_month_eur: MONTHLY copropriété charges in euros (convert if given per year/quarter). taxe_fonciere_year_eur: YEARLY property tax in euros.\n- etage: the apartment's floor (0 = rez-de-chaussée).\n- orientation: main exposure when stated.\n- notes: short French phrases for notable facts the other fields don't cover (servitude, locataire en place, viager occupé, DPE vierge, zone inondable, travaux de copropriété votés…).\nAnswer only with the JSON object.";

pub fn default_prompts() -> (r: LlmPrompts)
    ensures
        r.extract@ == EXTRACT_PROMPT@,
{
    LlmPrompts { extract: EXTRACT_PROMPT.to_owned() }
}

/// The stored prompt, trimmed, or the built-in one where that is blank.
pub open spec fn prompt_in_effect(stored: Option<Seq<char>>) -> Seq<char> {
    match stored {
        Some(s) => picked(s, EXTRACT_PROMPT@),
        None => EXTRACT_PROMPT@,
    }
}

pub fn effective_prompts(stored: Option<&LlmPrompts>) -> (r: LlmPrompts)
    ensures
        r.extract@ == match stored {
            Some(s) => prompt_in_effect(Some(s.extract@)),
            None => prompt_in_effect(None),
        },
{
    match stored {
        None => default_prompts(),
        Some(s) => LlmPrompts { extract: pick(s.extract.as_str(), EXTRACT_PROMPT) },
    }
}

// ---------------------------------------------------------------------------
// Requests

/// A value of a type or null.
pub open spec fn nullable(ty: Seq<char>) -> Tree {
    Tree::Object(seq![("type"@, Tree::Array(seq![Tree::Text(ty), Tree::Text("null"@)]))])
}

/// The fields of an answer, in order.
pub open spec fn answer_fields() -> Seq<Seq<char>> {
    seq![
        "annee_construction"@,
        "travaux"@,
        "chauffage_type"@,
        "chauffage_energie"@,
        "fibre"@,
        "charges_copro_month_eur"@,
        "taxe_fonciere_year_eur"@,
        "etage"@,
        "ascenseur"@,
        "jardin"@,
        "garage_parking"@,
        "piscine"@,
        "orientation"@,
        "mitoyenne"@,
        "notes"@,
    ]
}

/// What each field of an answer may hold.
pub open spec fn field_schemas() -> Seq<Tree> {
    seq![
        nullable("integer"@),
        Tree::Object(
            seq![
                ("type"@, Tree::Array(seq![Tree::Text("string"@), Tree::Text("null"@)])),
                (
                    "enum"@,
                    Tree::Array(
                        seq![
                            Tree::Text("a-prevoir"@),
                            Tree::Text("rafraichissement"@),
                            Tree::Text("aucun"@),
                            Tree::Null,
                        ],
                    ),
                ),
            ],
        ),
        nullable("string"@),
        nullable("string"@),
        nullable("boolean"@),
        nullable("number"@),
        nullable("number"@),
        nullable("integer"@),
        nullable("boolean"@),
        nullable("boolean"@),
        nullable("boolean"@),
        nullable("boolean"@),
        nullable("string"@),
        nullable("boolean"@),
        Tree::Object(
            seq![
                ("type"@, Tree::Text("array"@)),
                ("items"@, Tree::Object(seq![("type"@, Tree::Text("string"@))])),
            ],
        ),
    ]
}

/// The schema of an answer: an object with exactly these fields. Money is asked
/// for in euros.
pub open spec fn answer_schema() -> Tree {
    Tree::Object(
        seq![
            ("type"@, Tree::Text("object"@)),
            (
                "properties"@,
                Tree::Object(
                    Seq::new(15, |i: int| (answer_fields()[i], field_schemas()[i])),
                ),
            ),
            ("required"@, Tree::Array(answer_fields().map_values(|f: Seq<char>| Tree::Text(f)))),
            ("additionalProperties"@, Tree::Bool(false)),
        ],
    )
}

/// An object with one entry.
fn object1(key: &str, value: Json) -> (r: Json)
    ensures
        r.tree() == Tree::Object(seq![(key@, value.tree())]),
{
    let mut entries: Vec<(String, Json)> = Vec::new();
    entries.push((key.to_owned(), value));
    proof {
        assert(entry_trees(entries@) =~= seq![(key@, value.tree())]);
    }
    object(entries)
}

/// An object with two entries.
fn object2(first: &str, a: Json, second: &str, b: Json) -> (r: Json)
    ensures
        r.tree() == Tree::Object(seq![(first@, a.tree()), (second@, b.tree())]),
{
    let mut entries: Vec<(String, Json)> = Vec::new();
    entries.push((first.to_owned(), a));
    entries.push((second.to_owned(), b));
    proof {
        assert(entry_trees(entries@) =~= seq![(first@, a.tree()), (second@, b.tree())]);
    }
    object(entries)
}

/// An array of two texts.
fn texts2(a: &str, b: &str) -> (r: Json)
    ensures
        r.tree() == Tree::Array(seq![Tree::Text(a@), Tree::Text(b@)]),
{
    let mut items: Vec<Json> = Vec::new();
    items.push(text(a));
    items.push(text(b));
    proof {
        assert(item_trees(items@) =~= seq![Tree::Text(a@), Tree::Text(b@)]);
    }
    array(items)
}

fn nullable_schema(ty: &str) -> (r: Json)
    ensures
        r.tree() == nullable(ty@),
{
    object1("type", texts2(ty, "null"))
}

fn travaux_schema() -> (r: Json)
    ensures
        r.tree() == field_schemas()[1],
{
    let mut values: Vec<Json> = Vec::new();
    values.push(text("a-prevoir"));
    values.push(text("rafraichissement"));
    values.push(text("aucun"));
    values.push(Json::Null);
    proof {
        assert(item_trees(values@) =~= seq![
            Tree::Text("a-prevoir"@),
            Tree::Text("rafraichissement"@),
            Tree::Text("aucun"@),
            Tree::Null,
        ]);
    }
    object2("type", texts2("string", "null"), "enum", array(values))
}

/// The names of the fields of an answer.
fn field_names() -> (r: Vec<String>)
    ensures
        texts(r@) == answer_fields(),
{
    let mut names: Vec<String> = Vec::new();
    names.push("annee_construction".to_owned());
    names.push("travaux".to_owned());
    names.push("chauffage_type".to_owned());
    names.push("chauffage_energie".to_owned());
    names.push("fibre".to_owned());
    names.push("charges_copro_month_eur".to_owned());
    names.push("taxe_fonciere_year_eur".to_owned());
    names.push("etage".to_owned());
    names.push("ascenseur".to_owned());
    names.push("jardin".to_owned());
    names.push("garage_parking".to_owned());
    names.push("piscine".to_owned());
    names.push("orientation".to_owned());
    names.push("mitoyenne".to_owned());
    names.push("notes".to_owned());
    proof {
        assert(texts(names@) =~= answer_fields());
    }
    names
}

fn schemas() -> (r: Vec<Json>)
    ensures
        item_trees(r@) == field_schemas(),
{
    let mut list: Vec<Json> = Vec::new();
    list.push(nullable_schema("integer"));
    list.push(travaux_schema());
    list.push(nullable_schema("string"));
    list.push(nullable_schema("string"));
    list.push(nullable_schema("boolean"));
    list.push(nullable_schema("number"));
    list.push(nullable_schema("number"));
    list.push(nullable_schema("integer"));
    list.push(nullable_schema("boolean"));
    list.push(nullable_schema("boolean"));
    list.push(nullable_schema("boolean"));
    list.push(nullable_schema("boolean"));
    list.push(nullable_schema("string"));
    list.push(nullable_schema("boolean"));
    list.push(object2("type", text("array"), "items", object1("type", text("string"))));
    proof {
        assert(item_trees(list@) =~= field_schemas());
    }
    list
}

/// The schema that an answer must follow.
pub fn response_schema() -> (r: Json)
    ensures
        r.tree() == answer_schema(),
{
    let names = field_names();
    let list = schemas();
    let ghost all = list@;
    let ghost fields = answer_fields();
    proof {
        assert(texts(names@).len() == 15);
        assert(item_trees(all).len() == 15);
    }
    let mut properties: Vec<(String, Json)> = Vec::new();
    let mut required: Vec<Json> = Vec::new();
    for schema in it: list
        invariant
            it.seq() == all,
            fields == answer_fields(),
            texts(names@) == fields,
            names@.len() == 15,
            all.len() == 15,
            item_trees(all) == field_schemas(),
            properties@.len() == it.index(),
            required@.len() == it.index(),
            forall|k: int|
                0 <= k < properties@.len() ==> (#[trigger] properties@[k]).0@ == fields[k]
                    && properties@[k].1.tree() == field_schemas()[k],
            forall|k: int|
                0 <= k < required@.len() ==> (#[trigger] required@[k]).tree() == Tree::Text(
                    fields[k],
                ),
    {
        let i: usize = properties.len();
        proof {
            assert(fields[i as int] == names@[i as int]@);
            assert(item_trees(all)[i as int] == schema.tree());
        }
        required.push(text(names[i].as_str()));
        properties.push((names[i].clone(), schema));
    }
    proof {
        assert(entry_trees(properties@) =~= Seq::new(
            15,
            |i: int| (answer_fields()[i], field_schemas()[i]),
        ));
        assert(item_trees(required@) =~= answer_fields().map_values(|f: Seq<char>| Tree::Text(f)));
    }
    let mut entries: Vec<(String, Json)> = Vec::new();
    entries.push(("type".to_owned(), text("object")));
    entries.push(("properties".to_owned(), object(properties)));
    entries.push(("required".to_owned(), array(required)));
    entries.push(("additionalProperties".to_owned(), Json::Bool(false)));
    proof {
        assert(entry_trees(entries@) =~= answer_schema()->Object_0);
    }
    object(entries)
}

/// What the model is told of a listing.
pub open spec fn listing_entries(input: ExtractInput) -> Seq<(Seq<char>, Tree)> {
    seq![
        ("title"@, Tree::Text(input.title@)),
        ("price"@, Tree::Text(input.price_eur@ + " EUR"@)),
        ("property_type"@, Tree::Text(input.property_type@)),
        (
            "surface_m2"@,
            match input.surface_m2 {
                Some(s) => match json_document(s@) {
                    Ok(number) => number,
                    Err(_) => Tree::Null,
                },
                None => Tree::Null,
            },
        ),
        (
            "rooms"@,
            match input.rooms {
                Some(n) => integer_tree(n),
                None => Tree::Null,
            },
        ),
        ("description"@, Tree::Text(input.description@)),
    ]
}

/// The listing as JSON text.
pub fn listing_text(input: &ExtractInput) -> (r: String)
    ensures
        r@ == object_text(listing_entries(*input)),
{
    let mut entries: Vec<(String, Scalar)> = Vec::new();
    entries.push(("title".to_owned(), Scalar::Text(input.title.clone())));
    entries.push(("price".to_owned(), Scalar::Text(input.price_eur.clone().concat(" EUR"))));
    entries.push(("property_type".to_owned(), Scalar::Text(input.property_type.clone())));
    let surface = match &input.surface_m2 {
        Some(s) => document(s.as_str()),
        None => Scalar::Null,
    };
    entries.push(("surface_m2".to_owned(), surface));
    let rooms = match input.rooms {
        Some(n) => Scalar::Integer(n),
        None => Scalar::Null,
    };
    entries.push(("rooms".to_owned(), rooms));
    entries.push(("description".to_owned(), Scalar::Text(input.description.clone())));
    proof {
        assert(scalar_entries(entries@) =~= listing_entries(*input));
    }
    write_object(entries)
}

pub open spec fn message_tree(role: Seq<char>, content: Seq<char>) -> Tree {
    Tree::Object(seq![("role"@, Tree::Text(role)), ("content"@, Tree::Text(content))])
}

/// The request for an extraction: the prompt, the listing, room to reason, and
/// a strict schema for the answer.
pub open spec fn request_tree(model: Seq<char>, user: Seq<char>, system: Seq<char>) -> Tree {
    Tree::Object(
        seq![
            ("model"@, Tree::Text(model)),
            ("temperature"@, integer_tree(0)),
            ("max_tokens"@, integer_tree(4000)),
            (
                "messages"@,
                Tree::Array(seq![message_tree("system"@, system), message_tree("user"@, user)]),
            ),
            (
                "response_format"@,
                Tree::Object(
                    seq![
                        ("type"@, Tree::Text("json_schema"@)),
                        (
                            "json_schema"@,
                            Tree::Object(
                                seq![
                                    ("name"@, Tree::Text("extraction"@)),
                                    ("strict"@, Tree::Bool(true)),
                                    ("schema"@, answer_schema()),
                                ],
                            ),
                        ),
                    ],
                ),
            ),
        ],
    )
}

/// The request with this text for the listing.
pub fn chat_request(model: &str, user: &str, system: &str) -> (r: Json)
    ensures
        r.tree() == request_tree(model@, user@, system@),
{
    let mut schema: Vec<(String, Json)> = Vec::new();
    schema.push(("name".to_owned(), text("extraction")));
    schema.push(("strict".to_owned(), Json::Bool(true)));
    schema.push(("schema".to_owned(), response_schema()));
    proof {
        assert(entry_trees(schema@) =~= seq![
            ("name"@, Tree::Text("extraction"@)),
            ("strict"@, Tree::Bool(true)),
            ("schema"@, answer_schema()),
        ]);
    }
    let format = object2("type", text("json_schema"), "json_schema", object(schema));
    let mut messages: Vec<Json> = Vec::new();
    messages.push(object2("role", text("system"), "content", text(system)));
    messages.push(object2("role", text("user"), "content", text(user)));
    proof {
        assert(item_trees(messages@) =~= seq![
            message_tree("system"@, system@),
            message_tree("user"@, user@),
        ]);
    }
    let mut entries: Vec<(String, Json)> = Vec::new();
    entries.push(("model".to_owned(), text(model)));
    entries.push(("temperature".to_owned(), integer(0)));
    entries.push(("max_tokens".to_owned(), integer(4000)));
    entries.push(("messages".to_owned(), array(messages)));
    entries.push(("response_format".to_owned(), format));
    proof {
        assert(entry_trees(entries@) =~= request_tree(model@, user@, system@)->Object_0);
    }
    object(entries)
}

/// The request for the extraction of a listing's facts.
pub fn request_body(model: &str, input: &ExtractInput, system: &str) -> (r: Json)
    ensures
        r.tree() == request_tree(model@, object_text(listing_entries(*input)), system@),
{
    let user = listing_text(input);
    chat_request(model, user.as_str(), system)
}

/// The request that probes an endpoint: one tiny completion.
pub fn probe_body(model: &str) -> (r: Json)
    ensures
        r.tree() == Tree::Object(
            seq![
                ("model"@, Tree::Text(model@)),
                ("max_tokens"@, integer_tree(2048)),
                (
                    "messages"@,
                    Tree::Array(
                        seq![message_tree("user"@, "Reply with the single word: ok"@)],
                    ),
                ),
            ],
        ),
{
    let mut messages: Vec<Json> = Vec::new();
    messages.push(
        object2("role", text("user"), "content", text("Reply with the single word: ok")),
    );
    proof {
        assert(item_trees(messages@) =~= seq![
            message_tree("user"@, "Reply with the single word: ok"@),
        ]);
    }
    let mut entries: Vec<(String, Json)> = Vec::new();
    entries.push(("model".to_owned(), text(model)));
    entries.push(("max_tokens".to_owned(), integer(2048)));
    entries.push(("messages".to_owned(), array(messages)));
    proof {
        assert(entry_trees(entries@) =~= seq![
            ("model"@, Tree::Text(model@)),
            ("max_tokens"@, integer_tree(2048)),
            (
                "messages"@,
                Tree::Array(seq![message_tree("user"@, "Reply with the single word: ok"@)]),
            ),
        ]);
    }
    object(entries)
}

// ---------------------------------------------------------------------------
// Answers

pub open spec fn budget_text(finish: Seq<char>) -> Seq<char> {
    "the model spent its whole token budget reasoning without answering (finish_reason="@ + finish
        + ") — thinking should be disabled for this call"@
}

/// The text of an answer: what the assistant says, where it says something.
/// Else its reasoning, where it stopped by itself and reasoned its way to an
/// object; a budget spent on reasoning is an error of its own.
pub open spec fn answer_text(body: Tree) -> Result<Seq<char>, Seq<char>> {
    let choice = body.at("choices"@).head();
    let content = choice.at("message"@).at("content"@).as_text();
    let reasoning = choice.at("message"@).at("reasoning_content"@).as_text();
    let finish = match choice.at("finish_reason"@).as_text() {
        Some(f) => f,
        None => "?"@,
    };
    if content matches Some(c) && trim(c).len() > 0 {
        Ok(content->0)
    } else if reasoning matches Some(t) && trim(t).len() > 0 {
        if finish == "stop"@ && reasoning->0.contains('{') {
            Ok(reasoning->0)
        } else {
            Err(budget_text(finish))
        }
    } else {
        Err("no choices[0].message.content in llm response"@)
    }
}

/// The text of an answer whose document is at hand.
pub fn content_in(body: &Json) -> (r: Result<String, String>)
    ensures
        match r {
            Ok(t) => answer_text(body.tree()) == Ok::<Seq<char>, Seq<char>>(t@),
            Err(why) => answer_text(body.tree()) == Err::<Seq<char>, Seq<char>>(why@),
        },
{
    let choice = first_element(member(Some(body), "choices"));
    let message = member(choice, "message");
    if let Some(content) = text_in(member(message, "content")) {
        if !is_blank(content.as_str()) {
            return Ok(content.clone());
        }
    }
    if let Some(reasoning) = text_in(member(message, "reasoning_content")) {
        if !is_blank(reasoning.as_str()) {
            let finish = match owned_text(member(choice, "finish_reason")) {
                Some(f) => f,
                None => "?".to_owned(),
            };
            if same_text(finish.as_str(), "stop") && has_char(reasoning.as_str(), '{') {
                return Ok(reasoning.clone());
            }
            return Err(
                "the model spent its whole token budget reasoning without answering (finish_reason=".to_owned().concat(
                finish.as_str()).concat(") — thinking should be disabled for this call"),
            );
        }
    }
    Err("no choices[0].message.content in llm response".to_owned())
}

/// The text of an answer.
pub fn content_of(body: &str) -> (r: Result<String, String>)
    ensures
        match json_document(body@) {
            Err(why) => r is Err && r->Err_0@ == why,
            Ok(doc) => match r {
                Ok(t) => answer_text(doc) == Ok::<Seq<char>, Seq<char>>(t@),
                Err(why) => answer_text(doc) == Err::<Seq<char>, Seq<char>>(why@),
            },
        },
{
    match parse_json(body) {
        Ok(doc) => content_in(&doc),
        Err(why) => Err(why),
    }
}

/// The text behind the last closing tag of a chain of thought.
pub open spec fn after_thoughts(content: Seq<char>) -> Seq<char> {
    match rfind(content, "</think>"@) {
        Some(i) => content.skip(i + "</think>"@.len()),
        None => content,
    }
}

/// The outermost object of an answer: from the first opening brace to the last
/// closing one, behind any chain of thought; all of it where there is none.
pub open spec fn outermost_object(content: Seq<char>) -> Seq<char> {
    let answer = after_thoughts(content);
    match (find(answer, "{"@), rfind(answer, "}"@)) {
        (Some(start), Some(end)) => if end > start {
            answer.subrange(start, end + 1)
        } else {
            answer
        },
        _ => answer,
    }
}

/// Models wrap JSON in fences or prose whatever they are told: cuts an answer
/// down to its outermost object.
pub fn extract_json(content: &str) -> (r: String)
    ensures
        r@ == outermost_object(content@),
{
    let chars = chars_of(content);
    let all = chars.as_slice();
    let closing = chars_of("</think>");
    let answer = match last_position(all, closing.as_slice()) {
        Some(i) => {
            let from: usize = i + closing.len();
            proof {
                assert(all@.subrange(from as int, all@.len() as int) =~= content@.skip(
                    i + "</think>"@.len(),
                ));
            }
            vstd::slice::slice_subrange(all, from, all.len())
        },
        None => all,
    };
    proof {
        assert(answer@ == after_thoughts(content@));
        reveal_strlit("{");
        reveal_strlit("}");
    }
    let open = chars_of("{");
    let close = chars_of("}");
    match (position(answer, open.as_slice()), last_position(answer, close.as_slice())) {
        (Some(start), Some(end)) => if end > start {
            string_of(vstd::slice::slice_subrange(answer, start, end + 1))
        } else {
            string_of(answer)
        },
        _ => string_of(answer),
    }
}

/// What is cut out of an answer without a chain of thought stands from its first
/// opening brace to its last closing one: the prose around an object is dropped.
pub proof fn law_objects_are_cut_out(
    content: Seq<char>,
    before: Seq<char>,
    inner: Seq<char>,
    after: Seq<char>,
)
    requires
        content == before + (seq!['{'] + inner + seq!['}']) + after,
        !contains_text(content, "</think>"@),
        !before.contains('{'),
        !after.contains('}'),
    ensures
        outermost_object(content) == seq!['{'] + inner + seq!['}'],
{
    reveal_strlit("{");
    reveal_strlit("}");
    let start = before.len() as int;
    let end = (before.len() + inner.len() + 1) as int;
    assert("{"@ =~= seq!['{']);
    assert("}"@ =~= seq!['}']);
    assert(content[start] == '{');
    assert(content[end] == '}');
    assert(crate::text::is_first_at(content, "{"@, start)) by {
        assert(content.subrange(start, start + 1) =~= "{"@);
        assert forall|j: int| 0 <= j < start implies !crate::text::occurs_at(content, "{"@, j) by {
            assert(content[j] == before[j]);
            if content.subrange(j, j + 1) == "{"@ {
                assert(content.subrange(j, j + 1)[0] == '{');
            }
        }
    }
    crate::text::lemma_find(content, "{"@, start);
    assert(crate::text::is_last_at(content, "}"@, end)) by {
        assert(content.subrange(end, end + 1) =~= "}"@);
        assert forall|j: int| end < j implies !crate::text::occurs_at(content, "}"@, j) by {
            if j < content.len() {
                assert(content[j] == after[j - end - 1]);
                if content.subrange(j, j + 1) == "}"@ {
                    assert(content.subrange(j, j + 1)[0] == '}');
                }
            }
        }
    }
    crate::text::lemma_rfind(content, "}"@, end);
    assert(content.subrange(start, end + 1) =~= seq!['{'] + inner + seq!['}']);
}

/// The tokens that an answer reports, where it reports both counts.
pub open spec fn usage_in(body: Tree) -> Option<(i64, i64)> {
    let usage = body.at("usage"@);
    match (usage.at("prompt_tokens"@).as_integer(), usage.at("completion_tokens"@).as_integer()) {
        (Some(p), Some(c)) => Some((p, c)),
        _ => None,
    }
}

/// The first characters of a text.
pub open spec fn excerpt(s: Seq<char>, n: int) -> Seq<char> {
    if s.len() <= n {
        s
    } else {
        s.take(n)
    }
}

fn first_chars(s: &str, n: usize) -> (r: Vec<char>)
    ensures
        r@ == excerpt(s@, n as int),
{
    let mut chars = chars_of(s);
    chars.truncate(n);
    proof {
        assert(chars@ =~= excerpt(s@, n as int));
    }
    chars
}

/// What is said of an answer that is no success: its status and the beginning
/// of its body.
pub open spec fn refusal_text(status: Seq<char>, body: Seq<char>) -> Seq<char> {
    status + ": "@ + trim(excerpt(body, 300))
}

pub fn refusal(status: &str, body: &str) -> (r: String)
    ensures
        r@ == refusal_text(status@, body@),
{
    let start = first_chars(body, 300);
    let shown = string_of(trimmed(start.as_slice()));
    status.to_owned().concat(": ").concat(shown.as_str())
}

/// What came of a chat call.
pub struct ChatAnswer {
    /// The tokens used, where they are reported.
    pub usage: Option<(i64, i64)>,
    pub content: Result<String, String>,
}

/// Reads the answer to a chat call: `status` is its status as text, and
/// `success` whether it is one of success.
pub fn post_chat(success: bool, status: &str, body: &str) -> (r: ChatAnswer)
    ensures
        if !success {
            r.usage is None && r.content is Err && r.content->Err_0@ == refusal_text(
                status@,
                body@,
            )
        } else {
            match json_document(body@) {
                Err(why) => r.usage is None && r.content is Err && r.content->Err_0@ == why,
                Ok(doc) => r.usage == usage_in(doc) && match r.content {
                    Ok(t) => answer_text(doc) == Ok::<Seq<char>, Seq<char>>(t@),
                    Err(why) => answer_text(doc) == Err::<Seq<char>, Seq<char>>(why@),
                },
            }
        },
{
    if !success {
        return ChatAnswer { usage: None, content: Err(refusal(status, body)) };
    }
    match parse_json(body) {
        Err(why) => ChatAnswer { usage: None, content: Err(why) },
        Ok(doc) => {
            let reported = member(Some(&doc), "usage");
            let usage = match (
                integer_in(member(reported, "prompt_tokens")),
                integer_in(member(reported, "completion_tokens")),
            ) {
                (Some(p), Some(c)) => Some((p, c)),
                _ => None,
            };
            ChatAnswer { usage, content: content_in(&doc) }
        },
    }
}

/// What went wrong with a chat call.
pub enum Trouble {
    /// The call failed, or its answer has no text.
    Call(String),
    /// The text of the answer does not parse.
    Answer { error: String, content: String },
}

/// What is said of the first call that went wrong: of an answer that does not
/// parse, its beginning too.
pub open spec fn trouble_text(t: Trouble) -> Seq<char> {
    match t {
        Trouble::Call(why) => why@,
        Trouble::Answer { error, content } => error@ + " (content: "@ + excerpt(content@, 120)
            + ")"@,
    }
}

fn describe_trouble(t: Trouble) -> (r: String)
    ensures
        r@ == trouble_text(t),
{
    match t {
        Trouble::Call(why) => why,
        Trouble::Answer { error, content } => {
            let start = first_chars(content.as_str(), 120);
            let shown = string_of(start.as_slice());
            error.concat(" (content: ").concat(shown.as_str()).concat(")")
        },
    }
}

/// How a chat call goes on.
pub enum ChatStep {
    /// Ask again with this request; this is what went wrong first.
    Retry { request: Json, first: String },
    /// Give up with this error.
    Fail(String),
}

/// The entries but for those with this key.
pub open spec fn without_key(entries: Seq<(Seq<char>, Tree)>, key: Seq<char>) -> Seq<
    (Seq<char>, Tree),
> {
    entries.filter(|e: (Seq<char>, Tree)| e.0 != key)
}

/// A chat call has gone wrong once. Where it asked for a schema it is made again
/// without: some servers reject a schema or mangle the answer.
pub fn chat_json_inner(body: Json, trouble: Trouble) -> (r: ChatStep)
    requires
        body.tree() is Object,
    ensures
        match r {
            ChatStep::Retry { request, first } => body.tree().get("response_format"@) is Some
                && request.tree() == Tree::Object(
                without_key(body.tree()->Object_0, "response_format"@),
            ) && first@ == trouble_text(trouble),
            ChatStep::Fail(why) => body.tree().get("response_format"@) is None && why@
                == trouble_text(trouble),
        },
{
    let first = describe_trouble(trouble);
    if body.get("response_format").is_none() {
        return ChatStep::Fail(first);
    }
    match body {
        Json::Object(entries) => {
            let ghost all = body.tree()->Object_0;
            let ghost keep = |e: (Seq<char>, Tree)| e.0 != "response_format"@;
            let mut kept: Vec<(String, Json)> = Vec::new();
            let ghost given = entries@;
            proof {
                reveal(Seq::filter);
                assert(entry_trees(kept@) =~= all.take(0).filter(keep));
            }
            for entry in it: entries
                invariant
                    it.seq() == given,
                    all.len() == given.len(),
                    forall|k: int|
                        0 <= k < given.len() ==> #[trigger] all[k] == (
                            given[k].0@,
                            given[k].1.tree(),
                        ),
                    keep == (|e: (Seq<char>, Tree)| e.0 != "response_format"@),
                    entry_trees(kept@) == all.take(it.index()).filter(keep),
            {
                proof {
                    let e = all[it.index()];
                    crate::text::lemma_filter_push(all.take(it.index()), e, keep);
                    assert(all.take(it.index()).push(e) =~= all.take(it.index() + 1));
                    assert(e == (entry.0@, entry.1.tree()));
                }
                if !same_text(entry.0.as_str(), "response_format") {
                    let ghost before = kept@;
                    kept.push(entry);
                    proof {
                        assert(entry_trees(kept@) =~= entry_trees(before).push(
                            (entry.0@, entry.1.tree()),
                        ));
                    }
                }
            }
            proof {
                assert(all.take(all.len() as int) =~= all);
            }
            ChatStep::Retry { request: object(kept), first }
        },
        _ => ChatStep::Fail(first),
    }
}

/// What is said when the second call goes wrong too.
pub fn both_failed(first: &str, trouble: Trouble) -> (r: String)
    ensures
        r@ == first@ + "; plain retry: "@ + match trouble {
            Trouble::Call(why) => why@,
            Trouble::Answer { error, .. } => error@,
        },
{
    let second = match trouble {
        Trouble::Call(why) => why,
        Trouble::Answer { error, .. } => error,
    };
    first.to_owned().concat("; plain retry: ").concat(second.as_str())
}

/// A chat call is made at most twice: the second request asks for no schema.
pub proof fn law_one_retry(body: Tree)
    requires
        body is Object,
    ensures
        Tree::Object(without_key(body->Object_0, "response_format"@)).get("response_format"@)
            is None,
{
    broadcast use vstd::seq_lib::group_filter_ensures;

    let keep = |e: (Seq<char>, Tree)| e.0 != "response_format"@;
    let kept = without_key(body->Object_0, "response_format"@);
    assert forall|i: int| 0 <= i < kept.len() implies (#[trigger] kept[i]).0
        != "response_format"@ by {
        assert(keep(kept[i]));
    }
    lemma_no_key(kept, "response_format"@, 0);
}

proof fn lemma_no_key(entries: Seq<(Seq<char>, Tree)>, key: Seq<char>, from: int)
    requires
        0 <= from <= entries.len(),
        forall|i: int| 0 <= i < entries.len() ==> (#[trigger] entries[i]).0 != key,
    ensures
        crate::json::key_index(entries, key, from) == entries.len(),
    decreases entries.len() - from,
{
    if from < entries.len() {
        assert(entries[from].0 != key);
        lemma_no_key(entries, key, from + 1);
    }
}

/// The log entry of a chat call.
pub fn log_entry(
    kind: &str,
    model: &str,
    duration_ms: i64,
    error: Option<String>,
    usage: Option<(i64, i64)>,
) -> (r: LlmLogEntry)
    ensures
        r.kind@ == kind@,
        r.model@ == model@,
        r.duration_ms == duration_ms,
        r.ok == (error is None),
        r.error == error,
        match usage {
            Some((p, c)) => r.prompt_tokens == Some(p) && r.completion_tokens == Some(c),
            None => r.prompt_tokens is None && r.completion_tokens is None,
        },
{
    let (prompt_tokens, completion_tokens) = match usage {
        Some((p, c)) => (Some(p), Some(c)),
        None => (None, None),
    };
    LlmLogEntry {
        kind: kind.to_owned(),
        model: model.to_owned(),
        duration_ms,
        ok: error.is_none(),
        error,
        prompt_tokens,
        completion_tokens,
    }
}

// ---------------------------------------------------------------------------
// Facts

/// The facts as an answer states them; money comes in euros.
#[derive(Debug, Clone, PartialEq)]
pub struct RawExtraction {
    pub annee_construction: Option<i64>,
    pub travaux: Option<String>,
    pub chauffage_type: Option<String>,
    pub chauffage_energie: Option<String>,
    pub fibre: Option<bool>,
    pub charges_copro_month_eur: Option<Double>,
    pub taxe_fonciere_year_eur: Option<Double>,
    pub etage: Option<i64>,
    pub ascenseur: Option<bool>,
    pub jardin: Option<bool>,
    pub garage_parking: Option<bool>,
    pub piscine: Option<bool>,
    pub orientation: Option<String>,
    pub mitoyenne: Option<bool>,
    pub notes: Vec<String>,
}

/// An amount of euros in whole cents, where there is one.
pub open spec fn in_cents(euros: Option<Double>) -> Option<i64> {
    match euros {
        Some(e) => Some(euro_cents(e) as i64),
        None => None,
    }
}

fn cents(euros: Option<Double>) -> (r: Option<i64>)
    ensures
        r == in_cents(euros),
{
    match euros {
        Some(e) => Some(cents_of_euros(e)),
        None => None,
    }
}

impl vstd::std_specs::convert::FromSpecImpl<RawExtraction> for ExtractedAttrs {
    open spec fn obeys_from_spec() -> bool {
        true
    }

    open spec fn from_spec(r: RawExtraction) -> ExtractedAttrs {
        ExtractedAttrs {
            annee_construction: r.annee_construction,
            travaux: r.travaux,
            chauffage_type: r.chauffage_type,
            chauffage_energie: r.chauffage_energie,
            fibre: r.fibre,
            charges_copro_month_cents: in_cents(r.charges_copro_month_eur),
            taxe_fonciere_year_cents: in_cents(r.taxe_fonciere_year_eur),
            etage: r.etage,
            ascenseur: r.ascenseur,
            jardin: r.jardin,
            garage_parking: r.garage_parking,
            piscine: r.piscine,
            orientation: r.orientation,
            mitoyenne: r.mitoyenne,
            notes: r.notes,
        }
    }
}

impl From<RawExtraction> for ExtractedAttrs {
    fn from(r: RawExtraction) -> (attrs: ExtractedAttrs) {
        ExtractedAttrs {
            annee_construction: r.annee_construction,
            travaux: r.travaux,
            chauffage_type: r.chauffage_type,
            chauffage_energie: r.chauffage_energie,
            fibre: r.fibre,
            charges_copro_month_cents: cents(r.charges_copro_month_eur),
            taxe_fonciere_year_cents: cents(r.taxe_fonciere_year_eur),
            etage: r.etage,
            ascenseur: r.ascenseur,
            jardin: r.jardin,
            garage_parking: r.garage_parking,
            piscine: r.piscine,
            orientation: r.orientation,
            mitoyenne: r.mitoyenne,
            notes: r.notes,
        }
    }
}

// ---------------------------------------------------------------------------
// Models

/// The ids among the models of a catalog.
pub open spec fn model_ids(models: Seq<Tree>) -> Seq<Seq<char>>
    decreases models.len(),
{
    if models.len() == 0 {
        Seq::empty()
    } else {
        let before = model_ids(models.drop_last());
        match models.last().at("id"@).as_text() {
            Some(id) => before.push(id),
            None => before,
        }
    }
}

/// The models of a catalog, in order.
pub fn models_in(catalog: &Json, url: &str) -> (r: Result<Vec<String>, String>)
    ensures
        match catalog.tree().at("data"@) {
            Tree::Array(models) => r is Ok && in_order(texts(r->Ok_0@)) && texts(
                r->Ok_0@,
            ).to_multiset() == model_ids(models).to_multiset(),
            _ => r is Err && r->Err_0@ == "no data[] in "@ + url@ + " response"@,
        },
{
    match member(Some(catalog), "data") {
        Some(Json::Array(models)) => {
            let ghost all = catalog.tree().at("data"@)->Array_0;
            let mut ids: Vec<String> = Vec::new();
            let mut i: usize = 0;
            proof {
                assert(all.take(0) =~= Seq::<Tree>::empty());
                assert(texts(ids@) =~= model_ids(all.take(0)));
            }
            while i < models.len()
                invariant
                    i <= models@.len(),
                    all.len() == models@.len(),
                    forall|k: int| 0 <= k < models@.len() ==> #[trigger] all[k] == models@[k].tree(),
                    texts(ids@) == model_ids(all.take(i as int)),
                decreases models@.len() - i,
            {
                proof {
                    assert(all.take(i as int + 1).drop_last() =~= all.take(i as int));
                    assert(all.take(i as int + 1).last() == models@[i as int].tree());
                }
                if let Some(id) = text_in(member(Some(&models[i]), "id")) {
                    let ghost before = ids@;
                    ids.push(id.clone());
                    proof {
                        assert(texts(ids@) =~= texts(before).push(id@));
                    }
                }
                i = i + 1;
            }
            proof {
                assert(all.take(models@.len() as int) =~= all);
            }
            Ok(sorted_texts(ids))
        },
        _ => Err("no data[] in ".to_owned().concat(url).concat(" response")),
    }
}

/// Reads the answer to a request for the catalog of models at `url`.
pub fn list_models(url: &str, success: bool, status: &str, body: &str) -> (r: Result<
    Vec<String>,
    String,
>)
    ensures
        if !success {
            r is Err && r->Err_0@ == refusal_text(status@, body@)
        } else {
            match json_document(body@) {
                Err(why) => r is Err && r->Err_0@ == why,
                Ok(doc) => match doc.at("data"@) {
                    Tree::Array(models) => r is Ok && in_order(texts(r->Ok_0@)) && texts(
                        r->Ok_0@,
                    ).to_multiset() == model_ids(models).to_multiset(),
                    _ => r is Err && r->Err_0@ == "no data[] in "@ + url@ + " response"@,
                },
            }
        },
{
    if !success {
        return Err(refusal(status, body));
    }
    match parse_json(body) {
        Ok(catalog) => models_in(&catalog, url),
        Err(why) => Err(why),
    }
}

/// Reads the answer to a probe.
pub fn probe(success: bool, status: &str, body: &str) -> (r: Result<(), String>)
    ensures
        if !success {
            r is Err && r->Err_0@ == refusal_text(status@, body@)
        } else {
            match json_document(body@) {
                Err(why) => r is Err && r->Err_0@ == why,
                Ok(doc) => match answer_text(doc) {
                    Ok(t) => r is Ok,
                    Err(why) => r is Err && r->Err_0@ == why,
                },
            }
        },
{
    if !success {
        return Err(refusal(status, body));
    }
    match content_of(body) {
        Ok(_) => Ok(()),
        Err(why) => Err(why),
    }
}

} // verus!
