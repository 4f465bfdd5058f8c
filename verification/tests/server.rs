use std::time::Duration;

use terrier::config::{Config, EnrichmentConfig, LlmConfig, NotificationsConfig, ScrapeConfig};
use terrier::double::Double;
use terrier::enrich::{extension_of, image_file, images_root, local_path};
use terrier::json::Json;
use terrier::listing::{ExtractedAttrs, Timestamp};
use terrier::llm::{
    both_failed, build_runtime, chat_json_inner, content_of, default_prompts, effective,
    effective_prompts, endpoint_url, extract_json, keep_stored_key, key_file, list_models, log_entry,
    post_chat, probe, probe_body, request_body, ChatStep, ExtractInput, LlmPrompts,
    LlmSettingsUpdate, RawExtraction, Trouble, EXTRACT_PROMPT,
};
use terrier::notify::NtfyNotifier;
use terrier::pipeline::PipelineStats;
use terrier::politeness::{concurrency, delay_before_request};
use terrier::scheduler::{maybe_alert, record_tick, run_source, FailureState};
use terrier::status::{SourceStatus, TickStats};

#[test]
fn backoff_grows_and_caps() {
    let mut fs = FailureState::new(3);
    assert_eq!(Duration::from_secs(fs.record_failure()), Duration::from_secs(60));
    assert_eq!(Duration::from_secs(fs.record_failure()), Duration::from_secs(120));
    for _ in 0..10 {
        fs.record_failure();
    }
    assert_eq!(Duration::from_secs(fs.record_failure()), Duration::from_secs(3600));
}

#[test]
fn every_backoff_of_an_outage() {
    let mut fs = FailureState::new(3);
    let all: Vec<u64> = (0..8).map(|_| fs.record_failure()).collect();
    assert_eq!(all, vec![60, 120, 240, 480, 960, 1920, 3600, 3600]);
    fs.record_success();
    assert_eq!(fs.record_failure(), 60);
    let mut worn = FailureState { consecutive: u32::MAX, alert_after: 1, alerted: true };
    assert_eq!(worn.record_failure(), 3600);
    assert_eq!(worn.consecutive, u32::MAX);
}

#[test]
fn alerts_once_per_outage_and_rearms() {
    let mut fs = FailureState::new(2);
    fs.record_failure();
    assert!(!fs.should_alert());
    fs.record_failure();
    assert!(fs.should_alert());
    assert!(!fs.should_alert());
    fs.record_success();
    fs.record_failure();
    fs.record_failure();
    assert!(fs.should_alert());
}

#[test]
fn a_long_outage_alerts_once() {
    for after in [0u32, 1, 5] {
        let mut fs = FailureState::new(after);
        let mut alerts = 0;
        for _ in 0..20 {
            fs.record_failure();
            if maybe_alert(&mut fs, "src", "boom").is_some() {
                alerts += 1;
            }
        }
        assert_eq!(alerts, 1, "alert after {after}");
    }
}

#[test]
fn ticks_rest_or_back_off() {
    let mut fs = FailureState::new(1);
    let stats = PipelineStats { new_listings: 2, notified: 1, ..Default::default() };
    let after = run_source(&mut fs, "src", 3600, Ok((7, stats)));
    assert_eq!(after.sleep_secs, 3600);
    assert!(after.alert.is_none());
    assert_eq!(
        after.result,
        Ok(TickStats { fetched: 7, new_listings: 2, notified: 1, ..Default::default() })
    );
    let after = run_source(&mut fs, "src", 3600, Err("blocked".into()));
    assert_eq!(after.sleep_secs, 60);
    let alert = after.alert.unwrap();
    assert_eq!(alert.title, "terrier: source src is failing");
    assert_eq!(alert.message, "Repeated scrape failures, backing off.\nLast error: blocked");
    assert_eq!((alert.tags.as_str(), alert.priority.as_str()), ("warning,terrier", "high"));
    assert_eq!(after.result, Err("blocked".into()));
    let after = run_source(&mut fs, "src", 3600, Err("blocked".into()));
    assert_eq!(after.sleep_secs, 120);
    assert!(after.alert.is_none());
}

#[test]
fn ticks_show_in_the_status() {
    let now = Timestamp { secs: 100, nanos: 5 };
    let mut s = SourceStatus::idle("src", 60);
    record_tick(&mut s, Err("boom".into()), now);
    record_tick(&mut s, Err("boom again".into()), now);
    assert_eq!(s.consecutive_failures, 2);
    assert_eq!(s.last_error.as_deref(), Some("boom again"));
    assert_eq!(s.last_tick, Some(now));
    record_tick(&mut s, Ok(TickStats { fetched: 3, ..Default::default() }), now);
    assert_eq!(s.consecutive_failures, 0);
    assert!(s.last_error.is_none());
    assert_eq!(s.last_stats.unwrap().fetched, 3);
}

#[test]
fn defaults_are_sane() {
    let config = Config::default();
    assert_eq!(config.listen.port, 4810);
    assert!(!config.leboncoin.enabled, "sources are opt-in");
    assert!(!config.ouestfrance.enabled);
    assert!(config.notifications.ntfy_url.is_none(), "notifications opt-in");
    assert_eq!(config.db_path, "terrier.db");
    let scrape = ScrapeConfig::default();
    assert_eq!(scrape.failure_alert_after, 5);
    assert_eq!(scrape.renotify_drop_pct, Double { bits: 1.0f64.to_bits() });
    assert_eq!(scrape.max_search_locations, 20);
    assert_eq!((config.leboncoin.delay_ms, config.leboncoin.interval_minutes), (3000, 60));
    assert_eq!((config.ouestfrance.delay_ms, config.ouestfrance.interval_minutes), (5000, 120));
    assert_eq!(config.llm.base_url, "http://127.0.0.1:8080/v1");
    assert_eq!(config.llm.timeout_secs, 120);
    assert_eq!((config.enrichment.poll_seconds, config.enrichment.max_attempts), (60, 8));
    assert_eq!(config.enrichment.max_images, 10);
}

#[test]
fn builds_endpoint_from_url_and_topic() {
    let config = NotificationsConfig {
        ntfy_url: Some("https://notify.zeus.balem.fr".into()),
        topic: "deals-zeus".into(),
        token_file: None,
    };
    let notifier = NtfyNotifier::new(&config).unwrap().unwrap();
    assert_eq!(
        notifier.endpoint,
        "https://notify.zeus.balem.fr/deals-zeus"
    );
    assert_eq!(notifier.token, None);
    assert_eq!(notifier.with_token(" tk_x\n").token.as_deref(), Some("tk_x"));
}

#[test]
fn disabled_when_url_unset() {
    let notifier = NtfyNotifier::new(&NotificationsConfig::default()).unwrap();
    assert!(notifier.is_none());
}

#[test]
fn empty_topic_is_an_error() {
    let config = NotificationsConfig {
        ntfy_url: Some("https://ntfy.sh".into()),
        topic: "".into(),
        token_file: None,
    };
    assert!(NtfyNotifier::new(&config).is_err());
    let config = NotificationsConfig {
        ntfy_url: Some("https://ntfy.sh".into()),
        topic: "http://[".into(),
        token_file: None,
    };
    let error = NtfyNotifier::new(&config).unwrap_err();
    assert!(error.starts_with("joining ntfy topic onto https://ntfy.sh: "), "{error}");
    for base in ["https://ex.com/ntfy", "https://ex.com/ntfy/"] {
        let config = NotificationsConfig {
            ntfy_url: Some(base.into()),
            topic: "deals".into(),
            ..Default::default()
        };
        let notifier = NtfyNotifier::new(&config).unwrap().unwrap();
        assert_eq!(notifier.endpoint, "https://ex.com/ntfy/deals");
    }
}

#[test]
fn requests_keep_their_distance() {
    assert_eq!(delay_before_request(500, None), 0, "first call is immediate");
    assert_eq!(delay_before_request(500, Some(0)), 500);
    assert_eq!(delay_before_request(500, Some(499)), 1);
    assert_eq!(delay_before_request(500, Some(500)), 0);
    assert_eq!(delay_before_request(500, Some(u128::MAX)), 0);
    assert_eq!(concurrency(0), 1);
    assert_eq!(concurrency(2), 2);
}

#[test]
fn extension_default_and_stripping() {
    assert_eq!(extension_of("https://cdn/a.jpg"), "jpg");
    assert_eq!(extension_of("https://cdn/a.webp?rule=classified"), "webp");
    assert_eq!(extension_of("https://cdn/no-extension"), "jpg");
    assert_eq!(extension_of("https://cdn/x.superlongext"), "jpg");
}

#[test]
fn photos_are_filed_by_position() {
    assert_eq!(image_file(3, "https://cdn/b.webp?rule=x"), "3.webp");
    assert_eq!(image_file(0, "https://cdn/b."), "0.jpg");
    assert_eq!(extension_of("https://cdn/a.?w=1"), "jpg");
    assert_eq!(extension_of(""), "jpg");
    assert_eq!(image_file(1, "https://cdn/b.j-g"), "1.jpg");
    assert_eq!(local_path(7, "0.jpg"), "00000000-0000-0000-0000-000000000007/0.jpg");
    assert_eq!(images_root(&EnrichmentConfig::default()), "images");
}

#[test]
fn extract_json_strips_fences_prose_and_think_blocks() {
    assert_eq!(extract_json("{\"a\": 1}"), "{\"a\": 1}");
    assert_eq!(extract_json("```json\n{\"a\": 1}\n```"), "{\"a\": 1}");
    assert_eq!(
        extract_json("Sure! Here: {\"a\": {\"b\": 2}} hope it helps"),
        "{\"a\": {\"b\": 2}}"
    );
    assert_eq!(
        extract_json("<think>Hmm {tricky}</think>\n{\"a\": 1}"),
        "{\"a\": 1}"
    );
    assert_eq!(extract_json("no json at all"), "no json at all");
    assert_eq!(extract_json("} upside down {"), "} upside down {");
}

#[test]
fn empty_content_with_reasoning_is_a_clear_error() {
    let body = r#"{"choices": [{"finish_reason": "length", "message":
        {"role": "assistant", "content": "", "reasoning_content": "Let me think..."}}]}"#;
    let err = content_of(body).unwrap_err().to_string();
    assert!(err.contains("token budget reasoning"), "got: {err}");
    assert!(err.contains("(finish_reason=length)"));

    let body = r#"{"choices": [{"finish_reason": "stop", "message":
        {"role": "assistant", "content": "", "reasoning_content": "here: {\"a\": 1}"}}]}"#;
    assert!(content_of(body).unwrap().contains("{\"a\": 1}"));

    assert_eq!(
        content_of(r#"{"choices": []}"#).unwrap_err(),
        "no choices[0].message.content in llm response"
    );
    assert_eq!(
        content_of(r#"{"choices": [{"message": {"content": " hi "}}]}"#).unwrap(),
        " hi "
    );
    assert!(content_of("not json").is_err());
}

fn input() -> ExtractInput {
    ExtractInput {
        title: "Maison 5 pièces Bruz".into(),
        price_eur: "320000".into(),
        property_type: "maison".into(),
        surface_m2: Some("110.0".into()),
        rooms: Some(5),
        description: "Maison familiale, charges 45 € par mois, taxe foncière 1200 €. \
                      Chauffage gaz. Fibre. Travaux de rafraîchissement à prévoir."
            .into(),
    }
}

fn at<'a>(doc: &'a Json, key: &str) -> &'a Json {
    doc.get(key).unwrap()
}

fn text(doc: &Json) -> &str {
    match doc {
        Json::Text(s) => s,
        _ => panic!("no text"),
    }
}

fn items(doc: &Json) -> &Vec<Json> {
    match doc {
        Json::Array(items) => items,
        _ => panic!("no array"),
    }
}

fn number(doc: &Json) -> i64 {
    match doc {
        Json::Number(n) => n.integer.unwrap(),
        _ => panic!("no number"),
    }
}

#[test]
fn request_carries_listing_strict_schema_and_token_room() {
    let body = request_body("qwen3", &input(), EXTRACT_PROMPT);
    assert_eq!(text(at(&body, "model")), "qwen3");
    let schema = at(at(&body, "response_format"), "json_schema");
    assert_eq!(at(schema, "strict"), &Json::Bool(true));
    assert!(number(at(&body, "max_tokens")) >= 4000, "room for CoT");
    assert_eq!(number(at(&body, "temperature")), 0);
    let messages = items(at(&body, "messages"));
    assert_eq!(text(at(&messages[0], "content")), EXTRACT_PROMPT);
    let user = text(at(&messages[1], "content"));
    assert!(user.contains("Maison 5 pièces Bruz"));
    assert!(user.contains("taxe foncière 1200"));
    assert!(user.contains("320000 EUR"));
    assert!(user.contains("\"surface_m2\":110.0"), "{user}");
    assert!(user.contains("\"rooms\":5"));
    let fields = at(at(schema, "schema"), "required");
    assert_eq!(items(fields).len(), 15);
    let properties = at(at(schema, "schema"), "properties");
    for field in items(fields) {
        assert!(properties.get(text(field)).is_some());
    }
    assert_eq!(items(at(at(properties, "travaux"), "enum")).len(), 4);
    let bare = ExtractInput { surface_m2: None, rooms: None, ..input() };
    let body = request_body("m", &bare, "s");
    let user = text(at(&items(at(&body, "messages"))[1], "content"));
    assert!(user.contains("\"surface_m2\":null"), "{user}");
    let tiny = probe_body("m");
    assert_eq!(number(at(&tiny, "max_tokens")), 2048);
    assert!(tiny.get("response_format").is_none());
}

#[test]
fn a_structured_call_is_retried_plain_once() {
    let body = request_body("m", &input(), "s");
    let long = "é".repeat(200);
    let garbled = Trouble::Answer { error: "bad".into(), content: long };
    let ChatStep::Retry { request, first } = chat_json_inner(body, garbled) else {
        panic!("a retry");
    };
    assert_eq!(first, format!("bad (content: {})", "é".repeat(120)));
    assert!(request.get("response_format").is_none());
    assert!(request.get("messages").is_some() && request.get("model").is_some());
    let ChatStep::Fail(why) = chat_json_inner(request, Trouble::Call("boom".into())) else {
        panic!("no second retry");
    };
    assert_eq!(why, "boom");
    assert_eq!(both_failed("a", Trouble::Call("b".into())), "a; plain retry: b");
    let garbled = Trouble::Answer { error: "bad".into(), content: "text".into() };
    assert_eq!(both_failed("a", garbled), "a; plain retry: bad");
}

#[test]
fn answers_report_usage_and_refusals() {
    let ok = r#"{"choices":[{"message":{"content":"hi"}}],"usage":{"prompt_tokens":3,"completion_tokens":4}}"#;
    let answer = post_chat(true, "200 OK", ok);
    assert_eq!(answer.usage, Some((3, 4)));
    assert_eq!(answer.content.unwrap(), "hi");
    let answer = post_chat(true, "200 OK", r#"{"usage":{"prompt_tokens":3,"completion_tokens":4}}"#);
    assert_eq!(answer.usage, Some((3, 4)), "counted even without an answer");
    assert!(answer.content.is_err());
    let answer = post_chat(false, "500 Internal Server Error", "  oops  ");
    assert_eq!(answer.content.unwrap_err(), "500 Internal Server Error: oops");
    assert!(post_chat(true, "200 OK", "<html>").content.is_err());
    let entry = log_entry("extract", "m", 12, None, Some((3, 4)));
    assert!(entry.ok && entry.prompt_tokens == Some(3) && entry.completion_tokens == Some(4));
    let entry = log_entry("extract", "m", 12, Some("boom".into()), None);
    assert!(!entry.ok && entry.prompt_tokens.is_none());
}

#[test]
fn catalogs_are_sorted() {
    let body = r#"{"data":[{"id":"qwen"},{"name":"x"},{"id":"Gemma"},{"id":"gemma"},{"id":"é"},{"id":"qwen"}]}"#;
    assert_eq!(
        list_models("http://z/models", true, "200 OK", body).unwrap(),
        vec!["Gemma", "gemma", "qwen", "qwen", "é"]
    );
    assert_eq!(
        list_models("http://z/models", true, "200 OK", "{}").unwrap_err(),
        "no data[] in http://z/models response"
    );
    assert_eq!(list_models("u", false, "401 Unauthorized", "no").unwrap_err(), "401 Unauthorized: no");
    assert!(list_models("u", true, "200 OK", "no").is_err());
    assert!(probe(true, "200 OK", r#"{"choices":[{"message":{"content":"ok"}}]}"#).is_ok());
    assert!(probe(true, "200 OK", "{}").is_err());
    assert_eq!(probe(false, "502 Bad Gateway", "").unwrap_err(), "502 Bad Gateway: ");
    assert_eq!(endpoint_url("http://z/v1//", "/models"), "http://z/v1/models");
}

#[test]
fn disabled_config_builds_no_extractor() {
    let eff = effective(&LlmConfig::default(), None, None);
    let runtime = build_runtime(eff, default_prompts());
    assert!(runtime.extractor.is_none());
    assert!(!runtime.status.enabled && runtime.status.model.is_none());
}

#[test]
fn override_supersedes_config_blank_fields_fall_back() {
    let base = LlmConfig {
        model: "conf-model".into(),
        ..Default::default()
    };
    let o = LlmSettingsUpdate {
        enabled: true,
        base_url: "http://zeus:8080/v1".into(),
        model: String::new(),
        api_key: Some("sk-x".into()),
    };
    let eff = effective(&base, Some(&o), None);
    assert!(eff.enabled, "override enables a config-disabled pass");
    assert_eq!(eff.base_url, "http://zeus:8080/v1");
    assert_eq!(
        eff.model, "conf-model",
        "blank override field falls back to TOML"
    );
    assert_eq!(eff.api_key.as_deref(), Some("sk-x"));

    let runtime = build_runtime(eff, default_prompts());
    let extractor = runtime.extractor.as_ref().unwrap();
    assert_eq!(extractor.url, "http://zeus:8080/v1/chat/completions");
    assert_eq!(extractor.prompts.extract, EXTRACT_PROMPT);
    assert_eq!(runtime.status.model.as_deref(), Some("conf-model"));
    assert!(runtime.settings.api_key_set && runtime.settings.from_override);
}

#[test]
fn key_files_are_read_only_when_enabled() {
    let mut base = LlmConfig { api_key_file: Some("/run/key".into()), ..Default::default() };
    assert_eq!(key_file(&base, None), None, "disabled");
    base.enabled = true;
    assert_eq!(key_file(&base, None).as_deref(), Some("/run/key"));
    let eff = effective(&base, None, Some(" sk-file\n"));
    assert_eq!(eff.api_key.as_deref(), Some("sk-file"));
    assert!(!eff.override_key_set && !eff.from_override);
    let mut o = LlmSettingsUpdate {
        enabled: true,
        base_url: "".into(),
        model: " m ".into(),
        api_key: Some("".into()),
    };
    assert_eq!(key_file(&base, Some(&o)).as_deref(), Some("/run/key"), "an empty key is none");
    assert_eq!(effective(&base, Some(&o), Some("k")).model, "m");
    o.api_key = Some("sk".into());
    assert_eq!(key_file(&base, Some(&o)), None);
    o.enabled = false;
    let eff = effective(&base, Some(&o), None);
    assert!(!eff.enabled);
    assert_eq!(eff.api_key.as_deref(), Some("sk"));
    let update = LlmSettingsUpdate { api_key: None, ..o.clone() };
    assert_eq!(keep_stored_key(update.clone(), Some(o.clone())).api_key.as_deref(), Some("sk"));
    assert_eq!(keep_stored_key(update, None).api_key, None);
    let newer = LlmSettingsUpdate { api_key: Some("new".into()), ..o.clone() };
    assert_eq!(keep_stored_key(newer, Some(o)).api_key.as_deref(), Some("new"));
}

#[test]
fn prompt_override_merges_over_default() {
    let stored = LlmPrompts {
        extract: "  ".into(),
    };
    assert_eq!(effective_prompts(Some(&stored)).extract, EXTRACT_PROMPT);
    let stored = LlmPrompts {
        extract: "custom".into(),
    };
    assert_eq!(effective_prompts(Some(&stored)).extract, "custom");
    assert_eq!(effective_prompts(None).extract, EXTRACT_PROMPT);
}

/// The typed reading of an answer.
fn parse_response(body: &str) -> Option<ExtractedAttrs> {
    let content = content_of(body).ok()?;
    let v: serde_json::Value = serde_json::from_str(&extract_json(&content)).ok()?;
    let text = |key: &str| v[key].as_str().map(str::to_string);
    let euros = |key: &str| v[key].as_f64().map(|x| Double { bits: x.to_bits() });
    let raw = RawExtraction {
        annee_construction: v["annee_construction"].as_i64(),
        travaux: text("travaux"),
        chauffage_type: text("chauffage_type"),
        chauffage_energie: text("chauffage_energie"),
        fibre: v["fibre"].as_bool(),
        charges_copro_month_eur: euros("charges_copro_month_eur"),
        taxe_fonciere_year_eur: euros("taxe_fonciere_year_eur"),
        etage: v["etage"].as_i64(),
        ascenseur: v["ascenseur"].as_bool(),
        jardin: v["jardin"].as_bool(),
        garage_parking: v["garage_parking"].as_bool(),
        piscine: v["piscine"].as_bool(),
        orientation: text("orientation"),
        mitoyenne: v["mitoyenne"].as_bool(),
        notes: v["notes"]
            .as_array()?
            .iter()
            .filter_map(|n| n.as_str().map(str::to_string))
            .collect(),
    };
    Some(raw.into())
}

#[test]
fn parses_extraction_and_converts_euros_to_cents() {
    let body = r#"{"choices": [{ "message": { "role": "assistant", "content":
        "{\"annee_construction\": 1998, \"travaux\": \"rafraichissement\", \"chauffage_type\": \"individuel\", \"chauffage_energie\": \"gaz\", \"fibre\": true, \"charges_copro_month_eur\": 45, \"taxe_fonciere_year_eur\": 1200.5, \"etage\": null, \"ascenseur\": null, \"jardin\": true, \"garage_parking\": null, \"piscine\": null, \"orientation\": null, \"mitoyenne\": null, \"notes\": [\"locataire en place\"]}"
    }}]}"#;
    let a = parse_response(body).unwrap();
    assert_eq!(a.annee_construction, Some(1998));
    assert_eq!(a.charges_copro_month_cents, Some(4500));
    assert_eq!(a.taxe_fonciere_year_cents, Some(120_050));
    assert_eq!(a.travaux.as_deref(), Some("rafraichissement"));
    assert_eq!(a.notes, vec!["locataire en place"]);
    assert_eq!((a.fibre, a.jardin, a.piscine), (Some(true), Some(true), None));
    assert!(parse_response("not json").is_none());
    assert!(parse_response(r#"{"choices": []}"#).is_none());
}
