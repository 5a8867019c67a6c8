use base64::Engine;

use claurst::chutes::{
    after_retries, discovery_failure, display_status, find_model, instances_url, invoke_headers, invoke_outcome,
    invoke_url, model_lookup_failure, models_from_list, models_url, parse_public_key, select_instance,
    strip_chutes_prefix, ChutesProvider, InstanceInfo, InvokeOutcome, ModelDetail, ProviderError, ProviderStatus,
    SystemPromptStyle,
};

fn detail(id: &str, chute: &str, tee: bool) -> ModelDetail {
    ModelDetail { id: id.to_string(), chute_id: chute.to_string(), confidential_compute: tee }
}

fn other_message(e: &ProviderError) -> (String, Option<u16>) {
    match e {
        ProviderError::Other { message, status } => (message.clone(), *status),
        _ => panic!("expected ProviderError::Other"),
    }
}

#[test]
fn keys_and_headers() {
    let p = ChutesProvider::new(Some("".to_string()));
    assert!(p.has_no_key());
    assert_eq!(p.authorization(), None);
    let p = ChutesProvider::with_config(Some("".to_string()));
    assert!(!p.has_no_key());
    let p = ChutesProvider::new(Some("k1".to_string()));
    assert_eq!(p.authorization(), Some("Bearer k1".to_string()));
    let p = p.with_api_key("".to_string());
    assert!(p.has_no_key());
    let p = p.with_api_key("k2".to_string());
    assert_eq!(p.authorization(), Some("Bearer k2".to_string()));
    assert_eq!(p.name(), "Chutes E2EE");
}

#[test]
fn require_key() {
    let p = ChutesProvider::with_config(None);
    let (m, s) = other_message(&p.require_key().unwrap_err());
    assert_eq!(m, "CHUTES_API_KEY required for E2EE mode");
    assert_eq!(s, None);
    assert!(ChutesProvider::with_config(Some("k".to_string())).require_key().is_ok());
}

#[test]
fn prefix_is_stripped_once() {
    assert_eq!(strip_chutes_prefix("chutes/zai-org/GLM-5.1-TEE"), "zai-org/GLM-5.1-TEE");
    assert_eq!(strip_chutes_prefix("chutes/chutes/x"), "chutes/x");
    assert_eq!(strip_chutes_prefix("zai-org/GLM"), "zai-org/GLM");
    assert_eq!(strip_chutes_prefix("chutes"), "chutes");
}

#[test]
fn cache_reads_back_what_was_written() {
    let mut p = ChutesProvider::with_config(Some("k".to_string()));
    assert_eq!(p.cached_chute_id("a"), None);
    p.remember_chute_id("a", "c1");
    p.remember_chute_id("b", "c2");
    assert_eq!(p.cached_chute_id("a"), Some("c1".to_string()));
    p.remember_chute_id("a", "c3");
    assert_eq!(p.cached_chute_id("a"), Some("c3".to_string()));
    assert_eq!(p.cached_chute_id("b"), Some("c2".to_string()));
}

#[test]
fn resolve_in_model_list() {
    let models = vec![
        detail("other/model", "c0", true),
        detail("zai-org/GLM-5.1-TEE", "c1", true),
        detail("chutes/zai-org/GLM-5.1-TEE", "c2", false),
    ];
    assert_eq!(find_model(&models, "chutes/zai-org/GLM-5.1-TEE"), Some(1));
    let mut p = ChutesProvider::with_config(Some("k".to_string()));
    assert_eq!(p.resolve_in_list("chutes/zai-org/GLM-5.1-TEE", &models).unwrap(), "c1");
    assert_eq!(p.cached_chute_id("chutes/zai-org/GLM-5.1-TEE"), Some("c1".to_string()));
    let e = p.resolve_in_list("missing", &models).unwrap_err();
    assert_eq!(other_message(&e), ("Model missing not found".to_string(), Some(404)));
    assert_eq!(p.cached_chute_id("missing"), None);
}

#[test]
fn status_display_and_failures() {
    assert_eq!(display_status(404), "404 Not Found");
    assert_eq!(display_status(599), "599 <unknown status code>");
    assert!(model_lookup_failure(200).is_none());
    assert_eq!(
        other_message(&model_lookup_failure(500).unwrap()),
        ("Model lookup failed: 500 Internal Server Error".to_string(), Some(500))
    );
    assert!(discovery_failure(204, "").is_none());
    assert_eq!(
        other_message(&discovery_failure(404, "nope").unwrap()),
        ("Chute does not support E2EE".to_string(), Some(404))
    );
    assert_eq!(
        other_message(&discovery_failure(503, "busy").unwrap()),
        ("Discovery failed: 503 Service Unavailable - busy".to_string(), Some(503))
    );
}

#[test]
fn choose_instance() {
    let none: Vec<InstanceInfo> = vec![];
    assert_eq!(other_message(&select_instance(&none).unwrap_err()).0, "No E2EE instances available");
    let no_nonce = vec![InstanceInfo { instance_id: "i".to_string(), e2e_pubkey: "pk".to_string(), nonces: vec![] }];
    assert_eq!(other_message(&select_instance(&no_nonce).unwrap_err()).0, "No nonces available for instance");
    let ok = vec![
        InstanceInfo { instance_id: "i1".to_string(), e2e_pubkey: "pk1".to_string(), nonces: vec!["n1".to_string(), "n2".to_string()] },
        InstanceInfo { instance_id: "i2".to_string(), e2e_pubkey: "pk2".to_string(), nonces: vec!["n3".to_string()] },
    ];
    let c = select_instance(&ok).unwrap();
    assert_eq!((c.instance_id.as_str(), c.e2e_pubkey.as_str(), c.nonce.as_str()), ("i1", "pk1", "n1"));
}

#[test]
fn public_key_checks() {
    let good = base64::engine::general_purpose::STANDARD.encode(vec![9u8; 1184]);
    assert_eq!(parse_public_key(&good).unwrap(), vec![9u8; 1184]);
    let short = base64::engine::general_purpose::STANDARD.encode(vec![9u8; 10]);
    assert_eq!(other_message(&parse_public_key(&short).unwrap_err()).0, "Invalid pubkey size: expected 1184, got 10");
    let (m, s) = other_message(&parse_public_key("@@").unwrap_err());
    assert!(m.starts_with("Invalid public key base64: "));
    assert_eq!(s, None);
}

#[test]
fn invocation_headers_and_urls() {
    let h = invoke_headers("chute", "inst", "nonce");
    let h: Vec<(&str, &str)> = h.iter().map(|(a, b)| (a.as_str(), b.as_str())).collect();
    assert_eq!(
        h,
        vec![
            ("Content-Type", "application/octet-stream"),
            ("X-Chute-Id", "chute"),
            ("X-Instance-Id", "inst"),
            ("X-E2E-Nonce", "nonce"),
            ("X-E2E-Stream", "true"),
            ("X-E2E-Path", "/v1/chat/completions"),
        ]
    );
    assert_eq!(models_url(), "https://llm.chutes.ai/v1/models");
    assert_eq!(instances_url("c9"), "https://api.chutes.ai/e2e/instances/c9");
    assert_eq!(invoke_url(), "https://api.chutes.ai/e2e/invoke");
}

#[test]
fn retry_rule() {
    assert!(matches!(invoke_outcome(1, 200, ""), InvokeOutcome::Stream));
    assert!(matches!(invoke_outcome(2, 299, "x"), InvokeOutcome::Stream));
    match invoke_outcome(1, 403, "Invalid NONCE used") {
        InvokeOutcome::Retry { error: ProviderError::Api { code, body } } => {
            assert_eq!(code, 403);
            assert_eq!(body, "Invalid NONCE used");
        }
        _ => panic!("expected a retry"),
    }
    assert!(matches!(invoke_outcome(2, 403, "nonce"), InvokeOutcome::Fail { .. }));
    assert!(matches!(invoke_outcome(1, 403, "forbidden"), InvokeOutcome::Fail { .. }));
    assert!(matches!(invoke_outcome(1, 500, "nonce"), InvokeOutcome::Fail { .. }));
    let (m, s) = other_message(&after_retries(None));
    assert_eq!((m.as_str(), s), ("E2EE invoke failed after retries", Some(403)));
    let last = ProviderError::Api { code: 403, body: "b".to_string() };
    assert!(matches!(after_retries(Some(last)), ProviderError::Api { code: 403, .. }));
    assert_eq!(ProviderError::Api { code: 403, body: "b".to_string() }.message(), "HTTP 403: b");
}

#[test]
fn model_listings() {
    let no_key = ChutesProvider::with_config(None);
    let listed = no_key.list_models(&Ok(vec![detail("x", "c", true)]));
    assert_eq!(listed.len(), 1);
    assert_eq!(listed[0].id, "chutes/zai-org/GLM-5.1-TEE");
    assert_eq!(listed[0].name, "GLM-5.1 TEE (Chutes E2EE)");
    assert_eq!((listed[0].context_window, listed[0].max_output_tokens), (200_000, 32_000));

    let keyed = ChutesProvider::with_config(Some("k".to_string()));
    let models = vec![detail("a/b", "c1", true), detail("c/d", "c2", false), detail("e/f", "c3", true)];
    let listed = keyed.list_models(&Ok(models));
    let ids: Vec<(&str, &str)> = listed.iter().map(|m| (m.id.as_str(), m.name.as_str())).collect();
    assert_eq!(ids, vec![("chutes/a/b", "a/b (Chutes TEE)"), ("chutes/e/f", "e/f (Chutes TEE)")]);
    let failed = keyed.list_models(&Err(ProviderError::StreamError { message: "x".to_string() }));
    assert!(failed.is_empty());
    assert_eq!(models_from_list(&vec![]).len(), 0);
}

#[test]
fn health_and_capabilities() {
    let no_key = ChutesProvider::with_config(None);
    match no_key.health_status(&Ok(())) {
        ProviderStatus::Unavailable { reason } => assert_eq!(reason, "No CHUTES_API_KEY configured"),
        _ => panic!("expected unavailable"),
    }
    let keyed = ChutesProvider::with_config(Some("k".to_string()));
    assert!(matches!(keyed.health_status(&Ok(())), ProviderStatus::Healthy));
    let err = Err(ProviderError::Other { message: "Chute does not support E2EE".to_string(), status: Some(404) });
    match keyed.health_status(&err) {
        ProviderStatus::Unavailable { reason } => assert_eq!(reason, "Chute does not support E2EE"),
        _ => panic!("expected unavailable"),
    }
    assert_eq!(keyed.probe_model(), "zai-org/GLM-5.1-TEE");
    let c = keyed.capabilities();
    assert!(c.streaming && c.tool_calling && c.thinking && c.image_input && c.structured_output);
    assert!(!c.pdf_input && !c.audio_input && !c.video_input && !c.caching);
    assert!(matches!(c.system_prompt_style, SystemPromptStyle::SystemMessage));
}
