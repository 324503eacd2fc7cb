use agentix::daemon::{forward_headers, cloud_models, falls_back_to_ollama, ollama_url, Config, ConfigVars};
use agentix::infer::{Capability, CompletionChunk, FinishReason, InferError, ModelFormat};
use agentix::llama::{llama_daemon_settings, LlamaDaemonVars};
use agentix::num::{decimal_string, parse_decimal};
use agentix::serve::{
    collect_completion, collect_inputs, finish_reason_name, normalize_content, parse_model_list,
    resolve_model, stream_error_status, transcript_text, whisper_daemon_settings, ContentPart,
    InputValue, MessageContent, WhisperBackend,
};

fn no_vars() -> ConfigVars {
    ConfigVars {
        gateway_host: None,
        gateway_port: None,
        ollama_base_url: None,
        llama_socket: None,
        whisper_socket: None,
        agentix_api_key: None,
        anthropic_api_key: None,
        openai_api_key: None,
        openrouter_api_key: None,
        anthropic_base_url: None,
        openai_base_url: None,
    }
}

#[test]
fn config_defaults() {
    let c = Config::from_vars(no_vars());
    assert_eq!(c.gateway_host, "[::]");
    assert_eq!(c.gateway_port, 11434);
    assert_eq!(c.ollama_base_url, "http://localhost:11434");
    assert_eq!(c.llama_socket, "/run/agentix/llama.sock");
    assert_eq!(c.whisper_socket, "/run/agentix/whisper.sock");
    assert!(c.anthropic_api_key.is_none());
}

#[test]
fn config_from_values() {
    let mut v = no_vars();
    v.gateway_port = Some("8080".to_string());
    v.gateway_host = Some("127.0.0.1".to_string());
    v.openai_api_key = Some("k".to_string());
    let c = Config::from_vars(v);
    assert_eq!(c.gateway_port, 8080);
    assert_eq!(c.gateway_host, "127.0.0.1");
    assert_eq!(c.openai_api_key.as_deref(), Some("k"));
    let mut v = no_vars();
    v.gateway_port = Some("70000".to_string());
    assert_eq!(Config::from_vars(v).gateway_port, 11434);
}

#[test]
fn cloud_model_listing() {
    let mut v = no_vars();
    v.openai_api_key = Some("o".to_string());
    v.openrouter_api_key = Some("r".to_string());
    let models = cloud_models(&Config::from_vars(v));
    let ids: Vec<&str> = models.iter().map(|m| m.id.as_str()).collect();
    assert_eq!(ids, vec!["gpt-4o", "openrouter/*"]);
    assert_eq!(models[1].owned_by, "openrouter");
    assert!(cloud_models(&Config::from_vars(no_vars())).is_empty());
    assert!(falls_back_to_ollama(503));
    assert!(!falls_back_to_ollama(502));
    assert_eq!(ollama_url("http://h:1", "/api/embed"), "http://h:1/api/embed");
}

#[test]
fn decimal_numbers() {
    assert_eq!(parse_decimal("65535", 65535), Some(65535));
    assert_eq!(parse_decimal("+7", 10), Some(7));
    assert_eq!(parse_decimal("65536", 65535), None);
    assert_eq!(parse_decimal("", 10), None);
    assert_eq!(parse_decimal("-1", 10), None);
    assert_eq!(parse_decimal("1x", 10), None);
    assert_eq!(decimal_string(0), "0");
    assert_eq!(decimal_string(18446744073709551615), "18446744073709551615");
    for n in [0u64, 9, 10, 12345, u32::MAX as u64] {
        assert_eq!(parse_decimal(&decimal_string(n), u64::MAX), Some(n));
    }
}

#[test]
fn completions_are_summed_up() {
    let chunks = vec![
        CompletionChunk::new("Hel".to_string(), None),
        CompletionChunk::new("lo".to_string(), None),
        CompletionChunk::new(String::new(), Some(FinishReason::Length)),
    ];
    let (text, reason) = collect_completion(&chunks);
    assert_eq!((text.as_str(), reason), ("Hello", "length"));
    assert_eq!(collect_completion(&[]).1, "stop");
    assert_eq!(finish_reason_name(FinishReason::Error), "error");
    let e = InferError::ContextExceeded { prompt_tokens: 1, max_new_tokens: 1, context_window: 1 };
    assert_eq!(stream_error_status(&e), 400);
    assert_eq!(stream_error_status(&InferError::Backend("x".to_string())), 500);
}

#[test]
fn requested_models_are_resolved() {
    let stored = vec!["hf.co/org/Model-GGUF:Q4_K_M".to_string(), "local.gguf".to_string()];
    assert_eq!(resolve_model("x", true, &stored).as_deref(), Some("x"));
    assert_eq!(resolve_model("Model-GGUF:Q4_K_M", false, &stored).as_deref(), Some("hf.co/org/Model-GGUF:Q4_K_M"));
    assert_eq!(resolve_model("local.gguf", false, &stored).as_deref(), Some("local.gguf"));
    assert_eq!(resolve_model("org/Model-GGUF:Q4_K_M", false, &stored).as_deref(), Some("hf.co/org/Model-GGUF:Q4_K_M"));
    assert_eq!(resolve_model("nothing", false, &stored), None);
}

fn part(t: Option<&str>, x: Option<&str>) -> ContentPart {
    ContentPart { part_type: t.map(String::from), text: x.map(String::from) }
}

#[test]
fn chat_content_is_flattened() {
    assert_eq!(normalize_content(&MessageContent::Text("hi".to_string())), Ok("hi".to_string()));
    assert_eq!(normalize_content(&MessageContent::Other("null".to_string())), Ok("null".to_string()));
    let parts = vec![part(Some("text"), Some("a")), part(Some("image_url"), None), part(Some("text"), Some("b"))];
    assert_eq!(normalize_content(&MessageContent::Parts(parts)), Ok("ab".to_string()));
    let only_images = vec![part(Some("image"), None)];
    assert_eq!(
        normalize_content(&MessageContent::Parts(only_images)),
        Err("request contains only image content; vision not yet supported".to_string())
    );
    assert_eq!(normalize_content(&MessageContent::Parts(vec![])), Ok(String::new()));
}

#[test]
fn embedding_inputs() {
    assert_eq!(collect_inputs(&InputValue::Text("a".to_string())), vec!["a"]);
    let arr = InputValue::Array(vec![Some("a".to_string()), None, Some("b".to_string())]);
    assert_eq!(collect_inputs(&arr), vec!["a", "b"]);
    assert!(collect_inputs(&InputValue::Other).is_empty());
}

#[test]
fn model_lists() {
    assert_eq!(parse_model_list(" a , ,b,"), vec!["a", "b"]);
    assert!(parse_model_list("").is_empty());
}

#[test]
fn whisper_backend() {
    let w = WhisperBackend;
    assert_eq!(w.name(), "whisper");
    assert!(w.supports_format(ModelFormat::WhisperBin));
    assert!(!w.supports_format(ModelFormat::Safetensors));
    match w.missing(Capability::Embedding) {
        InferError::CapabilityMissing(m, c) => {
            assert_eq!(m, "whisper");
            assert_eq!(c, Capability::Embedding);
        }
        _ => panic!("expected CapabilityMissing"),
    }
    let segs = vec![" Hello".to_string(), " world. ".to_string()];
    assert_eq!(transcript_text(&segs), "Hello world.");
}

#[test]
fn forwarded_requests_get_a_host_header() {
    let hs = vec![("content-type".to_string(), "application/json".to_string())];
    assert_eq!(
        forward_headers(&hs),
        vec![
            ("content-type".to_string(), "application/json".to_string()),
            ("host".to_string(), "localhost".to_string()),
        ]
    );
    let with_host = vec![
        ("host".to_string(), "example".to_string()),
        ("accept".to_string(), "*/*".to_string()),
    ];
    assert_eq!(forward_headers(&with_host), with_host);
    assert_eq!(forward_headers(&[]), vec![("host".to_string(), "localhost".to_string())]);
}

#[test]
fn llama_and_whisper_daemon_settings() {
    let none = LlamaDaemonVars { socket: None, models_dir: None, max_ctx: None, vram_limit: None, max_loaded: None };
    let (sock, cfg) = llama_daemon_settings(none);
    assert_eq!(sock, "/run/agentix/llama.sock");
    assert_eq!(cfg.models_dir, "/var/lib/agentix/models");
    assert_eq!((cfg.max_ctx, cfg.max_loaded_models, cfg.vram_limit_bytes), (32768, 2, None));
    let set = LlamaDaemonVars {
        socket: Some("/tmp/l.sock".to_string()),
        models_dir: Some("/m".to_string()),
        max_ctx: Some("8192".to_string()),
        vram_limit: Some("1000".to_string()),
        max_loaded: Some("x".to_string()),
    };
    let (sock, cfg) = llama_daemon_settings(set);
    assert_eq!(sock, "/tmp/l.sock");
    assert_eq!(cfg.models_dir, "/m");
    assert_eq!((cfg.max_ctx, cfg.max_loaded_models, cfg.vram_limit_bytes), (8192, 2, Some(1000)));
    let (sock, cfg) = whisper_daemon_settings(None, None);
    assert_eq!(sock, "/run/agentix/whisper.sock");
    assert_eq!(cfg.models_dir, "/var/lib/agentix/models");
    assert_eq!((cfg.max_ctx, cfg.max_loaded_models, cfg.vram_limit_bytes), (0, 1, None));
}
