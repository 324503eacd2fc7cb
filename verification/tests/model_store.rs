use agentix::infer::{
    detect_format, select_backend, BackendHint, Capability, CompletionChunk, CompletionMessage,
    DetectedMeta, FinishReason, InferConfig, InferError, ModelFormat,
};
use agentix::store::{
    aliases_with, blobs_freed_by_removal, build_manifest, digest_hash, file_name, join_path,
    Manifest, ManifestLayer, ModelStore, PullSource,
};

#[test]
fn config_constructors() {
    let c = InferConfig::new("/m".to_string(), Some(8), 3, 4096);
    assert_eq!(c.models_dir, "/m");
    assert_eq!((c.vram_limit_bytes, c.max_loaded_models, c.max_ctx), (Some(8), 3, 4096));
    let d = InferConfig::default();
    assert_eq!(d.models_dir, "/var/lib/agentix/models");
    assert_eq!((d.vram_limit_bytes, d.max_loaded_models, d.max_ctx), (None, 2, 32768));
    let m = CompletionMessage::new("user", "hi");
    assert_eq!((m.role.as_str(), m.content.as_str()), ("user", "hi"));
    let k = CompletionChunk::new("x".to_string(), Some(FinishReason::Length));
    assert_eq!(k.delta, "x");
    assert_eq!(k.finish_reason, Some(FinishReason::Length));
}

#[test]
fn formats_from_file_names() {
    assert_eq!(detect_format("m.gguf"), ModelFormat::Gguf);
    assert_eq!(detect_format("m.safetensors"), ModelFormat::Safetensors);
    assert_eq!(detect_format("ggml-tiny.en.bin"), ModelFormat::WhisperBin);
    assert_eq!(detect_format("model"), ModelFormat::Gguf);
}

fn meta(caps: Vec<Capability>) -> DetectedMeta {
    DetectedMeta {
        capabilities: caps,
        architecture: String::new(),
        context_length: 0,
        embedding_length: 0,
        parameter_count: 0,
    }
}

#[test]
fn backends_by_capability_then_format() {
    let whisper = meta(vec![Capability::Transcription]);
    assert_eq!(select_backend(ModelFormat::Gguf, &whisper), BackendHint::Whisper);
    let plain = meta(vec![Capability::Completion]);
    assert_eq!(select_backend(ModelFormat::Gguf, &plain), BackendHint::LlamaCpp);
    assert_eq!(select_backend(ModelFormat::WhisperBin, &plain), BackendHint::LlamaCpp);
    assert_eq!(select_backend(ModelFormat::Safetensors, &plain), BackendHint::Candle);
}

#[test]
fn paths_join_like_pathbuf() {
    assert_eq!(join_path("/a", "b"), "/a/b");
    assert_eq!(join_path("/a/", "b"), "/a/b");
    assert_eq!(join_path("", "b"), "b");
    assert_eq!(join_path("/a", "/etc"), "/etc");
    let store = ModelStore::new("/models".to_string());
    assert_eq!(store.manifest_path_for("org/repo:q4"), "/models/manifests/agentix/org/repo:q4/latest");
    assert_eq!(store.aliases_path(), "/models/manifests/_aliases.json");
}

#[test]
fn file_names_of_paths() {
    assert_eq!(file_name("/a/b.gguf").as_deref(), Some("b.gguf"));
    assert_eq!(file_name("/a/b/").as_deref(), Some("b"));
    assert_eq!(file_name("/a/b/.").as_deref(), Some("b"));
    assert_eq!(file_name("/a/.."), None);
    assert_eq!(file_name("/"), None);
    assert_eq!(file_name("./"), None);
}

#[test]
fn pulls_are_routed() {
    let store = ModelStore::new("/models".to_string());
    match store.pull("/tmp/ggml-tiny.bin") {
        Ok(PullSource::Local { path, name, format, manifest_path }) => {
            assert_eq!(path, "/tmp/ggml-tiny.bin");
            assert_eq!(name, "ggml-tiny.bin");
            assert_eq!(format, ModelFormat::WhisperBin);
            assert_eq!(manifest_path, "/models/manifests/agentix/ggml-tiny.bin/latest");
        }
        _ => panic!("expected a local pull"),
    }
    match store.pull("org/repo:Q4_K_M") {
        Ok(PullSource::Hub { name, .. }) => assert_eq!(name, "org/repo:Q4_K_M"),
        _ => panic!("expected a hub pull"),
    }
    match store.pull("/") {
        Err(InferError::DownloadFailed(m)) => assert_eq!(m, "invalid local path"),
        _ => panic!("expected a refusal"),
    }
}

#[test]
fn aliases_only_when_names_differ() {
    let store = ModelStore::new("/models".to_string());
    assert!(store.add_alias("m", "m", b"").is_none());
    let w = store.add_alias("mistral", "org/Mistral:Q4", br#"{"x":"y"}"#).unwrap();
    assert_eq!(w.aliases_file, "/models/manifests/_aliases.json");
    assert_eq!(w.temp_file, "/models/manifests/_aliases.json.tmp");
    assert_eq!((w.alias.as_str(), w.canonical.as_str()), ("mistral", "org/Mistral:Q4"));
    let map: std::collections::HashMap<String, String> = serde_json::from_slice(&w.contents).unwrap();
    assert_eq!(map.len(), 2);
    assert_eq!(map["mistral"], "org/Mistral:Q4");
    assert_eq!(map["x"], "y");
}

#[test]
fn manifests_name_their_blob() {
    let mut m = meta(vec![Capability::Embedding]);
    m.architecture = "bert".to_string();
    m.context_length = 512;
    let man = build_manifest("abc", 10, ModelFormat::Gguf, BackendHint::LlamaCpp, &m, "x");
    assert_eq!(man.schema_version, 2);
    assert_eq!(man.layers.len(), 1);
    assert_eq!(man.layers[0].digest, "sha256:abc");
    assert_eq!(man.layers[0].size, 10);
    assert_eq!(man.config.digest, "sha256:abc");
    let ext = man._agentix.as_ref().unwrap();
    assert_eq!(ext.architecture.as_deref(), Some("bert"));
    assert_eq!(ext.context_length, Some(512));
    assert_eq!(ext.embedding_length, None);
    assert_eq!(ext.parameter_count, None);
    let store = ModelStore::new("/models".to_string());
    assert_eq!(store.resolve(&man).as_deref(), Some("abc"));
}

fn layer(t: &str, d: &str) -> ManifestLayer {
    ManifestLayer { media_type: t.to_string(), digest: d.to_string(), size: 0, from: None }
}

#[test]
fn resolve_takes_the_first_weights_layer() {
    let store = ModelStore::new("/m".to_string());
    let mut man: Manifest = build_manifest("x", 1, ModelFormat::Gguf, BackendHint::LlamaCpp, &meta(vec![]), "n");
    man.layers = vec![
        layer("application/vnd.ollama.image.license", "sha256:lic"),
        layer("application/vnd.ollama.image.tensor", "md5:zz"),
        layer("application/vnd.ollama.image.model", "sha256:later"),
    ];
    assert_eq!(store.resolve(&man), None);
    man.layers.remove(1);
    assert_eq!(store.resolve(&man).as_deref(), Some("later"));
    assert_eq!(digest_hash("sha256:ff"), "ff");
    assert_eq!(digest_hash("ff"), "ff");
}

fn pair(a: &str, b: &str) -> (String, String) {
    (a.to_string(), b.to_string())
}

#[test]
fn manifest_lookup_tries_name_then_alias() {
    let store = ModelStore::new("/models".to_string());
    let aliases = vec![pair("mistral", "org/Mistral:Q4"), pair("tiny", "ggml-tiny.bin")];
    assert_eq!(
        store.manifest_candidates("mistral", &aliases),
        vec![
            "/models/manifests/agentix/mistral/latest".to_string(),
            "/models/manifests/agentix/org/Mistral:Q4/latest".to_string(),
        ]
    );
    assert_eq!(
        store.manifest_candidates("other", &aliases),
        vec!["/models/manifests/agentix/other/latest".to_string()]
    );
}

#[test]
fn registering_an_alias_replaces_its_old_target() {
    let aliases = vec![pair("a", "x"), pair("b", "y")];
    let updated = aliases_with(&aliases, "a", "z");
    assert_eq!(updated, vec![pair("b", "y"), pair("a", "z")]);
    let store = ModelStore::new("/m".to_string());
    assert_eq!(
        store.manifest_candidates("a", &updated),
        vec!["/m/manifests/agentix/a/latest".to_string(), "/m/manifests/agentix/z/latest".to_string()]
    );
    assert_eq!(aliases_with(&[], "n", "c"), vec![pair("n", "c")]);
}

fn manifest_with(digests: &[&str]) -> Manifest {
    let meta = DetectedMeta {
        capabilities: vec![],
        architecture: String::new(),
        context_length: 0,
        embedding_length: 0,
        parameter_count: 0,
    };
    let mut m = build_manifest("cfg", 1, ModelFormat::Gguf, BackendHint::LlamaCpp, &meta, "x");
    m.layers = digests
        .iter()
        .map(|d| ManifestLayer {
            media_type: "application/vnd.ollama.image.model".to_string(),
            digest: d.to_string(),
            size: 1,
            from: None,
        })
        .collect();
    m
}

#[test]
fn removal_frees_only_unshared_blobs() {
    let removed = manifest_with(&["sha256:aaa", "sha256:bbb", "ccc"]);
    let others = vec![manifest_with(&["sha256:bbb"]), manifest_with(&["sha256:ddd"])];
    assert_eq!(
        blobs_freed_by_removal(&removed, &others),
        vec!["aaa".to_string(), "ccc".to_string()]
    );
    assert_eq!(
        blobs_freed_by_removal(&removed, &[]),
        vec!["aaa".to_string(), "bbb".to_string(), "ccc".to_string()]
    );
}

#[test]
fn manifest_paths_give_back_model_names() {
    let store = ModelStore::new("/models".to_string());
    let p = store.manifest_path_for("org/repo:Q4_K_M");
    assert_eq!(store.manifest_name(&p), Some("org/repo:Q4_K_M".to_string()));
    assert_eq!(
        store.manifest_name("/models/manifests/agentix/tiny.gguf/latest"),
        Some("tiny.gguf".to_string())
    );
    // Files outside manifests/agentix, or directly in it, name no model.
    assert_eq!(store.manifest_name("/models/manifests/_aliases.json"), None);
    assert_eq!(store.manifest_name("/models/manifests/agentix/latest"), None);
    assert_eq!(store.manifest_name("/elsewhere/x/latest"), None);
}
