//! Inference vocabulary shared by the backends: model formats, backends,
//! capabilities, requests and streamed results, and the errors of the engine.
use vstd::prelude::*;

use crate::text::{chars_of, ends_with_text, string_of};

verus! {

// ── Enums ────────────────────────────────────────────────────────────────────

#[derive(Debug, Clone, Copy, PartialEq, Eq, Structural)]
/// The file format of a model.
pub enum ModelFormat {
    Gguf,
    Safetensors,
    /// Legacy ggml binary format used by whisper.cpp `ggml-*.bin` files.
    WhisperBin,
}

#[derive(Debug, Clone, Copy, PartialEq, Eq, Structural)]
/// The backend that serves a model.
pub enum BackendHint {
    LlamaCpp,
    Candle,
    Whisper,
}

#[derive(Debug, Clone, Copy, PartialEq, Eq, Structural)]
/// What a model can do.
pub enum Capability {
    Completion,
    Embedding,
    Vision,
    Transcription,
}

#[derive(Debug, Clone, Copy, PartialEq, Eq, Structural)]
/// Why a completion stopped.
pub enum FinishReason {
    Stop,
    Length,
    Error,
}

// ── Structs ──────────────────────────────────────────────────────────────────

/// Configuration of an inference engine.
#[derive(Debug, Clone)]
pub struct InferConfig {
    /// Directory of the model store.
    pub models_dir: String,
    pub vram_limit_bytes: Option<u64>,
    pub max_loaded_models: usize,
    pub max_ctx: u32,
}

impl InferConfig {
    /// A configuration with the given settings.
    pub fn new(
        models_dir: String,
        vram_limit_bytes: Option<u64>,
        max_loaded_models: usize,
        max_ctx: u32,
    ) -> (r: Self)
        ensures
            r.models_dir@ == models_dir@,
            r.vram_limit_bytes == vram_limit_bytes,
            r.max_loaded_models == max_loaded_models,
            r.max_ctx == max_ctx,
    {
        InferConfig { models_dir, vram_limit_bytes, max_loaded_models, max_ctx }
    }
}

impl Default for InferConfig {
    /// The store under `/var/lib/agentix/models`, no VRAM limit, two models
    /// in memory at most, and a context window of 32768 tokens.
    fn default() -> (r: Self)
        ensures
            r.models_dir@ == "/var/lib/agentix/models"@,
            r.vram_limit_bytes is None,
            r.max_loaded_models == 2,
            r.max_ctx == 32768,
    {
        let d = chars_of("/var/lib/agentix/models");
        InferConfig {
            models_dir: string_of(&d),
            vram_limit_bytes: None,
            max_loaded_models: 2,
            max_ctx: 32768,
        }
    }
}

/// What the store knows of a model.
#[derive(Debug, Clone)]
pub struct ModelInfo {
    pub name: String,
    pub architecture: String,
    pub format: ModelFormat,
    pub backend: BackendHint,
    pub context_length: u32,
    pub embedding_length: u32,
    pub capabilities: Vec<Capability>,
    pub quantization: Option<String>,
    pub parameter_count: u64,
    pub size_bytes: u64,
}

/// A constraint on what a completion may generate.
#[derive(Debug, Clone)]
pub enum GrammarConstraint {
    Gbnf(String),
}

/// One message of a chat.
#[derive(Debug, Clone)]
pub struct CompletionMessage {
    pub role: String,
    pub content: String,
}

impl CompletionMessage {
    /// A message from `role` with the text `content`.
    pub fn new(role: &str, content: &str) -> (r: Self)
        ensures
            r.role@ == role@,
            r.content@ == content@,
    {
        let rv = chars_of(role);
        let cv = chars_of(content);
        CompletionMessage { role: string_of(&rv), content: string_of(&cv) }
    }
}

/// One piece of a streamed completion.
#[derive(Debug, Clone)]
pub struct CompletionChunk {
    pub delta: String,
    pub finish_reason: Option<FinishReason>,
}

impl CompletionChunk {
    /// A chunk carrying `delta`, and the finish reason of the last one.
    pub fn new(delta: String, finish_reason: Option<FinishReason>) -> (r: Self)
        ensures
            r.delta@ == delta@,
            r.finish_reason == finish_reason,
    {
        CompletionChunk { delta, finish_reason }
    }
}

/// What can go wrong in the inference engine.
#[derive(Debug, Clone)]
pub enum InferError {
    ModelNotFound(String),
    DownloadFailed(String),
    Manifest(String),
    Backend(String),
    Transcription(String),
    /// The model named (possibly empty) lacks the capability.
    CapabilityMissing(String, Capability),
    ContextExceeded { prompt_tokens: u32, max_new_tokens: u32, context_window: u32 },
    Io(String),
}

// ── Formats and backends ──────────────────────────────────────────────────────

/// The format of a model file, from its file name; GGUF unless the name
/// says otherwise.
pub open spec fn spec_detect_format(name: Seq<char>) -> ModelFormat {
    if crate::text::has_suffix(name, ".gguf"@) {
        ModelFormat::Gguf
    } else if crate::text::has_suffix(name, ".safetensors"@) {
        ModelFormat::Safetensors
    } else if crate::text::has_suffix(name, ".bin"@) {
        ModelFormat::WhisperBin
    } else {
        ModelFormat::Gguf
    }
}

/// The format of the model file named `filename`.
pub fn detect_format(filename: &str) -> (r: ModelFormat)
    ensures
        r == spec_detect_format(filename@),
{
    let v = chars_of(filename);
    if ends_with_text(&v, ".gguf") {
        ModelFormat::Gguf
    } else if ends_with_text(&v, ".safetensors") {
        ModelFormat::Safetensors
    } else if ends_with_text(&v, ".bin") {
        ModelFormat::WhisperBin
    } else {
        ModelFormat::Gguf
    }
}

/// Metadata read from a model file.
#[derive(Debug, Clone)]
pub struct DetectedMeta {
    pub capabilities: Vec<Capability>,
    pub architecture: String,
    pub context_length: u32,
    pub embedding_length: u32,
    pub parameter_count: u64,
}

/// The backend that serves a model: Whisper for anything that transcribes
/// (both llama.cpp and Whisper read GGUF), else by format.
pub open spec fn spec_select_backend(format: ModelFormat, caps: Seq<Capability>) -> BackendHint {
    if caps.contains(Capability::Transcription) {
        BackendHint::Whisper
    } else {
        match format {
            ModelFormat::Gguf | ModelFormat::WhisperBin => BackendHint::LlamaCpp,
            ModelFormat::Safetensors => BackendHint::Candle,
        }
    }
}

/// Whether `caps` holds `c`.
pub fn has_capability(caps: &Vec<Capability>, c: Capability) -> (r: bool)
    ensures
        r == caps@.contains(c),
{
    let mut i: usize = 0;
    while i < caps.len()
        invariant
            i <= caps.len(),
            forall|j: int| 0 <= j < i ==> caps@[j] != c,
        decreases caps.len() - i,
    {
        if caps[i] == c {
            assert(caps@[i as int] == c);
            return true;
        }
        i = i + 1;
    }
    false
}

/// The backend for a model of `format` with the detected `meta`.
pub fn select_backend(format: ModelFormat, meta: &DetectedMeta) -> (r: BackendHint)
    ensures
        r == spec_select_backend(format, meta.capabilities@),
{
    if has_capability(&meta.capabilities, Capability::Transcription) {
        return BackendHint::Whisper;
    }
    match format {
        ModelFormat::Gguf | ModelFormat::WhisperBin => BackendHint::LlamaCpp,
        ModelFormat::Safetensors => BackendHint::Candle,
    }
}

} // verus!
