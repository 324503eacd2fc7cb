//! Wire types of the OpenAI-compatible API served by the daemons. Their JSON
//! forms are given by the application layer.
use vstd::prelude::*;

verus! {

/// The kind of output a client asks for.
#[derive(Debug, Clone, PartialEq, Eq, Structural)]
pub enum ResponseFormatType {
    JsonObject,
    JsonSchema,
    Text,
    /// Any other kind.
    Unknown,
}

/// The content of an input item: plain text or a list of parts.
#[derive(Debug, Clone)]
pub enum ResponseInputContent {
    Text(String),
    Parts(Vec<ResponseInputPart>),
}

/// One part of an input item.
#[derive(Debug, Clone)]
pub struct ResponseInputPart {
    pub part_type: String,
    pub text: Option<String>,
}

/// One input item of a Responses API request.
#[derive(Debug, Clone)]
pub struct ResponseInputItem {
    pub role: String,
    pub content: ResponseInputContent,
}

/// One piece of output content.
#[derive(Debug, Clone)]
pub enum ResponseOutputContent {
    OutputText { text: String },
    Refusal { refusal: String },
}

/// One output message of a Responses API response.
#[derive(Debug, Clone)]
pub struct ResponseOutputMessage {
    pub msg_type: String,
    pub id: String,
    pub role: String,
    pub status: String,
    pub content: Vec<ResponseOutputContent>,
}

/// A Responses API response.
#[derive(Debug, Clone)]
pub struct ResponsesResponse {
    pub id: String,
    pub object: String,
    pub model: String,
    pub output: Vec<ResponseOutputMessage>,
    pub output_text: String,
}

/// The answer to a transcription request.
#[derive(Debug, Clone)]
pub struct TranscriptionResponse {
    pub text: String,
}

/// The only valid path to a cloud backend: all three fields are mandatory.
#[derive(Debug, Clone)]
pub struct EscalationRequest {
    /// What the local model already knows about this problem.
    pub context: String,
    /// A precise, specific question that cannot be answered from local sources.
    pub question: String,
    /// Why local sources are insufficient for this question.
    pub local_insufficiency_reason: String,
}

} // verus!
