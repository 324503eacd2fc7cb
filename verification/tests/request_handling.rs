use agentix::api::{ResponseInputContent, ResponseInputItem, ResponseInputPart, ResponseOutputContent};
use agentix::infer::{Capability, InferError};
use agentix::serve::{
    build_messages, embed_error_response, embedding_request, responses_messages, responses_response,
    stop_sequences, transcription_error_response, transcription_target,
    ContentPart, InputValue, MessageContent,
};

#[test]
fn chat_messages_are_flattened_in_order() {
    let msgs = vec![
        ("system".to_string(), MessageContent::Text("be brief".to_string())),
        (
            "user".to_string(),
            MessageContent::Parts(vec![
                ContentPart { part_type: Some("text".to_string()), text: Some("hi ".to_string()) },
                ContentPart { part_type: Some("image_url".to_string()), text: None },
                ContentPart { part_type: Some("text".to_string()), text: Some("there".to_string()) },
            ]),
        ),
    ];
    let out = build_messages(&msgs).unwrap();
    assert_eq!(out.len(), 2);
    assert_eq!(out[0].role, "system");
    assert_eq!(out[0].content, "be brief");
    assert_eq!(out[1].role, "user");
    assert_eq!(out[1].content, "hi there");
}

#[test]
fn image_only_message_refuses_the_request() {
    let msgs = vec![
        ("user".to_string(), MessageContent::Text("ok".to_string())),
        (
            "user".to_string(),
            MessageContent::Parts(vec![ContentPart {
                part_type: Some("image".to_string()),
                text: None,
            }]),
        ),
        ("user".to_string(), MessageContent::Text("later".to_string())),
    ];
    let err = build_messages(&msgs).unwrap_err();
    assert_eq!(err, "request contains only image content; vision not yet supported");
}

#[test]
fn no_messages_is_no_error() {
    assert!(build_messages(&[]).unwrap().is_empty());
}

#[test]
fn stop_sequences_come_from_an_array_only() {
    let arr = Some(InputValue::Array(vec![Some("###".to_string()), None, Some("END".to_string())]));
    assert_eq!(stop_sequences(&arr), vec!["###".to_string(), "END".to_string()]);
    assert!(stop_sequences(&Some(InputValue::Text("###".to_string()))).is_empty());
    assert!(stop_sequences(&Some(InputValue::Other)).is_empty());
    assert!(stop_sequences(&None).is_empty());
}

#[test]
fn transcription_without_file_is_a_bad_request() {
    let r = transcription_target(None, Some("m".to_string()), None);
    assert_eq!(r, Err((400, "missing required field: file".to_string())));
}

#[test]
fn transcription_without_any_model_is_unavailable() {
    let r = transcription_target(Some(10), None, None);
    assert_eq!(
        r,
        Err((503, "no whisper model is loaded — pull one first with POST /api/pull".to_string()))
    );
    // The missing model is reported before the empty file.
    let r = transcription_target(Some(0), None, None);
    assert_eq!(r.unwrap_err().0, 503);
}

#[test]
fn transcription_of_empty_audio_is_unprocessable() {
    let r = transcription_target(Some(0), Some("base".to_string()), None);
    assert_eq!(r, Err((422, "audio file is empty".to_string())));
}

#[test]
fn transcription_picks_requested_then_first_loaded_model() {
    assert_eq!(
        transcription_target(Some(5), Some("small".to_string()), Some("base".to_string())),
        Ok("small".to_string())
    );
    assert_eq!(transcription_target(Some(5), None, Some("base".to_string())), Ok("base".to_string()));
}

#[test]
fn transcription_failures_are_answered() {
    assert_eq!(
        transcription_error_response("tiny", &InferError::ModelNotFound("tiny".to_string())),
        (404, Some("model 'tiny' not found — pull it first with POST /api/pull".to_string()))
    );
    assert_eq!(
        transcription_error_response(
            "x",
            &InferError::CapabilityMissing("llama".to_string(), Capability::Transcription)
        ),
        (422, Some("model 'llama' does not support transcription".to_string()))
    );
    assert_eq!(
        transcription_error_response("x", &InferError::Transcription("boom".to_string())),
        (422, Some("transcription failed: boom".to_string()))
    );
    assert_eq!(
        transcription_error_response("x", &InferError::Io("disk".to_string())),
        (500, None)
    );
}

#[test]
fn embedding_requests_need_a_model_then_text() {
    let text = InputValue::Text("hello".to_string());
    assert_eq!(
        embedding_request(None, &text),
        Err((400, "missing 'model' field".to_string()))
    );
    assert_eq!(
        embedding_request(Some("e".to_string()), &InputValue::Other),
        Err((400, "input must be string or array".to_string()))
    );
    assert_eq!(
        embedding_request(Some("e".to_string()), &InputValue::Array(vec![None])),
        Err((400, "input must be string or array".to_string()))
    );
    assert_eq!(
        embedding_request(Some("e".to_string()), &text),
        Ok(("e".to_string(), vec!["hello".to_string()]))
    );
}

#[test]
fn embedding_failures_are_answered() {
    assert_eq!(
        embed_error_response(&InferError::ModelNotFound("e".to_string())),
        (404, Some("model not in local store".to_string()))
    );
    assert_eq!(embed_error_response(&InferError::Backend("x".to_string())), (500, None));
}

#[test]
fn responses_input_becomes_chat_messages() {
    let input = vec![
        ResponseInputItem {
            role: "developer".to_string(),
            content: ResponseInputContent::Text("Answer in JSON.".to_string()),
        },
        ResponseInputItem {
            role: "user".to_string(),
            content: ResponseInputContent::Parts(vec![
                ResponseInputPart { part_type: "input_text".to_string(), text: Some("Hello, ".to_string()) },
                ResponseInputPart { part_type: "input_image".to_string(), text: Some("ignored".to_string()) },
                ResponseInputPart { part_type: "input_text".to_string(), text: Some("world".to_string()) },
            ]),
        },
        ResponseInputItem {
            role: "assistant".to_string(),
            content: ResponseInputContent::Text("ok".to_string()),
        },
    ];
    let msgs = responses_messages(&input);
    let pairs: Vec<(&str, &str)> = msgs.iter().map(|m| (m.role.as_str(), m.content.as_str())).collect();
    assert_eq!(
        pairs,
        vec![("system", "Answer in JSON."), ("user", "Hello, world"), ("assistant", "ok")]
    );
}

#[test]
fn responses_answer_shape() {
    let r = responses_response("qwen", ResponseOutputContent::OutputText { text: "{}".to_string() });
    assert_eq!(r.object, "response");
    assert_eq!(r.model, "qwen");
    assert!(r.id.starts_with("resp_") && r.id.len() == 41);
    assert_eq!(r.output.len(), 1);
    let m = &r.output[0];
    assert_eq!((m.msg_type.as_str(), m.role.as_str(), m.status.as_str()), ("message", "assistant", "completed"));
    assert!(m.id.starts_with("msg_") && m.id.len() == 40);
    assert_eq!(r.output_text, "{}");
    let refused = responses_response("qwen", ResponseOutputContent::Refusal { refusal: "no".to_string() });
    assert_eq!(refused.output_text, "");
    assert!(matches!(&refused.output[0].content[0], ResponseOutputContent::Refusal { refusal } if refusal == "no"));
    // Every answer gets its own id.
    assert_ne!(r.id, refused.id);
}
