//! Request handling of the local model daemons: which stored model a request
//! names, how chat content is flattened to text, how a streamed completion is
//! summed up, and how embedding and transcription requests are answered.
use vstd::prelude::*;

use crate::api::{
    ResponseInputContent, ResponseInputItem, ResponseInputPart, ResponseOutputContent,
    ResponseOutputMessage, ResponsesResponse,
};
use crate::infer::{
    Capability, CompletionChunk, CompletionMessage, FinishReason, InferError, ModelFormat,
};
use crate::store::last_slash;
use crate::text::{
    chars_eq, chars_of, copy_range, ends_with, extend_chars, has_prefix, has_suffix, is_text, string_of,
    string_opt, string_views, trim, trim_bounds,
};

verus! {

broadcast use vstd::seq_lib::group_seq_properties;

// ── Finishing a completion ────────────────────────────────────────────────────

/// The wire name of a finish reason.
pub open spec fn finish_name(r: FinishReason) -> Seq<char> {
    match r {
        FinishReason::Stop => "stop"@,
        FinishReason::Length => "length"@,
        FinishReason::Error => "error"@,
    }
}

/// The wire name of `r`.
pub fn finish_reason_name(r: FinishReason) -> (s: &'static str)
    ensures
        s@ == finish_name(r),
{
    match r {
        FinishReason::Stop => "stop",
        FinishReason::Length => "length",
        FinishReason::Error => "error",
    }
}

/// The text of the chunks, in order.
pub open spec fn deltas(cs: Seq<CompletionChunk>) -> Seq<char>
    decreases cs.len(),
{
    if cs.len() == 0 {
        Seq::empty()
    } else {
        deltas(cs.drop_last()) + cs.last().delta@
    }
}

/// The finish reason of a completion: the last one a chunk gives, `stop`
/// when none does.
pub open spec fn final_reason(cs: Seq<CompletionChunk>) -> Seq<char>
    decreases cs.len(),
{
    if cs.len() == 0 {
        "stop"@
    } else {
        match cs.last().finish_reason {
            Some(r) => finish_name(r),
            None => final_reason(cs.drop_last()),
        }
    }
}

/// Sums up a streamed completion: its full text and its finish reason.
pub fn collect_completion(chunks: &[CompletionChunk]) -> (r: (String, &'static str))
    ensures
        r.0@ == deltas(chunks@),
        r.1@ == final_reason(chunks@),
{
    let mut text: Vec<char> = Vec::new();
    let mut reason: &'static str = "stop";
    let mut i: usize = 0;
    while i < chunks.len()
        invariant
            i <= chunks.len(),
            text@ == deltas(chunks@.take(i as int)),
            reason@ == final_reason(chunks@.take(i as int)),
        decreases chunks.len() - i,
    {
        let c = &chunks[i];
        let d = chars_of(c.delta.as_str());
        extend_chars(&mut text, &d);
        if let Some(r) = c.finish_reason {
            reason = finish_reason_name(r);
        }
        proof {
            assert(chunks@.take(i + 1).drop_last() =~= chunks@.take(i as int));
        }
        i = i + 1;
    }
    assert(chunks@.take(i as int) =~= chunks@);
    (string_of(&text), reason)
}

/// A stream error is the client's fault (400) when the request does not fit
/// the context window; any other is the server's (500).
pub fn stream_error_status(e: &InferError) -> (r: u16)
    ensures
        r == (if e is ContextExceeded {
            400u16
        } else {
            500u16
        }),
{
    match e {
        InferError::ContextExceeded { .. } => 400,
        _ => 500,
    }
}

// ── Naming a stored model ─────────────────────────────────────────────────────

/// The request with each `':'` read as `'/'`.
pub open spec fn colon_as_slash(s: Seq<char>) -> Seq<char> {
    s.map_values(|c: char| if c == ':' { '/' } else { c })
}

/// The part of `s` after its last `'/'` (all of it when there is none).
pub open spec fn last_segment(s: Seq<char>) -> Seq<char> {
    s.skip(last_slash(s) + 1)
}

/// A stored name answers a request when it ends with the request (as given
/// or with `':'` read as `'/'`), or its last segment is the request.
pub open spec fn answers(stored: Seq<char>, req: Seq<char>) -> bool {
    let n = colon_as_slash(req);
    ||| has_suffix(stored, n)
    ||| has_suffix(stored, req)
    ||| last_segment(stored) == req
    ||| last_segment(stored) == n
}

/// The first of `stored[i..]` that answers `req`.
pub open spec fn first_answer(stored: Seq<Seq<char>>, req: Seq<char>, i: int) -> Option<Seq<char>>
    decreases stored.len() - i,
{
    if i < 0 || i >= stored.len() {
        None
    } else if answers(stored[i], req) {
        Some(stored[i])
    } else {
        first_answer(stored, req, i + 1)
    }
}

/// The model a request names: itself when the store knows it, else the
/// first stored model that answers it.
pub open spec fn resolve_model_spec(req: Seq<char>, known: bool, stored: Seq<Seq<char>>) -> Option<
    Seq<char>,
> {
    if known {
        Some(req)
    } else {
        first_answer(stored, req, 0)
    }
}

fn colon_to_slash(v: &Vec<char>) -> (r: Vec<char>)
    ensures
        r@ == colon_as_slash(v@),
{
    let mut out: Vec<char> = Vec::new();
    let mut i: usize = 0;
    while i < v.len()
        invariant
            i <= v.len(),
            out@ == colon_as_slash(v@.take(i as int)),
        decreases v.len() - i,
    {
        if v[i] == ':' {
            out.push('/');
        } else {
            out.push(v[i]);
        }
        i = i + 1;
        assert(out@ =~= colon_as_slash(v@.take(i as int)));
    }
    assert(v@.take(i as int) =~= v@);
    out
}

fn last_segment_of(v: &Vec<char>) -> (r: Vec<char>)
    ensures
        r@ == last_segment(v@),
{
    let mut k: usize = v.len();
    while k > 0 && v[k - 1] != '/'
        invariant
            k <= v.len(),
            forall|j: int| k <= j < v.len() ==> v@[j] != '/',
        decreases k,
    {
        k = k - 1;
    }
    proof {
        crate::store::lemma_last_slash(v@);
        if k > 0 {
            assert(v@[k - 1] == '/');
            assert(last_slash(v@) == k - 1);
        } else if last_slash(v@) >= 0 {
            assert(v@[last_slash(v@)] == '/');
        }
    }
    let r = copy_range(v, k, v.len());
    assert(r@ =~= v@.skip(k as int));
    r
}

/// The stored model that the requested name `requested` refers to; `known`
/// tells whether the store knows the name itself, `stored` lists the names
/// of the stored models in order.
pub fn resolve_model(requested: &str, known: bool, stored: &[String]) -> (r: Option<String>)
    ensures
        r matches Some(s) ==> resolve_model_spec(requested@, known, string_views(stored@))
            == Some(s@),
        r is None ==> resolve_model_spec(requested@, known, string_views(stored@)) is None,
{
    let req = chars_of(requested);
    if known {
        return Some(string_of(&req));
    }
    let norm = colon_to_slash(&req);
    let ghost sv = string_views(stored@);
    let mut i: usize = 0;
    while i < stored.len()
        invariant
            i <= stored.len(),
            sv == string_views(stored@),
            !known,
            req@ == requested@,
            norm@ == colon_as_slash(requested@),
            first_answer(sv, requested@, 0) == first_answer(sv, requested@, i as int),
        decreases stored.len() - i,
    {
        let s = chars_of(stored[i].as_str());
        assert(sv[i as int] == s@);
        let seg = last_segment_of(&s);
        if ends_with(&s, &norm) || ends_with(&s, &req) || chars_eq(&seg, &req) || chars_eq(
            &seg,
            &norm,
        ) {
            return Some(string_of(&s));
        }
        i = i + 1;
    }
    None
}

// ── Chat content ──────────────────────────────────────────────────────────────

/// One part of a structured message content: its `type` and `text` fields
/// when they are strings.
#[derive(Debug, Clone)]
pub struct ContentPart {
    pub part_type: Option<String>,
    pub text: Option<String>,
}

/// The content of a chat message as received.
#[derive(Debug, Clone)]
pub enum MessageContent {
    /// A JSON string.
    Text(String),
    /// A JSON array of parts.
    Parts(Vec<ContentPart>),
    /// Any other JSON value, as its JSON text.
    Other(String),
}

/// The part is text of type `text`.
pub open spec fn part_text(p: ContentPart) -> Seq<char> {
    match p.part_type {
        Some(t) => if t@ == "text"@ {
            match p.text {
                Some(x) => x@,
                None => Seq::empty(),
            }
        } else {
            Seq::empty()
        },
        None => Seq::empty(),
    }
}

/// The part is an image.
pub open spec fn is_image_part(p: ContentPart) -> bool {
    match p.part_type {
        Some(t) => t@ == "image_url"@ || t@ == "image"@,
        None => false,
    }
}

/// The text of the text parts, in order.
pub open spec fn parts_text(ps: Seq<ContentPart>) -> Seq<char>
    decreases ps.len(),
{
    if ps.len() == 0 {
        Seq::empty()
    } else {
        parts_text(ps.drop_last()) + part_text(ps.last())
    }
}

/// The text a message's content gives the model; content of images alone is
/// refused, images beside text are left out.
pub open spec fn normalize_spec(c: MessageContent) -> Result<Seq<char>, Seq<char>> {
    match c {
        MessageContent::Text(s) => Ok(s@),
        MessageContent::Parts(ps) => {
            let text = parts_text(ps@);
            let images = exists|i: int| 0 <= i < ps@.len() && is_image_part(#[trigger] ps@[i]);
            if images && text.len() == 0 {
                Err("request contains only image content; vision not yet supported"@)
            } else {
                Ok(text)
            }
        },
        MessageContent::Other(s) => Ok(s@),
    }
}

proof fn lemma_parts_text_empty(ps: Seq<ContentPart>)
    requires
        forall|j: int|
            0 <= j < ps.len() ==> match (#[trigger] ps[j]).part_type {
                Some(t) => t@ != "text"@ || match ps[j].text {
                    Some(x) => x@.len() == 0,
                    None => true,
                },
                None => true,
            },
    ensures
        parts_text(ps).len() == 0,
    decreases ps.len(),
{
    if ps.len() > 0 {
        let prev = ps.drop_last();
        assert forall|j: int| 0 <= j < prev.len() implies match (#[trigger] prev[j]).part_type {
            Some(t) => t@ != "text"@ || match prev[j].text {
                Some(x) => x@.len() == 0,
                None => true,
            },
            None => true,
        } by {
            assert(prev[j] == ps[j]);
        }
        lemma_parts_text_empty(prev);
        assert(ps.last() == ps[ps.len() - 1]);
    }
}

/// A message whose content has an image part (of type `image_url` or
/// `image`) and no text (no part of type `text` with a non-empty text) is
/// refused: vision is not supported, and the message is never sent on as
/// an empty prompt.
pub proof fn lemma_images_alone_are_refused(ps: Vec<ContentPart>)
    requires
        exists|i: int|
            0 <= i < ps@.len() && match (#[trigger] ps@[i]).part_type {
                Some(t) => t@ == "image"@ || t@ == "image_url"@,
                None => false,
            },
        forall|j: int|
            0 <= j < ps@.len() ==> match (#[trigger] ps@[j]).part_type {
                Some(t) => t@ != "text"@ || match ps@[j].text {
                    Some(x) => x@.len() == 0,
                    None => true,
                },
                None => true,
            },
    ensures
        normalize_spec(MessageContent::Parts(ps)) == Err::<Seq<char>, Seq<char>>(
            "request contains only image content; vision not yet supported"@,
        ),
{
    lemma_parts_text_empty(ps@);
    let i = choose|i: int|
        0 <= i < ps@.len() && match (#[trigger] ps@[i]).part_type {
            Some(t) => t@ == "image"@ || t@ == "image_url"@,
            None => false,
        };
    assert(is_image_part(ps@[i]));
}

/// The model of a `Result<String, String>`.
pub open spec fn text_outcome(r: Result<String, String>) -> Result<Seq<char>, Seq<char>> {
    match r {
        Ok(s) => Ok(s@),
        Err(e) => Err(e@),
    }
}

fn text_of_part(p: &ContentPart) -> (r: Vec<char>)
    ensures
        r@ == part_text(*p),
{
    match &p.part_type {
        Some(t) => {
            let tv = chars_of(t.as_str());
            if is_text(&tv, "text") {
                match &p.text {
                    Some(x) => chars_of(x.as_str()),
                    None => Vec::new(),
                }
            } else {
                Vec::new()
            }
        },
        None => Vec::new(),
    }
}

fn is_image(p: &ContentPart) -> (r: bool)
    ensures
        r == is_image_part(*p),
{
    match &p.part_type {
        Some(t) => {
            let tv = chars_of(t.as_str());
            is_text(&tv, "image_url") || is_text(&tv, "image")
        },
        None => false,
    }
}

/// Flattens a message's content to text (see [`normalize_spec`]).
pub fn normalize_content(content: &MessageContent) -> (r: Result<String, String>)
    ensures
        text_outcome(r) == normalize_spec(*content),
{
    match content {
        MessageContent::Text(s) => Ok(s.clone()),
        MessageContent::Other(s) => Ok(s.clone()),
        MessageContent::Parts(parts) => {
            let mut text: Vec<char> = Vec::new();
            let mut has_images = false;
            let mut i: usize = 0;
            while i < parts.len()
                invariant
                    i <= parts.len(),
                    text@ == parts_text(parts@.take(i as int)),
                    has_images == exists|j: int| 0 <= j < i && is_image_part(#[trigger] parts@[j]),
                decreases parts.len() - i,
            {
                let p = &parts[i];
                let piece = text_of_part(p);
                let img = is_image(p);
                let ghost before = has_images;
                if img {
                    has_images = true;
                }
                proof {
                    if img {
                        assert(is_image_part(parts@[i as int]));
                    } else {
                        assert forall|j: int| 0 <= j < i + 1 && is_image_part(#[trigger] parts@[j]) implies j < i by {}
                    }
                }
                assert(piece@ == part_text(parts@[i as int]));
                extend_chars(&mut text, &piece);
                proof {
                    assert(parts@.take(i + 1).drop_last() =~= parts@.take(i as int));
                }
                i = i + 1;
            }
            assert(parts@.take(i as int) =~= parts@);
            if has_images && text.len() == 0 {
                let m = chars_of("request contains only image content; vision not yet supported");
                Err(string_of(&m))
            } else {
                Ok(string_of(&text))
            }
        },
    }
}

// ── Embedding inputs ──────────────────────────────────────────────────────────

/// The `input` of an embedding request as received.
#[derive(Debug, Clone)]
pub enum InputValue {
    /// A JSON string.
    Text(String),
    /// A JSON array; each element's text when it is a string.
    Array(Vec<Option<String>>),
    /// Any other JSON value.
    Other,
}

/// The strings among `xs`, in order.
pub open spec fn present(xs: Seq<Option<String>>) -> Seq<Seq<char>>
    decreases xs.len(),
{
    if xs.len() == 0 {
        Seq::empty()
    } else {
        match xs.last() {
            Some(s) => present(xs.drop_last()).push(s@),
            None => present(xs.drop_last()),
        }
    }
}

/// The texts to embed: a string alone, the strings of an array, else none.
pub open spec fn inputs_spec(v: InputValue) -> Seq<Seq<char>> {
    match v {
        InputValue::Text(s) => seq![s@],
        InputValue::Array(xs) => present(xs@),
        InputValue::Other => Seq::empty(),
    }
}

/// The texts to embed (see [`inputs_spec`]).
pub fn collect_inputs(value: &InputValue) -> (r: Vec<String>)
    ensures
        string_views(r@) == inputs_spec(*value),
{
    let mut out: Vec<String> = Vec::new();
    match value {
        InputValue::Text(s) => {
            out.push(s.clone());
            assert(string_views(out@) =~= seq![s@]);
        },
        InputValue::Array(xs) => {
            let mut i: usize = 0;
            while i < xs.len()
                invariant
                    i <= xs.len(),
                    string_views(out@) == present(xs@.take(i as int)),
                decreases xs.len() - i,
            {
                proof {
                    assert(xs@.take(i + 1).drop_last() =~= xs@.take(i as int));
                }
                if let Some(s) = &xs[i] {
                    let c = s.clone();
                    proof {
                        crate::text::lemma_string_views_push(out@, c);
                    }
                    out.push(c);
                }
                i = i + 1;
            }
            assert(xs@.take(i as int) =~= xs@);
        },
        InputValue::Other => {
            assert(string_views(out@) =~= Seq::<Seq<char>>::empty());
        },
    }
    out
}

/// The stop sequences of a chat request: the strings of its `stop` array;
/// none when the field is absent or not an array.
pub open spec fn stop_spec(v: Option<InputValue>) -> Seq<Seq<char>> {
    match v {
        Some(InputValue::Array(xs)) => present(xs@),
        _ => Seq::empty(),
    }
}

/// The stop sequences of a chat request (see [`stop_spec`]).
pub fn stop_sequences(value: &Option<InputValue>) -> (r: Vec<String>)
    ensures
        string_views(r@) == stop_spec(*value),
{
    match value {
        Some(v @ InputValue::Array(_)) => collect_inputs(v),
        _ => {
            let out: Vec<String> = Vec::new();
            assert(string_views(out@) =~= Seq::<Seq<char>>::empty());
            out
        },
    }
}

/// The messages of a chat request, each flattened to text; the first
/// message whose content is refused decides the error.
pub open spec fn messages_spec(ms: Seq<(Seq<char>, MessageContent)>) -> Result<
    Seq<(Seq<char>, Seq<char>)>,
    Seq<char>,
>
    decreases ms.len(),
{
    if ms.len() == 0 {
        Ok(Seq::empty())
    } else {
        match messages_spec(ms.drop_last()) {
            Err(e) => Err(e),
            Ok(done) => match normalize_spec(ms.last().1) {
                Err(e) => Err(e),
                Ok(t) => Ok(done.push((ms.last().0, t))),
            },
        }
    }
}

/// The model of a chat message as received: its role and content.
pub open spec fn wire_message_views(ms: Seq<(String, MessageContent)>) -> Seq<(Seq<char>, MessageContent)> {
    Seq::new(ms.len(), |i: int| (ms[i].0@, ms[i].1))
}

/// The model of completion messages: role and text.
pub open spec fn message_views(ms: Seq<crate::infer::CompletionMessage>) -> Seq<(Seq<char>, Seq<char>)> {
    Seq::new(ms.len(), |i: int| (ms[i].role@, ms[i].content@))
}

/// The outcome of [`build_messages`] as a model.
pub open spec fn messages_outcome(r: Result<Vec<crate::infer::CompletionMessage>, String>) -> Result<
    Seq<(Seq<char>, Seq<char>)>,
    Seq<char>,
> {
    match r {
        Ok(v) => Ok(message_views(v@)),
        Err(e) => Err(e@),
    }
}

/// The completion messages of a chat request (see [`messages_spec`]).
pub fn build_messages(messages: &[(String, MessageContent)]) -> (r: Result<
    Vec<crate::infer::CompletionMessage>,
    String,
>)
    ensures
        messages_outcome(r) == messages_spec(wire_message_views(messages@)),
{
    let mut out: Vec<crate::infer::CompletionMessage> = Vec::new();
    let mut i: usize = 0;
    assert(wire_message_views(messages@).take(0) =~= Seq::<(Seq<char>, MessageContent)>::empty());
    assert(message_views(out@) =~= Seq::<(Seq<char>, Seq<char>)>::empty());
    while i < messages.len()
        invariant
            i <= messages.len(),
            messages_spec(wire_message_views(messages@).take(i as int)) == Ok::<
                Seq<(Seq<char>, Seq<char>)>,
                Seq<char>,
            >(message_views(out@)),
        decreases messages.len() - i,
    {
        let ghost ws = wire_message_views(messages@);
        proof {
            assert(ws.take(i + 1).drop_last() =~= ws.take(i as int));
            assert(ws.take(i + 1).last() == ws[i as int]);
        }
        let (role, content) = &messages[i];
        assert(ws[i as int] == (role@, *content));
        match normalize_content(content) {
            Ok(text) => {
                let ghost before = out@;
                let ghost t = text@;
                let m = crate::infer::CompletionMessage { role: role.clone(), content: text };
                out.push(m);
                assert(message_views(out@) =~= message_views(before).push((role@, t)));
            },
            Err(e) => {
                proof {
                    lemma_messages_err_stays(ws, i as int + 1);
                    assert(ws.take(i + 1).take(i + 1) =~= ws.take(i + 1));
                }
                return Err(e);
            },
        }
        i = i + 1;
    }
    assert(wire_message_views(messages@).take(i as int) =~= wire_message_views(messages@));
    Ok(out)
}

/// Once a prefix of the messages is refused, every longer prefix is refused
/// with the same error.
proof fn lemma_messages_err_stays(ms: Seq<(Seq<char>, MessageContent)>, k: int)
    requires
        0 <= k <= ms.len(),
        messages_spec(ms.take(k)) is Err,
    ensures
        messages_spec(ms) == messages_spec(ms.take(k)),
    decreases ms.len() - k,
{
    if k < ms.len() {
        assert(ms.take(k + 1).drop_last() =~= ms.take(k));
        lemma_messages_err_stays(ms, k + 1);
    } else {
        assert(ms.take(k) =~= ms);
    }
}

/// How an embedding request is answered before the model runs: the model
/// and the texts to embed, or the refusal (400) of a request without a
/// model, then of one without any text.
pub open spec fn embedding_request_spec(model: Option<Seq<char>>, input: InputValue) -> Result<
    (Seq<char>, Seq<Seq<char>>),
    (u16, Seq<char>),
> {
    match model {
        None => Err((400u16, "missing 'model' field"@)),
        Some(m) => if inputs_spec(input).len() == 0 {
            Err((400u16, "input must be string or array"@))
        } else {
            Ok((m, inputs_spec(input)))
        },
    }
}

/// The model of an answer to an embedding request.
pub open spec fn embedding_outcome(r: Result<(String, Vec<String>), (u16, String)>) -> Result<
    (Seq<char>, Seq<Seq<char>>),
    (u16, Seq<char>),
> {
    match r {
        Ok((m, xs)) => Ok((m@, string_views(xs@))),
        Err((c, e)) => Err((c, e@)),
    }
}

/// Decides how an embedding request is answered before the model runs
/// (see [`embedding_request_spec`]); `model` is the request's `model`
/// field when it is a string.
pub fn embedding_request(model: Option<String>, input: &InputValue) -> (r: Result<
    (String, Vec<String>),
    (u16, String),
>)
    ensures
        embedding_outcome(r) == embedding_request_spec(string_opt(model), *input),
{
    match model {
        None => {
            let m = chars_of("missing 'model' field");
            Err((400, string_of(&m)))
        },
        Some(m) => {
            let inputs = collect_inputs(input);
            if inputs.len() == 0 {
                let e = chars_of("input must be string or array");
                Err((400, string_of(&e)))
            } else {
                Ok((m, inputs))
            }
        },
    }
}

/// The answer to an embedding that failed with `e`: 404 when the model is
/// not in the local store; any other error is a server fault (500), whose
/// message carries the error's own text, which is not given here.
pub open spec fn embed_error_spec(e: InferError) -> (u16, Option<Seq<char>>) {
    match e {
        InferError::ModelNotFound(_) => (404u16, Some("model not in local store"@)),
        _ => (500u16, None),
    }
}

/// The answer to a failed embedding (see [`embed_error_spec`]).
pub fn embed_error_response(e: &InferError) -> (r: (u16, Option<String>))
    ensures
        r.0 == embed_error_spec(*e).0,
        string_opt(r.1) == embed_error_spec(*e).1,
{
    match e {
        InferError::ModelNotFound(_) => {
            let m = chars_of("model not in local store");
            (404, Some(string_of(&m)))
        },
        _ => (500, None),
    }
}

// ── The Responses API ─────────────────────────────────────────────────────────

/// The role an input item of a Responses API request takes in inference:
/// `developer` becomes `system`; any other role is kept.
pub open spec fn inference_role(role: Seq<char>) -> Seq<char> {
    if role == "developer"@ {
        "system"@
    } else {
        role
    }
}

/// The text of a part: its text when it is an `input_text` part.
pub open spec fn input_part_text(p: ResponseInputPart) -> Seq<char> {
    if p.part_type@ == "input_text"@ {
        match p.text {
            Some(t) => t@,
            None => Seq::empty(),
        }
    } else {
        Seq::empty()
    }
}

/// The text of the `input_text` parts, concatenated in order.
pub open spec fn input_parts_text(ps: Seq<ResponseInputPart>) -> Seq<char>
    decreases ps.len(),
{
    if ps.len() == 0 {
        Seq::empty()
    } else {
        input_parts_text(ps.drop_last()) + input_part_text(ps.last())
    }
}

/// The text of an input item's content.
pub open spec fn input_content_text(c: ResponseInputContent) -> Seq<char> {
    match c {
        ResponseInputContent::Text(s) => s@,
        ResponseInputContent::Parts(ps) => input_parts_text(ps@),
    }
}

fn input_text_of(c: &ResponseInputContent) -> (r: String)
    ensures
        r@ == input_content_text(*c),
{
    match c {
        ResponseInputContent::Text(s) => s.clone(),
        ResponseInputContent::Parts(ps) => {
            let mut out: Vec<char> = Vec::new();
            let mut i: usize = 0;
            while i < ps.len()
                invariant
                    i <= ps.len(),
                    out@ == input_parts_text(ps@.take(i as int)),
                decreases ps.len() - i,
            {
                assert(ps@.take(i + 1).drop_last() =~= ps@.take(i as int));
                let p = &ps[i];
                let t = chars_of(p.part_type.as_str());
                if is_text(&t, "input_text") {
                    match &p.text {
                        Some(x) => {
                            let xv = chars_of(x.as_str());
                            extend_chars(&mut out, &xv);
                        },
                        None => {},
                    }
                }
                assert(out@ =~= input_parts_text(ps@.take(i + 1)));
                i = i + 1;
            }
            assert(ps@.take(i as int) =~= ps@);
            string_of(&out)
        },
    }
}

/// The chat messages of a Responses API request: one per input item, in
/// order, with the item's role for inference and its text.
pub fn responses_messages(input: &[ResponseInputItem]) -> (r: Vec<CompletionMessage>)
    ensures
        r.len() == input.len(),
        forall|i: int|
            0 <= i < input.len() ==> (#[trigger] r@[i]).role@ == inference_role(input@[i].role@)
                && r@[i].content@ == input_content_text(input@[i].content),
{
    let mut out: Vec<CompletionMessage> = Vec::new();
    let mut i: usize = 0;
    while i < input.len()
        invariant
            i <= input.len(),
            out.len() == i,
            forall|j: int|
                0 <= j < i ==> (#[trigger] out@[j]).role@ == inference_role(input@[j].role@)
                    && out@[j].content@ == input_content_text(input@[j].content),
        decreases input.len() - i,
    {
        let item = &input[i];
        let rv = chars_of(item.role.as_str());
        let role = if is_text(&rv, "developer") {
            text_string("system")
        } else {
            string_of(&rv)
        };
        let content = input_text_of(&item.content);
        out.push(CompletionMessage { role, content });
        i = i + 1;
    }
    out
}

/// The text of an output content: the text itself, or nothing for a refusal.
pub open spec fn output_text_of(c: ResponseOutputContent) -> Seq<char> {
    match c {
        ResponseOutputContent::OutputText { text } => text@,
        ResponseOutputContent::Refusal { .. } => Seq::empty(),
    }
}

/// The Responses API answer carrying `content` from `model`: a `response`
/// with a fresh `resp_` id, the model echoed, one completed assistant
/// `message` with a fresh `msg_` id holding `content`, and `output_text`
/// the text of `content` (empty for a refusal).
pub fn responses_response(model: &str, content: ResponseOutputContent) -> (r: ResponsesResponse)
    ensures
        r.object@ == "response"@,
        r.model@ == model@,
        has_prefix(r.id@, "resp_"@) && r.id@.len() == 41,
        r.output@.len() == 1,
        r.output@[0].msg_type@ == "message"@,
        has_prefix(r.output@[0].id@, "msg_"@) && r.output@[0].id@.len() == 40,
        r.output@[0].role@ == "assistant"@,
        r.output@[0].status@ == "completed"@,
        r.output@[0].content@ == seq![content],
        r.output_text@ == output_text_of(content),
{
    let output_text = match &content {
        ResponseOutputContent::OutputText { text } => text.clone(),
        ResponseOutputContent::Refusal { .. } => String::new(),
    };
    proof {
        reveal_strlit("resp_");
        reveal_strlit("msg_");
    }
    let mut contents: Vec<ResponseOutputContent> = Vec::new();
    contents.push(content);
    let message = ResponseOutputMessage {
        msg_type: text_string("message"),
        id: crate::llama::fresh_id("msg_"),
        role: text_string("assistant"),
        status: text_string("completed"),
        content: contents,
    };
    let mut output: Vec<ResponseOutputMessage> = Vec::new();
    output.push(message);
    ResponsesResponse {
        id: crate::llama::fresh_id("resp_"),
        object: text_string("response"),
        model: text_string(model),
        output,
        output_text,
    }
}

// ── Model lists ───────────────────────────────────────────────────────────────

/// Position of the first `','` at or after `i`, or `s.len()`.
pub open spec fn next_comma(s: Seq<char>, i: int) -> int
    decreases s.len() - i,
{
    if i >= s.len() {
        s.len() as int
    } else if s[i] == ',' {
        i
    } else {
        next_comma(s, i + 1)
    }
}

/// Bounds and meaning of [`next_comma`].
pub proof fn lemma_next_comma(s: Seq<char>, i: int)
    requires
        0 <= i <= s.len(),
    ensures
        i <= next_comma(s, i) <= s.len(),
        next_comma(s, i) < s.len() ==> s[next_comma(s, i)] == ',',
        forall|j: int| i <= j < next_comma(s, i) ==> s[j] != ',',
    decreases s.len() - i,
{
    if i < s.len() && s[i] != ',' {
        lemma_next_comma(s, i + 1);
    }
}

/// The pieces of `s` from `i` on, cut at each `','` (`str::split(',')`).
pub open spec fn comma_pieces_from(s: Seq<char>, i: int) -> Seq<Seq<char>>
    decreases s.len() - i,
{
    if i < 0 || i > s.len() {
        Seq::empty()
    } else {
        let j = next_comma(s, i);
        if j < s.len() {
            proof {
                lemma_next_comma(s, i);
            }
            seq![s.subrange(i, j)] + comma_pieces_from(s, j + 1)
        } else {
            seq![s.subrange(i, s.len() as int)]
        }
    }
}

/// The non-empty trimmed pieces of `ps`, in order.
pub open spec fn trimmed_nonempty(ps: Seq<Seq<char>>) -> Seq<Seq<char>>
    decreases ps.len(),
{
    if ps.len() == 0 {
        Seq::empty()
    } else {
        let rest = trimmed_nonempty(ps.drop_last());
        let t = trim(ps.last());
        if t.len() == 0 {
            rest
        } else {
            rest.push(t)
        }
    }
}

/// The models of a comma-separated list: its entries trimmed, empty ones dropped.
pub open spec fn model_list(s: Seq<char>) -> Seq<Seq<char>> {
    trimmed_nonempty(comma_pieces_from(s, 0))
}

proof fn lemma_next_comma_skip(s: Seq<char>, a: int, b: int)
    requires
        0 <= a <= b <= s.len(),
        forall|j: int| a <= j < b ==> s[j] != ',',
    ensures
        next_comma(s, a) == next_comma(s, b),
    decreases b - a,
{
    if a < b {
        lemma_next_comma_skip(s, a + 1, b);
    }
}

/// The models named in `value`, the value of a comma-separated list
/// variable (empty when unset): entries trimmed, empty ones dropped.
pub fn parse_model_list(value: &str) -> (r: Vec<String>)
    ensures
        string_views(r@) == model_list(value@),
{
    let v = chars_of(value);
    let mut out: Vec<String> = Vec::new();
    let ghost mut pieces: Seq<Seq<char>> = Seq::empty();
    let mut start: usize = 0;
    let mut i: usize = 0;
    while i < v.len()
        invariant
            start <= i <= v.len(),
            v@ == value@,
            pieces + comma_pieces_from(v@, start as int) == comma_pieces_from(v@, 0),
            string_views(out@) == trimmed_nonempty(pieces),
            forall|j: int| start <= j < i ==> v@[j] != ',',
        decreases v.len() - i,
    {
        if v[i] == ',' {
            proof {
                lemma_next_comma_skip(v@, start as int, i as int);
            }
            let piece = copy_range(&v, start, i);
            let (a, b) = trim_bounds(&piece);
            proof {
                assert(comma_pieces_from(v@, start as int) =~= seq![piece@] + comma_pieces_from(
                    v@,
                    i + 1,
                ));
                assert(pieces.push(piece@).drop_last() =~= pieces);
            }
            if a < b {
                let t = crate::text::string_of_range(&piece, a, b);
                proof {
                    crate::text::lemma_string_views_push(out@, t);
                }
                out.push(t);
            }
            proof {
                assert(pieces.push(piece@) + comma_pieces_from(v@, i + 1) =~= pieces
                    + comma_pieces_from(v@, start as int));
                pieces = pieces.push(piece@);
            }
            start = i + 1;
        }
        i = i + 1;
    }
    proof {
        lemma_next_comma_skip(v@, start as int, v.len() as int);
    }
    let piece = copy_range(&v, start, v.len());
    let (a, b) = trim_bounds(&piece);
    proof {
        assert(comma_pieces_from(v@, start as int) =~= seq![piece@]);
        assert(pieces.push(piece@).drop_last() =~= pieces);
        assert(pieces.push(piece@) =~= comma_pieces_from(v@, 0));
    }
    if a < b {
        let t = crate::text::string_of_range(&piece, a, b);
        proof {
            crate::text::lemma_string_views_push(out@, t);
        }
        out.push(t);
    }
    out
}

// ── The Whisper backend ───────────────────────────────────────────────────────

/// The in-process Whisper backend.
pub struct WhisperBackend;

impl WhisperBackend {
    /// The backend's name.
    pub fn name(&self) -> (r: &'static str)
        ensures
            r@ == "whisper"@,
    {
        "whisper"
    }

    /// Whisper reads GGUF models and legacy ggml `.bin` files.
    pub fn supports_format(&self, format: ModelFormat) -> (r: bool)
        ensures
            r == (format == ModelFormat::Gguf || format == ModelFormat::WhisperBin),
    {
        match format {
            ModelFormat::Gguf | ModelFormat::WhisperBin => true,
            ModelFormat::Safetensors => false,
        }
    }

    /// The refusal of a request for anything but transcription.
    pub fn missing(&self, wanted: Capability) -> (r: InferError)
        ensures
            r matches InferError::CapabilityMissing(m, c) && m@ == "whisper"@ && c == wanted,
    {
        let m = chars_of("whisper");
        InferError::CapabilityMissing(string_of(&m), wanted)
    }
}

/// How a transcription request is answered before its audio is decoded:
/// the model to run, or the refusal. A request without a file is refused
/// first (400), then one that names no model while none is loaded (503),
/// then one whose file is empty (422); a request without a model runs on
/// the first loaded one.
pub open spec fn transcription_target_spec(
    audio_len: Option<nat>,
    model: Option<Seq<char>>,
    first_loaded: Option<Seq<char>>,
) -> Result<Seq<char>, (u16, Seq<char>)> {
    match audio_len {
        None => Err((400u16, "missing required field: file"@)),
        Some(n) => {
            let chosen = match model {
                Some(m) => Some(m),
                None => first_loaded,
            };
            match chosen {
                None => Err(
                    (503u16, "no whisper model is loaded \u{2014} pull one first with POST /api/pull"@),
                ),
                Some(m) => if n == 0 {
                    Err((422u16, "audio file is empty"@))
                } else {
                    Ok(m)
                },
            }
        },
    }
}

/// The model of an answer to a transcription request.
pub open spec fn target_outcome(r: Result<String, (u16, String)>) -> Result<Seq<char>, (u16, Seq<char>)> {
    match r {
        Ok(m) => Ok(m@),
        Err((c, m)) => Err((c, m@)),
    }
}

fn text_string(s: &str) -> (r: String)
    ensures
        r@ == s@,
{
    let v = chars_of(s);
    string_of(&v)
}

/// Decides how a transcription request is answered before its audio is
/// decoded (see [`transcription_target_spec`]); `audio_len` is the size of
/// the uploaded file, if one was sent.
pub fn transcription_target(
    audio_len: Option<usize>,
    model: Option<String>,
    first_loaded: Option<String>,
) -> (r: Result<String, (u16, String)>)
    ensures
        target_outcome(r) == transcription_target_spec(
            match audio_len {
                Some(n) => Some(n as nat),
                None => None,
            },
            string_opt(model),
            string_opt(first_loaded),
        ),
{
    let n = match audio_len {
        None => {
            return Err((400, text_string("missing required field: file")));
        },
        Some(n) => n,
    };
    let chosen = match model {
        Some(m) => m,
        None => match first_loaded {
            Some(m) => m,
            None => {
                return Err(
                    (
                        503,
                        text_string(
                            "no whisper model is loaded \u{2014} pull one first with POST /api/pull",
                        ),
                    ),
                );
            },
        },
    };
    if n == 0 {
        return Err((422, text_string("audio file is empty")));
    }
    Ok(chosen)
}

/// `a + b + c`.
fn concat3(a: &str, b: &str, c: &str) -> (r: String)
    ensures
        r@ == a@ + b@ + c@,
{
    let mut v = chars_of(a);
    let bv = chars_of(b);
    let cv = chars_of(c);
    extend_chars(&mut v, &bv);
    extend_chars(&mut v, &cv);
    string_of(&v)
}

/// The answer to a transcription that failed with `e` on the model `model`:
/// its status and message. An error of another kind is a server fault
/// (500), whose message is the error's own text, which is not given here.
pub open spec fn transcription_error_spec(model: Seq<char>, e: InferError) -> (u16, Option<Seq<char>>) {
    match e {
        InferError::ModelNotFound(_) => (
            404u16,
            Some("model '"@ + model + "' not found \u{2014} pull it first with POST /api/pull"@),
        ),
        InferError::CapabilityMissing(m, _) => (
            422u16,
            Some("model '"@ + m@ + "' does not support transcription"@),
        ),
        InferError::Transcription(t) => (422u16, Some("transcription failed: "@ + t@)),
        _ => (500u16, None),
    }
}

/// The answer to a failed transcription (see [`transcription_error_spec`]).
pub fn transcription_error_response(model: &str, e: &InferError) -> (r: (u16, Option<String>))
    ensures
        r.0 == transcription_error_spec(model@, *e).0,
        string_opt(r.1) == transcription_error_spec(model@, *e).1,
{
    match e {
        InferError::ModelNotFound(_) => (
            404,
            Some(concat3("model '", model, "' not found \u{2014} pull it first with POST /api/pull")),
        ),
        InferError::CapabilityMissing(m, _) => (
            422,
            Some(concat3("model '", m.as_str(), "' does not support transcription")),
        ),
        InferError::Transcription(t) => {
            let mut v = chars_of("transcription failed: ");
            let tv = chars_of(t.as_str());
            extend_chars(&mut v, &tv);
            (422, Some(string_of(&v)))
        },
        _ => (500, None),
    }
}

/// The Whisper daemon's socket and engine configuration, from the values
/// of `AGENTIX_WHISPER_SOCKET` and `AGENTIX_MODELS_DIR`: the socket
/// `/run/agentix/whisper.sock` and the store `/var/lib/agentix/models` unless
/// set, no VRAM cap, one model in memory, and no context window.
pub fn whisper_daemon_settings(socket: Option<String>, models_dir: Option<String>) -> (r: (
    String,
    crate::infer::InferConfig,
))
    ensures
        r.0@ == crate::llama::value_or(socket, "/run/agentix/whisper.sock"@),
        r.1.models_dir@ == crate::llama::value_or(models_dir, "/var/lib/agentix/models"@),
        r.1.vram_limit_bytes is None,
        r.1.max_loaded_models == 1,
        r.1.max_ctx == 0,
{
    let s = match socket {
        Some(s) => s,
        None => text_string("/run/agentix/whisper.sock"),
    };
    let d = match models_dir {
        Some(d) => d,
        None => text_string("/var/lib/agentix/models"),
    };
    (s, crate::infer::InferConfig::new(d, None, 1, 0))
}

/// The text of a transcription: its segments joined, then trimmed.
pub open spec fn transcript_spec(segments: Seq<Seq<char>>) -> Seq<char> {
    trim(segments.fold_left(Seq::<char>::empty(), |acc: Seq<char>, s: Seq<char>| acc + s))
}

/// The text of a transcription from its segments (see [`transcript_spec`]).
pub fn transcript_text(segments: &[String]) -> (r: String)
    ensures
        r@ == transcript_spec(string_views(segments@)),
{
    let mut all: Vec<char> = Vec::new();
    let mut i: usize = 0;
    let ghost f = |acc: Seq<char>, s: Seq<char>| acc + s;
    while i < segments.len()
        invariant
            i <= segments.len(),
            f == (|acc: Seq<char>, s: Seq<char>| acc + s),
            all@ == string_views(segments@).take(i as int).fold_left(Seq::<char>::empty(), f),
        decreases segments.len() - i,
    {
        let s = chars_of(segments[i].as_str());
        extend_chars(&mut all, &s);
        proof {
            let sv = string_views(segments@);
            assert(sv.take(i + 1).drop_last() =~= sv.take(i as int));
            assert(sv.take(i + 1).last() == s@);
        }
        i = i + 1;
    }
    assert(string_views(segments@).take(i as int) =~= string_views(segments@));
    let (a, b) = trim_bounds(&all);
    crate::text::string_of_range(&all, a, b)
}

} // verus!
