//! The llama.cpp backend's decisions: reading tool calls out of a model's
//! output, sizing the context window, and ending a generated completion.
use vstd::prelude::*;

use crate::infer::{Capability, CompletionChunk, FinishReason, InferConfig, InferError, ModelFormat};
use crate::num::{decimal, decimal_string, parse_decimal, parse_unsigned};
use crate::text::{
    chars_of, copy_range, extend_chars, has_prefix, has_infix, is_text, occurs_at, string_of,
    string_views, trim, trim_bounds, contains,
};

verus! {

broadcast use vstd::seq_lib::group_seq_properties;

// ── Tool calls ────────────────────────────────────────────────────────────────

/// `<tool_call>`
pub open spec fn open_tag() -> Seq<char> {
    seq!['<', 't', 'o', 'o', 'l', '_', 'c', 'a', 'l', 'l', '>']
}

/// `</tool_call>`
pub open spec fn close_tag() -> Seq<char> {
    seq!['<', '/', 't', 'o', 'o', 'l', '_', 'c', 'a', 'l', 'l', '>']
}

/// Position of the first occurrence of `p` in `s` at or after `i` (`str::find`).
pub open spec fn find_from(s: Seq<char>, p: Seq<char>, i: int) -> Option<int>
    decreases s.len() + 1 - i,
{
    if i < 0 || i + p.len() > s.len() {
        None
    } else if s.subrange(i, i + p.len()) == p {
        Some(i)
    } else {
        find_from(s, p, i + 1)
    }
}

/// A found position holds the pattern.
pub proof fn lemma_find_from(s: Seq<char>, p: Seq<char>, i: int)
    requires
        0 <= i,
    ensures
        find_from(s, p, i) matches Some(k) ==> i <= k && k + p.len() <= s.len() && s.subrange(
            k,
            k + p.len(),
        ) == p,
    decreases s.len() + 1 - i,
{
    if i + p.len() <= s.len() && s.subrange(i, i + p.len()) != p {
        lemma_find_from(s, p, i + 1);
    }
}

/// The bodies of the `<tool_call>...</tool_call>` blocks of `s`, in order;
/// the scan stops at an opening tag that is never closed.
pub open spec fn tool_call_bodies(s: Seq<char>) -> Seq<Seq<char>>
    decreases s.len(),
{
    match find_from(s, open_tag(), 0) {
        None => Seq::empty(),
        Some(i) => {
            let after = s.skip(i + 11);
            match find_from(after, close_tag(), 0) {
                None => Seq::empty(),
                Some(j) => {
                    proof {
                        lemma_find_from(s, open_tag(), 0);
                        lemma_find_from(after, close_tag(), 0);
                    }
                    seq![after.take(j)] + tool_call_bodies(after.skip(j + 12))
                },
            }
        },
    }
}

/// Whether the scan of [`tool_call_bodies`] meets an opening tag that is
/// never closed.
pub open spec fn has_unclosed_tool_call(s: Seq<char>) -> bool
    decreases s.len(),
{
    match find_from(s, open_tag(), 0) {
        None => false,
        Some(i) => {
            let after = s.skip(i + 11);
            match find_from(after, close_tag(), 0) {
                None => true,
                Some(j) => {
                    proof {
                        lemma_find_from(s, open_tag(), 0);
                        lemma_find_from(after, close_tag(), 0);
                    }
                    has_unclosed_tool_call(after.skip(j + 12))
                },
            }
        },
    }
}

/// The first occurrence of `p` in `v`.
fn find_chars(v: &Vec<char>, p: &Vec<char>) -> (r: Option<usize>)
    ensures
        r matches Some(k) ==> find_from(v@, p@, 0) == Some(k as int),
        r is None ==> find_from(v@, p@, 0) is None,
{
    if p.len() > v.len() {
        return None;
    }
    let last = v.len() - p.len();
    let mut i: usize = 0;
    loop
        invariant
            i <= last,
            last + p.len() == v.len(),
            find_from(v@, p@, 0) == find_from(v@, p@, i as int),
        decreases last - i,
    {
        if occurs_at(v, p, i) {
            return Some(i);
        }
        if i == last {
            assert(find_from(v@, p@, i + 1) is None);
            return None;
        }
        i = i + 1;
    }
}

/// The bodies of the tool-call blocks of `output` (see [`tool_call_bodies`]).
pub fn tool_call_body_strings(output: &str) -> (r: Vec<String>)
    ensures
        string_views(r@) == tool_call_bodies(output@),
{
    let open = chars_of("<tool_call>");
    let close = chars_of("</tool_call>");
    proof {
        reveal_strlit("<tool_call>");
        reveal_strlit("</tool_call>");
        assert(open@ =~= open_tag());
        assert(close@ =~= close_tag());
    }
    let mut remaining = chars_of(output);
    let mut out: Vec<String> = Vec::new();
    loop
        invariant
            open@ == open_tag(),
            close@ == close_tag(),
            string_views(out@) + tool_call_bodies(remaining@) == tool_call_bodies(output@),
        decreases remaining.len(),
    {
        let start = match find_chars(&remaining, &open) {
            Some(i) => i,
            None => {
                assert(string_views(out@) =~= tool_call_bodies(output@));
                return out;
            },
        };
        proof {
            lemma_find_from(remaining@, open_tag(), 0);
        }
        let after = copy_range(&remaining, start + 11, remaining.len());
        assert(after@ =~= remaining@.skip(start + 11));
        let end = match find_chars(&after, &close) {
            Some(j) => j,
            None => {
                assert(string_views(out@) =~= tool_call_bodies(output@));
                return out;
            },
        };
        proof {
            lemma_find_from(after@, close_tag(), 0);
        }
        let body = copy_range(&after, 0, end);
        let next = copy_range(&after, end + 12, after.len());
        let s = string_of(&body);
        proof {
            assert(body@ =~= after@.take(end as int));
            assert(next@ =~= after@.skip(end + 12));
            crate::text::lemma_string_views_push(out@, s);
            assert(string_views(out@.push(s)) + tool_call_bodies(next@) =~= string_views(out@)
                + tool_call_bodies(remaining@));
        }
        out.push(s);
        remaining = next;
    }
}

/// Whether `output` has an opening tool-call tag that is never closed (see
/// [`has_unclosed_tool_call`]).
pub fn unclosed_tool_call(output: &str) -> (r: bool)
    ensures
        r == has_unclosed_tool_call(output@),
{
    let open = chars_of("<tool_call>");
    let close = chars_of("</tool_call>");
    proof {
        reveal_strlit("<tool_call>");
        reveal_strlit("</tool_call>");
        assert(open@ =~= open_tag());
        assert(close@ =~= close_tag());
    }
    let mut remaining = chars_of(output);
    loop
        invariant
            open@ == open_tag(),
            close@ == close_tag(),
            has_unclosed_tool_call(remaining@) == has_unclosed_tool_call(output@),
        decreases remaining.len(),
    {
        let start = match find_chars(&remaining, &open) {
            Some(i) => i,
            None => {
                return false;
            },
        };
        proof {
            lemma_find_from(remaining@, open_tag(), 0);
        }
        let after = copy_range(&remaining, start + 11, remaining.len());
        assert(after@ =~= remaining@.skip(start + 11));
        let end = match find_chars(&after, &close) {
            Some(j) => j,
            None => {
                return true;
            },
        };
        proof {
            lemma_find_from(after@, close_tag(), 0);
        }
        let next = copy_range(&after, end + 12, after.len());
        assert(next@ =~= after@.skip(end + 12));
        remaining = next;
    }
}

/// How the `arguments` field of a tool call reads.
#[derive(Debug, Clone)]
pub enum ArgumentsField {
    /// There is no `arguments` field.
    Absent,
    /// The field is a JSON string; its text.
    Text(String),
    /// The field is another JSON value; its compact serialization.
    Json(String),
    /// The field could not be serialized; the error message.
    Unserializable(String),
}

/// The fields of a tool call's JSON body that the backend reads.
#[derive(Debug, Clone)]
pub struct ToolCallJson {
    /// The `name` field, when it is a JSON string.
    pub name: Option<String>,
    pub arguments: ArgumentsField,
}

/// Model of an [`ArgumentsField`].
pub enum ArgumentsSpec {
    Absent,
    Text(Seq<char>),
    Json(Seq<char>),
    Unserializable(Seq<char>),
}

/// Model of a [`ToolCallJson`].
pub struct ToolCallJsonSpec {
    pub name: Option<Seq<char>>,
    pub arguments: ArgumentsSpec,
}

/// The model of an [`ArgumentsField`].
pub open spec fn arguments_view(a: ArgumentsField) -> ArgumentsSpec {
    match a {
        ArgumentsField::Absent => ArgumentsSpec::Absent,
        ArgumentsField::Text(s) => ArgumentsSpec::Text(s@),
        ArgumentsField::Json(s) => ArgumentsSpec::Json(s@),
        ArgumentsField::Unserializable(s) => ArgumentsSpec::Unserializable(s@),
    }
}

/// Model of the outcome of reading a tool call's JSON body.
pub open spec fn json_outcome(r: Result<ToolCallJson, String>) -> Result<ToolCallJsonSpec, Seq<char>> {
    match r {
        Ok(j) => Ok(
            ToolCallJsonSpec {
                name: match j.name {
                    Some(n) => Some(n@),
                    None => None,
                },
                arguments: arguments_view(j.arguments),
            },
        ),
        Err(e) => Err(e@),
    }
}

/// What `serde_json` reads from a tool call's JSON text: the error message
/// when it is not JSON, else its `name` and `arguments` fields.
pub uninterp spec fn tool_call_json(text: Seq<char>) -> Result<ToolCallJsonSpec, Seq<char>>;

/// Parses `text` with `serde_json::from_str` into a JSON value and reads its
/// `name` (as a string) and `arguments` (a string kept as is, any other value
/// serialized with `serde_json::to_string`). Named [`tool_call_json`]; the
/// JSON grammar is not restated here.
#[verifier::external_body]
fn read_tool_call_json(text: &str) -> (r: Result<ToolCallJson, String>)
    ensures
        json_outcome(r) == tool_call_json(text@),
{
    match serde_json::from_str::<serde_json::Value>(text) {
        Err(e) => Err(e.to_string()),
        Ok(v) => Ok(ToolCallJson {
            name: v["name"].as_str().map(String::from),
            arguments: match v.get("arguments") {
                None => ArgumentsField::Absent,
                Some(serde_json::Value::String(s)) => ArgumentsField::Text(s.clone()),
                Some(other) => match serde_json::to_string(other) {
                    Ok(s) => ArgumentsField::Json(s),
                    Err(e) => ArgumentsField::Unserializable(e.to_string()),
                },
            },
        }),
    }
}

/// A fresh call id: `call_` and a random version-4 UUID in its hyphenated form.
pub open spec fn is_call_id(id: Seq<char>) -> bool {
    has_prefix(id, "call_"@) && id.len() == 41
}

/// Makes `prefix` followed by `uuid::Uuid::new_v4()` in its 36-character
/// hyphenated form. The UUID is random; only the form of the result is
/// stated.
#[verifier::external_body]
pub(crate) fn fresh_id(prefix: &str) -> (r: String)
    ensures
        has_prefix(r@, prefix@),
        r@.len() == prefix@.len() + 36,
{
    format!("{}{}", prefix, uuid::Uuid::new_v4())
}

/// A fresh call id (see [`is_call_id`]).
fn new_call_id() -> (r: String)
    ensures
        is_call_id(r@),
{
    proof {
        reveal_strlit("call_");
    }
    fresh_id("call_")
}

/// The content of a chat message as the chat template is given it: none
/// (JSON `null`) for the text `null`, which is how a message without
/// content (an assistant turn made only of tool calls) reaches the model;
/// otherwise the text itself.
pub open spec fn template_content_spec(content: Seq<char>) -> Option<Seq<char>> {
    if content == "null"@ {
        None
    } else {
        Some(content)
    }
}

/// The content of a chat message as the chat template is given it (see
/// [`template_content_spec`]).
pub fn template_content(content: &str) -> (r: Option<String>)
    ensures
        crate::text::string_opt(r) == template_content_spec(content@),
{
    let v = chars_of(content);
    if is_text(&v, "null") {
        None
    } else {
        Some(string_of(&v))
    }
}

/// The nanoseconds of the current second of the system clock:
/// `SystemTime::now()` since the Unix epoch (zero before it), then
/// `Duration::subsec_nanos`, which is documented to be below 10^9. The clock
/// decides the value; only that bound is stated.
#[verifier::external_body]
fn clock_subsec_nanos() -> (r: u32)
    ensures
        r < 1_000_000_000,
{
    std::time::SystemTime::now().duration_since(std::time::UNIX_EPOCH).unwrap_or_default().subsec_nanos()
}

/// The id of a chat completion whose clock reading is `nanos`: `chatcmpl-`
/// and the number in decimal.
pub open spec fn completion_id_spec(nanos: nat) -> Seq<char> {
    "chatcmpl-"@ + decimal(nanos)
}

/// The id of a chat completion whose clock reading is `nanos` (see
/// [`completion_id_spec`]).
pub fn completion_id(nanos: u32) -> (r: String)
    ensures
        r@ == completion_id_spec(nanos as nat),
{
    let mut v = chars_of("chatcmpl-");
    let d = decimal_string(nanos as u64);
    let dv = chars_of(d.as_str());
    crate::text::extend_chars(&mut v, &dv);
    string_of(&v)
}

/// A fresh chat completion id, from the nanoseconds of the current second
/// of the clock (see [`completion_id_spec`]).
pub fn new_completion_id() -> (r: String)
    ensures
        exists|n: nat| n < 1_000_000_000 && r@ == completion_id_spec(n),
{
    let n = clock_subsec_nanos();
    completion_id(n)
}

/// A tool call found in a model's output.
#[derive(Debug)]
pub struct ToolCallResult {
    pub id: String,
    pub name: String,
    pub arguments: String,
}

/// The name and arguments of a tool call, or why it is refused, from what
/// its JSON body reads.
pub open spec fn tool_call_outcome(p: Result<ToolCallJsonSpec, Seq<char>>) -> Result<
    (Seq<char>, Seq<char>),
    Seq<char>,
> {
    match p {
        Err(e) => Err("invalid tool_call JSON: "@ + e),
        Ok(j) => match j.name {
            None => Err("tool_call missing 'name' field"@),
            Some(n) => match j.arguments {
                ArgumentsSpec::Absent => Ok((n, "{}"@)),
                ArgumentsSpec::Text(s) => Ok((n, s)),
                ArgumentsSpec::Json(s) => Ok((n, s)),
                ArgumentsSpec::Unserializable(e) => Err("arguments serialize: "@ + e),
            },
        },
    }
}

fn prefixed(p: &str, s: &String) -> (r: String)
    ensures
        r@ == p@ + s@,
{
    let mut v = chars_of(p);
    let sv = chars_of(s.as_str());
    extend_chars(&mut v, &sv);
    string_of(&v)
}

/// The tool call read from a JSON body, with the id `id`.
pub fn tool_call_from_json(parsed: Result<ToolCallJson, String>, id: String) -> (r: Result<
    ToolCallResult,
    String,
>)
    ensures
        r matches Ok(c) ==> tool_call_outcome(json_outcome(parsed)) == Ok::<
            (Seq<char>, Seq<char>),
            Seq<char>,
        >((c.name@, c.arguments@)) && c.id@ == id@,
        r matches Err(e) ==> tool_call_outcome(json_outcome(parsed)) == Err::<
            (Seq<char>, Seq<char>),
            Seq<char>,
        >(e@),
{
    match parsed {
        Err(e) => Err(prefixed("invalid tool_call JSON: ", &e)),
        Ok(j) => match j.name {
            None => {
                let m = chars_of("tool_call missing 'name' field");
                Err(string_of(&m))
            },
            Some(name) => {
                let arguments = match j.arguments {
                    ArgumentsField::Absent => {
                        let a = chars_of("{}");
                        string_of(&a)
                    },
                    ArgumentsField::Text(s) => s,
                    ArgumentsField::Json(s) => s,
                    ArgumentsField::Unserializable(e) => {
                        return Err(prefixed("arguments serialize: ", &e));
                    },
                };
                Ok(ToolCallResult { id, name, arguments })
            },
        },
    }
}

/// The tool calls of the bodies `bodies` (name and arguments of each), or
/// the refusal of the first body that cannot be read.
pub open spec fn tool_calls_outcome(bodies: Seq<Seq<char>>) -> Result<
    Seq<(Seq<char>, Seq<char>)>,
    Seq<char>,
>
    decreases bodies.len(),
{
    if bodies.len() == 0 {
        Ok(Seq::empty())
    } else {
        match tool_calls_outcome(bodies.drop_last()) {
            Err(e) => Err(e),
            Ok(cs) => match tool_call_outcome(tool_call_json(trim(bodies.last()))) {
                Err(e) => Err(e),
                Ok(c) => Ok(cs.push(c)),
            },
        }
    }
}

/// The tool calls of a model's output (name and arguments of each), or the
/// refusal: that of the first body that cannot be read, else, when an
/// opening tag is never closed, a refusal of the unclosed block.
pub open spec fn tool_calls_result(output: Seq<char>) -> Result<Seq<(Seq<char>, Seq<char>)>, Seq<char>> {
    match tool_calls_outcome(tool_call_bodies(output)) {
        Err(e) => Err(e),
        Ok(cs) => if has_unclosed_tool_call(output) {
            Err("unclosed <tool_call> block"@)
        } else {
            Ok(cs)
        },
    }
}

/// The calls `v` carry the names and arguments `cs`, each with a fresh id.
pub open spec fn calls_match(v: Seq<ToolCallResult>, cs: Seq<(Seq<char>, Seq<char>)>) -> bool {
    &&& v.len() == cs.len()
    &&& forall|k: int|
        0 <= k < v.len() ==> (#[trigger] v[k]).name@ == cs[k].0 && v[k].arguments@ == cs[k].1
            && is_call_id(v[k].id@)
}

/// Reads the `<tool_call>{json}</tool_call>` blocks of a model's output:
/// each body is trimmed and read as JSON with a `name` and optional
/// `arguments` (absent reads as `{}`), and gets a fresh `call_` id. The first
/// body that cannot be read makes the whole call fail, and so does an
/// opening tag that is never closed (see [`tool_calls_result`]).
pub fn parse_tool_calls(output: &str) -> (r: Result<Vec<ToolCallResult>, String>)
    ensures
        r is Ok <==> tool_calls_result(output@) is Ok,
        r matches Ok(v) ==> tool_calls_result(output@) matches Ok(cs) && calls_match(v@, cs),
        r matches Err(e) ==> tool_calls_result(output@) == Err::<
            Seq<(Seq<char>, Seq<char>)>,
            Seq<char>,
        >(e@),
{
    let bodies = tool_call_body_strings(output);
    let ghost bs = string_views(bodies@);
    let mut results: Vec<ToolCallResult> = Vec::new();
    let mut k: usize = 0;
    while k < bodies.len()
        invariant
            k <= bodies.len(),
            bs == string_views(bodies@),
            bs == tool_call_bodies(output@),
            results.len() == k,
            tool_calls_outcome(bs.take(k as int)) matches Ok(cs) && calls_match(results@, cs),
        decreases bodies.len() - k,
    {
        let v = chars_of(bodies[k].as_str());
        let (a, b) = trim_bounds(&v);
        let t = copy_range(&v, a, b);
        let ts = string_of(&t);
        let parsed = read_tool_call_json(ts.as_str());
        let id = new_call_id();
        let ghost prev = results@;
        proof {
            assert(bs.take(k + 1).drop_last() =~= bs.take(k as int));
            assert(bs.take(k + 1).last() == v@);
        }
        match tool_call_from_json(parsed, id) {
            Ok(c) => {
                results.push(c);
                proof {
                    let cs = tool_calls_outcome(bs.take(k as int))->Ok_0;
                    let c2 = tool_call_outcome(tool_call_json(trim(v@)))->Ok_0;
                    assert(tool_calls_outcome(bs.take(k + 1)) == Ok::<
                        Seq<(Seq<char>, Seq<char>)>,
                        Seq<char>,
                    >(cs.push(c2)));
                    assert forall|m: int| 0 <= m < results@.len() implies (#[trigger] results@[
                        m
                    ]).name@ == cs.push(c2)[m].0 && results@[m].arguments@ == cs.push(c2)[m].1
                        && is_call_id(results@[m].id@) by {
                        if m < k {
                            assert(results@[m] == prev[m]);
                        }
                    }
                }
            },
            Err(e) => {
                proof {
                    lemma_outcome_err_extends(bs, k as int + 1);
                }
                return Err(e);
            },
        }
        k = k + 1;
    }
    assert(bs.take(k as int) =~= bs);
    if unclosed_tool_call(output) {
        let m = chars_of("unclosed <tool_call> block");
        return Err(string_of(&m));
    }
    Ok(results)
}

/// The reply to a chat completion whose text the model has produced.
#[derive(Debug)]
pub enum ChatReply {
    /// The text, with the reason the completion stopped.
    Content { text: String, finish_reason: &'static str },
    /// The tool calls the model asked for; the completion finishes with
    /// `tool_calls`.
    ToolCalls { calls: Vec<ToolCallResult> },
    /// The request fails with this status and message.
    Failed { status: u16, message: String },
}

/// The reply to a chat completion that produced `output` and stopped for
/// `finish_reason`, when the request offered tools (`tools_given`): the
/// text as it is when no tools were offered or the output calls none; the
/// calls it makes otherwise; and a server error (500) when a call's body
/// cannot be read or a call's block is never closed.
pub fn chat_reply(output: &str, finish_reason: &'static str, tools_given: bool) -> (r: ChatReply)
    ensures
        !tools_given ==> (r matches ChatReply::Content { text, finish_reason: f } && text@ == output@
            && f == finish_reason),
        tools_given ==> match tool_calls_result(output@) {
            Err(e) => (r matches ChatReply::Failed { status, message } && status == 500 && message@
                == "tool call parse error: "@ + e),
            Ok(cs) => if cs.len() == 0 {
                (r matches ChatReply::Content { text, finish_reason: f } && text@ == output@ && f
                    == finish_reason)
            } else {
                (r matches ChatReply::ToolCalls { calls } && calls_match(calls@, cs))
            },
        },
{
    if !tools_given {
        let v = chars_of(output);
        return ChatReply::Content { text: string_of(&v), finish_reason };
    }
    match parse_tool_calls(output) {
        Err(e) => ChatReply::Failed { status: 500, message: prefixed("tool call parse error: ", &e) },
        Ok(calls) => {
            if calls.len() == 0 {
                let v = chars_of(output);
                ChatReply::Content { text: string_of(&v), finish_reason }
            } else {
                ChatReply::ToolCalls { calls }
            }
        },
    }
}

/// Once the bodies read so far fail, every longer run fails the same way.
proof fn lemma_outcome_err_extends(bs: Seq<Seq<char>>, k: int)
    requires
        0 < k <= bs.len(),
        tool_calls_outcome(bs.take(k)) is Err,
    ensures
        tool_calls_outcome(bs) == tool_calls_outcome(bs.take(k)),
    decreases bs.len() - k,
{
    if k < bs.len() {
        assert(bs.take(k + 1).drop_last() =~= bs.take(k));
        lemma_outcome_err_extends(bs, k + 1);
    } else {
        assert(bs.take(k) =~= bs);
    }
}

// ── Loading a model ───────────────────────────────────────────────────────────

/// The encoder-only architectures: they go through `llama_encode()` with
/// last-token pooling; every other architecture is a decoder.
pub open spec fn is_encoder_arch(arch: Seq<char>) -> bool {
    arch == "bert"@ || arch == "nomic_bert"@ || arch == "roberta"@ || arch == "xlm_roberta"@
}

/// Whether a model of `architecture` embeds through the encoder path.
pub fn use_encoder_path(architecture: &str) -> (r: bool)
    ensures
        r == is_encoder_arch(architecture@),
{
    let a = chars_of(architecture);
    is_text(&a, "bert") || is_text(&a, "nomic_bert") || is_text(&a, "roberta") || is_text(
        &a,
        "xlm_roberta",
    )
}

/// How a model is loaded: whether it embeds, and its architecture. A
/// manifest that lists the embedding capability is believed; otherwise the
/// GGUF file's own metadata decides, when it could be read (`gguf`: whether
/// it embeds and its architecture), and the model is taken for a completion
/// model of the manifest's architecture when it could not.
pub open spec fn load_profile_spec(
    manifest_embeds: bool,
    manifest_arch: Seq<char>,
    gguf: Option<(bool, Seq<char>)>,
) -> (bool, Seq<char>) {
    if manifest_embeds {
        (true, manifest_arch)
    } else {
        match gguf {
            Some((e, a)) => (e, a),
            None => (false, manifest_arch),
        }
    }
}

/// How a model is loaded (see [`load_profile_spec`]).
pub fn load_profile(manifest_embeds: bool, manifest_arch: String, gguf: Option<(bool, String)>) -> (r: (
    bool,
    String,
))
    ensures
        (r.0, r.1@) == load_profile_spec(
            manifest_embeds,
            manifest_arch@,
            match gguf {
                Some((e, a)) => Some((e, a@)),
                None => None,
            },
        ),
{
    if manifest_embeds {
        (true, manifest_arch)
    } else {
        match gguf {
            Some((e, a)) => (e, a),
            None => (false, manifest_arch),
        }
    }
}

/// The context window of a loaded model: its trained context length clamped
/// to `[64, cap]`, where the cap is 4096 for embedding models and `max_ctx`
/// otherwise, and then raised to at least 256.
pub open spec fn context_window_spec(context_length: int, is_embedding: bool, max_ctx: int) -> int {
    let cap = if is_embedding {
        4096
    } else {
        max_ctx
    };
    let c = if context_length < 64 {
        64
    } else if context_length > cap {
        cap
    } else {
        context_length
    };
    if c < 256 {
        256
    } else {
        c
    }
}

/// The context window for a model (see [`context_window_spec`]).
pub fn context_window(context_length: u32, is_embedding: bool, max_ctx: u32) -> (r: u32)
    requires
        is_embedding || max_ctx >= 64,
    ensures
        r == context_window_spec(context_length as int, is_embedding, max_ctx as int),
        r >= 256,
{
    let cap: u32 = if is_embedding {
        4096
    } else {
        max_ctx
    };
    let c = if context_length < 64 {
        64
    } else if context_length > cap {
        cap
    } else {
        context_length
    };
    if c < 256 {
        256
    } else {
        c
    }
}

/// Whether the token at `pos` of an `n`-token input asks for output when
/// it is embedded: every token on the decoder path, where llama.cpp pools
/// them all; only the last on the encoder path.
pub fn wants_output(use_encoder: bool, pos: usize, n: usize) -> (r: bool)
    ensures
        r == (!use_encoder || pos + 1 == n),
{
    !use_encoder || (pos < n && pos == n - 1)
}

/// Decoder models used for embeddings need explicit mean pooling.
pub fn mean_pooling(is_embedding: bool, use_encoder: bool) -> (r: bool)
    ensures
        r == (is_embedding && !use_encoder),
{
    is_embedding && !use_encoder
}

/// The llama.cpp backend reads GGUF models only.
pub fn llama_supports_format(format: ModelFormat) -> (r: bool)
    ensures
        r == (format == ModelFormat::Gguf),
{
    format == ModelFormat::Gguf
}

/// The value of a `u32` setting: the variable's value when it parses,
/// else `default`.
pub open spec fn u32_setting(v: Option<Seq<char>>, default: int) -> int {
    match v {
        Some(s) => match parse_unsigned(s, u32::MAX as int) {
            Some(n) => n,
            None => default,
        },
        None => default,
    }
}

fn u32_setting_of(v: Option<&str>, default: u32) -> (r: u32)
    ensures
        r == u32_setting(
            match v {
                Some(s) => Some(s@),
                None => None,
            },
            default as int,
        ),
{
    match v {
        Some(s) => match parse_decimal(s, 4294967295) {
            Some(n) => n as u32,
            None => default,
        },
        None => default,
    }
}

/// The GPU layer count and context cap of the backend, from the values of
/// `AGENTIX_GPU_LAYERS` and `AGENTIX_MAX_CTX`: all layers on a CUDA build and
/// none otherwise, and 32768, unless the variables say otherwise.
pub fn backend_limits(gpu_layers: Option<&str>, max_ctx: Option<&str>, cuda: bool) -> (r: (
    u32,
    u32,
))
    ensures
        r.0 == u32_setting(
            match gpu_layers {
                Some(s) => Some(s@),
                None => None,
            },
            if cuda {
                u32::MAX as int
            } else {
                0
            },
        ),
        r.1 == u32_setting(
            match max_ctx {
                Some(s) => Some(s@),
                None => None,
            },
            32768,
        ),
{
    let layers = u32_setting_of(gpu_layers, if cuda { u32::MAX } else { 0 });
    let ctx = u32_setting_of(max_ctx, 32768);
    (layers, ctx)
}

/// Embedding needs an embedding model.
pub fn embed_capability_check(is_embedding: bool) -> (r: Result<(), InferError>)
    ensures
        is_embedding <==> r is Ok,
        r matches Err(e) ==> e matches InferError::CapabilityMissing(m, c) && m@.len() == 0 && c
            == Capability::Embedding,
{
    if !is_embedding {
        return Err(InferError::CapabilityMissing(String::new(), Capability::Embedding));
    }
    Ok(())
}

/// Completion needs a model that is not an embedding model.
pub fn complete_capability_check(is_embedding: bool) -> (r: Result<(), InferError>)
    ensures
        !is_embedding <==> r is Ok,
        r matches Err(e) ==> e matches InferError::CapabilityMissing(m, c) && m@.len() == 0 && c
            == Capability::Completion,
{
    if is_embedding {
        return Err(InferError::CapabilityMissing(String::new(), Capability::Completion));
    }
    Ok(())
}

// ── Generating a completion ───────────────────────────────────────────────────

/// At most this many tokens are generated when the request gives no limit.
pub const DEFAULT_MAX_TOKENS: u32 = 1024;

/// The number of tokens to generate, or the refusal when the prompt and the
/// tokens to generate do not fit the context window. The prompt length is
/// counted modulo 2^32, as a `u32`.
pub fn check_context(prompt_tokens: usize, max_tokens: Option<u32>, n_ctx: u32) -> (r: Result<
    u32,
    InferError,
>)
    requires
        (prompt_tokens as u32) + match max_tokens {
            Some(m) => m,
            None => DEFAULT_MAX_TOKENS,
        } <= u32::MAX,
    ensures
        ({
            let max_new = match max_tokens {
                Some(m) => m,
                None => DEFAULT_MAX_TOKENS,
            };
            &&& (r is Ok <==> (prompt_tokens as u32) + max_new <= n_ctx)
            &&& (r matches Ok(n) ==> n == max_new)
            &&& (r matches Err(e) ==> e matches InferError::ContextExceeded {
                prompt_tokens: p,
                max_new_tokens: m,
                context_window: w,
            } && p == prompt_tokens as u32 && m == max_new && w == n_ctx)
        }),
{
    let max_new = match max_tokens {
        Some(m) => m,
        None => DEFAULT_MAX_TOKENS,
    };
    let p = prompt_tokens as u32;
    if p + max_new > n_ctx {
        return Err(
            InferError::ContextExceeded {
                prompt_tokens: p,
                max_new_tokens: max_new,
                context_window: n_ctx,
            },
        );
    }
    Ok(max_new)
}

/// What to do with a sampled token.
#[derive(Debug, Clone, Copy, PartialEq, Eq, Structural)]
pub enum TokenStep {
    /// The model ended the generation: finish with `Stop`.
    EndOfGeneration,
    /// The piece holds a stop string: finish with `Stop` without sending it.
    StopString,
    /// Send the piece; when `last`, the token budget is spent: finish with `Length`.
    Piece { last: bool },
}

/// Some stop string occurs in `piece`.
pub open spec fn hits_stop(piece: Seq<char>, stop: Seq<Seq<char>>) -> bool {
    exists|k: int| 0 <= k < stop.len() && has_infix(piece, #[trigger] stop[k])
}

/// The step for the `i`-th sampled token (from zero) of at most `max_new`.
pub open spec fn token_step_spec(i: int, max_new: int, is_eog: bool, piece: Seq<char>, stop: Seq<
    Seq<char>,
>) -> TokenStep {
    if is_eog {
        TokenStep::EndOfGeneration
    } else if hits_stop(piece, stop) {
        TokenStep::StopString
    } else {
        TokenStep::Piece { last: i == max_new - 1 }
    }
}

/// Decides what to do with the `i`-th sampled token.
pub fn token_step(i: u32, max_new: u32, is_eog: bool, piece: &str, stop: &[String]) -> (r:
    TokenStep)
    requires
        i < max_new,
    ensures
        r == token_step_spec(i as int, max_new as int, is_eog, piece@, string_views(stop@)),
{
    if is_eog {
        return TokenStep::EndOfGeneration;
    }
    let pv = chars_of(piece);
    let mut k: usize = 0;
    while k < stop.len()
        invariant
            k <= stop.len(),
            !is_eog,
            pv@ == piece@,
            forall|j: int| 0 <= j < k ==> !has_infix(piece@, #[trigger] string_views(stop@)[j]),
        decreases stop.len() - k,
    {
        let sv = chars_of(stop[k].as_str());
        if contains(&pv, &sv) {
            assert(string_views(stop@)[k as int] == sv@);
            assert(has_infix(piece@, string_views(stop@)[k as int]));
            assert(hits_stop(piece@, string_views(stop@)));
            return TokenStep::StopString;
        }
        k = k + 1;
    }
    TokenStep::Piece { last: i == max_new - 1 }
}

/// The chunks sent for a step: the finishing chunk, or the piece followed,
/// on the last token, by the `Length` finish.
pub fn step_chunks(step: TokenStep, piece: String) -> (r: Vec<CompletionChunk>)
    ensures
        step is EndOfGeneration || step is StopString ==> r@.len() == 1 && r@[0].delta@.len() == 0
            && r@[0].finish_reason == Some(FinishReason::Stop),
        step matches TokenStep::Piece { last } ==> r@.len() == (if last {
            2int
        } else {
            1int
        }) && r@[0].delta@ == piece@ && r@[0].finish_reason is None && (last ==> r@[1].delta@.len()
            == 0 && r@[1].finish_reason == Some(FinishReason::Length)),
{
    let mut out: Vec<CompletionChunk> = Vec::new();
    match step {
        TokenStep::Piece { last } => {
            out.push(CompletionChunk::new(piece, None));
            if last {
                out.push(CompletionChunk::new(String::new(), Some(FinishReason::Length)));
            }
        },
        _ => {
            out.push(CompletionChunk::new(String::new(), Some(FinishReason::Stop)));
        },
    }
    out
}


// ── The llama daemon's settings ───────────────────────────────────────────────

/// The values of the environment variables the llama daemon reads, `None`
/// for one that is unset.
#[derive(Debug, Clone)]
pub struct LlamaDaemonVars {
    /// `AGENTIX_LLAMA_SOCKET`
    pub socket: Option<String>,
    /// `AGENTIX_MODELS_DIR`
    pub models_dir: Option<String>,
    /// `AGENTIX_MAX_CTX`
    pub max_ctx: Option<String>,
    /// `AGENTIX_VRAM_LIMIT_BYTES`
    pub vram_limit: Option<String>,
    /// `AGENTIX_MAX_LOADED_MODELS`
    pub max_loaded: Option<String>,
}

/// A set value, or `default`.
pub open spec fn value_or(v: Option<String>, default: Seq<char>) -> Seq<char> {
    match v {
        Some(s) => s@,
        None => default,
    }
}

/// The value of a numeric setting no larger than `max`: the variable's
/// value when it parses, else `default`.
pub open spec fn number_setting(v: Option<String>, max: int, default: int) -> int {
    match v {
        Some(s) => match parse_unsigned(s@, max) {
            Some(n) => n,
            None => default,
        },
        None => default,
    }
}

fn text_or_default(v: Option<String>, default: &str) -> (r: String)
    ensures
        r@ == value_or(v, default@),
{
    match v {
        Some(s) => s,
        None => {
            let d = chars_of(default);
            string_of(&d)
        },
    }
}

/// The llama daemon's socket and engine configuration: the socket
/// `/run/agentix/llama.sock` and the store `/var/lib/agentix/models` unless
/// set; a context window of 32768 and two models in memory unless set to a
/// number; a VRAM cap only when set to a number.
pub fn llama_daemon_settings(vars: LlamaDaemonVars) -> (r: (String, InferConfig))
    ensures
        r.0@ == value_or(vars.socket, "/run/agentix/llama.sock"@),
        r.1.models_dir@ == value_or(vars.models_dir, "/var/lib/agentix/models"@),
        r.1.max_ctx == number_setting(vars.max_ctx, u32::MAX as int, 32768),
        r.1.max_loaded_models == number_setting(vars.max_loaded, usize::MAX as int, 2),
        r.1.vram_limit_bytes == match vars.vram_limit {
            Some(s) => match parse_unsigned(s@, u64::MAX as int) {
                Some(n) => Some(n as u64),
                None => None,
            },
            None => None,
        },
{
    let max_ctx: u32 = match &vars.max_ctx {
        Some(s) => match parse_decimal(s.as_str(), 4294967295) {
            Some(n) => n as u32,
            None => 32768,
        },
        None => 32768,
    };
    let vram: Option<u64> = match &vars.vram_limit {
        Some(s) => parse_decimal(s.as_str(), 18446744073709551615),
        None => None,
    };
    let max_loaded: usize = match &vars.max_loaded {
        Some(s) => match parse_decimal(s.as_str(), usize::MAX as u64) {
            Some(n) => n as usize,
            None => 2,
        },
        None => 2,
    };
    let socket = text_or_default(vars.socket, "/run/agentix/llama.sock");
    let dir = text_or_default(vars.models_dir, "/var/lib/agentix/models");
    (socket, InferConfig::new(dir, vram, max_loaded, max_ctx))
}

} // verus!
