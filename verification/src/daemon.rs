//! Configuration and routing decisions of the gateway daemon.
use vstd::prelude::*;

use crate::num::{parse_decimal, parse_unsigned};
use crate::text::{chars_of, extend_chars, string_of};

verus! {

/// Configuration of the gateway daemon.
#[derive(Clone, Debug)]
pub struct Config {
    pub gateway_host: String,
    pub gateway_port: u16,
    pub ollama_base_url: String,
    pub llama_socket: String,
    pub whisper_socket: String,
    /// Reserved for gateway authentication.
    pub agentix_api_key: Option<String>,
    pub anthropic_api_key: Option<String>,
    pub openai_api_key: Option<String>,
    pub openrouter_api_key: Option<String>,
    pub anthropic_base_url: Option<String>,
    pub openai_base_url: Option<String>,
}

/// The values of the environment variables the gateway reads, `None` for
/// one that is unset (or not Unicode).
#[derive(Clone, Debug)]
pub struct ConfigVars {
    /// `AGENTIX_GATEWAY_HOST`
    pub gateway_host: Option<String>,
    /// `AGENTIX_GATEWAY_PORT`
    pub gateway_port: Option<String>,
    /// `OLLAMA_BASE_URL`
    pub ollama_base_url: Option<String>,
    /// `AGENTIX_LLAMA_SOCKET`
    pub llama_socket: Option<String>,
    /// `AGENTIX_WHISPER_SOCKET`
    pub whisper_socket: Option<String>,
    /// `AGENTIX_API_KEY`
    pub agentix_api_key: Option<String>,
    /// `ANTHROPIC_API_KEY`
    pub anthropic_api_key: Option<String>,
    /// `OPENAI_API_KEY`
    pub openai_api_key: Option<String>,
    /// `OPENROUTER_API_KEY`
    pub openrouter_api_key: Option<String>,
    /// `ANTHROPIC_BASE_URL_UPSTREAM`
    pub anthropic_base_url: Option<String>,
    /// `OPENAI_BASE_URL_UPSTREAM`
    pub openai_base_url: Option<String>,
}

/// A set value, or `default`.
pub open spec fn or_default(v: Option<String>, default: Seq<char>) -> Seq<char> {
    match v {
        Some(s) => s@,
        None => default,
    }
}

/// The gateway port: the value of the variable when it parses as a `u16`,
/// else 11434.
pub open spec fn port_of(v: Option<String>) -> int {
    match v {
        Some(s) => match parse_unsigned(s@, 65535) {
            Some(n) => n,
            None => 11434,
        },
        None => 11434,
    }
}

fn text_or(v: Option<String>, default: &str) -> (r: String)
    ensures
        r@ == or_default(v, default@),
{
    match v {
        Some(s) => s,
        None => {
            let d = chars_of(default);
            string_of(&d)
        },
    }
}

impl Config {
    /// The configuration given by the environment variables `vars`: each
    /// setting takes its variable's value, or its default when unset; the
    /// port falls back to 11434 when it does not parse.
    pub fn from_vars(vars: ConfigVars) -> (r: Config)
        ensures
            r.gateway_host@ == or_default(vars.gateway_host, "[::]"@),
            r.gateway_port == port_of(vars.gateway_port),
            r.ollama_base_url@ == or_default(vars.ollama_base_url, "http://localhost:11434"@),
            r.llama_socket@ == or_default(vars.llama_socket, "/run/agentix/llama.sock"@),
            r.whisper_socket@ == or_default(vars.whisper_socket, "/run/agentix/whisper.sock"@),
            r.agentix_api_key == vars.agentix_api_key,
            r.anthropic_api_key == vars.anthropic_api_key,
            r.openai_api_key == vars.openai_api_key,
            r.openrouter_api_key == vars.openrouter_api_key,
            r.anthropic_base_url == vars.anthropic_base_url,
            r.openai_base_url == vars.openai_base_url,
    {
        let port: u16 = match &vars.gateway_port {
            Some(s) => match parse_decimal(s.as_str(), 65535) {
                Some(n) => n as u16,
                None => 11434,
            },
            None => 11434,
        };
        Config {
            gateway_host: text_or(vars.gateway_host, "[::]"),
            gateway_port: port,
            ollama_base_url: text_or(vars.ollama_base_url, "http://localhost:11434"),
            llama_socket: text_or(vars.llama_socket, "/run/agentix/llama.sock"),
            whisper_socket: text_or(vars.whisper_socket, "/run/agentix/whisper.sock"),
            agentix_api_key: vars.agentix_api_key,
            anthropic_api_key: vars.anthropic_api_key,
            openai_api_key: vars.openai_api_key,
            openrouter_api_key: vars.openrouter_api_key,
            anthropic_base_url: vars.anthropic_base_url,
            openai_base_url: vars.openai_base_url,
        }
    }
}

/// A model the gateway lists: its id and owner.
#[derive(Clone, Debug)]
pub struct ModelEntry {
    pub id: String,
    pub owned_by: String,
}

/// The cloud models listed next to the local ones: `gpt-4o` with an OpenAI
/// key, and the OpenRouter wildcard with an OpenRouter key, in that order.
pub open spec fn cloud_model_specs(openai: bool, openrouter: bool) -> Seq<(Seq<char>, Seq<char>)> {
    (if openai {
        seq![("gpt-4o"@, "openai"@)]
    } else {
        Seq::empty()
    }) + (if openrouter {
        seq![("openrouter/*"@, "openrouter"@)]
    } else {
        Seq::empty()
    })
}

/// Model of a list of entries.
pub open spec fn entry_views(es: Seq<ModelEntry>) -> Seq<(Seq<char>, Seq<char>)> {
    Seq::new(es.len(), |i: int| (es[i].id@, es[i].owned_by@))
}

fn entry(id: &str, owner: &str) -> (r: ModelEntry)
    ensures
        r.id@ == id@,
        r.owned_by@ == owner@,
{
    let i = chars_of(id);
    let o = chars_of(owner);
    ModelEntry { id: string_of(&i), owned_by: string_of(&o) }
}

/// The cloud models for the keys set in `config`.
pub fn cloud_models(config: &Config) -> (r: Vec<ModelEntry>)
    ensures
        entry_views(r@) == cloud_model_specs(
            config.openai_api_key is Some,
            config.openrouter_api_key is Some,
        ),
{
    let mut out: Vec<ModelEntry> = Vec::new();
    if config.openai_api_key.is_some() {
        out.push(entry("gpt-4o", "openai"));
    }
    if config.openrouter_api_key.is_some() {
        out.push(entry("openrouter/*", "openrouter"));
    }
    assert(entry_views(out@) =~= cloud_model_specs(
        config.openai_api_key is Some,
        config.openrouter_api_key is Some,
    ));
    out
}

/// Whether an embedding request goes on to Ollama: only when the local
/// backend answered 503 Service Unavailable.
pub fn falls_back_to_ollama(status: u16) -> (r: bool)
    ensures
        r == (status == 503),
{
    status == 503
}

/// The Ollama URL for `path` (`"{base}{path}"`).
pub fn ollama_url(base: &str, path: &str) -> (r: String)
    ensures
        r@ == base@ + path@,
{
    let mut b = chars_of(base);
    let p = chars_of(path);
    extend_chars(&mut b, &p);
    string_of(&b)
}


/// The headers of a request forwarded to a backend socket: the client's,
/// in order, then `host: localhost` when the client sent no `host` header
/// (HTTP/1.1 requires one). Header names are taken as lower case, as the
/// HTTP layer hands them over.
pub open spec fn forward_headers_spec(headers: Seq<(Seq<char>, Seq<char>)>) -> Seq<(Seq<char>, Seq<char>)> {
    if exists|i: int| 0 <= i < headers.len() && (#[trigger] headers[i]).0 == "host"@ {
        headers
    } else {
        headers.push(("host"@, "localhost"@))
    }
}

/// The model of a list of headers.
pub open spec fn header_views(hs: Seq<(String, String)>) -> Seq<(Seq<char>, Seq<char>)> {
    Seq::new(hs.len(), |i: int| (hs[i].0@, hs[i].1@))
}

/// The headers of a forwarded request (see [`forward_headers_spec`]).
pub fn forward_headers(headers: &[(String, String)]) -> (r: Vec<(String, String)>)
    ensures
        header_views(r@) == forward_headers_spec(header_views(headers@)),
{
    let mut out: Vec<(String, String)> = Vec::new();
    let mut has_host = false;
    let mut i: usize = 0;
    while i < headers.len()
        invariant
            i <= headers.len(),
            header_views(out@) == header_views(headers@).take(i as int),
            has_host == exists|j: int|
                0 <= j < i && (#[trigger] header_views(headers@)[j]).0 == "host"@,
        decreases headers.len() - i,
    {
        let (name, value) = &headers[i];
        let nv = chars_of(name.as_str());
        let is_host = crate::text::is_text(&nv, "host");
        let ghost before = out@;
        out.push((name.clone(), value.clone()));
        assert(header_views(out@) =~= header_views(before).push((name@, value@)));
        assert(header_views(headers@).take(i + 1) =~= header_views(headers@).take(i as int).push(
            (name@, value@),
        ));
        proof {
            if is_host {
                assert(header_views(headers@)[i as int].0 == "host"@);
            } else {
                assert forall|j: int|
                    0 <= j < i + 1 && (#[trigger] header_views(headers@)[j]).0 == "host"@ implies j
                    < i by {}
            }
        }
        if is_host {
            has_host = true;
        }
        i = i + 1;
    }
    assert(header_views(headers@).take(i as int) =~= header_views(headers@));
    if !has_host {
        let hv = chars_of("host");
        let lv = chars_of("localhost");
        let ghost before = out@;
        out.push((string_of(&hv), string_of(&lv)));
        assert(header_views(out@) =~= header_views(before).push(("host"@, "localhost"@)));
    }
    out
}

} // verus!
