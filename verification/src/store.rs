//! The on-disk model store: where manifests and aliases live, how a pull is
//! routed, and the manifest written for a pulled model.
use vstd::prelude::*;

use crate::infer::{
    detect_format, spec_detect_format, BackendHint, Capability, DetectedMeta, InferError,
    ModelFormat,
};
use crate::text::{
    distinct_keys, entries_map, lemma_entries_map, first_value, pair_views, chars_eq, chars_of, copy_range, extend_chars, has_prefix, is_text, starts_with, string_of,
};

verus! {

broadcast use vstd::seq_lib::group_seq_properties;

// ── Paths ─────────────────────────────────────────────────────────────────────

/// `PathBuf::join` on Unix: an absolute `p` replaces `base`; otherwise `p` is
/// appended, after a `'/'` unless `base` is empty or already ends with one.
pub open spec fn path_join(base: Seq<char>, p: Seq<char>) -> Seq<char> {
    if p.len() > 0 && p[0] == '/' {
        p
    } else if base.len() == 0 || base.last() == '/' {
        base + p
    } else {
        base + seq!['/'] + p
    }
}

/// Joins `p` onto `base` (see [`path_join`]).
pub fn join_path(base: &str, p: &str) -> (r: String)
    ensures
        r@ == path_join(base@, p@),
{
    let b = chars_of(base);
    let pv = chars_of(p);
    if pv.len() > 0 && pv[0] == '/' {
        return string_of(&pv);
    }
    let mut out = b;
    if out.len() > 0 && out[out.len() - 1] != '/' {
        out.push('/');
    }
    extend_chars(&mut out, &pv);
    string_of(&out)
}

/// A relative path joined onto `base` lies under `base`.
pub proof fn lemma_join_stays_under(base: Seq<char>, p: Seq<char>)
    requires
        !(p.len() > 0 && p[0] == '/'),
    ensures
        has_prefix(path_join(base, p), base),
{
    assert(path_join(base, p).take(base.len() as int) =~= base);
}

/// Position of the last `'/'` of `s`, or `-1`.
pub open spec fn last_slash(s: Seq<char>) -> int
    decreases s.len(),
{
    if s.len() == 0 {
        -1
    } else if s.last() == '/' {
        s.len() - 1
    } else {
        last_slash(s.drop_last())
    }
}

/// Bounds and meaning of [`last_slash`].
pub proof fn lemma_last_slash(s: Seq<char>)
    ensures
        -1 <= last_slash(s) < s.len(),
        last_slash(s) >= 0 ==> s[last_slash(s)] == '/',
        forall|j: int| last_slash(s) < j < s.len() ==> s[j] != '/',
    decreases s.len(),
{
    if s.len() > 0 && s.last() != '/' {
        lemma_last_slash(s.drop_last());
        assert forall|j: int| last_slash(s) < j < s.len() implies s[j] != '/' by {
            if j < s.len() - 1 {
                assert(s[j] == s.drop_last()[j]);
            }
        }
    }
}

/// `Path::file_name` on Unix: the last component of `p`, skipping empty and
/// `.` components; none when there is no component or the last is `..`.
pub open spec fn file_name_of(p: Seq<char>) -> Option<Seq<char>>
    decreases p.len(),
{
    if p.len() == 0 {
        None
    } else {
        let k = last_slash(p);
        let tail = p.skip(k + 1);
        if tail.len() == 0 || tail == seq!['.'] {
            if k < 0 {
                None
            } else {
                proof {
                    lemma_last_slash(p);
                }
                file_name_of(p.take(k))
            }
        } else if tail == seq!['.', '.'] {
            None
        } else {
            Some(tail)
        }
    }
}

/// The file name of the path `p` (see [`file_name_of`]).
pub fn file_name(p: &str) -> (r: Option<String>)
    ensures
        r matches Some(s) ==> file_name_of(p@) == Some(s@),
        r is None ==> file_name_of(p@) is None,
{
    let v = chars_of(p);
    let mut end: usize = v.len();
    loop
        invariant
            end <= v.len(),
            file_name_of(p@) == file_name_of(v@.take(end as int)),
            v@ == p@,
        decreases end,
    {
        if end == 0 {
            return None;
        }
        let ghost s = v@.take(end as int);
        let mut k: usize = end;
        while k > 0 && v[k - 1] != '/'
            invariant
                k <= end <= v.len(),
                forall|j: int| k <= j < end ==> v@[j] != '/',
            decreases k,
        {
            k = k - 1;
        }
        proof {
            lemma_last_slash(s);
            if k > 0 {
                assert(s[k - 1] == '/');
                assert(last_slash(s) == k - 1);
            } else if last_slash(s) >= 0 {
                assert(s[last_slash(s)] == '/');
            }
            assert(s.skip(last_slash(s) + 1) =~= v@.subrange(k as int, end as int));
        }
        let tail_len = end - k;
        if tail_len == 0 || (tail_len == 1 && v[k] == '.') {
            proof {
                if tail_len == 1 {
                    assert(v@.subrange(k as int, end as int) =~= seq!['.']);
                }
            }
            if k == 0 {
                return None;
            }
            proof {
                assert(s.take(k - 1) =~= v@.take(k - 1));
            }
            end = k - 1;
        } else if tail_len == 2 && v[k] == '.' && v[k + 1] == '.' {
            assert(v@.subrange(k as int, end as int) =~= seq!['.', '.']);
            return None;
        } else {
            proof {
                let t = v@.subrange(k as int, end as int);
                if t == seq!['.'] {
                    assert(t[0] == '.');
                }
                if t == seq!['.', '.'] {
                    assert(t[0] == '.' && t[1] == '.');
                }
            }
            let t = copy_range(&v, k, end);
            return Some(string_of(&t));
        }
    }
}

// ── The store ─────────────────────────────────────────────────────────────────

/// A model store rooted at `models_dir`.
pub struct ModelStore {
    pub models_dir: String,
}

/// The plan for recording an alias: write `contents`, the alias map with
/// `alias` pointing at `canonical`, to `temp_file`, then rename it to
/// `aliases_file`.
#[derive(Debug, Clone)]
pub struct AliasWrite {
    pub aliases_file: String,
    pub temp_file: String,
    pub alias: String,
    pub canonical: String,
    pub contents: Vec<u8>,
}

/// How a model reference is pulled.
#[derive(Debug, Clone)]
pub enum PullSource {
    /// A file on this machine, registered under its file name.
    Local { path: String, name: String, format: ModelFormat, manifest_path: String },
    /// A HuggingFace Hub reference, registered under the reference itself.
    Hub { name: String, manifest_path: String },
}

/// The directory holding the manifests of a store.
pub open spec fn manifests_dir(dir: Seq<char>) -> Seq<char> {
    path_join(dir, "manifests"@)
}

/// Where the manifest of the model `name` is written: `manifests/agentix/<name>/latest`.
pub open spec fn manifest_path_spec(dir: Seq<char>, name: Seq<char>) -> Seq<char> {
    path_join(path_join(path_join(manifests_dir(dir), "agentix"@), name), "latest"@)
}

/// The alias map of a store.
pub open spec fn aliases_path_spec(dir: Seq<char>) -> Seq<char> {
    path_join(manifests_dir(dir), "_aliases.json"@)
}

/// A model reference names a file on this machine when it starts with `/` or `./`.
pub open spec fn is_local_ref(model_ref: Seq<char>) -> bool {
    has_prefix(model_ref, seq!['/']) || has_prefix(model_ref, seq!['.', '/'])
}

/// The layer media types that hold model weights.
pub open spec fn is_weights_media_type(t: Seq<char>) -> bool {
    t == "application/vnd.ollama.image.model"@ || t == "application/vnd.ollama.image.tensor"@
}

impl ModelStore {
    /// The store rooted at `models_dir`.
    pub fn new(models_dir: String) -> (r: Self)
        ensures
            r.models_dir@ == models_dir@,
    {
        ModelStore { models_dir }
    }

    /// Where the manifest of the model `name` lives (`manifests/agentix/<name>/latest`).
    pub fn manifest_path_for(&self, name: &str) -> (r: String)
        ensures
            r@ == manifest_path_spec(self.models_dir@, name@),
    {
        let m = join_path(self.models_dir.as_str(), "manifests");
        let a = join_path(m.as_str(), "agentix");
        let n = join_path(a.as_str(), name);
        join_path(n.as_str(), "latest")
    }

    /// The alias map of the store (`manifests/_aliases.json`).
    pub fn aliases_path(&self) -> (r: String)
        ensures
            r@ == aliases_path_spec(self.models_dir@),
    {
        let m = join_path(self.models_dir.as_str(), "manifests");
        join_path(m.as_str(), "_aliases.json")
    }

    /// Registers an alias pointing to a canonical model name, given the
    /// alias file's text `current` (no bytes when there is no file): nothing
    /// to do when they are the same, else the write that records it, whose
    /// contents read back as the stored map (none when it cannot be read)
    /// with the alias pointing at its canonical name, an earlier mapping of
    /// the alias replaced and every other entry kept.
    pub fn add_alias(&self, alias: &str, canonical: &str, current: &[u8]) -> (r: Option<AliasWrite>)
        ensures
            alias@ == canonical@ <==> r is None,
            r matches Some(w) ==> w.aliases_file@ == aliases_path_spec(self.models_dir@)
                && w.temp_file@ == aliases_path_spec(self.models_dir@) + ".tmp"@ && w.alias@
                == alias@ && w.canonical@ == canonical@ && aliases_json(w.contents@) == Some(
                stored_aliases(current@).insert(alias@, canonical@),
            ),
    {
        let av = chars_of(alias);
        let cv = chars_of(canonical);
        if chars_eq(&av, &cv) {
            return None;
        }
        let file = self.aliases_path();
        let mut t = chars_of(file.as_str());
        let ext = chars_of(".tmp");
        extend_chars(&mut t, &ext);
        Some(AliasWrite {
            aliases_file: file,
            temp_file: string_of(&t),
            alias: string_of(&av),
            canonical: string_of(&cv),
            contents: alias_file_contents(current, alias, canonical),
        })
    }

    /// Decides how `model_ref` is pulled: a local path (starting with `/` or
    /// `./`) is registered under its file name, anything else is fetched from
    /// the Hub under the reference itself. A local path without a file name
    /// is refused.
    pub fn pull(&self, model_ref: &str) -> (r: Result<PullSource, InferError>)
        ensures
            is_local_ref(model_ref@) && file_name_of(model_ref@) is None <==> r is Err,
            r matches Err(e) ==> e matches InferError::DownloadFailed(m) && m@
                == "invalid local path"@,
            r matches Ok(PullSource::Local { path, name, format, manifest_path }) ==> is_local_ref(
                model_ref@,
            ) && path@ == model_ref@ && file_name_of(model_ref@) == Some(name@) && format
                == spec_detect_format(name@) && manifest_path@ == manifest_path_spec(
                self.models_dir@,
                name@,
            ),
            r matches Ok(PullSource::Hub { name, manifest_path }) ==> !is_local_ref(model_ref@)
                && name@ == model_ref@ && manifest_path@ == manifest_path_spec(
                self.models_dir@,
                model_ref@,
            ),
    {
        let v = chars_of(model_ref);
        let slash = chars_of("/");
        let dot_slash = chars_of("./");
        proof {
            reveal_strlit("/");
            reveal_strlit("./");
            assert("/"@ =~= seq!['/']);
            assert("./"@ =~= seq!['.', '/']);
        }
        if starts_with(&v, &slash) || starts_with(&v, &dot_slash) {
            match file_name(model_ref) {
                Some(name) => {
                    let format = detect_format(name.as_str());
                    let manifest_path = self.manifest_path_for(name.as_str());
                    Ok(PullSource::Local { path: string_of(&v), name, format, manifest_path })
                },
                None => {
                    let m = chars_of("invalid local path");
                    Err(InferError::DownloadFailed(string_of(&m)))
                },
            }
        } else {
            let manifest_path = self.manifest_path_for(model_ref);
            Ok(PullSource::Hub { name: string_of(&v), manifest_path })
        }
    }

    /// The blob hash of the model weights of `manifest`: the digest of its
    /// first weights layer, without its `sha256:` prefix; none when there is
    /// no such layer or its digest is not a SHA-256 one.
    pub fn resolve(&self, manifest: &Manifest) -> (r: Option<String>)
        ensures
            r matches Some(h) ==> resolve_spec(layer_views(manifest.layers@)) == Some(h@),
            r is None ==> resolve_spec(layer_views(manifest.layers@)) is None,
    {
        let mut i: usize = 0;
        while i < manifest.layers.len()
            invariant
                i <= manifest.layers.len(),
                forall|j: int|
                    0 <= j < i ==> !is_weights_media_type(
                        #[trigger] layer_views(manifest.layers@)[j].media_type,
                    ),
            decreases manifest.layers.len() - i,
        {
            let layer = &manifest.layers[i];
            let t = chars_of(layer.media_type.as_str());
            if is_text(&t, "application/vnd.ollama.image.model") || is_text(
                &t,
                "application/vnd.ollama.image.tensor",
            ) {
                proof {
                    lemma_first_weights_layer(layer_views(manifest.layers@), i as int);
                }
                let d = chars_of(layer.digest.as_str());
                let p = chars_of("sha256:");
                if starts_with(&d, &p) {
                    proof {
                        reveal_strlit("sha256:");
                    }
                    let h = copy_range(&d, 7, d.len());
                    assert(h@ =~= d@.skip(7));
                    return Some(string_of(&h));
                }
                return None;
            }
            assert(!is_weights_media_type(layer_views(manifest.layers@)[i as int].media_type));
            i = i + 1;
        }
        proof {
            lemma_no_weights_layer(layer_views(manifest.layers@));
        }
        None
    }
}

// ── Manifests ─────────────────────────────────────────────────────────────────

/// One layer of a manifest.
#[derive(Debug, Clone)]
pub struct ManifestLayer {
    pub media_type: String,
    pub digest: String,
    pub size: u64,
    pub from: Option<String>,
}

/// What agentix adds to a manifest.
#[derive(Debug, Clone)]
pub struct AgentixExtension {
    pub backend: BackendHint,
    pub capabilities: Vec<Capability>,
    pub architecture: Option<String>,
    pub context_length: Option<u32>,
    pub embedding_length: Option<u32>,
    pub quantization: Option<String>,
    pub parameter_count: Option<u64>,
}

/// An OCI-style manifest of a stored model.
#[derive(Debug, Clone)]
pub struct Manifest {
    pub schema_version: u32,
    pub media_type: String,
    pub config: ManifestLayer,
    pub layers: Vec<ManifestLayer>,
    pub _agentix: Option<AgentixExtension>,
}

/// Model of a layer: its media type and digest.
pub struct LayerSpec {
    pub media_type: Seq<char>,
    pub digest: Seq<char>,
}

/// Models of a sequence of layers.
pub open spec fn layer_views(ls: Seq<ManifestLayer>) -> Seq<LayerSpec> {
    Seq::new(ls.len(), |i: int| LayerSpec { media_type: ls[i].media_type@, digest: ls[i].digest@ })
}

/// Position of the first weights layer at or after `i`.
pub open spec fn first_weights_layer(ls: Seq<LayerSpec>, i: int) -> Option<int>
    decreases ls.len() - i,
{
    if i < 0 || i >= ls.len() {
        None
    } else if is_weights_media_type(ls[i].media_type) {
        Some(i)
    } else {
        first_weights_layer(ls, i + 1)
    }
}

/// The blob hash of the first weights layer, if its digest is a SHA-256 one.
pub open spec fn resolve_spec(ls: Seq<LayerSpec>) -> Option<Seq<char>> {
    match first_weights_layer(ls, 0) {
        Some(i) => if has_prefix(ls[i].digest, "sha256:"@) {
            Some(ls[i].digest.skip(7))
        } else {
            None
        },
        None => None,
    }
}

proof fn lemma_first_weights_layer(ls: Seq<LayerSpec>, i: int)
    requires
        0 <= i < ls.len(),
        is_weights_media_type(ls[i].media_type),
        forall|j: int| 0 <= j < i ==> !is_weights_media_type(#[trigger] ls[j].media_type),
    ensures
        first_weights_layer(ls, 0) == Some(i),
{
    lemma_first_weights_from(ls, 0, i);
}

proof fn lemma_first_weights_from(ls: Seq<LayerSpec>, k: int, i: int)
    requires
        0 <= k <= i < ls.len(),
        is_weights_media_type(ls[i].media_type),
        forall|j: int| k <= j < i ==> !is_weights_media_type(#[trigger] ls[j].media_type),
    ensures
        first_weights_layer(ls, k) == Some(i),
    decreases i - k,
{
    if k < i {
        lemma_first_weights_from(ls, k + 1, i);
    }
}

proof fn lemma_no_weights_layer(ls: Seq<LayerSpec>)
    requires
        forall|j: int| 0 <= j < ls.len() ==> !is_weights_media_type(#[trigger] ls[j].media_type),
    ensures
        first_weights_layer(ls, 0) is None,
{
    lemma_no_weights_from(ls, 0);
}

proof fn lemma_no_weights_from(ls: Seq<LayerSpec>, k: int)
    requires
        0 <= k <= ls.len(),
        forall|j: int| k <= j < ls.len() ==> !is_weights_media_type(#[trigger] ls[j].media_type),
    ensures
        first_weights_layer(ls, k) is None,
    decreases ls.len() - k,
{
    if k < ls.len() {
        lemma_no_weights_from(ls, k + 1);
    }
}

/// The blob hash named by a layer digest: the digest without its `sha256:`
/// prefix, or the whole digest when it has none.
pub open spec fn digest_hash_spec(digest: Seq<char>) -> Seq<char> {
    if has_prefix(digest, "sha256:"@) {
        digest.skip(7)
    } else {
        digest
    }
}

/// The blob hash named by the layer digest `digest` (see [`digest_hash_spec`]).
pub fn digest_hash(digest: &str) -> (r: String)
    ensures
        r@ == digest_hash_spec(digest@),
{
    let d = chars_of(digest);
    let p = chars_of("sha256:");
    if starts_with(&d, &p) {
        proof {
            reveal_strlit("sha256:");
        }
        let h = copy_range(&d, 7, d.len());
        assert(h@ =~= d@.skip(7));
        string_of(&h)
    } else {
        string_of(&d)
    }
}

/// `"sha256:" + hash`.
fn sha256_digest_of(hash: &str) -> (r: String)
    ensures
        r@ == "sha256:"@ + hash@,
{
    let mut d = chars_of("sha256:");
    let h = chars_of(hash);
    extend_chars(&mut d, &h);
    string_of(&d)
}

fn lit(s: &str) -> (r: String)
    ensures
        r@ == s@,
{
    let v = chars_of(s);
    string_of(&v)
}

fn copy_caps(caps: &Vec<Capability>) -> (r: Vec<Capability>)
    ensures
        r@ == caps@,
{
    let mut out: Vec<Capability> = Vec::new();
    let mut i: usize = 0;
    while i < caps.len()
        invariant
            i <= caps.len(),
            out@ == caps@.take(i as int),
        decreases caps.len() - i,
    {
        out.push(caps[i]);
        i = i + 1;
        assert(out@ =~= caps@.take(i as int));
    }
    assert(caps@.take(i as int) =~= caps@);
    out
}

/// The manifest written for a model whose weights are the blob `hash` of
/// `size` bytes: one weights layer, a config pointing at the same blob, and
/// the detected metadata (zero or empty values recorded as absent).
pub fn build_manifest(
    hash: &str,
    size: u64,
    _format: ModelFormat,
    backend: BackendHint,
    meta: &DetectedMeta,
    _name: &str,
) -> (r: Manifest)
    ensures
        r.schema_version == 2,
        r.media_type@ == "application/vnd.docker.distribution.manifest.v2+json"@,
        r.config.media_type@ == "application/vnd.docker.container.image.v1+json"@,
        r.config.digest@ == "sha256:"@ + hash@,
        r.config.size == 0,
        r.config.from is None,
        r.layers@.len() == 1,
        r.layers@[0].media_type@ == "application/vnd.ollama.image.model"@,
        r.layers@[0].digest@ == "sha256:"@ + hash@,
        r.layers@[0].size == size,
        r.layers@[0].from is None,
        r._agentix is Some,
        r._agentix matches Some(x) ==> {
            &&& x.backend == backend
            &&& x.capabilities@ == meta.capabilities@
            &&& (meta.architecture@.len() == 0 <==> x.architecture is None)
            &&& (x.architecture matches Some(a) ==> a@ == meta.architecture@)
            &&& x.context_length == (if meta.context_length > 0 {
                Some(meta.context_length)
            } else {
                None
            })
            &&& x.embedding_length == (if meta.embedding_length > 0 {
                Some(meta.embedding_length)
            } else {
                None
            })
            &&& x.quantization is None
            &&& x.parameter_count == (if meta.parameter_count > 0 {
                Some(meta.parameter_count)
            } else {
                None
            })
        },
{
    let layer = ManifestLayer {
        media_type: lit("application/vnd.ollama.image.model"),
        digest: sha256_digest_of(hash),
        size,
        from: None,
    };
    let mut layers: Vec<ManifestLayer> = Vec::new();
    layers.push(layer);
    let arch = chars_of(meta.architecture.as_str());
    let architecture = if arch.len() == 0 {
        None
    } else {
        Some(string_of(&arch))
    };
    Manifest {
        schema_version: 2,
        media_type: lit("application/vnd.docker.distribution.manifest.v2+json"),
        config: ManifestLayer {
            media_type: lit("application/vnd.docker.container.image.v1+json"),
            digest: sha256_digest_of(hash),
            size: 0,
            from: None,
        },
        layers,
        _agentix: Some(AgentixExtension {
            backend,
            capabilities: copy_caps(&meta.capabilities),
            architecture,
            context_length: if meta.context_length > 0 {
                Some(meta.context_length)
            } else {
                None
            },
            embedding_length: if meta.embedding_length > 0 {
                Some(meta.embedding_length)
            } else {
                None
            },
            quantization: None,
            parameter_count: if meta.parameter_count > 0 {
                Some(meta.parameter_count)
            } else {
                None
            },
        }),
    }
}



/// Where the manifest of `name` is looked for, in order: under the name
/// itself, then under the canonical name the alias map gives it. The first
/// of these that exists is the model's manifest.
pub open spec fn manifest_candidates_spec(
    dir: Seq<char>,
    name: Seq<char>,
    aliases: Seq<(Seq<char>, Seq<char>)>,
) -> Seq<Seq<char>> {
    match first_value(aliases, name) {
        Some(c) => seq![manifest_path_spec(dir, name), manifest_path_spec(dir, c)],
        None => seq![manifest_path_spec(dir, name)],
    }
}

impl ModelStore {
    /// The paths where the manifest of `name` may be found, in the order
    /// they are tried (see [`manifest_candidates_spec`]); `aliases` is the
    /// store's alias map.
    pub fn manifest_candidates(&self, name: &str, aliases: &[(String, String)]) -> (r: Vec<String>)
        ensures
            crate::text::string_views(r@) == manifest_candidates_spec(
                self.models_dir@,
                name@,
                pair_views(aliases@),
            ),
    {
        let mut out: Vec<String> = Vec::new();
        let first = self.manifest_path_for(name);
        out.push(first);
        let nv = chars_of(name);
        let ghost av = pair_views(aliases@);
        let mut i: usize = 0;
        while i < aliases.len()
            invariant
                i <= aliases.len(),
                av == pair_views(aliases@),
                nv@ == name@,
                first_value(av, name@) == first_value(av.skip(i as int), name@),
                crate::text::string_views(out@) == seq![manifest_path_spec(self.models_dir@, name@)],
            decreases aliases.len() - i,
        {
            let kv = chars_of(aliases[i].0.as_str());
            assert(av.skip(i as int)[0] == av[i as int]);
            if chars_eq(&kv, &nv) {
                let p = self.manifest_path_for(aliases[i].1.as_str());
                proof {
                    crate::text::lemma_string_views_push(out@, p);
                }
                out.push(p);
                assert(crate::text::string_views(out@) =~= manifest_candidates_spec(
                    self.models_dir@,
                    name@,
                    av,
                ));
                return out;
            }
            assert(av.skip(i as int).drop_first() =~= av.skip(i + 1));
            i = i + 1;
        }
        assert(av.skip(i as int) =~= Seq::<(Seq<char>, Seq<char>)>::empty());
        out
    }
}


/// The alias map `aliases` without the entries whose key is `key`.
pub open spec fn without_key(aliases: Seq<(Seq<char>, Seq<char>)>, key: Seq<char>) -> Seq<
    (Seq<char>, Seq<char>),
>
    decreases aliases.len(),
{
    if aliases.len() == 0 {
        Seq::empty()
    } else if aliases[0].0 == key {
        without_key(aliases.drop_first(), key)
    } else {
        seq![aliases[0]] + without_key(aliases.drop_first(), key)
    }
}

/// The alias map `aliases` with `alias` pointing at `canonical`, replacing
/// what it pointed at before.
pub open spec fn alias_insert(
    aliases: Seq<(Seq<char>, Seq<char>)>,
    alias: Seq<char>,
    canonical: Seq<char>,
) -> Seq<(Seq<char>, Seq<char>)> {
    without_key(aliases, alias).push((alias, canonical))
}

/// The alias map to write when `alias` is registered for `canonical` (see
/// [`alias_insert`]); with distinct keys they stay distinct, and the map
/// they make gains the alias, every other entry kept.
pub fn aliases_with(aliases: &[(String, String)], alias: &str, canonical: &str) -> (r: Vec<
    (String, String),
>)
    ensures
        pair_views(r@) == alias_insert(pair_views(aliases@), alias@, canonical@),
        distinct_keys(pair_views(aliases@)) ==> distinct_keys(pair_views(r@)) && entries_map(
            pair_views(r@),
        ) == entries_map(pair_views(aliases@)).insert(alias@, canonical@),
{
    let ghost av = pair_views(aliases@);
    let av_key = chars_of(alias);
    let mut out: Vec<(String, String)> = Vec::new();
    let mut i: usize = 0;
    assert(av.skip(0) =~= av);
    assert(pair_views(out@) =~= Seq::<(Seq<char>, Seq<char>)>::empty());
    while i < aliases.len()
        invariant
            i <= aliases.len(),
            av == pair_views(aliases@),
            av_key@ == alias@,
            without_key(av, alias@) == pair_views(out@) + without_key(av.skip(i as int), alias@),
        decreases aliases.len() - i,
    {
        let (k, v) = &aliases[i];
        let kv = chars_of(k.as_str());
        assert(av.skip(i as int)[0] == av[i as int]);
        assert(av.skip(i as int).drop_first() =~= av.skip(i + 1));
        if !chars_eq(&kv, &av_key) {
            let ghost before = out@;
            out.push((k.clone(), v.clone()));
            assert(pair_views(out@) =~= pair_views(before) + seq![av[i as int]]);
            assert(pair_views(out@) + without_key(av.skip(i + 1), alias@) =~= pair_views(before)
                + (seq![av[i as int]] + without_key(av.skip(i + 1), alias@)));
        }
        i = i + 1;
    }
    assert(av.skip(i as int) =~= Seq::<(Seq<char>, Seq<char>)>::empty());
    assert(pair_views(out@) + Seq::<(Seq<char>, Seq<char>)>::empty() =~= pair_views(out@));
    let ghost before = out@;
    out.push((string_of(&av_key), string_of(&chars_of(canonical))));
    assert(pair_views(out@) =~= pair_views(before).push((alias@, canonical@)));
    proof {
        if distinct_keys(av) {
            lemma_alias_insert_map(av, alias@, canonical@);
        }
    }
    out
}

// ── The alias file ────────────────────────────────────────────────────────────

/// What `serde_json` reads from the alias file: none unless the bytes are a
/// JSON object whose values are all strings; otherwise each alias with the
/// name it stands for.
pub uninterp spec fn aliases_json(bytes: Seq<u8>) -> Option<Map<Seq<char>, Seq<char>>>;

/// Parses `bytes` with `serde_json::from_slice` into a
/// `HashMap<String, String>` and lists its entries, each key once. Named
/// [`aliases_json`]: the JSON grammar is not restated here, and the order of
/// the entries (the map's own) is not stated.
#[verifier::external_body]
fn read_aliases_json(bytes: &[u8]) -> (r: Option<Vec<(String, String)>>)
    ensures
        r is None <==> aliases_json(bytes@) is None,
        r matches Some(v) ==> distinct_keys(pair_views(v@)) && aliases_json(bytes@) == Some(
            entries_map(pair_views(v@)),
        ),
{
    serde_json::from_slice::<std::collections::HashMap<String, String>>(bytes).ok().map(
        |m| m.into_iter().collect(),
    )
}

/// Collects `aliases` into a `HashMap<String, String>` and serialises it
/// with `serde_json::to_vec_pretty`, which fails only for a `Serialize` impl
/// that fails or a map with keys that are not strings: never here. The order
/// of the keys in the text is the map's own and is not stated; what holds of
/// every text it gives is that it reads back as the same map.
#[verifier::external_body]
fn write_aliases_json(aliases: &[(String, String)]) -> (r: Option<Vec<u8>>)
    requires
        distinct_keys(pair_views(aliases@)),
    ensures
        r is Some,
        r matches Some(b) ==> aliases_json(b@) == Some(entries_map(pair_views(aliases@))),
{
    serde_json::to_vec_pretty(
        &aliases.iter().cloned().collect::<std::collections::HashMap<String, String>>(),
    ).ok()
}

/// The alias map stored as `bytes`: what they read as, or no alias at all
/// when they cannot be read (a missing file is read as no bytes).
pub open spec fn stored_aliases(bytes: Seq<u8>) -> Map<Seq<char>, Seq<char>> {
    match aliases_json(bytes) {
        Some(m) => m,
        None => Map::empty(),
    }
}

/// The aliases stored as `bytes`, each once (see [`stored_aliases`]); their
/// order is that of the parse, which is not stated.
pub fn aliases_or_empty(bytes: &[u8]) -> (r: Vec<(String, String)>)
    ensures
        distinct_keys(pair_views(r@)),
        entries_map(pair_views(r@)) == stored_aliases(bytes@),
{
    match read_aliases_json(bytes) {
        Some(v) => v,
        None => {
            let r: Vec<(String, String)> = Vec::new();
            assert(entries_map(pair_views(r@)) =~= Map::<Seq<char>, Seq<char>>::empty());
            r
        },
    }
}

proof fn lemma_without_key(ps: Seq<(Seq<char>, Seq<char>)>, k: Seq<char>)
    ensures
        forall|e: (Seq<char>, Seq<char>)| #[trigger] without_key(ps, k).contains(e) <==> (ps.contains(e) && e.0 != k),
        distinct_keys(ps) ==> distinct_keys(without_key(ps, k)),
    decreases ps.len(),
{
    if ps.len() > 0 {
        let rest = ps.drop_first();
        lemma_without_key(rest, k);
        let w = without_key(ps, k);
        let wr = without_key(rest, k);
        assert forall|e: (Seq<char>, Seq<char>)| #[trigger] w.contains(e) <==> (ps.contains(e) && e.0 != k) by {
            if ps.contains(e) {
                let i = choose|i: int| 0 <= i < ps.len() && ps[i] == e;
                if i > 0 {
                    assert(rest[i - 1] == e);
                    assert(rest.contains(e));
                }
            }
            if rest.contains(e) {
                let i = choose|i: int| 0 <= i < rest.len() && rest[i] == e;
                assert(ps[i + 1] == e);
            }
            if ps[0].0 != k {
                assert(w == seq![ps[0]] + wr);
                if w.contains(e) {
                    let j = choose|j: int| 0 <= j < w.len() && w[j] == e;
                    if j > 0 {
                        assert(wr[j - 1] == e);
                    }
                }
                if wr.contains(e) {
                    let j = choose|j: int| 0 <= j < wr.len() && wr[j] == e;
                    assert(w[j + 1] == e);
                }
                assert(w[0] == ps[0]);
            }
        }
        if distinct_keys(ps) {
            assert(distinct_keys(rest)) by {
                assert forall|a: int, b: int|
                    0 <= a < rest.len() && 0 <= b < rest.len() && a != b implies #[trigger] rest[a].0
                    != #[trigger] rest[b].0 by {
                    assert(rest[a] == ps[a + 1] && rest[b] == ps[b + 1]);
                }
            }
            if ps[0].0 != k {
                assert(w == seq![ps[0]] + wr);
                assert forall|a: int, b: int|
                    0 <= a < w.len() && 0 <= b < w.len() && a != b implies #[trigger] w[a].0 != #[trigger] w[b].0 by {
                    if a > 0 && b > 0 {
                        assert(w[a] == wr[a - 1] && w[b] == wr[b - 1]);
                    } else {
                        let o = if a == 0 { b } else { a };
                        assert(w[o] == wr[o - 1]);
                        assert(wr.contains(wr[o - 1]));
                        let i = choose|i: int| 0 <= i < rest.len() && rest[i] == wr[o - 1];
                        assert(ps[i + 1] == rest[i]);
                        assert(w[0] == ps[0]);
                    }
                }
            }
        }
    }
}

/// With distinct keys, registering an alias keeps the keys distinct and
/// maps the alias to its canonical name, every other entry kept.
proof fn lemma_alias_insert_map(ps: Seq<(Seq<char>, Seq<char>)>, alias: Seq<char>, canonical: Seq<char>)
    requires
        distinct_keys(ps),
    ensures
        distinct_keys(alias_insert(ps, alias, canonical)),
        entries_map(alias_insert(ps, alias, canonical)) == entries_map(ps).insert(alias, canonical),
{
    let w = without_key(ps, alias);
    let q = alias_insert(ps, alias, canonical);
    lemma_without_key(ps, alias);
    lemma_entries_map(w);
    lemma_entries_map(ps);
    assert forall|a: int, b: int|
        0 <= a < q.len() && 0 <= b < q.len() && a != b implies #[trigger] q[a].0 != #[trigger] q[b].0 by {
        if a < w.len() && b < w.len() {
            assert(q[a] == w[a] && q[b] == w[b]);
        } else {
            let o = if a < w.len() { a } else { b };
            assert(q[o] == w[o]);
            assert(w.contains(w[o]));
        }
    }
    assert(q.drop_last() =~= w);
    assert(entries_map(q) == entries_map(w).insert(alias, canonical));
    assert forall|x: Seq<char>| x != alias implies (#[trigger] entries_map(w).contains_key(x)
        == entries_map(ps).contains_key(x)) && (entries_map(w).contains_key(x) ==> entries_map(w)[x]
        == entries_map(ps)[x]) by {
        if entries_map(w).contains_key(x) {
            let j = choose|j: int| 0 <= j < w.len() && w[j].0 == x;
            assert(w.contains(w[j]));
            let i = choose|i: int| 0 <= i < ps.len() && ps[i] == w[j];
            assert(entries_map(w)[w[j].0] == w[j].1);
            assert(entries_map(ps)[ps[i].0] == ps[i].1);
        }
        if entries_map(ps).contains_key(x) {
            let i = choose|i: int| 0 <= i < ps.len() && ps[i].0 == x;
            assert(ps.contains(ps[i]));
            assert(w.contains(ps[i]));
            let j = choose|j: int| 0 <= j < w.len() && w[j] == ps[i];
        }
    }
    assert(entries_map(w).insert(alias, canonical) =~= entries_map(ps).insert(alias, canonical));
}

/// The text of the alias file after `alias` is registered for `canonical`,
/// given the file's text `current` (no bytes when there is no file): it
/// reads back as the stored map with the alias pointing at its canonical
/// name, an earlier mapping of the alias replaced and every other entry
/// kept.
pub fn alias_file_contents(current: &[u8], alias: &str, canonical: &str) -> (r: Vec<u8>)
    ensures
        aliases_json(r@) == Some(stored_aliases(current@).insert(alias@, canonical@)),
{
    let stored = aliases_or_empty(current);
    let updated = aliases_with(stored.as_slice(), alias, canonical);
    match write_aliases_json(updated.as_slice()) {
        Some(b) => b,
        None => {
            assert(false);
            Vec::new()
        },
    }
}

/// Looking a name up in a concatenation of alias maps finds it in the
/// first one when there, else in the second.
proof fn lemma_first_value_concat(
    a: Seq<(Seq<char>, Seq<char>)>,
    b: Seq<(Seq<char>, Seq<char>)>,
    name: Seq<char>,
)
    ensures
        first_value(a + b, name) == (match first_value(a, name) {
            Some(c) => Some(c),
            None => first_value(b, name),
        }),
    decreases a.len(),
{
    if a.len() == 0 {
        assert(a + b =~= b);
    } else {
        assert((a + b).drop_first() =~= a.drop_first() + b);
        lemma_first_value_concat(a.drop_first(), b, name);
    }
}

/// Removing the entries of `key` hides `key` and leaves every other name's
/// lookup unchanged.
proof fn lemma_first_value_without(aliases: Seq<(Seq<char>, Seq<char>)>, key: Seq<char>, name: Seq<char>)
    ensures
        first_value(without_key(aliases, key), name) == (if name == key {
            None
        } else {
            first_value(aliases, name)
        }),
    decreases aliases.len(),
{
    if aliases.len() > 0 {
        lemma_first_value_without(aliases.drop_first(), key, name);
        if aliases[0].0 != key {
            lemma_first_value_concat(seq![aliases[0]], without_key(aliases.drop_first(), key), name);
        }
    }
}

/// Registering an alias makes a lookup of the alias reach the canonical
/// model's manifest right after the alias's own path, and leaves the lookup
/// of every other name as it was.
pub proof fn lemma_registered_alias_is_found(
    dir: Seq<char>,
    aliases: Seq<(Seq<char>, Seq<char>)>,
    alias: Seq<char>,
    canonical: Seq<char>,
    name: Seq<char>,
)
    ensures
        manifest_candidates_spec(dir, alias, alias_insert(aliases, alias, canonical)) == seq![
            manifest_path_spec(dir, alias),
            manifest_path_spec(dir, canonical),
        ],
        name != alias ==> manifest_candidates_spec(dir, name, alias_insert(aliases, alias, canonical))
            == manifest_candidates_spec(dir, name, aliases),
{
    let w = without_key(aliases, alias);
    lemma_first_value_concat(w, seq![(alias, canonical)], alias);
    lemma_first_value_without(aliases, alias, alias);
    lemma_first_value_concat(w, seq![(alias, canonical)], name);
    lemma_first_value_without(aliases, alias, name);
    assert(w.push((alias, canonical)) =~= w + seq![(alias, canonical)]);
    let one = seq![(alias, canonical)];
    assert(one.drop_first() =~= Seq::<(Seq<char>, Seq<char>)>::empty());
    assert(first_value(Seq::<(Seq<char>, Seq<char>)>::empty(), name) is None);
    if name != alias {
        assert(first_value(one, name) == first_value(one.drop_first(), name));
    }
}


/// The directory holding the manifests agentix writes.
pub open spec fn agentix_dir(dir: Seq<char>) -> Seq<char> {
    path_join(manifests_dir(dir), "agentix"@)
}

/// The model name a manifest file found while walking the store stands
/// for: its path below `manifests/agentix/`, without the file's own name.
/// None for a file elsewhere, or directly in that directory.
pub open spec fn manifest_name_spec(dir: Seq<char>, path: Seq<char>) -> Option<Seq<char>> {
    let base = agentix_dir(dir) + seq!['/'];
    if has_prefix(path, base) {
        let rest = path.skip(base.len() as int);
        let k = last_slash(rest);
        if k <= 0 {
            None
        } else {
            Some(rest.take(k))
        }
    } else {
        None
    }
}

impl ModelStore {
    /// The model name of the manifest file at `path`, a path built by
    /// walking the store's manifest directories (see [`manifest_name_spec`]).
    pub fn manifest_name(&self, path: &str) -> (r: Option<String>)
        ensures
            r matches Some(n) ==> manifest_name_spec(self.models_dir@, path@) == Some(n@),
            r is None ==> manifest_name_spec(self.models_dir@, path@) is None,
    {
        let m = join_path(self.models_dir.as_str(), "manifests");
        let a = join_path(m.as_str(), "agentix");
        let mut base = chars_of(a.as_str());
        base.push('/');
        assert(base@ =~= agentix_dir(self.models_dir@) + seq!['/']);
        let pv = chars_of(path);
        if !starts_with(&pv, &base) {
            return None;
        }
        let start = base.len();
        let mut k: usize = pv.len();
        while k > start && pv[k - 1] != '/'
            invariant
                start <= k <= pv.len(),
                start == base.len(),
                pv@ == path@,
                base@ == agentix_dir(self.models_dir@) + seq!['/'],
                has_prefix(pv@, base@),
                forall|j: int| k <= j < pv.len() ==> pv@[j] != '/',
            decreases k,
        {
            k = k - 1;
        }
        let ghost rest = pv@.skip(start as int);
        proof {
            lemma_last_slash(rest);
            if k > start {
                assert(rest[k - 1 - start] == '/');
                assert forall|j: int| k - start <= j < rest.len() implies rest[j] != '/' by {
                    assert(rest[j] == pv@[j + start]);
                }
                if last_slash(rest) != k - 1 - start {
                    assert(rest[last_slash(rest)] == '/');
                }
            } else if last_slash(rest) >= 0 {
                assert(rest[last_slash(rest)] == pv@[last_slash(rest) + start]);
            }
        }
        if k - start <= 1 {
            return None;
        }
        let n = copy_range(&pv, start, k - 1);
        assert(n@ =~= rest.take(k - 1 - start));
        Some(string_of(&n))
    }
}

/// The name a manifest's path gives back is the name it was written under,
/// for any name that is not empty and neither starts nor ends with `/`.
pub proof fn lemma_manifest_name_round_trip(dir: Seq<char>, name: Seq<char>)
    requires
        name.len() > 0,
        name[0] != '/',
        name.last() != '/',
    ensures
        manifest_name_spec(dir, manifest_path_spec(dir, name)) == Some(name),
{
    reveal_strlit("agentix");
    reveal_strlit("latest");
    let a = agentix_dir(dir);
    assert("agentix"@ =~= seq!['a', 'g', 'e', 'n', 't', 'i', 'x']);
    assert("latest"@ =~= seq!['l', 'a', 't', 'e', 's', 't']);
    assert(a.last() == 'x');
    let p = manifest_path_spec(dir, name);
    let base = a + seq!['/'];
    assert(p =~= base + name + seq!['/'] + "latest"@);
    assert(p.take(base.len() as int) =~= base);
    let rest = p.skip(base.len() as int);
    assert(rest =~= name + seq!['/'] + "latest"@);
    lemma_last_slash(rest);
    assert(rest[name.len() as int] == '/');
    assert forall|j: int| name.len() < j < rest.len() implies rest[j] != '/' by {
        assert(rest[j] == "latest"@[j - name.len() - 1]);
    }
    assert(last_slash(rest) == name.len());
    assert(rest.take(name.len() as int) =~= name);
}

// ── Removing a model ──────────────────────────────────────────────────────────

/// The layers of each of `ms`, as models.
pub open spec fn manifests_layers(ms: Seq<Manifest>) -> Seq<Seq<LayerSpec>> {
    Seq::new(ms.len(), |k: int| layer_views(ms[k].layers@))
}

/// Some layer of some manifest of `others` names the blob `hash`.
pub open spec fn referenced_by(others: Seq<Seq<LayerSpec>>, hash: Seq<char>) -> bool {
    exists|k: int, j: int|
        0 <= k < others.len() && 0 <= j < others[k].len() && digest_hash_spec(
            #[trigger] others[k][j].digest,
        ) == hash
}

/// The blobs that removing a manifest with the layers `removed` deletes,
/// one entry per layer, in order: the blob each layer names, unless a layer
/// of one of the `others` manifests names it too.
pub open spec fn freed_blobs(removed: Seq<LayerSpec>, others: Seq<Seq<LayerSpec>>) -> Seq<Seq<char>>
    decreases removed.len(),
{
    if removed.len() == 0 {
        Seq::empty()
    } else {
        let prev = freed_blobs(removed.drop_last(), others);
        let h = digest_hash_spec(removed.last().digest);
        if referenced_by(others, h) {
            prev
        } else {
            prev.push(h)
        }
    }
}

/// Whether a layer of one of `others` names the blob `hash`.
fn referenced_elsewhere(hash: &Vec<char>, others: &[Manifest]) -> (r: bool)
    ensures
        r == referenced_by(manifests_layers(others@), hash@),
{
    let ghost os = manifests_layers(others@);
    let mut k: usize = 0;
    while k < others.len()
        invariant
            k <= others.len(),
            os == manifests_layers(others@),
            forall|k2: int, j: int|
                0 <= k2 < k && 0 <= j < os[k2].len() ==> digest_hash_spec(#[trigger] os[k2][j].digest)
                    != hash@,
        decreases others.len() - k,
    {
        let layers = &others[k].layers;
        assert(os[k as int] == layer_views(layers@));
        let mut j: usize = 0;
        while j < layers.len()
            invariant
                j <= layers.len(),
                k < others.len(),
                os == manifests_layers(others@),
                layers@ == others@[k as int].layers@,
                os[k as int] == layer_views(layers@),
                forall|k2: int, j2: int|
                    0 <= k2 < k && 0 <= j2 < os[k2].len() ==> digest_hash_spec(
                        #[trigger] os[k2][j2].digest,
                    ) != hash@,
                forall|j2: int| 0 <= j2 < j ==> digest_hash_spec(#[trigger] os[k as int][j2].digest) != hash@,
            decreases layers.len() - j,
        {
            let h = digest_hash(layers[j].digest.as_str());
            let hv = chars_of(h.as_str());
            assert(os[k as int][j as int].digest == layers@[j as int].digest@);
            if chars_eq(&hv, hash) {
                assert(digest_hash_spec(os[k as int][j as int].digest) == hash@);
                return true;
            }
            j = j + 1;
        }
        k = k + 1;
    }
    false
}

/// The blobs to delete when the manifest `removed` goes and the manifests
/// `others` stay (see [`freed_blobs`]): the hash of each layer of `removed`
/// that no layer of `others` names.
pub fn blobs_freed_by_removal(removed: &Manifest, others: &[Manifest]) -> (r: Vec<String>)
    ensures
        crate::text::string_views(r@) == freed_blobs(
            layer_views(removed.layers@),
            manifests_layers(others@),
        ),
{
    let ghost ls = layer_views(removed.layers@);
    let ghost os = manifests_layers(others@);
    let mut out: Vec<String> = Vec::new();
    let mut i: usize = 0;
    assert(ls.take(0) =~= Seq::<LayerSpec>::empty());
    assert(crate::text::string_views(out@) =~= Seq::<Seq<char>>::empty());
    while i < removed.layers.len()
        invariant
            i <= removed.layers.len(),
            ls == layer_views(removed.layers@),
            os == manifests_layers(others@),
            crate::text::string_views(out@) == freed_blobs(ls.take(i as int), os),
        decreases removed.layers.len() - i,
    {
        proof {
            assert(ls.take(i + 1).drop_last() =~= ls.take(i as int));
            assert(ls.take(i + 1).last() == ls[i as int]);
        }
        let h = digest_hash(removed.layers[i].digest.as_str());
        let hv = chars_of(h.as_str());
        if !referenced_elsewhere(&hv, others) {
            proof {
                crate::text::lemma_string_views_push(out@, h);
            }
            out.push(h);
        }
        i = i + 1;
    }
    assert(ls.take(i as int) =~= ls);
    out
}

/// Removing a model deletes exactly the blobs that no other model uses:
/// every blob it deletes is named by a layer of the removed manifest and by
/// no layer of the manifests that stay, and every blob of the removed
/// manifest that no staying manifest names is deleted.
pub proof fn lemma_removal_frees_only_unshared_blobs(
    removed: Seq<LayerSpec>,
    others: Seq<Seq<LayerSpec>>,
)
    ensures
        forall|i: int|
            0 <= i < freed_blobs(removed, others).len() ==> !referenced_by(
                others,
                #[trigger] freed_blobs(removed, others)[i],
            ) && exists|j: int|
                0 <= j < removed.len() && digest_hash_spec(removed[j].digest) == freed_blobs(
                    removed,
                    others,
                )[i],
        forall|j: int|
            0 <= j < removed.len() && !referenced_by(others, digest_hash_spec(#[trigger] removed[j].digest))
                ==> freed_blobs(removed, others).contains(digest_hash_spec(removed[j].digest)),
    decreases removed.len(),
{
    if removed.len() > 0 {
        let prev_ls = removed.drop_last();
        lemma_removal_frees_only_unshared_blobs(prev_ls, others);
        let prev = freed_blobs(prev_ls, others);
        let h = digest_hash_spec(removed.last().digest);
        let f = freed_blobs(removed, others);
        assert forall|i: int| 0 <= i < f.len() implies !referenced_by(others, #[trigger] f[i])
            && exists|j: int| 0 <= j < removed.len() && digest_hash_spec(removed[j].digest) == f[i] by {
            if i < prev.len() {
                assert(f[i] == prev[i]);
                let j = choose|j: int| 0 <= j < prev_ls.len() && digest_hash_spec(prev_ls[j].digest) == prev[i];
                assert(removed[j] == prev_ls[j]);
            } else {
                assert(f[i] == h);
                assert(digest_hash_spec(removed[removed.len() - 1].digest) == h);
            }
        }
        assert forall|j: int|
            0 <= j < removed.len() && !referenced_by(others, digest_hash_spec(#[trigger] removed[j].digest))
                implies f.contains(digest_hash_spec(removed[j].digest)) by {
            if j < removed.len() - 1 {
                assert(removed[j] == prev_ls[j]);
                let i = choose|i: int| 0 <= i < prev.len() && prev[i] == digest_hash_spec(prev_ls[j].digest);
                assert(f[i] == prev[i]);
            } else {
                assert(f[f.len() - 1] == h);
            }
        }
    }
}

// ── Laws of the store layout ──────────────────────────────────────────────────

/// The manifest of a model whose name is not an absolute path lies inside
/// the store's `manifests/agentix` directory.
pub proof fn lemma_manifest_path_inside_store(dir: Seq<char>, name: Seq<char>)
    requires
        !(name.len() > 0 && name[0] == '/'),
    ensures
        has_prefix(
            manifest_path_spec(dir, name),
            path_join(manifests_dir(dir), "agentix"@),
        ),
{
    let a = path_join(manifests_dir(dir), "agentix"@);
    let n = path_join(a, name);
    lemma_join_stays_under(a, name);
    reveal_strlit("latest");
    lemma_join_stays_under(n, "latest"@);
    assert(manifest_path_spec(dir, name).take(a.len() as int) =~= n.take(a.len() as int));
}

/// The manifest file of a model is always named `latest`.
pub proof fn lemma_manifest_file_is_latest(dir: Seq<char>, name: Seq<char>)
    ensures
        crate::text::has_suffix(manifest_path_spec(dir, name), "latest"@),
{
    reveal_strlit("latest");
    let n = path_join(path_join(manifests_dir(dir), "agentix"@), name);
    let r = path_join(n, "latest"@);
    assert(r.skip(r.len() - 6) =~= "latest"@);
}

} // verus!
