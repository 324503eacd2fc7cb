//! agentix: local code and documentation indexing, model serving and
//! sandboxing, with the decisions of each stated and proved.
//!
//! - [`lhs`], [`chunk`], [`docs`], [`files`], [`ingest`], [`hashing`]: how a
//!   repository is indexed — which files count, how literate Haskell is
//!   unwrapped, and how code and documentation are cut into chunks.
//! - [`infer`], [`store`], [`llama`], [`serve`], [`daemon`], [`api`]: the
//!   vocabulary of the inference engine, the model store's layout, and the
//!   decisions of the model daemons and the gateway.
//! - [`gh_policy`], [`jail`], [`sandbox`], [`agent_jail`], [`direnv`]: what the sandboxed `gh` may run,
//!   and how the sandboxes are set up.
//! - [`text`], [`num`]: the text and number model shared by all of them.
use vstd::prelude::*;

pub mod text;
pub mod num;
pub mod lhs;
pub mod chunk;
pub mod docs;
pub mod files;
pub mod hashing;
pub mod ingest;
pub mod infer;
pub mod store;
pub mod api;
pub mod daemon;
pub mod llama;
pub mod serve;
pub mod gh_policy;
pub mod jail;
pub mod sandbox;
pub mod agent_jail;
pub mod direnv;

verus! {

} // verus!
