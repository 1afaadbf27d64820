//! Allow-list sanitization and selector-driven rewriting of untrusted HTML.
//!
//! A rewrite streams a document through the `lol_html` parser once, with the
//! sanitizer and the caller's handlers as callbacks, and then once more to
//! remove the tags that can carry markup past a single pass.
//!
//! What the sanitizer decides is verified: the policy store and what a
//! configuration means (`policy`, `store`, `sanitizer`), what becomes of
//! each attribute (`attributes`) and of each element (`removal`), the
//! ancestor stack (`ancestors`), when a handler is called (`session`), and
//! how a rewriter is checked when it is built (`rewriter`). The parser, its
//! selector grammar and the entity tables of `escapist` are reached through
//! thin calls whose contracts are stated and believed, not proved; they are
//! in `engine`, `session`, `selector`, `escape` and `text`.

pub mod ancestors;
pub mod attributes;
pub mod config;
pub mod edits;
pub mod engine;
pub mod escape;
pub mod native_ref_wrap;
pub mod policy;
pub mod removal;
pub mod rewriter;
pub mod sanitizer;
pub mod selector;
pub mod session;
pub mod store;
pub mod tags;
pub mod text;
