//! Agent-facing browser-lite runtime: the verified core.
//!
//! The library holds the decisions and text processing of the runtime: cookie
//! scoping for imported browser sessions, user-agent construction, the
//! semantic tree and readable text of a parsed document, request filtering,
//! and the interpretation of page evaluation results.

pub mod text;
pub mod urls;
pub mod net;
pub mod tree;
pub mod html;
pub mod dom;
pub mod blocklist;
pub mod engine;
