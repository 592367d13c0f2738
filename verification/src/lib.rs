//! Verified core of a document persistence service.
//!
//! Documents are owner-scoped records carrying inline text fragments and
//! references to out-of-band blob payloads (notes and canvases).  This crate
//! holds the verified semantics of the three core components: the document
//! repository, the attachment (blob) store, and the authentication gateway
//! that scopes every operation to an owner.

pub mod auth;
pub mod blob;
pub mod document;
pub mod lifecycle;
pub mod store;
