//! A verified HTTP-to-blobstore gateway core.
//!
//! The library translates simple REST-like requests (upload, download,
//! listing, existence checks, batch deletes) into calls against an external
//! blob-storage provider. Everything that can be stated as a pure function --
//! request routing, query-string parsing, chunk splitting for uploads,
//! in-order reassembly of asynchronous download chunks, and the shaping of
//! JSON response envelopes -- lives here with a proved contract. The actual
//! transport (HTTP server, storage RPC) is an external collaborator driven by
//! a thin unverified shell.

pub mod download;
pub mod gateway;
pub mod query;
pub mod reply;
pub mod router;
pub mod upload;
