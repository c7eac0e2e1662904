//! An embedded, file-backed document store: named collections of
//! schema-less JSON-like documents, each collection durably represented
//! as one JSON object per line of a dedicated file.
//!
//! This crate holds the verified engine: the document model, the query
//! operators, and the collection state machine relating the in-memory
//! sequence of documents to the durable line file. Disk access, locking
//! and the C-compatible boundary live in the surrounding application.

pub mod codec;
pub mod collection;
pub mod db;
pub mod json;
pub mod query;
pub mod text;

pub use db::Registry;
pub use collection::Collection;
pub use collection::StoreError;
pub use json::Json;
pub use json::JVal;
