//! A format-agnostic configuration store.
//!
//! The store keeps a structured configuration document (a JSON-like tree) in
//! memory, lets callers read and mutate it under exact contracts, notifies
//! registered observers of changes, and renders the document to JSON or YAML
//! text (selected by file extension) for persistence.  Reading and writing
//! the actual files is left to the embedding program; the store works on the
//! file contents as values.

pub mod codec;
pub mod registry;
pub mod document;
pub mod emitter;
pub mod store;
