//! In-place editing of TOML documents addressed by dotted key paths.
//!
//! The library parses dotted `KEY` and `KEY=VALUE` tokens, resolves key
//! paths against a format-preserving document tree, deletes or assigns at
//! the addressed node, and serializes the document back. An edit touches
//! only the slots on its path, in place: no key moves, and the comments,
//! whitespace and order of everything else are kept as far as the
//! serializer itself keeps them (its documented limits: a missing final
//! newline is added, and interleaved dotted keys are grouped). The
//! document tree itself is carried by the `toml_edit` crate; every
//! decision about it — how a path resolves, when a missing table is
//! created, when an edit fails — is made and proved here.

pub mod doc;
pub mod errors;
pub mod keypath;
pub mod model;
