//! Verified editor core for a binary model-container format: a fixed header,
//! a section of typed key/value metadata entries, a table of tensor
//! descriptors, alignment padding, and an opaque tensor-data segment.
//!
//! The crate models the format on plain byte vectors: decoding, encoding,
//! layout validation, and a batch metadata-update engine that recomputes
//! tensor offsets when the metadata section changes size. File I/O, JSON
//! request parsing and the atomic temp-file swap live outside this crate;
//! they hand byte vectors and request values in and take byte vectors back.

pub mod codec;
pub mod document;
pub mod error;
pub mod file_codec;
pub mod laws;
pub mod update;
pub mod validator;
pub mod value;
