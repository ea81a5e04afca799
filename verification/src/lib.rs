//! A reversible JSON transform: every distinct scalar of a document moves into
//! a shared reference list and each of its occurrences becomes an index.
//!
//! A compressed document is the array of two elements: the rewritten tree, in
//! which every key and every scalar is the index of an entry, and the
//! reference list, which holds each distinct scalar once, in the order in
//! which it was first met.
//!
//! - [`json`] holds the data model, [`decimal`] the text of an index.
//! - [`table`] is the reference table, [`compress`] the encoder and
//!   [`decompress`] the decoder; [`laws`] proves what holds of the two
//!   together.
//! - [`text`] reads and writes JSON text through serde_json.
//! - [`error`] and [`mode`] are what a caller meets at the edge.

use vstd::prelude::*;

pub mod compress;
pub mod decimal;
pub mod decompress;
pub mod error;
pub mod json;
pub mod laws;
pub mod mode;
pub mod table;
pub mod text;

pub use compress::{compress_document, compress_json, Compressor};
pub use decompress::{decompress_document, decompress_json, Decompressor};
pub use error::Error;
pub use json::{Document, Json};
pub use mode::Mode;
pub use table::RefTable;

verus! {

/// A `Result` whose error is, unless another is named, this library's.
pub type Result<T, E = error::Error> = std::result::Result<T, E>;

} // verus!
