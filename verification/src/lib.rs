//! Trimming of region container files: binary codecs for the region
//! container format and the tree-structured document format, plus the
//! pure parts of the trim pipeline that composes them.

pub mod anvil;
pub mod binutil;
pub mod codec;
pub mod cursor;
pub mod error;
pub mod extract;
pub mod node;
pub mod text;
pub mod trim;
pub mod zlib;

use vstd::prelude::*;

verus! {

/// A Blob is a simple type for a Vector containing bytes.
pub type Blob = Vec<u8>;

} // verus!
