//! Extraction of hyperlinks from HTML text.
//!
//! The library parses an HTML document, walks its anchor elements in
//! document order, resolves each `href` against a base URL, and pairs the
//! resolved absolute URL with the anchor's whitespace-normalized text.

pub mod links;
pub mod text;

use vstd::prelude::*;

verus! {

} // verus!
