//! Text normalisation for generated source: identifiers, comments, path
//! fragments, indented blocks and short generated names.
pub mod comment;
pub mod function_body;
pub mod identifier;
pub mod layout;
pub mod lines;
pub mod numbering;
pub mod path;
pub mod text;

use vstd::prelude::*;

verus! {

/// The text transformations used when generating bundled source.
pub struct Template {}

} // verus!
