use vstd::prelude::*;

pub mod engine;
pub mod links;
pub mod search;
pub mod strs;
pub mod sys;
pub mod text;
pub mod walker;

verus! {

/// A single occurrence of the query inside one line of a markdown file,
/// with character-based offsets suitable for display highlighting.
#[derive(Clone, Debug)]
pub struct SearchMatch {
    pub file_path: String,
    pub file_name: String,
    pub line_number: usize,
    pub line_content: String,
    pub match_start: usize,
    pub match_end: usize,
}

} // verus!
