//! The crate's trusted boundary: declarations and thin wrappers around the
//! regex engine, Unicode case folding, and the filesystem. Each contract
//! states only what the callee's own source or documentation shows.
use vstd::prelude::*;

verus! {

use vstd::utf8::encode_utf8;
use crate::strs::ends_with_component;

#[verifier::external_type_specification]
#[verifier::external_body]
pub struct ExRegex(regex::Regex);

#[verifier::external_type_specification]
#[verifier::external_body]
pub struct ExRegexError(regex::Error);

/// A compiled pattern together with the text it was compiled from. Only
/// this module builds one, so the two always belong together and the
/// contracts below may speak of the matches as a function of that text.
pub struct CompiledPattern {
    re: regex::Regex,
    pat: String,
}

impl CompiledPattern {
    /// The pattern text this value was compiled from.
    pub closed spec fn pat_view(self) -> Seq<char> {
        self.pat@
    }
}

/// Whether `regex::Regex::new` accepts the pattern: a function of the
/// pattern text alone.
pub uninterp spec fn regex_compiles(p: Seq<char>) -> bool;

/// What `regex::Regex::find_iter` reports for a pattern and a haystack:
/// a function of the two texts alone.
pub uninterp spec fn regex_spans_of(p: Seq<char>, hay: Seq<char>) -> Seq<(usize, usize)>;

/// What `str::to_lowercase` returns: a function of the characters alone.
pub uninterp spec fn lower_of(s: Seq<char>) -> Seq<char>;

/// Relies on str::to_lowercase: the result depends only on the input's
/// characters, and each character lowercases to at least one character.
#[verifier::external_body]
pub(crate) fn lowercase(s: &str) -> (r: String)
    ensures
        r@ == lower_of(s@),
        s@.len() > 0 ==> r@.len() > 0,
{
    s.to_lowercase()
}

/// Relies on regex::Regex::new: whether a pattern compiles is decided by
/// its text alone, and failure comes back as an error, never a panic.
#[verifier::external_body]
pub(crate) fn regex_compile(pattern: &str) -> (r: Result<CompiledPattern, regex::Error>)
    ensures
        r is Ok <==> regex_compiles(pattern@),
        r matches Ok(c) ==> c.pat_view() == pattern@,
{
    match regex::Regex::new(pattern) {
        Ok(re) => Ok(CompiledPattern { re, pat: pattern.to_owned() }),
        Err(e) => Err(e),
    }
}

/// Relies on regex::Error's Display impl: both of its variants write a
/// nonempty diagnostic.
#[verifier::external_body]
pub(crate) fn regex_error_message(e: &regex::Error) -> (r: String)
    ensures
        r@.len() > 0,
{
    e.to_string()
}

/// Relies on regex::Regex::find_iter and regex::Match: the successive
/// non-overlapping matches are a function of the pattern text and the
/// haystack alone, each reported as byte offsets into the haystack with
/// start at most end, the next match starting no earlier than the end of
/// the one before (after an empty match the engine advances), and every
/// offset on a character boundary (a match is a valid slice of the
/// haystack).
#[verifier::external_body]
pub(crate) fn regex_find_spans(re: &CompiledPattern, line: &str) -> (r: Vec<(usize, usize)>)
    ensures
        r@ == regex_spans_of(re.pat_view(), line@),
        forall|k: int|
            0 <= k < r@.len() ==> (#[trigger] r@[k]).0 <= r@[k].1 <= encode_utf8(line@).len(),
        forall|k: int| 0 <= k && k + 1 < r@.len() ==> (#[trigger] r@[k]).1 <= r@[k + 1].0,
        forall|k: int|
            0 <= k < r@.len() ==> vstd::utf8::is_char_boundary(
                encode_utf8(line@),
                (#[trigger] r@[k]).0 as int,
            ) && vstd::utf8::is_char_boundary(encode_utf8(line@), r@[k].1 as int),
{
    re.re.find_iter(line).map(|m| (m.start(), m.end())).collect()
}

/// Relies on std::path::Path::is_file: whether the path names an existing
/// regular file; what is on disk may differ between calls.
#[verifier::external_body]
pub(crate) fn path_is_file(p: &str) -> bool {
    std::path::Path::new(p).is_file()
}

/// Relies on std::path::Path::is_dir: whether the path names an existing
/// directory; what is on disk may differ between calls.
#[verifier::external_body]
pub(crate) fn path_is_dir(p: &str) -> bool {
    std::path::Path::new(p).is_dir()
}

/// Relies on walkdir::WalkDir and walkdir::DirEntry: a depth-first walk of
/// `root` in which filter_entry prunes a refused entry together with its
/// whole subtree; for each kept entry, path() is the full path, file_name()
/// its last component, and file_type() tells a regular file apart, so a
/// regular file's path ends with its name as a whole component, the path
/// separator before it. The predicate prunes every
/// entry whose name starts with a dot, the root included, so no yielded
/// entry has a dotted name.
#[verifier::external_body]
pub(crate) fn walk_tree(root: &str) -> (r: Vec<(String, String, bool)>)
    ensures
        forall|i: int|
            0 <= i < r@.len() ==> (#[trigger] r@[i]).2 ==> ends_with_component(
                r@[i].0@,
                r@[i].1@,
            ),
        forall|i: int|
            0 <= i < r@.len() ==> !((#[trigger] r@[i]).1@.len() > 0 && r@[i].1@[0] == '.'),
{
    let name = |e: &walkdir::DirEntry| e.file_name().to_string_lossy().into_owned();
    walkdir::WalkDir::new(root)
        .into_iter()
        .filter_entry(|e| crate::walker::keep_entry(&name(e), e.file_type().is_dir()))
        .filter_map(|e| e.ok())
        .map(|e| (e.path().to_string_lossy().into_owned(), name(&e), e.file_type().is_file()))
        .collect()
}

} // verus!
