//! Exclusion rules for the project tree walk: hidden entries, `node_modules`
//! and `.assets` directories are pruned, and the search keeps only markdown
//! files.
use vstd::prelude::*;

verus! {

use crate::strs::{ends_with, str_ends_with, str_eq_str};
use vstd::string::StrSliceExecFns;

/// An entry stays in the walk when its name does not start with a dot and,
/// for a directory, the name is neither `node_modules` nor ends in `.assets`.
pub open spec fn keep_entry_spec(name: Seq<char>, is_dir: bool) -> bool {
    &&& !(name.len() > 0 && name[0] == '.')
    &&& !(is_dir && (name == "node_modules"@ || ends_with(name, ".assets"@)))
}

pub fn keep_entry(name: &str, is_dir: bool) -> (r: bool)
    ensures
        r == keep_entry_spec(name@, is_dir),
{
    let n = name.unicode_len();
    if n > 0 && name.get_char(0) == '.' {
        return false;
    }
    if is_dir {
        if str_eq_str(name, "node_modules") {
            return false;
        }
        if str_ends_with(name, ".assets") {
            return false;
        }
    }
    true
}

/// A file name with the `md` extension: it ends in `.md` and has at least
/// one character of stem before it.
pub open spec fn is_md_name_spec(name: Seq<char>) -> bool {
    &&& name.len() >= 4
    &&& ends_with(name, ".md"@)
}

pub fn is_md_name(name: &str) -> (r: bool)
    ensures
        r == is_md_name_spec(name@),
{
    name.unicode_len() >= 4 && str_ends_with(name, ".md")
}

} // verus!
