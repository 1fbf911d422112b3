//! Wiki-link resolution: a link name is normalized to a `.md` target and
//! resolved in three tiers — an explicit relative path, the current file's
//! directory, and a project-wide search for the first file of that name.
use vstd::prelude::*;

verus! {

broadcast use vstd::seq::group_seq_axioms;

use vstd::string::{StrSliceExecFns, StringExecFns};
use crate::strs::{all_space, ends_with, ends_with_component, str_contains_char, str_ends_with, str_is_blank};
use crate::sys::{path_is_dir, path_is_file, walk_tree};
use crate::walker::{is_md_name, is_md_name_spec};

/// The link name with the `.md` extension appended unless already there.
pub open spec fn normalize_of(s: Seq<char>) -> Seq<char> {
    if ends_with(s, ".md"@) {
        s
    } else {
        s + ".md"@
    }
}

/// Normalizing never stacks a second extension: every normalized name
/// ends in `.md`, and normalizing again changes nothing.
pub proof fn lemma_normalize_idempotent(s: Seq<char>)
    ensures
        ends_with(normalize_of(s), ".md"@),
        normalize_of(normalize_of(s)) == normalize_of(s),
{
    if !ends_with(s, ".md"@) {
        let t = s + ".md"@;
        assert(t.subrange(t.len() - ".md"@.len(), t.len() as int) =~= ".md"@);
    }
}

pub fn normalize_link(link: &str) -> (r: String)
    ensures
        r@ == normalize_of(link@),
{
    if str_ends_with(link, ".md") {
        link.to_owned()
    } else {
        link.to_owned().concat(".md")
    }
}

/// The target names an explicit relative path: it holds a slash of either
/// direction.
pub open spec fn has_sep(s: Seq<char>) -> bool {
    s.contains('/') || s.contains('\\')
}

pub fn str_has_sep(s: &str) -> (r: bool)
    ensures
        r == has_sep(s@),
{
    str_contains_char(s, '/') || str_contains_char(s, '\\')
}

/// Index of the last slash in `s`, or -1 when there is none.
pub open spec fn last_sep(s: Seq<char>) -> int
    decreases s.len(),
{
    if s.len() == 0 {
        -1
    } else if s[s.len() - 1] == '/' {
        s.len() - 1
    } else {
        last_sep(s.drop_last())
    }
}

/// `s` with every trailing slash removed.
pub open spec fn drop_end_seps(s: Seq<char>) -> Seq<char>
    decreases s.len(),
{
    if s.len() > 0 && s[s.len() - 1] == '/' {
        drop_end_seps(s.drop_last())
    } else {
        s
    }
}

/// Characters of `path` left after removing trailing slashes from its
/// first `e` characters.
fn trim_end_seps(path: &str, e: usize) -> (r: usize)
    requires
        e <= path@.len(),
    ensures
        r <= e,
        path@.take(r as int) == drop_end_seps(path@.take(e as int)),
{
    let mut k: usize = e;
    while k > 0 && path.get_char(k - 1) == '/'
        invariant
            k <= e <= path@.len(),
            drop_end_seps(path@.take(e as int)) == drop_end_seps(path@.take(k as int)),
        decreases k,
    {
        proof {
            let tk = path@.take(k as int);
            assert(tk[k - 1] == path@[k - 1]);
            assert(tk.drop_last() =~= path@.take(k - 1));
        }
        k = k - 1;
    }
    proof {
        if k > 0 {
            assert(path@.take(k as int)[k - 1] == path@[k - 1]);
        }
        assert(drop_end_seps(path@.take(k as int)) == path@.take(k as int));
    }
    k
}

/// The parent directory of a path, derived as a path type would: trailing
/// slashes are not components; what stands before the last slash, itself
/// stripped of trailing slashes, is the parent; a bare file name has the
/// empty parent; the root and the empty path have none.
pub open spec fn parent_of(s: Seq<char>) -> Option<Seq<char>> {
    let t = drop_end_seps(s);
    if s.len() == 0 || t.len() == 0 {
        Option::None
    } else {
        let j = last_sep(t);
        if j == -1 {
            Option::Some(Seq::<char>::empty())
        } else {
            let p = drop_end_seps(t.take(j));
            if p.len() == 0 {
                Option::Some("/"@)
            } else {
                Option::Some(p)
            }
        }
    }
}

pub fn parent_dir(path: &str) -> (r: Option<String>)
    ensures
        match r {
            Option::Some(d) => parent_of(path@) matches Option::Some(p) && d@ == p,
            Option::None => parent_of(path@) is None,
        },
{
    let n = path.unicode_len();
    if n == 0 {
        return None;
    }
    let e = trim_end_seps(path, n);
    proof {
        assert(path@.take(n as int) =~= path@);
    }
    if e == 0 {
        return None;
    }
    let mut k: usize = e;
    while k > 0
        invariant
            k <= e <= n,
            n == path@.len(),
            path@.take(e as int) == drop_end_seps(path@),
            last_sep(path@.take(e as int)) == last_sep(path@.take(k as int)),
            forall|t: int| k <= t < e ==> path@[t] != '/',
        decreases k,
    {
        if path.get_char(k - 1) == '/' {
            proof {
                assert(path@.take(k as int)[k - 1] == path@[k - 1]);
                assert(last_sep(path@.take(k as int)) == k - 1);
            }
            let p_end = trim_end_seps(path, k - 1);
            proof {
                assert(path@.take(e as int).take(k - 1) =~= path@.take(k - 1));
            }
            if p_end == 0 {
                return Some("/".to_owned());
            }
            let d = path.substring_char(0, p_end);
            proof {
                assert(path@.subrange(0, p_end as int) =~= path@.take(p_end as int));
            }
            return Some(d.to_owned());
        }
        proof {
            let tk = path@.take(k as int);
            assert(tk[k - 1] == path@[k - 1]);
            assert(tk.drop_last() =~= path@.take(k - 1));
        }
        k = k - 1;
    }
    proof {
        assert(path@.take(0) =~= Seq::<char>::empty());
        assert(last_sep(path@.take(e as int)) == -1);
    }
    Some(String::new())
}

/// `name` resolved against the directory `d`: itself when it is absolute
/// or the directory is empty, otherwise the two joined with one slash.
pub open spec fn join_of(d: Seq<char>, n: Seq<char>) -> Seq<char> {
    if d.len() == 0 {
        n
    } else if n.len() > 0 && n[0] == '/' {
        n
    } else if d[d.len() - 1] == '/' {
        d + n
    } else {
        d + "/"@ + n
    }
}

/// A joined path always ends with the name joined on, as a whole final
/// component: nothing precedes it, or a slash does.
pub proof fn lemma_join_ends_with(d: Seq<char>, n: Seq<char>)
    ensures
        ends_with_component(join_of(d, n), n),
{
    reveal_strlit("/");
    let j = join_of(d, n);
    if d.len() == 0 || (n.len() > 0 && n[0] == '/') {
        assert(j.subrange(j.len() - n.len(), j.len() as int) =~= n);
    } else if d[d.len() - 1] == '/' {
        assert(j.subrange(j.len() - n.len(), j.len() as int) =~= n);
        assert(j[j.len() - n.len() - 1] == d[d.len() - 1]);
    } else {
        assert(j.subrange(j.len() - n.len(), j.len() as int) =~= n);
        assert(j[j.len() - n.len() - 1] == (d + "/"@ + n)[d.len() + "/"@.len() - 1]);
    }
}

pub fn join_path(dir: &str, name: &str) -> (r: String)
    ensures
        r@ == join_of(dir@, name@),
{
    let dn = dir.unicode_len();
    let nn = name.unicode_len();
    if dn == 0 {
        name.to_owned()
    } else if nn > 0 && name.get_char(0) == '/' {
        name.to_owned()
    } else if dir.get_char(dn - 1) == '/' {
        dir.to_owned().concat(name)
    } else {
        dir.to_owned().concat("/").concat(name)
    }
}

/// The tier-3 condition: a regular markdown file whose name is the target.
pub open spec fn named_md_file(e: (String, String, bool), target: Seq<char>) -> bool {
    &&& e.2
    &&& is_md_name_spec(e.1@)
    &&& e.1@ == target
}

/// The first walked entry that is a markdown file named `target`, if any.
pub fn pick_by_name(entries: &Vec<(String, String, bool)>, target: &String) -> (r: Option<String>)
    ensures
        match r {
            Option::Some(p) => exists|k: int|
                0 <= k < entries@.len() && named_md_file(#[trigger] entries@[k], target@) && p@
                    == entries@[k].0@ && (forall|t: int|
                    0 <= t < k ==> !named_md_file(#[trigger] entries@[t], target@)),
            Option::None => forall|k: int|
                0 <= k < entries@.len() ==> !named_md_file(#[trigger] entries@[k], target@),
        },
{
    let n = entries.len();
    let mut idx: usize = 0;
    while idx < n
        invariant
            n == entries@.len(),
            idx <= n,
            forall|t: int| 0 <= t < idx ==> !named_md_file(#[trigger] entries@[t], target@),
        decreases n - idx,
    {
        let e = &entries[idx];
        if e.2 && is_md_name(e.1.as_str()) && e.1.eq(target) {
            proof {
                assert(named_md_file(entries@[idx as int], target@));
            }
            return Some(e.0.clone());
        }
        proof {
            assert(!named_md_file(entries@[idx as int], target@));
        }
        idx = idx + 1;
    }
    None
}

/// The three-tier choice, taken over the filesystem's answers already in
/// hand: an explicit relative target stands or falls with its candidate,
/// with no fallback; otherwise an existing same-directory candidate wins;
/// only then, and only under a root that is a directory, does the
/// project-wide pick count.
pub fn decide_resolution(
    candidate: String,
    cand_is_file: bool,
    target_has_sep: bool,
    root_is_dir: bool,
    tier3: Option<String>,
) -> (r: Option<String>)
    ensures
        target_has_sep ==> r == (if cand_is_file {
            Some(candidate)
        } else {
            None::<String>
        }),
        !target_has_sep && cand_is_file ==> r == Some(candidate),
        !target_has_sep && !cand_is_file ==> r == (if root_is_dir {
            tier3
        } else {
            None::<String>
        }),
{
    if cand_is_file {
        Some(candidate)
    } else if target_has_sep {
        None
    } else if root_is_dir {
        tier3
    } else {
        None
    }
}

/// Resolves a wiki link to an absolute path, or to nothing.
///
/// A blank link, or a current file without a parent directory, resolves to
/// nothing. Otherwise the link is normalized to a `.md` target, the
/// same-directory candidate is built, the filesystem is asked — whether
/// the candidate is a regular file, then, if the target has no separator
/// and the candidate missed, whether the root is a directory, and then
/// what the pruned walk yields — and `decide_resolution` turns those
/// answers into the result: the explicit-relative tier with no fallback,
/// then the same directory, then the first markdown file of that name
/// under the root. Whatever the filesystem answered, any path returned
/// ends with the normalized target as a whole final component.
pub fn resolve_wiki_link(root_path: &str, link_name: &str, current_file_path: &str) -> (r: Option<
    String,
>)
    ensures
        all_space(link_name@) ==> r is None,
        parent_of(current_file_path@) is None ==> r is None,
        r matches Some(p) ==> ends_with_component(p@, normalize_of(link_name@)),
        parent_of(current_file_path@) matches Some(d) ==> (has_sep(normalize_of(link_name@)) ==> (
        r matches Some(p) ==> p@ == join_of(d, normalize_of(link_name@)))),
{
    if str_is_blank(link_name) {
        return None;
    }
    let target = normalize_link(link_name);
    let dir = match parent_dir(current_file_path) {
        None => {
            return None;
        },
        Some(d) => d,
    };
    let candidate = join_path(dir.as_str(), target.as_str());
    proof {
        lemma_join_ends_with(dir@, target@);
    }
    let target_has_sep = str_has_sep(target.as_str());
    let cand_is_file = path_is_file(candidate.as_str());
    let root_is_dir = if !target_has_sep && !cand_is_file {
        path_is_dir(root_path)
    } else {
        false
    };
    let tier3: Option<String> = if !target_has_sep && !cand_is_file && root_is_dir {
        let entries = walk_tree(root_path);
        let picked = pick_by_name(&entries, &target);
        proof {
            match &picked {
                Some(p) => {
                    let k = choose|k: int|
                        0 <= k < entries@.len() && named_md_file(#[trigger] entries@[k], target@)
                            && p@ == entries@[k].0@ && (forall|t: int|
                            0 <= t < k ==> !named_md_file(#[trigger] entries@[t], target@));
                    assert(ends_with_component(entries@[k].0@, entries@[k].1@));
                },
                None => {},
            }
        }
        picked
    } else {
        None
    };
    decide_resolution(candidate, cand_is_file, target_has_sep, root_is_dir, tier3)
}

} // verus!
