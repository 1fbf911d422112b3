use markly_core::walker::{is_md_name, keep_entry};

#[test]
fn hidden_entries_are_pruned() {
    assert!(!keep_entry(".git", true));
    assert!(!keep_entry(".hidden.md", false));
    assert!(keep_entry("notes", true));
    assert!(keep_entry("a.md", false));
}

#[test]
fn node_modules_directories_are_pruned() {
    assert!(!keep_entry("node_modules", true));
    // a file of that name is not a directory and stays
    assert!(keep_entry("node_modules", false));
    assert!(keep_entry("node_modules_old", true));
}

#[test]
fn assets_directories_are_pruned() {
    assert!(!keep_entry("img.assets", true));
    assert!(!keep_entry(".assets", true));
    assert!(keep_entry("img.assets", false));
    assert!(keep_entry("assets", true));
}

#[test]
fn markdown_names_need_a_stem_and_extension() {
    assert!(is_md_name("a.md"));
    assert!(is_md_name("a.b.md"));
    assert!(!is_md_name(".md"));
    assert!(!is_md_name("md"));
    assert!(!is_md_name("a.txt"));
    assert!(!is_md_name("amd"));
}
