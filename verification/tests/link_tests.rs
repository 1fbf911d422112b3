use markly_core::links::{join_path, normalize_link, parent_dir, resolve_wiki_link};

#[test]
fn blank_link_name_is_absent() {
    assert_eq!(resolve_wiki_link("/tmp", "   ", "/tmp/cur.md"), None);
    assert_eq!(resolve_wiki_link("/tmp", "", "/tmp/cur.md"), None);
    assert_eq!(resolve_wiki_link("/tmp", "\t\n", "/tmp/cur.md"), None);
}

#[test]
fn normalize_appends_md_once() {
    assert_eq!(normalize_link("Note"), "Note.md");
    assert_eq!(normalize_link("Note.md"), "Note.md");
    assert_eq!(normalize_link(&normalize_link("Note")), "Note.md");
}

#[test]
fn parent_dir_of_ordinary_paths() {
    assert_eq!(parent_dir("/root/dir/current.md").as_deref(), Some("/root/dir"));
    assert_eq!(parent_dir("/top.md").as_deref(), Some("/"));
    assert_eq!(parent_dir("current.md").as_deref(), Some(""));
    assert_eq!(parent_dir("/"), None);
    assert_eq!(parent_dir(""), None);
}

#[test]
fn parent_dir_ignores_trailing_slashes() {
    assert_eq!(parent_dir("/a/b/").as_deref(), Some("/a"));
    assert_eq!(parent_dir("/a/").as_deref(), Some("/"));
    assert_eq!(parent_dir("a/").as_deref(), Some(""));
    assert_eq!(parent_dir("a//b").as_deref(), Some("a"));
    assert_eq!(parent_dir("///"), None);
}

#[test]
fn join_path_inserts_one_separator() {
    assert_eq!(join_path("/a/b", "c.md"), "/a/b/c.md");
    assert_eq!(join_path("/a/b/", "c.md"), "/a/b/c.md");
    assert_eq!(join_path("", "c.md"), "c.md");
    assert_eq!(join_path("/a", "/abs.md"), "/abs.md");
}

/// A directory with a visible (non-dotted) random name under `parent`.
fn visible_dir(parent: &std::path::Path) -> tempfile::TempDir {
    tempfile::Builder::new()
        .prefix("d")
        .tempdir_in(parent)
        .expect("tempdir")
}

/// An empty markdown file with a visible random name under `parent`;
/// returns the file (kept alive so it stays on disk) and its stem, the
/// name without the extension.
fn visible_note(parent: &std::path::Path) -> (tempfile::NamedTempFile, String) {
    let file = tempfile::Builder::new()
        .prefix("Note")
        .suffix(".md")
        .tempfile_in(parent)
        .expect("tempfile");
    let stem = file
        .path()
        .file_stem()
        .unwrap()
        .to_string_lossy()
        .into_owned();
    (file, stem)
}

#[test]
fn same_directory_wins_over_project_search() {
    let root = tempfile::tempdir().expect("tempdir");
    let dir = visible_dir(root.path());
    let other = visible_dir(root.path());
    let (near, stem) = visible_note(dir.path());
    // a second note of the same name elsewhere must not shadow it
    let far_path = other.path().join(near.path().file_name().unwrap());
    let _far = tempfile::Builder::new()
        .prefix("x")
        .suffix(".md")
        .tempfile_in(other.path())
        .expect("tempfile");
    let current = dir.path().join("current.md");
    let got = resolve_wiki_link(
        root.path().to_str().unwrap(),
        &stem,
        current.to_str().unwrap(),
    );
    assert_eq!(got.as_deref(), near.path().to_str());
    assert_ne!(got.as_deref(), far_path.to_str());
}

#[test]
fn project_search_finds_note_elsewhere() {
    // the walker prunes dotted names even at the root, so the project
    // root itself must be visible
    let base = tempfile::tempdir().expect("tempdir");
    let root = visible_dir(base.path());
    let dir = visible_dir(root.path());
    let other = visible_dir(root.path());
    let (far, stem) = visible_note(other.path());
    let current = dir.path().join("current.md");
    let got = resolve_wiki_link(
        root.path().to_str().unwrap(),
        &stem,
        current.to_str().unwrap(),
    );
    assert_eq!(got.as_deref(), far.path().to_str());
}

#[test]
fn explicit_relative_path_has_no_fallback() {
    let root = tempfile::tempdir().expect("tempdir");
    let dir = visible_dir(root.path());
    let other = visible_dir(root.path());
    let (_far, stem) = visible_note(other.path());
    let current = dir.path().join("current.md");
    // dir/sub/<stem>.md does not exist; tier 1 must not fall back to the
    // same note elsewhere in the project.
    let got = resolve_wiki_link(
        root.path().to_str().unwrap(),
        &format!("sub/{stem}"),
        current.to_str().unwrap(),
    );
    assert_eq!(got, None);
}

#[test]
fn explicit_relative_path_resolves_when_present() {
    let root = tempfile::tempdir().expect("tempdir");
    let dir = visible_dir(root.path());
    let sub = visible_dir(dir.path());
    let (note, stem) = visible_note(sub.path());
    let sub_name = sub.path().file_name().unwrap().to_string_lossy().into_owned();
    let current = dir.path().join("current.md");
    let got = resolve_wiki_link(
        root.path().to_str().unwrap(),
        &format!("{sub_name}/{stem}"),
        current.to_str().unwrap(),
    );
    assert_eq!(got.as_deref(), note.path().to_str());
}

#[test]
fn hidden_directories_hide_their_notes() {
    let base = tempfile::tempdir().expect("tempdir");
    let root = visible_dir(base.path());
    let dir = visible_dir(root.path());
    // the default tempdir prefix starts with a dot, so the walker prunes it
    let hidden = tempfile::tempdir_in(root.path()).expect("tempdir");
    assert!(hidden
        .path()
        .file_name()
        .unwrap()
        .to_string_lossy()
        .starts_with('.'));
    let (_note, stem) = visible_note(hidden.path());
    let current = dir.path().join("current.md");
    let got = resolve_wiki_link(
        root.path().to_str().unwrap(),
        &stem,
        current.to_str().unwrap(),
    );
    assert_eq!(got, None);
}

#[test]
fn missing_target_never_resolves() {
    let root = tempfile::tempdir().expect("tempdir");
    let dir = visible_dir(root.path());
    let current = dir.path().join("current.md");
    let got = resolve_wiki_link(
        root.path().to_str().unwrap(),
        "Missing",
        current.to_str().unwrap(),
    );
    assert_eq!(got, None);
}
