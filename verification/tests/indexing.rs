use codexu::indexer::{hash_content, hash_unchanged, should_skip, IndexAction, IndexEvent, IndexRun, Indexer, SearchHit};

#[test]
fn content_hash_is_hex_sha256() {
    assert_eq!(hash_content("abc"), "ba7816bf8f01cfea414140de5dae2223b00361a396177a9cb410ff61f20015ad");
    assert_eq!(hash_content(""), "e3b0c44298fc1c149afbf4c8996fb92427ae41e4649b934ca495991b7852b855");
    let h = hash_content("ação");
    assert_eq!(h.len(), 64);
    assert!(h.chars().all(|c| c.is_ascii_hexdigit() && !c.is_ascii_uppercase()));
}

#[test]
fn skipped_files() {
    assert!(should_skip("a/.git/config"));
    assert!(should_skip("crate/target/debug/x"));
    assert!(should_skip("logo.png"));
    assert!(should_skip("photo.jpg"));
    assert!(!should_skip(".git/config"));
    assert!(!should_skip("src/main.rs"));
}

#[test]
fn unchanged_hashes() {
    assert!(hash_unchanged(Some("abc"), "abc"));
    assert!(!hash_unchanged(Some("abd"), "abc"));
    assert!(!hash_unchanged(None, "abc"));
}

#[test]
fn index_location() {
    let idx = Indexer::new("/tmp/index.db".to_string());
    assert_eq!(idx.db_path(), "/tmp/index.db");
    let hit = SearchHit { path: "a.rs".to_string(), snippet: "[x]".to_string() };
    assert_eq!(hit.path, "a.rs");
}

fn stored(action: IndexAction) -> (String, String, String) {
    match action {
        IndexAction::Store { relative_path, content, hash } => (relative_path, content, hash),
        _ => panic!("expected a store"),
    }
}

#[test]
fn index_run_stores_changed_files_and_counts_them() {
    let mut run = IndexRun::new();
    let a = run.step(IndexEvent::Entry { is_file: true, relative_path: Some("src/main.rs".to_string()) });
    assert!(matches!(a, IndexAction::ReadFile { ref relative_path } if relative_path == "src/main.rs"));
    let a = run.step(IndexEvent::Content(Some("fn main() {}".to_string())));
    assert!(matches!(a, IndexAction::LookupHash { ref relative_path } if relative_path == "src/main.rs"));
    let (p, c, h) = stored(run.step(IndexEvent::StoredHash(Some("old".to_string()))));
    assert_eq!(p, "src/main.rs");
    assert_eq!(c, "fn main() {}");
    assert_eq!(h, hash_content("fn main() {}"));
    assert_eq!(run.updated(), 1);

    run.step(IndexEvent::Entry { is_file: true, relative_path: Some("b.txt".to_string()) });
    run.step(IndexEvent::Content(Some("b".to_string())));
    stored(run.step(IndexEvent::StoredHash(None)));
    assert_eq!(run.updated(), 2);
}

#[test]
fn index_run_passes_over_skipped_unreadable_and_unchanged_files() {
    let mut run = IndexRun::new();
    let a = run.step(IndexEvent::Entry { is_file: false, relative_path: Some("src".to_string()) });
    assert!(matches!(a, IndexAction::NextEntry));
    let a = run.step(IndexEvent::Entry { is_file: true, relative_path: Some("a/target/x.rs".to_string()) });
    assert!(matches!(a, IndexAction::NextEntry));
    let a = run.step(IndexEvent::Entry { is_file: true, relative_path: Some("logo.png".to_string()) });
    assert!(matches!(a, IndexAction::NextEntry));
    let a = run.step(IndexEvent::Entry { is_file: true, relative_path: None });
    assert!(matches!(a, IndexAction::NextEntry));

    run.step(IndexEvent::Entry { is_file: true, relative_path: Some("bin.dat".to_string()) });
    let a = run.step(IndexEvent::Content(None));
    assert!(matches!(a, IndexAction::NextEntry));

    run.step(IndexEvent::Entry { is_file: true, relative_path: Some("same.md".to_string()) });
    run.step(IndexEvent::Content(Some("same".to_string())));
    let a = run.step(IndexEvent::StoredHash(Some(hash_content("same"))));
    assert!(matches!(a, IndexAction::NextEntry));
    assert_eq!(run.updated(), 0);
}

/// Drives a run over `entries` against `db` (path to hash and text), as the
/// desktop shell does against SQLite.
fn run_over(
    db: &mut std::collections::HashMap<String, (String, String)>,
    entries: &[(bool, Option<&str>, Option<&str>)],
) -> usize {
    let mut run = IndexRun::new();
    for (is_file, path, content) in entries {
        let mut action = run.step(IndexEvent::Entry { is_file: *is_file, relative_path: path.map(String::from) });
        loop {
            action = match action {
                IndexAction::NextEntry => break,
                IndexAction::ReadFile { .. } => run.step(IndexEvent::Content(content.map(String::from))),
                IndexAction::LookupHash { relative_path } => {
                    let old = db.get(&relative_path).map(|(h, _)| h.clone());
                    run.step(IndexEvent::StoredHash(old))
                }
                IndexAction::Store { relative_path, content, hash } => {
                    db.insert(relative_path, (hash, content));
                    break;
                }
            };
        }
    }
    run.updated()
}

#[test]
fn second_run_over_unchanged_files_indexes_nothing() {
    let entries = [
        (true, Some("src/a.rs"), Some("fn a() {}")),
        (false, Some("src"), None),
        (true, Some("b.md"), Some("# b")),
        (true, Some("img.png"), Some("x")),
        (true, Some("bin"), None),
    ];
    let mut db = std::collections::HashMap::new();
    db.insert("gone.rs".to_string(), (hash_content("old"), "old".to_string()));
    assert_eq!(run_over(&mut db, &entries), 2);
    assert_eq!(db.get("src/a.rs").unwrap(), &(hash_content("fn a() {}"), "fn a() {}".to_string()));
    assert_eq!(db.get("gone.rs").unwrap(), &(hash_content("old"), "old".to_string()));
    assert!(db.values().all(|(h, c)| *h == hash_content(c)));
    let before = db.clone();
    assert_eq!(run_over(&mut db, &entries), 0);
    assert_eq!(db, before);
}
