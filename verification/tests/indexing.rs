use sd_library::config::LibraryConfig;
use sd_library::db::FilePathRecord;
use sd_library::db::IndexerRuleRecord;
use sd_library::db::LibraryDb;
use sd_library::db::LocationRecord;
use sd_library::indexer::BATCH_SIZE;
use sd_library::indexer::DiskEntry;
use sd_library::indexer::FsNodeKind;
use sd_library::indexer::IndexerError;
use sd_library::indexer::IndexerRule;
use sd_library::indexer::WalkedEntry;
use sd_library::indexer::batch_steps;
use sd_library::indexer::compile_indexer_rules;
use sd_library::indexer::ensure_sub_path_is_directory;
use sd_library::indexer::ensure_sub_path_is_in_location;
use sd_library::indexer::entry_accepted;
use sd_library::indexer::shallow;
use sd_library::indexer::walk_single_dir;
use sd_library::keys::KeyManager;
use sd_library::library::Library;
use sd_library::orphan::OrphanRemoverActor;

fn entry(name: &str, is_dir: bool, mtime: u64) -> DiskEntry {
    DiskEntry { name: String::from(name), is_dir, mtime, readable: true }
}

fn library_with_location(root: &str) -> (Library, LocationRecord) {
    let mut db = LibraryDb::new();
    let node_id = db.upsert_node(1, "node", sd_library::platform::Platform::Linux);
    let location_id = db.insert_location(node_id, root, Vec::new());
    let location = db.get_location(location_id).expect("just inserted");
    let library = Library {
        id: 1,
        local_id: node_id,
        config: LibraryConfig { name: String::from("L"), description: String::new() },
        key_manager: KeyManager::new(),
        db,
        orphan_remover: OrphanRemoverActor::new(),
        node_local_id: node_id,
    };
    (library, location)
}

#[test]
fn deleted_file_yields_its_id_for_removal_and_no_insert() {
    let root = "/data/photos";
    let (mut library, location) = library_with_location(root);
    library.db.upsert_file_path(location.id, "/data/photos/a.jpg", false, 10);
    let recorded_id = library.db.file_paths[0].id;
    let recorded = library.db.recorded_children(location.id, root);
    assert_eq!(recorded.len(), 1);

    let listing: Vec<DiskEntry> = Vec::new();
    let wr = walk_single_dir(root, 0, &listing, &Vec::new(), &recorded, false);
    assert_eq!(wr.to_remove, vec![recorded_id]);
    assert!(wr.walked.is_empty());
    assert!(wr.errors.is_empty());
}

#[test]
fn walk_discovers_new_and_changed_entries_only() {
    let root = "/data/photos";
    let (mut library, location) = library_with_location(root);
    library.db.upsert_file_path(location.id, "/data/photos/same.jpg", false, 10);
    library.db.upsert_file_path(location.id, "/data/photos/changed.jpg", false, 10);
    let recorded = library.db.recorded_children(location.id, root);

    let listing = vec![
        entry("same.jpg", false, 10),
        entry("changed.jpg", false, 20),
        entry("new.jpg", false, 30),
    ];
    let wr = walk_single_dir(root, 0, &listing, &Vec::new(), &recorded, false);
    let walked_paths: Vec<&str> = wr.walked.iter().map(|w| w.path.as_str()).collect();
    assert_eq!(walked_paths, vec!["/data/photos/changed.jpg", "/data/photos/new.jpg"]);
    assert!(wr.to_remove.is_empty());
}

#[test]
fn unreadable_entries_are_reported_not_fatal() {
    let root = "/d";
    let listing = vec![
        DiskEntry { name: String::from("locked"), is_dir: false, mtime: 0, readable: false },
        entry("ok.txt", false, 1),
    ];
    let wr = walk_single_dir(root, 0, &listing, &Vec::new(), &Vec::new(), false);
    assert_eq!(wr.errors, vec![String::from("unreadable entry: locked")]);
    assert_eq!(wr.walked.len(), 1);
    assert_eq!(wr.walked[0].path, "/d/ok.txt");
}

#[test]
fn rules_reject_hidden_and_named_entries() {
    let rules = vec![
        IndexerRule::RejectHiddenEntries,
        IndexerRule::RejectIfNameEquals(String::from("node_modules")),
    ];
    assert!(!entry_accepted(&rules, ".git"));
    assert!(!entry_accepted(&rules, "node_modules"));
    assert!(entry_accepted(&rules, "photo.jpg"));
}

#[test]
fn unknown_rule_kind_fails_compilation() {
    let records = vec![IndexerRuleRecord { id: 1, kind: 9, pattern: String::from("x") }];
    assert!(matches!(
        compile_indexer_rules(&records),
        Err(IndexerError::RuleCompile(_))
    ));
    let records = vec![IndexerRuleRecord { id: 1, kind: 1, pattern: String::new() }];
    assert_eq!(compile_indexer_rules(&records).unwrap().len(), 1);
}

#[test]
fn sub_path_must_lie_inside_the_location_root() {
    assert!(ensure_sub_path_is_in_location("/data/photos", "/data/photos/albums").is_ok());
    assert!(matches!(
        ensure_sub_path_is_in_location("/data/photos", "/data/other"),
        Err(IndexerError::SubPathNotInLocation(_))
    ));
    assert!(matches!(
        ensure_sub_path_is_in_location("/data/photos", "/data/photos"),
        Err(IndexerError::SubPathNotInLocation(_))
    ));
}

#[test]
fn sub_path_must_be_a_directory() {
    assert!(ensure_sub_path_is_directory("/d/s", &FsNodeKind::Dir).is_ok());
    assert!(matches!(
        ensure_sub_path_is_directory("/d/s", &FsNodeKind::File),
        Err(IndexerError::SubPathNotADirectory(_))
    ));
    assert!(matches!(
        ensure_sub_path_is_directory("/d/s", &FsNodeKind::Missing),
        Err(IndexerError::SubPathNotADirectory(_))
    ));
}

#[test]
fn batches_cover_all_entries_in_chunks_of_one_thousand() {
    let mut walked: Vec<WalkedEntry> = Vec::new();
    for i in 0..2500u64 {
        walked.push(WalkedEntry { path: format!("/d/f{}", i), is_dir: false, mtime: i });
    }
    let steps = batch_steps(&walked);
    assert_eq!(steps.len(), 3);
    assert_eq!(steps[0].chunk_idx, 0);
    assert_eq!(steps[1].chunk_idx, 1);
    assert_eq!(steps[2].chunk_idx, 2);
    assert_eq!(steps[0].walked.len(), BATCH_SIZE);
    assert_eq!(steps[1].walked.len(), BATCH_SIZE);
    assert_eq!(steps[2].walked.len(), 500);
    let total: usize = steps.iter().map(|s| s.walked.len()).sum();
    assert_eq!(total, walked.len());
    assert_eq!(steps[1].walked[0].path, "/d/f1000");
}

#[test]
fn batching_empty_input_yields_no_steps() {
    let steps = batch_steps(&Vec::new());
    assert!(steps.is_empty());
}

#[test]
fn shallow_scan_saves_removes_and_queues_reclamation() {
    let root = "/data/photos";
    let (mut library, location) = library_with_location(root);
    library.db.upsert_file_path(location.id, "/data/photos/gone.jpg", false, 5);
    let gone_id = library.db.file_paths[0].id;

    let listing = vec![entry("a.jpg", false, 10), entry("b", true, 11)];
    let count = shallow(&location, "", &FsNodeKind::Missing, &listing, 0, &mut library)
        .expect("scan succeeds");
    assert_eq!(count, 2);
    assert!(library.orphan_remover.pending);
    assert!(library.db.file_paths.iter().all(|p| p.id != gone_id));
    let paths: Vec<&str> = library.db.file_paths.iter().map(|p| p.path.as_str()).collect();
    assert!(paths.contains(&"/data/photos/a.jpg"));
    assert!(paths.contains(&"/data/photos/b"));
    assert_eq!(library.db.file_paths.len(), 2);
}

#[test]
fn shallow_scan_twice_is_a_no_op_the_second_time() {
    let root = "/data/photos";
    let (mut library, location) = library_with_location(root);
    library.db.upsert_file_path(location.id, "/data/photos/stale.jpg", false, 1);

    let listing = vec![entry("a.jpg", false, 10), entry("b", true, 11), entry("c.png", false, 12)];
    let first = shallow(&location, "", &FsNodeKind::Missing, &listing, 0, &mut library).unwrap();
    assert_eq!(first, 3);
    let snapshot: Vec<(String, bool, u64)> = library
        .db
        .file_paths
        .iter()
        .map(|p| (p.path.clone(), p.is_dir, p.mtime))
        .collect();

    let second = shallow(&location, "", &FsNodeKind::Missing, &listing, 0, &mut library).unwrap();
    assert_eq!(second, 0, "an unchanged filesystem must produce an empty delta");
    let after: Vec<(String, bool, u64)> = library
        .db
        .file_paths
        .iter()
        .map(|p| (p.path.clone(), p.is_dir, p.mtime))
        .collect();
    assert_eq!(snapshot, after);
}

#[test]
fn shallow_scan_of_known_sub_path_does_not_duplicate_it() {
    let root = "/data/photos";
    let (mut library, location) = library_with_location(root);
    let sub = "/data/photos/albums";

    let listing = vec![entry("x.jpg", false, 1)];
    let first = shallow(&location, sub, &FsNodeKind::Dir, &listing, 99, &mut library).unwrap();
    assert_eq!(first, 2, "first scan records the sub-path itself plus its entry");
    assert!(library.db.file_paths.iter().any(|p| p.path == sub && p.is_dir));

    let second = shallow(&location, sub, &FsNodeKind::Dir, &listing, 99, &mut library).unwrap();
    assert_eq!(second, 0);
    let subs = library.db.file_paths.iter().filter(|p| p.path == sub).count();
    assert_eq!(subs, 1);
}

#[test]
fn shallow_scan_fails_on_an_uncompilable_rule() {
    let mut db = LibraryDb::new();
    let node_id = db.upsert_node(1, "node", sd_library::platform::Platform::Linux);
    let rule_id = db.insert_indexer_rule(250, "???");
    let location_id = db.insert_location(node_id, "/r", vec![rule_id]);
    let location = db.get_location(location_id).unwrap();
    let mut library = Library {
        id: 1,
        local_id: node_id,
        config: LibraryConfig { name: String::from("L"), description: String::new() },
        key_manager: KeyManager::new(),
        db,
        orphan_remover: OrphanRemoverActor::new(),
        node_local_id: node_id,
    };
    let r = shallow(&location, "", &FsNodeKind::Missing, &Vec::new(), 0, &mut library);
    assert!(matches!(r, Err(IndexerError::RuleCompile(_))));
}

#[test]
fn shallow_scan_applies_location_rules() {
    let mut db = LibraryDb::new();
    let node_id = db.upsert_node(1, "node", sd_library::platform::Platform::Linux);
    let hidden_rule = db.insert_indexer_rule(1, "");
    let location_id = db.insert_location(node_id, "/r", vec![hidden_rule]);
    let location = db.get_location(location_id).unwrap();
    let mut library = Library {
        id: 1,
        local_id: node_id,
        config: LibraryConfig { name: String::from("L"), description: String::new() },
        key_manager: KeyManager::new(),
        db,
        orphan_remover: OrphanRemoverActor::new(),
        node_local_id: node_id,
    };
    let listing = vec![entry(".hidden", false, 1), entry("seen.txt", false, 2)];
    let count = shallow(&location, "", &FsNodeKind::Missing, &listing, 0, &mut library).unwrap();
    assert_eq!(count, 1);
    assert_eq!(library.db.file_paths.len(), 1);
    assert_eq!(library.db.file_paths[0].path, "/r/seen.txt");
}

#[test]
fn shallow_scan_rejects_foreign_sub_path() {
    let (mut library, location) = library_with_location("/data/photos");
    let r = shallow(&location, "/etc", &FsNodeKind::Dir, &Vec::new(), 0, &mut library);
    assert!(matches!(r, Err(IndexerError::SubPathNotInLocation(_))));
    assert!(!library.orphan_remover.pending);
}
