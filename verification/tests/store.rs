use sd_library::db::LibraryDb;
use sd_library::error::LibraryManagerError;
use sd_library::keys::KeyManager;
use sd_library::keys::KeyRecord;
use sd_library::keys::seed_keymanager;
use sd_library::orphan::OrphanRemoverActor;
use sd_library::platform::Platform;

fn key_record(uuid: &str, default: bool) -> KeyRecord {
    KeyRecord {
        uuid: String::from(uuid),
        version: String::from("V1"),
        key_type: String::from("User"),
        algorithm: String::from("XChaCha20Poly1305"),
        hashing_algorithm: String::from("Argon2id"),
        content_salt: vec![1; 16],
        master_key: vec![2; 48],
        master_key_nonce: vec![3; 20],
        key_nonce: vec![4; 20],
        key: String::from("sealed"),
        salt: vec![5; 16],
        default,
        automount: false,
    }
}

#[test]
fn upsert_node_hands_out_the_same_local_id_on_reopen() {
    let mut db = LibraryDb::new();
    let a = db.upsert_node(10, "first-name", Platform::MacOS);
    let b = db.upsert_node(10, "renamed", Platform::Linux);
    assert_eq!(a, b);
    assert_eq!(db.nodes.len(), 1);
    assert_eq!(db.nodes[0].name, "renamed");
    assert_eq!(db.nodes[0].platform, Platform::MacOS, "platform set at creation is kept");
    let c = db.upsert_node(11, "other", Platform::Windows);
    assert_ne!(a, c);
}

#[test]
fn locations_are_filtered_by_owning_node() {
    let mut db = LibraryDb::new();
    let n1 = db.upsert_node(1, "a", Platform::Linux);
    let n2 = db.upsert_node(2, "b", Platform::Linux);
    let l1 = db.insert_location(n1, "/one", Vec::new());
    let l2 = db.insert_location(n2, "/two", Vec::new());
    let l3 = db.insert_location(n1, "/three", Vec::new());
    assert_eq!(db.location_ids_for_node(n1), vec![l1, l3]);
    assert_eq!(db.location_ids_for_node(n2), vec![l2]);
    assert_eq!(db.all_location_ids(), vec![l1, l2, l3]);
}

#[test]
fn removing_absent_file_path_ids_is_a_no_op() {
    let mut db = LibraryDb::new();
    let n = db.upsert_node(1, "a", Platform::Linux);
    let loc = db.insert_location(n, "/r", Vec::new());
    db.upsert_file_path(loc, "/r/x", false, 1);
    let id = db.file_paths[0].id;
    db.remove_file_paths(&vec![id, 12345]);
    assert!(db.file_paths.is_empty());
    db.remove_file_paths(&vec![id]);
    assert!(db.file_paths.is_empty());
}

#[test]
fn orphan_sweep_deletes_only_unreferenced_objects() {
    let mut db = LibraryDb::new();
    let n = db.upsert_node(1, "a", Platform::Linux);
    let loc = db.insert_location(n, "/r", Vec::new());
    db.upsert_file_path(loc, "/r/x", false, 1);
    let path_id = db.file_paths[0].id;
    let kept = db.insert_object();
    let orphan = db.insert_object();
    assert!(db.set_file_path_object(path_id, kept));
    db.sweep_orphans();
    assert_eq!(db.objects, vec![kept]);
    assert_ne!(kept, orphan);
}

#[test]
fn reclamation_requests_coalesce_into_one_sweep() {
    let mut db = LibraryDb::new();
    db.insert_object();
    let mut actor = OrphanRemoverActor::new();
    actor.invoke();
    actor.invoke();
    actor.invoke();
    assert!(actor.pending);
    assert!(actor.run_pending_sweep(&mut db));
    assert!(db.objects.is_empty(), "the sweep reflects state after the last request");
    assert!(!actor.pending);
    assert!(!actor.run_pending_sweep(&mut db), "no queued request, no sweep");
}

#[test]
fn seed_keymanager_populates_and_marks_last_default() {
    let records = vec![
        key_record("11111111-1111-1111-1111-111111111111", true),
        key_record("22222222-2222-2222-2222-222222222222", false),
        key_record("33333333-3333-3333-3333-333333333333", true),
    ];
    let mut km = KeyManager::new();
    seed_keymanager(&records, &mut km).expect("all ids parse");
    assert_eq!(km.keys.len(), 3);
    assert_eq!(km.default_key, Some(0x33333333_3333_3333_3333_333333333333));
    assert!(!km.keys[0].memory_only);
    assert_eq!(km.keys[1].uuid, 0x22222222_2222_2222_2222_222222222222);
    assert_eq!(km.keys[0].algorithm, "XChaCha20Poly1305");
}

#[test]
fn seed_keymanager_without_default_flag_sets_none() {
    let records = vec![key_record("11111111-1111-1111-1111-111111111111", false)];
    let mut km = KeyManager::new();
    seed_keymanager(&records, &mut km).unwrap();
    assert_eq!(km.default_key, None);
}

#[test]
fn seed_keymanager_rejects_an_invalid_stored_id() {
    let records = vec![key_record("not-a-uuid", true)];
    let mut km = KeyManager::new();
    match seed_keymanager(&records, &mut km) {
        Err(LibraryManagerError::Uuid(_)) => {}
        other => panic!("expected Uuid error, got {:?}", other),
    }
    assert!(km.keys.is_empty(), "a failed seeding leaves the keystore untouched");
}
