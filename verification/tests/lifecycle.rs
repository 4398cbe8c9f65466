use sd_library::config::LibraryConfig;
use sd_library::db::LibraryDb;
use sd_library::error::LibraryManagerError;
use sd_library::ids::config_file_name;
use sd_library::ids::db_file_name;
use sd_library::ids::parse_config_file_name;
use sd_library::manager::FileProbe;
use sd_library::manager::LibraryManager;
use sd_library::manager::StartupDecision;
use sd_library::manager::scan_library_dir_entry;
use sd_library::manager::plan_startup;
use sd_library::manager::StartupEntry;
use sd_library::platform::Platform;

fn manager() -> LibraryManager {
    LibraryManager::new(String::from("/tmp/libraries"))
}

fn loaded_library(id: u128, name: &str) -> sd_library::library::Library {
    let config = LibraryConfig { name: String::from(name), description: String::new() };
    let (library, to_watch) =
        LibraryManager::load(id, config, 7, "test-node", Platform::Linux, LibraryDb::new())
            .expect("load should succeed on an empty database");
    assert!(to_watch.is_empty());
    LibraryManager::load_finalize(library, &to_watch.iter().map(|_| true).collect(), true)
        .expect("finalize with no locations succeeds")
}

#[test]
fn whitespace_only_name_is_rejected() {
    let m = manager();
    let config = LibraryConfig { name: String::from(" "), description: String::new() };
    match m.create_with_uuid(42, &config) {
        Err(LibraryManagerError::InvalidConfig(_)) => {}
        other => panic!("expected InvalidConfig, got {:?}", other),
    }
}

#[test]
fn empty_name_is_rejected() {
    let m = manager();
    let config = LibraryConfig { name: String::new(), description: String::new() };
    assert!(matches!(
        m.create_with_uuid(42, &config),
        Err(LibraryManagerError::InvalidConfig(_))
    ));
}

#[test]
fn named_library_is_created_and_listed() {
    let mut m = manager();
    let config = LibraryConfig { name: String::from("Photos"), description: String::new() };
    let (cfg_file, db_file) = m.create_with_uuid(42, &config).expect("valid name");
    assert!(cfg_file.ends_with(".sdlibrary"));
    assert!(db_file.ends_with(".db"));
    let library = loaded_library(42, "Photos");
    let wrapped = m.create_with_uuid_finish(library);
    assert_eq!(wrapped.uuid, 42);
    assert_eq!(wrapped.config.name, "Photos");
    let listed = m.get_all_libraries_config();
    assert_eq!(listed.len(), 1);
    assert_eq!(listed[0].uuid, 42);
    assert_eq!(listed[0].config.name, "Photos");
}

#[test]
fn create_seeds_default_indexer_rules() {
    let mut m = manager();
    let library = loaded_library(9, "Seeded");
    assert_eq!(library.db.indexer_rules.len(), 0);
    m.create_with_uuid_finish(library);
    let lib = m.get_library(9).expect("registered");
    assert_eq!(lib.db.indexer_rules.len(), 2);
}

#[test]
fn same_id_registers_only_once() {
    let mut m = manager();
    assert!(m.register(loaded_library(5, "First")));
    assert!(!m.register(loaded_library(5, "Second")));
    assert_eq!(m.libraries.len(), 1);
    assert_eq!(m.get_library(5).unwrap().config.name, "First");
}

#[test]
fn partial_file_removal_keeps_the_library_registered() {
    let mut m = manager();
    m.register(loaded_library(5, "Keep"));
    match m.delete(5, true, false) {
        Err(LibraryManagerError::FileIO(_)) => {}
        other => panic!("expected FileIO, got {:?}", other),
    }
    assert!(m.get_library(5).is_some());
    match m.delete(5, false, true) {
        Err(LibraryManagerError::FileIO(_)) => {}
        other => panic!("expected FileIO, got {:?}", other),
    }
    assert!(m.get_library(5).is_some());
    m.delete(5, true, true).expect("both files removed");
    assert!(m.get_library(5).is_none());
}

#[test]
fn delete_of_unknown_library_reports_not_found() {
    let mut m = manager();
    assert!(matches!(
        m.delete(99, true, true),
        Err(LibraryManagerError::LibraryNotFound)
    ));
    assert!(matches!(
        m.delete_targets(99),
        Err(LibraryManagerError::LibraryNotFound)
    ));
}

#[test]
fn edit_applies_present_fields_only() {
    let mut m = manager();
    m.register(loaded_library(5, "Old"));
    let new_config = m
        .edit(5, Some(String::from("New")), None)
        .expect("library exists");
    assert_eq!(new_config.name, "New");
    assert_eq!(new_config.description, "");
    let lib = m.get_library(5).unwrap();
    assert_eq!(lib.config.name, "New");
    let new_config = m.edit(5, None, Some(String::from("desc"))).unwrap();
    assert_eq!(new_config.name, "New");
    assert_eq!(new_config.description, "desc");
}

#[test]
fn edit_of_unknown_library_reports_not_found() {
    let mut m = manager();
    assert!(matches!(
        m.edit(99, Some(String::from("x")), None),
        Err(LibraryManagerError::LibraryNotFound)
    ));
}

#[test]
fn library_file_names_round_trip() {
    let id: u128 = 0x123456789abcdef0fedcba9876543210;
    let name = config_file_name(id);
    assert_eq!(parse_config_file_name(&name), Some(id));
    assert_eq!(name.len(), 36 + ".sdlibrary".len());
    assert!(db_file_name(id).ends_with(".db"));
}

#[test]
fn startup_scan_classifies_entries() {
    let id: u128 = 7;
    let name = config_file_name(id);
    assert!(matches!(
        scan_library_dir_entry(&name, true, &FileProbe::Exists),
        StartupDecision::Load(7)
    ));
    assert!(matches!(
        scan_library_dir_entry(&name, true, &FileProbe::NotFound),
        StartupDecision::SkipMissingDatabase
    ));
    assert!(matches!(
        scan_library_dir_entry(&name, true, &FileProbe::IoError(String::from("denied"))),
        StartupDecision::Fail(_)
    ));
    assert!(matches!(
        scan_library_dir_entry(&name, false, &FileProbe::Exists),
        StartupDecision::NotALibraryFile
    ));
    assert!(matches!(
        scan_library_dir_entry("notes.txt", true, &FileProbe::Exists),
        StartupDecision::NotALibraryFile
    ));
    assert!(matches!(
        scan_library_dir_entry("not-a-uuid.sdlibrary", true, &FileProbe::Exists),
        StartupDecision::SkipInvalidName
    ));
}

#[test]
fn startup_plan_skips_a_config_whose_database_is_missing() {
    let crashed = config_file_name(1);
    let healthy = config_file_name(2);
    let entries = vec![
        StartupEntry { file_name: crashed, is_file: true, db_probe: FileProbe::NotFound },
        StartupEntry { file_name: healthy, is_file: true, db_probe: FileProbe::Exists },
        StartupEntry {
            file_name: String::from("notes.txt"),
            is_file: true,
            db_probe: FileProbe::NotFound,
        },
    ];
    let ids = plan_startup(&entries).expect("a missing database is skipped, not fatal");
    assert_eq!(ids, vec![2]);
}

#[test]
fn startup_plan_fails_hard_on_a_probe_error() {
    let entries = vec![StartupEntry {
        file_name: config_file_name(1),
        is_file: true,
        db_probe: FileProbe::IoError(String::from("denied")),
    }];
    assert!(matches!(
        plan_startup(&entries),
        Err(LibraryManagerError::FileIO(_))
    ));
}

#[test]
fn load_assigns_stable_local_node_id() {
    let mut db = LibraryDb::new();
    let first = db.upsert_node(77, "node-a", Platform::Linux);
    let config = LibraryConfig { name: String::from("L"), description: String::new() };
    let (library, _) = LibraryManager::load(1, config, 77, "node-a-renamed", Platform::Linux, db)
        .expect("load succeeds");
    assert_eq!(library.local_id, first);
    assert_eq!(library.node_local_id, first);
    assert_eq!(library.db.nodes.len(), 1);
    assert_eq!(library.db.nodes[0].name, "node-a-renamed");
}

#[test]
fn load_finalize_fails_on_watch_registration_failure() {
    let library = loaded_library(3, "Watched");
    let r = LibraryManager::load_finalize(library, &vec![true, false, true], true);
    assert!(matches!(r, Err(LibraryManagerError::LocationWatcher(_))));
}

#[test]
fn error_messages_carry_one_tagged_cause() {
    assert_eq!(
        LibraryManagerError::LibraryNotFound.message(),
        "library not found error"
    );
    assert_eq!(
        LibraryManagerError::InvalidConfig(String::from("name cannot be empty")).message(),
        "invalid library configuration: name cannot be empty"
    );
    assert_eq!(
        LibraryManagerError::Database(String::from("locked")).message(),
        "database error: locked"
    );
}

#[test]
fn list_query_key_names_the_cached_listing() {
    assert_eq!(LibraryManager::list_query_key(), "library.list");
}
