use sd_library::config::library_name_is_valid;
use sd_library::ids::config_file_name;
use sd_library::ids::parse_config_file_name;
use sd_library::init::LibraryInitConfig;
use sd_library::init::LocationInitConfig;
use sd_library::init::InitConfig;
use sd_library::library::SyncMessage;
use sd_library::library::SyncOp;
use sd_library::library::sync_event_to_broadcast;
use sd_library::node::NodeConfig;
use sd_library::node::NodeConfigManager;
use sd_library::node::node_state_config_name;
use sd_library::platform::Platform;
use sd_library::platform::platform_from_os_name;
use sd_library::text::char_is_whitespace;
use sd_library::text::is_direct_child;
use sd_library::text::join_path;
use sd_library::text::str_is_blank;

#[test]
fn platform_tag_is_a_closed_enumeration() {
    assert_eq!(platform_from_os_name("windows"), Platform::Windows);
    assert_eq!(platform_from_os_name("macos"), Platform::MacOS);
    assert_eq!(platform_from_os_name("linux"), Platform::Linux);
    assert_eq!(platform_from_os_name("freebsd"), Platform::Unknown);
    assert_eq!(platform_from_os_name(""), Platform::Unknown);
}

#[test]
fn blank_names_are_invalid_including_unicode_whitespace() {
    assert!(!library_name_is_valid(""));
    assert!(!library_name_is_valid(" "));
    assert!(!library_name_is_valid(" \t\n"));
    assert!(!library_name_is_valid("\u{00A0}\u{2003}"));
    assert!(library_name_is_valid("Photos"));
    assert!(library_name_is_valid(" x "));
    assert!(str_is_blank("\u{3000}"));
    assert!(char_is_whitespace('\u{202F}'));
    assert!(!char_is_whitespace('x'));
}

#[test]
fn direct_child_means_exactly_one_level_below() {
    assert!(is_direct_child("/data", "/data/a.jpg"));
    assert!(!is_direct_child("/data", "/data"));
    assert!(!is_direct_child("/data", "/data/"));
    assert!(!is_direct_child("/data", "/data/a/b"));
    assert!(!is_direct_child("/data", "/other/a"));
    assert_eq!(join_path("/data", "a.jpg"), "/data/a.jpg");
}

#[test]
fn library_id_text_form_round_trips() {
    let id: u128 = 0x67e55044_10b1_426f_9247_bb680e5fe0c8;
    let s = config_file_name(id);
    assert_eq!(s, "67e55044-10b1-426f-9247-bb680e5fe0c8.sdlibrary");
    assert_eq!(parse_config_file_name(&s), Some(id));
    assert_eq!(parse_config_file_name("nonsense.sdlibrary"), None);
    assert_eq!(parse_config_file_name("nonsense"), None);
}

#[test]
fn only_created_sync_events_are_forwarded() {
    let fwd = sync_event_to_broadcast(SyncMessage::Created(SyncOp { payload: vec![1, 2] }));
    assert_eq!(fwd.unwrap().payload, vec![1, 2]);
    assert!(sync_event_to_broadcast(SyncMessage::Updated(SyncOp { payload: vec![3] })).is_none());
    assert!(sync_event_to_broadcast(SyncMessage::Deleted(SyncOp { payload: vec![] })).is_none());
}

#[test]
fn node_config_manager_updates_and_reports_paths() {
    let config = NodeConfig {
        id: 9,
        name: String::from("desk"),
        p2p_port: None,
        p2p_email: None,
        p2p_img_url: None,
    };
    let mut m = NodeConfigManager::new(config, String::from("/data"));
    assert_eq!(m.get().name, "desk");
    assert_eq!(m.data_directory(), "/data");
    let updated = NodeConfig {
        id: 9,
        name: String::from("desk-2"),
        p2p_port: Some(4242),
        p2p_email: None,
        p2p_img_url: None,
    };
    let written = m.write(updated);
    assert_eq!(written.name, "desk-2");
    assert_eq!(written.p2p_port, Some(4242));
    assert_eq!(m.get().name, "desk-2");
    assert_eq!(node_state_config_name(), "node_state.sdconfig");
}

#[test]
fn generated_node_config_has_no_p2p_settings_yet() {
    let c = NodeConfig::generate();
    assert!(c.p2p_port.is_none());
    assert!(c.p2p_email.is_none());
    assert!(c.p2p_img_url.is_none());
}

#[test]
fn init_description_defaults_to_empty() {
    let lib = LibraryInitConfig {
        id: 4,
        name: String::from("Dev"),
        description: None,
        reset_locations_on_startup: false,
        locations: vec![LocationInitConfig { path: String::from("/data") }],
    };
    let config = lib.initial_library_config();
    assert_eq!(config.name, "Dev");
    assert_eq!(config.description, "");
    let described = LibraryInitConfig { description: Some(String::from("d")), ..lib };
    assert_eq!(described.initial_library_config().description, "d");
}

#[test]
fn data_dir_reset_needs_both_flag_and_directory() {
    let init = InitConfig { reset_on_startup: true, libraries: Vec::new(), path: String::new() };
    assert!(init.should_reset_data_dir(true));
    assert!(!init.should_reset_data_dir(false));
    let keep = InitConfig { reset_on_startup: false, libraries: Vec::new(), path: String::new() };
    assert!(!keep.should_reset_data_dir(true));
}
