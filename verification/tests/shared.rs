use sw_video_lua::shared::{
    default_manager_config, game_exe_path, matching_game_build, plugin_enabled, plugin_entry_path,
    plugin_signatures_path, validate_plugin, GameBuild, ManagerConfig, PluginEntry, PluginManifest,
    PluginSetting, PluginState,
};

fn manifest() -> PluginManifest {
    PluginManifest {
        manifest_version: 1,
        id: "video_get".to_string(),
        name: "Video Get".to_string(),
        version: "0.1.0".to_string(),
        description: "capture".to_string(),
        entry: PluginEntry { kind: "native_dll".to_string(), path: "StormworksVideoGet.dll".to_string() },
        supported_process: "stormworks64.exe".to_string(),
        architecture: "x64".to_string(),
        game_builds: vec![
            GameBuild { label: "a".to_string(), sha256: "ABCDEF".to_string(), signatures: "sig_a.json".to_string() },
            GameBuild { label: "b".to_string(), sha256: "abcdef".to_string(), signatures: "sig_b.json".to_string() },
        ],
        default_enabled: true,
        single_player_only: true,
        docs: None,
        config_schema: None,
        default_config: None,
    }
}

#[test]
fn disabled_plugin_is_disabled() {
    assert_eq!(validate_plugin("p", &manifest(), Some("abcdef"), false, true, true), PluginState::Disabled);
}

#[test]
fn wrong_process_or_architecture_is_blocked() {
    let mut m = manifest();
    m.supported_process = "other.exe".to_string();
    assert_eq!(
        validate_plugin("p", &m, Some("abcdef"), true, true, true),
        PluginState::BlockedByPolicy("unsupported process other.exe".to_string())
    );
    let mut m = manifest();
    m.architecture = "x86".to_string();
    assert_eq!(
        validate_plugin("p", &m, Some("abcdef"), true, true, true),
        PluginState::BlockedByPolicy("unsupported architecture x86".to_string())
    );
    let mut m = manifest();
    m.architecture = "X64".to_string();
    assert_eq!(validate_plugin("p", &m, Some("abcdef"), true, true, true), PluginState::Ready);
}

#[test]
fn missing_files_and_unknown_builds() {
    let m = manifest();
    assert_eq!(
        validate_plugin("plugins/video_get", &m, Some("abcdef"), true, false, true),
        PluginState::MissingFiles(r"plugins/video_get\StormworksVideoGet.dll".to_string())
    );
    assert_eq!(validate_plugin("p", &m, None, true, true, true), PluginState::UnsupportedGameVersion);
    assert_eq!(validate_plugin("p", &m, Some("123"), true, true, true), PluginState::UnsupportedGameVersion);
    assert_eq!(
        validate_plugin("p", &m, Some("AbCdEf"), true, true, false),
        PluginState::MissingFiles(r"p\sig_a.json".to_string())
    );
    assert_eq!(validate_plugin("p", &m, Some("abcdef"), true, true, true), PluginState::Ready);
}

#[test]
fn state_names() {
    assert_eq!(PluginState::Disabled.as_str(), "disabled");
    assert_eq!(PluginState::Ready.as_str(), "ready");
    assert_eq!(PluginState::MissingFiles("x".into()).as_str(), "missing_files");
    assert_eq!(PluginState::UnsupportedGameVersion.as_str(), "unsupported_game_version");
    assert_eq!(PluginState::BlockedByPolicy("x".into()).as_str(), "blocked_by_policy");
    assert_eq!(PluginState::InvalidManifest("x".into()).as_str(), "invalid_manifest");
}

#[test]
fn first_build_matching_ignoring_case_wins() {
    let m = manifest();
    assert_eq!(matching_game_build(&m, "abcDEF").map(|b| b.label.as_str()), Some("a"));
    assert!(matching_game_build(&m, "abcde").is_none());
    let b = matching_game_build(&m, "ABCDEF").unwrap();
    assert_eq!(plugin_signatures_path("dir", b), r"dir\sig_a.json");
    assert_eq!(plugin_entry_path("dir/", &m), "dir/StormworksVideoGet.dll");
}

#[test]
fn default_configuration() {
    let c = default_manager_config();
    assert_eq!(c.game.install_path, "D:/SteamLibrary/steamapps/common/Stormworks");
    assert!(c.game.auto_detect);
    assert!(c.launch.allow_attach && c.launch.single_player_only && c.launch.fail_closed);
    assert_eq!(c.logging.level, "info");
    assert!(c.logging.open_log_on_failure);
    assert!(plugin_enabled(&c, "video_get", false));
    assert!(!plugin_enabled(&c, "other", false));
    assert!(plugin_enabled(&c, "other", true));
}

#[test]
fn plugin_enabled_reads_flag_or_default() {
    let mut c: ManagerConfig = default_manager_config();
    c.plugins = vec![
        PluginSetting { id: "a".to_string(), enabled: Some(false) },
        PluginSetting { id: "b".to_string(), enabled: None },
    ];
    assert!(!plugin_enabled(&c, "a", true));
    assert!(plugin_enabled(&c, "b", true));
    assert!(!plugin_enabled(&c, "b", false));
    assert!(plugin_enabled(&c, "c", true));
}

#[test]
fn game_exe_in_game_dir() {
    assert_eq!(game_exe_path("D:/Games/Stormworks"), r"D:/Games/Stormworks\stormworks64.exe");
    assert_eq!(game_exe_path(r"D:\Games\Stormworks\"), r"D:\Games\Stormworks\stormworks64.exe");
}
