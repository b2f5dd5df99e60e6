//! Mod-manager data shared by the launcher and the plugins: the manager
//! configuration, plugin manifests, the runtime context handed to a plugin, and
//! the rules that decide whether a plugin may be loaded.

use vstd::prelude::*;
use vstd::string::*;
use crate::paths::{join_path, spec_join_path};
use crate::text::{eq_ignore_ascii_case, spec_eq_ignore_ascii_case, spec_to_ascii_lowercase, to_ascii_lowercase};

verus! {

/// Where the game is installed when nothing else is configured.
pub open spec fn default_game_dir() -> Seq<char> {
    "D:/SteamLibrary/steamapps/common/Stormworks"@
}

/// The file name of the game executable.
pub open spec fn game_exe_name() -> Seq<char> {
    "stormworks64.exe"@
}

pub struct GameConfig {
    pub install_path: String,
    pub auto_detect: bool,
}

pub struct LaunchConfig {
    pub allow_attach: bool,
    pub single_player_only: bool,
    pub fail_closed: bool,
}

pub struct LoggingConfig {
    pub level: String,
    pub open_log_on_failure: bool,
}

/// One member of the `plugins` object of the manager configuration: the plugin id and
/// its `enabled` flag, `None` where the member is not an object with a boolean `enabled`.
pub struct PluginSetting {
    pub id: String,
    pub enabled: Option<bool>,
}

/// The mod manager's configuration file.
pub struct ManagerConfig {
    pub game: GameConfig,
    pub launch: LaunchConfig,
    /// The members of the `plugins` object, in key order; ids are distinct.
    pub plugins: Vec<PluginSetting>,
    pub logging: LoggingConfig,
}

pub struct PluginEntry {
    /// The entry's `type`.
    pub kind: String,
    pub path: String,
}

pub struct GameBuild {
    pub label: String,
    pub sha256: String,
    pub signatures: String,
}

/// A plugin's `plugin.json`.
pub struct PluginManifest {
    pub manifest_version: u32,
    pub id: String,
    pub name: String,
    pub version: String,
    pub description: String,
    pub entry: PluginEntry,
    pub supported_process: String,
    pub architecture: String,
    pub game_builds: Vec<GameBuild>,
    pub default_enabled: bool,
    pub single_player_only: bool,
    pub docs: Option<String>,
    pub config_schema: Option<String>,
    pub default_config: Option<String>,
}

/// What the manager hands a plugin when it loads it.
pub struct PluginRuntimeContext {
    pub schema_version: u32,
    pub manager_home: String,
    pub plugin_id: String,
    pub plugin_dir: String,
    pub manifest_path: String,
    pub config_path: Option<String>,
    pub signatures_path: String,
    pub hook_plan_path: Option<String>,
    pub game_exe: String,
    pub game_sha256: String,
    pub game_build_label: String,
    pub mode: String,
    pub process_id: Option<u32>,
    pub log_dir: String,
}

/// Whether a plugin can be loaded, and if not, why.
#[derive(Debug, Clone, PartialEq, Eq)]
pub enum PluginState {
    Disabled,
    Ready,
    MissingFiles(String),
    UnsupportedGameVersion,
    BlockedByPolicy(String),
    InvalidManifest(String),
}

/// The status name of a plugin state.
pub open spec fn spec_state_name(s: PluginState) -> Seq<char> {
    match s {
        PluginState::Disabled => "disabled"@,
        PluginState::Ready => "ready"@,
        PluginState::MissingFiles(_) => "missing_files"@,
        PluginState::UnsupportedGameVersion => "unsupported_game_version"@,
        PluginState::BlockedByPolicy(_) => "blocked_by_policy"@,
        PluginState::InvalidManifest(_) => "invalid_manifest"@,
    }
}

impl PluginState {
    /// The status name shown for this state.
    pub fn as_str(&self) -> (r: &str)
        ensures
            r@ == spec_state_name(*self),
    {
        match self {
            PluginState::Disabled => "disabled",
            PluginState::Ready => "ready",
            PluginState::MissingFiles(_) => "missing_files",
            PluginState::UnsupportedGameVersion => "unsupported_game_version",
            PluginState::BlockedByPolicy(_) => "blocked_by_policy",
            PluginState::InvalidManifest(_) => "invalid_manifest",
        }
    }
}

/// The configuration written on first start: auto-detected game at the default path,
/// attaching allowed, single-player only, failing closed, `video_get` enabled, `info` logging.
pub fn default_manager_config() -> (c: ManagerConfig)
    ensures
        c.game.install_path@ == default_game_dir(),
        c.game.auto_detect,
        c.launch.allow_attach,
        c.launch.single_player_only,
        c.launch.fail_closed,
        c.plugins@.len() == 1,
        c.plugins@[0].id@ == "video_get"@,
        c.plugins@[0].enabled == Some(true),
        c.logging.level@ == "info"@,
        c.logging.open_log_on_failure,
{
    let mut plugins: Vec<PluginSetting> = Vec::new();
    plugins.push(PluginSetting { id: String::from_str("video_get"), enabled: Some(true) });
    ManagerConfig {
        game: GameConfig {
            install_path: String::from_str("D:/SteamLibrary/steamapps/common/Stormworks"),
            auto_detect: true,
        },
        launch: LaunchConfig { allow_attach: true, single_player_only: true, fail_closed: true },
        plugins,
        logging: LoggingConfig { level: String::from_str("info"), open_log_on_failure: true },
    }
}

/// The game executable inside a game directory.
pub fn game_exe_path(game_dir: &str) -> (r: String)
    ensures
        r@ == spec_join_path(game_dir@, game_exe_name()),
{
    join_path(game_dir, "stormworks64.exe")
}

/// Index of the first build, from `i` on, whose hash equals `sha` ignoring ASCII case.
pub open spec fn find_build_from(builds: Seq<GameBuild>, sha: Seq<char>, i: int) -> Option<int>
    decreases builds.len() - i,
{
    if i < 0 || i >= builds.len() {
        None
    } else if spec_eq_ignore_ascii_case(builds[i].sha256@, sha) {
        Some(i)
    } else {
        find_build_from(builds, sha, i + 1)
    }
}

pub proof fn lemma_find_build_bounds(builds: Seq<GameBuild>, sha: Seq<char>, i: int)
    requires
        0 <= i,
    ensures
        find_build_from(builds, sha, i) matches Some(k) ==> i <= k < builds.len(),
    decreases builds.len() - i,
{
    if i < builds.len() && !spec_eq_ignore_ascii_case(builds[i].sha256@, sha) {
        lemma_find_build_bounds(builds, sha, i + 1);
    }
}

/// The manifest's build entry for a game hash (compared ignoring ASCII case); the first one wins.
pub fn matching_game_build<'a>(manifest: &'a PluginManifest, game_sha256: &str) -> (r: Option<&'a GameBuild>)
    ensures
        match find_build_from(manifest.game_builds@, game_sha256@, 0) {
            Some(i) => r matches Some(b) && *b == manifest.game_builds@[i],
            None => r is None,
        },
        find_build_from(manifest.game_builds@, game_sha256@, 0) matches Some(i) ==> 0 <= i < manifest.game_builds@.len(),
{
    proof {
        lemma_find_build_bounds(manifest.game_builds@, game_sha256@, 0);
    }
    let mut i: usize = 0;
    while i < manifest.game_builds.len()
        invariant
            i <= manifest.game_builds@.len(),
            find_build_from(manifest.game_builds@, game_sha256@, i as int) == find_build_from(manifest.game_builds@, game_sha256@, 0),
        decreases manifest.game_builds.len() - i,
    {
        if eq_ignore_ascii_case(manifest.game_builds[i].sha256.as_str(), game_sha256) {
            return Some(&manifest.game_builds[i]);
        }
        i = i + 1;
    }
    None
}

/// The plugin's entry file: the manifest's entry path under the plugin directory.
pub fn plugin_entry_path(plugin_dir: &str, manifest: &PluginManifest) -> (r: String)
    ensures
        r@ == spec_join_path(plugin_dir@, manifest.entry.path@),
{
    join_path(plugin_dir, manifest.entry.path.as_str())
}

/// A build's signature file under the plugin directory.
pub fn plugin_signatures_path(plugin_dir: &str, build: &GameBuild) -> (r: String)
    ensures
        r@ == spec_join_path(plugin_dir@, build.signatures@),
{
    join_path(plugin_dir, build.signatures.as_str())
}

/// The state that `validate_plugin` decides, checked in order: disabled; wrong process;
/// architecture other than `x64` (ignoring ASCII case); missing entry file; unknown game
/// hash; missing signature file of the matching build; otherwise ready.
pub open spec fn validate_plugin_result(
    r: PluginState,
    plugin_dir: Seq<char>,
    manifest: PluginManifest,
    game_sha256: Option<Seq<char>>,
    enabled: bool,
    entry_exists: bool,
    signatures_exist: bool,
) -> bool {
    if !enabled {
        r == PluginState::Disabled
    } else if manifest.supported_process@ != game_exe_name() {
        r matches PluginState::BlockedByPolicy(m) && m@ == "unsupported process "@ + manifest.supported_process@
    } else if spec_to_ascii_lowercase(manifest.architecture@) != "x64"@ {
        r matches PluginState::BlockedByPolicy(m) && m@ == "unsupported architecture "@ + manifest.architecture@
    } else if !entry_exists {
        r matches PluginState::MissingFiles(m) && m@ == spec_join_path(plugin_dir, manifest.entry.path@)
    } else {
        match game_sha256 {
            None => r == PluginState::UnsupportedGameVersion,
            Some(sha) => match find_build_from(manifest.game_builds@, sha, 0) {
                None => r == PluginState::UnsupportedGameVersion,
                Some(i) => if !signatures_exist {
                    r matches PluginState::MissingFiles(m) && m@ == spec_join_path(plugin_dir, manifest.game_builds@[i].signatures@)
                } else {
                    r == PluginState::Ready
                },
            },
        }
    }
}

/// Decides whether a plugin may be loaded. `entry_exists` tells whether the entry file
/// (`plugin_entry_path`) exists, and `signatures_exist` whether the signature file of the
/// build that matches the game hash (`plugin_signatures_path`) exists.
pub fn validate_plugin(
    plugin_dir: &str,
    manifest: &PluginManifest,
    game_sha256: Option<&str>,
    enabled: bool,
    entry_exists: bool,
    signatures_exist: bool,
) -> (r: PluginState)
    ensures
        validate_plugin_result(
            r,
            plugin_dir@,
            *manifest,
            match game_sha256 {
                Some(s) => Some(s@),
                None => None,
            },
            enabled,
            entry_exists,
            signatures_exist,
        ),
{
    if !enabled {
        return PluginState::Disabled;
    }
    if !string_eq(manifest.supported_process.as_str(), "stormworks64.exe") {
        let mut m = String::from_str("unsupported process ");
        m.append(manifest.supported_process.as_str());
        return PluginState::BlockedByPolicy(m);
    }
    let arch = to_ascii_lowercase(manifest.architecture.as_str());
    if !string_eq(arch.as_str(), "x64") {
        let mut m = String::from_str("unsupported architecture ");
        m.append(manifest.architecture.as_str());
        return PluginState::BlockedByPolicy(m);
    }
    if !entry_exists {
        return PluginState::MissingFiles(plugin_entry_path(plugin_dir, manifest));
    }
    let sha = match game_sha256 {
        None => return PluginState::UnsupportedGameVersion,
        Some(s) => s,
    };
    let build = match matching_game_build(manifest, sha) {
        None => return PluginState::UnsupportedGameVersion,
        Some(b) => b,
    };
    if !signatures_exist {
        return PluginState::MissingFiles(plugin_signatures_path(plugin_dir, build));
    }
    PluginState::Ready
}

/// Whether two strings hold the same characters.
pub fn string_eq(a: &str, b: &str) -> (r: bool)
    ensures
        r == (a@ == b@),
{
    let va = crate::text::chars_of(a);
    let vb = crate::text::chars_of(b);
    if va.len() != vb.len() {
        return false;
    }
    let mut i: usize = 0;
    while i < va.len()
        invariant
            i <= va@.len(),
            va@.len() == vb@.len(),
            va@ == a@,
            vb@ == b@,
            forall|j: int| 0 <= j < i ==> va@[j] == vb@[j],
        decreases va.len() - i,
    {
        if va[i] != vb[i] {
            return false;
        }
        i = i + 1;
    }
    assert(va@ =~= vb@);
    true
}

/// The `enabled` flag of the first setting, from `i` on, whose id is `id`.
pub open spec fn find_setting_from(settings: Seq<PluginSetting>, id: Seq<char>, i: int) -> Option<int>
    decreases settings.len() - i,
{
    if i < 0 || i >= settings.len() {
        None
    } else if settings[i].id@ == id {
        Some(i)
    } else {
        find_setting_from(settings, id, i + 1)
    }
}

/// Whether a plugin is enabled: its `enabled` flag in the configuration, or `default_enabled`
/// where the configuration has no boolean flag for it.
pub fn plugin_enabled(config: &ManagerConfig, plugin_id: &str, default_enabled: bool) -> (r: bool)
    ensures
        r == match find_setting_from(config.plugins@, plugin_id@, 0) {
            Some(i) => match config.plugins@[i].enabled {
                Some(b) => b,
                None => default_enabled,
            },
            None => default_enabled,
        },
{
    let mut i: usize = 0;
    while i < config.plugins.len()
        invariant
            i <= config.plugins@.len(),
            find_setting_from(config.plugins@, plugin_id@, i as int) == find_setting_from(config.plugins@, plugin_id@, 0),
        decreases config.plugins.len() - i,
    {
        if string_eq(config.plugins[i].id.as_str(), plugin_id) {
            return match config.plugins[i].enabled {
                Some(b) => b,
                None => default_enabled,
            };
        }
        i = i + 1;
    }
    default_enabled
}

} // verus!
