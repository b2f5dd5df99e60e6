//! The video capture plugin's data model: frames exchanged with Lua, the
//! plugin configuration with its defaults, and the hook plan.

use vstd::prelude::*;
use vstd::string::*;
use crate::pe::SignatureGroup;

verus! {

/// A capture request as the Lua bridge exchanges it.
#[derive(Debug, Clone, Copy, Default)]
pub struct VideoGetCaptureRequestV1 {
    pub size: u32,
    pub component_hash: u64,
    pub slot: u32,
    pub width: u32,
    pub height: u32,
    pub mode: u32,
    pub ready: u32,
    pub connected: u32,
    pub frame_id: u64,
    pub source: u32,
    pub input_source_handle: u64,
}

pub struct VideoInit {
    pub slot: u32,
    pub width: u32,
    pub height: u32,
    pub mode: String,
    pub component: Option<String>,
}

pub struct VideoFrameInput {
    pub slot: u32,
    pub width: u32,
    pub height: u32,
    pub rgb: Vec<[u8; 3]>,
    pub connected: Option<bool>,
    pub component: Option<String>,
}

pub struct PixelGray {
    pub x: u32,
    pub y: u32,
    pub gray: u8,
}

pub struct PixelRgb {
    pub x: u32,
    pub y: u32,
    pub rgb: [u8; 3],
}

pub struct FrameInfo {
    pub frame_id: u64,
    pub component: String,
    pub slot: u32,
    pub width: u32,
    pub height: u32,
    pub mode: String,
    pub source: String,
    pub ready: bool,
    pub connected: bool,
    pub input_source_handle: u64,
    pub input_candidate_source_handle: u64,
    pub input_selected_source_handle: u64,
    pub input_resolved_source_handle: u64,
    pub input_upstream_source_handle: u64,
}

pub struct PackedFrame {
    pub frame_id: u64,
    pub component: String,
    pub slot: u32,
    pub width: u32,
    pub height: u32,
    pub mode: String,
    pub source: String,
    pub format: String,
    pub stride: u32,
    pub byte_len: usize,
    pub bytes: Vec<u8>,
}

pub struct FrameLimit {
    pub max_width: u32,
    pub max_height: u32,
}

pub struct VideoGetLimits {
    pub gray: FrameLimit,
    pub rgb: FrameLimit,
    pub max_active_slots: u32,
}

pub struct HookingConfig {
    pub auto_install: bool,
    pub fail_closed: bool,
    pub require_gate_for_target_patches: bool,
    pub allow_target_patches: bool,
}

pub struct CaptureConfig {
    pub max_fps: u32,
    pub min_unbound_texture_upload_width: u32,
    pub min_unbound_texture_upload_height: u32,
    pub source_texture_probe_enabled: bool,
    pub source_texture_probe_unsafe_confirm: bool,
}

pub struct MockRenderConfig {
    pub enabled: bool,
    pub max_fps: u32,
    pub update_initialized_slots: bool,
}

/// The plugin's configuration file.
pub struct VideoGetConfig {
    pub enabled: bool,
    pub limits: VideoGetLimits,
    pub hooking: HookingConfig,
    pub capture: CaptureConfig,
    pub mock_render: MockRenderConfig,
}

#[allow(non_snake_case)]
pub struct HookPlanLuaApi {
    pub lua_version: u32,
    pub lua_createtable: Option<String>,
    pub lua_pushcclosure: Option<String>,
    pub lua_setglobal: Option<String>,
    pub lua_setfield: Option<String>,
    pub lua_rawseti: Option<String>,
    pub lua_pushnil: Option<String>,
    pub lua_pushboolean: Option<String>,
    pub lua_pushinteger: Option<String>,
    pub lua_pushstring: Option<String>,
    pub luaL_checkinteger: Option<String>,
    pub luaL_checkstring: Option<String>,
    pub component_id: Option<String>,
}

pub struct HookPlanGameLua {
    pub create_table: Option<String>,
    pub push_string: Option<String>,
    pub rawseti: Option<String>,
    pub register_table: Option<String>,
    pub arg_slot: Option<String>,
}

pub struct HookPlanEntry {
    pub label: String,
    pub stage: String,
    pub target_va: String,
    pub replacement: String,
    pub require_trampoline: bool,
    pub patch_len: Option<usize>,
    pub enabled: bool,
}

/// Which hooks to install, as the analysis tooling wrote them.
pub struct HookPlan {
    pub schema_version: u32,
    pub source: String,
    pub generated_at: Option<String>,
    pub patching_allowed: bool,
    pub dry_run_only: bool,
    pub required_stage: Option<String>,
    pub accepted_stages: Vec<String>,
    pub lua_api: Option<HookPlanLuaApi>,
    pub game_lua: Option<HookPlanGameLua>,
    pub hooks: Vec<HookPlanEntry>,
}

/// A signature file: the game hash it was made for and its symbol groups.
pub struct SignatureFile {
    pub game_sha256: String,
    pub symbols: Vec<SignatureGroup>,
}

/// The value of a boolean field that defaults to on.
pub fn default_true() -> (b: bool)
    ensures
        b,
{
    true
}

/// The default capture rate limit.
pub fn default_capture_fps() -> (v: u32)
    ensures
        v == 60,
{
    60
}

/// The default smallest width of a texture upload that is captured without a binding.
pub fn default_min_unbound_texture_upload_width() -> (v: u32)
    ensures
        v == 16,
{
    16
}

/// The default smallest height of a texture upload that is captured without a binding.
pub fn default_min_unbound_texture_upload_height() -> (v: u32)
    ensures
        v == 16,
{
    16
}

/// The default frame rate of the mock renderer.
pub fn default_mock_render_fps() -> (v: u32)
    ensures
        v == 60,
{
    60
}

impl Default for HookingConfig {
    fn default() -> (c: Self)
        ensures
            c.auto_install,
            c.fail_closed,
            c.require_gate_for_target_patches,
            !c.allow_target_patches,
    {
        HookingConfig {
            auto_install: true,
            fail_closed: true,
            require_gate_for_target_patches: true,
            allow_target_patches: false,
        }
    }
}

impl Default for CaptureConfig {
    fn default() -> (c: Self)
        ensures
            c.max_fps == 60,
            c.min_unbound_texture_upload_width == 16,
            c.min_unbound_texture_upload_height == 16,
            !c.source_texture_probe_enabled,
            !c.source_texture_probe_unsafe_confirm,
    {
        CaptureConfig {
            max_fps: default_capture_fps(),
            min_unbound_texture_upload_width: default_min_unbound_texture_upload_width(),
            min_unbound_texture_upload_height: default_min_unbound_texture_upload_height(),
            source_texture_probe_enabled: false,
            source_texture_probe_unsafe_confirm: false,
        }
    }
}

impl Default for MockRenderConfig {
    fn default() -> (c: Self)
        ensures
            c.enabled,
            c.max_fps == 60,
            c.update_initialized_slots,
    {
        MockRenderConfig { enabled: true, max_fps: default_mock_render_fps(), update_initialized_slots: true }
    }
}

/// The configuration used when the plugin has none: enabled, gray frames up to 160x90,
/// RGB frames up to 64x64, four active slots, and the default hooking, capture and mock
/// renderer settings.
pub fn default_video_get_config() -> (c: VideoGetConfig)
    ensures
        c.enabled,
        c.limits.gray.max_width == 160,
        c.limits.gray.max_height == 90,
        c.limits.rgb.max_width == 64,
        c.limits.rgb.max_height == 64,
        c.limits.max_active_slots == 4,
        c.hooking.auto_install,
        c.hooking.fail_closed,
        c.hooking.require_gate_for_target_patches,
        !c.hooking.allow_target_patches,
        c.capture.max_fps == 60,
        c.capture.min_unbound_texture_upload_width == 16,
        c.capture.min_unbound_texture_upload_height == 16,
        !c.capture.source_texture_probe_enabled,
        !c.capture.source_texture_probe_unsafe_confirm,
        c.mock_render.enabled,
        c.mock_render.max_fps == 60,
        c.mock_render.update_initialized_slots,
{
    VideoGetConfig {
        enabled: true,
        limits: VideoGetLimits {
            gray: FrameLimit { max_width: 160, max_height: 90 },
            rgb: FrameLimit { max_width: 64, max_height: 64 },
            max_active_slots: 4,
        },
        hooking: HookingConfig::default(),
        capture: CaptureConfig::default(),
        mock_render: MockRenderConfig::default(),
    }
}

} // verus!
