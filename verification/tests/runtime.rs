use sw_video_lua::config::{
    default_capture_fps, default_min_unbound_texture_upload_height,
    default_min_unbound_texture_upload_width, default_mock_render_fps, default_true,
    default_video_get_config, CaptureConfig, HookingConfig, MockRenderConfig,
};
use sw_video_lua::digest::sha256_hex;
use sw_video_lua::hook::{hook_outcome_i32, hook_outcome_void, panic_payload_message, HookOutcome, PanicPayload};
use sw_video_lua::memory::{
    format_hex_or_zero, format_hex_usize, hex_u64, module_base_from_handle, parse_hex_u64_local,
    pointer_value_looks_process_address, range_is_plausible, region_allows_read, MemoryRegion,
};
use sw_video_lua::runtime_debug::{
    frame_preview_file_name, runtime_debug_frame_source_counts, frame_preview_wanted, snapshot_write_due, truncate_debug_reason,
};
use sw_video_lua::time_utils::{epoch_millis_from_reading, saturating_u128_to_u64, unix_time_millis};

#[test]
fn hex_renderings() {
    assert_eq!(format_hex_or_zero(0), "0");
    assert_eq!(format_hex_or_zero(0x1a2b), "0x1a2b");
    assert_eq!(format_hex_usize(0), "0");
    assert_eq!(format_hex_usize(255), "0xff");
    assert_eq!(hex_u64(0), "0x0");
    assert_eq!(hex_u64(u64::MAX), "0xffffffffffffffff");
}

#[test]
fn parses_local_hex_addresses() {
    assert_eq!(parse_hex_u64_local(" rva:0x1A "), Some(0x1a));
    assert_eq!(parse_hex_u64_local("0x0x10"), Some(0x10));
    assert_eq!(parse_hex_u64_local("ff"), Some(0xff));
    assert_eq!(parse_hex_u64_local("+ff"), Some(0xff));
    assert_eq!(parse_hex_u64_local("ffffffffffffffff"), Some(u64::MAX));
    assert_eq!(parse_hex_u64_local("10000000000000000"), None);
    assert_eq!(parse_hex_u64_local(""), None);
    assert_eq!(parse_hex_u64_local("rva:rva:1"), None);
    assert_eq!(parse_hex_u64_local("0xg"), None);
    assert_eq!(parse_hex_u64_local(&hex_u64(0xdead_beef)), Some(0xdead_beef));
}

#[test]
fn address_plausibility() {
    assert!(!pointer_value_looks_process_address(0xffff));
    assert!(pointer_value_looks_process_address(0x10000));
    assert!(pointer_value_looks_process_address(0x7fff_ffff_ffff));
    assert!(!pointer_value_looks_process_address(0x8000_0000_0000));
    assert_eq!(module_base_from_handle(0), None);
    assert_eq!(module_base_from_handle(0x1400_0000), Some(0x1400_0000));
    assert!(range_is_plausible(1, 1));
    assert!(!range_is_plausible(0, 4));
    assert!(!range_is_plausible(4, 0));
}

fn region(base: usize, size: usize, state: u32, protect: u32) -> Option<MemoryRegion> {
    Some(MemoryRegion { base_address: base, region_size: size, state, protect })
}

#[test]
fn region_checks() {
    assert!(region_allows_read(0x1000, 4, region(0x1000, 0x1000, 0x1000, 0x04)));
    assert!(region_allows_read(0x1ffc, 4, region(0x1000, 0x1000, 0x1000, 0x04)));
    assert!(!region_allows_read(0x1ffd, 4, region(0x1000, 0x1000, 0x1000, 0x04)));
    assert!(!region_allows_read(0x0fff, 4, region(0x1000, 0x1000, 0x1000, 0x04)));
    assert!(!region_allows_read(0x1000, 4, region(0x1000, 0x1000, 0x2000, 0x04)));
    assert!(!region_allows_read(0x1000, 4, region(0x1000, 0x1000, 0x1000, 0x01)));
    assert!(!region_allows_read(0x1000, 4, region(0x1000, 0x1000, 0x1000, 0x104)));
    assert!(!region_allows_read(0x1000, 4, None));
    assert!(!region_allows_read(0, 4, region(0, 0x1000, 0x1000, 0x04)));
    assert!(!region_allows_read(0x1000, 0, region(0x1000, 0x1000, 0x1000, 0x04)));
}

#[test]
fn hook_outcomes() {
    assert_eq!(hook_outcome_i32("h", HookOutcome::Returned(Ok(5))), (5, None));
    assert_eq!(
        hook_outcome_i32("h", HookOutcome::Returned(Err("bad".to_string()))),
        (-1, Some("bad".to_string()))
    );
    assert_eq!(
        hook_outcome_i32("h", HookOutcome::Panicked(PanicPayload::Owned("boom".to_string()))),
        (-1, Some("hook panic: h: boom".to_string()))
    );
    assert_eq!(hook_outcome_void("v", HookOutcome::Returned(Ok(()))), None);
    assert_eq!(
        hook_outcome_void("v", HookOutcome::Returned(Err("e".to_string()))),
        Some("e".to_string())
    );
    assert_eq!(
        hook_outcome_void("v", HookOutcome::Panicked(PanicPayload::Other)),
        Some("hook panic: v: non-string panic payload".to_string())
    );
    assert_eq!(panic_payload_message(&PanicPayload::StaticStr("s".to_string())), "s");
}

#[test]
fn truncates_long_reasons() {
    assert_eq!(truncate_debug_reason("short"), "short");
    let exact = "x".repeat(180);
    assert_eq!(truncate_debug_reason(&exact), exact);
    let long = "é".repeat(200);
    assert_eq!(truncate_debug_reason(&long), format!("{}...", "é".repeat(180)));
}

#[test]
fn snapshot_timing() {
    assert!(snapshot_write_due(100, 110, 10));
    assert!(!snapshot_write_due(100, 109, 10));
    assert!(!snapshot_write_due(100, 50, 10));
    assert!(snapshot_write_due(100, 50, 0));
    assert!(snapshot_write_due(0, u64::MAX, u64::MAX));
}

#[test]
fn preview_names() {
    assert!(frame_preview_wanted(2, 2, 4));
    assert!(!frame_preview_wanted(0, 2, 4));
    assert!(!frame_preview_wanted(2, 2, 0));
    assert_eq!(
        frame_preview_file_name(0xab, 2, 7, "pbo read", Some(0x10), Some(5), 123),
        "component_00000000000000ab_slot2_frame7_pbo_read_tex_0x10_123ms.bmp"
    );
    assert_eq!(
        frame_preview_file_name(u64::MAX, 0, 0, "", None, Some(0), 0),
        "component_ffffffffffffffff_slot0_frame0_none_tex_0_0ms.bmp"
    );
    assert_eq!(
        frame_preview_file_name(1, 1, 1, "gl", None, None, 9),
        "component_0000000000000001_slot1_frame1_gl_tex_none_9ms.bmp"
    );
}

#[test]
fn clocks_saturate() {
    assert_eq!(saturating_u128_to_u64(5), 5);
    assert_eq!(saturating_u128_to_u64(u128::MAX), u64::MAX);
    assert_eq!(epoch_millis_from_reading(None), 0);
    assert_eq!(epoch_millis_from_reading(Some(1 << 70)), u64::MAX);
    assert_eq!(epoch_millis_from_reading(Some(42)), 42);
    assert!(unix_time_millis() > 1_500_000_000_000);
}

#[test]
fn sha256_of_abc() {
    assert_eq!(
        sha256_hex(b"abc"),
        "ba7816bf8f01cfea414140de5dae2223b00361a396177a9cb410ff61f20015ad"
    );
    assert_eq!(
        sha256_hex(b""),
        "e3b0c44298fc1c149afbf4c8996fb92427ae41e4649b934ca495991b7852b855"
    );
}

#[test]
fn configuration_defaults() {
    assert!(default_true());
    assert_eq!(default_capture_fps(), 60);
    assert_eq!(default_min_unbound_texture_upload_width(), 16);
    assert_eq!(default_min_unbound_texture_upload_height(), 16);
    assert_eq!(default_mock_render_fps(), 60);
    let c = default_video_get_config();
    assert!(c.enabled);
    assert_eq!((c.limits.gray.max_width, c.limits.gray.max_height), (160, 90));
    assert_eq!((c.limits.rgb.max_width, c.limits.rgb.max_height), (64, 64));
    assert_eq!(c.limits.max_active_slots, 4);
    let h = HookingConfig::default();
    assert!(h.auto_install && h.fail_closed && h.require_gate_for_target_patches && !h.allow_target_patches);
    let cap = CaptureConfig::default();
    assert_eq!(cap.max_fps, 60);
    assert!(!cap.source_texture_probe_enabled);
    let m = MockRenderConfig::default();
    assert!(m.enabled && m.update_initialized_slots);
    assert_eq!(m.max_fps, 60);
}

#[test]
fn counts_frame_sources_in_order() {
    let sources = vec![
        Some("pbo".to_string()),
        None,
        Some("gl".to_string()),
        Some("pbo".to_string()),
        Some("Zed".to_string()),
        None,
        Some("none".to_string()),
    ];
    assert_eq!(
        runtime_debug_frame_source_counts(&sources),
        vec![
            ("Zed".to_string(), 1),
            ("gl".to_string(), 1),
            ("none".to_string(), 3),
            ("pbo".to_string(), 2),
        ]
    );
    assert_eq!(runtime_debug_frame_source_counts(&sources).iter().map(|p| p.1).sum::<usize>(), sources.len());
    assert_eq!(runtime_debug_frame_source_counts(&vec![]), vec![]);
    let mut expected: std::collections::BTreeMap<String, usize> = std::collections::BTreeMap::new();
    for s in ["é", "e", "ee", "", "e"] {
        *expected.entry(s.to_string()).or_insert(0) += 1;
    }
    let got = runtime_debug_frame_source_counts(&["é", "e", "ee", "", "e"].iter().map(|s| Some(s.to_string())).collect());
    assert_eq!(got, expected.into_iter().collect::<Vec<_>>());
}

#[test]
fn preview_file_names_stay_plain() {
    let name = frame_preview_file_name(7, 1, 2, "../a\\b:c", Some(0xff), None, 5);
    assert!(name.chars().all(|c| c.is_ascii_alphanumeric() || c == '-' || c == '_' || c == '.'));
    assert_eq!(name, "component_0000000000000007_slot1_frame2_.._a_b_c_tex_0xff_5ms.bmp");
}

#[test]
fn truncation_is_stable() {
    let long = "ab".repeat(150);
    let once = truncate_debug_reason(&long);
    assert_eq!(once.chars().count(), 183);
    assert_eq!(truncate_debug_reason(&once), once);
}

#[test]
fn newest_events_come_first() {
    let events: Vec<u32> = (0..40).collect();
    let newest = sw_video_lua::runtime_debug::newest_first(&events, 32);
    assert_eq!(newest.len(), 32);
    assert_eq!(newest[0], 39);
    assert_eq!(newest[31], 8);
    assert_eq!(sw_video_lua::runtime_debug::newest_first(&vec![1u8, 2, 3], 32), vec![3, 2, 1]);
    assert_eq!(sw_video_lua::runtime_debug::newest_first(&Vec::<u8>::new(), 32), Vec::<u8>::new());
}
