use sw_video_lua::paths::{join_path, parent_path, wide_null};
use sw_video_lua::proxy::{
    bootstrap_attempt_ended, bootstrap_should_start, bootstrap_start_line, bootstrap_start_transition, bootstrap_step, directory_from_file_path,
    module_name_step, proxy_paths, BootstrapCounters, BootstrapDecision, BootstrapEvent, BootstrapStage, ModuleNameStep,
};

#[test]
fn proxy_paths_are_rooted_at_stormworks_exe_directory() {
    let root = r"D:\SteamLibrary\steamapps\common\Stormworks";
    let paths = proxy_paths(root);
    assert_eq!(paths.real_openal, r"D:\SteamLibrary\steamapps\common\Stormworks\OpenAL64_real.dll");
    assert_eq!(
        paths.video_get_dll,
        r"D:\SteamLibrary\steamapps\common\Stormworks\video_get\StormworksVideoGet.dll"
    );
    assert_eq!(
        paths.runtime_context,
        r"D:\SteamLibrary\steamapps\common\Stormworks\video_get\runtime-context.json"
    );
    assert_eq!(
        paths.proxy_log,
        r"D:\SteamLibrary\steamapps\common\Stormworks\video_get\logs\openal_proxy.log"
    );
}

#[test]
fn proxy_directory_uses_proxy_dll_parent() {
    let path = r"D:\SteamLibrary\steamapps\common\Stormworks\OpenAL64.dll";
    assert_eq!(
        directory_from_file_path(path),
        Some(r"D:\SteamLibrary\steamapps\common\Stormworks".to_string())
    );
}

#[test]
fn join_path_cases() {
    assert_eq!(join_path("a", "b"), r"a\b");
    assert_eq!(join_path(r"a\", "b"), r"a\b");
    assert_eq!(join_path("a/", "b"), "a/b");
    assert_eq!(join_path("", "b"), "b");
    assert_eq!(join_path("a", "/b"), "/b");
    assert_eq!(join_path(r"D:\a", r"\b"), r"D:\b");
    assert_eq!(join_path(r"\\server\share\a", r"\b"), r"\\server\share\b");
    assert_eq!(join_path("a", r"C:\b"), r"C:\b");
    assert_eq!(join_path("a", "C:b"), "C:b");
    assert_eq!(join_path("C:", "b"), "C:b");
    assert_eq!(join_path(r"\\?\C:\x\y", r"..\z\.\w"), r"\\?\C:\x\z\w");
    assert_eq!(join_path(r"\\?\C:\x", r"\q"), r"\\?\C:\q");
    assert_eq!(join_path(r"\\?\C:\x", ""), r"\\?\C:\x\");
    assert_eq!(join_path(r"\\?\C:", "a/b"), r"\\?\C:\a\b");
}

#[test]
fn parent_path_cases() {
    assert_eq!(parent_path(""), None);
    assert_eq!(parent_path("/"), None);
    assert_eq!(parent_path("C:"), None);
    assert_eq!(parent_path(r"C:\"), None);
    assert_eq!(parent_path("C:x"), Some("C:".to_string()));
    assert_eq!(parent_path("file.txt"), Some(String::new()));
    assert_eq!(parent_path("/x"), Some("/".to_string()));
    assert_eq!(parent_path(r"D:\x"), Some(r"D:\".to_string()));
    assert_eq!(parent_path("a/b/"), Some("a".to_string()));
    assert_eq!(parent_path("a//b"), Some("a".to_string()));
    assert_eq!(parent_path("a/./b"), Some("a".to_string()));
    assert_eq!(parent_path("a/.."), Some("a".to_string()));
    assert_eq!(parent_path("."), Some(String::new()));
    assert_eq!(parent_path("./a"), Some(".".to_string()));
    assert_eq!(parent_path(r"\\server\share\x"), Some(r"\\server\share\".to_string()));
    assert_eq!(parent_path(r"\\server\share"), None);
    assert_eq!(parent_path(r"\\?\C:\a\b"), Some(r"\\?\C:\a".to_string()));
}

#[test]
fn wide_null_encodes_utf16_with_terminator() {
    assert_eq!(wide_null("ab"), vec![0x61, 0x62, 0]);
    assert_eq!(wide_null("\u{1F600}"), vec![0xD83D, 0xDE00, 0]);
    let expected: Vec<u16> = "C:\\Spiele\\ä".encode_utf16().chain(std::iter::once(0)).collect();
    assert_eq!(wide_null("C:\\Spiele\\ä"), expected);
}

#[test]
fn bootstrap_attempts_are_limited() {
    assert!(bootstrap_should_start(false, 0));
    assert!(bootstrap_should_start(false, 2));
    assert!(!bootstrap_should_start(false, 3));
    assert!(!bootstrap_should_start(true, 0));
}

#[test]
fn module_name_buffer_steps() {
    assert!(matches!(module_name_step(0, 260), ModuleNameStep::Failed));
    assert!(matches!(module_name_step(10, 260), ModuleNameStep::Done(10)));
    assert!(matches!(module_name_step(259, 260), ModuleNameStep::Grow(520)));
    assert!(matches!(module_name_step(20000, 20000), ModuleNameStep::Failed));
}

fn stop(d: BootstrapDecision) -> (bool, String) {
    match d {
        BootstrapDecision::Stop(ok, line) => (ok, line),
        BootstrapDecision::Continue(_) => panic!("expected a stop"),
    }
}

#[test]
fn bootstrap_stages_and_log_lines() {
    let dll = "R/video_get/StormworksVideoGet.dll";
    let ctx = "R/video_get/runtime-context.json";
    assert_eq!(bootstrap_start_line(2, "R"), "bootstrap start attempt=2 root=R");
    assert!(matches!(
        bootstrap_step(BootstrapStage::CheckDll, BootstrapEvent::FileChecked(true), dll, ctx),
        BootstrapDecision::Continue(BootstrapStage::CheckContext)
    ));
    assert_eq!(
        stop(bootstrap_step(BootstrapStage::CheckDll, BootstrapEvent::FileChecked(false), dll, ctx)),
        (false, format!("bootstrap missing dll={dll}"))
    );
    assert!(matches!(
        bootstrap_step(BootstrapStage::CheckContext, BootstrapEvent::FileChecked(true), dll, ctx),
        BootstrapDecision::Continue(BootstrapStage::LoadDll)
    ));
    assert_eq!(
        stop(bootstrap_step(BootstrapStage::CheckContext, BootstrapEvent::FileChecked(false), dll, ctx)),
        (false, format!("bootstrap missing context={ctx}"))
    );
    assert_eq!(
        stop(bootstrap_step(BootstrapStage::LoadDll, BootstrapEvent::LoadFailed(126), dll, ctx)),
        (false, format!("bootstrap LoadLibraryW failed dll={dll} gle=126"))
    );
    assert!(matches!(
        bootstrap_step(BootstrapStage::LoadDll, BootstrapEvent::Loaded, dll, ctx),
        BootstrapDecision::Continue(BootstrapStage::ResolveEntry)
    ));
    assert_eq!(
        stop(bootstrap_step(BootstrapStage::ResolveEntry, BootstrapEvent::EntryMissing(127), dll, ctx)),
        (
            false,
            "bootstrap GetProcAddress failed symbol=stormworks_video_get_bootstrap_replace_dll gle=127"
                .to_string()
        )
    );
    assert!(matches!(
        bootstrap_step(BootstrapStage::ResolveEntry, BootstrapEvent::EntryFound, dll, ctx),
        BootstrapDecision::Continue(BootstrapStage::CallEntry)
    ));
    assert_eq!(
        stop(bootstrap_step(BootstrapStage::CallEntry, BootstrapEvent::Returned(1), dll, ctx)),
        (true, "bootstrap returned result=1".to_string())
    );
    assert_eq!(
        stop(bootstrap_step(BootstrapStage::CallEntry, BootstrapEvent::Returned(0), dll, ctx)),
        (false, "bootstrap returned result=0".to_string())
    );
}

#[test]
fn bootstrap_attempts_stop_at_three() {
    let mut c = BootstrapCounters { succeeded: false, attempts: 0, in_progress: false };
    let mut started = 0;
    for _ in 0..10 {
        let (next, start) = bootstrap_start_transition(c);
        assert_eq!(start, !c.in_progress && c.attempts < 3 && !c.succeeded);
        c = next;
        if start {
            started += 1;
            let (again, second) = bootstrap_start_transition(c);
            assert!(!second);
            assert_eq!(again, c);
            c = bootstrap_attempt_ended(c, false);
        }
    }
    assert_eq!(started, 3);
    assert_eq!(c, BootstrapCounters { succeeded: false, attempts: 3, in_progress: false });
    let ok = bootstrap_attempt_ended(BootstrapCounters { succeeded: false, attempts: 1, in_progress: true }, true);
    assert_eq!(ok, BootstrapCounters { succeeded: true, attempts: 1, in_progress: false });
    assert!(!bootstrap_start_transition(ok).1);
}
