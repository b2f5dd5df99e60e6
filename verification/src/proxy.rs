//! The OpenAL proxy that loads the capture plugin: where its files live next to
//! the game executable, and when it tries to load the plugin again.

use vstd::prelude::*;
use vstd::string::*;
use crate::paths::{join_path, parent_path, spec_join_path, spec_parent_path};
use crate::text::{push_decimal, spec_decimal};

verus! {

/// The files the proxy works with, under the game directory.
#[derive(Debug, Clone, PartialEq, Eq)]
pub struct ProxyPaths {
    pub real_openal: String,
    pub video_get_dll: String,
    pub runtime_context: String,
    pub proxy_log: String,
}

/// Where the proxy finds the real OpenAL library, the plugin, its runtime context and its log.
pub fn proxy_paths(root: &str) -> (p: ProxyPaths)
    ensures
        p.real_openal@ == spec_join_path(root@, "OpenAL64_real.dll"@),
        p.video_get_dll@ == spec_join_path(spec_join_path(root@, "video_get"@), "StormworksVideoGet.dll"@),
        p.runtime_context@ == spec_join_path(spec_join_path(root@, "video_get"@), "runtime-context.json"@),
        p.proxy_log@ == spec_join_path(
            spec_join_path(spec_join_path(root@, "video_get"@), "logs"@),
            "openal_proxy.log"@,
        ),
{
    let video_get = join_path(root, "video_get");
    let logs = join_path(video_get.as_str(), "logs");
    ProxyPaths {
        real_openal: join_path(root, "OpenAL64_real.dll"),
        video_get_dll: join_path(video_get.as_str(), "StormworksVideoGet.dll"),
        runtime_context: join_path(video_get.as_str(), "runtime-context.json"),
        proxy_log: join_path(logs.as_str(), "openal_proxy.log"),
    }
}

/// The directory that holds a file.
pub fn directory_from_file_path(path: &str) -> (r: Option<String>)
    ensures
        match spec_parent_path(path@) {
            Some(d) => r matches Some(s) && s@ == d,
            None => r is None,
        },
{
    parent_path(path)
}

/// How many times the proxy tries to load the plugin.
pub open spec fn max_bootstrap_attempts() -> usize {
    3
}

/// A new load attempt starts unless one already succeeded or the attempts are used up.
pub fn bootstrap_should_start(succeeded: bool, attempts: usize) -> (r: bool)
    ensures
        r == (!succeeded && attempts < max_bootstrap_attempts()),
{
    !succeeded && attempts < 3
}

/// The proxy's bookkeeping of plugin load attempts: whether one succeeded, how many were
/// started, and whether one is running.
#[derive(PartialEq, Eq, Structural, Clone, Copy, Debug)]
pub struct BootstrapCounters {
    pub succeeded: bool,
    pub attempts: usize,
    pub in_progress: bool,
}

/// The bookkeeping when the proxy is attached: nothing tried yet.
pub open spec fn attached_counters() -> BootstrapCounters {
    BootstrapCounters { succeeded: false, attempts: 0, in_progress: false }
}

/// A call that may start an attempt: one starts, counted, when none succeeded, fewer than
/// three were started and none is running; otherwise nothing changes.
pub open spec fn spec_start_transition(c: BootstrapCounters) -> (BootstrapCounters, bool) {
    if !c.succeeded && c.attempts < max_bootstrap_attempts() && !c.in_progress {
        (BootstrapCounters { succeeded: false, attempts: (c.attempts + 1) as usize, in_progress: true }, true)
    } else {
        (c, false)
    }
}

/// The bookkeeping after a call that may start an attempt, and whether it starts one.
pub fn bootstrap_start_transition(c: BootstrapCounters) -> (r: (BootstrapCounters, bool))
    ensures
        r == spec_start_transition(c),
{
    if bootstrap_should_start(c.succeeded, c.attempts) && !c.in_progress {
        (BootstrapCounters { succeeded: false, attempts: c.attempts + 1, in_progress: true }, true)
    } else {
        (c, false)
    }
}

/// The bookkeeping once an attempt ended (or its thread could not be started): it is no
/// longer running, and it succeeded if it loaded the plugin.
pub open spec fn spec_attempt_ended(c: BootstrapCounters, loaded: bool) -> BootstrapCounters {
    BootstrapCounters { succeeded: c.succeeded || loaded, attempts: c.attempts, in_progress: false }
}

/// Records the end of an attempt.
pub fn bootstrap_attempt_ended(c: BootstrapCounters, loaded: bool) -> (r: BootstrapCounters)
    ensures
        r == spec_attempt_ended(c, loaded),
{
    BootstrapCounters { succeeded: c.succeeded || loaded, attempts: c.attempts, in_progress: false }
}

/// What happens to the bookkeeping.
pub enum BootstrapChange {
    /// A call that may start an attempt.
    Start,
    /// An attempt ended; whether it loaded the plugin.
    Ended(bool),
}

/// The bookkeeping after a sequence of changes, one after another.
pub open spec fn counters_after(c: BootstrapCounters, changes: Seq<BootstrapChange>) -> BootstrapCounters
    decreases changes.len(),
{
    if changes.len() == 0 {
        c
    } else {
        let prev = counters_after(c, changes.drop_last());
        match changes.last() {
            BootstrapChange::Start => spec_start_transition(prev).0,
            BootstrapChange::Ended(loaded) => spec_attempt_ended(prev, loaded),
        }
    }
}

/// The next step of reading a module's file name into a buffer of `capacity` units,
/// after the call reported `len` units.
#[derive(PartialEq, Eq, Structural)]
pub enum ModuleNameStep {
    /// The call failed.
    Failed,
    /// The name fits: it is the first `len` units.
    Done(usize),
    /// The buffer may have truncated the name: try again with this capacity.
    Grow(usize),
}

/// The largest capacity tried.
pub open spec fn module_name_max_capacity() -> usize {
    32768
}

/// Decides what to do after a module file name was read into `capacity` units.
pub fn module_name_step(len: u32, capacity: usize) -> (r: ModuleNameStep)
    requires
        capacity <= module_name_max_capacity(),
    ensures
        len == 0 ==> r is Failed,
        len != 0 && len + 1 < capacity ==> r == ModuleNameStep::Done(len as usize),
        len != 0 && len + 1 >= capacity && 2 * capacity > module_name_max_capacity() ==> r is Failed,
        len != 0 && len + 1 >= capacity && 2 * capacity <= module_name_max_capacity() ==> r
            == ModuleNameStep::Grow((2 * capacity) as usize),
{
    if len == 0 {
        return ModuleNameStep::Failed;
    }
    let len = len as usize;
    if len < capacity && len + 1 < capacity {
        return ModuleNameStep::Done(len);
    }
    if capacity * 2 > 32768 {
        return ModuleNameStep::Failed;
    }
    ModuleNameStep::Grow(capacity * 2)
}

/// The first line a load attempt writes to the proxy log.
pub open spec fn spec_bootstrap_start_line(attempt: nat, root: Seq<char>) -> Seq<char> {
    "bootstrap start attempt="@ + spec_decimal(attempt) + " root="@ + root
}

/// `bootstrap start attempt={attempt} root={root}`.
pub fn bootstrap_start_line(attempt: usize, root: &str) -> (r: String)
    ensures
        r@ == spec_bootstrap_start_line(attempt as nat, root@),
{
    let mut r = String::from_str("bootstrap start attempt=");
    push_decimal(&mut r, attempt as u64);
    r.append(" root=");
    r.append(root);
    r
}

/// The stages of loading the capture plugin, in order.
pub enum BootstrapStage {
    /// Is the plugin DLL there?
    CheckDll,
    /// Is the runtime context there?
    CheckContext,
    /// Load the plugin DLL.
    LoadDll,
    /// Look up the plugin's bootstrap entry point.
    ResolveEntry,
    /// Call the entry point with the runtime context path.
    CallEntry,
}

/// What the outside work of a stage reported.
pub enum BootstrapEvent {
    /// Whether the file the stage checks exists.
    FileChecked(bool),
    /// Loading the DLL failed with this last-error code.
    LoadFailed(u32),
    /// The DLL is loaded.
    Loaded,
    /// The entry point was not found; the last-error code.
    EntryMissing(u32),
    /// The entry point was found.
    EntryFound,
    /// The entry point returned this value.
    Returned(u32),
}

/// The event kinds each stage reports.
pub open spec fn event_fits(stage: BootstrapStage, event: BootstrapEvent) -> bool {
    match stage {
        BootstrapStage::CheckDll | BootstrapStage::CheckContext => event is FileChecked,
        BootstrapStage::LoadDll => event is LoadFailed || event is Loaded,
        BootstrapStage::ResolveEntry => event is EntryMissing || event is EntryFound,
        BootstrapStage::CallEntry => event is Returned,
    }
}

/// What the proxy does after a stage.
pub enum BootstrapDecision {
    /// Go on with this stage.
    Continue(BootstrapStage),
    /// Stop: whether the plugin is loaded, and the line for the proxy log.
    Stop(bool, String),
}

/// The next stage after a stage, or whether the attempt succeeded and what it logs.
pub open spec fn spec_bootstrap_step(
    stage: BootstrapStage,
    event: BootstrapEvent,
    dll: Seq<char>,
    context: Seq<char>,
) -> Result<BootstrapStage, (bool, Seq<char>)> {
    match (stage, event) {
        (BootstrapStage::CheckDll, BootstrapEvent::FileChecked(true)) => Ok(BootstrapStage::CheckContext),
        (BootstrapStage::CheckDll, _) => Err((false, "bootstrap missing dll="@ + dll)),
        (BootstrapStage::CheckContext, BootstrapEvent::FileChecked(true)) => Ok(BootstrapStage::LoadDll),
        (BootstrapStage::CheckContext, _) => Err((false, "bootstrap missing context="@ + context)),
        (BootstrapStage::LoadDll, BootstrapEvent::LoadFailed(gle)) => Err(
            (false, "bootstrap LoadLibraryW failed dll="@ + dll + " gle="@ + spec_decimal(gle as nat)),
        ),
        (BootstrapStage::LoadDll, _) => Ok(BootstrapStage::ResolveEntry),
        (BootstrapStage::ResolveEntry, BootstrapEvent::EntryMissing(gle)) => Err(
            (
                false,
                "bootstrap GetProcAddress failed symbol=stormworks_video_get_bootstrap_replace_dll gle="@
                    + spec_decimal(gle as nat),
            ),
        ),
        (BootstrapStage::ResolveEntry, _) => Ok(BootstrapStage::CallEntry),
        (BootstrapStage::CallEntry, BootstrapEvent::Returned(result)) => Err(
            (result != 0, "bootstrap returned result="@ + spec_decimal(result as nat)),
        ),
        (BootstrapStage::CallEntry, _) => Err((false, Seq::empty())),
    }
}

/// Decides how a plugin load attempt goes on after the outside work of `stage` reported
/// `event`; `dll` and `context` are the paths from `proxy_paths`.
pub fn bootstrap_step(stage: BootstrapStage, event: BootstrapEvent, dll: &str, context: &str) -> (r: BootstrapDecision)
    requires
        event_fits(stage, event),
    ensures
        match spec_bootstrap_step(stage, event, dll@, context@) {
            Ok(next) => r == BootstrapDecision::Continue(next),
            Err((ok, line)) => r matches BootstrapDecision::Stop(b, s) && b == ok && s@ == line,
        },
{
    match (stage, event) {
        (BootstrapStage::CheckDll, BootstrapEvent::FileChecked(found)) => {
            if found {
                BootstrapDecision::Continue(BootstrapStage::CheckContext)
            } else {
                let mut s = String::from_str("bootstrap missing dll=");
                s.append(dll);
                BootstrapDecision::Stop(false, s)
            }
        },
        (BootstrapStage::CheckContext, BootstrapEvent::FileChecked(found)) => {
            if found {
                BootstrapDecision::Continue(BootstrapStage::LoadDll)
            } else {
                let mut s = String::from_str("bootstrap missing context=");
                s.append(context);
                BootstrapDecision::Stop(false, s)
            }
        },
        (BootstrapStage::LoadDll, BootstrapEvent::LoadFailed(gle)) => {
            let mut s = String::from_str("bootstrap LoadLibraryW failed dll=");
            s.append(dll);
            s.append(" gle=");
            push_decimal(&mut s, gle as u64);
            BootstrapDecision::Stop(false, s)
        },
        (BootstrapStage::LoadDll, _) => BootstrapDecision::Continue(BootstrapStage::ResolveEntry),
        (BootstrapStage::ResolveEntry, BootstrapEvent::EntryMissing(gle)) => {
            let mut s = String::from_str(
                "bootstrap GetProcAddress failed symbol=stormworks_video_get_bootstrap_replace_dll gle=",
            );
            push_decimal(&mut s, gle as u64);
            BootstrapDecision::Stop(false, s)
        },
        (BootstrapStage::ResolveEntry, _) => BootstrapDecision::Continue(BootstrapStage::CallEntry),
        (BootstrapStage::CallEntry, BootstrapEvent::Returned(result)) => {
            let mut s = String::from_str("bootstrap returned result=");
            push_decimal(&mut s, result as u64);
            BootstrapDecision::Stop(result != 0, s)
        },
        (_, _) => BootstrapDecision::Stop(false, String::new()),
    }
}

} // verus!
