//! How the outcome of a hook body becomes the value returned to the game and
//! the error recorded for the plugin.

use vstd::prelude::*;
use vstd::string::*;

verus! {

/// What a caught panic carried.
pub enum PanicPayload {
    /// A `&'static str` message.
    StaticStr(String),
    /// A `String` message.
    Owned(String),
    /// Anything else.
    Other,
}

/// The message of a panic payload.
pub open spec fn spec_panic_message(p: PanicPayload) -> Seq<char> {
    match p {
        PanicPayload::StaticStr(s) => s@,
        PanicPayload::Owned(s) => s@,
        PanicPayload::Other => "non-string panic payload"@,
    }
}

/// The text of a panic payload, or a placeholder for a payload that is not a string.
pub fn panic_payload_message(payload: &PanicPayload) -> (r: String)
    ensures
        r@ == spec_panic_message(*payload),
{
    match payload {
        PanicPayload::StaticStr(s) => s.clone(),
        PanicPayload::Owned(s) => s.clone(),
        PanicPayload::Other => String::from_str("non-string panic payload"),
    }
}

/// How a hook body ended.
pub enum HookOutcome<T> {
    Returned(Result<T, String>),
    Panicked(PanicPayload),
}

/// The error recorded for a hook that panicked.
pub open spec fn spec_hook_panic_error(name: Seq<char>, p: PanicPayload) -> Seq<char> {
    "hook panic: "@ + name + ": "@ + spec_panic_message(p)
}

fn hook_panic_error(name: &str, payload: &PanicPayload) -> (r: String)
    ensures
        r@ == spec_hook_panic_error(name@, *payload),
{
    let mut r = String::from_str("hook panic: ");
    r.append(name);
    r.append(": ");
    let m = panic_payload_message(payload);
    r.append(m.as_str());
    r
}

/// Settles an `i32` hook: its value when it succeeded, otherwise -1 and the error to record.
pub fn hook_outcome_i32(name: &str, outcome: HookOutcome<i32>) -> (r: (i32, Option<String>))
    ensures
        match outcome {
            HookOutcome::Returned(Ok(v)) => r.0 == v && r.1 is None,
            HookOutcome::Returned(Err(e)) => r.0 == -1 && (r.1 matches Some(m) && m@ == e@),
            HookOutcome::Panicked(p) => r.0 == -1 && (r.1 matches Some(m) && m@ == spec_hook_panic_error(name@, p)),
        },
{
    match outcome {
        HookOutcome::Returned(Ok(v)) => (v, None),
        HookOutcome::Returned(Err(e)) => (-1, Some(e)),
        HookOutcome::Panicked(p) => (-1, Some(hook_panic_error(name, &p))),
    }
}

/// Settles a hook without a value: the error to record, if any.
pub fn hook_outcome_void(name: &str, outcome: HookOutcome<()>) -> (r: Option<String>)
    ensures
        match outcome {
            HookOutcome::Returned(Ok(_)) => r is None,
            HookOutcome::Returned(Err(e)) => r matches Some(m) && m@ == e@,
            HookOutcome::Panicked(p) => r matches Some(m) && m@ == spec_hook_panic_error(name@, p),
        },
{
    match outcome {
        HookOutcome::Returned(Ok(_)) => None,
        HookOutcome::Returned(Err(e)) => Some(e),
        HookOutcome::Panicked(p) => Some(hook_panic_error(name, &p)),
    }
}

} // verus!
