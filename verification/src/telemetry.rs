//! Lifecycle events published for observers such as the service status
//! reporter.
use vstd::prelude::*;

use std::time::SystemTime;

verus! {

#[verifier::external_type_specification]
#[verifier::external_body]
pub struct ExSystemTime(std::time::SystemTime);

#[derive(Debug, Clone, PartialEq, Eq)]
pub enum EventKind {
    WrapperStarted,
    JvmLaunching { id: u32 },
    JvmStarted { id: u32, pid: u32 },
    JvmStopped { id: u32, exit_code: Option<i32> },
    RestartRequested { reason: String },
    FilterMatched { index: u32 },
    ProtocolAuthenticated,
    ProtocolDisconnected,
    ServicePaused,
    ServiceResumed,
    ThreadDumpStarted { jvm_id: u32, pid: u32, method: String },
    ThreadDumpCompleted { jvm_id: u32, method: String },
    HeapDumpStarted { jvm_id: u32, pid: u32, path: String },
    HeapDumpCompleted { jvm_id: u32, path: String, bytes: u64 },
    Warning { message: String },
}

/// An event and the time it was observed.
#[derive(Debug)]
pub struct Event {
    pub observed_at: SystemTime,
    pub kind: EventKind,
}

/// `SystemTime::now()`: the current wall-clock time; nothing is stated of
/// it.
#[verifier::external_body]
fn now() -> SystemTime {
    SystemTime::now()
}

impl Event {
    /// The event `kind`, observed now.
    pub fn new(kind: EventKind) -> (r: Event)
        ensures
            r.kind == kind,
    {
        Event { observed_at: now(), kind }
    }
}

} // verus!
