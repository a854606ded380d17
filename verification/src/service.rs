//! Windows service registration and control, as decisions over the
//! configuration: the start type, the dependencies, the account, the control
//! codes, the status reported to the service manager and the query mask.
//! Talking to the service manager is the caller's.
use vstd::prelude::*;

use crate::config::{bool_setting, u64_setting, Config};
use crate::error::{owned, Error};
use crate::logging::property_or;
use crate::supervisor::Control;
use crate::text::{
    append, append_str, chars_of, decimal, decimal_chars, is_keyword, slice, starts_with,
    string_of, trim, trim_chars, upper,
};

verus! {

/// Seconds the commands wait for the service manager at least.
pub const SCM_WAIT_SECONDS: u64 = 60;

/// Seconds added to the stop wait hint.
pub const STOP_WAIT_MARGIN_SECONDS: u64 = 10;

/// How the service starts.
#[derive(Debug, Clone, Copy, PartialEq, Eq, Structural)]
pub enum StartType {
    AutoStart,
    OnDemand,
    Disabled,
}

/// `wrapper.ntservice.starttype`: `AUTO_START` (default) or `AUTO`,
/// `DEMAND_START` or `MANUAL`, `DISABLED`; anything else is refused.
pub open spec fn start_type_of(k: Seq<char>) -> Option<StartType> {
    if k == "AUTO_START"@ || k == "AUTO"@ {
        Some(StartType::AutoStart)
    } else if k == "DEMAND_START"@ || k == "MANUAL"@ {
        Some(StartType::OnDemand)
    } else if k == "DISABLED"@ {
        Some(StartType::Disabled)
    } else {
        None
    }
}

pub fn start_type(config: &Config) -> (r: Result<StartType, Error>)
    ensures
        ({
            let k = upper(trim(property_or(config, "wrapper.ntservice.starttype"@, "AUTO_START"@)));
            match start_type_of(k) {
                Some(t) => r == Ok::<StartType, Error>(t),
                None => r matches Err(Error::Config(m)) && m@ == "unsupported wrapper.ntservice.starttype: "@
                    + k,
            }
        }),
{
    let cs = chars_of(config.get_or("wrapper.ntservice.starttype", "AUTO_START"));
    if is_keyword(&cs, "AUTO_START") || is_keyword(&cs, "AUTO") {
        Ok(StartType::AutoStart)
    } else if is_keyword(&cs, "DEMAND_START") || is_keyword(&cs, "MANUAL") {
        Ok(StartType::OnDemand)
    } else if is_keyword(&cs, "DISABLED") {
        Ok(StartType::Disabled)
    } else {
        let k = crate::text::keyword(&cs);
        let mut m = chars_of("unsupported wrapper.ntservice.starttype: ");
        append(&mut m, &k);
        Err(Error::Config(string_of(&m)))
    }
}

/// The service name, `wrapper.ntservice.name`, which must be set.
pub fn service_name(config: &Config) -> (r: Result<&str, Error>)
    ensures
        match config.property("wrapper.ntservice.name"@) {
            Some(v) if trim(v).len() > 0 => r matches Ok(s) && s@ == v,
            _ => r matches Err(Error::Config(m)) && m@ == "missing required property "@
                + "wrapper.ntservice.name"@,
        },
{
    config.required("wrapper.ntservice.name")
}

/// A service that must start before this one.
#[derive(Debug, Clone, PartialEq, Eq)]
pub enum Dependency {
    Service(String),
    /// A load-order group, written with a leading `+`.
    Group(String),
}

pub open spec fn dependency_model(d: Dependency) -> (bool, Seq<char>) {
    match d {
        Dependency::Service(s) => (false, s@),
        Dependency::Group(g) => (true, g@),
    }
}

/// The dependencies listed by `wrapper.ntservice.dependency.<n>`: trimmed,
/// blank ones skipped, `+name` for a group.
pub open spec fn dependencies_of(values: Seq<(u32, Seq<char>)>) -> Seq<(bool, Seq<char>)>
    decreases values.len(),
{
    if values.len() == 0 {
        Seq::empty()
    } else {
        let prev = dependencies_of(values.drop_last());
        let v = trim(values.last().1);
        if v.len() == 0 {
            prev
        } else if v[0] == '+' {
            prev.push((true, v.drop_first()))
        } else {
            prev.push((false, v))
        }
    }
}

pub fn service_dependencies(config: &Config) -> (r: Vec<Dependency>)
    ensures
        r@.map_values(|d: Dependency| dependency_model(d)) == dependencies_of(
            config.numbered_entries("wrapper.ntservice.dependency"@),
        ),
{
    let values = config.numbered("wrapper.ntservice.dependency");
    let ghost vs = values@.map_values(|e: (u32, String)| (e.0, e.1@));
    let mut out: Vec<Dependency> = Vec::new();
    let mut i: usize = 0;
    assert(vs.take(0) =~= Seq::<(u32, Seq<char>)>::empty());
    while i < values.len()
        invariant
            i <= values.len(),
            vs == values@.map_values(|e: (u32, String)| (e.0, e.1@)),
            out@.map_values(|d: Dependency| dependency_model(d)) == dependencies_of(vs.take(i as int)),
        decreases values.len() - i,
    {
        proof {
            assert(vs.take(i + 1).drop_last() =~= vs.take(i as int));
            assert(vs.take(i + 1).last() == vs[i as int]);
        }
        let cs = chars_of(values[i].1.as_str());
        let v = trim_chars(&cs);
        let ghost before = out@;
        if v.len() > 0 {
            if v[0] == '+' {
                let g = slice(&v, 1, v.len());
                assert(g@ =~= v@.drop_first());
                out.push(Dependency::Group(string_of(&g)));
            } else {
                out.push(Dependency::Service(string_of(&v)));
            }
            assert(out@.map_values(|d: Dependency| dependency_model(d)) =~= before.map_values(
                |d: Dependency| dependency_model(d),
            ).push(dependency_model(out@.last())));
        }
        i += 1;
    }
    assert(vs.take(values.len() as int) =~= vs);
    out
}

/// The account a service runs as, its password, and whether it interacts
/// with the desktop.
#[derive(Debug, Clone)]
pub struct Account {
    pub name: Option<String>,
    pub password: Option<String>,
    pub interactive: bool,
}

/// `wrapper.ntservice.account` when it is not blank, with
/// `wrapper.ntservice.password` only then; an interactive process only for
/// the built-in account.
pub fn service_account(config: &Config) -> (r: Account)
    ensures
        match config.property("wrapper.ntservice.account"@) {
            Some(a) if trim(a).len() > 0 => {
                &&& r.name matches Some(n) && n@ == a
                &&& match config.property("wrapper.ntservice.password"@) {
                    Some(p) => r.password matches Some(q) && q@ == p,
                    None => r.password is None,
                }
                &&& !r.interactive
            },
            _ => r.name is None && r.password is None && r.interactive == bool_setting(
                config.property("wrapper.ntservice.interactive"@),
                false,
            ),
        },
{
    let name = match config.get("wrapper.ntservice.account") {
        Some(a) => {
            let cs = chars_of(a);
            let t = trim_chars(&cs);
            if t.len() > 0 {
                Some(owned(a))
            } else {
                None
            }
        },
        None => None,
    };
    match name {
        Some(n) => {
            let password = match config.get("wrapper.ntservice.password") {
                Some(p) => Some(owned(p)),
                None => None,
            };
            Account { name: Some(n), password, interactive: false }
        },
        None => Account {
            name: None,
            password: None,
            interactive: config.get_bool("wrapper.ntservice.interactive", false),
        },
    }
}

/// The control code that requests a heap dump: `jss.heapdump.control_code`
/// (254 by default), between 128 and 255.
pub fn heap_dump_control_code(config: &Config) -> (r: Result<u32, Error>)
    ensures
        ({
            let raw = u64_setting(config.property("jss.heapdump.control_code"@), 254);
            if raw > u32::MAX {
                r matches Err(Error::Config(m)) && m@ == "jss.heapdump.control_code is outside the valid range"@
            } else if raw < 128 || raw > 255 {
                r matches Err(Error::Config(m)) && m@ == "jss.heapdump.control_code must be between 128 and 255"@
            } else {
                r == Ok::<u32, Error>(raw as u32)
            }
        }),
{
    let raw = config.get_u64("jss.heapdump.control_code", 254);
    if raw > 4294967295 {
        return Err(Error::Config(owned("jss.heapdump.control_code is outside the valid range")));
    }
    let code = raw as u32;
    if code < 128 || code > 255 {
        return Err(Error::Config(owned("jss.heapdump.control_code must be between 128 and 255")));
    }
    Ok(code)
}

/// The control code that requests a thread dump (255 by default).
pub fn thread_dump_control_code(config: &Config) -> (r: u64)
    ensures
        r == u64_setting(config.property("wrapper.thread_dump_control_code"@), 255),
{
    config.get_u64("wrapper.thread_dump_control_code", 255)
}

/// The thread-dump code as a control code to send; larger values are
/// refused.
pub fn thread_dump_code_to_send(config: &Config) -> (r: Result<u32, Error>)
    ensures
        ({
            let raw = u64_setting(config.property("wrapper.thread_dump_control_code"@), 255);
            if raw <= u32::MAX {
                r == Ok::<u32, Error>(raw as u32)
            } else {
                r matches Err(Error::Config(m)) && m@ == "wrapper.thread_dump_control_code is out of range"@
            }
        }),
{
    let raw = config.get_u64("wrapper.thread_dump_control_code", 255);
    if raw <= 4294967295 {
        Ok(raw as u32)
    } else {
        Err(Error::Config(owned("wrapper.thread_dump_control_code is out of range")))
    }
}

/// A user control code is sent only between 128 and 255.
pub fn check_user_control_code(raw: u32) -> (r: Result<u32, Error>)
    ensures
        128 <= raw <= 255 ==> r == Ok::<u32, Error>(raw),
        !(128 <= raw <= 255) ==> (r matches Err(Error::Config(m)) && m@
            == "the control code must be between 128 and 255: "@ + decimal(raw as nat)),
{
    if 128 <= raw && raw <= 255 {
        Ok(raw)
    } else {
        let mut m = chars_of("the control code must be between 128 and 255: ");
        let d = decimal_chars(raw as u64);
        append(&mut m, &d);
        Err(Error::Config(string_of(&m)))
    }
}

/// The two dump codes must differ for the service to tell them apart.
pub fn check_distinct_dump_codes(thread_dump_code: u64, heap_dump_code: u64) -> (r: Result<(), Error>)
    ensures
        thread_dump_code != heap_dump_code ==> r is Ok,
        thread_dump_code == heap_dump_code ==> (r matches Err(Error::Config(m)) && m@
            == "jss.heapdump.control_code must differ from wrapper.thread_dump_control_code"@),
{
    if thread_dump_code == heap_dump_code {
        Err(Error::Config(owned("jss.heapdump.control_code must differ from wrapper.thread_dump_control_code")))
    } else {
        Ok(())
    }
}

/// Seconds the service may need to stop: the shutdown timeout, the thread
/// dump delay when a dump is requested on a failed exit, and a margin;
/// `None` when that does not fit in 64 bits.
pub open spec fn stop_wait_hint_spec(config: &Config) -> Option<u64> {
    let base = u64_setting(config.property("wrapper.shutdown.timeout"@), 30) as int;
    let dump = if bool_setting(config.property("wrapper.request_thread_dump_on_failed_jvm_exit"@), false) {
        u64_setting(config.property("wrapper.request_thread_dump_on_failed_jvm_exit.delay"@), 5) as int
    } else {
        0
    };
    let total = base + dump + STOP_WAIT_MARGIN_SECONDS;
    if total <= u64::MAX {
        Some(total as u64)
    } else {
        None
    }
}

pub fn stop_wait_hint(config: &Config) -> (r: Option<u64>)
    ensures
        r == stop_wait_hint_spec(config),
{
    let base = config.get_u64("wrapper.shutdown.timeout", 30);
    let dump = if config.get_bool("wrapper.request_thread_dump_on_failed_jvm_exit", false) {
        config.get_u64("wrapper.request_thread_dump_on_failed_jvm_exit.delay", 5)
    } else {
        0
    };
    if base > u64::MAX - STOP_WAIT_MARGIN_SECONDS {
        return None;
    }
    let with_margin = base + STOP_WAIT_MARGIN_SECONDS;
    if dump > u64::MAX - with_margin {
        return None;
    }
    Some(with_margin + dump)
}

/// Seconds `--start` waits for the service to run: the start-up timeout, at
/// least `SCM_WAIT_SECONDS`.
pub fn start_wait(config: &Config) -> (r: u64)
    ensures
        ({
            let t = u64_setting(config.property("wrapper.startup.timeout"@), 30);
            r == if t >= SCM_WAIT_SECONDS {
                t
            } else {
                SCM_WAIT_SECONDS
            }
        }),
{
    let t = config.get_u64("wrapper.startup.timeout", 30);
    if t >= SCM_WAIT_SECONDS {
        t
    } else {
        SCM_WAIT_SECONDS
    }
}

/// Milliseconds announced while the service starts: the start-up timeout
/// (at least one second) in milliseconds, saturated.
pub fn start_pending_hint(config: &Config) -> (r: u64)
    ensures
        ({
            let t = u64_setting(config.property("wrapper.startup.timeout"@), 30);
            let s: int = if t >= 1 {
                t as int
            } else {
                1
            };
            r == if s * 1000 <= u64::MAX {
                (s * 1000) as u64
            } else {
                u64::MAX
            }
        }),
{
    let t = config.get_u64("wrapper.startup.timeout", 30);
    let s = if t >= 1 {
        t
    } else {
        1
    };
    if s <= u64::MAX / 1000 {
        s * 1000
    } else {
        u64::MAX
    }
}

/// The states a service reports.
#[derive(Debug, Clone, Copy, PartialEq, Eq, Structural)]
pub enum ServiceState {
    StartPending,
    Running,
    PausePending,
    Paused,
    ContinuePending,
    StopPending,
    Stopped,
}

/// The controls a service accepts in a state: none while starting or
/// stopped; otherwise stop and shutdown, and pause and continue when
/// pausable.
pub fn accepted_controls(state: ServiceState, pausable: bool) -> (r: (bool, bool))
    ensures
        r == if state is StartPending || state is Stopped {
            (false, false)
        } else {
            (true, pausable)
        },
{
    match state {
        ServiceState::StartPending | ServiceState::Stopped => (false, false),
        _ => (true, pausable),
    }
}

/// A request from the service manager.
#[derive(Debug, Clone, Copy, PartialEq, Eq, Structural)]
pub enum ServiceRequest {
    Stop,
    Shutdown,
    Pause,
    Continue,
    UserEvent(u32),
    Interrogate,
    Other,
}

/// The answer to a request: the control to pass to the supervisor and the
/// pending state to report first, whether the request is handled.
#[derive(Debug, Clone, PartialEq, Eq)]
pub struct RequestResponse {
    pub control: Option<Control>,
    /// A pending state and its wait hint in milliseconds.
    pub pending: Option<(ServiceState, u64)>,
    pub handled: bool,
}

pub open spec fn request_response_spec(
    request: ServiceRequest,
    pausable: bool,
    dump_code: u64,
    heap_dump_code: u64,
    stop_hint_millis: u64,
    r: RequestResponse,
) -> bool {
    match request {
        ServiceRequest::Stop | ServiceRequest::Shutdown => r.control == Some(Control::Stop) && r.pending
            == Some((ServiceState::StopPending, stop_hint_millis)) && r.handled,
        ServiceRequest::Pause => if pausable {
            r.control == Some(Control::Pause) && r.pending == Some(
                (ServiceState::PausePending, stop_hint_millis),
            ) && r.handled
        } else {
            r.control is None && r.pending is None && !r.handled
        },
        ServiceRequest::Continue => if pausable {
            r.control == Some(Control::Resume) && r.pending == Some(
                (ServiceState::ContinuePending, 30000u64),
            ) && r.handled
        } else {
            r.control is None && r.pending is None && !r.handled
        },
        ServiceRequest::UserEvent(code) => r.pending is None && r.handled && r.control == Some(
            if code as u64 == dump_code {
                Control::ThreadDump
            } else if code as u64 == heap_dump_code {
                Control::HeapDump
            } else {
                Control::User(code)
            },
        ),
        ServiceRequest::Interrogate => r.control is None && r.pending is None && r.handled,
        ServiceRequest::Other => r.control is None && r.pending is None && !r.handled,
    }
}

pub fn request_response(
    request: ServiceRequest,
    pausable: bool,
    dump_code: u64,
    heap_dump_code: u64,
    stop_hint_millis: u64,
) -> (r: RequestResponse)
    ensures
        request_response_spec(request, pausable, dump_code, heap_dump_code, stop_hint_millis, r),
{
    match request {
        ServiceRequest::Stop | ServiceRequest::Shutdown => RequestResponse {
            control: Some(Control::Stop),
            pending: Some((ServiceState::StopPending, stop_hint_millis)),
            handled: true,
        },
        ServiceRequest::Pause => {
            if pausable {
                RequestResponse {
                    control: Some(Control::Pause),
                    pending: Some((ServiceState::PausePending, stop_hint_millis)),
                    handled: true,
                }
            } else {
                RequestResponse { control: None, pending: None, handled: false }
            }
        },
        ServiceRequest::Continue => {
            if pausable {
                RequestResponse {
                    control: Some(Control::Resume),
                    pending: Some((ServiceState::ContinuePending, 30000)),
                    handled: true,
                }
            } else {
                RequestResponse { control: None, pending: None, handled: false }
            }
        },
        ServiceRequest::UserEvent(code) => {
            let control = if code as u64 == dump_code {
                Control::ThreadDump
            } else if code as u64 == heap_dump_code {
                Control::HeapDump
            } else {
                Control::User(code)
            };
            RequestResponse { control: Some(control), pending: None, handled: true }
        },
        ServiceRequest::Interrogate => RequestResponse { control: None, pending: None, handled: true },
        ServiceRequest::Other => RequestResponse { control: None, pending: None, handled: false },
    }
}

/// The status mask of `--query`: 1 installed, 2 running (not stopped),
/// 4 interactive, 8 automatic, 16 manual, 32 disabled, 64 paused.
pub open spec fn query_mask_spec(state: ServiceState, interactive: bool, start: Option<StartType>) -> int {
    1 + (if state != ServiceState::Stopped {
        2int
    } else {
        0
    }) + (if interactive {
        4int
    } else {
        0
    }) + (match start {
        Some(StartType::AutoStart) => 8int,
        Some(StartType::OnDemand) => 16,
        Some(StartType::Disabled) => 32,
        None => 0,
    }) + (if state == ServiceState::Paused {
        64int
    } else {
        0
    })
}

pub fn query_mask(state: ServiceState, interactive: bool, start: Option<StartType>) -> (r: i32)
    ensures
        r == query_mask_spec(state, interactive, start),
{
    let mut mask: i32 = 1;
    if state != ServiceState::Stopped {
        mask = mask + 2;
    }
    if state == ServiceState::Paused {
        mask = mask + 64;
    }
    if interactive {
        mask = mask + 4;
    }
    mask = mask + match start {
        Some(StartType::AutoStart) => 8,
        Some(StartType::OnDemand) => 16,
        Some(StartType::Disabled) => 32,
        None => 0,
    };
    mask
}

/// The exit code reported to the service manager: the supervisor's code when
/// it is not negative, otherwise 1.
pub fn service_exit_code(result: Option<i32>) -> (r: u32)
    ensures
        r == match result {
            Some(c) => if c >= 0 {
                c as u32
            } else {
                1u32
            },
            None => 1u32,
        },
{
    match result {
        Some(c) => if c >= 0 {
            c as u32
        } else {
            1
        },
        None => 1,
    }
}

} // verus!
