//! The decisions of JVM supervision: what an exit code leads to, the restart
//! throttle, the answers to control requests, filter actions and packets from
//! the JVM, the watchdog deadlines, and the splitting of JVM output into
//! lines. Processes, pipes, clocks and sockets are the caller's; it reports
//! what happened and carries out what is decided here.
use vstd::prelude::*;

use crate::config::{bool_setting, indexed_name, u64_setting, Config};
use crate::error::{owned, Error};
use crate::filter::FilterAction;
use crate::logging::{property_or, LogLevel};
use crate::protocol::{
    utf8_lossy, LOG_BASE, PING, RESTART, START_PENDING, STARTED, STOP, STOPPED, STOP_PENDING,
};
use crate::text::{
    append, append_str, chars_eq_str, chars_of, decimal, decimal_chars, is_keyword,
    parse_i32, parse_i32_spec, parse_u16, parse_u16_spec, parse_u64, parse_u64_spec,
    signed_decimal, string_of, trim, trim_chars, upper,
};

verus! {

/// Log markers kept stable for monitoring tools.
pub const STARTED_AS_SERVICE_MARKER: &'static str = "--> Wrapper Started as Service";

pub const STARTED_AS_CONSOLE_MARKER: &'static str = "--> Wrapper Started as Console";

pub const STOPPED_MARKER: &'static str = "<-- Wrapper Stopped";

/// Longest line of JVM output kept in one record.
pub const MAX_OUTPUT_LINE: usize = 65536;

/// Shortest time given to a JVM to authenticate on the control channel.
pub const MIN_HANDSHAKE_SECONDS: u64 = 5;

/// A request to the supervisor from the service manager or the console.
#[derive(Debug, Clone, PartialEq, Eq)]
pub enum Control {
    Stop,
    ConsoleInterrupt,
    ConsoleBreak,
    Pause,
    Resume,
    ThreadDump,
    HeapDump,
    User(u32),
}

/// A console event.
#[derive(Debug, Clone, Copy, PartialEq, Eq, Structural)]
pub enum ConsoleSignal {
    Interrupt,
    Break,
}

/// The control request a console event stands for.
pub fn control_for_signal(signal: ConsoleSignal) -> (r: Control)
    ensures
        r == match signal {
            ConsoleSignal::Interrupt => Control::ConsoleInterrupt,
            ConsoleSignal::Break => Control::ConsoleBreak,
        },
{
    match signal {
        ConsoleSignal::Interrupt => Control::ConsoleInterrupt,
        ConsoleSignal::Break => Control::ConsoleBreak,
    }
}

/// How one JVM invocation ended. Times are whole seconds since launch.
#[derive(Debug, Clone, Copy, PartialEq, Eq, Structural)]
pub enum RunOutcome {
    Stop(i32),
    Pause,
    Exited { elapsed_seconds: u64, exit_code: i32 },
    Restart { elapsed_seconds: u64, automatic: bool, exit_code: i32 },
}

/// What an exit code leads to (`wrapper.on_exit.<code>`).
#[derive(Debug, Clone, Copy, PartialEq, Eq, Structural)]
pub enum ExitAction {
    Shutdown,
    Restart,
    Pause,
}

/// The action configured for an exit code: `wrapper.on_exit.<code>`, else
/// `wrapper.on_exit.default`, else `SHUTDOWN`; any other word shuts down.
pub open spec fn exit_action(config: &Config, exit_code: i32) -> ExitAction {
    let specific = "wrapper.on_exit."@ + signed_decimal(exit_code as int);
    let configured = match config.property(specific) {
        Some(v) => v,
        None => property_or(config, "wrapper.on_exit.default"@, "SHUTDOWN"@),
    };
    let k = upper(trim(configured));
    if k == "RESTART"@ {
        ExitAction::Restart
    } else if k == "PAUSE"@ {
        ExitAction::Pause
    } else {
        ExitAction::Shutdown
    }
}

/// The exit action of a code: `wrapper.on_exit.<code>` decides whenever it
/// is set, whatever the default says; without it `wrapper.on_exit.default`
/// decides; with neither the wrapper shuts down. `RESTART` and `PAUSE` are
/// read whatever their case and surrounding blanks.
pub proof fn lemma_exit_action_precedence(c1: &Config, c2: &Config, exit_code: i32)
    ensures
        (c1.property(("wrapper.on_exit."@ + signed_decimal(exit_code as int))) is Some && c1.property(("wrapper.on_exit."@ + signed_decimal(exit_code as int))) == c2.property(("wrapper.on_exit."@ + signed_decimal(exit_code as int)))) ==> exit_action(c1, exit_code)
            == exit_action(c2, exit_code),
        (c1.property(("wrapper.on_exit."@ + signed_decimal(exit_code as int))) is None && c2.property(("wrapper.on_exit."@ + signed_decimal(exit_code as int))) is None && c1.property("wrapper.on_exit.default"@) == c2.property("wrapper.on_exit.default"@))
            ==> exit_action(c1, exit_code) == exit_action(c2, exit_code),
        (c1.property(("wrapper.on_exit."@ + signed_decimal(exit_code as int))) is None && c1.property("wrapper.on_exit.default"@) is None) ==> exit_action(c1, exit_code)
            == ExitAction::Shutdown,
        (c1.property(("wrapper.on_exit."@ + signed_decimal(exit_code as int))) matches Some(v) && upper(trim(v)) == "RESTART"@) ==> exit_action(c1, exit_code)
            == ExitAction::Restart,
        (c1.property(("wrapper.on_exit."@ + signed_decimal(exit_code as int))) matches Some(v) && upper(trim(v)) == "PAUSE"@) ==> exit_action(c1, exit_code)
            == ExitAction::Pause,
{
    reveal_strlit("SHUTDOWN");
    reveal_strlit("RESTART");
    reveal_strlit("PAUSE");
    let d = "SHUTDOWN"@;
    assert(d.len() == 8 && d[0] == 'S' && d.last() == 'N');
    assert(!crate::text::is_ws(d[0]) && !crate::text::is_ws(d.last()));
    assert(crate::text::trim_start(d) == d);
    assert(crate::text::trim_end(d) == d);
    assert(upper(trim(d)).len() == 8);
    assert("PAUSE"@.len() == 5 && "RESTART"@.len() == 7);
    assert("PAUSE"@ != "RESTART"@);
}

pub fn on_exit_action(config: &Config, exit_code: i32) -> (r: ExitAction)
    ensures
        r == exit_action(config, exit_code),
{
    let mut name = chars_of("wrapper.on_exit.");
    let digits = signed_text(exit_code);
    append(&mut name, &digits);
    let specific = string_of(&name);
    let configured = match config.get(specific.as_str()) {
        Some(v) => v,
        None => config.get_or("wrapper.on_exit.default", "SHUTDOWN"),
    };
    let cs = chars_of(configured);
    if is_keyword(&cs, "RESTART") {
        ExitAction::Restart
    } else if is_keyword(&cs, "PAUSE") {
        ExitAction::Pause
    } else {
        ExitAction::Shutdown
    }
}

/// Seconds to wait before the first launch: the mode-specific property,
/// else `wrapper.startup.delay`, else none.
pub open spec fn startup_delay_seconds(config: &Config, service: bool) -> u64 {
    let default = u64_setting(config.property("wrapper.startup.delay"@), 0);
    u64_setting(
        config.property(
            if service {
                "wrapper.startup.delay.service"@
            } else {
                "wrapper.startup.delay.console"@
            },
        ),
        default,
    )
}

pub fn startup_delay(config: &Config, service: bool) -> (r: u64)
    ensures
        r == startup_delay_seconds(config, service),
{
    let default = config.get_u64("wrapper.startup.delay", 0);
    let property = if service {
        "wrapper.startup.delay.service"
    } else {
        "wrapper.startup.delay.console"
    };
    config.get_u64(property, default)
}

/// Seconds a JVM is given to stop.
pub fn shutdown_timeout(config: &Config) -> (r: u64)
    ensures
        r == u64_setting(config.property("wrapper.shutdown.timeout"@), 30),
{
    config.get_u64("wrapper.shutdown.timeout", 30)
}

/// Whether the service can be paused.
pub open spec fn pausable_spec(config: &Config) -> bool {
    bool_setting(
        config.property("wrapper.pausable"@),
        bool_setting(config.property("wrapper.ntservice.pausable"@), false),
    )
}

pub fn pausable(config: &Config) -> (r: bool)
    ensures
        r == pausable_spec(config),
{
    let fallback = config.get_bool("wrapper.ntservice.pausable", false);
    config.get_bool("wrapper.pausable", fallback)
}

/// Whether pausing stops the JVM (rather than telling it to pause).
pub open spec fn pause_stops_jvm_spec(config: &Config) -> bool {
    bool_setting(
        config.property("wrapper.pausable.stop_jvm"@),
        bool_setting(config.property("wrapper.ntservice.pausable.stop_jvm"@), true),
    )
}

pub fn pausable_stops_jvm(config: &Config) -> (r: bool)
    ensures
        r == pause_stops_jvm_spec(config),
{
    let fallback = config.get_bool("wrapper.ntservice.pausable.stop_jvm", true);
    config.get_bool("wrapper.pausable.stop_jvm", fallback)
}

/// A configured port: absent, 0 (none), or a number up to 65535; anything
/// else is an error that names the property and the value.
pub open spec fn port_setting(value: Option<Seq<char>>) -> Option<Option<u16>> {
    match value {
        None => Some(None),
        Some(v) => match parse_u16_spec(trim(v)) {
            None => None,
            Some(p) => Some(
                if p != 0 {
                    Some(p)
                } else {
                    None
                },
            ),
        },
    }
}

pub fn optional_port(config: &Config, name: &str) -> (r: Result<Option<u16>, Error>)
    ensures
        match port_setting(config.property(name@)) {
            Some(p) => r == Ok::<Option<u16>, Error>(p),
            None => r matches Err(Error::Config(m)) && m@ == name@ + " is not a valid port: "@
                + config.property(name@)->0,
        },
{
    match config.get(name) {
        None => Ok(None),
        Some(value) => {
            let cs = chars_of(value);
            let t = trim_chars(&cs);
            match parse_u16(&t) {
                Some(p) => Ok(
                    if p != 0 {
                        Some(p)
                    } else {
                        None
                    },
                ),
                None => {
                    let mut m = chars_of(name);
                    append_str(&mut m, " is not a valid port: ");
                    append_str(&mut m, value);
                    Err(Error::Config(string_of(&m)))
                },
            }
        },
    }
}

/// A port with a default for absent or zero values.
pub fn port(config: &Config, name: &str, default: u16) -> (r: Result<u16, Error>)
    ensures
        match port_setting(config.property(name@)) {
            Some(Some(p)) => r == Ok::<u16, Error>(p),
            Some(None) => r == Ok::<u16, Error>(default),
            None => r matches Err(Error::Config(m)) && m@ == name@ + " is not a valid port: "@
                + config.property(name@)->0,
        },
{
    match optional_port(config, name) {
        Ok(Some(p)) => Ok(p),
        Ok(None) => Ok(default),
        Err(e) => Err(e),
    }
}

/// The text logged for a filter action: the configured message followed by
/// two spaces and the action's own text, or the action's text alone.
pub open spec fn filter_text(configured: Seq<char>, action: Seq<char>) -> Seq<char> {
    let c = trim(configured);
    if c.len() == 0 {
        action
    } else {
        c + "  "@ + action
    }
}

pub fn filter_message(configured: &str, action: &str) -> (r: String)
    ensures
        r@ == filter_text(configured@, action@),
{
    let cs = chars_of(configured);
    let c = trim_chars(&cs);
    if c.len() == 0 {
        return owned(action);
    }
    let mut out = c;
    append_str(&mut out, "  ");
    append_str(&mut out, action);
    string_of(&out)
}

/// What to do after an invocation.
#[derive(Debug, Clone, PartialEq, Eq)]
pub enum NextStep {
    /// Log the notices, then the stopped marker, and end with `exit_code`.
    Finish { exit_code: i32, notices: Vec<(LogLevel, String)> },
    /// Wait until the service is resumed or stopped.
    WaitPaused,
    /// Wait `delay_seconds` (ending if a stop arrives), then launch again.
    Relaunch { delay_seconds: u64 },
}

/// The supervisor's memory across invocations.
#[derive(Debug, Clone, Copy, PartialEq, Eq, Structural)]
pub struct RestartState {
    pub jvm_id: u32,
    pub failed_invocations: u64,
    pub resuming: bool,
}

/// The throttle's settings.
pub struct RestartSettings {
    pub disable_restarts: bool,
    pub disable_automatic_restarts: bool,
    pub successful_seconds: u64,
    pub max_failed: u64,
    pub restart_delay: u64,
    pub pausable: bool,
}

pub open spec fn restart_settings(config: &Config) -> RestartSettings {
    RestartSettings {
        disable_restarts: bool_setting(config.property("wrapper.disable_restarts"@), false),
        disable_automatic_restarts: bool_setting(
            config.property("wrapper.disable_restarts.automatic"@),
            false,
        ),
        successful_seconds: u64_setting(config.property("wrapper.successful_invocation_time"@), 300),
        max_failed: u64_setting(config.property("wrapper.max_failed_invocations"@), 5),
        restart_delay: u64_setting(config.property("wrapper.restart.delay"@), 5),
        pausable: pausable_spec(config),
    }
}

/// A JVM exit resolved through the exit actions; other outcomes as they are.
pub open spec fn resolved_outcome(config: &Config, outcome: RunOutcome, pausable: bool) -> RunOutcome {
    match outcome {
        RunOutcome::Exited { elapsed_seconds, exit_code } => match exit_action(config, exit_code) {
            ExitAction::Shutdown => RunOutcome::Stop(exit_code),
            ExitAction::Pause if pausable => RunOutcome::Pause,
            _ => RunOutcome::Restart { elapsed_seconds, automatic: true, exit_code },
        },
        other => other,
    }
}

/// The kinds of step, with the notices to log, as the contracts see them.
pub enum StepModel {
    Finish(i32, Seq<(LogLevel, Seq<char>)>),
    WaitPaused,
    Relaunch(u64),
}

pub open spec fn max_failed_floor(s: RestartSettings) -> u64 {
    if s.max_failed >= 1 {
        s.max_failed
    } else {
        1
    }
}

/// The restart throttle: a stop ends supervision; a pause waits; a restart
/// ends supervision when restarts are disabled, counts the invocation as
/// failed when it ran less than `wrapper.successful_invocation_time`
/// seconds (and resets the count otherwise), gives up after
/// `wrapper.max_failed_invocations` failed invocations in a row, and
/// otherwise launches the next JVM after `wrapper.restart.delay` seconds.
pub open spec fn restart_step(st: RestartState, s: RestartSettings, outcome: RunOutcome) -> (RestartState, StepModel) {
    match outcome {
        RunOutcome::Stop(code) => (st, StepModel::Finish(code, Seq::empty())),
        RunOutcome::Pause => (RestartState { failed_invocations: 0, ..st }, StepModel::WaitPaused),
        RunOutcome::Restart { elapsed_seconds, automatic, exit_code } => {
            let st1 = RestartState { resuming: false, ..st };
            if s.disable_restarts || (automatic && s.disable_automatic_restarts) {
                (
                    st1,
                    StepModel::Finish(
                        exit_code,
                        seq![
                            (
                                LogLevel::Status,
                                if automatic {
                                    "Automatic JVM restarts are disabled; stopping."@
                                } else {
                                    "JVM restarts are disabled; stopping."@
                                },
                            ),
                        ],
                    ),
                )
            } else {
                let failed: u64 = if elapsed_seconds >= s.successful_seconds {
                    0
                } else if st.failed_invocations == u64::MAX {
                    u64::MAX
                } else {
                    (st.failed_invocations + 1) as u64
                };
                let st2 = RestartState { failed_invocations: failed, ..st1 };
                if failed >= max_failed_floor(s) {
                    (
                        st2,
                        StepModel::Finish(
                            exit_code,
                            seq![
                                (
                                    LogLevel::Fatal,
                                    decimal(failed as nat) + " consecutive JVM launches ended within "@
                                        + decimal(s.successful_seconds as nat) + " seconds; giving up."@,
                                ),
                                (LogLevel::Fatal, "Check the application configuration and the log above."@),
                            ],
                        ),
                    )
                } else {
                    (
                        RestartState {
                            jvm_id: if st.jvm_id == u32::MAX {
                                u32::MAX
                            } else {
                                (st.jvm_id + 1) as u32
                            },
                            ..st2
                        },
                        StepModel::Relaunch(s.restart_delay),
                    )
                }
            }
        },
        RunOutcome::Exited { exit_code, .. } => (st, StepModel::Finish(exit_code, Seq::empty())),
    }
}

pub open spec fn step_model(n: NextStep) -> StepModel {
    match n {
        NextStep::Finish { exit_code, notices } => StepModel::Finish(
            exit_code,
            notices@.map_values(|e: (LogLevel, String)| (e.0, e.1@)),
        ),
        NextStep::WaitPaused => StepModel::WaitPaused,
        NextStep::Relaunch { delay_seconds } => StepModel::Relaunch(delay_seconds),
    }
}

pub fn read_restart_settings(config: &Config) -> (r: RestartSettings)
    ensures
        r == restart_settings(config),
{
    RestartSettings {
        disable_restarts: config.get_bool("wrapper.disable_restarts", false),
        disable_automatic_restarts: config.get_bool("wrapper.disable_restarts.automatic", false),
        successful_seconds: config.get_u64("wrapper.successful_invocation_time", 300),
        max_failed: config.get_u64("wrapper.max_failed_invocations", 5),
        restart_delay: config.get_u64("wrapper.restart.delay", 5),
        pausable: pausable(config),
    }
}

/// Resolves a JVM exit through `wrapper.on_exit.*`: shutdown stops, pause
/// pauses when the service is pausable, anything else restarts.
pub fn resolve_outcome(config: &Config, outcome: RunOutcome, pausable: bool) -> (r: RunOutcome)
    ensures
        r == resolved_outcome(config, outcome, pausable),
{
    match outcome {
        RunOutcome::Exited { elapsed_seconds, exit_code } => match on_exit_action(config, exit_code) {
            ExitAction::Shutdown => RunOutcome::Stop(exit_code),
            ExitAction::Pause => {
                if pausable {
                    RunOutcome::Pause
                } else {
                    RunOutcome::Restart { elapsed_seconds, automatic: true, exit_code }
                }
            },
            ExitAction::Restart => RunOutcome::Restart { elapsed_seconds, automatic: true, exit_code },
        },
        other => other,
    }
}

impl RestartState {
    /// Before the first launch.
    pub fn new() -> (r: RestartState)
        ensures
            r == (RestartState { jvm_id: 1, failed_invocations: 0, resuming: false }),
    {
        RestartState { jvm_id: 1, failed_invocations: 0, resuming: false }
    }

    /// The step after an invocation that ended with `outcome` (already
    /// resolved through the exit actions).
    pub fn after_run(&mut self, settings: &RestartSettings, outcome: RunOutcome) -> (r: NextStep)
        ensures
            (*final(self), step_model(r)) == restart_step(*old(self), *settings, outcome),
    {
        match outcome {
            RunOutcome::Stop(code) => {
                let notices: Vec<(LogLevel, String)> = Vec::new();
                assert(notices@.map_values(|e: (LogLevel, String)| (e.0, e.1@)) =~= Seq::empty());
                NextStep::Finish { exit_code: code, notices }
            },
            RunOutcome::Exited { exit_code, .. } => {
                let notices: Vec<(LogLevel, String)> = Vec::new();
                assert(notices@.map_values(|e: (LogLevel, String)| (e.0, e.1@)) =~= Seq::empty());
                NextStep::Finish { exit_code, notices }
            },
            RunOutcome::Pause => {
                self.failed_invocations = 0;
                NextStep::WaitPaused
            },
            RunOutcome::Restart { elapsed_seconds, automatic, exit_code } => {
                self.resuming = false;
                if settings.disable_restarts || (automatic && settings.disable_automatic_restarts) {
                    let text = if automatic {
                        "Automatic JVM restarts are disabled; stopping."
                    } else {
                        "JVM restarts are disabled; stopping."
                    };
                    let mut notices: Vec<(LogLevel, String)> = Vec::new();
                    notices.push((LogLevel::Status, owned(text)));
                    proof {
                        assert(notices@.map_values(|e: (LogLevel, String)| (e.0, e.1@)) =~= seq![
                            (LogLevel::Status, text@),
                        ]);
                    }
                    return NextStep::Finish { exit_code, notices };
                }
                if elapsed_seconds >= settings.successful_seconds {
                    self.failed_invocations = 0;
                } else if self.failed_invocations < u64::MAX {
                    self.failed_invocations = self.failed_invocations + 1;
                }
                let maximum = if settings.max_failed >= 1 {
                    settings.max_failed
                } else {
                    1
                };
                if self.failed_invocations >= maximum {
                    let mut first: Vec<char> = decimal_chars(self.failed_invocations);
                    append_str(&mut first, " consecutive JVM launches ended within ");
                    let secs = decimal_chars(settings.successful_seconds);
                    append(&mut first, &secs);
                    append_str(&mut first, " seconds; giving up.");
                    let mut notices: Vec<(LogLevel, String)> = Vec::new();
                    notices.push((LogLevel::Fatal, string_of(&first)));
                    notices.push(
                        (LogLevel::Fatal, owned("Check the application configuration and the log above.")),
                    );
                    proof {
                        assert(notices@.map_values(|e: (LogLevel, String)| (e.0, e.1@)) =~= seq![
                            (LogLevel::Fatal, first@),
                            (LogLevel::Fatal, "Check the application configuration and the log above."@),
                        ]);
                    }
                    return NextStep::Finish { exit_code, notices };
                }
                if self.jvm_id < u32::MAX {
                    self.jvm_id = self.jvm_id + 1;
                }
                NextStep::Relaunch { delay_seconds: settings.restart_delay }
            },
        }
    }

    /// The service was resumed after a pause: the next JVM is a new
    /// invocation that resumes the service.
    pub fn resumed(&mut self)
        ensures
            final(self).jvm_id == if old(self).jvm_id == u32::MAX {
                u32::MAX
            } else {
                (old(self).jvm_id + 1) as u32
            },
            final(self).resuming,
            final(self).failed_invocations == old(self).failed_invocations,
    {
        if self.jvm_id < u32::MAX {
            self.jvm_id = self.jvm_id + 1;
        }
        self.resuming = true;
    }
}

/// A quick restart: an automatic restart after `elapsed_seconds`.
pub open spec fn quick_restart(elapsed_seconds: u64) -> RunOutcome {
    RunOutcome::Restart { elapsed_seconds, automatic: true, exit_code: 1 }
}

/// The state after `k` restarts each shorter than the successful time,
/// starting from `st`, as long as none of them gave up.
pub open spec fn after_quick_restarts(st: RestartState, s: RestartSettings, k: nat) -> RestartState
    decreases k,
{
    if k == 0 {
        st
    } else {
        restart_step(after_quick_restarts(st, s, (k - 1) as nat), s, quick_restart(0)).0
    }
}

/// The restart throttle gives up exactly at the configured count: from a
/// fresh count, with restarts enabled and a successful time above zero,
/// each quick automatic restart before the `max(1,
/// wrapper.max_failed_invocations)`-th relaunches, and that one finishes.
pub proof fn lemma_throttle_gives_up_at_limit(st: RestartState, s: RestartSettings, k: nat)
    requires
        st.failed_invocations == 0,
        !s.disable_restarts,
        !s.disable_automatic_restarts,
        s.successful_seconds > 0,
        1 <= k <= max_failed_floor(s),
    ensures
        after_quick_restarts(st, s, (k - 1) as nat).failed_invocations == k - 1,
        k < max_failed_floor(s) ==> restart_step(
            after_quick_restarts(st, s, (k - 1) as nat),
            s,
            quick_restart(0),
        ).1 is Relaunch,
        k == max_failed_floor(s) ==> restart_step(
            after_quick_restarts(st, s, (k - 1) as nat),
            s,
            quick_restart(0),
        ).1 is Finish,
    decreases k,
{
    if k > 1 {
        lemma_throttle_gives_up_at_limit(st, s, (k - 1) as nat);
    }
}

/// A run longer than the successful time clears the failure count, so a
/// relaunch is decided unless restarts are disabled.
pub proof fn lemma_long_run_resets_count(st: RestartState, s: RestartSettings, elapsed_seconds: u64, exit_code: i32)
    requires
        !s.disable_restarts,
        !s.disable_automatic_restarts,
        elapsed_seconds >= s.successful_seconds,
    ensures
        restart_step(
            st,
            s,
            RunOutcome::Restart { elapsed_seconds, automatic: true, exit_code },
        ).0.failed_invocations == 0,
        restart_step(
            st,
            s,
            RunOutcome::Restart { elapsed_seconds, automatic: true, exit_code },
        ).1 is Relaunch,
{
}

/// A restart that the application asks for is refused only by
/// `wrapper.disable_restarts`: `wrapper.disable_restarts.automatic` has no
/// say over it, and while the failure count stays below the limit it
/// relaunches the next JVM, with the next invocation number, after
/// `wrapper.restart.delay` seconds.
pub proof fn lemma_requested_restart_relaunches(
    st: RestartState,
    s: RestartSettings,
    elapsed_seconds: u64,
    exit_code: i32,
    disable_automatic: bool,
)
    requires
        !s.disable_restarts,
        elapsed_seconds >= s.successful_seconds || st.failed_invocations + 1 < max_failed_floor(s),
    ensures
        ({
            let requested = RunOutcome::Restart { elapsed_seconds, automatic: false, exit_code };
            let other = RestartSettings { disable_automatic_restarts: disable_automatic, ..s };
            let (next, step) = restart_step(st, s, requested);
            &&& step == StepModel::Relaunch(s.restart_delay)
            &&& next.jvm_id == (if st.jvm_id < u32::MAX {
                st.jvm_id + 1
            } else {
                st.jvm_id as int
            })
            &&& !next.resuming
            &&& restart_step(st, other, requested) == restart_step(st, s, requested)
        }),
{
}

/// What a control request asks of the running JVM.
#[derive(Debug, Clone, PartialEq, Eq)]
pub enum ControlResponse {
    /// Stop the JVM and end with code 0, logging the note first if any.
    Stop { note: Option<String> },
    /// Request a thread dump, logging the note first.
    ThreadDump { message: String },
    Pause,
    Resume,
    HeapDump,
    /// Send the code to the JVM as a service control.
    Forward { code: String },
    Ignore,
}

/// The answer to a control request while a JVM runs.
pub open spec fn control_response_spec(c: Control, pausable: bool, paused_in_place: bool, r: ControlResponse) -> bool {
    match c {
        Control::Stop => r matches ControlResponse::Stop { note: None },
        Control::ConsoleInterrupt => r matches ControlResponse::Stop { note: Some(n) } && n@
            == "Console interrupt received; stopping."@,
        Control::ConsoleBreak => r matches ControlResponse::ThreadDump { message } && message@
            == "Console break received; requesting a thread dump."@,
        Control::Pause => if pausable && !paused_in_place {
            r is Pause
        } else {
            r is Ignore
        },
        Control::Resume => if paused_in_place {
            r is Resume
        } else {
            r is Ignore
        },
        Control::ThreadDump => r matches ControlResponse::ThreadDump { message } && message@
            == "Requesting a thread dump from the JVM."@,
        Control::HeapDump => r is HeapDump,
        Control::User(code) => r matches ControlResponse::Forward { code: m } && m@ == decimal(code as nat),
    }
}

pub fn control_response(control: &Control, pausable: bool, paused_in_place: bool) -> (r: ControlResponse)
    ensures
        control_response_spec(*control, pausable, paused_in_place, r),
{
    match control {
        Control::Stop => ControlResponse::Stop { note: None },
        Control::ConsoleInterrupt => ControlResponse::Stop {
            note: Some(owned("Console interrupt received; stopping.")),
        },
        Control::ConsoleBreak => ControlResponse::ThreadDump {
            message: owned("Console break received; requesting a thread dump."),
        },
        Control::Pause => {
            if pausable && !paused_in_place {
                ControlResponse::Pause
            } else {
                ControlResponse::Ignore
            }
        },
        Control::Resume => {
            if paused_in_place {
                ControlResponse::Resume
            } else {
                ControlResponse::Ignore
            }
        },
        Control::ThreadDump => ControlResponse::ThreadDump {
            message: owned("Requesting a thread dump from the JVM."),
        },
        Control::HeapDump => ControlResponse::HeapDump,
        Control::User(code) => {
            let d = decimal_chars(*code as u64);
            ControlResponse::Forward { code: string_of(&d) }
        },
    }
}

/// What a waiting supervisor does with a control request: `Some(true)` to
/// resume, `Some(false)` to stop, `None` to keep waiting.
pub fn paused_control(control: &Control) -> (r: Option<bool>)
    ensures
        r == match *control {
            Control::Resume => Some(true),
            Control::Stop | Control::ConsoleInterrupt => Some(false),
            _ => None::<bool>,
        },
{
    match control {
        Control::Resume => Some(true),
        Control::Stop | Control::ConsoleInterrupt => Some(false),
        _ => None,
    }
}

/// Whether a control request ends the wait before a restart.
pub fn stops_waiting(control: &Control) -> (r: bool)
    ensures
        r == (*control is Stop || *control is ConsoleInterrupt),
{
    match control {
        Control::Stop | Control::ConsoleInterrupt => true,
        _ => false,
    }
}

/// What a filter action asks of the running JVM.
#[derive(Debug, Clone, Copy, PartialEq, Eq, Structural)]
pub enum FilterEffect {
    LogOnly,
    ThreadDump,
    CollectGarbage,
    Restart,
    Stop,
    Pause,
    Resume,
}

/// The response to one filter action: the level and text to log and what
/// to do, or nothing.
pub open spec fn filter_effect(action: FilterAction, pausable: bool, paused_in_place: bool) -> Option<(LogLevel, Seq<char>, FilterEffect)> {
    match action {
        FilterAction::Ignore => None,
        FilterAction::Debug => Some((LogLevel::Debug, "Filter action: debug."@, FilterEffect::LogOnly)),
        FilterAction::Dump => Some(
            (LogLevel::Status, "Filter action: requesting a thread dump."@, FilterEffect::ThreadDump),
        ),
        FilterAction::Gc => Some(
            (
                LogLevel::Status,
                "Filter action: requesting garbage collection."@,
                FilterEffect::CollectGarbage,
            ),
        ),
        FilterAction::Restart => Some(
            (LogLevel::Status, "Filter action: restarting the JVM."@, FilterEffect::Restart),
        ),
        FilterAction::Shutdown => Some((LogLevel::Status, "Filter action: stopping."@, FilterEffect::Stop)),
        FilterAction::Pause => if pausable && !paused_in_place {
            Some((LogLevel::Status, "Filter action: pausing."@, FilterEffect::Pause))
        } else {
            None
        },
        FilterAction::Resume => if paused_in_place {
            Some((LogLevel::Status, "Filter action: resuming."@, FilterEffect::Resume))
        } else {
            None
        },
    }
}

pub fn filter_response(action: FilterAction, pausable: bool, paused_in_place: bool, message: &str) -> (r: Option<(LogLevel, String, FilterEffect)>)
    ensures
        match filter_effect(action, pausable, paused_in_place) {
            None => r is None,
            Some((l, t, e)) => r matches Some((rl, rt, re)) && rl == l && re == e && rt@ == filter_text(
                message@,
                t,
            ),
        },
{
    let (level, text, effect) = match action {
        FilterAction::Ignore => return None,
        FilterAction::Debug => (LogLevel::Debug, "Filter action: debug.", FilterEffect::LogOnly),
        FilterAction::Dump => (
            LogLevel::Status,
            "Filter action: requesting a thread dump.",
            FilterEffect::ThreadDump,
        ),
        FilterAction::Gc => (
            LogLevel::Status,
            "Filter action: requesting garbage collection.",
            FilterEffect::CollectGarbage,
        ),
        FilterAction::Restart => (
            LogLevel::Status,
            "Filter action: restarting the JVM.",
            FilterEffect::Restart,
        ),
        FilterAction::Shutdown => (LogLevel::Status, "Filter action: stopping.", FilterEffect::Stop),
        FilterAction::Pause => {
            if pausable && !paused_in_place {
                (LogLevel::Status, "Filter action: pausing.", FilterEffect::Pause)
            } else {
                return None;
            }
        },
        FilterAction::Resume => {
            if paused_in_place {
                (LogLevel::Status, "Filter action: resuming.", FilterEffect::Resume)
            } else {
                return None;
            }
        },
    };
    Some((level, filter_message(message, text), effect))
}

/// The reason published when a filter restarts the JVM.
pub fn filter_restart_reason(index: u32) -> (r: String)
    ensures
        r@ == indexed_name("wrapper.filter.action"@, index as nat) + "=RESTART"@,
{
    let mut out = chars_of("wrapper.filter.action.");
    let d = decimal_chars(index as u64);
    append(&mut out, &d);
    append_str(&mut out, "=RESTART");
    proof {
        reveal_strlit("wrapper.filter.action.");
        reveal_strlit("wrapper.filter.action");
        reveal_strlit(".");
        assert("wrapper.filter.action."@ =~= "wrapper.filter.action"@ + "."@);
    }
    string_of(&out)
}

/// What a packet from the JVM asks of the supervisor.
#[derive(Debug, Clone, Copy, PartialEq, Eq, Structural)]
pub enum PacketResponse {
    /// The application reported started; publish a resume when resuming.
    Started { resumed: bool },
    /// The application asked for more start-up time: a new deadline this
    /// many milliseconds from now.
    ExtendStartup { millis: u64 },
    /// The application asked for a restart.
    Restart,
    /// The application asked to stop with this exit code.
    Stop { exit_code: i32 },
    /// A log record at this level.
    Log { level: LogLevel },
    Nothing,
}

/// The answer to a packet. Every packet also counts as a sign of life.
pub open spec fn packet_response_spec(code: u8, message: Seq<u8>, startup_seconds: u64, resuming: bool) -> PacketResponse {
    if code == STARTED {
        PacketResponse::Started { resumed: resuming }
    } else if code == START_PENDING {
        if startup_seconds > 0 {
            let hint: u64 = match parse_u64_spec(trim(utf8_lossy(message))) {
                Some(v) => v,
                None => if startup_seconds * 1000 <= u64::MAX {
                    (startup_seconds * 1000) as u64
                } else {
                    u64::MAX
                },
            };
            PacketResponse::ExtendStartup {
                millis: if hint >= 1 {
                    hint
                } else {
                    1
                },
            }
        } else {
            PacketResponse::Nothing
        }
    } else if code == RESTART {
        PacketResponse::Restart
    } else if code == STOP {
        PacketResponse::Stop {
            exit_code: match parse_i32_spec(trim(utf8_lossy(message))) {
                Some(c) => c,
                None => 0,
            },
        }
    } else if LOG_BASE + 1 <= code <= LOG_BASE + 8 {
        match crate::logging::protocol_level(code) {
            Some(l) => PacketResponse::Log { level: l },
            None => PacketResponse::Nothing,
        }
    } else {
        PacketResponse::Nothing
    }
}

pub fn packet_response(code: u8, message: &[u8], startup_seconds: u64, resuming: bool) -> (r: PacketResponse)
    ensures
        r == packet_response_spec(code, message@, startup_seconds, resuming),
{
    if code == STARTED {
        PacketResponse::Started { resumed: resuming }
    } else if code == START_PENDING {
        if startup_seconds > 0 {
            let text = crate::protocol::lossy_text(message);
            let cs = chars_of(text.as_str());
            let t = trim_chars(&cs);
            let hint = match parse_u64(&t) {
                Some(v) => v,
                None => if startup_seconds <= u64::MAX / 1000 {
                    startup_seconds * 1000
                } else {
                    u64::MAX
                },
            };
            PacketResponse::ExtendStartup {
                millis: if hint >= 1 {
                    hint
                } else {
                    1
                },
            }
        } else {
            PacketResponse::Nothing
        }
    } else if code == RESTART {
        PacketResponse::Restart
    } else if code == STOP {
        let text = crate::protocol::lossy_text(message);
        let cs = chars_of(text.as_str());
        let t = trim_chars(&cs);
        PacketResponse::Stop {
            exit_code: match parse_i32(&t) {
                Some(c) => c,
                None => 0,
            },
        }
    } else if LOG_BASE + 1 <= code && code <= LOG_BASE + 8 {
        match LogLevel::from_protocol_code(code) {
            Some(l) => PacketResponse::Log { level: l },
            None => PacketResponse::Nothing,
        }
    } else {
        PacketResponse::Nothing
    }
}

/// Seconds given to a JVM to authenticate: the start-up timeout, at least
/// `MIN_HANDSHAKE_SECONDS`.
pub fn handshake_timeout(startup_seconds: u64) -> (r: u64)
    ensures
        r == if startup_seconds >= MIN_HANDSHAKE_SECONDS {
            startup_seconds
        } else {
            MIN_HANDSHAKE_SECONDS
        },
{
    if startup_seconds >= MIN_HANDSHAKE_SECONDS {
        startup_seconds
    } else {
        MIN_HANDSHAKE_SECONDS
    }
}

/// The message logged when the start-up deadline passes.
pub fn startup_timeout_message(ever_connected: bool, startup_seconds: u64) -> (r: String)
    ensures
        r@ == if ever_connected {
            "The application did not report started within "@ + decimal(startup_seconds as nat)
                + " seconds; restarting."@
        } else {
            "The JVM did not connect to the control channel within "@ + decimal(
                startup_seconds as nat,
            ) + " seconds; restarting."@
        },
{
    let mut out = if ever_connected {
        chars_of("The application did not report started within ")
    } else {
        chars_of("The JVM did not connect to the control channel within ")
    };
    let d = decimal_chars(startup_seconds);
    append(&mut out, &d);
    append_str(&mut out, " seconds; restarting.");
    string_of(&out)
}

/// The text of a ping: `ping` once started, `silent` before.
pub fn ping_message(started: bool) -> (r: &'static str)
    ensures
        r@ == if started {
            "ping"@
        } else {
            "silent"@
        },
{
    if started {
        "ping"
    } else {
        "silent"
    }
}

/// Seconds of silence allowed before a connected JVM is considered hung:
/// the ping timeout, the ping interval, and the timeout of a running heap
/// dump.
pub fn ping_allowance(ping_timeout: u64, ping_interval: u64, heap_dump_seconds: u64) -> (r: u64)
    requires
        ping_timeout + ping_interval + heap_dump_seconds <= u64::MAX,
    ensures
        r == ping_timeout + ping_interval + heap_dump_seconds,
{
    ping_timeout + ping_interval + heap_dump_seconds
}

/// Whether a silence of `seconds` and `nanos` exceeds the allowance.
pub fn silence_exceeds(seconds: u64, nanos: u32, allowed: u64) -> (r: bool)
    ensures
        r == (seconds > allowed || (seconds == allowed && nanos > 0)),
{
    seconds > allowed || (seconds == allowed && nanos > 0)
}

pub fn ping_timeout_message(allowed: u64) -> (r: String)
    ensures
        r@ == "No ping response from the JVM for "@ + decimal(allowed as nat) + " seconds; restarting."@,
{
    let mut out = chars_of("No ping response from the JVM for ");
    let d = decimal_chars(allowed);
    append(&mut out, &d);
    append_str(&mut out, " seconds; restarting.");
    string_of(&out)
}

/// What the clock shows about a running JVM at a tick.
#[derive(Debug, Clone, Copy, PartialEq, Eq, Structural)]
pub struct WatchFacts {
    /// The application has reported started.
    pub started: bool,
    /// The start-up deadline has passed.
    pub startup_expired: bool,
    /// The JVM has authenticated the control channel at least once.
    pub ever_connected: bool,
    pub startup_seconds: u64,
    /// `wrapper.ping.timeout`; 0 disables the ping check.
    pub ping_timeout: u64,
    pub ping_interval: u64,
    /// The timeout of a heap dump in progress, else 0.
    pub heap_dump_seconds: u64,
    /// Time since the last ping response.
    pub silence_seconds: u64,
    pub silence_nanos: u32,
    /// Time since the JVM was launched.
    pub elapsed_seconds: u64,
}

/// The watchdog's verdict at a tick.
#[derive(Debug, Clone, PartialEq, Eq)]
pub enum WatchVerdict {
    Healthy,
    /// The application did not start in time: log the message (an error),
    /// stop the JVM with code 1 and end the run with the outcome.
    StartupTimeout { message: String, outcome: RunOutcome },
    /// The JVM stopped answering pings: as above.
    PingTimeout { message: String, outcome: RunOutcome },
}

/// Whether the watchdog reaches the ping check, and so needs the allowance.
pub open spec fn checks_pings(f: WatchFacts) -> bool {
    !(!f.started && f.startup_expired) && f.ping_timeout > 0 && f.ever_connected
}

/// A timeout restarts the JVM automatically with exit code 1.
pub open spec fn timeout_outcome(f: WatchFacts) -> RunOutcome {
    RunOutcome::Restart { elapsed_seconds: f.elapsed_seconds, automatic: true, exit_code: 1 }
}

/// A start-up timeout comes first; then, when pings are checked, a silence
/// longer than the ping timeout, the ping interval and a running heap
/// dump's timeout together.
pub open spec fn watch_verdict(f: WatchFacts, r: WatchVerdict) -> bool {
    if !f.started && f.startup_expired {
        r matches WatchVerdict::StartupTimeout { message, outcome } && outcome == timeout_outcome(f)
            && message@ == (if f.ever_connected {
            "The application did not report started within "@ + decimal(f.startup_seconds as nat)
                + " seconds; restarting."@
        } else {
            "The JVM did not connect to the control channel within "@ + decimal(
                f.startup_seconds as nat,
            ) + " seconds; restarting."@
        })
    } else if checks_pings(f) {
        let allowed = f.ping_timeout + f.ping_interval + f.heap_dump_seconds;
        if f.silence_seconds > allowed || (f.silence_seconds == allowed && f.silence_nanos > 0) {
            r matches WatchVerdict::PingTimeout { message, outcome } && outcome == timeout_outcome(
                f,
            ) && message@ == "No ping response from the JVM for "@ + decimal(allowed as nat)
                + " seconds; restarting."@
        } else {
            r is Healthy
        }
    } else {
        r is Healthy
    }
}

pub fn watchdog(f: WatchFacts) -> (r: WatchVerdict)
    requires
        checks_pings(f) ==> f.ping_timeout + f.ping_interval + f.heap_dump_seconds <= u64::MAX,
    ensures
        watch_verdict(f, r),
{
    let outcome = RunOutcome::Restart { elapsed_seconds: f.elapsed_seconds, automatic: true, exit_code: 1 };
    if !f.started && f.startup_expired {
        return WatchVerdict::StartupTimeout {
            message: startup_timeout_message(f.ever_connected, f.startup_seconds),
            outcome,
        };
    }
    if f.ping_timeout > 0 && f.ever_connected {
        let allowed = ping_allowance(f.ping_timeout, f.ping_interval, f.heap_dump_seconds);
        if silence_exceeds(f.silence_seconds, f.silence_nanos, allowed) {
            return WatchVerdict::PingTimeout { message: ping_timeout_message(allowed), outcome };
        }
    }
    WatchVerdict::Healthy
}

/// The record of a JVM exit.
pub fn jvm_exit_message(jvm_id: u32, exit_code: Option<i32>) -> (r: String)
    ensures
        r@ == "JVM #"@ + decimal(jvm_id as nat) + " exited with code "@ + match exit_code {
            Some(c) => signed_decimal(c as int),
            None => "unknown"@,
        },
{
    let mut out = chars_of("JVM #");
    let d = decimal_chars(jvm_id as u64);
    append(&mut out, &d);
    append_str(&mut out, " exited with code ");
    match exit_code {
        Some(c) => {
            let s = signed_text(c);
            append(&mut out, &s);
        },
        None => append_str(&mut out, "unknown"),
    }
    string_of(&out)
}

/// The decimal text of a signed number.
pub fn signed_text(c: i32) -> (r: Vec<char>)
    ensures
        r@ == signed_decimal(c as int),
{
    if c < 0 {
        let mut out: Vec<char> = Vec::new();
        out.push('-');
        let magnitude: u64 = (0i64 - c as i64) as u64;
        let digits = decimal_chars(magnitude);
        append(&mut out, &digits);
        out
    } else {
        decimal_chars(c as u64)
    }
}

/// The contents of a PID or ID file: the number and a CRLF line end.
pub fn pid_file_contents(value: u32) -> (r: Vec<u8>)
    ensures
        r@ == vstd::utf8::encode_utf8(decimal(value as nat) + "\r\n"@),
{
    let mut text = decimal_chars(value as u64);
    append_str(&mut text, "\r\n");
    let s = string_of(&text);
    crate::text::bytes_of(s.as_str())
}

/// The file a PID-file property names, resolved, when it is set and not
/// blank.
pub fn pid_file_path(config: &Config, property: &str) -> (r: Option<String>)
    ensures
        match config.property(property@) {
            Some(v) if trim(v).len() > 0 => r matches Some(p) && p@ == crate::config::resolved_path(
                config.directory(),
                v,
            ),
            _ => r is None,
        },
{
    match config.get(property) {
        None => None,
        Some(value) => {
            let cs = chars_of(value);
            let t = trim_chars(&cs);
            if t.len() == 0 {
                None
            } else {
                Some(config.resolve_path(value))
            }
        },
    }
}

/// The error for a PID file that exists under `wrapper.pidfile.strict`.
pub fn strict_pid_file_error(property: &str, path: &str) -> (r: Error)
    ensures
        r matches Error::Config(m) && m@ == property@ + " already exists and wrapper.pidfile.strict is enabled: "@
            + path@,
{
    let mut out = chars_of(property);
    append_str(&mut out, " already exists and wrapper.pidfile.strict is enabled: ");
    append_str(&mut out, path);
    Error::Config(string_of(&out))
}

/// Splitting JVM output into lines: the bytes of the line in progress.
pub open spec fn line_end_trimmed(line: Seq<u8>) -> Seq<u8> {
    let l = line.drop_last();
    if l.len() > 0 && l.last() == 13u8 {
        l.drop_last()
    } else {
        l
    }
}

/// One byte of output: a newline completes the line (without `\n` and a
/// `\r` before it); a line that reaches `MAX_OUTPUT_LINE` bytes is emitted
/// as it is.
pub open spec fn split_step(pending: Seq<u8>, b: u8) -> (Seq<u8>, Option<Seq<u8>>) {
    let line = pending.push(b);
    if b == 10u8 {
        (Seq::empty(), Some(line_end_trimmed(line)))
    } else if line.len() >= MAX_OUTPUT_LINE {
        (Seq::empty(), Some(line))
    } else {
        (line, None)
    }
}

/// The lines completed by a stream of output, and the line in progress.
pub open spec fn split_lines(pending: Seq<u8>, bytes: Seq<u8>) -> (Seq<u8>, Seq<Seq<u8>>)
    decreases bytes.len(),
{
    if bytes.len() == 0 {
        (pending, Seq::empty())
    } else {
        let (p, lines) = split_lines(pending, bytes.drop_last());
        let (q, out) = split_step(p, bytes.last());
        (
            q,
            match out {
                Some(l) => lines.push(l),
                None => lines,
            },
        )
    }
}

/// Splits a JVM output stream into lines, so that a missing newline never
/// grows memory without bound.
#[derive(Debug)]
pub struct LineSplitter {
    pending: Vec<u8>,
}

impl LineSplitter {
    pub closed spec fn pending(&self) -> Seq<u8> {
        self.pending@
    }

    pub fn new() -> (r: LineSplitter)
        ensures
            r.pending().len() == 0,
    {
        LineSplitter { pending: Vec::new() }
    }

    /// The lines that `bytes` completes.
    pub fn feed(&mut self, bytes: &[u8]) -> (r: Vec<Vec<u8>>)
        ensures
            (final(self).pending(), r@.map_values(|l: Vec<u8>| l@)) == split_lines(
                old(self).pending(),
                bytes@,
            ),
    {
        let ghost start = self.pending@;
        let mut out: Vec<Vec<u8>> = Vec::new();
        let mut i: usize = 0;
        assert(bytes@.take(0) =~= Seq::<u8>::empty());
        while i < bytes.len()
            invariant
                i <= bytes.len(),
                (self.pending@, out@.map_values(|l: Vec<u8>| l@)) == split_lines(
                    start,
                    bytes@.take(i as int),
                ),
            decreases bytes.len() - i,
        {
            proof {
                assert(bytes@.take(i + 1).drop_last() =~= bytes@.take(i as int));
                assert(bytes@.take(i + 1).last() == bytes@[i as int]);
            }
            let b = bytes[i];
            let ghost before = out@;
            self.pending.push(b);
            if b == 10u8 {
                let mut line: Vec<u8> = Vec::new();
                core::mem::swap(&mut line, &mut self.pending);
                line.pop();
                if line.len() > 0 && line[line.len() - 1] == 13u8 {
                    line.pop();
                }
                out.push(line);
                proof {
                    assert(out@.map_values(|l: Vec<u8>| l@) =~= before.map_values(|l: Vec<u8>| l@).push(
                        out@.last()@,
                    ));
                }
            } else if self.pending.len() >= MAX_OUTPUT_LINE {
                let mut line: Vec<u8> = Vec::new();
                core::mem::swap(&mut line, &mut self.pending);
                out.push(line);
                proof {
                    assert(out@.map_values(|l: Vec<u8>| l@) =~= before.map_values(|l: Vec<u8>| l@).push(
                        out@.last()@,
                    ));
                }
            }
            i += 1;
        }
        assert(bytes@.take(bytes.len() as int) =~= bytes@);
        out
    }

    /// The last line of a stream that ended without a newline, if any.
    pub fn finish(self) -> (r: Option<Vec<u8>>)
        ensures
            match r {
                Some(l) => self.pending().len() > 0 && l@ == self.pending(),
                None => self.pending().len() == 0,
            },
    {
        if self.pending.len() > 0 {
            Some(self.pending)
        } else {
            None
        }
    }
}

/// Every line that output splitting produces holds at most
/// `MAX_OUTPUT_LINE` bytes, and the line in progress stays shorter.
pub proof fn lemma_lines_are_bounded(pending: Seq<u8>, bytes: Seq<u8>)
    requires
        pending.len() < MAX_OUTPUT_LINE,
    ensures
        split_lines(pending, bytes).0.len() < MAX_OUTPUT_LINE,
        forall|i: int|
            0 <= i < split_lines(pending, bytes).1.len() ==> (#[trigger] split_lines(pending, bytes).1[i]).len()
                <= MAX_OUTPUT_LINE,
    decreases bytes.len(),
{
    if bytes.len() > 0 {
        lemma_lines_are_bounded(pending, bytes.drop_last());
    }
}

} // verus!
