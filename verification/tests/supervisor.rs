use java_service_steward::config::Config;
use java_service_steward::filter::FilterAction;
use java_service_steward::loader::{LineOutcome, Loader};
use java_service_steward::logging::LogLevel;
use java_service_steward::protocol::{LOG_BASE, RESTART, START_PENDING, STARTED, STOP};
use java_service_steward::supervisor::{
    control_for_signal, control_response, filter_message, filter_response, jvm_exit_message,
    on_exit_action, optional_port, packet_response, pid_file_contents, pid_file_path, port,
    read_restart_settings, resolve_outcome, silence_exceeds, startup_delay, ConsoleSignal,
    Control, ControlResponse, ExitAction, FilterEffect, LineSplitter, NextStep, PacketResponse,
    RestartState, RunOutcome, WatchFacts, WatchVerdict, MAX_OUTPUT_LINE, STOPPED_MARKER,
};
use java_service_steward::supervisor::watchdog;

fn load(text: &str) -> Config {
    let overrides: Vec<String> = Vec::new();
    let mut loader = Loader::new("/synthetic".to_string(), &[], &overrides).expect("loader");
    let lines = loader
        .enter("/synthetic/wrapper.conf", text.as_bytes())
        .expect("decode");
    for (index, line) in lines.iter().enumerate() {
        match loader
            .parse_line("/synthetic/wrapper.conf", index + 1, line, 0)
            .expect("line")
        {
            LineOutcome::Done => {}
            LineOutcome::Include { .. } => panic!("no includes here"),
        }
    }
    loader.leave();
    loader.warn_about_unsupported_properties();
    loader.finish("/synthetic/wrapper.conf".to_string())
}

#[test]
fn exit_actions_default_to_shutdown_and_allow_code_specific_overrides() {
    let default = load("");
    assert_eq!(on_exit_action(&default, 1), ExitAction::Shutdown);

    let configured = load(
        "wrapper.on_exit.default=RESTART\nwrapper.on_exit.0=SHUTDOWN\nwrapper.on_exit.75=PAUSE\n",
    );
    assert_eq!(on_exit_action(&configured, 1), ExitAction::Restart);
    assert_eq!(on_exit_action(&configured, 0), ExitAction::Shutdown);
    assert_eq!(on_exit_action(&configured, 75), ExitAction::Pause);
    assert!(configured.warnings().is_empty());
}

#[test]
fn negative_exit_codes_have_their_own_actions() {
    let configured = load("wrapper.on_exit.-1=restart\n");
    assert_eq!(on_exit_action(&configured, -1), ExitAction::Restart);
    assert_eq!(on_exit_action(&configured, 1), ExitAction::Shutdown);
}

#[test]
fn startup_delay_uses_the_mode_specific_override() {
    let config = load(
        "wrapper.startup.delay=7\n\
         wrapper.startup.delay.console=0\n\
         wrapper.startup.delay.service=19\n\
         wrapper.console.title.windows=Example\n\
         wrapper.request_thread_dump_on_failed_jvm_exit=TRUE\n\
         wrapper.request_thread_dump_on_failed_jvm_exit.delay=2\n\
         wrapper.java.idfile=java.id\n",
    );
    assert_eq!(startup_delay(&config, false), 0);
    assert_eq!(startup_delay(&config, true), 19);
    assert!(config.warnings().is_empty());
}

#[test]
fn long_output_lines_are_split_instead_of_growing_without_bound() {
    let payload = vec![b'x'; MAX_OUTPUT_LINE * 2 + 10];
    let mut splitter = LineSplitter::new();
    let mut lengths = Vec::new();
    for chunk in payload.chunks(64 * 1024) {
        for line in splitter.feed(chunk) {
            lengths.push(line.len());
        }
    }
    if let Some(last) = splitter.finish() {
        lengths.push(last.len());
    }
    assert_eq!(lengths, [MAX_OUTPUT_LINE, MAX_OUTPUT_LINE, 10]);
}

#[test]
fn output_lines_lose_their_line_ends_whatever_the_reads() {
    let mut splitter = LineSplitter::new();
    let mut lines = splitter.feed(b"first\r\nsec");
    lines.extend(splitter.feed(b"ond\n\nthird"));
    assert_eq!(lines, [b"first".to_vec(), b"second".to_vec(), Vec::new()]);
    assert_eq!(splitter.finish(), Some(b"third".to_vec()));
}

#[test]
fn failed_launches_use_the_restart_throttle() {
    let config = load("wrapper.restart.delay=0\nwrapper.max_failed_invocations=2\nwrapper.successful_invocation_time=300\n");
    let settings = read_restart_settings(&config);
    let mut state = RestartState::new();
    let failure = RunOutcome::Restart {
        elapsed_seconds: 0,
        automatic: true,
        exit_code: 1,
    };
    assert_eq!(state.after_run(&settings, failure), NextStep::Relaunch { delay_seconds: 0 });
    assert_eq!(state.jvm_id, 2);
    match state.after_run(&settings, failure) {
        NextStep::Finish { exit_code, notices } => {
            assert_eq!(exit_code, 1);
            assert_eq!(notices[0].0, LogLevel::Fatal);
            assert!(notices[0].1.contains("2 consecutive JVM launches ended within 300 seconds"));
        }
        other => panic!("expected to give up, got {other:?}"),
    }
    assert!(!STOPPED_MARKER.is_empty());
}

#[test]
fn a_long_run_resets_the_failure_count() {
    let config = load("wrapper.max_failed_invocations=2\nwrapper.successful_invocation_time=10\n");
    let settings = read_restart_settings(&config);
    let mut state = RestartState::new();
    let quick = RunOutcome::Restart { elapsed_seconds: 1, automatic: true, exit_code: 1 };
    let long = RunOutcome::Restart { elapsed_seconds: 10, automatic: true, exit_code: 1 };
    assert!(matches!(state.after_run(&settings, quick), NextStep::Relaunch { .. }));
    assert!(matches!(state.after_run(&settings, long), NextStep::Relaunch { .. }));
    assert_eq!(state.failed_invocations, 0);
    assert!(matches!(state.after_run(&settings, quick), NextStep::Relaunch { delay_seconds: 5 }));
}

#[test]
fn disabled_restarts_and_exit_actions() {
    let config = load("wrapper.disable_restarts.automatic=true\nwrapper.on_exit.3=PAUSE\n");
    let settings = read_restart_settings(&config);
    let mut state = RestartState::new();
    match state.after_run(&settings, RunOutcome::Restart { elapsed_seconds: 0, automatic: true, exit_code: 4 }) {
        NextStep::Finish { exit_code, notices } => {
            assert_eq!(exit_code, 4);
            assert_eq!(notices[0].1, "Automatic JVM restarts are disabled; stopping.");
        }
        other => panic!("expected to stop, got {other:?}"),
    }
    let exited = RunOutcome::Exited { elapsed_seconds: 3, exit_code: 3 };
    assert_eq!(resolve_outcome(&config, exited, true), RunOutcome::Pause);
    assert_eq!(
        resolve_outcome(&config, exited, false),
        RunOutcome::Restart { elapsed_seconds: 3, automatic: true, exit_code: 3 }
    );
    assert_eq!(
        resolve_outcome(&config, RunOutcome::Exited { elapsed_seconds: 3, exit_code: 0 }, true),
        RunOutcome::Stop(0)
    );
    assert_eq!(state.after_run(&settings, RunOutcome::Pause), NextStep::WaitPaused);
}

#[test]
fn ports_are_validated() {
    let config = load("wrapper.port=0\nwrapper.jvm.port= 31005 \nwrapper.port.min=abc\n");
    assert_eq!(optional_port(&config, "wrapper.port").expect("zero"), None);
    assert_eq!(optional_port(&config, "wrapper.jvm.port").expect("port"), Some(31005));
    assert_eq!(port(&config, "wrapper.port.max", 32_999).expect("default"), 32_999);
    assert_eq!(
        port(&config, "wrapper.port.min", 32_000).expect_err("invalid").describe(),
        "invalid configuration: wrapper.port.min is not a valid port: abc"
    );
}

#[test]
fn controls_filters_and_packets_are_answered() {
    assert_eq!(control_response(&Control::Stop, false, false), ControlResponse::Stop { note: None });
    assert_eq!(control_response(&Control::Pause, false, false), ControlResponse::Ignore);
    assert_eq!(control_response(&Control::Pause, true, false), ControlResponse::Pause);
    assert_eq!(control_response(&Control::Resume, true, true), ControlResponse::Resume);
    assert_eq!(
        control_response(&Control::User(201), false, false),
        ControlResponse::Forward { code: "201".to_string() }
    );
    assert_eq!(control_for_signal(ConsoleSignal::Break), Control::ConsoleBreak);
    assert_eq!(
        filter_response(FilterAction::Restart, false, false, " Custom "),
        Some((LogLevel::Status, "Custom  Filter action: restarting the JVM.".to_string(), FilterEffect::Restart))
    );
    assert_eq!(filter_response(FilterAction::Ignore, true, true, ""), None);
    assert_eq!(filter_response(FilterAction::Pause, true, true, ""), None);
    assert_eq!(filter_message("", "Filter action: debug."), "Filter action: debug.");
    assert_eq!(packet_response(STARTED, b"", 30, true), PacketResponse::Started { resumed: true });
    assert_eq!(packet_response(START_PENDING, b" 2500 ", 30, false), PacketResponse::ExtendStartup { millis: 2500 });
    assert_eq!(packet_response(START_PENDING, b"soon", 30, false), PacketResponse::ExtendStartup { millis: 30_000 });
    assert_eq!(packet_response(START_PENDING, b"0", 30, false), PacketResponse::ExtendStartup { millis: 1 });
    assert_eq!(packet_response(START_PENDING, b"10", 0, false), PacketResponse::Nothing);
    assert_eq!(packet_response(STOP, b"-3", 30, false), PacketResponse::Stop { exit_code: -3 });
    assert_eq!(packet_response(STOP, b"x", 30, false), PacketResponse::Stop { exit_code: 0 });
    assert_eq!(packet_response(RESTART, b"", 30, false), PacketResponse::Restart);
    assert_eq!(packet_response(LOG_BASE + 4, b"", 30, false), PacketResponse::Log { level: LogLevel::Warn });
    assert_eq!(packet_response(LOG_BASE + 9, b"", 30, false), PacketResponse::Nothing);
}

#[test]
fn watchdog_texts_and_pid_files() {
    assert_eq!(jvm_exit_message(3, Some(-2)), "JVM #3 exited with code -2");
    assert_eq!(jvm_exit_message(3, None), "JVM #3 exited with code unknown");
    assert!(silence_exceeds(35, 1, 35));
    assert!(!silence_exceeds(35, 0, 35));
    assert_eq!(pid_file_contents(12_345), b"12345\r\n");
    let config = load("wrapper.pidfile=wrapper.pid\nwrapper.java.pidfile= \n");
    assert_eq!(pid_file_path(&config, "wrapper.pidfile"), Some("/synthetic/wrapper.pid".to_string()));
    assert_eq!(pid_file_path(&config, "wrapper.java.pidfile"), None);
}

fn watch_facts() -> WatchFacts {
    WatchFacts {
        started: true,
        startup_expired: false,
        ever_connected: true,
        startup_seconds: 30,
        ping_timeout: 30,
        ping_interval: 5,
        heap_dump_seconds: 0,
        silence_seconds: 35,
        silence_nanos: 0,
        elapsed_seconds: 70,
    }
}

#[test]
fn watchdog_restarts_on_a_startup_timeout_first() {
    let restart = RunOutcome::Restart { elapsed_seconds: 70, automatic: true, exit_code: 1 };
    let facts = WatchFacts { started: false, startup_expired: true, silence_seconds: 100, ..watch_facts() };
    assert_eq!(
        watchdog(facts),
        WatchVerdict::StartupTimeout {
            message: "The application did not report started within 30 seconds; restarting.".into(),
            outcome: restart,
        }
    );
    let facts = WatchFacts { ever_connected: false, ..facts };
    assert_eq!(
        watchdog(facts),
        WatchVerdict::StartupTimeout {
            message: "The JVM did not connect to the control channel within 30 seconds; restarting."
                .into(),
            outcome: restart,
        }
    );
}

#[test]
fn watchdog_allows_the_ping_timeout_interval_and_heap_dump_time() {
    assert_eq!(watchdog(watch_facts()), WatchVerdict::Healthy);
    let late = WatchFacts { silence_nanos: 1, ..watch_facts() };
    assert_eq!(
        watchdog(late),
        WatchVerdict::PingTimeout {
            message: "No ping response from the JVM for 35 seconds; restarting.".into(),
            outcome: RunOutcome::Restart { elapsed_seconds: 70, automatic: true, exit_code: 1 },
        }
    );
    assert_eq!(watchdog(WatchFacts { heap_dump_seconds: 600, ..late }), WatchVerdict::Healthy);
    assert_eq!(watchdog(WatchFacts { ping_timeout: 0, ..late }), WatchVerdict::Healthy);
    assert_eq!(watchdog(WatchFacts { ever_connected: false, ..late }), WatchVerdict::Healthy);
}
