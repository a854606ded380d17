use java_service_steward::config::Config;
use java_service_steward::diagnostics::{method, require_attach, Method};
use java_service_steward::error::Error;
use java_service_steward::heap_dump::{
    completion, diagnostic_output, dump_directory, dump_file_name, name_timestamp, timeout, Completion,
    DumpResult,
};
use java_service_steward::loader::{LineOutcome, Loader};

fn load(text: &str) -> Config {
    let overrides: Vec<String> = Vec::new();
    let mut loader = Loader::new("/synthetic".to_string(), &[], &overrides).expect("loader");
    let lines = loader
        .enter("/synthetic/wrapper.conf", text.as_bytes())
        .expect("decode");
    for (index, line) in lines.iter().enumerate() {
        match loader
            .parse_line("/synthetic/wrapper.conf", index + 1, line, 0)
            .expect("line")
        {
            LineOutcome::Done => {}
            LineOutcome::Include { .. } => panic!("no includes here"),
        }
    }
    loader.leave();
    loader.finish("/synthetic/wrapper.conf".to_string())
}

#[test]
fn the_last_attach_option_wins() {
    require_attach(&[]).expect("attach defaults to enabled");
    let disabled = ["-XX:+DisableAttachMechanism".to_string()];
    assert!(matches!(
        require_attach(&disabled),
        Err(Error::DiagnosticUnavailable(_))
    ));
    require_attach(&[
        "-XX:+DisableAttachMechanism".to_string(),
        "-XX:-DisableAttachMechanism".to_string(),
    ])
    .expect("last option enables attach");
}

#[test]
fn auto_uses_jcmd_only_when_reduced_signal_usage_is_enabled() {
    let config = load("wrapper.java.command=java\n");
    assert_eq!(method(&config, &[]).expect("default method"), Method::ConsoleBreak);
    assert_eq!(
        method(&config, &["-Xrs".to_string()]).expect("Xrs method"),
        Method::Jcmd
    );
}

#[test]
fn configured_method_can_force_either_backend() {
    let config = load("wrapper.java.command=java\njss.threaddump.method=JCMD\n");
    assert_eq!(method(&config, &[]).expect("forced method"), Method::Jcmd);
}

#[test]
fn forced_break_rejects_xrs_with_an_actionable_capability_error() {
    let config = load("wrapper.java.command=java\njss.threaddump.method=BREAK\n");
    let error = method(&config, &["-Xrs".to_string()]).expect_err("BREAK cannot work with -Xrs");
    assert!(error.describe().contains("disables Windows CTRL_BREAK"));
    let config = load("jss.threaddump.method=signal\n");
    assert_eq!(
        method(&config, &[]).expect_err("unknown").describe(),
        "invalid configuration: jss.threaddump.method must be AUTO, BREAK, or JCMD; found SIGNAL"
    );
}

#[test]
fn heap_dump_names_directories_and_timeouts() {
    assert_eq!(
        dump_file_name("20240102-030405", 4, 123, 0),
        "heap-20240102-030405-jvm4-pid123.hprof"
    );
    assert_ne!(
        dump_file_name("20240102-030405", 4, 123, 1),
        dump_file_name("20240102-030405", 4, 123, 0)
    );
    let config = load("jss.heapdump.timeout=0\n");
    assert_eq!(timeout(&config), 1);
    assert_eq!(timeout(&load("")), 600);
    assert_eq!(dump_directory(&config, "/logs/wrapper.log"), "/logs");
    assert_eq!(dump_directory(&config, "wrapper.log"), "/synthetic");
    let config = load("jss.heapdump.directory=dumps\n");
    assert_eq!(dump_directory(&config, "/logs/wrapper.log"), "/synthetic/dumps");
}

#[test]
fn heap_dump_completions() {
    assert_eq!(
        completion("d.hprof".to_string(), DumpResult::Succeeded { size: Ok(9) }),
        Completion::Created { path: "d.hprof".to_string(), bytes: 9 }
    );
    assert_eq!(
        completion("d.hprof".to_string(), DumpResult::Succeeded { size: Ok(0) }),
        Completion::Failed {
            path: "d.hprof".to_string(),
            message: "jcmd reported success but created an empty heap dump".to_string()
        }
    );
    assert_eq!(
        completion(
            "d.hprof".to_string(),
            DumpResult::Failed { status: "exit status: 1".to_string(), stdout: b"out".to_vec(), stderr: b" line one\r\nline two \n".to_vec() }
        ),
        Completion::Failed {
            path: "d.hprof".to_string(),
            message: "jcmd exited with exit status: 1: line one  line two".to_string()
        }
    );
    assert_eq!(diagnostic_output(b"", b""), "no diagnostic output");
    assert_eq!(diagnostic_output(&vec![b'a'; 5000], b"").len(), 4096);
}

#[test]
fn heap_dump_time_stamps_are_compact_local_times() {
    let stamp = name_timestamp();
    let characters: Vec<char> = stamp.chars().collect();
    assert_eq!(characters.len(), 15);
    assert_eq!(characters[8], '-');
    for (index, character) in characters.iter().enumerate() {
        if index != 8 {
            assert!(character.is_ascii_digit(), "{stamp}");
        }
    }
    let month: u32 = stamp[4..6].parse().expect("month");
    let hour: u32 = stamp[9..11].parse().expect("hour");
    assert!((1..=12).contains(&month));
    assert!(hour <= 23);
}
