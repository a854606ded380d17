use java_service_steward::config::Config;
use java_service_steward::jvm::{
    bundled_launchers, class_entry_name, is_jar, jar_scan_window, jar_tail_contains,
    parse_legacy_windows_fragment, quote_for_display, redact_command_argument, resolve_main_class,
    BackendLaunch, ClasspathFacts, JvmCommand, MainClass, BRIDGE_MARKER_CLASS, BRIDGE_PACKAGE,
    MISSING_BRIDGE_MESSAGE,
};
use java_service_steward::loader::{LineOutcome, Loader};
use java_service_steward::PRODUCT_VERSION;

/// A launcher name from another product: not on the classpath, ends in the
/// name of a bundled launcher.
const FOREIGN_SIMPLE_LAUNCHER: &str = "legacy.launchers.LegacySimpleApp";
const SIMPLE_APP: &str = "io.github.jayyanez.jss.bridge.SimpleApp";

fn load(text: &str) -> Config {
    let overrides: Vec<String> = Vec::new();
    let mut loader = Loader::new("/synthetic".to_string(), &[], &overrides).expect("loader");
    let lines = loader
        .enter("/synthetic/wrapper.conf", text.as_bytes())
        .expect("decode");
    for (index, line) in lines.iter().enumerate() {
        match loader
            .parse_line("/synthetic/wrapper.conf", index + 1, line, 0)
            .expect("line")
        {
            LineOutcome::Done => {}
            LineOutcome::Include { .. } => panic!("no includes here"),
        }
    }
    loader.leave();
    loader.warn_about_unsupported_properties();
    loader.finish("/synthetic/wrapper.conf".to_string())
}

fn backend(service: bool) -> BackendLaunch {
    BackendLaunch {
        key: "synthetic-key".into(),
        port: 32_123,
        jvm_port: None,
        jvm_port_min: 31_000,
        jvm_port_max: 31_999,
        jvm_id: 1,
        service,
    }
}

fn facts(main_class_present: bool, bridge_present: bool) -> ClasspathFacts {
    ClasspathFacts {
        main_class_present,
        bridge_present,
    }
}

#[test]
fn builds_java_command_and_skips_empty_additional_values() {
    let config = load(&format!(
        "wrapper.java.command=java.exe\nwrapper.java.additional.1=-Done=1\nwrapper.java.additional.2=\nwrapper.java.additional.3=-Dthree=3\nwrapper.java.classpath.1=wrapper.jar\nwrapper.java.mainclass={FOREIGN_SIMPLE_LAUNCHER}\nwrapper.app.parameter.1=example.Main\n"
    ));
    let command = JvmCommand::build(
        &config,
        &backend(true),
        &["passthrough".to_string()],
        4242,
        facts(false, true),
        ';',
    )
    .expect("build command");
    let args = &command.arguments;
    assert!(args.contains(&"-Done=1".into()));
    assert!(args.contains(&"-Dthree=3".into()));
    assert!(!args.contains(&String::new()));
    assert!(args.contains(&format!("-Djss.version={PRODUCT_VERSION}")));
    assert!(args.contains(&"-Dwrapper.service=TRUE".into()));
    assert!(args.contains(&SIMPLE_APP.into()));
    assert!(!args.contains(&FOREIGN_SIMPLE_LAUNCHER.into()));
    assert!(!args.iter().any(|arg| arg.starts_with("-Dwrapper.version=")));
    assert!(!args
        .iter()
        .any(|arg| arg.starts_with("-Dwrapper.native_library=")));
    assert_eq!(args.last(), Some(&"passthrough".into()));
    let note = command.launch_note.expect("substitution is reported");
    assert!(note.contains(FOREIGN_SIMPLE_LAUNCHER) && note.contains(SIMPLE_APP));
}

#[test]
fn command_diagnostics_redact_sensitive_system_properties() {
    let command = JvmCommand {
        program: "java.exe".into(),
        arguments: vec![
            "-Dordinary=value".into(),
            "-Dwrapper.key=do-not-log".into(),
            "-DdatabasePassword=also-secret".into(),
            "argument with spaces".into(),
        ],
        working_directory: ".".into(),
        environment: Vec::new(),
        launch_note: None,
    };
    let rendered = command.redacted_command_line();
    assert!(rendered.contains("-Dordinary=value"));
    assert!(rendered.contains("-Dwrapper.key=<redacted>"));
    assert!(rendered.contains("-DdatabasePassword=<redacted>"));
    assert!(rendered.contains("\"argument with spaces\""));
    assert!(!rendered.contains("do-not-log"));
    assert!(!rendered.contains("also-secret"));
    assert_eq!(
        command.redacted_summary(),
        "java.exe (4 arguments; working directory .)"
    );
}

#[test]
fn absent_classes_named_like_a_launcher_map_to_the_bundled_one() {
    for launcher in bundled_launchers() {
        let foreign = format!("legacy.launchers.Legacy{launcher}");
        assert_eq!(
            resolve_main_class(&foreign, false),
            MainClass::Bundled {
                launcher,
                mapped_from: Some(foreign.clone()),
            }
        );
        let explicit = format!("{BRIDGE_PACKAGE}.{launcher}");
        let resolved = resolve_main_class(&explicit, false);
        assert_eq!(
            resolved,
            MainClass::Bundled {
                launcher,
                mapped_from: None,
            }
        );
        assert_eq!(resolved.launched(), explicit);
        assert!(resolved.requires_bridge());
    }
    let direct = resolve_main_class("example.Main", false);
    assert_eq!(direct, MainClass::Direct("example.Main".into()));
    assert!(!direct.requires_bridge());
    assert_eq!(
        resolve_main_class("SimpleApplication", false),
        MainClass::Direct("SimpleApplication".into())
    );
}

#[test]
fn a_launcher_lookalike_present_on_the_classpath_is_launched_directly() {
    assert_eq!(
        resolve_main_class("com.acme.SimpleApp", true),
        MainClass::Direct("com.acme.SimpleApp".into())
    );
}

#[test]
fn direct_main_class_is_launched_without_the_bridge() {
    let config = load("wrapper.java.command=java\nwrapper.java.mainclass=example.Main\n");
    let command = JvmCommand::build(&config, &backend(false), &[], 7, facts(false, false), ';')
        .expect("build command");
    assert_eq!(command.program, "java");
    assert!(command
        .arguments
        .iter()
        .any(|argument| argument == "example.Main"));
    assert!(command.launch_note.is_none());
}

#[test]
fn launcher_without_the_bridge_fails_before_launching_java() {
    let config = load(&format!(
        "wrapper.java.command=java.exe\nwrapper.java.classpath.1=wrapper.jar\nwrapper.java.mainclass={FOREIGN_SIMPLE_LAUNCHER}\nwrapper.app.parameter.1=example.Main\n"
    ));
    let error = JvmCommand::build(&config, &backend(false), &[], 7, facts(false, false), ';')
        .expect_err("missing bridge");
    assert_eq!(
        error.describe(),
        format!("invalid configuration: {MISSING_BRIDGE_MESSAGE}")
    );
}

#[test]
fn parses_grouping_quotes_like_the_windows_command_line() {
    assert_eq!(
        parse_legacy_windows_fragment("-Dapp.home=\"C:\\Program Files\\App\""),
        ["-Dapp.home=C:\\Program Files\\App"]
    );
    assert_eq!(
        parse_legacy_windows_fragment("unquoted spaces split"),
        ["unquoted", "spaces", "split"]
    );
    assert_eq!(parse_legacy_windows_fragment("\"\""), [""]);
    assert!(parse_legacy_windows_fragment("").is_empty());
}

#[test]
fn backslashes_before_quotes_are_halved() {
    assert_eq!(parse_legacy_windows_fragment("a\\\\\"b c\""), ["a\\b c"]);
    assert_eq!(parse_legacy_windows_fragment("a\\\"b"), ["a\"b"]);
    assert_eq!(parse_legacy_windows_fragment("c:\\dir\\ x"), ["c:\\dir\\", "x"]);
}

#[test]
fn missing_java_command_is_reported() {
    let config = load("wrapper.java.mainclass=example.Main\n");
    let error = JvmCommand::build(&config, &backend(false), &[], 7, facts(false, false), ';')
        .expect_err("no command");
    assert_eq!(
        error.describe(),
        "invalid configuration: missing required property wrapper.java.command"
    );
}

#[test]
fn memory_classpath_and_channel_arguments_are_in_order() {
    let config = load(
        "wrapper.java.command=bin/java\nwrapper.java.initmemory=64\nwrapper.java.maxmemory=32\nwrapper.java.classpath.1=a.jar\nwrapper.java.classpath.2= \nwrapper.java.classpath.3=/lib/b.jar\nwrapper.java.mainclass=example.Main\nwrapper.debug=true\nwrapper.working.dir=work\n",
    );
    let command = JvmCommand::build(&config, &backend(false), &[], 99, facts(false, false), ':')
        .expect("build");
    assert_eq!(command.program, "/synthetic/bin/java");
    assert_eq!(command.working_directory, "/synthetic/work");
    assert_eq!(
        command.arguments,
        [
            "-Xms64m",
            "-Xmx64m",
            "-classpath",
            "/synthetic/a.jar:/lib/b.jar",
            "-Dwrapper.key=synthetic-key",
            "-Dwrapper.port=32123",
            "-Dwrapper.jvm.port.min=31000",
            "-Dwrapper.jvm.port.max=31999",
            "-Dwrapper.debug=TRUE",
            "-Dwrapper.pid=99",
            "-Dwrapper.jvmid=1",
            &format!("-Djss.version={PRODUCT_VERSION}"),
            "example.Main",
        ]
    );
}

#[test]
fn display_helpers_quote_and_redact() {
    assert_eq!(quote_for_display(""), "\"\"");
    assert_eq!(quote_for_display("a \"b\""), "\"a \\\"b\\\"\"");
    assert_eq!(quote_for_display("plain"), "plain");
    assert_eq!(redact_command_argument("token=abc"), "token=<redacted>");
    assert_eq!(redact_command_argument("-Dname=abc"), "-Dname=abc");
    assert_eq!(redact_command_argument("-Xmx1g"), "-Xmx1g");
}

#[test]
fn classpath_probing_helpers() {
    assert_eq!(class_entry_name("com.acme.Main"), "com/acme/Main.class");
    assert!(is_jar("lib/app.JAR"));
    assert!(!is_jar("lib/app.zip"));
    assert_eq!(jar_scan_window(10), (0, 10));
    assert_eq!(jar_scan_window(5 * 1024 * 1024), (1024 * 1024, 4 * 1024 * 1024));
    assert!(jar_tail_contains(
        format!("synthetic {BRIDGE_MARKER_CLASS} marker").as_bytes(),
        BRIDGE_MARKER_CLASS
    ));
    assert!(!jar_tail_contains(b"not the bridge", BRIDGE_MARKER_CLASS));
}

#[test]
fn backslash_runs_are_arguments_of_their_own() {
    assert_eq!(parse_legacy_windows_fragment("\\"), ["\\"]);
    assert_eq!(parse_legacy_windows_fragment("a \\\\ b"), ["a", "\\\\", "b"]);
    assert_eq!(parse_legacy_windows_fragment("C:\\dir\\ x"), ["C:\\dir\\", "x"]);
    assert_eq!(parse_legacy_windows_fragment("\\\"a\\\" b"), ["\"a\"", "b"]);
}
