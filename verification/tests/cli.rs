use java_service_steward::cli::{help_text, installed_launch_arguments, Cli, LegacyCommand, HELP};
use java_service_steward::config::{
    supported_jss_properties, supported_numbered_wrapper_property_prefixes,
    supported_wrapper_properties,
};
use java_service_steward::{foreign_name_markers, version_text};

fn parse(arguments: &[&str]) -> Result<Cli, java_service_steward::error::Error> {
    Cli::parse(arguments.iter().map(|value| value.to_string()).collect())
}

#[test]
fn defaults_to_console_and_wrapper_conf() {
    let cli = parse(&[]).expect("valid CLI");
    assert_eq!(cli.command, LegacyCommand::Console);
    assert_eq!(cli.configuration, "wrapper.conf");
}

#[test]
fn accepts_implicit_console_configuration() {
    let cli = parse(&["conf/app.conf", "wrapper.debug=true"]).expect("valid implicit console CLI");
    assert_eq!(cli.command, LegacyCommand::Console);
    assert_eq!(cli.configuration, "conf/app.conf");
    assert_eq!(cli.overrides, ["wrapper.debug=true"]);
}

#[test]
fn preserves_service_command_and_pass_through_arguments() {
    let cli = parse(&[
        "-s",
        "wrapper.conf",
        "wrapper.debug=true",
        "--",
        "--server-config=x.xml",
        "value with spaces",
    ])
    .expect("valid service CLI");
    assert_eq!(cli.command, LegacyCommand::Service);
    assert_eq!(cli.overrides, ["wrapper.debug=true"]);
    assert_eq!(
        cli.application_args,
        ["--server-config=x.xml", "value with spaces"]
    );
}

#[test]
fn parses_control_code() {
    let cli = parse(&["-l=201"]).expect("valid control code");
    assert_eq!(cli.command, LegacyCommand::ControlCode(201));
}

#[test]
fn parses_heap_dump_extension() {
    let cli = parse(&["--heapdump", "wrapper.conf"]).expect("valid heap dump command");
    assert_eq!(cli.command, LegacyCommand::HeapDump);
    assert_eq!(cli.configuration, "wrapper.conf");
}

#[test]
fn every_help_alias_prints_without_needing_configuration() {
    for alias in ["-?", "-h", "--help"] {
        let cli = parse(&[alias]).expect("parse help alias");
        assert_eq!(cli.command, LegacyCommand::Help);
        assert!(!cli.command.needs_configuration());
    }
}

#[test]
fn help_starts_with_the_version_text_and_names_no_third_party() {
    let help = help_text();
    assert!(help.starts_with(&version_text()));
    for forbidden in foreign_name_markers().iter().chain(&["Copyright"]) {
        assert!(
            !help.contains(forbidden),
            "help must not contain {forbidden}"
        );
    }
}

#[test]
fn embedded_help_mentions_every_recognized_legacy_and_own_property() {
    for property in supported_wrapper_properties() {
        assert!(
            HELP.contains(property),
            "embedded help is missing supported property {property}"
        );
    }
    for prefix in supported_numbered_wrapper_property_prefixes() {
        assert!(
            HELP.contains(prefix),
            "embedded help is missing supported property family {prefix}<n>"
        );
    }
    for property in supported_jss_properties() {
        assert!(
            HELP.contains(property),
            "embedded help is missing own property {property}"
        );
    }
    for integration_method in ["SimpleApp", "StartStopApp", "JarApp", "ServiceListener"] {
        assert!(
            HELP.contains(integration_method),
            "embedded help is missing integration method {integration_method}"
        );
    }
}

#[test]
fn install_rewrites_only_the_command_to_hidden_service_mode() {
    let cli = parse(&[
        "-i",
        "wrapper.conf",
        "wrapper.debug=false",
        "--",
        "application-argument",
    ])
    .expect("parse install command");
    assert_eq!(
        installed_launch_arguments(&cli),
        [
            "-s",
            "wrapper.conf",
            "wrapper.debug=false",
            "--",
            "application-argument"
        ]
    );
}

#[test]
fn install_does_not_persist_the_service_password_in_image_path() {
    let cli = parse(&[
        "-i",
        "wrapper.conf",
        "wrapper.ntservice.account=synthetic-user",
        "wrapper.ntservice.password=synthetic-password",
    ])
    .expect("parse install command");
    assert_eq!(
        installed_launch_arguments(&cli),
        [
            "-s",
            "wrapper.conf",
            "wrapper.ntservice.account=synthetic-user"
        ]
    );
}

#[test]
fn unknown_commands_and_malformed_arguments_are_refused() {
    assert_eq!(
        parse(&["-x"]).expect_err("unknown").describe(),
        "invalid arguments: unknown command: -x"
    );
    assert_eq!(
        parse(&["-l=abc"]).expect_err("bad code").describe(),
        "invalid arguments: invalid control code: abc"
    );
    assert_eq!(
        parse(&["a=b"]).expect_err("missing file").describe(),
        "invalid arguments: missing configuration file"
    );
    assert_eq!(
        parse(&["-c", "wrapper.conf", "plain"]).expect_err("not an override").describe(),
        "invalid arguments: expected a name=value property, found: plain"
    );
}

#[test]
fn commands_are_case_insensitive_and_may_omit_the_file() {
    let cli = parse(&["--QUERYSILENT"]).expect("query");
    assert_eq!(cli.command, LegacyCommand::Query { silent: true });
    let cli = parse(&["-IT", "x=y"]).expect("install start");
    assert_eq!(cli.command, LegacyCommand::InstallStart);
    assert_eq!(cli.configuration, "wrapper.conf");
    assert_eq!(cli.overrides, ["x=y"]);
    let cli = parse(&["--controlcode=255"]).expect("control code");
    assert_eq!(cli.command, LegacyCommand::ControlCode(255));
}

#[test]
fn relative_configurations_resolve_from_the_executable() {
    let cli = parse(&["conf/app.conf"]).expect("cli");
    assert_eq!(cli.resolve_configuration("/opt/app"), "/opt/app/conf/app.conf");
    let cli = parse(&["/etc/app.conf"]).expect("cli");
    assert_eq!(cli.resolve_configuration("/opt/app"), "/etc/app.conf");
}

#[test]
fn install_drops_a_password_override_written_with_spaces() {
    let cli = parse(&[
        "-i",
        "wrapper.conf",
        "wrapper.ntservice.password =synthetic-password",
        " wrapper.ntservice.password=synthetic-password",
        "wrapper.ntservice.passwords=kept",
    ])
    .expect("parse install command");
    assert_eq!(
        installed_launch_arguments(&cli),
        ["-s", "wrapper.conf", "wrapper.ntservice.passwords=kept"]
    );
}
