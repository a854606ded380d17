use java_service_steward::config::{
    ignored_wrapper_property_prefixes, supported_jss_properties, Config, WarningLevel,
};
use java_service_steward::loader::{check_depth, LineOutcome, Loader};
use java_service_steward::syntax::{
    decode_hash_comments, expand_environment, is_sensitive_name, logical_lines,
    redacted_value, remove_grouping_quotes,
};

const DIRECTORY: &str = "/synthetic";
const ROOT: &str = "/synthetic/wrapper.conf";

fn owned_all(values: &[&str]) -> Vec<String> {
    values.iter().map(|value| value.to_string()).collect()
}

/// Loads files held in memory: `files` maps canonical paths to contents.
fn load_files(files: &[(&str, &str)], variables: &[(&str, &str)], overrides: &[&str]) -> Config {
    let overrides = owned_all(overrides);
    let variables: Vec<(String, String)> = variables
        .iter()
        .map(|(name, value)| (name.to_string(), value.to_string()))
        .collect();
    let mut loader =
        Loader::new(DIRECTORY.to_string(), &variables, &overrides).expect("valid overrides");
    read_file(&mut loader, files, ROOT, 0, true).expect("load configuration");
    loader.apply_overrides(&overrides).expect("apply overrides");
    loader.warn_about_unsupported_properties();
    loader.finish(ROOT.to_string())
}

fn read_file(
    loader: &mut Loader,
    files: &[(&str, &str)],
    path: &str,
    depth: usize,
    required: bool,
) -> Result<(), java_service_steward::error::Error> {
    check_depth(depth)?;
    let resolved = loader.resolve(path);
    let Some((_, contents)) = files.iter().find(|(name, _)| *name == resolved) else {
        return loader.file_unavailable(&resolved, required, true, "not found".to_string());
    };
    loader.check_cycle(&resolved)?;
    let lines = loader.enter(&resolved, contents.as_bytes())?;
    for (index, line) in lines.iter().enumerate() {
        match loader.parse_line(&resolved, index + 1, line, depth)? {
            LineOutcome::Done => {}
            LineOutcome::Include {
                path,
                depth,
                required,
            } => read_file(loader, files, &path, depth, required)?,
        }
    }
    loader.leave();
    Ok(())
}

fn load(text: &str, overrides: &[&str]) -> Config {
    load_files(&[(ROOT, text)], &[], overrides)
}

#[test]
fn expands_case_insensitive_environment_and_preserves_unknowns() {
    let environment = vec![("JAVA_HOME".to_string(), "C:/Java".to_string())];
    assert_eq!(
        expand_environment("%java_home%/bin;%UNKNOWN%", &environment),
        "C:/Java/bin;%UNKNOWN%"
    );
}

#[test]
fn joins_continuation_lines() {
    assert_eq!(
        logical_lines("a=one\\\ntwo\nb=three"),
        ["a=onetwo", "b=three"]
    );
}

#[test]
fn strips_inline_hash_comments_and_decodes_doubled_hashes() {
    assert_eq!(decode_hash_comments("value # comment"), "value ");
    assert_eq!(decode_hash_comments("pa##ss##word"), "pa#ss#word");
    assert_eq!(decode_hash_comments("value###comment"), "value#");
}

#[test]
fn identifies_sensitive_property_names() {
    assert!(is_sensitive_name("wrapper.java.additional.password"));
    assert!(is_sensitive_name("API_TOKEN"));
    assert!(!is_sensitive_name("wrapper.logfile"));
}

#[test]
fn loads_environment_numbered_values_and_overrides() {
    let config = load(
        "set.APP_HOME=C:/Synthetic\nwrapper.java.command=%APP_HOME%/java.exe\nwrapper.java.additional.1=-Done=1\nwrapper.java.additional.2=\nwrapper.java.additional.3=-Dthree=3\n",
        &["set.APP_HOME=D:/Override", "wrapper.debug=true"],
    );
    assert_eq!(
        config.get("wrapper.java.command"),
        Some("D:/Override/java.exe")
    );
    assert_eq!(config.get("wrapper.debug"), Some("true"));
    assert_eq!(
        config.numbered("wrapper.java.additional"),
        [
            (1, "-Done=1".to_string()),
            (2, String::new()),
            (3, "-Dthree=3".to_string())
        ]
    );
}

#[test]
fn optionally_keeps_numbered_values_after_sequence_gaps() {
    let config = load(
        "wrapper.ignore_sequence_gaps=true\nwrapper.java.additional.1=-Done=1\nwrapper.java.additional.3=-Dthree=3\n",
        &[],
    );
    assert_eq!(
        config.numbered("wrapper.java.additional"),
        [(1, "-Done=1".to_string()), (3, "-Dthree=3".to_string())]
    );
    assert!(config.warnings().is_empty());
}

#[test]
fn warns_about_unknown_wrapper_properties_without_echoing_values() {
    let config = load("wrapper.future.option=synthetic-secret-value\n", &[]);
    assert_eq!(config.warnings().len(), 1);
    assert_eq!(config.warnings()[0].level, WarningLevel::Warn);
    assert!(config.warnings()[0].message.contains("wrapper.future.option"));
    assert!(!config.warnings()[0]
        .message
        .contains("synthetic-secret-value"));
}

#[test]
fn license_properties_produce_a_single_informational_notice() {
    let config = load(
        "wrapper.license.type=SYNTHETIC\nwrapper.license.id=1\nwrapper.license.key.1=abc\n",
        &[],
    );
    assert_eq!(config.warnings().len(), 1);
    assert_eq!(config.warnings()[0].level, WarningLevel::Info);
    assert!(config.warnings()[0].message.contains("wrapper.license."));
}

#[test]
fn unknown_extension_properties_warn_like_unknown_wrapper_properties() {
    let config = load("jss.heapdump.timout=5\njss.heapdump.timeout=5\n", &[]);
    assert_eq!(config.warnings().len(), 1);
    assert_eq!(config.warnings()[0].level, WarningLevel::Warn);
    assert!(config.warnings()[0].message.contains("jss.heapdump.timout"));
}

#[test]
fn protocol_properties_exclude_sensitive_names() {
    let config = load(
        "wrapper.ntservice.name=synthetic\nwrapper.ntservice.password=do-not-send\nwrapper.java.additional.1=-Dkeep=1\n",
        &[],
    );
    let encoded = config.protocol_properties();
    assert!(encoded.contains("wrapper.ntservice.name=synthetic"));
    assert!(encoded.contains("wrapper.java.additional.1=-Dkeep=1"));
    assert!(!encoded.contains("do-not-send"));
    assert!(!encoded.contains("wrapper.ntservice.password"));
}

#[test]
fn the_last_override_of_a_property_wins_over_the_file() {
    let config = load(
        "wrapper.debug=false\nwrapper.logfile=file.log\n",
        &["wrapper.debug=true", "wrapper.logfile=first.log", "wrapper.logfile=second.log"],
    );
    assert_eq!(config.get("wrapper.debug"), Some("true"));
    assert_eq!(config.get("wrapper.logfile"), Some("second.log"));
}

#[test]
fn a_variable_set_on_the_command_line_is_locked() {
    let config = load(
        "set.MODE=file\nset.default.OTHER=file-default\nwrapper.app.parameter.1=%MODE%-%OTHER%\n",
        &["set.MODE=command"],
    );
    assert_eq!(config.get("wrapper.app.parameter.1"), Some("command-file-default"));
    let environment = config.environment();
    assert!(environment.contains(&("MODE".to_string(), "command".to_string())));
}

#[test]
fn set_default_keeps_an_existing_process_variable() {
    let config = load_files(
        &[(ROOT, "set.default.JAVA_HOME=C:/Default\nwrapper.java.command=%JAVA_HOME%/bin/java\n")],
        &[("java_home", "C:/Process")],
        &[],
    );
    assert_eq!(config.get("wrapper.java.command"), Some("C:/Process/bin/java"));
}

#[test]
fn includes_are_read_in_place_and_cycles_are_refused() {
    let config = load_files(
        &[
            (ROOT, "a=1\n#include /synthetic/other.conf\nc=3\n"),
            ("/synthetic/other.conf", "a=2\nb=2\n"),
        ],
        &[],
        &[],
    );
    assert_eq!(config.get("a"), Some("2"));
    assert_eq!(config.get("b"), Some("2"));
    assert_eq!(config.get("c"), Some("3"));

    let overrides: Vec<String> = Vec::new();
    let mut loader = Loader::new(DIRECTORY.to_string(), &[], &overrides).expect("loader");
    let result = read_file(
        &mut loader,
        &[(ROOT, "#include.required /synthetic/wrapper.conf\n")],
        ROOT,
        0,
        true,
    );
    let error = result.expect_err("cycle");
    assert_eq!(
        error.describe(),
        "invalid configuration: #include cycle detected at /synthetic/wrapper.conf"
    );
}

#[test]
fn missing_optional_includes_warn_and_required_ones_fail() {
    let config = load("#include /synthetic/absent.conf\n", &[]);
    assert_eq!(config.warnings().len(), 1);
    assert_eq!(
        config.warnings()[0].message,
        "optional #include not found: /synthetic/absent.conf"
    );
    let overrides: Vec<String> = Vec::new();
    let mut loader = Loader::new(DIRECTORY.to_string(), &[], &overrides).expect("loader");
    let error = read_file(
        &mut loader,
        &[(ROOT, "#include.required /synthetic/absent.conf\n")],
        ROOT,
        0,
        true,
    )
    .expect_err("required include");
    assert_eq!(
        error.describe(),
        "could not read the configuration file /synthetic/absent.conf: not found"
    );
}

#[test]
fn include_nesting_is_limited() {
    assert!(check_depth(10).is_ok());
    assert_eq!(
        check_depth(11).expect_err("too deep").describe(),
        "invalid configuration: more than 10 nested #include levels"
    );
}

#[test]
fn lines_without_equals_warn_and_empty_names_fail() {
    let config = load("just words\n", &[]);
    assert_eq!(
        config.warnings()[0].message,
        "ignored line without '=' at /synthetic/wrapper.conf:1"
    );
    let overrides: Vec<String> = Vec::new();
    let mut loader = Loader::new(DIRECTORY.to_string(), &[], &overrides).expect("loader");
    let error = loader
        .parse_line(ROOT, 4, "  = value", 0)
        .expect_err("empty name");
    assert_eq!(
        error.describe(),
        "invalid configuration in /synthetic/wrapper.conf:4: the property name is empty"
    );
}

#[test]
fn overrides_without_equals_are_refused() {
    let overrides = owned_all(&["wrapper.debug"]);
    let error = Loader::new(DIRECTORY.to_string(), &[], &overrides).expect_err("invalid override");
    assert_eq!(
        error.describe(),
        "invalid arguments: invalid property override: wrapper.debug"
    );
}

#[test]
fn typed_readers_follow_their_defaults() {
    let config = load(
        "a.flag= Yes \nb.flag=0\nnumber= 42 \nbad=4x\nblank= \n",
        &[],
    );
    assert!(config.get_bool("a.flag", false));
    assert!(!config.get_bool("b.flag", true));
    assert!(config.get_bool("absent", true));
    assert_eq!(config.get_u64("number", 7), 42);
    assert_eq!(config.get_u64("bad", 7), 7);
    assert_eq!(config.get_or("absent", "fallback"), "fallback");
    assert!(config.required("number").is_ok());
    assert_eq!(
        config.required("blank").expect_err("blank").describe(),
        "invalid configuration: missing required property blank"
    );
}

#[test]
fn resolves_relative_paths_from_the_executable_directory() {
    let config = load("", &[]);
    assert_eq!(config.resolve_path(" \"logs/wrapper.log\" "), "/synthetic/logs/wrapper.log");
    assert_eq!(config.resolve_path("/var/log/x.log"), "/var/log/x.log");
}

#[test]
fn quotes_redaction_and_lists() {
    assert_eq!(remove_grouping_quotes("'quoted'"), "quoted");
    assert_eq!(remove_grouping_quotes("\"x"), "\"x");
    assert_eq!(redacted_value("db.secret", "value"), "<redacted>");
    assert_eq!(redacted_value("db.name", "value"), "value");
    assert_eq!(supported_jss_properties().len(), 6);
    assert_eq!(ignored_wrapper_property_prefixes(), ["wrapper.license."]);
}

#[test]
fn windows_1252_files_are_decoded_with_a_warning() {
    let overrides: Vec<String> = Vec::new();
    let mut loader = Loader::new(DIRECTORY.to_string(), &[], &overrides).expect("loader");
    let lines = loader
        .enter(ROOT, b"name=caf\xe9\n")
        .expect("decode windows-1252");
    assert_eq!(lines, ["name=caf\u{e9}"]);
    let config = loader.finish(ROOT.to_string());
    assert_eq!(
        config.warnings()[0].message,
        "/synthetic/wrapper.conf is not UTF-8; it was read as windows-1252"
    );
}
