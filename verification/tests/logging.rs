use java_service_steward::config::Config;
use java_service_steward::filter::{parse_action_list, trigger_matches, FilterAction, Filters};
use java_service_steward::glob::{wildcard_contains, wildcard_matches_prefix};
use java_service_steward::loader::{LineOutcome, Loader};
use java_service_steward::logging::{
    highest_rolled_index, java_command_log_level, low_log_level, parse_size, render_bytes,
    rolled_path, rotation_plan, size_after_record, validated_format, LogLevel, LogSettings,
    LogSource, Stamp,
};
use java_service_steward::logging::stamp_now;

fn load(text: &str, overrides: &[&str]) -> Config {
    let overrides: Vec<String> = overrides.iter().map(|value| value.to_string()).collect();
    let mut loader = Loader::new("/synthetic".to_string(), &[], &overrides).expect("loader");
    let lines = loader
        .enter("/synthetic/wrapper.conf", text.as_bytes())
        .expect("decode");
    for (index, line) in lines.iter().enumerate() {
        match loader
            .parse_line("/synthetic/wrapper.conf", index + 1, line, 0)
            .expect("line")
        {
            LineOutcome::Done => {}
            LineOutcome::Include { .. } => panic!("no includes here"),
        }
    }
    loader.leave();
    loader.apply_overrides(&overrides).expect("overrides");
    loader.warn_about_unsupported_properties();
    loader.finish("/synthetic/wrapper.conf".to_string())
}

fn stamp() -> Stamp {
    Stamp {
        time: "2024/01/02 03:04:05".to_string(),
        millis: 7,
        uptime_seconds: 42,
    }
}

#[test]
fn parses_legacy_sizes() {
    assert_eq!(parse_size("50m"), Some(50 * 1024 * 1024));
    assert_eq!(parse_size("2 GB"), Some(2 * 1024 * 1024 * 1024));
    assert_eq!(parse_size("invalid"), None);
}

#[test]
fn size_edge_cases() {
    assert_eq!(parse_size(" 10 "), Some(10));
    assert_eq!(parse_size("3kb"), Some(3072));
    assert_eq!(parse_size("1b"), Some(1));
    assert_eq!(parse_size("5x"), None);
    assert_eq!(parse_size(""), None);
    assert_eq!(parse_size("18446744073709551615g"), None);
}

#[test]
fn detects_configured_restart_filter() {
    let config = load(
        "wrapper.filter.trigger.1=FATAL SYNTHETIC\nwrapper.filter.action.1=RESTART\n",
        &[],
    );
    let matches = Filters::from_config(&config).inspect("prefix FATAL SYNTHETIC suffix");
    assert_eq!(matches.len(), 1);
    assert_eq!(matches[0].index, 1);
    assert_eq!(matches[0].actions, [FilterAction::Restart]);
}

#[test]
fn filter_supports_wildcards_messages_chained_actions_and_first_match_only() {
    let config = load(
        "wrapper.filter.trigger.1=Head*Tail-?\n\
         wrapper.filter.allow_wildcards.1=TRUE\n\
         wrapper.filter.action.1=DUMP, GC RESTART\n\
         wrapper.filter.message.1=Synthetic recovery.\n\
         wrapper.filter.trigger.2=Tail\n\
         wrapper.filter.action.2=SHUTDOWN\n",
        &[],
    );
    let matches = Filters::from_config(&config).inspect("prefix Head middle Tail-7 suffix");
    assert_eq!(matches.len(), 1);
    assert_eq!(matches[0].index, 1);
    assert_eq!(
        matches[0].actions,
        [FilterAction::Dump, FilterAction::Gc, FilterAction::Restart]
    );
    assert_eq!(matches[0].message, "Synthetic recovery.");
}

#[test]
fn omitted_filter_action_defaults_to_restart_and_none_blocks_later_filters() {
    let config = load(
        "wrapper.filter.trigger.1=IgnoreError\n\
         wrapper.filter.action.1=NONE\n\
         wrapper.filter.trigger.2=Error\n\
         wrapper.filter.action.2=SHUTDOWN\n\
         wrapper.filter.trigger.3=DefaultAction\n",
        &[],
    );
    let filters = Filters::from_config(&config);
    assert_eq!(
        filters.inspect("IgnoreError")[0].actions,
        [FilterAction::Ignore]
    );
    assert_eq!(
        filters.inspect("DefaultAction")[0].actions,
        [FilterAction::Restart]
    );
}

#[test]
fn filters_read_non_utf8_output_as_windows_1252() {
    assert!(trigger_matches(b"caf\xe9 down", "caf\u{e9}", false));
    assert!(trigger_matches(b"caf\xe9 down", "caf\u{e9}*n", true));
    assert!(trigger_matches(b"ascii \xff bytes", "bytes", false));
    assert!(!trigger_matches(b"anything", "", false));
}

#[test]
fn action_lists_skip_unknown_words_and_keep_sixteen() {
    assert_eq!(parse_action_list(" dump,,bogus\tgc "), [FilterAction::Dump, FilterAction::Gc]);
    assert_eq!(parse_action_list("bogus"), [FilterAction::Restart]);
    let many = vec!["GC"; 20].join(",");
    assert_eq!(parse_action_list(&many).len(), 16);
}

#[test]
fn wildcard_patterns_match_with_backtracking() {
    assert!(wildcard_matches_prefix(b"abcabd", b"a*d"));
    assert!(wildcard_matches_prefix(b"abc", b"a?c"));
    assert!(!wildcard_matches_prefix(b"ab", b"a?c"));
    assert!(wildcard_matches_prefix(b"anything", b""));
    assert!(wildcard_matches_prefix(b"xyz", b"*"));
    assert!(wildcard_contains(b"prefix Head middle Tail-7 suffix", b"Head*Tail-?"));
    assert!(!wildcard_contains(b"Tail-7 Head", b"Head*Tail-?"));
    assert!(wildcard_contains(b"", b"*"));
}

#[test]
fn sends_info_as_the_default_low_log_level() {
    let config = load("wrapper.logfile=wrapper.log\n", &[]);
    assert_eq!(low_log_level(&config), LogLevel::Info.code());
}

#[test]
fn lowest_configured_level_and_debug_override() {
    let config = load("wrapper.console.loglevel=ERROR\nwrapper.logfile.loglevel= warn \n", &[]);
    assert_eq!(low_log_level(&config), LogLevel::Warn.code());
    let config = load("wrapper.logfile.loglevel=NONE\n", &["wrapper.debug=true"]);
    assert_eq!(low_log_level(&config), 1);
    assert_eq!(java_command_log_level(&config), LogLevel::Debug);
}

#[test]
fn renders_the_legacy_console_pm_shape() {
    assert_eq!(
        render_bytes("PM", LogLevel::Status, LogSource::Wrapper, b"message", &stamp()),
        b"wrapper  | message"
    );
}

#[test]
fn renders_the_legacy_lptm_shape() {
    let rendered = render_bytes(
        "LPTM",
        LogLevel::Info,
        LogSource::Jvm(1),
        b"synthetic message",
        &stamp(),
    );
    let text = String::from_utf8(rendered).expect("utf8 record");
    let columns: Vec<&str> = text.split(" | ").collect();
    assert_eq!(columns.len(), 4);
    assert_eq!(columns[0], "INFO  ");
    assert_eq!(columns[1], "jvm 1   ");
    assert_eq!(columns[2].len(), 19);
    assert_eq!(columns[3], "synthetic message");
}

#[test]
fn renders_every_column_and_keeps_raw_bytes() {
    assert_eq!(
        render_bytes("lDqZUGx", LogLevel::Fatal, LogSource::Protocol, b"", &stamp()),
        b"FATAL  | main    |   | 2024/01/02 03:04:05.007 |       42 |        0"
    );
    assert_eq!(
        render_bytes("M", LogLevel::Info, LogSource::Jvm(12345), b"Windows-1252: \xe1", &stamp()),
        b"Windows-1252: \xe1"
    );
    assert_eq!(
        render_bytes("P", LogLevel::Info, LogSource::Jvm(12345), b"", &stamp()),
        b"jvm 12345"
    );
    assert_eq!(validated_format("abc"), "LPTM");
    assert_eq!(validated_format("xyz"), "xyz");
    assert_eq!(validated_format("pm"), "pm");
}

#[test]
fn console_flush_honors_false_and_command_line_true() {
    let text = "wrapper.logfile=wrapper.log\nwrapper.console.flush=false\nwrapper.internal.namedpipe=1992730144\n";
    let config = load(text, &[]);
    assert!(!LogSettings::from_config(&config).console_flush);
    assert!(config.warnings().is_empty());
    let config = load(text, &["wrapper.console.flush=true"]);
    assert!(LogSettings::from_config(&config).console_flush);
    assert!(config.warnings().is_empty());
}

#[test]
fn log_settings_follow_the_roll_mode() {
    let config = load(
        "wrapper.logfile=../logs/wrapper.log\nwrapper.logfile.rollmode=size_or_jvm\nwrapper.logfile.maxsize=50m\nwrapper.logfile.maxfiles=99999999999\n",
        &[],
    );
    let settings = LogSettings::from_config(&config);
    assert_eq!(settings.path, "/synthetic/../logs/wrapper.log");
    assert_eq!(settings.max_size, 50 * 1024 * 1024);
    assert_eq!(settings.max_files, u32::MAX);
    assert!(settings.rotate_at_start);
    assert!(settings.roll_on_jvm_restart);
    assert!(settings.rolls_before_write(50 * 1024 * 1024));
    assert!(!settings.rolls_before_write(10));

    let config = load("wrapper.logfile.rollmode=JVM\nwrapper.logfile.maxsize=50m\n", &[]);
    let settings = LogSettings::from_config(&config);
    assert_eq!(settings.max_size, 0);
    assert!(settings.roll_on_jvm_restart);
    assert_eq!(settings.path, "/synthetic/wrapper.log");
    assert!(settings.writes_file(LogLevel::Info));
    assert!(!settings.writes_file(LogLevel::Debug));
    assert!(!settings.writes_console(false, LogLevel::Fatal));
}

#[test]
fn rotation_renames_from_the_highest_index_down() {
    let plan = rotation_plan(3, 0).expect("bounded");
    assert_eq!(plan.remove, Some(3));
    assert_eq!(plan.shifts, [(2, 3), (1, 2)]);
    let plan = rotation_plan(0, 2).expect("unbounded");
    assert_eq!(plan.remove, None);
    assert_eq!(plan.shifts, [(2, 3), (1, 2)]);
    assert_eq!(
        rotation_plan(0, u32::MAX).expect_err("overflow").describe(),
        "invalid configuration: too many rotated log files"
    );
    assert_eq!(rolled_path("/logs/wrapper.log", 50), "/logs/wrapper.log.50");
    let names: Vec<String> = ["wrapper.log", "wrapper.log.3", "wrapper.log.x", "wrapper.log.12", "other.log.99"]
        .iter()
        .map(|name| name.to_string())
        .collect();
    assert_eq!(highest_rolled_index(Some("wrapper.log"), &names), 12);
    assert_eq!(highest_rolled_index(None, &names), 0);
    assert_eq!(size_after_record(56, 0), 58);
    assert_eq!(size_after_record(u64::MAX - 1, 5), u64::MAX);
}

#[test]
fn record_time_stamps_are_local_times_with_milliseconds() {
    let stamp = stamp_now(42);
    assert_eq!(stamp.uptime_seconds, 42);
    assert!(stamp.millis < 2000);
    let characters: Vec<char> = stamp.time.chars().collect();
    assert_eq!(characters.len(), 19);
    for (index, character) in characters.iter().enumerate() {
        match index {
            4 | 7 => assert_eq!(*character, '/'),
            10 => assert_eq!(*character, ' '),
            13 | 16 => assert_eq!(*character, ':'),
            _ => assert!(character.is_ascii_digit(), "{}", stamp.time),
        }
    }
}
