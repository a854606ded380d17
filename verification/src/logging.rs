//! Log levels and sources, the record layout, the logging settings read from
//! the configuration, and the rotation of log files. Writing the files is
//! left to the caller, which follows the decisions made here.
use vstd::prelude::*;

use chrono::Timelike;

use crate::config::{bool_setting, Config};
use crate::error::Error;
use crate::text::{
    append, append_bytes, append_str, bytes_of, chars_of, decimal, decimal_chars, is_keyword,
    lower, pad_end, pad_end_chars, pad_start, pad_start_chars, parse_u32, parse_u32_spec,
    parse_u64, parse_u64_spec, slice, starts_with, starts_with_chars, string_of, to_lower,
    to_upper, trim, trim_chars, upper, upper_char,
};

verus! {

#[derive(Debug, Clone, Copy, PartialEq, Eq, Structural)]
pub enum StreamSource {
    Stdout,
    Stderr,
}

/// Severity of a log record, from least to most severe.
#[derive(Debug, Clone, Copy, PartialEq, Eq, Structural)]
pub enum LogLevel {
    Debug,
    Info,
    Status,
    Warn,
    Error,
    Fatal,
    Advice,
    Notice,
    Off,
}

/// The number of a level: 1 for `Debug` up to 9 for `None`.
pub open spec fn level_code(l: LogLevel) -> u8 {
    match l {
        LogLevel::Debug => 1,
        LogLevel::Info => 2,
        LogLevel::Status => 3,
        LogLevel::Warn => 4,
        LogLevel::Error => 5,
        LogLevel::Fatal => 6,
        LogLevel::Advice => 7,
        LogLevel::Notice => 8,
        LogLevel::Off => 9,
    }
}

/// The six-character level column of a record.
pub open spec fn level_label(l: LogLevel) -> Seq<char> {
    match l {
        LogLevel::Debug => "DEBUG "@,
        LogLevel::Info => "INFO  "@,
        LogLevel::Status => "STATUS"@,
        LogLevel::Warn => "WARN  "@,
        LogLevel::Error => "ERROR "@,
        LogLevel::Fatal => "FATAL "@,
        LogLevel::Advice => "ADVICE"@,
        LogLevel::Notice => "NOTICE"@,
        LogLevel::Off => "NONE  "@,
    }
}

/// The level of a log packet code sent by the JVM.
pub open spec fn protocol_level(code: u8) -> Option<LogLevel> {
    if code == 117 {
        Some(LogLevel::Debug)
    } else if code == 118 {
        Some(LogLevel::Info)
    } else if code == 119 {
        Some(LogLevel::Status)
    } else if code == 120 {
        Some(LogLevel::Warn)
    } else if code == 121 {
        Some(LogLevel::Error)
    } else if code == 122 {
        Some(LogLevel::Fatal)
    } else if code == 123 {
        Some(LogLevel::Advice)
    } else if code == 124 {
        Some(LogLevel::Notice)
    } else {
        None
    }
}

/// The log packet codes follow the order of the levels: code
/// `LOG_BASE + n` carries the level whose code is `n`, for `n` from 1
/// (debug) to 8 (notice); no other code carries a level. So distinct codes
/// give distinct levels, and a record keeps the level it was sent with.
pub proof fn lemma_log_codes_follow_levels(code: u8)
    ensures
        protocol_level(code) is Some <==> crate::protocol::LOG_BASE < code <= crate::protocol::LOG_BASE + 8,
        protocol_level(code) matches Some(l) ==> level_code(l) == code - crate::protocol::LOG_BASE,
{
}

/// The level a configuration keyword names (already trimmed and upper case).
pub open spec fn named_level(k: Seq<char>) -> Option<LogLevel> {
    if k == "DEBUG"@ {
        Some(LogLevel::Debug)
    } else if k == "INFO"@ {
        Some(LogLevel::Info)
    } else if k == "STATUS"@ {
        Some(LogLevel::Status)
    } else if k == "WARN"@ {
        Some(LogLevel::Warn)
    } else if k == "ERROR"@ {
        Some(LogLevel::Error)
    } else if k == "FATAL"@ {
        Some(LogLevel::Fatal)
    } else if k == "ADVICE"@ {
        Some(LogLevel::Advice)
    } else if k == "NOTICE"@ {
        Some(LogLevel::Notice)
    } else if k == "NONE"@ {
        Some(LogLevel::Off)
    } else {
        None
    }
}

impl LogLevel {
    pub fn code(self) -> (r: u8)
        ensures
            r == level_code(self),
    {
        match self {
            LogLevel::Debug => 1,
            LogLevel::Info => 2,
            LogLevel::Status => 3,
            LogLevel::Warn => 4,
            LogLevel::Error => 5,
            LogLevel::Fatal => 6,
            LogLevel::Advice => 7,
            LogLevel::Notice => 8,
            LogLevel::Off => 9,
        }
    }

    pub fn label(self) -> (r: &'static str)
        ensures
            r@ == level_label(self),
    {
        match self {
            LogLevel::Debug => "DEBUG ",
            LogLevel::Info => "INFO  ",
            LogLevel::Status => "STATUS",
            LogLevel::Warn => "WARN  ",
            LogLevel::Error => "ERROR ",
            LogLevel::Fatal => "FATAL ",
            LogLevel::Advice => "ADVICE",
            LogLevel::Notice => "NOTICE",
            LogLevel::Off => "NONE  ",
        }
    }

    pub fn from_protocol_code(code: u8) -> (r: Option<LogLevel>)
        ensures
            r == protocol_level(code),
    {
        match code {
            117 => Some(LogLevel::Debug),
            118 => Some(LogLevel::Info),
            119 => Some(LogLevel::Status),
            120 => Some(LogLevel::Warn),
            121 => Some(LogLevel::Error),
            122 => Some(LogLevel::Fatal),
            123 => Some(LogLevel::Advice),
            124 => Some(LogLevel::Notice),
            _ => None,
        }
    }
}

/// Who wrote a record: the service host, the control channel, or the JVM
/// of a given invocation.
#[derive(Debug, Clone, Copy, PartialEq, Eq, Structural)]
pub enum LogSource {
    Wrapper,
    Protocol,
    Jvm(u32),
}

pub open spec fn source_label(s: LogSource) -> Seq<char> {
    match s {
        LogSource::Wrapper => "wrapper "@,
        LogSource::Protocol => "wrapperp"@,
        LogSource::Jvm(id) => "jvm "@ + pad_end(decimal(id as nat), 4),
    }
}

pub open spec fn thread_label(s: LogSource) -> Seq<char> {
    match s {
        LogSource::Jvm(_) => "javaio "@,
        _ => "main   "@,
    }
}

impl LogSource {
    pub fn label(self) -> (r: String)
        ensures
            r@ == source_label(self),
    {
        match self {
            LogSource::Wrapper => crate::error::owned("wrapper "),
            LogSource::Protocol => crate::error::owned("wrapperp"),
            LogSource::Jvm(id) => {
                let mut out: Vec<char> = Vec::new();
                append_str(&mut out, "jvm ");
                let digits = decimal_chars(id as u64);
                let padded = pad_end_chars(&digits, 4);
                append(&mut out, &padded);
                string_of(&out)
            },
        }
    }

    pub fn thread_label(self) -> (r: &'static str)
        ensures
            r@ == thread_label(self),
    {
        match self {
            LogSource::Jvm(_) => "javaio ",
            _ => "main   ",
        }
    }
}

/// The level a keyword names, if any: trimmed and ASCII case-folded.
pub fn level_named(value: &[char]) -> (r: Option<LogLevel>)
    ensures
        r == named_level(upper(trim(value@))),
{
    if is_keyword(value, "DEBUG") {
        Some(LogLevel::Debug)
    } else if is_keyword(value, "INFO") {
        Some(LogLevel::Info)
    } else if is_keyword(value, "STATUS") {
        Some(LogLevel::Status)
    } else if is_keyword(value, "WARN") {
        Some(LogLevel::Warn)
    } else if is_keyword(value, "ERROR") {
        Some(LogLevel::Error)
    } else if is_keyword(value, "FATAL") {
        Some(LogLevel::Fatal)
    } else if is_keyword(value, "ADVICE") {
        Some(LogLevel::Advice)
    } else if is_keyword(value, "NOTICE") {
        Some(LogLevel::Notice)
    } else if is_keyword(value, "NONE") {
        Some(LogLevel::Off)
    } else {
        None
    }
}

/// The level a property configures; `default` when it is absent or names
/// no level.
pub open spec fn configured_level(value: Option<Seq<char>>, default: LogLevel) -> LogLevel {
    match value {
        Some(v) => match named_level(upper(trim(v))) {
            Some(l) => l,
            None => default,
        },
        None => default,
    }
}

pub fn configured_log_level(config: &Config, property: &str, default: LogLevel) -> (r: LogLevel)
    ensures
        r == configured_level(config.property(property@), default),
{
    match config.get(property) {
        None => default,
        Some(v) => {
            let cs = chars_of(v);
            match level_named(&cs) {
                Some(l) => l,
                None => default,
            }
        },
    }
}

/// The lowest level that any log destination records, sent to the JVM so
/// that it does not send records nobody keeps.
pub open spec fn low_level_code(config: &Config) -> u8 {
    if bool_setting(config.property("wrapper.debug"@), false) {
        level_code(LogLevel::Debug)
    } else {
        let a = level_code(configured_level(config.property("wrapper.console.loglevel"@), LogLevel::Info));
        let b = level_code(configured_level(config.property("wrapper.logfile.loglevel"@), LogLevel::Info));
        let c = level_code(configured_level(config.property("wrapper.syslog.loglevel"@), LogLevel::Off));
        let ab = if a <= b {
            a
        } else {
            b
        };
        if ab <= c {
            ab
        } else {
            c
        }
    }
}

pub fn low_log_level(config: &Config) -> (r: u8)
    ensures
        r == low_level_code(config),
{
    if config.get_bool("wrapper.debug", false) {
        return LogLevel::Debug.code();
    }
    let a = configured_log_level(config, "wrapper.console.loglevel", LogLevel::Info).code();
    let b = configured_log_level(config, "wrapper.logfile.loglevel", LogLevel::Info).code();
    let c = configured_log_level(config, "wrapper.syslog.loglevel", LogLevel::Off).code();
    let ab = if a <= b {
        a
    } else {
        b
    };
    if ab <= c {
        ab
    } else {
        c
    }
}

/// The level at which the Java command line is logged.
pub fn java_command_log_level(config: &Config) -> (r: LogLevel)
    ensures
        r == configured_level(config.property("wrapper.java.command.loglevel"@), LogLevel::Debug),
{
    configured_log_level(config, "wrapper.java.command.loglevel", LogLevel::Debug)
}

/// A format letter that names a column.
pub open spec fn format_token(c: char) -> bool {
    let u = upper_char(c);
    u == 'L' || u == 'P' || u == 'D' || u == 'Q' || u == 'T' || u == 'Z' || u == 'U' || u == 'G'
        || u == 'M'
}

/// The configured format when it names at least one column, else `LPTM`.
pub open spec fn valid_format(f: Seq<char>) -> Seq<char> {
    if exists|i: int| 0 <= i < f.len() && format_token(#[trigger] f[i]) {
        f
    } else {
        "LPTM"@
    }
}

pub fn validated_format(format: &str) -> (r: String)
    ensures
        r@ == valid_format(format@),
{
    let cs = chars_of(format);
    let mut i: usize = 0;
    while i < cs.len()
        invariant
            i <= cs.len(),
            cs@ == format@,
            forall|j: int| 0 <= j < i ==> !format_token(#[trigger] cs@[j]),
        decreases cs.len() - i,
    {
        let u = crate::text::to_upper_char(cs[i]);
        if u == 'L' || u == 'P' || u == 'D' || u == 'Q' || u == 'T' || u == 'Z' || u == 'U' || u
            == 'G' || u == 'M' {
            assert(format_token(cs@[i as int]));
            return crate::error::owned(format);
        }
        i += 1;
    }
    crate::error::owned("LPTM")
}

pub open spec fn is_ascii_digit(c: char) -> bool {
    48 <= (c as u32) <= 57
}

/// Index of the first character that is not an ASCII digit.
pub open spec fn digit_run(s: Seq<char>) -> int
    decreases s.len(),
{
    if s.len() == 0 || !is_ascii_digit(s[0]) {
        0
    } else {
        1 + digit_run(s.drop_first())
    }
}

/// The factor a size unit stands for.
pub open spec fn size_unit(u: Seq<char>) -> Option<u64> {
    if u == ""@ || u == "b"@ {
        Some(1)
    } else if u == "k"@ || u == "kb"@ {
        Some(1024)
    } else if u == "m"@ || u == "mb"@ {
        Some(1048576)
    } else if u == "g"@ || u == "gb"@ {
        Some(1073741824)
    } else {
        None
    }
}

/// A size such as `50m` or `2 GB`: digits, then an optional unit; `None`
/// when it is malformed or does not fit in 64 bits.
pub open spec fn size_value(value: Seq<char>) -> Option<u64> {
    let n = lower(trim(value));
    let split = digit_run(n);
    match parse_u64_spec(n.take(split)) {
        None => None,
        Some(number) => match size_unit(trim(n.skip(split))) {
            None => None,
            Some(m) => if number * m <= u64::MAX {
                Some((number * m) as u64)
            } else {
                None
            },
        },
    }
}

proof fn lemma_digit_run(s: Seq<char>, i: int)
    requires
        0 <= i <= s.len(),
        forall|j: int| 0 <= j < i ==> is_ascii_digit(#[trigger] s[j]),
        i == s.len() || !is_ascii_digit(s[i]),
    ensures
        digit_run(s) == i,
    decreases i,
{
    if i > 0 {
        lemma_digit_run(s.drop_first(), i - 1);
    }
}

pub fn parse_size(value: &str) -> (r: Option<u64>)
    ensures
        r == size_value(value@),
{
    let cs = chars_of(value);
    let t = trim_chars(&cs);
    let n = to_lower(&t);
    let mut split: usize = 0;
    while split < n.len() && 48 <= (n[split] as u32) && (n[split] as u32) <= 57
        invariant
            split <= n.len(),
            forall|j: int| 0 <= j < split ==> is_ascii_digit(#[trigger] n@[j]),
        decreases n.len() - split,
    {
        split += 1;
    }
    proof {
        lemma_digit_run(n@, split as int);
    }
    let digits = slice(&n, 0, split);
    assert(digits@ =~= n@.take(split as int));
    let number = match parse_u64(&digits) {
        Some(v) => v,
        None => return None,
    };
    let rest = slice(&n, split, n.len());
    assert(rest@ =~= n@.skip(split as int));
    let unit = trim_chars(&rest);
    let multiplier: u64 = if crate::text::chars_eq_str(&unit, "") || crate::text::chars_eq_str(
        &unit,
        "b",
    ) {
        1
    } else if crate::text::chars_eq_str(&unit, "k") || crate::text::chars_eq_str(&unit, "kb") {
        1024
    } else if crate::text::chars_eq_str(&unit, "m") || crate::text::chars_eq_str(&unit, "mb") {
        1048576
    } else if crate::text::chars_eq_str(&unit, "g") || crate::text::chars_eq_str(&unit, "gb") {
        1073741824
    } else {
        return None;
    };
    number.checked_mul(multiplier)
}

/// Local time for the `T` and `Z` columns and the uptime for `U`.
#[derive(Debug, Clone)]
pub struct Stamp {
    /// `YYYY/MM/DD hh:mm:ss`.
    pub time: String,
    pub millis: u32,
    pub uptime_seconds: u64,
}

/// The number written by the two characters of `s` at `i` and `i + 1`.
pub open spec fn two_digit_value(s: Seq<char>, i: int) -> int {
    (s[i] as int - 48) * 10 + (s[i + 1] as int - 48)
}

/// The shape of a local time written with the chrono format
/// `%Y/%m/%d %H:%M:%S`: the year (at least four zero-padded digits, with a
/// sign only outside the years 0 to 9999), `/`, month (1 to 12), `/`, day
/// (1 to 31), a space, hour (0 to 23), `:`, minute (0 to 59), `:`, second
/// (0 to 60, for a leap second), each of these two zero-padded digits.
pub open spec fn record_time(s: Seq<char>) -> bool {
    let n = s.len() as int;
    &&& n >= 19
    &&& s[n - 15] == '/'
    &&& s[n - 12] == '/'
    &&& s[n - 9] == ' '
    &&& s[n - 6] == ':'
    &&& s[n - 3] == ':'
    &&& forall|i: int|
        0 <= i < n && i != n - 15 && i != n - 12 && i != n - 9 && i != n - 6 && i != n - 3 && !(i
            == 0 && (s[0] == '+' || s[0] == '-')) ==> is_ascii_digit(#[trigger] s[i])
    &&& 1 <= two_digit_value(s, n - 14) <= 12
    &&& 1 <= two_digit_value(s, n - 11) <= 31
    &&& 0 <= two_digit_value(s, n - 8) <= 23
    &&& 0 <= two_digit_value(s, n - 5) <= 59
    &&& 0 <= two_digit_value(s, n - 2) <= 60
}

/// The local date and time formatted as `%Y/%m/%d %H:%M:%S`, and the
/// nanoseconds of the current second: `chrono::Local::now()`, then
/// `DateTime::format` and `Timelike::nanosecond`. The result depends on the
/// clock; chrono documents the nanoseconds as below 2,000,000,000 (a leap
/// second runs past 999,999,999). Which time it is depends on the clock;
/// the text has the shape that chrono's formatting of each field gives
/// (zero-padded numbers, a sign on the year only outside 0 to 9999, seconds
/// up to 60 for a leap second).
#[verifier::external_body]
fn local_now() -> (r: (String, u32))
    ensures
        record_time(r.0@),
        r.1 < 2_000_000_000,
{
    let now = chrono::Local::now();
    (now.format("%Y/%m/%d %H:%M:%S").to_string(), now.nanosecond())
}

/// The time stamp of a record written now, `uptime_seconds` after start:
/// the local time as `YYYY/MM/DD hh:mm:ss` and the milliseconds of the
/// current second.
pub fn stamp_now(uptime_seconds: u64) -> (r: Stamp)
    ensures
        r.uptime_seconds == uptime_seconds,
        record_time(r.time@),
        r.millis < 2000,
{
    let (time, nanos) = local_now();
    Stamp { time, millis: nanos / 1_000_000, uptime_seconds }
}

pub open spec fn ascii_bytes(s: Seq<char>) -> Seq<u8> {
    vstd::utf8::encode_utf8(s)
}

/// The column that a format letter stands for, if any.
pub open spec fn column(
    token: char,
    level: LogLevel,
    source: LogSource,
    message: Seq<u8>,
    stamp: Stamp,
) -> Option<Seq<u8>> {
    let u = upper_char(token);
    if u == 'L' {
        Some(ascii_bytes(level_label(level)))
    } else if u == 'P' {
        Some(ascii_bytes(source_label(source)))
    } else if u == 'D' {
        Some(ascii_bytes(thread_label(source)))
    } else if u == 'Q' {
        Some(ascii_bytes(" "@))
    } else if u == 'T' {
        Some(ascii_bytes(stamp.time@))
    } else if u == 'Z' {
        Some(ascii_bytes(stamp.time@ + "."@ + pad_start(decimal(stamp.millis as nat), 3, '0')))
    } else if u == 'U' {
        Some(ascii_bytes(pad_start(decimal(stamp.uptime_seconds as nat), 8, ' ')))
    } else if u == 'G' {
        Some(ascii_bytes(pad_start("0"@, 8, ' ')))
    } else if u == 'M' {
        Some(message)
    } else {
        None
    }
}

/// The columns of a record, in the order of the format letters.
pub open spec fn columns(
    format: Seq<char>,
    level: LogLevel,
    source: LogSource,
    message: Seq<u8>,
    stamp: Stamp,
) -> Seq<Seq<u8>>
    decreases format.len(),
{
    if format.len() == 0 {
        Seq::empty()
    } else {
        let prev = columns(format.drop_last(), level, source, message, stamp);
        match column(format.last(), level, source, message, stamp) {
            Some(c) => prev.push(c),
            None => prev,
        }
    }
}

/// Columns joined by ` | `.
pub open spec fn joined_columns(cols: Seq<Seq<u8>>) -> Seq<u8>
    decreases cols.len(),
{
    if cols.len() == 0 {
        Seq::empty()
    } else if cols.len() == 1 {
        cols[0]
    } else {
        joined_columns(cols.drop_last()) + ascii_bytes(" | "@) + cols.last()
    }
}

/// A log record without its line end.
pub open spec fn rendered(
    format: Seq<char>,
    level: LogLevel,
    source: LogSource,
    message: Seq<u8>,
    stamp: Stamp,
) -> Seq<u8> {
    joined_columns(columns(format, level, source, message, stamp))
}

fn column_bytes(token: char, level: LogLevel, source: LogSource, message: &[u8], stamp: &Stamp) -> (r: Option<Vec<u8>>)
    ensures
        match column(token, level, source, message@, *stamp) {
            Some(c) => r matches Some(b) && b@ == c,
            None => r is None,
        },
{
    let u = crate::text::to_upper_char(token);
    if u == 'L' {
        Some(bytes_of(level.label()))
    } else if u == 'P' {
        let l = source.label();
        Some(bytes_of(l.as_str()))
    } else if u == 'D' {
        Some(bytes_of(source.thread_label()))
    } else if u == 'Q' {
        Some(bytes_of(" "))
    } else if u == 'T' {
        Some(bytes_of(stamp.time.as_str()))
    } else if u == 'Z' {
        let mut z: Vec<char> = chars_of(stamp.time.as_str());
        append_str(&mut z, ".");
        let digits = decimal_chars(stamp.millis as u64);
        let padded = pad_start_chars(&digits, 3, '0');
        append(&mut z, &padded);
        let zs = string_of(&z);
        Some(bytes_of(zs.as_str()))
    } else if u == 'U' {
        let digits = decimal_chars(stamp.uptime_seconds);
        let padded = pad_start_chars(&digits, 8, ' ');
        let us = string_of(&padded);
        Some(bytes_of(us.as_str()))
    } else if u == 'G' {
        let zero = chars_of("0");
        let padded = pad_start_chars(&zero, 8, ' ');
        let gs = string_of(&padded);
        Some(bytes_of(gs.as_str()))
    } else if u == 'M' {
        let mut m: Vec<u8> = Vec::new();
        append_bytes(&mut m, message);
        Some(m)
    } else {
        None
    }
}

/// Renders a record: the columns that the format letters name, joined by
/// ` | `. Letters that name no column are skipped.
pub fn render_bytes(format: &str, level: LogLevel, source: LogSource, message: &[u8], stamp: &Stamp) -> (r: Vec<u8>)
    ensures
        r@ == rendered(format@, level, source, message@, *stamp),
{
    let f = chars_of(format);
    let mut out: Vec<u8> = Vec::new();
    let mut count: usize = 0;
    let mut i: usize = 0;
    let ghost st = *stamp;
    assert(f@.take(0) =~= Seq::<char>::empty());
    while i < f.len()
        invariant
            i <= f.len(),
            f@ == format@,
            st == *stamp,
            count <= i,
            count == columns(f@.take(i as int), level, source, message@, st).len(),
            out@ == joined_columns(columns(f@.take(i as int), level, source, message@, st)),
        decreases f.len() - i,
    {
        proof {
            assert(f@.take(i + 1).drop_last() =~= f@.take(i as int));
            assert(f@.take(i + 1).last() == f@[i as int]);
        }
        match column_bytes(f[i], level, source, message, stamp) {
            Some(c) => {
                if count > 0 {
                    let sep = bytes_of(" | ");
                    let ghost before = out@;
                    append_bytes(&mut out, &sep);
                    append_bytes(&mut out, &c);
                    proof {
                        let cols = columns(f@.take(i as int), level, source, message@, st);
                        assert(columns(f@.take(i + 1), level, source, message@, st) == cols.push(c@));
                        assert(cols.push(c@).drop_last() =~= cols);
                        assert(out@ =~= before + sep@ + c@);
                    }
                } else {
                    append_bytes(&mut out, &c);
                    proof {
                        let cols = columns(f@.take(i + 1), level, source, message@, st);
                        assert(cols.len() == 1);
                        assert(out@ =~= cols[0]);
                    }
                }
                count += 1;
            },
            None => {},
        }
        i += 1;
    }
    assert(f@.take(f.len() as int) =~= f@);
    out
}

/// How the log file rolls over.
pub open spec fn roll_mode_of(config: &Config) -> Seq<char> {
    upper(
        match config.property("wrapper.logfile.rollmode"@) {
            Some(v) => v,
            None => "SIZE"@,
        },
    )
}

/// The logging settings of a configuration.
#[derive(Debug, Clone)]
pub struct LogSettings {
    /// The log file, resolved from the executable's directory.
    pub path: String,
    /// Size at which the file rolls over; 0 when it never does by size.
    pub max_size: u64,
    /// Rolled files to keep; 0 keeps them all.
    pub max_files: u32,
    /// The existing file is rolled when the service host starts.
    pub rotate_at_start: bool,
    /// The file is rolled before each new JVM.
    pub roll_on_jvm_restart: bool,
    pub format: String,
    pub threshold: LogLevel,
    pub console_format: String,
    pub console_threshold: LogLevel,
    pub console_flush: bool,
}

pub open spec fn threshold_of(config: &Config, property: Seq<char>) -> LogLevel {
    if bool_setting(config.property("wrapper.debug"@), false) {
        LogLevel::Debug
    } else {
        configured_level(config.property(property), LogLevel::Info)
    }
}

pub open spec fn property_or(config: &Config, name: Seq<char>, default: Seq<char>) -> Seq<char> {
    match config.property(name) {
        Some(v) => v,
        None => default,
    }
}

impl LogSettings {
    /// Reads `wrapper.logfile*`, `wrapper.console.*` and `wrapper.debug`.
    pub fn from_config(config: &Config) -> (r: LogSettings)
        ensures
            r.path@ == crate::config::resolved_path(
                config.directory(),
                property_or(config, "wrapper.logfile"@, "wrapper.log"@),
            ),
            r.max_files as int == if crate::config::u64_setting(
                config.property("wrapper.logfile.maxfiles"@),
                0,
            ) <= u32::MAX {
                crate::config::u64_setting(config.property("wrapper.logfile.maxfiles"@), 0) as int
            } else {
                u32::MAX as int
            },
            r.max_size == if roll_mode_of(config) == "SIZE"@ || roll_mode_of(config)
                == "SIZE_OR_WRAPPER"@ || roll_mode_of(config) == "SIZE_OR_JVM"@ {
                match size_value(property_or(config, "wrapper.logfile.maxsize"@, "0"@)) {
                    Some(n) => n,
                    None => 0,
                }
            } else {
                0
            },
            r.rotate_at_start == (roll_mode_of(config) == "WRAPPER"@ || roll_mode_of(config)
                == "JVM"@ || roll_mode_of(config) == "SIZE_OR_WRAPPER"@ || roll_mode_of(config)
                == "SIZE_OR_JVM"@),
            r.roll_on_jvm_restart == (roll_mode_of(config) == "JVM"@ || roll_mode_of(config)
                == "SIZE_OR_JVM"@),
            r.format@ == valid_format(property_or(config, "wrapper.logfile.format"@, "LPTM"@)),
            r.threshold == threshold_of(config, "wrapper.logfile.loglevel"@),
            r.console_format@ == valid_format(property_or(config, "wrapper.console.format"@, "PM"@)),
            r.console_threshold == threshold_of(config, "wrapper.console.loglevel"@),
            r.console_flush == bool_setting(config.property("wrapper.console.flush"@), false),
    {
        let path = config.resolve_path(config.get_or("wrapper.logfile", "wrapper.log"));
        let files = config.get_u64("wrapper.logfile.maxfiles", 0);
        let max_files: u32 = if files <= 4294967295 {
            files as u32
        } else {
            4294967295
        };
        let mode_text = chars_of(config.get_or("wrapper.logfile.rollmode", "SIZE"));
        let mode = to_upper(&mode_text);
        let by_size = crate::text::chars_eq_str(&mode, "SIZE") || crate::text::chars_eq_str(
            &mode,
            "SIZE_OR_WRAPPER",
        ) || crate::text::chars_eq_str(&mode, "SIZE_OR_JVM");
        let max_size = if by_size {
            match parse_size(config.get_or("wrapper.logfile.maxsize", "0")) {
                Some(n) => n,
                None => 0,
            }
        } else {
            0
        };
        let on_jvm = crate::text::chars_eq_str(&mode, "JVM") || crate::text::chars_eq_str(
            &mode,
            "SIZE_OR_JVM",
        );
        let rotate_at_start = crate::text::chars_eq_str(&mode, "WRAPPER") || crate::text::chars_eq_str(
            &mode,
            "JVM",
        ) || crate::text::chars_eq_str(&mode, "SIZE_OR_WRAPPER") || crate::text::chars_eq_str(
            &mode,
            "SIZE_OR_JVM",
        );
        let debug = config.get_bool("wrapper.debug", false);
        let threshold = if debug {
            LogLevel::Debug
        } else {
            configured_log_level(config, "wrapper.logfile.loglevel", LogLevel::Info)
        };
        let console_threshold = if debug {
            LogLevel::Debug
        } else {
            configured_log_level(config, "wrapper.console.loglevel", LogLevel::Info)
        };
        LogSettings {
            path,
            max_size,
            max_files,
            rotate_at_start,
            roll_on_jvm_restart: on_jvm,
            format: validated_format(config.get_or("wrapper.logfile.format", "LPTM")),
            threshold,
            console_format: validated_format(config.get_or("wrapper.console.format", "PM")),
            console_threshold,
            console_flush: config.get_bool("wrapper.console.flush", false),
        }
    }

    /// Whether a record of `level` goes to the file.
    pub fn writes_file(&self, level: LogLevel) -> (r: bool)
        ensures
            r == (level_code(level) >= level_code(self.threshold) && self.threshold
                != LogLevel::Off),
    {
        level.code() >= self.threshold.code() && self.threshold != LogLevel::Off
    }

    /// Whether a record of `level` goes to the console, when it is shown.
    pub fn writes_console(&self, console_enabled: bool, level: LogLevel) -> (r: bool)
        ensures
            r == (console_enabled && level_code(level) >= level_code(self.console_threshold)
                && self.console_threshold != LogLevel::Off),
    {
        console_enabled && level.code() >= self.console_threshold.code() && self.console_threshold
            != LogLevel::Off
    }

    /// Whether the file must roll over before the next record.
    pub fn rolls_before_write(&self, current_size: u64) -> (r: bool)
        ensures
            r == (self.max_size > 0 && current_size >= self.max_size),
    {
        self.max_size > 0 && current_size >= self.max_size
    }
}

/// The file size after a record of `rendered_len` bytes and its line end.
pub fn size_after_record(current_size: u64, rendered_len: usize) -> (r: u64)
    ensures
        r as int == if current_size + rendered_len + 2 <= u64::MAX {
            current_size + rendered_len + 2
        } else {
            u64::MAX as int
        },
{
    let line = if rendered_len as u64 <= u64::MAX - 2 {
        rendered_len as u64 + 2
    } else {
        u64::MAX
    };
    if current_size <= u64::MAX - line {
        current_size + line
    } else {
        u64::MAX
    }
}

/// The name of rolled file `index`: the log path, a dot and the index.
pub open spec fn rolled_name(path: Seq<char>, index: u32) -> Seq<char> {
    path + "."@ + decimal(index as nat)
}

pub fn rolled_path(path: &str, index: u32) -> (r: String)
    ensures
        r@ == rolled_name(path@, index),
{
    let mut out: Vec<char> = chars_of(path);
    append_str(&mut out, ".");
    let digits = decimal_chars(index as u64);
    append(&mut out, &digits);
    string_of(&out)
}

/// The index of a rolled file named `name`, for the log file named
/// `file_name`.
pub open spec fn rolled_index(file_name: Seq<char>, name: Seq<char>) -> Option<u32> {
    if starts_with(name, file_name + "."@) {
        parse_u32_spec(name.skip(file_name.len() as int + 1))
    } else {
        None
    }
}

/// The highest index among rolled files in a directory listing.
pub open spec fn highest_index(file_name: Seq<char>, names: Seq<Seq<char>>) -> u32
    decreases names.len(),
{
    if names.len() == 0 {
        0
    } else {
        let h = highest_index(file_name, names.drop_last());
        match rolled_index(file_name, names.last()) {
            Some(i) => if i > h {
                i
            } else {
                h
            },
            None => h,
        }
    }
}

/// The highest rolled index present in the listing `names`; 0 when the
/// log path has no file name or no rolled file is present.
pub fn highest_rolled_index(file_name: Option<&str>, names: &[String]) -> (r: u32)
    ensures
        r == match file_name {
            Some(f) => highest_index(f@, names@.map_values(|n: String| n@)),
            None => 0,
        },
{
    let f = match file_name {
        Some(f) => f,
        None => return 0,
    };
    let mut prefix = chars_of(f);
    append_str(&mut prefix, ".");
    let ghost ns = names@.map_values(|n: String| n@);
    let mut highest: u32 = 0;
    let mut i: usize = 0;
    assert(ns.take(0) =~= Seq::<Seq<char>>::empty());
    while i < names.len()
        invariant
            i <= names.len(),
            ns == names@.map_values(|n: String| n@),
            prefix@ == f@ + "."@,
            highest == highest_index(f@, ns.take(i as int)),
        decreases names.len() - i,
    {
        proof {
            assert(ns.take(i + 1).drop_last() =~= ns.take(i as int));
            assert(ns.take(i + 1).last() == ns[i as int]);
            reveal_strlit(".");
        }
        let name = chars_of(names[i].as_str());
        if starts_with_chars(&name, &prefix) {
            let suffix = slice(&name, prefix.len(), name.len());
            assert(suffix@ =~= name@.skip(f@.len() as int + 1));
            match parse_u32(&suffix) {
                Some(index) => {
                    if index > highest {
                        highest = index;
                    }
                },
                None => {},
            }
        }
        i += 1;
    }
    assert(ns.take(names.len() as int) =~= ns);
    highest
}

/// How to roll a log over: the rolled file to delete first, if any, then
/// each rolled file `i` to rename to `i + 1` (when it exists), highest first;
/// the active file then becomes rolled file 1.
#[derive(Debug, Clone, PartialEq, Eq)]
pub struct RotationPlan {
    pub remove: Option<u32>,
    pub shifts: Vec<(u32, u32)>,
}

/// The renames for a rotation that keeps files up to index `limit`.
pub open spec fn shifts_below(limit: u32) -> Seq<(u32, u32)> {
    Seq::new(
        if limit >= 1 {
            (limit - 1) as nat
        } else {
            0
        },
        |k: int| ((limit - 1 - k) as u32, (limit - k) as u32),
    )
}

/// With a limit of `max_files` the oldest kept file is deleted; with no
/// limit every rolled file moves up one index, which fails when the highest
/// present index is the largest there can be.
pub fn rotation_plan(max_files: u32, highest_present: u32) -> (r: Result<RotationPlan, Error>)
    ensures
        max_files == 0 && highest_present == u32::MAX ==> (r matches Err(Error::Config(m)) && m@
            == "too many rotated log files"@),
        max_files == 0 && highest_present < u32::MAX ==> (r matches Ok(p) && p.remove is None
            && p.shifts@ == shifts_below((highest_present + 1) as u32)),
        max_files > 0 ==> (r matches Ok(p) && p.remove == Some(max_files) && p.shifts@
            == shifts_below(max_files)),
{
    let (remove, limit) = if max_files == 0 {
        if highest_present == u32::MAX {
            return Err(Error::Config(crate::error::owned("too many rotated log files")));
        }
        (None, highest_present + 1)
    } else {
        (Some(max_files), max_files)
    };
    let mut shifts: Vec<(u32, u32)> = Vec::new();
    let mut index: u32 = limit;
    while index > 1
        invariant
            1 <= limit,
            1 <= index <= limit,
            shifts@ == shifts_below(limit).take((limit - index) as int),
        decreases index,
    {
        let ghost before = shifts@;
        shifts.push((index - 1, index));
        proof {
            assert(shifts_below(limit).take((limit - index + 1) as int) =~= before.push(
                ((index - 1) as u32, index),
            ));
        }
        index -= 1;
    }
    assert(shifts_below(limit).take((limit - 1) as int) =~= shifts_below(limit));
    Ok(RotationPlan { remove, shifts })
}


/// The files of a log as a map from index to contents: 0 is the active file
/// and `i` is rolled file `i`.
pub open spec fn rename_file(files: Map<int, Seq<u8>>, from: int, to: int) -> Map<int, Seq<u8>> {
    if files.dom().contains(from) {
        files.remove(from).insert(to, files[from])
    } else {
        files
    }
}

/// The renames of a plan carried out in order, each only when its source
/// exists.
pub open spec fn apply_shifts(files: Map<int, Seq<u8>>, shifts: Seq<(u32, u32)>) -> Map<int, Seq<u8>>
    decreases shifts.len(),
{
    if shifts.len() == 0 {
        files
    } else {
        apply_shifts(rename_file(files, shifts[0].0 as int, shifts[0].1 as int), shifts.drop_first())
    }
}

/// A rotation carried out: the file to remove, when the plan names one, then
/// the renames, then the active file becomes rolled file 1.
pub open spec fn rotated(files: Map<int, Seq<u8>>, remove: Option<u32>, shifts: Seq<(u32, u32)>) -> Map<
    int,
    Seq<u8>,
> {
    let kept = match remove {
        Some(i) => files.remove(i as int),
        None => files,
    };
    rename_file(apply_shifts(kept, shifts), 0, 1)
}

/// Shifting below `limit` into a free `limit` moves each file `j - 1` to
/// `j` for `2 <= j <= limit`, frees index 1 and leaves the rest alone.
#[verifier::spinoff_prover]
proof fn lemma_shifts_below(f: Map<int, Seq<u8>>, limit: u32)
    requires
        limit >= 1,
        !f.dom().contains(limit as int),
    ensures
        ({
            let g = apply_shifts(f, shifts_below(limit));
            &&& !g.dom().contains(1)
            &&& forall|j: int|
                2 <= j <= limit ==> (#[trigger] g.dom().contains(j) <==> f.dom().contains(j - 1)) && (
                f.dom().contains(j - 1) ==> g[j] == f[j - 1])
            &&& forall|j: int|
                (j < 1 || j > limit) ==> (#[trigger] g.dom().contains(j) <==> f.dom().contains(j)) && (
                f.dom().contains(j) ==> g[j] == f[j])
        }),
    decreases limit,
{
    if limit == 1 {
        assert(shifts_below(limit).len() == 0);
    } else {
        let s = shifts_below(limit);
        let t = shifts_below((limit - 1) as u32);
        assert(s[0] == ((limit - 1) as u32, limit));
        assert(s.drop_first() =~= t);
        let f1 = rename_file(f, limit - 1, limit as int);
        assert(apply_shifts(f, s) == apply_shifts(f1, t));
        lemma_shifts_below(f1, (limit - 1) as u32);
    }
}

/// Rotating with `wrapper.logfile.maxfiles = m >= 1` moves the active file
/// to rolled file 1 and each rolled file `i < m` that exists to `i + 1`;
/// old file `m` is gone, no file beyond `m` is created or touched, and no
/// active file remains.
#[verifier::spinoff_prover]
pub proof fn lemma_bounded_rotation(files: Map<int, Seq<u8>>, m: u32)
    requires
        m >= 1,
        files.dom().contains(0),
    ensures
        ({
            let r = rotated(files, Some(m), shifts_below(m));
            &&& !r.dom().contains(0)
            &&& r.dom().contains(1) && r[1] == files[0]
            &&& forall|i: int|
                1 <= i < m ==> (#[trigger] r.dom().contains(i + 1) <==> files.dom().contains(i)) && (
                files.dom().contains(i) ==> r[i + 1] == files[i])
            &&& forall|j: int|
                j > m ==> (#[trigger] r.dom().contains(j) <==> files.dom().contains(j)) && (
                files.dom().contains(j) ==> r[j] == files[j])
        }),
{
    let kept = files.remove(m as int);
    lemma_shifts_below(kept, m);
    let g = apply_shifts(kept, shifts_below(m));
    assert(kept.dom().contains(0) && kept[0] == files[0]);
    assert(g.dom().contains(0) <==> kept.dom().contains(0));
    assert(g[0] == kept[0]);
    let r = rename_file(g, 0, 1);
    assert forall|i: int| 1 <= i < m implies (#[trigger] r.dom().contains(i + 1) <==> files.dom().contains(i)) && (
        files.dom().contains(i) ==> r[i + 1] == files[i]) by {
        assert(g.dom().contains(i + 1) <==> kept.dom().contains(i));
    }
    assert forall|j: int| j > m implies (#[trigger] r.dom().contains(j) <==> files.dom().contains(j)) && (
        files.dom().contains(j) ==> r[j] == files[j]) by {
        assert(g.dom().contains(j) <==> kept.dom().contains(j));
    }
}

/// Rotating with no limit, when `h` is the highest rolled file present,
/// keeps every file: the active file becomes rolled file 1 and each rolled
/// file `i` becomes `i + 1`.
#[verifier::spinoff_prover]
pub proof fn lemma_unbounded_rotation(files: Map<int, Seq<u8>>, h: u32)
    requires
        h < u32::MAX,
        files.dom().contains(0),
        forall|j: int| j > h ==> !#[trigger] files.dom().contains(j),
    ensures
        ({
            let r = rotated(files, None, shifts_below((h + 1) as u32));
            &&& !r.dom().contains(0)
            &&& r.dom().contains(1) && r[1] == files[0]
            &&& forall|i: int|
                i >= 1 ==> (#[trigger] r.dom().contains(i + 1) <==> files.dom().contains(i)) && (
                files.dom().contains(i) ==> r[i + 1] == files[i])
        }),
{
    let limit = (h + 1) as u32;
    assert(!files.dom().contains(limit as int));
    lemma_shifts_below(files, limit);
    let g = apply_shifts(files, shifts_below(limit));
    assert(g.dom().contains(0) <==> files.dom().contains(0));
    assert(g[0] == files[0]);
    let r = rename_file(g, 0, 1);
    assert forall|i: int| i >= 1 implies (#[trigger] r.dom().contains(i + 1) <==> files.dom().contains(i)) && (
        files.dom().contains(i) ==> r[i + 1] == files[i]) by {
        if i + 1 <= limit {
            assert(g.dom().contains(i + 1) <==> files.dom().contains(i));
        } else {
            assert(g.dom().contains(i + 1) <==> files.dom().contains(i + 1));
            assert(!files.dom().contains(i));
        }
    }
}
} // verus!
