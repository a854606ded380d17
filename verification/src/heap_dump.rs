//! On-demand heap dumps: where a dump is written, how it is named, and how
//! the outcome of `jcmd GC.heap_dump` is reported. Running `jcmd` and
//! probing the file system are the caller's.
use vstd::prelude::*;

use crate::config::{resolved_path, u64_setting, Config};
use crate::error::{owned, Error};
use crate::logging::{is_ascii_digit, two_digit_value};
use crate::text::{append, append_str, chars_of, decimal, decimal_chars, string_of, trim, trim_chars};

verus! {

pub const DEFAULT_TIMEOUT_SECONDS: u64 = 600;

/// How many names are tried before giving up.
pub const MAX_NAME_ATTEMPTS: u32 = 1000;

/// Characters of `jcmd` output kept in a failure message.
pub const MAX_DIAGNOSTIC_OUTPUT: usize = 4096;

/// How a heap dump ended.
#[derive(Debug, Clone, PartialEq, Eq)]
pub enum Completion {
    Created { path: String, bytes: u64 },
    Failed { path: String, message: String },
}

/// Whether a heap dump has ended.
#[derive(Debug, Clone, PartialEq, Eq)]
pub enum Poll {
    Pending,
    Complete(Completion),
}

/// Seconds a heap dump may take: `jss.heapdump.timeout` (600 by default),
/// at least one.
pub fn timeout(config: &Config) -> (r: u64)
    ensures
        ({
            let t = u64_setting(config.property("jss.heapdump.timeout"@), DEFAULT_TIMEOUT_SECONDS);
            r == if t >= 1 {
                t
            } else {
                1
            }
        }),
{
    let t = config.get_u64("jss.heapdump.timeout", DEFAULT_TIMEOUT_SECONDS);
    if t >= 1 {
        t
    } else {
        1
    }
}

/// The directory of heap dumps: `jss.heapdump.directory` when set, else the
/// directory of the log file, else the executable's directory.
pub fn dump_directory(config: &Config, logfile: &str) -> (r: String)
    ensures
        r@ == match config.property("jss.heapdump.directory"@) {
            Some(d) => resolved_path(config.directory(), d),
            None => match crate::paths::parent_of(logfile@) {
                Some(p) if p.len() > 0 => p,
                _ => config.directory(),
            },
        },
{
    match config.get("jss.heapdump.directory") {
        Some(d) => config.resolve_path(d),
        None => match crate::paths::parent(logfile) {
            Some(p) => {
                if p.as_str().is_empty() {
                    owned(config.executable_directory())
                } else {
                    p
                }
            },
            None => owned(config.executable_directory()),
        },
    }
}

/// The shape of a time stamp written with the chrono format
/// `%Y%m%d-%H%M%S`: the year (at least four zero-padded digits, with a sign
/// only outside the years 0 to 9999), then two digits each of month (1 to
/// 12) and day (1 to 31), a `-`, and two digits each of hour (0 to 23),
/// minute (0 to 59) and second (0 to 60, for a leap second). Every other
/// character is an ASCII digit, so the stamp can stand in a file name.
pub open spec fn compact_stamp(s: Seq<char>) -> bool {
    let n = s.len() as int;
    &&& n >= 15
    &&& s[n - 7] == '-'
    &&& forall|i: int|
        0 <= i < n && i != n - 7 && !(i == 0 && (s[0] == '+' || s[0] == '-')) ==> is_ascii_digit(
            #[trigger] s[i],
        )
    &&& 1 <= two_digit_value(s, n - 11) <= 12
    &&& 1 <= two_digit_value(s, n - 9) <= 31
    &&& 0 <= two_digit_value(s, n - 6) <= 23
    &&& 0 <= two_digit_value(s, n - 4) <= 59
    &&& 0 <= two_digit_value(s, n - 2) <= 60
}

/// The local time as `YYYYmmdd-HHMMSS`: `chrono::Local::now()` formatted
/// with `DateTime::format("%Y%m%d-%H%M%S")`. Which time it is depends on the
/// clock; what is stated is the shape that chrono's formatting of each field
/// gives (zero-padded numbers, a sign on the year only outside 0 to 9999,
/// seconds up to 60 for a leap second).
#[verifier::external_body]
fn compact_local_time() -> (r: String)
    ensures
        compact_stamp(r@),
{
    chrono::Local::now().format("%Y%m%d-%H%M%S").to_string()
}

/// The time stamp that names the heap dumps requested now: the local time
/// as `YYYYmmdd-HHMMSS`.
pub fn name_timestamp() -> (r: String)
    ensures
        compact_stamp(r@),
{
    compact_local_time()
}

/// The name of a heap dump: time stamp, JVM invocation and PID, and for
/// attempts after the first a `-<attempt>` suffix.
pub open spec fn dump_name(timestamp: Seq<char>, jvm_id: u32, pid: u32, attempt: u32) -> Seq<char> {
    "heap-"@ + timestamp + "-jvm"@ + decimal(jvm_id as nat) + "-pid"@ + decimal(pid as nat) + (if attempt
        == 0 {
        Seq::empty()
    } else {
        "-"@ + decimal(attempt as nat)
    }) + ".hprof"@
}

pub fn dump_file_name(timestamp: &str, jvm_id: u32, pid: u32, attempt: u32) -> (r: String)
    ensures
        r@ == dump_name(timestamp@, jvm_id, pid, attempt),
{
    let mut out = chars_of("heap-");
    append_str(&mut out, timestamp);
    append_str(&mut out, "-jvm");
    let j = decimal_chars(jvm_id as u64);
    append(&mut out, &j);
    append_str(&mut out, "-pid");
    let p = decimal_chars(pid as u64);
    append(&mut out, &p);
    let ghost before = out@;
    if attempt != 0 {
        append_str(&mut out, "-");
        let a = decimal_chars(attempt as u64);
        append(&mut out, &a);
    } else {
        assert(out@ =~= before + Seq::<char>::empty());
    }
    append_str(&mut out, ".hprof");
    string_of(&out)
}

/// The error when every name is taken.
pub fn no_free_name_error(directory: &str) -> (r: Error)
    ensures
        r matches Error::Config(m) && m@ == "could not allocate a unique heap-dump name in "@ + directory@,
{
    let mut m = chars_of("could not allocate a unique heap-dump name in ");
    append_str(&mut m, directory);
    Error::Config(string_of(&m))
}

/// `\r` and `\n` turned into spaces.
pub open spec fn flattened(s: Seq<char>) -> Seq<char> {
    s.map_values(|c: char| if c == '\r' || c == '\n' {
        ' '
    } else {
        c
    })
}

/// The output of a failed `jcmd` for the log: its error stream when it
/// wrote one, else its output; decoded, the first `MAX_DIAGNOSTIC_OUTPUT`
/// characters, trimmed, on one line.
pub open spec fn diagnostic_text(stdout: Seq<u8>, stderr: Seq<u8>) -> Seq<char> {
    let combined = if stderr.len() == 0 {
        stdout
    } else {
        stderr
    };
    let text = crate::protocol::utf8_lossy(combined);
    let kept = if text.len() > MAX_DIAGNOSTIC_OUTPUT {
        text.take(MAX_DIAGNOSTIC_OUTPUT as int)
    } else {
        text
    };
    let out = flattened(trim(kept));
    if out.len() == 0 {
        "no diagnostic output"@
    } else {
        out
    }
}

pub fn diagnostic_output(stdout: &[u8], stderr: &[u8]) -> (r: String)
    ensures
        r@ == diagnostic_text(stdout@, stderr@),
{
    let combined = if stderr.len() == 0 {
        stdout
    } else {
        stderr
    };
    let text = crate::protocol::lossy_text(combined);
    let cs = chars_of(text.as_str());
    let kept = if cs.len() > MAX_DIAGNOSTIC_OUTPUT {
        crate::text::slice(&cs, 0, MAX_DIAGNOSTIC_OUTPUT)
    } else {
        cs
    };
    proof {
        if cs@.len() > MAX_DIAGNOSTIC_OUTPUT {
            assert(kept@ =~= cs@.take(MAX_DIAGNOSTIC_OUTPUT as int));
        }
    }
    let t = trim_chars(&kept);
    let mut out: Vec<char> = Vec::new();
    let mut i: usize = 0;
    while i < t.len()
        invariant
            i <= t.len(),
            out@ == flattened(t@.take(i as int)),
        decreases t.len() - i,
    {
        let c = t[i];
        out.push(if c == '\r' || c == '\n' {
            ' '
        } else {
            c
        });
        assert(t@.take(i + 1) =~= t@.take(i as int).push(c));
        assert(out@ =~= flattened(t@.take(i + 1)));
        i += 1;
    }
    assert(t@.take(t.len() as int) =~= t@);
    if out.len() == 0 {
        owned("no diagnostic output")
    } else {
        string_of(&out)
    }
}

/// What the caller observed of a finished `jcmd GC.heap_dump`.
#[derive(Debug, PartialEq, Eq)]
pub enum DumpResult {
    /// `jcmd` succeeded; the size of the file, or why it could not be read.
    Succeeded { size: Result<u64, String> },
    /// `jcmd` failed with the described status and its output.
    Failed { status: String, stdout: Vec<u8>, stderr: Vec<u8> },
}

/// The completion of a heap dump written to `path`. A successful `jcmd`
/// must have left a non-empty file.
pub fn completion(path: String, result: DumpResult) -> (r: Completion)
    ensures
        match result {
            DumpResult::Succeeded { size: Ok(n) } => if n > 0 {
                r == (Completion::Created { path, bytes: n })
            } else {
                r matches Completion::Failed { path: p, message } && p == path && message@
                    == "jcmd reported success but created an empty heap dump"@
            },
            DumpResult::Succeeded { size: Err(e) } => r matches Completion::Failed { path: p, message }
                && p == path && message@ == "jcmd reported success but no heap dump was found: "@ + e@,
            DumpResult::Failed { status, stdout, stderr } => r matches Completion::Failed {
                path: p,
                message,
            } && p == path && message@ == "jcmd exited with "@ + status@ + ": "@ + diagnostic_text(
                stdout@,
                stderr@,
            ),
        },
{
    match result {
        DumpResult::Succeeded { size: Ok(n) } => {
            if n > 0 {
                Completion::Created { path, bytes: n }
            } else {
                Completion::Failed {
                    path,
                    message: owned("jcmd reported success but created an empty heap dump"),
                }
            }
        },
        DumpResult::Succeeded { size: Err(e) } => {
            let mut m = chars_of("jcmd reported success but no heap dump was found: ");
            append_str(&mut m, e.as_str());
            Completion::Failed { path, message: string_of(&m) }
        },
        DumpResult::Failed { status, stdout, stderr } => {
            let mut m = chars_of("jcmd exited with ");
            append_str(&mut m, status.as_str());
            append_str(&mut m, ": ");
            let d = diagnostic_output(&stdout, &stderr);
            append_str(&mut m, d.as_str());
            Completion::Failed { path, message: string_of(&m) }
        },
    }
}

} // verus!
