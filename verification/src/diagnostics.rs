//! Diagnostics of a running JVM: whether the attach mechanism is available
//! to `jcmd`, and how a thread dump is requested.
use vstd::prelude::*;

use crate::config::Config;
use crate::error::{owned, Error};
use crate::logging::property_or;
use crate::text::{chars_eq_str, chars_of, is_keyword, lower, trim, upper};

verus! {

pub const ATTACH_DISABLED: &'static str = "-XX:+DisableAttachMechanism";

pub const ATTACH_ENABLED: &'static str = "-XX:-DisableAttachMechanism";

pub open spec fn texts(v: Seq<String>) -> Seq<Seq<char>> {
    v.map_values(|s: String| s@)
}

/// Whether the last attach option among the arguments disables attaching.
pub open spec fn attach_disabled(args: Seq<Seq<char>>) -> bool
    decreases args.len(),
{
    if args.len() == 0 {
        false
    } else if args.last() == ATTACH_DISABLED@ {
        true
    } else if args.last() == ATTACH_ENABLED@ {
        false
    } else {
        attach_disabled(args.drop_last())
    }
}

/// Refuses `jcmd` diagnostics when the JVM was launched with the attach
/// mechanism disabled; the last of the two options wins.
pub fn require_attach(arguments: &[String]) -> (r: Result<(), Error>)
    ensures
        r is Ok <==> !attach_disabled(texts(arguments@)),
        r matches Err(e) ==> (e matches Error::DiagnosticUnavailable(m) && m@
            == "the JVM was launched with -XX:+DisableAttachMechanism; core service supervision remains available, but JCMD thread dumps and on-demand heap dumps cannot attach"@),
{
    let ghost a = texts(arguments@);
    let mut i: usize = arguments.len();
    assert(a.take(arguments.len() as int) =~= a);
    while i > 0
        invariant
            i <= arguments.len(),
            a == texts(arguments@),
            attach_disabled(a) == attach_disabled(a.take(i as int)),
        decreases i,
    {
        let cs = chars_of(arguments[i - 1].as_str());
        proof {
            assert(a.take(i as int).drop_last() =~= a.take(i - 1));
            assert(a.take(i as int).last() == arguments@[i - 1]@);
        }
        if chars_eq_str(&cs, ATTACH_DISABLED) {
            return Err(Error::DiagnosticUnavailable(owned("the JVM was launched with -XX:+DisableAttachMechanism; core service supervision remains available, but JCMD thread dumps and on-demand heap dumps cannot attach")));
        }
        if chars_eq_str(&cs, ATTACH_ENABLED) {
            return Ok(());
        }
        i -= 1;
    }
    Ok(())
}

/// How a thread dump is requested.
#[derive(Debug, Clone, Copy, PartialEq, Eq, Structural)]
pub enum Method {
    /// A console break sent to the JVM.
    ConsoleBreak,
    /// The JDK's `jcmd Thread.print`.
    Jcmd,
}

/// The JVM runs with `-Xrs` (any ASCII case), which disables console-break
/// thread dumps.
pub open spec fn reduced_signals(args: Seq<Seq<char>>) -> bool {
    exists|i: int| 0 <= i < args.len() && lower(#[trigger] args[i]) == "-xrs"@
}

pub fn has_reduced_signal_usage(arguments: &[String]) -> (r: bool)
    ensures
        r == reduced_signals(texts(arguments@)),
{
    let ghost a = texts(arguments@);
    let mut i: usize = 0;
    while i < arguments.len()
        invariant
            i <= arguments.len(),
            a == texts(arguments@),
            forall|j: int| 0 <= j < i ==> lower(#[trigger] a[j]) != "-xrs"@,
        decreases arguments.len() - i,
    {
        let cs = chars_of(arguments[i].as_str());
        let l = crate::text::to_lower(&cs);
        assert(a[i as int] == arguments@[i as int]@);
        if chars_eq_str(&l, "-xrs") {
            return true;
        }
        i += 1;
    }
    false
}

/// What `jss.threaddump.method` decides.
pub enum MethodChoice {
    Chosen(Method),
    /// A console break was asked for, but the JVM runs with `-Xrs`.
    BreakWithoutSignals,
    /// An unknown method name (trimmed, upper case).
    Unknown(Seq<char>),
}

/// The thread-dump method: `jss.threaddump.method` is `AUTO` (the default:
/// `jcmd` when `-Xrs` is used, a console break otherwise), `BREAK`,
/// `CTRL_BREAK` or `CONSOLE_BREAK` (refused with `-Xrs`), or `JCMD`.
pub open spec fn method_choice(config: &Config, args: Seq<Seq<char>>) -> MethodChoice {
    let k = upper(trim(property_or(config, "jss.threaddump.method"@, "AUTO"@)));
    if k == "AUTO"@ {
        MethodChoice::Chosen(
            if reduced_signals(args) {
                Method::Jcmd
            } else {
                Method::ConsoleBreak
            },
        )
    } else if k == "BREAK"@ || k == "CTRL_BREAK"@ || k == "CONSOLE_BREAK"@ {
        if reduced_signals(args) {
            MethodChoice::BreakWithoutSignals
        } else {
            MethodChoice::Chosen(Method::ConsoleBreak)
        }
    } else if k == "JCMD"@ {
        MethodChoice::Chosen(Method::Jcmd)
    } else {
        MethodChoice::Unknown(k)
    }
}

pub fn method(config: &Config, arguments: &[String]) -> (r: Result<Method, Error>)
    ensures
        match method_choice(config, texts(arguments@)) {
            MethodChoice::Chosen(m) => r == Ok::<Method, Error>(m),
            MethodChoice::BreakWithoutSignals => r matches Err(Error::DiagnosticUnavailable(m)) && m@
                == "the JVM was launched with -Xrs, which disables Windows CTRL_BREAK thread dumps; remove -Xrs or use AUTO/JCMD with the matching JDK diagnostic tool"@,
            MethodChoice::Unknown(k) => r matches Err(Error::Config(m)) && m@
                == "jss.threaddump.method must be AUTO, BREAK, or JCMD; found "@ + k,
        },
{
    let cs = chars_of(config.get_or("jss.threaddump.method", "AUTO"));
    if is_keyword(&cs, "AUTO") {
        if has_reduced_signal_usage(arguments) {
            Ok(Method::Jcmd)
        } else {
            Ok(Method::ConsoleBreak)
        }
    } else if is_keyword(&cs, "BREAK") || is_keyword(&cs, "CTRL_BREAK") || is_keyword(&cs, "CONSOLE_BREAK") {
        if has_reduced_signal_usage(arguments) {
            Err(Error::DiagnosticUnavailable(owned("the JVM was launched with -Xrs, which disables Windows CTRL_BREAK thread dumps; remove -Xrs or use AUTO/JCMD with the matching JDK diagnostic tool")))
        } else {
            Ok(Method::ConsoleBreak)
        }
    } else if is_keyword(&cs, "JCMD") {
        Ok(Method::Jcmd)
    } else {
        let k = crate::text::keyword(&cs);
        let mut m = chars_of("jss.threaddump.method must be AUTO, BREAK, or JCMD; found ");
        crate::text::append(&mut m, &k);
        Err(Error::Config(crate::text::string_of(&m)))
    }
}

/// Seconds allowed for a `jcmd` thread dump: `jss.threaddump.timeout`, at
/// least one.
pub fn thread_dump_timeout(config: &Config) -> (r: u64)
    ensures
        ({
            let t = crate::config::u64_setting(config.property("jss.threaddump.timeout"@), 30);
            r == if t >= 1 {
                t
            } else {
                1
            }
        }),
{
    let t = config.get_u64("jss.threaddump.timeout", 30);
    if t >= 1 {
        t
    } else {
        1
    }
}

} // verus!
