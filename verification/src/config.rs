//! `wrapper.conf` loading: environment definitions and expansion, numbered
//! sequences, command-line overrides, warnings for unsupported properties,
//! and the typed readers that the rest of the library uses.
//!
//! Reading files is left to the caller: a [`Loader`] is fed the decoded
//! lines of each file and answers with the include it needs next.
use vstd::prelude::*;

use crate::error::{owned, Error};
use crate::syntax::{
    expand_chars, expanded, hash_decoded, include_directive, normalize_environment_name,
    parse_include, property_split, sensitive, split_property, ungrouped, unicode_upper,
    IncludeKind,
};
use crate::table::{insert, lookup, pairs, table_map, well_formed, Pair};
use crate::text::{
    append, append_str, chars_eq, chars_eq_str, chars_of, decimal, decimal_chars, lower, parse_u32,
    parse_u32_spec, parse_u64, parse_u64_spec, slice, starts_with, starts_with_str, string_of, trim,
    trim_chars, to_lower,
};

verus! {

pub const MAX_INCLUDE_DEPTH: usize = 10;

#[derive(Debug, Clone, Copy, PartialEq, Eq, Structural)]
pub enum WarningLevel {
    Info,
    Warn,
}

#[derive(Debug, Clone, PartialEq, Eq)]
pub struct Warning {
    pub level: WarningLevel,
    pub message: String,
}

pub type WarningModel = (WarningLevel, Seq<char>);

pub open spec fn warning_models(ws: Seq<Warning>) -> Seq<WarningModel> {
    ws.map_values(|w: Warning| (w.level, w.message@))
}

impl Warning {
    pub fn warn(message: String) -> (r: Warning)
        ensures
            r.level == WarningLevel::Warn,
            r.message == message,
    {
        Warning { level: WarningLevel::Warn, message }
    }

    pub fn info(message: String) -> (r: Warning)
        ensures
            r.level == WarningLevel::Info,
            r.message == message,
    {
        Warning { level: WarningLevel::Info, message }
    }
}

/// Project extensions.
pub open spec fn supported_jss() -> Seq<Seq<char>> {
    seq![
        "jss.threaddump.method"@,
        "jss.threaddump.timeout"@,
        "jss.heapdump.control_code"@,
        "jss.heapdump.directory"@,
        "jss.heapdump.timeout"@,
        "jss.java.job_object"@,
    ]
}

/// Families of numbered properties, each followed by an index.
pub open spec fn supported_numbered_prefixes() -> Seq<Seq<char>> {
    seq![
        "wrapper.java.additional."@,
        "wrapper.java.classpath."@,
        "wrapper.java.library.path."@,
        "wrapper.app.parameter."@,
        "wrapper.filter.trigger."@,
        "wrapper.filter.action."@,
        "wrapper.filter.allow_wildcards."@,
        "wrapper.filter.message."@,
        "wrapper.on_exit."@,
        "wrapper.ntservice.dependency."@,
    ]
}

/// Families accepted without a warning per property, because they belong to
/// features this project deliberately does not implement.
pub open spec fn ignored_prefixes() -> Seq<Seq<char>> {
    seq!["wrapper.license."@]
}

pub open spec fn supported_wrapper() -> Seq<Seq<char>> {
    seq![
        "wrapper.java.command"@,
        "wrapper.java.mainclass"@,
        "wrapper.java.additional.auto_bits"@,
        "wrapper.java.initmemory"@,
        "wrapper.java.maxmemory"@,
        "wrapper.java.command.loglevel"@,
        "wrapper.debug"@,
        "wrapper.ignore_sequence_gaps"@,
        "wrapper.pidfile"@,
        "wrapper.pidfile.strict"@,
        "wrapper.java.pidfile"@,
        "wrapper.java.idfile"@,
        "wrapper.working.dir"@,
        "wrapper.port"@,
        "wrapper.port.min"@,
        "wrapper.port.max"@,
        "wrapper.jvm.port"@,
        "wrapper.jvm.port.min"@,
        "wrapper.jvm.port.max"@,
        "wrapper.native_library"@,
        "wrapper.disable_console_input"@,
        "wrapper.listener.force_stop"@,
        "wrapper.use_system_time"@,
        "wrapper.disable_shutdown_hook"@,
        "wrapper.cpu.timeout"@,
        "wrapper.startup.timeout"@,
        "wrapper.startup.delay"@,
        "wrapper.startup.delay.console"@,
        "wrapper.startup.delay.service"@,
        "wrapper.shutdown.timeout"@,
        "wrapper.request_thread_dump_on_failed_jvm_exit"@,
        "wrapper.request_thread_dump_on_failed_jvm_exit.delay"@,
        "wrapper.ping.interval"@,
        "wrapper.ping.timeout"@,
        "wrapper.restart.delay"@,
        "wrapper.disable_restarts"@,
        "wrapper.disable_restarts.automatic"@,
        "wrapper.max_failed_invocations"@,
        "wrapper.successful_invocation_time"@,
        "wrapper.logfile"@,
        "wrapper.logfile.format"@,
        "wrapper.logfile.loglevel"@,
        "wrapper.logfile.rollmode"@,
        "wrapper.logfile.maxfiles"@,
        "wrapper.logfile.maxsize"@,
        "wrapper.console.format"@,
        "wrapper.console.loglevel"@,
        "wrapper.console.flush"@,
        "wrapper.console.title"@,
        "wrapper.console.title.windows"@,
        "wrapper.internal.namedpipe"@,
        "wrapper.syslog.loglevel"@,
        "wrapper.thread_dump_control_code"@,
        "wrapper.pausable"@,
        "wrapper.pausable.stop_jvm"@,
        "wrapper.ntservice.generate_console"@,
        "wrapper.ntservice.name"@,
        "wrapper.ntservice.displayname"@,
        "wrapper.ntservice.description"@,
        "wrapper.ntservice.pausable"@,
        "wrapper.ntservice.pausable.stop_jvm"@,
        "wrapper.ntservice.starttype"@,
        "wrapper.ntservice.account"@,
        "wrapper.ntservice.password"@,
        "wrapper.ntservice.interactive"@,
        "wrapper.pause_on_startup"@,
    ]
}

pub open spec fn texts(v: Seq<&str>) -> Seq<Seq<char>> {
    v.map_values(|s: &str| s@)
}

/// Project extensions; every entry is documented in the help text.
pub fn supported_jss_properties() -> (r: Vec<&'static str>)
    ensures
        texts(r@) == supported_jss(),
{
    let r = vec![
        "jss.threaddump.method",
        "jss.threaddump.timeout",
        "jss.heapdump.control_code",
        "jss.heapdump.directory",
        "jss.heapdump.timeout",
        "jss.java.job_object",
    ];
    assert(texts(r@) =~= supported_jss());
    r
}

/// Prefixes of the supported numbered property families.
pub fn supported_numbered_wrapper_property_prefixes() -> (r: Vec<&'static str>)
    ensures
        texts(r@) == supported_numbered_prefixes(),
{
    let r = vec![
        "wrapper.java.additional.",
        "wrapper.java.classpath.",
        "wrapper.java.library.path.",
        "wrapper.app.parameter.",
        "wrapper.filter.trigger.",
        "wrapper.filter.action.",
        "wrapper.filter.allow_wildcards.",
        "wrapper.filter.message.",
        "wrapper.on_exit.",
        "wrapper.ntservice.dependency.",
    ];
    assert(texts(r@) =~= supported_numbered_prefixes());
    r
}

/// Prefixes of the families that are accepted and ignored.
pub fn ignored_wrapper_property_prefixes() -> (r: Vec<&'static str>)
    ensures
        texts(r@) == ignored_prefixes(),
{
    let r = vec!["wrapper.license."];
    assert(texts(r@) =~= ignored_prefixes());
    r
}

/// The supported `wrapper.*` properties that are not numbered.
pub fn supported_wrapper_properties() -> (r: Vec<&'static str>)
    ensures
        texts(r@) == supported_wrapper(),
{
    let r = vec![
        "wrapper.java.command",
        "wrapper.java.mainclass",
        "wrapper.java.additional.auto_bits",
        "wrapper.java.initmemory",
        "wrapper.java.maxmemory",
        "wrapper.java.command.loglevel",
        "wrapper.debug",
        "wrapper.ignore_sequence_gaps",
        "wrapper.pidfile",
        "wrapper.pidfile.strict",
        "wrapper.java.pidfile",
        "wrapper.java.idfile",
        "wrapper.working.dir",
        "wrapper.port",
        "wrapper.port.min",
        "wrapper.port.max",
        "wrapper.jvm.port",
        "wrapper.jvm.port.min",
        "wrapper.jvm.port.max",
        "wrapper.native_library",
        "wrapper.disable_console_input",
        "wrapper.listener.force_stop",
        "wrapper.use_system_time",
        "wrapper.disable_shutdown_hook",
        "wrapper.cpu.timeout",
        "wrapper.startup.timeout",
        "wrapper.startup.delay",
        "wrapper.startup.delay.console",
        "wrapper.startup.delay.service",
        "wrapper.shutdown.timeout",
        "wrapper.request_thread_dump_on_failed_jvm_exit",
        "wrapper.request_thread_dump_on_failed_jvm_exit.delay",
        "wrapper.ping.interval",
        "wrapper.ping.timeout",
        "wrapper.restart.delay",
        "wrapper.disable_restarts",
        "wrapper.disable_restarts.automatic",
        "wrapper.max_failed_invocations",
        "wrapper.successful_invocation_time",
        "wrapper.logfile",
        "wrapper.logfile.format",
        "wrapper.logfile.loglevel",
        "wrapper.logfile.rollmode",
        "wrapper.logfile.maxfiles",
        "wrapper.logfile.maxsize",
        "wrapper.console.format",
        "wrapper.console.loglevel",
        "wrapper.console.flush",
        "wrapper.console.title",
        "wrapper.console.title.windows",
        "wrapper.internal.namedpipe",
        "wrapper.syslog.loglevel",
        "wrapper.thread_dump_control_code",
        "wrapper.pausable",
        "wrapper.pausable.stop_jvm",
        "wrapper.ntservice.generate_console",
        "wrapper.ntservice.name",
        "wrapper.ntservice.displayname",
        "wrapper.ntservice.description",
        "wrapper.ntservice.pausable",
        "wrapper.ntservice.pausable.stop_jvm",
        "wrapper.ntservice.starttype",
        "wrapper.ntservice.account",
        "wrapper.ntservice.password",
        "wrapper.ntservice.interactive",
        "wrapper.pause_on_startup",
    ];
    assert(texts(r@) =~= supported_wrapper());
    r
}

/// Whether some text of the list begins `name`.
pub open spec fn has_prefix_in(name: Seq<char>, prefixes: Seq<Seq<char>>) -> bool {
    exists|i: int| 0 <= i < prefixes.len() && starts_with(name, #[trigger] prefixes[i])
}

pub open spec fn supported_wrapper_name(name: Seq<char>) -> bool {
    has_prefix_in(name, supported_numbered_prefixes()) || supported_wrapper().contains(name)
}

fn any_prefix(name: &[char], prefixes: &Vec<&'static str>) -> (r: bool)
    ensures
        r == has_prefix_in(name@, texts(prefixes@)),
{
    let mut i: usize = 0;
    while i < prefixes.len()
        invariant
            i <= prefixes.len(),
            forall|j: int| 0 <= j < i ==> !starts_with(name@, #[trigger] texts(prefixes@)[j]),
        decreases prefixes.len() - i,
    {
        if starts_with_str(name, prefixes[i]) {
            assert(texts(prefixes@)[i as int] == prefixes@[i as int]@);
            return true;
        }
        assert(texts(prefixes@)[i as int] == prefixes@[i as int]@);
        i += 1;
    }
    false
}

fn listed(name: &[char], list: &Vec<&'static str>) -> (r: bool)
    ensures
        r == texts(list@).contains(name@),
{
    let mut i: usize = 0;
    while i < list.len()
        invariant
            i <= list.len(),
            forall|j: int| 0 <= j < i ==> texts(list@)[j] != name@,
        decreases list.len() - i,
    {
        if chars_eq_str(name, list[i]) {
            assert(texts(list@)[i as int] == name@);
            return true;
        }
        assert(texts(list@)[i as int] == list@[i as int]@);
        i += 1;
    }
    false
}

/// Whether a `wrapper.*` name is a supported property.
pub fn is_supported_wrapper_property(name: &[char]) -> (r: bool)
    ensures
        r == supported_wrapper_name(name@),
{
    let prefixes = supported_numbered_wrapper_property_prefixes();
    if any_prefix(name, &prefixes) {
        return true;
    }
    let list = supported_wrapper_properties();
    listed(name, &list)
}

/// The warning, if any, that a property name earns: unknown `jss.*`
/// extensions and unknown `wrapper.*` properties outside an ignored family.
pub open spec fn property_warning(name: Seq<char>) -> Option<WarningModel> {
    if starts_with(name, "jss."@) && !supported_jss().contains(name) {
        Some(
            (
                WarningLevel::Warn,
                "the property "@ + name
                    + " is not a known Java Service Steward extension and will be ignored"@,
            ),
        )
    } else if !starts_with(name, "wrapper."@) || supported_wrapper_name(name) {
        None
    } else if has_prefix_in(name, ignored_prefixes()) {
        None
    } else {
        Some((WarningLevel::Warn, "the property "@ + name + " is not implemented and will be ignored"@))
    }
}

/// The warnings for a sequence of properties, in order.
pub open spec fn property_warnings(t: Seq<Pair>) -> Seq<WarningModel>
    decreases t.len(),
{
    if t.len() == 0 {
        Seq::empty()
    } else {
        property_warnings(t.drop_last()) + match property_warning(t.last().0) {
            Some(w) => seq![w],
            None => Seq::empty(),
        }
    }
}

/// Some property belongs to the accepted-and-ignored family `prefix`.
pub open spec fn family_used(t: Seq<Pair>, prefix: Seq<char>) -> bool {
    exists|i: int|
        0 <= i < t.len() && {
            let n = #[trigger] t[i].0;
            &&& !(starts_with(n, "jss."@) && !supported_jss().contains(n))
            &&& starts_with(n, "wrapper."@)
            &&& !supported_wrapper_name(n)
            &&& starts_with(n, prefix)
        }
}

/// One informational notice per ignored family in use.
pub open spec fn family_notes(t: Seq<Pair>, prefixes: Seq<Seq<char>>) -> Seq<WarningModel>
    decreases prefixes.len(),
{
    if prefixes.len() == 0 {
        Seq::empty()
    } else {
        family_notes(t, prefixes.drop_last()) + if family_used(t, prefixes.last()) {
            seq![(WarningLevel::Info, prefixes.last() + "* properties are accepted and ignored"@)]
        } else {
            Seq::empty()
        }
    }
}

/// Whether the name earns its own warning or counts towards an ignored
/// family: what `property_warning` and `family_used` test first.
pub open spec fn unsupported_wrapper_name(n: Seq<char>) -> bool {
    &&& !(starts_with(n, "jss."@) && !supported_jss().contains(n))
    &&& starts_with(n, "wrapper."@)
    &&& !supported_wrapper_name(n)
}

proof fn lemma_family_used_step(t: Seq<Pair>, prefix: Seq<char>, i: int)
    requires
        0 <= i < t.len(),
    ensures
        family_used(t.take(i + 1), prefix) == (family_used(t.take(i), prefix) || (
        unsupported_wrapper_name(t[i].0) && starts_with(t[i].0, prefix))),
{
    let a = t.take(i + 1);
    let b = t.take(i);
    if family_used(a, prefix) {
        let k = choose|k: int|
            0 <= k < a.len() && {
                let n = #[trigger] a[k].0;
                &&& !(starts_with(n, "jss."@) && !supported_jss().contains(n))
                &&& starts_with(n, "wrapper."@)
                &&& !supported_wrapper_name(n)
                &&& starts_with(n, prefix)
            };
        if k < i {
            assert(b[k] == a[k]);
        }
    }
    if family_used(b, prefix) {
        let k = choose|k: int|
            0 <= k < b.len() && {
                let n = #[trigger] b[k].0;
                &&& !(starts_with(n, "jss."@) && !supported_jss().contains(n))
                &&& starts_with(n, "wrapper."@)
                &&& !supported_wrapper_name(n)
                &&& starts_with(n, prefix)
            };
        assert(a[k] == b[k]);
    }
    if unsupported_wrapper_name(t[i].0) && starts_with(t[i].0, prefix) {
        assert(a[i] == t[i]);
    }
}

/// The warnings that loading reports for the properties of `props`: one per
/// unknown `jss.*` extension or unknown `wrapper.*` property, in name order,
/// then one notice per accepted-and-ignored family in use.
pub fn unsupported_property_warnings(props: &[(String, String)]) -> (r: Vec<Warning>)
    ensures
        warning_models(r@) == property_warnings(pairs(props@)) + family_notes(
            pairs(props@),
            ignored_prefixes(),
        ),
{
    let ghost t = pairs(props@);
    let jss = supported_jss_properties();
    let ignored = ignored_wrapper_property_prefixes();
    let mut used: Vec<bool> = Vec::new();
    let mut j: usize = 0;
    while j < ignored.len()
        invariant
            j <= ignored.len(),
            used@.len() == j,
            forall|k: int| 0 <= k < j ==> !used@[k],
        decreases ignored.len() - j,
    {
        used.push(false);
        j += 1;
    }
    let mut out: Vec<Warning> = Vec::new();
    let mut i: usize = 0;
    assert(t.take(0) =~= Seq::<Pair>::empty());
    while i < props.len()
        invariant
            i <= props.len(),
            t == pairs(props@),
            texts(jss@) == supported_jss(),
            texts(ignored@) == ignored_prefixes(),
            used@.len() == ignored@.len(),
            forall|k: int| 0 <= k < used@.len() ==> #[trigger] used@[k] == family_used(t.take(i as int), texts(ignored@)[k]),
            warning_models(out@) == property_warnings(t.take(i as int)),
        decreases props.len() - i,
    {
        let name = chars_of(props[i].0.as_str());
        let ghost before = out@;
        proof {
            assert(t.take(i + 1).drop_last() =~= t.take(i as int));
            assert(t.take(i + 1).last() == t[i as int]);
            assert(t[i as int].0 == name@);
            assert forall|k: int| 0 <= k < used@.len() implies family_used(t.take(i + 1), #[trigger] texts(ignored@)[k])
                == (family_used(t.take(i as int), texts(ignored@)[k]) || (unsupported_wrapper_name(name@) && starts_with(name@, texts(ignored@)[k]))) by {
                lemma_family_used_step(t, texts(ignored@)[k], i as int);
            }
        }
        if starts_with_str(&name, "jss.") && !listed(&name, &jss) {
            let mut m: Vec<char> = Vec::new();
            append_str(&mut m, "the property ");
            append(&mut m, &name);
            append_str(&mut m, " is not a known Java Service Steward extension and will be ignored");
            out.push(Warning::warn(string_of(&m)));
            proof {
                assert(warning_models(out@) =~= warning_models(before).push((WarningLevel::Warn, m@)));
            }
        } else if !starts_with_str(&name, "wrapper.") || is_supported_wrapper_property(&name) {
            proof {
                assert(warning_models(before) + Seq::<WarningModel>::empty() =~= warning_models(before));
            }
        } else if any_prefix(&name, &ignored) {
            let ghost used0 = used@;
            let mut k: usize = 0;
            while k < ignored.len()
                invariant
                    k <= ignored.len(),
                    used@.len() == ignored@.len(),
                    used0.len() == ignored@.len(),
                    forall|q: int| 0 <= q < k ==> #[trigger] used@[q] == (used0[q] || starts_with(name@, texts(ignored@)[q])),
                    forall|q: int| k <= q < used@.len() ==> #[trigger] used@[q] == used0[q],
                decreases ignored.len() - k,
            {
                assert(texts(ignored@)[k as int] == ignored@[k as int]@);
                if starts_with_str(&name, ignored[k]) {
                    used.set(k, true);
                }
                k += 1;
            }
            proof {
                assert(warning_models(before) + Seq::<WarningModel>::empty() =~= warning_models(before));
            }
        } else {
            let mut m: Vec<char> = Vec::new();
            append_str(&mut m, "the property ");
            append(&mut m, &name);
            append_str(&mut m, " is not implemented and will be ignored");
            out.push(Warning::warn(string_of(&m)));
            proof {
                assert(warning_models(out@) =~= warning_models(before).push((WarningLevel::Warn, m@)));
            }
        }
        i += 1;
    }
    assert(t.take(props.len() as int) =~= t);
    let mut k: usize = 0;
    assert(texts(ignored@).take(0) =~= Seq::<Seq<char>>::empty());
    assert(property_warnings(t) + Seq::<WarningModel>::empty() =~= property_warnings(t));
    while k < ignored.len()
        invariant
            k <= ignored.len(),
            t == pairs(props@),
            used@.len() == ignored@.len(),
            texts(ignored@) == ignored_prefixes(),
            forall|q: int| 0 <= q < used@.len() ==> #[trigger] used@[q] == family_used(t, texts(ignored@)[q]),
            warning_models(out@) == property_warnings(t) + family_notes(t, texts(ignored@).take(k as int)),
        decreases ignored.len() - k,
    {
        let ghost before = out@;
        proof {
            assert(texts(ignored@).take(k + 1).drop_last() =~= texts(ignored@).take(k as int));
            assert(texts(ignored@).take(k + 1).last() == texts(ignored@)[k as int]);
            assert(texts(ignored@)[k as int] == ignored@[k as int]@);
        }
        if used[k] {
            let mut m: Vec<char> = Vec::new();
            append_str(&mut m, ignored[k]);
            append_str(&mut m, "* properties are accepted and ignored");
            out.push(Warning::info(string_of(&m)));
            proof {
                assert(warning_models(out@) =~= warning_models(before).push((WarningLevel::Info, m@)));
            }
        } else {
            proof {
                assert(family_notes(t, texts(ignored@).take(k + 1)) =~= family_notes(t, texts(ignored@).take(k as int)) + Seq::<WarningModel>::empty());
            }
        }
        k += 1;
    }
    assert(texts(ignored@).take(ignored.len() as int) =~= texts(ignored@));
    out
}

/// `true`, `yes`, `1` and `on` (trimmed, any ASCII case) are true.
pub open spec fn truthy(v: Seq<char>) -> bool {
    let w = lower(trim(v));
    w == "true"@ || w == "yes"@ || w == "1"@ || w == "on"@
}

pub open spec fn bool_setting(value: Option<Seq<char>>, default: bool) -> bool {
    match value {
        Some(v) => truthy(v),
        None => default,
    }
}

pub open spec fn u64_setting(value: Option<Seq<char>>, default: u64) -> u64 {
    match value {
        Some(v) => match parse_u64_spec(trim(v)) {
            Some(n) => n,
            None => default,
        },
        None => default,
    }
}

/// Name of entry `index` of a numbered family.
pub open spec fn indexed_name(prefix: Seq<char>, index: nat) -> Seq<char> {
    prefix + "."@ + decimal(index)
}

/// The entries `prefix.index`, `prefix.index+1`, ... up to the first
/// missing one.
pub open spec fn consecutive(props: Seq<Pair>, prefix: Seq<char>, index: nat) -> Seq<(u32, Seq<char>)>
    decreases u32::MAX - index,
{
    if index > u32::MAX {
        Seq::empty()
    } else {
        match lookup(props, indexed_name(prefix, index)) {
            None => Seq::empty(),
            Some(v) => if index == u32::MAX {
                seq![(index as u32, v)]
            } else {
                seq![(index as u32, v)] + consecutive(props, prefix, index + 1)
            },
        }
    }
}

/// The index of a property of the family `prefix`, if its name is
/// `prefix.<n>` with `n` a positive `u32`.
pub open spec fn family_index(name: Seq<char>, prefix: Seq<char>) -> Option<u32> {
    let p = prefix + "."@;
    if starts_with(name, p) {
        match parse_u32_spec(name.skip(p.len() as int)) {
            Some(n) => if n > 0 {
                Some(n)
            } else {
                None
            },
            None => None,
        }
    } else {
        None
    }
}

/// The members of a family, in table order.
pub open spec fn family_members(t: Seq<Pair>, prefix: Seq<char>) -> Seq<(u32, Seq<char>)>
    decreases t.len(),
{
    if t.len() == 0 {
        Seq::empty()
    } else {
        family_members(t.drop_last(), prefix) + match family_index(t.last().0, prefix) {
            Some(n) => seq![(n, t.last().1)],
            None => Seq::empty(),
        }
    }
}

/// Number of leading entries whose index is at most `n`.
pub open spec fn insertion_point(s: Seq<(u32, Seq<char>)>, n: u32) -> int
    decreases s.len(),
{
    if s.len() == 0 {
        0
    } else if s.last().0 <= n {
        s.len() as int
    } else {
        insertion_point(s.drop_last(), n)
    }
}

/// Entries ordered by index; equal indices keep their order.
pub open spec fn by_index(s: Seq<(u32, Seq<char>)>) -> Seq<(u32, Seq<char>)>
    decreases s.len(),
{
    if s.len() == 0 {
        Seq::empty()
    } else {
        let sorted = by_index(s.drop_last());
        sorted.insert(insertion_point(sorted, s.last().0), s.last())
    }
}

/// Doubles every tab.
pub open spec fn tabs_doubled(s: Seq<char>) -> Seq<char>
    decreases s.len(),
{
    if s.len() == 0 {
        Seq::empty()
    } else {
        tabs_doubled(s.drop_last()) + if s.last() == '\t' {
            seq!['\t', '\t']
        } else {
            seq![s.last()]
        }
    }
}

/// The properties packet: `name=value` entries separated by tabs, tabs
/// doubled, sensitive names left out.
pub open spec fn encoded_properties(t: Seq<Pair>) -> Seq<char>
    decreases t.len(),
{
    if t.len() == 0 {
        Seq::empty()
    } else {
        let prev = encoded_properties(t.drop_last());
        let (n, v) = t.last();
        if sensitive(n) {
            prev
        } else {
            let item = tabs_doubled(n) + seq!['='] + tabs_doubled(v);
            if prev.len() > 0 {
                prev + seq!['\t'] + item
            } else {
                item
            }
        }
    }
}

/// A loaded configuration.
#[derive(Debug)]
pub struct Config {
    root_path: String,
    executable_directory: String,
    properties: Vec<(String, String)>,
    environment: Vec<(String, String)>,
    warnings: Vec<Warning>,
}

impl Config {
    #[verifier::type_invariant]
    spec fn inv(self) -> bool {
        well_formed(pairs(self.properties@)) && well_formed(pairs(self.environment@))
    }

    /// The properties in name order.
    pub closed spec fn entries(&self) -> Seq<Pair> {
        pairs(self.properties@)
    }

    /// The value of a property.
    pub open spec fn property(&self, name: Seq<char>) -> Option<Seq<char>> {
        lookup(self.entries(), name)
    }

    /// The numbered sequence `prefix.1`, `prefix.2`, ... as `numbered`
    /// returns it.
    pub open spec fn numbered_entries(&self, prefix: Seq<char>) -> Seq<(u32, Seq<char>)> {
        if bool_setting(self.property("wrapper.ignore_sequence_gaps"@), false) {
            by_index(family_members(self.entries(), prefix))
        } else {
            consecutive(self.entries(), prefix, 1)
        }
    }

    /// The environment for the JVM, in name order.
    pub closed spec fn environment_entries(&self) -> Seq<Pair> {
        pairs(self.environment@)
    }

    pub closed spec fn warning_list(&self) -> Seq<WarningModel> {
        warning_models(self.warnings@)
    }

    pub closed spec fn root(&self) -> Seq<char> {
        self.root_path@
    }

    pub closed spec fn directory(&self) -> Seq<char> {
        self.executable_directory@
    }

    /// A configuration made of the tables that loading produced.
    pub(crate) fn from_parts(
        root_path: String,
        executable_directory: String,
        properties: Vec<(String, String)>,
        environment: Vec<(String, String)>,
        warnings: Vec<Warning>,
    ) -> (r: Config)
        requires
            well_formed(pairs(properties@)),
            well_formed(pairs(environment@)),
        ensures
            r.root() == root_path@,
            r.directory() == executable_directory@,
            r.entries() == pairs(properties@),
            r.environment_entries() == pairs(environment@),
            r.warning_list() == warning_models(warnings@),
    {
        Config { root_path, executable_directory, properties, environment, warnings }
    }

    /// Path of the configuration file that was loaded.
    pub fn root_path(&self) -> (r: &str)
        ensures
            r@ == self.root(),
    {
        self.root_path.as_str()
    }

    /// Directory of the executable; relative paths resolve from it.
    pub fn executable_directory(&self) -> (r: &str)
        ensures
            r@ == self.directory(),
    {
        self.executable_directory.as_str()
    }

    pub fn get(&self, name: &str) -> (r: Option<&str>)
        ensures
            match self.property(name@) {
                Some(v) => r matches Some(s) && s@ == v,
                None => r is None,
            },
    {
        match crate::table::find_value(&self.properties, name) {
            Some(v) => Some(v.as_str()),
            None => None,
        }
    }

    pub fn get_or<'a>(&'a self, name: &str, default: &'a str) -> (r: &'a str)
        ensures
            r@ == match self.property(name@) {
                Some(v) => v,
                None => default@,
            },
    {
        match self.get(name) {
            Some(v) => v,
            None => default,
        }
    }

    /// A property that must be present with a non-blank value.
    pub fn required(&self, name: &str) -> (r: Result<&str, Error>)
        ensures
            match self.property(name@) {
                Some(v) if trim(v).len() > 0 => r matches Ok(s) && s@ == v,
                _ => r matches Err(Error::Config(m)) && m@ == "missing required property "@ + name@,
            },
    {
        match self.get(name) {
            Some(v) => {
                let cs = chars_of(v);
                let t = trim_chars(&cs);
                if t.len() > 0 {
                    return Ok(v);
                }
            },
            None => {},
        }
        let mut m: Vec<char> = Vec::new();
        append_str(&mut m, "missing required property ");
        append_str(&mut m, name);
        Err(Error::Config(string_of(&m)))
    }

    /// A boolean property: `true`, `yes`, `1` or `on`, case-insensitive.
    pub fn get_bool(&self, name: &str, default: bool) -> (r: bool)
        ensures
            r == bool_setting(self.property(name@), default),
    {
        match self.get(name) {
            None => default,
            Some(v) => is_truthy(v),
        }
    }

    /// An unsigned property; the default when it is absent or not a number.
    pub fn get_u64(&self, name: &str, default: u64) -> (r: u64)
        ensures
            r == u64_setting(self.property(name@), default),
    {
        match self.get(name) {
            None => default,
            Some(v) => {
                let cs = chars_of(v);
                let t = trim_chars(&cs);
                match parse_u64(&t) {
                    Some(n) => n,
                    None => default,
                }
            },
        }
    }

    /// The numbered sequence `prefix.1`, `prefix.2`, ...: it ends at the first
    /// missing index unless `wrapper.ignore_sequence_gaps` is enabled, in
    /// which case every `prefix.<n>` with `n > 0` is returned in index order.
    /// Explicitly empty entries are kept.
    pub fn numbered(&self, prefix: &str) -> (r: Vec<(u32, String)>)
        ensures
            r@.map_values(|e: (u32, String)| (e.0, e.1@)) == self.numbered_entries(prefix@),
    {
        if self.get_bool("wrapper.ignore_sequence_gaps", false) {
            let members = self.family_members_of(prefix);
            sort_by_index(members)
        } else {
            self.consecutive_from(prefix)
        }
    }

    fn consecutive_from(&self, prefix: &str) -> (r: Vec<(u32, String)>)
        ensures
            r@.map_values(|e: (u32, String)| (e.0, e.1@)) == consecutive(self.entries(), prefix@, 1),
    {
        let mut values: Vec<(u32, String)> = Vec::new();
        let mut index: u32 = 1;
        let ghost full = consecutive(self.entries(), prefix@, 1);
        loop
            invariant
                1 <= index,
                full == consecutive(self.entries(), prefix@, 1),
                full == values@.map_values(|e: (u32, String)| (e.0, e.1@)) + consecutive(
                    self.entries(),
                    prefix@,
                    index as nat,
                ),
            decreases u32::MAX - index,
        {
            let mut name: Vec<char> = chars_of(prefix);
            name.push('.');
            let digits = decimal_chars(index as u64);
            append(&mut name, &digits);
            let name_text = string_of(&name);
            proof {
                reveal_strlit(".");
                assert(name@ =~= indexed_name(prefix@, index as nat));
            }
            match self.get(name_text.as_str()) {
                None => {
                    proof {
                        assert(consecutive(self.entries(), prefix@, index as nat) =~= Seq::empty());
                        assert(full =~= values@.map_values(|e: (u32, String)| (e.0, e.1@)));
                    }
                    return values;
                },
                Some(v) => {
                    let ghost before = values@;
                    let vs = owned(v);
                    values.push((index, vs));
                    proof {
                        assert(values@.map_values(|e: (u32, String)| (e.0, e.1@)) =~= before.map_values(
                            |e: (u32, String)| (e.0, e.1@),
                        ).push((index, v@)));
                    }
                    if index == u32::MAX {
                        proof {
                            assert(consecutive(self.entries(), prefix@, index as nat) =~= seq![(index, v@)]);
                            assert(full =~= values@.map_values(|e: (u32, String)| (e.0, e.1@)));
                        }
                        return values;
                    }
                    proof {
                        assert(consecutive(self.entries(), prefix@, index as nat) == seq![(index, v@)]
                            + consecutive(self.entries(), prefix@, index as nat + 1));
                        assert(before.map_values(|e: (u32, String)| (e.0, e.1@)).push((index, v@))
                            + consecutive(self.entries(), prefix@, index as nat + 1) =~= before.map_values(
                            |e: (u32, String)| (e.0, e.1@),
                        ) + (seq![(index, v@)] + consecutive(
                            self.entries(),
                            prefix@,
                            index as nat + 1,
                        )));
                    }
                    index = index + 1;
                },
            }
        }
    }

    fn family_members_of(&self, prefix: &str) -> (r: Vec<(u32, String)>)
        ensures
            r@.map_values(|e: (u32, String)| (e.0, e.1@)) == family_members(self.entries(), prefix@),
    {
        let mut p: Vec<char> = chars_of(prefix);
        p.push('.');
        proof {
            assert(p@ =~= prefix@ + "."@) by {
                reveal_strlit(".");
            }
        }
        let mut out: Vec<(u32, String)> = Vec::new();
        let mut i: usize = 0;
        let ghost t = self.entries();
        assert(t.take(0) =~= Seq::<Pair>::empty());
        while i < self.properties.len()
            invariant
                i <= self.properties.len(),
                t == self.entries(),
                t == pairs(self.properties@),
                p@ == prefix@ + "."@,
                out@.map_values(|e: (u32, String)| (e.0, e.1@)) == family_members(t.take(i as int), prefix@),
            decreases self.properties.len() - i,
        {
            let name = chars_of(self.properties[i].0.as_str());
            let ghost before = out@;
            proof {
                assert(t.take(i + 1).drop_last() =~= t.take(i as int));
                assert(t.take(i + 1).last() == t[i as int]);
            }
            if crate::text::starts_with_chars(&name, &p) {
                let suffix = slice(&name, p.len(), name.len());
                assert(suffix@ =~= name@.skip(p@.len() as int));
                match parse_u32(&suffix) {
                    Some(n) => {
                        if n > 0 {
                            let v = self.properties[i].1.clone();
                            out.push((n, v));
                            proof {
                                assert(out@.map_values(|e: (u32, String)| (e.0, e.1@)) =~= before.map_values(
                                    |e: (u32, String)| (e.0, e.1@),
                                ) + seq![(n, t[i as int].1)]);
                            }
                        } else {
                            assert(before.map_values(|e: (u32, String)| (e.0, e.1@)) + Seq::<(u32, Seq<char>)>::empty()
                                =~= before.map_values(|e: (u32, String)| (e.0, e.1@)));
                        }
                    },
                    None => {
                        assert(before.map_values(|e: (u32, String)| (e.0, e.1@)) + Seq::<(u32, Seq<char>)>::empty()
                            =~= before.map_values(|e: (u32, String)| (e.0, e.1@)));
                    },
                }
            } else {
                assert(before.map_values(|e: (u32, String)| (e.0, e.1@)) + Seq::<(u32, Seq<char>)>::empty()
                    =~= before.map_values(|e: (u32, String)| (e.0, e.1@)));
            }
            i += 1;
        }
        assert(t.take(self.properties.len() as int) =~= t);
        out
    }

    /// All properties, in name order.
    pub fn properties(&self) -> (r: &Vec<(String, String)>)
        ensures
            pairs(r@) == self.entries(),
    {
        &self.properties
    }

    /// The environment passed to the JVM, in name order.
    pub fn environment(&self) -> (r: &Vec<(String, String)>)
        ensures
            pairs(r@) == self.environment_entries(),
    {
        &self.environment
    }

    pub fn warnings(&self) -> (r: &Vec<Warning>)
        ensures
            warning_models(r@) == self.warning_list(),
    {
        &self.warnings
    }

    /// A configured path: trimmed, grouping quotes removed, and resolved from
    /// the executable's directory unless absolute.
    pub fn resolve_path(&self, value: &str) -> (r: String)
        ensures
            r@ == resolved_path(self.directory(), value@),
    {
        let cs = chars_of(value);
        let t = trim_chars(&cs);
        let u = crate::syntax::ungroup(&t);
        let p = string_of(&u);
        if crate::paths::is_absolute(p.as_str()) {
            p
        } else {
            crate::paths::join(self.executable_directory.as_str(), p.as_str())
        }
    }

    /// Encodes the properties for the JVM: `name=value` entries separated by
    /// tabs, with literal tabs doubled. Properties whose names look sensitive
    /// are not sent.
    pub fn protocol_properties(&self) -> (r: String)
        ensures
            r@ == encoded_properties(self.entries()),
    {
        let ghost t = self.entries();
        let mut out: Vec<char> = Vec::new();
        let mut i: usize = 0;
        assert(t.take(0) =~= Seq::<Pair>::empty());
        while i < self.properties.len()
            invariant
                i <= self.properties.len(),
                t == pairs(self.properties@),
                t == self.entries(),
                out@ == encoded_properties(t.take(i as int)),
            decreases self.properties.len() - i,
        {
            proof {
                assert(t.take(i + 1).drop_last() =~= t.take(i as int));
                assert(t.take(i + 1).last() == t[i as int]);
            }
            let name = chars_of(self.properties[i].0.as_str());
            let value = chars_of(self.properties[i].1.as_str());
            if !crate::syntax::is_sensitive_chars(&name) {
                if out.len() > 0 {
                    out.push('\t');
                }
                let en = double_tabs(&name);
                append(&mut out, &en);
                out.push('=');
                let ev = double_tabs(&value);
                append(&mut out, &ev);
            }
            i += 1;
        }
        assert(t.take(self.properties.len() as int) =~= t);
        string_of(&out)
    }
}

/// A configured path resolved from `directory`.
pub open spec fn resolved_path(directory: Seq<char>, value: Seq<char>) -> Seq<char> {
    let p = ungrouped(trim(value));
    if crate::paths::absolute(p) {
        p
    } else {
        crate::paths::joined(directory, p)
    }
}

fn double_tabs(s: &[char]) -> (r: Vec<char>)
    ensures
        r@ == tabs_doubled(s@),
{
    let mut out: Vec<char> = Vec::new();
    let mut i: usize = 0;
    assert(s@.take(0) =~= Seq::<char>::empty());
    while i < s.len()
        invariant
            i <= s.len(),
            out@ == tabs_doubled(s@.take(i as int)),
        decreases s.len() - i,
    {
        proof {
            assert(s@.take(i + 1).drop_last() =~= s@.take(i as int));
        }
        if s[i] == '\t' {
            out.push('\t');
            out.push('\t');
        } else {
            out.push(s[i]);
        }
        i += 1;
    }
    assert(s@.take(s.len() as int) =~= s@);
    out
}

pub fn is_truthy(v: &str) -> (r: bool)
    ensures
        r == truthy(v@),
{
    let cs = chars_of(v);
    let t = trim_chars(&cs);
    let w = to_lower(&t);
    chars_eq_str(&w, "true") || chars_eq_str(&w, "yes") || chars_eq_str(&w, "1") || chars_eq_str(
        &w,
        "on",
    )
}

fn insertion_point_of(s: &Vec<(u32, String)>, n: u32) -> (r: usize)
    ensures
        r == insertion_point(s@.map_values(|e: (u32, String)| (e.0, e.1@)), n),
        r <= s.len(),
{
    let ghost m = s@.map_values(|e: (u32, String)| (e.0, e.1@));
    let mut k: usize = s.len();
    assert(m.take(s.len() as int) =~= m);
    while k > 0 && s[k - 1].0 > n
        invariant
            k <= s.len(),
            m == s@.map_values(|e: (u32, String)| (e.0, e.1@)),
            insertion_point(m, n) == insertion_point(m.take(k as int), n),
        decreases k,
    {
        proof {
            assert(m.take(k as int).drop_last() =~= m.take(k - 1));
        }
        k -= 1;
    }
    k
}

fn sort_by_index(members: Vec<(u32, String)>) -> (r: Vec<(u32, String)>)
    ensures
        r@.map_values(|e: (u32, String)| (e.0, e.1@)) == by_index(
            members@.map_values(|e: (u32, String)| (e.0, e.1@)),
        ),
{
    let ghost m = members@.map_values(|e: (u32, String)| (e.0, e.1@));
    let mut sorted: Vec<(u32, String)> = Vec::new();
    let mut i: usize = 0;
    assert(m.take(0) =~= Seq::<(u32, Seq<char>)>::empty());
    while i < members.len()
        invariant
            i <= members.len(),
            m == members@.map_values(|e: (u32, String)| (e.0, e.1@)),
            sorted@.map_values(|e: (u32, String)| (e.0, e.1@)) == by_index(m.take(i as int)),
        decreases members.len() - i,
    {
        proof {
            assert(m.take(i + 1).drop_last() =~= m.take(i as int));
            assert(m.take(i + 1).last() == m[i as int]);
        }
        let n = members[i].0;
        let at = insertion_point_of(&sorted, n);
        let ghost before = sorted@;
        sorted.insert(at, (n, members[i].1.clone()));
        proof {
            assert(sorted@.map_values(|e: (u32, String)| (e.0, e.1@)) =~= before.map_values(
                |e: (u32, String)| (e.0, e.1@),
            ).insert(at as int, m[i as int]));
        }
        i += 1;
    }
    assert(m.take(members.len() as int) =~= m);
    sorted
}

} // verus!
