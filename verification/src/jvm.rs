//! Java command construction, main-class resolution and the display of a
//! command line with its secrets redacted. Looking into JAR files and class
//! directories is left to the caller, which reports what it found.
use vstd::prelude::*;

use crate::config::{bool_setting, resolved_path, u64_setting, Config};
use crate::error::{owned, Error};
use crate::syntax::{sensitive, ungroup, ungrouped};
use crate::table::{pairs, Pair};
use crate::text::{
    append, append_str, chars_eq, chars_eq_str, chars_of, decimal, decimal_chars, ends_with,
    ends_with_chars, first_index, is_whitespace, is_ws, slice, starts_with, starts_with_str,
    string_of, trim, trim_chars,
};

verus! {

/// Package of the bundled Java bridge.
pub const BRIDGE_PACKAGE: &'static str = "io.github.jayyanez.jss.bridge";

/// Class file whose presence identifies the bundled bridge on a classpath.
pub const BRIDGE_MARKER_CLASS: &'static str = "io/github/jayyanez/jss/bridge/SimpleApp.class";

/// How much of the end of a JAR file is searched for an entry name.
pub const JAR_SCAN_LIMIT: u64 = 4194304;

pub const MISSING_BRIDGE_MESSAGE: &'static str = "wrapper.java.classpath does not contain the bundled Java Service Steward bridge (wrapper.jar). Only the bundled wrapper.jar is supported; deploy it at the path named by wrapper.java.classpath.";

pub open spec fn bridge_package() -> Seq<char> {
    "io.github.jayyanez.jss.bridge"@
}

/// Simple names of the launcher classes shipped in the bridge.
pub open spec fn launcher_names() -> Seq<Seq<char>> {
    seq!["SimpleApp"@, "StartStopApp"@, "JarApp"@]
}

/// Simple names of the launcher classes shipped in the bridge.
pub fn bundled_launchers() -> (r: Vec<&'static str>)
    ensures
        r@.map_values(|s: &str| s@) == launcher_names(),
{
    let r = vec!["SimpleApp", "StartStopApp", "JarApp"];
    assert(r@.map_values(|s: &str| s@) =~= launcher_names());
    r
}

/// How `wrapper.java.mainclass` is launched.
#[derive(Debug, Clone, PartialEq, Eq)]
pub enum MainClass {
    /// One of the bundled launchers. `mapped_from` records a configured class
    /// name that was substituted because it is absent from the classpath and
    /// named like a launcher.
    Bundled { launcher: &'static str, mapped_from: Option<String> },
    /// Any other class, launched exactly as configured.
    Direct(String),
}

/// The class that a main-class choice launches.
pub open spec fn launched_name(m: MainClass) -> Seq<char> {
    match m {
        MainClass::Bundled { launcher, .. } => bridge_package() + "."@ + launcher@,
        MainClass::Direct(name) => name@,
    }
}

impl MainClass {
    pub fn launched(&self) -> (r: String)
        ensures
            r@ == launched_name(*self),
    {
        match self {
            MainClass::Bundled { launcher, .. } => {
                let mut out = chars_of(BRIDGE_PACKAGE);
                append_str(&mut out, ".");
                append_str(&mut out, launcher);
                proof {
                    reveal_strlit("io.github.jayyanez.jss.bridge");
                }
                string_of(&out)
            },
            MainClass::Direct(name) => name.clone(),
        }
    }

    pub fn requires_bridge(&self) -> (r: bool)
        ensures
            r == (*self is Bundled),
    {
        match self {
            MainClass::Bundled { .. } => true,
            MainClass::Direct(_) => false,
        }
    }
}

/// The bundled launcher named by its full class name.
pub open spec fn explicit_launcher(configured: Seq<char>) -> Option<int> {
    let p = bridge_package() + "."@;
    if !starts_with(configured, p) {
        None
    } else {
        let rest = configured.skip(p.len() as int);
        if rest == launcher_names()[0] {
            Some(0)
        } else if rest == launcher_names()[1] {
            Some(1)
        } else if rest == launcher_names()[2] {
            Some(2)
        } else {
            None
        }
    }
}

/// The part of a class name after its last dot.
pub open spec fn simple_name(c: Seq<char>) -> Seq<char>
    decreases c.len(),
{
    if c.len() == 0 {
        c
    } else if c.last() == '.' {
        Seq::empty()
    } else {
        simple_name(c.drop_last()).push(c.last())
    }
}

/// The first bundled launcher whose name ends the simple name of `c`.
pub open spec fn lookalike(c: Seq<char>) -> Option<int> {
    let s = simple_name(c);
    if ends_with(s, launcher_names()[0]) {
        Some(0)
    } else if ends_with(s, launcher_names()[1]) {
        Some(1)
    } else if ends_with(s, launcher_names()[2]) {
        Some(2)
    } else {
        None
    }
}

/// Resolution of the configured main class:
///
/// 1. a bundled launcher named explicitly is used as is;
/// 2. a class that is not on the classpath and whose simple name ends with
///    the name of a bundled launcher is replaced by that launcher;
/// 3. anything else is launched exactly as configured.
pub open spec fn resolved_main(configured: Seq<char>, present: bool, m: MainClass) -> bool {
    match explicit_launcher(configured) {
        Some(i) => m matches MainClass::Bundled { launcher, mapped_from } && launcher@
            == launcher_names()[i] && mapped_from is None,
        None => match lookalike(configured) {
            Some(i) if !present => m matches MainClass::Bundled { launcher, mapped_from }
                && launcher@ == launcher_names()[i] && (mapped_from matches Some(f) && f@ == configured),
            _ => m matches MainClass::Direct(name) && name@ == configured,
        },
    }
}

fn simple_name_of(c: &[char]) -> (r: Vec<char>)
    ensures
        r@ == simple_name(c@),
{
    let mut start: usize = c.len();
    assert(c@.take(c.len() as int) =~= c@);
    assert(c@.skip(c.len() as int) =~= Seq::<char>::empty());
    assert(c@ + Seq::<char>::empty() =~= c@);
    while start > 0 && c[start - 1] != '.'
        invariant
            start <= c.len(),
            simple_name(c@) == simple_name(c@.take(start as int)) + c@.skip(start as int),
        decreases start,
    {
        proof {
            let t = c@.take(start as int);
            assert(t.drop_last() =~= c@.take(start - 1));
            assert(t.last() == c@[start - 1]);
            assert(c@.skip(start - 1) =~= seq![c@[start - 1]] + c@.skip(start as int));
            assert(simple_name(t) == simple_name(t.drop_last()).push(t.last()));
            assert(simple_name(t.drop_last()).push(t.last()) + c@.skip(start as int) =~= simple_name(
                t.drop_last(),
            ) + c@.skip(start - 1));
        }
        start -= 1;
    }
    proof {
        let t = c@.take(start as int);
        if start > 0 {
            assert(t.last() == '.');
        } else {
            assert(t.len() == 0);
        }
        assert(simple_name(t) =~= Seq::<char>::empty());
        assert(c@.skip(start as int) =~= c@.subrange(start as int, c.len() as int));
    }
    slice(c, start, c.len())
}

proof fn lemma_launchers_distinct()
    ensures
        launcher_names()[0] != launcher_names()[1],
        launcher_names()[0] != launcher_names()[2],
        launcher_names()[1] != launcher_names()[2],
        launcher_names().len() == 3,
{
    reveal_strlit("SimpleApp");
    reveal_strlit("StartStopApp");
    reveal_strlit("JarApp");
    assert("SimpleApp"@.len() == 9);
    assert("StartStopApp"@.len() == 12);
    assert("JarApp"@.len() == 6);
}

/// Chooses how the configured main class is launched; `present` tells
/// whether the class is on the classpath.
pub fn resolve_main_class(configured: &str, present: bool) -> (r: MainClass)
    ensures
        resolved_main(configured@, present, r),
{
    let c = chars_of(configured);
    let launchers = bundled_launchers();
    let mut prefix = chars_of(BRIDGE_PACKAGE);
    append_str(&mut prefix, ".");
    proof {
        reveal_strlit("io.github.jayyanez.jss.bridge");
        reveal_strlit(".");
    }
    proof {
        lemma_launchers_distinct();
        assert(launchers@.map_values(|s: &str| s@).len() == 3);
        assert(prefix@ == bridge_package() + "."@);
    }
    if crate::text::starts_with_chars(&c, &prefix) {
        let rest = slice(&c, prefix.len(), c.len());
        assert(rest@ =~= c@.skip(prefix@.len() as int));
        assert(starts_with(c@, bridge_package() + "."@));
        let mut i: usize = 0;
        while i < launchers.len()
            invariant
                i <= launchers.len(),
                launchers@.map_values(|s: &str| s@) == launcher_names(),
                launcher_names().len() == 3,
                c@ == configured@,
                starts_with(c@, bridge_package() + "."@),
                rest@ == c@.skip((bridge_package() + "."@).len() as int),
                forall|j: int| 0 <= j < i ==> launcher_names()[j] != rest@,
            decreases launchers.len() - i,
        {
            assert(launcher_names()[i as int] == launchers@[i as int]@);
            if chars_eq_str(&rest, launchers[i]) {
                proof {
                    if i == 0 {
                        assert(explicit_launcher(c@) == Some(0int));
                    } else if i == 1 {
                        assert(explicit_launcher(c@) == Some(1int));
                    } else {
                        assert(explicit_launcher(c@) == Some(2int));
                    }
                }
                return MainClass::Bundled { launcher: launchers[i], mapped_from: None };
            }
            i += 1;
        }
        assert(rest@ != launcher_names()[0]);
        assert(rest@ != launcher_names()[1]);
        assert(rest@ != launcher_names()[2]);
    }
    let simple = simple_name_of(&c);
    let mut k: usize = 0;
    while k < launchers.len()
        invariant
            k <= launchers.len(),
            launchers@.map_values(|s: &str| s@) == launcher_names(),
            launcher_names().len() == 3,
            c@ == configured@,
            simple@ == simple_name(c@),
            forall|j: int| 0 <= j < k ==> !ends_with(simple@, #[trigger] launcher_names()[j]),
            explicit_launcher(c@) is None,
        decreases launchers.len() - k,
    {
        let name = chars_of(launchers[k]);
        assert(launcher_names()[k as int] == launchers@[k as int]@);
        assert(explicit_launcher(c@) is None);
        if ends_with_chars(&simple, &name) {
            proof {
                assert(ends_with(simple@, launcher_names()[k as int]));
                if k == 0 {
                    assert(lookalike(c@) == Some(0int));
                } else if k == 1 {
                    assert(!ends_with(simple@, launcher_names()[0]));
                    assert(lookalike(c@) == Some(1int));
                } else {
                    assert(!ends_with(simple@, launcher_names()[0]));
                    assert(!ends_with(simple@, launcher_names()[1]));
                    assert(lookalike(c@) == Some(2int));
                }
            }
            if present {
                return MainClass::Direct(owned(configured));
            }
            return MainClass::Bundled { launcher: launchers[k], mapped_from: Some(owned(configured)) };
        }
        k += 1;
    }
    proof {
        assert(!ends_with(simple@, launcher_names()[0]));
        assert(!ends_with(simple@, launcher_names()[1]));
        assert(!ends_with(simple@, launcher_names()[2]));
    }
    MainClass::Direct(owned(configured))
}

/// Ports and identity given to a JVM for the control channel.
#[derive(Debug, Clone)]
pub struct BackendLaunch {
    pub key: String,
    pub port: u16,
    pub jvm_port: Option<u16>,
    pub jvm_port_min: u16,
    pub jvm_port_max: u16,
    pub jvm_id: u32,
    pub service: bool,
}

/// What the caller found on the classpath: the configured main class and
/// the marker class of the bundled bridge.
#[derive(Debug, Clone, Copy, PartialEq, Eq)]
pub struct ClasspathFacts {
    pub main_class_present: bool,
    pub bridge_present: bool,
}

/// A command that launches the JVM.
#[derive(Debug, Clone)]
pub struct JvmCommand {
    pub program: String,
    pub arguments: Vec<String>,
    pub working_directory: String,
    pub environment: Vec<(String, String)>,
    /// Operator-facing note about how the main class was resolved, when the
    /// configured value was substituted.
    pub launch_note: Option<String>,
}

pub open spec fn repeat_char(c: char, n: nat) -> Seq<char> {
    Seq::new(n, |i: int| c)
}

/// Reading a fragment: the arguments finished so far, the argument being
/// read, whether one is being read, whether a quote is open, whether the
/// argument has content (possibly empty quotes), and the backslashes not yet
/// emitted.
pub type FragmentScan = (Seq<Seq<char>>, Seq<char>, bool, bool, bool, nat);

pub open spec fn fragment_start() -> FragmentScan {
    (Seq::empty(), Seq::empty(), false, false, false, 0)
}

/// One character of a fragment under Windows command-line rules: unquoted
/// whitespace separates arguments; `"` opens and closes quoting; a run of
/// backslashes before a `"` is halved, and an odd run makes the quote
/// literal; other backslashes are kept, and a run of them is content, so
/// it forms (part of) an argument.
pub open spec fn fragment_step(st: FragmentScan, c: char) -> FragmentScan {
    let (args, cur, in_arg, quoted, saw, n) = st;
    if c == '\\' {
        (args, cur, true, quoted, true, n + 1)
    } else if c == '"' {
        (
            args,
            cur + repeat_char('\\', n / 2) + if n % 2 == 1 {
                seq!['"']
            } else {
                Seq::empty()
            },
            true,
            if n % 2 == 0 {
                !quoted
            } else {
                quoted
            },
            true,
            0,
        )
    } else if is_ws(c) && !in_arg {
        st
    } else if is_ws(c) && !quoted {
        (
            if saw {
                args.push(cur + repeat_char('\\', n))
            } else {
                args
            },
            Seq::empty(),
            false,
            false,
            false,
            0,
        )
    } else {
        (args, cur + repeat_char('\\', n) + seq![c], true, quoted, true, 0)
    }
}

pub open spec fn fragment_scan(s: Seq<char>) -> FragmentScan
    decreases s.len(),
{
    if s.len() == 0 {
        fragment_start()
    } else {
        fragment_step(fragment_scan(s.drop_last()), s.last())
    }
}

/// The arguments of a configured fragment.
pub open spec fn fragment_args(s: Seq<char>) -> Seq<Seq<char>> {
    let (args, cur, in_arg, quoted, saw, n) = fragment_scan(s);
    if in_arg && saw {
        args.push(cur + repeat_char('\\', n))
    } else {
        args
    }
}

/// Splitting on whitespace: the finished words and the word being read.
pub open spec fn word_scan(s: Seq<char>) -> (Seq<Seq<char>>, Seq<char>)
    decreases s.len(),
{
    if s.len() == 0 {
        (Seq::empty(), Seq::empty())
    } else {
        let (words, cur) = word_scan(s.drop_last());
        let c = s.last();
        if is_ws(c) {
            if cur.len() > 0 {
                (words.push(cur), Seq::empty())
            } else {
                (words, cur)
            }
        } else {
            (words, cur.push(c))
        }
    }
}

/// The non-empty runs of non-whitespace characters, in order
/// (`str::split_whitespace`).
pub open spec fn whitespace_words(s: Seq<char>) -> Seq<Seq<char>> {
    let (words, cur) = word_scan(s);
    if cur.len() > 0 {
        words.push(cur)
    } else {
        words
    }
}

proof fn lemma_unquoted_scan(s: Seq<char>)
    requires
        !s.contains('"'),
    ensures
        ({
            let (args, cur, in_arg, quoted, saw, n) = fragment_scan(s);
            let (words, word) = word_scan(s);
            &&& args == words
            &&& cur + repeat_char('\\', n) == word
            &&& in_arg == (word.len() > 0)
            &&& saw == in_arg
            &&& !quoted
        }),
    decreases s.len(),
{
    if s.len() > 0 {
        let p = s.drop_last();
        assert forall|i: int| 0 <= i < p.len() implies p[i] != '"' by {
            assert(s[i] == p[i]);
        }
        lemma_unquoted_scan(p);
        let (args, cur, in_arg, quoted, saw, n) = fragment_scan(p);
        let c = s.last();
        assert(c != '"') by {
            assert(s[s.len() - 1] == c);
        }
        if c == '\\' {
            assert(repeat_char('\\', n + 1) =~= repeat_char('\\', n).push('\\'));
            assert(cur + repeat_char('\\', n + 1) =~= (cur + repeat_char('\\', n)).push('\\'));
        } else if !is_ws(c) {
            assert(repeat_char('\\', 0) =~= Seq::<char>::empty());
            assert(cur + repeat_char('\\', n) + seq![c] + repeat_char('\\', 0) =~= (cur + repeat_char(
                '\\',
                n,
            )).push(c));
        } else {
            assert(repeat_char('\\', 0) =~= Seq::<char>::empty());
            assert(Seq::<char>::empty() + repeat_char('\\', 0) =~= Seq::<char>::empty());
        }
    }
}

/// Reading `t` from the state `st`.
pub open spec fn scan_from(st: FragmentScan, t: Seq<char>) -> FragmentScan
    decreases t.len(),
{
    if t.len() == 0 {
        st
    } else {
        fragment_step(scan_from(st, t.drop_last()), t.last())
    }
}

proof fn lemma_scan_concat(st: FragmentScan, a: Seq<char>, b: Seq<char>)
    ensures
        scan_from(st, a + b) == scan_from(scan_from(st, a), b),
    decreases b.len(),
{
    if b.len() == 0 {
        assert(a + b =~= a);
    } else {
        assert((a + b).drop_last() =~= a + b.drop_last());
        assert((a + b).last() == b.last());
        lemma_scan_concat(st, a, b.drop_last());
    }
}

proof fn lemma_scan_from_start(s: Seq<char>)
    ensures
        fragment_scan(s) == scan_from(fragment_start(), s),
    decreases s.len(),
{
    if s.len() > 0 {
        lemma_scan_from_start(s.drop_last());
    }
}

/// Inside quotes, text without quotes is taken as it is, whitespace
/// included; backslashes wait to see whether a quote follows.
proof fn lemma_quoted_text(args: Seq<Seq<char>>, x: Seq<char>)
    requires
        !x.contains('"'),
    ensures
        ({
            let (a2, cur, in_arg, quoted, saw, n) = scan_from((args, Seq::empty(), true, true, true, 0), x);
            &&& a2 == args && in_arg && quoted && saw
            &&& cur + repeat_char('\\', n) == x
            &&& (x.len() == 0 || x.last() != '\\') ==> n == 0
        }),
    decreases x.len(),
{
    if x.len() > 0 {
        let p = x.drop_last();
        assert forall|i: int| 0 <= i < p.len() implies p[i] != '"' by {
            assert(x[i] == p[i]);
        }
        lemma_quoted_text(args, p);
        let (a2, cur, in_arg, quoted, saw, n) = scan_from((args, Seq::empty(), true, true, true, 0), p);
        let c = x.last();
        assert(c != '"') by {
            assert(x[x.len() - 1] == c);
        }
        if c == '\\' {
            assert(repeat_char('\\', n + 1) =~= repeat_char('\\', n).push('\\'));
            assert(cur + repeat_char('\\', n + 1) =~= (cur + repeat_char('\\', n)).push('\\'));
        } else {
            assert(repeat_char('\\', 0) =~= Seq::<char>::empty());
            assert(cur + repeat_char('\\', n) + seq![c] + repeat_char('\\', 0) =~= (cur + repeat_char(
                '\\',
                n,
            )).push(c));
        }
    } else {
        assert(Seq::<char>::empty() + repeat_char('\\', 0) =~= Seq::<char>::empty());
    }
}

/// Outside quotes, a word without whitespace or quotes is read as it is.
proof fn lemma_plain_word(args: Seq<Seq<char>>, y: Seq<char>)
    requires
        !y.contains('"'),
        forall|i: int| 0 <= i < y.len() ==> !is_ws(#[trigger] y[i]),
    ensures
        ({
            let (a2, cur, in_arg, quoted, saw, n) = scan_from((args, Seq::empty(), false, false, false, 0), y);
            &&& a2 == args && !quoted
            &&& in_arg == (y.len() > 0) && saw == (y.len() > 0)
            &&& cur + repeat_char('\\', n) == y
        }),
    decreases y.len(),
{
    if y.len() > 0 {
        let p = y.drop_last();
        assert forall|i: int| 0 <= i < p.len() implies p[i] != '"' by {
            assert(y[i] == p[i]);
        }
        assert forall|i: int| 0 <= i < p.len() implies !is_ws(#[trigger] p[i]) by {
            assert(y[i] == p[i]);
        }
        lemma_plain_word(args, p);
        let (a2, cur, in_arg, quoted, saw, n) = scan_from((args, Seq::empty(), false, false, false, 0), p);
        let c = y.last();
        assert(c != '"' && !is_ws(c)) by {
            assert(y[y.len() - 1] == c);
        }
        if c == '\\' {
            assert(repeat_char('\\', n + 1) =~= repeat_char('\\', n).push('\\'));
            assert(cur + repeat_char('\\', n + 1) =~= (cur + repeat_char('\\', n)).push('\\'));
        } else {
            assert(repeat_char('\\', 0) =~= Seq::<char>::empty());
            assert(cur + repeat_char('\\', n) + seq![c] + repeat_char('\\', 0) =~= (cur + repeat_char(
                '\\',
                n,
            )).push(c));
        }
    } else {
        assert(Seq::<char>::empty() + repeat_char('\\', 0) =~= Seq::<char>::empty());
    }
}

/// An unescaped quote opens a group and the next one closes it: a quoted
/// text `x` (no quotes, not ending in a backslash, which would escape the
/// closing quote) followed by a space and a plain word `y` gives exactly the
/// two arguments `x`, with its spaces, and `y`.
pub proof fn lemma_quoted_group_then_word(x: Seq<char>, y: Seq<char>)
    requires
        !x.contains('"'),
        x.len() == 0 || x.last() != '\\',
        !y.contains('"'),
        y.len() > 0,
        forall|i: int| 0 <= i < y.len() ==> !is_ws(#[trigger] y[i]),
    ensures
        fragment_args(seq!['"'] + x + seq!['"', ' '] + y) == seq![x, y],
{
    let open = seq!['"'];
    let close = seq!['"', ' '];
    let s = open + x + close + y;
    lemma_scan_from_start(s);
    lemma_scan_concat(fragment_start(), open + x + close, y);
    lemma_scan_concat(fragment_start(), open + x, close);
    lemma_scan_concat(fragment_start(), open, x);
    let st0 = fragment_start();
    assert(open.drop_last() =~= Seq::<char>::empty());
    assert(open.last() == '"');
    assert(scan_from(st0, Seq::<char>::empty()) == st0);
    assert(scan_from(st0, open) == fragment_step(scan_from(st0, open.drop_last()), open.last()));
    assert(scan_from(st0, open) == fragment_step(st0, '"'));
    assert(repeat_char('\\', 0) =~= Seq::<char>::empty());
    let st1 = scan_from(st0, open);
    assert(st1 == (Seq::<Seq<char>>::empty(), Seq::<char>::empty(), true, true, true, 0nat)) by {
        assert(Seq::<char>::empty() + repeat_char('\\', 0) + Seq::<char>::empty() =~= Seq::<char>::empty());
    }
    lemma_quoted_text(Seq::empty(), x);
    let st2 = scan_from(st1, x);
    let (a2, cur2, i2, q2, s2, n2) = st2;
    assert(n2 == 0);
    assert(cur2 =~= x) by {
        assert(cur2 + repeat_char('\\', 0) =~= cur2);
    }
    assert(close.drop_last() =~= seq!['"']);
    assert(seq!['"'].drop_last() =~= Seq::<char>::empty());
    let st3 = fragment_step(st2, '"');
    assert(st3 == (Seq::<Seq<char>>::empty(), x, true, false, true, 0nat)) by {
        assert(cur2 + repeat_char('\\', 0) + Seq::<char>::empty() =~= x);
    }
    assert(is_ws(' '));
    let st4 = fragment_step(st3, ' ');
    assert(st4 == (seq![x], Seq::<char>::empty(), false, false, false, 0nat)) by {
        assert(x + repeat_char('\\', 0) =~= x);
        assert(Seq::<Seq<char>>::empty().push(x) =~= seq![x]);
    }
    let quote = seq!['"'];
    assert(quote.last() == '"');
    assert(close.last() == ' ');
    assert(scan_from(st2, Seq::<char>::empty()) == st2);
    assert(scan_from(st2, quote) == fragment_step(scan_from(st2, quote.drop_last()), quote.last()));
    assert(scan_from(st2, quote) == st3);
    assert(scan_from(st2, close) == fragment_step(scan_from(st2, close.drop_last()), close.last()));
    assert(scan_from(st2, close) == st4);
    lemma_plain_word(seq![x], y);
    let (a5, cur5, i5, q5, s5, n5) = scan_from(st4, y);
    assert(seq![x].push(cur5 + repeat_char('\\', n5)) =~= seq![x, y]);
}

/// A fragment without quotes splits exactly on whitespace: backslashes are
/// ordinary characters there.
pub proof fn lemma_unquoted_fragment_splits_on_whitespace(s: Seq<char>)
    requires
        !s.contains('"'),
    ensures
        fragment_args(s) == whitespace_words(s),
{
    lemma_unquoted_scan(s);
}

pub open spec fn texts(v: Seq<String>) -> Seq<Seq<char>> {
    v.map_values(|s: String| s@)
}

fn push_repeated(out: &mut Vec<char>, c: char, n: usize)
    ensures
        final(out)@ == old(out)@ + repeat_char(c, n as nat),
{
    let ghost start = out@;
    let mut i: usize = 0;
    while i < n
        invariant
            i <= n,
            out@ == start + repeat_char(c, i as nat),
        decreases n - i,
    {
        out.push(c);
        assert(out@ =~= start + repeat_char(c, (i + 1) as nat));
        i += 1;
    }
}

/// Splits one configured argument fragment as a Windows command line is
/// split: unquoted spaces separate arguments and grouping quotes do not
/// become part of the values.
pub fn parse_legacy_windows_fragment(fragment: &str) -> (r: Vec<String>)
    ensures
        texts(r@) == fragment_args(fragment@),
{
    let cs = chars_of(fragment);
    let mut args: Vec<String> = Vec::new();
    let mut cur: Vec<char> = Vec::new();
    let mut in_arg = false;
    let mut quoted = false;
    let mut saw = false;
    let mut n: usize = 0;
    let mut i: usize = 0;
    assert(cs@.take(0) =~= Seq::<char>::empty());
    while i < cs.len()
        invariant
            i <= cs.len(),
            cs@ == fragment@,
            n <= i,
            (texts(args@), cur@, in_arg, quoted, saw, n as nat) == fragment_scan(cs@.take(i as int)),
        decreases cs.len() - i,
    {
        proof {
            assert(cs@.take(i + 1).drop_last() =~= cs@.take(i as int));
            assert(cs@.take(i + 1).last() == cs@[i as int]);
        }
        let c = cs[i];
        if c == '\\' {
            in_arg = true;
            saw = true;
            n += 1;
        } else if c == '"' {
            push_repeated(&mut cur, '\\', n / 2);
            if n % 2 == 1 {
                cur.push('"');
            } else {
                quoted = !quoted;
                assert(cur@ =~= cur@ + Seq::<char>::empty());
            }
            in_arg = true;
            saw = true;
            n = 0;
        } else if is_whitespace(c) && !in_arg {
        } else if is_whitespace(c) && !quoted {
            push_repeated(&mut cur, '\\', n);
            if saw {
                let ghost before = args@;
                args.push(string_of(&cur));
                assert(texts(args@) =~= texts(before).push(cur@));
            }
            cur = Vec::new();
            in_arg = false;
            quoted = false;
            saw = false;
            n = 0;
        } else {
            push_repeated(&mut cur, '\\', n);
            cur.push(c);
            in_arg = true;
            saw = true;
            n = 0;
        }
        i += 1;
    }
    assert(cs@.take(cs.len() as int) =~= cs@);
    if in_arg && saw {
        push_repeated(&mut cur, '\\', n);
        let ghost before = args@;
        args.push(string_of(&cur));
        assert(texts(args@) =~= texts(before).push(cur@));
    }
    args
}

/// An argument for display: `-Dname=value` with a sensitive name shows
/// `<redacted>` for the value.
pub open spec fn redacted_argument(a: Seq<char>) -> Seq<char> {
    let prefix_len: int = if starts_with(a, "-D"@) {
        2
    } else {
        0
    };
    let property = a.skip(prefix_len);
    match first_index(property, '=') {
        None => a,
        Some(i) => if sensitive(property.take(i)) {
            a.take(prefix_len) + property.take(i) + "=<redacted>"@
        } else {
            a
        },
    }
}

pub fn redact_command_argument(argument: &str) -> (r: String)
    ensures
        r@ == redacted_argument(argument@),
{
    let a = chars_of(argument);
    let prefix_len: usize = if starts_with_str(&a, "-D") {
        2
    } else {
        0
    };
    proof {
        reveal_strlit("-D");
    }
    let property = slice(&a, prefix_len, a.len());
    assert(property@ =~= a@.skip(prefix_len as int));
    match crate::text::find_char(&property, '=') {
        None => {
            proof {
                crate::syntax::lemma_first_index_is(property@, '=', property.len() as int);
            }
            owned(argument)
        },
        Some(i) => {
            proof {
                crate::syntax::lemma_first_index_is(property@, '=', i as int);
            }
            let name = slice(&property, 0, i);
            assert(name@ =~= property@.take(i as int));
            if crate::syntax::is_sensitive_chars(&name) {
                let mut out = slice(&a, 0, prefix_len);
                assert(out@ =~= a@.take(prefix_len as int));
                append(&mut out, &name);
                append_str(&mut out, "=<redacted>");
                string_of(&out)
            } else {
                owned(argument)
            }
        },
    }
}

/// `"` escaped as `\"`.
pub open spec fn escaped_quotes(s: Seq<char>) -> Seq<char>
    decreases s.len(),
{
    if s.len() == 0 {
        s
    } else {
        escaped_quotes(s.drop_last()) + if s.last() == '"' {
            seq!['\\', '"']
        } else {
            seq![s.last()]
        }
    }
}

/// An argument for display: quoted when it is empty or holds whitespace.
pub open spec fn displayed_argument(a: Seq<char>) -> Seq<char> {
    if a.len() == 0 || exists|i: int| 0 <= i < a.len() && is_ws(#[trigger] a[i]) {
        seq!['"'] + escaped_quotes(a) + seq!['"']
    } else {
        a
    }
}

pub fn quote_for_display(argument: &str) -> (r: String)
    ensures
        r@ == displayed_argument(argument@),
{
    let a = chars_of(argument);
    let mut spaced = false;
    let mut i: usize = 0;
    while i < a.len()
        invariant
            i <= a.len(),
            a@ == argument@,
            spaced == exists|j: int| 0 <= j < i && is_ws(#[trigger] a@[j]),
        decreases a.len() - i,
    {
        if is_whitespace(a[i]) {
            spaced = true;
        }
        i += 1;
    }
    if a.len() > 0 && !spaced {
        return owned(argument);
    }
    let mut out: Vec<char> = Vec::new();
    out.push('"');
    let mut k: usize = 0;
    assert(a@.take(0) =~= Seq::<char>::empty());
    while k < a.len()
        invariant
            k <= a.len(),
            out@ == seq!['"'] + escaped_quotes(a@.take(k as int)),
        decreases a.len() - k,
    {
        proof {
            assert(a@.take(k + 1).drop_last() =~= a@.take(k as int));
            assert(a@.take(k + 1).last() == a@[k as int]);
        }
        let ghost before = out@;
        if a[k] == '"' {
            out.push('\\');
            out.push('"');
            assert(out@ =~= before + seq!['\\', '"']);
        } else {
            out.push(a[k]);
            assert(out@ =~= before + seq![a@[k as int]]);
        }
        k += 1;
    }
    assert(a@.take(a.len() as int) =~= a@);
    out.push('"');
    string_of(&out)
}

/// Texts joined by a separator.
pub open spec fn joined_with(parts: Seq<Seq<char>>, sep: Seq<char>) -> Seq<char>
    decreases parts.len(),
{
    if parts.len() == 0 {
        Seq::empty()
    } else if parts.len() == 1 {
        parts[0]
    } else {
        joined_with(parts.drop_last(), sep) + sep + parts.last()
    }
}

fn join_texts(parts: &Vec<String>, sep: &str) -> (r: String)
    ensures
        r@ == joined_with(texts(parts@), sep@),
{
    let ghost ps = texts(parts@);
    let mut out: Vec<char> = Vec::new();
    let mut i: usize = 0;
    assert(ps.take(0) =~= Seq::<Seq<char>>::empty());
    while i < parts.len()
        invariant
            i <= parts.len(),
            ps == texts(parts@),
            out@ == joined_with(ps.take(i as int), sep@),
        decreases parts.len() - i,
    {
        proof {
            assert(ps.take(i + 1).drop_last() =~= ps.take(i as int));
            assert(ps.take(i + 1).last() == ps[i as int]);
        }
        if i > 0 {
            append_str(&mut out, sep);
        }
        append_str(&mut out, parts[i].as_str());
        proof {
            if i == 0 {
                assert(out@ =~= ps.take(1)[0]);
            }
        }
        i += 1;
    }
    assert(ps.take(parts.len() as int) =~= ps);
    string_of(&out)
}

impl JvmCommand {
    /// The command line for the log: every argument redacted, then quoted
    /// where needed, joined by spaces. The program is quoted, not redacted.
    pub fn redacted_command_line(&self) -> (r: String)
        ensures
            r@ == joined_with(
                seq![displayed_argument(self.program@)] + texts(self.arguments@).map_values(
                    |a: Seq<char>| displayed_argument(redacted_argument(a)),
                ),
                " "@,
            ),
    {
        let mut parts: Vec<String> = Vec::new();
        parts.push(quote_for_display(self.program.as_str()));
        let mut i: usize = 0;
        let ghost args = texts(self.arguments@);
        while i < self.arguments.len()
            invariant
                i <= self.arguments.len(),
                args == texts(self.arguments@),
                texts(parts@) == seq![displayed_argument(self.program@)] + args.take(
                    i as int,
                ).map_values(|a: Seq<char>| displayed_argument(redacted_argument(a))),
            decreases self.arguments.len() - i,
        {
            let redacted = redact_command_argument(self.arguments[i].as_str());
            let shown = quote_for_display(redacted.as_str());
            let ghost before = parts@;
            parts.push(shown);
            proof {
                assert(args.take(i + 1) =~= args.take(i as int).push(args[i as int]));
                assert(texts(parts@) =~= texts(before).push(shown@));
                assert(args.take(i + 1).map_values(|a: Seq<char>| displayed_argument(redacted_argument(a)))
                    =~= args.take(i as int).map_values(
                    |a: Seq<char>| displayed_argument(redacted_argument(a)),
                ).push(displayed_argument(redacted_argument(args[i as int]))));
            }
            i += 1;
        }
        assert(args.take(self.arguments.len() as int) =~= args);
        join_texts(&parts, " ")
    }

    /// A one-line description that holds no argument values.
    pub fn redacted_summary(&self) -> (r: String)
        ensures
            r@ == self.program@ + " ("@ + decimal(self.arguments@.len()) + " arguments; working directory "@
                + self.working_directory@ + ")"@,
    {
        let mut out = chars_of(self.program.as_str());
        append_str(&mut out, " (");
        let count = decimal_chars(self.arguments.len() as u64);
        append(&mut out, &count);
        append_str(&mut out, " arguments; working directory ");
        append_str(&mut out, self.working_directory.as_str());
        append_str(&mut out, ")");
        string_of(&out)
    }
}


/// What the configured main class resolves to: whether it is a bundled
/// launcher, the class launched, and whether a configured class was
/// substituted.
pub open spec fn main_choice(configured: Seq<char>, present: bool) -> (bool, Seq<char>, bool) {
    match explicit_launcher(configured) {
        Some(i) => (true, bridge_package() + "."@ + launcher_names()[i], false),
        None => match lookalike(configured) {
            Some(i) if !present => (true, bridge_package() + "."@ + launcher_names()[i], true),
            _ => (false, configured, false),
        },
    }
}

proof fn lemma_main_choice(configured: Seq<char>, present: bool, m: MainClass)
    requires
        resolved_main(configured, present, m),
    ensures
        main_choice(configured, present).0 == (m is Bundled),
        main_choice(configured, present).1 == launched_name(m),
        main_choice(configured, present).2 == (m matches MainClass::Bundled { mapped_from: Some(_), .. }),
{
}

/// The main class configured: `wrapper.java.mainclass` (default `Main`)
/// without grouping quotes, trimmed.
pub open spec fn configured_main(config: &Config) -> Seq<char> {
    trim(ungrouped(crate::logging::property_or(config, "wrapper.java.mainclass"@, "Main"@)))
}

pub fn configured_main_class(config: &Config) -> (r: String)
    ensures
        r@ == configured_main(config),
{
    let v = chars_of(config.get_or("wrapper.java.mainclass", "Main"));
    let u = ungroup(&v);
    let t = trim_chars(&u);
    string_of(&t)
}

/// The Java program: as configured when it is absolute or a bare name (left
/// to the search path), otherwise resolved from the executable's directory.
pub open spec fn program_path(config: &Config, configured: Seq<char>) -> Seq<char> {
    let c = ungrouped(trim(configured));
    if crate::paths::absolute(c) || crate::paths::parent_of(c) is None || crate::paths::parent_of(c)
        == Some(Seq::<char>::empty()) {
        c
    } else {
        resolved_path(config.directory(), c)
    }
}

fn resolve_java_command(config: &Config, configured: &str) -> (r: String)
    ensures
        r@ == program_path(config, configured@),
{
    let cs = chars_of(configured);
    let t = trim_chars(&cs);
    let u = ungroup(&t);
    let c = string_of(&u);
    if crate::paths::is_absolute(c.as_str()) {
        return c;
    }
    match crate::paths::parent(c.as_str()) {
        None => c,
        Some(p) => {
            if p.as_str().is_empty() {
                assert(p@ =~= Seq::<char>::empty());
                c
            } else {
                config.resolve_path(c.as_str())
            }
        },
    }
}

/// The non-empty entries of a numbered path list, resolved.
pub open spec fn resolved_entries(config: &Config, values: Seq<(u32, Seq<char>)>) -> Seq<Seq<char>>
    decreases values.len(),
{
    if values.len() == 0 {
        Seq::empty()
    } else {
        let prev = resolved_entries(config, values.drop_last());
        let v = ungrouped(trim(values.last().1));
        if v.len() == 0 {
            prev
        } else {
            prev.push(resolved_path(config.directory(), v))
        }
    }
}

/// The paths listed by `prefix.1`, `prefix.2`, ...: empty entries skipped,
/// the others resolved from the executable's directory.
pub fn resolved_paths(config: &Config, prefix: &str) -> (r: Vec<String>)
    ensures
        texts(r@) == resolved_entries(config, config.numbered_entries(prefix@)),
{
    let values = config.numbered(prefix);
    let ghost vs = values@.map_values(|e: (u32, String)| (e.0, e.1@));
    let mut out: Vec<String> = Vec::new();
    let mut i: usize = 0;
    assert(vs.take(0) =~= Seq::<(u32, Seq<char>)>::empty());
    while i < values.len()
        invariant
            i <= values.len(),
            vs == values@.map_values(|e: (u32, String)| (e.0, e.1@)),
            texts(out@) == resolved_entries(config, vs.take(i as int)),
        decreases values.len() - i,
    {
        proof {
            assert(vs.take(i + 1).drop_last() =~= vs.take(i as int));
            assert(vs.take(i + 1).last() == vs[i as int]);
        }
        let cs = chars_of(values[i].1.as_str());
        let t = trim_chars(&cs);
        let u = ungroup(&t);
        if u.len() > 0 {
            let v = string_of(&u);
            let resolved = config.resolve_path(v.as_str());
            let ghost before = out@;
            out.push(resolved);
            assert(texts(out@) =~= texts(before).push(resolved@));
        }
        i += 1;
    }
    assert(vs.take(values.len() as int) =~= vs);
    out
}

/// Paths joined by the platform's list separator (`;` on Windows).
pub fn joined_paths(paths: &Vec<String>, list_separator: char) -> (r: String)
    ensures
        r@ == joined_with(texts(paths@), seq![list_separator]),
{
    let mut sep: Vec<char> = Vec::new();
    sep.push(list_separator);
    let sep_text = string_of(&sep);
    join_texts(paths, sep_text.as_str())
}

/// The arguments of the fragments of a numbered sequence, in order.
pub open spec fn fragments_of(values: Seq<(u32, Seq<char>)>) -> Seq<Seq<char>>
    decreases values.len(),
{
    if values.len() == 0 {
        Seq::empty()
    } else {
        fragments_of(values.drop_last()) + fragment_args(values.last().1)
    }
}

fn append_texts(out: &mut Vec<String>, more: Vec<String>)
    ensures
        texts(final(out)@) == texts(old(out)@) + texts(more@),
{
    let ghost start = texts(out@);
    let mut i: usize = 0;
    let mut more = more;
    let ghost m = texts(more@);
    let mut rest: Vec<String> = Vec::new();
    while more.len() > 0
        invariant
            m.len() == more@.len() + rest@.len(),
            texts(more@) == m.take(more@.len() as int),
            texts(rest@) == m.skip(more@.len() as int).reverse(),
        decreases more.len(),
    {
        let ghost before_more = more@;
        let ghost before_rest = rest@;
        let x = more.pop().unwrap();
        rest.push(x);
        proof {
            assert(texts(more@) =~= texts(before_more).drop_last());
            assert(m.take(more@.len() as int) =~= m.take(before_more.len() as int).drop_last());
            assert(texts(rest@) =~= texts(before_rest).push(x@));
            assert(m.skip(more@.len() as int).reverse() =~= m.skip(before_more.len() as int).reverse().push(
                m[more@.len() as int],
            ));
            assert(m[more@.len() as int] == m.take(before_more.len() as int).last());
        }
    }
    assert(m.skip(0) =~= m);
    while rest.len() > 0
        invariant
            texts(out@) == start + m.take(m.len() - rest@.len()),
            texts(rest@) == m.skip(m.len() - rest@.len()).reverse(),
            rest@.len() <= m.len(),
        decreases rest.len(),
    {
        let ghost before_rest = rest@;
        let ghost before_out = out@;
        let x = rest.pop().unwrap();
        out.push(x);
        proof {
            let k = m.len() - before_rest.len();
            assert(texts(rest@) =~= texts(before_rest).drop_last());
            assert(texts(before_rest).last() == x@);
            assert(m.skip(k).reverse().last() == m[k]);
            assert(m.skip(k + 1).reverse() =~= m.skip(k).reverse().drop_last());
            assert(texts(out@) =~= texts(before_out).push(x@));
            assert(m.take(k + 1) =~= m.take(k).push(m[k]));
        }
    }
    assert(m.take(m.len() as int) =~= m);
}

fn fragment_arguments(config: &Config, prefix: &str) -> (r: Vec<String>)
    ensures
        texts(r@) == fragments_of(config.numbered_entries(prefix@)),
{
    let values = config.numbered(prefix);
    let ghost vs = values@.map_values(|e: (u32, String)| (e.0, e.1@));
    let mut out: Vec<String> = Vec::new();
    let mut i: usize = 0;
    assert(vs.take(0) =~= Seq::<(u32, Seq<char>)>::empty());
    while i < values.len()
        invariant
            i <= values.len(),
            vs == values@.map_values(|e: (u32, String)| (e.0, e.1@)),
            texts(out@) == fragments_of(vs.take(i as int)),
        decreases values.len() - i,
    {
        proof {
            assert(vs.take(i + 1).drop_last() =~= vs.take(i as int));
            assert(vs.take(i + 1).last() == vs[i as int]);
        }
        let parts = parse_legacy_windows_fragment(values[i].1.as_str());
        append_texts(&mut out, parts);
        i += 1;
    }
    assert(vs.take(values.len() as int) =~= vs);
    out
}

/// `-Xms` and `-Xmx` from `wrapper.java.initmemory` and
/// `wrapper.java.maxmemory` (megabytes; 0 leaves the JVM's default). The
/// maximum is raised to the initial size when it is smaller.
pub open spec fn memory_args(init: u64, max: u64) -> Seq<Seq<char>> {
    let floor: int = if init >= 1 {
        init as int
    } else {
        1
    };
    (if init > 0 {
        seq!["-Xms"@ + decimal(init as nat) + "m"@]
    } else {
        Seq::empty()
    }) + (if max > 0 {
        seq![
            "-Xmx"@ + decimal(
                (if max >= floor {
                    max as int
                } else {
                    floor
                }) as nat,
            ) + "m"@,
        ]
    } else {
        Seq::empty()
    })
}

fn numbered_text(prefix: &str, n: u64, suffix: &str) -> (r: String)
    ensures
        r@ == prefix@ + decimal(n as nat) + suffix@,
{
    let mut out = chars_of(prefix);
    let d = decimal_chars(n);
    append(&mut out, &d);
    append_str(&mut out, suffix);
    string_of(&out)
}

fn text_with(prefix: &str, value: &str) -> (r: String)
    ensures
        r@ == prefix@ + value@,
{
    let mut out = chars_of(prefix);
    append_str(&mut out, value);
    string_of(&out)
}

/// The system properties that tell the bridge how to reach the service host.
pub open spec fn backend_args(b: BackendLaunch) -> Seq<Seq<char>> {
    seq!["-Dwrapper.key="@ + b.key@, "-Dwrapper.port="@ + decimal(b.port as nat)] + (match b.jvm_port {
        Some(p) => seq!["-Dwrapper.jvm.port="@ + decimal(p as nat)],
        None => Seq::empty(),
    }) + seq![
        "-Dwrapper.jvm.port.min="@ + decimal(b.jvm_port_min as nat),
        "-Dwrapper.jvm.port.max="@ + decimal(b.jvm_port_max as nat),
    ]
}

/// `-D<name>=TRUE` when the boolean property is set.
pub open spec fn flag_arg(config: &Config, name: Seq<char>) -> Seq<Seq<char>> {
    if bool_setting(config.property(name), false) {
        seq!["-D"@ + name + "=TRUE"@]
    } else {
        Seq::empty()
    }
}

/// The settings passed on to the bridge as system properties.
pub open spec fn setting_args(config: &Config, b: BackendLaunch, pid: u32) -> Seq<Seq<char>> {
    (if bool_setting(config.property("wrapper.debug"@), false) {
        seq!["-Dwrapper.debug=TRUE"@]
    } else {
        Seq::empty()
    }) + flag_arg(config, "wrapper.disable_console_input"@) + flag_arg(
        config,
        "wrapper.listener.force_stop"@,
    ) + seq!["-Dwrapper.pid="@ + decimal(pid as nat)] + (if bool_setting(
        config.property("wrapper.use_system_time"@),
        false,
    ) {
        seq!["-Dwrapper.use_system_time=TRUE"@]
    } else {
        Seq::empty()
    }) + (if b.service {
        seq!["-Dwrapper.service=TRUE"@]
    } else {
        Seq::empty()
    }) + flag_arg(config, "wrapper.disable_shutdown_hook"@) + seq![
        "-Dwrapper.jvmid="@ + decimal(b.jvm_id as nat),
        "-Djss.version="@ + crate::PRODUCT_VERSION@,
    ]
}

/// `-Djava.library.path` and `-classpath`, each when its list is not empty.
pub open spec fn path_args(config: &Config, sep: char) -> Seq<Seq<char>> {
    let library = joined_with(
        resolved_entries(config, config.numbered_entries("wrapper.java.library.path"@)),
        seq![sep],
    );
    let classpath = joined_with(
        resolved_entries(config, config.numbered_entries("wrapper.java.classpath"@)),
        seq![sep],
    );
    (if library.len() > 0 {
        seq!["-Djava.library.path="@ + library]
    } else {
        Seq::empty()
    }) + (if classpath.len() > 0 {
        seq!["-classpath"@, classpath]
    } else {
        Seq::empty()
    })
}

/// The arguments of the JVM, in order.
pub open spec fn command_arguments(
    config: &Config,
    b: BackendLaunch,
    application_args: Seq<Seq<char>>,
    pid: u32,
    launched: Seq<char>,
    sep: char,
) -> Seq<Seq<char>> {
    fragments_of(config.numbered_entries("wrapper.java.additional"@)) + memory_args(
        u64_setting(config.property("wrapper.java.initmemory"@), 0),
        u64_setting(config.property("wrapper.java.maxmemory"@), 0),
    ) + path_args(config, sep) + backend_args(b) + setting_args(config, b, pid) + seq![launched]
        + fragments_of(config.numbered_entries("wrapper.app.parameter"@)) + application_args
}

fn push_flag(config: &Config, args: &mut Vec<String>, name: &str)
    ensures
        texts(final(args)@) == texts(old(args)@) + flag_arg(config, name@),
{
    let ghost before = args@;
    if config.get_bool(name, false) {
        let mut out = chars_of("-D");
        append_str(&mut out, name);
        append_str(&mut out, "=TRUE");
        let s = string_of(&out);
        args.push(s);
        assert(texts(args@) =~= texts(before) + seq![s@]);
    } else {
        assert(texts(args@) =~= texts(before) + Seq::<Seq<char>>::empty());
    }
}

fn push_text(args: &mut Vec<String>, s: String)
    ensures
        texts(final(args)@) == texts(old(args)@) + seq![s@],
{
    let ghost before = args@;
    args.push(s);
    assert(texts(args@) =~= texts(before) + seq![s@]);
}

fn push_if(args: &mut Vec<String>, condition: bool, s: &str)
    ensures
        texts(final(args)@) == texts(old(args)@) + if condition {
            seq![s@]
        } else {
            Seq::<Seq<char>>::empty()
        },
{
    if condition {
        push_text(args, owned(s));
    } else {
        assert(texts(args@) =~= texts(args@) + Seq::<Seq<char>>::empty());
    }
}

impl JvmCommand {
    /// Builds the command that launches the JVM for `backend`, with the
    /// process id `pid`, the caller's classpath findings `facts`, and the
    /// platform's path-list separator. Fails when `wrapper.java.command` is
    /// missing or blank, and when a bundled launcher is chosen but the bridge
    /// is not on the classpath.
    pub fn build(
        config: &Config,
        backend: &BackendLaunch,
        application_args: &[String],
        pid: u32,
        facts: ClasspathFacts,
        list_separator: char,
    ) -> (r: Result<JvmCommand, Error>)
        ensures
            match config.property("wrapper.java.command"@) {
                Some(java) if trim(java).len() > 0 => {
                    let main = main_choice(configured_main(config), facts.main_class_present);
                    if main.0 && !facts.bridge_present {
                        r matches Err(Error::Config(m)) && m@ == MISSING_BRIDGE_MESSAGE@
                    } else {
                        r matches Ok(c) && {
                            &&& c.program@ == program_path(config, java)
                            &&& texts(c.arguments@) == command_arguments(
                                config,
                                *backend,
                                texts(application_args@),
                                pid,
                                main.1,
                                list_separator,
                            )
                            &&& c.working_directory@ == match config.property("wrapper.working.dir"@) {
                                Some(w) => resolved_path(config.directory(), w),
                                None => config.directory(),
                            }
                            &&& pairs(c.environment@) == config.environment_entries()
                            &&& if main.2 {
                                c.launch_note matches Some(n) && n@ == "Main class "@ + configured_main(
                                    config,
                                ) + " is not on the classpath; launching the bundled "@ + main.1
                                    + " instead."@
                            } else {
                                c.launch_note is None
                            }
                        }
                    }
                },
                _ => r matches Err(Error::Config(m)) && m@ == "missing required property wrapper.java.command"@,
            },
    {
        let java = match config.required("wrapper.java.command") {
            Ok(v) => v,
            Err(e) => {
                proof {
                    reveal_strlit("missing required property ");
                    reveal_strlit("wrapper.java.command");
                    reveal_strlit("missing required property wrapper.java.command");
                    assert("missing required property "@ + "wrapper.java.command"@
                        =~= "missing required property wrapper.java.command"@);
                }
                return Err(e);
            },
        };
        let program = resolve_java_command(config, java);
        let configured = configured_main_class(config);
        let main_class = resolve_main_class(configured.as_str(), facts.main_class_present);
        proof {
            lemma_main_choice(configured@, facts.main_class_present, main_class);
        }
        if main_class.requires_bridge() && !facts.bridge_present {
            return Err(Error::Config(owned(MISSING_BRIDGE_MESSAGE)));
        }
        let launched = main_class.launched();
        let launch_note = match &main_class {
            MainClass::Bundled { mapped_from: Some(configured_name), .. } => {
                let mut note = chars_of("Main class ");
                append_str(&mut note, configured_name.as_str());
                append_str(&mut note, " is not on the classpath; launching the bundled ");
                append_str(&mut note, launched.as_str());
                append_str(&mut note, " instead.");
                Some(string_of(&note))
            },
            _ => None,
        };
        let arguments = jvm_arguments(config, backend, application_args, pid, launched, list_separator);
        let working_directory = match config.get("wrapper.working.dir") {
            Some(w) => config.resolve_path(w),
            None => owned(config.executable_directory()),
        };
        let environment = copy_table(config.environment());
        Ok(JvmCommand { program, arguments, working_directory, environment, launch_note })
    }
}

/// The arguments before the bridge settings: JVM options, memory sizes,
/// library path and classpath.
fn leading_arguments(config: &Config, list_separator: char) -> (r: Vec<String>)
    ensures
        texts(r@) == fragments_of(config.numbered_entries("wrapper.java.additional"@)) + memory_args(
            u64_setting(config.property("wrapper.java.initmemory"@), 0),
            u64_setting(config.property("wrapper.java.maxmemory"@), 0),
        ) + path_args(config, list_separator),
{
    let mut arguments = fragment_arguments(config, "wrapper.java.additional");
    let ghost a1 = texts(arguments@);
    let init_memory = config.get_u64("wrapper.java.initmemory", 0);
    let max_memory = config.get_u64("wrapper.java.maxmemory", 0);
    let floor = if init_memory >= 1 {
        init_memory
    } else {
        1
    };
    push_if_text(&mut arguments, init_memory > 0, "-Xms", init_memory, "m");
    let top = if max_memory >= floor {
        max_memory
    } else {
        floor
    };
    push_if_text(&mut arguments, max_memory > 0, "-Xmx", top, "m");
    proof {
        assert(texts(arguments@) =~= a1 + memory_args(init_memory, max_memory));
    }
    let ghost a2 = texts(arguments@);
    let library_entries = resolved_paths(config, "wrapper.java.library.path");
    let library_path = joined_paths(&library_entries, list_separator);
    if !library_path.as_str().is_empty() {
        push_text(&mut arguments, text_with("-Djava.library.path=", library_path.as_str()));
    }
    let classpath_entries = resolved_paths(config, "wrapper.java.classpath");
    let classpath = joined_paths(&classpath_entries, list_separator);
    if !classpath.as_str().is_empty() {
        push_text(&mut arguments, owned("-classpath"));
        push_text(&mut arguments, classpath);
    }
    proof {
        assert(texts(arguments@) =~= a2 + path_args(config, list_separator));
    }
    arguments
}

fn number_text(prefix: &str, n: u64) -> (r: String)
    ensures
        r@ == prefix@ + decimal(n as nat),
{
    let mut out = chars_of(prefix);
    let d = decimal_chars(n);
    append(&mut out, &d);
    string_of(&out)
}

/// The channel settings of the bridge.
fn channel_arguments(backend: &BackendLaunch) -> (r: Vec<String>)
    ensures
        texts(r@) == backend_args(*backend),
{
    let mut arguments: Vec<String> = Vec::new();
    push_text(&mut arguments, text_with("-Dwrapper.key=", backend.key.as_str()));
    push_text(&mut arguments, number_text("-Dwrapper.port=", backend.port as u64));
    let ghost a = texts(arguments@);
    match backend.jvm_port {
        Some(port) => push_text(&mut arguments, number_text("-Dwrapper.jvm.port=", port as u64)),
        None => {},
    }
    let ghost b = texts(arguments@);
    push_text(&mut arguments, number_text("-Dwrapper.jvm.port.min=", backend.jvm_port_min as u64));
    push_text(&mut arguments, number_text("-Dwrapper.jvm.port.max=", backend.jvm_port_max as u64));
    proof {
        assert(b =~= a + match backend.jvm_port {
            Some(p) => seq!["-Dwrapper.jvm.port="@ + decimal(p as nat)],
            None => Seq::<Seq<char>>::empty(),
        });
        assert(texts(arguments@) =~= backend_args(*backend));
    }
    arguments
}

/// The settings copied to the bridge.
fn setting_arguments(config: &Config, backend: &BackendLaunch, pid: u32) -> (r: Vec<String>)
    ensures
        texts(r@) == setting_args(config, *backend, pid),
{
    let mut arguments: Vec<String> = Vec::new();
    push_if(&mut arguments, config.get_bool("wrapper.debug", false), "-Dwrapper.debug=TRUE");
    push_flag(config, &mut arguments, "wrapper.disable_console_input");
    push_flag(config, &mut arguments, "wrapper.listener.force_stop");
    push_text(&mut arguments, number_text("-Dwrapper.pid=", pid as u64));
    push_if(
        &mut arguments,
        config.get_bool("wrapper.use_system_time", false),
        "-Dwrapper.use_system_time=TRUE",
    );
    push_if(&mut arguments, backend.service, "-Dwrapper.service=TRUE");
    push_flag(config, &mut arguments, "wrapper.disable_shutdown_hook");
    push_text(&mut arguments, number_text("-Dwrapper.jvmid=", backend.jvm_id as u64));
    push_text(&mut arguments, text_with("-Djss.version=", crate::PRODUCT_VERSION));
    proof {
        assert(texts(arguments@) =~= setting_args(config, *backend, pid));
    }
    arguments
}

/// All the arguments of the JVM.
fn jvm_arguments(
    config: &Config,
    backend: &BackendLaunch,
    application_args: &[String],
    pid: u32,
    launched: String,
    list_separator: char,
) -> (r: Vec<String>)
    ensures
        texts(r@) == command_arguments(
            config,
            *backend,
            texts(application_args@),
            pid,
            launched@,
            list_separator,
        ),
{
    let mut arguments = leading_arguments(config, list_separator);
    let channel = channel_arguments(backend);
    append_texts(&mut arguments, channel);
    let settings = setting_arguments(config, backend, pid);
    append_texts(&mut arguments, settings);
    let ghost l = launched@;
    push_text(&mut arguments, launched);
    let parameters = fragment_arguments(config, "wrapper.app.parameter");
    append_texts(&mut arguments, parameters);
    let mut k: usize = 0;
    let ghost a7 = texts(arguments@);
    while k < application_args.len()
        invariant
            k <= application_args.len(),
            texts(arguments@) == a7 + texts(application_args@).take(k as int),
        decreases application_args.len() - k,
    {
        let ghost before = arguments@;
        arguments.push(application_args[k].clone());
        proof {
            assert(texts(application_args@).take(k + 1) =~= texts(application_args@).take(k as int).push(
                application_args@[k as int]@,
            ));
            assert(texts(arguments@) =~= texts(before).push(application_args@[k as int]@));
        }
        k += 1;
    }
    proof {
        assert(texts(application_args@).take(application_args.len() as int) =~= texts(application_args@));
        assert(texts(arguments@) =~= command_arguments(
            config,
            *backend,
            texts(application_args@),
            pid,
            l,
            list_separator,
        ));
    }
    arguments
}

fn push_if_text(args: &mut Vec<String>, condition: bool, prefix: &str, n: u64, suffix: &str)
    ensures
        texts(final(args)@) == texts(old(args)@) + if condition {
            seq![prefix@ + decimal(n as nat) + suffix@]
        } else {
            Seq::<Seq<char>>::empty()
        },
{
    if condition {
        push_text(args, numbered_text(prefix, n, suffix));
    } else {
        assert(texts(args@) =~= texts(args@) + Seq::<Seq<char>>::empty());
    }
}

fn copy_table(t: &Vec<(String, String)>) -> (r: Vec<(String, String)>)
    ensures
        pairs(r@) == pairs(t@),
{
    let mut out: Vec<(String, String)> = Vec::new();
    let mut i: usize = 0;
    while i < t.len()
        invariant
            i <= t.len(),
            pairs(out@) == pairs(t@).take(i as int),
        decreases t.len() - i,
    {
        let ghost before = out@;
        out.push((t[i].0.clone(), t[i].1.clone()));
        proof {
            assert(pairs(out@) =~= pairs(before).push((t@[i as int].0@, t@[i as int].1@)));
            assert(pairs(t@).take(i + 1) =~= pairs(t@).take(i as int).push(pairs(t@)[i as int]));
        }
        i += 1;
    }
    assert(pairs(t@).take(t.len() as int) =~= pairs(t@));
    out
}

/// The name of a class file inside a classpath entry: the dotted class name
/// with dots turned into slashes, then `.class`.
pub open spec fn class_entry(class_name: Seq<char>) -> Seq<char> {
    class_name.map_values(|c: char| if c == '.' {
        '/'
    } else {
        c
    }) + ".class"@
}

pub fn class_entry_name(class_name: &str) -> (r: String)
    ensures
        r@ == class_entry(class_name@),
{
    let cs = chars_of(class_name);
    let mut out: Vec<char> = Vec::new();
    let mut i: usize = 0;
    while i < cs.len()
        invariant
            i <= cs.len(),
            cs@ == class_name@,
            out@ == cs@.take(i as int).map_values(|c: char| if c == '.' {
                '/'
            } else {
                c
            }),
        decreases cs.len() - i,
    {
        out.push(if cs[i] == '.' {
            '/'
        } else {
            cs[i]
        });
        assert(cs@.take(i + 1) =~= cs@.take(i as int).push(cs@[i as int]));
        assert(out@ =~= cs@.take(i + 1).map_values(|c: char| if c == '.' {
            '/'
        } else {
            c
        }));
        i += 1;
    }
    assert(cs@.take(cs.len() as int) =~= cs@);
    append_str(&mut out, ".class");
    string_of(&out)
}

/// A path whose extension is `jar`, in any ASCII case.
pub fn is_jar(path: &str) -> (r: bool)
    ensures
        r == (crate::paths::extension_of(path@) matches Some(e) && crate::text::lower(e) == "jar"@),
{
    match crate::paths::extension(path) {
        Some(e) => {
            let cs = chars_of(e.as_str());
            let l = crate::text::to_lower(&cs);
            chars_eq_str(&l, "jar")
        },
        None => false,
    }
}

/// The part of a JAR of `length` bytes that is searched for an entry name:
/// its last `JAR_SCAN_LIMIT` bytes at most, where the central directory is.
pub fn jar_scan_window(length: u64) -> (r: (u64, u64))
    ensures
        r.1 == if length <= JAR_SCAN_LIMIT {
            length
        } else {
            JAR_SCAN_LIMIT
        },
        r.0 == length - r.1,
{
    let scan = if length <= JAR_SCAN_LIMIT {
        length
    } else {
        JAR_SCAN_LIMIT
    };
    (length - scan, scan)
}

/// Whether the searched part of a JAR holds the entry name.
pub fn jar_tail_contains(bytes: &[u8], entry: &str) -> (r: bool)
    requires
        entry@.len() > 0,
    ensures
        r == crate::text::contains_seq(bytes@, vstd::utf8::encode_utf8(entry@)),
{
    let needle = crate::text::bytes_of(entry);
    crate::filter::contains_bytes(bytes, &needle)
}

} // verus!
