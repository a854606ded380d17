//! The state of a configuration load. The caller reads the files: it asks
//! [`check_depth`] and [`Loader::check_cycle`] before it opens one, hands its
//! bytes to [`Loader::enter`], feeds the logical lines to
//! [`Loader::parse_line`], follows the includes that come back, and calls
//! [`Loader::leave`] at the end of each file.
use vstd::prelude::*;

use crate::codec::{decode_configuration, decoding_outcome, encoding_label};
use crate::config::{
    family_notes, ignored_prefixes, property_warnings, unsupported_property_warnings,
    warning_models, Config, Warning, WarningLevel, WarningModel, MAX_INCLUDE_DEPTH,
};
use crate::error::{owned, Error};
use crate::syntax::{
    decode_hash_chars, expand_chars, hash_decoded, include_directive, logical, logical_lines,
    normalize_environment_name, parse_include, property_split, split_property, unicode_upper,
    ungroup, ungrouped, IncludeKind,
};
use crate::table::{find_value, insert, lemma_empty_well_formed, pairs, table_map, well_formed, Pair};
use crate::text::{
    append, append_str, chars_eq, chars_of, decimal, decimal_chars, slice, starts_with,
    starts_with_str, string_of, trim, trim_chars,
};

verus! {

/// What a logical line of a configuration file is.
pub enum LineKind {
    /// Blank, a `!` line or a `#` comment.
    Skip,
    /// An include directive and its raw argument.
    Include(IncludeKind, Seq<char>),
    /// A line without `=`.
    Unparsed,
    /// A line whose name before `=` is blank.
    EmptyName,
    /// A property: its trimmed name and the raw text after `=`.
    Property(Seq<char>, Seq<char>),
}

pub open spec fn line_kind(raw: Seq<char>) -> LineKind {
    let t = trim(raw);
    if t.len() == 0 || t[0] == '!' {
        LineKind::Skip
    } else {
        match include_directive(t) {
            Some((k, a)) => LineKind::Include(k, a),
            None => if t[0] == '#' {
                LineKind::Skip
            } else {
                match property_split(t) {
                    None => LineKind::Unparsed,
                    Some((n, v)) => if n.len() == 0 {
                        LineKind::EmptyName
                    } else {
                        LineKind::Property(n, v)
                    },
                }
            },
        }
    }
}

/// The value a property line assigns: the inline comment removed, trimmed,
/// then environment references expanded.
pub open spec fn property_value(raw: Seq<char>, env: Map<Seq<char>, Seq<char>>) -> Seq<char> {
    expanded_in(trim(hash_decoded(raw)), env)
}

pub open spec fn expanded_in(v: Seq<char>, env: Map<Seq<char>, Seq<char>>) -> Seq<char> {
    crate::syntax::expanded(v, env)
}

/// The file an include directive names.
pub open spec fn include_target(argument: Seq<char>, env: Map<Seq<char>, Seq<char>>) -> Seq<char> {
    ungrouped(trim(expanded_in(argument, env)))
}

/// The environment variable a property name defines: `set.default.NAME`
/// (only when unset) or `set.NAME`, with the name in upper case.
pub open spec fn environment_target(name: Seq<char>) -> Option<(bool, Seq<char>)> {
    if starts_with(name, "set.default."@) {
        Some((true, unicode_upper(name.skip(12))))
    } else if starts_with(name, "set."@) {
        Some((false, unicode_upper(name.skip(4))))
    } else {
        None
    }
}

/// The environment after a property assignment. A variable set on the
/// command line is locked: the file cannot change it.
pub open spec fn env_after(
    env: Map<Seq<char>, Seq<char>>,
    locked: Seq<Seq<char>>,
    name: Seq<char>,
    value: Seq<char>,
) -> Map<Seq<char>, Seq<char>> {
    match environment_target(name) {
        None => env,
        Some((only_default, n)) => if locked.contains(n) || (only_default && env.contains_key(n)) {
            env
        } else {
            env.insert(n, value)
        },
    }
}

/// The process environment with names in upper case; a later entry wins.
pub open spec fn process_environment(vars: Seq<Pair>) -> Map<Seq<char>, Seq<char>>
    decreases vars.len(),
{
    if vars.len() == 0 {
        Map::empty()
    } else {
        process_environment(vars.drop_last()).insert(unicode_upper(vars.last().0), vars.last().1)
    }
}

pub open spec fn texts_of(v: Seq<String>) -> Seq<Seq<char>> {
    v.map_values(|s: String| s@)
}

/// Every override has the form `name=value`.
pub open spec fn valid_overrides(os: Seq<Seq<char>>) -> bool {
    forall|i: int| 0 <= i < os.len() ==> (#[trigger] property_split(os[i])) is Some
}

/// The error for the first override without `=`.
pub open spec fn invalid_override_error(os: Seq<Seq<char>>, e: Error) -> bool {
    exists|i: int|
        {
            &&& 0 <= i < os.len()
            &&& (#[trigger] property_split(os[i])) is None
            &&& forall|j: int| 0 <= j < i ==> (#[trigger] property_split(os[j])) is Some
            &&& e matches Error::Cli(m) && m@ == "invalid property override: "@ + os[i]
        }
}

/// The environment variables that `set.NAME=value` overrides define, taken
/// verbatim; they are locked for the rest of the load.
pub open spec fn override_environment(env: Map<Seq<char>, Seq<char>>, os: Seq<Seq<char>>) -> Map<
    Seq<char>,
    Seq<char>,
>
    decreases os.len(),
{
    if os.len() == 0 {
        env
    } else {
        let e = override_environment(env, os.drop_last());
        match property_split(os.last()) {
            Some((n, v)) => if starts_with(n, "set."@) {
                e.insert(unicode_upper(n.skip(4)), v)
            } else {
                e
            },
            None => e,
        }
    }
}

/// The names that `set.` overrides lock, in order.
pub open spec fn locked_names(os: Seq<Seq<char>>) -> Seq<Seq<char>>
    decreases os.len(),
{
    if os.len() == 0 {
        Seq::empty()
    } else {
        let l = locked_names(os.drop_last());
        match property_split(os.last()) {
            Some((n, v)) => if starts_with(n, "set."@) {
                l.push(unicode_upper(n.skip(4)))
            } else {
                l
            },
            None => l,
        }
    }
}

/// Properties and environment after the command-line overrides, applied in
/// order: each value is expanded with the environment of the moment.
pub open spec fn overridden(
    props: Map<Seq<char>, Seq<char>>,
    env: Map<Seq<char>, Seq<char>>,
    locked: Seq<Seq<char>>,
    os: Seq<Seq<char>>,
) -> (Map<Seq<char>, Seq<char>>, Map<Seq<char>, Seq<char>>)
    decreases os.len(),
{
    if os.len() == 0 {
        (props, env)
    } else {
        let (p, e) = overridden(props, env, locked, os.drop_last());
        match property_split(os.last()) {
            Some((n, raw)) => {
                let v = expanded_in(raw, e);
                (p.insert(n, v), env_after(e, locked, n, v))
            },
            None => (p, e),
        }
    }
}

/// The name of an override `name=value`.
pub open spec fn override_name(o: Seq<char>) -> Seq<char> {
    match property_split(o) {
        Some((n, _)) => n,
        None => Seq::empty(),
    }
}

/// The raw value of an override `name=value`.
pub open spec fn override_value(o: Seq<char>) -> Seq<char> {
    match property_split(o) {
        Some((_, v)) => v,
        None => Seq::empty(),
    }
}

/// Nesting deeper than this many includes is refused.
pub open spec fn depth_error(depth: usize, e: Error) -> bool {
    e matches Error::Config(m) && m@ == "more than "@ + decimal(MAX_INCLUDE_DEPTH as nat)
        + " nested #include levels"@
}

/// Refuses an include nested more than `MAX_INCLUDE_DEPTH` levels deep.
pub fn check_depth(depth: usize) -> (r: Result<(), Error>)
    ensures
        r is Ok <==> depth <= MAX_INCLUDE_DEPTH,
        r matches Err(e) ==> depth_error(depth, e),
{
    if depth > MAX_INCLUDE_DEPTH {
        let mut m: Vec<char> = Vec::new();
        append_str(&mut m, "more than ");
        let d = decimal_chars(MAX_INCLUDE_DEPTH as u64);
        append(&mut m, &d);
        append_str(&mut m, " nested #include levels");
        Err(Error::Config(string_of(&m)))
    } else {
        Ok(())
    }
}

/// What a line asks of the caller.
#[derive(Debug, Clone, PartialEq, Eq)]
pub enum LineOutcome {
    Done,
    /// Load the named file, `depth` levels deep, before the next line.
    Include { path: String, depth: usize, required: bool },
}

/// A configuration being loaded.
#[derive(Debug)]
pub struct Loader {
    executable_directory: String,
    properties: Vec<(String, String)>,
    environment: Vec<(String, String)>,
    locked_environment: Vec<String>,
    include_stack: Vec<String>,
    warnings: Vec<Warning>,
}

impl Loader {
    pub closed spec fn wf(&self) -> bool {
        well_formed(pairs(self.properties@)) && well_formed(pairs(self.environment@))
    }

    /// The properties read so far, in name order.
    pub closed spec fn property_entries(&self) -> Seq<Pair> {
        pairs(self.properties@)
    }

    pub open spec fn props(&self) -> Map<Seq<char>, Seq<char>> {
        table_map(self.property_entries())
    }

    pub closed spec fn environment_entries(&self) -> Seq<Pair> {
        pairs(self.environment@)
    }

    pub open spec fn env(&self) -> Map<Seq<char>, Seq<char>> {
        table_map(self.environment_entries())
    }

    /// Environment variables that the command line set.
    pub closed spec fn locked(&self) -> Seq<Seq<char>> {
        texts_of(self.locked_environment@)
    }

    /// The files being read, outermost first.
    pub closed spec fn stack(&self) -> Seq<Seq<char>> {
        texts_of(self.include_stack@)
    }

    pub closed spec fn warning_list(&self) -> Seq<WarningModel> {
        warning_models(self.warnings@)
    }

    pub closed spec fn directory(&self) -> Seq<char> {
        self.executable_directory@
    }

    /// A load that starts from the process environment `variables` and the
    /// command-line overrides. `set.NAME=value` overrides define and lock
    /// environment variables; an override without `=` is refused.
    pub fn new(executable_directory: String, variables: &[(String, String)], overrides: &[String]) -> (r: Result<Loader, Error>)
        ensures
            r is Ok <==> valid_overrides(texts_of(overrides@)),
            r matches Err(e) ==> invalid_override_error(texts_of(overrides@), e),
            r matches Ok(l) ==> {
                &&& l.wf()
                &&& l.directory() == executable_directory@
                &&& l.property_entries().len() == 0
                &&& l.env() == override_environment(
                    process_environment(pairs(variables@)),
                    texts_of(overrides@),
                )
                &&& l.locked() == locked_names(texts_of(overrides@))
                &&& l.stack().len() == 0
                &&& l.warning_list().len() == 0
            },
    {
        let ghost os = texts_of(overrides@);
        check_overrides(overrides)?;
        let mut environment: Vec<(String, String)> = Vec::new();
        proof {
            lemma_empty_well_formed();
            assert(table_map(pairs(environment@)) =~= Map::<Seq<char>, Seq<char>>::empty());
        }
        let mut i: usize = 0;
        let ghost vs = pairs(variables@);
        assert(vs.take(0) =~= Seq::<Pair>::empty());
        while i < variables.len()
            invariant
                i <= variables.len(),
                vs == pairs(variables@),
                well_formed(pairs(environment@)),
                table_map(pairs(environment@)) == process_environment(vs.take(i as int)),
            decreases variables.len() - i,
        {
            proof {
                assert(vs.take(i + 1).drop_last() =~= vs.take(i as int));
                assert(vs.take(i + 1).last() == vs[i as int]);
            }
            let name = normalize_environment_name(variables[i].0.as_str());
            let value = variables[i].1.clone();
            insert(&mut environment, name, value);
            i += 1;
        }
        assert(vs.take(variables.len() as int) =~= vs);
        let mut locked: Vec<String> = Vec::new();
        let mut k: usize = 0;
        assert(os.take(0) =~= Seq::<Seq<char>>::empty());
        while k < overrides.len()
            invariant
                k <= overrides.len(),
                os == texts_of(overrides@),
                valid_overrides(os),
                well_formed(pairs(environment@)),
                table_map(pairs(environment@)) == override_environment(
                    process_environment(vs),
                    os.take(k as int),
                ),
                texts_of(locked@) == locked_names(os.take(k as int)),
            decreases overrides.len() - k,
        {
            proof {
                assert(os.take(k + 1).drop_last() =~= os.take(k as int));
                assert(os.take(k + 1).last() == os[k as int]);
                assert(os[k as int] == overrides@[k as int]@);
                assert(property_split(os[k as int]) is Some);
            }
            let cs = chars_of(overrides[k].as_str());
            match split_property(&cs) {
                Some((name, value)) => {
                    if starts_with_str(&name, "set.") {
                        proof {
                            reveal_strlit("set.");
                        }
                        let rest = slice(&name, 4, name.len());
                        assert(rest@ =~= name@.skip(4));
                        let rest_text = string_of(&rest);
                        let normalized = normalize_environment_name(rest_text.as_str());
                        let ghost before = locked@;
                        locked.push(normalized.clone());
                        proof {
                            assert(texts_of(locked@) =~= texts_of(before).push(normalized@));
                        }
                        insert(&mut environment, normalized, string_of(&value));
                    }
                },
                None => {},
            }
            k += 1;
        }
        assert(os.take(overrides.len() as int) =~= os);
        Ok(Loader {
            executable_directory,
            properties: Vec::new(),
            environment,
            locked_environment: locked,
            include_stack: Vec::new(),
            warnings: Vec::new(),
        })
    }

    /// Whether `name` was set on the command line.
    fn is_locked(&self, name: &str) -> (r: bool)
        ensures
            r == self.locked().contains(name@),
    {
        let key = chars_of(name);
        let mut i: usize = 0;
        while i < self.locked_environment.len()
            invariant
                i <= self.locked_environment.len(),
                key@ == name@,
                forall|j: int| 0 <= j < i ==> self.locked()[j] != name@,
            decreases self.locked_environment.len() - i,
        {
            let candidate = chars_of(self.locked_environment[i].as_str());
            assert(self.locked()[i as int] == self.locked_environment@[i as int]@);
            if chars_eq(&candidate, &key) {
                return true;
            }
            i += 1;
        }
        false
    }

    /// Applies a `set.NAME` or `set.default.NAME` property to the environment.
    fn apply_environment_property(&mut self, name: &[char], value: &[char])
        requires
            old(self).wf(),
        ensures
            final(self).wf(),
            final(self).env() == env_after(old(self).env(), old(self).locked(), name@, value@),
            final(self).property_entries() == old(self).property_entries(),
            final(self).locked() == old(self).locked(),
            final(self).stack() == old(self).stack(),
            final(self).warning_list() == old(self).warning_list(),
            final(self).directory() == old(self).directory(),
    {
        proof {
            reveal_strlit("set.");
            reveal_strlit("set.default.");
        }
        if starts_with_str(name, "set.default.") {
            let rest = slice(name, 12, name.len());
            assert(rest@ =~= name@.skip(12));
            let rest_text = string_of(&rest);
            let normalized = normalize_environment_name(rest_text.as_str());
            if !self.is_locked(normalized.as_str()) {
                if find_value(&self.environment, normalized.as_str()).is_none() {
                    insert(&mut self.environment, normalized, string_of(value));
                }
            }
        } else if starts_with_str(name, "set.") {
            let rest = slice(name, 4, name.len());
            assert(rest@ =~= name@.skip(4));
            let rest_text = string_of(&rest);
            let normalized = normalize_environment_name(rest_text.as_str());
            if !self.is_locked(normalized.as_str()) {
                insert(&mut self.environment, normalized, string_of(value));
            }
        }
    }

    /// The path of an include: as written when absolute, otherwise from the
    /// directory of the executable.
    pub fn resolve(&self, path: &str) -> (r: String)
        ensures
            r@ == if crate::paths::absolute(path@) {
                path@
            } else {
                crate::paths::joined(self.directory(), path@)
            },
    {
        if crate::paths::is_absolute(path) {
            owned(path)
        } else {
            crate::paths::join(self.executable_directory.as_str(), path)
        }
    }

    /// A file that could not be opened: an optional include that does not
    /// exist is reported and skipped; anything else fails the load.
    pub fn file_unavailable(&mut self, resolved: &str, required: bool, not_found: bool, message: String) -> (r: Result<(), Error>)
        requires
            old(self).wf(),
        ensures
            final(self).wf(),
            r is Ok <==> (!required && not_found),
            final(self).property_entries() == old(self).property_entries(),
            final(self).environment_entries() == old(self).environment_entries(),
            final(self).locked() == old(self).locked(),
            final(self).stack() == old(self).stack(),
            final(self).directory() == old(self).directory(),
            r is Ok ==> final(self).warning_list() == old(self).warning_list().push(
                (WarningLevel::Warn, "optional #include not found: "@ + resolved@),
            ),
            r matches Err(e) ==> final(self).warning_list() == old(self).warning_list(),
            r matches Err(e) ==> (e matches Error::ConfigRead { path, message: m } && path@
                == resolved@ && m == message),
    {
        if !required && not_found {
            let mut m: Vec<char> = Vec::new();
            append_str(&mut m, "optional #include not found: ");
            append_str(&mut m, resolved);
            let ghost before = self.warnings@;
            self.warnings.push(Warning::warn(string_of(&m)));
            proof {
                assert(warning_models(self.warnings@) =~= warning_models(before).push(
                    (WarningLevel::Warn, m@),
                ));
            }
            Ok(())
        } else {
            Err(Error::ConfigRead { path: owned(resolved), message })
        }
    }

    /// Refuses a file that is already being read.
    pub fn check_cycle(&self, canonical: &str) -> (r: Result<(), Error>)
        ensures
            r is Ok <==> !self.stack().contains(canonical@),
            r matches Err(e) ==> e matches Error::Config(m) && m@ == "#include cycle detected at "@
                + canonical@,
    {
        let key = chars_of(canonical);
        let mut i: usize = 0;
        while i < self.include_stack.len()
            invariant
                i <= self.include_stack.len(),
                key@ == canonical@,
                forall|j: int| 0 <= j < i ==> self.stack()[j] != canonical@,
            decreases self.include_stack.len() - i,
        {
            let candidate = chars_of(self.include_stack[i].as_str());
            assert(self.stack()[i as int] == self.include_stack@[i as int]@);
            if chars_eq(&candidate, &key) {
                let mut m: Vec<char> = Vec::new();
                append_str(&mut m, "#include cycle detected at ");
                append_str(&mut m, canonical);
                return Err(Error::Config(string_of(&m)));
            }
            i += 1;
        }
        Ok(())
    }

    /// Starts reading the file `canonical` with contents `bytes`: decodes
    /// it, reports a decoding warning, and returns its logical lines.
    pub fn enter(&mut self, canonical: &str, bytes: &[u8]) -> (r: Result<Vec<String>, Error>)
        requires
            old(self).wf(),
        ensures
            final(self).wf(),
            final(self).property_entries() == old(self).property_entries(),
            final(self).environment_entries() == old(self).environment_entries(),
            final(self).locked() == old(self).locked(),
            final(self).directory() == old(self).directory(),
            match decoding_outcome(bytes@, canonical@) {
                None => r matches Err(Error::ConfigSyntax { path: p, line, message })
                    && p@ == canonical@ && line == 1 && message@ == "unknown encoding: "@
                    + encoding_label(bytes@)->0 && final(self).stack() == old(self).stack()
                    && final(self).warning_list() == old(self).warning_list(),
                Some((text, warning)) => r matches Ok(lines) && texts_of(lines@) == logical(text)
                    && final(self).stack() == old(self).stack().push(canonical@)
                    && final(self).warning_list() == old(self).warning_list() + match warning {
                    Some(m) => seq![(WarningLevel::Warn, m)],
                    None => Seq::<WarningModel>::empty(),
                },
            },
    {
        let (text, warning) = decode_configuration(bytes, canonical)?;
        let ghost before = self.warnings@;
        match warning {
            Some(m) => {
                self.warnings.push(Warning::warn(m));
                proof {
                    assert(warning_models(self.warnings@) =~= warning_models(before) + seq![
                        (WarningLevel::Warn, self.warnings@.last().message@),
                    ]);
                }
            },
            None => {
                proof {
                    assert(warning_models(self.warnings@) =~= warning_models(before) + Seq::<
                        WarningModel,
                    >::empty());
                }
            },
        }
        let ghost stack_before = self.include_stack@;
        self.include_stack.push(owned(canonical));
        proof {
            assert(texts_of(self.include_stack@) =~= texts_of(stack_before).push(canonical@));
        }
        let lines = logical_lines(text.as_str());
        assert(texts_of(lines@) =~= lines@.map_values(|l: String| l@));
        Ok(lines)
    }

    /// Ends the file read last.
    pub fn leave(&mut self)
        requires
            old(self).wf(),
        ensures
            final(self).wf(),
            final(self).stack() == if old(self).stack().len() > 0 {
                old(self).stack().drop_last()
            } else {
                old(self).stack()
            },
            final(self).property_entries() == old(self).property_entries(),
            final(self).environment_entries() == old(self).environment_entries(),
            final(self).locked() == old(self).locked(),
            final(self).warning_list() == old(self).warning_list(),
            final(self).directory() == old(self).directory(),
    {
        let ghost before = self.include_stack@;
        let _ = self.include_stack.pop();
        proof {
            if before.len() > 0 {
                assert(texts_of(self.include_stack@) =~= texts_of(before).drop_last());
            }
        }
    }

    /// Interprets logical line number `line` of the file `path`, read
    /// `depth` includes deep.
    pub fn parse_line(&mut self, path: &str, line: usize, raw: &str, depth: usize) -> (r: Result<LineOutcome, Error>)
        requires
            old(self).wf(),
            depth < usize::MAX,
        ensures
            final(self).wf(),
            final(self).locked() == old(self).locked(),
            final(self).stack() == old(self).stack(),
            final(self).directory() == old(self).directory(),
            match line_kind(raw@) {
                LineKind::Skip => r == Ok::<LineOutcome, Error>(LineOutcome::Done) && final(self).property_entries()
                    == old(self).property_entries() && final(self).environment_entries() == old(
                    self,
                ).environment_entries() && final(self).warning_list() == old(self).warning_list(),
                LineKind::Include(k, a) => {
                    let target = include_target(a, old(self).env());
                    &&& r matches Ok(LineOutcome::Include { path: p, depth: d, required })
                    &&& p@ == target
                    &&& d == depth + 1
                    &&& required == (k == IncludeKind::Required)
                    &&& final(self).property_entries() == old(self).property_entries()
                    &&& final(self).environment_entries() == old(self).environment_entries()
                    &&& final(self).warning_list() == old(self).warning_list() + if k
                        == IncludeKind::Debug {
                        seq![
                            (
                                WarningLevel::Info,
                                "#include.debug from "@ + path@ + ":"@ + decimal(line as nat)
                                    + " -> "@ + target,
                            ),
                        ]
                    } else {
                        Seq::<WarningModel>::empty()
                    }
                },
                LineKind::Unparsed => r == Ok::<LineOutcome, Error>(LineOutcome::Done) && final(self).property_entries()
                    == old(self).property_entries() && final(self).environment_entries() == old(
                    self,
                ).environment_entries() && final(self).warning_list() == old(self).warning_list().push(
                    (
                        WarningLevel::Warn,
                        "ignored line without '=' at "@ + path@ + ":"@ + decimal(line as nat),
                    ),
                ),
                LineKind::EmptyName => r matches Err(Error::ConfigSyntax { path: p, line: l, message })
                    && p@ == path@ && l == line && message@ == "the property name is empty"@
                    && final(self).property_entries() == old(self).property_entries()
                    && final(self).environment_entries() == old(self).environment_entries()
                    && final(self).warning_list() == old(self).warning_list(),
                LineKind::Property(n, v) => {
                    let x = property_value(v, old(self).env());
                    &&& r == Ok::<LineOutcome, Error>(LineOutcome::Done)
                    &&& final(self).props() == old(self).props().insert(n, x)
                    &&& final(self).env() == env_after(old(self).env(), old(self).locked(), n, x)
                    &&& final(self).warning_list() == old(self).warning_list()
                },
            },
    {
        let cs = chars_of(raw);
        let t = trim_chars(&cs);
        if t.len() == 0 || t[0] == '!' {
            return Ok(LineOutcome::Done);
        }
        match parse_include(&t) {
            Some((kind, argument)) => {
                let x = expand_chars(&argument, &self.environment);
                let xt = trim_chars(&x);
                let target = ungroup(&xt);
                let target_text = string_of(&target);
                if kind == IncludeKind::Debug {
                    let mut m: Vec<char> = Vec::new();
                    append_str(&mut m, "#include.debug from ");
                    append_str(&mut m, path);
                    append_str(&mut m, ":");
                    let d = decimal_chars(line as u64);
                    append(&mut m, &d);
                    append_str(&mut m, " -> ");
                    append(&mut m, &target);
                    let ghost before = self.warnings@;
                    self.warnings.push(Warning::info(string_of(&m)));
                    proof {
                        assert(warning_models(self.warnings@) =~= warning_models(before) + seq![
                            (WarningLevel::Info, m@),
                        ]);
                    }
                } else {
                    assert(warning_models(self.warnings@) =~= warning_models(self.warnings@) + Seq::<
                        WarningModel,
                    >::empty());
                }
                return Ok(
                    LineOutcome::Include {
                        path: target_text,
                        depth: depth + 1,
                        required: kind == IncludeKind::Required,
                    },
                );
            },
            None => {},
        }
        if t[0] == '#' {
            return Ok(LineOutcome::Done);
        }
        match split_property(&t) {
            None => {
                let mut m: Vec<char> = Vec::new();
                append_str(&mut m, "ignored line without '=' at ");
                append_str(&mut m, path);
                append_str(&mut m, ":");
                let d = decimal_chars(line as u64);
                append(&mut m, &d);
                let ghost before = self.warnings@;
                self.warnings.push(Warning::warn(string_of(&m)));
                proof {
                    assert(warning_models(self.warnings@) =~= warning_models(before).push(
                        (WarningLevel::Warn, m@),
                    ));
                }
                Ok(LineOutcome::Done)
            },
            Some((name, raw_value)) => {
                if name.len() == 0 {
                    return Err(
                        Error::ConfigSyntax {
                            path: owned(path),
                            line,
                            message: owned("the property name is empty"),
                        },
                    );
                }
                let uncommented = decode_hash_chars(&raw_value);
                let trimmed = trim_chars(&uncommented);
                let value = expand_chars(&trimmed, &self.environment);
                insert(&mut self.properties, string_of(&name), string_of(&value));
                self.apply_environment_property(&name, &value);
                Ok(LineOutcome::Done)
            },
        }
    }

    /// Applies the command-line overrides after the files: each `name=value`
    /// replaces the property, with environment references expanded.
    pub fn apply_overrides(&mut self, overrides: &[String]) -> (r: Result<(), Error>)
        requires
            old(self).wf(),
        ensures
            final(self).wf(),
            r is Ok <==> valid_overrides(texts_of(overrides@)),
            r matches Err(e) ==> invalid_override_error(texts_of(overrides@), e) && *final(self)
                == *old(self),
            r is Ok ==> (final(self).props(), final(self).env()) == overridden(
                old(self).props(),
                old(self).env(),
                old(self).locked(),
                texts_of(overrides@),
            ),
            final(self).locked() == old(self).locked(),
            final(self).stack() == old(self).stack(),
            final(self).warning_list() == old(self).warning_list(),
            final(self).directory() == old(self).directory(),
    {
        let ghost os = texts_of(overrides@);
        check_overrides(overrides)?;
        let ghost p0 = self.props();
        let ghost e0 = self.env();
        let ghost l0 = self.locked();
        let mut k: usize = 0;
        assert(os.take(0) =~= Seq::<Seq<char>>::empty());
        while k < overrides.len()
            invariant
                k <= overrides.len(),
                os == texts_of(overrides@),
                valid_overrides(os),
                self.wf(),
                self.locked() == l0,
                self.stack() == old(self).stack(),
                self.warning_list() == old(self).warning_list(),
                self.directory() == old(self).directory(),
                (self.props(), self.env()) == overridden(p0, e0, l0, os.take(k as int)),
            decreases overrides.len() - k,
        {
            proof {
                assert(os.take(k + 1).drop_last() =~= os.take(k as int));
                assert(os.take(k + 1).last() == os[k as int]);
                assert(os[k as int] == overrides@[k as int]@);
                assert(property_split(os[k as int]) is Some);
            }
            let cs = chars_of(overrides[k].as_str());
            match split_property(&cs) {
                Some((name, raw_value)) => {
                    let value = expand_chars(&raw_value, &self.environment);
                    insert(&mut self.properties, string_of(&name), string_of(&value));
                    self.apply_environment_property(&name, &value);
                },
                None => {},
            }
            k += 1;
        }
        assert(os.take(overrides.len() as int) =~= os);
        Ok(())
    }

    /// Reports the properties that are not supported: see
    /// `unsupported_property_warnings`.
    pub fn warn_about_unsupported_properties(&mut self)
        requires
            old(self).wf(),
        ensures
            final(self).wf(),
            final(self).warning_list() == old(self).warning_list() + property_warnings(
                old(self).property_entries(),
            ) + family_notes(old(self).property_entries(), ignored_prefixes()),
            final(self).property_entries() == old(self).property_entries(),
            final(self).environment_entries() == old(self).environment_entries(),
            final(self).locked() == old(self).locked(),
            final(self).stack() == old(self).stack(),
            final(self).directory() == old(self).directory(),
    {
        let found = unsupported_property_warnings(&self.properties);
        let ghost before = self.warnings@;
        let mut i: usize = 0;
        while i < found.len()
            invariant
                i <= found.len(),
                self.wf(),
                self.property_entries() == old(self).property_entries(),
                self.environment_entries() == old(self).environment_entries(),
                self.locked() == old(self).locked(),
                self.stack() == old(self).stack(),
                self.directory() == old(self).directory(),
                warning_models(self.warnings@) == warning_models(before) + warning_models(found@).take(
                    i as int,
                ),
            decreases found.len() - i,
        {
            let ghost w = self.warnings@;
            let copy = Warning { level: found[i].level, message: found[i].message.clone() };
            self.warnings.push(copy);
            proof {
                assert(warning_models(found@).take(i + 1) =~= warning_models(found@).take(i as int).push(
                    warning_models(found@)[i as int],
                ));
                assert(warning_models(self.warnings@) =~= warning_models(w).push(
                    warning_models(found@)[i as int],
                ));
            }
            i += 1;
        }
        assert(warning_models(found@).take(found.len() as int) =~= warning_models(found@));
    }

    /// The loaded configuration of the root file `root_path`.
    pub fn finish(self, root_path: String) -> (r: Config)
        requires
            self.wf(),
        ensures
            r.root() == root_path@,
            r.directory() == self.directory(),
            r.entries() == self.property_entries(),
            r.environment_entries() == self.environment_entries(),
            r.warning_list() == self.warning_list(),
    {
        Config::from_parts(
            root_path,
            self.executable_directory,
            self.properties,
            self.environment,
            self.warnings,
        )
    }
}

/// Refuses the first override that has no `=`.
fn check_overrides(overrides: &[String]) -> (r: Result<(), Error>)
    ensures
        r is Ok <==> valid_overrides(texts_of(overrides@)),
        r matches Err(e) ==> invalid_override_error(texts_of(overrides@), e),
{
    let ghost os = texts_of(overrides@);
    let mut i: usize = 0;
    while i < overrides.len()
        invariant
            i <= overrides.len(),
            os == texts_of(overrides@),
            forall|j: int| 0 <= j < i ==> (#[trigger] property_split(os[j])) is Some,
        decreases overrides.len() - i,
    {
        let cs = chars_of(overrides[i].as_str());
        assert(os[i as int] == overrides@[i as int]@);
        if split_property(&cs).is_none() {
            let mut m: Vec<char> = Vec::new();
            append_str(&mut m, "invalid property override: ");
            append_str(&mut m, overrides[i].as_str());
            let e = Error::Cli(string_of(&m));
            assert(property_split(os[i as int]) is None);
            return Err(e);
        }
        i += 1;
    }
    Ok(())
}

/// A command-line override decides the final value of its property: after
/// the overrides, a property named by override `i` and by no later one holds
/// the value that override `i` gave it, expanded in the environment of that
/// moment.
pub proof fn lemma_override_wins(
    props: Map<Seq<char>, Seq<char>>,
    env: Map<Seq<char>, Seq<char>>,
    locked: Seq<Seq<char>>,
    os: Seq<Seq<char>>,
    i: int,
)
    requires
        valid_overrides(os),
        0 <= i < os.len(),
        forall|j: int| i < j < os.len() ==> override_name(#[trigger] os[j]) != override_name(os[i]),
    ensures
        overridden(props, env, locked, os).0[override_name(os[i])] == expanded_in(
            override_value(os[i]),
            overridden(props, env, locked, os.take(i)).1,
        ),
        overridden(props, env, locked, os).0.contains_key(override_name(os[i])),
    decreases os.len(),
{
    let last = os.len() - 1;
    assert(property_split(os[last]) is Some);
    if i == last {
        assert(os.drop_last() =~= os.take(i));
    } else {
        let shorter = os.drop_last();
        assert forall|j: int| 0 <= j < shorter.len() implies (#[trigger] property_split(shorter[j])) is Some by {
            assert(shorter[j] == os[j]);
            assert(property_split(os[j]) is Some);
        }
        assert forall|j: int| i < j < shorter.len() implies override_name(#[trigger] shorter[j])
            != override_name(shorter[i]) by {
            assert(shorter[j] == os[j]);
            assert(shorter[i] == os[i]);
            assert(override_name(os[j]) != override_name(os[i]));
        }
        lemma_override_wins(props, env, locked, shorter, i);
        assert(shorter[i] == os[i]);
        assert(shorter.take(i) =~= os.take(i));
        assert(override_name(os[last]) != override_name(os[i]));
    }
}

/// A variable locked by the command line keeps its value whatever a
/// property assigns.
pub proof fn lemma_locked_variable_kept(
    env: Map<Seq<char>, Seq<char>>,
    locked: Seq<Seq<char>>,
    name: Seq<char>,
    value: Seq<char>,
    k: Seq<char>,
)
    requires
        locked.contains(k),
    ensures
        env_after(env, locked, name, value).contains_key(k) == env.contains_key(k),
        env_after(env, locked, name, value)[k] == env[k],
{
}

/// `set.default.NAME` never replaces a variable that is already defined.
pub proof fn lemma_default_keeps_defined(
    env: Map<Seq<char>, Seq<char>>,
    locked: Seq<Seq<char>>,
    name: Seq<char>,
    value: Seq<char>,
)
    requires
        environment_target(name) matches Some((true, n)) && env.contains_key(n),
    ensures
        env_after(env, locked, name, value) == env,
{
}

} // verus!
