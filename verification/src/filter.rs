//! Output filters: `wrapper.filter.trigger.<n>` texts or wildcard patterns
//! that JVM output lines are checked against, with the actions to take when
//! one matches.
use vstd::prelude::*;

use crate::codec::{decode_bytes, decoded, utf8_text};
use crate::config::{bool_setting, indexed_name, Config};
use crate::glob::{glob_contains, wildcard_contains};
use crate::logging::property_or;
use crate::text::{
    append, append_str, bytes_of, chars_of, contains_chars, contains_seq, decimal, decimal_chars,
    is_keyword, occurs_at, string_of, trim, upper,
};
use vstd::utf8::{decode_utf8, encode_utf8, is_ascii_chars, valid_utf8};

verus! {

/// What the service host does when a filter matches.
#[derive(Debug, Clone, Copy, PartialEq, Eq, Structural)]
pub enum FilterAction {
    /// Nothing; later filters are still not consulted.
    Ignore,
    Debug,
    Dump,
    Gc,
    Restart,
    Shutdown,
    Pause,
    Resume,
}

/// The action a keyword names (already trimmed and upper case).
pub open spec fn named_action(k: Seq<char>) -> Option<FilterAction> {
    if k == "NONE"@ {
        Some(FilterAction::Ignore)
    } else if k == "DEBUG"@ {
        Some(FilterAction::Debug)
    } else if k == "DUMP"@ {
        Some(FilterAction::Dump)
    } else if k == "GC"@ {
        Some(FilterAction::Gc)
    } else if k == "RESTART"@ {
        Some(FilterAction::Restart)
    } else if k == "SHUTDOWN"@ {
        Some(FilterAction::Shutdown)
    } else if k == "PAUSE"@ {
        Some(FilterAction::Pause)
    } else if k == "RESUME"@ {
        Some(FilterAction::Resume)
    } else {
        None
    }
}

pub fn parse_filter_action(value: &[char]) -> (r: Option<FilterAction>)
    ensures
        r == named_action(upper(trim(value@))),
{
    if is_keyword(value, "NONE") {
        Some(FilterAction::Ignore)
    } else if is_keyword(value, "DEBUG") {
        Some(FilterAction::Debug)
    } else if is_keyword(value, "DUMP") {
        Some(FilterAction::Dump)
    } else if is_keyword(value, "GC") {
        Some(FilterAction::Gc)
    } else if is_keyword(value, "RESTART") {
        Some(FilterAction::Restart)
    } else if is_keyword(value, "SHUTDOWN") {
        Some(FilterAction::Shutdown)
    } else if is_keyword(value, "PAUSE") {
        Some(FilterAction::Pause)
    } else if is_keyword(value, "RESUME") {
        Some(FilterAction::Resume)
    } else {
        None
    }
}

pub open spec fn is_separator(c: char) -> bool {
    c == ',' || c == ' ' || c == '\t'
}

pub open spec fn known(a: Option<FilterAction>) -> Seq<FilterAction> {
    match a {
        Some(x) => seq![x],
        None => Seq::empty(),
    }
}

/// Reading an action list up to its end: the actions of the finished
/// pieces and the piece in progress.
pub open spec fn action_scan(s: Seq<char>) -> (Seq<FilterAction>, Seq<char>)
    decreases s.len(),
{
    if s.len() == 0 {
        (Seq::empty(), Seq::empty())
    } else {
        let (done, piece) = action_scan(s.drop_last());
        if is_separator(s.last()) {
            (done + known(named_action(upper(trim(piece)))), Seq::empty())
        } else {
            (done, piece.push(s.last()))
        }
    }
}

/// The actions an action list names: the text split at commas, spaces and
/// tabs, every piece that names an action, at most sixteen; `RESTART` when
/// none does.
pub open spec fn action_list(s: Seq<char>) -> Seq<FilterAction> {
    let (done, piece) = action_scan(s);
    let all = done + known(named_action(upper(trim(piece))));
    let kept = if all.len() > 16 {
        all.take(16)
    } else {
        all
    };
    if kept.len() == 0 {
        seq![FilterAction::Restart]
    } else {
        kept
    }
}

pub fn parse_action_list(s: &str) -> (r: Vec<FilterAction>)
    ensures
        r@ == action_list(s@),
{
    let cs = chars_of(s);
    let mut done: Vec<FilterAction> = Vec::new();
    let mut piece: Vec<char> = Vec::new();
    let mut i: usize = 0;
    assert(cs@.take(0) =~= Seq::<char>::empty());
    while i < cs.len()
        invariant
            i <= cs.len(),
            cs@ == s@,
            (done@, piece@) == action_scan(cs@.take(i as int)),
        decreases cs.len() - i,
    {
        proof {
            assert(cs@.take(i + 1).drop_last() =~= cs@.take(i as int));
            assert(cs@.take(i + 1).last() == cs@[i as int]);
        }
        let c = cs[i];
        if c == ',' || c == ' ' || c == '\t' {
            let ghost before = done@;
            match parse_filter_action(&piece) {
                Some(a) => {
                    done.push(a);
                    assert(done@ =~= before + seq![a]);
                },
                None => {
                    assert(done@ =~= before + Seq::<FilterAction>::empty());
                },
            }
            piece = Vec::new();
        } else {
            piece.push(c);
        }
        i += 1;
    }
    assert(cs@.take(cs.len() as int) =~= cs@);
    let ghost before = done@;
    match parse_filter_action(&piece) {
        Some(a) => {
            done.push(a);
            assert(done@ =~= before + seq![a]);
        },
        None => {
            assert(done@ =~= before + Seq::<FilterAction>::empty());
        },
    }
    if done.len() > 16 {
        done.truncate(16);
    }
    if done.len() == 0 {
        done.push(FilterAction::Restart);
        assert(done@ =~= seq![FilterAction::Restart]);
    }
    done
}

/// The filter that matched an output line.
#[derive(Debug, Clone)]
pub struct FilterMatch {
    pub index: u32,
    pub actions: Vec<FilterAction>,
    pub message: String,
}

#[derive(Debug, Clone)]
struct Filter {
    index: u32,
    trigger: String,
    allow_wildcards: bool,
    actions: Vec<FilterAction>,
    message: String,
}

/// A filter as the contracts see it: index, trigger, whether it is a
/// wildcard pattern, actions and message.
pub type FilterModel = (u32, Seq<char>, bool, Seq<FilterAction>, Seq<char>);

pub open spec fn filter_model_of(config: &Config, index: u32, trigger: Seq<char>) -> FilterModel {
    (
        index,
        trigger,
        bool_setting(config.property(indexed_name("wrapper.filter.allow_wildcards"@, index as nat)), false),
        action_list(property_or(config, indexed_name("wrapper.filter.action"@, index as nat), "RESTART"@)),
        property_or(
            config,
            indexed_name("wrapper.filter.message"@, index as nat),
            "Filter trigger matched."@,
        ),
    )
}

/// The filters of a configuration: one per non-empty entry of the numbered
/// sequence `wrapper.filter.trigger`, in order.
pub open spec fn configured_filters(config: &Config, triggers: Seq<(u32, Seq<char>)>) -> Seq<FilterModel>
    decreases triggers.len(),
{
    if triggers.len() == 0 {
        Seq::empty()
    } else {
        let prev = configured_filters(config, triggers.drop_last());
        let (index, trigger) = triggers.last();
        if trigger.len() == 0 {
            prev
        } else {
            prev.push(filter_model_of(config, index, trigger))
        }
    }
}

/// The text of a JVM output line when it is not UTF-8: its windows-1252
/// reading.
pub open spec fn fallback_text(line: Seq<u8>) -> Seq<char> {
    match decoded("windows-1252"@, line) {
        Some((t, _, _)) => t,
        None => Seq::empty(),
    }
}

/// Whether an output line matches a trigger. Plain triggers match as a
/// substring; wildcard triggers as a pattern anywhere in the line. Lines
/// that are not UTF-8 are read as windows-1252 unless the trigger is ASCII.
pub open spec fn trigger_hit(line: Seq<u8>, trigger: Seq<char>, wildcards: bool) -> bool {
    if trigger.len() == 0 {
        false
    } else if wildcards {
        if is_ascii_chars(trigger) || valid_utf8(line) {
            glob_contains(line, encode_utf8(trigger))
        } else {
            glob_contains(encode_utf8(fallback_text(line)), encode_utf8(trigger))
        }
    } else if is_ascii_chars(trigger) {
        contains_seq(line, encode_utf8(trigger))
    } else if valid_utf8(line) {
        contains_seq(decode_utf8(line), trigger)
    } else {
        contains_seq(fallback_text(line), trigger)
    }
}

fn bytes_occur_at(s: &[u8], p: &[u8], at: usize) -> (r: bool)
    requires
        at <= s.len(),
    ensures
        r == occurs_at(s@, p@, at as int),
{
    if p.len() > s.len() - at {
        return false;
    }
    let mut i: usize = 0;
    while i < p.len()
        invariant
            at + p.len() <= s.len(),
            i <= p.len(),
            forall|j: int| 0 <= j < i ==> s@[at + j] == p@[j],
        decreases p.len() - i,
    {
        if s[at + i] != p[i] {
            assert(s@.subrange(at as int, at + p.len())[i as int] != p@[i as int]);
            return false;
        }
        i += 1;
    }
    assert(s@.subrange(at as int, at + p.len()) =~= p@);
    true
}

pub(crate) fn contains_bytes(s: &[u8], p: &[u8]) -> (r: bool)
    ensures
        r == contains_seq(s@, p@),
{
    let mut i: usize = 0;
    while i < s.len()
        invariant
            i <= s.len(),
            forall|j: int| 0 <= j < i ==> !occurs_at(s@, p@, j),
        decreases s.len() - i,
    {
        if bytes_occur_at(s, p, i) {
            return true;
        }
        i += 1;
    }
    if bytes_occur_at(s, p, s.len()) {
        return true;
    }
    assert forall|j: int| !occurs_at(s@, p@, j) by {
        if 0 <= j < i {
        }
    }
    false
}

/// The windows-1252 reading of a line, through `encoding_rs`.
fn windows_1252_text(line: &[u8]) -> (r: String)
    ensures
        r@ == fallback_text(line@),
{
    match decode_bytes("windows-1252", line) {
        Some((t, _, _)) => t,
        None => String::new(),
    }
}

/// Whether an output line matches a trigger; see `trigger_hit`.
pub fn trigger_matches(line: &[u8], trigger: &str, allow_wildcards: bool) -> (r: bool)
    ensures
        r == trigger_hit(line@, trigger@, allow_wildcards),
{
    let tc = chars_of(trigger);
    if tc.len() == 0 {
        return false;
    }
    let pattern = bytes_of(trigger);
    if allow_wildcards {
        if trigger.is_ascii() {
            return wildcard_contains(line, &pattern);
        }
        match utf8_text(line) {
            Some(_) => {
                return wildcard_contains(line, &pattern);
            },
            None => {},
        }
        let text = windows_1252_text(line);
        let tb = bytes_of(text.as_str());
        return wildcard_contains(&tb, &pattern);
    }
    if trigger.is_ascii() {
        return contains_bytes(line, &pattern);
    }
    match utf8_text(line) {
        Some(text) => {
            let t = chars_of(text.as_str());
            contains_chars(&t, &tc)
        },
        None => {
            let text = windows_1252_text(line);
            let t = chars_of(text.as_str());
            contains_chars(&t, &tc)
        },
    }
}

/// The configured output filters.
#[derive(Debug, Clone)]
pub struct Filters {
    entries: Vec<Filter>,
}

spec fn filter_view(f: Filter) -> FilterModel {
    (f.index, f.trigger@, f.allow_wildcards, f.actions@, f.message@)
}

/// The first filter that a line matches, if any.
pub open spec fn first_hit(filters: Seq<FilterModel>, line: Seq<u8>) -> Option<int> {
    if exists|k: int| 0 <= k < filters.len() && trigger_hit(line, #[trigger] filters[k].1, filters[k].2) {
        Some(
            choose|k: int|
                0 <= k < filters.len() && trigger_hit(line, #[trigger] filters[k].1, filters[k].2) && forall|
                    j: int,
                | 0 <= j < k ==> !trigger_hit(line, #[trigger] filters[j].1, filters[j].2),
        )
    } else {
        None
    }
}

impl Filters {
    pub closed spec fn view(&self) -> Seq<FilterModel> {
        self.entries@.map_values(|f: Filter| filter_view(f))
    }

    /// Reads the numbered filter properties of a configuration.
    pub fn from_config(config: &Config) -> (r: Filters)
        ensures
            r.view() == configured_filters(config, config.numbered_entries("wrapper.filter.trigger"@)),
    {
        let triggers = config.numbered("wrapper.filter.trigger");
        let ghost ts = triggers@.map_values(|e: (u32, String)| (e.0, e.1@));
        let mut entries: Vec<Filter> = Vec::new();
        let mut i: usize = 0;
        assert(ts.take(0) =~= Seq::<(u32, Seq<char>)>::empty());
        while i < triggers.len()
            invariant
                i <= triggers.len(),
                ts == triggers@.map_values(|e: (u32, String)| (e.0, e.1@)),
                entries@.map_values(|f: Filter| filter_view(f)) == configured_filters(
                    config,
                    ts.take(i as int),
                ),
            decreases triggers.len() - i,
        {
            proof {
                assert(ts.take(i + 1).drop_last() =~= ts.take(i as int));
                assert(ts.take(i + 1).last() == ts[i as int]);
            }
            let index = triggers[i].0;
            let trigger = &triggers[i].1;
            let ghost before = entries@;
            if !trigger.as_str().is_empty() {
                let action_name = numbered_name("wrapper.filter.action", index);
                let wildcard_name = numbered_name("wrapper.filter.allow_wildcards", index);
                let message_name = numbered_name("wrapper.filter.message", index);
                let actions = parse_action_list(config.get_or(action_name.as_str(), "RESTART"));
                let filter = Filter {
                    index,
                    trigger: trigger.clone(),
                    allow_wildcards: config.get_bool(wildcard_name.as_str(), false),
                    actions,
                    message: crate::error::owned(
                        config.get_or(message_name.as_str(), "Filter trigger matched."),
                    ),
                };
                entries.push(filter);
                proof {
                    assert(entries@.map_values(|f: Filter| filter_view(f)) =~= before.map_values(
                        |f: Filter| filter_view(f),
                    ).push(filter_model_of(config, index, ts[i as int].1)));
                }
            } else {
                proof {
                    assert(trigger@.len() == 0);
                }
            }
            i += 1;
        }
        assert(ts.take(triggers.len() as int) =~= ts);
        Filters { entries }
    }

    /// The filter that a line of text matches first, as a list of at most
    /// one match.
    pub fn inspect(&self, line: &str) -> (r: Vec<FilterMatch>)
        ensures
            r@.len() <= 1,
            match first_hit(self.view(), encode_utf8(line@)) {
                None => r@.len() == 0,
                Some(k) => r@.len() == 1 && r@[0].index == self.view()[k].0 && r@[0].actions@
                    == self.view()[k].3 && r@[0].message@ == self.view()[k].4,
            },
    {
        let bytes = line.as_bytes();
        self.inspect_bytes(bytes)
    }

    /// The filter that a line of raw output matches first, as a list of at
    /// most one match.
    pub fn inspect_bytes(&self, line: &[u8]) -> (r: Vec<FilterMatch>)
        ensures
            r@.len() <= 1,
            match first_hit(self.view(), line@) {
                None => r@.len() == 0,
                Some(k) => r@.len() == 1 && r@[0].index == self.view()[k].0 && r@[0].actions@
                    == self.view()[k].3 && r@[0].message@ == self.view()[k].4,
            },
    {
        let ghost v = self.view();
        let mut i: usize = 0;
        while i < self.entries.len()
            invariant
                i <= self.entries.len(),
                v == self.view(),
                forall|j: int| 0 <= j < i ==> !trigger_hit(line@, #[trigger] v[j].1, v[j].2),
            decreases self.entries.len() - i,
        {
            let f = &self.entries[i];
            assert(v[i as int] == filter_view(self.entries@[i as int]));
            if trigger_matches(line, f.trigger.as_str(), f.allow_wildcards) {
                let mut actions: Vec<FilterAction> = Vec::new();
                let mut k: usize = 0;
                while k < f.actions.len()
                    invariant
                        k <= f.actions.len(),
                        actions@ == f.actions@.take(k as int),
                    decreases f.actions.len() - k,
                {
                    actions.push(f.actions[k]);
                    assert(f.actions@.take(k + 1) =~= f.actions@.take(k as int).push(f.actions@[k as int]));
                    k += 1;
                }
                assert(f.actions@.take(f.actions.len() as int) =~= f.actions@);
                let found = FilterMatch {
                    index: f.index,
                    actions,
                    message: f.message.clone(),
                };
                proof {
                    assert(trigger_hit(line@, v[i as int].1, v[i as int].2));
                    let k = first_hit(v, line@)->0;
                    assert(0 <= k < v.len() && trigger_hit(line@, v[k].1, v[k].2));
                    if k < i {
                        assert(!trigger_hit(line@, v[k].1, v[k].2));
                    }
                    if k > i {
                        assert(!trigger_hit(line@, v[i as int].1, v[i as int].2));
                    }
                }
                return vec![found];
            }
            i += 1;
        }
        Vec::new()
    }
}

/// The property name `prefix.index`.
fn numbered_name(prefix: &str, index: u32) -> (r: String)
    ensures
        r@ == indexed_name(prefix@, index as nat),
{
    let mut out = chars_of(prefix);
    append_str(&mut out, ".");
    let digits = decimal_chars(index as u64);
    append(&mut out, &digits);
    string_of(&out)
}

} // verus!
