//! Line-level syntax of `wrapper.conf`: continuation lines, inline comments,
//! `name=value` splitting, include directives, grouping quotes and `%NAME%`
//! environment expansion.
use vstd::prelude::*;

use crate::table::{pairs, table_map};
use crate::text::{
    append, append_str, chars_of, contains_seq, contains_str, find_char, first_index, is_ws, lower,
    slice, starts_with, string_of, to_lower, trim, trim_chars,
};

verus! {

/// A value wrapped in a pair of double or single quotes loses them.
pub open spec fn ungrouped(s: Seq<char>) -> Seq<char> {
    if s.len() >= 2 && ((s[0] == '"' && s.last() == '"') || (s[0] == '\'' && s.last() == '\'')) {
        s.subrange(1, s.len() - 1)
    } else {
        s
    }
}

pub fn ungroup(s: &[char]) -> (r: Vec<char>)
    ensures
        r@ == ungrouped(s@),
{
    let n = s.len();
    if n >= 2 && ((s[0] == '"' && s[n - 1] == '"') || (s[0] == '\'' && s[n - 1] == '\'')) {
        slice(s, 1, n - 1)
    } else {
        slice(s, 0, n)
    }
}

/// Removes one pair of enclosing double or single quotes.
pub fn remove_grouping_quotes(value: &str) -> (r: String)
    ensures
        r@ == ungrouped(value@),
{
    let cs = chars_of(value);
    let u = ungroup(&cs);
    string_of(&u)
}

/// Words whose presence in a property name marks its value as secret.
pub open spec fn sensitive_words() -> Seq<Seq<char>> {
    seq!["password"@, "secret"@, "token"@, "key"@, "credential"@, "vault"@]
}

/// A name is sensitive when, ASCII case folded, it contains one of the
/// sensitive words.
pub open spec fn sensitive(name: Seq<char>) -> bool {
    exists|i: int| 0 <= i < sensitive_words().len() && contains_seq(lower(name), #[trigger] sensitive_words()[i])
}

pub fn is_sensitive_chars(name: &[char]) -> (r: bool)
    ensures
        r == sensitive(name@),
{
    let folded = to_lower(name);
    let words: Vec<&str> = vec!["password", "secret", "token", "key", "credential", "vault"];
    assert(words@.map_values(|w: &str| w@) =~= sensitive_words());
    let mut i: usize = 0;
    while i < words.len()
        invariant
            i <= words.len(),
            words@.map_values(|w: &str| w@) == sensitive_words(),
            folded@ == lower(name@),
            forall|j: int| 0 <= j < i ==> !contains_seq(lower(name@), #[trigger] sensitive_words()[j]),
        decreases words.len() - i,
    {
        if contains_str(&folded, words[i]) {
            assert(sensitive_words()[i as int] == words@[i as int]@);
            return true;
        }
        assert(sensitive_words()[i as int] == words@[i as int]@);
        i += 1;
    }
    false
}

/// Whether a property name looks like it holds a secret.
pub fn is_sensitive_name(name: &str) -> (r: bool)
    ensures
        r == sensitive(name@),
{
    let cs = chars_of(name);
    is_sensitive_chars(&cs)
}

pub open spec fn redacted(name: Seq<char>, value: Seq<char>) -> Seq<char> {
    if sensitive(name) {
        "<redacted>"@
    } else {
        value
    }
}

/// The value to show for a property: `<redacted>` for a sensitive name.
pub fn redacted_value(name: &str, value: &str) -> (r: String)
    ensures
        r@ == redacted(name@, value@),
{
    if is_sensitive_name(name) {
        crate::error::owned("<redacted>")
    } else {
        crate::error::owned(value)
    }
}

/// An inline `#` starts a comment; `##` stands for a literal `#`.
pub open spec fn hash_decoded(s: Seq<char>) -> Seq<char>
    decreases s.len(),
{
    if s.len() == 0 {
        Seq::empty()
    } else if s[0] != '#' {
        seq![s[0]] + hash_decoded(s.drop_first())
    } else if s.len() > 1 && s[1] == '#' {
        seq!['#'] + hash_decoded(s.subrange(2, s.len() as int))
    } else {
        Seq::empty()
    }
}

pub fn decode_hash_chars(s: &[char]) -> (r: Vec<char>)
    ensures
        r@ == hash_decoded(s@),
{
    let mut out: Vec<char> = Vec::new();
    let mut i: usize = 0;
    assert(s@.subrange(0, s.len() as int) =~= s@);
    while i < s.len()
        invariant
            i <= s.len(),
            out@ + hash_decoded(s@.subrange(i as int, s.len() as int)) == hash_decoded(s@),
        decreases s.len() - i,
    {
        let ghost rest = s@.subrange(i as int, s.len() as int);
        if s[i] != '#' {
            proof {
                assert(rest.drop_first() =~= s@.subrange(i + 1, s.len() as int));
                assert(out@.push(s[i as int]) + hash_decoded(rest.drop_first()) =~= out@ + (seq![
                    s[i as int],
                ] + hash_decoded(rest.drop_first())));
            }
            out.push(s[i]);
            i += 1;
        } else if i + 1 < s.len() && s[i + 1] == '#' {
            proof {
                assert(rest[1] == '#');
                assert(rest.subrange(2, rest.len() as int) =~= s@.subrange(i + 2, s.len() as int));
                assert(out@.push('#') + hash_decoded(rest.subrange(2, rest.len() as int)) =~= out@
                    + (seq!['#'] + hash_decoded(rest.subrange(2, rest.len() as int))));
            }
            out.push('#');
            i += 2;
        } else {
            proof {
                assert(out@ + Seq::<char>::empty() =~= out@);
            }
            return out;
        }
    }
    assert(s@.subrange(i as int, s.len() as int) =~= Seq::<char>::empty());
    assert(out@ + Seq::<char>::empty() =~= out@);
    out
}

/// Strips an inline comment from a property value.
pub fn decode_hash_comments(value: &str) -> (r: String)
    ensures
        r@ == hash_decoded(value@),
{
    let cs = chars_of(value);
    let d = decode_hash_chars(&cs);
    string_of(&d)
}

/// Pieces of `s` separated by `'\n'` (there is always at least one).
pub open spec fn split_newlines(s: Seq<char>) -> Seq<Seq<char>>
    decreases s.len(),
{
    match first_index(s, '\n') {
        None => seq![s],
        Some(i) => if 0 <= i < s.len() {
            seq![s.take(i)] + split_newlines(s.skip(i + 1))
        } else {
            seq![s]
        },
    }
}

/// `s` without its trailing carriage returns.
pub open spec fn trim_cr(s: Seq<char>) -> Seq<char>
    decreases s.len(),
{
    if s.len() > 0 && s.last() == '\r' {
        trim_cr(s.drop_last())
    } else {
        s
    }
}

/// The physical lines of a text, as `str::lines` yields them with trailing
/// carriage returns removed: a final newline does not start another line,
/// and an empty text has no lines.
pub open spec fn physical_lines(text: Seq<char>) -> Seq<Seq<char>> {
    let pieces = split_newlines(text);
    let kept = if pieces.last().len() == 0 {
        pieces.drop_last()
    } else {
        pieces
    };
    kept.map_values(|l: Seq<char>| trim_cr(l))
}

/// Number of backslashes that end `s`.
pub open spec fn trailing_backslashes(s: Seq<char>) -> nat
    decreases s.len(),
{
    if s.len() > 0 && s.last() == '\\' {
        trailing_backslashes(s.drop_last()) + 1
    } else {
        0
    }
}

/// Joining state: the finished logical lines and the continued text.
pub struct Joined {
    pub lines: Seq<Seq<char>>,
    pub pending: Seq<char>,
}

/// Joins physical lines: a line ending in an odd number of backslashes
/// continues on the next one, without its final backslash.
pub open spec fn join_continuations(lines: Seq<Seq<char>>) -> Joined
    decreases lines.len(),
{
    if lines.len() == 0 {
        Joined { lines: Seq::empty(), pending: Seq::empty() }
    } else {
        let prev = join_continuations(lines.drop_last());
        let line = lines.last();
        if trailing_backslashes(line) % 2 == 1 {
            Joined { lines: prev.lines, pending: prev.pending + line.drop_last() }
        } else if prev.pending.len() == 0 {
            Joined { lines: prev.lines.push(line), pending: prev.pending }
        } else {
            Joined { lines: prev.lines.push(prev.pending + line), pending: Seq::empty() }
        }
    }
}

/// The logical lines of a configuration text.
pub open spec fn logical(text: Seq<char>) -> Seq<Seq<char>> {
    let j = join_continuations(physical_lines(text));
    if j.pending.len() > 0 {
        j.lines.push(j.pending)
    } else {
        j.lines
    }
}

pub fn count_trailing_backslashes(s: &[char]) -> (r: usize)
    ensures
        r == trailing_backslashes(s@),
{
    let mut i: usize = s.len();
    assert(s@.take(s.len() as int) =~= s@);
    while i > 0 && s[i - 1] == '\\'
        invariant
            i <= s.len(),
            trailing_backslashes(s@) == trailing_backslashes(s@.take(i as int)) + (s.len() - i),
        decreases i,
    {
        proof {
            assert(s@.take(i as int).drop_last() =~= s@.take(i - 1));
        }
        i -= 1;
    }
    proof {
        assert(s@.take(s.len() as int) =~= s@);
    }
    s.len() - i
}

pub fn trim_cr_chars(s: &[char]) -> (r: Vec<char>)
    ensures
        r@ == trim_cr(s@),
{
    let mut i: usize = s.len();
    assert(s@.take(s.len() as int) =~= s@);
    while i > 0 && s[i - 1] == '\r'
        invariant
            i <= s.len(),
            trim_cr(s@) == trim_cr(s@.take(i as int)),
        decreases i,
    {
        proof {
            assert(s@.take(i as int).drop_last() =~= s@.take(i - 1));
        }
        i -= 1;
    }
    proof {
        assert(s@.take(s.len() as int) =~= s@);
    }
    slice(s, 0, i)
}

proof fn lemma_first_index_bounds(s: Seq<char>, c: char)
    ensures
        match first_index(s, c) {
            Some(i) => 0 <= i < s.len() && s[i] == c && forall|j: int| 0 <= j < i ==> s[j] != c,
            None => forall|j: int| 0 <= j < s.len() ==> s[j] != c,
        },
    decreases s.len(),
{
    if s.len() > 0 {
        lemma_first_index_bounds(s.drop_first(), c);
        if s[0] != c {
            match first_index(s.drop_first(), c) {
                Some(i) => {
                    assert forall|j: int| 0 <= j < i + 1 implies s[j] != c by {
                        if j > 0 {
                            assert(s[j] == s.drop_first()[j - 1]);
                        }
                    }
                },
                None => {
                    assert forall|j: int| 0 <= j < s.len() implies s[j] != c by {
                        if j > 0 {
                            assert(s[j] == s.drop_first()[j - 1]);
                        }
                    }
                },
            }
        }
    }
}

/// `first_index` is the first position holding the character.
pub proof fn lemma_first_index_is(s: Seq<char>, c: char, i: int)
    requires
        0 <= i <= s.len(),
        i < s.len() ==> s[i] == c,
        forall|j: int| 0 <= j < i ==> s[j] != c,
    ensures
        first_index(s, c) == (if i < s.len() {
            Some(i)
        } else {
            None::<int>
        }),
{
    lemma_first_index_bounds(s, c);
}

/// The logical lines of a configuration text.
pub fn logical_line_chars(text: &[char]) -> (r: Vec<Vec<char>>)
    ensures
        r@.map_values(|l: Vec<char>| l@) == logical(text@),
{
    let ghost phys = physical_lines(text@);
    let mut lines: Vec<Vec<char>> = Vec::new();
    let mut pending: Vec<char> = Vec::new();
    let mut start: usize = 0;
    let ghost mut count: int = 0;
    proof {
        lemma_physical_lines_prefix(text@);
        assert(phys.take(0) =~= Seq::<Seq<char>>::empty());
        assert(lines@.map_values(|l: Vec<char>| l@) =~= Seq::<Seq<char>>::empty());
        assert(pending@ =~= Seq::<char>::empty());
    }
    while start < text.len()
        invariant
            start <= text.len(),
            0 <= count <= phys.len(),
            phys == physical_lines(text@),
            phys.subrange(count, phys.len() as int) == physical_lines(text@.skip(start as int)),
            join_continuations(phys.take(count)) == (Joined {
                lines: lines@.map_values(|l: Vec<char>| l@),
                pending: pending@,
            }),
        decreases text.len() - start,
    {
        let mut end: usize = start;
        while end < text.len() && text[end] != '\n'
            invariant
                start <= end <= text.len(),
                forall|j: int| start <= j < end ==> text@[j] != '\n',
            decreases text.len() - end,
        {
            end += 1;
        }
        let raw = slice(text, start, end);
        let line = trim_cr_chars(&raw);
        proof {
            lemma_physical_lines_step(text@, start as int, end as int);
            assert(phys[count] == line@);
            assert(phys.take(count + 1).drop_last() =~= phys.take(count));
            assert(phys.take(count + 1).last() == phys[count]);
            assert(phys.subrange(count + 1, phys.len() as int) =~= phys.subrange(
                count,
                phys.len() as int,
            ).drop_first());
        }
        let slashes = count_trailing_backslashes(&line);
        if slashes % 2 == 1 {
            let body = slice(&line, 0, line.len() - 1);
            proof {
                assert(body@ =~= line@.drop_last());
            }
            append(&mut pending, &body);
        } else if pending.len() == 0 {
            let ghost before = lines@;
            lines.push(line);
            proof {
                assert(lines@.map_values(|l: Vec<char>| l@) =~= before.map_values(
                    |l: Vec<char>| l@,
                ).push(line@));
            }
        } else {
            append(&mut pending, &line);
            let mut joined: Vec<char> = Vec::new();
            std::mem::swap(&mut joined, &mut pending);
            let ghost before = lines@;
            lines.push(joined);
            proof {
                assert(lines@.map_values(|l: Vec<char>| l@) =~= before.map_values(
                    |l: Vec<char>| l@,
                ).push(joined@));
            }
        }
        proof {
            count = count + 1;
        }
        if end < text.len() {
            start = end + 1;
        } else {
            start = text.len();
        }
        proof {
            if end < text.len() {
            }
        }
    }
    proof {
        lemma_physical_lines_done(text@, start as int);
        assert(phys.subrange(count, phys.len() as int).len() == 0);
        assert(phys.take(count) =~= phys);
    }
    if pending.len() > 0 {
        let ghost before = lines@;
        lines.push(pending);
        proof {
            assert(lines@.map_values(|l: Vec<char>| l@) =~= before.map_values(|l: Vec<char>| l@).push(
                pending@,
            ));
        }
    }
    lines
}

/// Physical lines of a text at its start: the whole text.
proof fn lemma_physical_lines_prefix(text: Seq<char>)
    ensures
        text.skip(0) == text,
        physical_lines(text).subrange(0, physical_lines(text).len() as int) == physical_lines(text),
{
    assert(text.skip(0) =~= text);
    assert(physical_lines(text).subrange(0, physical_lines(text).len() as int) =~= physical_lines(
        text,
    ));
}

/// A text with no characters left has no physical lines.
proof fn lemma_physical_lines_done(text: Seq<char>, start: int)
    requires
        start == text.len(),
    ensures
        physical_lines(text.skip(start)).len() == 0,
{
    let rest = text.skip(start);
    assert(rest =~= Seq::<char>::empty());
    assert(first_index(rest, '\n') is None);
    assert(split_newlines(rest) == seq![rest]);
}

/// One step of splitting: the first physical line of the remaining text and
/// the lines after it.
proof fn lemma_physical_lines_step(text: Seq<char>, start: int, end: int)
    requires
        0 <= start < text.len(),
        start <= end <= text.len(),
        end < text.len() ==> text[end] == '\n',
        forall|j: int| start <= j < end ==> text[j] != '\n',
    ensures
        physical_lines(text.skip(start)).len() > 0,
        physical_lines(text.skip(start))[0] == trim_cr(text.subrange(start, end)),
        physical_lines(text.skip(start)).drop_first() == physical_lines(
            text.skip(if end < text.len() {
                end + 1
            } else {
                text.len() as int
            }),
        ),
{
    let rest = text.skip(start);
    let k = end - start;
    lemma_first_index_is(rest, '\n', k);
    assert(rest.take(k) =~= text.subrange(start, end));
    if end < text.len() {
        let after = rest.skip(k + 1);
        assert(after =~= text.skip(end + 1));
        let pa = split_newlines(after);
        assert(split_newlines(rest) == seq![rest.take(k)] + pa);
        lemma_split_nonempty(after);
        let kept_after = if pa.last().len() == 0 {
            pa.drop_last()
        } else {
            pa
        };
        let pr = split_newlines(rest);
        assert(pr.last() == pa.last());
        let kept_rest = if pr.last().len() == 0 {
            pr.drop_last()
        } else {
            pr
        };
        assert(kept_rest =~= seq![rest.take(k)] + kept_after);
        assert(physical_lines(rest) =~= seq![trim_cr(rest.take(k))] + physical_lines(after));
        assert(physical_lines(rest).drop_first() =~= physical_lines(after));
    } else {
        assert(split_newlines(rest) == seq![rest]);
        assert(rest.take(k) =~= rest);
        assert(rest.len() > 0);
        assert(physical_lines(rest) =~= seq![trim_cr(rest)]);
        let empty = text.skip(text.len() as int);
        assert(empty =~= Seq::<char>::empty());
        lemma_physical_lines_done(text, text.len() as int);
        assert(physical_lines(rest).drop_first() =~= Seq::<Seq<char>>::empty());
    }
}

proof fn lemma_split_nonempty(s: Seq<char>)
    ensures
        split_newlines(s).len() > 0,
    decreases s.len(),
{
    lemma_first_index_bounds(s, '\n');
    match first_index(s, '\n') {
        None => {},
        Some(i) => {
            lemma_split_nonempty(s.skip(i + 1));
        },
    }
}

/// Splits a configuration text into logical lines.
pub fn logical_lines(text: &str) -> (r: Vec<String>)
    ensures
        r@.map_values(|l: String| l@) == logical(text@),
{
    let cs = chars_of(text);
    let lines = logical_line_chars(&cs);
    let mut out: Vec<String> = Vec::new();
    let mut i: usize = 0;
    while i < lines.len()
        invariant
            i <= lines.len(),
            out@.map_values(|l: String| l@) == lines@.map_values(|l: Vec<char>| l@).take(i as int),
        decreases lines.len() - i,
    {
        let s = string_of(&lines[i]);
        let ghost before = out@;
        out.push(s);
        proof {
            let lv = lines@.map_values(|l: Vec<char>| l@);
            assert(lv.take(i + 1) =~= lv.take(i as int).push(lv[i as int]));
            assert(lv[i as int] == lines@[i as int]@);
            assert(out@.map_values(|l: String| l@) =~= before.map_values(|l: String| l@).push(s@));
            assert(out@.map_values(|l: String| l@) =~= lines@.map_values(|l: Vec<char>| l@).take(
                i + 1,
            ));
        }
        i += 1;
    }
    proof {
        assert(lines@.map_values(|l: Vec<char>| l@).take(lines.len() as int) =~= lines@.map_values(
            |l: Vec<char>| l@,
        ));
    }
    out
}

/// `name=value` at the first `=`: the trimmed name and the raw value.
pub open spec fn property_split(line: Seq<char>) -> Option<(Seq<char>, Seq<char>)> {
    match first_index(line, '=') {
        None => None,
        Some(i) => Some((trim(line.take(i)), line.skip(i + 1))),
    }
}

pub fn split_property(line: &[char]) -> (r: Option<(Vec<char>, Vec<char>)>)
    ensures
        match property_split(line@) {
            None => r is None,
            Some((n, v)) => r matches Some((rn, rv)) && rn@ == n && rv@ == v,
        },
{
    match find_char(line, '=') {
        None => {
            proof {
                lemma_first_index_is(line@, '=', line.len() as int);
            }
            None
        },
        Some(i) => {
            proof {
                lemma_first_index_is(line@, '=', i as int);
                assert(line@.take(i as int) =~= line@.subrange(0, i as int));
                assert(line@.skip(i + 1) =~= line@.subrange(i + 1, line.len() as int));
            }
            let name = slice(line, 0, i);
            let value = slice(line, i + 1, line.len());
            Some((trim_chars(&name), value))
        },
    }
}

/// The three include directives.
#[derive(Debug, Clone, Copy, PartialEq, Eq, Structural)]
pub enum IncludeKind {
    Plain,
    Required,
    Debug,
}

pub open spec fn directive_text(k: IncludeKind) -> Seq<char> {
    match k {
        IncludeKind::Plain => "#include"@,
        IncludeKind::Required => "#include.required"@,
        IncludeKind::Debug => "#include.debug"@,
    }
}

/// `s` without its leading spaces, tabs and equals signs.
pub open spec fn strip_separators(s: Seq<char>) -> Seq<char>
    decreases s.len(),
{
    if s.len() > 0 && (s[0] == ' ' || s[0] == '\t' || s[0] == '=') {
        strip_separators(s.drop_first())
    } else {
        s
    }
}

/// The argument of directive `d` at the start of `line`, if `line` uses it:
/// the directive must be followed by the end of the line, whitespace or `=`.
pub open spec fn directive_argument(line: Seq<char>, d: Seq<char>) -> Option<Seq<char>> {
    if starts_with(line, d) {
        let rest = line.skip(d.len() as int);
        if rest.len() == 0 {
            Some(rest)
        } else if is_ws(rest[0]) || rest[0] == '=' {
            Some(strip_separators(rest))
        } else {
            None
        }
    } else {
        None
    }
}

/// The include directive of a line, tried longest first, and its argument.
pub open spec fn include_directive(line: Seq<char>) -> Option<(IncludeKind, Seq<char>)> {
    match directive_argument(line, directive_text(IncludeKind::Required)) {
        Some(a) => Some((IncludeKind::Required, a)),
        None => match directive_argument(line, directive_text(IncludeKind::Debug)) {
            Some(a) => Some((IncludeKind::Debug, a)),
            None => match directive_argument(line, directive_text(IncludeKind::Plain)) {
                Some(a) => Some((IncludeKind::Plain, a)),
                None => None,
            },
        },
    }
}

fn strip_separator_chars(s: &[char]) -> (r: Vec<char>)
    ensures
        r@ == strip_separators(s@),
{
    let mut i: usize = 0;
    assert(s@.skip(0) =~= s@);
    while i < s.len() && (s[i] == ' ' || s[i] == '\t' || s[i] == '=')
        invariant
            i <= s.len(),
            strip_separators(s@) == strip_separators(s@.skip(i as int)),
        decreases s.len() - i,
    {
        proof {
            assert(s@.skip(i as int).drop_first() =~= s@.skip(i + 1));
        }
        i += 1;
    }
    assert(s@.skip(i as int) =~= s@.subrange(i as int, s.len() as int));
    slice(s, i, s.len())
}

fn directive_argument_chars(line: &[char], d: &str) -> (r: Option<Vec<char>>)
    ensures
        match directive_argument(line@, d@) {
            None => r is None,
            Some(a) => r matches Some(ra) && ra@ == a,
        },
{
    let dc = chars_of(d);
    if !crate::text::starts_with_chars(line, &dc) {
        return None;
    }
    let rest = slice(line, dc.len(), line.len());
    assert(rest@ =~= line@.skip(d@.len() as int));
    if rest.len() == 0 {
        Some(rest)
    } else if crate::text::is_whitespace(rest[0]) || rest[0] == '=' {
        Some(strip_separator_chars(&rest))
    } else {
        None
    }
}

/// Recognizes `#include`, `#include.required` and `#include.debug`.
pub fn parse_include(line: &[char]) -> (r: Option<(IncludeKind, Vec<char>)>)
    ensures
        match include_directive(line@) {
            None => r is None,
            Some((k, a)) => r matches Some((rk, ra)) && rk == k && ra@ == a,
        },
{
    match directive_argument_chars(line, "#include.required") {
        Some(a) => Some((IncludeKind::Required, a)),
        None => match directive_argument_chars(line, "#include.debug") {
            Some(a) => Some((IncludeKind::Debug, a)),
            None => match directive_argument_chars(line, "#include") {
                Some(a) => Some((IncludeKind::Plain, a)),
                None => None,
            },
        },
    }
}

/// `str::to_uppercase`: the Unicode upper-case mapping of a text.
pub uninterp spec fn unicode_upper(s: Seq<char>) -> Seq<char>;

/// Environment variable names are compared in upper case. Calls
/// `str::to_uppercase`, whose result is named `unicode_upper`.
#[verifier::external_body]
pub(crate) fn normalize_environment_name(name: &str) -> (r: String)
    ensures
        r@ == unicode_upper(name@),
{
    name.to_uppercase()
}

/// `%NAME%` references replaced by the values of the environment; unknown
/// names and an unmatched `%` are kept as written.
pub open spec fn expanded(v: Seq<char>, env: Map<Seq<char>, Seq<char>>) -> Seq<char>
    decreases v.len(),
{
    match first_index(v, '%') {
        None => v,
        Some(s) => if 0 <= s < v.len() {
            let after = v.skip(s + 1);
            match first_index(after, '%') {
                None => v,
                Some(e) => if 0 <= e < after.len() {
                    let name = after.take(e);
                    let replacement = if env.contains_key(unicode_upper(name)) {
                        env[unicode_upper(name)]
                    } else {
                        seq!['%'] + name + seq!['%']
                    };
                    v.take(s) + replacement + expanded(after.skip(e + 1), env)
                } else {
                    v
                },
            }
        } else {
            v
        },
    }
}

/// How many `%` characters a text holds.
pub open spec fn percent_count(s: Seq<char>) -> nat
    decreases s.len(),
{
    if s.len() == 0 {
        0
    } else {
        (if s[0] == '%' {
            1nat
        } else {
            0nat
        }) + percent_count(s.drop_first())
    }
}

proof fn lemma_percent_count_concat(x: Seq<char>, y: Seq<char>)
    ensures
        percent_count(x + y) == percent_count(x) + percent_count(y),
    decreases x.len(),
{
    if x.len() > 0 {
        assert((x + y).drop_first() =~= x.drop_first() + y);
        assert((x + y)[0] == x[0]);
        lemma_percent_count_concat(x.drop_first(), y);
    } else {
        assert(x + y =~= y);
    }
}

proof fn lemma_no_percent_count(x: Seq<char>)
    requires
        forall|j: int| 0 <= j < x.len() ==> x[j] != '%',
    ensures
        percent_count(x) == 0,
    decreases x.len(),
{
    if x.len() > 0 {
        assert forall|j: int| 0 <= j < x.drop_first().len() implies x.drop_first()[j] != '%' by {
            assert(x.drop_first()[j] == x[j + 1]);
        }
        lemma_no_percent_count(x.drop_first());
    }
}

/// Where a character first occurs in `a + b`: in `a` if it occurs there,
/// else in `b`, shifted by the length of `a`.
proof fn lemma_first_index_concat(a: Seq<char>, b: Seq<char>, c: char)
    ensures
        first_index(a + b, c) == match first_index(a, c) {
            Some(i) => Some(i),
            None => match first_index(b, c) {
                Some(j) => Some(j + a.len()),
                None => None::<int>,
            },
        },
{
    lemma_first_index_bounds(a, c);
    lemma_first_index_bounds(b, c);
    let ab = a + b;
    match first_index(a, c) {
        Some(i) => {
            assert forall|j: int| 0 <= j < i implies ab[j] != c by {
                assert(ab[j] == a[j]);
            }
            lemma_first_index_is(ab, c, i);
        },
        None => match first_index(b, c) {
            Some(j) => {
                assert forall|k: int| 0 <= k < j + a.len() implies ab[k] != c by {
                    if k < a.len() {
                        assert(ab[k] == a[k]);
                    } else {
                        assert(ab[k] == b[k - a.len()]);
                    }
                }
                lemma_first_index_is(ab, c, j + a.len());
            },
            None => {
                assert forall|k: int| 0 <= k < ab.len() implies ab[k] != c by {
                    if k < a.len() {
                        assert(ab[k] == a[k]);
                    } else {
                        assert(ab[k] == b[k - a.len()]);
                    }
                }
                lemma_first_index_is(ab, c, ab.len() as int);
            },
        },
    }
}

proof fn lemma_one_percent()
    ensures
        percent_count(seq!['%']) == 1,
{
    let p = seq!['%'];
    assert(p.len() == 1 && p[0] == '%');
    assert(p.drop_first() =~= Seq::<char>::empty());
    assert(percent_count(Seq::<char>::empty()) == 0);
}

/// A text without `%` is kept as it is.
pub proof fn lemma_expand_plain(v: Seq<char>, env: Map<Seq<char>, Seq<char>>)
    requires
        forall|j: int| 0 <= j < v.len() ==> v[j] != '%',
    ensures
        expanded(v, env) == v,
{
    lemma_first_index_is(v, '%', v.len() as int);
}

/// A reference `%NAME%` (a name without `%`) becomes the value of the
/// variable whose upper-case name it is, or stays as written when there is
/// none.
pub proof fn lemma_expand_reference(name: Seq<char>, env: Map<Seq<char>, Seq<char>>)
    requires
        forall|j: int| 0 <= j < name.len() ==> name[j] != '%',
    ensures
        expanded(seq!['%'] + name + seq!['%'], env) == if env.contains_key(unicode_upper(name)) {
            env[unicode_upper(name)]
        } else {
            seq!['%'] + name + seq!['%']
        },
{
    let v = seq!['%'] + name + seq!['%'];
    lemma_first_index_is(v, '%', 0);
    let after = v.skip(1);
    assert forall|j: int| 0 <= j < name.len() implies after[j] != '%' by {
        assert(after[j] == name[j]);
    }
    assert(after[name.len() as int] == '%');
    lemma_first_index_is(after, '%', name.len() as int);
    assert(after.take(name.len() as int) =~= name);
    assert(after.skip(name.len() as int + 1) =~= Seq::<char>::empty());
    lemma_expand_plain(Seq::<char>::empty(), env);
    assert(v.take(0) =~= Seq::<char>::empty());
    if env.contains_key(unicode_upper(name)) {
        assert(Seq::<char>::empty() + env[unicode_upper(name)] + Seq::<char>::empty() =~= env[unicode_upper(
            name,
        )]);
    } else {
        assert(Seq::<char>::empty() + v + Seq::<char>::empty() =~= v);
    }
}

/// Expansion works piece by piece: when `a` holds an even number of `%`
/// (every reference that starts in `a` also ends there), expanding `a + b`
/// is expanding `a`, then `b`. So a reference is expanded wherever it
/// stands, whatever comes before it, an unknown reference included.
pub proof fn lemma_expand_concat(a: Seq<char>, b: Seq<char>, env: Map<Seq<char>, Seq<char>>)
    requires
        percent_count(a) % 2 == 0,
    ensures
        expanded(a + b, env) == expanded(a, env) + expanded(b, env),
    decreases a.len(),
{
    lemma_first_index_bounds(a, '%');
    lemma_first_index_concat(a, b, '%');
    let ab = a + b;
    match first_index(a, '%') {
        None => {
            lemma_expand_plain(a, env);
            lemma_first_index_bounds(b, '%');
            match first_index(b, '%') {
                None => {},
                Some(s) => {
                    let s2 = s + a.len();
                    assert(ab.skip(s2 + 1) =~= b.skip(s + 1));
                    assert(ab.take(s2) =~= a + b.take(s));
                    let after = b.skip(s + 1);
                    match first_index(after, '%') {
                        None => {},
                        Some(e) => {
                            lemma_first_index_bounds(after, '%');
                            let name = after.take(e);
                            let replacement = if env.contains_key(unicode_upper(name)) {
                                env[unicode_upper(name)]
                            } else {
                                seq!['%'] + name + seq!['%']
                            };
                            assert(ab.take(s2) + replacement + expanded(after.skip(e + 1), env) =~= a + (
                            b.take(s) + replacement + expanded(after.skip(e + 1), env)));
                        },
                    }
                },
            }
        },
        Some(s) => {
            let after = a.skip(s + 1);
            lemma_first_index_bounds(after, '%');
            let after_ab = ab.skip(s + 1);
            assert(after_ab =~= after + b);
            lemma_first_index_concat(after, b, '%');
            assert(ab.take(s) =~= a.take(s));
            assert forall|j: int| 0 <= j < s implies a[j] != '%' by {}
            match first_index(after, '%') {
                None => {
                    // An odd number of `%` would be left in `a`.
                    assert(a =~= a.take(s) + seq!['%'] + after);
                    lemma_no_percent_count(a.take(s));
                    lemma_no_percent_count(after);
                    lemma_percent_count_concat(a.take(s), seq!['%']);
                    lemma_percent_count_concat(a.take(s) + seq!['%'], after);
                    lemma_one_percent();
                    assert(false);
                },
                Some(e) => {
                    let name = after.take(e);
                    assert(after_ab.take(e) =~= name);
                    let rest = after.skip(e + 1);
                    assert(after_ab.skip(e + 1) =~= rest + b);
                    assert(a =~= a.take(s) + seq!['%'] + name + seq!['%'] + rest);
                    assert forall|j: int| 0 <= j < name.len() implies name[j] != '%' by {
                        assert(name[j] == after[j]);
                    }
                    lemma_no_percent_count(a.take(s));
                    lemma_no_percent_count(name);
                    lemma_percent_count_concat(a.take(s), seq!['%']);
                    lemma_percent_count_concat(a.take(s) + seq!['%'], name);
                    lemma_percent_count_concat(a.take(s) + seq!['%'] + name, seq!['%']);
                    lemma_percent_count_concat(a.take(s) + seq!['%'] + name + seq!['%'], rest);
                    lemma_one_percent();
                    lemma_expand_concat(rest, b, env);
                    let replacement = if env.contains_key(unicode_upper(name)) {
                        env[unicode_upper(name)]
                    } else {
                        seq!['%'] + name + seq!['%']
                    };
                    assert(a.take(s) + replacement + expanded(rest + b, env) =~= (a.take(s) + replacement
                        + expanded(rest, env)) + expanded(b, env));
                },
            }
        },
    }
}

pub fn expand_chars(v: &[char], env: &[(String, String)]) -> (r: Vec<char>)
    ensures
        r@ == expanded(v@, table_map(pairs(env@))),
{
    let ghost e = table_map(pairs(env@));
    let mut out: Vec<char> = Vec::new();
    let mut rem: Vec<char> = slice(v, 0, v.len());
    assert(rem@ =~= v@);
    loop
        invariant
            e == table_map(pairs(env@)),
            out@ + expanded(rem@, e) == expanded(v@, e),
        decreases rem.len(),
    {
        match find_char(&rem, '%') {
            None => {
                proof {
                    lemma_first_index_is(rem@, '%', rem.len() as int);
                }
                append(&mut out, &rem);
                return out;
            },
            Some(s) => {
                proof {
                    lemma_first_index_is(rem@, '%', s as int);
                }
                let after = slice(&rem, s + 1, rem.len());
                assert(after@ =~= rem@.skip(s + 1));
                match find_char(&after, '%') {
                    None => {
                        proof {
                            lemma_first_index_is(after@, '%', after.len() as int);
                        }
                        append(&mut out, &rem);
                        return out;
                    },
                    Some(end) => {
                        proof {
                            lemma_first_index_is(after@, '%', end as int);
                        }
                        let prefix = slice(&rem, 0, s);
                        assert(prefix@ =~= rem@.take(s as int));
                        append(&mut out, &prefix);
                        let name = slice(&after, 0, end);
                        assert(name@ =~= after@.take(end as int));
                        let name_text = string_of(&name);
                        let key = normalize_environment_name(name_text.as_str());
                        match crate::table::find_value(env, key.as_str()) {
                            Some(x) => {
                                append_str(&mut out, x.as_str());
                            },
                            None => {
                                let ghost before = out@;
                                out.push('%');
                                append(&mut out, &name);
                                out.push('%');
                                assert(out@ =~= before + (seq!['%'] + name@ + seq!['%']));
                            },
                        }
                        let next = slice(&after, end + 1, after.len());
                        assert(next@ =~= after@.skip(end + 1));
                        proof {
                            let ghost r2 = rem@;
                            assert(expanded(r2, e) == r2.take(s as int) + (if e.contains_key(
                                unicode_upper(name@),
                            ) {
                                e[unicode_upper(name@)]
                            } else {
                                seq!['%'] + name@ + seq!['%']
                            }) + expanded(next@, e));
                        }
                        rem = next;
                    },
                }
            },
        }
    }
}

/// Replaces `%NAME%` references with environment values.
pub fn expand_environment(value: &str, environment: &[(String, String)]) -> (r: String)
    ensures
        r@ == expanded(value@, table_map(pairs(environment@))),
{
    let cs = chars_of(value);
    let x = expand_chars(&cs, environment);
    string_of(&x)
}

} // verus!
