//! Character encodings of configuration files and JVM output: UTF-8
//! validation and the decoders of `encoding_rs`.
use vstd::prelude::*;
use vstd::utf8::{decode_utf8, valid_utf8};

use crate::error::{owned, Error};
use crate::syntax::ungrouped;
use crate::text::{append, append_str, chars_of, slice, starts_with, string_of, trim, trim_chars};

verus! {

/// Calls `std::str::from_utf8`: the text of the bytes when they are valid
/// UTF-8, `None` otherwise, as its documentation states.
#[verifier::external_body]
pub(crate) fn utf8_text(bytes: &[u8]) -> (r: Option<String>)
    ensures
        r is Some <==> valid_utf8(bytes@),
        r matches Some(s) ==> s@ == decode_utf8(bytes@),
{
    match std::str::from_utf8(bytes) {
        Ok(text) => Some(text.to_owned()),
        Err(_) => None,
    }
}

/// What `encoding_rs` makes of `bytes` under the encoding named by `label`
/// (`Encoding::for_label`, then `Encoding::decode`): the decoded text, the
/// canonical name of the encoding, and whether malformed sequences were
/// replaced. `None` when the label names no encoding.
pub uninterp spec fn decoded(label: Seq<char>, bytes: Seq<u8>) -> Option<(Seq<char>, Seq<char>, bool)>;

/// Looks the label up with `encoding_rs::Encoding::for_label` and decodes the
/// bytes with `Encoding::decode`. The result is named `decoded`; the labels
/// `utf-8` and `windows-1252` are always known to `encoding_rs`.
#[verifier::external_body]
pub(crate) fn decode_bytes(label: &str, bytes: &[u8]) -> (r: Option<(String, String, bool)>)
    ensures
        r matches Some((t, n, e)) ==> decoded(label@, bytes@) == Some((t@, n@, e)),
        r is None ==> decoded(label@, bytes@) is None,
        label@ == "utf-8"@ || label@ == "windows-1252"@ ==> r is Some,
{
    match encoding_rs::Encoding::for_label(label.as_bytes()) {
        Some(encoding) => {
            let (text, _, had_errors) = encoding.decode(bytes);
            Some((text.into_owned(), encoding.name().to_owned(), had_errors))
        },
        None => None,
    }
}

/// Byte order mark of UTF-8.
pub open spec fn utf8_bom() -> Seq<u8> {
    seq![0xEFu8, 0xBBu8, 0xBFu8]
}

/// The bytes before the first newline.
pub open spec fn first_line_bytes(bytes: Seq<u8>) -> Seq<u8> {
    if exists|i: int| 0 <= i < bytes.len() && bytes[i] == 10u8 {
        let i = choose|i: int|
            0 <= i < bytes.len() && bytes[i] == 10u8 && forall|j: int| 0 <= j < i ==> bytes[j] != 10u8;
        bytes.take(i)
    } else {
        bytes
    }
}

pub open spec fn without_bom(line: Seq<u8>) -> Seq<u8> {
    if line.len() >= 3 && line.take(3) == utf8_bom() {
        line.skip(3)
    } else {
        line
    }
}

/// The label of a `#encoding=<label>` directive on the first line.
pub open spec fn encoding_label(bytes: Seq<u8>) -> Option<Seq<char>> {
    let line = without_bom(first_line_bytes(bytes));
    if valid_utf8(line) {
        let t = trim(decode_utf8(line));
        if starts_with(t, "#encoding="@) {
            Some(ungrouped(trim(t.skip(10))))
        } else {
            None
        }
    } else {
        None
    }
}

/// Reads the `#encoding=` directive of the first line, if any.
pub fn first_line_encoding_label(bytes: &[u8]) -> (r: Option<String>)
    ensures
        match encoding_label(bytes@) {
            Some(l) => r matches Some(s) && s@ == l,
            None => r is None,
        },
{
    let mut end: usize = 0;
    while end < bytes.len() && bytes[end] != 10
        invariant
            end <= bytes.len(),
            forall|j: int| 0 <= j < end ==> bytes@[j] != 10u8,
        decreases bytes.len() - end,
    {
        end += 1;
    }
    proof {
        if end < bytes.len() {
            let i = choose|i: int|
                0 <= i < bytes@.len() && bytes@[i] == 10u8 && forall|j: int|
                    0 <= j < i ==> bytes@[j] != 10u8;
            assert(i == end as int) by {
                if i < end {
                } else if i > end {
                }
            }
            assert(first_line_bytes(bytes@) == bytes@.take(end as int));
        } else {
            assert(first_line_bytes(bytes@) == bytes@);
        }
    }
    let mut start: usize = 0;
    if end >= 3 && bytes[0] == 0xEF && bytes[1] == 0xBB && bytes[2] == 0xBF {
        start = 3;
    }
    let mut line: Vec<u8> = Vec::new();
    let mut i: usize = start;
    while i < end
        invariant
            start <= i <= end <= bytes.len(),
            line@ == bytes@.subrange(start as int, i as int),
        decreases end - i,
    {
        line.push(bytes[i]);
        assert(bytes@.subrange(start as int, i + 1) =~= bytes@.subrange(start as int, i as int).push(
            bytes@[i as int],
        ));
        i += 1;
    }
    proof {
        let fl = if end < bytes.len() {
            bytes@.take(end as int)
        } else {
            bytes@
        };
        assert(fl =~= bytes@.take(end as int));
        if start == 3 {
            assert(fl.take(3) =~= utf8_bom());
            assert(line@ =~= fl.skip(3));
        } else {
            if fl.len() >= 3 && fl.take(3) == utf8_bom() {
                assert(fl.take(3)[0] == fl[0]);
                assert(fl.take(3)[1] == fl[1]);
                assert(fl.take(3)[2] == fl[2]);
            }
            assert(line@ =~= fl);
        }
    }
    let text = match utf8_text(&line) {
        Some(t) => t,
        None => return None,
    };
    let cs = chars_of(text.as_str());
    let t = trim_chars(&cs);
    if !crate::text::starts_with_str(&t, "#encoding=") {
        return None;
    }
    proof {
        reveal_strlit("#encoding=");
    }
    let value = slice(&t, 10, t.len());
    assert(value@ =~= t@.skip(10));
    let v = trim_chars(&value);
    let u = crate::syntax::ungroup(&v);
    Some(string_of(&u))
}

/// Outcome of decoding a configuration file: its text and an optional
/// warning, or an error for an unknown encoding label.
pub open spec fn decoding_outcome(bytes: Seq<u8>, path: Seq<char>) -> Option<(Seq<char>, Option<Seq<char>>)> {
    match encoding_label(bytes) {
        Some(label) => match decoded(label, bytes) {
            None => None,
            Some((text, name, had_errors)) => Some(
                (
                    text,
                    if had_errors {
                        Some(path + " contains byte sequences that are invalid for "@ + name)
                    } else {
                        None
                    },
                ),
            ),
        },
        None => {
            let label = if valid_utf8(bytes) {
                "utf-8"@
            } else {
                "windows-1252"@
            };
            match decoded(label, bytes) {
                None => None,
                Some((text, name, had_errors)) => Some(
                    (
                        text,
                        if had_errors {
                            Some(path + " contains byte sequences that are invalid for "@ + name)
                        } else if !valid_utf8(bytes) {
                            Some(path + " is not UTF-8; it was read as windows-1252"@)
                        } else {
                            None
                        },
                    ),
                ),
            }
        },
    }
}

/// Decodes a configuration file: the `#encoding=` label of its first line,
/// otherwise UTF-8 when the bytes are valid UTF-8, otherwise windows-1252.
pub fn decode_configuration(bytes: &[u8], path: &str) -> (r: Result<(String, Option<String>), Error>)
    ensures
        match decoding_outcome(bytes@, path@) {
            None => r matches Err(Error::ConfigSyntax { path: p, line, message }) && p@ == path@
                && line == 1 && message@ == "unknown encoding: "@ + encoding_label(bytes@)->0,
            Some((text, warning)) => r matches Ok((t, w)) && t@ == text && match warning {
                Some(m) => w matches Some(x) && x@ == m,
                None => w is None,
            },
        },
{
    let label = first_line_encoding_label(bytes);
    let (text, name, had_errors, fallback) = match label {
        Some(l) => match decode_bytes(l.as_str(), bytes) {
            None => {
                let mut m: Vec<char> = Vec::new();
                append_str(&mut m, "unknown encoding: ");
                append_str(&mut m, l.as_str());
                return Err(Error::ConfigSyntax { path: owned(path), line: 1, message: string_of(&m) });
            },
            Some((t, n, e)) => (t, n, e, false),
        },
        None => {
            let valid = utf8_text(bytes).is_some();
            let chosen = if valid {
                "utf-8"
            } else {
                "windows-1252"
            };
            match decode_bytes(chosen, bytes) {
                None => {
                    return Err(Error::ConfigSyntax {
                        path: owned(path),
                        line: 1,
                        message: owned("unknown encoding"),
                    });
                },
                Some((t, n, e)) => (t, n, e, !valid),
            }
        },
    };
    let warning = if had_errors {
        let mut m: Vec<char> = Vec::new();
        append_str(&mut m, path);
        append_str(&mut m, " contains byte sequences that are invalid for ");
        append_str(&mut m, name.as_str());
        Some(string_of(&m))
    } else if fallback {
        let mut m: Vec<char> = Vec::new();
        append_str(&mut m, path);
        append_str(&mut m, " is not UTF-8; it was read as windows-1252");
        Some(string_of(&m))
    } else {
        None
    };
    Ok((text, warning))
}

} // verus!
