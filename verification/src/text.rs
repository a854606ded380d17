//! Character-level text utilities shared by the configuration, command-line,
//! logging and launch modules. Text is modelled as `Seq<char>`; executable
//! code works on `Vec<char>` and converts at the edges.
use vstd::prelude::*;

verus! {

/// Unicode `White_Space`, the set used by `char::is_whitespace` and `str::trim`.
pub open spec fn is_ws(c: char) -> bool {
    let v = c as u32;
    ||| 0x09 <= v <= 0x0D
    ||| v == 0x20
    ||| v == 0x85
    ||| v == 0xA0
    ||| v == 0x1680
    ||| 0x2000 <= v <= 0x200A
    ||| v == 0x2028
    ||| v == 0x2029
    ||| v == 0x202F
    ||| v == 0x205F
    ||| v == 0x3000
}

pub fn is_whitespace(c: char) -> (r: bool)
    ensures
        r == is_ws(c),
{
    let v = c as u32;
    (0x09 <= v && v <= 0x0D) || v == 0x20 || v == 0x85 || v == 0xA0 || v == 0x1680 || (0x2000
        <= v && v <= 0x200A) || v == 0x2028 || v == 0x2029 || v == 0x202F || v == 0x205F || v
        == 0x3000
}

pub open spec fn trim_start(s: Seq<char>) -> Seq<char>
    decreases s.len(),
{
    if s.len() > 0 && is_ws(s[0]) {
        trim_start(s.drop_first())
    } else {
        s
    }
}

pub open spec fn trim_end(s: Seq<char>) -> Seq<char>
    decreases s.len(),
{
    if s.len() > 0 && is_ws(s.last()) {
        trim_end(s.drop_last())
    } else {
        s
    }
}

/// `str::trim`: leading and trailing whitespace removed.
pub open spec fn trim(s: Seq<char>) -> Seq<char> {
    trim_end(trim_start(s))
}

pub open spec fn is_ascii_upper(c: char) -> bool {
    65 <= (c as u32) <= 90
}

pub open spec fn is_ascii_lower(c: char) -> bool {
    97 <= (c as u32) <= 122
}

pub open spec fn is_digit(c: char) -> bool {
    48 <= (c as u32) <= 57
}

pub open spec fn lower_char(c: char) -> char {
    if is_ascii_upper(c) {
        ((c as u32) + 32) as char
    } else {
        c
    }
}

pub open spec fn upper_char(c: char) -> char {
    if is_ascii_lower(c) {
        ((c as u32) - 32) as char
    } else {
        c
    }
}

/// `str::to_ascii_lowercase`.
pub open spec fn lower(s: Seq<char>) -> Seq<char> {
    s.map_values(|c: char| lower_char(c))
}

/// `str::to_ascii_uppercase`.
pub open spec fn upper(s: Seq<char>) -> Seq<char> {
    s.map_values(|c: char| upper_char(c))
}

pub open spec fn starts_with(s: Seq<char>, p: Seq<char>) -> bool {
    p.len() <= s.len() && s.subrange(0, p.len() as int) == p
}

pub open spec fn ends_with(s: Seq<char>, p: Seq<char>) -> bool {
    p.len() <= s.len() && s.subrange(s.len() - p.len(), s.len() as int) == p
}

/// `p` occurs in `s` at position `i`.
pub open spec fn occurs_at<T>(s: Seq<T>, p: Seq<T>, i: int) -> bool {
    0 <= i && i + p.len() <= s.len() && s.subrange(i, i + p.len()) == p
}

pub open spec fn contains_seq<T>(s: Seq<T>, p: Seq<T>) -> bool {
    exists|i: int| occurs_at(s, p, i)
}

/// Index of the first occurrence of `c`, if any.
pub open spec fn first_index(s: Seq<char>, c: char) -> Option<int>
    decreases s.len(),
{
    if s.len() == 0 {
        None
    } else if s[0] == c {
        Some(0)
    } else {
        match first_index(s.drop_first(), c) {
            Some(i) => Some(i + 1),
            None => None,
        }
    }
}

pub open spec fn digit_value(c: char) -> int {
    (c as u32) - 48
}

/// Value of a sequence of decimal digits.
pub open spec fn digits_value(s: Seq<char>) -> int
    decreases s.len(),
{
    if s.len() == 0 {
        0
    } else {
        digits_value(s.drop_last()) * 10 + digit_value(s.last())
    }
}

pub open spec fn all_digits(s: Seq<char>) -> bool {
    forall|i: int| 0 <= i < s.len() ==> is_digit(#[trigger] s[i])
}

/// The value `str::parse` gives for an unsigned integer text: an optional `+`
/// followed by at least one decimal digit. Overflow is checked by the caller.
pub open spec fn unsigned_text_value(s: Seq<char>) -> Option<int> {
    let body = if s.len() > 0 && s[0] == '+' {
        s.drop_first()
    } else {
        s
    };
    if body.len() > 0 && all_digits(body) {
        Some(digits_value(body))
    } else {
        None
    }
}

/// `str::parse::<u64>`.
pub open spec fn parse_u64_spec(s: Seq<char>) -> Option<u64> {
    match unsigned_text_value(s) {
        Some(v) => if v <= u64::MAX {
            Some(v as u64)
        } else {
            None
        },
        None => None,
    }
}

/// `str::parse::<u32>`.
pub open spec fn parse_u32_spec(s: Seq<char>) -> Option<u32> {
    match unsigned_text_value(s) {
        Some(v) => if v <= u32::MAX {
            Some(v as u32)
        } else {
            None
        },
        None => None,
    }
}

/// `str::parse::<u16>`.
pub open spec fn parse_u16_spec(s: Seq<char>) -> Option<u16> {
    match unsigned_text_value(s) {
        Some(v) => if v <= u16::MAX {
            Some(v as u16)
        } else {
            None
        },
        None => None,
    }
}

/// `str::parse::<i32>`: an optional sign followed by decimal digits.
pub open spec fn parse_i32_spec(s: Seq<char>) -> Option<i32> {
    if s.len() > 0 && s[0] == '-' {
        let body = s.drop_first();
        if body.len() > 0 && all_digits(body) && digits_value(body) <= 0x8000_0000 {
            Some((-digits_value(body)) as i32)
        } else {
            None
        }
    } else {
        match unsigned_text_value(s) {
            Some(v) => if v <= i32::MAX {
                Some(v as i32)
            } else {
                None
            },
            None => None,
        }
    }
}

pub open spec fn digit_char(d: nat) -> char {
    ((d + 48) as u32) as char
}

/// Decimal rendering of a natural number, as `format!("{n}")` writes it.
pub open spec fn decimal(n: nat) -> Seq<char>
    decreases n,
{
    if n < 10 {
        seq![digit_char(n)]
    } else {
        decimal(n / 10).push(digit_char(n % 10))
    }
}

/// Decimal rendering of an integer with a leading `-` for negative values.
pub open spec fn signed_decimal(n: int) -> Seq<char> {
    if n < 0 {
        seq!['-'] + decimal((-n) as nat)
    } else {
        decimal(n as nat)
    }
}

#[verifier::external_body]
fn push_char(s: &mut String, c: char)
    ensures
        final(s)@ == old(s)@.push(c),
{
    s.push(c);
}

/// The characters of a string slice.
pub fn chars_of(s: &str) -> (r: Vec<char>)
    ensures
        r@ == s@,
{
    let mut out: Vec<char> = Vec::new();
    for c in it: s.chars()
        invariant
            out@ == it.seq().take(it.index() as int),
            it.seq() == s@,
    {
        out.push(c);
    }
    out
}

/// A string holding exactly the given characters.
pub fn string_of(cs: &[char]) -> (r: String)
    ensures
        r@ == cs@,
{
    let mut out = String::new();
    let mut i: usize = 0;
    while i < cs.len()
        invariant
            i <= cs.len(),
            out@ == cs@.take(i as int),
        decreases cs.len() - i,
    {
        push_char(&mut out, cs[i]);
        assert(cs@.take(i as int + 1) == cs@.take(i as int).push(cs@[i as int]));
        i += 1;
    }
    assert(cs@.take(cs.len() as int) == cs@);
    out
}

/// Appends `s` to `out`.
pub fn append(out: &mut Vec<char>, s: &[char])
    ensures
        final(out)@ == old(out)@ + s@,
{
    let ghost start = out@;
    let mut i: usize = 0;
    while i < s.len()
        invariant
            i <= s.len(),
            out@ == start + s@.take(i as int),
        decreases s.len() - i,
    {
        out.push(s[i]);
        assert(s@.take(i as int + 1) == s@.take(i as int).push(s@[i as int]));
        i += 1;
    }
    assert(s@.take(s.len() as int) == s@);
}

/// Appends the characters of `s` to `out`.
pub fn append_str(out: &mut Vec<char>, s: &str)
    ensures
        final(out)@ == old(out)@ + s@,
{
    let cs = chars_of(s);
    append(out, &cs);
}

/// The characters `s[start..end]`.
pub fn slice(s: &[char], start: usize, end: usize) -> (r: Vec<char>)
    requires
        start <= end <= s.len(),
    ensures
        r@ == s@.subrange(start as int, end as int),
{
    let mut out: Vec<char> = Vec::new();
    let mut i: usize = start;
    while i < end
        invariant
            start <= i <= end <= s.len(),
            out@ == s@.subrange(start as int, i as int),
        decreases end - i,
    {
        out.push(s[i]);
        assert(s@.subrange(start as int, i + 1) == s@.subrange(start as int, i as int).push(
            s@[i as int],
        ));
        i += 1;
    }
    out
}

pub fn chars_eq(a: &[char], b: &[char]) -> (r: bool)
    ensures
        r == (a@ == b@),
{
    if a.len() != b.len() {
        return false;
    }
    let mut i: usize = 0;
    while i < a.len()
        invariant
            a.len() == b.len(),
            i <= a.len(),
            forall|j: int| 0 <= j < i ==> a@[j] == b@[j],
        decreases a.len() - i,
    {
        if a[i] != b[i] {
            return false;
        }
        i += 1;
    }
    assert(a@ =~= b@);
    true
}

/// Whether the characters equal those of `b`.
pub fn chars_eq_str(a: &[char], b: &str) -> (r: bool)
    ensures
        r == (a@ == b@),
{
    let bs = chars_of(b);
    chars_eq(a, &bs)
}

pub fn starts_with_at(s: &[char], p: &[char], at: usize) -> (r: bool)
    requires
        at <= s.len(),
    ensures
        r == occurs_at(s@, p@, at as int),
{
    if p.len() > s.len() - at {
        return false;
    }
    let mut i: usize = 0;
    while i < p.len()
        invariant
            at + p.len() <= s.len(),
            i <= p.len(),
            forall|j: int| 0 <= j < i ==> s@[at + j] == p@[j],
        decreases p.len() - i,
    {
        if s[at + i] != p[i] {
            assert(s@.subrange(at as int, at + p.len())[i as int] != p@[i as int]);
            return false;
        }
        i += 1;
    }
    assert(s@.subrange(at as int, at + p.len()) =~= p@);
    true
}

pub fn starts_with_chars(s: &[char], p: &[char]) -> (r: bool)
    ensures
        r == starts_with(s@, p@),
{
    starts_with_at(s, p, 0)
}

pub fn starts_with_str(s: &[char], p: &str) -> (r: bool)
    ensures
        r == starts_with(s@, p@),
{
    let ps = chars_of(p);
    starts_with_at(s, &ps, 0)
}

pub fn ends_with_chars(s: &[char], p: &[char]) -> (r: bool)
    ensures
        r == ends_with(s@, p@),
{
    if p.len() > s.len() {
        return false;
    }
    starts_with_at(s, p, s.len() - p.len())
}

/// First position at which `p` occurs in `s`, if any.
pub fn find_seq(s: &[char], p: &[char]) -> (r: Option<usize>)
    ensures
        match r {
            Some(i) => occurs_at(s@, p@, i as int) && forall|j: int|
                0 <= j < i ==> !occurs_at(s@, p@, j),
            None => !contains_seq(s@, p@),
        },
{
    if p.len() > s.len() {
        assert forall|j: int| !occurs_at(s@, p@, j) by {}
        return None;
    }
    if p.len() == 0 {
        assert(s@.subrange(0, 0) =~= p@);
        return Some(0);
    }
    let mut i: usize = 0;
    while i <= s.len() - p.len()
        invariant
            1 <= p.len() <= s.len(),
            i <= s.len() - p.len() + 1,
            forall|j: int| 0 <= j < i ==> !occurs_at(s@, p@, j),
        decreases s.len() - p.len() + 1 - i,
    {
        if starts_with_at(s, p, i) {
            return Some(i);
        }
        i += 1;
    }
    assert forall|j: int| !occurs_at(s@, p@, j) by {
        if 0 <= j < i {
        }
    }
    None
}

pub fn contains_chars(s: &[char], p: &[char]) -> (r: bool)
    ensures
        r == contains_seq(s@, p@),
{
    match find_seq(s, p) {
        Some(_) => true,
        None => false,
    }
}

pub fn contains_str(s: &[char], p: &str) -> (r: bool)
    ensures
        r == contains_seq(s@, p@),
{
    let ps = chars_of(p);
    contains_chars(s, &ps)
}

pub fn contains_char(s: &[char], c: char) -> (r: bool)
    ensures
        r == s@.contains(c),
{
    let mut i: usize = 0;
    while i < s.len()
        invariant
            i <= s.len(),
            forall|j: int| 0 <= j < i ==> s@[j] != c,
        decreases s.len() - i,
    {
        if s[i] == c {
            return true;
        }
        i += 1;
    }
    false
}

/// Position of the first `c`, if any.
pub fn find_char(s: &[char], c: char) -> (r: Option<usize>)
    ensures
        match r {
            Some(i) => i < s.len() && s@[i as int] == c && forall|j: int| 0 <= j < i ==> s@[j] != c,
            None => !s@.contains(c),
        },
{
    let mut i: usize = 0;
    while i < s.len()
        invariant
            i <= s.len(),
            forall|j: int| 0 <= j < i ==> s@[j] != c,
        decreases s.len() - i,
    {
        if s[i] == c {
            return Some(i);
        }
        i += 1;
    }
    None
}

pub proof fn lemma_trim_start_skip(s: Seq<char>, i: int)
    requires
        0 <= i <= s.len(),
        forall|j: int| 0 <= j < i ==> is_ws(#[trigger] s[j]),
    ensures
        trim_start(s) == trim_start(s.skip(i)),
    decreases i,
{
    if i > 0 {
        assert(is_ws(s[0]));
        assert forall|j: int| 0 <= j < i - 1 implies is_ws(#[trigger] s.drop_first()[j]) by {
            assert(s.drop_first()[j] == s[j + 1]);
        }
        assert(s.drop_first().skip(i - 1) =~= s.skip(i));
        lemma_trim_start_skip(s.drop_first(), i - 1);
    } else {
        assert(s.skip(0) =~= s);
    }
}

pub proof fn lemma_trim_end_take(s: Seq<char>, i: int)
    requires
        0 <= i <= s.len(),
        forall|j: int| i <= j < s.len() ==> is_ws(#[trigger] s[j]),
    ensures
        trim_end(s) == trim_end(s.take(i)),
    decreases s.len() - i,
{
    if i < s.len() {
        assert(is_ws(s[s.len() - 1]));
        assert forall|j: int| i <= j < s.len() - 1 implies is_ws(#[trigger] s.drop_last()[j]) by {
            assert(s.drop_last()[j] == s[j]);
        }
        assert(s.drop_last().take(i) =~= s.take(i));
        lemma_trim_end_take(s.drop_last(), i);
    } else {
        assert(s.take(i) =~= s);
    }
}

/// `str::trim_start`.
pub fn trim_start_chars(s: &[char]) -> (r: Vec<char>)
    ensures
        r@ == trim_start(s@),
{
    let mut i: usize = 0;
    while i < s.len() && is_whitespace(s[i])
        invariant
            i <= s.len(),
            forall|j: int| 0 <= j < i ==> is_ws(#[trigger] s@[j]),
        decreases s.len() - i,
    {
        i += 1;
    }
    proof {
        lemma_trim_start_skip(s@, i as int);
        assert(s@.skip(i as int) =~= s@.subrange(i as int, s.len() as int));
    }
    slice(s, i, s.len())
}

/// `str::trim_end`.
pub fn trim_end_chars(s: &[char]) -> (r: Vec<char>)
    ensures
        r@ == trim_end(s@),
{
    let mut i: usize = s.len();
    while i > 0 && is_whitespace(s[i - 1])
        invariant
            i <= s.len(),
            forall|j: int| i <= j < s.len() ==> is_ws(#[trigger] s@[j]),
        decreases i,
    {
        i -= 1;
    }
    proof {
        lemma_trim_end_take(s@, i as int);
        assert(s@.take(i as int) =~= s@.subrange(0, i as int));
    }
    slice(s, 0, i)
}

/// `str::trim`.
pub fn trim_chars(s: &[char]) -> (r: Vec<char>)
    ensures
        r@ == trim(s@),
{
    let a = trim_start_chars(s);
    trim_end_chars(&a)
}

pub fn to_lower_char(c: char) -> (r: char)
    ensures
        r == lower_char(c),
{
    let cv = c as u32;
    if 65 <= cv && cv <= 90 {
        let v = (cv as u8) + 32;
        v as char
    } else {
        c
    }
}

pub fn to_upper_char(c: char) -> (r: char)
    ensures
        r == upper_char(c),
{
    let cv = c as u32;
    if 97 <= cv && cv <= 122 {
        let v = (cv as u8) - 32;
        v as char
    } else {
        c
    }
}

/// `str::to_ascii_lowercase`.
pub fn to_lower(s: &[char]) -> (r: Vec<char>)
    ensures
        r@ == lower(s@),
{
    let mut out: Vec<char> = Vec::new();
    let mut i: usize = 0;
    while i < s.len()
        invariant
            i <= s.len(),
            out@ == lower(s@.take(i as int)),
        decreases s.len() - i,
    {
        out.push(to_lower_char(s[i]));
        assert(lower(s@.take(i as int + 1)) =~= lower(s@.take(i as int)).push(lower_char(s@[i as int])));
        i += 1;
    }
    assert(s@.take(s.len() as int) =~= s@);
    out
}

/// `str::to_ascii_uppercase`.
pub fn to_upper(s: &[char]) -> (r: Vec<char>)
    ensures
        r@ == upper(s@),
{
    let mut out: Vec<char> = Vec::new();
    let mut i: usize = 0;
    while i < s.len()
        invariant
            i <= s.len(),
            out@ == upper(s@.take(i as int)),
        decreases s.len() - i,
    {
        out.push(to_upper_char(s[i]));
        assert(upper(s@.take(i as int + 1)) =~= upper(s@.take(i as int)).push(upper_char(s@[i as int])));
        i += 1;
    }
    assert(s@.take(s.len() as int) =~= s@);
    out
}

/// Trimmed, ASCII-uppercased text, the normal form used to read keywords.
pub fn keyword(s: &[char]) -> (r: Vec<char>)
    ensures
        r@ == upper(trim(s@)),
{
    let t = trim_chars(s);
    to_upper(&t)
}

/// Whether `s` (trimmed, ASCII case folded) is the keyword `k`, written in
/// upper case.
pub fn is_keyword(s: &[char], k: &str) -> (r: bool)
    ensures
        r == (upper(trim(s@)) == k@),
{
    let key = keyword(s);
    chars_eq_str(&key, k)
}

pub proof fn lemma_digits_value_push(s: Seq<char>, c: char)
    ensures
        digits_value(s.push(c)) == digits_value(s) * 10 + digit_value(c),
{
    assert(s.push(c).drop_last() =~= s);
}

pub proof fn lemma_digits_value_nonneg(s: Seq<char>)
    requires
        all_digits(s),
    ensures
        digits_value(s) >= 0,
    decreases s.len(),
{
    if s.len() > 0 {
        assert(all_digits(s.drop_last()));
        lemma_digits_value_nonneg(s.drop_last());
        assert(is_digit(s[s.len() - 1]));
    }
}

/// Value of the decimal digits `s[start..end]`, or `None` if any character
/// is not a digit, the range is empty, or the value exceeds `limit`.
pub fn digits_in_range(s: &[char], start: usize, end: usize, limit: u64) -> (r: Option<u64>)
    requires
        start <= end <= s.len(),
        limit >= 9,
    ensures
        ({
            let body = s@.subrange(start as int, end as int);
            match r {
                Some(v) => body.len() > 0 && all_digits(body) && v == digits_value(body) && v
                    <= limit,
                None => !(body.len() > 0 && all_digits(body) && digits_value(body) <= limit),
            }
        }),
{
    let ghost body = s@.subrange(start as int, end as int);
    if start == end {
        return None;
    }
    let mut value: u64 = 0;
    let mut i: usize = start;
    let mut over = false;
    while i < end
        invariant
            start <= i <= end <= s.len(),
            limit >= 9,
            body == s@.subrange(start as int, end as int),
            all_digits(s@.subrange(start as int, i as int)),
            !over ==> value == digits_value(s@.subrange(start as int, i as int)),
            !over ==> value <= limit,
            over ==> digits_value(s@.subrange(start as int, i as int)) > limit,
        decreases end - i,
    {
        let c = s[i];
        let cv = c as u32;
        if !(48 <= cv && cv <= 57) {
            assert(body[i - start] == c);
            return None;
        }
        let d = (cv - 48) as u64;
        proof {
            let pre = s@.subrange(start as int, i as int);
            assert(s@.subrange(start as int, i + 1) =~= pre.push(c));
            lemma_digits_value_push(pre, c);
            lemma_digits_value_nonneg(pre);
        }
        if !over {
            if value > (limit - d) / 10 {
                over = true;
                proof {
                    assert(value * 10 + d > limit) by (nonlinear_arith)
                        requires
                            value > (limit - d) / 10,
                            d <= limit || true,
                    {
                    }
                }
            } else {
                proof {
                    assert(value * 10 + d <= limit) by (nonlinear_arith)
                        requires
                            value <= (limit - d) / 10,
                    {
                    }
                }
                value = value * 10 + d;
            }
        } else {
            proof {
                let pre = s@.subrange(start as int, i as int);
                assert(digits_value(pre) * 10 + digit_value(c) > limit) by (nonlinear_arith)
                    requires
                        digits_value(pre) > limit,
                        digit_value(c) >= 0,
                {
                }
            }
        }
        i += 1;
    }
    if over {
        None
    } else {
        Some(value)
    }
}

/// `str::parse::<u64>` on characters.
pub fn parse_u64(s: &[char]) -> (r: Option<u64>)
    ensures
        r == parse_u64_spec(s@),
{
    let start: usize = if s.len() > 0 && s[0] == '+' {
        1
    } else {
        0
    };
    proof {
        if start == 1 {
            assert(s@.drop_first() =~= s@.subrange(1, s.len() as int));
        } else {
            assert(s@ =~= s@.subrange(0, s.len() as int));
        }
    }
    digits_in_range(s, start, s.len(), u64::MAX)
}

/// `str::parse::<u32>` on characters.
pub fn parse_u32(s: &[char]) -> (r: Option<u32>)
    ensures
        r == parse_u32_spec(s@),
{
    let start: usize = if s.len() > 0 && s[0] == '+' {
        1
    } else {
        0
    };
    proof {
        if start == 1 {
            assert(s@.drop_first() =~= s@.subrange(1, s.len() as int));
        } else {
            assert(s@ =~= s@.subrange(0, s.len() as int));
        }
    }
    match digits_in_range(s, start, s.len(), 0xFFFF_FFFF) {
        Some(v) => Some(v as u32),
        None => None,
    }
}

/// `str::parse::<u16>` on characters.
pub fn parse_u16(s: &[char]) -> (r: Option<u16>)
    ensures
        r == parse_u16_spec(s@),
{
    let start: usize = if s.len() > 0 && s[0] == '+' {
        1
    } else {
        0
    };
    proof {
        if start == 1 {
            assert(s@.drop_first() =~= s@.subrange(1, s.len() as int));
        } else {
            assert(s@ =~= s@.subrange(0, s.len() as int));
        }
    }
    match digits_in_range(s, start, s.len(), 0xFFFF) {
        Some(v) => Some(v as u16),
        None => None,
    }
}

/// `str::parse::<i32>` on characters.
pub fn parse_i32(s: &[char]) -> (r: Option<i32>)
    ensures
        r == parse_i32_spec(s@),
{
    if s.len() > 0 && s[0] == '-' {
        proof {
            assert(s@.drop_first() =~= s@.subrange(1, s.len() as int));
        }
        match digits_in_range(s, 1, s.len(), 0x8000_0000) {
            Some(v) => {
                let n: i64 = 0i64 - (v as i64);
                Some(n as i32)
            },
            None => None,
        }
    } else {
        let start: usize = if s.len() > 0 && s[0] == '+' {
            1
        } else {
            0
        };
        proof {
            if start == 1 {
                assert(s@.drop_first() =~= s@.subrange(1, s.len() as int));
            } else {
                assert(s@ =~= s@.subrange(0, s.len() as int));
            }
        }
        match digits_in_range(s, start, s.len(), 0x7FFF_FFFF) {
            Some(v) => Some(v as i32),
            None => None,
        }
    }
}

pub proof fn lemma_decimal_len(n: nat)
    ensures
        decimal(n).len() >= 1,
    decreases n,
{
    if n >= 10 {
        lemma_decimal_len(n / 10);
    }
}

/// `format!("{n}")` for an unsigned number, as characters.
pub fn decimal_chars(n: u64) -> (r: Vec<char>)
    ensures
        r@ == decimal(n as nat),
    decreases n,
{
    if n < 10 {
        let c = ((n as u8) + 48) as char;
        let mut v: Vec<char> = Vec::new();
        v.push(c);
        assert(v@ =~= seq![digit_char(n as nat)]);
        v
    } else {
        let mut v = decimal_chars(n / 10);
        let c = (((n % 10) as u8) + 48) as char;
        v.push(c);
        v
    }
}

/// `s` followed by spaces up to width `w`, as `format!("{s:<w$}")` pads.
pub open spec fn pad_end(s: Seq<char>, w: nat) -> Seq<char> {
    if s.len() >= w {
        s
    } else {
        s + Seq::new((w - s.len()) as nat, |i: int| ' ')
    }
}

/// `s` preceded by copies of `c` up to width `w`, as `format!("{n:w$}")`
/// (spaces) and `format!("{n:0w$}")` (zeros) pad numbers.
pub open spec fn pad_start(s: Seq<char>, w: nat, c: char) -> Seq<char> {
    if s.len() >= w {
        s
    } else {
        Seq::new((w - s.len()) as nat, |i: int| c) + s
    }
}

pub fn pad_end_chars(s: &[char], w: usize) -> (r: Vec<char>)
    ensures
        r@ == pad_end(s@, w as nat),
{
    let mut out: Vec<char> = slice(s, 0, s.len());
    assert(out@ =~= s@);
    if s.len() >= w {
        return out;
    }
    let mut i: usize = s.len();
    while i < w
        invariant
            s.len() <= i <= w,
            out@ == s@ + Seq::new((i - s.len()) as nat, |k: int| ' '),
        decreases w - i,
    {
        out.push(' ');
        assert(out@ =~= s@ + Seq::new((i + 1 - s.len()) as nat, |k: int| ' '));
        i += 1;
    }
    out
}

pub fn pad_start_chars(s: &[char], w: usize, c: char) -> (r: Vec<char>)
    ensures
        r@ == pad_start(s@, w as nat, c),
{
    if s.len() >= w {
        return slice(s, 0, s.len());
    }
    let mut out: Vec<char> = Vec::new();
    let mut i: usize = s.len();
    while i < w
        invariant
            s.len() <= i <= w,
            out@ == Seq::new((i - s.len()) as nat, |k: int| c),
        decreases w - i,
    {
        out.push(c);
        assert(out@ =~= Seq::new((i + 1 - s.len()) as nat, |k: int| c));
        i += 1;
    }
    append(&mut out, s);
    out
}

/// The UTF-8 bytes of a string slice.
pub fn bytes_of(s: &str) -> (r: Vec<u8>)
    ensures
        r@ == vstd::utf8::encode_utf8(s@),
{
    let b = s.as_bytes();
    let mut out: Vec<u8> = Vec::new();
    let mut i: usize = 0;
    while i < b.len()
        invariant
            i <= b.len(),
            out@ == b@.take(i as int),
        decreases b.len() - i,
    {
        out.push(b[i]);
        assert(b@.take(i + 1) =~= b@.take(i as int).push(b@[i as int]));
        i += 1;
    }
    assert(b@.take(b.len() as int) =~= b@);
    out
}

/// Appends bytes to `out`.
pub fn append_bytes(out: &mut Vec<u8>, s: &[u8])
    ensures
        final(out)@ == old(out)@ + s@,
{
    let ghost start = out@;
    let mut i: usize = 0;
    while i < s.len()
        invariant
            i <= s.len(),
            out@ == start + s@.take(i as int),
        decreases s.len() - i,
    {
        out.push(s[i]);
        assert(s@.take(i as int + 1) == s@.take(i as int).push(s@[i as int]));
        i += 1;
    }
    assert(s@.take(s.len() as int) == s@);
}

} // verus!
