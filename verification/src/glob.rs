//! Wildcard patterns for output filters: `*` stands for any run of bytes
//! and `?` for any single byte; every other byte stands for itself.
use vstd::prelude::*;

verus! {

pub open spec fn is_star(b: u8) -> bool {
    b == 42u8
}

pub open spec fn is_any(b: u8) -> bool {
    b == 63u8
}

/// Some prefix of `t` matches the whole pattern `p`.
pub open spec fn glob_prefix(t: Seq<u8>, p: Seq<u8>) -> bool
    decreases p.len(), t.len(),
{
    if p.len() == 0 {
        true
    } else if is_star(p[0]) {
        glob_prefix(t, p.drop_first()) || (t.len() > 0 && glob_prefix(t.drop_first(), p))
    } else {
        t.len() > 0 && (is_any(p[0]) || p[0] == t[0]) && glob_prefix(t.drop_first(), p.drop_first())
    }
}

/// The pattern matches a part of `t` that starts anywhere.
pub open spec fn glob_contains(t: Seq<u8>, p: Seq<u8>) -> bool {
    exists|s: int| 0 <= s <= t.len() && glob_prefix(#[trigger] t.skip(s), p)
}

/// One step of the definition, at positions `a` of the text and `j` of the
/// pattern.
proof fn lemma_unfold(t: Seq<u8>, p: Seq<u8>, a: int, j: int)
    requires
        0 <= a <= t.len(),
        0 <= j < p.len(),
    ensures
        is_star(p[j]) ==> glob_prefix(t.skip(a), p.skip(j)) == (glob_prefix(t.skip(a), p.skip(j + 1)) || (a
            < t.len() && glob_prefix(t.skip(a + 1), p.skip(j)))),
        !is_star(p[j]) ==> glob_prefix(t.skip(a), p.skip(j)) == (a < t.len() && (is_any(p[j]) || p[j]
            == t[a]) && glob_prefix(t.skip(a + 1), p.skip(j + 1))),
{
    assert(p.skip(j).drop_first() =~= p.skip(j + 1));
    assert(p.skip(j)[0] == p[j]);
    if a < t.len() {
        assert(t.skip(a).drop_first() =~= t.skip(a + 1));
        assert(t.skip(a)[0] == t[a]);
    }
}

/// A star at `j` lets the rest of the pattern start at any later position.
proof fn lemma_star(t: Seq<u8>, p: Seq<u8>, a: int, j: int)
    requires
        0 <= a <= t.len(),
        0 <= j < p.len(),
        is_star(p[j]),
    ensures
        glob_prefix(t.skip(a), p.skip(j)) == exists|k: int|
            a <= k <= t.len() && glob_prefix(#[trigger] t.skip(k), p.skip(j + 1)),
    decreases t.len() - a,
{
    lemma_unfold(t, p, a, j);
    if a < t.len() {
        lemma_star(t, p, a + 1, j);
        if glob_prefix(t.skip(a), p.skip(j)) {
            if glob_prefix(t.skip(a), p.skip(j + 1)) {
                assert(glob_prefix(t.skip(a), p.skip(j + 1)));
            } else {
                let k = choose|k: int| a + 1 <= k <= t.len() && glob_prefix(#[trigger] t.skip(k), p.skip(j + 1));
                assert(a <= k <= t.len() && glob_prefix(t.skip(k), p.skip(j + 1)));
            }
        }
        if exists|k: int| a <= k <= t.len() && glob_prefix(#[trigger] t.skip(k), p.skip(j + 1)) {
            let k = choose|k: int| a <= k <= t.len() && glob_prefix(#[trigger] t.skip(k), p.skip(j + 1));
            if k > a {
                assert(a + 1 <= k <= t.len() && glob_prefix(t.skip(k), p.skip(j + 1)));
            }
        }
    } else {
        if exists|k: int| a <= k <= t.len() && glob_prefix(#[trigger] t.skip(k), p.skip(j + 1)) {
            let k = choose|k: int| a <= k <= t.len() && glob_prefix(#[trigger] t.skip(k), p.skip(j + 1));
            assert(k == a);
        }
    }
}

/// A star-free stretch of the pattern, from `j` up to `e`, consumes exactly
/// as many bytes as it has.
proof fn lemma_segment(t: Seq<u8>, p: Seq<u8>, k: int, j: int, e: int)
    requires
        0 <= k <= t.len(),
        0 <= j <= e <= p.len(),
        forall|q: int| j <= q < e ==> !is_star(#[trigger] p[q]),
        glob_prefix(t.skip(k), p.skip(j)),
    ensures
        k + (e - j) <= t.len(),
        glob_prefix(t.skip(k + (e - j)), p.skip(e)),
    decreases e - j,
{
    if j < e {
        lemma_unfold(t, p, k, j);
        lemma_segment(t, p, k + 1, j + 1, e);
    }
}

/// Whether some prefix of `text[start..]` matches `pattern`: a scan that
/// backtracks only to the last star seen.
fn matches_from(text: &[u8], start: usize, pattern: &[u8]) -> (r: bool)
    requires
        start <= text.len(),
    ensures
        r == glob_prefix(text@.skip(start as int), pattern@),
{
    let ghost t = text@;
    let ghost p = pattern@;
    let ghost goal = glob_prefix(t.skip(start as int), p);
    assert(p.skip(0) =~= p);
    let mut text_index: usize = start;
    let mut pattern_index: usize = 0;
    let mut last_star: Option<usize> = None;
    let mut star_text_index: usize = start;
    loop
        invariant
            t == text@,
            p == pattern@,
            goal == glob_prefix(t.skip(start as int), p),
            start <= star_text_index <= text_index <= text.len(),
            pattern_index <= pattern.len(),
            match last_star {
                None => goal == glob_prefix(t.skip(text_index as int), p.skip(pattern_index as int))
                    && star_text_index == start && text_index >= start,
                Some(s) => {
                    &&& s < pattern_index
                    &&& is_star(p[s as int])
                    &&& forall|q: int| s < q < pattern_index ==> !is_star(#[trigger] p[q])
                    &&& text_index - star_text_index == pattern_index - s - 1
                    &&& glob_prefix(t.skip(star_text_index as int), p.skip(s + 1)) == glob_prefix(
                        t.skip(text_index as int),
                        p.skip(pattern_index as int),
                    )
                    &&& goal == exists|k: int|
                        star_text_index <= k <= t.len() && glob_prefix(#[trigger] t.skip(k), p.skip(s + 1))
                },
            },
        decreases text.len() - star_text_index, pattern.len() - pattern_index,
    {
        if pattern_index == pattern.len() {
            proof {
                assert(p.skip(pattern_index as int) =~= Seq::<u8>::empty());
                match last_star {
                    None => {},
                    Some(s) => {
                        assert(glob_prefix(t.skip(star_text_index as int), p.skip(s + 1)));
                    },
                }
            }
            return true;
        }
        if pattern[pattern_index] == 42u8 {
            proof {
                lemma_star(t, p, text_index as int, pattern_index as int);
                match last_star {
                    None => {},
                    Some(s) => {
                        let ghost ti = text_index as int;
                        let ghost pi = pattern_index as int;
                        if goal {
                            let k = choose|k: int|
                                star_text_index <= k <= t.len() && glob_prefix(#[trigger] t.skip(k), p.skip(s + 1));
                            lemma_segment(t, p, k, s + 1, pi);
                            lemma_star(t, p, k + (pi - s - 1), pi);
                            let k2 = choose|k2: int|
                                k + (pi - s - 1) <= k2 <= t.len() && glob_prefix(#[trigger] t.skip(k2), p.skip(pi + 1));
                            assert(ti <= k2 <= t.len() && glob_prefix(t.skip(k2), p.skip(pi + 1)));
                        }
                        if exists|k: int| ti <= k <= t.len() && glob_prefix(#[trigger] t.skip(k), p.skip(pi + 1)) {
                            assert(glob_prefix(t.skip(star_text_index as int), p.skip(s + 1)));
                        }
                    },
                }
            }
            last_star = Some(pattern_index);
            pattern_index += 1;
            star_text_index = text_index;
            continue;
        }
        if text_index < text.len() && (pattern[pattern_index] == 63u8 || pattern[pattern_index]
            == text[text_index]) {
            proof {
                lemma_unfold(t, p, text_index as int, pattern_index as int);
            }
            pattern_index += 1;
            text_index += 1;
            continue;
        }
        proof {
            lemma_unfold(t, p, text_index as int, pattern_index as int);
        }
        match last_star {
            None => {
                return false;
            },
            Some(star_index) => {
                if star_text_index == text.len() {
                    proof {
                        if goal {
                            let k = choose|k: int|
                                star_text_index <= k <= t.len() && glob_prefix(#[trigger] t.skip(k), p.skip(star_index + 1));
                            assert(k == star_text_index);
                        }
                    }
                    return false;
                }
                proof {
                    let ghost old_sti = star_text_index as int;
                    if goal {
                        let k = choose|k: int|
                            old_sti <= k <= t.len() && glob_prefix(#[trigger] t.skip(k), p.skip(star_index + 1));
                        assert(k != old_sti);
                        assert(old_sti + 1 <= k <= t.len() && glob_prefix(t.skip(k), p.skip(star_index + 1)));
                    }
                }
                star_text_index += 1;
                text_index = star_text_index;
                pattern_index = star_index + 1;
            },
        }
    }
}

/// Whether a prefix of `text` matches `pattern`.
pub fn wildcard_matches_prefix(text: &[u8], pattern: &[u8]) -> (r: bool)
    ensures
        r == glob_prefix(text@, pattern@),
{
    assert(text@.skip(0) =~= text@);
    matches_from(text, 0, pattern)
}

/// Whether `pattern` matches somewhere in `text`.
pub fn wildcard_contains(text: &[u8], pattern: &[u8]) -> (r: bool)
    ensures
        r == glob_contains(text@, pattern@),
{
    let mut start: usize = 0;
    while start < text.len()
        invariant
            start <= text.len(),
            forall|s: int| 0 <= s < start ==> !glob_prefix(#[trigger] text@.skip(s), pattern@),
        decreases text.len() - start,
    {
        if matches_from(text, start, pattern) {
            return true;
        }
        start += 1;
    }
    matches_from(text, text.len(), pattern)
}

} // verus!
