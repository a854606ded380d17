//! Sorted name/value tables: the library's model of an ordered string map.
//! Names are unique and kept in increasing order of their characters, which
//! is the order in which a `BTreeMap<String, String>` yields its entries.
use vstd::prelude::*;

use crate::text::{chars_of};

verus! {

pub type Pair = (Seq<char>, Seq<char>);

/// The characters of the names and values of a table.
pub open spec fn pairs(t: Seq<(String, String)>) -> Seq<Pair> {
    t.map_values(|e: (String, String)| (e.0@, e.1@))
}

/// Lexicographic order on characters (code point order).
pub open spec fn lex_lt(a: Seq<char>, b: Seq<char>) -> bool
    decreases a.len(),
{
    if a.len() == 0 {
        b.len() > 0
    } else if b.len() == 0 {
        false
    } else if (a[0] as u32) < (b[0] as u32) {
        true
    } else if a[0] == b[0] {
        lex_lt(a.drop_first(), b.drop_first())
    } else {
        false
    }
}

pub open spec fn sorted(t: Seq<Pair>) -> bool {
    forall|i: int| 0 <= i < t.len() - 1 ==> lex_lt(#[trigger] t[i].0, t[i + 1].0)
}

pub open spec fn unique(t: Seq<Pair>) -> bool {
    forall|i: int, j: int| 0 <= i < j < t.len() ==> #[trigger] t[i].0 != #[trigger] t[j].0
}

pub open spec fn well_formed(t: Seq<Pair>) -> bool {
    sorted(t) && unique(t)
}

/// Some entry is named `k`.
pub open spec fn has_key(t: Seq<Pair>, k: Seq<char>) -> bool {
    exists|j: int| 0 <= j < t.len() && #[trigger] t[j].0 == k
}

/// The map a table stands for: each name to the value of its first entry.
pub open spec fn table_map(t: Seq<Pair>) -> Map<Seq<char>, Seq<char>> {
    Map::new(|q: Seq<char>| has_key(t, q), |q: Seq<char>| lookup(t, q)->0)
}

/// Value of the first entry named `k`.
pub open spec fn lookup(t: Seq<Pair>, k: Seq<char>) -> Option<Seq<char>>
    decreases t.len(),
{
    if t.len() == 0 {
        None
    } else if t[0].0 == k {
        Some(t[0].1)
    } else {
        lookup(t.drop_first(), k)
    }
}

pub proof fn lemma_lex_irreflexive(a: Seq<char>)
    ensures
        !lex_lt(a, a),
    decreases a.len(),
{
    if a.len() > 0 {
        lemma_lex_irreflexive(a.drop_first());
    }
}

pub proof fn lemma_lex_total(a: Seq<char>, b: Seq<char>)
    requires
        a != b,
        !lex_lt(a, b),
    ensures
        lex_lt(b, a),
    decreases a.len(),
{
    if a.len() == 0 {
        assert(b.len() == 0 ==> a =~= b);
    } else if b.len() == 0 {
    } else if a[0] != b[0] {
        vstd::utf8::char_u32_cast(a[0], a[0] as u32);
        vstd::utf8::char_u32_cast(b[0], b[0] as u32);
        assert((a[0] as u32) != (b[0] as u32));
    } else {
        if a.drop_first() == b.drop_first() {
            assert(a =~= seq![a[0]] + a.drop_first());
            assert(b =~= seq![b[0]] + b.drop_first());
        }
        lemma_lex_total(a.drop_first(), b.drop_first());
    }
}

/// `a < b` on characters.
pub fn less(a: &[char], b: &[char]) -> (r: bool)
    ensures
        r == lex_lt(a@, b@),
{
    let mut i: usize = 0;
    assert(a@.skip(0) =~= a@);
    assert(b@.skip(0) =~= b@);
    while i < a.len() && i < b.len()
        invariant
            i <= a.len(),
            i <= b.len(),
            lex_lt(a@, b@) == lex_lt(a@.skip(i as int), b@.skip(i as int)),
        decreases a.len() - i,
    {
        let x = a[i];
        let y = b[i];
        proof {
            assert(a@.skip(i as int)[0] == x);
            assert(b@.skip(i as int)[0] == y);
            assert(a@.skip(i as int).drop_first() =~= a@.skip(i as int + 1));
            assert(b@.skip(i as int).drop_first() =~= b@.skip(i as int + 1));
        }
        if (x as u32) < (y as u32) {
            return true;
        }
        if x != y {
            return false;
        }
        i += 1;
    }
    proof {
        assert(a@.skip(i as int).len() == a.len() - i);
    }
    i == a.len() && i < b.len()
}

proof fn lemma_lookup_absent(t: Seq<Pair>, k: Seq<char>)
    requires
        forall|i: int| 0 <= i < t.len() ==> #[trigger] t[i].0 != k,
    ensures
        lookup(t, k) is None,
    decreases t.len(),
{
    if t.len() > 0 {
        assert forall|i: int| 0 <= i < t.drop_first().len() implies #[trigger] t.drop_first()[i].0 != k by {
            assert(t.drop_first()[i] == t[i + 1]);
        }
        lemma_lookup_absent(t.drop_first(), k);
    }
}

proof fn lemma_lookup_at(t: Seq<Pair>, k: Seq<char>, i: int)
    requires
        0 <= i < t.len(),
        t[i].0 == k,
        forall|j: int| 0 <= j < i ==> #[trigger] t[j].0 != k,
    ensures
        lookup(t, k) == Some(t[i].1),
    decreases i,
{
    if i > 0 {
        assert forall|j: int| 0 <= j < i - 1 implies #[trigger] t.drop_first()[j].0 != k by {
            assert(t.drop_first()[j] == t[j + 1]);
        }
        lemma_lookup_at(t.drop_first(), k, i - 1);
    }
}

/// `lookup` finds a value exactly when some entry has the name.
pub proof fn lemma_lookup_some(t: Seq<Pair>, k: Seq<char>)
    ensures
        lookup(t, k) is Some <==> has_key(t, k),
    decreases t.len(),
{
    if t.len() > 0 {
        lemma_lookup_some(t.drop_first(), k);
        if has_key(t.drop_first(), k) {
            let j = choose|j: int| 0 <= j < t.drop_first().len() && #[trigger] t.drop_first()[j].0 == k;
            assert(t[j + 1].0 == k);
        }
        if has_key(t, k) && t[0].0 != k {
            let j = choose|j: int| 0 <= j < t.len() && #[trigger] t[j].0 == k;
            assert(t.drop_first()[j - 1].0 == k);
        }
    }
}

/// `lookup` agrees with the entry that holds the name, if there is one.
pub proof fn lemma_lookup_index(t: Seq<Pair>, k: Seq<char>)
    requires
        unique(t),
    ensures
        lookup(t, k) is Some <==> exists|i: int| 0 <= i < t.len() && #[trigger] t[i].0 == k,
        forall|i: int| 0 <= i < t.len() && #[trigger] t[i].0 == k ==> lookup(t, k) == Some(t[i].1),
{
    assert forall|i: int| 0 <= i < t.len() && #[trigger] t[i].0 == k implies lookup(t, k) == Some(
        t[i].1,
    ) by {
        assert forall|j: int| 0 <= j < i implies #[trigger] t[j].0 != k by {}
        lemma_lookup_at(t, k, i);
    }
    if !(exists|i: int| 0 <= i < t.len() && #[trigger] t[i].0 == k) {
        lemma_lookup_absent(t, k);
    }
}

/// Lookup in an arbitrary sequence of name/value pairs: the value of the
/// first entry with the name.
pub fn find_value<'a>(t: &'a [(String, String)], name: &str) -> (r: Option<&'a String>)
    ensures
        match lookup(pairs(t@), name@) {
            Some(v) => r matches Some(s) && s@ == v,
            None => r is None,
        },
        r is Some <==> table_map(pairs(t@)).contains_key(name@),
        r matches Some(s) ==> s@ == table_map(pairs(t@))[name@],
{
    let key = chars_of(name);
    let ghost p = pairs(t@);
    let mut i: usize = 0;
    while i < t.len()
        invariant
            i <= t.len(),
            p == pairs(t@),
            key@ == name@,
            forall|j: int| 0 <= j < i ==> #[trigger] p[j].0 != name@,
        decreases t.len() - i,
    {
        let candidate = chars_of(t[i].0.as_str());
        if crate::text::chars_eq(&candidate, &key) {
            proof {
                assert(p[i as int].0 == name@);
                lemma_lookup_at(p, name@, i as int);
                lemma_lookup_some(p, name@);
            }
            return Some(&t[i].1);
        }
        i += 1;
    }
    proof {
        lemma_lookup_absent(p, name@);
        lemma_lookup_some(p, name@);
    }
    None
}

/// Inserts or replaces the entry named `name`, keeping the table sorted and
/// its names unique.
pub fn insert(t: &mut Vec<(String, String)>, name: String, value: String)
    requires
        well_formed(pairs(old(t)@)),
    ensures
        well_formed(pairs(final(t)@)),
        lookup(pairs(final(t)@), name@) == Some(value@),
        forall|q: Seq<char>| q != name@ ==> lookup(pairs(final(t)@), q) == lookup(pairs(old(t)@), q),
        table_map(pairs(final(t)@)) == table_map(pairs(old(t)@)).insert(name@, value@),
{
    insert_entry(t, name, value);
    proof {
        let np = pairs(t@);
        let op = pairs(old(t)@);
        lemma_lookup_index(np, name@);
        assert forall|q: Seq<char>| #[trigger] has_key(np, q) == (has_key(op, q) || q == name@) by {
            lemma_lookup_index(np, q);
            lemma_lookup_index(op, q);
        }
        assert(table_map(np) =~= table_map(op).insert(name@, value@));
    }
}

fn insert_entry(t: &mut Vec<(String, String)>, name: String, value: String)
    requires
        well_formed(pairs(old(t)@)),
    ensures
        well_formed(pairs(final(t)@)),
        lookup(pairs(final(t)@), name@) == Some(value@),
        forall|q: Seq<char>| q != name@ ==> lookup(pairs(final(t)@), q) == lookup(pairs(old(t)@), q),
{
    let key = chars_of(name.as_str());
    let ghost old_p = pairs(t@);
    let ghost nv = (name@, value@);
    let mut i: usize = 0;
    while i < t.len()
        invariant
            i <= t.len(),
            t@ == old(t)@,
            old_p == pairs(t@),
            well_formed(old_p),
            key@ == name@,
            nv == (name@, value@),
            forall|j: int| 0 <= j < i ==> lex_lt(#[trigger] old_p[j].0, name@),
        decreases t.len() - i,
    {
        let candidate = chars_of(t[i].0.as_str());
        if crate::text::chars_eq(&candidate, &key) {
            t.set(i, (name, value));
            proof {
                assert(pairs(t@) =~= old_p.update(i as int, nv));
                lemma_replace(old_p, i as int, nv);
            }
            return;
        }
        if crate::table::less(&key, &candidate) {
            t.insert(i, (name, value));
            proof {
                assert(pairs(t@) =~= old_p.insert(i as int, nv));
                lemma_insert_before(old_p, i as int, nv);
            }
            return;
        }
        proof {
            assert(old_p[i as int].0 == candidate@);
            lemma_lex_total(name@, candidate@);
        }
        i += 1;
    }
    t.push((name, value));
    proof {
        assert(pairs(t@) =~= old_p.push(nv));
        lemma_append(old_p, nv);
    }
}

proof fn lemma_same_lookup_elsewhere(old_p: Seq<Pair>, np: Seq<Pair>, k: Seq<char>)
    requires
        unique(old_p),
        unique(np),
        forall|q: Seq<char>| q != k ==> (#[trigger] has_key(np, q) <==> has_key(old_p, q)),
        forall|j1: int, j2: int|
            0 <= j1 < np.len() && 0 <= j2 < old_p.len() && #[trigger] np[j1].0 == #[trigger] old_p[j2].0
                && np[j1].0 != k ==> np[j1].1 == old_p[j2].1,
    ensures
        forall|q: Seq<char>| q != k ==> lookup(np, q) == lookup(old_p, q),
{
    assert forall|q: Seq<char>| q != k implies lookup(np, q) == lookup(old_p, q) by {
        lemma_lookup_index(np, q);
        lemma_lookup_index(old_p, q);
        assert(has_key(np, q) <==> has_key(old_p, q));
        if exists|j: int| 0 <= j < np.len() && #[trigger] np[j].0 == q {
            let j1 = choose|j: int| 0 <= j < np.len() && #[trigger] np[j].0 == q;
            assert(has_key(np, q));
            assert(has_key(old_p, q));
            let j2 = choose|j: int| 0 <= j < old_p.len() && #[trigger] old_p[j].0 == q;
            assert(np[j1].1 == old_p[j2].1);
        }
    }
}

proof fn lemma_replace(old_p: Seq<Pair>, i: int, nv: Pair)
    requires
        well_formed(old_p),
        0 <= i < old_p.len(),
        old_p[i].0 == nv.0,
        forall|j: int| 0 <= j < i ==> lex_lt(#[trigger] old_p[j].0, nv.0),
    ensures
        well_formed(old_p.update(i, nv)),
        lookup(old_p.update(i, nv), nv.0) == Some(nv.1),
        forall|q: Seq<char>| q != nv.0 ==> lookup(old_p.update(i, nv), q) == lookup(old_p, q),
{
    let np = old_p.update(i, nv);
    assert(unique(np));
    assert(sorted(np));
    assert forall|j: int| 0 <= j < i implies #[trigger] np[j].0 != nv.0 by {
        lemma_lex_irreflexive(nv.0);
    }
    lemma_lookup_at(np, nv.0, i);
    assert forall|q: Seq<char>| q != nv.0 implies (#[trigger] has_key(np, q) <==> has_key(old_p, q)) by {
        if exists|j: int| 0 <= j < np.len() && #[trigger] np[j].0 == q {
            let j = choose|j: int| 0 <= j < np.len() && #[trigger] np[j].0 == q;
            assert(old_p[j].0 == q);
        }
        if exists|j: int| 0 <= j < old_p.len() && #[trigger] old_p[j].0 == q {
            let j = choose|j: int| 0 <= j < old_p.len() && #[trigger] old_p[j].0 == q;
            assert(np[j].0 == q);
        }
    }
    assert forall|j1: int, j2: int|
        0 <= j1 < np.len() && 0 <= j2 < old_p.len() && #[trigger] np[j1].0 == #[trigger] old_p[j2].0
            && np[j1].0 != nv.0 implies np[j1].1 == old_p[j2].1 by {
        assert(j1 != i);
        assert(np[j1] == old_p[j1]);
    }
    lemma_same_lookup_elsewhere(old_p, np, nv.0);
}

proof fn lemma_insert_before_wf(old_p: Seq<Pair>, i: int, nv: Pair)
    requires
        well_formed(old_p),
        0 <= i < old_p.len(),
        lex_lt(nv.0, old_p[i].0),
        forall|j: int| 0 <= j < i ==> lex_lt(#[trigger] old_p[j].0, nv.0),
    ensures
        well_formed(old_p.insert(i, nv)),
        forall|j: int| 0 <= j < old_p.len() ==> #[trigger] old_p[j].0 != nv.0,
{
    let np = old_p.insert(i, nv);
    assert forall|j: int| 0 <= j < old_p.len() implies #[trigger] old_p[j].0 != nv.0 by {
        if j < i {
            lemma_lex_irreflexive(nv.0);
        } else {
            lemma_sorted_after(old_p, i, j, nv.0);
            lemma_lex_irreflexive(nv.0);
        }
    }
    assert forall|a: int, b: int| 0 <= a < b < np.len() implies #[trigger] np[a].0 != #[trigger] np[b].0 by {
        if a < i {
            if b == i {
            } else if b < i {
            } else {
                assert(np[b] == old_p[b - 1]);
            }
        } else if a == i {
            assert(np[b] == old_p[b - 1]);
        } else {
            assert(np[a] == old_p[a - 1]);
            assert(np[b] == old_p[b - 1]);
        }
    }
    assert(unique(np));
    assert forall|j: int| 0 <= j < np.len() - 1 implies lex_lt(#[trigger] np[j].0, np[j + 1].0) by {
        if j < i - 1 {
        } else if j == i - 1 {
        } else if j == i {
        } else {
            assert(np[j] == old_p[j - 1]);
            assert(np[j + 1] == old_p[j]);
        }
    }
    assert(sorted(np));
}

proof fn lemma_insert_before(old_p: Seq<Pair>, i: int, nv: Pair)
    requires
        well_formed(old_p),
        0 <= i < old_p.len(),
        lex_lt(nv.0, old_p[i].0),
        forall|j: int| 0 <= j < i ==> lex_lt(#[trigger] old_p[j].0, nv.0),
    ensures
        well_formed(old_p.insert(i, nv)),
        lookup(old_p.insert(i, nv), nv.0) == Some(nv.1),
        forall|q: Seq<char>| q != nv.0 ==> lookup(old_p.insert(i, nv), q) == lookup(old_p, q),
{
    lemma_insert_before_wf(old_p, i, nv);
    let np = old_p.insert(i, nv);
    assert forall|j: int| 0 <= j < i implies #[trigger] np[j].0 != nv.0 by {
        assert(np[j] == old_p[j]);
    }
    lemma_lookup_at(np, nv.0, i);
    assert forall|q: Seq<char>| q != nv.0 implies (#[trigger] has_key(np, q) <==> has_key(old_p, q)) by {
        if exists|j: int| 0 <= j < np.len() && #[trigger] np[j].0 == q {
            let j = choose|j: int| 0 <= j < np.len() && #[trigger] np[j].0 == q;
            if j < i {
                assert(old_p[j].0 == q);
            } else {
                assert(old_p[j - 1].0 == q);
            }
        }
        if exists|j: int| 0 <= j < old_p.len() && #[trigger] old_p[j].0 == q {
            let j = choose|j: int| 0 <= j < old_p.len() && #[trigger] old_p[j].0 == q;
            if j < i {
                assert(np[j].0 == q);
            } else {
                assert(np[j + 1].0 == q);
            }
        }
    }
    assert forall|j1: int, j2: int|
        0 <= j1 < np.len() && 0 <= j2 < old_p.len() && #[trigger] np[j1].0 == #[trigger] old_p[j2].0
            && np[j1].0 != nv.0 implies np[j1].1 == old_p[j2].1 by {
        if j1 < i {
            assert(np[j1] == old_p[j1]);
        } else {
            assert(np[j1] == old_p[j1 - 1]);
        }
    }
    lemma_same_lookup_elsewhere(old_p, np, nv.0);
}

proof fn lemma_append(old_p: Seq<Pair>, nv: Pair)
    requires
        well_formed(old_p),
        forall|j: int| 0 <= j < old_p.len() ==> lex_lt(#[trigger] old_p[j].0, nv.0),
    ensures
        well_formed(old_p.push(nv)),
        lookup(old_p.push(nv), nv.0) == Some(nv.1),
        forall|q: Seq<char>| q != nv.0 ==> lookup(old_p.push(nv), q) == lookup(old_p, q),
{
    let np = old_p.push(nv);
    assert forall|j: int| 0 <= j < old_p.len() implies #[trigger] old_p[j].0 != nv.0 by {
        lemma_lex_irreflexive(nv.0);
    }
    assert(unique(np));
    assert(sorted(np));
    assert forall|j: int| 0 <= j < old_p.len() implies #[trigger] np[j].0 != nv.0 by {
        assert(np[j] == old_p[j]);
    }
    lemma_lookup_at(np, nv.0, old_p.len() as int);
    assert forall|q: Seq<char>| q != nv.0 implies (#[trigger] has_key(np, q) <==> has_key(old_p, q)) by {
        if exists|j: int| 0 <= j < np.len() && #[trigger] np[j].0 == q {
            let j = choose|j: int| 0 <= j < np.len() && #[trigger] np[j].0 == q;
            assert(old_p[j].0 == q);
        }
        if exists|j: int| 0 <= j < old_p.len() && #[trigger] old_p[j].0 == q {
            let j = choose|j: int| 0 <= j < old_p.len() && #[trigger] old_p[j].0 == q;
            assert(np[j].0 == q);
        }
    }
    assert forall|j1: int, j2: int|
        0 <= j1 < np.len() && 0 <= j2 < old_p.len() && #[trigger] np[j1].0 == #[trigger] old_p[j2].0
            && np[j1].0 != nv.0 implies np[j1].1 == old_p[j2].1 by {
        assert(np[j1] == old_p[j1]);
    }
    lemma_same_lookup_elsewhere(old_p, np, nv.0);
}

proof fn lemma_lex_trans(a: Seq<char>, b: Seq<char>, c: Seq<char>)
    requires
        lex_lt(a, b),
        lex_lt(b, c),
    ensures
        lex_lt(a, c),
    decreases a.len(),
{
    if a.len() > 0 && b.len() > 0 && c.len() > 0 {
        if a[0] == b[0] && b[0] == c[0] {
            lemma_lex_trans(a.drop_first(), b.drop_first(), c.drop_first());
        }
    }
}

/// In a sorted table, every name from position `i` on is above a name
/// below the name at `i`.
proof fn lemma_sorted_after(t: Seq<Pair>, i: int, j: int, k: Seq<char>)
    requires
        sorted(t),
        0 <= i <= j < t.len(),
        lex_lt(k, t[i].0),
    ensures
        lex_lt(k, t[j].0),
    decreases j - i,
{
    if j > i {
        lemma_sorted_after(t, i, j - 1, k);
        lemma_lex_trans(k, t[j - 1].0, t[j].0);
    }
}

/// The empty table.
pub proof fn lemma_empty_well_formed()
    ensures
        well_formed(Seq::<Pair>::empty()),
{
}

} // verus!
