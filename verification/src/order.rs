use vstd::prelude::*;
use vstd::relations::*;
use crate::text::chars_of;

verus! {

/// Strict lexicographic order on character sequences, comparing characters
/// by their code points. For valid UTF-8 this is the order in which `Ord`
/// compares two `String`s (byte-wise order of UTF-8 agrees with code point
/// order).
pub open spec fn lex_lt(a: Seq<char>, b: Seq<char>) -> bool
    decreases a.len(),
{
    if a.len() == 0 {
        b.len() > 0
    } else if b.len() == 0 {
        false
    } else if a[0] == b[0] {
        lex_lt(a.drop_first(), b.drop_first())
    } else {
        (a[0] as int) < (b[0] as int)
    }
}

/// The reflexive closure of `lex_lt`.
pub open spec fn lex_le(a: Seq<char>, b: Seq<char>) -> bool {
    a == b || lex_lt(a, b)
}

/// `s` is in strictly increasing lexicographic order (so it holds no duplicates).
pub open spec fn strictly_sorted(s: Seq<Seq<char>>) -> bool {
    forall|i: int, j: int| 0 <= i < j < s.len() ==> lex_lt(#[trigger] s[i], #[trigger] s[j])
}

/// `s` is in non-decreasing lexicographic order.
pub open spec fn sorted(s: Seq<Seq<char>>) -> bool {
    forall|i: int, j: int| 0 <= i < j < s.len() ==> lex_le(#[trigger] s[i], #[trigger] s[j])
}

/// The views of a sequence of strings.
pub open spec fn string_views(v: Seq<String>) -> Seq<Seq<char>> {
    v.map_values(|s: String| s@)
}

proof fn lemma_drop_first_eq(a: Seq<char>, b: Seq<char>)
    requires
        a.len() > 0,
        b.len() > 0,
        a[0] == b[0],
        a.drop_first() == b.drop_first(),
    ensures
        a == b,
{
    assert(a =~= seq![a[0]] + a.drop_first());
    assert(b =~= seq![b[0]] + b.drop_first());
}

pub proof fn lemma_lex_lt_irreflexive(a: Seq<char>)
    ensures
        !lex_lt(a, a),
    decreases a.len(),
{
    if a.len() > 0 {
        lemma_lex_lt_irreflexive(a.drop_first());
    }
}

pub proof fn lemma_lex_lt_asymmetric(a: Seq<char>, b: Seq<char>)
    ensures
        lex_lt(a, b) ==> !lex_lt(b, a),
    decreases a.len(),
{
    if a.len() > 0 && b.len() > 0 && a[0] == b[0] {
        lemma_lex_lt_asymmetric(a.drop_first(), b.drop_first());
    }
}

pub proof fn lemma_lex_lt_transitive(a: Seq<char>, b: Seq<char>, c: Seq<char>)
    ensures
        lex_lt(a, b) && lex_lt(b, c) ==> lex_lt(a, c),
    decreases a.len(),
{
    if a.len() > 0 && b.len() > 0 && c.len() > 0 {
        lemma_lex_lt_transitive(a.drop_first(), b.drop_first(), c.drop_first());
    }
}

pub proof fn lemma_lex_lt_connected(a: Seq<char>, b: Seq<char>)
    ensures
        a != b ==> lex_lt(a, b) || lex_lt(b, a),
    decreases a.len(),
{
    if a.len() == 0 {
        assert(b.len() == 0 ==> a =~= b);
    } else if b.len() > 0 && a[0] == b[0] {
        lemma_lex_lt_connected(a.drop_first(), b.drop_first());
        if a.drop_first() == b.drop_first() {
            lemma_drop_first_eq(a, b);
        }
    } else if b.len() > 0 {
        assert((a[0] as int) != (b[0] as int));
    }
}

/// `lex_le` is a total order.
pub proof fn lemma_lex_le_total()
    ensures
        total_ordering(|a: Seq<char>, b: Seq<char>| lex_le(a, b)),
{
    let leq = |a: Seq<char>, b: Seq<char>| lex_le(a, b);
    assert forall|x: Seq<char>, y: Seq<char>| #[trigger] leq(x, y) && #[trigger] leq(y, x) implies x
        == y by {
        lemma_lex_lt_asymmetric(x, y);
    }
    assert forall|x: Seq<char>, y: Seq<char>, z: Seq<char>| #[trigger] leq(x, y) && #[trigger] leq(
        y,
        z,
    ) implies leq(x, z) by {
        lemma_lex_lt_transitive(x, y, z);
    }
    assert forall|x: Seq<char>, y: Seq<char>| #[trigger] leq(x, y) || #[trigger] leq(y, x) by {
        lemma_lex_lt_connected(x, y);
    }
}

proof fn lemma_lex_lt_skip(a: Seq<char>, b: Seq<char>, i: int)
    requires
        0 <= i < a.len(),
        i < b.len(),
        a[i] == b[i],
    ensures
        lex_lt(a.skip(i), b.skip(i)) == lex_lt(a.skip(i + 1), b.skip(i + 1)),
{
    assert(a.skip(i).drop_first() =~= a.skip(i + 1));
    assert(b.skip(i).drop_first() =~= b.skip(i + 1));
}

/// Whether `a` comes strictly before `b` in the order that `Ord` gives `String`s.
pub fn str_lt(a: &str, b: &str) -> (r: bool)
    ensures
        r == lex_lt(a@, b@),
{
    let va = chars_of(a);
    let vb = chars_of(b);
    let mut i: usize = 0;
    assert(a@.skip(0) =~= a@);
    assert(b@.skip(0) =~= b@);
    while i < va.len() && i < vb.len()
        invariant
            i <= va.len(),
            i <= vb.len(),
            va@ == a@,
            vb@ == b@,
            lex_lt(a@, b@) == lex_lt(a@.skip(i as int), b@.skip(i as int)),
        decreases va.len() - i,
    {
        if va[i] != vb[i] {
            return va[i] < vb[i];
        }
        proof {
            lemma_lex_lt_skip(a@, b@, i as int);
        }
        i = i + 1;
    }
    i < vb.len()
}

proof fn lemma_not_lt_is_le(a: Seq<char>, b: Seq<char>)
    ensures
        !lex_lt(a, b) ==> lex_le(b, a),
{
    lemma_lex_lt_connected(a, b);
}

proof fn lemma_views_insert(v: Seq<String>, j: int, x: String)
    requires
        0 <= j <= v.len(),
    ensures
        string_views(v.insert(j, x)) == string_views(v).insert(j, x@),
{
    assert(string_views(v.insert(j, x)) =~= string_views(v).insert(j, x@));
}

proof fn lemma_views_remove(v: Seq<String>, j: int)
    requires
        0 <= j < v.len(),
    ensures
        string_views(v.remove(j)) == string_views(v).remove(j),
{
    assert(string_views(v.remove(j)) =~= string_views(v).remove(j));
}

proof fn lemma_insert_to_set(s: Seq<Seq<char>>, j: int, x: Seq<char>)
    requires
        0 <= j <= s.len(),
    ensures
        s.insert(j, x).to_set() == s.to_set().insert(x),
{
    let t = s.insert(j, x);
    assert forall|y: Seq<char>| t.to_set().contains(y) <==> s.to_set().insert(x).contains(y) by {
        if t.contains(y) {
            let k = choose|k: int| 0 <= k < t.len() && t[k] == y;
            if k < j {
                assert(s[k] == y);
            } else if k > j {
                assert(s[k - 1] == y);
            }
        }
        if s.contains(y) {
            let k = choose|k: int| 0 <= k < s.len() && s[k] == y;
            if k < j {
                assert(t[k] == y);
            } else {
                assert(t[k + 1] == y);
            }
        }
        if y == x {
            assert(t[j] == x);
        }
    }
    assert(t.to_set() =~= s.to_set().insert(x));
}

proof fn lemma_remove_to_set(s: Seq<Seq<char>>, j: int)
    requires
        0 <= j < s.len(),
        strictly_sorted(s),
    ensures
        s.remove(j).to_set() == s.to_set().remove(s[j]),
{
    let t = s.remove(j);
    assert forall|y: Seq<char>| t.to_set().contains(y) <==> s.to_set().remove(s[j]).contains(y) by {
        if t.contains(y) {
            let k = choose|k: int| 0 <= k < t.len() && t[k] == y;
            if k < j {
                assert(s[k] == y);
                lemma_lex_lt_irreflexive(s[k]);
            } else {
                assert(s[k + 1] == y);
                lemma_lex_lt_irreflexive(s[j]);
            }
        }
        if s.contains(y) && y != s[j] {
            let k = choose|k: int| 0 <= k < s.len() && s[k] == y;
            if k < j {
                assert(t[k] == y);
            } else {
                assert(t[k - 1] == y);
            }
        }
    }
    assert(t.to_set() =~= s.to_set().remove(s[j]));
}

/// Inserts `x` into the strictly sorted `v`, unless an equal string is
/// already there; answers whether it was inserted (as `BTreeSet::insert`).
pub fn insert_sorted_unique(v: &mut Vec<String>, x: String) -> (inserted: bool)
    requires
        strictly_sorted(string_views(old(v)@)),
    ensures
        strictly_sorted(string_views(final(v)@)),
        inserted == !string_views(old(v)@).contains(x@),
        string_views(final(v)@).to_set() == string_views(old(v)@).to_set().insert(x@),
{
    let ghost s = string_views(v@);
    let mut j: usize = 0;
    while j < v.len() && str_lt(v[j].as_str(), x.as_str())
        invariant
            j <= v@.len(),
            s == string_views(v@),
            strictly_sorted(s),
            forall|k: int| 0 <= k < j ==> lex_lt(#[trigger] s[k], x@),
        decreases v@.len() - j,
    {
        j = j + 1;
    }
    if j < v.len() && v[j] == x {
        assert(s[j as int] == x@);
        assert(s.to_set().insert(x@) =~= s.to_set());
        return false;
    }
    proof {
        if j < v.len() {
            lemma_not_lt_is_le(s[j as int], x@);
            assert(lex_lt(x@, s[j as int]));
        }
    }
    assert forall|k: int| j <= k < s.len() implies lex_lt(x@, #[trigger] s[k]) by {
        if k > j {
            lemma_lex_lt_transitive(x@, s[j as int], s[k]);
        }
    }
    assert(!s.contains(x@)) by {
        if s.contains(x@) {
            let k = choose|k: int| 0 <= k < s.len() && s[k] == x@;
            lemma_lex_lt_irreflexive(x@);
        }
    }
    let ghost old_v = v@;
    v.insert(j, x);
    proof {
        lemma_views_insert(old_v, j as int, x);
        lemma_insert_to_set(s, j as int, x@);
        lemma_insert_keeps_strictly_sorted(s, j as int, x@);
    }
    true
}

/// Removes the string equal to `x` from the strictly sorted `v`, if there is
/// one; answers whether one was removed (as `BTreeSet::remove`).
pub fn remove_sorted(v: &mut Vec<String>, x: &str) -> (removed: bool)
    requires
        strictly_sorted(string_views(old(v)@)),
    ensures
        strictly_sorted(string_views(final(v)@)),
        removed == string_views(old(v)@).contains(x@),
        string_views(final(v)@).to_set() == string_views(old(v)@).to_set().remove(x@),
{
    let ghost s = string_views(v@);
    let target = x.to_owned();
    let mut j: usize = 0;
    while j < v.len()
        invariant
            j <= v@.len(),
            s == string_views(v@),
            s == string_views(old(v)@),
            strictly_sorted(s),
            target@ == x@,
            forall|k: int| 0 <= k < j ==> #[trigger] s[k] != x@,
        decreases v@.len() - j,
    {
        if v[j] == target {
            let ghost old_v = v@;
            v.remove(j);
            proof {
                lemma_views_remove(old_v, j as int);
                lemma_remove_to_set(s, j as int);
                lemma_remove_keeps_strictly_sorted(s, j as int);
                assert(s.contains(x@)) by {
                    assert(s[j as int] == x@);
                }
            }
            return true;
        }
        j = j + 1;
    }
    assert(!s.contains(x@));
    assert(s.to_set().remove(x@) =~= s.to_set());
    false
}

/// Inserts `x` into the sorted `v` after every string that does not come
/// after it, keeping `v` sorted.
pub fn insert_sorted(v: &mut Vec<String>, x: String)
    requires
        sorted(string_views(old(v)@)),
    ensures
        sorted(string_views(final(v)@)),
        string_views(final(v)@).to_multiset() == string_views(old(v)@).to_multiset().insert(x@),
{
    let ghost s = string_views(v@);
    let mut j: usize = 0;
    while j < v.len() && !str_lt(x.as_str(), v[j].as_str())
        invariant
            j <= v@.len(),
            s == string_views(v@),
            sorted(s),
            forall|k: int| 0 <= k < j ==> lex_le(#[trigger] s[k], x@),
        decreases v@.len() - j,
    {
        proof {
            lemma_not_lt_is_le(x@, s[j as int]);
        }
        j = j + 1;
    }
    assert forall|k: int| j <= k < s.len() implies lex_le(x@, #[trigger] s[k]) by {
        if k > j {
            lemma_lex_lt_transitive(x@, s[j as int], s[k]);
        }
    }
    let ghost old_v = v@;
    v.insert(j, x);
    proof {
        lemma_views_insert(old_v, j as int, x);
        vstd::seq_lib::to_multiset_insert(s, j as int, x@);
        lemma_insert_keeps_sorted(s, j as int, x@);
    }
}

proof fn lemma_strictly_sorted_no_duplicates(s: Seq<Seq<char>>)
    requires
        strictly_sorted(s),
    ensures
        s.no_duplicates(),
{
    assert forall|i: int, j: int| 0 <= i < s.len() && 0 <= j < s.len() && i != j implies s[i] != s[j] by {
        if i < j {
            assert(lex_lt(s[i], s[j]));
        } else {
            assert(lex_lt(s[j], s[i]));
        }
        lemma_lex_lt_irreflexive(s[i]);
    }
}

/// Two strictly sorted sequences with the same elements are equal.
pub proof fn lemma_strictly_sorted_unique(a: Seq<Seq<char>>, b: Seq<Seq<char>>)
    requires
        strictly_sorted(a),
        strictly_sorted(b),
        a.to_set() == b.to_set(),
    ensures
        a == b,
{
    broadcast use vstd::seq_lib::to_multiset_contains;

    lemma_strictly_sorted_no_duplicates(a);
    lemma_strictly_sorted_no_duplicates(b);
    a.lemma_multiset_has_no_duplicates();
    b.lemma_multiset_has_no_duplicates();
    assert forall|x: Seq<char>| a.to_multiset().count(x) == b.to_multiset().count(x) by {
        assert(a.contains(x) <==> a.to_set().contains(x));
        assert(b.contains(x) <==> b.to_set().contains(x));
        if a.contains(x) {
            assert(a.to_multiset().contains(x));
            assert(b.to_multiset().contains(x));
        }
    }
    assert(a.to_multiset() =~= b.to_multiset());
    let leq = |x: Seq<char>, y: Seq<char>| lex_le(x, y);
    lemma_lex_le_total();
    assert(sorted_by(a, leq));
    assert(sorted_by(b, leq));
    vstd::seq_lib::lemma_sorted_unique(a, b, leq);
}

/// The elements of `set` in strictly increasing order: the one strictly
/// sorted sequence that holds exactly them (where there is one, as for every
/// finite set of strings).
pub open spec fn sorted_elements(set: Set<Seq<char>>) -> Seq<Seq<char>> {
    choose|s: Seq<Seq<char>>| strictly_sorted(s) && s.to_set() == set
}

/// A strictly sorted sequence is the sorted sequence of its own elements.
pub proof fn lemma_sorted_elements(s: Seq<Seq<char>>)
    requires
        strictly_sorted(s),
    ensures
        sorted_elements(s.to_set()) == s,
{
    let t = sorted_elements(s.to_set());
    assert(strictly_sorted(t) && t.to_set() == s.to_set());
    lemma_strictly_sorted_unique(t, s);
}

/// Where `x` goes in the strictly sorted `s`: after every element below it.
pub open spec fn insert_index(s: Seq<Seq<char>>, x: Seq<char>) -> int
    decreases s.len(),
{
    if s.len() == 0 || !lex_lt(s[0], x) {
        0
    } else {
        1 + insert_index(s.drop_first(), x)
    }
}

proof fn lemma_insert_index(s: Seq<Seq<char>>, x: Seq<char>)
    ensures
        0 <= insert_index(s, x) <= s.len(),
        forall|j: int| 0 <= j < insert_index(s, x) ==> lex_lt(#[trigger] s[j], x),
        insert_index(s, x) < s.len() ==> !lex_lt(s[insert_index(s, x)], x),
    decreases s.len(),
{
    if s.len() > 0 && lex_lt(s[0], x) {
        lemma_insert_index(s.drop_first(), x);
        assert forall|j: int| 0 <= j < insert_index(s, x) implies lex_lt(#[trigger] s[j], x) by {
            if j > 0 {
                assert(s[j] == s.drop_first()[j - 1]);
            }
        }
    }
}

proof fn lemma_insert_keeps_strictly_sorted(s: Seq<Seq<char>>, j: int, x: Seq<char>)
    requires
        strictly_sorted(s),
        0 <= j <= s.len(),
        forall|k: int| 0 <= k < j ==> lex_lt(#[trigger] s[k], x),
        forall|k: int| j <= k < s.len() ==> lex_lt(x, #[trigger] s[k]),
    ensures
        strictly_sorted(s.insert(j, x)),
{
    let t = s.insert(j, x);
    assert forall|a: int, b: int| 0 <= a < b < t.len() implies lex_lt(#[trigger] t[a], #[trigger] t[b]) by {
        if b < j {
        } else if b == j {
        } else if a < j {
            lemma_lex_lt_transitive(s[a], x, s[b - 1]);
        } else if a == j {
        } else {
        }
    }
}

proof fn lemma_insert_keeps_sorted(s: Seq<Seq<char>>, j: int, x: Seq<char>)
    requires
        sorted(s),
        0 <= j <= s.len(),
        forall|k: int| 0 <= k < j ==> lex_le(#[trigger] s[k], x),
        forall|k: int| j <= k < s.len() ==> lex_le(x, #[trigger] s[k]),
    ensures
        sorted(s.insert(j, x)),
{
    let t = s.insert(j, x);
    assert forall|a: int, b: int| 0 <= a < b < t.len() implies lex_le(#[trigger] t[a], #[trigger] t[b]) by {
        if a < j && b > j {
            lemma_lex_lt_transitive(s[a], x, s[b - 1]);
        }
    }
}

proof fn lemma_remove_keeps_strictly_sorted(s: Seq<Seq<char>>, j: int)
    requires
        strictly_sorted(s),
        0 <= j < s.len(),
    ensures
        strictly_sorted(s.remove(j)),
{
    let t = s.remove(j);
    assert forall|a: int, b: int| 0 <= a < b < t.len() implies lex_lt(#[trigger] t[a], #[trigger] t[b]) by {
        if a < j && b >= j {
            assert(t[b] == s[b + 1]);
        } else if a >= j {
            assert(t[a] == s[a + 1]);
            assert(t[b] == s[b + 1]);
        }
    }
}

/// Adding an element to the elements of a strictly sorted sequence gives a
/// set whose sorted sequence exists: it holds exactly the old elements and `x`.
pub proof fn lemma_sorted_elements_insert(s: Seq<Seq<char>>, x: Seq<char>)
    requires
        strictly_sorted(s),
    ensures
        strictly_sorted(sorted_elements(s.to_set().insert(x))),
        sorted_elements(s.to_set().insert(x)).to_set() == s.to_set().insert(x),
{
    if s.contains(x) {
        assert(s.to_set().insert(x) =~= s.to_set());
        lemma_sorted_elements(s);
    } else {
        let j = insert_index(s, x);
        lemma_insert_index(s, x);
        if j < s.len() {
            lemma_not_lt_is_le(s[j], x);
            assert(s[j] != x);
        }
        assert forall|k: int| j <= k < s.len() implies lex_lt(x, #[trigger] s[k]) by {
            if k > j {
                lemma_lex_lt_transitive(x, s[j], s[k]);
            }
        }
        lemma_insert_keeps_strictly_sorted(s, j, x);
        lemma_insert_to_set(s, j, x);
        lemma_sorted_elements(s.insert(j, x));
    }
}

/// Taking an element out of the elements of a strictly sorted sequence gives
/// a set whose sorted sequence exists: it holds exactly the others.
pub proof fn lemma_sorted_elements_remove(s: Seq<Seq<char>>, x: Seq<char>)
    requires
        strictly_sorted(s),
    ensures
        strictly_sorted(sorted_elements(s.to_set().remove(x))),
        sorted_elements(s.to_set().remove(x)).to_set() == s.to_set().remove(x),
{
    if s.contains(x) {
        let j = choose|j: int| 0 <= j < s.len() && s[j] == x;
        lemma_remove_keeps_strictly_sorted(s, j);
        lemma_remove_to_set(s, j);
        lemma_sorted_elements(s.remove(j));
    } else {
        assert(s.to_set().remove(x) =~= s.to_set());
        lemma_sorted_elements(s);
    }
}

} // verus!
