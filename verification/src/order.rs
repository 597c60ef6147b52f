//! Lists of entries kept in the order of their keys, each key once.

use vstd::prelude::*;
use crate::text::{
    lemma_precedes_connected, lemma_precedes_irreflexive, lemma_precedes_transitive, precedes,
};

verus! {

/// The keys of `s` rise strictly from one entry to the next.
pub open spec fn ordered<V>(s: Seq<(Seq<char>, V)>) -> bool {
    forall|i: int, j: int| 0 <= i < j < s.len() ==> precedes(#[trigger] s[i].0, #[trigger] s[j].0)
}

/// Some entry of `s` has the key `key`.
pub open spec fn has_key<V>(s: Seq<(Seq<char>, V)>, key: Seq<char>) -> bool {
    exists|i: int| 0 <= i < s.len() && #[trigger] s[i].0 == key
}

/// No key occurs twice in `s`.
pub open spec fn distinct_keys<V>(s: Seq<(Seq<char>, V)>) -> bool {
    forall|i: int, j: int| 0 <= i < j < s.len() ==> #[trigger] s[i].0 != #[trigger] s[j].0
}

/// The number of leading entries of `s` whose keys come before `key`.
pub open spec fn slot<V>(s: Seq<(Seq<char>, V)>, key: Seq<char>) -> int
    decreases s.len(),
{
    if s.len() == 0 || !precedes(s[0].0, key) {
        0
    } else {
        1 + slot(s.drop_first(), key)
    }
}

/// `s` with the entry `e` put where its key belongs: in the place of the entry
/// with that key if there is one, else in front of the first entry whose key
/// comes after it.
pub open spec fn place<V>(s: Seq<(Seq<char>, V)>, e: (Seq<char>, V)) -> Seq<(Seq<char>, V)> {
    let p = slot(s, e.0);
    if p < s.len() && s[p].0 == e.0 {
        s.update(p, e)
    } else {
        s.insert(p, e)
    }
}

/// The entries of `s` put in order one after the other, a later entry taking
/// the place of an earlier one with the same key.
pub open spec fn arrange<V>(s: Seq<(Seq<char>, V)>) -> Seq<(Seq<char>, V)>
    decreases s.len(),
{
    if s.len() == 0 {
        Seq::empty()
    } else {
        place(arrange(s.drop_last()), s.last())
    }
}

/// What stands under `key` in an ordered list.
pub open spec fn found<V>(s: Seq<(Seq<char>, V)>, key: Seq<char>) -> Option<V> {
    let p = slot(s, key);
    if p < s.len() && s[p].0 == key {
        Some(s[p].1)
    } else {
        None
    }
}

/// What `slot` counts: the entries before it come before `key`, the entry at
/// it does not.
pub proof fn lemma_slot<V>(s: Seq<(Seq<char>, V)>, key: Seq<char>)
    ensures
        0 <= slot(s, key) <= s.len(),
        forall|i: int| 0 <= i < slot(s, key) ==> precedes(#[trigger] s[i].0, key),
        slot(s, key) < s.len() ==> !precedes(s[slot(s, key)].0, key),
    decreases s.len(),
{
    if s.len() == 0 || !precedes(s[0].0, key) {
    } else {
        let t = s.drop_first();
        lemma_slot(t, key);
        assert forall|i: int| 0 <= i < slot(s, key) implies precedes(#[trigger] s[i].0, key) by {
            if i > 0 {
                assert(s[i] == t[i - 1]);
            }
        }
        if slot(s, key) < s.len() {
            assert(s[slot(s, key)] == t[slot(t, key)]);
        }
    }
}

/// In an ordered list the slot of a key is the one place where an entry with
/// that key can stand.
pub proof fn lemma_slot_of_key<V>(s: Seq<(Seq<char>, V)>, i: int)
    requires
        ordered(s),
        0 <= i < s.len(),
    ensures
        slot(s, s[i].0) == i,
{
    let key = s[i].0;
    let p = slot(s, key);
    lemma_slot(s, key);
    lemma_precedes_irreflexive(key);
    if p < i {
        assert(precedes(s[p].0, s[i].0));
    } else if p > i {
        assert(precedes(s[i].0, key));
    }
}

/// `found` gives what the list holds under the key, and nothing where no entry
/// has the key.
pub proof fn lemma_found<V>(s: Seq<(Seq<char>, V)>, key: Seq<char>)
    requires
        ordered(s),
    ensures
        found(s, key) is Some <==> has_key(s, key),
        forall|v: V| found(s, key) == Some(v) <==> s.contains((key, v)),
{
    let p = slot(s, key);
    lemma_slot(s, key);
    if has_key(s, key) {
        let i = choose|i: int| 0 <= i < s.len() && #[trigger] s[i].0 == key;
        lemma_slot_of_key(s, i);
    }
    assert forall|v: V| found(s, key) == Some(v) <==> s.contains((key, v)) by {
        if s.contains((key, v)) {
            let i = choose|i: int| 0 <= i < s.len() && s[i] == (key, v);
            lemma_slot_of_key(s, i);
        }
        if found(s, key) == Some(v) {
            assert(s[p] == (key, v));
        }
    }
}

/// Putting an entry in its place keeps the list ordered.
pub proof fn lemma_place_ordered<V>(s: Seq<(Seq<char>, V)>, e: (Seq<char>, V))
    requires
        ordered(s),
    ensures
        ordered(place(s, e)),
{
    let p = slot(s, e.0);
    let t = place(s, e);
    lemma_slot(s, e.0);
    if p < s.len() && s[p].0 == e.0 {
        assert forall|i: int, j: int| 0 <= i < j < t.len() implies precedes(
            #[trigger] t[i].0,
            #[trigger] t[j].0,
        ) by {
            assert(t[i].0 == s[i].0);
            assert(t[j].0 == s[j].0);
        }
    } else {
        assert forall|i: int, j: int| 0 <= i < j < t.len() implies precedes(
            #[trigger] t[i].0,
            #[trigger] t[j].0,
        ) by {
            if j < p {
                assert(t[i] == s[i] && t[j] == s[j]);
            } else if j == p {
                assert(t[i] == s[i]);
            } else if i == p {
                assert(t[j] == s[j - 1]);
                lemma_precedes_connected(e.0, s[p].0);
                if j - 1 > p {
                    assert(precedes(s[p].0, s[j - 1].0));
                    lemma_precedes_transitive(e.0, s[p].0, s[j - 1].0);
                }
            } else if i < p {
                assert(t[i] == s[i] && t[j] == s[j - 1]);
                if i == j - 1 {
                } else {
                    assert(precedes(s[i].0, s[j - 1].0));
                }
            } else {
                assert(t[i] == s[i - 1] && t[j] == s[j - 1]);
            }
        }
    }
}

/// What a list holds after an entry was put in its place: that entry under
/// its key, and under every other key what it held before.
pub proof fn lemma_place_contents<V>(s: Seq<(Seq<char>, V)>, e: (Seq<char>, V), x: (Seq<char>, V))
    requires
        ordered(s),
    ensures
        place(s, e).contains(x) <==> (x == e || (x.0 != e.0 && s.contains(x))),
{
    let p = slot(s, e.0);
    let t = place(s, e);
    lemma_slot(s, e.0);
    if t.contains(x) {
        let i = choose|i: int| 0 <= i < t.len() && t[i] == x;
        if p < s.len() && s[p].0 == e.0 {
            if i != p {
                assert(s[i] == x);
                lemma_slot_of_key(s, i);
            }
        } else {
            if i < p {
                assert(s[i] == x);
                lemma_precedes_irreflexive(e.0);
            } else if i > p {
                assert(s[i - 1] == x);
                lemma_precedes_connected(e.0, s[p].0);
                lemma_precedes_irreflexive(e.0);
                if i - 1 > p {
                    assert(precedes(s[p].0, s[i - 1].0));
                    lemma_precedes_transitive(e.0, s[p].0, s[i - 1].0);
                }
            }
        }
    }
    if x == e {
        assert(t[p] == x);
    } else if x.0 != e.0 && s.contains(x) {
        let i = choose|i: int| 0 <= i < s.len() && s[i] == x;
        if p < s.len() && s[p].0 == e.0 {
            assert(t[i] == x);
        } else if i < p {
            assert(t[i] == x);
        } else {
            assert(t[i + 1] == x);
        }
    }
}

/// The keys of a list after an entry was put in its place: that entry's key,
/// and the keys it had before.
pub proof fn lemma_place_keys<V>(s: Seq<(Seq<char>, V)>, e: (Seq<char>, V), key: Seq<char>)
    ensures
        has_key(place(s, e), key) <==> (key == e.0 || has_key(s, key)),
{
    let p = slot(s, e.0);
    let t = place(s, e);
    lemma_slot(s, e.0);
    if has_key(t, key) && key != e.0 {
        let i = choose|i: int| 0 <= i < t.len() && #[trigger] t[i].0 == key;
        if p < s.len() && s[p].0 == e.0 {
            assert(s[i].0 == key);
        } else if i < p {
            assert(s[i].0 == key);
        } else {
            assert(s[i - 1].0 == key);
        }
    }
    if key == e.0 {
        assert(t[p].0 == key);
    } else if has_key(s, key) {
        let i = choose|i: int| 0 <= i < s.len() && #[trigger] s[i].0 == key;
        if p < s.len() && s[p].0 == e.0 {
            assert(t[i].0 == key);
        } else if i < p {
            assert(t[i].0 == key);
        } else {
            assert(t[i + 1].0 == key);
        }
    }
}

/// Arranging a list keeps its keys.
pub proof fn lemma_arrange_keys<V>(s: Seq<(Seq<char>, V)>, key: Seq<char>)
    ensures
        has_key(arrange(s), key) <==> has_key(s, key),
    decreases s.len(),
{
    if s.len() > 0 {
        let t = s.drop_last();
        lemma_arrange_keys(t, key);
        lemma_place_keys(arrange(t), s.last(), key);
        if has_key(s, key) {
            let i = choose|i: int| 0 <= i < s.len() && #[trigger] s[i].0 == key;
            if i < s.len() - 1 {
                assert(t[i].0 == key);
            }
        }
        if has_key(t, key) {
            let i = choose|i: int| 0 <= i < t.len() && #[trigger] t[i].0 == key;
            assert(s[i].0 == key);
        }
        if key == s.last().0 {
            assert(s[s.len() - 1].0 == key);
        }
    }
}

/// An entry whose key comes after every key of an ordered list goes to its
/// end.
pub proof fn lemma_place_last<V>(s: Seq<(Seq<char>, V)>, e: (Seq<char>, V))
    requires
        forall|i: int| 0 <= i < s.len() ==> precedes(#[trigger] s[i].0, e.0),
    ensures
        place(s, e) == s.push(e),
{
    lemma_slot(s, e.0);
    lemma_precedes_irreflexive(e.0);
    let p = slot(s, e.0);
    if p < s.len() {
        assert(precedes(s[p].0, e.0));
    }
    assert(s.insert(p, e) =~= s.push(e));
}

/// Arranging gives an ordered list.
pub proof fn lemma_arrange_ordered<V>(s: Seq<(Seq<char>, V)>)
    ensures
        ordered(arrange(s)),
    decreases s.len(),
{
    if s.len() > 0 {
        lemma_arrange_ordered(s.drop_last());
        lemma_place_ordered(arrange(s.drop_last()), s.last());
    }
}

/// Arranging a list whose keys are distinct neither adds nor loses an entry.
pub proof fn lemma_arrange_contents<V>(s: Seq<(Seq<char>, V)>, x: (Seq<char>, V))
    requires
        distinct_keys(s),
    ensures
        arrange(s).contains(x) <==> s.contains(x),
    decreases s.len(),
{
    if s.len() > 0 {
        let t = s.drop_last();
        let e = s.last();
        lemma_arrange_contents(t, x);
        lemma_arrange_ordered(t);
        lemma_place_contents(arrange(t), e, x);
        if s.contains(x) {
            let i = choose|i: int| 0 <= i < s.len() && s[i] == x;
            if i < s.len() - 1 {
                assert(t[i] == x);
                assert(s[i].0 != s[s.len() - 1].0);
            }
        }
        if x == e {
            assert(s[s.len() - 1] == x);
        }
        if t.contains(x) {
            let i = choose|i: int| 0 <= i < t.len() && t[i] == x;
            assert(s[i] == x);
            assert(s[i].0 != s[s.len() - 1].0);
        }
    }
}

/// An ordered list is arranged already.
pub proof fn lemma_arrange_ordered_is_same<V>(s: Seq<(Seq<char>, V)>)
    requires
        ordered(s),
    ensures
        arrange(s) == s,
    decreases s.len(),
{
    if s.len() > 0 {
        let t = s.drop_last();
        assert forall|i: int, j: int| 0 <= i < j < t.len() implies precedes(
            #[trigger] t[i].0,
            #[trigger] t[j].0,
        ) by {
            assert(t[i] == s[i] && t[j] == s[j]);
        }
        lemma_arrange_ordered_is_same(t);
        assert forall|i: int| 0 <= i < t.len() implies precedes(#[trigger] t[i].0, s.last().0) by {
            assert(t[i] == s[i]);
            assert(precedes(s[i].0, s[s.len() - 1].0));
        }
        lemma_place_last(t, s.last());
        assert(t.push(s.last()) =~= s);
    } else {
        assert(arrange(s) =~= s);
    }
}

/// The keys of an ordered list are distinct.
pub proof fn lemma_ordered_distinct<V>(s: Seq<(Seq<char>, V)>)
    requires
        ordered(s),
    ensures
        distinct_keys(s),
{
    assert forall|i: int, j: int| 0 <= i < j < s.len() implies #[trigger] s[i].0
        != #[trigger] s[j].0 by {
        assert(precedes(s[i].0, s[j].0));
        lemma_precedes_irreflexive(s[i].0);
    }
}

} // verus!
