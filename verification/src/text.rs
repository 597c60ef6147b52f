//! Text as sequences of characters: copying, equality, and the lexicographic
//! order on code points that decides in which order repositories are kept.

use vstd::prelude::*;

verus! {

/// `a` comes strictly before `b` in the lexicographic order on code points:
/// the two agree on their first `k` characters, and there `a` ends while `b`
/// goes on, or `a` holds the smaller character.
pub open spec fn precedes(a: Seq<char>, b: Seq<char>) -> bool {
    exists|k: int| first_difference(a, b, k)
}

/// `k` is the place where `a` and `b` part, with `a` the smaller of the two.
pub open spec fn first_difference(a: Seq<char>, b: Seq<char>, k: int) -> bool {
    &&& 0 <= k <= a.len()
    &&& k < b.len()
    &&& a.take(k) == b.take(k)
    &&& (k < a.len() ==> (a[k] as int) < (b[k] as int))
}

/// No text comes before itself.
pub proof fn lemma_precedes_irreflexive(a: Seq<char>)
    ensures
        !precedes(a, a),
{
}

/// The order is transitive.
pub proof fn lemma_precedes_transitive(a: Seq<char>, b: Seq<char>, c: Seq<char>)
    requires
        precedes(a, b),
        precedes(b, c),
    ensures
        precedes(a, c),
{
    let i = choose|k: int| first_difference(a, b, k);
    let j = choose|k: int| first_difference(b, c, k);
    let k = if i <= j { i } else { j };
    assert(a.take(k) == a.take(i).take(k));
    assert(b.take(k) == b.take(i).take(k));
    assert(b.take(k) == b.take(j).take(k));
    assert(c.take(k) == c.take(j).take(k));
    if i < j {
        assert(b.take(j)[i] == b[i]);
        assert(c.take(j)[i] == c[i]);
    }
    if j < i {
        assert(a.take(i)[j] == a[j]);
        assert(b.take(i)[j] == b[j]);
    }
    assert(first_difference(a, c, k));
}

/// Of two different texts one comes before the other.
pub proof fn lemma_precedes_connected(a: Seq<char>, b: Seq<char>)
    ensures
        a == b || precedes(a, b) || precedes(b, a),
{
    if a != b {
        let k = common_prefix(a, b);
        lemma_common_prefix(a, b);
        if k == a.len() && k == b.len() {
            assert(a.take(k) == a);
            assert(b.take(k) == b);
        } else if k == a.len() {
            assert(first_difference(a, b, k));
        } else if k == b.len() {
            assert(first_difference(b, a, k));
        } else if (a[k] as int) < (b[k] as int) {
            assert(first_difference(a, b, k));
        } else {
            assert(first_difference(b, a, k));
        }
    }
}

/// The number of leading characters that `a` and `b` share.
pub open spec fn common_prefix(a: Seq<char>, b: Seq<char>) -> int
    decreases a.len(),
{
    if a.len() == 0 || b.len() == 0 || a[0] != b[0] {
        0
    } else {
        1 + common_prefix(a.drop_first(), b.drop_first())
    }
}

proof fn lemma_common_prefix(a: Seq<char>, b: Seq<char>)
    ensures
        0 <= common_prefix(a, b) <= a.len(),
        common_prefix(a, b) <= b.len(),
        a.take(common_prefix(a, b)) == b.take(common_prefix(a, b)),
        common_prefix(a, b) < a.len() && common_prefix(a, b) < b.len() ==> a[common_prefix(a, b)]
            != b[common_prefix(a, b)],
    decreases a.len(),
{
    if a.len() == 0 || b.len() == 0 || a[0] != b[0] {
        assert(a.take(0) == b.take(0));
    } else {
        let x = a.drop_first();
        let y = b.drop_first();
        lemma_common_prefix(x, y);
        let k = common_prefix(x, y);
        assert(a.take(k + 1) == seq![a[0]] + x.take(k));
        assert(b.take(k + 1) == seq![b[0]] + y.take(k));
    }
}

/// Copies the characters of `s` into a vector.
pub fn chars_of(s: &str) -> (v: Vec<char>)
    ensures
        v@ == s@,
{
    let mut v: Vec<char> = Vec::new();
    for c in it: s.chars()
        invariant
            it.seq() == s@,
            v@ == it.seq().take(it.index() as int),
    {
        v.push(c);
    }
    v
}

/// Tells whether `a` and `b` hold the same characters.
pub fn same(a: &str, b: &str) -> (r: bool)
    ensures
        r == (a@ == b@),
{
    let x = chars_of(a);
    let y = chars_of(b);
    if x.len() != y.len() {
        return false;
    }
    let mut i: usize = 0;
    while i < x.len()
        invariant
            x@ == a@,
            y@ == b@,
            x.len() == y.len(),
            i <= x.len(),
            x@.take(i as int) == y@.take(i as int),
        decreases x.len() - i,
    {
        if x[i] != y[i] {
            assert(x@[i as int] != y@[i as int]);
            return false;
        }
        assert(x@.take(i + 1) == x@.take(i as int).push(x@[i as int]));
        assert(y@.take(i + 1) == y@.take(i as int).push(y@[i as int]));
        i += 1;
    }
    assert(x@.take(i as int) == x@);
    assert(y@.take(i as int) == y@);
    true
}

/// Tells whether `a` comes strictly before `b` in the lexicographic order on
/// code points.
pub fn less(a: &str, b: &str) -> (r: bool)
    ensures
        r == precedes(a@, b@),
{
    let x = chars_of(a);
    let y = chars_of(b);
    let mut i: usize = 0;
    while i < x.len() && i < y.len()
        invariant
            x@ == a@,
            y@ == b@,
            i <= x.len(),
            i <= y.len(),
            x@.take(i as int) == y@.take(i as int),
        decreases x.len() - i,
    {
        if x[i] != y[i] {
            let r = x[i] < y[i];
            proof {
                lemma_parted(x@, y@, i as int);
            }
            return r;
        }
        assert(x@.take(i + 1) == x@.take(i as int).push(x@[i as int]));
        assert(y@.take(i + 1) == y@.take(i as int).push(y@[i as int]));
        i += 1;
    }
    proof {
        lemma_parted(x@, y@, i as int);
    }
    i < y.len()
}

/// Where two texts part decides their order.
proof fn lemma_parted(a: Seq<char>, b: Seq<char>, k: int)
    requires
        0 <= k <= a.len(),
        k <= b.len(),
        a.take(k) == b.take(k),
        k < a.len() && k < b.len() ==> a[k] != b[k],
    ensures
        precedes(a, b) <==> (k < b.len() && (k < a.len() ==> (a[k] as int) < (b[k] as int))),
{
    if k < b.len() && (k < a.len() ==> (a[k] as int) < (b[k] as int)) {
        assert(first_difference(a, b, k));
    }
    if precedes(a, b) {
        let j = choose|j: int| first_difference(a, b, j);
        if j < k {
            assert(a.take(k)[j] == a[j]);
            assert(b.take(k)[j] == b[j]);
            if j == a.len() {
            }
        } else if j > k {
            assert(a.take(j)[k] == a[k]);
            assert(b.take(j)[k] == b[k]);
        }
    }
}

} // verus!
