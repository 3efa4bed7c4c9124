//! Strings as sequences of characters.

use vstd::prelude::*;

verus! {

/// The characters of `s`, in order.
pub fn chars_of(s: &str) -> (r: Vec<char>)
    ensures
        r@ == s@,
{
    let mut out: Vec<char> = Vec::new();
    for c in it: s.chars()
        invariant
            it.seq() == s@,
            out@ == it.seq().take(it.index() as int),
    {
        out.push(c);
    }
    out
}

/// `str`'s `==`: two strings are equal exactly where they hold the same
/// characters.
pub assume_specification[ <str as PartialEq>::eq ](a: &str, b: &str) -> (r: bool)
    ensures
        r == (a@ == b@),
;

/// Whether two strings hold the same characters.
pub fn same_text(a: &str, b: &str) -> (r: bool)
    ensures
        r == (a@ == b@),
{
    a.eq(b)
}

/// An owned copy of the characters `from..to` of `s`.
pub fn slice_text(s: &str, from: usize, to: usize) -> (r: String)
    requires
        from <= to <= s@.len(),
    ensures
        r@ == s@.subrange(from as int, to as int),
{
    s.substring_char(from, to).to_owned()
}

/// `a` followed by `b`.
pub fn join_text(a: &str, b: &str) -> (r: String)
    ensures
        r@ == a@ + b@,
{
    a.to_owned().concat(b)
}

/// An owned copy of `bytes`.
pub fn copy_bytes(bytes: &Vec<u8>) -> (r: Vec<u8>)
    ensures
        r@ == bytes@,
{
    vstd::slice::slice_to_vec(bytes.as_slice())
}

/// Whether `a` and `b` are alike before the place `k`, and `a` is the
/// lesser there: it ends where `b` goes on, or holds the lesser character.
pub open spec fn precedes_at(a: Seq<char>, b: Seq<char>, k: int) -> bool {
    &&& 0 <= k <= a.len()
    &&& k < b.len()
    &&& forall|j: int| 0 <= j < k ==> a[j] == b[j]
    &&& (k < a.len() ==> a[k] < b[k])
}

/// Whether `a` comes before `b` in the order of the dictionary, with the
/// characters in the order of their code points.
pub open spec fn precedes(a: Seq<char>, b: Seq<char>) -> bool {
    exists|k: int| precedes_at(a, b, k)
}

/// Nothing comes before itself.
pub proof fn lemma_precedes_irreflexive(a: Seq<char>)
    ensures
        !precedes(a, a),
{
}

/// What comes before something that comes before a third comes before the
/// third.
pub proof fn lemma_precedes_transitive(a: Seq<char>, b: Seq<char>, c: Seq<char>)
    requires
        precedes(a, b),
        precedes(b, c),
    ensures
        precedes(a, c),
{
    let k1 = choose|k: int| precedes_at(a, b, k);
    let k2 = choose|k: int| precedes_at(b, c, k);
    let k = if k1 < k2 {
        k1
    } else {
        k2
    };
    assert(precedes_at(a, c, k));
}

/// Of two strings that differ, one comes before the other.
pub proof fn lemma_precedes_total(a: Seq<char>, b: Seq<char>)
    requires
        a != b,
    ensures
        precedes(a, b) || precedes(b, a),
{
    lemma_precedes_total_from(a, b, 0);
}

proof fn lemma_precedes_total_from(a: Seq<char>, b: Seq<char>, k: int)
    requires
        a != b,
        0 <= k <= a.len(),
        k <= b.len(),
        forall|j: int| 0 <= j < k ==> a[j] == b[j],
    ensures
        precedes(a, b) || precedes(b, a),
    decreases a.len() - k,
{
    if k == a.len() {
        if k == b.len() {
            assert(a =~= b);
        } else {
            assert(precedes_at(a, b, k));
        }
    } else if k == b.len() {
        assert(precedes_at(b, a, k));
    } else if a[k] == b[k] {
        lemma_precedes_total_from(a, b, k + 1);
    } else if a[k] < b[k] {
        assert(precedes_at(a, b, k));
    } else {
        assert(precedes_at(b, a, k));
    }
}

/// Whether the characters `x` come before the characters `y` in the order
/// of the dictionary.
pub fn chars_precede(x: &Vec<char>, y: &Vec<char>) -> (r: bool)
    ensures
        r == precedes(x@, y@),
{
    let mut k: usize = 0;
    while k < x.len() && k < y.len() && x[k] == y[k]
        invariant
            k <= x.len(),
            k <= y.len(),
            forall|j: int| 0 <= j < k ==> x@[j] == y@[j],
        decreases x.len() - k,
    {
        k += 1;
    }
    let r = k < y.len() && (k == x.len() || x[k] < y[k]);
    proof {
        if r {
            assert(precedes_at(x@, y@, k as int));
        } else {
            assert forall|i: int| !precedes_at(x@, y@, i) by {
                if precedes_at(x@, y@, i) && i > k {
                    assert(x@[k as int] == y@[k as int]);
                }
            }
        }
    }
    r
}

/// Whether `a` comes before `b` in the order of the dictionary.
pub fn text_precedes(a: &str, b: &str) -> (r: bool)
    ensures
        r == precedes(a@, b@),
{
    let x = chars_of(a);
    let y = chars_of(b);
    chars_precede(&x, &y)
}

/// Whether the keys of `pairs` stand in the order of the dictionary, so
/// that none stands twice.
pub open spec fn keys_in_order<V>(pairs: Seq<(Seq<char>, V)>) -> bool {
    forall|i: int, j: int|
        0 <= i < j < pairs.len() ==> precedes(#[trigger] pairs[i].0, #[trigger] pairs[j].0)
}

/// Whether a pair under `key` put into `pairs` at `i` keeps their order:
/// the keys before it precede `key`, and `key` precedes those behind it.
pub open spec fn keeps_order<V>(pairs: Seq<(Seq<char>, V)>, key: Seq<char>, i: int) -> bool {
    &&& 0 <= i <= pairs.len()
    &&& forall|j: int| 0 <= j < i ==> precedes((#[trigger] pairs[j]).0, key)
    &&& forall|j: int| i <= j < pairs.len() ==> precedes(key, (#[trigger] pairs[j]).0)
}

/// Only one place keeps the order.
pub proof fn lemma_one_place<V>(pairs: Seq<(Seq<char>, V)>, key: Seq<char>, i: int, k: int)
    requires
        keeps_order(pairs, key, i),
        keeps_order(pairs, key, k),
    ensures
        i == k,
{
    if i < k {
        lemma_precedes_transitive(pairs[i].0, key, pairs[i].0);
        lemma_precedes_irreflexive(pairs[i].0);
    } else if k < i {
        lemma_precedes_transitive(pairs[k].0, key, pairs[k].0);
        lemma_precedes_irreflexive(pairs[k].0);
    }
}

/// A key that stands nowhere among pairs in order has a place among them.
pub proof fn lemma_place_exists<V>(pairs: Seq<(Seq<char>, V)>, key: Seq<char>)
    requires
        keys_in_order(pairs),
        forall|j: int| 0 <= j < pairs.len() ==> (#[trigger] pairs[j]).0 != key,
    ensures
        exists|k: int| keeps_order(pairs, key, k),
{
    lemma_place_from(pairs, key, 0);
}

proof fn lemma_place_from<V>(pairs: Seq<(Seq<char>, V)>, key: Seq<char>, i: int)
    requires
        keys_in_order(pairs),
        forall|j: int| 0 <= j < pairs.len() ==> (#[trigger] pairs[j]).0 != key,
        0 <= i <= pairs.len(),
        forall|j: int| 0 <= j < i ==> precedes((#[trigger] pairs[j]).0, key),
    ensures
        exists|k: int| keeps_order(pairs, key, k),
    decreases pairs.len() - i,
{
    if i < pairs.len() && precedes(pairs[i].0, key) {
        lemma_place_from(pairs, key, i + 1);
    } else {
        assert forall|j: int| i <= j < pairs.len() implies precedes(key, (#[trigger] pairs[j]).0) by {
            lemma_precedes_total(pairs[i].0, key);
            if j > i {
                lemma_precedes_transitive(key, pairs[i].0, pairs[j].0);
            }
        }
        assert(keeps_order(pairs, key, i));
    }
}

/// Pairs in order, with one more under a key that stood nowhere among
/// them, put in the place that keeps the order, are in order.
pub proof fn lemma_insert_in_order<V>(pairs: Seq<(Seq<char>, V)>, key: Seq<char>, value: V, i: int)
    requires
        keys_in_order(pairs),
        keeps_order(pairs, key, i),
    ensures
        keys_in_order(pairs.insert(i, (key, value))),
{
    let after = pairs.insert(i, (key, value));
    assert forall|a: int, b: int| 0 <= a < b < after.len() implies precedes(
        #[trigger] after[a].0,
        #[trigger] after[b].0,
    ) by {
        if a < i {
            assert(after[a] == pairs[a]);
        } else if a > i {
            assert(after[a] == pairs[a - 1]);
        }
        if b < i {
            assert(after[b] == pairs[b]);
        } else if b > i {
            assert(after[b] == pairs[b - 1]);
        }
    }
}

} // verus!
