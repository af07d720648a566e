//! Arithmetic in the ring of integers modulo 2^32, and sums in that ring.

use vstd::arithmetic::div_mod::{lemma_add_mod_noop, lemma_add_mod_noop_right};
use vstd::prelude::*;

verus! {

/// A value of the protocol: a residue modulo 2^32.
pub type Value = u32;

/// The size of the ring, 2^32.
pub open spec fn modulus() -> int {
    0x1_0000_0000
}

/// The residue of an integer.
pub open spec fn reduce(x: int) -> Value {
    (x % modulus()) as u32
}

/// `(a + b) mod 2^32`.
pub open spec fn add_spec(a: Value, b: Value) -> Value {
    reduce(a + b)
}

/// `(a - b) mod 2^32`.
pub open spec fn sub_spec(a: Value, b: Value) -> Value {
    reduce(a - b)
}

/// The sum of a sequence of values as an unbounded integer.
pub open spec fn total(s: Seq<Value>) -> int
    decreases s.len(),
{
    if s.len() == 0 {
        0
    } else {
        total(s.drop_last()) + s.last()
    }
}

/// The sum of a sequence of values in the ring.
pub open spec fn ring_sum(s: Seq<Value>) -> Value {
    reduce(total(s))
}

/// Folds values into a running sum: what an accumulator holds after every
/// value of `s` was added to `start`, in order.
pub open spec fn accumulate(start: Value, s: Seq<Value>) -> Value
    decreases s.len(),
{
    if s.len() == 0 {
        start
    } else {
        add_spec(accumulate(start, s.drop_last()), s.last())
    }
}

/// Adds two values; overflow wraps.
pub fn add(a: Value, b: Value) -> (r: Value)
    ensures
        r == add_spec(a, b),
{
    a.wrapping_add(b)
}

/// Subtracts `b` from `a`; underflow wraps.
pub fn sub(a: Value, b: Value) -> (r: Value)
    ensures
        r == sub_spec(a, b),
{
    a.wrapping_sub(b)
}

/// Appending a value to a sequence adds it to the total.
pub proof fn lemma_total_push(s: Seq<Value>, v: Value)
    ensures
        total(s.push(v)) == total(s) + v,
{
    assert(s.push(v).drop_last() =~= s);
}

/// The total of a concatenation is the sum of the totals.
pub proof fn lemma_total_concat(s: Seq<Value>, t: Seq<Value>)
    ensures
        total(s + t) == total(s) + total(t),
    decreases t.len(),
{
    if t.len() == 0 {
        assert(s + t =~= s);
    } else {
        assert((s + t).drop_last() =~= s + t.drop_last());
        lemma_total_concat(s, t.drop_last());
    }
}

/// Inserting a value anywhere adds it to the total.
pub proof fn lemma_total_insert(s: Seq<Value>, i: int, v: Value)
    requires
        0 <= i <= s.len(),
    ensures
        total(s.insert(i, v)) == total(s) + v,
{
    let head = s.subrange(0, i);
    let tail = s.subrange(i, s.len() as int);
    assert(s =~= head + tail);
    assert(s.insert(i, v) =~= head.push(v) + tail);
    lemma_total_concat(head, tail);
    lemma_total_concat(head.push(v), tail);
    lemma_total_push(head, v);
}

/// Removing an element takes it off the total.
pub proof fn lemma_total_remove(s: Seq<Value>, i: int)
    requires
        0 <= i < s.len(),
    ensures
        total(s.remove(i)) == total(s) - s[i],
{
    assert(s.remove(i).insert(i, s[i]) =~= s);
    lemma_total_insert(s.remove(i), i, s[i]);
}

/// Replacing an element changes the total by the difference.
pub proof fn lemma_total_update(s: Seq<Value>, i: int, v: Value)
    requires
        0 <= i < s.len(),
    ensures
        total(s.update(i, v)) == total(s) - s[i] + v,
{
    assert(s.update(i, v) =~= s.remove(i).insert(i, v));
    lemma_total_remove(s, i);
    lemma_total_insert(s.remove(i), i, v);
}

/// A running sum started at `start` is `start` plus the total, reduced.
pub proof fn lemma_accumulate_is_sum(start: Value, s: Seq<Value>)
    ensures
        accumulate(start, s) == reduce(start + total(s)),
    decreases s.len(),
{
    if s.len() > 0 {
        lemma_accumulate_is_sum(start, s.drop_last());
    }
}

/// Reducing a summand first does not change the residue of a sum, and
/// congruent numbers stay congruent when the same summand is added.
pub proof fn lemma_reduce_sum(p: int, q: int, r: int)
    requires
        reduce(p) == reduce(q),
    ensures
        reduce(p + reduce(r)) == reduce(q + r),
{
    lemma_add_mod_noop_right(p, r, modulus());
    lemma_add_mod_noop(p, r, modulus());
    lemma_add_mod_noop(q, r, modulus());
}

/// The total of a sequence does not depend on the order of its elements.
pub proof fn lemma_total_of_permutation(s: Seq<Value>, t: Seq<Value>)
    requires
        s.to_multiset() == t.to_multiset(),
    ensures
        total(s) == total(t),
    decreases s.len(),
{
    vstd::seq_lib::to_multiset_len(s);
    vstd::seq_lib::to_multiset_len(t);
    if s.len() > 0 {
        let v = s.last();
        let last = s.len() - 1;
        assert(s.contains(v));
        vstd::seq_lib::to_multiset_contains(s, v);
        vstd::seq_lib::to_multiset_contains(t, v);
        let k = choose|k: int| 0 <= k < t.len() && t[k] == v;
        vstd::seq_lib::to_multiset_remove(s, last);
        vstd::seq_lib::to_multiset_remove(t, k);
        assert(s.remove(last) =~= s.drop_last());
        lemma_total_of_permutation(s.drop_last(), t.remove(k));
        lemma_total_remove(t, k);
    }
}

/// Inbound masks commute: applied to the same accumulator in any order, the
/// same masks leave the same value.
pub proof fn lemma_inbound_masks_commute(start: Value, masks: Seq<Value>, reordered: Seq<Value>)
    requires
        masks.to_multiset() == reordered.to_multiset(),
    ensures
        accumulate(start, masks) == accumulate(start, reordered),
{
    lemma_total_of_permutation(masks, reordered);
    lemma_accumulate_is_sum(start, masks);
    lemma_accumulate_is_sum(start, reordered);
}

/// One exchange is zero-sum: when a sender takes `mask` off its accumulator
/// `a` and the receiver adds it to its accumulator `b`, the ring sum of the
/// two is what it was, whatever the mask.
pub proof fn lemma_exchange_zero_sum(a: Value, b: Value, mask: Value)
    ensures
        add_spec(sub_spec(a, mask), add_spec(b, mask)) == add_spec(a, b),
{
    let sent = sub_spec(a, mask);
    lemma_reduce_sum(sent as int, sent as int, b + mask);
    lemma_reduce_sum(b + mask, b + mask, a - mask);
}

/// Subtraction undoes addition, and addition undoes subtraction.
pub proof fn lemma_add_sub_inverse(a: Value, mask: Value)
    ensures
        sub_spec(add_spec(a, mask), mask) == a,
        add_spec(sub_spec(a, mask), mask) == a,
{
    lemma_reduce_sum(-(mask as int), -(mask as int), a + mask);
    lemma_reduce_sum(mask as int, mask as int, a - mask);
}

/// Addition in the ring is commutative and associative.
pub proof fn lemma_add_commutative_associative(a: Value, b: Value, c: Value)
    ensures
        add_spec(a, b) == add_spec(b, a),
        add_spec(add_spec(a, b), c) == add_spec(a, add_spec(b, c)),
{
    lemma_reduce_sum(c as int, c as int, a + b);
    lemma_reduce_sum(a as int, a as int, b + c);
}

} // verus!
