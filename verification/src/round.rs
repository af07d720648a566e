//! What exchanges do to the accumulators of a group of clients: single
//! exchanges, the interaction round of one client, and the round of the
//! whole group. The group is a sequence of accumulators, and a client is
//! named by its position in it.

use vstd::prelude::*;

use crate::ring::{
    add_spec, lemma_reduce_sum, lemma_total_insert, lemma_total_push, lemma_total_remove,
    lemma_total_update, reduce, ring_sum, sub_spec, total, Value,
};

verus! {

/// What a sender's accumulator holds after it sent every mask of `masks`.
pub open spec fn drained(start: Value, masks: Seq<Value>) -> Value {
    reduce(start - total(masks))
}

/// Sending one more mask takes it off what the sender held.
pub proof fn lemma_drained_push(start: Value, masks: Seq<Value>, mask: Value)
    ensures
        drained(start, masks.push(mask)) == sub_spec(drained(start, masks), mask),
{
    lemma_total_push(masks, mask);
    lemma_reduce_sum(-(mask as int), -(mask as int), start - total(masks));
}

/// What the receivers' accumulators hold after the `k`-th of them received
/// the `k`-th mask.
pub open spec fn credited(values: Seq<Value>, masks: Seq<Value>) -> Seq<Value> {
    Seq::new(values.len(), |k: int| add_spec(values[k], masks[k]))
}

/// Crediting masks to receivers raises their total by the total of the
/// masks, up to a multiple of 2^32.
pub proof fn lemma_credited_total(values: Seq<Value>, masks: Seq<Value>)
    requires
        values.len() == masks.len(),
    ensures
        reduce(total(credited(values, masks))) == reduce(total(values) + total(masks)),
    decreases values.len(),
{
    if values.len() > 0 {
        let earlier = credited(values.drop_last(), masks.drop_last());
        assert(credited(values, masks).drop_last() =~= earlier);
        lemma_credited_total(values.drop_last(), masks.drop_last());
        lemma_reduce_sum(
            total(earlier),
            total(values.drop_last()) + total(masks.drop_last()),
            values.last() + masks.last(),
        );
    } else {
        assert(credited(values, masks) =~= Seq::<Value>::empty());
    }
}

/// The accumulators after one exchange: the client at position `from` took
/// `mask` off its accumulator and the client at position `to` added it.
pub open spec fn after_exchange(values: Seq<Value>, from: int, to: int, mask: Value) -> Seq<Value> {
    values.update(from, sub_spec(values[from], mask)).update(to, add_spec(values[to], mask))
}

/// Whether an exchange names two different clients of a group of `n`.
pub open spec fn valid_exchange(n: nat, step: (int, int, Value)) -> bool {
    0 <= step.0 < n && 0 <= step.1 < n && step.0 != step.1
}

/// The accumulators after a sequence of exchanges, each given as sender,
/// receiver and mask, took place in order.
pub open spec fn after_exchanges(values: Seq<Value>, steps: Seq<(int, int, Value)>) -> Seq<Value>
    decreases steps.len(),
{
    if steps.len() == 0 {
        values
    } else {
        let step = steps.last();
        after_exchange(after_exchanges(values, steps.drop_last()), step.0, step.1, step.2)
    }
}

/// One exchange between two different clients leaves the ring sum of all
/// accumulators unchanged, whatever the mask, and touches no third client.
pub proof fn lemma_exchange_conserves(values: Seq<Value>, from: int, to: int, mask: Value)
    requires
        valid_exchange(values.len(), (from, to, mask)),
    ensures
        after_exchange(values, from, to, mask).len() == values.len(),
        ring_sum(after_exchange(values, from, to, mask)) == ring_sum(values),
        forall|k: int|
            0 <= k < values.len() && k != from && k != to ==> after_exchange(
                values,
                from,
                to,
                mask,
            )[k] == values[k],
{
    let sent = values.update(from, sub_spec(values[from], mask));
    lemma_total_update(values, from, sub_spec(values[from], mask));
    lemma_total_update(sent, to, add_spec(values[to], mask));
}

/// Conservation over any set of exchanges: whichever clients exchange masks,
/// in whatever order and however often, the ring sum of all accumulators is
/// unchanged, and a client that takes part in no exchange keeps its
/// accumulator. So when some clients are left out of a round, the others
/// still keep their sum among themselves.
pub proof fn lemma_exchanges_conserve(values: Seq<Value>, steps: Seq<(int, int, Value)>)
    requires
        forall|s: int| 0 <= s < steps.len() ==> valid_exchange(values.len(), #[trigger] steps[s]),
    ensures
        after_exchanges(values, steps).len() == values.len(),
        ring_sum(after_exchanges(values, steps)) == ring_sum(values),
        forall|k: int|
            0 <= k < values.len() && (forall|s: int|
                0 <= s < steps.len() ==> (#[trigger] steps[s]).0 != k && steps[s].1 != k)
                ==> after_exchanges(values, steps)[k] == values[k],
    decreases steps.len(),
{
    if steps.len() > 0 {
        let earlier = steps.drop_last();
        let step = steps.last();
        assert(forall|s: int| 0 <= s < earlier.len() ==> earlier[s] == steps[s]);
        lemma_exchanges_conserve(values, earlier);
        lemma_exchange_conserves(after_exchanges(values, earlier), step.0, step.1, step.2);
        assert forall|k: int|
            0 <= k < values.len() && (forall|s: int|
                0 <= s < steps.len() ==> (#[trigger] steps[s]).0 != k && steps[s].1
                    != k) implies after_exchanges(values, steps)[k] == values[k] by {
            assert(steps[steps.len() - 1] == step);
            assert(forall|s: int|
                0 <= s < earlier.len() ==> (#[trigger] earlier[s]).0 != k && earlier[s].1 != k) by {
                assert(forall|s: int| 0 <= s < earlier.len() ==> earlier[s] == steps[s]);
            }
        }
    }
}

/// The accumulators after the client at position `i` ran its interaction
/// round: it sent `masks[k]` to the `k`-th of the other clients, taken in
/// order with position `i` left out.
pub open spec fn after_interaction(values: Seq<Value>, i: int, masks: Seq<Value>) -> Seq<Value> {
    credited(values.remove(i), masks).insert(i, drained(values[i], masks))
}

/// The place of client `j` among the peers of client `i`: the peers are all
/// clients but `i`, in order.
pub open spec fn slot(i: int, j: int) -> int {
    if j < i {
        j
    } else {
        j - 1
    }
}

/// The position in the group of the `k`-th peer of client `i`.
pub open spec fn peer_position(i: int, k: int) -> int {
    if k < i {
        k
    } else {
        k + 1
    }
}

/// The exchanges that make up the interaction round of client `i`: one with
/// each other client, in order.
pub open spec fn interaction_steps(i: int, masks: Seq<Value>) -> Seq<(int, int, Value)> {
    Seq::new(masks.len(), |k: int| (i, peer_position(i, k), masks[k]))
}

/// The accumulators after client `i` made the first `m` exchanges of its
/// interaction round.
spec fn partway(values: Seq<Value>, i: int, masks: Seq<Value>, m: int) -> Seq<Value> {
    Seq::new(
        values.len(),
        |p: int|
            if p == i {
                drained(values[i], masks.take(m))
            } else if slot(i, p) < m {
                add_spec(values[p], masks[slot(i, p)])
            } else {
                values[p]
            },
    )
}

/// The first `m` exchanges of the interaction round of client `i` leave
/// what `partway` says.
proof fn lemma_partway(values: Seq<Value>, i: int, masks: Seq<Value>, m: int)
    requires
        0 <= i < values.len(),
        masks.len() == values.len() - 1,
        0 <= m <= masks.len(),
    ensures
        after_exchanges(values, interaction_steps(i, masks.take(m))) == partway(
            values,
            i,
            masks,
            m,
        ),
    decreases m,
{
    let steps = interaction_steps(i, masks.take(m));
    if m == 0 {
        assert(masks.take(0) =~= Seq::<Value>::empty());
        assert(partway(values, i, masks, 0) =~= values);
    } else {
        let earlier = interaction_steps(i, masks.take(m - 1));
        assert(steps.drop_last() =~= earlier);
        assert(steps.last() == (i, peer_position(i, m - 1), masks[m - 1]));
        lemma_partway(values, i, masks, m - 1);
        assert(masks.take(m) =~= masks.take(m - 1).push(masks[m - 1]));
        lemma_drained_push(values[i], masks.take(m - 1), masks[m - 1]);
        assert(after_exchange(
            partway(values, i, masks, m - 1),
            i,
            peer_position(i, m - 1),
            masks[m - 1],
        ) =~= partway(values, i, masks, m));
    }
}

/// An interaction round is a sequence of exchanges: client `i` with each
/// other client in turn. What holds after any exchanges holds after a round.
pub proof fn lemma_interaction_is_exchanges(values: Seq<Value>, i: int, masks: Seq<Value>)
    requires
        0 <= i < values.len(),
        masks.len() == values.len() - 1,
    ensures
        after_exchanges(values, interaction_steps(i, masks)) == after_interaction(values, i, masks),
        forall|s: int|
            0 <= s < masks.len() ==> valid_exchange(
                values.len(),
                #[trigger] interaction_steps(i, masks)[s],
            ),
{
    lemma_partway(values, i, masks, masks.len() as int);
    assert(masks.take(masks.len() as int) =~= masks);
    assert(partway(values, i, masks, masks.len() as int) =~= after_interaction(values, i, masks));
}

/// The accumulators after the clients at positions `0` to `upto - 1` each ran
/// their interaction round, in that order, the client at position `i` with
/// the masks `rows[i]`.
pub open spec fn after_round(values: Seq<Value>, rows: Seq<Seq<Value>>, upto: nat) -> Seq<Value>
    decreases upto,
{
    if upto == 0 {
        values
    } else {
        after_interaction(
            after_round(values, rows, (upto - 1) as nat),
            upto - 1,
            rows[upto - 1],
        )
    }
}

/// `rows` holds, for each of `n` clients, one mask for each other client.
pub open spec fn well_shaped(rows: Seq<Seq<Value>>, n: nat) -> bool {
    &&& rows.len() == n
    &&& forall|i: int| 0 <= i < n ==> (#[trigger] rows[i]).len() == n - 1
}

/// One client's interaction round leaves the ring sum of all accumulators
/// unchanged, whatever the masks.
pub proof fn lemma_interaction_conserves(values: Seq<Value>, i: int, masks: Seq<Value>)
    requires
        0 <= i < values.len(),
        masks.len() == values.len() - 1,
    ensures
        after_interaction(values, i, masks).len() == values.len(),
        ring_sum(after_interaction(values, i, masks)) == ring_sum(values),
{
    let others = values.remove(i);
    lemma_credited_total(others, masks);
    lemma_total_remove(values, i);
    lemma_total_insert(credited(others, masks), i, drained(values[i], masks));
    lemma_reduce_sum(
        total(credited(others, masks)),
        total(others) + total(masks),
        values[i] - total(masks),
    );
}

/// A round, complete or cut short after any number of clients, leaves the
/// ring sum of all accumulators unchanged, whatever the masks.
pub proof fn lemma_round_conserves(values: Seq<Value>, rows: Seq<Seq<Value>>, upto: nat)
    requires
        well_shaped(rows, values.len()),
        upto <= values.len(),
    ensures
        after_round(values, rows, upto).len() == values.len(),
        ring_sum(after_round(values, rows, upto)) == ring_sum(values),
    decreases upto,
{
    if upto > 0 {
        lemma_round_conserves(values, rows, (upto - 1) as nat);
        lemma_interaction_conserves(
            after_round(values, rows, (upto - 1) as nat),
            upto - 1,
            rows[upto - 1],
        );
    }
}

/// The total of the masks that client `j` received from the clients at
/// positions below `upto`.
pub open spec fn received(rows: Seq<Seq<Value>>, j: int, upto: nat) -> int
    decreases upto,
{
    if upto == 0 {
        0
    } else if upto - 1 == j {
        received(rows, j, (upto - 1) as nat)
    } else {
        received(rows, j, (upto - 1) as nat) + rows[upto - 1][slot(upto - 1, j)]
    }
}

/// What a round leaves in each accumulator: after the clients at positions
/// below `upto` ran, client `j` holds its starting value, less every mask it
/// sent if it has run, plus every mask it received, reduced. After a
/// complete round every client has sent one mask to every other client and
/// received one from each.
pub proof fn lemma_round_closed_form(values: Seq<Value>, rows: Seq<Seq<Value>>, upto: nat, j: int)
    requires
        well_shaped(rows, values.len()),
        upto <= values.len(),
        0 <= j < values.len(),
    ensures
        after_round(values, rows, upto)[j] == reduce(
            values[j] - (if j < upto {
                total(rows[j])
            } else {
                0
            }) + received(rows, j, upto),
        ),
    decreases upto,
{
    if upto > 0 {
        let i = upto - 1;
        let before = after_round(values, rows, i as nat);
        lemma_round_conserves(values, rows, i as nat);
        lemma_round_closed_form(values, rows, i as nat, j);
        let after = after_round(values, rows, upto);
        let held = values[j] - (if j < i {
            total(rows[j])
        } else {
            0
        }) + received(rows, j, i as nat);
        assert(before[j] == reduce(held));
        if j == i {
            assert(after[j] == drained(before[i], rows[i]));
            lemma_reduce_sum(-total(rows[i]), -total(rows[i]), held);
        } else {
            let mask = rows[i][slot(i, j)];
            assert(before.remove(i)[slot(i, j)] == before[j]);
            assert(after[j] == add_spec(before[j], mask));
            lemma_reduce_sum(mask as int, mask as int, held);
        }
    }
}

/// A round depends only on the rows of the clients that ran.
pub proof fn lemma_round_prefix(
    values: Seq<Value>,
    rows: Seq<Seq<Value>>,
    more: Seq<Seq<Value>>,
    upto: nat,
)
    requires
        upto <= rows.len() <= more.len(),
        forall|k: int| 0 <= k < upto ==> rows[k] == more[k],
    ensures
        after_round(values, rows, upto) == after_round(values, more, upto),
    decreases upto,
{
    if upto > 0 {
        lemma_round_prefix(values, rows, more, (upto - 1) as nat);
    }
}

} // verus!
