//! The protocol with every node in one address space: an aggregator that
//! owns its clients and drives their exchanges directly.

use vstd::prelude::*;

use crate::client::{draw_masks, masked_values, original_values, same_identities, Client};
use crate::error::ProtocolError;
use crate::ring::{ring_sum, Value};
use crate::round::{
    after_interaction, after_round, lemma_interaction_conserves, lemma_round_conserves,
    lemma_round_prefix, well_shaped,
};

verus! {

/// A table of masks as a sequence of rows.
pub open spec fn mask_table(rows: Seq<Vec<Value>>) -> Seq<Seq<Value>> {
    Seq::new(rows.len(), |i: int| rows[i]@)
}

/// The conservation invariant: the ring sum of the accumulators equals the
/// ring sum of the private values.
pub open spec fn conserved(clients: Seq<Client>) -> bool {
    ring_sum(masked_values(clients)) == ring_sum(original_values(clients))
}

/// Clients that have exchanged nothing yet satisfy the conservation
/// invariant.
pub proof fn lemma_unmasked_clients_conserved(clients: Seq<Client>)
    requires
        forall|i: int|
            0 <= i < clients.len() ==> (#[trigger] clients[i]).masked_value == clients[i].value,
    ensures
        conserved(clients),
{
    assert(masked_values(clients) =~= original_values(clients));
}

/// Conservation over a round: when the accumulators of clients that satisfy
/// the conservation invariant are replaced by what a round leaves, whatever
/// the masks, the ring sum of the new accumulators is still the ring sum of
/// the private values.
pub proof fn lemma_round_conserves_original_sum(clients: Seq<Client>, rows: Seq<Seq<Value>>)
    requires
        conserved(clients),
        well_shaped(rows, clients.len()),
    ensures
        ring_sum(after_round(masked_values(clients), rows, clients.len())) == ring_sum(
            original_values(clients),
        ),
{
    lemma_round_conserves(masked_values(clients), rows, clients.len());
}

/// An aggregator that owns its clients.
#[derive(Debug)]
pub struct Server {
    pub aggregate_value: Value,
    pub clients: Vec<Client>,
}

impl Server {
    /// Runs the interaction round of the client at position `i` with given
    /// masks, one for each other client in order: the accumulators end as
    /// `after_interaction` gives them. Private values, names and the order
    /// of the clients stay as they were.
    fn interact_at(&mut self, i: usize, masks: &Vec<Value>)
        requires
            i < old(self).clients@.len(),
            masks@.len() == old(self).clients@.len() - 1,
        ensures
            masked_values(final(self).clients@) == after_interaction(
                masked_values(old(self).clients@),
                i as int,
                masks@,
            ),
            ring_sum(masked_values(final(self).clients@)) == ring_sum(
                masked_values(old(self).clients@),
            ),
            same_identities(old(self).clients@, final(self).clients@),
            final(self).aggregate_value == old(self).aggregate_value,
    {
        let ghost before = self.clients@;
        let mut current_client = self.clients.remove(i);
        let ghost others = self.clients@;
        let _ = current_client.interact_with_masks(&mut self.clients, masks);
        proof {
            assert(masked_values(others) =~= masked_values(before).remove(i as int));
            assert(masked_values(self.clients@.insert(i as int, current_client))
                =~= masked_values(self.clients@).insert(i as int, current_client.masked_value));
            lemma_interaction_conserves(masked_values(before), i as int, masks@);
        }
        self.clients.insert(i, current_client);
    }

    /// Whether a table of masks fits the clients: one row for each client
    /// and in each row one mask for each other client.
    pub fn fits(&self, rows: &Vec<Vec<Value>>) -> (fitting: bool)
        ensures
            fitting == well_shaped(mask_table(rows@), self.clients@.len()),
    {
        if rows.len() != self.clients.len() {
            return false;
        }
        let mut i: usize = 0;
        while i < rows.len()
            invariant
                i <= rows.len(),
                rows.len() == self.clients.len(),
                forall|k: int|
                    0 <= k < i ==> (#[trigger] mask_table(rows@)[k]).len() == self.clients@.len()
                        - 1,
            decreases rows.len() - i,
        {
            if rows[i].len() != self.clients.len() - 1 {
                assert(mask_table(rows@)[i as int].len() != self.clients@.len() - 1);
                return false;
            }
            i = i + 1;
        }
        true
    }

    /// Runs the interaction round with given masks: each client in turn, in
    /// the order of `clients`, exchanges with every other client the masks
    /// of its row.
    ///
    /// Where the table holds one row for each client and in each row one
    /// mask for each other client, the accumulators end as `after_round`
    /// gives them. Any other table is rejected as malformed and no
    /// accumulator changes. Either way the ring sum of the accumulators is
    /// what it was before, and private values, names and the order of the
    /// clients stay as they were.
    pub fn initialize_with_masks(&mut self, rows: &Vec<Vec<Value>>) -> (done: Result<
        (),
        ProtocolError,
    >)
        ensures
            well_shaped(mask_table(rows@), old(self).clients@.len()) ==> {
                &&& done == Ok::<(), ProtocolError>(())
                &&& masked_values(final(self).clients@) == after_round(
                    masked_values(old(self).clients@),
                    mask_table(rows@),
                    old(self).clients@.len(),
                )
            },
            !well_shaped(mask_table(rows@), old(self).clients@.len()) ==> {
                &&& done == Err::<(), ProtocolError>(ProtocolError::MalformedRequest)
                &&& final(self).clients@ == old(self).clients@
            },
            ring_sum(masked_values(final(self).clients@)) == ring_sum(
                masked_values(old(self).clients@),
            ),
            conserved(old(self).clients@) ==> conserved(final(self).clients@),
            same_identities(old(self).clients@, final(self).clients@),
            final(self).aggregate_value == old(self).aggregate_value,
    {
        if !self.fits(rows) {
            return Err(ProtocolError::MalformedRequest);
        }
        let ghost start = masked_values(self.clients@);
        let ghost table = mask_table(rows@);
        let mut i: usize = 0;
        while i < self.clients.len()
            invariant
                i <= self.clients.len(),
                self.clients@.len() == old(self).clients@.len(),
                start == masked_values(old(self).clients@),
                table == mask_table(rows@),
                well_shaped(table, self.clients@.len()),
                masked_values(self.clients@) == after_round(start, table, i as nat),
                same_identities(old(self).clients@, self.clients@),
                self.aggregate_value == old(self).aggregate_value,
            decreases self.clients.len() - i,
        {
            assert(table[i as int] == rows@[i as int]@);
            self.interact_at(i, &rows[i]);
            i = i + 1;
        }
        proof {
            lemma_round_conserves(start, table, start.len());
            assert(original_values(self.clients@) =~= original_values(old(self).clients@));
        }
        Ok(())
    }

    /// Runs the interaction round: each client in turn, in the order of
    /// `clients`, exchanges a fresh random mask with every other client.
    ///
    /// Whatever masks were drawn, there is one for each ordered pair of
    /// distinct clients, and the round ends as `initialize_with_masks` ends
    /// for them: the accumulators as `after_round` gives them, their ring
    /// sum what it was before.
    pub fn initialize(&mut self)
        ensures
            exists|rows: Seq<Seq<Value>>|
                {
                    &&& well_shaped(rows, old(self).clients@.len())
                    &&& masked_values(final(self).clients@) == after_round(
                        masked_values(old(self).clients@),
                        rows,
                        old(self).clients@.len(),
                    )
                },
            ring_sum(masked_values(final(self).clients@)) == ring_sum(
                masked_values(old(self).clients@),
            ),
            conserved(old(self).clients@) ==> conserved(final(self).clients@),
            same_identities(old(self).clients@, final(self).clients@),
            final(self).aggregate_value == old(self).aggregate_value,
    {
        let ghost start = masked_values(self.clients@);
        let ghost n = self.clients@.len();
        let ghost mut rows: Seq<Seq<Value>> = Seq::empty();
        let mut i: usize = 0;
        while i < self.clients.len()
            invariant
                i <= self.clients.len(),
                self.clients@.len() == n,
                n == old(self).clients@.len(),
                start == masked_values(old(self).clients@),
                rows.len() == i,
                forall|k: int| 0 <= k < i ==> (#[trigger] rows[k]).len() == n - 1,
                masked_values(self.clients@) == after_round(start, rows, i as nat),
                same_identities(old(self).clients@, self.clients@),
                self.aggregate_value == old(self).aggregate_value,
            decreases self.clients.len() - i,
        {
            let masks = draw_masks(self.clients.len() - 1);
            proof {
                lemma_round_prefix(start, rows, rows.push(masks@), i as nat);
                rows = rows.push(masks@);
            }
            self.interact_at(i, &masks);
            i = i + 1;
        }
        proof {
            assert(well_shaped(rows, n));
            assert(masked_values(self.clients@) == after_round(start, rows, n));
            lemma_round_conserves(start, rows, n);
            assert(original_values(self.clients@) =~= original_values(old(self).clients@));
        }
    }

    /// The ring sum of the private values of all clients: what the
    /// aggregate would be if no client were masked.
    pub fn plain_sum(&self) -> (sum: Value)
        ensures
            sum == ring_sum(original_values(self.clients@)),
    {
        let mut sum: Value = 0;
        let mut i: usize = 0;
        while i < self.clients.len()
            invariant
                i <= self.clients.len(),
                sum == ring_sum(original_values(self.clients@).take(i as int)),
            decreases self.clients.len() - i,
        {
            proof {
                let values = original_values(self.clients@);
                assert(values.take(i + 1).drop_last() =~= values.take(i as int));
            }
            sum = crate::ring::add(sum, self.clients[i].value);
            i = i + 1;
        }
        proof {
            let values = original_values(self.clients@);
            assert(values.take(i as int) =~= values);
        }
        sum
    }

    /// The ring sum of the accumulators of all clients.
    pub fn masked_sum(&self) -> (sum: Value)
        ensures
            sum == ring_sum(masked_values(self.clients@)),
    {
        let mut ret: Value = 0;
        let mut i: usize = 0;
        while i < self.clients.len()
            invariant
                i <= self.clients.len(),
                ret == ring_sum(masked_values(self.clients@).take(i as int)),
            decreases self.clients.len() - i,
        {
            proof {
                let values = masked_values(self.clients@);
                assert(values.take(i + 1).drop_last() =~= values.take(i as int));
            }
            ret = crate::ring::add(ret, self.clients[i].share_value());
            i = i + 1;
        }
        proof {
            let values = masked_values(self.clients@);
            assert(values.take(i as int) =~= values);
        }
        ret
    }

    /// Whether the conservation invariant holds of the clients as they
    /// stand: a diagnostic, for the accumulators alone tell nothing of it.
    pub fn is_conserved(&self) -> (holds: bool)
        ensures
            holds == conserved(self.clients@),
    {
        self.masked_sum() == self.plain_sum()
    }

    /// Sums the accumulators of all clients in the ring, stores the sum and
    /// returns it. No client is changed.
    pub fn aggregate(&mut self) -> (sum: Value)
        ensures
            sum == ring_sum(masked_values(old(self).clients@)),
            final(self).aggregate_value == sum,
            final(self).clients == old(self).clients,
    {
        self.aggregate_value = self.masked_sum();
        self.aggregate_value
    }
}

} // verus!
