//! A client node: one private value and the accumulator that masks it.

use vstd::prelude::*;
use vstd::string::*;

use crate::decimal::{
    decimal, is_value_text, number_of, parse_value, render_decimal, render_value, unsigned_part,
};
use crate::entropy::{draw_in_range, draw_mask};
use crate::error::ProtocolError;
pub use crate::roster::Collaborator_list;
use crate::ring::{add_spec, reduce, sub_spec, total, Value};
use crate::round::{credited, drained, lemma_credited_total, lemma_drained_push};

verus! {

/// The accumulators of a sequence of clients, in order.
pub open spec fn masked_values(clients: Seq<Client>) -> Seq<Value> {
    Seq::new(clients.len(), |i: int| clients[i].masked_value)
}

/// The private values of a sequence of clients, in order.
pub open spec fn original_values(clients: Seq<Client>) -> Seq<Value> {
    Seq::new(clients.len(), |i: int| clients[i].value)
}

/// Two sequences hold the same clients, position by position, as far as
/// private value and name go: only accumulators may differ.
pub open spec fn same_identities(before: Seq<Client>, after: Seq<Client>) -> bool {
    &&& before.len() == after.len()
    &&& forall|i: int|
        0 <= i < before.len() ==> (#[trigger] after[i]).value == before[i].value && after[i].name
            == before[i].name
}

/// The name of the client with the given number: `Client #` and the number
/// in decimal.
pub open spec fn client_name(number: nat) -> Seq<char> {
    "Client #"@ + decimal(number)
}

/// A client of the protocol.
///
/// `value` is the private contribution, set at creation and never changed by
/// the library. `masked_value` starts as `value`; inbound masks are added to
/// it and outbound masks are subtracted from it.
#[derive(Debug, Clone)]
pub struct Client {
    pub value: Value,
    pub masked_value: Value,
    pub name: String,
}

/// A client for a node that serves it to the network: its accumulator holds
/// its own value, unmasked.
#[allow(non_snake_case)]
pub fn new_Client(sending_value: Value, name: String) -> (client: Client)
    ensures
        client.value == sending_value,
        client.masked_value == sending_value,
        client.name == name,
{
    Client::new(name, sending_value)
}

impl Client {
    /// Creates `num_participants` clients, numbered from 1 and named after
    /// their number, each with a private value drawn at random from 5 to 11.
    /// A count of zero or less gives no client.
    pub fn initialize_multiple(num_participants: i64) -> (clients: Vec<Client>)
        ensures
            clients@.len() == if num_participants > 0 {
                num_participants as int
            } else {
                0
            },
            forall|i: int|
                0 <= i < clients@.len() ==> {
                    &&& (#[trigger] clients@[i]).name@ == client_name((i + 1) as nat)
                    &&& 5 <= clients@[i].value < 12
                    &&& clients@[i].masked_value == clients@[i].value
                },
    {
        let mut clients: Vec<Client> = Vec::new();
        let mut i: i64 = 0;
        while i < num_participants
            invariant
                0 <= i,
                i <= num_participants || i == 0,
                clients@.len() == i,
                forall|k: int|
                    0 <= k < clients@.len() ==> {
                        &&& (#[trigger] clients@[k]).name@ == client_name((k + 1) as nat)
                        &&& 5 <= clients@[k].value < 12
                        &&& clients@[k].masked_value == clients@[k].value
                    },
            decreases num_participants - i,
        {
            let number = render_decimal((i + 1) as u64);
            let client_name = String::from_str("Client #").concat(number.as_str());
            let client_value = draw_in_range(5, 12);
            let curr_client = Client::new(client_name, client_value);
            clients.push(curr_client);
            i = i + 1;
        }
        clients
    }

    /// A client whose accumulator holds its own value, unmasked.
    pub fn new(name: String, sending_value: Value) -> (client: Client)
        ensures
            client.value == sending_value,
            client.masked_value == sending_value,
            client.name == name,
    {
        Client { value: sending_value, name: name, masked_value: sending_value }
    }

    /// Applies an inbound mask: adds `masking_val` to the accumulator.
    /// Every mask is accepted.
    pub fn add_to_value(&mut self, masking_val: Value)
        ensures
            final(self).masked_value == add_spec(old(self).masked_value, masking_val),
            final(self).value == old(self).value,
            final(self).name == old(self).name,
    {
        self.masked_value = crate::ring::add(self.masked_value, masking_val);
    }

    /// Applies an outbound mask: takes `masking_val` off the accumulator.
    pub fn subtract_from_value(&mut self, masking_val: Value)
        ensures
            final(self).masked_value == sub_spec(old(self).masked_value, masking_val),
            final(self).value == old(self).value,
            final(self).name == old(self).name,
    {
        self.masked_value = crate::ring::sub(self.masked_value, masking_val);
    }

    /// The accumulator as it stands. Reading it changes nothing, so two reads
    /// with no mask applied in between return the same value.
    pub fn share_value(&self) -> (shared: Value)
        ensures
            shared == self.masked_value,
    {
        self.masked_value
    }

    /// One exchange with one peer: this client takes `mask` off its
    /// accumulator and the peer adds it to its own. The ring sum of the two
    /// accumulators is what it was before, whatever the mask.
    pub fn exchange(&mut self, peer: &mut Client, mask: Value)
        ensures
            final(self).masked_value == sub_spec(old(self).masked_value, mask),
            final(peer).masked_value == add_spec(old(peer).masked_value, mask),
            add_spec(final(self).masked_value, final(peer).masked_value) == add_spec(
                old(self).masked_value,
                old(peer).masked_value,
            ),
            final(self).value == old(self).value,
            final(self).name == old(self).name,
            final(peer).value == old(peer).value,
            final(peer).name == old(peer).name,
    {
        self.subtract_from_value(mask);
        peer.add_to_value(mask);
        proof {
            crate::ring::lemma_exchange_zero_sum(
                old(self).masked_value,
                old(peer).masked_value,
                mask,
            );
        }
    }

    /// One interaction round of this client with given masks: for each
    /// client of `other_clients`, in order, the mask at the same position is
    /// exchanged.
    ///
    /// Where there is one mask for each of the other clients, the sender
    /// ends with its accumulator less all masks and each peer with its
    /// accumulator plus its own; the ring sum of all accumulators, the
    /// sender's and the peers', is what it was before. Where the number of
    /// masks is another, the masks are rejected as malformed and nothing
    /// changes.
    pub fn interact_with_masks(
        &mut self,
        other_clients: &mut Vec<Client>,
        masks: &Vec<Value>,
    ) -> (done: Result<(), ProtocolError>)
        ensures
            masks@.len() == old(other_clients)@.len() ==> {
                &&& done == Ok::<(), ProtocolError>(())
                &&& final(self).masked_value == drained(old(self).masked_value, masks@)
                &&& masked_values(final(other_clients)@) == credited(
                    masked_values(old(other_clients)@),
                    masks@,
                )
            },
            masks@.len() != old(other_clients)@.len() ==> {
                &&& done == Err::<(), ProtocolError>(ProtocolError::MalformedRequest)
                &&& final(self).masked_value == old(self).masked_value
                &&& final(other_clients)@ == old(other_clients)@
            },
            reduce(final(self).masked_value + total(masked_values(final(other_clients)@)))
                == reduce(old(self).masked_value + total(masked_values(old(other_clients)@))),
            final(self).value == old(self).value,
            final(self).name == old(self).name,
            same_identities(old(other_clients)@, final(other_clients)@),
    {
        if masks.len() != other_clients.len() {
            return Err(ProtocolError::MalformedRequest);
        }
        let mut i: usize = 0;
        while i < other_clients.len()
            invariant
                i <= other_clients.len(),
                other_clients.len() == old(other_clients).len(),
                masks@.len() == other_clients.len(),
                self.masked_value == drained(old(self).masked_value, masks@.take(i as int)),
                self.value == old(self).value,
                self.name == old(self).name,
                same_identities(old(other_clients)@, other_clients@),
                forall|k: int|
                    0 <= k < i ==> (#[trigger] other_clients@[k]).masked_value == add_spec(
                        old(other_clients)@[k].masked_value,
                        masks@[k],
                    ),
                forall|k: int|
                    i <= k < other_clients.len() ==> (#[trigger] other_clients@[k]).masked_value
                        == old(other_clients)@[k].masked_value,
            decreases other_clients.len() - i,
        {
            let mask = masks[i];
            proof {
                assert(masks@.take(i + 1) =~= masks@.take(i as int).push(mask));
                lemma_drained_push(old(self).masked_value, masks@.take(i as int), mask);
            }
            self.exchange(&mut other_clients[i], mask);
            i = i + 1;
        }
        proof {
            assert(masks@.take(i as int) =~= masks@);
            assert(masked_values(other_clients@) =~= credited(
                masked_values(old(other_clients)@),
                masks@,
            ));
            lemma_credited_total(masked_values(old(other_clients)@), masks@);
        }
        Ok(())
    }

    /// One interaction round of this client: for each client of
    /// `other_clients`, in order, a fresh random mask is drawn and exchanged.
    ///
    /// Whatever masks were drawn, there is one per peer, and the round ends
    /// as `interact_with_masks` ends for them.
    pub fn interact_with_others(&mut self, other_clients: &mut Vec<Client>)
        ensures
            exists|masks: Seq<Value>|
                {
                    &&& masks.len() == old(other_clients)@.len()
                    &&& final(self).masked_value == drained(old(self).masked_value, masks)
                    &&& masked_values(final(other_clients)@) == credited(
                        masked_values(old(other_clients)@),
                        masks,
                    )
                },
            reduce(final(self).masked_value + total(masked_values(final(other_clients)@)))
                == reduce(old(self).masked_value + total(masked_values(old(other_clients)@))),
            final(self).value == old(self).value,
            final(self).name == old(self).name,
            same_identities(old(other_clients)@, final(other_clients)@),
    {
        let masks = draw_masks(other_clients.len());
        let _ = self.interact_with_masks(other_clients, &masks);
    }
}

/// Draws `count` fresh random masks.
pub fn draw_masks(count: usize) -> (masks: Vec<Value>)
    ensures
        masks@.len() == count,
{
    let mut masks: Vec<Value> = Vec::new();
    let mut i: usize = 0;
    while i < count
        invariant
            i <= count,
            masks@.len() == i,
        decreases count - i,
    {
        masks.push(draw_mask());
        i = i + 1;
    }
    masks
}

/// An instruction for one peer: add `delta` to the accumulator of the
/// client reached at `target`.
#[derive(Debug, Clone, Copy, PartialEq, Eq, Structural)]
pub struct MaskMessage {
    pub target: u32,
    pub delta: Value,
}

impl MaskMessage {
    /// The request path that carries this message: the mask in decimal
    /// after `/maskbyadding/`.
    pub fn path(&self) -> (path: String)
        ensures
            path@ == "/maskbyadding/"@ + decimal(self.delta as nat),
    {
        String::from_str("/maskbyadding/").concat(render_value(self.delta).as_str())
    }
}

/// Serves a request to apply an inbound mask: adds `masking_val` to the
/// client's accumulator.
pub fn mask_by_adding(masking_val: Value, client: &mut Client)
    ensures
        final(client).masked_value == add_spec(old(client).masked_value, masking_val),
        final(client).value == old(client).value,
        final(client).name == old(client).name,
{
    client.add_to_value(masking_val);
}

/// Serves a request to apply an inbound mask that arrives as text.
///
/// A text that is the decimal form of a value is applied as
/// `mask_by_adding` applies that value. Any other text is rejected as
/// malformed and the client stays as it was.
pub fn mask_by_adding_text(masking_text: &str, client: &mut Client) -> (served: Result<
    (),
    ProtocolError,
>)
    ensures
        is_value_text(masking_text@) ==> served == Ok::<(), ProtocolError>(())
            && final(client).masked_value == add_spec(
            old(client).masked_value,
            number_of(unsigned_part(masking_text@)) as u32,
        ),
        !is_value_text(masking_text@) ==> served == Err::<(), ProtocolError>(
            ProtocolError::MalformedRequest,
        ) && final(client).masked_value == old(client).masked_value,
        final(client).value == old(client).value,
        final(client).name == old(client).name,
{
    match parse_value(masking_text) {
        Ok(masking_val) => {
            mask_by_adding(masking_val, client);
            Ok(())
        },
        Err(fault) => Err(fault),
    }
}

/// Serves a request to read the masked value: the accumulator in decimal.
/// The client is not changed.
pub fn share_val(client: &Client) -> (body: String)
    ensures
        body@ == decimal(client.masked_value as nat),
{
    render_value(client.share_value())
}

/// The progress of one interaction round of a client on the network.
///
/// The node that serves the client runs the round one peer at a time: it
/// asks for the next mask message while it holds the client, lets the client
/// go, sends the message, and reports whether the peer took it. No further
/// message is handed out before that report. A push that failed is not
/// undone and not tried again: the mask stays off the sender's accumulator,
/// the round goes on with the next peer, and the first peer that could not
/// be reached is reported when the round ends.
#[derive(Debug)]
pub struct InteractionRound {
    peers: Vec<u32>,
    sent: usize,
    awaiting: bool,
    unreachable: Option<u32>,
}

impl InteractionRound {
    #[verifier::type_invariant]
    spec fn well_formed(self) -> bool {
        &&& self.sent <= self.peers@.len()
        &&& self.awaiting ==> self.sent > 0
    }

    /// The peers of the round, in the order in which they are served.
    pub closed spec fn peers(self) -> Seq<u32> {
        self.peers@
    }

    /// How many peers have had their mask drawn and taken off the sender.
    pub closed spec fn sent(self) -> nat {
        self.sent as nat
    }

    /// Whether the last message was handed out and not reported on yet.
    pub closed spec fn awaiting(self) -> bool {
        self.awaiting
    }

    /// The first peer whose push was reported as failed, if any.
    pub closed spec fn unreachable(self) -> Option<u32> {
        self.unreachable
    }

    /// Whether a message can be handed out now: a peer is left and no
    /// report is outstanding.
    pub open spec fn ready(self) -> bool {
        !self.awaiting() && self.sent() < self.peers().len()
    }

    /// Whether the round is over: every peer had its message, and the last
    /// one was reported on. There are never more messages handed out than
    /// peers.
    pub fn is_complete(&self) -> (complete: bool)
        ensures
            complete == (!self.awaiting() && self.sent() == self.peers().len()),
            self.sent() <= self.peers().len(),
    {
        proof {
            use_type_invariant(self);
        }
        !self.awaiting && self.sent == self.peers.len()
    }

    /// The step of the round for a given mask.
    ///
    /// When a message can be handed out, `mask` is taken off the client's
    /// accumulator and the message that carries it to the next peer is
    /// returned; the round then awaits the report on it. Otherwise nothing
    /// changes and there is no message.
    pub fn next_message_with(&mut self, client: &mut Client, mask: Value) -> (message: Option<
        MaskMessage,
    >)
        ensures
            final(self).peers() == old(self).peers(),
            final(self).unreachable() == old(self).unreachable(),
            final(client).value == old(client).value,
            final(client).name == old(client).name,
            old(self).ready() ==> {
                &&& message == Some(
                    (MaskMessage {
                        target: old(self).peers()[old(self).sent() as int],
                        delta: mask,
                    }),
                )
                &&& final(self).sent() == old(self).sent() + 1
                &&& final(self).awaiting()
                &&& final(client).masked_value == sub_spec(old(client).masked_value, mask)
            },
            !old(self).ready() ==> {
                &&& message is None
                &&& final(self).sent() == old(self).sent()
                &&& final(self).awaiting() == old(self).awaiting()
                &&& final(client).masked_value == old(client).masked_value
            },
    {
        proof {
            use_type_invariant(&*self);
        }
        if !self.awaiting && self.sent < self.peers.len() {
            let target = self.peers[self.sent];
            client.subtract_from_value(mask);
            self.sent = self.sent + 1;
            self.awaiting = true;
            Some(MaskMessage { target, delta: mask })
        } else {
            None
        }
    }

    /// The step of the round with a fresh random mask: what
    /// `next_message_with` does for some mask. No mask is drawn when no
    /// message can be handed out.
    pub fn next_message(&mut self, client: &mut Client) -> (message: Option<MaskMessage>)
        ensures
            final(self).peers() == old(self).peers(),
            final(self).unreachable() == old(self).unreachable(),
            final(client).value == old(client).value,
            final(client).name == old(client).name,
            old(self).ready() ==> {
                &&& message matches Some(sending)
                &&& sending.target == old(self).peers()[old(self).sent() as int]
                &&& final(self).sent() == old(self).sent() + 1
                &&& final(self).awaiting()
                &&& final(client).masked_value == sub_spec(
                    old(client).masked_value,
                    sending.delta,
                )
            },
            !old(self).ready() ==> {
                &&& message is None
                &&& final(self).sent() == old(self).sent()
                &&& final(self).awaiting() == old(self).awaiting()
                &&& final(client).masked_value == old(client).masked_value
            },
    {
        proof {
            use_type_invariant(&*self);
        }
        if self.awaiting || self.sent >= self.peers.len() {
            None
        } else {
            let mask = draw_mask();
            self.next_message_with(client, mask)
        }
    }

    /// Records how the push of the last message ended. The first failure is
    /// kept. A report on a success, on a later failure, or made while none
    /// is awaited leaves the failure as it was.
    pub fn acknowledge(&mut self, delivered: bool)
        ensures
            final(self).peers() == old(self).peers(),
            final(self).sent() == old(self).sent(),
            !final(self).awaiting(),
            final(self).unreachable() == if !delivered && old(self).awaiting() && old(
                self,
            ).unreachable() is None {
                Some(old(self).peers()[old(self).sent() - 1])
            } else {
                old(self).unreachable()
            },
    {
        proof {
            use_type_invariant(&*self);
        }
        if self.awaiting {
            if !delivered && self.unreachable.is_none() {
                self.unreachable = Some(self.peers[self.sent - 1]);
            }
            self.awaiting = false;
        }
    }

    /// How the round stands: success while no push has failed, and else the
    /// fault that names the first peer that could not be reached.
    pub fn outcome(&self) -> (outcome: Result<(), ProtocolError>)
        ensures
            outcome == match self.unreachable() {
                None => Ok::<(), ProtocolError>(()),
                Some(peer) => Err::<(), ProtocolError>(ProtocolError::PeerUnreachable(peer)),
            },
    {
        match self.unreachable {
            None => Ok(()),
            Some(peer) => Err(ProtocolError::PeerUnreachable(peer)),
        }
    }
}

/// Serves a request to run an interaction round: checks the roster message
/// and opens the round over its peers.
///
/// A consistent message opens a round in which no mask was handed out yet,
/// no report is awaited and no push has failed. A message whose count is not
/// the length of its list is rejected as malformed.
pub fn interact_with_others(collaborator_port_list: Collaborator_list) -> (opened: Result<
    InteractionRound,
    ProtocolError,
>)
    ensures
        collaborator_port_list.consistent() ==> {
            &&& opened matches Ok(round)
            &&& round.peers() == collaborator_port_list.port_list@
            &&& round.sent() == 0
            &&& !round.awaiting()
            &&& round.unreachable() is None
        },
        !collaborator_port_list.consistent() ==> {
            &&& opened matches Err(fault)
            &&& fault == ProtocolError::MalformedRequest
        },
{
    match collaborator_port_list.check() {
        Ok(()) => Ok(
            InteractionRound {
                peers: collaborator_port_list.port_list,
                sent: 0,
                awaiting: false,
                unreachable: None,
            },
        ),
        Err(fault) => Err(fault),
    }
}

} // verus!
