//! The aggregator node on the network: it keeps the roster, drives the
//! clients through the masking round one at a time, and sums what they
//! share afterwards.

use vstd::prelude::*;

use crate::decimal::{is_value_text, number_of, parse_value, unsigned_part};
use crate::error::ProtocolError;
use crate::ring::{ring_sum, Value};
use crate::roster::peers_of;
pub use crate::roster::Collaborator_list;

verus! {

/// The aggregator: the roster of the clients it works with.
#[derive(Debug, Clone)]
pub struct Server {
    pub client_ports: Vec<u32>,
}

/// An aggregator with an empty roster.
#[allow(non_snake_case)]
pub fn new_Server() -> (server: Server)
    ensures
        server.client_ports@ == Seq::<u32>::empty(),
{
    Server { client_ports: Vec::new() }
}

/// An instruction for one client: run an interaction round against `peers`.
#[derive(Debug)]
pub struct Instruction {
    pub target: u32,
    pub peers: Collaborator_list,
}

/// The progress of one masking round as the aggregator drives it.
///
/// The node runs the round one client at a time: it asks for the next
/// instruction, sends it, waits for the answer and reports whether the
/// client took it. No further instruction is handed out before that report.
/// A client that could not be reached is passed over: the round goes on
/// with the next one, and the first client that could not be reached is
/// reported when the round ends.
#[derive(Debug)]
pub struct Orchestration {
    roster: Vec<u32>,
    instructed: usize,
    awaiting: bool,
    unreachable: Option<u32>,
}

impl Orchestration {
    #[verifier::type_invariant]
    spec fn well_formed(self) -> bool {
        &&& self.instructed <= self.roster@.len()
        &&& self.awaiting ==> self.instructed > 0
    }

    /// The roster of the round, in the order in which clients are driven.
    pub closed spec fn roster(self) -> Seq<u32> {
        self.roster@
    }

    /// How many clients have been handed their instruction.
    pub closed spec fn instructed(self) -> nat {
        self.instructed as nat
    }

    /// Whether the last instruction was handed out and not reported on yet.
    pub closed spec fn awaiting(self) -> bool {
        self.awaiting
    }

    /// The first client whose instruction was reported as failed, if any.
    pub closed spec fn unreachable(self) -> Option<u32> {
        self.unreachable
    }

    /// Whether an instruction can be handed out now: a client is left and
    /// no report is outstanding.
    pub open spec fn ready(self) -> bool {
        !self.awaiting() && self.instructed() < self.roster().len()
    }

    /// Whether the round is over: every client had its instruction, and the
    /// last one was reported on. There are never more instructions handed
    /// out than clients.
    pub fn is_complete(&self) -> (complete: bool)
        ensures
            complete == (!self.awaiting() && self.instructed() == self.roster().len()),
            self.instructed() <= self.roster().len(),
    {
        proof {
            use_type_invariant(self);
        }
        !self.awaiting && self.instructed == self.roster.len()
    }

    /// The step of the round: when an instruction can be handed out, the
    /// instruction for the next client, whose peers are all the other
    /// clients of the roster in roster order; the round then awaits the
    /// report on it. Otherwise nothing changes and there is no instruction.
    pub fn next_instruction(&mut self) -> (instruction: Option<Instruction>)
        ensures
            final(self).roster() == old(self).roster(),
            final(self).unreachable() == old(self).unreachable(),
            old(self).ready() ==> {
                &&& instruction matches Some(sending)
                &&& sending.target == old(self).roster()[old(self).instructed() as int]
                &&& sending.peers.port_list@ == old(self).roster().remove(
                    old(self).instructed() as int,
                )
                &&& sending.peers.consistent()
                &&& final(self).instructed() == old(self).instructed() + 1
                &&& final(self).awaiting()
            },
            !old(self).ready() ==> {
                &&& instruction is None
                &&& final(self).instructed() == old(self).instructed()
                &&& final(self).awaiting() == old(self).awaiting()
            },
    {
        proof {
            use_type_invariant(&*self);
        }
        if !self.awaiting && self.instructed < self.roster.len() {
            let target = self.roster[self.instructed];
            let peers = peers_of(&self.roster, self.instructed);
            self.instructed = self.instructed + 1;
            self.awaiting = true;
            Some(Instruction { target, peers })
        } else {
            None
        }
    }

    /// Records how the last instruction ended. The first failure is kept. A
    /// report on a success, on a later failure, or made while none is
    /// awaited leaves the failure as it was.
    pub fn acknowledge(&mut self, delivered: bool)
        ensures
            final(self).roster() == old(self).roster(),
            final(self).instructed() == old(self).instructed(),
            !final(self).awaiting(),
            final(self).unreachable() == if !delivered && old(self).awaiting() && old(
                self,
            ).unreachable() is None {
                Some(old(self).roster()[old(self).instructed() - 1])
            } else {
                old(self).unreachable()
            },
    {
        proof {
            use_type_invariant(&*self);
        }
        if self.awaiting {
            if !delivered && self.unreachable.is_none() {
                self.unreachable = Some(self.roster[self.instructed - 1]);
            }
            self.awaiting = false;
        }
    }

    /// How the round stands: the roster that was applied while no client
    /// has failed, and else the fault that names the first client that
    /// could not be reached.
    pub fn outcome(&self) -> (outcome: Result<Vec<u32>, ProtocolError>)
        ensures
            self.unreachable() is None ==> {
                &&& outcome matches Ok(applied)
                &&& applied@ == self.roster()
            },
            self.unreachable() matches Some(client) ==> {
                &&& outcome matches Err(fault)
                &&& fault == ProtocolError::PeerUnreachable(client)
            },
    {
        match self.unreachable {
            None => Ok(self.roster.clone()),
            Some(client) => Err(ProtocolError::PeerUnreachable(client)),
        }
    }
}

/// Serves a request to initialize a round: checks the roster message,
/// replaces the aggregator's roster by it and opens the round.
///
/// A consistent message becomes the roster, and the round opens with no
/// client instructed yet, no report awaited and no failure. A message whose
/// count is not the length of its list is rejected as malformed and the
/// roster stays as it was.
pub fn initialize(clients_list: Collaborator_list, server: &mut Server) -> (opened: Result<
    Orchestration,
    ProtocolError,
>)
    ensures
        clients_list.consistent() ==> {
            &&& opened matches Ok(round)
            &&& round.roster() == clients_list.port_list@
            &&& round.instructed() == 0
            &&& !round.awaiting()
            &&& round.unreachable() is None
            &&& final(server).client_ports@ == clients_list.port_list@
        },
        !clients_list.consistent() ==> {
            &&& opened matches Err(fault)
            &&& fault == ProtocolError::MalformedRequest
            &&& final(server).client_ports@ == old(server).client_ports@
        },
{
    match clients_list.check() {
        Ok(()) => {
            server.client_ports = clients_list.port_list.clone();
            Ok(
                Orchestration {
                    roster: clients_list.port_list,
                    instructed: 0,
                    awaiting: false,
                    unreachable: None,
                },
            )
        },
        Err(fault) => Err(fault),
    }
}

/// What the reply of one client gives: its value where the reply is the
/// decimal form of one, `PeerUnreachable` with the client's identifier where
/// there is no reply, and `MalformedRequest` where the reply is any other
/// text.
pub open spec fn reading(client: u32, reply: Option<Seq<char>>) -> Result<Value, ProtocolError> {
    match reply {
        None => Err(ProtocolError::PeerUnreachable(client)),
        Some(text) => if is_value_text(text) {
            Ok(number_of(unsigned_part(text)) as u32)
        } else {
            Err(ProtocolError::MalformedRequest)
        },
    }
}

/// The reply that stands for the client at position `i`: the `i`-th reply,
/// and no reply where the replies end before it.
pub open spec fn reply_at(replies: Seq<Option<String>>, i: int) -> Option<Seq<char>> {
    if 0 <= i < replies.len() {
        match replies[i] {
            Some(text) => Some(text@),
            None => None,
        }
    } else {
        None
    }
}

/// What the client at position `i` of the roster contributes.
pub open spec fn reading_at(roster: Seq<u32>, replies: Seq<Option<String>>, i: int) -> Result<
    Value,
    ProtocolError,
> {
    reading(roster[i], reply_at(replies, i))
}

/// The values that the clients shared, in roster order. It is meaningful
/// where every client's reply gives a value.
pub open spec fn shared_values(roster: Seq<u32>, replies: Seq<Option<String>>) -> Seq<Value> {
    Seq::new(
        roster.len(),
        |i: int|
            match reading_at(roster, replies, i) {
                Ok(value) => value,
                Err(_) => 0,
            },
    )
}

/// Reads the reply of one client to a request for its masked value.
pub fn read_reply(client: u32, reply: Option<&str>) -> (read: Result<Value, ProtocolError>)
    ensures
        read == reading(
            client,
            match reply {
                Some(text) => Some(text@),
                None => None,
            },
        ),
{
    match reply {
        None => Err(ProtocolError::PeerUnreachable(client)),
        Some(text) => parse_value(text),
    }
}

/// Whether every client at a position before `i` contributes a value.
pub open spec fn all_read_before(roster: Seq<u32>, replies: Seq<Option<String>>, i: int) -> bool {
    forall|j: int| 0 <= j < i ==> (#[trigger] reading_at(roster, replies, j)) is Ok
}

/// Serves a request to aggregate: sums in the ring what the clients of the
/// roster shared. `replies` holds, in roster order, the text that each
/// client answered with, and `None` for a client that could not be reached;
/// a client past the end of `replies` counts as not reached.
///
/// Where every reply gives a value, the result is the ring sum of those
/// values. Otherwise it is the fault of the first client, in roster order,
/// whose reply gives none.
pub fn aggregate_val(server: &Server, replies: &Vec<Option<String>>) -> (aggregate: Result<
    Value,
    ProtocolError,
>)
    ensures
        all_read_before(server.client_ports@, replies@, server.client_ports@.len() as int)
            ==> aggregate == Ok::<Value, ProtocolError>(
            ring_sum(shared_values(server.client_ports@, replies@)),
        ),
        forall|i: int|
            0 <= i < server.client_ports@.len() && all_read_before(
                server.client_ports@,
                replies@,
                i,
            ) && reading_at(server.client_ports@, replies@, i) is Err ==> aggregate
                == #[trigger] reading_at(server.client_ports@, replies@, i),
{
    let ghost roster = server.client_ports@;
    let mut aggregate_val: Value = 0;
    let mut i: usize = 0;
    while i < server.client_ports.len()
        invariant
            i <= server.client_ports@.len(),
            roster == server.client_ports@,
            all_read_before(roster, replies@, i as int),
            aggregate_val == ring_sum(shared_values(roster, replies@).take(i as int)),
        decreases server.client_ports@.len() - i,
    {
        let client = server.client_ports[i];
        let read = if i < replies.len() {
            match &replies[i] {
                Some(text) => read_reply(client, Some(text.as_str())),
                None => read_reply(client, None),
            }
        } else {
            read_reply(client, None)
        };
        assert(read == reading_at(roster, replies@, i as int));
        match read {
            Ok(masked_val) => {
                proof {
                    let values = shared_values(roster, replies@);
                    assert(values.take(i + 1).drop_last() =~= values.take(i as int));
                }
                aggregate_val = crate::ring::add(aggregate_val, masked_val);
            },
            Err(fault) => {
                return Err(fault);
            },
        }
        i = i + 1;
    }
    proof {
        let values = shared_values(roster, replies@);
        assert(values.take(i as int) =~= values);
    }
    Ok(aggregate_val)
}

} // verus!
