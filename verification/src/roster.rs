//! The roster message: the list of peers that a node is told to work with.

use vstd::prelude::*;

use crate::error::ProtocolError;

verus! {

/// A list of client identifiers together with its announced length.
///
/// A client identifier is the port at which the client is reached. The two
/// fields travel together on the wire; a message whose count is not the
/// length of its list is malformed.
#[allow(non_camel_case_types)]
#[derive(Debug, Clone)]
pub struct Collaborator_list {
    pub port_list: Vec<u32>,
    pub num_collaborators: usize,
}

impl Collaborator_list {
    /// Whether the announced count is the length of the list.
    pub open spec fn consistent(&self) -> bool {
        self.num_collaborators == self.port_list@.len()
    }

    /// The roster message for a list of clients, with the count that fits it.
    pub fn of(port_list: Vec<u32>) -> (list: Collaborator_list)
        ensures
            list.port_list == port_list,
            list.consistent(),
    {
        let num_collaborators = port_list.len();
        Collaborator_list { port_list, num_collaborators }
    }

    /// Accepts a consistent message and rejects any other as malformed.
    pub fn check(&self) -> (checked: Result<(), ProtocolError>)
        ensures
            self.consistent() ==> checked == Ok::<(), ProtocolError>(()),
            !self.consistent() ==> checked == Err::<(), ProtocolError>(
                ProtocolError::MalformedRequest,
            ),
    {
        if self.num_collaborators == self.port_list.len() {
            Ok(())
        } else {
            Err(ProtocolError::MalformedRequest)
        }
    }
}

/// The peers of the client at position `i` of a roster: every other client,
/// in roster order. Where the roster has no position `i`, nobody is left
/// out. The roster itself is left as it is.
pub fn peers_of(roster: &Vec<u32>, i: usize) -> (peers: Collaborator_list)
    ensures
        i < roster@.len() ==> peers.port_list@ == roster@.remove(i as int),
        i >= roster@.len() ==> peers.port_list@ == roster@,
        peers.consistent(),
{
    let mut port_list: Vec<u32> = Vec::new();
    let mut k: usize = 0;
    while k < roster.len()
        invariant
            k <= roster@.len(),
            port_list@ == if k <= i {
                roster@.take(k as int)
            } else {
                roster@.take(k as int).remove(i as int)
            },
        decreases roster@.len() - k,
    {
        if k != i {
            port_list.push(roster[k]);
        }
        proof {
            let next = roster@.take(k + 1);
            if k < i {
                assert(next =~= roster@.take(k as int).push(roster@[k as int]));
            } else if k == i {
                assert(next.remove(i as int) =~= roster@.take(k as int));
            } else {
                assert(next.remove(i as int) =~= roster@.take(k as int).remove(i as int).push(
                    roster@[k as int],
                ));
            }
        }
        k = k + 1;
    }
    proof {
        assert(roster@.take(k as int) =~= roster@);
    }
    Collaborator_list::of(port_list)
}

} // verus!
