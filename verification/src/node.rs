//! Routing-table entries: a contact with its liveness classification.

use vstd::prelude::*;

use crate::addrs::PeerAddr;
use crate::id::NodeId;
use crate::outside::now_secs;

verus! {

/// Liveness classification of a contact. It is advisory: its only
/// externally visible effect is which node a full bucket evicts.
#[derive(Clone, Copy, PartialEq, Eq, Structural, Debug)]
pub enum NodeState {
    /// A successful interaction happened recently.
    Good,
    /// No recent contact either way.
    Questionable,
    /// Several consecutive requests to it have failed.
    Bad,
}

/// A routing-table entry. The id never changes once assigned.
#[derive(Clone, Copy, Debug)]
pub struct Node {
    /// The identifier; never reassigned once the node is created.
    pub id: NodeId,
    /// Where the contact listens.
    pub addr: PeerAddr,
    /// When a request of ours last succeeded against it (Unix seconds).
    pub last_successful_request: Option<u64>,
    /// When it last sent us a request (Unix seconds).
    pub last_request_received: Option<u64>,
    /// Current liveness classification.
    pub state: NodeState,
    /// Consecutive failed requests; two or more make the node bad.
    pub failed_requests: u8,
}

impl Node {
    /// The identifier, as specification bytes.
    pub open spec fn id_spec(&self) -> Seq<u8> {
        self.id@
    }

    /// A fresh contact: no history, questionable until proven good.
    pub fn new(id: NodeId, addr: PeerAddr) -> (r: Node)
        ensures
            r.id_spec() == id@,
            r.addr == addr,
            r.last_successful_request is None,
            r.last_request_received is None,
            r.state == NodeState::Questionable,
            r.failed_requests == 0,
    {
        Node {
            id,
            addr,
            last_successful_request: None,
            last_request_received: None,
            state: NodeState::Questionable,
            failed_requests: 0,
        }
    }

    /// Borrows the identifier.
    pub fn id(&self) -> (r: &NodeId)
        ensures
            r@ == self.id_spec(),
    {
        &self.id
    }


    /// Records that a request of ours to this node just succeeded: stamps
    /// the time, clears the failure streak, and makes the node good.
    pub fn mark_successful_request(&mut self)
        ensures
            final(self).id_spec() == old(self).id_spec(),
            final(self).addr == old(self).addr,
            final(self).last_successful_request is Some,
            final(self).last_request_received == old(self).last_request_received,
            final(self).state == NodeState::Good,
            final(self).failed_requests == 0,
    {
        self.last_successful_request = Some(now_secs());
        self.failed_requests = 0;
        self.state = NodeState::Good;
    }

    /// Records that this node just sent us a request: stamps the time and
    /// promotes a questionable node to good.
    pub fn mark_successful_request_from(&mut self)
        ensures
            final(self).id_spec() == old(self).id_spec(),
            final(self).addr == old(self).addr,
            final(self).last_successful_request == old(self).last_successful_request,
            final(self).last_request_received is Some,
            final(self).state == (if old(self).state == NodeState::Questionable {
                NodeState::Good
            } else {
                old(self).state
            }),
            final(self).failed_requests == old(self).failed_requests,
    {
        self.last_request_received = Some(now_secs());
        if self.state == NodeState::Questionable {
            self.state = NodeState::Good;
        }
    }

    /// Records a failed request: two consecutive failures make the node
    /// bad, one makes it questionable.
    pub fn mark_failed_request(&mut self)
        ensures
            final(self).id_spec() == old(self).id_spec(),
            final(self).addr == old(self).addr,
            final(self).last_successful_request == old(self).last_successful_request,
            final(self).last_request_received == old(self).last_request_received,
            final(self).failed_requests == (if old(self).failed_requests < 255 {
                old(self).failed_requests + 1
            } else {
                old(self).failed_requests as int
            }),
            final(self).state == (if final(self).failed_requests >= 2 {
                NodeState::Bad
            } else {
                NodeState::Questionable
            }),
    {
        if self.failed_requests < 255 {
            self.failed_requests = self.failed_requests + 1;
        }
        if self.failed_requests >= 2 {
            self.state = NodeState::Bad;
        } else {
            self.state = NodeState::Questionable;
        }
    }
}

} // verus!
