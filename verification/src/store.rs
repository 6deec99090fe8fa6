//! The peer store: which addresses have announced themselves for which
//! info-hash. Entries are appended on each successful announce and live
//! until the process ends.

use vstd::prelude::*;

use crate::addrs::PeerAddr;
use crate::id::NodeId;

verus! {

/// One successful announce: this address is a peer for this info-hash.
pub struct PeerEntry {
    /// The info-hash announced for.
    pub hash: NodeId,
    /// The peer's effective address.
    pub peer: PeerAddr,
}

/// All announces seen so far, in arrival order.
pub struct PeerStore {
    entries: Vec<PeerEntry>,
}

/// The peers announced for `ih` among the first `i` entries, in order.
pub open spec fn peers_upto(s: Seq<PeerEntry>, ih: Seq<u8>, i: int) -> Seq<PeerAddr>
    decreases i,
{
    if i <= 0 {
        Seq::empty()
    } else if s[i - 1].hash@ == ih {
        peers_upto(s, ih, i - 1).push(s[i - 1].peer)
    } else {
        peers_upto(s, ih, i - 1)
    }
}

/// A prefix computation only reads the prefix: appending entries to the
/// sequence does not change it.
proof fn lemma_peers_upto_push(s: Seq<PeerEntry>, e: PeerEntry, ih: Seq<u8>, i: int)
    requires
        0 <= i <= s.len(),
    ensures
        peers_upto(s.push(e), ih, i) == peers_upto(s, ih, i),
    decreases i,
{
    if i > 0 {
        lemma_peers_upto_push(s, e, ih, i - 1);
    }
}

impl PeerStore {
    /// The peers announced for `ih`, in announce order.
    pub closed spec fn peers_of(&self, ih: Seq<u8>) -> Seq<PeerAddr> {
        peers_upto(self.entries@, ih, self.entries@.len() as int)
    }

    /// An empty store: nothing announced yet.
    pub fn new() -> (r: PeerStore)
        ensures
            forall|ih: Seq<u8>| (#[trigger] r.peers_of(ih)).len() == 0,
    {
        PeerStore { entries: Vec::new() }
    }

    /// Records one announce: `peer` is appended to the list for `ih`; the
    /// lists of every other info-hash stay as they were.
    pub fn add_peer(&mut self, ih: &NodeId, peer: PeerAddr)
        ensures
            final(self).peers_of(ih@) == old(self).peers_of(ih@).push(peer),
            forall|other: Seq<u8>| other != ih@ ==> #[trigger] final(self).peers_of(other)
                == old(self).peers_of(other),
    {
        let entry = PeerEntry { hash: *ih, peer };
        self.entries.push(entry);
        proof {
            let s = old(self).entries@;
            assert forall|other: Seq<u8>| true implies #[trigger] self.peers_of(other) == (
            if other == ih@ {
                old(self).peers_of(other).push(peer)
            } else {
                old(self).peers_of(other)
            }) by {
                lemma_peers_upto_push(s, entry, other, s.len() as int);
            }
        }
    }

    /// The peers announced for `ih`, possibly none.
    pub fn peers_for(&self, ih: &NodeId) -> (r: Vec<PeerAddr>)
        ensures
            r@ == self.peers_of(ih@),
    {
        let mut acc: Vec<PeerAddr> = Vec::new();
        let mut i: usize = 0;
        while i < self.entries.len()
            invariant
                i <= self.entries@.len(),
                acc@ == peers_upto(self.entries@, ih@, i as int),
            decreases self.entries@.len() - i,
        {
            if self.entries[i].hash.equals(ih) {
                acc.push(self.entries[i].peer);
            }
            i = i + 1;
        }
        acc
    }

    /// Whether any peer has announced for `ih`.
    pub fn has_peers(&self, ih: &NodeId) -> (r: bool)
        ensures
            r == (self.peers_of(ih@).len() > 0),
    {
        let peers = self.peers_for(ih);
        peers.len() > 0
    }
}

} // verus!
