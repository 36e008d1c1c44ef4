//! The peer registry: the set of peer addresses this node has discovered.
//!
//! The registry never contains the owning node's own address, and insertion
//! is idempotent. It is the only state the node's tasks share; callers that
//! run it from several tasks guard it with a lock and hold that lock only
//! around these operations, never across I/O.

use vstd::prelude::*;

use crate::address::PeerAddress;

verus! {

/// The set of known peers, kept in discovery order, together with the owning
/// node's own address, which membership always excludes.
pub struct PeerRegistry {
    pub self_addr: PeerAddress,
    pub peers: Vec<PeerAddress>,
}

/// Whether adding `addr` to a registry with the given own address and peer
/// list inserts it: only an address that is neither the node's own nor
/// already present.
pub open spec fn would_insert(
    self_addr: PeerAddress,
    peers: Seq<PeerAddress>,
    addr: PeerAddress,
) -> bool {
    addr != self_addr && !peers.contains(addr)
}

/// The peer list after an add: extended by `addr` exactly when the add
/// inserts, unchanged otherwise.
pub open spec fn after_add(
    self_addr: PeerAddress,
    peers: Seq<PeerAddress>,
    addr: PeerAddress,
) -> Seq<PeerAddress> {
    if would_insert(self_addr, peers, addr) {
        peers.push(addr)
    } else {
        peers
    }
}

impl PeerRegistry {
    /// The registry's invariant: no duplicate entries, and the owning node's
    /// own address is never a member.
    pub open spec fn wf(&self) -> bool {
        &&& forall|i: int, j: int|
            0 <= i < j < self.peers@.len() ==> self.peers@[i] != self.peers@[j]
        &&& forall|i: int| 0 <= i < self.peers@.len() ==> self.peers@[i] != self.self_addr
    }

    /// An empty registry for the node with the given own address.
    pub fn new(self_addr: PeerAddress) -> (r: PeerRegistry)
        ensures
            r.wf(),
            r.self_addr == self_addr,
            r.peers@ =~= Seq::<PeerAddress>::empty(),
    {
        PeerRegistry { self_addr, peers: Vec::new() }
    }

    /// Whether `addr` is a known peer.
    pub fn contains(&self, addr: &PeerAddress) -> (r: bool)
        ensures
            r == self.peers@.contains(*addr),
    {
        let n = self.peers.len();
        let mut i: usize = 0;
        while i < n
            invariant
                0 <= i <= n,
                n == self.peers@.len(),
                forall|k: int| 0 <= k < i ==> self.peers@[k] != *addr,
            decreases n - i,
        {
            if self.peers[i] == *addr {
                return true;
            }
            i = i + 1;
        }
        false
    }

    /// Add `addr` unless it is the node's own address or already present.
    /// Returns true exactly when it was newly inserted; the node's own
    /// address is always refused and never inserted.
    pub fn add_if_absent(&mut self, addr: PeerAddress) -> (r: bool)
        requires
            old(self).wf(),
        ensures
            final(self).wf(),
            final(self).self_addr == old(self).self_addr,
            r == would_insert(old(self).self_addr, old(self).peers@, addr),
            final(self).peers@ == after_add(old(self).self_addr, old(self).peers@, addr),
            addr == old(self).self_addr ==> !r && final(self).peers@ == old(self).peers@,
    {
        if addr == self.self_addr {
            return false;
        }
        if self.contains(&addr) {
            return false;
        }
        self.peers.push(addr);
        true
    }

    /// A consistent copy of the peer list, safe to iterate without holding
    /// any lock over the registry itself.
    pub fn snapshot(&self) -> (r: Vec<PeerAddress>)
        ensures
            r@ == self.peers@,
    {
        let n = self.peers.len();
        let mut out: Vec<PeerAddress> = Vec::new();
        let mut i: usize = 0;
        while i < n
            invariant
                0 <= i <= n,
                n == self.peers@.len(),
                out@ =~= self.peers@.subrange(0, i as int),
            decreases n - i,
        {
            out.push(self.peers[i]);
            proof {
                assert(out@ =~= self.peers@.subrange(0, i + 1));
            }
            i = i + 1;
        }
        proof {
            assert(out@ =~= self.peers@);
        }
        out
    }
}

/// Adding the same address twice inserts it at most once: after one add, a
/// second add of that address inserts nothing and leaves the peer list
/// unchanged.
pub proof fn lemma_add_idempotent(self_addr: PeerAddress, peers: Seq<PeerAddress>, addr: PeerAddress)
    ensures
        !would_insert(self_addr, after_add(self_addr, peers, addr), addr),
        after_add(self_addr, after_add(self_addr, peers, addr), addr) == after_add(
            self_addr,
            peers,
            addr,
        ),
{
    if would_insert(self_addr, peers, addr) {
        assert(peers.push(addr)[peers.len() as int] == addr);
        assert(peers.push(addr).contains(addr));
    }
}

/// An add never grows the registry by more than one entry, and never removes
/// anything: every previously known peer is still known afterwards.
pub proof fn lemma_add_preserves_members(
    self_addr: PeerAddress,
    peers: Seq<PeerAddress>,
    addr: PeerAddress,
    p: PeerAddress,
)
    requires
        peers.contains(p),
    ensures
        after_add(self_addr, peers, addr).contains(p),
{
    if would_insert(self_addr, peers, addr) {
        let i = choose|i: int| 0 <= i < peers.len() && peers[i] == p;
        assert(peers.push(addr)[i] == p);
    }
}

} // verus!
