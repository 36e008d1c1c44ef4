//! Connection management decisions: which side of a discovered pair opens
//! the connection, which registry entries a node should try to connect to on
//! a scan, where a node listens, and the handshake sent on a fresh outbound
//! connection. The connects and accepts themselves are the caller's side of
//! the boundary; everything decided here is a function of plain values.

use vstd::prelude::*;
use vstd::arithmetic::div_mod::{lemma_div_is_ordered, lemma_div_multiples_vanish};
use vstd::arithmetic::power2::{
    lemma2_to64,
    lemma_pow2_pos,
    lemma_pow2_strictly_increases,
    lemma_pow2_unfold,
    pow2,
};

use crate::address::{spec_precedes, PeerAddress};
use crate::codec::{Message, SignalType};

verus! {

/// The well-known discovery port announcements are broadcast to.
pub const DISCOVERY_PORT: u16 = 5002;

/// The first node listening port; the node with id `i` listens at this plus
/// `i`.
pub const NODE_PORT_START: u16 = 5003;

/// The tie-break rule: of two nodes that discover each other, the one with
/// the lower address initiates the connection. Both sides compute the same
/// total order, so for every discovered pair exactly one side initiates and
/// no duplicate symmetric connection arises.
pub open spec fn spec_initiates(initiator: PeerAddress, target: PeerAddress) -> bool {
    spec_precedes(initiator, target)
}

/// Whether this node should open the connection to `peer`.
pub fn should_initiate(self_addr: &PeerAddress, peer: &PeerAddress) -> (r: bool)
    ensures
        r == spec_initiates(*self_addr, *peer),
{
    self_addr.precedes(peer)
}

/// For any two distinct addresses, exactly one of "A initiates to B" and "B
/// initiates to A" holds, whichever node evaluates the rule; a node never
/// initiates to itself.
pub proof fn lemma_tie_break_deterministic(a: PeerAddress, b: PeerAddress)
    ensures
        a != b ==> (spec_initiates(a, b) <==> !spec_initiates(b, a)),
        !spec_initiates(a, a),
{
    crate::address::lemma_precedes_strict_total(a, b);
}

/// The registry entries an outbound scan should try to connect to: exactly
/// the snapshot's addresses that the tie-break assigns to this node, in
/// snapshot order.
pub fn initiation_targets(self_addr: &PeerAddress, snapshot: &Vec<PeerAddress>) -> (r: Vec<
    PeerAddress,
>)
    ensures
        r@ == snapshot@.filter(|p: PeerAddress| spec_initiates(*self_addr, p)),
{
    let ghost pred = |p: PeerAddress| spec_initiates(*self_addr, p);
    let n = snapshot.len();
    let mut out: Vec<PeerAddress> = Vec::new();
    let mut i: usize = 0;
    while i < n
        invariant
            0 <= i <= n,
            n == snapshot@.len(),
            pred == (|p: PeerAddress| spec_initiates(*self_addr, p)),
            out@ == snapshot@.take(i as int).filter(pred),
        decreases n - i,
    {
        let p = snapshot[i];
        if self_addr.precedes(&p) {
            out.push(p);
        }
        proof {
            reveal(Seq::filter);
            let t = snapshot@.take(i + 1);
            assert(t.len() == i + 1);
            assert(t.drop_last() =~= snapshot@.take(i as int));
            assert(t.last() == snapshot@[i as int]);
            assert(t.filter(pred) == if pred(t.last()) {
                t.drop_last().filter(pred).push(t.last())
            } else {
                t.drop_last().filter(pred)
            });
            assert(pred(snapshot@[i as int]) == spec_initiates(*self_addr, snapshot@[i as int]));
            assert(out@ == snapshot@.take(i + 1).filter(pred));
        }
        i = i + 1;
    }
    proof {
        assert(snapshot@.take(n as int) =~= snapshot@);
    }
    out
}

/// How many directed initiations the tie-break produces between `a` and the
/// members of `s`, both directions counted.
pub open spec fn pair_links(a: PeerAddress, s: Seq<PeerAddress>) -> nat
    decreases s.len(),
{
    if s.len() == 0 {
        0
    } else {
        pair_links(a, s.drop_last()) + (if spec_initiates(a, s.last()) {
            1nat
        } else {
            0nat
        }) + (if spec_initiates(s.last(), a) {
            1nat
        } else {
            0nat
        })
    }
}

/// How many directed initiations the tie-break produces within a group of
/// nodes, every ordered pair considered once.
pub open spec fn link_count(s: Seq<PeerAddress>) -> nat
    decreases s.len(),
{
    if s.len() == 0 {
        0
    } else {
        link_count(s.drop_last()) + pair_links(s.last(), s.drop_last())
    }
}

/// An address distinct from every member of `s` forms exactly one initiated
/// link with each member.
proof fn lemma_pair_links_distinct(a: PeerAddress, s: Seq<PeerAddress>)
    requires
        forall|i: int| 0 <= i < s.len() ==> s[i] != a,
    ensures
        pair_links(a, s) == s.len(),
    decreases s.len(),
{
    if s.len() > 0 {
        assert(forall|i: int| 0 <= i < s.drop_last().len() ==> s.drop_last()[i] == s[i]);
        lemma_pair_links_distinct(a, s.drop_last());
        lemma_tie_break_deterministic(a, s.last());
        assert(s[s.len() - 1] != a);
    }
}

/// In a group of pairwise distinct addresses the tie-break settles exactly
/// one initiated link per unordered pair: the group's link count is
/// N·(N−1)/2, so no pair ever carries two simultaneous sessions and none is
/// left out.
pub proof fn lemma_link_count_complete(nodes: Seq<PeerAddress>)
    requires
        forall|i: int, j: int| 0 <= i < j < nodes.len() ==> nodes[i] != nodes[j],
    ensures
        2 * link_count(nodes) == nodes.len() * (nodes.len() - 1),
    decreases nodes.len(),
{
    if nodes.len() > 0 {
        let b = nodes.drop_last();
        let n = nodes.len() as int;
        assert(forall|i: int, j: int| 0 <= i < j < b.len() ==> b[i] != b[j]) by {
            assert(forall|i: int| 0 <= i < b.len() ==> b[i] == nodes[i]);
        };
        lemma_link_count_complete(b);
        assert(forall|i: int| 0 <= i < b.len() ==> b[i] != nodes.last()) by {
            assert(forall|i: int| 0 <= i < b.len() ==> b[i] == nodes[i]);
        };
        lemma_pair_links_distinct(nodes.last(), b);
        assert((n - 1) * (n - 2) + 2 * (n - 1) == n * (n - 1)) by (nonlinear_arith);
    }
}

/// The address of the node with the given id in a local simulation: the
/// loopback host, port `NODE_PORT_START` plus the id.
pub fn node_address(id: u16) -> (r: PeerAddress)
    requires
        id + NODE_PORT_START <= u16::MAX,
    ensures
        r == (PeerAddress {
            oct0: 127,
            oct1: 0,
            oct2: 0,
            oct3: 1,
            port: (NODE_PORT_START + id) as u16,
        }),
{
    PeerAddress { oct0: 127, oct1: 0, oct2: 0, oct3: 1, port: NODE_PORT_START + id }
}

/// The discovery port the node with the given id listens on when several
/// nodes share one host: the well-known port offset by the id. A
/// local-testing accommodation only; it never reaches the wire format.
pub fn discovery_listen_port(id: u16) -> (r: u16)
    requires
        id + DISCOVERY_PORT <= u16::MAX,
    ensures
        r == DISCOVERY_PORT + id,
{
    DISCOVERY_PORT + id
}

/// Floor of the base-2 logarithm, with 0 mapped to 0.
pub open spec fn floor_log2(n: nat) -> nat
    decreases n,
{
    if n < 2 {
        0
    } else {
        1 + floor_log2(n / 2)
    }
}

/// The IEEE-754 binary32 bit pattern whose value is the integer `n`.
/// Meaningful for `n` below 2^24, where every integer is exactly
/// representable: a zero significand for 0, otherwise the biased exponent
/// and the normalized significand folded into one sum.
pub open spec fn f32_bits_of(n: nat) -> nat {
    if n == 0 {
        0
    } else {
        (126 + floor_log2(n)) * 0x800000 + n * pow2((23 - floor_log2(n)) as nat)
    }
}

/// `floor_log2` is what the two-sided power bound says it is.
proof fn lemma_floor_log2_unique(n: nat, e: nat)
    requires
        pow2(e) <= n < pow2(e + 1),
    ensures
        floor_log2(n) == e,
    decreases e,
{
    lemma2_to64();
    if e == 0 {
        assert(n == 1);
    } else {
        lemma_pow2_unfold(e);
        lemma_pow2_unfold(e + 1);
        lemma_pow2_pos((e - 1) as nat);
        let p = pow2((e - 1) as nat) as int;
        assert(n / 2 >= p) by {
            lemma_div_multiples_vanish(p, 2);
            lemma_div_is_ordered(2 * p, n as int, 2);
        };
        assert(n / 2 < pow2(e)) by {
            let q = pow2(e) as int;
            lemma_div_is_ordered(n as int, 2 * q - 1, 2);
            lemma_div_multiples_vanish(q - 1, 2);
            assert((2 * q - 1) / 2 == (2 * (q - 1) + 1) / 2);
            assert((2 * (q - 1) + 1) / 2 == q - 1) by {
                lemma_div_multiples_vanish(q - 1, 2);
            };
        };
        assert(n >= 2);
        lemma_floor_log2_unique((n / 2) as nat, (e - 1) as nat);
    }
}

/// Compute the IEEE-754 binary32 bit pattern of `v`, exactly the value
/// `f32_bits_of` names. Every 16-bit integer is exactly representable.
pub fn f32_bits_from_u16(v: u16) -> (r: u32)
    ensures
        r as nat == f32_bits_of(v as nat),
{
    if v == 0 {
        return 0;
    }
    let v32 = v as u32;
    let mut e: u32 = 0;
    let mut p: u32 = 1;
    proof {
        lemma2_to64();
    }
    while 2 * p <= v32
        invariant
            1 <= v32 <= 0xffff,
            v32 == v as u32,
            e <= 15,
            p as nat == pow2(e as nat),
            p <= v32,
        decreases v32 - p,
    {
        p = 2 * p;
        e = e + 1;
        proof {
            lemma_pow2_unfold(e as nat);
            lemma2_to64();
            if e > 15 {
                if e > 16 {
                    lemma_pow2_strictly_increases(16, e as nat);
                }
                assert(false);
            }
        }
    }
    proof {
        lemma_pow2_unfold((e + 1) as nat);
        lemma_floor_log2_unique(v as nat, e as nat);
        lemma2_to64();
    }
    let mut m: u32 = v32;
    let mut k: u32 = 0;
    while k < 23 - e
        invariant
            e <= 15,
            k <= 23 - e,
            1 <= v32 <= 0xffff,
            v32 == v as u32,
            m as nat == (v as nat) * pow2(k as nat),
            m < pow2((e + k + 1) as nat),
        decreases 23 - e - k,
    {
        proof {
            lemma2_to64();
            if e + k + 1 < 23 {
                lemma_pow2_strictly_increases((e + k + 1) as nat, 23);
            }
        }
        m = 2 * m;
        k = k + 1;
        proof {
            lemma_pow2_unfold(k as nat);
            lemma_pow2_unfold((e + k + 1) as nat);
            assert(m as nat == (v as nat) * pow2(k as nat)) by {
                let pk1 = pow2((k - 1) as nat);
                assert((v as nat) * (2 * pk1) == 2 * ((v as nat) * pk1)) by (nonlinear_arith);
            };
        }
    }
    proof {
        lemma2_to64();
        if e + k + 1 < 24 {
            lemma_pow2_strictly_increases((e + k + 1) as nat, 24);
        }
        assert(m < 0x1000000);
    }
    (126 + e) * 0x800000 + m
}

/// The handshake a node sends on a connection it has just initiated: a
/// `Data` message carrying the node's own id, with the id's binary32 bit
/// pattern as payload.
pub fn handshake_message(self_id: u16) -> (r: Message)
    ensures
        r.sender_id == self_id,
        r.signal_type == SignalType::Data,
        r.value_bits as nat == f32_bits_of(self_id as nat),
{
    Message {
        sender_id: self_id,
        signal_type: SignalType::Data,
        value_bits: f32_bits_from_u16(self_id),
    }
}

} // verus!
