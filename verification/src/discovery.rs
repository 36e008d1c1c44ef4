//! The announcement side of discovery: the payload a node broadcasts, and
//! what a node does with each datagram it receives.
//!
//! A node announces its own address as text on a fixed interval; the listener
//! parses every inbound payload, discards what is not a valid address text,
//! filters out the node's own announcements, and records every other address
//! in the registry. The sending and receiving of the datagrams themselves is
//! the caller's side of the boundary.

use vstd::prelude::*;

use crate::address::{spec_format, spec_parse, format_address, parse_address, PeerAddress};
use crate::registry::{after_add, would_insert, PeerRegistry};

verus! {

/// What became of one inbound discovery datagram.
#[derive(Clone, Copy, Debug, PartialEq, Eq, Structural)]
pub enum DiscoveryOutcome {
    /// The payload is not a valid address text; it is discarded. An expected,
    /// recoverable condition, not a fault.
    Invalid,
    /// The payload names this node's own address; nothing is recorded.
    SelfAnnouncement,
    /// The address was already known; re-announcement is a no-op.
    AlreadyKnown,
    /// A new peer: the address was inserted into the registry.
    Added,
}

/// The datagram a node broadcasts to announce itself: its own address in
/// textual `host:port` form.
pub fn announcement_payload(self_addr: &PeerAddress) -> (r: Vec<u8>)
    ensures
        r@ == spec_format(*self_addr),
{
    format_address(self_addr)
}

/// Handle one inbound discovery datagram: parse it as an address text and
/// record any address that is neither unparsable nor the node's own. The
/// registry changes exactly when the outcome is `Added`, and then by that one
/// address.
pub fn process_announcement(registry: &mut PeerRegistry, payload: &Vec<u8>) -> (r: DiscoveryOutcome)
    requires
        old(registry).wf(),
    ensures
        final(registry).wf(),
        final(registry).self_addr == old(registry).self_addr,
        match spec_parse(payload@) {
            None => r == DiscoveryOutcome::Invalid && final(registry).peers@ == old(
                registry,
            ).peers@,
            Some(addr) => {
                &&& final(registry).peers@ == after_add(
                    old(registry).self_addr,
                    old(registry).peers@,
                    addr,
                )
                &&& r == DiscoveryOutcome::Added <==> would_insert(
                    old(registry).self_addr,
                    old(registry).peers@,
                    addr,
                )
                &&& r == DiscoveryOutcome::SelfAnnouncement <==> addr == old(registry).self_addr
                &&& r != DiscoveryOutcome::Invalid
            },
        },
{
    let addr = match parse_address(payload) {
        Some(a) => a,
        None => {
            return DiscoveryOutcome::Invalid;
        },
    };
    if addr == registry.self_addr {
        return DiscoveryOutcome::SelfAnnouncement;
    }
    if registry.add_if_absent(addr) {
        DiscoveryOutcome::Added
    } else {
        DiscoveryOutcome::AlreadyKnown
    }
}

} // verus!
