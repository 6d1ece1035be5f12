//! What the fleet refuses, by name: each kind is counted under its own name in the status report.

use crate::arith::clamp_u64;
use std::collections::BTreeMap;
use vstd::prelude::*;
use vstd::std_specs::btree::*;

verus! {

broadcast use group_btree_axioms;

/// A refusal or event the fleet counts.
#[derive(Clone, Copy, Debug, PartialEq, Eq, Structural)]
pub enum Refused {
    /// The serve sockets could not be bound.
    Bind,
    /// An accepted session whose peer is not in the roster.
    Accept,
    /// An accepted session whose serve task the shard refused.
    ServeSpawn,
    /// A fleet loop the shard refused.
    LoopSpawn,
    /// A serve socket whose receive loop ended.
    Serve,
    /// An announced id its anchor and boot do not derive to.
    MemberIdForged,
    /// A probe session released on a terminal fault.
    ProbeBroken,
    /// A relay asked to reach a silent peer.
    IndirectRequested,
    /// A target reached on a requester's behalf.
    IndirectRelayed,
    /// A relayed answer credited to a probe.
    IndirectAcked,
    /// An indirect-probe message refused.
    IndirectRefused,
    /// An indirect-probe message not delivered in time.
    IndirectUndelivered,
    /// A dial still in its handshake dropped at its peer's retirement.
    DialStaleDropped,
    /// A handshake that ran out its budgets with the peer silent.
    DialRedial,
    /// A handshake the transport faulted.
    DialFault,
    /// A discovery exchange unanswered at its deadline.
    DiscoveryDeadline,
    /// A discovery exchange whose link no longer holds.
    DiscoveryInvalidated,
    /// A discovery exchange whose transport failed.
    DiscoveryTransport,
    /// A session returned to a slot that does not expect it.
    LinkStaleReturn,
    /// A name that is not valid.
    Resolve,
    /// A name with no resolver configured.
    ResolveNoResolver,
    /// A resolver without a nameserver to ask.
    ResolveNoNameserver,
    /// A lookup that timed out.
    ResolveTimeout,
    /// A lookup the server refused.
    ResolveNxdomain,
    /// An answer without an address.
    ResolveNoAddress,
    /// A malformed reply.
    ResolveMalformed,
    /// A socket refused under a lookup.
    ResolveIo,
    /// An accepted handshake that did not complete.
    AcceptHandshake,
    /// An accepted handshake its peer's newer session replaced.
    AcceptReplaced,
    /// A certificate that still owns its sessions.
    AcceptPeerSessions,
    /// A new identity while every reservation is held.
    AcceptPeerCapacity,
    /// A forward while the link's session was out.
    ForwardSessionOut,
    /// A forward to a peer without a link.
    ForwardNoSession,
    /// A forward whose session did not come back in time.
    ForwardNeverReturned,
    /// A snapshot that could not be archived.
    Seal,
    /// A taken-over volume that could not be served.
    Materialize,
    /// A taken-over green whose chain could not be gathered.
    TakeoverIncomplete,
    /// A taken-over green its owner shard refused.
    TakeoverRefused,
    /// A fetched configuration that was not adopted.
    ConsensusJoin,
}

impl Refused {
    /// The kind's place in the table of counts.
    pub open spec fn place(self) -> u64 {
        match self {
            Refused::Bind => 0,
            Refused::Accept => 1,
            Refused::ServeSpawn => 2,
            Refused::LoopSpawn => 3,
            Refused::Serve => 4,
            Refused::MemberIdForged => 5,
            Refused::ProbeBroken => 6,
            Refused::IndirectRequested => 7,
            Refused::IndirectRelayed => 8,
            Refused::IndirectAcked => 9,
            Refused::IndirectRefused => 10,
            Refused::IndirectUndelivered => 11,
            Refused::DialStaleDropped => 12,
            Refused::DialRedial => 13,
            Refused::DialFault => 14,
            Refused::DiscoveryDeadline => 15,
            Refused::DiscoveryInvalidated => 16,
            Refused::DiscoveryTransport => 17,
            Refused::LinkStaleReturn => 18,
            Refused::Resolve => 19,
            Refused::ResolveNoResolver => 20,
            Refused::ResolveTimeout => 21,
            Refused::ResolveNxdomain => 22,
            Refused::ResolveNoAddress => 23,
            Refused::ResolveMalformed => 24,
            Refused::ResolveIo => 25,
            Refused::AcceptHandshake => 26,
            Refused::AcceptReplaced => 27,
            Refused::AcceptPeerSessions => 28,
            Refused::AcceptPeerCapacity => 29,
            Refused::ForwardSessionOut => 30,
            Refused::ForwardNoSession => 31,
            Refused::ForwardNeverReturned => 32,
            Refused::Seal => 33,
            Refused::Materialize => 34,
            Refused::TakeoverIncomplete => 35,
            Refused::TakeoverRefused => 36,
            Refused::ConsensusJoin => 37,
            Refused::ResolveNoNameserver => 38,
        }
    }

    /// The kind's place in the table of counts.
    fn code(self) -> (code: u64)
        ensures
            code == self.place(),
    {
        match self {
            Refused::Bind => 0,
            Refused::Accept => 1,
            Refused::ServeSpawn => 2,
            Refused::LoopSpawn => 3,
            Refused::Serve => 4,
            Refused::MemberIdForged => 5,
            Refused::ProbeBroken => 6,
            Refused::IndirectRequested => 7,
            Refused::IndirectRelayed => 8,
            Refused::IndirectAcked => 9,
            Refused::IndirectRefused => 10,
            Refused::IndirectUndelivered => 11,
            Refused::DialStaleDropped => 12,
            Refused::DialRedial => 13,
            Refused::DialFault => 14,
            Refused::DiscoveryDeadline => 15,
            Refused::DiscoveryInvalidated => 16,
            Refused::DiscoveryTransport => 17,
            Refused::LinkStaleReturn => 18,
            Refused::Resolve => 19,
            Refused::ResolveNoResolver => 20,
            Refused::ResolveTimeout => 21,
            Refused::ResolveNxdomain => 22,
            Refused::ResolveNoAddress => 23,
            Refused::ResolveMalformed => 24,
            Refused::ResolveIo => 25,
            Refused::AcceptHandshake => 26,
            Refused::AcceptReplaced => 27,
            Refused::AcceptPeerSessions => 28,
            Refused::AcceptPeerCapacity => 29,
            Refused::ForwardSessionOut => 30,
            Refused::ForwardNoSession => 31,
            Refused::ForwardNeverReturned => 32,
            Refused::Seal => 33,
            Refused::Materialize => 34,
            Refused::TakeoverIncomplete => 35,
            Refused::TakeoverRefused => 36,
            Refused::ConsensusJoin => 37,
            Refused::ResolveNoNameserver => 38,
        }
    }

    /// The name the kind is reported under.
    pub open spec fn named(self) -> Seq<char> {
        match self {
            Refused::Bind => "fleet.bind"@,
            Refused::Accept => "fleet.accept"@,
            Refused::ServeSpawn => "fleet.serve_spawn"@,
            Refused::LoopSpawn => "fleet.loop_spawn"@,
            Refused::Serve => "fleet.serve"@,
            Refused::MemberIdForged => "fleet.member_id_forged"@,
            Refused::ProbeBroken => "fleet.probe.broken"@,
            Refused::IndirectRequested => "fleet.probe.indirect.requested"@,
            Refused::IndirectRelayed => "fleet.probe.indirect.relayed"@,
            Refused::IndirectAcked => "fleet.probe.indirect.acked"@,
            Refused::IndirectRefused => "fleet.probe.indirect.refused"@,
            Refused::IndirectUndelivered => "fleet.probe.indirect.undelivered"@,
            Refused::DialStaleDropped => "fleet.dial.stale_dropped"@,
            Refused::DialRedial => "fleet.dial.redial"@,
            Refused::DialFault => "fleet.dial.fault"@,
            Refused::DiscoveryDeadline => "fleet.discovery.deadline"@,
            Refused::DiscoveryInvalidated => "fleet.discovery.invalidated"@,
            Refused::DiscoveryTransport => "fleet.discovery.transport"@,
            Refused::LinkStaleReturn => "fleet.link.stale_return"@,
            Refused::Resolve => "fleet.resolve"@,
            Refused::ResolveNoResolver => "fleet.resolve.no-resolver"@,
            Refused::ResolveNoNameserver => "fleet.resolve.no-nameserver"@,
            Refused::ResolveTimeout => "fleet.resolve.timeout"@,
            Refused::ResolveNxdomain => "fleet.resolve.refused"@,
            Refused::ResolveNoAddress => "fleet.resolve.no-address"@,
            Refused::ResolveMalformed => "fleet.resolve.malformed"@,
            Refused::ResolveIo => "fleet.resolve.io"@,
            Refused::AcceptHandshake => "fleet.accept.handshake"@,
            Refused::AcceptReplaced => "fleet.accept.replaced"@,
            Refused::AcceptPeerSessions => "fleet.accept.peer_sessions"@,
            Refused::AcceptPeerCapacity => "fleet.accept.peer_capacity"@,
            Refused::ForwardSessionOut => "fleet.forward.session_out"@,
            Refused::ForwardNoSession => "fleet.forward.no_session"@,
            Refused::ForwardNeverReturned => "fleet.forward.session_never_returned"@,
            Refused::Seal => "fleet.seal"@,
            Refused::Materialize => "fleet.materialize"@,
            Refused::TakeoverIncomplete => "merge.takeover_incomplete"@,
            Refused::TakeoverRefused => "merge.takeover_refused"@,
            Refused::ConsensusJoin => "consensus_join_refused"@,
        }
    }

    /// The name the kind is reported under.
    pub fn name(self) -> (name: &'static str)
        ensures
            name@ == self.named(),
    {
        match self {
            Refused::Bind => "fleet.bind",
            Refused::Accept => "fleet.accept",
            Refused::ServeSpawn => "fleet.serve_spawn",
            Refused::LoopSpawn => "fleet.loop_spawn",
            Refused::Serve => "fleet.serve",
            Refused::MemberIdForged => "fleet.member_id_forged",
            Refused::ProbeBroken => "fleet.probe.broken",
            Refused::IndirectRequested => "fleet.probe.indirect.requested",
            Refused::IndirectRelayed => "fleet.probe.indirect.relayed",
            Refused::IndirectAcked => "fleet.probe.indirect.acked",
            Refused::IndirectRefused => "fleet.probe.indirect.refused",
            Refused::IndirectUndelivered => "fleet.probe.indirect.undelivered",
            Refused::DialStaleDropped => "fleet.dial.stale_dropped",
            Refused::DialRedial => "fleet.dial.redial",
            Refused::DialFault => "fleet.dial.fault",
            Refused::DiscoveryDeadline => "fleet.discovery.deadline",
            Refused::DiscoveryInvalidated => "fleet.discovery.invalidated",
            Refused::DiscoveryTransport => "fleet.discovery.transport",
            Refused::LinkStaleReturn => "fleet.link.stale_return",
            Refused::Resolve => "fleet.resolve",
            Refused::ResolveNoResolver => "fleet.resolve.no-resolver",
            Refused::ResolveNoNameserver => "fleet.resolve.no-nameserver",
            Refused::ResolveTimeout => "fleet.resolve.timeout",
            Refused::ResolveNxdomain => "fleet.resolve.refused",
            Refused::ResolveNoAddress => "fleet.resolve.no-address",
            Refused::ResolveMalformed => "fleet.resolve.malformed",
            Refused::ResolveIo => "fleet.resolve.io",
            Refused::AcceptHandshake => "fleet.accept.handshake",
            Refused::AcceptReplaced => "fleet.accept.replaced",
            Refused::AcceptPeerSessions => "fleet.accept.peer_sessions",
            Refused::AcceptPeerCapacity => "fleet.accept.peer_capacity",
            Refused::ForwardSessionOut => "fleet.forward.session_out",
            Refused::ForwardNoSession => "fleet.forward.no_session",
            Refused::ForwardNeverReturned => "fleet.forward.session_never_returned",
            Refused::Seal => "fleet.seal",
            Refused::Materialize => "fleet.materialize",
            Refused::TakeoverIncomplete => "merge.takeover_incomplete",
            Refused::TakeoverRefused => "merge.takeover_refused",
            Refused::ConsensusJoin => "consensus_join_refused",
        }
    }
}

/// The counts of a shard, by kind.
#[derive(Debug)]
pub struct Refusals {
    counts: BTreeMap<u64, u64>,
}

impl Refusals {
    /// How often a kind was counted.
    pub closed spec fn of(&self, kind: Refused) -> u64 {
        if self.counts@.contains_key(kind.place()) {
            self.counts@[kind.place()]
        } else {
            0
        }
    }

    /// Nothing counted.
    pub fn new() -> (refusals: Refusals)
        ensures
            forall|kind: Refused| #[trigger] refusals.of(kind) == 0,
    {
        Refusals { counts: BTreeMap::new() }
    }

    /// How often a kind was counted.
    pub fn count_of(&self, kind: Refused) -> (count: u64)
        ensures
            count == self.of(kind),
    {
        match self.counts.get(&kind.code()) {
            Some(count) => *count,
            None => 0,
        }
    }

    /// Counts one refusal, and gives its kind's new count: at one, it is the first of its kind.
    pub fn count(&mut self, kind: Refused) -> (count: u64)
        ensures
            count == clamp_u64(old(self).of(kind) + 1),
            forall|other: Refused| #[trigger]
                final(self).of(other) == (if other == kind {
                    count
                } else {
                    old(self).of(other)
                }),
    {
        let count: u64 = self.count_of(kind).saturating_add(1);
        self.counts.insert(kind.code(), count);
        proof {
            assert forall|other: Refused| other != kind implies #[trigger] other.place()
                != kind.place() by {
                kinds_are_counted_apart(other, kind);
            }
        }
        count
    }
}

/// No two kinds share a count.
pub proof fn kinds_are_counted_apart(a: Refused, b: Refused)
    ensures
        a.place() == b.place() <==> a == b,
{
}

} // verus!
