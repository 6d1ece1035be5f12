//! The sessions to peers: dialing one, lending a record session to a dispatch and taking it back,
//! the discovery exchange that keeps a link enrolled, and what a late reply is worth.

use crate::arith::{clamp_u64, larger};
use crate::daemon::HEARTBEAT_NS;
use crate::digest::same_bytes;
use crate::discovery::{Cursor, NodeAddress};
use crate::dns::DnsError;
use crate::fleet::probe::POLL_PER_PERIOD;
use crate::fleet::refusal::Refused;
use crate::ids::{contains_host, lists, HostId, ObjectId, SnapshotId};
use crate::net::SocketAddrV4;
use crate::table::{are_keys, keys_of};
use std::collections::BTreeMap;
use vstd::prelude::*;
use vstd::std_specs::btree::*;

verus! {

broadcast use group_btree_axioms;

/// The handshake budgets a dialer spends on one socket before it dials afresh from a new port.
pub const ESTABLISH_BUDGETS_BEFORE_REDIAL: u32 = 2;

/// A peer as the serve side knows it.
#[derive(Debug)]
pub struct Rostered {
    pub certificate: Vec<u8>,
    pub anchor: HostId,
}

/// The first peer of a roster that presents a certificate.
pub open spec fn first_rostered(roster: Seq<Rostered>, presented: Seq<u8>, at: int) -> bool {
    &&& 0 <= at < roster.len()
    &&& roster[at].certificate@ == presented
    &&& forall|i: int| 0 <= i < at ==> (#[trigger] roster[i]).certificate@ != presented
}

/// Whether a roster holds a certificate.
pub open spec fn is_rostered(roster: Seq<Rostered>, presented: Seq<u8>) -> bool {
    exists|at: int| #[trigger] first_rostered(roster, presented, at)
}

/// Whether `anchor` is whom a certificate is rostered for, if anyone.
pub open spec fn rosters(roster: Seq<Rostered>, presented: Seq<u8>, anchor: Option<HostId>) -> bool {
    match anchor {
        Some(anchor) => exists|at: int| #[trigger]
            first_rostered(roster, presented, at) && anchor == roster[at].anchor,
        None => !is_rostered(roster, presented),
    }
}

/// The anchor a roster holds for a certificate.
pub fn rostered_anchor(roster: &Vec<Rostered>, presented: &[u8]) -> (anchor: Option<HostId>)
    ensures
        rosters(roster@, presented@, anchor),
{
    let mut i: usize = 0;
    while i < roster.len()
        invariant
            i <= roster@.len(),
            forall|j: int| 0 <= j < i ==> (#[trigger] roster@[j]).certificate@ != presented@,
        decreases roster@.len() - i,
    {
        if same_bytes(roster[i].certificate.as_slice(), presented) {
            assert(first_rostered(roster@, presented@, i as int));
            return Some(roster[i].anchor);
        }
        i += 1;
    }
    None
}

/// Whether `anchor` is whom a probe session is accepted as.
pub open spec fn accepts_probe(
    roster: Seq<Rostered>,
    presented: Option<Seq<u8>>,
    recognized: Option<HostId>,
    anchor: Result<HostId, Refused>,
) -> bool {
    match presented {
        None => anchor == Err::<HostId, Refused>(Refused::Accept),
        Some(presented) => if is_rostered(roster, presented) {
            exists|at: int| #[trigger]
                first_rostered(roster, presented, at) && anchor == Ok::<HostId, Refused>(
                    roster[at].anchor,
                )
        } else {
            match recognized {
                Some(recognized) => anchor == Ok::<HostId, Refused>(recognized),
                None => anchor == Err::<HostId, Refused>(Refused::Accept),
            }
        },
    }
}

/// The anchor a probing peer is served under: the roster's for its certificate, else the one
/// enrollment recognizes it by. A peer that presents neither is not answered at all.
pub fn probe_anchor(
    roster: &Vec<Rostered>,
    presented: Option<&[u8]>,
    recognized: Option<HostId>,
) -> (anchor: Result<HostId, Refused>)
    ensures
        accepts_probe(
            roster@,
            match presented {
                Some(presented) => Some(presented@),
                None => None,
            },
            recognized,
            anchor,
        ),
{
    let presented = match presented {
        Some(presented) => presented,
        None => {
            return Err(Refused::Accept);
        },
    };
    match rostered_anchor(roster, presented) {
        Some(anchor) => Ok(anchor),
        None => match recognized {
            Some(recognized) => Ok(recognized),
            None => Err(Refused::Accept),
        },
    }
}

/// Whether `anchor` is whom a record session is accepted as.
pub open spec fn accepts_record(
    roster: Seq<Rostered>,
    presented: Option<Seq<u8>>,
    derived: HostId,
    anchor: Result<HostId, Refused>,
) -> bool {
    match presented {
        None => anchor == Err::<HostId, Refused>(Refused::Accept),
        Some(presented) => if is_rostered(roster, presented) {
            exists|at: int| #[trigger]
                first_rostered(roster, presented, at) && anchor == Ok::<HostId, Refused>(
                    roster[at].anchor,
                )
        } else {
            anchor == Ok::<HostId, Refused>(derived)
        },
    }
}

/// The anchor a record peer is served under: the roster's for its certificate, else the one the
/// certificate itself derives to.
pub fn record_anchor(
    roster: &Vec<Rostered>,
    presented: Option<&[u8]>,
    derived: HostId,
) -> (anchor: Result<HostId, Refused>)
    ensures
        accepts_record(
            roster@,
            match presented {
                Some(presented) => Some(presented@),
                None => None,
            },
            derived,
            anchor,
        ),
{
    let presented = match presented {
        Some(presented) => presented,
        None => {
            return Err(Refused::Accept);
        },
    };
    match rostered_anchor(roster, presented) {
        Some(anchor) => Ok(anchor),
        None => Ok(derived),
    }
}

/// How an accepted handshake ended without a session.
#[derive(Clone, Copy, Debug, PartialEq, Eq, Structural)]
pub enum AcceptFailure {
    /// The session was closed: its peer's newer one replaced it.
    Closed,
    /// The peer's certificate still owns its sessions.
    PeerSessions,
    /// Every peer reservation is held.
    PeerCapacity,
    /// The handshake or the socket failed.
    Other,
}

/// What a failed accept is counted as.
pub open spec fn accept_failed(failure: AcceptFailure) -> Refused {
    match failure {
        AcceptFailure::Closed => Refused::AcceptReplaced,
        AcceptFailure::PeerSessions => Refused::AcceptPeerSessions,
        AcceptFailure::PeerCapacity => Refused::AcceptPeerCapacity,
        AcceptFailure::Other => Refused::AcceptHandshake,
    }
}

/// The kind an accept failure is counted under: a replacement and a full table are told apart from
/// a real fault.
pub fn accept_failure(failure: AcceptFailure) -> (kind: Refused)
    ensures
        kind == accept_failed(failure),
{
    match failure {
        AcceptFailure::Closed => Refused::AcceptReplaced,
        AcceptFailure::PeerSessions => Refused::AcceptPeerSessions,
        AcceptFailure::PeerCapacity => Refused::AcceptPeerCapacity,
        AcceptFailure::Other => Refused::AcceptHandshake,
    }
}

/// Whether a failed lookup is counted under `kind`.
pub open spec fn counts_lookup(error: DnsError, kind: Refused) -> bool {
    &&& kind == (match error {
        DnsError::Timeout { .. } => Refused::ResolveTimeout,
        DnsError::Refused { .. } => Refused::ResolveNxdomain,
        DnsError::NoAddress => Refused::ResolveNoAddress,
        DnsError::Malformed { .. } => Refused::ResolveMalformed,
        DnsError::Io(_) => Refused::ResolveIo,
        DnsError::NoNameserver => Refused::ResolveNoNameserver,
        DnsError::Name { .. } => Refused::Resolve,
    })
    &&& kind.named() == (match error {
        DnsError::Name { .. } => "fleet.resolve"@,
        DnsError::NoNameserver => "fleet.resolve.no-nameserver"@,
        DnsError::Timeout { .. } => "fleet.resolve.timeout"@,
        DnsError::Refused { .. } => "fleet.resolve.refused"@,
        DnsError::NoAddress => "fleet.resolve.no-address"@,
        DnsError::Malformed { .. } => "fleet.resolve.malformed"@,
        DnsError::Io(_) => "fleet.resolve.io"@,
    })
}

/// The kind a failed name lookup is counted under: `fleet.resolve` for a name that is not valid, and
/// `fleet.resolve.` with the error's own kind for a lookup that failed.
pub fn resolve_refusal(error: &DnsError) -> (kind: Refused)
    ensures
        counts_lookup(*error, kind),
{
    match error {
        DnsError::Timeout { .. } => Refused::ResolveTimeout,
        DnsError::Refused { .. } => Refused::ResolveNxdomain,
        DnsError::NoAddress => Refused::ResolveNoAddress,
        DnsError::Malformed { .. } => Refused::ResolveMalformed,
        DnsError::Io(_) => Refused::ResolveIo,
        DnsError::NoNameserver => Refused::ResolveNoNameserver,
        DnsError::Name { .. } => Refused::Resolve,
    }
}

/// A dialer's hold on a peer: nothing, a socket still in its handshake, or a session.
#[derive(Clone, Copy, Debug, PartialEq, Eq, Structural)]
pub enum Dialed {
    Absent,
    Dialing,
    Up,
}

/// What a dialer does this period.
#[derive(Clone, Copy, Debug, PartialEq, Eq, Structural)]
pub enum EstablishStep {
    /// The session is up.
    Keep,
    /// Drive the held socket's handshake once more.
    Drive,
    /// Dial from a fresh socket.
    Dial,
}

/// How one handshake attempt ended.
#[derive(Clone, Copy, Debug, PartialEq, Eq, Structural)]
pub enum Handshake {
    Established,
    /// The peer was silent; the budgets this socket has spent.
    Silent { budgets_spent: u32 },
    /// Any other fault.
    Fault,
}

impl Dialed {
    /// What a dialer does this period.
    pub open spec fn doing(self) -> EstablishStep {
        match self {
            Dialed::Up => EstablishStep::Keep,
            Dialed::Dialing => EstablishStep::Drive,
            Dialed::Absent => EstablishStep::Dial,
        }
    }

    /// What a dialer does this period.
    pub fn step(self) -> (step: EstablishStep)
        ensures
            step == self.doing(),
    {
        match self {
            Dialed::Up => EstablishStep::Keep,
            Dialed::Dialing => EstablishStep::Drive,
            Dialed::Absent => EstablishStep::Dial,
        }
    }

    /// What a handshake attempt leaves, and what is counted: a silent peer keeps the socket and
    /// its pending flight for the budgets before a redial; past them, and on a fault, it is
    /// dropped.
    pub open spec fn after(handshake: Handshake) -> (Dialed, Option<Refused>) {
        match handshake {
            Handshake::Established => (Dialed::Up, None),
            Handshake::Silent { budgets_spent } => if budgets_spent
                < ESTABLISH_BUDGETS_BEFORE_REDIAL {
                (Dialed::Dialing, None)
            } else {
                (Dialed::Absent, Some(Refused::DialRedial))
            },
            Handshake::Fault => (Dialed::Absent, Some(Refused::DialFault)),
        }
    }

    /// What a handshake attempt leaves, and what is counted.
    pub fn driven(handshake: Handshake) -> (left: (Dialed, Option<Refused>))
        ensures
            left == Self::after(handshake),
    {
        match handshake {
            Handshake::Established => (Dialed::Up, None),
            Handshake::Silent { budgets_spent } => if budgets_spent
                < ESTABLISH_BUDGETS_BEFORE_REDIAL {
                (Dialed::Dialing, None)
            } else {
                (Dialed::Absent, Some(Refused::DialRedial))
            },
            Handshake::Fault => (Dialed::Absent, Some(Refused::DialFault)),
        }
    }

    /// Lets go of everything held: whether a dial still in its handshake was dropped, which is
    /// counted.
    pub fn release(&mut self) -> (stale_dial: bool)
        ensures
            *final(self) == Dialed::Absent,
            stale_dial == (*old(self) == Dialed::Dialing),
    {
        let stale = match self {
            Dialed::Dialing => true,
            _ => false,
        };
        *self = Dialed::Absent;
        stale
    }
}

/// A session as the library names it: a number the transport finds it by, and its connection id
/// when it has one.
#[derive(Clone, Copy, Debug, PartialEq, Eq, Structural)]
pub struct SessionHandle {
    pub key: u64,
    pub connection: Option<u64>,
}

/// A peer's record link: its session unless it is out on a dispatch, and then the connection id the
/// borrow was tagged with.
#[derive(Clone, Copy, Debug, PartialEq, Eq, Structural)]
pub struct RecordLink {
    pub session: Option<SessionHandle>,
    pub borrowed: Option<u64>,
}

impl RecordLink {
    /// A link whose session is in.
    pub fn up(session: SessionHandle) -> (link: RecordLink)
        ensures
            link == (RecordLink { session: Some(session), borrowed: None }),
    {
        RecordLink { session: Some(session), borrowed: None }
    }
}

/// The record links of a node, by peer.
#[derive(Debug)]
pub struct RecordLinks {
    pub links: BTreeMap<u64, RecordLink>,
}

/// Whether a link's session would be lent to a dispatch.
pub open spec fn lendable(links: Map<u64, RecordLink>, wanted: Seq<HostId>, host: u64) -> bool {
    links.contains_key(host) && lists(wanted, HostId(host)) && links[host].session is Some
}

/// A link whose session is out.
pub open spec fn lent(link: RecordLink) -> RecordLink {
    RecordLink { session: None, borrowed: (link.session->0).connection }
}

/// Links after one session came back: its slot is refilled only if it is still there, its session
/// is out, and the borrow was tagged with this session.
pub open spec fn given_back(
    links: Map<u64, RecordLink>,
    host: HostId,
    session: SessionHandle,
) -> Option<Map<u64, RecordLink>> {
    if links.contains_key(host.0) && links[host.0].session is None && links[host.0].borrowed
        == session.connection {
        Some(links.insert(host.0, RecordLink { session: Some(session), borrowed: None }))
    } else {
        None
    }
}

/// Links, and how many returns were stale, after a list of sessions came back.
pub open spec fn all_given_back(
    links: Map<u64, RecordLink>,
    sessions: Seq<(HostId, SessionHandle)>,
) -> (Map<u64, RecordLink>, nat)
    decreases sessions.len(),
{
    if sessions.len() == 0 {
        (links, 0)
    } else {
        let (before, stale) = all_given_back(links, sessions.drop_last());
        match given_back(before, sessions.last().0, sessions.last().1) {
            Some(after) => (after, stale),
            None => (before, stale + 1),
        }
    }
}

/// A link's discovery sweep, begun anew or gone on with.
pub open spec fn swept_anew(cursor: Cursor, restart: bool) -> Cursor {
    if restart {
        Cursor { announced: false, after: None, generation: 0 }
    } else {
        cursor
    }
}

/// A link's discovery sweep as its next page finds it. It restarts on a freshly established session,
/// whose first page announces this node, and when the link's member changes; a page over a kept
/// session goes on with it.
pub fn sweep_of(cursor: Cursor, restart: bool) -> (next: Cursor)
    ensures
        next == swept_anew(cursor, restart),
        restart ==> next == (Cursor { announced: false, after: None, generation: 0 }),
        !restart ==> next == cursor,
{
    if restart {
        Cursor { announced: false, after: None, generation: 0 }
    } else {
        cursor
    }
}

impl RecordLinks {
    /// Whether `taken` and `after` are what borrowing the wanted sessions makes of this.
    pub open spec fn lends(
        &self,
        wanted: Seq<HostId>,
        taken: Seq<(HostId, SessionHandle)>,
        after: Map<u64, RecordLink>,
    ) -> bool {
        &&& forall|host: u64| #[trigger]
            after.contains_key(host) <==> self.links@.contains_key(host)
        &&& forall|host: u64| #[trigger]
            self.links@.contains_key(host) ==> after[host] == (if lendable(
                self.links@,
                wanted,
                host,
            ) {
                lent(self.links@[host])
            } else {
                self.links@[host]
            })
        &&& forall|i: int|
            0 <= i < taken.len() ==> lendable(
                self.links@,
                wanted,
                (#[trigger] taken[i]).0.0,
            ) && Some(taken[i].1) == self.links@[taken[i].0.0].session
        &&& forall|i: int, j: int| 0 <= i < j < taken.len() ==> taken[i].0.0 < taken[j].0.0
        &&& forall|host: u64| #[trigger]
            lendable(self.links@, wanted, host) ==> exists|i: int|
                0 <= i < taken.len() && (#[trigger] taken[i]).0.0 == host
    }

    /// Borrows the sessions of the wanted peers, in peer order, each tagged with its connection id.
    /// A peer with no session in is skipped.
    #[verifier::spinoff_prover]
    #[verifier::rlimit(60)]
    pub fn take_sessions(&mut self, wanted: &Vec<HostId>) -> (taken: Vec<(HostId, SessionHandle)>)
        ensures
            old(self).lends(wanted@, taken@, final(self).links@),
    {
        let hosts = keys_of(&self.links);
        let ghost before = self.links@;
        let mut taken: Vec<(HostId, SessionHandle)> = Vec::new();
        let mut i: usize = 0;
        while i < hosts.len()
            invariant
                i <= hosts@.len(),
                are_keys(before, hosts@),
                forall|host: u64| #[trigger]
                    self.links@.contains_key(host) <==> before.contains_key(host),
                forall|j: int|
                    0 <= j < i ==> self.links@[#[trigger] hosts@[j]] == (if lendable(
                        before,
                        wanted@,
                        hosts@[j],
                    ) {
                        lent(before[hosts@[j]])
                    } else {
                        before[hosts@[j]]
                    }),
                forall|j: int|
                    i <= j < hosts@.len() ==> self.links@[#[trigger] hosts@[j]]
                        == before[hosts@[j]],
                forall|x: int|
                    0 <= x < taken@.len() ==> lendable(
                        before,
                        wanted@,
                        (#[trigger] taken@[x]).0.0,
                    ) && Some(taken@[x].1) == before[taken@[x].0.0].session,
                forall|x: int|
                    0 <= x < taken@.len() ==> exists|j: int|
                        0 <= j < i && hosts@[j] == (#[trigger] taken@[x]).0.0,
                forall|x: int, y: int|
                    0 <= x < y < taken@.len() ==> taken@[x].0.0 < taken@[y].0.0,
                forall|j: int|
                    0 <= j < i && lendable(before, wanted@, #[trigger] hosts@[j]) ==> exists|x: int|
                        0 <= x < taken@.len() && (#[trigger] taken@[x]).0.0 == hosts@[j],
            decreases hosts@.len() - i,
        {
            let host: u64 = hosts[i];
            let ghost was = taken@;
            let ghost held = self.links@;
            assert(before.contains_key(hosts@[i as int]));
            proof {
                assert forall|x: int| 0 <= x < was.len() implies (#[trigger] was[x]).0.0 < host by {
                    let j = choose|j: int| 0 <= j < i && hosts@[j] == was[x].0.0;
                    assert(hosts@[j] < hosts@[i as int]);
                }
            }
            let link = match self.links.get(&host) {
                Some(link) => *link,
                None => RecordLink { session: None, borrowed: None },
            };
            if contains_host(wanted, HostId(host)) {
                if let Some(session) = link.session {
                    self.links.insert(
                        host,
                        RecordLink { session: None, borrowed: session.connection },
                    );
                    taken.push((HostId(host), session));
                    assert(taken@[was.len() as int] == (HostId(host), session));
                }
            }
            proof {
                assert forall|j: int| 0 <= j < hosts@.len() && j != i implies self.links@[
                    #[trigger] hosts@[j]
                ] == held[hosts@[j]] by {
                    if j < i {
                        assert(hosts@[j] < hosts@[i as int]);
                    } else {
                        assert(hosts@[i as int] < hosts@[j]);
                    }
                }
                assert forall|j: int|
                    0 <= j < i + 1 && lendable(
                        before,
                        wanted@,
                        #[trigger] hosts@[j],
                    ) implies exists|x: int|
                    0 <= x < taken@.len() && (#[trigger] taken@[x]).0.0 == hosts@[j] by {
                    if j < i {
                        let x = choose|x: int|
                            0 <= x < was.len() && (#[trigger] was[x]).0.0 == hosts@[j];
                        assert(taken@[x] == was[x]);
                    }
                }
                assert forall|x: int| 0 <= x < taken@.len() implies exists|j: int|
                    0 <= j < i + 1 && hosts@[j] == (#[trigger] taken@[x]).0.0 by {
                    if x < was.len() {
                        let j = choose|j: int| 0 <= j < i && hosts@[j] == was[x].0.0;
                        assert(hosts@[j] == taken@[x].0.0);
                    } else {
                        assert(hosts@[i as int] == taken@[x].0.0);
                    }
                }
            }
            i += 1;
        }
        proof {
            assert forall|host: u64| #[trigger] before.contains_key(host) implies self.links@[host]
                == (if lendable(before, wanted@, host) {
                lent(before[host])
            } else {
                before[host]
            }) by {
                let at = choose|at: int| 0 <= at < hosts@.len() && hosts@[at] == host;
                assert(self.links@[hosts@[at]] == self.links@[host]);
            }
            assert forall|host: u64| #[trigger] lendable(before, wanted@, host) implies exists|
                x: int,
            | 0 <= x < taken@.len() && (#[trigger] taken@[x]).0.0 == host by {
                let at = choose|at: int| 0 <= at < hosts@.len() && hosts@[at] == host;
                assert(lendable(before, wanted@, hosts@[at]));
            }
        }
        taken
    }

    /// Returns borrowed sessions. A session that its slot does not expect is dropped and counted,
    /// never installed over a newer one.
    pub fn return_sessions(&mut self, sessions: &Vec<(HostId, SessionHandle)>) -> (stale: usize)
        ensures
            (final(self).links@, stale as nat) == all_given_back(old(self).links@, sessions@),
    {
        let ghost before = self.links@;
        let mut stale: usize = 0;
        let mut i: usize = 0;
        assert(sessions@.take(0) =~= Seq::<(HostId, SessionHandle)>::empty());
        while i < sessions.len()
            invariant
                i <= sessions@.len(),
                stale <= i,
                (self.links@, stale as nat) == all_given_back(before, sessions@.take(i as int)),
            decreases sessions@.len() - i,
        {
            proof {
                assert(sessions@.take(i + 1).drop_last() =~= sessions@.take(i as int));
                assert(sessions@.take(i + 1).last() == sessions@[i as int]);
            }
            let (host, session) = sessions[i];
            let expected = match self.links.get(&host.0) {
                Some(link) => link.session.is_none() && same_connection(
                    link.borrowed,
                    session.connection,
                ),
                None => false,
            };
            if expected {
                self.links.insert(host.0, RecordLink { session: Some(session), borrowed: None });
            } else {
                stale += 1;
            }
            i += 1;
        }
        assert(sessions@.take(i as int) =~= sessions@);
        stale
    }

    /// Whether `kept` and `after` are what a session's first page makes of this.
    pub open spec fn enrolls(
        &self,
        peer: HostId,
        session: SessionHandle,
        outcome: DiscoveryOutcome,
        kept: bool,
        after: Map<u64, RecordLink>,
    ) -> bool {
        &&& kept == (outcome == DiscoveryOutcome::Answered)
        &&& after == (if kept {
            self.links@.insert(
                peer.0,
                RecordLink { session: Some(session), borrowed: None },
            )
        } else {
            self.links@
        })
    }

    /// A freshly established session, after its first discovery page: installed as the peer's link
    /// when the page was answered, and otherwise dropped.
    pub fn enroll_record_session(
        &mut self,
        peer: HostId,
        session: SessionHandle,
        outcome: DiscoveryOutcome,
    ) -> (kept: bool)
        ensures
            old(self).enrolls(peer, session, outcome, kept, final(self).links@),
    {
        if outcome == DiscoveryOutcome::Answered {
            self.links.insert(peer.0, RecordLink { session: Some(session), borrowed: None });
            true
        } else {
            false
        }
    }

    /// Whether `session` and `after` are what borrowing a link for a page makes of this.
    pub open spec fn lends_page(
        &self,
        peer: HostId,
        session: Option<SessionHandle>,
        after: Map<u64, RecordLink>,
    ) -> bool {
        &&& session == (if self.links@.contains_key(peer.0) {
            self.links@[peer.0].session
        } else {
            None
        })
        &&& after == (if self.links@.contains_key(peer.0) {
            self.links@.insert(
                peer.0,
                RecordLink { session: None, ..self.links@[peer.0] },
            )
        } else {
            self.links@
        })
    }

    /// Borrows a link's session for one discovery page. The borrow is not tagged: it goes back
    /// through `finish_discovery`.
    pub fn borrow_for_discovery(&mut self, peer: HostId) -> (session: Option<SessionHandle>)
        ensures
            old(self).lends_page(peer, session, final(self).links@),
    {
        let link = match self.links.get(&peer.0) {
            Some(link) => *link,
            None => {
                return None;
            },
        };
        self.links.insert(peer.0, RecordLink { session: None, borrowed: link.borrowed });
        link.session
    }

    /// The links once a page over one of them ended.
    pub open spec fn after_page(
        &self,
        peer: HostId,
        session: SessionHandle,
        outcome: DiscoveryOutcome,
    ) -> Map<u64, RecordLink> {
        if outcome == DiscoveryOutcome::Answered {
            if self.links@.contains_key(peer.0) {
                self.links@.insert(
                    peer.0,
                    RecordLink { session: Some(session), ..self.links@[peer.0] },
                )
            } else {
                self.links@
            }
        } else {
            self.links@.remove(peer.0)
        }
    }

    /// Ends a discovery page over an installed link: an answer puts the session back, only into
    /// the entry it left; anything else releases the link, which is dialed again.
    pub fn finish_discovery(
        &mut self,
        peer: HostId,
        session: SessionHandle,
        outcome: DiscoveryOutcome,
    )
        ensures
            final(self).links@ == old(self).after_page(peer, session, outcome),
    {
        if outcome == DiscoveryOutcome::Answered {
            let link = match self.links.get(&peer.0) {
                Some(link) => *link,
                None => {
                    return;
                },
            };
            self.links.insert(
                peer.0,
                RecordLink { session: Some(session), borrowed: link.borrowed },
            );
        } else {
            self.links.remove(&peer.0);
        }
    }

    /// Whether the rest is what refreshing a link's identity makes of it.
    pub open spec fn refreshes(
        &self,
        current: Option<HostId>,
        previous: HostId,
        dialed: (Dialed, Dialed),
        cursor: (Cursor, Cursor),
        refreshed: (HostId, bool),
        after: Map<u64, RecordLink>,
    ) -> bool {
        ({
            let now = match current {
                Some(current) => current,
                None => previous,
            };
            &&& refreshed.0 == now
            &&& refreshed.1 == (now != previous && dialed.0 == Dialed::Dialing)
            &&& cursor.1 == swept_anew(cursor.0, now != previous)
            &&& if now != previous {
                &&& after == self.links@.remove(previous.0)
                &&& dialed.1 == (if dialed.0 == Dialed::Dialing {
                    Dialed::Absent
                } else {
                    dialed.0
                })
            } else {
                &&& after == self.links@
                &&& dialed.1 == dialed.0
            }
        })
    }

    /// The member a link addresses now. A change, which is a restart, removes the previous
    /// member's link, lets go of a dial still in its handshake, and restarts the discovery sweep.
    pub fn refresh_record_identity(
        &mut self,
        current: Option<HostId>,
        previous: HostId,
        dialed: &mut Dialed,
        cursor: &mut Cursor,
    ) -> (refreshed: (HostId, bool))
        ensures
            old(self).refreshes(
                current,
                previous,
                (*old(dialed), *final(dialed)),
                (*old(cursor), *final(cursor)),
                refreshed,
                final(self).links@,
            ),
    {
        let now = match current {
            Some(current) => current,
            None => previous,
        };
        let mut dropped = false;
        *cursor = sweep_of(*cursor, now != previous);
        if now != previous {
            self.links.remove(&previous.0);
            if *dialed == Dialed::Dialing {
                *dialed = Dialed::Absent;
                dropped = true;
            }
        }
        (now, dropped)
    }

    /// Drops the links of the peers a dispatch lost.
    pub fn drop_lost(&mut self, lost: &Vec<HostId>)
        ensures
            forall|host: u64| #[trigger]
                final(self).links@.contains_key(host) <==> old(self).links@.contains_key(host)
                    && !lists(lost@, HostId(host)),
            forall|host: u64| #[trigger]
                final(self).links@.contains_key(host) ==> final(self).links@[host] == old(
                    self,
                ).links@[host],
    {
        let ghost before = self.links@;
        let mut i: usize = 0;
        while i < lost.len()
            invariant
                i <= lost@.len(),
                forall|host: u64| #[trigger]
                    self.links@.contains_key(host) <==> before.contains_key(host) && !lists(
                        lost@.take(i as int),
                        HostId(host),
                    ),
                forall|host: u64| #[trigger]
                    self.links@.contains_key(host) ==> self.links@[host] == before[host],
            decreases lost@.len() - i,
        {
            let ghost shorter = lost@.take(i as int);
            let ghost longer = lost@.take(i + 1);
            self.links.remove(&lost[i].0);
            proof {
                assert(longer =~= shorter.push(lost@[i as int]));
                assert forall|host: u64| #[trigger] lists(longer, HostId(host)) <==> lists(
                    shorter,
                    HostId(host),
                ) || HostId(host) == lost@[i as int] by {
                    if lists(shorter, HostId(host)) {
                        let k = choose|k: int| 0 <= k < shorter.len() && shorter[k] == HostId(host);
                        assert(longer[k] == HostId(host));
                    }
                    if HostId(host) == lost@[i as int] {
                        assert(longer[i as int] == HostId(host));
                    }
                    if lists(longer, HostId(host)) {
                        let k = choose|k: int| 0 <= k < longer.len() && longer[k] == HostId(host);
                        if k < i {
                            assert(shorter[k] == HostId(host));
                        }
                    }
                }
            }
            i += 1;
        }
        assert(lost@.take(i as int) =~= lost@);
    }
}

/// Whether two connection ids are one.
fn same_connection(a: Option<u64>, b: Option<u64>) -> (same: bool)
    ensures
        same == (a == b),
{
    match a {
        Some(x) => match b {
            Some(y) => x == y,
            None => false,
        },
        None => b.is_none(),
    }
}

/// A returned session never replaces another: whatever list of sessions comes back, a slot whose
/// session is in still holds it, and a peer without a slot gets none.
pub proof fn a_late_return_replaces_nothing(
    links: Map<u64, RecordLink>,
    sessions: Seq<(HostId, SessionHandle)>,
    host: u64,
)
    ensures
        ({
            let (after, stale) = all_given_back(links, sessions);
            &&& after.contains_key(host) <==> links.contains_key(host)
            &&& links.contains_key(host) && links[host].session is Some ==> after[host]
                == links[host]
            &&& stale <= sessions.len()
        }),
    decreases sessions.len(),
{
    if sessions.len() > 0 {
        a_late_return_replaces_nothing(links, sessions.drop_last(), host);
    }
}

/// A session lent and given back is in its slot as before.
pub proof fn a_lent_session_goes_home(
    links: Map<u64, RecordLink>,
    wanted: Seq<HostId>,
    host: HostId,
    session: SessionHandle,
)
    requires
        lendable(links, wanted, host.0),
        links[host.0].session == Some(session),
        links[host.0].borrowed is None,
    ensures
        given_back(links.insert(host.0, lent(links[host.0])), host, session) == Some(links),
{
    let home = links.insert(host.0, lent(links[host.0])).insert(
        host.0,
        RecordLink { session: Some(session), borrowed: None },
    );
    assert(home =~= links);
}

/// Where a dial goes.
#[derive(Debug)]
pub enum Dial {
    /// This address.
    Address(SocketAddrV4),
    /// The address its name resolves to, at this dial.
    Resolve { host: String, port: u16 },
    /// Nowhere: a name, and no resolver to ask; counted.
    NoResolver,
}

/// Whether `dial` is how a peer is dialed.
pub open spec fn dials(discovered: Option<NodeAddress>, configured: NodeAddress, resolver: bool, dial: Dial) -> bool {
    match (match discovered {
        Some(address) => address,
        None => configured,
    }) {
        NodeAddress::Ip(address) => dial == Dial::Address(address),
        NodeAddress::Name { host, port } => if resolver {
            dial matches Dial::Resolve { host: asked, port: at } && asked@ == host@ && at
                == port
        } else {
            dial is NoResolver
        },
    }
}

/// Where a dial goes: to the address discovery knows for the peer, or else the one it was configured
/// with; a name is resolved afresh, so that a peer that moved is found.
pub fn client_for(discovered: Option<&NodeAddress>, configured: &NodeAddress, resolver: bool) -> (
dial: Dial)
    ensures
        dials(
            match discovered {
                Some(address) => Some(*address),
                None => None,
            },
            *configured,
            resolver,
            dial,
        ),
{
    let address = match discovered {
        Some(address) => address,
        None => configured,
    };
    match address {
        NodeAddress::Ip(address) => Dial::Address(*address),
        NodeAddress::Name { host, port } => {
            if resolver {
                Dial::Resolve { host: host.clone(), port: *port }
            } else {
                Dial::NoResolver
            }
        },
    }
}

/// How a discovery exchange ended.
#[derive(Clone, Copy, Debug, PartialEq, Eq, Structural)]
pub enum DiscoveryOutcome {
    /// The peer answered a page.
    Answered,
    /// The deadline passed.
    Deadline,
    /// The link no longer addresses its peer.
    Invalidated,
    /// The transport failed.
    Transport,
    /// The reply, or the request, was refused.
    Refused,
}

/// How the wait for a discovery reply stands.
#[derive(Clone, Copy, Debug, PartialEq, Eq, Structural)]
pub enum DiscoveryWait {
    /// The reply may be read.
    Reply,
    /// The exchange is abandoned.
    Fault(DiscoveryOutcome),
    /// Nothing yet.
    Pending,
}

/// How the wait for a reply stands.
pub open spec fn waits(valid: bool, reply: Option<bool>, expired: bool) -> DiscoveryWait {
    if !valid {
        DiscoveryWait::Fault(DiscoveryOutcome::Invalidated)
    } else if reply == Some(true) {
        DiscoveryWait::Reply
    } else if reply == Some(false) {
        DiscoveryWait::Fault(DiscoveryOutcome::Transport)
    } else if expired {
        DiscoveryWait::Fault(DiscoveryOutcome::Deadline)
    } else {
        DiscoveryWait::Pending
    }
}

/// How the wait for a discovery reply stands, each time it is woken: a link that no longer holds
/// goes before a reply that is ready, and a reply before the timer.
pub fn discovery_wait(valid: bool, reply: Option<bool>, expired: bool) -> (wait: DiscoveryWait)
    ensures
        wait == waits(valid, reply, expired),
{
    if !valid {
        return DiscoveryWait::Fault(DiscoveryOutcome::Invalidated);
    }
    match reply {
        Some(arrived) => if arrived {
            DiscoveryWait::Reply
        } else {
            DiscoveryWait::Fault(DiscoveryOutcome::Transport)
        },
        None => if expired {
            DiscoveryWait::Fault(DiscoveryOutcome::Deadline)
        } else {
            DiscoveryWait::Pending
        },
    }
}

impl DiscoveryOutcome {
    /// What an outcome is counted as, if it is.
    pub open spec fn counted(self) -> Option<Refused> {
        match self {
            DiscoveryOutcome::Deadline => Some(Refused::DiscoveryDeadline),
            DiscoveryOutcome::Invalidated => Some(Refused::DiscoveryInvalidated),
            DiscoveryOutcome::Transport => Some(Refused::DiscoveryTransport),
            _ => None,
        }
    }

    /// The kind an exchange that ended without a reply is counted under.
    pub fn counter(self) -> (kind: Option<Refused>)
        ensures
            kind == self.counted(),
    {
        match self {
            DiscoveryOutcome::Deadline => Some(Refused::DiscoveryDeadline),
            DiscoveryOutcome::Invalidated => Some(Refused::DiscoveryInvalidated),
            DiscoveryOutcome::Transport => Some(Refused::DiscoveryTransport),
            _ => None,
        }
    }
}

/// What a record-link task does at the top of a period.
#[derive(Clone, Copy, Debug, PartialEq, Eq, Structural)]
pub enum LinkStep {
    /// The peer is retired: its link is dropped, and the task idles.
    Idle,
    /// There is no link: dial, and enroll the session when it is up.
    Establish,
    /// The link stands, in or out: exchange a discovery page over it if its session is in.
    Refresh,
}

/// What a record-link task does.
pub open spec fn link_step_of(linked: bool, contact: bool) -> LinkStep {
    if !contact {
        LinkStep::Idle
    } else if !linked {
        LinkStep::Establish
    } else {
        LinkStep::Refresh
    }
}

/// What a record-link task does at the top of a period.
pub fn link_step(links: &RecordLinks, peer: HostId, contact: bool) -> (step: LinkStep)
    ensures
        step == link_step_of(links.links@.contains_key(peer.0), contact),
{
    if !contact {
        LinkStep::Idle
    } else if !links.links.contains_key(&peer.0) {
        LinkStep::Establish
    } else {
        LinkStep::Refresh
    }
}

/// What a reply that arrives after its round stopped waiting is worth.
#[derive(Clone, Copy, Debug, PartialEq, Eq)]
pub enum LateReplies {
    /// A commit or a promotion: the reply is dropped.
    Discard,
    /// A council round: a late vote or append reply is folded.
    Council,
    /// A root round: likewise.
    Root,
    /// A configuration learner's fetch: a newer configuration is adopted.
    ConfigFetch,
    /// A root learner's fetch: likewise.
    RootFetch,
    /// A content round: a late acknowledgement is folded into its seal.
    Content { seal: LateSeal },
}

/// The seal a late acknowledgement belongs to.
#[derive(Clone, Copy, Debug, PartialEq, Eq)]
pub struct LateSeal {
    /// The owner shard.
    pub shard: u16,
    pub object: ObjectId,
    /// The snapshot sealed: a superseded seal ignores the fold.
    pub snapshot: SnapshotId,
    /// The head sequence the content is placed for.
    pub sequence: u64,
    /// The identity of the content put.
    pub manifest: [u8; 32],
    /// When the round was dispatched.
    pub dispatched_ns: u64,
}

/// A holder's acknowledgement that it holds an object's content, as it decodes.
#[derive(Clone, Copy, Debug, PartialEq, Eq)]
pub struct ContentAck {
    pub holder: HostId,
    pub object: ObjectId,
    pub sequence: u64,
    pub manifest: [u8; 32],
}

impl ContentAck {
    /// Whether it acknowledges what a seal put: its object, at its sequence, with its identity.
    pub open spec fn acknowledges(self, seal: LateSeal) -> bool {
        &&& self.object == seal.object
        &&& self.sequence == seal.sequence
        &&& self.manifest@ == seal.manifest@
    }

    /// Whether it acknowledges what a seal put.
    pub fn binds(&self, seal: &LateSeal) -> (binds: bool)
        ensures
            binds == self.acknowledges(*seal),
    {
        self.object == seal.object && self.sequence == seal.sequence && same_bytes(
            self.manifest.as_slice(),
            seal.manifest.as_slice(),
        )
    }
}

/// The holders that acknowledge what a seal put, in the order they answered.
pub open spec fn bound_to(seal: LateSeal, acks: Seq<ContentAck>) -> Seq<HostId> {
    acks.filter(|ack: ContentAck| ack.acknowledges(seal)).map_values(|ack: ContentAck| ack.holder)
}

/// The holders that acknowledge what a seal put, in the order they answered.
pub fn bound_holders(seal: &LateSeal, acks: &Vec<ContentAck>) -> (holders: Vec<HostId>)
    ensures
        holders@ == bound_to(*seal, acks@),
{
    let mut holders: Vec<HostId> = Vec::new();
    let ghost binds = |ack: ContentAck| ack.acknowledges(*seal);
    let ghost holder = |ack: ContentAck| ack.holder;
    let mut i: usize = 0;
    proof {
        reveal(Seq::filter);
        assert(holders@ =~= acks@.take(0).filter(binds).map_values(holder));
    }
    while i < acks.len()
        invariant
            i <= acks@.len(),
            binds == (|ack: ContentAck| ack.acknowledges(*seal)),
            holder == (|ack: ContentAck| ack.holder),
            holders@ == acks@.take(i as int).filter(binds).map_values(holder),
        decreases acks@.len() - i,
    {
        proof {
            reveal(Seq::filter);
            assert(acks@.take(i + 1).drop_last() =~= acks@.take(i as int));
            assert(acks@.take(i + 1).last() == acks@[i as int]);
        }
        if acks[i].binds(seal) {
            holders.push(acks[i].holder);
        }
        i += 1;
        assert(holders@ =~= acks@.take(i as int).filter(binds).map_values(holder));
    }
    assert(acks@.take(i as int) =~= acks@);
    holders
}

/// A consensus reply as its message kind.
#[derive(Clone, Copy, Debug, PartialEq, Eq, Structural)]
pub enum RaftReply {
    PreVote,
    Vote,
    Append,
    Other,
}

/// Where a late reply goes.
#[derive(Clone, Copy, Debug, PartialEq, Eq, Structural)]
pub enum LateFold {
    Nothing,
    /// Into the group, root or council.
    Fold { root: bool },
    /// To the adoption of a fetched configuration; a refused one is counted.
    Adopt { root: bool },
    /// To the seal on its owner shard.
    Seal,
}

impl LateReplies {
    /// Where a late reply goes.
    pub open spec fn folds(self, message: Option<RaftReply>) -> LateFold {
        match self {
            LateReplies::Discard => LateFold::Nothing,
            LateReplies::Council | LateReplies::Root => if message is None || message == Some(
                RaftReply::PreVote,
            ) {
                LateFold::Nothing
            } else {
                LateFold::Fold { root: self == LateReplies::Root }
            },
            LateReplies::ConfigFetch => LateFold::Adopt { root: false },
            LateReplies::RootFetch => LateFold::Adopt { root: true },
            LateReplies::Content { .. } => LateFold::Seal,
        }
    }

    /// Where a late reply goes. A late pre-vote reply is dropped, as is one that does not decode:
    /// completing a pre-election would owe requests that a settled dispatch cannot send.
    pub fn fold(self, message: Option<RaftReply>) -> (fold: LateFold)
        ensures
            fold == self.folds(message),
    {
        let raft = match message {
            Some(RaftReply::PreVote) => false,
            Some(_) => true,
            None => false,
        };
        match self {
            LateReplies::Discard => LateFold::Nothing,
            LateReplies::Council => if raft {
                LateFold::Fold { root: false }
            } else {
                LateFold::Nothing
            },
            LateReplies::Root => if raft {
                LateFold::Fold { root: true }
            } else {
                LateFold::Nothing
            },
            LateReplies::ConfigFetch => LateFold::Adopt { root: false },
            LateReplies::RootFetch => LateFold::Adopt { root: true },
            LateReplies::Content { .. } => LateFold::Seal,
        }
    }

    /// Whether a round's replies measure their paths.
    pub open spec fn measures(self) -> bool {
        self is Council || self is Root
    }

    /// Whether a late reply also samples the path to its voter.
    pub fn samples_paths(self) -> (samples: bool)
        ensures
            samples == self.measures(),
    {
        match self {
            LateReplies::Council => true,
            LateReplies::Root => true,
            _ => false,
        }
    }
}

/// A dispatch whose holders may still be in flight: the holders borrowed for it that have not come
/// back, and what a late reply is worth.
#[derive(Debug)]
pub struct Dispatch {
    pub outstanding: Vec<HostId>,
    pub late: LateReplies,
}

/// The hosts of one list that another does not hold.
fn without(hosts: &Vec<HostId>, gone: &Vec<HostId>) -> (rest: Vec<HostId>)
    ensures
        rest@ == hosts@.filter(|host: HostId| !lists(gone@, host)),
{
    let mut rest: Vec<HostId> = Vec::new();
    let mut i: usize = 0;
    proof {
        reveal(Seq::filter);
        assert(rest@ =~= hosts@.take(0).filter(|host: HostId| !lists(gone@, host)));
    }
    while i < hosts.len()
        invariant
            i <= hosts@.len(),
            rest@ == hosts@.take(i as int).filter(|host: HostId| !lists(gone@, host)),
        decreases hosts@.len() - i,
    {
        proof {
            reveal(Seq::filter);
            assert(hosts@.take(i + 1).drop_last() =~= hosts@.take(i as int));
            assert(hosts@.take(i + 1).last() == hosts@[i as int]);
        }
        if !contains_host(gone, hosts[i]) {
            rest.push(hosts[i]);
        }
        i += 1;
    }
    assert(hosts@.take(i as int) =~= hosts@);
    rest
}

impl Dispatch {
    /// Whether `dispatch` is what a round leaves out.
    pub open spec fn leaves(taken: Seq<HostId>, returned: Seq<HostId>, late: LateReplies, dispatch: Dispatch) -> bool {
        &&& dispatch.outstanding@ == taken.filter(|host: HostId| !lists(returned, host))
        &&& dispatch.late == late
    }

    /// A dispatch over the holders taken, of which some came back at its return.
    pub fn new(taken: &Vec<HostId>, returned: &Vec<HostId>, late: LateReplies) -> (dispatch:
        Dispatch)
        ensures
            Self::leaves(taken@, returned@, late, dispatch),
    {
        Dispatch { outstanding: without(taken, returned), late }
    }

    /// Whether `lost` and `after` are what settling a dispatch makes of it.
    pub open spec fn settles(&self, recovered: Seq<HostId>, done: bool, lost: Seq<HostId>, after: Dispatch) -> bool {
        ({
            let rest = self.outstanding@.filter(|host: HostId| !lists(recovered, host));
            &&& after.late == self.late
            &&& if done {
                &&& lost == rest
                &&& after.outstanding@ == Seq::<HostId>::empty()
            } else {
                &&& lost == Seq::<HostId>::empty()
                &&& after.outstanding@ == rest
            }
        })
    }

    /// Settles a dispatch with what its stragglers brought: the holders that came back are no
    /// longer outstanding, and once the stragglers are spent, those that still are have lost their
    /// sessions.
    pub fn settle(&mut self, recovered: &Vec<HostId>, done: bool) -> (lost: Vec<HostId>)
        ensures
            old(self).settles(recovered@, done, lost@, *final(self)),
    {
        let rest = without(&self.outstanding, recovered);
        if done {
            self.outstanding = Vec::new();
            rest
        } else {
            self.outstanding = rest;
            Vec::new()
        }
    }
}

/// Every holder a settled dispatch had out either came back or is lost: none is kept waiting and
/// none is dropped unseen.
pub proof fn a_spent_dispatch_accounts_for_every_holder(
    outstanding: Seq<HostId>,
    recovered: Seq<HostId>,
    host: HostId,
)
    requires
        lists(outstanding, host),
    ensures
        lists(recovered, host) || lists(
            outstanding.filter(|host: HostId| !lists(recovered, host)),
            host,
        ),
    decreases outstanding.len(),
{
    reveal(Seq::filter);
    let kept = |host: HostId| !lists(recovered, host);
    let rest = outstanding.drop_last();
    let at = choose|at: int| 0 <= at < outstanding.len() && outstanding[at] == host;
    if at < rest.len() {
        assert(rest[at] == host);
        a_spent_dispatch_accounts_for_every_holder(rest, recovered, host);
        if !lists(recovered, host) {
            let short = rest.filter(kept);
            let k = choose|k: int| 0 <= k < short.len() && short[k] == host;
            assert(outstanding.filter(kept)[k] == host);
        }
    } else if !lists(recovered, host) {
        let whole = outstanding.filter(kept);
        assert(whole[whole.len() - 1] == host);
    }
}

/// A forward's wait for its peer's session.
#[derive(Clone, Copy, Debug, PartialEq, Eq, Structural)]
pub struct ForwardWait {
    /// Whether the session was missed before.
    pub missed: bool,
}

/// What a forward does now.
#[derive(Clone, Copy, Debug, PartialEq, Eq, Structural)]
pub enum ForwardStep {
    /// Send over the session, within what is left of the deadline.
    Send { remaining_ns: u64 },
    /// Look again after the poll interval; a first miss is counted.
    Wait { poll_ns: u64, first_miss: Option<Refused> },
    /// The deadline passed: refuse, with what is counted for a first miss.
    GiveUp { first_miss: Option<Refused> },
}

impl ForwardWait {
    /// Whether `step` and `missed` are a forward's next step.
    pub open spec fn steps(
        &self,
        waited_ns: u64,
        deadline_ns: u64,
        session: bool,
        linked: bool,
        step: ForwardStep,
        missed: bool,
    ) -> bool {
        &&& missed == (self.missed || !session)
        &&& ({
            let first_miss = if self.missed {
                None
            } else if linked {
                Some(Refused::ForwardSessionOut)
            } else {
                Some(Refused::ForwardNoSession)
            };
            step == (if session {
                ForwardStep::Send {
                    remaining_ns: larger(deadline_ns - waited_ns, 0) as u64,
                }
            } else if waited_ns >= deadline_ns {
                ForwardStep::GiveUp { first_miss }
            } else {
                ForwardStep::Wait {
                    poll_ns: HEARTBEAT_NS / POLL_PER_PERIOD,
                    first_miss,
                }
            })
        })
    }

    /// A forward's next step. A session that is out is waited for inside the one deadline that also
    /// bounds the request.
    pub fn step(
        &mut self,
        waited_ns: u64,
        deadline_ns: u64,
        session: bool,
        linked: bool,
    ) -> (step: ForwardStep)
        ensures
            old(self).steps(
                waited_ns,
                deadline_ns,
                session,
                linked,
                step,
                final(self).missed,
            ),
    {
        if session {
            return ForwardStep::Send { remaining_ns: deadline_ns.saturating_sub(waited_ns) };
        }
        let first_miss = if self.missed {
            None
        } else if linked {
            Some(Refused::ForwardSessionOut)
        } else {
            Some(Refused::ForwardNoSession)
        };
        self.missed = true;
        if waited_ns >= deadline_ns {
            ForwardStep::GiveUp { first_miss }
        } else {
            ForwardStep::Wait { poll_ns: HEARTBEAT_NS / POLL_PER_PERIOD, first_miss }
        }
    }
}

/// The latency of a holder's late acknowledgement.
pub fn late_latency_ns(now_ns: u64, seal: &LateSeal) -> (latency_ns: u64)
    ensures
        latency_ns == clamp_u64(larger(now_ns - seal.dispatched_ns, 0)),
{
    now_ns.saturating_sub(seal.dispatched_ns)
}

/// A session is accepted under the roster's anchor for its certificate; otherwise a probe's under the
/// anchor that enrollment recognizes, and a record's under the one its certificate derives; a session
/// without a certificate is not accepted.
pub proof fn a_session_is_accepted_as_its_certificates_node(
    roster: Seq<Rostered>,
    presented: Option<Seq<u8>>,
    recognized: Option<HostId>,
    derived: HostId,
    probe: Result<HostId, Refused>,
    record: Result<HostId, Refused>,
)
    requires
        accepts_probe(roster, presented, recognized, probe),
        accepts_record(roster, presented, derived, record),
    ensures
        presented is None ==> probe == Err::<HostId, Refused>(Refused::Accept) && record == Err::<
            HostId,
            Refused,
        >(Refused::Accept),
        presented matches Some(certificate) ==> {
            let known = exists|at: int|
                0 <= at < roster.len() && (#[trigger] roster[at]).certificate@ == certificate;
            &&& record is Ok
            &&& known ==> probe is Ok && record == probe && exists|at: int|
                0 <= at < roster.len() && (#[trigger] roster[at]).certificate@ == certificate
                    && roster[at].anchor == probe->Ok_0
            &&& !known ==> record == Ok::<HostId, Refused>(derived)
            &&& !known && recognized is None ==> probe == Err::<HostId, Refused>(Refused::Accept)
            &&& !known && recognized is Some ==> probe == Ok::<HostId, Refused>(recognized->0)
        },
{
    if let Some(certificate) = presented {
        lemma_first_rostered(roster, certificate, roster.len() as int);
        if is_rostered(roster, certificate) {
            let a = choose|at: int| #[trigger]
                first_rostered(roster, certificate, at) && probe == Ok::<HostId, Refused>(
                    roster[at].anchor,
                );
            let b = choose|at: int| #[trigger]
                first_rostered(roster, certificate, at) && record == Ok::<HostId, Refused>(
                    roster[at].anchor,
                );
            assert(a == b);
            assert(roster[a].certificate@ == certificate);
        } else {
            assert forall|at: int| 0 <= at < roster.len() implies (
            #[trigger] roster[at]).certificate@ != certificate by {}
        }
    }
}

/// A certificate among the first of a roster has a first place in it.
proof fn lemma_first_rostered(roster: Seq<Rostered>, presented: Seq<u8>, count: int)
    requires
        0 <= count <= roster.len(),
    ensures
        (exists|at: int| 0 <= at < count && (#[trigger] roster[at]).certificate@ == presented)
            ==> is_rostered(roster, presented),
    decreases count,
{
    if exists|at: int| 0 <= at < count && (#[trigger] roster[at]).certificate@ == presented {
        let at = choose|at: int|
            0 <= at < count && (#[trigger] roster[at]).certificate@ == presented;
        if exists|i: int| 0 <= i < at && (#[trigger] roster[i]).certificate@ == presented {
            lemma_first_rostered(roster, presented, at);
        } else {
            assert(first_rostered(roster, presented, at));
        }
    }
}

/// A dialer keeps a session that is up, drives a handshake it began, and dials where it has neither; a
/// silent peer is waited for within two budgets, then dialed afresh, and a fault is dropped at once.
pub proof fn a_silent_peer_is_redialed(dialed: Dialed, budgets_spent: u32)
    ensures
        (dialed.doing() == EstablishStep::Keep) == (dialed == Dialed::Up),
        (dialed.doing() == EstablishStep::Drive) == (dialed == Dialed::Dialing),
        (dialed.doing() == EstablishStep::Dial) == (dialed == Dialed::Absent),
        Dialed::after(Handshake::Established) == (Dialed::Up, None::<Refused>),
        budgets_spent < 2 ==> Dialed::after(Handshake::Silent { budgets_spent }) == (
            Dialed::Dialing,
            None::<Refused>,
        ),
        budgets_spent >= 2 ==> Dialed::after(Handshake::Silent { budgets_spent }) == (
            Dialed::Absent,
            Some(Refused::DialRedial),
        ),
        Dialed::after(Handshake::Fault) == (Dialed::Absent, Some(Refused::DialFault)),
{
}

/// Each wanted peer's session is lent if it is in, once, and no other is touched: a lent link waits
/// for that very connection.
pub proof fn a_wanted_session_is_lent(
    links: RecordLinks,
    wanted: Seq<HostId>,
    taken: Seq<(HostId, SessionHandle)>,
    after: Map<u64, RecordLink>,
    host: HostId,
    at: int,
)
    requires
        links.lends(wanted, taken, after),
    ensures
        ({
            let has = links.links@.contains_key(host.0) && links.links@[host.0].session is Some;
            &&& after.contains_key(host.0) == links.links@.contains_key(host.0)
            &&& has && wanted.contains(host) ==> {
                &&& after[host.0].session is None
                &&& after[host.0].borrowed == (links.links@[host.0].session->0).connection
                &&& taken.contains((host, links.links@[host.0].session->0))
            }
            &&& links.links@.contains_key(host.0) && !(has && wanted.contains(host))
                ==> after[host.0] == links.links@[host.0]
            &&& 0 <= at < taken.len() ==> wanted.contains(taken[at].0) && links.links@.contains_key(
                taken[at].0.0,
            ) && links.links@[taken[at].0.0].session == Some(taken[at].1)
        }),
{
    assert(HostId(host.0) == host);
    if links.links@.contains_key(host.0) && links.links@[host.0].session is Some && wanted.contains(
        host,
    ) {
        assert(lendable(links.links@, wanted, host.0));
        let i = choose|i: int| 0 <= i < taken.len() && (#[trigger] taken[i]).0.0 == host.0;
        assert(taken[i] == (host, links.links@[host.0].session->0));
    }
    if 0 <= at < taken.len() {
        assert(lendable(links.links@, wanted, taken[at].0.0));
        assert(HostId(taken[at].0.0) == taken[at].0);
    }
}

/// A session that is given back goes to the entry it left, if that entry still waits for it: an entry
/// that is gone, is filled, or waits for another connection is left alone.
pub proof fn a_session_returns_to_the_entry_it_left(
    links: Map<u64, RecordLink>,
    host: HostId,
    session: SessionHandle,
)
    ensures
        given_back(links, host, session) is Some <==> links.contains_key(host.0)
            && links[host.0].session is None && links[host.0].borrowed == session.connection,
        given_back(links, host, session) matches Some(after) ==> {
            &&& after.contains_key(host.0)
            &&& after[host.0].session == Some(session)
            &&& after[host.0].borrowed is None
            &&& after.remove(host.0) =~= links.remove(host.0)
        },
{
}

/// A link is kept on an answered page and dropped on any other: a first page installs it, a later one
/// puts its session back into the entry it left and makes none; a page in flight leaves the entry in
/// place without its session.
pub proof fn a_link_stands_on_its_answers(
    links: RecordLinks,
    peer: HostId,
    session: SessionHandle,
    outcome: DiscoveryOutcome,
    kept: bool,
    enrolled: Map<u64, RecordLink>,
    borrowed: Option<SessionHandle>,
    lent_out: Map<u64, RecordLink>,
    other: u64,
)
    requires
        links.enrolls(peer, session, outcome, kept, enrolled),
        links.lends_page(peer, borrowed, lent_out),
    ensures
        kept <==> outcome == DiscoveryOutcome::Answered,
        kept ==> enrolled.contains_key(peer.0) && enrolled[peer.0].session == Some(session)
            && enrolled[peer.0].borrowed is None,
        !kept ==> enrolled == links.links@,
        borrowed == (if links.links@.contains_key(peer.0) {
            links.links@[peer.0].session
        } else {
            None
        }),
        lent_out.contains_key(peer.0) == links.links@.contains_key(peer.0),
        links.links@.contains_key(peer.0) ==> lent_out[peer.0].session is None
            && lent_out[peer.0].borrowed == links.links@[peer.0].borrowed,
        ({
            let after = links.after_page(peer, session, outcome);
            &&& outcome == DiscoveryOutcome::Answered ==> after.contains_key(peer.0)
                == links.links@.contains_key(peer.0)
            &&& outcome == DiscoveryOutcome::Answered && links.links@.contains_key(peer.0)
                ==> after[peer.0].session == Some(session)
            &&& outcome != DiscoveryOutcome::Answered ==> !after.contains_key(peer.0)
            &&& other != peer.0 ==> after.contains_key(other) == links.links@.contains_key(other)
                && enrolled.contains_key(other) == links.links@.contains_key(other)
                && lent_out.contains_key(other) == links.links@.contains_key(other)
        }),
{
}

/// A peer that restarted is linked anew: its previous entry is dropped, a dial under way is let go and
/// said so, and the sweep begins again; a peer that did not is left as it is.
pub proof fn a_restarted_peer_is_linked_anew(
    links: RecordLinks,
    current: Option<HostId>,
    previous: HostId,
    dialed: (Dialed, Dialed),
    cursor: (Cursor, Cursor),
    refreshed: (HostId, bool),
    after: Map<u64, RecordLink>,
)
    requires
        links.refreshes(current, previous, dialed, cursor, refreshed, after),
    ensures
        current is None ==> refreshed.0 == previous,
        current matches Some(now) ==> refreshed.0 == now,
        refreshed.0 == previous ==> after == links.links@ && dialed.1 == dialed.0 && cursor.1
            == cursor.0 && !refreshed.1,
        refreshed.0 != previous ==> {
            &&& !after.contains_key(previous.0)
            &&& after == links.links@.remove(previous.0)
            &&& dialed.1 != Dialed::Dialing
            &&& refreshed.1 == (dialed.0 == Dialed::Dialing)
            &&& !cursor.1.announced && cursor.1.after is None && cursor.1.generation == 0
        },
{
}

/// A peer is dialed where it was discovered, or else where it is configured; a name is resolved, and
/// without a resolver it cannot be dialed.
pub proof fn a_discovered_address_comes_first(
    discovered: Option<NodeAddress>,
    configured: NodeAddress,
    resolver: bool,
    dial: Dial,
)
    requires
        dials(discovered, configured, resolver, dial),
    ensures
        discovered matches Some(NodeAddress::Ip(address)) ==> dial == Dial::Address(address),
        discovered is None ==> (configured matches NodeAddress::Ip(address) ==> dial
            == Dial::Address(address)),
        discovered matches Some(NodeAddress::Name { host, port }) ==> {
            &&& !resolver ==> dial is NoResolver
            &&& resolver ==> (dial matches Dial::Resolve { host: asked, port: at } && asked@ == host@
                && at == port)
        },
        discovered is None ==> (configured matches NodeAddress::Name { host, port } ==> {
            &&& !resolver ==> dial is NoResolver
            &&& resolver ==> (dial matches Dial::Resolve { host: asked, port: at } && asked@ == host@
                && at == port)
        }),
{
}

/// A wait for a reply ends at the first of its link's end, the reply and the deadline, in that order;
/// an idle peer is not dialed, an unlinked one is, and a linked one is swept.
pub proof fn a_wait_ends_with_its_link(
    valid: bool,
    reply: Option<bool>,
    expired: bool,
    linked: bool,
    contact: bool,
)
    ensures
        !valid ==> waits(valid, reply, expired) == DiscoveryWait::Fault(
            DiscoveryOutcome::Invalidated,
        ),
        waits(true, Some(true), expired) == DiscoveryWait::Reply,
        waits(true, Some(false), expired) == DiscoveryWait::Fault(DiscoveryOutcome::Transport),
        waits(true, None, true) == DiscoveryWait::Fault(DiscoveryOutcome::Deadline),
        waits(true, None, false) == DiscoveryWait::Pending,
        (link_step_of(linked, contact) == LinkStep::Idle) == !contact,
        (link_step_of(linked, contact) == LinkStep::Establish) == (contact && !linked),
        (link_step_of(linked, contact) == LinkStep::Refresh) == (contact && linked),
        accept_failed(AcceptFailure::Closed) == Refused::AcceptReplaced,
        accept_failed(AcceptFailure::PeerSessions) == Refused::AcceptPeerSessions,
        accept_failed(AcceptFailure::PeerCapacity) == Refused::AcceptPeerCapacity,
        accept_failed(AcceptFailure::Other) == Refused::AcceptHandshake,
{
}

/// A late reply is worth what its round was: a commit's nothing; a group's vote or append to that
/// group, and no pre-vote; a fetch's a configuration of that group; and a content round's its seal.
pub proof fn a_late_reply_goes_to_its_own_round(seal: LateSeal, message: Option<RaftReply>)
    ensures
        LateReplies::Discard.folds(message) == LateFold::Nothing,
        message is None || message == Some(RaftReply::PreVote) ==> LateReplies::Council.folds(message)
            == LateFold::Nothing && LateReplies::Root.folds(message) == LateFold::Nothing,
        message is Some && message != Some(RaftReply::PreVote) ==> LateReplies::Council.folds(message)
            == (LateFold::Fold { root: false }) && LateReplies::Root.folds(message)
            == (LateFold::Fold { root: true }),
        LateReplies::ConfigFetch.folds(message) == (LateFold::Adopt { root: false }),
        LateReplies::RootFetch.folds(message) == (LateFold::Adopt { root: true }),
        (LateReplies::Content { seal }).folds(message) == LateFold::Seal,
{
}

/// A late acknowledgement counts for the seal it names and for no other: one of its object, at its
/// sequence, with its identity.
pub proof fn a_late_acknowledgement_is_bound_to_its_seal(
    seal: LateSeal,
    acks: Seq<ContentAck>,
    host: HostId,
)
    ensures
        bound_to(seal, acks).contains(host) <==> exists|at: int|
            0 <= at < acks.len() && (#[trigger] acks[at]).holder == host && acks[at].object
                == seal.object && acks[at].sequence == seal.sequence && acks[at].manifest@
                == seal.manifest@,
{
    let keep = |ack: ContentAck| ack.acknowledges(seal);
    let kept = acks.filter(keep);
    let holders = bound_to(seal, acks);
    assert(holders =~= kept.map_values(|ack: ContentAck| ack.holder));
    if holders.contains(host) {
        let i = choose|i: int| 0 <= i < holders.len() && holders[i] == host;
        acks.lemma_filter_pred(keep, i);
        assert(kept.contains(kept[i]));
        acks.lemma_filter_contains_rev(keep, kept[i]);
        let at = choose|at: int| 0 <= at < acks.len() && acks[at] == kept[i];
        assert(acks[at].holder == host);
    }
    if exists|at: int|
        0 <= at < acks.len() && (#[trigger] acks[at]).holder == host && acks[at].object
            == seal.object && acks[at].sequence == seal.sequence && acks[at].manifest@
            == seal.manifest@ {
        let at = choose|at: int|
            0 <= at < acks.len() && (#[trigger] acks[at]).holder == host && acks[at].object
                == seal.object && acks[at].sequence == seal.sequence && acks[at].manifest@
                == seal.manifest@;
        acks.lemma_filter_contains(keep, at);
        let i = choose|i: int| 0 <= i < kept.len() && kept[i] == acks[at];
        assert(holders[i] == host);
    }
}

/// A dispatch is out on the peers it took and has not given back, until each comes in or it is done:
/// then those that did not are lost, and none before.
pub proof fn a_dispatch_loses_only_what_never_came_back(
    taken: Seq<HostId>,
    returned: Seq<HostId>,
    late: LateReplies,
    dispatch: Dispatch,
    recovered: Seq<HostId>,
    done: bool,
    lost: Seq<HostId>,
    after: Dispatch,
    host: HostId,
)
    requires
        Dispatch::leaves(taken, returned, late, dispatch),
        dispatch.settles(recovered, done, lost, after),
    ensures
        lists(dispatch.outstanding@, host) <==> lists(taken, host) && !lists(returned, host),
        dispatch.late == late && after.late == late,
        done ==> after.outstanding@.len() == 0 && (lists(lost, host) <==> lists(
            dispatch.outstanding@,
            host,
        ) && !lists(recovered, host)),
        !done ==> lost.len() == 0 && (lists(after.outstanding@, host) <==> lists(
            dispatch.outstanding@,
            host,
        ) && !lists(recovered, host)),
{
    crate::fleet::record::lemma_not_listed(taken, returned, host);
    crate::fleet::record::lemma_not_listed(dispatch.outstanding@, recovered, host);
}

/// A forward goes out over a session that is in, with the time that is left of its deadline; without
/// one it waits until the deadline, and the first miss alone is counted, as what it was.
pub proof fn a_forward_keeps_its_deadline(
    wait: ForwardWait,
    waited_ns: u64,
    deadline_ns: u64,
    session: bool,
    linked: bool,
    step: ForwardStep,
    missed: bool,
)
    requires
        wait.steps(waited_ns, deadline_ns, session, linked, step, missed),
    ensures
        step is Send <==> session,
        step matches ForwardStep::Send { remaining_ns } ==> (waited_ns <= deadline_ns ==> waited_ns
            + remaining_ns == deadline_ns) && (waited_ns > deadline_ns ==> remaining_ns == 0),
        step is GiveUp <==> !session && waited_ns >= deadline_ns,
        step matches ForwardStep::Wait { poll_ns, first_miss } ==> poll_ns == 10_000_000 && (first_miss
            is Some <==> !wait.missed),
        step matches ForwardStep::GiveUp { first_miss } ==> (first_miss is Some <==> !wait.missed),
        step matches ForwardStep::Wait { poll_ns, first_miss } ==> (first_miss matches Some(kind)
            ==> kind == (if linked {
            Refused::ForwardSessionOut
        } else {
            Refused::ForwardNoSession
        })),
        missed <==> wait.missed || !session,
{
}

/// A failed lookup is counted under its own kind: behind the resolver's name stands the error's, and a
/// name that is none is counted under the resolver's alone.
pub proof fn a_failed_lookup_is_counted_under_its_kind(error: DnsError, kind: Refused)
    requires
        counts_lookup(error, kind),
    ensures
        error is Name ==> kind.named() == "fleet.resolve"@,
        !(error is Name) ==> kind.named() == "fleet.resolve."@ + error.kind_text()@,
        kind == Refused::ResolveTimeout <==> error is Timeout,
        kind == Refused::ResolveNxdomain <==> error is Refused,
        kind == Refused::ResolveNoAddress <==> error is NoAddress,
        kind == Refused::ResolveMalformed <==> error is Malformed,
        kind == Refused::ResolveIo <==> error is Io,
        kind == Refused::ResolveNoNameserver <==> error is NoNameserver,
{
    reveal_strlit("fleet.resolve.");
    reveal_strlit("fleet.resolve.no-nameserver");
    reveal_strlit("fleet.resolve.timeout");
    reveal_strlit("fleet.resolve.refused");
    reveal_strlit("fleet.resolve.no-address");
    reveal_strlit("fleet.resolve.malformed");
    reveal_strlit("fleet.resolve.io");
    reveal_strlit("no-nameserver");
    reveal_strlit("timeout");
    reveal_strlit("refused");
    reveal_strlit("no-address");
    reveal_strlit("malformed");
    reveal_strlit("io");
    if !(error is Name) {
        assert(kind.named() =~= "fleet.resolve."@ + error.kind_text()@);
    }
}

/// A page that failed is counted by how it did, and one that did not is not counted; only a group's own
/// rounds measure the paths they took.
pub proof fn a_failed_page_is_counted_by_how_it_failed(outcome: DiscoveryOutcome, late: LateReplies)
    ensures
        outcome.counted() == Some(Refused::DiscoveryDeadline) <==> outcome
            == DiscoveryOutcome::Deadline,
        outcome.counted() == Some(Refused::DiscoveryInvalidated) <==> outcome
            == DiscoveryOutcome::Invalidated,
        outcome.counted() == Some(Refused::DiscoveryTransport) <==> outcome
            == DiscoveryOutcome::Transport,
        outcome == DiscoveryOutcome::Answered ==> outcome.counted() is None,
        late.measures() <==> late == LateReplies::Council || late == LateReplies::Root,
{
}

/// A certificate's anchor is that of its first entry on the roster, and there is none without one.
pub proof fn a_rostered_certificate_has_its_anchor(
    roster: Seq<Rostered>,
    presented: Seq<u8>,
    anchor: Option<HostId>,
    at: int,
)
    requires
        rosters(roster, presented, anchor),
        0 <= at < roster.len(),
    ensures
        roster[at].certificate@ == presented && (forall|i: int|
            0 <= i < at ==> (#[trigger] roster[i]).certificate@ != presented) ==> anchor == Some(
            roster[at].anchor,
        ),
        (forall|i: int| 0 <= i < roster.len() ==> (#[trigger] roster[i]).certificate@ != presented)
            ==> anchor is None,
{
    if roster[at].certificate@ == presented && (forall|i: int|
        0 <= i < at ==> (#[trigger] roster[i]).certificate@ != presented) {
        assert(first_rostered(roster, presented, at));
        if anchor is Some {
            let first = choose|first: int| #[trigger]
                first_rostered(roster, presented, first) && anchor->0 == roster[first].anchor;
            assert(first == at);
        }
    }
}

} // verus!
