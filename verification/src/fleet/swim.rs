//! The probe plane: starting a node's fleet loops, answering peers' probes, and the task that
//! probes one peer.

use crate::discovery::{FleetPeer, Refusal};
use crate::digest::copy_bytes;
use crate::fleet::membership::{
    classification, gossip_effect, receive_probe_gossip, restart_folds, AnnouncedIdentity, Fold,
    GossipFold, LearnedMember, LearnedOutcome, MemberState, Members, ProbedPeer,
};
use crate::fleet::membership::{incarnation_of, lookup, Liveness};
use crate::fleet::probe::{IndirectFacts, IndirectProbes, ProbeTiming, ProbeWindows};
use crate::fleet::refusal::Refused;
use crate::fleet::session::{Dialed, Rostered};
use crate::ids::HostId;
use std::collections::{BTreeMap, BTreeSet};
use vstd::prelude::*;
use vstd::std_specs::btree::*;

verus! {

broadcast use group_btree_axioms;

/// Where the fleet's boot stands.
#[derive(Clone, Copy, Debug, PartialEq, Eq, Structural)]
pub enum FleetBoot {
    /// Keep the node's identity for the shard's life.
    KeepIdentity,
    /// Initialize enrollment and restore what was enrolled.
    Enroll,
    /// Keep the dial inputs the peers' tasks share.
    KeepDriver,
    /// Bind the serve sockets of both planes.
    Bind,
    /// Start the demultiplexers of both sockets.
    Demultiplex,
    /// Spawn the loops, start every peer, then the coordinator.
    Run,
    /// The node takes no part.
    Ended(Option<BootRefusal>),
}

/// Why a node takes no part in its fleet.
#[derive(Clone, Copy, Debug, PartialEq, Eq, Structural)]
pub enum BootRefusal {
    Fleet(Refused),
    Enrollment(Refusal),
}

/// What one step of the boot came to.
#[derive(Clone, Copy, Debug, PartialEq, Eq, Structural)]
pub enum BootOutcome {
    Done,
    /// The step was refused.
    Refused,
    /// Enrollment was refused.
    Enrollment(Refusal),
    /// There is no shard state to run on.
    NoState,
}

impl FleetBoot {
    /// Where a fleet's boot starts.
    pub open spec fn starting(peers: usize, roots: usize) -> FleetBoot {
        if peers == 0 && roots == 0 {
            FleetBoot::Ended(None)
        } else {
            FleetBoot::KeepIdentity
        }
    }

    /// Where a boot starts: nowhere with neither peers nor enrollment roots.
    pub fn start(peers: usize, roots: usize) -> (boot: FleetBoot)
        ensures
            boot == Self::starting(peers, roots),
    {
        if peers == 0 && roots == 0 {
            FleetBoot::Ended(None)
        } else {
            FleetBoot::KeepIdentity
        }
    }

    /// The step after a completed one.
    pub open spec fn following(self) -> FleetBoot {
        match self {
            FleetBoot::KeepIdentity => FleetBoot::Enroll,
            FleetBoot::Enroll => FleetBoot::KeepDriver,
            FleetBoot::KeepDriver => FleetBoot::Bind,
            FleetBoot::Bind => FleetBoot::Demultiplex,
            FleetBoot::Demultiplex => FleetBoot::Run,
            _ => self,
        }
    }

    /// What a refused step is counted under.
    pub open spec fn refusal(self) -> Refused {
        match self {
            FleetBoot::KeepDriver => Refused::LoopSpawn,
            _ => Refused::Bind,
        }
    }

    /// Where a boot stands after a step's outcome. A boot that runs or has ended stays so.
    pub open spec fn after(self, outcome: BootOutcome) -> FleetBoot {
        match self {
            FleetBoot::Run => self,
            FleetBoot::Ended(_) => self,
            _ => match outcome {
                BootOutcome::Done => self.following(),
                BootOutcome::Refused => FleetBoot::Ended(
                    Some(BootRefusal::Fleet(self.refusal())),
                ),
                BootOutcome::Enrollment(refusal) => FleetBoot::Ended(
                    Some(BootRefusal::Enrollment(refusal)),
                ),
                BootOutcome::NoState => FleetBoot::Ended(None),
            },
        }
    }

    /// Where a boot stands after a step's outcome.
    pub fn advance(self, outcome: BootOutcome) -> (boot: FleetBoot)
        ensures
            boot == self.after(outcome),
    {
        match self {
            FleetBoot::Run => self,
            FleetBoot::Ended(_) => self,
            _ => match outcome {
                BootOutcome::Done => match self {
                    FleetBoot::KeepIdentity => FleetBoot::Enroll,
                    FleetBoot::Enroll => FleetBoot::KeepDriver,
                    FleetBoot::KeepDriver => FleetBoot::Bind,
                    FleetBoot::Bind => FleetBoot::Demultiplex,
                    FleetBoot::Demultiplex => FleetBoot::Run,
                    _ => self,
                },
                BootOutcome::Refused => {
                    let kind = match self {
                        FleetBoot::KeepDriver => Refused::LoopSpawn,
                        _ => Refused::Bind,
                    };
                    FleetBoot::Ended(Some(BootRefusal::Fleet(kind)))
                },
                BootOutcome::Enrollment(refusal) => FleetBoot::Ended(
                    Some(BootRefusal::Enrollment(refusal)),
                ),
                BootOutcome::NoState => FleetBoot::Ended(None),
            },
        }
    }
}

/// A node serves and dials only with both sockets bound and demultiplexed: a step is reached only by
/// completing the one before it, so a running boot completed all five, in order.
pub proof fn a_running_boot_completed_every_step(boot: FleetBoot, outcome: BootOutcome)
    ensures
        ({
            let reached = boot.after(outcome);
            reached != boot && !(reached is Ended) ==> {
                &&& outcome == BootOutcome::Done
                &&& reached == FleetBoot::Enroll ==> boot == FleetBoot::KeepIdentity
                &&& reached == FleetBoot::KeepDriver ==> boot == FleetBoot::Enroll
                &&& reached == FleetBoot::Bind ==> boot == FleetBoot::KeepDriver
                &&& reached == FleetBoot::Demultiplex ==> boot == FleetBoot::Bind
                &&& reached == FleetBoot::Run ==> boot == FleetBoot::Demultiplex
                &&& reached != FleetBoot::KeepIdentity
            }
        }),
{
}

/// The roster of a list of peers: which anchor each certificate stands for.
pub open spec fn roster_entries(peers: Seq<FleetPeer>) -> Seq<(Seq<u8>, HostId)> {
    Seq::new(peers.len(), |i: int| (peers[i].certificate@, peers[i].anchor))
}

/// The roster the serve side reads.
pub fn roster_of(peers: &Vec<FleetPeer>) -> (roster: Vec<Rostered>)
    ensures
        Seq::new(roster@.len(), |i: int| (roster@[i].certificate@, roster@[i].anchor))
            == roster_entries(peers@),
{
    let mut roster: Vec<Rostered> = Vec::new();
    let mut i: usize = 0;
    while i < peers.len()
        invariant
            i <= peers@.len(),
            roster@.len() == i,
            forall|j: int|
                0 <= j < i ==> (#[trigger] roster@[j]).certificate@ == peers@[j].certificate@
                    && roster@[j].anchor == peers@[j].anchor,
        decreases peers@.len() - i,
    {
        roster.push(
            Rostered {
                certificate: copy_bytes(peers[i].certificate.as_slice()),
                anchor: peers[i].anchor,
            },
        );
        i += 1;
    }
    assert(Seq::new(roster@.len(), |i: int| (roster@[i].certificate@, roster@[i].anchor))
        =~= roster_entries(peers@));
    roster
}

/// The certificates mutual authentication accepts: the peers', then the enrollment roots.
pub open spec fn accepted(peers: Seq<FleetPeer>, roots: Seq<Vec<u8>>) -> Seq<Seq<u8>> {
    Seq::new(peers.len(), |i: int| peers[i].certificate@) + Seq::new(
        roots.len(),
        |i: int| roots[i]@,
    )
}

/// The certificates mutual authentication accepts.
pub fn allowed_certificates(peers: &Vec<FleetPeer>, roots: &Vec<Vec<u8>>) -> (allowed: Vec<
    Vec<u8>,
>)
    ensures
        Seq::new(allowed@.len(), |i: int| allowed@[i]@) == accepted(peers@, roots@),
{
    let mut allowed: Vec<Vec<u8>> = Vec::new();
    let mut i: usize = 0;
    while i < peers.len()
        invariant
            i <= peers@.len(),
            allowed@.len() == i,
            forall|j: int| 0 <= j < i ==> (#[trigger] allowed@[j])@ == peers@[j].certificate@,
        decreases peers@.len() - i,
    {
        allowed.push(copy_bytes(peers[i].certificate.as_slice()));
        i += 1;
    }
    let ghost count = peers@.len();
    let mut k: usize = 0;
    while k < roots.len()
        invariant
            k <= roots@.len(),
            count == peers@.len(),
            allowed@.len() == count + k,
            forall|j: int| 0 <= j < count ==> (#[trigger] allowed@[j])@ == peers@[j].certificate@,
            forall|j: int|
                count <= j < count + k ==> (#[trigger] allowed@[j])@ == roots@[j - count]@,
        decreases roots@.len() - k,
    {
        allowed.push(copy_bytes(roots[k].as_slice()));
        k += 1;
    }
    assert(Seq::new(allowed@.len(), |i: int| allowed@[i]@) =~= accepted(peers@, roots@));
    allowed
}

/// What a probe-plane message says besides its sender and gossip.
#[derive(Clone, Copy, Debug, PartialEq, Eq, Structural)]
pub enum ProbeKind {
    /// A direct probe, with the configuration version its sender knows.
    Ping { configuration_version: u64 },
    /// An acknowledgement.
    Ack,
    /// A relay's answer about a target.
    IndirectAck { target: HostId, nonce: u64 },
}

/// A probe-plane message that announces its sender.
#[derive(Debug)]
pub struct ProbeHeard {
    pub kind: ProbeKind,
    pub from: HostId,
    pub boot_nonce: Option<u64>,
    pub gossip: Vec<(HostId, MemberState)>,
}

/// What the identity a message announces comes to.
#[derive(Debug)]
pub struct ProbeIdentified {
    /// The beliefs a restart folds.
    pub folds: Vec<Fold>,
    /// Whether the message is heard out and acknowledged.
    pub heard: bool,
}

/// The anchor, boot and id of a message, and the ids they derive to.
pub open spec fn identity_of(
    anchor: HostId,
    boot_nonce: u64,
    from: HostId,
    derived: HostId,
    seed: HostId,
) -> AnnouncedIdentity {
    AnnouncedIdentity { anchor, boot_nonce, announced: from, derived, seed }
}

/// Whether `after` and the rest are what hearing a prober makes of the members.
pub open spec fn identifies(
    before: Members,
    anchor: HostId,
    heard: ProbeHeard,
    derived: HostId,
    seed: HostId,
    deaf_to: Set<u64>,
    beliefs: Map<u64, MemberState>,
    identified: ProbeIdentified,
    after: Members,
) -> bool {
    match heard.boot_nonce {
        None => {
            &&& after == before
            &&& identified.folds@ == Seq::<Fold>::empty()
            &&& !identified.heard
        },
        Some(boot_nonce) => {
            let identity = identity_of(anchor, boot_nonce, heard.from, derived, seed);
            let outcome = classification(lookup(before.learned@, anchor.0), identity);
            &&& identified.heard == (outcome != LearnedOutcome::Forged && !(heard.kind is Ping
                && deaf_to.contains(heard.from.0)))
            &&& identified.folds@ == (match outcome {
                LearnedOutcome::Restarted { old: previous } => restart_folds(
                    previous,
                    lookup(beliefs, previous.0),
                    heard.from,
                ),
                _ => Seq::<Fold>::empty(),
            })
            &&& after.local == before.local
            &&& after.local_seed == before.local_seed
            &&& match outcome {
                LearnedOutcome::Forged => {
                    &&& after.learned@ == before.learned@
                    &&& after.authenticated@ == before.authenticated@
                    &&& after.node_regions@ == before.node_regions@
                    &&& after.forged == crate::arith::clamp_u64(
                        before.forged + 1,
                    )
                },
                LearnedOutcome::Current => {
                    &&& after.learned@ == before.learned@
                    &&& after.authenticated@ == before.authenticated@.insert(
                        heard.from.0,
                    )
                    &&& after.node_regions@ == before.node_regions@
                    &&& after.forged == before.forged
                },
                LearnedOutcome::Restarted { old: previous } => {
                    &&& after.learned@ == before.learned@.insert(
                        anchor.0,
                        LearnedMember { boot_nonce, host: heard.from, seed },
                    )
                    &&& after.authenticated@ == before.authenticated@.remove(
                        previous.0,
                    ).insert(heard.from.0)
                    &&& after.node_regions@ == (match lookup(
                        before.node_regions@,
                        previous.0,
                    ) {
                        Some(region) => before.node_regions@.insert(
                            heard.from.0,
                            region,
                        ),
                        None => before.node_regions@,
                    })
                    &&& after.forged == before.forged
                },
            }
        },
    }
}

/// The identity a message announces, learned before anything else it says. A message without a boot
/// changes nothing, a forged one is only counted, and neither is heard out; nor is a direct probe
/// of a peer this node is deaf to.
pub fn identify_prober(
    members: &mut Members,
    anchor: HostId,
    heard: &ProbeHeard,
    derived: HostId,
    seed: HostId,
    deaf_to: &BTreeSet<u64>,
    beliefs: &BTreeMap<u64, MemberState>,
) -> (identified: ProbeIdentified)
    ensures
        identifies(
            *old(members),
            anchor,
            *heard,
            derived,
            seed,
            deaf_to@,
            beliefs@,
            identified,
            *final(members),
        ),
{
    let boot_nonce: u64 = match heard.boot_nonce {
        Some(boot_nonce) => boot_nonce,
        None => {
            return ProbeIdentified { folds: Vec::new(), heard: false };
        },
    };
    let identity = AnnouncedIdentity { anchor, boot_nonce, announced: heard.from, derived, seed };
    let (outcome, folds) = members.learn_member(&identity, beliefs);
    let forged = match outcome {
        LearnedOutcome::Forged => true,
        _ => false,
    };
    let direct = match heard.kind {
        ProbeKind::Ping { .. } => true,
        _ => false,
    };
    let heard_out = !forged && !(direct && deaf_to.contains(&heard.from.0));
    ProbeIdentified { folds, heard: heard_out }
}

/// What an identified message comes to.
#[derive(Debug)]
pub struct ProbeAnswer {
    /// What its gossip folds.
    pub folds: Vec<GossipFold>,
    /// A relay's answer that this node does not probe for: refused, and counted.
    pub refused: bool,
    /// The version a direct probe announced: this node's answer feeds its sender's lease, and is
    /// noted with that version.
    pub lease: Option<u64>,
}

/// Whether `answer` and `after` are what a heard message comes to.
pub open spec fn answers(
    members: Members,
    before: IndirectFacts,
    heard: ProbeHeard,
    beliefs: Map<u64, MemberState>,
    contact: bool,
    answer: ProbeAnswer,
    after: IndirectFacts,
) -> bool {
    &&& answer.folds@ == gossip_effect(
        members.local,
        heard.from,
        beliefs,
        members.authenticated@,
        heard.gossip@,
    )
    &&& answer.lease == (match heard.kind {
        ProbeKind::Ping { configuration_version } => Some(configuration_version),
        _ => None,
    })
    &&& match heard.kind {
        ProbeKind::IndirectAck { target, nonce } => {
            &&& answer.refused == !contact
            &&& after == (if contact {
                IndirectFacts {
                    acks: before.acks.insert(
                        target.0,
                        if before.acks.contains_key(target.0) {
                            crate::arith::larger(
                                before.acks[target.0] as int,
                                nonce as int,
                            ) as u64
                        } else {
                            nonce
                        },
                    ),
                    ..before
                }
            } else {
                before
            })
        },
        _ => !answer.refused && after == before,
    }
}

/// Hears out a message whose sender was identified: its gossip is folded, a relay's answer is kept
/// for the target's probe task, and a direct probe's announced version is noted.
pub fn answer_prober(
    members: &Members,
    indirect: &mut IndirectProbes,
    heard: &ProbeHeard,
    beliefs: &BTreeMap<u64, MemberState>,
    contact: bool,
) -> (answer: ProbeAnswer)
    ensures
        answers(
            *members,
            old(indirect)@,
            *heard,
            beliefs@,
            contact,
            answer,
            final(indirect)@,
        ),
{
    let folds = receive_probe_gossip(
        members.local,
        heard.from,
        beliefs,
        &members.authenticated,
        &heard.gossip,
    );
    match heard.kind {
        ProbeKind::IndirectAck { target, nonce } => {
            let kept = indirect.receive_indirect_ack(target, nonce, contact);
            ProbeAnswer { folds, refused: !kept, lease: None }
        },
        ProbeKind::Ping { configuration_version } => ProbeAnswer {
            folds,
            refused: false,
            lease: Some(configuration_version),
        },
        ProbeKind::Ack => ProbeAnswer { folds, refused: false, lease: None },
    }
}

/// A direct probe, as it is sent: who probes, the probe's nonce, and the boot and configuration
/// version the prober announces with it.
#[derive(Clone, Copy, Debug, PartialEq, Eq, Structural)]
pub struct ProbePing {
    pub from: HostId,
    pub nonce: u64,
    pub boot_nonce: u64,
    pub configuration_version: u64,
}

/// The ping a node sends.
pub open spec fn ping_of(members: Members, nonce: u64, boot_nonce: u64, version: u64, ping: ProbePing) -> bool {
    &&& ping.from == members.local
    &&& ping.nonce == nonce
    &&& ping.boot_nonce == boot_nonce
    &&& ping.configuration_version == version
}

/// A direct probe of this node: under its own id, with its own boot and the newest configuration
/// version it knows, so that a holder learns at once what a retired owner has seen.
pub fn ping(members: &Members, nonce: u64, boot_nonce: u64, version: u64) -> (ping: ProbePing)
    ensures
        ping_of(*members, nonce, boot_nonce, version, ping),
{
    ProbePing { from: members.local, nonce, boot_nonce, configuration_version: version }
}

/// An acknowledgement, as it is sent: who answers, the nonce of the message answered, and the boot
/// and configuration version the answerer announces with it.
#[derive(Clone, Copy, Debug, PartialEq, Eq, Structural)]
pub struct ProbeAck {
    pub from: HostId,
    pub nonce: u64,
    pub boot_nonce: u64,
    pub configuration_version: u64,
}

/// The acknowledgement a node answers with.
pub open spec fn ack_of(members: Members, nonce: u64, boot_nonce: u64, version: u64, ack: ProbeAck) -> bool {
    &&& ack.from == members.local
    &&& ack.nonce == nonce
    &&& ack.boot_nonce == boot_nonce
    &&& ack.configuration_version == version
}

/// The acknowledgement of a message that was heard out: under this node's own id, echoing the
/// message's nonce (zero if it has none), so that only the probe it answers counts it, with this
/// node's own boot, so that the prober validates this node in turn, and the newest configuration
/// version it knows.
pub fn acknowledgement(members: &Members, nonce: u64, boot_nonce: u64, version: u64) -> (ack:
    ProbeAck)
    ensures
        ack_of(*members, nonce, boot_nonce, version, ack),
{
    ProbeAck { from: members.local, nonce, boot_nonce, configuration_version: version }
}

/// How one probe came back.
#[derive(Clone, Copy, Debug, PartialEq, Eq, Structural)]
pub enum Probed {
    /// Acknowledged by a sender, whose identity came to an outcome, at the version it announced;
    /// and whether the session came back.
    Acked { from: HostId, identity: LearnedOutcome, version: u64, returned: bool },
    /// Unanswered within its budget; and whether the session came back.
    TimedOut { returned: bool },
    /// The session cannot carry another exchange.
    Broken,
    /// The runtime refused the probe.
    Refused,
}

/// What a probe's outcome calls for.
#[derive(Clone, Copy, Debug, PartialEq, Eq, Structural)]
pub enum ProbeEffect {
    /// Nothing.
    Nothing,
    /// The peer is credited: its suspicion clears, its path is sampled, the relays' asks about it
    /// are answered, the lease is confirmed, and superseded when the peer knows a newer version.
    /// Its gossip is folded.
    Credit { supersede: Option<u64> },
    /// The session's other end is another member: only its gossip is folded.
    Gossip,
    /// The indirect stage begins.
    AskRelays,
    /// The session was released on a fault, which is counted.
    Count(Refused),
}

/// How a probe task starts its cycle.
#[derive(Clone, Copy, Debug, PartialEq, Eq, Structural)]
pub enum CycleStart {
    /// The peer is retired: the task idles a beat. Whether a dial was dropped with it.
    Idle { stale_dial: bool },
    /// The peer is probed; whether the detector is first realigned with the shared belief.
    Probe { realign: bool },
}

/// Where a probe task stands in its period.
#[derive(Clone, Copy, Debug, PartialEq, Eq, Structural)]
pub enum ProbePhase {
    /// Follow the peer to the id it now holds.
    Follow,
    /// Idle while the peer is retired, or resume.
    Resume,
    /// Bring the session up.
    Establish,
    /// Carry the indirect traffic that waits for the peer.
    Carry,
    /// Probe the peer.
    Probe,
    /// Fold the detector's view, and let a retired peer go.
    Fold,
    /// Wait for the next period: a plain beat when idle, the probe's own period otherwise.
    Rest { idle: bool },
}

impl ProbePhase {
    /// The phase that follows, with the peer in contact or not and its session up or not.
    pub open spec fn after(self, contact: bool, up: bool) -> ProbePhase {
        match self {
            ProbePhase::Follow => ProbePhase::Resume,
            ProbePhase::Resume => if contact {
                ProbePhase::Establish
            } else {
                ProbePhase::Rest { idle: true }
            },
            ProbePhase::Establish => if up {
                ProbePhase::Carry
            } else {
                ProbePhase::Fold
            },
            ProbePhase::Carry => if up {
                ProbePhase::Probe
            } else {
                ProbePhase::Fold
            },
            ProbePhase::Probe => ProbePhase::Fold,
            ProbePhase::Fold => ProbePhase::Rest { idle: false },
            ProbePhase::Rest { .. } => ProbePhase::Follow,
        }
    }

    /// The phase that follows. A retired peer only rests; over a session that is up the waiting
    /// indirect traffic goes out first and the direct probe after it, if the session still stands.
    pub fn next(self, contact: bool, up: bool) -> (next: ProbePhase)
        ensures
            next == self.after(contact, up),
    {
        match self {
            ProbePhase::Follow => ProbePhase::Resume,
            ProbePhase::Resume => if contact {
                ProbePhase::Establish
            } else {
                ProbePhase::Rest { idle: true }
            },
            ProbePhase::Establish => if up {
                ProbePhase::Carry
            } else {
                ProbePhase::Fold
            },
            ProbePhase::Carry => if up {
                ProbePhase::Probe
            } else {
                ProbePhase::Fold
            },
            ProbePhase::Probe => ProbePhase::Fold,
            ProbePhase::Fold => ProbePhase::Rest { idle: false },
            ProbePhase::Rest { .. } => ProbePhase::Follow,
        }
    }
}

/// A peer is probed only over a session that stands, after the indirect traffic waiting for it was
/// carried, and only while it is in contact: a retired peer is neither dialed nor probed.
pub proof fn a_probe_follows_the_waiting_traffic(phase: ProbePhase, contact: bool, up: bool)
    ensures
        phase.after(contact, up) == ProbePhase::Probe ==> phase == ProbePhase::Carry && up,
        phase.after(contact, up) == ProbePhase::Carry ==> phase == ProbePhase::Establish && up,
        phase.after(contact, up) == ProbePhase::Establish ==> phase == ProbePhase::Resume && contact,
{
}

/// The task that probes one peer.
#[derive(Clone, Copy, Debug, PartialEq, Eq, Structural)]
pub struct ProbeTask {
    pub peer: ProbedPeer,
    /// The probes missed in a row.
    pub misses: u32,
    /// The last probe's nonce.
    pub nonce: u64,
    /// Whether the last cycle idled.
    pub idle: bool,
    /// Whether the direct session was recorded as formed.
    pub meshed: bool,
    pub dialed: Dialed,
}

impl ProbeTask {
    /// The task as it starts.
    pub open spec fn begun(anchor: HostId, seed: HostId, dialed: bool) -> ProbeTask {
        ProbeTask {
            peer: ProbedPeer { anchor, host: seed },
            misses: 0,
            nonce: 0,
            idle: false,
            meshed: false,
            dialed: if dialed {
                Dialed::Dialing
            } else {
                Dialed::Absent
            },
        }
    }

    /// A task for a peer, known by the id its boots start from, whose first dial was made.
    pub fn start(anchor: HostId, seed: HostId, dialed: bool) -> (task: ProbeTask)
        ensures
            task == Self::begun(anchor, seed, dialed),
    {
        ProbeTask {
            peer: ProbedPeer { anchor, host: seed },
            misses: 0,
            nonce: 0,
            idle: false,
            meshed: false,
            dialed: if dialed {
                Dialed::Dialing
            } else {
                Dialed::Absent
            },
        }
    }

    /// The peer's timing law.
    pub fn timing(&self) -> (timing: ProbeTiming)
        ensures
            timing.consecutive_misses == self.misses,
    {
        ProbeTiming { consecutive_misses: self.misses }
    }

    /// Whether `death` and `after` are what following a peer to its current id makes of this.
    pub open spec fn follows(self, current: Option<HostId>, belief: Option<MemberState>, death: Option<Fold>, after: ProbeTask) -> bool {
        if current matches Some(current) && current != self.peer.host {
            &&& after == (ProbeTask {
                peer: ProbedPeer { host: current->0, ..self.peer },
                misses: 0,
                ..self
            })
            &&& death == Some(
                Fold {
                    subject: self.peer.host,
                    state: MemberState {
                        liveness: Liveness::Dead,
                        incarnation: incarnation_of(belief),
                    },
                },
            )
        } else {
            after == self && death is None
        }
    }

    /// Follows the peer to the id it now holds. When it moved, its previous id is folded dead, and
    /// the timing law starts over for what is a new member on the same wire.
    pub fn follow_current_id(
        &mut self,
        current: Option<HostId>,
        belief: Option<MemberState>,
    ) -> (death: Option<Fold>)
        ensures
            old(self).follows(current, belief, death, *final(self)),
    {
        let mut peer = self.peer;
        let death = peer.follow_current_id(current, belief);
        self.peer = peer;
        if death.is_some() {
            self.misses = 0;
        }
        death
    }

    /// A task with everything let go.
    pub open spec fn let_go(self) -> ProbeTask {
        ProbeTask { meshed: false, dialed: Dialed::Absent, ..self }
    }

    /// Whether `start` and `after` are how a cycle starts.
    pub open spec fn resumes(self, contact: bool, start: CycleStart, after: ProbeTask) -> bool {
        if contact {
            &&& after == (ProbeTask { idle: false, ..self })
            &&& start == CycleStart::Probe { realign: self.idle }
        } else {
            &&& after == (ProbeTask { idle: true, ..self.let_go() })
            &&& start == CycleStart::Idle { stale_dial: self.dialed == Dialed::Dialing }
        }
    }

    /// Starts a cycle: a peer without direct contact is let go and idled; on the resume, the
    /// detector is realigned.
    pub fn resume_if_in_mesh(&mut self, contact: bool) -> (start: CycleStart)
        ensures
            old(self).resumes(contact, start, *final(self)),
    {
        if contact {
            let realign = self.idle;
            self.idle = false;
            CycleStart::Probe { realign }
        } else {
            self.idle = true;
            let stale_dial = self.release_probe_session();
            CycleStart::Idle { stale_dial }
        }
    }

    /// Lets go of the session, the mesh record and any dial: whether a dial still in its handshake
    /// was dropped.
    pub fn release_probe_session(&mut self) -> (stale_dial: bool)
        ensures
            *final(self) == old(self).let_go(),
            stale_dial == (old(self).dialed == Dialed::Dialing),
    {
        let stale = self.dialed == Dialed::Dialing;
        self.dialed = Dialed::Absent;
        self.meshed = false;
        stale
    }

    /// Whether `formed` and `after` are what a dial step leaves.
    pub open spec fn dials(self, dialed: Dialed, formed: bool, after: ProbeTask) -> bool {
        &&& formed == (dialed == Dialed::Up && !self.meshed)
        &&& after == (ProbeTask {
            dialed,
            meshed: self.meshed || dialed == Dialed::Up,
            ..self
        })
    }

    /// Takes up what the dial step left: whether the direct session has just formed, and is to be
    /// recorded.
    pub fn dialed(&mut self, dialed: Dialed) -> (formed: bool)
        ensures
            old(self).dials(dialed, formed, *final(self)),
    {
        self.dialed = dialed;
        let formed = dialed == Dialed::Up && !self.meshed;
        if formed {
            self.meshed = true;
        }
        formed
    }

    /// Whether `nonce` and `after` are the next probe of this.
    pub open spec fn probes(self, nonce: Option<u64>, after: ProbeTask) -> bool {
        if self.dialed == Dialed::Up {
            &&& nonce == Some((self.nonce + 1) as u64)
            &&& after == (ProbeTask { nonce: nonce->0, ..self })
        } else {
            after == self && nonce is None
        }
    }

    /// The nonce of the next probe, above every earlier one, if the session is up to carry it.
    pub fn next_probe(&mut self) -> (nonce: Option<u64>)
        requires
            old(self).nonce < u64::MAX,
        ensures
            old(self).probes(nonce, *final(self)),
    {
        if self.dialed == Dialed::Up {
            self.nonce = self.nonce + 1;
            Some(self.nonce)
        } else {
            None
        }
    }

    /// The session after a probe.
    pub open spec fn session_after(returned: bool) -> Dialed {
        if returned {
            Dialed::Up
        } else {
            Dialed::Absent
        }
    }

    /// What a probe's outcome leaves of a task, and calls for.
    pub open spec fn after_probe(self, probed: Probed, installed: u64) -> (ProbeTask, ProbeEffect) {
        match probed {
            Probed::Acked { from, identity, version, returned } => if identity
                == LearnedOutcome::Forged {
                (ProbeTask { dialed: Dialed::Absent, ..self }, ProbeEffect::Nothing)
            } else if from == self.peer.host {
                (
                    ProbeTask { misses: 0, dialed: Self::session_after(returned), ..self },
                    ProbeEffect::Credit {
                        supersede: if version > installed {
                            Some(version)
                        } else {
                            None
                        },
                    },
                )
            } else {
                (
                    ProbeTask { dialed: Self::session_after(returned), ..self },
                    ProbeEffect::Gossip,
                )
            },
            Probed::TimedOut { returned } => (
                ProbeTask {
                    misses: crate::arith::clamp_u32(self.misses + 1),
                    dialed: Self::session_after(returned),
                    ..self
                },
                ProbeEffect::AskRelays,
            ),
            Probed::Broken => (
                ProbeTask {
                    misses: crate::arith::clamp_u32(self.misses + 1),
                    dialed: Dialed::Absent,
                    ..self
                },
                ProbeEffect::Count(Refused::ProbeBroken),
            ),
            Probed::Refused => (
                ProbeTask { dialed: Dialed::Absent, ..self },
                ProbeEffect::Nothing,
            ),
        }
    }

    /// Applies a probe's outcome. An acknowledgement of the peer itself resets the misses; a
    /// timeout is one more miss and keeps the session; a broken session is released.
    pub fn apply_probe(
        &mut self,
        probed: Probed,
        installed: u64,
        windows: &mut ProbeWindows,
    ) -> (effect: ProbeEffect)
        ensures
            (*final(self), effect) == old(self).after_probe(probed, installed),
            *final(windows) == (if effect is Credit {
                ProbeWindows {
                    acknowledged: crate::arith::clamp_u64(old(windows).acknowledged + 1),
                    ..*old(windows)
                }
            } else {
                *old(windows)
            }),
    {
        match probed {
            Probed::Acked { from, identity, version, returned } => {
                if identity == LearnedOutcome::Forged {
                    self.dialed = Dialed::Absent;
                    return ProbeEffect::Nothing;
                }
                self.dialed = if returned {
                    Dialed::Up
                } else {
                    Dialed::Absent
                };
                if from == self.peer.host {
                    self.misses = 0;
                    windows.acknowledged = windows.acknowledged.saturating_add(1);
                    let supersede = if version > installed {
                        Some(version)
                    } else {
                        None
                    };
                    ProbeEffect::Credit { supersede }
                } else {
                    ProbeEffect::Gossip
                }
            },
            Probed::TimedOut { returned } => {
                self.misses = self.misses.saturating_add(1);
                self.dialed = if returned {
                    Dialed::Up
                } else {
                    Dialed::Absent
                };
                ProbeEffect::AskRelays
            },
            Probed::Broken => {
                self.misses = self.misses.saturating_add(1);
                self.dialed = Dialed::Absent;
                ProbeEffect::Count(Refused::ProbeBroken)
            },
            Probed::Refused => {
                self.dialed = Dialed::Absent;
                ProbeEffect::Nothing
            },
        }
    }

    /// Whether `counted` and `after` are what a delivery leaves.
    pub open spec fn delivers(self, delivery: Delivery, counted: Option<Refused>, after: ProbeTask) -> bool {
        match delivery {
            Delivery::Delivered { returned } => {
                &&& counted is None
                &&& after == (ProbeTask {
                    dialed: Self::session_after(returned),
                    ..self
                })
            },
            Delivery::Undelivered { returned } => {
                &&& counted == Some(Refused::IndirectUndelivered)
                &&& after == (ProbeTask {
                    dialed: Self::session_after(returned),
                    ..self
                })
            },
            Delivery::Broken => {
                &&& counted == Some(Refused::ProbeBroken)
                &&& after == (ProbeTask { dialed: Dialed::Absent, ..self })
            },
        }
    }

    /// One delivery of indirect-probe traffic: an undelivered message is counted and dropped, and
    /// a broken session is counted and released.
    pub fn delivered(&mut self, delivery: Delivery) -> (counted: Option<Refused>)
        ensures
            old(self).delivers(delivery, counted, *final(self)),
    {
        match delivery {
            Delivery::Delivered { returned } => {
                self.dialed = if returned {
                    Dialed::Up
                } else {
                    Dialed::Absent
                };
                None
            },
            Delivery::Undelivered { returned } => {
                self.dialed = if returned {
                    Dialed::Up
                } else {
                    Dialed::Absent
                };
                Some(Refused::IndirectUndelivered)
            },
            Delivery::Broken => {
                self.dialed = Dialed::Absent;
                Some(Refused::ProbeBroken)
            },
        }
    }

    /// Whether `stale_dial` and `after` are how a cycle ends.
    pub open spec fn folds(self, contact: bool, stale_dial: bool, after: ProbeTask) -> bool {
        if contact {
            after == self && !stale_dial
        } else {
            after == self.let_go() && stale_dial == (self.dialed
                == Dialed::Dialing)
        }
    }

    /// Ends a cycle, once the detector's view was folded: a peer that lost direct contact is let
    /// go, and whether a dial was dropped with it.
    pub fn fold_peer_state(&mut self, contact: bool) -> (stale_dial: bool)
        ensures
            old(self).folds(contact, stale_dial, *final(self)),
    {
        if contact {
            false
        } else {
            self.release_probe_session()
        }
    }
}

/// How a delivery ended.
#[derive(Clone, Copy, Debug, PartialEq, Eq, Structural)]
pub enum Delivery {
    Delivered { returned: bool },
    Undelivered { returned: bool },
    Broken,
}

/// A missed probe decides nothing: a timeout whose session came back keeps the session and the peer,
/// and only counts the miss.
pub proof fn a_timeout_keeps_the_session(task: ProbeTask, installed: u64)
    ensures
        ({
            let (after, effect) = task.after_probe(Probed::TimedOut { returned: true }, installed);
            &&& after.dialed == Dialed::Up
            &&& after.peer == task.peer
            &&& after.meshed == task.meshed
            &&& effect == ProbeEffect::AskRelays
        }),
{
}

/// Only the member a task probes is credited: an acknowledgement from any other identity, or a
/// forged one, clears no suspicion.
pub proof fn only_the_probed_member_is_credited(task: ProbeTask, probed: Probed, installed: u64)
    requires
        ({
            let (after, effect) = task.after_probe(probed, installed);
            effect is Credit
        }),
    ensures
        probed matches Probed::Acked { from, identity, version, returned } && from
            == task.peer.host && identity != LearnedOutcome::Forged,
{
}

/// A fleet boots wherever there is someone to reach, a pinned peer or an enrollment root; each step
/// that is done leads to the next, in order, and a step that is refused ends the boot with its own
/// refusal.
pub proof fn a_fleet_boots_step_by_step(peers: usize, roots: usize, boot: FleetBoot, refusal: Refusal)
    ensures
        (FleetBoot::starting(peers, roots) == FleetBoot::KeepIdentity) == (peers > 0 || roots > 0),
        FleetBoot::KeepIdentity.after(BootOutcome::Done) == FleetBoot::Enroll,
        FleetBoot::Enroll.after(BootOutcome::Done) == FleetBoot::KeepDriver,
        FleetBoot::KeepDriver.after(BootOutcome::Done) == FleetBoot::Bind,
        FleetBoot::Bind.after(BootOutcome::Done) == FleetBoot::Demultiplex,
        FleetBoot::Demultiplex.after(BootOutcome::Done) == FleetBoot::Run,
        !(boot is Run) && !(boot is Ended) ==> {
            &&& boot.after(BootOutcome::NoState) == FleetBoot::Ended(None)
            &&& boot.after(BootOutcome::Enrollment(refusal)) == FleetBoot::Ended(
                Some(BootRefusal::Enrollment(refusal)),
            )
            &&& boot.after(BootOutcome::Refused) == FleetBoot::Ended(
                Some(
                    BootRefusal::Fleet(
                        if boot is KeepDriver {
                            Refused::LoopSpawn
                        } else {
                            Refused::Bind
                        },
                    ),
                ),
            )
        },
{
}

/// A connection is accepted from every pinned certificate and every enrollment root, and from nobody
/// else; and a pinned certificate stands for its own peer's anchor.
pub proof fn the_pinned_and_the_roots_are_accepted(
    peers: Seq<FleetPeer>,
    roots: Seq<Vec<u8>>,
    certificate: Seq<u8>,
    at: int,
)
    ensures
        accepted(peers, roots).contains(certificate) <==> (exists|i: int|
            0 <= i < peers.len() && (#[trigger] peers[i]).certificate@ == certificate) || (exists|
            i: int,
        |
            0 <= i < roots.len() && (#[trigger] roots[i])@ == certificate),
        roster_entries(peers).len() == peers.len(),
        0 <= at < peers.len() ==> roster_entries(peers)[at] == (
            peers[at].certificate@,
            peers[at].anchor,
        ),
{
    let all = accepted(peers, roots);
    if all.contains(certificate) {
        let k = choose|k: int| 0 <= k < all.len() && all[k] == certificate;
        if k < peers.len() {
            assert(peers[k].certificate@ == certificate);
        } else {
            assert(roots[k - peers.len()]@ == certificate);
        }
    }
    if exists|i: int| 0 <= i < peers.len() && (#[trigger] peers[i]).certificate@ == certificate {
        let i = choose|i: int|
            0 <= i < peers.len() && (#[trigger] peers[i]).certificate@ == certificate;
        assert(all[i] == certificate);
    }
    if exists|i: int| 0 <= i < roots.len() && (#[trigger] roots[i])@ == certificate {
        let i = choose|i: int| 0 <= i < roots.len() && (#[trigger] roots[i])@ == certificate;
        assert(all[peers.len() + i] == certificate);
    }
}

/// A prober is heard under the identity its certificate's anchor and its boot derive, and under no
/// other: a message without a boot, or with a forged identity, is not heard and teaches nothing, and a
/// ping from a peer this node is deaf to is not heard, though it is learned.
pub proof fn a_prober_is_heard_as_itself(
    before: Members,
    anchor: HostId,
    heard: ProbeHeard,
    derived: HostId,
    seed: HostId,
    deaf_to: Set<u64>,
    beliefs: Map<u64, MemberState>,
    identified: ProbeIdentified,
    after: Members,
)
    requires
        identifies(before, anchor, heard, derived, seed, deaf_to, beliefs, identified, after),
    ensures
        identified.heard <==> heard.boot_nonce is Some && heard.from == derived && !(heard.kind
            is Ping && deaf_to.contains(heard.from.0)),
        heard.boot_nonce is None ==> after == before && identified.folds@.len() == 0,
        heard.boot_nonce is Some && heard.from != derived ==> {
            &&& after.learned@ == before.learned@
            &&& after.authenticated@ == before.authenticated@
            &&& after.node_regions@ == before.node_regions@
            &&& identified.folds@.len() == 0
            &&& before.forged < u64::MAX ==> after.forged == before.forged + 1
        },
        heard.boot_nonce is Some && heard.from == derived ==> {
            &&& after.authenticated@.contains(heard.from.0)
            &&& after.learned@.contains_key(anchor.0)
            &&& after.learned@[anchor.0].boot_nonce == (heard.boot_nonce->0)
            &&& after.forged == before.forged
            &&& after.local == before.local
        },
        heard.boot_nonce is Some && heard.from == derived && (before.learned@.contains_key(anchor.0)
            && before.learned@[anchor.0].boot_nonce == (heard.boot_nonce->0))
            ==> identified.folds@.len() == 0 && after.learned@ == before.learned@,
        heard.boot_nonce is Some && heard.from == derived && !(before.learned@.contains_key(anchor.0)
            && before.learned@[anchor.0].boot_nonce == (heard.boot_nonce->0)) ==> {
            let previous = if before.learned@.contains_key(anchor.0) {
                before.learned@[anchor.0].host
            } else {
                seed
            };
            &&& identified.folds@.len() == 2
            &&& identified.folds@[0].subject == previous
            &&& identified.folds@[0].state.liveness == Liveness::Dead
            &&& identified.folds@[1].subject == heard.from
            &&& identified.folds@[1].state.liveness == Liveness::Alive
            &&& after.learned@[anchor.0].host == heard.from
            &&& after.learned@[anchor.0].seed == seed
            &&& previous != heard.from ==> !after.authenticated@.contains(previous.0)
        },
{
}

/// A ping renews the lease it speaks of, and nothing else does; a relay's answer is kept while the
/// sender is in contact and refused otherwise; and no message's gossip is lost.
pub proof fn a_ping_renews_the_lease(
    members: Members,
    before: IndirectFacts,
    heard: ProbeHeard,
    beliefs: Map<u64, MemberState>,
    contact: bool,
    answer: ProbeAnswer,
    after: IndirectFacts,
    at: int,
)
    requires
        answers(members, before, heard, beliefs, contact, answer, after),
        0 <= at < heard.gossip@.len(),
    ensures
        match heard.kind {
            ProbeKind::Ping { configuration_version } => answer.lease == Some(configuration_version)
                && !answer.refused && after == before,
            ProbeKind::Ack => answer.lease is None && !answer.refused && after == before,
            ProbeKind::IndirectAck { target, nonce } => {
                &&& answer.lease is None
                &&& answer.refused == !contact
                &&& !contact ==> after == before
                &&& contact ==> after.acks.contains_key(target.0) && after.acks[target.0] >= nonce
                &&& contact && !before.acks.contains_key(target.0) ==> after.acks[target.0] == nonce
                &&& after.asks == before.asks && after.results == before.results && after.outgoing
                    == before.outgoing
            },
        },
        heard.gossip@[at].0 == members.local ==> answer.folds@.contains(
            GossipFold::Own(heard.gossip@[at].1),
        ),
        heard.gossip@[at].0 != members.local && (beliefs.contains_key(heard.gossip@[at].0.0)
            || heard.gossip@[at].0 == heard.from) && (heard.gossip@[at].1.liveness != Liveness::Alive
            || members.authenticated@.contains(heard.gossip@[at].0.0)) ==> answer.folds@.contains(
            GossipFold::Member {
                fold: Fold { subject: heard.gossip@[at].0, state: heard.gossip@[at].1 },
                of_sender: heard.gossip@[at].0 == heard.from,
            },
        ),
{
    crate::fleet::membership::no_admissible_report_is_lost(
        members.local,
        heard.from,
        beliefs,
        members.authenticated@,
        heard.gossip@,
        at,
    );
}

/// A probe is the node's own, and its answer too: each speaks under its sender's id and boot, echoes
/// the probe's nonce, and announces its sender's configuration.
pub proof fn a_probe_and_its_answer_agree(
    members: Members,
    nonce: u64,
    boot_nonce: u64,
    version: u64,
    ping: ProbePing,
    ack: ProbeAck,
)
    requires
        ping_of(members, nonce, boot_nonce, version, ping),
        ack_of(members, ping.nonce, boot_nonce, version, ack),
    ensures
        ping.from == members.local && ack.from == members.local,
        ping.nonce == nonce && ack.nonce == nonce,
        ping.boot_nonce == boot_nonce && ack.boot_nonce == boot_nonce,
        ping.configuration_version == version && ack.configuration_version == version,
{
}

/// Silence is counted and an answer clears it: a probe the member itself answered starts the count
/// over and credits it, with a newer configuration's version if it announced one; a timeout and a
/// broken session add one miss each; nothing else touches the count.
pub proof fn silence_is_counted(task: ProbeTask, probed: Probed, installed: u64)
    requires
        task.misses < u32::MAX,
    ensures
        ({
            let (after, effect) = task.after_probe(probed, installed);
            &&& after.peer == task.peer && after.nonce == task.nonce && after.idle == task.idle
                && after.meshed == task.meshed
            &&& match probed {
                Probed::Acked { from, identity, version, returned } => {
                    let forged = identity == LearnedOutcome::Forged;
                    let own = from == task.peer.host;
                    &&& !forged && own ==> after.misses == 0 && (effect
                        matches ProbeEffect::Credit { supersede } && (supersede is Some <==> version
                        > installed) && (supersede matches Some(newer) ==> newer == version))
                    &&& forged || !own ==> after.misses == task.misses && !(effect is Credit)
                    &&& !forged && !own ==> effect is Gossip
                    &&& forged ==> after.dialed == Dialed::Absent
                    &&& !forged ==> (after.dialed == Dialed::Up) == returned
                },
                Probed::TimedOut { returned } => {
                    &&& after.misses == task.misses + 1
                    &&& effect is AskRelays
                    &&& (after.dialed == Dialed::Up) == returned
                },
                Probed::Broken => {
                    &&& after.misses == task.misses + 1
                    &&& effect == ProbeEffect::Count(Refused::ProbeBroken)
                    &&& after.dialed == Dialed::Absent
                },
                Probed::Refused => {
                    &&& after.misses == task.misses
                    &&& effect is Nothing
                    &&& after.dialed == Dialed::Absent
                },
            }
        }),
{
}

/// A probe task's cycle: it follows a peer that moved, telling its previous id dead and starting its
/// count over; it idles without contact, letting go of its session; it records its mesh once, when
/// the session first stands; and every probe has a nonce above the one before.
pub proof fn a_probe_task_keeps_to_its_peer(
    task: ProbeTask,
    current: Option<HostId>,
    belief: Option<MemberState>,
    death: Option<Fold>,
    followed: ProbeTask,
    contact: bool,
    start: CycleStart,
    resumed: ProbeTask,
    dialed: Dialed,
    formed: bool,
    driven: ProbeTask,
    nonce: Option<u64>,
    probing: ProbeTask,
    stale_dial: bool,
    ended: ProbeTask,
)
    requires
        task.nonce < u64::MAX,
        task.follows(current, belief, death, followed),
        task.resumes(contact, start, resumed),
        task.dials(dialed, formed, driven),
        task.probes(nonce, probing),
        task.folds(contact, stale_dial, ended),
    ensures
        death is Some <==> current is Some && (current->0) != task.peer.host,
        death matches Some(fold) ==> {
            &&& fold.subject == task.peer.host
            &&& fold.state.liveness == Liveness::Dead
            &&& belief matches Some(belief) ==> fold.state.incarnation == belief.incarnation
            &&& followed.peer.host == (current->0)
            &&& followed.misses == 0
        },
        death is None ==> followed == task,
        followed.peer.anchor == task.peer.anchor && followed.nonce == task.nonce && followed.dialed
            == task.dialed,
        start is Probe <==> contact,
        start matches CycleStart::Probe { realign } ==> realign == task.idle,
        start matches CycleStart::Idle { stale_dial } ==> stale_dial == (task.dialed
            == Dialed::Dialing),
        resumed.idle == !contact,
        !contact ==> resumed.dialed == Dialed::Absent && !resumed.meshed,
        contact ==> resumed.dialed == task.dialed && resumed.meshed == task.meshed,
        driven.dialed == dialed,
        formed <==> dialed == Dialed::Up && !task.meshed,
        driven.meshed <==> task.meshed || dialed == Dialed::Up,
        nonce is Some <==> task.dialed == Dialed::Up,
        nonce matches Some(nonce) ==> nonce == task.nonce + 1 && probing.nonce == nonce,
        nonce is None ==> probing == task,
        contact ==> ended == task && !stale_dial,
        !contact ==> ended.dialed == Dialed::Absent && !ended.meshed && stale_dial == (task.dialed
            == Dialed::Dialing),
{
}

/// A delivery that broke its session drops it and says so; one that was merely not delivered is
/// counted as that; and the session goes on as it came back.
pub proof fn a_broken_delivery_drops_its_session(
    task: ProbeTask,
    delivery: Delivery,
    counted: Option<Refused>,
    after: ProbeTask,
)
    requires
        task.delivers(delivery, counted, after),
    ensures
        (counted == Some(Refused::ProbeBroken)) == (delivery is Broken),
        (counted == Some(Refused::IndirectUndelivered)) == (delivery is Undelivered),
        counted is None <==> delivery is Delivered,
        after.dialed == (match delivery {
            Delivery::Delivered { returned } => if returned {
                Dialed::Up
            } else {
                Dialed::Absent
            },
            Delivery::Undelivered { returned } => if returned {
                Dialed::Up
            } else {
                Dialed::Absent
            },
            Delivery::Broken => Dialed::Absent,
        }),
        after.misses == task.misses && after.nonce == task.nonce && after.peer == task.peer,
{
}

/// A probe task starts on its peer's seed with nothing missed, in a handshake only if one was dialed; a
/// task that lets its session go keeps its peer and its misses and is neither meshed nor dialed.
pub proof fn a_probe_task_starts_on_its_seed(
    anchor: HostId,
    seed: HostId,
    dialed: bool,
    task: ProbeTask,
)
    ensures
        ({
            let begun = ProbeTask::begun(anchor, seed, dialed);
            &&& begun.peer.anchor == anchor && begun.peer.host == seed
            &&& begun.misses == 0 && begun.nonce == 0 && !begun.idle && !begun.meshed
            &&& begun.dialed == Dialed::Dialing <==> dialed
            &&& begun.dialed == Dialed::Absent <==> !dialed
        }),
        ({
            let later = task.let_go();
            &&& !later.meshed && later.dialed == Dialed::Absent
            &&& later.peer == task.peer && later.misses == task.misses && later.nonce == task.nonce
                && later.idle == task.idle
        }),
{
}

} // verus!
