//! Probing, membership, and the timing of the fleet's rounds.

use slates_server::daemon::{HEARTBEAT_NS, LIVENESS_BUDGET_NS};
use slates_server::discovery::{FleetPeer, NodeAddress, Refusal};
use slates_server::fleet::budget::{
    consensus_budget, poll_ns, timing_line, RoundBudget, ELECTION_MARGIN,
};
use slates_server::fleet::membership::{
    classify_announced, is_believed_dead, membership_diverges_from_config, outgoing_probe_gossip,
    receive_probe_gossip, reserved_gossip, root_diverges, stable_dead_council_members,
    update_council_death_watch, AnnouncedIdentity, ContactSets, Fold, GossipFold, LearnedMember,
    LearnedOutcome, Liveness, MemberState, Members, ProbedPeer,
};
use slates_server::fleet::probe::{
    detector_timing, indirect_fanout, indirect_relays, neighbourhood_bits, probe_period_ns,
    scheduler_quantum_ns, slowest_path_tail_ns, IndirectMessage, IndirectProbes, ProbeTiming,
    ProbeWindows, RelayCandidate, LOCAL_HEALTH_CAP,
};
use slates_server::fleet::refusal::{Refusals, Refused};
use slates_server::fleet::session::Dialed;
use slates_server::fleet::swim::{
    acknowledgement, allowed_certificates, answer_prober, identify_prober, ping, roster_of,
    BootOutcome, BootRefusal, CycleStart, Delivery, FleetBoot, ProbeEffect, ProbeHeard, ProbeKind,
    ProbePhase, ProbeTask, Probed,
};
use slates_server::ids::{DomainId, HostId, RegionId};
use slates_server::net::{Ipv4Addr, SocketAddrV4};
use std::collections::{BTreeMap, BTreeSet};

/// A millisecond in nanoseconds.
const MS: u64 = 1_000_000;

/// A transport's initial probe timeout.
const INITIAL_PTO_NS: u64 = 999 * MS;

fn windows() -> ProbeWindows {
    ProbeWindows {
        acknowledged: 0,
        deadlines_dilated: 0,
        periods_dilated: 0,
        largest_quantum_ns: 0,
    }
}

fn state(liveness: Liveness, incarnation: u64) -> MemberState {
    MemberState { liveness, incarnation }
}

fn members(local: u64) -> Members {
    Members {
        local: HostId(local),
        local_seed: HostId(local),
        learned: BTreeMap::new(),
        authenticated: BTreeSet::new(),
        node_regions: BTreeMap::new(),
        forged: 0,
    }
}

fn identity(anchor: u64, nonce: u64, announced: u64, derived: u64, seed: u64) -> AnnouncedIdentity {
    AnnouncedIdentity {
        anchor: HostId(anchor),
        boot_nonce: nonce,
        announced: HostId(announced),
        derived: HostId(derived),
        seed: HostId(seed),
    }
}

#[test]
fn the_probe_deadline_is_derived_from_the_round_trip_backed_off_and_capped() {
    let mut timing = ProbeTiming::new();
    assert_eq!(
        timing.deadline_ns(None, INITIAL_PTO_NS, 0),
        INITIAL_PTO_NS,
        "before any sample: the initial probe timeout"
    );
    // A quiet round trip's tail sits below the beat.
    let quiet = Some(51 * MS);
    timing.acknowledged();
    assert_eq!(
        timing.deadline_ns(quiet, INITIAL_PTO_NS, 0),
        HEARTBEAT_NS,
        "a quiet round trip floors the deadline at the beat"
    );
    timing.missed();
    assert_eq!(
        timing.deadline_ns(quiet, INITIAL_PTO_NS, 0),
        2 * HEARTBEAT_NS,
        "one miss doubles it"
    );
    timing.missed();
    assert_eq!(
        timing.deadline_ns(quiet, INITIAL_PTO_NS, 0),
        4 * HEARTBEAT_NS,
        "two misses quadruple it"
    );
    for _ in 0..8 {
        timing.missed();
    }
    assert_eq!(
        timing.deadline_ns(quiet, INITIAL_PTO_NS, 0),
        LIVENESS_BUDGET_NS,
        "however many misses, the liveness budget caps it"
    );
    timing.acknowledged();
    assert_eq!(
        timing.deadline_ns(quiet, INITIAL_PTO_NS, 0),
        HEARTBEAT_NS,
        "an acknowledgement resets the backoff"
    );

    let slow_tail = Some(900 * MS);
    let slow = ProbeTiming::new();
    let deadline = slow.deadline_ns(slow_tail, INITIAL_PTO_NS, 0);
    assert!(
        deadline > HEARTBEAT_NS && deadline <= LIVENESS_BUDGET_NS,
        "a slow peer's deadline follows its round trip: {deadline} ns"
    );
    assert_eq!(
        Some(deadline),
        slow_tail,
        "above the floor the deadline is the path's measured tail itself"
    );
}

#[test]
fn an_announced_identity_is_current_restarted_or_forged() {
    let anchor = 0xA11C;
    let seed = 1000;
    let next = 1001;
    let third = 1003;
    let known = LearnedMember { boot_nonce: 0, host: HostId(seed), seed: HostId(seed) };
    assert_eq!(
        classify_announced(Some(known), &identity(anchor, 0, seed, seed, seed)),
        LearnedOutcome::Current,
        "the seed at boot_nonce 0 is the ordinary contact"
    );
    assert_eq!(
        classify_announced(Some(known), &identity(anchor, 1, next, next, seed)),
        LearnedOutcome::Restarted { old: HostId(seed) },
        "a different boot nonce is a restart, naming the seed as the id to retire"
    );
    let restarted = LearnedMember { boot_nonce: 1, host: HostId(next), seed: HostId(seed) };
    assert_eq!(
        classify_announced(Some(restarted), &identity(anchor, 0, seed, seed, seed)),
        LearnedOutcome::Restarted { old: HostId(next) },
        "boot nonces have no numeric ordering"
    );
    assert_eq!(
        classify_announced(Some(known), &identity(anchor, 1, seed, next, seed)),
        LearnedOutcome::Forged,
        "the seed id is not what boot_nonce 1 derives to"
    );
    assert_eq!(
        classify_announced(Some(known), &identity(anchor, 0, 7, seed, seed)),
        LearnedOutcome::Forged,
        "an id that derives from nothing is forged"
    );
    assert_eq!(
        classify_announced(None, &identity(anchor, 3, third, third, seed)),
        LearnedOutcome::Restarted { old: HostId(seed) },
        "first contact retires the non-voting manifest placeholder"
    );
}

#[test]
fn the_probe_cadence_is_one_beat_dilated_by_the_local_health() {
    let mut windows = windows();
    assert_eq!(
        probe_period_ns(1, 0, &mut windows),
        HEARTBEAT_NS,
        "full health: exactly the beat"
    );
    assert_eq!(
        probe_period_ns(2, 0, &mut windows),
        2 * HEARTBEAT_NS,
        "one step of ill health: two beats"
    );
    let capped = LOCAL_HEALTH_CAP + 1;
    assert_eq!(
        probe_period_ns(capped, 0, &mut windows),
        u64::from(capped) * HEARTBEAT_NS,
        "at the cap: three beats, never more"
    );
    assert_eq!(windows.periods_dilated, 0);
    assert_eq!(probe_period_ns(1, 7 * HEARTBEAT_NS, &mut windows), 7 * HEARTBEAT_NS);
    assert_eq!((windows.periods_dilated, windows.largest_quantum_ns), (1, 7 * HEARTBEAT_NS));
}

#[test]
fn a_scheduling_delay_lengthens_a_deadline_and_is_counted() {
    let timing = ProbeTiming::new();
    let mut windows = windows();
    assert_eq!(scheduler_quantum_ns(0), HEARTBEAT_NS);
    assert_eq!(scheduler_quantum_ns(5 * HEARTBEAT_NS), 5 * HEARTBEAT_NS);
    let budget = timing.budget(Some(MS), INITIAL_PTO_NS, 0, &mut windows);
    assert_eq!(budget.deadline_ns, HEARTBEAT_NS);
    assert_eq!(windows.deadlines_dilated, 0);
    let budget = timing.budget(Some(MS), INITIAL_PTO_NS, 20 * HEARTBEAT_NS, &mut windows);
    assert_eq!(budget.deadline_ns, 20 * HEARTBEAT_NS, "past the liveness budget if need be");
    assert_eq!(windows.deadlines_dilated, 1);
    windows.count_acknowledged();
    assert_eq!(windows.acknowledged, 1);
    assert_eq!(timing.deadline_at_quantum(None, 1, 3), 3);
}

#[test]
fn the_detector_scales_with_the_logarithm_of_the_neighbourhood() {
    assert_eq!(neighbourhood_bits(0), 1);
    assert_eq!(neighbourhood_bits(1), 2);
    assert_eq!(neighbourhood_bits(2), 2);
    assert_eq!(neighbourhood_bits(3), 3);
    assert_eq!(neighbourhood_bits(1000), 10);
    assert_eq!(neighbourhood_bits(usize::MAX), 64);
    assert_eq!(indirect_fanout(4), 3);
    let timing = detector_timing(4);
    assert_eq!((timing.gossip_transmits, timing.confirmations_expected), (6, 3));
    assert_eq!(timing.health_max, LOCAL_HEALTH_CAP);
    assert_eq!(slowest_path_tail_ns(&vec![None, Some(4), Some(9), None, Some(2)]), Some(9));
    assert_eq!(slowest_path_tail_ns(&vec![None]), None);
}

#[test]
fn a_round_budget_outlasts_the_slowest_path() {
    let quiet = consensus_budget(None);
    assert_eq!(quiet.deadline_ns, HEARTBEAT_NS);
    assert_eq!(quiet.poll_ns, poll_ns());
    assert_eq!(quiet.stall_ns, 2 * HEARTBEAT_NS);
    assert_eq!(quiet.max_deadline_ns(), HEARTBEAT_NS * (1 + u64::from(ELECTION_MARGIN)));
    let far = consensus_budget(Some(9 * HEARTBEAT_NS));
    assert_eq!(far.deadline_ns, 9 * HEARTBEAT_NS);
    assert_eq!(far.stall_ns, 9 * HEARTBEAT_NS);
    let endless = RoundBudget { extension_ns: u64::MAX, ..quiet };
    assert_eq!(endless.max_deadline_ns(), u64::MAX);
    let line = timing_line(10, 10);
    assert!(line.starts_with("slates-server: fleet timing: election timeout = 10 ×"), "{line}");
    assert!(line.ends_with("ns; no path measured yet"), "{line}");
}

#[test]
fn a_learned_member_replaces_its_former_boot() {
    let mut members = members(1);
    let mut beliefs = BTreeMap::new();
    beliefs.insert(20, state(Liveness::Alive, 4));
    let (outcome, folds) = members.learn_member(&identity(9, 1, 21, 21, 20), &beliefs);
    assert_eq!(outcome, LearnedOutcome::Restarted { old: HostId(20) });
    assert!(folds.iter().any(|fold| fold.subject == HostId(20)
        && fold.state.liveness == Liveness::Dead));
    assert_eq!(members.current_member(HostId(9)), Some(HostId(21)));
    assert_eq!(members.anchor_of(HostId(21)), Some(HostId(9)));
    assert!(members.link_valid(HostId(9), HostId(21), true));
    assert!(!members.link_valid(HostId(9), HostId(20), true));
    let (outcome, folds) = members.learn_member(&identity(9, 2, 99, 22, 20), &beliefs);
    assert_eq!(outcome, LearnedOutcome::Forged);
    assert!(folds.is_empty());
    assert_eq!(members.forged, 1);
    assert_eq!(members.current_member(HostId(9)), Some(HostId(21)));
}

#[test]
fn gossip_reaches_known_members_and_enrolls_nobody() {
    let mut beliefs = BTreeMap::new();
    beliefs.insert(2, state(Liveness::Alive, 0));
    beliefs.insert(3, state(Liveness::Alive, 0));
    let authenticated = BTreeSet::from([2, 3]);
    let dead = state(Liveness::Dead, 1);
    let folds = receive_probe_gossip(
        HostId(1),
        HostId(2),
        &beliefs,
        &authenticated,
        &vec![
            (HostId(3), dead),
            (HostId(4), state(Liveness::Alive, 0)),
            (HostId(1), state(Liveness::Suspect, 9)),
        ],
    );
    assert!(folds.contains(&GossipFold::Member {
        fold: Fold { subject: HostId(3), state: dead },
        of_sender: false
    }));
    assert!(folds.contains(&GossipFold::Own(state(Liveness::Suspect, 9))));
    assert!(
        folds.iter().all(|fold| !matches!(
            fold,
            GossipFold::Member { fold, .. } if fold.subject == HostId(4)
        )),
        "gossip does not authorize enrollment"
    );
}

#[test]
fn outgoing_gossip_reserves_the_nodes_own_state_and_its_peers() {
    let own = state(Liveness::Alive, 3);
    let belief = state(Liveness::Suspect, 2);
    let (reserved, rest) =
        reserved_gossip(HostId(1), Some(own), HostId(2), Some(belief), 4);
    assert_eq!(reserved, vec![(HostId(1), own), (HostId(2), belief)]);
    assert_eq!(rest, 2);
    let reports = vec![(HostId(3), state(Liveness::Dead, 1))];
    let gossip = outgoing_probe_gossip(reserved.clone(), &reports);
    assert_eq!(gossip, vec![(HostId(1), own), (HostId(2), belief), reports[0]]);
    let repeated = vec![(HostId(2), state(Liveness::Alive, 9))];
    assert_eq!(outgoing_probe_gossip(reserved.clone(), &repeated), reserved);
}

/// A shared failure view: a higher incarnation wins, and at the same one the worse news; a report
/// against the node itself is refuted with the next incarnation.
struct View {
    local: HostId,
    beliefs: BTreeMap<u64, MemberState>,
}

impl View {
    fn observe(&mut self, subject: HostId, report: MemberState) {
        let rank = |state: &MemberState| {
            let worse = match state.liveness {
                Liveness::Alive => 0,
                Liveness::Suspect => 1,
                Liveness::Dead => 2,
            };
            (state.incarnation, worse)
        };
        if self.beliefs.get(&subject.0).is_none_or(|held| rank(&report) > rank(held)) {
            self.beliefs.insert(subject.0, report);
        }
    }

    fn refute(&mut self, report: MemberState) {
        let own = self.beliefs.get_mut(&self.local.0).unwrap();
        if report.liveness != Liveness::Alive && report.incarnation >= own.incarnation {
            own.incarnation = report.incarnation + 1;
        }
    }

    /// Takes up a message's gossip; the reports a session's own detector would take.
    fn receive(
        &mut self,
        sender: HostId,
        authenticated: &BTreeSet<u64>,
        gossip: Vec<(HostId, MemberState)>,
    ) -> Vec<HostId> {
        let mut detector = Vec::new();
        let folds =
            receive_probe_gossip(self.local, sender, &self.beliefs, authenticated, &gossip);
        for fold in folds {
            match fold {
                GossipFold::Own(report) => self.refute(report),
                GossipFold::Member { fold, of_sender } => {
                    self.observe(fold.subject, fold.state);
                    if of_sender {
                        detector.push(fold.subject);
                    }
                }
            }
        }
        detector
    }

    fn is_alive(&self, host: HostId) -> bool {
        self.beliefs.get(&host.0).is_some_and(|held| held.liveness == Liveness::Alive)
    }

    /// The gossip of a packet to a peer, with every other belief queued.
    fn outgoing(&self, peer: HostId, belief: Option<MemberState>) -> Vec<(HostId, MemberState)> {
        let own = self.beliefs.get(&self.local.0).copied();
        let (reserved, _) = reserved_gossip(self.local, own, peer, belief, 4);
        let queued =
            self.beliefs.iter().map(|(host, held)| (HostId(*host), *held)).collect();
        outgoing_probe_gossip(reserved, &queued)
    }
}

#[test]
fn a_neighbors_gossip_retires_a_known_third_member_without_enrolling_strangers() {
    let local = HostId(1);
    let (neighbor, lost, stranger) = (HostId(2), HostId(3), HostId(4));
    let alive = state(Liveness::Alive, 0);
    let mut view = View { local, beliefs: BTreeMap::from([(local.0, alive)]) };
    view.observe(neighbor, alive);
    view.observe(lost, alive);
    let authenticated = BTreeSet::from([lost.0]);
    let taken = view.receive(
        neighbor,
        &authenticated,
        vec![(lost, state(Liveness::Dead, 1)), (stranger, alive)],
    );
    assert!(taken.is_empty());
    view.receive(neighbor, &authenticated, vec![(lost, alive)]);
    assert!(
        view.outgoing(neighbor, Some(alive))
            .iter()
            .any(|(subject, report)| *subject == lost && report.liveness == Liveness::Dead),
        "a third member's death must travel to another live peer"
    );
    // Foreign alive reports must not add a second target to this session's detector.
    let taken = view.receive(neighbor, &authenticated, vec![(lost, state(Liveness::Alive, 2))]);
    assert!(view.is_alive(lost));
    assert!(taken.is_empty());
    view.receive(neighbor, &authenticated, vec![(lost, state(Liveness::Dead, 2))]);
    assert!(
        !view.is_alive(lost),
        "a third member's death must reach the council's failure view"
    );
    assert!(
        !view.beliefs.contains_key(&stranger.0),
        "gossip does not authorize enrollment"
    );
}

#[test]
fn probe_gossip_shares_refutation_and_cannot_revive_a_replaced_identity() {
    let local = HostId(1);
    let (old, current) = (HostId(21), HostId(22));
    let mut members = members(1);
    let mut view = View { local, beliefs: BTreeMap::from([(1, state(Liveness::Alive, 0))]) };
    for (nonce, announced) in [(1, old), (2, current)] {
        let announced = identity(9, nonce, announced.0, announced.0, 20);
        let (_, folds) = members.learn_member(&announced, &view.beliefs);
        for fold in folds {
            view.observe(fold.subject, fold.state);
        }
    }
    view.receive(
        current,
        &members.authenticated,
        vec![(old, state(Liveness::Alive, 10)), (local, state(Liveness::Dead, 10))],
    );
    assert!(!view.is_alive(old));
    assert!(view.outgoing(current, None).contains(&(local, state(Liveness::Alive, 11))));
    view.receive(current, &members.authenticated, vec![(local, state(Liveness::Dead, 9))]);
    assert!(view.outgoing(current, None).contains(&(local, state(Liveness::Alive, 11))));
}

#[test]
fn a_death_is_stable_after_its_periods_in_a_row() {
    let members = vec![HostId(1), HostId(2), HostId(3)];
    let mut beliefs = BTreeMap::new();
    beliefs.insert(2, state(Liveness::Dead, 0));
    beliefs.insert(3, state(Liveness::Alive, 0));
    assert!(is_believed_dead(&beliefs, HostId(2)));
    assert!(!is_believed_dead(&beliefs, HostId(9)));
    let mut watch = BTreeMap::new();
    for _ in 0..3 {
        update_council_death_watch(&mut watch, &members, &beliefs);
    }
    assert_eq!(watch, BTreeMap::from([(2, 3)]));
    assert_eq!(stable_dead_council_members(&watch, 3, 2), vec![HostId(2)]);
    assert!(stable_dead_council_members(&watch, 4, 2).is_empty());
    beliefs.insert(2, state(Liveness::Alive, 1));
    update_council_death_watch(&mut watch, &members, &beliefs);
    assert!(watch.is_empty(), "a member that came back starts over");
}

#[test]
fn voters_outside_the_neighbourhood_stay_in_contact() {
    let contacts = ContactSets {
        council_initialized: true,
        root_initialized: true,
        members: vec![HostId(1), HostId(2), HostId(3), HostId(4), HostId(5)],
        neighbourhood: vec![HostId(2)],
        council_voters: vec![HostId(3)],
        root_voters: vec![HostId(4)],
    };
    let alive = Some(state(Liveness::Alive, 0));
    for host in [2, 3, 4] {
        assert!(contacts.keeps_direct_contact_with(alive, HostId(host)), "{host}");
    }
    assert!(!contacts.keeps_direct_contact_with(alive, HostId(5)));
}

#[test]
fn a_configuration_that_lost_or_gained_a_member_diverges() {
    let a = vec![HostId(1), HostId(2)];
    assert!(!membership_diverges_from_config(&a, &vec![HostId(2), HostId(1)]));
    assert!(membership_diverges_from_config(&a, &vec![HostId(1)]));
    assert!(membership_diverges_from_config(&vec![HostId(1)], &a));
    assert!(root_diverges(&vec![RegionId(2)], &vec![RegionId(1)]));
    assert!(!root_diverges(&vec![RegionId(1)], &vec![RegionId(1)]));
}

#[test]
fn a_members_domain_and_region_come_from_its_declaration() {
    let mut members = members(1);
    members.node_regions.insert(20, RegionId(3));
    let beliefs = BTreeMap::new();
    members.learn_member(&identity(9, 1, 21, 21, 20), &beliefs);
    let domains = Some(BTreeMap::from([(20, DomainId(6))]));
    assert_eq!(members.declared_domain(HostId(21), &domains), Some(DomainId(6)));
    assert_eq!(members.declared_domain(HostId(8), &domains), None);
    assert_eq!(members.authenticated_alive(&vec![HostId(1), HostId(21), HostId(5)]), {
        let mut expected = vec![HostId(1), HostId(21)];
        expected.retain(|host| *host == HostId(1) || members.authenticated.contains(&host.0));
        expected
    });
}

#[test]
fn a_probed_peer_follows_its_current_id() {
    let mut peer = ProbedPeer { anchor: HostId(9), host: HostId(20) };
    assert_eq!(peer.follow_current_id(Some(HostId(20)), None), None);
    let death = peer.follow_current_id(Some(HostId(21)), Some(state(Liveness::Alive, 3)));
    assert_eq!(peer.host, HostId(21));
    assert_eq!(death.map(|fold| (fold.subject, fold.state.liveness)), Some((HostId(20), Liveness::Dead)));
}

#[test]
fn an_indirect_probe_goes_through_a_relay_and_back() {
    let local = HostId(1);
    let relay = HostId(2);
    let target = HostId(3);
    let mut here = IndirectProbes::new();
    here.begin_indirect_stage(target, 7, &vec![relay]);
    assert!(here.traffic_pending_for(relay));
    let sent = here.take_traffic(relay);
    assert_eq!(sent, vec![IndirectMessage::PingRequest { target, nonce: 7 }]);
    assert!(!here.traffic_pending_for(relay));

    let mut there = IndirectProbes::new();
    assert!(there.receive_ping_request(Some(local), local, target, 7, true));
    assert!(!there.receive_ping_request(Some(HostId(9)), local, target, 7, true));
    assert_eq!(there.answer_relay_asks(target), vec![1]);
    assert_eq!(
        there.take_traffic(local),
        vec![IndirectMessage::IndirectAck { target, nonce: 7 }]
    );

    assert!(here.receive_indirect_ack(target, 7, true));
    assert!(here.credit_relayed_answer(target, 7));
    assert!(!here.credit_relayed_answer(target, 7), "one answer is credited once");
    here.begin_indirect_stage(target, 8, &vec![relay]);
    here.forget(target);
    here.forget(relay);
    assert!(!here.traffic_pending_for(relay));
}

#[test]
fn the_nearest_relays_are_asked_first() {
    let candidate = |host: u64, distance: Option<u64>| RelayCandidate {
        host: HostId(host),
        distance,
    };
    let candidates = vec![candidate(1, Some(9)), candidate(2, Some(3)), candidate(3, None)];
    assert_eq!(indirect_relays(&candidates, 1), vec![HostId(2)]);
    let two = indirect_relays(&candidates, 2);
    assert_eq!(two.len(), 2);
    assert!(two.contains(&HostId(2)) && two.contains(&HostId(1)));
    assert_eq!(indirect_relays(&candidates, 9).len(), 3);
}

#[test]
fn every_kind_is_counted_apart() {
    let mut refusals = Refusals::new();
    assert_eq!(refusals.count(Refused::Bind), 1);
    assert_eq!(refusals.count(Refused::Bind), 2);
    assert_eq!(refusals.count(Refused::DialFault), 1);
    assert_eq!(refusals.count_of(Refused::Bind), 2);
    assert_eq!(refusals.count_of(Refused::Serve), 0);
    assert_eq!(Refused::Resolve.name(), "fleet.resolve");
    assert_eq!(Refused::ResolveNoResolver.name(), "fleet.resolve.no-resolver");
}

#[test]
fn a_fleet_runs_once_every_boot_step_was_done() {
    assert_eq!(FleetBoot::start(0, 0), FleetBoot::Ended(None), "a fleet of one runs no loop");
    let mut boot = FleetBoot::start(2, 1);
    let mut steps = 0;
    while boot != FleetBoot::Run {
        boot = boot.advance(BootOutcome::Done);
        steps += 1;
        assert!(steps < 9, "{boot:?}");
    }
    let refused = FleetBoot::Enroll.advance(BootOutcome::Enrollment(Refusal::Capacity));
    assert_eq!(refused, FleetBoot::Ended(Some(BootRefusal::Enrollment(Refusal::Capacity))));
    assert!(matches!(FleetBoot::Bind.advance(BootOutcome::Refused), FleetBoot::Ended(Some(_))));
}

#[test]
fn the_roster_is_the_peers_certificates_and_anchors() {
    let address = NodeAddress::Ip(SocketAddrV4::new(Ipv4Addr::new(10, 0, 0, 1), 1));
    let peers = vec![FleetPeer {
        anchor: HostId(9),
        host: HostId(20),
        address: address.clone(),
        record_address: address,
        certificate: vec![1, 2],
    }];
    let roster = roster_of(&peers);
    assert_eq!((roster.len(), roster[0].anchor), (1, HostId(9)));
    assert_eq!(allowed_certificates(&peers, &vec![vec![7]]), vec![vec![1, 2], vec![7]]);
}

#[test]
fn a_prober_is_heard_under_its_own_identity() {
    let mut members = members(1);
    let mut beliefs = BTreeMap::new();
    beliefs.insert(21, state(Liveness::Alive, 0));
    let heard = ProbeHeard {
        kind: ProbeKind::Ping { configuration_version: 4 },
        from: HostId(21),
        boot_nonce: Some(1),
        gossip: Vec::new(),
    };
    let identified = identify_prober(
        &mut members,
        HostId(9),
        &heard,
        HostId(21),
        HostId(20),
        &BTreeSet::new(),
        &beliefs,
    );
    assert!(identified.heard);
    assert_eq!(members.current_member(HostId(9)), Some(HostId(21)));
    let mut indirect = IndirectProbes::new();
    let answer = answer_prober(&members, &mut indirect, &heard, &beliefs, true);
    assert!(!answer.refused);
    let deaf = identify_prober(
        &mut members,
        HostId(9),
        &heard,
        HostId(21),
        HostId(20),
        &BTreeSet::from([21]),
        &beliefs,
    );
    assert!(!deaf.heard);
    let forged = ProbeHeard { from: HostId(77), gossip: Vec::new(), ..heard };
    let forged = identify_prober(
        &mut members,
        HostId(9),
        &forged,
        HostId(21),
        HostId(20),
        &BTreeSet::new(),
        &beliefs,
    );
    assert!(!forged.heard);
}

#[test]
fn a_probe_task_keeps_its_session_over_a_timeout() {
    let mut task = ProbeTask::start(HostId(9), HostId(20), false);
    assert!(matches!(task.resume_if_in_mesh(true), CycleStart::Probe { .. }));
    assert!(task.dialed(Dialed::Up), "the session is formed");
    let nonce = task.next_probe().unwrap();
    assert_eq!(task.next_probe(), Some(nonce + 1));
    let mut windows = windows();
    let effect = task.apply_probe(Probed::TimedOut { returned: true }, 0, &mut windows);
    assert_eq!(effect, ProbeEffect::AskRelays);
    assert_eq!(task.dialed, Dialed::Up);
    assert_eq!(task.timing().consecutive_misses, 1);
    let acked = Probed::Acked {
        from: HostId(20),
        identity: LearnedOutcome::Current,
        version: 0,
        returned: true,
    };
    assert!(matches!(
        task.apply_probe(acked, 0, &mut windows),
        ProbeEffect::Credit { .. }
    ));
    assert_eq!((windows.acknowledged, task.timing().consecutive_misses), (1, 0));
    let stranger = Probed::Acked {
        from: HostId(21),
        identity: LearnedOutcome::Current,
        version: 0,
        returned: true,
    };
    assert!(!matches!(
        task.apply_probe(stranger, 0, &mut windows),
        ProbeEffect::Credit { .. }
    ));
    task.apply_probe(Probed::Broken, 0, &mut windows);
    assert_eq!(task.dialed, Dialed::Absent);
    assert_eq!(task.delivered(Delivery::Broken), Some(Refused::ProbeBroken));
    assert!(matches!(task.resume_if_in_mesh(false), CycleStart::Idle { .. }));
}

#[test]
fn an_acknowledgement_answers_the_probe_under_this_nodes_own_identity() {
    let members = members(7);
    let sent = ping(&members, 41, 12, 5);
    assert_eq!(
        (sent.from, sent.nonce, sent.boot_nonce, sent.configuration_version),
        (HostId(7), 41, 12, 5)
    );
    let ack = acknowledgement(&members, 99, 12, 6);
    assert_eq!(
        (ack.from, ack.nonce, ack.boot_nonce, ack.configuration_version),
        (HostId(7), 99, 12, 6)
    );
}

#[test]
fn a_probe_period_carries_the_waiting_traffic_before_its_own_probe() {
    let period = |contact: bool, up: bool| {
        let mut phases = vec![ProbePhase::Follow];
        loop {
            let next = phases[phases.len() - 1].next(contact, up);
            if next == ProbePhase::Follow {
                return phases;
            }
            phases.push(next);
        }
    };
    assert_eq!(
        period(true, true),
        vec![
            ProbePhase::Follow,
            ProbePhase::Resume,
            ProbePhase::Establish,
            ProbePhase::Carry,
            ProbePhase::Probe,
            ProbePhase::Fold,
            ProbePhase::Rest { idle: false },
        ]
    );
    assert_eq!(
        period(true, false),
        vec![
            ProbePhase::Follow,
            ProbePhase::Resume,
            ProbePhase::Establish,
            ProbePhase::Fold,
            ProbePhase::Rest { idle: false },
        ]
    );
    assert_eq!(
        period(false, true),
        vec![ProbePhase::Follow, ProbePhase::Resume, ProbePhase::Rest { idle: true }]
    );
    assert_eq!(ProbePhase::Carry.next(true, false), ProbePhase::Fold);
}
