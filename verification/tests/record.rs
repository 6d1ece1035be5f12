//! The record plane: sessions, held records, heads, takeovers, seals and the groups' rounds.

use slates_server::consensus::{ConsensusState, GroupId, GroupState};
use slates_server::consensus_recovery::RecoveryState;
use slates_server::daemon::HEARTBEAT_NS;
use slates_server::discovery::{Cursor, NodeAddress};
use slates_server::dns::DnsError;
use slates_server::fleet::budget::{consensus_budget, poll_ns};
use slates_server::fleet::council::{
    alive_representatives, consensus_round, fetch_request, fetch_round, fetches_from, group_step,
    last_follow_on, pair_appends, proposed_members, serve_group, Election, GroupAnswer, GroupStep,
    PeriodStep, RecordStep, Seat,
};
use slates_server::fleet::membership::Members;
use slates_server::fleet::record::{
    accept_held_record, check_held_record, fetched_step, green_ended, green_step, head_step, head_value_of,
    highest_held_epoch, host_ids, installs_fanned, materialize_step, owner_authority,
    raised_fences, reconcile_held_authority, record_acks, route, serve_held_promotion,
    stale_owner, start_takeover, sync_config_from_council, takeovers, unplaced_head, Adopted,
    Adoption, Authority, DepartedOwner, GreenStep, GroupFacts, HeadStep, HeldObject, HeldReply, Materialize, Owed,
    Placing, Prepare, PromotionReply, RecordFacts, RecordServe, RecoveryCohort, RegisterRefusal,
    Route, ServiceStreams, TakenOver, TakeoverDrive, TakeoverStage, Takeovers, VolumeFacts, CONFIG_STREAM, RECORD_STREAM,
};
use slates_server::fleet::refusal::Refused;
use slates_server::fleet::seal::{
    content_budget, heal_period_ns, hedge_delay_ns, hedge_targets, ContentRound, PutLatency,
    PutOutcomes, SealVolume, Seals, Walked, HEAL_PERIODS_AT_REST, PUT_LATENCY_WINDOW,
};
use slates_server::fleet::session::{
    accept_failure, client_for, discovery_wait, late_latency_ns, link_step, probe_anchor,
    record_anchor, resolve_refusal, rostered_anchor, sweep_of, AcceptFailure, ContentAck, Dial,
    Dialed, DiscoveryOutcome, DiscoveryWait, Dispatch, EstablishStep, ForwardStep, ForwardWait,
    Handshake, LateFold, LateReplies, LateSeal, LinkStep, RaftReply, RecordLink, RecordLinks,
    Rostered, SessionHandle,
};
use slates_server::head::{HeadValue, NamePolicy, PlacedHead, Placement, Principal, SizeClass};
use slates_server::ids::{HostEpoch, HostId, ObjectId, Quorum, RegionId, SnapshotId};
use slates_server::net::{Ipv4Addr, SocketAddrV4};
use std::collections::{BTreeMap, BTreeSet};

/// A millisecond in nanoseconds.
const MS: u64 = 1_000_000;

const OBJECT: ObjectId = ObjectId(17);

fn hosts(ids: &[u64]) -> Vec<HostId> {
    ids.iter().map(|id| HostId(*id)).collect()
}

fn session(key: u64) -> SessionHandle {
    SessionHandle { key, connection: Some(key * 10) }
}

fn placement(candidates: &[u64], acked: &[u64]) -> Placement {
    Placement { candidates: hosts(candidates), acked: hosts(acked) }
}

fn links(peers: &[u64]) -> RecordLinks {
    RecordLinks {
        links: peers.iter().map(|peer| (*peer, RecordLink::up(session(*peer)))).collect(),
    }
}

#[test]
fn a_holder_binds_every_record_to_the_authenticated_peer() {
    let owner = HostId(5);
    let members = vec![owner];
    let version = 3;
    let mut refresh = false;
    let record = RecordFacts { owner, object: OBJECT, generation: version };
    let checked = check_held_record(&record, owner, &members, version, Ok(()), &mut refresh);
    let (first, kept) = accept_held_record(checked, true, Ok(()), Ok(()));
    assert_eq!(first, HeldReply::Acknowledge);
    assert!(kept);
    let forger = HostId(owner.0 ^ 1);
    let spoofed = check_held_record(&record, forger, &members, version, Ok(()), &mut refresh);
    let (spoofed, kept) = accept_held_record(spoofed, false, Ok(()), Ok(()));
    assert!(!spoofed.rides_back(), "a different TLS peer cannot speak as the owner");
    assert!(!kept);
    let legitimate = check_held_record(&record, owner, &members, version, Ok(()), &mut refresh);
    let (legitimate, _) = accept_held_record(legitimate, false, Ok(()), Ok(()));
    assert_eq!(legitimate, HeldReply::Acknowledge, "the forgery did not raise the fence");
    assert!(!refresh);
}

#[test]
fn a_takeover_prepare_binds_its_owner_to_the_authenticated_peer() {
    let successor = HostId(5);
    let owner = HostId(successor.0 ^ 1);
    let prepare =
        Prepare { owner: successor, object: OBJECT, epoch: HostEpoch(2), generation: 3 };
    let forgery = Prepare { epoch: HostEpoch(3), ..prepare };
    assert_eq!(
        serve_held_promotion(owner, &forgery, Some(true)),
        PromotionReply::Unauthorized
    );
    assert_eq!(
        serve_held_promotion(successor, &prepare, Some(true)),
        PromotionReply::Promise
    );
    assert_eq!(serve_held_promotion(successor, &prepare, None), PromotionReply::Empty);
    let record = RecordFacts { owner: successor, object: OBJECT, generation: 3 };
    let mut refresh = false;
    let checked =
        check_held_record(&record, successor, &vec![successor], 3, Ok(()), &mut refresh);
    assert_eq!(accept_held_record(checked, false, Ok(()), Ok(())).0, HeldReply::Acknowledge);
}

#[test]
fn a_record_out_of_step_is_refused_with_what_its_sender_needs() {
    let owner = HostId(5);
    let members = vec![owner];
    let at = |generation: u64| RecordFacts { owner, object: OBJECT, generation };
    let mut refresh = false;
    assert_eq!(
        check_held_record(&at(2), owner, &members, 3, Ok(()), &mut refresh),
        Err(RegisterRefusal::ConfigurationStale { version: 3 })
    );
    assert!(!refresh);
    assert_eq!(
        check_held_record(&at(4), owner, &members, 3, Ok(()), &mut refresh),
        Err(RegisterRefusal::ForeignGeneration { current: 3 })
    );
    assert!(refresh, "this node is the one behind");
    assert_eq!(
        check_held_record(&at(3), owner, &Vec::new(), 3, Ok(()), &mut refresh),
        Err(RegisterRefusal::Unauthorized)
    );
    let stale = Err(RegisterRefusal::StaleEpoch { fence: 9 });
    assert_eq!(check_held_record(&at(3), owner, &members, 3, stale, &mut refresh), stale);
    assert!(HeldReply::Refuse(RegisterRefusal::ConfigurationStale { version: 3 }).rides_back());
    assert!(!HeldReply::Refuse(RegisterRefusal::Acceptor).rides_back());
    let (reply, kept) = accept_held_record(Ok(()), true, Err(RegisterRefusal::Acceptor), Ok(()));
    assert_eq!((reply, kept), (HeldReply::Refuse(RegisterRefusal::Acceptor), false));
}

#[test]
fn the_hedge_delay_is_the_measured_p95_over_a_bounded_window() {
    let mut latency = PutLatency::default();
    assert!(latency.is_empty());
    assert_eq!(hedge_delay_ns(&latency), HEARTBEAT_NS, "before any reading: one period");
    for _ in 0..20 {
        latency.record(10 * MS);
    }
    latency.record(900 * MS);
    assert_eq!(
        hedge_delay_ns(&latency),
        10 * MS,
        "one slow acknowledgement in twenty-one does not move the p95"
    );
    for _ in 0..PUT_LATENCY_WINDOW {
        latency.record(50 * MS);
    }
    assert_eq!(latency.len(), PUT_LATENCY_WINDOW, "the window is bounded");
    assert_eq!(
        hedge_delay_ns(&latency),
        50 * MS,
        "the prompt regime was forgotten within one window"
    );
}

#[test]
fn the_hedge_widens_the_targets_on_the_clock_not_the_placed_round_count() {
    let remote = vec![HostId(2), HostId(3), HostId(4)];
    assert_eq!(
        hedge_targets(false, remote.clone(), 1),
        vec![HostId(2)],
        "before the delay: the first f remote candidates only"
    );
    assert_eq!(
        hedge_targets(true, remote.clone(), 1),
        remote,
        "at the delay: every remaining candidate, whatever the placed-round count"
    );
}

#[test]
fn the_healer_cadence_tightens_with_the_measured_put_failure_rate() {
    let mut outcomes = PutOutcomes::default();
    assert_eq!(
        heal_period_ns(&outcomes),
        HEARTBEAT_NS * HEAL_PERIODS_AT_REST,
        "before any round, and while none has failed: the at-rest cadence"
    );
    for _ in 0..HEAL_PERIODS_AT_REST {
        outcomes.record(true);
    }
    assert_eq!(
        heal_period_ns(&outcomes),
        HEARTBEAT_NS * HEAL_PERIODS_AT_REST,
        "a hundred placed rounds and no short one: still at rest"
    );
    outcomes.record(false);
    let one_short = heal_period_ns(&outcomes);
    assert!(
        (HEARTBEAT_NS..HEARTBEAT_NS * HEAL_PERIODS_AT_REST).contains(&one_short),
        "one short round in a hundred tightens the cadence: {one_short} ns"
    );
    for _ in 0..HEAL_PERIODS_AT_REST {
        outcomes.record(false);
    }
    assert_eq!(
        heal_period_ns(&outcomes),
        HEARTBEAT_NS,
        "short rounds as common as placed ones: one snapshot per period, the floor"
    );
}

#[test]
fn the_healer_rests_however_many_rounds_were_counted() {
    let counted = |placed: u64, short: u64| heal_period_ns(&PutOutcomes { placed, short });
    assert_eq!(counted(u64::MAX, 0), 10_000_000_000);
    assert_eq!(counted(u64::MAX / 100 + 1, 0), 10_000_000_000);
    assert_eq!(counted(u64::MAX, u64::MAX), HEARTBEAT_NS);
    assert_eq!(counted(0, u64::MAX), HEARTBEAT_NS);
    assert_eq!(counted(100, 1), 50 * HEARTBEAT_NS);
}

#[test]
fn a_hedged_content_round_is_given_the_delay_within_the_rounds_span() {
    let round = consensus_budget(None);
    assert_eq!(content_budget(&PutLatency::default(), &round).deadline_ns, HEARTBEAT_NS);
    let mut latency = PutLatency::default();
    latency.record_all(&vec![10 * MS]);
    let budget = content_budget(&latency, &round);
    assert_eq!((budget.deadline_ns, budget.stall_ns), (10 * MS, 10 * MS));
    assert!(budget.max_deadline_ns() >= round.max_deadline_ns());
}

#[test]
fn a_percentile_is_one_of_the_readings() {
    let mut latency = PutLatency::default();
    latency.record_all(&vec![5, 1, 3]);
    assert_eq!(latency.p95_ns(), Some(5));
    assert_eq!(PutLatency::default().p95_ns(), None);
}

#[test]
fn only_discovery_serves_a_peer_that_is_not_enrolled() {
    let services = ServiceStreams { merge_record: 20, owner_location: 21 };
    assert_eq!(
        route(slates_server::discovery::STREAM, false, services),
        Route::Discovery
    );
    for stream in [RECORD_STREAM, CONFIG_STREAM, 20, 21] {
        assert_eq!(route(stream, false, services), Route::NotEnrolled);
    }
    assert_eq!(route(RECORD_STREAM, true, services), Route::Record);
    assert_eq!(route(CONFIG_STREAM, true, services), Route::Council);
    assert_eq!(route(20, true, services), Route::MergeRecord);
    assert_eq!(route(21, true, services), Route::OwnerLocation);
    assert_eq!(route(999, true, services), Route::Unknown);
    let mut serve = RecordServe { anchor: HostId(9), seed: HostId(20), enrolled: false };
    serve.recognize(true);
    assert!(serve.enrolled);
    let mut members = Members {
        local: HostId(1),
        local_seed: HostId(1),
        learned: BTreeMap::new(),
        authenticated: BTreeSet::new(),
        node_regions: BTreeMap::new(),
        forged: 0,
    };
    assert_eq!(serve.peer_host(&members), HostId(20));
    members.node_regions.insert(1, RegionId(4));
    assert_eq!(members.alive_regions(&hosts(&[1])), vec![RegionId(4)]);
    assert_eq!(owner_authority(HostId(1), 4), Authority { generation: 4, owner: HostId(1) });
}

#[test]
fn held_authority_follows_the_routing_view_and_fences_rise() {
    let held = vec![
        HeldObject { object: ObjectId(1), owner: Some(HostId(7)) },
        HeldObject { object: ObjectId(2), owner: None },
    ];
    assert_eq!(
        reconcile_held_authority(&held, 4),
        vec![(ObjectId(1), Authority { generation: 4, owner: HostId(7) })]
    );
    let epochs = BTreeMap::from([(7, HostEpoch(3))]);
    assert_eq!(
        raised_fences(&vec![(ObjectId(1), HostId(7)), (ObjectId(2), HostId(8))], &epochs),
        vec![(ObjectId(1), HostEpoch(3))]
    );
    assert_eq!(host_ids(&hosts(&[4, 2])), vec![4, 2]);
    let positions = vec![(OBJECT, HostEpoch(2)), (OBJECT, HostEpoch(5)), (ObjectId(1), HostEpoch(9))];
    assert_eq!(highest_held_epoch(&positions, OBJECT, HostEpoch(1)), HostEpoch(5));
    assert_eq!(highest_held_epoch(&positions, ObjectId(3), HostEpoch(1)), HostEpoch(1));
    let mut refresh = false;
    stale_owner(Some(3), 3, &mut refresh);
    stale_owner(None, 3, &mut refresh);
    assert!(!refresh);
    stale_owner(Some(4), 3, &mut refresh);
    assert!(refresh);
}

fn volume(epoch: u64, placed: Option<([u8; 32], Vec<u64>)>) -> VolumeFacts {
    VolumeFacts {
        object: OBJECT,
        epoch,
        head: SnapshotId(4),
        name: "scratch".to_owned(),
        size: SizeClass::Unbounded,
        names: NamePolicy::Exact,
        owner: Principal::Uid { uid: 501 },
        placed,
    }
}

const PLACING: Placing = Placing {
    local: HostId(1),
    shard: 0,
    version: 6,
    host_epoch: HostEpoch(2),
    quorum: Quorum { f: 1 },
};

#[test]
fn a_head_is_shipped_until_every_candidate_holds_it() {
    let created = volume(0, None);
    let (sequence, value) = head_value_of(&created, None, Quorum { f: 1 }).unwrap();
    assert_eq!(sequence, 0);
    assert_eq!(value.manifest, None);
    assert!(head_value_of(&volume(3, None), None, Quorum { f: 1 }).is_none());
    let (sequence, value) =
        head_value_of(&volume(3, Some(([7; 32], vec![1, 2]))), None, Quorum { f: 1 }).unwrap();
    assert_eq!((sequence, value.manifest), (3, Some([7; 32])));
    assert_eq!(value.content_holders, vec![1, 2]);

    let candidates = hosts(&[1, 2, 3]);
    let head = unplaced_head(&PLACING, &created, None, None, candidates.clone()).unwrap();
    assert_eq!((head.sequence, head.epoch, head.generation), (0, HostEpoch(2), 6));
    let recorded = PlacedHead {
        sequence: 0,
        epoch: HostEpoch(9),
        placement: placement(&[1, 2, 3], &[1, 2]),
    };
    let head =
        unplaced_head(&PLACING, &created, None, Some(&recorded), candidates.clone()).unwrap();
    assert_eq!(head.epoch, HostEpoch(9), "the greater epoch is written");
    assert_eq!(head.targets(), hosts(&[3]));
    let whole = PlacedHead {
        sequence: 0,
        epoch: HostEpoch(9),
        placement: placement(&[1, 2, 3], &[1, 2, 3]),
    };
    assert!(unplaced_head(&PLACING, &created, None, Some(&whole), candidates).is_none());
}

#[test]
fn acknowledgements_of_one_head_accumulate_and_an_older_one_adds_nothing() {
    let first = record_acks(None, 4, HostEpoch(2), &placement(&[1, 2, 3], &[1]));
    let merged = record_acks(Some(first), 4, HostEpoch(2), &placement(&[1, 2, 3], &[1, 3]));
    assert_eq!(merged.sequence, 4);
    assert!(merged.placement.acked.contains(&HostId(1)));
    assert!(merged.placement.acked.contains(&HostId(3)));
    let newer = record_acks(Some(merged), 5, HostEpoch(2), &placement(&[1, 2, 3], &[2]));
    assert_eq!((newer.sequence, newer.placement.acked.clone()), (5, hosts(&[2])));
    let late = record_acks(Some(newer), 4, HostEpoch(2), &placement(&[1, 2, 3], &[3]));
    assert_eq!((late.sequence, late.placement.acked), (5, hosts(&[2])));
}

fn no_takeovers() -> Takeovers {
    Takeovers {
        pending: BTreeSet::new(),
        departed: BTreeMap::new(),
        placed: BTreeMap::new(),
        materialize: BTreeMap::new(),
    }
}

#[test]
fn a_takeover_prepares_above_the_departed_owner_and_adopts_a_quorum() {
    let mut state = no_takeovers();
    let owners = BTreeMap::from([(OBJECT.0, HostId(9))]);
    state.install_reassignments(&vec![OBJECT], &owners, 6);
    assert!(state.pending.contains(&OBJECT.0));
    assert_eq!(
        state.departed.get(&OBJECT.0),
        Some(&DepartedOwner { owner: HostId(9), since_version: 6 })
    );
    let owed = vec![
        Owed { object: OBJECT, candidate: true, lease_over: Some(true) },
        Owed { object: ObjectId(2), candidate: true, lease_over: Some(false) },
        Owed { object: ObjectId(3), candidate: false, lease_over: None },
        Owed { object: ObjectId(4), candidate: true, lease_over: None },
    ];
    assert_eq!(takeovers(&owed), vec![OBJECT, ObjectId(4)]);

    let candidates = hosts(&[1, 2, 3]);
    assert!(start_takeover(OBJECT, &PLACING, &hosts(&[2]), true, Some(HostEpoch(4))).is_none());
    assert!(start_takeover(OBJECT, &PLACING, &candidates, false, Some(HostEpoch(4))).is_none());
    assert!(start_takeover(OBJECT, &PLACING, &candidates, true, None).is_none());
    let start = start_takeover(OBJECT, &PLACING, &candidates, true, Some(HostEpoch(4))).unwrap();
    assert_eq!(start.prepare.epoch, HostEpoch(5));
    assert_eq!(start.prepare.owner, HostId(1));
    assert_eq!(start.authority, Authority { generation: 6, owner: HostId(1) });

    let cohort = || RecoveryCohort {
        generation: 6,
        candidates: hosts(&[1, 2, 3]),
        quorum: Quorum { f: 1 },
    };
    let (taken, recorded) = state.finish_takeover(&start, None, cohort());
    assert_eq!(taken, TakenOver::Pending);
    assert!(recorded.is_none());
    let value = HeadValue {
        manifest: Some([7; 32]),
        content_holders: vec![2],
        name: "scratch".to_owned(),
        size: SizeClass::Unbounded,
        names: NamePolicy::Exact,
        owner: Principal::Uid { uid: 501 },
    };
    let adoption = |acked: &[u64], value: Vec<u8>| Adoption {
        sequence: 3,
        value,
        placement: placement(&[1, 2, 3], acked),
    };
    let short = adoption(&[1], value.to_record_bytes());
    let (taken, recorded) = state.finish_takeover(&start, Some(short), cohort());
    assert_eq!(taken, TakenOver::Pending);
    assert!(recorded.is_none(), "a short adoption records no cohort");
    assert!(state.pending.contains(&OBJECT.0));
    let whole = adoption(&[1, 2], value.to_record_bytes());
    let (taken, recorded) = state.finish_takeover(&start, Some(whole), cohort());
    assert_eq!(taken, TakenOver::Head);
    let recorded = recorded.unwrap();
    assert_eq!((recorded.generation, recorded.candidates), (6, hosts(&[1, 2, 3])));
    assert!(state.pending.is_empty() && state.departed.is_empty());
    assert_eq!(state.placed[&OBJECT.0].epoch, HostEpoch(5));
    assert_eq!(state.materialize[&OBJECT.0], value);
    assert_eq!(head_step(false, Some(2), true), HeadStep::Wait);
    assert_eq!(head_step(true, None, true), HeadStep::Wait);
    assert_eq!(head_step(true, Some(2), false), HeadStep::Wait);
    let serve = head_step(true, Some(2), true);
    assert_eq!(serve, HeadStep::Serve { shard: 2 });
    assert_eq!(state.materialized(OBJECT, HeadStep::Wait, None), None, "it waits silently");
    assert_eq!(state.materialize.len(), 1);
    assert_eq!(state.materialized(OBJECT, serve, Some(false)), Some(Refused::Materialize));
    assert_eq!(state.materialized(OBJECT, serve, None), Some(Refused::Materialize));
    assert_eq!(state.materialize.len(), 1);
    assert_eq!(state.materialized(OBJECT, serve, Some(true)), None);
    assert!(state.materialize.is_empty());
    let other = adoption(&[1, 2], vec![9]);
    assert_eq!(state.finish_takeover(&start, Some(other), cohort()).0, TakenOver::Other);
    state.record_acks_in(OBJECT, 3, HostEpoch(5), &placement(&[1, 2, 3], &[3]));
    assert!(state.placed[&OBJECT.0].placement.acked.contains(&HostId(3)));
}

#[test]
fn a_placement_moves_to_its_shard_when_it_is_served_there() {
    let mut owner = Takeovers {
        pending: BTreeSet::new(),
        departed: BTreeMap::new(),
        placed: BTreeMap::new(),
        materialize: BTreeMap::new(),
    };
    let placed = || PlacedHead {
        sequence: 3,
        epoch: HostEpoch(5),
        placement: placement(&[1, 2, 3], &[1, 2]),
    };
    owner.serve_placement(OBJECT, placed(), false);
    assert!(owner.placed.is_empty());
    owner.serve_placement(OBJECT, placed(), true);
    assert_eq!(owner.placed[&OBJECT.0].epoch, HostEpoch(5));
    owner.unsealed(OBJECT);
    assert_eq!(owner.placed.len(), 1);
}

#[test]
fn a_takeover_commits_only_what_was_promised() {
    let begin = || {
        let last = RecoveryCohort {
            generation: 5,
            candidates: hosts(&[1, 9, 4]),
            quorum: Quorum { f: 1 },
        };
        TakeoverDrive::begin(
            OBJECT,
            &PLACING,
            hosts(&[1, 2, 3]),
            Some(last),
            Some(HostEpoch(4)),
        )
        .unwrap()
    };
    let none = TakeoverDrive::begin(OBJECT, &PLACING, hosts(&[1]), None, Some(HostEpoch(4)));
    assert!(none.is_none());
    let mut drive = begin();
    assert!(drive.wants(HostId(4)) && !drive.wants(HostId(2)), "the last cohort promises");
    drive.promoted(None);
    assert_eq!(drive.stage, TakeoverStage::Ended);
    assert!(!drive.wants(HostId(4)) && !drive.wants(HostId(2)));
    drive.promoted(Some(Adopted { sequence: 3, value: vec![1] }));
    assert_eq!(drive.stage, TakeoverStage::Ended, "promises are taken up once");
    assert!(drive.committed(Some(placement(&[1, 2, 3], &[1, 2]))).0.is_none());

    let mut drive = begin();
    drive.promoted(Some(Adopted { sequence: 3, value: vec![1] }));
    assert_eq!(drive.stage, TakeoverStage::Commit);
    assert!(drive.wants(HostId(2)) && !drive.wants(HostId(4)), "the candidates accept");
    let (adoption, cohort) = drive.committed(Some(placement(&[1, 2, 3], &[1, 2])));
    let adoption = adoption.unwrap();
    assert_eq!((adoption.sequence, adoption.value), (3, vec![1]));
    assert_eq!((cohort.generation, cohort.candidates), (6, hosts(&[1, 2, 3])));
}

#[test]
fn adopted_content_is_fetched_before_it_is_served() {
    assert_eq!(materialize_step(false, false, false), Materialize::Done);
    assert_eq!(materialize_step(true, true, false), Materialize::Serve);
    assert_eq!(materialize_step(true, false, true), Materialize::Fetch);
    assert_eq!(materialize_step(true, false, false), Materialize::Wait);
    assert_eq!(fetched_step(false, false), (Materialize::Wait, None));
    assert_eq!(fetched_step(true, true), (Materialize::Serve, None));
    assert_eq!(
        fetched_step(true, false),
        (Materialize::Wait, Some(Refused::Materialize))
    );
    assert_eq!(green_step(false, Some(1), true), GreenStep::Incomplete);
    assert_eq!(green_step(true, None, true), GreenStep::Wait);
    assert_eq!(green_step(true, Some(1), false), GreenStep::Wait);
    let serve = green_step(true, Some(1), true);
    assert_eq!(serve, GreenStep::Serve { shard: 1 });
    let mut queued = BTreeSet::from([OBJECT.0]);
    assert_eq!(
        green_ended(&mut queued, OBJECT, GreenStep::Incomplete, None),
        Some(Refused::TakeoverIncomplete)
    );
    assert_eq!(
        green_ended(&mut queued, OBJECT, serve, None),
        Some(Refused::TakeoverRefused)
    );
    assert!(queued.contains(&OBJECT.0));
    assert_eq!(green_ended(&mut queued, OBJECT, serve, Some(true)), None);
    assert!(queued.is_empty());
}

#[test]
fn a_committed_configuration_is_installed_once() {
    let facts = |joining: bool, installed: u64| GroupFacts {
        joining,
        council_initialized: true,
        root_initialized: true,
        council_version: 4,
        installed_version: installed,
        owner_view: true,
    };
    let members = hosts(&[1, 2]);
    let sync = sync_config_from_council(HostId(1), &members, &facts(false, 3));
    assert!(sync.ready && sync.install);
    let sync = sync_config_from_council(HostId(1), &members, &facts(false, 4));
    assert!(sync.ready && !sync.install);
    assert!(!sync_config_from_council(HostId(1), &members, &facts(true, 3)).ready);
    assert!(!sync_config_from_council(HostId(3), &members, &facts(false, 3)).ready);
    assert!(installs_fanned(true, 4, 3));
    assert!(!installs_fanned(true, 3, 3));
}

#[test]
fn a_seal_walks_places_and_is_recorded() {
    let mut seals = Seals::new();
    let volume = SealVolume { object: OBJECT, epoch: 3, head: SnapshotId(8), placed: false };
    assert_eq!(seals.sealable_head(&volume), Some((SnapshotId(8), 3)));
    assert_eq!(
        seals.start_seal(&volume, HostId(1), hosts(&[1, 2, 3]), false, false),
        Err(Refused::Seal)
    );
    seals.start_seal(&volume, HostId(1), hosts(&[1, 2, 3]), true, false).unwrap();
    assert!(seals.walking(OBJECT));
    assert_eq!(seals.advance_seal(OBJECT, Walked::More), (false, None));
    assert_eq!(seals.advance_seal(OBJECT, Walked::Done([7; 32])), (true, None));
    assert!(!seals.walking(OBJECT));
    let quorum = Quorum { f: 1 };
    let round = consensus_budget(None);
    let work = seals.content_work(OBJECT, quorum, &round, 100).unwrap();
    assert_eq!(work.targets(HostId(1)), hosts(&[2]), "the first f remote candidates");
    assert!(seals.content_work(OBJECT, quorum, &round, 100).is_none(), "the archive is out");
    seals.round_done(
        &work,
        &ContentRound {
            dispatched_ns: 100,
            latencies_ns: Vec::new(),
            acked: None,
            refilled: Vec::new(),
        },
    );
    assert!(
        seals.content_work(OBJECT, quorum, &round, 100 + HEARTBEAT_NS - 1).is_none(),
        "within the hedge delay"
    );
    let hedged = seals.content_work(OBJECT, quorum, &round, 100 + HEARTBEAT_NS).unwrap();
    assert!(hedged.hedged);
    assert_eq!(hedged.targets(HostId(1)), hosts(&[2, 3]));
    let late = LateSeal {
        shard: 0,
        object: OBJECT,
        snapshot: SnapshotId(8),
        sequence: 3,
        manifest: [7; 32],
        dispatched_ns: 100,
    };
    let ack = |holder: u64| ContentAck {
        holder: HostId(holder),
        object: OBJECT,
        sequence: 3,
        manifest: [7; 32],
    };
    let foreign = [
        ContentAck { object: ObjectId(0), ..ack(2) },
        ContentAck { sequence: 4, ..ack(2) },
        ContentAck { manifest: [8; 32], ..ack(2) },
    ];
    for unbound in foreign {
        assert!(!unbound.binds(&late));
        seals.fold_late_content(&late, &vec![unbound], 50);
    }
    assert_eq!(seals.latency.len(), 0, "an acknowledgement of another put counts for nothing");
    assert_eq!(late_latency_ns(150, &late), 50);
    assert_eq!(late_latency_ns(50, &late), 0);
    seals.fold_late_content(&late, &vec![ack(3)], 50);
    assert_eq!(seals.latency.len(), 1);
    let head = PlacedHead {
        sequence: 3,
        epoch: HostEpoch(2),
        placement: placement(&[1, 2, 3], &[1, 2]),
    };
    assert_eq!(
        seals.placed_seal(OBJECT, Some(&head), quorum),
        Some((SnapshotId(8), [7; 32], vec![1, 3]))
    );
    assert!(seals.placed_seal(OBJECT, None, quorum).is_none());
    seals.drop_seal(OBJECT);
    assert!(seals.jobs.is_empty());
}

#[test]
fn the_healer_takes_one_placed_snapshot_after_another() {
    let mut seals = Seals::new();
    let placed = |object: u128, placed: bool| SealVolume {
        object: ObjectId(object),
        epoch: 1,
        head: SnapshotId(1),
        placed,
    };
    let volumes = vec![placed(1, true), placed(2, false), placed(3, true)];
    assert_eq!(seals.heal_one_placed_snapshot(&volumes, 1), Some(0));
    assert_eq!(seals.heal_one_placed_snapshot(&volumes, 2), None, "not yet due");
    let period = HEARTBEAT_NS * HEAL_PERIODS_AT_REST;
    assert_eq!(seals.heal_one_placed_snapshot(&volumes, 1 + period), Some(2));
    assert_eq!(seals.heal_one_placed_snapshot(&volumes, 1 + 2 * period), Some(0));
}

#[test]
fn a_lent_session_goes_home_and_a_stale_one_replaces_nothing() {
    let mut links = links(&[2, 3]);
    let taken = links.take_sessions(&hosts(&[3, 2, 9]));
    assert_eq!(taken, vec![(HostId(2), session(2)), (HostId(3), session(3))]);
    assert!(links.take_sessions(&hosts(&[2])).is_empty());
    assert_eq!(links.return_sessions(&vec![taken[0]]), 0);
    assert_eq!(links.links[&2], RecordLink::up(session(2)));
    let newer = SessionHandle { key: 77, connection: Some(1) };
    links.drop_lost(&hosts(&[3]));
    links.links.insert(3, RecordLink::up(newer));
    assert_eq!(links.return_sessions(&vec![taken[1]]), 1, "a late return is stale");
    assert_eq!(links.links[&3], RecordLink::up(newer));
}

#[test]
fn a_link_is_enrolled_by_an_answered_page_only() {
    let mut links = RecordLinks { links: BTreeMap::new() };
    let peer = HostId(2);
    assert_eq!(link_step(&links, peer, true), LinkStep::Establish);
    assert_eq!(link_step(&links, peer, false), LinkStep::Idle);
    assert!(!links.enroll_record_session(peer, session(2), DiscoveryOutcome::Deadline));
    assert!(links.links.is_empty());
    assert!(links.enroll_record_session(peer, session(2), DiscoveryOutcome::Answered));
    assert_eq!(link_step(&links, peer, true), LinkStep::Refresh);
    let lent = links.borrow_for_discovery(peer).unwrap();
    assert!(links.borrow_for_discovery(peer).is_none());
    links.finish_discovery(peer, lent, DiscoveryOutcome::Answered);
    assert_eq!(links.links[&2], RecordLink::up(session(2)));
    let lent = links.borrow_for_discovery(peer).unwrap();
    links.finish_discovery(peer, lent, DiscoveryOutcome::Transport);
    assert!(!links.links.contains_key(&2));
    let mut dialed = Dialed::Dialing;
    let begun = Cursor { announced: true, after: Some(HostId(3)), generation: 4 };
    let fresh = Cursor { announced: false, after: None, generation: 0 };
    let mut cursor = begun;
    let (host, stale) = links.refresh_record_identity(None, peer, &mut dialed, &mut cursor);
    assert_eq!((host, stale, cursor), (peer, false, begun));
    let (host, stale) =
        links.refresh_record_identity(Some(HostId(5)), peer, &mut dialed, &mut cursor);
    assert_eq!((host, stale, cursor), (HostId(5), true, fresh));
    assert_eq!(dialed, Dialed::Absent);
    assert_eq!(sweep_of(begun, true), fresh, "a fresh session sweeps from the start");
    assert_eq!(sweep_of(begun, false), begun);
}

#[test]
fn a_discovery_reply_is_read_before_its_timer_and_after_its_link() {
    assert_eq!(
        discovery_wait(false, Some(true), true),
        DiscoveryWait::Fault(DiscoveryOutcome::Invalidated)
    );
    assert_eq!(discovery_wait(true, Some(true), true), DiscoveryWait::Reply);
    assert_eq!(
        discovery_wait(true, Some(false), false),
        DiscoveryWait::Fault(DiscoveryOutcome::Transport)
    );
    assert_eq!(
        discovery_wait(true, None, true),
        DiscoveryWait::Fault(DiscoveryOutcome::Deadline)
    );
    assert_eq!(discovery_wait(true, None, false), DiscoveryWait::Pending);
    assert_eq!(DiscoveryOutcome::Deadline.counter(), Some(Refused::DiscoveryDeadline));
    assert_eq!(DiscoveryOutcome::Answered.counter(), None);
}

#[test]
fn a_dial_goes_where_discovery_last_saw_the_peer() {
    let at = |last: u8| SocketAddrV4::new(Ipv4Addr::new(10, 0, 0, last), 7);
    let name = NodeAddress::Name { host: "slates-1".to_owned(), port: 7 };
    assert!(matches!(
        client_for(Some(&NodeAddress::Ip(at(2))), &name, false),
        Dial::Address(address) if address == at(2)
    ));
    assert!(matches!(client_for(None, &name, false), Dial::NoResolver));
    assert!(matches!(
        client_for(None, &name, true),
        Dial::Resolve { host, port: 7 } if host == "slates-1"
    ));
}

#[test]
fn a_silent_peer_keeps_its_socket_for_two_budgets() {
    assert_eq!(Dialed::Absent.step(), EstablishStep::Dial);
    assert_eq!(Dialed::Dialing.step(), EstablishStep::Drive);
    assert_eq!(Dialed::Up.step(), EstablishStep::Keep);
    assert_eq!(Dialed::driven(Handshake::Established), (Dialed::Up, None));
    assert_eq!(
        Dialed::driven(Handshake::Silent { budgets_spent: 1 }),
        (Dialed::Dialing, None)
    );
    assert_eq!(
        Dialed::driven(Handshake::Silent { budgets_spent: 2 }),
        (Dialed::Absent, Some(Refused::DialRedial))
    );
    assert_eq!(
        Dialed::driven(Handshake::Fault),
        (Dialed::Absent, Some(Refused::DialFault))
    );
    let mut dialed = Dialed::Dialing;
    assert!(dialed.release());
    assert!(!dialed.release());
}

#[test]
fn a_peer_is_served_under_the_anchor_of_its_certificate() {
    let roster = vec![Rostered { certificate: vec![1], anchor: HostId(9) }];
    assert_eq!(rostered_anchor(&roster, &[1]), Some(HostId(9)));
    assert_eq!(rostered_anchor(&roster, &[2]), None);
    assert_eq!(probe_anchor(&roster, Some(&[2]), Some(HostId(4))), Ok(HostId(4)));
    assert_eq!(probe_anchor(&roster, Some(&[2]), None), Err(Refused::Accept));
    assert_eq!(probe_anchor(&roster, None, Some(HostId(4))), Err(Refused::Accept));
    assert_eq!(record_anchor(&roster, Some(&[2]), HostId(5)), Ok(HostId(5)));
    assert_eq!(record_anchor(&roster, None, HostId(5)), Err(Refused::Accept));
    assert_eq!(accept_failure(AcceptFailure::Closed), Refused::AcceptReplaced);
    assert_eq!(accept_failure(AcceptFailure::PeerSessions), Refused::AcceptPeerSessions);
    assert_eq!(accept_failure(AcceptFailure::PeerCapacity), Refused::AcceptPeerCapacity);
    assert_eq!(accept_failure(AcceptFailure::Other), Refused::AcceptHandshake);
    assert_eq!(resolve_refusal(&DnsError::Refused { rcode: 3 }), Refused::ResolveNxdomain);
    assert_eq!(
        resolve_refusal(&DnsError::NoNameserver).name(),
        "fleet.resolve.no-nameserver"
    );
}

#[test]
fn a_late_reply_is_folded_where_it_still_counts() {
    assert_eq!(LateReplies::Discard.fold(Some(RaftReply::Vote)), LateFold::Nothing);
    assert_eq!(LateReplies::Council.fold(Some(RaftReply::PreVote)), LateFold::Nothing);
    assert_eq!(LateReplies::Council.fold(None), LateFold::Nothing);
    assert_eq!(LateReplies::Root.fold(Some(RaftReply::Append)), LateFold::Fold { root: true });
    assert_eq!(LateReplies::ConfigFetch.fold(None), LateFold::Adopt { root: false });
    assert!(LateReplies::Council.samples_paths() && !LateReplies::RootFetch.samples_paths());
    let mut dispatch =
        Dispatch::new(&hosts(&[1, 2, 3]), &hosts(&[2]), LateReplies::Discard);
    assert_eq!(dispatch.outstanding, hosts(&[1, 3]));
    assert!(dispatch.settle(&hosts(&[1]), false).is_empty());
    assert_eq!(dispatch.settle(&Vec::new(), true), hosts(&[3]));
    assert!(dispatch.outstanding.is_empty());
}

#[test]
fn a_forward_waits_for_its_session_within_its_deadline() {
    let mut wait = ForwardWait { missed: false };
    assert_eq!(
        wait.step(0, 100, false, true),
        ForwardStep::Wait { poll_ns: poll_ns(), first_miss: Some(Refused::ForwardSessionOut) }
    );
    assert_eq!(
        wait.step(50, 100, false, true),
        ForwardStep::Wait { poll_ns: poll_ns(), first_miss: None }
    );
    assert_eq!(wait.step(60, 100, true, true), ForwardStep::Send { remaining_ns: 40 });
    assert_eq!(wait.step(100, 100, false, true), ForwardStep::GiveUp { first_miss: None });
    let mut unlinked = ForwardWait { missed: false };
    assert_eq!(
        unlinked.step(100, 100, false, false),
        ForwardStep::GiveUp { first_miss: Some(Refused::ForwardNoSession) }
    );
}

#[test]
fn a_group_member_acts_by_its_seat() {
    let seat = Seat {
        rejoining: false,
        voter: true,
        leader: true,
        initialized: true,
        refresh_wanted: false,
        diverges: false,
    };
    let local = HostId(1);
    assert!(matches!(
        group_step(seat, local, hosts(&[1, 2, 3])),
        GroupStep::Lead { others } if others == hosts(&[2, 3])
    ));
    assert!(matches!(
        group_step(Seat { leader: false, ..seat }, local, hosts(&[1, 2, 3])),
        GroupStep::Follow { others } if others == hosts(&[2, 3])
    ));
    assert!(matches!(
        group_step(Seat { leader: false, ..seat }, local, hosts(&[1])),
        GroupStep::SelfElect
    ));
    let learner = Seat { voter: false, leader: false, ..seat };
    assert!(matches!(
        group_step(learner, local, hosts(&[2])),
        GroupStep::Learn { fetch: false, .. }
    ));
    assert!(matches!(
        group_step(Seat { refresh_wanted: true, ..learner }, local, hosts(&[2])),
        GroupStep::Learn { fetch: true, .. }
    ));
    assert!(matches!(
        group_step(Seat { rejoining: true, ..seat }, local, hosts(&[1, 2])),
        GroupStep::Learn { .. }
    ));
}

#[test]
fn appends_go_over_the_sessions_that_are_in() {
    let sessions = vec![(HostId(2), session(2)), (HostId(3), session(3))];
    let paired = pair_appends(&sessions, &hosts(&[3, 4]));
    assert_eq!(paired.requests, vec![(HostId(3), session(3))]);
    assert_eq!(paired.kept, vec![(HostId(2), session(2))]);
    assert_eq!(last_follow_on(&vec![true, false, true, false]), Some(2));
    assert_eq!(last_follow_on(&vec![false]), None);
}

#[test]
fn an_election_asks_before_it_votes() {
    assert_eq!(Election::start(true, 2), Election::PreVote);
    assert_eq!(Election::start(true, 0), Election::Over);
    assert_eq!(Election::PreVote.folded(true), Election::Vote);
    assert_eq!(Election::PreVote.folded(false), Election::Over);
    assert_eq!(Election::Vote.folded(true), Election::Over);
    assert_ne!(consensus_round(true).stream, consensus_round(false).stream);
    assert_ne!(fetch_round(true).stream, fetch_round(false).stream);
}

#[test]
fn a_council_serves_its_region_and_a_root_serves_all() {
    assert_eq!(serve_group(false, false, true), GroupAnswer::Nothing);
    assert_eq!(serve_group(false, true, true), GroupAnswer::Run);
    assert_eq!(serve_group(true, false, true), GroupAnswer::Run);
    assert_eq!(serve_group(true, true, false), GroupAnswer::Nothing);
    assert!(!fetches_from(false, false, &hosts(&[2]), HostId(2)));
    assert!(fetches_from(false, true, &hosts(&[2]), HostId(2)));
}

#[test]
fn a_fetch_names_the_group_a_learner_has() {
    let group = |group: Option<GroupId>, version: u64| GroupState {
        initialized: group.is_some(),
        group,
        version,
        voter: false,
    };
    let state = ConsensusState {
        host: HostId(1),
        seed: HostId(1),
        council: group(Some(GroupId([3; 32])), 4),
        root: group(None, 0),
        root_regions: Vec::new(),
        members: Vec::new(),
        node_regions: BTreeMap::new(),
        recovery: RecoveryState::default(),
        bootstrap_authorized: None,
        consensus_ready: false,
    };
    let council = fetch_request(&state, false);
    assert_eq!((council.group, council.version), (Some(GroupId([3; 32])), 4));
    assert_eq!(fetch_request(&state, true).group, None);
}

#[test]
fn a_period_runs_every_plane_and_rests() {
    let mut step = PeriodStep::Settle;
    let mut seen = Vec::new();
    while step != PeriodStep::Rest {
        seen.push(step);
        step = step.next(2);
    }
    assert!(seen.contains(&PeriodStep::Records { shard: 0 }));
    assert!(seen.contains(&PeriodStep::Records { shard: 1 }));
    assert_eq!(seen.len(), 10);
    let mut record = RecordStep::Seals;
    let mut steps = 0;
    while record != RecordStep::Done {
        record = record.next();
        steps += 1;
    }
    assert_eq!(steps, 4);
}

#[test]
fn live_members_are_proposed_with_their_domains_and_regions_by_their_least() {
    let mut members = Members {
        local: HostId(1),
        local_seed: HostId(1),
        learned: BTreeMap::new(),
        authenticated: BTreeSet::from([2, 3]),
        node_regions: BTreeMap::from([(1, RegionId(0)), (2, RegionId(0)), (3, RegionId(5))]),
        forged: 0,
    };
    members.authenticated.insert(1);
    let alive = hosts(&[1, 2, 3]);
    let representatives = alive_representatives(&members, &alive);
    assert!(representatives.contains_key(&0));
    let proposals = proposed_members(&members, &alive, &None);
    assert!(proposals.iter().all(|(_, domain)| domain.is_none()));
    assert!(!proposals.is_empty());
}
