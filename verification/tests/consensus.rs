//! The consensus groups: creating them, joining them, and recovering them.

use slates_server::config::{
    DaemonConfig, FleetMembership, MachineProfile, RuntimeConfig, UnitSizes,
};
use slates_server::consensus::{
    founding, genesis, Adopt, Bootstrap, ConsensusRefusal, ConsensusState, Created, Definition,
    EnvelopeError, Fetch, Fetched, FetchedJoin, GroupId, GroupState, Holds, Publication,
};
use slates_server::consensus_recovery::{
    plan, recovery_proof, reform, reform_root, secret, Recovery, RecoveryKey, RecoveryPlan,
    RecoveryState, ReformBase, Retained, RootBase,
};
use slates_server::ids::{DomainId, HostEpoch, HostId, ObjectId, Quorum, RegionId};
use std::collections::BTreeMap;

/// The grant-issuer secret of these nodes.
const SECRET: [u8; 32] = [0x5A; 32];

fn definition(seed: u8) -> Definition {
    Definition { raft_base: vec![seed, 1], base: vec![seed, 2, 3] }
}

/// A group created from `seed`, before anything was committed.
fn created(seed: u8) -> Created {
    Created { definition: Some(definition(seed)), version: 0 }
}

/// A root configuration in which an object made in the first region moved to the third.
fn moved_home(state: &mut ConsensusState, object: ObjectId) -> RootBase {
    let regions = vec![RegionId(0), RegionId(2)];
    assert!(state.configured(2, Holds::Regions(regions.clone())));
    RootBase { version: 2, regions, homes: BTreeMap::from([(object.0, RegionId(2))]) }
}

/// A node of its own group, with both groups created from `seed`.
fn node(host: u64, seed: u8) -> ConsensusState {
    let mut node = fresh(host);
    assert!(matches!(node.bootstrap(true, host), Bootstrap::Create { root: true, .. }));
    node.bootstrapped(created(seed), Some(created(seed)));
    node
}

fn fresh(host: u64) -> ConsensusState {
    let empty = || GroupState { initialized: false, group: None, version: 0, voter: false };
    ConsensusState {
        host: HostId(host),
        seed: HostId(host),
        council: empty(),
        root: empty(),
        root_regions: Vec::new(),
        members: vec![HostId(host)],
        node_regions: BTreeMap::new(),
        recovery: RecoveryState::default(),
        bootstrap_authorized: None,
        consensus_ready: false,
    }
}

/// What a node retains of its root group; `view` changes with every committed entry.
fn retained(view: u8) -> Retained {
    Retained {
        raft: vec![1, 2],
        base: vec![3],
        view: vec![view],
        snapshot_index: 4,
        log_entries: 3,
        commit_index: 6,
        version: 2,
        voters: vec![HostId(1)],
    }
}

#[test]
fn an_independent_group_cannot_supply_consensus_messages_or_join_state() {
    let stranger = node(7, 1);
    let own = node(7, 2);
    for root in [false, true] {
        let message = stranger.encode_message(root, vec![9]).unwrap();
        let fetch = Fetch { group: None, version: 0 };
        let answer = stranger.serve_fetch(root, Some(fetch), true).unwrap();
        assert!(answer.join);
        assert_eq!(own.decode_message(root, Some(message)), Err(EnvelopeError::ForeignGroup));
        let reply = Fetched {
            group: answer.group,
            join: Some(FetchedJoin {
                donor: HostId(7),
                definition: definition(1),
                base_decodes: true,
            }),
            version: Some(0),
        };
        assert_eq!(own.adopt_fetch(root, HostId(7), &Some(reply)), Adopt::Refuse);
    }
    assert!(own.council.voter);
    assert!(own.root.voter);
}

#[test]
fn explicit_recovery_preserves_moved_homes_and_refuses_stale_approval() {
    let mut state = node(1, 1);
    let object = ObjectId(u128::from_le_bytes([1; 16]));
    let base = moved_home(&mut state, object);
    let reviewed = plan(&state, &SECRET, true, None, Some(retained(1))).unwrap();
    let proof = recovery_proof(&SECRET, &reviewed.digest);
    assert!(matches!(
        state.recover(&SECRET, true, None, &reviewed.digest, &[0; 32], Some(retained(1))),
        Recovery::Refused(ConsensusRefusal::GrantIssuerUnverified)
    ));
    // An entry commits: the plan that was reviewed is no longer the plan.
    assert!(matches!(
        state.recover(&SECRET, true, None, &reviewed.digest, &proof, Some(retained(2))),
        Recovery::Refused(ConsensusRefusal::RecoveryStale)
    ));
    let reviewed = again(&state, 2);
    let proof = recovery_proof(&SECRET, &reviewed.digest);
    // Nothing retained, another destination and another secret's plan are no approved recovery.
    assert!(matches!(
        state.recover(&SECRET, true, None, &reviewed.digest, &proof, None),
        Recovery::Refused(ConsensusRefusal::RecoveryUnavailable)
    ));
    let elsewhere = Some(GroupId([3; 32]));
    assert!(matches!(
        state.recover(&SECRET, true, elsewhere, &reviewed.digest, &proof, Some(retained(2))),
        Recovery::Refused(ConsensusRefusal::RecoveryStale)
    ));
    let foreign = plan(&state, &[8; 32], true, None, Some(retained(2))).unwrap();
    let signed = recovery_proof(&SECRET, &foreign.digest);
    assert!(matches!(
        state.recover(&SECRET, true, None, &foreign.digest, &signed, Some(retained(2))),
        Recovery::Refused(ConsensusRefusal::RecoveryStale)
    ));
    assert!(matches!(
        state.recover(&SECRET, true, None, &reviewed.digest, &proof, Some(retained(2))),
        Recovery::Reform
    ));
    let base = reform_root(base).unwrap();
    let group = genesis(true, &[9], &[9]);
    assert_eq!(state.recovery_started(true, reviewed.digest, group, None), Ok(()));
    assert!(!state.consensus_ready);
    assert!(matches!(
        state.recovery_published(true, group, false),
        Recovery::Started { joining: false, .. }
    ));
    assert!(state.consensus_ready);
    assert!(!group.is(&reviewed.previous));
    assert_eq!(base.home_of(object, RegionId(0)), RegionId(2));
    assert_eq!((base.version, state.root.version), (3, 3));
    assert!(state.root.voter);
    assert!(state.group_id(true).unwrap().is(&group));
    let learner = Fetch { group: Some(group), version: 2 };
    assert!(
        state.serve_fetch(true, Some(learner), false).is_some(),
        "a learner at the version re-formed from is behind"
    );
    assert!(matches!(
        state.recover(&SECRET, true, None, &reviewed.digest, &proof, Some(retained(3))),
        Recovery::Started { joining: false, .. }
    ));
}

/// The plan as it is now, over a retained view.
fn again(state: &ConsensusState, view: u8) -> RecoveryPlan {
    plan(state, &SECRET, true, None, Some(retained(view))).unwrap()
}

#[test]
fn a_pending_recovery_join_survives_restart_without_serving_the_old_group() {
    let mut state = node(1, 1);
    let local = HostId(1);
    let object = ObjectId(u128::from_le_bytes([2; 16]));
    let base = moved_home(&mut state, object);
    let old_message = state.encode_message(true, vec![7]).unwrap();
    let fetch = Fetch { group: None, version: 0 };
    let old_fetch = state.serve_fetch(true, Some(fetch), true).unwrap();
    let target = Some(GroupId([3; 32]));
    let reviewed = plan(&state, &SECRET, true, target, Some(retained(1))).unwrap();
    let proof = recovery_proof(&SECRET, &reviewed.digest);
    let (group, floor) = match state.recover(
        &SECRET,
        true,
        target,
        &reviewed.digest,
        &proof,
        Some(retained(1)),
    ) {
        Recovery::Join { group, floor } => (group, floor),
        other => panic!("{other:?}"),
    };
    assert_eq!(floor, reviewed.version);
    assert_eq!(floor, 2);
    assert_eq!(state.recovery_started(true, reviewed.digest, group, Some(floor)), Ok(()));
    assert!(matches!(
        state.recovery_published(true, group, true),
        Recovery::Started { joining: true, .. }
    ));
    assert_eq!(
        state.decode_message(true, Some(old_message)),
        Err(EnvelopeError::ForeignGroup)
    );
    let reply = Fetched {
        group: old_fetch.group,
        join: Some(FetchedJoin { donor: local, definition: definition(1), base_decodes: true }),
        version: Some(2),
    };
    assert_eq!(state.adopt_fetch(true, local, &Some(reply)), Adopt::Refuse);
    let behind = Fetched { group, join: None, version: Some(1) };
    assert_eq!(state.adopt_fetch(true, local, &Some(behind)), Adopt::Refuse);
    assert!(state.serve_fetch(true, Some(fetch), true).is_none());
    assert!(!state.consensus_ready, "a paused group has no authority");
    let reviewed = again(&state, 1);
    let proof = recovery_proof(&SECRET, &reviewed.digest);
    assert!(matches!(
        state.recover(&SECRET, true, None, &reviewed.digest, &proof, Some(retained(1))),
        Recovery::Reform
    ));
    let base = reform_root(base).unwrap();
    let group = genesis(true, &[9], &[9]);
    assert_eq!(state.recovery_started(true, reviewed.digest, group, None), Ok(()));
    assert!(matches!(
        state.recovery_published(true, group, false),
        Recovery::Started { joining: false, .. }
    ));
    assert!(state.consensus_ready);
    assert_eq!(base.home_of(object, RegionId(0)), RegionId(2));
    assert_eq!(state.root.version, base.version);
}

#[test]
fn a_bootstrap_is_acknowledged_once_it_was_carried_out() {
    let mut state = fresh(5);
    assert_eq!(
        state.bootstrap(true, 6),
        Bootstrap::Refused(ConsensusRefusal::BootstrapStale)
    );
    assert_eq!(
        state.bootstrap(false, 5),
        Bootstrap::Refused(ConsensusRefusal::NotInitialized)
    );
    assert_eq!(
        state.bootstrap(true, 5),
        Bootstrap::Create { region: RegionId(0), root: true }
    );
    state.bootstrapped(created(1), Some(created(1)));
    assert_eq!((state.members.clone(), state.root_regions.clone()), (vec![HostId(5)], vec![RegionId(0)]));
    assert_eq!(state.bootstrap(true, 5), Bootstrap::Acknowledged);
    assert_eq!(
        state.bootstrap(false, 5),
        Bootstrap::Refused(ConsensusRefusal::AlreadyInitialized)
    );
    let council = state.group_id(false).unwrap();
    let root = state.group_id(true).unwrap();
    assert!(!council.is(&root), "one definition makes two groups");
    let mut input = b"slates/consensus-genesis/v1".to_vec();
    input.extend_from_slice(&[1, 1, 1, 1, 2, 3]);
    assert_eq!(root.0, *blake3::hash(&input).as_bytes());
}

#[test]
fn another_region_waits_for_the_root_to_admit_it() {
    let mut state = fresh(5);
    state.node_regions.insert(5, RegionId(2));
    state.root.initialized = true;
    assert_eq!(
        state.bootstrap(false, 5),
        Bootstrap::Refused(ConsensusRefusal::NotInitialized)
    );
    state.root_regions.push(RegionId(2));
    assert_eq!(
        state.bootstrap(false, 5),
        Bootstrap::Create { region: RegionId(2), root: false }
    );
}

#[test]
fn a_fresh_member_joins_from_the_groups_own_definition_only() {
    let group = genesis(false, &definition(4).raft_base, &definition(4).base);
    let reply = |donor: u64, seed: u8, decodes: bool| Fetched {
        group,
        join: Some(FetchedJoin {
            donor: HostId(donor),
            definition: definition(seed),
            base_decodes: decodes,
        }),
        version: Some(1),
    };
    let mut state = fresh(9);
    let peer = HostId(2);
    assert_eq!(state.adopt_fetch(false, peer, &Some(reply(2, 4, true))), Adopt::Join);
    assert_eq!(state.adopt_fetch(false, peer, &Some(reply(3, 4, true))), Adopt::Refuse);
    assert_eq!(state.adopt_fetch(false, peer, &Some(reply(2, 5, true))), Adopt::Refuse);
    assert_eq!(state.adopt_fetch(false, peer, &Some(reply(2, 4, false))), Adopt::Refuse);
    assert_eq!(state.adopt_fetch(false, peer, &None), Adopt::Refuse);
    assert!(state.joined(false, group, 1, false), "a learner takes the configuration");
    assert_eq!(state.council.version, 1);
    assert!(state.configured(3, Holds::Members(vec![HostId(2), HostId(9)])));
    assert!(!state.configured(2, Holds::Members(Vec::new())), "never an older one");
    assert_eq!((state.council.version, state.members.len()), (3, 2));
    let behind = Fetch { group: Some(group), version: 2 };
    assert!(state.serve_fetch(false, Some(behind), false).is_some());
    assert!(state.serve_fetch(false, Some(Fetch { version: 3, ..behind }), false).is_none());
    assert_eq!(
        state.adopt_fetch(false, peer, &Some(reply(2, 4, true))),
        Adopt::Configuration
    );
    state.node_regions.insert(2, RegionId(7));
    assert!(!state.same_region(peer));
    assert_eq!(state.adopt_fetch(false, peer, &Some(reply(2, 4, true))), Adopt::Refuse);
}

#[test]
fn a_learner_is_answered_only_with_something_newer() {
    let mut state = node(1, 1);
    state.council.version = 5;
    let own = state.group_id(false).unwrap();
    let ask = |group: Option<GroupId>, version: u64| Some(Fetch { group, version });
    assert!(state.serve_fetch(false, ask(Some(own), 4), false).is_some());
    assert!(state.serve_fetch(false, ask(Some(own), 5), true).is_none());
    assert!(state.serve_fetch(false, ask(Some(GroupId([0; 32])), 0), true).is_none());
    assert!(state.serve_fetch(false, ask(None, 0), false).is_none());
    assert!(state.serve_fetch(false, None, true).is_none());
}

#[test]
fn messages_are_read_by_the_members_of_their_group() {
    let sender = node(1, 1);
    let member = node(2, 1);
    let envelope = sender.encode_message(false, vec![1, 2]).unwrap();
    assert_eq!(member.decode_message(false, Some(envelope)), Ok(vec![1, 2]));
    assert_eq!(
        member.decode_message(false, None),
        Err(EnvelopeError::MalformedEnvelope)
    );
    assert!(fresh(3).encode_message(true, Vec::new()).is_none());
    assert_eq!(fresh(3).decode_message(true, None), Err(EnvelopeError::Uninitialized));
}

#[test]
fn a_publication_is_taken_unless_it_is_older() {
    let publication = Publication::capture(4, true);
    let mut ready = false;
    assert!(!publication.apply(5, &mut ready));
    assert!(!ready);
    assert!(publication.apply(4, &mut ready));
    assert!(ready);
}

#[test]
fn a_node_is_ready_when_both_groups_hold_it() {
    let mut state = node(1, 1);
    state.refresh_readiness();
    assert!(state.consensus_ready);
    state.members = vec![HostId(2)];
    state.refresh_readiness();
    assert!(!state.consensus_ready);
    state.members.push(HostId(1));
    assert_eq!(state.recovery_started(true, [1; 32], GroupId([3; 32]), Some(9)), Ok(()));
    state.refresh_readiness();
    assert!(!state.consensus_ready, "a pending join serves nothing");
    state.install_recovered_authority();
    assert!(state.consensus_ready);
}

#[test]
fn a_recovery_key_signs_a_plan_under_the_operators_secret() {
    assert!(RecoveryKey::from_bytes([0; 32]).is_none(), "an unprovisioned key");
    let key = RecoveryKey::from_bytes([7; 32]).unwrap();
    let digest = [9u8; 32];
    let mut input = b"slates/consensus-recovery/v1".to_vec();
    input.extend_from_slice(&digest);
    let expected = *blake3::keyed_hash(&[7; 32], &input).as_bytes();
    assert_eq!(key.proof_for(&digest), expected);
    assert_eq!(recovery_proof(&[7; 32], &digest), expected);
    assert_eq!(secret(&Some(key), &SECRET), &[7; 32]);
    assert_eq!(secret(&None, &SECRET), &SECRET);
}

#[test]
fn there_is_no_plan_without_a_retained_group() {
    let state = node(1, 1);
    let own = state.group_id(true);
    let refusal = |outcome: Result<RecoveryPlan, ConsensusRefusal>| outcome.err();
    assert_eq!(
        refusal(plan(&state, &SECRET, true, None, None)),
        Some(ConsensusRefusal::RecoveryUnavailable)
    );
    assert_eq!(
        refusal(plan(&fresh(1), &SECRET, true, None, Some(retained(1)))),
        Some(ConsensusRefusal::RecoveryUnavailable)
    );
    assert_eq!(
        refusal(plan(&state, &SECRET, true, own, Some(retained(1)))),
        Some(ConsensusRefusal::RecoveryStale)
    );
    let mut endless = retained(1);
    endless.snapshot_index = u64::MAX;
    assert_eq!(
        refusal(plan(&state, &SECRET, true, None, Some(endless))),
        Some(ConsensusRefusal::RecoveryUnavailable)
    );
    let plan = again(&state, 1);
    assert_eq!((plan.member, plan.committed, plan.last_log, plan.version), (1, 6, 7, 2));
    let mut input = b"slates/consensus-recovery-plan/v1".to_vec();
    input.push(1);
    input.extend_from_slice(&own.unwrap().0);
    input.extend_from_slice(&[0, 0, 1, 2, 3, 1]);
    assert_eq!(plan.digest, *blake3::keyed_hash(&SECRET, &input).as_bytes());
}

#[test]
fn a_plan_is_bound_to_its_destination_and_its_pending_join() {
    let mut state = node(1, 1);
    let here = again(&state, 1).digest;
    let there = plan(&state, &SECRET, true, Some(GroupId([3; 32])), Some(retained(1)));
    assert_ne!(there.unwrap().digest, here);
    assert_eq!(state.recovery_started(true, [0; 32], GroupId([3; 32]), Some(7)), Ok(()));
    let pending = again(&state, 1).digest;
    assert_ne!(pending, here);
    assert_eq!(state.recovery_started(true, [0; 32], GroupId([3; 32]), Some(8)), Ok(()));
    assert_ne!(again(&state, 1).digest, pending);
    state.root.version = u64::MAX;
    assert_eq!(
        state.recovery_started(true, [0; 32], GroupId([4; 32]), None),
        Err(ConsensusRefusal::RecoveryUnavailable)
    );
    assert!(state.recovery.root.is_some(), "a group that cannot re-form is left as it was");
}

#[test]
fn a_reformed_group_fences_every_old_writer() {
    let mut base = ReformBase {
        version: 4,
        epochs: BTreeMap::from([(1, HostEpoch(3)), (2, HostEpoch(9))]),
        generations: BTreeMap::from([(1, 2)]),
    };
    let reformed = reform(&base).unwrap();
    assert_eq!(reformed.version, 5);
    assert_eq!(reformed.epochs, BTreeMap::from([(1, HostEpoch(4)), (2, HostEpoch(10))]));
    assert_eq!(reformed.generations, BTreeMap::from([(1, 5)]));
    base.epochs.insert(2, HostEpoch(u64::MAX));
    assert_eq!(reform(&base).err(), Some(ConsensusRefusal::RecoveryUnavailable));
    let endless =
        RootBase { version: u64::MAX, regions: Vec::new(), homes: BTreeMap::new() };
    assert_eq!(reform_root(endless), Err(ConsensusRefusal::RecoveryUnavailable));
}

#[test]
fn a_founding_council_takes_the_fleets_quorum_and_its_own_domain() {
    let profile = MachineProfile {
        memory_total: 1 << 34,
        memory_limit: None,
        page: 4096,
        cache_line: 64,
        encoded_bytes: 100,
        blake3_bytes_per_second: 1,
        wake_p99_ns: 1,
        ring_entries: 8,
        spin_before_park_ns: 1,
        arena_region_bytes: 1,
        huge_pages: false,
        memcpy: Vec::new(),
        codecs: Vec::new(),
    };
    let runtime = RuntimeConfig {
        shards: 2,
        pin: false,
        cores: Vec::new(),
        step_budget_ns: 1,
        timer_tick_ns: 1,
        tasks_per_shard: 1,
        timers_per_shard: 1,
        spin_ns: 1,
    };
    let sizes = UnitSizes {
        volume_record_bytes: 512,
        inode_unit_bytes: 256,
        directory_unit_bytes: 1024,
        recovery_budget_ns: 60,
        region_total_bytes: 1 << 20,
        requests_in_flight: 2,
        telemetry_spans_per_reply: 1,
        guest_readable_bytes: 1,
        guest_writable_bytes: 1,
    };
    let region = DaemonConfig::region_geometry(&profile);
    let config = DaemonConfig::derive(&profile, runtime, sizes, region, "founding");
    let fleet = FleetMembership {
        quorum: Quorum { f: 1 },
        peers: vec![HostId(2)],
        host: HostId(1),
        origin_anchor: HostId(1),
        domains: BTreeMap::from([(1, DomainId(8))]),
        regions: BTreeMap::new(),
        region_mirrors: BTreeMap::new(),
    };
    let joint = founding(Some(&fleet), HostId(1), &config, 60);
    assert_eq!(joint.quorum, Quorum { f: 1 });
    assert_eq!(joint.domain, Some(DomainId(8)));
    assert_eq!(joint.scatter.data_bytes, config.reserve_per_shard * 2);
    let solo = founding(None, HostId(1), &config, 60);
    assert_eq!(solo.quorum, Quorum { f: 0 });
    assert_eq!(solo.domain, None);
}

#[test]
fn a_reply_is_judged_by_the_group_its_base_defines() {
    let state = fresh(9);
    let peer = HostId(2);
    let reply = Fetched {
        group: GroupId([4; 32]),
        join: Some(FetchedJoin { donor: peer, definition: definition(1), base_decodes: true }),
        version: Some(0),
    };
    assert_eq!(state.adopt_defined(false, peer, &reply, &GroupId([4; 32])), Adopt::Join);
    assert_eq!(state.adopt_defined(false, peer, &reply, &GroupId([5; 32])), Adopt::Refuse);
}

#[test]
fn an_approval_is_judged_by_the_proof_expected_of_it() {
    let state = node(1, 1);
    let reviewed = again(&state, 1);
    let digest = reviewed.digest;
    let judge = |expected: &[u8; 32], target: Option<GroupId>| {
        state.judge_approval(expected, true, target, &digest, &[7; 32], &Ok(again(&state, 1)))
    };
    assert!(matches!(judge(&[7; 32], None), Recovery::Reform));
    assert!(matches!(
        judge(&[7; 32], Some(GroupId([3; 32]))),
        Recovery::Join { group, floor: 2 } if group.0 == [3; 32]
    ));
    assert!(matches!(
        judge(&[8; 32], None),
        Recovery::Refused(ConsensusRefusal::GrantIssuerUnverified)
    ));
}
