//! The daemon: its start, its shards, its clients and its observers.

use slates_server::config::{
    DaemonConfig, FleetMembership, MachineProfile, RuntimeConfig, UnitSizes, IDLE_WINDOW_RATIO,
};
use slates_server::consensus::ConsensusRefusal;
use slates_server::daemon::{
    boot_incarnation, bootstrap_refusal, build_root_group, check_chokepoints, client_bound,
    content_bytes, content_name_of, content_range, count_breach, doorbell_slot, fleet_meshed,
    flood_step, handoff_of, host_id_of, init_shard, newest_position, operation_headroom,
    parse_descriptor, parse_length, promote_region, raise_descriptor_limit,
    registered_chokepoints, AcceptError, Admission, ArenaFill, BootstrapAnswer, BootstrapRefusal,
    BootstrapStep, Chokepoint, ChokepointRegistry, Daemon, DaemonBoot, EndedAdmission, FillReceipt,
    HandedOver, Handoff, HeldPosition, LiveClients, ObserveError, ObserveStage, Offered, Rebuilt, Release, Seating,
    ServeLoop, ServeStep, ShardBoot, ShardFacts, TooManyClients, OBSERVE_BUDGET_NS,
};
use slates_server::doorbell::{DoorbellStep, DoorbellWatch};
use slates_server::error::ServerError;
use slates_server::fleet::membership::{ContactSets, Liveness, MemberState};
use slates_server::ids::{HostEpoch, HostId, ObjectId, Quorum, RegionId};
use std::collections::{BTreeMap, BTreeSet};

fn config() -> DaemonConfig {
    let profile = MachineProfile {
        memory_total: 48 << 30,
        memory_limit: None,
        page: 4096,
        cache_line: 64,
        encoded_bytes: 20_000,
        blake3_bytes_per_second: 1 << 30,
        wake_p99_ns: 20_000,
        ring_entries: 256,
        spin_before_park_ns: 5_000,
        arena_region_bytes: 1 << 30,
        huge_pages: false,
        memcpy: Vec::new(),
        codecs: Vec::new(),
    };
    let runtime = RuntimeConfig {
        shards: 2,
        pin: false,
        cores: Vec::new(),
        step_budget_ns: 1_000_000,
        timer_tick_ns: 100_000,
        tasks_per_shard: 1,
        timers_per_shard: 1,
        spin_ns: 5_000,
    };
    let sizes = UnitSizes {
        volume_record_bytes: 512,
        inode_unit_bytes: 256,
        directory_unit_bytes: 1024,
        recovery_budget_ns: 60_000_000_000,
        region_total_bytes: 1 << 20,
        requests_in_flight: 20,
        telemetry_spans_per_reply: 16,
        guest_readable_bytes: 4096,
        guest_writable_bytes: 4096,
    };
    let region = DaemonConfig::region_geometry(&profile);
    DaemonConfig::derive(&profile, runtime, sizes, region, "daemon-test")
}

fn daemon(shards: Vec<u16>) -> Daemon {
    Daemon { running: true, config: config(), shards, nfs_port: Some(2049) }
}

#[test]
fn an_admission_dropped_unseated_gives_its_id_back() {
    let mut clients = LiveClients::new(8);
    clients.reserve(41, 1).unwrap();
    clients.reserve(42, 1).unwrap();
    let lost_before = clients.handoffs_lost;
    let unseated = Admission::new(41);
    let mut seated = Admission::new(42);
    seated.seat();
    clients.end_admission(&unseated, Release::Reached);
    clients.end_admission(&seated, Release::Reached);
    let lost = clients.handoffs_lost - lost_before;
    assert!(!clients.is_live(41), "the unseated admission's id was given back");
    assert!(clients.is_live(42), "the seated admission's id stays live");
    assert_eq!(lost, 1, "one lost handoff counted");
}

#[test]
fn the_daemon_declares_every_chokepoint_so_the_gate_opens() {
    let registry = registered_chokepoints();
    assert!(
        registry.is_ready(),
        "the daemon must register every chokepoint to serve; missing: {:?}",
        registry.missing().into_iter().map(Chokepoint::name).collect::<Vec<_>>()
    );
}

#[test]
fn a_missing_chokepoint_stops_the_start_by_name() {
    let mut registry = ChokepointRegistry::new();
    assert!(!registry.is_ready());
    assert_eq!(registry.missing().len(), 9);
    for chokepoint in registered_chokepoints_but_the_last() {
        registry.register(chokepoint);
    }
    assert_eq!(registry.missing(), vec![Chokepoint::MergeVerdict]);
    assert_eq!(
        check_chokepoints(&registry),
        Err(ServerError::ChokepointsUnregistered { missing: vec!["merge.verdict"] })
    );
    registry.register(Chokepoint::MergeVerdict);
    assert_eq!(check_chokepoints(&registry), Ok(()));
}

fn registered_chokepoints_but_the_last() -> Vec<Chokepoint> {
    vec![
        Chokepoint::BridgeRequest,
        Chokepoint::RingRequest,
        Chokepoint::ShardOp,
        Chokepoint::LogAppend,
        Chokepoint::ShipRecord,
        Chokepoint::ConsensusStep,
        Chokepoint::ArchiveChunk,
        Chokepoint::LandEntry,
    ]
}

#[test]
fn a_start_goes_through_every_step_in_order() {
    let mut boot = DaemonBoot::Chokepoints;
    let mut steps = Vec::new();
    while boot != DaemonBoot::Serving {
        steps.push(boot);
        boot = boot.advance(true, 2, true);
    }
    assert_eq!(
        steps,
        vec![
            DaemonBoot::Chokepoints,
            DaemonBoot::Segment,
            DaemonBoot::Profile,
            DaemonBoot::IssuerSecret,
            DaemonBoot::Retained,
            DaemonBoot::Runtime,
            DaemonBoot::Shard { index: 0 },
            DaemonBoot::Shard { index: 1 },
            DaemonBoot::Rendezvous,
            DaemonBoot::Control,
            DaemonBoot::Fleet,
            DaemonBoot::Mount,
            DaemonBoot::ServeMount,
        ]
    );
    assert_eq!(DaemonBoot::Control.advance(true, 2, false), DaemonBoot::Mount);
    assert_eq!(DaemonBoot::Mount.advance(false, 2, false), DaemonBoot::Serving);
    assert_eq!(DaemonBoot::ServeMount.advance(false, 2, false), DaemonBoot::Refused);
    assert_eq!(DaemonBoot::Rendezvous.advance(true, 0, false), DaemonBoot::Refused);
    assert_eq!(DaemonBoot::IssuerSecret.advance(false, 2, true), DaemonBoot::Refused);
    assert_eq!(DaemonBoot::Refused.advance(true, 2, true), DaemonBoot::Refused);
}

#[test]
fn a_shard_without_its_loops_does_not_serve() {
    let mut boot = ShardBoot::Attach;
    for _ in 0..8 {
        boot = boot.advance(true);
    }
    assert_eq!(boot, ShardBoot::Serving);
    assert_eq!(ShardBoot::ServeLoop.advance(false), ShardBoot::Failed);
    assert_eq!(ShardBoot::ReapLoop.advance(false), ShardBoot::Failed);
    assert_eq!(ShardBoot::Failed.advance(true), ShardBoot::Failed);
    assert_eq!(ShardBoot::Serving.advance(false), ShardBoot::Serving);
}

#[test]
fn a_content_name_keeps_the_segments_length() {
    assert_eq!(content_name_of("slates-seg-42"), "slates-con-42");
    assert_eq!(content_name_of("slates-seg-"), "slates-con-");
    assert_eq!(content_name_of("audit-1"), "audit-1-c");
    assert_eq!(content_name_of("slates-se"), "slates-se-c");
    assert_eq!(content_name_of(""), "-c");
}

#[test]
fn the_content_object_holds_two_slots_for_every_partition() {
    assert_eq!(content_bytes(100, 3), 600);
    assert_eq!(content_bytes(100, 0), 200);
    assert_eq!(content_bytes(u64::MAX, 3), usize::MAX);
}

#[test]
fn a_length_and_a_descriptor_are_read_in_decimal() {
    assert_eq!(parse_length("0"), Some(0));
    assert_eq!(parse_length("+17"), Some(17));
    assert_eq!(parse_length("18446744073709551615"), Some(usize::MAX));
    for text in ["", "+", "-1", "-0", "1x", " 1", "18446744073709551616"] {
        assert_eq!(parse_length(text), text.parse::<usize>().ok(), "`{text}`");
        assert_eq!(parse_length(text), None, "`{text}`");
    }
    for text in ["7", "-7", "+7", "-0", "2147483647", "-2147483648", "2147483648", "-", "a", ""] {
        assert_eq!(parse_descriptor(text), text.parse::<i32>().ok(), "`{text}`");
    }
}

#[test]
fn a_handoff_is_a_descriptor_where_the_platform_hands_one_over() {
    let pair = |key: &str, value: &str| (key.to_owned(), value.to_owned());
    let handoff = "SEGMENT".to_owned();
    let length = "SEGMENT_LEN".to_owned();
    let env = vec![pair("OTHER", "1"), pair("SEGMENT", "5"), pair("SEGMENT_LEN", "4096")];
    assert_eq!(
        handoff_of(&env, &handoff, &length, true),
        Ok((Handoff::Descriptor(5), 4096))
    );
    assert_eq!(
        handoff_of(&env, &handoff, &length, false),
        Ok((Handoff::Name("5".to_owned()), 4096))
    );
    let named = vec![pair("SEGMENT", "/seg"), pair("SEGMENT_LEN", "1"), pair("SEGMENT", "9")];
    assert_eq!(
        handoff_of(&named, &handoff, &length, true),
        Ok((Handoff::Name("/seg".to_owned()), 1))
    );
    for broken in [
        vec![pair("SEGMENT", "5")],
        vec![pair("SEGMENT_LEN", "5")],
        vec![pair("SEGMENT", "5"), pair("SEGMENT_LEN", "x")],
        vec![pair("SEGMENT", "5"), pair("SEGMENT_LEN", "-0")],
    ] {
        assert_eq!(handoff_of(&broken, &handoff, &length, true), Err(ServerError::NotOnShard));
    }
}

#[test]
fn a_boot_nonce_is_a_keyed_hash_of_the_secret() {
    let secret = [9u8; 32];
    let digest = *blake3::keyed_hash(&secret, b"slates/member-incarnation/v1").as_bytes();
    let mut first = [0u8; 8];
    first.copy_from_slice(&digest[..8]);
    assert_eq!(boot_incarnation(&secret), u64::from_le_bytes(first));
    assert_ne!(boot_incarnation(&secret), boot_incarnation(&[8u8; 32]));
    let mut identity = [0u8; 32];
    identity[0] = 1;
    identity[7] = 2;
    identity[8] = 3;
    assert_eq!(host_id_of(&identity), 1 + (2 << 56));
}

#[test]
fn a_node_starts_in_its_placeholders_region() {
    let mut regions = BTreeMap::new();
    regions.insert(1, RegionId(4));
    regions.insert(2, RegionId(5));
    let mut mirrors = BTreeMap::new();
    mirrors.insert(4, RegionId(5));
    let fleet = FleetMembership {
        quorum: Quorum { f: 1 },
        peers: vec![HostId(2)],
        host: HostId(1),
        origin_anchor: HostId(77),
        domains: BTreeMap::new(),
        regions: regions.clone(),
        region_mirrors: mirrors.clone(),
    };
    let (built, built_mirrors) = build_root_group(Some(&fleet), HostId(100));
    regions.insert(100, RegionId(4));
    assert_eq!(built, regions);
    assert_eq!(built_mirrors, mirrors);
    let (none, no_mirrors) = build_root_group(None, HostId(100));
    assert!(none.is_empty() && no_mirrors.is_empty());
    assert_eq!(promote_region(&mirrors, RegionId(4)), Some(RegionId(5)));
    assert_eq!(promote_region(&mirrors, RegionId(5)), None);
}

#[test]
fn the_headroom_leaves_a_chunk_window_to_take() {
    assert_eq!(operation_headroom(10, 8, 3, 1000), 60);
    assert_eq!(operation_headroom(10, 0, 0, 1000), 20);
    assert_eq!(operation_headroom(10, 500, 500, 1000), 990);
    assert_eq!(operation_headroom(10, 500, 500, 7), 0);
    assert_eq!(operation_headroom(u64::MAX, 2, 2, u64::MAX), 0);
}

#[test]
fn the_shards_slices_are_apart() {
    assert_eq!(content_range(1000, 3, 0), (0, 333));
    assert_eq!(content_range(1000, 3, 1), (333, 666));
    assert_eq!(content_range(1000, 3, 2), (666, 999));
    assert_eq!(content_range(1000, 0, 0), (0, 1000));
}

#[test]
fn a_shard_is_set_up_from_the_configuration_and_what_it_finds() {
    let config = config();
    let facts = ShardFacts {
        partition: 1,
        shard: None,
        content_len: Some(1000),
        chunk_bytes: 65_536,
        arena_bytes: 1 << 30,
        identity_hash: [1u8; 32],
        issuer_secret: [9u8; 32],
        retained_nonce: None,
        recovery_budget_ns: 60,
    };
    let setup = init_shard(&config, &vec![0, 1], &facts);
    assert_eq!(setup.shard, 1);
    assert_eq!(setup.region_bytes as u64, config.reserve_per_shard);
    assert_eq!(setup.content_range, (500, 1000));
    assert_eq!(setup.telemetry_spans, config.region.slots as usize);
    assert!(!setup.counts);
    assert_eq!(setup.boot_nonce, boot_incarnation(&[9u8; 32]));
    assert_eq!(setup.origin_anchor, HostId(0x0101_0101_0101_0101));
    assert_eq!(setup.quorum, Quorum { f: 0 });
    assert_eq!(setup.scatter.map(|scatter| scatter.recovery_budget_ns), Some(60));
    let warm = ShardFacts {
        partition: 0,
        shard: Some(0),
        content_len: None,
        retained_nonce: Some(5),
        ..facts
    };
    let setup = init_shard(&config, &vec![0, 1], &warm);
    assert!(setup.counts);
    assert_eq!(setup.content_range, (0, 0));
    assert_eq!(setup.boot_nonce, 5);
    assert_eq!(setup.next_prefix, 1);
    assert!(setup.scatter.is_none());
}

#[test]
fn recovery_says_what_it_did_and_nothing_when_it_did_nothing() {
    let nothing = Rebuilt {
        volumes: 0,
        skipped: 0,
        merge_volumes: 0,
        snapshots_dropped: 0,
        attachments_dropped: 0,
        snapshots_trimmed: 0,
        destroys_completed: 0,
        pins_reconciled: 0,
    };
    assert_eq!(nothing.line(3), None);
    let some = Rebuilt {
        volumes: 1,
        skipped: 2,
        merge_volumes: 3,
        snapshots_dropped: 4,
        attachments_dropped: 5,
        snapshots_trimmed: 6,
        destroys_completed: 7,
        pins_reconciled: 8,
    };
    assert_eq!(
        some.line(3).unwrap(),
        "slates-server: shard 3: recovered 1 volumes from their images (2 refused), 3 merge \
         volumes (green chains replayed, works reset), reconciled out 4 unrecovered local \
         snapshots and 5 attachments, trimmed 6 unacknowledged snapshots the images carried, \
         completed 7 destroys in flight, corrected 8 clone pins"
    );
}

#[test]
fn a_server_polls_for_the_idle_window_after_its_last_work() {
    let mut server = ServeLoop::start(1_000, 5);
    assert_eq!(server.idle_window_ns, 5 * IDLE_WINDOW_RATIO);
    assert_eq!(server.round(false, 1_499), ServeStep::Yield);
    assert_eq!(server.round(false, 1_500), ServeStep::Park);
    assert_eq!(server.round(true, 2_000), ServeStep::Yield);
    assert_eq!(server.round(false, 2_499), ServeStep::Yield);
    assert_eq!(server.round(false, 2_500), ServeStep::Park);
}

#[test]
fn connects_past_the_bound_are_refused_and_counted() {
    assert_eq!(client_bound(2, 3), 6);
    let mut clients = LiveClients::new(client_bound(1, 2));
    assert_eq!(clients.reserve(5, 2), Ok(1));
    assert_eq!(clients.reserve(6, 2), Ok(0));
    assert_eq!(clients.reserve(7, 2), Err(TooManyClients { limit: 2 }));
    assert_eq!(clients.refused, 1);
    assert!(!clients.is_live(7));
    clients.release_client_id(5, Release::Reached);
    assert_eq!(clients.reserve(7, 2), Ok(1));
}

#[test]
fn a_lost_handoff_gives_the_id_back_and_a_lost_release_keeps_it() {
    let mut clients = LiveClients::new(9);
    for id in 1..=6 {
        clients.reserve(id, 3).unwrap();
    }
    let quiet = EndedAdmission { first_loss: false, first_release_lost: false };
    let over = clients.handed_over(1, Seating::Seated, Release::Reached);
    assert_eq!(over, HandedOver { wake: true, ended: quiet });
    assert_eq!(clients.handoffs_lost, 0);
    let over = clients.handed_over(2, Seating::TableFull, Release::Reached);
    let first = EndedAdmission { first_loss: true, first_release_lost: false };
    assert_eq!(over, HandedOver { wake: true, ended: first });
    assert_eq!(clients.handoffs_lost, 1);
    let over = clients.handed_over(3, Seating::NoState, Release::Reached);
    assert_eq!(over, HandedOver { wake: false, ended: quiet });
    assert_eq!(clients.handoffs_lost, 2, "a client is counted once");
    let over = clients.handed_over(4, Seating::NotSent, Release::Reached);
    assert_eq!(over, HandedOver { wake: false, ended: quiet });
    assert_eq!(clients.handoffs_lost, 3);
    let over = clients.handed_over(5, Seating::NotRun, Release::Lost);
    let kept = EndedAdmission { first_loss: false, first_release_lost: true };
    assert_eq!(over, HandedOver { wake: false, ended: kept });
    assert_eq!(clients.handoffs_lost, 4);
    assert_eq!(clients.releases_lost, 1);
    let live: Vec<u32> = (1..=6).filter(|id| clients.is_live(*id)).collect();
    assert_eq!(live, vec![1, 5, 6]);
    assert!(!clients.accept_failed(AcceptError::HandoffLost { client_id: 6 }));
    assert!(!clients.is_live(6));
    assert!(clients.accept_failed(AcceptError::Other), "the first of its kind");
    assert!(!clients.accept_failed(AcceptError::Other));
    assert_eq!(clients.accepts_failed, 2);
}

#[test]
fn an_observation_is_refused_before_it_is_submitted() {
    let mut daemon = daemon(vec![3, 4]);
    assert_eq!(daemon.instance(), "daemon-test");
    assert_eq!(daemon.config().instance, "daemon-test");
    assert_eq!(daemon.nfs_port(), Some(2049));
    assert_eq!(daemon.shards(), &vec![3, 4]);
    assert_eq!(daemon.control_shard(), Some(3));
    assert_eq!(daemon.shard_of_object(1), Some(4));
    assert_eq!(daemon.shard_of_object(2), None);
    assert_eq!(daemon.observation(None, true), Err(ObserveError::NoTarget));
    assert_eq!(daemon.observation(Some(3), true), Ok(3));
    assert_eq!(
        daemon.observation(Some(3), false),
        Err(ObserveError::ShardGone { shard: 3, stage: ObserveStage::Submission })
    );
    daemon.running = false;
    assert_eq!(daemon.observation(Some(3), true), Err(ObserveError::NoRuntime));
}

#[test]
fn a_bootstrap_creates_and_then_publishes_on_every_other_shard() {
    let solo = daemon(Vec::new());
    assert_eq!(
        solo.bootstrap(),
        BootstrapStep::Refused { refusal: BootstrapRefusal::ConsensusNotInitialized }
    );
    let daemon = daemon(vec![3, 4, 5]);
    let mut step = daemon.bootstrap();
    assert_eq!(step, BootstrapStep::AskIdentity { shard: 3 });
    step = daemon.bootstrap_next(step, BootstrapAnswer::Identity { member: 9 });
    assert_eq!(step, BootstrapStep::Create { shard: 3, member: 9 });
    assert_eq!(
        daemon.bootstrap_next(
            step,
            BootstrapAnswer::GroupRefused { refusal: ConsensusRefusal::AlreadyInitialized }
        ),
        BootstrapStep::Refused {
            refusal: BootstrapRefusal::Group { refusal: ConsensusRefusal::AlreadyInitialized }
        }
    );
    assert_eq!(
        daemon.bootstrap_next(step, BootstrapAnswer::Other),
        BootstrapStep::Refused { refusal: BootstrapRefusal::ConsensusNotInitialized }
    );
    step = daemon.bootstrap_next(step, BootstrapAnswer::Acknowledged);
    assert_eq!(step, BootstrapStep::Publish { index: 1, shard: 4 });
    assert_eq!(
        daemon.bootstrap_next(step, BootstrapAnswer::Unobserved { terminal: false }),
        BootstrapStep::Refused { refusal: BootstrapRefusal::Overloaded { shard: 4 } }
    );
    step = daemon.bootstrap_next(step, BootstrapAnswer::Applied);
    assert_eq!(step, BootstrapStep::Publish { index: 2, shard: 5 });
    step = daemon.bootstrap_next(step, BootstrapAnswer::Applied);
    assert_eq!(step, BootstrapStep::Done);
}

#[test]
fn a_starved_shard_is_told_apart_from_one_that_never_answers() {
    assert_eq!(bootstrap_refusal(Some(2), false), BootstrapRefusal::Overloaded { shard: 2 });
    assert_eq!(bootstrap_refusal(Some(2), true), BootstrapRefusal::ConsensusNotInitialized);
    assert_eq!(bootstrap_refusal(None, false), BootstrapRefusal::ConsensusNotInitialized);
}

#[test]
fn a_flood_goes_on_until_the_channel_is_full() {
    assert_eq!(flood_step(0, Offered::Queued), Ok((1, true)));
    assert_eq!(flood_step(7, Offered::Full), Ok((7, false)));
    assert_eq!(
        flood_step(7, Offered::Gone { shard: 1 }),
        Err(ObserveError::ShardGone { shard: 1, stage: ObserveStage::Submission })
    );
    assert_eq!(
        flood_step(7, Offered::Refused),
        Err(ObserveError::Submission { attempts: 1, waited_ns: 0 })
    );
}

#[test]
fn an_arena_fill_stops_at_the_bound_and_keeps_its_counts() {
    let mut fill = ArenaFill::new(2);
    fill.offered(FillReceipt::Admitted).unwrap();
    fill.offered(FillReceipt::Admitted).unwrap();
    assert!(fill.offers());
    fill.offered(FillReceipt::TooManyTasks).unwrap();
    assert!(!fill.offers());
    assert!(fill.reached_the_bound());
    assert_eq!(fill.release(), 2);
    assert_eq!(fill.release(), 0);
    assert_eq!(fill.admitted(), 2);

    let mut unbounded = ArenaFill::new(1);
    while unbounded.offers() {
        unbounded.offered(FillReceipt::Admitted).unwrap();
    }
    assert_eq!(unbounded.admitted(), 2);
    assert!(!unbounded.reached_the_bound());

    let mut refused = ArenaFill::new(1);
    assert_eq!(
        refused.offered(FillReceipt::NotSubmitted),
        Err(ObserveError::Submission { attempts: 1, waited_ns: 0 })
    );
    assert_eq!(
        refused.offered(FillReceipt::Refused),
        Err(ObserveError::Admission { attempts: 1, waited_ns: 0 })
    );
    assert_eq!(
        refused.offered(FillReceipt::Terminated),
        Err(ObserveError::Terminated { stage: ObserveStage::Admission, attempts: 1 })
    );
    assert_eq!(
        refused.offered(FillReceipt::Silent),
        Err(ObserveError::Deadline {
            stage: ObserveStage::Admission,
            budget_ns: OBSERVE_BUDGET_NS,
            attempts: 1,
            waited_ns: OBSERVE_BUDGET_NS
        })
    );
}

#[test]
fn a_daemon_has_its_own_doorbell_flag() {
    assert_eq!(doorbell_slot(3, 64), 3);
    assert_eq!(doorbell_slot(64, 64), 0);
}

#[test]
fn a_mesh_is_up_when_every_contact_formed_a_session() {
    let alive = MemberState { liveness: Liveness::Alive, incarnation: 0 };
    let members = vec![HostId(1), HostId(2), HostId(3)];
    let contacts = ContactSets {
        council_initialized: true,
        root_initialized: true,
        members: members.clone(),
        neighbourhood: members.clone(),
        council_voters: members.clone(),
        root_voters: members.clone(),
    };
    let mut beliefs = BTreeMap::new();
    beliefs.insert(2, alive);
    beliefs.insert(3, alive);
    let mut formed = BTreeSet::new();
    formed.insert(2);
    assert!(!fleet_meshed(HostId(1), &members, &contacts, &beliefs, &formed));
    formed.insert(3);
    assert!(fleet_meshed(HostId(1), &members, &contacts, &beliefs, &formed));
    assert!(fleet_meshed(
        HostId(1),
        &vec![HostId(1)],
        &contacts,
        &beliefs,
        &BTreeSet::new()
    ));
}

#[test]
fn the_newest_position_is_by_sequence_and_then_by_epoch() {
    let at = |object: u128, sequence: u64, epoch: u64| HeldPosition {
        object: ObjectId(object),
        sequence,
        epoch: HostEpoch(epoch),
    };
    let positions = vec![at(1, 5, 9), at(1, 6, 1), at(2, 9, 9), at(1, 6, 3), at(1, 6, 3)];
    assert_eq!(newest_position(&positions, ObjectId(1)), Some(4));
    assert_eq!(newest_position(&positions, ObjectId(2)), Some(2));
    assert_eq!(newest_position(&positions, ObjectId(3)), None);
}

#[test]
fn one_shard_counts_a_breach() {
    let mut breaches = 0;
    count_breach(&mut breaches, true, false);
    count_breach(&mut breaches, false, true);
    assert_eq!(breaches, 0);
    count_breach(&mut breaches, true, true);
    assert_eq!(breaches, 1);
}

#[test]
fn the_descriptor_limit_is_raised_to_the_hard_limit_within_the_platforms() {
    assert_eq!(raise_descriptor_limit(Some(256), Some(4096), None), Some((256, 4096)));
    assert_eq!(
        raise_descriptor_limit(Some(256), None, Some(10_240)),
        Some((256, 10_240))
    );
    assert_eq!(raise_descriptor_limit(Some(256), None, None), Some((256, u64::MAX)));
    assert_eq!(raise_descriptor_limit(Some(4096), Some(4096), None), None);
    assert_eq!(raise_descriptor_limit(None, Some(4096), None), None);
}

#[test]
fn a_ring_while_the_shards_are_kicked_is_seen_at_the_next_wait() {
    assert_eq!(DoorbellWatch::start(None), None);
    let mut watch = DoorbellWatch::start(Some(7)).unwrap();
    assert_eq!(watch.turn(false), DoorbellStep::Wait { seen: 7 });
    assert_eq!(watch.woken(Some(7), false), DoorbellStep::Wait { seen: 7 });
    assert_eq!(watch.woken(Some(8), false), DoorbellStep::Kick);
    assert_eq!(watch.woken(Some(9), false), DoorbellStep::Kick);
    assert_eq!(watch.woken(Some(10), true), DoorbellStep::Stop);
    assert_eq!(watch.woken(None, false), DoorbellStep::Refused);
    assert_eq!(watch.turn(true), DoorbellStep::Stop);
}
