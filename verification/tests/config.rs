//! The configuration derived from a machine's profile.

use slates_server::config::{
    codec_policy, guest_credits, Codec, CodecPoint, DaemonConfig, Derivation, FleetMembership,
    MachineProfile, MemcpyPoint, RuntimeConfig, StatedLines, UnitSizes, FLEET_LOOPS_PER_PEER, FLEET_LOOPS_PER_SHARD,
    FLEET_PLANES, LATENCY_BUDGET_NS, MEMORY_CLASSES,
};
use slates_server::ids::{HostId, Quorum};
use std::collections::BTreeMap;

const GIB: u64 = 1 << 30;

fn profile() -> MachineProfile {
    MachineProfile {
        memory_total: 64 * GIB,
        memory_limit: None,
        page: 4096,
        cache_line: 64,
        encoded_bytes: 20_000,
        blake3_bytes_per_second: 2 * GIB,
        wake_p99_ns: 20_000,
        ring_entries: 256,
        spin_before_park_ns: 5_000,
        arena_region_bytes: GIB,
        huge_pages: false,
        memcpy: vec![
            MemcpyPoint { bytes: 1 << 20, bytes_per_second: 8 * GIB },
            MemcpyPoint { bytes: 1 << 26, bytes_per_second: 5 * GIB },
        ],
        codecs: vec![
            CodecPoint {
                codec: Codec::Lz4,
                level: 1,
                compress_bytes_per_second: 700,
                decompress_bytes_per_second: 3000,
                ratio_permille: 500,
            },
            CodecPoint {
                codec: Codec::Zstd,
                level: 3,
                compress_bytes_per_second: 400,
                decompress_bytes_per_second: 1200,
                ratio_permille: 350,
            },
            CodecPoint {
                codec: Codec::Other,
                level: 0,
                compress_bytes_per_second: 1,
                decompress_bytes_per_second: 1,
                ratio_permille: 999,
            },
        ],
    }
}

fn runtime() -> RuntimeConfig {
    RuntimeConfig {
        shards: 8,
        pin: true,
        cores: vec![0, 1, 2, 3, 4, 5, 6, 7],
        step_budget_ns: 1_000_000,
        timer_tick_ns: 100_000,
        tasks_per_shard: 1,
        timers_per_shard: 1,
        spin_ns: 5_000,
    }
}

fn sizes() -> UnitSizes {
    UnitSizes {
        volume_record_bytes: 512,
        inode_unit_bytes: 256,
        directory_unit_bytes: 1024,
        recovery_budget_ns: 60_000_000_000,
        region_total_bytes: 1 << 20,
        requests_in_flight: 20,
        telemetry_spans_per_reply: 16,
        guest_readable_bytes: 4096,
        guest_writable_bytes: 4096,
    }
}

fn derive(profile: &MachineProfile, instance: &str) -> DaemonConfig {
    let region = DaemonConfig::region_geometry(profile);
    DaemonConfig::derive(profile, runtime(), sizes(), region, instance)
}

#[test]
fn a_fleet_configuration_derives_its_own_task_share_from_the_peer_count() {
    let profile = profile();
    let sessions_per_peer = 4;
    let solo = derive(&profile, "fleet-share-solo");
    let peers: Vec<HostId> = (1..=5).map(HostId).collect();
    let fleet = derive(&profile, "fleet-share-fleet").with_fleet(
        FleetMembership {
            quorum: Quorum { f: 2 },
            peers: peers.clone(),
            host: HostId(0),
            origin_anchor: HostId(0),
            domains: BTreeMap::new(),
            regions: BTreeMap::new(),
            region_mirrors: BTreeMap::new(),
        },
        sessions_per_peer,
    );
    let share = peers.len() * FLEET_LOOPS_PER_PEER
        + peers.len() * sessions_per_peer * FLEET_PLANES
        + FLEET_LOOPS_PER_SHARD;
    assert_eq!(
        fleet.runtime.tasks_per_shard,
        solo.runtime.tasks_per_shard + share,
        "the fleet's task share is derived from the peer count and added to the shard's budget"
    );
    assert_eq!(
        fleet.runtime.timers_per_shard,
        solo.runtime.timers_per_shard + share,
        "every fleet task may hold a timer"
    );
    assert!(
        fleet.derivations.iter().any(|line| line.line().starts_with("fleet_tasks_per_shard")),
        "the boot log names the share with its input"
    );
}

#[test]
fn a_memory_bound_below_total_caps_the_reserve() {
    let mut profile = profile();
    let total = profile.memory_total;
    profile.memory_limit = None;
    let unbounded = derive(&profile, "bound-none");
    let shards = u64::from(unbounded.runtime.shards.max(1));
    assert_eq!(
        unbounded.reserve_per_shard,
        total / shards / MEMORY_CLASSES,
        "no bound: the reserve is the share of total"
    );
    profile.memory_limit = Some(total / 4);
    let bounded = derive(&profile, "bound-quarter");
    assert_eq!(
        bounded.reserve_per_shard,
        total / 4 / shards / MEMORY_CLASSES,
        "a quarter-of-total bound: the reserve is the share of the bound"
    );
    assert!(
        bounded.reserve_per_shard * shards * MEMORY_CLASSES <= total / 4,
        "the classes over every shard fit the bound ({} × {shards} × {MEMORY_CLASSES} ≤ {})",
        bounded.reserve_per_shard,
        total / 4
    );
    profile.memory_limit = Some(total.saturating_mul(2));
    let above = derive(&profile, "bound-above");
    assert_eq!(
        above.reserve_per_shard,
        total / shards / MEMORY_CLASSES,
        "a bound above total does not raise the reserve"
    );
}

#[test]
fn the_scatter_is_derived_from_the_data_budget_and_the_stated_bandwidth() {
    let config = derive(&profile(), "scatter-test").with_shards(1);
    let quorum = Quorum { f: 1 };
    let unstated = config.derived_scatter(quorum, 60_000_000_000);
    assert_eq!(unstated.data_bytes, config.reserve_per_shard);
    assert_eq!(unstated.bytes_per_second, 0);
    assert_eq!(unstated.f, 1);
    let slow = config.with_rereplication_bandwidth(1);
    assert_eq!(slow.derived_scatter(quorum, 7).bytes_per_second, 1);
    assert_eq!(slow.derived_scatter(quorum, 7).recovery_budget_ns, 7);
}

#[test]
fn fewer_shards_are_unpinned_and_keep_the_reserve() {
    let config = derive(&profile(), "one-shard");
    let reserve = config.reserve_per_shard;
    let one = config.with_shards(0);
    assert_eq!(one.runtime.shards, 1);
    assert!(!one.runtime.pin);
    assert!(one.runtime.cores.is_empty());
    assert_eq!(one.geometry.partitions, 1);
    assert_eq!(one.reserve_per_shard, reserve);
    assert_eq!(one.instance, "one-shard");
}

#[test]
fn the_derived_slab_bounds_lay_the_metadata_class_out_with_room_for_records() {
    let config = derive(&profile(), "metadata-layout").with_shards(1);
    let class = config.store.metadata_class_bytes;
    let slabs = config.store.max_inodes as u64 * sizes().inode_unit_bytes
        + config.store.max_dirs as u64 * sizes().directory_unit_bytes;
    let records = class.checked_sub(slabs).expect("the derived layout fits its class");
    assert_eq!(slabs + records, class, "the class is the slabs plus the records");
    assert!(
        records >= class / 2,
        "at least half the class is left for records ({records} of {class}; slabs {slabs})"
    );
}

#[test]
fn a_failover_objective_is_the_operators() {
    assert_eq!(derive(&profile(), "slo").with_failover_slo(42).failover_slo_ns, 42);
    assert_eq!(derive(&profile(), "slo").failover_slo_ns, 10_000_000_000);
}

#[test]
fn the_codecs_are_kept_by_kind_and_the_largest_copy_is_the_streaming_rate() {
    let profile = profile();
    let policy = codec_policy(&profile.memcpy, &profile.codecs);
    assert_eq!(policy.memcpy_bytes_per_second, 5 * GIB);
    assert_eq!(policy.lz4.map(|point| point.ratio_permille), Some(500));
    assert_eq!(policy.zstd.len(), 1);
    assert_eq!(policy.zstd[0].level, 3);
    assert!(codec_policy(&Vec::new(), &Vec::new()).lz4.is_none());
}

#[test]
fn guest_credits_take_the_measured_kick_and_the_frame() {
    let inputs = guest_credits(&profile(), 20, 4096, 1000);
    assert_eq!(inputs.requests, 20);
    assert_eq!(inputs.kick_round_trip_ns, 20_000);
    assert_eq!(inputs.frame_bytes, 5096);
    assert_eq!(inputs.latency_budget_ns, LATENCY_BUDGET_NS);
    assert!(inputs.bandwidth_bytes_per_ns >= 1);
    let mut unmeasured = profile();
    unmeasured.wake_p99_ns = 0;
    assert_eq!(guest_credits(&unmeasured, 1, 0, 0).kick_round_trip_ns, 1);
}

#[test]
fn every_derivation_prints_its_formula_and_anchors() {
    let config = derive(&profile(), "lines");
    assert!(!config.derivations.is_empty());
    let line = config.derivations[0].line();
    assert!(line.contains(config.derivations[0].formula), "{line}");
    assert!(line.contains(&config.derivations[0].value.to_string()), "{line}");
}

#[test]
fn the_boot_log_states_every_derivation_in_its_place() {
    let stated = |name: &'static str| Derivation {
        name,
        value: 7,
        formula: "stated",
        anchors: vec!["elsewhere"],
    };
    let lines = StatedLines {
        requests_in_flight: stated("requests_in_flight_per_shard"),
        reserve: stated("reserve_per_shard"),
        byte_ns_scaled: 12,
        telemetry_spans: stated("telemetry_spans_per_reply"),
        digest_cache: stated("digest_cache_entries"),
        guest_requests: stated("guest_requests_credit"),
        guest_bytes: stated("guest_bytes_credit"),
    };
    let log = derive(&profile(), "boot-log").boot_log(&lines);
    let names: Vec<&str> = log.iter().map(|line| line.split(" = ").next().unwrap()).collect();
    assert_eq!(
        names,
        [
            "requests_in_flight_per_shard",
            "effective_capacity_bytes",
            "reserve_per_shard",
            "table_bytes",
            "volumes_per_shard",
            "slots_per_ring",
            "spin_ns",
            "log_bytes_per_partition",
            "snapshot_bytes_per_partition",
            "archive_slice_bytes",
            "codec",
            "telemetry_spans_per_reply",
            "max_inodes",
            "max_dirs",
            "max_chunks",
            "metadata_class_bytes",
            "digest_cache_entries",
            "clients_per_shard",
            "tasks_per_shard",
            "idle_window_ns",
            "guest_bandwidth_bytes_per_ns",
            "guest_requests_credit",
            "guest_bytes_credit",
        ]
    );
    assert_eq!(log[0], "requests_in_flight_per_shard = 7: stated (anchors [\"elsewhere\"])");
    assert!(log[10].contains(", byte worth 12 scaled ns: "), "{}", log[10]);
    let policy = |levels: &[i32]| {
        let point = |level: &i32| CodecPoint {
            codec: Codec::Zstd,
            level: *level,
            compress_bytes_per_second: 1,
            decompress_bytes_per_second: 1,
            ratio_permille: 500,
        };
        codec_policy(&Vec::new(), &levels.iter().map(point).collect())
    };
    assert!(policy(&[-5, 1, 19]).line(0).starts_with("codec = lz4 false, zstd levels [-5, 1, 19],"));
    assert!(policy(&[]).line(0).starts_with("codec = lz4 false, zstd levels [],"));
}
