//! The daemon's configuration: every number a derivation from the machine profile, recorded with
//! its formula and its inputs for the boot log.

use crate::arith::{
    clamp_u32, clamp_u64, clamp_usize, is_next_power_of_two, larger, max_u64, min_u64,
    next_power_of_two, smaller, times, times_size, to_size, to_u32,
};
use crate::ids::{DomainId, HostId, Quorum, RegionId};
use crate::text::{decimal, push_decimal, push_quoted, push_signed, quoted, signed_decimal};
use std::collections::BTreeMap;
use vstd::arithmetic::power2::pow2;
use vstd::prelude::*;
use vstd::string::StringExecFns;

verus! {

/// The small-directory cut-over: two entries inline.
pub const DIR_CUTOVER: usize = 2;

/// The latency budget the batch bound and the guest credits are calibrated against: 50 µs.
pub const LATENCY_BUDGET_NS: u64 = 50_000;

/// The request rate the first admission limit assumes before a client is measured.
pub const ASSUMED_REQUESTS_PER_SECOND: u64 = 4_000_000;

/// The service-time p99 the first admission limit assumes.
pub const ASSUMED_SERVICE_P99_NS: u64 = 5_000;

/// The memory classes a shard's share is split into: metadata slabs, rings, chunk regions.
pub const MEMORY_CLASSES: u64 = 3;

/// The share of a shard's metadata reserve the volume tables may take.
pub const TABLE_SHARE_PERMILLE: u64 = 250;

/// The share of a shard's reserve the client regions may take.
pub const CLIENT_SHARE_PERMILLE: u64 = 250;

/// Parts per thousand.
pub const PERMILLE: u64 = 1000;

/// The archive walk's slice as a share of the shard's step budget.
pub const ARCHIVE_SLICE_PERMILLE: u64 = 500;

/// Nanoseconds per second.
pub const NANOS_PER_SECOND: u64 = 1_000_000_000;

/// Tasks a client may need across shards at once: its forwarded request and the reply.
pub const TASKS_PER_CLIENT: usize = 2;

/// A shard's own perpetual tasks, and a spare for a shutdown message.
pub const LOOP_TASKS_PER_SHARD: usize = 5;

/// The fleet's perpetual tasks per peer: the probe loop and the record link.
pub const FLEET_LOOPS_PER_PEER: usize = 2;

/// The fleet's planes, each with its own socket, demultiplexer and accept loop.
pub const FLEET_PLANES: usize = 2;

/// The fleet's perpetual tasks beyond the per-peer ones: a receive and an accept loop per plane,
/// and the coordinator.
pub const FLEET_LOOPS_PER_SHARD: usize = 5;

/// The idle window as a multiple of the spin window.
pub const IDLE_WINDOW_RATIO: u64 = 100;

/// The divisor between a shard's metadata class and one slab dimension's units: three parts, each
/// slab part halved for headroom.
pub const STORE_TABLE_DIVISOR: u64 = 6;

/// The largest inline lifecycle request: one page each direction per slot.
pub const BULK_CHUNK_BYTES: u64 = 4096;

/// Landings in flight per shard.
pub const LANDING_SLOTS_PER_SHARD: u32 = 1;

/// The audit ring's pages per shard.
pub const AUDIT_PAGES_PER_SHARD: u64 = 1;

/// The failover objective until the operator states one: ten seconds.
pub const FAILOVER_SLO_NS: u64 = 10_000_000_000;

/// A measured copy rate at one copy size.
#[derive(Clone, Copy, Debug)]
pub struct MemcpyPoint {
    pub bytes: u64,
    pub bytes_per_second: u64,
}

/// A compression codec, as the profile names it.
#[derive(Clone, Copy, Debug, PartialEq, Eq, Structural)]
pub enum Codec {
    Lz4,
    Zstd,
    /// A codec the archive does not store chunks with.
    Other,
}

/// A codec's measured point at one level.
#[derive(Clone, Copy, Debug)]
pub struct CodecPoint {
    pub codec: Codec,
    pub level: i32,
    pub compress_bytes_per_second: u64,
    pub decompress_bytes_per_second: u64,
    pub ratio_permille: u32,
}

/// What the machine was measured to be: the facts every derivation starts from.
pub struct MachineProfile {
    /// Physical memory in bytes.
    pub memory_total: u64,
    /// The tightest bound the operating system sets on the process, when it sets one.
    pub memory_limit: Option<u64>,
    /// The base page in bytes.
    pub page: u64,
    /// The cache line in bytes.
    pub cache_line: u64,
    /// The profile's own encoded length.
    pub encoded_bytes: u64,
    /// The hash throughput.
    pub blake3_bytes_per_second: u64,
    /// The p99 of waking a parked shard.
    pub wake_p99_ns: u64,
    /// The ring entries Little's law gives.
    pub ring_entries: u64,
    /// How long a shard spins before it parks.
    pub spin_before_park_ns: u64,
    /// One arena region in bytes.
    pub arena_region_bytes: u64,
    /// Whether huge pages help here.
    pub huge_pages: bool,
    pub memcpy: Vec<MemcpyPoint>,
    pub codecs: Vec<CodecPoint>,
}

/// The unit sizes and limits the other subsystems state.
#[derive(Clone, Copy, Debug)]
pub struct UnitSizes {
    /// One volume record in bytes.
    pub volume_record_bytes: u64,
    /// One inode's slots in bytes.
    pub inode_unit_bytes: u64,
    /// One directory's slots in bytes.
    pub directory_unit_bytes: u64,
    /// The time a recovery may take.
    pub recovery_budget_ns: u64,
    /// What one client region of the derived geometry occupies.
    pub region_total_bytes: u64,
    /// The requests one shard admits in flight.
    pub requests_in_flight: usize,
    /// The spans one telemetry reply carries.
    pub telemetry_spans_per_reply: usize,
    /// A guest device's longest readable request part.
    pub guest_readable_bytes: u64,
    /// A guest device's longest writable request part.
    pub guest_writable_bytes: u64,
}

/// The runtime's configuration.
#[derive(Clone, Debug)]
pub struct RuntimeConfig {
    pub shards: u16,
    pub pin: bool,
    pub cores: Vec<usize>,
    pub step_budget_ns: u64,
    pub timer_tick_ns: u64,
    pub tasks_per_shard: usize,
    pub timers_per_shard: usize,
    pub spin_ns: u64,
}

/// The segment's geometry.
#[derive(Clone, Copy, Debug, PartialEq, Eq, Structural)]
pub struct Geometry {
    pub partitions: u16,
    pub page: u64,
    pub profile_bytes: u64,
    pub log_bytes: u64,
    pub snapshot_bytes: u64,
    pub audit_bytes: u64,
    pub landing_slots: u32,
    pub landing_slot_bytes: u64,
}

/// A partition's caps.
#[derive(Clone, Copy, Debug, PartialEq, Eq, Structural)]
pub struct PartitionCaps {
    pub volumes: usize,
    pub snapshots: usize,
    pub attachments: usize,
    pub segment_slots: usize,
    pub timers: usize,
    pub tick_ns: u64,
    pub green_chain_bytes: usize,
}

/// A client region's geometry.
#[derive(Clone, Copy, Debug, PartialEq, Eq, Structural)]
pub struct RegionGeometry {
    pub slots: u32,
    pub spin_ns: u32,
    pub bulk_bytes: u64,
    pub page: u64,
}

/// The store's caps per shard.
#[derive(Clone, Copy, Debug, PartialEq, Eq, Structural)]
pub struct StoreCaps {
    /// Inode versions the shard may hold.
    pub max_inodes: usize,
    /// Directory nodes.
    pub max_dirs: usize,
    /// Chunks.
    pub max_chunks: usize,
    /// Directory blocks.
    pub max_dir_blocks: usize,
    /// The small-directory cut-over.
    pub dir_cutover: usize,
    /// The shard's metadata class in bytes: the slabs grow into it up to their bounds, and the rest
    /// is the ledger every volume's records are reserved from.
    pub metadata_class_bytes: u64,
}

/// The measured points the compress-or-not cost model chooses among.
#[derive(Clone, Debug)]
pub struct CodecPolicy {
    /// The copy rate at the largest probed size, a byte's neutral worth; zero with no probe.
    pub memcpy_bytes_per_second: u64,
    /// The last `lz4` point.
    pub lz4: Option<CodecPoint>,
    /// Every `zstd` point, in the profile's order.
    pub zstd: Vec<CodecPoint>,
}

/// What a guest device attachment's credits are derived from.
#[derive(Clone, Copy, Debug, PartialEq, Eq, Structural)]
pub struct GuestCreditInputs {
    pub requests: usize,
    pub bandwidth_bytes_per_ns: u64,
    pub kick_round_trip_ns: u64,
    pub frame_bytes: u64,
    pub latency_budget_ns: u64,
}

/// What the scatter width is derived from.
#[derive(Clone, Copy, Debug, PartialEq, Eq, Structural)]
pub struct ScatterInputs {
    /// The replicated data budget.
    pub data_bytes: u64,
    /// The stated re-replication bandwidth.
    pub bytes_per_second: u64,
    /// The recovery budget.
    pub recovery_budget_ns: u64,
    /// The fault tolerance.
    pub f: u64,
}

/// The fleet this node is configured to join.
#[derive(Debug)]
pub struct FleetMembership {
    /// The fault tolerance.
    pub quorum: Quorum,
    /// The peers this node's neighbourhood is drawn from; this host is never among them.
    pub peers: Vec<HostId>,
    /// This node's routing placeholder until its first announcement.
    pub host: HostId,
    /// This node's stable anchor, unchanged across restarts.
    pub origin_anchor: HostId,
    /// Each member's failure domain, by host.
    pub domains: BTreeMap<u64, DomainId>,
    /// Each member's region, by host; an absent host is in the sole region.
    pub regions: BTreeMap<u64, RegionId>,
    /// Each region's designated mirror, by region.
    pub region_mirrors: BTreeMap<u64, RegionId>,
}

/// One derived value as the boot log states it.
#[derive(Clone, Debug)]
pub struct Derivation {
    pub name: &'static str,
    pub value: u64,
    pub formula: &'static str,
    pub anchors: Vec<&'static str>,
}

/// A derivation's contents.
pub struct DerivationFacts {
    pub name: Seq<char>,
    pub value: u64,
    pub formula: Seq<char>,
    pub anchors: Seq<&'static str>,
}

impl View for Derivation {
    type V = DerivationFacts;

    open spec fn view(&self) -> DerivationFacts {
        derivation(self.name, self.value, self.formula, self.anchors@)
    }
}

/// The contents of a derivation of `value` under `name`.
pub open spec fn derivation(
    name: &'static str,
    value: u64,
    formula: &'static str,
    anchors: Seq<&'static str>,
) -> DerivationFacts {
    DerivationFacts { name: name@, value, formula: formula@, anchors }
}

/// The boot log's line of a derivation.
pub open spec fn derivation_line(facts: DerivationFacts) -> Seq<char> {
    facts.name + " = "@ + decimal(facts.value as nat) + ": "@ + facts.formula + " (anchors ["@
        + quoted(facts.anchors) + "])"@
}

impl Derivation {
    /// The boot log's line: the name, the value, the formula and the inputs.
    pub fn line(&self) -> (line: String)
        ensures
            line@ == derivation_line(self@),
    {
        let mut line = String::new();
        line.append(self.name);
        line.append(" = ");
        push_decimal(&mut line, self.value);
        line.append(": ");
        line.append(self.formula);
        line.append(" (anchors [");
        push_quoted(&mut line, &self.anchors);
        line.append("])");
        assert(line@ =~= derivation_line(self@));
        line
    }
}

/// A derivation of `value` under `name`.
fn note(
    name: &'static str,
    value: u64,
    formula: &'static str,
    anchors: Vec<&'static str>,
) -> (noted: Derivation)
    ensures
        noted@ == derivation(name, value, formula, anchors@),
{
    Derivation { name, value, formula, anchors }
}

/// One anchor.
fn one(anchor: &'static str) -> (anchors: Vec<&'static str>)
    ensures
        anchors@ == seq![anchor],
{
    let mut anchors: Vec<&'static str> = Vec::new();
    anchors.push(anchor);
    assert(anchors@ =~= seq![anchor]);
    anchors
}

/// Two anchors.
fn pair(first: &'static str, second: &'static str) -> (anchors: Vec<&'static str>)
    ensures
        anchors@ == seq![first, second],
{
    let mut anchors: Vec<&'static str> = Vec::new();
    anchors.push(first);
    anchors.push(second);
    assert(anchors@ =~= seq![first, second]);
    anchors
}

/// The memory a process may use: physical memory, held to the operating system's bound.
pub open spec fn effective_capacity(total: u64, limit: Option<u64>) -> u64 {
    match limit {
        Some(limit) => smaller(total as int, limit as int) as u64,
        None => total,
    }
}

/// A shard's share of a capacity, one memory class of it.
pub open spec fn class_share(capacity: u64, shards: u64) -> u64 {
    capacity / shards / MEMORY_CLASSES
}

/// Parts per thousand of `bytes`.
pub open spec fn share_of(bytes: u64, permille: u64) -> u64 {
    clamp_u64(bytes * permille) / PERMILLE
}

/// At least one.
pub open spec fn at_least_one(value: u64) -> u64 {
    larger(value as int, 1) as u64
}

/// At least one, as a size.
pub open spec fn size_at_least_one(value: u64) -> usize {
    larger(clamp_usize(value as int) as int, 1) as usize
}

/// A number as a size, or one where it is zero or no size holds it.
pub open spec fn size_or_one(value: u64) -> usize {
    if value <= usize::MAX {
        size_at_least_one(value)
    } else {
        1
    }
}

/// The shards a runtime runs: at least one.
pub open spec fn shard_count(runtime: RuntimeConfig) -> u64 {
    larger(runtime.shards as int, 1) as u64
}

impl MachineProfile {
    /// One shard's reserve: its share of the usable memory, one class of it.
    pub open spec fn reserve(&self, runtime: RuntimeConfig) -> u64 {
        class_share(
            effective_capacity(self.memory_total, self.memory_limit),
            shard_count(runtime),
        )
    }

    /// The bytes the volume tables take.
    pub open spec fn table_bytes(&self, runtime: RuntimeConfig) -> u64 {
        share_of(self.reserve(runtime), TABLE_SHARE_PERMILLE)
    }

    /// The volumes a shard's tables hold.
    pub open spec fn volumes(&self, runtime: RuntimeConfig, sizes: UnitSizes) -> usize {
        size_at_least_one(
            self.table_bytes(runtime) / at_least_one(sizes.volume_record_bytes),
        )
    }

    /// The replay log's bytes: a page per microsecond of the recovery budget.
    pub open spec fn log_bytes(&self, sizes: UnitSizes) -> int {
        (sizes.recovery_budget_ns / 1000) * larger(self.page as int, 1)
    }

    /// The bytes one archive slice may hash: half a step at the measured hash rate.
    pub open spec fn archive_slice_bytes(&self, runtime: RuntimeConfig) -> u64 {
        share_of(
            clamp_u64(self.blake3_bytes_per_second * runtime.step_budget_ns) / NANOS_PER_SECOND,
            ARCHIVE_SLICE_PERMILLE,
        )
    }

    /// The units of one slab dimension that a sixth of the metadata class holds.
    pub open spec fn slab_units(&self, runtime: RuntimeConfig, unit_bytes: u64) -> usize {
        size_at_least_one(
            self.reserve(runtime) / at_least_one(unit_bytes) / STORE_TABLE_DIVISOR,
        )
    }

    /// The chunks a shard holds: one per page of its reserve.
    pub open spec fn chunks(&self, runtime: RuntimeConfig) -> usize {
        size_at_least_one(self.reserve(runtime) / at_least_one(self.page))
    }

    /// The clients a shard admits: the regions its client share holds.
    pub open spec fn clients(&self, runtime: RuntimeConfig, sizes: UnitSizes) -> usize {
        size_at_least_one(
            share_of(self.reserve(runtime), CLIENT_SHARE_PERMILLE) / at_least_one(
                sizes.region_total_bytes,
            ),
        )
    }

    /// A shard's tasks: those of its clients and its own loops.
    pub open spec fn tasks(&self, runtime: RuntimeConfig, sizes: UnitSizes) -> usize {
        clamp_usize(
            clamp_usize(self.clients(runtime, sizes) * TASKS_PER_CLIENT) + LOOP_TASKS_PER_SHARD,
        )
    }

    /// How long a shard polls after its last work.
    pub open spec fn idle_window(&self) -> u64 {
        clamp_u64(self.spin_before_park_ns * IDLE_WINDOW_RATIO)
    }

    /// Whether `region` is the client region geometry this machine derives.
    pub open spec fn derives_region(&self, region: RegionGeometry) -> bool {
        &&& is_next_power_of_two(clamp_u32(self.ring_entries as int) as int, region.slots as int)
        &&& region.spin_ns == clamp_u32(self.spin_before_park_ns as int)
        &&& region.bulk_bytes == clamp_u64(
            clamp_u64(region.slots * 2) * BULK_CHUNK_BYTES,
        )
        &&& region.page == self.page
    }

    /// The segment's geometry.
    pub open spec fn derived_geometry(&self, runtime: RuntimeConfig, sizes: UnitSizes) -> Geometry {
        Geometry {
            partitions: larger(runtime.shards as int, 1) as u16,
            page: self.page,
            profile_bytes: larger(clamp_u64(self.encoded_bytes * 2) as int, self.page as int)
                as u64,
            log_bytes: self.log_bytes(sizes) as u64,
            snapshot_bytes: clamp_u64(self.table_bytes(runtime) * 2),
            audit_bytes: clamp_u64(
                clamp_u64(AUDIT_PAGES_PER_SHARD * self.page) * shard_count(runtime),
            ),
            landing_slots: (LANDING_SLOTS_PER_SHARD * shard_count(runtime) + 1) as u32,
            landing_slot_bytes: self.page,
        }
    }

    /// A partition's caps.
    pub open spec fn derived_caps(
        &self,
        runtime: RuntimeConfig,
        sizes: UnitSizes,
    ) -> PartitionCaps {
        PartitionCaps {
            volumes: self.volumes(runtime, sizes),
            snapshots: self.volumes(runtime, sizes),
            attachments: sizes.requests_in_flight,
            segment_slots: size_or_one(self.page / at_least_one(sizes.volume_record_bytes)),
            timers: self.volumes(runtime, sizes),
            tick_ns: runtime.timer_tick_ns,
            green_chain_bytes: clamp_usize(self.table_bytes(runtime) as int),
        }
    }

    /// The store's caps.
    pub open spec fn derived_store(&self, runtime: RuntimeConfig, sizes: UnitSizes) -> StoreCaps {
        StoreCaps {
            max_inodes: self.slab_units(runtime, sizes.inode_unit_bytes),
            max_dirs: self.slab_units(runtime, sizes.directory_unit_bytes),
            max_chunks: self.chunks(runtime),
            max_dir_blocks: self.slab_units(runtime, sizes.directory_unit_bytes),
            dir_cutover: DIR_CUTOVER,
            metadata_class_bytes: self.reserve(runtime),
        }
    }

    /// Every derivation, in the boot log's order.
    pub open spec fn derived_lines(
        &self,
        runtime: RuntimeConfig,
        sizes: UnitSizes,
        region: RegionGeometry,
    ) -> Seq<DerivationFacts> {
        seq![
            derivation(
                "effective_capacity_bytes",
                effective_capacity(self.memory_total, self.memory_limit),
                "min(memory.total, the OS/job/cgroup bound when one is set)",
                seq!["memory.total", "memory.limit"],
            ),
            derivation(
                "table_bytes",
                self.table_bytes(runtime),
                "reserve_per_shard × TABLE_SHARE_PERMILLE / 1000",
                seq!["mem.lock_capacity", "GAPS §5 table share"],
            ),
            derivation(
                "volumes_per_shard",
                self.volumes(runtime, sizes) as u64,
                "table_bytes / size_of::<VolumeRecord>()",
                seq!["table_bytes"],
            ),
            derivation(
                "slots_per_ring",
                region.slots as u64,
                "the runtime's ring entries (Little's law), rounded up to a power of two",
                seq!["rt.ring_entries"],
            ),
            derivation(
                "spin_ns",
                region.spin_ns as u64,
                "the measured wake cost p99 (the 2-competitive spin)",
                seq!["wake.p99_ns"],
            ),
            derivation(
                "log_bytes_per_partition",
                self.log_bytes(sizes) as u64,
                "recovery_budget_us × one page per microsecond of replay until the first replay measures",
                seq!["recovery_budget_ns", "page"],
            ),
            derivation(
                "snapshot_bytes_per_partition",
                clamp_u64(self.table_bytes(runtime) * 2),
                "twice the table bytes (the whole partition encoded, with growth headroom)",
                seq!["table_bytes"],
            ),
            derivation(
                "archive_slice_bytes",
                self.archive_slice_bytes(runtime),
                "blake3_bytes_per_second × step_budget_ns / 1e9 × ARCHIVE_SLICE_PERMILLE / 1000",
                seq!["hash.blake3_bytes_per_second", "rt.step_budget_ns"],
            ),
            derivation(
                "max_inodes",
                self.slab_units(runtime, sizes.inode_unit_bytes) as u64,
                "metadata_class / (Slot<Inode> + Slot<TrieNode>) / STORE_TABLE_DIVISOR",
                seq!["reserve_per_shard", "vfs.inode_unit_bytes"],
            ),
            derivation(
                "max_dirs",
                self.slab_units(runtime, sizes.directory_unit_bytes) as u64,
                "metadata_class / (Slot<DirNode> + Slot<DirBlock>) / STORE_TABLE_DIVISOR",
                seq!["reserve_per_shard", "vfs.directory_unit_bytes"],
            ),
            derivation(
                "max_chunks",
                self.chunks(runtime) as u64,
                "reserve_per_shard / page (one chunk per page at least)",
                seq!["reserve_per_shard", "page"],
            ),
            derivation(
                "metadata_class_bytes",
                self.reserve(runtime),
                "the shard's metadata class: one of the MEMORY_CLASSES shares of its RAM",
                seq!["reserve_per_shard", "MEMORY_CLASSES"],
            ),
            derivation(
                "clients_per_shard",
                self.clients(runtime, sizes) as u64,
                "reserve_per_shard × CLIENT_SHARE_PERMILLE / 1000 / region_bytes",
                seq!["reserve_per_shard", "region_bytes"],
            ),
            derivation(
                "tasks_per_shard",
                self.tasks(runtime, sizes) as u64,
                "clients_per_shard × TASKS_PER_CLIENT + LOOP_TASKS_PER_SHARD",
                seq!["clients_per_shard"],
            ),
            derivation(
                "idle_window_ns",
                self.idle_window(),
                "spin_before_park_ns × IDLE_WINDOW_RATIO",
                seq!["wake.p99_ns", "IDLE_WINDOW_RATIO"],
            ),
            derivation(
                "guest_bandwidth_bytes_per_ns",
                guest_bandwidth(self.memcpy@),
                "memcpy bytes per second at the largest measured copy size / 1e9 (at least one byte per nanosecond)",
                seq!["memcpy"],
            ),
        ]
    }
}

/// Where the last point of the largest copy size stands.
pub open spec fn is_largest_copy(points: Seq<MemcpyPoint>, at: int) -> bool {
    &&& 0 <= at < points.len()
    &&& forall|i: int| 0 <= i < points.len() ==> points[i].bytes <= points[at].bytes
    &&& forall|i: int| at < i < points.len() ==> points[i].bytes < points[at].bytes
}

/// The streaming copy rate: that of the last point of the largest copy size, or `unmeasured`.
pub open spec fn streaming_rate(points: Seq<MemcpyPoint>, unmeasured: u64) -> u64 {
    if points.len() == 0 {
        unmeasured
    } else {
        points[choose|at: int| is_largest_copy(points, at)].bytes_per_second
    }
}

/// The bytes a guest request copies per nanosecond: at least one.
pub open spec fn guest_bandwidth(points: Seq<MemcpyPoint>) -> u64 {
    if points.len() == 0 {
        1
    } else {
        at_least_one(streaming_rate(points, 0) / NANOS_PER_SECOND)
    }
}

/// The largest copy's point is one point.
proof fn lemma_largest_copy_unique(points: Seq<MemcpyPoint>, a: int, b: int)
    requires
        is_largest_copy(points, a),
        is_largest_copy(points, b),
    ensures
        a == b,
{
    if a < b {
        assert(points[b].bytes < points[a].bytes);
    } else if b < a {
        assert(points[a].bytes < points[b].bytes);
    }
}

/// The streaming copy rate: that of the last point of the largest copy size, or `unmeasured`.
fn largest_copy_rate(points: &Vec<MemcpyPoint>, unmeasured: u64) -> (rate: u64)
    ensures
        rate == streaming_rate(points@, unmeasured),
{
    if points.len() == 0 {
        return unmeasured;
    }
    let mut at: usize = 0;
    let mut i: usize = 1;
    while i < points.len()
        invariant
            at < i <= points.len(),
            forall|j: int| 0 <= j < i ==> points@[j].bytes <= points@[at as int].bytes,
            forall|j: int| at < j < i ==> points@[j].bytes < points@[at as int].bytes,
        decreases points.len() - i,
    {
        if points[i].bytes >= points[at].bytes {
            at = i;
        }
        i += 1;
    }
    proof {
        assert(is_largest_copy(points@, at as int));
        lemma_largest_copy_unique(
            points@,
            at as int,
            choose|k: int| is_largest_copy(points@, k),
        );
    }
    points[at].bytes_per_second
}

/// The last point of `codec`, if there is one.
pub open spec fn last_point(points: Seq<CodecPoint>, codec: Codec) -> Option<CodecPoint>
    decreases points.len(),
{
    if points.len() == 0 {
        None
    } else if points.last().codec == codec {
        Some(points.last())
    } else {
        last_point(points.drop_last(), codec)
    }
}

/// The points of `codec`, in order.
pub open spec fn points_of(points: Seq<CodecPoint>, codec: Codec) -> Seq<CodecPoint> {
    points.filter(|point: CodecPoint| point.codec == codec)
}

/// The cost model's candidates from the measured points: the last `lz4` point, every `zstd` point,
/// and a byte's neutral worth, the streaming copy rate. A profile that measured no codec stores
/// every chunk raw.
pub fn codec_policy(memcpy: &Vec<MemcpyPoint>, codecs: &Vec<CodecPoint>) -> (policy: CodecPolicy)
    ensures
        policy.memcpy_bytes_per_second == streaming_rate(memcpy@, 0),
        policy.lz4 == last_point(codecs@, Codec::Lz4),
        policy.zstd@ == points_of(codecs@, Codec::Zstd),
{
    let mut lz4: Option<CodecPoint> = None;
    let mut zstd: Vec<CodecPoint> = Vec::new();
    let mut i: usize = 0;
    proof {
        assert(points_of(codecs@.take(0), Codec::Zstd) =~= Seq::<CodecPoint>::empty()) by {
            reveal(Seq::filter);
        }
    }
    while i < codecs.len()
        invariant
            i <= codecs.len(),
            lz4 == last_point(codecs@.take(i as int), Codec::Lz4),
            zstd@ == points_of(codecs@.take(i as int), Codec::Zstd),
        decreases codecs.len() - i,
    {
        let point = codecs[i];
        proof {
            assert(codecs@.take(i + 1).drop_last() =~= codecs@.take(i as int));
            assert(codecs@.take(i + 1).last() == point);
            reveal(Seq::filter);
        }
        match point.codec {
            Codec::Lz4 => {
                lz4 = Some(point);
            },
            Codec::Zstd => {
                zstd.push(point);
            },
            Codec::Other => {},
        }
        i += 1;
    }
    assert(codecs@.take(i as int) =~= codecs@);
    CodecPolicy { memcpy_bytes_per_second: largest_copy_rate(memcpy, 0), lz4, zstd }
}

/// What a guest's credits are derived from.
pub open spec fn credit_inputs(
    profile: MachineProfile,
    requests_in_flight: usize,
    readable_bytes: u64,
    writable_bytes: u64,
) -> GuestCreditInputs {
    GuestCreditInputs {
        requests: requests_in_flight,
        bandwidth_bytes_per_ns: guest_bandwidth(profile.memcpy@),
        kick_round_trip_ns: at_least_one(profile.wake_p99_ns),
        frame_bytes: clamp_u64(readable_bytes + writable_bytes),
        latency_budget_ns: LATENCY_BUDGET_NS,
    }
}

/// What a guest device attachment's credits are derived from: the shard's admission limit, the
/// streaming copy rate, the wake p99 as the kick's round trip, and one request's worst case.
pub fn guest_credits(
    profile: &MachineProfile,
    requests_in_flight: usize,
    readable_bytes: u64,
    writable_bytes: u64,
) -> (inputs: GuestCreditInputs)
    ensures
        inputs == credit_inputs(
            *profile,
            requests_in_flight,
            readable_bytes,
            writable_bytes,
        ),
{
    let bandwidth: u64 = if profile.memcpy.len() == 0 {
        1
    } else {
        max_u64(largest_copy_rate(&profile.memcpy, 0) / NANOS_PER_SECOND, 1)
    };
    GuestCreditInputs {
        requests: requests_in_flight,
        bandwidth_bytes_per_ns: bandwidth,
        kick_round_trip_ns: max_u64(profile.wake_p99_ns, 1),
        frame_bytes: readable_bytes.saturating_add(writable_bytes),
        latency_budget_ns: LATENCY_BUDGET_NS,
    }
}

/// The daemon's configuration.
pub struct DaemonConfig {
    pub runtime: RuntimeConfig,
    pub geometry: Geometry,
    pub caps: PartitionCaps,
    pub region: RegionGeometry,
    /// The clients a shard admits.
    pub clients_per_shard: usize,
    /// A shard's reserve in bytes.
    pub reserve_per_shard: u64,
    /// The large-class boundary of overlay copy-ups.
    pub large_class_bytes: u64,
    pub store: StoreCaps,
    pub huge_pages: bool,
    pub cache_line: usize,
    pub page: usize,
    /// The rendezvous instance name.
    pub instance: String,
    /// The operator's failover objective, the lease term's ceiling.
    pub failover_slo_ns: u64,
    /// The stated re-replication bandwidth; zero leaves the scatter width at its floor.
    pub rereplication_bytes_per_second: u64,
    /// The bytes one archive slice may hash.
    pub archive_slice_bytes: u64,
    pub codec: CodecPolicy,
    pub telemetry_spans_per_reply: usize,
    /// The fleet this node joins, or none.
    pub fleet: Option<FleetMembership>,
    pub guest_credits: GuestCreditInputs,
    /// Every derivation, for the boot log.
    pub derivations: Vec<Derivation>,
}

/// A fleet's own tasks on a shard: per peer its loops and one serve task per session either plane
/// may hold for it, and the planes' loops.
pub open spec fn fleet_task_share(peers: int, sessions_per_peer: int) -> usize {
    clamp_usize(
        clamp_usize(
            clamp_usize(peers * FLEET_LOOPS_PER_PEER) + clamp_usize(
                peers * (sessions_per_peer * FLEET_PLANES),
            ),
        ) + FLEET_LOOPS_PER_SHARD,
    )
}

impl MachineProfile {
    /// Whether a configuration is the one this machine derives for an instance.
    pub open spec fn derives(
        &self,
        runtime: RuntimeConfig,
        sizes: UnitSizes,
        region: RegionGeometry,
        instance: Seq<char>,
        config: DaemonConfig,
    ) -> bool {
        &&& config.runtime.shards == runtime.shards
        &&& config.runtime.pin == runtime.pin
        &&& config.runtime.cores == runtime.cores
        &&& config.runtime.step_budget_ns == runtime.step_budget_ns
        &&& config.runtime.timer_tick_ns == runtime.timer_tick_ns
        &&& config.runtime.tasks_per_shard == self.tasks(runtime, sizes)
        &&& config.runtime.timers_per_shard == self.tasks(runtime, sizes)
        &&& config.runtime.spin_ns == self.idle_window()
        &&& config.geometry == self.derived_geometry(runtime, sizes)
        &&& config.caps == self.derived_caps(runtime, sizes)
        &&& config.region == region
        &&& config.clients_per_shard == self.clients(runtime, sizes)
        &&& config.reserve_per_shard == self.reserve(runtime)
        &&& config.large_class_bytes == self.arena_region_bytes
        &&& config.store == self.derived_store(runtime, sizes)
        &&& config.huge_pages == self.huge_pages
        &&& config.cache_line == size_or_one(self.cache_line)
        &&& config.page == size_or_one(self.page)
        &&& config.instance@ == instance
        &&& config.failover_slo_ns == FAILOVER_SLO_NS
        &&& config.rereplication_bytes_per_second == 0
        &&& config.archive_slice_bytes == self.archive_slice_bytes(runtime)
        &&& config.codec.memcpy_bytes_per_second == streaming_rate(self.memcpy@, 0)
        &&& config.codec.lz4 == last_point(self.codecs@, Codec::Lz4)
        &&& config.codec.zstd@ == points_of(self.codecs@, Codec::Zstd)
        &&& config.telemetry_spans_per_reply == sizes.telemetry_spans_per_reply
        &&& config.fleet is None
        &&& config.guest_credits == (GuestCreditInputs {
            requests: sizes.requests_in_flight,
            bandwidth_bytes_per_ns: guest_bandwidth(self.memcpy@),
            kick_round_trip_ns: at_least_one(self.wake_p99_ns),
            frame_bytes: clamp_u64(sizes.guest_readable_bytes + sizes.guest_writable_bytes),
            latency_budget_ns: LATENCY_BUDGET_NS,
        })
        &&& config.lines() == self.derived_lines(runtime, sizes, region)
    }
}

impl DaemonConfig {
    /// The contents of every derivation.
    pub open spec fn lines(&self) -> Seq<DerivationFacts> {
        self.derivations@.map_values(|d: Derivation| d@)
    }

    /// The client region's geometry: the ring entries rounded up to a power of two, the spin the
    /// wake cost gives, and a bulk chunk each direction per slot.
    pub fn region_geometry(profile: &MachineProfile) -> (region: RegionGeometry)
        requires
            profile.ring_entries <= 0x8000_0000,
        ensures
            profile.derives_region(region),
    {
        let slots: u32 = next_power_of_two(to_u32(profile.ring_entries));
        RegionGeometry {
            slots,
            spin_ns: to_u32(profile.spin_before_park_ns),
            bulk_bytes: times(times(slots as u64, 2), BULK_CHUNK_BYTES),
            page: profile.page,
        }
    }

    /// The configuration of `instance` on the profiled machine. `runtime` is what the runtime
    /// derived for itself, `sizes` what the other subsystems state, and `region` the geometry the
    /// machine derives.
    pub fn derive(
        profile: &MachineProfile,
        runtime: RuntimeConfig,
        sizes: UnitSizes,
        region: RegionGeometry,
        instance: &str,
    ) -> (config: DaemonConfig)
        requires
            profile.log_bytes(sizes) <= u64::MAX,
            profile.derives_region(region),
        ensures
            profile.derives(runtime, sizes, region, instance@, config),
    {
        let mut derivations: Vec<Derivation> = Vec::new();
        let shards: u64 = max_u64(runtime.shards as u64, 1);
        let effective: u64 = match profile.memory_limit {
            Some(limit) => min_u64(profile.memory_total, limit),
            None => profile.memory_total,
        };
        derivations.push(
            note(
                "effective_capacity_bytes",
                effective,
                "min(memory.total, the OS/job/cgroup bound when one is set)",
                pair("memory.total", "memory.limit"),
            ),
        );
        let reserve: u64 = effective / shards / MEMORY_CLASSES;
        let page: u64 = profile.page;
        let tables: u64 = times(reserve, TABLE_SHARE_PERMILLE) / PERMILLE;
        derivations.push(
            note(
                "table_bytes",
                tables,
                "reserve_per_shard × TABLE_SHARE_PERMILLE / 1000",
                pair("mem.lock_capacity", "GAPS §5 table share"),
            ),
        );
        let record_bytes: u64 = max_u64(sizes.volume_record_bytes, 1);
        let volumes: usize = one_or_more(tables / record_bytes);
        derivations.push(
            note(
                "volumes_per_shard",
                volumes as u64,
                "table_bytes / size_of::<VolumeRecord>()",
                one("table_bytes"),
            ),
        );
        derivations.push(
            note(
                "slots_per_ring",
                region.slots as u64,
                "the runtime's ring entries (Little's law), rounded up to a power of two",
                one("rt.ring_entries"),
            ),
        );
        derivations.push(
            note(
                "spin_ns",
                region.spin_ns as u64,
                "the measured wake cost p99 (the 2-competitive spin)",
                one("wake.p99_ns"),
            ),
        );
        let log_bytes: u64 = sizes.recovery_budget_ns / 1000 * max_u64(page, 1);
        derivations.push(
            note(
                "log_bytes_per_partition",
                log_bytes,
                "recovery_budget_us × one page per microsecond of replay until the first replay measures",
                pair("recovery_budget_ns", "page"),
            ),
        );
        let snapshot_bytes: u64 = times(tables, 2);
        derivations.push(
            note(
                "snapshot_bytes_per_partition",
                snapshot_bytes,
                "twice the table bytes (the whole partition encoded, with growth headroom)",
                one("table_bytes"),
            ),
        );
        let archive_slice_bytes: u64 = times(
            times(profile.blake3_bytes_per_second, runtime.step_budget_ns) / NANOS_PER_SECOND,
            ARCHIVE_SLICE_PERMILLE,
        ) / PERMILLE;
        derivations.push(
            note(
                "archive_slice_bytes",
                archive_slice_bytes,
                "blake3_bytes_per_second × step_budget_ns / 1e9 × ARCHIVE_SLICE_PERMILLE / 1000",
                pair("hash.blake3_bytes_per_second", "rt.step_budget_ns"),
            ),
        );
        let partitions: u16 = if runtime.shards >= 1 {
            runtime.shards
        } else {
            1
        };
        let geometry = Geometry {
            partitions,
            page,
            profile_bytes: max_u64(times(profile.encoded_bytes, 2), page),
            log_bytes,
            snapshot_bytes,
            audit_bytes: times(times(AUDIT_PAGES_PER_SHARD, page), shards),
            landing_slots: LANDING_SLOTS_PER_SHARD * partitions as u32 + 1,
            landing_slot_bytes: page,
        };
        let caps = PartitionCaps {
            volumes,
            snapshots: volumes,
            attachments: sizes.requests_in_flight,
            segment_slots: fitting_or_one(page / record_bytes),
            timers: volumes,
            tick_ns: runtime.timer_tick_ns,
            green_chain_bytes: to_size(tables),
        };
        let max_inodes: usize = one_or_more(
            reserve / max_u64(sizes.inode_unit_bytes, 1) / STORE_TABLE_DIVISOR,
        );
        derivations.push(
            note(
                "max_inodes",
                max_inodes as u64,
                "metadata_class / (Slot<Inode> + Slot<TrieNode>) / STORE_TABLE_DIVISOR",
                pair("reserve_per_shard", "vfs.inode_unit_bytes"),
            ),
        );
        let max_dirs: usize = one_or_more(
            reserve / max_u64(sizes.directory_unit_bytes, 1) / STORE_TABLE_DIVISOR,
        );
        derivations.push(
            note(
                "max_dirs",
                max_dirs as u64,
                "metadata_class / (Slot<DirNode> + Slot<DirBlock>) / STORE_TABLE_DIVISOR",
                pair("reserve_per_shard", "vfs.directory_unit_bytes"),
            ),
        );
        let max_chunks: usize = one_or_more(reserve / max_u64(page, 1));
        derivations.push(
            note(
                "max_chunks",
                max_chunks as u64,
                "reserve_per_shard / page (one chunk per page at least)",
                pair("reserve_per_shard", "page"),
            ),
        );
        derivations.push(
            note(
                "metadata_class_bytes",
                reserve,
                "the shard's metadata class: one of the MEMORY_CLASSES shares of its RAM",
                pair("reserve_per_shard", "MEMORY_CLASSES"),
            ),
        );
        let store = StoreCaps {
            max_inodes,
            max_dirs,
            max_chunks,
            max_dir_blocks: max_dirs,
            dir_cutover: DIR_CUTOVER,
            metadata_class_bytes: reserve,
        };
        let clients: usize = one_or_more(
            times(reserve, CLIENT_SHARE_PERMILLE) / PERMILLE / max_u64(
                sizes.region_total_bytes,
                1,
            ),
        );
        derivations.push(
            note(
                "clients_per_shard",
                clients as u64,
                "reserve_per_shard × CLIENT_SHARE_PERMILLE / 1000 / region_bytes",
                pair("reserve_per_shard", "region_bytes"),
            ),
        );
        let tasks: usize = times_size(clients, TASKS_PER_CLIENT).saturating_add(
            LOOP_TASKS_PER_SHARD,
        );
        derivations.push(
            note(
                "tasks_per_shard",
                tasks as u64,
                "clients_per_shard × TASKS_PER_CLIENT + LOOP_TASKS_PER_SHARD",
                one("clients_per_shard"),
            ),
        );
        let idle_window: u64 = times(profile.spin_before_park_ns, IDLE_WINDOW_RATIO);
        derivations.push(
            note(
                "idle_window_ns",
                idle_window,
                "spin_before_park_ns × IDLE_WINDOW_RATIO",
                pair("wake.p99_ns", "IDLE_WINDOW_RATIO"),
            ),
        );
        let guest = guest_credits(
            profile,
            sizes.requests_in_flight,
            sizes.guest_readable_bytes,
            sizes.guest_writable_bytes,
        );
        derivations.push(
            note(
                "guest_bandwidth_bytes_per_ns",
                guest.bandwidth_bytes_per_ns,
                "memcpy bytes per second at the largest measured copy size / 1e9 (at least one byte per nanosecond)",
                one("memcpy"),
            ),
        );
        let config = DaemonConfig {
            runtime: RuntimeConfig {
                shards: runtime.shards,
                pin: runtime.pin,
                cores: runtime.cores,
                step_budget_ns: runtime.step_budget_ns,
                timer_tick_ns: runtime.timer_tick_ns,
                tasks_per_shard: tasks,
                timers_per_shard: tasks,
                spin_ns: idle_window,
            },
            geometry,
            caps,
            region,
            clients_per_shard: clients,
            reserve_per_shard: reserve,
            large_class_bytes: profile.arena_region_bytes,
            store,
            huge_pages: profile.huge_pages,
            cache_line: fitting_or_one(profile.cache_line),
            page: fitting_or_one(page),
            instance: instance.to_owned(),
            failover_slo_ns: FAILOVER_SLO_NS,
            rereplication_bytes_per_second: 0,
            archive_slice_bytes,
            codec: codec_policy(&profile.memcpy, &profile.codecs),
            telemetry_spans_per_reply: sizes.telemetry_spans_per_reply,
            fleet: None,
            guest_credits: guest,
            derivations,
        };
        assert(config.lines() =~= profile.derived_lines(runtime, sizes, region));
        config
    }

    /// This with a failover budget.
    pub open spec fn within_slo(self, failover_slo_ns: u64) -> DaemonConfig {
        DaemonConfig { failover_slo_ns: at_least_one(failover_slo_ns), ..self }
    }

    /// The same configuration with the operator's failover objective.
    pub fn with_failover_slo(self, failover_slo_ns: u64) -> (config: DaemonConfig)
        ensures
            config == self.within_slo(failover_slo_ns),
    {
        DaemonConfig { failover_slo_ns: max_u64(failover_slo_ns, 1), ..self }
    }

    /// This with a bandwidth to copy at.
    pub open spec fn copying_at(self, bytes_per_second: u64) -> DaemonConfig {
        DaemonConfig { rereplication_bytes_per_second: bytes_per_second, ..self }
    }

    /// The same configuration with the stated re-replication bandwidth.
    pub fn with_rereplication_bandwidth(self, bytes_per_second: u64) -> (config: DaemonConfig)
        ensures
            config == self.copying_at(bytes_per_second),
    {
        DaemonConfig { rereplication_bytes_per_second: bytes_per_second, ..self }
    }

    /// What the scatter width is derived from.
    pub open spec fn scatters(&self, quorum: Quorum, recovery_budget_ns: u64) -> ScatterInputs {
        ScatterInputs {
            data_bytes: clamp_u64(self.reserve_per_shard * shard_count(self.runtime)),
            bytes_per_second: self.rereplication_bytes_per_second,
            recovery_budget_ns,
            f: quorum.f as u64,
        }
    }

    /// What the neighbourhood's scatter width is derived from: this node's replicated data budget
    /// over every shard, its stated bandwidth, the recovery budget and the fault tolerance.
    pub fn derived_scatter(&self, quorum: Quorum, recovery_budget_ns: u64) -> (inputs:
        ScatterInputs)
        ensures
            inputs == self.scatters(quorum, recovery_budget_ns),
    {
        ScatterInputs {
            data_bytes: times(self.reserve_per_shard, max_u64(self.runtime.shards as u64, 1)),
            bytes_per_second: self.rereplication_bytes_per_second,
            recovery_budget_ns,
            f: quorum.f as u64,
        }
    }

    /// Whether `config` is this one on a number of unpinned shards.
    pub open spec fn reshards(self, shards: u16, config: DaemonConfig) -> bool {
        &&& config.runtime.cores@ == Seq::<usize>::empty()
        &&& config == (DaemonConfig {
            runtime: RuntimeConfig {
                shards: larger(shards as int, 1) as u16,
                pin: false,
                cores: config.runtime.cores,
                ..self.runtime
            },
            geometry: Geometry {
                partitions: larger(shards as int, 1) as u16,
                ..self.geometry
            },
            ..self
        })
    }

    /// The same configuration over `shards` shards, unpinned; the segment's partitions follow.
    pub fn with_shards(self, shards: u16) -> (config: DaemonConfig)
        ensures
            self.reshards(shards, config),
    {
        let shards: u16 = if shards >= 1 {
            shards
        } else {
            1
        };
        DaemonConfig {
            runtime: RuntimeConfig { shards, pin: false, cores: Vec::new(), ..self.runtime },
            geometry: Geometry { partitions: shards, ..self.geometry },
            ..self
        }
    }

    /// Whether `config` is this configuration joined to a fleet.
    pub open spec fn joins(
        &self,
        membership: FleetMembership,
        sessions_per_peer: usize,
        config: DaemonConfig,
    ) -> bool {
        let share = fleet_task_share(
            membership.peers@.len() as int,
            sessions_per_peer as int,
        );
        &&& config.lines() == self.lines().push(
            derivation(
                "fleet_tasks_per_shard",
                share as u64,
                "peers × FLEET_LOOPS_PER_PEER + peers × SESSIONS_PER_PEER × FLEET_PLANES + FLEET_LOOPS_PER_SHARD",
                seq!["fleet.peers"],
            ),
        )
        &&& config == (DaemonConfig {
            runtime: RuntimeConfig {
                tasks_per_shard: clamp_usize(self.runtime.tasks_per_shard + share),
                timers_per_shard: clamp_usize(self.runtime.timers_per_shard + share),
                ..self.runtime
            },
            fleet: Some(membership),
            derivations: config.derivations,
            ..*self
        })
    }

    /// The same configuration joined to a fleet: the fleet's own tasks are a second population on
    /// the control shard, sized here from the peer count and added to the shard's budgets.
    pub fn with_fleet(self, membership: FleetMembership, sessions_per_peer: usize) -> (config:
        DaemonConfig)
        requires
            sessions_per_peer * FLEET_PLANES <= usize::MAX,
        ensures
            self.joins(membership, sessions_per_peer, config),
    {
        let ghost before = self.lines();
        let peers: usize = membership.peers.len();
        let share: usize = times_size(peers, FLEET_LOOPS_PER_PEER).saturating_add(
            times_size(peers, sessions_per_peer * FLEET_PLANES),
        ).saturating_add(FLEET_LOOPS_PER_SHARD);
        let mut derivations = self.derivations;
        derivations.push(
            note(
                "fleet_tasks_per_shard",
                share as u64,
                "peers × FLEET_LOOPS_PER_PEER + peers × SESSIONS_PER_PEER × FLEET_PLANES + FLEET_LOOPS_PER_SHARD",
                one("fleet.peers"),
            ),
        );
        let config = DaemonConfig {
            runtime: RuntimeConfig {
                tasks_per_shard: self.runtime.tasks_per_shard.saturating_add(share),
                timers_per_shard: self.runtime.timers_per_shard.saturating_add(share),
                ..self.runtime
            },
            fleet: Some(membership),
            derivations,
            ..self
        };
        proof {
            assert(config.lines() =~= before.push(derivations@.last()@));
        }
        config
    }
}

/// What the other subsystems derive from this configuration, as the boot log states it.
#[derive(Debug)]
pub struct StatedLines {
    /// The runtime's admission limit.
    pub requests_in_flight: Derivation,
    /// The memory budget's shard reserve.
    pub reserve: Derivation,
    /// The worth of a byte to the codecs' cost model, in its scaled nanoseconds.
    pub byte_ns_scaled: u64,
    /// The spans of a telemetry reply.
    pub telemetry_spans: Derivation,
    /// The store's clean-file digest cache.
    pub digest_cache: Derivation,
    /// A guest attachment's request credit.
    pub guest_requests: Derivation,
    /// A guest attachment's byte credit.
    pub guest_bytes: Derivation,
}

/// The levels of a codec's points, separated by commas.
pub open spec fn level_list(points: Seq<CodecPoint>) -> Seq<char>
    decreases points.len(),
{
    if points.len() == 0 {
        Seq::empty()
    } else if points.len() == 1 {
        signed_decimal(points[0].level as int)
    } else {
        level_list(points.drop_last()) + ", "@ + signed_decimal(points.last().level as int)
    }
}

/// Appends the levels of a codec's points, separated by commas.
fn push_levels(text: &mut String, points: &Vec<CodecPoint>)
    ensures
        final(text)@ == old(text)@ + level_list(points@),
{
    let mut i: usize = 0;
    assert(text@ =~= old(text)@ + level_list(points@.take(0)));
    while i < points.len()
        invariant
            i <= points.len(),
            text@ == old(text)@ + level_list(points@.take(i as int)),
        decreases points.len() - i,
    {
        proof {
            assert(points@.take(i + 1).drop_last() =~= points@.take(i as int));
            assert(points@.take(i + 1).last() == points@[i as int]);
        }
        if i > 0 {
            text.append(", ");
        }
        push_signed(text, points[i].level);
        i += 1;
        assert(text@ =~= old(text)@ + level_list(points@.take(i as int)));
    }
    assert(points@.take(i as int) =~= points@);
}

impl CodecPolicy {
    /// The boot log's line of the codecs.
    pub open spec fn policy_line(&self, byte_ns_scaled: u64) -> Seq<char> {
        "codec = lz4 "@ + (if self.lz4 is Some {
            "true"@
        } else {
            "false"@
        }) + ", zstd levels ["@ + level_list(self.zstd@) + "], byte worth "@ + decimal(
            byte_ns_scaled as nat,
        )
            + " scaled ns: the profile's measured codec points, a byte worth its memcpy cost at neutral value_of_byte and value_of_cpu, E[reads] = 1 (anchors [\"codecs\", \"memcpy.bytes_per_second\"])"@
    }

    /// The boot log's line of the codecs: the candidates, and what a byte is worth.
    pub fn line(&self, byte_ns_scaled: u64) -> (line: String)
        ensures
            line@ == self.policy_line(byte_ns_scaled),
    {
        let mut line = String::new();
        line.append("codec = lz4 ");
        line.append(
            if self.lz4.is_some() {
                "true"
            } else {
                "false"
            },
        );
        line.append(", zstd levels [");
        push_levels(&mut line, &self.zstd);
        line.append("], byte worth ");
        push_decimal(&mut line, byte_ns_scaled);
        line.append(
            " scaled ns: the profile's measured codec points, a byte worth its memcpy cost at neutral value_of_byte and value_of_cpu, E[reads] = 1 (anchors [\"codecs\", \"memcpy.bytes_per_second\"])",
        );
        assert(line@ =~= self.policy_line(byte_ns_scaled));
        line
    }
}

impl DaemonConfig {
    /// The lines stated just before this configuration's line `at`, or at the end of them.
    pub open spec fn stated_before(&self, stated: StatedLines, at: int) -> Seq<Seq<char>> {
        if at == 0 {
            seq![derivation_line(stated.requests_in_flight@)]
        } else if at == 1 {
            seq![derivation_line(stated.reserve@)]
        } else if at == 8 {
            seq![
                self.codec.policy_line(stated.byte_ns_scaled),
                derivation_line(stated.telemetry_spans@),
            ]
        } else if at == 12 {
            seq![derivation_line(stated.digest_cache@)]
        } else if at == 16 {
            seq![
                derivation_line(stated.guest_requests@),
                derivation_line(stated.guest_bytes@),
            ]
        } else {
            Seq::empty()
        }
    }

    /// The boot log up to this configuration's line `at`, without what is stated before that line.
    pub open spec fn log_up_to(&self, stated: StatedLines, at: int) -> Seq<Seq<char>>
        decreases at,
    {
        if at <= 0 {
            Seq::empty()
        } else {
            self.log_up_to(stated, at - 1) + self.stated_before(stated, at - 1) + seq![
                derivation_line(self.lines()[at - 1]),
            ]
        }
    }

    /// Appends the lines stated just before line `at`.
    fn push_stated(&self, log: &mut Vec<String>, stated: &StatedLines, at: usize)
        ensures
            texts(final(log)@) == texts(old(log)@) + self.stated_before(*stated, at as int),
    {
        if at == 0 {
            log.push(stated.requests_in_flight.line());
        } else if at == 1 {
            log.push(stated.reserve.line());
        } else if at == 8 {
            log.push(self.codec.line(stated.byte_ns_scaled));
            log.push(stated.telemetry_spans.line());
        } else if at == 12 {
            log.push(stated.digest_cache.line());
        } else if at == 16 {
            log.push(stated.guest_requests.line());
            log.push(stated.guest_bytes.line());
        }
        assert(texts(log@) =~= texts(old(log)@) + self.stated_before(*stated, at as int));
    }

    /// Whether `log` is the boot log.
    pub open spec fn logs_boot(&self, stated: StatedLines, log: Seq<Seq<char>>) -> bool {
        log == self.log_up_to(stated, self.derivations@.len() as int)
            + self.stated_before(stated, self.derivations@.len() as int)
    }

    /// The boot log: every derivation of this configuration in order, with those the other
    /// subsystems state in their places among them.
    pub fn boot_log(&self, stated: &StatedLines) -> (log: Vec<String>)
        ensures
            self.logs_boot(*stated, texts(log@)),
    {
        let mut log: Vec<String> = Vec::new();
        let mut at: usize = 0;
        assert(texts(log@) =~= self.log_up_to(*stated, 0));
        while at < self.derivations.len()
            invariant
                at <= self.derivations.len(),
                texts(log@) == self.log_up_to(*stated, at as int),
            decreases self.derivations.len() - at,
        {
            self.push_stated(&mut log, stated, at);
            let ghost before = log@;
            log.push(self.derivations[at].line());
            assert(texts(log@) =~= texts(before) + seq![derivation_line(self.lines()[at as int])]);
            at += 1;
        }
        self.push_stated(&mut log, stated, at);
        log
    }
}

/// The lines of a log, as text.
pub open spec fn texts(log: Seq<String>) -> Seq<Seq<char>> {
    log.map_values(|line: String| line@)
}

/// A size of at least one.
fn one_or_more(value: u64) -> (size: usize)
    ensures
        size == size_at_least_one(value),
{
    let size: usize = to_size(value);
    if size >= 1 {
        size
    } else {
        1
    }
}

/// A size of at least one; one where the value does not fit.
fn fitting_or_one(value: u64) -> (size: usize)
    ensures
        size == size_or_one(value),
{
    if value <= usize::MAX as u64 {
        one_or_more(value)
    } else {
        1
    }
}

/// The memory classes of every shard together fit what the process may use, and a bound below the
/// physical memory caps them.
pub proof fn reserves_fit_the_effective_capacity(profile: &MachineProfile, runtime: RuntimeConfig)
    ensures
        profile.reserve(runtime) * shard_count(runtime) * MEMORY_CLASSES <= profile.memory_total,
        profile.memory_limit matches Some(limit) ==> profile.reserve(runtime) * shard_count(runtime)
            * MEMORY_CLASSES <= limit,
{
    let capacity = effective_capacity(profile.memory_total, profile.memory_limit) as int;
    let shards = shard_count(runtime) as int;
    let per_shard = capacity / shards;
    let reserve = per_shard / 3;
    assert(reserve * shards * 3 <= capacity) by (nonlinear_arith)
        requires
            shards >= 1,
            capacity >= 0,
            per_shard == capacity / shards,
            reserve == per_shard / 3,
    ;
}

/// Every slab at its bound fits its metadata class: once the class holds six of either unit, the
/// inode and directory slabs together take at most a third of it, and the rest is the records'.
pub proof fn slabs_leave_room_for_records(
    profile: &MachineProfile,
    runtime: RuntimeConfig,
    sizes: UnitSizes,
)
    requires
        sizes.inode_unit_bytes >= 1,
        sizes.directory_unit_bytes >= 1,
        profile.reserve(runtime) >= sizes.inode_unit_bytes * STORE_TABLE_DIVISOR,
        profile.reserve(runtime) >= sizes.directory_unit_bytes * STORE_TABLE_DIVISOR,
    ensures
        ({
            let store = profile.derived_store(runtime, sizes);
            3 * (store.max_inodes * sizes.inode_unit_bytes + store.max_dirs
                * sizes.directory_unit_bytes) <= store.metadata_class_bytes
        }),
{
    lemma_slab_fits(profile.reserve(runtime), sizes.inode_unit_bytes);
    lemma_slab_fits(profile.reserve(runtime), sizes.directory_unit_bytes);
}

/// One slab dimension at its bound takes at most a sixth of the class.
proof fn lemma_slab_fits(class: u64, unit: u64)
    requires
        unit >= 1,
        class >= unit * STORE_TABLE_DIVISOR,
    ensures
        6 * (size_at_least_one(class / unit / STORE_TABLE_DIVISOR) * unit) <= class,
{
    let units = class as int / unit as int / 6;
    let q = class as int / unit as int;
    assert(units >= 1 && 6 * (units * unit) <= class) by (nonlinear_arith)
        requires
            unit >= 1,
            class >= unit * 6,
            q == class as int / unit as int,
            units == q / 6,
    ;
    let held = size_at_least_one(class / unit / STORE_TABLE_DIVISOR) as int;
    assert(held <= units);
    assert(6 * (held * unit) <= 6 * (units * unit)) by (nonlinear_arith)
        requires
            0 <= held <= units,
            unit >= 1,
    ;
}

/// A quotient's bounds: the divisor fits that often, and not once more.
proof fn lemma_fits(whole: int, part: int)
    requires
        whole >= 0,
        part >= 1,
    ensures
        (whole / part) * part <= whole < (whole / part + 1) * part,
        whole >= part ==> whole / part >= 1,
        whole / part >= 0,
{
    assert((whole / part) * part <= whole < (whole / part + 1) * part && (whole >= part ==> whole
        / part >= 1) && whole / part >= 0) by (nonlinear_arith)
        requires
            whole >= 0,
            part >= 1,
    ;
}

/// A quotient held to a size, where the divisor fits at least once: it fits that often, and not once
/// more unless no size is larger.
proof fn lemma_sized_quotient(whole: u64, part: u64)
    requires
        part >= 1,
        whole >= part,
    ensures
        size_at_least_one(whole / part) * part <= whole,
        size_at_least_one(whole / part) < usize::MAX ==> whole < (size_at_least_one(whole / part)
            + 1) * part,
{
    lemma_fits(whole as int, part as int);
    let held = size_at_least_one(whole / part) as int;
    let quotient = whole as int / part as int;
    assert(held <= quotient);
    assert(held * part <= quotient * part) by (nonlinear_arith)
        requires
            held <= quotient,
            part >= 1,
    ;
}

/// Two floors in a row are one: what is left of a whole by two divisors is what their product leaves.
proof fn lemma_two_floors(whole: int, first: int, second: int)
    requires
        whole >= 0,
        first >= 1,
        second >= 1,
    ensures
        (whole / first / second) * second * first <= whole < (whole / first / second + 1) * second
            * first,
{
    let q = whole / first;
    let r = q / second;
    lemma_fits(whole, first);
    lemma_fits(q, second);
    assert(r * second * first <= q * first) by (nonlinear_arith)
        requires
            r * second <= q,
            first >= 1,
    ;
    assert((q + 1) * first <= (r + 1) * second * first) by (nonlinear_arith)
        requires
            q < (r + 1) * second,
            first >= 1,
    ;
}

/// A shard's reserve is the largest that fits: three classes of it on every shard are within the
/// memory the process may use, and one byte more each would not be.
pub proof fn a_reserve_is_the_largest_that_fits(
    profile: MachineProfile,
    runtime: RuntimeConfig,
    sizes: UnitSizes,
    region: RegionGeometry,
    instance: Seq<char>,
    config: DaemonConfig,
)
    requires
        profile.derives(runtime, sizes, region, instance, config),
    ensures
        ({
            let usable = match profile.memory_limit {
                Some(limit) if limit < profile.memory_total => limit,
                _ => profile.memory_total,
            };
            let shards: int = if runtime.shards == 0 {
                1
            } else {
                runtime.shards as int
            };
            &&& config.reserve_per_shard * 3 * shards <= usable
            &&& usable < (config.reserve_per_shard + 1) * 3 * shards
            &&& config.store.metadata_class_bytes == config.reserve_per_shard
        }),
{
    let usable = match profile.memory_limit {
        Some(limit) if limit < profile.memory_total => limit,
        _ => profile.memory_total,
    };
    lemma_two_floors(usable as int, shard_count(runtime) as int, 3);
}

/// The admitted clients' regions fit a quarter of the shard's reserve, and no more would: where one
/// region fits it at all.
pub proof fn the_admitted_clients_fill_their_share(
    profile: MachineProfile,
    runtime: RuntimeConfig,
    sizes: UnitSizes,
    region: RegionGeometry,
    instance: Seq<char>,
    config: DaemonConfig,
)
    requires
        profile.derives(runtime, sizes, region, instance, config),
        sizes.region_total_bytes >= 1,
        config.reserve_per_shard * 250 <= u64::MAX,
        sizes.region_total_bytes <= config.reserve_per_shard / 4,
    ensures
        config.clients_per_shard * sizes.region_total_bytes <= config.reserve_per_shard / 4,
        config.clients_per_shard < usize::MAX ==> config.reserve_per_shard / 4 < (
        config.clients_per_shard + 1) * sizes.region_total_bytes,
{
    let share = share_of(profile.reserve(runtime), CLIENT_SHARE_PERMILLE);
    assert(share == config.reserve_per_shard / 4);
    lemma_sized_quotient(share, sizes.region_total_bytes);
}

/// A shard admits a client whatever its memory: never none.
pub proof fn a_shard_admits_a_client(
    profile: MachineProfile,
    runtime: RuntimeConfig,
    sizes: UnitSizes,
    region: RegionGeometry,
    instance: Seq<char>,
    config: DaemonConfig,
)
    requires
        profile.derives(runtime, sizes, region, instance, config),
    ensures
        config.clients_per_shard >= 1,
        config.caps.volumes >= 1,
        config.store.max_inodes >= 1,
        config.store.max_dirs >= 1,
        config.store.max_chunks >= 1,
        config.cache_line >= 1,
        config.page >= 1,
{
}

/// The volume tables fill a quarter of the shard's reserve and no more: as many records as fit it,
/// each volume with one timer and one head snapshot.
pub proof fn the_volume_tables_fill_their_share(
    profile: MachineProfile,
    runtime: RuntimeConfig,
    sizes: UnitSizes,
    region: RegionGeometry,
    instance: Seq<char>,
    config: DaemonConfig,
)
    requires
        profile.derives(runtime, sizes, region, instance, config),
        sizes.volume_record_bytes >= 1,
        config.reserve_per_shard * 250 <= u64::MAX,
        sizes.volume_record_bytes <= config.reserve_per_shard / 4,
    ensures
        config.caps.volumes * sizes.volume_record_bytes <= config.reserve_per_shard / 4,
        config.caps.volumes < usize::MAX ==> config.reserve_per_shard / 4 < (config.caps.volumes
            + 1) * sizes.volume_record_bytes,
        config.caps.snapshots == config.caps.volumes,
        config.caps.timers == config.caps.volumes,
        config.reserve_per_shard / 4 <= usize::MAX ==> config.caps.green_chain_bytes
            == config.reserve_per_shard / 4,
{
    let share = share_of(profile.reserve(runtime), TABLE_SHARE_PERMILLE);
    assert(share == config.reserve_per_shard / 4);
    lemma_sized_quotient(share, sizes.volume_record_bytes);
}

/// A shard holds a chunk per page of its reserve, and each slab a sixth of it: as many units as fit,
/// and no more.
pub proof fn the_slabs_fill_their_shares(
    profile: MachineProfile,
    runtime: RuntimeConfig,
    sizes: UnitSizes,
    region: RegionGeometry,
    instance: Seq<char>,
    config: DaemonConfig,
)
    requires
        profile.derives(runtime, sizes, region, instance, config),
        config.store.max_chunks < usize::MAX,
        config.store.max_inodes < usize::MAX,
        config.store.max_dirs < usize::MAX,
    ensures
        1 <= profile.page <= config.reserve_per_shard ==> config.store.max_chunks * profile.page
            <= config.reserve_per_shard < (config.store.max_chunks + 1) * profile.page,
        sizes.inode_unit_bytes >= 1 && sizes.inode_unit_bytes * 6 <= config.reserve_per_shard
            ==> config.store.max_inodes * 6 * sizes.inode_unit_bytes <= config.reserve_per_shard
            < (config.store.max_inodes + 1) * 6 * sizes.inode_unit_bytes,
        sizes.directory_unit_bytes >= 1 && sizes.directory_unit_bytes * 6
            <= config.reserve_per_shard ==> config.store.max_dirs * 6 * sizes.directory_unit_bytes
            <= config.reserve_per_shard < (config.store.max_dirs + 1) * 6
            * sizes.directory_unit_bytes,
        config.store.max_dir_blocks == config.store.max_dirs,
{
    let reserve = profile.reserve(runtime);
    if 1 <= profile.page <= reserve {
        lemma_sized_quotient(reserve, profile.page);
    }
    if sizes.inode_unit_bytes >= 1 && sizes.inode_unit_bytes * 6 <= reserve {
        lemma_slab_fills(reserve, sizes.inode_unit_bytes);
    }
    if sizes.directory_unit_bytes >= 1 && sizes.directory_unit_bytes * 6 <= reserve {
        lemma_slab_fills(reserve, sizes.directory_unit_bytes);
    }
}

/// One slab dimension at its bound fills a sixth of its class.
proof fn lemma_slab_fills(class: u64, unit: u64)
    requires
        unit >= 1,
        unit * 6 <= class,
        size_at_least_one(class / unit / STORE_TABLE_DIVISOR) < usize::MAX,
    ensures
        ({
            let held = size_at_least_one(class / unit / STORE_TABLE_DIVISOR);
            held * 6 * unit <= class < (held + 1) * 6 * unit
        }),
{
    lemma_two_floors(class as int, unit as int, 6);
    let units = class as int / unit as int / 6;
    assert(units >= 1) by (nonlinear_arith)
        requires
            unit >= 1,
            unit * 6 <= class,
            units == class as int / unit as int / 6,
    ;
}

/// A shard has two tasks for every client it admits, and five for its own loops; it has a timer for
/// each, and polls a hundred times the spin before it parks.
pub proof fn a_shards_tasks_are_its_clients_and_its_loops(
    profile: MachineProfile,
    runtime: RuntimeConfig,
    sizes: UnitSizes,
    region: RegionGeometry,
    instance: Seq<char>,
    config: DaemonConfig,
)
    requires
        profile.derives(runtime, sizes, region, instance, config),
    ensures
        2 * config.clients_per_shard + 5 <= usize::MAX ==> config.runtime.tasks_per_shard == 2
            * config.clients_per_shard + 5,
        config.runtime.timers_per_shard == config.runtime.tasks_per_shard,
        profile.spin_before_park_ns * 100 <= u64::MAX ==> config.runtime.spin_ns
            == profile.spin_before_park_ns * 100,
{
}

/// An archive slice is what half a step hashes at the measured rate, to the byte.
pub proof fn an_archive_slice_takes_half_a_step(
    profile: MachineProfile,
    runtime: RuntimeConfig,
    sizes: UnitSizes,
    region: RegionGeometry,
    instance: Seq<char>,
    config: DaemonConfig,
)
    requires
        profile.derives(runtime, sizes, region, instance, config),
        profile.blake3_bytes_per_second * runtime.step_budget_ns <= u64::MAX,
    ensures
        ({
            let hashed = profile.blake3_bytes_per_second * runtime.step_budget_ns;
            &&& 2 * config.archive_slice_bytes * 1_000_000_000 <= hashed
            &&& hashed < (2 * config.archive_slice_bytes + 2) * 1_000_000_000
        }),
{
    let hashed = profile.blake3_bytes_per_second * runtime.step_budget_ns;
    let step = clamp_u64(hashed) / NANOS_PER_SECOND;
    assert(hashed >= 0) by (nonlinear_arith)
        requires
            hashed == profile.blake3_bytes_per_second * runtime.step_budget_ns,
    ;
    assert(step == hashed / 1_000_000_000);
    assert(step * 500 <= u64::MAX);
    assert(config.archive_slice_bytes == step / 2);
}

/// The segment is laid out for the shards it serves: a partition and a landing slot each, with one
/// slot over; a replayed page per microsecond of the recovery budget; the whole partition's tables
/// twice; a page of audit per shard; and room for the profile twice over.
pub proof fn the_segment_is_laid_out_for_its_shards(
    profile: MachineProfile,
    runtime: RuntimeConfig,
    sizes: UnitSizes,
    region: RegionGeometry,
    instance: Seq<char>,
    config: DaemonConfig,
)
    requires
        profile.derives(runtime, sizes, region, instance, config),
        runtime.shards >= 1,
        profile.page >= 1,
        profile.log_bytes(sizes) <= u64::MAX,
        config.reserve_per_shard * 250 <= u64::MAX,
        profile.page * runtime.shards <= u64::MAX,
        profile.encoded_bytes * 2 <= u64::MAX,
    ensures
        config.geometry.partitions == runtime.shards,
        config.geometry.page == profile.page,
        config.geometry.landing_slots == runtime.shards + 1,
        config.geometry.landing_slot_bytes == profile.page,
        config.geometry.log_bytes == (sizes.recovery_budget_ns / 1000) * profile.page,
        config.geometry.snapshot_bytes == 2 * (config.reserve_per_shard / 4),
        config.geometry.audit_bytes == profile.page * runtime.shards,
        config.geometry.profile_bytes >= 2 * profile.encoded_bytes,
        config.geometry.profile_bytes >= profile.page,
        config.geometry.profile_bytes == 2 * profile.encoded_bytes
            || config.geometry.profile_bytes == profile.page,
        config.caps.segment_slots >= 1,
        1 <= sizes.volume_record_bytes <= profile.page <= usize::MAX ==> config.caps.segment_slots
            * sizes.volume_record_bytes <= profile.page < (config.caps.segment_slots + 1)
            * sizes.volume_record_bytes,
{
    assert(profile.table_bytes(runtime) == config.reserve_per_shard / 4);
    assert(profile.page * runtime.shards >= profile.page) by (nonlinear_arith)
        requires
            runtime.shards >= 1,
    ;
    if 1 <= sizes.volume_record_bytes <= profile.page <= usize::MAX {
        lemma_fits(profile.page as int, sizes.volume_record_bytes as int);
        let slots = profile.page as int / sizes.volume_record_bytes as int;
        assert(slots <= profile.page) by (nonlinear_arith)
            requires
                slots * sizes.volume_record_bytes <= profile.page,
                sizes.volume_record_bytes >= 1,
                slots >= 1,
        ;
        assert(config.caps.segment_slots == slots);
    }
}

/// What is measured or stated is configured as it is: the derivation takes each from its own input.
pub proof fn a_configuration_keeps_its_inputs(
    profile: MachineProfile,
    runtime: RuntimeConfig,
    sizes: UnitSizes,
    region: RegionGeometry,
    instance: Seq<char>,
    config: DaemonConfig,
)
    requires
        profile.derives(runtime, sizes, region, instance, config),
    ensures
        config.runtime.shards == runtime.shards,
        config.runtime.pin == runtime.pin,
        config.runtime.cores == runtime.cores,
        config.runtime.step_budget_ns == runtime.step_budget_ns,
        config.runtime.timer_tick_ns == runtime.timer_tick_ns,
        config.caps.tick_ns == runtime.timer_tick_ns,
        config.region == region,
        config.large_class_bytes == profile.arena_region_bytes,
        config.huge_pages == profile.huge_pages,
        1 <= profile.cache_line <= usize::MAX ==> config.cache_line == profile.cache_line,
        1 <= profile.page <= usize::MAX ==> config.page == profile.page,
        config.instance@ == instance,
        config.failover_slo_ns == 10_000_000_000,
        config.rereplication_bytes_per_second == 0,
        config.telemetry_spans_per_reply == sizes.telemetry_spans_per_reply,
        config.fleet is None,
        config.caps.attachments == sizes.requests_in_flight,
        config.guest_credits.requests == sizes.requests_in_flight,
        config.guest_credits.latency_budget_ns == 50_000,
        profile.wake_p99_ns >= 1 ==> config.guest_credits.kick_round_trip_ns == profile.wake_p99_ns,
        sizes.guest_readable_bytes + sizes.guest_writable_bytes <= u64::MAX
            ==> config.guest_credits.frame_bytes == sizes.guest_readable_bytes
            + sizes.guest_writable_bytes,
        config.store.dir_cutover == 2,
{
}

/// The codecs' cost model is measured: a byte's worth is the rate of a copy no other was larger than,
/// the `lz4` candidate is a measured `lz4` point after which no other was measured, and every `zstd`
/// point is a candidate, and nothing else is.
pub proof fn the_codec_candidates_are_the_measured_points(
    profile: MachineProfile,
    runtime: RuntimeConfig,
    sizes: UnitSizes,
    region: RegionGeometry,
    instance: Seq<char>,
    config: DaemonConfig,
    largest: int,
)
    requires
        profile.derives(runtime, sizes, region, instance, config),
    ensures
        0 <= largest < profile.memcpy@.len() && (forall|i: int|
            0 <= i < profile.memcpy@.len() && i != largest ==> profile.memcpy@[i].bytes
                < profile.memcpy@[largest].bytes) ==> {
            let rate = profile.memcpy@[largest].bytes_per_second;
            &&& config.codec.memcpy_bytes_per_second == rate
            &&& rate >= 1_000_000_000 ==> {
                &&& config.guest_credits.bandwidth_bytes_per_ns * 1_000_000_000 <= rate
                &&& rate < (config.guest_credits.bandwidth_bytes_per_ns + 1) * 1_000_000_000
            }
        },
        config.guest_credits.bandwidth_bytes_per_ns >= 1,
        profile.memcpy@.len() == 0 ==> config.codec.memcpy_bytes_per_second == 0,
        match config.codec.lz4 {
            Some(point) => exists|at: int|
                0 <= at < profile.codecs@.len() && (#[trigger] profile.codecs@[at]) == point
                    && point.codec == Codec::Lz4 && forall|later: int|
                    at < later < profile.codecs@.len() ==> (
                    #[trigger] profile.codecs@[later]).codec != Codec::Lz4,
            None => forall|at: int|
                0 <= at < profile.codecs@.len() ==> (#[trigger] profile.codecs@[at]).codec
                    != Codec::Lz4,
        },
        forall|point: CodecPoint|
            #![trigger config.codec.zstd@.contains(point)]
            config.codec.zstd@.contains(point) <==> profile.codecs@.contains(point) && point.codec
                == Codec::Zstd,
{
    if 0 <= largest < profile.memcpy@.len() && (forall|i: int|
        0 <= i < profile.memcpy@.len() && i != largest ==> profile.memcpy@[i].bytes
            < profile.memcpy@[largest].bytes) {
        assert(is_largest_copy(profile.memcpy@, largest));
        lemma_largest_copy_unique(
            profile.memcpy@,
            largest,
            choose|at: int| is_largest_copy(profile.memcpy@, at),
        );
    }
    lemma_last_point(profile.codecs@, Codec::Lz4);
    let zstd = |point: CodecPoint| point.codec == Codec::Zstd;
    assert forall|point: CodecPoint|
        #![trigger config.codec.zstd@.contains(point)]
        config.codec.zstd@.contains(point) <==> profile.codecs@.contains(point) && point.codec
            == Codec::Zstd by {
        if config.codec.zstd@.contains(point) {
            let at = choose|at: int|
                0 <= at < config.codec.zstd@.len() && config.codec.zstd@[at] == point;
            profile.codecs@.lemma_filter_pred(zstd, at);
            profile.codecs@.lemma_filter_contains_rev(zstd, point);
        }
        if profile.codecs@.contains(point) && point.codec == Codec::Zstd {
            let at = choose|at: int| 0 <= at < profile.codecs@.len() && profile.codecs@[at] == point;
            profile.codecs@.lemma_filter_contains(zstd, at);
        }
    }
}

/// Where the last point of a codec stands.
proof fn lemma_last_point(points: Seq<CodecPoint>, codec: Codec)
    ensures
        match last_point(points, codec) {
            Some(point) => exists|at: int|
                0 <= at < points.len() && (#[trigger] points[at]) == point && point.codec == codec
                    && forall|later: int|
                    at < later < points.len() ==> (#[trigger] points[later]).codec != codec,
            None => forall|at: int|
                0 <= at < points.len() ==> (#[trigger] points[at]).codec != codec,
        },
    decreases points.len(),
{
    if points.len() > 0 {
        let last = points.len() - 1;
        if points.last().codec == codec {
            assert(points[last] == points.last());
        } else {
            lemma_last_point(points.drop_last(), codec);
            assert forall|at: int| 0 <= at < last implies points.drop_last()[at] == points[at] by {}
            match last_point(points.drop_last(), codec) {
                Some(point) => {
                    let at = choose|at: int|
                        0 <= at < points.drop_last().len() && (#[trigger] points.drop_last()[at])
                            == point && point.codec == codec && forall|later: int|
                            at < later < points.drop_last().len() ==> (
                            #[trigger] points.drop_last()[later]).codec != codec;
                    assert(points[at] == point);
                    assert forall|later: int| at < later < points.len() implies (
                    #[trigger] points[later]).codec != codec by {
                        if later < last {
                            assert(points.drop_last()[later].codec != codec);
                        }
                    }
                },
                None => {
                    assert forall|at: int| 0 <= at < points.len() implies (
                    #[trigger] points[at]).codec != codec by {
                        if at < last {
                            assert(points.drop_last()[at].codec != codec);
                        }
                    }
                },
            }
        }
    }
}

/// A client's ring holds the entries the runtime asked for, rounded up to a power of two and no
/// further, with a bulk chunk each way for each of its slots.
pub proof fn a_ring_is_rounded_up_to_a_power_of_two(profile: MachineProfile, region: RegionGeometry)
    requires
        profile.derives_region(region),
        profile.ring_entries <= 0x8000_0000,
    ensures
        exists|k: nat| #[trigger] pow2(k) == region.slots,
        profile.ring_entries <= region.slots,
        profile.ring_entries >= 1 ==> region.slots < 2 * profile.ring_entries,
        region.bulk_bytes == region.slots * 8192,
        region.page == profile.page,
        profile.spin_before_park_ns <= u32::MAX ==> region.spin_ns == profile.spin_before_park_ns,
{
    let k = choose|k: nat| #[trigger]
        pow2(k) == region.slots as int && profile.ring_entries <= region.slots && (k == 0 || 2
            * profile.ring_entries > region.slots);
    vstd::arithmetic::power2::lemma2_to64();
}

/// The boot log states what is configured: each bound it lists is the bound in force.
pub proof fn the_boot_log_states_what_is_configured(
    profile: MachineProfile,
    runtime: RuntimeConfig,
    sizes: UnitSizes,
    region: RegionGeometry,
    instance: Seq<char>,
    config: DaemonConfig,
)
    requires
        profile.derives(runtime, sizes, region, instance, config),
        profile.log_bytes(sizes) <= u64::MAX,
    ensures
        config.lines().len() == 16,
        config.lines()[2].name == "volumes_per_shard"@ && config.lines()[2].value
            == config.caps.volumes,
        config.lines()[3].name == "slots_per_ring"@ && config.lines()[3].value
            == config.region.slots,
        config.lines()[4].name == "spin_ns"@ && config.lines()[4].value
            == config.region.spin_ns,
        config.lines()[5].name == "log_bytes_per_partition"@ && config.lines()[5].value
            == config.geometry.log_bytes,
        config.lines()[6].name == "snapshot_bytes_per_partition"@ && config.lines()[6].value
            == config.geometry.snapshot_bytes,
        config.lines()[7].name == "archive_slice_bytes"@ && config.lines()[7].value
            == config.archive_slice_bytes,
        config.lines()[8].name == "max_inodes"@ && config.lines()[8].value
            == config.store.max_inodes,
        config.lines()[9].name == "max_dirs"@ && config.lines()[9].value
            == config.store.max_dirs,
        config.lines()[10].name == "max_chunks"@ && config.lines()[10].value
            == config.store.max_chunks,
        config.lines()[11].name == "metadata_class_bytes"@ && config.lines()[11].value
            == config.store.metadata_class_bytes,
        config.lines()[12].name == "clients_per_shard"@ && config.lines()[12].value
            == config.clients_per_shard,
        config.lines()[13].name == "tasks_per_shard"@ && config.lines()[13].value
            == config.runtime.tasks_per_shard,
        config.lines()[14].name == "idle_window_ns"@ && config.lines()[14].value
            == config.runtime.spin_ns,
        config.lines()[15].name == "guest_bandwidth_bytes_per_ns"@ && config.lines()[15].value
            == config.guest_credits.bandwidth_bytes_per_ns,
{
}

/// Joining a fleet adds its tasks to the shard's and changes nothing else: two loops a peer, a serve
/// task for each session either plane may hold for it, and five loops of the planes' own, each with
/// a timer.
pub proof fn a_fleet_adds_its_own_tasks(
    config: DaemonConfig,
    membership: FleetMembership,
    sessions_per_peer: usize,
    joined: DaemonConfig,
)
    requires
        config.joins(membership, sessions_per_peer, joined),
    ensures
        ({
            let peers = membership.peers@.len();
            let added = 2 * peers + 2 * (peers * sessions_per_peer) + 5;
            &&& added <= usize::MAX && config.runtime.tasks_per_shard + added <= usize::MAX
                ==> joined.runtime.tasks_per_shard == config.runtime.tasks_per_shard + added
            &&& added <= usize::MAX && config.runtime.timers_per_shard + added <= usize::MAX
                ==> joined.runtime.timers_per_shard == config.runtime.timers_per_shard + added
        }),
        joined.fleet == Some(membership),
        joined.clients_per_shard == config.clients_per_shard,
        joined.caps == config.caps,
        joined.geometry == config.geometry,
        joined.reserve_per_shard == config.reserve_per_shard,
        joined.runtime.shards == config.runtime.shards,
{
    let peers = membership.peers@.len() as int;
    let sessions = sessions_per_peer as int;
    assert(peers * (sessions * 2) == 2 * (peers * sessions)) by (nonlinear_arith);
    assert(peers * sessions >= 0) by (nonlinear_arith)
        requires
            peers >= 0,
            sessions >= 0,
    ;
}

/// A guest's credits are derived from its requests, a whole frame both ways, the wake's tail and the
/// latency budget.
pub proof fn a_guests_frame_goes_both_ways(
    profile: MachineProfile,
    requests_in_flight: usize,
    readable_bytes: u64,
    writable_bytes: u64,
)
    ensures
        ({
            let inputs = credit_inputs(
                profile,
                requests_in_flight,
                readable_bytes,
                writable_bytes,
            );
            &&& inputs.requests == requests_in_flight
            &&& readable_bytes + writable_bytes <= u64::MAX ==> inputs.frame_bytes == readable_bytes
                + writable_bytes
            &&& inputs.kick_round_trip_ns >= 1
            &&& profile.wake_p99_ns >= 1 ==> inputs.kick_round_trip_ns == profile.wake_p99_ns
            &&& inputs.latency_budget_ns == 50_000
            &&& inputs.bandwidth_bytes_per_ns >= 1
        }),
{
}

/// The scatter width is derived from what all the shards hold, the rate it is copied at, the recovery
/// budget and the faults to survive.
pub proof fn a_scatter_covers_every_shard(
    config: DaemonConfig,
    quorum: Quorum,
    recovery_budget_ns: u64,
)
    ensures
        ({
            let inputs = config.scatters(quorum, recovery_budget_ns);
            &&& config.runtime.shards >= 1 && config.reserve_per_shard * config.runtime.shards
                <= u64::MAX ==> inputs.data_bytes == config.reserve_per_shard * config.runtime.shards
            &&& config.runtime.shards == 0 ==> inputs.data_bytes == config.reserve_per_shard
            &&& inputs.bytes_per_second == config.rereplication_bytes_per_second
            &&& inputs.recovery_budget_ns == recovery_budget_ns
            &&& inputs.f == quorum.f
        }),
{
    let count = shard_count(config.runtime);
    assert(config.runtime.shards == 0 ==> count == 1);
    assert(config.runtime.shards >= 1 ==> count == config.runtime.shards);
    assert(count == 1 ==> config.reserve_per_shard * count == config.reserve_per_shard)
        by (nonlinear_arith);
    assert(config.reserve_per_shard * count >= 0) by (nonlinear_arith);
}

/// A daemon put on another number of shards has that many, one at least, and as many partitions, pins
/// none of them, and keeps everything else.
pub proof fn a_daemon_is_put_on_its_shards(
    before: DaemonConfig,
    shards: u16,
    config: DaemonConfig,
)
    requires
        before.reshards(shards, config),
    ensures
        shards >= 1 ==> config.runtime.shards == shards,
        shards == 0 ==> config.runtime.shards == 1,
        config.geometry.partitions == config.runtime.shards,
        !config.runtime.pin && config.runtime.cores@.len() == 0,
        config.runtime.tasks_per_shard == before.runtime.tasks_per_shard,
        config.runtime.timers_per_shard == before.runtime.timers_per_shard,
        config.caps == before.caps && config.region == before.region && config.clients_per_shard
            == before.clients_per_shard && config.reserve_per_shard == before.reserve_per_shard
            && config.store == before.store && config.instance == before.instance && config.fleet
            == before.fleet && config.failover_slo_ns == before.failover_slo_ns,
{
}

/// The failover budget and the copying bandwidth are what they are set to, a nanosecond at least for the
/// budget, and nothing else changes with them.
pub proof fn a_setting_changes_itself_alone(
    config: DaemonConfig,
    failover_slo_ns: u64,
    bytes_per_second: u64,
)
    ensures
        failover_slo_ns >= 1 ==> config.within_slo(failover_slo_ns).failover_slo_ns
            == failover_slo_ns,
        config.within_slo(0).failover_slo_ns == 1,
        config.copying_at(bytes_per_second).rereplication_bytes_per_second == bytes_per_second,
        config.within_slo(failover_slo_ns).copying_at(config.rereplication_bytes_per_second) == (
        DaemonConfig {
            failover_slo_ns: config.within_slo(failover_slo_ns).failover_slo_ns,
            ..config
        }),
{
}

/// The boot log states every derivation once, in order, with the lines that are stated beside them in
/// their places.
pub proof fn the_boot_log_states_every_derivation(
    config: DaemonConfig,
    stated: StatedLines,
    log: Seq<Seq<char>>,
    at: int,
)
    requires
        config.logs_boot(stated, log),
        config.lines().len() == 16,
        config.derivations@.len() == 16,
        0 <= at < 16,
    ensures
        log.len() == 23,
        log[0] == derivation_line(stated.requests_in_flight@),
        log[2] == derivation_line(stated.reserve@),
        log[10] == config.codec.policy_line(stated.byte_ns_scaled),
        log[11] == derivation_line(stated.telemetry_spans@),
        log[16] == derivation_line(stated.digest_cache@),
        log[21] == derivation_line(stated.guest_requests@),
        log[22] == derivation_line(stated.guest_bytes@),
        at == 0 ==> log[1] == derivation_line(config.lines()[0]),
        1 <= at < 8 ==> log[at + 2] == derivation_line(config.lines()[at]),
        8 <= at < 12 ==> log[at + 4] == derivation_line(config.lines()[at]),
        12 <= at < 16 ==> log[at + 5] == derivation_line(config.lines()[at]),
{
    reveal_with_fuel(DaemonConfig::log_up_to, 17);
    assert(config.log_up_to(stated, 1).len() == 2);
    assert(config.log_up_to(stated, 8).len() == 10);
    assert(config.log_up_to(stated, 12).len() == 16);
    assert(config.log_up_to(stated, 16).len() == 21);
}

/// A derivation's line says its name, its value and its formula, in that order.
pub proof fn a_derivations_line_says_its_value(facts: DerivationFacts)
    ensures
        (facts.name + " = "@ + decimal(facts.value as nat) + ": "@ + facts.formula).is_prefix_of(
            derivation_line(facts),
        ),
{
    let front = facts.name + " = "@ + decimal(facts.value as nat) + ": "@ + facts.formula;
    let rest = " (anchors ["@ + quoted(facts.anchors) + "])"@;
    assert(derivation_line(facts) =~= front + rest);
    assert((front + rest).take(front.len() as int) =~= front);
}

} // verus!
