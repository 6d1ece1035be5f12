//! Seals: a snapshot's content archived in slices, put to its candidates in hedged rounds until a
//! quorum holds it, recorded once its head is placed too, and offered again by the healer.

use crate::arith::{clamp_u32, clamp_u64, larger, max_u64, times};
use crate::daemon::HEARTBEAT_NS;
use crate::fleet::budget::{poll_ns, RoundBudget};
use crate::fleet::probe::POLL_PER_PERIOD;
use crate::fleet::record::host_ids;
use crate::fleet::refusal::Refused;
use crate::fleet::session::{bound_holders, bound_to, ContentAck, LateSeal};
use crate::head::{copy_hosts, with_acks, PlacedHead, Placement, SealJob};
use crate::ids::{contains_host, lists, HostId, ObjectId, Quorum, SnapshotId};
use std::collections::{BTreeMap, VecDeque};
use vstd::prelude::*;
use vstd::std_specs::btree::*;

verus! {

broadcast use group_btree_axioms;

/// The seals whose acknowledgements the put-latency window spans.
pub const PUT_LATENCY_SEALS: usize = 100;

/// The readings the put-latency window keeps: two remote acknowledgements a seal.
pub const PUT_LATENCY_WINDOW: usize = PUT_LATENCY_SEALS * 2;

/// The healer's period at rest, in coordinator periods.
pub const HEAL_PERIODS_AT_REST: u64 = 100;

/// The measured put latency of the content class on one owner shard: the newest readings, in
/// arrival order.
#[derive(Debug)]
pub struct PutLatency {
    readings_ns: VecDeque<u64>,
}

impl View for PutLatency {
    type V = Seq<u64>;

    closed spec fn view(&self) -> Seq<u64> {
        self.readings_ns@
    }
}

impl Default for PutLatency {
    /// No reading.
    fn default() -> (latency: PutLatency)
        ensures
            latency@ == Seq::<u64>::empty(),
    {
        PutLatency { readings_ns: VecDeque::new() }
    }
}

/// A window after one more reading: past its bound the oldest leaves.
pub open spec fn windowed(readings: Seq<u64>, latency_ns: u64) -> Seq<u64> {
    if readings.len() >= PUT_LATENCY_WINDOW {
        readings.skip(1).push(latency_ns)
    } else {
        readings.push(latency_ns)
    }
}

/// A window after several readings.
pub open spec fn windowed_all(readings: Seq<u64>, latencies: Seq<u64>) -> Seq<u64>
    decreases latencies.len(),
{
    if latencies.len() == 0 {
        readings
    } else {
        windowed(windowed_all(readings, latencies.drop_last()), latencies.last())
    }
}

/// Whether a value stands at a rank of the readings in increasing order.
pub open spec fn at_rank(readings: Seq<u64>, rank: int, value: u64) -> bool {
    exists|sorted: Seq<u64>| #[trigger] is_sorting(readings, sorted) && value == sorted[rank]
}

/// Whether one list is another in increasing order.
pub open spec fn is_sorting(readings: Seq<u64>, sorted: Seq<u64>) -> bool {
    &&& sorted.to_multiset() == readings.to_multiset()
    &&& forall|i: int, j: int| 0 <= i <= j < sorted.len() ==> sorted[i] <= sorted[j]
}

/// The rank of the 95th percentile among `count` readings: the least within which nineteen in twenty
/// of them lie.
pub open spec fn p95_rank(count: nat) -> int {
    (count * 95 + 99) / 100 - 1
}

/// The readings put in increasing order.
fn sorted_copy(readings: &VecDeque<u64>) -> (sorted: Vec<u64>)
    ensures
        is_sorting(readings@, sorted@),
        sorted@.len() == readings@.len(),
{
    broadcast use vstd::seq_lib::group_to_multiset_ensures;

    let mut sorted: Vec<u64> = Vec::new();
    let mut i: usize = 0;
    assert(readings@.take(0) =~= Seq::<u64>::empty());
    while i < readings.len()
        invariant
            i <= readings@.len(),
            is_sorting(readings@.take(i as int), sorted@),
            sorted@.len() == i,
        decreases readings@.len() - i,
    {
        let reading: u64 = readings[i];
        let ghost before = sorted@;
        let mut at: usize = 0;
        while at < sorted.len() && sorted[at] <= reading
            invariant
                at <= sorted@.len(),
                sorted@ == before,
                forall|k: int| 0 <= k < at ==> #[trigger] before[k] <= reading,
            decreases sorted@.len() - at,
        {
            at += 1;
        }
        sorted.insert(at, reading);
        proof {
            assert(sorted@ == before.insert(at as int, reading));
            vstd::seq_lib::to_multiset_insert(before, at as int, reading);
            assert(readings@.take(i + 1) =~= readings@.take(i as int).push(reading));
            vstd::seq_lib::to_multiset_build(readings@.take(i as int), reading);
            assert(sorted@.to_multiset() =~= readings@.take(i + 1).to_multiset());
            assert forall|x: int, y: int| 0 <= x <= y < sorted@.len() implies sorted@[x]
                <= sorted@[y] by {
                if x < at && y > at {
                    assert(sorted@[y] == before[y - 1]);
                    assert(sorted@[x] == before[x]);
                } else if x == at && y > at {
                    assert(sorted@[y] == before[y - 1]);
                    assert(before[at as int] > reading);
                    assert(before[at as int] <= before[y - 1]);
                } else if y == at && x < at {
                    assert(before[x] <= reading);
                } else if x > at {
                    assert(sorted@[x] == before[x - 1] && sorted@[y] == before[y - 1]);
                }
            }
        }
        i += 1;
    }
    assert(readings@.take(i as int) =~= readings@);
    sorted
}

impl PutLatency {
    /// Records one acknowledgement's latency; the oldest reading leaves past the window.
    pub fn record(&mut self, latency_ns: u64)
        ensures
            final(self)@ == windowed(old(self)@, latency_ns),
    {
        if self.readings_ns.len() >= PUT_LATENCY_WINDOW {
            let oldest = self.readings_ns.pop_front();
            assert(self.readings_ns@ =~= old(self)@.skip(1));
        }
        self.readings_ns.push_back(latency_ns);
    }

    /// Records several latencies in order.
    pub fn record_all(&mut self, latencies: &Vec<u64>)
        ensures
            final(self)@ == windowed_all(old(self)@, latencies@),
    {
        let mut i: usize = 0;
        assert(latencies@.take(0) =~= Seq::<u64>::empty());
        while i < latencies.len()
            invariant
                i <= latencies@.len(),
                self@ == windowed_all(old(self)@, latencies@.take(i as int)),
            decreases latencies@.len() - i,
        {
            proof {
                assert(latencies@.take(i + 1).drop_last() =~= latencies@.take(i as int));
                assert(latencies@.take(i + 1).last() == latencies@[i as int]);
            }
            self.record(latencies[i]);
            i += 1;
        }
        assert(latencies@.take(i as int) =~= latencies@);
    }

    /// How many readings the window holds.
    pub fn len(&self) -> (count: usize)
        ensures
            count == self@.len(),
    {
        self.readings_ns.len()
    }

    /// Whether no acknowledgement has been timed yet.
    pub fn is_empty(&self) -> (empty: bool)
        ensures
            empty == (self@.len() == 0),
    {
        self.readings_ns.len() == 0
    }

    /// The 95th percentile of the window's readings, nearest rank; none before any reading.
    pub fn p95_ns(&self) -> (p95: Option<u64>)
        ensures
            match p95 {
                None => self@.len() == 0,
                Some(value) => self@.len() > 0 && at_rank(self@, p95_rank(self@.len()), value),
            },
    {
        let sorted = sorted_copy(&self.readings_ns);
        if sorted.len() == 0 {
            return None;
        }
        let count: usize = sorted.len();
        let rank: usize = count / 100 * 95 + (count % 100 * 95 + 99) / 100 - 1;
        assert(rank == p95_rank(sorted@.len()));
        assert(is_sorting(self@, sorted@));
        Some(sorted[rank])
    }
}

/// A window never holds more than its bound: whatever is recorded, one that was within it stays
/// within it.
pub proof fn the_latency_window_is_bounded(readings: Seq<u64>, latencies: Seq<u64>)
    requires
        readings.len() <= PUT_LATENCY_WINDOW,
    ensures
        windowed_all(readings, latencies).len() <= PUT_LATENCY_WINDOW,
    decreases latencies.len(),
{
    if latencies.len() > 0 {
        the_latency_window_is_bounded(readings, latencies.drop_last());
    }
}

/// The percentile is what nineteen in twenty readings lie within, and no lower rank is.
pub proof fn nineteen_in_twenty_lie_within_the_percentile(count: nat)
    requires
        count > 0,
    ensures
        0 <= p95_rank(count) < count,
        (p95_rank(count) + 1) * 20 >= count * 19,
        p95_rank(count) * 20 < count * 19,
{
}

/// A percentile is one reading: at most one value stands at a rank, and it was recorded.
pub proof fn a_percentile_is_one_reading(readings: Seq<u64>, rank: int, a: u64, b: u64)
    requires
        0 <= rank < readings.len(),
        at_rank(readings, rank, a),
        at_rank(readings, rank, b),
    ensures
        a == b,
        readings.contains(a),
{
    broadcast use vstd::seq_lib::group_to_multiset_ensures;
    broadcast use vstd::multiset::group_multiset_axioms;

    let x = choose|sorted: Seq<u64>| #[trigger]
        is_sorting(readings, sorted) && a == sorted[rank];
    let y = choose|sorted: Seq<u64>| #[trigger]
        is_sorting(readings, sorted) && b == sorted[rank];
    let leq = |p: u64, q: u64| p <= q;
    vstd::seq_lib::lemma_sorted_unique(x, y, leq);
    vstd::seq_lib::to_multiset_len(x);
    vstd::seq_lib::to_multiset_len(readings);
    assert(x.contains(x[rank]));
    vstd::seq_lib::to_multiset_contains(x, a);
    vstd::seq_lib::to_multiset_contains(readings, a);
}

/// A load regime is forgotten within one window: after a window's worth of one latency, no other
/// reading is left.
pub proof fn a_full_window_forgets(readings: Seq<u64>, latency_ns: u64, count: nat)
    requires
        readings.len() <= PUT_LATENCY_WINDOW,
        count <= PUT_LATENCY_WINDOW,
    ensures
        ({
            let after = windowed_all(readings, Seq::new(count, |i: int| latency_ns));
            &&& after.len() >= count
            &&& forall|i: int|
                after.len() - count <= i < after.len() ==> #[trigger] after[i] == latency_ns
        }),
    decreases count,
{
    if count > 0 {
        let shorter = (count - 1) as nat;
        let all = Seq::new(count, |i: int| latency_ns);
        assert(all.drop_last() =~= Seq::new(shorter, |i: int| latency_ns));
        a_full_window_forgets(readings, latency_ns, shorter);
        the_latency_window_is_bounded(readings, Seq::new(shorter, |i: int| latency_ns));
    }
}

/// Content rounds that ended placed, and that ended short.
#[derive(Debug)]
pub struct PutOutcomes {
    pub placed: u64,
    pub short: u64,
}

impl Default for PutOutcomes {
    /// No round.
    fn default() -> (outcomes: PutOutcomes)
        ensures
            outcomes == (PutOutcomes { placed: 0, short: 0 }),
    {
        PutOutcomes { placed: 0, short: 0 }
    }
}

impl PutOutcomes {
    /// The outcomes after one more round.
    pub open spec fn with(self, placed: bool) -> PutOutcomes {
        if placed {
            PutOutcomes { placed: clamp_u64(self.placed + 1), ..self }
        } else {
            PutOutcomes { short: clamp_u64(self.short + 1), ..self }
        }
    }

    /// Records one content round's outcome.
    pub fn record(&mut self, placed: bool)
        ensures
            *final(self) == old(self).with(placed),
    {
        if placed {
            self.placed = self.placed.saturating_add(1);
        } else {
            self.short = self.short.saturating_add(1);
        }
    }
}

/// The healer's period, in coordinator periods: a hundred while every round places, tighter in
/// proportion to the share of rounds that ended short, and never below one.
pub open spec fn heal_periods(outcomes: PutOutcomes) -> int {
    let placed = larger(outcomes.placed as int, 1);
    larger(
        HEAL_PERIODS_AT_REST * placed / (placed + HEAL_PERIODS_AT_REST * outcomes.short),
        1,
    )
}

/// The healer's period. The counts are weighed in wider numbers, so it is exact however many
/// rounds were counted.
pub fn heal_period_ns(outcomes: &PutOutcomes) -> (period_ns: u64)
    ensures
        period_ns == HEARTBEAT_NS * heal_periods(*outcomes),
        HEARTBEAT_NS <= period_ns <= HEARTBEAT_NS * HEAL_PERIODS_AT_REST,
{
    let rest: u128 = HEAL_PERIODS_AT_REST as u128;
    let placed: u128 = max_u64(outcomes.placed, 1) as u128;
    let short: u128 = outcomes.short as u128;
    proof {
        the_healer_rests_and_runs(*outcomes);
    }
    let share: u128 = rest * placed / (placed + rest * short);
    let periods: u64 = if share > 1 {
        share as u64
    } else {
        1
    };
    HEARTBEAT_NS * periods
}

/// The healer's cadence at its ends: at rest while no round ended short, and a period a snapshot
/// once short rounds are as common as placed ones.
pub proof fn the_healer_rests_and_runs(outcomes: PutOutcomes)
    ensures
        outcomes.short == 0 ==> heal_periods(outcomes) == HEAL_PERIODS_AT_REST,
        outcomes.short >= outcomes.placed && outcomes.short > 0 ==> heal_periods(outcomes) == 1,
        1 <= heal_periods(outcomes) <= HEAL_PERIODS_AT_REST,
{
    let placed = larger(outcomes.placed as int, 1);
    let weighted = HEAL_PERIODS_AT_REST * outcomes.short;
    if outcomes.short == 0 {
        assert((100 * placed) / (placed + weighted) == 100) by (nonlinear_arith)
            requires
                placed >= 1,
                weighted == 0,
        ;
    }
    if outcomes.short >= outcomes.placed && outcomes.short > 0 {
        assert(placed <= outcomes.short);
        assert((100 * placed) / (placed + weighted) <= 1) by (nonlinear_arith)
            requires
                placed >= 1,
                weighted >= 100 * placed,
        ;
    }
    assert((100 * placed) / (placed + weighted) <= 100) by (nonlinear_arith)
        requires
            placed >= 1,
            weighted >= 0,
    ;
}

/// The healer tightens with the share of short rounds: more of them never lengthens its period.
pub proof fn short_rounds_quicken_the_healer(fewer: PutOutcomes, more: PutOutcomes)
    requires
        fewer.placed == more.placed,
        fewer.short <= more.short,
    ensures
        heal_periods(more) <= heal_periods(fewer),
{
    let placed = larger(fewer.placed as int, 1);
    let a = placed + HEAL_PERIODS_AT_REST * fewer.short;
    let b = placed + HEAL_PERIODS_AT_REST * more.short;
    assert((100 * placed) / b <= (100 * placed) / a) by (nonlinear_arith)
        requires
            placed >= 1,
            1 <= a <= b,
    ;
}

/// How long a seal's first round is given before the remaining candidates are hedged.
pub open spec fn is_hedge_delay(readings: Seq<u64>, delay_ns: u64) -> bool {
    if readings.len() == 0 {
        delay_ns == HEARTBEAT_NS
    } else {
        at_rank(readings, p95_rank(readings.len()), delay_ns)
    }
}

/// The hedge delay: the measured 95th percentile of the put latency, or one period before any
/// reading.
pub fn hedge_delay_ns(latency: &PutLatency) -> (delay_ns: u64)
    ensures
        is_hedge_delay(latency@, delay_ns),
{
    match latency.p95_ns() {
        Some(p95) => p95,
        None => HEARTBEAT_NS,
    }
}

/// The budget of a content round at a hedge delay.
pub open spec fn content_budget_at(delay_ns: u64, round: RoundBudget) -> RoundBudget {
    RoundBudget {
        deadline_ns: delay_ns,
        poll_ns: HEARTBEAT_NS / POLL_PER_PERIOD,
        lookahead_numerator: 1,
        lookahead_denominator: 1,
        extension_ns: larger(round.span() - delay_ns, 0) as u64,
        extensions: 1,
        stall_ns: delay_ns,
    }
}

/// The budget of one content round: its collection stops at the hedge delay unless replies are
/// still coming in, while its holders keep the whole round's span.
pub fn content_budget(latency: &PutLatency, round: &RoundBudget) -> (budget: RoundBudget)
    ensures
        is_hedge_delay(latency@, budget.deadline_ns),
        budget == content_budget_at(budget.deadline_ns, *round),
{
    let delay_ns: u64 = hedge_delay_ns(latency);
    let span: u64 = max_u64(round.max_deadline_ns(), delay_ns);
    RoundBudget {
        deadline_ns: delay_ns,
        poll_ns: poll_ns(),
        lookahead_numerator: 1,
        lookahead_denominator: 1,
        extension_ns: span.saturating_sub(delay_ns),
        extensions: 1,
        stall_ns: delay_ns,
    }
}

/// Hedging never shortens a holder's time: a content round's span is the whole round's, or the
/// hedge delay when that is longer.
pub proof fn a_hedged_round_keeps_its_span(delay_ns: u64, round: RoundBudget)
    ensures
        content_budget_at(delay_ns, round).span() == larger(round.span() as int, delay_ns as int),
{
    let budget = content_budget_at(delay_ns, round);
    assert(budget.extension_ns * budget.extensions == budget.extension_ns);
}

/// The holders a content round goes to: the first few remote candidates, and once the first round
/// has been out for the hedge delay, every remaining one.
pub open spec fn hedged_targets(hedged: bool, remote: Seq<HostId>, first_round: nat) -> Seq<
    HostId,
> {
    if hedged || first_round >= remote.len() {
        remote
    } else {
        remote.take(first_round as int)
    }
}

/// The holders a content round goes to.
pub fn hedge_targets(hedged: bool, remote: Vec<HostId>, first_round: usize) -> (targets: Vec<
    HostId,
>)
    ensures
        targets@ == hedged_targets(hedged, remote@, first_round as nat),
{
    let mut targets = remote;
    if !hedged && first_round < targets.len() {
        targets.truncate(first_round);
        assert(targets@ =~= remote@.take(first_round as int));
    }
    targets
}

/// The remote candidates that have not acknowledged.
pub open spec fn remote_lacking(
    candidates: Seq<HostId>,
    acked: Seq<HostId>,
    local: HostId,
) -> Seq<HostId> {
    candidates.filter(|host: HostId| host != local && !lists(acked, host))
}

/// The remote candidates that have not acknowledged.
fn remote_candidates(candidates: &Vec<HostId>, acked: &Vec<HostId>, local: HostId) -> (remote: Vec<
    HostId,
>)
    ensures
        remote@ == remote_lacking(candidates@, acked@, local),
{
    let mut remote: Vec<HostId> = Vec::new();
    let mut i: usize = 0;
    proof {
        reveal(Seq::filter);
        assert(remote@ =~= remote_lacking(candidates@.take(0), acked@, local));
    }
    while i < candidates.len()
        invariant
            i <= candidates@.len(),
            remote@ == remote_lacking(candidates@.take(i as int), acked@, local),
        decreases candidates@.len() - i,
    {
        proof {
            reveal(Seq::filter);
            assert(candidates@.take(i + 1).drop_last() =~= candidates@.take(i as int));
            assert(candidates@.take(i + 1).last() == candidates@[i as int]);
        }
        if candidates[i] != local && !contains_host(acked, candidates[i]) {
            remote.push(candidates[i]);
        }
        i += 1;
    }
    assert(candidates@.take(i as int) =~= candidates@);
    remote
}

/// A volume as its seal sees it.
#[derive(Clone, Copy, Debug, PartialEq, Eq, Structural)]
pub struct SealVolume {
    pub object: ObjectId,
    /// The volume's epoch: zero until its first snapshot.
    pub epoch: u64,
    /// The head snapshot.
    pub head: SnapshotId,
    /// Whether the database records the head snapshot placed.
    pub placed: bool,
}

/// How an archive walk's slice ended.
#[derive(Clone, Copy, Debug, PartialEq, Eq)]
pub enum Walked {
    /// The volume is gone.
    Gone,
    /// More is to be walked.
    More,
    /// The archive is complete, with its identity.
    Done([u8; 32]),
    /// The snapshot cannot be archived whole.
    Failed,
}

/// A content put to run: the archive is out on it.
#[derive(Debug)]
pub struct ContentWork {
    pub object: ObjectId,
    pub snapshot: SnapshotId,
    pub sequence: u64,
    pub candidates: Vec<HostId>,
    pub acked: Vec<HostId>,
    pub quorum: Quorum,
    pub round: u32,
    /// Whether the first round has been out for the hedge delay.
    pub hedged: bool,
    pub budget: RoundBudget,
}

impl ContentWork {
    /// The hosts a content round goes to.
    pub open spec fn aims(&self, local: HostId) -> Seq<HostId> {
        hedged_targets(
            self.hedged,
            remote_lacking(self.candidates@, self.acked@, local),
            self.quorum.f as nat,
        )
    }

    /// The holders the put goes to.
    pub fn targets(&self, local: HostId) -> (targets: Vec<HostId>)
        ensures
            targets@ == self.aims(local),
    {
        let remote = remote_candidates(&self.candidates, &self.acked, local);
        hedge_targets(self.hedged, remote, self.quorum.f as usize)
    }
}

/// Where the healer is in its walk over what this node placed.
#[derive(Clone, Copy, Debug, PartialEq, Eq, Structural)]
pub struct HealerCursor {
    /// The volume after which the next step starts.
    pub after: Option<ObjectId>,
    /// When the healer last stepped.
    pub last_step_ns: Option<u64>,
}

impl Default for HealerCursor {
    /// Before the first step.
    fn default() -> (cursor: HealerCursor)
        ensures
            cursor == (HealerCursor { after: None, last_step_ns: None }),
    {
        HealerCursor { after: None, last_step_ns: None }
    }
}

/// An owner shard's seals, and what it measured of their rounds.
#[derive(Debug)]
pub struct Seals {
    pub jobs: BTreeMap<u128, SealJob>,
    pub latency: PutLatency,
    pub outcomes: PutOutcomes,
    pub healer: HealerCursor,
    /// Holders put content they had lost.
    pub repairs: u64,
}

/// A placement with the owner alone acknowledged, when it is a candidate: it holds its own content.
pub open spec fn owner_acked(candidates: Seq<HostId>, local: HostId) -> Seq<HostId> {
    if lists(candidates, local) {
        seq![local]
    } else {
        Seq::empty()
    }
}

/// What a content round brought back.
#[derive(Debug)]
pub struct ContentRound {
    pub dispatched_ns: u64,
    /// The latency of each acknowledgement.
    pub latencies_ns: Vec<u64>,
    /// The acknowledging holders, placed or short; none if nothing was dispatched, or the round
    /// failed outright.
    pub acked: Option<Vec<HostId>>,
    /// The holders that were put bytes.
    pub refilled: Vec<HostId>,
}

/// How many of a list are in another.
pub open spec fn count_in(hosts: Seq<HostId>, others: Seq<HostId>) -> nat
    decreases hosts.len(),
{
    if hosts.len() == 0 {
        0
    } else {
        count_in(hosts.drop_last(), others) + (if lists(others, hosts.last()) {
            1nat
        } else {
            0nat
        })
    }
}

/// How many of a list are in another.
fn counted_in(hosts: &Vec<HostId>, others: &Vec<HostId>) -> (count: usize)
    ensures
        count == count_in(hosts@, others@),
{
    let mut count: usize = 0;
    let mut i: usize = 0;
    while i < hosts.len()
        invariant
            i <= hosts@.len(),
            count <= i,
            count == count_in(hosts@.take(i as int), others@),
        decreases hosts@.len() - i,
    {
        proof {
            assert(hosts@.take(i + 1).drop_last() =~= hosts@.take(i as int));
            assert(hosts@.take(i + 1).last() == hosts@[i as int]);
        }
        if contains_host(others, hosts[i]) {
            count += 1;
        }
        i += 1;
    }
    assert(hosts@.take(i as int) =~= hosts@);
    count
}

/// What a round leaves of a seal: its archive is back, its first dispatch noted, and its
/// acknowledgements merged.
pub open spec fn job_after_round(before: SealJob, after: SealJob, round: u32, put: ContentRound) -> bool {
    &&& after.snapshot == before.snapshot
    &&& after.sequence == before.sequence
    &&& after.archiving == before.archiving
    &&& after.archive
    &&& after.manifest == before.manifest
    &&& after.healing == before.healing
    &&& after.first_round_at_ns == (if round == 0 && before.first_round_at_ns is None {
        Some(put.dispatched_ns)
    } else {
        before.first_round_at_ns
    })
    &&& after.content.candidates == before.content.candidates
    &&& match put.acked {
        Some(acked) => {
            &&& after.rounds == clamp_u32(before.rounds + 1)
            &&& after.content.acked@ == with_acks(before.content.acked@, acked@)
        },
        None => {
            &&& after.rounds == before.rounds
            &&& after.content.acked@ == before.content.acked@
        },
    }
}

/// A placed snapshot the healer may offer again.
pub open spec fn healable(volume: SealVolume, sealing: Map<u128, SealJob>) -> bool {
    volume.epoch != 0 && volume.placed && !sealing.contains_key(volume.object.0)
}

/// Whether one volume comes before another in the walk that starts after a cursor and wraps.
pub open spec fn walked_before(after: Option<ObjectId>, a: ObjectId, b: ObjectId) -> bool {
    match after {
        None => a.0 <= b.0,
        Some(after) => if a.0 > after.0 && b.0 <= after.0 {
            true
        } else if a.0 <= after.0 && b.0 > after.0 {
            false
        } else {
            a.0 <= b.0
        },
    }
}

/// Whether one volume comes before another in the healer's walk.
fn comes_first(after: Option<ObjectId>, a: ObjectId, b: ObjectId) -> (first: bool)
    ensures
        first == walked_before(after, a, b),
{
    match after {
        None => a.0 <= b.0,
        Some(after) => if a.0 > after.0 && b.0 <= after.0 {
            true
        } else if a.0 <= after.0 && b.0 > after.0 {
            false
        } else {
            a.0 <= b.0
        },
    }
}

/// Whether the healer's next volume stands at an index: it may be offered again, and no other that
/// may comes before it in the walk.
pub open spec fn next_healed(
    volumes: Seq<SealVolume>,
    sealing: Map<u128, SealJob>,
    after: Option<ObjectId>,
    at: int,
) -> bool {
    &&& 0 <= at < volumes.len()
    &&& healable(volumes[at], sealing)
    &&& forall|i: int|
        0 <= i < volumes.len() && healable(#[trigger] volumes[i], sealing) ==> walked_before(
            after,
            volumes[at].object,
            volumes[i].object,
        )
}

/// Whether the healer is due: it has not stepped yet, or its period has passed since.
pub open spec fn heal_due(cursor: HealerCursor, now_ns: u64, period_ns: int) -> bool {
    match cursor.last_step_ns {
        None => true,
        Some(last) => larger(now_ns - last, 0) >= period_ns,
    }
}

impl Seals {
    /// No seal, and nothing measured.
    pub fn new() -> (seals: Seals)
        ensures
            seals.jobs@ == Map::<u128, SealJob>::empty(),
            seals.latency@ == Seq::<u64>::empty(),
            seals.outcomes == (PutOutcomes { placed: 0, short: 0 }),
            seals.healer == (HealerCursor { after: None, last_step_ns: None }),
            seals.repairs == 0,
    {
        Seals {
            jobs: BTreeMap::new(),
            latency: PutLatency::default(),
            outcomes: PutOutcomes::default(),
            healer: HealerCursor::default(),
            repairs: 0,
        }
    }

    /// Whether all but the jobs are the same.
    pub open spec fn only_jobs_differ(&self, other: &Seals) -> bool {
        &&& self.latency == other.latency
        &&& self.outcomes == other.outcomes
        &&& self.healer == other.healer
        &&& self.repairs == other.repairs
    }

    /// Whether `head` and `later` are what asking for a volume's head to seal makes of this.
    pub open spec fn offers(
        &self,
        volume: SealVolume,
        head: Option<(SnapshotId, u64)>,
        later: Seals,
    ) -> bool {
        &&& later.only_jobs_differ(self)
        &&& ({
            let object = volume.object.0;
            let job = if self.jobs@.contains_key(object) {
                Some(self.jobs@[object])
            } else {
                None
            };
            let current = job matches Some(job) && job.snapshot == volume.head;
            let offered = job matches Some(job) && job.snapshot == volume.head && job.healing;
            &&& head == (if volume.epoch != 0 && (!volume.placed || offered) {
                Some((volume.head, volume.epoch))
            } else {
                None
            })
            &&& later.jobs@ == (if volume.epoch == 0 || offered || (!volume.placed
                && current) {
                self.jobs@
            } else {
                self.jobs@.remove(object)
            })
        })
    }

    /// The head snapshot of a volume that still needs sealing, with its sequence. A finished seal
    /// is dropped, unless it is the healer's offer of that snapshot; one for an older snapshot is
    /// dropped too.
    pub fn sealable_head(&mut self, volume: &SealVolume) -> (head: Option<(SnapshotId, u64)>)
        ensures
            old(self).offers(*volume, head, *final(self)),
    {
        if volume.epoch == 0 {
            return None;
        }
        let object: u128 = volume.object.0;
        let (known, current, healing) = match self.jobs.get(&object) {
            Some(job) => (true, job.snapshot == volume.head, job.healing),
            None => (false, false, false),
        };
        if volume.placed {
            if current && healing {
                return Some((volume.head, volume.epoch));
            }
            self.jobs.remove(&object);
            return None;
        }
        if known && !current {
            self.jobs.remove(&object);
        }
        assert(!known ==> old(self).jobs@.remove(object) =~= old(self).jobs@);
        Some((volume.head, volume.epoch))
    }

    /// Whether `started` and `later` are what starting a seal makes of this.
    pub open spec fn starts(
        &self,
        volume: SealVolume,
        local: HostId,
        candidates: Seq<HostId>,
        walkable: bool,
        healing: bool,
        started: Result<(), Refused>,
        later: Seals,
    ) -> bool {
        &&& later.only_jobs_differ(self)
        &&& if walkable {
            &&& started is Ok
            &&& later.jobs@.remove(volume.object.0) == self.jobs@.remove(
                volume.object.0,
            )
            &&& later.jobs@.contains_key(volume.object.0)
            &&& ({
                let job = later.jobs@[volume.object.0];
                &&& job.snapshot == volume.head
                &&& job.sequence == volume.epoch
                &&& job.archiving
                &&& !job.archive
                &&& job.manifest is None
                &&& job.content.candidates@ == candidates
                &&& job.content.acked@ == owner_acked(candidates, local)
                &&& job.rounds == 0
                &&& job.first_round_at_ns is None
                &&& job.healing == healing
            })
        } else {
            started == Err::<(), Refused>(Refused::Seal) && later.jobs == self.jobs
        }
    }

    /// Starts the seal of a head snapshot: its archive walk, and the content placement with the
    /// owner counted. A snapshot that cannot be walked is counted instead.
    pub fn start_seal(
        &mut self,
        volume: &SealVolume,
        local: HostId,
        candidates: Vec<HostId>,
        walkable: bool,
        healing: bool,
    ) -> (started: Result<(), Refused>)
        ensures
            old(self).starts(
                *volume,
                local,
                candidates@,
                walkable,
                healing,
                started,
                *final(self),
            ),
    {
        if !walkable {
            return Err(Refused::Seal);
        }
        let mut acked: Vec<HostId> = Vec::new();
        if contains_host(&candidates, local) {
            acked.push(local);
        }
        assert(acked@ =~= owner_acked(candidates@, local));
        self.jobs.insert(
            volume.object.0,
            SealJob {
                snapshot: volume.head,
                sequence: volume.epoch,
                archiving: true,
                archive: false,
                manifest: None,
                content: Placement { candidates, acked },
                rounds: 0,
                first_round_at_ns: None,
                healing,
            },
        );
        assert(self.jobs@.remove(volume.object.0) =~= old(self).jobs@.remove(volume.object.0));
        Ok(())
    }

    /// Whether a seal's archive walk has a slice to run.
    pub fn walking(&self, object: ObjectId) -> (walking: bool)
        ensures
            walking == (self.jobs@.contains_key(object.0) && self.jobs@[object.0].archiving),
    {
        match self.jobs.get(&object.0) {
            Some(job) => job.archiving,
            None => false,
        }
    }

    /// Whether `advanced` and `later` are what a step of a walk makes of this.
    pub open spec fn advances(
        &self,
        object: ObjectId,
        walked: Walked,
        advanced: (bool, Option<Refused>),
        later: Seals,
    ) -> bool {
        &&& later.only_jobs_differ(self)
        &&& if !self.jobs@.contains_key(object.0) {
            later.jobs@ == self.jobs@ && advanced == (false, None::<Refused>)
        } else {
            let job = self.jobs@[object.0];
            if !job.archiving {
                later.jobs@ == self.jobs@ && advanced == (true, None::<Refused>)
            } else {
                match walked {
                    Walked::Gone | Walked::More => later.jobs@ == self.jobs@
                        && advanced == (false, None::<Refused>),
                    Walked::Done(manifest) => {
                        &&& advanced == (true, None::<Refused>)
                        &&& later.jobs@ == self.jobs@.insert(
                            object.0,
                            SealJob {
                                archiving: false,
                                archive: true,
                                manifest: Some(manifest),
                                ..job
                            },
                        )
                    },
                    Walked::Failed => {
                        &&& advanced == (false, Some(Refused::Seal))
                        &&& later.jobs@ == self.jobs@.insert(
                            object.0,
                            SealJob { archiving: false, ..job },
                        )
                    },
                }
            }
        }
    }

    /// Advances a seal by one walked slice: whether its archive walk is over, and what is counted.
    /// A snapshot that cannot be archived whole stays local.
    pub fn advance_seal(&mut self, object: ObjectId, walked: Walked) -> (advanced: (bool, Option<
        Refused,
    >))
        ensures
            old(self).advances(object, walked, advanced, *final(self)),
    {
        let job = match self.jobs.remove(&object.0) {
            Some(job) => job,
            None => {
                assert(self.jobs@ =~= old(self).jobs@);
                return (false, None);
            },
        };
        let mut job = job;
        let mut advanced: (bool, Option<Refused>) = (false, None);
        if !job.archiving {
            advanced = (true, None);
        } else {
            match walked {
                Walked::Gone => {},
                Walked::More => {},
                Walked::Done(manifest) => {
                    job.archiving = false;
                    job.archive = true;
                    job.manifest = Some(manifest);
                    advanced = (true, None);
                },
                Walked::Failed => {
                    job.archiving = false;
                    advanced = (false, Some(Refused::Seal));
                },
            }
        }
        self.jobs.insert(object.0, job);
        assert(self.jobs@ =~= old(self).jobs@.insert(object.0, job));
        assert(job == old(self).jobs@[object.0] ==> self.jobs@ =~= old(self).jobs@);
        advanced
    }

    /// Whether `work` and `later` are what asking for a content round makes of this.
    pub open spec fn rounds(
        &self,
        object: ObjectId,
        quorum: Quorum,
        round: RoundBudget,
        now_ns: u64,
        work: Option<ContentWork>,
        later: Seals,
    ) -> bool {
        &&& later.only_jobs_differ(self)
        &&& exists|delay_ns: u64| #[trigger]
            is_hedge_delay(self.latency@, delay_ns) && {
                let job = self.jobs@[object.0];
                let waiting = job.first_round_at_ns matches Some(first) && larger(
                    now_ns - first,
                    0,
                ) < delay_ns;
                if self.jobs@.contains_key(object.0) && !job.content@.placed(quorum)
                    && !waiting && job.archive {
                    &&& later.jobs@ == self.jobs@.insert(
                        object.0,
                        SealJob { archive: false, ..job },
                    )
                    &&& work matches Some(work) && {
                        &&& work.object == object
                        &&& work.snapshot == job.snapshot
                        &&& work.sequence == job.sequence
                        &&& work.candidates@ == job.content.candidates@
                        &&& work.acked@ == job.content.acked@
                        &&& work.quorum == quorum
                        &&& work.round == job.rounds
                        &&& work.hedged == job.first_round_at_ns is Some
                        &&& work.budget == content_budget_at(delay_ns, round)
                    }
                } else {
                    later.jobs@ == self.jobs@ && work is None
                }
            }
    }

    /// The content put a seal calls for this period, its archive taken out for it: none once the
    /// content is placed, while the archive is out, or while the first round is within the hedge
    /// delay.
    pub fn content_work(
        &mut self,
        object: ObjectId,
        quorum: Quorum,
        round: &RoundBudget,
        now_ns: u64,
    ) -> (work: Option<ContentWork>)
        ensures
            old(self).rounds(
                object,
                quorum,
                *round,
                now_ns,
                work,
                *final(self),
            ),
    {
        let budget = content_budget(&self.latency, round);
        let delay_ns: u64 = budget.deadline_ns;
        assert(is_hedge_delay(old(self).latency@, delay_ns));
        let job = match self.jobs.remove(&object.0) {
            Some(job) => job,
            None => {
                assert(self.jobs@ =~= old(self).jobs@);
                return None;
            },
        };
        let mut job = job;
        let placed = job.content.placed(quorum);
        let waiting = match job.first_round_at_ns {
            Some(first) => now_ns.saturating_sub(first) < delay_ns,
            None => false,
        };
        if placed || waiting || !job.archive {
            self.jobs.insert(object.0, job);
            assert(self.jobs@ =~= old(self).jobs@);
            return None;
        }
        job.archive = false;
        let work = ContentWork {
            object,
            snapshot: job.snapshot,
            sequence: job.sequence,
            candidates: copy_hosts(&job.content.candidates),
            acked: copy_hosts(&job.content.acked),
            quorum,
            round: job.rounds,
            hedged: job.first_round_at_ns.is_some(),
            budget,
        };
        self.jobs.insert(object.0, job);
        assert(self.jobs@ =~= old(self).jobs@.insert(object.0, job));
        Some(work)
    }

    /// Whether `later` is what the end of a content round makes of this.
    pub open spec fn after_round(
        &self,
        work: ContentWork,
        put: ContentRound,
        later: Seals,
    ) -> bool {
        &&& later.latency@ == windowed_all(self.latency@, put.latencies_ns@)
        &&& later.healer == self.healer
        &&& ({
            let object = work.object.0;
            let job = self.jobs@[object];
            if self.jobs@.contains_key(object) && job.snapshot == work.snapshot {
                let after = later.jobs@[object];
                &&& later.jobs@.contains_key(object)
                &&& later.jobs@.remove(object) == self.jobs@.remove(object)
                &&& job_after_round(job, after, work.round, put)
                &&& later.outcomes == (if put.acked is Some {
                    self.outcomes.with(after.content@.placed(work.quorum))
                } else {
                    self.outcomes
                })
                &&& later.repairs == (if job.healing && put.acked is Some {
                    clamp_u64(self.repairs + count_in(put.refilled@, put.acked->0@))
                } else {
                    self.repairs
                })
            } else {
                &&& later.jobs@ == self.jobs@
                &&& later.outcomes == self.outcomes
                &&& later.repairs == self.repairs
            }
        })
    }

    /// Takes up what a content round brought back. Its latencies are recorded whatever became of
    /// the seal; a superseded seal takes nothing else. A healing round's holders that were put
    /// bytes, and acknowledged, had lost them: repairs.
    pub fn round_done(&mut self, work: &ContentWork, put: &ContentRound)
        ensures
            old(self).after_round(*work, *put, *final(self)),
    {
        self.latency.record_all(&put.latencies_ns);
        let object: u128 = work.object.0;
        let job = match self.jobs.remove(&object) {
            Some(job) => job,
            None => {
                assert(self.jobs@ =~= old(self).jobs@);
                return;
            },
        };
        if job.snapshot != work.snapshot {
            self.jobs.insert(object, job);
            assert(self.jobs@ =~= old(self).jobs@);
            return;
        }
        let SealJob {
            snapshot,
            sequence,
            archiving,
            archive: _,
            manifest,
            content,
            rounds,
            first_round_at_ns,
            healing,
        } = job;
        let first_round_at_ns = if work.round == 0 && first_round_at_ns.is_none() {
            Some(put.dispatched_ns)
        } else {
            first_round_at_ns
        };
        let mut content = content;
        let mut rounds: u32 = rounds;
        if let Some(acked) = &put.acked {
            rounds = rounds.saturating_add(1);
            if healing {
                let repaired: usize = counted_in(&put.refilled, acked);
                self.repairs = self.repairs.saturating_add(repaired as u64);
            }
            content = merged_content(content, acked);
            self.outcomes.record(content.placed(work.quorum));
        }
        self.jobs.insert(
            object,
            SealJob {
                snapshot,
                sequence,
                archiving,
                archive: true,
                manifest,
                content,
                rounds,
                first_round_at_ns,
                healing,
            },
        );
        assert(self.jobs@.remove(object) =~= old(self).jobs@.remove(object));
    }

    /// Whether `later` is what late acknowledgements make of this.
    pub open spec fn after_late(
        &self,
        seal: LateSeal,
        acks: Seq<ContentAck>,
        latency_ns: u64,
        later: Seals,
    ) -> bool {
        &&& later.latency@ == windowed_all(
            self.latency@,
            Seq::new(bound_to(seal, acks).len(), |i: int| latency_ns),
        )
        &&& later.outcomes == self.outcomes
        &&& later.healer == self.healer
        &&& later.repairs == self.repairs
        &&& ({
            let object = seal.object.0;
            let job = self.jobs@[object];
            if self.jobs@.contains_key(object) && job.snapshot == seal.snapshot {
                let after = later.jobs@[object];
                &&& later.jobs@.contains_key(object)
                &&& later.jobs@.remove(object) == self.jobs@.remove(object)
                &&& after.content.candidates == job.content.candidates
                &&& after.content.acked@ == with_acks(
                    job.content.acked@,
                    bound_to(seal, acks).filter(
                        |host: HostId| lists(job.content.candidates@, host),
                    ),
                )
                &&& after == (SealJob { content: after.content, ..job })
            } else {
                later.jobs@ == self.jobs@
            }
        })
    }

    /// Folds the acknowledgements of a content round that came in late. Only those bound to the
    /// seal's object, sequence and identity count: their latency is recorded, and each whose holder
    /// is a candidate of the seal, if it was not superseded, is merged.
    pub fn fold_late_content(&mut self, seal: &LateSeal, acks: &Vec<ContentAck>, latency_ns: u64)
        ensures
            old(self).after_late(*seal, acks@, latency_ns, *final(self)),
    {
        let acked = bound_holders(seal, acks);
        let mut latencies: Vec<u64> = Vec::new();
        let mut i: usize = 0;
        while i < acked.len()
            invariant
                i <= acked@.len(),
                latencies@ =~= Seq::new(i as nat, |k: int| latency_ns),
            decreases acked@.len() - i,
        {
            latencies.push(latency_ns);
            i += 1;
        }
        self.latency.record_all(&latencies);
        let object: u128 = seal.object.0;
        let job = match self.jobs.remove(&object) {
            Some(job) => job,
            None => {
                assert(self.jobs@ =~= old(self).jobs@);
                return;
            },
        };
        if job.snapshot != seal.snapshot {
            self.jobs.insert(object, job);
            assert(self.jobs@ =~= old(self).jobs@);
            return;
        }
        let bound = candidates_among(&acked, &job.content.candidates);
        let SealJob {
            snapshot,
            sequence,
            archiving,
            archive,
            manifest,
            content,
            rounds,
            first_round_at_ns,
            healing,
        } = job;
        self.jobs.insert(
            object,
            SealJob {
                snapshot,
                sequence,
                archiving,
                archive,
                manifest,
                content: merged_content(content, &bound),
                rounds,
                first_round_at_ns,
                healing,
            },
        );
        assert(self.jobs@.remove(object) =~= old(self).jobs@.remove(object));
    }

    /// Whether `record` is what a finished seal records.
    pub open spec fn records(
        &self,
        object: ObjectId,
        head: Option<PlacedHead>,
        quorum: Quorum,
        record: Option<(SnapshotId, [u8; 32], Vec<u64>)>,
    ) -> bool {
        ({
            let job = self.jobs@[object.0];
            let done = self.jobs@.contains_key(object.0) && job.manifest is Some
                && job.content@.placed(quorum) && (head matches Some(head) && head.sequence
                == job.sequence && head.placement@.placed(quorum));
            match record {
                Some((snapshot, identity, region)) => {
                    &&& done
                    &&& snapshot == job.snapshot
                    &&& Some(identity) == job.manifest
                    &&& region@ == job.content.acked@.map_values(|host: HostId| host.0)
                },
                None => !done,
            }
        })
    }

    /// What a finished seal records durably: its snapshot's identity and its content's holders, once
    /// its content and its head are both placed.
    pub fn placed_seal(
        &self,
        object: ObjectId,
        head: Option<&PlacedHead>,
        quorum: Quorum,
    ) -> (record: Option<(SnapshotId, [u8; 32], Vec<u64>)>)
        ensures
            self.records(
                object,
                match head {
                    Some(head) => Some(*head),
                    None => None,
                },
                quorum,
                record,
            ),
    {
        let job = match self.jobs.get(&object.0) {
            Some(job) => job,
            None => {
                return None;
            },
        };
        let identity = match job.manifest {
            Some(identity) => identity,
            None => {
                return None;
            },
        };
        let head = match head {
            Some(head) => head,
            None => {
                return None;
            },
        };
        if !job.content.placed(quorum) || head.sequence != job.sequence
            || !head.placement.placed(quorum) {
            return None;
        }
        Some((job.snapshot, identity, host_ids(&job.content.acked)))
    }

    /// Drops a seal that was recorded.
    pub fn drop_seal(&mut self, object: ObjectId)
        ensures
            final(self).only_jobs_differ(old(self)),
            final(self).jobs@ == old(self).jobs@.remove(object.0),
    {
        self.jobs.remove(&object.0);
    }

    /// Whether `next` and `later` are what a step of the healer makes of this.
    pub open spec fn heals(
        &self,
        volumes: Seq<SealVolume>,
        now_ns: u64,
        next: Option<usize>,
        later: Seals,
    ) -> bool {
        &&& later.jobs == self.jobs
        &&& later.latency == self.latency
        &&& later.outcomes == self.outcomes
        &&& later.repairs == self.repairs
        &&& ({
            let period = HEARTBEAT_NS * heal_periods(self.outcomes);
            let after = self.healer.after;
            if heal_due(self.healer, now_ns, period) {
                &&& later.healer.last_step_ns == Some(now_ns)
                &&& match next {
                    Some(at) => {
                        &&& next_healed(volumes, self.jobs@, after, at as int)
                        &&& later.healer.after == Some(volumes[at as int].object)
                    },
                    None => {
                        &&& forall|i: int|
                            0 <= i < volumes.len() ==> !healable(
                                #[trigger] volumes[i],
                                self.jobs@,
                            )
                        &&& later.healer.after is None
                    },
                }
            } else {
                next is None && later.healer == self.healer
            }
        })
    }

    /// The healer's step: once per its period, the next placed snapshot after its cursor, in
    /// volume order and wrapping, to be offered again.
    pub fn heal_one_placed_snapshot(&mut self, volumes: &Vec<SealVolume>, now_ns: u64) -> (next:
        Option<usize>)
        ensures
            old(self).heals(volumes@, now_ns, next, *final(self)),
    {
        let period_ns: u64 = heal_period_ns(&self.outcomes);
        let due = match self.healer.last_step_ns {
            Some(last) => now_ns.saturating_sub(last) >= period_ns,
            None => true,
        };
        if !due {
            return None;
        }
        let after = self.healer.after;
        let mut next: Option<usize> = None;
        let mut i: usize = 0;
        while i < volumes.len()
            invariant
                i <= volumes@.len(),
                self.jobs == old(self).jobs,
                self.latency == old(self).latency,
                self.outcomes == old(self).outcomes,
                self.repairs == old(self).repairs,
                self.healer == old(self).healer,
                match next {
                    Some(at) => next_healed(
                        volumes@.take(i as int),
                        self.jobs@,
                        after,
                        at as int,
                    ),
                    None => forall|j: int|
                        0 <= j < i ==> !healable(#[trigger] volumes@[j], self.jobs@),
                },
            decreases volumes@.len() - i,
        {
            let volume = volumes[i];
            let ghost shorter = volumes@.take(i as int);
            let ghost longer = volumes@.take(i + 1);
            proof {
                assert(longer[i as int] == volume);
                assert forall|j: int| 0 <= j < i implies #[trigger] longer[j] == shorter[j] by {
                }
            }
            if volume.epoch != 0 && volume.placed && !self.jobs.contains_key(&volume.object.0) {
                let replaces = match next {
                    Some(at) => !comes_first(after, volumes[at].object, volume.object),
                    None => true,
                };
                if replaces {
                    proof {
                        assert forall|j: int|
                            0 <= j < longer.len() && healable(
                                #[trigger] longer[j],
                                self.jobs@,
                            ) implies walked_before(after, volume.object, longer[j].object) by {
                            if j < i {
                                assert(longer[j] == shorter[j]);
                                assert(volumes@[j] == shorter[j]);
                            }
                        }
                    }
                    next = Some(i);
                } else {
                    proof {
                        let at = next->0 as int;
                        assert(longer[at] == shorter[at]);
                        assert forall|j: int|
                            0 <= j < longer.len() && healable(
                                #[trigger] longer[j],
                                self.jobs@,
                            ) implies walked_before(after, longer[at].object, longer[j].object) by {
                            if j < i {
                                assert(longer[j] == shorter[j]);
                            }
                        }
                    }
                }
            } else {
                proof {
                    if let Some(at) = next {
                        assert(longer[at as int] == shorter[at as int]);
                        assert forall|j: int|
                            0 <= j < longer.len() && healable(
                                #[trigger] longer[j],
                                self.jobs@,
                            ) implies walked_before(
                            after,
                            longer[at as int].object,
                            longer[j].object,
                        ) by {
                            if j < i {
                                assert(longer[j] == shorter[j]);
                            }
                        }
                    }
                }
            }
            i += 1;
        }
        assert(volumes@.take(i as int) =~= volumes@);
        self.healer = HealerCursor {
            after: match next {
                Some(at) => Some(volumes[at].object),
                None => None,
            },
            last_step_ns: Some(now_ns),
        };
        next
    }
}

/// The hosts of one list that are candidates.
fn candidates_among(hosts: &Vec<HostId>, candidates: &Vec<HostId>) -> (bound: Vec<HostId>)
    ensures
        bound@ == hosts@.filter(|host: HostId| lists(candidates@, host)),
{
    let mut bound: Vec<HostId> = Vec::new();
    let mut i: usize = 0;
    proof {
        reveal(Seq::filter);
        assert(bound@ =~= hosts@.take(0).filter(|host: HostId| lists(candidates@, host)));
    }
    while i < hosts.len()
        invariant
            i <= hosts@.len(),
            bound@ == hosts@.take(i as int).filter(|host: HostId| lists(candidates@, host)),
        decreases hosts@.len() - i,
    {
        proof {
            reveal(Seq::filter);
            assert(hosts@.take(i + 1).drop_last() =~= hosts@.take(i as int));
            assert(hosts@.take(i + 1).last() == hosts@[i as int]);
        }
        if contains_host(candidates, hosts[i]) {
            bound.push(hosts[i]);
        }
        i += 1;
    }
    assert(hosts@.take(i as int) =~= hosts@);
    bound
}

/// A content placement after a round's acknowledgements.
fn merged_content(content: Placement, acked: &Vec<HostId>) -> (merged: Placement)
    ensures
        merged.candidates == content.candidates,
        merged.acked@ == with_acks(content.acked@, acked@),
{
    let mut merged = content;
    let mut i: usize = 0;
    assert(acked@.take(0) =~= Seq::<HostId>::empty());
    while i < acked.len()
        invariant
            i <= acked@.len(),
            merged.candidates == content.candidates,
            merged.acked@ == with_acks(content.acked@, acked@.take(i as int)),
        decreases acked@.len() - i,
    {
        proof {
            assert(acked@.take(i + 1).drop_last() =~= acked@.take(i as int));
            assert(acked@.take(i + 1).last() == acked@[i as int]);
        }
        merged.acknowledge(acked[i]);
        i += 1;
    }
    assert(acked@.take(i as int) =~= acked@);
    merged
}

/// The window holds the newest two hundred readings, in the order they came.
pub proof fn the_window_is_the_newest_readings(readings: Seq<u64>, latencies: Seq<u64>)
    requires
        readings.len() <= 200,
    ensures
        ({
            let all = readings + latencies;
            &&& all.len() <= 200 ==> windowed_all(readings, latencies) == all
            &&& all.len() > 200 ==> windowed_all(readings, latencies) == all.skip(all.len() - 200)
        }),
    decreases latencies.len(),
{
    let all = readings + latencies;
    if latencies.len() == 0 {
        assert(all =~= readings);
    } else {
        let before = readings + latencies.drop_last();
        the_window_is_the_newest_readings(readings, latencies.drop_last());
        assert(all =~= before.push(latencies.last()));
        if before.len() >= 200 {
            assert(windowed_all(readings, latencies) =~= all.skip(all.len() - 200));
        }
    }
}

/// The healer's period shrinks from a hundred heartbeats by the share of rounds that fell short, each
/// weighed a hundred times, and is never under one.
pub proof fn the_healers_period_is_the_short_share(outcomes: PutOutcomes, periods: int)
    requires
        outcomes.placed > 0,
        periods >= 1,
    ensures
        periods * (outcomes.placed + 100 * outcomes.short) <= 100 * outcomes.placed
            ==> heal_periods(outcomes) >= periods,
        periods > 1 && periods * (outcomes.placed + 100 * outcomes.short) > 100 * outcomes.placed
            ==> heal_periods(outcomes) < periods,
        heal_periods(outcomes) >= 1,
{
    let placed = outcomes.placed as int;
    let whole = placed + 100 * outcomes.short;
    vstd::arithmetic::div_mod::lemma_fundamental_div_mod(100 * placed, whole);
    let q = (100 * placed) / whole;
    let r = (100 * placed) % whole;
    assert(0 <= r < whole) by (nonlinear_arith)
        requires
            whole > 0,
            r == (100 * placed) % whole,
    ;
    if periods * whole <= 100 * placed {
        assert(q >= periods) by (nonlinear_arith)
            requires
                100 * placed == whole * q + r,
                r < whole,
                whole > 0,
                periods * whole <= 100 * placed,
        ;
    }
    if periods * whole > 100 * placed {
        assert(q < periods) by (nonlinear_arith)
            requires
                100 * placed == whole * q + r,
                r >= 0,
                whole > 0,
                periods * whole > 100 * placed,
        ;
    }
}

/// A finished round is counted once, as placed or as short.
pub proof fn a_round_is_counted_once(outcomes: PutOutcomes, placed: bool)
    requires
        outcomes.placed < u64::MAX,
        outcomes.short < u64::MAX,
    ensures
        placed ==> outcomes.with(placed).placed == outcomes.placed + 1 && outcomes.with(
            placed,
        ).short == outcomes.short,
        !placed ==> outcomes.with(placed).short == outcomes.short + 1 && outcomes.with(
            placed,
        ).placed == outcomes.placed,
{
}

/// A content round is hedged after the delay: without readings that is a heartbeat, and with them one
/// of them; the delay is the round's deadline and its stall, and one extension takes the rest of the
/// span, asked of ten times a heartbeat.
pub proof fn a_content_round_is_hedged_after_its_delay(
    readings: Seq<u64>,
    delay_ns: u64,
    round: RoundBudget,
)
    requires
        is_hedge_delay(readings, delay_ns),
    ensures
        readings.len() == 0 ==> delay_ns == 100_000_000,
        readings.len() > 0 ==> readings.contains(delay_ns),
        ({
            let budget = content_budget_at(delay_ns, round);
            &&& budget.deadline_ns == delay_ns
            &&& budget.stall_ns == delay_ns
            &&& budget.poll_ns == 10_000_000
            &&& budget.extensions == 1
            &&& budget.lookahead_numerator == budget.lookahead_denominator
            &&& round.span() >= delay_ns ==> delay_ns + budget.extension_ns == round.span()
            &&& round.span() < delay_ns ==> budget.extension_ns == 0
        }),
{
    if readings.len() > 0 {
        nineteen_in_twenty_lie_within_the_percentile(readings.len());
        let rank = p95_rank(readings.len());
        let sorted = choose|sorted: Seq<u64>| #[trigger]
            is_sorting(readings, sorted) && delay_ns == sorted[rank];
        broadcast use vstd::seq_lib::group_to_multiset_ensures;

        assert(sorted.len() == sorted.to_multiset().len());
        assert(sorted.len() == readings.len());
        assert(sorted.contains(delay_ns));
        assert(sorted.to_multiset().count(delay_ns) > 0);
        assert(readings.to_multiset().count(delay_ns) > 0);
    }
}

/// A content round goes to remote candidates that have not acknowledged: a hedged one to every one of
/// them, and the first to the first `f`.
pub proof fn a_content_round_goes_to_those_that_lack_it(
    work: ContentWork,
    local: HostId,
    host: HostId,
)
    ensures
        work.aims(local).contains(host) ==> host != local && work.candidates@.contains(host)
            && !work.acked@.contains(host),
        work.hedged && host != local && work.candidates@.contains(host) && !work.acked@.contains(
            host,
        ) ==> work.aims(local).contains(host),
        !work.hedged ==> work.aims(local).len() <= work.quorum.f,
        !work.hedged && work.aims(local).len() < work.quorum.f && host != local
            && work.candidates@.contains(host) && !work.acked@.contains(host) ==> work.aims(
            local,
        ).contains(host),
{
    let remote = remote_lacking(work.candidates@, work.acked@, local);
    lemma_remote_lacking(work.candidates@, work.acked@, local, host);
    let aims = work.aims(local);
    if aims.contains(host) {
        let i = choose|i: int| 0 <= i < aims.len() && aims[i] == host;
        assert(remote[i] == host);
    }
    assert(lists(work.acked@, host) <==> work.acked@.contains(host)) by {
        if lists(work.acked@, host) {
            let i = choose|i: int| 0 <= i < work.acked@.len() && work.acked@[i] == host;
        }
        if work.acked@.contains(host) {
            let i = choose|i: int| 0 <= i < work.acked@.len() && work.acked@[i] == host;
            assert(work.acked@[i] == host);
        }
    }
}

/// The remote hosts that lack something are the candidates that are neither local nor listed.
proof fn lemma_remote_lacking(
    candidates: Seq<HostId>,
    acked: Seq<HostId>,
    local: HostId,
    host: HostId,
)
    ensures
        remote_lacking(candidates, acked, local).contains(host) <==> candidates.contains(host)
            && host != local && !lists(acked, host),
    decreases candidates.len(),
{
    reveal(Seq::filter);
    if candidates.len() > 0 {
        let rest = candidates.drop_last();
        let last = candidates.last();
        let before = remote_lacking(rest, acked, local);
        let after = remote_lacking(candidates, acked, local);
        lemma_remote_lacking(rest, acked, local, host);
        assert(after == (if last != local && !lists(acked, last) {
            before.push(last)
        } else {
            before
        }));
        vstd::seq_lib::lemma_seq_contains_after_push(before, last, host);
        vstd::seq_lib::lemma_seq_contains_after_push(rest, last, host);
        assert(rest.push(last) =~= candidates);
    }
}

/// A volume with a head that is not placed is offered for sealing at that head, and so is one that is
/// being healed; a seal of an older head is dropped, and so is one of a placed head that is not healed.
pub proof fn a_head_is_sealed_until_it_is_placed(
    seals: Seals,
    volume: SealVolume,
    head: Option<(SnapshotId, u64)>,
    later: Seals,
    other: u128,
)
    requires
        seals.offers(volume, head, later),
    ensures
        head matches Some(offered) ==> offered.0 == volume.head && offered.1 == volume.epoch
            && volume.epoch != 0,
        volume.epoch != 0 && !volume.placed ==> head is Some,
        volume.epoch == 0 ==> head is None && later.jobs@ == seals.jobs@,
        head is Some && volume.placed ==> seals.jobs@.contains_key(volume.object.0)
            && seals.jobs@[volume.object.0].healing,
        volume.epoch != 0 && later.jobs@.contains_key(volume.object.0)
            ==> later.jobs@[volume.object.0].snapshot == volume.head && (!volume.placed
            || later.jobs@[volume.object.0].healing),
        volume.epoch != 0 && seals.jobs@.contains_key(volume.object.0)
            && seals.jobs@[volume.object.0].snapshot == volume.head && (!volume.placed
            || seals.jobs@[volume.object.0].healing) ==> later.jobs@ == seals.jobs@ && head is Some,
        other != volume.object.0 ==> later.jobs@.contains_key(other) == seals.jobs@.contains_key(
            other,
        ) && (seals.jobs@.contains_key(other) ==> later.jobs@[other] == seals.jobs@[other]),
{
}

/// A seal begins at the volume's head with the owner's own copy alone, if the owner is a candidate; it
/// is walked before it is sent, and a walk that fails leaves nothing to send.
pub proof fn a_seal_begins_with_the_owners_copy(
    seals: Seals,
    volume: SealVolume,
    local: HostId,
    candidates: Seq<HostId>,
    walkable: bool,
    healing: bool,
    started: Result<(), Refused>,
    later: Seals,
    host: HostId,
)
    requires
        seals.starts(volume, local, candidates, walkable, healing, started, later),
    ensures
        started is Ok <==> walkable,
        !walkable ==> later.jobs@ == seals.jobs@ && started == Err::<(), Refused>(Refused::Seal),
        walkable ==> {
            let job = later.jobs@[volume.object.0];
            &&& later.jobs@.contains_key(volume.object.0)
            &&& job.snapshot == volume.head && job.sequence == volume.epoch
            &&& job.archiving && !job.archive && job.manifest is None
            &&& job.rounds == 0 && job.first_round_at_ns is None && job.healing == healing
            &&& job.content.candidates@ == candidates
            &&& lists(job.content.acked@, host) <==> host == local && lists(candidates, local)
            &&& job.content.acked@.len() <= 1
        },
{
    if walkable {
        let job = later.jobs@[volume.object.0];
        if lists(candidates, local) {
            assert(job.content.acked@[0] == local);
        }
    }
}

/// A walk is stepped until it ends: it ends with the manifest and the archive to send, or with
/// neither, and until then the seal stands as it did.
pub proof fn a_walk_ends_once(
    seals: Seals,
    object: ObjectId,
    walked: Walked,
    advanced: (bool, Option<Refused>),
    later: Seals,
)
    requires
        seals.advances(object, walked, advanced, later),
    ensures
        !seals.jobs@.contains_key(object.0) ==> !advanced.0 && later.jobs@ == seals.jobs@,
        advanced.1 is Some <==> walked is Failed && seals.jobs@.contains_key(object.0)
            && seals.jobs@[object.0].archiving,
        advanced.1 is Some ==> advanced.1 == Some(Refused::Seal),
        seals.jobs@.contains_key(object.0) ==> {
            let before = seals.jobs@[object.0];
            let job = later.jobs@[object.0];
            &&& later.jobs@.contains_key(object.0)
            &&& advanced.0 <==> !before.archiving || walked is Done
            &&& job.archiving <==> before.archiving && (walked is Gone || walked is More)
            &&& job.snapshot == before.snapshot && job.sequence == before.sequence
            &&& job.content == before.content && job.rounds == before.rounds
            &&& job.first_round_at_ns == before.first_round_at_ns && job.healing == before.healing
            &&& !before.archiving ==> job == before
            &&& before.archiving ==> {
                &&& walked matches Walked::Done(manifest) ==> job.archive && job.manifest == Some(
                    manifest,
                )
                &&& !(walked is Done) ==> job.archive == before.archive && job.manifest
                    == before.manifest
            }
        },
{
}

/// A round is sent while content is short of its quorum, there is an archive to send, and the delay
/// since the first round has passed; it takes the archive with it and speaks of the job's own snapshot.
pub proof fn content_is_sent_until_it_is_on_a_quorum(
    seals: Seals,
    object: ObjectId,
    quorum: Quorum,
    round: RoundBudget,
    now_ns: u64,
    work: Option<ContentWork>,
    later: Seals,
)
    requires
        seals.rounds(object, quorum, round, now_ns, work, later),
    ensures
        work is None ==> later.jobs@ == seals.jobs@,
        work is Some ==> seals.jobs@.contains_key(object.0),
        seals.jobs@.contains_key(object.0) ==> {
            let job = seals.jobs@[object.0];
            &&& job.content.acked@.len() > quorum.f ==> work is None
            &&& !job.archive ==> work is None
            &&& job.content.acked@.len() <= quorum.f && job.archive && job.first_round_at_ns is None
                ==> work is Some
            &&& job.content.acked@.len() <= quorum.f && job.archive && seals.latency@.len() == 0
                && job.first_round_at_ns is Some ==> (work is Some <==> now_ns
                >= job.first_round_at_ns->0 + 100_000_000)
            &&& work matches Some(sent) ==> {
                &&& sent.object == object && sent.snapshot == job.snapshot && sent.sequence
                    == job.sequence
                &&& sent.candidates@ == job.content.candidates@ && sent.acked@
                    == job.content.acked@
                &&& sent.quorum == quorum && sent.round == job.rounds
                &&& sent.hedged <==> job.first_round_at_ns is Some
                &&& later.jobs@.contains_key(object.0) && !later.jobs@[object.0].archive
                &&& later.jobs@[object.0].content == job.content
                &&& later.jobs@[object.0].manifest == job.manifest
            }
        },
{
}

/// A round's acknowledgements are added to the job they are for, and the archive comes back to it; the
/// round is counted as placed exactly when the copies outnumber the faults.
pub proof fn a_round_adds_its_acknowledgements(
    seals: Seals,
    work: ContentWork,
    put: ContentRound,
    later: Seals,
    host: HostId,
)
    requires
        seals.after_round(work, put, later),
        seals.jobs@.contains_key(work.object.0),
        seals.outcomes.placed < u64::MAX,
        seals.outcomes.short < u64::MAX,
    ensures
        ({
            let before = seals.jobs@[work.object.0];
            let job = later.jobs@[work.object.0];
            let ours = before.snapshot == work.snapshot;
            &&& !ours ==> later.jobs@ == seals.jobs@ && later.outcomes == seals.outcomes
                && later.repairs == seals.repairs
            &&& ours && put.acked is None ==> job.content.acked@ == before.content.acked@
                && job.archive && job.rounds == before.rounds && later.outcomes == seals.outcomes
                && later.repairs == seals.repairs
            &&& ours && put.acked is Some ==> {
                &&& lists(job.content.acked@, host) <==> lists(before.content.acked@, host)
                    || lists((put.acked->0)@, host)
                &&& job.archive
                &&& before.rounds < u32::MAX ==> job.rounds == before.rounds + 1
                &&& job.content.acked@.len() > work.quorum.f ==> later.outcomes.placed
                    == seals.outcomes.placed + 1 && later.outcomes.short == seals.outcomes.short
                &&& job.content.acked@.len() <= work.quorum.f ==> later.outcomes.short
                    == seals.outcomes.short + 1 && later.outcomes.placed == seals.outcomes.placed
                &&& !before.healing ==> later.repairs == seals.repairs
            }
            &&& ours ==> job.snapshot == before.snapshot && job.sequence == before.sequence
                && job.manifest == before.manifest && job.healing == before.healing
                && job.content.candidates == before.content.candidates
            &&& ours && before.first_round_at_ns is Some ==> job.first_round_at_ns
                == before.first_round_at_ns
            &&& ours && before.first_round_at_ns is None ==> job.first_round_at_ns == (if work.round
                == 0 {
                Some(put.dispatched_ns)
            } else {
                None
            })
        }),
{
    let before = seals.jobs@[work.object.0];
    if before.snapshot == work.snapshot && put.acked is Some {
        crate::head::acknowledgements_accumulate(before.content.acked@, (put.acked->0)@, host);
    }
}

/// Every refilled host that acknowledged is one repair, and no other is.
pub proof fn a_repair_is_a_refilled_acknowledgement(
    hosts: Seq<HostId>,
    others: Seq<HostId>,
    more: Seq<HostId>,
)
    ensures
        count_in(hosts + more, others) == count_in(hosts, others) + count_in(more, others),
        count_in(hosts, others) <= hosts.len(),
        (forall|i: int| 0 <= i < hosts.len() ==> lists(others, #[trigger] hosts[i])) ==> count_in(
            hosts,
            others,
        ) == hosts.len(),
        (forall|i: int| 0 <= i < hosts.len() ==> !lists(others, #[trigger] hosts[i])) ==> count_in(
            hosts,
            others,
        ) == 0,
    decreases hosts.len() + more.len(),
{
    if hosts.len() > 0 {
        let fewer = hosts.drop_last();
        a_repair_is_a_refilled_acknowledgement(fewer, others, Seq::empty());
        assert forall|i: int| 0 <= i < fewer.len() implies #[trigger] fewer[i] == hosts[i] by {}
        assert(hosts.last() == hosts[hosts.len() - 1]);
    }
    if more.len() > 0 {
        a_repair_is_a_refilled_acknowledgement(hosts, others, more.drop_last());
        assert((hosts + more).drop_last() =~= hosts + more.drop_last());
    } else {
        assert(hosts + more =~= hosts);
    }
}

/// Late acknowledgements are added to the seal they are bound to, of its candidates alone, and nothing
/// else of the job changes; each is one more reading.
pub proof fn late_content_counts_for_its_own_seal(
    seals: Seals,
    seal: LateSeal,
    acks: Seq<ContentAck>,
    latency_ns: u64,
    later: Seals,
    host: HostId,
)
    requires
        seals.after_late(seal, acks, latency_ns, later),
        seals.jobs@.contains_key(seal.object.0),
    ensures
        ({
            let before = seals.jobs@[seal.object.0];
            let job = later.jobs@[seal.object.0];
            let bound = exists|at: int|
                0 <= at < acks.len() && (#[trigger] acks[at]).holder == host && acks[at].object
                    == seal.object && acks[at].sequence == seal.sequence && acks[at].manifest@
                    == seal.manifest@;
            &&& before.snapshot != seal.snapshot ==> later.jobs@ == seals.jobs@
            &&& before.snapshot == seal.snapshot ==> {
                &&& lists(job.content.acked@, host) <==> lists(before.content.acked@, host) || (bound
                    && lists(before.content.candidates@, host))
                &&& job == (SealJob { content: job.content, ..before })
                &&& job.content.candidates == before.content.candidates
            }
            &&& later.outcomes == seals.outcomes && later.repairs == seals.repairs
        }),
{
    let before = seals.jobs@[seal.object.0];
    if before.snapshot == seal.snapshot {
        let holders = bound_to(seal, acks);
        let keep = |host: HostId| lists(before.content.candidates@, host);
        let kept = holders.filter(keep);
        crate::fleet::session::a_late_acknowledgement_is_bound_to_its_seal(seal, acks, host);
        lemma_kept(holders, before.content.candidates@, host);
        crate::head::acknowledgements_accumulate(before.content.acked@, kept, host);
        assert(later.jobs@[seal.object.0].content.acked@ == crate::head::with_acks(
            before.content.acked@,
            kept,
        ));
    }
}

/// The hosts kept of a list are those of it that are candidates.
proof fn lemma_kept(hosts: Seq<HostId>, candidates: Seq<HostId>, host: HostId)
    ensures
        lists(hosts.filter(|host: HostId| lists(candidates, host)), host) <==> hosts.contains(host)
            && lists(candidates, host),
{
    let keep = |host: HostId| lists(candidates, host);
    let kept = hosts.filter(keep);
    if lists(kept, host) {
        let i = choose|i: int| 0 <= i < kept.len() && kept[i] == host;
        assert(kept[i] == host);
        hosts.lemma_filter_pred(keep, i);
        hosts.lemma_filter_contains_rev(keep, host);
    }
    if hosts.contains(host) && lists(candidates, host) {
        let i = choose|i: int| 0 <= i < hosts.len() && hosts[i] == host;
        hosts.lemma_filter_contains(keep, i);
        let k = choose|k: int| 0 <= k < kept.len() && kept[k] == host;
        assert(kept[k] == host);
    }
}

/// A seal is recorded when its content and its head are each on more hosts than may fail and it has a
/// manifest: with the snapshot that was sealed, that manifest, and the hosts that acknowledged, in order.
pub proof fn a_seal_is_recorded_on_a_quorum(
    seals: Seals,
    object: ObjectId,
    head: Option<PlacedHead>,
    quorum: Quorum,
    record: Option<(SnapshotId, [u8; 32], Vec<u64>)>,
    at: int,
)
    requires
        seals.records(object, head, quorum, record),
    ensures
        record is Some <==> seals.jobs@.contains_key(object.0) && seals.jobs@[object.0].manifest
            is Some && seals.jobs@[object.0].content.acked@.len() > quorum.f && head is Some
            && (head->0).sequence == seals.jobs@[object.0].sequence
            && (head->0).placement.acked@.len() > quorum.f,
        record matches Some((snapshot, identity, region)) ==> {
            let job = seals.jobs@[object.0];
            &&& snapshot == job.snapshot
            &&& job.manifest == Some(identity)
            &&& region@.len() == job.content.acked@.len()
            &&& 0 <= at < region@.len() ==> region@[at] == job.content.acked@[at].0
        },
{
}

/// A step of the healer is taken a period after the last: it comes to the next placed volume that is
/// not being sealed, in the order of the objects and from the lowest again after the highest, and
/// leaves its mark there; without one it starts over.
pub proof fn the_healer_goes_round(
    seals: Seals,
    volumes: Seq<SealVolume>,
    now_ns: u64,
    next: Option<usize>,
    later: Seals,
    i: int,
)
    requires
        seals.heals(volumes, now_ns, next, later),
        0 <= i < volumes.len(),
    ensures
        later.jobs == seals.jobs && later.outcomes == seals.outcomes,
        next matches Some(at) ==> {
            let chosen = volumes[at as int];
            &&& 0 <= at < volumes.len()
            &&& chosen.epoch != 0 && chosen.placed && !seals.jobs@.contains_key(chosen.object.0)
            &&& later.healer.after == Some(chosen.object)
            &&& later.healer.last_step_ns == Some(now_ns)
            &&& seals.healer.last_step_ns matches Some(last) ==> now_ns - last >= 100_000_000
        },
        seals.healer.last_step_ns is None ==> later.healer.last_step_ns == Some(now_ns),
        seals.healer.last_step_ns matches Some(last) && now_ns - last >= 10_000_000_000
            ==> later.healer.last_step_ns == Some(now_ns),
        later.healer.last_step_ns == Some(now_ns) && later.healer != seals.healer
            && volumes[i].epoch != 0 && volumes[i].placed && !seals.jobs@.contains_key(
            volumes[i].object.0,
        ) ==> {
            let chosen = volumes[next->0 as int].object.0;
            let passed = volumes[i].object.0;
            &&& next is Some
            &&& seals.healer.after is None ==> chosen <= passed
            &&& seals.healer.after matches Some(mark) ==> {
                &&& passed > mark.0 ==> mark.0 < chosen <= passed
                &&& passed <= mark.0 && chosen <= mark.0 ==> chosen <= passed
            }
        },
{
    the_healer_rests_and_runs(seals.outcomes);
    assert(healable(volumes[i], seals.jobs@) == (volumes[i].epoch != 0 && volumes[i].placed
        && !seals.jobs@.contains_key(volumes[i].object.0)));
}

} // verus!
