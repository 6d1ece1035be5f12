//! Probing a peer: the deadline of each probe, the cadence between probes, and the indirect stage
//! in which other members reach a peer that a direct probe could not.

use crate::arith::{clamp_u64, larger, max_u64, min_u64, smaller, times};
use crate::daemon::{HEARTBEAT_NS, LIVENESS_BUDGET_NS};
use crate::ids::HostId;
use crate::table::{are_keys, keys_of};
use std::collections::BTreeMap;
use vstd::arithmetic::power2::pow2;
use vstd::prelude::*;
use vstd::std_specs::btree::*;

verus! {

broadcast use group_btree_axioms;

/// The infection factor of gossip, per bit of the neighbourhood's size.
pub const GOSSIP_PER_BIT: u32 = 2;

/// The base suspicion window, in protocol periods.
pub const SUSPICION_PERIODS: u32 = 2;

/// The local-health multiplier's cap, less one.
pub const LOCAL_HEALTH_CAP: u32 = 2;

/// How often a collection loop polls within one protocol period.
pub const POLL_PER_PERIOD: u64 = 10;

/// How many of a requester's own probes a relayed acknowledgement may lag and still be credited.
pub const INDIRECT_ACK_LAG_PROBES: u64 = 2;

/// Probes answered, and timer decisions that the measured scheduling delay made longer.
#[derive(Clone, Copy, Debug)]
pub struct ProbeWindows {
    /// Probes acknowledged by the member they addressed.
    pub acknowledged: u64,
    /// Probe budgets longer than the heartbeat floor alone gives.
    pub deadlines_dilated: u64,
    /// Sleeps between probes longer than the health multiplier alone gives.
    pub periods_dilated: u64,
    /// The largest measured quantum that lengthened one.
    pub largest_quantum_ns: u64,
}

impl Default for ProbeWindows {
    /// Nothing probed yet.
    fn default() -> (windows: ProbeWindows)
        ensures
            windows == (ProbeWindows {
                acknowledged: 0,
                deadlines_dilated: 0,
                periods_dilated: 0,
                largest_quantum_ns: 0,
            }),
    {
        ProbeWindows {
            acknowledged: 0,
            deadlines_dilated: 0,
            periods_dilated: 0,
            largest_quantum_ns: 0,
        }
    }
}

impl ProbeWindows {
    /// Counts an acknowledged probe; the counts saturate.
    pub fn count_acknowledged(&mut self)
        ensures
            *final(self) == (ProbeWindows {
                acknowledged: clamp_u64(old(self).acknowledged + 1),
                ..*old(self)
            }),
    {
        self.acknowledged = self.acknowledged.saturating_add(1);
    }
}

/// The bit length of a number: the least `bits` with `value < 2^bits`.
pub open spec fn bit_length(value: nat) -> nat
    decreases value,
{
    if value == 0 {
        0
    } else {
        1 + bit_length(value / 2)
    }
}

/// The bit length is where the powers of two pass the number.
proof fn lemma_bit_length(value: nat)
    ensures
        value < pow2(bit_length(value)),
        value > 0 ==> bit_length(value) >= 1 && pow2((bit_length(value) - 1) as nat) <= value,
    decreases value,
{
    vstd::arithmetic::power2::lemma2_to64();
    if value > 0 {
        lemma_bit_length(value / 2);
        vstd::arithmetic::power2::lemma_pow2_unfold(bit_length(value));
        if value / 2 > 0 {
            vstd::arithmetic::power2::lemma_pow2_unfold(bit_length(value / 2));
        }
    }
}

/// The bit length of a neighbourhood's size and one: the size term of every logarithmic budget.
pub open spec fn size_bits(neighbourhood: usize) -> nat {
    bit_length(crate::arith::clamp_usize(neighbourhood + 1) as nat)
}

/// The bit length of a neighbourhood's size and one.
pub fn neighbourhood_bits(neighbourhood: usize) -> (bits: u32)
    ensures
        bits == size_bits(neighbourhood),
        1 <= bits <= 64,
{
    let mut rest: usize = neighbourhood.saturating_add(1);
    let mut bits: u32 = 0;
    let ghost whole = bit_length(rest as nat);
    proof {
        lemma_bit_length(rest as nat);
        if whole > 64 {
            vstd::arithmetic::power2::lemma_pow2_strictly_increases(63, (whole - 1) as nat);
            vstd::arithmetic::power2::lemma2_to64();
            vstd::arithmetic::power2::lemma2_to64_rest();
            vstd::arithmetic::power2::lemma_pow2_unfold(64);
            if whole > 65 {
                vstd::arithmetic::power2::lemma_pow2_strictly_increases(64, (whole - 1) as nat);
            }
            assert(false);
        }
    }
    while rest > 0
        invariant
            bits + bit_length(rest as nat) == whole,
            whole <= 64,
        decreases rest,
    {
        rest = rest / 2;
        bits = bits + 1;
    }
    bits
}

/// How many relays a prober asks: the bit length of the neighbourhood's size and one.
pub fn indirect_fanout(neighbourhood: usize) -> (fanout: usize)
    ensures
        fanout == size_bits(neighbourhood),
        fanout >= 1,
{
    neighbourhood_bits(neighbourhood) as usize
}

/// The failure detector's timing for a neighbourhood.
#[derive(Clone, Copy, Debug, PartialEq, Eq, Structural)]
pub struct DetectorTiming {
    pub suspicion_periods: u32,
    pub gossip_transmits: u32,
    pub health_max: u32,
    pub suspicion_min: u32,
    pub confirmations_expected: u32,
}

/// The detector's timing in a neighbourhood.
pub open spec fn timing_of(neighbourhood: usize) -> DetectorTiming {
    DetectorTiming {
        suspicion_periods: SUSPICION_PERIODS,
        gossip_transmits: (size_bits(neighbourhood) * GOSSIP_PER_BIT) as u32,
        health_max: LOCAL_HEALTH_CAP,
        suspicion_min: SUSPICION_PERIODS,
        confirmations_expected: size_bits(neighbourhood) as u32,
    }
}

/// The failure detector's timing for a neighbourhood: gossip is rebroadcast with the logarithm of
/// its size, and the confirmation curve is off.
pub fn detector_timing(neighbourhood: usize) -> (timing: DetectorTiming)
    ensures
        timing == timing_of(neighbourhood),
{
    let bits: u32 = neighbourhood_bits(neighbourhood);
    DetectorTiming {
        suspicion_periods: SUSPICION_PERIODS,
        gossip_transmits: bits * GOSSIP_PER_BIT,
        health_max: LOCAL_HEALTH_CAP,
        suspicion_min: SUSPICION_PERIODS,
        confirmations_expected: bits,
    }
}

/// The scheduler's quantum: the heartbeat, or the measured scheduling delay when that is longer.
pub open spec fn quantum(overrun_ns: u64) -> u64 {
    larger(HEARTBEAT_NS as int, overrun_ns as int) as u64
}

/// The scheduler's quantum: the heartbeat, or the measured scheduling delay when that is longer.
pub fn scheduler_quantum_ns(overrun_ns: u64) -> (quantum_ns: u64)
    ensures
        quantum_ns == quantum(overrun_ns),
{
    max_u64(HEARTBEAT_NS, overrun_ns)
}

/// A probe's timing law for one peer: how many probes in a row it has missed.
#[derive(Clone, Copy, Debug)]
pub struct ProbeTiming {
    pub consecutive_misses: u32,
}

/// The doubling of a wait over the misses in a row; past the word's width it is the largest wait.
pub open spec fn backoff(misses: u32) -> u64 {
    if misses < 64 {
        pow2(misses as nat) as u64
    } else {
        u64::MAX
    }
}

/// A probe's deadline: the path's tail, or the initial timeout before any sample, at least a
/// quantum, doubled per miss, and at most the liveness budget or the quantum.
pub open spec fn probe_deadline(
    misses: u32,
    path_tail_ns: Option<u64>,
    initial_ns: u64,
    quantum_ns: u64,
) -> u64 {
    let base = larger(
        (match path_tail_ns {
            Some(tail) => tail,
            None => initial_ns,
        }) as int,
        quantum_ns as int,
    );
    smaller(
        clamp_u64(base * backoff(misses)) as int,
        larger(LIVENESS_BUDGET_NS as int, quantum_ns as int),
    ) as u64
}

/// The budget of one probe: its deadline and how often its reply is polled for.
#[derive(Clone, Copy, Debug, PartialEq, Eq, Structural)]
pub struct ProbeBudget {
    pub deadline_ns: u64,
    pub poll_ns: u64,
}

impl ProbeTiming {
    /// No misses.
    pub fn new() -> (timing: ProbeTiming)
        ensures
            timing.consecutive_misses == 0,
    {
        ProbeTiming { consecutive_misses: 0 }
    }

    /// A probe's deadline at a quantum.
    pub fn deadline_at_quantum(
        &self,
        path_tail_ns: Option<u64>,
        initial_ns: u64,
        quantum_ns: u64,
    ) -> (deadline_ns: u64)
        ensures
            deadline_ns == probe_deadline(
                self.consecutive_misses,
                path_tail_ns,
                initial_ns,
                quantum_ns,
            ),
    {
        let measured: u64 = match path_tail_ns {
            Some(tail) => tail,
            None => initial_ns,
        };
        let base: u64 = max_u64(measured, quantum_ns);
        let doubled: u64 = doubling(self.consecutive_misses);
        min_u64(times(base, doubled), max_u64(LIVENESS_BUDGET_NS, quantum_ns))
    }

    /// A probe's deadline at the measured quantum.
    pub fn deadline_ns(
        &self,
        path_tail_ns: Option<u64>,
        initial_ns: u64,
        overrun_ns: u64,
    ) -> (deadline_ns: u64)
        ensures
            deadline_ns == probe_deadline(
                self.consecutive_misses,
                path_tail_ns,
                initial_ns,
                quantum(overrun_ns),
            ),
    {
        self.deadline_at_quantum(path_tail_ns, initial_ns, scheduler_quantum_ns(overrun_ns))
    }

    /// Whether `budget` and `after` are what one exchange is given, and counted as.
    pub open spec fn budgets(
        &self,
        path_tail_ns: Option<u64>,
        initial_ns: u64,
        overrun_ns: u64,
        before: ProbeWindows,
        budget: ProbeBudget,
        after: ProbeWindows,
    ) -> bool {
        &&& budget == (ProbeBudget {
            deadline_ns: probe_deadline(
                self.consecutive_misses,
                path_tail_ns,
                initial_ns,
                quantum(overrun_ns),
            ),
            poll_ns: HEARTBEAT_NS / POLL_PER_PERIOD,
        })
        &&& after == (if budget.deadline_ns > probe_deadline(
            self.consecutive_misses,
            path_tail_ns,
            initial_ns,
            HEARTBEAT_NS,
        ) {
            ProbeWindows {
                deadlines_dilated: clamp_u64(before.deadlines_dilated + 1),
                largest_quantum_ns: larger(
                    before.largest_quantum_ns as int,
                    quantum(overrun_ns) as int,
                ) as u64,
                ..before
            }
        } else {
            before
        })
    }

    /// The budget for this probe. A deadline the measured quantum made longer is counted.
    pub fn budget(
        &self,
        path_tail_ns: Option<u64>,
        initial_ns: u64,
        overrun_ns: u64,
        windows: &mut ProbeWindows,
    ) -> (budget: ProbeBudget)
        ensures
            self.budgets(
                path_tail_ns,
                initial_ns,
                overrun_ns,
                *old(windows),
                budget,
                *final(windows),
            ),
    {
        let deadline: u64 = self.deadline_ns(path_tail_ns, initial_ns, overrun_ns);
        if deadline > self.deadline_at_quantum(path_tail_ns, initial_ns, HEARTBEAT_NS) {
            windows.deadlines_dilated = windows.deadlines_dilated.saturating_add(1);
            windows.largest_quantum_ns = max_u64(
                windows.largest_quantum_ns,
                scheduler_quantum_ns(overrun_ns),
            );
        }
        ProbeBudget { deadline_ns: deadline, poll_ns: HEARTBEAT_NS / POLL_PER_PERIOD }
    }

    /// The probe was acknowledged: the backoff starts over.
    pub fn acknowledged(&mut self)
        ensures
            final(self).consecutive_misses == 0,
    {
        self.consecutive_misses = 0;
    }

    /// The probe timed out: one more miss in a row.
    pub fn missed(&mut self)
        ensures
            final(self).consecutive_misses == crate::arith::clamp_u32(
                old(self).consecutive_misses + 1,
            ),
    {
        self.consecutive_misses = self.consecutive_misses.saturating_add(1);
    }
}

/// Two to the misses in a row; the largest number past the word's width.
fn doubling(misses: u32) -> (factor: u64)
    ensures
        factor == backoff(misses),
{
    if misses >= 64 {
        return u64::MAX;
    }
    let mut factor: u64 = 1;
    let mut i: u32 = 0;
    proof {
        vstd::arithmetic::power2::lemma2_to64();
        vstd::arithmetic::power2::lemma2_to64_rest();
    }
    while i < misses
        invariant
            i <= misses < 64,
            factor == pow2(i as nat),
            pow2(63) == 0x8000_0000_0000_0000,
        decreases misses - i,
    {
        proof {
            vstd::arithmetic::power2::lemma_pow2_unfold((i + 1) as nat);
            if i + 1 < 63 {
                vstd::arithmetic::power2::lemma_pow2_strictly_increases((i + 1) as nat, 63);
            }
        }
        factor = factor * 2;
        i += 1;
    }
    proof {
        if misses < 63 {
            vstd::arithmetic::power2::lemma_pow2_strictly_increases(misses as nat, 63);
        }
    }
    factor
}

/// Silence is waited for longer, never past the cap: a further miss never shortens the deadline,
/// the deadline is never below the quantum, and an acknowledgement takes the wait back to its
/// start.
pub proof fn the_deadline_is_backed_off_and_capped(
    misses: u32,
    path_tail_ns: Option<u64>,
    initial_ns: u64,
    quantum_ns: u64,
)
    requires
        misses < u32::MAX,
    ensures
        probe_deadline(misses, path_tail_ns, initial_ns, quantum_ns) <= probe_deadline(
            (misses + 1) as u32,
            path_tail_ns,
            initial_ns,
            quantum_ns,
        ),
        quantum_ns <= probe_deadline(misses, path_tail_ns, initial_ns, quantum_ns) <= larger(
            LIVENESS_BUDGET_NS as int,
            quantum_ns as int,
        ),
{
    let base = larger(
        (match path_tail_ns {
            Some(tail) => tail,
            None => initial_ns,
        }) as int,
        quantum_ns as int,
    );
    vstd::arithmetic::power2::lemma2_to64();
    let now = backoff(misses) as int;
    let next = backoff((misses + 1) as u32) as int;
    assert(pow2(63) == 0x8000_0000_0000_0000) by {
        vstd::arithmetic::power2::lemma2_to64_rest();
    }
    if misses < 63 {
        vstd::arithmetic::power2::lemma_pow2_strictly_increases(misses as nat, (misses + 1) as nat);
        if misses + 1 < 63 {
            vstd::arithmetic::power2::lemma_pow2_strictly_increases((misses + 1) as nat, 63);
        }
        if misses > 0 {
            vstd::arithmetic::power2::lemma_pow2_strictly_increases(0, misses as nat);
        }
    } else if misses == 63 {
    }
    assert(1 <= now <= next);
    assert(base * now <= base * next && base <= base * now) by (nonlinear_arith)
        requires
            base >= 0,
            1 <= now <= next,
    ;
}

/// The wait before the next probe of a peer: a beat per step of the local health, or the quantum
/// when that is longer.
pub open spec fn probe_period(health_multiplier: u32, overrun_ns: u64) -> u64 {
    larger(HEARTBEAT_NS * health_multiplier, quantum(overrun_ns) as int) as u64
}

/// Whether `period_ns` and `after` are a probe's period, and how it is counted.
pub open spec fn periods(
    health_multiplier: u32,
    overrun_ns: u64,
    before: ProbeWindows,
    period_ns: u64,
    after: ProbeWindows,
) -> bool {
    &&& period_ns == probe_period(health_multiplier, overrun_ns)
    &&& after == (if quantum(overrun_ns) > HEARTBEAT_NS * health_multiplier {
        ProbeWindows {
            periods_dilated: clamp_u64(before.periods_dilated + 1),
            largest_quantum_ns: larger(
                before.largest_quantum_ns as int,
                quantum(overrun_ns) as int,
            ) as u64,
            ..before
        }
    } else {
        before
    })
}

/// The wait before the next probe of a peer: a beat per step of the local health, or the quantum
/// when that is longer, which is then counted.
pub fn probe_period_ns(
    health_multiplier: u32,
    overrun_ns: u64,
    windows: &mut ProbeWindows,
) -> (period_ns: u64)
    ensures
        periods(health_multiplier, overrun_ns, *old(windows), period_ns, *final(windows)),
{
    let health_period: u64 = HEARTBEAT_NS * health_multiplier as u64;
    let quantum_ns: u64 = scheduler_quantum_ns(overrun_ns);
    if quantum_ns > health_period {
        windows.periods_dilated = windows.periods_dilated.saturating_add(1);
        windows.largest_quantum_ns = max_u64(windows.largest_quantum_ns, quantum_ns);
    }
    max_u64(health_period, quantum_ns)
}

/// The slowest of the measured paths, if any is measured.
pub open spec fn slowest(tails: Seq<Option<u64>>) -> Option<u64>
    decreases tails.len(),
{
    if tails.len() == 0 {
        None
    } else {
        match (slowest(tails.drop_last()), tails.last()) {
            (Some(a), Some(b)) => Some(larger(a as int, b as int) as u64),
            (Some(a), None) => Some(a),
            (None, last) => last,
        }
    }
}

/// The slowest measured peer path, if any is measured: what bounds a round to any set of peers.
pub fn slowest_path_tail_ns(tails: &Vec<Option<u64>>) -> (tail: Option<u64>)
    ensures
        tail == slowest(tails@),
{
    let mut worst: Option<u64> = None;
    let mut i: usize = 0;
    while i < tails.len()
        invariant
            i <= tails@.len(),
            worst == slowest(tails@.take(i as int)),
        decreases tails@.len() - i,
    {
        proof {
            assert(tails@.take(i + 1).drop_last() =~= tails@.take(i as int));
            assert(tails@.take(i + 1).last() == tails@[i as int]);
        }
        let tail: Option<u64> = tails[i];
        worst = match worst {
            Some(a) => match tail {
                Some(b) => Some(max_u64(a, b)),
                None => Some(a),
            },
            None => tail,
        };
        i += 1;
    }
    assert(tails@.take(i as int) =~= tails@);
    worst
}

/// The traffic of the indirect stage between this node's probe tasks and its serve side: the
/// requests it asks relays to carry, the asks it carries as a relay, the answers it owes, and the
/// acknowledgements relays brought back. A newer request for a pair replaces the older, so no queue
/// grows with time.
#[derive(Debug)]
pub struct IndirectProbes {
    /// Requests posted, by relay: the target and the probe's nonce.
    pub outgoing: BTreeMap<u64, BTreeMap<u64, u64>>,
    /// Asks received as a relay, by target: the requester and its probe's nonce.
    pub asks: BTreeMap<u64, BTreeMap<u64, u64>>,
    /// Answers owed as a relay, by requester: the target reached and the requester's nonce.
    pub results: BTreeMap<u64, BTreeMap<u64, u64>>,
    /// Relayed acknowledgements, by target: the latest nonce a relay reached it for.
    pub acks: BTreeMap<u64, u64>,
}

/// The contents of queues.
pub open spec fn queues(table: Map<u64, BTreeMap<u64, u64>>) -> Map<u64, Map<u64, u64>> {
    table.map_values(|queue: BTreeMap<u64, u64>| queue@)
}

/// The queue of a key; an absent one is empty.
pub open spec fn queue_of(table: Map<u64, Map<u64, u64>>, key: u64) -> Map<u64, u64> {
    if table.contains_key(key) {
        table[key]
    } else {
        Map::empty()
    }
}

/// Queues after a nonce was posted under a key for a subject.
pub open spec fn posted(
    table: Map<u64, Map<u64, u64>>,
    key: u64,
    subject: u64,
    nonce: u64,
) -> Map<u64, Map<u64, u64>> {
    table.insert(key, queue_of(table, key).insert(subject, nonce))
}

/// Posts a nonce under a key for a subject.
fn post(table: &mut BTreeMap<u64, BTreeMap<u64, u64>>, key: u64, subject: u64, nonce: u64)
    ensures
        queues(final(table)@) == posted(queues(old(table)@), key, subject, nonce),
{
    let mut queue = match table.remove(&key) {
        Some(queue) => queue,
        None => BTreeMap::new(),
    };
    assert(queue@ =~= queue_of(queues(old(table)@), key));
    queue.insert(subject, nonce);
    table.insert(key, queue);
    assert(queues(table@) =~= posted(queues(old(table)@), key, subject, nonce));
}

/// Whether anything is queued under a key.
fn has_queue(table: &BTreeMap<u64, BTreeMap<u64, u64>>, key: u64) -> (has: bool)
    ensures
        has == !queue_of(queues(table@), key).is_empty(),
{
    match table.get(&key) {
        Some(queue) => !queue.is_empty(),
        None => false,
    }
}

/// The indirect stage's contents.
pub struct IndirectFacts {
    pub outgoing: Map<u64, Map<u64, u64>>,
    pub asks: Map<u64, Map<u64, u64>>,
    pub results: Map<u64, Map<u64, u64>>,
    pub acks: Map<u64, u64>,
}

impl View for IndirectProbes {
    type V = IndirectFacts;

    open spec fn view(&self) -> IndirectFacts {
        IndirectFacts {
            outgoing: queues(self.outgoing@),
            asks: queues(self.asks@),
            results: queues(self.results@),
            acks: self.acks@,
        }
    }
}

impl IndirectFacts {
    /// Whether traffic awaits a peer's probe task.
    pub open spec fn pending(self, peer: u64) -> bool {
        ||| !queue_of(self.outgoing, peer).is_empty()
        ||| !queue_of(self.results, peer).is_empty()
        ||| !queue_of(self.asks, peer).is_empty()
        ||| self.acks.contains_key(peer)
    }

    /// The answers owed once a target was reached: each requester is answered with its own nonce.
    pub open spec fn answered(
        results: Map<u64, Map<u64, u64>>,
        asks: Map<u64, u64>,
        target: u64,
        requesters: Seq<u64>,
    ) -> Map<u64, Map<u64, u64>>
        decreases requesters.len(),
    {
        if requesters.len() == 0 {
            results
        } else {
            let requester = requesters.last();
            posted(
                IndirectFacts::answered(results, asks, target, requesters.drop_last()),
                requester,
                target,
                asks[requester],
            )
        }
    }

    /// The requests posted for a target, one per relay.
    pub open spec fn requested(
        outgoing: Map<u64, Map<u64, u64>>,
        relays: Seq<HostId>,
        target: u64,
        nonce: u64,
    ) -> Map<u64, Map<u64, u64>>
        decreases relays.len(),
    {
        if relays.len() == 0 {
            outgoing
        } else {
            posted(
                IndirectFacts::requested(outgoing, relays.drop_last(), target, nonce),
                relays.last().0,
                target,
                nonce,
            )
        }
    }
}

/// A message a probe task carries for the indirect stage before its own probe.
#[derive(Clone, Copy, Debug, PartialEq, Eq, Structural)]
pub enum IndirectMessage {
    /// Ask the peer to reach a target.
    PingRequest { target: HostId, nonce: u64 },
    /// Tell the peer that a target it asked about was reached.
    IndirectAck { target: HostId, nonce: u64 },
}

impl IndirectProbes {
    /// Nothing queued.
    pub fn new() -> (probes: IndirectProbes)
        ensures
            probes@ == (IndirectFacts {
                outgoing: Map::empty(),
                asks: Map::empty(),
                results: Map::empty(),
                acks: Map::empty(),
            }),
    {
        let probes = IndirectProbes {
            outgoing: BTreeMap::new(),
            asks: BTreeMap::new(),
            results: BTreeMap::new(),
            acks: BTreeMap::new(),
        };
        proof {
            assert(probes@.outgoing =~= Map::<u64, Map<u64, u64>>::empty());
            assert(probes@.asks =~= Map::<u64, Map<u64, u64>>::empty());
            assert(probes@.results =~= Map::<u64, Map<u64, u64>>::empty());
        }
        probes
    }

    /// Whether traffic awaits the probe task of `peer`: a request to send it, an answer to carry to
    /// it, an ask to probe it for, or a relayed acknowledgement to credit.
    pub fn traffic_pending_for(&self, peer: HostId) -> (pending: bool)
        ensures
            pending == self@.pending(peer.0),
    {
        has_queue(&self.outgoing, peer.0) || has_queue(&self.results, peer.0) || has_queue(
            &self.asks,
            peer.0,
        ) || self.acks.contains_key(&peer.0)
    }

    /// Forgets everything queued for a retired peer.
    pub fn forget(&mut self, peer: HostId)
        ensures
            final(self)@ == (IndirectFacts {
                outgoing: old(self)@.outgoing.remove(peer.0),
                asks: old(self)@.asks.remove(peer.0),
                results: old(self)@.results.remove(peer.0),
                acks: old(self)@.acks.remove(peer.0),
            }),
            !final(self)@.pending(peer.0),
    {
        self.outgoing.remove(&peer.0);
        self.asks.remove(&peer.0);
        self.results.remove(&peer.0);
        self.acks.remove(&peer.0);
        proof {
            assert(self@.outgoing =~= old(self)@.outgoing.remove(peer.0));
            assert(self@.asks =~= old(self)@.asks.remove(peer.0));
            assert(self@.results =~= old(self)@.results.remove(peer.0));
        }
    }

    /// Whether `posted_ask` and `after` are what a peer's request to reach another makes of this.
    pub open spec fn asks_relay(
        &self,
        announced: Option<HostId>,
        from: HostId,
        target: HostId,
        nonce: u64,
        contact: bool,
        posted_ask: bool,
        after: IndirectFacts,
    ) -> bool {
        &&& posted_ask == (announced == Some(from) && contact && target != from)
        &&& after == (if posted_ask {
            IndirectFacts {
                asks: posted(self@.asks, target.0, from.0, nonce),
                ..self@
            }
        } else {
            self@
        })
    }

    /// A request to reach `target` arrived on a session whose anchor currently announces
    /// `announced`: it is posted when its sender is that member and its target another member this
    /// node keeps direct contact with, and refused otherwise.
    pub fn receive_ping_request(
        &mut self,
        announced: Option<HostId>,
        from: HostId,
        target: HostId,
        nonce: u64,
        contact: bool,
    ) -> (posted_ask: bool)
        ensures
            old(self).asks_relay(
                announced,
                from,
                target,
                nonce,
                contact,
                posted_ask,
                final(self)@,
            ),
    {
        let sender = match announced {
            Some(announced) => announced == from,
            None => false,
        };
        if !sender || !contact || target == from {
            return false;
        }
        post(&mut self.asks, target.0, from.0, nonce);
        true
    }

    /// Whether `kept` and `after` are what a relay's answer makes of this.
    pub open spec fn hears_relay(
        &self,
        target: HostId,
        nonce: u64,
        contact: bool,
        kept: bool,
        after: IndirectFacts,
    ) -> bool {
        &&& kept == contact
        &&& after == (if contact {
            IndirectFacts {
                acks: self@.acks.insert(
                    target.0,
                    if self@.acks.contains_key(target.0) {
                        larger(self@.acks[target.0] as int, nonce as int) as u64
                    } else {
                        nonce
                    },
                ),
                ..self@
            }
        } else {
            self@
        })
    }

    /// A relay's answer arrived about this node's probe of `target`: the latest nonce is kept for a
    /// peer this node probes, and an answer about any other is refused.
    pub fn receive_indirect_ack(&mut self, target: HostId, nonce: u64, contact: bool) -> (kept:
        bool)
        ensures
            old(self).hears_relay(target, nonce, contact, kept, final(self)@),
    {
        if !contact {
            return false;
        }
        let latest: u64 = match self.acks.get(&target.0) {
            Some(known) => max_u64(*known, nonce),
            None => nonce,
        };
        self.acks.insert(target.0, latest);
        true
    }

    /// Whether `credited` and `after` are what crediting a relayed answer makes of this.
    pub open spec fn credits(&self, peer: HostId, nonce: u64, credited: bool, after: IndirectFacts) -> bool {
        &&& credited == (self@.acks.contains_key(peer.0) && nonce
            - self@.acks[peer.0] <= INDIRECT_ACK_LAG_PROBES)
        &&& after == (IndirectFacts { acks: self@.acks.remove(peer.0), ..self@ })
    }

    /// Takes a relay's answer about this node's probe of `peer`, before the tick that would resolve
    /// it: credited when it lags the probe about to be sent by no more than the suspicion window.
    pub fn credit_relayed_answer(&mut self, peer: HostId, nonce: u64) -> (credited: bool)
        ensures
            old(self).credits(peer, nonce, credited, final(self)@),
    {
        match self.acks.remove(&peer.0) {
            Some(relayed) => nonce.saturating_sub(relayed) <= INDIRECT_ACK_LAG_PROBES,
            None => {
                assert(self.acks@ =~= old(self).acks@.remove(peer.0));
                false
            },
        }
    }

    /// A direct probe of `target` went unanswered: asks each relay to reach it.
    pub fn begin_indirect_stage(&mut self, target: HostId, nonce: u64, relays: &Vec<HostId>)
        ensures
            final(self)@ == (IndirectFacts {
                outgoing: IndirectFacts::requested(
                    old(self)@.outgoing,
                    relays@,
                    target.0,
                    nonce,
                ),
                ..old(self)@
            }),
    {
        let mut i: usize = 0;
        while i < relays.len()
            invariant
                i <= relays@.len(),
                self@ == (IndirectFacts {
                    outgoing: IndirectFacts::requested(
                        old(self)@.outgoing,
                        relays@.take(i as int),
                        target.0,
                        nonce,
                    ),
                    ..old(self)@
                }),
            decreases relays@.len() - i,
        {
            proof {
                assert(relays@.take(i + 1).drop_last() =~= relays@.take(i as int));
                assert(relays@.take(i + 1).last() == relays@[i as int]);
            }
            post(&mut self.outgoing, relays[i].0, target.0, nonce);
            i += 1;
        }
        assert(relays@.take(i as int) =~= relays@);
    }

    /// Whether `requesters` and `after` are what reaching a target makes of this.
    pub open spec fn answers_asks(&self, target: HostId, requesters: Seq<u64>, after: IndirectFacts) -> bool {
        ({
            let asks = queue_of(self@.asks, target.0);
            &&& are_keys(asks, requesters)
            &&& after == (IndirectFacts {
                asks: self@.asks.remove(target.0),
                results: IndirectFacts::answered(
                    self@.results,
                    asks,
                    target.0,
                    requesters,
                ),
                ..self@
            })
        })
    }

    /// This node, as a relay, heard `target` acknowledge: every requester that asked about it gets
    /// its answer posted. Returns the requesters, whose probe tasks are to be woken.
    pub fn answer_relay_asks(&mut self, target: HostId) -> (requesters: Vec<u64>)
        ensures
            old(self).answers_asks(target, requesters@, final(self)@),
    {
        let ghost before = self@;
        let asks = match self.asks.remove(&target.0) {
            Some(asks) => asks,
            None => {
                proof {
                    assert(self.asks@ =~= old(self).asks@);
                    assert(before.asks =~= before.asks.remove(target.0));
                }
                return Vec::new();
            },
        };
        proof {
            assert(asks@ == queue_of(before.asks, target.0));
            assert(self@.asks =~= before.asks.remove(target.0));
        }
        let requesters = keys_of(&asks);
        let mut i: usize = 0;
        while i < requesters.len()
            invariant
                i <= requesters@.len(),
                are_keys(asks@, requesters@),
                self@ == (IndirectFacts {
                    asks: before.asks.remove(target.0),
                    results: IndirectFacts::answered(
                        before.results,
                        asks@,
                        target.0,
                        requesters@.take(i as int),
                    ),
                    ..before
                }),
            decreases requesters@.len() - i,
        {
            let requester: u64 = requesters[i];
            proof {
                assert(requesters@.take(i + 1).drop_last() =~= requesters@.take(i as int));
                assert(requesters@.take(i + 1).last() == requester);
                assert(asks@.contains_key(requesters@[i as int]));
            }
            if let Some(nonce) = asks.get(&requester) {
                post(&mut self.results, requester, target.0, *nonce);
            }
            i += 1;
        }
        assert(requesters@.take(i as int) =~= requesters@);
        requesters
    }

    /// Whether `messages` and `after` are what taking a peer's traffic makes of this.
    pub open spec fn takes_traffic(&self, peer: HostId, messages: Seq<IndirectMessage>, after: IndirectFacts) -> bool {
        &&& after == (IndirectFacts {
            outgoing: self@.outgoing.remove(peer.0),
            results: self@.results.remove(peer.0),
            ..self@
        })
        &&& ({
            let requests = queue_of(self@.outgoing, peer.0);
            let answers = queue_of(self@.results, peer.0);
            exists|targets: Seq<u64>, reached: Seq<u64>|
                #![trigger are_keys(requests, targets), are_keys(answers, reached)]
                are_keys(requests, targets) && are_keys(answers, reached) && messages
                    == targets.map_values(
                    |target: u64|
                        IndirectMessage::PingRequest {
                            target: HostId(target),
                            nonce: requests[target],
                        },
                ) + reached.map_values(
                    |target: u64|
                        IndirectMessage::IndirectAck {
                            target: HostId(target),
                            nonce: answers[target],
                        },
                )
        })
    }

    /// Takes what this node's probe task carries to `peer` before its own probe: the requests it is
    /// to relay, then the answers it is owed.
    pub fn take_traffic(&mut self, peer: HostId) -> (messages: Vec<IndirectMessage>)
        ensures
            old(self).takes_traffic(peer, messages@, final(self)@),
    {
        let ghost before = self@;
        let requests = match self.outgoing.remove(&peer.0) {
            Some(queue) => queue,
            None => BTreeMap::new(),
        };
        let answers = match self.results.remove(&peer.0) {
            Some(queue) => queue,
            None => BTreeMap::new(),
        };
        proof {
            assert(requests@ =~= queue_of(before.outgoing, peer.0));
            assert(answers@ =~= queue_of(before.results, peer.0));
            assert(self@.outgoing =~= before.outgoing.remove(peer.0));
            assert(self@.results =~= before.results.remove(peer.0));
        }
        let mut messages: Vec<IndirectMessage> = Vec::new();
        let targets = keys_of(&requests);
        let mut i: usize = 0;
        while i < targets.len()
            invariant
                i <= targets@.len(),
                are_keys(requests@, targets@),
                messages@.len() == i,
                forall|j: int|
                    0 <= j < i ==> #[trigger] messages@[j] == (IndirectMessage::PingRequest {
                        target: HostId(targets@[j]),
                        nonce: requests@[targets@[j]],
                    }),
            decreases targets@.len() - i,
        {
            let target: u64 = targets[i];
            assert(requests@.contains_key(targets@[i as int]));
            if let Some(nonce) = requests.get(&target) {
                messages.push(
                    IndirectMessage::PingRequest { target: HostId(target), nonce: *nonce },
                );
            }
            i += 1;
        }
        let ghost sent = messages@;
        let ghost first = targets@.map_values(
            |target: u64|
                IndirectMessage::PingRequest { target: HostId(target), nonce: requests@[target] },
        );
        assert(sent =~= first);
        let reached = keys_of(&answers);
        let mut k: usize = 0;
        while k < reached.len()
            invariant
                k <= reached@.len(),
                are_keys(answers@, reached@),
                messages@.len() == sent.len() + k,
                forall|j: int| 0 <= j < sent.len() ==> messages@[j] == sent[j],
                forall|j: int|
                    0 <= j < k ==> #[trigger] messages@[sent.len() + j] == (
                    IndirectMessage::IndirectAck {
                        target: HostId(reached@[j]),
                        nonce: answers@[reached@[j]],
                    }),
            decreases reached@.len() - k,
        {
            let target: u64 = reached[k];
            assert(answers@.contains_key(reached@[k as int]));
            if let Some(nonce) = answers.get(&target) {
                messages.push(
                    IndirectMessage::IndirectAck { target: HostId(target), nonce: *nonce },
                );
            }
            k += 1;
        }
        proof {
            let second = reached@.map_values(
                |target: u64|
                    IndirectMessage::IndirectAck {
                        target: HostId(target),
                        nonce: answers@[target],
                    },
            );
            assert(messages@ =~= first + second) by {
                assert forall|at: int| 0 <= at < messages@.len() implies messages@[at] == (first
                    + second)[at] by {
                    if at >= sent.len() {
                        assert(messages@[sent.len() + (at - sent.len())] == second[at
                            - sent.len()]);
                    }
                }
            }
        }
        messages
    }
}

/// A peer that could relay a probe, with its distance to the target where both coordinates are
/// known: the distance's rank among distances, an integer that orders as the distances do.
#[derive(Clone, Copy, Debug, PartialEq, Eq, Structural)]
pub struct RelayCandidate {
    pub host: HostId,
    pub distance: Option<u64>,
}

/// Whether one candidate is asked before another: the nearer first, an unknown distance last, ties
/// in id order.
pub open spec fn asked_before(a: RelayCandidate, b: RelayCandidate) -> bool {
    match (a.distance, b.distance) {
        (Some(x), Some(y)) => x < y || (x == y && a.host.0 <= b.host.0),
        (Some(_), None) => true,
        (None, Some(_)) => false,
        (None, None) => a.host.0 <= b.host.0,
    }
}

/// Whether `order` is `candidates` in asking order.
pub open spec fn in_asking_order(
    candidates: Seq<RelayCandidate>,
    order: Seq<RelayCandidate>,
) -> bool {
    &&& order.to_multiset() == candidates.to_multiset()
    &&& forall|i: int, j: int| 0 <= i <= j < order.len() ==> asked_before(order[i], order[j])
}

/// Whether one candidate is asked before another.
fn comes_before(a: &RelayCandidate, b: &RelayCandidate) -> (before: bool)
    ensures
        before == asked_before(*a, *b),
{
    match a.distance {
        Some(x) => match b.distance {
            Some(y) => x < y || (x == y && a.host.0 <= b.host.0),
            None => true,
        },
        None => match b.distance {
            Some(_) => false,
            None => a.host.0 <= b.host.0,
        },
    }
}

/// Whether `relays` are those to ask among the candidates.
pub open spec fn are_relays(candidates: Seq<RelayCandidate>, fanout: usize, relays: Seq<HostId>) -> bool {
    exists|order: Seq<RelayCandidate>| #[trigger]
        in_asking_order(candidates, order) && relays == order.take(
            smaller(fanout as int, order.len() as int),
        ).map_values(|candidate: RelayCandidate| candidate.host)
}

/// The relays a requester asks, at most `fanout`: the candidates nearest the target first.
pub fn indirect_relays(candidates: &Vec<RelayCandidate>, fanout: usize) -> (relays: Vec<HostId>)
    ensures
        are_relays(candidates@, fanout, relays@),
{
    let mut order: Vec<RelayCandidate> = Vec::new();
    let mut i: usize = 0;
    proof {
        assert(candidates@.take(0) =~= Seq::<RelayCandidate>::empty());
        assert(order@ =~= candidates@.take(0));
    }
    while i < candidates.len()
        invariant
            i <= candidates@.len(),
            in_asking_order(candidates@.take(i as int), order@),
            order@.len() == i,
        decreases candidates@.len() - i,
    {
        let candidate = candidates[i];
        let mut at: usize = 0;
        while at < order.len() && comes_before(&order[at], &candidate)
            invariant
                at <= order@.len(),
                forall|j: int| 0 <= j < at ==> asked_before(#[trigger] order@[j], candidate),
            decreases order@.len() - at,
        {
            at += 1;
        }
        let ghost before = order@;
        order.insert(at, candidate);
        proof {
            broadcast use vstd::seq_lib::group_to_multiset_ensures;

            assert(order@ == before.insert(at as int, candidate));
            before.insert_ensures(at as int, candidate);
            vstd::seq_lib::to_multiset_insert(before, at as int, candidate);
            assert(candidates@.take(i + 1) =~= candidates@.take(i as int).push(candidate));
            assert(order@.to_multiset() =~= candidates@.take(i + 1).to_multiset());
            assert forall|x: int, y: int| 0 <= x <= y < order@.len() implies asked_before(
                order@[x],
                order@[y],
            ) by {
                if x < at && y > at {
                    assert(order@[x] == before[x]);
                    assert(order@[y] == before[y - 1]);
                } else if x < at && y == at {
                    assert(asked_before(before[x], candidate));
                } else if x == at && y > at {
                    assert(order@[y] == before[y - 1]);
                    assert(!asked_before(before[at as int], candidate));
                    assert(asked_before(before[at as int], before[y - 1]));
                }
            }
        }
        i += 1;
    }
    assert(candidates@.take(i as int) =~= candidates@);
    let mut relays: Vec<HostId> = Vec::new();
    let mut k: usize = 0;
    while k < order.len() && k < fanout
        invariant
            k <= order@.len(),
            k <= fanout,
            relays@.len() == k,
            forall|j: int| 0 <= j < k ==> relays@[j] == (#[trigger] order@[j]).host,
        decreases order@.len() - k,
    {
        relays.push(order[k].host);
        k += 1;
    }
    proof {
        let count = smaller(fanout as int, order@.len() as int);
        assert(relays@ =~= order@.take(count).map_values(
            |candidate: RelayCandidate| candidate.host,
        ));
        assert(in_asking_order(candidates@, order@));
    }
    relays
}

/// A node asks as many relays, and gossips twice as often, as its neighbourhood with itself has bits;
/// it suspects for two periods, and its own ill health stretches that at most by two more.
pub proof fn the_detector_grows_with_the_bits_of_its_neighbourhood(neighbourhood: usize)
    requires
        neighbourhood < usize::MAX,
    ensures
        ({
            let bits = size_bits(neighbourhood);
            let timing = timing_of(neighbourhood);
            &&& bits >= 1
            &&& pow2((bits - 1) as nat) <= neighbourhood + 1 < pow2(bits)
            &&& bits <= u32::MAX / 2 ==> timing.gossip_transmits == 2 * bits
                && timing.confirmations_expected == bits
            &&& timing.suspicion_periods == 2
            &&& timing.suspicion_min == 2
            &&& timing.health_max == 2
        }),
{
    lemma_bit_length((neighbourhood + 1) as nat);
}

/// A probe first waits for the path's measured tail, or the configured wait before any measurement,
/// and never less than the scheduler's quantum, each further miss in a row doubles the wait, and a
/// second, or the quantum, ends it.
pub proof fn a_probe_waits_twice_as_long_after_each_miss(
    misses: u32,
    path_tail_ns: Option<u64>,
    initial_ns: u64,
    quantum_ns: u64,
)
    requires
        misses < 30,
    ensures
        ({
            let first = match path_tail_ns {
                Some(tail) => tail,
                None => initial_ns,
            };
            let start = if first >= quantum_ns {
                first
            } else {
                quantum_ns
            };
            let cap: int = if quantum_ns > 1_000_000_000 {
                quantum_ns as int
            } else {
                1_000_000_000
            };
            let now = probe_deadline(misses, path_tail_ns, initial_ns, quantum_ns);
            let next = probe_deadline((misses + 1) as u32, path_tail_ns, initial_ns, quantum_ns);
            &&& probe_deadline(0, path_tail_ns, initial_ns, quantum_ns) == (if start <= cap {
                start as int
            } else {
                cap
            })
            &&& now < cap ==> next == (if 2 * now <= cap {
                2 * now
            } else {
                cap
            })
            &&& now == cap ==> next == cap
        }),
{
    let first = match path_tail_ns {
        Some(tail) => tail,
        None => initial_ns,
    };
    let base = larger(first as int, quantum_ns as int);
    vstd::arithmetic::power2::lemma2_to64();
    vstd::arithmetic::power2::lemma_pow2_unfold((misses + 1) as nat);
    vstd::arithmetic::power2::lemma_pow2_strictly_increases((misses + 1) as nat, 32);
    vstd::arithmetic::power2::lemma_pow2_strictly_increases(misses as nat, 32);
    let now = pow2(misses as nat) as int;
    let next = pow2((misses + 1) as nat) as int;
    assert(base * next == 2 * (base * now)) by (nonlinear_arith)
        requires
            next == 2 * now,
    ;
    assert(base * now >= 0) by (nonlinear_arith)
        requires
            base >= 0,
            now >= 0,
    ;
    assert(base * 1 == base) by (nonlinear_arith);
}

/// A node that the scheduler held back waits longer, and says so: a deadline or a period that its
/// measured overrun lengthened is counted once, with the longest quantum seen, and no other is.
pub proof fn a_dilated_wait_is_counted(
    timing: ProbeTiming,
    path_tail_ns: Option<u64>,
    initial_ns: u64,
    overrun_ns: u64,
    health_multiplier: u32,
    before: ProbeWindows,
    budget: ProbeBudget,
    exchanged: ProbeWindows,
    period_ns: u64,
    rested: ProbeWindows,
)
    requires
        timing.budgets(path_tail_ns, initial_ns, overrun_ns, before, budget, exchanged),
        periods(health_multiplier, overrun_ns, before, period_ns, rested),
        before.deadlines_dilated < u64::MAX,
        before.periods_dilated < u64::MAX,
    ensures
        budget.poll_ns == 10_000_000,
        budget.deadline_ns >= overrun_ns || overrun_ns < 100_000_000,
        budget.deadline_ns >= 100_000_000,
        overrun_ns <= 100_000_000 ==> exchanged == before,
        exchanged != before ==> exchanged.deadlines_dilated == before.deadlines_dilated + 1
            && exchanged.largest_quantum_ns >= overrun_ns && exchanged.largest_quantum_ns
            >= before.largest_quantum_ns,
        exchanged.acknowledged == before.acknowledged,
        exchanged.periods_dilated == before.periods_dilated,
        period_ns >= 100_000_000,
        period_ns >= overrun_ns,
        overrun_ns <= 100_000_000 * health_multiplier && health_multiplier >= 1 ==> period_ns
            == 100_000_000 * health_multiplier && rested == before,
        overrun_ns > 100_000_000 * health_multiplier && overrun_ns >= 100_000_000 ==> period_ns
            == overrun_ns && rested.periods_dilated == before.periods_dilated + 1
            && rested.largest_quantum_ns >= overrun_ns,
        rested.acknowledged == before.acknowledged,
        rested.deadlines_dilated == before.deadlines_dilated,
{
    if timing.consecutive_misses < u32::MAX {
        the_deadline_is_backed_off_and_capped(
            timing.consecutive_misses,
            path_tail_ns,
            initial_ns,
            quantum(overrun_ns),
        );
    } else {
        the_deadline_is_backed_off_and_capped(
            (timing.consecutive_misses - 1) as u32,
            path_tail_ns,
            initial_ns,
            quantum(overrun_ns),
        );
    }
}

/// The slowest path is one of those measured, and none is slower.
pub proof fn the_slowest_path_is_measured(tails: Seq<Option<u64>>, at: int)
    ensures
        match slowest(tails) {
            Some(tail) => tails.contains(Some(tail)),
            None => !(exists|i: int| 0 <= i < tails.len() && (#[trigger] tails[i]) is Some),
        },
        0 <= at < tails.len() && tails[at] is Some ==> slowest(tails) is Some && (slowest(tails)->0)
            >= (tails[at]->0),
    decreases tails.len(),
{
    if tails.len() > 0 {
        let shorter = tails.drop_last();
        let last = tails.len() - 1;
        the_slowest_path_is_measured(shorter, at);
        assert(tails[last] == tails.last());
        if let Some(tail) = slowest(shorter) {
            let k = choose|k: int| 0 <= k < shorter.len() && shorter[k] == Some(tail);
            assert(tails[k] == Some(tail));
        } else {
            assert forall|i: int| 0 <= i < last implies (#[trigger] tails[i]) is None by {
                assert(shorter[i] is None);
            }
        }
    }
}

/// A request to reach a peer is taken up from the requester itself, for a target this node is in
/// contact with and that is not the requester; it then waits for that target under the requester's own
/// nonce, and the other requests stay.
pub proof fn a_relay_takes_up_a_requesters_own_ask(
    probes: IndirectProbes,
    announced: Option<HostId>,
    from: HostId,
    target: HostId,
    nonce: u64,
    contact: bool,
    posted_ask: bool,
    after: IndirectFacts,
)
    requires
        probes.asks_relay(announced, from, target, nonce, contact, posted_ask, after),
    ensures
        posted_ask <==> announced == Some(from) && contact && target != from,
        posted_ask ==> after.asks.contains_key(target.0) && after.asks[target.0].contains_key(from.0)
            && after.asks[target.0][from.0] == nonce,
        !posted_ask ==> after == probes@,
        after.outgoing == probes@.outgoing,
        after.results == probes@.results,
        after.acks == probes@.acks,
{
}

/// What answering the asks of a target posts, for each requester in the list.
proof fn lemma_answered(
    results: Map<u64, Map<u64, u64>>,
    asks: Map<u64, u64>,
    target: u64,
    requesters: Seq<u64>,
    requester: u64,
)
    ensures
        ({
            let after = IndirectFacts::answered(results, asks, target, requesters);
            &&& requesters.contains(requester) ==> after.contains_key(requester)
                && after[requester].contains_key(target) && after[requester][target]
                == asks[requester]
            &&& !requesters.contains(requester) ==> after.contains_key(requester)
                == results.contains_key(requester) && (results.contains_key(requester)
                ==> after[requester] == results[requester])
        }),
    decreases requesters.len(),
{
    if requesters.len() > 0 {
        let shorter = requesters.drop_last();
        lemma_answered(results, asks, target, shorter, requester);
        assert(requesters =~= shorter.push(requesters.last()));
        if requesters.contains(requester) && requester != requesters.last() {
            let k = choose|k: int| 0 <= k < requesters.len() && requesters[k] == requester;
            assert(shorter[k] == requester);
        }
        if shorter.contains(requester) {
            let k = choose|k: int| 0 <= k < shorter.len() && shorter[k] == requester;
            assert(requesters[k] == requester);
        }
    }
}

/// A relay that reached its target answers everyone who asked, and nobody else: each gets an answer
/// about that target under the nonce it asked with, and is told once.
pub proof fn a_relay_answers_everyone_who_asked(
    probes: IndirectProbes,
    target: HostId,
    requesters: Seq<u64>,
    after: IndirectFacts,
    requester: u64,
)
    requires
        probes.answers_asks(target, requesters, after),
    ensures
        ({
            let asked = probes@.asks.contains_key(target.0) && probes@.asks[target.0].contains_key(
                requester,
            );
            &&& requesters.contains(requester) == asked
            &&& asked ==> after.results.contains_key(requester)
                && after.results[requester].contains_key(target.0)
                && after.results[requester][target.0] == probes@.asks[target.0][requester]
            &&& !asked ==> after.results.contains_key(requester) == probes@.results.contains_key(
                requester,
            ) && (probes@.results.contains_key(requester) ==> after.results[requester]
                == probes@.results[requester])
            &&& !after.asks.contains_key(target.0)
            &&& after.outgoing == probes@.outgoing
            &&& after.acks == probes@.acks
        }),
{
    let asks = queue_of(probes@.asks, target.0);
    lemma_answered(probes@.results, asks, target.0, requesters, requester);
    if requesters.contains(requester) {
        let k = choose|k: int| 0 <= k < requesters.len() && requesters[k] == requester;
        assert(asks.contains_key(requesters[k]));
    }
}

/// An answer a relay brought is kept for its target, the newest of them, while the peer is in
/// contact; it is credited once, and only to a probe at most two after the one it answers.
pub proof fn a_relayed_answer_is_credited_once(
    probes: IndirectProbes,
    target: HostId,
    nonce: u64,
    contact: bool,
    kept: bool,
    heard: IndirectFacts,
    probe: u64,
    credited: bool,
    after: IndirectFacts,
)
    requires
        probes.hears_relay(target, nonce, contact, kept, heard),
        probes.credits(target, probe, credited, after),
    ensures
        kept == contact,
        contact ==> heard.acks.contains_key(target.0) && heard.acks[target.0] >= nonce,
        contact && !probes@.acks.contains_key(target.0) ==> heard.acks[target.0] == nonce,
        contact && probes@.acks.contains_key(target.0) ==> heard.acks[target.0]
            >= probes@.acks[target.0] && (heard.acks[target.0] == nonce || heard.acks[target.0]
            == probes@.acks[target.0]),
        !contact ==> heard == probes@,
        heard.asks == probes@.asks && heard.results == probes@.results && heard.outgoing
            == probes@.outgoing,
        credited <==> probes@.acks.contains_key(target.0) && probe <= probes@.acks[target.0] + 2,
        !after.acks.contains_key(target.0),
        after.asks == probes@.asks && after.results == probes@.results && after.outgoing
            == probes@.outgoing,
{
}

/// Which relays are asked, and with what.
proof fn lemma_requested(
    outgoing: Map<u64, Map<u64, u64>>,
    relays: Seq<HostId>,
    target: u64,
    nonce: u64,
    relay: HostId,
)
    ensures
        ({
            let after = IndirectFacts::requested(outgoing, relays, target, nonce);
            &&& crate::ids::lists(relays, relay) ==> after.contains_key(relay.0)
                && after[relay.0].contains_key(target) && after[relay.0][target] == nonce
            &&& !crate::ids::lists(relays, relay) ==> after.contains_key(relay.0)
                == outgoing.contains_key(relay.0) && (outgoing.contains_key(relay.0)
                ==> after[relay.0] == outgoing[relay.0])
        }),
    decreases relays.len(),
{
    if relays.len() > 0 {
        let shorter = relays.drop_last();
        lemma_requested(outgoing, shorter, target, nonce, relay);
        assert(relays =~= shorter.push(relays.last()));
        crate::fleet::council::lemma_lists_push(shorter, relays.last(), relay);
        assert(HostId(relay.0) == relay && HostId(relays.last().0) == relays.last());
    }
}

/// Every relay chosen is asked to reach the silent peer under the probe's own nonce, and no other
/// node is.
pub proof fn every_chosen_relay_is_asked(
    outgoing: Map<u64, Map<u64, u64>>,
    relays: Seq<HostId>,
    target: u64,
    nonce: u64,
    relay: HostId,
)
    ensures
        ({
            let after = IndirectFacts::requested(outgoing, relays, target, nonce);
            &&& relays.contains(relay) ==> after.contains_key(relay.0)
                && after[relay.0].contains_key(target) && after[relay.0][target] == nonce
            &&& !relays.contains(relay) ==> after.contains_key(relay.0) == outgoing.contains_key(
                relay.0,
            )
        }),
{
    lemma_requested(outgoing, relays, target, nonce, relay);
}

/// Taking a peer's traffic hands out every request it is to relay and every answer it is owed, each
/// with its nonce, and leaves none of them behind.
pub proof fn a_peers_traffic_is_handed_out(
    probes: IndirectProbes,
    peer: HostId,
    messages: Seq<IndirectMessage>,
    after: IndirectFacts,
    target: HostId,
)
    requires
        probes.takes_traffic(peer, messages, after),
    ensures
        ({
            let requests = queue_of(probes@.outgoing, peer.0);
            let answers = queue_of(probes@.results, peer.0);
            &&& requests.contains_key(target.0) ==> messages.contains(
                IndirectMessage::PingRequest { target, nonce: requests[target.0] },
            )
            &&& answers.contains_key(target.0) ==> messages.contains(
                IndirectMessage::IndirectAck { target, nonce: answers[target.0] },
            )
            &&& !after.outgoing.contains_key(peer.0)
            &&& !after.results.contains_key(peer.0)
            &&& after.asks == probes@.asks
            &&& after.acks == probes@.acks
        }),
{
    let requests = queue_of(probes@.outgoing, peer.0);
    let answers = queue_of(probes@.results, peer.0);
    let (targets, reached) = choose|targets: Seq<u64>, reached: Seq<u64>|
        #![trigger are_keys(requests, targets), are_keys(answers, reached)]
        are_keys(requests, targets) && are_keys(answers, reached) && messages
            == targets.map_values(
            |target: u64|
                IndirectMessage::PingRequest { target: HostId(target), nonce: requests[target] },
        ) + reached.map_values(
            |target: u64|
                IndirectMessage::IndirectAck { target: HostId(target), nonce: answers[target] },
        );
    if requests.contains_key(target.0) {
        let k = choose|k: int| 0 <= k < targets.len() && targets[k] == target.0;
        assert(messages[k] == (IndirectMessage::PingRequest {
            target,
            nonce: requests[target.0],
        }));
    }
    if answers.contains_key(target.0) {
        let k = choose|k: int| 0 <= k < reached.len() && reached[k] == target.0;
        assert(messages[targets.len() + k] == (IndirectMessage::IndirectAck {
            target,
            nonce: answers[target.0],
        }));
    }
}

/// Whether a host is among the candidates.
pub open spec fn is_candidate(candidates: Seq<RelayCandidate>, host: HostId) -> bool {
    exists|k: int| 0 <= k < candidates.len() && (#[trigger] candidates[k]).host == host
}

/// The relays asked are candidates, as many as the fanout allows, and nobody left out is nearer than
/// one that is asked.
pub proof fn the_nearest_relays_are_asked(
    candidates: Seq<RelayCandidate>,
    fanout: usize,
    relays: Seq<HostId>,
)
    requires
        are_relays(candidates, fanout, relays),
    ensures
        relays.len() == (if fanout <= candidates.len() {
            fanout as nat
        } else {
            candidates.len()
        }),
        forall|i: int| 0 <= i < relays.len() ==> is_candidate(candidates, #[trigger] relays[i]),
        forall|k: int|
            0 <= k < candidates.len() && !relays.contains((#[trigger] candidates[k]).host)
                ==> forall|i: int|
                0 <= i < relays.len() ==> exists|j: int|
                    0 <= j < candidates.len() && (#[trigger] candidates[j]).host
                        == #[trigger] relays[i] && (match (
                        candidates[j].distance,
                        candidates[k].distance,
                    ) {
                        (Some(near), Some(far)) => near <= far,
                        (None, Some(_)) => false,
                        _ => true,
                    }),
{
    let order = choose|order: Seq<RelayCandidate>| #[trigger]
        in_asking_order(candidates, order) && relays == order.take(
            smaller(fanout as int, order.len() as int),
        ).map_values(|candidate: RelayCandidate| candidate.host);
    vstd::seq_lib::to_multiset_len(order);
    vstd::seq_lib::to_multiset_len(candidates);
    assert forall|i: int| 0 <= i < relays.len() implies is_candidate(
        candidates,
        #[trigger] relays[i],
    ) by {
        vstd::seq_lib::to_multiset_contains(order, order[i]);
        vstd::seq_lib::to_multiset_contains(candidates, order[i]);
        assert(order.contains(order[i]));
        let k = choose|k: int| 0 <= k < candidates.len() && candidates[k] == order[i];
        assert(candidates[k].host == relays[i]);
    }
    assert forall|k: int|
        0 <= k < candidates.len() && !relays.contains((#[trigger] candidates[k]).host) implies (
    forall|i: int|
        0 <= i < relays.len() ==> exists|j: int|
            0 <= j < candidates.len() && (#[trigger] candidates[j]).host == #[trigger] relays[i] && (
            match (candidates[j].distance, candidates[k].distance) {
                (Some(near), Some(far)) => near <= far,
                (None, Some(_)) => false,
                _ => true,
            })) by {
        vstd::seq_lib::to_multiset_contains(candidates, candidates[k]);
        vstd::seq_lib::to_multiset_contains(order, candidates[k]);
        assert(candidates.contains(candidates[k]));
        let place = choose|place: int| 0 <= place < order.len() && order[place] == candidates[k];
        assert(place >= relays.len()) by {
            if place < relays.len() {
                assert(relays[place] == candidates[k].host);
            }
        }
        assert forall|i: int| 0 <= i < relays.len() implies exists|j: int|
            0 <= j < candidates.len() && (#[trigger] candidates[j]).host == #[trigger] relays[i] && (
            match (candidates[j].distance, candidates[k].distance) {
                (Some(near), Some(far)) => near <= far,
                (None, Some(_)) => false,
                _ => true,
            }) by {
            vstd::seq_lib::to_multiset_contains(order, order[i]);
            vstd::seq_lib::to_multiset_contains(candidates, order[i]);
            assert(order.contains(order[i]));
            let j = choose|j: int| 0 <= j < candidates.len() && candidates[j] == order[i];
            assert(asked_before(order[i], order[place]));
            assert(candidates[j].host == relays[i]);
        }
    }
}

/// An ask that is taken up leaves every other ask as it was.
pub proof fn a_taken_ask_leaves_the_others(
    probes: IndirectProbes,
    announced: Option<HostId>,
    from: HostId,
    target: HostId,
    nonce: u64,
    contact: bool,
    posted_ask: bool,
    after: IndirectFacts,
    other: u64,
    requester: u64,
)
    requires
        probes.asks_relay(announced, from, target, nonce, contact, posted_ask, after),
        other != target.0 || requester != from.0,
    ensures
        ({
            let held = probes@.asks.contains_key(other) && probes@.asks[other].contains_key(requester);
            &&& (after.asks.contains_key(other) && after.asks[other].contains_key(requester)) == held
            &&& held ==> after.asks[other][requester] == probes@.asks[other][requester]
        }),
{
}

/// An answered target's asks are gone and every other target's are as they were.
pub proof fn an_answer_leaves_the_other_asks(
    probes: IndirectProbes,
    target: HostId,
    requesters: Seq<u64>,
    after: IndirectFacts,
    other: u64,
)
    requires
        probes.answers_asks(target, requesters, after),
        other != target.0,
    ensures
        after.asks.contains_key(other) == probes@.asks.contains_key(other),
        probes@.asks.contains_key(other) ==> after.asks[other] == probes@.asks[other],
{
}

/// What is handed out for a peer is what was queued for it and nothing else, the requests before the
/// answers; what is queued for other peers stays.
pub proof fn a_peer_is_handed_its_own_traffic(
    probes: IndirectProbes,
    peer: HostId,
    messages: Seq<IndirectMessage>,
    after: IndirectFacts,
    at: int,
    other: u64,
)
    requires
        probes.takes_traffic(peer, messages, after),
        other != peer.0,
    ensures
        0 <= at < messages.len() ==> match messages[at] {
            IndirectMessage::PingRequest { target, nonce } => probes@.outgoing.contains_key(peer.0)
                && probes@.outgoing[peer.0].contains_key(target.0)
                && probes@.outgoing[peer.0][target.0] == nonce,
            IndirectMessage::IndirectAck { target, nonce } => probes@.results.contains_key(peer.0)
                && probes@.results[peer.0].contains_key(target.0)
                && probes@.results[peer.0][target.0] == nonce,
        },
        after.outgoing.contains_key(other) == probes@.outgoing.contains_key(other),
        probes@.outgoing.contains_key(other) ==> after.outgoing[other] == probes@.outgoing[other],
        after.results.contains_key(other) == probes@.results.contains_key(other),
        probes@.results.contains_key(other) ==> after.results[other] == probes@.results[other],
{
    let requests = queue_of(probes@.outgoing, peer.0);
    let answers = queue_of(probes@.results, peer.0);
    let (targets, reached) = choose|targets: Seq<u64>, reached: Seq<u64>|
        #![trigger are_keys(requests, targets), are_keys(answers, reached)]
        are_keys(requests, targets) && are_keys(answers, reached) && messages
            == targets.map_values(
            |target: u64|
                IndirectMessage::PingRequest { target: HostId(target), nonce: requests[target] },
        ) + reached.map_values(
            |target: u64|
                IndirectMessage::IndirectAck { target: HostId(target), nonce: answers[target] },
        );
    if 0 <= at < targets.len() {
        assert(requests.contains_key(targets[at]));
        assert(messages[at] == (IndirectMessage::PingRequest {
            target: HostId(targets[at]),
            nonce: requests[targets[at]],
        }));
    } else if targets.len() <= at < messages.len() {
        let k = at - targets.len();
        assert(answers.contains_key(reached[k]));
        assert(messages[at] == (IndirectMessage::IndirectAck {
            target: HostId(reached[k]),
            nonce: answers[reached[k]],
        }));
    }
}

/// Traffic is pending for a peer exactly when a request, an answer or an ask is queued for it or an
/// acknowledgement of it is held.
pub proof fn queued_traffic_is_pending(facts: IndirectFacts, peer: u64, key: u64)
    ensures
        facts.outgoing.contains_key(peer) && facts.outgoing[peer].contains_key(key) ==> facts.pending(
            peer,
        ),
        facts.results.contains_key(peer) && facts.results[peer].contains_key(key) ==> facts.pending(
            peer,
        ),
        facts.asks.contains_key(peer) && facts.asks[peer].contains_key(key) ==> facts.pending(peer),
        facts.acks.contains_key(peer) ==> facts.pending(peer),
        !facts.outgoing.contains_key(peer) && !facts.results.contains_key(peer)
            && !facts.asks.contains_key(peer) && !facts.acks.contains_key(peer) ==> !facts.pending(
            peer,
        ),
{
    assert(Map::<u64, u64>::empty().dom() =~= Set::<u64>::empty());
}

/// Hearing of a peer and crediting it touch no other peer's acknowledgement.
pub proof fn an_acknowledgement_is_of_one_peer(
    probes: IndirectProbes,
    target: HostId,
    nonce: u64,
    contact: bool,
    kept: bool,
    heard: IndirectFacts,
    probe: u64,
    credited: bool,
    after: IndirectFacts,
    other: u64,
)
    requires
        probes.hears_relay(target, nonce, contact, kept, heard),
        probes.credits(target, probe, credited, after),
        other != target.0,
    ensures
        heard.acks.contains_key(other) == probes@.acks.contains_key(other),
        after.acks.contains_key(other) == probes@.acks.contains_key(other),
        probes@.acks.contains_key(other) ==> heard.acks[other] == probes@.acks[other]
            && after.acks[other] == probes@.acks[other],
{
}

} // verus!
