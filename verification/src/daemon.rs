//! The daemon: the order it starts and stops in, what each shard is set up with, how clients are
//! admitted, and what its observers answer.

use crate::arith::{clamp_u16, clamp_u64, clamp_usize, larger, smaller, times, times_size};
use crate::config::{DaemonConfig, FleetMembership, ScatterInputs, IDLE_WINDOW_RATIO};
use crate::consensus::ConsensusRefusal;
use crate::digest::{blake3_keyed_digest, id_of_digest, keyed_hash, leading_id};
use crate::error::ServerError;
use crate::fleet::membership::{lookup, ContactSets, MemberState};
use crate::ids::{HostEpoch, HostId, ObjectId, Quorum, RegionId};
use crate::table::{are_keys, keys_of};
use crate::text::{decimal, push_decimal};
use std::collections::{BTreeMap, BTreeSet};
use vstd::prelude::*;
use vstd::std_specs::btree::*;
use vstd::string::{StrSliceExecFns, StringExecFns};

verus! {

broadcast use group_btree_axioms;

/// The beat every control-shard loop runs at: a tenth of the liveness budget.
pub const HEARTBEAT_NS: u64 = 100_000_000;

/// How long a peer may be silent before it is asked about.
pub const LIVENESS_BUDGET_NS: u64 = 1_000_000_000;

/// How long an observation has, from its submission to its answer: ten liveness budgets.
pub const OBSERVE_BUDGET_NS: u64 = 10 * LIVENESS_BUDGET_NS;

/// The recovery image's slots per shard: the committed image, and the one being written.
pub const PUBLISH_SLOTS: usize = 2;

/// A span source that reports to the health plane.
#[derive(Clone, Copy, Debug, PartialEq, Eq, Structural)]
pub enum Chokepoint {
    BridgeRequest,
    RingRequest,
    ShardOp,
    LogAppend,
    ShipRecord,
    ConsensusStep,
    ArchiveChunk,
    LandEntry,
    MergeVerdict,
}

impl Chokepoint {
    /// The chokepoint's dotted name.
    pub open spec fn named(self) -> &'static str {
        match self {
            Chokepoint::BridgeRequest => "bridge.request",
            Chokepoint::RingRequest => "ring.request",
            Chokepoint::ShardOp => "shard.op",
            Chokepoint::LogAppend => "log.append",
            Chokepoint::ShipRecord => "ship.record",
            Chokepoint::ConsensusStep => "consensus.step",
            Chokepoint::ArchiveChunk => "archive.chunk",
            Chokepoint::LandEntry => "land.entry",
            Chokepoint::MergeVerdict => "merge.verdict",
        }
    }

    /// The chokepoint's dotted name.
    pub fn name(self) -> (name: &'static str)
        ensures
            name == self.named(),
    {
        match self {
            Chokepoint::BridgeRequest => "bridge.request",
            Chokepoint::RingRequest => "ring.request",
            Chokepoint::ShardOp => "shard.op",
            Chokepoint::LogAppend => "log.append",
            Chokepoint::ShipRecord => "ship.record",
            Chokepoint::ConsensusStep => "consensus.step",
            Chokepoint::ArchiveChunk => "archive.chunk",
            Chokepoint::LandEntry => "land.entry",
            Chokepoint::MergeVerdict => "merge.verdict",
        }
    }
}

/// Every chokepoint, in roster order.
pub open spec fn roster() -> Seq<Chokepoint> {
    seq![
        Chokepoint::BridgeRequest,
        Chokepoint::RingRequest,
        Chokepoint::ShardOp,
        Chokepoint::LogAppend,
        Chokepoint::ShipRecord,
        Chokepoint::ConsensusStep,
        Chokepoint::ArchiveChunk,
        Chokepoint::LandEntry,
        Chokepoint::MergeVerdict,
    ]
}

/// The chokepoints that registered their emitter.
#[derive(Debug)]
pub struct ChokepointRegistry {
    registered: Vec<Chokepoint>,
}

impl View for ChokepointRegistry {
    type V = Seq<Chokepoint>;

    closed spec fn view(&self) -> Seq<Chokepoint> {
        self.registered@
    }
}

/// Every chokepoint, in roster order.
fn full_roster() -> (list: Vec<Chokepoint>)
    ensures
        list@ == roster(),
{
    let mut list: Vec<Chokepoint> = Vec::new();
    list.push(Chokepoint::BridgeRequest);
    list.push(Chokepoint::RingRequest);
    list.push(Chokepoint::ShardOp);
    list.push(Chokepoint::LogAppend);
    list.push(Chokepoint::ShipRecord);
    list.push(Chokepoint::ConsensusStep);
    list.push(Chokepoint::ArchiveChunk);
    list.push(Chokepoint::LandEntry);
    list.push(Chokepoint::MergeVerdict);
    assert(list@ =~= roster());
    list
}

impl ChokepointRegistry {
    /// None registered.
    pub fn new() -> (registry: ChokepointRegistry)
        ensures
            registry@ == Seq::<Chokepoint>::empty(),
    {
        ChokepointRegistry { registered: Vec::new() }
    }

    /// Registers a chokepoint.
    pub fn register(&mut self, chokepoint: Chokepoint)
        ensures
            final(self)@ == old(self)@.push(chokepoint),
    {
        self.registered.push(chokepoint);
    }

    /// Whether a chokepoint registered.
    fn has(&self, chokepoint: Chokepoint) -> (found: bool)
        ensures
            found == self@.contains(chokepoint),
    {
        let mut i: usize = 0;
        while i < self.registered.len()
            invariant
                i <= self.registered@.len(),
                forall|j: int| 0 <= j < i ==> self.registered@[j] != chokepoint,
            decreases self.registered@.len() - i,
        {
            if self.registered[i] == chokepoint {
                assert(self.registered@[i as int] == chokepoint);
                return true;
            }
            i += 1;
        }
        false
    }

    /// The chokepoints that have not registered, in roster order.
    pub fn missing(&self) -> (missing: Vec<Chokepoint>)
        ensures
            missing@ == roster().filter(|chokepoint: Chokepoint| !self@.contains(chokepoint)),
    {
        let all = full_roster();
        let mut missing: Vec<Chokepoint> = Vec::new();
        let mut i: usize = 0;
        proof {
            reveal(Seq::filter);
            assert(missing@ =~= roster().take(0).filter(
                |chokepoint: Chokepoint| !self@.contains(chokepoint),
            ));
        }
        while i < all.len()
            invariant
                i <= all@.len(),
                all@ == roster(),
                missing@ == roster().take(i as int).filter(
                    |chokepoint: Chokepoint| !self@.contains(chokepoint),
                ),
            decreases all@.len() - i,
        {
            proof {
                reveal(Seq::filter);
                assert(roster().take(i + 1).drop_last() =~= roster().take(i as int));
                assert(roster().take(i + 1).last() == roster()[i as int]);
            }
            if !self.has(all[i]) {
                missing.push(all[i]);
            }
            i += 1;
        }
        assert(roster().take(i as int) =~= roster());
        missing
    }

    /// Whether every chokepoint registered.
    pub fn is_ready(&self) -> (ready: bool)
        ensures
            ready == (roster().filter(
                |chokepoint: Chokepoint| !self@.contains(chokepoint),
            ).len() == 0),
    {
        self.missing().len() == 0
    }
}

/// The chokepoints this daemon declares at boot.
pub fn registered_chokepoints() -> (registry: ChokepointRegistry)
    ensures
        registry@ == roster(),
{
    let mut registry = ChokepointRegistry::new();
    registry.register(Chokepoint::BridgeRequest);
    registry.register(Chokepoint::RingRequest);
    registry.register(Chokepoint::ShardOp);
    registry.register(Chokepoint::LogAppend);
    registry.register(Chokepoint::ShipRecord);
    registry.register(Chokepoint::ConsensusStep);
    registry.register(Chokepoint::ArchiveChunk);
    registry.register(Chokepoint::LandEntry);
    registry.register(Chokepoint::MergeVerdict);
    assert(registry@ =~= roster());
    registry
}

/// Whether `checked` is what checking a registry gives.
pub open spec fn checks(registry: Seq<Chokepoint>, checked: Result<(), ServerError>) -> bool {
    ({
        let missing = roster().filter(
            |chokepoint: Chokepoint| !registry.contains(chokepoint),
        );
        match checked {
            Ok(_) => missing.len() == 0,
            Err(error) => {
                &&& missing.len() > 0
                &&& error matches ServerError::ChokepointsUnregistered { missing: names }
                &&& names@ == missing.map_values(
                    |chokepoint: Chokepoint| chokepoint.named(),
                )
            },
        }
    })
}

/// The condition on which a daemon starts, before anything is acquired: with an emitter missing it
/// does not, and names every one that is.
pub fn check_chokepoints(registry: &ChokepointRegistry) -> (checked: Result<(), ServerError>)
    ensures
        checks(registry@, checked),
{
    let missing = registry.missing();
    if missing.len() == 0 {
        return Ok(());
    }
    let mut names: Vec<&'static str> = Vec::new();
    let mut i: usize = 0;
    while i < missing.len()
        invariant
            i <= missing@.len(),
            names@ =~= missing@.take(i as int).map_values(
                |chokepoint: Chokepoint| chokepoint.named(),
            ),
        decreases missing@.len() - i,
    {
        names.push(missing[i].name());
        i += 1;
    }
    assert(missing@.take(i as int) =~= missing@);
    Err(ServerError::ChokepointsUnregistered { missing: names })
}

/// The daemon's own declaration is complete: no chokepoint of the roster is missing from it.
pub proof fn the_declared_roster_is_complete()
    ensures
        roster().filter(|chokepoint: Chokepoint| !roster().contains(chokepoint)).len() == 0,
{
    lemma_none_missing(roster(), roster());
}

/// Nothing of a list is missing from a list that holds all of it.
proof fn lemma_none_missing(list: Seq<Chokepoint>, whole: Seq<Chokepoint>)
    requires
        forall|i: int| 0 <= i < list.len() ==> whole.contains(#[trigger] list[i]),
    ensures
        list.filter(|chokepoint: Chokepoint| !whole.contains(chokepoint)).len() == 0,
    decreases list.len(),
{
    reveal(Seq::filter);
    if list.len() > 0 {
        assert forall|i: int| 0 <= i < list.drop_last().len() implies whole.contains(
            #[trigger] list.drop_last()[i],
        ) by {
            assert(whole.contains(list[i]));
        }
        lemma_none_missing(list.drop_last(), whole);
        assert(whole.contains(list[list.len() - 1]));
    }
}

/// Where a daemon's start stands.
#[derive(Clone, Copy, Debug, PartialEq, Eq, Structural)]
pub enum DaemonBoot {
    /// Check that every chokepoint registered, before anything is acquired.
    Chokepoints,
    /// Create or attach the segment, and its content object.
    Segment,
    /// Publish the machine's profile.
    Profile,
    /// Mint and publish the grant-issuer secret.
    IssuerSecret,
    /// Raise the descriptor limit, and load what was retained.
    Retained,
    /// Start the runtime's shards.
    Runtime,
    /// Initialize a shard.
    Shard { index: usize },
    /// Open the rendezvous, and start the doorbell.
    Rendezvous,
    /// Run the control loop.
    Control,
    /// Run the fleet's membership.
    Fleet,
    /// Open the mount transport's listener.
    Mount,
    /// Run the mount transport over its listener.
    ServeMount,
    /// The daemon serves.
    Serving,
    /// The start was refused.
    Refused,
}

impl DaemonBoot {
    /// The step after a completed one, over a number of shards and with or without a fleet.
    pub open spec fn following(self, shards: usize, fleet: bool) -> DaemonBoot {
        match self {
            DaemonBoot::Chokepoints => DaemonBoot::Segment,
            DaemonBoot::Segment => DaemonBoot::Profile,
            DaemonBoot::Profile => DaemonBoot::IssuerSecret,
            DaemonBoot::IssuerSecret => DaemonBoot::Retained,
            DaemonBoot::Retained => DaemonBoot::Runtime,
            DaemonBoot::Runtime => if shards > 0 {
                DaemonBoot::Shard { index: 0 }
            } else {
                DaemonBoot::Rendezvous
            },
            DaemonBoot::Shard { index } => if index + 1 < shards {
                DaemonBoot::Shard { index: (index + 1) as usize }
            } else {
                DaemonBoot::Rendezvous
            },
            DaemonBoot::Rendezvous => if shards > 0 {
                DaemonBoot::Control
            } else {
                DaemonBoot::Refused
            },
            DaemonBoot::Control => if fleet {
                DaemonBoot::Fleet
            } else {
                DaemonBoot::Mount
            },
            DaemonBoot::Fleet => DaemonBoot::Mount,
            DaemonBoot::Mount => DaemonBoot::ServeMount,
            DaemonBoot::ServeMount => DaemonBoot::Serving,
            DaemonBoot::Serving => DaemonBoot::Serving,
            DaemonBoot::Refused => DaemonBoot::Refused,
        }
    }

    /// Where a start stands after a step: a refused step ends it, except the mount transport's
    /// listener, without which the daemon serves the rest. A daemon without a shard is refused.
    pub open spec fn after(self, done: bool, shards: usize, fleet: bool) -> DaemonBoot {
        if done || self == DaemonBoot::Serving {
            self.following(shards, fleet)
        } else if self == DaemonBoot::Mount {
            DaemonBoot::Serving
        } else {
            DaemonBoot::Refused
        }
    }

    /// Where a start stands after a step.
    pub fn advance(self, done: bool, shards: usize, fleet: bool) -> (boot: DaemonBoot)
        ensures
            boot == self.after(done, shards, fleet),
    {
        match self {
            DaemonBoot::Mount => if done {
                DaemonBoot::ServeMount
            } else {
                DaemonBoot::Serving
            },
            DaemonBoot::Serving => DaemonBoot::Serving,
            _ => {
                if !done {
                    return DaemonBoot::Refused;
                }
                match self {
                    DaemonBoot::Chokepoints => DaemonBoot::Segment,
                    DaemonBoot::Segment => DaemonBoot::Profile,
                    DaemonBoot::Profile => DaemonBoot::IssuerSecret,
                    DaemonBoot::IssuerSecret => DaemonBoot::Retained,
                    DaemonBoot::Retained => DaemonBoot::Runtime,
                    DaemonBoot::Runtime => if shards > 0 {
                        DaemonBoot::Shard { index: 0 }
                    } else {
                        DaemonBoot::Rendezvous
                    },
                    DaemonBoot::Shard { index } => if index < shards && index + 1 < shards {
                        DaemonBoot::Shard { index: index + 1 }
                    } else {
                        DaemonBoot::Rendezvous
                    },
                    DaemonBoot::Rendezvous => if shards > 0 {
                        DaemonBoot::Control
                    } else {
                        DaemonBoot::Refused
                    },
                    DaemonBoot::Control => if fleet {
                        DaemonBoot::Fleet
                    } else {
                        DaemonBoot::Mount
                    },
                    DaemonBoot::Fleet => DaemonBoot::Mount,
                    DaemonBoot::ServeMount => DaemonBoot::Serving,
                    _ => DaemonBoot::Refused,
                }
            },
        }
    }
}

/// A refused start stays refused, and every refused step ends the start, but for the mount
/// transport's listener.
pub proof fn a_refused_start_never_serves(boot: DaemonBoot, shards: usize, fleet: bool)
    ensures
        DaemonBoot::Refused.after(true, shards, fleet) == DaemonBoot::Refused,
        DaemonBoot::Refused.after(false, shards, fleet) == DaemonBoot::Refused,
        boot != DaemonBoot::Mount && boot != DaemonBoot::Serving ==> boot.after(
            false,
            shards,
            fleet,
        ) == DaemonBoot::Refused,
{
}

/// A shared object's handoff.
#[derive(Debug, PartialEq, Eq)]
pub enum Handoff {
    Descriptor(i32),
    Name(String),
}

/// Where the segment comes from.
#[derive(Debug)]
pub enum SegmentSource {
    /// Create a fresh segment.
    Create { name: String },
    /// Attach the segment the anchor handed over in the environment.
    FromEnv,
    /// Attach a segment by its handoff, and its content object if the anchor made one.
    Handoff { handoff: Handoff, len: usize, content: Option<(Handoff, usize)> },
}

/// The prefix of a segment's name.
pub open spec fn segment_prefix() -> Seq<char> {
    "slates-seg-"@
}

/// The content object's name for a segment's: its prefix's marker replaced, so that it stays the
/// same length; for any other name, a suffix.
pub open spec fn content_name(name: Seq<char>) -> Seq<char> {
    if segment_prefix().is_prefix_of(name) {
        "slates-con-"@ + name.skip(segment_prefix().len() as int)
    } else {
        name + "-c"@
    }
}

/// The content object's name for a segment's.
pub fn content_name_of(name: &str) -> (content: String)
    ensures
        content@ == content_name(name@),
{
    let prefix: &str = "slates-seg-";
    let marked = starts_with(name, prefix);
    let mut content = String::new();
    if marked {
        let start: usize = prefix.unicode_len();
        let end: usize = name.unicode_len();
        content.append("slates-con-");
        content.append(name.substring_char(start, end));
        proof {
            assert(name@.subrange(start as int, end as int) =~= name@.skip(start as int));
            assert(content@ =~= content_name(name@));
        }
    } else {
        content.append(name);
        content.append("-c");
        assert(content@ =~= content_name(name@));
    }
    content
}

/// Whether text starts with a prefix.
fn starts_with(text: &str, prefix: &str) -> (starts: bool)
    ensures
        starts == prefix@.is_prefix_of(text@),
{
    let length: usize = prefix.unicode_len();
    if text.unicode_len() < length {
        return false;
    }
    let mut i: usize = 0;
    while i < length
        invariant
            i <= length,
            length == prefix@.len(),
            length <= text@.len(),
            forall|j: int| 0 <= j < i ==> text@[j] == prefix@[j],
        decreases length - i,
    {
        if text.get_char(i) != prefix.get_char(i) {
            assert(text@[i as int] != prefix@[i as int]);
            proof {
                if prefix@.is_prefix_of(text@) {
                    assert(prefix@[i as int] == text@.subrange(0, length as int)[i as int]);
                }
            }
            return false;
        }
        i += 1;
    }
    assert(prefix@ =~= text@.subrange(0, length as int));
    true
}

/// A segment's name and its content object's are as long: the name stays within the platform's
/// limit that the segment's meets.
pub proof fn a_content_name_is_as_long(name: Seq<char>)
    requires
        segment_prefix().is_prefix_of(name),
    ensures
        content_name(name).len() == name.len(),
        content_name(name) != name,
{
    reveal_strlit("slates-seg-");
    reveal_strlit("slates-con-");
    assert(name.subrange(0, 11)[7] == name[7]);
    assert(content_name(name)[7] == 'c');
}

/// The length of the content object.
pub open spec fn content_length(reserve_per_shard: u64, partitions: u16) -> usize {
    clamp_usize(
        clamp_usize(clamp_usize(reserve_per_shard as int) * PUBLISH_SLOTS) * larger(
            partitions as int,
            1,
        ),
    )
}

/// The content object's size: a double buffer of reserve-sized slots for every partition.
pub fn content_bytes(reserve_per_shard: u64, partitions: u16) -> (bytes: usize)
    ensures
        bytes == content_length(reserve_per_shard, partitions),
{
    let per_shard: usize = if reserve_per_shard > usize::MAX as u64 {
        usize::MAX
    } else {
        reserve_per_shard as usize
    };
    let count: usize = if partitions > 1 {
        partitions as usize
    } else {
        1
    };
    times_size(times_size(per_shard, PUBLISH_SLOTS), count)
}

/// The value of a decimal digit.
pub open spec fn digit_value(c: char) -> Option<int> {
    if '0' <= c && c <= '9' {
        Some(c as int - '0' as int)
    } else {
        None
    }
}

/// The number that decimal digits spell, if they are all digits.
pub open spec fn spelled(digits: Seq<char>) -> Option<int>
    decreases digits.len(),
{
    if digits.len() == 0 {
        Some(0)
    } else {
        match spelled(digits.drop_last()) {
            None => None,
            Some(value) => match digit_value(digits.last()) {
                None => None,
                Some(digit) => Some(value * 10 + digit),
            },
        }
    }
}

/// The number text spells in decimal: one sign at most, then at least one digit.
pub open spec fn number_of(text: Seq<char>) -> Option<int> {
    if text.len() > 0 && (text[0] == '+' || text[0] == '-') {
        if text.len() == 1 {
            None
        } else {
            match spelled(text.skip(1)) {
                None => None,
                Some(value) => if text[0] == '-' {
                    Some(-value)
                } else {
                    Some(value)
                },
            }
        }
    } else if text.len() == 0 {
        None
    } else {
        spelled(text)
    }
}

/// Digits spell no negative number, and more of them no smaller one.
proof fn lemma_spelled_grows(digits: Seq<char>, cut: int)
    requires
        0 <= cut <= digits.len(),
        spelled(digits) is Some,
    ensures
        spelled(digits.take(cut)) is Some,
        0 <= spelled(digits.take(cut))->0 <= spelled(digits)->0,
    decreases digits.len(),
{
    if digits.len() == 0 {
        assert(digits.take(cut) =~= digits);
    } else if cut == digits.len() {
        assert(digits.take(cut) =~= digits);
        lemma_spelled_grows(digits.drop_last(), 0);
        assert(digits.drop_last().take(0) =~= Seq::<char>::empty());
    } else {
        lemma_spelled_grows(digits.drop_last(), cut);
        assert(digits.take(cut) =~= digits.drop_last().take(cut));
    }
}

/// The number a run of digits spells, up to a bound; none if one is no digit, or past the bound.
fn digits_within(text: &str, from: usize, bound: u64) -> (value: Option<u64>)
    requires
        from <= text@.len(),
    ensures
        match value {
            Some(value) => value <= bound && spelled(text@.skip(from as int)) == Some(value as int),
            None => match spelled(text@.skip(from as int)) {
                None => true,
                Some(spelled) => spelled > bound,
            },
        },
{
    let end: usize = text.unicode_len();
    let ghost digits = text@.skip(from as int);
    let mut value: u64 = 0;
    let mut i: usize = from;
    assert(digits.take(0) =~= Seq::<char>::empty());
    while i < end
        invariant
            from <= i <= end,
            end == text@.len(),
            digits == text@.skip(from as int),
            value <= bound,
            spelled(digits.take(i - from)) == Some(value as int),
        decreases end - i,
    {
        let c = text.get_char(i);
        let ghost longer = digits.take(i + 1 - from);
        proof {
            assert(longer.drop_last() =~= digits.take(i - from));
            assert(longer.last() == c);
        }
        if !('0' <= c && c <= '9') {
            proof {
                if spelled(digits) is Some {
                    lemma_spelled_grows(digits, i + 1 - from);
                }
            }
            return None;
        }
        let digit: u64 = (c as u32 - '0' as u32) as u64;
        let next: u128 = value as u128 * 10 + digit as u128;
        if next > bound as u128 {
            proof {
                if spelled(digits) is Some {
                    lemma_spelled_grows(digits, i + 1 - from);
                }
            }
            return None;
        }
        value = next as u64;
        i += 1;
    }
    assert(digits.take(i - from) =~= digits);
    Some(value)
}

/// Whether `length` is the length a text gives.
pub open spec fn reads_length(text: Seq<char>, length: Option<usize>) -> bool {
    match length {
        Some(length) => text[0] != '-' && number_of(text) == Some(length as int),
        None => (text.len() > 0 && text[0] == '-') || number_of(text) is None || number_of(
            text,
        )->0 > usize::MAX,
    }
}

/// Reads a length: a decimal number without a minus sign, within the machine's size.
pub fn parse_length(text: &str) -> (length: Option<usize>)
    ensures
        reads_length(text@, length),
{
    let end: usize = text.unicode_len();
    if end == 0 {
        return None;
    }
    let first = text.get_char(0);
    if first == '-' {
        return None;
    }
    let from: usize = if first == '+' {
        1
    } else {
        0
    };
    if from == end {
        return None;
    }
    assert(text@.skip(0) =~= text@);
    match digits_within(text, from, usize::MAX as u64) {
        Some(value) => Some(value as usize),
        None => None,
    }
}

/// Whether `descriptor` is the descriptor a text gives.
pub open spec fn reads_descriptor(text: Seq<char>, descriptor: Option<i32>) -> bool {
    match descriptor {
        Some(descriptor) => number_of(text) == Some(descriptor as int),
        None => match number_of(text) {
            None => true,
            Some(value) => value < i32::MIN || value > i32::MAX,
        },
    }
}

/// Reads a descriptor: a signed decimal number of thirty-two bits.
pub fn parse_descriptor(text: &str) -> (descriptor: Option<i32>)
    ensures
        reads_descriptor(text@, descriptor),
{
    let end: usize = text.unicode_len();
    if end == 0 {
        return None;
    }
    let first = text.get_char(0);
    let negative = first == '-';
    let from: usize = if negative || first == '+' {
        1
    } else {
        0
    };
    if from == end {
        return None;
    }
    assert(text@.skip(0) =~= text@);
    let bound: u64 = if negative {
        0x8000_0000
    } else {
        0x7fff_ffff
    };
    match digits_within(text, from, bound) {
        Some(value) => {
            let signed: i64 = value as i64;
            Some(
                if negative {
                    (-signed) as i32
                } else {
                    signed as i32
                },
            )
        },
        None => {
            proof {
                if let Some(value) = spelled(text@.skip(from as int)) {
                    lemma_spelled_grows(text@.skip(from as int), 0);
                }
            }
            None
        },
    }
}

/// The value of the first entry of an environment under a key.
pub open spec fn is_value_of(env: Seq<(String, String)>, key: Seq<char>, at: int) -> bool {
    &&& 0 <= at < env.len()
    &&& (env[at]).0@ == key
    &&& forall|i: int| 0 <= i < at ==> (#[trigger] env[i]).0@ != key
}

/// The place of the first entry of an environment under a key.
fn entry_of(env: &Vec<(String, String)>, key: &String) -> (at: Option<usize>)
    ensures
        match at {
            Some(at) => is_value_of(env@, key@, at as int),
            None => forall|i: int| 0 <= i < env@.len() ==> (#[trigger] env@[i]).0@ != key@,
        },
{
    let mut i: usize = 0;
    while i < env.len()
        invariant
            i <= env@.len(),
            forall|j: int| 0 <= j < i ==> (#[trigger] env@[j]).0@ != key@,
        decreases env@.len() - i,
    {
        let same = env[i].0 == *key;
        if same {
            return Some(i);
        }
        i += 1;
    }
    None
}

/// Whether `handed` is the hand-off an environment names.
pub open spec fn hands_off(
    env: Seq<(String, String)>,
    handoff_key: Seq<char>,
    length_key: Seq<char>,
    descriptors: bool,
    handed: Result<(Handoff, usize), ServerError>,
) -> bool {
    match handed {
        Ok((handoff, length)) => exists|at: int, len_at: int|
            #![trigger is_value_of(env, handoff_key, at), is_value_of(env, length_key, len_at)]
            {
                &&& is_value_of(env, handoff_key, at)
                &&& is_value_of(env, length_key, len_at)
                &&& number_of((env[len_at]).1@) == Some(length as int)
                &&& (env[len_at]).1@[0] != '-'
                &&& match handoff {
                    Handoff::Descriptor(fd) => descriptors && number_of((env[at]).1@)
                        == Some(fd as int),
                    Handoff::Name(name) => {
                        &&& name@ == (env[at]).1@
                        &&& descriptors ==> match number_of((env[at]).1@) {
                            None => true,
                            Some(value) => value < i32::MIN || value > i32::MAX,
                        }
                    },
                }
            },
        Err(error) => {
            &&& error == ServerError::NotOnShard
            &&& forall|at: int, len_at: int|
                #![trigger is_value_of(env, handoff_key, at), is_value_of(env, length_key, len_at)]
                is_value_of(env, handoff_key, at) && is_value_of(env, length_key, len_at)
                    ==> {
                    let text = (env[len_at]).1@;
                    (text.len() > 0 && text[0] == '-') || number_of(text) is None || number_of(
                        text,
                    )->0 > usize::MAX
                }
        },
    }
}

/// The segment's handoff and length, as the environment carries them: a descriptor where the
/// platform hands one over and the text is a number, else a name. A length has no minus sign, not
/// even of zero.
pub fn handoff_of(
    env: &Vec<(String, String)>,
    handoff_key: &String,
    length_key: &String,
    descriptors: bool,
) -> (handed: Result<(Handoff, usize), ServerError>)
    ensures
        hands_off(env@, handoff_key@, length_key@, descriptors, handed),
{
    let at: usize = match entry_of(env, handoff_key) {
        Some(at) => at,
        None => {
            return Err(ServerError::NotOnShard);
        },
    };
    let len_at: usize = match entry_of(env, length_key) {
        Some(at) => at,
        None => {
            return Err(ServerError::NotOnShard);
        },
    };
    proof {
        assert forall|other: int| is_value_of(env@, length_key@, other) implies other
            == len_at by {
            if other < len_at {
                assert((env@[other]).0@ != length_key@);
            }
        }
    }
    let length: usize = match parse_length(env[len_at].1.as_str()) {
        Some(length) => length,
        None => {
            return Err(ServerError::NotOnShard);
        },
    };
    let text = env[at].1.as_str();
    if descriptors {
        if let Some(fd) = parse_descriptor(text) {
            return Ok((Handoff::Descriptor(fd), length));
        }
    }
    Ok((Handoff::Name(env[at].1.clone()), length))
}

/// The node's host id: the first eight bytes of its machine identity's hash.
pub fn host_id_of(identity_hash: &[u8; 32]) -> (id: u64)
    ensures
        id == leading_id(identity_hash@),
{
    id_of_digest(identity_hash)
}

/// The label of the boot nonce's keyed hash.
pub open spec fn incarnation_label() -> Seq<u8> {
    vstd::utf8::encode_utf8("slates/member-incarnation/v1"@)
}

/// This boot's public nonce, derived from the fresh secret in a keyed hash of its own: the secret
/// does not cross the wire.
pub fn boot_incarnation(secret: &[u8; 32]) -> (nonce: u64)
    ensures
        nonce == leading_id(blake3_keyed_digest(secret@, incarnation_label())),
{
    let label: &str = "slates/member-incarnation/v1";
    let digest = keyed_hash(secret, label.as_bytes());
    id_of_digest(&digest)
}

/// The regions a node starts from: its fleet's, with this boot's member in its node's region; and
/// none without a fleet.
pub open spec fn starting_regions(
    fleet: Option<Map<u64, RegionId>>,
    placeholder: HostId,
    host: HostId,
) -> Map<u64, RegionId> {
    match fleet {
        None => Map::empty(),
        Some(regions) => regions.insert(
            host.0,
            match lookup(regions, placeholder.0) {
                Some(region) => region,
                None => RegionId(0),
            },
        ),
    }
}

/// A copy of a table of regions.
fn copy_regions(regions: &BTreeMap<u64, RegionId>) -> (copy: BTreeMap<u64, RegionId>)
    ensures
        copy@ == regions@,
{
    let keys = keys_of(regions);
    let mut copy: BTreeMap<u64, RegionId> = BTreeMap::new();
    let mut i: usize = 0;
    while i < keys.len()
        invariant
            i <= keys@.len(),
            are_keys(regions@, keys@),
            forall|key: u64| #[trigger]
                copy@.contains_key(key) <==> keys@.take(i as int).contains(key),
            forall|key: u64| #[trigger] copy@.contains_key(key) ==> copy@[key] == regions@[key],
        decreases keys@.len() - i,
    {
        let key: u64 = keys[i];
        let ghost shorter = keys@.take(i as int);
        let ghost longer = keys@.take(i + 1);
        proof {
            assert(regions@.contains_key(keys@[i as int]));
            assert(longer =~= shorter.push(key));
            assert forall|other: u64| #[trigger] longer.contains(other) <==> shorter.contains(
                other,
            ) || other == key by {
                if shorter.contains(other) {
                    let k = choose|k: int| 0 <= k < shorter.len() && shorter[k] == other;
                    assert(longer[k] == other);
                }
                if other == key {
                    assert(longer[i as int] == other);
                }
                if longer.contains(other) {
                    let k = choose|k: int| 0 <= k < longer.len() && longer[k] == other;
                    if k < i {
                        assert(shorter[k] == other);
                    }
                }
            }
        }
        if let Some(region) = regions.get(&key) {
            copy.insert(key, *region);
        }
        i += 1;
    }
    proof {
        assert(keys@.take(i as int) =~= keys@);
        assert forall|key: u64| #[trigger] copy@.contains_key(key) <==> regions@.contains_key(
            key,
        ) by {
            if keys@.contains(key) {
                let k = choose|k: int| 0 <= k < keys@.len() && keys@[k] == key;
                assert(regions@.contains_key(keys@[k]));
            }
        }
        assert(copy@ =~= regions@);
    }
    copy
}

/// Whether `built` is the root group a node starts with.
pub open spec fn root_group(
    fleet: Option<FleetMembership>,
    host: HostId,
    built: (BTreeMap<u64, RegionId>, BTreeMap<u64, RegionId>),
) -> bool {
    match fleet {
        Some(fleet) => {
            &&& built.0@ == starting_regions(Some(fleet.regions@), fleet.host, host)
            &&& built.1@ == fleet.region_mirrors@
        },
        None => {
            &&& built.0@ == Map::<u64, RegionId>::empty()
            &&& built.1@ == Map::<u64, RegionId>::empty()
        },
    }
}

/// The regions and mirrors a node starts from. Neither makes it a voter.
pub fn build_root_group(fleet: Option<&FleetMembership>, host: HostId) -> (built: (
    BTreeMap<u64, RegionId>,
    BTreeMap<u64, RegionId>,
))
    ensures
        root_group(
            match fleet {
                Some(fleet) => Some(*fleet),
                None => None,
            },
            host,
            built,
        ),
{
    match fleet {
        Some(fleet) => {
            let mut regions = copy_regions(&fleet.regions);
            let region = match fleet.regions.get(&fleet.host.0) {
                Some(region) => *region,
                None => RegionId(0),
            };
            regions.insert(host.0, region);
            (regions, copy_regions(&fleet.region_mirrors))
        },
        None => (BTreeMap::new(), BTreeMap::new()),
    }
}

/// A shard's operation headroom: a source and a destination window for each write that can be in
/// flight at once, capped so that a window is left to admit.
pub open spec fn headroom(
    chunk_window: u64,
    clients_per_shard: int,
    in_flight: int,
    capacity: u64,
) -> u64 {
    let writers = smaller(larger(clients_per_shard, 1), larger(in_flight, 1));
    smaller(
        clamp_u64(clamp_u64(chunk_window * 2) * writers) as int,
        larger(capacity - chunk_window, 0),
    ) as u64
}

/// A shard's operation headroom.
pub fn operation_headroom(
    chunk_window: u64,
    clients_per_shard: usize,
    in_flight: usize,
    capacity: u64,
) -> (bytes: u64)
    ensures
        bytes == headroom(chunk_window, clients_per_shard as int, in_flight as int, capacity),
{
    let clients: u64 = if clients_per_shard > 1 {
        clients_per_shard as u64
    } else {
        1
    };
    let flying: u64 = if in_flight > 1 {
        in_flight as u64
    } else {
        1
    };
    let writers: u64 = if clients < flying {
        clients
    } else {
        flying
    };
    let wanted: u64 = times(times(chunk_window, 2), writers);
    let most: u64 = capacity.saturating_sub(chunk_window);
    if wanted < most {
        wanted
    } else {
        most
    }
}

/// The headroom never takes the whole arena: whatever the machine, a chunk window is left to admit,
/// or the whole arena where it is smaller than one.
pub proof fn the_headroom_leaves_a_window(
    chunk_window: u64,
    clients_per_shard: int,
    in_flight: int,
    capacity: u64,
)
    ensures
        capacity - headroom(chunk_window, clients_per_shard, in_flight, capacity) >= smaller(
            chunk_window as int,
            capacity as int,
        ),
        headroom(chunk_window, clients_per_shard, in_flight, capacity) <= capacity,
{
}

/// A shard's slice of the content object.
pub open spec fn content_slice(object_len: int, shards: int, partition: int) -> (int, int) {
    let per_shard = object_len / larger(shards, 1);
    (partition * per_shard, partition * per_shard + per_shard)
}

/// A shard's slice of the content object, in the machine's sizes.
pub open spec fn content_bounds(object_len: usize, shards: nat, partition: u16) -> (usize, usize) {
    let (start, end) = content_slice(object_len as int, shards as int, partition as int);
    (clamp_usize(start), clamp_usize(clamp_usize(start) + (end - start)))
}

/// A shard's slice of the content object: an equal share, by its partition.
pub fn content_range(object_len: usize, shards: usize, partition: u16) -> (range: (usize, usize))
    ensures
        range == content_bounds(object_len, shards as nat, partition),
{
    let count: usize = if shards > 1 {
        shards
    } else {
        1
    };
    let per_shard: usize = object_len / count;
    let start: usize = times_size(partition as usize, per_shard);
    (start, start.saturating_add(per_shard))
}

/// The shards' slices lie in the content object, and no two of them meet.
pub proof fn content_slices_are_apart(object_len: int, shards: int, a: int, b: int)
    requires
        object_len >= 0,
        0 <= a < b < shards,
    ensures
        ({
            let (a_start, a_end) = content_slice(object_len, shards, a);
            let (b_start, b_end) = content_slice(object_len, shards, b);
            &&& 0 <= a_start <= a_end <= b_start <= b_end <= object_len
        }),
{
    let per_shard = object_len / shards;
    assert(per_shard >= 0 && per_shard * shards <= object_len) by (nonlinear_arith)
        requires
            object_len >= 0,
            shards > 0,
            per_shard == object_len / shards,
    ;
    assert(0 <= a * per_shard) by (nonlinear_arith)
        requires
            a >= 0,
            per_shard >= 0,
    ;
    assert(a * per_shard + per_shard <= b * per_shard) by (nonlinear_arith)
        requires
            a + 1 <= b,
            per_shard >= 0,
    ;
    assert(b * per_shard + per_shard <= shards * per_shard) by (nonlinear_arith)
        requires
            b + 1 <= shards,
            per_shard >= 0,
    ;
    assert(shards * per_shard == per_shard * shards) by (nonlinear_arith);
}

/// What a shard finds when it is initialized: its place, and what the anchor, the arena and the
/// previous boot left.
pub struct ShardFacts {
    pub partition: u16,
    /// The runtime's id of the shard, where it runs on one.
    pub shard: Option<u16>,
    /// The content object's length, if the anchor provides one.
    pub content_len: Option<usize>,
    /// A chunk's bytes at the machine's page.
    pub chunk_bytes: u64,
    /// What the arena can hand out.
    pub arena_bytes: u64,
    /// The hash of the machine's identity.
    pub identity_hash: [u8; 32],
    /// The grant-issuer secret this start minted.
    pub issuer_secret: [u8; 32],
    /// The boot nonce retained over a warm restart.
    pub retained_nonce: Option<u64>,
    /// The budget a lost host's copies are remade in.
    pub recovery_budget_ns: u64,
}

/// What a shard is set up with.
#[derive(Clone, Copy, Debug, PartialEq, Eq)]
pub struct ShardSetup {
    pub shard: u16,
    /// The arena region's length: the reserve, at least a page.
    pub region_bytes: usize,
    /// The bytes kept free of every reservation.
    pub headroom: u64,
    /// The slice of the content object this shard owns.
    pub content_range: (usize, usize),
    /// The spans the telemetry keeps: a client ring's depth, at least one.
    pub telemetry_spans: usize,
    /// The first prefix the shard hands out.
    pub next_prefix: u16,
    /// Whether this shard counts what the whole boot counts once.
    pub counts: bool,
    /// The anchor that keys authentication and completion origins.
    pub origin_anchor: HostId,
    /// The boot nonce the member's id is derived from.
    pub boot_nonce: u64,
    pub quorum: Quorum,
    /// What the scatter width is derived from, where no retained record has its own.
    pub scatter: Option<ScatterInputs>,
}

/// The length of an arena region: the reserve, at least a page.
pub open spec fn region_length(reserve_per_shard: u64, page: usize) -> usize {
    larger(clamp_usize(reserve_per_shard as int) as int, page as int) as usize
}

/// The first prefix a shard hands out: its partition's share of the slots, and never zero.
pub open spec fn first_prefix(partition: u16, segment_slots: usize) -> u16 {
    larger(clamp_u16(partition * clamp_u16(segment_slots as int)) as int, 1) as u16
}

/// The quorum a node starts under: its fleet's, or itself alone.
pub open spec fn starting_quorum(fleet: Option<FleetMembership>) -> Quorum {
    match fleet {
        Some(fleet) => fleet.quorum,
        None => Quorum { f: 0 },
    }
}

/// The first prefix a shard hands out.
fn next_prefix(partition: u16, segment_slots: usize) -> (prefix: u16)
    ensures
        prefix == first_prefix(partition, segment_slots),
{
    let narrow: u16 = if segment_slots > u16::MAX as usize {
        u16::MAX
    } else {
        segment_slots as u16
    };
    assert(partition * narrow <= 0xffff * 0xffff) by (nonlinear_arith)
        requires
            partition <= 0xffff,
            narrow <= 0xffff,
    ;
    let product: u64 = partition as u64 * narrow as u64;
    let prefix: u16 = if product > u16::MAX as u64 {
        u16::MAX
    } else {
        product as u16
    };
    if prefix > 1 {
        prefix
    } else {
        1
    }
}

/// Whether `setup` is what a shard is set up with.
pub open spec fn set_up(config: DaemonConfig, shards: Seq<u16>, facts: ShardFacts, setup: ShardSetup) -> bool {
    &&& setup.shard == (match facts.shard {
        Some(shard) => shard,
        None => facts.partition,
    })
    &&& setup.region_bytes == region_length(config.reserve_per_shard, config.page)
    &&& setup.headroom == headroom(
        facts.chunk_bytes,
        config.clients_per_shard as int,
        config.caps.attachments as int,
        facts.arena_bytes,
    )
    &&& setup.content_range == (match facts.content_len {
        Some(length) => content_bounds(length, shards.len(), facts.partition),
        None => (0usize, 0usize),
    })
    &&& setup.telemetry_spans == larger(clamp_usize(config.region.slots as int) as int, 1)
    &&& setup.next_prefix == first_prefix(facts.partition, config.caps.segment_slots)
    &&& setup.counts == (shards.len() > 0 && shards[0] == setup.shard)
    &&& match config.fleet {
        Some(fleet) => setup.origin_anchor == fleet.origin_anchor,
        None => setup.origin_anchor.0 == leading_id(facts.identity_hash@),
    }
    &&& match facts.retained_nonce {
        Some(nonce) => setup.boot_nonce == nonce,
        None => setup.boot_nonce == leading_id(
            blake3_keyed_digest(facts.issuer_secret@, incarnation_label()),
        ),
    }
    &&& setup.quorum == starting_quorum(config.fleet)
    &&& setup.scatter == (match facts.retained_nonce {
        Some(_) => None,
        None => Some(
            ScatterInputs {
                data_bytes: clamp_u64(
                    config.reserve_per_shard * crate::config::shard_count(config.runtime),
                ),
                bytes_per_second: config.rereplication_bytes_per_second,
                recovery_budget_ns: facts.recovery_budget_ns,
                f: setup.quorum.f as u64,
            },
        ),
    })
}

/// What a shard is set up with, over the daemon's configuration and its shards.
pub fn init_shard(config: &DaemonConfig, shards: &Vec<u16>, facts: &ShardFacts) -> (setup:
    ShardSetup)
    ensures
        set_up(*config, shards@, *facts, setup),
{
    let shard: u16 = match facts.shard {
        Some(shard) => shard,
        None => facts.partition,
    };
    let reserve: usize = if config.reserve_per_shard > usize::MAX as u64 {
        usize::MAX
    } else {
        config.reserve_per_shard as usize
    };
    let region_bytes: usize = if reserve >= config.page {
        reserve
    } else {
        config.page
    };
    let headroom = operation_headroom(
        facts.chunk_bytes,
        config.clients_per_shard,
        config.caps.attachments,
        facts.arena_bytes,
    );
    let content = match facts.content_len {
        Some(length) => content_range(length, shards.len(), facts.partition),
        None => (0, 0),
    };
    let telemetry_spans: usize = if config.region.slots > 1 {
        config.region.slots as usize
    } else {
        1
    };
    let counts = shards.len() > 0 && shards[0] == shard;
    let (origin_anchor, quorum) = match &config.fleet {
        Some(fleet) => (fleet.origin_anchor, fleet.quorum),
        None => (HostId(host_id_of(&facts.identity_hash)), Quorum { f: 0 }),
    };
    let (boot_nonce, scatter) = match facts.retained_nonce {
        Some(nonce) => (nonce, None),
        None => (
            boot_incarnation(&facts.issuer_secret),
            Some(config.derived_scatter(quorum, facts.recovery_budget_ns)),
        ),
    };
    ShardSetup {
        shard,
        region_bytes,
        headroom,
        content_range: content,
        telemetry_spans,
        next_prefix: next_prefix(facts.partition, config.caps.segment_slots),
        counts,
        origin_anchor,
        boot_nonce,
        quorum,
        scatter,
    }
}

/// Where a shard's initialization stands.
#[derive(Clone, Copy, Debug, PartialEq, Eq, Structural)]
pub enum ShardBoot {
    /// Read the handoff, and attach the segment.
    Attach,
    /// Replay the shard's log.
    Recover,
    /// Map the arena's region.
    Arena,
    /// Set the store's metadata class.
    Store,
    /// Open the content object.
    Content,
    /// Restore what was retained, and retain this boot's.
    Retain,
    /// Run the server loop.
    ServeLoop,
    /// Run the sweep for dead clients.
    ReapLoop,
    /// The shard serves.
    Serving,
    /// The shard does not serve: counted, and the daemon serves the rest.
    Failed,
}

impl ShardBoot {
    /// Where an initialization stands after a step: a shard without its loops serves nothing, so a
    /// refused loop fails it like any other step.
    pub open spec fn after(self, done: bool) -> ShardBoot {
        if !done && self != ShardBoot::Serving {
            ShardBoot::Failed
        } else {
            match self {
                ShardBoot::Attach => ShardBoot::Recover,
                ShardBoot::Recover => ShardBoot::Arena,
                ShardBoot::Arena => ShardBoot::Store,
                ShardBoot::Store => ShardBoot::Content,
                ShardBoot::Content => ShardBoot::Retain,
                ShardBoot::Retain => ShardBoot::ServeLoop,
                ShardBoot::ServeLoop => ShardBoot::ReapLoop,
                ShardBoot::ReapLoop => ShardBoot::Serving,
                ShardBoot::Serving => ShardBoot::Serving,
                ShardBoot::Failed => ShardBoot::Failed,
            }
        }
    }

    /// Where an initialization stands after a step.
    pub fn advance(self, done: bool) -> (boot: ShardBoot)
        ensures
            boot == self.after(done),
    {
        if !done {
            return match self {
                ShardBoot::Serving => ShardBoot::Serving,
                _ => ShardBoot::Failed,
            };
        }
        match self {
            ShardBoot::Attach => ShardBoot::Recover,
            ShardBoot::Recover => ShardBoot::Arena,
            ShardBoot::Arena => ShardBoot::Store,
            ShardBoot::Store => ShardBoot::Content,
            ShardBoot::Content => ShardBoot::Retain,
            ShardBoot::Retain => ShardBoot::ServeLoop,
            ShardBoot::ServeLoop => ShardBoot::ReapLoop,
            ShardBoot::ReapLoop => ShardBoot::Serving,
            ShardBoot::Serving => ShardBoot::Serving,
            ShardBoot::Failed => ShardBoot::Failed,
        }
    }
}

/// A shard that serves has both its loops: it comes to serving only from its sweep's start, which it
/// comes to only from its server's.
pub proof fn a_serving_shard_has_its_loops(boot: ShardBoot, done: bool)
    ensures
        boot.after(done) == ShardBoot::Serving ==> boot == ShardBoot::Serving || (boot
            == ShardBoot::ReapLoop && done),
        boot.after(done) == ShardBoot::ReapLoop ==> boot == ShardBoot::ServeLoop && done,
{
}

/// What recovery did on a shard.
#[derive(Clone, Copy, Debug, PartialEq, Eq, Structural)]
pub struct Rebuilt {
    pub volumes: u64,
    pub skipped: u64,
    pub merge_volumes: u64,
    pub snapshots_dropped: u64,
    pub attachments_dropped: u64,
    pub snapshots_trimmed: u64,
    pub destroys_completed: u64,
    pub pins_reconciled: u64,
}

impl Rebuilt {
    /// What recovery says it did.
    pub open spec fn text(self, shard: u16) -> Seq<char> {
        "slates-server: shard "@ + decimal(shard as nat) + ": recovered "@ + decimal(
            self.volumes as nat,
        ) + " volumes from their images ("@ + decimal(self.skipped as nat) + " refused), "@
            + decimal(self.merge_volumes as nat)
            + " merge volumes (green chains replayed, works reset), reconciled out "@ + decimal(
            self.snapshots_dropped as nat,
        ) + " unrecovered local snapshots and "@ + decimal(self.attachments_dropped as nat)
            + " attachments, trimmed "@ + decimal(self.snapshots_trimmed as nat)
            + " unacknowledged snapshots the images carried, completed "@ + decimal(
            self.destroys_completed as nat,
        ) + " destroys in flight, corrected "@ + decimal(self.pins_reconciled as nat)
            + " clone pins"@
    }

    /// Whether `line` is the line a rebuilt shard is logged with.
    pub open spec fn logs(self, shard: u16, line: Option<String>) -> bool {
        match line {
            Some(line) => self != (Rebuilt {
                volumes: 0,
                skipped: 0,
                merge_volumes: 0,
                snapshots_dropped: 0,
                attachments_dropped: 0,
                snapshots_trimmed: 0,
                destroys_completed: 0,
                pins_reconciled: 0,
            }) && line@ == self.text(shard),
            None => self == (Rebuilt {
                volumes: 0,
                skipped: 0,
                merge_volumes: 0,
                snapshots_dropped: 0,
                attachments_dropped: 0,
                snapshots_trimmed: 0,
                destroys_completed: 0,
                pins_reconciled: 0,
            }),
        }
    }

    /// What recovery says it did; nothing, when it did nothing.
    pub fn line(&self, shard: u16) -> (line: Option<String>)
        ensures
            self.logs(shard, line),
    {
        let nothing = Rebuilt {
            volumes: 0,
            skipped: 0,
            merge_volumes: 0,
            snapshots_dropped: 0,
            attachments_dropped: 0,
            snapshots_trimmed: 0,
            destroys_completed: 0,
            pins_reconciled: 0,
        };
        if *self == nothing {
            return None;
        }
        let mut line = String::new();
        line.append("slates-server: shard ");
        push_decimal(&mut line, shard as u64);
        line.append(": recovered ");
        push_decimal(&mut line, self.volumes);
        line.append(" volumes from their images (");
        push_decimal(&mut line, self.skipped);
        line.append(" refused), ");
        push_decimal(&mut line, self.merge_volumes);
        line.append(" merge volumes (green chains replayed, works reset), reconciled out ");
        push_decimal(&mut line, self.snapshots_dropped);
        line.append(" unrecovered local snapshots and ");
        push_decimal(&mut line, self.attachments_dropped);
        line.append(" attachments, trimmed ");
        push_decimal(&mut line, self.snapshots_trimmed);
        line.append(" unacknowledged snapshots the images carried, completed ");
        push_decimal(&mut line, self.destroys_completed);
        line.append(" destroys in flight, corrected ");
        push_decimal(&mut line, self.pins_reconciled);
        line.append(" clone pins");
        assert(line@ =~= self.text(shard));
        Some(line)
    }
}

/// What a shard's server does after a round.
#[derive(Clone, Copy, Debug, PartialEq, Eq, Structural)]
pub enum ServeStep {
    /// Poll again.
    Yield,
    /// Mark the clients parked, and idle until kicked.
    Park,
}

/// A shard's server: when it last had work, and how long it polls after.
#[derive(Clone, Copy, Debug, PartialEq, Eq, Structural)]
pub struct ServeLoop {
    pub last_work_ns: u64,
    pub idle_window_ns: u64,
}

impl ServeLoop {
    /// The loop as it starts.
    pub open spec fn started(now_ns: u64, spin_ns: u32) -> ServeLoop {
        ServeLoop {
            last_work_ns: now_ns,
            idle_window_ns: clamp_u64(spin_ns * IDLE_WINDOW_RATIO),
        }
    }

    /// A server that starts now, over a client ring's spin.
    pub fn start(now_ns: u64, spin_ns: u32) -> (server: ServeLoop)
        ensures
            server == Self::started(now_ns, spin_ns),
    {
        ServeLoop { last_work_ns: now_ns, idle_window_ns: times(spin_ns as u64, IDLE_WINDOW_RATIO) }
    }

    /// Whether `step` and `later` are what a round makes of this.
    pub open spec fn turns(self, did: bool, now_ns: u64, step: ServeStep, later: ServeLoop) -> bool {
        &&& later.idle_window_ns == self.idle_window_ns
        &&& later.last_work_ns == (if did {
            now_ns
        } else {
            self.last_work_ns
        })
        &&& step == (if did || larger(now_ns - self.last_work_ns, 0)
            < self.idle_window_ns {
            ServeStep::Yield
        } else {
            ServeStep::Park
        })
    }

    /// What the server does after a round: it polls while there is work, and for the idle window
    /// after its last.
    pub fn round(&mut self, did: bool, now_ns: u64) -> (step: ServeStep)
        ensures
            old(self).turns(did, now_ns, step, *final(self)),
    {
        if did {
            self.last_work_ns = now_ns;
            return ServeStep::Yield;
        }
        if now_ns.saturating_sub(self.last_work_ns) < self.idle_window_ns {
            ServeStep::Yield
        } else {
            ServeStep::Park
        }
    }
}

/// The clients the control shard has handed out, and what became of the rest.
#[derive(Debug)]
pub struct LiveClients {
    pub ids: BTreeSet<u32>,
    /// The most clients at once.
    pub bound: usize,
    /// Connects refused at the bound.
    pub refused: u64,
    /// Admissions whose client was not seated.
    pub handoffs_lost: u64,
    /// Accept rounds that failed.
    pub accepts_failed: u64,
    /// Ids that could not be given back: each holds a place until the daemon restarts.
    pub releases_lost: u64,
}

/// How an id's release reached the control shard.
#[derive(Clone, Copy, Debug, PartialEq, Eq, Structural)]
pub enum Release {
    /// On the control shard itself, or by a task it took.
    Reached,
    /// The control shard's channel refused the task.
    Lost,
}

/// The live ids after a release.
pub open spec fn released(ids: Set<u32>, client_id: u32, release: Release) -> Set<u32> {
    match release {
        Release::Reached => ids.remove(client_id),
        Release::Lost => ids,
    }
}

/// How a client's handing over to its shard went.
#[derive(Clone, Copy, Debug, PartialEq, Eq, Structural)]
pub enum Seating {
    Seated,
    /// The shard's client table refused the slot.
    TableFull,
    /// The shard has no state.
    NoState,
    /// The seat task could not be sent.
    NotSent,
    /// The shard's arena refused the seat task, and dropped it unrun.
    NotRun,
}

/// How an admission ended, or a handing over with it: what of it is to be logged, each loss at its
/// first occurrence.
#[derive(Clone, Copy, Debug, PartialEq, Eq, Structural)]
pub struct EndedAdmission {
    /// The client was not seated, and is the first that was not.
    pub first_loss: bool,
    /// Its id could not be given back, and is the first that could not.
    pub first_release_lost: bool,
}

/// How a client's handing over ended.
#[derive(Clone, Copy, Debug, PartialEq, Eq, Structural)]
pub struct HandedOver {
    /// Whether the shard's server is to be woken, to mark the client or what it found there.
    pub wake: bool,
    pub ended: EndedAdmission,
}

/// How an admission is refused: the daemon is at its bound.
#[derive(Clone, Copy, Debug, PartialEq, Eq, Structural)]
pub struct TooManyClients {
    pub limit: usize,
}

/// The daemon's client bound.
pub fn client_bound(clients_per_shard: usize, shards: usize) -> (bound: usize)
    ensures
        bound == clamp_usize(clients_per_shard * shards),
{
    times_size(clients_per_shard, shards)
}

/// How an accept round failed.
#[derive(Clone, Copy, Debug, PartialEq, Eq, Structural)]
pub enum AcceptError {
    /// A client was admitted, and its handoff then failed.
    HandoffLost { client_id: u32 },
    /// Anything else: the round admitted nothing.
    Other,
}

impl LiveClients {
    /// No client, within a bound.
    pub fn new(bound: usize) -> (clients: LiveClients)
        ensures
            clients.ids@ == Set::<u32>::empty(),
            clients.bound == bound,
            clients.refused == 0,
            clients.handoffs_lost == 0,
            clients.accepts_failed == 0,
            clients.releases_lost == 0,
    {
        LiveClients {
            ids: BTreeSet::new(),
            bound,
            refused: 0,
            handoffs_lost: 0,
            accepts_failed: 0,
            releases_lost: 0,
        }
    }

    /// Whether an id is live.
    pub fn is_live(&self, client_id: u32) -> (live: bool)
        ensures
            live == self.ids@.contains(client_id),
    {
        self.ids.contains(&client_id)
    }

    /// Whether `shard` and `later` are what a reservation makes of this.
    pub open spec fn reserves(
        &self,
        client_id: u32,
        shards: usize,
        shard: Result<usize, TooManyClients>,
        later: LiveClients,
    ) -> bool {
        &&& later.bound == self.bound
        &&& later.handoffs_lost == self.handoffs_lost
        &&& later.accepts_failed == self.accepts_failed
        &&& later.releases_lost == self.releases_lost
        &&& if self.ids@.len() >= self.bound {
            &&& shard == Err::<usize, TooManyClients>(
                TooManyClients { limit: self.bound },
            )
            &&& later.ids@ == self.ids@
            &&& later.refused == clamp_u64(self.refused + 1)
        } else {
            &&& shard matches Ok(shard) && shard == client_id as int % shards as int
            &&& later.ids@ == self.ids@.insert(client_id)
            &&& later.refused == self.refused
        }
    }

    /// Admits a client and reserves its id at once, or refuses it at the bound: a burst of connects
    /// in one round is judged against every earlier one. The client's shard is its id's residue, so
    /// that one that comes back under its old id finds the shard that holds its records.
    pub fn reserve(&mut self, client_id: u32, shards: usize) -> (shard: Result<
        usize,
        TooManyClients,
    >)
        requires
            shards > 0,
        ensures
            old(self).reserves(client_id, shards, shard, *final(self)),
    {
        if self.ids.len() >= self.bound {
            self.refused = self.refused.saturating_add(1);
            return Err(TooManyClients { limit: self.bound });
        }
        self.ids.insert(client_id);
        Ok(client_id as usize % shards)
    }

    /// Whether `first` and `later` are what a release makes of this.
    pub open spec fn releases(&self, client_id: u32, release: Release, first: bool, later: LiveClients) -> bool {
        &&& later.bound == self.bound
        &&& later.refused == self.refused
        &&& later.handoffs_lost == self.handoffs_lost
        &&& later.accepts_failed == self.accepts_failed
        &&& later.ids@ == released(self.ids@, client_id, release)
        &&& later.releases_lost == (if release == Release::Lost {
            clamp_u64(self.releases_lost + 1)
        } else {
            self.releases_lost
        })
        &&& first == (release == Release::Lost && self.releases_lost == 0)
    }

    /// Gives an id back: a region that could not be created, a reaped client, or an admission that
    /// was not seated. Answers whether a lost release is the first, to be logged.
    pub fn release_client_id(&mut self, client_id: u32, release: Release) -> (first: bool)
        ensures
            old(self).releases(client_id, release, first, *final(self)),
    {
        match release {
            Release::Reached => {
                self.ids.remove(&client_id);
                false
            },
            Release::Lost => {
                let first = self.releases_lost == 0;
                self.releases_lost = self.releases_lost.saturating_add(1);
                first
            },
        }
    }

    /// Whether `ended` and `later` are what the end of an admission makes of this.
    pub open spec fn ends(
        &self,
        admission: Admission,
        release: Release,
        ended: EndedAdmission,
        later: LiveClients,
    ) -> bool {
        &&& later.bound == self.bound
        &&& later.refused == self.refused
        &&& later.accepts_failed == self.accepts_failed
        &&& if admission.seated {
            &&& later == *self
            &&& ended == (EndedAdmission { first_loss: false, first_release_lost: false })
        } else {
            &&& later.ids@ == released(self.ids@, admission.client_id, release)
            &&& later.handoffs_lost == clamp_u64(self.handoffs_lost + 1)
            &&& later.releases_lost == (if release == Release::Lost {
                clamp_u64(self.releases_lost + 1)
            } else {
                self.releases_lost
            })
            &&& ended == (EndedAdmission {
                first_loss: self.handoffs_lost == 0,
                first_release_lost: release == Release::Lost && self.releases_lost == 0,
            })
        }
    }

    /// Ends an admission: the id of a client that was not seated goes back, and the client is
    /// counted, once. Answers which of its losses is the first of its kind, to be logged.
    pub fn end_admission(&mut self, admission: &Admission, release: Release) -> (ended:
        EndedAdmission)
        ensures
            old(self).ends(*admission, release, ended, *final(self)),
    {
        if admission.seated {
            return EndedAdmission { first_loss: false, first_release_lost: false };
        }
        let first_release_lost = self.release_client_id(admission.client_id, release);
        let first_loss = self.handoffs_lost == 0;
        self.handoffs_lost = self.handoffs_lost.saturating_add(1);
        EndedAdmission { first_loss, first_release_lost }
    }

    /// Whether `over` and `later` are what a client's seating makes of this.
    pub open spec fn hands_over(
        &self,
        client_id: u32,
        seating: Seating,
        release: Release,
        over: HandedOver,
        later: LiveClients,
    ) -> bool {
        &&& later.bound == self.bound
        &&& later.refused == self.refused
        &&& later.accepts_failed == self.accepts_failed
        &&& over.wake == (seating == Seating::Seated || seating == Seating::TableFull)
        &&& if seating == Seating::Seated {
            &&& later == *self
            &&& over.ended == (EndedAdmission { first_loss: false, first_release_lost: false })
        } else {
            &&& later.ids@ == released(self.ids@, client_id, release)
            &&& later.handoffs_lost == clamp_u64(self.handoffs_lost + 1)
            &&& later.releases_lost == (if release == Release::Lost {
                clamp_u64(self.releases_lost + 1)
            } else {
                self.releases_lost
            })
            &&& over.ended == (EndedAdmission {
                first_loss: self.handoffs_lost == 0,
                first_release_lost: release == Release::Lost && self.releases_lost == 0,
            })
        }
    }

    /// Ends a client's handing over to its shard. Whatever kept a client from its seat, its id goes
    /// back and it is counted as one lost handoff. Answers whether the shard's server is to be woken,
    /// and which of the losses is the first of its kind, to be logged.
    pub fn handed_over(&mut self, client_id: u32, seating: Seating, release: Release) -> (over:
        HandedOver)
        ensures
            old(self).hands_over(client_id, seating, release, over, *final(self)),
    {
        let mut admission = Admission::new(client_id);
        let wake = match seating {
            Seating::Seated => {
                admission.seat();
                true
            },
            Seating::TableFull => true,
            _ => false,
        };
        let ended = self.end_admission(&admission, release);
        HandedOver { wake, ended }
    }

    /// Whether `first` and `later` are what a failed accept makes of this.
    pub open spec fn fails_accept(&self, error: AcceptError, first: bool, later: LiveClients) -> bool {
        &&& later.bound == self.bound
        &&& later.refused == self.refused
        &&& later.releases_lost == self.releases_lost
        &&& match error {
            AcceptError::HandoffLost { client_id } => {
                &&& later.ids@ == self.ids@.remove(client_id)
                &&& later.handoffs_lost == clamp_u64(self.handoffs_lost + 1)
                &&& later.accepts_failed == self.accepts_failed
                &&& first == (self.handoffs_lost == 0)
            },
            AcceptError::Other => {
                &&& later.ids@ == self.ids@
                &&& later.handoffs_lost == self.handoffs_lost
                &&& later.accepts_failed == clamp_u64(self.accepts_failed + 1)
                &&& first == (self.accepts_failed == 0)
            },
        }
    }

    /// Ends a failed accept round: whether it is the first of its kind, to be logged.
    pub fn accept_failed(&mut self, error: AcceptError) -> (first: bool)
        ensures
            old(self).fails_accept(error, first, *final(self)),
    {
        match error {
            AcceptError::HandoffLost { client_id } => {
                self.ids.remove(&client_id);
                let first = self.handoffs_lost == 0;
                self.handoffs_lost = self.handoffs_lost.saturating_add(1);
                first
            },
            AcceptError::Other => {
                let first = self.accepts_failed == 0;
                self.accepts_failed = self.accepts_failed.saturating_add(1);
                first
            },
        }
    }
}

/// One client's admission, from its reserved id to its seat on its shard.
#[derive(Clone, Copy, Debug, PartialEq, Eq, Structural)]
pub struct Admission {
    pub client_id: u32,
    pub seated: bool,
}

impl Admission {
    /// An admission whose client is not seated yet.
    pub fn new(client_id: u32) -> (admission: Admission)
        ensures
            admission == (Admission { client_id, seated: false }),
    {
        Admission { client_id, seated: false }
    }

    /// The client's slot is in its shard's table.
    pub fn seat(&mut self)
        ensures
            *final(self) == (Admission { seated: true, ..*old(self) }),
    {
        self.seated = true;
    }
}

/// A refused admission leaks no id: reserved, and then ended unseated with a release that reached the
/// control shard, the live ids are as before.
pub proof fn an_unseated_admission_leaks_no_id(ids: Set<u32>, client_id: u32)
    requires
        !ids.contains(client_id),
    ensures
        released(ids.insert(client_id), client_id, Release::Reached) == ids,
{
    assert(ids.insert(client_id).remove(client_id) =~= ids);
}

/// The live clients never pass the bound: a reservation that was made found room for it.
pub proof fn reservations_stay_within_the_bound(ids: Set<u32>, bound: nat, client_id: u32)
    requires
        ids.finite(),
        ids.len() < bound,
    ensures
        ids.insert(client_id).len() <= bound,
{
}

/// A stage of an observation.
#[derive(Clone, Copy, Debug, PartialEq, Eq, Structural)]
pub enum ObserveStage {
    Submission,
    Admission,
    Execution,
}

/// How an observation ends short of an answer.
#[derive(Clone, Copy, Debug, PartialEq, Eq, Structural)]
pub enum ObserveError {
    /// There is no such shard.
    NoTarget,
    /// The daemon has no runtime.
    NoRuntime,
    /// The shard's slot is no longer held by it.
    ShardGone { shard: u16, stage: ObserveStage },
    /// The submission was refused.
    Submission { attempts: u32, waited_ns: u64 },
    /// The admission was refused.
    Admission { attempts: u32, waited_ns: u64 },
    /// The shard ended with the question pending.
    Terminated { stage: ObserveStage, attempts: u32 },
    /// The budget ran out at a stage.
    Deadline { stage: ObserveStage, budget_ns: u64, attempts: u32, waited_ns: u64 },
}

/// What a bootstrap reports for an observation it could not make.
#[derive(Clone, Copy, Debug, PartialEq, Eq, Structural)]
pub enum BootstrapRefusal {
    /// The shard is starved: the caller may try again.
    Overloaded { shard: u16 },
    /// The shard can never be reached.
    ConsensusNotInitialized,
    /// The group's own refusal.
    Group { refusal: ConsensusRefusal },
}

/// What is reported for an observation that could not be made: a shard that is merely starved is told
/// apart from one that can never answer.
pub open spec fn unobserved(shard: Option<u16>, terminal: bool) -> BootstrapRefusal {
    match shard {
        Some(shard) => if terminal {
            BootstrapRefusal::ConsensusNotInitialized
        } else {
            BootstrapRefusal::Overloaded { shard }
        },
        None => BootstrapRefusal::ConsensusNotInitialized,
    }
}

/// What a bootstrap reports for an observation it could not make.
pub fn bootstrap_refusal(shard: Option<u16>, terminal: bool) -> (refusal: BootstrapRefusal)
    ensures
        refusal == unobserved(shard, terminal),
{
    match shard {
        Some(shard) => if terminal {
            BootstrapRefusal::ConsensusNotInitialized
        } else {
            BootstrapRefusal::Overloaded { shard }
        },
        None => BootstrapRefusal::ConsensusNotInitialized,
    }
}

/// A daemon, as its observers see it.
pub struct Daemon {
    /// Whether its runtime runs.
    pub running: bool,
    pub config: DaemonConfig,
    pub shards: Vec<u16>,
    /// The mount transport's loopback port, where it serves one.
    pub nfs_port: Option<u16>,
}

/// Where a bootstrap stands.
#[derive(Clone, Copy, Debug, PartialEq, Eq, Structural)]
pub enum BootstrapStep {
    /// Ask the control shard who this member is.
    AskIdentity { shard: u16 },
    /// Create the group on the control shard, and capture what it publishes.
    Create { shard: u16, member: u64 },
    /// Publish what was captured on another shard.
    Publish { index: usize, shard: u16 },
    Done,
    Refused { refusal: BootstrapRefusal },
}

/// What came of a bootstrap's step.
#[derive(Clone, Copy, Debug, PartialEq, Eq, Structural)]
pub enum BootstrapAnswer {
    /// The observation could not be made; whether it never can be.
    Unobserved { terminal: bool },
    Identity { member: u64 },
    Acknowledged,
    GroupRefused { refusal: ConsensusRefusal },
    /// Any other reply.
    Other,
    /// The publication is applied.
    Applied,
}

impl Daemon {
    /// The stable local rendezvous name.
    pub fn instance(&self) -> (name: &String)
        ensures
            *name == self.config.instance,
    {
        &self.config.instance
    }

    /// The configuration.
    pub fn config(&self) -> (config: &DaemonConfig)
        ensures
            *config == self.config,
    {
        &self.config
    }

    /// The mount transport's loopback port, where it serves one.
    pub fn nfs_port(&self) -> (port: Option<u16>)
        ensures
            port == self.nfs_port,
    {
        self.nfs_port
    }

    /// The shards.
    pub fn shards(&self) -> (shards: &Vec<u16>)
        ensures
            *shards == self.shards,
    {
        &self.shards
    }

    /// The control shard: the first.
    pub open spec fn control(&self) -> Option<u16> {
        if self.shards@.len() > 0 {
            Some(self.shards@[0])
        } else {
            None
        }
    }

    /// The control shard: the first.
    pub fn control_shard(&self) -> (shard: Option<u16>)
        ensures
            shard == self.control(),
    {
        if self.shards.len() > 0 {
            Some(self.shards[0])
        } else {
            None
        }
    }

    /// The shard a partition is on.
    pub open spec fn shard_at(&self, partition: u16) -> Option<u16> {
        if (partition as int) < self.shards@.len() {
            Some(self.shards@[partition as int])
        } else {
            None
        }
    }

    /// The shard that owns an object, by the partition its id encodes.
    pub fn shard_of_object(&self, partition: u16) -> (shard: Option<u16>)
        ensures
            shard == self.shard_at(partition),
    {
        if (partition as usize) < self.shards.len() {
            Some(self.shards[partition as usize])
        } else {
            None
        }
    }

    /// The shard an observer may ask, or why it may not.
    pub open spec fn observed(&self, target: Option<u16>, held: bool) -> Result<u16, ObserveError> {
        match target {
            None => Err(ObserveError::NoTarget),
            Some(shard) => if !self.running {
                Err(ObserveError::NoRuntime)
            } else if !held {
                Err(ObserveError::ShardGone { shard, stage: ObserveStage::Submission })
            } else {
                Ok(shard)
            },
        }
    }

    /// The shard an observation is pinned to, with the refusals decided before anything is
    /// submitted: no such shard, no runtime, the shard's slot no longer held by it.
    pub fn observation(&self, target: Option<u16>, held: bool) -> (shard: Result<
        u16,
        ObserveError,
    >)
        ensures
            shard == self.observed(target, held),
    {
        let shard: u16 = match target {
            Some(shard) => shard,
            None => {
                return Err(ObserveError::NoTarget);
            },
        };
        if !self.running {
            return Err(ObserveError::NoRuntime);
        }
        if !held {
            return Err(ObserveError::ShardGone { shard, stage: ObserveStage::Submission });
        }
        Ok(shard)
    }

    /// The first step of a bootstrap.
    pub open spec fn bootstrapped(&self) -> BootstrapStep {
        match self.control() {
            Some(shard) => BootstrapStep::AskIdentity { shard },
            None => BootstrapStep::Refused {
                refusal: BootstrapRefusal::ConsensusNotInitialized,
            },
        }
    }

    /// Begins the explicit first-time creation of a group.
    pub fn bootstrap(&self) -> (step: BootstrapStep)
        ensures
            step == self.bootstrapped(),
    {
        if self.shards.len() > 0 {
            BootstrapStep::AskIdentity { shard: self.shards[0] }
        } else {
            BootstrapStep::Refused { refusal: BootstrapRefusal::ConsensusNotInitialized }
        }
    }

    /// The step that publishes on the shard at an index, or the end past the last.
    pub open spec fn publishing(&self, index: int) -> BootstrapStep {
        if index < self.shards@.len() {
            BootstrapStep::Publish { index: index as usize, shard: self.shards@[index] }
        } else {
            BootstrapStep::Done
        }
    }

    /// The step after an answer: a shard that could not be asked ends the bootstrap with what is
    /// reported for it, and an answer out of place leaves the group not initialized.
    pub open spec fn bootstrap_after(&self, step: BootstrapStep, answer: BootstrapAnswer) ->
        BootstrapStep {
        match (step, answer) {
            (
                BootstrapStep::AskIdentity { shard },
                BootstrapAnswer::Unobserved { terminal },
            ) => BootstrapStep::Refused { refusal: unobserved(Some(shard), terminal) },
            (
                BootstrapStep::Create { shard, member: _ },
                BootstrapAnswer::Unobserved { terminal },
            ) => BootstrapStep::Refused { refusal: unobserved(Some(shard), terminal) },
            (
                BootstrapStep::Publish { index: _, shard },
                BootstrapAnswer::Unobserved { terminal },
            ) => BootstrapStep::Refused { refusal: unobserved(Some(shard), terminal) },
            (
                BootstrapStep::AskIdentity { shard },
                BootstrapAnswer::Identity { member },
            ) => BootstrapStep::Create { shard, member },
            (
                BootstrapStep::Create { shard: _, member: _ },
                BootstrapAnswer::Acknowledged,
            ) => self.publishing(1),
            (
                BootstrapStep::Create { shard: _, member: _ },
                BootstrapAnswer::GroupRefused { refusal },
            ) => BootstrapStep::Refused { refusal: BootstrapRefusal::Group { refusal } },
            (
                BootstrapStep::Publish { index, shard: _ },
                BootstrapAnswer::Applied,
            ) => self.publishing(index + 1),
            (BootstrapStep::Done, _) => BootstrapStep::Done,
            (BootstrapStep::Refused { refusal }, _) => BootstrapStep::Refused { refusal },
            _ => BootstrapStep::Refused { refusal: BootstrapRefusal::ConsensusNotInitialized },
        }
    }

    /// The step that publishes on the shard at an index, or the end past the last.
    fn publish_on(&self, index: usize) -> (step: BootstrapStep)
        ensures
            step == self.publishing(index as int),
    {
        if index < self.shards.len() {
            BootstrapStep::Publish { index, shard: self.shards[index] }
        } else {
            BootstrapStep::Done
        }
    }

    /// The step after an answer.
    pub fn bootstrap_next(&self, step: BootstrapStep, answer: BootstrapAnswer) -> (next:
        BootstrapStep)
        ensures
            next == self.bootstrap_after(step, answer),
    {
        match (step, answer) {
            (BootstrapStep::AskIdentity { shard }, BootstrapAnswer::Unobserved { terminal }) => {
                BootstrapStep::Refused { refusal: bootstrap_refusal(Some(shard), terminal) }
            },
            (
                BootstrapStep::Create { shard, member: _ },
                BootstrapAnswer::Unobserved { terminal },
            ) => {
                BootstrapStep::Refused { refusal: bootstrap_refusal(Some(shard), terminal) }
            },
            (
                BootstrapStep::Publish { index: _, shard },
                BootstrapAnswer::Unobserved { terminal },
            ) => {
                BootstrapStep::Refused { refusal: bootstrap_refusal(Some(shard), terminal) }
            },
            (BootstrapStep::AskIdentity { shard }, BootstrapAnswer::Identity { member }) => {
                BootstrapStep::Create { shard, member }
            },
            (BootstrapStep::Create { shard: _, member: _ }, BootstrapAnswer::Acknowledged) => {
                self.publish_on(1)
            },
            (
                BootstrapStep::Create { shard: _, member: _ },
                BootstrapAnswer::GroupRefused { refusal },
            ) => {
                BootstrapStep::Refused { refusal: BootstrapRefusal::Group { refusal } }
            },
            (BootstrapStep::Publish { index, shard: _ }, BootstrapAnswer::Applied) => {
                assert(self.shards@.len() == self.shards.len());
                self.publish_on(index.saturating_add(1))
            },
            (BootstrapStep::Done, _) => BootstrapStep::Done,
            (BootstrapStep::Refused { refusal }, _) => BootstrapStep::Refused { refusal },
            _ => BootstrapStep::Refused { refusal: BootstrapRefusal::ConsensusNotInitialized },
        }
    }
}

/// A bootstrap that is done published on every other shard: it ends only at the creation, where there
/// is no other, or at the last shard's publication; and a publication goes from one shard to the next.
pub proof fn a_bootstrap_reaches_every_shard(
    daemon: Daemon,
    step: BootstrapStep,
    answer: BootstrapAnswer,
)
    requires
        !(step is Done),
        daemon.bootstrap_after(step, answer) is Done,
    ensures
        step is Create && answer is Acknowledged && daemon.shards@.len() <= 1 || (
        step matches BootstrapStep::Publish { index, shard: _ } && answer is Applied && index + 1
            >= daemon.shards@.len()),
{
}

/// How a task offered to a shard's channel went.
#[derive(Clone, Copy, Debug, PartialEq, Eq, Structural)]
pub enum Offered {
    Queued,
    /// The channel is full.
    Full,
    /// The shard is gone.
    Gone { shard: u16 },
    /// Any other refusal.
    Refused,
}

/// What an offered task makes of a flood.
pub open spec fn flooded(queued: usize, offered: Offered) -> Result<(usize, bool), ObserveError> {
    match offered {
        Offered::Queued => Ok(((queued + 1) as usize, true)),
        Offered::Full => Ok((queued, false)),
        Offered::Gone { shard } => Err(
            ObserveError::ShardGone { shard, stage: ObserveStage::Submission },
        ),
        Offered::Refused => Err(ObserveError::Submission { attempts: 1, waited_ns: 0 }),
    }
}

/// What a flood of a control channel does after an offer: it goes on until the channel is full.
pub fn flood_step(queued: usize, offered: Offered) -> (step: Result<(usize, bool), ObserveError>)
    requires
        queued < usize::MAX,
    ensures
        step == flooded(queued, offered),
{
    match offered {
        Offered::Queued => Ok((queued + 1, true)),
        Offered::Full => Ok((queued, false)),
        Offered::Gone { shard } => Err(
            ObserveError::ShardGone { shard, stage: ObserveStage::Submission },
        ),
        Offered::Refused => Err(ObserveError::Submission { attempts: 1, waited_ns: 0 }),
    }
}

/// How a filler's admission went.
#[derive(Clone, Copy, Debug, PartialEq, Eq, Structural)]
pub enum FillReceipt {
    Admitted,
    /// The arena is full.
    TooManyTasks,
    /// The filler could not be submitted.
    NotSubmitted,
    /// Any other refusal.
    Refused,
    /// The shard ended.
    Terminated,
    /// No receipt within the observation budget.
    Silent,
}

/// A shard's task arena filled with parked fillers.
#[derive(Debug)]
pub struct ArenaFill {
    left: usize,
    parked: usize,
    admitted: usize,
    reached_the_bound: bool,
}

/// What a fill counts.
pub struct ArenaFacts {
    /// The fillers still to offer.
    pub left: usize,
    /// The fillers parked in the arena.
    pub parked: nat,
    /// The fillers the arena took.
    pub admitted: nat,
    pub reached_the_bound: bool,
}

impl View for ArenaFill {
    type V = ArenaFacts;

    closed spec fn view(&self) -> ArenaFacts {
        ArenaFacts {
            left: self.left,
            parked: self.parked as nat,
            admitted: self.admitted as nat,
            reached_the_bound: self.reached_the_bound,
        }
    }
}

impl ArenaFill {
    /// Every filler was offered at most once.
    #[verifier::type_invariant]
    spec fn accounted(self) -> bool {
        self.admitted + self.left <= usize::MAX && self.parked <= self.admitted
    }

    /// Nothing offered yet, and at most twice the arena to offer: a fill that is not refused by then
    /// is reported as not reaching the bound.
    pub fn new(tasks_per_shard: usize) -> (fill: ArenaFill)
        ensures
            fill@ == (ArenaFacts {
                left: clamp_usize(tasks_per_shard * 2),
                parked: 0,
                admitted: 0,
                reached_the_bound: false,
            }),
    {
        ArenaFill {
            left: times_size(tasks_per_shard, 2),
            parked: 0,
            admitted: 0,
            reached_the_bound: false,
        }
    }

    /// Whether another filler is offered.
    pub fn offers(&self) -> (more: bool)
        ensures
            more == (self@.left > 0 && !self@.reached_the_bound),
    {
        self.left > 0 && !self.reached_the_bound
    }

    /// Whether `taken` and `later` are what a receipt makes of a filling arena.
    pub open spec fn takes(before: ArenaFacts, receipt: FillReceipt, taken: Result<(), ObserveError>, later: ArenaFacts) -> bool {
        match receipt {
            FillReceipt::Admitted => {
                &&& taken is Ok
                &&& later == (ArenaFacts {
                    left: (before.left - 1) as usize,
                    parked: before.parked + 1,
                    admitted: before.admitted + 1,
                    ..before
                })
            },
            FillReceipt::TooManyTasks => {
                &&& taken is Ok
                &&& later == (ArenaFacts {
                    left: (before.left - 1) as usize,
                    reached_the_bound: true,
                    ..before
                })
            },
            FillReceipt::NotSubmitted => {
                &&& taken == Err::<(), ObserveError>(
                    ObserveError::Submission { attempts: 1, waited_ns: 0 },
                )
                &&& later == before
            },
            FillReceipt::Refused => {
                &&& taken == Err::<(), ObserveError>(
                    ObserveError::Admission { attempts: 1, waited_ns: 0 },
                )
                &&& later == before
            },
            FillReceipt::Terminated => {
                &&& taken == Err::<(), ObserveError>(
                    ObserveError::Terminated { stage: ObserveStage::Admission, attempts: 1 },
                )
                &&& later == before
            },
            FillReceipt::Silent => {
                &&& taken == Err::<(), ObserveError>(
                    ObserveError::Deadline {
                        stage: ObserveStage::Admission,
                        budget_ns: OBSERVE_BUDGET_NS,
                        attempts: 1,
                        waited_ns: OBSERVE_BUDGET_NS,
                    },
                )
                &&& later == before
            },
        }
    }

    /// Takes up an offered filler's receipt; a refusal other than a full arena ends the fill.
    pub fn offered(&mut self, receipt: FillReceipt) -> (taken: Result<(), ObserveError>)
        requires
            old(self)@.left > 0,
        ensures
            Self::takes(old(self)@, receipt, taken, final(self)@),
    {
        proof {
            use_type_invariant(&*self);
        }
        match receipt {
            FillReceipt::Admitted => {
                *self = ArenaFill {
                    left: self.left - 1,
                    parked: self.parked + 1,
                    admitted: self.admitted + 1,
                    reached_the_bound: self.reached_the_bound,
                };
                Ok(())
            },
            FillReceipt::TooManyTasks => {
                self.left = self.left - 1;
                self.reached_the_bound = true;
                Ok(())
            },
            FillReceipt::NotSubmitted => Err(
                ObserveError::Submission { attempts: 1, waited_ns: 0 },
            ),
            FillReceipt::Refused => Err(ObserveError::Admission { attempts: 1, waited_ns: 0 }),
            FillReceipt::Terminated => Err(
                ObserveError::Terminated { stage: ObserveStage::Admission, attempts: 1 },
            ),
            FillReceipt::Silent => Err(
                ObserveError::Deadline {
                    stage: ObserveStage::Admission,
                    budget_ns: OBSERVE_BUDGET_NS,
                    attempts: 1,
                    waited_ns: OBSERVE_BUDGET_NS,
                },
            ),
        }
    }

    /// How many fillers the arena admitted.
    pub fn admitted(&self) -> (count: usize)
        ensures
            count == self@.admitted,
    {
        self.admitted
    }

    /// Whether the fill met the arena's bound.
    pub fn reached_the_bound(&self) -> (reached: bool)
        ensures
            reached == self@.reached_the_bound,
    {
        self.reached_the_bound
    }

    /// Releases the fillers now, and keeps the counts: how many were parked.
    pub fn release(&mut self) -> (released: usize)
        ensures
            released == old(self)@.parked,
            final(self)@ == (ArenaFacts { parked: 0, ..old(self)@ }),
    {
        proof {
            use_type_invariant(&*self);
        }
        let released = self.parked;
        self.parked = 0;
        released
    }
}

/// One shard's forward-progress pulse.
#[derive(Clone, Copy, Debug, PartialEq, Eq, Structural)]
pub struct ShardPulse {
    pub shard: u16,
    /// Loop iterations the shard has run.
    pub steps: u64,
    /// Driver waits the shard has entered.
    pub waits: u64,
    /// Tasks the shard has taken into its arena.
    pub spawns: u64,
    /// Tasks whose future returned.
    pub completed: u64,
    /// Tasks refused because the arena was full.
    pub admission_refused: u64,
    pub longest_step_ns: u64,
    /// Whether the shard was parked when read.
    pub parked: bool,
    /// Kicks skipped because the shard was not parked.
    pub kicks_skipped: u64,
    /// Times a sender found the wake ring full.
    pub ring_full_events: u64,
    /// How late the shard's steps have run after their waits.
    pub scheduler_overrun_ns: u64,
}

/// The doorbell flag of a daemon in a table of them: its control shard's, or the first for a shard
/// outside the table.
pub fn doorbell_slot(control: u16, slots: usize) -> (slot: usize)
    requires
        slots > 0,
    ensures
        slot == (if (control as int) < slots {
            control as int
        } else {
            0
        }),
        slot < slots,
{
    if (control as usize) < slots {
        control as usize
    } else {
        0
    }
}

/// Whether every member a node keeps direct contact with, but itself, has a formed probe session.
pub open spec fn is_meshed(
    host: HostId,
    members: Seq<HostId>,
    contacts: ContactSets,
    beliefs: Map<u64, MemberState>,
    formed: Set<u64>,
) -> bool {
    forall|i: int|
        0 <= i < members.len() && #[trigger] members[i] != host && contacts.contact(
            lookup(beliefs, members[i].0),
            members[i],
        ) ==> formed.contains(members[i].0)
}

/// Whether a node's direct probe mesh has formed.
pub fn fleet_meshed(
    host: HostId,
    members: &Vec<HostId>,
    contacts: &ContactSets,
    beliefs: &BTreeMap<u64, MemberState>,
    formed: &BTreeSet<u64>,
) -> (meshed: bool)
    ensures
        meshed == is_meshed(host, members@, *contacts, beliefs@, formed@),
{
    let mut i: usize = 0;
    while i < members.len()
        invariant
            i <= members@.len(),
            forall|j: int|
                0 <= j < i && #[trigger] members@[j] != host && contacts.contact(
                    lookup(beliefs@, members@[j].0),
                    members@[j],
                ) ==> formed@.contains(members@[j].0),
        decreases members@.len() - i,
    {
        let member = members[i];
        let belief = match beliefs.get(&member.0) {
            Some(belief) => Some(*belief),
            None => None,
        };
        if member != host && contacts.keeps_direct_contact_with(belief, member)
            && !formed.contains(&member.0) {
            assert(members@[i as int] != host);
            return false;
        }
        i += 1;
    }
    true
}

/// A position a holder keeps for an object.
#[derive(Clone, Copy, Debug, PartialEq, Eq, Structural)]
pub struct HeldPosition {
    pub object: ObjectId,
    pub sequence: u64,
    pub epoch: HostEpoch,
}

/// Whether one position is no newer than another: by sequence, then by epoch.
pub open spec fn no_newer(a: HeldPosition, b: HeldPosition) -> bool {
    a.sequence < b.sequence || (a.sequence == b.sequence && a.epoch.0 <= b.epoch.0)
}

/// Whether the newest position held for an object stands at an index; of equal ones, the last.
pub open spec fn is_newest(positions: Seq<HeldPosition>, object: ObjectId, at: int) -> bool {
    &&& 0 <= at < positions.len()
    &&& positions[at].object == object
    &&& forall|i: int|
        0 <= i < positions.len() && (#[trigger] positions[i]).object == object ==> no_newer(
            positions[i],
            positions[at],
        )
    &&& forall|i: int|
        at < i < positions.len() && (#[trigger] positions[i]).object == object ==> !no_newer(
            positions[at],
            positions[i],
        )
}

/// Whether `at` is where the newest of an object's positions stands.
pub open spec fn finds_newest(positions: Seq<HeldPosition>, object: ObjectId, at: Option<usize>) -> bool {
    match at {
        Some(at) => is_newest(positions, object, at as int),
        None => forall|i: int|
            0 <= i < positions.len() ==> (#[trigger] positions[i]).object != object,
    }
}

/// The newest position held for an object.
pub fn newest_position(positions: &Vec<HeldPosition>, object: ObjectId) -> (at: Option<usize>)
    ensures
        finds_newest(positions@, object, at),
{
    let mut best: Option<usize> = None;
    let mut i: usize = 0;
    while i < positions.len()
        invariant
            i <= positions@.len(),
            match best {
                Some(at) => {
                    &&& at < i
                    &&& positions@[at as int].object == object
                    &&& forall|j: int|
                        0 <= j < i && (#[trigger] positions@[j]).object == object ==> no_newer(
                            positions@[j],
                            positions@[at as int],
                        )
                    &&& forall|j: int|
                        at < j < i && (#[trigger] positions@[j]).object == object ==> !no_newer(
                            positions@[at as int],
                            positions@[j],
                        )
                },
                None => forall|j: int|
                    0 <= j < i ==> (#[trigger] positions@[j]).object != object,
            },
        decreases positions@.len() - i,
    {
        let position = positions[i];
        if position.object == object {
            let replaces = match best {
                Some(at) => {
                    let known = positions[at];
                    known.sequence < position.sequence || (known.sequence == position.sequence
                        && known.epoch.0 <= position.epoch.0)
                },
                None => true,
            };
            if replaces {
                best = Some(i);
            }
        }
        i += 1;
    }
    best
}

/// The mirror an operator's promotion of a lost region goes to, if one is designated.
pub fn promote_region(mirrors: &BTreeMap<u64, RegionId>, lost: RegionId) -> (mirror: Option<
    RegionId,
>)
    ensures
        mirror == lookup(mirrors@, lost.0),
{
    match mirrors.get(&lost.0) {
        Some(mirror) => Some(*mirror),
        None => None,
    }
}

/// Counts a durability shortfall measured at a configuration change, on the one shard that counts:
/// a change moves the signal once.
pub fn count_breach(breaches: &mut u64, shortfall: bool, counts: bool)
    ensures
        *final(breaches) == (if shortfall && counts {
            clamp_u64(*old(breaches) + 1)
        } else {
            *old(breaches)
        }),
{
    if shortfall && counts {
        *breaches = breaches.saturating_add(1);
    }
}

/// Whether `raised` is how the descriptor limit is raised.
pub open spec fn raises(
    current: Option<u64>,
    maximum: Option<u64>,
    platform_cap: Option<u64>,
    raised: Option<(u64, u64)>,
) -> bool {
    ({
        let most = match maximum {
            Some(maximum) => maximum,
            None => u64::MAX,
        };
        let wanted = match platform_cap {
            Some(cap) => smaller(most as int, cap as int) as u64,
            None => most,
        };
        raised == (match current {
            Some(current) => if wanted > current {
                Some((current, wanted))
            } else {
                None
            },
            None => None,
        })
    })
}

/// The descriptor limit a process raises itself to: the hard limit, held to the platform's cap,
/// where that is above the soft limit it has.
pub fn raise_descriptor_limit(
    current: Option<u64>,
    maximum: Option<u64>,
    platform_cap: Option<u64>,
) -> (raised: Option<(u64, u64)>)
    ensures
        raises(current, maximum, platform_cap, raised),
{
    let current: u64 = match current {
        Some(current) => current,
        None => {
            return None;
        },
    };
    let most: u64 = match maximum {
        Some(maximum) => maximum,
        None => u64::MAX,
    };
    let wanted: u64 = match platform_cap {
        Some(cap) => if cap < most {
            cap
        } else {
            most
        },
        None => most,
    };
    if wanted <= current {
        return None;
    }
    Some((current, wanted))
}

/// A chokepoint is reported as missing exactly when it is not registered, and no two share a name.
pub proof fn an_unregistered_chokepoint_is_reported(
    registry: Seq<Chokepoint>,
    checked: Result<(), ServerError>,
    chokepoint: Chokepoint,
    other: Chokepoint,
)
    requires
        checks(registry, checked),
    ensures
        !registry.contains(chokepoint) ==> checked is Err,
        checked matches Err(ServerError::ChokepointsUnregistered { missing }) ==> {
            &&& !registry.contains(chokepoint) ==> missing@.contains(chokepoint.named())
            &&& exists|absent: Chokepoint| !registry.contains(absent)
        },
        chokepoint != other ==> chokepoint.named()@ != other.named()@,
{
    let absent = |chokepoint: Chokepoint| !registry.contains(chokepoint);
    let missing = roster().filter(absent);
    assert(roster().len() == 9);
    assert(roster().contains(chokepoint)) by {
        assert(roster()[0] == Chokepoint::BridgeRequest);
        assert(roster()[1] == Chokepoint::RingRequest);
        assert(roster()[2] == Chokepoint::ShardOp);
        assert(roster()[3] == Chokepoint::LogAppend);
        assert(roster()[4] == Chokepoint::ShipRecord);
        assert(roster()[5] == Chokepoint::ConsensusStep);
        assert(roster()[6] == Chokepoint::ArchiveChunk);
        assert(roster()[7] == Chokepoint::LandEntry);
        assert(roster()[8] == Chokepoint::MergeVerdict);
    }
    if !registry.contains(chokepoint) {
        let at = choose|at: int| 0 <= at < roster().len() && roster()[at] == chokepoint;
        roster().lemma_filter_contains(absent, at);
        let k = choose|k: int| 0 <= k < missing.len() && missing[k] == chokepoint;
        if let Err(ServerError::ChokepointsUnregistered { missing: names }) = checked {
            assert(names@[k] == chokepoint.named());
        }
    }
    if let Err(error) = checked {
        assert(missing.len() > 0);
        roster().lemma_filter_pred(absent, 0);
        assert(!registry.contains(missing[0]));
    }
    reveal_strlit("bridge.request");
    reveal_strlit("ring.request");
    reveal_strlit("shard.op");
    reveal_strlit("log.append");
    reveal_strlit("ship.record");
    reveal_strlit("consensus.step");
    reveal_strlit("archive.chunk");
    reveal_strlit("land.entry");
    reveal_strlit("merge.verdict");
    if chokepoint != other && chokepoint.named()@ == other.named()@ {
        assert(chokepoint.named()@[0] == other.named()@[0]);
        assert(chokepoint.named()@[1] == other.named()@[1]);
        assert(chokepoint.named()@.len() == other.named()@.len());
    }
}

/// A daemon starts stage by stage: its segment and what was retained come before its runtime, every
/// shard before clients can find it, the control loops and the fleet's before the mount; without a
/// mount it serves all the same.
pub proof fn a_daemon_starts_in_order(shards: usize, index: usize, fleet: bool)
    requires
        shards > 0,
    ensures
        DaemonBoot::Chokepoints.after(true, shards, fleet) == DaemonBoot::Segment,
        DaemonBoot::Segment.after(true, shards, fleet) == DaemonBoot::Profile,
        DaemonBoot::Profile.after(true, shards, fleet) == DaemonBoot::IssuerSecret,
        DaemonBoot::IssuerSecret.after(true, shards, fleet) == DaemonBoot::Retained,
        DaemonBoot::Retained.after(true, shards, fleet) == DaemonBoot::Runtime,
        DaemonBoot::Runtime.after(true, shards, fleet) == (DaemonBoot::Shard { index: 0 }),
        index < shards - 1 ==> (DaemonBoot::Shard { index }).after(true, shards, fleet) == (
        DaemonBoot::Shard { index: (index + 1) as usize }),
        index >= shards - 1 ==> (DaemonBoot::Shard { index }).after(true, shards, fleet)
            == DaemonBoot::Rendezvous,
        DaemonBoot::Rendezvous.after(true, shards, fleet) == DaemonBoot::Control,
        DaemonBoot::Control.after(true, shards, true) == DaemonBoot::Fleet,
        DaemonBoot::Control.after(true, shards, false) == DaemonBoot::Mount,
        DaemonBoot::Fleet.after(true, shards, fleet) == DaemonBoot::Mount,
        DaemonBoot::Mount.after(true, shards, fleet) == DaemonBoot::ServeMount,
        DaemonBoot::Mount.after(false, shards, fleet) == DaemonBoot::Serving,
        DaemonBoot::ServeMount.after(true, shards, fleet) == DaemonBoot::Serving,
        DaemonBoot::ServeMount.after(false, shards, fleet) == DaemonBoot::Refused,
        DaemonBoot::Fleet.after(false, shards, fleet) == DaemonBoot::Refused,
        DaemonBoot::Runtime.after(true, 0, fleet) == DaemonBoot::Rendezvous,
        DaemonBoot::Rendezvous.after(true, 0, fleet) == DaemonBoot::Refused,
        DaemonBoot::Serving.after(false, shards, fleet) == DaemonBoot::Serving,
{
}

/// A shard recovers before it allocates, stores and retains, and serves once both its loops run; a
/// stage that fails before that fails the shard.
pub proof fn a_shard_starts_in_order(boot: ShardBoot)
    ensures
        ShardBoot::Attach.after(true) == ShardBoot::Recover,
        ShardBoot::Recover.after(true) == ShardBoot::Arena,
        ShardBoot::Arena.after(true) == ShardBoot::Store,
        ShardBoot::Store.after(true) == ShardBoot::Content,
        ShardBoot::Content.after(true) == ShardBoot::Retain,
        ShardBoot::Retain.after(true) == ShardBoot::ServeLoop,
        ShardBoot::ServeLoop.after(true) == ShardBoot::ReapLoop,
        ShardBoot::ReapLoop.after(true) == ShardBoot::Serving,
        ShardBoot::Serving.after(true) == ShardBoot::Serving,
        ShardBoot::Serving.after(false) == ShardBoot::Serving,
        boot != ShardBoot::Serving ==> boot.after(false) == ShardBoot::Failed,
        ShardBoot::Failed.after(true) == ShardBoot::Failed,
{
}

/// A segment's content is found under its own name: the segment's with the kind replaced, whatever
/// follows it, or else the name with a suffix; two names never share a content object of their kind.
pub proof fn a_content_name_follows_its_segment(rest: Seq<char>, other: Seq<char>, name: Seq<char>)
    requires
        !("slates-seg-"@.is_prefix_of(name)),
    ensures
        content_name("slates-seg-"@ + rest) == "slates-con-"@ + rest,
        content_name("slates-seg-"@ + rest) == content_name("slates-seg-"@ + other) ==> rest == other,
        content_name(name) == name + "-c"@,
{
    let named = "slates-seg-"@ + rest;
    assert("slates-seg-"@.is_prefix_of(named)) by {
        assert(named.take("slates-seg-"@.len() as int) =~= "slates-seg-"@);
    }
    assert(named.skip("slates-seg-"@.len() as int) =~= rest);
    let twin = "slates-seg-"@ + other;
    assert("slates-seg-"@.is_prefix_of(twin)) by {
        assert(twin.take("slates-seg-"@.len() as int) =~= "slates-seg-"@);
    }
    assert(twin.skip("slates-seg-"@.len() as int) =~= other);
    let a = "slates-con-"@ + rest;
    let b = "slates-con-"@ + other;
    if a == b {
        assert(a.skip("slates-con-"@.len() as int) =~= rest);
        assert(b.skip("slates-con-"@.len() as int) =~= other);
    }
}

/// The content object holds two slots for every shard's reserve, and one shard at least.
pub proof fn the_content_holds_two_slots_a_shard(reserve_per_shard: u64, partitions: u16)
    ensures
        reserve_per_shard * 2 * partitions <= usize::MAX && partitions > 0 && reserve_per_shard * 2
            <= usize::MAX ==> content_length(reserve_per_shard, partitions) == reserve_per_shard * 2
            * partitions,
        reserve_per_shard * 2 <= usize::MAX ==> content_length(reserve_per_shard, 0)
            == reserve_per_shard * 2,
{
    assert(larger(0, 1) == 1);
    assert(forall|slots: usize| #[trigger] (slots * larger(0, 1)) == slots);
}

/// A number is read as it is written, with or without its sign.
pub proof fn a_number_is_read_as_it_is_written(value: nat)
    ensures
        spelled(decimal(value)) == Some(value as int),
        number_of(decimal(value)) == Some(value as int),
        number_of(seq!['+'] + decimal(value)) == Some(value as int),
        number_of(seq!['-'] + decimal(value)) == Some(-(value as int)),
        decimal(value).len() > 0 && decimal(value)[0] != '-' && decimal(value)[0] != '+',
    decreases value,
{
    lemma_spelled(value);
    assert((seq!['+'] + decimal(value)).skip(1) =~= decimal(value));
    assert((seq!['-'] + decimal(value)).skip(1) =~= decimal(value));
}

/// The decimal of a number is made of digits and spells it.
proof fn lemma_spelled(value: nat)
    ensures
        spelled(decimal(value)) == Some(value as int),
        decimal(value).len() > 0,
        '0' <= decimal(value)[0] <= '9',
    decreases value,
{
    if value < 10 {
        let one = decimal(value);
        assert(one.drop_last() =~= Seq::<char>::empty());
        assert(spelled(Seq::<char>::empty()) == Some(0int));
        assert(digit_value(one.last()) == Some(value as int));
        assert(spelled(one) == Some(0 * 10 + value as int));
    } else {
        lemma_spelled(value / 10);
        let whole = decimal(value);
        assert(whole.drop_last() =~= decimal(value / 10));
        assert(digit_value(whole.last()) == Some((value % 10) as int));
    }
}

/// A text with a character that is no digit, past a sign, is no number.
pub proof fn only_digits_spell_a_number(digits: Seq<char>, at: int)
    requires
        0 <= at < digits.len(),
        digits[at] < '0' || digits[at] > '9',
    ensures
        spelled(digits) is None,
    decreases digits.len(),
{
    if at < digits.len() - 1 {
        assert(digits.drop_last()[at] == digits[at]);
        only_digits_spell_a_number(digits.drop_last(), at);
    }
}

/// A length or a descriptor is the number its text writes, if it is one that fits.
pub proof fn a_parsed_number_is_the_one_written(
    value: nat,
    length: Option<usize>,
    descriptor: Option<i32>,
    negative: Option<i32>,
)
    requires
        reads_length(decimal(value), length),
        reads_descriptor(decimal(value), descriptor),
        reads_descriptor(seq!['-'] + decimal(value), negative),
    ensures
        value <= usize::MAX ==> length == Some(value as usize),
        value > usize::MAX ==> length is None,
        value <= i32::MAX ==> descriptor == Some(value as i32),
        value > i32::MAX ==> descriptor is None,
        value <= i32::MAX ==> negative == Some((-(value as int)) as i32),
{
    a_number_is_read_as_it_is_written(value);
}

/// A hand-off is taken from the first value of its key, and its length from the first of the other:
/// where descriptors can be handed over and the value is one, it is that descriptor, and otherwise it
/// is the value as a name; without either key nothing is handed over.
pub proof fn a_handoff_is_what_the_environment_names(
    env: Seq<(String, String)>,
    handoff_key: Seq<char>,
    length_key: Seq<char>,
    descriptors: bool,
    handed: Result<(Handoff, usize), ServerError>,
    at: int,
    len_at: int,
    length: nat,
    descriptor: nat,
)
    requires
        hands_off(env, handoff_key, length_key, descriptors, handed),
        0 <= at < env.len() && 0 <= len_at < env.len(),
        descriptor <= i32::MAX,
    ensures
        (forall|i: int| 0 <= i < env.len() ==> (#[trigger] env[i]).0@ != handoff_key)
            ==> handed is Err,
        (forall|i: int| 0 <= i < env.len() ==> (#[trigger] env[i]).0@ != length_key) ==> handed is Err,
        env[at].0@ == handoff_key && (forall|i: int| 0 <= i < at ==> (#[trigger] env[i]).0@
            != handoff_key) && env[len_at].0@ == length_key && (forall|i: int|
            0 <= i < len_at ==> (#[trigger] env[i]).0@ != length_key) && env[len_at].1@ == decimal(
            length,
        ) ==> {
            &&& handed is Ok <==> length <= usize::MAX
            &&& handed matches Ok((handoff, bytes)) ==> {
                &&& bytes == length
                &&& !descriptors ==> (handoff matches Handoff::Name(name) && name@ == env[at].1@)
                &&& descriptors && env[at].1@ == decimal(descriptor) ==> handoff
                    == Handoff::Descriptor(descriptor as i32)
                &&& descriptors && env[at].1@.len() > 0 && env[at].1@[0] == '/' ==> (
                handoff matches Handoff::Name(name) && name@ == env[at].1@)
            }
        },
{
    a_number_is_read_as_it_is_written(length);
    a_number_is_read_as_it_is_written(descriptor);
    if env[at].1@.len() > 0 && env[at].1@[0] == '/' {
        only_digits_spell_a_number(env[at].1@, 0);
    }
    if let Ok((handoff, bytes)) = handed {
        let (a, b) = choose|a: int, b: int|
            #![trigger is_value_of(env, handoff_key, a), is_value_of(env, length_key, b)]
            {
                &&& is_value_of(env, handoff_key, a)
                &&& is_value_of(env, length_key, b)
                &&& number_of(env[b].1@) == Some(bytes as int)
                &&& env[b].1@[0] != '-'
                &&& match handoff {
                    Handoff::Descriptor(fd) => descriptors && number_of(env[a].1@) == Some(
                        fd as int,
                    ),
                    Handoff::Name(name) => {
                        &&& name@ == env[a].1@
                        &&& descriptors ==> match number_of(env[a].1@) {
                            None => true,
                            Some(value) => value < i32::MIN || value > i32::MAX,
                        }
                    },
                }
            };
        if is_value_of(env, handoff_key, at) {
            assert(a == at);
        }
        if is_value_of(env, length_key, len_at) {
            assert(b == len_at);
        }
        assert(env[a].0@ == handoff_key && env[b].0@ == length_key);
    } else {
        if is_value_of(env, handoff_key, at) && is_value_of(env, length_key, len_at) {}
    }
}

/// A node starts in the region its placeholder is mapped to, or in the first; the fleet's other hosts
/// keep theirs, and the mirrors are the fleet's.
pub proof fn a_node_starts_in_its_placeholders_region(
    fleet: FleetMembership,
    host: HostId,
    built: (BTreeMap<u64, RegionId>, BTreeMap<u64, RegionId>),
    other: u64,
)
    requires
        root_group(Some(fleet), host, built),
    ensures
        built.0@.contains_key(host.0),
        fleet.regions@.contains_key(fleet.host.0) ==> built.0@[host.0]
            == fleet.regions@[fleet.host.0],
        !fleet.regions@.contains_key(fleet.host.0) ==> built.0@[host.0] == RegionId(0),
        other != host.0 ==> built.0@.contains_key(other) == fleet.regions@.contains_key(other),
        other != host.0 && fleet.regions@.contains_key(other) ==> built.0@[other]
            == fleet.regions@[other],
        built.1@ == fleet.region_mirrors@,
{
}

/// A store keeps two windows free for each writer that can be at work: one a client, as far as
/// operations may be in flight; and always leaves a window to write.
pub proof fn each_writer_has_two_windows(
    chunk_window: u64,
    clients_per_shard: int,
    in_flight: int,
    capacity: u64,
    writers: int,
)
    requires
        writers >= 1,
        chunk_window * 2 * writers + chunk_window <= capacity,
        clients_per_shard == writers && in_flight >= writers || in_flight == writers
            && clients_per_shard >= writers,
    ensures
        headroom(chunk_window, clients_per_shard, in_flight, capacity) == chunk_window * 2 * writers,
{
    assert(chunk_window * 2 <= chunk_window * 2 * writers) by (nonlinear_arith)
        requires
            writers >= 1,
            chunk_window >= 0,
    ;
}

/// A shard's slice of the content object is its partition's, of the same length as every other's.
pub proof fn a_partition_has_its_own_slice(object_len: usize, shards: nat, partition: u16)
    requires
        partition < shards,
    ensures
        ({
            let (start, end) = content_bounds(object_len, shards, partition);
            &&& start == partition * (object_len as int / shards as int)
            &&& end - start == object_len as int / shards as int
            &&& end <= object_len
        }),
{
    let per_shard = object_len as int / shards as int;
    vstd::arithmetic::div_mod::lemma_fundamental_div_mod(object_len as int, shards as int);
    assert(0 <= partition * per_shard && (partition + 1) * per_shard <= object_len && (partition
        + 1) * per_shard == partition * per_shard + per_shard && per_shard >= 0) by (nonlinear_arith)
        requires
            0 <= partition < shards,
            object_len == shards * per_shard + object_len as int % shards as int,
            object_len as int % shards as int >= 0,
            per_shard == object_len as int / shards as int,
            object_len >= 0,
    ;
}

/// Two partitions' volume prefixes never meet: a later one's begin past all the segment slots of the
/// earlier, and none is zero.
pub proof fn prefixes_are_apart(a: u16, b: u16, segment_slots: usize)
    requires
        a < b,
        b * segment_slots <= u16::MAX,
    ensures
        segment_slots >= 1 ==> first_prefix(b, segment_slots) == b * segment_slots,
        segment_slots >= 2 ==> first_prefix(a, segment_slots) < first_prefix(b, segment_slots),
        a >= 1 && segment_slots >= 1 ==> first_prefix(b, segment_slots) - first_prefix(
            a,
            segment_slots,
        ) == (b - a) * segment_slots,
        first_prefix(a, segment_slots) >= 1,
{
    assert(segment_slots <= b * segment_slots && a * segment_slots <= b * segment_slots && b
        * segment_slots - a * segment_slots == (b - a) * segment_slots && a * segment_slots >= 0 && (b
        - a) * segment_slots >= segment_slots) by (nonlinear_arith)
        requires
            0 <= a < b,
            segment_slots >= 0,
    ;
    if segment_slots >= 1 {
        assert(b * segment_slots >= 1);
        assert(a >= 1 ==> a * segment_slots >= 1) by (nonlinear_arith)
            requires
                segment_slots >= 1,
        ;
    }
}

/// A shard is set up by its own partition, its configuration and what was retained: it is the shard it
/// runs on; one shard alone counts for the daemon; a retained boot keeps its identity and its scatter.
pub proof fn a_shard_is_set_up_for_its_partition(
    config: DaemonConfig,
    shards: Seq<u16>,
    facts: ShardFacts,
    setup: ShardSetup,
)
    requires
        set_up(config, shards, facts, setup),
    ensures
        facts.shard matches Some(shard) ==> setup.shard == shard,
        facts.shard is None ==> setup.shard == facts.partition,
        setup.counts <==> shards.len() > 0 && shards[0] == setup.shard,
        facts.content_len is None ==> setup.content_range == (0usize, 0usize),
        facts.content_len matches Some(length) ==> (facts.partition < shards.len()
            ==> setup.content_range.0 == facts.partition * (length as int / shards.len() as int)
            && setup.content_range.1 - setup.content_range.0 == length as int / shards.len()
            as int),
        config.reserve_per_shard <= usize::MAX ==> setup.region_bytes >= config.reserve_per_shard
            && setup.region_bytes >= config.page && (setup.region_bytes == config.reserve_per_shard
            || setup.region_bytes == config.page),
        setup.headroom <= facts.arena_bytes,
        setup.telemetry_spans >= 1,
        1 <= config.region.slots <= usize::MAX ==> setup.telemetry_spans == config.region.slots,
        config.fleet matches Some(fleet) ==> setup.origin_anchor == fleet.origin_anchor
            && setup.quorum == fleet.quorum,
        config.fleet is None ==> setup.quorum.f == 0 && setup.origin_anchor.0 == leading_id(
            facts.identity_hash@,
        ),
        facts.retained_nonce matches Some(nonce) ==> setup.boot_nonce == nonce && setup.scatter
            is None,
        facts.retained_nonce is None ==> setup.boot_nonce == leading_id(
            blake3_keyed_digest(facts.issuer_secret@, incarnation_label()),
        ) && (setup.scatter matches Some(scatter) && scatter.f == setup.quorum.f
            && scatter.bytes_per_second == config.rereplication_bytes_per_second
            && scatter.recovery_budget_ns == facts.recovery_budget_ns && (config.runtime.shards >= 1
            && config.reserve_per_shard * config.runtime.shards <= u64::MAX ==> scatter.data_bytes
            == config.reserve_per_shard * config.runtime.shards)),
{
    if facts.content_len is Some && facts.partition < shards.len() {
        a_partition_has_its_own_slice(facts.content_len->0, shards.len(), facts.partition);
    }
    the_headroom_leaves_a_window(
        facts.chunk_bytes,
        config.clients_per_shard as int,
        config.caps.attachments as int,
        facts.arena_bytes,
    );
}

/// A shard that rebuilt nothing is silent, and any other says so.
pub proof fn a_rebuilt_shard_says_so(rebuilt: Rebuilt, shard: u16, line: Option<String>)
    requires
        rebuilt.logs(shard, line),
    ensures
        line is None <==> rebuilt.volumes == 0 && rebuilt.skipped == 0 && rebuilt.merge_volumes == 0
            && rebuilt.snapshots_dropped == 0 && rebuilt.attachments_dropped == 0
            && rebuilt.snapshots_trimmed == 0 && rebuilt.destroys_completed == 0
            && rebuilt.pins_reconciled == 0,
{
}

/// A serving shard parks once it has been idle for a hundred spins, and not before.
pub proof fn a_shard_parks_when_idle(
    server: ServeLoop,
    did: bool,
    now_ns: u64,
    step: ServeStep,
    later: ServeLoop,
    spin_ns: u32,
)
    requires
        server.turns(did, now_ns, step, later),
    ensures
        step == ServeStep::Park <==> !did && now_ns >= server.last_work_ns + server.idle_window_ns || (
        !did && server.idle_window_ns == 0),
        did ==> later.last_work_ns == now_ns,
        !did ==> later.last_work_ns == server.last_work_ns,
        later.idle_window_ns == server.idle_window_ns,
        ServeLoop::started(now_ns, spin_ns).last_work_ns == now_ns,
        ServeLoop::started(now_ns, spin_ns).idle_window_ns == spin_ns * 100,
{
}

/// A client is admitted while there is room, to the shard its id falls on; a refused one is counted
/// and takes nothing.
pub proof fn a_client_is_admitted_while_there_is_room(
    clients: LiveClients,
    client_id: u32,
    shards: usize,
    shard: Result<usize, TooManyClients>,
    later: LiveClients,
    other: u32,
)
    requires
        clients.reserves(client_id, shards, shard, later),
        shards > 0,
        clients.refused < u64::MAX,
    ensures
        shard is Ok <==> clients.ids@.len() < clients.bound,
        shard matches Ok(at) ==> at < shards && (client_id - at) % shards as int == 0
            && later.ids@.contains(client_id) && later.refused == clients.refused,
        shard matches Err(full) ==> full.limit == clients.bound && later.ids@ == clients.ids@
            && later.refused == clients.refused + 1,
        other != client_id ==> later.ids@.contains(other) == clients.ids@.contains(other),
        later.bound == clients.bound,
{
    if shard is Ok {
        vstd::arithmetic::div_mod::lemma_fundamental_div_mod(client_id as int, shards as int);
        let q = client_id as int / shards as int;
        let at = shard->Ok_0;
        assert(client_id - at == shards * q);
        vstd::arithmetic::div_mod::lemma_mod_multiples_basic(q, shards as int);
        assert(q * shards as int == shards as int * q) by (nonlinear_arith);
        vstd::arithmetic::div_mod::lemma_mod_bound(client_id as int, shards as int);
    }
}

/// A client that was not seated gives its id back, unless the release is lost, and is counted; a seated
/// one keeps it. The first of each loss is said.
pub proof fn an_unseated_client_gives_its_id_back(
    clients: LiveClients,
    admission: Admission,
    seating: Seating,
    release: Release,
    ended: EndedAdmission,
    at_end: LiveClients,
    over: HandedOver,
    at_hand: LiveClients,
    other: u32,
)
    requires
        clients.ends(admission, release, ended, at_end),
        clients.hands_over(admission.client_id, seating, release, over, at_hand),
        clients.handoffs_lost < u64::MAX,
        clients.releases_lost < u64::MAX,
    ensures
        admission.seated ==> at_end == clients && !ended.first_loss && !ended.first_release_lost,
        seating == Seating::Seated ==> at_hand == clients && over.wake && !over.ended.first_loss
            && !over.ended.first_release_lost,
        over.wake <==> seating == Seating::Seated || seating == Seating::TableFull,
        !admission.seated ==> {
            &&& at_end.handoffs_lost == clients.handoffs_lost + 1
            &&& release == Release::Reached ==> !at_end.ids@.contains(admission.client_id)
                && at_end.releases_lost == clients.releases_lost
            &&& release == Release::Lost ==> at_end.ids@ == clients.ids@ && at_end.releases_lost
                == clients.releases_lost + 1
            &&& ended.first_loss <==> clients.handoffs_lost == 0
            &&& ended.first_release_lost <==> release == Release::Lost && clients.releases_lost == 0
        },
        seating != Seating::Seated ==> {
            &&& at_hand.handoffs_lost == clients.handoffs_lost + 1
            &&& release == Release::Reached ==> !at_hand.ids@.contains(admission.client_id)
                && at_hand.releases_lost == clients.releases_lost
            &&& release == Release::Lost ==> at_hand.ids@ == clients.ids@ && at_hand.releases_lost
                == clients.releases_lost + 1
            &&& over.ended.first_loss <==> clients.handoffs_lost == 0
            &&& over.ended.first_release_lost <==> release == Release::Lost
                && clients.releases_lost == 0
        },
        other != admission.client_id ==> at_end.ids@.contains(other) == clients.ids@.contains(other)
            && at_hand.ids@.contains(other) == clients.ids@.contains(other),
{
}

/// A release frees the client's id when it is reached, and is counted when it is lost; a lost hand-off
/// frees its id, and any other failed accept frees none.
pub proof fn a_release_frees_the_id(
    clients: LiveClients,
    client_id: u32,
    release: Release,
    first: bool,
    later: LiveClients,
    error: AcceptError,
    first_failure: bool,
    failed: LiveClients,
    other: u32,
)
    requires
        clients.releases(client_id, release, first, later),
        clients.fails_accept(error, first_failure, failed),
        clients.handoffs_lost < u64::MAX,
        clients.accepts_failed < u64::MAX,
        clients.releases_lost < u64::MAX,
    ensures
        release == Release::Reached ==> !later.ids@.contains(client_id) && later.releases_lost
            == clients.releases_lost && !first,
        release == Release::Lost ==> later.ids@ == clients.ids@ && later.releases_lost
            == clients.releases_lost + 1 && (first <==> clients.releases_lost == 0),
        other != client_id ==> later.ids@.contains(other) == clients.ids@.contains(other),
        error matches AcceptError::HandoffLost { client_id: lost } ==> {
            &&& !failed.ids@.contains(lost)
            &&& other != lost ==> failed.ids@.contains(other) == clients.ids@.contains(other)
            &&& failed.handoffs_lost == clients.handoffs_lost + 1
            &&& failed.accepts_failed == clients.accepts_failed
            &&& first_failure <==> clients.handoffs_lost == 0
        },
        error is Other ==> failed.ids@ == clients.ids@ && failed.accepts_failed
            == clients.accepts_failed + 1 && failed.handoffs_lost == clients.handoffs_lost && (
        first_failure <==> clients.accepts_failed == 0),
{
}

/// An observer asks the shard it names, if it names one, the daemon runs and the shard is held; a
/// partition is on the shard at its place.
pub proof fn an_observer_asks_the_shard_it_names(
    daemon: Daemon,
    target: Option<u16>,
    held: bool,
    partition: u16,
)
    ensures
        daemon.observed(target, held) is Ok <==> target is Some && daemon.running && held,
        daemon.observed(target, held) matches Ok(shard) ==> target == Some(shard),
        target is None ==> daemon.observed(target, held) == Err::<u16, ObserveError>(
            ObserveError::NoTarget,
        ),
        target is Some && !daemon.running ==> daemon.observed(target, held) == Err::<
            u16,
            ObserveError,
        >(ObserveError::NoRuntime),
        target is Some && daemon.running && !held ==> daemon.observed(target, held) == Err::<
            u16,
            ObserveError,
        >(ObserveError::ShardGone { shard: target->0, stage: ObserveStage::Submission }),
        daemon.shard_at(partition) is Some <==> partition < daemon.shards@.len(),
        daemon.shard_at(partition) matches Some(shard) ==> shard == daemon.shards@[partition as int],
        daemon.control() == daemon.shard_at(0),
{
}

/// A bootstrap asks the control shard who it is, creates the group there as that member, and publishes
/// it on the second shard and on each after it; a refusal ends it with its cause, and a shard that could
/// not be observed is overloaded unless the failure was its last.
pub proof fn a_bootstrap_goes_from_shard_to_shard(
    daemon: Daemon,
    shard: u16,
    member: u64,
    other: u64,
    index: usize,
    refusal: ConsensusRefusal,
    step: BootstrapStep,
)
    requires
        step is AskIdentity || step is Create || step is Publish,
    ensures
        daemon.shards@.len() > 0 ==> daemon.bootstrapped() == (BootstrapStep::AskIdentity {
            shard: daemon.shards@[0],
        }),
        daemon.shards@.len() == 0 ==> daemon.bootstrapped() is Refused,
        daemon.bootstrap_after(
            BootstrapStep::AskIdentity { shard },
            BootstrapAnswer::Identity { member },
        ) == (BootstrapStep::Create { shard, member }),
        ({
            let created = daemon.bootstrap_after(
                BootstrapStep::Create { shard, member: other },
                BootstrapAnswer::Acknowledged,
            );
            &&& daemon.shards@.len() <= 1 ==> created is Done
            &&& daemon.shards@.len() > 1 ==> created == (BootstrapStep::Publish {
                index: 1,
                shard: daemon.shards@[1],
            })
        }),
        ({
            let published = daemon.bootstrap_after(
                BootstrapStep::Publish { index, shard },
                BootstrapAnswer::Applied,
            );
            &&& index + 1 >= daemon.shards@.len() ==> published is Done
            &&& index + 1 < daemon.shards@.len() ==> published == (BootstrapStep::Publish {
                index: (index + 1) as usize,
                shard: daemon.shards@[index + 1],
            })
        }),
        daemon.bootstrap_after(
            BootstrapStep::Create { shard, member },
            BootstrapAnswer::GroupRefused { refusal },
        ) == (BootstrapStep::Refused { refusal: BootstrapRefusal::Group { refusal } }),
        ({
            let asked = match step {
                BootstrapStep::AskIdentity { shard } => shard,
                BootstrapStep::Create { shard, member: _ } => shard,
                BootstrapStep::Publish { index: _, shard } => shard,
                _ => 0u16,
            };
            &&& daemon.bootstrap_after(step, BootstrapAnswer::Unobserved { terminal: false }) == (
            BootstrapStep::Refused { refusal: BootstrapRefusal::Overloaded { shard: asked } })
            &&& daemon.bootstrap_after(step, BootstrapAnswer::Unobserved { terminal: true }) == (
            BootstrapStep::Refused { refusal: BootstrapRefusal::ConsensusNotInitialized })
            &&& daemon.bootstrap_after(step, BootstrapAnswer::Other) == (BootstrapStep::Refused {
                refusal: BootstrapRefusal::ConsensusNotInitialized,
            })
        }),
        daemon.bootstrap_after(BootstrapStep::Done, BootstrapAnswer::Other) is Done,
{
}

/// A flood counts the tasks that were queued and goes on until the queue is full.
pub proof fn a_flood_stops_at_a_full_queue(queued: usize, offered: Offered)
    requires
        queued < usize::MAX,
    ensures
        flooded(queued, offered) matches Ok((count, more)) ==> (more <==> offered is Queued) && (more
            ==> count == queued + 1) && (!more ==> count == queued && offered is Full),
        flooded(queued, offered) is Err <==> offered is Gone || offered is Refused,
        offered matches Offered::Gone { shard } ==> flooded(queued, offered) == Err::<
            (usize, bool),
            ObserveError,
        >(ObserveError::ShardGone { shard, stage: ObserveStage::Submission }),
{
}

/// A filling arena counts each task it admits, stops at its bound, and is left as it was by an offer
/// that failed.
pub proof fn an_arena_counts_what_it_admits(
    before: ArenaFacts,
    receipt: FillReceipt,
    taken: Result<(), ObserveError>,
    later: ArenaFacts,
)
    requires
        ArenaFill::takes(before, receipt, taken, later),
        before.left > 0,
    ensures
        taken is Ok <==> receipt is Admitted || receipt is TooManyTasks,
        receipt is Admitted ==> later.admitted == before.admitted + 1 && later.parked
            == before.parked + 1 && later.reached_the_bound == before.reached_the_bound,
        receipt is TooManyTasks ==> later.reached_the_bound && later.admitted == before.admitted
            && later.parked == before.parked,
        taken is Ok ==> later.left == before.left - 1,
        taken is Err ==> later == before,
        taken matches Err(ObserveError::Deadline { stage, budget_ns, attempts, waited_ns }) ==> receipt
            is Silent && budget_ns == 10_000_000_000 && waited_ns == budget_ns,
        receipt is Silent ==> (taken matches Err(ObserveError::Deadline { .. })),
        receipt is NotSubmitted ==> (taken matches Err(ObserveError::Submission { .. })),
        receipt is Refused ==> (taken matches Err(ObserveError::Admission { .. })),
        receipt is Terminated ==> (taken matches Err(ObserveError::Terminated { .. })),
{
}

/// A fleet is meshed when every other member that is in contact and not dead has a formed session.
pub proof fn a_meshed_fleet_has_its_sessions(
    host: HostId,
    members: Seq<HostId>,
    contacts: ContactSets,
    beliefs: Map<u64, MemberState>,
    formed: Set<u64>,
    at: int,
)
    requires
        0 <= at < members.len(),
        is_meshed(host, members, contacts, beliefs, formed),
        members[at] != host,
        beliefs.contains_key(members[at].0) ==> beliefs[members[at].0].liveness
            != crate::fleet::membership::Liveness::Dead,
        !contacts.council_initialized || !contacts.root_initialized,
    ensures
        formed.contains(members[at].0),
{
    crate::fleet::membership::contact_follows_the_roles(
        contacts,
        lookup(beliefs, members[at].0),
        members[at],
    );
}

/// A fleet of one host, and one whose sessions are all formed, is meshed.
pub proof fn a_fleet_with_every_session_is_meshed(
    host: HostId,
    members: Seq<HostId>,
    contacts: ContactSets,
    beliefs: Map<u64, MemberState>,
    formed: Set<u64>,
)
    requires
        forall|i: int|
            0 <= i < members.len() && #[trigger] members[i] != host ==> formed.contains(
                members[i].0,
            ),
    ensures
        is_meshed(host, members, contacts, beliefs, formed),
{
}

/// The newest of an object's positions has the highest sequence, and of those the highest epoch; of
/// equal ones it is the last.
pub proof fn the_newest_position_is_the_highest(
    positions: Seq<HeldPosition>,
    object: ObjectId,
    at: Option<usize>,
    i: int,
)
    requires
        finds_newest(positions, object, at),
        0 <= i < positions.len(),
        positions[i].object == object,
    ensures
        at is Some && (at->0) < positions.len() && positions[at->0 as int].object == object,
        ({
            let newest = positions[at->0 as int];
            &&& positions[i].sequence <= newest.sequence
            &&& positions[i].sequence == newest.sequence ==> positions[i].epoch.0 <= newest.epoch.0
            &&& positions[i].sequence == newest.sequence && positions[i].epoch.0 == newest.epoch.0
                ==> i <= at->0
        }),
{
}

/// The descriptor limit is raised to the most that is allowed and that the platform takes, and never
/// lowered.
pub proof fn the_descriptor_limit_is_only_raised(
    current: Option<u64>,
    maximum: Option<u64>,
    platform_cap: Option<u64>,
    raised: Option<(u64, u64)>,
)
    requires
        raises(current, maximum, platform_cap, raised),
    ensures
        raised matches Some((from, to)) ==> {
            &&& current == Some(from)
            &&& from < to
            &&& maximum is Some ==> to <= maximum->0
            &&& platform_cap is Some ==> to <= platform_cap->0
            &&& maximum == Some(to) || platform_cap == Some(to) || (maximum is None && platform_cap
                is None && to == u64::MAX)
        },
        current matches Some(from) ==> ((maximum is None || maximum->0 > from) && (platform_cap
            is None || platform_cap->0 > from) && from < u64::MAX ==> raised is Some),
        current is None ==> raised is None,
{
}

/// A boot's nonce is drawn from the issuer's secret under a label of its own.
pub proof fn an_incarnation_is_labelled()
    ensures
        incarnation_label() == vstd::utf8::encode_utf8("slates/member-incarnation/v1"@),
{
}

/// Each way of losing a client is counted by itself: no step touches a count that is not its own, nor
/// the bound.
pub proof fn every_loss_is_counted_by_itself(
    clients: LiveClients,
    client_id: u32,
    shards: usize,
    shard: Result<usize, TooManyClients>,
    reserved: LiveClients,
    release: Release,
    first: bool,
    released: LiveClients,
    seating: Seating,
    over: HandedOver,
    handed: LiveClients,
    error: AcceptError,
    first_failure: bool,
    failed: LiveClients,
)
    requires
        clients.reserves(client_id, shards, shard, reserved),
        clients.releases(client_id, release, first, released),
        clients.hands_over(client_id, seating, release, over, handed),
        clients.fails_accept(error, first_failure, failed),
    ensures
        reserved.handoffs_lost == clients.handoffs_lost && reserved.accepts_failed
            == clients.accepts_failed && reserved.releases_lost == clients.releases_lost
            && reserved.bound == clients.bound,
        released.refused == clients.refused && released.handoffs_lost == clients.handoffs_lost
            && released.accepts_failed == clients.accepts_failed && released.bound == clients.bound,
        handed.refused == clients.refused && handed.accepts_failed == clients.accepts_failed
            && handed.bound == clients.bound,
        failed.refused == clients.refused && failed.releases_lost == clients.releases_lost
            && failed.bound == clients.bound,
{
}

/// An admission that ends leaves the counts that are not its own, and the bound, as they were.
pub proof fn an_ended_admission_counts_its_own_loss(
    clients: LiveClients,
    admission: Admission,
    release: Release,
    ended: EndedAdmission,
    later: LiveClients,
)
    requires
        clients.ends(admission, release, ended, later),
    ensures
        later.refused == clients.refused && later.accepts_failed == clients.accepts_failed
            && later.bound == clients.bound,
{
}

} // verus!
