//! The record plane: serving a peer over this node's holds, shipping heads to their candidates,
//! installing the committed configuration, and taking over what a departed owner left.

use crate::arith::clamp_u64;
use crate::fleet::membership::{lookup, Members};
use crate::fleet::refusal::Refused;
use crate::head::{
    copy_hosts, head_bytes, with_acks, HeadFacts, HeadValue, NamePolicy, PlacedFacts, PlacedHead,
    Placement, PlacementFacts, Principal, SealJob, SizeClass,
};
use crate::ids::{contains_host, lists, HostEpoch, HostId, ObjectId, Quorum, SnapshotId};
use std::collections::{BTreeMap, BTreeSet};
use vstd::prelude::*;
use vstd::std_specs::btree::*;

verus! {

broadcast use group_btree_axioms;

/// The stream a record commit rides on.
pub const RECORD_STREAM: u64 = 1;

/// The stream a promotion's first phase rides on.
pub const PROMOTE_STREAM: u64 = 2;

/// The streams the content exchanges ride on.
pub const CONTENT_OFFER_STREAM: u64 = 4;

pub const CONTENT_PUT_STREAM: u64 = 5;

pub const CONTENT_FETCH_STREAM: u64 = 6;

/// The stream the council's consensus messages ride on.
pub const CONFIG_STREAM: u64 = 7;

/// The stream a learner fetches the committed configuration on.
pub const CONFIG_FETCH_STREAM: u64 = 8;

/// The stream the root group's consensus messages ride on.
pub const ROOT_STREAM: u64 = 9;

/// The stream a root learner fetches the root configuration on.
pub const ROOT_FETCH_STREAM: u64 = 10;

/// The stream a forwarded verb rides on.
pub const FORWARD_STREAM: u64 = 11;

/// The streams other services of the node define.
#[derive(Clone, Copy, Debug, PartialEq, Eq, Structural)]
pub struct ServiceStreams {
    /// A green's merge records.
    pub merge_record: u64,
    /// The owner-location lookups.
    pub owner_location: u64,
}

/// Where a request on a record session goes.
#[derive(Clone, Copy, Debug, PartialEq, Eq, Structural)]
pub enum Route {
    Discovery,
    /// The peer is not enrolled: counted, and answered with nothing.
    NotEnrolled,
    Record,
    Promotion,
    Content,
    MergeRecord,
    /// A council message.
    Council,
    ConfigFetch,
    /// A root-group message.
    Root,
    RootFetch,
    Forward,
    OwnerLocation,
    /// No such stream: answered with nothing.
    Unknown,
}

/// Where a request goes, by its stream alone. Before a peer is enrolled it reaches discovery and
/// nothing else.
pub open spec fn routed(stream: u64, enrolled: bool, services: ServiceStreams) -> Route {
    if stream == crate::discovery::STREAM {
        Route::Discovery
    } else if !enrolled {
        Route::NotEnrolled
    } else if stream == RECORD_STREAM {
        Route::Record
    } else if stream == PROMOTE_STREAM {
        Route::Promotion
    } else if CONTENT_OFFER_STREAM <= stream <= CONTENT_FETCH_STREAM {
        Route::Content
    } else if stream == services.merge_record {
        Route::MergeRecord
    } else if stream == CONFIG_STREAM {
        Route::Council
    } else if stream == CONFIG_FETCH_STREAM {
        Route::ConfigFetch
    } else if stream == ROOT_STREAM {
        Route::Root
    } else if stream == ROOT_FETCH_STREAM {
        Route::RootFetch
    } else if stream == FORWARD_STREAM {
        Route::Forward
    } else if stream == services.owner_location {
        Route::OwnerLocation
    } else {
        Route::Unknown
    }
}

/// Where a request on a record session goes.
pub fn route(stream: u64, enrolled: bool, services: ServiceStreams) -> (route: Route)
    ensures
        route == routed(stream, enrolled, services),
{
    if stream == crate::discovery::STREAM {
        Route::Discovery
    } else if !enrolled {
        Route::NotEnrolled
    } else if stream == RECORD_STREAM {
        Route::Record
    } else if stream == PROMOTE_STREAM {
        Route::Promotion
    } else if CONTENT_OFFER_STREAM <= stream && stream <= CONTENT_FETCH_STREAM {
        Route::Content
    } else if stream == services.merge_record {
        Route::MergeRecord
    } else if stream == CONFIG_STREAM {
        Route::Council
    } else if stream == CONFIG_FETCH_STREAM {
        Route::ConfigFetch
    } else if stream == ROOT_STREAM {
        Route::Root
    } else if stream == ROOT_FETCH_STREAM {
        Route::RootFetch
    } else if stream == FORWARD_STREAM {
        Route::Forward
    } else if stream == services.owner_location {
        Route::OwnerLocation
    } else {
        Route::Unknown
    }
}

/// A peer that is not enrolled reaches nothing but discovery, whatever stream it opens.
pub proof fn only_discovery_serves_a_stranger(stream: u64, services: ServiceStreams)
    ensures
        routed(stream, false, services) == Route::Discovery || routed(stream, false, services)
            == Route::NotEnrolled,
{
}

/// A record session being served.
#[derive(Clone, Copy, Debug, PartialEq, Eq, Structural)]
pub struct RecordServe {
    /// The peer's stable anchor.
    pub anchor: HostId,
    /// The id its boots start from.
    pub seed: HostId,
    /// Whether enrollment has recognized its certificate.
    pub enrolled: bool,
}

impl RecordServe {
    /// Takes up what enrollment says of the peer: once recognized, it stays so for the session.
    pub fn recognize(&mut self, recognized: bool)
        ensures
            *final(self) == (RecordServe {
                enrolled: old(self).enrolled || recognized,
                ..*old(self)
            }),
    {
        if recognized {
            self.enrolled = true;
        }
    }

    /// The member the peer writes as: the one learned for its anchor, or the seed until it
    /// announced itself.
    pub fn peer_host(&self, members: &Members) -> (host: HostId)
        ensures
            host == (match lookup(members.learned@, self.anchor.0) {
                Some(learned) => learned.host,
                None => self.seed,
            }),
    {
        match members.current_member(self.anchor) {
            Some(host) => host,
            None => self.seed,
        }
    }
}

/// Who may write an object, under which configuration.
#[derive(Clone, Copy, Debug, PartialEq, Eq, Structural)]
pub struct Authority {
    pub generation: u64,
    pub owner: HostId,
}

/// The authority this node's heads are written under: the installed configuration's version, and
/// this host.
pub fn owner_authority(local: HostId, version: u64) -> (authority: Authority)
    ensures
        authority == (Authority { generation: version, owner: local }),
{
    Authority { generation: version, owner: local }
}

/// Why a register refuses.
#[derive(Clone, Copy, Debug, PartialEq, Eq, Structural)]
pub enum RegisterRefusal {
    Unauthorized,
    /// The record names a configuration this node has not installed.
    ForeignGeneration { current: u64 },
    /// The sender's configuration is behind this node's.
    ConfigurationStale { version: u64 },
    /// The epoch is below the fence.
    StaleEpoch { fence: u64 },
    /// Any other refusal of the acceptor.
    Acceptor,
}

/// The facts of a record that its holder checks.
#[derive(Clone, Copy, Debug, PartialEq, Eq, Structural)]
pub struct RecordFacts {
    pub owner: HostId,
    pub object: ObjectId,
    pub generation: u64,
}

/// What a holder says of a record before any effect: its owner must be the authenticated peer and a
/// member; its generation must be the committed configuration's, a newer one asking this node to
/// refresh; and the object's acceptor must agree.
pub open spec fn held_check(
    record: RecordFacts,
    peer: HostId,
    members: Seq<HostId>,
    version: u64,
    acceptor: Result<(), RegisterRefusal>,
) -> Result<(), RegisterRefusal> {
    if record.owner != peer || !lists(members, peer) {
        Err(RegisterRefusal::Unauthorized)
    } else if record.generation > version {
        Err(RegisterRefusal::ForeignGeneration { current: version })
    } else if record.generation != version {
        Err(RegisterRefusal::ConfigurationStale { version })
    } else {
        acceptor
    }
}

/// Checks a record against the transport's principal and the committed configuration before any
/// effect. `acceptor` is what the object's acceptor, or a fresh one, says of it. A forged owner asks
/// for no refresh.
pub fn check_held_record(
    record: &RecordFacts,
    peer: HostId,
    members: &Vec<HostId>,
    version: u64,
    acceptor: Result<(), RegisterRefusal>,
    refresh_wanted: &mut bool,
) -> (checked: Result<(), RegisterRefusal>)
    ensures
        checked == held_check(*record, peer, members@, version, acceptor),
        *final(refresh_wanted) == (*old(refresh_wanted) || (record.owner == peer && lists(
            members@,
            peer,
        ) && record.generation > version)),
{
    if record.owner != peer || !contains_host(members, peer) {
        return Err(RegisterRefusal::Unauthorized);
    }
    if record.generation > version {
        *refresh_wanted = true;
        return Err(RegisterRefusal::ForeignGeneration { current: version });
    }
    if record.generation != version {
        return Err(RegisterRefusal::ConfigurationStale { version });
    }
    acceptor
}

/// What a holder answers a record with.
#[derive(Clone, Copy, Debug, PartialEq, Eq, Structural)]
pub enum HeldReply {
    /// The binding acknowledgement.
    Acknowledge,
    /// The refusal: one its sender acts on rides back, any other is an empty reply.
    Refuse(RegisterRefusal),
}

impl HeldReply {
    /// Whether a reply is sent back to its sender.
    pub open spec fn is_sent(self) -> bool {
        self is Acknowledge || self matches HeldReply::Refuse(
            RegisterRefusal::ConfigurationStale { .. },
        )
    }

    /// Whether anything rides back: an acknowledgement, or the newer version a stale sender is told
    /// to refresh to.
    pub fn rides_back(self) -> (rides: bool)
        ensures
            rides == self.is_sent(),
    {
        match self {
            HeldReply::Acknowledge => true,
            HeldReply::Refuse(refusal) => match refusal {
                RegisterRefusal::ConfigurationStale { .. } => true,
                _ => false,
            },
        }
    }
}

/// What a record that a peer asks to be held comes to: the reply, and whether the owner is newly backed.
pub open spec fn held_outcome(
    checked: Result<(), RegisterRefusal>,
    first: bool,
    accepted: Result<(), RegisterRefusal>,
    backed: Result<(), RegisterRefusal>,
) -> (HeldReply, bool) {
    match checked {
        Err(refusal) => (HeldReply::Refuse(refusal), false),
        Ok(_) => match accepted {
            Err(refusal) => (HeldReply::Refuse(refusal), false),
            Ok(_) => match backed {
                Err(refusal) => (HeldReply::Refuse(refusal), first),
                Ok(_) => (HeldReply::Acknowledge, first),
            },
        },
    }
}

/// What accepting a checked record comes to: the reply, and whether an object's first acceptor is
/// kept. An acceptor exists only once it has accepted a record; a refused first record leaves none
/// behind to be pinned at a stale generation.
pub fn accept_held_record(
    checked: Result<(), RegisterRefusal>,
    first: bool,
    accepted: Result<(), RegisterRefusal>,
    backed: Result<(), RegisterRefusal>,
) -> (outcome: (HeldReply, bool))
    ensures
        outcome == held_outcome(checked, first, accepted, backed),
{
    if let Err(refusal) = checked {
        return (HeldReply::Refuse(refusal), false);
    }
    if let Err(refusal) = accepted {
        return (HeldReply::Refuse(refusal), false);
    }
    match backed {
        Err(refusal) => (HeldReply::Refuse(refusal), first),
        Ok(_) => (HeldReply::Acknowledge, first),
    }
}

/// A holder acknowledges only what the authenticated owner wrote under the committed
/// configuration: an acknowledged record's owner is the peer and a member, and its generation is
/// the council's.
pub proof fn only_the_owner_in_step_is_acknowledged(
    record: RecordFacts,
    peer: HostId,
    members: Seq<HostId>,
    version: u64,
    acceptor: Result<(), RegisterRefusal>,
)
    requires
        held_check(record, peer, members, version, acceptor) is Ok,
    ensures
        record.owner == peer,
        lists(members, peer),
        record.generation == version,
        acceptor is Ok,
{
}

/// A new owner's first-phase message.
#[derive(Clone, Copy, Debug, PartialEq, Eq, Structural)]
pub struct Prepare {
    pub owner: HostId,
    pub object: ObjectId,
    pub epoch: HostEpoch,
    pub generation: u64,
}

/// What a holder answers a prepare with.
#[derive(Clone, Copy, Debug, PartialEq, Eq, Structural)]
pub enum PromotionReply {
    /// The prepare's owner is not the peer.
    Unauthorized,
    /// The acceptor's binding promise.
    Promise,
    /// Nothing is held for the object, or the acceptor refused: an empty reply.
    Empty,
}

/// What a holder answers a promotion.
pub open spec fn promotion_reply(peer: HostId, prepare: Prepare, promised: Option<bool>) -> PromotionReply {
    if prepare.owner != peer {
        PromotionReply::Unauthorized
    } else if promised == Some(true) {
        PromotionReply::Promise
    } else {
        PromotionReply::Empty
    }
}

/// What a holder answers a prepare with. `promised` is what the object's acceptor says, if the
/// object is held.
pub fn serve_held_promotion(peer: HostId, prepare: &Prepare, promised: Option<bool>) -> (reply:
    PromotionReply)
    ensures
        reply == promotion_reply(peer, *prepare, promised),
{
    if prepare.owner != peer {
        return PromotionReply::Unauthorized;
    }
    match promised {
        Some(promised) => if promised {
            PromotionReply::Promise
        } else {
            PromotionReply::Empty
        },
        None => PromotionReply::Empty,
    }
}

/// An object this node holds, with the owner the routing view has for it.
#[derive(Clone, Copy, Debug, PartialEq, Eq, Structural)]
pub struct HeldObject {
    pub object: ObjectId,
    pub owner: Option<HostId>,
}

/// The authorities installed on the held objects: each with its routing owner, under one
/// generation.
pub open spec fn reconciled(held: Seq<HeldObject>, generation: u64) -> Seq<(ObjectId, Authority)>
    decreases held.len(),
{
    if held.len() == 0 {
        Seq::empty()
    } else {
        let before = reconciled(held.drop_last(), generation);
        match held.last().owner {
            Some(owner) => before.push((held.last().object, Authority { generation, owner })),
            None => before,
        }
    }
}

/// The authorities that bring every held acceptor into step with the routing view.
pub fn reconcile_held_authority(held: &Vec<HeldObject>, generation: u64) -> (installs: Vec<
    (ObjectId, Authority),
>)
    ensures
        installs@ == reconciled(held@, generation),
{
    let mut installs: Vec<(ObjectId, Authority)> = Vec::new();
    let mut i: usize = 0;
    assert(installs@ =~= reconciled(held@.take(0), generation));
    while i < held.len()
        invariant
            i <= held@.len(),
            installs@ == reconciled(held@.take(i as int), generation),
        decreases held@.len() - i,
    {
        proof {
            assert(held@.take(i + 1).drop_last() =~= held@.take(i as int));
            assert(held@.take(i + 1).last() == held@[i as int]);
        }
        if let Some(owner) = held[i].owner {
            installs.push((held[i].object, Authority { generation, owner }));
        }
        i += 1;
    }
    assert(held@.take(i as int) =~= held@);
    installs
}

/// The fences raised for the held objects: each to its owner's committed epoch, where there is one.
pub open spec fn fences(held: Seq<(ObjectId, HostId)>, epochs: Map<u64, HostEpoch>) -> Seq<
    (ObjectId, HostEpoch),
>
    decreases held.len(),
{
    if held.len() == 0 {
        Seq::empty()
    } else {
        let before = fences(held.drop_last(), epochs);
        let (object, owner) = held.last();
        if epochs.contains_key(owner.0) {
            before.push((object, epochs[owner.0]))
        } else {
            before
        }
    }
}

/// The fences to raise, read against the owners the held objects still have: a failed owner's
/// bumped epoch fences all its objects at once.
pub fn raised_fences(held: &Vec<(ObjectId, HostId)>, epochs: &BTreeMap<u64, HostEpoch>) -> (raised:
    Vec<(ObjectId, HostEpoch)>)
    ensures
        raised@ == fences(held@, epochs@),
{
    let mut raised: Vec<(ObjectId, HostEpoch)> = Vec::new();
    let mut i: usize = 0;
    assert(raised@ =~= fences(held@.take(0), epochs@));
    while i < held.len()
        invariant
            i <= held@.len(),
            raised@ == fences(held@.take(i as int), epochs@),
        decreases held@.len() - i,
    {
        proof {
            assert(held@.take(i + 1).drop_last() =~= held@.take(i as int));
            assert(held@.take(i + 1).last() == held@[i as int]);
        }
        let (object, owner) = held[i];
        if let Some(epoch) = epochs.get(&owner.0) {
            raised.push((object, *epoch));
        }
        i += 1;
    }
    assert(held@.take(i as int) =~= held@);
    raised
}

/// A volume's catalog facts, as its head names them.
#[derive(Debug)]
pub struct VolumeFacts {
    pub object: ObjectId,
    /// The volume's epoch: zero until its first snapshot.
    pub epoch: u64,
    /// The head snapshot.
    pub head: SnapshotId,
    pub name: String,
    pub size: SizeClass,
    pub names: NamePolicy,
    pub owner: Principal,
    /// The head snapshot's identity and region holders, when the database records it placed and
    /// identified.
    pub placed: Option<([u8; 32], Vec<u64>)>,
}

/// The head value of a volume at one content.
pub open spec fn value_of(
    volume: VolumeFacts,
    manifest: Option<Seq<u8>>,
    content_holders: Seq<u64>,
) -> HeadFacts {
    HeadFacts {
        manifest,
        content_holders,
        name: volume.name@,
        size: volume.size,
        names: volume.names,
        owner: volume.owner@,
    }
}

/// The head a node should be shipping for a volume: its creation head at epoch zero; the placed
/// snapshot's, from the durable record; the seal's, once its content is placed; and none while the
/// newest snapshot's content is not placed.
pub open spec fn head_of(volume: VolumeFacts, seal: Option<SealJob>, quorum: Quorum) -> Option<
    (u64, HeadFacts),
> {
    if volume.epoch == 0 {
        Some((0, value_of(volume, None, Seq::empty())))
    } else {
        match volume.placed {
            Some((identity, region)) => Some(
                (volume.epoch, value_of(volume, Some(identity@), region@)),
            ),
            None => match seal {
                Some(seal) => if seal.snapshot == volume.head && seal.content@.placed(quorum) {
                    Some(
                        (
                            seal.sequence,
                            value_of(
                                volume,
                                match seal.manifest {
                                    Some(manifest) => Some(manifest@),
                                    None => None,
                                },
                                seal.content.acked@.map_values(|host: HostId| host.0),
                            ),
                        ),
                    )
                } else {
                    None
                },
                None => None,
            },
        }
    }
}

/// The ids of a list of hosts.
pub fn host_ids(hosts: &Vec<HostId>) -> (ids: Vec<u64>)
    ensures
        ids@ == hosts@.map_values(|host: HostId| host.0),
{
    let mut ids: Vec<u64> = Vec::new();
    let mut i: usize = 0;
    while i < hosts.len()
        invariant
            i <= hosts@.len(),
            ids@ =~= hosts@.take(i as int).map_values(|host: HostId| host.0),
        decreases hosts@.len() - i,
    {
        ids.push(hosts[i].0);
        i += 1;
    }
    assert(hosts@.take(i as int) =~= hosts@);
    ids
}

/// A copy of a list of numbers.
fn copy_numbers(numbers: &Vec<u64>) -> (copy: Vec<u64>)
    ensures
        copy@ == numbers@,
{
    let mut copy: Vec<u64> = Vec::new();
    let mut i: usize = 0;
    while i < numbers.len()
        invariant
            i <= numbers@.len(),
            copy@ =~= numbers@.take(i as int),
        decreases numbers@.len() - i,
    {
        copy.push(numbers[i]);
        i += 1;
    }
    assert(numbers@.take(i as int) =~= numbers@);
    copy
}

/// The head a node should be shipping for a volume.
pub fn head_value_of(volume: &VolumeFacts, seal: Option<&SealJob>, quorum: Quorum) -> (head: Option<
    (u64, HeadValue),
>)
    ensures
        ({
            let expected = head_of(
                *volume,
                match seal {
                    Some(seal) => Some(*seal),
                    None => None,
                },
                quorum,
            );
            match head {
                None => expected is None,
                Some((sequence, value)) => expected == Some((sequence, value@)),
            }
        }),
{
    let (sequence, manifest, content_holders): (u64, Option<[u8; 32]>, Vec<u64>) = if volume.epoch
        == 0 {
        (0, None, Vec::new())
    } else {
        match &volume.placed {
            Some((identity, region)) => (volume.epoch, Some(*identity), copy_numbers(region)),
            None => match seal {
                Some(seal) => {
                    if seal.snapshot != volume.head || !seal.content.placed(quorum) {
                        return None;
                    }
                    (seal.sequence, seal.manifest, host_ids(&seal.content.acked))
                },
                None => {
                    return None;
                },
            },
        }
    };
    let value = HeadValue {
        manifest,
        content_holders,
        name: volume.name.clone(),
        size: volume.size,
        names: volume.names,
        owner: volume.owner.copy(),
    };
    proof {
        let expected = head_of(
            *volume,
            match seal {
                Some(seal) => Some(*seal),
                None => None,
            },
            quorum,
        );
        assert(expected is Some);
        let (at, facts) = expected->0;
        assert(value@.content_holders =~= facts.content_holders);
    }
    Some((sequence, value))
}

/// No head names content that is not placed: a head with a manifest comes from a snapshot recorded
/// placed, or from a seal whose content a quorum holds.
pub proof fn a_head_names_only_placed_content(
    volume: VolumeFacts,
    seal: Option<SealJob>,
    quorum: Quorum,
)
    requires
        ({
            let head = head_of(volume, seal, quorum);
            head matches Some((sequence, value)) && value.manifest is Some
        }),
    ensures
        volume.placed is Some || (seal matches Some(seal) && seal.content@.placed(quorum)
            && seal.snapshot == volume.head),
{
}

/// Every host a head names as a content holder acknowledged that content, and every host that
/// acknowledged is named, in the order they did: where the head is a seal's.
pub proof fn a_head_names_the_hosts_that_acknowledged(
    volume: VolumeFacts,
    seal: SealJob,
    quorum: Quorum,
)
    requires
        volume.epoch != 0,
        volume.placed is None,
        head_of(volume, Some(seal), quorum) is Some,
    ensures
        ({
            let (sequence, value) = head_of(volume, Some(seal), quorum)->0;
            &&& sequence == seal.sequence
            &&& value.manifest is Some == seal.manifest is Some
            &&& seal.manifest matches Some(manifest) ==> value.manifest == Some(manifest@)
            &&& value.content_holders.len() == seal.content.acked@.len()
            &&& forall|i: int|
                0 <= i < value.content_holders.len() ==> HostId(#[trigger] value.content_holders[i])
                    == seal.content.acked@[i]
            &&& forall|id: u64| #[trigger]
                value.content_holders.contains(id) ==> lists(seal.content.acked@, HostId(id))
            &&& forall|host: HostId| #[trigger]
                lists(seal.content.acked@, host) ==> value.content_holders.contains(host.0)
        }),
{
    let (sequence, value) = head_of(volume, Some(seal), quorum)->0;
    let acked = seal.content.acked@;
    assert forall|id: u64| #[trigger] value.content_holders.contains(id) implies lists(
        acked,
        HostId(id),
    ) by {
        let i = choose|i: int|
            0 <= i < value.content_holders.len() && value.content_holders[i] == id;
        assert(acked[i] == HostId(id));
    }
    assert forall|host: HostId| #[trigger] lists(acked, host) implies value.content_holders.contains(
        host.0,
    ) by {
        let i = choose|i: int| 0 <= i < acked.len() && acked[i] == host;
        assert(value.content_holders[i] == host.0);
    }
}

/// A volume has a head to ship exactly when it is fresh, when its newest snapshot is recorded placed,
/// or when that snapshot's seal has its content on a quorum: and not while that content is in flight.
pub proof fn a_head_waits_for_its_content(
    volume: VolumeFacts,
    seal: Option<SealJob>,
    quorum: Quorum,
)
    ensures
        volume.epoch == 0 ==> (head_of(volume, seal, quorum) matches Some((sequence, value))
            && sequence == 0 && value.manifest is None && value.content_holders.len() == 0),
        volume.epoch != 0 ==> (volume.placed matches Some((identity, region)) ==> (head_of(
            volume,
            seal,
            quorum,
        ) matches Some((sequence, value)) && sequence == volume.epoch && value.manifest == Some(
            identity@,
        ) && value.content_holders == region@)),
        volume.epoch != 0 && volume.placed is None ==> (head_of(volume, seal, quorum) is Some <==> (
        seal matches Some(seal) && seal.snapshot == volume.head && seal.content.acked@.len()
            > quorum.f)),
{
}

/// A head is its own volume's: whatever content it names, its name, size, name policy and owner are
/// the volume's.
pub proof fn a_head_describes_its_volume(
    volume: VolumeFacts,
    seal: Option<SealJob>,
    quorum: Quorum,
)
    ensures
        head_of(volume, seal, quorum) matches Some((sequence, value)) ==> value.name == volume.name@
            && value.size == volume.size && value.names == volume.names && value.owner
            == volume.owner@,
{
}

/// A record to commit: a head not yet held by every candidate.
#[derive(Debug)]
pub struct Head {
    /// The shard that owns the volume.
    pub shard: u16,
    pub object: ObjectId,
    pub sequence: u64,
    pub epoch: HostEpoch,
    pub generation: u64,
    /// The record's value.
    pub value: Vec<u8>,
    pub candidates: Vec<HostId>,
    /// The candidates that already hold it.
    pub acked: Vec<HostId>,
    pub quorum: Quorum,
}

/// Whether a remote candidate still lacks a head.
pub open spec fn outstanding(
    candidates: Seq<HostId>,
    acked: Seq<HostId>,
    local: HostId,
) -> bool {
    exists|i: int|
        0 <= i < candidates.len() && #[trigger] candidates[i] != local && !lists(
            acked,
            candidates[i],
        )
}

/// Whether a remote candidate still lacks a head.
fn is_outstanding(candidates: &Vec<HostId>, acked: &Vec<HostId>, local: HostId) -> (lacking: bool)
    ensures
        lacking == outstanding(candidates@, acked@, local),
{
    let mut i: usize = 0;
    while i < candidates.len()
        invariant
            i <= candidates@.len(),
            forall|j: int|
                0 <= j < i ==> #[trigger] candidates@[j] == local || lists(acked@, candidates@[j]),
        decreases candidates@.len() - i,
    {
        if candidates[i] != local && !contains_host(acked, candidates[i]) {
            assert(candidates@[i as int] != local);
            return true;
        }
        i += 1;
    }
    false
}

/// The configuration a node places under.
#[derive(Clone, Copy, Debug, PartialEq, Eq, Structural)]
pub struct Placing {
    pub local: HostId,
    pub shard: u16,
    pub version: u64,
    pub host_epoch: HostEpoch,
    pub quorum: Quorum,
}

/// What was acknowledged of a head at its current sequence.
pub open spec fn acked_at(recorded: Option<PlacedFacts>, sequence: u64) -> Seq<HostId> {
    match recorded {
        Some(recorded) => if recorded.sequence == sequence {
            recorded.placement.acked
        } else {
            Seq::empty()
        },
        None => Seq::empty(),
    }
}

/// The epoch a head is written at: the greater of the host's and the one the object was last
/// written or adopted under.
pub open spec fn writing_epoch(recorded: Option<PlacedFacts>, host_epoch: HostEpoch) -> HostEpoch {
    match recorded {
        Some(recorded) => if recorded.epoch.0 >= host_epoch.0 {
            recorded.epoch
        } else {
            host_epoch
        },
        None => host_epoch,
    }
}

/// Whether `head` is the head to commit for a volume, if one is.
pub open spec fn ships(
    placing: Placing,
    volume: VolumeFacts,
    seal: Option<SealJob>,
    recorded: Option<PlacedFacts>,
    candidates: Seq<HostId>,
    head: Option<Head>,
) -> bool {
    ({
        let expected = head_of(volume, seal, placing.quorum);
        match expected {
            None => head is None,
            Some((sequence, value)) => {
                let acked = acked_at(recorded, sequence);
                &&& head is Some <==> outstanding(candidates, acked, placing.local)
                &&& head matches Some(head) ==> {
                    &&& head.shard == placing.shard
                    &&& head.object == volume.object
                    &&& head.sequence == sequence
                    &&& head.epoch == writing_epoch(recorded, placing.host_epoch)
                    &&& head.generation == placing.version
                    &&& head.value@ == head_bytes(value)
                    &&& head.candidates@ == candidates
                    &&& head.acked@ == acked
                    &&& head.quorum == placing.quorum
                }
            },
        }
    })
}

/// The record a volume's head calls for, if some remote candidate has not acknowledged it: not when
/// a quorum has, since every candidate must hold the head for a later takeover to find its quorum.
pub fn unplaced_head(
    placing: &Placing,
    volume: &VolumeFacts,
    seal: Option<&SealJob>,
    recorded: Option<&PlacedHead>,
    candidates: Vec<HostId>,
) -> (head: Option<Head>)
    ensures
        ships(
            *placing,
            *volume,
            match seal {
                Some(seal) => Some(*seal),
                None => None,
            },
            match recorded {
                Some(recorded) => Some(recorded@),
                None => None,
            },
            candidates@,
            head,
        ),
{
    let (sequence, value) = match head_value_of(volume, seal, placing.quorum) {
        Some(head) => head,
        None => {
            return None;
        },
    };
    let acked: Vec<HostId> = match recorded {
        Some(recorded) => if recorded.sequence == sequence {
            copy_hosts(&recorded.placement.acked)
        } else {
            Vec::new()
        },
        None => Vec::new(),
    };
    let epoch = match recorded {
        Some(recorded) => if recorded.epoch.0 >= placing.host_epoch.0 {
            recorded.epoch
        } else {
            placing.host_epoch
        },
        None => placing.host_epoch,
    };
    if !is_outstanding(&candidates, &acked, placing.local) {
        return None;
    }
    Some(
        Head {
            shard: placing.shard,
            object: volume.object,
            sequence,
            epoch,
            generation: placing.version,
            value: value.to_record_bytes(),
            candidates,
            acked,
            quorum: placing.quorum,
        },
    )
}

impl Head {
    /// The candidates still to be asked.
    pub open spec fn remaining(&self) -> Seq<HostId> {
        self.candidates@.filter(|host: HostId| !lists(self.acked@, host))
    }

    /// The candidates a commit of this head goes to: those that have not acknowledged it.
    pub fn targets(&self) -> (targets: Vec<HostId>)
        ensures
            targets@ == self.remaining(),
    {
        let mut targets: Vec<HostId> = Vec::new();
        let mut i: usize = 0;
        proof {
            reveal(Seq::filter);
            assert(targets@ =~= self.candidates@.take(0).filter(
                |host: HostId| !lists(self.acked@, host),
            ));
        }
        while i < self.candidates.len()
            invariant
                i <= self.candidates@.len(),
                targets@ == self.candidates@.take(i as int).filter(
                    |host: HostId| !lists(self.acked@, host),
                ),
            decreases self.candidates@.len() - i,
        {
            proof {
                reveal(Seq::filter);
                assert(self.candidates@.take(i + 1).drop_last() =~= self.candidates@.take(
                    i as int,
                ));
                assert(self.candidates@.take(i + 1).last() == self.candidates@[i as int]);
            }
            if !contains_host(&self.acked, self.candidates[i]) {
                targets.push(self.candidates[i]);
            }
            i += 1;
        }
        assert(self.candidates@.take(i as int) =~= self.candidates@);
        targets
    }
}

/// Whether a refresh is wanted after a reply.
pub open spec fn wants_refresh(stale_version: Option<u64>, version: u64, wanted: bool) -> bool {
    wanted || (stale_version matches Some(stale)
        && stale > version)
}

/// Whether a holder's refusal says this owner is behind: it names a version newer than the
/// council's here.
pub fn stale_owner(stale_version: Option<u64>, version: u64, refresh_wanted: &mut bool)
    ensures
        *final(refresh_wanted) == wants_refresh(stale_version, version, *old(refresh_wanted)),
{
    if let Some(stale) = stale_version {
        if stale > version {
            *refresh_wanted = true;
        }
    }
}

/// The placement recorded after a round at a sequence: an older round is ignored, a newer sequence
/// starts over with its candidates, and within one sequence the acknowledgements are the union.
pub open spec fn recorded_acks(
    recorded: Option<PlacedFacts>,
    sequence: u64,
    epoch: HostEpoch,
    round: PlacementFacts,
) -> PlacedFacts {
    let entry = match recorded {
        Some(recorded) => recorded,
        None => PlacedFacts {
            sequence,
            epoch,
            placement: PlacementFacts { candidates: round.candidates, acked: Seq::empty() },
        },
    };
    if entry.sequence > sequence {
        entry
    } else {
        let (candidates, acked) = if entry.sequence < sequence {
            (round.candidates, Seq::empty())
        } else {
            (entry.placement.candidates, entry.placement.acked)
        };
        PlacedFacts {
            sequence,
            epoch: if epoch.0 > entry.epoch.0 {
                epoch
            } else {
                entry.epoch
            },
            placement: PlacementFacts { candidates, acked: with_acks(acked, round.acked) },
        }
    }
}

/// Merges a round's acknowledgements into the recorded placement.
pub fn record_acks(
    recorded: Option<PlacedHead>,
    sequence: u64,
    epoch: HostEpoch,
    round: &Placement,
) -> (merged: PlacedHead)
    ensures
        merged@ == recorded_acks(
            match recorded {
                Some(recorded) => Some(recorded@),
                None => None,
            },
            sequence,
            epoch,
            round@,
        ),
{
    let mut entry = match recorded {
        Some(recorded) => recorded,
        None => PlacedHead {
            sequence,
            epoch,
            placement: Placement {
                candidates: copy_hosts(&round.candidates),
                acked: Vec::new(),
            },
        },
    };
    let ghost start = entry@;
    if entry.sequence > sequence {
        return entry;
    }
    if entry.sequence < sequence {
        entry.sequence = sequence;
        entry.placement = Placement { candidates: copy_hosts(&round.candidates), acked: Vec::new() };
    }
    if epoch.0 > entry.epoch.0 {
        entry.epoch = epoch;
    }
    let PlacedHead { sequence: kept_sequence, epoch: kept_epoch, placement: kept } = entry;
    let mut placement = kept;
    let ghost acked = placement.acked@;
    let mut i: usize = 0;
    assert(round.acked@.take(0) =~= Seq::<HostId>::empty());
    while i < round.acked.len()
        invariant
            i <= round.acked@.len(),
            placement.candidates == kept.candidates,
            placement.acked@ == with_acks(acked, round.acked@.take(i as int)),
        decreases round.acked@.len() - i,
    {
        proof {
            assert(round.acked@.take(i + 1).drop_last() =~= round.acked@.take(i as int));
            assert(round.acked@.take(i + 1).last() == round.acked@[i as int]);
        }
        placement.acknowledge(round.acked[i]);
        i += 1;
    }
    assert(round.acked@.take(i as int) =~= round.acked@);
    PlacedHead { sequence: kept_sequence, epoch: kept_epoch, placement }
}

/// A recorded placement never goes back: whatever round is merged, its sequence and epoch do not
/// fall, and at one sequence no acknowledgement is lost.
pub proof fn a_recorded_placement_only_advances(
    recorded: PlacedFacts,
    sequence: u64,
    epoch: HostEpoch,
    round: PlacementFacts,
    host: HostId,
)
    ensures
        ({
            let merged = recorded_acks(Some(recorded), sequence, epoch, round);
            &&& merged.sequence >= recorded.sequence
            &&& merged.epoch.0 >= recorded.epoch.0
            &&& merged.sequence == recorded.sequence && lists(recorded.placement.acked, host)
                ==> lists(merged.placement.acked, host)
        }),
{
    crate::head::acknowledgements_accumulate(recorded.placement.acked, round.acked, host);
}

/// The highest epoch held for an object among the positions held, if any.
pub open spec fn highest(positions: Seq<(ObjectId, HostEpoch)>, object: ObjectId) -> Option<
    HostEpoch,
>
    decreases positions.len(),
{
    if positions.len() == 0 {
        None
    } else {
        let before = highest(positions.drop_last(), object);
        let (held, epoch) = positions.last();
        if held != object {
            before
        } else {
            match before {
                Some(best) => if best.0 > epoch.0 {
                    Some(best)
                } else {
                    Some(epoch)
                },
                None => Some(epoch),
            }
        }
    }
}

/// The highest epoch held for an object, or the first epoch if nothing is held.
pub fn highest_held_epoch(
    positions: &Vec<(ObjectId, HostEpoch)>,
    object: ObjectId,
    first: HostEpoch,
) -> (epoch: HostEpoch)
    ensures
        epoch == (match highest(positions@, object) {
            Some(epoch) => epoch,
            None => first,
        }),
{
    let mut best: Option<HostEpoch> = None;
    let mut i: usize = 0;
    while i < positions.len()
        invariant
            i <= positions@.len(),
            best == highest(positions@.take(i as int), object),
        decreases positions@.len() - i,
    {
        proof {
            assert(positions@.take(i + 1).drop_last() =~= positions@.take(i as int));
            assert(positions@.take(i + 1).last() == positions@[i as int]);
        }
        let (held, epoch) = positions[i];
        if held == object {
            best = match best {
                Some(known) => if known.0 > epoch.0 {
                    Some(known)
                } else {
                    Some(epoch)
                },
                None => Some(epoch),
            };
        }
        i += 1;
    }
    assert(positions@.take(i as int) =~= positions@);
    match best {
        Some(epoch) => epoch,
        None => first,
    }
}

/// Who owned an object before its takeover, and the version that retired it.
#[derive(Clone, Copy, Debug, PartialEq, Eq, Structural)]
pub struct DepartedOwner {
    pub owner: HostId,
    pub since_version: u64,
}

/// The objects a node owes a takeover for, and what it placed and took over.
#[derive(Debug)]
pub struct Takeovers {
    pub pending: BTreeSet<u128>,
    pub departed: BTreeMap<u128, DepartedOwner>,
    pub placed: BTreeMap<u128, PlacedHead>,
    /// The adopted heads whose content is still to be served.
    pub materialize: BTreeMap<u128, HeadValue>,
}

/// An object's standing in a takeover round.
#[derive(Clone, Copy, Debug, PartialEq, Eq, Structural)]
pub struct Owed {
    pub object: ObjectId,
    /// Whether this node is among its surviving candidates.
    pub candidate: bool,
    /// Whether the departed owner's lease can no longer hold; none if no departed owner is
    /// recorded.
    pub lease_over: Option<bool>,
}

/// Whether a takeover is driven: this node is a candidate, and the departed owner, where one is
/// recorded, can no longer serve under its lease.
pub open spec fn driven(owed: Owed) -> bool {
    owed.candidate && owed.lease_over != Some(false)
}

/// The objects whose takeover is driven now, in the order they are owed.
pub open spec fn driven_objects(owed: Seq<Owed>) -> Seq<ObjectId> {
    owed.filter(|owed: Owed| driven(owed)).map_values(|owed: Owed| owed.object)
}

/// The takeovers to drive this period.
pub fn takeovers(owed: &Vec<Owed>) -> (objects: Vec<ObjectId>)
    ensures
        objects@ == driven_objects(owed@),
{
    let mut objects: Vec<ObjectId> = Vec::new();
    let mut i: usize = 0;
    proof {
        reveal(Seq::filter);
        assert(objects@ =~= owed@.take(0).filter(|owed: Owed| driven(owed)).map_values(
            |owed: Owed| owed.object,
        ));
    }
    while i < owed.len()
        invariant
            i <= owed@.len(),
            objects@ == owed@.take(i as int).filter(|owed: Owed| driven(owed)).map_values(
                |owed: Owed| owed.object,
            ),
        decreases owed@.len() - i,
    {
        let ghost before = objects@;
        proof {
            reveal(Seq::filter);
            assert(owed@.take(i + 1).drop_last() =~= owed@.take(i as int));
            assert(owed@.take(i + 1).last() == owed@[i as int]);
        }
        let item = owed[i];
        let over = match item.lease_over {
            Some(over) => over,
            None => true,
        };
        if item.candidate && over {
            objects.push(item.object);
        }
        proof {
            assert(objects@ =~= owed@.take(i + 1).filter(|owed: Owed| driven(owed)).map_values(
                |owed: Owed| owed.object,
            ));
        }
        i += 1;
    }
    assert(owed@.take(i as int) =~= owed@);
    objects
}

/// What a takeover starts from: the object's hold was taken for it.
#[derive(Clone, Copy, Debug, PartialEq, Eq, Structural)]
pub struct TakeoverStart {
    pub prepare: Prepare,
    /// The authority installed on the hold, so that this node's own promise and its adoption are
    /// authorized.
    pub authority: Authority,
}

/// The epoch one above another.
pub open spec fn epoch_above(epoch: HostEpoch) -> HostEpoch {
    HostEpoch(clamp_u64(epoch.0 + 1))
}

/// The takeover a node may start, if it may.
pub open spec fn takeover_start(
    object: ObjectId,
    placing: Placing,
    candidates: Seq<HostId>,
    cohort_known: bool,
    highest_held: Option<HostEpoch>,
) -> Option<TakeoverStart> {
    if lists(candidates, placing.local) && cohort_known && highest_held is Some {
        Some(
            TakeoverStart {
                prepare: Prepare {
                    owner: placing.local,
                    object,
                    epoch: epoch_above(highest_held->0),
                    generation: placing.version,
                },
                authority: Authority { generation: placing.version, owner: placing.local },
            },
        )
    } else {
        None
    }
}

/// Starts a takeover, under an epoch one above the highest held so that the holders' fences rise
/// above the departed owner's. Nothing is driven if this node is no candidate, knows no cohort to
/// recover from, or holds nothing.
pub fn start_takeover(
    object: ObjectId,
    placing: &Placing,
    candidates: &Vec<HostId>,
    cohort_known: bool,
    highest_held: Option<HostEpoch>,
) -> (start: Option<TakeoverStart>)
    ensures
        start == takeover_start(object, *placing, candidates@, cohort_known, highest_held),
{
    if !contains_host(candidates, placing.local) || !cohort_known {
        return None;
    }
    match highest_held {
        Some(held) => Some(
            TakeoverStart {
                prepare: Prepare {
                    owner: placing.local,
                    object,
                    epoch: HostEpoch(held.0.saturating_add(1)),
                    generation: placing.version,
                },
                authority: Authority { generation: placing.version, owner: placing.local },
            },
        ),
        None => None,
    }
}

/// A takeover outranks the owner it replaces: its epoch is above every epoch held for the object.
pub proof fn a_takeover_outranks_the_departed_owner(
    positions: Seq<(ObjectId, HostEpoch)>,
    object: ObjectId,
    at: int,
)
    requires
        0 <= at < positions.len(),
        positions[at].0 == object,
    ensures
        highest(positions, object) matches Some(best) && best.0 >= positions[at].1.0 && (best.0
            < u64::MAX ==> clamp_u64(best.0 + 1) > positions[at].1.0),
    decreases positions.len(),
{
    if at < positions.len() - 1 {
        a_takeover_outranks_the_departed_owner(positions.drop_last(), object, at);
    }
}

/// How a takeover's adoption ended: the adopted record's sequence and value, and the placement its
/// commit reached.
#[derive(Debug)]
pub struct Adoption {
    pub sequence: u64,
    pub value: Vec<u8>,
    pub placement: Placement,
}

/// The hosts an object can be recovered from: its candidates, as one configuration placed them.
#[derive(Debug)]
pub struct RecoveryCohort {
    pub generation: u64,
    pub candidates: Vec<HostId>,
    pub quorum: Quorum,
}

/// The newest record a quorum of promises gave, to be committed again under the takeover.
#[derive(Debug)]
pub struct Adopted {
    pub sequence: u64,
    pub value: Vec<u8>,
}

/// Where a takeover stands.
#[derive(Clone, Copy, Debug, PartialEq, Eq, Structural)]
pub enum TakeoverStage {
    /// The surviving holders of the object's last cohort are asked to promise.
    Promote,
    /// The adopted record is committed over the object's candidates as they are now.
    Commit,
    /// Nothing more is asked of anyone.
    Ended,
}

/// A takeover being driven, from the promises it asks for to the adoption they allow.
#[derive(Debug)]
pub struct TakeoverDrive {
    pub start: TakeoverStart,
    /// The cohort the object was last placed on: a quorum of it must promise.
    pub recovery: RecoveryCohort,
    /// The object's candidates now, and their quorum: the adoption places on them.
    pub cohort: RecoveryCohort,
    pub stage: TakeoverStage,
    pub adopted: Option<Adopted>,
}

impl TakeoverDrive {
    /// Whether `drive` is how a takeover starts, if it does.
    pub open spec fn begins(
        object: ObjectId,
        placing: Placing,
        candidates: Vec<HostId>,
        recovery: Option<RecoveryCohort>,
        highest_held: Option<HostEpoch>,
        drive: Option<TakeoverDrive>,
    ) -> bool {
        match drive {
            Some(drive) => {
                &&& lists(candidates@, placing.local)
                &&& recovery == Some(drive.recovery)
                &&& highest_held is Some
                &&& drive.start == (TakeoverStart {
                    prepare: Prepare {
                        owner: placing.local,
                        object,
                        epoch: epoch_above(highest_held->0),
                        generation: placing.version,
                    },
                    authority: Authority { generation: placing.version, owner: placing.local },
                })
                &&& drive.cohort == (RecoveryCohort {
                    generation: placing.version,
                    candidates,
                    quorum: placing.quorum,
                })
                &&& drive.stage == TakeoverStage::Promote
                &&& drive.adopted is None
            },
            None => !lists(candidates@, placing.local) || recovery is None || highest_held
                is None,
        }
    }

    /// Starts driving a takeover: nothing is driven if this node is no candidate, knows no cohort to
    /// recover from, or holds nothing.
    pub fn begin(
        object: ObjectId,
        placing: &Placing,
        candidates: Vec<HostId>,
        recovery: Option<RecoveryCohort>,
        highest_held: Option<HostEpoch>,
    ) -> (drive: Option<TakeoverDrive>)
        ensures
            Self::begins(object, *placing, candidates, recovery, highest_held, drive),
    {
        let start = match start_takeover(
            object,
            placing,
            &candidates,
            recovery.is_some(),
            highest_held,
        ) {
            Some(start) => start,
            None => {
                return None;
            },
        };
        match recovery {
            Some(recovery) => Some(
                TakeoverDrive {
                    start,
                    recovery,
                    cohort: RecoveryCohort {
                        generation: placing.version,
                        candidates,
                        quorum: placing.quorum,
                    },
                    stage: TakeoverStage::Promote,
                    adopted: None,
                },
            ),
            None => None,
        }
    }

    /// Whether a session to `host` is wanted for the stage the takeover stands at.
    pub open spec fn asks(&self, host: HostId) -> bool {
        match self.stage {
            TakeoverStage::Promote => lists(self.recovery.candidates@, host),
            TakeoverStage::Commit => lists(self.cohort.candidates@, host),
            TakeoverStage::Ended => false,
        }
    }

    /// Whether a session to `host` is wanted for the stage the takeover stands at: promises come
    /// from the last cohort, and acceptances from the candidates.
    pub fn wants(&self, host: HostId) -> (wanted: bool)
        ensures
            wanted == self.asks(host),
    {
        match self.stage {
            TakeoverStage::Promote => contains_host(&self.recovery.candidates, host),
            TakeoverStage::Commit => contains_host(&self.cohort.candidates, host),
            TakeoverStage::Ended => false,
        }
    }

    /// The drive once its promises came in.
    pub open spec fn after_promises(self, newest: Option<Adopted>) -> TakeoverDrive {
        if self.stage == TakeoverStage::Promote {
            TakeoverDrive {
                stage: if newest is Some {
                    TakeoverStage::Commit
                } else {
                    TakeoverStage::Ended
                },
                adopted: newest,
                ..self
            }
        } else {
            self
        }
    }

    /// Takes up the promises' outcome: what a quorum of them had newest, or nothing, if no quorum
    /// promised or no record was held. Only what was promised is committed.
    pub fn promoted(&mut self, newest: Option<Adopted>)
        ensures
            *final(self) == old(self).after_promises(newest),
    {
        match self.stage {
            TakeoverStage::Promote => {
                self.stage = if newest.is_some() {
                    TakeoverStage::Commit
                } else {
                    TakeoverStage::Ended
                };
                self.adopted = newest;
            },
            _ => {},
        }
    }

    /// Whether `ended` is what a drive comes to with its commit's placement.
    pub open spec fn ends(self, placement: Option<Placement>, ended: (Option<Adoption>, RecoveryCohort)) -> bool {
        &&& ended.1 == self.cohort
        &&& match ended.0 {
            Some(adoption) => {
                &&& self.stage == TakeoverStage::Commit
                &&& placement == Some(adoption.placement)
                &&& self.adopted == Some(
                    Adopted { sequence: adoption.sequence, value: adoption.value },
                )
            },
            None => self.stage != TakeoverStage::Commit || placement is None || self.adopted
                is None,
        }
    }

    /// Ends the takeover with its commit's placement, if it has one: what is to be recorded as
    /// adopted, with the cohort it was placed on.
    pub fn committed(self, placement: Option<Placement>) -> (ended: (
        Option<Adoption>,
        RecoveryCohort,
    ))
        ensures
            self.ends(placement, ended),
    {
        let committing = match self.stage {
            TakeoverStage::Commit => true,
            _ => false,
        };
        if !committing {
            return (None, self.cohort);
        }
        match (self.adopted, placement) {
            (Some(adopted), Some(placement)) => (
                Some(Adoption { sequence: adopted.sequence, value: adopted.value, placement }),
                self.cohort,
            ),
            _ => (None, self.cohort),
        }
    }
}

/// What a finished takeover leaves to serve.
#[derive(Clone, Copy, Debug, PartialEq, Eq, Structural)]
pub enum TakenOver {
    /// The adoption did not place: the object stays pending.
    Pending,
    /// The head's content is queued to be served.
    Head,
    /// The value is no head: a green's merge record, or nothing this node serves.
    Other,
}

impl Takeovers {
    /// Whether `after` is what taking up reassigned objects makes of this.
    pub open spec fn reassigns(
        &self,
        reassigned: Seq<ObjectId>,
        owners_before: Map<u128, HostId>,
        since_version: u64,
        after: Takeovers,
    ) -> bool {
        &&& forall|object: u128| #[trigger]
            after.pending@.contains(object) <==> self.pending@.contains(object)
                || reassigned.contains(ObjectId(object))
        &&& forall|object: u128| #[trigger]
            after.departed@.contains_key(object) <==> self.departed@.contains_key(
                object,
            ) || (reassigned.contains(ObjectId(object)) && owners_before.contains_key(
                object,
            ))
        &&& forall|object: u128| #[trigger]
            after.departed@.contains_key(object) ==> after.departed@[object] == (
            if reassigned.contains(ObjectId(object)) && owners_before.contains_key(object) {
                DepartedOwner { owner: owners_before[object], since_version }
            } else {
                self.departed@[object]
            })
        &&& after.placed == self.placed
        &&& after.materialize == self.materialize
    }

    /// Takes up what an installed configuration reassigned to this node: each object is pending,
    /// with the owner it had before and the version that retired it.
    pub fn install_reassignments(
        &mut self,
        reassigned: &Vec<ObjectId>,
        owners_before: &BTreeMap<u128, HostId>,
        since_version: u64,
    )
        ensures
            old(self).reassigns(reassigned@, owners_before@, since_version, *final(self)),
    {
        let ghost pending = self.pending@;
        let ghost departed = self.departed@;
        let mut i: usize = 0;
        while i < reassigned.len()
            invariant
                i <= reassigned@.len(),
                forall|object: u128| #[trigger]
                    self.pending@.contains(object) <==> pending.contains(object) || reassigned@.take(
                        i as int,
                    ).contains(ObjectId(object)),
                forall|object: u128| #[trigger]
                    self.departed@.contains_key(object) <==> departed.contains_key(object) || (
                    reassigned@.take(i as int).contains(ObjectId(object))
                        && owners_before@.contains_key(object)),
                forall|object: u128| #[trigger]
                    self.departed@.contains_key(object) ==> self.departed@[object] == (
                    if reassigned@.take(i as int).contains(ObjectId(object))
                        && owners_before@.contains_key(object) {
                        DepartedOwner { owner: owners_before@[object], since_version }
                    } else {
                        departed[object]
                    }),
                self.placed == old(self).placed,
                self.materialize == old(self).materialize,
            decreases reassigned@.len() - i,
        {
            let object: u128 = reassigned[i].0;
            let ghost shorter = reassigned@.take(i as int);
            let ghost longer = reassigned@.take(i + 1);
            proof {
                assert(longer =~= shorter.push(ObjectId(object)));
                assert forall|other: u128| #[trigger]
                    longer.contains(ObjectId(other)) <==> shorter.contains(ObjectId(other)) || other
                        == object by {
                    if shorter.contains(ObjectId(other)) {
                        let k = choose|k: int|
                            0 <= k < shorter.len() && shorter[k] == ObjectId(other);
                        assert(longer[k] == ObjectId(other));
                    }
                    if other == object {
                        assert(longer[i as int] == ObjectId(other));
                    }
                    if longer.contains(ObjectId(other)) {
                        let k = choose|k: int|
                            0 <= k < longer.len() && longer[k] == ObjectId(other);
                        if k < i {
                            assert(shorter[k] == ObjectId(other));
                        }
                    }
                }
            }
            self.pending.insert(object);
            let owner = match owners_before.get(&object) {
                Some(owner) => Some(*owner),
                None => None,
            };
            if let Some(owner) = owner {
                self.departed.insert(object, DepartedOwner { owner, since_version });
            }
            i += 1;
        }
        assert(reassigned@.take(i as int) =~= reassigned@);
    }

    /// Merges a round's acknowledgements into an object's recorded placement.
    pub fn record_acks_in(
        &mut self,
        object: ObjectId,
        sequence: u64,
        epoch: HostEpoch,
        round: &Placement,
    )
        ensures
            final(self).placed@.contains_key(object.0),
            final(self).placed@[object.0]@ == recorded_acks(
                if old(self).placed@.contains_key(object.0) {
                    Some(old(self).placed@[object.0]@)
                } else {
                    None
                },
                sequence,
                epoch,
                round@,
            ),
            final(self).placed@.remove(object.0) == old(self).placed@.remove(object.0),
            final(self).pending == old(self).pending,
            final(self).departed == old(self).departed,
            final(self).materialize == old(self).materialize,
    {
        let recorded = self.placed.remove(&object.0);
        let merged = record_acks(recorded, sequence, epoch, round);
        self.placed.insert(object.0, merged);
        assert(self.placed@.remove(object.0) =~= old(self).placed@.remove(object.0));
    }

    /// Whether `after` and `taken` are what finishing a takeover makes of this.
    pub open spec fn takes_over(
        &self,
        start: TakeoverStart,
        adopted: Option<Adoption>,
        cohort: RecoveryCohort,
        after: Takeovers,
        taken: (TakenOver, Option<RecoveryCohort>),
    ) -> bool {
        ({
            let object = start.prepare.object.0;
            if adopted matches Some(adoption) && adoption.placement@.placed(cohort.quorum) {
                let adoption = adopted->0;
                &&& taken.1 == Some(cohort)
                &&& after.pending@ == self.pending@.remove(object)
                &&& after.departed@ == self.departed@.remove(object)
                &&& after.placed@ == self.placed@.insert(
                    object,
                    PlacedHead {
                        sequence: adoption.sequence,
                        epoch: start.prepare.epoch,
                        placement: adoption.placement,
                    },
                )
                &&& match crate::head::decoded_head(adoption.value@) {
                    Some(head) => {
                        &&& taken.0 == TakenOver::Head
                        &&& after.materialize@.contains_key(object)
                        &&& after.materialize@[object]@ == head
                        &&& after.materialize@.remove(object)
                            == self.materialize@.remove(object)
                    },
                    None => {
                        &&& taken.0 == TakenOver::Other
                        &&& after.materialize == self.materialize
                    },
                }
            } else {
                &&& after == *self
                &&& taken.0 == TakenOver::Pending
                &&& taken.1 is None
            }
        })
    }

    /// Ends a takeover. An adoption that placed on its cohort, by the cohort's own quorum, is
    /// recorded under the takeover's epoch, the object is no longer pending, its departed owner is
    /// forgotten, its content is queued to be served, and the cohort is handed back, to be recorded
    /// as the one the object can be recovered from; otherwise the object stays pending and no cohort
    /// is recorded.
    pub fn finish_takeover(
        &mut self,
        start: &TakeoverStart,
        adopted: Option<Adoption>,
        cohort: RecoveryCohort,
    ) -> (taken: (TakenOver, Option<RecoveryCohort>))
        ensures
            old(self).takes_over(*start, adopted, cohort, *final(self), taken),
    {
        let adoption = match adopted {
            Some(adoption) => adoption,
            None => {
                return (TakenOver::Pending, None);
            },
        };
        if !adoption.placement.placed(cohort.quorum) {
            return (TakenOver::Pending, None);
        }
        let object: u128 = start.prepare.object.0;
        let Adoption { sequence, value, placement } = adoption;
        self.placed.insert(
            object,
            PlacedHead { sequence, epoch: start.prepare.epoch, placement },
        );
        self.pending.remove(&object);
        self.departed.remove(&object);
        let taken = match HeadValue::from_record_bytes(value.as_slice()) {
            Some(head) => {
                self.materialize.insert(object, head);
                assert(self.materialize@.remove(object) =~= old(self).materialize@.remove(object));
                TakenOver::Head
            },
            None => TakenOver::Other,
        };
        (taken, Some(cohort))
    }
}

/// Where serving an adopted head's content stands.
#[derive(Clone, Copy, Debug, PartialEq, Eq, Structural)]
pub enum Materialize {
    /// The head names no content: nothing is left to serve.
    Done,
    /// The content is held: serve the volume on the shard its id routes to.
    Serve,
    /// The content is to be fetched from a recorded holder this node can reach.
    Fetch,
    /// No recorded holder is reachable this period.
    Wait,
}

/// What a taken-over head calls for.
pub open spec fn materialize_of(manifest: bool, held: bool, reachable: bool) -> Materialize {
    if !manifest {
        Materialize::Done
    } else if held {
        Materialize::Serve
    } else if reachable {
        Materialize::Fetch
    } else {
        Materialize::Wait
    }
}

/// Where serving an adopted head's content stands.
pub fn materialize_step(manifest: bool, held: bool, reachable: bool) -> (step: Materialize)
    ensures
        step == materialize_of(manifest, held, reachable),
{
    if !manifest {
        Materialize::Done
    } else if held {
        Materialize::Serve
    } else if reachable {
        Materialize::Fetch
    } else {
        Materialize::Wait
    }
}

/// What a fetch of a head's content comes to.
pub open spec fn fetched_of(fetched: bool, stored: bool) -> (Materialize, Option<Refused>) {
    if !fetched {
        (Materialize::Wait, None)
    } else if stored {
        (Materialize::Serve, None)
    } else {
        (Materialize::Wait, Some(Refused::Materialize))
    }
}

/// What a fetch of an adopted head's content comes to: it is served once it is held; an archive
/// that could not be held is counted.
pub fn fetched_step(fetched: bool, stored: bool) -> (step: (Materialize, Option<Refused>))
    ensures
        step == fetched_of(fetched, stored),
{
    if !fetched {
        (Materialize::Wait, None)
    } else if stored {
        (Materialize::Serve, None)
    } else {
        (Materialize::Wait, Some(Refused::Materialize))
    }
}

/// Where serving a taken-over green stands, once its chain was asked for.
#[derive(Clone, Copy, Debug, PartialEq, Eq, Structural)]
pub enum GreenStep {
    /// An input is not held, or the adopted version lies past the records this node has: it stays
    /// queued, counted.
    Incomplete,
    /// The owning shard, or the takeover's placement, is not known: it stays queued.
    Wait,
    /// Move the chain and its placement to the owning shard, and replay it there.
    Serve { shard: u16 },
}

/// What a gathered chain calls for.
pub open spec fn green_of(gathered: bool, shard: Option<u16>, placed: bool) -> GreenStep {
    if !gathered {
        GreenStep::Incomplete
    } else {
        match shard {
            Some(shard) if placed => GreenStep::Serve { shard },
            _ => GreenStep::Wait,
        }
    }
}

/// Where serving a taken-over green stands.
pub fn green_step(gathered: bool, shard: Option<u16>, placed: bool) -> (step: GreenStep)
    ensures
        step == green_of(gathered, shard, placed),
{
    if !gathered {
        return GreenStep::Incomplete;
    }
    match shard {
        Some(shard) if placed => GreenStep::Serve { shard },
        _ => GreenStep::Wait,
    }
}

/// Whether `counted` and `later` are what the end of a stream makes of the queue.
pub open spec fn ends_green(
    queued: Set<u128>,
    object: ObjectId,
    step: GreenStep,
    served: Option<bool>,
    counted: Option<Refused>,
    later: Set<u128>,
) -> bool {
    &&& later == (if step is Serve && served == Some(true) {
        queued.remove(object.0)
    } else {
        queued
    })
    &&& counted == (match step {
        GreenStep::Incomplete => Some(Refused::TakeoverIncomplete),
        GreenStep::Wait => None,
        GreenStep::Serve { .. } => if served == Some(true) {
            None
        } else {
            Some(Refused::TakeoverRefused)
        },
    })
}

/// Ends a period's attempt at a taken-over green: served, it is no longer queued; otherwise it stays,
/// and what kept it is counted.
pub fn green_ended(
    queued: &mut BTreeSet<u128>,
    object: ObjectId,
    step: GreenStep,
    served: Option<bool>,
) -> (counted: Option<Refused>)
    ensures
        ends_green(old(queued)@, object, step, served, counted, final(queued)@),
{
    match step {
        GreenStep::Incomplete => Some(Refused::TakeoverIncomplete),
        GreenStep::Wait => None,
        GreenStep::Serve { .. } => {
            let done = match served {
                Some(served) => served,
                None => false,
            };
            if done {
                queued.remove(&object.0);
                None
            } else {
                Some(Refused::TakeoverRefused)
            }
        },
    }
}

/// Where serving a held head's volume stands.
#[derive(Clone, Copy, Debug, PartialEq, Eq, Structural)]
pub enum HeadStep {
    /// The archive, the owning shard, or the takeover's placement is not known: it stays queued.
    Wait,
    /// Serve the volume on this shard, with the takeover's placement.
    Serve { shard: u16 },
}

/// What a head whose content is held calls for.
pub open spec fn head_step_of(archive: bool, shard: Option<u16>, placed: bool) -> HeadStep {
    match shard {
        Some(shard) => if archive && placed {
            HeadStep::Serve { shard }
        } else {
            HeadStep::Wait
        },
        None => HeadStep::Wait,
    }
}

/// Where serving a held head's volume stands: it is served on the shard its id routes to, with its
/// archive and the takeover's placement of it, or waits until all three are known.
pub fn head_step(archive: bool, shard: Option<u16>, placed: bool) -> (step: HeadStep)
    ensures
        step == head_step_of(archive, shard, placed),
{
    match shard {
        Some(shard) if archive && placed => HeadStep::Serve { shard },
        _ => HeadStep::Wait,
    }
}

impl Takeovers {
    /// Dequeues an adopted head that names no content: there is nothing to serve beyond the head.
    pub fn unsealed(&mut self, object: ObjectId)
        ensures
            final(self).materialize@ == old(self).materialize@.remove(object.0),
            final(self).pending == old(self).pending,
            final(self).departed == old(self).departed,
            final(self).placed == old(self).placed,
    {
        self.materialize.remove(&object.0);
    }

    /// Ends one attempt to serve an adopted head: served, it is no longer queued; refused, or
    /// unanswered within a period, it stays queued and is counted; one that waits stays queued, and
    /// nothing is counted.
    pub fn materialized(&mut self, object: ObjectId, step: HeadStep, served: Option<bool>) -> (
        counted: Option<Refused>)
        ensures
            final(self).pending == old(self).pending,
            final(self).departed == old(self).departed,
            final(self).placed == old(self).placed,
            final(self).materialize@ == (if step is Serve && served == Some(true) {
                old(self).materialize@.remove(object.0)
            } else {
                old(self).materialize@
            }),
            counted == (if step is Serve && served != Some(true) {
                Some(Refused::Materialize)
            } else {
                None
            }),
    {
        match step {
            HeadStep::Wait => None,
            HeadStep::Serve { .. } => {
                let done = match served {
                    Some(served) => served,
                    None => false,
                };
                if done {
                    self.materialize.remove(&object.0);
                    None
                } else {
                    Some(Refused::Materialize)
                }
            },
        }
    }

    /// Takes over a placement on the shard that serves its object, a volume or a green: exactly when
    /// the object is served there, so that the shard's record plane writes the object's next records
    /// at the takeover's epoch, and only to the holders that miss this one.
    pub fn serve_placement(&mut self, object: ObjectId, placed: PlacedHead, served: bool)
        ensures
            final(self).placed@ == (if served {
                old(self).placed@.insert(object.0, placed)
            } else {
                old(self).placed@
            }),
            final(self).pending == old(self).pending,
            final(self).departed == old(self).departed,
            final(self).materialize == old(self).materialize,
    {
        if served {
            self.placed.insert(object.0, placed);
        }
    }
}

/// What the coordinator does with the council's configuration this period.
#[derive(Clone, Copy, Debug, PartialEq, Eq, Structural)]
pub struct ConfigSync {
    /// Whether the node serves: not rejoining, both groups initialized, and a member.
    pub ready: bool,
    /// Whether the committed configuration is installed now.
    pub install: bool,
}

/// What the coordinator reads of the groups.
#[derive(Clone, Copy, Debug, PartialEq, Eq, Structural)]
pub struct GroupFacts {
    pub joining: bool,
    pub council_initialized: bool,
    pub root_initialized: bool,
    /// The council's committed version.
    pub council_version: u64,
    /// The version installed for placement.
    pub installed_version: u64,
    /// Whether the committed configuration has an owner view for this node.
    pub owner_view: bool,
}

/// What a node takes from its council this period.
pub open spec fn config_sync(local: HostId, members: Seq<HostId>, groups: GroupFacts) -> ConfigSync {
    ConfigSync {
        ready: !groups.joining && groups.council_initialized && groups.root_initialized
            && lists(members, local),
        install: groups.council_version != groups.installed_version && groups.owner_view,
    }
}

/// What the coordinator does with the council's configuration this period. An unchanged version
/// installs nothing.
pub fn sync_config_from_council(local: HostId, members: &Vec<HostId>, groups: &GroupFacts) -> (sync:
    ConfigSync)
    ensures
        sync == config_sync(local, members@, *groups),
{
    ConfigSync {
        ready: !groups.joining && groups.council_initialized && groups.root_initialized
            && contains_host(members, local),
        install: groups.council_version != groups.installed_version && groups.owner_view,
    }
}

/// Whether a fanned configuration is installed.
pub open spec fn fanned_installs(ready: bool, fanned_version: u64, installed_version: u64) -> bool {
    !ready || fanned_version > installed_version
}

/// Whether a shard installs a fanned configuration: until it is ready, and then only a newer one.
pub fn installs_fanned(ready: bool, fanned_version: u64, installed_version: u64) -> (installs: bool)
    ensures
        installs == fanned_installs(ready, fanned_version, installed_version),
{
    !ready || fanned_version > installed_version
}

/// Every stream of an enrolled peer has its one service, whichever streams the two movable services
/// are given: a request on it is never served as another's.
pub proof fn a_stream_has_one_service(stream: u64, services: ServiceStreams)
    requires
        services.merge_record > 13,
        services.owner_location > 13,
        services.merge_record != services.owner_location,
    ensures
        ({
            let route = routed(stream, true, services);
            &&& (route == Route::Discovery) == (stream == 13)
            &&& (route == Route::Record) == (stream == 1)
            &&& (route == Route::Promotion) == (stream == 2)
            &&& (route == Route::Content) == (stream == 4 || stream == 5 || stream == 6)
            &&& (route == Route::Council) == (stream == 7)
            &&& (route == Route::ConfigFetch) == (stream == 8)
            &&& (route == Route::Root) == (stream == 9)
            &&& (route == Route::RootFetch) == (stream == 10)
            &&& (route == Route::Forward) == (stream == 11)
            &&& (route == Route::MergeRecord) == (stream == services.merge_record)
            &&& (route == Route::OwnerLocation) == (stream == services.owner_location)
            &&& route != Route::NotEnrolled
            &&& (routed(stream, false, services) == Route::Discovery) == (stream == 13)
        }),
{
}

/// A record that is not held is refused for its first fault: a writer that is not the peer itself or
/// is no member is unauthorized; one ahead of this node is of a foreign generation; one behind it is
/// told the version; and what the acceptor refuses is passed on.
pub proof fn a_refused_record_says_why(
    record: RecordFacts,
    peer: HostId,
    members: Seq<HostId>,
    version: u64,
    acceptor: Result<(), RegisterRefusal>,
)
    ensures
        ({
            let checked = held_check(record, peer, members, version, acceptor);
            let authorized = record.owner == peer && lists(members, peer);
            &&& !authorized ==> checked == Err::<(), RegisterRefusal>(RegisterRefusal::Unauthorized)
            &&& authorized && record.generation > version ==> checked == Err::<
                (),
                RegisterRefusal,
            >(RegisterRefusal::ForeignGeneration { current: version })
            &&& authorized && record.generation < version ==> checked == Err::<
                (),
                RegisterRefusal,
            >(RegisterRefusal::ConfigurationStale { version })
            &&& authorized && record.generation == version ==> checked == acceptor
        }),
{
}

/// A record is acknowledged exactly when it passed, was accepted and was backed; any refusal is told,
/// the earliest first; and its owner is newly backed only by a record that was accepted.
pub proof fn a_record_is_acknowledged_once_held(
    checked: Result<(), RegisterRefusal>,
    first: bool,
    accepted: Result<(), RegisterRefusal>,
    backed: Result<(), RegisterRefusal>,
)
    ensures
        ({
            let (reply, newly) = held_outcome(checked, first, accepted, backed);
            &&& (reply == HeldReply::Acknowledge) == (checked is Ok && accepted is Ok && backed
                is Ok)
            &&& checked matches Err(refusal) ==> reply == HeldReply::Refuse(refusal)
            &&& checked is Ok ==> (accepted matches Err(refusal) ==> reply == HeldReply::Refuse(
                refusal,
            ))
            &&& checked is Ok && accepted is Ok ==> (backed matches Err(refusal) ==> reply
                == HeldReply::Refuse(refusal))
            &&& newly == (first && checked is Ok && accepted is Ok)
        }),
{
}

/// A promise is given to the new owner itself and to nobody else, and only where one was made.
pub proof fn a_promise_is_the_new_owners(peer: HostId, prepare: Prepare, promised: Option<bool>)
    ensures
        (promotion_reply(peer, prepare, promised) == PromotionReply::Unauthorized) == (prepare.owner
            != peer),
        (promotion_reply(peer, prepare, promised) == PromotionReply::Promise) == (prepare.owner
            == peer && promised == Some(true)),
{
}

/// Every held object with an owner is brought to the new generation under that owner, in the order
/// they are held, and no other is touched.
pub proof fn every_owned_object_is_reconciled(held: Seq<HeldObject>, generation: u64, at: int)
    requires
        0 <= at < held.len(),
    ensures
        ({
            let installs = reconciled(held, generation);
            let before = reconciled(held.take(at), generation).len() as int;
            let through = reconciled(held.take(at + 1), generation).len();
            &&& installs.len() <= held.len()
            &&& match held[at].owner {
                Some(owner) => before < installs.len() && installs[before].0 == held[at].object
                    && installs[before].1.owner == owner && installs[before].1.generation
                    == generation,
                None => through == before,
            }
        }),
    decreases held.len(),
{
    let last = held.len() - 1;
    if at == last {
        assert(held.take(at) =~= held.drop_last());
        assert(held.take(at + 1) =~= held);
        if held.len() > 1 {
            every_owned_object_is_reconciled(held.drop_last(), generation, last - 1);
        }
    } else {
        every_owned_object_is_reconciled(held.drop_last(), generation, at);
        assert(held.drop_last().take(at) =~= held.take(at));
        assert(held.drop_last().take(at + 1) =~= held.take(at + 1));
    }
}

/// Every object of an owner with a raised epoch is fenced at that epoch, in the order they are held,
/// and no other is.
pub proof fn every_object_of_a_failed_owner_is_fenced(
    held: Seq<(ObjectId, HostId)>,
    epochs: Map<u64, HostEpoch>,
    at: int,
)
    requires
        0 <= at < held.len(),
    ensures
        ({
            let raised = fences(held, epochs);
            let before = fences(held.take(at), epochs).len() as int;
            let through = fences(held.take(at + 1), epochs).len();
            &&& raised.len() <= held.len()
            &&& if epochs.contains_key(held[at].1.0) {
                before < raised.len() && raised[before] == (held[at].0, epochs[held[at].1.0])
            } else {
                through == before
            }
        }),
    decreases held.len(),
{
    let last = held.len() - 1;
    if at == last {
        assert(held.take(at) =~= held.drop_last());
        assert(held.take(at + 1) =~= held);
        if held.len() > 1 {
            every_object_of_a_failed_owner_is_fenced(held.drop_last(), epochs, last - 1);
        }
    } else {
        every_object_of_a_failed_owner_is_fenced(held.drop_last(), epochs, at);
        assert(held.drop_last().take(at) =~= held.take(at));
        assert(held.drop_last().take(at + 1) =~= held.take(at + 1));
    }
}

/// A head is shipped while a remote candidate has not acknowledged it, and no longer: to that
/// volume's candidates, under the generation and the quorum in force, at an epoch no lower than the
/// node's own or the recorded one, with the acknowledgements of this sequence and of no other.
pub proof fn a_head_is_shipped_until_it_is_held(
    placing: Placing,
    volume: VolumeFacts,
    seal: Option<SealJob>,
    recorded: Option<PlacedFacts>,
    candidates: Seq<HostId>,
    head: Option<Head>,
)
    requires
        ships(placing, volume, seal, recorded, candidates, head),
    ensures
        head_of(volume, seal, placing.quorum) is None ==> head is None,
        head matches Some(head) ==> {
            &&& head_of(volume, seal, placing.quorum) matches Some((sequence, value))
                && head.sequence == sequence && head.value@ == head_bytes(value)
            &&& head.object == volume.object
            &&& head.shard == placing.shard
            &&& head.generation == placing.version
            &&& head.quorum == placing.quorum
            &&& head.candidates@ == candidates
            &&& head.epoch.0 >= placing.host_epoch.0
            &&& match recorded {
                Some(recorded) => {
                    &&& head.epoch.0 >= recorded.epoch.0
                    &&& head.epoch == recorded.epoch || head.epoch == placing.host_epoch
                    &&& recorded.sequence == head.sequence ==> head.acked@
                        == recorded.placement.acked
                    &&& recorded.sequence != head.sequence ==> head.acked@.len() == 0
                },
                None => head.epoch == placing.host_epoch && head.acked@.len() == 0,
            }
            &&& exists|i: int|
                0 <= i < candidates.len() && #[trigger] candidates[i] != placing.local && !lists(
                    head.acked@,
                    candidates[i],
                )
        },
        head is None && (head_of(volume, seal, placing.quorum) matches Some((sequence, value)) && (
        recorded matches Some(recorded) && recorded.sequence == sequence)) ==> forall|i: int|
            0 <= i < candidates.len() ==> #[trigger] candidates[i] == placing.local || lists(
                (recorded->0).placement.acked,
                candidates[i],
            ),
        head is None && head_of(volume, seal, placing.quorum) is Some && recorded is None ==> forall|
            i: int,
        |
            0 <= i < candidates.len() ==> #[trigger] candidates[i] == placing.local,
{
    if let Some((sequence, value)) = head_of(volume, seal, placing.quorum) {
        let acked = acked_at(recorded, sequence);
        if head is None {
            assert forall|i: int| 0 <= i < candidates.len() implies #[trigger] candidates[i]
                == placing.local || lists(acked, candidates[i]) by {}
            if recorded is None {
                assert forall|i: int| 0 <= i < candidates.len() implies #[trigger] candidates[i]
                    == placing.local by {
                    assert(!lists(acked, candidates[i]));
                }
            }
        }
    }
}

/// A head goes to the candidates that have not acknowledged it, and to no other.
pub proof fn a_head_goes_to_the_rest(head: Head, host: HostId)
    ensures
        lists(head.remaining(), host) <==> lists(head.candidates@, host) && !lists(
            head.acked@,
            host,
        ),
{
    lemma_not_listed(head.candidates@, head.acked@, host);
    assert(head.remaining() =~= head.candidates@.filter(
        |host: HostId| !lists(head.acked@, host),
    ));
}

/// Which hosts of a list another does not list.
pub(crate) proof fn lemma_not_listed(hosts: Seq<HostId>, listed: Seq<HostId>, host: HostId)
    ensures
        lists(hosts.filter(|host: HostId| !lists(listed, host)), host) <==> lists(hosts, host)
            && !lists(listed, host),
    decreases hosts.len(),
{
    reveal(Seq::filter);
    if hosts.len() > 0 {
        let shorter = hosts.drop_last();
        let before = shorter.filter(|host: HostId| !lists(listed, host));
        lemma_not_listed(shorter, listed, host);
        assert(hosts =~= shorter.push(hosts.last()));
        crate::fleet::council::lemma_lists_push(shorter, hosts.last(), host);
        crate::fleet::council::lemma_lists_push(before, hosts.last(), host);
    }
}

/// A round's acknowledgements are recorded and no others: at a newer sequence they alone stand; at
/// the recorded one they join those before; at an older one nothing changes. The epoch is the higher
/// of the two.
pub proof fn a_rounds_acknowledgements_are_recorded(
    recorded: Option<PlacedFacts>,
    sequence: u64,
    epoch: HostEpoch,
    round: PlacementFacts,
    host: HostId,
)
    ensures
        ({
            let merged = recorded_acks(recorded, sequence, epoch, round);
            let acked = lists(merged.placement.acked, host);
            match recorded {
                None => {
                    &&& merged.sequence == sequence
                    &&& merged.epoch == epoch
                    &&& merged.placement.candidates == round.candidates
                    &&& acked == lists(round.acked, host)
                },
                Some(before) => if sequence < before.sequence {
                    merged == before
                } else {
                    &&& merged.sequence == sequence
                    &&& merged.epoch.0 >= epoch.0
                    &&& merged.epoch == epoch || merged.epoch == before.epoch
                    &&& sequence == before.sequence ==> acked == (lists(
                        before.placement.acked,
                        host,
                    ) || lists(round.acked, host)) && merged.placement.candidates
                        == before.placement.candidates
                    &&& sequence > before.sequence ==> acked == lists(round.acked, host)
                        && merged.placement.candidates == round.candidates
                },
            }
        }),
{
    let none = Seq::<HostId>::empty();
    crate::head::acknowledgements_accumulate(none, round.acked, host);
    assert(!lists(none, host));
    if let Some(before) = recorded {
        crate::head::acknowledgements_accumulate(before.placement.acked, round.acked, host);
    }
}

/// The highest epoch held for an object is one that is held for it.
pub proof fn the_highest_epoch_is_held(positions: Seq<(ObjectId, HostEpoch)>, object: ObjectId)
    ensures
        match highest(positions, object) {
            Some(best) => exists|at: int|
                0 <= at < positions.len() && #[trigger] positions[at] == (object, best),
            None => forall|at: int|
                0 <= at < positions.len() ==> (#[trigger] positions[at]).0 != object,
        },
    decreases positions.len(),
{
    if positions.len() > 0 {
        let shorter = positions.drop_last();
        let last = positions.len() - 1;
        the_highest_epoch_is_held(shorter, object);
        match highest(shorter, object) {
            Some(best) => {
                let at = choose|at: int|
                    0 <= at < shorter.len() && #[trigger] shorter[at] == (object, best);
                assert(positions[at] == (object, best));
                assert(positions[last] == positions.last());
            },
            None => {
                assert forall|at: int| 0 <= at < last implies (#[trigger] positions[at]).0
                    != object by {
                    assert(shorter[at].0 != object);
                }
                assert(positions[last] == positions.last());
            },
        }
    }
}

/// A takeover is driven for each object this node is a candidate of, unless its departed owner's
/// lease still runs: for each of those and no other.
pub proof fn a_takeover_waits_for_the_departed_lease(owed: Seq<Owed>, object: ObjectId)
    ensures
        driven_objects(owed).contains(object) <==> exists|at: int|
            0 <= at < owed.len() && (#[trigger] owed[at]).object == object && owed[at].candidate
                && owed[at].lease_over != Some(false),
{
    let keep = |owed: Owed| driven(owed);
    let kept = owed.filter(keep);
    let objects = driven_objects(owed);
    assert(objects =~= kept.map_values(|owed: Owed| owed.object));
    if objects.contains(object) {
        let i = choose|i: int| 0 <= i < objects.len() && objects[i] == object;
        owed.lemma_filter_pred(keep, i);
        assert(kept.contains(kept[i]));
        owed.lemma_filter_contains_rev(keep, kept[i]);
        let at = choose|at: int| 0 <= at < owed.len() && owed[at] == kept[i];
        assert(owed[at].object == object);
    }
    if exists|at: int|
        0 <= at < owed.len() && (#[trigger] owed[at]).object == object && owed[at].candidate
            && owed[at].lease_over != Some(false) {
        let at = choose|at: int|
            0 <= at < owed.len() && (#[trigger] owed[at]).object == object && owed[at].candidate
                && owed[at].lease_over != Some(false);
        owed.lemma_filter_contains(keep, at);
        let i = choose|i: int| 0 <= i < kept.len() && kept[i] == owed[at];
        assert(objects[i] == object);
    }
}

/// A takeover is started by a candidate that knows the cohort to recover from and holds the object,
/// and by no other node: for that object, in its own name, under the configuration in force, and at
/// an epoch above the highest it holds.
pub proof fn a_takeover_is_a_candidates(
    object: ObjectId,
    placing: Placing,
    candidates: Vec<HostId>,
    recovery: Option<RecoveryCohort>,
    highest_held: Option<HostEpoch>,
    drive: Option<TakeoverDrive>,
)
    requires
        TakeoverDrive::begins(object, placing, candidates, recovery, highest_held, drive),
    ensures
        drive is Some <==> lists(candidates@, placing.local) && recovery is Some && highest_held
            is Some,
        drive matches Some(drive) ==> {
            &&& takeover_start(
                object,
                placing,
                candidates@,
                recovery is Some,
                highest_held,
            ) == Some(drive.start)
            &&& drive.start.prepare.owner == placing.local
            &&& drive.start.prepare.object == object
            &&& drive.start.prepare.generation == placing.version
            &&& (highest_held->0).0 < u64::MAX ==> drive.start.prepare.epoch.0 == (highest_held->0).0
                + 1
            &&& drive.start.authority.owner == placing.local
            &&& drive.start.authority.generation == placing.version
            &&& drive.recovery == recovery->0
            &&& drive.cohort.candidates == candidates
            &&& drive.cohort.generation == placing.version
            &&& drive.cohort.quorum == placing.quorum
            &&& drive.stage == TakeoverStage::Promote
            &&& forall|host: HostId| #[trigger]
                drive.asks(host) <==> lists((recovery->0).candidates@, host)
        },
{
}

/// A takeover commits the newest record that its promises brought over its own cohort, and adopts
/// that record as it was: without one there is nothing to commit, and without a placement nothing is
/// adopted.
pub proof fn a_takeover_adopts_what_was_promised(
    drive: TakeoverDrive,
    newest: Option<Adopted>,
    placement: Option<Placement>,
    ended: (Option<Adoption>, RecoveryCohort),
    host: HostId,
)
    requires
        drive.stage == TakeoverStage::Promote,
        drive.after_promises(newest).ends(placement, ended),
    ensures
        ended.0 is Some <==> newest is Some && placement is Some,
        ended.0 matches Some(adoption) ==> adoption.sequence == (newest->0).sequence
            && adoption.value == (newest->0).value && adoption.placement == placement->0,
        ended.1 == drive.cohort,
        drive.after_promises(newest).asks(host) == (newest is Some && lists(
            drive.cohort.candidates@,
            host,
        )),
        drive.after_promises(newest).start == drive.start,
{
}

/// A takeover is over exactly when its record is on a quorum of its cohort: until then it stays owed,
/// and nothing changes. Then the object is owed no more, its departed owner is forgotten, the record
/// stands as this node's at the epoch it promised, and a head that decodes waits for its content.
pub proof fn a_takeover_ends_on_a_quorum(
    before: Takeovers,
    start: TakeoverStart,
    adopted: Option<Adoption>,
    cohort: RecoveryCohort,
    after: Takeovers,
    taken: (TakenOver, Option<RecoveryCohort>),
    object: u128,
)
    requires
        before.takes_over(start, adopted, cohort, after, taken),
    ensures
        ({
            let own = start.prepare.object.0;
            let over = adopted matches Some(adoption) && adoption.placement.acked@.len()
                > cohort.quorum.f;
            &&& (taken.0 == TakenOver::Pending) == !over
            &&& !over ==> after == before && taken.1 is None
            &&& over ==> {
                let adoption = adopted->0;
                &&& !after.pending@.contains(own)
                &&& !after.departed@.contains_key(own)
                &&& after.placed@.contains_key(own)
                &&& after.placed@[own].sequence == adoption.sequence
                &&& after.placed@[own].epoch == start.prepare.epoch
                &&& after.placed@[own].placement == adoption.placement
                &&& taken.1 == Some(cohort)
                &&& (taken.0 == TakenOver::Head) == (crate::head::decoded_head(adoption.value@)
                    is Some)
                &&& crate::head::decoded_head(adoption.value@) matches Some(head)
                    ==> after.materialize@.contains_key(own) && after.materialize@[own]@ == head
            }
            &&& object != own ==> {
                &&& after.pending@.contains(object) == before.pending@.contains(object)
                &&& after.departed@.contains_key(object) == before.departed@.contains_key(object)
                &&& after.placed@.contains_key(object) == before.placed@.contains_key(object)
                &&& after.materialize@.contains_key(object) == before.materialize@.contains_key(
                    object,
                )
            }
        }),
{
    let own = start.prepare.object.0;
    if object != own {
        assert(after.materialize@.remove(own).contains_key(object)
            == after.materialize@.contains_key(object));
        assert(before.materialize@.remove(own).contains_key(object)
            == before.materialize@.contains_key(object));
    }
}

/// A reassigned object is owed, with the owner it had and since which configuration; nothing that was
/// owed is forgotten, and nothing else becomes owed.
pub proof fn a_reassigned_object_is_owed(
    before: Takeovers,
    reassigned: Seq<ObjectId>,
    owners_before: Map<u128, HostId>,
    since_version: u64,
    after: Takeovers,
    object: u128,
)
    requires
        before.reassigns(reassigned, owners_before, since_version, after),
    ensures
        reassigned.contains(ObjectId(object)) ==> after.pending@.contains(object),
        before.pending@.contains(object) ==> after.pending@.contains(object),
        after.pending@.contains(object) ==> before.pending@.contains(object) || reassigned.contains(
            ObjectId(object),
        ),
        reassigned.contains(ObjectId(object)) && owners_before.contains_key(object)
            ==> after.departed@.contains_key(object) && after.departed@[object].owner
            == owners_before[object] && after.departed@[object].since_version == since_version,
        !reassigned.contains(ObjectId(object)) ==> after.departed@.contains_key(object)
            == before.departed@.contains_key(object),
        !reassigned.contains(ObjectId(object)) && before.departed@.contains_key(object)
            ==> after.departed@[object] == before.departed@[object],
        after.placed == before.placed,
        after.materialize == before.materialize,
{
    assert(before.departed@.contains_key(object) ==> after.departed@.contains_key(object));
}

/// A taken-over head is served from content that is held, on the shard its id routes to, once its
/// record is placed; content that is not held is fetched while a holder is in reach; and a head
/// without content needs neither.
pub proof fn a_head_is_served_from_held_content(
    manifest: bool,
    held: bool,
    reachable: bool,
    shard: Option<u16>,
    placed: bool,
)
    ensures
        (materialize_of(manifest, held, reachable) == Materialize::Done) == !manifest,
        (materialize_of(manifest, held, reachable) == Materialize::Serve) == (manifest && held),
        (materialize_of(manifest, held, reachable) == Materialize::Fetch) == (manifest && !held
            && reachable),
        fetched_of(true, true) == (Materialize::Serve, None::<Refused>),
        fetched_of(true, false) == (Materialize::Wait, Some(Refused::Materialize)),
        fetched_of(false, held) == (Materialize::Wait, None::<Refused>),
        head_step_of(held, shard, placed) is Serve <==> held && placed && shard is Some,
        head_step_of(held, shard, placed) matches HeadStep::Serve { shard: on } ==> shard == Some(on),
        green_of(held, shard, placed) is Serve <==> held && placed && shard is Some,
        green_of(held, shard, placed) matches GreenStep::Serve { shard: on } ==> shard == Some(on),
        (green_of(held, shard, placed) == GreenStep::Incomplete) == !held,
{
}

/// A node serves under its groups only as a member of both, with no join pending; and a configuration
/// is installed when it differs from the one installed and names this node's view, or, fanned out,
/// when it is newer or nothing is ready.
pub proof fn a_node_serves_as_a_member(
    local: HostId,
    members: Seq<HostId>,
    groups: GroupFacts,
    fanned: u64,
    installed: u64,
)
    ensures
        config_sync(local, members, groups).ready <==> !groups.joining && groups.council_initialized
            && groups.root_initialized && lists(members, local),
        config_sync(local, members, groups).install <==> groups.council_version
            != groups.installed_version && groups.owner_view,
        fanned_installs(false, fanned, installed),
        fanned_installs(true, fanned, installed) <==> fanned > installed,
{
}

/// A reply goes back when it acknowledges or when it tells of a newer configuration; an owner told of a
/// newer one than its own asks to be refreshed, and one that already asks goes on asking.
pub proof fn a_stale_owner_is_told(
    reply: HeldReply,
    stale_version: Option<u64>,
    version: u64,
    wanted: bool,
)
    ensures
        reply is Acknowledge ==> reply.is_sent(),
        reply matches HeldReply::Refuse(refusal) ==> (reply.is_sent() <==> refusal
            is ConfigurationStale),
        wanted ==> wants_refresh(stale_version, version, wanted),
        !wanted ==> (wants_refresh(stale_version, version, wanted) <==> stale_version is Some
            && stale_version->0 > version),
{
}

/// A stream leaves the queue once it is served, and not before; one that could not be is counted by
/// whether it was incomplete or refused.
pub proof fn a_stream_stays_queued_until_it_is_served(
    queued: Set<u128>,
    object: ObjectId,
    step: GreenStep,
    served: Option<bool>,
    counted: Option<Refused>,
    later: Set<u128>,
    other: u128,
)
    requires
        ends_green(queued, object, step, served, counted, later),
    ensures
        step is Serve && served == Some(true) ==> !later.contains(object.0) && counted is None,
        !(step is Serve && served == Some(true)) ==> later == queued,
        other != object.0 ==> later.contains(other) == queued.contains(other),
        counted == Some(Refused::TakeoverIncomplete) <==> step is Incomplete,
        counted == Some(Refused::TakeoverRefused) <==> step is Serve && served != Some(true),
        step is Wait ==> counted is None,
{
}

} // verus!
