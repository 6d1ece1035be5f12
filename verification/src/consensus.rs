//! First-time bootstrap and fresh-member admission. A node never recovers a voter by recreating its
//! empty state: each start has a fresh identity, and a joining member imports the group's common
//! base and prefix once, then advances through its log. Only an explicit request creates a group,
//! and every exchange is bound to its group's immutable identity.

use crate::config::{DaemonConfig, FleetMembership, ScatterInputs};
use crate::consensus_recovery::RecoveryState;
use crate::digest::{blake3_digest, hash, push_bytes, same_bytes};
use crate::ids::{contains_host, lists, DomainId, HostId, Quorum, RegionId};
use std::collections::BTreeMap;
use vstd::prelude::*;
use vstd::std_specs::btree::*;

verus! {

broadcast use group_btree_axioms;

/// A consensus group's immutable identity.
#[derive(Clone, Copy, Debug, PartialEq, Eq, Hash)]
pub struct GroupId(pub [u8; 32]);

impl View for GroupId {
    type V = Seq<u8>;

    open spec fn view(&self) -> Seq<u8> {
        self.0@
    }
}

impl GroupId {
    /// Whether two identities are one.
    pub fn is(&self, other: &GroupId) -> (same: bool)
        ensures
            same == (self@ == other@),
    {
        same_bytes(self.0.as_slice(), other.0.as_slice())
    }
}

/// The contents of an identity that may be absent.
pub open spec fn group_facts(group: Option<GroupId>) -> Option<Seq<u8>> {
    match group {
        Some(group) => Some(group@),
        None => None,
    }
}

/// One consensus group as this node holds it.
#[derive(Debug)]
pub struct GroupState {
    /// Whether this node has the group's state.
    pub initialized: bool,
    /// The group's identity.
    pub group: Option<GroupId>,
    /// The applied configuration's version.
    pub version: u64,
    /// Whether this node votes in the group.
    pub voter: bool,
}

/// What a node's consensus decisions read and change.
#[derive(Debug)]
pub struct ConsensusState {
    /// This boot's member id.
    pub host: HostId,
    /// The member id this node's boots start from.
    pub seed: HostId,
    /// The regional council.
    pub council: GroupState,
    /// The root group across regions.
    pub root: GroupState,
    /// The regions the root configuration holds.
    pub root_regions: Vec<RegionId>,
    /// The members the council's configuration holds.
    pub members: Vec<HostId>,
    /// Each member's region.
    pub node_regions: BTreeMap<u64, RegionId>,
    /// The operator's pending recovery.
    pub recovery: RecoveryState,
    /// The creation this boot has authorized, and whether it made the root group.
    pub bootstrap_authorized: Option<bool>,
    /// Whether this node may serve under its consensus groups.
    pub consensus_ready: bool,
}

/// Why a consensus request is refused.
#[derive(Clone, Copy, Debug, PartialEq, Eq, Structural)]
pub enum ConsensusRefusal {
    /// The request names another boot of this node.
    BootstrapStale,
    /// The group exists.
    AlreadyInitialized,
    /// The root group does not exist, or has not admitted this region.
    NotInitialized,
    /// The retained state cannot be recovered from.
    RecoveryUnavailable,
    /// The approval is not for the state as it is now.
    RecoveryStale,
    /// The approval's proof does not verify.
    GrantIssuerUnverified,
}

/// The region of a member: the sole region when none is known.
pub open spec fn region_of(regions: Map<u64, RegionId>, host: HostId) -> RegionId {
    if regions.contains_key(host.0) {
        regions[host.0]
    } else {
        RegionId(0)
    }
}

/// The region of a member: the sole region when none is known.
pub fn region_in(regions: &BTreeMap<u64, RegionId>, host: HostId) -> (region: RegionId)
    ensures
        region == region_of(regions@, host),
{
    match regions.get(&host.0) {
        Some(region) => *region,
        None => RegionId(0),
    }
}

/// Whether `regions` lists `region`.
pub fn contains_region(regions: &Vec<RegionId>, region: RegionId) -> (found: bool)
    ensures
        found == regions@.contains(region),
{
    let mut i: usize = 0;
    while i < regions.len()
        invariant
            i <= regions@.len(),
            forall|j: int| 0 <= j < i ==> regions@[j] != region,
        decreases regions@.len() - i,
    {
        if regions[i] == region {
            assert(regions@[i as int] == region);
            return true;
        }
        i += 1;
    }
    false
}

/// What a request to create a group comes to.
#[derive(Clone, Copy, Debug, PartialEq, Eq, Structural)]
pub enum Bootstrap {
    Refused(ConsensusRefusal),
    /// This boot already created what is asked for.
    Acknowledged,
    /// Create the region's single-voter council, and the root group when it is asked for.
    Create { region: RegionId, root: bool },
}

/// What a node's new council is created over.
#[derive(Clone, Copy, Debug, PartialEq, Eq, Structural)]
pub struct Founding {
    pub quorum: Quorum,
    /// This node's declared failure domain.
    pub domain: Option<DomainId>,
    pub scatter: ScatterInputs,
}

/// Whether `founding` is what a region's first group is made with.
pub open spec fn founds(
    fleet: Option<FleetMembership>,
    seed: HostId,
    config: DaemonConfig,
    recovery_budget_ns: u64,
    founding: Founding,
) -> bool {
    &&& founding.quorum == (match fleet {
        Some(fleet) => fleet.quorum,
        None => Quorum { f: 0 },
    })
    &&& founding.domain == (match fleet {
        Some(fleet) => if fleet.domains@.contains_key(seed.0) {
            Some(fleet.domains@[seed.0])
        } else {
            None
        },
        None => None,
    })
    &&& founding.scatter == (ScatterInputs {
        data_bytes: crate::arith::clamp_u64(
            config.reserve_per_shard * crate::config::shard_count(config.runtime),
        ),
        bytes_per_second: config.rereplication_bytes_per_second,
        recovery_budget_ns,
        f: founding.quorum.f as u64,
    })
}

/// What a node's new council is created over: its fleet's quorum and its own declared domain, or,
/// with no fleet, a quorum of itself alone.
pub fn founding(
    fleet: Option<&FleetMembership>,
    seed: HostId,
    config: &DaemonConfig,
    recovery_budget_ns: u64,
) -> (founding: Founding)
    ensures
        founds(
            match fleet {
                Some(fleet) => Some(*fleet),
                None => None,
            },
            seed,
            *config,
            recovery_budget_ns,
            founding,
        ),
{
    let (quorum, domain) = match fleet {
        Some(fleet) => {
            let domain = match fleet.domains.get(&seed.0) {
                Some(domain) => Some(*domain),
                None => None,
            };
            (fleet.quorum, domain)
        },
        None => (Quorum { f: 0 }, None),
    };
    Founding { quorum, domain, scatter: config.derived_scatter(quorum, recovery_budget_ns) }
}

/// The bytes a group's identity is the digest of: which group it is, its first voters and its first
/// configuration, encoded.
pub open spec fn genesis_input(root: bool, raft_base: Seq<u8>, base: Seq<u8>) -> Seq<u8> {
    genesis_label() + seq![
        (if root {
            1u8
        } else {
            0u8
        }),
    ] + raft_base + base
}

/// The bytes of `slates/consensus-genesis/v1`.
pub open spec fn genesis_label() -> Seq<u8> {
    seq![
        115u8, 108, 97, 116, 101, 115, 47, 99, 111, 110, 115, 101, 110, 115, 117, 115, 45, 103,
        101, 110, 101, 115, 105, 115, 47, 118, 49,
    ]
}

/// A group's identity: the digest of its label, its kind, and its initial definition. It stays as
/// the log changes the voters.
pub fn genesis(root: bool, raft_base: &[u8], base: &[u8]) -> (group: GroupId)
    ensures
        group@ == blake3_digest(genesis_input(root, raft_base@, base@)),
{
    let label: [u8; 27] = [
        115, 108, 97, 116, 101, 115, 47, 99, 111, 110, 115, 101, 110, 115, 117, 115, 45, 103, 101,
        110, 101, 115, 105, 115, 47, 118, 49,
    ];
    let mut input: Vec<u8> = Vec::new();
    push_bytes(&mut input, label.as_slice());
    input.push(
        if root {
            1
        } else {
            0
        },
    );
    push_bytes(&mut input, raft_base);
    push_bytes(&mut input, base);
    assert(label@ =~= genesis_label());
    assert(input@ =~= genesis_input(root, raft_base@, base@));
    GroupId(hash(input.as_slice()))
}

/// The definition of a group just created, encoded.
#[derive(Debug)]
pub struct Definition {
    pub raft_base: Vec<u8>,
    pub base: Vec<u8>,
}

/// A group just created: its definition, if it has one to hand out, and its configuration's version.
#[derive(Debug)]
pub struct Created {
    pub definition: Option<Definition>,
    pub version: u64,
}

/// The identity of a definition that may be absent, beside the identity held before.
pub open spec fn identity_after(
    root: bool,
    created: Option<Definition>,
    before: Option<GroupId>,
) -> Option<Seq<u8>> {
    match created {
        Some(created) => Some(
            blake3_digest(genesis_input(root, created.raft_base@, created.base@)),
        ),
        None => group_facts(before),
    }
}

impl ConsensusState {
    /// The group asked about.
    pub open spec fn group_state(&self, root: bool) -> GroupState {
        if root {
            self.root
        } else {
            self.council
        }
    }

    /// The identity of the group asked about.
    pub fn group_id(&self, root: bool) -> (group: Option<GroupId>)
        ensures
            group == self.group_state(root).group,
    {
        if root {
            self.root.group
        } else {
            self.council.group
        }
    }

    /// What a request to create a group comes to, in the order it is judged.
    pub open spec fn bootstrap_decision(&self, root: bool, member: u64) -> Bootstrap {
        let region = region_of(self.node_regions@, self.host);
        if self.host.0 != member {
            Bootstrap::Refused(ConsensusRefusal::BootstrapStale)
        } else if self.bootstrap_authorized == Some(root) {
            Bootstrap::Acknowledged
        } else if self.council.initialized || (root && self.root.initialized) {
            Bootstrap::Refused(ConsensusRefusal::AlreadyInitialized)
        } else if !root && (!self.root.initialized || !self.root_regions@.contains(region)) {
            Bootstrap::Refused(ConsensusRefusal::NotInitialized)
        } else {
            Bootstrap::Create { region, root }
        }
    }

    /// Judges a request to create a region's first group. `root` additionally creates the fleet's
    /// root group; any other region needs an existing root that has admitted it.
    pub fn bootstrap(&self, root: bool, member: u64) -> (decision: Bootstrap)
        ensures
            decision == self.bootstrap_decision(root, member),
    {
        if self.host.0 != member {
            return Bootstrap::Refused(ConsensusRefusal::BootstrapStale);
        }
        if let Some(authorized) = self.bootstrap_authorized {
            if authorized == root {
                return Bootstrap::Acknowledged;
            }
        }
        if self.council.initialized || (root && self.root.initialized) {
            return Bootstrap::Refused(ConsensusRefusal::AlreadyInitialized);
        }
        let region = region_in(&self.node_regions, self.host);
        if !root && (!self.root.initialized || !contains_region(&self.root_regions, region)) {
            return Bootstrap::Refused(ConsensusRefusal::NotInitialized);
        }
        Bootstrap::Create { region, root }
    }

    /// Whether `after` is this node once it created its groups.
    pub open spec fn creates(&self, council: Created, created_root: Option<Created>, after: ConsensusState) -> bool {
        &&& group_facts(after.council.group) == identity_after(
            false,
            council.definition,
            self.council.group,
        )
        &&& group_facts(after.root.group) == (match created_root {
            Some(created) => identity_after(true, created.definition, self.root.group),
            None => group_facts(self.root.group),
        })
        &&& after.members@ == seq![self.host]
        &&& after.root_regions@ == (if created_root is Some {
            seq![region_of(self.node_regions@, self.host)]
        } else {
            self.root_regions@
        })
        &&& after == (ConsensusState {
            council: GroupState {
                initialized: true,
                group: after.council.group,
                version: council.version,
                voter: true,
            },
            root: GroupState {
                initialized: self.root.initialized || created_root is Some,
                group: after.root.group,
                version: match created_root {
                    Some(created) => created.version,
                    None => self.root.version,
                },
                voter: self.root.voter || created_root is Some,
            },
            members: after.members,
            root_regions: after.root_regions,
            consensus_ready: self.root.initialized || created_root is Some,
            bootstrap_authorized: Some(created_root is Some),
            ..*self
        })
    }

    /// Records the groups just created, the council and, if it was asked for, the root group: each
    /// has the identity of its definition and this node as its only voter; the council holds this
    /// node alone, and the root its region. The node is ready once the root group exists, and this
    /// boot's authorization is remembered, so that a repeated request is acknowledged.
    pub fn bootstrapped(&mut self, council: Created, created_root: Option<Created>)
        ensures
            old(self).creates(council, created_root, *final(self)),
    {
        self.council.initialized = true;
        self.council.voter = true;
        self.council.version = council.version;
        if let Some(created) = &council.definition {
            self.council.group = Some(
                genesis(false, created.raft_base.as_slice(), created.base.as_slice()),
            );
        }
        self.members = vec![self.host];
        assert(self.members@ =~= seq![self.host]);
        self.bootstrap_authorized = Some(created_root.is_some());
        if let Some(root) = created_root {
            self.root.initialized = true;
            self.root.voter = true;
            self.root.version = root.version;
            if let Some(created) = &root.definition {
                self.root.group = Some(
                    genesis(true, created.raft_base.as_slice(), created.base.as_slice()),
                );
            }
            let region = region_in(&self.node_regions, self.host);
            self.root_regions = vec![region];
            assert(self.root_regions@ =~= seq![region]);
        }
        self.consensus_ready = self.root.initialized;
    }
}

/// A repeated request is acknowledged, and the other group's creation is then refused: after a
/// creation this boot answers every further request without creating anything.
pub proof fn a_bootstrap_creates_once(before: ConsensusState, after: ConsensusState, root: bool)
    requires
        before.bootstrap_decision(root, before.host.0) is Create,
        after.host == before.host,
        after.bootstrap_authorized == Some(root),
        after.council.initialized,
    ensures
        after.bootstrap_decision(root, after.host.0) == Bootstrap::Acknowledged,
        after.bootstrap_decision(!root, after.host.0) == Bootstrap::Refused(
            ConsensusRefusal::AlreadyInitialized,
        ),
{
}

/// A member's request for a group's state: a fresh member names no group and needs its base and
/// prefix; an initialized learner names its group and version.
#[derive(Clone, Copy, Debug)]
pub struct Fetch {
    pub group: Option<GroupId>,
    pub version: u64,
}

/// What a fetch is answered with.
#[derive(Clone, Copy, Debug)]
pub struct FetchAnswer {
    pub group: GroupId,
    /// Whether the base and prefix travel with the configuration.
    pub join: bool,
}

impl ConsensusState {
    /// Whether a fetch is answered: never while a recovery of the group is pending, never for a
    /// foreign group, never by a node without the group's state, and a learner only with something
    /// newer than it has.
    pub open spec fn answers_fetch(
        &self,
        root: bool,
        request: Fetch,
        join_available: bool,
    ) -> bool {
        let state = self.group_state(root);
        &&& self.recovery.target_facts(root) is None
        &&& state.group is Some
        &&& state.initialized
        &&& match request.group {
            Some(group) => group@ == state.group->0@ && request.version < state.version,
            None => join_available,
        }
    }

    /// Whether `answer` is what a fetch is answered with, if it is.
    pub open spec fn serves_fetch(
        &self,
        root: bool,
        request: Option<Fetch>,
        join_available: bool,
        answer: Option<FetchAnswer>,
    ) -> bool {
        match answer {
            Some(answer) => {
                &&& request matches Some(request)
                &&& self.answers_fetch(root, request, join_available)
                &&& answer.group@ == self.group_state(root).group->0@
                &&& answer.join == request.group is None
            },
            None => request matches Some(request) ==> !self.answers_fetch(
                root,
                request,
                join_available,
            ),
        }
    }

    /// What a fetch is answered with, if it is answered. `request` is what the message decodes to,
    /// and `join_available` whether the group has a base and prefix to hand out.
    pub fn serve_fetch(&self, root: bool, request: Option<Fetch>, join_available: bool) -> (answer:
        Option<FetchAnswer>)
        ensures
            self.serves_fetch(root, request, join_available, answer),
    {
        if self.recovery.target(root).is_some() {
            return None;
        }
        let request = match request {
            Some(request) => request,
            None => {
                return None;
            },
        };
        let group = match self.group_id(root) {
            Some(group) => group,
            None => {
                return None;
            },
        };
        let (initialized, version) = if root {
            (self.root.initialized, self.root.version)
        } else {
            (self.council.initialized, self.council.version)
        };
        if !initialized {
            return None;
        }
        match request.group {
            Some(requested) => {
                if !requested.is(&group) || request.version >= version {
                    return None;
                }
                Some(FetchAnswer { group, join: false })
            },
            None => {
                if !join_available {
                    return None;
                }
                Some(FetchAnswer { group, join: true })
            },
        }
    }
}

/// A fetched base and prefix: who gave it, the group's definition, and whether its configuration
/// decodes.
#[derive(Debug)]
pub struct FetchedJoin {
    pub donor: HostId,
    pub definition: Definition,
    pub base_decodes: bool,
}

/// A fetch's reply: the group it is of, the base and prefix when they travel with it, and the
/// version of the configuration it carries when that decodes.
#[derive(Debug)]
pub struct Fetched {
    pub group: GroupId,
    pub join: Option<FetchedJoin>,
    pub version: Option<u64>,
}

/// What a group's configuration holds: the council's its members, the root's its regions.
#[derive(Debug)]
pub enum Holds {
    Members(Vec<HostId>),
    Regions(Vec<RegionId>),
}

/// What a node does with a fetch's reply.
#[derive(Clone, Copy, Debug, PartialEq, Eq, Structural)]
pub enum Adopt {
    /// Nothing: the reply is refused.
    Refuse,
    /// Join the group from its base and prefix, then take the configuration.
    Join,
    /// Take the configuration, unless this node votes.
    Configuration,
}

impl ConsensusState {
    /// Whether `peer` is in this node's region.
    pub open spec fn shares_region(&self, peer: HostId) -> bool {
        region_of(self.node_regions@, self.host) == region_of(self.node_regions@, peer)
    }

    /// The regional council serves only its declared region; root traffic spans all regions.
    pub fn same_region(&self, peer: HostId) -> (same: bool)
        ensures
            same == self.shares_region(peer),
    {
        region_in(&self.node_regions, self.host) == region_in(&self.node_regions, peer)
    }

    /// Whether a reply is of the group this node may take: the pending recovery's target, or, with
    /// none pending, its own group if it has one.
    pub open spec fn expects_group(&self, root: bool, group: Seq<u8>) -> bool {
        match self.recovery.target_facts(root) {
            Some(target) => target.group == group,
            None => match self.group_state(root).group {
                Some(own) => own@ == group,
                None => true,
            },
        }
    }

    /// What a node does with a fetch's reply, whose base defines the group it comes from.
    pub open spec fn adoption(&self, root: bool, peer: HostId, reply: Fetched) -> Adopt {
        self.adoption_as(
            root,
            peer,
            reply,
            match reply.join {
                Some(join) => blake3_digest(
                    genesis_input(root, join.definition.raft_base@, join.definition.base@),
                ),
                None => reply.group@,
            },
        )
    }

    /// What a node does with a fetch's reply whose base defines the group `defined`.
    pub open spec fn adoption_as(
        &self,
        root: bool,
        peer: HostId,
        reply: Fetched,
        defined: Seq<u8>,
    ) -> Adopt {
        let pending = self.recovery.target_facts(root);
        if !root && !self.shares_region(peer) {
            Adopt::Refuse
        } else if !self.expects_group(root, reply.group@) {
            Adopt::Refuse
        } else if reply.join is Some && defined != reply.group@ {
            Adopt::Refuse
        } else if reply.version is None {
            Adopt::Refuse
        } else if pending is Some && reply.version->0 < (pending->0).floor {
            Adopt::Refuse
        } else if pending is Some || !self.group_state(root).initialized {
            match reply.join {
                Some(join) => if join.donor == peer && join.base_decodes {
                    Adopt::Join
                } else {
                    Adopt::Refuse
                },
                None => Adopt::Refuse,
            }
        } else {
            Adopt::Configuration
        }
    }

    /// Judges a fetch's reply from an authenticated `peer`; `None` is a reply that does not decode.
    pub fn adopt_fetch(&self, root: bool, peer: HostId, reply: &Option<Fetched>) -> (step: Adopt)
        ensures
            step == (match *reply {
                Some(reply) => self.adoption(root, peer, reply),
                None => Adopt::Refuse,
            }),
    {
        let reply = match reply {
            Some(reply) => reply,
            None => {
                return Adopt::Refuse;
            },
        };
        let defined = match &reply.join {
            Some(join) => genesis(
                root,
                join.definition.raft_base.as_slice(),
                join.definition.base.as_slice(),
            ),
            None => reply.group,
        };
        self.adopt_defined(root, peer, reply, &defined)
    }

    /// Judges a fetch's reply whose base, if it has one, defines the group `defined`.
    pub fn adopt_defined(
        &self,
        root: bool,
        peer: HostId,
        reply: &Fetched,
        defined: &GroupId,
    ) -> (step: Adopt)
        ensures
            step == self.adoption_as(root, peer, *reply, defined@),
    {
        if !root && !self.same_region(peer) {
            return Adopt::Refuse;
        }
        let pending = self.recovery.target(root);
        let expected = match &pending {
            Some(target) => target.group.is(&reply.group),
            None => match self.group_id(root) {
                Some(own) => own.is(&reply.group),
                None => true,
            },
        };
        if !expected {
            return Adopt::Refuse;
        }
        if reply.join.is_some() && !defined.is(&reply.group) {
            return Adopt::Refuse;
        }
        let version: u64 = match reply.version {
            Some(version) => version,
            None => {
                return Adopt::Refuse;
            },
        };
        if let Some(target) = &pending {
            if version < target.floor {
                return Adopt::Refuse;
            }
        }
        let initialized = if root {
            self.root.initialized
        } else {
            self.council.initialized
        };
        if pending.is_some() || !initialized {
            return match &reply.join {
                Some(join) => if join.donor == peer && join.base_decodes {
                    Adopt::Join
                } else {
                    Adopt::Refuse
                },
                None => Adopt::Refuse,
            };
        }
        Adopt::Configuration
    }

    /// Whether `take` and `after` are what joining a group makes of this.
    pub open spec fn joins(
        &self,
        root: bool,
        group: GroupId,
        version: u64,
        voter: bool,
        take: bool,
        after: ConsensusState,
    ) -> bool {
        &&& take == !voter
        &&& after.group_state(root) == (GroupState {
            initialized: true,
            group: Some(group),
            version,
            voter,
        })
        &&& after.group_state(!root) == self.group_state(!root)
        &&& after.recovery.target_facts(root) is None
        &&& after.recovery.target_facts(!root) == self.recovery.target_facts(!root)
        &&& after.recovery.receipt(true) == self.recovery.receipt(true)
        &&& after.recovery.receipt(false) == self.recovery.receipt(false)
        &&& after == (ConsensusState {
            council: after.council,
            root: after.root,
            recovery: after.recovery,
            ..*self
        })
    }

    /// Records a join: the group's state is the donor's, its identity the reply's, its version the
    /// one joined at, and the recovery that waited for it is over. The reply's configuration is then
    /// taken unless this node votes: `true` when it is to be taken.
    pub fn joined(&mut self, root: bool, group: GroupId, version: u64, voter: bool) -> (take: bool)
        ensures
            old(self).joins(root, group, version, voter, take, *final(self)),
    {
        let joined = GroupState { initialized: true, group: Some(group), version, voter };
        if root {
            self.root = joined;
        } else {
            self.council = joined;
        }
        self.recovery.clear_target(root);
        !voter
    }

    /// Whether `taken` and `after` are what an applied configuration makes of this.
    pub open spec fn configures(&self, version: u64, holds: Holds, taken: bool, after: ConsensusState) -> bool {
        &&& taken == (version >= self.group_state(holds is Regions).version)
        &&& if taken {
            after == (match holds {
                Holds::Members(members) => ConsensusState {
                    council: GroupState { version, ..self.council },
                    members,
                    ..*self
                },
                Holds::Regions(regions) => ConsensusState {
                    root: GroupState { version, ..self.root },
                    root_regions: regions,
                    ..*self
                },
            })
        } else {
            after == *self
        }
    }

    /// Takes up the configuration a group applied, joined or committed: its version, and what it
    /// holds. A version behind the group's own is not taken: `true` when it was.
    pub fn configured(&mut self, version: u64, holds: Holds) -> (taken: bool)
        ensures
            old(self).configures(version, holds, taken, *final(self)),
    {
        match holds {
            Holds::Members(members) => {
                if version < self.council.version {
                    return false;
                }
                self.council.version = version;
                self.members = members;
            },
            Holds::Regions(regions) => {
                if version < self.root.version {
                    return false;
                }
                self.root.version = version;
                self.root_regions = regions;
            },
        }
        true
    }
}

/// A joined group answers from its donor's version on: a learner behind it is answered, and one level
/// with it is not.
pub proof fn a_joined_group_answers_from_its_version(
    after: ConsensusState,
    root: bool,
    group: GroupId,
    version: u64,
    voter: bool,
    request: Fetch,
)
    requires
        after.group_state(root) == (GroupState {
            initialized: true,
            group: Some(group),
            version,
            voter,
        }),
        after.recovery.target_facts(root) is None,
        request.group matches Some(asked) && asked@ == group@,
    ensures
        after.answers_fetch(root, request, false) == (request.version < version),
{
}

/// Once initialized, a delayed initial fetch cannot replace this node's consensus state: with no
/// recovery pending, no reply is ever joined from.
pub proof fn an_initialized_member_never_rejoins(
    state: ConsensusState,
    root: bool,
    peer: HostId,
    reply: Fetched,
)
    requires
        state.group_state(root).initialized,
        state.recovery.target_facts(root) is None,
    ensures
        state.adoption(root, peer, reply) != Adopt::Join,
{
}

/// An independent group supplies no state: a reply of another group than the node's own, or than
/// the one its recovery names, is refused, and so is a base that is not the group's definition.
pub proof fn a_foreign_group_supplies_no_state(
    state: ConsensusState,
    root: bool,
    peer: HostId,
    reply: Fetched,
)
    requires
        state.adoption(root, peer, reply) != Adopt::Refuse,
    ensures
        match state.recovery.target_facts(root) {
            Some(target) => reply.group@ == target.group && reply.version->0 >= target.floor,
            None => state.group_state(root).group matches Some(own) ==> reply.group@ == own@,
        },
        reply.join matches Some(join) ==> reply.group@ == blake3_digest(
            genesis_input(root, join.definition.raft_base@, join.definition.base@),
        ),
{
}

/// A consensus message bound to its group.
#[derive(Debug)]
pub struct Envelope {
    pub group: GroupId,
    pub message: Vec<u8>,
}

/// Why a consensus message is not read.
#[derive(Clone, Copy, Debug, PartialEq, Eq, Structural)]
pub enum EnvelopeError {
    /// The message is of another group, or a recovery of the group is pending.
    ForeignGroup,
    /// This node has no such group.
    Uninitialized,
    /// The message is no envelope.
    MalformedEnvelope,
}

impl ConsensusState {
    /// Whether `envelope` is what a message travels in, if it does.
    pub open spec fn wraps(&self, root: bool, message: Vec<u8>, envelope: Option<Envelope>) -> bool {
        match envelope {
            Some(envelope) => {
                &&& self.group_state(root).group == Some(envelope.group)
                &&& envelope.message == message
            },
            None => self.group_state(root).group is None,
        }
    }

    /// Binds a message to the group, if this node has the group.
    pub fn encode_message(&self, root: bool, message: Vec<u8>) -> (envelope: Option<Envelope>)
        ensures
            self.wraps(root, message, envelope),
    {
        match self.group_id(root) {
            Some(group) => Some(Envelope { group, message }),
            None => None,
        }
    }

    /// Why a consensus message is not read, if it is not.
    pub open spec fn message_refusal(&self, root: bool, envelope: Option<Envelope>) -> Option<
        EnvelopeError,
    > {
        if self.recovery.target_facts(root) is Some {
            Some(EnvelopeError::ForeignGroup)
        } else if self.group_state(root).group is None {
            Some(EnvelopeError::Uninitialized)
        } else {
            match envelope {
                None => Some(EnvelopeError::MalformedEnvelope),
                Some(envelope) => if envelope.group@ != self.group_state(root).group->0@ {
                    Some(EnvelopeError::ForeignGroup)
                } else {
                    None
                },
            }
        }
    }

    /// Whether `message` is what a received envelope comes to.
    pub open spec fn unwraps(&self, root: bool, envelope: Option<Envelope>, message: Result<Vec<u8>, EnvelopeError>) -> bool {
        match message {
            Ok(message) => {
                &&& self.message_refusal(root, envelope) is None
                &&& envelope is Some
                &&& (envelope->0).message == message
            },
            Err(error) => self.message_refusal(root, envelope) == Some(error),
        }
    }

    /// The message of an envelope of this node's group; `None` is bytes that are no envelope.
    pub fn decode_message(&self, root: bool, envelope: Option<Envelope>) -> (message: Result<
        Vec<u8>,
        EnvelopeError,
    >)
        ensures
            self.unwraps(root, envelope, message),
    {
        if self.recovery.target(root).is_some() {
            return Err(EnvelopeError::ForeignGroup);
        }
        let group = match self.group_id(root) {
            Some(group) => group,
            None => {
                return Err(EnvelopeError::Uninitialized);
            },
        };
        match envelope {
            None => Err(EnvelopeError::MalformedEnvelope),
            Some(envelope) => {
                if !envelope.group.is(&group) {
                    return Err(EnvelopeError::ForeignGroup);
                }
                Ok(envelope.message)
            },
        }
    }
}

/// A message a group's member binds is read by every member of the group, and by no member of
/// another.
pub proof fn messages_stay_in_their_group(
    sender: ConsensusState,
    receiver: ConsensusState,
    root: bool,
    envelope: Envelope,
)
    requires
        sender.group_state(root).group == Some(envelope.group),
        receiver.group_state(root).group is Some,
        receiver.recovery.target_facts(root) is None,
    ensures
        receiver.message_refusal(root, Some(envelope)) == (if (receiver.group_state(root).group->0)@
            == (sender.group_state(root).group->0)@ {
            None
        } else {
            Some(EnvelopeError::ForeignGroup)
        }),
{
}

/// A committed configuration handed to another shard: its placement's version and its readiness.
#[derive(Clone, Copy, Debug, PartialEq, Eq, Structural)]
pub struct Publication {
    pub version: u64,
    pub ready: bool,
}

impl Publication {
    /// What a shard publishes.
    pub fn capture(version: u64, ready: bool) -> (publication: Publication)
        ensures
            publication == (Publication { version, ready }),
    {
        Publication { version, ready }
    }

    /// Whether `install` and `after` are what a published configuration makes of a shard.
    pub open spec fn applies(&self, installed: u64, before: bool, install: bool, after: bool) -> bool {
        &&& install == (self.version >= installed)
        &&& after == (if install {
            self.ready
        } else {
            before
        })
    }

    /// Whether a shard at `installed` takes the placement: one not older than its own. The root
    /// configuration is offered to it either way. The shard's readiness follows a placement taken.
    pub fn apply(&self, installed: u64, consensus_ready: &mut bool) -> (install: bool)
        ensures
            self.applies(installed, *old(consensus_ready), install, *final(consensus_ready)),
    {
        if self.version >= installed {
            *consensus_ready = self.ready;
            true
        } else {
            false
        }
    }
}

/// Whether a node holds authority: both groups hold state, and the council's configuration holds
/// this node.
pub open spec fn holds_authority(state: ConsensusState) -> bool {
    &&& state.council.initialized
    &&& state.root.initialized
    &&& lists(state.members@, state.host)
}

/// Whether a node is ready to serve: it holds authority, and no recovery is pending.
pub open spec fn serves(state: ConsensusState) -> bool {
    !state.recovery.is_joining() && holds_authority(state)
}

impl ConsensusState {
    /// Brings the readiness into step with what the groups hold.
    pub fn refresh_readiness(&mut self)
        ensures
            *final(self) == (ConsensusState { consensus_ready: serves(*old(self)), ..*old(self) }),
    {
        self.consensus_ready = !self.recovery.joining() && self.council.initialized
            && self.root.initialized && contains_host(&self.members, self.host);
    }
}

/// A region's first group tolerates what the fleet is declared to, in the seed's declared failure
/// domain, and spreads all the shards' memory: a node without a fleet tolerates nothing.
pub proof fn a_founding_follows_the_fleet(
    fleet: Option<FleetMembership>,
    seed: HostId,
    config: DaemonConfig,
    recovery_budget_ns: u64,
    founding: Founding,
)
    requires
        founds(fleet, seed, config, recovery_budget_ns, founding),
    ensures
        match fleet {
            None => founding.quorum.f == 0 && founding.domain is None,
            Some(fleet) => {
                &&& founding.quorum == fleet.quorum
                &&& founding.domain is Some <==> fleet.domains@.contains_key(seed.0)
                &&& founding.domain matches Some(domain) ==> domain == fleet.domains@[seed.0]
            },
        },
        founding.scatter.f == founding.quorum.f,
        founding.scatter.bytes_per_second == config.rereplication_bytes_per_second,
        founding.scatter.recovery_budget_ns == recovery_budget_ns,
        config.runtime.shards >= 1 && config.reserve_per_shard * config.runtime.shards <= u64::MAX
            ==> founding.scatter.data_bytes == config.reserve_per_shard * config.runtime.shards,
{
    assert(config.reserve_per_shard * config.runtime.shards >= 0) by (nonlinear_arith);
}

/// A group is created on this node's own word, once, and where nothing stands yet: the root group
/// where neither exists, another region's council where the root has admitted the region.
pub proof fn a_group_is_created_where_none_stands(state: ConsensusState, root: bool, member: u64)
    ensures
        ({
            let decision = state.bootstrap_decision(root, member);
            let region = region_of(state.node_regions@, state.host);
            &&& decision is Create <==> member == state.host.0 && state.bootstrap_authorized != Some(
                root,
            ) && !state.council.initialized && (if root {
                !state.root.initialized
            } else {
                state.root.initialized && state.root_regions@.contains(region)
            })
            &&& decision matches Bootstrap::Create { region: of, root: with } ==> of == region
                && with == root
            &&& member != state.host.0 ==> decision == Bootstrap::Refused(
                ConsensusRefusal::BootstrapStale,
            )
            &&& decision is Acknowledged <==> member == state.host.0 && state.bootstrap_authorized
                == Some(root)
            &&& decision == Bootstrap::Refused(ConsensusRefusal::NotInitialized) ==> !root && !(
            state.root.initialized && state.root_regions@.contains(region))
        }),
{
}

/// Creating its groups, a node holds and votes in them alone, serves at once, and its groups are the
/// ones their definitions identify.
pub proof fn a_founder_serves_alone(
    before: ConsensusState,
    council: Created,
    created_root: Option<Created>,
    after: ConsensusState,
)
    requires
        before.creates(council, created_root, after),
    ensures
        after.council.initialized && after.council.voter,
        after.council.version == council.version,
        council.definition matches Some(definition) ==> after.council.group is Some && (
        after.council.group->0)@ == blake3_digest(
            genesis_input(false, definition.raft_base@, definition.base@),
        ),
        created_root matches Some(created) ==> {
            &&& after.root.initialized && after.root.voter
            &&& after.root.version == created.version
            &&& created.definition matches Some(definition) ==> after.root.group is Some && (
            after.root.group->0)@ == blake3_digest(
                genesis_input(true, definition.raft_base@, definition.base@),
            )
            &&& after.root_regions@ == seq![region_of(before.node_regions@, before.host)]
        },
        created_root is None ==> {
            &&& after.root.initialized == before.root.initialized
            &&& after.root.version == before.root.version
            &&& after.root.voter == before.root.voter
            &&& group_facts(after.root.group) == group_facts(before.root.group)
            &&& after.root_regions@ == before.root_regions@
        },
        after.members@ == seq![before.host],
        after.consensus_ready <==> before.root.initialized || created_root is Some,
        after.bootstrap_authorized == Some(created_root is Some),
        after.host == before.host && after.node_regions == before.node_regions && after.recovery
            == before.recovery,
{
}

/// A fetch is answered by a node that has the group and no recovery pending: a learner of that very
/// group that is behind, with the configuration; a fresh node, with the base and the prefix, if they
/// can be had. Anyone else is not answered.
pub proof fn a_fetch_is_answered_to_those_behind(
    state: ConsensusState,
    root: bool,
    request: Option<Fetch>,
    join_available: bool,
    answer: Option<FetchAnswer>,
)
    requires
        state.serves_fetch(root, request, join_available, answer),
    ensures
        ({
            let own = if root {
                state.root
            } else {
                state.council
            };
            let pending = if root {
                state.recovery.root
            } else {
                state.recovery.council
            };
            let standing = pending is None && own.initialized && own.group is Some;
            &&& answer is Some <==> standing && (match request {
                Some(asked) => match asked.group {
                    Some(group) => group@ == (own.group->0)@ && asked.version < own.version,
                    None => join_available,
                },
                None => false,
            })
            &&& answer matches Some(answer) ==> answer.group@ == (own.group->0)@ && (answer.join
                <==> (request->0).group is None)
        }),
{
}

/// A reply is adopted from a node of the group's reach and for the group this node expects, no older
/// than it waits for; a node that holds nothing, or waits for a recovery, joins from the donor itself
/// and from a definition that is that group's; one that holds its group takes the configuration.
pub proof fn a_reply_is_adopted_for_the_expected_group(
    state: ConsensusState,
    root: bool,
    peer: HostId,
    reply: Fetched,
    defined: Seq<u8>,
)
    ensures
        ({
            let own = if root {
                state.root
            } else {
                state.council
            };
            let pending = if root {
                state.recovery.root
            } else {
                state.recovery.council
            };
            let step = state.adoption_as(root, peer, reply, defined);
            let near = root || region_of(state.node_regions@, state.host) == region_of(
                state.node_regions@,
                peer,
            );
            let expected = match pending {
                Some(target) => target.group@ == reply.group@,
                None => own.group is None || (own.group->0)@ == reply.group@,
            };
            let usable = near && expected && (reply.join is Some ==> defined == reply.group@)
                && reply.version is Some && (pending matches Some(target) ==> (reply.version->0)
                >= target.floor);
            let joining = pending is Some || !own.initialized;
            &&& step == Adopt::Join <==> usable && joining && (reply.join matches Some(join)
                && join.donor == peer && join.base_decodes)
            &&& step == Adopt::Configuration <==> usable && !joining
        }),
{
}

/// A node that joined holds its new group at the version it joined from, waits for nothing more of
/// it, and takes the configuration too unless it votes; the other group is as it was.
pub proof fn a_joined_node_holds_its_group(
    before: ConsensusState,
    root: bool,
    group: GroupId,
    version: u64,
    voter: bool,
    take: bool,
    after: ConsensusState,
)
    requires
        before.joins(root, group, version, voter, take, after),
    ensures
        ({
            let (own, other) = if root {
                (after.root, after.council)
            } else {
                (after.council, after.root)
            };
            let kept = if root {
                before.council
            } else {
                before.root
            };
            &&& own.initialized
            &&& own.group == Some(group)
            &&& own.version == version
            &&& own.voter == voter
            &&& other == kept
            &&& take == !voter
            &&& after.members == before.members
            &&& after.root_regions == before.root_regions
            &&& after.host == before.host
            &&& after.seed == before.seed
            &&& after.node_regions == before.node_regions
            &&& after.bootstrap_authorized == before.bootstrap_authorized
            &&& after.consensus_ready == before.consensus_ready
        }),
        root ==> after.recovery.root is None,
        !root ==> after.recovery.council is None,
        root ==> (after.recovery.council is Some <==> before.recovery.council is Some),
        !root ==> (after.recovery.root is Some <==> before.recovery.root is Some),
        after.recovery.root_receipt == before.recovery.root_receipt,
        after.recovery.council_receipt == before.recovery.council_receipt,
{
}

/// A configuration moves its own group forward and never back: the members are the council's and the
/// regions the root's.
pub proof fn a_configuration_never_goes_back(
    before: ConsensusState,
    version: u64,
    holds: Holds,
    taken: bool,
    after: ConsensusState,
)
    requires
        before.configures(version, holds, taken, after),
    ensures
        after.council.version >= before.council.version,
        after.root.version >= before.root.version,
        !taken ==> after == before,
        match holds {
            Holds::Members(members) => {
                &&& taken <==> version >= before.council.version
                &&& taken ==> after.members == members && after.council.version == version
                &&& after.root == before.root && after.root_regions == before.root_regions
            },
            Holds::Regions(regions) => {
                &&& taken <==> version >= before.root.version
                &&& taken ==> after.root_regions == regions && after.root.version == version
                &&& after.council == before.council && after.members == before.members
            },
        },
{
}

/// A message arrives as it was sent, between two nodes of one group and neither of which waits for a
/// recovery: what one wraps the other unwraps.
pub proof fn a_message_arrives_as_it_was_sent(
    sender: ConsensusState,
    receiver: ConsensusState,
    root: bool,
    message: Vec<u8>,
    envelope: Option<Envelope>,
    received: Result<Vec<u8>, EnvelopeError>,
)
    requires
        sender.wraps(root, message, envelope),
        receiver.unwraps(root, envelope, received),
    ensures
        ({
            let from = if root {
                sender.root
            } else {
                sender.council
            };
            let own = if root {
                receiver.root
            } else {
                receiver.council
            };
            let pending = if root {
                receiver.recovery.root
            } else {
                receiver.recovery.council
            };
            &&& envelope is Some <==> from.group is Some
            &&& received is Ok <==> pending is None && own.group is Some && from.group is Some && (
            from.group->0)@ == (own.group->0)@
            &&& received matches Ok(got) ==> got == message
            &&& received == Err::<Vec<u8>, EnvelopeError>(EnvelopeError::Uninitialized) <==> pending
                is None && own.group is None
            &&& received == Err::<Vec<u8>, EnvelopeError>(EnvelopeError::MalformedEnvelope)
                <==> pending is None && own.group is Some && from.group is None
        }),
{
}

/// A published configuration reaches a shard that has none newer, with its readiness; an older one
/// changes nothing.
pub proof fn a_publication_reaches_a_shard_behind_it(
    publication: Publication,
    installed: u64,
    before: bool,
    install: bool,
    after: bool,
)
    requires
        publication.applies(installed, before, install, after),
    ensures
        install <==> installed <= publication.version,
        install ==> after == publication.ready,
        !install ==> after == before,
{
}

/// A node serves as an initialized member of both its groups, with no join pending.
pub proof fn serving_needs_both_groups(state: ConsensusState)
    ensures
        serves(state) <==> state.recovery.council is None && state.recovery.root is None
            && state.council.initialized && state.root.initialized && state.members@.contains(
            state.host,
        ),
        holds_authority(state) <==> state.council.initialized && state.root.initialized
            && state.members@.contains(state.host),
{
}

/// A node with no region on record is of the first, and any other of the one on record.
pub proof fn an_unknown_node_is_of_the_first_region(regions: Map<u64, RegionId>, host: HostId)
    ensures
        !regions.contains_key(host.0) ==> region_of(regions, host) == RegionId(0),
        regions.contains_key(host.0) ==> region_of(regions, host) == regions[host.0],
{
}

/// Two nodes share a region exactly when they are on record in the same one.
pub proof fn a_region_is_shared_by_its_nodes(state: ConsensusState, peer: HostId)
    ensures
        peer == state.host ==> state.shares_region(peer),
        state.node_regions@.contains_key(state.host.0) && state.node_regions@.contains_key(peer.0) ==> (
        state.shares_region(peer) <==> state.node_regions@[state.host.0]
            == state.node_regions@[peer.0]),
        state.node_regions@.contains_key(state.host.0) && !state.node_regions@.contains_key(peer.0)
            ==> (state.shares_region(peer) <==> state.node_regions@[state.host.0] == RegionId(0)),
{
}

/// A configuration that is applied changes its group's version and what it holds, and leaves each
/// group's identity and this node's part in it, and everything else, as they were.
pub proof fn a_configuration_changes_no_identity(
    before: ConsensusState,
    version: u64,
    holds: Holds,
    taken: bool,
    after: ConsensusState,
)
    requires
        before.configures(version, holds, taken, after),
    ensures
        after.council.initialized == before.council.initialized && after.council.group
            == before.council.group && after.council.voter == before.council.voter,
        after.root.initialized == before.root.initialized && after.root.group == before.root.group
            && after.root.voter == before.root.voter,
        after.host == before.host && after.seed == before.seed && after.node_regions
            == before.node_regions && after.recovery == before.recovery
            && after.bootstrap_authorized == before.bootstrap_authorized && after.consensus_ready
            == before.consensus_ready,
{
}

/// A group that is created has this node as its one voter and member; a council alone leaves the root
/// group as it was, and the node keeps its identity.
pub proof fn a_created_group_has_one_voter(
    before: ConsensusState,
    council: Created,
    created_root: Option<Created>,
    after: ConsensusState,
)
    requires
        before.creates(council, created_root, after),
    ensures
        after.council.initialized && after.council.voter && after.council.version == council.version,
        after.members@.len() == 1 && after.members@[0] == before.host,
        created_root matches Some(created) ==> after.root.initialized && after.root.voter
            && after.root.version == created.version && after.root_regions@.len() == 1
            && after.root_regions@[0] == region_of(before.node_regions@, before.host)
            && after.consensus_ready && after.bootstrap_authorized == Some(true),
        created_root is None ==> after.root.initialized == before.root.initialized && after.root.voter
            == before.root.voter && after.root.version == before.root.version && after.root_regions@
            == before.root_regions@ && after.consensus_ready == before.root.initialized
            && after.bootstrap_authorized == Some(false),
        after.host == before.host && after.seed == before.seed && after.node_regions
            == before.node_regions && after.recovery == before.recovery,
{
}

/// A group's identity is drawn from a label of its own, which group it is, its voters and its
/// configuration, in that order.
pub proof fn a_genesis_is_labelled(root: bool, raft_base: Seq<u8>, base: Seq<u8>)
    ensures
        genesis_label() == "slates/consensus-genesis/v1"@.map_values(|c: char| c as u8),
        genesis_label().is_prefix_of(genesis_input(root, raft_base, base)),
        genesis_input(root, raft_base, base).len() == genesis_label().len() + 1 + raft_base.len()
            + base.len(),
        genesis_input(root, raft_base, base)[genesis_label().len() as int] == 1 <==> root,
        genesis_input(root, raft_base, base).skip(genesis_label().len() as int + 1) == raft_base
            + base,
{
    reveal_strlit("slates/consensus-genesis/v1");
    assert(genesis_label() =~= "slates/consensus-genesis/v1"@.map_values(|c: char| c as u8));
    let input = genesis_input(root, raft_base, base);
    assert(input.take(genesis_label().len() as int) =~= genesis_label());
    assert(input.skip(genesis_label().len() as int + 1) =~= raft_base + base);
}

} // verus!
