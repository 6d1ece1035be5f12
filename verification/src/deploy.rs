//! A fleet deployment from one shared manifest: every node reads the same values and derives its own
//! plan from them: who its peers are, which port each of them is served on, and which member each
//! certificate is. Nothing is registered anywhere; the plans agree because they are one function of
//! the manifest.

use crate::config::FleetMembership;
use crate::digest::{blake3_digest, copy_bytes, hash, id_of_digest, leading_id, same_bytes};
use crate::ids::{DomainId, HostId, Quorum, RegionId};
use crate::net::{Ipv4Addr, SocketAddrV4};
use crate::text::{decimal, push_decimal};
use std::collections::BTreeMap;
use vstd::prelude::*;
use vstd::string::StringExecFns;

verus! {

/// One node of the manifest.
#[derive(Debug)]
pub struct FleetNodeEntry {
    /// The operator's name for the node, unique within the manifest.
    pub node: String,
    /// The address its peers dial, and the base of its port block.
    pub address: SocketAddrV4,
    /// The node's certificate (DER): what its peers pin, and what its member id derives from.
    pub certificate: Vec<u8>,
}

/// The shared manifest: the order of its nodes fixes the port layout.
#[derive(Debug)]
pub struct FleetManifest {
    /// The name every node's certificate carries.
    pub name: String,
    /// The fault tolerance.
    pub quorum: Quorum,
    /// Every node.
    pub nodes: Vec<FleetNodeEntry>,
}

/// A peer as a node's plan knows it.
#[derive(Debug)]
pub struct PlannedPeer {
    /// The peer's member id.
    pub host: HostId,
    /// Where this node dials the peer's probe plane.
    pub address: SocketAddrV4,
    /// Where this node dials the peer's record plane.
    pub record_address: SocketAddrV4,
    /// Where this node serves the peer's probes.
    pub probe_bind: SocketAddrV4,
    /// Where this node serves the peer's records.
    pub record_bind: SocketAddrV4,
    /// The certificate the session pins.
    pub certificate: Vec<u8>,
}

/// What a node presents and whom it dials; its private key is its own.
#[derive(Debug)]
pub struct PlannedTransport {
    /// This node's certificate.
    pub certificate: Vec<u8>,
    /// The fleet's name.
    pub name: String,
    /// Every other node, in manifest order.
    pub peers: Vec<PlannedPeer>,
}

/// A node's deployment plan.
#[derive(Debug)]
pub struct FleetPlan {
    pub membership: FleetMembership,
    pub transport: PlannedTransport,
}

/// Which of a node's two serve sockets per peer.
#[derive(Clone, Copy, Debug, PartialEq, Eq, Structural)]
pub enum Plane {
    /// Probes and their acknowledgements.
    Probe,
    /// Record commits, promotions and content exchanges.
    Record,
}

/// Why a manifest yields no plan.
#[derive(Clone, Debug, PartialEq, Eq)]
pub enum DeployError {
    /// No entry has the name.
    UnknownNode { node: String },
    /// Two entries carry one name.
    DuplicateNode { node: String },
    /// Two entries carry one certificate, so they would be one member.
    DuplicateCertificate { first: String, second: String },
    /// A node's port block runs past the port range.
    PortBlockOverflows { node: String, base: u16, needed: u16 },
    /// Fewer nodes than a commit needs acknowledgements.
    QuorumUnreachable { nodes: usize, f: u32 },
    /// The manifest lists no node.
    NoNodes,
}

/// A refusal's contents.
pub enum DeployFault {
    UnknownNode { node: Seq<char> },
    DuplicateNode { node: Seq<char> },
    DuplicateCertificate { first: Seq<char>, second: Seq<char> },
    PortBlockOverflows { node: Seq<char>, base: u16, needed: u16 },
    QuorumUnreachable { nodes: usize, f: u32 },
    NoNodes,
}

impl View for DeployError {
    type V = DeployFault;

    open spec fn view(&self) -> DeployFault {
        match self {
            DeployError::UnknownNode { node } => DeployFault::UnknownNode { node: node@ },
            DeployError::DuplicateNode { node } => DeployFault::DuplicateNode { node: node@ },
            DeployError::DuplicateCertificate { first, second } => {
                DeployFault::DuplicateCertificate { first: first@, second: second@ }
            },
            DeployError::PortBlockOverflows { node, base, needed } => {
                DeployFault::PortBlockOverflows { node: node@, base: *base, needed: *needed }
            },
            DeployError::QuorumUnreachable { nodes, f } => {
                DeployFault::QuorumUnreachable { nodes: *nodes, f: *f }
            },
            DeployError::NoNodes => DeployFault::NoNodes,
        }
    }
}

impl DeployFault {
    /// The refusal in an operator's words.
    pub open spec fn text(self) -> Seq<char> {
        match self {
            DeployFault::UnknownNode { node } => "the manifest has no node named `"@ + node
                + "`"@,
            DeployFault::DuplicateNode { node } => "the manifest names `"@ + node + "` twice"@,
            DeployFault::DuplicateCertificate { first, second } => "nodes `"@ + first + "` and `"@
                + second + "` carry the same certificate; they would be one member"@,
            DeployFault::PortBlockOverflows { node, base, needed } => "node `"@ + node
                + "` needs "@ + decimal(needed as nat) + " ports from its base "@ + decimal(
                base as nat,
            ) + ", past the end of the port range"@,
            DeployFault::QuorumUnreachable { nodes, f } => decimal(nodes as nat)
                + " node(s) can never reach f + 1 = "@ + decimal(
                crate::arith::clamp_u32(f + 1) as nat,
            ) + " acknowledgements at f = "@ + decimal(f as nat),
            DeployFault::NoNodes => "the manifest lists no nodes"@,
        }
    }
}

impl DeployError {
    /// The refusal in an operator's words.
    pub fn message(&self) -> (message: String)
        ensures
            message@ == self@.text(),
    {
        let mut message = String::new();
        match self {
            DeployError::UnknownNode { node } => {
                message.append("the manifest has no node named `");
                message.append(node.as_str());
                message.append("`");
            },
            DeployError::DuplicateNode { node } => {
                message.append("the manifest names `");
                message.append(node.as_str());
                message.append("` twice");
            },
            DeployError::DuplicateCertificate { first, second } => {
                message.append("nodes `");
                message.append(first.as_str());
                message.append("` and `");
                message.append(second.as_str());
                message.append("` carry the same certificate; they would be one member");
            },
            DeployError::PortBlockOverflows { node, base, needed } => {
                message.append("node `");
                message.append(node.as_str());
                message.append("` needs ");
                push_decimal(&mut message, *needed as u64);
                message.append(" ports from its base ");
                push_decimal(&mut message, *base as u64);
                message.append(", past the end of the port range");
            },
            DeployError::QuorumUnreachable { nodes, f } => {
                push_decimal(&mut message, *nodes as u64);
                message.append(" node(s) can never reach f + 1 = ");
                push_decimal(&mut message, f.saturating_add(1) as u64);
                message.append(" acknowledgements at f = ");
                push_decimal(&mut message, *f as u64);
            },
            DeployError::NoNodes => {
                message.append("the manifest lists no nodes");
            },
        }
        assert(message@ =~= self@.text());
        message
    }
}

/// The ports a node serves each manifest entry on: one per plane.
pub const PORTS_PER_ENTRY: u16 = 2;

/// The last port there is.
pub const LAST_PORT: u16 = 65_535;

/// The member id a certificate stands for.
pub open spec fn certificate_id(certificate: Seq<u8>) -> HostId {
    HostId(leading_id(blake3_digest(certificate)) as u64)
}

/// The member id a certificate stands for: the first eight bytes of its BLAKE3 digest,
/// little-endian. Every node derives every member's id from the certificate it pins, so the ids
/// agree fleet-wide without a registry.
pub fn host_id_of_certificate(certificate: &[u8]) -> (host: HostId)
    ensures
        host == certificate_id(certificate@),
{
    HostId(id_of_digest(&hash(certificate)))
}

/// A plane's place in an entry's pair of ports.
pub open spec fn plane_offset(plane: Plane) -> int {
    match plane {
        Plane::Probe => 0,
        Plane::Record => 1,
    }
}

/// The port number a block at `base` assigns to an entry's plane.
pub open spec fn block_port(base: u16, index: int, plane: Plane) -> int {
    base + PORTS_PER_ENTRY * index + plane_offset(plane)
}

/// The port a peer is served on, if there is one.
pub open spec fn served_on(base: u16, peer_index: usize, plane: Plane) -> Option<u16> {
    if block_port(base, peer_index as int, plane) <= LAST_PORT {
        Some(block_port(base, peer_index as int, plane) as u16)
    } else {
        None
    }
}

/// The port a node with port block base `base` serves manifest entry `peer_index` on, unless the
/// block runs past the port range there.
pub fn serve_port(base: u16, peer_index: usize, plane: Plane) -> (port: Option<u16>)
    ensures
        port == served_on(base, peer_index, plane),
{
    if peer_index > LAST_PORT as usize {
        return None;
    }
    let offset: u16 = match (peer_index as u16).checked_mul(PORTS_PER_ENTRY) {
        Some(offset) => offset,
        None => {
            return None;
        },
    };
    let first: u16 = match base.checked_add(offset) {
        Some(first) => first,
        None => {
            return None;
        },
    };
    let plane_offset: u16 = match plane {
        Plane::Probe => 0,
        Plane::Record => 1,
    };
    first.checked_add(plane_offset)
}

/// The ports a block of `entries` nodes needs, if a `u16` counts them.
pub open spec fn block_ports(entries: int) -> Option<u16> {
    if entries * PORTS_PER_ENTRY <= LAST_PORT {
        Some((entries * PORTS_PER_ENTRY) as u16)
    } else {
        None
    }
}

/// The ports a manifest of `entries` nodes needs per node.
fn block_len(entries: usize) -> (ports: Option<u16>)
    ensures
        ports == block_ports(entries as int),
{
    if entries > LAST_PORT as usize {
        return None;
    }
    (entries as u16).checked_mul(PORTS_PER_ENTRY)
}

/// Whether a node's whole block exists: its last port, `base + 2N - 1`, does.
pub open spec fn block_fits(entries: int, base: u16) -> bool {
    block_ports(entries) matches Some(ports) && base + ports - 1 <= LAST_PORT
}

/// What is wrong between an entry and an earlier one, if anything.
pub open spec fn pair_fault(earlier: FleetNodeEntry, entry: FleetNodeEntry) -> Option<DeployFault> {
    if earlier.node@ == entry.node@ {
        Some(DeployFault::DuplicateNode { node: entry.node@ })
    } else if earlier.certificate@ == entry.certificate@ {
        Some(DeployFault::DuplicateCertificate { first: earlier.node@, second: entry.node@ })
    } else {
        None
    }
}

/// The first clash of an entry with the first `count` entries, if any.
pub open spec fn clash(
    nodes: Seq<FleetNodeEntry>,
    entry: FleetNodeEntry,
    count: nat,
) -> Option<DeployFault>
    decreases count,
{
    if count == 0 {
        None
    } else {
        match clash(nodes, entry, (count - 1) as nat) {
            Some(fault) => Some(fault),
            None => pair_fault(nodes[count - 1], entry),
        }
    }
}

/// What is wrong with the entry at `index`, if anything: a clash with an earlier entry, or a port
/// block that does not fit.
pub open spec fn entry_fault(nodes: Seq<FleetNodeEntry>, index: int) -> Option<DeployFault> {
    match clash(nodes, nodes[index], index as nat) {
        Some(fault) => Some(fault),
        None => if block_fits(nodes.len() as int, nodes[index].address.port) {
            None
        } else {
            Some(
                DeployFault::PortBlockOverflows {
                    node: nodes[index].node@,
                    base: nodes[index].address.port,
                    needed: match block_ports(nodes.len() as int) {
                        Some(ports) => ports,
                        None => LAST_PORT,
                    },
                },
            )
        },
    }
}

/// The first fault among the first `count` entries, if any.
pub open spec fn entries_fault(nodes: Seq<FleetNodeEntry>, count: nat) -> Option<DeployFault>
    decreases count,
{
    if count == 0 {
        None
    } else {
        match entries_fault(nodes, (count - 1) as nat) {
            Some(fault) => Some(fault),
            None => entry_fault(nodes, count - 1),
        }
    }
}

/// Where the first entry of a name stands.
pub open spec fn is_named(nodes: Seq<FleetNodeEntry>, node: Seq<char>, index: int) -> bool {
    &&& 0 <= index < nodes.len()
    &&& nodes[index].node@ == node
    &&& forall|i: int| 0 <= i < index ==> (#[trigger] nodes[i]).node@ != node
}

/// Whether some entry has the name.
pub open spec fn names(nodes: Seq<FleetNodeEntry>, node: Seq<char>) -> bool {
    exists|index: int| is_named(nodes, node, index)
}

impl FleetManifest {
    /// Why the manifest yields `node` no plan, if it yields none.
    pub open spec fn fault(&self, node: Seq<char>) -> Option<DeployFault> {
        if self.nodes@.len() == 0 {
            Some(DeployFault::NoNodes)
        } else if self.nodes@.len() < self.quorum.f + 1 {
            Some(
                DeployFault::QuorumUnreachable {
                    nodes: self.nodes@.len() as usize,
                    f: self.quorum.f,
                },
            )
        } else if entries_fault(self.nodes@, self.nodes@.len()) is Some {
            entries_fault(self.nodes@, self.nodes@.len())
        } else if !names(self.nodes@, node) {
            Some(DeployFault::UnknownNode { node })
        } else {
            None
        }
    }

    /// Where `node` stands.
    pub open spec fn index_of(&self, node: Seq<char>) -> int {
        choose|index: int| is_named(self.nodes@, node, index)
    }
}

/// The first entry of a name is one entry.
proof fn lemma_named_once(nodes: Seq<FleetNodeEntry>, node: Seq<char>, a: int, b: int)
    requires
        is_named(nodes, node, a),
        is_named(nodes, node, b),
    ensures
        a == b,
{
}

/// A fault among the first entries is the fault of all.
proof fn lemma_first_fault(nodes: Seq<FleetNodeEntry>, count: nat, all: nat)
    requires
        count <= all,
        entries_fault(nodes, count) is Some,
    ensures
        entries_fault(nodes, all) == entries_fault(nodes, count),
    decreases all,
{
    if count < all {
        lemma_first_fault(nodes, count, (all - 1) as nat);
    }
}

/// A clash with the first entries is the clash with all.
proof fn lemma_first_clash(
    nodes: Seq<FleetNodeEntry>,
    entry: FleetNodeEntry,
    count: nat,
    all: nat,
)
    requires
        count <= all,
        clash(nodes, entry, count) is Some,
    ensures
        clash(nodes, entry, all) == clash(nodes, entry, count),
    decreases all,
{
    if count < all {
        lemma_first_clash(nodes, entry, count, (all - 1) as nat);
    }
}

/// What is wrong with the entry at `index`, if anything.
fn check_entry(nodes: &Vec<FleetNodeEntry>, index: usize) -> (fault: Option<DeployError>)
    requires
        index < nodes@.len(),
    ensures
        match fault {
            Some(error) => entry_fault(nodes@, index as int) == Some(error@),
            None => entry_fault(nodes@, index as int) is None,
        },
{
    let entry = &nodes[index];
    let mut earlier: usize = 0;
    while earlier < index
        invariant
            earlier <= index < nodes@.len(),
            *entry == nodes@[index as int],
            clash(nodes@, *entry, earlier as nat) is None,
        decreases index - earlier,
    {
        let other = &nodes[earlier];
        if other.node == entry.node {
            let error = DeployError::DuplicateNode { node: entry.node.clone() };
            proof {
                assert(clash(nodes@, *entry, (earlier + 1) as nat) == Some(error@));
                lemma_first_clash(nodes@, *entry, (earlier + 1) as nat, index as nat);
            }
            return Some(error);
        }
        if same_bytes(other.certificate.as_slice(), entry.certificate.as_slice()) {
            let error = DeployError::DuplicateCertificate {
                first: other.node.clone(),
                second: entry.node.clone(),
            };
            proof {
                assert(clash(nodes@, *entry, (earlier + 1) as nat) == Some(error@));
                lemma_first_clash(nodes@, *entry, (earlier + 1) as nat, index as nat);
            }
            return Some(error);
        }
        earlier += 1;
    }
    let block: Option<u16> = block_len(nodes.len());
    let fits = match block {
        Some(ports) => ports >= 1 && entry.address.port <= LAST_PORT - (ports - 1),
        None => false,
    };
    if !fits {
        return Some(
            DeployError::PortBlockOverflows {
                node: entry.node.clone(),
                base: entry.address.port,
                needed: match block {
                    Some(ports) => ports,
                    None => LAST_PORT,
                },
            },
        );
    }
    None
}

/// Checks what must hold for any node's plan: at least one node, a quorum some set of nodes can
/// reach, unique names, unique certificates, and every block inside the port range. Returns where
/// `node` stands.
fn validate(manifest: &FleetManifest, node: &str) -> (index: Result<usize, DeployError>)
    ensures
        match index {
            Ok(index) => {
                &&& manifest.fault(node@) is None
                &&& is_named(manifest.nodes@, node@, index as int)
                &&& index == manifest.index_of(node@)
            },
            Err(error) => manifest.fault(node@) == Some(error@),
        },
{
    if manifest.nodes.len() == 0 {
        return Err(DeployError::NoNodes);
    }
    if (manifest.nodes.len() as u64) < manifest.quorum.f as u64 + 1 {
        return Err(
            DeployError::QuorumUnreachable {
                nodes: manifest.nodes.len(),
                f: manifest.quorum.f,
            },
        );
    }
    let nodes = &manifest.nodes;
    let mut i: usize = 0;
    while i < nodes.len()
        invariant
            i <= nodes@.len(),
            *nodes == manifest.nodes,
            nodes@.len() > 0,
            nodes@.len() >= manifest.quorum.f + 1,
            entries_fault(nodes@, i as nat) is None,
        decreases nodes@.len() - i,
    {
        if let Some(error) = check_entry(nodes, i) {
            proof {
                assert(entries_fault(nodes@, (i + 1) as nat) == Some(error@));
                lemma_first_fault(nodes@, (i + 1) as nat, nodes@.len());
            }
            return Err(error);
        }
        i += 1;
    }
    let wanted = node.to_owned();
    let mut at: usize = 0;
    while at < nodes.len()
        invariant
            at <= nodes@.len(),
            *nodes == manifest.nodes,
            wanted@ == node@,
            nodes@.len() > 0,
            nodes@.len() >= manifest.quorum.f + 1,
            entries_fault(nodes@, nodes@.len()) is None,
            forall|j: int| 0 <= j < at ==> (#[trigger] nodes@[j]).node@ != node@,
        decreases nodes@.len() - at,
    {
        if nodes[at].node == wanted {
            proof {
                assert(is_named(nodes@, node@, at as int));
                lemma_named_once(nodes@, node@, at as int, manifest.index_of(node@));
            }
            return Ok(at);
        }
        at += 1;
    }
    proof {
        assert(!names(nodes@, node@));
    }
    Err(DeployError::UnknownNode { node: wanted })
}

/// The address at which `server` serves the entry at `client` on `plane`.
pub open spec fn serve_socket(server: FleetNodeEntry, client: int, plane: Plane) -> SocketAddrV4 {
    SocketAddrV4 {
        ip: server.address.ip,
        port: block_port(server.address.port, client, plane) as u16,
    }
}

/// The address at which `server` serves the entry at `client` on `plane`.
fn serve_address(server: &FleetNodeEntry, client: usize, plane: Plane) -> (address: Option<
    SocketAddrV4,
>)
    ensures
        address == (if block_port(server.address.port, client as int, plane) <= LAST_PORT {
            Some(serve_socket(*server, client as int, plane))
        } else {
            None
        }),
{
    match serve_port(server.address.port, client, plane) {
        Some(port) => Some(SocketAddrV4::new(server.address.ip, port)),
        None => None,
    }
}

/// A planned peer's contents.
pub struct PlannedPeerFacts {
    pub host: HostId,
    pub address: SocketAddrV4,
    pub record_address: SocketAddrV4,
    pub probe_bind: SocketAddrV4,
    pub record_bind: SocketAddrV4,
    pub certificate: Seq<u8>,
}

impl View for PlannedPeer {
    type V = PlannedPeerFacts;

    open spec fn view(&self) -> PlannedPeerFacts {
        PlannedPeerFacts {
            host: self.host,
            address: self.address,
            record_address: self.record_address,
            probe_bind: self.probe_bind,
            record_bind: self.record_bind,
            certificate: self.certificate@,
        }
    }
}

/// The peer at `index` in the plan of the node at `this`: dialed at the ports the peer's block
/// assigns this node, served at the ports this node's block assigns the peer.
pub open spec fn planned_peer(
    nodes: Seq<FleetNodeEntry>,
    this: int,
    index: int,
) -> PlannedPeerFacts {
    PlannedPeerFacts {
        host: certificate_id(nodes[index].certificate@),
        address: serve_socket(nodes[index], this, Plane::Probe),
        record_address: serve_socket(nodes[index], this, Plane::Record),
        probe_bind: serve_socket(nodes[this], index, Plane::Probe),
        record_bind: serve_socket(nodes[this], index, Plane::Record),
        certificate: nodes[index].certificate@,
    }
}

/// Which entry the peer at `place` in the plan of the node at `this` is: this node is passed over.
pub open spec fn peer_index(this: int, place: int) -> int {
    if place < this {
        place
    } else {
        place + 1
    }
}

impl FleetPlan {
    /// Whether this is the plan of the node at `this` under `manifest`.
    pub open spec fn plans(&self, manifest: FleetManifest, this: int) -> bool {
        let nodes = manifest.nodes@;
        &&& self.membership.quorum == manifest.quorum
        &&& self.membership.host == certificate_id(nodes[this].certificate@)
        &&& self.membership.origin_anchor == self.membership.host
        &&& self.membership.domains@ == Map::<u64, DomainId>::empty()
        &&& self.membership.regions@ == Map::<u64, RegionId>::empty()
        &&& self.membership.region_mirrors@ == Map::<u64, RegionId>::empty()
        &&& self.transport.certificate@ == nodes[this].certificate@
        &&& self.transport.name@ == manifest.name@
        &&& self.transport.peers@.len() == nodes.len() - 1
        &&& self.membership.peers@.len() == nodes.len() - 1
        &&& forall|place: int|
            0 <= place < nodes.len() - 1 ==> (#[trigger] self.transport.peers@[place])@
                == planned_peer(nodes, this, peer_index(this, place))
        &&& forall|place: int|
            0 <= place < nodes.len() - 1 ==> #[trigger] self.membership.peers@[place]
                == certificate_id(nodes[peer_index(this, place)].certificate@)
    }
}

/// Every port a fitting block assigns exists.
proof fn lemma_block_ports_exist(entries: int, base: u16, index: int, plane: Plane)
    requires
        block_fits(entries, base),
        0 <= index < entries,
    ensures
        block_port(base, index, plane) <= LAST_PORT,
{
}

/// No fault among the first entries: each of them is free of one.
proof fn lemma_no_fault(nodes: Seq<FleetNodeEntry>, count: nat, index: int)
    requires
        entries_fault(nodes, count) is None,
        0 <= index < count,
    ensures
        entry_fault(nodes, index) is None,
    decreases count,
{
    if index < count - 1 {
        lemma_no_fault(nodes, (count - 1) as nat, index);
    }
}

/// This node's plan from the shared manifest: every peer's dial addresses are the peer's serve
/// ports for this node, and this node's binds are its own block's ports for each peer.
pub fn plan(manifest: &FleetManifest, node: &str) -> (plan: Result<FleetPlan, DeployError>)
    ensures
        match plan {
            Ok(plan) => manifest.fault(node@) is None && plan.plans(
                *manifest,
                manifest.index_of(node@),
            ),
            Err(error) => manifest.fault(node@) == Some(error@),
        },
{
    let this: usize = match validate(manifest, node) {
        Ok(this) => this,
        Err(error) => {
            return Err(error);
        },
    };
    let nodes = &manifest.nodes;
    let entry = &nodes[this];
    let mut peers: Vec<PlannedPeer> = Vec::new();
    let mut peer_hosts: Vec<HostId> = Vec::new();
    let mut index: usize = 0;
    while index < nodes.len()
        invariant
            index <= nodes@.len(),
            this < nodes@.len(),
            *nodes == manifest.nodes,
            *entry == nodes@[this as int],
            entries_fault(nodes@, nodes@.len()) is None,
            peers@.len() == (if index <= this {
                index as int
            } else {
                index - 1
            }),
            peer_hosts@.len() == peers@.len(),
            forall|place: int|
                0 <= place < peers@.len() ==> (#[trigger] peers@[place])@ == planned_peer(
                    nodes@,
                    this as int,
                    peer_index(this as int, place),
                ),
            forall|place: int|
                0 <= place < peers@.len() ==> #[trigger] peer_hosts@[place] == certificate_id(
                    nodes@[peer_index(this as int, place)].certificate@,
                ),
        decreases nodes@.len() - index,
    {
        if index != this {
            let peer = &nodes[index];
            proof {
                lemma_no_fault(nodes@, nodes@.len(), index as int);
                lemma_no_fault(nodes@, nodes@.len(), this as int);
                lemma_block_ports_exist(
                    nodes@.len() as int,
                    peer.address.port,
                    this as int,
                    Plane::Probe,
                );
                lemma_block_ports_exist(
                    nodes@.len() as int,
                    entry.address.port,
                    index as int,
                    Plane::Probe,
                );
            }
            let dial = (
                serve_address(peer, this, Plane::Probe),
                serve_address(peer, this, Plane::Record),
            );
            let bind = (
                serve_address(entry, index, Plane::Probe),
                serve_address(entry, index, Plane::Record),
            );
            if let (Some(address), Some(record_address)) = dial {
                if let (Some(probe_bind), Some(record_bind)) = bind {
                    let host = host_id_of_certificate(peer.certificate.as_slice());
                    peer_hosts.push(host);
                    peers.push(
                        PlannedPeer {
                            host,
                            address,
                            record_address,
                            probe_bind,
                            record_bind,
                            certificate: copy_bytes(peer.certificate.as_slice()),
                        },
                    );
                    assert(peers@.last()@ == planned_peer(nodes@, this as int, index as int));
                }
            }
        }
        index += 1;
    }
    let host = host_id_of_certificate(entry.certificate.as_slice());
    Ok(
        FleetPlan {
            membership: FleetMembership {
                quorum: manifest.quorum,
                peers: peer_hosts,
                host,
                origin_anchor: host,
                domains: BTreeMap::new(),
                regions: BTreeMap::new(),
                region_mirrors: BTreeMap::new(),
            },
            transport: PlannedTransport {
                certificate: copy_bytes(entry.certificate.as_slice()),
                name: manifest.name.clone(),
                peers,
            },
        },
    )
}

/// The two sides of every session agree, on both planes: where one node dials another is where the
/// other serves it, and each knows the other by the id its certificate stands for.
pub proof fn every_pair_of_plans_agrees(nodes: Seq<FleetNodeEntry>, a: int, b: int)
    requires
        0 <= a < nodes.len(),
        0 <= b < nodes.len(),
        a != b,
    ensures
        planned_peer(nodes, a, b).address == planned_peer(nodes, b, a).probe_bind,
        planned_peer(nodes, a, b).record_address == planned_peer(nodes, b, a).record_bind,
        planned_peer(nodes, b, a).address == planned_peer(nodes, a, b).probe_bind,
        planned_peer(nodes, b, a).record_address == planned_peer(nodes, a, b).record_bind,
        planned_peer(nodes, a, b).host == certificate_id(nodes[b].certificate@),
        planned_peer(nodes, b, a).host == certificate_id(nodes[a].certificate@),
{
}

/// A plan lists every other node exactly once, and never the node itself.
pub proof fn a_plan_lists_every_other_node_once(nodes: int, this: int, index: int)
    requires
        0 <= this < nodes,
        0 <= index < nodes,
    ensures
        forall|place: int| 0 <= place < nodes - 1 ==> #[trigger] peer_index(this, place) != this,
        index != this ==> exists|place: int|
            0 <= place < nodes - 1 && #[trigger] peer_index(this, place) == index,
        forall|first: int, second: int|
            first != second ==> #[trigger] peer_index(this, first) != #[trigger] peer_index(
                this,
                second,
            ),
{
    if index < this {
        assert(peer_index(this, index) == index);
    } else if index > this {
        assert(peer_index(this, index - 1) == index);
    }
}

/// A node serves no two entries, and no two planes of one, on the same port, and every one of its
/// serve ports exists.
pub proof fn serve_ports_are_distinct(
    manifest: FleetManifest,
    node: Seq<char>,
    server: int,
    first: int,
    first_plane: Plane,
    second: int,
    second_plane: Plane,
)
    requires
        manifest.fault(node) is None,
        0 <= server < manifest.nodes@.len(),
        0 <= first < manifest.nodes@.len(),
        0 <= second < manifest.nodes@.len(),
        first != second || first_plane != second_plane,
    ensures
        serve_socket(manifest.nodes@[server], first, first_plane) != serve_socket(
            manifest.nodes@[server],
            second,
            second_plane,
        ),
        block_port(manifest.nodes@[server].address.port, first, first_plane) <= LAST_PORT,
{
    let nodes = manifest.nodes@;
    lemma_no_fault(nodes, nodes.len(), server);
    lemma_block_ports_exist(nodes.len() as int, nodes[server].address.port, first, first_plane);
    lemma_block_ports_exist(nodes.len() as int, nodes[server].address.port, second, second_plane);
}

/// No two nodes of a manifest that plans share a name or a certificate.
pub proof fn planned_nodes_are_distinct(manifest: FleetManifest, node: Seq<char>, a: int, b: int)
    requires
        manifest.fault(node) is None,
        0 <= a < b < manifest.nodes@.len(),
    ensures
        manifest.nodes@[a].node@ != manifest.nodes@[b].node@,
        manifest.nodes@[a].certificate@ != manifest.nodes@[b].certificate@,
{
    let nodes = manifest.nodes@;
    lemma_no_fault(nodes, nodes.len(), b);
    lemma_no_clash(nodes, nodes[b], b as nat, a);
}

/// No clash with the first entries: none with any of them.
proof fn lemma_no_clash(nodes: Seq<FleetNodeEntry>, entry: FleetNodeEntry, count: nat, index: int)
    requires
        clash(nodes, entry, count) is None,
        0 <= index < count,
    ensures
        pair_fault(nodes[index], entry) is None,
    decreases count,
{
    if index < count - 1 {
        lemma_no_clash(nodes, entry, (count - 1) as nat, index);
    }
}

/// A peer is served on two ports, two for each peer before it from the base: probes on the first and
/// records on the one after.
pub proof fn a_peer_has_two_ports(base: u16, index: usize)
    ensures
        base + 2 * index <= 65_535 ==> served_on(base, index, Plane::Probe) == Some(
            (base + 2 * index) as u16,
        ),
        base + 2 * index > 65_535 ==> served_on(base, index, Plane::Probe) is None,
        base + 2 * index + 1 <= 65_535 ==> served_on(base, index, Plane::Record) == Some(
            (base + 2 * index + 1) as u16,
        ),
        base + 2 * index + 1 > 65_535 ==> served_on(base, index, Plane::Record) is None,
{
}

/// A peer is dialed on its own host at the ports its block keeps for this node, and heard on this
/// node's host at the ports its own block keeps for the peer; it is known by its certificate.
pub proof fn a_peer_is_dialed_at_its_own_block(
    plan: FleetPlan,
    manifest: FleetManifest,
    node: Seq<char>,
    place: int,
)
    requires
        manifest.fault(node) is None,
        plan.plans(manifest, manifest.index_of(node)),
        0 <= place < manifest.nodes@.len() - 1,
    ensures
        ({
            let nodes = manifest.nodes@;
            let this = manifest.index_of(node);
            let index = if place < this {
                place
            } else {
                place + 1
            };
            let peer = plan.transport.peers@[place];
            let entry = nodes[index];
            &&& 0 <= this < nodes.len() && nodes[this].node@ == node
            &&& peer.address.ip == entry.address.ip && peer.record_address.ip == entry.address.ip
            &&& peer.address.port == entry.address.port + 2 * this
            &&& peer.record_address.port == entry.address.port + 2 * this + 1
            &&& peer.probe_bind.ip == nodes[this].address.ip && peer.record_bind.ip
                == nodes[this].address.ip
            &&& peer.probe_bind.port == nodes[this].address.port + 2 * index
            &&& peer.record_bind.port == nodes[this].address.port + 2 * index + 1
            &&& peer.certificate@ == entry.certificate@
            &&& peer.host.0 as nat == leading_id(blake3_digest(entry.certificate@)) as u64
            &&& plan.membership.peers@[place] == peer.host
        }),
        plan.transport.certificate@ == manifest.nodes@[manifest.index_of(node)].certificate@,
        plan.membership.host.0 == leading_id(
            blake3_digest(manifest.nodes@[manifest.index_of(node)].certificate@),
        ) as u64,
        plan.membership.origin_anchor == plan.membership.host,
        plan.membership.quorum == manifest.quorum,
        plan.transport.name@ == manifest.name@,
{
    let nodes = manifest.nodes@;
    let this = manifest.index_of(node);
    let index = if place < this {
        place
    } else {
        place + 1
    };
    assert(names(nodes, node));
    assert(is_named(nodes, node, this));
    let peer = plan.transport.peers@[place];
    assert(peer@ == planned_peer(nodes, this, index));
    lemma_no_fault(nodes, nodes.len(), this);
    lemma_no_fault(nodes, nodes.len(), index);
    lemma_block_ports_exist(nodes.len() as int, nodes[this].address.port, index, Plane::Record);
    lemma_block_ports_exist(nodes.len() as int, nodes[index].address.port, this, Plane::Record);
}

/// A manifest is planned from exactly when it has more nodes than may fail, no two of a name or a
/// certificate, room for every node's ports, and the node asked for.
pub proof fn a_sound_manifest_is_planned(manifest: FleetManifest, node: Seq<char>)
    ensures
        manifest.fault(node) is None <==> {
            let nodes = manifest.nodes@;
            &&& nodes.len() > manifest.quorum.f
            &&& forall|a: int, b: int|
                0 <= a < b < nodes.len() ==> (#[trigger] nodes[a]).node@ != (
                #[trigger] nodes[b]).node@ && nodes[a].certificate@ != nodes[b].certificate@
            &&& forall|a: int|
                0 <= a < nodes.len() ==> (#[trigger] nodes[a]).address.port + 2 * nodes.len() - 1
                    <= 65_535
            &&& 2 * nodes.len() <= 65_535
            &&& exists|a: int| 0 <= a < nodes.len() && (#[trigger] nodes[a]).node@ == node
        },
{
    let nodes = manifest.nodes@;
    let distinct = forall|a: int, b: int|
        0 <= a < b < nodes.len() ==> (#[trigger] nodes[a]).node@ != (#[trigger] nodes[b]).node@
            && nodes[a].certificate@ != nodes[b].certificate@;
    let fits = 2 * nodes.len() <= 65_535 && forall|a: int|
        0 <= a < nodes.len() ==> (#[trigger] nodes[a]).address.port + 2 * nodes.len() - 1 <= 65_535;
    if nodes.len() > 0 {
        if entries_fault(nodes, nodes.len()) is None {
            assert forall|a: int, b: int| 0 <= a < b < nodes.len() implies (
            #[trigger] nodes[a]).node@ != (#[trigger] nodes[b]).node@ && nodes[a].certificate@
                != nodes[b].certificate@ by {
                lemma_no_fault(nodes, nodes.len(), b);
                lemma_no_clash(nodes, nodes[b], b as nat, a);
            }
            assert forall|a: int| 0 <= a < nodes.len() implies (#[trigger] nodes[a]).address.port + 2
                * nodes.len() - 1 <= 65_535 by {
                lemma_no_fault(nodes, nodes.len(), a);
            }
            lemma_no_fault(nodes, nodes.len(), 0);
        }
        if distinct && fits {
            lemma_sound_entries(nodes, nodes.len());
        }
    }
    lemma_named_at_all(nodes, node, nodes.len() as int);
    if names(nodes, node) {
        let at = choose|at: int| is_named(nodes, node, at);
        assert(nodes[at].node@ == node);
    }
}

/// Entries that differ and fit have no fault.
proof fn lemma_sound_entries(nodes: Seq<FleetNodeEntry>, count: nat)
    requires
        count <= nodes.len(),
        forall|a: int, b: int|
            0 <= a < b < nodes.len() ==> (#[trigger] nodes[a]).node@ != (#[trigger] nodes[b]).node@
                && nodes[a].certificate@ != nodes[b].certificate@,
        2 * nodes.len() <= 65_535,
        forall|a: int|
            0 <= a < nodes.len() ==> (#[trigger] nodes[a]).address.port + 2 * nodes.len() - 1
                <= 65_535,
    ensures
        entries_fault(nodes, count) is None,
    decreases count,
{
    if count > 0 {
        lemma_sound_entries(nodes, (count - 1) as nat);
        lemma_no_clash_of_distinct(nodes, count - 1, (count - 1) as nat);
    }
}

/// An entry that differs from each before it clashes with none of them.
proof fn lemma_no_clash_of_distinct(nodes: Seq<FleetNodeEntry>, index: int, count: nat)
    requires
        0 <= count <= index < nodes.len(),
        forall|a: int, b: int|
            0 <= a < b < nodes.len() ==> (#[trigger] nodes[a]).node@ != (#[trigger] nodes[b]).node@
                && nodes[a].certificate@ != nodes[b].certificate@,
    ensures
        clash(nodes, nodes[index], count) is None,
    decreases count,
{
    if count > 0 {
        lemma_no_clash_of_distinct(nodes, index, (count - 1) as nat);
        assert(nodes[count - 1].node@ != nodes[index].node@);
    }
}

/// A name among the first entries has a first entry.
proof fn lemma_named_at_all(nodes: Seq<FleetNodeEntry>, node: Seq<char>, count: int)
    requires
        0 <= count <= nodes.len(),
    ensures
        (exists|a: int| 0 <= a < count && (#[trigger] nodes[a]).node@ == node) ==> names(
            nodes,
            node,
        ),
    decreases count,
{
    if exists|a: int| 0 <= a < count && (#[trigger] nodes[a]).node@ == node {
        let a = choose|a: int| 0 <= a < count && (#[trigger] nodes[a]).node@ == node;
        if exists|i: int| 0 <= i < a && (#[trigger] nodes[i]).node@ == node {
            lemma_named_at_all(nodes, node, a);
        } else {
            assert(is_named(nodes, node, a));
        }
    }
}

/// A refused manifest is refused for what is wrong with it: a name that two nodes have, a certificate
/// that two share, a node whose ports run out, too few nodes, or a node that is not there.
pub proof fn a_refused_manifest_says_what_is_wrong(manifest: FleetManifest, node: Seq<char>)
    ensures
        manifest.nodes@.len() == 0 <==> manifest.fault(node) == Some(DeployFault::NoNodes),
        0 < manifest.nodes@.len() <= manifest.quorum.f ==> (manifest.fault(node) matches Some(
            DeployFault::QuorumUnreachable { nodes, f },
        ) && f == manifest.quorum.f),
        manifest.fault(node) matches Some(DeployFault::QuorumUnreachable { nodes, f }) ==> 0
            < manifest.nodes@.len() <= manifest.quorum.f,
        manifest.fault(node) matches Some(DeployFault::UnknownNode { node: asked }) ==> asked == node
            && forall|a: int|
            0 <= a < manifest.nodes@.len() ==> (#[trigger] manifest.nodes@[a]).node@ != node,
        manifest.fault(node) matches Some(DeployFault::DuplicateNode { node: twice }) ==> exists|
            a: int,
            b: int,
        |
            0 <= a < b < manifest.nodes@.len() && (#[trigger] manifest.nodes@[a]).node@ == twice && (
            #[trigger] manifest.nodes@[b]).node@ == twice,
        manifest.fault(node) matches Some(DeployFault::DuplicateCertificate { first, second })
            ==> exists|a: int, b: int|
            0 <= a < b < manifest.nodes@.len() && (#[trigger] manifest.nodes@[a]).node@ == first && (
            #[trigger] manifest.nodes@[b]).node@ == second && manifest.nodes@[a].certificate@
                == manifest.nodes@[b].certificate@,
        manifest.fault(node) matches Some(DeployFault::PortBlockOverflows { node: over, base, needed })
            ==> exists|a: int|
            0 <= a < manifest.nodes@.len() && (#[trigger] manifest.nodes@[a]).node@ == over
                && manifest.nodes@[a].address.port == base && (needed == 65_535 || needed == 2
                * manifest.nodes@.len()) && (base + 2 * manifest.nodes@.len() - 1 > 65_535 || 2
                * manifest.nodes@.len() > 65_535),
{
    let nodes = manifest.nodes@;
    lemma_entries_fault(nodes, nodes.len());
    lemma_named_at_all(nodes, node, nodes.len() as int);
}

/// A fault among the entries is that of a pair of them or of one.
proof fn lemma_entries_fault(nodes: Seq<FleetNodeEntry>, count: nat)
    requires
        count <= nodes.len(),
    ensures
        entries_fault(nodes, count) is None || entries_fault(nodes, count)->0 is DuplicateNode
            || entries_fault(nodes, count)->0 is DuplicateCertificate || entries_fault(
            nodes,
            count,
        )->0 is PortBlockOverflows,
        entries_fault(nodes, count) matches Some(DeployFault::DuplicateNode { node: twice })
            ==> exists|a: int, b: int|
            0 <= a < b < nodes.len() && (#[trigger] nodes[a]).node@ == twice && (
            #[trigger] nodes[b]).node@ == twice,
        entries_fault(nodes, count) matches Some(DeployFault::DuplicateCertificate { first, second })
            ==> exists|a: int, b: int|
            0 <= a < b < nodes.len() && (#[trigger] nodes[a]).node@ == first && (
            #[trigger] nodes[b]).node@ == second && nodes[a].certificate@ == nodes[b].certificate@,
        entries_fault(nodes, count) matches Some(
            DeployFault::PortBlockOverflows { node: over, base, needed },
        ) ==> exists|a: int|
            0 <= a < nodes.len() && (#[trigger] nodes[a]).node@ == over && nodes[a].address.port
                == base && (needed == 65_535 || needed == 2 * nodes.len()) && (base + 2
                * nodes.len() - 1 > 65_535 || 2 * nodes.len() > 65_535),
    decreases count,
{
    if count > 0 {
        lemma_entries_fault(nodes, (count - 1) as nat);
        if entries_fault(nodes, (count - 1) as nat) is None {
            let index = count - 1;
            lemma_clash(nodes, index, index as nat);
            if clash(nodes, nodes[index], index as nat) is None && !block_fits(
                nodes.len() as int,
                nodes[index].address.port,
            ) {
                assert(nodes[index].address.port + 2 * nodes.len() - 1 > 65_535 || 2 * nodes.len()
                    > 65_535);
            }
        }
    }
}

/// A clash of an entry is with one before it.
proof fn lemma_clash(nodes: Seq<FleetNodeEntry>, index: int, count: nat)
    requires
        0 <= count <= index < nodes.len(),
    ensures
        clash(nodes, nodes[index], count) matches Some(fault) ==> exists|a: int|
            0 <= a < index && pair_fault(#[trigger] nodes[a], nodes[index]) == Some(fault),
    decreases count,
{
    if count > 0 {
        lemma_clash(nodes, index, (count - 1) as nat);
        if clash(nodes, nodes[index], (count - 1) as nat) is None {
            assert(pair_fault(nodes[count - 1], nodes[index]) == clash(nodes, nodes[index], count));
        }
    }
}

} // verus!
