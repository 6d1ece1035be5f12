//! The deployment planner.

use slates_server::deploy::{
    host_id_of_certificate, plan, serve_port, DeployError, FleetManifest, FleetNodeEntry,
    FleetPlan, Plane, PlannedPeer,
};
use slates_server::ids::{HostId, Quorum};
use slates_server::net::{Ipv4Addr, SocketAddrV4};

fn localhost(port: u16) -> SocketAddrV4 {
    SocketAddrV4::new(Ipv4Addr::new(127, 0, 0, 1), port)
}

fn entry(node: &str, port: u16, certificate: &[u8]) -> FleetNodeEntry {
    FleetNodeEntry {
        node: node.to_owned(),
        address: localhost(port),
        certificate: certificate.to_vec(),
    }
}

fn manifest() -> FleetManifest {
    FleetManifest {
        name: "slates-fleet".to_owned(),
        quorum: Quorum { f: 1 },
        nodes: vec![
            entry("a", 40_000, b"cert-a"),
            entry("b", 41_000, b"cert-b"),
            entry("c", 42_000, b"cert-c"),
        ],
    }
}

/// The manifest index of the node a host is.
fn index_of(manifest: &FleetManifest, host: HostId) -> usize {
    manifest
        .nodes
        .iter()
        .position(|n| host_id_of_certificate(&n.certificate) == host)
        .expect("the host is a manifest node")
}

/// Both planes of one ordered pair agree.
fn assert_pair_agrees(mine: &PlannedPeer, theirs: &PlannedPeer) {
    assert_eq!(mine.address, theirs.probe_bind, "probe: dial == their bind");
    assert_eq!(mine.record_address, theirs.record_bind, "record: dial == their bind");
    assert_eq!(theirs.address, mine.probe_bind, "probe: their dial == my bind");
    assert_eq!(theirs.record_address, mine.record_bind, "record: their dial == my bind");
}

#[test]
fn every_pair_of_plans_agrees_on_its_sockets_and_ids() {
    let manifest = manifest();
    let plans: Vec<FleetPlan> =
        ["a", "b", "c"].iter().map(|node| plan(&manifest, node).expect("a plan")).collect();
    for (i, mine) in plans.iter().enumerate() {
        let my_host = host_id_of_certificate(&manifest.nodes[i].certificate);
        assert_eq!(mine.membership.host, my_host);
        assert_eq!(mine.membership.peers.len(), 2);
        assert!(!mine.membership.peers.contains(&my_host));
        for peer in &mine.transport.peers {
            let j = index_of(&manifest, peer.host);
            assert_ne!(j, i);
            let theirs = plans[j]
                .transport
                .peers
                .iter()
                .find(|p| p.host == my_host)
                .expect("the peer lists this node");
            assert_pair_agrees(peer, theirs);
        }
    }
}

#[test]
fn the_port_layout_is_base_plus_twice_the_index() {
    let manifest = manifest();
    let a = plan(&manifest, "a").expect("a plan");
    let b_host = host_id_of_certificate(b"cert-b");
    let to_b = a.transport.peers.iter().find(|p| p.host == b_host).expect("b");
    assert_eq!(to_b.probe_bind.port, 40_002);
    assert_eq!(to_b.record_bind.port, 40_003);
    assert_eq!(to_b.address.port, 41_000);
    assert_eq!(to_b.record_address.port, 41_001);
    assert_eq!(serve_port(u16::MAX - 1, 1, Plane::Record), None);
}

#[test]
fn a_bad_manifest_is_refused_by_name() {
    let mut duplicate_name = manifest();
    duplicate_name.nodes[2].node = "a".to_owned();
    assert_eq!(
        plan(&duplicate_name, "b").err(),
        Some(DeployError::DuplicateNode { node: "a".to_owned() })
    );
    let mut duplicate_cert = manifest();
    duplicate_cert.nodes[2].certificate = b"cert-a".to_vec();
    assert_eq!(
        plan(&duplicate_cert, "b").err(),
        Some(DeployError::DuplicateCertificate {
            first: "a".to_owned(),
            second: "c".to_owned()
        })
    );
    assert_eq!(
        plan(&manifest(), "d").err(),
        Some(DeployError::UnknownNode { node: "d".to_owned() })
    );
    let mut overflow = manifest();
    overflow.nodes[1].address = localhost(u16::MAX - 2);
    assert_eq!(
        plan(&overflow, "a").err(),
        Some(DeployError::PortBlockOverflows {
            node: "b".to_owned(),
            base: u16::MAX - 2,
            needed: 6
        })
    );
    let mut too_few = manifest();
    too_few.quorum = Quorum { f: 3 };
    assert_eq!(
        plan(&too_few, "a").err(),
        Some(DeployError::QuorumUnreachable { nodes: 3, f: 3 })
    );
    let empty =
        FleetManifest { name: "x".to_owned(), quorum: Quorum { f: 0 }, nodes: Vec::new() };
    assert_eq!(plan(&empty, "a").err(), Some(DeployError::NoNodes));
}

#[test]
fn a_single_node_manifest_is_the_solo_degenerate() {
    let solo = FleetManifest {
        name: "x".to_owned(),
        quorum: Quorum { f: 0 },
        nodes: vec![entry("only", 50_000, b"cert-only")],
    };
    let plan = plan(&solo, "only").expect("a plan");
    assert!(plan.transport.peers.is_empty());
    assert!(plan.membership.peers.is_empty());
    assert_eq!(plan.membership.quorum, Quorum { f: 0 });
}

#[test]
fn a_host_is_the_first_eight_bytes_of_its_certificates_hash() {
    let digest = *blake3::hash(b"cert-a").as_bytes();
    let mut first = [0u8; 8];
    first.copy_from_slice(&digest[..8]);
    assert_eq!(host_id_of_certificate(b"cert-a"), HostId(u64::from_le_bytes(first)));
}

#[test]
fn the_serve_ports_of_a_node_are_distinct() {
    let mut ports: Vec<u16> = Vec::new();
    for index in 0..3 {
        for plane in [Plane::Probe, Plane::Record] {
            ports.push(serve_port(40_000, index, plane).expect("a port"));
        }
    }
    assert_eq!(ports, vec![40_000, 40_001, 40_002, 40_003, 40_004, 40_005]);
    assert_eq!(serve_port(u16::MAX, 0, Plane::Probe), Some(u16::MAX));
    assert_eq!(serve_port(u16::MAX, 0, Plane::Record), None);
}

#[test]
fn every_refusal_names_what_to_fix() {
    assert!(DeployError::UnknownNode { node: "d".to_owned() }.message().contains("d"));
    assert!(DeployError::DuplicateNode { node: "a".to_owned() }.message().contains("a"));
    let twice =
        DeployError::DuplicateCertificate { first: "a".to_owned(), second: "c".to_owned() };
    assert!(twice.message().contains("a") && twice.message().contains("c"));
    let block =
        DeployError::PortBlockOverflows { node: "b".to_owned(), base: 65_533, needed: 6 };
    assert!(block.message().contains("65533") && block.message().contains("6"));
    let few = DeployError::QuorumUnreachable { nodes: 3, f: 3 };
    assert!(few.message().contains("3"));
    assert!(!DeployError::NoNodes.message().is_empty());
}
