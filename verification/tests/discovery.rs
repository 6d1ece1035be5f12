//! Enrollment: who is authorized, what a roster holds, and what a relayed announcement may change.

use rcgen::{BasicConstraints, Certificate, CertificateParams, IsCa, KeyPair};
use slates_server::deploy::{host_id_of_certificate, Plane};
use slates_server::discovery::{
    judge_unpinned, scope_name, Admitted, Announcement, Cursor, Discovery, Endpoint, Enrollment, FleetScopes,
    LocalNode, NodeAddress, Presented, Received, Refusal, Reply, Request, SeedPeer,
};
use slates_server::ids::{DomainId, HostId, RegionId};
use slates_server::net::{Ipv4Addr, SocketAddrV4};
use std::collections::BTreeMap;

/// The transport's frame in these tests.
const FRAME: usize = 1200;

fn ip(last: u8, port: u16) -> NodeAddress {
    NodeAddress::Ip(SocketAddrV4::new(Ipv4Addr::new(127, 0, 0, last), port))
}

fn endpoint(last: u8, port: u16) -> Endpoint {
    Endpoint { text: format!("127.0.0.{last}:{port}"), address: Some(ip(last, port)) }
}

fn announced(issuer: &Certificate, key: &KeyPair, domain: u64) -> Announcement {
    let node_key = KeyPair::generate().unwrap();
    let cert = CertificateParams::new(vec!["fleet".to_owned(), scope_name("fleet", 0, domain)])
        .unwrap()
        .signed_by(&node_key, issuer, key)
        .unwrap();
    let certificate = cert.der().as_ref().to_vec();
    Announcement {
        anchor: host_id_of_certificate(&certificate),
        certificate,
        probe: endpoint(1, 7000),
        record: endpoint(1, 7001),
        region: 0,
        domain,
    }
}

/// An announcement as it was presented: its encoded length, its seed, and whether its certificate
/// chains to the fleet's issuer.
fn presented(announce: &Announcement, issued: bool) -> Presented {
    Presented {
        announce: announce.copy(),
        encoded_bytes: announce.certificate.len() + 100,
        seed: HostId(announce.anchor.0.wrapping_add(1)),
        issued,
    }
}

fn authority() -> (Certificate, KeyPair) {
    let key = KeyPair::generate().unwrap();
    let mut params = CertificateParams::new(vec!["fleet".to_owned()]).unwrap();
    params.is_ca = IsCa::Ca(BasicConstraints::Unconstrained);
    (params.self_signed(&key).unwrap(), key)
}

fn discovery(issuer: &Certificate, key: &KeyPair) -> Discovery {
    Discovery {
        name: "fleet".to_owned(),
        pins: BTreeMap::new(),
        scopes: BTreeMap::new(),
        local: announced(issuer, key, 0),
        records: BTreeMap::new(),
        capacity: 1,
        generation: 1,
        frame_cap: FRAME,
    }
}

fn enrollment(discovery: Discovery) -> Enrollment {
    Enrollment {
        discovery: Some(discovery),
        enrolled: Vec::new(),
        node_regions: BTreeMap::new(),
        fleet: Some(FleetScopes { domains: BTreeMap::new(), regions: BTreeMap::new() }),
    }
}

#[test]
fn enrollment_refuses_forged_scope_identity_and_issuer() {
    let (issuer, key) = authority();
    let discovery = discovery(&issuer, &key);
    let announce = announced(&issuer, &key, 1);
    assert_eq!(discovery.validate(&presented(&announce, true)), None);
    let mut forged = announce.copy();
    forged.region += 1;
    assert_eq!(discovery.validate(&presented(&forged, true)), Some(Refusal::Scope));
    forged = announce.copy();
    forged.domain += 1;
    assert_eq!(discovery.validate(&presented(&forged, true)), Some(Refusal::Scope));
    forged = announce.copy();
    forged.anchor.0 ^= 1;
    assert_eq!(discovery.validate(&presented(&forged, true)), Some(Refusal::Identity));
    let (other, other_key) = authority();
    assert_eq!(
        discovery.validate(&presented(&announced(&other, &other_key, 1), false)),
        Some(Refusal::Untrusted)
    );
    forged = announce;
    forged.probe = Endpoint { text: "broken".to_owned(), address: None };
    assert_eq!(discovery.validate(&presented(&forged, true)), Some(Refusal::Malformed));
}

#[test]
fn enrollment_bounds_candidates_and_only_direct_contact_updates_addresses() {
    let (issuer, key) = authority();
    let mut discovery = discovery(&issuer, &key);
    let announce = announced(&issuer, &key, 1);
    let certificate = announce.certificate.clone();
    assert_eq!(discovery.insert(&presented(&announce, true), true), Ok(true));
    assert_eq!(
        discovery.insert(&presented(&announced(&issuer, &key, 2), true), true),
        Err(Refusal::Capacity)
    );
    let mut moved = announce.copy();
    moved.probe = endpoint(2, 7000);
    assert_eq!(discovery.insert(&presented(&moved, true), true), Ok(true));
    assert_eq!(discovery.insert(&presented(&announce, true), false), Ok(false));
    assert_eq!(discovery.address(&certificate, Plane::Probe), Some(ip(2, 7000)));
}

#[test]
fn refused_revalidation_keeps_the_complete_roster_for_the_next_restart() {
    let (issuer, key) = authority();
    let peers = [announced(&issuer, &key, 1), announced(&issuer, &key, 2)];
    let retained: Vec<Presented> = peers.iter().map(|peer| presented(peer, true)).collect();
    let mut state = enrollment(discovery(&issuer, &key));
    state.enrolled = peers.iter().map(|peer| peer.copy()).collect();
    assert!(matches!(state.restore(&retained), Err(Refusal::Capacity)));
    assert_eq!(state.enrolled.len(), peers.len());

    let mut next = discovery(&issuer, &key);
    next.capacity = peers.len();
    state.discovery = Some(next);
    let recovered = state.restore(&retained).unwrap();
    assert_eq!(
        recovered.len(),
        peers.len(),
        "a refused start must not erase unexamined peers"
    );
    for peer in peers {
        assert_eq!(
            state.discovery.as_ref().unwrap().address(&peer.certificate, Plane::Record),
            peer.record.address,
        );
    }
}

#[test]
fn a_scope_name_carries_the_region_and_the_domain() {
    assert_ne!(scope_name("fleet", 0, 1), scope_name("fleet", 0, 2));
    assert_ne!(scope_name("fleet", 0, 1), scope_name("fleet", 1, 1));
    assert!(scope_name("fleet", 3, 7).contains("fleet"));
}

#[test]
fn a_certificate_that_does_not_parse_is_malformed() {
    let (issuer, key) = authority();
    let discovery = discovery(&issuer, &key);
    let mut broken = announced(&issuer, &key, 1);
    broken.certificate = b"not a certificate".to_vec();
    broken.anchor = host_id_of_certificate(&broken.certificate);
    assert_eq!(discovery.validate(&presented(&broken, true)), Some(Refusal::Malformed));
}

#[test]
fn a_fleet_name_that_is_no_server_name_scopes_nobody() {
    let (issuer, key) = authority();
    let mut discovery = discovery(&issuer, &key);
    discovery.name = "not a name".to_owned();
    let announce = announced(&issuer, &key, 1);
    assert_eq!(discovery.validate(&presented(&announce, true)), Some(Refusal::Scope));
}

#[test]
fn a_pinned_peer_keeps_its_certificate_and_its_declared_scope() {
    let (issuer, key) = authority();
    let pinned = announced(&issuer, &key, 4);
    let local = announced(&issuer, &key, 0);
    let seed = HostId(pinned.anchor.0.wrapping_add(1));
    let mut domains = BTreeMap::new();
    domains.insert(seed.0, DomainId(4));
    let mut regions = BTreeMap::new();
    regions.insert(seed.0, RegionId(0));
    let node = LocalNode {
        anchor: local.anchor,
        seed: HostId(local.anchor.0.wrapping_add(1)),
        certificate: local.certificate.clone(),
        probe: endpoint(1, 7000),
        record: endpoint(1, 7001),
        encoded_bytes: 400,
    };
    let peers = vec![SeedPeer {
        anchor: pinned.anchor,
        host: seed,
        certificate: pinned.certificate.clone(),
    }];
    let discovery = Discovery::new(
        "fleet".to_owned(),
        node,
        &peers,
        &Some(FleetScopes { domains, regions }),
        3,
        FRAME,
    )
    .unwrap();
    assert_eq!(discovery.recognizes(&pinned.certificate), Some(pinned.anchor));
    assert_eq!(discovery.validate(&presented(&pinned, false)), None);
    let mut moved = pinned.copy();
    moved.domain = 5;
    assert_eq!(discovery.validate(&presented(&moved, true)), Some(Refusal::Scope));
    let mut other = pinned.copy();
    other.certificate = announced(&issuer, &key, 4).certificate;
    assert_eq!(discovery.validate(&presented(&other, true)), Some(Refusal::Identity));
}

#[test]
fn an_enrolled_peer_is_dialed_once_and_its_identity_is_fixed() {
    let (issuer, key) = authority();
    let mut state = enrollment(discovery(&issuer, &key));
    let announce = announced(&issuer, &key, 1);
    let certificate = announce.certificate.clone();
    match state.enroll(&presented(&announce, true), true) {
        Ok(Admitted::Changed { dial: Some(peer) }) => assert_eq!(peer.anchor, announce.anchor),
        other => panic!("{other:?}"),
    }
    let mut moved = announce.copy();
    moved.record = endpoint(3, 7001);
    assert!(matches!(
        state.enroll(&presented(&moved, true), true),
        Ok(Admitted::Changed { dial: None })
    ));
    assert!(matches!(
        state.enroll(&presented(&announce, true), false),
        Ok(Admitted::Unchanged)
    ));
    assert_eq!(state.enrolled.len(), 1);
    let discovery = state.discovery.as_ref().unwrap();
    assert_eq!(discovery.address(&certificate, Plane::Record), Some(ip(3, 7001)));
    assert_eq!(discovery.recognizes(&certificate), Some(announce.anchor));
    state.discovery = None;
    assert!(matches!(
        state.enroll(&presented(&announce, true), true),
        Err(Refusal::Untrusted)
    ));
}

#[test]
fn an_unpublished_enrollment_is_refused() {
    assert!(matches!(
        Admitted::Changed { dial: None }.published(false),
        Err(Refusal::Publication)
    ));
    assert!(matches!(Admitted::Changed { dial: None }.published(true), Ok(None)));
    assert!(matches!(Admitted::Unchanged.published(false), Ok(None)));
}

#[test]
fn a_page_sweeps_the_roster_one_peer_at_a_time() {
    let (issuer, key) = authority();
    let mut server = discovery(&issuer, &key);
    server.capacity = 4;
    let mut anchors = Vec::new();
    for domain in 1..4 {
        let announce = announced(&issuer, &key, domain);
        anchors.push(announce.anchor);
        server.insert(&presented(&announce, true), true).unwrap();
    }
    anchors.sort();
    let served = enrollment(server);
    let asker = announced(&issuer, &key, 9);
    let mut state = served;
    let request = Received {
        bytes: 700,
        decoded: Some(Request {
            announce: Some(presented(&asker, true)),
            after: None,
            known: 0,
        }),
    };
    state.serve_announcement(&asker.certificate, FRAME, &request).unwrap();
    anchors.push(asker.anchor);
    anchors.sort();
    let mut seen = Vec::new();
    let mut after = None;
    loop {
        let request = Request { announce: None, after, known: 0 };
        let reply = state.serve_reply(&asker.certificate, &request).unwrap();
        match reply.candidate {
            Some(candidate) => {
                seen.push(candidate.anchor);
                after = Some(candidate.anchor);
            }
            None => break,
        }
    }
    assert_eq!(seen, anchors, "every record, the asker's own among them, in the anchors' order");
}

#[test]
fn a_relayed_candidate_is_enrolled_and_moves_the_sweep() {
    let (issuer, key) = authority();
    let mut state = enrollment(discovery(&issuer, &key));
    let third = announced(&issuer, &key, 1);
    let reply = |candidate: Option<Presented>, generation: u64| Reply {
        local: None,
        candidate,
        generation,
    };
    let mut cursor = Cursor { announced: true, after: None, generation: 0 };
    let admitted =
        cursor.receive_candidate(&mut state, &reply(Some(presented(&third, true)), 4)).unwrap();
    assert!(matches!(admitted, Admitted::Changed { dial: Some(_) }));
    assert_eq!((cursor.after, cursor.generation), (Some(third.anchor), 4));
    assert!(state.discovery.as_ref().unwrap().records.contains_key(&third.anchor.0));
    let mut moved = third.copy();
    moved.probe = endpoint(2, 7000);
    let admitted =
        cursor.receive_candidate(&mut state, &reply(Some(presented(&moved, true)), 4)).unwrap();
    assert!(matches!(admitted, Admitted::Unchanged), "a relay overwrites nothing");
    // The roster changed under the sweep: it starts over.
    assert!(cursor.receive_candidate(&mut state, &reply(Some(presented(&third, true)), 5)).is_ok());
    assert_eq!((cursor.after, cursor.generation), (None, 0));
    assert!(matches!(
        cursor.receive_candidate(&mut state, &reply(None, 6)),
        Ok(Admitted::Unchanged)
    ));
    assert_eq!((cursor.after, cursor.generation), (None, 6));
    let stranger = announced(&issuer, &key, 2);
    assert!(matches!(
        cursor.receive_candidate(&mut state, &reply(Some(presented(&stranger, true)), 6)),
        Err(Refusal::Capacity)
    ));
}

#[test]
fn a_reply_from_another_anchor_is_refused() {
    let (issuer, key) = authority();
    let mut state = enrollment(discovery(&issuer, &key));
    let peer = announced(&issuer, &key, 1);
    let cursor = Cursor { announced: false, after: None, generation: 0 };
    let reply = Received {
        bytes: 600,
        decoded: Some(Reply {
            local: Some(presented(&peer, true)),
            candidate: None,
            generation: 1,
        }),
    };
    let stranger = HostId(peer.anchor.0 ^ 1);
    assert!(cursor.receive_local(&mut state, FRAME, &reply, stranger).is_err());
    assert!(state.discovery.as_ref().unwrap().records.is_empty());
    assert!(cursor.receive_local(&mut state, FRAME, &reply, peer.anchor).is_ok());
    assert_eq!(state.discovery.as_ref().unwrap().records.len(), 1);
    let too_long: Received<Reply<Presented>> = Received { bytes: FRAME * 3 + 1, decoded: None };
    assert!(cursor.receive_local(&mut state, FRAME, &too_long, peer.anchor).is_err());
}

#[test]
fn every_refusal_is_counted_under_its_own_name() {
    let all = [
        Refusal::Malformed,
        Refusal::Untrusted,
        Refusal::Scope,
        Refusal::Capacity,
        Refusal::Identity,
        Refusal::Publication,
    ];
    for (i, a) in all.iter().enumerate() {
        for b in &all[i + 1..] {
            assert_ne!(a.counter(), b.counter());
        }
    }
}

#[test]
fn an_unpinned_announcement_is_judged_by_what_its_certificate_says() {
    let (own, other) = (HostId(4), HostId(5));
    assert_eq!(judge_unpinned(own, true, own, true, true, true), None);
    assert_eq!(judge_unpinned(own, true, other, true, true, true), Some(Refusal::Identity));
    assert_eq!(judge_unpinned(own, false, own, true, true, true), Some(Refusal::Untrusted));
    assert_eq!(judge_unpinned(own, true, own, false, true, true), Some(Refusal::Malformed));
    assert_eq!(judge_unpinned(own, true, own, true, false, true), Some(Refusal::Scope));
    assert_eq!(judge_unpinned(own, true, own, true, true, false), Some(Refusal::Scope));
    // What is wrong first is what is named.
    assert_eq!(judge_unpinned(own, false, other, false, false, false), Some(Refusal::Identity));
    assert_eq!(judge_unpinned(own, false, own, false, false, false), Some(Refusal::Untrusted));
}
