//! The head register value and its bytes.

use slates_server::head::{HeadValue, NamePolicy, Placement, Principal, SizeClass};
use slates_server::ids::{HostId, Quorum};
use slates_server::wire::{
    blob_at, push_blob, push_text, push_word, push_word_list, tag_at, text_at, word_at,
    word_list_at,
};

fn value() -> HeadValue {
    HeadValue {
        manifest: Some([7u8; 32]),
        content_holders: vec![3, 9],
        name: "scratch".to_owned(),
        size: SizeClass::Bounded { limit: 1 << 20 },
        names: NamePolicy::Exact,
        owner: Principal::Uid { uid: 501 },
    }
}

#[test]
fn a_head_value_round_trips_and_is_deterministic() {
    let bytes = value().to_record_bytes();
    assert_eq!(
        bytes,
        value().to_record_bytes(),
        "the same value encodes to the same bytes"
    );
    assert_eq!(HeadValue::from_record_bytes(&bytes), Some(value()));
    assert_eq!(value().holders(), vec![HostId(3), HostId(9)]);
    let creation = HeadValue { manifest: None, content_holders: Vec::new(), ..value() };
    assert_eq!(HeadValue::from_record_bytes(&creation.to_record_bytes()), Some(creation));
}

#[test]
fn truncated_and_padded_values_are_refused() {
    let bytes = value().to_record_bytes();
    for cut in 0..bytes.len() {
        assert!(HeadValue::from_record_bytes(&bytes[..cut]).is_none(), "cut to {cut} bytes");
    }
    let mut padded = bytes.clone();
    padded.push(0);
    assert!(HeadValue::from_record_bytes(&padded).is_none());
}

#[test]
fn every_variant_reads_back() {
    let owners = [
        Principal::Uid { uid: 0 },
        Principal::Sid { sid: "S-1-5-21".to_owned() },
        Principal::Certificate { certificate: vec![1, 2, 3] },
    ];
    for owner in owners {
        for size in [SizeClass::Unbounded, SizeClass::Bounded { limit: 0 }] {
            for names in [NamePolicy::Exact, NamePolicy::Folded] {
                let head = HeadValue { owner: owner.copy(), size, names, ..value() };
                let bytes = head.to_record_bytes();
                assert_eq!(HeadValue::from_record_bytes(&bytes), Some(head));
            }
        }
    }
}

#[test]
fn a_name_that_is_no_text_is_refused() {
    let bytes = value().to_record_bytes();
    let at = bytes.windows(7).position(|window| window == b"scratch").unwrap();
    let mut broken = bytes.clone();
    broken[at] = 0xFF;
    assert!(HeadValue::from_record_bytes(&broken).is_none());
}

#[test]
fn a_placement_is_durable_at_a_quorum_of_its_candidates() {
    let mut placement = Placement {
        candidates: vec![HostId(1), HostId(2), HostId(3)],
        acked: vec![HostId(1)],
    };
    let quorum = Quorum { f: 1 };
    assert!(!placement.placed(quorum));
    placement.acknowledge(HostId(1));
    assert!(!placement.placed(quorum), "one holder's second word adds nothing");
    placement.acknowledge(HostId(3));
    assert!(placement.placed(quorum));
    assert_eq!(placement.copy(), placement);
}

#[test]
fn the_primitives_read_back_what_was_written() {
    let mut out: Vec<u8> = Vec::new();
    push_word(&mut out, 0x0102_0304_0506_0708);
    push_blob(&mut out, b"abc");
    push_word_list(&mut out, &vec![1, u64::MAX]);
    push_text(&mut out, "snapshot");
    out.push(7);
    let (word, at) = word_at(&out, 0).unwrap();
    assert_eq!(word, 0x0102_0304_0506_0708);
    let (blob, at) = blob_at(&out, at).unwrap();
    assert_eq!(blob, b"abc");
    let (list, at) = word_list_at(&out, at).unwrap();
    assert_eq!(list, vec![1, u64::MAX]);
    let (text, at) = text_at(&out, at).unwrap();
    assert_eq!(text, "snapshot");
    let (tag, at) = tag_at(&out, at).unwrap();
    assert_eq!(tag, 7);
    assert_eq!(at, out.len());
    assert!(tag_at(&out, at).is_none());
    assert!(word_at(&out[..7], 0).is_none());
}

#[test]
fn principals_are_compared_by_what_they_name() {
    let a = Principal::Sid { sid: "x".to_owned() };
    assert!(a.same_as(&a.copy()));
    assert!(!a.same_as(&Principal::Sid { sid: "y".to_owned() }));
    assert!(!a.same_as(&Principal::Uid { uid: 1 }));
    let b = Principal::Certificate { certificate: vec![1] };
    assert!(b.same_as(&b.copy()) && !b.same_as(&a));
}
