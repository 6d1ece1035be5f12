//! The stub resolver: the query, the answer, and the lookup over its nameservers.

use slates_server::dns::{
    check_hostname, decode_answer, encode_query, query_id, read_name, Ask, AskOutcome, AskStep,
    DnsError, Heard, Lookup, LookupStep, Resolver, CLASS_IN, FLAG_RECURSION_DESIRED, FLAG_REPLY,
    MAX_LABEL_BYTES, POINTER_TAG, TYPE_A,
};
use slates_server::net::{Ipv4Addr, SocketAddrV4};

/// One answer record of a test reply: its owner, type, class and data.
type Record<'a> = (&'a [u8], u16, u16, &'a [u8]);

/// A reply to `query` carrying `answers` with `rcode`; the question is echoed byte for byte.
fn reply(query: &[u8], rcode: u16, answers: &[Record]) -> Vec<u8> {
    let mut out = query.to_vec();
    let flags = FLAG_REPLY | FLAG_RECURSION_DESIRED | rcode;
    out[2..4].copy_from_slice(&flags.to_be_bytes());
    out[6..8].copy_from_slice(&u16::try_from(answers.len()).unwrap().to_be_bytes());
    for (owner, record_type, class, rdata) in answers {
        out.extend_from_slice(owner);
        out.extend_from_slice(&record_type.to_be_bytes());
        out.extend_from_slice(&class.to_be_bytes());
        out.extend_from_slice(&60u32.to_be_bytes());
        out.extend_from_slice(&u16::try_from(rdata.len()).unwrap().to_be_bytes());
        out.extend_from_slice(rdata);
    }
    out
}

/// A compression pointer to the question name.
const POINTER_TO_QUESTION: &[u8] = &[POINTER_TAG, 12];

const HOST: &str = "slates-1.slates.default.svc.cluster.local";

/// What a nameserver answers a query with.
type Answer = fn(&[u8]) -> Vec<u8>;

/// The per-query timeout of the simulated lookups.
const SIM_TIMEOUT_NS: u64 = 50_000_000;

/// Drives a lookup against nameservers that answer as `answer` says, on a clock that only a silent
/// nameserver moves: the outcome, and how long it took.
fn resolve(
    answer: Option<Answer>,
    attempts: u32,
    nameservers: usize,
) -> (Result<Ipv4Addr, DnsError>, u64) {
    let nameserver = SocketAddrV4::new(Ipv4Addr::new(127, 0, 0, 1), 5353);
    let resolver = Resolver {
        nameservers: vec![nameserver; nameservers],
        timeout_ns: SIM_TIMEOUT_NS,
        attempts,
    };
    let mut now_ns: u64 = 0;
    let mut step = Lookup::start(&resolver);
    loop {
        let at = match step {
            LookupStep::Done(outcome) => return (outcome, now_ns),
            LookupStep::Ask(at) => at,
        };
        let id = query_id(now_ns, HOST, at.attempt);
        let query = encode_query(id, HOST).unwrap();
        let ask = Ask::sent(&resolver, id, at.nameserver(&resolver), now_ns);
        let heard = match answer {
            Some(answer) => Heard::Datagram { from: ask.nameserver, bytes: answer(&query) },
            None => {
                now_ns += ask.remaining(now_ns).unwrap();
                Heard::Nothing
            }
        };
        let outcome = match ask.heard(HOST, heard) {
            AskStep::Wait => panic!("a datagram from the nameserver answers the query"),
            AskStep::TimedOut => AskOutcome::TimedOut,
            AskStep::Resolved(address) => AskOutcome::Resolved(address),
            AskStep::Failed(error) => AskOutcome::Failed(error),
        };
        step = at.after(&resolver, outcome);
    }
}

fn answer_with_address(query: &[u8]) -> Vec<u8> {
    reply(query, 0, &[(POINTER_TO_QUESTION, TYPE_A, CLASS_IN, &[10, 244, 0, 9])])
}

fn answer_nxdomain(query: &[u8]) -> Vec<u8> {
    reply(query, 3, &[])
}

#[test]
fn a_query_is_the_rfc_1035_shape() {
    let query = encode_query(0x1234, "a.b").unwrap();
    assert_eq!(
        query,
        [
            0x12, 0x34, 0x01, 0x00, 0, 1, 0, 0, 0, 0, 0, 0, // header
            1, b'a', 1, b'b', 0, // the name
            0, 1, 0, 1 // A, IN
        ]
    );
    assert_eq!(
        encode_query(0x1234, "a.b.").unwrap(),
        query,
        "a trailing dot (a fully qualified name) is the same question"
    );
}

#[test]
fn a_lookup_resolves_through_a_nameserver_on_the_fabric() {
    let (outcome, _) = resolve(Some(answer_with_address), 2, 1);
    assert_eq!(outcome, Ok(Ipv4Addr::new(10, 244, 0, 9)));
}

#[test]
fn a_silent_nameserver_times_the_lookup_out_after_every_attempt() {
    let (outcome, elapsed_ns) = resolve(None, 2, 3);
    assert!(matches!(outcome, Err(DnsError::Timeout { attempts: 2, .. })), "{outcome:?}");
    let bound = SIM_TIMEOUT_NS * 2 * 3;
    assert!(
        elapsed_ns >= bound && elapsed_ns < bound + SIM_TIMEOUT_NS,
        "the lookup waited its whole budget and no more: {elapsed_ns} ns against {bound} ns"
    );
}

#[test]
fn a_definitive_refusal_ends_the_lookup_at_once() {
    let (outcome, elapsed_ns) = resolve(Some(answer_nxdomain), 2, 3);
    assert_eq!(outcome, Err(DnsError::Refused { rcode: 3 }));
    assert!(elapsed_ns < SIM_TIMEOUT_NS, "no timeout was waited out: {elapsed_ns} ns");
}

#[test]
fn the_first_a_record_is_the_address() {
    let id = 7;
    let query = encode_query(id, HOST).unwrap();
    let cname_target = b"\x05other\x05place\x00";
    let bytes = reply(
        &query,
        0,
        &[
            (POINTER_TO_QUESTION, 5, CLASS_IN, cname_target),
            (cname_target, TYPE_A, CLASS_IN, &[10, 244, 1, 7]),
            (POINTER_TO_QUESTION, TYPE_A, CLASS_IN, &[10, 244, 1, 8]),
        ],
    );
    assert_eq!(decode_answer(id, HOST, &bytes), Ok(Ipv4Addr::new(10, 244, 1, 7)));
}

#[test]
fn the_question_is_matched_case_insensitively() {
    let id = 9;
    let query = encode_query(id, "Slates-0.SVC.cluster.local.").unwrap();
    let bytes = reply(&query, 0, &[(POINTER_TO_QUESTION, TYPE_A, CLASS_IN, &[10, 0, 0, 1])]);
    assert_eq!(
        decode_answer(id, "slates-0.svc.CLUSTER.local", &bytes),
        Ok(Ipv4Addr::new(10, 0, 0, 1))
    );
}

/// The query id of the hostile-input tests.
const HOSTILE_ID: u16 = 3;

/// A query, and a good reply to it: one `A` record.
fn good_reply() -> (Vec<u8>, Vec<u8>) {
    let query = encode_query(HOSTILE_ID, HOST).unwrap();
    let good = reply(&query, 0, &[(POINTER_TO_QUESTION, TYPE_A, CLASS_IN, &[1, 2, 3, 4])]);
    assert_eq!(decode_answer(HOSTILE_ID, HOST, &good), Ok(Ipv4Addr::new(1, 2, 3, 4)));
    (query, good)
}

#[test]
fn a_truncated_reply_is_refused() {
    let (_, good) = good_reply();
    for cut in 0..good.len() {
        assert!(
            decode_answer(HOSTILE_ID, HOST, &good[..cut]).is_err(),
            "a reply cut at {cut} bytes is refused"
        );
    }
}

#[test]
fn a_reply_for_another_query_is_refused() {
    let (query, good) = good_reply();
    assert_eq!(
        decode_answer(HOSTILE_ID + 1, HOST, &good),
        Err(DnsError::Malformed { at: "id" })
    );
    assert_eq!(
        decode_answer(HOSTILE_ID, HOST, &query),
        Err(DnsError::Malformed { at: "flags" })
    );
    let other = encode_query(HOSTILE_ID, "someone.else").unwrap();
    let other = reply(&other, 0, &[(POINTER_TO_QUESTION, TYPE_A, CLASS_IN, &[1, 2, 3, 4])]);
    assert_eq!(
        decode_answer(HOSTILE_ID, HOST, &other),
        Err(DnsError::Malformed { at: "question name" })
    );
    let mut two_questions = good.clone();
    two_questions[4..6].copy_from_slice(&2u16.to_be_bytes());
    assert_eq!(
        decode_answer(HOSTILE_ID, HOST, &two_questions),
        Err(DnsError::Malformed { at: "qdcount" })
    );
}

#[test]
fn a_refusal_code_and_an_answer_without_an_address_are_typed() {
    let (query, _) = good_reply();
    let nxdomain = reply(&query, 3, &[]);
    assert_eq!(
        decode_answer(HOSTILE_ID, HOST, &nxdomain),
        Err(DnsError::Refused { rcode: 3 })
    );
    let only_aaaa = reply(&query, 0, &[(POINTER_TO_QUESTION, 28, CLASS_IN, &[0u8; 16])]);
    assert_eq!(decode_answer(HOSTILE_ID, HOST, &only_aaaa), Err(DnsError::NoAddress));
    let short_a = reply(&query, 0, &[(POINTER_TO_QUESTION, TYPE_A, CLASS_IN, &[1, 2, 3])]);
    assert_eq!(decode_answer(HOSTILE_ID, HOST, &short_a), Err(DnsError::NoAddress));
}

#[test]
fn a_hostile_name_or_length_is_refused() {
    let (query, good) = good_reply();
    let mut overflow = good.clone();
    let rdlength_at = overflow.len() - 4 - 2;
    overflow[rdlength_at..rdlength_at + 2].copy_from_slice(&u16::MAX.to_be_bytes());
    assert_eq!(
        decode_answer(HOSTILE_ID, HOST, &overflow),
        Err(DnsError::Malformed { at: "rdata" })
    );
    let refused_name = |bytes: &[u8]| {
        assert_eq!(
            decode_answer(HOSTILE_ID, HOST, bytes),
            Err(DnsError::Malformed { at: "name" })
        );
    };
    let own_offset = u8::try_from(query.len()).unwrap();
    refused_name(&reply(
        &query,
        0,
        &[(&[POINTER_TAG, own_offset], TYPE_A, CLASS_IN, &[1, 2, 3, 4])],
    ));
    refused_name(&reply(
        &query,
        0,
        &[(&[POINTER_TAG, 0xFF], TYPE_A, CLASS_IN, &[1, 2, 3, 4])],
    ));
    let longest_label = u8::try_from(MAX_LABEL_BYTES).unwrap();
    refused_name(&reply(&query, 0, &[(&[longest_label, b'x'], TYPE_A, CLASS_IN, &[])]));
    refused_name(&reply(&query, 0, &[(&[0x40, 0], TYPE_A, CLASS_IN, &[1, 2, 3, 4])]));
}

#[test]
fn a_bad_name_is_refused_by_reason() {
    let reason = |host: &str| match encode_query(1, host) {
        Err(DnsError::Name { reason, .. }) => reason,
        other => panic!("expected a name refusal for `{host}`, got {other:?}"),
    };
    assert_eq!(reason(""), "it is empty");
    assert_eq!(reason("a..b"), "it has an empty label (two dots in a row, or a leading dot)");
    assert_eq!(
        reason(&format!("{}.x", "a".repeat(MAX_LABEL_BYTES + 1))),
        "a label is longer than 63 bytes"
    );
    assert_eq!(reason(&["abcdefghij"; 26].join(".")), "it is longer than 253 bytes");
    assert_eq!(
        reason("under_score.local"),
        "a label has a character other than a letter, a digit or a hyphen"
    );
    assert!(check_hostname("slates-0.slates.default.svc.cluster.local.").is_ok());
    assert!(check_hostname("10.0.0.1").is_ok(), "digits-only labels are hostnames too");
}

#[test]
fn a_forward_pointer_is_refused_as_a_name() {
    let (query, _) = good_reply();
    let ahead = u8::try_from(query.len() + 4).unwrap();
    let bytes = reply(&query, 0, &[(&[POINTER_TAG, ahead], TYPE_A, CLASS_IN, &[1, 2, 3, 4])]);
    assert_eq!(
        decode_answer(HOSTILE_ID, HOST, &bytes),
        Err(DnsError::Malformed { at: "name" })
    );
}

#[test]
fn the_first_timeout_moves_to_the_next_nameserver_and_the_last_ends_the_lookup() {
    let first = SocketAddrV4::new(Ipv4Addr::new(10, 0, 0, 1), 53);
    let second = SocketAddrV4::new(Ipv4Addr::new(10, 0, 0, 2), 53);
    let resolver = Resolver { nameservers: vec![first, second], timeout_ns: 5, attempts: 1 };
    let at = match Lookup::start(&resolver) {
        LookupStep::Ask(at) => at,
        LookupStep::Done(outcome) => panic!("{outcome:?}"),
    };
    assert_eq!(at.nameserver(&resolver), first);
    let at = match at.after(&resolver, AskOutcome::TimedOut) {
        LookupStep::Ask(at) => at,
        LookupStep::Done(outcome) => panic!("{outcome:?}"),
    };
    assert_eq!(at.nameserver(&resolver), second);
    assert!(matches!(
        at.after(&resolver, AskOutcome::TimedOut),
        LookupStep::Done(Err(DnsError::Timeout { nameserver, attempts: 1 })) if nameserver == second
    ));
}

#[test]
fn a_resolver_without_a_nameserver_asks_nobody() {
    let resolver = Resolver { nameservers: Vec::new(), timeout_ns: 5, attempts: 1 };
    assert!(matches!(
        Lookup::start(&resolver),
        LookupStep::Done(Err(DnsError::NoNameserver))
    ));
}

#[test]
fn only_the_asked_nameserver_and_the_asked_id_are_heard() {
    let nameserver = SocketAddrV4::new(Ipv4Addr::new(10, 0, 0, 1), 53);
    let stranger = SocketAddrV4::new(Ipv4Addr::new(10, 0, 0, 9), 53);
    let resolver = Resolver { nameservers: vec![nameserver], timeout_ns: 40, attempts: 1 };
    let query = encode_query(7, HOST).unwrap();
    let other = encode_query(8, HOST).unwrap();
    let ask = Ask::sent(&resolver, 7, nameserver, 100);
    assert_eq!(ask.remaining(110), Some(30));
    assert_eq!(ask.remaining(140), None);
    let good = answer_with_address(&query);
    let step = ask.heard(HOST, Heard::Datagram { from: stranger, bytes: good.clone() });
    assert!(matches!(step, AskStep::Wait), "{step:?}");
    let step = ask.heard(
        HOST,
        Heard::Datagram { from: nameserver, bytes: answer_with_address(&other) },
    );
    assert!(matches!(step, AskStep::Wait), "{step:?}");
    let step = ask.heard(HOST, Heard::Datagram { from: nameserver, bytes: good });
    assert!(matches!(step, AskStep::Resolved(_)), "{step:?}");
    let step = ask.heard(HOST, Heard::Fault("unreachable".to_owned()));
    assert!(matches!(step, AskStep::Failed(DnsError::Io(_))), "{step:?}");
}

#[test]
fn every_fault_has_a_kind_and_a_message() {
    let nameserver = SocketAddrV4::new(Ipv4Addr::new(10, 0, 0, 1), 53);
    let faults = [
        DnsError::Name { host: "a..b".to_owned(), reason: "it is empty" },
        DnsError::NoNameserver,
        DnsError::Timeout { nameserver, attempts: 2 },
        DnsError::Refused { rcode: 3 },
        DnsError::NoAddress,
        DnsError::Malformed { at: "flags" },
        DnsError::Io("unreachable".to_owned()),
    ];
    for (i, a) in faults.iter().enumerate() {
        assert!(!a.message().is_empty());
        for b in &faults[i + 1..] {
            assert_ne!(a.kind(), b.kind());
        }
    }
    assert!(faults[2].message().contains("10.0.0.1:53"));
}

#[test]
fn a_query_id_follows_the_clock_the_name_and_the_attempt() {
    let id = query_id(1, HOST, 0);
    assert_eq!(id, query_id(1, HOST, 0));
    assert!(
        id != query_id(2, HOST, 0) || id != query_id(1, HOST, 1) || id != query_id(1, "b", 0)
    );
}

#[test]
fn a_name_is_read_behind_what_was_read_before() {
    let query = encode_query(7, "Node-0.Example.").unwrap();
    let mut name = Vec::new();
    assert_eq!(read_name(&query, 12, &mut name), Ok(query.len() - 4));
    assert_eq!(name, b"node-0.example");
    let mut held = b"seen".to_vec();
    assert_eq!(read_name(&query, 12, &mut held), Ok(query.len() - 4));
    assert_eq!(held, b"seen.node-0.example");
    // A pointer back to the name: the message goes on behind its two octets.
    let mut pointed = query.clone();
    pointed.extend_from_slice(&[0xC0, 12]);
    let mut name = Vec::new();
    assert_eq!(read_name(&pointed, query.len(), &mut name), Ok(pointed.len()));
    assert_eq!(name, b"node-0.example");
    // A pointer to itself, and a name that leaves the message: what was read before stays.
    let mut itself = query.clone();
    itself.extend_from_slice(&[0xC0, u8::try_from(query.len()).unwrap()]);
    for (bytes, at) in [(&itself, query.len()), (&query, query.len()), (&query, query.len() + 9)] {
        let mut held = b"seen".to_vec();
        assert_eq!(
            read_name(bytes, at, &mut held),
            Err(DnsError::Malformed { at: "name" })
        );
        assert_eq!(held, b"seen");
    }
    let mut long = vec![b'x'; 250];
    assert_eq!(read_name(&query, 12, &mut long), Err(DnsError::Malformed { at: "name" }));
    assert!(long.starts_with(&[b'x'; 250]));
}
