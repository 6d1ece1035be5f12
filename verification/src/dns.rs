//! Name resolution for a fleet peer's advertised address: a minimal A-record client (RFC 1035 §4).
//! One question, the first `A`/`IN` answer, and nothing more. The codec reads hostile bytes: every
//! length is checked against the message before it is read, and a compression pointer must point
//! strictly before its own position. The lookup is a machine: the caller sends each query, waits,
//! and hands back what arrived.

use crate::digest::{
    blake3_digest, hash, le_bytes, little_endian, push_bytes, push_le_bytes, same_bytes,
    short_id_of_digest,
};
use crate::net::{Ipv4Addr, SocketAddrV4};
use crate::text::{decimal, push_decimal};
use vstd::prelude::*;
use vstd::string::StringExecFns;

verus! {

/// The resolver configuration: where to ask, how long to wait for each answer, and how many rounds
/// over the nameservers to make.
#[derive(Debug)]
pub struct Resolver {
    /// The nameservers, in the operating system's order.
    pub nameservers: Vec<SocketAddrV4>,
    /// How long one query waits for its answer.
    pub timeout_ns: u64,
    /// The rounds a lookup makes; at least one is made.
    pub attempts: u32,
}

/// Why a name did not resolve.
#[derive(Clone, Debug, PartialEq, Eq)]
pub enum DnsError {
    /// The name is not a DNS hostname, so no query was sent.
    Name { host: String, reason: &'static str },
    /// The resolver lists no nameserver.
    NoNameserver,
    /// Every attempt to every nameserver timed out.
    Timeout { nameserver: SocketAddrV4, attempts: u32 },
    /// The nameserver answered with an error code.
    Refused { rcode: u8 },
    /// The reply carries no `A` record.
    NoAddress,
    /// The reply could not be decoded at the named field.
    Malformed { at: &'static str },
    /// The runtime refused the socket or the send, in its own words.
    Io(String),
}

/// The message header's length.
pub const HEADER_BYTES: usize = 12;

/// The flags word's offset.
pub const FLAGS_OFFSET: usize = 2;

/// `QDCOUNT`'s offset.
pub const QDCOUNT_OFFSET: usize = 4;

/// `ANCOUNT`'s offset.
pub const ANCOUNT_OFFSET: usize = 6;

/// A question's fixed tail after its name.
pub const QUESTION_TAIL_BYTES: usize = 4;

/// A record's fixed part after its name.
pub const RECORD_FIXED_BYTES: usize = 10;

/// `RDLENGTH`'s offset within that part.
pub const RDLENGTH_OFFSET: usize = 8;

/// The largest message carried over UDP.
pub const MAX_UDP_MESSAGE: usize = 512;

/// The longest label.
pub const MAX_LABEL_BYTES: usize = 63;

/// The longest textual name.
pub const MAX_NAME_BYTES: usize = 253;

/// The `A` record type.
pub const TYPE_A: u16 = 1;

/// The Internet class.
pub const CLASS_IN: u16 = 1;

/// An `A` record's data length.
pub const A_RDATA_BYTES: u16 = 4;

/// The flag asking for recursion.
pub const FLAG_RECURSION_DESIRED: u16 = 0x0100;

/// The flag marking a reply: the flags' top bit.
pub const FLAG_REPLY: u16 = 0x8000;

/// The reply code's range: the flags' low four bits.
pub const RCODE_RANGE: u16 = 16;

/// The least length octet that is a compression pointer: both top bits set.
pub const POINTER_TAG: u8 = 0xC0;

/// The byte of a full stop.
pub const DOT: u8 = 46;

impl DnsError {
    /// The refusal's kind, a status counter's suffix.
    pub open spec fn kind_text(&self) -> &'static str {
        match self {
            DnsError::Name { .. } => "name",
            DnsError::NoNameserver => "no-nameserver",
            DnsError::Timeout { .. } => "timeout",
            DnsError::Refused { .. } => "refused",
            DnsError::NoAddress => "no-address",
            DnsError::Malformed { .. } => "malformed",
            DnsError::Io(_) => "io",
        }
    }

    /// The refusal's kind, a status counter's suffix.
    pub fn kind(&self) -> (kind: &'static str)
        ensures
            kind == self.kind_text(),
    {
        match self {
            DnsError::Name { .. } => "name",
            DnsError::NoNameserver => "no-nameserver",
            DnsError::Timeout { .. } => "timeout",
            DnsError::Refused { .. } => "refused",
            DnsError::NoAddress => "no-address",
            DnsError::Malformed { .. } => "malformed",
            DnsError::Io(_) => "io",
        }
    }

    /// The refusal in an operator's words.
    pub open spec fn message_text(&self) -> Seq<char> {
        match self {
            DnsError::Name { host, reason } => "`"@ + host@ + "` is not a DNS hostname: "@
                + reason@,
            DnsError::NoNameserver => "the resolver lists no nameserver"@,
            DnsError::Timeout { nameserver, attempts } => "no answer within the timeout after "@
                + decimal(*attempts as nat) + " attempt(s); last asked "@ + nameserver.dotted(),
            DnsError::Refused { rcode } => "the nameserver answered rcode "@ + decimal(
                *rcode as nat,
            ),
            DnsError::NoAddress => "the answer carries no A record"@,
            DnsError::Malformed { at } => "the reply is malformed at its "@ + at@,
            DnsError::Io(detail) => "the runtime refused the query: "@ + detail@,
        }
    }

    /// The refusal in an operator's words.
    pub fn message(&self) -> (message: String)
        ensures
            message@ == self.message_text(),
    {
        let mut message = String::new();
        match self {
            DnsError::Name { host, reason } => {
                message.append("`");
                message.append(host.as_str());
                message.append("` is not a DNS hostname: ");
                message.append(*reason);
            },
            DnsError::NoNameserver => {
                message.append("the resolver lists no nameserver");
            },
            DnsError::Timeout { nameserver, attempts } => {
                message.append("no answer within the timeout after ");
                push_decimal(&mut message, *attempts as u64);
                message.append(" attempt(s); last asked ");
                nameserver.push_to(&mut message);
            },
            DnsError::Refused { rcode } => {
                message.append("the nameserver answered rcode ");
                push_decimal(&mut message, *rcode as u64);
            },
            DnsError::NoAddress => {
                message.append("the answer carries no A record");
            },
            DnsError::Malformed { at } => {
                message.append("the reply is malformed at its ");
                message.append(*at);
            },
            DnsError::Io(detail) => {
                message.append("the runtime refused the query: ");
                message.append(detail.as_str());
            },
        }
        assert(message@ =~= self.message_text());
        message
    }
}

/// A name's bytes without the trailing dot of a fully qualified one.
pub open spec fn unqualified(host: Seq<u8>) -> Seq<u8> {
    if host.len() > 0 && host.last() == DOT {
        host.drop_last()
    } else {
        host
    }
}

/// Where the first dot at or after `from` stands, or the end.
pub open spec fn next_dot(name: Seq<u8>, from: int) -> int
    decreases name.len() - from,
{
    if from < 0 || from >= name.len() {
        name.len() as int
    } else if name[from] == DOT {
        from
    } else {
        next_dot(name, from + 1)
    }
}

/// The labels of `name` from `from` on: the pieces between its dots.
pub open spec fn labels_from(name: Seq<u8>, from: int) -> Seq<Seq<u8>>
    decreases name.len() - from + 1,
    when 0 <= from <= name.len()
    via labels_from_shrinks
{
    let dot = next_dot(name, from);
    if dot >= name.len() {
        seq![name.subrange(from, name.len() as int)]
    } else {
        seq![name.subrange(from, dot)] + labels_from(name, dot + 1)
    }
}

#[via_fn]
proof fn labels_from_shrinks(name: Seq<u8>, from: int) {
    lemma_next_dot(name, from);
}

/// What the next dot is.
proof fn lemma_next_dot(name: Seq<u8>, from: int)
    requires
        0 <= from <= name.len(),
    ensures
        from <= next_dot(name, from) <= name.len(),
        next_dot(name, from) < name.len() ==> name[next_dot(name, from)] == DOT,
        forall|i: int| from <= i < next_dot(name, from) ==> name[i] != DOT,
    decreases name.len() - from,
{
    if from < name.len() && name[from] != DOT {
        lemma_next_dot(name, from + 1);
    }
}

/// Whether a byte may stand in a label: a letter, a digit or a hyphen.
pub open spec fn is_label_byte(byte: u8) -> bool {
    ||| 48 <= byte <= 57
    ||| 65 <= byte <= 90
    ||| 97 <= byte <= 122
    ||| byte == 45
}

/// What is wrong with a label, if anything.
pub open spec fn label_fault(label: Seq<u8>) -> Option<&'static str> {
    if label.len() == 0 {
        Some("it has an empty label (two dots in a row, or a leading dot)")
    } else if label.len() > MAX_LABEL_BYTES {
        Some("a label is longer than 63 bytes")
    } else if !forall|i: int| 0 <= i < label.len() ==> is_label_byte(label[i]) {
        Some("a label has a character other than a letter, a digit or a hyphen")
    } else {
        None
    }
}

/// What is wrong with the first faulty label, if any is.
pub open spec fn labels_fault(labels: Seq<Seq<u8>>) -> Option<&'static str>
    decreases labels.len(),
{
    if labels.len() == 0 {
        None
    } else if label_fault(labels[0]) is Some {
        label_fault(labels[0])
    } else {
        labels_fault(labels.skip(1))
    }
}

/// What keeps a name, by its bytes, from being a DNS hostname, if anything.
pub open spec fn hostname_fault(host: Seq<u8>) -> Option<&'static str> {
    let name = unqualified(host);
    if name.len() == 0 {
        Some("it is empty")
    } else if name.len() > MAX_NAME_BYTES {
        Some("it is longer than 253 bytes")
    } else {
        labels_fault(labels_from(name, 0))
    }
}

/// The bytes of text.
pub open spec fn octets(text: &str) -> Seq<u8> {
    vstd::utf8::encode_utf8(text@)
}

/// The contents of a list of byte strings.
pub open spec fn contents(list: Seq<Vec<u8>>) -> Seq<Seq<u8>> {
    list.map_values(|item: Vec<u8>| item@)
}

/// Whether `error` refuses `host` for `reason`.
pub open spec fn refuses_name(error: DnsError, host: Seq<char>, reason: &'static str) -> bool {
    error matches DnsError::Name { host: named, reason: given } && named@ == host && given
        == reason
}

/// The refusal of `host` for `reason`.
fn name_error(host: &str, reason: &'static str) -> (error: DnsError)
    ensures
        refuses_name(error, host@, reason),
{
    DnsError::Name { host: host.to_owned(), reason }
}

/// What is wrong with a label, if anything.
fn check_label(label: &Vec<u8>) -> (fault: Option<&'static str>)
    ensures
        fault == label_fault(label@),
{
    if label.len() == 0 {
        return Some("it has an empty label (two dots in a row, or a leading dot)");
    }
    if label.len() > MAX_LABEL_BYTES {
        return Some("a label is longer than 63 bytes");
    }
    let mut i: usize = 0;
    while i < label.len()
        invariant
            i <= label.len(),
            0 < label.len() <= MAX_LABEL_BYTES,
            forall|j: int| 0 <= j < i ==> is_label_byte(label@[j]),
        decreases label.len() - i,
    {
        let byte: u8 = label[i];
        if !((48 <= byte && byte <= 57) || (65 <= byte && byte <= 90) || (97 <= byte && byte
            <= 122) || byte == 45) {
            assert(!is_label_byte(label@[i as int]));
            return Some("a label has a character other than a letter, a digit or a hyphen");
        }
        i += 1;
    }
    None
}

/// The labels of `host`: one to 63 letters, digits or hyphens each, joined by dots, at most 253
/// bytes in all; a trailing dot is allowed and ignored.
fn labels_of(host: &str) -> (labels: Result<Vec<Vec<u8>>, DnsError>)
    ensures
        match labels {
            Ok(labels) => {
                &&& hostname_fault(octets(host)) is None
                &&& contents(labels@) == labels_from(unqualified(octets(host)), 0)
            },
            Err(error) => {
                &&& hostname_fault(octets(host)) matches Some(reason)
                &&& refuses_name(error, host@, reason)
            },
        },
{
    let bytes = host.as_bytes();
    let length: usize = if bytes.len() > 0 && bytes[bytes.len() - 1] == DOT {
        bytes.len() - 1
    } else {
        bytes.len()
    };
    let ghost name = unqualified(bytes@);
    assert(name =~= bytes@.take(length as int));
    if length == 0 {
        return Err(name_error(host, "it is empty"));
    }
    if length > MAX_NAME_BYTES {
        return Err(name_error(host, "it is longer than 253 bytes"));
    }
    let mut labels: Vec<Vec<u8>> = Vec::new();
    let mut start: usize = 0;
    let ghost whole = labels_from(name, 0);
    proof {
        assert(contents(labels@) =~= Seq::<Seq<u8>>::empty());
        assert(contents(labels@) + labels_from(name, 0) =~= whole);
    }
    loop
        invariant
            start <= length <= MAX_NAME_BYTES,
            0 < length <= bytes@.len(),
            bytes@ == octets(host),
            name == unqualified(bytes@),
            name == bytes@.take(length as int),
            whole == labels_from(name, 0),
            contents(labels@) + labels_from(name, start as int) == whole,
            labels_fault(whole) == labels_fault(labels_from(name, start as int)),
        decreases length - start + 1,
    {
        let ghost dot = next_dot(name, start as int);
        proof {
            lemma_next_dot(name, start as int);
        }
        let mut label: Vec<u8> = Vec::new();
        let mut end: usize = start;
        assert(label@ =~= name.subrange(start as int, end as int));
        while end < length && bytes[end] != DOT
            invariant
                start <= end <= dot <= length,
                length <= bytes@.len(),
                name == bytes@.take(length as int),
                dot < length ==> name[dot] == DOT,
                forall|i: int| start <= i < dot ==> name[i] != DOT,
                label@ == name.subrange(start as int, end as int),
            decreases length - end,
        {
            assert(name[end as int] == bytes@[end as int]);
            label.push(bytes[end]);
            end += 1;
            assert(label@ =~= name.subrange(start as int, end as int));
        }
        proof {
            if end < length {
                assert(name[end as int] == DOT);
            }
            assert(end == dot);
        }
        let ghost rest = labels_from(name, start as int);
        proof {
            assert(rest[0] =~= label@);
        }
        if let Some(reason) = check_label(&label) {
            return Err(name_error(host, reason));
        }
        let ghost kept = contents(labels@);
        labels.push(label);
        proof {
            assert(contents(labels@) =~= kept.push(label@));
        }
        if end == length {
            proof {
                assert(rest =~= seq![label@]);
                assert(rest.skip(1) =~= Seq::<Seq<u8>>::empty());
                assert(labels_fault(rest.skip(1)) is None);
                assert(contents(labels@) =~= kept + rest);
            }
            return Ok(labels);
        }
        start = end + 1;
        proof {
            assert(rest =~= seq![label@] + labels_from(name, start as int));
            assert(rest.skip(1) =~= labels_from(name, start as int));
            assert(contents(labels@) + labels_from(name, start as int) =~= kept + rest);
        }
    }
}

/// Refuses a `host` that is not a DNS hostname.
pub fn check_hostname(host: &str) -> (checked: Result<(), DnsError>)
    ensures
        match checked {
            Ok(_) => hostname_fault(octets(host)) is None,
            Err(error) => hostname_fault(octets(host)) matches Some(reason) && refuses_name(
                error,
                host@,
                reason,
            ),
        },
{
    match labels_of(host) {
        Ok(_) => Ok(()),
        Err(error) => Err(error),
    }
}

/// The two big-endian bytes of a word.
pub open spec fn word(value: u16) -> Seq<u8> {
    seq![(value / 256) as u8, (value % 256) as u8]
}

/// A name on the wire: each label behind its length, before the root's.
pub open spec fn encoded_labels(labels: Seq<Seq<u8>>) -> Seq<u8>
    decreases labels.len(),
{
    if labels.len() == 0 {
        Seq::empty()
    } else {
        encoded_labels(labels.drop_last()) + seq![labels.last().len() as u8] + labels.last()
    }
}

/// One recursive `A`/`IN` question for `host` under `id`.
pub open spec fn query(id: u16, host: Seq<u8>) -> Seq<u8> {
    word(id) + word(FLAG_RECURSION_DESIRED) + word(1) + word(0) + word(0) + word(0)
        + encoded_labels(labels_from(unqualified(host), 0)) + seq![0u8] + word(TYPE_A) + word(
        CLASS_IN,
    )
}

/// Appends the two big-endian bytes of a word.
fn push_word(out: &mut Vec<u8>, value: u16)
    ensures
        final(out)@ == old(out)@ + word(value),
{
    out.push((value / 256) as u8);
    out.push((value % 256) as u8);
    assert(out@ =~= old(out)@ + word(value));
}

/// Encodes one recursive `A`/`IN` question for `host` under `id`: read back, its name is the host.
pub fn encode_query(id: u16, host: &str) -> (encoded: Result<Vec<u8>, DnsError>)
    ensures
        match encoded {
            Ok(bytes) => {
                &&& hostname_fault(octets(host)) is None
                &&& bytes@ == query(id, octets(host))
                &&& name_at(bytes@, HEADER_BYTES as int, Seq::empty()) == Some(
                    (expected_name(octets(host)), bytes@.len() - QUESTION_TAIL_BYTES),
                )
            },
            Err(error) => hostname_fault(octets(host)) matches Some(reason) && refuses_name(
                error,
                host@,
                reason,
            ),
        },
{
    let labels = match labels_of(host) {
        Ok(labels) => labels,
        Err(error) => {
            return Err(error);
        },
    };
    let mut out: Vec<u8> = Vec::new();
    push_word(&mut out, id);
    push_word(&mut out, FLAG_RECURSION_DESIRED);
    push_word(&mut out, 1);
    push_word(&mut out, 0);
    push_word(&mut out, 0);
    push_word(&mut out, 0);
    let ghost header = out@;
    let ghost all = contents(labels@);
    let mut i: usize = 0;
    assert(out@ =~= header + encoded_labels(all.take(0)));
    while i < labels.len()
        invariant
            i <= labels.len(),
            all == contents(labels@),
            out@ == header + encoded_labels(all.take(i as int)),
        decreases labels.len() - i,
    {
        proof {
            assert(all.take(i + 1).drop_last() =~= all.take(i as int));
            assert(all.take(i + 1).last() == labels@[i as int]@);
        }
        out.push(labels[i].len() as u8);
        push_bytes(&mut out, labels[i].as_slice());
        i += 1;
        proof {
            assert(out@ =~= header + encoded_labels(all.take(i as int)));
        }
    }
    assert(all.take(i as int) =~= all);
    out.push(0);
    push_word(&mut out, TYPE_A);
    push_word(&mut out, CLASS_IN);
    assert(out@ =~= query(id, octets(host)));
    proof {
        a_query_reads_back_its_name(id, octets(host));
    }
    Ok(out)
}

/// The big-endian word at `at`, if the message holds both its bytes.
pub open spec fn word_at(bytes: Seq<u8>, at: int) -> Option<u16> {
    if 0 <= at && at + 1 < bytes.len() {
        Some((bytes[at] * 256 + bytes[at + 1]) as u16)
    } else {
        None
    }
}

/// The big-endian word at `at`, or the field's malformed error.
fn u16_at(bytes: &[u8], at: usize, field: &'static str) -> (read: Result<u16, DnsError>)
    ensures
        match word_at(bytes@, at as int) {
            Some(value) => read == Ok::<u16, DnsError>(value),
            None => read == Err::<u16, DnsError>(DnsError::Malformed { at: field }),
        },
{
    if at < bytes.len() && bytes.len() - at > 1 {
        Ok(bytes[at] as u16 * 256 + bytes[at + 1] as u16)
    } else {
        Err(DnsError::Malformed { at: field })
    }
}

/// An ASCII letter in lower case; any other byte as it is.
pub open spec fn lowered(byte: u8) -> u8 {
    if 65 <= byte <= 90 {
        (byte + 32) as u8
    } else {
        byte
    }
}

/// A wire byte as text, in lower case: its Latin-1 character's UTF-8 bytes.
pub open spec fn byte_text(byte: u8) -> Seq<u8> {
    if byte < 128 {
        seq![lowered(byte)]
    } else {
        seq![(0xC0 + byte / 64) as u8, (0x80 + byte % 64) as u8]
    }
}

/// A label as text, in lower case.
pub open spec fn label_text(label: Seq<u8>) -> Seq<u8>
    decreases label.len(),
{
    if label.len() == 0 {
        Seq::empty()
    } else {
        label_text(label.drop_last()) + byte_text(label.last())
    }
}

/// A name read so far, ready for a further label.
pub open spec fn joined(name: Seq<u8>) -> Seq<u8> {
    if name.len() == 0 {
        name
    } else {
        name.push(DOT)
    }
}

/// The name at `at`, behind what was read before it: its text, dotted and in lower case, and the
/// offset just past it in the message. A length octet of 0 ends the name; 1 to 63 opens a label; a
/// pointer continues the name strictly before itself, and the message goes on past the pointer.
/// Anything else, a label that leaves the message, or a text past 253 bytes is no name.
pub open spec fn name_at(bytes: Seq<u8>, at: int, name: Seq<u8>) -> Option<(Seq<u8>, int)>
    decreases
            (if name.len() <= MAX_NAME_BYTES {
                MAX_NAME_BYTES + 1 - name.len()
            } else {
                0
            }),
            at,
    via name_at_shrinks
{
    if !(0 <= at < bytes.len()) {
        None
    } else if bytes[at] >= POINTER_TAG {
        match word_at(bytes, at) {
            Some(pointer) => {
                let target = pointer % 0x4000;
                if target >= at {
                    None
                } else {
                    match name_at(bytes, target as int, name) {
                        Some((text, _)) => Some((text, at + 2)),
                        None => None,
                    }
                }
            },
            None => None,
        }
    } else if bytes[at] > MAX_LABEL_BYTES {
        None
    } else if bytes[at] == 0 {
        Some((name, at + 1))
    } else {
        let end = at + 1 + bytes[at];
        if end > bytes.len() || joined(name).len() + bytes[at] > MAX_NAME_BYTES {
            None
        } else {
            name_at(bytes, end, joined(name) + label_text(bytes.subrange(at + 1, end)))
        }
    }
}

/// A label's text is at least as long as the label.
proof fn lemma_label_text_grows(label: Seq<u8>)
    ensures
        label_text(label).len() >= label.len(),
    decreases label.len(),
{
    if label.len() > 0 {
        lemma_label_text_grows(label.drop_last());
    }
}

#[via_fn]
proof fn name_at_shrinks(bytes: Seq<u8>, at: int, name: Seq<u8>) {
    if 0 <= at < bytes.len() && 0 < bytes[at] <= MAX_LABEL_BYTES && at + 1 + bytes[at]
        <= bytes.len() {
        lemma_label_text_grows(bytes.subrange(at + 1, at + 1 + bytes[at]));
    }
}

/// Appends a label as text, in lower case.
fn push_label(name: &mut Vec<u8>, bytes: &[u8], start: usize, end: usize)
    requires
        start <= end <= bytes@.len(),
    ensures
        final(name)@ == old(name)@ + label_text(bytes@.subrange(start as int, end as int)),
{
    let mut i: usize = start;
    proof {
        assert(bytes@.subrange(start as int, start as int) =~= Seq::<u8>::empty());
        assert(name@ =~= old(name)@ + label_text(bytes@.subrange(start as int, i as int)));
    }
    while i < end
        invariant
            start <= i <= end <= bytes@.len(),
            name@ == old(name)@ + label_text(bytes@.subrange(start as int, i as int)),
        decreases end - i,
    {
        let byte: u8 = bytes[i];
        proof {
            let longer = bytes@.subrange(start as int, i + 1);
            assert(longer.drop_last() =~= bytes@.subrange(start as int, i as int));
            assert(longer.last() == byte);
        }
        if byte < 128 {
            if 65 <= byte && byte <= 90 {
                name.push(byte + 32);
            } else {
                name.push(byte);
            }
        } else {
            name.push(0xC0 + byte / 64);
            name.push(0x80 + byte % 64);
        }
        i += 1;
        proof {
            assert(name@ =~= old(name)@ + label_text(bytes@.subrange(start as int, i as int)));
        }
    }
}

/// A name ends behind its first octet, within the message; one that begins with a pointer ends right
/// behind the pointer, which points strictly before itself.
pub proof fn a_name_ends_within_its_message(bytes: Seq<u8>, at: int, name: Seq<u8>)
    ensures
        name_at(bytes, at, name) matches Some((text, end)) ==> {
            &&& 0 <= at < end <= bytes.len()
            &&& name.is_prefix_of(text)
            &&& bytes[at] >= POINTER_TAG ==> end == at + 2 && word_at(bytes, at) is Some
                && word_at(bytes, at)->0 % 0x4000 < at
        },
    decreases
            (if name.len() <= MAX_NAME_BYTES {
                MAX_NAME_BYTES + 1 - name.len()
            } else {
                0
            }),
            at,
{
    if !(0 <= at < bytes.len()) {
    } else if bytes[at] >= POINTER_TAG {
        if let Some(pointer) = word_at(bytes, at) {
            if pointer % 0x4000 < at {
                a_name_ends_within_its_message(bytes, (pointer % 0x4000) as int, name);
            }
        }
    } else if 0 < bytes[at] <= MAX_LABEL_BYTES {
        let end = at + 1 + bytes[at];
        if end <= bytes.len() && joined(name).len() + bytes[at] <= MAX_NAME_BYTES {
            let label = bytes.subrange(at + 1, end);
            lemma_label_text_grows(label);
            let longer = joined(name) + label_text(label);
            a_name_ends_within_its_message(bytes, end, longer);
            assert(name.is_prefix_of(longer));
        }
    }
}

/// What reading the name at `at` behind the text `before` comes to: the text after it, and the
/// offset just past the name in the message. What was read before stays, on a fault too.
pub open spec fn reads_name(
    bytes: Seq<u8>,
    at: int,
    before: Seq<u8>,
    after: Seq<u8>,
    past: Result<usize, DnsError>,
) -> bool {
    &&& before.is_prefix_of(after)
    &&& match name_at(bytes, at, before) {
        Some((text, end)) => past matches Ok(offset) && offset == end && after == text,
        None => past == Err::<usize, DnsError>(DnsError::Malformed { at: "name" }),
    }
}

/// Reads the name at `at` into `name`, behind what it holds, as lower-case dotted text, and returns
/// the offset just past it in the message: past the pointer's two octets where the name ends in a
/// pointer.
pub fn read_name(bytes: &[u8], at: usize, name: &mut Vec<u8>) -> (past: Result<usize, DnsError>)
    ensures
        reads_name(bytes@, at as int, old(name)@, final(name)@, past),
        past matches Ok(offset) ==> at < offset <= bytes@.len(),
{
    let mut cursor: usize = at;
    let mut next: Option<usize> = None;
    let ghost held = name@;
    let ghost whole = name_at(bytes@, at as int, held);
    proof {
        a_name_ends_within_its_message(bytes@, at as int, held);
    }
    loop
        invariant
            held == old(name)@,
            whole == name_at(bytes@, at as int, held),
            held.is_prefix_of(name@),
            whole matches Some((text, end)) ==> at < end <= bytes@.len(),
            next matches Some(past) ==> past <= bytes@.len(),
            match (whole, name_at(bytes@, cursor as int, name@)) {
                (Some((text, end)), Some((rest_text, rest_end))) => text == rest_text && end == (
                match next {
                    Some(past) => past as int,
                    None => rest_end,
                }),
                (None, None) => true,
                _ => false,
            },
        decreases
                (if name@.len() <= MAX_NAME_BYTES {
                    MAX_NAME_BYTES + 1 - name@.len()
                } else {
                    0
                }),
                cursor,
    {
        if cursor >= bytes.len() {
            return Err(DnsError::Malformed { at: "name" });
        }
        let length: u8 = bytes[cursor];
        if length >= POINTER_TAG {
            if bytes.len() - cursor <= 1 {
                return Err(DnsError::Malformed { at: "name" });
            }
            let low: u8 = bytes[cursor + 1];
            let target: usize = (length - POINTER_TAG) as usize * 256 + low as usize;
            proof {
                let pointer = (length * 256 + low) as u16;
                assert(pointer % 0x4000 == target);
            }
            if target >= cursor {
                return Err(DnsError::Malformed { at: "name" });
            }
            if next.is_none() {
                next = Some(cursor + 2);
            }
            cursor = target;
            continue ;
        }
        if length as usize > MAX_LABEL_BYTES {
            return Err(DnsError::Malformed { at: "name" });
        }
        if length == 0 {
            return match next {
                Some(past) => Ok(past),
                None => Ok(cursor + 1),
            };
        }
        let start: usize = cursor + 1;
        if length as usize > bytes.len() - start {
            return Err(DnsError::Malformed { at: "name" });
        }
        let end: usize = start + length as usize;
        let ghost before = name@;
        if name.len() > 0 {
            name.push(DOT);
        }
        assert(name@ =~= joined(before));
        if name.len() > MAX_NAME_BYTES || name.len() + length as usize > MAX_NAME_BYTES {
            return Err(DnsError::Malformed { at: "name" });
        }
        push_label(name, bytes, start, end);
        proof {
            lemma_label_text_grows(bytes@.subrange(start as int, end as int));
        }
        cursor = end;
    }
}

/// A field that does not decode.
pub open spec fn malformed(at: &'static str) -> Result<Ipv4Addr, DnsError> {
    Err(DnsError::Malformed { at })
}

/// The first `A`/`IN` record of four data bytes among the next `count` records from `cursor`.
pub open spec fn first_address(bytes: Seq<u8>, cursor: int, count: nat) -> Result<
    Ipv4Addr,
    DnsError,
>
    decreases count,
{
    if count == 0 {
        Err(DnsError::NoAddress)
    } else {
        match name_at(bytes, cursor, Seq::empty()) {
            None => malformed("name"),
            Some((_, at)) => {
                let record_type = word_at(bytes, at);
                let class = word_at(bytes, at + 2);
                let rdlength = word_at(bytes, at + RDLENGTH_OFFSET);
                let start = at + RECORD_FIXED_BYTES;
                if record_type is None {
                    malformed("type")
                } else if class is None {
                    malformed("class")
                } else if rdlength is None {
                    malformed("rdlength")
                } else if start + rdlength->0 > bytes.len() {
                    malformed("rdata")
                } else if record_type == Some(TYPE_A) && class == Some(CLASS_IN) && rdlength
                    == Some(A_RDATA_BYTES) {
                    Ok(
                        Ipv4Addr(
                            bytes[start],
                            bytes[start + 1],
                            bytes[start + 2],
                            bytes[start + 3],
                        ),
                    )
                } else {
                    first_address(bytes, start + rdlength->0, (count - 1) as nat)
                }
            },
        }
    }
}

/// The offset just past the data of the first `A`/`IN` record among the next `count` from `cursor`.
pub open spec fn address_end(bytes: Seq<u8>, cursor: int, count: nat) -> int
    decreases count,
{
    if count == 0 {
        cursor
    } else {
        match name_at(bytes, cursor, Seq::empty()) {
            None => cursor,
            Some((_, at)) => match word_at(bytes, at + RDLENGTH_OFFSET) {
                None => cursor,
                Some(rdlength) => {
                    let past = at + RECORD_FIXED_BYTES + rdlength;
                    if word_at(bytes, at) == Some(TYPE_A) && word_at(bytes, at + 2) == Some(CLASS_IN)
                        && rdlength == A_RDATA_BYTES {
                        past
                    } else {
                        address_end(bytes, past, (count - 1) as nat)
                    }
                },
            },
        }
    }
}

/// The offset just past the address a reply gives.
pub open spec fn reply_end(bytes: Seq<u8>) -> int {
    match (name_at(bytes, HEADER_BYTES as int, Seq::empty()), word_at(bytes, ANCOUNT_OFFSET as int)) {
        (Some((_, cursor)), Some(answers)) => address_end(
            bytes,
            cursor + QUESTION_TAIL_BYTES,
            answers as nat,
        ),
        _ => 0,
    }
}

/// A host name as the echoed question must spell it: without its trailing dot, in lower case.
pub open spec fn expected_name(host: Seq<u8>) -> Seq<u8> {
    unqualified(host).map_values(|byte: u8| lowered(byte))
}

/// What a reply says past its header and question name.
pub open spec fn answer_past_name(bytes: Seq<u8>, cursor: int, answers: u16) -> Result<
    Ipv4Addr,
    DnsError,
> {
    let question_type = word_at(bytes, cursor);
    let class = word_at(bytes, cursor + 2);
    if question_type is None {
        malformed("qtype")
    } else if question_type != Some(TYPE_A) {
        malformed("question")
    } else if class is None {
        malformed("qclass")
    } else if class != Some(CLASS_IN) {
        malformed("question")
    } else {
        first_address(bytes, cursor + QUESTION_TAIL_BYTES, answers as nat)
    }
}

/// What a reply says to the query `id` for `host`: the first fault in reading order, the
/// nameserver's refusal, or the first address of the answer section.
pub open spec fn answer(id: u16, host: Seq<u8>, bytes: Seq<u8>) -> Result<Ipv4Addr, DnsError> {
    if word_at(bytes, 0) != Some(id) {
        malformed("id")
    } else {
        let flags = word_at(bytes, FLAGS_OFFSET as int);
        let questions = word_at(bytes, QDCOUNT_OFFSET as int);
        let answers = word_at(bytes, ANCOUNT_OFFSET as int);
        if flags is None || flags->0 < FLAG_REPLY {
            malformed("flags")
        } else if flags->0 % RCODE_RANGE != 0 {
            Err(DnsError::Refused { rcode: (flags->0 % RCODE_RANGE) as u8 })
        } else if questions is None {
            malformed("qdcount")
        } else if answers is None {
            malformed("ancount")
        } else if questions != Some(1u16) {
            malformed("qdcount")
        } else {
            match name_at(bytes, HEADER_BYTES as int, Seq::empty()) {
                None => malformed("name"),
                Some((asked, cursor)) => if asked != expected_name(host) {
                    malformed("question name")
                } else {
                    answer_past_name(bytes, cursor, answers->0)
                },
            }
        }
    }
}

/// The name the echoed question must spell.
fn expected_question(host: &str) -> (expected: Vec<u8>)
    ensures
        expected@ == expected_name(octets(host)),
{
    let bytes = host.as_bytes();
    let length: usize = if bytes.len() > 0 && bytes[bytes.len() - 1] == DOT {
        bytes.len() - 1
    } else {
        bytes.len()
    };
    let ghost name = unqualified(bytes@);
    assert(name =~= bytes@.take(length as int));
    let mut expected: Vec<u8> = Vec::new();
    let mut i: usize = 0;
    while i < length
        invariant
            i <= length <= bytes@.len(),
            name == bytes@.take(length as int),
            expected@.len() == i,
            forall|j: int| 0 <= j < i ==> expected@[j] == lowered(name[j]),
        decreases length - i,
    {
        let byte: u8 = bytes[i];
        if 65 <= byte && byte <= 90 {
            expected.push(byte + 32);
        } else {
            expected.push(byte);
        }
        i += 1;
    }
    assert(expected@ =~= expected_name(octets(host)));
    expected
}

/// The first address among the answers.
fn read_answers(bytes: &[u8], start: usize, answers: u16) -> (read: Result<Ipv4Addr, DnsError>)
    ensures
        read == first_address(bytes@, start as int, answers as nat),
{
    let mut cursor: usize = start;
    let mut left: u16 = answers;
    while left > 0
        invariant
            first_address(bytes@, cursor as int, left as nat) == first_address(
                bytes@,
                start as int,
                answers as nat,
            ),
        decreases left,
    {
        let mut owner: Vec<u8> = Vec::new();
        let at: usize = match read_name(bytes, cursor, &mut owner) {
            Ok(at) => at,
            Err(error) => {
                return Err(error);
            },
        };
        let record_type: u16 = match u16_at(bytes, at, "type") {
            Ok(value) => value,
            Err(error) => {
                return Err(error);
            },
        };
        let class: u16 = match u16_at(bytes, at.saturating_add(2), "class") {
            Ok(value) => value,
            Err(error) => {
                return Err(error);
            },
        };
        let rdlength: u16 = match u16_at(bytes, at.saturating_add(RDLENGTH_OFFSET), "rdlength") {
            Ok(value) => value,
            Err(error) => {
                return Err(error);
            },
        };
        let rest: usize = bytes.len() - at;
        if rest < RECORD_FIXED_BYTES || rest - RECORD_FIXED_BYTES < rdlength as usize {
            return Err(DnsError::Malformed { at: "rdata" });
        }
        let data: usize = at + RECORD_FIXED_BYTES;
        if record_type == TYPE_A && class == CLASS_IN && rdlength == A_RDATA_BYTES {
            return Ok(Ipv4Addr::new(bytes[data], bytes[data + 1], bytes[data + 2], bytes[data + 3]));
        }
        cursor = data + rdlength as usize;
        left -= 1;
    }
    Err(DnsError::NoAddress)
}

/// Decodes the reply to the query `id` for `host`: checks the id and the reply flag, the reply
/// code, that the echoed question is the one asked, and returns the first `A`/`IN` record's
/// address. A reply for another query is refused at its id, so an asker keeps waiting.
pub fn decode_answer(id: u16, host: &str, bytes: &[u8]) -> (decoded: Result<Ipv4Addr, DnsError>)
    ensures
        decoded == answer(id, octets(host), bytes@),
{
    assert(bytes@.len() == bytes.len());
    match u16_at(bytes, 0, "id") {
        Ok(value) => {
            if value != id {
                return Err(DnsError::Malformed { at: "id" });
            }
        },
        Err(error) => {
            return Err(error);
        },
    }
    let flags: u16 = match u16_at(bytes, FLAGS_OFFSET, "flags") {
        Ok(value) => value,
        Err(error) => {
            return Err(error);
        },
    };
    if flags < FLAG_REPLY {
        return Err(DnsError::Malformed { at: "flags" });
    }
    let rcode: u16 = flags % RCODE_RANGE;
    if rcode != 0 {
        return Err(DnsError::Refused { rcode: rcode as u8 });
    }
    let questions: u16 = match u16_at(bytes, QDCOUNT_OFFSET, "qdcount") {
        Ok(value) => value,
        Err(error) => {
            return Err(error);
        },
    };
    let answers: u16 = match u16_at(bytes, ANCOUNT_OFFSET, "ancount") {
        Ok(value) => value,
        Err(error) => {
            return Err(error);
        },
    };
    if questions != 1 {
        return Err(DnsError::Malformed { at: "qdcount" });
    }
    let mut asked: Vec<u8> = Vec::new();
    let cursor: usize = match read_name(bytes, HEADER_BYTES, &mut asked) {
        Ok(cursor) => cursor,
        Err(error) => {
            return Err(error);
        },
    };
    let expected = expected_question(host);
    if !same_bytes(asked.as_slice(), expected.as_slice()) {
        return Err(DnsError::Malformed { at: "question name" });
    }
    match u16_at(bytes, cursor, "qtype") {
        Ok(value) => {
            if value != TYPE_A {
                return Err(DnsError::Malformed { at: "question" });
            }
        },
        Err(error) => {
            return Err(error);
        },
    }
    match u16_at(bytes, cursor.saturating_add(2), "qclass") {
        Ok(value) => {
            if value != CLASS_IN {
                return Err(DnsError::Malformed { at: "question" });
            }
        },
        Err(error) => {
            return Err(error);
        },
    }
    read_answers(bytes, cursor.saturating_add(QUESTION_TAIL_BYTES), answers)
}

/// The bytes a query id is drawn from: the clock, the host and the attempt.
pub open spec fn query_id_input(now_ns: u64, host: Seq<u8>, attempt: u32) -> Seq<u8> {
    le_bytes(now_ns as nat, 8) + host + le_bytes(attempt as nat, 4)
}

/// The identity of a query.
pub open spec fn query_identity(now_ns: u64, host: Seq<u8>, attempt: u32) -> nat {
    little_endian(
        blake3_digest(query_id_input(now_ns, host, attempt)).take(2),
    )
}

/// A query id for `host` on `attempt` at `now_ns`: sixteen bits of the digest of the clock, the
/// host and the attempt, so that a late reply to an earlier attempt is not taken for this one.
pub fn query_id(now_ns: u64, host: &str, attempt: u32) -> (id: u16)
    ensures
        id == query_identity(now_ns, octets(host), attempt),
{
    let mut input: Vec<u8> = Vec::new();
    push_le_bytes(&mut input, now_ns, 8);
    push_bytes(&mut input, host.as_bytes());
    push_le_bytes(&mut input, attempt as u64, 4);
    assert(input@ =~= query_id_input(now_ns, octets(host), attempt));
    short_id_of_digest(&hash(input.as_slice()))
}

/// What an asker's wait ended with.
pub enum Heard {
    /// The wait ran out.
    Nothing,
    /// The runtime refused the receive, in its own words.
    Fault(String),
    /// A datagram arrived.
    Datagram { from: SocketAddrV4, bytes: Vec<u8> },
}

/// What an asker does next.
#[derive(Debug)]
pub enum AskStep {
    /// Wait on, within the same deadline.
    Wait,
    /// The query timed out.
    TimedOut,
    /// The nameserver answered.
    Resolved(Ipv4Addr),
    /// The query failed for good.
    Failed(DnsError),
}

/// One query to one nameserver, its reply awaited until a deadline.
#[derive(Clone, Copy, Debug)]
pub struct Ask {
    pub id: u16,
    pub nameserver: SocketAddrV4,
    pub deadline_ns: u64,
}

impl Ask {
    /// Whether `ask` is a query that was just sent.
    pub open spec fn sends(resolver: Resolver, id: u16, nameserver: SocketAddrV4, now_ns: u64, ask: Ask) -> bool {
        &&& ask.id == id
        &&& ask.nameserver == nameserver
        &&& ask.deadline_ns == crate::arith::clamp_u64(now_ns + resolver.timeout_ns)
    }

    /// A query sent at `now_ns` under `id`.
    pub fn sent(resolver: &Resolver, id: u16, nameserver: SocketAddrV4, now_ns: u64) -> (ask: Ask)
        ensures
            Self::sends(*resolver, id, nameserver, now_ns, ask),
    {
        Ask { id, nameserver, deadline_ns: now_ns.saturating_add(resolver.timeout_ns) }
    }

    /// How long an answer is still waited for.
    pub open spec fn waits(&self, now_ns: u64) -> Option<u64> {
        if now_ns < self.deadline_ns {
            Some((self.deadline_ns - now_ns) as u64)
        } else {
            None
        }
    }

    /// How much longer to wait at `now_ns`; none once the deadline is reached.
    pub fn remaining(&self, now_ns: u64) -> (wait_ns: Option<u64>)
        ensures
            wait_ns == self.waits(now_ns),
    {
        if now_ns < self.deadline_ns {
            Some(self.deadline_ns - now_ns)
        } else {
            None
        }
    }

    /// What the asker does with what it heard: a datagram from elsewhere and a reply to another
    /// query are waited through; an answer, a refusal or a malformed reply ends the query.
    pub open spec fn heard_step(&self, host: Seq<u8>, heard: Heard) -> AskStep {
        match heard {
            Heard::Nothing => AskStep::TimedOut,
            Heard::Fault(detail) => AskStep::Failed(DnsError::Io(detail)),
            Heard::Datagram { from, bytes } => if from != self.nameserver {
                AskStep::Wait
            } else {
                match answer(self.id, host, bytes@) {
                    Ok(address) => AskStep::Resolved(address),
                    Err(error) => if word_at(bytes@, 0) != Some(self.id) {
                        AskStep::Wait
                    } else {
                        AskStep::Failed(error)
                    },
                }
            },
        }
    }

    /// What the asker does with what it heard.
    pub fn heard(&self, host: &str, heard: Heard) -> (step: AskStep)
        ensures
            step == self.heard_step(octets(host), heard),
    {
        match heard {
            Heard::Nothing => AskStep::TimedOut,
            Heard::Fault(detail) => AskStep::Failed(DnsError::Io(detail)),
            Heard::Datagram { from, bytes } => {
                if from != self.nameserver {
                    return AskStep::Wait;
                }
                let for_this_query = match u16_at(bytes.as_slice(), 0, "id") {
                    Ok(value) => value == self.id,
                    Err(_) => false,
                };
                match decode_answer(self.id, host, bytes.as_slice()) {
                    Ok(address) => AskStep::Resolved(address),
                    Err(error) => if for_this_query {
                        AskStep::Failed(error)
                    } else {
                        AskStep::Wait
                    },
                }
            },
        }
    }
}

/// A lookup in progress: the round it is in and the nameserver it asks next.
#[derive(Clone, Copy, Debug)]
pub struct Lookup {
    pub attempt: u32,
    pub server: usize,
}

/// What a lookup does next.
#[derive(Debug)]
pub enum LookupStep {
    /// Ask the nameserver the lookup stands at.
    Ask(Lookup),
    /// The lookup is over.
    Done(Result<Ipv4Addr, DnsError>),
}

/// What one query to one nameserver came to.
pub enum AskOutcome {
    TimedOut,
    Resolved(Ipv4Addr),
    Failed(DnsError),
}

impl Resolver {
    /// The rounds a lookup makes.
    pub open spec fn rounds(&self) -> int {
        crate::arith::larger(self.attempts as int, 1)
    }
}

impl Lookup {
    /// The lookup stands at a nameserver of a round yet to be made.
    pub open spec fn in_progress(&self, resolver: Resolver) -> bool {
        self.attempt < resolver.rounds() && self.server < resolver.nameservers@.len()
    }

    /// The queries the lookup has yet to make: this one, the rest of its round, and every later
    /// round.
    pub open spec fn queries_left(&self, resolver: Resolver) -> int {
        (resolver.rounds() - self.attempt) * resolver.nameservers@.len() - self.server
    }

    /// Whether `step` is how a lookup starts.
    pub open spec fn starts(resolver: Resolver, step: LookupStep) -> bool {
        &&& resolver.nameservers@.len() == 0 ==> step == LookupStep::Done(
            Err(DnsError::NoNameserver),
        )
        &&& resolver.nameservers@.len() > 0 ==> {
            &&& step == LookupStep::Ask(Lookup { attempt: 0, server: 0 })
            &&& (step->Ask_0).in_progress(resolver)
            &&& (step->Ask_0).queries_left(resolver) == resolver.rounds()
                * resolver.nameservers@.len()
        }
    }

    /// Where a lookup starts: the first nameserver of the first round, or refused with none.
    pub fn start(resolver: &Resolver) -> (step: LookupStep)
        ensures
            Self::starts(*resolver, step),
    {
        if resolver.nameservers.len() == 0 {
            return LookupStep::Done(Err(DnsError::NoNameserver));
        }
        LookupStep::Ask(Lookup { attempt: 0, server: 0 })
    }

    /// The nameserver the lookup stands at.
    pub fn nameserver(&self, resolver: &Resolver) -> (nameserver: SocketAddrV4)
        requires
            self.in_progress(*resolver),
        ensures
            nameserver == resolver.nameservers@[self.server as int],
    {
        resolver.nameservers[self.server]
    }

    /// Whether `step` is what an outcome makes of a lookup.
    pub open spec fn goes_on(&self, resolver: Resolver, outcome: AskOutcome, step: LookupStep) -> bool {
        match outcome {
            AskOutcome::Resolved(address) => step == LookupStep::Done(Ok(address)),
            AskOutcome::Failed(error) => step == LookupStep::Done(Err(error)),
            AskOutcome::TimedOut => if self.queries_left(resolver) == 1 {
                step == LookupStep::Done(
                    Err(
                        DnsError::Timeout {
                            nameserver: resolver.nameservers@.last(),
                            attempts: resolver.rounds() as u32,
                        },
                    ),
                )
            } else {
                &&& step matches LookupStep::Ask(next)
                &&& next.in_progress(resolver)
                &&& next.queries_left(resolver) == self.queries_left(resolver) - 1
                &&& next == (if self.server + 1 < resolver.nameservers@.len() {
                    Lookup { attempt: self.attempt, server: (self.server + 1) as usize }
                } else {
                    Lookup { attempt: (self.attempt + 1) as u32, server: 0 }
                })
            },
        }
    }

    /// The lookup after the query it stands at: an answer wins, a failure ends it at once, and a
    /// timeout moves on to the next nameserver, then to the next round, until every query of every
    /// round has timed out.
    pub fn after(&self, resolver: &Resolver, outcome: AskOutcome) -> (step: LookupStep)
        requires
            self.in_progress(*resolver),
        ensures
            self.goes_on(*resolver, outcome, step),
    {
        match outcome {
            AskOutcome::Resolved(address) => LookupStep::Done(Ok(address)),
            AskOutcome::Failed(error) => LookupStep::Done(Err(error)),
            AskOutcome::TimedOut => {
                let servers: usize = resolver.nameservers.len();
                let rounds: u32 = if resolver.attempts >= 1 {
                    resolver.attempts
                } else {
                    1
                };
                let ghost n = servers as int;
                let ghost left = rounds - self.attempt;
                if self.server + 1 < servers {
                    proof {
                        assert(left * n >= n) by (nonlinear_arith)
                            requires
                                left >= 1,
                                n >= 1,
                        ;
                    }
                    return LookupStep::Ask(
                        Lookup { attempt: self.attempt, server: self.server + 1 },
                    );
                }
                if self.attempt + 1 < rounds {
                    proof {
                        assert(left * n - (n - 1) - 1 == (left - 1) * n) by (nonlinear_arith);
                        assert((left - 1) * n >= 1) by (nonlinear_arith)
                            requires
                                left >= 2,
                                n >= 1,
                        ;
                    }
                    return LookupStep::Ask(Lookup { attempt: self.attempt + 1, server: 0 });
                }
                proof {
                    assert(left == 1);
                    assert(left * n == n) by (nonlinear_arith)
                        requires
                            left == 1,
                    ;
                }
                LookupStep::Done(
                    Err(
                        DnsError::Timeout {
                            nameserver: resolver.nameservers[servers - 1],
                            attempts: rounds,
                        },
                    ),
                )
            },
        }
    }
}

/// A pointer is taken only strictly backwards: a name whose first octet is a pointer at or past its
/// own position is no name, so a message cannot send its reader forward or in place.
pub proof fn a_forward_pointer_is_no_name(bytes: Seq<u8>, at: int, name: Seq<u8>)
    requires
        0 <= at < bytes.len(),
        bytes[at] >= POINTER_TAG,
        word_at(bytes, at) matches Some(pointer) ==> pointer % 0x4000 >= at,
    ensures
        name_at(bytes, at, name) is None,
{
}

/// The name a query encodes is the name a reader gets back from it, in lower case, and the reader
/// stands at the question's type after it.
pub proof fn a_query_reads_back_its_name(id: u16, host: Seq<u8>)
    requires
        hostname_fault(host) is None,
    ensures
        name_at(query(id, host), HEADER_BYTES as int, Seq::empty()) == Some(
            (expected_name(host), query(id, host).len() - QUESTION_TAIL_BYTES),
        ),
{
    let name = unqualified(host);
    let bytes = query(id, host);
    let labels = labels_from(name, 0);
    let head = word(id) + word(FLAG_RECURSION_DESIRED) + word(1) + word(0) + word(0) + word(0);
    let tail = seq![0u8] + word(TYPE_A) + word(CLASS_IN);
    assert(bytes =~= head + encoded_labels(labels) + tail);
    assert(expected_name(host) =~= lowered_text(name));
    lemma_labels_shape(name, 0);
    lemma_reads_labels(bytes, head, name, 0, labels, tail);
    assert(encoded_labels(labels.take(0)) =~= Seq::<u8>::empty());
    assert(joined_text(name, 0) =~= Seq::<u8>::empty());
}

/// Reading the name of an encoded query gives its host back: into an empty text, without the host's
/// trailing dot and in lower case, up to the question's type.
pub proof fn reading_a_query_gives_its_host_back(
    id: u16,
    host: Seq<u8>,
    after: Seq<u8>,
    past: Result<usize, DnsError>,
)
    requires
        hostname_fault(host) is None,
        reads_name(query(id, host), HEADER_BYTES as int, Seq::empty(), after, past),
    ensures
        past matches Ok(offset) && offset == query(id, host).len() - QUESTION_TAIL_BYTES,
        after == expected_name(host),
{
    a_query_reads_back_its_name(id, host);
}

/// A word of a message's beginning is the message's word.
proof fn lemma_word_in_prefix(bytes: Seq<u8>, cut: int, at: int)
    requires
        0 <= cut <= bytes.len(),
    ensures
        word_at(bytes.take(cut), at) matches Some(value) ==> word_at(bytes, at) == Some(value),
{
}

/// A name read from a message's beginning is the name the message has there.
proof fn lemma_name_in_prefix(bytes: Seq<u8>, cut: int, at: int, name: Seq<u8>)
    requires
        0 <= cut <= bytes.len(),
    ensures
        name_at(bytes.take(cut), at, name) matches Some(read) ==> name_at(bytes, at, name) == Some(
            read,
        ),
    decreases
            (if name.len() <= MAX_NAME_BYTES {
                MAX_NAME_BYTES + 1 - name.len()
            } else {
                0
            }),
            at,
{
    let short = bytes.take(cut);
    if !(0 <= at < short.len()) {
    } else if short[at] >= POINTER_TAG {
        if let Some(pointer) = word_at(short, at) {
            lemma_word_in_prefix(bytes, cut, at);
            if pointer % 0x4000 < at {
                lemma_name_in_prefix(bytes, cut, (pointer % 0x4000) as int, name);
            }
        }
    } else if 0 < short[at] <= MAX_LABEL_BYTES {
        let end = at + 1 + short[at];
        if end <= short.len() && joined(name).len() + short[at] <= MAX_NAME_BYTES {
            let label = short.subrange(at + 1, end);
            assert(label =~= bytes.subrange(at + 1, end));
            lemma_label_text_grows(label);
            lemma_name_in_prefix(bytes, cut, end, joined(name) + label_text(label));
        }
    }
}

/// An address found in a message's beginning is the message's, and ends in that beginning.
proof fn lemma_address_in_prefix(bytes: Seq<u8>, cut: int, cursor: int, count: nat)
    requires
        0 <= cut <= bytes.len(),
    ensures
        first_address(bytes.take(cut), cursor, count) matches Ok(address) ==> {
            &&& first_address(bytes, cursor, count) == Ok::<Ipv4Addr, DnsError>(address)
            &&& address_end(bytes, cursor, count) <= cut
        },
    decreases count,
{
    let short = bytes.take(cut);
    if count > 0 && first_address(short, cursor, count) is Ok {
        lemma_name_in_prefix(bytes, cut, cursor, Seq::empty());
        let (text, at) = name_at(short, cursor, Seq::empty())->0;
        lemma_word_in_prefix(bytes, cut, at);
        lemma_word_in_prefix(bytes, cut, at + 2);
        lemma_word_in_prefix(bytes, cut, at + RDLENGTH_OFFSET);
        let rdlength = word_at(short, at + RDLENGTH_OFFSET)->0;
        lemma_address_in_prefix(
            bytes,
            cut,
            at + RECORD_FIXED_BYTES + rdlength,
            (count - 1) as nat,
        );
    }
}

/// A truncated reply is refused: what is left of a reply cut before the end of the address it gives
/// decodes to no address; and what is left of any reply never decodes to another address than the
/// whole.
pub proof fn a_truncated_reply_is_refused(id: u16, host: Seq<u8>, bytes: Seq<u8>, cut: int)
    requires
        0 <= cut <= bytes.len(),
    ensures
        answer(id, host, bytes.take(cut)) matches Ok(address) ==> answer(id, host, bytes) == Ok::<
            Ipv4Addr,
            DnsError,
        >(address),
        cut < reply_end(bytes) ==> answer(id, host, bytes.take(cut)) is Err,
{
    let short = bytes.take(cut);
    if answer(id, host, short) is Ok {
        lemma_word_in_prefix(bytes, cut, 0);
        lemma_word_in_prefix(bytes, cut, FLAGS_OFFSET as int);
        lemma_word_in_prefix(bytes, cut, QDCOUNT_OFFSET as int);
        lemma_word_in_prefix(bytes, cut, ANCOUNT_OFFSET as int);
        lemma_name_in_prefix(bytes, cut, HEADER_BYTES as int, Seq::empty());
        let (asked, cursor) = name_at(short, HEADER_BYTES as int, Seq::empty())->0;
        let answers = word_at(short, ANCOUNT_OFFSET as int)->0;
        lemma_word_in_prefix(bytes, cut, cursor);
        lemma_word_in_prefix(bytes, cut, cursor + 2);
        lemma_address_in_prefix(bytes, cut, cursor + QUESTION_TAIL_BYTES, answers as nat);
    }
}

/// A name in lower case.
spec fn lowered_text(name: Seq<u8>) -> Seq<u8> {
    name.map_values(|byte: u8| lowered(byte))
}

/// The part of a name before `from`, in lower case and without the dot that ends it.
spec fn joined_text(name: Seq<u8>, from: int) -> Seq<u8> {
    if from <= 0 {
        Seq::empty()
    } else {
        lowered_text(name.take(from - 1))
    }
}

/// A label of letters, digits and hyphens is its own text, in lower case.
proof fn lemma_plain_label_text(label: Seq<u8>)
    requires
        forall|i: int| 0 <= i < label.len() ==> is_label_byte(label[i]),
    ensures
        label_text(label) == lowered_text(label),
    decreases label.len(),
{
    if label.len() == 0 {
        assert(label_text(label) =~= lowered_text(label));
    } else {
        lemma_plain_label_text(label.drop_last());
        assert(is_label_byte(label.last()));
        assert(label_text(label) =~= lowered_text(label));
    }
}

/// There is at least one label.
proof fn lemma_labels_shape(name: Seq<u8>, from: int)
    requires
        0 <= from <= name.len(),
    ensures
        labels_from(name, from).len() >= 1,
{
    lemma_next_dot(name, from);
}

/// The labels' wire form splits at any label.
proof fn lemma_encoded_split(first: Seq<u8>, rest: Seq<Seq<u8>>)
    ensures
        encoded_labels(seq![first] + rest) == seq![first.len() as u8] + first + encoded_labels(
            rest,
        ),
    decreases rest.len(),
{
    let all = seq![first] + rest;
    if rest.len() == 0 {
        assert(all.drop_last() =~= Seq::<Seq<u8>>::empty());
        assert(encoded_labels(all.drop_last()) =~= Seq::<u8>::empty());
        assert(encoded_labels(all) =~= seq![first.len() as u8] + first + encoded_labels(rest));
    } else {
        lemma_encoded_split(first, rest.drop_last());
        assert(all.drop_last() =~= seq![first] + rest.drop_last());
        assert(encoded_labels(all) =~= seq![first.len() as u8] + first + encoded_labels(rest));
    }
}

/// The text before a label, joined to the label's, is the text up to the label's end.
proof fn lemma_joined_text(name: Seq<u8>, from: int, dot: int)
    requires
        0 <= from <= dot <= name.len(),
        from > 0 ==> from >= 2 && name[from - 1] == DOT,
    ensures
        joined(joined_text(name, from)) + lowered_text(name.subrange(from, dot)) == lowered_text(
            name.take(dot),
        ),
        from == 0 ==> joined(joined_text(name, from)).len() == 0,
        from > 0 ==> joined(joined_text(name, from)).len() == from,
{
    assert(joined(joined_text(name, from)) + lowered_text(name.subrange(from, dot))
        =~= lowered_text(name.take(dot)));
}

/// One label on the wire, read behind `prefix`.
proof fn lemma_reads_one_label(
    bytes: Seq<u8>,
    head: Seq<u8>,
    label: Seq<u8>,
    after: Seq<u8>,
    prefix: Seq<u8>,
)
    requires
        bytes == head + (seq![label.len() as u8] + label) + after,
        0 < label.len() <= MAX_LABEL_BYTES,
        joined(prefix).len() + label.len() <= MAX_NAME_BYTES,
    ensures
        name_at(bytes, head.len() as int, prefix) == name_at(
            bytes,
            (head.len() + 1 + label.len()) as int,
            joined(prefix) + label_text(label),
        ),
{
    let at = head.len() as int;
    let end = at + 1 + label.len();
    assert(bytes[at] == label.len() as u8);
    assert(bytes.subrange(at + 1, end) =~= label);
}

/// Reading the wire form of the labels from `from` on, behind the text before them, gives the whole
/// name's text.
#[verifier::rlimit(40)]
#[verifier::spinoff_prover]
proof fn lemma_reads_labels(
    bytes: Seq<u8>,
    head: Seq<u8>,
    name: Seq<u8>,
    from: int,
    labels: Seq<Seq<u8>>,
    tail: Seq<u8>,
)
    requires
        0 <= from <= name.len() <= MAX_NAME_BYTES,
        from > 0 ==> from >= 2 && name[from - 1] == DOT,
        labels == labels_from(name, from),
        labels_fault(labels) is None,
        tail.len() > 0 && tail[0] == 0,
        bytes == head + encoded_labels(labels) + tail,
    ensures
        name_at(bytes, head.len() as int, joined_text(name, from)) == Some(
            (lowered_text(name), (head.len() + encoded_labels(labels).len() + 1) as int),
        ),
    decreases name.len() - from,
{
    lemma_next_dot(name, from);
    let dot = next_dot(name, from);
    let label = labels[0];
    let rest = labels.skip(1);
    let prefix = joined_text(name, from);
    let wire = seq![label.len() as u8] + label;
    let after = encoded_labels(rest);
    let longer = head + wire;
    let text = lowered_text(name.take(dot));
    assert(label == name.subrange(from, dot) && (dot < name.len() ==> rest =~= labels_from(
        name,
        dot + 1,
    )) && (dot >= name.len() ==> rest =~= Seq::<Seq<u8>>::empty()));
    assert(label_fault(label) is None && labels_fault(rest) is None);
    assert(encoded_labels(labels) == wire + after) by {
        lemma_encoded_split(label, rest);
        assert(labels =~= seq![label] + rest);
        assert(wire + after =~= seq![label.len() as u8] + label + after);
    }
    assert(bytes == head + wire + (after + tail) && bytes == longer + after + tail) by {
        assert(head + (wire + after) + tail =~= head + wire + (after + tail));
        assert(head + (wire + after) + tail =~= longer + after + tail);
    }
    lemma_plain_label_text(label);
    lemma_joined_text(name, from, dot);
    lemma_reads_one_label(bytes, head, label, after + tail, prefix);
    let end = longer.len() as int;
    assert(name_at(bytes, head.len() as int, prefix) == name_at(bytes, end, text));
    if dot >= name.len() {
        assert(after =~= Seq::<u8>::empty());
        assert(bytes[end] == tail[0]);
        assert(name.take(dot) =~= name);
        assert(name_at(bytes, end, text) == Some((text, end + 1)));
    } else {
        assert(name.take(dot + 1 - 1) =~= name.take(dot));
        assert(joined_text(name, dot + 1) == text);
        lemma_reads_labels(bytes, longer, name, dot + 1, rest, tail);
    }
}

/// Whether a dot stands somewhere in a stretch of a name.
pub open spec fn has_dot(name: Seq<u8>, from: int, to: int) -> bool {
    exists|i: int| from <= i < to && #[trigger] name[i] == 46
}

/// Whether what is left of a name, from the start of a label on, is made of labels: letters, digits and
/// hyphens between single dots, never more than sixty-three of them together.
pub open spec fn is_dotted(name: Seq<u8>, from: int) -> bool {
    &&& from < name.len()
    &&& name[from] != 46
    &&& name.last() != 46
    &&& forall|i: int|
        from <= i < name.len() ==> {
            ||| '0' as u8 <= #[trigger] name[i] <= '9' as u8
            ||| 'A' as u8 <= name[i] <= 'Z' as u8
            ||| 'a' as u8 <= name[i] <= 'z' as u8
            ||| name[i] == '-' as u8
            ||| name[i] == '.' as u8
        }
    &&& forall|i: int, j: int|
        from <= i && j == i + 1 && j < name.len() && #[trigger] name[i] == 46 ==> #[trigger] name[j]
            != 46
    &&& forall|i: int, j: int|
        from <= i && j == i + 64 && j <= name.len() ==> #[trigger] has_dot(name, i, j)
}

/// A name is a hostname exactly when, without the dot that may end it, it has one to 253 bytes and is
/// made of labels of one to sixty-three letters, digits and hyphens between single dots.
pub proof fn a_hostname_is_made_of_labels(host: Seq<u8>)
    ensures
        host.len() > 0 && host.last() != 46 ==> (hostname_fault(host) is None <==> host.len() <= 253
            && is_dotted(host, 0)),
        host.len() == 0 ==> hostname_fault(host) is Some,
        host.len() > 0 && host.last() == 46 ==> (hostname_fault(host) is None <==> 0 < host.len() - 1
            <= 253 && is_dotted(host.drop_last(), 0)),
{
    let name = unqualified(host);
    if name.len() > 0 {
        lemma_dotted(name, 0);
    }
}

/// The labels from a place on are free of faults exactly when the rest is made of labels.
#[verifier::spinoff_prover]
proof fn lemma_dotted(name: Seq<u8>, from: int)
    requires
        0 <= from <= name.len(),
        name.len() > 0,
    ensures
        labels_fault(labels_from(name, from)) is None <==> is_dotted(name, from),
    decreases name.len() - from,
{
    lemma_next_dot(name, from);
    let dot = next_dot(name, from);
    let labels = labels_from(name, from);
    let label = name.subrange(from, dot);
    if dot >= name.len() {
        assert(labels =~= seq![label]);
        assert(labels.skip(1) =~= Seq::<Seq<u8>>::empty());
        assert(labels_fault(labels.skip(1)) is None);
    } else {
        assert(labels =~= seq![label] + labels_from(name, dot + 1));
        assert(labels.skip(1) =~= labels_from(name, dot + 1));
        lemma_dotted(name, dot + 1);
    }
    assert(labels[0] == label);
    let plain = label_fault(label) is None;
    let rest = dot >= name.len() || is_dotted(name, dot + 1);
    assert(labels_fault(labels) is None <==> plain && rest);
    if is_dotted(name, from) {
        assert(from < dot);
        if dot - from >= 64 {
            assert(has_dot(name, from, from + 64));
            let i = choose|i: int| from <= i < from + 64 && #[trigger] name[i] == 46;
            assert(name[i] != DOT);
        }
        assert forall|i: int| 0 <= i < label.len() implies is_label_byte(label[i]) by {
            assert(label[i] == name[from + i]);
        }
        if dot < name.len() {
            assert(name.last() == name[name.len() - 1]);
            assert(dot + 1 < name.len());
            assert(name[dot + 1] != 46);
            assert(is_dotted(name, dot + 1));
        }
    }
    if plain && rest {
        assert(from < dot);
        assert forall|i: int| from <= i < name.len() implies {
            ||| '0' as u8 <= #[trigger] name[i] <= '9' as u8
            ||| 'A' as u8 <= name[i] <= 'Z' as u8
            ||| 'a' as u8 <= name[i] <= 'z' as u8
            ||| name[i] == '-' as u8
            ||| name[i] == '.' as u8
        } by {
            if i < dot {
                assert(label[i - from] == name[i]);
                assert(is_label_byte(label[i - from]));
            }
        }
        if dot >= name.len() {
            assert(name.last() == name[name.len() - 1]);
        }
        assert forall|i: int, j: int|
            from <= i && j == i + 64 && j <= name.len() implies #[trigger] has_dot(name, i, j) by {
            if i > dot {
                assert(has_dot(name, i, j));
            } else {
                assert(dot < name.len());
                assert(i <= dot < j && name[dot] == 46);
            }
        }
        assert forall|i: int, j: int|
            from <= i && j == i + 1 && j < name.len() && #[trigger] name[i] == 46 implies
                #[trigger] name[j] != 46 by {
            if i < dot {
                assert(name[i] != DOT);
            }
        }
    }
}

/// A dot at the end of a name changes neither whether it is one, nor its query, nor the name that is
/// expected back; that name is the host's in lower case.
pub proof fn a_final_dot_changes_nothing(id: u16, host: Seq<u8>, at: int)
    requires
        host.len() > 0,
        host.last() != 46,
        0 <= at < host.len(),
    ensures
        hostname_fault(host.push(46)) == hostname_fault(host),
        query(id, host.push(46)) == query(id, host),
        expected_name(host.push(46)) == expected_name(host),
        expected_name(host).len() == host.len(),
        'A' as u8 <= host[at] <= 'Z' as u8 ==> expected_name(host)[at] == host[at] + 32,
        host[at] < 'A' as u8 || host[at] > 'Z' as u8 ==> expected_name(host)[at] == host[at],
{
    assert(host.push(46).drop_last() =~= host);
}

/// A query begins with its identity, asks for recursion, carries one question and nothing else, and
/// asks for an internet address.
pub proof fn a_query_asks_one_question(id: u16, host: Seq<u8>)
    ensures
        ({
            let bytes = query(id, host);
            let end = bytes.len() as int;
            &&& end >= 17
            &&& bytes[0] * 256 + bytes[1] == id
            &&& bytes[2] == 1 && bytes[3] == 0
            &&& bytes[4] == 0 && bytes[5] == 1
            &&& bytes[6] == 0 && bytes[7] == 0 && bytes[8] == 0 && bytes[9] == 0 && bytes[10] == 0
                && bytes[11] == 0
            &&& bytes[end - 5] == 0
            &&& bytes[end - 4] == 0 && bytes[end - 3] == 1
            &&& bytes[end - 2] == 0 && bytes[end - 1] == 1
        }),
{
    let bytes = query(id, host);
    let head = word(id) + word(FLAG_RECURSION_DESIRED) + word(1) + word(0) + word(0) + word(0);
    let middle = encoded_labels(labels_from(unqualified(host), 0));
    let tail = seq![0u8] + word(TYPE_A) + word(CLASS_IN);
    assert(bytes =~= head + middle + tail);
    assert(head.len() == 12 && tail.len() == 5);
    assert(head[0] == id / 256 && head[1] == id % 256);
    assert(id / 256 * 256 + id % 256 == id);
}

/// A query's identity is drawn from the time, the host and the attempt, each in full: the time's eight
/// bytes, the host's, and the attempt's four.
pub proof fn a_querys_identity_is_drawn_from_all_of_it(now_ns: u64, host: Seq<u8>, attempt: u32)
    ensures
        ({
            let input = query_id_input(now_ns, host, attempt);
            &&& input.len() == host.len() + 12
            &&& input.take(8) == le_bytes(now_ns as nat, 8)
            &&& input.subrange(8, 8 + host.len() as int) == host
            &&& input.skip(8 + host.len() as int) == le_bytes(attempt as nat, 4)
            &&& query_identity(now_ns, host, attempt) == little_endian(blake3_digest(input).take(2))
        }),
{
    let input = query_id_input(now_ns, host, attempt);
    lemma_number_len(now_ns as nat, 8);
    lemma_number_len(attempt as nat, 4);
    assert(input.take(8) =~= le_bytes(now_ns as nat, 8));
    assert(input.subrange(8, 8 + host.len() as int) =~= host);
    assert(input.skip(8 + host.len() as int) =~= le_bytes(attempt as nat, 4));
}

/// A number has as many bytes as asked.
proof fn lemma_number_len(value: nat, count: nat)
    ensures
        le_bytes(value, count).len() == count,
    decreases count,
{
    if count > 0 {
        lemma_number_len(value / 256, (count - 1) as nat);
    }
}

/// A query sent back as a reply, with its answers behind it, is read up to its answers.
proof fn lemma_reply(id: u16, host: Seq<u8>, answers: u8, records: Seq<u8>)
    requires
        hostname_fault(host) is None,
    ensures
        ({
            let asked = query(id, host);
            let reply = asked.update(2, 0x81u8).update(3, 0x80u8).update(7, answers) + records;
            &&& asked.len() >= 17
            &&& name_at(reply, 12, Seq::empty()) is Some
            &&& answer(id, host, reply) == first_address(reply, asked.len() as int, answers as nat)
        }),
{
    let asked = query(id, host);
    a_query_asks_one_question(id, host);
    let changed = asked.update(2, 0x81u8).update(3, 0x80u8).update(7, answers);
    let reply = changed + records;
    let name = unqualified(host);
    let labels = labels_from(name, 0);
    let middle = encoded_labels(labels);
    let head = word(id) + seq![0x81u8, 0x80u8] + word(1) + seq![0u8, answers] + word(0) + word(0);
    let tail = seq![0u8] + word(TYPE_A) + word(CLASS_IN) + records;
    let plain = word(id) + word(FLAG_RECURSION_DESIRED) + word(1) + word(0) + word(0) + word(0);
    assert(asked =~= plain + middle + (seq![0u8] + word(TYPE_A) + word(CLASS_IN)));
    assert(reply =~= head + middle + tail);
    lemma_labels_shape(name, 0);
    lemma_reads_labels(reply, head, name, 0, labels, tail);
    assert(joined_text(name, 0) =~= Seq::<u8>::empty());
    assert(expected_name(host) =~= lowered_text(name));
    let cursor = asked.len() - 4;
    assert(reply[0] == asked[0] && reply[1] == asked[1]);
    assert(word_at(reply, 0) == Some(id));
    assert(reply[2] == 0x81 && reply[3] == 0x80);
    assert(word_at(reply, 2) == Some(0x8180u16));
    assert(reply[4] == 0 && reply[5] == 1);
    assert(word_at(reply, 4) == Some(1u16));
    assert(reply[6] == 0 && reply[7] == answers);
    assert(word_at(reply, 6) == Some(answers as u16));
    assert(reply[cursor] == 0 && reply[cursor + 1] == 1);
    assert(reply[cursor + 2] == 0 && reply[cursor + 3] == 1);
    assert(word_at(reply, cursor) == Some(1u16));
    assert(word_at(reply, cursor + 2) == Some(1u16));
}

/// A query that comes back as a reply with an address record resolves its host to that address.
pub proof fn an_address_record_answers_its_query(
    id: u16,
    host: Seq<u8>,
    lifetime: Seq<u8>,
    address: Ipv4Addr,
)
    requires
        hostname_fault(host) is None,
        lifetime.len() == 4,
    ensures
        ({
            let reply = query(id, host).update(2, 0x81u8).update(3, 0x80u8).update(7, 1u8) + (
            seq![0xC0u8, 12u8, 0u8, 1u8, 0u8, 1u8] + lifetime + seq![0u8, 4u8] + seq![
                address.0,
                address.1,
                address.2,
                address.3,
            ]);
            answer(id, host, reply) == Ok::<Ipv4Addr, DnsError>(address)
        }),
{
    let records = seq![0xC0u8, 12u8, 0u8, 1u8, 0u8, 1u8] + lifetime + seq![0u8, 4u8] + seq![
        address.0,
        address.1,
        address.2,
        address.3,
    ];
    let asked = query(id, host);
    let reply = asked.update(2, 0x81u8).update(3, 0x80u8).update(7, 1u8) + records;
    let front = asked.update(2, 0x81u8).update(3, 0x80u8).update(7, 1u8);
    assert(front.len() == asked.len() && records.len() == 16);
    lemma_reply(id, host, 1, records);
    lemma_behind(front, records, Seq::empty());
    assert(reply == front + records + Seq::<u8>::empty()) by {
        assert(front + records =~= front + records + Seq::<u8>::empty());
    }
    lemma_address_record(reply, asked.len() as int, lifetime, address, 1);
}

/// What stands behind a front stands where the front ends.
proof fn lemma_behind(front: Seq<u8>, middle: Seq<u8>, rest: Seq<u8>)
    ensures
        (front + middle + rest).subrange(
            front.len() as int,
            (front.len() + middle.len()) as int,
        ) == middle,
        (front + middle + rest).len() == front.len() + middle.len() + rest.len(),
{
    assert((front + middle + rest).subrange(
        front.len() as int,
        (front.len() + middle.len()) as int,
    ) =~= middle);
}

/// An address record that points back at the question's name gives its address.
proof fn lemma_address_record(
    reply: Seq<u8>,
    at: int,
    lifetime: Seq<u8>,
    address: Ipv4Addr,
    count: nat,
)
    requires
        count > 0,
        at >= 17,
        lifetime.len() == 4,
        at + 16 <= reply.len(),
        reply.subrange(at, at + 16) == seq![0xC0u8, 12u8, 0u8, 1u8, 0u8, 1u8] + lifetime + seq![
            0u8,
            4u8,
        ] + seq![address.0, address.1, address.2, address.3],
        name_at(reply, 12, Seq::empty()) is Some,
    ensures
        first_address(reply, at, count) == Ok::<Ipv4Addr, DnsError>(address),
{
    let record = reply.subrange(at, at + 16);
    assert(forall|i: int| 0 <= i < 16 ==> #[trigger] record[i] == reply[at + i]);
    assert(record[0] == 0xC0 && record[1] == 12);
    assert(word_at(reply, at) == Some(0xC00Cu16));
    assert(name_at(reply, at, Seq::empty()) == Some(
        ((name_at(reply, 12, Seq::empty())->0).0, at + 2),
    ));
    assert(record[2] == 0 && record[3] == 1 && record[4] == 0 && record[5] == 1);
    assert(record[10] == 0 && record[11] == 4);
    assert(word_at(reply, at + 2) == Some(1u16));
    assert(word_at(reply, at + 4) == Some(1u16));
    assert(word_at(reply, at + 10) == Some(4u16));
    assert(record[12] == address.0 && record[13] == address.1 && record[14] == address.2
        && record[15] == address.3);
}

/// A record of another kind before the address record, such as an alias, is passed over.
pub proof fn a_record_of_another_kind_is_passed_over(
    id: u16,
    host: Seq<u8>,
    kind: (u8, u8),
    class: (u8, u8),
    rdata: Seq<u8>,
    lifetime: Seq<u8>,
    address: Ipv4Addr,
)
    requires
        hostname_fault(host) is None,
        lifetime.len() == 4,
        rdata.len() < 65_536,
        kind != (0u8, 1u8) || class != (0u8, 1u8) || rdata.len() != 4,
    ensures
        ({
            let other = seq![0xC0u8, 12u8, kind.0, kind.1, class.0, class.1] + lifetime + seq![
                (rdata.len() / 256) as u8,
                (rdata.len() % 256) as u8,
            ] + rdata;
            let reply = query(id, host).update(2, 0x81u8).update(3, 0x80u8).update(7, 2u8) + (other
                + (seq![0xC0u8, 12u8, 0u8, 1u8, 0u8, 1u8] + lifetime + seq![0u8, 4u8] + seq![
                address.0,
                address.1,
                address.2,
                address.3,
            ]));
            answer(id, host, reply) == Ok::<Ipv4Addr, DnsError>(address)
        }),
{
    let other = seq![0xC0u8, 12u8, kind.0, kind.1, class.0, class.1] + lifetime + seq![
        (rdata.len() / 256) as u8,
        (rdata.len() % 256) as u8,
    ] + rdata;
    let last = seq![0xC0u8, 12u8, 0u8, 1u8, 0u8, 1u8] + lifetime + seq![0u8, 4u8] + seq![
        address.0,
        address.1,
        address.2,
        address.3,
    ];
    let asked = query(id, host);
    let at = asked.len() as int;
    let front = asked.update(2, 0x81u8).update(3, 0x80u8).update(7, 2u8);
    let reply = front + (other + last);
    let past = at + 12 + rdata.len();
    assert(front.len() == at && other.len() == 12 + rdata.len() && last.len() == 16);
    lemma_reply(id, host, 2, other + last);
    assert(reply == front + other + last) by {
        assert(front + (other + last) =~= front + other + last);
    }
    lemma_behind(front, other, last);
    lemma_behind(front + other, last, Seq::empty());
    assert(reply == front + other + last + Seq::<u8>::empty()) by {
        assert(front + other + last =~= front + other + last + Seq::<u8>::empty());
    }
    assert((front + other).len() == past);
    lemma_address_record(reply, past, lifetime, address, 1);
    lemma_other_record(reply, at, kind, class, rdata, lifetime);
}

/// A record of another kind that points back at the question's name is passed over.
proof fn lemma_other_record(
    reply: Seq<u8>,
    at: int,
    kind: (u8, u8),
    class: (u8, u8),
    rdata: Seq<u8>,
    lifetime: Seq<u8>,
)
    requires
        at >= 17,
        lifetime.len() == 4,
        rdata.len() < 65_536,
        kind != (0u8, 1u8) || class != (0u8, 1u8) || rdata.len() != 4,
        at + 12 + rdata.len() <= reply.len(),
        reply.subrange(at, at + 12 + rdata.len()) == seq![
            0xC0u8,
            12u8,
            kind.0,
            kind.1,
            class.0,
            class.1,
        ] + lifetime + seq![(rdata.len() / 256) as u8, (rdata.len() % 256) as u8] + rdata,
        name_at(reply, 12, Seq::empty()) is Some,
    ensures
        first_address(reply, at, 2) == first_address(reply, at + 12 + rdata.len(), 1),
{
    let record = reply.subrange(at, at + 12 + rdata.len());
    assert(forall|i: int| 0 <= i < 12 ==> #[trigger] record[i] == reply[at + i]);
    assert(record[0] == 0xC0 && record[1] == 12);
    assert(word_at(reply, at) == Some(0xC00Cu16));
    assert(name_at(reply, at, Seq::empty()) == Some(
        ((name_at(reply, 12, Seq::empty())->0).0, at + 2),
    ));
    assert(record[2] == kind.0 && record[3] == kind.1 && record[4] == class.0 && record[5]
        == class.1);
    assert(record[10] == rdata.len() / 256 && record[11] == rdata.len() % 256);
    assert(word_at(reply, at + 2) == Some((kind.0 * 256 + kind.1) as u16));
    assert(word_at(reply, at + 4) == Some((class.0 * 256 + class.1) as u16));
    assert(word_at(reply, at + 10) == Some(rdata.len() as u16));
    reveal_with_fuel(first_address, 2);
}

/// A resolved address stands in the reply: four bytes behind an internet address record's fixed part;
/// and the reply carries the query's identity, is a reply, reports no error and answers one question.
pub proof fn a_resolved_address_stands_in_its_reply(id: u16, host: Seq<u8>, bytes: Seq<u8>)
    ensures
        answer(id, host, bytes) matches Ok(address) ==> {
            &&& bytes.len() >= 12
            &&& bytes[0] * 256 + bytes[1] == id
            &&& bytes[2] >= 128
            &&& bytes[3] % 16 == 0
            &&& bytes[4] == 0 && bytes[5] == 1
            &&& exists|at: int|
                12 <= at && at + 14 <= bytes.len() && #[trigger] bytes[at] == 0 && bytes[at + 1] == 1
                    && bytes[at + 2] == 0 && bytes[at + 3] == 1 && bytes[at + 8] == 0 && bytes[at + 9]
                    == 4 && address == Ipv4Addr(
                    bytes[at + 10],
                    bytes[at + 11],
                    bytes[at + 12],
                    bytes[at + 13],
                )
        },
        bytes.len() >= 2 && bytes[0] * 256 + bytes[1] != id ==> answer(id, host, bytes) == Err::<
            Ipv4Addr,
            DnsError,
        >(DnsError::Malformed { at: "id" }),
        bytes.len() >= 4 && bytes[0] * 256 + bytes[1] == id && bytes[2] >= 128 && bytes[3] % 16 != 0
            ==> answer(id, host, bytes) == Err::<Ipv4Addr, DnsError>(
            DnsError::Refused { rcode: bytes[3] % 16 },
        ),
        bytes.len() >= 4 && bytes[0] * 256 + bytes[1] == id && bytes[2] < 128 ==> answer(
            id,
            host,
            bytes,
        ) == Err::<Ipv4Addr, DnsError>(DnsError::Malformed { at: "flags" }),
{
    if bytes.len() >= 4 {
        let flags = word_at(bytes, 2)->0;
        assert(flags == bytes[2] * 256 + bytes[3]);
        assert(flags % 16 == bytes[3] % 16) by (nonlinear_arith)
            requires
                flags == bytes[2] * 256 + bytes[3],
        ;
    }
    if answer(id, host, bytes) is Ok {
        let (asked, cursor) = name_at(bytes, 12, Seq::empty())->0;
        a_name_ends_within_its_message(bytes, 12, Seq::empty());
        lemma_address_stands(bytes, cursor + 4, word_at(bytes, 6)->0 as nat);
    }
}

/// An address that is found stands behind an address record's fixed part.
proof fn lemma_address_stands(bytes: Seq<u8>, cursor: int, count: nat)
    requires
        cursor >= 12,
    ensures
        first_address(bytes, cursor, count) matches Ok(address) ==> exists|at: int|
            12 <= at && at + 14 <= bytes.len() && #[trigger] bytes[at] == 0 && bytes[at + 1] == 1
                && bytes[at + 2] == 0 && bytes[at + 3] == 1 && bytes[at + 8] == 0 && bytes[at + 9]
                == 4 && address == Ipv4Addr(
                bytes[at + 10],
                bytes[at + 11],
                bytes[at + 12],
                bytes[at + 13],
            ),
    decreases count,
{
    if count > 0 && first_address(bytes, cursor, count) is Ok {
        let (_, at) = name_at(bytes, cursor, Seq::empty())->0;
        a_name_ends_within_its_message(bytes, cursor, Seq::empty());
        let rdlength = word_at(bytes, at + 8)->0;
        if word_at(bytes, at) == Some(1u16) && word_at(bytes, at + 2) == Some(1u16) && rdlength == 4 {
            assert(bytes[at] == 0 && bytes[at + 1] == 1);
            assert(bytes[at + 2] == 0 && bytes[at + 3] == 1);
            assert(bytes[at + 8] == 0 && bytes[at + 9] == 4);
        } else {
            lemma_address_stands(bytes, at + 10 + rdlength, (count - 1) as nat);
        }
    }
}

/// A datagram from another server, or of another query, is not listened to; the server's own reply ends
/// the query, with the address or with its error; silence is a timeout.
pub proof fn only_the_asked_server_is_heard(ask: Ask, host: Seq<u8>, heard: Heard)
    ensures
        ask.heard_step(host, heard) is TimedOut <==> heard is Nothing,
        heard matches Heard::Datagram { from, bytes } ==> {
            &&& from != ask.nameserver ==> ask.heard_step(host, heard) is Wait
            &&& from == ask.nameserver && bytes@.len() >= 2 && bytes@[0] * 256 + bytes@[1] != ask.id
                ==> ask.heard_step(host, heard) is Wait
            &&& from == ask.nameserver && bytes@.len() >= 2 && bytes@[0] * 256 + bytes@[1] == ask.id
                ==> !(ask.heard_step(host, heard) is Wait)
            &&& ask.heard_step(host, heard) matches AskStep::Resolved(address) ==> answer(
                ask.id,
                host,
                bytes@,
            ) == Ok::<Ipv4Addr, DnsError>(address)
            &&& ask.heard_step(host, heard) matches AskStep::Failed(error) ==> answer(
                ask.id,
                host,
                bytes@,
            ) == Err::<Ipv4Addr, DnsError>(error)
            &&& from == ask.nameserver && answer(ask.id, host, bytes@) is Ok ==> ask.heard_step(
                host,
                heard,
            ) is Resolved
        },
        heard matches Heard::Fault(detail) ==> ask.heard_step(host, heard) == AskStep::Failed(
            DnsError::Io(detail),
        ),
{
}

/// An answer is waited for until the timeout after the query was sent.
pub proof fn a_query_is_waited_for_until_its_timeout(
    resolver: Resolver,
    id: u16,
    nameserver: SocketAddrV4,
    sent_ns: u64,
    ask: Ask,
    now_ns: u64,
)
    requires
        Ask::sends(resolver, id, nameserver, sent_ns, ask),
        sent_ns + resolver.timeout_ns <= u64::MAX,
    ensures
        ask.id == id && ask.nameserver == nameserver,
        ask.waits(now_ns) is Some <==> now_ns < sent_ns + resolver.timeout_ns,
        ask.waits(now_ns) matches Some(wait_ns) ==> now_ns + wait_ns == sent_ns + resolver.timeout_ns,
{
}

/// A lookup asks the first server first, then each next one, and starts over with the first as often as
/// it may; an answer or an error ends it, and so does the last timeout.
pub proof fn a_lookup_asks_every_server_in_turn(
    resolver: Resolver,
    first: LookupStep,
    lookup: Lookup,
    outcome: AskOutcome,
    step: LookupStep,
)
    requires
        Lookup::starts(resolver, first),
        lookup.in_progress(resolver),
        lookup.goes_on(resolver, outcome, step),
    ensures
        first is Ask ==> (first->Ask_0).attempt == 0 && (first->Ask_0).server == 0,
        outcome matches AskOutcome::Resolved(address) ==> step == LookupStep::Done(Ok(address)),
        outcome matches AskOutcome::Failed(error) ==> step == LookupStep::Done(Err(error)),
        outcome is TimedOut ==> {
            let servers = resolver.nameservers@.len();
            let last_server = lookup.server + 1 == servers;
            let last_attempt = lookup.attempt + 1 >= resolver.attempts;
            &&& step is Done <==> last_server && last_attempt
            &&& step matches LookupStep::Ask(next) ==> {
                &&& !last_server ==> next.server == lookup.server + 1 && next.attempt
                    == lookup.attempt
                &&& last_server ==> next.server == 0 && next.attempt == lookup.attempt + 1
            }
            &&& step matches LookupStep::Done(done) ==> (done matches Err(
                DnsError::Timeout { nameserver, attempts },
            ) && nameserver == resolver.nameservers@[servers - 1] && (resolver.attempts >= 1
                ==> attempts == resolver.attempts) && (resolver.attempts == 0 ==> attempts == 1))
        },
{
    let servers = resolver.nameservers@.len() as int;
    let rounds = resolver.rounds();
    let left = rounds - lookup.attempt;
    assert(lookup.queries_left(resolver) == left * servers - lookup.server);
    if left >= 2 {
        assert(left * servers >= 2 * servers) by (nonlinear_arith)
            requires
                left >= 2,
                servers >= 0,
        ;
    } else {
        assert(left * servers == servers) by (nonlinear_arith)
            requires
                left == 1,
        ;
    }
}

} // verus!
