//! A volume's head register value and the owner-side state that produces it. The head of a volume
//! is written by its owner at each sequence: zero at creation, then each snapshot's once its
//! content is placed. Its value is what a successor adopts on a takeover and serves from: the
//! content's identity, who holds it, and the catalog essentials.

use crate::digest::{copy_bytes, push_bytes, same_bytes};
use crate::ids::{contains_host, lists, HostEpoch, HostId, Quorum, SnapshotId};
use crate::wire::{
    a_blob_reads_back, a_read_blob_is_its_encoding, a_read_word_is_its_encoding,
    a_read_word_list_is_its_encoding, a_word_list_reads_back, a_word_reads_back, blob, blob_at,
    push_blob, push_text, push_word, push_word_list, read_blob, read_tag, read_text,
    read_text_is_its_encoding, read_word, read_word_list, tag_at, text, text_at, text_reads_back,
    word, word_at, word_list, word_list_at,
};
use vstd::prelude::*;
use vstd::utf8::encode_utf8;

verus! {

/// How much a volume may hold.
#[derive(Clone, Copy, Debug, PartialEq, Eq, Structural)]
pub enum SizeClass {
    /// At most this many bytes.
    Bounded { limit: u64 },
    /// As much as the host admits.
    Unbounded,
}

/// When two names are one.
#[derive(Clone, Copy, Debug, PartialEq, Eq, Structural)]
pub enum NamePolicy {
    /// When their bytes are.
    Exact,
    /// When they fold to one name.
    Folded,
}

/// Who owns a volume.
#[derive(Debug, PartialEq, Eq)]
pub enum Principal {
    Uid { uid: u32 },
    Sid { sid: String },
    Certificate { certificate: Vec<u8> },
}

/// A principal's contents.
pub enum PrincipalFacts {
    Uid { uid: u32 },
    Sid { sid: Seq<char> },
    Certificate { certificate: Seq<u8> },
}

impl View for Principal {
    type V = PrincipalFacts;

    open spec fn view(&self) -> PrincipalFacts {
        match *self {
            Principal::Uid { uid } => PrincipalFacts::Uid { uid },
            Principal::Sid { sid } => PrincipalFacts::Sid { sid: sid@ },
            Principal::Certificate { certificate } => PrincipalFacts::Certificate {
                certificate: certificate@,
            },
        }
    }
}

impl Principal {
    /// Whether two principals are one.
    pub fn same_as(&self, other: &Principal) -> (same: bool)
        ensures
            same == (self@ == other@),
    {
        match (self, other) {
            (Principal::Uid { uid }, Principal::Uid { uid: with }) => *uid == *with,
            (Principal::Sid { sid }, Principal::Sid { sid: with }) => *sid == *with,
            (
                Principal::Certificate { certificate },
                Principal::Certificate { certificate: with },
            ) => same_bytes(certificate.as_slice(), with.as_slice()),
            _ => false,
        }
    }

    /// A copy.
    pub fn copy(&self) -> (principal: Principal)
        ensures
            principal@ == self@,
    {
        match self {
            Principal::Uid { uid } => Principal::Uid { uid: *uid },
            Principal::Sid { sid } => Principal::Sid { sid: sid.clone() },
            Principal::Certificate { certificate } => Principal::Certificate {
                certificate: copy_bytes(certificate.as_slice()),
            },
        }
    }
}

/// What a volume's head register holds at one sequence.
#[derive(Debug, PartialEq, Eq)]
pub struct HeadValue {
    /// The identity of the snapshot's archive, or none at creation.
    pub manifest: Option<[u8; 32]>,
    /// The candidates that acknowledged holding the content whole.
    pub content_holders: Vec<u64>,
    /// The volume's mount name.
    pub name: String,
    pub size: SizeClass,
    pub names: NamePolicy,
    pub owner: Principal,
}

/// A head value's contents.
pub struct HeadFacts {
    pub manifest: Option<Seq<u8>>,
    pub content_holders: Seq<u64>,
    pub name: Seq<char>,
    pub size: SizeClass,
    pub names: NamePolicy,
    pub owner: PrincipalFacts,
}

impl View for HeadValue {
    type V = HeadFacts;

    open spec fn view(&self) -> HeadFacts {
        HeadFacts {
            manifest: match self.manifest {
                Some(manifest) => Some(manifest@),
                None => None,
            },
            content_holders: self.content_holders@,
            name: self.name@,
            size: self.size,
            names: self.names,
            owner: self.owner@,
        }
    }
}

/// A manifest's encoding: a tag, then the identity's bytes if there is one.
pub open spec fn manifest_bytes(manifest: Option<Seq<u8>>) -> Seq<u8> {
    match manifest {
        None => seq![0u8],
        Some(identity) => seq![1u8] + identity,
    }
}

/// The manifest a byte string starts with.
pub open spec fn read_manifest(bytes: Seq<u8>) -> Option<(Option<Seq<u8>>, Seq<u8>)> {
    match read_tag(bytes) {
        None => None,
        Some((tag, rest)) => if tag == 0 {
            Some((None, rest))
        } else if tag == 1 && rest.len() >= 32 {
            Some((Some(rest.take(32)), rest.skip(32)))
        } else {
            None
        },
    }
}

/// A size class's encoding.
pub open spec fn size_bytes(size: SizeClass) -> Seq<u8> {
    match size {
        SizeClass::Bounded { limit } => seq![0u8] + word(limit),
        SizeClass::Unbounded => seq![1u8],
    }
}

/// The size class a byte string starts with.
pub open spec fn read_size(bytes: Seq<u8>) -> Option<(SizeClass, Seq<u8>)> {
    match read_tag(bytes) {
        None => None,
        Some((tag, rest)) => if tag == 0 {
            match read_word(rest) {
                None => None,
                Some((limit, rest)) => Some((SizeClass::Bounded { limit }, rest)),
            }
        } else if tag == 1 {
            Some((SizeClass::Unbounded, rest))
        } else {
            None
        },
    }
}

/// A name policy's encoding.
pub open spec fn policy_bytes(names: NamePolicy) -> Seq<u8> {
    match names {
        NamePolicy::Exact => seq![0u8],
        NamePolicy::Folded => seq![1u8],
    }
}

/// The name policy a byte string starts with.
pub open spec fn read_policy(bytes: Seq<u8>) -> Option<(NamePolicy, Seq<u8>)> {
    match read_tag(bytes) {
        None => None,
        Some((tag, rest)) => if tag == 0 {
            Some((NamePolicy::Exact, rest))
        } else if tag == 1 {
            Some((NamePolicy::Folded, rest))
        } else {
            None
        },
    }
}

/// A principal's encoding.
pub open spec fn principal_bytes(owner: PrincipalFacts) -> Seq<u8> {
    match owner {
        PrincipalFacts::Uid { uid } => seq![0u8] + word(uid as u64),
        PrincipalFacts::Sid { sid } => seq![1u8] + text(sid),
        PrincipalFacts::Certificate { certificate } => seq![2u8] + blob(certificate),
    }
}

/// The principal a byte string starts with. A user id past its width is no principal.
pub open spec fn read_principal(bytes: Seq<u8>) -> Option<(PrincipalFacts, Seq<u8>)> {
    match read_tag(bytes) {
        None => None,
        Some((tag, rest)) => if tag == 0 {
            match read_word(rest) {
                None => None,
                Some((uid, rest)) => if uid <= u32::MAX {
                    Some((PrincipalFacts::Uid { uid: uid as u32 }, rest))
                } else {
                    None
                },
            }
        } else if tag == 1 {
            match read_text(rest) {
                None => None,
                Some((sid, rest)) => Some((PrincipalFacts::Sid { sid }, rest)),
            }
        } else if tag == 2 {
            match read_blob(rest) {
                None => None,
                Some((certificate, rest)) => Some(
                    (PrincipalFacts::Certificate { certificate }, rest),
                ),
            }
        } else {
            None
        },
    }
}

/// A head value's canonical bytes.
pub open spec fn head_bytes(value: HeadFacts) -> Seq<u8> {
    manifest_bytes(value.manifest) + (word_list(value.content_holders) + (text(value.name) + (
    size_bytes(value.size) + (policy_bytes(value.names) + principal_bytes(value.owner)))))
}

/// The head value a byte string starts with.
pub open spec fn read_head(bytes: Seq<u8>) -> Option<(HeadFacts, Seq<u8>)> {
    match read_manifest(bytes) {
        None => None,
        Some((manifest, rest)) => match read_word_list(rest) {
            None => None,
            Some((content_holders, rest)) => match read_text(rest) {
                None => None,
                Some((name, rest)) => match read_size(rest) {
                    None => None,
                    Some((size, rest)) => match read_policy(rest) {
                        None => None,
                        Some((names, rest)) => match read_principal(rest) {
                            None => None,
                            Some((owner, rest)) => Some(
                                (
                                    HeadFacts {
                                        manifest,
                                        content_holders,
                                        name,
                                        size,
                                        names,
                                        owner,
                                    },
                                    rest,
                                ),
                            ),
                        },
                    },
                },
            },
        },
    }
}

/// The head value that bytes are: exactly one value, with nothing after it.
pub open spec fn decoded_head(bytes: Seq<u8>) -> Option<HeadFacts> {
    match read_head(bytes) {
        Some((value, rest)) => if rest.len() == 0 {
            Some(value)
        } else {
            None
        },
        None => None,
    }
}

/// Whether a value's parts can be written: an identity of thirty-two bytes, and lengths that fit
/// their word.
pub open spec fn writable(value: HeadFacts) -> bool {
    &&& value.manifest matches Some(identity) ==> identity.len() == 32
    &&& value.content_holders.len() <= u64::MAX
    &&& encode_utf8(value.name).len() <= u64::MAX
    &&& match value.owner {
        PrincipalFacts::Uid { .. } => true,
        PrincipalFacts::Sid { sid } => encode_utf8(sid).len() <= u64::MAX,
        PrincipalFacts::Certificate { certificate } => certificate.len() <= u64::MAX,
    }
}

/// Reads back a manifest with what follows it.
proof fn lemma_manifest(manifest: Option<Seq<u8>>, rest: Seq<u8>)
    requires
        manifest matches Some(identity) ==> identity.len() == 32,
    ensures
        read_manifest(manifest_bytes(manifest) + rest) == Some((manifest, rest)),
{
    let bytes = manifest_bytes(manifest) + rest;
    match manifest {
        None => {
            assert(bytes.skip(1) =~= rest);
        },
        Some(identity) => {
            assert(bytes.skip(1) =~= identity + rest);
            assert((identity + rest).take(32) =~= identity);
            assert((identity + rest).skip(32) =~= rest);
        },
    }
}

/// Reads back a size class with what follows it.
proof fn lemma_size(size: SizeClass, rest: Seq<u8>)
    ensures
        read_size(size_bytes(size) + rest) == Some((size, rest)),
{
    let bytes = size_bytes(size) + rest;
    match size {
        SizeClass::Bounded { limit } => {
            assert(bytes.skip(1) =~= word(limit) + rest);
            a_word_reads_back(limit, rest);
        },
        SizeClass::Unbounded => {
            assert(bytes.skip(1) =~= rest);
        },
    }
}

/// Reads back a name policy with what follows it.
proof fn lemma_policy(names: NamePolicy, rest: Seq<u8>)
    ensures
        read_policy(policy_bytes(names) + rest) == Some((names, rest)),
{
    let bytes = policy_bytes(names) + rest;
    assert(bytes.skip(1) =~= rest);
}

/// Reads back a principal with what follows it.
proof fn lemma_principal(owner: PrincipalFacts, rest: Seq<u8>)
    requires
        match owner {
            PrincipalFacts::Uid { .. } => true,
            PrincipalFacts::Sid { sid } => encode_utf8(sid).len() <= u64::MAX,
            PrincipalFacts::Certificate { certificate } => certificate.len() <= u64::MAX,
        },
    ensures
        read_principal(principal_bytes(owner) + rest) == Some((owner, rest)),
{
    let bytes = principal_bytes(owner) + rest;
    match owner {
        PrincipalFacts::Uid { uid } => {
            assert(bytes.skip(1) =~= word(uid as u64) + rest);
            a_word_reads_back(uid as u64, rest);
        },
        PrincipalFacts::Sid { sid } => {
            assert(bytes.skip(1) =~= text(sid) + rest);
            text_reads_back(sid, rest);
        },
        PrincipalFacts::Certificate { certificate } => {
            assert(bytes.skip(1) =~= blob(certificate) + rest);
            a_blob_reads_back(certificate, rest);
        },
    }
}

/// A head value's bytes, with anything after them, read back as that value and the rest.
pub proof fn a_head_value_ends_where_it_says(value: HeadFacts, rest: Seq<u8>)
    requires
        writable(value),
    ensures
        read_head(head_bytes(value) + rest) == Some((value, rest)),
{
    let r5 = principal_bytes(value.owner) + rest;
    let r4 = policy_bytes(value.names) + r5;
    let r3 = size_bytes(value.size) + r4;
    let r2 = text(value.name) + r3;
    let r1 = word_list(value.content_holders) + r2;
    assert(head_bytes(value) + rest =~= manifest_bytes(value.manifest) + r1);
    lemma_manifest(value.manifest, r1);
    a_word_list_reads_back(value.content_holders, r2);
    text_reads_back(value.name, r3);
    lemma_size(value.size, r4);
    lemma_policy(value.names, r5);
    lemma_principal(value.owner, rest);
}

/// Bytes that read as a manifest are its encoding and the rest.
proof fn lemma_read_manifest(bytes: Seq<u8>)
    ensures
        read_manifest(bytes) matches Some((manifest, rest)) ==> {
            &&& bytes == manifest_bytes(manifest) + rest
            &&& manifest matches Some(identity) ==> identity.len() == 32
        },
{
    if let Some((manifest, rest)) = read_manifest(bytes) {
        assert(bytes =~= seq![bytes[0]] + bytes.skip(1));
        assert(bytes =~= manifest_bytes(manifest) + rest);
    }
}

/// Bytes that read as a size class are its encoding and the rest.
proof fn lemma_read_size(bytes: Seq<u8>)
    ensures
        read_size(bytes) matches Some((size, rest)) ==> bytes == size_bytes(size) + rest,
{
    if let Some((size, rest)) = read_size(bytes) {
        assert(bytes =~= seq![bytes[0]] + bytes.skip(1));
        a_read_word_is_its_encoding(bytes.skip(1));
        assert(bytes =~= size_bytes(size) + rest);
    }
}

/// Bytes that read as a name policy are its encoding and the rest.
proof fn lemma_read_policy(bytes: Seq<u8>)
    ensures
        read_policy(bytes) matches Some((names, rest)) ==> bytes == policy_bytes(names) + rest,
{
    if let Some((names, rest)) = read_policy(bytes) {
        assert(bytes =~= policy_bytes(names) + rest);
    }
}

/// Bytes that read as a principal are its encoding and the rest.
proof fn lemma_read_principal(bytes: Seq<u8>)
    ensures
        read_principal(bytes) matches Some((owner, rest)) ==> bytes == principal_bytes(owner)
            + rest,
{
    if let Some((owner, rest)) = read_principal(bytes) {
        assert(bytes =~= seq![bytes[0]] + bytes.skip(1));
        a_read_word_is_its_encoding(bytes.skip(1));
        read_text_is_its_encoding(bytes.skip(1));
        a_read_blob_is_its_encoding(bytes.skip(1));
        assert(bytes =~= principal_bytes(owner) + rest);
    }
}

/// Bytes are one value's only if they are its canonical encoding: no two encodings stand for one
/// value, so every host derives the same identity from it.
pub proof fn only_the_canonical_bytes_decode(bytes: Seq<u8>)
    ensures
        decoded_head(bytes) matches Some(value) ==> bytes == head_bytes(value),
{
    if let Some(value) = decoded_head(bytes) {
        lemma_read_manifest(bytes);
        let (manifest, r1) = read_manifest(bytes)->0;
        a_read_word_list_is_its_encoding(r1);
        let (holders, r2) = read_word_list(r1)->0;
        read_text_is_its_encoding(r2);
        let (name, r3) = read_text(r2)->0;
        lemma_read_size(r3);
        let (size, r4) = read_size(r3)->0;
        lemma_read_policy(r4);
        let (names, r5) = read_policy(r4)->0;
        lemma_read_principal(r5);
        let (owner, r6) = read_principal(r5)->0;
        assert(r6 =~= Seq::<u8>::empty());
        assert(principal_bytes(owner) + r6 =~= principal_bytes(owner));
        assert(bytes =~= head_bytes(value));
    }
}

/// A head value written and read back is itself.
pub proof fn a_head_value_reads_back(value: HeadFacts)
    requires
        writable(value),
    ensures
        decoded_head(head_bytes(value)) == Some(value),
{
    a_head_value_ends_where_it_says(value, Seq::empty());
    assert(head_bytes(value) + Seq::<u8>::empty() =~= head_bytes(value));
}

/// A truncated value is refused: no proper prefix of a head value's bytes decodes.
pub proof fn a_truncated_head_value_is_refused(value: HeadFacts, cut: int)
    requires
        writable(value),
        0 <= cut < head_bytes(value).len(),
    ensures
        decoded_head(head_bytes(value).take(cut)) is None,
{
    let bytes = head_bytes(value);
    let prefix = bytes.take(cut);
    if let Some(other) = decoded_head(prefix) {
        let tail = bytes.skip(cut);
        lemma_decoded_is_writable(prefix);
        only_the_canonical_bytes_decode(prefix);
        assert(bytes =~= prefix + tail);
        a_head_value_ends_where_it_says(other, tail);
        a_head_value_reads_back(value);
        assert(tail.len() > 0);
    }
}

/// A decoded value can be written.
proof fn lemma_decoded_is_writable(bytes: Seq<u8>)
    ensures
        decoded_head(bytes) matches Some(value) ==> writable(value),
{
    if let Some(value) = decoded_head(bytes) {
        let (manifest, r1) = read_manifest(bytes)->0;
        a_read_word_list_is_its_encoding(r1);
        let (holders, r2) = read_word_list(r1)->0;
        read_text_is_its_encoding(r2);
        let (name, r3) = read_text(r2)->0;
        let (size, r4) = read_size(r3)->0;
        let (names, r5) = read_policy(r4)->0;
        read_text_is_its_encoding(r5.skip(1));
        a_read_blob_is_its_encoding(r5.skip(1));
    }
}

/// A padded value is refused: a head value's bytes with anything after them do not decode.
pub proof fn a_padded_head_value_is_refused(value: HeadFacts, padding: Seq<u8>)
    requires
        writable(value),
        padding.len() > 0,
    ensures
        decoded_head(head_bytes(value) + padding) is None,
{
    a_head_value_ends_where_it_says(value, padding);
}

impl HeadValue {
    /// The value's canonical bytes.
    pub fn to_record_bytes(&self) -> (bytes: Vec<u8>)
        ensures
            bytes@ == head_bytes(self@),
    {
        let mut out: Vec<u8> = Vec::new();
        push_manifest(&mut out, &self.manifest);
        push_word_list(&mut out, &self.content_holders);
        push_text(&mut out, self.name.as_str());
        push_size(&mut out, self.size);
        push_policy(&mut out, self.names);
        push_principal(&mut out, &self.owner);
        assert(out@ =~= head_bytes(self@));
        out
    }

    /// Parses a head record's value; none for bytes that are not exactly one value.
    pub fn from_record_bytes(bytes: &[u8]) -> (value: Option<HeadValue>)
        ensures
            match value {
                Some(value) => decoded_head(bytes@) == Some(value@),
                None => decoded_head(bytes@) is None,
            },
    {
        assert(bytes@.skip(0) =~= bytes@);
        let (manifest, at) = match manifest_at(bytes, 0) {
            Some(read) => read,
            None => {
                return None;
            },
        };
        let (content_holders, at) = match word_list_at(bytes, at) {
            Some(read) => read,
            None => {
                return None;
            },
        };
        let (name, at) = match text_at(bytes, at) {
            Some(read) => read,
            None => {
                return None;
            },
        };
        let (size, at) = match size_at(bytes, at) {
            Some(read) => read,
            None => {
                return None;
            },
        };
        let (names, at) = match policy_at(bytes, at) {
            Some(read) => read,
            None => {
                return None;
            },
        };
        let (owner, at) = match principal_at(bytes, at) {
            Some(read) => read,
            None => {
                return None;
            },
        };
        assert(bytes@.len() == bytes.len());
        if at != bytes.len() {
            return None;
        }
        Some(HeadValue { manifest, content_holders, name, size, names, owner })
    }

    /// The recorded content holders.
    pub fn holders(&self) -> (hosts: Vec<HostId>)
        ensures
            hosts@ == self.content_holders@.map_values(|host: u64| HostId(host)),
    {
        let mut hosts: Vec<HostId> = Vec::new();
        let mut i: usize = 0;
        while i < self.content_holders.len()
            invariant
                i <= self.content_holders@.len(),
                hosts@ =~= self.content_holders@.take(i as int).map_values(
                    |host: u64| HostId(host),
                ),
            decreases self.content_holders@.len() - i,
        {
            hosts.push(HostId(self.content_holders[i]));
            i += 1;
        }
        assert(self.content_holders@.take(i as int) =~= self.content_holders@);
        hosts
    }
}

/// Appends a manifest.
fn push_manifest(out: &mut Vec<u8>, manifest: &Option<[u8; 32]>)
    ensures
        final(out)@ == old(out)@ + manifest_bytes(
            match *manifest {
                Some(manifest) => Some(manifest@),
                None => None,
            },
        ),
{
    match manifest {
        None => {
            out.push(0);
            assert(out@ =~= old(out)@ + seq![0u8]);
        },
        Some(identity) => {
            out.push(1);
            push_bytes(out, identity.as_slice());
            assert(out@ =~= old(out)@ + (seq![1u8] + identity@));
        },
    }
}

/// Appends a size class.
fn push_size(out: &mut Vec<u8>, size: SizeClass)
    ensures
        final(out)@ == old(out)@ + size_bytes(size),
{
    match size {
        SizeClass::Bounded { limit } => {
            out.push(0);
            push_word(out, limit);
        },
        SizeClass::Unbounded => {
            out.push(1);
        },
    }
    assert(out@ =~= old(out)@ + size_bytes(size));
}

/// Appends a name policy.
fn push_policy(out: &mut Vec<u8>, names: NamePolicy)
    ensures
        final(out)@ == old(out)@ + policy_bytes(names),
{
    match names {
        NamePolicy::Exact => {
            out.push(0);
        },
        NamePolicy::Folded => {
            out.push(1);
        },
    }
    assert(out@ =~= old(out)@ + policy_bytes(names));
}

/// Appends a principal.
fn push_principal(out: &mut Vec<u8>, owner: &Principal)
    ensures
        final(out)@ == old(out)@ + principal_bytes(owner@),
{
    match owner {
        Principal::Uid { uid } => {
            out.push(0);
            push_word(out, *uid as u64);
        },
        Principal::Sid { sid } => {
            out.push(1);
            push_text(out, sid.as_str());
        },
        Principal::Certificate { certificate } => {
            out.push(2);
            push_blob(out, certificate.as_slice());
        },
    }
    assert(out@ =~= old(out)@ + principal_bytes(owner@));
}

/// The manifest at `at`, and where it ends.
fn manifest_at(bytes: &[u8], at: usize) -> (read: Option<(Option<[u8; 32]>, usize)>)
    requires
        at <= bytes@.len(),
    ensures
        match read {
            None => read_manifest(bytes@.skip(at as int)) is None,
            Some((manifest, end)) => end <= bytes@.len() && read_manifest(bytes@.skip(at as int))
                == Some(
                (
                    match manifest {
                        Some(manifest) => Some(manifest@),
                        None => None,
                    },
                    bytes@.skip(end as int),
                ),
            ),
        },
{
    let (tag, start) = match tag_at(bytes, at) {
        Some(read) => read,
        None => {
            return None;
        },
    };
    assert(bytes@.len() == bytes.len());
    if tag == 0 {
        return Some((None, start));
    }
    if tag != 1 || bytes.len() - start < 32 {
        return None;
    }
    let mut identity: [u8; 32] = [0;32];
    let mut i: usize = 0;
    while i < 32
        invariant
            i <= 32,
            start + 32 <= bytes@.len(),
            bytes@.len() == bytes.len(),
            forall|j: int| 0 <= j < i ==> identity@[j] == bytes@[start + j],
        decreases 32 - i,
    {
        identity[i] = bytes[start + i];
        i += 1;
    }
    proof {
        let rest = bytes@.skip(start as int);
        assert(rest.take(32) =~= identity@);
        assert(rest.skip(32) =~= bytes@.skip(start + 32));
    }
    Some((Some(identity), start + 32))
}

/// The size class at `at`, and where it ends.
fn size_at(bytes: &[u8], at: usize) -> (read: Option<(SizeClass, usize)>)
    requires
        at <= bytes@.len(),
    ensures
        match read {
            None => read_size(bytes@.skip(at as int)) is None,
            Some((size, end)) => end <= bytes@.len() && read_size(bytes@.skip(at as int)) == Some(
                (size, bytes@.skip(end as int)),
            ),
        },
{
    let (tag, start) = match tag_at(bytes, at) {
        Some(read) => read,
        None => {
            return None;
        },
    };
    if tag == 0 {
        match word_at(bytes, start) {
            None => None,
            Some((limit, end)) => Some((SizeClass::Bounded { limit }, end)),
        }
    } else if tag == 1 {
        Some((SizeClass::Unbounded, start))
    } else {
        None
    }
}

/// The name policy at `at`, and where it ends.
fn policy_at(bytes: &[u8], at: usize) -> (read: Option<(NamePolicy, usize)>)
    requires
        at <= bytes@.len(),
    ensures
        match read {
            None => read_policy(bytes@.skip(at as int)) is None,
            Some((names, end)) => end <= bytes@.len() && read_policy(bytes@.skip(at as int))
                == Some((names, bytes@.skip(end as int))),
        },
{
    let (tag, start) = match tag_at(bytes, at) {
        Some(read) => read,
        None => {
            return None;
        },
    };
    if tag == 0 {
        Some((NamePolicy::Exact, start))
    } else if tag == 1 {
        Some((NamePolicy::Folded, start))
    } else {
        None
    }
}

/// The principal at `at`, and where it ends.
fn principal_at(bytes: &[u8], at: usize) -> (read: Option<(Principal, usize)>)
    requires
        at <= bytes@.len(),
    ensures
        match read {
            None => read_principal(bytes@.skip(at as int)) is None,
            Some((owner, end)) => end <= bytes@.len() && read_principal(bytes@.skip(at as int))
                == Some((owner@, bytes@.skip(end as int))),
        },
{
    let (tag, start) = match tag_at(bytes, at) {
        Some(read) => read,
        None => {
            return None;
        },
    };
    if tag == 0 {
        match word_at(bytes, start) {
            None => None,
            Some((uid, end)) => if uid <= u32::MAX as u64 {
                Some((Principal::Uid { uid: uid as u32 }, end))
            } else {
                None
            },
        }
    } else if tag == 1 {
        match text_at(bytes, start) {
            None => None,
            Some((sid, end)) => Some((Principal::Sid { sid }, end)),
        }
    } else if tag == 2 {
        match blob_at(bytes, start) {
            None => None,
            Some((certificate, end)) => Some((Principal::Certificate { certificate }, end)),
        }
    } else {
        None
    }
}

/// An object's candidates, and those that acknowledged.
#[derive(Debug, PartialEq, Eq)]
pub struct Placement {
    pub candidates: Vec<HostId>,
    pub acked: Vec<HostId>,
}

/// A placement's contents.
pub struct PlacementFacts {
    pub candidates: Seq<HostId>,
    pub acked: Seq<HostId>,
}

impl View for Placement {
    type V = PlacementFacts;

    open spec fn view(&self) -> PlacementFacts {
        PlacementFacts { candidates: self.candidates@, acked: self.acked@ }
    }
}

impl PlacementFacts {
    /// Whether a quorum acknowledged: one more than the failures to tolerate.
    pub open spec fn placed(self, quorum: Quorum) -> bool {
        self.acked.len() > quorum.f
    }
}

impl Placement {
    /// Whether a quorum acknowledged.
    pub fn placed(&self, quorum: Quorum) -> (placed: bool)
        ensures
            placed == self@.placed(quorum),
    {
        self.acked.len() as u64 > quorum.f as u64
    }

    /// Folds one acknowledgement: a repeat is inert.
    pub fn acknowledge(&mut self, holder: HostId)
        ensures
            final(self).candidates == old(self).candidates,
            final(self).acked@ == with_ack(old(self).acked@, holder),
    {
        if !contains_host(&self.acked, holder) {
            self.acked.push(holder);
        }
    }

    /// A copy.
    pub fn copy(&self) -> (placement: Placement)
        ensures
            placement@ == self@,
    {
        Placement {
            candidates: copy_hosts(&self.candidates),
            acked: copy_hosts(&self.acked),
        }
    }
}

/// A copy of a list of hosts.
pub fn copy_hosts(hosts: &Vec<HostId>) -> (copy: Vec<HostId>)
    ensures
        copy@ == hosts@,
{
    let mut copy: Vec<HostId> = Vec::new();
    let mut i: usize = 0;
    while i < hosts.len()
        invariant
            i <= hosts@.len(),
            copy@ == hosts@.take(i as int),
        decreases hosts@.len() - i,
    {
        copy.push(hosts[i]);
        i += 1;
        assert(copy@ =~= hosts@.take(i as int));
    }
    assert(hosts@.take(i as int) =~= hosts@);
    copy
}

/// Acknowledgements after one more: a repeat is inert.
pub open spec fn with_ack(acked: Seq<HostId>, holder: HostId) -> Seq<HostId> {
    if lists(acked, holder) {
        acked
    } else {
        acked.push(holder)
    }
}

/// Acknowledgements after a round's.
pub open spec fn with_acks(acked: Seq<HostId>, round: Seq<HostId>) -> Seq<HostId>
    decreases round.len(),
{
    if round.len() == 0 {
        acked
    } else {
        with_ack(with_acks(acked, round.drop_last()), round.last())
    }
}

/// Acknowledgements only grow, are distinct if they were, and after a round are those before it
/// and the round's: the union, in whatever rounds they came.
pub proof fn acknowledgements_accumulate(acked: Seq<HostId>, round: Seq<HostId>, host: HostId)
    ensures
        lists(with_acks(acked, round), host) <==> lists(acked, host) || lists(round, host),
        acked.no_duplicates() ==> with_acks(acked, round).no_duplicates(),
        with_acks(acked, round).len() >= acked.len(),
        acked.is_prefix_of(with_acks(acked, round)),
    decreases round.len(),
{
    if round.len() > 0 {
        let rest = round.drop_last();
        let last = round.last();
        acknowledgements_accumulate(acked, rest, host);
        acknowledgements_accumulate(acked, rest, last);
        let before = with_acks(acked, rest);
        let after = with_acks(acked, round);
        assert(lists(round, host) <==> lists(rest, host) || host == last) by {
            if lists(round, host) {
                let k = choose|k: int| 0 <= k < round.len() && round[k] == host;
                if k < rest.len() {
                    assert(rest[k] == host);
                }
            }
            if lists(rest, host) {
                let k = choose|k: int| 0 <= k < rest.len() && rest[k] == host;
                assert(round[k] == host);
            }
            if host == last {
                assert(round[round.len() - 1] == host);
            }
        }
        if !lists(before, last) {
            assert(after == before.push(last));
            if lists(before, host) {
                let k = choose|k: int| 0 <= k < before.len() && before[k] == host;
                assert(after[k] == host);
            }
            if host == last {
                assert(after[before.len() as int] == host);
            }
            if lists(after, host) {
                let k = choose|k: int| 0 <= k < after.len() && after[k] == host;
                if k < before.len() {
                    assert(before[k] == host);
                }
            }
        }
    }
}

/// The placement recorded for a volume's head at one sequence.
#[derive(Debug, PartialEq, Eq)]
pub struct PlacedHead {
    /// The head sequence.
    pub sequence: u64,
    /// The epoch the head was written, or adopted, under.
    pub epoch: HostEpoch,
    pub placement: Placement,
}

/// A recorded placement's contents.
pub struct PlacedFacts {
    pub sequence: u64,
    pub epoch: HostEpoch,
    pub placement: PlacementFacts,
}

impl View for PlacedHead {
    type V = PlacedFacts;

    open spec fn view(&self) -> PlacedFacts {
        PlacedFacts {
            sequence: self.sequence,
            epoch: self.epoch,
            placement: self.placement@,
        }
    }
}

/// A seal in progress: the snapshot archived in slices, then its content put to the candidates
/// until a quorum holds it.
#[derive(Debug, PartialEq, Eq)]
pub struct SealJob {
    pub snapshot: SnapshotId,
    /// The head sequence the seal places for.
    pub sequence: u64,
    /// Whether the archive walk is still in progress.
    pub archiving: bool,
    /// Whether the complete archive is here, and not out on a put.
    pub archive: bool,
    /// The archive's identity, once it is complete.
    pub manifest: Option<[u8; 32]>,
    /// The content's placement so far.
    pub content: Placement,
    /// The content rounds that produced a placement.
    pub rounds: u32,
    /// When the first round was dispatched.
    pub first_round_at_ns: Option<u64>,
    /// Whether this is the healer's repeated offer of a placed snapshot.
    pub healing: bool,
}

} // verus!
