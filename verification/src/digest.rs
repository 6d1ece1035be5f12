//! Content digests: BLAKE3, and the identities read off a digest.

use vstd::arithmetic::power::pow;
use vstd::prelude::*;

verus! {

/// The 32 bytes BLAKE3 gives for an input.
pub uninterp spec fn blake3_digest(input: Seq<u8>) -> Seq<u8>;

/// The 32 bytes BLAKE3's keyed mode gives for an input under a 32-byte key.
pub uninterp spec fn blake3_keyed_digest(key: Seq<u8>, input: Seq<u8>) -> Seq<u8>;

/// `blake3::hash`: the digest is a function of the input bytes alone.
#[verifier::external_body]
pub(crate) fn hash(input: &[u8]) -> (digest: [u8; 32])
    ensures
        digest@ == blake3_digest(input@),
{
    *blake3::hash(input).as_bytes()
}

/// `blake3::keyed_hash`: the digest is a function of the key and the input bytes alone.
#[verifier::external_body]
pub(crate) fn keyed_hash(key: &[u8; 32], input: &[u8]) -> (digest: [u8; 32])
    ensures
        digest@ == blake3_keyed_digest(key@, input@),
{
    *blake3::keyed_hash(key, input).as_bytes()
}

/// The number whose little-endian bytes are `bytes`.
pub open spec fn little_endian(bytes: Seq<u8>) -> nat
    decreases bytes.len(),
{
    if bytes.len() == 0 {
        0
    } else {
        bytes[0] as nat + 256 * little_endian(bytes.skip(1))
    }
}

/// The first `count` little-endian bytes of `value`.
pub open spec fn le_bytes(value: nat, count: nat) -> Seq<u8>
    decreases count,
{
    if count == 0 {
        Seq::empty()
    } else {
        seq![(value % 256) as u8] + le_bytes(value / 256, (count - 1) as nat)
    }
}

/// A little-endian number of `n` bytes is below `256^n`.
proof fn lemma_little_endian_bound(bytes: Seq<u8>)
    ensures
        little_endian(bytes) < pow(256, bytes.len()),
    decreases bytes.len(),
{
    reveal(pow);
    if bytes.len() > 0 {
        lemma_little_endian_bound(bytes.skip(1));
        assert(pow(256, bytes.len()) == 256 * pow(256, bytes.skip(1).len()));
    }
}

/// The first `count` bytes, at most eight, read as a little-endian number.
fn read_little_endian(bytes: &[u8; 32], count: usize) -> (value: u64)
    requires
        count <= 8,
    ensures
        value == little_endian(bytes@.take(count as int)),
{
    let mut value: u64 = 0;
    let mut i: usize = count;
    proof {
        assert(bytes@.subrange(count as int, count as int) =~= Seq::<u8>::empty());
    }
    while i > 0
        invariant
            i <= count <= 8,
            bytes@.len() == 32,
            value == little_endian(bytes@.subrange(i as int, count as int)),
        decreases i,
    {
        let ghost tail = bytes@.subrange(i as int, count as int);
        let ghost longer = bytes@.subrange(i - 1, count as int);
        proof {
            assert(longer.skip(1) =~= tail);
            lemma_little_endian_bound(longer);
            vstd::arithmetic::power::lemma_pow_increases(256, longer.len(), 8);
            assert(pow(256, 8) == 0x1_0000_0000_0000_0000) by {
                reveal_with_fuel(pow, 9);
            }
            assert(little_endian(longer) == longer[0] as nat + 256 * little_endian(longer.skip(1)));
        }
        value = value * 256 + bytes[i - 1] as u64;
        i -= 1;
    }
    assert(bytes@.subrange(0, count as int) =~= bytes@.take(count as int));
    value
}

/// The first eight bytes of a digest as a little-endian number.
pub open spec fn leading_id(digest: Seq<u8>) -> nat {
    little_endian(digest.take(8))
}

/// The first eight bytes of a digest as a little-endian number.
pub fn id_of_digest(digest: &[u8; 32]) -> (id: u64)
    ensures
        id == leading_id(digest@),
{
    read_little_endian(digest, 8)
}

/// The first two bytes of a digest as a little-endian number.
pub fn short_id_of_digest(digest: &[u8; 32]) -> (id: u16)
    ensures
        id == little_endian(digest@.take(2)),
{
    let value: u64 = read_little_endian(digest, 2);
    proof {
        lemma_little_endian_bound(digest@.take(2));
        assert(pow(256, 2) == 65536) by {
            reveal_with_fuel(pow, 3);
        }
    }
    value as u16
}

/// Appends the first `count` little-endian bytes of `value`.
pub fn push_le_bytes(out: &mut Vec<u8>, value: u64, count: usize)
    ensures
        final(out)@ == old(out)@ + le_bytes(value as nat, count as nat),
{
    let mut rest: u64 = value;
    let mut left: usize = count;
    assert(out@ + le_bytes(rest as nat, left as nat) =~= old(out)@ + le_bytes(
        value as nat,
        count as nat,
    ));
    while left > 0
        invariant
            out@ + le_bytes(rest as nat, left as nat) == old(out)@ + le_bytes(
                value as nat,
                count as nat,
            ),
        decreases left,
    {
        let ghost before = out@;
        let ghost whole = le_bytes(rest as nat, left as nat);
        let byte: u8 = (rest % 256) as u8;
        out.push(byte);
        rest = rest / 256;
        left -= 1;
        proof {
            assert(whole == seq![byte] + le_bytes(rest as nat, left as nat));
            assert(out@ + le_bytes(rest as nat, left as nat) =~= before + whole);
        }
    }
    assert(out@ + le_bytes(rest as nat, 0) =~= out@);
}

/// Appends `bytes`.
pub fn push_bytes(out: &mut Vec<u8>, bytes: &[u8])
    ensures
        final(out)@ == old(out)@ + bytes@,
{
    let mut i: usize = 0;
    assert(out@ =~= old(out)@ + bytes@.take(0));
    while i < bytes.len()
        invariant
            i <= bytes.len(),
            out@ == old(out)@ + bytes@.take(i as int),
        decreases bytes.len() - i,
    {
        out.push(bytes[i]);
        i += 1;
        proof {
            assert(out@ =~= old(out)@ + bytes@.take(i as int));
        }
    }
    assert(bytes@.take(i as int) =~= bytes@);
}

/// A copy of `bytes`.
pub fn copy_bytes(bytes: &[u8]) -> (copy: Vec<u8>)
    ensures
        copy@ == bytes@,
{
    let mut copy: Vec<u8> = Vec::new();
    push_bytes(&mut copy, bytes);
    assert(copy@ =~= bytes@);
    copy
}

/// Whether two byte strings are equal.
pub fn same_bytes(a: &[u8], b: &[u8]) -> (same: bool)
    ensures
        same == (a@ == b@),
{
    if a.len() != b.len() {
        return false;
    }
    let mut i: usize = 0;
    while i < a.len()
        invariant
            i <= a.len(),
            a.len() == b.len(),
            forall|j: int| 0 <= j < i ==> a@[j] == b@[j],
        decreases a.len() - i,
    {
        if a[i] != b[i] {
            return false;
        }
        i += 1;
    }
    assert(a@ =~= b@);
    true
}

/// The first byte of a little-endian number is its remainder by 256 and the rest its quotient, written
/// and read alike.
pub proof fn the_first_byte_is_the_least(value: nat, count: nat, bytes: Seq<u8>)
    requires
        count > 0,
        bytes.len() > 0,
    ensures
        le_bytes(value, count)[0] == value % 256,
        le_bytes(value, count).skip(1) == le_bytes(value / 256, (count - 1) as nat),
        little_endian(bytes) % 256 == bytes[0],
        little_endian(bytes) / 256 == little_endian(bytes.skip(1)),
        little_endian(Seq::<u8>::empty()) == 0,
{
    let rest = le_bytes(value / 256, (count - 1) as nat);
    assert(le_bytes(value, count) =~= seq![(value % 256) as u8] + rest);
    assert(le_bytes(value, count).skip(1) =~= rest);
}

/// Two digests have the same identity exactly when their first eight bytes agree.
pub proof fn an_identity_is_the_first_eight_bytes(a: Seq<u8>, b: Seq<u8>)
    requires
        a.len() >= 8,
        b.len() >= 8,
    ensures
        leading_id(a) == leading_id(b) <==> a.take(8) == b.take(8),
        leading_id(a) % 256 == a[0],
{
    if leading_id(a) == leading_id(b) {
        lemma_same_bytes(a.take(8), b.take(8));
    }
    assert(a.take(8)[0] == a[0]);
}

/// Equally many bytes with the same little-endian number are the same.
proof fn lemma_same_bytes(a: Seq<u8>, b: Seq<u8>)
    requires
        a.len() == b.len(),
        little_endian(a) == little_endian(b),
    ensures
        a == b,
    decreases a.len(),
{
    if a.len() > 0 {
        assert(a[0] == b[0] && little_endian(a.skip(1)) == little_endian(b.skip(1)));
        lemma_same_bytes(a.skip(1), b.skip(1));
        assert(a =~= seq![a[0]] + a.skip(1));
        assert(b =~= seq![b[0]] + b.skip(1));
    } else {
        assert(a =~= b);
    }
}

} // verus!
