//! The identities the server's rules speak of.

use vstd::prelude::*;

verus! {

/// A fleet member: a host as one boot of it runs, or the stable anchor behind its boots.
#[derive(Clone, Copy, Debug, PartialEq, Eq, Structural, PartialOrd, Ord, Hash)]
pub struct HostId(pub u64);

/// A region of the fleet; `RegionId(0)` is the sole region of a fleet that declares none.
#[derive(Clone, Copy, Debug, PartialEq, Eq, Structural, PartialOrd, Ord, Hash)]
pub struct RegionId(pub u64);

/// A failure domain hosts share.
#[derive(Clone, Copy, Debug, PartialEq, Eq, Structural, PartialOrd, Ord, Hash)]
pub struct DomainId(pub u64);

/// A replicated object: its sixteen identity bytes, read as one big-endian number so that ids
/// order as their bytes do.
#[derive(Clone, Copy, Debug, PartialEq, Eq, Structural, PartialOrd, Ord, Hash)]
pub struct ObjectId(pub u128);

/// A number's lowest bytes, the highest of them first.
pub open spec fn be_bytes(value: nat, count: nat) -> Seq<u8>
    decreases count,
{
    if count == 0 {
        Seq::empty()
    } else {
        be_bytes(value / 256, (count - 1) as nat).push((value % 256) as u8)
    }
}

/// Appends a number's lowest bytes, the highest of them first.
fn push_be_bytes(bytes: &mut Vec<u8>, value: u128, count: usize)
    ensures
        final(bytes)@ == old(bytes)@ + be_bytes(value as nat, count as nat),
    decreases count,
{
    if count > 0 {
        push_be_bytes(bytes, value / 256, count - 1);
        bytes.push((value % 256) as u8);
    }
    assert(bytes@ =~= old(bytes)@ + be_bytes(value as nat, count as nat));
}

impl ObjectId {
    /// The sixteen identity bytes.
    pub open spec fn identity(self) -> Seq<u8> {
        be_bytes(self.0 as nat, 16)
    }

    /// The sixteen identity bytes.
    pub fn bytes(self) -> (bytes: Vec<u8>)
        ensures
            bytes@ == self.identity(),
    {
        let mut bytes: Vec<u8> = Vec::new();
        push_be_bytes(&mut bytes, self.0, 16);
        assert(bytes@ =~= self.identity());
        bytes
    }
}

/// A snapshot of a volume.
#[derive(Clone, Copy, Debug, PartialEq, Eq, Structural, PartialOrd, Ord, Hash)]
pub struct SnapshotId(pub u64);

/// A host's fencing epoch.
#[derive(Clone, Copy, Debug, PartialEq, Eq, Structural, PartialOrd, Ord, Hash)]
pub struct HostEpoch(pub u64);

/// The fault tolerance `f`: a record commits at `f + 1` of `2f + 1` candidate holders.
#[derive(Clone, Copy, Debug, PartialEq, Eq, Structural)]
pub struct Quorum {
    pub f: u32,
}

/// Whether `hosts` lists `host`.
pub open spec fn lists(hosts: Seq<HostId>, host: HostId) -> bool {
    hosts.contains(host)
}

/// Whether `hosts` lists `host`.
pub fn contains_host(hosts: &Vec<HostId>, host: HostId) -> (found: bool)
    ensures
        found == lists(hosts@, host),
{
    let mut i: usize = 0;
    while i < hosts.len()
        invariant
            i <= hosts.len(),
            forall|j: int| 0 <= j < i ==> hosts@[j] != host,
        decreases hosts.len() - i,
    {
        if hosts[i] == host {
            assert(hosts@[i as int] == host);
            return true;
        }
        i += 1;
    }
    false
}

/// An object's identity is its number's sixteen bytes with the most significant first: the little-endian
/// bytes in reverse.
pub proof fn an_identity_is_big_endian(value: nat, count: nat)
    ensures
        be_bytes(value, count) == crate::digest::le_bytes(value, count).reverse(),
        be_bytes(value, count).len() == count,
    decreases count,
{
    if count > 0 {
        let fewer = (count - 1) as nat;
        an_identity_is_big_endian(value / 256, fewer);
        let rest = crate::digest::le_bytes(value / 256, fewer);
        assert(rest.len() == fewer);
        assert(be_bytes(value, count) =~= crate::digest::le_bytes(value, count).reverse());
    } else {
        assert(be_bytes(value, 0) =~= crate::digest::le_bytes(value, 0).reverse());
    }
}

/// An object's identity has sixteen bytes, and its last is the number's remainder by 256.
pub proof fn an_identity_has_sixteen_bytes(object: ObjectId)
    ensures
        object.identity().len() == 16,
        object.identity()[15] == object.0 % 256,
{
    an_identity_is_big_endian(object.0 as nat, 16);
}

} // verus!
