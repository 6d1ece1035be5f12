//! IPv4 addresses as the manifest and the resolver state them.

use crate::text::{decimal, push_decimal};
use vstd::prelude::*;
use vstd::string::StringExecFns;

verus! {

/// An IPv4 address, by its four octets.
#[derive(Clone, Copy, Debug, PartialEq, Eq, Structural, Hash)]
pub struct Ipv4Addr(pub u8, pub u8, pub u8, pub u8);

/// A socket address.
#[derive(Clone, Copy, Debug, PartialEq, Eq, Structural, Hash)]
pub struct SocketAddrV4 {
    pub ip: Ipv4Addr,
    pub port: u16,
}

impl Ipv4Addr {
    /// The address of these octets.
    pub fn new(a: u8, b: u8, c: u8, d: u8) -> (address: Ipv4Addr)
        ensures
            address == Ipv4Addr(a, b, c, d),
    {
        Ipv4Addr(a, b, c, d)
    }
}

impl SocketAddrV4 {
    /// The socket address of `ip` and `port`.
    pub fn new(ip: Ipv4Addr, port: u16) -> (address: SocketAddrV4)
        ensures
            address == (SocketAddrV4 { ip, port }),
    {
        SocketAddrV4 { ip, port }
    }

    /// The dotted form: `a.b.c.d:port`.
    pub open spec fn dotted(self) -> Seq<char> {
        decimal(self.ip.0 as nat) + "."@ + decimal(self.ip.1 as nat) + "."@ + decimal(
            self.ip.2 as nat,
        ) + "."@ + decimal(self.ip.3 as nat) + ":"@ + decimal(self.port as nat)
    }

    /// Appends the dotted form.
    pub fn push_to(&self, text: &mut String)
        ensures
            final(text)@ == old(text)@ + self.dotted(),
    {
        push_decimal(text, self.ip.0 as u64);
        text.append(".");
        push_decimal(text, self.ip.1 as u64);
        text.append(".");
        push_decimal(text, self.ip.2 as u64);
        text.append(".");
        push_decimal(text, self.ip.3 as u64);
        text.append(":");
        push_decimal(text, self.port as u64);
        assert(text@ =~= old(text)@ + self.dotted());
    }
}

/// An address is written with its first number first and its port last, behind a colon.
pub proof fn an_address_ends_in_its_port(address: SocketAddrV4)
    ensures
        (decimal(address.ip.0 as nat) + "."@ + decimal(address.ip.1 as nat) + "."@ + decimal(
            address.ip.2 as nat,
        ) + "."@ + decimal(address.ip.3 as nat)) + (":"@ + decimal(address.port as nat))
            == address.dotted(),
{
    assert((decimal(address.ip.0 as nat) + "."@ + decimal(address.ip.1 as nat) + "."@ + decimal(
        address.ip.2 as nat,
    ) + "."@ + decimal(address.ip.3 as nat)) + (":"@ + decimal(address.port as nat))
        =~= address.dotted());
}

} // verus!
