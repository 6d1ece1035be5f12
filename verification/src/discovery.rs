//! Authenticated, bounded fleet enrollment. Seeds are dial addresses, not a complete membership
//! list: an operator-issued certificate authorizes a region and a failure domain through the signed
//! name `r<region>.d<domain>.<fleet>`. A peer exchanges one candidate at a time, and every
//! candidate's issuer and signed scope are checked before it is dialed. Enrollment grants no vote.

use crate::deploy::{certificate_id, host_id_of_certificate, Plane};
use crate::digest::{copy_bytes, same_bytes};
use crate::ids::{DomainId, HostId, RegionId};
use crate::net::SocketAddrV4;
use crate::table::{are_keys, keys_of};
use crate::text::{decimal, push_decimal};
use std::collections::BTreeMap;
use vstd::prelude::*;
use vstd::std_specs::btree::*;
use vstd::string::StringExecFns;

verus! {

broadcast use group_btree_axioms;

/// The enrollment exchange's stream.
pub const STREAM: u64 = 13;

/// The frames an enrollment message may take: a request's metadata and one announcement, or a
/// reply's cursor and two.
pub const MESSAGE_FRAMES: usize = 3;

/// An advertised address.
#[derive(Clone, Debug, PartialEq, Eq)]
pub enum NodeAddress {
    /// A literal socket address.
    Ip(SocketAddrV4),
    /// A DNS name, resolved at every fresh dial.
    Name { host: String, port: u16 },
}

impl NodeAddress {
    /// The advertised port.
    pub open spec fn port_of(&self) -> u16 {
        match self {
            NodeAddress::Ip(address) => address.port,
            NodeAddress::Name { port, .. } => *port,
        }
    }

    /// The advertised port.
    pub fn port(&self) -> (port: u16)
        ensures
            port == self.port_of(),
    {
        match self {
            NodeAddress::Ip(address) => address.port,
            NodeAddress::Name { port, .. } => *port,
        }
    }

    /// A copy.
    fn copy(&self) -> (copy: NodeAddress)
        ensures
            copy == *self,
    {
        match self {
            NodeAddress::Ip(address) => NodeAddress::Ip(*address),
            NodeAddress::Name { host, port } => NodeAddress::Name {
                host: host.clone(),
                port: *port,
            },
        }
    }
}

/// An endpoint as it was announced: its text, and the address the text states if it states one.
#[derive(Clone, Debug, PartialEq, Eq)]
pub struct Endpoint {
    pub text: String,
    pub address: Option<NodeAddress>,
}

impl Endpoint {
    /// Whether the text states an address with a port.
    pub open spec fn usable(&self) -> bool {
        self.address matches Some(address) && address.port_of() != 0
    }

    /// Whether the text states an address with a port.
    fn is_usable(&self) -> (usable: bool)
        ensures
            usable == self.usable(),
    {
        match &self.address {
            Some(address) => address.port() != 0,
            None => false,
        }
    }

    /// A copy.
    fn copy(&self) -> (copy: Endpoint)
        ensures
            copy == *self,
    {
        Endpoint {
            text: self.text.clone(),
            address: match &self.address {
                Some(address) => Some(address.copy()),
                None => None,
            },
        }
    }
}

/// An operator-authorized identity and its advertised endpoints. The endpoints are hints: each
/// connection authenticates the certificate.
#[derive(Debug)]
pub struct Announcement {
    pub anchor: HostId,
    pub certificate: Vec<u8>,
    pub probe: Endpoint,
    pub record: Endpoint,
    pub region: u64,
    pub domain: u64,
}

/// An announcement's contents.
pub struct AnnouncementFacts {
    pub anchor: HostId,
    pub certificate: Seq<u8>,
    pub probe: Endpoint,
    pub record: Endpoint,
    pub region: u64,
    pub domain: u64,
}

impl View for Announcement {
    type V = AnnouncementFacts;

    open spec fn view(&self) -> AnnouncementFacts {
        AnnouncementFacts {
            anchor: self.anchor,
            certificate: self.certificate@,
            probe: self.probe,
            record: self.record,
            region: self.region,
            domain: self.domain,
        }
    }
}

impl AnnouncementFacts {
    /// Whether two announcements say the same: an endpoint is its text.
    pub open spec fn says(self, other: AnnouncementFacts) -> bool {
        &&& self.anchor == other.anchor
        &&& self.certificate == other.certificate
        &&& self.probe.text@ == other.probe.text@
        &&& self.record.text@ == other.record.text@
        &&& self.region == other.region
        &&& self.domain == other.domain
    }
}

impl Announcement {
    /// A copy.
    pub fn copy(&self) -> (copy: Announcement)
        ensures
            copy@ == self@,
    {
        Announcement {
            anchor: self.anchor,
            certificate: copy_bytes(self.certificate.as_slice()),
            probe: self.probe.copy(),
            record: self.record.copy(),
            region: self.region,
            domain: self.domain,
        }
    }

    /// Whether two announcements say the same.
    fn same(&self, other: &Announcement) -> (same: bool)
        ensures
            same == self@.says(other@),
    {
        self.anchor == other.anchor && same_bytes(
            self.certificate.as_slice(),
            other.certificate.as_slice(),
        ) && self.probe.text == other.probe.text && self.record.text == other.record.text
            && self.region == other.region && self.domain == other.domain
    }
}

/// An announcement as it arrived: with its encoded length, the member id its anchor's boots start
/// from, and whether one of the fleet's enrollment roots issued its certificate.
#[derive(Debug)]
pub struct Presented {
    pub announce: Announcement,
    pub encoded_bytes: usize,
    pub seed: HostId,
    pub issued: bool,
}

/// A presented announcement's contents.
pub struct PresentedFacts {
    pub announce: AnnouncementFacts,
    pub encoded_bytes: usize,
    pub seed: HostId,
    pub issued: bool,
}

impl View for Presented {
    type V = PresentedFacts;

    open spec fn view(&self) -> PresentedFacts {
        PresentedFacts {
            announce: self.announce@,
            encoded_bytes: self.encoded_bytes,
            seed: self.seed,
            issued: self.issued,
        }
    }
}

/// Why an enrollment was refused.
#[derive(Clone, Copy, Debug, PartialEq, Eq, Structural)]
pub enum Refusal {
    Malformed,
    Untrusted,
    Scope,
    Capacity,
    Identity,
    Publication,
}

impl Refusal {
    /// The status counter of each refusal.
    pub open spec fn counter_name(self) -> &'static str {
        match self {
            Refusal::Malformed => "fleet.enrollment_malformed",
            Refusal::Untrusted => "fleet.enrollment_untrusted",
            Refusal::Scope => "fleet.enrollment_scope",
            Refusal::Capacity => "fleet.enrollment_capacity",
            Refusal::Identity => "fleet.enrollment_identity",
            Refusal::Publication => "fleet.enrollment_publication",
        }
    }

    /// The status counter of each refusal.
    pub fn counter(self) -> (name: &'static str)
        ensures
            name == self.counter_name(),
    {
        match self {
            Refusal::Malformed => "fleet.enrollment_malformed",
            Refusal::Untrusted => "fleet.enrollment_untrusted",
            Refusal::Scope => "fleet.enrollment_scope",
            Refusal::Capacity => "fleet.enrollment_capacity",
            Refusal::Identity => "fleet.enrollment_identity",
            Refusal::Publication => "fleet.enrollment_publication",
        }
    }
}

/// A peer this node dials.
#[derive(Debug)]
pub struct FleetPeer {
    /// The peer's stable anchor.
    pub anchor: HostId,
    /// The member id its boots start from.
    pub host: HostId,
    /// The peer's probe address.
    pub address: NodeAddress,
    /// The peer's record address.
    pub record_address: NodeAddress,
    /// The certificate the session pins.
    pub certificate: Vec<u8>,
}

/// A peer's contents.
pub struct FleetPeerFacts {
    pub anchor: HostId,
    pub host: HostId,
    pub address: NodeAddress,
    pub record_address: NodeAddress,
    pub certificate: Seq<u8>,
}

impl View for FleetPeer {
    type V = FleetPeerFacts;

    open spec fn view(&self) -> FleetPeerFacts {
        FleetPeerFacts {
            anchor: self.anchor,
            host: self.host,
            address: self.address,
            record_address: self.record_address,
            certificate: self.certificate@,
        }
    }
}

/// The signed name of a scope.
pub open spec fn scope_text(fleet: Seq<char>, region: u64, domain: u64) -> Seq<char> {
    "r"@ + decimal(region as nat) + ".d"@ + decimal(domain as nat) + "."@ + fleet
}

/// The exact signed certificate name an enrollment issuer adds alongside the fleet's name.
pub fn scope_name(fleet: &str, region: u64, domain: u64) -> (name: String)
    ensures
        name@ == scope_text(fleet@, region, domain),
{
    let mut name = String::new();
    name.append("r");
    push_decimal(&mut name, region);
    name.append(".d");
    push_decimal(&mut name, domain);
    name.append(".");
    name.append(fleet);
    assert(name@ =~= scope_text(fleet@, region, domain));
    name
}

/// The error of a certificate that does not parse or does not carry a name.
#[verifier::external_type_specification]
#[verifier::external_body]
pub struct ExRustlsError(rustls::Error);

/// The error of text that is no server name.
#[verifier::external_type_specification]
#[verifier::external_body]
pub struct ExInvalidDnsNameError(rustls::pki_types::InvalidDnsNameError);

/// Whether DER bytes parse as an end-entity certificate.
pub uninterp spec fn parses_as_certificate(der: Seq<u8>) -> bool;

/// Whether text is a server name.
pub uninterp spec fn parses_as_server_name(name: Seq<char>) -> bool;

/// Whether a certificate has an alternative name that matches a server name.
pub uninterp spec fn carries_name(der: Seq<u8>, name: Seq<char>) -> bool;

/// `rustls::server::ParsedCertificate::try_from`: whether the bytes parse depends on them alone.
#[verifier::external_body]
fn parse_certificate(der: &[u8]) -> (parsed: Result<(), rustls::Error>)
    ensures
        parsed is Ok == parses_as_certificate(der@),
{
    let certificate = rustls::pki_types::CertificateDer::from(der);
    rustls::server::ParsedCertificate::try_from(&certificate).map(|_| ())
}

/// `rustls::pki_types::ServerName::try_from`: whether text is a server name depends on it alone.
#[verifier::external_body]
fn parse_server_name(name: &str) -> (parsed: Result<(), rustls::pki_types::InvalidDnsNameError>)
    ensures
        parsed is Ok == parses_as_server_name(name@),
{
    rustls::pki_types::ServerName::try_from(name).map(|_| ())
}

/// `rustls::client::verify_server_name`: whether the certificate carries the name depends on the
/// two alone. Both parse.
#[verifier::external_body]
fn verify_name(der: &[u8], name: &str) -> (verified: Result<(), rustls::Error>)
    requires
        parses_as_certificate(der@),
        parses_as_server_name(name@),
    ensures
        verified is Ok == carries_name(der@, name@),
{
    let certificate = rustls::pki_types::CertificateDer::from(der);
    let parsed = rustls::server::ParsedCertificate::try_from(&certificate)?;
    match rustls::pki_types::ServerName::try_from(name) {
        Ok(name) => rustls::client::verify_server_name(&parsed, &name),
        Err(_) => Err(rustls::Error::UnsupportedNameType),
    }
}

/// A node's enrollment authority: the certificates the manifest pins and the scopes it declares for
/// them, what this node announces, and what it has learned, bounded by the fleet's peer capacity.
#[derive(Debug)]
pub struct Discovery {
    /// The fleet's name.
    pub name: String,
    /// The pinned certificates, by anchor.
    pub pins: BTreeMap<u64, Vec<u8>>,
    /// The declared region and domain of each pinned anchor.
    pub scopes: BTreeMap<u64, (u64, u64)>,
    /// This node's own announcement.
    pub local: Announcement,
    /// The learned announcements, by anchor.
    pub records: BTreeMap<u64, Announcement>,
    /// The peers this node may enroll.
    pub capacity: usize,
    /// How often the roster has changed, from one.
    pub generation: u64,
    /// The largest announcement, one frame.
    pub frame_cap: usize,
}

/// An enrollment authority's contents.
pub struct DiscoveryFacts {
    pub name: Seq<char>,
    pub pins: Map<u64, Seq<u8>>,
    pub scopes: Map<u64, (u64, u64)>,
    pub local: AnnouncementFacts,
    pub records: Map<u64, AnnouncementFacts>,
    pub capacity: usize,
    pub generation: u64,
    pub frame_cap: usize,
}

/// The contents of each pinned certificate.
pub open spec fn pin_facts(pins: Map<u64, Vec<u8>>) -> Map<u64, Seq<u8>> {
    pins.map_values(|certificate: Vec<u8>| certificate@)
}

/// The contents of each record.
pub open spec fn record_facts(records: Map<u64, Announcement>) -> Map<u64, AnnouncementFacts> {
    records.map_values(|record: Announcement| record@)
}

impl View for Discovery {
    type V = DiscoveryFacts;

    open spec fn view(&self) -> DiscoveryFacts {
        DiscoveryFacts {
            name: self.name@,
            pins: pin_facts(self.pins@),
            scopes: self.scopes@,
            local: self.local@,
            records: record_facts(self.records@),
            capacity: self.capacity,
            generation: self.generation,
            frame_cap: self.frame_cap,
        }
    }
}

/// What is wrong with an announcement's shape, if anything: it does not fit its frame, or an
/// endpoint states no address with a port.
pub open spec fn shape_refusal(
    announce: AnnouncementFacts,
    encoded_bytes: usize,
    frame_cap: usize,
) -> Option<Refusal> {
    if encoded_bytes > frame_cap {
        Some(Refusal::Capacity)
    } else if !announce.probe.usable() || !announce.record.usable() {
        Some(Refusal::Malformed)
    } else {
        None
    }
}

/// What is wrong with an announcement's shape, if anything.
fn check_shape(announce: &Announcement, encoded_bytes: usize, frame_cap: usize) -> (refusal: Option<
    Refusal,
>)
    ensures
        refusal == shape_refusal(announce@, encoded_bytes, frame_cap),
{
    if encoded_bytes > frame_cap {
        return Some(Refusal::Capacity);
    }
    if !announce.probe.is_usable() || !announce.record.is_usable() {
        return Some(Refusal::Malformed);
    }
    None
}

/// The first of the keys at which a certificate stands, if it stands at one.
pub open spec fn is_least_with(table: Map<u64, Seq<u8>>, certificate: Seq<u8>, key: u64) -> bool {
    &&& table.contains_key(key)
    &&& table[key] == certificate
    &&& forall|other: u64| #[trigger]
        table.contains_key(other) && table[other] == certificate ==> key <= other
}

/// Whether a certificate stands in a table.
pub open spec fn holds_certificate(table: Map<u64, Seq<u8>>, certificate: Seq<u8>) -> bool {
    exists|key: u64| #[trigger] table.contains_key(key) && table[key] == certificate
}

/// Why an announcement that no pin covers is not authorized, if it is not, given the id its
/// certificate stands for, whether that certificate parses, whether its scope is a server name, and
/// whether the certificate carries that name.
pub open spec fn unpinned_refusal(
    anchor: HostId,
    issued: bool,
    derived: HostId,
    parses: bool,
    named: bool,
    carried: bool,
) -> Option<Refusal> {
    if derived != anchor {
        Some(Refusal::Identity)
    } else if !issued {
        Some(Refusal::Untrusted)
    } else if !parses {
        Some(Refusal::Malformed)
    } else if !named || !carried {
        Some(Refusal::Scope)
    } else {
        None
    }
}

/// Judges an announcement that no pin covers by what its certificate says.
pub fn judge_unpinned(
    anchor: HostId,
    issued: bool,
    derived: HostId,
    parses: bool,
    named: bool,
    carried: bool,
) -> (refusal: Option<Refusal>)
    ensures
        refusal == unpinned_refusal(anchor, issued, derived, parses, named, carried),
{
    if derived != anchor {
        Some(Refusal::Identity)
    } else if !issued {
        Some(Refusal::Untrusted)
    } else if !parses {
        Some(Refusal::Malformed)
    } else if !named || !carried {
        Some(Refusal::Scope)
    } else {
        None
    }
}

impl DiscoveryFacts {
    /// The certificates of the learned records.
    pub open spec fn record_certificates(self) -> Map<u64, Seq<u8>> {
        self.records.map_values(|record: AnnouncementFacts| record.certificate)
    }

    /// Why an announcement is not authorized, if it is not. A pinned anchor must present its pinned
    /// certificate and its declared scope; any other must be the anchor its certificate stands for,
    /// be issued by an enrollment root, and carry its scope's signed name.
    pub open spec fn refusal(self, presented: PresentedFacts) -> Option<Refusal> {
        let announce = presented.announce;
        let anchor = announce.anchor.0;
        if shape_refusal(announce, presented.encoded_bytes, self.frame_cap) is Some {
            shape_refusal(announce, presented.encoded_bytes, self.frame_cap)
        } else if self.pins.contains_key(anchor) {
            if self.pins[anchor] != announce.certificate {
                Some(Refusal::Identity)
            } else if !self.scopes.contains_key(anchor) || self.scopes[anchor] != (
                announce.region,
                announce.domain,
            ) {
                Some(Refusal::Scope)
            } else {
                None
            }
        } else {
            unpinned_refusal(
                announce.anchor,
                presented.issued,
                certificate_id(announce.certificate),
                parses_as_certificate(announce.certificate),
                parses_as_server_name(scope_text(self.name, announce.region, announce.domain)),
                carries_name(
                    announce.certificate,
                    scope_text(self.name, announce.region, announce.domain),
                ),
            )
        }
    }

    /// The peers enrolled: the pinned ones but this node, and the learned ones beyond them.
    pub open spec fn enrolled(self) -> int {
        crate::arith::larger(self.pins.len() - 1, 0) + self.records.dom().difference(
            self.pins.dom(),
        ).len()
    }

    /// What adding an announcement comes to: whether the roster changes, or why it is refused. This
    /// node's own announcement changes nothing; a relayed one never overwrites a record; a record
    /// keeps its certificate and scope; a new peer needs room.
    pub open spec fn insertion(self, presented: PresentedFacts, direct: bool) -> Result<
        bool,
        Refusal,
    > {
        let announce = presented.announce;
        let anchor = announce.anchor.0;
        if self.refusal(presented) is Some {
            Err(self.refusal(presented)->0)
        } else if announce.anchor == self.local.anchor {
            if announce.says(self.local) {
                Ok(false)
            } else {
                Err(Refusal::Identity)
            }
        } else if self.records.contains_key(anchor) && (self.records[anchor].says(announce)
            || !direct) {
            Ok(false)
        } else if self.records.contains_key(anchor) && (self.records[anchor].certificate
            != announce.certificate || self.records[anchor].region != announce.region
            || self.records[anchor].domain != announce.domain) {
            Err(Refusal::Scope)
        } else if !self.records.contains_key(anchor) && self.enrolled() >= self.capacity
            && !self.pins.contains_key(anchor) {
            Err(Refusal::Capacity)
        } else if self.generation == u64::MAX {
            Err(Refusal::Capacity)
        } else {
            Ok(true)
        }
    }

    /// The authority after an announcement was presented: the roster holds it when it changed.
    pub open spec fn inserted(self, presented: PresentedFacts, direct: bool) -> DiscoveryFacts {
        if self.insertion(presented, direct) == Ok::<bool, Refusal>(true) {
            DiscoveryFacts {
                records: self.records.insert(presented.announce.anchor.0, presented.announce),
                generation: (self.generation + 1) as u64,
                ..self
            }
        } else {
            self
        }
    }
}

/// The first key in key order at which `certificate` stands among the records.
fn find_record(records: &BTreeMap<u64, Announcement>, certificate: &[u8]) -> (key: Option<u64>)
    ensures
        ({
            let table = record_facts(records@).map_values(
                |record: AnnouncementFacts| record.certificate,
            );
            match key {
                Some(key) => is_least_with(table, certificate@, key),
                None => !holds_certificate(table, certificate@),
            }
        }),
{
    let keys = keys_of(records);
    let ghost table = record_facts(records@).map_values(
        |record: AnnouncementFacts| record.certificate,
    );
    let mut i: usize = 0;
    while i < keys.len()
        invariant
            i <= keys@.len(),
            are_keys(records@, keys@),
            table == record_facts(records@).map_values(
                |record: AnnouncementFacts| record.certificate,
            ),
            forall|j: int| 0 <= j < i ==> table[#[trigger] keys@[j]] != certificate@,
        decreases keys@.len() - i,
    {
        let key: u64 = keys[i];
        assert(records@.contains_key(keys@[i as int]));
        if let Some(record) = records.get(&key) {
            if same_bytes(record.certificate.as_slice(), certificate) {
                proof {
                    assert(table[key] == certificate@);
                    assert forall|other: u64| #[trigger]
                        table.contains_key(other) && table[other] == certificate@ implies key
                        <= other by {
                        assert(records@.contains_key(other));
                        let at = choose|at: int| 0 <= at < keys@.len() && keys@[at] == other;
                    }
                }
                return Some(key);
            }
        }
        i += 1;
    }
    proof {
        assert forall|key: u64| #[trigger] table.contains_key(key) implies table[key]
            != certificate@ by {
            assert(records@.contains_key(key));
            let at = choose|at: int| 0 <= at < keys@.len() && keys@[at] == key;
        }
    }
    None
}

/// The first key in key order at which `certificate` is pinned.
fn find_pin(pins: &BTreeMap<u64, Vec<u8>>, certificate: &[u8]) -> (key: Option<u64>)
    ensures
        match key {
            Some(key) => is_least_with(pin_facts(pins@), certificate@, key),
            None => !holds_certificate(pin_facts(pins@), certificate@),
        },
{
    let keys = keys_of(pins);
    let ghost table = pin_facts(pins@);
    let mut i: usize = 0;
    while i < keys.len()
        invariant
            i <= keys@.len(),
            are_keys(pins@, keys@),
            table == pin_facts(pins@),
            forall|j: int| 0 <= j < i ==> table[#[trigger] keys@[j]] != certificate@,
        decreases keys@.len() - i,
    {
        let key: u64 = keys[i];
        assert(pins@.contains_key(keys@[i as int]));
        if let Some(pinned) = pins.get(&key) {
            if same_bytes(pinned.as_slice(), certificate) {
                proof {
                    assert(table[key] == certificate@);
                    assert forall|other: u64| #[trigger]
                        table.contains_key(other) && table[other] == certificate@ implies key
                        <= other by {
                        assert(pins@.contains_key(other));
                        let at = choose|at: int| 0 <= at < keys@.len() && keys@[at] == other;
                    }
                }
                return Some(key);
            }
        }
        i += 1;
    }
    proof {
        assert forall|key: u64| #[trigger] table.contains_key(key) implies table[key]
            != certificate@ by {
            assert(pins@.contains_key(key));
            let at = choose|at: int| 0 <= at < keys@.len() && keys@[at] == key;
        }
    }
    None
}

/// How many records are of anchors that are not pinned.
fn count_unpinned(records: &BTreeMap<u64, Announcement>, pins: &BTreeMap<u64, Vec<u8>>) -> (count:
    usize)
    ensures
        count == records@.dom().difference(pins@.dom()).len(),
        count <= records@.len(),
{
    let keys = keys_of(records);
    let mut count: usize = 0;
    let mut i: usize = 0;
    let ghost mut seen: Set<u64> = Set::empty();
    while i < keys.len()
        invariant
            i <= keys@.len(),
            count <= i,
            are_keys(records@, keys@),
            seen.finite(),
            seen.len() == count,
            forall|key: u64|
                seen.contains(key) <==> exists|j: int|
                    0 <= j < i && #[trigger] keys@[j] == key && !pins@.contains_key(key),
        decreases keys@.len() - i,
    {
        let key: u64 = keys[i];
        let ghost before = seen;
        if !pins.contains_key(&key) {
            proof {
                assert(!seen.contains(key)) by {
                    if seen.contains(key) {
                        let j = choose|j: int|
                            0 <= j < i && #[trigger] keys@[j] == key && !pins@.contains_key(key);
                        assert(keys@[j] < keys@[i as int]);
                    }
                }
                seen = seen.insert(key);
            }
            count += 1;
        }
        proof {
            assert forall|other: u64|
                seen.contains(other) <==> exists|j: int|
                    0 <= j < i + 1 && #[trigger] keys@[j] == other && !pins@.contains_key(
                        other,
                    ) by {
                if before.contains(other) {
                    let j = choose|j: int|
                        0 <= j < i && #[trigger] keys@[j] == other && !pins@.contains_key(other);
                    assert(keys@[j] == other);
                }
                if other == key && !pins@.contains_key(key) {
                    assert(keys@[i as int] == other);
                }
            }
        }
        i += 1;
    }
    proof {
        assert(seen =~= records@.dom().difference(pins@.dom())) by {
            assert forall|key: u64|
                seen.contains(key) <==> records@.dom().difference(pins@.dom()).contains(key) by {
                if records@.contains_key(key) && !pins@.contains_key(key) {
                    let at = choose|at: int| 0 <= at < keys@.len() && keys@[at] == key;
                    assert(keys@[at] == key);
                }
            }
        }
    }
    count
}

/// An anchor and its endpoints as the manifest seeds them.
#[derive(Debug)]
pub struct SeedPeer {
    pub anchor: HostId,
    /// The member id the manifest's declarations are keyed by.
    pub host: HostId,
    pub certificate: Vec<u8>,
}

/// The failure domains and regions the fleet's configuration declares, by member id.
#[derive(Debug)]
pub struct FleetScopes {
    pub domains: BTreeMap<u64, DomainId>,
    pub regions: BTreeMap<u64, RegionId>,
}

/// The region and domain declared for a member: the sole region, and a domain of its own, when
/// nothing is declared.
pub open spec fn declared_scope(
    fleet: Option<FleetScopes>,
    host: HostId,
    anchor: HostId,
) -> (u64, u64) {
    match fleet {
        Some(fleet) => (
            if fleet.regions@.contains_key(host.0) {
                fleet.regions@[host.0].0
            } else {
                0
            },
            if fleet.domains@.contains_key(host.0) {
                fleet.domains@[host.0].0
            } else {
                anchor.0
            },
        ),
        None => (0, anchor.0),
    }
}

/// The region and domain declared for a member.
fn scope_of(fleet: &Option<FleetScopes>, host: HostId, anchor: HostId) -> (scope: (u64, u64))
    ensures
        scope == declared_scope(*fleet, host, anchor),
{
    match fleet {
        Some(fleet) => {
            let region: u64 = match fleet.regions.get(&host.0) {
                Some(region) => region.0,
                None => 0,
            };
            let domain: u64 = match fleet.domains.get(&host.0) {
                Some(domain) => domain.0,
                None => anchor.0,
            };
            (region, domain)
        },
        None => (0, anchor.0),
    }
}

/// The certificates the first `count` seed peers pin; a later peer of an anchor stands.
pub open spec fn seed_pins(peers: Seq<SeedPeer>, count: int) -> Map<u64, Seq<u8>>
    decreases count,
{
    if count <= 0 {
        Map::empty()
    } else {
        seed_pins(peers, count - 1).insert(
            peers[count - 1].anchor.0,
            peers[count - 1].certificate@,
        )
    }
}

/// The scopes declared for the first `count` seed peers.
pub open spec fn seed_scopes(
    fleet: Option<FleetScopes>,
    peers: Seq<SeedPeer>,
    count: int,
) -> Map<u64, (u64, u64)>
    decreases count,
{
    if count <= 0 {
        Map::empty()
    } else {
        seed_scopes(fleet, peers, count - 1).insert(
            peers[count - 1].anchor.0,
            declared_scope(fleet, peers[count - 1].host, peers[count - 1].anchor),
        )
    }
}

/// What a node announces of itself, but for its scope.
#[derive(Debug)]
pub struct LocalNode {
    pub anchor: HostId,
    /// The member id this node's boots start from.
    pub seed: HostId,
    pub certificate: Vec<u8>,
    pub probe: Endpoint,
    pub record: Endpoint,
    /// The encoded length of its announcement.
    pub encoded_bytes: usize,
}

impl LocalNode {
    /// The node's announcement under the declared scope.
    pub open spec fn announcement(&self, fleet: Option<FleetScopes>) -> AnnouncementFacts {
        AnnouncementFacts {
            anchor: self.anchor,
            certificate: self.certificate@,
            probe: self.probe,
            record: self.record,
            region: declared_scope(fleet, self.seed, self.anchor).0,
            domain: declared_scope(fleet, self.seed, self.anchor).1,
        }
    }
}

impl Discovery {
    /// Whether `discovery` is what a node starts with.
    pub open spec fn starts(
        name: Seq<char>,
        local: LocalNode,
        peers: Seq<SeedPeer>,
        fleet: Option<FleetScopes>,
        capacity: usize,
        frame_cap: usize,
        discovery: Result<Discovery, Refusal>,
    ) -> bool {
        match discovery {
            Ok(discovery) => {
                let announce = local.announcement(fleet);
                let count = peers.len() as int;
                &&& shape_refusal(announce, local.encoded_bytes, frame_cap) is None
                &&& discovery@ == (DiscoveryFacts {
                    name: name,
                    pins: seed_pins(peers, count).insert(local.anchor.0, local.certificate@),
                    scopes: seed_scopes(fleet, peers, count).insert(
                        local.anchor.0,
                        (announce.region, announce.domain),
                    ),
                    local: announce,
                    records: Map::empty(),
                    capacity,
                    generation: 1,
                    frame_cap,
                })
            },
            Err(refusal) => shape_refusal(
                local.announcement(fleet),
                local.encoded_bytes,
                frame_cap,
            ) == Some(refusal),
        }
    }

    /// The enrollment authority of a node: it pins the seeds' certificates and its own.
    pub fn new(
        name: String,
        local: LocalNode,
        peers: &Vec<SeedPeer>,
        fleet: &Option<FleetScopes>,
        capacity: usize,
        frame_cap: usize,
    ) -> (discovery: Result<Discovery, Refusal>)
        ensures
            Self::starts(name@, local, peers@, *fleet, capacity, frame_cap, discovery),
    {
        let (region, domain) = scope_of(fleet, local.seed, local.anchor);
        let announce = Announcement {
            anchor: local.anchor,
            certificate: copy_bytes(local.certificate.as_slice()),
            probe: local.probe,
            record: local.record,
            region,
            domain,
        };
        if let Some(refusal) = check_shape(&announce, local.encoded_bytes, frame_cap) {
            return Err(refusal);
        }
        let mut pins: BTreeMap<u64, Vec<u8>> = BTreeMap::new();
        let mut scopes: BTreeMap<u64, (u64, u64)> = BTreeMap::new();
        let mut i: usize = 0;
        assert(pin_facts(pins@) =~= seed_pins(peers@, 0));
        assert(scopes@ =~= seed_scopes(*fleet, peers@, 0));
        while i < peers.len()
            invariant
                i <= peers@.len(),
                pin_facts(pins@) == seed_pins(peers@, i as int),
                scopes@ == seed_scopes(*fleet, peers@, i as int),
            decreases peers@.len() - i,
        {
            let peer = &peers[i];
            let scope = scope_of(fleet, peer.host, peer.anchor);
            pins.insert(peer.anchor.0, copy_bytes(peer.certificate.as_slice()));
            scopes.insert(peer.anchor.0, scope);
            i += 1;
            proof {
                assert(pin_facts(pins@) =~= seed_pins(peers@, i as int));
            }
        }
        let ghost seeded = pin_facts(pins@);
        pins.insert(local.anchor.0, local.certificate);
        scopes.insert(local.anchor.0, (region, domain));
        let discovery = Discovery {
            name,
            pins,
            scopes,
            local: announce,
            records: BTreeMap::new(),
            capacity,
            generation: 1,
            frame_cap,
        };
        proof {
            assert(discovery@.pins =~= seeded.insert(local.anchor.0, local.certificate@));
            assert(discovery@.records =~= Map::<u64, AnnouncementFacts>::empty());
        }
        Ok(discovery)
    }

    /// Whether `anchor` is whom a certificate stands for, if anyone.
    pub open spec fn knows(&self, certificate: Seq<u8>, anchor: Option<HostId>) -> bool {
        match anchor {
            Some(anchor) => if holds_certificate(self@.pins, certificate) {
                is_least_with(self@.pins, certificate, anchor.0)
            } else {
                exists|key: u64|
                    #[trigger] is_least_with(self@.record_certificates(), certificate, key)
                        && self@.records[key].anchor == anchor
            },
            None => !holds_certificate(self@.pins, certificate) && !holds_certificate(
                self@.record_certificates(),
                certificate,
            ),
        }
    }

    /// The anchor a certificate stands for: the pinned certificates first, then the learned ones.
    pub fn recognizes(&self, certificate: &[u8]) -> (anchor: Option<HostId>)
        ensures
            self.knows(certificate@, anchor),
    {
        if let Some(key) = find_pin(&self.pins, certificate) {
            assert(holds_certificate(self@.pins, certificate@)) by {
                assert(self@.pins.contains_key(key));
            }
            return Some(HostId(key));
        }
        match find_record(&self.records, certificate) {
            Some(key) => {
                assert(self.records@.contains_key(key)) by {
                    assert(self@.record_certificates().contains_key(key));
                }
                match self.records.get(&key) {
                    Some(record) => Some(record.anchor),
                    None => None,
                }
            },
            None => None,
        }
    }

    /// Whether `address` is where a certificate's node is reached, if it is known.
    pub open spec fn finds(&self, certificate: Seq<u8>, plane: Plane, address: Option<NodeAddress>) -> bool {
        if holds_certificate(self@.record_certificates(), certificate) {
            exists|key: u64|
                #[trigger] is_least_with(self@.record_certificates(), certificate, key)
                    && address == (match plane {
                    Plane::Probe => self@.records[key].probe.address,
                    Plane::Record => self@.records[key].record.address,
                })
        } else {
            address is None
        }
    }

    /// The address a learned certificate's holder advertises on a plane, if its text states one.
    pub fn address(&self, certificate: &[u8], plane: Plane) -> (address: Option<NodeAddress>)
        ensures
            self.finds(certificate@, plane, address),
    {
        match find_record(&self.records, certificate) {
            Some(key) => {
                assert(self@.record_certificates().contains_key(key));
                assert(self.records@.contains_key(key));
                match self.records.get(&key) {
                    Some(record) => {
                        let endpoint = match plane {
                            Plane::Probe => &record.probe,
                            Plane::Record => &record.record,
                        };
                        endpoint.copy().address
                    },
                    None => None,
                }
            },
            None => None,
        }
    }

    /// Why an announcement is not authorized, if it is not.
    pub fn validate(&self, presented: &Presented) -> (refusal: Option<Refusal>)
        ensures
            refusal == self@.refusal(presented@),
    {
        let announce = &presented.announce;
        if let Some(refusal) = check_shape(announce, presented.encoded_bytes, self.frame_cap) {
            return Some(refusal);
        }
        if let Some(pinned) = self.pins.get(&announce.anchor.0) {
            if !same_bytes(pinned.as_slice(), announce.certificate.as_slice()) {
                return Some(Refusal::Identity);
            }
            let declared = match self.scopes.get(&announce.anchor.0) {
                Some(scope) => scope.0 == announce.region && scope.1 == announce.domain,
                None => false,
            };
            if !declared {
                return Some(Refusal::Scope);
            }
            return None;
        }
        let certificate = announce.certificate.as_slice();
        let derived = host_id_of_certificate(certificate);
        let parses = parse_certificate(certificate).is_ok();
        let scope = scope_name(self.name.as_str(), announce.region, announce.domain);
        let named = parse_server_name(scope.as_str()).is_ok();
        let carried = parses && named && verify_name(certificate, scope.as_str()).is_ok();
        judge_unpinned(announce.anchor, presented.issued, derived, parses, named, carried)
    }

    /// Adds an authorized announcement to the roster: `true` when the roster changed.
    pub fn insert(&mut self, presented: &Presented, direct: bool) -> (changed: Result<
        bool,
        Refusal,
    >)
        ensures
            changed == old(self)@.insertion(presented@, direct),
            final(self)@ == old(self)@.inserted(presented@, direct),
    {
        if let Some(refusal) = self.validate(presented) {
            return Err(refusal);
        }
        let announce = &presented.announce;
        let anchor: u64 = announce.anchor.0;
        if announce.anchor == self.local.anchor {
            return if announce.same(&self.local) {
                Ok(false)
            } else {
                Err(Refusal::Identity)
            };
        }
        if let Some(previous) = self.records.get(&anchor) {
            if previous.same(announce) || !direct {
                return Ok(false);
            }
            if !same_bytes(previous.certificate.as_slice(), announce.certificate.as_slice())
                || previous.region != announce.region || previous.domain != announce.domain {
                return Err(Refusal::Scope);
            }
        } else {
            let unpinned: usize = count_unpinned(&self.records, &self.pins);
            let pinned: usize = if self.pins.len() > 0 {
                self.pins.len() - 1
            } else {
                0
            };
            proof {
                assert(self@.pins.dom() =~= self.pins@.dom());
                assert(self@.records.dom() =~= self.records@.dom());
                assert(self@.enrolled() == pinned + unpinned);
            }
            let full = unpinned >= self.capacity || pinned >= self.capacity - unpinned;
            if full && !self.pins.contains_key(&anchor) {
                return Err(Refusal::Capacity);
            }
        }
        if self.generation == u64::MAX {
            return Err(Refusal::Capacity);
        }
        let ghost before = self@;
        self.generation = self.generation + 1;
        self.records.insert(anchor, announce.copy());
        proof {
            assert(self@.records =~= before.records.insert(anchor, announce@));
            assert(self@.pins =~= before.pins);
        }
        Ok(true)
    }
}

/// The peer an announcement makes, when both its endpoints state an address.
pub open spec fn announced_peer(presented: PresentedFacts) -> Option<FleetPeerFacts> {
    match (presented.announce.probe.address, presented.announce.record.address) {
        (Some(address), Some(record_address)) => Some(
            FleetPeerFacts {
                anchor: presented.announce.anchor,
                host: presented.seed,
                address,
                record_address,
                certificate: presented.announce.certificate,
            },
        ),
        _ => None,
    }
}

/// The peer an announcement makes, or refused where an endpoint states no address.
fn peer_of(presented: &Presented) -> (peer: Result<FleetPeer, Refusal>)
    ensures
        match peer {
            Ok(peer) => announced_peer(presented@) == Some(peer@),
            Err(refusal) => announced_peer(presented@) is None && refusal == Refusal::Malformed,
        },
{
    let announce = &presented.announce;
    let probe = announce.probe.copy().address;
    let record = announce.record.copy().address;
    if let Some(address) = probe {
        if let Some(record_address) = record {
            return Ok(
                FleetPeer {
                    anchor: announce.anchor,
                    host: presented.seed,
                    address,
                    record_address,
                    certificate: copy_bytes(announce.certificate.as_slice()),
                },
            );
        }
    }
    Err(Refusal::Malformed)
}

/// What a shard keeps of enrollment: the authority, the retained roster, and the scopes placement
/// reads.
#[derive(Debug)]
pub struct Enrollment {
    /// The authority, on the shard that runs the fleet.
    pub discovery: Option<Discovery>,
    /// The roster that survives a restart.
    pub enrolled: Vec<Announcement>,
    /// Each member's region.
    pub node_regions: BTreeMap<u64, RegionId>,
    /// The configured fleet's declarations.
    pub fleet: Option<FleetScopes>,
}

/// The scopes' contents.
pub struct ScopeFacts {
    pub node_regions: Map<u64, RegionId>,
    pub domains: Option<Map<u64, DomainId>>,
    pub regions: Option<Map<u64, RegionId>>,
}

/// The contents of a roster.
pub open spec fn roster_facts(roster: Seq<Announcement>) -> Seq<AnnouncementFacts> {
    roster.map_values(|announce: Announcement| announce@)
}

/// Whether `roster` lists the records in key order.
pub open spec fn lists_records(
    roster: Seq<AnnouncementFacts>,
    records: Map<u64, AnnouncementFacts>,
) -> bool {
    exists|keys: Seq<u64>| #[trigger]
        are_keys(records, keys) && roster == keys.map_values(|key: u64| records[key])
}

/// `table` with `key` bound to `value` unless it is bound already.
pub open spec fn bound<V>(table: Map<u64, V>, key: u64, value: V) -> Map<u64, V> {
    if table.contains_key(key) {
        table
    } else {
        table.insert(key, value)
    }
}

impl ScopeFacts {
    /// The scopes once an announcement's are installed: a declaration already there stands.
    pub open spec fn installed(self, presented: PresentedFacts) -> ScopeFacts {
        let seed = presented.seed.0;
        let region = RegionId(presented.announce.region);
        ScopeFacts {
            node_regions: bound(self.node_regions, seed, region),
            domains: match self.domains {
                Some(domains) => Some(bound(domains, seed, DomainId(presented.announce.domain))),
                None => None,
            },
            regions: match self.regions {
                Some(regions) => Some(bound(regions, seed, region)),
                None => None,
            },
        }
    }

    /// The scopes once the first `count` announcements' are installed.
    pub open spec fn installed_all(self, list: Seq<PresentedFacts>, count: int) -> ScopeFacts
        decreases count,
    {
        if count <= 0 {
            self
        } else {
            self.installed_all(list, count - 1).installed(list[count - 1])
        }
    }
}

/// What admitting a candidate came to.
#[derive(Debug)]
pub enum Admitted {
    /// Nothing changed.
    Unchanged,
    /// The roster changed and must be published before the enrollment is acknowledged; a peer not
    /// dialed before is to be dialed then.
    Changed { dial: Option<FleetPeer> },
}

impl Admitted {
    /// What an admission comes to once its publication succeeded or failed.
    pub open spec fn after_publication(self, stored: bool, dial: Result<Option<FleetPeer>, Refusal>) -> bool {
        match self {
            Admitted::Unchanged => dial == Ok::<Option<FleetPeer>, Refusal>(None),
            Admitted::Changed { dial: peer } => dial == (if stored {
                Ok::<Option<FleetPeer>, Refusal>(peer)
            } else {
                Err::<Option<FleetPeer>, Refusal>(Refusal::Publication)
            }),
        }
    }

    /// The peer to dial once the roster's publication succeeded or failed.
    pub fn published(self, stored: bool) -> (dial: Result<Option<FleetPeer>, Refusal>)
        ensures
            self.after_publication(stored, dial),
    {
        match self {
            Admitted::Unchanged => Ok(None),
            Admitted::Changed { dial } => if stored {
                Ok(dial)
            } else {
                Err(Refusal::Publication)
            },
        }
    }
}

/// A copy of every record, in key order.
fn roster_of(records: &BTreeMap<u64, Announcement>) -> (roster: Vec<Announcement>)
    ensures
        lists_records(roster_facts(roster@), record_facts(records@)),
{
    let keys = keys_of(records);
    let ghost facts = record_facts(records@);
    let mut roster: Vec<Announcement> = Vec::new();
    let mut i: usize = 0;
    while i < keys.len()
        invariant
            i <= keys@.len(),
            are_keys(records@, keys@),
            facts == record_facts(records@),
            roster@.len() == i,
            forall|j: int| 0 <= j < i ==> (#[trigger] roster@[j])@ == facts[keys@[j]],
        decreases keys@.len() - i,
    {
        let key: u64 = keys[i];
        assert(records@.contains_key(keys@[i as int]));
        if let Some(record) = records.get(&key) {
            roster.push(record.copy());
        }
        i += 1;
    }
    proof {
        assert(are_keys(facts, keys@)) by {
            assert forall|key: u64| #[trigger] facts.contains_key(key) implies keys@.contains(
                key,
            ) by {
                assert(records@.contains_key(key));
            }
        }
        assert(roster_facts(roster@) =~= keys@.map_values(|key: u64| facts[key]));
    }
    roster
}

impl Enrollment {
    /// The authority's contents.
    pub open spec fn authority(&self) -> Option<DiscoveryFacts> {
        match self.discovery {
            Some(discovery) => Some(discovery@),
            None => None,
        }
    }

    /// The scopes' contents.
    pub open spec fn scopes(&self) -> ScopeFacts {
        ScopeFacts {
            node_regions: self.node_regions@,
            domains: match self.fleet {
                Some(fleet) => Some(fleet.domains@),
                None => None,
            },
            regions: match self.fleet {
                Some(fleet) => Some(fleet.regions@),
                None => None,
            },
        }
    }

    /// Installs an announcement's scope; the manifest's own declarations stand.
    fn install_scope(&mut self, presented: &Presented)
        ensures
            final(self).discovery == old(self).discovery,
            final(self).enrolled == old(self).enrolled,
            final(self).scopes() == old(self).scopes().installed(presented@),
    {
        let seed: u64 = presented.seed.0;
        if !self.node_regions.contains_key(&seed) {
            self.node_regions.insert(seed, RegionId(presented.announce.region));
        }
        if let Some(fleet) = self.fleet.take() {
            let mut domains = fleet.domains;
            let mut regions = fleet.regions;
            if !domains.contains_key(&seed) {
                domains.insert(seed, DomainId(presented.announce.domain));
            }
            if !regions.contains_key(&seed) {
                regions.insert(seed, RegionId(presented.announce.region));
            }
            self.fleet = Some(FleetScopes { domains, regions });
        }
    }

    /// Whether two shards keep the same.
    pub open spec fn same_as(&self, other: Enrollment) -> bool {
        &&& self.authority() == other.authority()
        &&& self.enrolled == other.enrolled
        &&& self.scopes() == other.scopes()
    }

    /// What admitting a candidate comes to: whether the roster changes, or the refusal.
    pub open spec fn admission(&self, presented: PresentedFacts, direct: bool) -> Result<
        bool,
        Refusal,
    > {
        if announced_peer(presented) is None {
            Err(Refusal::Malformed)
        } else {
            match self.authority() {
                None => Err(Refusal::Untrusted),
                Some(discovery) => discovery.insertion(presented, direct),
            }
        }
    }

    /// Whether `after` and `admitted` are what admitting a candidate makes of this.
    pub open spec fn admits(
        &self,
        presented: PresentedFacts,
        direct: bool,
        admitted: Result<Admitted, Refusal>,
        after: Enrollment,
    ) -> bool {
        match self.admission(presented, direct) {
            Err(refusal) => admitted == Err::<Admitted, Refusal>(refusal) && after.same_as(*self),
            Ok(false) => admitted == Ok::<Admitted, Refusal>(Admitted::Unchanged)
                && after.same_as(*self),
            Ok(true) => {
                let before = self.authority()->0;
                let anchor = presented.announce.anchor.0;
                let dialed = before.pins.contains_key(anchor) || before.records.contains_key(
                    anchor,
                );
                &&& admitted matches Ok(Admitted::Changed { dial })
                &&& dialed ==> dial is None
                &&& !dialed ==> dial is Some && announced_peer(presented) == Some(dial->0@)
                &&& after.authority() == Some(before.inserted(presented, direct))
                &&& lists_records(
                    roster_facts(after.enrolled@),
                    before.inserted(presented, direct).records,
                )
                &&& after.scopes() == self.scopes().installed(presented)
            },
        }
    }

    /// Adds one checked candidate. Voting authority is unchanged; only its dial tasks become
    /// eligible to run.
    pub fn enroll(&mut self, presented: &Presented, direct: bool) -> (admitted: Result<
        Admitted,
        Refusal,
    >)
        ensures
            old(self).admits(presented@, direct, admitted, *final(self)),
    {
        let peer = match peer_of(presented) {
            Ok(peer) => peer,
            Err(refusal) => {
                return Err(refusal);
            },
        };
        let anchor: u64 = presented.announce.anchor.0;
        let mut discovery = match self.discovery.take() {
            Some(discovery) => discovery,
            None => {
                return Err(Refusal::Untrusted);
            },
        };
        let ghost before = discovery@;
        proof {
            assert(before.pins.contains_key(anchor) == discovery.pins@.contains_key(anchor));
            assert(before.records.contains_key(anchor) == discovery.records@.contains_key(anchor));
        }
        let already_dialed = discovery.pins.contains_key(&anchor)
            || discovery.records.contains_key(&anchor);
        let changed = discovery.insert(presented, direct);
        match changed {
            Err(refusal) => {
                self.discovery = Some(discovery);
                return Err(refusal);
            },
            Ok(false) => {
                self.discovery = Some(discovery);
                return Ok(Admitted::Unchanged);
            },
            Ok(true) => {},
        }
        self.enrolled = roster_of(&discovery.records);
        self.discovery = Some(discovery);
        self.install_scope(presented);
        if already_dialed {
            Ok(Admitted::Changed { dial: None })
        } else {
            Ok(Admitted::Changed { dial: Some(peer) })
        }
    }
}

/// The state of a revalidation after the first `count` retained announcements: the authority so
/// far, and the peers to dial or the first refusal.
pub open spec fn restoration(
    discovery: DiscoveryFacts,
    list: Seq<PresentedFacts>,
    count: int,
) -> (DiscoveryFacts, Result<Seq<FleetPeerFacts>, Refusal>)
    decreases count,
{
    if count <= 0 {
        (discovery, Ok(Seq::empty()))
    } else {
        let (before, peers) = restoration(discovery, list, count - 1);
        let presented = list[count - 1];
        if peers is Err {
            (before, peers)
        } else if announced_peer(presented) is None {
            (before, Err(Refusal::Malformed))
        } else {
            let after = before.inserted(presented, false);
            match before.insertion(presented, false) {
                Err(refusal) => (after, Err(refusal)),
                Ok(changed) => if changed && !before.pins.contains_key(
                    presented.announce.anchor.0,
                ) {
                    (after, Ok((peers->Ok_0).push(announced_peer(presented)->0)))
                } else {
                    (after, peers)
                },
            }
        }
    }
}

/// A refusal among the first announcements is the revalidation's.
proof fn lemma_refused_restoration(
    discovery: DiscoveryFacts,
    list: Seq<PresentedFacts>,
    count: int,
    all: int,
)
    requires
        0 <= count <= all,
        restoration(discovery, list, count).1 is Err,
    ensures
        restoration(discovery, list, all) == restoration(discovery, list, count),
    decreases all,
{
    if count < all {
        lemma_refused_restoration(discovery, list, count, all - 1);
    }
}

/// The contents of presented announcements.
pub open spec fn presented_facts(list: Seq<Presented>) -> Seq<PresentedFacts> {
    list.map_values(|presented: Presented| presented@)
}

/// The contents of peers.
pub open spec fn peer_facts(peers: Seq<FleetPeer>) -> Seq<FleetPeerFacts> {
    peers.map_values(|peer: FleetPeer| peer@)
}

impl Enrollment {
    /// Revalidates the retained roster at a start: the peers to dial beyond the pinned ones. The
    /// roster itself is left as it is whatever the outcome, so a refused start erases no peer.
    pub fn restore(&mut self, retained: &Vec<Presented>) -> (peers: Result<
        Vec<FleetPeer>,
        Refusal,
    >)
        ensures
            final(self).enrolled == old(self).enrolled,
            match old(self).authority() {
                None => {
                    &&& peers == Err::<Vec<FleetPeer>, Refusal>(Refusal::Untrusted)
                    &&& final(self).same_as(*old(self))
                },
                Some(discovery) => {
                    let list = presented_facts(retained@);
                    let outcome = restoration(discovery, list, list.len() as int);
                    &&& final(self).authority() == Some(outcome.0)
                    &&& match peers {
                        Ok(peers) => {
                            &&& outcome.1 == Ok::<Seq<FleetPeerFacts>, Refusal>(peer_facts(peers@))
                            &&& final(self).scopes() == old(self).scopes().installed_all(
                                list,
                                list.len() as int,
                            )
                        },
                        Err(refusal) => {
                            &&& outcome.1 == Err::<Seq<FleetPeerFacts>, Refusal>(refusal)
                            &&& final(self).scopes() == old(self).scopes()
                        },
                    }
                },
            },
    {
        let mut discovery = match self.discovery.take() {
            Some(discovery) => discovery,
            None => {
                return Err(Refusal::Untrusted);
            },
        };
        let ghost start = discovery@;
        let ghost list = presented_facts(retained@);
        let mut peers: Vec<FleetPeer> = Vec::new();
        let mut i: usize = 0;
        assert(peer_facts(peers@) =~= Seq::<FleetPeerFacts>::empty());
        while i < retained.len()
            invariant
                i <= retained@.len(),
                list == presented_facts(retained@),
                self.discovery is None,
                self.enrolled == old(self).enrolled,
                self.scopes() == old(self).scopes(),
                old(self).authority() == Some(start),
                restoration(start, list, i as int) == (
                    discovery@,
                    Ok::<Seq<FleetPeerFacts>, Refusal>(peer_facts(peers@)),
                ),
            decreases retained@.len() - i,
        {
            let presented = &retained[i];
            let ghost before = discovery@;
            let ghost kept = peer_facts(peers@);
            assert(list[i as int] == presented@);
            let peer = match peer_of(presented) {
                Ok(peer) => peer,
                Err(refusal) => {
                    proof {
                        lemma_refused_restoration(start, list, i + 1, list.len() as int);
                    }
                    self.discovery = Some(discovery);
                    return Err(refusal);
                },
            };
            let anchor: u64 = presented.announce.anchor.0;
            assert(before.pins.contains_key(anchor) == discovery.pins@.contains_key(anchor));
            let pinned = discovery.pins.contains_key(&anchor);
            match discovery.insert(presented, false) {
                Ok(changed) => {
                    if changed && !pinned {
                        peers.push(peer);
                        assert(peer_facts(peers@) =~= kept.push(peer@));
                    }
                },
                Err(refusal) => {
                    proof {
                        lemma_refused_restoration(start, list, i + 1, list.len() as int);
                    }
                    self.discovery = Some(discovery);
                    return Err(refusal);
                },
            }
            i += 1;
        }
        self.discovery = Some(discovery);
        let mut j: usize = 0;
        while j < retained.len()
            invariant
                j <= retained@.len(),
                list == presented_facts(retained@),
                self.authority() == Some(discovery@),
                self.enrolled == old(self).enrolled,
                self.scopes() == old(self).scopes().installed_all(list, j as int),
            decreases retained@.len() - j,
        {
            assert(list[j as int] == retained@[j as int]@);
            self.install_scope(&retained[j]);
            j += 1;
        }
        Ok(peers)
    }
}

/// A message as it arrived: its length, and what it decodes to if it decodes.
#[derive(Debug)]
pub struct Received<T> {
    pub bytes: usize,
    pub decoded: Option<T>,
}

/// A peer's enrollment request: its own announcement on first contact, and where its sweep stands.
#[derive(Debug)]
pub struct Request {
    pub announce: Option<Presented>,
    pub after: Option<HostId>,
    pub known: u64,
}

/// What a request is answered with.
#[derive(Debug)]
pub struct Reply<A> {
    /// This node's own announcement, on first contact.
    pub local: Option<A>,
    /// The next record of the sweep.
    pub candidate: Option<A>,
    /// The roster's generation.
    pub generation: u64,
}

/// Whether a message fits the exchange.
pub open spec fn fits_message(bytes: usize, frame_cap: usize) -> bool {
    bytes <= frame_cap * MESSAGE_FRAMES
}

/// Whether a message fits the exchange.
fn message_fits(bytes: usize, frame_cap: usize) -> (fits: bool)
    ensures
        fits == fits_message(bytes, frame_cap),
{
    match frame_cap.checked_mul(MESSAGE_FRAMES) {
        Some(most) => bytes <= most,
        None => true,
    }
}

/// Whether `key` is the record a sweep past `after` comes to next.
pub open spec fn is_next_record(
    records: Map<u64, AnnouncementFacts>,
    after: Option<HostId>,
    key: u64,
) -> bool {
    &&& records.contains_key(key)
    &&& past(after, key)
    &&& forall|other: u64| #[trigger]
        records.contains_key(other) && past(after, other) ==> key <= other
}

/// Whether a key lies past where a sweep stands.
pub open spec fn past(after: Option<HostId>, key: u64) -> bool {
    after matches Some(host) ==> host.0 < key
}

/// Whether any record lies past where a sweep stands.
pub open spec fn any_past(records: Map<u64, AnnouncementFacts>, after: Option<HostId>) -> bool {
    exists|key: u64| #[trigger] records.contains_key(key) && past(after, key)
}

/// The next record of a sweep past `after`, if there is one.
fn next_record(records: &BTreeMap<u64, Announcement>, after: Option<HostId>) -> (next: Option<
    Announcement,
>)
    ensures
        match next {
            Some(next) => exists|key: u64| #[trigger]
                is_next_record(record_facts(records@), after, key) && next@ == record_facts(
                    records@,
                )[key],
            None => !any_past(record_facts(records@), after),
        },
{
    let keys = keys_of(records);
    let ghost facts = record_facts(records@);
    let mut i: usize = 0;
    while i < keys.len()
        invariant
            i <= keys@.len(),
            are_keys(records@, keys@),
            facts == record_facts(records@),
            forall|j: int| 0 <= j < i ==> !past(after, #[trigger] keys@[j]),
        decreases keys@.len() - i,
    {
        let key: u64 = keys[i];
        let beyond = match after {
            Some(host) => host.0 < key,
            None => true,
        };
        assert(records@.contains_key(keys@[i as int]));
        if beyond {
            if let Some(record) = records.get(&key) {
                proof {
                    assert forall|other: u64| #[trigger]
                        facts.contains_key(other) && past(after, other) implies key <= other by {
                        assert(records@.contains_key(other));
                        let at = choose|at: int| 0 <= at < keys@.len() && keys@[at] == other;
                    }
                    assert(is_next_record(facts, after, key));
                }
                return Some(record.copy());
            }
        }
        i += 1;
    }
    proof {
        assert forall|key: u64| #[trigger] facts.contains_key(key) implies !past(after, key) by {
            assert(records@.contains_key(key));
            let at = choose|at: int| 0 <= at < keys@.len() && keys@[at] == key;
        }
    }
    None
}

impl Enrollment {
    /// Whether `admitted` and `after` are what a request's announcement makes of this.
    pub open spec fn takes_announcement(
        &self,
        certificate: Seq<u8>,
        frame_cap: usize,
        request: Received<Request>,
        admitted: Result<Admitted, Refusal>,
        after: Enrollment,
    ) -> bool {
        if !fits_message(request.bytes, frame_cap) {
            admitted == Err::<Admitted, Refusal>(Refusal::Capacity) && after.same_as(
                *self,
            )
        } else {
            match request.decoded {
                None => admitted == Err::<Admitted, Refusal>(Refusal::Malformed) && after.same_as(*self),
                Some(decoded) => match decoded.announce {
                    None => admitted == Ok::<Admitted, Refusal>(Admitted::Unchanged) && after.same_as(*self),
                    Some(presented) => if presented.announce.certificate@ != certificate {
                        admitted == Err::<Admitted, Refusal>(Refusal::Identity) && after.same_as(*self)
                    } else {
                        self.admits(presented@, true, admitted, after)
                    },
                },
            }
        }
    }

    /// The first step of serving a request: a request too long, undecodable, or announcing another
    /// certificate than the session's is refused; an announcement is admitted as direct contact.
    pub fn serve_announcement(
        &mut self,
        certificate: &[u8],
        frame_cap: usize,
        request: &Received<Request>,
    ) -> (admitted: Result<Admitted, Refusal>)
        ensures
            old(self).takes_announcement(
                certificate@,
                frame_cap,
                *request,
                admitted,
                *final(self),
            ),
    {
        if !message_fits(request.bytes, frame_cap) {
            return Err(Refusal::Capacity);
        }
        match &request.decoded {
            None => Err(Refusal::Malformed),
            Some(decoded) => match &decoded.announce {
                None => Ok(Admitted::Unchanged),
                Some(presented) => {
                    if !same_bytes(presented.announce.certificate.as_slice(), certificate) {
                        return Err(Refusal::Identity);
                    }
                    self.enroll(presented, true)
                },
            },
        }
    }

    /// Whether `reply` is what a request is answered with.
    pub open spec fn replies(
        &self,
        certificate: Seq<u8>,
        request: Request,
        reply: Result<Reply<Announcement>, Refusal>,
    ) -> bool {
        match self.authority() {
            None => reply == Err::<Reply<Announcement>, Refusal>(Refusal::Untrusted),
            Some(discovery) => if !holds_certificate(discovery.pins, certificate)
                && !holds_certificate(discovery.record_certificates(), certificate) {
                reply == Err::<Reply<Announcement>, Refusal>(Refusal::Untrusted)
            } else {
                &&& reply matches Ok(reply)
                &&& reply.generation == discovery.generation
                &&& reply.local is Some == request.announce is Some
                &&& reply.local matches Some(local) ==> local@ == discovery.local
                &&& if request.known == discovery.generation {
                    reply.candidate is None
                } else {
                    match reply.candidate {
                        Some(candidate) => exists|key: u64| #[trigger]
                            is_next_record(discovery.records, request.after, key)
                                && candidate@ == discovery.records[key],
                        None => !any_past(discovery.records, request.after),
                    }
                }
            },
        }
    }

    /// The last step of serving a request: a certificate this node does not recognize is refused; a
    /// sweep that already knows this generation gets no candidate, any other its next record.
    pub fn serve_reply(&self, certificate: &[u8], request: &Request) -> (reply: Result<
        Reply<Announcement>,
        Refusal,
    >)
        ensures
            self.replies(certificate@, *request, reply),
    {
        let discovery = match &self.discovery {
            Some(discovery) => discovery,
            None => {
                return Err(Refusal::Untrusted);
            },
        };
        if discovery.recognizes(certificate).is_none() {
            return Err(Refusal::Untrusted);
        }
        proof {
            if !holds_certificate(discovery@.pins, certificate@) && !holds_certificate(
                discovery@.record_certificates(),
                certificate@,
            ) {
                assert(false) by {
                    assert forall|key: u64|
                        !is_least_with(discovery@.record_certificates(), certificate@, key)
                            && !is_least_with(discovery@.pins, certificate@, key) by {
                        assert(!(discovery@.record_certificates().contains_key(key)
                            && discovery@.record_certificates()[key] == certificate@));
                        assert(!(discovery@.pins.contains_key(key) && discovery@.pins[key]
                            == certificate@));
                    }
                }
            }
        }
        let candidate = if request.known == discovery.generation {
            None
        } else {
            next_record(&discovery.records, request.after)
        };
        let local = match &request.announce {
            Some(_) => Some(discovery.local.copy()),
            None => None,
        };
        Ok(Reply { local, candidate, generation: discovery.generation })
    }
}

/// One sweep over a peer's roster, a page at a time: whether this node has announced itself, the
/// record the sweep stands at, and the generation it reads.
#[derive(Clone, Copy, Debug, PartialEq, Eq, Structural)]
pub struct Cursor {
    pub announced: bool,
    pub after: Option<HostId>,
    pub generation: u64,
}

impl Default for Cursor {
    /// A sweep not yet begun.
    fn default() -> (cursor: Cursor)
        ensures
            cursor == (Cursor { announced: false, after: None, generation: 0 }),
    {
        Cursor { announced: false, after: None, generation: 0 }
    }
}

/// A request this node sends.
#[derive(Debug)]
pub struct Outgoing {
    pub announce: Option<Announcement>,
    pub after: Option<HostId>,
    pub known: u64,
}

impl Cursor {
    /// Whether `request` is the sweep's next.
    pub open spec fn asks(&self, discovery: Option<Discovery>, request: Option<Outgoing>) -> bool {
        match discovery {
            None => request is None,
            Some(discovery) => {
                &&& request matches Some(request)
                &&& request.announce is Some == !self.announced
                &&& request.announce matches Some(local) ==> local@ == discovery.local@
                &&& request.after == self.after
                &&& request.known == (if self.after is None {
                    self.generation
                } else {
                    0
                })
            },
        }
    }

    /// The next page's request: this node's announcement until it has been answered, and the known
    /// generation only between sweeps, so that a sweep in progress always gets its next record.
    pub fn request(&self, discovery: &Option<Discovery>) -> (request: Option<Outgoing>)
        ensures
            self.asks(*discovery, request),
    {
        match discovery {
            None => None,
            Some(discovery) => {
                let announce = if self.announced {
                    None
                } else {
                    Some(discovery.local.copy())
                };
                let known: u64 = match self.after {
                    None => self.generation,
                    Some(_) => 0,
                };
                Some(Outgoing { announce, after: self.after, known })
            },
        }
    }

    /// Whether `admitted` and `after` are what a reply's own announcement makes of an enrollment.
    pub open spec fn takes_local(
        &self,
        before: Enrollment,
        frame_cap: usize,
        reply: Received<Reply<Presented>>,
        expected: HostId,
        admitted: Result<Admitted, Refusal>,
        after: Enrollment,
    ) -> bool {
        if !fits_message(reply.bytes, frame_cap) {
            admitted == Err::<Admitted, Refusal>(Refusal::Capacity) && after.same_as(before)
        } else {
            match reply.decoded {
                None => admitted == Err::<Admitted, Refusal>(Refusal::Malformed) && after.same_as(before),
                Some(decoded) => match decoded.local {
                    Some(local) => if local.announce.anchor != expected {
                        admitted == Err::<Admitted, Refusal>(Refusal::Identity) && after.same_as(before)
                    } else {
                        before.admits(local@, true, admitted, after)
                    },
                    None => {
                        &&& admitted == (if self.announced {
                            Ok::<Admitted, Refusal>(Admitted::Unchanged)
                        } else {
                            Err::<Admitted, Refusal>(Refusal::Identity)
                        })
                        &&& after.same_as(before)
                    },
                },
            }
        }
    }

    /// The first step of a reply: one too long or undecodable is refused; a peer's own announcement
    /// must be the expected anchor's and is admitted as direct contact, and the first reply must
    /// carry it.
    pub fn receive_local(
        &self,
        enrollment: &mut Enrollment,
        frame_cap: usize,
        reply: &Received<Reply<Presented>>,
        expected: HostId,
    ) -> (admitted: Result<Admitted, Refusal>)
        ensures
            self.takes_local(
                *old(enrollment),
                frame_cap,
                *reply,
                expected,
                admitted,
                *final(enrollment),
            ),
    {
        if !message_fits(reply.bytes, frame_cap) {
            return Err(Refusal::Capacity);
        }
        match &reply.decoded {
            None => Err(Refusal::Malformed),
            Some(decoded) => match &decoded.local {
                Some(local) => {
                    if local.announce.anchor != expected {
                        return Err(Refusal::Identity);
                    }
                    enrollment.enroll(local, true)
                },
                None => if self.announced {
                    Ok(Admitted::Unchanged)
                } else {
                    Err(Refusal::Identity)
                },
            },
        }
    }

    /// Where the sweep stands after a reply: past its candidate, started over when the roster
    /// changed under it, or ended at the reply's generation.
    pub open spec fn swept(self, candidate: Option<HostId>, generation: u64) -> Cursor {
        match candidate {
            Some(anchor) => if self.after is Some && self.generation != generation {
                Cursor { after: None, generation: 0, ..self }
            } else {
                Cursor { after: Some(anchor), generation, ..self }
            },
            None => Cursor { after: None, generation, ..self },
        }
    }

    /// The second step of a reply: the sweep moves, and the candidate is admitted as relayed.
    pub fn receive_candidate(
        &mut self,
        enrollment: &mut Enrollment,
        reply: &Reply<Presented>,
    ) -> (admitted: Result<Admitted, Refusal>)
        ensures
            match reply.candidate {
                Some(candidate) => {
                    &&& *final(self) == old(self).swept(
                        Some(candidate.announce.anchor),
                        reply.generation,
                    )
                    &&& old(enrollment).admits(candidate@, false, admitted, *final(enrollment))
                },
                None => {
                    &&& *final(self) == old(self).swept(None, reply.generation)
                    &&& admitted == Ok::<Admitted, Refusal>(Admitted::Unchanged)
                    &&& final(enrollment).same_as(*old(enrollment))
                },
            },
    {
        match &reply.candidate {
            Some(candidate) => {
                let restart = self.after.is_some() && self.generation != reply.generation;
                if restart {
                    self.after = None;
                    self.generation = 0;
                } else {
                    self.after = Some(candidate.announce.anchor);
                    self.generation = reply.generation;
                }
                enrollment.enroll(candidate, false)
            },
            None => {
                self.after = None;
                self.generation = reply.generation;
                Ok(Admitted::Unchanged)
            },
        }
    }

    /// The last step of a reply whose candidate was admitted and published: this node has been
    /// answered.
    pub fn received(&mut self)
        ensures
            *final(self) == (Cursor { announced: true, ..*old(self) }),
    {
        self.announced = true;
    }
}

/// Enrollment is bounded: a roster at the fleet's capacity admits no further peer, and an admission
/// never takes it past the capacity.
pub proof fn enrollment_is_bounded(
    discovery: DiscoveryFacts,
    presented: PresentedFacts,
    direct: bool,
)
    requires
        discovery.records.dom().finite(),
        discovery.enrolled() <= discovery.capacity,
    ensures
        discovery.inserted(presented, direct).enrolled() <= discovery.capacity,
{
    let after = discovery.inserted(presented, direct);
    let anchor = presented.announce.anchor.0;
    if discovery.insertion(presented, direct) == Ok::<bool, Refusal>(true) {
        let before_new = discovery.records.dom().difference(discovery.pins.dom());
        let after_new = after.records.dom().difference(after.pins.dom());
        if discovery.records.contains_key(anchor) || discovery.pins.contains_key(anchor) {
            assert(after_new =~= before_new);
        } else {
            assert(after_new =~= before_new.insert(anchor));
        }
    }
}

/// A relayed announcement never changes what direct contact established: a record keeps its
/// address, certificate and scope through any relayed announcement of its anchor.
pub proof fn a_relayed_announcement_overwrites_nothing(
    discovery: DiscoveryFacts,
    presented: PresentedFacts,
)
    requires
        discovery.records.contains_key(presented.announce.anchor.0),
    ensures
        discovery.inserted(presented, false) == discovery,
{
}

/// A record's certificate and scope never change: whatever is presented, an anchor once enrolled
/// keeps the certificate, region and domain it was enrolled with.
pub proof fn an_enrolled_identity_is_fixed(
    discovery: DiscoveryFacts,
    presented: PresentedFacts,
    direct: bool,
    anchor: u64,
)
    requires
        discovery.records.contains_key(anchor),
    ensures
        ({
            let after = discovery.inserted(presented, direct);
            &&& after.records.contains_key(anchor)
            &&& after.records[anchor].certificate == discovery.records[anchor].certificate
            &&& after.records[anchor].region == discovery.records[anchor].region
            &&& after.records[anchor].domain == discovery.records[anchor].domain
        }),
{
}

/// An enrolled certificate is authorized: an announcement that changed the roster either presents
/// the pinned certificate under its declared scope, or is the anchor its certificate stands for,
/// issued by an enrollment root and signed for its scope.
pub proof fn only_authorized_identities_enroll(
    discovery: DiscoveryFacts,
    presented: PresentedFacts,
    direct: bool,
)
    requires
        discovery.insertion(presented, direct) == Ok::<bool, Refusal>(true),
    ensures
        ({
            let announce = presented.announce;
            let anchor = announce.anchor.0;
            if discovery.pins.contains_key(anchor) {
                &&& discovery.pins[anchor] == announce.certificate
                &&& discovery.scopes[anchor] == (announce.region, announce.domain)
            } else {
                &&& announce.anchor == certificate_id(announce.certificate)
                &&& presented.issued
                &&& carries_name(
                    announce.certificate,
                    scope_text(discovery.name, announce.region, announce.domain),
                )
            }
        }),
{
}

/// An enrolled peer has the scope it announced, which its certificate was checked against: where
/// nothing was declared for it, its region and its failure domain are the announced ones; what was
/// declared stands; and no other node's scope changes.
pub proof fn an_enrolled_peer_has_its_announced_scope(
    before: Enrollment,
    presented: PresentedFacts,
    direct: bool,
    admitted: Result<Admitted, Refusal>,
    after: Enrollment,
    node: u64,
)
    requires
        before.admits(presented, direct, admitted, after),
        admitted matches Ok(Admitted::Changed { .. }),
    ensures
        ({
            let old_scopes = before.scopes();
            let scopes = after.scopes();
            let seed = presented.seed.0;
            let announce = presented.announce;
            &&& scopes.node_regions.contains_key(seed)
            &&& !old_scopes.node_regions.contains_key(seed) ==> scopes.node_regions[seed] == RegionId(
                announce.region,
            )
            &&& old_scopes.regions matches Some(declared) ==> {
                &&& scopes.regions is Some
                &&& (scopes.regions->0).contains_key(seed)
                &&& !declared.contains_key(seed) ==> (scopes.regions->0)[seed] == RegionId(
                    announce.region,
                )
                &&& declared.contains_key(node) ==> (scopes.regions->0).contains_key(node)
                    && (scopes.regions->0)[node] == declared[node]
                &&& node != seed ==> (scopes.regions->0).contains_key(node) == declared.contains_key(
                    node,
                )
            }
            &&& old_scopes.domains matches Some(declared) ==> {
                &&& scopes.domains is Some
                &&& (scopes.domains->0).contains_key(seed)
                &&& !declared.contains_key(seed) ==> (scopes.domains->0)[seed] == DomainId(
                    announce.domain,
                )
                &&& declared.contains_key(node) ==> (scopes.domains->0).contains_key(node)
                    && (scopes.domains->0)[node] == declared[node]
                &&& node != seed ==> (scopes.domains->0).contains_key(node) == declared.contains_key(
                    node,
                )
            }
            &&& old_scopes.node_regions.contains_key(node) ==> scopes.node_regions.contains_key(node)
                && scopes.node_regions[node] == old_scopes.node_regions[node]
            &&& node != seed ==> scopes.node_regions.contains_key(node)
                == old_scopes.node_regions.contains_key(node)
        }),
{
}

/// A sweep moves strictly forward: the record a request past `after` is answered with lies past it.
pub proof fn a_page_moves_the_sweep_forward(
    records: Map<u64, AnnouncementFacts>,
    after: HostId,
    key: u64,
)
    requires
        is_next_record(records, Some(after), key),
    ensures
        after.0 < key,
        forall|between: u64| after.0 < between < key ==> !#[trigger] records.contains_key(between),
{
}

/// An announcement is refused for its first fault and for no other reason: one that does not fit a
/// frame, that has no usable address, that is not the pinned certificate or not under its declared
/// scope; or, unpinned, that is not the anchor its certificate stands for, that no root issued, that
/// does not parse, or whose scope its certificate does not carry.
pub proof fn a_refused_announcement_says_why(discovery: DiscoveryFacts, presented: PresentedFacts)
    ensures
        ({
            let announce = presented.announce;
            let anchor = announce.anchor.0;
            let refusal = discovery.refusal(presented);
            let fits = presented.encoded_bytes <= discovery.frame_cap;
            let reachable = (announce.probe.address matches Some(probe) && probe.port_of() != 0) && (
            announce.record.address matches Some(record) && record.port_of() != 0);
            let pinned = discovery.pins.contains_key(anchor);
            let scope = scope_text(discovery.name, announce.region, announce.domain);
            &&& !fits ==> refusal == Some(Refusal::Capacity)
            &&& fits && !reachable ==> refusal == Some(Refusal::Malformed)
            &&& fits && reachable && pinned ==> {
                let own = discovery.pins[anchor] == announce.certificate;
                let declared = discovery.scopes.contains_key(anchor) && discovery.scopes[anchor].0
                    == announce.region && discovery.scopes[anchor].1 == announce.domain;
                &&& !own ==> refusal == Some(Refusal::Identity)
                &&& own && !declared ==> refusal == Some(Refusal::Scope)
                &&& own && declared ==> refusal is None
            }
            &&& fits && reachable && !pinned ==> {
                let own = certificate_id(announce.certificate) == announce.anchor;
                let parses = parses_as_certificate(announce.certificate);
                let named = parses_as_server_name(scope) && carries_name(
                    announce.certificate,
                    scope,
                );
                &&& !own ==> refusal == Some(Refusal::Identity)
                &&& own && !presented.issued ==> refusal == Some(Refusal::Untrusted)
                &&& own && presented.issued && !parses ==> refusal == Some(Refusal::Malformed)
                &&& own && presented.issued && parses && !named ==> refusal == Some(Refusal::Scope)
                &&& own && presented.issued && parses && named ==> refusal is None
            }
        }),
{
}

/// A valid announcement of a new node enrolls while there is room: it is refused for want of room
/// alone, and one already enrolled is taken again only from the node itself, with its identity and
/// scope as they were.
pub proof fn a_valid_announcement_enrolls(
    discovery: DiscoveryFacts,
    presented: PresentedFacts,
    direct: bool,
)
    requires
        discovery.refusal(presented) is None,
        presented.announce.anchor != discovery.local.anchor,
        discovery.generation < u64::MAX,
    ensures
        ({
            let announce = presented.announce;
            let anchor = announce.anchor.0;
            let outcome = discovery.insertion(presented, direct);
            let known = discovery.records.contains_key(anchor);
            let record = discovery.records[anchor];
            &&& !known && (discovery.enrolled() < discovery.capacity
                || discovery.pins.contains_key(anchor)) ==> outcome == Ok::<bool, Refusal>(true)
            &&& !known && discovery.enrolled() >= discovery.capacity
                && !discovery.pins.contains_key(anchor) ==> outcome == Err::<bool, Refusal>(
                Refusal::Capacity,
            )
            &&& known && !direct ==> outcome == Ok::<bool, Refusal>(false)
            &&& known && direct && record.says(announce) ==> outcome == Ok::<bool, Refusal>(false)
            &&& known && direct && !record.says(announce) && (record.certificate
                != announce.certificate || record.region != announce.region || record.domain
                != announce.domain) ==> outcome == Err::<bool, Refusal>(Refusal::Scope)
            &&& known && direct && !record.says(announce) && record.certificate
                == announce.certificate && record.region == announce.region && record.domain
                == announce.domain ==> outcome == Ok::<bool, Refusal>(true)
        }),
{
}

/// An enrolled node is recorded as it announced itself, and no other record changes; every change of
/// the roster is a new generation.
pub proof fn an_enrollment_records_the_announcement(
    discovery: DiscoveryFacts,
    presented: PresentedFacts,
    direct: bool,
    other: u64,
)
    requires
        discovery.insertion(presented, direct) == Ok::<bool, Refusal>(true),
    ensures
        ({
            let after = discovery.inserted(presented, direct);
            let anchor = presented.announce.anchor.0;
            &&& after.records.contains_key(anchor)
            &&& after.records[anchor] == presented.announce
            &&& other != anchor ==> after.records.contains_key(other)
                == discovery.records.contains_key(other)
            &&& other != anchor && discovery.records.contains_key(other) ==> after.records[other]
                == discovery.records[other]
            &&& after.generation == discovery.generation + 1
            &&& after.pins == discovery.pins
            &&& after.scopes == discovery.scopes
            &&& after.local == discovery.local
            &&& after.capacity == discovery.capacity
        }),
{
}

/// A newly enrolled node is dialed where it announced itself, and once: one that was pinned or
/// enrolled before is dialed already.
pub proof fn a_new_node_is_dialed_where_it_announced(
    before: Enrollment,
    presented: PresentedFacts,
    direct: bool,
    admitted: Result<Admitted, Refusal>,
    after: Enrollment,
)
    requires
        before.admits(presented, direct, admitted, after),
    ensures
        admitted matches Ok(Admitted::Changed { dial }) ==> {
            let authority = before.authority()->0;
            let announce = presented.announce;
            &&& before.authority() is Some
            &&& dial is Some <==> !authority.pins.contains_key(announce.anchor.0)
                && !authority.records.contains_key(announce.anchor.0)
            &&& dial matches Some(peer) ==> {
                &&& peer.anchor == announce.anchor
                &&& peer.host == presented.seed
                &&& Some(peer.address) == announce.probe.address
                &&& Some(peer.record_address) == announce.record.address
                &&& peer.certificate@ == announce.certificate
            }
        },
        !(admitted matches Ok(Admitted::Changed { .. })) ==> after.same_as(before),
        announced_peer(presented) is Some && before.authority() is None ==> admitted == Err::<
            Admitted,
            Refusal,
        >(Refusal::Untrusted),
{
}

/// An enrollment is acknowledged, and its node dialed, once the roster is stored; a roster that could
/// not be stored is refused.
pub proof fn an_enrollment_is_published_before_it_is_dialed(
    admitted: Admitted,
    stored: bool,
    dial: Result<Option<FleetPeer>, Refusal>,
)
    requires
        admitted.after_publication(stored, dial),
    ensures
        admitted matches Admitted::Changed { dial: peer } ==> {
            &&& stored ==> dial == Ok::<Option<FleetPeer>, Refusal>(peer)
            &&& !stored ==> dial == Err::<Option<FleetPeer>, Refusal>(Refusal::Publication)
        },
        admitted is Unchanged ==> dial == Ok::<Option<FleetPeer>, Refusal>(None),
{
}

/// A node's scope is what the manifest declares for it; a node without a region is of the first, and
/// one without a failure domain is its own.
pub proof fn an_undeclared_node_is_its_own_domain(
    fleet: Option<FleetScopes>,
    host: HostId,
    anchor: HostId,
)
    ensures
        match fleet {
            None => declared_scope(fleet, host, anchor) == (0u64, anchor.0),
            Some(scopes) => {
                let (region, domain) = declared_scope(fleet, host, anchor);
                &&& scopes.regions@.contains_key(host.0) ==> region == scopes.regions@[host.0].0
                &&& !scopes.regions@.contains_key(host.0) ==> region == 0
                &&& scopes.domains@.contains_key(host.0) ==> domain == scopes.domains@[host.0].0
                &&& !scopes.domains@.contains_key(host.0) ==> domain == anchor.0
            },
        },
{
}

/// The pins and scopes of the first peers.
proof fn lemma_seeded(fleet: Option<FleetScopes>, peers: Seq<SeedPeer>, count: int, at: int)
    requires
        0 <= at < count <= peers.len(),
        forall|i: int, j: int|
            0 <= i < j < peers.len() ==> (#[trigger] peers[i]).anchor != (#[trigger] peers[j]).anchor,
    ensures
        seed_pins(peers, count).contains_key(peers[at].anchor.0),
        seed_pins(peers, count)[peers[at].anchor.0] == peers[at].certificate@,
        seed_scopes(fleet, peers, count).contains_key(peers[at].anchor.0),
        seed_scopes(fleet, peers, count)[peers[at].anchor.0] == declared_scope(
            fleet,
            peers[at].host,
            peers[at].anchor,
        ),
    decreases count,
{
    if at < count - 1 {
        lemma_seeded(fleet, peers, count - 1, at);
        assert(peers[at].anchor != peers[count - 1].anchor);
        assert(peers[at].anchor.0 != peers[count - 1].anchor.0) by {
            if peers[at].anchor.0 == peers[count - 1].anchor.0 {
                assert(peers[at].anchor == peers[count - 1].anchor);
            }
        }
    }
}

/// A node starts with every manifest peer pinned to its own certificate and scope, with itself, and
/// with nobody enrolled: its own announcement is what it will tell others.
pub proof fn a_start_pins_the_manifests_peers(
    name: Seq<char>,
    local: LocalNode,
    peers: Seq<SeedPeer>,
    fleet: Option<FleetScopes>,
    capacity: usize,
    frame_cap: usize,
    discovery: Result<Discovery, Refusal>,
    at: int,
)
    requires
        Discovery::starts(name, local, peers, fleet, capacity, frame_cap, discovery),
        0 <= at < peers.len(),
        peers[at].anchor != local.anchor,
        forall|i: int, j: int|
            0 <= i < j < peers.len() ==> (#[trigger] peers[i]).anchor != (#[trigger] peers[j]).anchor,
    ensures
        discovery matches Ok(discovery) ==> {
            &&& discovery@.pins.contains_key(peers[at].anchor.0)
            &&& discovery@.pins[peers[at].anchor.0] == peers[at].certificate@
            &&& discovery@.scopes.contains_key(peers[at].anchor.0)
            &&& discovery@.scopes[peers[at].anchor.0] == declared_scope(
                fleet,
                peers[at].host,
                peers[at].anchor,
            )
            &&& discovery@.pins.contains_key(local.anchor.0)
            &&& discovery@.pins[local.anchor.0] == local.certificate@
            &&& discovery@.local.anchor == local.anchor
            &&& discovery@.local.certificate == local.certificate@
            &&& discovery@.local.probe == local.probe
            &&& discovery@.local.record == local.record
            &&& (discovery@.local.region, discovery@.local.domain) == declared_scope(
                fleet,
                local.seed,
                local.anchor,
            )
            &&& discovery@.records == Map::<u64, AnnouncementFacts>::empty()
            &&& discovery@.capacity == capacity
            &&& discovery@.frame_cap == frame_cap
            &&& discovery@.name == name
        },
        discovery is Err <==> local.encoded_bytes > frame_cap || !local.probe.usable()
            || !local.record.usable(),
{
    lemma_seeded(fleet, peers, peers.len() as int, at);
    assert(peers[at].anchor.0 != local.anchor.0) by {
        if peers[at].anchor.0 == local.anchor.0 {
            assert(peers[at].anchor == local.anchor);
        }
    }
}

/// A certificate stands for a node that is pinned or enrolled with it, and for nobody else; and that
/// node is reached, on each plane, where its own record says.
pub proof fn a_certificate_stands_for_its_node(
    discovery: Discovery,
    certificate: Seq<u8>,
    anchor: Option<HostId>,
    plane: Plane,
    address: Option<NodeAddress>,
)
    requires
        discovery.knows(certificate, anchor),
        discovery.finds(certificate, plane, address),
    ensures
        anchor is Some <==> (exists|key: u64| #[trigger]
            discovery@.pins.contains_key(key) && discovery@.pins[key] == certificate) || (exists|
            key: u64,
        | #[trigger]
            discovery@.records.contains_key(key) && discovery@.records[key].certificate
                == certificate),
        anchor matches Some(host) ==> (discovery@.pins.contains_key(host.0)
            && discovery@.pins[host.0] == certificate) || (exists|key: u64| #[trigger]
            discovery@.records.contains_key(key) && discovery@.records[key].certificate
                == certificate && discovery@.records[key].anchor == host),
        address is Some ==> exists|key: u64| #[trigger]
            discovery@.records.contains_key(key) && discovery@.records[key].certificate
                == certificate && address == (match plane {
                Plane::Probe => discovery@.records[key].probe.address,
                Plane::Record => discovery@.records[key].record.address,
            }),
{
    let enrolled = discovery@.record_certificates();
    if holds_certificate(enrolled, certificate) {
        let key = choose|key: u64| #[trigger]
            enrolled.contains_key(key) && enrolled[key] == certificate;
        assert(discovery@.records.contains_key(key));
        let key = choose|key: u64|
            #[trigger] is_least_with(enrolled, certificate, key) && address == (match plane {
                Plane::Probe => discovery@.records[key].probe.address,
                Plane::Record => discovery@.records[key].record.address,
            });
        assert(discovery@.records.contains_key(key));
    }
    if exists|key: u64| #[trigger]
        discovery@.records.contains_key(key) && discovery@.records[key].certificate == certificate {
        let key = choose|key: u64| #[trigger]
            discovery@.records.contains_key(key) && discovery@.records[key].certificate
                == certificate;
        assert(enrolled.contains_key(key) && enrolled[key] == certificate);
    }
    if exists|key: u64| #[trigger]
        discovery@.pins.contains_key(key) && discovery@.pins[key] == certificate {
        assert(holds_certificate(discovery@.pins, certificate));
    }
    if let Some(host) = anchor {
        if !holds_certificate(discovery@.pins, certificate) {
            let key = choose|key: u64|
                #[trigger] is_least_with(enrolled, certificate, key)
                    && discovery@.records[key].anchor == host;
            assert(discovery@.records.contains_key(key));
        } else {
            assert(discovery@.pins.contains_key(host.0));
        }
    }
}

/// A node announces itself over its own connection only: an announcement under another certificate
/// than the connection's is refused, one that does not fit or decode is refused, and a request without
/// one changes nothing.
pub proof fn a_node_announces_itself(
    before: Enrollment,
    certificate: Seq<u8>,
    frame_cap: usize,
    request: Received<Request>,
    admitted: Result<Admitted, Refusal>,
    after: Enrollment,
)
    requires
        before.takes_announcement(certificate, frame_cap, request, admitted, after),
    ensures
        request.bytes > 3 * frame_cap ==> admitted == Err::<Admitted, Refusal>(Refusal::Capacity),
        request.bytes <= 3 * frame_cap && request.decoded is None ==> admitted == Err::<
            Admitted,
            Refusal,
        >(Refusal::Malformed),
        request.bytes <= 3 * frame_cap && (request.decoded matches Some(decoded) && (decoded.announce
            matches Some(presented) && presented.announce.certificate@ != certificate))
            ==> admitted == Err::<Admitted, Refusal>(Refusal::Identity),
        admitted matches Ok(Admitted::Changed { .. }) ==> (request.decoded matches Some(decoded) && (
        decoded.announce matches Some(presented) && presented.announce.certificate@ == certificate
            && before.admits(presented@, true, admitted, after))),
        !(admitted matches Ok(Admitted::Changed { .. })) ==> after.same_as(before),
{
}

/// A page answers a node that is pinned or enrolled, with the first record past the one it asks from,
/// until there is none: a node that has the present generation is told nothing more, and this node's
/// own announcement answers one that announced itself.
pub proof fn a_page_answers_the_next_record(
    enrollment: Enrollment,
    certificate: Seq<u8>,
    request: Request,
    reply: Result<Reply<Announcement>, Refusal>,
    key: u64,
)
    requires
        enrollment.replies(certificate, request, reply),
    ensures
        enrollment.authority() is None ==> reply == Err::<Reply<Announcement>, Refusal>(
            Refusal::Untrusted,
        ),
        reply matches Ok(reply) ==> {
            let discovery = enrollment.authority()->0;
            let beyond = discovery.records.contains_key(key) && (request.after matches Some(after)
                ==> after.0 < key);
            &&& reply.generation == discovery.generation
            &&& request.announce is Some ==> (reply.local matches Some(local) && local@
                == discovery.local)
            &&& request.announce is None ==> reply.local is None
            &&& request.known == discovery.generation ==> reply.candidate is None
            &&& request.known != discovery.generation && beyond ==> reply.candidate is Some
            &&& reply.candidate matches Some(candidate) ==> exists|next: u64| #[trigger]
                discovery.records.contains_key(next) && candidate@ == discovery.records[next] && (
                request.after matches Some(after) ==> after.0 < next) && (beyond ==> next <= key)
        },
{
    if let Ok(answered) = reply {
        let discovery = enrollment.authority()->0;
        if request.known != discovery.generation {
            if let Some(candidate) = answered.candidate {
                let next = choose|next: u64| #[trigger]
                    is_next_record(discovery.records, request.after, next) && candidate@
                        == discovery.records[next];
                assert(discovery.records.contains_key(next));
            }
        }
    }
}

/// A sweep announces this node on its first page, asks from where it stands, and names the generation
/// it knows only when it begins anew; it goes on past each record it is given, begins anew when the
/// roster changed under it, and rests at the end with the generation it then has.
pub proof fn a_sweep_covers_one_generation(
    cursor: Cursor,
    discovery: Option<Discovery>,
    request: Option<Outgoing>,
    candidate: Option<HostId>,
    generation: u64,
)
    requires
        cursor.asks(discovery, request),
    ensures
        request is Some <==> discovery is Some,
        request matches Some(request) ==> {
            &&& request.announce is Some <==> !cursor.announced
            &&& request.announce matches Some(local) ==> local@ == (discovery->0)@.local
            &&& request.after == cursor.after
            &&& cursor.after is None ==> request.known == cursor.generation
            &&& cursor.after is Some ==> request.known == 0
        },
        ({
            let next = cursor.swept(candidate, generation);
            &&& next.announced == cursor.announced
            &&& candidate is None ==> next.after is None && next.generation == generation
            &&& candidate is Some && (cursor.after is None || cursor.generation == generation)
                ==> next.after == candidate && next.generation == generation
            &&& candidate is Some && cursor.after is Some && cursor.generation != generation
                ==> next.after is None && next.generation == 0
        }),
{
}

/// A peer's reply speaks for the peer that was asked: its own announcement is taken as direct contact
/// under the expected anchor, another's is refused, and a first reply without one is refused.
pub proof fn a_reply_speaks_for_its_sender(
    cursor: Cursor,
    before: Enrollment,
    frame_cap: usize,
    reply: Received<Reply<Presented>>,
    expected: HostId,
    admitted: Result<Admitted, Refusal>,
    after: Enrollment,
)
    requires
        cursor.takes_local(before, frame_cap, reply, expected, admitted, after),
    ensures
        reply.bytes > 3 * frame_cap ==> admitted == Err::<Admitted, Refusal>(Refusal::Capacity),
        reply.bytes <= 3 * frame_cap && reply.decoded is None ==> admitted == Err::<
            Admitted,
            Refusal,
        >(Refusal::Malformed),
        reply.bytes <= 3 * frame_cap ==> (reply.decoded matches Some(decoded) ==> {
            &&& decoded.local matches Some(local) ==> {
                &&& local.announce.anchor != expected ==> admitted == Err::<Admitted, Refusal>(
                    Refusal::Identity,
                )
                &&& local.announce.anchor == expected ==> before.admits(
                    local@,
                    true,
                    admitted,
                    after,
                )
            }
            &&& decoded.local is None ==> (admitted is Ok <==> cursor.announced)
        }),
        !(admitted matches Ok(Admitted::Changed { .. })) ==> after.same_as(before),
{
}

/// A revalidated roster dials the peers it announces and no others, each where it announced itself.
pub proof fn a_restored_peer_was_retained(
    discovery: DiscoveryFacts,
    list: Seq<PresentedFacts>,
    count: int,
    at: int,
)
    requires
        0 <= count <= list.len(),
        restoration(discovery, list, count).1 is Ok,
        0 <= at < (restoration(discovery, list, count).1->Ok_0).len(),
    ensures
        exists|i: int|
            0 <= i < count && announced_peer(#[trigger] list[i]) == Some(
                (restoration(discovery, list, count).1->Ok_0)[at],
            ) && !discovery.pins.contains_key(list[i].announce.anchor.0),
    decreases count,
{
    if count > 0 {
        let (before, peers) = restoration(discovery, list, count - 1);
        lemma_restoration_keeps_pins(discovery, list, count - 1);
        if at < (peers->Ok_0).len() {
            a_restored_peer_was_retained(discovery, list, count - 1, at);
        } else {
            assert(announced_peer(list[count - 1]) == Some(
                (restoration(discovery, list, count).1->Ok_0)[at],
            ));
        }
    }
}

/// A revalidation changes no pin.
proof fn lemma_restoration_keeps_pins(
    discovery: DiscoveryFacts,
    list: Seq<PresentedFacts>,
    count: int,
)
    ensures
        restoration(discovery, list, count).0.pins == discovery.pins,
    decreases count,
{
    if count > 0 {
        lemma_restoration_keeps_pins(discovery, list, count - 1);
    }
}

/// Each refusal of an enrollment is counted under its own name.
pub proof fn every_refusal_is_counted_apart(a: Refusal, b: Refusal)
    ensures
        a != b ==> a.counter_name()@ != b.counter_name()@,
{
    reveal_strlit("fleet.enrollment_malformed");
    reveal_strlit("fleet.enrollment_untrusted");
    reveal_strlit("fleet.enrollment_scope");
    reveal_strlit("fleet.enrollment_capacity");
    reveal_strlit("fleet.enrollment_identity");
    reveal_strlit("fleet.enrollment_publication");
    if a != b && a.counter_name()@ == b.counter_name()@ {
        assert(a.counter_name()@[17] == b.counter_name()@[17]);
    }
}

} // verus!
