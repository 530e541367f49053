//! Host-owned network brokerage policy: the zone of an address, normalized
//! hostnames, the alignment of a verb with its scope and destination, and
//! the exact budget shape of one brokered request. Sockets, name
//! resolution and evidence digests stay with the Host.
use vstd::prelude::*;

use crate::error::{AppError, AppResult};
use crate::text::utf8;

verus! {

pub const NETWORK_BROKER_VERSION: &'static str = "pastey-network-broker-v1";

pub const TCP_TRANSPORT_REF: &'static str = "pastey-network-transport:v1:tcp";

/// The longest hostname, in bytes.
pub const MAX_HOSTNAME_BYTES: usize = 253;

/// The longest label of a hostname, in bytes.
pub const MAX_LABEL_BYTES: usize = 63;

/// The largest request a connection may stage, in bytes.
pub const MAX_STAGED_REQUEST_BYTES: usize = 1048576;

/// The network zone a scope grants.
#[derive(Clone, Copy, Debug, PartialEq, Eq, Hash, PartialOrd, Ord, Structural)]
pub enum NetworkScopeKindV1 {
    NameResolution,
    Loopback,
    Lan,
    Internet,
}

pub open spec fn scope_label(k: NetworkScopeKindV1) -> Seq<char> {
    match k {
        NetworkScopeKindV1::NameResolution => "name_resolution"@,
        NetworkScopeKindV1::Loopback => "loopback"@,
        NetworkScopeKindV1::Lan => "lan"@,
        NetworkScopeKindV1::Internet => "internet"@,
    }
}

impl NetworkScopeKindV1 {
    pub fn label(self) -> (r: &'static str)
        ensures
            r@ == scope_label(self),
    {
        match self {
            NetworkScopeKindV1::NameResolution => "name_resolution",
            NetworkScopeKindV1::Loopback => "loopback",
            NetworkScopeKindV1::Lan => "lan",
            NetworkScopeKindV1::Internet => "internet",
        }
    }
}

/// A brokered transport.
#[derive(Clone, Copy, Debug, PartialEq, Eq, Hash, PartialOrd, Ord, Structural)]
pub enum NetworkTransportV1 {
    Tcp,
}

impl NetworkTransportV1 {
    pub fn transport_ref(self) -> (r: &'static str)
        ensures
            r@ == TCP_TRANSPORT_REF@,
    {
        match self {
            NetworkTransportV1::Tcp => TCP_TRANSPORT_REF,
        }
    }
}

#[derive(Clone, Copy, Debug, PartialEq, Eq, Structural)]
pub enum NetworkDnsModeV1 {
    Denied,
    SystemPinned,
}

#[derive(Clone, Copy, Debug, PartialEq, Eq, Structural)]
pub enum NetworkProxyModeV1 {
    DirectOnly,
}

/// What a brokered request does.
#[derive(Clone, Copy, Debug, PartialEq, Eq, Hash, PartialOrd, Ord, Structural)]
pub enum NetworkVerbV1 {
    Resolve,
    Connect,
    Bind,
}

/// An IP address: four octets, or eight 16-bit segments.
#[derive(Clone, Copy, Debug, PartialEq, Eq, Hash)]
pub enum IpAddressV1 {
    V4([u8; 4]),
    V6([u16; 8]),
}

// ---- what std's `Ipv4Addr`/`Ipv6Addr` predicates document ----

/// `0.0.0.0`.
pub open spec fn v4_unspecified(o: [u8; 4]) -> bool {
    o[0] == 0 && o[1] == 0 && o[2] == 0 && o[3] == 0
}

/// `224.0.0.0/4`.
pub open spec fn v4_multicast(o: [u8; 4]) -> bool {
    224 <= o[0] && o[0] <= 239
}

/// `127.0.0.0/8`.
pub open spec fn v4_loopback(o: [u8; 4]) -> bool {
    o[0] == 127
}

/// `10.0.0.0/8`, `172.16.0.0/12` and `192.168.0.0/16`.
pub open spec fn v4_private(o: [u8; 4]) -> bool {
    ||| o[0] == 10
    ||| (o[0] == 172 && 16 <= o[1] && o[1] <= 31)
    ||| (o[0] == 192 && o[1] == 168)
}

/// `169.254.0.0/16`.
pub open spec fn v4_link_local(o: [u8; 4]) -> bool {
    o[0] == 169 && o[1] == 254
}

/// `255.255.255.255`.
pub open spec fn v4_broadcast(o: [u8; 4]) -> bool {
    o[0] == 255 && o[1] == 255 && o[2] == 255 && o[3] == 255
}

/// `::`.
pub open spec fn v6_unspecified(s: [u16; 8]) -> bool {
    forall|i: int| 0 <= i < 8 ==> s[i] == 0
}

/// `::1`.
pub open spec fn v6_loopback(s: [u16; 8]) -> bool {
    (forall|i: int| 0 <= i < 7 ==> s[i] == 0) && s[7] == 1
}

/// `ff00::/8`.
pub open spec fn v6_multicast(s: [u16; 8]) -> bool {
    s[0] >= 0xff00
}

/// `fe80::/10`.
pub open spec fn v6_unicast_link_local(s: [u16; 8]) -> bool {
    0xfe80 <= s[0] && s[0] <= 0xfebf
}

/// `::ffff:a.b.c.d`, the IPv4-mapped addresses.
pub open spec fn v6_ipv4_mapped(s: [u16; 8]) -> bool {
    s[0] == 0 && s[1] == 0 && s[2] == 0 && s[3] == 0 && s[4] == 0 && s[5] == 0xffff
}

/// The IPv4 address inside an IPv4-mapped address.
pub open spec fn mapped_octets(s: [u16; 8]) -> [u8; 4] {
    [(s[6] / 256) as u8, (s[6] % 256) as u8, (s[7] / 256) as u8, (s[7] % 256) as u8]
}

// ---- this broker's own special-use ranges ----

/// `0.0.0.0/8`, `100.64.0.0/10`, `192.0.0.0/24`, `192.0.2.0/24`,
/// `198.18.0.0/15`, `198.51.100.0/24`, `203.0.113.0/24` and `224.0.0.0/3`.
pub open spec fn v4_special(o: [u8; 4]) -> bool {
    ||| o[0] == 0
    ||| (o[0] == 100 && 64 <= o[1] && o[1] <= 127)
    ||| (o[0] == 192 && o[1] == 0 && o[2] == 0)
    ||| (o[0] == 192 && o[1] == 0 && o[2] == 2)
    ||| (o[0] == 198 && (o[1] == 18 || o[1] == 19))
    ||| (o[0] == 198 && o[1] == 51 && o[2] == 100)
    ||| (o[0] == 203 && o[1] == 0 && o[2] == 113)
    ||| o[0] >= 224
}

/// `2001:db8::/32` (documentation) and `fec0::/10` (site-local).
pub open spec fn v6_special(s: [u16; 8]) -> bool {
    (s[0] == 0x2001 && s[1] == 0x0db8) || (0xfec0 <= s[0] && s[0] <= 0xfeff)
}

/// `fc00::/7`.
pub open spec fn v6_unique_local(s: [u16; 8]) -> bool {
    0xfc00 <= s[0] && s[0] <= 0xfdff
}

/// The address itself, or the IPv4 address an IPv4-mapped one carries.
pub open spec fn canonical_address(a: IpAddressV1) -> IpAddressV1 {
    match a {
        IpAddressV1::V6(s) => if v6_ipv4_mapped(s) {
            IpAddressV1::V4(mapped_octets(s))
        } else {
            a
        },
        IpAddressV1::V4(_) => a,
    }
}

/// Unspecified or multicast.
pub open spec fn address_void(a: IpAddressV1) -> bool {
    match a {
        IpAddressV1::V4(o) => v4_unspecified(o) || v4_multicast(o),
        IpAddressV1::V6(s) => v6_unspecified(s) || v6_multicast(s),
    }
}

/// Broadcast, documentation or another special-use range.
pub open spec fn address_special(a: IpAddressV1) -> bool {
    match a {
        IpAddressV1::V4(o) => v4_broadcast(o) || v4_special(o),
        IpAddressV1::V6(s) => v6_special(s),
    }
}

pub open spec fn address_loopback(a: IpAddressV1) -> bool {
    match a {
        IpAddressV1::V4(o) => v4_loopback(o),
        IpAddressV1::V6(s) => v6_loopback(s),
    }
}

/// Private or link-local.
pub open spec fn address_lan(a: IpAddressV1) -> bool {
    match a {
        IpAddressV1::V4(o) => v4_private(o) || v4_link_local(o),
        IpAddressV1::V6(s) => v6_unique_local(s) || v6_unicast_link_local(s),
    }
}

/// The zone of an address, if it may be brokered at all.
pub open spec fn address_zone(a: IpAddressV1) -> Option<NetworkScopeKindV1> {
    let c = canonical_address(a);
    if address_void(c) || address_special(c) {
        None
    } else if address_loopback(c) {
        Some(NetworkScopeKindV1::Loopback)
    } else if address_lan(c) {
        Some(NetworkScopeKindV1::Lan)
    } else {
        Some(NetworkScopeKindV1::Internet)
    }
}

fn is_ipv4_special(o: [u8; 4]) -> (r: bool)
    ensures
        r == v4_special(o),
{
    let first = o[0];
    let second = o[1];
    let third = o[2];
    first == 0 || (first == 100 && 64 <= second && second <= 127) || (first == 192 && second == 0
        && third == 0) || (first == 192 && second == 0 && third == 2) || (first == 198 && (second
        == 18 || second == 19)) || (first == 198 && second == 51 && third == 100) || (first == 203
        && second == 0 && third == 113) || first >= 224
}

fn is_ipv6_special(s: [u16; 8]) -> (r: bool)
    ensures
        r == v6_special(s),
{
    (s[0] == 0x2001 && s[1] == 0x0db8) || (0xfec0 <= s[0] && s[0] <= 0xfeff)
}

fn is_ipv6_unique_local(s: [u16; 8]) -> (r: bool)
    ensures
        r == v6_unique_local(s),
{
    0xfc00 <= s[0] && s[0] <= 0xfdff
}

fn canonical(a: IpAddressV1) -> (r: IpAddressV1)
    ensures
        r == canonical_address(a),
{
    match a {
        IpAddressV1::V6(s) => {
            if s[0] == 0 && s[1] == 0 && s[2] == 0 && s[3] == 0 && s[4] == 0 && s[5] == 0xffff {
                let o: [u8; 4] = [(s[6] / 256) as u8, (s[6] % 256) as u8, (s[7] / 256) as u8, (s[7]
                    % 256) as u8];
                assert(o@ =~= mapped_octets(s)@);
                IpAddressV1::V4(o)
            } else {
                a
            }
        },
        IpAddressV1::V4(_) => a,
    }
}

/// The zone of `address`. Refuses unspecified and multicast addresses, then
/// broadcast, documentation and special-use ones; an IPv4-mapped address is
/// judged as the IPv4 address it carries.
pub fn classify_address(address: IpAddressV1) -> (r: AppResult<NetworkScopeKindV1>)
    ensures
        r matches Ok(k) ==> address_zone(address) == Some(k),
        r is Err <==> address_zone(address) is None,
        address_void(canonical_address(address)) ==> r == Err::<NetworkScopeKindV1, AppError>(
            AppError::InvalidInput("Unspecified and multicast endpoints are unavailable."),
        ),
        !address_void(canonical_address(address)) && address_special(canonical_address(address))
            ==> r == Err::<NetworkScopeKindV1, AppError>(
            AppError::InvalidInput("Broadcast, documentation, and special-use endpoints are unavailable."),
        ),
{
    let c = canonical(address);
    let (void, special, loopback, lan) = match c {
        IpAddressV1::V4(o) => {
            (
                (o[0] == 0 && o[1] == 0 && o[2] == 0 && o[3] == 0) || (224 <= o[0] && o[0] <= 239),
                (o[0] == 255 && o[1] == 255 && o[2] == 255 && o[3] == 255) || is_ipv4_special(o),
                o[0] == 127,
                o[0] == 10 || (o[0] == 172 && 16 <= o[1] && o[1] <= 31) || (o[0] == 192 && o[1]
                    == 168) || (o[0] == 169 && o[1] == 254),
            )
        },
        IpAddressV1::V6(s) => {
            let zero_head = s[0] == 0 && s[1] == 0 && s[2] == 0 && s[3] == 0 && s[4] == 0 && s[5]
                == 0 && s[6] == 0;
            (
                (zero_head && s[7] == 0) || s[0] >= 0xff00,
                is_ipv6_special(s),
                zero_head && s[7] == 1,
                is_ipv6_unique_local(s) || (0xfe80 <= s[0] && s[0] <= 0xfebf),
            )
        },
    };
    if void {
        return Err(AppError::InvalidInput("Unspecified and multicast endpoints are unavailable."));
    }
    if special {
        return Err(
            AppError::InvalidInput("Broadcast, documentation, and special-use endpoints are unavailable."),
        );
    }
    if loopback {
        Ok(NetworkScopeKindV1::Loopback)
    } else if lan {
        Ok(NetworkScopeKindV1::Lan)
    } else {
        Ok(NetworkScopeKindV1::Internet)
    }
}

/// Where a destination is: a literal address or a hostname.
#[derive(Clone, Debug, PartialEq, Eq)]
pub enum NetworkEndpointHostV1 {
    Literal(IpAddressV1),
    Hostname(String),
}

/// Lowercase ASCII letters, digits, `-` and `.`.
pub open spec fn hostname_byte(c: u8) -> bool {
    (97 <= c && c <= 122) || (48 <= c && c <= 57) || c == 45 || c == 46
}

/// The length of the label that ends just before position `i`.
pub open spec fn label_run(b: Seq<u8>, i: nat) -> nat
    decreases i,
{
    if i == 0 {
        0
    } else if b[i - 1] == 46 {
        0
    } else {
        1 + label_run(b, (i - 1) as nat)
    }
}

/// At position `i`: a dot neither starts nor ends the name nor follows a
/// dot, and a hyphen neither starts nor ends a label.
pub open spec fn hostname_position_ok(b: Seq<u8>, i: int) -> bool {
    &&& hostname_byte(b[i])
    &&& b[i] == 46 ==> 0 < i < b.len() - 1 && b[i + 1] != 46
    &&& b[i] == 45 ==> 0 < i < b.len() - 1 && b[i - 1] != 46 && b[i + 1] != 46
}

/// A normalized, bounded hostname: 1..=253 bytes of lowercase letters,
/// digits, `-` and `.`, split by dots into labels of 1..=63 bytes that
/// neither start nor end with a hyphen. (Exactly the names that trimming
/// and ASCII lowercasing leave unchanged and whose every label is bounded
/// and made of ASCII alphanumerics and inner hyphens.)
pub open spec fn hostname_ok(b: Seq<u8>) -> bool {
    &&& 0 < b.len() <= MAX_HOSTNAME_BYTES
    &&& forall|i: int| 0 <= i < b.len() ==> #[trigger] hostname_position_ok(b, i)
    &&& forall|i: nat| i <= b.len() ==> #[trigger] label_run(b, i) <= MAX_LABEL_BYTES
}

pub open spec fn endpoint_host_ok(h: NetworkEndpointHostV1) -> bool {
    match h {
        NetworkEndpointHostV1::Literal(_) => true,
        NetworkEndpointHostV1::Hostname(n) => hostname_ok(utf8(n@)),
    }
}

fn hostname_valid(name: &str) -> (r: bool)
    ensures
        r == hostname_ok(utf8(name@)),
{
    let b = name.as_bytes();
    assert(b@ == utf8(name@)) by {
        assert(b@ == vstd::string::StringSliceAdditionalSpecFns::spec_bytes(name));
    }
    let n = b.len();
    if n == 0 || n > MAX_HOSTNAME_BYTES {
        return false;
    }
    let mut run: usize = 0;
    let mut i: usize = 0;
    while i < n
        invariant
            n == b@.len(),
            b@ == utf8(name@),
            0 < n <= MAX_HOSTNAME_BYTES,
            i <= n,
            run == label_run(b@, i as nat),
            forall|k: int| 0 <= k < i ==> #[trigger] hostname_position_ok(b@, k),
            forall|k: nat| k <= i ==> #[trigger] label_run(b@, k) <= MAX_LABEL_BYTES,
        decreases n - i,
    {
        let c = b[i];
        let ok_byte = (97 <= c && c <= 122) || (48 <= c && c <= 57) || c == 45 || c == 46;
        if !ok_byte {
            assert(!hostname_position_ok(b@, i as int));
            return false;
        }
        if c == 46 && (i == 0 || i == n - 1 || b[i + 1] == 46) {
            assert(!hostname_position_ok(b@, i as int));
            return false;
        }
        if c == 45 && (i == 0 || i == n - 1 || b[i - 1] == 46 || b[i + 1] == 46) {
            assert(!hostname_position_ok(b@, i as int));
            return false;
        }
        assert(hostname_position_ok(b@, i as int));
        if c == 46 {
            run = 0;
        } else {
            if run >= MAX_LABEL_BYTES {
                assert(label_run(b@, (i + 1) as nat) > MAX_LABEL_BYTES);
                return false;
            }
            run = run + 1;
        }
        assert(run == label_run(b@, (i + 1) as nat));
        i = i + 1;
    }
    true
}

/// A literal address is always well-formed here; a hostname must be
/// normalized and bounded.
pub fn validate_endpoint_host(host: &NetworkEndpointHostV1) -> (r: AppResult<()>)
    ensures
        r is Ok <==> endpoint_host_ok(*host),
        r is Err ==> r == Err::<(), AppError>(
            AppError::InvalidInput("Network hostname is not normalized or bounded."),
        ),
{
    match host {
        NetworkEndpointHostV1::Literal(_) => Ok(()),
        NetworkEndpointHostV1::Hostname(name) => {
            if hostname_valid(name.as_str()) {
                Ok(())
            } else {
                Err(AppError::InvalidInput("Network hostname is not normalized or bounded."))
            }
        },
    }
}

/// A network scope: the zone, verbs, transports, DNS and proxy modes it
/// grants until `expires_at`, under the identity `scope_ref` that the Host
/// derives from its descriptor in one run context.
#[derive(Clone, Debug, PartialEq, Eq)]
pub struct NetworkScopeBindingSpecV1 {
    pub scope_ref: String,
    pub kind: NetworkScopeKindV1,
    pub allowed_verbs: Vec<NetworkVerbV1>,
    pub transports: Vec<NetworkTransportV1>,
    pub dns_mode: NetworkDnsModeV1,
    pub proxy_mode: NetworkProxyModeV1,
    pub expires_at: i64,
}

/// The verbs a zone supports: only resolution for name resolution, connect
/// and bind for loopback and LAN, only connect for the Internet.
pub open spec fn verb_supported(kind: NetworkScopeKindV1, verb: NetworkVerbV1) -> bool {
    match kind {
        NetworkScopeKindV1::NameResolution => verb == NetworkVerbV1::Resolve,
        NetworkScopeKindV1::Loopback | NetworkScopeKindV1::Lan => verb == NetworkVerbV1::Connect
            || verb == NetworkVerbV1::Bind,
        NetworkScopeKindV1::Internet => verb == NetworkVerbV1::Connect,
    }
}

/// The scope's identity is `expected_ref`, it grants some verb over some
/// transport, directly.
pub open spec fn scope_identity_ok(s: NetworkScopeBindingSpecV1, expected_ref: Seq<char>) -> bool {
    &&& s.scope_ref@ == expected_ref
    &&& s.allowed_verbs@.len() > 0
    &&& s.transports@.len() > 0
    &&& s.proxy_mode == NetworkProxyModeV1::DirectOnly
}

/// Every verb fits the zone; only a name-resolution scope resolves, and it
/// resolves through the pinned system resolver.
pub open spec fn scope_zone_ok(s: NetworkScopeBindingSpecV1) -> bool {
    &&& forall|i: int| 0 <= i < s.allowed_verbs@.len() ==> verb_supported(s.kind, #[trigger] s.allowed_verbs@[i])
    &&& (s.kind == NetworkScopeKindV1::NameResolution) == (s.dns_mode == NetworkDnsModeV1::SystemPinned)
}

impl NetworkScopeBindingSpecV1 {
    /// `Ok` exactly for a scope whose identity is `expected_ref` (what the
    /// Host derives for this descriptor in its run context) and whose zone,
    /// verbs and DNS mode do not mix independent authority.
    pub fn validate_identity(&self, expected_ref: &str) -> (r: AppResult<()>)
        ensures
            r is Ok <==> scope_identity_ok(*self, expected_ref@) && scope_zone_ok(*self),
            !scope_identity_ok(*self, expected_ref@) ==> r == Err::<(), AppError>(
                AppError::InvalidInput("Network scope identity or policy is invalid."),
            ),
            scope_identity_ok(*self, expected_ref@) && !scope_zone_ok(*self) ==> r == Err::<(), AppError>(
                AppError::InvalidInput("Network scope mixes independent zone or DNS authority."),
            ),
    {
        if String::from_str(expected_ref) != self.scope_ref || self.allowed_verbs.len() == 0
            || self.transports.len() == 0 || self.proxy_mode != NetworkProxyModeV1::DirectOnly {
            return Err(AppError::InvalidInput("Network scope identity or policy is invalid."));
        }
        let mut i: usize = 0;
        while i < self.allowed_verbs.len()
            invariant
                i <= self.allowed_verbs@.len(),
                scope_identity_ok(*self, expected_ref@),
                forall|k: int| 0 <= k < i ==> verb_supported(self.kind, #[trigger] self.allowed_verbs@[k]),
            decreases self.allowed_verbs@.len() - i,
        {
            let v = self.allowed_verbs[i];
            let ok = match self.kind {
                NetworkScopeKindV1::NameResolution => v == NetworkVerbV1::Resolve,
                NetworkScopeKindV1::Loopback | NetworkScopeKindV1::Lan => v == NetworkVerbV1::Connect
                    || v == NetworkVerbV1::Bind,
                NetworkScopeKindV1::Internet => v == NetworkVerbV1::Connect,
            };
            if !ok {
                return Err(AppError::InvalidInput("Network scope mixes independent zone or DNS authority."));
            }
            i = i + 1;
        }
        let resolution = self.kind == NetworkScopeKindV1::NameResolution;
        let pinned = self.dns_mode == NetworkDnsModeV1::SystemPinned;
        if resolution != pinned {
            return Err(AppError::InvalidInput("Network scope mixes independent zone or DNS authority."));
        }
        Ok(())
    }
}

/// One destination: a host, port and transport in exactly one zone until
/// `expires_at`, under the identity `destination_ref` that the Host derives
/// from its descriptor in one run context.
#[derive(Clone, Debug, PartialEq, Eq)]
pub struct NetworkDestinationBindingSpecV1 {
    pub destination_ref: String,
    pub host: NetworkEndpointHostV1,
    pub port: u16,
    pub transport: NetworkTransportV1,
    pub expected_scope: NetworkScopeKindV1,
    pub expires_at: i64,
}

/// A literal host lies exactly in the destination's zone.
pub open spec fn literal_zone_ok(d: NetworkDestinationBindingSpecV1) -> bool {
    match d.host {
        NetworkEndpointHostV1::Literal(a) => address_zone(a) == Some(d.expected_scope),
        NetworkEndpointHostV1::Hostname(_) => true,
    }
}

pub open spec fn destination_ok(d: NetworkDestinationBindingSpecV1, expected_ref: Seq<char>) -> bool {
    &&& endpoint_host_ok(d.host)
    &&& d.expected_scope != NetworkScopeKindV1::NameResolution
    &&& literal_zone_ok(d)
    &&& d.destination_ref@ == expected_ref
}

/// Why destination `d` is refused under the identity `expected_ref`, in
/// the order the checks are made.
pub open spec fn destination_error(d: NetworkDestinationBindingSpecV1, expected_ref: Seq<char>) -> Option<
    &'static str,
> {
    if !endpoint_host_ok(d.host) {
        Some("Network hostname is not normalized or bounded.")
    } else if d.expected_scope == NetworkScopeKindV1::NameResolution {
        Some("Name resolution is a scope, not a destination zone.")
    } else if d.host is Literal && address_void(canonical_address(d.host->Literal_0)) {
        Some("Unspecified and multicast endpoints are unavailable.")
    } else if d.host is Literal && address_special(canonical_address(d.host->Literal_0)) {
        Some("Broadcast, documentation, and special-use endpoints are unavailable.")
    } else if !literal_zone_ok(d) {
        Some("Literal destination does not match its exact network scope.")
    } else if d.destination_ref@ != expected_ref {
        Some("Network destination identity was substituted.")
    } else {
        None
    }
}

impl NetworkDestinationBindingSpecV1 {
    /// `Ok` exactly for a destination with a normalized host, a real zone
    /// that a literal address lies in, and the identity `expected_ref`.
    pub fn validate_identity(&self, expected_ref: &str) -> (r: AppResult<()>)
        ensures
            r is Ok <==> destination_ok(*self, expected_ref@),
            r == match destination_error(*self, expected_ref@) {
                Some(m) => Err::<(), AppError>(AppError::InvalidInput(m)),
                None => Ok(()),
            },
    {
        validate_endpoint_host(&self.host)?;
        if self.expected_scope == NetworkScopeKindV1::NameResolution {
            return Err(AppError::InvalidInput("Name resolution is a scope, not a destination zone."));
        }
        if let NetworkEndpointHostV1::Literal(address) = &self.host {
            let zone = classify_address(*address)?;
            if zone != self.expected_scope {
                return Err(AppError::InvalidInput("Literal destination does not match its exact network scope."));
            }
        }
        if String::from_str(expected_ref) != self.destination_ref {
            return Err(AppError::InvalidInput("Network destination identity was substituted."));
        }
        Ok(())
    }
}

/// What the broker checks of one network effect request.
#[derive(Clone, Debug, PartialEq, Eq)]
pub struct NetworkEffectV1 {
    pub verb: NetworkVerbV1,
    pub resolution_generation_ref: Option<String>,
    pub request_digest: Option<String>,
}

/// A verb aligned with its scope and destination: resolution of a hostname
/// through a pinned name-resolution scope; a connection inside the
/// destination's zone to a literal or to a pinned resolution; a bind of a
/// loopback or LAN literal.
pub open spec fn effect_aligned(
    scope: NetworkScopeBindingSpecV1,
    destination: NetworkDestinationBindingSpecV1,
    effect: NetworkEffectV1,
) -> bool {
    let literal = destination.host is Literal;
    match effect.verb {
        NetworkVerbV1::Resolve => {
            &&& scope.kind == NetworkScopeKindV1::NameResolution
            &&& scope.dns_mode == NetworkDnsModeV1::SystemPinned
            &&& !literal
            &&& effect.resolution_generation_ref is None
            &&& effect.request_digest is None
        },
        NetworkVerbV1::Connect => {
            &&& scope.kind == destination.expected_scope
            &&& scope.kind != NetworkScopeKindV1::NameResolution
            &&& (literal || effect.resolution_generation_ref is Some)
        },
        NetworkVerbV1::Bind => {
            &&& (scope.kind == NetworkScopeKindV1::Loopback || scope.kind == NetworkScopeKindV1::Lan)
            &&& scope.kind == destination.expected_scope
            &&& literal
            &&& effect.resolution_generation_ref is None
            &&& effect.request_digest is None
        },
    }
}

/// `Ok` exactly when the effect's verb is aligned with the scope and the
/// destination, each checked on its own.
pub fn validate_scope_for_effect(
    scope: &NetworkScopeBindingSpecV1,
    destination: &NetworkDestinationBindingSpecV1,
    effect: &NetworkEffectV1,
) -> (r: AppResult<()>)
    ensures
        r is Ok <==> effect_aligned(*scope, *destination, *effect),
        r is Err ==> r == Err::<(), AppError>(
            AppError::InvalidInput("Network verb, DNS, and destination scope are not independently aligned."),
        ),
{
    let literal = match &destination.host {
        NetworkEndpointHostV1::Literal(_) => true,
        NetworkEndpointHostV1::Hostname(_) => false,
    };
    let valid = match effect.verb {
        NetworkVerbV1::Resolve => scope.kind == NetworkScopeKindV1::NameResolution && scope.dns_mode
            == NetworkDnsModeV1::SystemPinned && !literal && effect.resolution_generation_ref.is_none()
            && effect.request_digest.is_none(),
        NetworkVerbV1::Connect => scope.kind == destination.expected_scope && scope.kind
            != NetworkScopeKindV1::NameResolution && (literal || effect.resolution_generation_ref.is_some()),
        NetworkVerbV1::Bind => (scope.kind == NetworkScopeKindV1::Loopback || scope.kind
            == NetworkScopeKindV1::Lan) && scope.kind == destination.expected_scope && literal
            && effect.resolution_generation_ref.is_none() && effect.request_digest.is_none(),
    };
    if !valid {
        return Err(
            AppError::InvalidInput("Network verb, DNS, and destination scope are not independently aligned."),
        );
    }
    Ok(())
}

/// The budget slice one brokered request asks for.
#[derive(Clone, Copy, Debug, PartialEq, Eq)]
pub struct NetworkBudgetSliceV1 {
    pub requests: u64,
    pub network_time_millis: u64,
    pub network_resolutions: u64,
    pub network_connections: u64,
    pub network_binds: u64,
    pub network_requests: u64,
    pub network_bytes: u64,
}

/// Request bytes staged for one connection, with the most response bytes
/// it may read.
#[derive(Clone, Debug, PartialEq, Eq)]
pub struct StagedNetworkExchangeV1 {
    pub request_bytes: Vec<u8>,
    pub max_response_bytes: u64,
}

/// One request with time to run, spending exactly one unit of the verb's
/// own kind: a resolution, a connection (with one request and enough bytes
/// for a staged exchange, if any), or a bind; no exchange but for a
/// connection.
pub open spec fn budget_shape_ok(
    verb: NetworkVerbV1,
    b: NetworkBudgetSliceV1,
    exchange: Option<StagedNetworkExchangeV1>,
) -> bool {
    &&& b.requests == 1
    &&& b.network_time_millis != 0
    &&& match verb {
        NetworkVerbV1::Resolve => b.network_resolutions == 1 && b.network_connections == 0
            && b.network_binds == 0 && b.network_requests == 0 && b.network_bytes == 0
            && exchange is None,
        NetworkVerbV1::Connect => {
            let (requests, bytes) = match exchange {
                Some(e) => (1int, e.request_bytes@.len() + e.max_response_bytes),
                None => (0int, 0int),
            };
            b.network_resolutions == 0 && b.network_connections == 1 && b.network_binds == 0
                && b.network_requests == requests && b.network_bytes >= bytes
        },
        NetworkVerbV1::Bind => b.network_resolutions == 0 && b.network_connections == 0
            && b.network_binds == 1 && b.network_requests == 0 && b.network_bytes == 0
            && exchange is None,
    }
}

/// `Ok` exactly for a budget slice of the exact shape of verb `verb`.
pub fn validate_network_budget_shape(
    verb: NetworkVerbV1,
    budget: &NetworkBudgetSliceV1,
    exchange: Option<&StagedNetworkExchangeV1>,
) -> (r: AppResult<()>)
    requires
        exchange matches Some(e) ==> e.request_bytes@.len() + e.max_response_bytes <= u64::MAX,
    ensures
        r is Ok <==> budget_shape_ok(
            verb,
            *budget,
            match exchange {
                Some(e) => Some(*e),
                None => None,
            },
        ),
        !(budget.requests == 1 && budget.network_time_millis != 0) ==> r == Err::<(), AppError>(
            AppError::InvalidInput("Network effect requires one request and a non-zero time budget."),
        ),
        budget.requests == 1 && budget.network_time_millis != 0 && r is Err ==> r == Err::<(), AppError>(
            AppError::InvalidInput("Network budget slice is inconsistent with the exact broker verb."),
        ),
{
    if budget.requests != 1 || budget.network_time_millis == 0 {
        return Err(AppError::InvalidInput("Network effect requires one request and a non-zero time budget."));
    }
    let valid = match verb {
        NetworkVerbV1::Resolve => budget.network_resolutions == 1 && budget.network_connections == 0
            && budget.network_binds == 0 && budget.network_requests == 0 && budget.network_bytes == 0
            && exchange.is_none(),
        NetworkVerbV1::Connect => {
            let (requests, bytes): (u64, u64) = match exchange {
                Some(e) => (1, e.request_bytes.len() as u64 + e.max_response_bytes),
                None => (0, 0),
            };
            budget.network_resolutions == 0 && budget.network_connections == 1 && budget.network_binds
                == 0 && budget.network_requests == requests && budget.network_bytes >= bytes
        },
        NetworkVerbV1::Bind => budget.network_resolutions == 0 && budget.network_connections == 0
            && budget.network_binds == 1 && budget.network_requests == 0 && budget.network_bytes == 0
            && exchange.is_none(),
    };
    if !valid {
        return Err(AppError::InvalidInput("Network budget slice is inconsistent with the exact broker verb."));
    }
    Ok(())
}

/// A resolved socket address. IPv4 addresses carry no flow information or
/// scope (both zero).
#[derive(Clone, Copy, Debug, PartialEq, Eq, Hash)]
pub struct SocketAddressV1 {
    pub ip: IpAddressV1,
    pub port: u16,
    pub flowinfo: u32,
    pub scope_id: u32,
}

/// The sort key of a socket address: family (IPv4 first), the address's
/// octets or segments, port, flow information and scope, compared
/// lexicographically (the order of std's `SocketAddr`).
pub open spec fn address_key(a: SocketAddressV1) -> Seq<u32> {
    match a.ip {
        IpAddressV1::V4(o) => seq![
            0u32,
            o[0] as u32,
            o[1] as u32,
            o[2] as u32,
            o[3] as u32,
            0u32,
            0u32,
            0u32,
            0u32,
            a.port as u32,
            a.flowinfo,
            a.scope_id,
        ],
        IpAddressV1::V6(s) => seq![
            1u32,
            s[0] as u32,
            s[1] as u32,
            s[2] as u32,
            s[3] as u32,
            s[4] as u32,
            s[5] as u32,
            s[6] as u32,
            s[7] as u32,
            a.port as u32,
            a.flowinfo,
            a.scope_id,
        ],
    }
}

/// Lexicographic order of equally long keys, from position `i` on.
pub open spec fn key_lt_from(a: Seq<u32>, b: Seq<u32>, i: nat) -> bool
    decreases a.len() - i,
{
    if i >= a.len() {
        false
    } else if a[i as int] < b[i as int] {
        true
    } else if a[i as int] > b[i as int] {
        false
    } else {
        key_lt_from(a, b, i + 1)
    }
}

pub open spec fn address_lt(a: SocketAddressV1, b: SocketAddressV1) -> bool {
    key_lt_from(address_key(a), address_key(b), 0)
}

proof fn lemma_key_trichotomy(a: Seq<u32>, b: Seq<u32>, i: nat)
    requires
        a.len() == b.len(),
        i <= a.len(),
    ensures
        key_lt_from(a, b, i) || key_lt_from(b, a, i) || a.subrange(i as int, a.len() as int)
            =~= b.subrange(i as int, b.len() as int),
        !(key_lt_from(a, b, i) && key_lt_from(b, a, i)),
    decreases a.len() - i,
{
    if i < a.len() {
        lemma_key_trichotomy(a, b, i + 1);
        if a[i as int] == b[i as int] && !key_lt_from(a, b, i + 1) && !key_lt_from(b, a, i + 1) {
            assert(a.subrange(i as int, a.len() as int) =~= seq![a[i as int]] + a.subrange(
                (i + 1) as int,
                a.len() as int,
            ));
            assert(b.subrange(i as int, b.len() as int) =~= seq![b[i as int]] + b.subrange(
                (i + 1) as int,
                b.len() as int,
            ));
        }
    }
}

/// Two addresses are either ordered one way or the other, or have the same key.
proof fn lemma_address_trichotomy(a: SocketAddressV1, b: SocketAddressV1)
    ensures
        address_lt(a, b) || address_lt(b, a) || address_key(a) == address_key(b),
        !(address_lt(a, b) && address_lt(b, a)),
{
    lemma_key_trichotomy(address_key(a), address_key(b), 0);
    assert(address_key(a).subrange(0, 12) =~= address_key(a));
    assert(address_key(b).subrange(0, 12) =~= address_key(b));
}

fn key_of(a: &SocketAddressV1) -> (k: Vec<u32>)
    ensures
        k@ == address_key(*a),
{
    let k = match a.ip {
        IpAddressV1::V4(o) => vec![
            0u32,
            o[0] as u32,
            o[1] as u32,
            o[2] as u32,
            o[3] as u32,
            0u32,
            0u32,
            0u32,
            0u32,
            a.port as u32,
            a.flowinfo,
            a.scope_id,
        ],
        IpAddressV1::V6(s) => vec![
            1u32,
            s[0] as u32,
            s[1] as u32,
            s[2] as u32,
            s[3] as u32,
            s[4] as u32,
            s[5] as u32,
            s[6] as u32,
            s[7] as u32,
            a.port as u32,
            a.flowinfo,
            a.scope_id,
        ],
    };
    assert(k@ =~= address_key(*a));
    k
}

/// Whether `a` and `b` are the same socket address (the same sort key).
pub fn same_address(a: &SocketAddressV1, b: &SocketAddressV1) -> (r: bool)
    ensures
        r == (address_key(*a) == address_key(*b)),
{
    let ka = key_of(a);
    let kb = key_of(b);
    let mut i: usize = 0;
    while i < 12
        invariant
            ka@ == address_key(*a),
            kb@ == address_key(*b),
            ka@.len() == 12 && kb@.len() == 12,
            i <= 12,
            forall|j: int| 0 <= j < i ==> ka@[j] == kb@[j],
        decreases 12 - i,
    {
        if ka[i] != kb[i] {
            return false;
        }
        i = i + 1;
    }
    assert(ka@ =~= kb@);
    true
}

/// Whether `a` sorts before `b`.
fn sorts_before(a: &SocketAddressV1, b: &SocketAddressV1) -> (r: bool)
    ensures
        r == address_lt(*a, *b),
{
    let ka = key_of(a);
    let kb = key_of(b);
    let mut i: usize = 0;
    while i < 12
        invariant
            i <= 12,
            ka@ == address_key(*a),
            kb@ == address_key(*b),
            ka@.len() == 12 && kb@.len() == 12,
            key_lt_from(ka@, kb@, 0) == key_lt_from(ka@, kb@, i as nat),
        decreases 12 - i,
    {
        if ka[i] < kb[i] {
            return true;
        }
        if ka[i] > kb[i] {
            return false;
        }
        i = i + 1;
    }
    false
}

/// `s` is in strictly increasing order.
pub open spec fn addresses_sorted(s: Seq<SocketAddressV1>) -> bool {
    forall|j: int| 0 <= j < s.len() - 1 ==> #[trigger] address_lt(s[j], s[j + 1])
}

/// Some element of `s` has the key of `a`.
pub open spec fn has_key_of(s: Seq<SocketAddressV1>, a: SocketAddressV1) -> bool {
    exists|j: int| 0 <= j < s.len() && address_key(#[trigger] s[j]) == address_key(a)
}

/// The resolver's answer is usable: it holds an address on `port`, and
/// every address on `port` lies in zone `expected`.
pub open spec fn resolution_ok(addresses: Seq<SocketAddressV1>, expected: NetworkScopeKindV1, port: u16) -> bool {
    &&& exists|i: int| 0 <= i < addresses.len() && (#[trigger] addresses[i]).port == port
    &&& forall|i: int|
        0 <= i < addresses.len() && (#[trigger] addresses[i]).port == port ==> address_zone(addresses[i].ip)
            == Some(expected)
}

/// The addresses on `port`, sorted and without duplicates, when every one
/// of them lies in zone `expected` and there is one at all.
pub fn validate_resolved_addresses(
    addresses: Vec<SocketAddressV1>,
    expected: NetworkScopeKindV1,
    port: u16,
) -> (r: AppResult<Vec<SocketAddressV1>>)
    ensures
        r is Ok <==> resolution_ok(addresses@, expected, port),
        r is Err ==> r == Err::<Vec<SocketAddressV1>, AppError>(
            AppError::InvalidInput("Resolved destination crossed or mixed network scopes."),
        ),
        r matches Ok(v) ==> {
            &&& addresses_sorted(v@)
            &&& forall|j: int| 0 <= j < v@.len() ==> (#[trigger] v@[j]).port == port && addresses@.contains(v@[j])
            &&& forall|i: int|
                0 <= i < addresses@.len() && (#[trigger] addresses@[i]).port == port ==> has_key_of(v@, addresses@[i])
        },
{
    let mut out: Vec<SocketAddressV1> = Vec::new();
    let mut i: usize = 0;
    while i < addresses.len()
        invariant
            i <= addresses@.len(),
            addresses_sorted(out@),
            forall|j: int| 0 <= j < out@.len() ==> (#[trigger] out@[j]).port == port && addresses@.contains(out@[j]),
            forall|k: int| 0 <= k < i && (#[trigger] addresses@[k]).port == port ==> has_key_of(out@, addresses@[k]),
            forall|k: int|
                0 <= k < i && (#[trigger] addresses@[k]).port == port ==> address_zone(addresses@[k].ip) == Some(expected),
            (exists|k: int| 0 <= k < i && (#[trigger] addresses@[k]).port == port) <==> out@.len() > 0,
        decreases addresses@.len() - i,
    {
        let x = addresses[i];
        if x.port == port {
            match classify_address(x.ip) {
                Ok(zone) => {
                    if zone != expected {
                        return Err(AppError::InvalidInput("Resolved destination crossed or mixed network scopes."));
                    }
                },
                Err(_) => {
                    return Err(AppError::InvalidInput("Resolved destination crossed or mixed network scopes."));
                },
            }
            let mut p: usize = 0;
            while p < out.len() && sorts_before(&out[p], &x)
                invariant
                    p <= out@.len(),
                    forall|k: int| 0 <= k < p ==> address_lt(#[trigger] out@[k], x),
                decreases out@.len() - p,
            {
                p = p + 1;
            }
            let present = p < out.len() && !sorts_before(&x, &out[p]);
            if present {
                proof {
                    lemma_address_trichotomy(x, out@[p as int]);
                    assert(address_key(out@[p as int]) == address_key(x));
                }
            } else {
                let ghost old_out = out@;
                proof {
                    if p < old_out.len() {
                        lemma_address_trichotomy(x, old_out[p as int]);
                    }
                }
                out.insert(p, x);
                proof {
                    assert(out@ == old_out.insert(p as int, x));
                    assert forall|j: int| 0 <= j < out@.len() - 1 implies #[trigger] address_lt(out@[j], out@[j + 1]) by {
                        if j < p - 1 {
                            assert(out@[j] == old_out[j] && out@[j + 1] == old_out[j + 1]);
                            assert(address_lt(old_out[j], old_out[j + 1]));
                        } else if j == p - 1 {
                            assert(out@[j] == old_out[j]);
                            assert(out@[j + 1] == x);
                            assert(address_lt(old_out[j], x));
                        } else if j == p {
                            assert(out@[j] == x);
                            assert(out@[j + 1] == old_out[j]);
                            assert(address_lt(x, old_out[p as int]));
                        } else {
                            assert(out@[j] == old_out[j - 1] && out@[j + 1] == old_out[j]);
                            assert(address_lt(old_out[j - 1], old_out[(j - 1) + 1]));
                        }
                    }
                    assert forall|k: int| 0 <= k < i && (#[trigger] addresses@[k]).port == port implies has_key_of(out@, addresses@[k]) by {
                        let w = choose|w: int| 0 <= w < old_out.len() && address_key(#[trigger] old_out[w]) == address_key(addresses@[k]);
                        if w < p {
                            assert(out@[w] == old_out[w]);
                        } else {
                            assert(out@[w + 1] == old_out[w]);
                        }
                    }
                    assert forall|j: int| 0 <= j < out@.len() implies (#[trigger] out@[j]).port == port && addresses@.contains(out@[j]) by {
                        if j < p {
                            assert(out@[j] == old_out[j]);
                        } else if j == p {
                            assert(addresses@[i as int] == x);
                        } else {
                            assert(out@[j] == old_out[j - 1]);
                        }
                    }
                }
            }
            proof {
                assert(has_key_of(out@, addresses@[i as int])) by {
                    assert(address_key(out@[p as int]) == address_key(x));
                }
            }
        }
        i = i + 1;
    }
    if out.len() == 0 {
        return Err(AppError::InvalidInput("Resolved destination crossed or mixed network scopes."));
    }
    Ok(out)
}

/// An IPv4 address lies in the LAN zone exactly when it is private
/// (`10.0.0.0/8`, `172.16.0.0/12`, `192.168.0.0/16`) or link-local
/// (`169.254.0.0/16`); it lies in the loopback zone exactly when it is in
/// `127.0.0.0/8`.
pub proof fn lemma_v4_zone_ranges(o: [u8; 4])
    ensures
        address_zone(IpAddressV1::V4(o)) == Some(NetworkScopeKindV1::Lan) <==> (o[0] == 10 || (o[0] == 172
            && 16 <= o[1] && o[1] <= 31) || (o[0] == 192 && o[1] == 168) || (o[0] == 169 && o[1] == 254)),
        address_zone(IpAddressV1::V4(o)) == Some(NetworkScopeKindV1::Loopback) <==> o[0] == 127,
{
}

/// An IPv4-mapped IPv6 address lies in the zone of the IPv4 address it carries.
pub proof fn lemma_mapped_zone(s: [u16; 8])
    requires
        s[0] == 0 && s[1] == 0 && s[2] == 0 && s[3] == 0 && s[4] == 0 && s[5] == 0xffff,
    ensures
        address_zone(IpAddressV1::V6(s)) == address_zone(IpAddressV1::V4(mapped_octets(s))),
{
}

/// The zone of every IPv4 address: refused for `0.0.0.0/8`, `100.64.0.0/10`,
/// `192.0.0.0/24`, `192.0.2.0/24`, `198.18.0.0/15`, `198.51.100.0/24`,
/// `203.0.113.0/24` and everything from `224.0.0.0` up (multicast, reserved
/// and broadcast); loopback for `127.0.0.0/8`; LAN for the private and
/// link-local ranges; the Internet for every other address.
pub proof fn lemma_v4_zones(o: [u8; 4])
    ensures
        address_zone(IpAddressV1::V4(o)) is None <==> (o[0] == 0 || o[0] >= 224 || (o[0] == 100 && 64 <= o[1]
            && o[1] <= 127) || (o[0] == 192 && o[1] == 0 && (o[2] == 0 || o[2] == 2)) || (o[0] == 198 && (o[1]
            == 18 || o[1] == 19)) || (o[0] == 198 && o[1] == 51 && o[2] == 100) || (o[0] == 203 && o[1] == 0
            && o[2] == 113)),
        address_zone(IpAddressV1::V4(o)) == Some(NetworkScopeKindV1::Internet) <==> !(o[0] == 0 || o[0] >= 224
            || (o[0] == 100 && 64 <= o[1] && o[1] <= 127) || (o[0] == 192 && o[1] == 0 && (o[2] == 0 || o[2]
            == 2)) || (o[0] == 198 && (o[1] == 18 || o[1] == 19)) || (o[0] == 198 && o[1] == 51 && o[2] == 100)
            || (o[0] == 203 && o[1] == 0 && o[2] == 113) || o[0] == 127 || o[0] == 10 || (o[0] == 172 && 16
            <= o[1] && o[1] <= 31) || (o[0] == 192 && o[1] == 168) || (o[0] == 169 && o[1] == 254)),
{
}

/// The zone of an IPv6 address that does not carry an IPv4 one: refused
/// for `::`, `ff00::/8`, `2001:db8::/32` and `fec0::/10`; loopback for
/// `::1`; LAN for `fc00::/7` and `fe80::/10`; the Internet otherwise.
pub proof fn lemma_v6_zones(s: [u16; 8])
    requires
        !(s[0] == 0 && s[1] == 0 && s[2] == 0 && s[3] == 0 && s[4] == 0 && s[5] == 0xffff),
    ensures
        address_zone(IpAddressV1::V6(s)) is None <==> ((s[0] == 0 && s[1] == 0 && s[2] == 0 && s[3] == 0
            && s[4] == 0 && s[5] == 0 && s[6] == 0 && s[7] == 0) || s[0] >= 0xff00 || (s[0] == 0x2001 && s[1]
            == 0x0db8) || (0xfec0 <= s[0] && s[0] <= 0xfeff)),
        address_zone(IpAddressV1::V6(s)) == Some(NetworkScopeKindV1::Loopback) <==> (s[0] == 0 && s[1] == 0
            && s[2] == 0 && s[3] == 0 && s[4] == 0 && s[5] == 0 && s[6] == 0 && s[7] == 1),
        address_zone(IpAddressV1::V6(s)) == Some(NetworkScopeKindV1::Lan) <==> ((0xfc00 <= s[0] && s[0]
            <= 0xfdff) || (0xfe80 <= s[0] && s[0] <= 0xfebf)),
{
    if s[0] == 0 && s[1] == 0 && s[2] == 0 && s[3] == 0 && s[4] == 0 && s[5] == 0 && s[6] == 0 && s[7] == 0 {
        assert(v6_unspecified(s));
    }
    if v6_unspecified(s) {
        assert(s[0] == 0 && s[1] == 0 && s[2] == 0 && s[3] == 0 && s[4] == 0 && s[5] == 0 && s[6] == 0 && s[7] == 0);
    }
    if s[0] == 0 && s[1] == 0 && s[2] == 0 && s[3] == 0 && s[4] == 0 && s[5] == 0 && s[6] == 0 && s[7] == 1 {
        assert(v6_loopback(s));
    }
    if v6_loopback(s) {
        assert(s[0] == 0 && s[1] == 0 && s[2] == 0 && s[3] == 0 && s[4] == 0 && s[5] == 0 && s[6] == 0);
    }
}

} // verus!
