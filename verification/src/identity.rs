//! Host, runtime and session identities.
use vstd::prelude::*;

use crate::error::{require, AppError, AppResult};
use crate::hashing::{blake3_digest, blake3_hex, lower_hex};
use crate::text::{is_token, starts_with_bytes, token_ok, utf8};
use crate::values::{TokenV1, MAX_TOKEN};

verus! {

/// The bytes of `host:v1:`.
pub open spec fn host_prefix() -> Seq<u8> {
    seq![104u8, 111u8, 115u8, 116u8, 58u8, 118u8, 49u8, 58u8]
}

/// The bytes of `pastey-host-ref-v1` and a zero byte.
pub open spec fn host_domain() -> Seq<u8> {
    seq![
        112u8, 97u8, 115u8, 116u8, 101u8, 121u8, 45u8, 104u8, 111u8, 115u8, 116u8, 45u8, 114u8,
        101u8, 102u8, 45u8, 118u8, 49u8, 0u8,
    ]
}

/// A well-formed Host reference: `host:v1:` and 64 lowercase hex digits.
pub open spec fn host_ref_ok(b: Seq<u8>) -> bool {
    &&& b.len() == 72
    &&& b.subrange(0, 8) == host_prefix()
    &&& forall|i: int| 8 <= i < 72 ==> #[trigger] crate::values::is_lower_hex(b[i])
}

/// A logical Host identity. It names a Host; it is not a credential.
#[derive(Clone, Debug, PartialEq, Eq, PartialOrd, Ord, Hash)]
pub struct HostRef {
    value: String,
}

impl View for HostRef {
    type V = Seq<char>;

    closed spec fn view(&self) -> Seq<char> {
        self.value@
    }
}

fn host_prefix_exec() -> (r: Vec<u8>)
    ensures
        r@ == host_prefix(),
{
    let r: Vec<u8> = vec![104u8, 111u8, 115u8, 116u8, 58u8, 118u8, 49u8, 58u8];
    assert(r@ =~= host_prefix());
    r
}

impl HostRef {
    /// Accepts exactly the well-formed references.
    pub fn parse(value: String) -> (r: AppResult<HostRef>)
        ensures
            r is Ok <==> host_ref_ok(utf8(value@)),
            r matches Ok(h) ==> h@ == value@,
    {
        let vs = value.as_str();
        let b = vs.as_bytes();
        assert(b@ == utf8(value@)) by {
            assert(b@ == vstd::string::StringSliceAdditionalSpecFns::spec_bytes(vs));
        }
        let prefix = host_prefix_exec();
        if b.len() != 72 || !starts_with_bytes(b, prefix.as_slice()) {
            return Err(AppError::InvalidInput("Invalid Host reference"));
        }
        let mut i: usize = 8;
        while i < 72
            invariant
                8 <= i <= 72,
                b@.len() == 72,
                b@ == utf8(value@),
                forall|j: int| 8 <= j < i ==> #[trigger] crate::values::is_lower_hex(b@[j]),
            decreases 72 - i,
        {
            let c = b[i];
            if !((48 <= c && c <= 57) || (97 <= c && c <= 102)) {
                assert(!crate::values::is_lower_hex(b@[i as int]));
                return Err(AppError::InvalidInput("Invalid Host reference"));
            }
            i = i + 1;
        }
        Ok(HostRef { value })
    }

    /// The Host reference of a device identifier: `host:v1:` and the hex
    /// BLAKE3 hash of the domain separator and the identifier.
    pub fn from_device_id(device_id: &str) -> (r: AppResult<HostRef>)
        ensures
            r is Ok <==> token_ok(utf8(device_id@), MAX_TOKEN as int),
            r matches Ok(h) ==> utf8(h@) == host_prefix() + utf8(
                lower_hex(blake3_digest(host_domain() + utf8(device_id@))),
            ),
    {
        if !is_token(device_id, MAX_TOKEN) {
            return Err(AppError::InvalidInput("Invalid device identifier"));
        }
        let d = device_id.as_bytes();
        assert(d@ == utf8(device_id@)) by {
            assert(d@ == vstd::string::StringSliceAdditionalSpecFns::spec_bytes(device_id));
        }
        let mut input: Vec<u8> = vec![
            112u8, 97u8, 115u8, 116u8, 101u8, 121u8, 45u8, 104u8, 111u8, 115u8, 116u8, 45u8, 114u8,
            101u8, 102u8, 45u8, 118u8, 49u8, 0u8,
        ];
        assert(input@ =~= host_domain());
        let mut i: usize = 0;
        while i < d.len()
            invariant
                i <= d.len(),
                input@ == host_domain() + d@.subrange(0, i as int),
            decreases d.len() - i,
        {
            input.push(d[i]);
            i = i + 1;
        }
        assert(d@.subrange(0, d@.len() as int) =~= d@);
        let hex = blake3_hex(input.as_slice());
        let prefix = String::from_str("host:v1:");
        let value = prefix.concat(hex.as_str());
        proof {
            reveal_strlit("host:v1:");
            lemma_hex_ascii(blake3_digest(input@));
            vstd::utf8::is_ascii_chars_encode_utf8(value@);
            vstd::utf8::is_ascii_chars_encode_utf8(lower_hex(blake3_digest(input@)));
            assert(utf8(value@) =~= host_prefix() + utf8(lower_hex(blake3_digest(input@))));
        }
        Ok(HostRef { value })
    }

    pub fn as_str(&self) -> (r: &str)
        ensures
            r@ == self@,
    {
        self.value.as_str()
    }

    pub fn duplicate(&self) -> (r: HostRef)
        ensures
            r@ == self@,
    {
        HostRef { value: self.value.clone() }
    }

    pub fn same(&self, other: &HostRef) -> (r: bool)
        ensures
            r == (self@ == other@),
    {
        self.value == other.value
    }
}

/// Hex text is ASCII.
pub proof fn lemma_hex_ascii(b: Seq<u8>)
    ensures
        vstd::utf8::is_ascii_chars(lower_hex(b)),
        lower_hex(b).len() == 2 * b.len(),
    decreases b.len(),
{
    if b.len() > 0 {
        lemma_hex_ascii(b.drop_first());
        let h = lower_hex(b);
        let head = seq![
            crate::hashing::hex_digit(b[0] as int / 16),
            crate::hashing::hex_digit(b[0] as int % 16),
        ];
        assert(h == head + lower_hex(b.drop_first()));
        assert forall|i: int| 0 <= i < h.len() implies '\0' <= #[trigger] h[i] <= '\u{7f}' by {
            if i >= 2 {
                assert(h[i] == lower_hex(b.drop_first())[i - 2]);
            }
        }
    }
}

/// A hyphen stands at these positions of a hyphenated UUID.
pub open spec fn uuid_hyphen_at(i: int) -> bool {
    i == 8 || i == 13 || i == 18 || i == 23
}

/// A lowercase hexadecimal digit.
pub open spec fn lower_hex_char(c: char) -> bool {
    ('0' <= c && c <= '9') || ('a' <= c && c <= 'f')
}

/// The lowercase hyphenated form of a UUID: 36 characters, hyphens at
/// positions 8, 13, 18 and 23 and lowercase hexadecimal digits elsewhere.
pub open spec fn uuid_hyphenated_lower(t: Seq<char>) -> bool {
    &&& t.len() == 36
    &&& forall|i: int|
        0 <= i < 36 ==> if uuid_hyphen_at(i) {
            #[trigger] t[i] == '-'
        } else {
            lower_hex_char(t[i])
        }
}

/// Calls `uuid::Uuid::new_v4` and formats it with `Display`, which writes
/// the lowercase hyphenated form. Claims only that shape (and what follows
/// from it); the value is random.
#[verifier::external_body]
pub(crate) fn random_uuid_text() -> (r: String)
    ensures
        uuid_hyphenated_lower(r@),
        r@.len() == 36,
        vstd::utf8::is_ascii_chars(r@),
        token_ok(utf8(r@), 36),
{
    uuid::Uuid::new_v4().to_string()
}

/// One process lifetime of the local runtime. A fresh value never equals an
/// earlier one, so a proof minted for an old runtime fails against a new one.
#[derive(Clone, Debug, PartialEq, Eq)]
pub struct LocalRuntimeRef {
    host: HostRef,
    generation: TokenV1,
}

impl LocalRuntimeRef {
    pub closed spec fn spec_host(self) -> HostRef {
        self.host
    }

    pub closed spec fn spec_generation(self) -> Seq<char> {
        self.generation@
    }

    /// A new runtime generation for `host`.
    pub fn fresh(host: HostRef) -> (r: LocalRuntimeRef)
        ensures
            r.spec_host()@ == host@,
    {
        let text = random_uuid_text();
        let generation = match TokenV1::new(text) {
            Ok(t) => t,
            Err(_) => {
                assert(false);
                return LocalRuntimeRef { host, generation: TokenV1::new(String::new()).unwrap() };
            },
        };
        LocalRuntimeRef { host, generation }
    }

    /// The same runtime generation.
    pub fn duplicate(&self) -> (r: LocalRuntimeRef)
        ensures
            r.spec_host()@ == self.spec_host()@,
            r.spec_generation() == self.spec_generation(),
    {
        LocalRuntimeRef { host: self.host.duplicate(), generation: self.generation.duplicate() }
    }

    pub fn host_ref(&self) -> (r: &HostRef)
        ensures
            r@ == self.spec_host()@,
    {
        &self.host
    }

    pub fn generation_ref(&self) -> (r: &str)
        ensures
            r@ == self.spec_generation(),
    {
        self.generation.as_str()
    }

    /// `Ok` exactly when `current` is this very runtime generation on the same Host.
    pub fn validate_current(&self, current: &LocalRuntimeRef) -> (r: AppResult<()>)
        ensures
            r is Ok <==> (self.spec_host()@ == current.spec_host()@ && self.spec_generation()
                == current.spec_generation()),
    {
        require(
            self.host.same(&current.host) && self.generation.same(&current.generation),
            "Stale local runtime",
        )
    }
}

/// An authenticated Host-to-Host session, as the transport reports it.
#[derive(Clone, Debug, PartialEq, Eq)]
pub struct HostSessionBinding {
    pub bridge_id: String,
    pub local_host_ref: HostRef,
    pub peer_host_ref: HostRef,
    pub local_session_id: String,
    pub peer_session_id: String,
    pub peer_route_ref: String,
    pub expires_at: i64,
}

/// Equality of every field.
pub open spec fn same_session(a: HostSessionBinding, b: HostSessionBinding) -> bool {
    &&& a.bridge_id@ == b.bridge_id@
    &&& a.local_host_ref@ == b.local_host_ref@
    &&& a.peer_host_ref@ == b.peer_host_ref@
    &&& a.local_session_id@ == b.local_session_id@
    &&& a.peer_session_id@ == b.peer_session_id@
    &&& a.peer_route_ref@ == b.peer_route_ref@
    &&& a.expires_at == b.expires_at
}

impl HostSessionBinding {
    /// Refuses empty identifiers and a non-positive expiry.
    pub fn new(
        bridge_id: &str,
        local_host_ref: HostRef,
        peer_host_ref: HostRef,
        local_session_id: &str,
        peer_session_id: &str,
        peer_route_ref: &str,
        expires_at: i64,
    ) -> (r: AppResult<HostSessionBinding>)
        ensures
            r is Ok <==> (bridge_id@.len() > 0 && local_session_id@.len() > 0
                && peer_session_id@.len() > 0 && peer_route_ref@.len() > 0 && expires_at > 0),
            r matches Ok(b) ==> {
                &&& b.bridge_id@ == bridge_id@
                &&& b.local_host_ref@ == local_host_ref@
                &&& b.peer_host_ref@ == peer_host_ref@
                &&& b.local_session_id@ == local_session_id@
                &&& b.peer_session_id@ == peer_session_id@
                &&& b.peer_route_ref@ == peer_route_ref@
                &&& b.expires_at == expires_at
            },
    {
        if bridge_id.is_empty() || local_session_id.is_empty() || peer_session_id.is_empty()
            || peer_route_ref.is_empty() || expires_at <= 0 {
            return Err(AppError::InvalidInput("Invalid Host session binding"));
        }
        Ok(HostSessionBinding {
            bridge_id: bridge_id.to_owned(),
            local_host_ref,
            peer_host_ref,
            local_session_id: local_session_id.to_owned(),
            peer_session_id: peer_session_id.to_owned(),
            peer_route_ref: peer_route_ref.to_owned(),
            expires_at,
        })
    }

    /// Field-by-field equality.
    pub fn same(&self, other: &HostSessionBinding) -> (r: bool)
        ensures
            r == same_session(*self, *other),
    {
        self.bridge_id == other.bridge_id && self.local_host_ref.same(&other.local_host_ref)
            && self.peer_host_ref.same(&other.peer_host_ref) && self.local_session_id
            == other.local_session_id && self.peer_session_id == other.peer_session_id
            && self.peer_route_ref == other.peer_route_ref && self.expires_at == other.expires_at
    }
}

} // verus!
