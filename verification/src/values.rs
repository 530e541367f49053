//! Checked scalar, reference and digest values shared by every claim.
//!
//! Each value can only be built through a checking constructor. Physical
//! quantities are IEEE-754 doubles held by their bit pattern: the library
//! compares and bounds them but never does floating-point arithmetic.
use vstd::prelude::*;

use crate::error::{AppError, AppResult};
use crate::hashing::{blake3_digest, blake3_hash};
use crate::text::{bytes_eq, bytes_lt, is_token, seq_lt, token_ok, utf8};

verus! {

/// 2^63: the sign bit of a double.
pub const SIGN_BIT: u64 = 0x8000_0000_0000_0000u64;

/// Bit pattern of +infinity; every finite magnitude lies below it.
pub const INFINITY_BITS: u64 = 0x7ff0_0000_0000_0000u64;

/// The bits of a double without its sign: the bits of its absolute value.
pub open spec fn magnitude_bits(bits: u64) -> u64 {
    (bits % SIGN_BIT) as u64
}

/// A double is finite when its exponent is not all ones.
pub open spec fn finite_bits(bits: u64) -> bool {
    magnitude_bits(bits) < INFINITY_BITS
}

/// The canonical bits of a non-negative finite double, if `bits` is one.
/// `-0.0` is read as `+0.0`, which it equals.
pub open spec fn non_negative_bits(bits: u64) -> Option<u64> {
    if bits < INFINITY_BITS {
        Some(bits)
    } else if bits == SIGN_BIT {
        Some(0u64)
    } else {
        None
    }
}

/// The canonical bits of a finite double, if `bits` is one. `-0.0` is read
/// as `+0.0`, which it equals.
pub open spec fn finite_canonical_bits(bits: u64) -> Option<u64> {
    if !finite_bits(bits) {
        None
    } else if bits == SIGN_BIT {
        Some(0u64)
    } else {
        Some(bits)
    }
}

/// A finite double (velocity components may be negative).
#[derive(Clone, Copy, Debug, PartialEq, Eq)]
pub struct Finite {
    bits: u64,
}

impl Finite {
    #[verifier::type_invariant]
    spec fn inv(self) -> bool {
        finite_bits(self.bits) && self.bits != SIGN_BIT
    }

    pub closed spec fn spec_bits(self) -> u64 {
        self.bits
    }

    /// Accepts exactly the finite doubles (with `-0.0` as `0.0`).
    pub fn from_bits(bits: u64) -> (r: AppResult<Finite>)
        ensures
            r is Ok <==> finite_bits(bits),
            r matches Ok(v) ==> Some(v.spec_bits()) == finite_canonical_bits(bits),
    {
        if bits == SIGN_BIT {
            Ok(Finite { bits: 0 })
        } else if bits % SIGN_BIT < INFINITY_BITS {
            Ok(Finite { bits })
        } else {
            Err(AppError::InvalidInput("Value must be a finite number"))
        }
    }

    pub fn bits(&self) -> (b: u64)
        ensures
            b == self.spec_bits(),
            finite_bits(b),
    {
        proof {
            use_type_invariant(self);
        }
        self.bits
    }

    /// Bits of the absolute value, a non-negative finite double.
    pub fn abs_bits(&self) -> (b: u64)
        ensures
            b == magnitude_bits(self.spec_bits()),
            b < INFINITY_BITS,
    {
        proof {
            use_type_invariant(self);
        }
        self.bits % SIGN_BIT
    }

}

/// A non-negative finite double. For such values numeric order is the order
/// of their bit patterns, so bounds and minimums are exact on the bits.
#[derive(Clone, Copy, Debug, PartialEq, Eq)]
pub struct NonNegative {
    bits: u64,
}

impl NonNegative {
    #[verifier::type_invariant]
    spec fn inv(self) -> bool {
        self.bits < INFINITY_BITS
    }

    pub closed spec fn spec_bits(self) -> u64 {
        self.bits
    }

    /// Accepts exactly the non-negative finite doubles (with `-0.0` as `0.0`).
    pub fn from_bits(bits: u64) -> (r: AppResult<NonNegative>)
        ensures
            r is Ok <==> non_negative_bits(bits) is Some,
            r matches Ok(v) ==> Some(v.spec_bits()) == non_negative_bits(bits),
    {
        if bits < INFINITY_BITS {
            Ok(NonNegative { bits })
        } else if bits == SIGN_BIT {
            Ok(NonNegative { bits: 0 })
        } else {
            Err(AppError::InvalidInput("Value must be a non-negative finite number"))
        }
    }

    pub fn bits(&self) -> (b: u64)
        ensures
            b == self.spec_bits(),
            b < INFINITY_BITS,
    {
        proof {
            use_type_invariant(self);
        }
        self.bits
    }

    /// The smaller of two values.
    pub fn min(&self, other: &NonNegative) -> (r: NonNegative)
        ensures
            r.spec_bits() == if self.spec_bits() <= other.spec_bits() {
                self.spec_bits()
            } else {
                other.spec_bits()
            },
    {
        proof {
            use_type_invariant(self);
            use_type_invariant(other);
        }
        if self.bits <= other.bits {
            NonNegative { bits: self.bits }
        } else {
            NonNegative { bits: other.bits }
        }
    }

}

/// A strictly positive number of microseconds.
#[derive(Clone, Copy, Debug, PartialEq, Eq)]
pub struct PositiveMicros {
    value: u64,
}

impl PositiveMicros {
    #[verifier::type_invariant]
    spec fn inv(self) -> bool {
        self.value > 0
    }

    pub closed spec fn spec_get(self) -> u64 {
        self.value
    }

    /// Accepts exactly the positive counts.
    pub fn new(value: u64) -> (r: AppResult<PositiveMicros>)
        ensures
            r is Ok <==> value > 0,
            r matches Ok(v) ==> v.spec_get() == value,
    {
        if value > 0 {
            Ok(PositiveMicros { value })
        } else {
            Err(AppError::InvalidInput("Duration must be positive"))
        }
    }

    pub fn get(&self) -> (v: u64)
        ensures
            v == self.spec_get(),
            v > 0,
    {
        proof {
            use_type_invariant(self);
        }
        self.value
    }

    pub fn min(&self, other: &PositiveMicros) -> (r: PositiveMicros)
        ensures
            r.spec_get() == if self.spec_get() <= other.spec_get() {
                self.spec_get()
            } else {
                other.spec_get()
            },
    {
        proof {
            use_type_invariant(self);
            use_type_invariant(other);
        }
        if self.value <= other.value {
            PositiveMicros { value: self.value }
        } else {
            PositiveMicros { value: other.value }
        }
    }

}

/// Milliseconds since the Unix epoch, representable as a signed 64-bit value.
#[derive(Clone, Copy, Debug, PartialEq, Eq)]
pub struct UnixMillis {
    value: u64,
}

/// The largest signed 64-bit value.
pub const MAX_MILLIS: u64 = 0x7fff_ffff_ffff_ffffu64;

impl UnixMillis {
    #[verifier::type_invariant]
    spec fn inv(self) -> bool {
        self.value <= MAX_MILLIS
    }

    pub closed spec fn spec_get(self) -> u64 {
        self.value
    }

    pub fn new(value: u64) -> (r: AppResult<UnixMillis>)
        ensures
            r is Ok <==> value <= MAX_MILLIS,
            r matches Ok(v) ==> v.spec_get() == value,
    {
        if value <= MAX_MILLIS {
            Ok(UnixMillis { value })
        } else {
            Err(AppError::InvalidInput("Time is out of range"))
        }
    }

    pub fn get(&self) -> (v: u64)
        ensures
            v == self.spec_get(),
            v <= MAX_MILLIS,
    {
        proof {
            use_type_invariant(self);
        }
        self.value
    }

}


/// A short label (subsystem name, principal, frame): 1 to 64 token bytes.
#[derive(Clone, Debug, PartialEq, Eq, PartialOrd, Ord, Hash)]
pub struct LabelV1 {
    value: String,
}

/// Longest label, in bytes.
pub const MAX_LABEL: usize = 64;

impl View for LabelV1 {
    type V = Seq<char>;

    closed spec fn view(&self) -> Seq<char> {
        self.value@
    }
}

impl LabelV1 {
    /// Accepts exactly the 1..=64-byte tokens.
    pub fn new(value: String) -> (r: AppResult<LabelV1>)
        ensures
            r is Ok <==> token_ok(utf8(value@), MAX_LABEL as int),
            r matches Ok(l) ==> l@ == value@,
    {
        if is_token(value.as_str(), MAX_LABEL) {
            Ok(LabelV1 { value })
        } else {
            Err(AppError::InvalidInput("Invalid label"))
        }
    }

    pub fn as_str(&self) -> (r: &str)
        ensures
            r@ == self@,
    {
        self.value.as_str()
    }

    pub fn duplicate(&self) -> (r: LabelV1)
        ensures
            r@ == self@,
    {
        LabelV1 { value: self.value.clone() }
    }

    pub fn same(&self, other: &LabelV1) -> (r: bool)
        ensures
            r == (self@ == other@),
    {
        self.value == other.value
    }

    /// The order of the underlying strings.
    pub fn precedes(&self, other: &LabelV1) -> (r: bool)
        ensures
            r == seq_lt(utf8(self@), utf8(other@)),
    {
        bytes_lt(self.value.as_str().as_bytes(), other.value.as_str().as_bytes())
    }
}

/// An opaque identifier (review, approval, root, environment, body, domain,
/// ...): 1 to 128 token bytes. It proves nothing by itself.
#[derive(Clone, Debug, PartialEq, Eq, PartialOrd, Ord, Hash)]
pub struct TokenV1 {
    value: String,
}

/// Longest identifier, in bytes.
pub const MAX_TOKEN: usize = 128;

impl View for TokenV1 {
    type V = Seq<char>;

    closed spec fn view(&self) -> Seq<char> {
        self.value@
    }
}

impl TokenV1 {
    /// Accepts exactly the 1..=128-byte tokens.
    pub fn new(value: String) -> (r: AppResult<TokenV1>)
        ensures
            r is Ok <==> token_ok(utf8(value@), MAX_TOKEN as int),
            r matches Ok(t) ==> t@ == value@,
    {
        if is_token(value.as_str(), MAX_TOKEN) {
            Ok(TokenV1 { value })
        } else {
            Err(AppError::InvalidInput("Invalid identifier"))
        }
    }

    pub fn as_str(&self) -> (r: &str)
        ensures
            r@ == self@,
    {
        self.value.as_str()
    }

    pub fn duplicate(&self) -> (r: TokenV1)
        ensures
            r@ == self@,
    {
        TokenV1 { value: self.value.clone() }
    }

    pub fn same(&self, other: &TokenV1) -> (r: bool)
        ensures
            r == (self@ == other@),
    {
        self.value == other.value
    }

    /// The order of the underlying strings.
    pub fn precedes(&self, other: &TokenV1) -> (r: bool)
        ensures
            r == seq_lt(utf8(self@), utf8(other@)),
    {
        bytes_lt(self.value.as_str().as_bytes(), other.value.as_str().as_bytes())
    }
}

pub type EnvironmentRefV1 = TokenV1;

pub type BodyRefV1 = TokenV1;

pub type IncarnationId = TokenV1;

pub type BindingOfferId = TokenV1;

pub type DomainId = TokenV1;

pub type QualificationId = TokenV1;

pub type ReviewId = TokenV1;

pub type ApprovalId = TokenV1;

pub type RootId = TokenV1;

pub type AttemptId = TokenV1;

pub type ActionId = TokenV1;

pub type ChallengeId = TokenV1;

pub type ObservationId = TokenV1;

/// Value of a lowercase hexadecimal digit byte.
pub open spec fn hex_value(b: u8) -> int {
    if 48 <= b <= 57 {
        b - 48
    } else {
        b - 87
    }
}

pub open spec fn is_lower_hex(b: u8) -> bool {
    (48 <= b <= 57) || (97 <= b <= 102)
}

/// The bytes written by `2 * n` lowercase hexadecimal digits.
pub open spec fn decode_hex(s: Seq<u8>) -> Seq<u8> {
    Seq::new((s.len() / 2) as nat, |i: int| (hex_value(s[2 * i]) * 16 + hex_value(s[2 * i + 1])) as u8)
}

/// A 32-byte content digest.
#[derive(Clone, Debug, PartialEq, Eq, PartialOrd, Ord, Hash)]
pub struct DigestV1 {
    bytes: Vec<u8>,
}

impl View for DigestV1 {
    type V = Seq<u8>;

    closed spec fn view(&self) -> Seq<u8> {
        self.bytes@
    }
}

fn hex_value_exec(b: u8) -> (r: u8)
    requires
        is_lower_hex(b),
    ensures
        r == hex_value(b),
        r < 16,
{
    if b <= 57 {
        b - 48
    } else {
        b - 87
    }
}

impl DigestV1 {
    /// Parses exactly 64 lowercase hexadecimal digits.
    pub fn from_hex(s: &str) -> (r: AppResult<DigestV1>)
        ensures
            r is Ok <==> (utf8(s@).len() == 64 && forall|i: int|
                0 <= i < 64 ==> #[trigger] is_lower_hex(utf8(s@)[i])),
            r matches Ok(d) ==> d@ == decode_hex(utf8(s@)),
    {
        let b = s.as_bytes();
        assert(b@ == utf8(s@)) by {
            assert(b@ == vstd::string::StringSliceAdditionalSpecFns::spec_bytes(s));
        }
        if b.len() != 64 {
            return Err(AppError::InvalidInput("Invalid digest"));
        }
        let mut out: Vec<u8> = Vec::new();
        let mut i: usize = 0;
        while i < 32
            invariant
                i <= 32,
                b@.len() == 64,
                b@ == utf8(s@),
                forall|j: int| 0 <= j < 2 * i ==> #[trigger] is_lower_hex(b@[j]),
                out@.len() == i,
                forall|j: int|
                    0 <= j < i ==> #[trigger] out@[j] == (hex_value(b@[2 * j]) * 16 + hex_value(
                        b@[2 * j + 1],
                    )) as u8,
            decreases 32 - i,
        {
            let hi = b[2 * i];
            let lo = b[2 * i + 1];
            let hi_ok = (48 <= hi && hi <= 57) || (97 <= hi && hi <= 102);
            let lo_ok = (48 <= lo && lo <= 57) || (97 <= lo && lo <= 102);
            if !hi_ok || !lo_ok {
                proof {
                    if !hi_ok {
                        assert(!is_lower_hex(utf8(s@)[2 * i]));
                    } else {
                        assert(!is_lower_hex(utf8(s@)[2 * i + 1]));
                    }
                }
                return Err(AppError::InvalidInput("Invalid digest"));
            }
            let v = hex_value_exec(hi) * 16 + hex_value_exec(lo);
            out.push(v);
            i = i + 1;
        }
        assert(out@ =~= decode_hex(utf8(s@)));
        Ok(DigestV1 { bytes: out })
    }

    /// The digest of `encoded` under a domain separator: the BLAKE3 hash of
    /// the domain bytes, a zero byte, then the encoding.
    pub fn of(domain: &[u8], encoded: &[u8]) -> (r: DigestV1)
        ensures
            r@ == blake3_digest(domain@ + seq![0u8] + encoded@),
    {
        let mut input: Vec<u8> = Vec::new();
        let mut i: usize = 0;
        while i < domain.len()
            invariant
                i <= domain.len(),
                input@ == domain@.subrange(0, i as int),
            decreases domain.len() - i,
        {
            input.push(domain[i]);
            i = i + 1;
        }
        input.push(0u8);
        let mut j: usize = 0;
        while j < encoded.len()
            invariant
                j <= encoded.len(),
                input@ == domain@ + seq![0u8] + encoded@.subrange(0, j as int),
            decreases encoded.len() - j,
        {
            input.push(encoded[j]);
            j = j + 1;
        }
        assert(domain@.subrange(0, domain@.len() as int) =~= domain@);
        assert(encoded@.subrange(0, encoded@.len() as int) =~= encoded@);
        DigestV1 { bytes: blake3_hash(input.as_slice()) }
    }

    pub fn bytes(&self) -> (r: &[u8])
        ensures
            r@ == self@,
    {
        self.bytes.as_slice()
    }

    pub fn duplicate(&self) -> (r: DigestV1)
        ensures
            r@ == self@,
    {
        DigestV1 { bytes: self.bytes.clone() }
    }

    pub fn same(&self, other: &DigestV1) -> (r: bool)
        ensures
            r == (self@ == other@),
    {
        bytes_eq(self.bytes.as_slice(), other.bytes.as_slice())
    }
}

/// The protocol version of every claim. It carries no data.
#[derive(Clone, Copy, Debug, PartialEq, Eq)]
pub struct VersionV1;

/// Whether evidence comes from simulation or from hardware.
#[derive(Clone, Copy, Debug, PartialEq, Eq)]
pub enum EvidenceClassV1 {
    Simulation,
    Hardware,
}

/// How strongly a control session is isolated: adapter isolation only, or a
/// native fence (strictly stronger).
#[derive(Clone, Copy, Debug, PartialEq, Eq)]
pub enum SessionEnforcementClassV1 {
    AdapterIsolationOnly,
    NativeFence,
}

/// Strength rank of an enforcement class.
pub open spec fn enforcement_rank(c: SessionEnforcementClassV1) -> int {
    match c {
        SessionEnforcementClassV1::AdapterIsolationOnly => 0,
        SessionEnforcementClassV1::NativeFence => 1,
    }
}

impl SessionEnforcementClassV1 {
    /// Whether this class is at least as strong as `required`.
    pub fn meets(self, required: SessionEnforcementClassV1) -> (r: bool)
        ensures
            r == (enforcement_rank(self) >= enforcement_rank(required)),
    {
        match (self, required) {
            (SessionEnforcementClassV1::AdapterIsolationOnly, SessionEnforcementClassV1::NativeFence) => false,
            _ => true,
        }
    }
}

pub fn evidence_eq(a: EvidenceClassV1, b: EvidenceClassV1) -> (r: bool)
    ensures
        r == (a == b),
{
    match (a, b) {
        (EvidenceClassV1::Simulation, EvidenceClassV1::Simulation) => true,
        (EvidenceClassV1::Hardware, EvidenceClassV1::Hardware) => true,
        _ => false,
    }
}

pub fn enforcement_eq(a: SessionEnforcementClassV1, b: SessionEnforcementClassV1) -> (r: bool)
    ensures
        r == (a == b),
{
    match (a, b) {
        (SessionEnforcementClassV1::AdapterIsolationOnly, SessionEnforcementClassV1::AdapterIsolationOnly) => true,
        (SessionEnforcementClassV1::NativeFence, SessionEnforcementClassV1::NativeFence) => true,
        _ => false,
    }
}

} // verus!
