//! BLAKE3 hashing, the one cryptographic primitive the library relies on.
use vstd::prelude::*;

verus! {

/// The BLAKE3 hash (32 bytes) of a byte string, as computed by `blake3::hash`.
pub uninterp spec fn blake3_digest(input: Seq<u8>) -> Seq<u8>;

/// A lowercase hexadecimal digit for a value below 16.
pub open spec fn hex_digit(n: int) -> char {
    if n < 10 {
        (48 + n) as char
    } else {
        (87 + n) as char
    }
}

/// Two lowercase hexadecimal digits per byte, most significant first.
pub open spec fn lower_hex(bytes: Seq<u8>) -> Seq<char>
    decreases bytes.len(),
{
    if bytes.len() == 0 {
        Seq::empty()
    } else {
        seq![hex_digit(bytes[0] as int / 16), hex_digit(bytes[0] as int % 16)] + lower_hex(bytes.drop_first())
    }
}

/// Calls `blake3::hash`. Claims that the result is the 32-byte BLAKE3 hash of
/// the input, a function of the input alone.
#[verifier::external_body]
pub(crate) fn blake3_hash(input: &[u8]) -> (r: Vec<u8>)
    ensures
        r@ == blake3_digest(input@),
        r@.len() == 32,
{
    blake3::hash(input).as_bytes().to_vec()
}

/// Calls `blake3::hash` and `Hash::to_hex`. Claims that the result is the
/// lowercase hexadecimal encoding of the BLAKE3 hash of the input, which is
/// what `to_hex` is documented to produce.
#[verifier::external_body]
pub(crate) fn blake3_hex(input: &[u8]) -> (r: String)
    ensures
        r@ == lower_hex(blake3_digest(input@)),
{
    blake3::hash(input).to_hex().to_string()
}

} // verus!
