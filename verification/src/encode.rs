//! The canonical byte encoding under which claims are digested.
//!
//! Integers are 8 bytes big-endian; text and byte strings are their length
//! followed by their bytes; options and enums start with a tag byte; lists
//! start with their length. Two different values of one type never share an
//! encoding, so a digest binds every field of a claim.
use vstd::prelude::*;

use crate::text::utf8;
use crate::values::{
    DigestV1, EvidenceClassV1, Finite, LabelV1, NonNegative, PositiveMicros,
    SessionEnforcementClassV1, TokenV1, UnixMillis,
};

verus! {

pub open spec fn enc_u64(v: u64) -> Seq<u8> {
    seq![
        ((v / 0x100000000000000) % 256) as u8,
        ((v / 0x1000000000000) % 256) as u8,
        ((v / 0x10000000000) % 256) as u8,
        ((v / 0x100000000) % 256) as u8,
        ((v / 0x1000000) % 256) as u8,
        ((v / 0x10000) % 256) as u8,
        ((v / 0x100) % 256) as u8,
        (v % 256) as u8,
    ]
}

pub open spec fn enc_bytes(b: Seq<u8>) -> Seq<u8> {
    enc_u64(b.len() as u64) + b
}

pub open spec fn enc_text(s: Seq<char>) -> Seq<u8> {
    enc_bytes(utf8(s))
}

pub open spec fn enc_token(t: TokenV1) -> Seq<u8> {
    enc_text(t@)
}

pub open spec fn enc_label(l: LabelV1) -> Seq<u8> {
    enc_text(l@)
}

pub open spec fn enc_digest(d: DigestV1) -> Seq<u8> {
    enc_bytes(d@)
}

pub open spec fn enc_evidence(e: EvidenceClassV1) -> Seq<u8> {
    match e {
        EvidenceClassV1::Simulation => seq![0u8],
        EvidenceClassV1::Hardware => seq![1u8],
    }
}

pub open spec fn enc_enforcement(e: SessionEnforcementClassV1) -> Seq<u8> {
    match e {
        SessionEnforcementClassV1::AdapterIsolationOnly => seq![0u8],
        SessionEnforcementClassV1::NativeFence => seq![1u8],
    }
}

pub open spec fn enc_option_token(t: Option<TokenV1>) -> Seq<u8> {
    match t {
        None => seq![0u8],
        Some(t) => seq![1u8] + enc_token(t),
    }
}

/// The encoding of each token in turn, without a count.
pub open spec fn enc_token_items(s: Seq<TokenV1>) -> Seq<u8>
    decreases s.len(),
{
    if s.len() == 0 {
        Seq::empty()
    } else {
        enc_token_items(s.drop_last()) + enc_token(s.last())
    }
}

pub open spec fn enc_token_list(s: Seq<TokenV1>) -> Seq<u8> {
    enc_u64(s.len() as u64) + enc_token_items(s)
}

pub fn put_u64(buf: &mut Vec<u8>, v: u64)
    ensures
        final(buf)@ == old(buf)@ + enc_u64(v),
{
    buf.push(((v / 0x100000000000000) % 256) as u8);
    buf.push(((v / 0x1000000000000) % 256) as u8);
    buf.push(((v / 0x10000000000) % 256) as u8);
    buf.push(((v / 0x100000000) % 256) as u8);
    buf.push(((v / 0x1000000) % 256) as u8);
    buf.push(((v / 0x10000) % 256) as u8);
    buf.push(((v / 0x100) % 256) as u8);
    buf.push((v % 256) as u8);
    assert(buf@ =~= old(buf)@ + enc_u64(v));
}

pub fn put_bytes(buf: &mut Vec<u8>, b: &[u8])
    ensures
        final(buf)@ == old(buf)@ + enc_bytes(b@),
{
    put_u64(buf, b.len() as u64);
    let ghost start = buf@;
    let mut i: usize = 0;
    while i < b.len()
        invariant
            i <= b.len(),
            buf@ == start + b@.subrange(0, i as int),
        decreases b.len() - i,
    {
        buf.push(b[i]);
        assert(b@.subrange(0, i + 1) =~= b@.subrange(0, i as int).push(b@[i as int]));
        i = i + 1;
    }
    assert(b@.subrange(0, b@.len() as int) =~= b@);
    assert(buf@ =~= old(buf)@ + enc_bytes(b@));
}

pub fn put_text(buf: &mut Vec<u8>, s: &str)
    ensures
        final(buf)@ == old(buf)@ + enc_text(s@),
{
    let b = s.as_bytes();
    assert(b@ == utf8(s@)) by {
        assert(b@ == vstd::string::StringSliceAdditionalSpecFns::spec_bytes(s));
    }
    put_bytes(buf, b);
}

pub fn put_token(buf: &mut Vec<u8>, t: &TokenV1)
    ensures
        final(buf)@ == old(buf)@ + enc_token(*t),
{
    put_text(buf, t.as_str());
}

pub fn put_label(buf: &mut Vec<u8>, l: &LabelV1)
    ensures
        final(buf)@ == old(buf)@ + enc_label(*l),
{
    put_text(buf, l.as_str());
}

pub fn put_digest(buf: &mut Vec<u8>, d: &DigestV1)
    ensures
        final(buf)@ == old(buf)@ + enc_digest(*d),
{
    put_bytes(buf, d.bytes());
}

pub fn put_tag(buf: &mut Vec<u8>, t: u8)
    ensures
        final(buf)@ == old(buf)@ + seq![t],
{
    buf.push(t);
    assert(buf@ =~= old(buf)@ + seq![t]);
}

pub fn put_evidence(buf: &mut Vec<u8>, e: EvidenceClassV1)
    ensures
        final(buf)@ == old(buf)@ + enc_evidence(e),
{
    match e {
        EvidenceClassV1::Simulation => put_tag(buf, 0),
        EvidenceClassV1::Hardware => put_tag(buf, 1),
    }
}

pub fn put_enforcement(buf: &mut Vec<u8>, e: SessionEnforcementClassV1)
    ensures
        final(buf)@ == old(buf)@ + enc_enforcement(e),
{
    match e {
        SessionEnforcementClassV1::AdapterIsolationOnly => put_tag(buf, 0),
        SessionEnforcementClassV1::NativeFence => put_tag(buf, 1),
    }
}

pub fn put_option_token(buf: &mut Vec<u8>, t: &Option<TokenV1>)
    ensures
        final(buf)@ == old(buf)@ + enc_option_token(*t),
{
    match t {
        None => put_tag(buf, 0),
        Some(t) => {
            put_tag(buf, 1);
            put_token(buf, t);
            assert(buf@ =~= old(buf)@ + enc_option_token(Some(*t)));
        },
    }
}

pub fn put_token_list(buf: &mut Vec<u8>, s: &Vec<TokenV1>)
    ensures
        final(buf)@ == old(buf)@ + enc_token_list(s@),
{
    put_u64(buf, s.len() as u64);
    let ghost start = buf@;
    let mut i: usize = 0;
    while i < s.len()
        invariant
            i <= s.len(),
            buf@ == start + enc_token_items(s@.subrange(0, i as int)),
        decreases s.len() - i,
    {
        put_token(buf, &s[i]);
        assert(s@.subrange(0, i + 1).drop_last() =~= s@.subrange(0, i as int));
        i = i + 1;
    }
    assert(s@.subrange(0, s@.len() as int) =~= s@);
    assert(buf@ =~= old(buf)@ + enc_token_list(s@));
}

pub fn put_millis(buf: &mut Vec<u8>, m: &UnixMillis)
    ensures
        final(buf)@ == old(buf)@ + enc_u64(m.spec_get()),
{
    put_u64(buf, m.get());
}

pub fn put_micros(buf: &mut Vec<u8>, m: &PositiveMicros)
    ensures
        final(buf)@ == old(buf)@ + enc_u64(m.spec_get()),
{
    put_u64(buf, m.get());
}

pub fn put_nonneg(buf: &mut Vec<u8>, v: &NonNegative)
    ensures
        final(buf)@ == old(buf)@ + enc_u64(v.spec_bits()),
{
    put_u64(buf, v.bits());
}

pub fn put_finite(buf: &mut Vec<u8>, v: &Finite)
    ensures
        final(buf)@ == old(buf)@ + enc_u64(v.spec_bits()),
{
    put_u64(buf, v.bits());
}

} // verus!
