//! Canonical JSON: a JSON value whose object members are kept in strictly
//! ascending key order, and its compact encoding (no insignificant
//! whitespace, strings escaped as serde_json escapes them). Completion
//! references commit to exactly these bytes.
use vstd::prelude::*;

use crate::error::{AppError, AppResult};
use crate::natural_v2::{append_bytes, as_bytes};
use crate::network_broker::{decimal, put_decimal};
use crate::text::{seq_lt, utf8};

verus! {

/// A JSON value with integer numbers.
#[derive(Debug)]
pub enum JsonValueV1 {
    Null,
    Bool(bool),
    Int(i64),
    UInt(u64),
    Text(String),
    Array(Vec<JsonValueV1>),
    Object(Vec<JsonMemberV1>),
}

/// One member of a JSON object.
#[derive(Debug)]
pub struct JsonMemberV1 {
    pub key: String,
    pub value: JsonValueV1,
}

pub open spec fn hex_digit(n: u8) -> u8 {
    if n < 10 {
        (48 + n) as u8
    } else {
        (87 + n) as u8
    }
}

/// How one byte of a string's UTF-8 text is written inside quotes: quote,
/// backslash and control bytes escaped, every other byte as it is.
pub open spec fn escape_byte(b: u8) -> Seq<u8> {
    if b == 34 {
        seq![92u8, 34u8]
    } else if b == 92 {
        seq![92u8, 92u8]
    } else if b == 8 {
        seq![92u8, 98u8]
    } else if b == 9 {
        seq![92u8, 116u8]
    } else if b == 10 {
        seq![92u8, 110u8]
    } else if b == 12 {
        seq![92u8, 102u8]
    } else if b == 13 {
        seq![92u8, 114u8]
    } else if b < 32 {
        seq![92u8, 117u8, 48u8, 48u8, hex_digit(b / 16), hex_digit(b % 16)]
    } else {
        seq![b]
    }
}

pub open spec fn escape_bytes(s: Seq<u8>) -> Seq<u8>
    decreases s.len(),
{
    if s.len() == 0 {
        Seq::empty()
    } else {
        escape_bytes(s.drop_last()) + escape_byte(s.last())
    }
}

/// A JSON string literal of `s`.
pub open spec fn json_string(s: Seq<char>) -> Seq<u8> {
    seq![34u8] + escape_bytes(utf8(s)) + seq![34u8]
}

/// The decimal text of a signed integer.
pub open spec fn signed_decimal(n: i64) -> Seq<u8> {
    if n < 0 {
        seq![45u8] + decimal((-(n as int)) as nat)
    } else {
        decimal(n as nat)
    }
}

/// The compact encoding of `v`.
pub open spec fn encode_json(v: JsonValueV1) -> Seq<u8>
    decreases v, 1int,
{
    match v {
        JsonValueV1::Null => seq![110u8, 117u8, 108u8, 108u8],
        JsonValueV1::Bool(b) => if b {
            seq![116u8, 114u8, 117u8, 101u8]
        } else {
            seq![102u8, 97u8, 108u8, 115u8, 101u8]
        },
        JsonValueV1::Int(n) => signed_decimal(n),
        JsonValueV1::UInt(n) => decimal(n as nat),
        JsonValueV1::Text(s) => json_string(s@),
        JsonValueV1::Array(items) => seq![91u8] + encode_items(items@) + seq![93u8],
        JsonValueV1::Object(members) => seq![123u8] + encode_members(members@) + seq![125u8],
    }
}

/// The items, separated by commas.
pub open spec fn encode_items(items: Seq<JsonValueV1>) -> Seq<u8>
    decreases items, 0int,
{
    if items.len() == 0 {
        Seq::empty()
    } else if items.len() == 1 {
        encode_json(items[0])
    } else {
        encode_items(items.drop_last()) + seq![44u8] + encode_json(items.last())
    }
}

/// The members as `"key":value`, separated by commas.
pub open spec fn encode_members(members: Seq<JsonMemberV1>) -> Seq<u8>
    decreases members, 0int,
{
    if members.len() == 0 {
        Seq::empty()
    } else if members.len() == 1 {
        json_string(members[0].key@) + seq![58u8] + encode_json(members[0].value)
    } else {
        encode_members(members.drop_last()) + seq![44u8] + json_string(members.last().key@) + seq![58u8]
            + encode_json(members.last().value)
    }
}

/// Calls `serde_json::to_vec` on a string. Claims that the result is the
/// string's JSON literal as `format_escaped_str` writes it: quote,
/// backslash and the control bytes escaped (the short forms `\b`, `\t`,
/// `\n`, `\f`, `\r` where they exist, else `\u00` and two lowercase hex
/// digits), every other byte as it is, between quotes. Writing a string
/// into a vector cannot fail, so the error arm is never taken.
#[verifier::external_body]
fn json_string_bytes(s: &str) -> (r: Vec<u8>)
    ensures
        r@ == json_string(s@),
{
    match serde_json::to_vec(s) {
        Ok(bytes) => bytes,
        Err(_) => Vec::new(),
    }
}

/// Appends the JSON string literal of `s`.
pub fn put_json_string(buf: &mut Vec<u8>, s: &str)
    ensures
        final(buf)@ == old(buf)@ + json_string(s@),
{
    let lit = json_string_bytes(s);
    append_bytes(buf, lit.as_slice());
}

pub fn put_signed(buf: &mut Vec<u8>, n: i64)
    ensures
        final(buf)@ == old(buf)@ + signed_decimal(n),
{
    if n < 0 {
        let ghost start = buf@;
        buf.push(45u8);
        let m: u64 = if n == i64::MIN { 9223372036854775808u64 } else { (-n) as u64 };
        put_decimal(buf, m);
        assert(buf@ =~= start + signed_decimal(n));
    } else {
        put_decimal(buf, n as u64);
    }
}

/// Appends the compact encoding of `v`.
pub fn put_json(buf: &mut Vec<u8>, v: &JsonValueV1)
    ensures
        final(buf)@ == old(buf)@ + encode_json(*v),
    decreases v,
{
    let ghost start = buf@;
    match v {
        JsonValueV1::Null => {
            append_bytes(buf, as_bytes("null"));
            proof {
                reveal_strlit("null");
                vstd::utf8::is_ascii_chars_encode_utf8("null"@);
            }
            assert(buf@ =~= start + encode_json(*v));
        },
        JsonValueV1::Bool(b) => {
            if *b {
                append_bytes(buf, as_bytes("true"));
                proof {
                    reveal_strlit("true");
                    vstd::utf8::is_ascii_chars_encode_utf8("true"@);
                }
            } else {
                append_bytes(buf, as_bytes("false"));
                proof {
                    reveal_strlit("false");
                    vstd::utf8::is_ascii_chars_encode_utf8("false"@);
                }
            }
            assert(buf@ =~= start + encode_json(*v));
        },
        JsonValueV1::Int(n) => {
            put_signed(buf, *n);
        },
        JsonValueV1::UInt(n) => {
            put_decimal(buf, *n);
        },
        JsonValueV1::Text(s) => {
            put_json_string(buf, s.as_str());
        },
        JsonValueV1::Array(items) => {
            buf.push(91u8);
            let mut i: usize = 0;
            while i < items.len()
                invariant
                    i <= items@.len(),
                    *v == JsonValueV1::Array(*items),
                    buf@ == start + seq![91u8] + encode_items(items@.take(i as int)),
                decreases items@.len() - i,
            {
                let ghost before = buf@;
                if i > 0 {
                    buf.push(44u8);
                }
                proof {
                    assert(decreases_to!(*v => (*v)->Array_0));
                    assert((*v)->Array_0 == *items);
                    assert(decreases_to!(*items => items@));
                    assert(decreases_to!(items@ => items@[i as int]));
                    assert(decreases_to!(*v => items@[i as int]));
                }
                put_json(buf, &items[i]);
                proof {
                    let t = items@.take(i + 1);
                    assert(t.drop_last() =~= items@.take(i as int));
                    assert(t.last() == items@[i as int]);
                    if i == 0 {
                        assert(t.len() == 1);
                        assert(t[0] == items@[0]);
                    }
                }
                assert(buf@ =~= start + seq![91u8] + encode_items(items@.take(i + 1)));
                i = i + 1;
            }
            assert(items@.take(items@.len() as int) =~= items@);
            buf.push(93u8);
            assert(buf@ =~= start + encode_json(*v));
        },
        JsonValueV1::Object(members) => {
            buf.push(123u8);
            let mut i: usize = 0;
            while i < members.len()
                invariant
                    i <= members@.len(),
                    *v == JsonValueV1::Object(*members),
                    buf@ == start + seq![123u8] + encode_members(members@.take(i as int)),
                decreases members@.len() - i,
            {
                if i > 0 {
                    buf.push(44u8);
                }
                put_json_string(buf, members[i].key.as_str());
                buf.push(58u8);
                proof {
                    assert(decreases_to!(*v => (*v)->Object_0));
                    assert((*v)->Object_0 == *members);
                    assert(decreases_to!(*members => members@));
                    assert(decreases_to!(members@ => members@[i as int]));
                    assert(decreases_to!(members@[i as int] => members@[i as int].value));
                    assert(decreases_to!(*v => members@[i as int].value));
                }
                put_json(buf, &members[i].value);
                proof {
                    let t = members@.take(i + 1);
                    assert(t.drop_last() =~= members@.take(i as int));
                    assert(t.last() == members@[i as int]);
                    if i == 0 {
                        assert(t.len() == 1);
                        assert(t[0] == members@[0]);
                    }
                }
                assert(buf@ =~= start + seq![123u8] + encode_members(members@.take(i + 1)));
                i = i + 1;
            }
            assert(members@.take(members@.len() as int) =~= members@);
            buf.push(125u8);
            assert(buf@ =~= start + encode_json(*v));
        },
    }
}

/// The compact encoding of `v`.
pub fn canonical_bytes(v: &JsonValueV1) -> (r: Vec<u8>)
    ensures
        r@ == encode_json(*v),
{
    let mut buf: Vec<u8> = Vec::new();
    put_json(&mut buf, v);
    assert(buf@ =~= encode_json(*v));
    buf
}

/// Object keys in strictly ascending byte order.
pub open spec fn keys_ascending(ms: Seq<JsonMemberV1>) -> bool {
    forall|k: int| 0 <= k < ms.len() - 1 ==> #[trigger] seq_lt(utf8(ms[k].key@), utf8(ms[k + 1].key@))
}

/// No key appears twice.
pub open spec fn keys_distinct(ms: Seq<JsonMemberV1>) -> bool {
    forall|i: int, j: int| 0 <= i < j < ms.len() ==> #[trigger] ms[i].key@ != #[trigger] ms[j].key@
}

pub open spec fn key_listed(ms: Seq<JsonMemberV1>, key: Seq<char>) -> bool {
    exists|k: int| 0 <= k < ms.len() && (#[trigger] ms[k]).key@ == key
}

fn key_position(ms: &Vec<JsonMemberV1>, key: &String) -> (r: (usize, bool))
    requires
        keys_ascending(ms@),
    ensures
        r.0 <= ms@.len(),
        r.1 <==> key_listed(ms@, key@),
        !r.1 ==> forall|k: int| 0 <= k < r.0 ==> !seq_lt(utf8(key@), utf8(#[trigger] ms@[k].key@)),
        !r.1 && r.0 < ms@.len() ==> seq_lt(utf8(key@), utf8(ms@[r.0 as int].key@)),
{
    let kb = as_bytes(key.as_str());
    let mut found = false;
    let mut i: usize = 0;
    while i < ms.len()
        invariant
            i <= ms@.len(),
            kb@ == utf8(key@),
            found <==> exists|k: int| 0 <= k < i && (#[trigger] ms@[k]).key@ == key@,
        decreases ms@.len() - i,
    {
        if ms[i].key == *key {
            found = true;
        }
        i = i + 1;
    }
    if found {
        return (0, true);
    }
    let mut pos: usize = 0;
    while pos < ms.len() && !crate::text::bytes_lt(kb, as_bytes(ms[pos].key.as_str()))
        invariant
            pos <= ms@.len(),
            kb@ == utf8(key@),
            forall|k: int| 0 <= k < pos ==> !seq_lt(utf8(key@), utf8(#[trigger] ms@[k].key@)),
        decreases ms@.len() - pos,
    {
        pos = pos + 1;
    }
    (pos, false)
}

#[verifier::spinoff_prover]
#[verifier::rlimit(40)]
proof fn lemma_insert_member(before: Seq<JsonMemberV1>, mv: JsonMemberV1, p: int, sk0: Seq<JsonMemberV1>)
    requires
        keys_ascending(before),
        keys_distinct(before),
        0 <= p <= before.len(),
        forall|k: int| 0 <= k < p ==> !seq_lt(utf8(mv.key@), utf8(#[trigger] before[k].key@)),
        p < before.len() ==> seq_lt(utf8(mv.key@), utf8(before[p].key@)),
        !key_listed(before, mv.key@),
        keys_distinct(sk0),
        before.to_multiset() == sk0.to_multiset(),
    ensures
        keys_ascending(before.insert(p, mv)),
        keys_distinct(before.insert(p, mv)),
        keys_distinct(seq![mv] + sk0),
        before.insert(p, mv).to_multiset() == (seq![mv] + sk0).to_multiset(),
{
    let after = before.insert(p, mv);
    let sk = seq![mv] + sk0;
    assert forall|k: int| 0 <= k < after.len() - 1 implies #[trigger] seq_lt(
        utf8(after[k].key@),
        utf8(after[k + 1].key@),
    ) by {
        if k + 1 < p {
            assert(after[k] == before[k] && after[k + 1] == before[k + 1]);
            assert(seq_lt(utf8(before[k].key@), utf8(before[k + 1].key@)));
        } else if k + 1 == p {
            assert(after[k] == before[k]);
            assert(before[k].key@ != mv.key@);
            vstd::utf8::encode_utf8_decode_utf8(before[k].key@);
            vstd::utf8::encode_utf8_decode_utf8(mv.key@);
            crate::text::lemma_seq_lt_total(utf8(before[k].key@), utf8(mv.key@));
        } else if k == p {
            assert(after[k + 1] == before[k]);
        } else {
            let j = k - 1;
            assert(after[k] == before[j] && after[k + 1] == before[j + 1]);
            assert(seq_lt(utf8(before[j].key@), utf8(before[j + 1].key@)));
        }
    }
    assert forall|x: int, y: int| 0 <= x < y < after.len() implies #[trigger] after[x].key@ != #[trigger] after[y].key@ by {
        if x == p {
            assert(after[y] == before[y - 1]);
        } else if y == p {
            assert(after[x] == before[x]);
        } else {
            let bx = if x < p { x } else { x - 1 };
            let by_ = if y < p { y } else { y - 1 };
            assert(after[x] == before[bx] && after[y] == before[by_]);
        }
    }
    assert forall|x: int, y: int| 0 <= x < y < sk.len() implies #[trigger] sk[x].key@ != #[trigger] sk[y].key@ by {
        if x == 0 {
            let e = sk0[y - 1];
            assert(sk[y] == e);
            vstd::seq_lib::to_multiset_contains(sk0, e);
            vstd::seq_lib::to_multiset_contains(before, e);
            let k = choose|k: int| 0 <= k < before.len() && before[k] == e;
            assert(before[k].key@ != mv.key@);
        } else {
            assert(sk[x] == sk0[x - 1] && sk[y] == sk0[y - 1]);
        }
    }
    vstd::seq_lib::to_multiset_insert(before, p, mv);
    assert(after.to_multiset() == before.to_multiset().insert(mv));
    vstd::seq_lib::lemma_seq_union_to_multiset_commutative(seq![mv], sk0);
    assert(sk.to_multiset() =~= (sk0 + seq![mv]).to_multiset());
    assert(sk0 + seq![mv] =~= sk0.push(mv));
    vstd::seq_lib::to_multiset_build(sk0, mv);
    assert(sk0.push(mv).to_multiset() == sk0.to_multiset().insert(mv));
}

impl JsonValueV1 {
    /// An object of `members`, kept in ascending key order. Refused when a
    /// key appears twice.
    pub fn object(members: Vec<JsonMemberV1>) -> (r: AppResult<JsonValueV1>)
        ensures
            r is Ok <==> keys_distinct(members@),
            r is Err ==> r == Err::<JsonValueV1, AppError>(AppError::InvalidInput("Duplicate JSON object key.")),
            r matches Ok(v) ==> v matches JsonValueV1::Object(ms) && keys_ascending(ms@) && ms@.to_multiset()
                == members@.to_multiset(),
    {
        let ghost orig = members@;
        let mut rest = members;
        let mut out: Vec<JsonMemberV1> = Vec::new();
        proof {
            assert(orig.skip(orig.len() as int) =~= Seq::<JsonMemberV1>::empty());
            assert(orig.take(orig.len() as int) =~= orig);
            assert(out@ =~= Seq::<JsonMemberV1>::empty());
        }
        while rest.len() > 0
            invariant
                orig == members@,
                rest@ == orig.take(rest@.len() as int),
                rest@.len() <= orig.len(),
                keys_ascending(out@),
                keys_distinct(out@),
                keys_distinct(orig.skip(rest@.len() as int)),
                out@.to_multiset() == orig.skip(rest@.len() as int).to_multiset(),
            decreases rest@.len(),
        {
            let ghost n = rest@.len() as int;
            let m = rest.pop().unwrap();
            proof {
                assert(m == orig[n - 1]);
                assert(rest@ =~= orig.take(n - 1));
            }
            let (pos, listed) = key_position(&out, &m.key);
            if listed {
                proof {
                    let k = choose|k: int| 0 <= k < out@.len() && (#[trigger] out@[k]).key@ == m.key@;
                    let e = out@[k];
                    vstd::seq_lib::to_multiset_contains(out@, e);
                    vstd::seq_lib::to_multiset_contains(orig.skip(n), e);
                    let j = choose|j: int| 0 <= j < orig.skip(n).len() && orig.skip(n)[j] == e;
                    assert(orig.skip(n)[j] == orig[n + j]);
                    assert(m.key@ == e.key@);
                    assert(orig[n - 1].key@ == orig[n + j].key@);
                    assert(!keys_distinct(orig));
                    assert(orig == members@);
                }
                return Err(AppError::InvalidInput("Duplicate JSON object key."));
            }
            let ghost before = out@;
            let ghost mv = m;
            out.insert(pos, m);
            proof {
                lemma_insert_member(before, mv, pos as int, orig.skip(n));
                assert(out@ =~= before.insert(pos as int, mv));
                assert(orig.skip(n - 1) =~= seq![mv] + orig.skip(n));
            }
        }
        proof {
            assert(orig.skip(0) =~= orig);
        }
        Ok(JsonValueV1::Object(out))
    }
}

} // verus!
