//! Byte-level checks on text: token alphabets, bounded lengths and the
//! byte-wise lexicographic order of `str`.
use vstd::prelude::*;
use vstd::string::StringSliceAdditionalSpecFns;

verus! {

/// The UTF-8 bytes of a character sequence.
pub open spec fn utf8(s: Seq<char>) -> Seq<u8> {
    vstd::utf8::encode_utf8(s)
}

/// ASCII letters, digits and `-`, `_`, `:`, `.`.
pub open spec fn is_token_byte(b: u8) -> bool {
    (48 <= b <= 57) || (65 <= b <= 90) || (97 <= b <= 122) || b == 45 || b == 95 || b == 58
        || b == 46
}

/// A non-empty token of at most `max` bytes, all from the token alphabet.
pub open spec fn token_ok(s: Seq<u8>, max: int) -> bool {
    &&& 0 < s.len() <= max
    &&& forall|i: int| 0 <= i < s.len() ==> #[trigger] is_token_byte(s[i])
}

/// Byte-wise lexicographic order, the order of Rust's `str`.
pub open spec fn seq_lt(a: Seq<u8>, b: Seq<u8>) -> bool
    decreases a.len(),
{
    if a.len() == 0 {
        b.len() > 0
    } else if b.len() == 0 {
        false
    } else if a[0] < b[0] {
        true
    } else if a[0] > b[0] {
        false
    } else {
        seq_lt(a.drop_first(), b.drop_first())
    }
}

/// `seq_lt` on the suffixes after a common prefix.
proof fn lemma_seq_lt_skip(a: Seq<u8>, b: Seq<u8>, i: int)
    requires
        0 <= i <= a.len(),
        i <= b.len(),
        a.subrange(0, i) == b.subrange(0, i),
    ensures
        seq_lt(a, b) == seq_lt(a.skip(i), b.skip(i)),
    decreases i,
{
    if i > 0 {
        assert(a[0] == a.subrange(0, i)[0]);
        assert(b[0] == b.subrange(0, i)[0]);
        assert(a.drop_first().subrange(0, i - 1) =~= a.subrange(0, i).drop_first());
        assert(b.drop_first().subrange(0, i - 1) =~= b.subrange(0, i).drop_first());
        lemma_seq_lt_skip(a.drop_first(), b.drop_first(), i - 1);
        assert(a.drop_first().skip(i - 1) =~= a.skip(i));
        assert(b.drop_first().skip(i - 1) =~= b.skip(i));
    } else {
        assert(a.skip(0) =~= a);
        assert(b.skip(0) =~= b);
    }
}

/// No sequence precedes itself.
pub proof fn lemma_seq_lt_irreflexive(a: Seq<u8>)
    ensures
        !seq_lt(a, a),
    decreases a.len(),
{
    if a.len() > 0 {
        lemma_seq_lt_irreflexive(a.drop_first());
    }
}

/// Byte-wise lexicographic comparison.
pub fn bytes_lt(a: &[u8], b: &[u8]) -> (r: bool)
    ensures
        r == seq_lt(a@, b@),
{
    let mut i: usize = 0;
    while i < a.len() && i < b.len()
        invariant
            i <= a.len(),
            i <= b.len(),
            a@.subrange(0, i as int) == b@.subrange(0, i as int),
        decreases a.len() - i,
    {
        if a[i] != b[i] {
            proof {
                lemma_seq_lt_skip(a@, b@, i as int);
                assert(a@.skip(i as int)[0] == a@[i as int]);
                assert(b@.skip(i as int)[0] == b@[i as int]);
            }
            return a[i] < b[i];
        }
        assert(a@.subrange(0, i + 1) =~= a@.subrange(0, i as int).push(a@[i as int]));
        assert(b@.subrange(0, i + 1) =~= b@.subrange(0, i as int).push(b@[i as int]));
        i = i + 1;
    }
    proof {
        lemma_seq_lt_skip(a@, b@, i as int);
    }
    i < b.len()
}

/// Byte-wise equality.
pub fn bytes_eq(a: &[u8], b: &[u8]) -> (r: bool)
    ensures
        r == (a@ == b@),
{
    if a.len() != b.len() {
        return false;
    }
    let mut i: usize = 0;
    while i < a.len()
        invariant
            i <= a.len(),
            a.len() == b.len(),
            forall|j: int| 0 <= j < i ==> a@[j] == b@[j],
        decreases a.len() - i,
    {
        if a[i] != b[i] {
            return false;
        }
        i = i + 1;
    }
    assert(a@ =~= b@);
    true
}

pub fn is_token_byte_exec(b: u8) -> (r: bool)
    ensures
        r == is_token_byte(b),
{
    (48 <= b && b <= 57) || (65 <= b && b <= 90) || (97 <= b && b <= 122) || b == 45 || b == 95
        || b == 58 || b == 46
}

/// Checks `token_ok` on the bytes of a string.
pub fn is_token(s: &str, max: usize) -> (r: bool)
    ensures
        r == token_ok(utf8(s@), max as int),
{
    let bytes = s.as_bytes();
    assert(bytes@ == utf8(s@)) by {
        assert(bytes@ == s.spec_bytes());
    }
    if bytes.len() == 0 || bytes.len() > max {
        return false;
    }
    let mut i: usize = 0;
    while i < bytes.len()
        invariant
            i <= bytes.len(),
            bytes@ == utf8(s@),
            forall|j: int| 0 <= j < i ==> is_token_byte(#[trigger] bytes@[j]),
        decreases bytes.len() - i,
    {
        if !is_token_byte_exec(bytes[i]) {
            assert(!is_token_byte(utf8(s@)[i as int]));
            return false;
        }
        i = i + 1;
    }
    true
}

/// Whether `s` contains the byte `b`.
pub fn contains_byte(s: &str, b: u8) -> (r: bool)
    ensures
        r == utf8(s@).contains(b),
{
    let bytes = s.as_bytes();
    assert(bytes@ == utf8(s@)) by {
        assert(bytes@ == s.spec_bytes());
    }
    let mut i: usize = 0;
    while i < bytes.len()
        invariant
            i <= bytes.len(),
            bytes@ == utf8(s@),
            forall|j: int| 0 <= j < i ==> bytes@[j] != b,
        decreases bytes.len() - i,
    {
        if bytes[i] == b {
            assert(utf8(s@)[i as int] == b);
            return true;
        }
        i = i + 1;
    }
    false
}

/// Whether `s` starts with the bytes of `prefix`.
pub fn starts_with_bytes(s: &[u8], prefix: &[u8]) -> (r: bool)
    ensures
        r == (prefix@.len() <= s@.len() && s@.subrange(0, prefix@.len() as int) == prefix@),
{
    if prefix.len() > s.len() {
        return false;
    }
    let mut i: usize = 0;
    while i < prefix.len()
        invariant
            i <= prefix.len(),
            prefix.len() <= s.len(),
            forall|j: int| 0 <= j < i ==> s@[j] == prefix@[j],
        decreases prefix.len() - i,
    {
        if s[i] != prefix[i] {
            assert(s@.subrange(0, prefix@.len() as int)[i as int] != prefix@[i as int]);
            return false;
        }
        i = i + 1;
    }
    assert(s@.subrange(0, prefix@.len() as int) =~= prefix@);
    true
}

/// The length of `s` in bytes.
pub fn byte_len(s: &str) -> (r: usize)
    ensures
        r == utf8(s@).len(),
{
    let bytes = s.as_bytes();
    assert(bytes@ == s.spec_bytes());
    bytes.len()
}

/// Of two different byte strings one precedes the other.
pub proof fn lemma_seq_lt_total(a: Seq<u8>, b: Seq<u8>)
    requires
        a != b,
    ensures
        seq_lt(a, b) || seq_lt(b, a),
    decreases a.len(),
{
    if a.len() == 0 && b.len() == 0 {
        assert(a =~= b);
    } else if a.len() > 0 && b.len() > 0 && a[0] == b[0] {
        if a.drop_first() =~= b.drop_first() {
            assert(a =~= seq![a[0]] + a.drop_first());
            assert(b =~= seq![b[0]] + b.drop_first());
            assert(a =~= b);
        } else {
            lemma_seq_lt_total(a.drop_first(), b.drop_first());
        }
    }
}

} // verus!
