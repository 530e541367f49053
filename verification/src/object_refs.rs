//! Receiver-owned, Bridge-scoped temporary object identities. A descriptor
//! carries no resolver, path, consent, lease or sandbox field; resolving one
//! is a Host check, not an authorization.
use vstd::prelude::*;

use crate::error::{AppError, AppResult};
use crate::identity::{lower_hex_char, random_uuid_text, uuid_hyphen_at, uuid_hyphenated_lower};
use crate::natural_v2::trim;
use crate::text::{byte_len, contains_byte, utf8};

verus! {

pub const OBJECT_REF_SCHEMA: &'static str = "pastey-object-ref-v1";

pub const OBJECT_REF_PREFIX: &'static str = "object-ref-";

pub const MAX_OBJECT_REF_LEN: usize = 128;

/// A hexadecimal digit in either case.
pub open spec fn hex_byte(b: u8) -> bool {
    (48 <= b <= 57) || (65 <= b <= 70) || (97 <= b <= 102)
}

/// 36 bytes with hyphens at positions 8, 13, 18 and 23 and hexadecimal
/// digits elsewhere.
pub open spec fn hyphenated_bytes(s: Seq<u8>) -> bool {
    &&& s.len() == 36
    &&& forall|i: int|
        0 <= i < 36 ==> if uuid_hyphen_at(i) {
            #[trigger] s[i] == 45
        } else {
            hex_byte(s[i])
        }
}

/// The bytes start with `urn:uuid:`, ignoring ASCII case.
pub open spec fn urn_prefix(s: Seq<u8>) -> bool {
    &&& s.len() >= 9
    &&& ascii_lower(s[0]) == 117
    &&& ascii_lower(s[1]) == 114
    &&& ascii_lower(s[2]) == 110
    &&& s[3] == 58
    &&& ascii_lower(s[4]) == 117
    &&& ascii_lower(s[5]) == 117
    &&& ascii_lower(s[6]) == 105
    &&& ascii_lower(s[7]) == 100
    &&& s[8] == 58
}

/// The texts `uuid::Uuid::parse_str` accepts: 32 hexadecimal digits, the
/// hyphenated form, the hyphenated form in braces, or the hyphenated form
/// after `urn:uuid:` (in any case).
pub open spec fn uuid_text_ok(text: Seq<char>) -> bool {
    let s = utf8(text);
    ||| s.len() == 32 && forall|i: int| 0 <= i < 32 ==> hex_byte(#[trigger] s[i])
    ||| hyphenated_bytes(s)
    ||| s.len() == 38 && s[0] == 123 && s[37] == 125 && hyphenated_bytes(s.subrange(1, 37))
    ||| s.len() == 45 && urn_prefix(s) && hyphenated_bytes(s.subrange(9, 45))
}

/// The instant `time::OffsetDateTime::parse` reads from `text` as RFC 3339,
/// in nanoseconds since the Unix epoch, or `None` where it refuses the text.
pub uninterp spec fn rfc3339_nanos(text: Seq<char>) -> Option<i128>;

/// Calls `uuid::Uuid::parse_str` and reports whether it accepted `text`:
/// claims that it accepts exactly the four forms of `uuid_text_ok`, as its
/// parser (`try_parse`, `parse_simple`, `parse_hyphenated`) reads them.
#[verifier::external_body]
fn parses_as_uuid(text: &str) -> (r: bool)
    ensures
        r == uuid_text_ok(text@),
{
    uuid::Uuid::parse_str(text).is_ok()
}

/// Calls `time::OffsetDateTime::parse` with the RFC 3339 format and returns
/// the parsed instant's `unix_timestamp_nanos`, or `None` on a parse error.
#[verifier::external_body]
fn parse_rfc3339(text: &str) -> (r: Option<i128>)
    ensures
        r == rfc3339_nanos(text@),
{
    match time::OffsetDateTime::parse(text, &time::format_description::well_known::Rfc3339) {
        Ok(t) => Some(t.unix_timestamp_nanos()),
        Err(_) => None,
    }
}

/// What kind of object a reference names.
#[derive(Clone, Copy, Debug, PartialEq, Eq)]
pub enum ObjectKind {
    FilesystemCandidate,
}

/// The public description of one object reference.
#[derive(Clone, Debug, PartialEq, Eq)]
pub struct ObjectRefDescriptor {
    pub schema_version: String,
    pub object_ref: String,
    pub object_kind: ObjectKind,
    pub owner_device_ref: String,
    pub bridge_session_ref: String,
    pub media_type: String,
    pub size_bytes: Option<u64>,
    pub display_name: Option<String>,
    pub created_at: String,
    pub expires_at: String,
}

pub open spec fn ascii_lower(b: u8) -> u8 {
    if 65 <= b && b <= 90 {
        (b + 32) as u8
    } else {
        b
    }
}

/// The bytes of `s` start with `file:`, ignoring ASCII case.
pub open spec fn file_scheme(s: Seq<u8>) -> bool {
    &&& s.len() >= 5
    &&& ascii_lower(s[0]) == 102
    &&& ascii_lower(s[1]) == 105
    &&& ascii_lower(s[2]) == 108
    &&& ascii_lower(s[3]) == 101
    &&& s[4] == 58
}

/// An opaque reference: at most 128 bytes, the prefix `object-ref-` then
/// what the UUID parser accepts (`uuid_ok`), no path separator and no
/// `file:` scheme.
pub open spec fn object_ref_ok(value: Seq<char>, uuid_ok: bool) -> bool {
    let b = utf8(value);
    &&& b.len() <= MAX_OBJECT_REF_LEN
    &&& value.len() >= OBJECT_REF_PREFIX@.len()
    &&& value.subrange(0, OBJECT_REF_PREFIX@.len() as int) == OBJECT_REF_PREFIX@
    &&& uuid_ok
    &&& !b.contains(47u8)
    &&& !b.contains(92u8)
    &&& !file_scheme(b)
}

fn lower_byte(b: u8) -> (r: u8)
    ensures
        r == ascii_lower(b),
{
    if 65 <= b && b <= 90 {
        b + 32
    } else {
        b
    }
}

/// Accepts exactly an opaque reference, given whether the UUID parser
/// accepted what follows its prefix.
pub fn check_object_ref(value: &str, uuid_ok: bool) -> (r: AppResult<()>)
    ensures
        r is Ok <==> object_ref_ok(value@, uuid_ok),
{
    let b = value.as_bytes();
    assert(b@ == vstd::string::StringSliceAdditionalSpecFns::spec_bytes(value));
    let scheme = b.len() >= 5 && lower_byte(b[0]) == 102 && lower_byte(b[1]) == 105 && lower_byte(b[2])
        == 108 && lower_byte(b[3]) == 101 && b[4] == 58;
    let prefixed = starts_with_prefix(value);
    if b.len() > MAX_OBJECT_REF_LEN || !prefixed || !uuid_ok || contains_byte(value, 47u8)
        || contains_byte(value, 92u8) || scheme {
        return Err(AppError::InvalidInput("ObjectRef must be opaque."));
    }
    Ok(())
}

fn starts_with_prefix(value: &str) -> (r: bool)
    ensures
        r == (value@.len() >= OBJECT_REF_PREFIX@.len() && value@.subrange(0, OBJECT_REF_PREFIX@.len() as int)
            == OBJECT_REF_PREFIX@),
{
    proof {
        reveal_strlit("object-ref-");
    }
    if value.unicode_len() < 11 {
        return false;
    }
    let head = value.substring_char(0, 11);
    let p = String::from_str(OBJECT_REF_PREFIX);
    let h = String::from_str(head);
    h == p
}

/// An opaque object reference whose text after the prefix is a UUID.
pub open spec fn object_ref_valid(value: Seq<char>) -> bool {
    value.len() >= OBJECT_REF_PREFIX@.len() && object_ref_ok(
        value,
        uuid_text_ok(value.skip(OBJECT_REF_PREFIX@.len() as int)),
    )
}

/// Accepts exactly an opaque object reference.
pub fn validate_object_ref(value: &str) -> (r: AppResult<()>)
    ensures
        r is Ok <==> object_ref_valid(value@),
{
    proof {
        reveal_strlit("object-ref-");
    }
    if !starts_with_prefix(value) {
        return Err(AppError::InvalidInput("ObjectRef must be opaque."));
    }
    let rest = value.substring_char(11, value.unicode_len());
    proof {
        assert(rest@ =~= value@.skip(11));
    }
    let uuid_ok = parses_as_uuid(rest);
    check_object_ref(value, uuid_ok)
}

/// A fresh random object reference: the prefix and a random UUID in its
/// lowercase hyphenated form, which `validate_object_ref` always accepts.
pub fn new_object_ref() -> (r: String)
    ensures
        object_ref_valid(r@),
        r@.len() == OBJECT_REF_PREFIX@.len() + 36,
        r@.subrange(0, OBJECT_REF_PREFIX@.len() as int) == OBJECT_REF_PREFIX@,
        uuid_hyphenated_lower(r@.skip(OBJECT_REF_PREFIX@.len() as int)),
{
    let text = random_uuid_text();
    let r = String::from_str(OBJECT_REF_PREFIX).concat(text.as_str());
    proof {
        reveal_strlit("object-ref-");
        assert(r@ =~= OBJECT_REF_PREFIX@ + text@);
        lemma_fresh_object_ref(text@);
        assert(r@.subrange(0, OBJECT_REF_PREFIX@.len() as int) =~= OBJECT_REF_PREFIX@);
        assert(r@.skip(OBJECT_REF_PREFIX@.len() as int) =~= text@);
    }
    r
}

/// The prefix followed by a lowercase hyphenated UUID is a valid reference.
proof fn lemma_fresh_object_ref(t: Seq<char>)
    requires
        uuid_hyphenated_lower(t),
    ensures
        object_ref_valid(OBJECT_REF_PREFIX@ + t),
{
    reveal_strlit("object-ref-");
    let p = OBJECT_REF_PREFIX@;
    let v = p + t;
    assert(v.skip(11) =~= t);
    assert(vstd::utf8::is_ascii_chars(t)) by {
        assert forall|i: int| 0 <= i < t.len() implies '\0' <= #[trigger] t[i] <= '\u{7f}' by {
            if uuid_hyphen_at(i) {
            } else {
                assert(lower_hex_char(t[i]));
            }
        }
    }
    assert(vstd::utf8::is_ascii_chars(p));
    vstd::utf8::is_ascii_chars_concat(v, p, t);
    vstd::utf8::is_ascii_chars_encode_utf8(v);
    vstd::utf8::is_ascii_chars_encode_utf8(t);
    let b = utf8(v);
    let u = utf8(t);
    assert(u.len() == 36);
    assert(hyphenated_bytes(u)) by {
        assert forall|i: int| 0 <= i < 36 implies if uuid_hyphen_at(i) {
            #[trigger] u[i] == 45
        } else {
            hex_byte(u[i])
        } by {
            assert(t[i] as u8 == u[i]);
            if uuid_hyphen_at(i) {
                assert(t[i] == '-');
            } else {
                assert(lower_hex_char(t[i]));
            }
        }
    }
    assert(b.len() == 47);
    assert(!b.contains(47u8)) by {
        if b.contains(47u8) {
            let k = choose|k: int| 0 <= k < b.len() && b[k] == 47u8;
            assert(v[k] as u8 == b[k]);
            if k >= 11 {
                assert(v[k] == t[k - 11]);
                if !uuid_hyphen_at(k - 11) {
                    assert(lower_hex_char(t[k - 11]));
                }
            }
        }
    }
    assert(!b.contains(92u8)) by {
        if b.contains(92u8) {
            let k = choose|k: int| 0 <= k < b.len() && b[k] == 92u8;
            assert(v[k] as u8 == b[k]);
            if k >= 11 {
                assert(v[k] == t[k - 11]);
                if !uuid_hyphen_at(k - 11) {
                    assert(lower_hex_char(t[k - 11]));
                }
            }
        }
    }
    assert(v[0] as u8 == b[0]);
    assert(v.subrange(0, 11) =~= p);
}

/// Text that is not blank and holds at most `max` bytes.
pub open spec fn bounded_text(s: Seq<char>, max: int) -> bool {
    utf8(trim(s)).len() > 0 && utf8(s).len() <= max
}

/// The fields of a descriptor that need no parser.
pub open spec fn descriptor_fields_ok(d: ObjectRefDescriptor) -> bool {
    &&& d.schema_version@ == OBJECT_REF_SCHEMA@
    &&& bounded_text(d.owner_device_ref@, 256)
    &&& bounded_text(d.bridge_session_ref@, 256)
    &&& bounded_text(d.media_type@, 128)
    &&& utf8(d.media_type@).contains(47u8)
    &&& match d.display_name {
        None => true,
        Some(n) => utf8(n@).len() > 0 && utf8(n@).len() <= 256 && !utf8(n@).contains(47u8) && !utf8(n@).contains(92u8),
    }
}

/// The interval of a descriptor: both instants parsed, expiry after
/// creation and after `now`.
pub open spec fn descriptor_times_ok(created: Option<i128>, expires: Option<i128>, now: i128) -> bool {
    created is Some && expires is Some && expires.unwrap() > created.unwrap() && expires.unwrap() > now
}

/// `str::trim` on a descriptor field, measured in bytes.
fn trimmed_len(s: &str) -> (r: usize)
    ensures
        r == utf8(trim(s@)).len(),
{
    byte_len(crate::natural_v2::trimmed_text(s))
}

/// Accepts exactly a descriptor with an opaque reference, bounded fields,
/// and an interval that ends after creation and after `now` (nanoseconds
/// since the Unix epoch), given what the RFC 3339 parser read of its
/// creation (`created`) and expiry (`expires`).
pub fn check_descriptor(
    d: &ObjectRefDescriptor,
    created: Option<i128>,
    expires: Option<i128>,
    now: i128,
) -> (r: AppResult<()>)
    ensures
        r is Ok <==> (d.object_ref@.len() >= OBJECT_REF_PREFIX@.len() && object_ref_ok(
            d.object_ref@,
            uuid_text_ok(d.object_ref@.skip(OBJECT_REF_PREFIX@.len() as int)),
        ) && descriptor_fields_ok(*d) && descriptor_times_ok(created, expires, now)),
{
    validate_object_ref(d.object_ref.as_str())?;
    let display_ok = match &d.display_name {
        None => true,
        Some(n) => {
            let l = byte_len(n.as_str());
            l > 0 && l <= 256 && !contains_byte(n.as_str(), 47u8) && !contains_byte(n.as_str(), 92u8)
        },
    };
    if d.schema_version != String::from_str(OBJECT_REF_SCHEMA) || trimmed_len(d.owner_device_ref.as_str()) == 0
        || byte_len(d.owner_device_ref.as_str()) > 256 || trimmed_len(d.bridge_session_ref.as_str()) == 0
        || byte_len(d.bridge_session_ref.as_str()) > 256 || trimmed_len(d.media_type.as_str()) == 0
        || byte_len(d.media_type.as_str()) > 128 || !contains_byte(d.media_type.as_str(), 47u8) || !display_ok {
        return Err(AppError::InvalidInput("Invalid ObjectRef descriptor."));
    }
    let c = match created {
        Some(c) => c,
        None => {
            return Err(AppError::InvalidInput("Invalid ObjectRef time."));
        },
    };
    let e = match expires {
        Some(e) => e,
        None => {
            return Err(AppError::InvalidInput("Invalid ObjectRef time."));
        },
    };
    if e <= c || e <= now {
        return Err(AppError::InvalidInput("ObjectRef descriptor expired."));
    }
    Ok(())
}

/// Accepts exactly a valid descriptor at `now` (nanoseconds since the Unix epoch).
pub fn validate_descriptor(d: &ObjectRefDescriptor, now: i128) -> (r: AppResult<()>)
    ensures
        r is Ok <==> (d.object_ref@.len() >= OBJECT_REF_PREFIX@.len() && object_ref_ok(
            d.object_ref@,
            uuid_text_ok(d.object_ref@.skip(OBJECT_REF_PREFIX@.len() as int)),
        ) && descriptor_fields_ok(*d) && descriptor_times_ok(
            rfc3339_nanos(d.created_at@),
            rfc3339_nanos(d.expires_at@),
            now,
        )),
{
    let created = parse_rfc3339(d.created_at.as_str());
    let expires = parse_rfc3339(d.expires_at.as_str());
    check_descriptor(d, created, expires, now)
}

impl ObjectRefDescriptor {
    /// An equal copy.
    pub fn duplicate(&self) -> (r: ObjectRefDescriptor)
        ensures
            r == *self,
    {
        ObjectRefDescriptor {
            schema_version: self.schema_version.clone(),
            object_ref: self.object_ref.clone(),
            object_kind: self.object_kind,
            owner_device_ref: self.owner_device_ref.clone(),
            bridge_session_ref: self.bridge_session_ref.clone(),
            media_type: self.media_type.clone(),
            size_bytes: self.size_bytes,
            display_name: match &self.display_name {
                Some(n) => Some(n.clone()),
                None => None,
            },
            created_at: self.created_at.clone(),
            expires_at: self.expires_at.clone(),
        }
    }
}

pub open spec fn registered(entries: Seq<ObjectRefDescriptor>, object_ref: Seq<char>) -> bool {
    exists|i: int| 0 <= i < entries.len() && #[trigger] entries[i].object_ref@ == object_ref
}

/// The descriptors other than those of Bridge session `bridge`, in order.
pub open spec fn outside_bridge(s: Seq<ObjectRefDescriptor>, bridge: Seq<char>) -> Seq<ObjectRefDescriptor>
    decreases s.len(),
{
    if s.len() == 0 {
        s
    } else if s.last().bridge_session_ref@ == bridge {
        outside_bridge(s.drop_last(), bridge)
    } else {
        outside_bridge(s.drop_last(), bridge).push(s.last())
    }
}

/// The live object references of this Host, at most one per reference.
pub struct EphemeralObjectStore {
    entries: Vec<ObjectRefDescriptor>,
}

impl EphemeralObjectStore {
    pub closed spec fn spec_entries(&self) -> Seq<ObjectRefDescriptor> {
        self.entries@
    }

    pub fn new() -> (r: EphemeralObjectStore)
        ensures
            r.spec_entries().len() == 0,
    {
        EphemeralObjectStore { entries: Vec::new() }
    }

    fn find(&self, object_ref: &str) -> (r: Option<usize>)
        ensures
            r matches Some(i) ==> i < self.entries@.len() && self.entries@[i as int].object_ref@ == object_ref@,
            r is None <==> !registered(self.entries@, object_ref@),
    {
        let wanted = String::from_str(object_ref);
        let mut i: usize = 0;
        while i < self.entries.len()
            invariant
                i <= self.entries@.len(),
                wanted@ == object_ref@,
                forall|k: int| 0 <= k < i ==> #[trigger] self.entries@[k].object_ref@ != object_ref@,
            decreases self.entries@.len() - i,
        {
            if self.entries[i].object_ref == wanted {
                return Some(i);
            }
            i = i + 1;
        }
        None
    }

    /// Registers a filesystem candidate that is valid at `now` (nanoseconds
    /// since the Unix epoch) under a reference not yet registered.
    pub fn register_filesystem_candidate(
        &mut self,
        object_ref: String,
        bridge_session_ref: String,
        owner_device_ref: String,
        media_type: String,
        size_bytes: u64,
        display_name: String,
        created_at: String,
        expires_at: String,
        now: i128,
    ) -> (r: AppResult<ObjectRefDescriptor>)
        ensures
            r matches Ok(d) ==> ({
                &&& d.schema_version@ == OBJECT_REF_SCHEMA@
                &&& d.object_ref == object_ref
                &&& d.object_kind == ObjectKind::FilesystemCandidate
                &&& d.owner_device_ref == owner_device_ref
                &&& d.bridge_session_ref == bridge_session_ref
                &&& d.media_type == media_type
                &&& d.size_bytes == Some(size_bytes)
                &&& d.display_name == Some(display_name)
                &&& d.created_at == created_at
                &&& d.expires_at == expires_at
                &&& final(self).spec_entries() == old(self).spec_entries().push(d)
            }),
            r is Ok <==> ({
                &&& object_ref@.len() >= OBJECT_REF_PREFIX@.len()
                &&& object_ref_ok(object_ref@, uuid_text_ok(object_ref@.skip(OBJECT_REF_PREFIX@.len() as int)))
                &&& bounded_text(owner_device_ref@, 256)
                &&& bounded_text(bridge_session_ref@, 256)
                &&& bounded_text(media_type@, 128)
                &&& utf8(media_type@).contains(47u8)
                &&& utf8(display_name@).len() > 0
                &&& utf8(display_name@).len() <= 256
                &&& !utf8(display_name@).contains(47u8)
                &&& !utf8(display_name@).contains(92u8)
                &&& descriptor_times_ok(rfc3339_nanos(created_at@), rfc3339_nanos(expires_at@), now)
                &&& !registered(old(self).spec_entries(), object_ref@)
            }),
            r is Err ==> final(self).spec_entries() == old(self).spec_entries(),
    {
        let d = ObjectRefDescriptor {
            schema_version: String::from_str(OBJECT_REF_SCHEMA),
            object_ref,
            object_kind: ObjectKind::FilesystemCandidate,
            owner_device_ref,
            bridge_session_ref,
            media_type,
            size_bytes: Some(size_bytes),
            display_name: Some(display_name),
            created_at,
            expires_at,
        };
        validate_descriptor(&d, now)?;
        if self.find(d.object_ref.as_str()).is_some() {
            return Err(AppError::InvalidInput("Filesystem candidate ObjectRef identity is ambiguous."));
        }
        let out = d.duplicate();
        self.entries.push(d);
        Ok(out)
    }

    /// Forgets reference `object_ref`; whether it was registered.
    pub fn purge_object(&mut self, object_ref: &str) -> (r: bool)
        ensures
            r == registered(old(self).spec_entries(), object_ref@),
            !r ==> final(self).spec_entries() == old(self).spec_entries(),
            r ==> exists|i: int|
                0 <= i < old(self).spec_entries().len() && old(self).spec_entries()[i].object_ref@ == object_ref@
                    && final(self).spec_entries() == old(self).spec_entries().remove(i),
    {
        match self.find(object_ref) {
            Some(i) => {
                self.entries.remove(i);
                true
            },
            None => false,
        }
    }

    /// Forgets every reference of Bridge session `bridge`; how many.
    pub fn purge_bridge(&mut self, bridge: &str) -> (r: usize)
        ensures
            final(self).spec_entries() == outside_bridge(old(self).spec_entries(), bridge@),
            r == old(self).spec_entries().len() - final(self).spec_entries().len(),
    {
        let ghost all = self.entries@;
        let total: usize = self.entries.len();
        let wanted = String::from_str(bridge);
        let mut rest: Vec<ObjectRefDescriptor> = Vec::new();
        std::mem::swap(&mut rest, &mut self.entries);
        let mut taken: Vec<ObjectRefDescriptor> = Vec::new();
        while rest.len() > 0
            invariant
                taken@.len() + rest@.len() == all.len(),
                rest@ == all.subrange(0, rest@.len() as int),
                forall|k: int| 0 <= k < taken@.len() ==> #[trigger] taken@[k] == all[all.len() - 1 - k],
            decreases rest@.len(),
        {
            let e = rest.pop().unwrap();
            taken.push(e);
        }
        let mut kept: Vec<ObjectRefDescriptor> = Vec::new();
        let mut removed: usize = 0;
        while taken.len() > 0
            invariant
                taken@.len() <= all.len(),
                all.len() == total,
                wanted@ == bridge@,
                forall|k: int| 0 <= k < taken@.len() ==> #[trigger] taken@[k] == all[all.len() - 1 - k],
                kept@ == outside_bridge(all.subrange(0, all.len() - taken@.len()), bridge@),
                removed + kept@.len() == all.len() - taken@.len(),
                kept@.len() <= all.len() - taken@.len(),
            decreases taken@.len(),
        {
            let ghost n = all.len() - taken@.len();
            let e = taken.pop().unwrap();
            assert(e == all[n]);
            let ghost prefix = all.subrange(0, n + 1);
            assert(prefix.drop_last() =~= all.subrange(0, n));
            assert(prefix.last() == e);
            proof {
                lemma_outside_bridge_len(all.subrange(0, n), bridge@);
            }
            if e.bridge_session_ref == wanted {
                removed = removed + 1;
            } else {
                kept.push(e);
            }
        }
        assert(all.subrange(0, all.len() as int) =~= all);
        self.entries = kept;
        removed
    }

    /// Forgets every reference; how many.
    pub fn purge_all(&mut self) -> (r: usize)
        ensures
            final(self).spec_entries().len() == 0,
            r == old(self).spec_entries().len(),
    {
        let n = self.entries.len();
        self.entries = Vec::new();
        n
    }
}

proof fn lemma_outside_bridge_len(s: Seq<ObjectRefDescriptor>, bridge: Seq<char>)
    ensures
        outside_bridge(s, bridge).len() <= s.len(),
    decreases s.len(),
{
    if s.len() > 0 {
        lemma_outside_bridge_len(s.drop_last(), bridge);
    }
}

} // verus!
