use pastey_physical::object_refs::{
    check_object_ref, new_object_ref, validate_descriptor, validate_object_ref,
    EphemeralObjectStore, ObjectKind, ObjectRefDescriptor, OBJECT_REF_SCHEMA,
};

/// 2026-01-01T00:00:00Z in nanoseconds since the Unix epoch.
const JAN_2026_NANOS: i128 = 1_767_225_600_000_000_000;

#[test]
fn object_refs_are_opaque_and_path_like_values_fail() {
    assert!(validate_object_ref(&new_object_ref()).is_ok());
    for value in ["/tmp/file", "..\\secret", "file:///tmp/file", "object-ref-not-a-uuid"] {
        assert!(validate_object_ref(value).is_err());
    }
}

#[test]
fn fresh_object_refs_are_distinct_and_prefixed() {
    let a = new_object_ref();
    let b = new_object_ref();
    assert_ne!(a, b);
    assert!(a.starts_with("object-ref-"));
    assert_eq!(a.len(), "object-ref-".len() + 36);
}

#[test]
fn object_ref_check_follows_the_parser_verdict() {
    let value = "object-ref-00000000-0000-4000-8000-000000000001";
    assert!(check_object_ref(value, true).is_ok());
    assert!(check_object_ref(value, false).is_err());
    assert!(check_object_ref("other-00000000-0000-4000-8000-000000000001", true).is_err());
    assert!(validate_object_ref(value).is_ok());
}

#[test]
fn object_refs_accept_every_uuid_form_the_parser_reads() {
    let hyphenated = "6F9619FF-8B86-D011-B42D-00C04FC964FF";
    let simple: String = hyphenated.chars().filter(|c| *c != '-').collect();
    let mut braced = String::new();
    braced.push(char::from(123u8));
    braced.push_str(hyphenated);
    braced.push(char::from(125u8));
    let urn = format!("URN:uuid:{hyphenated}");
    for rest in [hyphenated.to_string(), simple, braced, urn] {
        assert!(validate_object_ref(&format!("object-ref-{rest}")).is_ok(), "{rest}");
    }
    for rest in [
        "6F9619FF8B86-D011-B42D-00C04FC964FF-",
        "6F9619FF-8B86-D011-B42D-00C04FC964FG",
        "urx:uuid:6F9619FF-8B86-D011-B42D-00C04FC964FF",
        "6F9619FF-8B86-D011-B42D-00C04FC964F",
    ] {
        assert!(validate_object_ref(&format!("object-ref-{rest}")).is_err(), "{rest}");
    }
}

fn descriptor(created_at: &str, expires_at: &str) -> ObjectRefDescriptor {
    ObjectRefDescriptor {
        schema_version: OBJECT_REF_SCHEMA.into(),
        object_ref: "object-ref-00000000-0000-4000-8000-000000000001".into(),
        object_kind: ObjectKind::FilesystemCandidate,
        owner_device_ref: "device-a".into(),
        bridge_session_ref: "bridge-1".into(),
        media_type: "text/plain".into(),
        size_bytes: Some(12),
        display_name: Some("notes.txt".into()),
        created_at: created_at.into(),
        expires_at: expires_at.into(),
    }
}

#[test]
fn descriptor_times_are_parsed_and_ordered() {
    let d = descriptor("2026-01-01T00:00:00Z", "2026-01-02T00:00:00Z");
    assert!(validate_descriptor(&d, JAN_2026_NANOS).is_ok());
    // Expired once `now` reaches the expiry.
    let expiry = JAN_2026_NANOS + 86_400 * 1_000_000_000;
    assert!(validate_descriptor(&d, expiry).is_err());
    assert!(validate_descriptor(&d, expiry - 1).is_ok());
    // Expiry not after creation.
    let inverted = descriptor("2026-01-02T00:00:00Z", "2026-01-01T00:00:00Z");
    assert!(validate_descriptor(&inverted, 0).is_err());
    // Unparseable time.
    let garbled = descriptor("yesterday", "2026-01-02T00:00:00Z");
    assert!(validate_descriptor(&garbled, 0).is_err());
}

#[test]
fn descriptor_fields_are_bounded() {
    let mut d = descriptor("2026-01-01T00:00:00Z", "2026-01-02T00:00:00Z");
    d.display_name = Some("dir/notes.txt".into());
    assert!(validate_descriptor(&d, 0).is_err());
    let mut d = descriptor("2026-01-01T00:00:00Z", "2026-01-02T00:00:00Z");
    d.media_type = "textplain".into();
    assert!(validate_descriptor(&d, 0).is_err());
    let mut d = descriptor("2026-01-01T00:00:00Z", "2026-01-02T00:00:00Z");
    d.owner_device_ref = "   ".into();
    assert!(validate_descriptor(&d, 0).is_err());
    let mut d = descriptor("2026-01-01T00:00:00Z", "2026-01-02T00:00:00Z");
    d.schema_version = "other".into();
    assert!(validate_descriptor(&d, 0).is_err());
}

fn register(
    store: &mut EphemeralObjectStore,
    object_ref: &str,
    bridge: &str,
) -> Result<ObjectRefDescriptor, pastey_physical::error::AppError> {
    store.register_filesystem_candidate(
        object_ref.into(),
        bridge.into(),
        "device-a".into(),
        "text/plain".into(),
        12,
        "notes.txt".into(),
        "2026-01-01T00:00:00Z".into(),
        "2026-01-02T00:00:00Z".into(),
        JAN_2026_NANOS,
    )
}

#[test]
fn store_registers_once_and_purges_by_reference_and_bridge() {
    let mut store = EphemeralObjectStore::new();
    let a = "object-ref-00000000-0000-4000-8000-000000000001";
    let b = "object-ref-00000000-0000-4000-8000-000000000002";
    let c = "object-ref-00000000-0000-4000-8000-000000000003";
    let d = register(&mut store, a, "bridge-1").unwrap();
    assert_eq!(d.object_ref, a);
    assert_eq!(d.size_bytes, Some(12));
    assert!(register(&mut store, a, "bridge-1").is_err());
    register(&mut store, b, "bridge-1").unwrap();
    register(&mut store, c, "bridge-2").unwrap();
    assert!(store.purge_object(a));
    assert!(!store.purge_object(a));
    assert_eq!(store.purge_bridge("bridge-1"), 1);
    assert_eq!(store.purge_all(), 1);
    assert_eq!(store.purge_all(), 0);
}
