use pastey_physical::peer_capabilities::{
    append_system_probe_facts, capability, diagnostic_projection, local_projection,
    validate_projection, DiagnosticState, HostCapabilityFact, KnownCapabilityProbeResult,
    PeerCapabilityProjection, PeerCapabilityStore, ProviderReadiness, RuntimeReadiness,
    EXECUTION_WORLD_CAPABILITY, MANAGED_EXECUTION_CAPABILITY, MANAGED_PROVIDER_CAPABILITY,
    MANAGED_RUNTIME_CAPABILITY, MAX_PAYLOAD_BYTES, REASON_EXECUTION_WORLD_UNAVAILABLE,
    REASON_NOT_CONFIGURED, REASON_PLAN_BINDING_REQUIRED, REASON_SYSTEM_PROBE_UNAVAILABLE,
    REASON_SYSTEM_PROBE_UNSUPPORTED,
};
use serde_json::Value;

/// The length of the projection's JSON wire form (camelCase fields, an absent
/// unavailable reason left out).
fn encoded_len(projection: &PeerCapabilityProjection) -> usize {
    let mut facts = Vec::new();
    for fact in &projection.capabilities {
        let mut m = serde_json::Map::new();
        m.insert("capabilityId".into(), Value::String(fact.capability_id.clone()));
        m.insert("available".into(), Value::Bool(fact.available));
        m.insert(
            "acceptedInputMediaTypes".into(),
            Value::Array(
                fact.accepted_input_media_types
                    .iter()
                    .map(|t| Value::String(t.clone()))
                    .collect(),
            ),
        );
        m.insert("effect".into(), Value::String(fact.effect.clone()));
        if let Some(reason) = &fact.unavailable_reason {
            m.insert("unavailableReason".into(), Value::String(reason.clone()));
        }
        facts.push(Value::Object(m));
    }
    let mut top = serde_json::Map::new();
    top.insert("schemaVersion".into(), Value::String(projection.schema_version.clone()));
    top.insert("peerSessionId".into(), Value::String(projection.peer_session_id.clone()));
    top.insert("observedAt".into(), Value::from(projection.observed_at));
    top.insert("capabilities".into(), Value::Array(facts));
    serde_json::to_vec(&Value::Object(top)).unwrap().len()
}

fn observe(
    store: &mut PeerCapabilityStore,
    room: &str,
    session: &str,
    route: &str,
    projection: PeerCapabilityProjection,
    received_at: i64,
) -> Result<(), pastey_physical::error::AppError> {
    let len = encoded_len(&projection);
    store.observe(room, session, route, projection, len, received_at)
}

#[test]
fn core_projection_is_empty_non_authorizing_and_valid() {
    let projection = local_projection("peer".into(), 1);
    assert!(projection.capabilities.is_empty());
    assert!(validate_projection(&projection, encoded_len(&projection)).is_ok());
}

#[test]
fn empty_projection_is_received_and_stored_without_fabricating_a_fact() {
    let projection = local_projection("peer".into(), 10);
    let mut store = PeerCapabilityStore::new();
    observe(&mut store, "room", "peer", "observation", projection, 10).unwrap();

    let stored = store.projection("room", "peer", "observation").unwrap();
    assert!(stored.capabilities.is_empty());
    assert_eq!(stored.peer_session_id, "peer");
}

#[test]
fn replaced_session_cannot_reuse_an_old_capability_observation() {
    let projection = local_projection("old-session".into(), 10);
    let mut store = PeerCapabilityStore::new();
    observe(&mut store, "room", "old-session", "old-route", projection.clone(), 10).unwrap();

    assert!(store.projection("room", "new-session", "new-route").is_none());
    assert!(observe(&mut store, "room", "new-session", "new-route", projection, 11).is_err());
}

#[test]
fn generic_transport_accepts_bounded_facts_without_granting_authority() {
    let mut projection = local_projection("peer".into(), 10);
    projection.capabilities.push(HostCapabilityFact {
        capability_id: "future_agent_capability".into(),
        available: false,
        accepted_input_media_types: vec!["text/plain".into()],
        effect: "future_agent_owned_effect".into(),
        unavailable_reason: Some("agent_not_installed".into()),
    });
    assert!(validate_projection(&projection, encoded_len(&projection)).is_ok());
    let mut store = PeerCapabilityStore::new();
    observe(&mut store, "room", "peer", "observation", projection, 10).unwrap();
    store.purge_room("room");
    assert!(store.projection("room", "peer", "observation").is_none());
}

#[test]
fn diagnostic_states_keep_not_configured_unavailable_and_unknown_distinct() {
    let mut projection = local_projection("peer".into(), 10);
    projection.capabilities = vec![
        capability(MANAGED_PROVIDER_CAPABILITY, false, Some(REASON_NOT_CONFIGURED)),
        capability(MANAGED_RUNTIME_CAPABILITY, false, Some(REASON_PLAN_BINDING_REQUIRED)),
        capability(EXECUTION_WORLD_CAPABILITY, false, Some(REASON_EXECUTION_WORLD_UNAVAILABLE)),
    ];

    assert_eq!(
        projection.diagnostic_state(MANAGED_PROVIDER_CAPABILITY),
        DiagnosticState::NotConfigured
    );
    assert_eq!(
        projection.diagnostic_state(MANAGED_RUNTIME_CAPABILITY),
        DiagnosticState::Unknown
    );
    assert_eq!(
        projection.diagnostic_state(EXECUTION_WORLD_CAPABILITY),
        DiagnosticState::Unavailable
    );
    assert_eq!(
        projection.diagnostic_state(MANAGED_EXECUTION_CAPABILITY),
        DiagnosticState::Unknown
    );
}

fn probe(capability_id: &str) -> KnownCapabilityProbeResult {
    match capability_id {
        "runtime.python" => KnownCapabilityProbeResult::Available,
        "runtime.node" => KnownCapabilityProbeResult::Unavailable,
        _ => KnownCapabilityProbeResult::Unsupported,
    }
}

#[test]
fn known_system_probe_observations_preserve_readiness_and_distinguish_unavailable() {
    let mut projection = local_projection("peer".into(), 10);
    projection
        .capabilities
        .push(capability(MANAGED_RUNTIME_CAPABILITY, false, Some(REASON_NOT_CONFIGURED)));
    let ids: Vec<String> = vec!["runtime.python".into(), "runtime.node".into()];
    let results: Vec<KnownCapabilityProbeResult> = ids.iter().map(|id| probe(id)).collect();
    append_system_probe_facts(&mut projection, &ids, &results).unwrap();

    assert_eq!(projection.capabilities.len(), 3);
    assert_eq!(
        projection
            .capabilities
            .iter()
            .find(|fact| fact.capability_id == "runtime.python")
            .unwrap()
            .available,
        true
    );
    assert_eq!(
        projection
            .capabilities
            .iter()
            .find(|fact| fact.capability_id == "runtime.node")
            .unwrap()
            .unavailable_reason
            .as_deref(),
        Some(REASON_SYSTEM_PROBE_UNAVAILABLE)
    );
    assert_eq!(
        projection.diagnostic_state(MANAGED_RUNTIME_CAPABILITY),
        DiagnosticState::NotConfigured
    );
}

#[test]
fn absent_system_probe_observation_remains_unknown_not_unavailable() {
    let projection = local_projection("peer".into(), 10);
    assert_eq!(
        projection.diagnostic_state("runtime.python"),
        DiagnosticState::Unknown
    );
}

#[test]
fn locally_unsupported_system_probe_is_a_distinct_bounded_observation() {
    let mut projection = local_projection("peer".into(), 10);
    let ids: Vec<String> = vec!["runtime.powershell".into()];
    let results = vec![KnownCapabilityProbeResult::Unsupported];
    append_system_probe_facts(&mut projection, &ids, &results).unwrap();
    assert_eq!(projection.capabilities.len(), 1);
    assert_eq!(
        projection.capabilities[0].unavailable_reason.as_deref(),
        Some(REASON_SYSTEM_PROBE_UNSUPPORTED)
    );
}

#[test]
fn invalid_projections_are_refused() {
    let mut duplicate = local_projection("peer".into(), 10);
    duplicate.capabilities = vec![
        capability(MANAGED_PROVIDER_CAPABILITY, true, None),
        capability(MANAGED_PROVIDER_CAPABILITY, true, None),
    ];
    assert!(validate_projection(&duplicate, encoded_len(&duplicate)).is_err());

    let mut reasonless = local_projection("peer".into(), 10);
    reasonless.capabilities = vec![capability(MANAGED_PROVIDER_CAPABILITY, false, None)];
    assert!(validate_projection(&reasonless, encoded_len(&reasonless)).is_err());

    let mut wrong_schema = local_projection("peer".into(), 10);
    wrong_schema.schema_version = "other".into();
    assert!(validate_projection(&wrong_schema, encoded_len(&wrong_schema)).is_err());

    let fine = local_projection("peer".into(), 10);
    assert!(validate_projection(&fine, MAX_PAYLOAD_BYTES + 1).is_err());
    assert!(validate_projection(&fine, MAX_PAYLOAD_BYTES).is_ok());
}

#[test]
fn store_keeps_other_entries_when_one_is_replaced_or_removed() {
    let mut store = PeerCapabilityStore::new();
    observe(&mut store, "room", "a", "r1", local_projection("a".into(), 1), 1).unwrap();
    observe(&mut store, "room", "b", "r1", local_projection("b".into(), 2), 2).unwrap();
    observe(&mut store, "other", "a", "r1", local_projection("a".into(), 3), 3).unwrap();
    observe(&mut store, "room", "a", "r1", local_projection("a".into(), 4), 4).unwrap();
    assert_eq!(store.projection("room", "a", "r1").unwrap().observed_at, 4);
    assert_eq!(store.projection("room", "b", "r1").unwrap().observed_at, 2);
    store.remove_projection("room", "b", "r1");
    assert!(store.projection("room", "b", "r1").is_none());
    store.purge_room("room");
    assert!(store.projection("room", "a", "r1").is_none());
    assert_eq!(store.projection("other", "a", "r1").unwrap().observed_at, 3);
}

#[test]
fn diagnostic_projection_reports_readiness_as_bounded_facts() {
    let projection = diagnostic_projection(
        ProviderReadiness::NotConfigured,
        RuntimeReadiness::Selected,
        false,
        "peer".into(),
        5,
    );
    assert_eq!(
        projection.diagnostic_state(MANAGED_PROVIDER_CAPABILITY),
        DiagnosticState::NotConfigured
    );
    assert_eq!(
        projection.diagnostic_state(EXECUTION_WORLD_CAPABILITY),
        DiagnosticState::Unavailable
    );
    assert!(validate_projection(&projection, encoded_len(&projection)).is_ok());
}
