use pastey_physical::error::AppError;
use pastey_physical::network::{
    IpAddressV1, NetworkBudgetSliceV1, NetworkDestinationBindingSpecV1, NetworkDnsModeV1,
    NetworkEndpointHostV1, NetworkProxyModeV1, NetworkScopeBindingSpecV1, NetworkScopeKindV1,
    NetworkTransportV1, NetworkVerbV1, SocketAddressV1, StagedNetworkExchangeV1,
    TCP_TRANSPORT_REF,
};
use pastey_physical::network_broker::{
    apply_plan, check_bound_endpoint, ApplyPlanV1,
    check_exchange_budget, check_fresh_resolution, check_response_size, staged_request_digest,
    GenerationPreconditionV1, NetworkBrokerLedgerV1, NetworkGrantV1, NetworkOwnerV1,
    NetworkRequestV1, NetworkRevocationV1, ResolutionPinV1,
};

const NOW: i64 = 1_000;

fn message(e: AppError) -> &'static str {
    e.message()
}

fn owner(run: &str) -> NetworkOwnerV1 {
    NetworkOwnerV1 {
        envelope_ref: format!("envelope-{run}"),
        run_ref: run.into(),
        context_ref: format!("context-{run}"),
        host_ref: "host-a".into(),
        bridge_id: "bridge-network".into(),
        session_binding_ref: "binding-a".into(),
    }
}

fn scope(
    scope_ref: &str,
    kind: NetworkScopeKindV1,
    verbs: &[NetworkVerbV1],
    dns: NetworkDnsModeV1,
) -> NetworkScopeBindingSpecV1 {
    NetworkScopeBindingSpecV1 {
        scope_ref: scope_ref.into(),
        kind,
        allowed_verbs: verbs.to_vec(),
        transports: vec![NetworkTransportV1::Tcp],
        dns_mode: dns,
        proxy_mode: NetworkProxyModeV1::DirectOnly,
        expires_at: 9_000,
    }
}

fn scopes() -> Vec<NetworkScopeBindingSpecV1> {
    vec![
        scope(
            "scope-name",
            NetworkScopeKindV1::NameResolution,
            &[NetworkVerbV1::Resolve],
            NetworkDnsModeV1::SystemPinned,
        ),
        scope(
            "scope-loopback",
            NetworkScopeKindV1::Loopback,
            &[NetworkVerbV1::Connect, NetworkVerbV1::Bind],
            NetworkDnsModeV1::Denied,
        ),
    ]
}

fn destinations() -> Vec<NetworkDestinationBindingSpecV1> {
    vec![
        NetworkDestinationBindingSpecV1 {
            destination_ref: "destination-localhost".into(),
            host: NetworkEndpointHostV1::Hostname("localhost".into()),
            port: 8080,
            transport: NetworkTransportV1::Tcp,
            expected_scope: NetworkScopeKindV1::Loopback,
            expires_at: 9_000,
        },
        NetworkDestinationBindingSpecV1 {
            destination_ref: "destination-loopback".into(),
            host: NetworkEndpointHostV1::Literal(IpAddressV1::V4([127, 0, 0, 1])),
            port: 9090,
            transport: NetworkTransportV1::Tcp,
            expected_scope: NetworkScopeKindV1::Loopback,
            expires_at: 9_000,
        },
    ]
}

fn refs<T>(items: &[T], f: impl Fn(&T) -> String) -> Vec<String> {
    items.iter().map(f).collect()
}

fn grant(run: &str) -> NetworkGrantV1 {
    NetworkGrantV1 {
        context_ref: format!("context-{run}"),
        run_control_ref: run.into(),
        host_ref: "host-a".into(),
        scope_refs: vec!["scope-loopback".into(), "scope-name".into()],
        allowed_verbs: vec![NetworkVerbV1::Resolve, NetworkVerbV1::Connect, NetworkVerbV1::Bind],
        destination_refs: vec!["destination-localhost".into(), "destination-loopback".into()],
        budgets_ref: "budgets-v1".into(),
        expires_at: 9_000,
    }
}

fn provisioned(run: &str) -> NetworkBrokerLedgerV1 {
    let mut ledger = NetworkBrokerLedgerV1::new();
    provision(&mut ledger, run).unwrap();
    ledger
}

fn provision(ledger: &mut NetworkBrokerLedgerV1, run: &str) -> Result<(), AppError> {
    let s = scopes();
    let d = destinations();
    let sr = refs(&s, |x| x.scope_ref.clone());
    let dr = refs(&d, |x| x.destination_ref.clone());
    ledger.provision(true, grant(run), owner(run), s, &sr, d, &dr, NOW)
}

fn budget(verb: NetworkVerbV1) -> NetworkBudgetSliceV1 {
    NetworkBudgetSliceV1 {
        requests: 1,
        network_time_millis: 500,
        network_resolutions: u64::from(verb == NetworkVerbV1::Resolve),
        network_connections: u64::from(verb == NetworkVerbV1::Connect),
        network_binds: u64::from(verb == NetworkVerbV1::Bind),
        network_requests: 0,
        network_bytes: 0,
    }
}

fn request(id: &str, verb: NetworkVerbV1, scope_ref: &str, destination_ref: &str) -> NetworkRequestV1 {
    NetworkRequestV1 {
        request_id: id.into(),
        verb,
        scope_ref: scope_ref.into(),
        destination_ref: destination_ref.into(),
        transport_ref: TCP_TRANSPORT_REF.into(),
        resolution_generation_ref: None,
        request_digest: None,
    }
}

#[test]
fn provisioning_accepts_exactly_the_granted_topology_once() {
    let mut ledger = provisioned("run-1");
    assert!(ledger.run_active("run-1"));
    assert_eq!(
        message(provision(&mut ledger, "run-1").unwrap_err()),
        "Network grant is revoked or already provisioned."
    );
    assert_eq!(ledger.run_refs_for_session("binding-a"), vec!["run-1".to_string()]);
    assert!(ledger.run_refs_for_session("binding-other").is_empty());
}

#[test]
fn provisioning_refusals_come_in_order() {
    let mut ledger = NetworkBrokerLedgerV1::new();
    let s = scopes();
    let d = destinations();
    let sr = refs(&s, |x| x.scope_ref.clone());
    let dr = refs(&d, |x| x.destination_ref.clone());
    let e = ledger
        .provision(false, grant("run-1"), owner("run-1"), s.clone(), &sr, d.clone(), &dr, NOW)
        .unwrap_err();
    assert_eq!(message(e), "Host network brokerage is unavailable.");
    let e = ledger
        .provision(true, grant("run-1"), owner("run-1"), Vec::new(), &Vec::new(), d.clone(), &dr, NOW)
        .unwrap_err();
    assert_eq!(message(e), "Network scope bindings are empty.");
    let e = ledger
        .provision(true, grant("run-1"), owner("run-1"), s.clone(), &sr, Vec::new(), &Vec::new(), NOW)
        .unwrap_err();
    assert_eq!(message(e), "Network destination bindings are empty.");
    let wrong_refs = vec!["scope-other".to_string(), "scope-loopback".to_string()];
    let e = ledger
        .provision(true, grant("run-1"), owner("run-1"), s.clone(), &wrong_refs, d.clone(), &dr, NOW)
        .unwrap_err();
    assert_eq!(message(e), "Network scope identity or policy is invalid.");
    let mut outliving = s.clone();
    outliving[1].expires_at = 9_001;
    let e = ledger
        .provision(true, grant("run-1"), owner("run-1"), outliving, &sr, d.clone(), &dr, NOW)
        .unwrap_err();
    assert_eq!(message(e), "Network scope binding widens or duplicates its grant.");
    let mut narrow = grant("run-1");
    narrow.allowed_verbs = vec![NetworkVerbV1::Resolve, NetworkVerbV1::Connect];
    let e = ledger
        .provision(true, narrow, owner("run-1"), s.clone(), &sr, d.clone(), &dr, NOW)
        .unwrap_err();
    assert_eq!(message(e), "Network scope binding widens or duplicates its grant.");
    let mut crossed = d.clone();
    crossed[1].expected_scope = NetworkScopeKindV1::Lan;
    let e = ledger
        .provision(true, grant("run-1"), owner("run-1"), s.clone(), &sr, crossed, &dr, NOW)
        .unwrap_err();
    assert_eq!(message(e), "Literal destination does not match its exact network scope.");
    let mut wide = grant("run-1");
    wide.destination_refs.push("destination-extra".into());
    let e = ledger
        .provision(true, wide, owner("run-1"), s.clone(), &sr, d.clone(), &dr, NOW)
        .unwrap_err();
    assert_eq!(message(e), "Host-resolved network topology does not exactly match the grant.");
    let mut elsewhere = owner("run-1");
    elsewhere.host_ref = "host-b".into();
    let e = ledger
        .provision(true, grant("run-1"), elsewhere, s, &sr, d, &dr, NOW)
        .unwrap_err();
    assert_eq!(message(e), "Host-resolved network topology does not exactly match the grant.");
    assert!(!ledger.run_active("run-1"));
}

#[test]
fn a_staged_request_applies_exactly_once() {
    let mut ledger = provisioned("run-1");
    let bind = request("request-bind", NetworkVerbV1::Bind, "scope-loopback", "destination-loopback");
    ledger
        .prepare_request(bind.clone(), &owner("run-1"), &grant("run-1"), &budget(NetworkVerbV1::Bind), None, NOW)
        .unwrap();
    let replay = ledger
        .prepare_request(bind, &owner("run-1"), &grant("run-1"), &budget(NetworkVerbV1::Bind), None, NOW)
        .unwrap_err();
    assert_eq!(message(replay), "Network request widens, substitutes, or replays its binding.");
    let staged = ledger.take_staged(&owner("run-1"), "request-bind").unwrap();
    assert_eq!(staged.request.destination_ref, "destination-loopback");
    assert_eq!(staged.logical_now, NOW);
    assert_eq!(
        message(ledger.take_staged(&owner("run-1"), "request-bind").unwrap_err()),
        "Exact staged network request is unavailable."
    );
    let (scope, destination) = ledger
        .bound_specs(&owner("run-1"), "scope-loopback", "destination-loopback")
        .unwrap();
    assert_eq!(scope.kind, NetworkScopeKindV1::Loopback);
    assert_eq!(destination.port, 9090);
}

#[test]
fn requests_outside_their_bindings_fail_before_any_socket() {
    let mut ledger = provisioned("run-1");
    let run = owner("run-1");
    let g = grant("run-1");
    let unknown = request("r1", NetworkVerbV1::Connect, "scope-other", "destination-loopback");
    assert_eq!(
        message(ledger.prepare_request(unknown, &run, &g, &budget(NetworkVerbV1::Connect), None, NOW).unwrap_err()),
        "Network scope resolution is unavailable."
    );
    let resolve_outside = request("r2", NetworkVerbV1::Resolve, "scope-loopback", "destination-localhost");
    assert_eq!(
        message(
            ledger
                .prepare_request(resolve_outside, &run, &g, &budget(NetworkVerbV1::Resolve), None, NOW)
                .unwrap_err()
        ),
        "Network request widens, substitutes, or replays its binding."
    );
    let resolve_literal = request("r5", NetworkVerbV1::Resolve, "scope-name", "destination-loopback");
    assert_eq!(
        message(
            ledger
                .prepare_request(resolve_literal, &run, &g, &budget(NetworkVerbV1::Resolve), None, NOW)
                .unwrap_err()
        ),
        "Network verb, DNS, and destination scope are not independently aligned."
    );
    let hostname_without_pin =
        request("r3", NetworkVerbV1::Connect, "scope-loopback", "destination-localhost");
    assert_eq!(
        message(
            ledger
                .prepare_request(hostname_without_pin, &run, &g, &budget(NetworkVerbV1::Connect), None, NOW)
                .unwrap_err()
        ),
        "Network verb, DNS, and destination scope are not independently aligned."
    );
    let mut substituted = owner("run-1");
    substituted.session_binding_ref = "binding-b".into();
    let bind = request("r4", NetworkVerbV1::Bind, "scope-loopback", "destination-loopback");
    assert_eq!(
        message(
            ledger
                .prepare_request(bind.clone(), &substituted, &g, &budget(NetworkVerbV1::Bind), None, NOW)
                .unwrap_err()
        ),
        "Brokered network request owner context was substituted."
    );
    let mut changed = grant("run-1");
    changed.budgets_ref = "budgets-v2".into();
    assert_eq!(
        message(
            ledger
                .prepare_request(bind.clone(), &run, &changed, &budget(NetworkVerbV1::Bind), None, NOW)
                .unwrap_err()
        ),
        "Network request widens, substitutes, or replays its binding."
    );
    assert_eq!(
        message(
            ledger
                .prepare_request(bind.clone(), &run, &g, &budget(NetworkVerbV1::Connect), None, NOW)
                .unwrap_err()
        ),
        "Network budget slice is inconsistent with the exact broker verb."
    );
    let mut digest_only = bind;
    digest_only.request_digest = Some("pastey-network-request-bytes-v1:00".into());
    assert_eq!(
        message(
            ledger
                .prepare_request(digest_only, &run, &g, &budget(NetworkVerbV1::Bind), None, NOW)
                .unwrap_err()
        ),
        "Network request bytes were not staged."
    );
}

#[test]
fn staged_bytes_must_match_their_declared_digest() {
    let exchange = StagedNetworkExchangeV1 {
        request_bytes: b"GET / HTTP/1.0\r\n\r\n".to_vec(),
        max_response_bytes: 4096,
    };
    let pair = (
        blake3::hash(&exchange.request_bytes).to_hex().to_string(),
        exchange.max_response_bytes,
    );
    let mut hasher = blake3::Hasher::new();
    hasher.update(b"pastey-network-request-bytes-v1");
    hasher.update(b"\0");
    hasher.update(&serde_json::to_vec(&pair).unwrap());
    let expected = format!("pastey-network-request-bytes-v1:{}", hasher.finalize().to_hex());
    assert_eq!(staged_request_digest(&exchange), expected);

    let mut ledger = provisioned("run-1");
    let mut connect = request("c1", NetworkVerbV1::Connect, "scope-loopback", "destination-loopback");
    let mut slice = budget(NetworkVerbV1::Connect);
    slice.network_requests = 1;
    slice.network_bytes = 10_000;
    connect.request_digest = Some("pastey-network-request-bytes-v1:00".into());
    let e = ledger
        .prepare_request(connect.clone(), &owner("run-1"), &grant("run-1"), &slice, Some(exchange.clone()), NOW)
        .unwrap_err();
    assert_eq!(message(e), "Staged network request bytes are oversized or mismatched.");
    connect.request_digest = Some(expected);
    ledger
        .prepare_request(connect, &owner("run-1"), &grant("run-1"), &slice, Some(exchange), NOW)
        .unwrap();
    let staged = ledger.take_staged(&owner("run-1"), "c1").unwrap();
    assert_eq!(staged.exchange.unwrap().max_response_bytes, 4096);
}

fn loopback(port: u16) -> SocketAddressV1 {
    SocketAddressV1 { ip: IpAddressV1::V4([127, 0, 0, 1]), port, flowinfo: 0, scope_id: 0 }
}

#[test]
fn hostname_connections_use_exactly_the_pinned_resolution() {
    let mut ledger = provisioned("run-1");
    let pin = ResolutionPinV1 {
        destination_ref: "destination-localhost".into(),
        scope_ref: "scope-name".into(),
        generation_ref: "generation-1".into(),
        addresses: vec![loopback(8080)],
    };
    assert_eq!(
        message(ledger.pin_resolution("run-1", "context-other", pin.clone()).unwrap_err()),
        "Network grant was revoked during resolution."
    );
    let preconditions = vec![GenerationPreconditionV1 {
        scope_ref: "scope-name".into(),
        generation_ref: "generation-1".into(),
    }];
    assert_eq!(
        message(
            ledger
                .connect_pin("run-1", "destination-localhost", &Some("generation-1".into()), &preconditions)
                .unwrap_err()
        ),
        "Hostname connection lacks a pinned resolution."
    );
    ledger.pin_resolution("run-1", "context-run-1", pin).unwrap();
    let pinned = ledger
        .connect_pin("run-1", "destination-localhost", &Some("generation-1".into()), &preconditions)
        .unwrap()
        .clone();
    assert_eq!(pinned.addresses, vec![loopback(8080)]);
    assert_eq!(
        message(
            ledger
                .connect_pin("run-1", "destination-localhost", &Some("generation-0".into()), &preconditions)
                .unwrap_err()
        ),
        "Hostname connection substituted its resolution generation."
    );
    assert_eq!(
        message(
            ledger
                .connect_pin("run-1", "destination-localhost", &Some("generation-1".into()), &Vec::new())
                .unwrap_err()
        ),
        "Hostname connection substituted its resolution generation."
    );
    assert!(check_fresh_resolution(&pinned, &vec![loopback(8080)], "generation-1").is_ok());
    assert_eq!(
        message(check_fresh_resolution(&pinned, &vec![loopback(8081)], "generation-1").unwrap_err()),
        "DNS resolution changed before connect."
    );
    assert_eq!(
        message(check_fresh_resolution(&pinned, &vec![loopback(8080)], "generation-2").unwrap_err()),
        "DNS resolution changed before connect."
    );
    let replaced = ResolutionPinV1 {
        destination_ref: "destination-localhost".into(),
        scope_ref: "scope-name".into(),
        generation_ref: "generation-2".into(),
        addresses: vec![loopback(8080)],
    };
    ledger.pin_resolution("run-1", "context-run-1", replaced).unwrap();
    assert!(ledger
        .connect_pin("run-1", "destination-localhost", &Some("generation-1".into()), &preconditions)
        .is_err());
}

#[test]
fn revocation_by_run_bridge_session_or_expiry_is_final() {
    for scope in [
        NetworkRevocationV1::Run("run-1".into()),
        NetworkRevocationV1::Bridge("bridge-network".into()),
        NetworkRevocationV1::Session("binding-a".into()),
        NetworkRevocationV1::All,
        NetworkRevocationV1::ExpiredAt(9_000),
    ] {
        let mut ledger = provisioned("run-1");
        assert_eq!(ledger.revoke(&scope), vec!["run-1".to_string()]);
        assert!(!ledger.run_active("run-1"));
        let bind = request("after", NetworkVerbV1::Bind, "scope-loopback", "destination-loopback");
        assert_eq!(
            message(
                ledger
                    .prepare_request(bind, &owner("run-1"), &grant("run-1"), &budget(NetworkVerbV1::Bind), None, NOW)
                    .unwrap_err()
            ),
            "Network grant resolution is unavailable."
        );
        assert_eq!(
            message(provision(&mut ledger, "run-1").unwrap_err()),
            "Network grant is revoked or already provisioned."
        );
    }
}

#[test]
fn revocation_leaves_other_runs_and_expiry_is_reconciled_before_staging() {
    let mut ledger = provisioned("run-1");
    provision(&mut ledger, "run-2").unwrap();
    assert!(ledger.revoke(&NetworkRevocationV1::Run("run-3".into())).is_empty());
    assert_eq!(
        ledger.revoke(&NetworkRevocationV1::Run("run-1".into())),
        vec!["run-1".to_string()]
    );
    assert!(ledger.run_active("run-2"));
    let bind = request("late", NetworkVerbV1::Bind, "scope-loopback", "destination-loopback");
    let e = ledger
        .prepare_request(bind, &owner("run-2"), &grant("run-2"), &budget(NetworkVerbV1::Bind), None, 9_000)
        .unwrap_err();
    assert_eq!(message(e), "Network grant resolution is unavailable.");
    assert!(!ledger.run_active("run-2"));
}

#[test]
fn exchanged_bytes_stay_within_their_reservation() {
    assert!(check_response_size(4096, 4096).is_ok());
    assert_eq!(
        message(check_response_size(4097, 4096).unwrap_err()),
        "Brokered response exceeded its reserved byte budget."
    );
    assert!(check_exchange_budget(100, 200, 300).is_ok());
    assert_eq!(
        message(check_exchange_budget(100, 201, 300).unwrap_err()),
        "Brokered network bytes exceeded the reserved budget."
    );
    assert_eq!(
        message(check_exchange_budget(u64::MAX, 1, u64::MAX - 1).unwrap_err()),
        "Brokered network bytes exceeded the reserved budget."
    );
    assert!(check_exchange_budget(u64::MAX, 1, u64::MAX).is_ok());
}

#[test]
fn connection_request_byte_and_time_budget_shapes_fail_closed() {
    let mut ledger = provisioned("run-1");
    let exchange = StagedNetworkExchangeV1 {
        request_bytes: b"hello".to_vec(),
        max_response_bytes: 5,
    };
    let digest = staged_request_digest(&exchange);
    let base = NetworkBudgetSliceV1 {
        requests: 0,
        network_time_millis: 0,
        network_resolutions: 0,
        network_connections: 0,
        network_binds: 0,
        network_requests: 0,
        network_bytes: 0,
    };
    let cases = [
        NetworkBudgetSliceV1 { requests: 1, network_time_millis: 100, ..base },
        NetworkBudgetSliceV1 {
            requests: 1,
            network_connections: 1,
            network_bytes: 10,
            network_time_millis: 100,
            ..base
        },
        NetworkBudgetSliceV1 {
            requests: 1,
            network_connections: 1,
            network_requests: 1,
            network_bytes: 9,
            network_time_millis: 100,
            ..base
        },
        NetworkBudgetSliceV1 {
            requests: 1,
            network_connections: 1,
            network_requests: 1,
            network_bytes: 10,
            network_time_millis: 0,
            ..base
        },
    ];
    for (i, slice) in cases.iter().enumerate() {
        let mut connect = request(
            &format!("connect-{i}"),
            NetworkVerbV1::Connect,
            "scope-loopback",
            "destination-loopback",
        );
        connect.request_digest = Some(digest.clone());
        assert!(ledger
            .prepare_request(connect, &owner("run-1"), &grant("run-1"), slice, Some(exchange.clone()), NOW)
            .is_err());
    }
}

#[test]
fn cancellation_burn_expiry_and_session_substitution_revoke_broker_state() {
    for lifecycle in ["cancel", "burn", "expiry", "session"] {
        let mut ledger = provisioned("run-1");
        let mut run_owner = owner("run-1");
        let mut now = NOW;
        match lifecycle {
            "cancel" => {
                ledger.revoke(&NetworkRevocationV1::Run("run-1".into()));
            }
            "burn" => {
                ledger.revoke(&NetworkRevocationV1::Bridge("bridge-network".into()));
            }
            "expiry" => now = grant("run-1").expires_at,
            "session" => run_owner.session_binding_ref = "substituted-local-session".into(),
            _ => unreachable!(),
        }
        let bind = request("bind", NetworkVerbV1::Bind, "scope-loopback", "destination-loopback");
        assert!(ledger
            .prepare_request(bind, &run_owner, &grant("run-1"), &budget(NetworkVerbV1::Bind), None, now)
            .is_err());
    }
}

#[test]
fn socket_work_follows_the_verb_and_the_destination_form() {
    let d = destinations();
    assert_eq!(
        apply_plan(NetworkVerbV1::Resolve, &d[0]).unwrap(),
        ApplyPlanV1::Resolve("localhost".into(), 8080)
    );
    assert_eq!(
        message(apply_plan(NetworkVerbV1::Resolve, &d[1]).unwrap_err()),
        "Literal destinations do not require name resolution."
    );
    assert_eq!(
        apply_plan(NetworkVerbV1::Connect, &d[1]).unwrap(),
        ApplyPlanV1::ConnectLiteral(loopback(9090))
    );
    assert_eq!(
        apply_plan(NetworkVerbV1::Connect, &d[0]).unwrap(),
        ApplyPlanV1::ConnectPinned("localhost".into(), 8080)
    );
    assert_eq!(apply_plan(NetworkVerbV1::Bind, &d[1]).unwrap(), ApplyPlanV1::Bind(loopback(9090)));
    assert_eq!(
        message(apply_plan(NetworkVerbV1::Bind, &d[0]).unwrap_err()),
        "Brokered bind requires an exact literal Host address."
    );
}

#[test]
fn bound_endpoints_stay_in_their_zone_and_revoked_runs_drop_their_work() {
    assert!(check_bound_endpoint(loopback(4000), NetworkScopeKindV1::Loopback).is_ok());
    assert_eq!(
        message(check_bound_endpoint(loopback(4000), NetworkScopeKindV1::NameResolution).unwrap_err()),
        "Brokered bind produced an endpoint outside its scope."
    );
    let mut ledger = provisioned("run-1");
    assert!(ledger.check_still_active("run-1", NetworkVerbV1::Connect).is_ok());
    ledger.revoke(&NetworkRevocationV1::Run("run-1".into()));
    assert_eq!(
        message(ledger.check_still_active("run-1", NetworkVerbV1::Bind).unwrap_err()),
        "Network run was revoked during bind."
    );
    assert_eq!(
        message(ledger.check_still_active("run-1", NetworkVerbV1::Connect).unwrap_err()),
        "Network run was revoked during connect."
    );
}
