use pastey_physical::network::{
    classify_address, validate_endpoint_host, validate_network_budget_shape,
    validate_resolved_addresses, validate_scope_for_effect, IpAddressV1, NetworkBudgetSliceV1,
    NetworkDestinationBindingSpecV1, NetworkDnsModeV1, NetworkEffectV1, NetworkEndpointHostV1,
    NetworkProxyModeV1, NetworkScopeBindingSpecV1, NetworkScopeKindV1, NetworkTransportV1,
    NetworkVerbV1, SocketAddressV1, StagedNetworkExchangeV1, TCP_TRANSPORT_REF,
};

fn v4(a: u8, b: u8, c: u8, d: u8) -> IpAddressV1 {
    IpAddressV1::V4([a, b, c, d])
}

fn v6(s: [u16; 8]) -> IpAddressV1 {
    IpAddressV1::V6(s)
}

#[test]
fn addresses_fall_in_exactly_one_zone() {
    assert_eq!(classify_address(v4(127, 0, 0, 1)).unwrap(), NetworkScopeKindV1::Loopback);
    assert_eq!(classify_address(v4(10, 1, 2, 3)).unwrap(), NetworkScopeKindV1::Lan);
    assert_eq!(classify_address(v4(172, 16, 0, 1)).unwrap(), NetworkScopeKindV1::Lan);
    assert_eq!(classify_address(v4(172, 32, 0, 1)).unwrap(), NetworkScopeKindV1::Internet);
    assert_eq!(classify_address(v4(192, 168, 1, 1)).unwrap(), NetworkScopeKindV1::Lan);
    assert_eq!(classify_address(v4(169, 254, 1, 1)).unwrap(), NetworkScopeKindV1::Lan);
    assert_eq!(classify_address(v4(8, 8, 8, 8)).unwrap(), NetworkScopeKindV1::Internet);
    assert_eq!(classify_address(v6([0, 0, 0, 0, 0, 0, 0, 1])).unwrap(), NetworkScopeKindV1::Loopback);
    assert_eq!(classify_address(v6([0xfe80, 0, 0, 0, 0, 0, 0, 1])).unwrap(), NetworkScopeKindV1::Lan);
    assert_eq!(classify_address(v6([0xfd00, 0, 0, 0, 0, 0, 0, 1])).unwrap(), NetworkScopeKindV1::Lan);
    assert_eq!(
        classify_address(v6([0x2606, 0x4700, 0, 0, 0, 0, 0, 0x1111])).unwrap(),
        NetworkScopeKindV1::Internet
    );
}

#[test]
fn mapped_addresses_are_judged_as_ipv4() {
    // ::ffff:127.0.0.1 and ::ffff:192.168.0.1
    assert_eq!(
        classify_address(v6([0, 0, 0, 0, 0, 0xffff, 0x7f00, 0x0001])).unwrap(),
        NetworkScopeKindV1::Loopback
    );
    assert_eq!(
        classify_address(v6([0, 0, 0, 0, 0, 0xffff, 0xc0a8, 0x0001])).unwrap(),
        NetworkScopeKindV1::Lan
    );
    // ::ffff:0.0.0.0 is the unspecified IPv4 address.
    assert!(classify_address(v6([0, 0, 0, 0, 0, 0xffff, 0, 0])).is_err());
}

#[test]
fn void_and_special_addresses_are_refused_with_their_reason() {
    let void = "Unspecified and multicast endpoints are unavailable.";
    let special = "Broadcast, documentation, and special-use endpoints are unavailable.";
    assert_eq!(classify_address(v4(0, 0, 0, 0)).unwrap_err().message(), void);
    assert_eq!(classify_address(v4(224, 0, 0, 1)).unwrap_err().message(), void);
    assert_eq!(classify_address(v6([0; 8])).unwrap_err().message(), void);
    assert_eq!(classify_address(v6([0xff02, 0, 0, 0, 0, 0, 0, 1])).unwrap_err().message(), void);
    assert_eq!(classify_address(v4(255, 255, 255, 255)).unwrap_err().message(), special);
    assert_eq!(classify_address(v4(192, 0, 2, 1)).unwrap_err().message(), special);
    assert_eq!(classify_address(v4(100, 64, 0, 1)).unwrap_err().message(), special);
    assert_eq!(classify_address(v4(198, 18, 0, 1)).unwrap_err().message(), special);
    assert_eq!(classify_address(v4(0, 1, 2, 3)).unwrap_err().message(), special);
    assert_eq!(classify_address(v4(240, 0, 0, 1)).unwrap_err().message(), special);
    assert_eq!(
        classify_address(v6([0x2001, 0x0db8, 0, 0, 0, 0, 0, 1])).unwrap_err().message(),
        special
    );
    assert_eq!(classify_address(v6([0xfec0, 0, 0, 0, 0, 0, 0, 1])).unwrap_err().message(), special);
}

fn hostname(name: &str) -> NetworkEndpointHostV1 {
    NetworkEndpointHostV1::Hostname(name.into())
}

#[test]
fn hostnames_must_be_normalized_and_bounded() {
    for good in ["example.com", "a", "a-b.c0", "xn--bcher-kva.example", &"a".repeat(63)] {
        assert!(validate_endpoint_host(&hostname(good)).is_ok(), "{good}");
    }
    let long_label = "a".repeat(64);
    let long_name = ["a".repeat(63), "a".repeat(63), "a".repeat(63), "a".repeat(62)].join(".");
    assert_eq!(long_name.len(), 254);
    for bad in [
        "",
        "Example.com",
        " example.com",
        ".example.com",
        "example.com.",
        "a..b",
        "-a.b",
        "a-.b",
        "a.-b",
        "a_b",
        "a/b",
        "user@host",
        "host:80",
        "ex\u{e4}mple",
        long_label.as_str(),
        long_name.as_str(),
    ] {
        assert!(validate_endpoint_host(&hostname(bad)).is_err(), "{bad:?}");
    }
    assert!(validate_endpoint_host(&NetworkEndpointHostV1::Literal(v4(8, 8, 8, 8))).is_ok());
}

fn scope(kind: NetworkScopeKindV1, verbs: Vec<NetworkVerbV1>, dns: NetworkDnsModeV1) -> NetworkScopeBindingSpecV1 {
    NetworkScopeBindingSpecV1 {
        scope_ref: "scope-ref".into(),
        kind,
        allowed_verbs: verbs,
        transports: vec![NetworkTransportV1::Tcp],
        dns_mode: dns,
        proxy_mode: NetworkProxyModeV1::DirectOnly,
        expires_at: 100,
    }
}

fn destination(host: NetworkEndpointHostV1, zone: NetworkScopeKindV1) -> NetworkDestinationBindingSpecV1 {
    NetworkDestinationBindingSpecV1 {
        destination_ref: "destination-ref".into(),
        host,
        port: 443,
        transport: NetworkTransportV1::Tcp,
        expected_scope: zone,
        expires_at: 100,
    }
}

fn effect(verb: NetworkVerbV1, generation: bool, digest: bool) -> NetworkEffectV1 {
    NetworkEffectV1 {
        verb,
        resolution_generation_ref: generation.then(|| "generation".to_string()),
        request_digest: digest.then(|| "digest".to_string()),
    }
}

#[test]
fn scope_policy_keeps_zones_and_dns_independent() {
    assert!(scope(NetworkScopeKindV1::NameResolution, vec![NetworkVerbV1::Resolve], NetworkDnsModeV1::SystemPinned).validate_identity("scope-ref").is_ok());
    assert!(scope(NetworkScopeKindV1::Lan, vec![NetworkVerbV1::Connect, NetworkVerbV1::Bind], NetworkDnsModeV1::Denied).validate_identity("scope-ref").is_ok());
    assert!(scope(NetworkScopeKindV1::Internet, vec![NetworkVerbV1::Connect], NetworkDnsModeV1::Denied).validate_identity("scope-ref").is_ok());
    let identity = "Network scope identity or policy is invalid.";
    let mixed = "Network scope mixes independent zone or DNS authority.";
    assert_eq!(scope(NetworkScopeKindV1::Internet, vec![NetworkVerbV1::Connect], NetworkDnsModeV1::Denied).validate_identity("other").unwrap_err().message(), identity);
    assert_eq!(scope(NetworkScopeKindV1::Internet, vec![], NetworkDnsModeV1::Denied).validate_identity("scope-ref").unwrap_err().message(), identity);
    assert_eq!(scope(NetworkScopeKindV1::Internet, vec![NetworkVerbV1::Bind], NetworkDnsModeV1::Denied).validate_identity("scope-ref").unwrap_err().message(), mixed);
    assert_eq!(scope(NetworkScopeKindV1::NameResolution, vec![NetworkVerbV1::Connect], NetworkDnsModeV1::SystemPinned).validate_identity("scope-ref").unwrap_err().message(), mixed);
    assert_eq!(scope(NetworkScopeKindV1::NameResolution, vec![NetworkVerbV1::Resolve], NetworkDnsModeV1::Denied).validate_identity("scope-ref").unwrap_err().message(), mixed);
    assert_eq!(scope(NetworkScopeKindV1::Loopback, vec![NetworkVerbV1::Connect], NetworkDnsModeV1::SystemPinned).validate_identity("scope-ref").unwrap_err().message(), mixed);
}

#[test]
fn destinations_name_a_real_zone_their_literal_lies_in() {
    let literal = NetworkEndpointHostV1::Literal(v4(192, 168, 1, 10));
    assert!(destination(literal.clone(), NetworkScopeKindV1::Lan).validate_identity("destination-ref").is_ok());
    assert!(destination(literal.clone(), NetworkScopeKindV1::Internet).validate_identity("destination-ref").is_err());
    assert!(destination(literal, NetworkScopeKindV1::Lan).validate_identity("other").is_err());
    assert!(destination(hostname("example.com"), NetworkScopeKindV1::NameResolution)
        .validate_identity("destination-ref")
        .is_err());
    assert!(destination(hostname("example.com"), NetworkScopeKindV1::Internet).validate_identity("destination-ref").is_ok());
    assert!(destination(hostname("Example.com"), NetworkScopeKindV1::Internet).validate_identity("destination-ref").is_err());
    assert!(destination(NetworkEndpointHostV1::Literal(v4(0, 0, 0, 0)), NetworkScopeKindV1::Lan)
        .validate_identity("destination-ref")
        .is_err());
}

#[test]
fn each_verb_needs_its_own_scope_and_destination_shape() {
    let resolver = scope(NetworkScopeKindV1::NameResolution, vec![NetworkVerbV1::Resolve], NetworkDnsModeV1::SystemPinned);
    let internet = scope(NetworkScopeKindV1::Internet, vec![NetworkVerbV1::Connect], NetworkDnsModeV1::Denied);
    let lan = scope(NetworkScopeKindV1::Lan, vec![NetworkVerbV1::Connect, NetworkVerbV1::Bind], NetworkDnsModeV1::Denied);
    let named = destination(hostname("example.com"), NetworkScopeKindV1::Internet);
    let literal = destination(NetworkEndpointHostV1::Literal(v4(192, 168, 1, 10)), NetworkScopeKindV1::Lan);
    assert!(validate_scope_for_effect(&resolver, &named, &effect(NetworkVerbV1::Resolve, false, false)).is_ok());
    assert!(validate_scope_for_effect(&resolver, &named, &effect(NetworkVerbV1::Resolve, true, false)).is_err());
    assert!(validate_scope_for_effect(&internet, &named, &effect(NetworkVerbV1::Resolve, false, false)).is_err());
    assert!(validate_scope_for_effect(&internet, &named, &effect(NetworkVerbV1::Connect, true, true)).is_ok());
    assert!(validate_scope_for_effect(&internet, &named, &effect(NetworkVerbV1::Connect, false, false)).is_err());
    assert!(validate_scope_for_effect(&lan, &named, &effect(NetworkVerbV1::Connect, true, false)).is_err());
    assert!(validate_scope_for_effect(&lan, &literal, &effect(NetworkVerbV1::Connect, false, false)).is_ok());
    assert!(validate_scope_for_effect(&lan, &literal, &effect(NetworkVerbV1::Bind, false, false)).is_ok());
    assert!(validate_scope_for_effect(&lan, &literal, &effect(NetworkVerbV1::Bind, false, true)).is_err());
    assert!(validate_scope_for_effect(&internet, &named, &effect(NetworkVerbV1::Bind, false, false)).is_err());
}

fn budget(resolutions: u64, connections: u64, binds: u64, requests: u64, bytes: u64) -> NetworkBudgetSliceV1 {
    NetworkBudgetSliceV1 {
        requests: 1,
        network_time_millis: 1000,
        network_resolutions: resolutions,
        network_connections: connections,
        network_binds: binds,
        network_requests: requests,
        network_bytes: bytes,
    }
}

#[test]
fn budget_slices_have_the_exact_verb_shape() {
    let exchange = StagedNetworkExchangeV1 { request_bytes: vec![0; 100], max_response_bytes: 900 };
    assert!(validate_network_budget_shape(NetworkVerbV1::Resolve, &budget(1, 0, 0, 0, 0), None).is_ok());
    assert!(validate_network_budget_shape(NetworkVerbV1::Resolve, &budget(1, 1, 0, 0, 0), None).is_err());
    assert!(validate_network_budget_shape(NetworkVerbV1::Resolve, &budget(1, 0, 0, 0, 0), Some(&exchange)).is_err());
    assert!(validate_network_budget_shape(NetworkVerbV1::Connect, &budget(0, 1, 0, 0, 0), None).is_ok());
    assert!(validate_network_budget_shape(NetworkVerbV1::Connect, &budget(0, 1, 0, 1, 1000), Some(&exchange)).is_ok());
    assert!(validate_network_budget_shape(NetworkVerbV1::Connect, &budget(0, 1, 0, 1, 999), Some(&exchange)).is_err());
    assert!(validate_network_budget_shape(NetworkVerbV1::Connect, &budget(0, 1, 0, 0, 1000), Some(&exchange)).is_err());
    assert!(validate_network_budget_shape(NetworkVerbV1::Bind, &budget(0, 0, 1, 0, 0), None).is_ok());
    assert!(validate_network_budget_shape(NetworkVerbV1::Bind, &budget(0, 0, 1, 0, 1), None).is_err());
    let mut idle = budget(1, 0, 0, 0, 0);
    idle.network_time_millis = 0;
    assert_eq!(
        validate_network_budget_shape(NetworkVerbV1::Resolve, &idle, None).unwrap_err().message(),
        "Network effect requires one request and a non-zero time budget."
    );
}

fn sock(ip: IpAddressV1, port: u16) -> SocketAddressV1 {
    SocketAddressV1 { ip, port, flowinfo: 0, scope_id: 0 }
}

#[test]
fn resolved_addresses_are_filtered_sorted_and_deduplicated() {
    let answer = vec![
        sock(v4(93, 184, 216, 34), 443),
        sock(v6([0x2606, 0x2800, 0x220, 1, 0x248, 0x1893, 0x25c8, 0x1946]), 443),
        sock(v4(8, 8, 8, 8), 443),
        sock(v4(93, 184, 216, 34), 443),
        sock(v4(1, 1, 1, 1), 80),
    ];
    let out = validate_resolved_addresses(answer, NetworkScopeKindV1::Internet, 443).unwrap();
    assert_eq!(
        out,
        vec![
            sock(v4(8, 8, 8, 8), 443),
            sock(v4(93, 184, 216, 34), 443),
            sock(v6([0x2606, 0x2800, 0x220, 1, 0x248, 0x1893, 0x25c8, 0x1946]), 443),
        ]
    );
}

#[test]
fn resolution_crossing_zones_or_empty_is_refused() {
    let mixed = vec![sock(v4(8, 8, 8, 8), 443), sock(v4(10, 0, 0, 1), 443)];
    assert!(validate_resolved_addresses(mixed, NetworkScopeKindV1::Internet, 443).is_err());
    let other_port = vec![sock(v4(8, 8, 8, 8), 80)];
    assert!(validate_resolved_addresses(other_port, NetworkScopeKindV1::Internet, 443).is_err());
    // An address on another port does not count against the zone.
    let ignored = vec![sock(v4(8, 8, 8, 8), 443), sock(v4(10, 0, 0, 1), 80)];
    assert_eq!(
        validate_resolved_addresses(ignored, NetworkScopeKindV1::Internet, 443).unwrap(),
        vec![sock(v4(8, 8, 8, 8), 443)]
    );
}

#[test]
fn labels_and_transport_refs() {
    assert_eq!(NetworkScopeKindV1::NameResolution.label(), "name_resolution");
    assert_eq!(NetworkScopeKindV1::Internet.label(), "internet");
    assert_eq!(NetworkTransportV1::Tcp.transport_ref(), TCP_TRANSPORT_REF);
}
