use pastey_physical::error::AppError;
use pastey_physical::identity::{HostRef, HostSessionBinding};
use pastey_physical::native_v2::{NativeV2ObjectRevisionDtoV1, NativeV2ProductStateV1};
use pastey_physical::native_v2_product::{
    local_readiness, local_unavailable_code, native_text, requester_has_local_step, step_completion_ref,
    step_result_completion_ref, step_result_semantic_bytes,
    validate_revision, AdmissionStateV1, DispatchKindV1, HostPreparationV1, InterruptScopeV1,
    LocalReadinessV1, NativeV2PreparedV1, NativeV2ProductLedgerV1, NativeV2ReadinessV1,
    NativeV2StepFailureV1, NativeV2StepResultV1, PlanParticipantV1, PlanRevisionV1, PlanStepV1,
    ProductDispatchV1, ProductSessionV1, ReadinessStateV1, StepStateV1,
};
use pastey_physical::natural_v2::StepOperation;

const NOW: i64 = 1_700_000_000;
const PROTOCOL: &str = "bridge-plan-v2";

fn host(value: &str) -> HostRef {
    HostRef::from_device_id(value).unwrap()
}

fn message(e: AppError) -> &'static str {
    e.message()
}

fn object(revision: u64) -> NativeV2ObjectRevisionDtoV1 {
    NativeV2ObjectRevisionDtoV1 {
        logical_object_id: format!("managed-object:v1:{}", "a".repeat(64)),
        revision,
    }
}

fn participant(name: &str, host_ref: &HostRef) -> PlanParticipantV1 {
    PlanParticipantV1 {
        participant_ref: format!("participant-{name}"),
        host_ref: host_ref.as_str().to_string(),
    }
}

fn step(
    id: &str,
    operation: StepOperation,
    completer: &str,
    dependencies: &[&str],
    output: Option<NativeV2ObjectRevisionDtoV1>,
) -> PlanStepV1 {
    PlanStepV1 {
        step_id: id.to_string(),
        operation,
        completer: format!("participant-{completer}"),
        dependencies: dependencies.iter().map(|d| d.to_string()).collect(),
        output,
    }
}

/// Transform on B, move explicitly from B to C, execute on C; A requests.
fn revision() -> PlanRevisionV1 {
    PlanRevisionV1 {
        plan_id: "plan-native-v2".into(),
        revision_id: "revision-native-v2".into(),
        revision_hash: "bridge-plan-revision-hash-v2:abc".into(),
        bridge_id: "bridge-native-v2".into(),
        requester: "participant-a".into(),
        participants: vec![
            participant("a", &host("a")),
            participant("b", &host("b")),
            participant("c", &host("c")),
        ],
        steps: vec![
            step("transform-b", StepOperation::Transform, "b", &[], Some(object(2))),
            step("transfer-b-c", StepOperation::Transfer, "b", &["transform-b"], Some(object(2))),
            step("execute-c", StepOperation::Execute, "c", &["transfer-b-c"], None),
        ],
    }
}

fn session(peer: &str, expires_at: i64) -> ProductSessionV1 {
    ProductSessionV1 {
        binding_ref: format!("binding-{peer}"),
        binding: HostSessionBinding::new(
            "bridge-native-v2",
            host("a"),
            host(peer),
            &format!("requester-session-{peer}"),
            &format!("receiver-session-{peer}"),
            &format!("route-{peer}"),
            expires_at,
        )
        .unwrap(),
    }
}

fn live() -> Vec<HostSessionBinding> {
    vec![session("b", NOW + 1_000).binding, session("c", NOW + 1_000).binding]
}

fn preparations() -> Vec<HostPreparationV1> {
    vec![
        HostPreparationV1::Local(LocalReadinessV1::Ready),
        HostPreparationV1::Peer(session("b", NOW + 1_000), "correlation-b".into()),
        HostPreparationV1::Peer(session("c", NOW + 1_000), "correlation-c".into()),
    ]
}

fn approved() -> NativeV2ProductLedgerV1 {
    let mut ledger = NativeV2ProductLedgerV1::new(PROTOCOL.into());
    ledger
        .create_draft(revision(), host("a").as_str(), true, NOW)
        .unwrap();
    ledger
        .approve("revision-native-v2", "approval-native-v2", NOW + 1_000, NOW)
        .unwrap();
    ledger
}

fn checking() -> NativeV2ProductLedgerV1 {
    let mut ledger = approved();
    ledger
        .prepare_attempt(
            "approval-native-v2",
            "attempt-native-v2",
            NOW + 1_000,
            NOW,
            host("a").as_str(),
            &preparations(),
        )
        .unwrap();
    ledger
}

fn readiness(peer: &str, ready: bool, code: Option<&str>) -> NativeV2ReadinessV1 {
    NativeV2ReadinessV1 {
        protocol_version: PROTOCOL.into(),
        message_id: format!("readiness-result-{peer}"),
        correlation_id: format!("correlation-{peer}"),
        attempt_id: "attempt-native-v2".into(),
        approval_id: "approval-native-v2".into(),
        plan_id: "plan-native-v2".into(),
        revision_id: "revision-native-v2".into(),
        revision_hash: "bridge-plan-revision-hash-v2:abc".into(),
        bridge_id: "bridge-native-v2".into(),
        participant: format!("participant-{peer}"),
        host_ref: host(peer).as_str().to_string(),
        session_binding_ref: format!("binding-{peer}"),
        ready,
        code: code.map(|c| c.to_string()),
        expires_at: NOW + 500,
    }
}

fn prepared(peer: &str) -> NativeV2PreparedV1 {
    NativeV2PreparedV1 {
        protocol_version: PROTOCOL.into(),
        message_id: format!("prepared-{peer}"),
        correlation_id: format!("correlation-{peer}"),
        attempt_id: "attempt-native-v2".into(),
        approval_id: "approval-native-v2".into(),
        plan_id: "plan-native-v2".into(),
        revision_id: "revision-native-v2".into(),
        revision_hash: "bridge-plan-revision-hash-v2:abc".into(),
        bridge_id: "bridge-native-v2".into(),
        participant: format!("participant-{peer}"),
        host_ref: host(peer).as_str().to_string(),
        admission_ref: format!("admission-{peer}"),
        session_binding_ref: format!("binding-{peer}"),
        expires_at: NOW + 500,
    }
}

fn running() -> NativeV2ProductLedgerV1 {
    let mut ledger = checking();
    for peer in ["b", "c"] {
        ledger
            .accept_readiness(
                readiness(peer, true, None),
                &session(peer, NOW + 1_000),
                host("a").as_str(),
                &live(),
                NOW + 1,
            )
            .unwrap();
    }
    for peer in ["b", "c"] {
        ledger
            .accept_prepared(prepared(peer), &session(peer, NOW + 1_000), &live(), NOW + 2)
            .unwrap();
    }
    ledger
}

fn result(peer: &str, step_id: &str, operation: StepOperation) -> NativeV2StepResultV1 {
    let execute = matches!(operation, StepOperation::Execute);
    let mut r = NativeV2StepResultV1 {
        protocol_version: PROTOCOL.into(),
        message_id: format!("result-{step_id}"),
        attempt_id: "attempt-native-v2".into(),
        approval_id: "approval-native-v2".into(),
        plan_id: "plan-native-v2".into(),
        revision_id: "revision-native-v2".into(),
        revision_hash: "bridge-plan-revision-hash-v2:abc".into(),
        bridge_id: "bridge-native-v2".into(),
        step_id: step_id.into(),
        operation,
        participant: format!("participant-{peer}"),
        host_ref: host(peer).as_str().to_string(),
        object: if execute { None } else { Some(object(2)) },
        content_digest: if execute { None } else { Some("content-digest".into()) },
        result_digest: if execute { Some("result-digest".into()) } else { None },
        session_binding_ref: format!("binding-{peer}"),
        completion_ref: String::new(),
        completed_at: NOW + 3,
    };
    r.completion_ref = step_result_completion_ref(&r);
    r
}

fn complete(
    ledger: &mut NativeV2ProductLedgerV1,
    peer: &str,
    step_id: &str,
    operation: StepOperation,
) -> Result<Vec<ProductDispatchV1>, AppError> {
    ledger.accept_step_result(
        result(peer, step_id, operation),
        &session(peer, NOW + 1_000),
        host("a").as_str(),
        &live(),
        NOW + 3,
    )
}

fn step_state(ledger: &NativeV2ProductLedgerV1, step_id: &str) -> StepStateV1 {
    let attempt = ledger.attempt("attempt-native-v2").unwrap();
    attempt
        .steps
        .iter()
        .find(|s| s.step_id == step_id)
        .unwrap()
        .state
}

fn attempt_state(ledger: &NativeV2ProductLedgerV1) -> (NativeV2ProductStateV1, Option<String>) {
    let attempt = ledger.attempt("attempt-native-v2").unwrap();
    (attempt.state, attempt.failure_code.clone())
}

fn kinds(dispatches: &[ProductDispatchV1]) -> Vec<(String, String, DispatchKindV1)> {
    dispatches
        .iter()
        .map(|d| (d.participant_ref.clone(), d.peer_route_ref.clone(), d.kind))
        .collect()
}

#[test]
fn requester_local_primitives_fail_readiness_until_self_admission_exists() {
    let a = host("a");
    let b = host("b");
    let c = host("c");
    let revision = PlanRevisionV1 {
        plan_id: "requester-local-plan".into(),
        revision_id: "requester-local-revision".into(),
        revision_hash: "bridge-plan-revision-hash-v2:local".into(),
        bridge_id: "bridge-native-v2".into(),
        requester: "participant-a".into(),
        participants: vec![participant("a", &a), participant("b", &b)],
        steps: vec![
            step("search-a", StepOperation::Search, "a", &[], Some(object(1))),
            step("transfer-a-b", StepOperation::Transfer, "a", &["search-a"], Some(object(1))),
        ],
    };
    assert!(validate_revision(&revision).is_ok());
    assert!(requester_has_local_step(&revision, &revision.requester, a.as_str()));
    assert!(!requester_has_local_step(&revision, &revision.requester, c.as_str()));
}

#[test]
fn requester_self_execution_refuses_the_attempt() {
    let a = host("a");
    let b = host("b");
    let revision = PlanRevisionV1 {
        plan_id: "requester-local-plan".into(),
        revision_id: "requester-local-revision".into(),
        revision_hash: "bridge-plan-revision-hash-v2:local".into(),
        bridge_id: "bridge-native-v2".into(),
        requester: "participant-a".into(),
        participants: vec![participant("a", &a), participant("b", &b)],
        steps: vec![
            step("search-a", StepOperation::Search, "a", &[], Some(object(1))),
            step("transfer-a-b", StepOperation::Transfer, "a", &["search-a"], Some(object(1))),
        ],
    };
    let mut ledger = NativeV2ProductLedgerV1::new(PROTOCOL.into());
    ledger.create_draft(revision, a.as_str(), true, NOW).unwrap();
    ledger
        .approve("requester-local-revision", "approval-local", NOW + 1_000, NOW)
        .unwrap();
    let error = ledger
        .prepare_attempt(
            "approval-local",
            "attempt-local",
            NOW + 1_000,
            NOW,
            a.as_str(),
            &vec![
                HostPreparationV1::Local(LocalReadinessV1::Ready),
                HostPreparationV1::Peer(session("b", NOW + 1_000), "correlation-b".into()),
            ],
        )
        .unwrap_err();
    assert_eq!(message(error), "requester_self_execution_unavailable");
    assert!(ledger.attempt("attempt-local").is_none());
}

#[test]
fn exact_completion_unlocks_only_the_authored_dependency_chain() {
    let mut ledger = running();
    assert_eq!(step_state(&ledger, "transform-b"), StepStateV1::Eligible);
    assert_eq!(step_state(&ledger, "transfer-b-c"), StepStateV1::Pending);
    assert_eq!(step_state(&ledger, "execute-c"), StepStateV1::Pending);

    complete(&mut ledger, "b", "transform-b", StepOperation::Transform).unwrap();
    assert_eq!(step_state(&ledger, "transform-b"), StepStateV1::Completed);
    assert_eq!(step_state(&ledger, "transfer-b-c"), StepStateV1::Eligible);
    assert_eq!(step_state(&ledger, "execute-c"), StepStateV1::Pending);
}

#[test]
fn one_receivers_local_readiness_rejection_fails_the_whole_plan_barrier() {
    let mut ledger = checking();
    let events = ledger
        .accept_readiness(
            readiness("b", false, Some("managed_platform_unavailable")),
            &session("b", NOW + 1_000),
            host("a").as_str(),
            &live(),
            NOW + 1,
        )
        .unwrap();
    assert!(events.is_empty());
    assert_eq!(
        attempt_state(&ledger),
        (NativeV2ProductStateV1::Failed, Some("whole_plan_unavailable".into()))
    );
    let attempt = ledger.attempt("attempt-native-v2").unwrap();
    let states: Vec<(String, ReadinessStateV1)> = attempt
        .hosts
        .iter()
        .map(|h| (h.participant_ref.clone(), h.readiness))
        .collect();
    assert!(states.contains(&("participant-b".into(), ReadinessStateV1::Unavailable)));
    assert!(states.contains(&("participant-c".into(), ReadinessStateV1::Pending)));
    let status = ledger.status_for_revision("revision-native-v2").unwrap();
    assert_eq!(status.state, NativeV2ProductStateV1::Failed);
    assert_eq!(status.code.as_deref(), Some("whole_plan_unavailable"));
}

#[test]
fn session_revocation_interrupts_attempt_and_rejects_late_continuation_state() {
    let mut ledger = running();
    assert_eq!(
        ledger.interrupt_attempts(
            &InterruptScopeV1::Session("binding-b".into()),
            "session_revoked",
            NOW + 1
        ),
        1
    );
    assert_eq!(
        attempt_state(&ledger),
        (NativeV2ProductStateV1::Interrupted, Some("session_revoked".into()))
    );
    let attempt = ledger.attempt("attempt-native-v2").unwrap();
    assert_eq!(
        attempt
            .steps
            .iter()
            .filter(|s| s.state == StepStateV1::Eligible)
            .count(),
        0
    );
    let late = complete(&mut ledger, "b", "transform-b", StepOperation::Transform).unwrap_err();
    assert_eq!(message(late), "Native v2 step result is late or unknown.");
}

#[test]
fn draft_status_counts_the_revision_steps() {
    let mut ledger = NativeV2ProductLedgerV1::new(PROTOCOL.into());
    let status = ledger
        .create_draft(revision(), host("a").as_str(), true, NOW)
        .unwrap();
    assert_eq!(status.schema_version, "pastey-native-v2-product-v1");
    assert_eq!(status.plan_id, "plan-native-v2");
    assert_eq!(status.state, NativeV2ProductStateV1::Draft);
    assert_eq!(status.approval_id, None);
    assert_eq!(status.attempt_id, None);
    assert_eq!((status.completed_steps, status.total_steps), (0, 3));
    assert_eq!((status.ready_hosts, status.total_hosts), (0, 0));
    assert_eq!(status.updated_at, NOW);
}

#[test]
fn draft_refusals_come_in_order() {
    let mut ledger = NativeV2ProductLedgerV1::new(PROTOCOL.into());
    let mut unsorted = revision();
    unsorted.participants.swap(0, 1);
    assert_eq!(
        message(ledger.create_draft(unsorted, host("a").as_str(), true, NOW).unwrap_err()),
        "Native v2 product revision is not sealed."
    );
    let mut unknown = revision();
    unknown.steps[0].completer = "participant-z".into();
    assert_eq!(
        message(ledger.create_draft(unknown, host("a").as_str(), true, NOW).unwrap_err()),
        "Native v2 product revision is not sealed."
    );
    assert_eq!(
        message(ledger.create_draft(revision(), host("b").as_str(), true, NOW).unwrap_err()),
        "Only the authored requester Host may create this product Plan."
    );
    assert_eq!(
        message(ledger.create_draft(revision(), host("a").as_str(), false, NOW).unwrap_err()),
        "Native v2 product Bridge is unavailable or burned."
    );
    ledger
        .create_draft(revision(), host("a").as_str(), true, NOW)
        .unwrap();
    assert_eq!(
        message(ledger.create_draft(revision(), host("a").as_str(), true, NOW).unwrap_err()),
        "Native v2 product revision already exists."
    );
}

#[test]
fn approval_is_given_once_within_one_lifetime() {
    let mut ledger = NativeV2ProductLedgerV1::new(PROTOCOL.into());
    ledger
        .create_draft(revision(), host("a").as_str(), true, NOW)
        .unwrap();
    assert_eq!(
        message(ledger.approve("revision-native-v2", "bad/id", NOW + 10, NOW).unwrap_err()),
        "Native v2 approval id is invalid."
    );
    assert_eq!(
        message(ledger.approve("revision-native-v2", "approval", NOW, NOW).unwrap_err()),
        "Native v2 approval expiry is invalid."
    );
    assert_eq!(
        message(
            ledger
                .approve("revision-native-v2", "approval", NOW + 86_401, NOW)
                .unwrap_err()
        ),
        "Native v2 approval expiry is invalid."
    );
    assert_eq!(
        message(ledger.approve("revision-other", "approval", NOW + 10, NOW).unwrap_err()),
        "Native v2 product revision is unavailable."
    );
    let approval = ledger
        .approve("revision-native-v2", "approval", NOW + 86_400, NOW)
        .unwrap();
    assert_eq!(approval.approval_id, "approval");
    assert_eq!(approval.plan_id, "plan-native-v2");
    assert_eq!(approval.requester, "participant-a");
    assert_eq!(approval.expires_at, NOW + 86_400);
    assert_eq!(
        message(ledger.approve("revision-native-v2", "approval-2", NOW + 10, NOW).unwrap_err()),
        "Native v2 revision is not available for approval."
    );
    let status = ledger.status_for_revision("revision-native-v2").unwrap();
    assert_eq!(status.state, NativeV2ProductStateV1::Approved);
    assert_eq!(status.approval_id.as_deref(), Some("approval"));
    assert!(ledger.approval("approval", NOW + 86_399).is_ok());
    assert_eq!(
        message(ledger.approval("approval", NOW + 86_400).unwrap_err()),
        "Native v2 approval is no longer valid."
    );
    assert_eq!(
        message(ledger.approval("missing", NOW).unwrap_err()),
        "Native v2 approval is unavailable."
    );
    assert_eq!(
        message(ledger.status_for_revision("missing").unwrap_err()),
        "Native v2 product Plan is unavailable."
    );
}

#[test]
fn approval_id_is_unique_across_revisions() {
    let mut ledger = approved();
    let mut other = revision();
    other.revision_id = "revision-other".into();
    ledger.create_draft(other, host("a").as_str(), true, NOW).unwrap();
    assert_eq!(
        message(ledger.approve("revision-other", "approval-native-v2", NOW + 10, NOW).unwrap_err()),
        "Native v2 approval already exists."
    );
}

#[test]
fn attempt_start_sends_reviews_and_readiness_requests_to_peers_only() {
    let mut ledger = approved();
    let events = ledger
        .prepare_attempt(
            "approval-native-v2",
            "attempt-native-v2",
            NOW + 1_000,
            NOW,
            host("a").as_str(),
            &preparations(),
        )
        .unwrap();
    assert_eq!(
        kinds(&events),
        vec![
            ("participant-b".into(), "route-b".into(), DispatchKindV1::ReviewRequest),
            ("participant-b".into(), "route-b".into(), DispatchKindV1::ReadinessRequest),
            ("participant-c".into(), "route-c".into(), DispatchKindV1::ReviewRequest),
            ("participant-c".into(), "route-c".into(), DispatchKindV1::ReadinessRequest),
        ]
    );
    let status = ledger.status_for_revision("revision-native-v2").unwrap();
    assert_eq!(status.state, NativeV2ProductStateV1::CheckingReadiness);
    assert_eq!(status.attempt_id.as_deref(), Some("attempt-native-v2"));
    assert_eq!((status.ready_hosts, status.total_hosts), (1, 3));
    assert_eq!((status.completed_steps, status.total_steps), (0, 3));
    assert_eq!(status.current_step_id, None);
    let attempt = ledger.attempt("attempt-native-v2").unwrap();
    assert_eq!(attempt.hosts[0].admission, AdmissionStateV1::Prepared);
    assert_eq!(attempt.hosts[1].admission, AdmissionStateV1::Pending);
}

#[test]
fn attempt_refusals_come_in_order() {
    let mut ledger = approved();
    let a = host("a");
    let mut prepare = |approval: &str, attempt: &str, expires_at: i64, now: i64, preps: &Vec<HostPreparationV1>| {
        message(
            ledger
                .prepare_attempt(approval, attempt, expires_at, now, a.as_str(), preps)
                .unwrap_err(),
        )
    };
    assert_eq!(
        prepare("approval-native-v2", " ", NOW + 10, NOW, &preparations()),
        "Native v2 attempt id is invalid."
    );
    assert_eq!(
        prepare("approval-native-v2", "attempt", NOW, NOW, &preparations()),
        "Native v2 attempt expiry is invalid."
    );
    assert_eq!(
        prepare("approval-missing", "attempt", NOW + 10, NOW, &preparations()),
        "Native v2 approval is unavailable."
    );
    assert_eq!(
        prepare("approval-native-v2", "attempt", NOW + 1_010, NOW + 1_000, &preparations()),
        "Native v2 approval is no longer valid."
    );
    assert_eq!(
        prepare("approval-native-v2", "attempt", NOW + 1_001, NOW, &preparations()),
        "Native v2 attempt outlives requester approval."
    );
    assert_eq!(
        prepare("approval-native-v2", "attempt", NOW + 10, NOW, &preparations()[..2].to_vec()),
        "Native v2 Host preparation does not match the revision."
    );
    let mut unready = preparations();
    unready[0] = HostPreparationV1::Local(LocalReadinessV1::ProviderUnavailable);
    assert_eq!(
        prepare("approval-native-v2", "attempt", NOW + 10, NOW, &unready),
        "provider_unavailable"
    );
    let mut unroutable = preparations();
    unroutable[1] = HostPreparationV1::NoRoute;
    unroutable[2] = HostPreparationV1::AmbiguousRoute;
    assert_eq!(
        prepare("approval-native-v2", "attempt", NOW + 10, NOW, &unroutable),
        "Plan Host route is unavailable."
    );
    unroutable[1] = HostPreparationV1::Peer(session("b", NOW + 1_000), "correlation-b".into());
    assert_eq!(
        prepare("approval-native-v2", "attempt", NOW + 10, NOW, &unroutable),
        "Plan Host route is ambiguous."
    );
    let mut expired = preparations();
    expired[2] = HostPreparationV1::Peer(session("c", NOW), "correlation-c".into());
    assert_eq!(
        prepare("approval-native-v2", "attempt", NOW + 10, NOW, &expired),
        "Plan Host session binding is unavailable."
    );
    let mut swapped = preparations();
    swapped[2] = HostPreparationV1::Peer(session("b", NOW + 1_000), "correlation-c".into());
    assert_eq!(
        prepare("approval-native-v2", "attempt", NOW + 10, NOW, &swapped),
        "Plan Host session binding is unavailable."
    );
    let mut mislabelled = preparations();
    mislabelled[0] = HostPreparationV1::NoRoute;
    assert_eq!(
        prepare("approval-native-v2", "attempt", NOW + 10, NOW, &mislabelled),
        "Native v2 Host preparation does not match the revision."
    );
    drop(prepare);
    ledger
        .prepare_attempt("approval-native-v2", "attempt", NOW + 10, NOW, a.as_str(), &preparations())
        .unwrap();
    assert_eq!(
        message(
            ledger
                .prepare_attempt("approval-native-v2", "attempt", NOW + 10, NOW, a.as_str(), &preparations())
                .unwrap_err()
        ),
        "Native v2 attempt already exists."
    );
}

#[test]
fn local_unavailability_codes_are_the_runtime_codes() {
    assert_eq!(local_unavailable_code(LocalReadinessV1::Ready), None);
    assert_eq!(
        local_unavailable_code(LocalReadinessV1::ManagedRootUnavailable),
        Some("managed_root_unavailable")
    );
    assert_eq!(
        local_unavailable_code(LocalReadinessV1::TransferRouteUnavailable),
        Some("transfer_route_unavailable")
    );
    assert_eq!(
        local_unavailable_code(LocalReadinessV1::ManagedPlatformUnavailable),
        Some("managed_platform_unavailable")
    );
}

#[test]
fn the_last_ready_host_completes_the_readiness_barrier() {
    let mut ledger = checking();
    let first = ledger
        .accept_readiness(
            readiness("b", true, None),
            &session("b", NOW + 1_000),
            host("a").as_str(),
            &live(),
            NOW + 1,
        )
        .unwrap();
    assert!(first.is_empty());
    assert_eq!(attempt_state(&ledger).0, NativeV2ProductStateV1::CheckingReadiness);
    let replay = ledger
        .accept_readiness(
            readiness("b", true, None),
            &session("b", NOW + 1_000),
            host("a").as_str(),
            &live(),
            NOW + 1,
        )
        .unwrap_err();
    assert_eq!(message(replay), "Native v2 readiness result correlation is invalid or replayed.");
    let last = ledger
        .accept_readiness(
            readiness("c", true, None),
            &session("c", NOW + 1_000),
            host("a").as_str(),
            &live(),
            NOW + 1,
        )
        .unwrap();
    assert_eq!(
        kinds(&last),
        vec![
            ("participant-b".into(), "route-b".into(), DispatchKindV1::AttemptStart),
            ("participant-c".into(), "route-c".into(), DispatchKindV1::AttemptStart),
        ]
    );
    assert_eq!(attempt_state(&ledger).0, NativeV2ProductStateV1::Preparing);
    let status = ledger.status_for_revision("revision-native-v2").unwrap();
    assert_eq!(status.state, NativeV2ProductStateV1::Preparing);
    assert_eq!((status.ready_hosts, status.total_hosts), (3, 3));
}

#[test]
fn readiness_refusals() {
    let mut ledger = checking();
    let mut wrong_protocol = readiness("b", true, None);
    wrong_protocol.protocol_version = "other".into();
    let err = ledger
        .accept_readiness(wrong_protocol, &session("b", NOW + 1_000), host("a").as_str(), &live(), NOW + 1)
        .unwrap_err();
    assert_eq!(message(err), "Native v2 readiness result Host/session is invalid.");
    let mut unknown = readiness("b", true, None);
    unknown.attempt_id = "attempt-other".into();
    let err = ledger
        .accept_readiness(unknown, &session("b", NOW + 1_000), host("a").as_str(), &live(), NOW + 1)
        .unwrap_err();
    assert_eq!(message(err), "Native v2 readiness result is late or unknown.");
    let mut wrong_correlation = readiness("b", true, None);
    wrong_correlation.correlation_id = "correlation-c".into();
    let err = ledger
        .accept_readiness(wrong_correlation, &session("b", NOW + 1_000), host("a").as_str(), &live(), NOW + 1)
        .unwrap_err();
    assert_eq!(message(err), "Native v2 readiness result correlation is invalid or replayed.");
    ledger
        .accept_readiness(readiness("b", true, None), &session("b", NOW + 1_000), host("a").as_str(), &live(), NOW + 1)
        .unwrap();
    let err = ledger
        .accept_readiness(readiness("c", true, None), &session("c", NOW + 1_000), host("a").as_str(), &Vec::new(), NOW + 1)
        .unwrap_err();
    assert_eq!(message(err), "Native v2 Host session is no longer current.");
    assert_eq!(attempt_state(&ledger).0, NativeV2ProductStateV1::CheckingReadiness);
}

#[test]
fn the_last_prepared_host_commits_every_host_and_runs() {
    let mut ledger = checking();
    for peer in ["b", "c"] {
        ledger
            .accept_readiness(readiness(peer, true, None), &session(peer, NOW + 1_000), host("a").as_str(), &live(), NOW + 1)
            .unwrap();
    }
    let mut blank = prepared("b");
    blank.admission_ref = "  ".into();
    assert_eq!(
        message(ledger.accept_prepared(blank, &session("b", NOW + 1_000), &live(), NOW + 2).unwrap_err()),
        "Native v2 prepared response Host/session is invalid."
    );
    assert!(ledger
        .accept_prepared(prepared("b"), &session("b", NOW + 1_000), &live(), NOW + 2)
        .unwrap()
        .is_empty());
    let events = ledger
        .accept_prepared(prepared("c"), &session("c", NOW + 1_000), &live(), NOW + 2)
        .unwrap();
    assert_eq!(
        kinds(&events),
        vec![
            ("participant-b".into(), "route-b".into(), DispatchKindV1::AttemptCommit),
            ("participant-c".into(), "route-c".into(), DispatchKindV1::AttemptCommit),
        ]
    );
    let attempt = ledger.attempt("attempt-native-v2").unwrap();
    assert_eq!(attempt.state, NativeV2ProductStateV1::Running);
    assert!(attempt.hosts.iter().all(|h| h.admission == AdmissionStateV1::Committed));
    assert_eq!(attempt.hosts[1].admission_ref.as_deref(), Some("admission-b"));
    let status = ledger.status_for_revision("revision-native-v2").unwrap();
    assert_eq!(status.state, NativeV2ProductStateV1::Running);
    assert_eq!(status.current_step_id.as_deref(), Some("transform-b"));
    let late = ledger
        .accept_prepared(prepared("b"), &session("b", NOW + 1_000), &live(), NOW + 2)
        .unwrap_err();
    assert_eq!(message(late), "Native v2 prepared response is late or unknown.");
}

#[test]
fn every_step_completes_the_attempt_and_its_revision() {
    let mut ledger = running();
    let early = complete(&mut ledger, "b", "transfer-b-c", StepOperation::Transfer).unwrap_err();
    assert_eq!(
        message(early),
        "Native v2 result arrived before its exact predecessor completed."
    );
    let commits = complete(&mut ledger, "b", "transform-b", StepOperation::Transform).unwrap();
    assert_eq!(
        kinds(&commits),
        vec![
            ("participant-b".into(), "route-b".into(), DispatchKindV1::StepCommit),
            ("participant-c".into(), "route-c".into(), DispatchKindV1::StepCommit),
        ]
    );
    let replay = complete(&mut ledger, "b", "transform-b", StepOperation::Transform).unwrap_err();
    assert_eq!(
        message(replay),
        "Native v2 step result is duplicate, conflicting, or replayed."
    );
    complete(&mut ledger, "b", "transfer-b-c", StepOperation::Transfer).unwrap();
    let status = ledger.status_for_revision("revision-native-v2").unwrap();
    assert_eq!((status.completed_steps, status.total_steps), (2, 3));
    assert_eq!(status.current_step_id.as_deref(), Some("execute-c"));
    complete(&mut ledger, "c", "execute-c", StepOperation::Execute).unwrap();
    assert_eq!(attempt_state(&ledger).0, NativeV2ProductStateV1::Completed);
    let status = ledger.status_for_revision("revision-native-v2").unwrap();
    assert_eq!(status.state, NativeV2ProductStateV1::Completed);
    assert_eq!((status.completed_steps, status.total_steps), (3, 3));
    assert_eq!(status.current_step_id, None);
}

#[test]
fn step_results_from_the_wrong_host_or_shape_are_refused() {
    let mut ledger = running();
    let wrong_host = ledger
        .accept_step_result(
            result("c", "transform-b", StepOperation::Transform),
            &session("c", NOW + 1_000),
            host("a").as_str(),
            &live(),
            NOW + 3,
        )
        .unwrap_err();
    assert_eq!(
        message(wrong_host),
        "Native v2 result Host does not own the authored step completion."
    );
    let mut wrong_ref = result("b", "transform-b", StepOperation::Transform);
    wrong_ref.completion_ref = "native-v2-step-completion:v1:00".into();
    let err = ledger
        .accept_step_result(wrong_ref, &session("b", NOW + 1_000), host("a").as_str(), &live(), NOW + 3)
        .unwrap_err();
    assert_eq!(message(err), "Native v2 step result correlation is invalid.");
    let mut no_digest = result("b", "transform-b", StepOperation::Transform);
    no_digest.content_digest = Some(String::new());
    no_digest.completion_ref = step_result_completion_ref(&no_digest);
    let err = ledger
        .accept_step_result(no_digest, &session("b", NOW + 1_000), host("a").as_str(), &live(), NOW + 3)
        .unwrap_err();
    assert_eq!(message(err), "Native v2 object-producing result is invalid.");
    let err = ledger
        .accept_step_result(
            result("b", "transform-b", StepOperation::Execute),
            &session("b", NOW + 1_000),
            host("a").as_str(),
            &live(),
            NOW + 3,
        )
        .unwrap_err();
    assert_eq!(message(err), "Native v2 step result operation is invalid.");
    let err = ledger
        .accept_step_result(
            result("b", "missing-step", StepOperation::Transform),
            &session("b", NOW + 1_000),
            host("a").as_str(),
            &live(),
            NOW + 3,
        )
        .unwrap_err();
    assert_eq!(message(err), "Native v2 result step is unavailable.");
    let err = ledger
        .accept_step_result(
            result("b", "transform-b", StepOperation::Transform),
            &session("b", NOW + 1_000),
            host("a").as_str(),
            &live(),
            NOW + 1_000,
        )
        .unwrap_err();
    assert_eq!(message(err), "Native v2 result immutable correlation is invalid.");
}

#[test]
fn execute_results_carry_only_a_result_digest() {
    let mut ledger = running();
    complete(&mut ledger, "b", "transform-b", StepOperation::Transform).unwrap();
    complete(&mut ledger, "b", "transfer-b-c", StepOperation::Transfer).unwrap();
    let mut with_object = result("c", "execute-c", StepOperation::Execute);
    with_object.object = Some(object(2));
    with_object.completion_ref = step_result_completion_ref(&with_object);
    let err = ledger
        .accept_step_result(with_object, &session("c", NOW + 1_000), host("a").as_str(), &live(), NOW + 3)
        .unwrap_err();
    assert_eq!(message(err), "Native v2 Execute result is invalid.");
    let mut wrong_transfer = result("b", "transfer-b-c", StepOperation::Transfer);
    wrong_transfer.object = Some(object(3));
    wrong_transfer.completion_ref = step_result_completion_ref(&wrong_transfer);
    let err = ledger
        .accept_step_result(wrong_transfer, &session("b", NOW + 1_000), host("a").as_str(), &live(), NOW + 3)
        .unwrap_err();
    assert_eq!(message(err), "Native v2 Transfer result is invalid.");
}

#[test]
fn step_result_semantic_json_matches_serde_canonical_form() {
    let mut r = result("b", "transform-b", StepOperation::Transform);
    r.content_digest = Some("quote\" back\\ tab\t".into());
    let mut object = serde_json::Map::new();
    object.insert("logicalObjectId".into(), serde_json::Value::String(r.object.as_ref().unwrap().logical_object_id.clone()));
    object.insert("revision".into(), serde_json::Value::from(r.object.as_ref().unwrap().revision));
    let mut map = serde_json::Map::new();
    let text = |s: &str| serde_json::Value::String(s.to_string());
    map.insert("protocolVersion".into(), text(&r.protocol_version));
    map.insert("messageId".into(), text(""));
    map.insert("attemptId".into(), text(&r.attempt_id));
    map.insert("approvalId".into(), text(&r.approval_id));
    map.insert("planId".into(), text(&r.plan_id));
    map.insert("revisionId".into(), text(&r.revision_id));
    map.insert("revisionHash".into(), text(&r.revision_hash));
    map.insert("bridgeId".into(), text(&r.bridge_id));
    map.insert("stepId".into(), text(&r.step_id));
    map.insert("operation".into(), text("transform"));
    map.insert("participant".into(), text(&r.participant));
    map.insert("hostRef".into(), text(&r.host_ref));
    map.insert("object".into(), serde_json::Value::Object(object));
    map.insert("contentDigest".into(), text(r.content_digest.as_deref().unwrap()));
    map.insert("resultDigest".into(), serde_json::Value::Null);
    map.insert("sessionBindingRef".into(), text(&r.session_binding_ref));
    map.insert("completionRef".into(), text(""));
    map.insert("completedAt".into(), serde_json::Value::from(r.completed_at));
    let expected = serde_json::to_string(&serde_json::Value::Object(map)).unwrap();
    assert_eq!(String::from_utf8(step_result_semantic_bytes(&r)).unwrap(), expected);
    assert_eq!(step_result_completion_ref(&r), step_completion_ref(&expected));
    r.message_id = "another-message".into();
    r.completion_ref = "native-v2-step-completion:v1:00".into();
    assert_eq!(step_result_completion_ref(&r), step_completion_ref(&expected));
    r.step_id = "transfer-b-c".into();
    assert_ne!(step_result_completion_ref(&r), step_completion_ref(&expected));
}

#[test]
fn completion_reference_hashes_the_canonical_result() {
    let canonical = "{\"attemptId\":\"attempt-native-v2\"}";
    let mut input = b"native-v2-step-completion:v1\0".to_vec();
    input.extend_from_slice(canonical.as_bytes());
    let expected = format!(
        "native-v2-step-completion:v1:{}",
        blake3::hash(&input).to_hex()
    );
    assert_eq!(step_completion_ref(canonical), expected);
    assert_ne!(step_completion_ref(canonical), step_completion_ref("{}"));
}

#[test]
fn a_step_failure_fails_the_whole_attempt_and_cancels_every_peer() {
    let mut ledger = running();
    let failure = NativeV2StepFailureV1 {
        protocol_version: PROTOCOL.into(),
        message_id: "failure-b".into(),
        attempt_id: "attempt-native-v2".into(),
        approval_id: "approval-native-v2".into(),
        revision_id: "revision-native-v2".into(),
        revision_hash: "bridge-plan-revision-hash-v2:abc".into(),
        bridge_id: "bridge-native-v2".into(),
        step_id: Some("execute-c".into()),
        participant: "participant-b".into(),
        host_ref: host("b").as_str().to_string(),
        session_binding_ref: "binding-b".into(),
        code: "managed_worker_failed".into(),
        expires_at: NOW + 500,
    };
    let foreign = ledger
        .accept_step_failure(&failure, &session("b", NOW + 1_000), &live(), NOW + 3)
        .unwrap_err();
    assert_eq!(message(foreign), "Native v2 failure step belongs to another Host.");
    let own = NativeV2StepFailureV1 { step_id: Some("transform-b".into()), ..failure.clone() };
    let cancels = ledger
        .accept_step_failure(&own, &session("b", NOW + 1_000), &live(), NOW + 3)
        .unwrap();
    assert_eq!(
        kinds(&cancels),
        vec![
            ("participant-b".into(), "route-b".into(), DispatchKindV1::AttemptCancel),
            ("participant-c".into(), "route-c".into(), DispatchKindV1::AttemptCancel),
        ]
    );
    assert_eq!(
        attempt_state(&ledger),
        (NativeV2ProductStateV1::Failed, Some("managed_worker_failed".into()))
    );
    assert_eq!(step_state(&ledger, "transform-b"), StepStateV1::Failed);
    let attempt = ledger.attempt("attempt-native-v2").unwrap();
    assert!(attempt.hosts.iter().all(|h| h.admission == AdmissionStateV1::Cancelled));
    let again = ledger
        .accept_step_failure(&own, &session("b", NOW + 1_000), &live(), NOW + 3)
        .unwrap_err();
    assert_eq!(message(again), "Native v2 failure is late or unknown.");
}

#[test]
fn cancelling_ends_the_attempt_once() {
    let mut ledger = running();
    assert_eq!(
        message(
            ledger
                .terminate_attempt("attempt-native-v2", NativeV2ProductStateV1::Running, "x", &live(), NOW)
                .unwrap_err()
        ),
        "Native v2 terminal state is invalid."
    );
    assert_eq!(
        message(
            ledger
                .terminate_attempt("attempt-native-v2", NativeV2ProductStateV1::Cancelled, " ", &live(), NOW)
                .unwrap_err()
        ),
        "Native v2 terminal code is invalid."
    );
    ledger
        .terminate_attempt("attempt-native-v2", NativeV2ProductStateV1::Cancelled, "user_cancelled", &live(), NOW + 5)
        .unwrap();
    assert_eq!(
        attempt_state(&ledger),
        (NativeV2ProductStateV1::Cancelled, Some("user_cancelled".into()))
    );
    let status = ledger.status_for_revision("revision-native-v2").unwrap();
    assert_eq!(status.state, NativeV2ProductStateV1::Cancelled);
    assert_eq!(status.updated_at, NOW + 5);
    assert_eq!(
        message(
            ledger
                .terminate_attempt("attempt-native-v2", NativeV2ProductStateV1::Failed, "again", &live(), NOW + 6)
                .unwrap_err()
        ),
        "Native v2 attempt is already terminal."
    );
}

#[test]
fn bridge_interruption_reaches_only_that_bridge() {
    let mut ledger = running();
    assert_eq!(
        ledger.interrupt_attempts(&InterruptScopeV1::Bridge("bridge-other".into()), "bridge_burned", NOW + 4),
        0
    );
    assert_eq!(attempt_state(&ledger).0, NativeV2ProductStateV1::Running);
    assert_eq!(
        ledger.interrupt_attempts(&InterruptScopeV1::All, "bad\u{7}code", NOW + 4),
        0
    );
    assert_eq!(
        ledger.interrupt_attempts(&InterruptScopeV1::Bridge("bridge-native-v2".into()), "bridge_burned", NOW + 4),
        1
    );
    assert_eq!(
        attempt_state(&ledger),
        (NativeV2ProductStateV1::Interrupted, Some("bridge_burned".into()))
    );
    assert_eq!(
        ledger.interrupt_attempts(&InterruptScopeV1::All, "again", NOW + 5),
        0
    );
}

#[test]
fn restart_interrupts_coordinating_attempts_and_keeps_their_steps() {
    let mut ledger = running();
    assert_eq!(ledger.reconcile_startup(NOW + 9), 1);
    assert_eq!(
        attempt_state(&ledger),
        (NativeV2ProductStateV1::Interrupted, Some("host_restarted".into()))
    );
    assert_eq!(step_state(&ledger, "transform-b"), StepStateV1::Eligible);
    let status = ledger.status_for_revision("revision-native-v2").unwrap();
    assert_eq!(status.state, NativeV2ProductStateV1::Interrupted);
    assert_eq!(status.code.as_deref(), Some("host_restarted"));
    assert_eq!(ledger.reconcile_startup(NOW + 10), 0);
}

#[test]
fn protocol_text_is_bounded_and_free_of_control_characters() {
    assert!(native_text("session_revoked"));
    assert!(!native_text("   "));
    assert!(!native_text("line\nbreak"));
    assert!(!native_text(&"x".repeat(1_025)));
    assert!(native_text(&"x".repeat(1_024)));
}

#[test]
fn revisions_are_kept_as_sealed() {
    let ledger = approved();
    let stored = ledger.revision("revision-native-v2").unwrap();
    assert_eq!(stored.steps.len(), 3);
    assert_eq!(stored.steps[2].step_id, "execute-c");
    assert_eq!(
        message(ledger.revision("missing").unwrap_err()),
        "Native v2 product revision is unavailable."
    );
}

#[test]
fn local_readiness_checks_roots_routes_provider_then_platform() {
    let r = revision();
    let b = host("b");
    let all = vec![true, true, true];
    assert_eq!(
        local_readiness(&r, b.as_str(), &vec![true, false], &vec![false], false, &all),
        LocalReadinessV1::ManagedRootUnavailable
    );
    assert_eq!(
        local_readiness(&r, b.as_str(), &vec![true], &vec![false], false, &all),
        LocalReadinessV1::TransferRouteUnavailable
    );
    assert_eq!(
        local_readiness(&r, b.as_str(), &vec![], &vec![true], false, &all),
        LocalReadinessV1::ProviderUnavailable
    );
    assert_eq!(
        local_readiness(&r, b.as_str(), &vec![], &vec![true], true, &vec![false, true, true]),
        LocalReadinessV1::ManagedPlatformUnavailable
    );
    assert_eq!(
        local_readiness(&r, b.as_str(), &vec![], &vec![true], true, &vec![true, false, false]),
        LocalReadinessV1::Ready
    );
    let a = host("a");
    assert_eq!(
        local_readiness(&r, a.as_str(), &vec![], &vec![], false, &vec![false, false, false]),
        LocalReadinessV1::Ready
    );
}
