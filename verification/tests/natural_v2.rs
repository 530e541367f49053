use pastey_physical::identity::HostRef;
use pastey_physical::native_v2::NativeV2StepDraftV1;
use pastey_physical::natural_v2::{
    derived_search_object_id, lower_candidate, validate_request_shape, CandidateSemanticPlanV2,
    CandidateSemanticRootV2, CandidateSemanticStepV2, NaturalV2ComposeCandidateRequestV1,
    NaturalV2HostSelectionV1, NaturalV2ProposalContextV1, NaturalV2RootSelectionV1,
    NaturalV2TransferSelectionV1, StepOperation, NATURAL_V2_SCHEMA_VERSION,
};

fn host(label: &str) -> String {
    HostRef::from_device_id(label).unwrap().as_str().to_string()
}

fn base_request() -> NaturalV2ComposeCandidateRequestV1 {
    NaturalV2ComposeCandidateRequestV1 {
        plan_id: "plan-natural-v2".into(),
        revision_id: "revision-natural-v2".into(),
        revision_number: 1,
        bridge_id: "bridge-natural-v2".into(),
        requester_host_alias: "host_a".into(),
        original_user_goal: "Update the document on B and run it on C.".into(),
        context: NaturalV2ProposalContextV1 {
            hosts: ["a", "b", "c"]
                .into_iter()
                .map(|name| NaturalV2HostSelectionV1 {
                    alias: format!("host_{name}"),
                    host_ref: host(name),
                    display_name: format!("Host {name}"),
                    capability_facts: vec!["observed_transform_available".into()],
                })
                .collect(),
            roots: vec![NaturalV2RootSelectionV1 {
                root_alias: "root_document".into(),
                object_alias: "document_n".into(),
                logical_object_id:
                    "managed-object:v1:aaaaaaaaaaaaaaaaaaaaaaaaaaaaaaaaaaaaaaaaaaaaaaaaaaaaaaaaaaaaaaaa"
                        .into(),
                revision: 7,
                host_alias: "host_b".into(),
                display_name: "document.txt".into(),
            }],
            allowed_operations: vec![
                StepOperation::Search,
                StepOperation::Transform,
                StepOperation::Transfer,
                StepOperation::Execute,
            ],
            allowed_transfer_routes: vec![NaturalV2TransferSelectionV1 {
                source_host_alias: "host_b".into(),
                destination_host_alias: "host_c".into(),
            }],
            allowed_scope_labels: vec!["documents".into()],
        },
        candidate: CandidateSemanticPlanV2 {
            schema_version: NATURAL_V2_SCHEMA_VERSION.into(),
            title: "Transform, move, and execute".into(),
            original_user_goal: "Update the document on B and run it on C.".into(),
            expected_outcome: "The reviewed revision is executed on C.".into(),
            roots: vec![CandidateSemanticRootV2 {
                root_alias: "root_document".into(),
                object_alias: "document_n".into(),
                host_alias: "host_b".into(),
            }],
            steps: vec![
                CandidateSemanticStepV2::Transform {
                    step_alias: "transform_document".into(),
                    depends_on: vec![],
                    host_alias: "host_b".into(),
                    input_alias: "document_n".into(),
                    output_alias: "document_n1".into(),
                    modification_intent: "Apply the reviewed update.".into(),
                },
                CandidateSemanticStepV2::Transfer {
                    step_alias: "transfer_document".into(),
                    depends_on: vec!["transform_document".into()],
                    source_host_alias: "host_b".into(),
                    destination_host_alias: "host_c".into(),
                    input_alias: "document_n1".into(),
                    output_alias: "document_n1_at_c".into(),
                },
                CandidateSemanticStepV2::Execute {
                    step_alias: "execute_document".into(),
                    depends_on: vec!["transfer_document".into()],
                    host_alias: "host_c".into(),
                    target_alias: "document_n1_at_c".into(),
                    execution_intent: "Run the reviewed validation.".into(),
                },
            ],
        },
    }
}

#[test]
fn explicit_transfer_is_the_only_location_change() {
    let mut request = base_request();
    if let CandidateSemanticStepV2::Transform { host_alias, .. } = &mut request.candidate.steps[0] {
        *host_alias = "host_c".into();
    }
    assert!(lower_candidate(request).unwrap_err().message().contains("move"));

    let mut request = base_request();
    request.context.allowed_transfer_routes.clear();
    assert!(lower_candidate(request)
        .unwrap_err()
        .message()
        .contains("unselected Transfer"));
}

#[test]
fn stale_alias_dependency_and_revision_flow_fail_closed() {
    let mut unknown_host = base_request();
    if let CandidateSemanticStepV2::Execute { host_alias, .. } = &mut unknown_host.candidate.steps[2]
    {
        *host_alias = "fabricated_host".into();
    }
    assert!(lower_candidate(unknown_host).is_err());

    let mut missing_dependency = base_request();
    if let CandidateSemanticStepV2::Transfer { depends_on, .. } =
        &mut missing_dependency.candidate.steps[1]
    {
        depends_on.clear();
    }
    assert!(lower_candidate(missing_dependency)
        .unwrap_err()
        .message()
        .contains("exact object producer"));
}

#[test]
fn capability_facts_do_not_authorize_operations_or_transfer() {
    let mut request = base_request();
    request.context.allowed_operations = vec![StepOperation::Transform];
    for host in &mut request.context.hosts {
        host.capability_facts = vec!["transfer_and_execute_available".into()];
    }
    assert!(lower_candidate(request)
        .unwrap_err()
        .message()
        .contains("outside the selected"));
}

#[test]
fn search_identity_is_core_derived_and_deterministic() {
    let mut request = base_request();
    request.context.roots.clear();
    request.candidate.roots.clear();
    request.candidate.steps = vec![CandidateSemanticStepV2::Search {
        step_alias: "search_report".into(),
        depends_on: vec![],
        host_alias: "host_b".into(),
        output_alias: "report_n".into(),
        query: "report.txt".into(),
        safe_scope_labels: vec!["documents".into()],
    }];
    let (first, _) = lower_candidate(request.clone()).unwrap();
    let (second, _) = lower_candidate(request).unwrap();
    assert_eq!(first, second);
    match &first.steps[0] {
        NativeV2StepDraftV1::Search { output, .. } => {
            assert!(output.logical_object_id.starts_with("managed-object:v1:"));
            assert_eq!(output.revision, 1);
        }
        _ => panic!("expected Search"),
    }
}

#[test]
fn host_captured_goal_cannot_be_replaced_by_candidate_output() {
    let mut request = base_request();
    request.candidate.original_user_goal = "A provider replacement goal.".into();
    assert!(lower_candidate(request)
        .unwrap_err()
        .message()
        .contains("Host-captured user goal"));
}

#[test]
fn generic_root_lowers_to_exact_n_plus_one_transfer_and_execute() {
    let (compose, review) = lower_candidate(base_request()).unwrap();
    assert_eq!(compose.roots.len(), 1);
    assert_eq!(compose.roots[0].object.revision, 7);
    assert_eq!(compose.roots[0].host_ref, host("b"));
    assert_eq!(compose.requester_host_ref, host("a"));
    assert_eq!(review.movements.len(), 1);
    assert_eq!(review.movements[0].source_host_alias, "host_b");
    assert_eq!(review.movements[0].destination_host_alias, "host_c");
    assert_eq!(review.affected_hosts.len(), 2);
    assert_eq!(review.topology.len(), 3);
    assert!(review.draft.approval_id.is_none());
    assert!(review.draft.attempt_id.is_none());
    match &compose.steps[0] {
        NativeV2StepDraftV1::Transform { input, output, .. } => {
            assert_eq!(input.revision, 7);
            assert_eq!(output.revision, 8);
            assert_eq!(input.logical_object_id, output.logical_object_id);
        }
        _ => panic!("expected Transform"),
    }
    match &compose.steps[2] {
        NativeV2StepDraftV1::Execute { target, .. } => assert_eq!(target.revision, 8),
        _ => panic!("expected Execute"),
    }
}

#[test]
fn derived_search_identity_depends_on_plan_revision_and_step() {
    let a = derived_search_object_id("plan", "rev", "step");
    let b = derived_search_object_id("plan", "rev", "step");
    let c = derived_search_object_id("plan", "rev", "other");
    assert_eq!(a, b);
    assert_ne!(a, c);
    assert!(a.starts_with("managed-object:v1:"));
    assert_eq!(a.len(), "managed-object:v1:".len() + 64);
}

#[test]
fn invalid_request_shapes_are_refused() {
    let mut request = base_request();
    request.plan_id = "bad id with spaces".into();
    assert!(validate_request_shape(&request).is_err());

    let mut request = base_request();
    request.candidate.schema_version = "other".into();
    assert!(validate_request_shape(&request).is_err());

    let mut request = base_request();
    request.revision_number = 0;
    assert!(validate_request_shape(&request).is_err());

    assert!(validate_request_shape(&base_request()).is_ok());
}
