use pastey_physical::native_v2::{
    parse_product_state, protocol_replay_id, NativeV2PlanStatusV1, NativeV2ProductStateV1,
    CANCEL_KIND, READINESS_REQUEST_KIND, STEP_RESULT_KIND,
};
use pastey_physical::natural_v2::{operation_name_value, StepOperation};

const ALL: [NativeV2ProductStateV1; 9] = [
    NativeV2ProductStateV1::Draft,
    NativeV2ProductStateV1::Approved,
    NativeV2ProductStateV1::CheckingReadiness,
    NativeV2ProductStateV1::Preparing,
    NativeV2ProductStateV1::Running,
    NativeV2ProductStateV1::Completed,
    NativeV2ProductStateV1::Failed,
    NativeV2ProductStateV1::Interrupted,
    NativeV2ProductStateV1::Cancelled,
];

#[test]
fn stored_state_names_read_back_as_the_same_state() {
    for state in ALL {
        assert_eq!(parse_product_state(state.as_str()).unwrap(), state);
    }
    assert_eq!(NativeV2ProductStateV1::CheckingReadiness.as_str(), "checking_readiness");
    assert!(parse_product_state("Draft").is_err());
    assert!(parse_product_state("").is_err());
    assert!(parse_product_state("canceled").is_err());
}

#[test]
fn operation_names_are_stable() {
    assert_eq!(operation_name_value(StepOperation::Search), "search");
    assert_eq!(operation_name_value(StepOperation::Transform), "transform");
    assert_eq!(operation_name_value(StepOperation::Transfer), "transfer");
    assert_eq!(operation_name_value(StepOperation::Execute), "execute");
}

#[test]
fn replay_identity_is_kind_and_message_scoped() {
    let id = protocol_replay_id(READINESS_REQUEST_KIND, "message-1", "bridge", 20_000, "bridge", 10_000)
        .unwrap();
    assert_eq!(id, "native-v2:bridge_plan.v2.readiness_request:message-1");
    let id = protocol_replay_id(CANCEL_KIND, "message-1", "bridge", 20_000, "bridge", 10_000).unwrap();
    assert_eq!(id, "native-v2:bridge_plan.v2.attempt_cancel:message-1");
}

#[test]
fn replay_identity_refuses_unknown_kind_bad_id_other_bridge_and_expiry() {
    assert_eq!(
        protocol_replay_id("bridge_plan.v2.other", "m", "bridge", 20_000, "bridge", 10_000)
            .unwrap_err()
            .message(),
        "Unsupported native v2 product protocol event."
    );
    for bad in ["", "   ", "a/b", "a\\b", "a\u{7}b", "a\u{85}b"] {
        assert_eq!(
            protocol_replay_id(CANCEL_KIND, bad, "bridge", 20_000, "bridge", 10_000)
                .unwrap_err()
                .message(),
            "Native v2 message id is invalid."
        );
    }
    let long = "m".repeat(129);
    assert!(protocol_replay_id(CANCEL_KIND, &long, "bridge", 20_000, "bridge", 10_000).is_err());
    assert!(protocol_replay_id(CANCEL_KIND, &"m".repeat(128), "bridge", 20_000, "bridge", 10_000).is_ok());
    assert_eq!(
        protocol_replay_id(CANCEL_KIND, "m", "other", 20_000, "bridge", 10_000)
            .unwrap_err()
            .message(),
        "Native v2 product event Bridge or lifetime is invalid."
    );
    assert!(protocol_replay_id(CANCEL_KIND, "m", "bridge", 10_000, "bridge", 10_000).is_err());
}

#[test]
fn step_results_stay_replayable_for_a_lifetime_after_completion() {
    // Completed at 5_000: live until 5_000 + 86_400.
    assert!(protocol_replay_id(STEP_RESULT_KIND, "m", "bridge", 5_000, "bridge", 10_000).is_ok());
    assert!(protocol_replay_id(STEP_RESULT_KIND, "m", "bridge", 5_000, "bridge", 91_399).is_ok());
    assert!(protocol_replay_id(STEP_RESULT_KIND, "m", "bridge", 5_000, "bridge", 91_400).is_err());
}

#[test]
fn unsealed_draft_has_no_approval_or_attempt() {
    let s = NativeV2PlanStatusV1::unsealed_draft();
    assert_eq!(s.state, NativeV2ProductStateV1::Draft);
    assert!(s.approval_id.is_none() && s.attempt_id.is_none());
    assert_eq!(s.total_steps, 0);
}
