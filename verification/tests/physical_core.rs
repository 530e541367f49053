use pastey_physical::identity::{HostRef, HostSessionBinding, LocalRuntimeRef};
use pastey_physical::physical::binding::{
    EnvironmentBindingViewV1, SubsystemBindingViewV1, SubsystemEntryV1,
};
use pastey_physical::physical::domains::DomainEpochV1;
use pastey_physical::physical::session::{
    fence_epochs, required_enforcement, AdmissionV1, ControlSessionsV1, InstallEvidenceV1,
    LaneReplyV1, TrustedControlObservationV1,
};
use pastey_physical::physical::contracts::{
    ApprovalCorrelationV1, PhysicalActionProposalV1, CapabilityV1, CompletionWitnessV1, ExecutionBudgetV1, LossContractV1,
    MicroDuckCompletionV1, MicroDuckFrameV1, MicroDuckVelocityV1, NativeBoundaryV1,
    ObservationFreshnessV1, PhysicalCapabilityProfileV1, PhysicalCompletionContractV1,
    PhysicalFreshnessV1, PhysicalIntentV1, PhysicalQualificationV1, PhysicalReviewRecordV1,
    PhysicalReviewScopeV1, PhysicalReviewStateV1, PhysicalScopeModeV1, ProposalFreshnessV1,
    ReviewScopeFieldsV1, StartContractV1, VelocityLimitsV1,
};
use pastey_physical::physical::ledger::{AttemptStateV1, CloseReasonV1, PhysicalLedgerV1};
use pastey_physical::physical::narrowing::{intersect, validate_narrowing};
use pastey_physical::physical::registry::{EnvironmentBindingV1, PhysicalBindingRegistryV1};
use pastey_physical::physical::service::{
    PhysicalAuthorityRootV1, PhysicalControlServiceV1, VerifiedPeerCoreIngressV1,
};
use pastey_physical::error::AppResult;
use pastey_physical::values::{
    DigestV1, EvidenceClassV1, Finite, LabelV1, NonNegative, PositiveMicros,
    SessionEnforcementClassV1, TokenV1, UnixMillis, VersionV1,
};

fn host(label: &str) -> HostRef {
    HostRef::from_device_id(label).unwrap()
}

fn label(value: &str) -> LabelV1 {
    LabelV1::new(value.to_string()).unwrap()
}

fn token(value: &str) -> TokenV1 {
    TokenV1::new(value.to_string()).unwrap()
}

fn digest_value() -> DigestV1 {
    DigestV1::from_hex(&"a".repeat(64)).unwrap()
}

fn micros(value: u64) -> PositiveMicros {
    PositiveMicros::new(value).unwrap()
}

fn millis(value: u64) -> UnixMillis {
    UnixMillis::new(value).unwrap()
}

fn nonneg(value: f64) -> NonNegative {
    NonNegative::from_bits(value.to_bits()).unwrap()
}

fn finite(value: f64) -> Finite {
    Finite::from_bits(value.to_bits()).unwrap()
}

fn binding() -> EnvironmentBindingViewV1 {
    EnvironmentBindingViewV1 {
        version: VersionV1,
        environment: token("environment:v1:00000000-0000-4000-8000-000000000001"),
        executor: host("executor"),
        registration_revision: 1,
        adapter_incarnation: token("incarnation:v1:00000000-0000-4000-8000-000000000001"),
        subsystems: vec![SubsystemEntryV1 {
            label: label("locomotion"),
            subsystem: SubsystemBindingViewV1 {
                body: token("body:v1:00000000-0000-4000-8000-000000000001"),
                controller_incarnation: token(
                    "incarnation:v1:00000000-0000-4000-8000-000000000011",
                ),
                body_incarnation: token("incarnation:v1:00000000-0000-4000-8000-000000000021"),
                world_incarnation: Some(token(
                    "incarnation:v1:00000000-0000-4000-8000-000000000031",
                )),
                configuration_digest: digest_value(),
                policy_digest: digest_value(),
                domains: vec![token("domain:v1:locomotion")],
            },
        }],
        evidence_class: EvidenceClassV1::Simulation,
        configuration_digest: digest_value(),
        offer_id: token("binding-offer:v1:00000000-0000-4000-8000-000000000001"),
        offer_expiry: millis(2000),
    }
}

fn freshness(proposal: u64) -> PhysicalFreshnessV1 {
    PhysicalFreshnessV1 {
        proposal: ProposalFreshnessV1(micros(proposal)),
        observation: ObservationFreshnessV1 {
            max_age_us: micros(200_000),
            max_gap_us: micros(200_000),
        },
    }
}

fn limits(v: f64) -> VelocityLimitsV1 {
    VelocityLimitsV1 {
        max_abs_vx_mps: nonneg(v),
        max_abs_vy_mps: nonneg(v),
        max_abs_vyaw_radps: nonneg(v),
    }
}

fn budget() -> ExecutionBudgetV1 {
    ExecutionBudgetV1 {
        action_duration_us: micros(1_000_000),
        lease_duration_us: micros(1_000_000),
        total_execution_us: micros(1_000_000),
        action_count: 1,
    }
}

fn profile() -> PhysicalCapabilityProfileV1 {
    PhysicalCapabilityProfileV1 {
        version: VersionV1,
        capability: CapabilityV1::MicroDuckVelocityV1,
        native_boundary: NativeBoundaryV1::MicroDuckRobotIntentV1,
        subsystem: label("locomotion"),
        domain: token("domain:v1:locomotion"),
        evidence_class: EvidenceClassV1::Simulation,
        required_enforcement_class: SessionEnforcementClassV1::AdapterIsolationOnly,
        velocity_limits: limits(0.1),
        execution: budget(),
        freshness: freshness(200_000),
        start: StartContractV1::MicroDuckStandingNoSkillV1,
        loss: LossContractV1::MicroDuckZeroTwistV1,
    }
}

fn qualification(p: &PhysicalCapabilityProfileV1, b: &EnvironmentBindingViewV1) -> PhysicalQualificationV1 {
    PhysicalQualificationV1 {
        version: VersionV1,
        qualification_id: token("qualification:v1:00000000-0000-4000-8000-000000000001"),
        revision: 1,
        profile_digest: p.digest().unwrap(),
        binding_digest: b.digest().unwrap(),
        required_enforcement_class: SessionEnforcementClassV1::AdapterIsolationOnly,
        evidence_class: EvidenceClassV1::Simulation,
        evidence_digest: digest_value(),
        conditions_digest: digest_value(),
        expires_at: millis(2000),
    }
}

fn scope_fields() -> ReviewScopeFieldsV1 {
    let b = binding();
    let p = profile();
    let q = qualification(&p, &b);
    ReviewScopeFieldsV1 {
        version: VersionV1,
        principal: label("operator"),
        requester: host("executor"),
        executor: host("executor"),
        environment: b,
        profile: p,
        qualification: q,
        mode: PhysicalScopeModeV1::Exact,
        intent: PhysicalIntentV1::MicroDuckVelocityV1(MicroDuckVelocityV1 {
            vx_mps: finite(0.05),
            vy_mps: finite(0.0),
            vyaw_radps: finite(0.0),
            frame: MicroDuckFrameV1::Trunk,
        }),
        velocity_limits: limits(0.1),
        execution: budget(),
        freshness: freshness(200_000),
        completion: PhysicalCompletionContractV1::MicroDuckDisplacementSettledV1(
            MicroDuckCompletionV1 {
                witness: CompletionWitnessV1::SimulationOracle,
                frame: label("trunk"),
                min_forward_m: nonneg(0.01),
                max_forward_m: nonneg(0.1),
                max_lateral_m: nonneg(0.05),
                max_settled_speed_mps: nonneg(0.05),
                max_settled_angular_radps: nonneg(0.05),
                max_position_uncertainty_m: nonneg(0.01),
                no_fall: true,
                dwell_us: micros(100_000),
                settling_timeout_us: micros(500_000),
                observation: ObservationFreshnessV1 {
                    max_age_us: micros(200_000),
                    max_gap_us: micros(200_000),
                },
            },
        ),
        loss: LossContractV1::MicroDuckZeroTwistV1,
    }
}

fn changed(
    scope: &PhysicalReviewScopeV1,
    f: impl FnOnce(&mut ReviewScopeFieldsV1),
) -> PhysicalReviewScopeV1 {
    let mut fields = scope.fields().clone();
    f(&mut fields);
    PhysicalReviewScopeV1::try_from(fields).unwrap()
}

/// A Core with an enrolled, resolved and qualified binding and an executor
/// policy, at wall time 1000 ms and monotonic tick 0.
struct Fixture {
    core: PhysicalControlServiceV1,
    live: EnvironmentBindingV1,
    scope: PhysicalReviewScopeV1,
    now: u64,
    ticks: u64,
}

impl Fixture {
    fn new() -> Self {
        let mut core = PhysicalControlServiceV1::new(LocalRuntimeRef::fresh(host("executor"))).unwrap();
        let b = binding();
        let registry = core.registry_mut();
        registry.enroll(b.clone(), None).unwrap();
        let live = registry.resolve(&b).unwrap();
        let p = profile();
        let q = qualification(&p, live.view());
        registry.record_qualification(&live, &p, q.clone()).unwrap();
        let mut fields = scope_fields();
        fields.environment = live.view().clone();
        fields.qualification = q;
        let scope = PhysicalReviewScopeV1::try_from(fields).unwrap();
        let ingress = core.local_ingress().unwrap();
        core.configure_executor_policy(
            &ingress,
            &live,
            scope.clone(),
            SessionEnforcementClassV1::AdapterIsolationOnly,
            micros(1_000_000),
            millis(1000),
        )
        .unwrap();
        Self { core, live, scope, now: 1000, ticks: 0 }
    }

    fn set(&mut self, wall: u64, ticks: u64) {
        self.now = wall;
        self.ticks = ticks;
    }

    fn now(&self) -> UnixMillis {
        millis(self.now)
    }

    fn draft(&mut self) -> PhysicalReviewRecordV1 {
        let ingress = self.core.local_ingress().unwrap();
        let now = self.now();
        self.core.draft_review(&ingress, &self.live, self.scope.clone(), now).unwrap()
    }

    fn approved(&mut self) -> (PhysicalReviewRecordV1, ApprovalCorrelationV1) {
        let r = self.draft();
        let ingress = self.core.local_ingress().unwrap();
        let r = self.core.seal_review(&ingress, &r.review_id, r.revision, &r.scope_digest).unwrap();
        let now = self.now();
        let a = self
            .core
            .approve_review(&ingress, &r.review_id, r.revision, &r.scope_digest, label("operator"), millis(1900), now)
            .unwrap();
        (r, a)
    }

    fn start(&mut self, a: &ApprovalCorrelationV1) -> AppResult<PhysicalAuthorityRootV1> {
        let ingress = self.core.local_ingress()?;
        let now = self.now();
        self.core.start_exact_action(&ingress, &a.approval_id, &self.live, now, self.ticks)
    }

    fn root(&mut self) -> PhysicalAuthorityRootV1 {
        let (_, a) = self.approved();
        self.start(&a).unwrap()
    }

    fn validate_root(&mut self, root: &PhysicalAuthorityRootV1) -> AppResult<()> {
        let now = self.now();
        self.core.validate_root(root, now, self.ticks)
    }

    fn basis(
        &mut self,
        root: &PhysicalAuthorityRootV1,
        scope: PhysicalReviewScopeV1,
        minimum: SessionEnforcementClassV1,
    ) -> AppResult<pastey_physical::physical::service::PhysicalGrantBasisV1> {
        let now = self.now();
        self.core.construct_grant_basis(root, scope, minimum, now, self.ticks)
    }

    fn attempts(&self) -> usize {
        self.core.ledger().attempt_count()
    }

    fn closed(&self, root: &PhysicalAuthorityRootV1) -> bool {
        matches!(
            self.core.ledger().attempt_state(root.root_id()),
            Some(AttemptStateV1::Closed(_))
        )
    }
}

#[test]
fn expired_approval_does_not_consume_start() {
    let mut f = Fixture::new();
    let (_, a) = f.approved();
    f.set(1900, 900000);
    assert!(f.start(&a).is_err());
    assert_eq!(f.attempts(), 0);
}

#[test]
fn exact_attempt_root_correlation_and_one_approval_one_root() {
    let mut f = Fixture::new();
    let (r, a) = f.approved();
    let root = f.start(&a).unwrap();
    let audit = root.audit().clone();
    assert_eq!(audit.approval, a);
    assert_eq!(audit.review_id, r.review_id);
    assert_eq!(audit.scope_digest, r.scope_digest);
    assert_eq!(audit.attempt_id, *root.attempt_id());
    assert_eq!(audit.root_id, *root.root_id());
    assert_ne!(audit.root_id.as_str(), audit.attempt_id.as_str());
    assert!(f.start(&a).is_err());
    f.core.close_root(&root);
    assert!(f.start(&a).is_err());
    assert_eq!(f.attempts(), 1);
    assert!(f.validate_root(&root).is_err());
}

#[test]
fn root_expiry_is_wall_and_monotonic_and_never_reopens() {
    for ticks in [false, true] {
        let mut f = Fixture::new();
        let root = f.root();
        f.set(if ticks { 1000 } else { 1900 }, if ticks { 900000 } else { 0 });
        assert!(f.validate_root(&root).is_err());
        f.set(1001, 1);
        assert!(f.validate_root(&root).is_err());
    }
}

#[test]
fn executor_policy_is_intersection_and_grant_basis_is_only_narrower() {
    let mut f = Fixture::new();
    let narrow = changed(&f.scope, |s| {
        s.velocity_limits.max_abs_vx_mps = nonneg(0.06);
        s.execution.action_duration_us = micros(800000);
        s.execution.total_execution_us = micros(900000);
        s.execution.lease_duration_us = micros(850000);
        s.freshness.proposal = ProposalFreshnessV1(micros(100000));
    });
    let ingress = f.core.local_ingress().unwrap();
    f.core
        .configure_executor_policy(
            &ingress,
            &f.live,
            narrow.clone(),
            SessionEnforcementClassV1::AdapterIsolationOnly,
            micros(1_000_000),
            millis(1000),
        )
        .unwrap();
    let root = f.root();
    assert_eq!(root.scope(), &f.scope);
    let scope = f.scope.clone();
    assert!(f.basis(&root, scope, SessionEnforcementClassV1::AdapterIsolationOnly).is_err());
    let basis = f
        .basis(&root, narrow.clone(), SessionEnforcementClassV1::AdapterIsolationOnly)
        .unwrap();
    assert_eq!(basis.scope(), &narrow);
    let now = f.now();
    f.core.validate_grant_basis(&root, &basis, now, f.ticks).unwrap();
}

#[test]
fn widening_each_ceiling_rejected() {
    let mut f = Fixture::new();
    let narrowed = changed(&f.scope, |s| {
        s.velocity_limits.max_abs_vx_mps = nonneg(0.06);
        s.velocity_limits.max_abs_vy_mps = nonneg(0.06);
        s.velocity_limits.max_abs_vyaw_radps = nonneg(0.06);
        s.execution.action_duration_us = micros(800000);
        s.execution.lease_duration_us = micros(800000);
        s.execution.total_execution_us = micros(800000);
        s.freshness.proposal = ProposalFreshnessV1(micros(100000));
    });
    let ingress = f.core.local_ingress().unwrap();
    f.core
        .configure_executor_policy(
            &ingress,
            &f.live,
            narrowed.clone(),
            SessionEnforcementClassV1::AdapterIsolationOnly,
            micros(1_000_000),
            millis(1000),
        )
        .unwrap();
    let root = f.root();
    for mode in ["vx", "vy", "yaw", "duration", "lease", "cumulative", "proposal"] {
        let wider = changed(&narrowed, |s| match mode {
            "vx" => s.velocity_limits.max_abs_vx_mps = nonneg(0.07),
            "vy" => s.velocity_limits.max_abs_vy_mps = nonneg(0.07),
            "yaw" => s.velocity_limits.max_abs_vyaw_radps = nonneg(0.07),
            "duration" => {
                s.execution.action_duration_us = micros(900000);
                s.execution.total_execution_us = micros(900000);
            }
            "lease" => s.execution.lease_duration_us = micros(900000),
            "cumulative" => s.execution.total_execution_us = micros(900000),
            _ => s.freshness.proposal = ProposalFreshnessV1(micros(150000)),
        });
        assert!(
            f.basis(&root, wider, SessionEnforcementClassV1::AdapterIsolationOnly).is_err(),
            "{mode}"
        );
    }
}

#[test]
fn narrowing_cannot_change_intent_to_fit_smaller_limits() {
    let mut f = Fixture::new();
    let too_small = changed(&f.scope, |s| {
        s.velocity_limits.max_abs_vx_mps = nonneg(0.01);
        let PhysicalIntentV1::MicroDuckVelocityV1(v) = &mut s.intent;
        v.vx_mps = finite(0.01);
    });
    assert!(intersect(&f.scope, &too_small).is_err());
    let root = f.root();
    assert!(f
        .basis(&root, too_small, SessionEnforcementClassV1::AdapterIsolationOnly)
        .is_err());
}

#[test]
fn policy_change_closes_old_roots_and_bases() {
    let mut f = Fixture::new();
    let root = f.root();
    let scope = f.scope.clone();
    let basis = f
        .basis(&root, scope.clone(), SessionEnforcementClassV1::AdapterIsolationOnly)
        .unwrap();
    let ingress = f.core.local_ingress().unwrap();
    f.core
        .configure_executor_policy(
            &ingress,
            &f.live,
            scope,
            SessionEnforcementClassV1::AdapterIsolationOnly,
            micros(500000),
            millis(1000),
        )
        .unwrap();
    let now = f.now();
    assert!(f.core.validate_grant_basis(&root, &basis, now, f.ticks).is_err());
    assert!(f.closed(&root));
}

#[test]
fn future_peer_proof_checks_current_runtime_authenticated_host_and_session() {
    let f = Fixture::new();
    let runtime = f.core.runtime().clone();
    let executor = host("executor");
    let requester = host("peer");
    let binding = HostSessionBinding::new(
        "bridge",
        host("executor"),
        requester.clone(),
        "local-session",
        "peer-session",
        "route",
        2000,
    )
    .unwrap();
    let mut proof = VerifiedPeerCoreIngressV1::new(runtime.clone(), binding.clone());
    let now = millis(1000);
    proof.validate(&runtime, &binding, &requester, &executor, now).unwrap();
    assert!(proof
        .validate(&LocalRuntimeRef::fresh(host("executor")), &binding, &requester, &executor, now)
        .is_err());
    assert!(proof.validate(&runtime, &binding, &host("other"), &executor, now).is_err());
    let mut changed = binding.clone();
    changed.peer_route_ref = "replacement".into();
    assert!(proof.validate(&runtime, &changed, &requester, &executor, now).is_err());
    assert!(proof
        .validate(&runtime, &binding, &requester, &executor, millis(2000))
        .is_err());
    proof.invalidate();
    assert!(proof.validate(&runtime, &binding, &requester, &executor, now).is_err());
    assert_eq!(f.attempts(), 0);
}

#[test]
fn immutable_scope_and_new_revision_expire_old_approval_and_root() {
    let mut f = Fixture::new();
    let (r, a) = f.approved();
    let root = f.start(&a).unwrap();
    let original = f.core.ledger().review(&r.review_id, 1).unwrap().clone();
    let scope = changed(&f.scope, |s| s.velocity_limits.max_abs_vx_mps = nonneg(0.08));
    let ingress = f.core.local_ingress().unwrap();
    let now = f.now();
    let next = f
        .core
        .revise_review(&ingress, &r.review_id, 1, &f.live, scope.clone(), now)
        .unwrap();
    assert_eq!(next.revision, 2);
    assert_eq!(next.state, PhysicalReviewStateV1::Draft);
    assert_ne!(next.scope_digest, r.scope_digest);
    let old = f.core.ledger().review(&r.review_id, 1).unwrap().clone();
    assert_eq!(old.scope, original.scope);
    assert_eq!(old.approval, original.approval);
    assert_eq!(old.state, PhysicalReviewStateV1::Expired);
    assert!(f.start(&a).is_err());
    assert!(f.validate_root(&root).is_err());
    assert!(f.closed(&root));
    assert!(f
        .core
        .revise_review(&ingress, &r.review_id, 1, &f.live, scope, now)
        .is_err());
}

#[test]
fn approval_consumes_only_exact_sealed_digest_revision_and_principal() {
    let mut f = Fixture::new();
    let r = f.draft();
    let ingress = f.core.local_ingress().unwrap();
    let expiry = millis(1900);
    let now = f.now();
    assert!(f
        .core
        .approve_review(&ingress, &r.review_id, 1, &r.scope_digest, label("operator"), expiry, now)
        .is_err());
    f.core.seal_review(&ingress, &r.review_id, 1, &r.scope_digest).unwrap();
    for (rev, digest, principal) in [
        (2, r.scope_digest.clone(), label("operator")),
        (1, DigestV1::from_hex(&"c".repeat(64)).unwrap(), label("operator")),
        (1, r.scope_digest.clone(), label("other")),
    ] {
        assert!(f
            .core
            .approve_review(&ingress, &r.review_id, rev, &digest, principal, expiry, now)
            .is_err());
    }
    let a = f
        .core
        .approve_review(&ingress, &r.review_id, 1, &r.scope_digest, label("operator"), expiry, now)
        .unwrap();
    assert_eq!(a.scope_digest, r.scope_digest);
    assert_eq!(a.review_revision, 1);
    assert!(f
        .core
        .approve_review(&ingress, &r.review_id, 1, &r.scope_digest, label("operator"), expiry, now)
        .is_err());
    assert_eq!(f.core.ledger().review(&r.review_id, 1).unwrap().scope, r.scope);
    assert_eq!(f.attempts(), 0);
}

#[test]
fn draft_and_reviewed_rows_are_not_start_authority() {
    let mut f = Fixture::new();
    let r = f.draft();
    let id = token("physical-approval");
    let ingress = f.core.local_ingress().unwrap();
    let now = f.now();
    assert!(f.core.start_exact_action(&ingress, &id, &f.live, now, 0).is_err());
    f.core.seal_review(&ingress, &r.review_id, 1, &r.scope_digest).unwrap();
    assert!(f.core.start_exact_action(&ingress, &id, &f.live, now, 0).is_err());
    assert_eq!(f.attempts(), 0);
}

#[test]
fn terminal_review_rejects_seal_approval_and_start() {
    for state in [PhysicalReviewStateV1::Rejected, PhysicalReviewStateV1::Expired] {
        let mut f = Fixture::new();
        let r = f.draft();
        let ingress = f.core.local_ingress().unwrap();
        f.core
            .finish_review(&ingress, &r.review_id, 1, &r.scope_digest, state)
            .unwrap();
        assert!(f.core.seal_review(&ingress, &r.review_id, 1, &r.scope_digest).is_err());
        let now = f.now();
        assert!(f
            .core
            .approve_review(&ingress, &r.review_id, 1, &r.scope_digest, label("operator"), millis(1900), now)
            .is_err());
    }
}

#[test]
fn wrong_host_environment_body_and_claimed_binding_denied() {
    for mode in ["requester", "executor", "environment", "body", "adapter", "config", "offer"] {
        let mut f = Fixture::new();
        let mut fields = f.scope.fields().clone();
        match mode {
            "requester" => fields.requester = host("other"),
            "executor" => {
                fields.executor = host("other");
                fields.environment.executor = host("other");
            }
            "environment" => {
                fields.environment.environment =
                    token("environment:v1:00000000-0000-4000-8000-000000000002")
            }
            "body" => {
                fields.environment.subsystems[0].subsystem.body =
                    token("body:v1:00000000-0000-4000-8000-000000000002")
            }
            "adapter" => {
                fields.environment.adapter_incarnation =
                    token("incarnation:v1:00000000-0000-4000-8000-000000000002")
            }
            "config" => {
                fields.environment.configuration_digest =
                    DigestV1::from_hex(&"b".repeat(64)).unwrap()
            }
            _ => {
                fields.environment.offer_id =
                    token("binding-offer:v1:00000000-0000-4000-8000-000000000002")
            }
        };
        fields.qualification.binding_digest = fields.environment.digest().unwrap();
        let claim = PhysicalReviewScopeV1::try_from(fields).unwrap();
        let ingress = f.core.local_ingress().unwrap();
        let now = f.now();
        assert!(f.core.draft_review(&ingress, &f.live, claim, now).is_err(), "{mode}");
        assert_eq!(f.core.ledger().review_count(), 0);
    }
}

#[test]
fn withdrawn_or_expired_qualification_denies_start() {
    for expired in [false, true] {
        let mut f = Fixture::new();
        let (_, a) = f.approved();
        if expired {
            f.set(2000, 1_000_000);
        } else {
            let id = f.scope.fields().qualification.qualification_id.clone();
            f.core.registry_mut().withdraw(&id, 2).unwrap();
        }
        assert!(f.start(&a).is_err());
        assert_eq!(f.attempts(), 0);
    }
}

#[test]
fn local_ingress_is_core_owned_and_current_runtime_without_bridge() {
    let mut a = Fixture::new();
    let b = Fixture::new();
    let foreign = b.core.local_ingress().unwrap();
    let now = a.now();
    assert!(a.core.draft_review(&foreign, &a.live, a.scope.clone(), now).is_err());
    let proof = a.core.local_ingress().unwrap();
    a.core.close();
    assert!(a.core.draft_review(&proof, &a.live, a.scope.clone(), now).is_err());
}

#[test]
fn replaced_binding_withdrawn_qualification_and_retirement_invalidate_root_and_basis() {
    for mode in [
        "binding",
        "withdrawal",
        "retirement",
        "epoch",
        "controller",
        "body",
        "world",
        "config",
    ] {
        let mut f = Fixture::new();
        let root = f.root();
        let scope = f.scope.clone();
        let basis = f
            .basis(&root, scope.clone(), SessionEnforcementClassV1::AdapterIsolationOnly)
            .unwrap();
        let qid = f.scope.fields().qualification.qualification_id.clone();
        let registry = f.core.registry_mut();
        match mode {
            "binding" => {
                registry.resolve(&binding()).unwrap();
            }
            "withdrawal" => registry.withdraw(&qid, 2).unwrap(),
            "retirement" => registry.retire(&binding().environment, 1).unwrap(),
            "epoch" => {
                let epochs = registry.epochs(&binding().domains()).unwrap();
                registry.advance_epochs(&epochs).unwrap();
            }
            _ => {
                let mut b = binding();
                b.registration_revision = 2;
                let sub = &mut b.subsystems[0].subsystem;
                let inc = token("incarnation:v1:00000000-0000-4000-8000-000000000002");
                match mode {
                    "controller" => sub.controller_incarnation = inc,
                    "body" => sub.body_incarnation = inc,
                    "world" => sub.world_incarnation = Some(inc),
                    _ => b.configuration_digest = DigestV1::from_hex(&"b".repeat(64)).unwrap(),
                };
                registry.enroll(b, Some(1)).unwrap();
            }
        }
        let now = f.now();
        assert!(f.core.validate_grant_basis(&root, &basis, now, f.ticks).is_err(), "{mode}");
        assert!(f
            .basis(&root, scope, SessionEnforcementClassV1::AdapterIsolationOnly)
            .is_err());
        assert!(f.closed(&root), "{mode}");
    }
}

#[test]
fn native_fence_minimum_exceeds_isolation_only_qualification() {
    let mut f = Fixture::new();
    let root = f.root();
    let scope = f.scope.clone();
    assert!(f.basis(&root, scope, SessionEnforcementClassV1::NativeFence).is_err());
}

#[test]
fn material_intent_target_completion_profile_and_qualification_substitution_denied() {
    let mut f = Fixture::new();
    let root = f.root();
    for mode in ["intent", "completion", "qualification", "profile"] {
        let other = changed(&f.scope, |s| match mode {
            "intent" => {
                let PhysicalIntentV1::MicroDuckVelocityV1(v) = &mut s.intent;
                v.vx_mps = finite(-0.05);
            }
            "completion" => {
                let PhysicalCompletionContractV1::MicroDuckDisplacementSettledV1(c) =
                    &mut s.completion;
                c.min_forward_m = nonneg(0.02);
            }
            "qualification" => {
                s.qualification.conditions_digest = DigestV1::from_hex(&"b".repeat(64)).unwrap()
            }
            _ => {
                s.profile.velocity_limits.max_abs_vx_mps = nonneg(0.2);
                s.qualification.profile_digest = s.profile.digest().unwrap();
            }
        });
        assert!(
            f.basis(&root, other, SessionEnforcementClassV1::AdapterIsolationOnly).is_err(),
            "{mode}"
        );
    }
    let requester = {
        let mut fields = f.scope.fields().clone();
        fields.requester = host("other");
        PhysicalReviewScopeV1::try_from(fields).unwrap()
    };
    assert!(f
        .basis(&root, requester, SessionEnforcementClassV1::AdapterIsolationOnly)
        .is_err());
}

#[test]
fn closed_root_attempt_stays_closed_as_revoked() {
    let mut f = Fixture::new();
    let (_, a) = f.approved();
    let root = f.start(&a).unwrap();
    assert!(f.validate_root(&root).is_ok());
    assert_eq!(
        f.core.ledger().attempt_state(root.root_id()),
        Some(AttemptStateV1::Open)
    );
    f.core.close_root(&root);
    assert_eq!(
        f.core.ledger().attempt_state(root.root_id()),
        Some(AttemptStateV1::Closed(CloseReasonV1::Revoked))
    );
    assert!(f.validate_root(&root).is_err());
    assert_eq!(
        f.core.ledger().attempt_state(root.root_id()),
        Some(AttemptStateV1::Closed(CloseReasonV1::Revoked))
    );
    assert!(f.start(&a).is_err());
    assert_eq!(f.attempts(), 1);
}

#[test]
fn root_deadline_is_remaining_wall_lifetime_in_ticks() {
    let mut f = Fixture::new();
    f.set(1000, 5);
    let root = f.root();
    // Approval expires at 1900 ms: 900 ms remain, less than the 1 s policy lifetime.
    assert_eq!(root.deadline_ticks(), 5 + 900_000);
    f.set(1899, 900_004);
    assert!(f.validate_root(&root).is_ok());
}

#[test]
fn intersection_keeps_the_smaller_ceiling_of_each() {
    let f = Fixture::new();
    let policy = changed(&f.scope, |s| {
        s.velocity_limits.max_abs_vy_mps = nonneg(0.06);
        s.execution.lease_duration_us = micros(700_000);
    });
    let reviewed = changed(&f.scope, |s| {
        s.velocity_limits.max_abs_vx_mps = nonneg(0.07);
    });
    let meet = intersect(&reviewed, &policy).unwrap();
    let m = meet.fields();
    assert_eq!(m.velocity_limits.max_abs_vx_mps, nonneg(0.07));
    assert_eq!(m.velocity_limits.max_abs_vy_mps, nonneg(0.06));
    assert_eq!(m.velocity_limits.max_abs_vyaw_radps, nonneg(0.1));
    assert_eq!(m.execution.lease_duration_us, micros(700_000));
    assert_eq!(m.execution.action_duration_us, micros(1_000_000));
    assert_eq!(m.intent, reviewed.fields().intent);
}

#[test]
fn intersection_with_itself_and_in_either_order() {
    let f = Fixture::new();
    let same = intersect(&f.scope, &f.scope).unwrap();
    assert_eq!(same.fields(), f.scope.fields());
    let policy = changed(&f.scope, |s| {
        s.velocity_limits.max_abs_vy_mps = nonneg(0.06);
        s.execution.lease_duration_us = micros(700_000);
    });
    let reviewed = changed(&f.scope, |s| {
        s.velocity_limits.max_abs_vx_mps = nonneg(0.07);
    });
    let ab = intersect(&reviewed, &policy).unwrap();
    let ba = intersect(&policy, &reviewed).unwrap();
    assert_eq!(ab.fields(), ba.fields());
    assert!(validate_narrowing(&reviewed, &ab).is_ok());
    assert!(validate_narrowing(&policy, &ab).is_ok());
    assert!(validate_narrowing(&f.scope, &f.scope).is_ok());
}

#[test]
fn invalid_scope_claims_are_refused() {
    let mut fields = scope_fields();
    fields.velocity_limits.max_abs_vx_mps = nonneg(0.2);
    assert!(PhysicalReviewScopeV1::try_from(fields).is_err());

    let mut fields = scope_fields();
    fields.loss = LossContractV1::MicroDuckZeroTwistV1;
    fields.execution.action_count = 2;
    assert!(PhysicalReviewScopeV1::try_from(fields).is_err());

    let mut fields = scope_fields();
    fields.qualification.binding_digest = digest_value();
    assert!(PhysicalReviewScopeV1::try_from(fields).is_err());

    let mut fields = scope_fields();
    fields.environment.evidence_class = EvidenceClassV1::Hardware;
    assert!(PhysicalReviewScopeV1::try_from(fields).is_err());

    assert!(PhysicalReviewScopeV1::try_from(scope_fields()).is_ok());
}

#[test]
fn enrollment_follows_registration_revisions() {
    let mut core = PhysicalControlServiceV1::new(LocalRuntimeRef::fresh(host("executor"))).unwrap();
    let registry = core.registry_mut();
    let mut second = binding();
    second.registration_revision = 2;
    assert!(registry.enroll(second.clone(), None).is_err());
    registry.enroll(binding(), None).unwrap();
    assert!(registry.enroll(binding(), None).is_err());
    assert!(registry.enroll(second.clone(), Some(2)).is_err());
    registry.enroll(second.clone(), Some(1)).unwrap();
    assert!(registry.resolve(&binding()).is_err());
    registry.resolve(&second).unwrap();
    registry.retire(&second.environment, 2).unwrap();
    assert!(registry.resolve(&second).is_err());
}

#[test]
fn domain_epochs_move_only_by_exact_compare_and_advance() {
    let mut core = PhysicalControlServiceV1::new(LocalRuntimeRef::fresh(host("executor"))).unwrap();
    let registry = core.registry_mut();
    let domains = binding().domains();
    assert!(registry.epochs(&domains).is_err());
    registry.enroll(binding(), None).unwrap();
    let first = registry.epochs(&domains).unwrap();
    assert_eq!(first.len(), 1);
    assert_eq!(first[0].epoch, 1);
    let live = registry.resolve(&binding()).unwrap();
    registry.check_binding(&live).unwrap();
    registry.advance_epochs(&first).unwrap();
    assert_eq!(registry.epochs(&domains).unwrap()[0].epoch, 2);
    assert!(registry.check_binding(&live).is_err());
    // A stale expectation, an empty list and a repeated domain change nothing.
    assert!(registry.advance_epochs(&first).is_err());
    assert!(registry.advance_epochs(&Vec::new()).is_err());
    let current = registry.epochs(&domains).unwrap();
    let twice = vec![current[0].clone(), current[0].clone()];
    assert!(registry.advance_epochs(&twice).is_err());
    assert_eq!(registry.epochs(&domains).unwrap()[0].epoch, 2);
    // Re-enrollment and retirement move the environment's domains on.
    let mut second = binding();
    second.registration_revision = 2;
    registry.enroll(second.clone(), Some(1)).unwrap();
    assert_eq!(registry.epochs(&domains).unwrap()[0].epoch, 3);
    registry.retire(&second.environment, 2).unwrap();
    assert_eq!(registry.epochs(&domains).unwrap()[0].epoch, 4);
}

#[test]
fn re_enrollment_keeps_executor_and_domains() {
    let mut core = PhysicalControlServiceV1::new(LocalRuntimeRef::fresh(host("executor"))).unwrap();
    let registry = core.registry_mut();
    registry.enroll(binding(), None).unwrap();
    let mut moved = binding();
    moved.registration_revision = 2;
    moved.executor = host("other");
    assert!(registry.enroll(moved, Some(1)).is_err());
    let mut widened = binding();
    widened.registration_revision = 2;
    widened.subsystems[0].subsystem.domains = vec![token("domain:v1:arm"), token("domain:v1:locomotion")];
    assert!(registry.enroll(widened, Some(1)).is_err());
    let mut same = binding();
    same.registration_revision = 2;
    registry.enroll(same, Some(1)).unwrap();
}

#[test]
fn withdrawal_needs_a_later_revision() {
    let mut f = Fixture::new();
    let qid = f.scope.fields().qualification.qualification_id.clone();
    let registry = f.core.registry_mut();
    assert!(registry.withdraw(&qid, 1).is_err());
    registry.withdraw(&qid, 2).unwrap();
    assert!(registry.withdraw(&qid, 2).is_err());
    registry.withdraw(&qid, 3).unwrap();
    assert!(registry.withdraw(&token("qualification:v1:unknown"), 5).is_err());
}

#[test]
fn restart_closes_audit_and_never_reconstructs_root_or_reuses_approval() {
    let mut f = Fixture::new();
    let (_, a) = f.approved();
    let root = f.start(&a).unwrap();
    let Fixture { core, live, now, ticks, .. } = f;
    let (registry, ledger) = core.into_records();
    let mut restarted =
        PhysicalControlServiceV1::reopen(LocalRuntimeRef::fresh(host("executor")), registry, ledger)
            .unwrap();
    assert_eq!(
        restarted.ledger().attempt_state(root.root_id()),
        Some(AttemptStateV1::Closed(CloseReasonV1::Interrupted))
    );
    assert!(restarted.validate_root(&root, millis(now), ticks).is_err());
    let ingress = restarted.local_ingress().unwrap();
    assert!(restarted
        .start_exact_action(&ingress, &a.approval_id, &live, millis(now), ticks)
        .is_err());
    assert_eq!(restarted.ledger().attempt_count(), 1);
}

#[test]
fn stored_rows_restore_only_when_consistent() {
    let mut f = Fixture::new();
    let root = f.root();
    let Fixture { core, .. } = f;
    let (_, ledger) = core.into_records();
    let (reviews, audits, states) = ledger.into_parts();
    assert_eq!(audits.len(), 1);
    let mut restored =
        PhysicalLedgerV1::restore(reviews.clone(), audits.clone(), states.clone()).unwrap();
    assert_eq!(restored.attempt_count(), 1);
    assert_eq!(restored.review_count(), reviews.len());
    assert_eq!(restored.attempt_state(root.root_id()), Some(AttemptStateV1::Open));
    assert!(restored.originate_attempt(root.audit().duplicate(), 1000).is_err());
    match PhysicalLedgerV1::restore(reviews.clone(), audits.clone(), Vec::new()) {
        Err(err) => assert_eq!(err.message(), "Physical Core records are inconsistent."),
        Ok(_) => panic!("a missing attempt state was accepted"),
    }
    let mut twice = audits.clone();
    twice.push(audits[0].duplicate());
    let mut two_states = states.clone();
    two_states.push(states[0].clone());
    assert!(PhysicalLedgerV1::restore(reviews.clone(), twice, two_states).is_err());
    assert!(PhysicalLedgerV1::restore(Vec::new(), audits.clone(), states.clone()).is_err());
    let mut doubled = reviews.clone();
    doubled.push(reviews[0].clone());
    assert!(PhysicalLedgerV1::restore(doubled, audits, states).is_err());
}

#[test]
fn stored_registry_facts_restore_only_when_consistent() {
    let f = Fixture::new();
    let Fixture { core, .. } = f;
    let (registry, _) = core.into_records();
    let (enrollments, qualifications, domains) = registry.into_parts();
    assert!(!enrollments.is_empty());
    assert!(!qualifications.is_empty());
    assert!(!domains.is_empty());
    let restored = PhysicalBindingRegistryV1::restore(enrollments, qualifications, domains).unwrap_or_else(|e| panic!("{}", e.message()));
    let (enrollments, qualifications, domains) = restored.into_parts();
    let kept = domains.len();
    match PhysicalBindingRegistryV1::restore(enrollments, qualifications, Vec::new()) {
        Err(err) => assert_eq!(err.message(), "Physical registry records are inconsistent."),
        Ok(_) => panic!("enrolled domains without epochs were accepted"),
    }
    assert!(kept > 0);
}

#[test]
fn closed_attempt_cannot_reopen_or_be_replaced_by_late_start() {
    let mut f = Fixture::new();
    let root = f.root();
    let audit = root.audit().duplicate();
    f.core.close_root(&root);
    let Fixture { core, .. } = f;
    let (_, mut ledger) = core.into_records();
    assert!(ledger.originate_attempt(audit, 1000).is_err());
    assert_eq!(
        ledger.attempt_state(root.root_id()),
        Some(AttemptStateV1::Closed(CloseReasonV1::Revoked))
    );
    assert_eq!(ledger.attempt_count(), 1);
}

fn lane_scope() -> PhysicalReviewScopeV1 {
    PhysicalReviewScopeV1::try_from(scope_fields()).unwrap()
}

fn lane_subsystem() -> SubsystemBindingViewV1 {
    binding().subsystems[0].subsystem.clone()
}

fn lane_epochs() -> Vec<DomainEpochV1> {
    fence_epochs(&vec![
        DomainEpochV1 { domain: token("domain:v1:locomotion"), epoch: 3 },
        DomainEpochV1 { domain: token("domain:v1:arm"), epoch: 7 },
    ])
    .unwrap()
}

/// A lane with session `session-1` reserved at tick 0 under a 1 s lease.
fn reserved_lane() -> ControlSessionsV1 {
    let mut lanes = ControlSessionsV1::new();
    let expiry = lanes
        .reserve(
            token("session-1"),
            token("root-1"),
            token("attempt-1"),
            token("install-1"),
            required_enforcement(
                SessionEnforcementClassV1::AdapterIsolationOnly,
                SessionEnforcementClassV1::AdapterIsolationOnly,
            ),
            lane_epochs(),
            lane_scope(),
            lane_subsystem(),
            1_000_000,
            5_000_000,
            1000,
            0,
        )
        .unwrap();
    assert_eq!(expiry, 2000);
    lanes
}

fn install_evidence() -> InstallEvidenceV1 {
    InstallEvidenceV1 {
        session_id: token("session-1"),
        request: token("install-1"),
        epochs: lane_epochs(),
        class: SessionEnforcementClassV1::AdapterIsolationOnly,
    }
}

fn active_lane() -> ControlSessionsV1 {
    let mut lanes = reserved_lane();
    let request = lanes.begin_install(&token("session-1"), 5).unwrap();
    assert_eq!(request.as_str(), "install-1");
    lanes.finish_install(&token("session-1"), Some(install_evidence()), 6).unwrap();
    lanes
}

fn observation(id: &str, captured: u64) -> TrustedControlObservationV1 {
    let s = lane_subsystem();
    TrustedControlObservationV1 {
        observation_id: token(id),
        session_id: token("session-1"),
        source: s.controller_incarnation.clone(),
        body: s.body_incarnation.clone(),
        world: s.world_incarnation.clone(),
        captured_ticks: captured,
        gap_us: 1000,
    }
}

fn lane_proposal(observation_id: &str) -> PhysicalActionProposalV1 {
    let intent = scope_fields().intent;
    PhysicalActionProposalV1 {
        version: VersionV1,
        attempt_id: token("attempt-1"),
        action_id: token("action-1"),
        decision_sequence: 1,
        payload: intent,
        payload_digest: intent.digest().unwrap(),
        challenge_id: token("challenge-1"),
        observations: vec![token(observation_id)],
        requested_duration_us: micros(500_000),
    }
}

/// An active lane with its grant, a fresh observation and a challenge.
fn challenged_lane() -> ControlSessionsV1 {
    let mut lanes = active_lane();
    let s = token("session-1");
    lanes.construct_grant(&s, token("grant-1"), token("action-1"), 10).unwrap();
    lanes.record_observation(&s, observation("observation-1", 10), 20).unwrap();
    let c = lanes.issue_challenge(&s, token("challenge-1"), 25).unwrap();
    assert_eq!(c.as_str(), "challenge-1");
    lanes
}

fn reply(request: &str, accepted: bool) -> LaneReplyV1 {
    LaneReplyV1 {
        session_id: token("session-1"),
        epochs: lane_epochs(),
        request: token(request),
        action_id: token("action-1"),
        payload_digest: scope_fields().intent.digest().unwrap(),
        accepted,
    }
}

#[test]
fn no_grant_or_challenge_before_active_session() {
    let mut lanes = reserved_lane();
    let s = token("session-1");
    assert_eq!(
        lanes.construct_grant(&s, token("grant-1"), token("action-1"), 10).unwrap_err().message(),
        "No private proof of session phase"
    );
    let mut lanes = reserved_lane();
    assert!(lanes.issue_challenge(&s, token("challenge-1"), 10).is_err());
}

#[test]
fn fenced_epochs_move_every_domain_past_the_greatest() {
    let epochs = lane_epochs();
    assert_eq!(epochs.len(), 2);
    assert!(epochs.iter().all(|e| e.epoch == 8));
    assert_eq!(epochs[1].domain.as_str(), "domain:v1:arm");
    assert!(fence_epochs(&vec![DomainEpochV1 { domain: token("d"), epoch: u64::MAX }]).is_err());
    assert_eq!(
        required_enforcement(
            SessionEnforcementClassV1::AdapterIsolationOnly,
            SessionEnforcementClassV1::NativeFence
        ),
        SessionEnforcementClassV1::NativeFence
    );
}

#[test]
fn reservation_needs_lease_time_left() {
    let mut lanes = ControlSessionsV1::new();
    let e = lanes
        .reserve(
            token("session-1"),
            token("root-1"),
            token("attempt-1"),
            token("install-1"),
            SessionEnforcementClassV1::AdapterIsolationOnly,
            lane_epochs(),
            lane_scope(),
            lane_subsystem(),
            1_000_000,
            500,
            1000,
            0,
        )
        .unwrap_err();
    assert_eq!(e.message(), "No audit lease remaining");
    let mut lanes = reserved_lane();
    let e = lanes
        .reserve(
            token("session-1"),
            token("root-1"),
            token("attempt-1"),
            token("install-1"),
            SessionEnforcementClassV1::AdapterIsolationOnly,
            lane_epochs(),
            lane_scope(),
            lane_subsystem(),
            1_000_000,
            5_000_000,
            1000,
            0,
        )
        .unwrap_err();
    assert_eq!(e.message(), "Session identity is not unique");
}

#[test]
fn installation_evidence_must_be_exact_and_failure_closes_the_root() {
    let mut lanes = reserved_lane();
    let s = token("session-1");
    lanes.begin_install(&s, 5).unwrap();
    assert_eq!(
        lanes.begin_install(&s, 5).unwrap_err().message(),
        "Session operation already in flight"
    );
    let mut wrong = install_evidence();
    wrong.request = token("install-2");
    assert_eq!(
        lanes.finish_install(&s, Some(wrong), 6).unwrap_err().message(),
        "Installation evidence mismatch"
    );
    assert_eq!(
        lanes.begin_install(&s, 7).unwrap_err().message(),
        "Unknown/closed session"
    );
}

#[test]
fn observations_are_from_the_trusted_source_in_order_and_never_replayed() {
    let mut lanes = active_lane();
    let s = token("session-1");
    let mut foreign = observation("observation-1", 10);
    foreign.body = token("incarnation:v1:other");
    assert_eq!(
        lanes.record_observation(&s, foreign, 20).unwrap_err().message(),
        "Observation source/session mismatch"
    );
    lanes.record_observation(&s, observation("observation-1", 10), 20).unwrap();
    assert_eq!(
        lanes.record_observation(&s, observation("observation-1", 15), 20).unwrap_err().message(),
        "Observation identity replay"
    );
    assert_eq!(
        lanes.record_observation(&s, observation("observation-2", 5), 20).unwrap_err().message(),
        "Observation replay/order/gap"
    );
    assert_eq!(
        lanes.record_observation(&s, observation("observation-3", 10), 300_000).unwrap_err().message(),
        "Observation stale or gapped"
    );
    lanes.record_observation(&s, observation("observation-4", 12), 30).unwrap();
}

#[test]
fn challenge_is_issued_once_and_proposal_must_answer_it() {
    let mut lanes = challenged_lane();
    let s = token("session-1");
    assert_eq!(
        lanes.issue_challenge(&s, token("challenge-2"), 26).unwrap_err().message(),
        "Challenge cannot be renewed"
    );
    let mut wrong = lane_proposal("observation-1");
    wrong.challenge_id = token("challenge-2");
    assert_eq!(
        lanes.admit_proposal(&s, wrong, 1000, 30).unwrap_err().message(),
        "Wrong/expired challenge"
    );
    let mut substituted = lane_proposal("observation-1");
    substituted.decision_sequence = 2;
    assert_eq!(
        lanes.admit_proposal(&s, substituted, 1000, 30).unwrap_err().message(),
        "Proposal identity mismatch"
    );
    assert_eq!(
        lanes.admit_proposal(&s, lane_proposal("observation-1"), 1000, 30).unwrap(),
        AdmissionV1::Admitted(token("action-1"))
    );
    assert_eq!(
        lanes.admit_proposal(&s, lane_proposal("observation-1"), 1000, 31).unwrap(),
        AdmissionV1::Duplicate(token("action-1"))
    );
}

#[test]
fn admitted_action_dispatches_once_and_refreshes_only_after_acceptance() {
    let mut lanes = challenged_lane();
    let s = token("session-1");
    lanes.admit_proposal(&s, lane_proposal("observation-1"), 1000, 30).unwrap();
    let a = token("action-1");
    assert_eq!(
        lanes.prepare_write(&a, token("op-0"), true, 40).unwrap_err().message(),
        "Refresh needs a private verified apply disposition"
    );
    lanes.prepare_write(&a, token("op-1"), false, 40).unwrap();
    assert_eq!(
        lanes.prepare_write(&a, token("op-2"), false, 41).unwrap_err().message(),
        "Lane operation in flight"
    );
    lanes.finish_write(&a, &token("op-1"), false, Some(reply("op-1", true)), 50).unwrap();
    assert_eq!(
        lanes.prepare_write(&a, token("op-3"), false, 60).unwrap_err().message(),
        "Action already had a Core dispatch decision"
    );
    lanes.prepare_write(&a, token("op-4"), true, 60).unwrap();
    lanes.finish_write(&a, &token("op-4"), true, Some(reply("op-4", true)), 70).unwrap();
}

#[test]
fn refused_or_unknown_write_closes_the_root() {
    let mut lanes = challenged_lane();
    let s = token("session-1");
    lanes.admit_proposal(&s, lane_proposal("observation-1"), 1000, 30).unwrap();
    let a = token("action-1");
    lanes.prepare_write(&a, token("op-1"), false, 40).unwrap();
    assert_eq!(
        lanes.finish_write(&a, &token("op-1"), false, Some(reply("op-2", true)), 50).unwrap_err().message(),
        "Fake lane refused or disposition unknown"
    );
    assert_eq!(
        lanes.prepare_write(&a, token("op-3"), true, 60).unwrap_err().message(),
        "Unknown/closed session"
    );
    lanes.close_root(&token("root-1"));
    assert!(lanes.record_observation(&s, observation("observation-9", 55), 60).is_err());
}

#[test]
fn binding_domains_come_once_each_in_identifier_order() {
    let mut b = binding();
    b.subsystems[0].subsystem.domains =
        vec![token("domain:v1:z"), token("domain:v1:a")];
    let mut second = b.subsystems[0].clone();
    second.label = label("manipulation");
    second.subsystem.domains = vec![token("domain:v1:m"), token("domain:v1:a")];
    b.subsystems.push(second);
    let names: Vec<String> = b.domains().iter().map(|d| d.as_str().to_string()).collect();
    assert_eq!(names, vec!["domain:v1:a", "domain:v1:m", "domain:v1:z"]);
}
