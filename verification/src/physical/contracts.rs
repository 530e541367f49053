//! Versioned claims for exact physical actions. None is executable authority.
//!
//! Validating a claim does not authenticate its producer or qualify a body.
//! Fields remain data, not permits; callers validate again after a change.
use vstd::prelude::*;

use crate::encode::{
    enc_digest, enc_enforcement, enc_evidence, enc_label, enc_text, enc_token, enc_u64,
    put_digest, put_enforcement, put_evidence, put_finite, put_label, put_micros, put_millis,
    put_nonneg, put_tag, put_text, put_token, put_u64,
};
use crate::error::{require, AppError, AppResult};
use crate::hashing::blake3_digest;
use crate::identity::HostRef;
use crate::physical::binding::{
    binding_same, lemma_binding_same, lemma_binding_same_equiv,
    binding_digest, binding_valid, domain_bytes, enc_binding, token_listed,
    tokens_strictly_ordered, token_ordered_at, EnvironmentBindingViewV1,
};
use crate::text::utf8;
use crate::values::{
    enforcement_eq, enforcement_rank, evidence_eq, magnitude_bits, ActionId, ApprovalId, AttemptId,
    ChallengeId, DigestV1, DomainId, EvidenceClassV1, Finite, LabelV1, NonNegative,
    ObservationId, PositiveMicros, QualificationId, ReviewId, SessionEnforcementClassV1, UnixMillis,
    VersionV1,
};

verus! {

#[derive(Clone, Copy, Debug, PartialEq, Eq)]
pub enum PhysicalScopeModeV1 {
    Exact,
}

#[derive(Clone, Copy, Debug, PartialEq, Eq)]
pub enum CapabilityV1 {
    MicroDuckVelocityV1,
}

#[derive(Clone, Copy, Debug, PartialEq, Eq)]
pub enum MicroDuckFrameV1 {
    Trunk,
}

/// A planar body velocity command in the trunk frame.
#[derive(Clone, Copy, Debug, PartialEq, Eq)]
pub struct MicroDuckVelocityV1 {
    pub vx_mps: Finite,
    pub vy_mps: Finite,
    pub vyaw_radps: Finite,
    pub frame: MicroDuckFrameV1,
}

impl MicroDuckVelocityV1 {
    /// Every component is already a checked finite scalar and frame.
    pub fn validate(&self) -> (r: AppResult<()>)
        ensures
            r is Ok,
    {
        Ok(())
    }
}

/// A capability-specific payload, not a universal body command vector.
#[derive(Clone, Copy, Debug, PartialEq, Eq)]
pub enum PhysicalIntentV1 {
    MicroDuckVelocityV1(MicroDuckVelocityV1),
}

/// Two intents command exactly the same velocity.
pub open spec fn intent_same(a: PhysicalIntentV1, b: PhysicalIntentV1) -> bool {
    let PhysicalIntentV1::MicroDuckVelocityV1(x) = a;
    let PhysicalIntentV1::MicroDuckVelocityV1(y) = b;
    &&& x.vx_mps.spec_bits() == y.vx_mps.spec_bits()
    &&& x.vy_mps.spec_bits() == y.vy_mps.spec_bits()
    &&& x.vyaw_radps.spec_bits() == y.vyaw_radps.spec_bits()
}

#[verifier::opaque]
pub open spec fn enc_intent(i: PhysicalIntentV1) -> Seq<u8> {
    let PhysicalIntentV1::MicroDuckVelocityV1(v) = i;
    seq![0u8] + enc_u64(v.vx_mps.spec_bits()) + enc_u64(v.vy_mps.spec_bits()) + enc_u64(
        v.vyaw_radps.spec_bits(),
    ) + seq![0u8]
}

pub open spec fn intent_digest(i: PhysicalIntentV1) -> Seq<u8> {
    blake3_digest(utf8("pastey-physical-intent-v1"@) + seq![0u8] + enc_intent(i))
}

impl PhysicalIntentV1 {
    pub fn encode(&self, buf: &mut Vec<u8>)
        ensures
            final(buf)@ == old(buf)@ + enc_intent(*self),
    {
        let PhysicalIntentV1::MicroDuckVelocityV1(v) = self;
        put_tag(buf, 0);
        put_finite(buf, &v.vx_mps);
        put_finite(buf, &v.vy_mps);
        put_finite(buf, &v.vyaw_radps);
        put_tag(buf, 0);
        assert(buf@ =~= old(buf)@ + enc_intent(*self)) by {
            reveal(enc_intent);
        }
    }

    pub fn digest(&self) -> (r: AppResult<DigestV1>)
        ensures
            r matches Ok(d) && d@ == intent_digest(*self),
    {
        let mut buf: Vec<u8> = Vec::new();
        self.encode(&mut buf);
        assert(buf@ =~= enc_intent(*self));
        Ok(DigestV1::of(domain_bytes("pastey-physical-intent-v1"), buf.as_slice()))
    }

    pub fn same(&self, other: &PhysicalIntentV1) -> (r: bool)
        ensures
            r == intent_same(*self, *other),
    {
        let PhysicalIntentV1::MicroDuckVelocityV1(x) = self;
        let PhysicalIntentV1::MicroDuckVelocityV1(y) = other;
        x.vx_mps.bits() == y.vx_mps.bits() && x.vy_mps.bits() == y.vy_mps.bits()
            && x.vyaw_radps.bits() == y.vyaw_radps.bits()
    }
}

/// Per-axis absolute velocity ceilings.
#[derive(Clone, Copy, Debug, PartialEq, Eq)]
pub struct VelocityLimitsV1 {
    pub max_abs_vx_mps: NonNegative,
    pub max_abs_vy_mps: NonNegative,
    pub max_abs_vyaw_radps: NonNegative,
}

/// Every commanded component lies within its ceiling in absolute value.
pub open spec fn limits_contain(l: VelocityLimitsV1, i: PhysicalIntentV1) -> bool {
    let PhysicalIntentV1::MicroDuckVelocityV1(v) = i;
    &&& magnitude_bits(v.vx_mps.spec_bits()) <= l.max_abs_vx_mps.spec_bits()
    &&& magnitude_bits(v.vy_mps.spec_bits()) <= l.max_abs_vy_mps.spec_bits()
    &&& magnitude_bits(v.vyaw_radps.spec_bits()) <= l.max_abs_vyaw_radps.spec_bits()
}

/// Each ceiling of `a` is at most the corresponding ceiling of `c`.
pub open spec fn limits_subset(a: VelocityLimitsV1, c: VelocityLimitsV1) -> bool {
    &&& a.max_abs_vx_mps.spec_bits() <= c.max_abs_vx_mps.spec_bits()
    &&& a.max_abs_vy_mps.spec_bits() <= c.max_abs_vy_mps.spec_bits()
    &&& a.max_abs_vyaw_radps.spec_bits() <= c.max_abs_vyaw_radps.spec_bits()
}

pub open spec fn enc_limits(l: VelocityLimitsV1) -> Seq<u8> {
    enc_u64(l.max_abs_vx_mps.spec_bits()) + enc_u64(l.max_abs_vy_mps.spec_bits()) + enc_u64(
        l.max_abs_vyaw_radps.spec_bits(),
    )
}

impl VelocityLimitsV1 {
    pub fn validate(&self) -> (r: AppResult<()>)
        ensures
            r is Ok,
    {
        Ok(())
    }

    pub fn contains(&self, intent: &PhysicalIntentV1) -> (r: bool)
        ensures
            r == limits_contain(*self, *intent),
    {
        let PhysicalIntentV1::MicroDuckVelocityV1(v) = intent;
        v.vx_mps.abs_bits() <= self.max_abs_vx_mps.bits() && v.vy_mps.abs_bits()
            <= self.max_abs_vy_mps.bits() && v.vyaw_radps.abs_bits()
            <= self.max_abs_vyaw_radps.bits()
    }

    pub fn is_subset_of(&self, ceiling: &VelocityLimitsV1) -> (r: bool)
        ensures
            r == limits_subset(*self, *ceiling),
    {
        self.max_abs_vx_mps.bits() <= ceiling.max_abs_vx_mps.bits() && self.max_abs_vy_mps.bits()
            <= ceiling.max_abs_vy_mps.bits() && self.max_abs_vyaw_radps.bits()
            <= ceiling.max_abs_vyaw_radps.bits()
    }

    pub fn encode(&self, buf: &mut Vec<u8>)
        ensures
            final(buf)@ == old(buf)@ + enc_limits(*self),
    {
        put_nonneg(buf, &self.max_abs_vx_mps);
        put_nonneg(buf, &self.max_abs_vy_mps);
        put_nonneg(buf, &self.max_abs_vyaw_radps);
        assert(buf@ =~= old(buf)@ + enc_limits(*self));
    }
}

/// Admission-time constraint. Not a lease or action lifetime.
#[derive(Clone, Copy, Debug, PartialEq, Eq)]
pub struct ProposalFreshnessV1(pub PositiveMicros);

impl ProposalFreshnessV1 {
    /// Whether an age (in nanoseconds) is strictly within the bound. The
    /// caller must establish the age from a trusted local challenge.
    pub fn allows_age(&self, age_nanos: u128) -> (r: bool)
        ensures
            r == (age_nanos < self.0.spec_get() * 1000),
    {
        age_nanos < (self.0.get() as u128) * 1000
    }
}

/// Bounds on the age of an observation and on the gap between observations.
#[derive(Clone, Copy, Debug, PartialEq, Eq)]
pub struct ObservationFreshnessV1 {
    pub max_age_us: PositiveMicros,
    pub max_gap_us: PositiveMicros,
}

impl ObservationFreshnessV1 {
    pub fn validate(&self) -> (r: AppResult<()>)
        ensures
            r is Ok,
    {
        Ok(())
    }

    /// Pure bounds check (ages and gaps in nanoseconds, bounds inclusive);
    /// callers still need qualified capture-time provenance.
    pub fn allows(&self, age_nanos: u128, gap_nanos: u128) -> (r: bool)
        ensures
            r == (age_nanos <= self.max_age_us.spec_get() * 1000 && gap_nanos
                <= self.max_gap_us.spec_get() * 1000),
    {
        age_nanos <= (self.max_age_us.get() as u128) * 1000 && gap_nanos <= (
        self.max_gap_us.get() as u128) * 1000
    }
}

#[derive(Clone, Copy, Debug, PartialEq, Eq)]
pub struct PhysicalFreshnessV1 {
    pub proposal: ProposalFreshnessV1,
    pub observation: ObservationFreshnessV1,
}

pub open spec fn freshness_subset(a: PhysicalFreshnessV1, c: PhysicalFreshnessV1) -> bool {
    &&& a.proposal.0.spec_get() <= c.proposal.0.spec_get()
    &&& a.observation.max_age_us.spec_get() <= c.observation.max_age_us.spec_get()
    &&& a.observation.max_gap_us.spec_get() <= c.observation.max_gap_us.spec_get()
}

pub open spec fn enc_freshness(f: PhysicalFreshnessV1) -> Seq<u8> {
    enc_u64(f.proposal.0.spec_get()) + enc_u64(f.observation.max_age_us.spec_get()) + enc_u64(
        f.observation.max_gap_us.spec_get(),
    )
}

impl PhysicalFreshnessV1 {
    pub fn validate(&self) -> (r: AppResult<()>)
        ensures
            r is Ok,
    {
        self.observation.validate()
    }

    pub fn is_subset_of(&self, ceiling: &PhysicalFreshnessV1) -> (r: bool)
        ensures
            r == freshness_subset(*self, *ceiling),
    {
        self.proposal.0.get() <= ceiling.proposal.0.get() && self.observation.max_age_us.get()
            <= ceiling.observation.max_age_us.get() && self.observation.max_gap_us.get()
            <= ceiling.observation.max_gap_us.get()
    }

    pub fn encode(&self, buf: &mut Vec<u8>)
        ensures
            final(buf)@ == old(buf)@ + enc_freshness(*self),
    {
        put_micros(buf, &self.proposal.0);
        put_micros(buf, &self.observation.max_age_us);
        put_micros(buf, &self.observation.max_gap_us);
        assert(buf@ =~= old(buf)@ + enc_freshness(*self));
    }
}

/// Future execution ceilings, not running deadlines.
#[derive(Clone, Copy, Debug, PartialEq, Eq)]
pub struct ExecutionBudgetV1 {
    pub action_duration_us: PositiveMicros,
    pub lease_duration_us: PositiveMicros,
    pub total_execution_us: PositiveMicros,
    pub action_count: u32,
}

/// Exactly one action, which fits in the cumulative budget.
pub open spec fn budget_valid(b: ExecutionBudgetV1) -> bool {
    b.action_count == 1 && b.action_duration_us.spec_get() <= b.total_execution_us.spec_get()
}

pub open spec fn budget_subset(a: ExecutionBudgetV1, c: ExecutionBudgetV1) -> bool {
    &&& a.action_duration_us.spec_get() <= c.action_duration_us.spec_get()
    &&& a.lease_duration_us.spec_get() <= c.lease_duration_us.spec_get()
    &&& a.total_execution_us.spec_get() <= c.total_execution_us.spec_get()
    &&& a.action_count <= c.action_count
}

pub open spec fn enc_budget(b: ExecutionBudgetV1) -> Seq<u8> {
    enc_u64(b.action_duration_us.spec_get()) + enc_u64(b.lease_duration_us.spec_get()) + enc_u64(
        b.total_execution_us.spec_get(),
    ) + enc_u64(b.action_count as u64)
}

impl ExecutionBudgetV1 {
    pub fn validate(&self) -> (r: AppResult<()>)
        ensures
            r is Ok <==> budget_valid(*self),
    {
        require(self.action_count == 1, "Stage 1 supports one exact action")?;
        require(
            self.action_duration_us.get() <= self.total_execution_us.get(),
            "Action duration exceeds cumulative execution budget",
        )
    }

    pub fn is_subset_of(&self, ceiling: &ExecutionBudgetV1) -> (r: bool)
        ensures
            r == budget_subset(*self, *ceiling),
    {
        self.action_duration_us.get() <= ceiling.action_duration_us.get()
            && self.lease_duration_us.get() <= ceiling.lease_duration_us.get()
            && self.total_execution_us.get() <= ceiling.total_execution_us.get()
            && self.action_count <= ceiling.action_count
    }

    pub fn encode(&self, buf: &mut Vec<u8>)
        ensures
            final(buf)@ == old(buf)@ + enc_budget(*self),
    {
        put_micros(buf, &self.action_duration_us);
        put_micros(buf, &self.lease_duration_us);
        put_micros(buf, &self.total_execution_us);
        put_u64(buf, self.action_count as u64);
        assert(buf@ =~= old(buf)@ + enc_budget(*self));
    }
}

#[derive(Clone, Copy, Debug, PartialEq, Eq)]
pub enum NativeBoundaryV1 {
    MicroDuckRobotIntentV1,
}

#[derive(Clone, Copy, Debug, PartialEq, Eq)]
pub enum LossContractV1 {
    MicroDuckZeroTwistV1,
}

#[derive(Clone, Copy, Debug, PartialEq, Eq)]
pub enum StartContractV1 {
    MicroDuckStandingNoSkillV1,
}

/// What a qualified environment offers for one capability.
#[derive(Clone, Debug, PartialEq, Eq)]
pub struct PhysicalCapabilityProfileV1 {
    pub version: VersionV1,
    pub capability: CapabilityV1,
    pub native_boundary: NativeBoundaryV1,
    pub subsystem: LabelV1,
    pub domain: DomainId,
    pub evidence_class: EvidenceClassV1,
    pub required_enforcement_class: SessionEnforcementClassV1,
    pub velocity_limits: VelocityLimitsV1,
    pub execution: ExecutionBudgetV1,
    pub freshness: PhysicalFreshnessV1,
    pub start: StartContractV1,
    pub loss: LossContractV1,
}

/// A valid budget, and hardware only with a native fence.
pub open spec fn profile_valid(p: PhysicalCapabilityProfileV1) -> bool {
    &&& budget_valid(p.execution)
    &&& (p.evidence_class != EvidenceClassV1::Hardware || p.required_enforcement_class
        == SessionEnforcementClassV1::NativeFence)
}

#[verifier::opaque]
pub open spec fn enc_profile(p: PhysicalCapabilityProfileV1) -> Seq<u8> {
    seq![0u8, 0u8] + enc_label(p.subsystem) + enc_token(p.domain) + enc_evidence(p.evidence_class)
        + enc_enforcement(p.required_enforcement_class) + enc_limits(p.velocity_limits)
        + enc_budget(p.execution) + enc_freshness(p.freshness) + seq![0u8, 0u8]
}

pub open spec fn profile_digest(p: PhysicalCapabilityProfileV1) -> Seq<u8> {
    blake3_digest(utf8("pastey-physical-profile-v1"@) + seq![0u8] + enc_profile(p))
}

/// The binding has a subsystem named `label` that occupies `domain`.
pub open spec fn binding_offers(b: EnvironmentBindingViewV1, label: Seq<char>, domain: Seq<char>) -> bool {
    exists|i: int|
        0 <= i < b.subsystems@.len() && #[trigger] b.subsystems@[i].label@ == label && token_listed(
            b.subsystems@[i].subsystem.domains@,
            domain,
        )
}

/// A valid profile that a valid binding offers on the same evidence class.
pub open spec fn profile_fits(p: PhysicalCapabilityProfileV1, b: EnvironmentBindingViewV1) -> bool {
    &&& profile_valid(p)
    &&& binding_valid(b)
    &&& p.evidence_class == b.evidence_class
    &&& binding_offers(b, p.subsystem@, p.domain@)
}

impl PhysicalCapabilityProfileV1 {
    pub fn validate(&self) -> (r: AppResult<()>)
        ensures
            r is Ok <==> profile_valid(*self),
    {
        self.execution.validate()?;
        self.freshness.validate()?;
        require(
            !evidence_eq(self.evidence_class, EvidenceClassV1::Hardware) || enforcement_eq(
                self.required_enforcement_class,
                SessionEnforcementClassV1::NativeFence,
            ),
            "The isolation-only MicroDuck profile is simulation-only",
        )
    }

    #[verifier::spinoff_prover]
    #[verifier::rlimit(40)]
    pub fn encode(&self, buf: &mut Vec<u8>)
        ensures
            final(buf)@ == old(buf)@ + enc_profile(*self),
    {
        put_tag(buf, 0);
        put_tag(buf, 0);
        put_label(buf, &self.subsystem);
        put_token(buf, &self.domain);
        put_evidence(buf, self.evidence_class);
        put_enforcement(buf, self.required_enforcement_class);
        self.velocity_limits.encode(buf);
        self.execution.encode(buf);
        self.freshness.encode(buf);
        put_tag(buf, 0);
        put_tag(buf, 0);
        assert(buf@ =~= old(buf)@ + enc_profile(*self)) by {
            reveal(enc_profile);
        }
    }

    pub fn digest(&self) -> (r: AppResult<DigestV1>)
        ensures
            r is Ok <==> profile_valid(*self),
            r matches Ok(d) ==> d@ == profile_digest(*self),
    {
        self.validate()?;
        let mut buf: Vec<u8> = Vec::new();
        self.encode(&mut buf);
        assert(buf@ =~= enc_profile(*self));
        Ok(DigestV1::of(domain_bytes("pastey-physical-profile-v1"), buf.as_slice()))
    }

    pub fn validate_binding(&self, binding: &EnvironmentBindingViewV1) -> (r: AppResult<()>)
        ensures
            r is Ok <==> profile_fits(*self, *binding),
    {
        self.validate()?;
        binding.validate()?;
        require(
            evidence_eq(self.evidence_class, binding.evidence_class),
            "Profile evidence class mismatch",
        )?;
        let mut i: usize = 0;
        while i < binding.subsystems.len()
            invariant
                i <= binding.subsystems@.len(),
                profile_valid(*self),
                binding_valid(*binding),
                self.evidence_class == binding.evidence_class,
                forall|k: int|
                    0 <= k < i ==> !(#[trigger] binding.subsystems@[k].label@ == self.subsystem@
                        && token_listed(binding.subsystems@[k].subsystem.domains@, self.domain@)),
            decreases binding.subsystems@.len() - i,
        {
            let entry = &binding.subsystems[i];
            if entry.label.same(&self.subsystem) {
                let mut j: usize = 0;
                while j < entry.subsystem.domains.len()
                    invariant
                        profile_valid(*self),
                        binding_valid(*binding),
                        self.evidence_class == binding.evidence_class,
                        i < binding.subsystems@.len(),
                        *entry == binding.subsystems@[i as int],
                        entry.label@ == self.subsystem@,
                        j <= entry.subsystem.domains@.len(),
                        forall|m: int| 0 <= m < j ==> entry.subsystem.domains@[m]@ != self.domain@,
                    decreases entry.subsystem.domains@.len() - j,
                {
                    if entry.subsystem.domains[j].same(&self.domain) {
                        assert(token_listed(entry.subsystem.domains@, self.domain@));
                        assert(binding.subsystems@[i as int].label@ == self.subsystem@);
                        assert(binding_offers(*binding, self.subsystem@, self.domain@));
                        return Ok(());
                    }
                    j = j + 1;
                }
                proof {
                    if token_listed(entry.subsystem.domains@, self.domain@) {
                        let m = choose|m: int| 0 <= m < entry.subsystem.domains@.len()
                            && entry.subsystem.domains@[m]@ == self.domain@;
                        assert(false);
                    }
                }
            }
            i = i + 1;
        }
        Err(AppError::InvalidInput("Missing profile subsystem/domain"))
    }
}

/// A qualification *claim*. Valid syntax/compatibility is not trusted qualification.
#[derive(Clone, Debug, PartialEq, Eq)]
pub struct PhysicalQualificationV1 {
    pub version: VersionV1,
    pub qualification_id: QualificationId,
    pub revision: u64,
    pub profile_digest: DigestV1,
    pub binding_digest: DigestV1,
    pub required_enforcement_class: SessionEnforcementClassV1,
    pub evidence_class: EvidenceClassV1,
    pub evidence_digest: DigestV1,
    pub conditions_digest: DigestV1,
    pub expires_at: UnixMillis,
}

pub open spec fn qualification_valid(q: PhysicalQualificationV1) -> bool {
    q.revision > 0
}

pub open spec fn enc_qualification_head(q: PhysicalQualificationV1) -> Seq<u8> {
    enc_token(q.qualification_id) + enc_u64(q.revision) + enc_digest(q.profile_digest) + enc_digest(
        q.binding_digest,
    )
}

pub open spec fn enc_qualification_tail(q: PhysicalQualificationV1) -> Seq<u8> {
    enc_enforcement(q.required_enforcement_class) + enc_evidence(q.evidence_class) + enc_digest(
        q.evidence_digest,
    ) + enc_digest(q.conditions_digest) + enc_u64(q.expires_at.spec_get())
}

#[verifier::opaque]
pub open spec fn enc_qualification(q: PhysicalQualificationV1) -> Seq<u8> {
    enc_qualification_head(q) + enc_qualification_tail(q)
}

pub open spec fn qualification_digest(q: PhysicalQualificationV1) -> Seq<u8> {
    blake3_digest(utf8("pastey-physical-qualification-v1"@) + seq![0u8] + enc_qualification(q))
}

/// The qualification names exactly this profile and binding, on the same
/// evidence class, without weakening the profile's enforcement.
pub open spec fn qualification_for(
    q: PhysicalQualificationV1,
    p: PhysicalCapabilityProfileV1,
    b: EnvironmentBindingViewV1,
) -> bool {
    &&& qualification_valid(q)
    &&& profile_fits(p, b)
    &&& q.profile_digest@ == profile_digest(p)
    &&& q.binding_digest@ == binding_digest(b)
    &&& q.evidence_class == p.evidence_class
    &&& enforcement_rank(q.required_enforcement_class) >= enforcement_rank(
        p.required_enforcement_class,
    )
}

impl PhysicalQualificationV1 {
    pub fn validate(&self) -> (r: AppResult<()>)
        ensures
            r is Ok <==> qualification_valid(*self),
    {
        require(self.revision > 0, "Missing qualification revision")
    }

    #[verifier::spinoff_prover]
    #[verifier::rlimit(40)]
    pub fn encode(&self, buf: &mut Vec<u8>)
        ensures
            final(buf)@ == old(buf)@ + enc_qualification(*self),
    {
        put_token(buf, &self.qualification_id);
        put_u64(buf, self.revision);
        put_digest(buf, &self.profile_digest);
        put_digest(buf, &self.binding_digest);
        let ghost b1 = buf@;
        assert(b1 =~= old(buf)@ + enc_qualification_head(*self));
        put_enforcement(buf, self.required_enforcement_class);
        put_evidence(buf, self.evidence_class);
        put_digest(buf, &self.evidence_digest);
        put_digest(buf, &self.conditions_digest);
        put_millis(buf, &self.expires_at);
        assert(buf@ =~= b1 + enc_qualification_tail(*self));
        assert(buf@ =~= old(buf)@ + enc_qualification(*self)) by {
            reveal(enc_qualification);
        }
    }

    pub fn digest(&self) -> (r: AppResult<DigestV1>)
        ensures
            r is Ok <==> qualification_valid(*self),
            r matches Ok(d) ==> d@ == qualification_digest(*self),
    {
        self.validate()?;
        let mut buf: Vec<u8> = Vec::new();
        self.encode(&mut buf);
        assert(buf@ =~= enc_qualification(*self));
        Ok(DigestV1::of(domain_bytes("pastey-physical-qualification-v1"), buf.as_slice()))
    }

    pub fn validate_for(
        &self,
        profile: &PhysicalCapabilityProfileV1,
        binding: &EnvironmentBindingViewV1,
    ) -> (r: AppResult<()>)
        ensures
            r is Ok <==> qualification_for(*self, *profile, *binding),
    {
        self.validate()?;
        profile.validate_binding(binding)?;
        let profile_digest = profile.digest()?;
        let binding_digest = binding.digest()?;
        require(
            self.profile_digest.same(&profile_digest) && self.binding_digest.same(&binding_digest),
            "Qualification does not match exact profile/binding",
        )?;
        require(
            evidence_eq(self.evidence_class, profile.evidence_class),
            "Qualification evidence class mismatch",
        )?;
        require(
            self.required_enforcement_class.meets(profile.required_enforcement_class),
            "Qualification cannot weaken profile enforcement",
        )
    }

    pub fn validate_enforcement(
        &self,
        profile: &PhysicalCapabilityProfileV1,
        binding: &EnvironmentBindingViewV1,
        claimed: SessionEnforcementClassV1,
    ) -> (r: AppResult<()>)
        ensures
            r is Ok <==> (qualification_for(*self, *profile, *binding) && enforcement_rank(claimed)
                >= enforcement_rank(self.required_enforcement_class)),
    {
        self.validate_for(profile, binding)?;
        require(
            claimed.meets(self.required_enforcement_class),
            "Insufficient enforcement evidence class",
        )
    }
}

#[derive(Clone, Copy, Debug, PartialEq, Eq)]
pub enum CompletionWitnessV1 {
    NativeMeasured,
    SimulationOracle,
}

/// Parameters only: no evaluator, observation stream or acceptance implementation.
#[derive(Clone, Debug, PartialEq, Eq)]
pub struct MicroDuckCompletionV1 {
    pub witness: CompletionWitnessV1,
    pub frame: LabelV1,
    pub min_forward_m: NonNegative,
    pub max_forward_m: NonNegative,
    pub max_lateral_m: NonNegative,
    pub max_settled_speed_mps: NonNegative,
    pub max_settled_angular_radps: NonNegative,
    pub max_position_uncertainty_m: NonNegative,
    pub no_fall: bool,
    pub dwell_us: PositiveMicros,
    pub settling_timeout_us: PositiveMicros,
    pub observation: ObservationFreshnessV1,
}

pub open spec fn completion_valid(c: MicroDuckCompletionV1) -> bool {
    &&& c.min_forward_m.spec_bits() <= c.max_forward_m.spec_bits()
    &&& c.dwell_us.spec_get() <= c.settling_timeout_us.spec_get()
    &&& c.no_fall
}

pub open spec fn enc_completion_head(c: MicroDuckCompletionV1) -> Seq<u8> {
    seq![0u8] + (match c.witness {
        CompletionWitnessV1::NativeMeasured => seq![0u8],
        CompletionWitnessV1::SimulationOracle => seq![1u8],
    }) + enc_label(c.frame)
}

pub open spec fn enc_completion_bounds(c: MicroDuckCompletionV1) -> Seq<u8> {
    enc_u64(c.min_forward_m.spec_bits()) + enc_u64(c.max_forward_m.spec_bits()) + enc_u64(
        c.max_lateral_m.spec_bits(),
    ) + enc_u64(c.max_settled_speed_mps.spec_bits()) + enc_u64(
        c.max_settled_angular_radps.spec_bits(),
    ) + enc_u64(c.max_position_uncertainty_m.spec_bits())
}

pub open spec fn enc_completion_timing(c: MicroDuckCompletionV1) -> Seq<u8> {
    (if c.no_fall {
        seq![1u8]
    } else {
        seq![0u8]
    }) + enc_u64(c.dwell_us.spec_get()) + enc_u64(c.settling_timeout_us.spec_get()) + enc_u64(
        c.observation.max_age_us.spec_get(),
    ) + enc_u64(c.observation.max_gap_us.spec_get())
}

#[verifier::opaque]
pub open spec fn enc_completion(c: MicroDuckCompletionV1) -> Seq<u8> {
    enc_completion_head(c) + enc_completion_bounds(c) + enc_completion_timing(c)
}

impl MicroDuckCompletionV1 {
    pub fn validate(&self) -> (r: AppResult<()>)
        ensures
            r is Ok <==> completion_valid(*self),
    {
        require(
            self.min_forward_m.bits() <= self.max_forward_m.bits(),
            "Inverted displacement interval",
        )?;
        require(
            self.dwell_us.get() <= self.settling_timeout_us.get(),
            "Dwell exceeds settling timeout",
        )?;
        require(self.no_fall, "MicroDuck v1 requires the no-fall completion predicate")?;
        self.observation.validate()
    }

    pub fn encode(&self, buf: &mut Vec<u8>)
        ensures
            final(buf)@ == old(buf)@ + enc_completion(*self),
    {
        put_tag(buf, 0);
        match self.witness {
            CompletionWitnessV1::NativeMeasured => put_tag(buf, 0),
            CompletionWitnessV1::SimulationOracle => put_tag(buf, 1),
        }
        put_label(buf, &self.frame);
        let ghost b1 = buf@;
        assert(b1 =~= old(buf)@ + enc_completion_head(*self));
        put_nonneg(buf, &self.min_forward_m);
        put_nonneg(buf, &self.max_forward_m);
        put_nonneg(buf, &self.max_lateral_m);
        put_nonneg(buf, &self.max_settled_speed_mps);
        put_nonneg(buf, &self.max_settled_angular_radps);
        put_nonneg(buf, &self.max_position_uncertainty_m);
        let ghost b2 = buf@;
        assert(b2 =~= b1 + enc_completion_bounds(*self));
        put_tag(buf, if self.no_fall { 1u8 } else { 0u8 });
        put_micros(buf, &self.dwell_us);
        put_micros(buf, &self.settling_timeout_us);
        put_micros(buf, &self.observation.max_age_us);
        put_micros(buf, &self.observation.max_gap_us);
        assert(buf@ =~= b2 + enc_completion_timing(*self));
        assert(buf@ =~= old(buf)@ + enc_completion(*self)) by {
            reveal(enc_completion);
        }
    }
}

#[derive(Clone, Debug, PartialEq, Eq)]
pub enum PhysicalCompletionContractV1 {
    MicroDuckDisplacementSettledV1(MicroDuckCompletionV1),
}


/// Every field of an exact reviewed physical action.
#[derive(Clone, Debug, PartialEq, Eq)]
pub struct ReviewScopeFieldsV1 {
    pub version: VersionV1,
    pub principal: LabelV1,
    pub requester: HostRef,
    pub executor: HostRef,
    pub environment: EnvironmentBindingViewV1,
    pub profile: PhysicalCapabilityProfileV1,
    pub qualification: PhysicalQualificationV1,
    pub mode: PhysicalScopeModeV1,
    pub intent: PhysicalIntentV1,
    pub velocity_limits: VelocityLimitsV1,
    pub execution: ExecutionBudgetV1,
    pub freshness: PhysicalFreshnessV1,
    pub completion: PhysicalCompletionContractV1,
    pub loss: LossContractV1,
}

/// The completion parameters of a scope.
pub open spec fn scope_completion(s: ReviewScopeFieldsV1) -> MicroDuckCompletionV1 {
    let PhysicalCompletionContractV1::MicroDuckDisplacementSettledV1(c) = s.completion;
    c
}

/// The completion contract is valid, simulation oracles only witness
/// simulation, and completion observations are at least as fresh as the scope's.
pub open spec fn scope_completion_ok(s: ReviewScopeFieldsV1) -> bool {
    let c = scope_completion(s);
    &&& completion_valid(c)
    &&& (c.witness != CompletionWitnessV1::SimulationOracle || s.environment.evidence_class
        == EvidenceClassV1::Simulation)
    &&& c.observation.max_age_us.spec_get() <= s.freshness.observation.max_age_us.spec_get()
    &&& c.observation.max_gap_us.spec_get() <= s.freshness.observation.max_gap_us.spec_get()
}

/// The declared ceilings fit the profile and contain the intent.
pub open spec fn scope_bounds_ok(s: ReviewScopeFieldsV1) -> bool {
    &&& budget_valid(s.execution)
    &&& limits_subset(s.velocity_limits, s.profile.velocity_limits)
    &&& limits_contain(s.velocity_limits, s.intent)
    &&& budget_subset(s.execution, s.profile.execution)
    &&& freshness_subset(s.freshness, s.profile.freshness)
}

/// A valid exact scope: the executor's valid binding, an exactly matching
/// qualification, ceilings within the profile that contain the intent, the
/// profile's loss contract, and a consistent completion contract.
pub open spec fn scope_valid(s: ReviewScopeFieldsV1) -> bool {
    &&& binding_valid(s.environment)
    &&& s.environment.executor@ == s.executor@
    &&& qualification_for(s.qualification, s.profile, s.environment)
    &&& scope_bounds_ok(s)
    &&& s.loss == s.profile.loss
    &&& scope_completion_ok(s)
}

pub open spec fn enc_scope_parties(s: ReviewScopeFieldsV1) -> Seq<u8> {
    enc_label(s.principal) + enc_text(s.requester@) + enc_text(s.executor@)
}

pub open spec fn enc_scope_basis(s: ReviewScopeFieldsV1) -> Seq<u8> {
    enc_binding(s.environment) + enc_profile(s.profile) + enc_qualification(s.qualification)
}

pub open spec fn enc_scope_action(s: ReviewScopeFieldsV1) -> Seq<u8> {
    seq![0u8] + enc_intent(s.intent) + enc_completion(scope_completion(s)) + seq![0u8]
}

/// Encoding of everything but the three ceilings (velocity, execution, freshness).
pub open spec fn enc_scope_semantic(s: ReviewScopeFieldsV1) -> Seq<u8> {
    enc_scope_parties(s) + enc_scope_basis(s) + enc_scope_action(s)
}

/// Encoding of the three ceilings.
pub open spec fn enc_scope_bounds(s: ReviewScopeFieldsV1) -> Seq<u8> {
    enc_limits(s.velocity_limits) + enc_budget(s.execution) + enc_freshness(s.freshness)
}

pub open spec fn enc_scope(s: ReviewScopeFieldsV1) -> Seq<u8> {
    enc_scope_semantic(s) + enc_scope_bounds(s)
}

pub open spec fn scope_digest(s: ReviewScopeFieldsV1) -> Seq<u8> {
    blake3_digest(utf8("pastey-physical-review-scope-v1"@) + seq![0u8] + enc_scope(s))
}

/// Two scopes encode their semantic fields to the same bytes.
pub open spec fn same_semantic_encoding(a: ReviewScopeFieldsV1, b: ReviewScopeFieldsV1) -> bool {
    enc_scope_semantic(a) == enc_scope_semantic(b)
}

impl ReviewScopeFieldsV1 {
    #[verifier::rlimit(40)]
    pub fn validate(&self) -> (r: AppResult<()>)
        ensures
            r is Ok <==> scope_valid(*self),
    {
        self.environment.validate_selection(&self.executor, &self.environment.environment)?;
        self.qualification.validate_for(&self.profile, &self.environment)?;
        self.execution.validate()?;
        self.freshness.validate()?;
        require(
            self.velocity_limits.is_subset_of(&self.profile.velocity_limits)
                && self.velocity_limits.contains(&self.intent),
            "Intent/velocity bounds exceed profile",
        )?;
        require(
            self.execution.is_subset_of(&self.profile.execution),
            "Execution budget exceeds profile",
        )?;
        require(self.freshness.is_subset_of(&self.profile.freshness), "Freshness weakens profile")?;
        let PhysicalCompletionContractV1::MicroDuckDisplacementSettledV1(c) = &self.completion;
        c.validate()?;
        let oracle = match c.witness {
            CompletionWitnessV1::SimulationOracle => true,
            CompletionWitnessV1::NativeMeasured => false,
        };
        require(
            !oracle || evidence_eq(self.environment.evidence_class, EvidenceClassV1::Simulation),
            "Simulation oracle cannot support hardware completion",
        )?;
        require(
            c.observation.max_age_us.get() <= self.freshness.observation.max_age_us.get()
                && c.observation.max_gap_us.get() <= self.freshness.observation.max_gap_us.get(),
            "Completion observation freshness weakens scope",
        )
    }

    pub fn encode_semantic(&self, buf: &mut Vec<u8>)
        ensures
            final(buf)@ == old(buf)@ + enc_scope_semantic(*self),
    {
        let ghost b0 = buf@;
        put_label(buf, &self.principal);
        put_text(buf, self.requester.as_str());
        put_text(buf, self.executor.as_str());
        let ghost b1 = buf@;
        assert(b1 =~= b0 + enc_scope_parties(*self));
        self.environment.encode(buf);
        self.profile.encode(buf);
        self.qualification.encode(buf);
        let ghost b2 = buf@;
        assert(b2 =~= b1 + enc_scope_basis(*self));
        put_tag(buf, 0);
        self.intent.encode(buf);
        let PhysicalCompletionContractV1::MicroDuckDisplacementSettledV1(c) = &self.completion;
        c.encode(buf);
        put_tag(buf, 0);
        assert(buf@ =~= b2 + enc_scope_action(*self));
        assert(buf@ =~= old(buf)@ + enc_scope_semantic(*self));
    }

    pub fn encode_bounds(&self, buf: &mut Vec<u8>)
        ensures
            final(buf)@ == old(buf)@ + enc_scope_bounds(*self),
    {
        self.velocity_limits.encode(buf);
        self.execution.encode(buf);
        self.freshness.encode(buf);
        assert(buf@ =~= old(buf)@ + enc_scope_bounds(*self));
    }

    /// Whether the two scopes agree on every field except the three ceilings.
    pub fn same_semantics(&self, other: &ReviewScopeFieldsV1) -> (r: bool)
        ensures
            r == semantic_same(*self, *other),
    {
        let PhysicalCompletionContractV1::MicroDuckDisplacementSettledV1(c) = &self.completion;
        let PhysicalCompletionContractV1::MicroDuckDisplacementSettledV1(d) = &other.completion;
        self.principal.same(&other.principal) && self.requester.same(&other.requester)
            && self.executor.same(&other.executor) && self.environment.same(&other.environment)
            && self.profile.same(&other.profile) && self.qualification.same(&other.qualification)
            && self.intent.same(&other.intent) && c.same(d)
    }
}

/// Immutable scope value: no mutation API, no approval metadata, no authority.
/// Only `try_from` builds one, so every scope is valid.
#[derive(Debug, PartialEq, Eq)]
pub struct PhysicalReviewScopeV1 {
    fields: ReviewScopeFieldsV1,
}

impl PhysicalReviewScopeV1 {
    pub closed spec fn spec_fields(self) -> ReviewScopeFieldsV1 {
        self.fields
    }

    /// Every sealed scope is valid.
    #[verifier::type_invariant]
    pub open spec fn sealed(self) -> bool {
        scope_valid(self.spec_fields())
    }

    /// Seals exactly the valid scopes.
    pub fn try_from(fields: ReviewScopeFieldsV1) -> (r: AppResult<PhysicalReviewScopeV1>)
        ensures
            r is Ok <==> scope_valid(fields),
            r matches Ok(s) ==> s.spec_fields() == fields,
    {
        fields.validate()?;
        Ok(PhysicalReviewScopeV1 { fields })
    }

    pub fn fields(&self) -> (r: &ReviewScopeFieldsV1)
        ensures
            *r == self.spec_fields(),
    {
        &self.fields
    }

    /// The fields back, for a caller that changes and seals them again.
    pub fn into_fields(self) -> (r: ReviewScopeFieldsV1)
        ensures
            r == self.spec_fields(),
    {
        self.fields
    }

    pub fn digest(&self) -> (r: AppResult<DigestV1>)
        ensures
            r matches Ok(d) && d@ == scope_digest(self.spec_fields()),
    {
        let mut buf: Vec<u8> = Vec::new();
        self.fields.encode_semantic(&mut buf);
        self.fields.encode_bounds(&mut buf);
        assert(buf@ =~= enc_scope(self.fields));
        Ok(DigestV1::of(domain_bytes("pastey-physical-review-scope-v1"), buf.as_slice()))
    }
}

/// The correlation of an approval decision with one exact review revision.
#[derive(Clone, Debug, PartialEq, Eq)]
pub struct ApprovalCorrelationV1 {
    pub approval_id: ApprovalId,
    pub review_id: ReviewId,
    pub review_revision: u64,
    pub scope_digest: DigestV1,
    pub principal: LabelV1,
    pub approved_at: UnixMillis,
    pub expires_at: UnixMillis,
}

pub open spec fn approval_valid(a: ApprovalCorrelationV1) -> bool {
    a.review_revision > 0 && a.approved_at.spec_get() < a.expires_at.spec_get()
}

/// Equality of every field.
pub open spec fn approval_same(a: ApprovalCorrelationV1, b: ApprovalCorrelationV1) -> bool {
    &&& a.approval_id@ == b.approval_id@
    &&& a.review_id@ == b.review_id@
    &&& a.review_revision == b.review_revision
    &&& a.scope_digest@ == b.scope_digest@
    &&& a.principal@ == b.principal@
    &&& a.approved_at.spec_get() == b.approved_at.spec_get()
    &&& a.expires_at.spec_get() == b.expires_at.spec_get()
}

impl ApprovalCorrelationV1 {
    pub fn validate(&self) -> (r: AppResult<()>)
        ensures
            r is Ok <==> approval_valid(*self),
    {
        require(
            self.review_revision > 0 && self.approved_at.get() < self.expires_at.get(),
            "Invalid approval correlation/interval",
        )
    }

    pub fn duplicate(&self) -> (r: ApprovalCorrelationV1)
        ensures
            approval_same(r, *self),
    {
        ApprovalCorrelationV1 {
            approval_id: self.approval_id.duplicate(),
            review_id: self.review_id.duplicate(),
            review_revision: self.review_revision,
            scope_digest: self.scope_digest.duplicate(),
            principal: self.principal.duplicate(),
            approved_at: self.approved_at,
            expires_at: self.expires_at,
        }
    }
}

#[derive(Clone, Copy, Debug, PartialEq, Eq)]
pub enum PhysicalReviewStateV1 {
    Draft,
    Reviewed,
    Approved,
    Rejected,
    Expired,
}

/// A review/approval record is still just a claim.
#[derive(Clone, Debug, PartialEq, Eq)]
pub struct PhysicalReviewRecordV1 {
    pub version: VersionV1,
    pub review_id: ReviewId,
    pub revision: u64,
    pub scope: PhysicalReviewScopeV1,
    pub scope_digest: DigestV1,
    pub state: PhysicalReviewStateV1,
    pub approval: Option<ApprovalCorrelationV1>,
}

/// Approved records carry a correlation; draft, reviewed and rejected ones do
/// not; a correlation names exactly this review revision and scope.
pub open spec fn record_valid(r: PhysicalReviewRecordV1) -> bool {
    &&& r.revision > 0
    &&& r.scope_digest@ == scope_digest(r.scope.spec_fields())
    &&& !(r.state == PhysicalReviewStateV1::Approved && r.approval is None)
    &&& !((r.state == PhysicalReviewStateV1::Draft || r.state == PhysicalReviewStateV1::Reviewed
        || r.state == PhysicalReviewStateV1::Rejected) && r.approval is Some)
    &&& r.approval matches Some(a) ==> {
        &&& approval_valid(a)
        &&& a.review_id@ == r.review_id@
        &&& a.review_revision == r.revision
        &&& a.scope_digest@ == r.scope_digest@
    }
}

impl PhysicalReviewRecordV1 {
    pub fn validate(&self) -> (r: AppResult<()>)
        ensures
            r is Ok <==> record_valid(*self),
    {
        let d = self.scope.digest()?;
        require(self.revision > 0 && self.scope_digest.same(&d), "Review scope digest/revision mismatch")?;
        match (&self.state, &self.approval) {
            (PhysicalReviewStateV1::Approved, None) => {
                return Err(AppError::InvalidInput("Approved record needs correlation"));
            },
            (PhysicalReviewStateV1::Draft, Some(_))
            | (PhysicalReviewStateV1::Reviewed, Some(_))
            | (PhysicalReviewStateV1::Rejected, Some(_)) => {
                return Err(AppError::InvalidInput("Unexpected approval on unapproved review"));
            },
            _ => {},
        }
        if let Some(a) = &self.approval {
            a.validate()?;
            require(
                a.review_id.same(&self.review_id) && a.review_revision == self.revision
                    && a.scope_digest.same(&self.scope_digest),
                "Approval refers to another review scope",
            )?;
        }
        Ok(())
    }
}

/// A proposed exact action within an attempt.
#[derive(Clone, Debug, PartialEq, Eq)]
pub struct PhysicalActionProposalV1 {
    pub version: VersionV1,
    pub attempt_id: AttemptId,
    pub action_id: ActionId,
    pub decision_sequence: u64,
    pub payload: PhysicalIntentV1,
    pub payload_digest: DigestV1,
    pub challenge_id: ChallengeId,
    pub observations: Vec<ObservationId>,
    pub requested_duration_us: PositiveMicros,
}

/// Most observation references per proposal.
pub const MAX_OBSERVATIONS: usize = 64;

pub open spec fn proposal_valid(p: PhysicalActionProposalV1) -> bool {
    &&& p.decision_sequence > 0
    &&& p.payload_digest@ == intent_digest(p.payload)
    &&& 0 < p.observations@.len() <= MAX_OBSERVATIONS
    &&& tokens_strictly_ordered(p.observations@)
}

impl PhysicalActionProposalV1 {
    pub fn validate(&self) -> (r: AppResult<()>)
        ensures
            r is Ok <==> proposal_valid(*self),
    {
        let d = self.payload.digest()?;
        require(
            self.decision_sequence > 0 && self.payload_digest.same(&d),
            "Invalid proposal identity/digest",
        )?;
        require(
            !self.observations.is_empty() && self.observations.len() <= MAX_OBSERVATIONS,
            "Invalid proposal observation references",
        )?;
        let mut i: usize = 0;
        while i + 1 < self.observations.len()
            invariant
                0 < self.observations@.len() <= MAX_OBSERVATIONS,
                i < self.observations@.len(),
                forall|j: int| 0 <= j < i ==> #[trigger] token_ordered_at(self.observations@, j),
            decreases self.observations@.len() - i,
        {
            if !self.observations[i].precedes(&self.observations[i + 1]) {
                assert(!token_ordered_at(self.observations@, i as int));
                return Err(AppError::InvalidInput("Invalid proposal observation references"));
            }
            i = i + 1;
        }
        Ok(())
    }

    /// Structural compatibility only: the exact reviewed intent and a duration
    /// within the reviewed action duration. Does not validate live challenge
    /// age, authority, observation provenance or budgets already consumed.
    pub fn validate_scope(&self, scope: &PhysicalReviewScopeV1) -> (r: AppResult<()>)
        ensures
            r is Ok <==> (proposal_valid(*self) && intent_same(self.payload, scope.spec_fields().intent)
                && self.requested_duration_us.spec_get()
                <= scope.spec_fields().execution.action_duration_us.spec_get()),
    {
        self.validate()?;
        require(
            self.payload.same(&scope.fields().intent) && self.requested_duration_us.get()
                <= scope.fields().execution.action_duration_us.get(),
            "Proposal differs from exact reviewed action",
        )
    }
}


pub open spec fn limits_same(a: VelocityLimitsV1, b: VelocityLimitsV1) -> bool {
    limits_subset(a, b) && limits_subset(b, a)
}

pub open spec fn budget_same(a: ExecutionBudgetV1, b: ExecutionBudgetV1) -> bool {
    budget_subset(a, b) && budget_subset(b, a)
}

pub open spec fn freshness_same(a: PhysicalFreshnessV1, b: PhysicalFreshnessV1) -> bool {
    freshness_subset(a, b) && freshness_subset(b, a)
}

/// Equality of every field, by value.
pub open spec fn profile_same(a: PhysicalCapabilityProfileV1, b: PhysicalCapabilityProfileV1) -> bool {
    &&& a.subsystem@ == b.subsystem@
    &&& a.domain@ == b.domain@
    &&& a.evidence_class == b.evidence_class
    &&& a.required_enforcement_class == b.required_enforcement_class
    &&& limits_same(a.velocity_limits, b.velocity_limits)
    &&& budget_same(a.execution, b.execution)
    &&& freshness_same(a.freshness, b.freshness)
    &&& a.loss == b.loss
}

impl PhysicalCapabilityProfileV1 {
    /// Field-by-field equality, by value.
    pub fn same(&self, other: &PhysicalCapabilityProfileV1) -> (r: bool)
        ensures
            r == profile_same(*self, *other),
    {
        self.subsystem.same(&other.subsystem) && self.domain.same(&other.domain) && evidence_eq(
            self.evidence_class,
            other.evidence_class,
        ) && enforcement_eq(self.required_enforcement_class, other.required_enforcement_class)
            && self.velocity_limits.is_subset_of(&other.velocity_limits)
            && other.velocity_limits.is_subset_of(&self.velocity_limits)
            && self.execution.is_subset_of(&other.execution) && other.execution.is_subset_of(
            &self.execution,
        ) && self.freshness.is_subset_of(&other.freshness) && other.freshness.is_subset_of(
            &self.freshness,
        )
    }
}

impl MicroDuckCompletionV1 {
    /// Field-by-field equality, by value.
    pub fn same(&self, other: &MicroDuckCompletionV1) -> (r: bool)
        ensures
            r == completion_same(*self, *other),
    {
        let witness = match (self.witness, other.witness) {
            (CompletionWitnessV1::NativeMeasured, CompletionWitnessV1::NativeMeasured) => true,
            (CompletionWitnessV1::SimulationOracle, CompletionWitnessV1::SimulationOracle) => true,
            _ => false,
        };
        witness && self.frame.same(&other.frame) && self.min_forward_m.bits() == other.min_forward_m.bits()
            && self.max_forward_m.bits() == other.max_forward_m.bits() && self.max_lateral_m.bits()
            == other.max_lateral_m.bits() && self.max_settled_speed_mps.bits()
            == other.max_settled_speed_mps.bits() && self.max_settled_angular_radps.bits()
            == other.max_settled_angular_radps.bits() && self.max_position_uncertainty_m.bits()
            == other.max_position_uncertainty_m.bits() && self.no_fall == other.no_fall
            && self.dwell_us.get() == other.dwell_us.get() && self.settling_timeout_us.get()
            == other.settling_timeout_us.get() && self.observation.max_age_us.get()
            == other.observation.max_age_us.get() && self.observation.max_gap_us.get()
            == other.observation.max_gap_us.get()
    }
}

/// Equality of every field, by value.
pub open spec fn qualification_same(a: PhysicalQualificationV1, b: PhysicalQualificationV1) -> bool {
    &&& a.qualification_id@ == b.qualification_id@
    &&& a.revision == b.revision
    &&& a.profile_digest@ == b.profile_digest@
    &&& a.binding_digest@ == b.binding_digest@
    &&& a.required_enforcement_class == b.required_enforcement_class
    &&& a.evidence_class == b.evidence_class
    &&& a.evidence_digest@ == b.evidence_digest@
    &&& a.conditions_digest@ == b.conditions_digest@
    &&& a.expires_at.spec_get() == b.expires_at.spec_get()
}

/// Equality of every field, by value.
pub open spec fn completion_same(a: MicroDuckCompletionV1, b: MicroDuckCompletionV1) -> bool {
    &&& a.witness == b.witness
    &&& a.frame@ == b.frame@
    &&& a.min_forward_m.spec_bits() == b.min_forward_m.spec_bits()
    &&& a.max_forward_m.spec_bits() == b.max_forward_m.spec_bits()
    &&& a.max_lateral_m.spec_bits() == b.max_lateral_m.spec_bits()
    &&& a.max_settled_speed_mps.spec_bits() == b.max_settled_speed_mps.spec_bits()
    &&& a.max_settled_angular_radps.spec_bits() == b.max_settled_angular_radps.spec_bits()
    &&& a.max_position_uncertainty_m.spec_bits() == b.max_position_uncertainty_m.spec_bits()
    &&& a.no_fall == b.no_fall
    &&& a.dwell_us.spec_get() == b.dwell_us.spec_get()
    &&& a.settling_timeout_us.spec_get() == b.settling_timeout_us.spec_get()
    &&& a.observation.max_age_us.spec_get() == b.observation.max_age_us.spec_get()
    &&& a.observation.max_gap_us.spec_get() == b.observation.max_gap_us.spec_get()
}

/// Every semantic field (all but the three ceilings) equal, by value.
pub open spec fn semantic_same(a: ReviewScopeFieldsV1, b: ReviewScopeFieldsV1) -> bool {
    &&& a.principal@ == b.principal@
    &&& a.requester@ == b.requester@
    &&& a.executor@ == b.executor@
    &&& binding_same(a.environment, b.environment)
    &&& profile_same(a.profile, b.profile)
    &&& qualification_same(a.qualification, b.qualification)
    &&& intent_same(a.intent, b.intent)
    &&& completion_same(scope_completion(a), scope_completion(b))
    &&& a.loss == b.loss
}

/// Agreement outside the three ceilings is symmetric and transitive.
pub proof fn lemma_semantic_same_equivalence(a: ReviewScopeFieldsV1, b: ReviewScopeFieldsV1, c: ReviewScopeFieldsV1)
    ensures
        semantic_same(a, a),
        semantic_same(a, b) ==> semantic_same(b, a),
        semantic_same(a, b) && semantic_same(b, c) ==> semantic_same(a, c),
{
    lemma_binding_same_equiv(a.environment, b.environment, c.environment);
}

/// Every field equal, by value.
pub open spec fn fields_same(a: ReviewScopeFieldsV1, b: ReviewScopeFieldsV1) -> bool {
    &&& semantic_same(a, b)
    &&& limits_same(a.velocity_limits, b.velocity_limits)
    &&& budget_same(a.execution, b.execution)
    &&& freshness_same(a.freshness, b.freshness)
}

/// The conditions of a valid scope that do not involve its ceilings.
pub open spec fn scope_basis_ok(s: ReviewScopeFieldsV1) -> bool {
    let c = scope_completion(s);
    &&& binding_valid(s.environment)
    &&& s.environment.executor@ == s.executor@
    &&& qualification_for(s.qualification, s.profile, s.environment)
    &&& s.loss == s.profile.loss
    &&& completion_valid(c)
    &&& (c.witness != CompletionWitnessV1::SimulationOracle || s.environment.evidence_class
        == EvidenceClassV1::Simulation)
}

/// The conditions of a valid scope on given ceilings: one action within the
/// cumulative budget, every ceiling within the profile's, velocity ceilings
/// containing the intent, and completion observations at least as fresh.
pub open spec fn ceilings_fit(
    s: ReviewScopeFieldsV1,
    vx: u64,
    vy: u64,
    vyaw: u64,
    action: u64,
    lease: u64,
    total: u64,
    count: u64,
    proposal: u64,
    age: u64,
    gap: u64,
) -> bool {
    let p = s.profile;
    let c = scope_completion(s);
    let PhysicalIntentV1::MicroDuckVelocityV1(v) = s.intent;
    &&& count == 1 && action <= total
    &&& vx <= p.velocity_limits.max_abs_vx_mps.spec_bits()
    &&& vy <= p.velocity_limits.max_abs_vy_mps.spec_bits()
    &&& vyaw <= p.velocity_limits.max_abs_vyaw_radps.spec_bits()
    &&& magnitude_bits(v.vx_mps.spec_bits()) <= vx
    &&& magnitude_bits(v.vy_mps.spec_bits()) <= vy
    &&& magnitude_bits(v.vyaw_radps.spec_bits()) <= vyaw
    &&& action <= p.execution.action_duration_us.spec_get()
    &&& lease <= p.execution.lease_duration_us.spec_get()
    &&& total <= p.execution.total_execution_us.spec_get()
    &&& count <= p.execution.action_count
    &&& proposal <= p.freshness.proposal.0.spec_get()
    &&& age <= p.freshness.observation.max_age_us.spec_get()
    &&& gap <= p.freshness.observation.max_gap_us.spec_get()
    &&& c.observation.max_age_us.spec_get() <= age
    &&& c.observation.max_gap_us.spec_get() <= gap
}

/// The scope's own ceilings fit it.
pub open spec fn own_ceilings_fit(s: ReviewScopeFieldsV1) -> bool {
    ceilings_fit(
        s,
        s.velocity_limits.max_abs_vx_mps.spec_bits(),
        s.velocity_limits.max_abs_vy_mps.spec_bits(),
        s.velocity_limits.max_abs_vyaw_radps.spec_bits(),
        s.execution.action_duration_us.spec_get(),
        s.execution.lease_duration_us.spec_get(),
        s.execution.total_execution_us.spec_get(),
        s.execution.action_count as u64,
        s.freshness.proposal.0.spec_get(),
        s.freshness.observation.max_age_us.spec_get(),
        s.freshness.observation.max_gap_us.spec_get(),
    )
}

/// A scope is valid exactly when its basis is and its own ceilings fit it.
pub proof fn lemma_scope_valid_split(s: ReviewScopeFieldsV1)
    ensures
        scope_valid(s) == (scope_basis_ok(s) && own_ceilings_fit(s)),
{
}

proof fn lemma_profile_same(a: PhysicalCapabilityProfileV1, b: PhysicalCapabilityProfileV1)
    requires
        profile_same(a, b),
    ensures
        enc_profile(a) == enc_profile(b),
        profile_digest(a) == profile_digest(b),
        profile_valid(a) == profile_valid(b),
{
    reveal(enc_profile);
    assert(enc_limits(a.velocity_limits) == enc_limits(b.velocity_limits));
    assert(enc_budget(a.execution) == enc_budget(b.execution));
    assert(enc_freshness(a.freshness) == enc_freshness(b.freshness));
}

proof fn lemma_qualification_same(a: PhysicalQualificationV1, b: PhysicalQualificationV1)
    requires
        qualification_same(a, b),
    ensures
        enc_qualification(a) == enc_qualification(b),
{
    reveal(enc_qualification);
}

proof fn lemma_completion_same(a: MicroDuckCompletionV1, b: MicroDuckCompletionV1)
    requires
        completion_same(a, b),
    ensures
        enc_completion(a) == enc_completion(b),
        completion_valid(a) == completion_valid(b),
{
    reveal(enc_completion);
}

impl Clone for PhysicalReviewScopeV1 {
    fn clone(&self) -> (r: PhysicalReviewScopeV1)
        ensures
            fields_same(r.spec_fields(), self.spec_fields()),
    {
        self.duplicate()
    }
}

/// Scopes equal in every field are valid together.
pub proof fn lemma_fields_same_valid(a: ReviewScopeFieldsV1, b: ReviewScopeFieldsV1)
    requires
        fields_same(a, b),
    ensures
        scope_valid(a) == scope_valid(b),
{
    lemma_semantic_same(a, b);
    lemma_scope_valid_split(a);
    lemma_scope_valid_split(b);
}

/// Scopes with the same semantic fields have the same semantic encoding and
/// the same basis validity; the same ceilings fit both.
pub proof fn lemma_semantic_same(a: ReviewScopeFieldsV1, b: ReviewScopeFieldsV1)
    requires
        semantic_same(a, b),
    ensures
        same_semantic_encoding(a, b),
        scope_basis_ok(a) == scope_basis_ok(b),
        forall|vx: u64, vy: u64, vyaw: u64, action: u64, lease: u64, total: u64, count: u64, proposal: u64, age: u64, gap: u64|
            #[trigger] ceilings_fit(a, vx, vy, vyaw, action, lease, total, count, proposal, age, gap)
                == ceilings_fit(b, vx, vy, vyaw, action, lease, total, count, proposal, age, gap),
{
    lemma_binding_same(a.environment, b.environment);
    lemma_profile_same(a.profile, b.profile);
    lemma_qualification_same(a.qualification, b.qualification);
    lemma_completion_same(scope_completion(a), scope_completion(b));
    assert(enc_intent(a.intent) == enc_intent(b.intent)) by {
        reveal(enc_intent);
    }
    assert(enc_scope_parties(a) == enc_scope_parties(b));
    assert(enc_scope_basis(a) == enc_scope_basis(b));
    assert(enc_scope_action(a) == enc_scope_action(b));
}

impl PhysicalCapabilityProfileV1 {
    pub fn duplicate(&self) -> (r: PhysicalCapabilityProfileV1)
        ensures
            profile_same(r, *self),
    {
        PhysicalCapabilityProfileV1 {
            version: VersionV1,
            capability: self.capability,
            native_boundary: self.native_boundary,
            subsystem: self.subsystem.duplicate(),
            domain: self.domain.duplicate(),
            evidence_class: self.evidence_class,
            required_enforcement_class: self.required_enforcement_class,
            velocity_limits: self.velocity_limits,
            execution: self.execution,
            freshness: self.freshness,
            start: self.start,
            loss: self.loss,
        }
    }
}

impl PhysicalQualificationV1 {
    pub fn duplicate(&self) -> (r: PhysicalQualificationV1)
        ensures
            qualification_same(r, *self),
    {
        PhysicalQualificationV1 {
            version: VersionV1,
            qualification_id: self.qualification_id.duplicate(),
            revision: self.revision,
            profile_digest: self.profile_digest.duplicate(),
            binding_digest: self.binding_digest.duplicate(),
            required_enforcement_class: self.required_enforcement_class,
            evidence_class: self.evidence_class,
            evidence_digest: self.evidence_digest.duplicate(),
            conditions_digest: self.conditions_digest.duplicate(),
            expires_at: self.expires_at,
        }
    }

    /// Field-by-field equality, by value.
    pub fn same(&self, other: &PhysicalQualificationV1) -> (r: bool)
        ensures
            r == qualification_same(*self, *other),
    {
        self.qualification_id.same(&other.qualification_id) && self.revision == other.revision
            && self.profile_digest.same(&other.profile_digest) && self.binding_digest.same(
            &other.binding_digest,
        ) && enforcement_eq(self.required_enforcement_class, other.required_enforcement_class)
            && evidence_eq(self.evidence_class, other.evidence_class)
            && self.evidence_digest.same(&other.evidence_digest) && self.conditions_digest.same(
            &other.conditions_digest,
        ) && self.expires_at.get() == other.expires_at.get()
    }
}

impl MicroDuckCompletionV1 {
    pub fn duplicate(&self) -> (r: MicroDuckCompletionV1)
        ensures
            completion_same(r, *self),
    {
        MicroDuckCompletionV1 {
            witness: self.witness,
            frame: self.frame.duplicate(),
            min_forward_m: self.min_forward_m,
            max_forward_m: self.max_forward_m,
            max_lateral_m: self.max_lateral_m,
            max_settled_speed_mps: self.max_settled_speed_mps,
            max_settled_angular_radps: self.max_settled_angular_radps,
            max_position_uncertainty_m: self.max_position_uncertainty_m,
            no_fall: self.no_fall,
            dwell_us: self.dwell_us,
            settling_timeout_us: self.settling_timeout_us,
            observation: self.observation,
        }
    }
}

impl ReviewScopeFieldsV1 {
    /// These fields with other ceilings.
    pub fn with_ceilings(
        &self,
        velocity_limits: VelocityLimitsV1,
        execution: ExecutionBudgetV1,
        freshness: PhysicalFreshnessV1,
    ) -> (r: ReviewScopeFieldsV1)
        ensures
            semantic_same(r, *self),
            r.velocity_limits == velocity_limits,
            r.execution == execution,
            r.freshness == freshness,
    {
        let PhysicalCompletionContractV1::MicroDuckDisplacementSettledV1(c) = &self.completion;
        ReviewScopeFieldsV1 {
            version: VersionV1,
            principal: self.principal.duplicate(),
            requester: self.requester.duplicate(),
            executor: self.executor.duplicate(),
            environment: self.environment.duplicate(),
            profile: self.profile.duplicate(),
            qualification: self.qualification.duplicate(),
            mode: self.mode,
            intent: self.intent,
            velocity_limits,
            execution,
            freshness,
            completion: PhysicalCompletionContractV1::MicroDuckDisplacementSettledV1(c.duplicate()),
            loss: self.loss,
        }
    }

    pub fn duplicate(&self) -> (r: ReviewScopeFieldsV1)
        ensures
            fields_same(r, *self),
    {
        self.with_ceilings(self.velocity_limits, self.execution, self.freshness)
    }
}

impl PhysicalReviewScopeV1 {
    pub fn duplicate(&self) -> (r: PhysicalReviewScopeV1)
        ensures
            fields_same(r.spec_fields(), self.spec_fields()),
    {
        proof {
            use_type_invariant(self);
        }
        let fields = self.fields.duplicate();
        proof {
            lemma_fields_same_valid(fields, self.fields);
        }
        PhysicalReviewScopeV1 { fields }
    }
}


/// Two optional approvals are both absent, or both present and equal by value.
pub open spec fn approval_option_same(a: Option<ApprovalCorrelationV1>, b: Option<ApprovalCorrelationV1>) -> bool {
    match (a, b) {
        (None, None) => true,
        (Some(x), Some(y)) => approval_same(x, y),
        _ => false,
    }
}

/// Every field of two review records equal, by value.
pub open spec fn record_same(a: PhysicalReviewRecordV1, b: PhysicalReviewRecordV1) -> bool {
    &&& a.review_id@ == b.review_id@
    &&& a.revision == b.revision
    &&& fields_same(a.scope.spec_fields(), b.scope.spec_fields())
    &&& a.scope_digest@ == b.scope_digest@
    &&& a.state == b.state
    &&& approval_option_same(a.approval, b.approval)
}

impl PhysicalReviewRecordV1 {
    pub fn duplicate(&self) -> (r: PhysicalReviewRecordV1)
        ensures
            record_same(r, *self),
    {
        let approval = match &self.approval {
            Some(a) => Some(a.duplicate()),
            None => None,
        };
        PhysicalReviewRecordV1 {
            version: VersionV1,
            review_id: self.review_id.duplicate(),
            revision: self.revision,
            scope: self.scope.duplicate(),
            scope_digest: self.scope_digest.duplicate(),
            state: self.state,
            approval,
        }
    }
}

} // verus!
