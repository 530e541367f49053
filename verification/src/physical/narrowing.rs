//! Narrowing of an exact reviewed scope. All semantic fields (intent, parties,
//! binding, profile and qualification fingerprints, completion and loss)
//! stay identical; only the three declared ceilings may shrink.
use vstd::prelude::*;

use crate::error::{require, AppResult};
use crate::physical::contracts::{
    budget_subset, ceilings_fit, freshness_subset, lemma_scope_valid_split, lemma_semantic_same, lemma_semantic_same_equivalence, fields_same, limits_same, budget_same, freshness_same,
    limits_subset, semantic_same, scope_valid, ExecutionBudgetV1,
    ObservationFreshnessV1, PhysicalFreshnessV1, PhysicalReviewScopeV1, ProposalFreshnessV1,
    ReviewScopeFieldsV1, VelocityLimitsV1,
};

verus! {

/// `b` keeps every semantic field of `a` and no ceiling of `b` exceeds `a`'s.
pub open spec fn narrower(a: ReviewScopeFieldsV1, b: ReviewScopeFieldsV1) -> bool {
    &&& semantic_same(b, a)
    &&& limits_subset(b.velocity_limits, a.velocity_limits)
    &&& budget_subset(b.execution, a.execution)
    &&& freshness_subset(b.freshness, a.freshness)
}

/// What `validate_narrowing` accepts: two valid scopes, the second narrower.
pub open spec fn narrowing_ok(a: ReviewScopeFieldsV1, b: ReviewScopeFieldsV1) -> bool {
    scope_valid(a) && scope_valid(b) && narrower(a, b)
}

pub open spec fn min_u64(x: u64, y: u64) -> u64 {
    if x <= y {
        x
    } else {
        y
    }
}

/// `r` has the semantics of `a` and, for every ceiling, the smaller of `a`'s and `b`'s.
pub open spec fn is_meet(r: ReviewScopeFieldsV1, a: ReviewScopeFieldsV1, b: ReviewScopeFieldsV1) -> bool {
    &&& semantic_same(r, a)
    &&& r.velocity_limits.max_abs_vx_mps.spec_bits() == min_u64(
        a.velocity_limits.max_abs_vx_mps.spec_bits(),
        b.velocity_limits.max_abs_vx_mps.spec_bits(),
    )
    &&& r.velocity_limits.max_abs_vy_mps.spec_bits() == min_u64(
        a.velocity_limits.max_abs_vy_mps.spec_bits(),
        b.velocity_limits.max_abs_vy_mps.spec_bits(),
    )
    &&& r.velocity_limits.max_abs_vyaw_radps.spec_bits() == min_u64(
        a.velocity_limits.max_abs_vyaw_radps.spec_bits(),
        b.velocity_limits.max_abs_vyaw_radps.spec_bits(),
    )
    &&& r.execution.action_duration_us.spec_get() == min_u64(
        a.execution.action_duration_us.spec_get(),
        b.execution.action_duration_us.spec_get(),
    )
    &&& r.execution.lease_duration_us.spec_get() == min_u64(
        a.execution.lease_duration_us.spec_get(),
        b.execution.lease_duration_us.spec_get(),
    )
    &&& r.execution.total_execution_us.spec_get() == min_u64(
        a.execution.total_execution_us.spec_get(),
        b.execution.total_execution_us.spec_get(),
    )
    &&& r.execution.action_count as u64 == min_u64(
        a.execution.action_count as u64,
        b.execution.action_count as u64,
    )
    &&& r.freshness.proposal.0.spec_get() == min_u64(
        a.freshness.proposal.0.spec_get(),
        b.freshness.proposal.0.spec_get(),
    )
    &&& r.freshness.observation.max_age_us.spec_get() == min_u64(
        a.freshness.observation.max_age_us.spec_get(),
        b.freshness.observation.max_age_us.spec_get(),
    )
    &&& r.freshness.observation.max_gap_us.spec_get() == min_u64(
        a.freshness.observation.max_gap_us.spec_get(),
        b.freshness.observation.max_gap_us.spec_get(),
    )
}

/// Accepts exactly a narrowing of the reviewed scope.
pub fn validate_narrowing(reviewed: &PhysicalReviewScopeV1, narrowed: &PhysicalReviewScopeV1) -> (r:
    AppResult<()>)
    ensures
        r is Ok <==> narrowing_ok(reviewed.spec_fields(), narrowed.spec_fields()),
        r is Ok <==> narrower(reviewed.spec_fields(), narrowed.spec_fields()),
        fields_same(narrowed.spec_fields(), reviewed.spec_fields()) ==> r is Ok,
{
    proof {
        use_type_invariant(reviewed);
        use_type_invariant(narrowed);
        lemma_semantic_same_equivalence(narrowed.spec_fields(), reviewed.spec_fields(), narrowed.spec_fields());
    }
    reviewed.fields().validate()?;
    narrowed.fields().validate()?;
    let a = reviewed.fields();
    let b = narrowed.fields();
    require(
        b.same_semantics(a) && b.velocity_limits.is_subset_of(&a.velocity_limits)
            && b.execution.is_subset_of(&a.execution) && b.freshness.is_subset_of(&a.freshness),
        "Materially changed intent/lineage/contracts or widened bounds",
    )
}

/// The ceilings of `a` lowered to those of `b` fit `a`.
pub open spec fn meet_fits(a: ReviewScopeFieldsV1, b: ReviewScopeFieldsV1) -> bool {
    ceilings_fit(
        a,
        min_u64(a.velocity_limits.max_abs_vx_mps.spec_bits(), b.velocity_limits.max_abs_vx_mps.spec_bits()),
        min_u64(a.velocity_limits.max_abs_vy_mps.spec_bits(), b.velocity_limits.max_abs_vy_mps.spec_bits()),
        min_u64(
            a.velocity_limits.max_abs_vyaw_radps.spec_bits(),
            b.velocity_limits.max_abs_vyaw_radps.spec_bits(),
        ),
        min_u64(a.execution.action_duration_us.spec_get(), b.execution.action_duration_us.spec_get()),
        min_u64(a.execution.lease_duration_us.spec_get(), b.execution.lease_duration_us.spec_get()),
        min_u64(a.execution.total_execution_us.spec_get(), b.execution.total_execution_us.spec_get()),
        min_u64(a.execution.action_count as u64, b.execution.action_count as u64),
        min_u64(a.freshness.proposal.0.spec_get(), b.freshness.proposal.0.spec_get()),
        min_u64(
            a.freshness.observation.max_age_us.spec_get(),
            b.freshness.observation.max_age_us.spec_get(),
        ),
        min_u64(
            a.freshness.observation.max_gap_us.spec_get(),
            b.freshness.observation.max_gap_us.spec_get(),
        ),
    )
}

/// The reviewed scope with every ceiling lowered to the policy's ceiling.
/// Refuses a policy that substitutes any semantic field, and a result that
/// is not a valid narrowing (for example one whose ceilings no longer
/// contain the reviewed intent: the intent is never changed to fit).
#[verifier::rlimit(60)]
pub fn intersect(reviewed: &PhysicalReviewScopeV1, policy: &PhysicalReviewScopeV1) -> (r: AppResult<
    PhysicalReviewScopeV1,
>)
    ensures
        r is Ok <==> (semantic_same(policy.spec_fields(), reviewed.spec_fields()) && meet_fits(
            reviewed.spec_fields(),
            policy.spec_fields(),
        )),
        r matches Ok(s) ==> is_meet(s.spec_fields(), reviewed.spec_fields(), policy.spec_fields())
            && narrowing_ok(reviewed.spec_fields(), s.spec_fields()),
        fields_same(policy.spec_fields(), reviewed.spec_fields()) ==> (r matches Ok(s) && fields_same(
            s.spec_fields(),
            reviewed.spec_fields(),
        )),
{
    proof {
        use_type_invariant(reviewed);
        use_type_invariant(policy);
        lemma_scope_valid_split(reviewed.spec_fields());
    }
    let a = reviewed.fields();
    let b = policy.fields();
    require(b.same_semantics(a), "Executor policy substitutes reviewed semantics")?;
    let limits = VelocityLimitsV1 {
        max_abs_vx_mps: a.velocity_limits.max_abs_vx_mps.min(&b.velocity_limits.max_abs_vx_mps),
        max_abs_vy_mps: a.velocity_limits.max_abs_vy_mps.min(&b.velocity_limits.max_abs_vy_mps),
        max_abs_vyaw_radps: a.velocity_limits.max_abs_vyaw_radps.min(
            &b.velocity_limits.max_abs_vyaw_radps,
        ),
    };
    let execution = ExecutionBudgetV1 {
        action_duration_us: a.execution.action_duration_us.min(&b.execution.action_duration_us),
        lease_duration_us: a.execution.lease_duration_us.min(&b.execution.lease_duration_us),
        total_execution_us: a.execution.total_execution_us.min(&b.execution.total_execution_us),
        action_count: if a.execution.action_count <= b.execution.action_count {
            a.execution.action_count
        } else {
            b.execution.action_count
        },
    };
    let freshness = PhysicalFreshnessV1 {
        proposal: ProposalFreshnessV1(a.freshness.proposal.0.min(&b.freshness.proposal.0)),
        observation: ObservationFreshnessV1 {
            max_age_us: a.freshness.observation.max_age_us.min(&b.freshness.observation.max_age_us),
            max_gap_us: a.freshness.observation.max_gap_us.min(&b.freshness.observation.max_gap_us),
        },
    };
    let result = a.with_ceilings(limits, execution, freshness);
    proof {
        lemma_semantic_same(result, *a);
        lemma_scope_valid_split(result);
        lemma_scope_valid_split(*a);
    }
    let narrowed = PhysicalReviewScopeV1::try_from(result)?;
    validate_narrowing(reviewed, &narrowed)?;
    Ok(narrowed)
}

/// Narrowing is reflexive on valid scopes.
pub proof fn lemma_narrowing_reflexive(a: ReviewScopeFieldsV1)
    requires
        scope_valid(a),
    ensures
        narrowing_ok(a, a),
{
}

/// A narrowing of a narrowing is a narrowing.
pub proof fn lemma_narrowing_transitive(a: ReviewScopeFieldsV1, b: ReviewScopeFieldsV1, c: ReviewScopeFieldsV1)
    requires
        narrowing_ok(a, b),
        narrowing_ok(b, c),
    ensures
        narrowing_ok(a, c),
{
    lemma_semantic_same_equivalence(c, b, a);
}

/// The meet of a reviewed scope and a policy is below both in every ceiling.
pub proof fn lemma_meet_below_both(r: ReviewScopeFieldsV1, a: ReviewScopeFieldsV1, b: ReviewScopeFieldsV1)
    requires
        is_meet(r, a, b),
    ensures
        limits_subset(r.velocity_limits, a.velocity_limits),
        limits_subset(r.velocity_limits, b.velocity_limits),
        budget_subset(r.execution, a.execution),
        budget_subset(r.execution, b.execution),
        freshness_subset(r.freshness, a.freshness),
        freshness_subset(r.freshness, b.freshness),
{
}

/// `b` is a valid scope with the semantics of the reviewed scope `a` whose
/// every ceiling lies within both `a`'s and the policy ceiling `c`'s.
pub open spec fn narrows_both(a: ReviewScopeFieldsV1, c: ReviewScopeFieldsV1, b: ReviewScopeFieldsV1) -> bool {
    &&& scope_valid(b)
    &&& semantic_same(b, a)
    &&& limits_subset(b.velocity_limits, a.velocity_limits)
    &&& limits_subset(b.velocity_limits, c.velocity_limits)
    &&& budget_subset(b.execution, a.execution)
    &&& budget_subset(b.execution, c.execution)
    &&& freshness_subset(b.freshness, a.freshness)
    &&& freshness_subset(b.freshness, c.freshness)
}

/// Narrowing the meet of `a` and `c` is exactly narrowing both.
pub proof fn lemma_meet_narrowing(m: ReviewScopeFieldsV1, a: ReviewScopeFieldsV1, c: ReviewScopeFieldsV1, b: ReviewScopeFieldsV1)
    requires
        is_meet(m, a, c),
        scope_valid(m),
    ensures
        narrowing_ok(m, b) <==> narrows_both(a, c, b),
{
    lemma_semantic_same_equivalence(b, m, a);
    lemma_semantic_same_equivalence(b, a, m);
    lemma_semantic_same_equivalence(m, a, b);
}

/// Meeting a scope with itself changes nothing: the meet narrows the scope
/// and the scope narrows the meet.
pub proof fn lemma_meet_idempotent(r: ReviewScopeFieldsV1, a: ReviewScopeFieldsV1)
    requires
        is_meet(r, a, a),
    ensures
        narrower(a, r),
        narrower(r, a),
{
    lemma_semantic_same_equivalence(r, a, r);
}

/// The meet does not depend on the order of two scopes of the same
/// semantics: a meet of `a` and `b` is a meet of `b` and `a`.
pub proof fn lemma_meet_symmetric(r: ReviewScopeFieldsV1, a: ReviewScopeFieldsV1, b: ReviewScopeFieldsV1)
    requires
        is_meet(r, a, b),
        semantic_same(a, b),
    ensures
        is_meet(r, b, a),
{
    lemma_semantic_same_equivalence(r, a, b);
}

/// Intersecting in either order: both orders are accepted or both refused.
pub proof fn lemma_intersect_accepts_symmetric(a: ReviewScopeFieldsV1, b: ReviewScopeFieldsV1)
    requires
        scope_valid(a),
        scope_valid(b),
    ensures
        (semantic_same(b, a) && meet_fits(a, b)) == (semantic_same(a, b) && meet_fits(b, a)),
{
    lemma_semantic_same_equivalence(a, b, a);
    lemma_semantic_same_equivalence(b, a, b);
    if semantic_same(a, b) {
        lemma_semantic_same(a, b);
    }
}

/// The meets of `a` with `b` and of `b` with `a`, for scopes of the same
/// semantics, agree in every field.
pub proof fn lemma_meets_agree(r1: ReviewScopeFieldsV1, r2: ReviewScopeFieldsV1, a: ReviewScopeFieldsV1, b: ReviewScopeFieldsV1)
    requires
        is_meet(r1, a, b),
        is_meet(r2, b, a),
        semantic_same(a, b),
    ensures
        fields_same(r1, r2),
{
    lemma_semantic_same_equivalence(r1, a, b);
    lemma_semantic_same_equivalence(r2, b, a);
    lemma_semantic_same_equivalence(r1, b, r2);
    lemma_semantic_same_equivalence(r2, r1, r2);
}

} // verus!
