//! The Core audit ledger: immutable review history with a one-way lifecycle,
//! and attempt records whose approval is consumed at most once and which
//! close but never reopen. Rows are data, never live authority.
use vstd::prelude::*;

use crate::error::{require, AppError, AppResult};
use crate::identity::HostRef;
use crate::physical::contracts::{
    approval_same, approval_valid, record_same, record_valid, scope_digest, ApprovalCorrelationV1,
    PhysicalReviewRecordV1,
    PhysicalReviewScopeV1, PhysicalReviewStateV1,
};
use crate::values::{
    ApprovalId, AttemptId, DigestV1, EnvironmentRefV1, LabelV1, QualificationId, ReviewId, RootId,
    UnixMillis, VersionV1,
};

verus! {

/// The review lifecycle: draft to reviewed, reviewed to approved, and any
/// unfinished review to rejected or expired; an approved review may only expire.
pub open spec fn transition_allowed(p: PhysicalReviewStateV1, n: PhysicalReviewStateV1) -> bool {
    ||| (p == PhysicalReviewStateV1::Draft && (n == PhysicalReviewStateV1::Reviewed || n
        == PhysicalReviewStateV1::Rejected || n == PhysicalReviewStateV1::Expired))
    ||| (p == PhysicalReviewStateV1::Reviewed && (n == PhysicalReviewStateV1::Approved || n
        == PhysicalReviewStateV1::Rejected || n == PhysicalReviewStateV1::Expired))
    ||| (p == PhysicalReviewStateV1::Approved && n == PhysicalReviewStateV1::Expired)
}

pub fn transition_allowed_exec(p: PhysicalReviewStateV1, n: PhysicalReviewStateV1) -> (r: bool)
    ensures
        r == transition_allowed(p, n),
{
    match (p, n) {
        (PhysicalReviewStateV1::Draft, PhysicalReviewStateV1::Reviewed)
        | (PhysicalReviewStateV1::Draft, PhysicalReviewStateV1::Rejected)
        | (PhysicalReviewStateV1::Draft, PhysicalReviewStateV1::Expired)
        | (PhysicalReviewStateV1::Reviewed, PhysicalReviewStateV1::Approved)
        | (PhysicalReviewStateV1::Reviewed, PhysicalReviewStateV1::Rejected)
        | (PhysicalReviewStateV1::Reviewed, PhysicalReviewStateV1::Expired)
        | (PhysicalReviewStateV1::Approved, PhysicalReviewStateV1::Expired) => true,
        _ => false,
    }
}

/// `n` can follow `o` by zero or more lifecycle steps.
pub open spec fn state_reachable(o: PhysicalReviewStateV1, n: PhysicalReviewStateV1) -> bool {
    ||| o == n
    ||| transition_allowed(o, n)
    ||| (o == PhysicalReviewStateV1::Draft && n == PhysicalReviewStateV1::Approved)
}

/// Why an attempt was closed.
#[derive(Clone, Copy, Debug, PartialEq, Eq)]
pub enum CloseReasonV1 {
    Interrupted,
    Shutdown,
    Revoked,
    DependencyInvalidated,
    Superseded,
    Expired,
}

/// Whether an attempt is open, or closed and why.
#[derive(Clone, Copy, Debug, PartialEq, Eq)]
pub enum AttemptStateV1 {
    Open,
    Closed(CloseReasonV1),
}

/// A canonical audit snapshot of a started attempt. Never a live proof.
#[derive(Clone, Debug, PartialEq, Eq)]
pub struct RootAuditV1 {
    pub version: VersionV1,
    pub root_id: RootId,
    pub attempt_id: AttemptId,
    pub review_id: ReviewId,
    pub review_revision: u64,
    pub approval: ApprovalCorrelationV1,
    pub scope_digest: DigestV1,
    pub principal: LabelV1,
    pub requester: HostRef,
    pub executor: HostRef,
    pub environment: EnvironmentRefV1,
    pub registration_revision: u64,
    pub binding_digest: DigestV1,
    pub profile_digest: DigestV1,
    pub qualification_id: QualificationId,
    pub qualification_digest: DigestV1,
    pub policy_digest: DigestV1,
    pub runtime_generation: String,
    pub created_at: UnixMillis,
    pub expires_at: UnixMillis,
}

/// The audit names exactly this review revision, its approval and its scope.
pub open spec fn audit_lineage_ok(a: RootAuditV1, r: PhysicalReviewRecordV1) -> bool {
    let s = r.scope.spec_fields();
    &&& a.review_id@ == r.review_id@
    &&& a.review_revision == r.revision
    &&& r.approval matches Some(ra) && approval_same(a.approval, ra)
    &&& a.scope_digest@ == r.scope_digest@
    &&& a.principal@ == s.principal@
    &&& a.principal@ == a.approval.principal@
    &&& a.requester@ == s.requester@
    &&& a.executor@ == s.executor@
    &&& a.requester@ == a.executor@
    &&& a.environment@ == s.environment.environment@
    &&& a.qualification_id@ == s.qualification.qualification_id@
    &&& a.created_at.spec_get() >= a.approval.approved_at.spec_get()
    &&& a.created_at.spec_get() < a.expires_at.spec_get()
    &&& a.expires_at.spec_get() <= a.approval.expires_at.spec_get()
    &&& a.expires_at.spec_get() <= s.environment.offer_expiry.spec_get()
    &&& a.expires_at.spec_get() <= s.qualification.expires_at.spec_get()
}

/// Every field of two audits equal, by value.
pub open spec fn audit_same(a: RootAuditV1, b: RootAuditV1) -> bool {
    &&& a.root_id@ == b.root_id@
    &&& a.attempt_id@ == b.attempt_id@
    &&& a.review_id@ == b.review_id@
    &&& a.review_revision == b.review_revision
    &&& approval_same(a.approval, b.approval)
    &&& a.scope_digest@ == b.scope_digest@
    &&& a.principal@ == b.principal@
    &&& a.requester@ == b.requester@
    &&& a.executor@ == b.executor@
    &&& a.environment@ == b.environment@
    &&& a.registration_revision == b.registration_revision
    &&& a.binding_digest@ == b.binding_digest@
    &&& a.profile_digest@ == b.profile_digest@
    &&& a.qualification_id@ == b.qualification_id@
    &&& a.qualification_digest@ == b.qualification_digest@
    &&& a.policy_digest@ == b.policy_digest@
    &&& a.runtime_generation@ == b.runtime_generation@
    &&& a.created_at.spec_get() == b.created_at.spec_get()
    &&& a.expires_at.spec_get() == b.expires_at.spec_get()
}

impl RootAuditV1 {
    pub fn duplicate(&self) -> (r: RootAuditV1)
        ensures
            audit_same(r, *self),
    {
        RootAuditV1 {
            version: VersionV1,
            root_id: self.root_id.duplicate(),
            attempt_id: self.attempt_id.duplicate(),
            review_id: self.review_id.duplicate(),
            review_revision: self.review_revision,
            approval: self.approval.duplicate(),
            scope_digest: self.scope_digest.duplicate(),
            principal: self.principal.duplicate(),
            requester: self.requester.duplicate(),
            executor: self.executor.duplicate(),
            environment: self.environment.duplicate(),
            registration_revision: self.registration_revision,
            binding_digest: self.binding_digest.duplicate(),
            profile_digest: self.profile_digest.duplicate(),
            qualification_id: self.qualification_id.duplicate(),
            qualification_digest: self.qualification_digest.duplicate(),
            policy_digest: self.policy_digest.duplicate(),
            runtime_generation: self.runtime_generation.clone(),
            created_at: self.created_at,
            expires_at: self.expires_at,
        }
    }
}

fn approvals_same(a: &ApprovalCorrelationV1, b: &ApprovalCorrelationV1) -> (r: bool)
    ensures
        r == approval_same(*a, *b),
{
    a.approval_id.same(&b.approval_id) && a.review_id.same(&b.review_id) && a.review_revision
        == b.review_revision && a.scope_digest.same(&b.scope_digest) && a.principal.same(
        &b.principal,
    ) && a.approved_at.get() == b.approved_at.get() && a.expires_at.get() == b.expires_at.get()
}

/// Whether `a` names exactly review record `r`, its approval and its scope.
fn lineage_holds(a: &RootAuditV1, r: &PhysicalReviewRecordV1) -> (ok: bool)
    ensures
        ok == audit_lineage_ok(*a, *r),
{
    let s = r.scope.fields();
    let approval_ok = match &r.approval {
        Some(ra) => approvals_same(&a.approval, ra),
        None => false,
    };
    a.review_id.same(&r.review_id) && a.review_revision == r.revision && approval_ok
        && a.scope_digest.same(&r.scope_digest) && a.principal.same(&s.principal)
        && a.principal.same(&a.approval.principal) && a.requester.same(&s.requester)
        && a.executor.same(&s.executor) && a.requester.same(&a.executor) && a.environment.same(
        &s.environment.environment,
    ) && a.qualification_id.same(&s.qualification.qualification_id) && a.created_at.get()
        >= a.approval.approved_at.get() && a.created_at.get() < a.expires_at.get()
        && a.expires_at.get() <= a.approval.expires_at.get() && a.expires_at.get()
        <= s.environment.offer_expiry.get() && a.expires_at.get()
        <= s.qualification.expires_at.get()
}

/// The review with identity `id` at `rev` is stored at index `i`.
pub open spec fn review_at(reviews: Seq<PhysicalReviewRecordV1>, i: int, id: Seq<char>, rev: u64) -> bool {
    0 <= i < reviews.len() && reviews[i].review_id@ == id && reviews[i].revision == rev
}

/// `rev` is the newest stored revision of review `id`.
pub open spec fn is_latest(reviews: Seq<PhysicalReviewRecordV1>, id: Seq<char>, rev: u64) -> bool {
    &&& exists|i: int| #[trigger] review_at(reviews, i, id, rev)
    &&& forall|j: int| 0 <= j < reviews.len() && #[trigger] reviews[j].review_id@ == id
        ==> reviews[j].revision <= rev
}

/// Where review `id` at `rev` is stored.
pub open spec fn review_index(reviews: Seq<PhysicalReviewRecordV1>, id: Seq<char>, rev: u64) -> int {
    choose|i: int| review_at(reviews, i, id, rev)
}

/// Attempt `i` consumed approval `aid`.
pub open spec fn consumed_at(audits: Seq<RootAuditV1>, i: int, aid: Seq<char>) -> bool {
    0 <= i < audits.len() && audits[i].approval.approval_id@ == aid
}

pub open spec fn consumed(audits: Seq<RootAuditV1>, aid: Seq<char>) -> bool {
    exists|i: int| #[trigger] consumed_at(audits, i, aid)
}

/// Attempt `i` belongs to root `id`.
pub open spec fn root_at(audits: Seq<RootAuditV1>, i: int, id: Seq<char>) -> bool {
    0 <= i < audits.len() && audits[i].root_id@ == id
}

pub open spec fn root_index(audits: Seq<RootAuditV1>, id: Seq<char>) -> int {
    choose|i: int| root_at(audits, i, id)
}

/// Which attempts a closing applies to.
pub enum AttemptSelector<'a> {
    OfReview(&'a ReviewId, u64),
    OfRoot(&'a RootId),
    All,
}

pub open spec fn selects(sel: AttemptSelector, a: RootAuditV1) -> bool {
    match sel {
        AttemptSelector::OfReview(id, rev) => a.review_id@ == id@ && a.review_revision == rev,
        AttemptSelector::OfRoot(id) => a.root_id@ == id@,
        AttemptSelector::All => true,
    }
}

/// The attempt states after closing every selected open attempt for `reason`.
pub open spec fn closed_where(
    audits: Seq<RootAuditV1>,
    states: Seq<AttemptStateV1>,
    sel: AttemptSelector,
    reason: CloseReasonV1,
) -> Seq<AttemptStateV1> {
    Seq::new(
        states.len(),
        |k: int|
            if selects(sel, audits[k]) && states[k] == AttemptStateV1::Open {
                AttemptStateV1::Closed(reason)
            } else {
                states[k]
            },
    )
}

/// A terminal review state: nothing follows it.
pub open spec fn is_terminal(s: PhysicalReviewStateV1) -> bool {
    s == PhysicalReviewStateV1::Rejected || s == PhysicalReviewStateV1::Expired
}

/// `r` after moving to `next`; an approval is attached only on approving.
pub open spec fn transitioned(
    r: PhysicalReviewRecordV1,
    next: PhysicalReviewStateV1,
    approval: Option<ApprovalCorrelationV1>,
) -> PhysicalReviewRecordV1 {
    PhysicalReviewRecordV1 {
        version: r.version,
        review_id: r.review_id,
        revision: r.revision,
        scope: r.scope,
        scope_digest: r.scope_digest,
        state: next,
        approval: if next == PhysicalReviewStateV1::Approved { approval } else { r.approval },
    }
}

/// Two records carry one approval.
pub open spec fn share_approval(x: PhysicalReviewRecordV1, y: PhysicalReviewRecordV1) -> bool {
    x.approval matches Some(p) && y.approval matches Some(q) && p.approval_id@ == q.approval_id@
}

/// An approval a record carries is by the principal of its scope.
pub open spec fn approval_principal_ok(r: PhysicalReviewRecordV1) -> bool {
    match r.approval {
        Some(a) => a.principal@ == r.scope.spec_fields().principal@,
        None => true,
    }
}

/// Record `r` carries approval `aid`.
pub open spec fn carries_approval(r: PhysicalReviewRecordV1, aid: Seq<char>) -> bool {
    r.approval matches Some(a) && a.approval_id@ == aid
}

/// No stored review already carries approval `aid`.
pub open spec fn approval_fresh(reviews: Seq<PhysicalReviewRecordV1>, aid: Seq<char>) -> bool {
    forall|j: int|
        0 <= j < reviews.len() ==> !carries_approval(#[trigger] reviews[j], aid)
}

/// When moving review `id` at `rev` to `next` succeeds: it is the current
/// revision, its sealed digest is `digest`, the lifecycle allows the step, and
/// exactly an approval of this revision by the scope's principal accompanies
/// an approving step.
pub open spec fn transition_ok(
    reviews: Seq<PhysicalReviewRecordV1>,
    id: Seq<char>,
    rev: u64,
    digest: Seq<u8>,
    next: PhysicalReviewStateV1,
    approval: Option<ApprovalCorrelationV1>,
) -> bool {
    let r = reviews[review_index(reviews, id, rev)];
    &&& is_latest(reviews, id, rev)
    &&& r.scope_digest@ == digest
    &&& transition_allowed(r.state, next)
    &&& if next == PhysicalReviewStateV1::Approved {
        &&& approval matches Some(a)
        &&& a.principal@ == r.scope.spec_fields().principal@
        &&& approval_valid(a)
        &&& a.review_id@ == id
        &&& a.review_revision == rev
        &&& a.scope_digest@ == digest
        &&& approval_fresh(reviews, a.approval_id@)
    } else {
        approval is None
    }
}

/// `r` with its state set to expired unless it is already terminal.
pub open spec fn expired_unless_terminal(r: PhysicalReviewRecordV1) -> PhysicalReviewRecordV1 {
    if is_terminal(r.state) {
        r
    } else {
        transitioned(r, PhysicalReviewStateV1::Expired, None)
    }
}

/// When an attempt may be originated: the audit names the current, approved
/// revision and its approval, the approval is unused and in force at `now`,
/// `now` lies before the attempt's expiry, and the root and attempt are new.
pub open spec fn origination_ok(
    reviews: Seq<PhysicalReviewRecordV1>,
    audits: Seq<RootAuditV1>,
    a: RootAuditV1,
    now: u64,
) -> bool {
    let r = reviews[review_index(reviews, a.review_id@, a.review_revision)];
    &&& is_latest(reviews, a.review_id@, a.review_revision)
    &&& r.state == PhysicalReviewStateV1::Approved
    &&& audit_lineage_ok(a, r)
    &&& a.approval.approved_at.spec_get() <= now
    &&& now < a.expires_at.spec_get()
    &&& now < a.approval.expires_at.spec_get()
    &&& !consumed(audits, a.approval.approval_id@)
    &&& forall|j: int| 0 <= j < audits.len() ==> #[trigger] audits[j].root_id@ != a.root_id@
    &&& forall|j: int| 0 <= j < audits.len() ==> #[trigger] audits[j].attempt_id@ != a.attempt_id@
}

/// An attempt is current: it is open, its review revision is still the
/// current approved one, and `now` lies in its lifetime.
pub open spec fn attempt_current(
    reviews: Seq<PhysicalReviewRecordV1>,
    audits: Seq<RootAuditV1>,
    states: Seq<AttemptStateV1>,
    root: Seq<char>,
    now: u64,
) -> bool {
    let k = root_index(audits, root);
    let a = audits[k];
    &&& exists|i: int| #[trigger] root_at(audits, i, root)
    &&& states[k] == AttemptStateV1::Open
    &&& is_latest(reviews, a.review_id@, a.review_revision)
    &&& reviews[review_index(reviews, a.review_id@, a.review_revision)].state
        == PhysicalReviewStateV1::Approved
    &&& a.created_at.spec_get() <= now
    &&& now < a.expires_at.spec_get()
}

/// The ledger's invariant: each stored review record is valid, no two share
/// an identity and revision, no two carry one approval, and no two attempts
/// share an approval, a root or an attempt identity.
pub open spec fn ledger_wf(
    reviews: Seq<PhysicalReviewRecordV1>,
    audits: Seq<RootAuditV1>,
    states: Seq<AttemptStateV1>,
) -> bool {
    &&& audits.len() == states.len()
    &&& forall|i: int| 0 <= i < reviews.len() ==> record_valid(#[trigger] reviews[i])
    &&& forall|i: int| 0 <= i < reviews.len() ==> approval_principal_ok(#[trigger] reviews[i])
    &&& forall|i: int, j: int|
        0 <= i < j < reviews.len() ==> !(#[trigger] reviews[i].review_id@ == #[trigger] reviews[j].review_id@
            && reviews[i].revision == reviews[j].revision)
    &&& forall|i: int, j: int|
        0 <= i < j < reviews.len() ==> !share_approval(#[trigger] reviews[i], #[trigger] reviews[j])
    &&& forall|i: int, j: int|
        0 <= i < j < audits.len() ==> #[trigger] audits[i].approval.approval_id@
            != #[trigger] audits[j].approval.approval_id@
    &&& forall|i: int, j: int|
        0 <= i < j < audits.len() ==> #[trigger] audits[i].root_id@ != #[trigger] audits[j].root_id@
    &&& forall|i: int, j: int|
        0 <= i < j < audits.len() ==> #[trigger] audits[i].attempt_id@ != #[trigger] audits[j].attempt_id@
}

/// A stored revision that a later one superseded is no longer live.
pub open spec fn superseded_ok(s: PhysicalReviewStateV1) -> bool {
    s == PhysicalReviewStateV1::Rejected || s == PhysicalReviewStateV1::Expired
}

/// Every attempt names a stored review revision that carries its approval
/// and scope.
pub open spec fn lineage_complete(reviews: Seq<PhysicalReviewRecordV1>, audits: Seq<RootAuditV1>) -> bool {
    forall|i: int|
        #![trigger audits[i]]
        0 <= i < audits.len() ==> exists|j: int|
            #[trigger] review_at(reviews, j, audits[i].review_id@, audits[i].review_revision)
                && audit_lineage_ok(audits[i], reviews[j])
}

/// Every revision after the first follows a stored earlier revision, and
/// a revision that a later one superseded is rejected or expired.
pub open spec fn revisions_complete(reviews: Seq<PhysicalReviewRecordV1>) -> bool {
    &&& forall|i: int|
        #![trigger reviews[i]]
        0 <= i < reviews.len() && reviews[i].revision > 1 ==> exists|j: int|
            #[trigger] review_at(reviews, j, reviews[i].review_id@, (reviews[i].revision - 1) as u64)
    &&& forall|i: int, j: int|
        0 <= i < reviews.len() && 0 <= j < reviews.len() && #[trigger] reviews[i].review_id@
            == #[trigger] reviews[j].review_id@ && reviews[i].revision < reviews[j].revision
            ==> superseded_ok(reviews[i].state)
}

/// Review history only grows; identity, revision and scope digest never
/// change, and every state change follows the lifecycle.
pub open spec fn reviews_evolve(old: Seq<PhysicalReviewRecordV1>, new: Seq<PhysicalReviewRecordV1>) -> bool {
    &&& old.len() <= new.len()
    &&& forall|i: int|
        0 <= i < old.len() ==> {
            &&& #[trigger] new[i].review_id@ == old[i].review_id@
            &&& new[i].revision == old[i].revision
            &&& new[i].scope_digest@ == old[i].scope_digest@
            &&& new[i].scope == old[i].scope
            &&& state_reachable(old[i].state, new[i].state)
        }
}

/// Attempt history only grows; audits never change; a closed attempt stays
/// closed with its reason.
pub open spec fn attempts_evolve(
    old_audits: Seq<RootAuditV1>,
    old_states: Seq<AttemptStateV1>,
    new_audits: Seq<RootAuditV1>,
    new_states: Seq<AttemptStateV1>,
) -> bool {
    &&& old_audits.len() <= new_audits.len()
    &&& old_states.len() <= new_states.len()
    &&& forall|i: int| 0 <= i < old_audits.len() ==> #[trigger] new_audits[i] == old_audits[i]
    &&& forall|i: int|
        0 <= i < old_states.len() && (#[trigger] old_states[i] matches AttemptStateV1::Closed(_))
            ==> new_states[i] == old_states[i]
}

/// Closing keeps the audits, closes only what was open, and keeps wf.
proof fn lemma_closing(
    reviews: Seq<PhysicalReviewRecordV1>,
    audits: Seq<RootAuditV1>,
    states: Seq<AttemptStateV1>,
    sel: AttemptSelector,
    reason: CloseReasonV1,
)
    requires
        ledger_wf(reviews, audits, states),
    ensures
        ledger_wf(reviews, audits, closed_where(audits, states, sel, reason)),
        attempts_evolve(audits, states, audits, closed_where(audits, states, sel, reason)),
{
}

/// Replacing review `i` by a valid record with the same identity and
/// revision, whose approval is its old one or one no other review carries,
/// keeps the ledger well formed.
proof fn lemma_update_keeps_wf(
    reviews: Seq<PhysicalReviewRecordV1>,
    audits: Seq<RootAuditV1>,
    states: Seq<AttemptStateV1>,
    i: int,
    t: PhysicalReviewRecordV1,
)
    requires
        ledger_wf(reviews, audits, states),
        0 <= i < reviews.len(),
        t.review_id@ == reviews[i].review_id@,
        t.revision == reviews[i].revision,
        record_valid(t),
        approval_principal_ok(t),
        t.approval == reviews[i].approval || (t.approval matches Some(a) && approval_fresh(
            reviews,
            a.approval_id@,
        )),
    ensures
        ledger_wf(reviews.update(i, t), audits, states),
{
    let n = reviews.update(i, t);
    assert forall|a: int, b: int| 0 <= a < b < n.len() implies !share_approval(
        #[trigger] n[a],
        #[trigger] n[b],
    ) by {
        if a == i && t.approval != reviews[i].approval {
            assert(!carries_approval(reviews[b], t.approval.unwrap().approval_id@));
        } else if b == i && t.approval != reviews[i].approval {
            assert(!carries_approval(reviews[a], t.approval.unwrap().approval_id@));
        } else {
            assert(!share_approval(reviews[a], reviews[b]));
        }
    }
    assert forall|a: int, b: int|
        0 <= a < b < n.len() implies !(#[trigger] n[a].review_id@ == #[trigger] n[b].review_id@
            && n[a].revision == n[b].revision) by {
        assert(reviews[a].review_id@ == n[a].review_id@);
        assert(reviews[b].review_id@ == n[b].review_id@);
    }
}

/// The in-memory Core ledger.
pub struct PhysicalLedgerV1 {
    reviews: Vec<PhysicalReviewRecordV1>,
    audits: Vec<RootAuditV1>,
    states: Vec<AttemptStateV1>,
}

impl PhysicalLedgerV1 {
    pub closed spec fn spec_reviews(&self) -> Seq<PhysicalReviewRecordV1> {
        self.reviews@
    }

    pub closed spec fn spec_audits(&self) -> Seq<RootAuditV1> {
        self.audits@
    }

    pub closed spec fn spec_states(&self) -> Seq<AttemptStateV1> {
        self.states@
    }

    pub open spec fn wf(&self) -> bool {
        ledger_wf(self.spec_reviews(), self.spec_audits(), self.spec_states())
    }

    /// The two ledgers hold the same reviews, audits and attempt states.
    pub open spec fn same_contents(&self, other: &PhysicalLedgerV1) -> bool {
        &&& self.spec_reviews() == other.spec_reviews()
        &&& self.spec_audits() == other.spec_audits()
        &&& self.spec_states() == other.spec_states()
    }

    /// Whether `aid` has been consumed by an attempt.
    pub open spec fn spec_consumed(&self, aid: Seq<char>) -> bool {
        consumed(self.spec_audits(), aid)
    }

    pub open spec fn evolves_to(&self, other: &PhysicalLedgerV1) -> bool {
        &&& reviews_evolve(self.spec_reviews(), other.spec_reviews())
        &&& attempts_evolve(
            self.spec_audits(),
            self.spec_states(),
            other.spec_audits(),
            other.spec_states(),
        )
    }

    pub fn new() -> (r: PhysicalLedgerV1)
        ensures
            r.wf(),
            r.spec_reviews().len() == 0,
            r.spec_audits().len() == 0,
    {
        PhysicalLedgerV1 { reviews: Vec::new(), audits: Vec::new(), states: Vec::new() }
    }

    /// Audits stored records before they become a ledger again: accepted
    /// exactly when they are well formed (every review record valid and
    /// approved by its own principal, no review revision or approval
    /// stored twice, no approval, root or attempt consumed twice, one state
    /// per attempt), every attempt names a stored review revision that
    /// carries its approval and scope, every revision after the first
    /// follows a stored earlier one, and a superseded revision is rejected
    /// or expired. The ledger then holds exactly these records.
    pub fn restore(
        reviews: Vec<PhysicalReviewRecordV1>,
        audits: Vec<RootAuditV1>,
        states: Vec<AttemptStateV1>,
    ) -> (r: AppResult<PhysicalLedgerV1>)
        ensures
            r is Ok <==> ledger_wf(reviews@, audits@, states@) && lineage_complete(reviews@, audits@)
                && revisions_complete(reviews@),
            r is Err ==> r == Err::<PhysicalLedgerV1, AppError>(
                AppError::InvalidInput("Physical Core records are inconsistent."),
            ),
            r matches Ok(l) ==> l.spec_reviews() == reviews@ && l.spec_audits() == audits@ && l.spec_states()
                == states@,
    {
        if audits.len() != states.len() {
            return Err(AppError::InvalidInput("Physical Core records are inconsistent."));
        }
        let mut i: usize = 0;
        while i < reviews.len()
            invariant
                i <= reviews@.len(),
                forall|k: int| 0 <= k < i ==> record_valid(#[trigger] reviews@[k]),
                forall|k: int| 0 <= k < i ==> approval_principal_ok(#[trigger] reviews@[k]),
                forall|k: int, l: int|
                    0 <= k < l < i ==> !(#[trigger] reviews@[k].review_id@ == #[trigger] reviews@[l].review_id@
                        && reviews@[k].revision == reviews@[l].revision),
                forall|k: int, l: int| 0 <= k < l < i ==> !share_approval(#[trigger] reviews@[k], #[trigger] reviews@[l]),
            decreases reviews@.len() - i,
        {
            let r = &reviews[i];
            if r.validate().is_err() {
                return Err(AppError::InvalidInput("Physical Core records are inconsistent."));
            }
            match &r.approval {
                Some(a) => {
                    if !a.principal.same(&r.scope.fields().principal) {
                        return Err(AppError::InvalidInput("Physical Core records are inconsistent."));
                    }
                },
                None => {},
            }
            let mut j: usize = 0;
            while j < i
                invariant
                    i < reviews@.len(),
                    j <= i,
                    forall|k: int| 0 <= k < j ==> !(#[trigger] reviews@[k].review_id@ == reviews@[i as int].review_id@
                        && reviews@[k].revision == reviews@[i as int].revision),
                    forall|k: int| 0 <= k < j ==> !share_approval(#[trigger] reviews@[k], reviews@[i as int]),
                decreases i - j,
            {
                let q = &reviews[j];
                if q.review_id.same(&reviews[i].review_id) && q.revision == reviews[i].revision {
                    return Err(AppError::InvalidInput("Physical Core records are inconsistent."));
                }
                match (&q.approval, &reviews[i].approval) {
                    (Some(x), Some(y)) => {
                        if x.approval_id.same(&y.approval_id) {
                            return Err(AppError::InvalidInput("Physical Core records are inconsistent."));
                        }
                    },
                    _ => {},
                }
                j = j + 1;
            }
            i = i + 1;
        }
        let mut i: usize = 0;
        while i < audits.len()
            invariant
                i <= audits@.len(),
                forall|k: int, l: int|
                    0 <= k < l < i ==> #[trigger] audits@[k].approval.approval_id@ != #[trigger] audits@[l].approval.approval_id@,
                forall|k: int, l: int| 0 <= k < l < i ==> #[trigger] audits@[k].root_id@ != #[trigger] audits@[l].root_id@,
                forall|k: int, l: int|
                    0 <= k < l < i ==> #[trigger] audits@[k].attempt_id@ != #[trigger] audits@[l].attempt_id@,
            decreases audits@.len() - i,
        {
            let mut j: usize = 0;
            while j < i
                invariant
                    i < audits@.len(),
                    j <= i,
                    forall|k: int| 0 <= k < j ==> (#[trigger] audits@[k]).approval.approval_id@ != audits@[i as int].approval.approval_id@,
                    forall|k: int| 0 <= k < j ==> (#[trigger] audits@[k]).root_id@ != audits@[i as int].root_id@,
                    forall|k: int| 0 <= k < j ==> (#[trigger] audits@[k]).attempt_id@ != audits@[i as int].attempt_id@,
                decreases i - j,
            {
                let x = &audits[j];
                let y = &audits[i];
                if x.approval.approval_id.same(&y.approval.approval_id) || x.root_id.same(&y.root_id)
                    || x.attempt_id.same(&y.attempt_id) {
                    return Err(AppError::InvalidInput("Physical Core records are inconsistent."));
                }
                j = j + 1;
            }
            i = i + 1;
        }
        let ledger = PhysicalLedgerV1 { reviews, audits, states };
        if !ledger.check_lineage() || !ledger.check_revisions() {
            return Err(AppError::InvalidInput("Physical Core records are inconsistent."));
        }
        Ok(ledger)
    }

    /// Hands the stored rows back, in the order they were written.
    pub fn into_parts(self) -> (r: (Vec<PhysicalReviewRecordV1>, Vec<RootAuditV1>, Vec<AttemptStateV1>))
        ensures
            r.0@ == self.spec_reviews(),
            r.1@ == self.spec_audits(),
            r.2@ == self.spec_states(),
    {
        (self.reviews, self.audits, self.states)
    }

    /// How many review revisions are stored.
    pub fn review_count(&self) -> (r: usize)
        ensures
            r == self.spec_reviews().len(),
    {
        self.reviews.len()
    }

    /// How many attempts were ever originated.
    pub fn attempt_count(&self) -> (r: usize)
        ensures
            r == self.spec_audits().len(),
    {
        self.audits.len()
    }

    fn find_review(&self, id: &ReviewId, rev: u64) -> (r: Option<usize>)
        ensures
            r matches Some(i) ==> review_at(self.reviews@, i as int, id@, rev),
            r is None ==> forall|i: int| !review_at(self.reviews@, i, id@, rev),
    {
        let mut i: usize = 0;
        while i < self.reviews.len()
            invariant
                i <= self.reviews@.len(),
                forall|k: int| 0 <= k < i ==> !review_at(self.reviews@, k, id@, rev),
            decreases self.reviews@.len() - i,
        {
            if self.reviews[i].review_id.same(id) && self.reviews[i].revision == rev {
                return Some(i);
            }
            i = i + 1;
        }
        None
    }

    /// Whether every attempt names a stored review revision that carries
    /// its approval and scope.
    fn check_lineage(&self) -> (ok: bool)
        requires
            ledger_wf(self.reviews@, self.audits@, self.states@),
        ensures
            ok == lineage_complete(self.reviews@, self.audits@),
    {
        let mut i: usize = 0;
        while i < self.audits.len()
            invariant
                i <= self.audits@.len(),
                ledger_wf(self.reviews@, self.audits@, self.states@),
                forall|k: int|
                    #![trigger self.audits@[k]]
                    0 <= k < i ==> exists|j: int|
                        #[trigger] review_at(self.reviews@, j, self.audits@[k].review_id@, self.audits@[k].review_revision)
                            && audit_lineage_ok(self.audits@[k], self.reviews@[j]),
            decreases self.audits@.len() - i,
        {
            let a = &self.audits[i];
            match self.find_review(&a.review_id, a.review_revision) {
                Some(j) => {
                    if !lineage_holds(a, &self.reviews[j]) {
                        proof {
                            assert forall|m: int|
                                review_at(self.reviews@, m, a.review_id@, a.review_revision) implies m == j as int by {
                                if m != j as int {
                                    let (x, y) = if m < j as int { (m, j as int) } else { (j as int, m) };
                                    assert(self.reviews@[x].review_id@ == self.reviews@[y].review_id@);
                                }
                            }
                        }
                        return false;
                    }
                },
                None => {
                    return false;
                },
            }
            i = i + 1;
        }
        true
    }

    /// Whether every revision after the first follows a stored earlier one
    /// and every superseded revision is rejected or expired.
    fn check_revisions(&self) -> (ok: bool)
        ensures
            ok == revisions_complete(self.reviews@),
    {
        let mut i: usize = 0;
        while i < self.reviews.len()
            invariant
                i <= self.reviews@.len(),
                forall|k: int|
                    #![trigger self.reviews@[k]]
                    0 <= k < i && self.reviews@[k].revision > 1 ==> exists|j: int|
                        #[trigger] review_at(self.reviews@, j, self.reviews@[k].review_id@, (self.reviews@[k].revision - 1) as u64),
                forall|k: int, j: int|
                    0 <= k < i && 0 <= j < self.reviews@.len() && #[trigger] self.reviews@[k].review_id@
                        == #[trigger] self.reviews@[j].review_id@ && self.reviews@[k].revision < self.reviews@[j].revision
                        ==> superseded_ok(self.reviews@[k].state),
            decreases self.reviews@.len() - i,
        {
            let r = &self.reviews[i];
            if r.revision > 1 {
                if self.find_review(&r.review_id, r.revision - 1).is_none() {
                    return false;
                }
            }
            let dead = match r.state {
                PhysicalReviewStateV1::Rejected | PhysicalReviewStateV1::Expired => true,
                _ => false,
            };
            let mut j: usize = 0;
            while j < self.reviews.len()
                invariant
                    i < self.reviews@.len(),
                    j <= self.reviews@.len(),
                    r == self.reviews@[i as int],
                    dead == superseded_ok(r.state),
                    forall|m: int|
                        0 <= m < j && #[trigger] self.reviews@[m].review_id@ == r.review_id@
                            && r.revision < self.reviews@[m].revision ==> dead,
                decreases self.reviews@.len() - j,
            {
                let q = &self.reviews[j];
                if !dead && q.review_id.same(&r.review_id) && r.revision < q.revision {
                    return false;
                }
                j = j + 1;
            }
            i = i + 1;
        }
        true
    }

    /// The newest revision stored for review `id`, if any.
    fn latest_revision(&self, id: &ReviewId) -> (r: Option<u64>)
        ensures
            r matches Some(rev) ==> is_latest(self.reviews@, id@, rev),
            r is None ==> forall|j: int| 0 <= j < self.reviews@.len() ==> self.reviews@[j].review_id@ != id@,
    {
        let mut best: Option<u64> = None;
        let mut at: usize = 0;
        let mut i: usize = 0;
        while i < self.reviews.len()
            invariant
                i <= self.reviews@.len(),
                best matches Some(b) ==> review_at(self.reviews@, at as int, id@, b) && at < i,
                best matches Some(b) ==> forall|j: int|
                    0 <= j < i && #[trigger] self.reviews@[j].review_id@ == id@ ==> self.reviews@[j].revision <= b,
                best is None ==> forall|j: int| 0 <= j < i ==> self.reviews@[j].review_id@ != id@,
            decreases self.reviews@.len() - i,
        {
            if self.reviews[i].review_id.same(id) {
                let rev = self.reviews[i].revision;
                match best {
                    None => {
                        best = Some(rev);
                        at = i;
                    },
                    Some(b) => {
                        if rev > b {
                            best = Some(rev);
                            at = i;
                        }
                    },
                }
            }
            i = i + 1;
        }
        best
    }

    /// The index of review `id` at `rev`, refusing a missing or superseded revision.
    fn current_index(&self, id: &ReviewId, rev: u64) -> (r: AppResult<usize>)
        requires
            self.wf(),
        ensures
            r is Ok <==> is_latest(self.reviews@, id@, rev),
            r matches Ok(i) ==> review_at(self.reviews@, i as int, id@, rev) && i
                == review_index(self.reviews@, id@, rev),
    {
        match self.latest_revision(id) {
            None => Err(AppError::InvalidInput("Unknown physical review")),
            Some(latest) => {
                if latest != rev {
                    return Err(AppError::InvalidInput("Superseded physical review"));
                }
                match self.find_review(id, rev) {
                    Some(i) => {
                        proof {
                            let c = review_index(self.reviews@, id@, rev);
                            assert(review_at(self.reviews@, c, id@, rev));
                            if c < i {
                                assert(self.reviews@[c].review_id@ == self.reviews@[i as int].review_id@);
                            } else if c > i {
                                assert(self.reviews@[i as int].review_id@ == self.reviews@[c].review_id@);
                            }
                        }
                        Ok(i)
                    },
                    None => Err(AppError::InvalidInput("Unknown physical review")),
                }
            },
        }
    }

    /// A stored review revision (current or superseded).
    pub fn review(&self, id: &ReviewId, rev: u64) -> (r: AppResult<&PhysicalReviewRecordV1>)
        ensures
            r is Ok <==> exists|i: int| #[trigger] review_at(self.spec_reviews(), i, id@, rev),
            r matches Ok(rec) ==> exists|i: int|
                #[trigger] review_at(self.spec_reviews(), i, id@, rev) && self.spec_reviews()[i] == *rec,
    {
        match self.find_review(id, rev) {
            Some(i) => {
                assert(review_at(self.spec_reviews(), i as int, id@, rev));
                Ok(&self.reviews[i])
            },
            None => Err(AppError::InvalidInput("Unknown physical review")),
        }
    }

    /// The current review revision that carries approval `aid`.
    pub fn review_for_approval(&self, aid: &ApprovalId) -> (r: AppResult<&PhysicalReviewRecordV1>)
        requires
            self.wf(),
        ensures
            r is Ok <==> exists|i: int|
                0 <= i < self.spec_reviews().len() && carries_approval(#[trigger] self.spec_reviews()[i], aid@)
                    && is_latest(
                    self.spec_reviews(),
                    self.spec_reviews()[i].review_id@,
                    self.spec_reviews()[i].revision,
                ),
            r matches Ok(rec) ==> {
                &&& carries_approval(*rec, aid@)
                &&& is_latest(self.spec_reviews(), rec.review_id@, rec.revision)
                &&& exists|i: int| 0 <= i < self.spec_reviews().len() && self.spec_reviews()[i] == *rec
            },
    {
        let mut i: usize = 0;
        while i < self.reviews.len()
            invariant
                self.wf(),
                i <= self.reviews@.len(),
                forall|k: int| 0 <= k < i ==> !carries_approval(#[trigger] self.reviews@[k], aid@),
            decreases self.reviews@.len() - i,
        {
            let matches = match &self.reviews[i].approval {
                Some(a) => a.approval_id.same(aid),
                None => false,
            };
            if matches {
                proof {
                    assert(carries_approval(self.reviews@[i as int], aid@));
                    assert forall|k: int|
                        0 <= k < self.reviews@.len() && k != i implies !carries_approval(
                            #[trigger] self.reviews@[k],
                            aid@,
                        ) by {
                        if k > i {
                            assert(!share_approval(self.reviews@[i as int], self.reviews@[k]));
                        }
                    }
                }
                match self.current_index(&self.reviews[i].review_id, self.reviews[i].revision) {
                    Ok(_) => {
                        return Ok(&self.reviews[i]);
                    },
                    Err(e) => {
                        return Err(e);
                    },
                }
            }
            i = i + 1;
        }
        Err(AppError::InvalidInput("Unknown physical approval"))
    }

    /// Stores a new draft review (revision one, no approval) with a fresh identity.
    pub fn create_review(&mut self, r: PhysicalReviewRecordV1) -> (res: AppResult<()>)
        requires
            old(self).wf(),
        ensures
            final(self).wf(),
            old(self).evolves_to(final(self)),
            res is Ok <==> (r.state == PhysicalReviewStateV1::Draft && r.revision == 1
                && r.approval is None && record_valid(r) && forall|j: int|
                0 <= j < old(self).spec_reviews().len() ==> old(self).spec_reviews()[j].review_id@
                    != r.review_id@),
            res is Ok ==> final(self).spec_reviews() == old(self).spec_reviews().push(r),
            res is Err ==> final(self).spec_reviews() == old(self).spec_reviews(),
            final(self).spec_audits() == old(self).spec_audits(),
            final(self).spec_states() == old(self).spec_states(),
    {
        let is_draft = match r.state {
            PhysicalReviewStateV1::Draft => true,
            _ => false,
        };
        require(is_draft && r.revision == 1 && r.approval.is_none(), "Invalid initial review")?;
        r.validate()?;
        if self.latest_revision(&r.review_id).is_some() {
            return Err(AppError::InvalidInput("Duplicate physical review"));
        }
        self.reviews.push(r);
        Ok(())
    }

    /// Whether no stored review carries approval `aid`.
    fn approval_unused(&self, aid: &ApprovalId) -> (r: bool)
        ensures
            r == approval_fresh(self.reviews@, aid@),
    {
        let mut i: usize = 0;
        while i < self.reviews.len()
            invariant
                i <= self.reviews@.len(),
                forall|k: int| 0 <= k < i ==> !carries_approval(#[trigger] self.reviews@[k], aid@),
            decreases self.reviews@.len() - i,
        {
            let hit = match &self.reviews[i].approval {
                Some(a) => a.approval_id.same(aid),
                None => false,
            };
            if hit {
                assert(carries_approval(self.reviews@[i as int], aid@));
                return false;
            }
            i = i + 1;
        }
        true
    }

    /// Replaces the state (and, on approving, the approval) of review `i`.
    fn apply_transition(
        &mut self,
        i: usize,
        next: PhysicalReviewStateV1,
        approval: Option<ApprovalCorrelationV1>,
    )
        requires
            old(self).wf(),
            0 <= i < old(self).spec_reviews().len(),
            record_valid(transitioned(old(self).spec_reviews()[i as int], next, approval)),
            approval_principal_ok(transitioned(old(self).spec_reviews()[i as int], next, approval)),
            next == PhysicalReviewStateV1::Approved ==> (approval matches Some(a) && approval_fresh(
                old(self).spec_reviews(),
                a.approval_id@,
            )),
        ensures
            final(self).wf(),
            final(self).spec_reviews() == old(self).spec_reviews().update(
                i as int,
                transitioned(old(self).spec_reviews()[i as int], next, approval),
            ),
            final(self).spec_audits() == old(self).spec_audits(),
            final(self).spec_states() == old(self).spec_states(),
    {
        let ghost old_reviews = self.reviews@;
        let approving = match next {
            PhysicalReviewStateV1::Approved => true,
            _ => false,
        };
        self.reviews[i].state = next;
        if approving {
            self.reviews[i].approval = approval;
        }
        proof {
            let t = transitioned(old_reviews[i as int], next, approval);
            assert(self.reviews@ =~= old_reviews.update(i as int, t));
            lemma_update_keeps_wf(old_reviews, self.audits@, self.states@, i as int, t);
        }
    }

    /// Moves the current revision `rev` of review `id`, sealed with `digest`,
    /// to `next`; approving attaches `approval`. Rejecting or expiring a review
    /// closes its open attempts as superseded.
    pub fn transition_review(
        &mut self,
        id: &ReviewId,
        rev: u64,
        digest: &DigestV1,
        next: PhysicalReviewStateV1,
        approval: Option<ApprovalCorrelationV1>,
    ) -> (res: AppResult<PhysicalReviewRecordV1>)
        requires
            old(self).wf(),
        ensures
            final(self).wf(),
            old(self).evolves_to(final(self)),
            res is Ok <==> transition_ok(old(self).spec_reviews(), id@, rev, digest@, next, approval),
            res is Ok ==> ({
                let i = review_index(old(self).spec_reviews(), id@, rev);
                &&& final(self).spec_reviews() == old(self).spec_reviews().update(
                    i,
                    transitioned(old(self).spec_reviews()[i], next, approval),
                )
                &&& final(self).spec_states() == if is_terminal(next) {
                    closed_where(
                        old(self).spec_audits(),
                        old(self).spec_states(),
                        AttemptSelector::OfReview(id, rev),
                        CloseReasonV1::Superseded,
                    )
                } else {
                    old(self).spec_states()
                }
            }),
            res matches Ok(r) ==> record_same(
                r,
                transitioned(
                    old(self).spec_reviews()[review_index(old(self).spec_reviews(), id@, rev)],
                    next,
                    approval,
                ),
            ),
            res is Err ==> final(self).spec_reviews() == old(self).spec_reviews()
                && final(self).spec_states() == old(self).spec_states(),
            final(self).spec_audits() == old(self).spec_audits(),
    {
        let i = self.current_index(id, rev)?;
        require(self.reviews[i].scope_digest.same(digest), "Approval/review digest mismatch")?;
        let previous = self.reviews[i].state;
        require(transition_allowed_exec(previous, next), "Invalid review lifecycle")?;
        let approving = match next {
            PhysicalReviewStateV1::Approved => true,
            _ => false,
        };
        if approving {
            match &approval {
                None => {
                    return Err(AppError::InvalidInput("Missing Core approval"));
                },
                Some(a) => {
                    require(
                        a.principal.same(&self.reviews[i].scope.fields().principal),
                        "Approval principal mismatch",
                    )?;
                    a.validate()?;
                    require(
                        a.review_id.same(id) && a.review_revision == rev && a.scope_digest.same(
                            digest,
                        ),
                        "Approval refers to another review scope",
                    )?;
                    require(self.approval_unused(&a.approval_id), "Approval already recorded")?;
                },
            }
        } else {
            require(approval.is_none(), "Unexpected approval replacement")?;
        }
        self.apply_transition(i, next, approval);
        let out = self.reviews[i].duplicate();
        let terminal = match next {
            PhysicalReviewStateV1::Rejected | PhysicalReviewStateV1::Expired => true,
            _ => false,
        };
        if terminal {
            self.close_selected(AttemptSelector::OfReview(id, rev), CloseReasonV1::Superseded);
        }
        Ok(out)
    }

    /// Supersedes the current revision `expected` of review `id` with a new
    /// draft revision of `scope`: the old revision expires unless already
    /// terminal, and its open attempts close as superseded.
    pub fn revise_review(&mut self, id: &ReviewId, expected: u64, scope: PhysicalReviewScopeV1) -> (res:
        AppResult<PhysicalReviewRecordV1>)
        requires
            old(self).wf(),
        ensures
            final(self).wf(),
            old(self).evolves_to(final(self)),
            res is Ok <==> (is_latest(old(self).spec_reviews(), id@, expected) && expected
                < 0x7fff_ffff_ffff_ffff),
            res matches Ok(r) ==> ({
                let i = review_index(old(self).spec_reviews(), id@, expected);
                let n = final(self).spec_reviews().last();
                &&& final(self).spec_reviews().len() == old(self).spec_reviews().len() + 1
                &&& final(self).spec_reviews().drop_last() == old(self).spec_reviews().update(
                    i,
                    expired_unless_terminal(old(self).spec_reviews()[i]),
                )
                &&& n.review_id@ == id@
                &&& n.revision == expected + 1
                &&& n.scope == scope
                &&& n.scope_digest@ == scope_digest(scope.spec_fields())
                &&& n.state == PhysicalReviewStateV1::Draft
                &&& n.approval is None
                &&& record_same(r, n)
                &&& final(self).spec_states() == closed_where(
                    old(self).spec_audits(),
                    old(self).spec_states(),
                    AttemptSelector::OfReview(id, expected),
                    CloseReasonV1::Superseded,
                )
            }),
            res is Err ==> final(self).spec_reviews() == old(self).spec_reviews()
                && final(self).spec_states() == old(self).spec_states(),
            final(self).spec_audits() == old(self).spec_audits(),
    {
        let i = self.current_index(id, expected)?;
        require(expected < 0x7fff_ffff_ffff_ffff, "Physical review revision overflow")?;
        let digest = match scope.digest() {
            Ok(d) => d,
            Err(e) => {
                return Err(e);
            },
        };
        let state = self.reviews[i].state;
        let terminal = match state {
            PhysicalReviewStateV1::Rejected | PhysicalReviewStateV1::Expired => true,
            _ => false,
        };
        if !terminal {
            self.apply_transition(i, PhysicalReviewStateV1::Expired, None);
        }
        self.close_selected(AttemptSelector::OfReview(id, expected), CloseReasonV1::Superseded);
        let r = PhysicalReviewRecordV1 {
            version: VersionV1,
            review_id: id.duplicate(),
            revision: expected + 1,
            scope,
            scope_digest: digest,
            state: PhysicalReviewStateV1::Draft,
            approval: None,
        };
        let out = r.duplicate();
        let ghost before = self.reviews@;
        self.reviews.push(r);
        proof {
            assert(self.reviews@.drop_last() =~= before);
            assert forall|a: int, b: int|
                0 <= a < b < self.reviews@.len() implies !(#[trigger] self.reviews@[a].review_id@
                    == #[trigger] self.reviews@[b].review_id@ && self.reviews@[a].revision
                    == self.reviews@[b].revision) by {
                if b == before.len() && self.reviews@[a].review_id@ == id@ {
                    assert(before[a].review_id@ == id@);
                }
            }
            assert forall|a: int, b: int| 0 <= a < b < self.reviews@.len() implies !share_approval(
                #[trigger] self.reviews@[a],
                #[trigger] self.reviews@[b],
            ) by {
                if b < before.len() {
                    assert(!share_approval(before[a], before[b]));
                }
            }
            assert forall|k: int| 0 <= k < self.reviews@.len() implies record_valid(
                #[trigger] self.reviews@[k],
            ) by {
                if k < before.len() {
                    assert(record_valid(before[k]));
                }
            }
        }
        Ok(out)
    }

    /// Whether no attempt consumed `aid` and none uses `root` or `attempt`.
    fn attempt_fresh(&self, aid: &ApprovalId, root: &RootId, attempt: &AttemptId) -> (r: bool)
        ensures
            r == (!consumed(self.audits@, aid@) && (forall|j: int|
                0 <= j < self.audits@.len() ==> #[trigger] self.audits@[j].root_id@ != root@) && (
            forall|j: int|
                0 <= j < self.audits@.len() ==> #[trigger] self.audits@[j].attempt_id@ != attempt@)),
    {
        let mut i: usize = 0;
        while i < self.audits.len()
            invariant
                i <= self.audits@.len(),
                forall|k: int|
                    0 <= k < i ==> (#[trigger] self.audits@[k]).approval.approval_id@ != aid@
                        && self.audits@[k].root_id@ != root@ && self.audits@[k].attempt_id@
                        != attempt@,
            decreases self.audits@.len() - i,
        {
            if self.audits[i].approval.approval_id.same(aid) {
                assert(consumed_at(self.audits@, i as int, aid@));
                return false;
            }
            if self.audits[i].root_id.same(root) || self.audits[i].attempt_id.same(attempt) {
                return false;
            }
            i = i + 1;
        }
        assert forall|k: int| !consumed_at(self.audits@, k, aid@) by {
            if 0 <= k < self.audits@.len() {
                assert(self.audits@[k].approval.approval_id@ != aid@);
            }
        }
        true
    }

    /// Records a new open attempt for `a`, consuming its approval, when
    /// `origination_ok` holds at `now`; otherwise changes nothing.
    #[verifier::spinoff_prover]
    #[verifier::rlimit(60)]
    pub fn originate_attempt(&mut self, a: RootAuditV1, now: u64) -> (res: AppResult<()>)
        requires
            old(self).wf(),
        ensures
            final(self).wf(),
            old(self).evolves_to(final(self)),
            res is Ok <==> origination_ok(old(self).spec_reviews(), old(self).spec_audits(), a, now),
            res is Ok ==> final(self).spec_audits() == old(self).spec_audits().push(a)
                && final(self).spec_states() == old(self).spec_states().push(AttemptStateV1::Open),
            res is Err ==> final(self).spec_audits() == old(self).spec_audits()
                && final(self).spec_states() == old(self).spec_states(),
            final(self).spec_reviews() == old(self).spec_reviews(),
    {
        let i = self.current_index(&a.review_id, a.review_revision)?;
        let approved = match self.reviews[i].state {
            PhysicalReviewStateV1::Approved => true,
            _ => false,
        };
        require(approved && lineage_holds(&a, &self.reviews[i]), "Root audit lineage mismatch")?;
        require(
            now >= a.approval.approved_at.get() && now < a.expires_at.get() && now
                < a.approval.expires_at.get(),
            "Approval/start no longer current",
        )?;
        require(
            self.attempt_fresh(&a.approval.approval_id, &a.root_id, &a.attempt_id),
            "Approval already consumed",
        )?;
        let ghost before = self.audits@;
        self.audits.push(a);
        self.states.push(AttemptStateV1::Open);
        proof {
            assert forall|x: int, y: int| 0 <= x < y < self.audits@.len() implies #[trigger] self.audits@[x].approval.approval_id@
                != #[trigger] self.audits@[y].approval.approval_id@ by {
                if y == before.len() {
                    assert(!consumed_at(before, x, a.approval.approval_id@));
                }
            }
        }
        Ok(())
    }

    /// The index of root `id`'s attempt.
    fn find_root(&self, id: &RootId) -> (r: Option<usize>)
        requires
            self.wf(),
        ensures
            r matches Some(k) ==> root_at(self.audits@, k as int, id@) && k == root_index(
                self.audits@,
                id@,
            ),
            r is None ==> forall|k: int| !root_at(self.audits@, k, id@),
    {
        let mut i: usize = 0;
        while i < self.audits.len()
            invariant
                self.wf(),
                i <= self.audits@.len(),
                forall|k: int| 0 <= k < i ==> !root_at(self.audits@, k, id@),
            decreases self.audits@.len() - i,
        {
            if self.audits[i].root_id.same(id) {
                proof {
                    let c = root_index(self.audits@, id@);
                    assert(root_at(self.audits@, i as int, id@));
                    if c < i {
                        assert(self.audits@[c].root_id@ == self.audits@[i as int].root_id@);
                    } else if c > i {
                        assert(self.audits@[i as int].root_id@ == self.audits@[c].root_id@);
                    }
                }
                return Some(i);
            }
            i = i + 1;
        }
        None
    }

    /// `Ok` exactly when root `id`'s attempt is current at `now`.
    pub fn validate_attempt(&self, id: &RootId, now: u64) -> (r: AppResult<()>)
        requires
            self.wf(),
        ensures
            r is Ok <==> attempt_current(
                self.spec_reviews(),
                self.spec_audits(),
                self.spec_states(),
                id@,
                now,
            ),
    {
        let k = match self.find_root(id) {
            Some(k) => k,
            None => {
                return Err(AppError::InvalidInput("Unknown physical Root audit"));
            },
        };
        let open = match self.states[k] {
            AttemptStateV1::Open => true,
            AttemptStateV1::Closed(_) => false,
        };
        require(open, "Closed physical Root audit")?;
        let i = self.current_index(&self.audits[k].review_id, self.audits[k].review_revision)?;
        let approved = match self.reviews[i].state {
            PhysicalReviewStateV1::Approved => true,
            _ => false,
        };
        require(
            approved && now >= self.audits[k].created_at.get() && now
                < self.audits[k].expires_at.get(),
            "Closed/stale physical Root audit",
        )
    }

    /// The state of root `id`'s attempt, if one was originated.
    pub fn attempt_state(&self, id: &RootId) -> (r: Option<AttemptStateV1>)
        requires
            self.wf(),
        ensures
            r is Some <==> exists|k: int| #[trigger] root_at(self.spec_audits(), k, id@),
            r matches Some(st) ==> st == self.spec_states()[root_index(self.spec_audits(), id@)],
    {
        match self.find_root(id) {
            Some(k) => Some(self.states[k]),
            None => None,
        }
    }

    /// Closes every open attempt that `sel` selects, for `reason`.
    fn close_selected(&mut self, sel: AttemptSelector, reason: CloseReasonV1)
        requires
            old(self).wf(),
        ensures
            final(self).wf(),
            final(self).spec_reviews() == old(self).spec_reviews(),
            final(self).spec_audits() == old(self).spec_audits(),
            final(self).spec_states() == closed_where(
                old(self).spec_audits(),
                old(self).spec_states(),
                sel,
                reason,
            ),
            old(self).evolves_to(final(self)),
    {
        let ghost target = closed_where(self.audits@, self.states@, sel, reason);
        let ghost old_states = self.states@;
        let ghost old_reviews = self.reviews@;
        let ghost old_audits = self.audits@;
        let mut k: usize = 0;
        while k < self.states.len()
            invariant
                self.reviews@ == old_reviews,
                self.audits@ == old_audits,
                self.states@.len() == old_states.len(),
                self.audits@.len() == old_states.len(),
                target == closed_where(self.audits@, old_states, sel, reason),
                k <= self.states@.len(),
                forall|j: int| 0 <= j < k ==> self.states@[j] == target[j],
                forall|j: int| k <= j < self.states@.len() ==> self.states@[j] == old_states[j],
            decreases self.states@.len() - k,
        {
            let hit = match sel {
                AttemptSelector::OfReview(id, rev) => self.audits[k].review_id.same(id)
                    && self.audits[k].review_revision == rev,
                AttemptSelector::OfRoot(id) => self.audits[k].root_id.same(id),
                AttemptSelector::All => true,
            };
            let open = match self.states[k] {
                AttemptStateV1::Open => true,
                AttemptStateV1::Closed(_) => false,
            };
            if hit && open {
                self.states.set(k, AttemptStateV1::Closed(reason));
            }
            k = k + 1;
        }
        assert(self.states@ =~= target);
        proof {
            lemma_closing(old_reviews, old_audits, old_states, sel, reason);
        }
    }

    /// Closes the open attempt of root `id`, if any.
    pub fn close_attempt(&mut self, id: &RootId, reason: CloseReasonV1)
        requires
            old(self).wf(),
        ensures
            final(self).wf(),
            final(self).spec_reviews() == old(self).spec_reviews(),
            final(self).spec_audits() == old(self).spec_audits(),
            final(self).spec_states() == closed_where(
                old(self).spec_audits(),
                old(self).spec_states(),
                AttemptSelector::OfRoot(id),
                reason,
            ),
            old(self).evolves_to(final(self)),
    {
        self.close_selected(AttemptSelector::OfRoot(id), reason);
    }

    /// Closes every open attempt, for `reason`.
    pub fn close_open_attempts(&mut self, reason: CloseReasonV1)
        requires
            old(self).wf(),
        ensures
            final(self).wf(),
            final(self).spec_reviews() == old(self).spec_reviews(),
            final(self).spec_audits() == old(self).spec_audits(),
            final(self).spec_states() == closed_where(
                old(self).spec_audits(),
                old(self).spec_states(),
                AttemptSelector::All,
                reason,
            ),
            old(self).evolves_to(final(self)),
    {
        self.close_selected(AttemptSelector::All, reason);
    }
}

/// Any chain of ledger operations keeps history: what one step keeps, two
/// steps keep; in particular a closed attempt never reopens and a review
/// never leaves a terminal state.
pub proof fn lemma_evolves_transitive(a: PhysicalLedgerV1, b: PhysicalLedgerV1, c: PhysicalLedgerV1)
    requires
        a.evolves_to(&b),
        b.evolves_to(&c),
    ensures
        a.evolves_to(&c),
{
    assert(reviews_evolve(a.spec_reviews(), c.spec_reviews())) by {
        let (o, m, n) = (a.spec_reviews(), b.spec_reviews(), c.spec_reviews());
        assert forall|i: int| 0 <= i < o.len() implies (#[trigger] n[i]).review_id@ == o[i].review_id@
            && n[i].revision == o[i].revision && n[i].scope_digest@ == o[i].scope_digest@
            && n[i].scope == o[i].scope && state_reachable(o[i].state, n[i].state) by {
            assert(m[i].review_id@ == o[i].review_id@);
            assert(n[i].review_id@ == m[i].review_id@);
        }
    }
    assert forall|i: int|
        0 <= i < a.spec_states().len() && (#[trigger] a.spec_states()[i] matches AttemptStateV1::Closed(_))
            implies c.spec_states()[i] == a.spec_states()[i] by {
        assert(b.spec_states()[i] == a.spec_states()[i]);
        assert(b.spec_states()[i] matches AttemptStateV1::Closed(_));
    }
}

/// A terminal review (rejected or expired) has no successor state: along
/// any history it stays as it is.
pub proof fn lemma_terminal_review_is_final(s: PhysicalReviewStateV1, n: PhysicalReviewStateV1)
    requires
        is_terminal(s),
    ensures
        !transition_allowed(s, n),
        state_reachable(s, n) ==> n == s,
{
}

/// One approval, one attempt: no two attempts of a well-formed ledger
/// consumed the same approval.
pub proof fn lemma_one_approval_one_attempt(l: PhysicalLedgerV1, i: int, j: int)
    requires
        l.wf(),
        0 <= i < l.spec_audits().len(),
        0 <= j < l.spec_audits().len(),
        l.spec_audits()[i].approval.approval_id@ == l.spec_audits()[j].approval.approval_id@,
    ensures
        i == j,
{
    if i < j {
        assert(l.spec_audits()[i].approval.approval_id@ != l.spec_audits()[j].approval.approval_id@);
    } else if j < i {
        assert(l.spec_audits()[j].approval.approval_id@ != l.spec_audits()[i].approval.approval_id@);
    }
}

/// A consumed approval can never originate another attempt.
pub proof fn lemma_consumed_approval_never_restarts(l: PhysicalLedgerV1, a: RootAuditV1, now: u64)
    requires
        l.spec_consumed(a.approval.approval_id@),
    ensures
        !origination_ok(l.spec_reviews(), l.spec_audits(), a, now),
{
}

/// With the ledger well formed, whether an audit of the current approved
/// review `k` that names it exactly and lies within its approval at `now`
/// may be originated depends only on whether its approval, root and attempt
/// are unused.
pub proof fn lemma_origination_of(l: PhysicalLedgerV1, a: RootAuditV1, k: int, now: u64)
    requires
        l.wf(),
        0 <= k < l.spec_reviews().len(),
        l.spec_reviews()[k].state == PhysicalReviewStateV1::Approved,
        is_latest(l.spec_reviews(), l.spec_reviews()[k].review_id@, l.spec_reviews()[k].revision),
        audit_lineage_ok(a, l.spec_reviews()[k]),
        a.approval.approved_at.spec_get() <= now,
        now < a.expires_at.spec_get(),
    ensures
        origination_ok(l.spec_reviews(), l.spec_audits(), a, now) <==> (!consumed(
            l.spec_audits(),
            a.approval.approval_id@,
        ) && (forall|j: int|
            0 <= j < l.spec_audits().len() ==> #[trigger] l.spec_audits()[j].root_id@ != a.root_id@)
            && (forall|j: int|
            0 <= j < l.spec_audits().len() ==> #[trigger] l.spec_audits()[j].attempt_id@
                != a.attempt_id@)),
{
    let reviews = l.spec_reviews();
    assert(review_at(reviews, k, a.review_id@, a.review_revision));
    lemma_review_index_unique(l, a.review_id@, a.review_revision, k);
}

/// In a well-formed ledger the stored position of a review revision is unique.
pub proof fn lemma_review_index_unique(l: PhysicalLedgerV1, id: Seq<char>, rev: u64, w: int)
    requires
        l.wf(),
        review_at(l.spec_reviews(), w, id, rev),
    ensures
        review_index(l.spec_reviews(), id, rev) == w,
{
    let reviews = l.spec_reviews();
    let c = review_index(reviews, id, rev);
    assert(review_at(reviews, c, id, rev));
    if c < w {
        assert(reviews[c].review_id@ == reviews[w].review_id@);
    } else if c > w {
        assert(reviews[w].review_id@ == reviews[c].review_id@);
    }
}

/// In a well-formed ledger at most one review carries an approval.
pub proof fn lemma_approved_index_unique(l: PhysicalLedgerV1, aid: Seq<char>, w: int)
    requires
        l.wf(),
        0 <= w < l.spec_reviews().len(),
        carries_approval(l.spec_reviews()[w], aid),
    ensures
        crate::physical::service::approved_index(l.spec_reviews(), aid) == w,
{
    let reviews = l.spec_reviews();
    let c = crate::physical::service::approved_index(reviews, aid);
    assert(0 <= c < reviews.len() && carries_approval(reviews[c], aid));
    if c < w {
        assert(!share_approval(reviews[c], reviews[w]));
    } else if c > w {
        assert(!share_approval(reviews[w], reviews[c]));
    }
}

} // verus!
