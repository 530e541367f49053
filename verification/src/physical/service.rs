//! Core-owned review and finite task authority. The chain ends at a sealed
//! grant basis: no control session, action admission, dispatch or physical
//! I/O. The caller hands every operation the trusted wall clock (`now`, in
//! milliseconds) and the monotonic clock (`ticks`, in microseconds).
use vstd::prelude::*;

use crate::encode::{enc_enforcement, enc_u64, put_enforcement, put_u64};
use crate::error::{require, AppError, AppResult};
use crate::hashing::blake3_digest;
use crate::identity::{random_uuid_text, same_session, HostRef, HostSessionBinding, LocalRuntimeRef};
use crate::physical::binding::{binding_same, domain_bytes};
use crate::physical::contracts::{
    approval_same, enc_scope, qualification_same, record_same, semantic_same, scope_digest,
    scope_valid, ApprovalCorrelationV1,
    PhysicalReviewRecordV1,
    PhysicalReviewScopeV1, PhysicalReviewStateV1, ReviewScopeFieldsV1,
};
use crate::physical::ledger::{
    approval_fresh, attempt_current, audit_same, carries_approval, closed_where, consumed,
    expired_unless_terminal, review_at, share_approval, state_reachable,
    is_latest, is_terminal, origination_ok, review_index, transition_ok, AttemptSelector,
    AttemptStateV1, CloseReasonV1, PhysicalLedgerV1, RootAuditV1,
};
use crate::physical::narrowing::{
    intersect, lemma_meet_narrowing, meet_fits, narrows_both, validate_narrowing,
};
use crate::physical::registry::{
    qual_index, qualification_current, EnvironmentBindingV1,
    PhysicalBindingRegistryV1,
};
use crate::text::{is_token_byte, token_ok, utf8};
use crate::values::{
    enforcement_rank, ApprovalId, AttemptId, DigestV1, LabelV1, PositiveMicros, ReviewId, RootId,
    SessionEnforcementClassV1, TokenV1, UnixMillis, VersionV1, MAX_TOKEN,
};

verus! {

/// Process-local ingress, issued by one open Core for its current runtime.
/// Nothing but `local_ingress` makes one.
pub struct LocalCoreIngressV1 {
    runtime: LocalRuntimeRef,
    issuer: TokenV1,
}

impl LocalCoreIngressV1 {
    pub closed spec fn spec_runtime(self) -> LocalRuntimeRef {
        self.runtime
    }

    pub closed spec fn spec_issuer(self) -> Seq<char> {
        self.issuer@
    }
}

/// The boundary for an authenticated peer Core. It holds the runtime it was
/// accepted by, the exact Host session, and whether the session still stands.
pub struct VerifiedPeerCoreIngressV1 {
    runtime: LocalRuntimeRef,
    binding: HostSessionBinding,
    authenticated: bool,
}

impl VerifiedPeerCoreIngressV1 {
    pub closed spec fn spec_runtime(self) -> LocalRuntimeRef {
        self.runtime
    }

    pub closed spec fn spec_binding(self) -> HostSessionBinding {
        self.binding
    }

    pub closed spec fn spec_authenticated(self) -> bool {
        self.authenticated
    }

    /// An authenticated peer ingress for `binding`, accepted by `runtime`.
    pub fn new(runtime: LocalRuntimeRef, binding: HostSessionBinding) -> (r: VerifiedPeerCoreIngressV1)
        ensures
            r.spec_runtime() == runtime,
            r.spec_binding() == binding,
            r.spec_authenticated(),
    {
        VerifiedPeerCoreIngressV1 { runtime, binding, authenticated: true }
    }

    /// The session no longer stands: every later validation fails.
    pub fn invalidate(&mut self)
        ensures
            final(self).spec_runtime() == old(self).spec_runtime(),
            final(self).spec_binding() == old(self).spec_binding(),
            !final(self).spec_authenticated(),
    {
        self.authenticated = false;
    }

    /// `Ok` exactly when the ingress was accepted by this very runtime, is
    /// still authenticated, carries exactly the current unexpired session,
    /// and that session joins `requester` to the local executor, two
    /// distinct Hosts.
    pub fn validate(
        &self,
        runtime: &LocalRuntimeRef,
        current: &HostSessionBinding,
        requester: &HostRef,
        executor: &HostRef,
        now: UnixMillis,
    ) -> (r: AppResult<()>)
        ensures
            r is Ok <==> ({
                &&& self.spec_runtime().spec_host()@ == runtime.spec_host()@
                &&& self.spec_runtime().spec_generation() == runtime.spec_generation()
                &&& self.spec_authenticated()
                &&& same_session(self.spec_binding(), *current)
                &&& current.expires_at > now.spec_get()
                &&& current.peer_host_ref@ == requester@
                &&& current.local_host_ref@ == executor@
                &&& executor@ == runtime.spec_host()@
                &&& requester@ != executor@
            }),
    {
        self.runtime.validate_current(runtime)?;
        let n: u64 = now.get();
        let live = current.expires_at >= 0 && (current.expires_at as u64) > n;
        require(
            self.authenticated && self.binding.same(current) && live
                && current.peer_host_ref.same(requester) && current.local_host_ref.same(executor)
                && executor.same(runtime.host_ref()) && !requester.same(executor),
            "Unverified/stale peer Core ingress",
        )
    }
}

/// The fingerprint of an executor policy.
pub open spec fn policy_fingerprint(
    ceiling: ReviewScopeFieldsV1,
    minimum: SessionEnforcementClassV1,
    lifetime: u64,
) -> Seq<u8> {
    blake3_digest(
        utf8("pastey-physical-executor-policy-v1"@) + seq![0u8] + policy_encoding(ceiling, minimum, lifetime),
    )
}

/// The canonical encoding of an executor policy.
pub open spec fn policy_encoding(
    ceiling: ReviewScopeFieldsV1,
    minimum: SessionEnforcementClassV1,
    lifetime: u64,
) -> Seq<u8> {
    enc_scope(ceiling) + enc_enforcement(minimum) + enc_u64(lifetime)
}

/// The executor's trusted ceiling, minimum enforcement and longest root lifetime.
pub struct ExecutorPolicyV1 {
    pub ceiling: PhysicalReviewScopeV1,
    pub minimum_enforcement: SessionEnforcementClassV1,
    pub max_root_lifetime: PositiveMicros,
    pub digest: DigestV1,
}

fn fingerprint(
    ceiling: &PhysicalReviewScopeV1,
    minimum: SessionEnforcementClassV1,
    lifetime: &PositiveMicros,
) -> (r: DigestV1)
    ensures
        r@ == policy_fingerprint(ceiling.spec_fields(), minimum, lifetime.spec_get()),
{
    let mut buf: Vec<u8> = Vec::new();
    ceiling.fields().encode_semantic(&mut buf);
    ceiling.fields().encode_bounds(&mut buf);
    let ghost b1 = buf@;
    assert(b1 =~= enc_scope(ceiling.spec_fields()));
    put_enforcement(&mut buf, minimum);
    put_u64(&mut buf, lifetime.get());
    assert(buf@ =~= policy_encoding(ceiling.spec_fields(), minimum, lifetime.spec_get()));
    let domain = domain_bytes("pastey-physical-executor-policy-v1");
    let d = DigestV1::of(domain, buf.as_slice());
    assert(domain@ + seq![0u8] + buf@ == utf8("pastey-physical-executor-policy-v1"@) + seq![0u8]
        + policy_encoding(ceiling.spec_fields(), minimum, lifetime.spec_get()));
    d
}

/// The literal identifier prefix `p` is ASCII text of at most 92 token bytes.
pub open spec fn prefix_ok(p: Seq<char>) -> bool {
    vstd::utf8::is_ascii_chars(p) && token_ok(utf8(p), 92)
}

/// `id` has the shape of a fresh identifier under prefix `p`: the prefix
/// followed by 36 characters.
pub open spec fn fresh_shaped(id: Seq<char>, p: Seq<char>) -> bool {
    id.len() == p.len() + 36 && id.subrange(0, p.len() as int) == p
}

proof fn lemma_review_prefix()
    ensures
        prefix_ok("physical-review:v1:"@),
{
    reveal_strlit("physical-review:v1:");
    let p = "physical-review:v1:"@;
    assert(vstd::utf8::is_ascii_chars(p));
    vstd::utf8::is_ascii_chars_encode_utf8(p);
    assert(token_ok(utf8(p), 92));
}

proof fn lemma_approval_prefix()
    ensures
        prefix_ok("physical-approval:v1:"@),
{
    reveal_strlit("physical-approval:v1:");
    let p = "physical-approval:v1:"@;
    assert(vstd::utf8::is_ascii_chars(p));
    vstd::utf8::is_ascii_chars_encode_utf8(p);
    assert(token_ok(utf8(p), 92));
}

/// A fresh root id and a fresh attempt id never coincide: their prefixes
/// differ in length.
proof fn lemma_root_attempt_ids_differ(x: Seq<char>, y: Seq<char>)
    requires
        fresh_shaped(x, "physical-root:v1:"@),
        fresh_shaped(y, "physical-attempt:v1:"@),
    ensures
        x != y,
{
    reveal_strlit("physical-root:v1:");
    reveal_strlit("physical-attempt:v1:");
}

proof fn lemma_root_prefix()
    ensures
        prefix_ok("physical-root:v1:"@),
{
    reveal_strlit("physical-root:v1:");
    let p = "physical-root:v1:"@;
    assert(vstd::utf8::is_ascii_chars(p));
    vstd::utf8::is_ascii_chars_encode_utf8(p);
    assert(token_ok(utf8(p), 92));
}

proof fn lemma_attempt_prefix()
    ensures
        prefix_ok("physical-attempt:v1:"@),
{
    reveal_strlit("physical-attempt:v1:");
    let p = "physical-attempt:v1:"@;
    assert(vstd::utf8::is_ascii_chars(p));
    vstd::utf8::is_ascii_chars_encode_utf8(p);
    assert(token_ok(utf8(p), 92));
}

/// A fresh identifier: `prefix` followed by a random hyphenated UUID. It
/// succeeds exactly when that text is a valid identifier, which it is for
/// any short ASCII token prefix.
fn fresh_token(prefix: &str) -> (r: AppResult<TokenV1>)
    ensures
        exists|u: Seq<char>|
            {
                &&& #[trigger] token_ok(utf8(u), 36)
                &&& vstd::utf8::is_ascii_chars(u)
                &&& (r is Ok <==> token_ok(utf8(prefix@ + u), MAX_TOKEN as int))
                &&& (r matches Ok(t) ==> t@ == prefix@ + u)
            },
        prefix_ok(prefix@) ==> r is Ok,
        r matches Ok(t) ==> fresh_shaped(t@, prefix@),
{
    let text = random_uuid_text();
    let value = String::from_str(prefix).concat(text.as_str());
    proof {
        let p = prefix@;
        let u = text@;
        if prefix_ok(p) {
            vstd::utf8::is_ascii_chars_concat(p + u, p, u);
            vstd::utf8::is_ascii_chars_encode_utf8(p + u);
            vstd::utf8::is_ascii_chars_encode_utf8(p);
            vstd::utf8::is_ascii_chars_encode_utf8(u);
            let b = utf8(p + u);
            assert forall|i: int| 0 <= i < b.len() implies #[trigger] is_token_byte(b[i]) by {
                if i < p.len() {
                    assert(b[i] == (p + u)[i] as u8);
                    assert((p + u)[i] == p[i]);
                    assert(utf8(p)[i] == p[i] as u8);
                    assert(is_token_byte(utf8(p)[i]));
                } else {
                    assert(b[i] == (p + u)[i] as u8);
                    assert((p + u)[i] == u[i - p.len()]);
                    assert(utf8(u)[i - p.len()] == u[i - p.len()] as u8);
                    assert(is_token_byte(utf8(u)[i - p.len()]));
                }
            }
            assert(token_ok(utf8(p + u), MAX_TOKEN as int));
        }
    }
    let r = TokenV1::new(value);
    assert(token_ok(utf8(text@), 36));
    assert((prefix@ + text@).subrange(0, prefix@.len() as int) =~= prefix@);
    r
}

/// Finite task authority over one exact approved review. Only
/// `start_exact_action` makes one; it carries its own audit snapshot, scope,
/// binding, ingress and monotonic deadline.
pub struct PhysicalAuthorityRootV1 {
    audit: RootAuditV1,
    scope: PhysicalReviewScopeV1,
    binding: EnvironmentBindingV1,
    ingress: LocalCoreIngressV1,
    deadline_ticks: u64,
}

impl PhysicalAuthorityRootV1 {
    pub closed spec fn spec_audit(self) -> RootAuditV1 {
        self.audit
    }

    pub closed spec fn spec_scope(self) -> PhysicalReviewScopeV1 {
        self.scope
    }

    pub closed spec fn spec_binding(self) -> EnvironmentBindingV1 {
        self.binding
    }

    pub closed spec fn spec_ingress(self) -> LocalCoreIngressV1 {
        self.ingress
    }

    pub closed spec fn spec_deadline(self) -> u64 {
        self.deadline_ticks
    }

    pub fn root_id(&self) -> (r: &RootId)
        ensures
            *r == self.spec_audit().root_id,
    {
        &self.audit.root_id
    }

    pub fn attempt_id(&self) -> (r: &AttemptId)
        ensures
            *r == self.spec_audit().attempt_id,
    {
        &self.audit.attempt_id
    }

    pub fn scope(&self) -> (r: &PhysicalReviewScopeV1)
        ensures
            *r == self.spec_scope(),
    {
        &self.scope
    }

    /// The audit snapshot recorded when the root started.
    pub fn audit(&self) -> (r: &RootAuditV1)
        ensures
            *r == self.spec_audit(),
    {
        &self.audit
    }

    pub fn deadline_ticks(&self) -> (r: u64)
        ensures
            r == self.spec_deadline(),
    {
        self.deadline_ticks
    }
}

/// The sealed basis for a later session-bound grant: a narrowing of the
/// root's scope within the executor ceiling. It is no permit: every use must
/// validate it against its live root again.
pub struct PhysicalGrantBasisV1 {
    root_id: RootId,
    attempt_id: AttemptId,
    reviewed_digest: DigestV1,
    narrowed_scope: PhysicalReviewScopeV1,
    minimum_enforcement: SessionEnforcementClassV1,
}

impl PhysicalGrantBasisV1 {
    pub closed spec fn spec_root_id(self) -> Seq<char> {
        self.root_id@
    }

    pub closed spec fn spec_attempt_id(self) -> Seq<char> {
        self.attempt_id@
    }

    pub closed spec fn spec_reviewed_digest(self) -> Seq<u8> {
        self.reviewed_digest@
    }

    pub closed spec fn spec_scope(self) -> PhysicalReviewScopeV1 {
        self.narrowed_scope
    }

    pub closed spec fn spec_minimum(self) -> SessionEnforcementClassV1 {
        self.minimum_enforcement
    }

    pub fn scope(&self) -> (r: &PhysicalReviewScopeV1)
        ensures
            *r == self.spec_scope(),
    {
        &self.narrowed_scope
    }

    pub fn minimum_enforcement(&self) -> (r: SessionEnforcementClassV1)
        ensures
            r == self.spec_minimum(),
    {
        self.minimum_enforcement
    }
}

/// Root `id` is among `live`.
pub open spec fn live_has(live: Seq<RootId>, id: Seq<char>) -> bool {
    exists|j: int| 0 <= j < live.len() && #[trigger] live[j]@ == id
}

/// A start decision was already taken for approval `aid`.
pub open spec fn decided(decisions: Seq<ApprovalId>, aid: Seq<char>) -> bool {
    exists|j: int| 0 <= j < decisions.len() && #[trigger] decisions[j]@ == aid
}

/// Where the current review revision carrying approval `aid` is stored.
pub open spec fn approved_index(reviews: Seq<PhysicalReviewRecordV1>, aid: Seq<char>) -> int {
    choose|k: int| 0 <= k < reviews.len() && carries_approval(#[trigger] reviews[k], aid)
}

/// A root's wall-clock expiry: the earliest of the approval's, the
/// qualification's and the binding offer's expiries and `now` plus the
/// policy lifetime (microseconds, rounded down to milliseconds).
pub open spec fn root_expiry(now: u64, lifetime: u64, approval: u64, qualification: u64, offer: u64) -> int {
    min_int(min_int(min_int(now + lifetime / 1000, approval as int), qualification as int), offer as int)
}

pub open spec fn min_int(x: int, y: int) -> int {
    if x <= y {
        x
    } else {
        y
    }
}

/// A root's monotonic deadline: `ticks` plus its remaining wall lifetime in
/// microseconds, never more than the policy lifetime.
pub open spec fn root_deadline(ticks: u64, now: u64, expiry: int, lifetime: u64) -> int {
    ticks + min_int((expiry - now) * 1000, lifetime as int)
}

/// The wall expiry and monotonic deadline of a root started at `now`
/// (milliseconds) and `ticks` (microseconds); refuses a root with no
/// remaining lifetime and a deadline that does not fit.
fn root_window(now: u64, lifetime: u64, approval: u64, qualification: u64, offer: u64, ticks: u64) -> (res:
    AppResult<(UnixMillis, u64)>)
    requires
        now <= crate::values::MAX_MILLIS,
        approval <= crate::values::MAX_MILLIS,
    ensures
        res is Ok <==> ({
            let e = root_expiry(now, lifetime, approval, qualification, offer);
            &&& now < e
            &&& (e - now) * 1000 <= u64::MAX
            &&& root_deadline(ticks, now, e, lifetime) <= u64::MAX
        }),
        res matches Ok(w) ==> ({
            let e = root_expiry(now, lifetime, approval, qualification, offer);
            &&& w.0.spec_get() == e
            &&& w.1 == root_deadline(ticks, now, e, lifetime)
        }),
{
    let mut expiry = now + lifetime / 1000;
    if approval < expiry {
        expiry = approval;
    }
    if qualification < expiry {
        expiry = qualification;
    }
    if offer < expiry {
        expiry = offer;
    }
    require(now < expiry, "Root has no finite remaining lifetime")?;
    require(expiry - now <= u64::MAX / 1000, "Root deadline overflow")?;
    let remaining = (expiry - now) * 1000;
    let span = if remaining < lifetime {
        remaining
    } else {
        lifetime
    };
    require(ticks <= u64::MAX - span, "Root deadline overflow")?;
    let expires_at = UnixMillis::new(expiry)?;
    Ok((expires_at, ticks + span))
}

/// The audit snapshot of a start of approved review record `r`.
fn build_audit(
    r: &PhysicalReviewRecordV1,
    policy_digest: &DigestV1,
    runtime: &LocalRuntimeRef,
    now: UnixMillis,
    expires_at: UnixMillis,
    root_id: RootId,
    attempt_id: AttemptId,
) -> (res: AppResult<RootAuditV1>)
    requires
        r.approval is Some,
        scope_valid(r.scope.spec_fields()),
    ensures
        res matches Ok(a) && ({
            let s = r.scope.spec_fields();
            let ra = r.approval.unwrap();
            &&& a.root_id@ == root_id@
            &&& a.attempt_id@ == attempt_id@
            &&& a.review_id@ == r.review_id@
            &&& a.review_revision == r.revision
            &&& approval_same(a.approval, ra)
            &&& a.scope_digest@ == r.scope_digest@
            &&& a.principal@ == s.principal@
            &&& a.requester@ == s.requester@
            &&& a.executor@ == s.executor@
            &&& a.environment@ == s.environment.environment@
            &&& a.registration_revision == s.environment.registration_revision
            &&& a.qualification_id@ == s.qualification.qualification_id@
            &&& a.policy_digest@ == policy_digest@
            &&& a.runtime_generation@ == runtime.spec_generation()
            &&& a.created_at.spec_get() == now.spec_get()
            &&& a.expires_at.spec_get() == expires_at.spec_get()
        }),
{
    let s = r.scope.fields();
    let approval = match &r.approval {
        Some(a) => a.duplicate(),
        None => {
            return Err(AppError::InvalidInput("Missing approval"));
        },
    };
    let binding_digest = s.environment.digest()?;
    let profile_digest = s.profile.digest()?;
    let qualification_digest = s.qualification.digest()?;
    Ok(
        RootAuditV1 {
            version: VersionV1,
            root_id,
            attempt_id,
            review_id: r.review_id.duplicate(),
            review_revision: r.revision,
            approval,
            scope_digest: r.scope_digest.duplicate(),
            principal: s.principal.duplicate(),
            requester: s.requester.duplicate(),
            executor: s.executor.duplicate(),
            environment: s.environment.environment.duplicate(),
            registration_revision: s.environment.registration_revision,
            binding_digest,
            profile_digest,
            qualification_id: s.qualification.qualification_id.duplicate(),
            qualification_digest,
            policy_digest: policy_digest.duplicate(),
            runtime_generation: String::from_str(runtime.generation_ref()),
            created_at: now,
            expires_at,
        },
    )
}

/// The single physical service of one Host runtime.
pub struct PhysicalControlServiceV1 {
    registry: PhysicalBindingRegistryV1,
    ledger: PhysicalLedgerV1,
    runtime: LocalRuntimeRef,
    issuer: TokenV1,
    open: bool,
    policy: Option<ExecutorPolicyV1>,
    live: Vec<RootId>,
    decisions: Vec<ApprovalId>,
}

impl PhysicalControlServiceV1 {
    pub closed spec fn spec_registry(&self) -> PhysicalBindingRegistryV1 {
        self.registry
    }

    pub closed spec fn spec_ledger(&self) -> PhysicalLedgerV1 {
        self.ledger
    }

    pub closed spec fn spec_runtime(&self) -> LocalRuntimeRef {
        self.runtime
    }

    pub closed spec fn spec_issuer(&self) -> Seq<char> {
        self.issuer@
    }

    pub closed spec fn spec_open(&self) -> bool {
        self.open
    }

    pub closed spec fn spec_policy(&self) -> Option<ExecutorPolicyV1> {
        self.policy
    }

    /// The roots this Core considers live.
    pub closed spec fn spec_live(&self) -> Seq<RootId> {
        self.live@
    }

    /// The approvals for which a start was decided.
    pub closed spec fn spec_decisions(&self) -> Seq<ApprovalId> {
        self.decisions@
    }

    pub open spec fn wf(&self) -> bool {
        self.spec_ledger().wf() && self.spec_registry().wf()
    }

    /// `i` was issued by this open Core for its current runtime.
    pub open spec fn ingress_ok(&self, i: LocalCoreIngressV1) -> bool {
        &&& self.spec_open()
        &&& i.spec_runtime().spec_host()@ == self.spec_runtime().spec_host()@
        &&& i.spec_runtime().spec_generation() == self.spec_runtime().spec_generation()
        &&& i.spec_issuer() == self.spec_issuer()
    }

    /// A valid scope for this executor on live binding `b`, whose
    /// qualification is exactly the current trusted one at `now`.
    pub open spec fn scope_current(&self, s: ReviewScopeFieldsV1, b: EnvironmentBindingV1, now: u64) -> bool {
        let es = self.spec_registry().spec_enrollments();
        let qs = self.spec_registry().spec_qualifications();
        let ds = self.spec_registry().spec_domains();
        let id = s.qualification.qualification_id@;
        &&& scope_valid(s)
        &&& s.requester@ == self.spec_runtime().spec_host()@
        &&& s.executor@ == self.spec_runtime().spec_host()@
        &&& binding_same(s.environment, b.spec_view())
        &&& qualification_current(es, ds, qs, b, s.profile, id, now)
        &&& qualification_same(qs[qual_index(qs, id)].qualification, s.qualification)
    }

    /// Everything but the ledger is as before.
    pub open spec fn same_but_ledger(&self, other: &PhysicalControlServiceV1) -> bool {
        &&& other.spec_registry() == self.spec_registry()
        &&& other.spec_runtime() == self.spec_runtime()
        &&& other.spec_issuer() == self.spec_issuer()
        &&& other.spec_open() == self.spec_open()
        &&& other.spec_policy() == self.spec_policy()
        &&& other.spec_live() == self.spec_live()
        &&& other.spec_decisions() == self.spec_decisions()
    }

    /// An open Core for `runtime`, with an empty ledger and registry and no policy.
    pub fn new(runtime: LocalRuntimeRef) -> (r: AppResult<PhysicalControlServiceV1>)
        ensures
            r matches Ok(c) ==> ({
                &&& c.wf()
                &&& c.spec_open()
                &&& c.spec_runtime() == runtime
                &&& c.spec_policy() is None
                &&& c.spec_live().len() == 0
                &&& c.spec_decisions().len() == 0
                &&& c.spec_ledger().spec_reviews().len() == 0
                &&& c.spec_ledger().spec_audits().len() == 0
                &&& c.spec_registry().spec_enrollments().len() == 0
                &&& c.spec_registry().spec_qualifications().len() == 0
            }),
    {
        let issuer = TokenV1::new(random_uuid_text())?;
        Ok(
            PhysicalControlServiceV1 {
                registry: PhysicalBindingRegistryV1::new(),
                ledger: PhysicalLedgerV1::new(),
                runtime,
                issuer,
                open: true,
                policy: None,
                live: Vec::new(),
                decisions: Vec::new(),
            },
        )
    }

    /// Reopens a Core for `runtime` over the records a previous Core kept:
    /// before anything is exposed, every attempt still open closes as
    /// interrupted. No record becomes a live root again, no policy or start
    /// decision carries over, and every consumed approval stays consumed.
    pub fn reopen(
        runtime: LocalRuntimeRef,
        registry: PhysicalBindingRegistryV1,
        ledger: PhysicalLedgerV1,
    ) -> (r: AppResult<PhysicalControlServiceV1>)
        requires
            registry.wf(),
            ledger.wf(),
        ensures
            r matches Ok(c) ==> ({
                &&& c.wf()
                &&& c.spec_open()
                &&& c.spec_runtime() == runtime
                &&& c.spec_policy() is None
                &&& c.spec_live().len() == 0
                &&& c.spec_decisions().len() == 0
                &&& c.spec_registry() == registry
                &&& ledger.evolves_to(&c.spec_ledger())
                &&& c.spec_ledger().spec_reviews() == ledger.spec_reviews()
                &&& c.spec_ledger().spec_audits() == ledger.spec_audits()
                &&& c.spec_ledger().spec_states() == closed_where(
                    ledger.spec_audits(),
                    ledger.spec_states(),
                    AttemptSelector::All,
                    CloseReasonV1::Interrupted,
                )
            }),
    {
        let issuer = TokenV1::new(random_uuid_text())?;
        let mut ledger = ledger;
        ledger.close_open_attempts(CloseReasonV1::Interrupted);
        Ok(
            PhysicalControlServiceV1 {
                registry,
                ledger,
                runtime,
                issuer,
                open: true,
                policy: None,
                live: Vec::new(),
                decisions: Vec::new(),
            },
        )
    }

    /// The records this Core keeps across a restart: its enrollment
    /// registry and its audit ledger.
    pub fn into_records(self) -> (r: (PhysicalBindingRegistryV1, PhysicalLedgerV1))
        requires
            self.wf(),
        ensures
            r.0 == self.spec_registry(),
            r.1 == self.spec_ledger(),
            r.0.wf(),
            r.1.wf(),
    {
        (self.registry, self.ledger)
    }

    /// An ingress proof for this open Core.
    pub fn local_ingress(&self) -> (r: AppResult<LocalCoreIngressV1>)
        ensures
            r is Ok <==> self.spec_open(),
            r matches Ok(i) ==> self.ingress_ok(i),
    {
        require(self.open, "Physical Core closed")?;
        Ok(LocalCoreIngressV1 { runtime: self.runtime.duplicate(), issuer: self.issuer.duplicate() })
    }

    fn validate_ingress(&self, proof: &LocalCoreIngressV1) -> (r: AppResult<()>)
        ensures
            r is Ok <==> self.ingress_ok(*proof),
    {
        proof.runtime.validate_current(&self.runtime)?;
        require(self.open && proof.issuer.same(&self.issuer), "Foreign/closed local Core ingress")
    }

    /// `Ok` exactly when `scope_current` holds.
    fn current_scope(&self, scope: &PhysicalReviewScopeV1, b: &EnvironmentBindingV1, now: u64) -> (r:
        AppResult<()>)
        requires
            self.wf(),
        ensures
            r is Ok <==> self.scope_current(scope.spec_fields(), *b, now),
    {
        let s = scope.fields();
        s.validate()?;
        let host = self.runtime.host_ref();
        require(
            s.requester.same(host) && s.executor.same(host) && s.environment.same(b.view()),
            "Local Host/environment/binding mismatch",
        )?;
        let q = self.registry.qualification(b, &s.profile, &s.qualification.qualification_id, now)?;
        require(q.same(&s.qualification), "Exact trusted qualification mismatch")
    }

    /// The trusted enrollment registry, for enrolling, resolving, qualifying,
    /// withdrawing and retiring.
    pub fn registry_mut(&mut self) -> (r: &mut PhysicalBindingRegistryV1)
        ensures
            *r == old(self).spec_registry(),
            final(self).spec_registry() == *final(r),
            final(self).spec_ledger().same_contents(&old(self).spec_ledger()),
            final(self).spec_runtime() == old(self).spec_runtime(),
            final(self).spec_issuer() == old(self).spec_issuer(),
            final(self).spec_open() == old(self).spec_open(),
            final(self).spec_policy() == old(self).spec_policy(),
            final(self).spec_live() == old(self).spec_live(),
            final(self).spec_decisions() == old(self).spec_decisions(),
    {
        &mut self.registry
    }

    /// The audit ledger.
    pub fn ledger(&self) -> (r: &PhysicalLedgerV1)
        ensures
            *r == self.spec_ledger(),
    {
        &self.ledger
    }

    /// The current runtime.
    pub fn runtime(&self) -> (r: &LocalRuntimeRef)
        ensures
            *r == self.spec_runtime(),
    {
        &self.runtime
    }

    /// Forgets every live root.
    fn invalidate_live(&mut self)
        ensures
            final(self).spec_live().len() == 0,
            final(self).same_but_live(old(self)),
    {
        self.live = Vec::new();
    }

    /// Everything but the live roots is as before.
    pub open spec fn same_but_live(&self, old: &PhysicalControlServiceV1) -> bool {
        &&& self.spec_registry() == old.spec_registry()
        &&& self.spec_ledger() == old.spec_ledger()
        &&& self.spec_runtime() == old.spec_runtime()
        &&& self.spec_issuer() == old.spec_issuer()
        &&& self.spec_open() == old.spec_open()
        &&& self.spec_policy() == old.spec_policy()
        &&& self.spec_decisions() == old.spec_decisions()
    }

    /// Installs the executor policy. A valid ingress first invalidates every
    /// live root, drops the old policy and closes every open attempt as
    /// revoked; the policy is then installed only for a current ceiling whose
    /// minimum enforcement the profile accepts and the qualification proves.
    pub fn configure_executor_policy(
        &mut self,
        ingress: &LocalCoreIngressV1,
        binding: &EnvironmentBindingV1,
        ceiling: PhysicalReviewScopeV1,
        minimum: SessionEnforcementClassV1,
        max_lifetime: PositiveMicros,
        now: UnixMillis,
    ) -> (res: AppResult<()>)
        requires
            old(self).wf(),
        ensures
            final(self).wf(),
            !old(self).ingress_ok(*ingress) ==> res is Err && *final(self) == *old(self),
            old(self).ingress_ok(*ingress) ==> ({
                let s = ceiling.spec_fields();
                &&& final(self).spec_live().len() == 0
                &&& final(self).spec_ledger().spec_reviews() == old(self).spec_ledger().spec_reviews()
                &&& final(self).spec_ledger().spec_audits() == old(self).spec_ledger().spec_audits()
                &&& final(self).spec_ledger().spec_states() == closed_where(
                    old(self).spec_ledger().spec_audits(),
                    old(self).spec_ledger().spec_states(),
                    AttemptSelector::All,
                    CloseReasonV1::Revoked,
                )
                &&& final(self).spec_registry() == old(self).spec_registry()
                &&& final(self).spec_runtime() == old(self).spec_runtime()
                &&& final(self).spec_issuer() == old(self).spec_issuer()
                &&& final(self).spec_open() == old(self).spec_open()
                &&& final(self).spec_decisions() == old(self).spec_decisions()
                &&& res is Ok <==> (old(self).scope_current(s, *binding, now.spec_get())
                    && enforcement_rank(minimum) >= enforcement_rank(s.profile.required_enforcement_class)
                    && enforcement_rank(s.qualification.required_enforcement_class) >= enforcement_rank(minimum))
                &&& res is Ok ==> (final(self).spec_policy() matches Some(p) && p.ceiling == ceiling
                    && p.minimum_enforcement == minimum && p.max_root_lifetime == max_lifetime
                    && p.digest@ == policy_fingerprint(s, minimum, max_lifetime.spec_get()))
                &&& res is Err ==> final(self).spec_policy() is None
            }),
    {
        self.validate_ingress(ingress)?;
        self.invalidate_live();
        self.policy = None;
        self.ledger.close_open_attempts(CloseReasonV1::Revoked);
        self.current_scope(&ceiling, binding, now.get())?;
        let s = ceiling.fields();
        require(
            minimum.meets(s.profile.required_enforcement_class)
                && s.qualification.required_enforcement_class.meets(minimum),
            "Policy enforcement lacks trusted qualification",
        )?;
        let digest = fingerprint(&ceiling, minimum, &max_lifetime);
        self.policy = Some(
            ExecutorPolicyV1 { ceiling, minimum_enforcement: minimum, max_root_lifetime: max_lifetime, digest },
        );
        Ok(())
    }

    /// Stores a new draft review of `scope` under `review_id`.
    pub fn draft_review_with_id(
        &mut self,
        ingress: &LocalCoreIngressV1,
        binding: &EnvironmentBindingV1,
        scope: PhysicalReviewScopeV1,
        now: UnixMillis,
        review_id: ReviewId,
    ) -> (res: AppResult<PhysicalReviewRecordV1>)
        requires
            old(self).wf(),
        ensures
            final(self).wf(),
            old(self).same_but_ledger(final(self)),
            old(self).spec_ledger().evolves_to(&final(self).spec_ledger()),
            final(self).spec_ledger().spec_audits() == old(self).spec_ledger().spec_audits(),
            final(self).spec_ledger().spec_states() == old(self).spec_ledger().spec_states(),
            res is Ok <==> (old(self).ingress_ok(*ingress) && old(self).scope_current(
                scope.spec_fields(),
                *binding,
                now.spec_get(),
            ) && forall|j: int|
                0 <= j < old(self).spec_ledger().spec_reviews().len() ==> (#[trigger] old(
                    self,
                ).spec_ledger().spec_reviews()[j]).review_id@ != review_id@),
            res matches Ok(r) ==> ({
                let n = final(self).spec_ledger().spec_reviews().last();
                &&& final(self).spec_ledger().spec_reviews() == old(self).spec_ledger().spec_reviews().push(n)
                &&& n.review_id == review_id
                &&& n.revision == 1
                &&& n.scope == scope
                &&& n.scope_digest@ == scope_digest(scope.spec_fields())
                &&& n.state == PhysicalReviewStateV1::Draft
                &&& n.approval is None
                &&& record_same(r, n)
            }),
            res is Err ==> final(self).spec_ledger().same_contents(&old(self).spec_ledger()),
    {
        self.validate_ingress(ingress)?;
        self.current_scope(&scope, binding, now.get())?;
        let digest = match scope.digest() {
            Ok(d) => d,
            Err(e) => {
                return Err(e);
            },
        };
        let r = PhysicalReviewRecordV1 {
            version: VersionV1,
            review_id,
            revision: 1,
            scope,
            scope_digest: digest,
            state: PhysicalReviewStateV1::Draft,
            approval: None,
        };
        let out = r.duplicate();
        self.ledger.create_review(r)?;
        Ok(out)
    }

    /// Stores a new draft review of `scope` under a fresh random identity:
    /// revision 1 of exactly `scope`, a draft without approval. It succeeds
    /// only when the ingress is this Core's and the scope is current; it
    /// does succeed then unless a stored review already has an identity of
    /// the fresh shape.
    pub fn draft_review(
        &mut self,
        ingress: &LocalCoreIngressV1,
        binding: &EnvironmentBindingV1,
        scope: PhysicalReviewScopeV1,
        now: UnixMillis,
    ) -> (res: AppResult<PhysicalReviewRecordV1>)
        requires
            old(self).wf(),
        ensures
            final(self).wf(),
            old(self).same_but_ledger(final(self)),
            old(self).spec_ledger().evolves_to(&final(self).spec_ledger()),
            final(self).spec_ledger().spec_audits() == old(self).spec_ledger().spec_audits(),
            final(self).spec_ledger().spec_states() == old(self).spec_ledger().spec_states(),
            res is Ok ==> old(self).ingress_ok(*ingress) && old(self).scope_current(
                scope.spec_fields(),
                *binding,
                now.spec_get(),
            ),
            (old(self).ingress_ok(*ingress) && old(self).scope_current(scope.spec_fields(), *binding, now.spec_get())
                && forall|j: int|
                0 <= j < old(self).spec_ledger().spec_reviews().len() ==> !fresh_shaped(
                    (#[trigger] old(self).spec_ledger().spec_reviews()[j]).review_id@,
                    "physical-review:v1:"@,
                )) ==> res is Ok,
            res matches Ok(r) ==> ({
                let n = final(self).spec_ledger().spec_reviews().last();
                &&& final(self).spec_ledger().spec_reviews() == old(self).spec_ledger().spec_reviews().push(n)
                &&& fresh_shaped(n.review_id@, "physical-review:v1:"@)
                &&& n.revision == 1
                &&& n.scope == scope
                &&& n.scope_digest@ == scope_digest(scope.spec_fields())
                &&& n.state == PhysicalReviewStateV1::Draft
                &&& n.approval is None
                &&& record_same(r, n)
            }),
            res is Err ==> final(self).spec_ledger().same_contents(&old(self).spec_ledger()),
    {
        proof {
            lemma_review_prefix();
        }
        let id = fresh_token("physical-review:v1:")?;
        self.draft_review_with_id(ingress, binding, scope, now, id)
    }

    /// Seals the current draft revision `rev` of review `id` as reviewed.
    pub fn seal_review(&mut self, ingress: &LocalCoreIngressV1, id: &ReviewId, rev: u64, digest: &DigestV1) -> (res:
        AppResult<PhysicalReviewRecordV1>)
        requires
            old(self).wf(),
        ensures
            final(self).wf(),
            old(self).same_but_ledger(final(self)),
            old(self).spec_ledger().evolves_to(&final(self).spec_ledger()),
            res is Ok <==> (old(self).ingress_ok(*ingress) && transition_ok(
                old(self).spec_ledger().spec_reviews(),
                id@,
                rev,
                digest@,
                PhysicalReviewStateV1::Reviewed,
                None,
            )),
            res is Err ==> final(self).spec_ledger().same_contents(&old(self).spec_ledger()),
            res is Ok ==> ({
                let i = review_index(old(self).spec_ledger().spec_reviews(), id@, rev);
                let o = old(self).spec_ledger().spec_reviews()[i];
                &&& final(self).spec_ledger().spec_reviews() == old(self).spec_ledger().spec_reviews().update(
                    i,
                    crate::physical::ledger::transitioned(o, PhysicalReviewStateV1::Reviewed, None),
                )
                &&& final(self).spec_ledger().spec_states() == old(self).spec_ledger().spec_states()
            }),
    {
        self.validate_ingress(ingress)?;
        self.ledger.transition_review(id, rev, digest, PhysicalReviewStateV1::Reviewed, None)
    }

    /// Ends the current revision `rev` of review `id` as rejected or expired;
    /// its open attempts close as superseded.
    pub fn finish_review(
        &mut self,
        ingress: &LocalCoreIngressV1,
        id: &ReviewId,
        rev: u64,
        digest: &DigestV1,
        state: PhysicalReviewStateV1,
    ) -> (res: AppResult<PhysicalReviewRecordV1>)
        requires
            old(self).wf(),
        ensures
            final(self).wf(),
            old(self).same_but_ledger(final(self)),
            old(self).spec_ledger().evolves_to(&final(self).spec_ledger()),
            res is Ok <==> (old(self).ingress_ok(*ingress) && is_terminal(state) && transition_ok(
                old(self).spec_ledger().spec_reviews(),
                id@,
                rev,
                digest@,
                state,
                None,
            )),
            res is Err ==> final(self).spec_ledger().same_contents(&old(self).spec_ledger()),
            res is Ok ==> final(self).spec_ledger().spec_states() == closed_where(
                old(self).spec_ledger().spec_audits(),
                old(self).spec_ledger().spec_states(),
                AttemptSelector::OfReview(id, rev),
                CloseReasonV1::Superseded,
            ),
    {
        self.validate_ingress(ingress)?;
        let terminal = match state {
            PhysicalReviewStateV1::Rejected | PhysicalReviewStateV1::Expired => true,
            _ => false,
        };
        require(terminal, "Invalid terminal review state")?;
        self.ledger.transition_review(id, rev, digest, state, None)
    }

    /// Supersedes the current revision `expected` of review `id` with a draft
    /// of `scope`, which must be current on `binding` at `now`. The old
    /// revision expires (unless already ended), keeping its scope and
    /// approval, its open attempts close as superseded, and it is no longer
    /// current, so it cannot be revised or approved again.
    pub fn revise_review(
        &mut self,
        ingress: &LocalCoreIngressV1,
        id: &ReviewId,
        expected: u64,
        binding: &EnvironmentBindingV1,
        scope: PhysicalReviewScopeV1,
        now: UnixMillis,
    ) -> (res: AppResult<PhysicalReviewRecordV1>)
        requires
            old(self).wf(),
        ensures
            final(self).wf(),
            old(self).same_but_ledger(final(self)),
            old(self).spec_ledger().evolves_to(&final(self).spec_ledger()),
            res is Ok <==> (old(self).ingress_ok(*ingress) && old(self).scope_current(
                scope.spec_fields(),
                *binding,
                now.spec_get(),
            ) && is_latest(old(self).spec_ledger().spec_reviews(), id@, expected) && expected
                < 0x7fff_ffff_ffff_ffff),
            res matches Ok(r) ==> ({
                let reviews = old(self).spec_ledger().spec_reviews();
                let i = review_index(reviews, id@, expected);
                let n = final(self).spec_ledger().spec_reviews().last();
                &&& final(self).spec_ledger().spec_reviews().len() == reviews.len() + 1
                &&& final(self).spec_ledger().spec_reviews().drop_last() == reviews.update(
                    i,
                    expired_unless_terminal(reviews[i]),
                )
                &&& !is_latest(final(self).spec_ledger().spec_reviews(), id@, expected)
                &&& final(self).spec_ledger().spec_audits() == old(self).spec_ledger().spec_audits()
                &&& n.review_id@ == id@
                &&& n.revision == expected + 1
                &&& n.scope == scope
                &&& n.scope_digest@ == scope_digest(scope.spec_fields())
                &&& n.state == PhysicalReviewStateV1::Draft
                &&& n.approval is None
                &&& record_same(r, n)
                &&& final(self).spec_ledger().spec_states() == closed_where(
                    old(self).spec_ledger().spec_audits(),
                    old(self).spec_ledger().spec_states(),
                    AttemptSelector::OfReview(id, expected),
                    CloseReasonV1::Superseded,
                )
            }),
            res is Err ==> final(self).spec_ledger().same_contents(&old(self).spec_ledger()),
    {
        self.validate_ingress(ingress)?;
        self.current_scope(&scope, binding, now.get())?;
        let res = self.ledger.revise_review(id, expected, scope);
        proof {
            if res is Ok {
                let rs = self.spec_ledger().spec_reviews();
                let k = rs.len() - 1;
                assert(rs[k] == rs.last());
                assert(rs[k].review_id@ == id@ && rs[k].revision > expected);
            }
        }
        res
    }

    /// The checks an approval of revision `rev` of review `id` must pass,
    /// whatever its identity: this Core's ingress, the current revision,
    /// reviewed and sealed with `digest`, approved by the scope's own
    /// principal, ending after `now` but not after the binding offer or the
    /// qualification.
    pub open spec fn approval_checks(
        &self,
        ingress: LocalCoreIngressV1,
        id: Seq<char>,
        rev: u64,
        digest: Seq<u8>,
        principal: Seq<char>,
        expires_at: u64,
        now: u64,
    ) -> bool {
        let reviews = self.spec_ledger().spec_reviews();
        let r = reviews[review_index(reviews, id, rev)];
        let s = r.scope.spec_fields();
        &&& self.ingress_ok(ingress)
        &&& is_latest(reviews, id, rev)
        &&& r.state == PhysicalReviewStateV1::Reviewed
        &&& r.scope_digest@ == digest
        &&& principal == s.principal@
        &&& now < expires_at
        &&& expires_at <= s.environment.offer_expiry.spec_get()
        &&& expires_at <= s.qualification.expires_at.spec_get()
    }

    /// Approves the current reviewed revision `rev` of review `id`, sealed
    /// with `digest`, for its own principal, with an approval `approval_id`
    /// that ends at `expires_at`, before the binding offer and the
    /// qualification end.
    pub fn approve_review_with_id(
        &mut self,
        ingress: &LocalCoreIngressV1,
        id: &ReviewId,
        rev: u64,
        digest: &DigestV1,
        principal: LabelV1,
        expires_at: UnixMillis,
        now: UnixMillis,
        approval_id: ApprovalId,
    ) -> (res: AppResult<ApprovalCorrelationV1>)
        requires
            old(self).wf(),
        ensures
            final(self).wf(),
            old(self).same_but_ledger(final(self)),
            old(self).spec_ledger().evolves_to(&final(self).spec_ledger()),
            res is Ok <==> ({
                let reviews = old(self).spec_ledger().spec_reviews();
                let r = reviews[review_index(reviews, id@, rev)];
                let s = r.scope.spec_fields();
                &&& old(self).ingress_ok(*ingress)
                &&& is_latest(reviews, id@, rev)
                &&& r.state == PhysicalReviewStateV1::Reviewed
                &&& r.scope_digest@ == digest@
                &&& principal@ == s.principal@
                &&& now.spec_get() < expires_at.spec_get()
                &&& expires_at.spec_get() <= s.environment.offer_expiry.spec_get()
                &&& expires_at.spec_get() <= s.qualification.expires_at.spec_get()
                &&& approval_fresh(reviews, approval_id@)
            }),
            res matches Ok(a) ==> ({
                let reviews = old(self).spec_ledger().spec_reviews();
                let i = review_index(reviews, id@, rev);
                let n = final(self).spec_ledger().spec_reviews()[i];
                &&& n.state == PhysicalReviewStateV1::Approved
                &&& carries_approval(n, approval_id@)
                &&& final(self).spec_ledger().spec_reviews() == reviews.update(i, n)
                &&& final(self).spec_ledger().spec_audits() == old(self).spec_ledger().spec_audits()
                &&& final(self).spec_ledger().spec_states() == old(self).spec_ledger().spec_states()
                &&& a.approval_id@ == approval_id@
                &&& a.review_id@ == id@
                &&& a.review_revision == rev
                &&& a.scope_digest@ == digest@
                &&& a.principal@ == principal@
                &&& a.approved_at.spec_get() == now.spec_get()
                &&& a.expires_at.spec_get() == expires_at.spec_get()
            }),
            res is Err ==> final(self).spec_ledger().same_contents(&old(self).spec_ledger()),
    {
        self.validate_ingress(ingress)?;
        let r = self.ledger.review(id, rev)?;
        proof {
            let reviews = self.ledger.spec_reviews();
            let w = choose|w: int| #[trigger] crate::physical::ledger::review_at(reviews, w, id@, rev) && reviews[w] == *r;
            crate::physical::ledger::lemma_review_index_unique(self.ledger, id@, rev, w);
        }
        let s = r.scope.fields();
        let reviewed = match r.state {
            PhysicalReviewStateV1::Reviewed => true,
            _ => false,
        };
        require(
            reviewed && r.scope_digest.same(digest) && principal.same(&s.principal) && now.get()
                < expires_at.get() && expires_at.get() <= s.environment.offer_expiry.get()
                && expires_at.get() <= s.qualification.expires_at.get(),
            "Invalid exact approval decision/expiry",
        )?;
        let a = ApprovalCorrelationV1 {
            approval_id,
            review_id: id.duplicate(),
            review_revision: rev,
            scope_digest: digest.duplicate(),
            principal,
            approved_at: now,
            expires_at,
        };
        let out = a.duplicate();
        self.ledger.transition_review(id, rev, digest, PhysicalReviewStateV1::Approved, Some(a))?;
        Ok(out)
    }

    /// Approves with a fresh random approval identity: on success the
    /// current reviewed revision `rev` of review `id`, sealed with `digest`,
    /// is now approved for its own principal and carries the returned
    /// approval, and nothing else changed. It succeeds only when the
    /// approval checks hold; it does succeed then unless a stored review
    /// already carries an approval identity of the fresh shape.
    pub fn approve_review(
        &mut self,
        ingress: &LocalCoreIngressV1,
        id: &ReviewId,
        rev: u64,
        digest: &DigestV1,
        principal: LabelV1,
        expires_at: UnixMillis,
        now: UnixMillis,
    ) -> (res: AppResult<ApprovalCorrelationV1>)
        requires
            old(self).wf(),
        ensures
            final(self).wf(),
            old(self).same_but_ledger(final(self)),
            old(self).spec_ledger().evolves_to(&final(self).spec_ledger()),
            res is Ok ==> old(self).approval_checks(*ingress, id@, rev, digest@, principal@, expires_at.spec_get(), now.spec_get()),
            (old(self).approval_checks(*ingress, id@, rev, digest@, principal@, expires_at.spec_get(), now.spec_get())
                && forall|j: int|
                0 <= j < old(self).spec_ledger().spec_reviews().len() ==> !((#[trigger] old(
                    self,
                ).spec_ledger().spec_reviews()[j]).approval matches Some(a) && fresh_shaped(
                    a.approval_id@,
                    "physical-approval:v1:"@,
                ))) ==> res is Ok,
            res matches Ok(a) ==> ({
                let reviews = old(self).spec_ledger().spec_reviews();
                let i = review_index(reviews, id@, rev);
                let n = final(self).spec_ledger().spec_reviews()[i];
                &&& n.state == PhysicalReviewStateV1::Approved
                &&& carries_approval(n, a.approval_id@)
                &&& final(self).spec_ledger().spec_reviews() == reviews.update(i, n)
                &&& final(self).spec_ledger().spec_audits() == old(self).spec_ledger().spec_audits()
                &&& final(self).spec_ledger().spec_states() == old(self).spec_ledger().spec_states()
                &&& fresh_shaped(a.approval_id@, "physical-approval:v1:"@)
                &&& a.review_id@ == id@
                &&& a.review_revision == rev
                &&& a.scope_digest@ == digest@
                &&& a.principal@ == principal@
                &&& a.approved_at.spec_get() == now.spec_get()
                &&& a.expires_at.spec_get() == expires_at.spec_get()
            }),
            res is Err ==> final(self).spec_ledger().same_contents(&old(self).spec_ledger()),
    {
        proof {
            lemma_approval_prefix();
        }
        let aid = fresh_token("physical-approval:v1:")?;
        self.approve_review_with_id(ingress, id, rev, digest, principal, expires_at, now, aid)
    }

    fn is_decided(&self, aid: &ApprovalId) -> (r: bool)
        ensures
            r == decided(self.spec_decisions(), aid@),
    {
        let mut j: usize = 0;
        while j < self.decisions.len()
            invariant
                j <= self.decisions@.len(),
                forall|k: int| 0 <= k < j ==> #[trigger] self.decisions@[k]@ != aid@,
            decreases self.decisions@.len() - j,
        {
            if self.decisions[j].same(aid) {
                return true;
            }
            j = j + 1;
        }
        false
    }

    /// Everything a start checks before it consumes the approval.
    pub open spec fn start_checks(
        &self,
        ingress: LocalCoreIngressV1,
        aid: Seq<char>,
        b: EnvironmentBindingV1,
        now: u64,
        ticks: u64,
    ) -> bool {
        let reviews = self.spec_ledger().spec_reviews();
        let r = reviews[approved_index(reviews, aid)];
        let a = r.approval.unwrap();
        let s = r.scope.spec_fields();
        let p = self.spec_policy().unwrap();
        let lifetime = p.max_root_lifetime.spec_get();
        let expiry = root_expiry(
            now,
            lifetime,
            a.expires_at.spec_get(),
            s.qualification.expires_at.spec_get(),
            s.environment.offer_expiry.spec_get(),
        );
        &&& self.ingress_ok(ingress)
        &&& !decided(self.spec_decisions(), aid)
        &&& exists|k: int| 0 <= k < reviews.len() && carries_approval(#[trigger] reviews[k], aid)
        &&& is_latest(reviews, r.review_id@, r.revision)
        &&& r.state == PhysicalReviewStateV1::Approved
        &&& self.scope_current(s, b, now)
        &&& self.spec_policy() is Some
        &&& semantic_same(p.ceiling.spec_fields(), s)
        &&& meet_fits(s, p.ceiling.spec_fields())
        &&& enforcement_rank(s.qualification.required_enforcement_class) >= enforcement_rank(
            p.minimum_enforcement,
        )
        &&& a.approved_at.spec_get() <= now
        &&& now < a.expires_at.spec_get()
        &&& now < expiry
        &&& (expiry - now) * 1000 <= u64::MAX
        &&& root_deadline(ticks, now, expiry, lifetime) <= u64::MAX
    }


    /// The audit, scope copy and monotonic deadline of a start that passes
    /// every check before consuming the approval.
    fn start_plan(
        &self,
        ingress: &LocalCoreIngressV1,
        aid: &ApprovalId,
        b: &EnvironmentBindingV1,
        now: UnixMillis,
        ticks: u64,
        root_id: RootId,
        attempt_id: AttemptId,
    ) -> (res: AppResult<(RootAuditV1, PhysicalReviewScopeV1, u64)>)
        requires
            self.wf(),
        ensures
            res is Ok <==> self.start_checks(*ingress, aid@, *b, now.spec_get(), ticks),
            res matches Ok(plan) ==> self.plan_matches(plan, aid@, now.spec_get(), ticks, root_id, attempt_id),
    {
        self.validate_ingress(ingress)?;
        require(!self.is_decided(aid), "Approval already used for a Core start decision")?;
        let r = self.ledger.review_for_approval(aid)?;
        let ghost w = choose|w: int| 0 <= w < self.ledger.spec_reviews().len() && self.ledger.spec_reviews()[w] == *r;
        proof {
            crate::physical::ledger::lemma_approved_index_unique(self.ledger, aid@, w);
        }
        let approved = match r.state {
            PhysicalReviewStateV1::Approved => true,
            _ => false,
        };
        require(approved, "Review is not approved")?;
        let a = match &r.approval {
            Some(a) => a,
            None => {
                return Err(AppError::InvalidInput("Missing approval"));
            },
        };
        self.current_scope(&r.scope, b, now.get())?;
        let p = match &self.policy {
            Some(p) => p,
            None => {
                return Err(AppError::InvalidInput("No trusted executor policy"));
            },
        };
        let narrowed = intersect(&r.scope, &p.ceiling)?;
        let s = r.scope.fields();
        require(
            s.qualification.required_enforcement_class.meets(p.minimum_enforcement),
            "Policy enforcement requirement not qualified",
        )?;
        require(
            now.get() >= a.approved_at.get() && now.get() < a.expires_at.get(),
            "Approval expired/not yet valid",
        )?;
        let (expires_at, deadline) = root_window(
            now.get(),
            p.max_root_lifetime.get(),
            a.expires_at.get(),
            s.qualification.expires_at.get(),
            s.environment.offer_expiry.get(),
            ticks,
        )?;
        validate_narrowing(&r.scope, &narrowed)?;
        let audit = build_audit(r, &p.digest, &self.runtime, now, expires_at, root_id, attempt_id)?;
        proof {
            assert(crate::physical::ledger::audit_lineage_ok(audit, *r));
            crate::physical::ledger::lemma_origination_of(self.ledger, audit, w, now.spec_get());
        }
        Ok((audit, r.scope.duplicate(), deadline))
    }

    /// `plan` is the start of the current review revision carrying approval
    /// `aid` under the current policy, with root `root_id` and attempt
    /// `attempt_id`; the ledger will originate it exactly when the approval is
    /// unused and the root and attempt are new.
    pub open spec fn plan_matches(
        &self,
        plan: (RootAuditV1, PhysicalReviewScopeV1, u64),
        aid: Seq<char>,
        now: u64,
        ticks: u64,
        root_id: RootId,
        attempt_id: AttemptId,
    ) -> bool {
        let audits = self.spec_ledger().spec_audits();
        &&& self.start_result(plan.0, plan.1.spec_fields(), plan.2, aid, now, ticks, root_id@, attempt_id@)
        &&& (origination_ok(self.spec_ledger().spec_reviews(), audits, plan.0, now) <==> (!consumed(
            audits,
            aid,
        ) && (forall|j: int| 0 <= j < audits.len() ==> #[trigger] audits[j].root_id@ != root_id@)
            && (forall|j: int|
            0 <= j < audits.len() ==> #[trigger] audits[j].attempt_id@ != attempt_id@)))
    }

    /// The audit, scope and deadline of a start of the current review
    /// revision carrying approval `aid` under the current policy, with root
    /// `root_id` and attempt `attempt_id`.
    pub open spec fn start_result(
        &self,
        audit: RootAuditV1,
        scope: ReviewScopeFieldsV1,
        deadline: u64,
        aid: Seq<char>,
        now: u64,
        ticks: u64,
        root_id: Seq<char>,
        attempt_id: Seq<char>,
    ) -> bool {
        let reviews = self.spec_ledger().spec_reviews();
        let r = reviews[approved_index(reviews, aid)];
        let p = self.spec_policy().unwrap();
        let lifetime = p.max_root_lifetime.spec_get();
        let a = r.approval.unwrap();
        let s = r.scope.spec_fields();
        let expiry = root_expiry(
            now,
            lifetime,
            a.expires_at.spec_get(),
            s.qualification.expires_at.spec_get(),
            s.environment.offer_expiry.spec_get(),
        );
        &&& audit.root_id@ == root_id
        &&& audit.attempt_id@ == attempt_id
        &&& audit.approval.approval_id@ == aid
        &&& approval_same(audit.approval, a)
        &&& audit.review_id@ == r.review_id@
        &&& audit.review_revision == r.revision
        &&& audit.scope_digest@ == r.scope_digest@
        &&& audit.policy_digest@ == p.digest@
        &&& audit.created_at.spec_get() == now
        &&& audit.expires_at.spec_get() == expiry
        &&& audit.runtime_generation@ == self.spec_runtime().spec_generation()
        &&& crate::physical::contracts::fields_same(scope, s)
        &&& deadline == root_deadline(ticks, now, expiry, lifetime)
    }

    /// Starts exact task authority for approval `aid` with root `root_id`
    /// and attempt `attempt_id`. Once every check before consumption passes,
    /// the start decision for `aid` is kept even if origination then fails.
    #[verifier::rlimit(80)]
    pub fn start_with_ids(
        &mut self,
        ingress: &LocalCoreIngressV1,
        aid: &ApprovalId,
        b: &EnvironmentBindingV1,
        now: UnixMillis,
        ticks: u64,
        root_id: RootId,
        attempt_id: AttemptId,
    ) -> (res: AppResult<PhysicalAuthorityRootV1>)
        requires
            old(self).wf(),
        ensures
            final(self).wf(),
            old(self).spec_ledger().evolves_to(&final(self).spec_ledger()),
            final(self).spec_registry() == old(self).spec_registry(),
            final(self).spec_runtime() == old(self).spec_runtime(),
            final(self).spec_issuer() == old(self).spec_issuer(),
            final(self).spec_open() == old(self).spec_open(),
            final(self).spec_policy() == old(self).spec_policy(),
            res is Ok <==> ({
                let audits = old(self).spec_ledger().spec_audits();
                &&& old(self).start_checks(*ingress, aid@, *b, now.spec_get(), ticks)
                &&& !consumed(audits, aid@)
                &&& forall|j: int| 0 <= j < audits.len() ==> #[trigger] audits[j].root_id@ != root_id@
                &&& forall|j: int|
                    0 <= j < audits.len() ==> #[trigger] audits[j].attempt_id@ != attempt_id@
            }),
            old(self).start_checks(*ingress, aid@, *b, now.spec_get(), ticks) ==> ({
                &&& final(self).spec_decisions().len() == old(self).spec_decisions().len() + 1
                &&& final(self).spec_decisions().drop_last() == old(self).spec_decisions()
                &&& final(self).spec_decisions().last()@ == aid@
            }),
            !old(self).start_checks(*ingress, aid@, *b, now.spec_get(), ticks)
                ==> final(self).spec_decisions() == old(self).spec_decisions(),
            res matches Ok(root) ==> ({
                &&& old(self).start_result(
                    root.spec_audit(),
                    root.spec_scope().spec_fields(),
                    root.spec_deadline(),
                    aid@,
                    now.spec_get(),
                    ticks,
                    root_id@,
                    attempt_id@,
                )
                &&& final(self).spec_ledger().spec_reviews() == old(self).spec_ledger().spec_reviews()
                &&& final(self).spec_ledger().spec_audits().len() == old(self).spec_ledger().spec_audits().len() + 1
                &&& final(self).spec_ledger().spec_audits().drop_last() == old(self).spec_ledger().spec_audits()
                &&& audit_same(final(self).spec_ledger().spec_audits().last(), root.spec_audit())
                &&& final(self).spec_ledger().spec_states() == old(self).spec_ledger().spec_states().push(
                    AttemptStateV1::Open,
                )
                &&& final(self).spec_live().len() == old(self).spec_live().len() + 1
                &&& final(self).spec_live().drop_last() == old(self).spec_live()
                &&& final(self).spec_live().last()@ == root_id@
                &&& final(self).ingress_ok(root.spec_ingress())
                &&& binding_same(root.spec_binding().spec_view(), b.spec_view())
                &&& root.spec_binding().spec_resolution() == b.spec_resolution()
            }),
            res is Err ==> final(self).spec_ledger().same_contents(&old(self).spec_ledger())
                && final(self).spec_live() == old(self).spec_live(),
    {
        let (audit, scope, deadline) = self.start_plan(ingress, aid, b, now, ticks, root_id, attempt_id)?;
        let ghost before = *self;
        self.decisions.push(aid.duplicate());
        let kept = audit.duplicate();
        proof {
            lemma_start_result_same(before, audit, kept, scope.spec_fields(), deadline, aid@, now.spec_get(), ticks);
        }
        self.ledger.originate_attempt(audit, now.get())?;
        self.live.push(kept.root_id.duplicate());
        let root = PhysicalAuthorityRootV1 {
            audit: kept,
            scope,
            binding: b.duplicate(),
            ingress: LocalCoreIngressV1 { runtime: self.runtime.duplicate(), issuer: self.issuer.duplicate() },
            deadline_ticks: deadline,
        };
        Ok(root)
    }

    /// Starts exact task authority for approval `aid`, with a fresh random
    /// root and attempt. On success the start decision for `aid` is
    /// recorded, the approval is consumed by a new open attempt whose audit
    /// is the root's, and the root is live; every later start with `aid`
    /// then fails. It succeeds only when the start checks hold and the
    /// approval is unused; it does succeed then unless a stored attempt
    /// already has a root or attempt identity of the fresh shape.
    #[verifier::rlimit(40)]
    pub fn start_exact_action(
        &mut self,
        ingress: &LocalCoreIngressV1,
        aid: &ApprovalId,
        b: &EnvironmentBindingV1,
        now: UnixMillis,
        ticks: u64,
    ) -> (res: AppResult<PhysicalAuthorityRootV1>)
        requires
            old(self).wf(),
        ensures
            final(self).wf(),
            old(self).spec_ledger().evolves_to(&final(self).spec_ledger()),
            final(self).spec_registry() == old(self).spec_registry(),
            final(self).spec_runtime() == old(self).spec_runtime(),
            final(self).spec_issuer() == old(self).spec_issuer(),
            final(self).spec_open() == old(self).spec_open(),
            final(self).spec_policy() == old(self).spec_policy(),
            res is Ok ==> old(self).start_checks(*ingress, aid@, *b, now.spec_get(), ticks)
                && !consumed(old(self).spec_ledger().spec_audits(), aid@),
            ({
                let audits = old(self).spec_ledger().spec_audits();
                &&& old(self).start_checks(*ingress, aid@, *b, now.spec_get(), ticks)
                &&& !consumed(audits, aid@)
                &&& forall|j: int|
                    0 <= j < audits.len() ==> !fresh_shaped((#[trigger] audits[j]).root_id@, "physical-root:v1:"@)
                &&& forall|j: int|
                    0 <= j < audits.len() ==> !fresh_shaped(audits[j].attempt_id@, "physical-attempt:v1:"@)
            }) ==> res is Ok,
            old(self).start_checks(*ingress, aid@, *b, now.spec_get(), ticks) ==> ({
                &&& final(self).spec_decisions().len() == old(self).spec_decisions().len() + 1
                &&& final(self).spec_decisions().drop_last() == old(self).spec_decisions()
                &&& final(self).spec_decisions().last()@ == aid@
            }),
            !old(self).start_checks(*ingress, aid@, *b, now.spec_get(), ticks)
                ==> final(self).spec_decisions() == old(self).spec_decisions(),
            res matches Ok(root) ==> ({
                &&& old(self).start_result(
                    root.spec_audit(),
                    root.spec_scope().spec_fields(),
                    root.spec_deadline(),
                    aid@,
                    now.spec_get(),
                    ticks,
                    root.spec_audit().root_id@,
                    root.spec_audit().attempt_id@,
                )
                &&& fresh_shaped(root.spec_audit().root_id@, "physical-root:v1:"@)
                &&& fresh_shaped(root.spec_audit().attempt_id@, "physical-attempt:v1:"@)
                &&& root.spec_audit().root_id@ != root.spec_audit().attempt_id@
                &&& final(self).spec_ledger().spec_reviews() == old(self).spec_ledger().spec_reviews()
                &&& final(self).spec_ledger().spec_audits().len() == old(self).spec_ledger().spec_audits().len() + 1
                &&& final(self).spec_ledger().spec_audits().drop_last() == old(self).spec_ledger().spec_audits()
                &&& audit_same(final(self).spec_ledger().spec_audits().last(), root.spec_audit())
                &&& final(self).spec_ledger().spec_states() == old(self).spec_ledger().spec_states().push(
                    AttemptStateV1::Open,
                )
                &&& consumed(final(self).spec_ledger().spec_audits(), aid@)
                &&& decided(final(self).spec_decisions(), aid@)
                &&& final(self).spec_live().len() == old(self).spec_live().len() + 1
                &&& final(self).spec_live().drop_last() == old(self).spec_live()
                &&& final(self).spec_live().last()@ == root.spec_audit().root_id@
                &&& live_has(final(self).spec_live(), root.spec_audit().root_id@)
                &&& root.spec_audit().approval.approval_id@ == aid@
                &&& final(self).ingress_ok(root.spec_ingress())
                &&& binding_same(root.spec_binding().spec_view(), b.spec_view())
                &&& root.spec_binding().spec_resolution() == b.spec_resolution()
            }),
            res is Err ==> final(self).spec_ledger().same_contents(&old(self).spec_ledger())
                && final(self).spec_live() == old(self).spec_live(),
    {
        proof {
            lemma_root_prefix();
            lemma_attempt_prefix();
        }
        let root_id = fresh_token("physical-root:v1:")?;
        let attempt_id = fresh_token("physical-attempt:v1:")?;
        let res = self.start_with_ids(ingress, aid, b, now, ticks, root_id, attempt_id);
        proof {
            if res is Ok {
                let audits = self.spec_ledger().spec_audits();
                let k = audits.len() - 1;
                assert(audits[k] == audits.last());
                assert(crate::physical::ledger::consumed_at(audits, k, aid@));
                let ds = self.spec_decisions();
                assert(ds[ds.len() - 1] == ds.last());
                let root = res->Ok_0;
                lemma_root_attempt_ids_differ(root.spec_audit().root_id@, root.spec_audit().attempt_id@);
            }
        }
        res
    }

    /// Forgets root `id`.
    fn forget_root(&mut self, id: &RootId)
        ensures
            forall|x: Seq<char>| live_has(final(self).spec_live(), x) <==> (live_has(old(self).spec_live(), x) && x != id@),
            final(self).same_but_live(old(self)),
    {
        let mut kept: Vec<RootId> = Vec::new();
        let mut i: usize = 0;
        while i < self.live.len()
            invariant
                i <= self.live@.len(),
                forall|x: Seq<char>| live_has(kept@, x) <==> (x != id@ && exists|j: int| 0 <= j < i && #[trigger] self.live@[j]@ == x),
            decreases self.live@.len() - i,
        {
            if !self.live[i].same(id) {
                let ghost before = kept@;
                kept.push(self.live[i].duplicate());
                proof {
                    assert forall|x: Seq<char>| live_has(kept@, x) <==> (x != id@ && exists|j: int| 0 <= j < i + 1 && #[trigger] self.live@[j]@ == x) by {
                        if live_has(kept@, x) {
                            let k = choose|k: int| 0 <= k < kept@.len() && #[trigger] kept@[k]@ == x;
                            if k < before.len() {
                                assert(live_has(before, x));
                            }
                        }
                        if x != id@ && exists|j: int| 0 <= j < i + 1 && #[trigger] self.live@[j]@ == x {
                            let j = choose|j: int| 0 <= j < i + 1 && #[trigger] self.live@[j]@ == x;
                            if j < i {
                                assert(live_has(before, x));
                                let k = choose|k: int| 0 <= k < before.len() && #[trigger] before[k]@ == x;
                                assert(kept@[k]@ == x);
                            } else {
                                assert(kept@[before.len() as int]@ == x);
                            }
                        }
                    }
                }
            } else {
                proof {
                    assert forall|x: Seq<char>| live_has(kept@, x) <==> (x != id@ && exists|j: int| 0 <= j < i + 1 && #[trigger] self.live@[j]@ == x) by {
                        if x != id@ && exists|j: int| 0 <= j < i + 1 && #[trigger] self.live@[j]@ == x {
                            let j = choose|j: int| 0 <= j < i + 1 && #[trigger] self.live@[j]@ == x;
                            assert(j < i);
                        }
                    }
                }
            }
            i = i + 1;
        }
        self.live = kept;
    }

    /// Whether root `id` is live.
    fn is_live(&self, id: &RootId) -> (r: bool)
        ensures
            r == live_has(self.spec_live(), id@),
    {
        let mut i: usize = 0;
        while i < self.live.len()
            invariant
                i <= self.live@.len(),
                forall|j: int| 0 <= j < i ==> #[trigger] self.live@[j]@ != id@,
            decreases self.live@.len() - i,
        {
            if self.live[i].same(id) {
                return true;
            }
            i = i + 1;
        }
        false
    }

    /// `root` is live task authority at `now` and `ticks`.
    pub open spec fn root_valid(&self, root: PhysicalAuthorityRootV1, now: u64, ticks: u64) -> bool {
        let a = root.spec_audit();
        &&& self.ingress_ok(root.spec_ingress())
        &&& live_has(self.spec_live(), a.root_id@)
        &&& ticks < root.spec_deadline()
        &&& now < a.expires_at.spec_get()
        &&& self.spec_policy() is Some
        &&& self.spec_policy().unwrap().digest@ == a.policy_digest@
        &&& self.scope_current(root.spec_scope().spec_fields(), root.spec_binding(), now)
        &&& attempt_current(
            self.spec_ledger().spec_reviews(),
            self.spec_ledger().spec_audits(),
            self.spec_ledger().spec_states(),
            a.root_id@,
            now,
        )
    }

    fn check_root(&self, root: &PhysicalAuthorityRootV1, now: UnixMillis, ticks: u64) -> (r: AppResult<()>)
        requires
            self.wf(),
        ensures
            r is Ok <==> self.root_valid(*root, now.spec_get(), ticks),
    {
        self.validate_ingress(&root.ingress)?;
        require(self.is_live(&root.audit.root_id), "Unknown/closed physical Root")?;
        require(
            ticks < root.deadline_ticks && now.get() < root.audit.expires_at.get(),
            "Root expired",
        )?;
        let p = match &self.policy {
            Some(p) => p,
            None => {
                return Err(AppError::InvalidInput("Executor policy missing"));
            },
        };
        require(p.digest.same(&root.audit.policy_digest), "Executor policy changed")?;
        self.current_scope(&root.scope, &root.binding, now.get())?;
        self.ledger.validate_attempt(&root.audit.root_id, now.get())
    }

    /// `Ok` exactly when `root` is live task authority at `now` and
    /// `ticks`; otherwise the root is forgotten and its attempt closes as
    /// dependency-invalidated, never to reopen.
    pub fn validate_root(&mut self, root: &PhysicalAuthorityRootV1, now: UnixMillis, ticks: u64) -> (r:
        AppResult<()>)
        requires
            old(self).wf(),
        ensures
            final(self).wf(),
            old(self).spec_ledger().evolves_to(&final(self).spec_ledger()),
            r is Ok <==> old(self).root_valid(*root, now.spec_get(), ticks),
            r is Ok ==> *final(self) == *old(self),
            r is Err ==> ({
                let id = root.spec_audit().root_id;
                &&& forall|x: Seq<char>|
                    live_has(final(self).spec_live(), x) <==> (live_has(old(self).spec_live(), x) && x != id@)
                &&& final(self).spec_ledger().spec_reviews() == old(self).spec_ledger().spec_reviews()
                &&& final(self).spec_ledger().spec_audits() == old(self).spec_ledger().spec_audits()
                &&& final(self).spec_ledger().spec_states() == closed_where(
                    old(self).spec_ledger().spec_audits(),
                    old(self).spec_ledger().spec_states(),
                    AttemptSelector::OfRoot(&id),
                    CloseReasonV1::DependencyInvalidated,
                )
                &&& final(self).spec_registry() == old(self).spec_registry()
                &&& final(self).spec_policy() == old(self).spec_policy()
                &&& final(self).spec_open() == old(self).spec_open()
                &&& final(self).spec_decisions() == old(self).spec_decisions()
            }),
    {
        let result = self.check_root(root, now, ticks);
        if result.is_err() {
            self.forget_root(&root.audit.root_id);
            self.ledger.close_attempt(&root.audit.root_id, CloseReasonV1::DependencyInvalidated);
        }
        result
    }

    /// Closes `root`: it is forgotten and its attempt closes as revoked.
    pub fn close_root(&mut self, root: &PhysicalAuthorityRootV1)
        requires
            old(self).wf(),
        ensures
            final(self).wf(),
            old(self).spec_ledger().evolves_to(&final(self).spec_ledger()),
            !live_has(final(self).spec_live(), root.spec_audit().root_id@),
            final(self).spec_ledger().spec_states() == closed_where(
                old(self).spec_ledger().spec_audits(),
                old(self).spec_ledger().spec_states(),
                AttemptSelector::OfRoot(&root.spec_audit().root_id),
                CloseReasonV1::Revoked,
            ),
            final(self).spec_ledger().spec_audits() == old(self).spec_ledger().spec_audits(),
            final(self).spec_ledger().spec_reviews() == old(self).spec_ledger().spec_reviews(),
            final(self).spec_policy() == old(self).spec_policy(),
            final(self).spec_decisions() == old(self).spec_decisions(),
    {
        self.forget_root(&root.audit.root_id);
        assert(!live_has(self.spec_live(), root.audit.root_id@));
        self.ledger.close_attempt(&root.audit.root_id, CloseReasonV1::Revoked);
    }

    /// Closes this Core: no ingress validates again, no root is live, and
    /// every open attempt closes for shutdown.
    pub fn close(&mut self)
        requires
            old(self).wf(),
        ensures
            final(self).wf(),
            !final(self).spec_open(),
            final(self).spec_live().len() == 0,
            old(self).spec_ledger().evolves_to(&final(self).spec_ledger()),
            final(self).spec_ledger().spec_states() == closed_where(
                old(self).spec_ledger().spec_audits(),
                old(self).spec_ledger().spec_states(),
                AttemptSelector::All,
                CloseReasonV1::Shutdown,
            ),
    {
        self.open = false;
        self.invalidate_live();
        self.ledger.close_open_attempts(CloseReasonV1::Shutdown);
    }

    /// A basis of `requested` at enforcement `minimum` may be sealed on
    /// `root`: the root's scope meets the executor ceiling, `requested`
    /// narrows both, and `minimum` is at least the policy's and the profile's
    /// and proven by the qualification.
    pub open spec fn basis_ok(
        &self,
        root: PhysicalAuthorityRootV1,
        requested: ReviewScopeFieldsV1,
        minimum: SessionEnforcementClassV1,
    ) -> bool {
        let s = root.spec_scope().spec_fields();
        let p = self.spec_policy().unwrap();
        let c = p.ceiling.spec_fields();
        &&& self.spec_policy() is Some
        &&& semantic_same(c, s)
        &&& scope_valid(s)
        &&& meet_fits(s, c)
        &&& narrows_both(s, c, requested)
        &&& enforcement_rank(minimum) >= enforcement_rank(p.minimum_enforcement)
        &&& enforcement_rank(minimum) >= enforcement_rank(s.profile.required_enforcement_class)
        &&& enforcement_rank(s.qualification.required_enforcement_class) >= enforcement_rank(minimum)
    }

    fn check_basis(
        &self,
        root: &PhysicalAuthorityRootV1,
        requested: &PhysicalReviewScopeV1,
        minimum: SessionEnforcementClassV1,
    ) -> (r: AppResult<()>)
        ensures
            r is Ok <==> self.basis_ok(*root, requested.spec_fields(), minimum),
    {
        let p = match &self.policy {
            Some(p) => p,
            None => {
                return Err(AppError::InvalidInput("Executor policy missing"));
            },
        };
        let ceiling = intersect(&root.scope, &p.ceiling)?;
        proof {
            lemma_meet_narrowing(
                ceiling.spec_fields(),
                root.scope.spec_fields(),
                p.ceiling.spec_fields(),
                requested.spec_fields(),
            );
        }
        validate_narrowing(&ceiling, requested)?;
        let s = root.scope.fields();
        require(
            minimum.meets(p.minimum_enforcement) && minimum.meets(s.profile.required_enforcement_class)
                && s.qualification.required_enforcement_class.meets(minimum),
            "Grant basis weakens/unproven enforcement",
        )
    }

    /// Seals a grant basis of `requested` on live `root`. A root that is not
    /// valid is forgotten and its attempt closed, as by `validate_root`.
    pub fn construct_grant_basis(
        &mut self,
        root: &PhysicalAuthorityRootV1,
        requested: PhysicalReviewScopeV1,
        minimum: SessionEnforcementClassV1,
        now: UnixMillis,
        ticks: u64,
    ) -> (res: AppResult<PhysicalGrantBasisV1>)
        requires
            old(self).wf(),
        ensures
            final(self).wf(),
            old(self).spec_ledger().evolves_to(&final(self).spec_ledger()),
            old(self).root_valid(*root, now.spec_get(), ticks) ==> *final(self) == *old(self),
            res is Ok <==> (old(self).root_valid(*root, now.spec_get(), ticks) && old(self).basis_ok(
                *root,
                requested.spec_fields(),
                minimum,
            )),
            res matches Ok(b) ==> ({
                &&& b.spec_root_id() == root.spec_audit().root_id@
                &&& b.spec_attempt_id() == root.spec_audit().attempt_id@
                &&& b.spec_reviewed_digest() == root.spec_audit().scope_digest@
                &&& b.spec_scope() == requested
                &&& b.spec_minimum() == minimum
            }),
    {
        self.validate_root(root, now, ticks)?;
        self.check_basis(root, &requested, minimum)?;
        Ok(
            PhysicalGrantBasisV1 {
                root_id: root.audit.root_id.duplicate(),
                attempt_id: root.audit.attempt_id.duplicate(),
                reviewed_digest: root.audit.scope_digest.duplicate(),
                narrowed_scope: requested,
                minimum_enforcement: minimum,
            },
        )
    }

    /// `Ok` exactly when `root` is valid and `basis` was sealed on it and
    /// still fits the current executor policy.
    pub fn validate_grant_basis(
        &mut self,
        root: &PhysicalAuthorityRootV1,
        basis: &PhysicalGrantBasisV1,
        now: UnixMillis,
        ticks: u64,
    ) -> (res: AppResult<()>)
        requires
            old(self).wf(),
        ensures
            final(self).wf(),
            old(self).spec_ledger().evolves_to(&final(self).spec_ledger()),
            old(self).root_valid(*root, now.spec_get(), ticks) ==> *final(self) == *old(self),
            res is Ok <==> ({
                &&& old(self).root_valid(*root, now.spec_get(), ticks)
                &&& basis.spec_root_id() == root.spec_audit().root_id@
                &&& basis.spec_attempt_id() == root.spec_audit().attempt_id@
                &&& basis.spec_reviewed_digest() == root.spec_audit().scope_digest@
                &&& old(self).basis_ok(*root, basis.spec_scope().spec_fields(), basis.spec_minimum())
            }),
    {
        self.validate_root(root, now, ticks)?;
        require(
            basis.root_id.same(&root.audit.root_id) && basis.attempt_id.same(&root.audit.attempt_id)
                && basis.reviewed_digest.same(&root.audit.scope_digest),
            "Foreign/closed grant basis",
        )?;
        self.check_basis(root, &basis.narrowed_scope, basis.minimum_enforcement)
    }
}

/// A start result holds of any audit equal by value to one it holds of.
proof fn lemma_start_result_same(
    c: PhysicalControlServiceV1,
    a1: RootAuditV1,
    a2: RootAuditV1,
    scope: ReviewScopeFieldsV1,
    deadline: u64,
    aid: Seq<char>,
    now: u64,
    ticks: u64,
)
    requires
        audit_same(a2, a1),
        c.start_result(a1, scope, deadline, aid, now, ticks, a1.root_id@, a1.attempt_id@),
    ensures
        c.start_result(a2, scope, deadline, aid, now, ticks, a1.root_id@, a1.attempt_id@),
{
}

/// After the executor policy is reconfigured (no root is live) no earlier
/// root validates.
pub proof fn lemma_reconfiguration_ends_every_root(
    c: PhysicalControlServiceV1,
    root: PhysicalAuthorityRootV1,
    now: u64,
    ticks: u64,
)
    requires
        c.spec_live().len() == 0,
    ensures
        !c.root_valid(root, now, ticks),
{
}

/// One approval, one start decision: once a start was decided for an
/// approval, no later start for it passes its checks.
pub proof fn lemma_one_start_per_approval(
    c: PhysicalControlServiceV1,
    ingress: LocalCoreIngressV1,
    aid: Seq<char>,
    b: EnvironmentBindingV1,
    now: u64,
    ticks: u64,
)
    requires
        decided(c.spec_decisions(), aid),
    ensures
        !c.start_checks(ingress, aid, b, now, ticks),
{
}

/// A root whose attempt was closed never validates again, whatever the
/// ledger operations that follow.
pub proof fn lemma_closed_root_never_revalidates(
    c1: PhysicalControlServiceV1,
    c2: PhysicalControlServiceV1,
    root: PhysicalAuthorityRootV1,
    k: int,
    now: u64,
    ticks: u64,
)
    requires
        c1.wf(),
        c2.wf(),
        c1.spec_ledger().evolves_to(&c2.spec_ledger()),
        0 <= k < c1.spec_ledger().spec_audits().len(),
        c1.spec_ledger().spec_audits()[k].root_id@ == root.spec_audit().root_id@,
        c1.spec_ledger().spec_states()[k] matches AttemptStateV1::Closed(_),
    ensures
        !c2.root_valid(root, now, ticks),
{
    let l2 = c2.spec_ledger();
    let id = root.spec_audit().root_id@;
    assert(l2.spec_audits()[k] == c1.spec_ledger().spec_audits()[k]);
    assert(l2.spec_states()[k] == c1.spec_ledger().spec_states()[k]);
    if crate::physical::ledger::attempt_current(l2.spec_reviews(), l2.spec_audits(), l2.spec_states(), id, now) {
        let j = crate::physical::ledger::root_index(l2.spec_audits(), id);
        assert(crate::physical::ledger::root_at(l2.spec_audits(), j, id));
        if j < k {
            assert(l2.spec_audits()[j].root_id@ != l2.spec_audits()[k].root_id@);
        } else if j > k {
            assert(l2.spec_audits()[k].root_id@ != l2.spec_audits()[j].root_id@);
        }
    }
}

/// A review revision, once approved, is never approved again: in this and
/// every later state of the service its approval checks fail.
pub proof fn lemma_approved_revision_never_reapproved(
    c1: PhysicalControlServiceV1,
    c2: PhysicalControlServiceV1,
    k: int,
    ingress: LocalCoreIngressV1,
    digest: Seq<u8>,
    principal: Seq<char>,
    expires_at: u64,
    now: u64,
)
    requires
        c1.wf(),
        c2.wf(),
        c1.spec_ledger().evolves_to(&c2.spec_ledger()),
        0 <= k < c1.spec_ledger().spec_reviews().len(),
        c1.spec_ledger().spec_reviews()[k].state == PhysicalReviewStateV1::Approved,
    ensures
        !c2.approval_checks(
            ingress,
            c1.spec_ledger().spec_reviews()[k].review_id@,
            c1.spec_ledger().spec_reviews()[k].revision,
            digest,
            principal,
            expires_at,
            now,
        ),
{
    let r1 = c1.spec_ledger().spec_reviews();
    let r2 = c2.spec_ledger().spec_reviews();
    let id = r1[k].review_id@;
    let rev = r1[k].revision;
    assert(r2[k].review_id@ == id && r2[k].revision == rev);
    assert(state_reachable(r1[k].state, r2[k].state));
    assert(review_at(r2, k, id, rev));
    let i = review_index(r2, id, rev);
    assert(review_at(r2, i, id, rev));
    if i < k {
        assert(!(r2[i].review_id@ == r2[k].review_id@ && r2[i].revision == r2[k].revision));
    } else if k < i {
        assert(!(r2[k].review_id@ == r2[i].review_id@ && r2[k].revision == r2[i].revision));
    }
}

/// Once a later revision of a review is stored, the earlier revision is dead
/// for good: in this and every later state of the service it is not the
/// current revision, so it can be neither approved nor revised again, and an
/// approval it carries starts nothing.
pub proof fn lemma_superseded_revision_stays_dead(
    c1: PhysicalControlServiceV1,
    c2: PhysicalControlServiceV1,
    k: int,
    id: Seq<char>,
    rev: u64,
    ingress: LocalCoreIngressV1,
    digest: Seq<u8>,
    principal: Seq<char>,
    expires_at: u64,
    now: u64,
    aid: Seq<char>,
    b: EnvironmentBindingV1,
    ticks: u64,
)
    requires
        c1.wf(),
        c2.wf(),
        c1.spec_ledger().evolves_to(&c2.spec_ledger()),
        0 <= k < c1.spec_ledger().spec_reviews().len(),
        c1.spec_ledger().spec_reviews()[k].review_id@ == id,
        c1.spec_ledger().spec_reviews()[k].revision > rev,
    ensures
        !is_latest(c2.spec_ledger().spec_reviews(), id, rev),
        !c2.approval_checks(ingress, id, rev, digest, principal, expires_at, now),
        (exists|j: int|
            #![trigger c2.spec_ledger().spec_reviews()[j]]
            review_at(c2.spec_ledger().spec_reviews(), j, id, rev) && carries_approval(
                c2.spec_ledger().spec_reviews()[j],
                aid,
            )) ==> !c2.start_checks(ingress, aid, b, now, ticks),
{
    let r2 = c2.spec_ledger().spec_reviews();
    assert(r2[k].review_id@ == id && r2[k].revision > rev);
    if exists|j: int|
        #![trigger r2[j]]
        review_at(r2, j, id, rev) && carries_approval(r2[j], aid) {
        let j = choose|j: int|
            #![trigger r2[j]]
            review_at(r2, j, id, rev) && carries_approval(r2[j], aid);
        let m = approved_index(r2, aid);
        assert(0 <= j < r2.len() && carries_approval(r2[j], aid));
        assert(0 <= m < r2.len() && carries_approval(r2[m], aid));
        if m < j {
            assert(!share_approval(r2[m], r2[j]));
        } else if j < m {
            assert(!share_approval(r2[j], r2[m]));
        }
        assert(m == j);
    }
}

} // verus!
