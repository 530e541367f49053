//! The live control lanes of a Core: reserved and installed body-control
//! sessions, the one action grant of each, its proposal challenge, the
//! freshest trusted observation, and the admitted live action with its
//! dispatch decision. Times are monotonic ticks (microseconds).
//!
//! Nothing here is restored from records: a lane lives only in this state,
//! and any failed check of a session closes every lane of its root.
use vstd::prelude::*;

use crate::error::{AppError, AppResult};
use crate::physical::binding::{option_token_same, SubsystemBindingViewV1};
use crate::physical::contracts::{
    intent_digest, intent_same, proposal_valid, PhysicalActionProposalV1, PhysicalIntentV1,
    PhysicalReviewScopeV1,
};
use crate::physical::control::RequestId;
use crate::physical::domains::DomainEpochV1;
use crate::values::{
    enforcement_rank, ActionId, AttemptId, ChallengeId, DigestV1, IncarnationId, ObservationId,
    RootId, SessionEnforcementClassV1, TokenV1,
};

verus! {

/// Identifies one body-control session.
pub type SessionId = TokenV1;

/// Identifies one action grant.
pub type GrantId = TokenV1;

/// A reserved (not yet active) or installed (active) session.
#[derive(Clone, Debug, PartialEq, Eq)]
pub struct LiveSessionV1 {
    pub session_id: SessionId,
    pub root_id: RootId,
    pub attempt_id: AttemptId,
    pub installation: RequestId,
    pub enforcement: SessionEnforcementClassV1,
    pub epochs: Vec<DomainEpochV1>,
    pub scope: PhysicalReviewScopeV1,
    pub subsystem: SubsystemBindingViewV1,
    pub deadline: u64,
    pub root_deadline: u64,
    pub active: bool,
    pub valid: bool,
}

/// The single action grant of an active session.
#[derive(Clone, Debug, PartialEq, Eq)]
pub struct LiveGrantV1 {
    pub grant_id: GrantId,
    pub session_id: SessionId,
    pub root_id: RootId,
    pub action_id: ActionId,
    pub sequence: u64,
    pub payload_digest: DigestV1,
    pub valid: bool,
}

/// The one proposal challenge issued for a grant.
#[derive(Clone, Debug, PartialEq, Eq)]
pub struct ProposalChallengeV1 {
    pub challenge_id: ChallengeId,
    pub grant_id: GrantId,
    pub observation_id: ObservationId,
    pub deadline: u64,
}

/// The freshest trusted observation of a session and until when it holds.
#[derive(Clone, Debug, PartialEq, Eq)]
pub struct ObservationValidityV1 {
    pub session_id: SessionId,
    pub observation_id: ObservationId,
    pub captured: u64,
    pub deadline: u64,
}

/// An admitted live action.
#[derive(Clone, Debug, PartialEq, Eq)]
pub struct LiveActionV1 {
    pub action_id: ActionId,
    pub session_id: SessionId,
    pub grant_id: GrantId,
    pub root_id: RootId,
    pub payload: PhysicalIntentV1,
    pub payload_digest: DigestV1,
    pub deadline: u64,
    pub continuing_deadline: u64,
    pub dispatch_decided: bool,
    pub apply_accepted: bool,
    pub valid: bool,
}

/// What an adapter reports after installing a session.
#[derive(Clone, Debug, PartialEq, Eq)]
pub struct InstallEvidenceV1 {
    pub session_id: SessionId,
    pub request: RequestId,
    pub epochs: Vec<DomainEpochV1>,
    pub class: SessionEnforcementClassV1,
}

/// A trusted observation of a session's subsystem, taken at a monotonic tick.
#[derive(Clone, Debug, PartialEq, Eq)]
pub struct TrustedControlObservationV1 {
    pub observation_id: ObservationId,
    pub session_id: SessionId,
    pub source: IncarnationId,
    pub body: IncarnationId,
    pub world: Option<IncarnationId>,
    pub captured_ticks: u64,
    pub gap_us: u64,
}

/// How a proposal was taken: newly admitted, or an exact repeat of the
/// action already admitted under its identity.
#[derive(Clone, Debug, PartialEq, Eq)]
pub enum AdmissionV1 {
    Admitted(ActionId),
    Duplicate(ActionId),
}

/// What an adapter reports after an apply or refresh of an action.
#[derive(Clone, Debug, PartialEq, Eq)]
pub struct LaneReplyV1 {
    pub session_id: SessionId,
    pub epochs: Vec<DomainEpochV1>,
    pub request: RequestId,
    pub action_id: ActionId,
    pub payload_digest: DigestV1,
    pub accepted: bool,
}

/// An adapter operation in flight on a session's lane.
#[derive(Clone, Debug, PartialEq, Eq)]
pub struct LaneOperationV1 {
    pub session_id: SessionId,
    pub request: RequestId,
}

pub open spec fn session_at(ss: Seq<LiveSessionV1>, i: int, id: Seq<char>) -> bool {
    0 <= i < ss.len() && ss[i].session_id@ == id
}

pub open spec fn has_session(ss: Seq<LiveSessionV1>, id: Seq<char>) -> bool {
    exists|i: int| #[trigger] session_at(ss, i, id)
}

pub open spec fn session_index(ss: Seq<LiveSessionV1>, id: Seq<char>) -> int {
    choose|i: int| session_at(ss, i, id)
}

pub open spec fn grant_at(gs: Seq<LiveGrantV1>, i: int, session: Seq<char>) -> bool {
    0 <= i < gs.len() && gs[i].session_id@ == session
}

pub open spec fn has_grant(gs: Seq<LiveGrantV1>, session: Seq<char>) -> bool {
    exists|i: int| #[trigger] grant_at(gs, i, session)
}

pub open spec fn grant_index(gs: Seq<LiveGrantV1>, session: Seq<char>) -> int {
    choose|i: int| grant_at(gs, i, session)
}

pub open spec fn grant_id_at(gs: Seq<LiveGrantV1>, i: int, id: Seq<char>) -> bool {
    0 <= i < gs.len() && gs[i].grant_id@ == id
}

pub open spec fn challenge_at(cs: Seq<ProposalChallengeV1>, i: int, grant: Seq<char>) -> bool {
    0 <= i < cs.len() && cs[i].grant_id@ == grant
}

pub open spec fn has_challenge(cs: Seq<ProposalChallengeV1>, grant: Seq<char>) -> bool {
    exists|i: int| #[trigger] challenge_at(cs, i, grant)
}

pub open spec fn challenge_index(cs: Seq<ProposalChallengeV1>, grant: Seq<char>) -> int {
    choose|i: int| challenge_at(cs, i, grant)
}

pub open spec fn observation_at(os: Seq<ObservationValidityV1>, i: int, session: Seq<char>) -> bool {
    0 <= i < os.len() && os[i].session_id@ == session
}

pub open spec fn has_observation(os: Seq<ObservationValidityV1>, session: Seq<char>) -> bool {
    exists|i: int| #[trigger] observation_at(os, i, session)
}

pub open spec fn observation_index(os: Seq<ObservationValidityV1>, session: Seq<char>) -> int {
    choose|i: int| observation_at(os, i, session)
}

pub open spec fn action_at(xs: Seq<LiveActionV1>, i: int, id: Seq<char>) -> bool {
    0 <= i < xs.len() && xs[i].action_id@ == id
}

pub open spec fn has_action(xs: Seq<LiveActionV1>, id: Seq<char>) -> bool {
    exists|i: int| #[trigger] action_at(xs, i, id)
}

pub open spec fn action_index(xs: Seq<LiveActionV1>, id: Seq<char>) -> int {
    choose|i: int| action_at(xs, i, id)
}

pub open spec fn session_action_at(xs: Seq<LiveActionV1>, i: int, session: Seq<char>) -> bool {
    0 <= i < xs.len() && xs[i].session_id@ == session
}

pub open spec fn operation_at(ps: Seq<LaneOperationV1>, i: int, session: Seq<char>) -> bool {
    0 <= i < ps.len() && ps[i].session_id@ == session
}

pub open spec fn has_operation(ps: Seq<LaneOperationV1>, session: Seq<char>) -> bool {
    exists|i: int| #[trigger] operation_at(ps, i, session)
}

pub open spec fn observation_seen(seen: Seq<ObservationId>, id: Seq<char>) -> bool {
    exists|i: int| 0 <= i < seen.len() && (#[trigger] seen[i])@ == id
}

/// The session `s` may act in phase `active` at `ticks`.
pub open spec fn session_usable(s: LiveSessionV1, active: bool, ticks: u64) -> bool {
    s.valid && s.active == active && ticks < s.deadline
}

/// Why session `s` may not act in phase `active` at `ticks`, if it may not.
pub open spec fn session_error(s: LiveSessionV1, active: bool, ticks: u64) -> Option<&'static str> {
    if s.active != active {
        Some("No private proof of session phase")
    } else if !s.valid {
        Some("Unknown/closed session")
    } else if ticks >= s.deadline {
        Some("Session lease expired")
    } else {
        None
    }
}

pub open spec fn operation_index(ps: Seq<LaneOperationV1>, session: Seq<char>) -> int {
    choose|i: int| operation_at(ps, i, session)
}

/// `ps` without the operation of `session`, if it has one.
pub open spec fn without_operation(ps: Seq<LaneOperationV1>, session: Seq<char>) -> Seq<LaneOperationV1> {
    if has_operation(ps, session) {
        ps.remove(operation_index(ps, session))
    } else {
        ps
    }
}

pub open spec fn epochs_same(a: Seq<DomainEpochV1>, b: Seq<DomainEpochV1>) -> bool {
    &&& a.len() == b.len()
    &&& forall|i: int| 0 <= i < a.len() ==> (#[trigger] a[i]).domain@ == b[i].domain@ && a[i].epoch == b[i].epoch
}

/// Installation evidence for exactly session `s`: its request, its fenced
/// epochs, and an enforcement class at least as strong as it requires.
pub open spec fn evidence_matches(s: LiveSessionV1, e: InstallEvidenceV1) -> bool {
    &&& e.session_id@ == s.session_id@
    &&& e.request@ == s.installation@
    &&& epochs_same(e.epochs@, s.epochs@)
    &&& enforcement_rank(e.class) >= enforcement_rank(s.enforcement)
}

pub open spec fn closed_sessions(ss: Seq<LiveSessionV1>, root: Seq<char>) -> Seq<LiveSessionV1> {
    Seq::new(
        ss.len(),
        |i: int| if ss[i].root_id@ == root { LiveSessionV1 { valid: false, ..ss[i] } } else { ss[i] },
    )
}

pub open spec fn closed_grants(gs: Seq<LiveGrantV1>, root: Seq<char>) -> Seq<LiveGrantV1> {
    Seq::new(
        gs.len(),
        |i: int| if gs[i].root_id@ == root { LiveGrantV1 { valid: false, ..gs[i] } } else { gs[i] },
    )
}

pub open spec fn closed_actions(xs: Seq<LiveActionV1>, root: Seq<char>) -> Seq<LiveActionV1> {
    Seq::new(
        xs.len(),
        |i: int| if xs[i].root_id@ == root { LiveActionV1 { valid: false, ..xs[i] } } else { xs[i] },
    )
}

/// The lease of a session reserved at `ticks`: `lease_us` from now, cut at
/// the root's own deadline; `None` when the sum overflows.
pub open spec fn lease_deadline(ticks: u64, lease_us: u64, root_deadline: u64) -> Option<u64> {
    if ticks + lease_us > u64::MAX {
        None
    } else if ticks + lease_us <= root_deadline {
        Some((ticks + lease_us) as u64)
    } else {
        Some(root_deadline)
    }
}

/// The enforcement a session must be installed with: a native fence when
/// either the grant basis or the qualification asks for one.
pub open spec fn session_enforcement(
    basis_minimum: SessionEnforcementClassV1,
    qualification_required: SessionEnforcementClassV1,
) -> SessionEnforcementClassV1 {
    if basis_minimum == SessionEnforcementClassV1::NativeFence || qualification_required
        == SessionEnforcementClassV1::NativeFence {
        SessionEnforcementClassV1::NativeFence
    } else {
        SessionEnforcementClassV1::AdapterIsolationOnly
    }
}

/// The greatest epoch of `ds` (0 when empty).
pub open spec fn max_epoch(ds: Seq<DomainEpochV1>) -> nat
    decreases ds.len(),
{
    if ds.len() == 0 {
        0
    } else {
        let m = max_epoch(ds.drop_last());
        if ds.last().epoch > m {
            ds.last().epoch as nat
        } else {
            m
        }
    }
}

/// The conflict-domain epochs a session fences: every domain of the
/// snapshot moved to one past the greatest epoch among them.
pub open spec fn fenced_epochs(ds: Seq<DomainEpochV1>, fenced: Seq<DomainEpochV1>) -> bool {
    &&& fenced.len() == ds.len()
    &&& forall|i: int| 0 <= i < ds.len() ==> (#[trigger] fenced[i]).domain@ == ds[i].domain@ && fenced[i].epoch
        == max_epoch(ds) + 1
}

/// Why installation evidence `e` cannot activate session `s` at `ticks`.
pub open spec fn install_error(s: LiveSessionV1, e: Option<InstallEvidenceV1>, ticks: u64) -> Option<&'static str> {
    match session_error(s, false, ticks) {
        Some(m) => Some(m),
        None => match e {
            None => Some("Installation evidence unavailable"),
            Some(e) => if !evidence_matches(s, e) {
                Some("Installation evidence mismatch")
            } else {
                None
            },
        },
    }
}

/// The observation comes from exactly the session's trusted controller,
/// body and world incarnations, and was not taken in the future.
pub open spec fn source_matches(s: LiveSessionV1, f: TrustedControlObservationV1, ticks: u64) -> bool {
    &&& f.session_id@ == s.session_id@
    &&& f.source@ == s.subsystem.controller_incarnation@
    &&& f.body@ == s.subsystem.body_incarnation@
    &&& option_token_same(f.world, s.subsystem.world_incarnation)
    &&& f.captured_ticks <= ticks
}

/// Until when observation `f` keeps session `s` fresh: its maximum age,
/// cut at the session's lease; `None` when the sum overflows.
pub open spec fn observation_deadline(s: LiveSessionV1, f: TrustedControlObservationV1) -> Option<u64> {
    let age = s.scope.spec_fields().freshness.observation.max_age_us.spec_get();
    if f.captured_ticks + age > u64::MAX {
        None
    } else if f.captured_ticks + age <= s.deadline {
        Some((f.captured_ticks + age) as u64)
    } else {
        Some(s.deadline)
    }
}

/// Why observation `f` cannot be recorded for active session `s` at
/// `ticks`, given its previous observation `prev`, its live action `action`
/// and every observation identity seen before.
pub open spec fn observation_error(
    s: LiveSessionV1,
    prev: Option<ObservationValidityV1>,
    action: Option<LiveActionV1>,
    seen: Seq<ObservationId>,
    f: TrustedControlObservationV1,
    ticks: u64,
) -> Option<&'static str> {
    let gap = s.scope.spec_fields().freshness.observation.max_gap_us.spec_get();
    if !source_matches(s, f, ticks) {
        Some("Observation source/session mismatch")
    } else if observation_seen(seen, f.observation_id@) {
        Some("Observation identity replay")
    } else {
        match observation_deadline(s, f) {
            None => Some("Control deadline overflow"),
            Some(d) => if !(ticks < d && f.gap_us < gap) {
                Some("Observation stale or gapped")
            } else if prev matches Some(p) && !(p.observation_id@ != f.observation_id@ && f.captured_ticks
                >= p.captured && f.captured_ticks - p.captured < gap) {
                Some("Observation replay/order/gap")
            } else if action matches Some(a) && !(a.valid && ticks < a.deadline && ticks
                < a.continuing_deadline) {
                Some("Observation cannot revive expired action")
            } else {
                None
            },
        }
    }
}

pub open spec fn session_action_index(xs: Seq<LiveActionV1>, session: Seq<char>) -> int {
    choose|i: int| session_action_at(xs, i, session)
}

pub open spec fn has_session_action(xs: Seq<LiveActionV1>, session: Seq<char>) -> bool {
    exists|i: int| #[trigger] session_action_at(xs, i, session)
}

/// The previous observation of `session`, if any.
pub open spec fn previous_observation(os: Seq<ObservationValidityV1>, session: Seq<char>) -> Option<
    ObservationValidityV1,
> {
    if has_observation(os, session) {
        Some(os[observation_index(os, session)])
    } else {
        None
    }
}

/// The live action of `session`, if any.
pub open spec fn session_action(xs: Seq<LiveActionV1>, session: Seq<char>) -> Option<LiveActionV1> {
    if has_session_action(xs, session) {
        Some(xs[session_action_index(xs, session)])
    } else {
        None
    }
}

/// Until when a proposal challenge issued at `ticks` holds: the proposal
/// window, cut at the session's lease; `None` when the sum overflows.
pub open spec fn challenge_deadline(s: LiveSessionV1, ticks: u64) -> Option<u64> {
    let w = s.scope.spec_fields().freshness.proposal.0.spec_get();
    if ticks + w > u64::MAX {
        None
    } else if ticks + w <= s.deadline {
        Some((ticks + w) as u64)
    } else {
        Some(s.deadline)
    }
}

/// Why no challenge can be issued for the grant `g` of a usable session
/// `s` at `ticks`, given the challenges issued so far and the session's
/// latest observation `o`.
pub open spec fn challenge_error(
    s: LiveSessionV1,
    g: LiveGrantV1,
    cs: Seq<ProposalChallengeV1>,
    o: Option<ObservationValidityV1>,
    ticks: u64,
) -> Option<&'static str> {
    if !g.valid {
        Some("Unknown/closed grant")
    } else if has_challenge(cs, g.grant_id@) {
        Some("Challenge cannot be renewed")
    } else {
        match o {
            None => Some("No trusted control observation"),
            Some(o) => if ticks >= o.deadline {
                Some("Observation expired")
            } else if challenge_deadline(s, ticks) is None {
                Some("Control deadline overflow")
            } else {
                None
            },
        }
    }
}

/// The proposal fits the session's reviewed scope: valid, the exact
/// reviewed intent, and no longer than the reviewed action duration.
pub open spec fn proposal_fits(p: PhysicalActionProposalV1, scope: PhysicalReviewScopeV1) -> bool {
    &&& proposal_valid(p)
    &&& intent_same(p.payload, scope.spec_fields().intent)
    &&& p.requested_duration_us.spec_get() <= scope.spec_fields().execution.action_duration_us.spec_get()
}

/// The proposal names exactly the grant's attempt, action, decision
/// sequence and payload digest.
pub open spec fn proposal_identity(s: LiveSessionV1, g: LiveGrantV1, p: PhysicalActionProposalV1) -> bool {
    &&& p.attempt_id@ == s.attempt_id@
    &&& p.action_id@ == g.action_id@
    &&& p.decision_sequence == g.sequence
    &&& p.payload_digest@ == g.payload_digest@
}

/// The proposal repeats exactly the action `x` already admitted for grant `g`.
pub open spec fn same_admission(x: LiveActionV1, g: LiveGrantV1, p: PhysicalActionProposalV1) -> bool {
    &&& x.grant_id@ == g.grant_id@
    &&& x.session_id@ == g.session_id@
    &&& intent_same(x.payload, p.payload)
    &&& x.payload_digest@ == p.payload_digest@
}

/// The proposal names exactly one observation, `id`.
pub open spec fn names_only(p: PhysicalActionProposalV1, id: Seq<char>) -> bool {
    p.observations@.len() == 1 && p.observations@[0]@ == id
}

/// Why a fresh proposal `p` cannot be admitted for grant `g` of usable
/// session `s` at wall time `now` and tick `ticks`, given the grant's
/// challenge `c` and the session's observation `o`.
pub open spec fn admission_error(
    s: LiveSessionV1,
    g: LiveGrantV1,
    c: Option<ProposalChallengeV1>,
    o: Option<ObservationValidityV1>,
    p: PhysicalActionProposalV1,
    now: u64,
    ticks: u64,
) -> Option<&'static str> {
    let dur = p.requested_duration_us.spec_get();
    if !g.valid {
        Some("Unknown/closed grant")
    } else {
        match c {
            None => Some("No post-activation challenge"),
            Some(c) => if !(c.challenge_id@ == p.challenge_id@ && names_only(p, c.observation_id@) && ticks
                < c.deadline) {
                Some("Wrong/expired challenge")
            } else {
                match o {
                    None => Some("No observation"),
                    Some(o) => if !(names_only(p, o.observation_id@) && ticks < o.deadline) {
                        Some("Observation challenge mismatch/expiry")
                    } else if ticks + dur > u64::MAX {
                        Some("Control deadline overflow")
                    } else if !(ticks + dur <= s.deadline && ticks + dur <= s.root_deadline) {
                        Some("Insufficient authority lifetime")
                    } else if now + dur / 1000 > u64::MAX {
                        Some("Action expiry overflow")
                    } else if dur / 1000 == 0 {
                        Some("Action duration below audit precision")
                    } else {
                        None
                    },
                }
            },
        }
    }
}

pub open spec fn grant_challenge(cs: Seq<ProposalChallengeV1>, grant: Seq<char>) -> Option<ProposalChallengeV1> {
    if has_challenge(cs, grant) {
        Some(cs[challenge_index(cs, grant)])
    } else {
        None
    }
}

/// Why live action `x` may not act at `ticks`, given the grants: its
/// grant must be open, and it must be valid, unexpired and still
/// continued by a fresh observation.
pub open spec fn action_error(gs: Seq<LiveGrantV1>, x: LiveActionV1, ticks: u64) -> Option<&'static str> {
    if !(has_grant(gs, x.session_id@) && gs[grant_index(gs, x.session_id@)].valid) {
        Some("Unknown/closed grant")
    } else if !(x.valid && ticks < x.deadline && ticks < x.continuing_deadline) {
        Some("Action/observation validity expired")
    } else {
        None
    }
}

/// The reply is exactly for operation `request` on action `x` of session
/// `s`: same session, fenced epochs, request, action and payload digest.
pub open spec fn reply_matches(s: LiveSessionV1, x: LiveActionV1, request: Seq<char>, e: LaneReplyV1) -> bool {
    &&& e.session_id@ == s.session_id@
    &&& epochs_same(e.epochs@, s.epochs@)
    &&& e.request@ == request
    &&& e.action_id@ == x.action_id@
    &&& e.payload_digest@ == x.payload_digest@
}

/// The operations without `session`'s one when that one is `request`.
pub open spec fn without_request(ps: Seq<LaneOperationV1>, session: Seq<char>, request: Seq<char>) -> Seq<
    LaneOperationV1,
> {
    if has_operation(ps, session) && ps[operation_index(ps, session)].request@ == request {
        ps.remove(operation_index(ps, session))
    } else {
        ps
    }
}

/// The wall-clock expiry (milliseconds) recorded for a lease running from
/// `ticks` to `deadline`, read at `now`; `None` when it overflows.
pub open spec fn lease_expiry(now: u64, ticks: u64, deadline: u64) -> Option<u64> {
    if now + (deadline - ticks) / 1000 > u64::MAX {
        None
    } else {
        Some((now + (deadline - ticks) / 1000) as u64)
    }
}

/// Why a session cannot be reserved at `now`/`ticks`, if it cannot.
pub open spec fn reserve_error(
    ss: Seq<LiveSessionV1>,
    session_id: Seq<char>,
    lease_us: u64,
    root_deadline: u64,
    now: u64,
    ticks: u64,
) -> Option<&'static str> {
    match lease_deadline(ticks, lease_us, root_deadline) {
        None => Some("Control deadline overflow"),
        Some(d) => if d <= ticks {
            Some("No session lease remaining")
        } else {
            match lease_expiry(now, ticks, d) {
                None => Some("Lease expiry overflow"),
                Some(e) => if now >= e {
                    Some("No audit lease remaining")
                } else if has_session(ss, session_id) {
                    Some("Session identity is not unique")
                } else {
                    None
                },
            }
        },
    }
}

/// The enforcement class a session must be installed with.
pub fn required_enforcement(
    basis_minimum: SessionEnforcementClassV1,
    qualification_required: SessionEnforcementClassV1,
) -> (r: SessionEnforcementClassV1)
    ensures
        r == session_enforcement(basis_minimum, qualification_required),
{
    match (basis_minimum, qualification_required) {
        (SessionEnforcementClassV1::NativeFence, _) => SessionEnforcementClassV1::NativeFence,
        (_, SessionEnforcementClassV1::NativeFence) => SessionEnforcementClassV1::NativeFence,
        _ => SessionEnforcementClassV1::AdapterIsolationOnly,
    }
}

proof fn lemma_max_epoch_step(ds: Seq<DomainEpochV1>, i: int)
    requires
        0 <= i < ds.len(),
    ensures
        max_epoch(ds.take(i + 1)) == if ds[i].epoch > max_epoch(ds.take(i)) {
            ds[i].epoch as nat
        } else {
            max_epoch(ds.take(i))
        },
{
    assert(ds.take(i + 1).drop_last() =~= ds.take(i));
}

/// The epochs a new session fences: each domain of `snapshot` at one past
/// the greatest epoch among them. Refused when that epoch would overflow.
pub fn fence_epochs(snapshot: &Vec<DomainEpochV1>) -> (r: AppResult<Vec<DomainEpochV1>>)
    ensures
        r is Ok <==> max_epoch(snapshot@) < u64::MAX,
        r matches Ok(v) ==> fenced_epochs(snapshot@, v@),
        r is Err ==> r == Err::<Vec<DomainEpochV1>, AppError>(AppError::InvalidInput("Epoch overflow")),
{
    let mut m: u64 = 0;
    let mut i: usize = 0;
    while i < snapshot.len()
        invariant
            i <= snapshot@.len(),
            m == max_epoch(snapshot@.take(i as int)),
        decreases snapshot@.len() - i,
    {
        proof {
            lemma_max_epoch_step(snapshot@, i as int);
        }
        if snapshot[i].epoch > m {
            m = snapshot[i].epoch;
        }
        i = i + 1;
    }
    assert(snapshot@.take(snapshot@.len() as int) =~= snapshot@);
    if m == u64::MAX {
        return Err(AppError::InvalidInput("Epoch overflow"));
    }
    let next = m + 1;
    let mut out: Vec<DomainEpochV1> = Vec::new();
    let mut j: usize = 0;
    while j < snapshot.len()
        invariant
            j <= snapshot@.len(),
            next == max_epoch(snapshot@) + 1,
            out@.len() == j,
            forall|k: int| 0 <= k < j ==> (#[trigger] out@[k]).domain@ == snapshot@[k].domain@ && out@[k].epoch == next,
        decreases snapshot@.len() - j,
    {
        out.push(DomainEpochV1 { domain: snapshot[j].domain.duplicate(), epoch: next });
        j = j + 1;
    }
    Ok(out)
}

pub open spec fn sessions_unique(ss: Seq<LiveSessionV1>) -> bool {
    forall|i: int, j: int| 0 <= i < j < ss.len() ==> #[trigger] ss[i].session_id@ != #[trigger] ss[j].session_id@
}

pub open spec fn grants_unique(gs: Seq<LiveGrantV1>) -> bool {
    &&& forall|i: int, j: int| 0 <= i < j < gs.len() ==> #[trigger] gs[i].session_id@ != #[trigger] gs[j].session_id@
    &&& forall|i: int, j: int| 0 <= i < j < gs.len() ==> #[trigger] gs[i].grant_id@ != #[trigger] gs[j].grant_id@
}

pub open spec fn challenges_unique(cs: Seq<ProposalChallengeV1>) -> bool {
    forall|i: int, j: int| 0 <= i < j < cs.len() ==> #[trigger] cs[i].grant_id@ != #[trigger] cs[j].grant_id@
}

pub open spec fn observations_unique(os: Seq<ObservationValidityV1>) -> bool {
    forall|i: int, j: int| 0 <= i < j < os.len() ==> #[trigger] os[i].session_id@ != #[trigger] os[j].session_id@
}

pub open spec fn actions_unique(xs: Seq<LiveActionV1>) -> bool {
    &&& forall|i: int, j: int| 0 <= i < j < xs.len() ==> #[trigger] xs[i].action_id@ != #[trigger] xs[j].action_id@
    &&& forall|i: int, j: int| 0 <= i < j < xs.len() ==> #[trigger] xs[i].session_id@ != #[trigger] xs[j].session_id@
}

pub open spec fn operations_unique(ps: Seq<LaneOperationV1>) -> bool {
    forall|i: int, j: int| 0 <= i < j < ps.len() ==> #[trigger] ps[i].session_id@ != #[trigger] ps[j].session_id@
}

/// Whether two epoch lists name the same domains at the same epochs, in order.
pub fn same_epochs(a: &Vec<DomainEpochV1>, b: &Vec<DomainEpochV1>) -> (r: bool)
    ensures
        r == epochs_same(a@, b@),
{
    if a.len() != b.len() {
        return false;
    }
    let mut i: usize = 0;
    while i < a.len()
        invariant
            a@.len() == b@.len(),
            i <= a@.len(),
            forall|k: int| 0 <= k < i ==> (#[trigger] a@[k]).domain@ == b@[k].domain@ && a@[k].epoch == b@[k].epoch,
        decreases a@.len() - i,
    {
        if !(a[i].domain.same(&b[i].domain) && a[i].epoch == b[i].epoch) {
            return false;
        }
        i = i + 1;
    }
    true
}

/// Whether two optional incarnations are both absent or the same.
pub fn same_incarnation(a: &Option<IncarnationId>, b: &Option<IncarnationId>) -> (r: bool)
    ensures
        r == option_token_same(*a, *b),
{
    match (a, b) {
        (None, None) => true,
        (Some(x), Some(y)) => x.same(y),
        _ => false,
    }
}

/// A session keeps its identity, root and lease; once closed it stays
/// closed, and once active it stays active.
pub open spec fn session_evolves(a: LiveSessionV1, b: LiveSessionV1) -> bool {
    &&& a.session_id@ == b.session_id@
    &&& a.root_id@ == b.root_id@
    &&& a.deadline == b.deadline
    &&& !a.valid ==> !b.valid
    &&& a.active ==> b.active
}

/// A grant keeps its identity, session and action; once closed it stays closed.
pub open spec fn grant_evolves(a: LiveGrantV1, b: LiveGrantV1) -> bool {
    &&& a.grant_id@ == b.grant_id@
    &&& a.session_id@ == b.session_id@
    &&& a.action_id@ == b.action_id@
    &&& a.sequence == b.sequence
    &&& !a.valid ==> !b.valid
}

/// An action keeps its identity, session, payload and deadline; once
/// closed it stays closed, and a dispatch decision or an accepted apply is
/// never taken back.
pub open spec fn action_evolves(a: LiveActionV1, b: LiveActionV1) -> bool {
    &&& a.action_id@ == b.action_id@
    &&& a.session_id@ == b.session_id@
    &&& a.grant_id@ == b.grant_id@
    &&& a.payload == b.payload
    &&& a.payload_digest@ == b.payload_digest@
    &&& a.deadline == b.deadline
    &&& !a.valid ==> !b.valid
    &&& a.dispatch_decided ==> b.dispatch_decided
    &&& a.apply_accepted ==> b.apply_accepted
}

/// The live control lanes of one Core.
pub struct ControlSessionsV1 {
    sessions: Vec<LiveSessionV1>,
    grants: Vec<LiveGrantV1>,
    challenges: Vec<ProposalChallengeV1>,
    observations: Vec<ObservationValidityV1>,
    seen: Vec<ObservationId>,
    actions: Vec<LiveActionV1>,
    operations: Vec<LaneOperationV1>,
}

impl ControlSessionsV1 {
    pub closed spec fn spec_sessions(&self) -> Seq<LiveSessionV1> {
        self.sessions@
    }

    pub closed spec fn spec_grants(&self) -> Seq<LiveGrantV1> {
        self.grants@
    }

    pub closed spec fn spec_challenges(&self) -> Seq<ProposalChallengeV1> {
        self.challenges@
    }

    pub closed spec fn spec_observations(&self) -> Seq<ObservationValidityV1> {
        self.observations@
    }

    pub closed spec fn spec_seen(&self) -> Seq<ObservationId> {
        self.seen@
    }

    pub closed spec fn spec_actions(&self) -> Seq<LiveActionV1> {
        self.actions@
    }

    pub closed spec fn spec_operations(&self) -> Seq<LaneOperationV1> {
        self.operations@
    }

    /// Each session, grant (by session and by identity), challenge (by
    /// grant), observation (by session), action (by identity and by
    /// session) and lane operation (by session) is unique.
    pub open spec fn wf(&self) -> bool {
        &&& sessions_unique(self.spec_sessions())
        &&& grants_unique(self.spec_grants())
        &&& challenges_unique(self.spec_challenges())
        &&& observations_unique(self.spec_observations())
        &&& actions_unique(self.spec_actions())
        &&& operations_unique(self.spec_operations())
    }

    /// Every earlier session, grant and action moved forward only; issued
    /// challenges and seen observation identities are kept as they were.
    pub open spec fn evolves_to(&self, other: &ControlSessionsV1) -> bool {
        let (sa, sb) = (self.spec_sessions(), other.spec_sessions());
        let (ga, gb) = (self.spec_grants(), other.spec_grants());
        let (xa, xb) = (self.spec_actions(), other.spec_actions());
        &&& sa.len() <= sb.len()
        &&& ga.len() <= gb.len()
        &&& xa.len() <= xb.len()
        &&& forall|i: int| 0 <= i < sa.len() ==> session_evolves(#[trigger] sa[i], sb[i])
        &&& forall|i: int| 0 <= i < ga.len() ==> grant_evolves(#[trigger] ga[i], gb[i])
        &&& forall|i: int| 0 <= i < xa.len() ==> action_evolves(#[trigger] xa[i], xb[i])
        &&& self.spec_challenges().len() <= other.spec_challenges().len()
        &&& forall|i: int| 0 <= i < self.spec_challenges().len() ==> #[trigger] other.spec_challenges()[i] == self.spec_challenges()[i]
        &&& self.spec_seen().len() <= other.spec_seen().len()
        &&& forall|i: int| 0 <= i < self.spec_seen().len() ==> #[trigger] other.spec_seen()[i] == self.spec_seen()[i]
    }

    /// `after` is this state with every session, grant and action of `root`
    /// closed, and nothing else changed.
    pub open spec fn closes_root(&self, after: &ControlSessionsV1, root: Seq<char>) -> bool {
        &&& after.spec_sessions() == closed_sessions(self.spec_sessions(), root)
        &&& after.spec_grants() == closed_grants(self.spec_grants(), root)
        &&& after.spec_actions() == closed_actions(self.spec_actions(), root)
        &&& after.spec_challenges() == self.spec_challenges()
        &&& after.spec_observations() == self.spec_observations()
        &&& after.spec_seen() == self.spec_seen()
        &&& after.spec_operations() == self.spec_operations()
    }

    /// `after` is this state with every lane of `root` closed and the lane
    /// operations `ps`.
    pub open spec fn closes_root_with(&self, after: &ControlSessionsV1, root: Seq<char>, ps: Seq<LaneOperationV1>) -> bool {
        &&& after.spec_sessions() == closed_sessions(self.spec_sessions(), root)
        &&& after.spec_grants() == closed_grants(self.spec_grants(), root)
        &&& after.spec_actions() == closed_actions(self.spec_actions(), root)
        &&& after.spec_challenges() == self.spec_challenges()
        &&& after.spec_observations() == self.spec_observations()
        &&& after.spec_seen() == self.spec_seen()
        &&& after.spec_operations() == ps
    }

    /// Only the actions and lane operations changed, to `xs` and `ps`.
    pub open spec fn only_actions(&self, after: &ControlSessionsV1, xs: Seq<LiveActionV1>, ps: Seq<LaneOperationV1>) -> bool {
        &&& after.spec_sessions() == self.spec_sessions()
        &&& after.spec_grants() == self.spec_grants()
        &&& after.spec_actions() == xs
        &&& after.spec_challenges() == self.spec_challenges()
        &&& after.spec_observations() == self.spec_observations()
        &&& after.spec_seen() == self.spec_seen()
        &&& after.spec_operations() == ps
    }

    /// Only the sessions changed, to `ss`.
    pub open spec fn only_sessions(&self, after: &ControlSessionsV1, ss: Seq<LiveSessionV1>) -> bool {
        &&& after.spec_sessions() == ss
        &&& after.spec_grants() == self.spec_grants()
        &&& after.spec_actions() == self.spec_actions()
        &&& after.spec_challenges() == self.spec_challenges()
        &&& after.spec_observations() == self.spec_observations()
        &&& after.spec_seen() == self.spec_seen()
        &&& after.spec_operations() == self.spec_operations()
    }

    /// No lane at all.
    pub fn new() -> (r: ControlSessionsV1)
        ensures
            r.wf(),
            r.spec_sessions().len() == 0,
            r.spec_grants().len() == 0,
            r.spec_challenges().len() == 0,
            r.spec_observations().len() == 0,
            r.spec_seen().len() == 0,
            r.spec_actions().len() == 0,
            r.spec_operations().len() == 0,
    {
        ControlSessionsV1 {
            sessions: Vec::new(),
            grants: Vec::new(),
            challenges: Vec::new(),
            observations: Vec::new(),
            seen: Vec::new(),
            actions: Vec::new(),
            operations: Vec::new(),
        }
    }

    fn find_session(&self, id: &SessionId) -> (r: Option<usize>)
        requires
            self.wf(),
        ensures
            r matches Some(i) ==> session_at(self.sessions@, i as int, id@) && i == session_index(self.sessions@, id@),
            r is None ==> !has_session(self.sessions@, id@),
    {
        let mut i: usize = 0;
        while i < self.sessions.len()
            invariant
                self.wf(),
                i <= self.sessions@.len(),
                forall|k: int| 0 <= k < i ==> !#[trigger] session_at(self.sessions@, k, id@),
            decreases self.sessions@.len() - i,
        {
            if self.sessions[i].session_id.same(id) {
                proof {
                    let c = session_index(self.sessions@, id@);
                    assert(session_at(self.sessions@, i as int, id@));
                    if c < i {
                        assert(self.spec_sessions()[c].session_id@ != self.spec_sessions()[i as int].session_id@);
                    } else if c > i {
                        assert(self.spec_sessions()[i as int].session_id@ != self.spec_sessions()[c].session_id@);
                    }
                }
                return Some(i);
            }
            i = i + 1;
        }
        None
    }

    fn find_operation(&self, session: &SessionId) -> (r: Option<usize>)
        requires
            self.wf(),
        ensures
            r matches Some(i) ==> operation_at(self.operations@, i as int, session@) && i == operation_index(
                self.operations@,
                session@,
            ),
            r is None ==> !has_operation(self.operations@, session@),
    {
        let mut i: usize = 0;
        while i < self.operations.len()
            invariant
                self.wf(),
                i <= self.operations@.len(),
                forall|k: int| 0 <= k < i ==> !#[trigger] operation_at(self.operations@, k, session@),
            decreases self.operations@.len() - i,
        {
            if self.operations[i].session_id.same(session) {
                proof {
                    let c = operation_index(self.operations@, session@);
                    assert(operation_at(self.operations@, i as int, session@));
                    if c < i {
                        assert(self.spec_operations()[c].session_id@ != self.spec_operations()[i as int].session_id@);
                    } else if c > i {
                        assert(self.spec_operations()[i as int].session_id@ != self.spec_operations()[c].session_id@);
                    }
                }
                return Some(i);
            }
            i = i + 1;
        }
        None
    }

    /// Checks session `i` for phase `active` at `ticks`; a failed check
    /// closes every lane of the session's root.
    fn check_session(&mut self, i: usize, active: bool, ticks: u64) -> (r: AppResult<()>)
        requires
            old(self).wf(),
            i < old(self).spec_sessions().len(),
        ensures
            old(self).evolves_to(&*final(self)),
            final(self).wf(),
            match session_error(old(self).spec_sessions()[i as int], active, ticks) {
                Some(m) => r == Err::<(), AppError>(AppError::InvalidInput(m)) && old(self).closes_root(
                    &*final(self),
                    old(self).spec_sessions()[i as int].root_id@,
                ),
                None => r is Ok && old(self).only_sessions(&*final(self), old(self).spec_sessions()),
            },
    {
        broadcast use lemma_closing_evolves, lemma_closing_with_evolves, lemma_sessions_evolve, lemma_actions_evolve;

        let s = &self.sessions[i];
        let error = if s.active != active {
            Some("No private proof of session phase")
        } else if !s.valid {
            Some("Unknown/closed session")
        } else if ticks >= s.deadline {
            Some("Session lease expired")
        } else {
            None
        };
        match error {
            Some(m) => {
                let root = s.root_id.duplicate();
                self.close_root(&root);
                Err(AppError::InvalidInput(m))
            },
            None => Ok(()),
        }
    }

    /// Reserves session `session_id` of root `root_id` (attempt
    /// `attempt_id`) at wall time `now` and tick `ticks`: a lease of
    /// `lease_us` cut at the root's deadline, which must leave time, also at
    /// wall-clock precision; installation request `installation`; the
    /// enforcement and fenced epochs it must be installed with; the grant
    /// basis scope it acts under and the subsystem whose observations it
    /// trusts. The session starts reserved, not active. Returns the lease's
    /// wall-clock expiry.
    pub fn reserve(
        &mut self,
        session_id: SessionId,
        root_id: RootId,
        attempt_id: AttemptId,
        installation: RequestId,
        enforcement: SessionEnforcementClassV1,
        epochs: Vec<DomainEpochV1>,
        scope: PhysicalReviewScopeV1,
        subsystem: SubsystemBindingViewV1,
        lease_us: u64,
        root_deadline: u64,
        now: u64,
        ticks: u64,
    ) -> (r: AppResult<u64>)
        requires
            old(self).wf(),
        ensures
            old(self).evolves_to(&*final(self)),
            final(self).wf(),
            match reserve_error(old(self).spec_sessions(), session_id@, lease_us, root_deadline, now, ticks) {
                Some(m) => r == Err::<u64, AppError>(AppError::InvalidInput(m)) && old(self).only_sessions(
                    &*final(self),
                    old(self).spec_sessions(),
                ),
                None => {
                    let d = lease_deadline(ticks, lease_us, root_deadline).unwrap();
                    &&& r == Ok::<u64, AppError>(lease_expiry(now, ticks, d).unwrap())
                    &&& old(self).only_sessions(
                        &*final(self),
                        old(self).spec_sessions().push(
                            LiveSessionV1 {
                                session_id,
                                root_id,
                                attempt_id,
                                installation,
                                enforcement,
                                epochs,
                                scope,
                                subsystem,
                                deadline: d,
                                root_deadline,
                                active: false,
                                valid: true,
                            },
                        ),
                    )
                },
            },
    {
        broadcast use lemma_closing_evolves, lemma_closing_with_evolves, lemma_sessions_evolve, lemma_actions_evolve;

        if lease_us > u64::MAX - ticks {
            return Err(AppError::InvalidInput("Control deadline overflow"));
        }
        let sum = ticks + lease_us;
        let deadline = if sum <= root_deadline { sum } else { root_deadline };
        if deadline <= ticks {
            return Err(AppError::InvalidInput("No session lease remaining"));
        }
        let span = (deadline - ticks) / 1000;
        if span > u64::MAX - now {
            return Err(AppError::InvalidInput("Lease expiry overflow"));
        }
        let expiry = now + span;
        if now >= expiry {
            return Err(AppError::InvalidInput("No audit lease remaining"));
        }
        if self.find_session(&session_id).is_some() {
            return Err(AppError::InvalidInput("Session identity is not unique"));
        }
        let ghost ss0 = self.sessions@;
        proof {
            assert(ss0 == old(self).spec_sessions());
        }
        self.sessions.push(
            LiveSessionV1 {
                session_id,
                root_id,
                attempt_id,
                installation,
                enforcement,
                epochs,
                scope,
                subsystem,
                deadline,
                root_deadline,
                active: false,
                valid: true,
            },
        );
        proof {
            let ss = self.sessions@;
            assert forall|a: int, b: int| 0 <= a < b < ss.len() implies #[trigger] ss[a].session_id@ != #[trigger] ss[b].session_id@ by {
                if b == ss0.len() {
                    assert(!session_at(ss0, a, ss[b].session_id@));
                } else {
                    assert(ss0[a].session_id@ != ss0[b].session_id@);
                }
            }
        }
        Ok(expiry)
    }

    /// Begins installing reserved session `session` at `ticks`: the lane
    /// must be free; its installation request is then in flight and is
    /// returned for the adapter.
    pub fn begin_install(&mut self, session: &SessionId, ticks: u64) -> (r: AppResult<RequestId>)
        requires
            old(self).wf(),
        ensures
            old(self).evolves_to(&*final(self)),
            final(self).wf(),
            ({
                let ss = old(self).spec_sessions();
                let i = session_index(ss, session@);
                if !has_session(ss, session@) {
                    r == Err::<RequestId, AppError>(AppError::InvalidInput("Unknown/closed session"))
                        && old(self).only_sessions(&*final(self), ss)
                } else {
                    match session_error(ss[i], false, ticks) {
                        Some(m) => r == Err::<RequestId, AppError>(AppError::InvalidInput(m)) && old(self).closes_root(
                            &*final(self),
                            ss[i].root_id@,
                        ),
                        None => if has_operation(old(self).spec_operations(), session@) {
                            r == Err::<RequestId, AppError>(
                                AppError::InvalidInput("Session operation already in flight"),
                            ) && old(self).only_sessions(&*final(self), ss)
                        } else {
                            &&& r matches Ok(q) && q@ == ss[i].installation@
                            &&& final(self).spec_sessions() == ss
                            &&& final(self).spec_grants() == old(self).spec_grants()
                            &&& final(self).spec_actions() == old(self).spec_actions()
                            &&& final(self).spec_challenges() == old(self).spec_challenges()
                            &&& final(self).spec_observations() == old(self).spec_observations()
                            &&& final(self).spec_seen() == old(self).spec_seen()
                            &&& final(self).spec_operations().len() == old(self).spec_operations().len() + 1
                            &&& final(self).spec_operations().drop_last() == old(self).spec_operations()
                            &&& final(self).spec_operations().last().session_id@ == session@
                            &&& final(self).spec_operations().last().request@ == ss[i].installation@
                        },
                    }
                }
            }),
    {
        broadcast use lemma_closing_evolves, lemma_closing_with_evolves, lemma_sessions_evolve, lemma_actions_evolve;

        let i = match self.find_session(session) {
            Some(i) => i,
            None => {
                return Err(AppError::InvalidInput("Unknown/closed session"));
            },
        };
        self.check_session(i, false, ticks)?;
        if self.find_operation(session).is_some() {
            return Err(AppError::InvalidInput("Session operation already in flight"));
        }
        let request = self.sessions[i].installation.duplicate();
        let ghost ps0 = self.operations@;
        self.operations.push(LaneOperationV1 { session_id: session.duplicate(), request: request.duplicate() });
        proof {
            let ps = self.operations@;
            assert(ps.drop_last() =~= ps0);
            assert forall|a: int, b: int| 0 <= a < b < ps.len() implies #[trigger] ps[a].session_id@ != #[trigger] ps[b].session_id@ by {
                if b == ps0.len() {
                    assert(!operation_at(ps0, a, session@));
                } else {
                    assert(ps0[a].session_id@ != ps0[b].session_id@);
                }
            }
        }
        Ok(request)
    }

    /// Removes the operation in flight on `session`'s lane, if any.
    fn end_operation(&mut self, session: &SessionId)
        requires
            old(self).wf(),
        ensures
            old(self).evolves_to(&*final(self)),
            final(self).wf(),
            final(self).spec_operations() == without_operation(old(self).spec_operations(), session@),
            final(self).spec_sessions() == old(self).spec_sessions(),
            final(self).spec_grants() == old(self).spec_grants(),
            final(self).spec_actions() == old(self).spec_actions(),
            final(self).spec_challenges() == old(self).spec_challenges(),
            final(self).spec_observations() == old(self).spec_observations(),
            final(self).spec_seen() == old(self).spec_seen(),
    {
        broadcast use lemma_closing_evolves, lemma_closing_with_evolves, lemma_sessions_evolve, lemma_actions_evolve;

        match self.find_operation(session) {
            Some(k) => {
                let ghost ps0 = self.operations@;
                self.operations.remove(k);
                proof {
                    let ps = self.operations@;
                    assert forall|a: int, b: int| 0 <= a < b < ps.len() implies #[trigger] ps[a].session_id@
                        != #[trigger] ps[b].session_id@ by {
                        let a0 = if a < k { a } else { a + 1 };
                        let b0 = if b < k { b } else { b + 1 };
                        assert(ps[a] == ps0[a0] && ps[b] == ps0[b0]);
                        assert(ps0[a0].session_id@ != ps0[b0].session_id@);
                    }
                }
            },
            None => {},
        }
    }

    /// Finishes installing session `session` with the adapter's `evidence`
    /// at `ticks`: the lane is freed; the session must still be reserved
    /// and usable and the evidence must be exactly its own, and it becomes
    /// active. A failed check closes every lane of its root.
    pub fn finish_install(
        &mut self,
        session: &SessionId,
        evidence: Option<InstallEvidenceV1>,
        ticks: u64,
    ) -> (r: AppResult<()>)
        requires
            old(self).wf(),
        ensures
            old(self).evolves_to(&*final(self)),
            final(self).wf(),
            final(self).spec_operations() == without_operation(old(self).spec_operations(), session@),
            final(self).spec_challenges() == old(self).spec_challenges(),
            final(self).spec_observations() == old(self).spec_observations(),
            final(self).spec_seen() == old(self).spec_seen(),
            ({
                let ss = old(self).spec_sessions();
                let i = session_index(ss, session@);
                let gs = old(self).spec_grants();
                let xs = old(self).spec_actions();
                if !has_session(ss, session@) {
                    &&& r == Err::<(), AppError>(AppError::InvalidInput("Unknown/closed session"))
                    &&& final(self).spec_sessions() == ss
                    &&& final(self).spec_grants() == gs
                    &&& final(self).spec_actions() == xs
                } else {
                    match install_error(ss[i], evidence, ticks) {
                        Some(m) => {
                            &&& r == Err::<(), AppError>(AppError::InvalidInput(m))
                            &&& final(self).spec_sessions() == closed_sessions(ss, ss[i].root_id@)
                            &&& final(self).spec_grants() == closed_grants(gs, ss[i].root_id@)
                            &&& final(self).spec_actions() == closed_actions(xs, ss[i].root_id@)
                        },
                        None => {
                            &&& r is Ok
                            &&& final(self).spec_sessions() == ss.update(i, LiveSessionV1 { active: true, ..ss[i] })
                            &&& final(self).spec_grants() == gs
                            &&& final(self).spec_actions() == xs
                        },
                    }
                }
            }),
    {
        broadcast use lemma_closing_evolves, lemma_closing_with_evolves, lemma_sessions_evolve, lemma_actions_evolve;

        self.end_operation(session);
        let i = match self.find_session(session) {
            Some(i) => i,
            None => {
                return Err(AppError::InvalidInput("Unknown/closed session"));
            },
        };
        self.check_session(i, false, ticks)?;
        let error = match &evidence {
            None => Some("Installation evidence unavailable"),
            Some(e) => {
                let s = &self.sessions[i];
                if e.session_id.same(&s.session_id) && e.request.same(&s.installation) && same_epochs(
                    &e.epochs,
                    &s.epochs,
                ) && e.class.meets(s.enforcement) {
                    None
                } else {
                    Some("Installation evidence mismatch")
                }
            },
        };
        match error {
            Some(m) => {
                let root = self.sessions[i].root_id.duplicate();
                self.close_root(&root);
                Err(AppError::InvalidInput(m))
            },
            None => {
                let ghost ss0 = self.sessions@;
                self.sessions[i].active = true;
                proof {
                    let ss = self.sessions@;
                    assert(ss =~= ss0.update(i as int, LiveSessionV1 { active: true, ..ss0[i as int] }));
                    assert forall|a: int, b: int| 0 <= a < b < ss.len() implies #[trigger] ss[a].session_id@
                        != #[trigger] ss[b].session_id@ by {
                        assert(ss[a].session_id == ss0[a].session_id);
                        assert(ss[b].session_id == ss0[b].session_id);
                        assert(ss0[a].session_id@ != ss0[b].session_id@);
                    }
                }
                Ok(())
            },
        }
    }

    fn find_grant(&self, session: &SessionId) -> (r: Option<usize>)
        requires
            self.wf(),
        ensures
            r matches Some(i) ==> grant_at(self.grants@, i as int, session@) && i == grant_index(self.grants@, session@),
            r is None ==> !has_grant(self.grants@, session@),
    {
        let mut i: usize = 0;
        while i < self.grants.len()
            invariant
                self.wf(),
                i <= self.grants@.len(),
                forall|k: int| 0 <= k < i ==> !#[trigger] grant_at(self.grants@, k, session@),
            decreases self.grants@.len() - i,
        {
            if self.grants[i].session_id.same(session) {
                proof {
                    let c = grant_index(self.grants@, session@);
                    assert(grant_at(self.grants@, i as int, session@));
                    if c < i {
                        assert(self.spec_grants()[c].session_id@ != self.spec_grants()[i as int].session_id@);
                    } else if c > i {
                        assert(self.spec_grants()[i as int].session_id@ != self.spec_grants()[c].session_id@);
                    }
                }
                return Some(i);
            }
            i = i + 1;
        }
        None
    }

    fn grant_id_used(&self, id: &GrantId) -> (r: bool)
        ensures
            r == exists|k: int| #[trigger] grant_id_at(self.grants@, k, id@),
    {
        let mut i: usize = 0;
        while i < self.grants.len()
            invariant
                i <= self.grants@.len(),
                forall|k: int| 0 <= k < i ==> !#[trigger] grant_id_at(self.grants@, k, id@),
            decreases self.grants@.len() - i,
        {
            if self.grants[i].grant_id.same(id) {
                assert(grant_id_at(self.grants@, i as int, id@));
                return true;
            }
            i = i + 1;
        }
        false
    }

    /// The single action grant of active session `session` at `ticks`: the
    /// one it already has, while that is open; otherwise a new grant
    /// `grant_id` for action `action_id`, decision sequence 1, bound to the
    /// digest of the session's reviewed intent.
    pub fn construct_grant(
        &mut self,
        session: &SessionId,
        grant_id: GrantId,
        action_id: ActionId,
        ticks: u64,
    ) -> (r: AppResult<GrantId>)
        requires
            old(self).wf(),
        ensures
            old(self).evolves_to(&*final(self)),
            final(self).wf(),
            ({
                let ss = old(self).spec_sessions();
                let gs = old(self).spec_grants();
                let i = session_index(ss, session@);
                let k = grant_index(gs, session@);
                if !has_session(ss, session@) {
                    r == Err::<GrantId, AppError>(AppError::InvalidInput("Unknown/closed session"))
                        && old(self).only_sessions(&*final(self), ss)
                } else {
                    match session_error(ss[i], true, ticks) {
                        Some(m) => r == Err::<GrantId, AppError>(AppError::InvalidInput(m)) && old(self).closes_root(
                            &*final(self),
                            ss[i].root_id@,
                        ),
                        None => if has_grant(gs, session@) {
                            old(self).only_sessions(&*final(self), ss) && if gs[k].valid {
                                r matches Ok(id) && id@ == gs[k].grant_id@
                            } else {
                                r == Err::<GrantId, AppError>(AppError::InvalidInput("Grant closed"))
                            }
                        } else if exists|j: int| #[trigger] grant_id_at(gs, j, grant_id@) {
                            r == Err::<GrantId, AppError>(AppError::InvalidInput("Grant identity is not unique"))
                                && old(self).only_sessions(&*final(self), ss)
                        } else {
                            let g = final(self).spec_grants().last();
                            &&& r matches Ok(id) && id@ == grant_id@
                            &&& final(self).spec_sessions() == ss
                            &&& final(self).spec_actions() == old(self).spec_actions()
                            &&& final(self).spec_challenges() == old(self).spec_challenges()
                            &&& final(self).spec_observations() == old(self).spec_observations()
                            &&& final(self).spec_seen() == old(self).spec_seen()
                            &&& final(self).spec_operations() == old(self).spec_operations()
                            &&& final(self).spec_grants().len() == gs.len() + 1
                            &&& final(self).spec_grants().drop_last() == gs
                            &&& g.grant_id@ == grant_id@
                            &&& g.session_id@ == session@
                            &&& g.root_id@ == ss[i].root_id@
                            &&& g.action_id == action_id
                            &&& g.sequence == 1
                            &&& g.payload_digest@ == intent_digest(ss[i].scope.spec_fields().intent)
                            &&& g.valid
                        },
                    }
                }
            }),
    {
        broadcast use lemma_closing_evolves, lemma_closing_with_evolves, lemma_sessions_evolve, lemma_actions_evolve;

        let i = match self.find_session(session) {
            Some(i) => i,
            None => {
                return Err(AppError::InvalidInput("Unknown/closed session"));
            },
        };
        self.check_session(i, true, ticks)?;
        match self.find_grant(session) {
            Some(k) => {
                if self.grants[k].valid {
                    return Ok(self.grants[k].grant_id.duplicate());
                } else {
                    return Err(AppError::InvalidInput("Grant closed"));
                }
            },
            None => {},
        }
        if self.grant_id_used(&grant_id) {
            return Err(AppError::InvalidInput("Grant identity is not unique"));
        }
        let payload_digest = match self.sessions[i].scope.fields().intent.digest() {
            Ok(d) => d,
            Err(e) => {
                return Err(e);
            },
        };
        let result = grant_id.duplicate();
        let ghost gs0 = self.grants@;
        let grant = LiveGrantV1 {
            grant_id,
            session_id: session.duplicate(),
            root_id: self.sessions[i].root_id.duplicate(),
            action_id,
            sequence: 1,
            payload_digest,
            valid: true,
        };
        self.grants.push(grant);
        proof {
            let gs = self.grants@;
            assert(gs.drop_last() =~= gs0);
            assert forall|a: int, b: int| 0 <= a < b < gs.len() implies #[trigger] gs[a].session_id@
                != #[trigger] gs[b].session_id@ by {
                if b == gs0.len() {
                    assert(!grant_at(gs0, a, session@));
                } else {
                    assert(gs0[a].session_id@ != gs0[b].session_id@);
                }
            }
            assert forall|a: int, b: int| 0 <= a < b < gs.len() implies #[trigger] gs[a].grant_id@
                != #[trigger] gs[b].grant_id@ by {
                if b == gs0.len() {
                    assert(!grant_id_at(gs0, a, gs[b].grant_id@));
                } else {
                    assert(gs0[a].grant_id@ != gs0[b].grant_id@);
                }
            }
        }
        Ok(result)
    }

    fn find_observation(&self, session: &SessionId) -> (r: Option<usize>)
        requires
            self.wf(),
        ensures
            r matches Some(i) ==> observation_at(self.observations@, i as int, session@) && i == observation_index(
                self.observations@,
                session@,
            ),
            r is None ==> !has_observation(self.observations@, session@),
    {
        let mut i: usize = 0;
        while i < self.observations.len()
            invariant
                self.wf(),
                i <= self.observations@.len(),
                forall|k: int| 0 <= k < i ==> !#[trigger] observation_at(self.observations@, k, session@),
            decreases self.observations@.len() - i,
        {
            if self.observations[i].session_id.same(session) {
                proof {
                    let c = observation_index(self.observations@, session@);
                    assert(observation_at(self.observations@, i as int, session@));
                    if c < i {
                        assert(self.spec_observations()[c].session_id@ != self.spec_observations()[i as int].session_id@);
                    } else if c > i {
                        assert(self.spec_observations()[i as int].session_id@ != self.spec_observations()[c].session_id@);
                    }
                }
                return Some(i);
            }
            i = i + 1;
        }
        None
    }

    fn find_session_action(&self, session: &SessionId) -> (r: Option<usize>)
        requires
            self.wf(),
        ensures
            r matches Some(i) ==> session_action_at(self.actions@, i as int, session@) && i == session_action_index(
                self.actions@,
                session@,
            ),
            r is None ==> !has_session_action(self.actions@, session@),
    {
        let mut i: usize = 0;
        while i < self.actions.len()
            invariant
                self.wf(),
                i <= self.actions@.len(),
                forall|k: int| 0 <= k < i ==> !#[trigger] session_action_at(self.actions@, k, session@),
            decreases self.actions@.len() - i,
        {
            if self.actions[i].session_id.same(session) {
                proof {
                    let c = session_action_index(self.actions@, session@);
                    assert(session_action_at(self.actions@, i as int, session@));
                    if c < i {
                        assert(self.spec_actions()[c].session_id@ != self.spec_actions()[i as int].session_id@);
                    } else if c > i {
                        assert(self.spec_actions()[i as int].session_id@ != self.spec_actions()[c].session_id@);
                    }
                }
                return Some(i);
            }
            i = i + 1;
        }
        None
    }

    fn seen_before(&self, id: &ObservationId) -> (r: bool)
        ensures
            r == observation_seen(self.seen@, id@),
    {
        let mut i: usize = 0;
        while i < self.seen.len()
            invariant
                i <= self.seen@.len(),
                forall|k: int| 0 <= k < i ==> (#[trigger] self.seen@[k])@ != id@,
            decreases self.seen@.len() - i,
        {
            if self.seen[i].same(id) {
                return true;
            }
            i = i + 1;
        }
        false
    }

    /// Records trusted observation `fact` for active session `session` at
    /// `ticks`. It must come from the session's own trusted sources, never
    /// repeat an identity, be fresh and ungapped, follow the previous
    /// observation in order within the gap, and find the session's live
    /// action (if any) still live. It then keeps the session fresh until its
    /// deadline, and that action's continuing deadline moves to it (never
    /// past the action's own); no budget is added.
    pub fn record_observation(
        &mut self,
        session: &SessionId,
        fact: TrustedControlObservationV1,
        ticks: u64,
    ) -> (r: AppResult<()>)
        requires
            old(self).wf(),
        ensures
            old(self).evolves_to(&*final(self)),
            final(self).wf(),
            ({
                let ss = old(self).spec_sessions();
                let os = old(self).spec_observations();
                let xs = old(self).spec_actions();
                let i = session_index(ss, session@);
                if !has_session(ss, session@) {
                    r == Err::<(), AppError>(AppError::InvalidInput("Unknown/closed session"))
                        && old(self).only_sessions(&*final(self), ss)
                } else {
                    match session_error(ss[i], true, ticks) {
                        Some(m) => r == Err::<(), AppError>(AppError::InvalidInput(m)) && old(self).closes_root(
                            &*final(self),
                            ss[i].root_id@,
                        ),
                        None => match observation_error(
                            ss[i],
                            previous_observation(os, session@),
                            session_action(xs, session@),
                            old(self).spec_seen(),
                            fact,
                            ticks,
                        ) {
                            Some(m) => r == Err::<(), AppError>(AppError::InvalidInput(m))
                                && old(self).only_sessions(&*final(self), ss),
                            None => {
                                let d = observation_deadline(ss[i], fact).unwrap();
                                let record = ObservationValidityV1 {
                                    session_id: fact.session_id,
                                    observation_id: fact.observation_id,
                                    captured: fact.captured_ticks,
                                    deadline: d,
                                };
                                &&& r is Ok
                                &&& final(self).spec_sessions() == ss
                                &&& final(self).spec_grants() == old(self).spec_grants()
                                &&& final(self).spec_challenges() == old(self).spec_challenges()
                                &&& final(self).spec_operations() == old(self).spec_operations()
                                &&& final(self).spec_seen().len() == old(self).spec_seen().len() + 1
                                &&& final(self).spec_seen().drop_last() == old(self).spec_seen()
                                &&& final(self).spec_seen().last()@ == fact.observation_id@
                                &&& final(self).spec_observations() == if has_observation(os, session@) {
                                    os.update(observation_index(os, session@), record)
                                } else {
                                    os.push(record)
                                }
                                &&& final(self).spec_actions() == if has_session_action(xs, session@) {
                                    let k = session_action_index(xs, session@);
                                    xs.update(
                                        k,
                                        LiveActionV1 {
                                            continuing_deadline: if d <= xs[k].deadline {
                                                d
                                            } else {
                                                xs[k].deadline
                                            },
                                            ..xs[k]
                                        },
                                    )
                                } else {
                                    xs
                                }
                            },
                        },
                    }
                }
            }),
    {
        broadcast use lemma_closing_evolves, lemma_closing_with_evolves, lemma_sessions_evolve, lemma_actions_evolve;

        let i = match self.find_session(session) {
            Some(i) => i,
            None => {
                return Err(AppError::InvalidInput("Unknown/closed session"));
            },
        };
        self.check_session(i, true, ticks)?;
        let prev = self.find_observation(session);
        let act = self.find_session_action(session);
        let s = &self.sessions[i];
        let age = s.scope.fields().freshness.observation.max_age_us.get();
        let gap = s.scope.fields().freshness.observation.max_gap_us.get();
        if !(fact.session_id.same(&s.session_id) && fact.source.same(&s.subsystem.controller_incarnation)
            && fact.body.same(&s.subsystem.body_incarnation) && same_incarnation(
            &fact.world,
            &s.subsystem.world_incarnation,
        ) && fact.captured_ticks <= ticks) {
            return Err(AppError::InvalidInput("Observation source/session mismatch"));
        }
        if self.seen_before(&fact.observation_id) {
            return Err(AppError::InvalidInput("Observation identity replay"));
        }
        if age > u64::MAX - fact.captured_ticks {
            return Err(AppError::InvalidInput("Control deadline overflow"));
        }
        let sum = fact.captured_ticks + age;
        let deadline = if sum <= s.deadline { sum } else { s.deadline };
        if !(ticks < deadline && fact.gap_us < gap) {
            return Err(AppError::InvalidInput("Observation stale or gapped"));
        }
        match prev {
            Some(p) => {
                let o = &self.observations[p];
                if !(!o.observation_id.same(&fact.observation_id) && fact.captured_ticks >= o.captured
                    && fact.captured_ticks - o.captured < gap) {
                    return Err(AppError::InvalidInput("Observation replay/order/gap"));
                }
            },
            None => {},
        }
        match act {
            Some(k) => {
                let a = &self.actions[k];
                if !(a.valid && ticks < a.deadline && ticks < a.continuing_deadline) {
                    return Err(AppError::InvalidInput("Observation cannot revive expired action"));
                }
            },
            None => {},
        }
        let ghost ss0 = self.sessions@;
        let ghost os0 = self.observations@;
        let ghost xs0 = self.actions@;
        let ghost seen0 = self.seen@;
        proof {
            assert(ss0 == old(self).spec_sessions());
            assert(os0 == old(self).spec_observations());
            assert(xs0 == old(self).spec_actions());
            assert(seen0 == old(self).spec_seen());
        }
        match act {
            Some(k) => {
                let a_deadline = self.actions[k].deadline;
                self.actions[k].continuing_deadline = if deadline <= a_deadline { deadline } else { a_deadline };
                proof {
                    let xs = self.actions@;
                    assert forall|a: int, b: int| 0 <= a < b < xs.len() implies #[trigger] xs[a].action_id@
                        != #[trigger] xs[b].action_id@ by {
                        assert(xs[a].action_id == xs0[a].action_id);
                        assert(xs[b].action_id == xs0[b].action_id);
                        assert(xs0[a].action_id@ != xs0[b].action_id@);
                    }
                    assert forall|a: int, b: int| 0 <= a < b < xs.len() implies #[trigger] xs[a].session_id@
                        != #[trigger] xs[b].session_id@ by {
                        assert(xs[a].session_id == xs0[a].session_id);
                        assert(xs[b].session_id == xs0[b].session_id);
                        assert(xs0[a].session_id@ != xs0[b].session_id@);
                    }
                }
            },
            None => {},
        }
        self.seen.push(fact.observation_id.duplicate());
        let record = ObservationValidityV1 {
            session_id: fact.session_id,
            observation_id: fact.observation_id,
            captured: fact.captured_ticks,
            deadline,
        };
        match prev {
            Some(p) => {
                self.observations.set(p, record);
                proof {
                    let os = self.observations@;
                    assert forall|a: int, b: int| 0 <= a < b < os.len() implies #[trigger] os[a].session_id@
                        != #[trigger] os[b].session_id@ by {
                        if a == p {
                            assert(os[a].session_id@ == session@);
                            assert(os0[b].session_id@ != os0[a].session_id@);
                        } else if b == p {
                            assert(os[b].session_id@ == session@);
                            assert(os0[a].session_id@ != os0[b].session_id@);
                        } else {
                            assert(os0[a].session_id@ != os0[b].session_id@);
                        }
                    }
                }
            },
            None => {
                self.observations.push(record);
                proof {
                    let os = self.observations@;
                    assert forall|a: int, b: int| 0 <= a < b < os.len() implies #[trigger] os[a].session_id@
                        != #[trigger] os[b].session_id@ by {
                        if b == os0.len() {
                            assert(!observation_at(os0, a, session@));
                        } else {
                            assert(os0[a].session_id@ != os0[b].session_id@);
                        }
                    }
                }
            },
        }
        assert(self.seen@.drop_last() =~= seen0);
        Ok(())
    }

    fn find_challenge(&self, grant: &GrantId) -> (r: Option<usize>)
        requires
            self.wf(),
        ensures
            r matches Some(i) ==> challenge_at(self.challenges@, i as int, grant@) && i == challenge_index(
                self.challenges@,
                grant@,
            ),
            r is None ==> !has_challenge(self.challenges@, grant@),
    {
        let mut i: usize = 0;
        while i < self.challenges.len()
            invariant
                self.wf(),
                i <= self.challenges@.len(),
                forall|k: int| 0 <= k < i ==> !#[trigger] challenge_at(self.challenges@, k, grant@),
            decreases self.challenges@.len() - i,
        {
            if self.challenges[i].grant_id.same(grant) {
                proof {
                    let c = challenge_index(self.challenges@, grant@);
                    assert(challenge_at(self.challenges@, i as int, grant@));
                    if c < i {
                        assert(self.spec_challenges()[c].grant_id@ != self.spec_challenges()[i as int].grant_id@);
                    } else if c > i {
                        assert(self.spec_challenges()[i as int].grant_id@ != self.spec_challenges()[c].grant_id@);
                    }
                }
                return Some(i);
            }
            i = i + 1;
        }
        None
    }

    /// Issues proposal challenge `challenge_id` for the grant of active
    /// session `session` at `ticks`, once per grant: it names the session's
    /// current observation, which must still hold, and lasts the proposal
    /// window, never past the lease.
    pub fn issue_challenge(&mut self, session: &SessionId, challenge_id: ChallengeId, ticks: u64) -> (r:
        AppResult<ChallengeId>)
        requires
            old(self).wf(),
        ensures
            old(self).evolves_to(&*final(self)),
            final(self).wf(),
            ({
                let ss = old(self).spec_sessions();
                let gs = old(self).spec_grants();
                let cs = old(self).spec_challenges();
                let os = old(self).spec_observations();
                let i = session_index(ss, session@);
                let g = gs[grant_index(gs, session@)];
                if !has_session(ss, session@) {
                    r == Err::<ChallengeId, AppError>(AppError::InvalidInput("Unknown/closed session"))
                        && old(self).only_sessions(&*final(self), ss)
                } else {
                    match session_error(ss[i], true, ticks) {
                        Some(m) => r == Err::<ChallengeId, AppError>(AppError::InvalidInput(m))
                            && old(self).closes_root(&*final(self), ss[i].root_id@),
                        None => if !has_grant(gs, session@) {
                            r == Err::<ChallengeId, AppError>(AppError::InvalidInput("Unknown/closed grant"))
                                && old(self).only_sessions(&*final(self), ss)
                        } else {
                            match challenge_error(ss[i], g, cs, previous_observation(os, session@), ticks) {
                                Some(m) => r == Err::<ChallengeId, AppError>(AppError::InvalidInput(m))
                                    && old(self).only_sessions(&*final(self), ss),
                                None => {
                                    let c = final(self).spec_challenges().last();
                                    &&& r matches Ok(id) && id@ == challenge_id@
                                    &&& final(self).spec_sessions() == ss
                                    &&& final(self).spec_grants() == gs
                                    &&& final(self).spec_actions() == old(self).spec_actions()
                                    &&& final(self).spec_observations() == os
                                    &&& final(self).spec_seen() == old(self).spec_seen()
                                    &&& final(self).spec_operations() == old(self).spec_operations()
                                    &&& final(self).spec_challenges().len() == cs.len() + 1
                                    &&& final(self).spec_challenges().drop_last() == cs
                                    &&& c.challenge_id == challenge_id
                                    &&& c.grant_id@ == g.grant_id@
                                    &&& c.observation_id@ == os[observation_index(os, session@)].observation_id@
                                    &&& c.deadline == challenge_deadline(ss[i], ticks).unwrap()
                                },
                            }
                        },
                    }
                }
            }),
    {
        broadcast use lemma_closing_evolves, lemma_closing_with_evolves, lemma_sessions_evolve, lemma_actions_evolve;

        let i = match self.find_session(session) {
            Some(i) => i,
            None => {
                return Err(AppError::InvalidInput("Unknown/closed session"));
            },
        };
        self.check_session(i, true, ticks)?;
        let k = match self.find_grant(session) {
            Some(k) => k,
            None => {
                return Err(AppError::InvalidInput("Unknown/closed grant"));
            },
        };
        if !self.grants[k].valid {
            return Err(AppError::InvalidInput("Unknown/closed grant"));
        }
        if self.find_challenge(&self.grants[k].grant_id).is_some() {
            return Err(AppError::InvalidInput("Challenge cannot be renewed"));
        }
        let o = match self.find_observation(session) {
            Some(o) => o,
            None => {
                return Err(AppError::InvalidInput("No trusted control observation"));
            },
        };
        if ticks >= self.observations[o].deadline {
            return Err(AppError::InvalidInput("Observation expired"));
        }
        let window = self.sessions[i].scope.fields().freshness.proposal.0.get();
        if window > u64::MAX - ticks {
            return Err(AppError::InvalidInput("Control deadline overflow"));
        }
        let sum = ticks + window;
        let lease = self.sessions[i].deadline;
        let deadline = if sum <= lease { sum } else { lease };
        let result = challenge_id.duplicate();
        let ghost cs0 = self.challenges@;
        let challenge = ProposalChallengeV1 {
            challenge_id,
            grant_id: self.grants[k].grant_id.duplicate(),
            observation_id: self.observations[o].observation_id.duplicate(),
            deadline,
        };
        self.challenges.push(challenge);
        proof {
            let cs = self.challenges@;
            assert(cs.drop_last() =~= cs0);
            assert forall|a: int, b: int| 0 <= a < b < cs.len() implies #[trigger] cs[a].grant_id@
                != #[trigger] cs[b].grant_id@ by {
                if b == cs0.len() {
                    assert(!challenge_at(cs0, a, cs[b].grant_id@));
                } else {
                    assert(cs0[a].grant_id@ != cs0[b].grant_id@);
                }
            }
        }
        Ok(result)
    }

    fn find_action(&self, id: &ActionId) -> (r: Option<usize>)
        requires
            self.wf(),
        ensures
            r matches Some(i) ==> action_at(self.actions@, i as int, id@) && i == action_index(self.actions@, id@),
            r is None ==> !has_action(self.actions@, id@),
    {
        let mut i: usize = 0;
        while i < self.actions.len()
            invariant
                self.wf(),
                i <= self.actions@.len(),
                forall|k: int| 0 <= k < i ==> !#[trigger] action_at(self.actions@, k, id@),
            decreases self.actions@.len() - i,
        {
            if self.actions[i].action_id.same(id) {
                proof {
                    let c = action_index(self.actions@, id@);
                    assert(action_at(self.actions@, i as int, id@));
                    if c < i {
                        assert(self.spec_actions()[c].action_id@ != self.spec_actions()[i as int].action_id@);
                    } else if c > i {
                        assert(self.spec_actions()[i as int].action_id@ != self.spec_actions()[c].action_id@);
                    }
                }
                return Some(i);
            }
            i = i + 1;
        }
        None
    }

    /// Admits `proposal` under the grant of session `session` at wall time
    /// `now` and tick `ticks`. It must fit the reviewed scope and name the
    /// grant exactly. An exact repeat of the admitted action is answered as
    /// a duplicate, a changed one refused. Otherwise the session must be
    /// active and usable, the grant open, the proposal must answer the
    /// grant's unexpired challenge and name only the session's current
    /// observation, and its duration must fit the session's and the root's
    /// remaining lifetime and be visible at wall-clock precision. The action
    /// then lives until that duration ends, continuing only while the
    /// observation holds, with no dispatch decided.
    pub fn admit_proposal(
        &mut self,
        session: &SessionId,
        proposal: PhysicalActionProposalV1,
        now: u64,
        ticks: u64,
    ) -> (r: AppResult<AdmissionV1>)
        requires
            old(self).wf(),
        ensures
            old(self).evolves_to(&*final(self)),
            final(self).wf(),
            ({
                let ss = old(self).spec_sessions();
                let gs = old(self).spec_grants();
                let xs = old(self).spec_actions();
                let os = old(self).spec_observations();
                let i = session_index(ss, session@);
                let g = gs[grant_index(gs, session@)];
                let unchanged = old(self).only_sessions(&*final(self), ss);
                if !has_session(ss, session@) {
                    r == Err::<AdmissionV1, AppError>(AppError::InvalidInput("Unknown/closed session")) && unchanged
                } else if !has_grant(gs, session@) {
                    r == Err::<AdmissionV1, AppError>(AppError::InvalidInput("Unknown/closed grant")) && unchanged
                } else if !proposal_fits(proposal, ss[i].scope) {
                    r is Err && unchanged
                } else if !proposal_identity(ss[i], g, proposal) {
                    r == Err::<AdmissionV1, AppError>(AppError::InvalidInput("Proposal identity mismatch")) && unchanged
                } else if has_action(xs, g.action_id@) {
                    unchanged && if same_admission(xs[action_index(xs, g.action_id@)], g, proposal) {
                        r matches Ok(AdmissionV1::Duplicate(id)) && id@ == g.action_id@
                    } else {
                        r == Err::<AdmissionV1, AppError>(
                            AppError::InvalidInput("Changed payload under admitted identity"),
                        )
                    }
                } else {
                    match session_error(ss[i], true, ticks) {
                        Some(m) => r == Err::<AdmissionV1, AppError>(AppError::InvalidInput(m))
                            && old(self).closes_root(&*final(self), ss[i].root_id@),
                        None => match admission_error(
                            ss[i],
                            g,
                            grant_challenge(old(self).spec_challenges(), g.grant_id@),
                            previous_observation(os, session@),
                            proposal,
                            now,
                            ticks,
                        ) {
                            Some(m) => r == Err::<AdmissionV1, AppError>(AppError::InvalidInput(m)) && unchanged,
                            None => if has_session_action(xs, session@) {
                                r == Err::<AdmissionV1, AppError>(
                                    AppError::InvalidInput("Session already has an admitted action"),
                                ) && unchanged
                            } else {
                                let o = os[observation_index(os, session@)];
                                let d = (ticks + proposal.requested_duration_us.spec_get()) as u64;
                                let x = final(self).spec_actions().last();
                                &&& r matches Ok(AdmissionV1::Admitted(id)) && id@ == proposal.action_id@
                                &&& final(self).spec_sessions() == ss
                                &&& final(self).spec_grants() == gs
                                &&& final(self).spec_challenges() == old(self).spec_challenges()
                                &&& final(self).spec_observations() == os
                                &&& final(self).spec_seen() == old(self).spec_seen()
                                &&& final(self).spec_operations() == old(self).spec_operations()
                                &&& final(self).spec_actions().len() == xs.len() + 1
                                &&& final(self).spec_actions().drop_last() == xs
                                &&& x.action_id == proposal.action_id
                                &&& x.session_id@ == session@
                                &&& x.grant_id@ == g.grant_id@
                                &&& x.root_id@ == ss[i].root_id@
                                &&& x.payload == proposal.payload
                                &&& x.payload_digest == proposal.payload_digest
                                &&& x.deadline == d
                                &&& x.continuing_deadline == if o.deadline <= d { o.deadline } else { d }
                                &&& !x.dispatch_decided
                                &&& !x.apply_accepted
                                &&& x.valid
                            },
                        },
                    }
                }
            }),
    {
        broadcast use lemma_closing_evolves, lemma_closing_with_evolves, lemma_sessions_evolve, lemma_actions_evolve;

        let i = match self.find_session(session) {
            Some(i) => i,
            None => {
                return Err(AppError::InvalidInput("Unknown/closed session"));
            },
        };
        let k = match self.find_grant(session) {
            Some(k) => k,
            None => {
                return Err(AppError::InvalidInput("Unknown/closed grant"));
            },
        };
        match proposal.validate_scope(&self.sessions[i].scope) {
            Ok(()) => {},
            Err(e) => {
                return Err(e);
            },
        }
        {
            let s = &self.sessions[i];
            let g = &self.grants[k];
            if !(proposal.attempt_id.same(&s.attempt_id) && proposal.action_id.same(&g.action_id)
                && proposal.decision_sequence == g.sequence && proposal.payload_digest.same(&g.payload_digest)) {
                return Err(AppError::InvalidInput("Proposal identity mismatch"));
            }
        }
        match self.find_action(&self.grants[k].action_id) {
            Some(x) => {
                let a = &self.actions[x];
                let g = &self.grants[k];
                if a.grant_id.same(&g.grant_id) && a.session_id.same(&g.session_id) && a.payload.same(
                    &proposal.payload,
                ) && a.payload_digest.same(&proposal.payload_digest) {
                    return Ok(AdmissionV1::Duplicate(a.action_id.duplicate()));
                } else {
                    return Err(AppError::InvalidInput("Changed payload under admitted identity"));
                }
            },
            None => {},
        }
        self.check_session(i, true, ticks)?;
        if !self.grants[k].valid {
            return Err(AppError::InvalidInput("Unknown/closed grant"));
        }
        let c = match self.find_challenge(&self.grants[k].grant_id) {
            Some(c) => c,
            None => {
                return Err(AppError::InvalidInput("No post-activation challenge"));
            },
        };
        let single = proposal.observations.len() == 1;
        {
            let ch = &self.challenges[c];
            if !(ch.challenge_id.same(&proposal.challenge_id) && single && proposal.observations[0].same(
                &ch.observation_id,
            ) && ticks < ch.deadline) {
                return Err(AppError::InvalidInput("Wrong/expired challenge"));
            }
        }
        let o = match self.find_observation(session) {
            Some(o) => o,
            None => {
                return Err(AppError::InvalidInput("No observation"));
            },
        };
        let o_deadline = self.observations[o].deadline;
        if !(proposal.observations[0].same(&self.observations[o].observation_id) && ticks < o_deadline) {
            return Err(AppError::InvalidInput("Observation challenge mismatch/expiry"));
        }
        let dur = proposal.requested_duration_us.get();
        if dur > u64::MAX - ticks {
            return Err(AppError::InvalidInput("Control deadline overflow"));
        }
        let deadline = ticks + dur;
        if !(deadline <= self.sessions[i].deadline && deadline <= self.sessions[i].root_deadline) {
            return Err(AppError::InvalidInput("Insufficient authority lifetime"));
        }
        if dur / 1000 > u64::MAX - now {
            return Err(AppError::InvalidInput("Action expiry overflow"));
        }
        if dur / 1000 == 0 {
            return Err(AppError::InvalidInput("Action duration below audit precision"));
        }
        if self.find_session_action(session).is_some() {
            return Err(AppError::InvalidInput("Session already has an admitted action"));
        }
        let ghost xs0 = self.actions@;
        proof {
            assert(xs0 == old(self).spec_actions());
        }
        let result = proposal.action_id.duplicate();
        let action = LiveActionV1 {
            action_id: proposal.action_id,
            session_id: session.duplicate(),
            grant_id: self.grants[k].grant_id.duplicate(),
            root_id: self.sessions[i].root_id.duplicate(),
            payload: proposal.payload,
            payload_digest: proposal.payload_digest,
            deadline,
            continuing_deadline: if o_deadline <= deadline { o_deadline } else { deadline },
            dispatch_decided: false,
            apply_accepted: false,
            valid: true,
        };
        self.actions.push(action);
        proof {
            let xs = self.actions@;
            assert(xs.drop_last() =~= xs0);
            assert forall|a: int, b: int| 0 <= a < b < xs.len() implies #[trigger] xs[a].action_id@
                != #[trigger] xs[b].action_id@ by {
                if b == xs0.len() {
                    assert(!action_at(xs0, a, xs[b].action_id@));
                } else {
                    assert(xs0[a].action_id@ != xs0[b].action_id@);
                }
            }
            assert forall|a: int, b: int| 0 <= a < b < xs.len() implies #[trigger] xs[a].session_id@
                != #[trigger] xs[b].session_id@ by {
                if b == xs0.len() {
                    assert(!session_action_at(xs0, a, session@));
                } else {
                    assert(xs0[a].session_id@ != xs0[b].session_id@);
                }
            }
        }
        Ok(AdmissionV1::Admitted(result))
    }

    /// Checks live action `k` at `ticks`: its session must be active and
    /// usable (else every lane of the root closes), then its grant open and
    /// itself valid and continued (else the action alone closes). Returns
    /// the session's index.
    fn check_action(&mut self, k: usize, ticks: u64) -> (r: AppResult<usize>)
        requires
            old(self).wf(),
            k < old(self).spec_actions().len(),
        ensures
            old(self).evolves_to(&*final(self)),
            final(self).wf(),
            ({
                let ss = old(self).spec_sessions();
                let xs = old(self).spec_actions();
                let x = xs[k as int];
                let i = session_index(ss, x.session_id@);
                if !has_session(ss, x.session_id@) {
                    r == Err::<usize, AppError>(AppError::InvalidInput("Unknown/closed session"))
                        && old(self).only_sessions(&*final(self), ss)
                } else {
                    match session_error(ss[i], true, ticks) {
                        Some(m) => r == Err::<usize, AppError>(AppError::InvalidInput(m))
                            && old(self).closes_root(&*final(self), ss[i].root_id@),
                        None => match action_error(old(self).spec_grants(), x, ticks) {
                            Some(m) => {
                                &&& r == Err::<usize, AppError>(AppError::InvalidInput(m))
                                &&& final(self).spec_actions() == xs.update(k as int, LiveActionV1 { valid: false, ..x })
                                &&& final(self).spec_sessions() == ss
                                &&& final(self).spec_grants() == old(self).spec_grants()
                                &&& final(self).spec_challenges() == old(self).spec_challenges()
                                &&& final(self).spec_observations() == old(self).spec_observations()
                                &&& final(self).spec_seen() == old(self).spec_seen()
                                &&& final(self).spec_operations() == old(self).spec_operations()
                            },
                            None => r matches Ok(j) && j == i && i < ss.len() && old(self).only_sessions(
                                &*final(self),
                                ss,
                            ),
                        },
                    }
                }
            }),
    {
        broadcast use lemma_closing_evolves, lemma_closing_with_evolves, lemma_sessions_evolve, lemma_actions_evolve;

        let sid = self.actions[k].session_id.duplicate();
        let i = match self.find_session(&sid) {
            Some(i) => i,
            None => {
                return Err(AppError::InvalidInput("Unknown/closed session"));
            },
        };
        self.check_session(i, true, ticks)?;
        let grant_open = match self.find_grant(&sid) {
            Some(g) => self.grants[g].valid,
            None => false,
        };
        let error = if !grant_open {
            Some("Unknown/closed grant")
        } else {
            let x = &self.actions[k];
            if !(x.valid && ticks < x.deadline && ticks < x.continuing_deadline) {
                Some("Action/observation validity expired")
            } else {
                None
            }
        };
        match error {
            Some(m) => {
                let ghost xs0 = self.actions@;
                proof {
                    assert(xs0 == old(self).spec_actions());
                }
                self.actions[k].valid = false;
                proof {
                    let xs = self.actions@;
                    assert(xs =~= xs0.update(k as int, LiveActionV1 { valid: false, ..xs0[k as int] }));
                    assert forall|a: int, b: int| 0 <= a < b < xs.len() implies #[trigger] xs[a].action_id@
                        != #[trigger] xs[b].action_id@ by {
                        assert(xs[a].action_id == xs0[a].action_id);
                        assert(xs[b].action_id == xs0[b].action_id);
                        assert(xs0[a].action_id@ != xs0[b].action_id@);
                    }
                    assert forall|a: int, b: int| 0 <= a < b < xs.len() implies #[trigger] xs[a].session_id@
                        != #[trigger] xs[b].session_id@ by {
                        assert(xs[a].session_id == xs0[a].session_id);
                        assert(xs[b].session_id == xs0[b].session_id);
                        assert(xs0[a].session_id@ != xs0[b].session_id@);
                    }
                }
                Err(AppError::InvalidInput(m))
            },
            None => Ok(i),
        }
    }

    /// Decides one write of live action `action_id` as operation `request`
    /// at `ticks`: the action must pass its checks and its lane be free; an
    /// apply only when no dispatch was ever decided for it (the decision is
    /// kept from here on, whatever follows), a refresh only after an
    /// accepted apply. The operation is then in flight on the lane.
    pub fn prepare_write(&mut self, action_id: &ActionId, request: RequestId, refresh: bool, ticks: u64) -> (r:
        AppResult<()>)
        requires
            old(self).wf(),
        ensures
            old(self).evolves_to(&*final(self)),
            final(self).wf(),
            ({
                let ss = old(self).spec_sessions();
                let xs = old(self).spec_actions();
                let k = action_index(xs, action_id@);
                let x = xs[k];
                let i = session_index(ss, x.session_id@);
                if !has_action(xs, action_id@) {
                    r == Err::<(), AppError>(AppError::InvalidInput("Unknown/closed action"))
                        && old(self).only_sessions(&*final(self), ss)
                } else if !has_session(ss, x.session_id@) {
                    r == Err::<(), AppError>(AppError::InvalidInput("Unknown/closed session"))
                        && old(self).only_sessions(&*final(self), ss)
                } else {
                    match session_error(ss[i], true, ticks) {
                        Some(m) => r == Err::<(), AppError>(AppError::InvalidInput(m))
                            && old(self).closes_root(&*final(self), ss[i].root_id@),
                        None => match action_error(old(self).spec_grants(), x, ticks) {
                            Some(m) => r == Err::<(), AppError>(AppError::InvalidInput(m))
                                && final(self).spec_actions() == xs.update(k, LiveActionV1 { valid: false, ..x })
                                && final(self).spec_sessions() == ss
                                && final(self).spec_operations() == old(self).spec_operations(),
                            None => if has_operation(old(self).spec_operations(), x.session_id@) {
                                r == Err::<(), AppError>(AppError::InvalidInput("Lane operation in flight"))
                                    && old(self).only_sessions(&*final(self), ss)
                            } else if refresh && !(x.dispatch_decided && x.apply_accepted) {
                                r == Err::<(), AppError>(
                                    AppError::InvalidInput("Refresh needs a private verified apply disposition"),
                                ) && old(self).only_sessions(&*final(self), ss)
                            } else if !refresh && x.dispatch_decided {
                                r == Err::<(), AppError>(
                                    AppError::InvalidInput("Action already had a Core dispatch decision"),
                                ) && old(self).only_sessions(&*final(self), ss)
                            } else {
                                &&& r is Ok
                                &&& final(self).spec_actions() == xs.update(k, LiveActionV1 { dispatch_decided: true, ..x })
                                &&& final(self).spec_sessions() == ss
                                &&& final(self).spec_grants() == old(self).spec_grants()
                                &&& final(self).spec_challenges() == old(self).spec_challenges()
                                &&& final(self).spec_observations() == old(self).spec_observations()
                                &&& final(self).spec_seen() == old(self).spec_seen()
                                &&& final(self).spec_operations().len() == old(self).spec_operations().len() + 1
                                &&& final(self).spec_operations().drop_last() == old(self).spec_operations()
                                &&& final(self).spec_operations().last().session_id@ == x.session_id@
                                &&& final(self).spec_operations().last().request == request
                            },
                        },
                    }
                }
            }),
    {
        broadcast use lemma_closing_evolves, lemma_closing_with_evolves, lemma_sessions_evolve, lemma_actions_evolve;

        let k = match self.find_action(action_id) {
            Some(k) => k,
            None => {
                return Err(AppError::InvalidInput("Unknown/closed action"));
            },
        };
        self.check_action(k, ticks)?;
        let sid = self.actions[k].session_id.duplicate();
        if self.find_operation(&sid).is_some() {
            return Err(AppError::InvalidInput("Lane operation in flight"));
        }
        if refresh {
            if !(self.actions[k].dispatch_decided && self.actions[k].apply_accepted) {
                return Err(AppError::InvalidInput("Refresh needs a private verified apply disposition"));
            }
        } else if self.actions[k].dispatch_decided {
            return Err(AppError::InvalidInput("Action already had a Core dispatch decision"));
        }
        let ghost xs0 = self.actions@;
        let ghost ps0 = self.operations@;
        proof {
            assert(xs0 == old(self).spec_actions());
            assert(ps0 == old(self).spec_operations());
        }
        self.actions[k].dispatch_decided = true;
        self.operations.push(LaneOperationV1 { session_id: sid, request });
        proof {
            let xs = self.actions@;
            let ps = self.operations@;
            assert(xs =~= xs0.update(k as int, LiveActionV1 { dispatch_decided: true, ..xs0[k as int] }));
            assert(ps.drop_last() =~= ps0);
            assert forall|a: int, b: int| 0 <= a < b < xs.len() implies #[trigger] xs[a].action_id@
                != #[trigger] xs[b].action_id@ by {
                assert(xs[a].action_id == xs0[a].action_id);
                assert(xs[b].action_id == xs0[b].action_id);
                assert(xs0[a].action_id@ != xs0[b].action_id@);
            }
            assert forall|a: int, b: int| 0 <= a < b < xs.len() implies #[trigger] xs[a].session_id@
                != #[trigger] xs[b].session_id@ by {
                assert(xs[a].session_id == xs0[a].session_id);
                assert(xs[b].session_id == xs0[b].session_id);
                assert(xs0[a].session_id@ != xs0[b].session_id@);
            }
            assert forall|a: int, b: int| 0 <= a < b < ps.len() implies #[trigger] ps[a].session_id@
                != #[trigger] ps[b].session_id@ by {
                if b == ps0.len() {
                    assert(!operation_at(ps0, a, ps[b].session_id@));
                } else {
                    assert(ps0[a].session_id@ != ps0[b].session_id@);
                }
            }
        }
        Ok(())
    }

    /// Removes `session`'s lane operation when it is `request`.
    fn end_request(&mut self, session: &SessionId, request: &RequestId)
        requires
            old(self).wf(),
        ensures
            old(self).evolves_to(&*final(self)),
            final(self).wf(),
            old(self).only_actions(
                &*final(self),
                old(self).spec_actions(),
                without_request(old(self).spec_operations(), session@, request@),
            ),
    {
        broadcast use lemma_closing_evolves, lemma_closing_with_evolves, lemma_sessions_evolve, lemma_actions_evolve;

        match self.find_operation(session) {
            Some(k) => {
                if self.operations[k].request.same(request) {
                    let ghost ps0 = self.operations@;
                    self.operations.remove(k);
                    proof {
                        let ps = self.operations@;
                        assert forall|a: int, b: int| 0 <= a < b < ps.len() implies #[trigger] ps[a].session_id@
                            != #[trigger] ps[b].session_id@ by {
                            let a0 = if a < k { a } else { a + 1 };
                            let b0 = if b < k { b } else { b + 1 };
                            assert(ps[a] == ps0[a0] && ps[b] == ps0[b0]);
                            assert(ps0[a0].session_id@ != ps0[b0].session_id@);
                        }
                    }
                }
            },
            None => {},
        }
    }

    /// Finishes operation `request` (a refresh when `refresh`) of live
    /// action `action_id` with the adapter's `reply` at `ticks`. The lane is
    /// freed when that operation is still the one in flight; the action must
    /// still pass its checks. Only a reply for exactly this session, its
    /// fenced epochs, this operation, action and payload, that accepted,
    /// succeeds (an accepted apply is recorded as such); any other outcome
    /// closes every lane of the root, so nothing is retried.
    pub fn finish_write(
        &mut self,
        action_id: &ActionId,
        request: &RequestId,
        refresh: bool,
        reply: Option<LaneReplyV1>,
        ticks: u64,
    ) -> (r: AppResult<()>)
        requires
            old(self).wf(),
        ensures
            old(self).evolves_to(&*final(self)),
            final(self).wf(),
            ({
                let ss = old(self).spec_sessions();
                let xs = old(self).spec_actions();
                let k = action_index(xs, action_id@);
                let x = xs[k];
                let i = session_index(ss, x.session_id@);
                let ps1 = without_request(old(self).spec_operations(), x.session_id@, request@);
                if !has_action(xs, action_id@) {
                    r == Err::<(), AppError>(AppError::InvalidInput("Unknown/closed action"))
                        && old(self).only_sessions(&*final(self), ss)
                } else if !has_session(ss, x.session_id@) {
                    r == Err::<(), AppError>(AppError::InvalidInput("Unknown/closed session"))
                        && old(self).only_actions(&*final(self), xs, ps1)
                } else {
                    match session_error(ss[i], true, ticks) {
                        Some(m) => r == Err::<(), AppError>(AppError::InvalidInput(m))
                            && old(self).closes_root_with(&*final(self), ss[i].root_id@, ps1),
                        None => match action_error(old(self).spec_grants(), x, ticks) {
                            Some(m) => r == Err::<(), AppError>(AppError::InvalidInput(m))
                                && old(self).only_actions(&*final(self), xs.update(k, LiveActionV1 { valid: false, ..x }), ps1),
                            None => if reply matches Some(e) && reply_matches(ss[i], x, request@, e) && e.accepted {
                                r is Ok && old(self).only_actions(
                                    &*final(self),
                                    if refresh { xs } else { xs.update(k, LiveActionV1 { apply_accepted: true, ..x }) },
                                    ps1,
                                )
                            } else {
                                r == Err::<(), AppError>(
                                    AppError::InvalidInput("Fake lane refused or disposition unknown"),
                                ) && old(self).closes_root_with(&*final(self), ss[i].root_id@, ps1)
                            },
                        },
                    }
                }
            }),
    {
        broadcast use lemma_closing_evolves, lemma_closing_with_evolves, lemma_sessions_evolve, lemma_actions_evolve;

        let k = match self.find_action(action_id) {
            Some(k) => k,
            None => {
                return Err(AppError::InvalidInput("Unknown/closed action"));
            },
        };
        let sid = self.actions[k].session_id.duplicate();
        self.end_request(&sid, request);
        let i = self.check_action(k, ticks)?;
        let accepted = match &reply {
            Some(e) => {
                let s = &self.sessions[i];
                let x = &self.actions[k];
                e.session_id.same(&s.session_id) && same_epochs(&e.epochs, &s.epochs) && e.request.same(request)
                    && e.action_id.same(&x.action_id) && e.payload_digest.same(&x.payload_digest) && e.accepted
            },
            None => false,
        };
        if accepted {
            if !refresh {
                let ghost xs0 = self.actions@;
                self.actions[k].apply_accepted = true;
                proof {
                    let xs = self.actions@;
                    assert(xs =~= xs0.update(k as int, LiveActionV1 { apply_accepted: true, ..xs0[k as int] }));
                    assert forall|a: int, b: int| 0 <= a < b < xs.len() implies #[trigger] xs[a].action_id@
                        != #[trigger] xs[b].action_id@ by {
                        assert(xs[a].action_id == xs0[a].action_id);
                        assert(xs[b].action_id == xs0[b].action_id);
                        assert(xs0[a].action_id@ != xs0[b].action_id@);
                    }
                    assert forall|a: int, b: int| 0 <= a < b < xs.len() implies #[trigger] xs[a].session_id@
                        != #[trigger] xs[b].session_id@ by {
                        assert(xs[a].session_id == xs0[a].session_id);
                        assert(xs[b].session_id == xs0[b].session_id);
                        assert(xs0[a].session_id@ != xs0[b].session_id@);
                    }
                }
            }
            Ok(())
        } else {
            let root = self.sessions[i].root_id.duplicate();
            self.close_root(&root);
            Err(AppError::InvalidInput("Fake lane refused or disposition unknown"))
        }
    }

    /// Closes every session, grant and action of root `root`.
    pub fn close_root(&mut self, root: &RootId)
        requires
            old(self).wf(),
        ensures
            old(self).evolves_to(&*final(self)),
            final(self).wf(),
            old(self).closes_root(&*final(self), root@),
    {
        broadcast use lemma_closing_evolves, lemma_closing_with_evolves, lemma_sessions_evolve, lemma_actions_evolve;

        let ghost ss0 = self.sessions@;
        let ghost gs0 = self.grants@;
        let ghost xs0 = self.actions@;
        let ghost cs0 = self.challenges@;
        let ghost os0 = self.observations@;
        let ghost seen0 = self.seen@;
        let ghost ps0 = self.operations@;
        let mut i: usize = 0;
        while i < self.sessions.len()
            invariant
                i <= self.sessions@.len(),
                self.sessions@.len() == ss0.len(),
                forall|k: int| 0 <= k < i ==> #[trigger] self.sessions@[k] == closed_sessions(ss0, root@)[k],
                forall|k: int| i <= k < ss0.len() ==> #[trigger] self.sessions@[k] == ss0[k],
                self.grants@ == gs0,
                self.actions@ == xs0,
                self.challenges@ == cs0,
                self.observations@ == os0,
                self.seen@ == seen0,
                self.operations@ == ps0,
            decreases ss0.len() - i,
        {
            if self.sessions[i].root_id.same(root) {
                self.sessions[i].valid = false;
            }
            i = i + 1;
        }
        assert(self.sessions@ =~= closed_sessions(ss0, root@));
        let mut i: usize = 0;
        while i < self.grants.len()
            invariant
                i <= self.grants@.len(),
                self.grants@.len() == gs0.len(),
                forall|k: int| 0 <= k < i ==> #[trigger] self.grants@[k] == closed_grants(gs0, root@)[k],
                forall|k: int| i <= k < gs0.len() ==> #[trigger] self.grants@[k] == gs0[k],
                self.sessions@ == closed_sessions(ss0, root@),
                self.actions@ == xs0,
                self.challenges@ == cs0,
                self.observations@ == os0,
                self.seen@ == seen0,
                self.operations@ == ps0,
            decreases gs0.len() - i,
        {
            if self.grants[i].root_id.same(root) {
                self.grants[i].valid = false;
            }
            i = i + 1;
        }
        assert(self.grants@ =~= closed_grants(gs0, root@));
        let mut i: usize = 0;
        while i < self.actions.len()
            invariant
                i <= self.actions@.len(),
                self.actions@.len() == xs0.len(),
                forall|k: int| 0 <= k < i ==> #[trigger] self.actions@[k] == closed_actions(xs0, root@)[k],
                forall|k: int| i <= k < xs0.len() ==> #[trigger] self.actions@[k] == xs0[k],
                self.sessions@ == closed_sessions(ss0, root@),
                self.grants@ == closed_grants(gs0, root@),
                self.challenges@ == cs0,
                self.observations@ == os0,
                self.seen@ == seen0,
                self.operations@ == ps0,
            decreases xs0.len() - i,
        {
            if self.actions[i].root_id.same(root) {
                self.actions[i].valid = false;
            }
            i = i + 1;
        }
        assert(self.actions@ =~= closed_actions(xs0, root@));
        proof {
            assert(gs0 == old(self).spec_grants());
            assert(xs0 == old(self).spec_actions());
            assert(ss0 == old(self).spec_sessions());
            assert(cs0 == old(self).spec_challenges());
            assert(os0 == old(self).spec_observations());
            assert(ps0 == old(self).spec_operations());
            let ss = self.sessions@;
            let gs = self.grants@;
            let xs = self.actions@;
            assert forall|i: int, j: int| 0 <= i < j < ss.len() implies #[trigger] ss[i].session_id@ != #[trigger] ss[j].session_id@ by {
                assert(ss[i].session_id == ss0[i].session_id);
                assert(ss[j].session_id == ss0[j].session_id);
                assert(ss0[i].session_id@ != ss0[j].session_id@);
            }
            assert forall|i: int, j: int| 0 <= i < j < gs.len() implies #[trigger] gs[i].session_id@ != #[trigger] gs[j].session_id@ by {
                assert(gs[i].session_id == gs0[i].session_id);
                assert(gs[j].session_id == gs0[j].session_id);
                assert(gs0[i].session_id@ != gs0[j].session_id@);
            }
            assert forall|i: int, j: int| 0 <= i < j < gs.len() implies #[trigger] gs[i].grant_id@ != #[trigger] gs[j].grant_id@ by {
                assert(gs[i].grant_id == gs0[i].grant_id);
                assert(gs[j].grant_id == gs0[j].grant_id);
                assert(gs0[i].grant_id@ != gs0[j].grant_id@);
            }
            assert forall|i: int, j: int| 0 <= i < j < xs.len() implies #[trigger] xs[i].action_id@ != #[trigger] xs[j].action_id@ by {
                assert(xs[i].action_id == xs0[i].action_id);
                assert(xs[j].action_id == xs0[j].action_id);
                assert(xs0[i].action_id@ != xs0[j].action_id@);
            }
            assert forall|i: int, j: int| 0 <= i < j < xs.len() implies #[trigger] xs[i].session_id@ != #[trigger] xs[j].session_id@ by {
                assert(xs[i].session_id == xs0[i].session_id);
                assert(xs[j].session_id == xs0[j].session_id);
                assert(xs0[i].session_id@ != xs0[j].session_id@);
            }
        }
    }
}

/// Closing every lane of a root moves the lanes forward.
pub broadcast proof fn lemma_closing_evolves(a: ControlSessionsV1, b: ControlSessionsV1, root: Seq<char>)
    requires
        #[trigger] a.closes_root(&b, root),
    ensures
        a.evolves_to(&b),
{
}

/// Closing every lane of a root, whatever else happens to the lane
/// operations, moves the lanes forward.
pub broadcast proof fn lemma_closing_with_evolves(
    a: ControlSessionsV1,
    b: ControlSessionsV1,
    root: Seq<char>,
    ps: Seq<LaneOperationV1>,
)
    requires
        #[trigger] a.closes_root_with(&b, root, ps),
    ensures
        a.evolves_to(&b),
{
}

/// A change of the sessions alone that keeps each one moving forward
/// moves the lanes forward.
pub broadcast proof fn lemma_sessions_evolve(a: ControlSessionsV1, b: ControlSessionsV1, ss: Seq<LiveSessionV1>)
    requires
        #[trigger] a.only_sessions(&b, ss),
        a.spec_sessions().len() <= ss.len(),
        forall|i: int| 0 <= i < a.spec_sessions().len() ==> session_evolves(#[trigger] a.spec_sessions()[i], ss[i]),
    ensures
        a.evolves_to(&b),
{
}

/// A change of the actions and lane operations alone that keeps each
/// action moving forward moves the lanes forward.
pub broadcast proof fn lemma_actions_evolve(
    a: ControlSessionsV1,
    b: ControlSessionsV1,
    xs: Seq<LiveActionV1>,
    ps: Seq<LaneOperationV1>,
)
    requires
        #[trigger] a.only_actions(&b, xs, ps),
        a.spec_actions().len() <= xs.len(),
        forall|i: int| 0 <= i < a.spec_actions().len() ==> action_evolves(#[trigger] a.spec_actions()[i], xs[i]),
    ensures
        a.evolves_to(&b),
{
}

/// Whatever the operations in between, lanes only move forward: a closed
/// session, grant or action never reopens, a dispatch decision or an
/// accepted apply is never taken back, and no issued challenge or seen
/// observation identity is ever forgotten.
pub proof fn lemma_lanes_evolve_transitive(a: ControlSessionsV1, b: ControlSessionsV1, c: ControlSessionsV1)
    requires
        a.evolves_to(&b),
        b.evolves_to(&c),
    ensures
        a.evolves_to(&c),
{
    assert forall|i: int| 0 <= i < a.spec_sessions().len() implies session_evolves(#[trigger] a.spec_sessions()[i], c.spec_sessions()[i]) by {
        assert(session_evolves(a.spec_sessions()[i], b.spec_sessions()[i]));
        assert(session_evolves(b.spec_sessions()[i], c.spec_sessions()[i]));
    }
    assert forall|i: int| 0 <= i < a.spec_grants().len() implies grant_evolves(#[trigger] a.spec_grants()[i], c.spec_grants()[i]) by {
        assert(grant_evolves(a.spec_grants()[i], b.spec_grants()[i]));
        assert(grant_evolves(b.spec_grants()[i], c.spec_grants()[i]));
    }
    assert forall|i: int| 0 <= i < a.spec_actions().len() implies action_evolves(#[trigger] a.spec_actions()[i], c.spec_actions()[i]) by {
        assert(action_evolves(a.spec_actions()[i], b.spec_actions()[i]));
        assert(action_evolves(b.spec_actions()[i], c.spec_actions()[i]));
    }
}

/// An admitted action never changes its grant, session or payload: in
/// every later state of the lanes it is still admitted, and whether a
/// proposal repeats it exactly is decided as it was when it was admitted.
/// So every later proposal for it with the same payload is a duplicate, and
/// one with a changed payload is refused.
pub proof fn lemma_admission_stays_decided(
    c1: ControlSessionsV1,
    c2: ControlSessionsV1,
    g: LiveGrantV1,
    p: PhysicalActionProposalV1,
)
    requires
        c1.wf(),
        c2.wf(),
        c1.evolves_to(&c2),
        has_action(c1.spec_actions(), g.action_id@),
    ensures
        has_action(c2.spec_actions(), g.action_id@),
        same_admission(c2.spec_actions()[action_index(c2.spec_actions(), g.action_id@)], g, p)
            == same_admission(c1.spec_actions()[action_index(c1.spec_actions(), g.action_id@)], g, p),
{
    let x1 = c1.spec_actions();
    let x2 = c2.spec_actions();
    let id = g.action_id@;
    let i = action_index(x1, id);
    assert(action_at(x1, i, id));
    assert(action_evolves(x1[i], x2[i]));
    assert(action_at(x2, i, id));
    let j = action_index(x2, id);
    assert(action_at(x2, j, id));
    if i < j {
        assert(x2[i].action_id@ != x2[j].action_id@);
    } else if j < i {
        assert(x2[j].action_id@ != x2[i].action_id@);
    }
}

} // verus!
