//! The requester's ledger of native-v2 product plans: sealed revisions,
//! their single approval, and the attempts that coordinate a revision across
//! Hosts. An attempt passes a whole-plan readiness barrier, then a prepared
//! barrier, then runs; a step completes only from its authored Host, only
//! once, and only after every step it depends on.
use vstd::prelude::*;
use vstd::string::StringSliceAdditionalSpecFns;

use crate::error::{AppError, AppResult};
use crate::identity::{same_session, HostSessionBinding};
use crate::native_v2::{
    is_control, native_id, native_id_ok, NativeV2ObjectRevisionDtoV1, NativeV2PlanStatusV1,
    NativeV2ProductStateV1, MAX_LIFETIME_SECONDS,
};
use crate::hashing::{blake3_digest, blake3_hex, lower_hex};
use crate::json::{json_string, put_json_string, put_signed, signed_decimal};
use crate::natural_v2::{
    append_bytes, as_bytes, operation_name, operation_name_value, trim, trimmed_text, StepOperation,
};
use crate::network_broker::{decimal, put_decimal};
use crate::text::{byte_len, bytes_lt, seq_lt, utf8};

verus! {

/// A Host taking part in a revision, under its participant reference.
#[derive(Clone, Debug, PartialEq, Eq)]
pub struct PlanParticipantV1 {
    pub participant_ref: String,
    pub host_ref: String,
}

/// What the ledger reads of one sealed step: its identity and operation, the
/// participant that completes it (the Host of a Search, Transform or
/// Execute, the source of a Transfer), the steps it waits for, and the exact
/// object it produces (none for an Execute).
#[derive(Clone, Debug, PartialEq, Eq)]
pub struct PlanStepV1 {
    pub step_id: String,
    pub operation: StepOperation,
    pub completer: String,
    pub dependencies: Vec<String>,
    pub output: Option<NativeV2ObjectRevisionDtoV1>,
}

/// What the ledger reads of one sealed plan revision.
#[derive(Clone, Debug, PartialEq, Eq)]
pub struct PlanRevisionV1 {
    pub plan_id: String,
    pub revision_id: String,
    pub revision_hash: String,
    pub bridge_id: String,
    pub requester: String,
    pub participants: Vec<PlanParticipantV1>,
    pub steps: Vec<PlanStepV1>,
}

/// `p` is a participant of `r`.
pub open spec fn is_participant(r: PlanRevisionV1, p: Seq<char>) -> bool {
    exists|i: int| 0 <= i < r.participants@.len() && #[trigger] r.participants@[i].participant_ref@ == p
}

/// Participant `p` of `r` runs on Host `h`.
pub open spec fn hosted_at(r: PlanRevisionV1, p: Seq<char>, h: Seq<char>) -> bool {
    exists|i: int|
        0 <= i < r.participants@.len() && #[trigger] r.participants@[i].participant_ref@ == p
            && r.participants@[i].host_ref@ == h
}

/// Step `s` of `r` runs on Host `h`: its completing participant is there.
pub open spec fn runs_on(r: PlanRevisionV1, s: PlanStepV1, h: Seq<char>) -> bool {
    hosted_at(r, s.completer@, h)
}

/// Participant `p` is the requester of `r` and some step of `r` runs on the
/// local Host `local`.
pub open spec fn requester_local_step(r: PlanRevisionV1, p: Seq<char>, local: Seq<char>) -> bool {
    r.requester@ == p && exists|k: int| 0 <= k < r.steps@.len() && runs_on(r, #[trigger] r.steps@[k], local)
}

/// The participant at `i` precedes the next one in the byte order of their
/// references.
pub open spec fn participant_precedes(r: PlanRevisionV1, i: int) -> bool {
    seq_lt(utf8(r.participants@[i].participant_ref@), utf8(r.participants@[i + 1].participant_ref@))
}

/// A sealed revision as the ledger relies on it: distinct participants in
/// the byte order of their references, the requester among them, distinct
/// step identities, every step completed by a participant, and an output
/// exactly for the steps that are no Execute.
pub open spec fn revision_ok(r: PlanRevisionV1) -> bool {
    &&& forall|i: int| 0 <= i < r.participants@.len() - 1 ==> #[trigger] participant_precedes(r, i)
    &&& forall|i: int, j: int|
        0 <= i < j < r.participants@.len() ==> #[trigger] r.participants@[i].participant_ref@
            != #[trigger] r.participants@[j].participant_ref@
    &&& is_participant(r, r.requester@)
    &&& forall|i: int, j: int|
        0 <= i < j < r.steps@.len() ==> #[trigger] r.steps@[i].step_id@ != #[trigger] r.steps@[j].step_id@
    &&& forall|k: int| 0 <= k < r.steps@.len() ==> is_participant(r, #[trigger] r.steps@[k].completer@)
    &&& forall|k: int|
        0 <= k < r.steps@.len() ==> ((#[trigger] r.steps@[k]).operation == StepOperation::Execute
            <==> r.steps@[k].output is None)
    &&& r.participants@.len() <= u32::MAX
    &&& r.steps@.len() <= u32::MAX
}

pub(crate) fn same_text(a: &str, b: &str) -> (r: bool)
    ensures
        r == (a@ == b@),
{
    String::from_str(a) == String::from_str(b)
}

/// The position of participant `p` in `r`.
pub fn find_participant(r: &PlanRevisionV1, p: &str) -> (k: Option<usize>)
    ensures
        k matches Some(i) ==> i < r.participants@.len() && r.participants@[i as int].participant_ref@
            == p@,
        k is None ==> !is_participant(*r, p@),
{
    let mut i: usize = 0;
    while i < r.participants.len()
        invariant
            i <= r.participants@.len(),
            forall|j: int| 0 <= j < i ==> #[trigger] r.participants@[j].participant_ref@ != p@,
        decreases r.participants@.len() - i,
    {
        if same_text(r.participants[i].participant_ref.as_str(), p) {
            return Some(i);
        }
        i = i + 1;
    }
    None
}

/// The position of the step named `step_id` in `r`.
pub fn find_step(r: &PlanRevisionV1, step_id: &str) -> (k: Option<usize>)
    ensures
        k matches Some(i) ==> i < r.steps@.len() && r.steps@[i as int].step_id@ == step_id@,
        k is None ==> forall|j: int| 0 <= j < r.steps@.len() ==> #[trigger] r.steps@[j].step_id@ != step_id@,
{
    let mut i: usize = 0;
    while i < r.steps.len()
        invariant
            i <= r.steps@.len(),
            forall|j: int| 0 <= j < i ==> #[trigger] r.steps@[j].step_id@ != step_id@,
        decreases r.steps@.len() - i,
    {
        if same_text(r.steps[i].step_id.as_str(), step_id) {
            return Some(i);
        }
        i = i + 1;
    }
    None
}

/// With distinct participants, the Host of the participant at `i` is the
/// only Host it runs on.
pub proof fn lemma_hosted_at_index(r: PlanRevisionV1, i: int, h: Seq<char>)
    requires
        revision_ok(r),
        0 <= i < r.participants@.len(),
    ensures
        hosted_at(r, r.participants@[i].participant_ref@, h) <==> r.participants@[i].host_ref@ == h,
{
    if hosted_at(r, r.participants@[i].participant_ref@, h) {
        let j = choose|j: int|
            0 <= j < r.participants@.len() && #[trigger] r.participants@[j].participant_ref@
                == r.participants@[i].participant_ref@ && r.participants@[j].host_ref@ == h;
        if j < i {
            assert(r.participants@[j].participant_ref@ != r.participants@[i].participant_ref@);
        } else if i < j {
            assert(r.participants@[i].participant_ref@ != r.participants@[j].participant_ref@);
        }
    }
}

/// Whether step `k` of `r` runs on Host `host`.
pub fn step_runs_on_host(r: &PlanRevisionV1, k: usize, host: &str) -> (b: bool)
    requires
        revision_ok(*r),
        k < r.steps@.len(),
    ensures
        b == runs_on(*r, r.steps@[k as int], host@),
{
    let found = find_participant(r, r.steps[k].completer.as_str());
    match found {
        Some(i) => {
            proof {
                lemma_hosted_at_index(*r, i as int, host@);
            }
            same_text(r.participants[i].host_ref.as_str(), host)
        },
        None => false,
    }
}

/// Whether participant `p` is the requester of `r` and some step of `r` runs
/// on the local Host.
pub fn requester_has_local_step(r: &PlanRevisionV1, p: &str, local: &str) -> (b: bool)
    requires
        revision_ok(*r),
    ensures
        b == requester_local_step(*r, p@, local@),
{
    if !same_text(r.requester.as_str(), p) {
        return false;
    }
    let mut k: usize = 0;
    while k < r.steps.len()
        invariant
            revision_ok(*r),
            r.requester@ == p@,
            k <= r.steps@.len(),
            forall|j: int| 0 <= j < k ==> !runs_on(*r, #[trigger] r.steps@[j], local@),
        decreases r.steps@.len() - k,
    {
        if step_runs_on_host(r, k, local) {
            return true;
        }
        k = k + 1;
    }
    false
}

/// `Ok` exactly when `r` is a revision the ledger can rely on.
pub fn validate_revision(r: &PlanRevisionV1) -> (res: AppResult<()>)
    ensures
        res is Ok <==> revision_ok(*r),
        res is Err ==> res == Err::<(), AppError>(
            AppError::InvalidInput("Native v2 product revision is not sealed."),
        ),
{
    if r.participants.len() > 4294967295 || r.steps.len() > 4294967295 {
        return Err(AppError::InvalidInput("Native v2 product revision is not sealed."));
    }
    let n = r.participants.len();
    let mut i: usize = 0;
    while i < n
        invariant
            n == r.participants@.len(),
            i <= n,
            forall|a: int, b: int|
                0 <= a < b < n && a < i ==> #[trigger] r.participants@[a].participant_ref@
                    != #[trigger] r.participants@[b].participant_ref@,
        decreases n - i,
    {
        let mut j: usize = i + 1;
        while j < n
            invariant
                n == r.participants@.len(),
                i < n,
                i + 1 <= j <= n,
                forall|a: int, b: int|
                    0 <= a < b < n && a < i ==> #[trigger] r.participants@[a].participant_ref@
                        != #[trigger] r.participants@[b].participant_ref@,
                forall|b: int|
                    i < b < j ==> r.participants@[i as int].participant_ref@
                        != #[trigger] r.participants@[b].participant_ref@,
            decreases n - j,
        {
            if same_text(r.participants[i].participant_ref.as_str(), r.participants[j].participant_ref.as_str()) {
                return Err(AppError::InvalidInput("Native v2 product revision is not sealed."));
            }
            j = j + 1;
        }
        i = i + 1;
    }
    let mut i: usize = 0;
    while i < n && i + 1 < n
        invariant
            n == r.participants@.len(),
            i <= n,
            forall|a: int| 0 <= a < i && a < n - 1 ==> #[trigger] participant_precedes(*r, a),
        decreases n - i,
    {
        let sa = r.participants[i].participant_ref.as_str();
        let sb = r.participants[i + 1].participant_ref.as_str();
        let a = sa.as_bytes();
        let b = sb.as_bytes();
        proof {
            assert(a@ == sa.spec_bytes());
            assert(b@ == sb.spec_bytes());
        }
        if !bytes_lt(a, b) {
            assert(!participant_precedes(*r, i as int));
            return Err(AppError::InvalidInput("Native v2 product revision is not sealed."));
        }
        i = i + 1;
    }
    if find_participant(r, r.requester.as_str()).is_none() {
        return Err(AppError::InvalidInput("Native v2 product revision is not sealed."));
    }
    let m = r.steps.len();
    let mut i: usize = 0;
    while i < m
        invariant
            m == r.steps@.len(),
            i <= m,
            forall|a: int, b: int|
                0 <= a < b < m && a < i ==> #[trigger] r.steps@[a].step_id@ != #[trigger] r.steps@[b].step_id@,
            forall|k: int| 0 <= k < i ==> is_participant(*r, #[trigger] r.steps@[k].completer@),
            forall|k: int|
                0 <= k < i ==> ((#[trigger] r.steps@[k]).operation == StepOperation::Execute
                    <==> r.steps@[k].output is None),
        decreases m - i,
    {
        let mut j: usize = i + 1;
        while j < m
            invariant
                m == r.steps@.len(),
                i < m,
                i + 1 <= j <= m,
                forall|a: int, b: int|
                    0 <= a < b < m && a < i ==> #[trigger] r.steps@[a].step_id@
                        != #[trigger] r.steps@[b].step_id@,
                forall|b: int| i < b < j ==> r.steps@[i as int].step_id@ != #[trigger] r.steps@[b].step_id@,
            decreases m - j,
        {
            if same_text(r.steps[i].step_id.as_str(), r.steps[j].step_id.as_str()) {
                return Err(AppError::InvalidInput("Native v2 product revision is not sealed."));
            }
            j = j + 1;
        }
        if find_participant(r, r.steps[i].completer.as_str()).is_none() {
            return Err(AppError::InvalidInput("Native v2 product revision is not sealed."));
        }
        let execute = match r.steps[i].operation {
            StepOperation::Execute => true,
            _ => false,
        };
        if execute != r.steps[i].output.is_none() {
            return Err(AppError::InvalidInput("Native v2 product revision is not sealed."));
        }
        i = i + 1;
    }
    Ok(())
}

/// The schema of a product status.
pub const PRODUCT_SCHEMA_VERSION: &'static str = "pastey-native-v2-product-v1";

/// Whether a Host reported itself ready for an attempt.
#[derive(Clone, Copy, Debug, PartialEq, Eq, Structural)]
pub enum ReadinessStateV1 {
    Pending,
    Ready,
    Unavailable,
}

/// Where a Host's admission of an attempt stands.
#[derive(Clone, Copy, Debug, PartialEq, Eq, Structural)]
pub enum AdmissionStateV1 {
    Pending,
    Prepared,
    Committed,
    Cancelled,
}

/// Where one step of an attempt stands.
#[derive(Clone, Copy, Debug, PartialEq, Eq, Structural)]
pub enum StepStateV1 {
    Pending,
    Eligible,
    Running,
    Completed,
    Failed,
    Interrupted,
    Cancelled,
}

/// An authenticated session to a peer Host and the reference under which
/// the transport bound it.
#[derive(Clone, Debug, PartialEq, Eq)]
pub struct ProductSessionV1 {
    pub binding_ref: String,
    pub binding: HostSessionBinding,
}

/// The approval of a revision.
#[derive(Clone, Debug, PartialEq, Eq)]
pub struct ProductApprovalV1 {
    pub approval_id: String,
    pub expires_at: i64,
}

/// The requester's approval of one exact revision, as handed out.
#[derive(Clone, Debug, PartialEq, Eq)]
pub struct NativeV2ApprovalV1 {
    pub approval_id: String,
    pub plan_id: String,
    pub revision_id: String,
    pub revision_hash: String,
    pub bridge_id: String,
    pub requester: String,
    pub expires_at: i64,
}

/// A stored revision, where it stands, and its approval once given.
#[derive(Clone, Debug, PartialEq, Eq)]
pub struct ProductRevisionRecordV1 {
    pub revision: PlanRevisionV1,
    pub state: NativeV2ProductStateV1,
    pub failure_code: Option<String>,
    pub updated_at: i64,
    pub approval: Option<ProductApprovalV1>,
}

/// One participant Host of an attempt. A remote Host carries the session it
/// was reached over and the correlation of its review.
#[derive(Clone, Debug, PartialEq, Eq)]
pub struct ProductHostV1 {
    pub participant_ref: String,
    pub host_ref: String,
    pub session: Option<ProductSessionV1>,
    pub correlation_id: Option<String>,
    pub readiness: ReadinessStateV1,
    pub admission: AdmissionStateV1,
    pub readiness_code: Option<String>,
    pub admission_ref: Option<String>,
}

/// One step of an attempt and the completion that closed it.
#[derive(Clone, Debug, PartialEq, Eq)]
pub struct ProductStepV1 {
    pub step_id: String,
    pub state: StepStateV1,
    pub completion_ref: Option<String>,
}

/// One attempt to run an approved revision. `revision_index` is the
/// position of its revision in the ledger.
#[derive(Clone, Debug, PartialEq, Eq)]
pub struct ProductAttemptV1 {
    pub attempt_id: String,
    pub approval_id: String,
    pub revision_id: String,
    pub revision_hash: String,
    pub revision_index: usize,
    pub state: NativeV2ProductStateV1,
    pub failure_code: Option<String>,
    pub expires_at: i64,
    pub created_at: i64,
    pub updated_at: i64,
    pub hosts: Vec<ProductHostV1>,
    pub steps: Vec<ProductStepV1>,
}

/// An attempt that is still coordinating.
pub open spec fn is_active(s: NativeV2ProductStateV1) -> bool {
    s == NativeV2ProductStateV1::CheckingReadiness || s == NativeV2ProductStateV1::Preparing
        || s == NativeV2ProductStateV1::Running
}

/// A state no attempt leaves.
pub open spec fn is_terminal(s: NativeV2ProductStateV1) -> bool {
    s == NativeV2ProductStateV1::Completed || s == NativeV2ProductStateV1::Failed
        || s == NativeV2ProductStateV1::Interrupted || s == NativeV2ProductStateV1::Cancelled
}

pub open spec fn all_ready(hs: Seq<ProductHostV1>) -> bool {
    forall|i: int| 0 <= i < hs.len() ==> (#[trigger] hs[i]).readiness == ReadinessStateV1::Ready
}

pub open spec fn all_committed(hs: Seq<ProductHostV1>) -> bool {
    forall|i: int| 0 <= i < hs.len() ==> (#[trigger] hs[i]).admission == AdmissionStateV1::Committed
}

pub open spec fn all_completed(ss: Seq<ProductStepV1>) -> bool {
    forall|i: int| 0 <= i < ss.len() ==> (#[trigger] ss[i]).state == StepStateV1::Completed
}

/// The step named `id` is completed in `ss`.
pub open spec fn step_done(ss: Seq<ProductStepV1>, id: Seq<char>) -> bool {
    exists|j: int| 0 <= j < ss.len() && #[trigger] ss[j].step_id@ == id && ss[j].state == StepStateV1::Completed
}

/// Every step that plan step `s` depends on is completed in `ss`.
pub open spec fn dependencies_done(s: PlanStepV1, ss: Seq<ProductStepV1>) -> bool {
    forall|d: int| 0 <= d < s.dependencies@.len() ==> step_done(ss, #[trigger] s.dependencies@[d]@)
}

/// Every completed step of an attempt of `r` completed after all it
/// depends on.
pub open spec fn completions_ordered(r: PlanRevisionV1, ss: Seq<ProductStepV1>) -> bool {
    forall|k: int|
        0 <= k < ss.len() && (#[trigger] ss[k]).state == StepStateV1::Completed ==> dependencies_done(
            r.steps@[k],
            ss,
        )
}

/// Every eligible step of an attempt of `r` waits on nothing unfinished.
pub open spec fn eligibility_ordered(r: PlanRevisionV1, ss: Seq<ProductStepV1>) -> bool {
    forall|k: int|
        0 <= k < ss.len() && (#[trigger] ss[k]).state == StepStateV1::Eligible ==> dependencies_done(
            r.steps@[k],
            ss,
        )
}

/// The hosts of an attempt are the participants of `r`, in order.
pub open spec fn hosts_aligned(r: PlanRevisionV1, hs: Seq<ProductHostV1>) -> bool {
    &&& hs.len() == r.participants@.len()
    &&& forall|i: int|
        0 <= i < hs.len() ==> (#[trigger] hs[i]).participant_ref@ == r.participants@[i].participant_ref@
            && hs[i].host_ref@ == r.participants@[i].host_ref@
}

/// The steps of an attempt are the steps of `r`, in order.
pub open spec fn steps_aligned(r: PlanRevisionV1, ss: Seq<ProductStepV1>) -> bool {
    &&& ss.len() == r.steps@.len()
    &&& forall|i: int| 0 <= i < ss.len() ==> (#[trigger] ss[i]).step_id@ == r.steps@[i].step_id@
}

/// An attempt of revision record `rec`: aligned with it, under its approval,
/// past the readiness barrier only with every Host ready, past the prepared
/// barrier only with every Host committed, completed only with every step
/// completed, and every step completed, or eligible, only after what it
/// depends on.
pub open spec fn attempt_consistent(a: ProductAttemptV1, rec: ProductRevisionRecordV1) -> bool {
    let r = rec.revision;
    &&& a.revision_id@ == r.revision_id@
    &&& a.revision_hash@ == r.revision_hash@
    &&& rec.approval is Some
    &&& rec.approval.unwrap().approval_id@ == a.approval_id@
    &&& hosts_aligned(r, a.hosts@)
    &&& steps_aligned(r, a.steps@)
    &&& (a.state == NativeV2ProductStateV1::Preparing || a.state == NativeV2ProductStateV1::Running
        || a.state == NativeV2ProductStateV1::Completed) ==> all_ready(a.hosts@)
    &&& (a.state == NativeV2ProductStateV1::Running || a.state == NativeV2ProductStateV1::Completed)
        ==> all_committed(a.hosts@)
    &&& a.state == NativeV2ProductStateV1::Completed ==> all_completed(a.steps@)
    &&& is_active(a.state) || is_terminal(a.state)
    &&& completions_ordered(r, a.steps@)
    &&& eligibility_ordered(r, a.steps@)
}

pub open spec fn revision_at(rs: Seq<ProductRevisionRecordV1>, i: int, id: Seq<char>) -> bool {
    0 <= i < rs.len() && rs[i].revision.revision_id@ == id
}

pub open spec fn has_revision(rs: Seq<ProductRevisionRecordV1>, id: Seq<char>) -> bool {
    exists|i: int| #[trigger] revision_at(rs, i, id)
}

pub open spec fn approval_at(rs: Seq<ProductRevisionRecordV1>, i: int, id: Seq<char>) -> bool {
    &&& 0 <= i < rs.len()
    &&& rs[i].approval is Some
    &&& rs[i].approval.unwrap().approval_id@ == id
}

pub open spec fn has_approval(rs: Seq<ProductRevisionRecordV1>, id: Seq<char>) -> bool {
    exists|i: int| #[trigger] approval_at(rs, i, id)
}

pub open spec fn attempt_at(xs: Seq<ProductAttemptV1>, i: int, id: Seq<char>) -> bool {
    0 <= i < xs.len() && xs[i].attempt_id@ == id
}

pub open spec fn has_attempt(xs: Seq<ProductAttemptV1>, id: Seq<char>) -> bool {
    exists|i: int| #[trigger] attempt_at(xs, i, id)
}

/// Distinct revisions, each sealed, approved at most once and exactly when
/// no longer a draft; distinct approvals and attempts; every attempt
/// consistent with its revision.
pub open spec fn ledger_ok(rs: Seq<ProductRevisionRecordV1>, xs: Seq<ProductAttemptV1>) -> bool {
    &&& forall|i: int, j: int|
        0 <= i < j < rs.len() ==> #[trigger] rs[i].revision.revision_id@ != #[trigger] rs[j].revision.revision_id@
    &&& forall|i: int| 0 <= i < rs.len() ==> revision_ok((#[trigger] rs[i]).revision)
    &&& forall|i: int|
        0 <= i < rs.len() ==> ((#[trigger] rs[i]).state == NativeV2ProductStateV1::Draft <==> rs[i].approval is None)
    &&& forall|i: int, j: int|
        0 <= i < j < rs.len() && (#[trigger] rs[i]).approval is Some && (#[trigger] rs[j]).approval is Some
            ==> rs[i].approval.unwrap().approval_id@ != rs[j].approval.unwrap().approval_id@
    &&& forall|i: int, j: int| 0 <= i < j < xs.len() ==> #[trigger] xs[i].attempt_id@ != #[trigger] xs[j].attempt_id@
    &&& forall|i: int|
        0 <= i < xs.len() ==> (#[trigger] xs[i]).revision_index < rs.len() && attempt_consistent(
            xs[i],
            rs[xs[i].revision_index as int],
        )
}

/// `after` holds the revisions of `before`, each with the same content and
/// approval, and a draft exactly where it was one.
pub open spec fn same_revisions(before: Seq<ProductRevisionRecordV1>, after: Seq<ProductRevisionRecordV1>) -> bool {
    &&& after.len() == before.len()
    &&& forall|j: int|
        0 <= j < after.len() ==> (#[trigger] after[j]).revision == before[j].revision && after[j].approval
            == before[j].approval && (after[j].state == NativeV2ProductStateV1::Draft <==> before[j].state
            == NativeV2ProductStateV1::Draft)
}

/// Moving states keeps the ledger well formed when every attempt keeps its
/// identity and revision and stays consistent with it.
pub proof fn lemma_ledger_ok_step(
    rs0: Seq<ProductRevisionRecordV1>,
    xs0: Seq<ProductAttemptV1>,
    rs1: Seq<ProductRevisionRecordV1>,
    xs1: Seq<ProductAttemptV1>,
)
    requires
        ledger_ok(rs0, xs0),
        same_revisions(rs0, rs1),
        xs1.len() == xs0.len(),
        forall|j: int|
            0 <= j < xs1.len() ==> (#[trigger] xs1[j]).attempt_id@ == xs0[j].attempt_id@ && xs1[j].revision_index
                == xs0[j].revision_index && attempt_consistent(xs1[j], rs1[xs1[j].revision_index as int]),
    ensures
        ledger_ok(rs1, xs1),
{
    assert forall|i: int, j: int|
        0 <= i < j < rs1.len() implies #[trigger] rs1[i].revision.revision_id@
            != #[trigger] rs1[j].revision.revision_id@ by {
        assert(rs1[i].revision == rs0[i].revision && rs1[j].revision == rs0[j].revision);
    }
    assert forall|i: int| 0 <= i < rs1.len() implies revision_ok((#[trigger] rs1[i]).revision) by {
        assert(rs1[i].revision == rs0[i].revision);
    }
    assert forall|i: int|
        0 <= i < rs1.len() implies ((#[trigger] rs1[i]).state == NativeV2ProductStateV1::Draft
            <==> rs1[i].approval is None) by {
        assert(rs1[i].approval == rs0[i].approval);
    }
    assert forall|i: int, j: int|
        0 <= i < j < rs1.len() && (#[trigger] rs1[i]).approval is Some && (#[trigger] rs1[j]).approval is Some
            implies rs1[i].approval.unwrap().approval_id@ != rs1[j].approval.unwrap().approval_id@ by {
        assert(rs1[i].approval == rs0[i].approval && rs1[j].approval == rs0[j].approval);
        assert(rs0[i].approval is Some && rs0[j].approval is Some);
    }
    assert forall|i: int, j: int| 0 <= i < j < xs1.len() implies #[trigger] xs1[i].attempt_id@
        != #[trigger] xs1[j].attempt_id@ by {
        assert(xs0[i].attempt_id@ != xs0[j].attempt_id@);
    }
}

/// An attempt stays consistent with a revision record whose content and
/// approval did not change.
pub proof fn lemma_consistent_same_record(a: ProductAttemptV1, rec0: ProductRevisionRecordV1, rec1: ProductRevisionRecordV1)
    requires
        attempt_consistent(a, rec0),
        rec1.revision == rec0.revision,
        rec1.approval == rec0.approval,
    ensures
        attempt_consistent(a, rec1),
{
}

/// A later state of an attempt: the same identity and revision, the same
/// state once it ended, and every completed step still completed.
pub open spec fn attempt_evolves(a: ProductAttemptV1, b: ProductAttemptV1) -> bool {
    &&& b.attempt_id@ == a.attempt_id@
    &&& b.revision_index == a.revision_index
    &&& is_terminal(a.state) ==> b.state == a.state
    &&& b.steps@.len() == a.steps@.len()
    &&& forall|k: int|
        0 <= k < a.steps@.len() && (#[trigger] a.steps@[k]).state == StepStateV1::Completed ==> b.steps@[k].state
            == StepStateV1::Completed
}

/// A later state of a revision record: the same content, the same approval
/// once given, and the same state once it ended.
pub open spec fn revision_evolves(a: ProductRevisionRecordV1, b: ProductRevisionRecordV1) -> bool {
    &&& b.revision == a.revision
    &&& a.approval is Some ==> b.approval == a.approval
    &&& is_terminal(a.state) ==> b.state == a.state
}

/// The requester's product plans.
pub struct NativeV2ProductLedgerV1 {
    protocol_version: String,
    revisions: Vec<ProductRevisionRecordV1>,
    attempts: Vec<ProductAttemptV1>,
}

impl NativeV2ProductLedgerV1 {
    pub closed spec fn spec_protocol(&self) -> Seq<char> {
        self.protocol_version@
    }

    pub closed spec fn spec_revisions(&self) -> Seq<ProductRevisionRecordV1> {
        self.revisions@
    }

    pub closed spec fn spec_attempts(&self) -> Seq<ProductAttemptV1> {
        self.attempts@
    }

    /// Distinct revisions, each sealed, approved at most once and exactly
    /// when no longer a draft; distinct approvals and attempts; every
    /// attempt consistent with its revision.
    pub open spec fn wf(&self) -> bool {
        ledger_ok(self.spec_revisions(), self.spec_attempts())
    }

    /// Every earlier revision and attempt moved forward only; new ones may
    /// follow.
    pub open spec fn evolves_to(&self, other: &NativeV2ProductLedgerV1) -> bool {
        &&& self.spec_protocol() == other.spec_protocol()
        &&& self.spec_revisions().len() <= other.spec_revisions().len()
        &&& self.spec_attempts().len() <= other.spec_attempts().len()
        &&& forall|i: int|
            0 <= i < self.spec_revisions().len() ==> revision_evolves(
                #[trigger] self.spec_revisions()[i],
                other.spec_revisions()[i],
            )
        &&& forall|i: int|
            0 <= i < self.spec_attempts().len() ==> attempt_evolves(
                #[trigger] self.spec_attempts()[i],
                other.spec_attempts()[i],
            )
    }

    /// An empty ledger that speaks protocol `protocol_version`.
    pub fn new(protocol_version: String) -> (r: NativeV2ProductLedgerV1)
        ensures
            r.wf(),
            r.spec_protocol() == protocol_version@,
            r.spec_revisions().len() == 0,
            r.spec_attempts().len() == 0,
    {
        NativeV2ProductLedgerV1 { protocol_version, revisions: Vec::new(), attempts: Vec::new() }
    }

    fn find_revision(&self, id: &str) -> (r: Option<usize>)
        requires
            self.wf(),
        ensures
            r matches Some(i) ==> revision_at(self.spec_revisions(), i as int, id@),
            r is None ==> !has_revision(self.spec_revisions(), id@),
    {
        let mut i: usize = 0;
        while i < self.revisions.len()
            invariant
                i <= self.revisions@.len(),
                forall|k: int| 0 <= k < i ==> !#[trigger] revision_at(self.revisions@, k, id@),
            decreases self.revisions@.len() - i,
        {
            if same_text(self.revisions[i].revision.revision_id.as_str(), id) {
                return Some(i);
            }
            i = i + 1;
        }
        None
    }

    fn find_approval(&self, id: &str) -> (r: Option<usize>)
        requires
            self.wf(),
        ensures
            r matches Some(i) ==> approval_at(self.spec_revisions(), i as int, id@),
            r is None ==> !has_approval(self.spec_revisions(), id@),
    {
        let mut i: usize = 0;
        while i < self.revisions.len()
            invariant
                i <= self.revisions@.len(),
                forall|k: int| 0 <= k < i ==> !#[trigger] approval_at(self.revisions@, k, id@),
            decreases self.revisions@.len() - i,
        {
            match &self.revisions[i].approval {
                Some(p) => {
                    if same_text(p.approval_id.as_str(), id) {
                        return Some(i);
                    }
                },
                None => {},
            }
            i = i + 1;
        }
        None
    }

    fn find_attempt(&self, id: &str) -> (r: Option<usize>)
        requires
            self.wf(),
        ensures
            r matches Some(i) ==> attempt_at(self.spec_attempts(), i as int, id@),
            r is None ==> !has_attempt(self.spec_attempts(), id@),
    {
        let mut i: usize = 0;
        while i < self.attempts.len()
            invariant
                i <= self.attempts@.len(),
                forall|k: int| 0 <= k < i ==> !#[trigger] attempt_at(self.attempts@, k, id@),
            decreases self.attempts@.len() - i,
        {
            if same_text(self.attempts[i].attempt_id.as_str(), id) {
                return Some(i);
            }
            i = i + 1;
        }
        None
    }
}

/// The number of completed steps in `ss`.
pub open spec fn count_completed(ss: Seq<ProductStepV1>) -> nat
    decreases ss.len(),
{
    if ss.len() == 0 {
        0
    } else {
        count_completed(ss.drop_last()) + if ss.last().state == StepStateV1::Completed {
            1nat
        } else {
            0nat
        }
    }
}

/// The number of ready Hosts in `hs`.
pub open spec fn count_ready(hs: Seq<ProductHostV1>) -> nat
    decreases hs.len(),
{
    if hs.len() == 0 {
        0
    } else {
        count_ready(hs.drop_last()) + if hs.last().readiness == ReadinessStateV1::Ready {
            1nat
        } else {
            0nat
        }
    }
}

/// A step that may run now or is running.
pub open spec fn is_current(s: StepStateV1) -> bool {
    s == StepStateV1::Eligible || s == StepStateV1::Running
}

/// The position of the first current step in `ss`.
pub open spec fn first_current(ss: Seq<ProductStepV1>) -> Option<int>
    decreases ss.len(),
{
    if ss.len() == 0 {
        None
    } else {
        match first_current(ss.drop_last()) {
            Some(k) => Some(k),
            None => if is_current(ss.last().state) {
                Some(ss.len() - 1)
            } else {
                None
            },
        }
    }
}

/// The attempt of the revision at `ri` that a status reports: the one
/// created last, and of those created at the same time the one recorded
/// last.
pub open spec fn latest_attempt(xs: Seq<ProductAttemptV1>, ri: int) -> Option<int>
    decreases xs.len(),
{
    if xs.len() == 0 {
        None
    } else {
        let prev = latest_attempt(xs.drop_last(), ri);
        let k = xs.len() - 1;
        if xs[k].revision_index == ri && (prev is None || xs[prev.unwrap()].created_at
            <= xs[k].created_at) {
            Some(k)
        } else {
            prev
        }
    }
}

pub open spec fn same_opt_text(a: Option<String>, b: Option<String>) -> bool {
    match (a, b) {
        (Some(x), Some(y)) => x@ == y@,
        (None, None) => true,
        _ => false,
    }
}

/// `s` is the status of the revision at `ri`: its identities, approval,
/// state, failure code and time of change; with its reported attempt, that
/// attempt's completed and total steps, its first current step and its
/// ready and total Hosts; without one, nothing counted but the revision's
/// steps.
pub open spec fn status_ok(
    s: NativeV2PlanStatusV1,
    rs: Seq<ProductRevisionRecordV1>,
    xs: Seq<ProductAttemptV1>,
    ri: int,
) -> bool {
    let rec = rs[ri];
    &&& s.schema_version@ == PRODUCT_SCHEMA_VERSION@
    &&& s.plan_id@ == rec.revision.plan_id@
    &&& s.revision_id@ == rec.revision.revision_id@
    &&& s.revision_hash@ == rec.revision.revision_hash@
    &&& match rec.approval {
        Some(p) => s.approval_id is Some && s.approval_id.unwrap()@ == p.approval_id@,
        None => s.approval_id is None,
    }
    &&& s.state == rec.state
    &&& same_opt_text(s.code, rec.failure_code)
    &&& s.updated_at == rec.updated_at
    &&& match latest_attempt(xs, ri) {
        Some(k) => {
            let a = xs[k];
            &&& s.attempt_id is Some && s.attempt_id.unwrap()@ == a.attempt_id@
            &&& s.completed_steps == count_completed(a.steps@)
            &&& s.total_steps == a.steps@.len()
            &&& s.ready_hosts == count_ready(a.hosts@)
            &&& s.total_hosts == a.hosts@.len()
            &&& match first_current(a.steps@) {
                Some(j) => s.current_step_id is Some && s.current_step_id.unwrap()@
                    == a.steps@[j].step_id@,
                None => s.current_step_id is None,
            }
        },
        None => {
            &&& s.attempt_id is None
            &&& s.completed_steps == 0
            &&& s.total_steps == rec.revision.steps@.len()
            &&& s.ready_hosts == 0
            &&& s.total_hosts == 0
            &&& s.current_step_id is None
        },
    }
}

/// `expires_at` lies after `now` and at most one lifetime later.
pub open spec fn expiry_ok(expires_at: i64, now: i64) -> bool {
    now < expires_at && expires_at <= now + MAX_LIFETIME_SECONDS
}

pub(crate) fn expiry_within(expires_at: i64, now: i64) -> (b: bool)
    ensures
        b == expiry_ok(expires_at, now),
{
    if expires_at <= now {
        return false;
    }
    if now <= i64::MAX - MAX_LIFETIME_SECONDS {
        expires_at <= now + MAX_LIFETIME_SECONDS
    } else {
        true
    }
}

pub open spec fn revision_index(rs: Seq<ProductRevisionRecordV1>, id: Seq<char>) -> int {
    choose|i: int| revision_at(rs, i, id)
}

pub open spec fn approval_index(rs: Seq<ProductRevisionRecordV1>, id: Seq<char>) -> int {
    choose|i: int| approval_at(rs, i, id)
}

pub open spec fn attempt_index(xs: Seq<ProductAttemptV1>, id: Seq<char>) -> int {
    choose|i: int| attempt_at(xs, i, id)
}

fn copy_opt(s: &Option<String>) -> (r: Option<String>)
    ensures
        same_opt_text(r, *s),
{
    match s {
        Some(x) => Some(x.clone()),
        None => None,
    }
}

proof fn lemma_count_completed_bound(ss: Seq<ProductStepV1>)
    ensures
        count_completed(ss) <= ss.len(),
    decreases ss.len(),
{
    if ss.len() > 0 {
        lemma_count_completed_bound(ss.drop_last());
    }
}

proof fn lemma_count_ready_bound(hs: Seq<ProductHostV1>)
    ensures
        count_ready(hs) <= hs.len(),
    decreases hs.len(),
{
    if hs.len() > 0 {
        lemma_count_ready_bound(hs.drop_last());
    }
}

fn completed_count(ss: &Vec<ProductStepV1>) -> (n: u32)
    requires
        ss@.len() <= u32::MAX,
    ensures
        n == count_completed(ss@),
{
    let mut n: u32 = 0;
    let mut i: usize = 0;
    while i < ss.len()
        invariant
            i <= ss@.len() <= u32::MAX,
            n == count_completed(ss@.take(i as int)),
            n <= i,
        decreases ss@.len() - i,
    {
        proof {
            assert(ss@.take(i + 1).drop_last() =~= ss@.take(i as int));
        }
        match ss[i].state {
            StepStateV1::Completed => {
                n = n + 1;
            },
            _ => {},
        }
        i = i + 1;
    }
    proof {
        assert(ss@.take(i as int) =~= ss@);
    }
    n
}

fn ready_count(hs: &Vec<ProductHostV1>) -> (n: u32)
    requires
        hs@.len() <= u32::MAX,
    ensures
        n == count_ready(hs@),
{
    let mut n: u32 = 0;
    let mut i: usize = 0;
    while i < hs.len()
        invariant
            i <= hs@.len() <= u32::MAX,
            n == count_ready(hs@.take(i as int)),
            n <= i,
        decreases hs@.len() - i,
    {
        proof {
            assert(hs@.take(i + 1).drop_last() =~= hs@.take(i as int));
        }
        match hs[i].readiness {
            ReadinessStateV1::Ready => {
                n = n + 1;
            },
            _ => {},
        }
        i = i + 1;
    }
    proof {
        assert(hs@.take(i as int) =~= hs@);
    }
    n
}

fn current_step(ss: &Vec<ProductStepV1>) -> (r: Option<String>)
    ensures
        match first_current(ss@) {
            Some(j) => r is Some && 0 <= j < ss@.len() && r.unwrap()@ == ss@[j].step_id@,
            None => r is None,
        },
{
    let mut i: usize = 0;
    while i < ss.len()
        invariant
            i <= ss@.len(),
            first_current(ss@.take(i as int)) is None,
        decreases ss@.len() - i,
    {
        proof {
            assert(ss@.take(i + 1).drop_last() =~= ss@.take(i as int));
        }
        let current = match ss[i].state {
            StepStateV1::Eligible => true,
            StepStateV1::Running => true,
            _ => false,
        };
        if current {
            proof {
                lemma_first_current_prefix(ss@, i as int);
            }
            return Some(ss[i].step_id.clone());
        }
        i = i + 1;
    }
    proof {
        assert(ss@.take(i as int) =~= ss@);
    }
    None
}

/// Once a prefix has no current step, the first current step of the whole
/// is the first of the rest.
proof fn lemma_first_current_prefix(ss: Seq<ProductStepV1>, i: int)
    requires
        0 <= i < ss.len(),
        first_current(ss.take(i)) is None,
        is_current(ss[i].state),
    ensures
        first_current(ss) == Some(i),
    decreases ss.len(),
{
    if ss.len() - 1 == i {
        assert(ss.drop_last() =~= ss.take(i));
    } else {
        assert(ss.drop_last().take(i) =~= ss.take(i));
        lemma_first_current_prefix(ss.drop_last(), i);
    }
}

fn latest_attempt_of(xs: &Vec<ProductAttemptV1>, ri: usize) -> (r: Option<usize>)
    ensures
        match r {
            Some(k) => latest_attempt(xs@, ri as int) == Some(k as int) && k < xs@.len(),
            None => latest_attempt(xs@, ri as int) is None,
        },
{
    let mut best: Option<usize> = None;
    let mut i: usize = 0;
    while i < xs.len()
        invariant
            i <= xs@.len(),
            match best {
                Some(k) => latest_attempt(xs@.take(i as int), ri as int) == Some(k as int) && k < i,
                None => latest_attempt(xs@.take(i as int), ri as int) is None,
            },
        decreases xs@.len() - i,
    {
        proof {
            assert(xs@.take(i + 1).drop_last() =~= xs@.take(i as int));
        }
        if xs[i].revision_index == ri {
            match best {
                Some(b) => {
                    if xs[b].created_at <= xs[i].created_at {
                        best = Some(i);
                    }
                },
                None => {
                    best = Some(i);
                },
            }
        }
        i = i + 1;
    }
    proof {
        assert(xs@.take(i as int) =~= xs@);
    }
    best
}

impl NativeV2ProductLedgerV1 {
    proof fn lemma_revision_unique(&self, i: int, j: int, id: Seq<char>)
        requires
            self.wf(),
            revision_at(self.spec_revisions(), i, id),
            revision_at(self.spec_revisions(), j, id),
        ensures
            i == j,
    {
        let rs = self.spec_revisions();
        if i < j {
            assert(rs[i].revision.revision_id@ != rs[j].revision.revision_id@);
        } else if j < i {
            assert(rs[j].revision.revision_id@ != rs[i].revision.revision_id@);
        }
    }

    proof fn lemma_approval_unique(&self, i: int, j: int, id: Seq<char>)
        requires
            self.wf(),
            approval_at(self.spec_revisions(), i, id),
            approval_at(self.spec_revisions(), j, id),
        ensures
            i == j,
    {
        let rs = self.spec_revisions();
        if i < j {
            assert(rs[i].approval is Some && rs[j].approval is Some);
        } else if j < i {
            assert(rs[j].approval is Some && rs[i].approval is Some);
        }
    }

    proof fn lemma_attempt_unique(&self, i: int, j: int, id: Seq<char>)
        requires
            self.wf(),
            attempt_at(self.spec_attempts(), i, id),
            attempt_at(self.spec_attempts(), j, id),
        ensures
            i == j,
    {
        let xs = self.spec_attempts();
        if i < j {
            assert(xs[i].attempt_id@ != xs[j].attempt_id@);
        } else if j < i {
            assert(xs[j].attempt_id@ != xs[i].attempt_id@);
        }
    }

    fn status_at(&self, ri: usize) -> (s: NativeV2PlanStatusV1)
        requires
            self.wf(),
            ri < self.spec_revisions().len(),
        ensures
            status_ok(s, self.spec_revisions(), self.spec_attempts(), ri as int),
    {
        let rec = &self.revisions[ri];
        let approval_id = match &rec.approval {
            Some(p) => Some(p.approval_id.clone()),
            None => None,
        };
        let latest = latest_attempt_of(&self.attempts, ri);
        match latest {
            Some(k) => {
                let a = &self.attempts[k];
                let attempt_id = a.attempt_id.clone();
                assert(attempt_id@ == self.spec_attempts()[k as int].attempt_id@);
                proof {
                    let x = self.spec_attempts()[k as int];
                    assert(attempt_consistent(x, self.spec_revisions()[x.revision_index as int]));
                    lemma_count_completed_bound(a.steps@);
                    lemma_count_ready_bound(a.hosts@);
                }
                NativeV2PlanStatusV1 {
                    schema_version: String::from_str(PRODUCT_SCHEMA_VERSION),
                    plan_id: rec.revision.plan_id.clone(),
                    revision_id: rec.revision.revision_id.clone(),
                    revision_hash: rec.revision.revision_hash.clone(),
                    approval_id,
                    attempt_id: Some(attempt_id),
                    state: rec.state,
                    current_step_id: current_step(&a.steps),
                    completed_steps: completed_count(&a.steps),
                    total_steps: a.steps.len() as u32,
                    ready_hosts: ready_count(&a.hosts),
                    total_hosts: a.hosts.len() as u32,
                    code: copy_opt(&rec.failure_code),
                    updated_at: rec.updated_at,
                }
            },
            None => {
                proof {
                    assert(revision_ok(self.spec_revisions()[ri as int].revision));
                }
                NativeV2PlanStatusV1 {
                    schema_version: String::from_str(PRODUCT_SCHEMA_VERSION),
                    plan_id: rec.revision.plan_id.clone(),
                    revision_id: rec.revision.revision_id.clone(),
                    revision_hash: rec.revision.revision_hash.clone(),
                    approval_id,
                    attempt_id: None,
                    state: rec.state,
                    current_step_id: None,
                    completed_steps: 0,
                    total_steps: rec.revision.steps.len() as u32,
                    ready_hosts: 0,
                    total_hosts: 0,
                    code: copy_opt(&rec.failure_code),
                    updated_at: rec.updated_at,
                }
            },
        }
    }

    /// The status of the revision `revision_id`; refused when no such
    /// revision is stored.
    pub fn status_for_revision(&self, revision_id: &str) -> (r: AppResult<NativeV2PlanStatusV1>)
        requires
            self.wf(),
        ensures
            r is Ok <==> has_revision(self.spec_revisions(), revision_id@),
            r is Err ==> r == Err::<NativeV2PlanStatusV1, AppError>(
                AppError::InvalidInput("Native v2 product Plan is unavailable."),
            ),
            r matches Ok(s) ==> status_ok(
                s,
                self.spec_revisions(),
                self.spec_attempts(),
                revision_index(self.spec_revisions(), revision_id@),
            ),
    {
        match self.find_revision(revision_id) {
            Some(ri) => {
                proof {
                    let c = revision_index(self.spec_revisions(), revision_id@);
                    self.lemma_revision_unique(ri as int, c, revision_id@);
                }
                Ok(self.status_at(ri))
            },
            None => Err(AppError::InvalidInput("Native v2 product Plan is unavailable.")),
        }
    }
}

impl NativeV2ProductLedgerV1 {
    /// Stores sealed revision `revision` as a draft at time `now`, for the
    /// local Host `local_host_ref` on a Bridge that is active
    /// (`bridge_active`), and gives its status. Refuses, in this order: a
    /// revision that is not sealed, one whose requester is not the local
    /// Host, an inactive Bridge, and a revision already stored.
    pub fn create_draft(
        &mut self,
        revision: PlanRevisionV1,
        local_host_ref: &str,
        bridge_active: bool,
        now: i64,
    ) -> (r: AppResult<NativeV2PlanStatusV1>)
        requires
            old(self).wf(),
        ensures
            final(self).wf(),
            final(self).spec_protocol() == old(self).spec_protocol(),
            old(self).evolves_to(&*final(self)),
            final(self).spec_attempts() == old(self).spec_attempts(),
            !revision_ok(revision) ==> r == Err::<NativeV2PlanStatusV1, AppError>(
                AppError::InvalidInput("Native v2 product revision is not sealed."),
            ),
            revision_ok(revision) && !hosted_at(revision, revision.requester@, local_host_ref@)
                ==> r == Err::<NativeV2PlanStatusV1, AppError>(
                AppError::InvalidInput("Only the authored requester Host may create this product Plan."),
            ),
            revision_ok(revision) && hosted_at(revision, revision.requester@, local_host_ref@)
                && !bridge_active ==> r == Err::<NativeV2PlanStatusV1, AppError>(
                AppError::InvalidInput("Native v2 product Bridge is unavailable or burned."),
            ),
            revision_ok(revision) && hosted_at(revision, revision.requester@, local_host_ref@)
                && bridge_active && has_revision(old(self).spec_revisions(), revision.revision_id@)
                ==> r == Err::<NativeV2PlanStatusV1, AppError>(
                AppError::InvalidInput("Native v2 product revision already exists."),
            ),
            r is Ok <==> (revision_ok(revision) && hosted_at(
                revision,
                revision.requester@,
                local_host_ref@,
            ) && bridge_active && !has_revision(old(self).spec_revisions(), revision.revision_id@)),
            r is Ok ==> final(self).spec_revisions() == old(self).spec_revisions().push(
                ProductRevisionRecordV1 {
                    revision,
                    state: NativeV2ProductStateV1::Draft,
                    failure_code: None,
                    updated_at: now,
                    approval: None,
                },
            ),
            r matches Ok(s) ==> status_ok(
                s,
                final(self).spec_revisions(),
                final(self).spec_attempts(),
                old(self).spec_revisions().len() as int,
            ),
            r is Err ==> final(self).spec_revisions() == old(self).spec_revisions(),
    {
        if validate_revision(&revision).is_err() {
            return Err(AppError::InvalidInput("Native v2 product revision is not sealed."));
        }
        let requester_here = match find_participant(&revision, revision.requester.as_str()) {
            Some(i) => {
                proof {
                    lemma_hosted_at_index(revision, i as int, local_host_ref@);
                }
                same_text(revision.participants[i].host_ref.as_str(), local_host_ref)
            },
            None => false,
        };
        if !requester_here {
            return Err(
                AppError::InvalidInput("Only the authored requester Host may create this product Plan."),
            );
        }
        if !bridge_active {
            return Err(AppError::InvalidInput("Native v2 product Bridge is unavailable or burned."));
        }
        if self.find_revision(revision.revision_id.as_str()).is_some() {
            return Err(AppError::InvalidInput("Native v2 product revision already exists."));
        }
        let ghost before = self.spec_revisions();
        let ri = self.revisions.len();
        self.revisions.push(
            ProductRevisionRecordV1 {
                revision,
                state: NativeV2ProductStateV1::Draft,
                failure_code: None,
                updated_at: now,
                approval: None,
            },
        );
        proof {
            let rs = self.spec_revisions();
            assert forall|i: int, j: int|
                0 <= i < j < rs.len() implies #[trigger] rs[i].revision.revision_id@
                    != #[trigger] rs[j].revision.revision_id@ by {
                if j == ri {
                    assert(!revision_at(before, i, rs[j].revision.revision_id@));
                } else {
                    assert(rs[i] == before[i] && rs[j] == before[j]);
                }
            }
            assert forall|i: int| 0 <= i < rs.len() implies revision_ok((#[trigger] rs[i]).revision) by {
                if i < ri {
                    assert(rs[i] == before[i]);
                }
            }
            assert forall|i: int|
                0 <= i < rs.len() implies ((#[trigger] rs[i]).state == NativeV2ProductStateV1::Draft
                    <==> rs[i].approval is None) by {
                if i < ri {
                    assert(rs[i] == before[i]);
                }
            }
            assert forall|i: int, j: int|
                0 <= i < j < rs.len() && (#[trigger] rs[i]).approval is Some && (
                #[trigger] rs[j]).approval is Some implies rs[i].approval.unwrap().approval_id@
                    != rs[j].approval.unwrap().approval_id@ by {
                assert(rs[i] == before[i] && rs[j] == before[j]);
            }
            let xs = self.spec_attempts();
            assert forall|i: int| 0 <= i < xs.len() implies (#[trigger] xs[i]).revision_index
                < rs.len() && attempt_consistent(xs[i], rs[xs[i].revision_index as int]) by {
                assert(rs[xs[i].revision_index as int] == before[xs[i].revision_index as int]);
            }
        }
        Ok(self.status_at(ri))
    }

    fn approval_record(&self, ri: usize) -> (a: NativeV2ApprovalV1)
        requires
            self.wf(),
            ri < self.spec_revisions().len(),
            self.spec_revisions()[ri as int].approval is Some,
        ensures
            approval_matches(a, self.spec_revisions()[ri as int]),
    {
        let rec = &self.revisions[ri];
        let p = rec.approval.as_ref().unwrap();
        NativeV2ApprovalV1 {
            approval_id: p.approval_id.clone(),
            plan_id: rec.revision.plan_id.clone(),
            revision_id: rec.revision.revision_id.clone(),
            revision_hash: rec.revision.revision_hash.clone(),
            bridge_id: rec.revision.bridge_id.clone(),
            requester: rec.revision.requester.clone(),
            expires_at: p.expires_at,
        }
    }

    /// Approves the draft `revision_id` under `approval_id` until
    /// `expires_at`, at time `now`. Refuses, in this order: an invalid
    /// approval id, an expiry not after `now` or more than one lifetime
    /// later, an unknown revision, a revision no longer a draft, and an
    /// approval id already given.
    pub fn approve(&mut self, revision_id: &str, approval_id: &str, expires_at: i64, now: i64) -> (r:
        AppResult<NativeV2ApprovalV1>)
        requires
            old(self).wf(),
        ensures
            final(self).wf(),
            final(self).spec_protocol() == old(self).spec_protocol(),
            old(self).evolves_to(&*final(self)),
            final(self).spec_attempts() == old(self).spec_attempts(),
            !native_id_ok(approval_id@) ==> r == Err::<NativeV2ApprovalV1, AppError>(
                AppError::InvalidInput("Native v2 approval id is invalid."),
            ),
            native_id_ok(approval_id@) && !expiry_ok(expires_at, now) ==> r == Err::<
                NativeV2ApprovalV1,
                AppError,
            >(AppError::InvalidInput("Native v2 approval expiry is invalid.")),
            native_id_ok(approval_id@) && expiry_ok(expires_at, now) && !has_revision(
                old(self).spec_revisions(),
                revision_id@,
            ) ==> r == Err::<NativeV2ApprovalV1, AppError>(
                AppError::InvalidInput("Native v2 product revision is unavailable."),
            ),
            native_id_ok(approval_id@) && expiry_ok(expires_at, now) && has_revision(
                old(self).spec_revisions(),
                revision_id@,
            ) && old(self).spec_revisions()[revision_index(old(self).spec_revisions(), revision_id@)].state
                != NativeV2ProductStateV1::Draft ==> r == Err::<NativeV2ApprovalV1, AppError>(
                AppError::InvalidInput("Native v2 revision is not available for approval."),
            ),
            native_id_ok(approval_id@) && expiry_ok(expires_at, now) && has_revision(
                old(self).spec_revisions(),
                revision_id@,
            ) && old(self).spec_revisions()[revision_index(old(self).spec_revisions(), revision_id@)].state
                == NativeV2ProductStateV1::Draft && has_approval(old(self).spec_revisions(), approval_id@)
                ==> r == Err::<NativeV2ApprovalV1, AppError>(
                AppError::InvalidInput("Native v2 approval already exists."),
            ),
            r is Ok <==> (native_id_ok(approval_id@) && expiry_ok(expires_at, now) && has_revision(
                old(self).spec_revisions(),
                revision_id@,
            ) && old(self).spec_revisions()[revision_index(old(self).spec_revisions(), revision_id@)].state
                == NativeV2ProductStateV1::Draft && !has_approval(old(self).spec_revisions(), approval_id@)),
            r is Ok ==> approved_at(
                old(self).spec_revisions(),
                final(self).spec_revisions(),
                revision_index(old(self).spec_revisions(), revision_id@),
                approval_id@,
                expires_at,
                now,
            ),
            r matches Ok(a) ==> approval_matches(
                a,
                final(self).spec_revisions()[revision_index(old(self).spec_revisions(), revision_id@)],
            ),
            r is Err ==> final(self).spec_revisions() == old(self).spec_revisions(),
    {
        if native_id(approval_id).is_err() {
            return Err(AppError::InvalidInput("Native v2 approval id is invalid."));
        }
        if !expiry_within(expires_at, now) {
            return Err(AppError::InvalidInput("Native v2 approval expiry is invalid."));
        }
        let ri = match self.find_revision(revision_id) {
            Some(ri) => ri,
            None => {
                return Err(AppError::InvalidInput("Native v2 product revision is unavailable."));
            },
        };
        proof {
            let c = revision_index(self.spec_revisions(), revision_id@);
            self.lemma_revision_unique(ri as int, c, revision_id@);
        }
        let draft = match self.revisions[ri].state {
            NativeV2ProductStateV1::Draft => true,
            _ => false,
        };
        if !draft {
            return Err(AppError::InvalidInput("Native v2 revision is not available for approval."));
        }
        if self.find_approval(approval_id).is_some() {
            return Err(AppError::InvalidInput("Native v2 approval already exists."));
        }
        let ghost before = self.spec_revisions();
        self.revisions[ri].state = NativeV2ProductStateV1::Approved;
        self.revisions[ri].updated_at = now;
        self.revisions[ri].approval = Some(
            ProductApprovalV1 { approval_id: approval_id.to_string(), expires_at },
        );
        proof {
            let rs = self.spec_revisions();
            assert forall|i: int, j: int|
                0 <= i < j < rs.len() implies #[trigger] rs[i].revision.revision_id@
                    != #[trigger] rs[j].revision.revision_id@ by {
                assert(rs[i].revision == before[i].revision && rs[j].revision == before[j].revision);
            }
            assert forall|i: int| 0 <= i < rs.len() implies revision_ok((#[trigger] rs[i]).revision) by {
                assert(rs[i].revision == before[i].revision);
            }
            assert forall|i: int|
                0 <= i < rs.len() implies ((#[trigger] rs[i]).state == NativeV2ProductStateV1::Draft
                    <==> rs[i].approval is None) by {
                if i != ri {
                    assert(rs[i] == before[i]);
                }
            }
            assert forall|i: int, j: int|
                0 <= i < j < rs.len() && (#[trigger] rs[i]).approval is Some && (
                #[trigger] rs[j]).approval is Some implies rs[i].approval.unwrap().approval_id@
                    != rs[j].approval.unwrap().approval_id@ by {
                if i == ri {
                    assert(rs[j] == before[j]);
                    assert(!approval_at(before, j, approval_id@));
                } else if j == ri {
                    assert(rs[i] == before[i]);
                    assert(!approval_at(before, i, approval_id@));
                } else {
                    assert(rs[i] == before[i] && rs[j] == before[j]);
                }
            }
            let xs = self.spec_attempts();
            assert forall|i: int| 0 <= i < xs.len() implies (#[trigger] xs[i]).revision_index
                < rs.len() && attempt_consistent(xs[i], rs[xs[i].revision_index as int]) by {
                let k = xs[i].revision_index as int;
                assert(attempt_consistent(xs[i], before[k]));
                if k == ri {
                    assert(before[k].approval is Some);
                } else {
                    assert(rs[k] == before[k]);
                }
            }
        }
        Ok(self.approval_record(ri))
    }

    /// The approval `approval_id`, still valid at `now`. Refuses an unknown
    /// approval and one that expired.
    pub fn approval(&self, approval_id: &str, now: i64) -> (r: AppResult<NativeV2ApprovalV1>)
        requires
            self.wf(),
        ensures
            !has_approval(self.spec_revisions(), approval_id@) ==> r == Err::<NativeV2ApprovalV1, AppError>(
                AppError::InvalidInput("Native v2 approval is unavailable."),
            ),
            has_approval(self.spec_revisions(), approval_id@) && self.spec_revisions()[approval_index(
                self.spec_revisions(),
                approval_id@,
            )].approval.unwrap().expires_at <= now ==> r == Err::<NativeV2ApprovalV1, AppError>(
                AppError::InvalidInput("Native v2 approval is no longer valid."),
            ),
            r is Ok <==> has_approval(self.spec_revisions(), approval_id@) && self.spec_revisions()[approval_index(
                self.spec_revisions(),
                approval_id@,
            )].approval.unwrap().expires_at > now,
            r matches Ok(a) ==> approval_matches(
                a,
                self.spec_revisions()[approval_index(self.spec_revisions(), approval_id@)],
            ),
    {
        match self.find_approval(approval_id) {
            Some(ri) => {
                proof {
                    let c = approval_index(self.spec_revisions(), approval_id@);
                    self.lemma_approval_unique(ri as int, c, approval_id@);
                }
                if self.revisions[ri].approval.as_ref().unwrap().expires_at <= now {
                    return Err(AppError::InvalidInput("Native v2 approval is no longer valid."));
                }
                Ok(self.approval_record(ri))
            },
            None => Err(AppError::InvalidInput("Native v2 approval is unavailable.")),
        }
    }
}

/// `a` hands out the approval of revision record `rec`.
pub open spec fn approval_matches(a: NativeV2ApprovalV1, rec: ProductRevisionRecordV1) -> bool {
    &&& rec.approval is Some
    &&& a.approval_id@ == rec.approval.unwrap().approval_id@
    &&& a.expires_at == rec.approval.unwrap().expires_at
    &&& a.plan_id@ == rec.revision.plan_id@
    &&& a.revision_id@ == rec.revision.revision_id@
    &&& a.revision_hash@ == rec.revision.revision_hash@
    &&& a.bridge_id@ == rec.revision.bridge_id@
    &&& a.requester@ == rec.revision.requester@
}

/// `after` is `before` with the revision at `ri` approved under `id` until
/// `expires_at`, at time `now`.
pub open spec fn approved_at(
    before: Seq<ProductRevisionRecordV1>,
    after: Seq<ProductRevisionRecordV1>,
    ri: int,
    id: Seq<char>,
    expires_at: i64,
    now: i64,
) -> bool {
    &&& after.len() == before.len()
    &&& forall|j: int| 0 <= j < after.len() && j != ri ==> #[trigger] after[j] == before[j]
    &&& after[ri].revision == before[ri].revision
    &&& after[ri].state == NativeV2ProductStateV1::Approved
    &&& after[ri].failure_code == before[ri].failure_code
    &&& after[ri].updated_at == now
    &&& after[ri].approval is Some
    &&& after[ri].approval.unwrap().approval_id@ == id
    &&& after[ri].approval.unwrap().expires_at == expires_at
}

/// What this Host's own runtime reports of its readiness for a participant
/// it hosts: ready, or the first check that failed.
#[derive(Clone, Copy, Debug, PartialEq, Eq, Structural)]
pub enum LocalReadinessV1 {
    Ready,
    ManagedRootUnavailable,
    TransferRouteUnavailable,
    ProviderUnavailable,
    ManagedPlatformUnavailable,
}

/// The code under which a local Host is unavailable.
pub open spec fn local_code(x: LocalReadinessV1) -> Option<&'static str> {
    match x {
        LocalReadinessV1::Ready => None,
        LocalReadinessV1::ManagedRootUnavailable => Some("managed_root_unavailable"),
        LocalReadinessV1::TransferRouteUnavailable => Some("transfer_route_unavailable"),
        LocalReadinessV1::ProviderUnavailable => Some("provider_unavailable"),
        LocalReadinessV1::ManagedPlatformUnavailable => Some("managed_platform_unavailable"),
    }
}

pub fn local_unavailable_code(x: LocalReadinessV1) -> (c: Option<&'static str>)
    ensures
        c == local_code(x),
{
    match x {
        LocalReadinessV1::Ready => None,
        LocalReadinessV1::ManagedRootUnavailable => Some("managed_root_unavailable"),
        LocalReadinessV1::TransferRouteUnavailable => Some("transfer_route_unavailable"),
        LocalReadinessV1::ProviderUnavailable => Some("provider_unavailable"),
        LocalReadinessV1::ManagedPlatformUnavailable => Some("managed_platform_unavailable"),
    }
}

/// Step `s` is managed work (a Transform or an Execute) that runs on Host `h`.
pub open spec fn managed_on(r: PlanRevisionV1, s: PlanStepV1, h: Seq<char>) -> bool {
    (s.operation == StepOperation::Transform || s.operation == StepOperation::Execute) && runs_on(r, s, h)
}

/// This Host's readiness, checked in order: every managed root it holds can
/// be acquired; every Transfer it takes part in has a current route to its
/// counterpart; and, where it runs managed work, a provider is selected and
/// the platform supports each of those steps.
pub open spec fn local_readiness_of(
    r: PlanRevisionV1,
    local: Seq<char>,
    roots: Seq<bool>,
    routes: Seq<bool>,
    provider: bool,
    platform: Seq<bool>,
) -> LocalReadinessV1 {
    if exists|i: int| 0 <= i < roots.len() && !#[trigger] roots[i] {
        LocalReadinessV1::ManagedRootUnavailable
    } else if exists|i: int| 0 <= i < routes.len() && !#[trigger] routes[i] {
        LocalReadinessV1::TransferRouteUnavailable
    } else if exists|k: int| 0 <= k < r.steps@.len() && managed_on(r, #[trigger] r.steps@[k], local) {
        if !provider {
            LocalReadinessV1::ProviderUnavailable
        } else if exists|k: int| 0 <= k < r.steps@.len() && managed_on(r, #[trigger] r.steps@[k], local) && !platform[k] {
            LocalReadinessV1::ManagedPlatformUnavailable
        } else {
            LocalReadinessV1::Ready
        }
    } else {
        LocalReadinessV1::Ready
    }
}

fn all_true(v: &Vec<bool>) -> (b: bool)
    ensures
        b == !exists|i: int| 0 <= i < v@.len() && !#[trigger] v@[i],
{
    let mut i: usize = 0;
    while i < v.len()
        invariant
            i <= v@.len(),
            forall|j: int| 0 <= j < i ==> #[trigger] v@[j],
        decreases v@.len() - i,
    {
        if !v[i] {
            return false;
        }
        i = i + 1;
    }
    true
}

/// Decides this Host's readiness for revision `r` from what its runtime
/// found: whether each managed root it holds can be acquired (`roots`),
/// whether each Transfer it takes part in has a route to its counterpart
/// (`routes`), whether a managed-worker provider is selected (`provider`),
/// and whether the platform supports each step (`platform`, by step index).
pub fn local_readiness(
    r: &PlanRevisionV1,
    local: &str,
    roots: &Vec<bool>,
    routes: &Vec<bool>,
    provider: bool,
    platform: &Vec<bool>,
) -> (x: LocalReadinessV1)
    requires
        revision_ok(*r),
        platform@.len() == r.steps@.len(),
    ensures
        x == local_readiness_of(*r, local@, roots@, routes@, provider, platform@),
{
    if !all_true(roots) {
        return LocalReadinessV1::ManagedRootUnavailable;
    }
    if !all_true(routes) {
        return LocalReadinessV1::TransferRouteUnavailable;
    }
    let mut managed_here = false;
    let mut unsupported = false;
    let mut k: usize = 0;
    while k < r.steps.len()
        invariant
            revision_ok(*r),
            platform@.len() == r.steps@.len(),
            k <= r.steps@.len(),
            managed_here == exists|j: int| 0 <= j < k && managed_on(*r, #[trigger] r.steps@[j], local@),
            unsupported == exists|j: int| 0 <= j < k && managed_on(*r, #[trigger] r.steps@[j], local@) && !platform@[j],
        decreases r.steps@.len() - k,
    {
        let op = r.steps[k].operation;
        let managed = match op {
            StepOperation::Transform | StepOperation::Execute => step_runs_on_host(r, k, local),
            _ => false,
        };
        proof {
            assert(managed == managed_on(*r, r.steps@[k as int], local@));
        }
        if managed {
            managed_here = true;
            if !platform[k] {
                unsupported = true;
            }
        }
        k = k + 1;
    }
    if !managed_here {
        LocalReadinessV1::Ready
    } else if !provider {
        LocalReadinessV1::ProviderUnavailable
    } else if unsupported {
        LocalReadinessV1::ManagedPlatformUnavailable
    } else {
        LocalReadinessV1::Ready
    }
}

/// How the requester found the Host of one participant: its own readiness
/// for a local participant; for a peer, the current session to it and the
/// correlation of its review, or that no connected route or more than one
/// leads there.
#[derive(Clone, Debug, PartialEq, Eq)]
pub enum HostPreparationV1 {
    Local(LocalReadinessV1),
    Peer(ProductSessionV1, String),
    NoRoute,
    AmbiguousRoute,
}

/// Two sessions with the same reference and the same fields.
pub open spec fn same_product_session(a: ProductSessionV1, b: ProductSessionV1) -> bool {
    a.binding_ref@ == b.binding_ref@ && same_session(a.binding, b.binding)
}

/// Why participant `i` of `r` cannot take part, found as `prep` at `now` by
/// the Host `local`: a local participant must be ready, and the requester
/// cannot run a step itself; a peer needs exactly one route and a current
/// session to that very Host.
pub open spec fn prep_error(
    r: PlanRevisionV1,
    i: int,
    prep: HostPreparationV1,
    local: Seq<char>,
    now: i64,
) -> Option<&'static str> {
    let p = r.participants@[i];
    if p.host_ref@ == local {
        match prep {
            HostPreparationV1::Local(x) => if requester_local_step(r, p.participant_ref@, local) {
                Some("requester_self_execution_unavailable")
            } else {
                local_code(x)
            },
            _ => Some("Native v2 Host preparation does not match the revision."),
        }
    } else {
        match prep {
            HostPreparationV1::Peer(s, _) => if s.binding.expires_at <= now || s.binding.peer_host_ref@
                != p.host_ref@ {
                Some("Plan Host session binding is unavailable.")
            } else {
                None
            },
            HostPreparationV1::NoRoute => Some("Plan Host route is unavailable."),
            HostPreparationV1::AmbiguousRoute => Some("Plan Host route is ambiguous."),
            HostPreparationV1::Local(_) => Some("Native v2 Host preparation does not match the revision."),
        }
    }
}

/// The error of the first of the first `n` participants that cannot take
/// part.
pub open spec fn first_prep_error(
    r: PlanRevisionV1,
    preps: Seq<HostPreparationV1>,
    local: Seq<char>,
    now: i64,
    n: int,
) -> Option<&'static str>
    decreases n,
{
    if n <= 0 {
        None
    } else {
        match first_prep_error(r, preps, local, now, n - 1) {
            Some(e) => Some(e),
            None => prep_error(r, n - 1, preps[n - 1], local, now),
        }
    }
}

/// Why an attempt `attempt_id` under `approval_id`, until `expires_at`,
/// cannot start at `now`, in the order the checks are made.
pub open spec fn prepare_blocker(
    rs: Seq<ProductRevisionRecordV1>,
    xs: Seq<ProductAttemptV1>,
    approval_id: Seq<char>,
    attempt_id: Seq<char>,
    expires_at: i64,
    now: i64,
    local: Seq<char>,
    preps: Seq<HostPreparationV1>,
) -> Option<&'static str> {
    let ai = approval_index(rs, approval_id);
    if !native_id_ok(attempt_id) {
        Some("Native v2 attempt id is invalid.")
    } else if !expiry_ok(expires_at, now) {
        Some("Native v2 attempt expiry is invalid.")
    } else if !has_approval(rs, approval_id) {
        Some("Native v2 approval is unavailable.")
    } else if rs[ai].approval.unwrap().expires_at <= now {
        Some("Native v2 approval is no longer valid.")
    } else if rs[ai].approval.unwrap().expires_at < expires_at {
        Some("Native v2 attempt outlives requester approval.")
    } else if preps.len() != rs[ai].revision.participants@.len() {
        Some("Native v2 Host preparation does not match the revision.")
    } else if first_prep_error(rs[ai].revision, preps, local, now, preps.len() as int) is Some {
        first_prep_error(rs[ai].revision, preps, local, now, preps.len() as int)
    } else if has_attempt(xs, attempt_id) {
        Some("Native v2 attempt already exists.")
    } else {
        None
    }
}

/// Host `h` of a new attempt, for participant `p` found as `prep`: a peer
/// awaits its readiness and admission over its session, a local Host is
/// ready and prepared.
pub open spec fn host_fresh(h: ProductHostV1, p: PlanParticipantV1, prep: HostPreparationV1) -> bool {
    &&& h.participant_ref@ == p.participant_ref@
    &&& h.host_ref@ == p.host_ref@
    &&& h.readiness_code is None
    &&& h.admission_ref is None
    &&& match prep {
        HostPreparationV1::Peer(s, c) => {
            &&& h.session is Some
            &&& same_product_session(h.session.unwrap(), s)
            &&& h.correlation_id is Some
            &&& h.correlation_id.unwrap()@ == c@
            &&& h.readiness == ReadinessStateV1::Pending
            &&& h.admission == AdmissionStateV1::Pending
        },
        _ => {
            &&& h.session is None
            &&& h.correlation_id is None
            &&& h.readiness == ReadinessStateV1::Ready
            &&& h.admission == AdmissionStateV1::Prepared
        },
    }
}

/// `a` is a new attempt of the revision at `ri`: checking readiness, every
/// step pending, every Host as found.
pub open spec fn attempt_fresh(
    a: ProductAttemptV1,
    rs: Seq<ProductRevisionRecordV1>,
    ri: int,
    attempt_id: Seq<char>,
    approval_id: Seq<char>,
    preps: Seq<HostPreparationV1>,
    expires_at: i64,
    now: i64,
) -> bool {
    let r = rs[ri].revision;
    &&& a.attempt_id@ == attempt_id
    &&& a.approval_id@ == approval_id
    &&& a.revision_id@ == r.revision_id@
    &&& a.revision_hash@ == r.revision_hash@
    &&& a.revision_index == ri
    &&& a.state == NativeV2ProductStateV1::CheckingReadiness
    &&& a.failure_code is None
    &&& a.expires_at == expires_at
    &&& a.created_at == now
    &&& a.updated_at == now
    &&& a.hosts@.len() == r.participants@.len()
    &&& forall|i: int| 0 <= i < a.hosts@.len() ==> host_fresh(#[trigger] a.hosts@[i], r.participants@[i], preps[i])
    &&& a.steps@.len() == r.steps@.len()
    &&& forall|k: int|
        0 <= k < a.steps@.len() ==> (#[trigger] a.steps@[k]).step_id@ == r.steps@[k].step_id@
            && a.steps@[k].state == StepStateV1::Pending && a.steps@[k].completion_ref is None
}

/// `after` is `before` with the revision at `ri` moved from approved to
/// checking readiness at `now`; a revision in any other state stays as it
/// was.
pub open spec fn readiness_begun(
    before: Seq<ProductRevisionRecordV1>,
    after: Seq<ProductRevisionRecordV1>,
    ri: int,
    now: i64,
) -> bool {
    &&& after.len() == before.len()
    &&& forall|j: int| 0 <= j < after.len() && j != ri ==> #[trigger] after[j] == before[j]
    &&& if before[ri].state == NativeV2ProductStateV1::Approved {
        after[ri] == ProductRevisionRecordV1 {
            state: NativeV2ProductStateV1::CheckingReadiness,
            failure_code: None,
            updated_at: now,
            ..before[ri]
        }
    } else {
        after[ri] == before[ri]
    }
}

/// What a dispatch asks of its peer.
#[derive(Clone, Copy, Debug, PartialEq, Eq, Structural)]
pub enum DispatchKindV1 {
    ReviewRequest,
    ReadinessRequest,
    AttemptStart,
    AttemptCommit,
    StepCommit,
    AttemptCancel,
}

/// A message to send to the peer Host of a participant, over the route of
/// its session.
#[derive(Clone, Debug, PartialEq, Eq)]
pub struct ProductDispatchV1 {
    pub participant_ref: String,
    pub peer_route_ref: String,
    pub kind: DispatchKindV1,
}

pub open spec fn dispatch_view(d: ProductDispatchV1) -> (Seq<char>, Seq<char>, DispatchKindV1) {
    (d.participant_ref@, d.peer_route_ref@, d.kind)
}

pub open spec fn dispatches_view(v: Seq<ProductDispatchV1>) -> Seq<(Seq<char>, Seq<char>, DispatchKindV1)> {
    v.map_values(|d: ProductDispatchV1| dispatch_view(d))
}

/// One dispatch of each kind of `kinds` to the peer of `h`.
pub open spec fn host_dispatches(h: ProductHostV1, kinds: Seq<DispatchKindV1>) -> Seq<
    (Seq<char>, Seq<char>, DispatchKindV1),
> {
    Seq::new(
        kinds.len(),
        |j: int| (h.participant_ref@, h.session.unwrap().binding.peer_route_ref@, kinds[j]),
    )
}

/// For every Host of `hs` reached over a session, in order, one dispatch of
/// each kind of `kinds`.
pub open spec fn dispatches_to(hs: Seq<ProductHostV1>, kinds: Seq<DispatchKindV1>) -> Seq<
    (Seq<char>, Seq<char>, DispatchKindV1),
>
    decreases hs.len(),
{
    if hs.len() == 0 {
        seq![]
    } else {
        let rest = dispatches_to(hs.drop_last(), kinds);
        let h = hs.last();
        if h.session is Some {
            rest + host_dispatches(h, kinds)
        } else {
            rest
        }
    }
}

fn dispatch_all(hosts: &Vec<ProductHostV1>, kinds: &Vec<DispatchKindV1>) -> (v: Vec<ProductDispatchV1>)
    ensures
        dispatches_view(v@) == dispatches_to(hosts@, kinds@),
{
    let mut out: Vec<ProductDispatchV1> = Vec::new();
    let mut i: usize = 0;
    while i < hosts.len()
        invariant
            i <= hosts@.len(),
            dispatches_view(out@) == dispatches_to(hosts@.take(i as int), kinds@),
        decreases hosts@.len() - i,
    {
        proof {
            assert(hosts@.take(i + 1).drop_last() =~= hosts@.take(i as int));
        }
        match &hosts[i].session {
            Some(s) => {
                let ghost before = out@;
                let mut k: usize = 0;
                while k < kinds.len()
                    invariant
                        i < hosts@.len(),
                        k <= kinds@.len(),
                        hosts@[i as int].session == Some(*s),
                        dispatches_view(out@) == dispatches_view(before) + host_dispatches(
                            hosts@[i as int],
                            kinds@.take(k as int),
                        ),
                    decreases kinds@.len() - k,
                {
                    let d = ProductDispatchV1 {
                        participant_ref: hosts[i].participant_ref.clone(),
                        peer_route_ref: s.binding.peer_route_ref.clone(),
                        kind: kinds[k],
                    };
                    let ghost prior = out@;
                    let ghost dv = dispatch_view(d);
                    out.push(d);
                    proof {
                        let h = hosts@[i as int];
                        assert(dispatches_view(out@) =~= dispatches_view(prior).push(dv));
                        assert(host_dispatches(h, kinds@.take(k + 1)) =~= host_dispatches(
                            h,
                            kinds@.take(k as int),
                        ).push(dv));
                        assert(dispatches_view(out@) =~= dispatches_view(before) + host_dispatches(
                            h,
                            kinds@.take(k + 1),
                        ));
                    }
                    k = k + 1;
                }
                proof {
                    assert(kinds@.take(k as int) =~= kinds@);
                }
            },
            None => {},
        }
        i = i + 1;
    }
    proof {
        assert(hosts@.take(i as int) =~= hosts@);
    }
    out
}

/// The first error among the first `n` participants stays the first among
/// more.
proof fn lemma_first_prep_error_stable(
    r: PlanRevisionV1,
    preps: Seq<HostPreparationV1>,
    local: Seq<char>,
    now: i64,
    n: int,
    m: int,
)
    requires
        0 <= n <= m,
        first_prep_error(r, preps, local, now, n) is Some,
    ensures
        first_prep_error(r, preps, local, now, m) == first_prep_error(r, preps, local, now, n),
    decreases m - n,
{
    if n < m {
        lemma_first_prep_error_stable(r, preps, local, now, n, m - 1);
    }
}

fn copy_session(s: &ProductSessionV1) -> (r: ProductSessionV1)
    ensures
        same_product_session(r, *s),
{
    ProductSessionV1 {
        binding_ref: s.binding_ref.clone(),
        binding: HostSessionBinding {
            bridge_id: s.binding.bridge_id.clone(),
            local_host_ref: s.binding.local_host_ref.duplicate(),
            peer_host_ref: s.binding.peer_host_ref.duplicate(),
            local_session_id: s.binding.local_session_id.clone(),
            peer_session_id: s.binding.peer_session_id.clone(),
            peer_route_ref: s.binding.peer_route_ref.clone(),
            expires_at: s.binding.expires_at,
        },
    }
}

fn prep_check(r: &PlanRevisionV1, i: usize, prep: &HostPreparationV1, local: &str, now: i64) -> (e: Option<
    &'static str,
>)
    requires
        revision_ok(*r),
        i < r.participants@.len(),
    ensures
        e == prep_error(*r, i as int, *prep, local@, now),
{
    let p = &r.participants[i];
    if same_text(p.host_ref.as_str(), local) {
        match prep {
            HostPreparationV1::Local(x) => {
                if requester_has_local_step(r, p.participant_ref.as_str(), local) {
                    Some("requester_self_execution_unavailable")
                } else {
                    local_unavailable_code(*x)
                }
            },
            _ => Some("Native v2 Host preparation does not match the revision."),
        }
    } else {
        match prep {
            HostPreparationV1::Peer(s, _) => {
                if s.binding.expires_at <= now || !same_text(s.binding.peer_host_ref.as_str(), p.host_ref.as_str()) {
                    Some("Plan Host session binding is unavailable.")
                } else {
                    None
                }
            },
            HostPreparationV1::NoRoute => Some("Plan Host route is unavailable."),
            HostPreparationV1::AmbiguousRoute => Some("Plan Host route is ambiguous."),
            HostPreparationV1::Local(_) => Some("Native v2 Host preparation does not match the revision."),
        }
    }
}

fn fresh_host(p: &PlanParticipantV1, prep: &HostPreparationV1) -> (h: ProductHostV1)
    ensures
        host_fresh(h, *p, *prep),
{
    match prep {
        HostPreparationV1::Peer(s, c) => ProductHostV1 {
            participant_ref: p.participant_ref.clone(),
            host_ref: p.host_ref.clone(),
            session: Some(copy_session(s)),
            correlation_id: Some(c.clone()),
            readiness: ReadinessStateV1::Pending,
            admission: AdmissionStateV1::Pending,
            readiness_code: None,
            admission_ref: None,
        },
        _ => ProductHostV1 {
            participant_ref: p.participant_ref.clone(),
            host_ref: p.host_ref.clone(),
            session: None,
            correlation_id: None,
            readiness: ReadinessStateV1::Ready,
            admission: AdmissionStateV1::Prepared,
            readiness_code: None,
            admission_ref: None,
        },
    }
}

impl NativeV2ProductLedgerV1 {
    /// Starts attempt `attempt_id` of the revision approved as
    /// `approval_id`, until `expires_at`, at `now`, on the local Host
    /// `local_host_ref` that found the Host of each participant as
    /// `preparations` (in participant order). Every participant must be able
    /// to take part; the attempt then checks readiness with every step
    /// pending, local Hosts ready and prepared, peers awaited; an approved
    /// revision moves to checking readiness. Gives, for every peer in
    /// participant order, a review request and a readiness request.
    pub fn prepare_attempt(
        &mut self,
        approval_id: &str,
        attempt_id: &str,
        expires_at: i64,
        now: i64,
        local_host_ref: &str,
        preparations: &Vec<HostPreparationV1>,
    ) -> (r: AppResult<Vec<ProductDispatchV1>>)
        requires
            old(self).wf(),
        ensures
            final(self).wf(),
            final(self).spec_protocol() == old(self).spec_protocol(),
            old(self).evolves_to(&*final(self)),
            match prepare_blocker(
                old(self).spec_revisions(),
                old(self).spec_attempts(),
                approval_id@,
                attempt_id@,
                expires_at,
                now,
                local_host_ref@,
                preparations@,
            ) {
                Some(m) => {
                    &&& r == Err::<Vec<ProductDispatchV1>, AppError>(AppError::InvalidInput(m))
                    &&& final(self).spec_revisions() == old(self).spec_revisions()
                    &&& final(self).spec_attempts() == old(self).spec_attempts()
                },
                None => {
                    let ri = approval_index(old(self).spec_revisions(), approval_id@);
                    let a = final(self).spec_attempts().last();
                    &&& r is Ok
                    &&& final(self).spec_attempts().drop_last() == old(self).spec_attempts()
                    &&& final(self).spec_attempts().len() == old(self).spec_attempts().len() + 1
                    &&& attempt_fresh(
                        a,
                        old(self).spec_revisions(),
                        ri,
                        attempt_id@,
                        approval_id@,
                        preparations@,
                        expires_at,
                        now,
                    )
                    &&& readiness_begun(old(self).spec_revisions(), final(self).spec_revisions(), ri, now)
                    &&& dispatches_view(r.unwrap()@) == dispatches_to(
                        a.hosts@,
                        seq![DispatchKindV1::ReviewRequest, DispatchKindV1::ReadinessRequest],
                    )
                },
            },
    {
        if native_id(attempt_id).is_err() {
            return Err(AppError::InvalidInput("Native v2 attempt id is invalid."));
        }
        if !expiry_within(expires_at, now) {
            return Err(AppError::InvalidInput("Native v2 attempt expiry is invalid."));
        }
        let ri = match self.find_approval(approval_id) {
            Some(ri) => ri,
            None => {
                return Err(AppError::InvalidInput("Native v2 approval is unavailable."));
            },
        };
        proof {
            let c = approval_index(self.spec_revisions(), approval_id@);
            self.lemma_approval_unique(ri as int, c, approval_id@);
        }
        let approval_expiry = self.revisions[ri].approval.as_ref().unwrap().expires_at;
        if approval_expiry <= now {
            return Err(AppError::InvalidInput("Native v2 approval is no longer valid."));
        }
        if approval_expiry < expires_at {
            return Err(AppError::InvalidInput("Native v2 attempt outlives requester approval."));
        }
        if preparations.len() != self.revisions[ri].revision.participants.len() {
            return Err(AppError::InvalidInput("Native v2 Host preparation does not match the revision."));
        }
        let ghost rev = self.spec_revisions()[ri as int].revision;
        proof {
            assert(revision_ok(rev));
        }
        let mut i: usize = 0;
        while i < preparations.len()
            invariant
                self.wf(),
                self.spec_revisions() == old(self).spec_revisions(),
                self.spec_attempts() == old(self).spec_attempts(),
                native_id_ok(attempt_id@),
                expiry_ok(expires_at, now),
                approval_at(self.spec_revisions(), ri as int, approval_id@),
                ri == approval_index(self.spec_revisions(), approval_id@),
                self.spec_revisions()[ri as int].approval.unwrap().expires_at > now,
                self.spec_revisions()[ri as int].approval.unwrap().expires_at >= expires_at,
                ri < self.spec_revisions().len(),
                rev == self.spec_revisions()[ri as int].revision,
                revision_ok(rev),
                preparations@.len() == rev.participants@.len(),
                i <= preparations@.len(),
                first_prep_error(rev, preparations@, local_host_ref@, now, i as int) is None,
            decreases preparations@.len() - i,
        {
            let e = prep_check(&self.revisions[ri].revision, i, &preparations[i], local_host_ref, now);
            match e {
                Some(m) => {
                    proof {
                        lemma_first_prep_error_stable(
                            rev,
                            preparations@,
                            local_host_ref@,
                            now,
                            i + 1,
                            preparations@.len() as int,
                        );
                    }
                    return Err(AppError::InvalidInput(m));
                },
                None => {},
            }
            i = i + 1;
        }
        if self.find_attempt(attempt_id).is_some() {
            return Err(AppError::InvalidInput("Native v2 attempt already exists."));
        }
        let mut hosts: Vec<ProductHostV1> = Vec::new();
        let mut i: usize = 0;
        while i < preparations.len()
            invariant
                ri < self.spec_revisions().len(),
                rev == self.spec_revisions()[ri as int].revision,
                preparations@.len() == rev.participants@.len(),
                i <= preparations@.len(),
                hosts@.len() == i,
                forall|j: int| 0 <= j < i ==> host_fresh(#[trigger] hosts@[j], rev.participants@[j], preparations@[j]),
            decreases preparations@.len() - i,
        {
            hosts.push(fresh_host(&self.revisions[ri].revision.participants[i], &preparations[i]));
            i = i + 1;
        }
        let mut steps: Vec<ProductStepV1> = Vec::new();
        let mut k: usize = 0;
        while k < self.revisions[ri].revision.steps.len()
            invariant
                ri < self.spec_revisions().len(),
                rev == self.spec_revisions()[ri as int].revision,
                k <= rev.steps@.len(),
                steps@.len() == k,
                forall|j: int|
                    0 <= j < k ==> (#[trigger] steps@[j]).step_id@ == rev.steps@[j].step_id@
                        && steps@[j].state == StepStateV1::Pending && steps@[j].completion_ref is None,
            decreases rev.steps@.len() - k,
        {
            steps.push(
                ProductStepV1 {
                    step_id: self.revisions[ri].revision.steps[k].step_id.clone(),
                    state: StepStateV1::Pending,
                    completion_ref: None,
                },
            );
            k = k + 1;
        }
        let kinds = vec![DispatchKindV1::ReviewRequest, DispatchKindV1::ReadinessRequest];
        let out = dispatch_all(&hosts, &kinds);
        let attempt = ProductAttemptV1 {
            attempt_id: attempt_id.to_string(),
            approval_id: approval_id.to_string(),
            revision_id: self.revisions[ri].revision.revision_id.clone(),
            revision_hash: self.revisions[ri].revision.revision_hash.clone(),
            revision_index: ri,
            state: NativeV2ProductStateV1::CheckingReadiness,
            failure_code: None,
            expires_at,
            created_at: now,
            updated_at: now,
            hosts,
            steps,
        };
        let ghost before = self.spec_revisions();
        let ghost xs_before = self.spec_attempts();
        let approved = match self.revisions[ri].state {
            NativeV2ProductStateV1::Approved => true,
            _ => false,
        };
        if approved {
            self.revisions[ri].state = NativeV2ProductStateV1::CheckingReadiness;
            self.revisions[ri].failure_code = None;
            self.revisions[ri].updated_at = now;
        }
        self.attempts.push(attempt);
        proof {
            let rs = self.spec_revisions();
            let xs = self.spec_attempts();
            assert(kinds@ =~= seq![DispatchKindV1::ReviewRequest, DispatchKindV1::ReadinessRequest]);
            assert(xs.drop_last() =~= xs_before);
            assert forall|i: int, j: int|
                0 <= i < j < rs.len() implies #[trigger] rs[i].revision.revision_id@
                    != #[trigger] rs[j].revision.revision_id@ by {
                assert(rs[i].revision == before[i].revision && rs[j].revision == before[j].revision);
            }
            assert forall|i: int| 0 <= i < rs.len() implies revision_ok((#[trigger] rs[i]).revision) by {
                assert(rs[i].revision == before[i].revision);
            }
            assert forall|i: int|
                0 <= i < rs.len() implies ((#[trigger] rs[i]).state == NativeV2ProductStateV1::Draft
                    <==> rs[i].approval is None) by {
                assert(rs[i].approval == before[i].approval);
                if i != ri {
                    assert(rs[i] == before[i]);
                }
            }
            assert forall|i: int, j: int|
                0 <= i < j < rs.len() && (#[trigger] rs[i]).approval is Some && (
                #[trigger] rs[j]).approval is Some implies rs[i].approval.unwrap().approval_id@
                    != rs[j].approval.unwrap().approval_id@ by {
                assert(rs[i].approval == before[i].approval && rs[j].approval == before[j].approval);
                assert(before[i].approval is Some && before[j].approval is Some);
            }
            assert forall|i: int, j: int|
                0 <= i < j < xs.len() implies #[trigger] xs[i].attempt_id@ != #[trigger] xs[j].attempt_id@ by {
                if j == xs.len() - 1 {
                    assert(xs[i] == xs_before[i]);
                    assert(!attempt_at(xs_before, i, attempt_id@));
                } else {
                    assert(xs[i] == xs_before[i] && xs[j] == xs_before[j]);
                }
            }
            assert forall|i: int| 0 <= i < xs.len() implies (#[trigger] xs[i]).revision_index < rs.len()
                && attempt_consistent(xs[i], rs[xs[i].revision_index as int]) by {
                if i < xs.len() - 1 {
                    assert(xs[i] == xs_before[i]);
                    let k = xs[i].revision_index as int;
                    assert(attempt_consistent(xs[i], before[k]));
                    assert(rs[k].revision == before[k].revision && rs[k].approval == before[k].approval);
                } else {
                    let a = xs[i];
                    assert(rs[ri as int].revision == rev && rs[ri as int].approval == before[ri as int].approval);
                    assert(approval_at(before, ri as int, approval_id@));
                    assert forall|h: int| 0 <= h < a.hosts@.len() implies (#[trigger] a.hosts@[h]).participant_ref@
                        == rev.participants@[h].participant_ref@ && a.hosts@[h].host_ref@ == rev.participants@[h].host_ref@ by {
                        assert(host_fresh(a.hosts@[h], rev.participants@[h], preparations@[h]));
                    }
                    assert forall|k: int| 0 <= k < a.steps@.len() && (#[trigger] a.steps@[k]).state
                        == StepStateV1::Completed implies dependencies_done(rev.steps@[k], a.steps@) by {
                    }
                }
            }
        }
        Ok(out)
    }
}

/// A peer Host's answer to a readiness request.
#[derive(Clone, Debug, PartialEq, Eq)]
pub struct NativeV2ReadinessV1 {
    pub protocol_version: String,
    pub message_id: String,
    pub correlation_id: String,
    pub attempt_id: String,
    pub approval_id: String,
    pub plan_id: String,
    pub revision_id: String,
    pub revision_hash: String,
    pub bridge_id: String,
    pub participant: String,
    pub host_ref: String,
    pub session_binding_ref: String,
    pub ready: bool,
    pub code: Option<String>,
    pub expires_at: i64,
}

/// Host `h` of `hs` is the participant `p`.
pub open spec fn host_at(hs: Seq<ProductHostV1>, i: int, p: Seq<char>) -> bool {
    0 <= i < hs.len() && hs[i].participant_ref@ == p
}

pub open spec fn has_host(hs: Seq<ProductHostV1>, p: Seq<char>) -> bool {
    exists|i: int| #[trigger] host_at(hs, i, p)
}

pub open spec fn host_index(hs: Seq<ProductHostV1>, p: Seq<char>) -> int {
    choose|i: int| host_at(hs, i, p)
}

/// The current session `s` still stands at `now`: it has not expired and
/// the transport holds exactly it among `live`.
pub open spec fn session_current(live: Seq<HostSessionBinding>, s: ProductSessionV1, now: i64) -> bool {
    s.binding.expires_at > now && exists|j: int| 0 <= j < live.len() && same_session(#[trigger] live[j], s.binding)
}

/// Every peer of `hs` is still reached over a current session.
pub open spec fn sessions_current(hs: Seq<ProductHostV1>, live: Seq<HostSessionBinding>, now: i64) -> bool {
    forall|i: int| 0 <= i < hs.len() && (#[trigger] hs[i]).session is Some ==> session_current(live, hs[i].session.unwrap(), now)
}

/// `b` is attempt `a` in state `state` since `updated`, with its failure
/// code set to `code` (kept as it was when `code` is none), its Hosts
/// `hosts` and its steps `steps`, and nothing else changed.
pub open spec fn attempt_after(
    a: ProductAttemptV1,
    b: ProductAttemptV1,
    state: NativeV2ProductStateV1,
    code: Option<Seq<char>>,
    updated: i64,
    hosts: Seq<ProductHostV1>,
    steps: Seq<ProductStepV1>,
) -> bool {
    &&& b.attempt_id == a.attempt_id
    &&& b.approval_id == a.approval_id
    &&& b.revision_id == a.revision_id
    &&& b.revision_hash == a.revision_hash
    &&& b.revision_index == a.revision_index
    &&& b.expires_at == a.expires_at
    &&& b.created_at == a.created_at
    &&& b.state == state
    &&& match code {
        Some(c) => b.failure_code is Some && b.failure_code.unwrap()@ == c,
        None => b.failure_code == a.failure_code,
    }
    &&& b.updated_at == updated
    &&& b.hosts@ == hosts
    &&& b.steps@ == steps
}

/// `after` is `before` with the attempt at `xi` replaced and every other
/// attempt as it was.
pub open spec fn only_attempt_changed(before: Seq<ProductAttemptV1>, after: Seq<ProductAttemptV1>, xi: int) -> bool {
    &&& after.len() == before.len()
    &&& forall|j: int| 0 <= j < after.len() && j != xi ==> #[trigger] after[j] == before[j]
}

/// `after` is `before` with the revision at `ri`, when it is in state
/// `from`, moved to `to` at `now` with its failure code set to `code` (kept
/// when `code` is none); a revision in another state, and every other
/// revision, stays as it was.
pub open spec fn revision_moved(
    before: Seq<ProductRevisionRecordV1>,
    after: Seq<ProductRevisionRecordV1>,
    ri: int,
    from: NativeV2ProductStateV1,
    to: NativeV2ProductStateV1,
    code: Option<Seq<char>>,
    now: i64,
) -> bool {
    &&& after.len() == before.len()
    &&& forall|j: int| 0 <= j < after.len() && j != ri ==> #[trigger] after[j] == before[j]
    &&& if before[ri].state == from {
        &&& after[ri].revision == before[ri].revision
        &&& after[ri].approval == before[ri].approval
        &&& after[ri].state == to
        &&& after[ri].updated_at == now
        &&& match code {
            Some(c) => after[ri].failure_code is Some && after[ri].failure_code.unwrap()@ == c,
            None => after[ri].failure_code == before[ri].failure_code,
        }
    } else {
        after[ri] == before[ri]
    }
}

/// The Host record after its readiness `ready` and code `code` arrived.
pub open spec fn host_reported(h: ProductHostV1, ready: bool, code: Option<String>) -> ProductHostV1 {
    ProductHostV1 {
        readiness: if ready {
            ReadinessStateV1::Ready
        } else {
            ReadinessStateV1::Unavailable
        },
        readiness_code: code,
        ..h
    }
}

/// Why readiness result `m`, arriving over `captured` at `now` on the local
/// Host `local`, is refused, in the order the checks are made: a result
/// from another protocol, expired, or from another Bridge, peer or local
/// Host than its session; no attempt checking readiness with that
/// participant; a participant reached over no session; a result for
/// another revision, approval or correlation, outliving its attempt, over
/// another session, or repeated; and, when it completes the barrier, a
/// peer session that no longer stands.
pub open spec fn readiness_blocker(
    protocol: Seq<char>,
    xs: Seq<ProductAttemptV1>,
    m: NativeV2ReadinessV1,
    captured: ProductSessionV1,
    local: Seq<char>,
    live: Seq<HostSessionBinding>,
    now: i64,
) -> Option<&'static str> {
    let xi = attempt_index(xs, m.attempt_id@);
    let a = xs[xi];
    let hi = host_index(a.hosts@, m.participant@);
    let h = a.hosts@[hi];
    if !(m.protocol_version@ == protocol && m.expires_at > now && m.bridge_id@ == captured.binding.bridge_id@
        && m.host_ref@ == captured.binding.peer_host_ref@ && local == captured.binding.local_host_ref@) {
        Some("Native v2 readiness result Host/session is invalid.")
    } else if !(has_attempt(xs, m.attempt_id@) && a.state == NativeV2ProductStateV1::CheckingReadiness
        && has_host(a.hosts@, m.participant@)) {
        Some("Native v2 readiness result is late or unknown.")
    } else if h.session is None {
        Some("Native v2 Host binding is unavailable.")
    } else if !(a.revision_id@ == m.revision_id@ && a.revision_hash@ == m.revision_hash@ && a.approval_id@
        == m.approval_id@ && a.expires_at >= m.expires_at && h.correlation_id is Some
        && h.correlation_id.unwrap()@ == m.correlation_id@ && m.session_binding_ref@
        == h.session.unwrap().binding_ref@ && same_product_session(h.session.unwrap(), captured)
        && h.readiness == ReadinessStateV1::Pending) {
        Some("Native v2 readiness result correlation is invalid or replayed.")
    } else if m.ready && all_ready(a.hosts@.update(hi, host_reported(h, m.ready, m.code))) && !sessions_current(
        a.hosts@,
        live,
        now,
    ) {
        Some("Native v2 Host session is no longer current.")
    } else {
        None
    }
}

impl NativeV2ProductLedgerV1 {
    proof fn lemma_host_unique(&self, xi: int, i: int, j: int, p: Seq<char>)
        requires
            self.wf(),
            0 <= xi < self.spec_attempts().len(),
            host_at(self.spec_attempts()[xi].hosts@, i, p),
            host_at(self.spec_attempts()[xi].hosts@, j, p),
        ensures
            i == j,
    {
        let a = self.spec_attempts()[xi];
        let r = self.spec_revisions()[a.revision_index as int].revision;
        assert(attempt_consistent(a, self.spec_revisions()[a.revision_index as int]));
        assert(a.hosts@[i].participant_ref@ == r.participants@[i].participant_ref@);
        assert(a.hosts@[j].participant_ref@ == r.participants@[j].participant_ref@);
        if i < j {
            assert(r.participants@[i].participant_ref@ != r.participants@[j].participant_ref@);
        } else if j < i {
            assert(r.participants@[j].participant_ref@ != r.participants@[i].participant_ref@);
        }
    }

    fn find_host(&self, xi: usize, p: &str) -> (r: Option<usize>)
        requires
            self.wf(),
            xi < self.spec_attempts().len(),
        ensures
            r matches Some(i) ==> host_at(self.spec_attempts()[xi as int].hosts@, i as int, p@) && i as int
                == host_index(self.spec_attempts()[xi as int].hosts@, p@),
            r is None ==> !has_host(self.spec_attempts()[xi as int].hosts@, p@),
    {
        let hs = &self.attempts[xi].hosts;
        let mut i: usize = 0;
        while i < hs.len()
            invariant
                self.wf(),
                xi < self.spec_attempts().len(),
                hs@ == self.spec_attempts()[xi as int].hosts@,
                i <= hs@.len(),
                forall|k: int| 0 <= k < i ==> !#[trigger] host_at(hs@, k, p@),
            decreases hs@.len() - i,
        {
            if same_text(hs[i].participant_ref.as_str(), p) {
                proof {
                    let c = host_index(hs@, p@);
                    self.lemma_host_unique(xi as int, i as int, c, p@);
                }
                return Some(i);
            }
            i = i + 1;
        }
        None
    }
}

fn session_is_current(live: &Vec<HostSessionBinding>, s: &ProductSessionV1, now: i64) -> (b: bool)
    ensures
        b == session_current(live@, *s, now),
{
    if s.binding.expires_at <= now {
        return false;
    }
    let mut j: usize = 0;
    while j < live.len()
        invariant
            s.binding.expires_at > now,
            j <= live@.len(),
            forall|k: int| 0 <= k < j ==> !same_session(#[trigger] live@[k], s.binding),
        decreases live@.len() - j,
    {
        if live[j].same(&s.binding) {
            return true;
        }
        j = j + 1;
    }
    false
}

fn all_sessions_current(hosts: &Vec<ProductHostV1>, live: &Vec<HostSessionBinding>, now: i64) -> (b: bool)
    ensures
        b == sessions_current(hosts@, live@, now),
{
    let mut i: usize = 0;
    while i < hosts.len()
        invariant
            i <= hosts@.len(),
            forall|k: int| 0 <= k < i && (#[trigger] hosts@[k]).session is Some ==> session_current(live@, hosts@[k].session.unwrap(), now),
        decreases hosts@.len() - i,
    {
        match &hosts[i].session {
            Some(s) => {
                if !session_is_current(live, s, now) {
                    return false;
                }
            },
            None => {},
        }
        i = i + 1;
    }
    true
}

fn every_host_ready(hosts: &Vec<ProductHostV1>) -> (b: bool)
    ensures
        b == all_ready(hosts@),
{
    let mut i: usize = 0;
    while i < hosts.len()
        invariant
            i <= hosts@.len(),
            forall|k: int| 0 <= k < i ==> (#[trigger] hosts@[k]).readiness == ReadinessStateV1::Ready,
        decreases hosts@.len() - i,
    {
        match hosts[i].readiness {
            ReadinessStateV1::Ready => {},
            _ => {
                return false;
            },
        }
        i = i + 1;
    }
    true
}

fn others_ready(hosts: &Vec<ProductHostV1>, hi: usize) -> (b: bool)
    ensures
        b == (forall|k: int| 0 <= k < hosts@.len() && k != hi ==> (#[trigger] hosts@[k]).readiness == ReadinessStateV1::Ready),
{
    let mut i: usize = 0;
    while i < hosts.len()
        invariant
            i <= hosts@.len(),
            forall|k: int| 0 <= k < i && k != hi ==> (#[trigger] hosts@[k]).readiness == ReadinessStateV1::Ready,
        decreases hosts@.len() - i,
    {
        if i != hi {
            match hosts[i].readiness {
                ReadinessStateV1::Ready => {},
                _ => {
                    return false;
                },
            }
        }
        i = i + 1;
    }
    true
}

fn same_opt_str(a: &Option<String>, b: &str) -> (r: bool)
    ensures
        r == (a is Some && a.unwrap()@ == b@),
{
    match a {
        Some(x) => same_text(x.as_str(), b),
        None => false,
    }
}

impl NativeV2ProductLedgerV1 {
    /// Moves the revision at `ri` from state `from` to `to` at `now`, with
    /// failure code `code` when one is given; a revision in another state
    /// stays as it was.
    fn move_revision(
        &mut self,
        ri: usize,
        from: NativeV2ProductStateV1,
        to: NativeV2ProductStateV1,
        code: Option<&str>,
        now: i64,
    )
        requires
            ri < old(self).spec_revisions().len(),
            from != NativeV2ProductStateV1::Draft,
            to != NativeV2ProductStateV1::Draft,
        ensures
            revision_moved(
                old(self).spec_revisions(),
                final(self).spec_revisions(),
                ri as int,
                from,
                to,
                match code {
                    Some(c) => Some(c@),
                    None => None,
                },
                now,
            ),
            same_revisions(old(self).spec_revisions(), final(self).spec_revisions()),
            final(self).spec_attempts() == old(self).spec_attempts(),
            final(self).spec_protocol() == old(self).spec_protocol(),
    {
        if self.revisions[ri].state == from {
            self.revisions[ri].state = to;
            self.revisions[ri].updated_at = now;
            match code {
                Some(c) => {
                    self.revisions[ri].failure_code = Some(c.to_string());
                },
                None => {},
            }
        }
    }

    /// Takes readiness result `result` that arrived over session `captured`
    /// at `now` on the local Host `local_host_ref`, the transport holding
    /// the sessions `live`. The participant's Host is recorded ready or
    /// unavailable with the result's code. One unavailable Host fails the
    /// whole attempt, and an attempt's revision still checking readiness,
    /// with `whole_plan_unavailable`. The last ready Host completes the
    /// barrier: the attempt, and its revision still checking readiness,
    /// move to preparing, and every peer gets an attempt start.
    pub fn accept_readiness(
        &mut self,
        result: NativeV2ReadinessV1,
        captured: &ProductSessionV1,
        local_host_ref: &str,
        live: &Vec<HostSessionBinding>,
        now: i64,
    ) -> (r: AppResult<Vec<ProductDispatchV1>>)
        requires
            old(self).wf(),
        ensures
            final(self).wf(),
            final(self).spec_protocol() == old(self).spec_protocol(),
            old(self).evolves_to(&*final(self)),
            match readiness_blocker(
                old(self).spec_protocol(),
                old(self).spec_attempts(),
                result,
                *captured,
                local_host_ref@,
                live@,
                now,
            ) {
                Some(m) => {
                    &&& r == Err::<Vec<ProductDispatchV1>, AppError>(AppError::InvalidInput(m))
                    &&& final(self).spec_revisions() == old(self).spec_revisions()
                    &&& final(self).spec_attempts() == old(self).spec_attempts()
                },
                None => {
                    let xs = old(self).spec_attempts();
                    let xi = attempt_index(xs, result.attempt_id@);
                    let a = xs[xi];
                    let hi = host_index(a.hosts@, result.participant@);
                    let hosts = a.hosts@.update(hi, host_reported(a.hosts@[hi], result.ready, result.code));
                    let ri = a.revision_index as int;
                    &&& r is Ok
                    &&& only_attempt_changed(xs, final(self).spec_attempts(), xi)
                    &&& if !result.ready {
                        &&& attempt_after(
                            a,
                            final(self).spec_attempts()[xi],
                            NativeV2ProductStateV1::Failed,
                            Some("whole_plan_unavailable"@),
                            now,
                            hosts,
                            a.steps@,
                        )
                        &&& revision_moved(
                            old(self).spec_revisions(),
                            final(self).spec_revisions(),
                            ri,
                            NativeV2ProductStateV1::CheckingReadiness,
                            NativeV2ProductStateV1::Failed,
                            Some("whole_plan_unavailable"@),
                            now,
                        )
                        &&& r.unwrap()@.len() == 0
                    } else if !all_ready(hosts) {
                        &&& attempt_after(a, final(self).spec_attempts()[xi], a.state, None, a.updated_at, hosts, a.steps@)
                        &&& final(self).spec_revisions() == old(self).spec_revisions()
                        &&& r.unwrap()@.len() == 0
                    } else {
                        &&& attempt_after(
                            a,
                            final(self).spec_attempts()[xi],
                            NativeV2ProductStateV1::Preparing,
                            None,
                            now,
                            hosts,
                            a.steps@,
                        )
                        &&& revision_moved(
                            old(self).spec_revisions(),
                            final(self).spec_revisions(),
                            ri,
                            NativeV2ProductStateV1::CheckingReadiness,
                            NativeV2ProductStateV1::Preparing,
                            None,
                            now,
                        )
                        &&& dispatches_view(r.unwrap()@) == dispatches_to(hosts, seq![DispatchKindV1::AttemptStart])
                    }
                },
            },
    {
        let header_ok = same_text(result.protocol_version.as_str(), self.protocol_version.as_str())
            && result.expires_at > now && same_text(result.bridge_id.as_str(), captured.binding.bridge_id.as_str())
            && same_text(result.host_ref.as_str(), captured.binding.peer_host_ref.as_str()) && same_text(
            local_host_ref,
            captured.binding.local_host_ref.as_str(),
        );
        if !header_ok {
            return Err(AppError::InvalidInput("Native v2 readiness result Host/session is invalid."));
        }
        let xi = match self.find_attempt(result.attempt_id.as_str()) {
            Some(xi) => xi,
            None => {
                return Err(AppError::InvalidInput("Native v2 readiness result is late or unknown."));
            },
        };
        proof {
            let c = attempt_index(self.spec_attempts(), result.attempt_id@);
            self.lemma_attempt_unique(xi as int, c, result.attempt_id@);
        }
        if self.attempts[xi].state != NativeV2ProductStateV1::CheckingReadiness {
            return Err(AppError::InvalidInput("Native v2 readiness result is late or unknown."));
        }
        let hi = match self.find_host(xi, result.participant.as_str()) {
            Some(hi) => hi,
            None => {
                return Err(AppError::InvalidInput("Native v2 readiness result is late or unknown."));
            },
        };
        let a = &self.attempts[xi];
        let h = &a.hosts[hi];
        let stored = match &h.session {
            Some(s) => s,
            None => {
                return Err(AppError::InvalidInput("Native v2 Host binding is unavailable."));
            },
        };
        let correlated = same_text(a.revision_id.as_str(), result.revision_id.as_str()) && same_text(
            a.revision_hash.as_str(),
            result.revision_hash.as_str(),
        ) && same_text(a.approval_id.as_str(), result.approval_id.as_str()) && a.expires_at
            >= result.expires_at && same_opt_str(&h.correlation_id, result.correlation_id.as_str())
            && same_text(result.session_binding_ref.as_str(), stored.binding_ref.as_str()) && same_text(
            stored.binding_ref.as_str(),
            captured.binding_ref.as_str(),
        ) && stored.binding.same(&captured.binding) && h.readiness == ReadinessStateV1::Pending;
        if !correlated {
            return Err(
                AppError::InvalidInput("Native v2 readiness result correlation is invalid or replayed."),
            );
        }
        let ready = result.ready;
        let ghost hosts2 = a.hosts@.update(hi as int, host_reported(a.hosts@[hi as int], result.ready, result.code));
        if ready {
            let complete = others_ready(&a.hosts, hi);
            proof {
                assert(complete == all_ready(hosts2)) by {
                    if complete {
                        assert forall|k: int| 0 <= k < hosts2.len() implies (#[trigger] hosts2[k]).readiness
                            == ReadinessStateV1::Ready by {
                            if k != hi {
                                assert(hosts2[k] == a.hosts@[k]);
                            }
                        }
                    } else {
                        let k = choose|k: int| 0 <= k < a.hosts@.len() && k != hi && (#[trigger] a.hosts@[k]).readiness
                            != ReadinessStateV1::Ready;
                        assert(hosts2[k] == a.hosts@[k]);
                    }
                }
            }
            if complete && !all_sessions_current(&a.hosts, live, now) {
                return Err(AppError::InvalidInput("Native v2 Host session is no longer current."));
            }
        }
        let ghost rs0 = self.spec_revisions();
        let ghost xs0 = self.spec_attempts();
        let ri = self.attempts[xi].revision_index;
        self.attempts[xi].hosts[hi].readiness = if ready {
            ReadinessStateV1::Ready
        } else {
            ReadinessStateV1::Unavailable
        };
        self.attempts[xi].hosts[hi].readiness_code = result.code;
        proof {
            assert(self.spec_attempts()[xi as int].hosts@ =~= hosts2);
        }
        if !ready {
            self.attempts[xi].state = NativeV2ProductStateV1::Failed;
            self.attempts[xi].failure_code = Some(String::from_str("whole_plan_unavailable"));
            self.attempts[xi].updated_at = now;
            self.move_revision(
                ri,
                NativeV2ProductStateV1::CheckingReadiness,
                NativeV2ProductStateV1::Failed,
                Some("whole_plan_unavailable"),
                now,
            );
            proof {
                self.lemma_after_attempt_change(rs0, xs0, xi as int);
            }
            return Ok(Vec::new());
        }
        if !every_host_ready(&self.attempts[xi].hosts) {
            proof {
                assert(same_revisions(rs0, self.spec_revisions()));
                self.lemma_after_attempt_change(rs0, xs0, xi as int);
            }
            return Ok(Vec::new());
        }
        self.attempts[xi].state = NativeV2ProductStateV1::Preparing;
        self.attempts[xi].updated_at = now;
        self.move_revision(
            ri,
            NativeV2ProductStateV1::CheckingReadiness,
            NativeV2ProductStateV1::Preparing,
            None,
            now,
        );
        proof {
            self.lemma_after_attempt_change(rs0, xs0, xi as int);
        }
        let kinds = vec![DispatchKindV1::AttemptStart];
        let out = dispatch_all(&self.attempts[xi].hosts, &kinds);
        proof {
            assert(kinds@ =~= seq![DispatchKindV1::AttemptStart]);
        }
        Ok(out)
    }

    /// The ledger stays well formed when only the attempt at `xi` changed,
    /// keeping its identity and revision, consistent with that revision,
    /// and the revisions only moved states.
    proof fn lemma_after_attempt_change(&self, rs0: Seq<ProductRevisionRecordV1>, xs0: Seq<ProductAttemptV1>, xi: int)
        requires
            ledger_ok(rs0, xs0),
            0 <= xi < xs0.len(),
            same_revisions(rs0, self.spec_revisions()),
            only_attempt_changed(xs0, self.spec_attempts(), xi),
            self.spec_attempts()[xi].attempt_id == xs0[xi].attempt_id,
            self.spec_attempts()[xi].revision_index == xs0[xi].revision_index,
            attempt_consistent(
                self.spec_attempts()[xi],
                self.spec_revisions()[xs0[xi].revision_index as int],
            ),
        ensures
            self.wf(),
    {
        let rs1 = self.spec_revisions();
        let xs1 = self.spec_attempts();
        assert forall|j: int| 0 <= j < xs1.len() implies (#[trigger] xs1[j]).attempt_id@ == xs0[j].attempt_id@
            && xs1[j].revision_index == xs0[j].revision_index && attempt_consistent(
            xs1[j],
            rs1[xs1[j].revision_index as int],
        ) by {
            if j != xi {
                let k = xs0[j].revision_index as int;
                assert(attempt_consistent(xs0[j], rs0[k]));
                lemma_consistent_same_record(xs0[j], rs0[k], rs1[k]);
            }
        }
        lemma_ledger_ok_step(rs0, xs0, rs1, xs1);
    }
}

/// A peer Host's answer that it prepared its admission of an attempt.
#[derive(Clone, Debug, PartialEq, Eq)]
pub struct NativeV2PreparedV1 {
    pub protocol_version: String,
    pub message_id: String,
    pub correlation_id: String,
    pub attempt_id: String,
    pub approval_id: String,
    pub plan_id: String,
    pub revision_id: String,
    pub revision_hash: String,
    pub bridge_id: String,
    pub participant: String,
    pub host_ref: String,
    pub admission_ref: String,
    pub session_binding_ref: String,
    pub expires_at: i64,
}

/// The Host record after it prepared its admission `admission_ref`.
pub open spec fn host_admitted(h: ProductHostV1, admission_ref: String) -> ProductHostV1 {
    ProductHostV1 { admission: AdmissionStateV1::Prepared, admission_ref: Some(admission_ref), ..h }
}

/// Every Host of `hs` committed.
pub open spec fn committed_hosts(hs: Seq<ProductHostV1>) -> Seq<ProductHostV1> {
    Seq::new(hs.len(), |i: int| ProductHostV1 { admission: AdmissionStateV1::Committed, ..hs[i] })
}

pub open spec fn all_prepared(hs: Seq<ProductHostV1>) -> bool {
    forall|i: int| 0 <= i < hs.len() ==> (#[trigger] hs[i]).admission == AdmissionStateV1::Prepared
}

/// The steps of an attempt of `r` once every pending step whose
/// dependencies all completed became eligible.
pub open spec fn projected(r: PlanRevisionV1, ss: Seq<ProductStepV1>) -> Seq<ProductStepV1> {
    Seq::new(
        ss.len(),
        |k: int|
            if ss[k].state == StepStateV1::Pending && dependencies_done(r.steps@[k], ss) {
                ProductStepV1 { state: StepStateV1::Eligible, ..ss[k] }
            } else {
                ss[k]
            },
    )
}

/// Why prepared response `m`, arriving over `captured` at `now`, is refused,
/// in the order the checks are made: a response from another protocol,
/// expired, from another Bridge, peer or session than its own, or without
/// an admission; no preparing attempt with that participant; a participant
/// reached over no session; a response for another revision, approval or
/// correlation, outliving its attempt, repeated, or over another session;
/// and, when it completes the barrier, a peer session that no longer
/// stands.
pub open spec fn prepared_blocker(
    protocol: Seq<char>,
    xs: Seq<ProductAttemptV1>,
    m: NativeV2PreparedV1,
    captured: ProductSessionV1,
    live: Seq<HostSessionBinding>,
    now: i64,
) -> Option<&'static str> {
    let xi = attempt_index(xs, m.attempt_id@);
    let a = xs[xi];
    let hi = host_index(a.hosts@, m.participant@);
    let h = a.hosts@[hi];
    if !(m.protocol_version@ == protocol && m.expires_at > now && m.bridge_id@ == captured.binding.bridge_id@
        && m.host_ref@ == captured.binding.peer_host_ref@ && m.session_binding_ref@ == captured.binding_ref@
        && utf8(trim(m.admission_ref@)).len() > 0) {
        Some("Native v2 prepared response Host/session is invalid.")
    } else if !(has_attempt(xs, m.attempt_id@) && a.state == NativeV2ProductStateV1::Preparing && has_host(
        a.hosts@,
        m.participant@,
    )) {
        Some("Native v2 prepared response is late or unknown.")
    } else if h.session is None {
        Some("Native v2 prepared Host is unavailable.")
    } else if !(a.revision_id@ == m.revision_id@ && a.revision_hash@ == m.revision_hash@ && a.approval_id@
        == m.approval_id@ && a.expires_at >= m.expires_at && h.correlation_id is Some
        && h.correlation_id.unwrap()@ == m.correlation_id@ && h.admission == AdmissionStateV1::Pending
        && same_product_session(h.session.unwrap(), captured)) {
        Some("Native v2 prepared response correlation is invalid or replayed.")
    } else if all_prepared(a.hosts@.update(hi, host_admitted(h, m.admission_ref))) && !sessions_current(
        a.hosts@,
        live,
        now,
    ) {
        Some("Native v2 Host session is no longer current.")
    } else {
        None
    }
}

fn step_is_done(ss: &Vec<ProductStepV1>, id: &str) -> (b: bool)
    ensures
        b == step_done(ss@, id@),
{
    let mut j: usize = 0;
    while j < ss.len()
        invariant
            j <= ss@.len(),
            forall|k: int| 0 <= k < j ==> !(#[trigger] ss@[k].step_id@ == id@ && ss@[k].state == StepStateV1::Completed),
        decreases ss@.len() - j,
    {
        let completed = match ss[j].state {
            StepStateV1::Completed => true,
            _ => false,
        };
        if completed && same_text(ss[j].step_id.as_str(), id) {
            return true;
        }
        j = j + 1;
    }
    false
}

fn dependencies_completed(s: &PlanStepV1, ss: &Vec<ProductStepV1>) -> (b: bool)
    ensures
        b == dependencies_done(*s, ss@),
{
    let mut d: usize = 0;
    while d < s.dependencies.len()
        invariant
            d <= s.dependencies@.len(),
            forall|k: int| 0 <= k < d ==> step_done(ss@, #[trigger] s.dependencies@[k]@),
        decreases s.dependencies@.len() - d,
    {
        if !step_is_done(ss, s.dependencies[d].as_str()) {
            return false;
        }
        d = d + 1;
    }
    true
}

/// Whether a step is done depends only on the identities and completions
/// of the steps.
pub proof fn lemma_step_done_same(ss0: Seq<ProductStepV1>, ss1: Seq<ProductStepV1>, id: Seq<char>)
    requires
        ss1.len() == ss0.len(),
        forall|j: int|
            0 <= j < ss1.len() ==> (#[trigger] ss1[j]).step_id@ == ss0[j].step_id@ && (ss1[j].state
                == StepStateV1::Completed <==> ss0[j].state == StepStateV1::Completed),
    ensures
        step_done(ss1, id) == step_done(ss0, id),
{
    if step_done(ss0, id) {
        let j = choose|j: int| 0 <= j < ss0.len() && #[trigger] ss0[j].step_id@ == id && ss0[j].state == StepStateV1::Completed;
        assert(ss1[j].step_id@ == id);
    }
    if step_done(ss1, id) {
        let j = choose|j: int| 0 <= j < ss1.len() && #[trigger] ss1[j].step_id@ == id && ss1[j].state == StepStateV1::Completed;
        assert(ss0[j].step_id@ == id);
    }
}

/// Completions stay ordered when no step completes and no completion is
/// undone.
pub proof fn lemma_completions_ordered_same(r: PlanRevisionV1, ss0: Seq<ProductStepV1>, ss1: Seq<ProductStepV1>)
    requires
        completions_ordered(r, ss0),
        ss1.len() == ss0.len(),
        forall|j: int|
            0 <= j < ss1.len() ==> (#[trigger] ss1[j]).step_id@ == ss0[j].step_id@ && (ss1[j].state
                == StepStateV1::Completed <==> ss0[j].state == StepStateV1::Completed),
    ensures
        completions_ordered(r, ss1),
{
    assert forall|k: int| 0 <= k < ss1.len() && (#[trigger] ss1[k]).state == StepStateV1::Completed implies dependencies_done(
        r.steps@[k],
        ss1,
    ) by {
        assert(ss0[k].state == StepStateV1::Completed);
        assert(dependencies_done(r.steps@[k], ss0));
        assert forall|d: int| 0 <= d < r.steps@[k].dependencies@.len() implies step_done(
            ss1,
            #[trigger] r.steps@[k].dependencies@[d]@,
        ) by {
            lemma_step_done_same(ss0, ss1, r.steps@[k].dependencies@[d]@);
        }
    }
}

/// Projection completes nothing and makes eligible only steps whose
/// dependencies all completed.
pub proof fn lemma_projected_ordered(r: PlanRevisionV1, ss: Seq<ProductStepV1>)
    requires
        ss.len() == r.steps@.len(),
        completions_ordered(r, ss),
        eligibility_ordered(r, ss),
    ensures
        completions_ordered(r, projected(r, ss)),
        eligibility_ordered(r, projected(r, ss)),
        forall|j: int|
            0 <= j < ss.len() ==> (#[trigger] projected(r, ss)[j]).step_id@ == ss[j].step_id@ && (projected(
                r,
                ss,
            )[j].state == StepStateV1::Completed <==> ss[j].state == StepStateV1::Completed),
{
    let p = projected(r, ss);
    assert forall|j: int| 0 <= j < ss.len() implies (#[trigger] p[j]).step_id@ == ss[j].step_id@ && (p[j].state
        == StepStateV1::Completed <==> ss[j].state == StepStateV1::Completed) by {
    }
    lemma_completions_ordered_same(r, ss, p);
    assert forall|k: int| 0 <= k < p.len() && (#[trigger] p[k]).state == StepStateV1::Eligible implies dependencies_done(
        r.steps@[k],
        p,
    ) by {
        assert(dependencies_done(r.steps@[k], ss));
        assert forall|d: int| 0 <= d < r.steps@[k].dependencies@.len() implies step_done(
            p,
            #[trigger] r.steps@[k].dependencies@[d]@,
        ) by {
            lemma_step_done_same(ss, p, r.steps@[k].dependencies@[d]@);
        }
    }
}

fn project_steps(r: &PlanRevisionV1, ss: &mut Vec<ProductStepV1>)
    requires
        old(ss)@.len() == r.steps@.len(),
    ensures
        final(ss)@ == projected(*r, old(ss)@),
{
    let ghost ss0 = ss@;
    let mut flags: Vec<bool> = Vec::new();
    let mut k: usize = 0;
    while k < ss.len()
        invariant
            ss@ == ss0,
            ss0.len() == r.steps@.len(),
            k <= ss0.len(),
            flags@.len() == k,
            forall|j: int|
                0 <= j < k ==> (#[trigger] flags@[j]) == (ss0[j].state == StepStateV1::Pending && dependencies_done(
                    r.steps@[j],
                    ss0,
                )),
        decreases ss0.len() - k,
    {
        let pending = match ss[k].state {
            StepStateV1::Pending => true,
            _ => false,
        };
        let f = pending && dependencies_completed(&r.steps[k], ss);
        flags.push(f);
        k = k + 1;
    }
    let mut k: usize = 0;
    while k < ss.len()
        invariant
            ss@.len() == ss0.len(),
            flags@.len() == ss0.len(),
            k <= ss0.len(),
            forall|j: int|
                0 <= j < ss0.len() ==> (#[trigger] flags@[j]) == (ss0[j].state == StepStateV1::Pending && dependencies_done(
                    r.steps@[j],
                    ss0,
                )),
            forall|j: int| 0 <= j < k ==> #[trigger] ss@[j] == projected(*r, ss0)[j],
            forall|j: int| k <= j < ss0.len() ==> #[trigger] ss@[j] == ss0[j],
        decreases ss0.len() - k,
    {
        if flags[k] {
            ss[k].state = StepStateV1::Eligible;
        }
        k = k + 1;
    }
    proof {
        assert(ss@ =~= projected(*r, ss0));
    }
}

impl NativeV2ProductLedgerV1 {
    /// Takes prepared response `result` that arrived over session
    /// `captured` at `now`, the transport holding the sessions `live`. The
    /// participant's Host is recorded prepared with its admission. The last
    /// prepared Host completes the barrier: every Host commits, the attempt,
    /// and its revision still preparing, run, every pending step whose
    /// dependencies all completed becomes eligible, and every peer gets an
    /// attempt commit.
    pub fn accept_prepared(
        &mut self,
        result: NativeV2PreparedV1,
        captured: &ProductSessionV1,
        live: &Vec<HostSessionBinding>,
        now: i64,
    ) -> (r: AppResult<Vec<ProductDispatchV1>>)
        requires
            old(self).wf(),
        ensures
            final(self).wf(),
            final(self).spec_protocol() == old(self).spec_protocol(),
            old(self).evolves_to(&*final(self)),
            match prepared_blocker(old(self).spec_protocol(), old(self).spec_attempts(), result, *captured, live@, now) {
                Some(m) => {
                    &&& r == Err::<Vec<ProductDispatchV1>, AppError>(AppError::InvalidInput(m))
                    &&& final(self).spec_revisions() == old(self).spec_revisions()
                    &&& final(self).spec_attempts() == old(self).spec_attempts()
                },
                None => {
                    let xs = old(self).spec_attempts();
                    let xi = attempt_index(xs, result.attempt_id@);
                    let a = xs[xi];
                    let hi = host_index(a.hosts@, result.participant@);
                    let hosts = a.hosts@.update(hi, host_admitted(a.hosts@[hi], result.admission_ref));
                    let ri = a.revision_index as int;
                    &&& r is Ok
                    &&& only_attempt_changed(xs, final(self).spec_attempts(), xi)
                    &&& if !all_prepared(hosts) {
                        &&& attempt_after(a, final(self).spec_attempts()[xi], a.state, None, a.updated_at, hosts, a.steps@)
                        &&& final(self).spec_revisions() == old(self).spec_revisions()
                        &&& r.unwrap()@.len() == 0
                    } else {
                        &&& attempt_after(
                            a,
                            final(self).spec_attempts()[xi],
                            NativeV2ProductStateV1::Running,
                            None,
                            now,
                            committed_hosts(hosts),
                            projected(old(self).spec_revisions()[ri].revision, a.steps@),
                        )
                        &&& revision_moved(
                            old(self).spec_revisions(),
                            final(self).spec_revisions(),
                            ri,
                            NativeV2ProductStateV1::Preparing,
                            NativeV2ProductStateV1::Running,
                            None,
                            now,
                        )
                        &&& dispatches_view(r.unwrap()@) == dispatches_to(hosts, seq![DispatchKindV1::AttemptCommit])
                    }
                },
            },
    {
        let header_ok = same_text(result.protocol_version.as_str(), self.protocol_version.as_str())
            && result.expires_at > now && same_text(result.bridge_id.as_str(), captured.binding.bridge_id.as_str())
            && same_text(result.host_ref.as_str(), captured.binding.peer_host_ref.as_str()) && same_text(
            result.session_binding_ref.as_str(),
            captured.binding_ref.as_str(),
        ) && byte_len(trimmed_text(result.admission_ref.as_str())) > 0;
        if !header_ok {
            return Err(AppError::InvalidInput("Native v2 prepared response Host/session is invalid."));
        }
        let xi = match self.find_attempt(result.attempt_id.as_str()) {
            Some(xi) => xi,
            None => {
                return Err(AppError::InvalidInput("Native v2 prepared response is late or unknown."));
            },
        };
        proof {
            let c = attempt_index(self.spec_attempts(), result.attempt_id@);
            self.lemma_attempt_unique(xi as int, c, result.attempt_id@);
        }
        if self.attempts[xi].state != NativeV2ProductStateV1::Preparing {
            return Err(AppError::InvalidInput("Native v2 prepared response is late or unknown."));
        }
        let hi = match self.find_host(xi, result.participant.as_str()) {
            Some(hi) => hi,
            None => {
                return Err(AppError::InvalidInput("Native v2 prepared response is late or unknown."));
            },
        };
        let a = &self.attempts[xi];
        let h = &a.hosts[hi];
        let stored = match &h.session {
            Some(s) => s,
            None => {
                return Err(AppError::InvalidInput("Native v2 prepared Host is unavailable."));
            },
        };
        let correlated = same_text(a.revision_id.as_str(), result.revision_id.as_str()) && same_text(
            a.revision_hash.as_str(),
            result.revision_hash.as_str(),
        ) && same_text(a.approval_id.as_str(), result.approval_id.as_str()) && a.expires_at
            >= result.expires_at && same_opt_str(&h.correlation_id, result.correlation_id.as_str())
            && h.admission == AdmissionStateV1::Pending && same_text(
            stored.binding_ref.as_str(),
            captured.binding_ref.as_str(),
        ) && stored.binding.same(&captured.binding);
        if !correlated {
            return Err(
                AppError::InvalidInput("Native v2 prepared response correlation is invalid or replayed."),
            );
        }
        let ghost hosts2 = a.hosts@.update(hi as int, host_admitted(a.hosts@[hi as int], result.admission_ref));
        let complete = others_prepared(&a.hosts, hi);
        proof {
            assert(complete == all_prepared(hosts2)) by {
                if complete {
                    assert forall|k: int| 0 <= k < hosts2.len() implies (#[trigger] hosts2[k]).admission
                        == AdmissionStateV1::Prepared by {
                        if k != hi {
                            assert(hosts2[k] == a.hosts@[k]);
                        }
                    }
                } else {
                    let k = choose|k: int| 0 <= k < a.hosts@.len() && k != hi && (#[trigger] a.hosts@[k]).admission
                        != AdmissionStateV1::Prepared;
                    assert(hosts2[k] == a.hosts@[k]);
                }
            }
        }
        if complete && !all_sessions_current(&a.hosts, live, now) {
            return Err(AppError::InvalidInput("Native v2 Host session is no longer current."));
        }
        let ghost rs0 = self.spec_revisions();
        let ghost xs0 = self.spec_attempts();
        let ri = self.attempts[xi].revision_index;
        self.attempts[xi].hosts[hi].admission = AdmissionStateV1::Prepared;
        self.attempts[xi].hosts[hi].admission_ref = Some(result.admission_ref);
        proof {
            assert(self.spec_attempts()[xi as int].hosts@ =~= hosts2);
        }
        if !complete {
            proof {
                assert(same_revisions(rs0, self.spec_revisions()));
                self.lemma_after_attempt_change(rs0, xs0, xi as int);
            }
            return Ok(Vec::new());
        }
        let kinds = vec![DispatchKindV1::AttemptCommit];
        let out = dispatch_all(&self.attempts[xi].hosts, &kinds);
        let mut i: usize = 0;
        while i < self.attempts[xi].hosts.len()
            invariant
                xi < self.attempts@.len(),
                self.attempts@.len() == xs0.len(),
                self.revisions@ == rs0,
                self.spec_protocol() == old(self).spec_protocol(),
                forall|j: int| 0 <= j < xs0.len() && j != xi ==> #[trigger] self.attempts@[j] == xs0[j],
                attempt_after(
                    xs0[xi as int],
                    self.attempts@[xi as int],
                    xs0[xi as int].state,
                    None,
                    xs0[xi as int].updated_at,
                    self.attempts@[xi as int].hosts@,
                    xs0[xi as int].steps@,
                ),
                self.attempts@[xi as int].hosts@.len() == hosts2.len(),
                i <= hosts2.len(),
                forall|j: int| 0 <= j < i ==> #[trigger] self.attempts@[xi as int].hosts@[j] == committed_hosts(hosts2)[j],
                forall|j: int| i <= j < hosts2.len() ==> #[trigger] self.attempts@[xi as int].hosts@[j] == hosts2[j],
            decreases hosts2.len() - i,
        {
            self.attempts[xi].hosts[i].admission = AdmissionStateV1::Committed;
            i = i + 1;
        }
        proof {
            assert(self.attempts@[xi as int].hosts@ =~= committed_hosts(hosts2));
        }
        self.attempts[xi].state = NativeV2ProductStateV1::Running;
        self.attempts[xi].updated_at = now;
        project_steps(&self.revisions[ri].revision, &mut self.attempts[xi].steps);
        self.move_revision(ri, NativeV2ProductStateV1::Preparing, NativeV2ProductStateV1::Running, None, now);
        proof {
            let rec = self.spec_revisions()[ri as int];
            let x1 = self.spec_attempts()[xi as int];
            let x0 = xs0[xi as int];
            assert(rec.revision == rs0[ri as int].revision);
            assert(attempt_consistent(x0, rs0[ri as int]));
            assert(all_ready(x0.hosts@));
            assert forall|j: int| 0 <= j < x1.hosts@.len() implies (#[trigger] x1.hosts@[j]).readiness
                == ReadinessStateV1::Ready by {
                assert(x1.hosts@[j] == committed_hosts(hosts2)[j]);
                if j != hi {
                    assert(hosts2[j] == x0.hosts@[j]);
                }
            }
            lemma_projected_ordered(rec.revision, x0.steps@);
            assert(steps_aligned(rec.revision, x1.steps@));
            assert(hosts_aligned(rec.revision, x1.hosts@));
            self.lemma_after_attempt_change(rs0, xs0, xi as int);
            assert(kinds@ =~= seq![DispatchKindV1::AttemptCommit]);
        }
        Ok(out)
    }
}

fn others_prepared(hosts: &Vec<ProductHostV1>, hi: usize) -> (b: bool)
    ensures
        b == (forall|k: int| 0 <= k < hosts@.len() && k != hi ==> (#[trigger] hosts@[k]).admission == AdmissionStateV1::Prepared),
{
    let mut i: usize = 0;
    while i < hosts.len()
        invariant
            i <= hosts@.len(),
            forall|k: int| 0 <= k < i && k != hi ==> (#[trigger] hosts@[k]).admission == AdmissionStateV1::Prepared,
        decreases hosts@.len() - i,
    {
        if i != hi {
            match hosts[i].admission {
                AdmissionStateV1::Prepared => {},
                _ => {
                    return false;
                },
            }
        }
        i = i + 1;
    }
    true
}

/// A peer Host's report that it completed one step of an attempt.
#[derive(Clone, Debug, PartialEq, Eq)]
pub struct NativeV2StepResultV1 {
    pub protocol_version: String,
    pub message_id: String,
    pub attempt_id: String,
    pub approval_id: String,
    pub plan_id: String,
    pub revision_id: String,
    pub revision_hash: String,
    pub bridge_id: String,
    pub step_id: String,
    pub operation: StepOperation,
    pub participant: String,
    pub host_ref: String,
    pub object: Option<NativeV2ObjectRevisionDtoV1>,
    pub content_digest: Option<String>,
    pub result_digest: Option<String>,
    pub session_binding_ref: String,
    pub completion_ref: String,
    pub completed_at: i64,
}

/// One object member: the key's JSON string, a colon and the value.
#[verifier::opaque]
pub open spec fn json_member(key: Seq<char>, value: Seq<u8>) -> Seq<u8> {
    json_string(key) + seq![58u8] + value
}

/// A JSON string, or `null` for none.
pub open spec fn json_opt_text(o: Option<String>) -> Seq<u8> {
    match o {
        Some(t) => json_string(t@),
        None => seq![110u8, 117u8, 108u8, 108u8],
    }
}

/// An object revision as a canonical JSON object, or `null` for none.
pub open spec fn json_opt_object(o: Option<NativeV2ObjectRevisionDtoV1>) -> Seq<u8> {
    match o {
        Some(d) => seq![123u8] + json_member("logicalObjectId"@, json_string(d.logical_object_id@))
            + seq![44u8] + json_member("revision"@, decimal(d.revision as nat)) + seq![125u8],
        None => seq![110u8, 117u8, 108u8, 108u8],
    }
}

/// The members `approvalId` to `completionRef` of a step result's
/// canonical JSON, each followed by a comma.
pub open spec fn semantic_part_a(m: NativeV2StepResultV1) -> Seq<u8> {
    json_member("approvalId"@, json_string(m.approval_id@)) + seq![44u8] + json_member(
        "attemptId"@,
        json_string(m.attempt_id@),
    ) + seq![44u8] + json_member("bridgeId"@, json_string(m.bridge_id@)) + seq![44u8] + json_member(
        "completedAt"@,
        signed_decimal(m.completed_at),
    ) + seq![44u8] + json_member("completionRef"@, json_string(""@)) + seq![44u8]
}

/// The members `contentDigest` to `participant`, each followed by a comma.
pub open spec fn semantic_part_b(m: NativeV2StepResultV1) -> Seq<u8> {
    json_member("contentDigest"@, json_opt_text(m.content_digest)) + seq![44u8] + json_member(
        "hostRef"@,
        json_string(m.host_ref@),
    ) + seq![44u8] + json_member("messageId"@, json_string(""@)) + seq![44u8] + json_member(
        "object"@,
        json_opt_object(m.object),
    ) + seq![44u8] + json_member("operation"@, json_string(operation_name(m.operation))) + seq![44u8]
        + json_member("participant"@, json_string(m.participant@)) + seq![44u8]
}

/// The members `planId` to `stepId`, separated by commas.
pub open spec fn semantic_part_c(m: NativeV2StepResultV1) -> Seq<u8> {
    json_member("planId"@, json_string(m.plan_id@)) + seq![44u8] + json_member(
        "protocolVersion"@,
        json_string(m.protocol_version@),
    ) + seq![44u8] + json_member("resultDigest"@, json_opt_text(m.result_digest)) + seq![44u8]
        + json_member("revisionHash"@, json_string(m.revision_hash@)) + seq![44u8] + json_member(
        "revisionId"@,
        json_string(m.revision_id@),
    ) + seq![44u8] + json_member("sessionBindingRef"@, json_string(m.session_binding_ref@))
        + seq![44u8] + json_member("stepId"@, json_string(m.step_id@))
}

/// The canonical JSON of step result `m` with its message id and
/// completion reference emptied: every field under its camelCase name,
/// members in ascending key order, no insignificant whitespace. This is what
/// the completion reference commits to.
pub open spec fn step_result_semantic(m: NativeV2StepResultV1) -> Seq<u8> {
    seq![123u8] + semantic_part_a(m) + semantic_part_b(m) + semantic_part_c(m) + seq![125u8]
}

/// The bytes hashed for the completion reference of a step result whose
/// canonical form is `semantic`.
pub open spec fn completion_input(semantic: Seq<u8>) -> Seq<u8> {
    utf8("native-v2-step-completion:v1"@) + seq![0u8] + semantic
}

/// The completion reference of a step result with canonical form
/// `semantic`.
pub open spec fn completion_ref_of(semantic: Seq<u8>) -> Seq<char> {
    "native-v2-step-completion:v1:"@ + lower_hex(blake3_digest(completion_input(semantic)))
}

fn put_member_key(buf: &mut Vec<u8>, key: &str)
    ensures
        final(buf)@ == old(buf)@ + json_string(key@) + seq![58u8],
{
    put_json_string(buf, key);
    buf.push(58u8);
}

/// Appends member `key` with string value `value`, then a comma when `comma`.
fn put_text_member(buf: &mut Vec<u8>, key: &str, value: &str, comma: bool)
    ensures
        final(buf)@ == old(buf)@ + json_member(key@, json_string(value@)) + if comma {
            seq![44u8]
        } else {
            Seq::empty()
        },
{
    let ghost b0 = buf@;
    put_member_key(buf, key);
    put_json_string(buf, value);
    if comma {
        buf.push(44u8);
    }
    proof {
        reveal(json_member);
    }
    assert(buf@ =~= b0 + json_member(key@, json_string(value@)) + if comma {
        seq![44u8]
    } else {
        Seq::empty()
    });
}

/// Appends member `key` with an optional string value and a comma.
fn put_opt_text_member(buf: &mut Vec<u8>, key: &str, value: &Option<String>)
    ensures
        final(buf)@ == old(buf)@ + json_member(key@, json_opt_text(*value)) + seq![44u8],
{
    let ghost b0 = buf@;
    put_member_key(buf, key);
    put_opt_text(buf, value);
    buf.push(44u8);
    proof {
        reveal(json_member);
    }
    assert(buf@ =~= b0 + json_member(key@, json_opt_text(*value)) + seq![44u8]);
}

fn put_opt_text(buf: &mut Vec<u8>, o: &Option<String>)
    ensures
        final(buf)@ == old(buf)@ + json_opt_text(*o),
{
    match o {
        Some(t) => put_json_string(buf, t.as_str()),
        None => {
            let ghost b0 = buf@;
            buf.push(110u8);
            buf.push(117u8);
            buf.push(108u8);
            buf.push(108u8);
            assert(buf@ =~= b0 + json_opt_text(*o));
        },
    }
}

fn put_opt_object(buf: &mut Vec<u8>, o: &Option<NativeV2ObjectRevisionDtoV1>)
    ensures
        final(buf)@ == old(buf)@ + json_opt_object(*o),
{
    let ghost b0 = buf@;
    match o {
        Some(d) => {
            buf.push(123u8);
            put_member_key(buf, "logicalObjectId");
            put_json_string(buf, d.logical_object_id.as_str());
            buf.push(44u8);
            put_member_key(buf, "revision");
            put_decimal(buf, d.revision);
            buf.push(125u8);
            proof {
                reveal(json_member);
            }
        },
        None => {
            buf.push(110u8);
            buf.push(117u8);
            buf.push(108u8);
            buf.push(108u8);
        },
    }
    assert(buf@ =~= b0 + json_opt_object(*o));
}

fn put_semantic_part_a(b: &mut Vec<u8>, m: &NativeV2StepResultV1)
    ensures
        final(b)@ == old(b)@ + semantic_part_a(*m),
{
    let ghost b0 = b@;
    put_text_member(b, "approvalId", m.approval_id.as_str(), true);
    put_text_member(b, "attemptId", m.attempt_id.as_str(), true);
    put_text_member(b, "bridgeId", m.bridge_id.as_str(), true);
    let ghost b1 = b@;
    put_member_key(b, "completedAt");
    put_signed(b, m.completed_at);
    b.push(44u8);
    proof {
        reveal(json_member);
        assert(b@ =~= b1 + json_member("completedAt"@, signed_decimal(m.completed_at)) + seq![44u8]);
    }
    put_text_member(b, "completionRef", "", true);
    assert(b@ =~= b0 + semantic_part_a(*m));
}

fn put_semantic_part_b(b: &mut Vec<u8>, m: &NativeV2StepResultV1)
    ensures
        final(b)@ == old(b)@ + semantic_part_b(*m),
{
    let ghost b0 = b@;
    put_opt_text_member(b, "contentDigest", &m.content_digest);
    put_text_member(b, "hostRef", m.host_ref.as_str(), true);
    put_text_member(b, "messageId", "", true);
    let ghost b1 = b@;
    put_member_key(b, "object");
    put_opt_object(b, &m.object);
    b.push(44u8);
    proof {
        reveal(json_member);
        assert(b@ =~= b1 + json_member("object"@, json_opt_object(m.object)) + seq![44u8]);
    }
    put_text_member(b, "operation", operation_name_value(m.operation), true);
    put_text_member(b, "participant", m.participant.as_str(), true);
    assert(b@ =~= b0 + semantic_part_b(*m));
}

fn put_semantic_part_c(b: &mut Vec<u8>, m: &NativeV2StepResultV1)
    ensures
        final(b)@ == old(b)@ + semantic_part_c(*m),
{
    let ghost b0 = b@;
    put_text_member(b, "planId", m.plan_id.as_str(), true);
    put_text_member(b, "protocolVersion", m.protocol_version.as_str(), true);
    put_opt_text_member(b, "resultDigest", &m.result_digest);
    put_text_member(b, "revisionHash", m.revision_hash.as_str(), true);
    put_text_member(b, "revisionId", m.revision_id.as_str(), true);
    put_text_member(b, "sessionBindingRef", m.session_binding_ref.as_str(), true);
    put_text_member(b, "stepId", m.step_id.as_str(), false);
    assert(b@ =~= b0 + semantic_part_c(*m));
}

/// The canonical JSON of step result `m` with its message id and
/// completion reference emptied.
pub fn step_result_semantic_bytes(m: &NativeV2StepResultV1) -> (r: Vec<u8>)
    ensures
        r@ == step_result_semantic(*m),
{
    let mut b: Vec<u8> = Vec::new();
    b.push(123u8);
    put_semantic_part_a(&mut b, m);
    put_semantic_part_b(&mut b, m);
    put_semantic_part_c(&mut b, m);
    b.push(125u8);
    assert(b@ =~= step_result_semantic(*m));
    b
}

/// The completion reference of a step result whose canonical form is the
/// UTF-8 text `semantic_json`.
pub fn step_completion_ref(semantic_json: &str) -> (r: String)
    ensures
        r@ == completion_ref_of(utf8(semantic_json@)),
{
    completion_ref_of_bytes(as_bytes(semantic_json))
}

/// The completion reference a step result must carry: the hash of its
/// canonical JSON with message id and completion reference emptied.
pub fn step_result_completion_ref(result: &NativeV2StepResultV1) -> (r: String)
    ensures
        r@ == completion_ref_of(step_result_semantic(*result)),
{
    let semantic = step_result_semantic_bytes(result);
    completion_ref_of_bytes(semantic.as_slice())
}

fn completion_ref_of_bytes(semantic: &[u8]) -> (r: String)
    ensures
        r@ == completion_ref_of(semantic@),
{
    let mut input: Vec<u8> = Vec::new();
    append_bytes(&mut input, as_bytes("native-v2-step-completion:v1"));
    input.push(0u8);
    append_bytes(&mut input, semantic);
    assert(input@ =~= completion_input(semantic@));
    let hex = blake3_hex(input.as_slice());
    String::from_str("native-v2-step-completion:v1:").concat(hex.as_str())
}

pub open spec fn plan_step_at(r: PlanRevisionV1, k: int, id: Seq<char>) -> bool {
    0 <= k < r.steps@.len() && r.steps@[k].step_id@ == id
}

pub open spec fn has_plan_step(r: PlanRevisionV1, id: Seq<char>) -> bool {
    exists|k: int| #[trigger] plan_step_at(r, k, id)
}

pub open spec fn plan_step_index(r: PlanRevisionV1, id: Seq<char>) -> int {
    choose|k: int| plan_step_at(r, k, id)
}

pub proof fn lemma_plan_step_unique(r: PlanRevisionV1, i: int, j: int, id: Seq<char>)
    requires
        revision_ok(r),
        plan_step_at(r, i, id),
        plan_step_at(r, j, id),
    ensures
        i == j,
{
    if i < j {
        assert(r.steps@[i].step_id@ != r.steps@[j].step_id@);
    } else if j < i {
        assert(r.steps@[j].step_id@ != r.steps@[i].step_id@);
    }
}

pub open spec fn same_object(a: NativeV2ObjectRevisionDtoV1, b: NativeV2ObjectRevisionDtoV1) -> bool {
    a.logical_object_id@ == b.logical_object_id@ && a.revision == b.revision
}

/// Why the outcome of result `m` does not fit step `s`: an object-producing
/// step reports exactly its output and a content digest and no result
/// digest; an Execute reports only a result digest.
pub open spec fn output_error(s: PlanStepV1, m: NativeV2StepResultV1) -> Option<&'static str> {
    let object_ok = m.object is Some && s.output is Some && same_object(m.object.unwrap(), s.output.unwrap())
        && m.content_digest is Some && m.content_digest.unwrap()@.len() > 0 && m.result_digest is None;
    match s.operation {
        StepOperation::Search => if object_ok {
            None
        } else {
            Some("Native v2 object-producing result is invalid.")
        },
        StepOperation::Transform => if object_ok {
            None
        } else {
            Some("Native v2 object-producing result is invalid.")
        },
        StepOperation::Transfer => if object_ok {
            None
        } else {
            Some("Native v2 Transfer result is invalid.")
        },
        StepOperation::Execute => if m.object is None && m.content_digest is None && m.result_digest is Some
            && m.result_digest.unwrap()@.len() > 0 {
            None
        } else {
            Some("Native v2 Execute result is invalid.")
        },
    }
}

/// The step record once result `m` completed it.
pub open spec fn step_completed(s: ProductStepV1, completion_ref: String) -> ProductStepV1 {
    ProductStepV1 { state: StepStateV1::Completed, completion_ref: Some(completion_ref), ..s }
}

/// Why step result `m`, arriving over `captured` at `now` on the local Host
/// `local`, is refused, in the order the
/// checks are made.
pub open spec fn step_result_blocker(
    protocol: Seq<char>,
    rs: Seq<ProductRevisionRecordV1>,
    xs: Seq<ProductAttemptV1>,
    m: NativeV2StepResultV1,
    captured: ProductSessionV1,
    local: Seq<char>,
    live: Seq<HostSessionBinding>,
    now: i64,
) -> Option<&'static str> {
    let xi = attempt_index(xs, m.attempt_id@);
    let a = xs[xi];
    let hi = host_index(a.hosts@, m.participant@);
    let h = a.hosts@[hi];
    let r = rs[a.revision_index as int].revision;
    let k = plan_step_index(r, m.step_id@);
    let s = r.steps@[k];
    if !(m.protocol_version@ == protocol && m.bridge_id@ == captured.binding.bridge_id@ && m.host_ref@
        == captured.binding.peer_host_ref@ && m.session_binding_ref@ == captured.binding_ref@
        && captured.binding.local_host_ref@ == local) {
        Some("Native v2 step result Host/session is invalid.")
    } else if !(has_attempt(xs, m.attempt_id@) && a.state == NativeV2ProductStateV1::Running && has_host(
        a.hosts@,
        m.participant@,
    )) {
        Some("Native v2 step result is late or unknown.")
    } else if h.session is None {
        Some("Native v2 result Host is unavailable.")
    } else if !(a.revision_id@ == m.revision_id@ && a.revision_hash@ == m.revision_hash@ && a.approval_id@
        == m.approval_id@ && a.expires_at > now && same_product_session(h.session.unwrap(), captured)) {
        Some("Native v2 result immutable correlation is invalid.")
    } else if !(m.plan_id@ == r.plan_id@ && m.bridge_id@ == r.bridge_id@ && m.completion_ref@
        == completion_ref_of(step_result_semantic(m))) {
        Some("Native v2 step result correlation is invalid.")
    } else if !has_plan_step(r, m.step_id@) {
        Some("Native v2 result step is unavailable.")
    } else if s.operation != m.operation {
        Some("Native v2 step result operation is invalid.")
    } else if !is_participant(r, m.participant@) {
        Some("Native v2 result participant is invalid.")
    } else if !(hosted_at(r, m.participant@, m.host_ref@) && s.completer@ == m.participant@) {
        Some("Native v2 result Host does not own the authored step completion.")
    } else if output_error(s, m) is Some {
        output_error(s, m)
    } else if !dependencies_done(s, a.steps@) {
        Some("Native v2 result arrived before its exact predecessor completed.")
    } else if a.steps@[k].state == StepStateV1::Completed {
        Some("Native v2 step result is duplicate, conflicting, or replayed.")
    } else if !(a.steps@[k].state == StepStateV1::Pending || a.steps@[k].state == StepStateV1::Eligible
        || a.steps@[k].state == StepStateV1::Running) {
        Some("Native v2 product step completion is late or replayed.")
    } else if !sessions_current(a.hosts@, live, now) {
        Some("Native v2 Host session is no longer current.")
    } else {
        None
    }
}

fn same_object_exec(a: &NativeV2ObjectRevisionDtoV1, b: &NativeV2ObjectRevisionDtoV1) -> (r: bool)
    ensures
        r == same_object(*a, *b),
{
    same_text(a.logical_object_id.as_str(), b.logical_object_id.as_str()) && a.revision == b.revision
}

fn non_empty(s: &Option<String>) -> (r: bool)
    ensures
        r == (s is Some && s.unwrap()@.len() > 0),
{
    match s {
        Some(x) => x.as_str().unicode_len() > 0,
        None => false,
    }
}

fn output_check(s: &PlanStepV1, m: &NativeV2StepResultV1) -> (e: Option<&'static str>)
    ensures
        e == output_error(*s, *m),
{
    let object_ok = match (&m.object, &s.output) {
        (Some(o), Some(p)) => same_object_exec(o, p),
        _ => false,
    } && non_empty(&m.content_digest) && m.result_digest.is_none();
    match s.operation {
        StepOperation::Search => if object_ok {
            None
        } else {
            Some("Native v2 object-producing result is invalid.")
        },
        StepOperation::Transform => if object_ok {
            None
        } else {
            Some("Native v2 object-producing result is invalid.")
        },
        StepOperation::Transfer => if object_ok {
            None
        } else {
            Some("Native v2 Transfer result is invalid.")
        },
        StepOperation::Execute => if m.object.is_none() && m.content_digest.is_none() && non_empty(
            &m.result_digest,
        ) {
            None
        } else {
            Some("Native v2 Execute result is invalid.")
        },
    }
}

/// Completing steps never undoes a completion, so a step done before stays
/// done.
pub proof fn lemma_step_done_grows(ss0: Seq<ProductStepV1>, ss1: Seq<ProductStepV1>, id: Seq<char>)
    requires
        ss1.len() == ss0.len(),
        forall|j: int|
            0 <= j < ss1.len() ==> (#[trigger] ss1[j]).step_id@ == ss0[j].step_id@ && (ss0[j].state
                == StepStateV1::Completed ==> ss1[j].state == StepStateV1::Completed),
        step_done(ss0, id),
    ensures
        step_done(ss1, id),
{
    let j = choose|j: int| 0 <= j < ss0.len() && #[trigger] ss0[j].step_id@ == id && ss0[j].state == StepStateV1::Completed;
    assert(ss1[j].step_id@ == id);
}

/// Completing step `k` after all it depends on keeps completions ordered.
pub proof fn lemma_completion_keeps_order(r: PlanRevisionV1, ss0: Seq<ProductStepV1>, k: int, c: String)
    requires
        completions_ordered(r, ss0),
        eligibility_ordered(r, ss0),
        0 <= k < ss0.len(),
        dependencies_done(r.steps@[k], ss0),
    ensures
        completions_ordered(r, ss0.update(k, step_completed(ss0[k], c))),
        eligibility_ordered(r, ss0.update(k, step_completed(ss0[k], c))),
{
    let ss1 = ss0.update(k, step_completed(ss0[k], c));
    assert forall|j: int| 0 <= j < ss1.len() && (#[trigger] ss1[j]).state == StepStateV1::Eligible implies dependencies_done(
        r.steps@[j],
        ss1,
    ) by {
        assert(dependencies_done(r.steps@[j], ss0));
        assert forall|d: int| 0 <= d < r.steps@[j].dependencies@.len() implies step_done(
            ss1,
            #[trigger] r.steps@[j].dependencies@[d]@,
        ) by {
            lemma_step_done_grows(ss0, ss1, r.steps@[j].dependencies@[d]@);
        }
    }
    assert forall|j: int| 0 <= j < ss1.len() && (#[trigger] ss1[j]).state == StepStateV1::Completed implies dependencies_done(
        r.steps@[j],
        ss1,
    ) by {
        assert(dependencies_done(r.steps@[j], ss0));
        assert forall|d: int| 0 <= d < r.steps@[j].dependencies@.len() implies step_done(
            ss1,
            #[trigger] r.steps@[j].dependencies@[d]@,
        ) by {
            lemma_step_done_grows(ss0, ss1, r.steps@[j].dependencies@[d]@);
        }
    }
}

impl NativeV2ProductLedgerV1 {
    /// Takes step result `result`, whose completion reference must be
    /// `step_result_completion_ref(result)`, that arrived over session `captured` at `now` on the local Host
    /// `local_host_ref`, the transport holding the sessions `live`. The
    /// step completes under the result's completion reference; the last
    /// step completes the attempt, and its revision still running;
    /// otherwise every pending step whose dependencies all completed
    /// becomes eligible. Every peer gets a step commit.
    pub fn accept_step_result(
        &mut self,
        result: NativeV2StepResultV1,
        captured: &ProductSessionV1,
        local_host_ref: &str,
        live: &Vec<HostSessionBinding>,
        now: i64,
    ) -> (r: AppResult<Vec<ProductDispatchV1>>)
        requires
            old(self).wf(),
        ensures
            final(self).wf(),
            final(self).spec_protocol() == old(self).spec_protocol(),
            old(self).evolves_to(&*final(self)),
            match step_result_blocker(
                old(self).spec_protocol(),
                old(self).spec_revisions(),
                old(self).spec_attempts(),
                result,
                *captured,
                local_host_ref@,
                live@,
                now,
            ) {
                Some(m) => {
                    &&& r == Err::<Vec<ProductDispatchV1>, AppError>(AppError::InvalidInput(m))
                    &&& final(self).spec_revisions() == old(self).spec_revisions()
                    &&& final(self).spec_attempts() == old(self).spec_attempts()
                },
                None => {
                    let xs = old(self).spec_attempts();
                    let xi = attempt_index(xs, result.attempt_id@);
                    let a = xs[xi];
                    let ri = a.revision_index as int;
                    let rev = old(self).spec_revisions()[ri].revision;
                    let k = plan_step_index(rev, result.step_id@);
                    let steps = a.steps@.update(k, step_completed(a.steps@[k], result.completion_ref));
                    &&& r is Ok
                    &&& only_attempt_changed(xs, final(self).spec_attempts(), xi)
                    &&& dispatches_view(r.unwrap()@) == dispatches_to(a.hosts@, seq![DispatchKindV1::StepCommit])
                    &&& if all_completed(steps) {
                        &&& attempt_after(
                            a,
                            final(self).spec_attempts()[xi],
                            NativeV2ProductStateV1::Completed,
                            None,
                            now,
                            a.hosts@,
                            steps,
                        )
                        &&& revision_moved(
                            old(self).spec_revisions(),
                            final(self).spec_revisions(),
                            ri,
                            NativeV2ProductStateV1::Running,
                            NativeV2ProductStateV1::Completed,
                            None,
                            now,
                        )
                    } else {
                        &&& attempt_after(
                            a,
                            final(self).spec_attempts()[xi],
                            a.state,
                            None,
                            a.updated_at,
                            a.hosts@,
                            projected(rev, steps),
                        )
                        &&& final(self).spec_revisions() == old(self).spec_revisions()
                    }
                },
            },
    {
        let header_ok = same_text(result.protocol_version.as_str(), self.protocol_version.as_str())
            && same_text(result.bridge_id.as_str(), captured.binding.bridge_id.as_str()) && same_text(
            result.host_ref.as_str(),
            captured.binding.peer_host_ref.as_str(),
        ) && same_text(result.session_binding_ref.as_str(), captured.binding_ref.as_str()) && same_text(
            captured.binding.local_host_ref.as_str(),
            local_host_ref,
        );
        if !header_ok {
            return Err(AppError::InvalidInput("Native v2 step result Host/session is invalid."));
        }
        let xi = match self.find_attempt(result.attempt_id.as_str()) {
            Some(xi) => xi,
            None => {
                return Err(AppError::InvalidInput("Native v2 step result is late or unknown."));
            },
        };
        proof {
            let c = attempt_index(self.spec_attempts(), result.attempt_id@);
            self.lemma_attempt_unique(xi as int, c, result.attempt_id@);
        }
        if self.attempts[xi].state != NativeV2ProductStateV1::Running {
            return Err(AppError::InvalidInput("Native v2 step result is late or unknown."));
        }
        let hi = match self.find_host(xi, result.participant.as_str()) {
            Some(hi) => hi,
            None => {
                return Err(AppError::InvalidInput("Native v2 step result is late or unknown."));
            },
        };
        let a = &self.attempts[xi];
        let stored = match &a.hosts[hi].session {
            Some(s) => s,
            None => {
                return Err(AppError::InvalidInput("Native v2 result Host is unavailable."));
            },
        };
        if !(same_text(a.revision_id.as_str(), result.revision_id.as_str()) && same_text(
            a.revision_hash.as_str(),
            result.revision_hash.as_str(),
        ) && same_text(a.approval_id.as_str(), result.approval_id.as_str()) && a.expires_at > now
            && same_text(stored.binding_ref.as_str(), captured.binding_ref.as_str())
            && stored.binding.same(&captured.binding)) {
            return Err(AppError::InvalidInput("Native v2 result immutable correlation is invalid."));
        }
        let ri = a.revision_index;
        proof {
            assert(attempt_consistent(self.spec_attempts()[xi as int], self.spec_revisions()[ri as int]));
            assert(revision_ok(self.spec_revisions()[ri as int].revision));
        }
        let rev = &self.revisions[ri].revision;
        let expected_ref = step_result_completion_ref(&result);
        if !(same_text(result.plan_id.as_str(), rev.plan_id.as_str()) && same_text(
            result.bridge_id.as_str(),
            rev.bridge_id.as_str(),
        ) && same_text(result.completion_ref.as_str(), expected_ref.as_str())) {
            return Err(AppError::InvalidInput("Native v2 step result correlation is invalid."));
        }
        let k = match find_step(rev, result.step_id.as_str()) {
            Some(k) => k,
            None => {
                return Err(AppError::InvalidInput("Native v2 result step is unavailable."));
            },
        };
        proof {
            assert(plan_step_at(*rev, k as int, result.step_id@));
            lemma_plan_step_unique(*rev, k as int, plan_step_index(*rev, result.step_id@), result.step_id@);
        }
        let s = &rev.steps[k];
        if s.operation != result.operation {
            return Err(AppError::InvalidInput("Native v2 step result operation is invalid."));
        }
        let pi = match find_participant(rev, result.participant.as_str()) {
            Some(pi) => pi,
            None => {
                return Err(AppError::InvalidInput("Native v2 result participant is invalid."));
            },
        };
        proof {
            lemma_hosted_at_index(*rev, pi as int, result.host_ref@);
        }
        if !(same_text(rev.participants[pi].host_ref.as_str(), result.host_ref.as_str()) && same_text(
            s.completer.as_str(),
            result.participant.as_str(),
        )) {
            return Err(
                AppError::InvalidInput("Native v2 result Host does not own the authored step completion."),
            );
        }
        match output_check(s, &result) {
            Some(e) => {
                return Err(AppError::InvalidInput(e));
            },
            None => {},
        }
        if !dependencies_completed(s, &a.steps) {
            return Err(
                AppError::InvalidInput("Native v2 result arrived before its exact predecessor completed."),
            );
        }
        let open_step = match a.steps[k].state {
            StepStateV1::Completed => {
                return Err(
                    AppError::InvalidInput("Native v2 step result is duplicate, conflicting, or replayed."),
                );
            },
            StepStateV1::Pending => true,
            StepStateV1::Eligible => true,
            StepStateV1::Running => true,
            _ => false,
        };
        if !open_step {
            return Err(AppError::InvalidInput("Native v2 product step completion is late or replayed."));
        }
        if !all_sessions_current(&a.hosts, live, now) {
            return Err(AppError::InvalidInput("Native v2 Host session is no longer current."));
        }
        let kinds = vec![DispatchKindV1::StepCommit];
        let out = dispatch_all(&a.hosts, &kinds);
        let ghost rs0 = self.spec_revisions();
        let ghost xs0 = self.spec_attempts();
        let ghost steps1 = xs0[xi as int].steps@.update(
            k as int,
            step_completed(xs0[xi as int].steps@[k as int], result.completion_ref),
        );
        self.attempts[xi].steps[k].state = StepStateV1::Completed;
        self.attempts[xi].steps[k].completion_ref = Some(result.completion_ref);
        proof {
            assert(self.spec_attempts()[xi as int].steps@ =~= steps1);
            lemma_completion_keeps_order(
                rs0[ri as int].revision,
                xs0[xi as int].steps@,
                k as int,
                result.completion_ref,
            );
        }
        let done = every_step_completed(&self.attempts[xi].steps);
        if done {
            self.attempts[xi].state = NativeV2ProductStateV1::Completed;
            self.attempts[xi].updated_at = now;
            self.move_revision(ri, NativeV2ProductStateV1::Running, NativeV2ProductStateV1::Completed, None, now);
        } else {
            project_steps(&self.revisions[ri].revision, &mut self.attempts[xi].steps);
            proof {
                lemma_projected_ordered(rs0[ri as int].revision, steps1);
            }
        }
        proof {
            assert(kinds@ =~= seq![DispatchKindV1::StepCommit]);
            let x1 = self.spec_attempts()[xi as int];
            assert(steps_aligned(self.spec_revisions()[ri as int].revision, x1.steps@));
            assert(same_revisions(rs0, self.spec_revisions()));
            self.lemma_after_attempt_change(rs0, xs0, xi as int);
        }
        Ok(out)
    }
}

fn every_step_completed(ss: &Vec<ProductStepV1>) -> (b: bool)
    ensures
        b == all_completed(ss@),
{
    let mut i: usize = 0;
    while i < ss.len()
        invariant
            i <= ss@.len(),
            forall|k: int| 0 <= k < i ==> (#[trigger] ss@[k]).state == StepStateV1::Completed,
        decreases ss@.len() - i,
    {
        match ss[i].state {
            StepStateV1::Completed => {},
            _ => {
                return false;
            },
        }
        i = i + 1;
    }
    true
}

/// Free text of the protocol: not blank, at most 1024 bytes, no control
/// character.
pub open spec fn text_ok(v: Seq<char>) -> bool {
    &&& utf8(trim(v)).len() > 0
    &&& utf8(v).len() <= 1024
    &&& forall|i: int| 0 <= i < v.len() ==> !is_control(#[trigger] v[i])
}

pub fn native_text(value: &str) -> (b: bool)
    ensures
        b == text_ok(value@),
{
    if byte_len(trimmed_text(value)) == 0 || byte_len(value) > 1024 {
        return false;
    }
    let n = value.unicode_len();
    let mut i: usize = 0;
    while i < n
        invariant
            n == value@.len(),
            i <= n,
            forall|k: int| 0 <= k < i ==> !is_control(#[trigger] value@[k]),
        decreases n - i,
    {
        let c = value.get_char(i);
        let code = c as u32;
        if code <= 0x1f || (0x7f <= code && code <= 0x9f) {
            assert(is_control(value@[i as int]));
            return false;
        }
        i = i + 1;
    }
    true
}

/// The step state that an attempt ended in `s` leaves its unfinished steps
/// in.
pub open spec fn terminal_step(s: NativeV2ProductStateV1) -> StepStateV1 {
    match s {
        NativeV2ProductStateV1::Failed => StepStateV1::Failed,
        NativeV2ProductStateV1::Interrupted => StepStateV1::Interrupted,
        _ => StepStateV1::Cancelled,
    }
}

/// A step that has not finished.
pub open spec fn is_unfinished(s: StepStateV1) -> bool {
    s == StepStateV1::Pending || s == StepStateV1::Eligible || s == StepStateV1::Running
}

/// The steps of `ss` with every unfinished one ended in `to`.
pub open spec fn steps_ended(ss: Seq<ProductStepV1>, to: StepStateV1) -> Seq<ProductStepV1> {
    Seq::new(
        ss.len(),
        |k: int|
            if is_unfinished(ss[k].state) {
                ProductStepV1 { state: to, ..ss[k] }
            } else {
                ss[k]
            },
    )
}

/// The Hosts of `hs` with every admission cancelled.
pub open spec fn hosts_cancelled(hs: Seq<ProductHostV1>) -> Seq<ProductHostV1> {
    Seq::new(hs.len(), |i: int| ProductHostV1 { admission: AdmissionStateV1::Cancelled, ..hs[i] })
}

/// `after` is `before` with the revision at `ri`, while still coordinating,
/// ended in `to` at `now` under failure code `code`; a revision in another
/// state, and every other revision, stays as it was.
pub open spec fn revision_ended(
    before: Seq<ProductRevisionRecordV1>,
    after: Seq<ProductRevisionRecordV1>,
    ri: int,
    to: NativeV2ProductStateV1,
    code: Seq<char>,
    now: i64,
) -> bool {
    &&& after.len() == before.len()
    &&& forall|j: int| 0 <= j < after.len() && j != ri ==> #[trigger] after[j] == before[j]
    &&& if is_active(before[ri].state) {
        &&& after[ri].revision == before[ri].revision
        &&& after[ri].approval == before[ri].approval
        &&& after[ri].state == to
        &&& after[ri].updated_at == now
        &&& after[ri].failure_code is Some
        &&& after[ri].failure_code.unwrap()@ == code
    } else {
        after[ri] == before[ri]
    }
}

/// Why attempt `attempt_id` cannot end in `state` under `code` at `now`, in
/// the order the checks are made.
pub open spec fn terminate_blocker(
    xs: Seq<ProductAttemptV1>,
    attempt_id: Seq<char>,
    state: NativeV2ProductStateV1,
    code: Seq<char>,
    live: Seq<HostSessionBinding>,
    now: i64,
) -> Option<&'static str> {
    let a = xs[attempt_index(xs, attempt_id)];
    if !(state == NativeV2ProductStateV1::Failed || state == NativeV2ProductStateV1::Interrupted || state
        == NativeV2ProductStateV1::Cancelled) {
        Some("Native v2 terminal state is invalid.")
    } else if !text_ok(code) {
        Some("Native v2 terminal code is invalid.")
    } else if !(has_attempt(xs, attempt_id) && is_active(a.state)) {
        Some("Native v2 attempt is already terminal.")
    } else if !sessions_current(a.hosts@, live, now) {
        Some("Native v2 Host session is no longer current.")
    } else {
        None
    }
}

/// `after` and `before` show attempt `xi` ended in `state` under `code` at
/// `now`, every unfinished step ended with it, every admission cancelled,
/// its revision ended with it while still coordinating, and every peer sent
/// a cancel (`dispatched`).
pub open spec fn attempt_terminated(
    rs0: Seq<ProductRevisionRecordV1>,
    xs0: Seq<ProductAttemptV1>,
    rs1: Seq<ProductRevisionRecordV1>,
    xs1: Seq<ProductAttemptV1>,
    xi: int,
    state: NativeV2ProductStateV1,
    code: Seq<char>,
    now: i64,
    dispatched: Seq<ProductDispatchV1>,
) -> bool {
    let a = xs0[xi];
    &&& only_attempt_changed(xs0, xs1, xi)
    &&& attempt_after(
        a,
        xs1[xi],
        state,
        Some(code),
        now,
        hosts_cancelled(a.hosts@),
        steps_ended(a.steps@, terminal_step(state)),
    )
    &&& revision_ended(rs0, rs1, a.revision_index as int, state, code, now)
    &&& dispatches_view(dispatched) == dispatches_to(a.hosts@, seq![DispatchKindV1::AttemptCancel])
}

/// A peer Host's report that an attempt failed on it.
#[derive(Clone, Debug, PartialEq, Eq)]
pub struct NativeV2StepFailureV1 {
    pub protocol_version: String,
    pub message_id: String,
    pub attempt_id: String,
    pub approval_id: String,
    pub revision_id: String,
    pub revision_hash: String,
    pub bridge_id: String,
    pub step_id: Option<String>,
    pub participant: String,
    pub host_ref: String,
    pub session_binding_ref: String,
    pub code: String,
    pub expires_at: i64,
}

/// Why step failure `m`, arriving over `captured` at `now`, is refused
/// before the attempt is ended, in the order the checks are made.
pub open spec fn failure_blocker(
    protocol: Seq<char>,
    rs: Seq<ProductRevisionRecordV1>,
    xs: Seq<ProductAttemptV1>,
    m: NativeV2StepFailureV1,
    captured: ProductSessionV1,
    now: i64,
) -> Option<&'static str> {
    let xi = attempt_index(xs, m.attempt_id@);
    let a = xs[xi];
    let h = a.hosts@[host_index(a.hosts@, m.participant@)];
    let r = rs[a.revision_index as int].revision;
    if !(m.protocol_version@ == protocol && m.expires_at > now && m.bridge_id@ == captured.binding.bridge_id@
        && m.host_ref@ == captured.binding.peer_host_ref@ && m.session_binding_ref@ == captured.binding_ref@
        && utf8(trim(m.code@)).len() > 0 && utf8(m.code@).len() <= 128) {
        Some("Native v2 failure Host/session is invalid.")
    } else if !(has_attempt(xs, m.attempt_id@) && is_active(a.state) && has_host(a.hosts@, m.participant@)) {
        Some("Native v2 failure is late or unknown.")
    } else if h.session is None {
        Some("Native v2 failure Host is unavailable.")
    } else if !(a.revision_id@ == m.revision_id@ && a.revision_hash@ == m.revision_hash@ && a.approval_id@
        == m.approval_id@ && same_product_session(h.session.unwrap(), captured)) {
        Some("Native v2 failure crossed immutable attempt correlation.")
    } else if m.step_id is Some && !has_plan_step(r, m.step_id.unwrap()@) {
        Some("Native v2 failure step is unavailable.")
    } else if m.step_id is Some && r.steps@[plan_step_index(r, m.step_id.unwrap()@)].completer@
        != m.participant@ {
        Some("Native v2 failure step belongs to another Host.")
    } else {
        None
    }
}

impl NativeV2ProductLedgerV1 {
    /// Ends the still coordinating attempt `attempt_id` in `state` (failed,
    /// interrupted or cancelled) under `code` at `now`, the transport
    /// holding the sessions `live`: its unfinished steps end with it, every
    /// admission is cancelled, its revision ends with it while still
    /// coordinating, and every peer gets a cancel.
    pub fn terminate_attempt(
        &mut self,
        attempt_id: &str,
        state: NativeV2ProductStateV1,
        code: &str,
        live: &Vec<HostSessionBinding>,
        now: i64,
    ) -> (r: AppResult<Vec<ProductDispatchV1>>)
        requires
            old(self).wf(),
        ensures
            final(self).wf(),
            final(self).spec_protocol() == old(self).spec_protocol(),
            old(self).evolves_to(&*final(self)),
            match terminate_blocker(old(self).spec_attempts(), attempt_id@, state, code@, live@, now) {
                Some(m) => {
                    &&& r == Err::<Vec<ProductDispatchV1>, AppError>(AppError::InvalidInput(m))
                    &&& final(self).spec_revisions() == old(self).spec_revisions()
                    &&& final(self).spec_attempts() == old(self).spec_attempts()
                },
                None => {
                    &&& r is Ok
                    &&& attempt_terminated(
                        old(self).spec_revisions(),
                        old(self).spec_attempts(),
                        final(self).spec_revisions(),
                        final(self).spec_attempts(),
                        attempt_index(old(self).spec_attempts(), attempt_id@),
                        state,
                        code@,
                        now,
                        r.unwrap()@,
                    )
                },
            },
    {
        let step_state = match state {
            NativeV2ProductStateV1::Failed => StepStateV1::Failed,
            NativeV2ProductStateV1::Interrupted => StepStateV1::Interrupted,
            NativeV2ProductStateV1::Cancelled => StepStateV1::Cancelled,
            _ => {
                return Err(AppError::InvalidInput("Native v2 terminal state is invalid."));
            },
        };
        if !native_text(code) {
            return Err(AppError::InvalidInput("Native v2 terminal code is invalid."));
        }
        let xi = match self.find_attempt(attempt_id) {
            Some(xi) => xi,
            None => {
                return Err(AppError::InvalidInput("Native v2 attempt is already terminal."));
            },
        };
        proof {
            let c = attempt_index(self.spec_attempts(), attempt_id@);
            self.lemma_attempt_unique(xi as int, c, attempt_id@);
        }
        let active = match self.attempts[xi].state {
            NativeV2ProductStateV1::CheckingReadiness => true,
            NativeV2ProductStateV1::Preparing => true,
            NativeV2ProductStateV1::Running => true,
            _ => false,
        };
        if !active {
            return Err(AppError::InvalidInput("Native v2 attempt is already terminal."));
        }
        if !all_sessions_current(&self.attempts[xi].hosts, live, now) {
            return Err(AppError::InvalidInput("Native v2 Host session is no longer current."));
        }
        let kinds = vec![DispatchKindV1::AttemptCancel];
        let out = dispatch_all(&self.attempts[xi].hosts, &kinds);
        let ghost rs0 = self.spec_revisions();
        let ghost xs0 = self.spec_attempts();
        let ghost a0 = xs0[xi as int];
        let ri = self.attempts[xi].revision_index;
        self.attempts[xi].state = state;
        self.attempts[xi].failure_code = Some(code.to_string());
        self.attempts[xi].updated_at = now;
        let mut k: usize = 0;
        while k < self.attempts[xi].steps.len()
            invariant
                xi < self.attempts@.len(),
                self.attempts@.len() == xs0.len(),
                self.revisions@ == rs0,
                self.spec_protocol() == old(self).spec_protocol(),
                forall|j: int| 0 <= j < xs0.len() && j != xi ==> #[trigger] self.attempts@[j] == xs0[j],
                attempt_after(
                    a0,
                    self.attempts@[xi as int],
                    state,
                    Some(code@),
                    now,
                    a0.hosts@,
                    self.attempts@[xi as int].steps@,
                ),
                self.attempts@[xi as int].steps@.len() == a0.steps@.len(),
                k <= a0.steps@.len(),
                forall|j: int| 0 <= j < k ==> #[trigger] self.attempts@[xi as int].steps@[j] == steps_ended(
                    a0.steps@,
                    step_state,
                )[j],
                forall|j: int| k <= j < a0.steps@.len() ==> #[trigger] self.attempts@[xi as int].steps@[j] == a0.steps@[j],
            decreases a0.steps@.len() - k,
        {
            let unfinished = match self.attempts[xi].steps[k].state {
                StepStateV1::Pending => true,
                StepStateV1::Eligible => true,
                StepStateV1::Running => true,
                _ => false,
            };
            if unfinished {
                self.attempts[xi].steps[k].state = step_state;
            }
            k = k + 1;
        }
        proof {
            assert(self.attempts@[xi as int].steps@ =~= steps_ended(a0.steps@, step_state));
        }
        let mut i: usize = 0;
        while i < self.attempts[xi].hosts.len()
            invariant
                xi < self.attempts@.len(),
                self.attempts@.len() == xs0.len(),
                self.revisions@ == rs0,
                self.spec_protocol() == old(self).spec_protocol(),
                forall|j: int| 0 <= j < xs0.len() && j != xi ==> #[trigger] self.attempts@[j] == xs0[j],
                attempt_after(
                    a0,
                    self.attempts@[xi as int],
                    state,
                    Some(code@),
                    now,
                    self.attempts@[xi as int].hosts@,
                    steps_ended(a0.steps@, step_state),
                ),
                self.attempts@[xi as int].hosts@.len() == a0.hosts@.len(),
                i <= a0.hosts@.len(),
                forall|j: int| 0 <= j < i ==> #[trigger] self.attempts@[xi as int].hosts@[j] == hosts_cancelled(a0.hosts@)[j],
                forall|j: int| i <= j < a0.hosts@.len() ==> #[trigger] self.attempts@[xi as int].hosts@[j] == a0.hosts@[j],
            decreases a0.hosts@.len() - i,
        {
            self.attempts[xi].hosts[i].admission = AdmissionStateV1::Cancelled;
            i = i + 1;
        }
        let ghost rs_mid = self.spec_revisions();
        let active_revision = match self.revisions[ri].state {
            NativeV2ProductStateV1::CheckingReadiness => true,
            NativeV2ProductStateV1::Preparing => true,
            NativeV2ProductStateV1::Running => true,
            _ => false,
        };
        if active_revision {
            self.revisions[ri].state = state;
            self.revisions[ri].failure_code = Some(code.to_string());
            self.revisions[ri].updated_at = now;
        }
        proof {
            assert(kinds@ =~= seq![DispatchKindV1::AttemptCancel]);
            let x1 = self.spec_attempts()[xi as int];
            assert(x1.steps@ =~= steps_ended(a0.steps@, step_state));
            assert(x1.hosts@ =~= hosts_cancelled(a0.hosts@));
            assert(step_state == terminal_step(state));
            assert(attempt_consistent(a0, rs0[ri as int]));
            assert forall|j: int| 0 <= j < x1.steps@.len() implies (#[trigger] x1.steps@[j]).step_id@
                == a0.steps@[j].step_id@ && (x1.steps@[j].state == StepStateV1::Completed <==> a0.steps@[j].state
                == StepStateV1::Completed) by {
            }
            lemma_completions_ordered_same(rs0[ri as int].revision, a0.steps@, x1.steps@);
            assert(same_revisions(rs0, self.spec_revisions())) by {
                assert forall|j: int| 0 <= j < rs0.len() implies (#[trigger] self.spec_revisions()[j]).revision
                    == rs0[j].revision && self.spec_revisions()[j].approval == rs0[j].approval && (
                self.spec_revisions()[j].state == NativeV2ProductStateV1::Draft <==> rs0[j].state
                    == NativeV2ProductStateV1::Draft) by {
                }
            }
            self.lemma_after_attempt_change(rs0, xs0, xi as int);
        }
        Ok(out)
    }

    /// Takes step failure `failure` that arrived over session `captured` at
    /// `now`, the transport holding the sessions `live`: a failure from the
    /// Host of a still coordinating attempt, over that attempt's session,
    /// about one of its own steps or none, fails the whole attempt under
    /// the failure's code.
    pub fn accept_step_failure(
        &mut self,
        failure: &NativeV2StepFailureV1,
        captured: &ProductSessionV1,
        live: &Vec<HostSessionBinding>,
        now: i64,
    ) -> (r: AppResult<Vec<ProductDispatchV1>>)
        requires
            old(self).wf(),
        ensures
            final(self).wf(),
            final(self).spec_protocol() == old(self).spec_protocol(),
            old(self).evolves_to(&*final(self)),
            match failure_blocker(
                old(self).spec_protocol(),
                old(self).spec_revisions(),
                old(self).spec_attempts(),
                *failure,
                *captured,
                now,
            ) {
                Some(m) => {
                    &&& r == Err::<Vec<ProductDispatchV1>, AppError>(AppError::InvalidInput(m))
                    &&& final(self).spec_revisions() == old(self).spec_revisions()
                    &&& final(self).spec_attempts() == old(self).spec_attempts()
                },
                None => match terminate_blocker(
                    old(self).spec_attempts(),
                    failure.attempt_id@,
                    NativeV2ProductStateV1::Failed,
                    failure.code@,
                    live@,
                    now,
                ) {
                    Some(m) => {
                        &&& r == Err::<Vec<ProductDispatchV1>, AppError>(AppError::InvalidInput(m))
                        &&& final(self).spec_revisions() == old(self).spec_revisions()
                        &&& final(self).spec_attempts() == old(self).spec_attempts()
                    },
                    None => {
                        &&& r is Ok
                        &&& attempt_terminated(
                            old(self).spec_revisions(),
                            old(self).spec_attempts(),
                            final(self).spec_revisions(),
                            final(self).spec_attempts(),
                            attempt_index(old(self).spec_attempts(), failure.attempt_id@),
                            NativeV2ProductStateV1::Failed,
                            failure.code@,
                            now,
                            r.unwrap()@,
                        )
                    },
                },
            },
    {
        let header_ok = same_text(failure.protocol_version.as_str(), self.protocol_version.as_str())
            && failure.expires_at > now && same_text(failure.bridge_id.as_str(), captured.binding.bridge_id.as_str())
            && same_text(failure.host_ref.as_str(), captured.binding.peer_host_ref.as_str()) && same_text(
            failure.session_binding_ref.as_str(),
            captured.binding_ref.as_str(),
        ) && byte_len(trimmed_text(failure.code.as_str())) > 0 && byte_len(failure.code.as_str()) <= 128;
        if !header_ok {
            return Err(AppError::InvalidInput("Native v2 failure Host/session is invalid."));
        }
        let xi = match self.find_attempt(failure.attempt_id.as_str()) {
            Some(xi) => xi,
            None => {
                return Err(AppError::InvalidInput("Native v2 failure is late or unknown."));
            },
        };
        proof {
            let c = attempt_index(self.spec_attempts(), failure.attempt_id@);
            self.lemma_attempt_unique(xi as int, c, failure.attempt_id@);
        }
        let active = match self.attempts[xi].state {
            NativeV2ProductStateV1::CheckingReadiness => true,
            NativeV2ProductStateV1::Preparing => true,
            NativeV2ProductStateV1::Running => true,
            _ => false,
        };
        if !active {
            return Err(AppError::InvalidInput("Native v2 failure is late or unknown."));
        }
        let hi = match self.find_host(xi, failure.participant.as_str()) {
            Some(hi) => hi,
            None => {
                return Err(AppError::InvalidInput("Native v2 failure is late or unknown."));
            },
        };
        let a = &self.attempts[xi];
        let stored = match &a.hosts[hi].session {
            Some(s) => s,
            None => {
                return Err(AppError::InvalidInput("Native v2 failure Host is unavailable."));
            },
        };
        if !(same_text(a.revision_id.as_str(), failure.revision_id.as_str()) && same_text(
            a.revision_hash.as_str(),
            failure.revision_hash.as_str(),
        ) && same_text(a.approval_id.as_str(), failure.approval_id.as_str()) && same_text(
            stored.binding_ref.as_str(),
            captured.binding_ref.as_str(),
        ) && stored.binding.same(&captured.binding)) {
            return Err(AppError::InvalidInput("Native v2 failure crossed immutable attempt correlation."));
        }
        let ri = a.revision_index;
        proof {
            assert(attempt_consistent(self.spec_attempts()[xi as int], self.spec_revisions()[ri as int]));
            assert(revision_ok(self.spec_revisions()[ri as int].revision));
        }
        match &failure.step_id {
            Some(step_id) => {
                let rev = &self.revisions[ri].revision;
                match find_step(rev, step_id.as_str()) {
                    Some(k) => {
                        proof {
                            assert(plan_step_at(*rev, k as int, step_id@));
                            lemma_plan_step_unique(*rev, k as int, plan_step_index(*rev, step_id@), step_id@);
                        }
                        if !same_text(rev.steps[k].completer.as_str(), failure.participant.as_str()) {
                            return Err(AppError::InvalidInput("Native v2 failure step belongs to another Host."));
                        }
                    },
                    None => {
                        return Err(AppError::InvalidInput("Native v2 failure step is unavailable."));
                    },
                }
            },
            None => {},
        }
        self.terminate_attempt(
            failure.attempt_id.as_str(),
            NativeV2ProductStateV1::Failed,
            failure.code.as_str(),
            live,
            now,
        )
    }
}

/// Which attempts an interruption reaches: those of one Bridge, those
/// reaching a peer over one session, or all.
#[derive(Clone, Debug, PartialEq, Eq)]
pub enum InterruptScopeV1 {
    Bridge(String),
    Session(String),
    All,
}

/// Attempt `x` lies in `scope`.
pub open spec fn in_scope(rs: Seq<ProductRevisionRecordV1>, x: ProductAttemptV1, scope: InterruptScopeV1) -> bool {
    match scope {
        InterruptScopeV1::Bridge(b) => rs[x.revision_index as int].revision.bridge_id@ == b@,
        InterruptScopeV1::Session(s) => exists|i: int|
            0 <= i < x.hosts@.len() && (#[trigger] x.hosts@[i]).session is Some
                && x.hosts@[i].session.unwrap().binding_ref@ == s@,
        InterruptScopeV1::All => true,
    }
}

/// Some of the first `n` attempts lies in `scope` and belongs to the
/// revision at `ri`.
pub open spec fn scope_hits(
    rs: Seq<ProductRevisionRecordV1>,
    xs: Seq<ProductAttemptV1>,
    scope: InterruptScopeV1,
    ri: int,
    n: int,
) -> bool {
    exists|j: int| 0 <= j < n && in_scope(rs, #[trigger] xs[j], scope) && xs[j].revision_index == ri
}

/// The number of the first `n` attempts that lie in `scope` and still
/// coordinate.
pub open spec fn count_interrupted(
    rs: Seq<ProductRevisionRecordV1>,
    xs: Seq<ProductAttemptV1>,
    scope: InterruptScopeV1,
    n: int,
) -> nat
    decreases n,
{
    if n <= 0 {
        0
    } else {
        count_interrupted(rs, xs, scope, n - 1) + if in_scope(rs, xs[n - 1], scope) && is_active(
            xs[n - 1].state,
        ) {
            1nat
        } else {
            0nat
        }
    }
}

/// Attempt `b` is `a` after an interruption under `code` at `now` reached
/// it: a coordinating attempt is interrupted, and every unfinished step is.
pub open spec fn attempt_interrupted(a: ProductAttemptV1, b: ProductAttemptV1, code: Seq<char>, now: i64) -> bool {
    if is_active(a.state) {
        attempt_after(
            a,
            b,
            NativeV2ProductStateV1::Interrupted,
            Some(code),
            now,
            a.hosts@,
            steps_ended(a.steps@, StepStateV1::Interrupted),
        )
    } else {
        attempt_after(a, b, a.state, None, a.updated_at, a.hosts@, steps_ended(a.steps@, StepStateV1::Interrupted))
    }
}

/// Revision record `b` is `a` interrupted under `code` at `now` when `hit`
/// and `a` still coordinates, and `a` otherwise.
pub open spec fn revision_interrupted(
    a: ProductRevisionRecordV1,
    b: ProductRevisionRecordV1,
    hit: bool,
    code: Seq<char>,
    now: i64,
) -> bool {
    if hit && is_active(a.state) {
        &&& b.revision == a.revision
        &&& b.approval == a.approval
        &&& b.state == NativeV2ProductStateV1::Interrupted
        &&& b.updated_at == now
        &&& b.failure_code is Some
        &&& b.failure_code.unwrap()@ == code
    } else {
        b == a
    }
}

fn attempt_in_scope(rs: &Vec<ProductRevisionRecordV1>, x: &ProductAttemptV1, scope: &InterruptScopeV1) -> (b: bool)
    requires
        x.revision_index < rs@.len(),
    ensures
        b == in_scope(rs@, *x, *scope),
{
    match scope {
        InterruptScopeV1::Bridge(bridge) => same_text(
            rs[x.revision_index].revision.bridge_id.as_str(),
            bridge.as_str(),
        ),
        InterruptScopeV1::Session(binding_ref) => {
            let mut i: usize = 0;
            while i < x.hosts.len()
                invariant
                    *scope == InterruptScopeV1::Session(*binding_ref),
                    i <= x.hosts@.len(),
                    forall|k: int|
                        0 <= k < i ==> !((#[trigger] x.hosts@[k]).session is Some && x.hosts@[k].session.unwrap().binding_ref@
                            == binding_ref@),
                decreases x.hosts@.len() - i,
            {
                match &x.hosts[i].session {
                    Some(s) => {
                        if same_text(s.binding_ref.as_str(), binding_ref.as_str()) {
                            proof {
                                assert(x.hosts@[i as int].session is Some && x.hosts@[i as int].session.unwrap().binding_ref@
                                    == binding_ref@);
                            }
                            return true;
                        }
                    },
                    None => {},
                }
                i = i + 1;
            }
            false
        },
        InterruptScopeV1::All => true,
    }
}

impl NativeV2ProductLedgerV1 {
    /// Interrupts, under `code` at `now`, every attempt in `scope`: each
    /// still coordinating is interrupted, every unfinished step of each is,
    /// and so is the revision of each while still coordinating. Gives how
    /// many coordinating attempts were interrupted; an invalid code
    /// interrupts nothing.
    pub fn interrupt_attempts(&mut self, scope: &InterruptScopeV1, code: &str, now: i64) -> (n: usize)
        requires
            old(self).wf(),
        ensures
            final(self).wf(),
            final(self).spec_protocol() == old(self).spec_protocol(),
            old(self).evolves_to(&*final(self)),
            !text_ok(code@) ==> n == 0 && final(self).spec_revisions() == old(self).spec_revisions()
                && final(self).spec_attempts() == old(self).spec_attempts(),
            text_ok(code@) ==> {
                let rs0 = old(self).spec_revisions();
                let xs0 = old(self).spec_attempts();
                let rs1 = final(self).spec_revisions();
                let xs1 = final(self).spec_attempts();
                &&& n == count_interrupted(rs0, xs0, *scope, xs0.len() as int)
                &&& xs1.len() == xs0.len()
                &&& forall|j: int|
                    0 <= j < xs0.len() ==> if in_scope(rs0, #[trigger] xs0[j], *scope) {
                        attempt_interrupted(xs0[j], xs1[j], code@, now)
                    } else {
                        xs1[j] == xs0[j]
                    }
                &&& rs1.len() == rs0.len()
                &&& forall|ri: int|
                    0 <= ri < rs0.len() ==> revision_interrupted(
                        #[trigger] rs0[ri],
                        rs1[ri],
                        scope_hits(rs0, xs0, *scope, ri, xs0.len() as int),
                        code@,
                        now,
                    )
            },
    {
        if !native_text(code) {
            return 0;
        }
        let ghost rs0 = self.spec_revisions();
        let ghost xs0 = self.spec_attempts();
        let mut count: usize = 0;
        let mut j: usize = 0;
        while j < self.attempts.len()
            invariant
                ledger_ok(rs0, xs0),
                text_ok(code@),
                self.spec_protocol() == old(self).spec_protocol(),
                self.attempts@.len() == xs0.len(),
                self.revisions@.len() == rs0.len(),
                j <= xs0.len(),
                count == count_interrupted(rs0, xs0, *scope, j as int),
                count <= j,
                forall|k: int|
                    0 <= k < j ==> if in_scope(rs0, #[trigger] xs0[k], *scope) {
                        attempt_interrupted(xs0[k], self.attempts@[k], code@, now)
                    } else {
                        self.attempts@[k] == xs0[k]
                    },
                forall|k: int| j <= k < xs0.len() ==> #[trigger] self.attempts@[k] == xs0[k],
                forall|ri: int|
                    0 <= ri < rs0.len() ==> revision_interrupted(
                        #[trigger] rs0[ri],
                        self.revisions@[ri],
                        scope_hits(rs0, xs0, *scope, ri, j as int),
                        code@,
                        now,
                    ),
            decreases xs0.len() - j,
        {
            proof {
                assert(xs0[j as int].revision_index < rs0.len());
                assert(self.revisions@[xs0[j as int].revision_index as int].revision
                    == rs0[xs0[j as int].revision_index as int].revision) by {
                    let ri = xs0[j as int].revision_index as int;
                    assert(revision_interrupted(rs0[ri], self.revisions@[ri], scope_hits(rs0, xs0, *scope, ri, j as int), code@, now));
                }
            }
            let hit = attempt_in_scope(&self.revisions, &self.attempts[j], scope);
            proof {
                let ri = xs0[j as int].revision_index as int;
                assert(self.attempts@[j as int] == xs0[j as int]);
                if scope is Bridge {
                    assert(self.revisions@[ri].revision == rs0[ri].revision);
                }
                assert(hit == in_scope(rs0, xs0[j as int], *scope));
            }
            let ghost rs_before = self.revisions@;
            let ghost x_before = self.attempts@[j as int];
            if hit {
                let active = match self.attempts[j].state {
                    NativeV2ProductStateV1::CheckingReadiness => true,
                    NativeV2ProductStateV1::Preparing => true,
                    NativeV2ProductStateV1::Running => true,
                    _ => false,
                };
                if active {
                    self.attempts[j].state = NativeV2ProductStateV1::Interrupted;
                    self.attempts[j].failure_code = Some(code.to_string());
                    self.attempts[j].updated_at = now;
                    count = count + 1;
                }
                let ghost xs_mid = self.attempts@;
                let mut k: usize = 0;
                while k < self.attempts[j].steps.len()
                    invariant
                        j < self.attempts@.len(),
                        self.attempts@.len() == xs0.len(),
                        xs_mid.len() == xs0.len(),
                        self.revisions@ == rs_before,
                        self.spec_protocol() == old(self).spec_protocol(),
                        forall|m: int| 0 <= m < xs0.len() && m != j ==> #[trigger] self.attempts@[m] == xs_mid[m],
                        attempt_after(
                            xs_mid[j as int],
                            self.attempts@[j as int],
                            xs_mid[j as int].state,
                            None,
                            xs_mid[j as int].updated_at,
                            xs_mid[j as int].hosts@,
                            self.attempts@[j as int].steps@,
                        ),
                        xs_mid[j as int].steps@ == x_before.steps@,
                        self.attempts@[j as int].steps@.len() == x_before.steps@.len(),
                        k <= x_before.steps@.len(),
                        forall|m: int|
                            0 <= m < k ==> #[trigger] self.attempts@[j as int].steps@[m] == steps_ended(
                                x_before.steps@,
                                StepStateV1::Interrupted,
                            )[m],
                        forall|m: int| k <= m < x_before.steps@.len() ==> #[trigger] self.attempts@[j as int].steps@[m] == x_before.steps@[m],
                    decreases x_before.steps@.len() - k,
                {
                    let unfinished = match self.attempts[j].steps[k].state {
                        StepStateV1::Pending => true,
                        StepStateV1::Eligible => true,
                        StepStateV1::Running => true,
                        _ => false,
                    };
                    if unfinished {
                        self.attempts[j].steps[k].state = StepStateV1::Interrupted;
                    }
                    k = k + 1;
                }
                proof {
                    assert(self.attempts@[j as int].steps@ =~= steps_ended(x_before.steps@, StepStateV1::Interrupted));
                }
                let ri = self.attempts[j].revision_index;
                let active_revision = match self.revisions[ri].state {
                    NativeV2ProductStateV1::CheckingReadiness => true,
                    NativeV2ProductStateV1::Preparing => true,
                    NativeV2ProductStateV1::Running => true,
                    _ => false,
                };
                if active_revision {
                    self.revisions[ri].state = NativeV2ProductStateV1::Interrupted;
                    self.revisions[ri].failure_code = Some(code.to_string());
                    self.revisions[ri].updated_at = now;
                }
            }
            proof {
                let jj = j as int;
                assert forall|ri: int|
                    0 <= ri < rs0.len() implies revision_interrupted(
                        #[trigger] rs0[ri],
                        self.revisions@[ri],
                        scope_hits(rs0, xs0, *scope, ri, jj + 1),
                        code@,
                        now,
                    ) by {
                    let before_hit = scope_hits(rs0, xs0, *scope, ri, jj);
                    assert(revision_interrupted(rs0[ri], rs_before[ri], before_hit, code@, now));
                    if hit && xs0[jj].revision_index == ri {
                        assert(in_scope(rs0, xs0[jj], *scope));
                        assert(scope_hits(rs0, xs0, *scope, ri, jj + 1));
                    } else {
                        if scope_hits(rs0, xs0, *scope, ri, jj + 1) {
                            let w = choose|w: int| 0 <= w < jj + 1 && in_scope(rs0, #[trigger] xs0[w], *scope) && xs0[w].revision_index == ri;
                            assert(w < jj);
                            assert(before_hit);
                        }
                        if before_hit {
                            let w = choose|w: int| 0 <= w < jj && in_scope(rs0, #[trigger] xs0[w], *scope) && xs0[w].revision_index == ri;
                            assert(scope_hits(rs0, xs0, *scope, ri, jj + 1));
                        }
                    }
                }
                assert(count == count_interrupted(rs0, xs0, *scope, jj + 1));
            }
            j = j + 1;
        }
        proof {
            let rs1 = self.spec_revisions();
            let xs1 = self.spec_attempts();
            assert(same_revisions(rs0, rs1)) by {
                assert forall|ri: int| 0 <= ri < rs1.len() implies (#[trigger] rs1[ri]).revision == rs0[ri].revision
                    && rs1[ri].approval == rs0[ri].approval && (rs1[ri].state == NativeV2ProductStateV1::Draft
                    <==> rs0[ri].state == NativeV2ProductStateV1::Draft) by {
                    assert(revision_interrupted(rs0[ri], rs1[ri], scope_hits(rs0, xs0, *scope, ri, xs0.len() as int), code@, now));
                }
            }
            assert forall|k: int| 0 <= k < xs1.len() implies (#[trigger] xs1[k]).attempt_id@ == xs0[k].attempt_id@
                && xs1[k].revision_index == xs0[k].revision_index && attempt_consistent(
                xs1[k],
                rs1[xs1[k].revision_index as int],
            ) by {
                let ri = xs0[k].revision_index as int;
                assert(attempt_consistent(xs0[k], rs0[ri]));
                assert(revision_interrupted(rs0[ri], rs1[ri], scope_hits(rs0, xs0, *scope, ri, xs0.len() as int), code@, now));
                lemma_consistent_same_record(xs0[k], rs0[ri], rs1[ri]);
                if in_scope(rs0, xs0[k], *scope) {
                    let x1 = xs1[k];
                    assert(attempt_interrupted(xs0[k], x1, code@, now));
                    assert forall|m: int| 0 <= m < x1.steps@.len() implies (#[trigger] x1.steps@[m]).step_id@
                        == xs0[k].steps@[m].step_id@ && (x1.steps@[m].state == StepStateV1::Completed
                        <==> xs0[k].steps@[m].state == StepStateV1::Completed) by {
                    }
                    lemma_completions_ordered_same(rs1[ri].revision, xs0[k].steps@, x1.steps@);
                    if xs0[k].state == NativeV2ProductStateV1::Completed {
                        assert(all_completed(xs0[k].steps@));
                        assert forall|m: int| 0 <= m < x1.steps@.len() implies (#[trigger] x1.steps@[m]).state
                            == StepStateV1::Completed by {
                            assert(xs0[k].steps@[m].state == StepStateV1::Completed);
                        }
                    }
                }
            }
            lemma_ledger_ok_step(rs0, xs0, rs1, xs1);
        }
        count
    }

    /// After the Host restarted at `now`, every still coordinating attempt
    /// and revision is interrupted under `host_restarted`; gives how many
    /// attempts were.
    pub fn reconcile_startup(&mut self, now: i64) -> (n: usize)
        requires
            old(self).wf(),
        ensures
            final(self).wf(),
            final(self).spec_protocol() == old(self).spec_protocol(),
            old(self).evolves_to(&*final(self)),
            n == count_interrupted(
                old(self).spec_revisions(),
                old(self).spec_attempts(),
                InterruptScopeV1::All,
                old(self).spec_attempts().len() as int,
            ),
            final(self).spec_attempts().len() == old(self).spec_attempts().len(),
            forall|j: int|
                0 <= j < old(self).spec_attempts().len() ==> if is_active(
                    (#[trigger] old(self).spec_attempts()[j]).state,
                ) {
                    attempt_after(
                        old(self).spec_attempts()[j],
                        final(self).spec_attempts()[j],
                        NativeV2ProductStateV1::Interrupted,
                        Some("host_restarted"@),
                        now,
                        old(self).spec_attempts()[j].hosts@,
                        old(self).spec_attempts()[j].steps@,
                    )
                } else {
                    final(self).spec_attempts()[j] == old(self).spec_attempts()[j]
                },
            final(self).spec_revisions().len() == old(self).spec_revisions().len(),
            forall|ri: int|
                0 <= ri < old(self).spec_revisions().len() ==> revision_interrupted(
                    #[trigger] old(self).spec_revisions()[ri],
                    final(self).spec_revisions()[ri],
                    true,
                    "host_restarted"@,
                    now,
                ),
    {
        let ghost rs0 = self.spec_revisions();
        let ghost xs0 = self.spec_attempts();
        let mut count: usize = 0;
        let mut j: usize = 0;
        while j < self.attempts.len()
            invariant
                ledger_ok(rs0, xs0),
                self.spec_protocol() == old(self).spec_protocol(),
                self.revisions@ == rs0,
                self.attempts@.len() == xs0.len(),
                j <= xs0.len(),
                count == count_interrupted(rs0, xs0, InterruptScopeV1::All, j as int),
                count <= j,
                forall|k: int|
                    0 <= k < j ==> if is_active((#[trigger] xs0[k]).state) {
                        attempt_after(
                            xs0[k],
                            self.attempts@[k],
                            NativeV2ProductStateV1::Interrupted,
                            Some("host_restarted"@),
                            now,
                            xs0[k].hosts@,
                            xs0[k].steps@,
                        )
                    } else {
                        self.attempts@[k] == xs0[k]
                    },
                forall|k: int| j <= k < xs0.len() ==> #[trigger] self.attempts@[k] == xs0[k],
            decreases xs0.len() - j,
        {
            let active = match self.attempts[j].state {
                NativeV2ProductStateV1::CheckingReadiness => true,
                NativeV2ProductStateV1::Preparing => true,
                NativeV2ProductStateV1::Running => true,
                _ => false,
            };
            if active {
                self.attempts[j].state = NativeV2ProductStateV1::Interrupted;
                self.attempts[j].failure_code = Some(String::from_str("host_restarted"));
                self.attempts[j].updated_at = now;
                count = count + 1;
            }
            j = j + 1;
        }
        let ghost xs_done = self.attempts@;
        let mut i: usize = 0;
        while i < self.revisions.len()
            invariant
                ledger_ok(rs0, xs0),
                self.attempts@ == xs_done,
                self.spec_protocol() == old(self).spec_protocol(),
                self.revisions@.len() == rs0.len(),
                i <= rs0.len(),
                forall|k: int|
                    0 <= k < i ==> revision_interrupted(#[trigger] rs0[k], self.revisions@[k], true, "host_restarted"@, now),
                forall|k: int| i <= k < rs0.len() ==> #[trigger] self.revisions@[k] == rs0[k],
            decreases rs0.len() - i,
        {
            let active = match self.revisions[i].state {
                NativeV2ProductStateV1::CheckingReadiness => true,
                NativeV2ProductStateV1::Preparing => true,
                NativeV2ProductStateV1::Running => true,
                _ => false,
            };
            if active {
                self.revisions[i].state = NativeV2ProductStateV1::Interrupted;
                self.revisions[i].failure_code = Some(String::from_str("host_restarted"));
                self.revisions[i].updated_at = now;
            }
            i = i + 1;
        }
        proof {
            let rs1 = self.spec_revisions();
            let xs1 = self.spec_attempts();
            assert(same_revisions(rs0, rs1)) by {
                assert forall|ri: int| 0 <= ri < rs1.len() implies (#[trigger] rs1[ri]).revision == rs0[ri].revision
                    && rs1[ri].approval == rs0[ri].approval && (rs1[ri].state == NativeV2ProductStateV1::Draft
                    <==> rs0[ri].state == NativeV2ProductStateV1::Draft) by {
                    assert(revision_interrupted(rs0[ri], rs1[ri], true, "host_restarted"@, now));
                }
            }
            assert forall|k: int| 0 <= k < xs1.len() implies (#[trigger] xs1[k]).attempt_id@ == xs0[k].attempt_id@
                && xs1[k].revision_index == xs0[k].revision_index && attempt_consistent(
                xs1[k],
                rs1[xs1[k].revision_index as int],
            ) by {
                let ri = xs0[k].revision_index as int;
                assert(attempt_consistent(xs0[k], rs0[ri]));
                assert(revision_interrupted(rs0[ri], rs1[ri], true, "host_restarted"@, now));
                lemma_consistent_same_record(xs0[k], rs0[ri], rs1[ri]);
            }
            lemma_ledger_ok_step(rs0, xs0, rs1, xs1);
        }
        count
    }
}

impl NativeV2ProductLedgerV1 {
    /// Moving forward composes: what moved forward twice moved forward.
    pub proof fn lemma_evolves_transitive(
        a: &NativeV2ProductLedgerV1,
        b: &NativeV2ProductLedgerV1,
        c: &NativeV2ProductLedgerV1,
    )
        requires
            a.evolves_to(b),
            b.evolves_to(c),
        ensures
            a.evolves_to(c),
    {
        assert forall|i: int| 0 <= i < a.spec_revisions().len() implies revision_evolves(
            #[trigger] a.spec_revisions()[i],
            c.spec_revisions()[i],
        ) by {
            assert(revision_evolves(a.spec_revisions()[i], b.spec_revisions()[i]));
            assert(revision_evolves(b.spec_revisions()[i], c.spec_revisions()[i]));
        }
        assert forall|i: int| 0 <= i < a.spec_attempts().len() implies attempt_evolves(
            #[trigger] a.spec_attempts()[i],
            c.spec_attempts()[i],
        ) by {
            let x = a.spec_attempts()[i];
            let y = b.spec_attempts()[i];
            let z = c.spec_attempts()[i];
            assert(attempt_evolves(x, y));
            assert(attempt_evolves(y, z));
            assert forall|k: int| 0 <= k < x.steps@.len() && (#[trigger] x.steps@[k]).state
                == StepStateV1::Completed implies z.steps@[k].state == StepStateV1::Completed by {
                assert(y.steps@[k].state == StepStateV1::Completed);
            }
        }
    }

    /// In every well-formed ledger, every attempt is past the readiness
    /// barrier only with every Host ready, past the prepared barrier only
    /// with every Host committed, completed only with every step completed,
    /// and every completed or eligible step waits on nothing unfinished.
    pub proof fn lemma_attempt_barriers(&self, i: int)
        requires
            self.wf(),
            0 <= i < self.spec_attempts().len(),
        ensures
            ({
                let a = self.spec_attempts()[i];
                let r = self.spec_revisions()[a.revision_index as int].revision;
                &&& (a.state == NativeV2ProductStateV1::Preparing || a.state == NativeV2ProductStateV1::Running
                    || a.state == NativeV2ProductStateV1::Completed) ==> all_ready(a.hosts@)
                &&& (a.state == NativeV2ProductStateV1::Running || a.state == NativeV2ProductStateV1::Completed)
                    ==> all_committed(a.hosts@)
                &&& a.state == NativeV2ProductStateV1::Completed ==> all_completed(a.steps@)
                &&& completions_ordered(r, a.steps@)
                &&& eligibility_ordered(r, a.steps@)
            }),
    {
        let a = self.spec_attempts()[i];
        assert(attempt_consistent(a, self.spec_revisions()[a.revision_index as int]));
    }

    /// An attempt that ended, failed by one unavailable Host among others,
    /// never coordinates again, whatever follows.
    pub proof fn lemma_ended_attempt_stays(a: &NativeV2ProductLedgerV1, b: &NativeV2ProductLedgerV1, i: int)
        requires
            a.evolves_to(b),
            0 <= i < a.spec_attempts().len(),
            is_terminal(a.spec_attempts()[i].state),
        ensures
            b.spec_attempts()[i].state == a.spec_attempts()[i].state,
            !is_active(b.spec_attempts()[i].state),
    {
        assert(attempt_evolves(a.spec_attempts()[i], b.spec_attempts()[i]));
    }

    /// The attempt `attempt_id`, if recorded.
    pub fn attempt(&self, attempt_id: &str) -> (r: Option<&ProductAttemptV1>)
        requires
            self.wf(),
        ensures
            r is Some <==> has_attempt(self.spec_attempts(), attempt_id@),
            r matches Some(a) ==> *a == self.spec_attempts()[attempt_index(self.spec_attempts(), attempt_id@)],
    {
        match self.find_attempt(attempt_id) {
            Some(xi) => {
                proof {
                    let c = attempt_index(self.spec_attempts(), attempt_id@);
                    self.lemma_attempt_unique(xi as int, c, attempt_id@);
                }
                Some(&self.attempts[xi])
            },
            None => None,
        }
    }

    /// The stored revision `revision_id`; refused when none is stored.
    pub fn revision(&self, revision_id: &str) -> (r: AppResult<&PlanRevisionV1>)
        requires
            self.wf(),
        ensures
            r is Ok <==> has_revision(self.spec_revisions(), revision_id@),
            r is Err ==> r == Err::<&PlanRevisionV1, AppError>(
                AppError::InvalidInput("Native v2 product revision is unavailable."),
            ),
            r matches Ok(v) ==> *v == self.spec_revisions()[revision_index(
                self.spec_revisions(),
                revision_id@,
            )].revision,
    {
        match self.find_revision(revision_id) {
            Some(ri) => {
                proof {
                    let c = revision_index(self.spec_revisions(), revision_id@);
                    self.lemma_revision_unique(ri as int, c, revision_id@);
                }
                Ok(&self.revisions[ri].revision)
            },
            None => Err(AppError::InvalidInput("Native v2 product revision is unavailable.")),
        }
    }
}

} // verus!
