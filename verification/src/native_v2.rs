//! The native-v2 composition request and plan status, as exchanged with the
//! deterministic Composer.
use vstd::prelude::*;

use crate::error::{AppError, AppResult};
use crate::natural_v2::{trim, trimmed_text};
use crate::text::{byte_len, utf8};

verus! {

/// One exact managed object revision.
#[derive(Clone, Debug, PartialEq, Eq)]
pub struct NativeV2ObjectRevisionDtoV1 {
    pub logical_object_id: String,
    pub revision: u64,
}

/// A plan root: an object revision bound at one Host.
#[derive(Clone, Debug, PartialEq, Eq)]
pub struct NativeV2RootDraftV1 {
    pub root_id: String,
    pub object: NativeV2ObjectRevisionDtoV1,
    pub host_ref: String,
}

/// One draft plan step.
#[derive(Clone, Debug, PartialEq, Eq)]
pub enum NativeV2StepDraftV1 {
    Search {
        step_id: String,
        depends_on: Vec<String>,
        host_ref: String,
        output: NativeV2ObjectRevisionDtoV1,
        query: String,
        safe_scope_labels: Vec<String>,
    },
    Transform {
        step_id: String,
        depends_on: Vec<String>,
        host_ref: String,
        input: NativeV2ObjectRevisionDtoV1,
        output: NativeV2ObjectRevisionDtoV1,
        modification_intent: String,
    },
    Transfer {
        step_id: String,
        depends_on: Vec<String>,
        source_host_ref: String,
        destination_host_ref: String,
        input: NativeV2ObjectRevisionDtoV1,
        output: NativeV2ObjectRevisionDtoV1,
    },
    Execute {
        step_id: String,
        depends_on: Vec<String>,
        host_ref: String,
        target: NativeV2ObjectRevisionDtoV1,
        execution_intent: String,
    },
}

/// A request to compose one plan revision.
#[derive(Clone, Debug, PartialEq, Eq)]
pub struct NativeV2ComposeRequestV1 {
    pub plan_id: String,
    pub revision_id: String,
    pub revision_number: u32,
    pub bridge_id: String,
    pub requester_host_ref: String,
    pub participant_host_refs: Vec<String>,
    pub roots: Vec<NativeV2RootDraftV1>,
    pub original_user_goal: String,
    pub expected_outcome: String,
    pub steps: Vec<NativeV2StepDraftV1>,
}

/// Where a plan stands in its product lifecycle.
#[derive(Clone, Copy, Debug, PartialEq, Eq, Structural)]
pub enum NativeV2ProductStateV1 {
    Draft,
    Approved,
    CheckingReadiness,
    Preparing,
    Running,
    Completed,
    Failed,
    Interrupted,
    Cancelled,
}

pub open spec fn product_state_text(s: NativeV2ProductStateV1) -> Seq<char> {
    match s {
        NativeV2ProductStateV1::Draft => "draft"@,
        NativeV2ProductStateV1::Approved => "approved"@,
        NativeV2ProductStateV1::CheckingReadiness => "checking_readiness"@,
        NativeV2ProductStateV1::Preparing => "preparing"@,
        NativeV2ProductStateV1::Running => "running"@,
        NativeV2ProductStateV1::Completed => "completed"@,
        NativeV2ProductStateV1::Failed => "failed"@,
        NativeV2ProductStateV1::Interrupted => "interrupted"@,
        NativeV2ProductStateV1::Cancelled => "cancelled"@,
    }
}

impl NativeV2ProductStateV1 {
    /// The stored name of the state.
    pub fn as_str(self) -> (r: &'static str)
        ensures
            r@ == product_state_text(self),
    {
        match self {
            NativeV2ProductStateV1::Draft => "draft",
            NativeV2ProductStateV1::Approved => "approved",
            NativeV2ProductStateV1::CheckingReadiness => "checking_readiness",
            NativeV2ProductStateV1::Preparing => "preparing",
            NativeV2ProductStateV1::Running => "running",
            NativeV2ProductStateV1::Completed => "completed",
            NativeV2ProductStateV1::Failed => "failed",
            NativeV2ProductStateV1::Interrupted => "interrupted",
            NativeV2ProductStateV1::Cancelled => "cancelled",
        }
    }
}

/// A plan's product status.
#[derive(Clone, Debug, PartialEq, Eq)]
pub struct NativeV2PlanStatusV1 {
    pub schema_version: String,
    pub plan_id: String,
    pub revision_id: String,
    pub revision_hash: String,
    pub approval_id: Option<String>,
    pub attempt_id: Option<String>,
    pub state: NativeV2ProductStateV1,
    pub current_step_id: Option<String>,
    pub completed_steps: u32,
    pub total_steps: u32,
    pub ready_hosts: u32,
    pub total_hosts: u32,
    pub code: Option<String>,
    pub updated_at: i64,
}

impl NativeV2PlanStatusV1 {
    /// The status of a fresh draft that no Composer has sealed yet: empty
    /// identities, no approval, no attempt, nothing counted.
    pub fn unsealed_draft() -> (r: NativeV2PlanStatusV1)
        ensures
            r.state == NativeV2ProductStateV1::Draft,
            r.approval_id is None,
            r.attempt_id is None,
            r.current_step_id is None,
            r.code is None,
            r.schema_version@.len() == 0,
            r.plan_id@.len() == 0,
            r.revision_id@.len() == 0,
            r.revision_hash@.len() == 0,
            r.completed_steps == 0 && r.total_steps == 0 && r.ready_hosts == 0 && r.total_hosts == 0,
            r.updated_at == 0,
    {
        NativeV2PlanStatusV1 {
            schema_version: String::new(),
            plan_id: String::new(),
            revision_id: String::new(),
            revision_hash: String::new(),
            approval_id: None,
            attempt_id: None,
            state: NativeV2ProductStateV1::Draft,
            current_step_id: None,
            completed_steps: 0,
            total_steps: 0,
            ready_hosts: 0,
            total_hosts: 0,
            code: None,
            updated_at: 0,
        }
    }
}

/// The stored state named `value`; no other name is a state.
pub fn parse_product_state(value: &str) -> (r: AppResult<NativeV2ProductStateV1>)
    ensures
        r is Ok <==> exists|s: NativeV2ProductStateV1| product_state_text(s) == value@,
        r matches Ok(s) ==> product_state_text(s) == value@,
{
    let v = String::from_str(value);
    let candidates: [NativeV2ProductStateV1; 9] = [
        NativeV2ProductStateV1::Draft,
        NativeV2ProductStateV1::Approved,
        NativeV2ProductStateV1::CheckingReadiness,
        NativeV2ProductStateV1::Preparing,
        NativeV2ProductStateV1::Running,
        NativeV2ProductStateV1::Completed,
        NativeV2ProductStateV1::Failed,
        NativeV2ProductStateV1::Interrupted,
        NativeV2ProductStateV1::Cancelled,
    ];
    let mut i: usize = 0;
    while i < 9
        invariant
            i <= 9,
            v@ == value@,
            candidates@ == seq![
                NativeV2ProductStateV1::Draft,
                NativeV2ProductStateV1::Approved,
                NativeV2ProductStateV1::CheckingReadiness,
                NativeV2ProductStateV1::Preparing,
                NativeV2ProductStateV1::Running,
                NativeV2ProductStateV1::Completed,
                NativeV2ProductStateV1::Failed,
                NativeV2ProductStateV1::Interrupted,
                NativeV2ProductStateV1::Cancelled,
            ],
            forall|k: int| 0 <= k < i ==> product_state_text(#[trigger] candidates@[k]) != value@,
        decreases 9 - i,
    {
        let s = candidates[i];
        if String::from_str(s.as_str()) == v {
            return Ok(s);
        }
        i = i + 1;
    }
    proof {
        assert forall|s: NativeV2ProductStateV1| product_state_text(s) != value@ by {
            match s {
                NativeV2ProductStateV1::Draft => assert(product_state_text(candidates@[0]) != value@),
                NativeV2ProductStateV1::Approved => assert(product_state_text(candidates@[1]) != value@),
                NativeV2ProductStateV1::CheckingReadiness => assert(product_state_text(candidates@[2]) != value@),
                NativeV2ProductStateV1::Preparing => assert(product_state_text(candidates@[3]) != value@),
                NativeV2ProductStateV1::Running => assert(product_state_text(candidates@[4]) != value@),
                NativeV2ProductStateV1::Completed => assert(product_state_text(candidates@[5]) != value@),
                NativeV2ProductStateV1::Failed => assert(product_state_text(candidates@[6]) != value@),
                NativeV2ProductStateV1::Interrupted => assert(product_state_text(candidates@[7]) != value@),
                NativeV2ProductStateV1::Cancelled => assert(product_state_text(candidates@[8]) != value@),
            }
        }
    }
    Err(AppError::InvalidInput("Native v2 product state is invalid."))
}

/// Distinct states have distinct stored names, so a stored name reads back
/// as the state that wrote it.
pub proof fn lemma_product_state_names_distinct(a: NativeV2ProductStateV1, b: NativeV2ProductStateV1)
    requires
        product_state_text(a) == product_state_text(b),
    ensures
        a == b,
{
    reveal_strlit("draft");
    reveal_strlit("approved");
    reveal_strlit("checking_readiness");
    reveal_strlit("preparing");
    reveal_strlit("running");
    reveal_strlit("completed");
    reveal_strlit("failed");
    reveal_strlit("interrupted");
    reveal_strlit("cancelled");
    if a != b {
        let ta = product_state_text(a);
        let tb = product_state_text(b);
        assert(ta.len() != tb.len() || ta[0] != tb[0] || ta[1] != tb[1] || ta[2] != tb[2]);
    }
}

/// The kinds of native-v2 product protocol events that carry a replay identity.
pub const READINESS_REQUEST_KIND: &'static str = "bridge_plan.v2.readiness_request";

pub const READINESS_KIND: &'static str = "bridge_plan.v2.readiness_result";

pub const PREPARED_KIND: &'static str = "bridge_plan.v2.attempt_prepared";

pub const COMMIT_KIND: &'static str = "bridge_plan.v2.attempt_commit";

pub const STEP_RESULT_KIND: &'static str = "bridge_plan.v2.step_result";

pub const STEP_FAILURE_KIND: &'static str = "bridge_plan.v2.step_failure";

pub const STEP_COMMIT_KIND: &'static str = "bridge_plan.v2.step_commit";

pub const CANCEL_KIND: &'static str = "bridge_plan.v2.attempt_cancel";

/// The longest lifetime of a product message, in seconds (one day).
pub const MAX_LIFETIME_SECONDS: i64 = 86400;

/// The longest native-v2 identifier, in bytes.
pub const MAX_NATIVE_ID: usize = 128;

/// Unicode control characters (general category Cc).
pub open spec fn is_control(c: char) -> bool {
    (c as u32) <= 0x1f || (0x7f <= (c as u32) && (c as u32) <= 0x9f)
}

pub open spec fn native_id_char_ok(c: char) -> bool {
    !is_control(c) && c != '/' && c != '\\'
}

/// A native-v2 identifier: not blank, at most 128 bytes, no control
/// character and no path separator.
pub open spec fn native_id_ok(v: Seq<char>) -> bool {
    &&& utf8(trim(v)).len() > 0
    &&& utf8(v).len() <= MAX_NATIVE_ID
    &&& forall|i: int| 0 <= i < v.len() ==> #[trigger] native_id_char_ok(v[i])
}

pub(crate) fn native_id(value: &str) -> (r: AppResult<()>)
    ensures
        r is Ok <==> native_id_ok(value@),
        r is Err ==> r == Err::<(), AppError>(AppError::InvalidInput("Native v2 message id is invalid.")),
{
    if byte_len(trimmed_text(value)) == 0 || byte_len(value) > MAX_NATIVE_ID {
        return Err(AppError::InvalidInput("Native v2 message id is invalid."));
    }
    let n = value.unicode_len();
    let mut i: usize = 0;
    while i < n
        invariant
            n == value@.len(),
            i <= n,
            forall|k: int| 0 <= k < i ==> #[trigger] native_id_char_ok(value@[k]),
        decreases n - i,
    {
        let c = value.get_char(i);
        let code = c as u32;
        if code <= 0x1f || (0x7f <= code && code <= 0x9f) || c == '/' || c == '\\' {
            assert(!native_id_char_ok(value@[i as int]));
            return Err(AppError::InvalidInput("Native v2 message id is invalid."));
        }
        i = i + 1;
    }
    Ok(())
}

/// The product event kinds that carry a replay identity.
pub open spec fn replay_kind_ok(k: Seq<char>) -> bool {
    ||| k == READINESS_REQUEST_KIND@
    ||| k == READINESS_KIND@
    ||| k == PREPARED_KIND@
    ||| k == COMMIT_KIND@
    ||| k == STEP_RESULT_KIND@
    ||| k == STEP_FAILURE_KIND@
    ||| k == STEP_COMMIT_KIND@
    ||| k == CANCEL_KIND@
}

/// When an event of kind `k` stops being replayable: a step result lives a
/// full lifetime after it completed (`stamp`), every other event until its
/// own expiry (`stamp`).
pub open spec fn replay_expiry(k: Seq<char>, stamp: int) -> int {
    if k == STEP_RESULT_KIND@ {
        stamp + MAX_LIFETIME_SECONDS
    } else {
        stamp
    }
}

fn same_text(a: &str, b: &str) -> (r: bool)
    ensures
        r == (a@ == b@),
{
    String::from_str(a) == String::from_str(b)
}

/// The replay identity of a product protocol event of kind `kind`, given
/// the event's message id, Bridge and time stamp (its completion time for a
/// step result, its expiry for every other kind): `native-v2:`, the kind, a
/// colon and the message id. Refuses an unknown kind, an invalid message
/// id, another Bridge than `expected_bridge`, and an event no longer live
/// at `now`.
pub fn protocol_replay_id(
    kind: &str,
    message_id: &str,
    bridge_id: &str,
    stamp: i64,
    expected_bridge: &str,
    now: i64,
) -> (r: AppResult<String>)
    requires
        kind@ == STEP_RESULT_KIND@ ==> stamp + MAX_LIFETIME_SECONDS <= i64::MAX,
    ensures
        !replay_kind_ok(kind@) ==> r == Err::<String, AppError>(
            AppError::InvalidInput("Unsupported native v2 product protocol event."),
        ),
        replay_kind_ok(kind@) && !native_id_ok(message_id@) ==> r == Err::<String, AppError>(
            AppError::InvalidInput("Native v2 message id is invalid."),
        ),
        replay_kind_ok(kind@) && native_id_ok(message_id@) && (bridge_id@ != expected_bridge@
            || replay_expiry(kind@, stamp as int) <= now) ==> r == Err::<String, AppError>(
            AppError::InvalidInput("Native v2 product event Bridge or lifetime is invalid."),
        ),
        r is Ok <==> (replay_kind_ok(kind@) && native_id_ok(message_id@) && bridge_id@
            == expected_bridge@ && replay_expiry(kind@, stamp as int) > now),
        r matches Ok(id) ==> id@ == "native-v2:"@ + kind@ + ":"@ + message_id@,
{
    let known = same_text(kind, READINESS_REQUEST_KIND) || same_text(kind, READINESS_KIND)
        || same_text(kind, PREPARED_KIND) || same_text(kind, COMMIT_KIND) || same_text(
        kind,
        STEP_RESULT_KIND,
    ) || same_text(kind, STEP_FAILURE_KIND) || same_text(kind, STEP_COMMIT_KIND) || same_text(
        kind,
        CANCEL_KIND,
    );
    if !known {
        return Err(AppError::InvalidInput("Unsupported native v2 product protocol event."));
    }
    if native_id(message_id).is_err() {
        return Err(AppError::InvalidInput("Native v2 message id is invalid."));
    }
    let expires_at: i64 = if same_text(kind, STEP_RESULT_KIND) {
        stamp + MAX_LIFETIME_SECONDS
    } else {
        stamp
    };
    if !same_text(bridge_id, expected_bridge) || expires_at <= now {
        return Err(AppError::InvalidInput("Native v2 product event Bridge or lifetime is invalid."));
    }
    let id = String::from_str("native-v2:").concat(kind).concat(":").concat(message_id);
    Ok(id)
}

/// Every one of the eight product event kinds (readiness request,
/// readiness result, attempt prepared, attempt commit, step result, step
/// failure, step commit, attempt cancel) has a replay identity: with a
/// valid message id, the expected Bridge and a stamp still ahead of `now`,
/// `protocol_replay_id` returns `Ok("native-v2:" + kind + ":" + id)`.
pub proof fn lemma_every_product_kind_replays(kind: Seq<char>, id: Seq<char>, stamp: int, now: int)
    requires
        kind == READINESS_REQUEST_KIND@ || kind == READINESS_KIND@ || kind == PREPARED_KIND@ || kind
            == COMMIT_KIND@ || kind == STEP_RESULT_KIND@ || kind == STEP_FAILURE_KIND@ || kind
            == STEP_COMMIT_KIND@ || kind == CANCEL_KIND@,
        native_id_ok(id),
        stamp > now,
    ensures
        replay_kind_ok(kind),
        replay_expiry(kind, stamp) > now,
{
}

/// Only the eight product event kinds have replay identities, and a step
/// result stays replayable one full lifetime (a day) after it completed,
/// every other event until its own expiry.
pub proof fn lemma_replay_kinds_and_expiry(kind: Seq<char>, stamp: int)
    ensures
        replay_kind_ok(kind) ==> (kind == READINESS_REQUEST_KIND@ || kind == READINESS_KIND@ || kind
            == PREPARED_KIND@ || kind == COMMIT_KIND@ || kind == STEP_RESULT_KIND@ || kind
            == STEP_FAILURE_KIND@ || kind == STEP_COMMIT_KIND@ || kind == CANCEL_KIND@),
        kind == STEP_RESULT_KIND@ ==> replay_expiry(kind, stamp) == stamp + 86400,
        kind != STEP_RESULT_KIND@ ==> replay_expiry(kind, stamp) == stamp,
{
}

} // verus!
