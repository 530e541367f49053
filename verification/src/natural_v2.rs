//! Proposal-only Natural-v2 lowering into the deterministic native-v2
//! Composer request. Candidate aliases are labels, never authority: they are
//! resolved against the requester's own Host and object selections, Search
//! outputs get identities derived here, and the result is only a draft.
use vstd::prelude::*;

use crate::error::{AppError, AppResult};
use crate::identity::{host_ref_ok, HostRef};
use crate::hashing::{blake3_digest, blake3_hex, lower_hex};
use crate::native_v2::{
    NativeV2ComposeRequestV1, NativeV2ObjectRevisionDtoV1, NativeV2RootDraftV1, NativeV2StepDraftV1,
};
use crate::physical::binding::domain_bytes;
use crate::text::{byte_len, utf8};

verus! {

pub const NATURAL_V2_SCHEMA_VERSION: &'static str = "candidate-semantic-plan-v2";

pub const NATURAL_V2_REVIEW_SCHEMA_VERSION: &'static str = "pastey-natural-v2-review-v1";

/// The most hosts, roots, steps, scopes, routes or dependencies a request holds.
pub const MAX_ITEMS: usize = 64;

/// The operation of a plan step.
#[derive(Clone, Copy, Debug, PartialEq, Eq, Structural)]
pub enum StepOperation {
    Search,
    Transform,
    Transfer,
    Execute,
}

/// The stored name of an operation.
pub open spec fn operation_name(op: StepOperation) -> Seq<char> {
    match op {
        StepOperation::Search => "search"@,
        StepOperation::Transform => "transform"@,
        StepOperation::Transfer => "transfer"@,
        StepOperation::Execute => "execute"@,
    }
}

/// The stored name of an operation.
pub fn operation_name_value(op: StepOperation) -> (r: &'static str)
    ensures
        r@ == operation_name(op),
{
    match op {
        StepOperation::Search => "search",
        StepOperation::Transform => "transform",
        StepOperation::Transfer => "transfer",
        StepOperation::Execute => "execute",
    }
}

/// A Host the requester selected, under a proposal alias.
#[derive(Clone, Debug, PartialEq, Eq)]
pub struct NaturalV2HostSelectionV1 {
    pub alias: String,
    pub host_ref: String,
    pub display_name: String,
    pub capability_facts: Vec<String>,
}

/// An object revision the requester selected as a root.
#[derive(Clone, Debug, PartialEq, Eq)]
pub struct NaturalV2RootSelectionV1 {
    pub root_alias: String,
    pub object_alias: String,
    pub logical_object_id: String,
    pub revision: u64,
    pub host_alias: String,
    pub display_name: String,
}

/// A Transfer route the requester allows.
#[derive(Clone, Debug, PartialEq, Eq)]
pub struct NaturalV2TransferSelectionV1 {
    pub source_host_alias: String,
    pub destination_host_alias: String,
}

/// Everything the requester selected for a proposal.
#[derive(Clone, Debug, PartialEq, Eq)]
pub struct NaturalV2ProposalContextV1 {
    pub hosts: Vec<NaturalV2HostSelectionV1>,
    pub roots: Vec<NaturalV2RootSelectionV1>,
    pub allowed_operations: Vec<StepOperation>,
    pub allowed_transfer_routes: Vec<NaturalV2TransferSelectionV1>,
    pub allowed_scope_labels: Vec<String>,
}

/// A root the candidate uses, by alias.
#[derive(Clone, Debug, PartialEq, Eq)]
pub struct CandidateSemanticRootV2 {
    pub root_alias: String,
    pub object_alias: String,
    pub host_alias: String,
}

/// One candidate step, by aliases.
#[derive(Clone, Debug, PartialEq, Eq)]
pub enum CandidateSemanticStepV2 {
    Search {
        step_alias: String,
        depends_on: Vec<String>,
        host_alias: String,
        output_alias: String,
        query: String,
        safe_scope_labels: Vec<String>,
    },
    Transform {
        step_alias: String,
        depends_on: Vec<String>,
        host_alias: String,
        input_alias: String,
        output_alias: String,
        modification_intent: String,
    },
    Transfer {
        step_alias: String,
        depends_on: Vec<String>,
        source_host_alias: String,
        destination_host_alias: String,
        input_alias: String,
        output_alias: String,
    },
    Execute {
        step_alias: String,
        depends_on: Vec<String>,
        host_alias: String,
        target_alias: String,
        execution_intent: String,
    },
}

/// A model-proposed semantic plan.
#[derive(Clone, Debug, PartialEq, Eq)]
pub struct CandidateSemanticPlanV2 {
    pub schema_version: String,
    pub title: String,
    pub original_user_goal: String,
    pub expected_outcome: String,
    pub roots: Vec<CandidateSemanticRootV2>,
    pub steps: Vec<CandidateSemanticStepV2>,
}

/// A request to lower a candidate plan for one requester.
#[derive(Clone, Debug, PartialEq, Eq)]
pub struct NaturalV2ComposeCandidateRequestV1 {
    pub plan_id: String,
    pub revision_id: String,
    pub revision_number: u32,
    pub bridge_id: String,
    pub requester_host_alias: String,
    /// The user input the Host captured; the candidate must repeat it exactly.
    pub original_user_goal: String,
    pub context: NaturalV2ProposalContextV1,
    pub candidate: CandidateSemanticPlanV2,
}

/// A Host a lowered plan touches.
#[derive(Clone, Debug, PartialEq, Eq)]
pub struct NaturalV2AffectedHostV1 {
    pub host_alias: String,
    pub display_name: String,
}

/// One step of the reviewed topology.
#[derive(Clone, Debug, PartialEq, Eq)]
pub struct NaturalV2TopologyStepV1 {
    pub step_alias: String,
    pub operation: StepOperation,
    pub host_aliases: Vec<String>,
    pub depends_on: Vec<String>,
    pub input_alias: Option<String>,
    pub output_alias: Option<String>,
}

/// One explicit movement of an object between Hosts.
#[derive(Clone, Debug, PartialEq, Eq)]
pub struct NaturalV2MovementV1 {
    pub step_alias: String,
    pub object_alias: String,
    pub source_host_alias: String,
    pub destination_host_alias: String,
}

/// What the approving user sees of a lowered candidate.
#[derive(Clone, Debug, PartialEq, Eq)]
pub struct NaturalV2CandidateReviewV1 {
    pub schema_version: String,
    pub title: String,
    pub draft: crate::native_v2::NativeV2PlanStatusV1,
    pub affected_hosts: Vec<NaturalV2AffectedHostV1>,
    pub topology: Vec<NaturalV2TopologyStepV1>,
    pub movements: Vec<NaturalV2MovementV1>,
}

/// Unicode White_Space.
pub open spec fn is_whitespace(c: char) -> bool {
    ||| ('\t' <= c && c <= '\r')
    ||| c == ' '
    ||| c == '\u{85}'
    ||| c == '\u{a0}'
    ||| c == '\u{1680}'
    ||| ('\u{2000}' <= c && c <= '\u{200a}')
    ||| c == '\u{2028}'
    ||| c == '\u{2029}'
    ||| c == '\u{202f}'
    ||| c == '\u{205f}'
    ||| c == '\u{3000}'
}

pub open spec fn trim_start(s: Seq<char>) -> Seq<char>
    decreases s.len(),
{
    if s.len() > 0 && is_whitespace(s[0]) {
        trim_start(s.drop_first())
    } else {
        s
    }
}

pub open spec fn trim_end(s: Seq<char>) -> Seq<char>
    decreases s.len(),
{
    if s.len() > 0 && is_whitespace(s.last()) {
        trim_end(s.drop_last())
    } else {
        s
    }
}

/// `s` without leading and trailing white space.
pub open spec fn trim(s: Seq<char>) -> Seq<char> {
    trim_end(trim_start(s))
}

/// `str::trim`: the slice without leading and trailing Unicode White_Space.
#[verifier::external_body]
pub(crate) fn trimmed_text(s: &str) -> (r: &str)
    ensures
        r@ == trim(s@),
{
    s.trim()
}

pub open spec fn id_byte(b: u8) -> bool {
    ||| (48 <= b && b <= 57)
    ||| (65 <= b && b <= 90)
    ||| (97 <= b && b <= 122)
    ||| b == 45
    ||| b == 95
    ||| b == 58
    ||| b == 46
}

/// An identifier: once trimmed, 1..=128 bytes of ASCII letters, digits and `-_:.`.
pub open spec fn id_ok(s: Seq<char>) -> bool {
    let t = utf8(trim(s));
    &&& 0 < t.len() <= 128
    &&& forall|i: int| 0 <= i < t.len() ==> id_byte(#[trigger] t[i])
}

/// Text that is not blank and holds at most 1024 bytes.
pub open spec fn text_ok(s: Seq<char>) -> bool {
    utf8(trim(s)).len() > 0 && utf8(s).len() <= 1024
}

/// Text that is not blank and holds at most 128 bytes.
pub open spec fn short_text_ok(s: Seq<char>) -> bool {
    utf8(trim(s)).len() > 0 && utf8(s).len() <= 128
}

fn id(value: &str) -> (r: AppResult<()>)
    ensures
        r is Ok <==> id_ok(value@),
{
    let t = trimmed_text(value);
    let b = t.as_bytes();
    assert(b@ == utf8(t@)) by {
        assert(b@ == vstd::string::StringSliceAdditionalSpecFns::spec_bytes(t));
    }
    if b.len() == 0 || b.len() > 128 {
        return Err(AppError::InvalidInput("Natural-v2 identifier is invalid."));
    }
    let mut i: usize = 0;
    while i < b.len()
        invariant
            i <= b@.len(),
            b@ == utf8(trim(value@)),
            forall|k: int| 0 <= k < i ==> id_byte(#[trigger] b@[k]),
        decreases b@.len() - i,
    {
        let c = b[i];
        let ok = (48 <= c && c <= 57) || (65 <= c && c <= 90) || (97 <= c && c <= 122) || c == 45
            || c == 95 || c == 58 || c == 46;
        if !ok {
            return Err(AppError::InvalidInput("Natural-v2 identifier is invalid."));
        }
        i = i + 1;
    }
    Ok(())
}

fn text(value: &str) -> (r: AppResult<()>)
    ensures
        r is Ok <==> text_ok(value@),
{
    if byte_len(trimmed_text(value)) == 0 || byte_len(value) > 1024 {
        return Err(AppError::InvalidInput("Natural-v2 text is invalid."));
    }
    Ok(())
}

fn short_text(value: &str) -> (r: AppResult<()>)
    ensures
        r is Ok <==> short_text_ok(value@),
{
    if byte_len(trimmed_text(value)) == 0 || byte_len(value) > 128 {
        return Err(AppError::InvalidInput("Natural-v2 text is invalid."));
    }
    Ok(())
}

pub open spec fn step_alias(s: CandidateSemanticStepV2) -> Seq<char> {
    match s {
        CandidateSemanticStepV2::Search { step_alias, .. } => step_alias@,
        CandidateSemanticStepV2::Transform { step_alias, .. } => step_alias@,
        CandidateSemanticStepV2::Transfer { step_alias, .. } => step_alias@,
        CandidateSemanticStepV2::Execute { step_alias, .. } => step_alias@,
    }
}

pub open spec fn step_deps(s: CandidateSemanticStepV2) -> Seq<String> {
    match s {
        CandidateSemanticStepV2::Search { depends_on, .. } => depends_on@,
        CandidateSemanticStepV2::Transform { depends_on, .. } => depends_on@,
        CandidateSemanticStepV2::Transfer { depends_on, .. } => depends_on@,
        CandidateSemanticStepV2::Execute { depends_on, .. } => depends_on@,
    }
}

pub open spec fn step_op(s: CandidateSemanticStepV2) -> StepOperation {
    match s {
        CandidateSemanticStepV2::Search { .. } => StepOperation::Search,
        CandidateSemanticStepV2::Transform { .. } => StepOperation::Transform,
        CandidateSemanticStepV2::Transfer { .. } => StepOperation::Transfer,
        CandidateSemanticStepV2::Execute { .. } => StepOperation::Execute,
    }
}

impl CandidateSemanticStepV2 {
    pub fn alias(&self) -> (r: &String)
        ensures
            r@ == step_alias(*self),
    {
        match self {
            CandidateSemanticStepV2::Search { step_alias, .. } => step_alias,
            CandidateSemanticStepV2::Transform { step_alias, .. } => step_alias,
            CandidateSemanticStepV2::Transfer { step_alias, .. } => step_alias,
            CandidateSemanticStepV2::Execute { step_alias, .. } => step_alias,
        }
    }

    pub fn dependencies(&self) -> (r: &Vec<String>)
        ensures
            r@ == step_deps(*self),
    {
        match self {
            CandidateSemanticStepV2::Search { depends_on, .. } => depends_on,
            CandidateSemanticStepV2::Transform { depends_on, .. } => depends_on,
            CandidateSemanticStepV2::Transfer { depends_on, .. } => depends_on,
            CandidateSemanticStepV2::Execute { depends_on, .. } => depends_on,
        }
    }

    pub fn operation(&self) -> (r: StepOperation)
        ensures
            r == step_op(*self),
    {
        match self {
            CandidateSemanticStepV2::Search { .. } => StepOperation::Search,
            CandidateSemanticStepV2::Transform { .. } => StepOperation::Transform,
            CandidateSemanticStepV2::Transfer { .. } => StepOperation::Transfer,
            CandidateSemanticStepV2::Execute { .. } => StepOperation::Execute,
        }
    }
}

pub open spec fn all_ids(v: Seq<String>) -> bool {
    forall|i: int| 0 <= i < v.len() ==> id_ok(#[trigger] v[i]@)
}

pub open spec fn host_known(hosts: Seq<NaturalV2HostSelectionV1>, alias: Seq<char>) -> bool {
    exists|i: int| 0 <= i < hosts.len() && #[trigger] hosts[i].alias@ == alias
}

pub open spec fn host_selection_ok(h: NaturalV2HostSelectionV1) -> bool {
    &&& id_ok(h.alias@)
    &&& host_ref_ok(utf8(h.host_ref@))
    &&& short_text_ok(h.display_name@)
    &&& h.capability_facts@.len() <= MAX_ITEMS
    &&& forall|k: int| 0 <= k < h.capability_facts@.len() ==> short_text_ok(#[trigger] h.capability_facts@[k]@)
}

pub open spec fn root_selection_ok(r: NaturalV2RootSelectionV1, hosts: Seq<NaturalV2HostSelectionV1>) -> bool {
    &&& id_ok(r.root_alias@)
    &&& id_ok(r.object_alias@)
    &&& id_ok(r.logical_object_id@)
    &&& id_ok(r.host_alias@)
    &&& short_text_ok(r.display_name@)
    &&& r.revision != 0
    &&& host_known(hosts, r.host_alias@)
}

pub open spec fn step_shape_ok(s: CandidateSemanticStepV2) -> bool {
    &&& id_ok(step_alias(s))
    &&& step_deps(s).len() <= MAX_ITEMS
    &&& all_ids(step_deps(s))
    &&& match s {
        CandidateSemanticStepV2::Search { host_alias, output_alias, query, safe_scope_labels, .. } => {
            &&& id_ok(host_alias@)
            &&& id_ok(output_alias@)
            &&& short_text_ok(query@)
            &&& safe_scope_labels@.len() <= MAX_ITEMS
        },
        CandidateSemanticStepV2::Transform { host_alias, input_alias, output_alias, modification_intent, .. } => {
            &&& id_ok(host_alias@)
            &&& id_ok(input_alias@)
            &&& id_ok(output_alias@)
            &&& text_ok(modification_intent@)
        },
        CandidateSemanticStepV2::Transfer { source_host_alias, destination_host_alias, input_alias, output_alias, .. } => {
            &&& id_ok(source_host_alias@)
            &&& id_ok(destination_host_alias@)
            &&& id_ok(input_alias@)
            &&& id_ok(output_alias@)
        },
        CandidateSemanticStepV2::Execute { host_alias, target_alias, execution_intent, .. } => {
            &&& id_ok(host_alias@)
            &&& id_ok(target_alias@)
            &&& text_ok(execution_intent@)
        },
    }
}

/// The shape every request must have before lowering: valid identifiers
/// and texts, bounded counts, unique Host, root and object aliases, roots
/// and routes at selected Hosts, and a non-empty set of distinct operations.
pub open spec fn request_shape_ok(r: NaturalV2ComposeCandidateRequestV1) -> bool {
    let c = r.context;
    let p = r.candidate;
    &&& id_ok(r.plan_id@)
    &&& id_ok(r.revision_id@)
    &&& id_ok(r.bridge_id@)
    &&& id_ok(r.requester_host_alias@)
    &&& r.revision_number != 0
    &&& 0 < c.hosts@.len() <= MAX_ITEMS
    &&& c.roots@.len() <= MAX_ITEMS
    &&& 0 < p.steps@.len() <= MAX_ITEMS
    &&& p.roots@.len() <= MAX_ITEMS
    &&& p.schema_version@ == NATURAL_V2_SCHEMA_VERSION@
    &&& text_ok(p.title@)
    &&& text_ok(r.original_user_goal@)
    &&& text_ok(p.original_user_goal@)
    &&& text_ok(p.expected_outcome@)
    &&& forall|i: int| 0 <= i < c.hosts@.len() ==> host_selection_ok(#[trigger] c.hosts@[i])
    &&& forall|i: int, j: int|
        0 <= i < j < c.hosts@.len() ==> #[trigger] c.hosts@[i].alias@ != #[trigger] c.hosts@[j].alias@
    &&& forall|i: int| 0 <= i < c.roots@.len() ==> root_selection_ok(#[trigger] c.roots@[i], c.hosts@)
    &&& forall|i: int, j: int|
        0 <= i < j < c.roots@.len() ==> #[trigger] c.roots@[i].root_alias@ != #[trigger] c.roots@[j].root_alias@
            && c.roots@[i].object_alias@ != c.roots@[j].object_alias@
    &&& 0 < c.allowed_operations@.len() <= 4
    &&& forall|i: int, j: int|
        0 <= i < j < c.allowed_operations@.len() ==> #[trigger] c.allowed_operations@[i]
            != #[trigger] c.allowed_operations@[j]
    &&& c.allowed_scope_labels@.len() <= MAX_ITEMS
    &&& c.allowed_transfer_routes@.len() <= MAX_ITEMS
    &&& all_ids(c.allowed_scope_labels@)
    &&& forall|i: int| 0 <= i < c.allowed_transfer_routes@.len() ==> {
        let t = #[trigger] c.allowed_transfer_routes@[i];
        host_known(c.hosts@, t.source_host_alias@) && host_known(c.hosts@, t.destination_host_alias@)
            && t.source_host_alias@ != t.destination_host_alias@
    }
    &&& forall|i: int| 0 <= i < p.roots@.len() ==> {
        let t = #[trigger] p.roots@[i];
        id_ok(t.root_alias@) && id_ok(t.object_alias@) && id_ok(t.host_alias@)
    }
    &&& forall|i: int| 0 <= i < p.steps@.len() ==> step_shape_ok(#[trigger] p.steps@[i])
}

fn ids_ok(v: &Vec<String>) -> (r: bool)
    ensures
        r == all_ids(v@),
{
    let mut i: usize = 0;
    while i < v.len()
        invariant
            i <= v@.len(),
            forall|k: int| 0 <= k < i ==> id_ok(#[trigger] v@[k]@),
        decreases v@.len() - i,
    {
        if id(v[i].as_str()).is_err() {
            return false;
        }
        i = i + 1;
    }
    true
}

fn find_host(hosts: &Vec<NaturalV2HostSelectionV1>, alias: &String) -> (r: Option<usize>)
    ensures
        r matches Some(i) ==> i < hosts@.len() && hosts@[i as int].alias@ == alias@ && forall|k: int|
            0 <= k < i ==> hosts@[k].alias@ != alias@,
        r is None <==> !host_known(hosts@, alias@),
{
    let mut i: usize = 0;
    while i < hosts.len()
        invariant
            i <= hosts@.len(),
            forall|k: int| 0 <= k < i ==> #[trigger] hosts@[k].alias@ != alias@,
        decreases hosts@.len() - i,
    {
        if hosts[i].alias == *alias {
            return Some(i);
        }
        i = i + 1;
    }
    None
}

fn host_ok(h: &NaturalV2HostSelectionV1) -> (r: bool)
    ensures
        r == host_selection_ok(*h),
{
    if id(h.alias.as_str()).is_err() || HostRef::parse(h.host_ref.clone()).is_err() || short_text(
        h.display_name.as_str(),
    ).is_err() || h.capability_facts.len() > MAX_ITEMS {
        return false;
    }
    let mut k: usize = 0;
    while k < h.capability_facts.len()
        invariant
            k <= h.capability_facts@.len(),
            forall|j: int| 0 <= j < k ==> short_text_ok(#[trigger] h.capability_facts@[j]@),
        decreases h.capability_facts@.len() - k,
    {
        if short_text(h.capability_facts[k].as_str()).is_err() {
            return false;
        }
        k = k + 1;
    }
    true
}

fn step_ok(s: &CandidateSemanticStepV2) -> (r: bool)
    ensures
        r == step_shape_ok(*s),
{
    if id(s.alias().as_str()).is_err() || s.dependencies().len() > MAX_ITEMS || !ids_ok(s.dependencies()) {
        return false;
    }
    match s {
        CandidateSemanticStepV2::Search { host_alias, output_alias, query, safe_scope_labels, .. } => {
            id(host_alias.as_str()).is_ok() && id(output_alias.as_str()).is_ok() && short_text(query.as_str()).is_ok()
                && safe_scope_labels.len() <= MAX_ITEMS
        },
        CandidateSemanticStepV2::Transform { host_alias, input_alias, output_alias, modification_intent, .. } => {
            id(host_alias.as_str()).is_ok() && id(input_alias.as_str()).is_ok() && id(output_alias.as_str()).is_ok()
                && text(modification_intent.as_str()).is_ok()
        },
        CandidateSemanticStepV2::Transfer { source_host_alias, destination_host_alias, input_alias, output_alias, .. } => {
            id(source_host_alias.as_str()).is_ok() && id(destination_host_alias.as_str()).is_ok() && id(
                input_alias.as_str(),
            ).is_ok() && id(output_alias.as_str()).is_ok()
        },
        CandidateSemanticStepV2::Execute { host_alias, target_alias, execution_intent, .. } => {
            id(host_alias.as_str()).is_ok() && id(target_alias.as_str()).is_ok() && text(execution_intent.as_str()).is_ok()
        },
    }
}

fn operation_eq(a: StepOperation, b: StepOperation) -> (r: bool)
    ensures
        r == (a == b),
{
    match (a, b) {
        (StepOperation::Search, StepOperation::Search) => true,
        (StepOperation::Transform, StepOperation::Transform) => true,
        (StepOperation::Transfer, StepOperation::Transfer) => true,
        (StepOperation::Execute, StepOperation::Execute) => true,
        _ => false,
    }
}

fn hosts_ok(hosts: &Vec<NaturalV2HostSelectionV1>) -> (r: bool)
    ensures
        r == ((forall|i: int| 0 <= i < hosts@.len() ==> host_selection_ok(#[trigger] hosts@[i])) && (
        forall|i: int, j: int|
            0 <= i < j < hosts@.len() ==> #[trigger] hosts@[i].alias@ != #[trigger] hosts@[j].alias@)),
{
    let mut i: usize = 0;
    while i < hosts.len()
        invariant
            i <= hosts@.len(),
            forall|k: int| 0 <= k < i ==> host_selection_ok(#[trigger] hosts@[k]),
            forall|a: int, b: int| 0 <= a < b < i ==> #[trigger] hosts@[a].alias@ != #[trigger] hosts@[b].alias@,
        decreases hosts@.len() - i,
    {
        if !host_ok(&hosts[i]) {
            return false;
        }
        let mut j: usize = 0;
        while j < i
            invariant
                j <= i < hosts@.len(),
                forall|a: int| 0 <= a < j ==> #[trigger] hosts@[a].alias@ != hosts@[i as int].alias@,
            decreases i - j,
        {
            if hosts[j].alias == hosts[i].alias {
                assert(hosts@[j as int].alias@ == hosts@[i as int].alias@);
                return false;
            }
            j = j + 1;
        }
        i = i + 1;
    }
    true
}

pub open spec fn roots_distinct(a: NaturalV2RootSelectionV1, b: NaturalV2RootSelectionV1) -> bool {
    a.root_alias@ != b.root_alias@ && a.object_alias@ != b.object_alias@
}

fn roots_ok(roots: &Vec<NaturalV2RootSelectionV1>, hosts: &Vec<NaturalV2HostSelectionV1>) -> (r: bool)
    ensures
        r == ((forall|i: int| 0 <= i < roots@.len() ==> root_selection_ok(#[trigger] roots@[i], hosts@)) && (
        forall|i: int, j: int|
            0 <= i < j < roots@.len() ==> #[trigger] roots@[i].root_alias@ != #[trigger] roots@[j].root_alias@
                && roots@[i].object_alias@ != roots@[j].object_alias@)),
{
    let mut i: usize = 0;
    while i < roots.len()
        invariant
            i <= roots@.len(),
            forall|k: int| 0 <= k < i ==> root_selection_ok(#[trigger] roots@[k], hosts@),
            forall|a: int, b: int|
                0 <= a < b < i ==> #[trigger] roots@[a].root_alias@ != #[trigger] roots@[b].root_alias@
                    && roots@[a].object_alias@ != roots@[b].object_alias@,
        decreases roots@.len() - i,
    {
        let r = &roots[i];
        if id(r.root_alias.as_str()).is_err() || id(r.object_alias.as_str()).is_err() || id(
            r.logical_object_id.as_str(),
        ).is_err() || id(r.host_alias.as_str()).is_err() || short_text(r.display_name.as_str()).is_err()
            || r.revision == 0 || find_host(hosts, &r.host_alias).is_none() {
            return false;
        }
        let mut j: usize = 0;
        while j < i
            invariant
                j <= i < roots@.len(),
                forall|a: int| 0 <= a < j ==> roots_distinct(#[trigger] roots@[a], roots@[i as int]),
            decreases i - j,
        {
            if roots[j].root_alias == roots[i].root_alias || roots[j].object_alias == roots[i].object_alias {
                assert(!(roots@[j as int].root_alias@ != roots@[i as int].root_alias@
                    && roots@[j as int].object_alias@ != roots@[i as int].object_alias@));
                return false;
            }
            assert(roots_distinct(roots@[j as int], roots@[i as int]));
            j = j + 1;
        }
        i = i + 1;
    }
    true
}

fn operations_ok(ops: &Vec<StepOperation>) -> (r: bool)
    ensures
        r == (0 < ops@.len() <= 4 && forall|i: int, j: int|
            0 <= i < j < ops@.len() ==> #[trigger] ops@[i] != #[trigger] ops@[j]),
{
    if ops.len() == 0 || ops.len() > 4 {
        return false;
    }
    let mut i: usize = 0;
    while i < ops.len()
        invariant
            0 < ops@.len() <= 4,
            i <= ops@.len(),
            forall|a: int, b: int| 0 <= a < b < i ==> #[trigger] ops@[a] != #[trigger] ops@[b],
        decreases ops@.len() - i,
    {
        let mut j: usize = 0;
        while j < i
            invariant
                j <= i < ops@.len(),
                forall|a: int| 0 <= a < j ==> #[trigger] ops@[a] != ops@[i as int],
            decreases i - j,
        {
            if operation_eq(ops[j], ops[i]) {
                return false;
            }
            j = j + 1;
        }
        i = i + 1;
    }
    true
}

fn routes_ok(routes: &Vec<NaturalV2TransferSelectionV1>, hosts: &Vec<NaturalV2HostSelectionV1>) -> (r: bool)
    ensures
        r == forall|i: int| 0 <= i < routes@.len() ==> {
            let t = #[trigger] routes@[i];
            host_known(hosts@, t.source_host_alias@) && host_known(hosts@, t.destination_host_alias@)
                && t.source_host_alias@ != t.destination_host_alias@
        },
{
    let mut i: usize = 0;
    while i < routes.len()
        invariant
            i <= routes@.len(),
            forall|k: int| 0 <= k < i ==> {
                let t = #[trigger] routes@[k];
                host_known(hosts@, t.source_host_alias@) && host_known(hosts@, t.destination_host_alias@)
                    && t.source_host_alias@ != t.destination_host_alias@
            },
        decreases routes@.len() - i,
    {
        let t = &routes[i];
        if find_host(hosts, &t.source_host_alias).is_none() || find_host(hosts, &t.destination_host_alias).is_none()
            || t.source_host_alias == t.destination_host_alias {
            return false;
        }
        i = i + 1;
    }
    true
}

fn candidate_roots_ok(roots: &Vec<CandidateSemanticRootV2>) -> (r: bool)
    ensures
        r == forall|i: int| 0 <= i < roots@.len() ==> {
            let t = #[trigger] roots@[i];
            id_ok(t.root_alias@) && id_ok(t.object_alias@) && id_ok(t.host_alias@)
        },
{
    let mut i: usize = 0;
    while i < roots.len()
        invariant
            i <= roots@.len(),
            forall|k: int| 0 <= k < i ==> {
                let t = #[trigger] roots@[k];
                id_ok(t.root_alias@) && id_ok(t.object_alias@) && id_ok(t.host_alias@)
            },
        decreases roots@.len() - i,
    {
        let t = &roots[i];
        if id(t.root_alias.as_str()).is_err() || id(t.object_alias.as_str()).is_err() || id(t.host_alias.as_str()).is_err() {
            return false;
        }
        i = i + 1;
    }
    true
}

fn steps_ok(steps: &Vec<CandidateSemanticStepV2>) -> (r: bool)
    ensures
        r == forall|i: int| 0 <= i < steps@.len() ==> step_shape_ok(#[trigger] steps@[i]),
{
    let mut i: usize = 0;
    while i < steps.len()
        invariant
            i <= steps@.len(),
            forall|k: int| 0 <= k < i ==> step_shape_ok(#[trigger] steps@[k]),
        decreases steps@.len() - i,
    {
        if !step_ok(&steps[i]) {
            return false;
        }
        i = i + 1;
    }
    true
}

/// Accepts exactly the requests of valid shape.
pub fn validate_request_shape(request: &NaturalV2ComposeCandidateRequestV1) -> (r: AppResult<()>)
    ensures
        r is Ok <==> request_shape_ok(*request),
{
    let c = &request.context;
    let p = &request.candidate;
    id(request.plan_id.as_str())?;
    id(request.revision_id.as_str())?;
    id(request.bridge_id.as_str())?;
    id(request.requester_host_alias.as_str())?;
    if request.revision_number == 0 || c.hosts.len() == 0 || c.hosts.len() > MAX_ITEMS || c.roots.len()
        > MAX_ITEMS || p.steps.len() == 0 || p.steps.len() > MAX_ITEMS || p.roots.len() > MAX_ITEMS {
        return Err(AppError::InvalidInput("Natural-v2 candidate/context cardinality is invalid."));
    }
    if p.schema_version != String::from_str(NATURAL_V2_SCHEMA_VERSION) {
        return Err(AppError::InvalidInput("Natural-v2 candidate schema version is invalid."));
    }
    text(p.title.as_str())?;
    text(request.original_user_goal.as_str())?;
    text(p.original_user_goal.as_str())?;
    text(p.expected_outcome.as_str())?;
    if !hosts_ok(&c.hosts) {
        return Err(AppError::InvalidInput("Natural-v2 context contains duplicate Host aliases or too many facts."));
    }
    if !roots_ok(&c.roots, &c.hosts) {
        return Err(AppError::InvalidInput("Natural-v2 root selection is duplicate or invalid."));
    }
    if !operations_ok(&c.allowed_operations) || c.allowed_scope_labels.len() > MAX_ITEMS
        || c.allowed_transfer_routes.len() > MAX_ITEMS || !ids_ok(&c.allowed_scope_labels) {
        return Err(AppError::InvalidInput("Natural-v2 proposal constraint selection is invalid."));
    }
    if !routes_ok(&c.allowed_transfer_routes, &c.hosts) {
        return Err(AppError::InvalidInput("Natural-v2 selected Transfer route is invalid."));
    }
    if !candidate_roots_ok(&p.roots) || !steps_ok(&p.steps) {
        return Err(AppError::InvalidInput("Natural-v2 candidate roots or steps are invalid."));
    }
    Ok(())
}

/// What the lowering tracks of one current object.
pub struct ObjView {
    pub logical: Seq<char>,
    pub revision: u64,
    pub host: Seq<char>,
    pub producer: Option<Seq<char>>,
}

/// The lowering's state between steps: the current objects by alias and
/// the step aliases seen so far.
pub struct FlowState {
    pub objects: Map<Seq<char>, ObjView>,
    pub seen: Set<Seq<char>>,
}

/// One current object, under its alias.
pub struct ObjectEntry {
    pub alias: String,
    pub logical_object_id: String,
    pub revision: u64,
    pub host_alias: String,
    pub producer: Option<String>,
}

pub open spec fn opt_view(o: Option<String>) -> Option<Seq<char>> {
    match o {
        Some(s) => Some(s@),
        None => None,
    }
}

pub open spec fn entry_view(e: ObjectEntry) -> ObjView {
    ObjView { logical: e.logical_object_id@, revision: e.revision, host: e.host_alias@, producer: opt_view(e.producer) }
}

pub open spec fn has_alias(t: Seq<ObjectEntry>, a: Seq<char>) -> bool {
    exists|i: int| 0 <= i < t.len() && #[trigger] t[i].alias@ == a
}

pub open spec fn table_view(t: Seq<ObjectEntry>) -> Map<Seq<char>, ObjView> {
    Map::new(
        |a: Seq<char>| has_alias(t, a),
        |a: Seq<char>| entry_view(t[choose|i: int| 0 <= i < t.len() && #[trigger] t[i].alias@ == a]),
    )
}

pub open spec fn table_wf(t: Seq<ObjectEntry>) -> bool {
    forall|i: int, j: int| 0 <= i < j < t.len() ==> #[trigger] t[i].alias@ != #[trigger] t[j].alias@
}

pub open spec fn seen_view(v: Seq<String>) -> Set<Seq<char>> {
    Set::new(|a: Seq<char>| exists|i: int| 0 <= i < v.len() && #[trigger] v[i]@ == a)
}

/// The bytes hashed for the identity of a Search step's output.
pub open spec fn search_id_input(plan: Seq<char>, revision: Seq<char>, alias: Seq<char>) -> Seq<u8> {
    utf8("pastey-natural-v2-search-object-v1"@) + seq![0u8] + utf8(plan) + seq![0u8] + utf8(revision)
        + seq![0u8] + utf8(alias)
}

/// The identity of a Search step's output: derived here from the plan,
/// revision and step, never taken from the candidate.
pub open spec fn search_object_id(plan: Seq<char>, revision: Seq<char>, alias: Seq<char>) -> Seq<char> {
    "managed-object:v1:"@ + lower_hex(blake3_digest(search_id_input(plan, revision, alias)))
}

/// The object identity of the Search step `step_alias` of a plan revision.
pub fn derived_search_object_id(plan_id: &str, revision_id: &str, step_alias: &str) -> (r: String)
    ensures
        r@ == search_object_id(plan_id@, revision_id@, step_alias@),
{
    let mut input: Vec<u8> = Vec::new();
    append_bytes(&mut input, domain_bytes("pastey-natural-v2-search-object-v1"));
    input.push(0u8);
    append_bytes(&mut input, as_bytes(plan_id));
    input.push(0u8);
    append_bytes(&mut input, as_bytes(revision_id));
    input.push(0u8);
    append_bytes(&mut input, as_bytes(step_alias));
    assert(input@ =~= search_id_input(plan_id@, revision_id@, step_alias@));
    let hex = blake3_hex(input.as_slice());
    String::from_str("managed-object:v1:").concat(hex.as_str())
}

pub(crate) fn as_bytes(s: &str) -> (r: &[u8])
    ensures
        r@ == utf8(s@),
{
    let b = s.as_bytes();
    assert(b@ == vstd::string::StringSliceAdditionalSpecFns::spec_bytes(s));
    b
}

pub(crate) fn append_bytes(buf: &mut Vec<u8>, b: &[u8])
    ensures
        final(buf)@ == old(buf)@ + b@,
{
    let mut i: usize = 0;
    while i < b.len()
        invariant
            i <= b@.len(),
            buf@ == old(buf)@ + b@.subrange(0, i as int),
        decreases b@.len() - i,
    {
        buf.push(b[i]);
        i = i + 1;
    }
    assert(b@.subrange(0, b@.len() as int) =~= b@);
}

/// In a table with distinct aliases, the entry under an alias is its view.
proof fn lemma_view_at(t: Seq<ObjectEntry>, i: int)
    requires
        table_wf(t),
        0 <= i < t.len(),
    ensures
        table_view(t).contains_key(t[i].alias@),
        table_view(t)[t[i].alias@] == entry_view(t[i]),
{
    let a = t[i].alias@;
    assert(has_alias(t, a));
    let c = choose|j: int| 0 <= j < t.len() && #[trigger] t[j].alias@ == a;
    if c < i {
        assert(t[c].alias@ != t[i].alias@);
    } else if c > i {
        assert(t[i].alias@ != t[c].alias@);
    }
}

fn table_find(t: &Vec<ObjectEntry>, a: &String) -> (r: Option<usize>)
    requires
        table_wf(t@),
    ensures
        r matches Some(i) ==> i < t@.len() && t@[i as int].alias@ == a@ && table_view(t@).contains_key(a@)
            && table_view(t@)[a@] == entry_view(t@[i as int]),
        r is None ==> !table_view(t@).contains_key(a@),
{
    let mut i: usize = 0;
    while i < t.len()
        invariant
            table_wf(t@),
            i <= t@.len(),
            forall|k: int| 0 <= k < i ==> #[trigger] t@[k].alias@ != a@,
        decreases t@.len() - i,
    {
        if t[i].alias == *a {
            proof {
                lemma_view_at(t@, i as int);
            }
            return Some(i);
        }
        i = i + 1;
    }
    None
}

fn table_insert(t: &mut Vec<ObjectEntry>, e: ObjectEntry)
    requires
        table_wf(old(t)@),
        !table_view(old(t)@).contains_key(e.alias@),
    ensures
        table_wf(final(t)@),
        table_view(final(t)@) == table_view(old(t)@).insert(e.alias@, entry_view(e)),
{
    let ghost before = t@;
    let ghost ev = entry_view(e);
    let ghost a = e.alias@;
    t.push(e);
    proof {
        assert forall|x: int, y: int| 0 <= x < y < t@.len() implies #[trigger] t@[x].alias@ != #[trigger] t@[y].alias@ by {
            if y == before.len() {
                assert(!has_alias(before, a));
                assert(before[x].alias@ == t@[x].alias@);
            } else {
                assert(before[x].alias@ != before[y].alias@);
            }
        }
        lemma_view_at(t@, before.len() as int);
        assert forall|k: Seq<char>| #[trigger] table_view(t@).contains_key(k) <==> table_view(before).insert(a, ev).contains_key(k) by {
            if has_alias(before, k) {
                let j = choose|j: int| 0 <= j < before.len() && #[trigger] before[j].alias@ == k;
                assert(t@[j].alias@ == k);
            }
            if has_alias(t@, k) && k != a {
                let j = choose|j: int| 0 <= j < t@.len() && #[trigger] t@[j].alias@ == k;
                assert(j < before.len());
                assert(before[j].alias@ == k);
            }
        }
        assert forall|k: Seq<char>| table_view(t@).contains_key(k) implies #[trigger] table_view(t@)[k] == table_view(before).insert(a, ev)[k] by {
            if k != a {
                let j = choose|j: int| 0 <= j < t@.len() && #[trigger] t@[j].alias@ == k;
                assert(j < before.len());
                lemma_view_at(t@, j);
                lemma_view_at(before, j);
            }
        }
        assert(table_view(t@) =~= table_view(before).insert(a, ev));
    }
}

fn table_remove(t: &mut Vec<ObjectEntry>, i: usize) -> (e: ObjectEntry)
    requires
        table_wf(old(t)@),
        i < old(t)@.len(),
    ensures
        e == old(t)@[i as int],
        table_wf(final(t)@),
        table_view(final(t)@) == table_view(old(t)@).remove(old(t)@[i as int].alias@),
{
    let ghost before = t@;
    let ghost a = before[i as int].alias@;
    let e = t.remove(i);
    proof {
        assert(t@ =~= before.remove(i as int));
        assert forall|x: int, y: int| 0 <= x < y < t@.len() implies #[trigger] t@[x].alias@ != #[trigger] t@[y].alias@ by {
            let bx = if x < i { x } else { x + 1 };
            let by_ = if y < i { y } else { y + 1 };
            assert(t@[x] == before[bx]);
            assert(t@[y] == before[by_]);
            assert(before[bx].alias@ != before[by_].alias@);
        }
        assert forall|k: Seq<char>| #[trigger] table_view(t@).contains_key(k) <==> table_view(before).remove(a).contains_key(k) by {
            if has_alias(t@, k) {
                let j = choose|j: int| 0 <= j < t@.len() && #[trigger] t@[j].alias@ == k;
                let bj = if j < i { j } else { j + 1 };
                assert(t@[j] == before[bj]);
                assert(before[bj].alias@ == k);
                if k == a {
                    assert(before[bj].alias@ == before[i as int].alias@);
                }
            }
            if has_alias(before, k) && k != a {
                let j = choose|j: int| 0 <= j < before.len() && #[trigger] before[j].alias@ == k;
                assert(j != i);
                let tj = if j < i { j } else { j - 1 };
                assert(t@[tj] == before[j]);
            }
        }
        assert forall|k: Seq<char>| table_view(t@).contains_key(k) implies #[trigger] table_view(t@)[k] == table_view(before).remove(a)[k] by {
            let j = choose|j: int| 0 <= j < t@.len() && #[trigger] t@[j].alias@ == k;
            let bj = if j < i { j } else { j + 1 };
            assert(t@[j] == before[bj]);
            lemma_view_at(t@, j);
            lemma_view_at(before, bj);
        }
        assert(table_view(t@) =~= table_view(before).remove(a));
    }
    e
}

pub open spec fn op_allowed(c: NaturalV2ProposalContextV1, op: StepOperation) -> bool {
    exists|i: int| 0 <= i < c.allowed_operations@.len() && #[trigger] c.allowed_operations@[i] == op
}

pub open spec fn scope_allowed(c: NaturalV2ProposalContextV1, label: Seq<char>) -> bool {
    exists|i: int| 0 <= i < c.allowed_scope_labels@.len() && #[trigger] c.allowed_scope_labels@[i]@ == label
}

pub open spec fn scopes_allowed(c: NaturalV2ProposalContextV1, labels: Seq<String>) -> bool {
    forall|k: int| 0 <= k < labels.len() ==> scope_allowed(c, #[trigger] labels[k]@)
}

pub open spec fn route_allowed(c: NaturalV2ProposalContextV1, src: Seq<char>, dst: Seq<char>) -> bool {
    exists|i: int|
        0 <= i < c.allowed_transfer_routes@.len() && #[trigger] c.allowed_transfer_routes@[i].source_host_alias@ == src
            && c.allowed_transfer_routes@[i].destination_host_alias@ == dst
}

pub open spec fn deps_seen(deps: Seq<String>, seen: Set<Seq<char>>) -> bool {
    forall|k: int| 0 <= k < deps.len() ==> seen.contains(#[trigger] deps[k]@)
}

pub open spec fn dep_listed(deps: Seq<String>, p: Seq<char>) -> bool {
    exists|k: int| 0 <= k < deps.len() && #[trigger] deps[k]@ == p
}

/// An object may be consumed only by a step that depends on its producer.
pub open spec fn producer_ok(o: ObjView, deps: Seq<String>) -> bool {
    match o.producer {
        None => true,
        Some(p) => dep_listed(deps, p),
    }
}

/// The state after lowering one step, or `None` where lowering refuses it:
/// an operation outside the selected vocabulary, a duplicate alias, a
/// dependency on no earlier step, an unknown Host, an unselected scope or
/// route, a stale object, a missing dependency on an object's producer, an
/// object used away from its Host, or an object alias reused. Only Transfer
/// changes where an object is.
pub open spec fn step_next(r: NaturalV2ComposeCandidateRequestV1, st: FlowState, s: CandidateSemanticStepV2) -> Option<FlowState> {
    let c = r.context;
    let hosts = c.hosts@;
    let alias = step_alias(s);
    let deps = step_deps(s);
    let seen = st.seen.insert(alias);
    if !op_allowed(c, step_op(s)) || st.seen.contains(alias) || !deps_seen(deps, st.seen) {
        None
    } else {
        match s {
            CandidateSemanticStepV2::Search { host_alias, output_alias, safe_scope_labels, .. } => {
                if safe_scope_labels@.len() == 0 || !scopes_allowed(c, safe_scope_labels@) || st.objects.contains_key(
                    output_alias@,
                ) || !host_known(hosts, host_alias@) {
                    None
                } else {
                    Some(
                        FlowState {
                            objects: st.objects.insert(
                                output_alias@,
                                ObjView {
                                    logical: search_object_id(r.plan_id@, r.revision_id@, alias),
                                    revision: 1,
                                    host: host_alias@,
                                    producer: Some(alias),
                                },
                            ),
                            seen,
                        },
                    )
                }
            },
            CandidateSemanticStepV2::Transform { host_alias, input_alias, output_alias, .. } => {
                let inp = st.objects[input_alias@];
                if !st.objects.contains_key(input_alias@) || !producer_ok(inp, deps) || inp.host != host_alias@
                    || st.objects.contains_key(output_alias@) || inp.revision == u64::MAX || !host_known(
                    hosts,
                    host_alias@,
                ) {
                    None
                } else {
                    Some(
                        FlowState {
                            objects: st.objects.remove(input_alias@).insert(
                                output_alias@,
                                ObjView {
                                    logical: inp.logical,
                                    revision: (inp.revision + 1) as u64,
                                    host: host_alias@,
                                    producer: Some(alias),
                                },
                            ),
                            seen,
                        },
                    )
                }
            },
            CandidateSemanticStepV2::Transfer {
                source_host_alias,
                destination_host_alias,
                input_alias,
                output_alias,
                ..
            } => {
                let inp = st.objects[input_alias@];
                if !route_allowed(c, source_host_alias@, destination_host_alias@) || !st.objects.contains_key(
                    input_alias@,
                ) || !producer_ok(inp, deps) || inp.host != source_host_alias@ || source_host_alias@
                    == destination_host_alias@ || st.objects.contains_key(output_alias@) || !host_known(
                    hosts,
                    source_host_alias@,
                ) || !host_known(hosts, destination_host_alias@) {
                    None
                } else {
                    Some(
                        FlowState {
                            objects: st.objects.remove(input_alias@).insert(
                                output_alias@,
                                ObjView {
                                    logical: inp.logical,
                                    revision: inp.revision,
                                    host: destination_host_alias@,
                                    producer: Some(alias),
                                },
                            ),
                            seen,
                        },
                    )
                }
            },
            CandidateSemanticStepV2::Execute { host_alias, target_alias, .. } => {
                let t = st.objects[target_alias@];
                if !st.objects.contains_key(target_alias@) || !producer_ok(t, deps) || t.host != host_alias@
                    || !host_known(hosts, host_alias@) {
                    None
                } else {
                    Some(FlowState { objects: st.objects, seen })
                }
            },
        }
    }
}

/// Why lowering refuses step `s` in state `st`, in the order the checks
/// run, or `None` where it is lowered.
pub open spec fn step_error(r: NaturalV2ComposeCandidateRequestV1, st: FlowState, s: CandidateSemanticStepV2) -> Option<
    &'static str,
> {
    let c = r.context;
    let hosts = c.hosts@;
    let alias = step_alias(s);
    let deps = step_deps(s);
    if !op_allowed(c, step_op(s)) {
        Some("Natural-v2 candidate requested an operation outside the selected proposal vocabulary.")
    } else if st.seen.contains(alias) || !deps_seen(deps, st.seen) {
        Some("Natural-v2 step aliases/dependencies are duplicate, forward, or unknown.")
    } else {
        match s {
            CandidateSemanticStepV2::Search { host_alias, output_alias, safe_scope_labels, .. } => {
                if safe_scope_labels@.len() == 0 || !scopes_allowed(c, safe_scope_labels@) || st.objects.contains_key(
                    output_alias@,
                ) {
                    Some("Natural-v2 Search output or reviewed scope selection is invalid.")
                } else if !host_known(hosts, host_alias@) {
                    Some("Natural-v2 candidate names an unknown Host alias.")
                } else {
                    None
                }
            },
            CandidateSemanticStepV2::Transform { host_alias, input_alias, output_alias, .. } => {
                let inp = st.objects[input_alias@];
                if !st.objects.contains_key(input_alias@) {
                    Some("Natural-v2 step consumes an unknown or stale object alias.")
                } else if !producer_ok(inp, deps) {
                    Some("Natural-v2 step does not depend on the exact object producer.")
                } else if inp.host != host_alias@ || st.objects.contains_key(output_alias@) {
                    Some("Natural-v2 Transform would move an object or reuse an object alias.")
                } else if inp.revision == u64::MAX {
                    Some("Natural-v2 object revision overflowed.")
                } else if !host_known(hosts, host_alias@) {
                    Some("Natural-v2 candidate names an unknown Host alias.")
                } else {
                    None
                }
            },
            CandidateSemanticStepV2::Transfer {
                source_host_alias,
                destination_host_alias,
                input_alias,
                output_alias,
                ..
            } => {
                let inp = st.objects[input_alias@];
                if !route_allowed(c, source_host_alias@, destination_host_alias@) {
                    Some("Natural-v2 candidate invented an unselected Transfer route.")
                } else if !st.objects.contains_key(input_alias@) {
                    Some("Natural-v2 step consumes an unknown or stale object alias.")
                } else if !producer_ok(inp, deps) {
                    Some("Natural-v2 step does not depend on the exact object producer.")
                } else if inp.host != source_host_alias@ || source_host_alias@ == destination_host_alias@
                    || st.objects.contains_key(output_alias@) {
                    Some("Natural-v2 Transfer source, destination, or output alias is invalid.")
                } else if !host_known(hosts, source_host_alias@) || !host_known(hosts, destination_host_alias@) {
                    Some("Natural-v2 candidate names an unknown Host alias.")
                } else {
                    None
                }
            },
            CandidateSemanticStepV2::Execute { host_alias, target_alias, .. } => {
                let t = st.objects[target_alias@];
                if !st.objects.contains_key(target_alias@) {
                    Some("Natural-v2 step consumes an unknown or stale object alias.")
                } else if !producer_ok(t, deps) {
                    Some("Natural-v2 step does not depend on the exact object producer.")
                } else if t.host != host_alias@ {
                    Some("Natural-v2 Execute cannot consume an object at another Host.")
                } else if !host_known(hosts, host_alias@) {
                    Some("Natural-v2 candidate names an unknown Host alias.")
                } else {
                    None
                }
            },
        }
    }
}

/// The values lowering refuses, step by step.
pub proof fn lemma_step_error_exact(r: NaturalV2ComposeCandidateRequestV1, st: FlowState, s: CandidateSemanticStepV2)
    ensures
        step_error(r, st, s) is None <==> step_next(r, st, s) is Some,
{
}

pub open spec fn strings_same(a: Seq<String>, b: Seq<String>) -> bool {
    a.len() == b.len() && forall|k: int| 0 <= k < a.len() ==> #[trigger] a[k]@ == b[k]@
}

/// The Host reference selected under `alias`.
pub open spec fn host_ref_of(hosts: Seq<NaturalV2HostSelectionV1>, alias: Seq<char>) -> Seq<char> {
    hosts[choose|i: int| 0 <= i < hosts.len() && #[trigger] hosts[i].alias@ == alias].host_ref@
}

pub open spec fn obj_dto_is(d: NativeV2ObjectRevisionDtoV1, logical: Seq<char>, revision: int) -> bool {
    d.logical_object_id@ == logical && d.revision == revision
}

/// The native step lowered from candidate step `s` in state `st`.
pub open spec fn native_matches(
    r: NaturalV2ComposeCandidateRequestV1,
    st: FlowState,
    s: CandidateSemanticStepV2,
    n: NativeV2StepDraftV1,
) -> bool {
    let hosts = r.context.hosts@;
    match (s, n) {
        (
            CandidateSemanticStepV2::Search { step_alias, depends_on, host_alias, query, safe_scope_labels, .. },
            NativeV2StepDraftV1::Search {
                step_id,
                depends_on: d,
                host_ref,
                output,
                query: q,
                safe_scope_labels: l,
            },
        ) => {
            &&& step_id@ == step_alias@
            &&& strings_same(d@, depends_on@)
            &&& host_ref@ == host_ref_of(hosts, host_alias@)
            &&& obj_dto_is(output, search_object_id(r.plan_id@, r.revision_id@, step_alias@), 1)
            &&& q@ == query@
            &&& strings_same(l@, safe_scope_labels@)
        },
        (
            CandidateSemanticStepV2::Transform { step_alias, depends_on, host_alias, input_alias, modification_intent, .. },
            NativeV2StepDraftV1::Transform { step_id, depends_on: d, host_ref, input, output, modification_intent: m },
        ) => {
            let o = st.objects[input_alias@];
            &&& step_id@ == step_alias@
            &&& strings_same(d@, depends_on@)
            &&& host_ref@ == host_ref_of(hosts, host_alias@)
            &&& obj_dto_is(input, o.logical, o.revision as int)
            &&& obj_dto_is(output, o.logical, o.revision + 1)
            &&& m@ == modification_intent@
        },
        (
            CandidateSemanticStepV2::Transfer {
                step_alias,
                depends_on,
                source_host_alias,
                destination_host_alias,
                input_alias,
                ..
            },
            NativeV2StepDraftV1::Transfer { step_id, depends_on: d, source_host_ref, destination_host_ref, input, output },
        ) => {
            let o = st.objects[input_alias@];
            &&& step_id@ == step_alias@
            &&& strings_same(d@, depends_on@)
            &&& source_host_ref@ == host_ref_of(hosts, source_host_alias@)
            &&& destination_host_ref@ == host_ref_of(hosts, destination_host_alias@)
            &&& obj_dto_is(input, o.logical, o.revision as int)
            &&& obj_dto_is(output, o.logical, o.revision as int)
        },
        (
            CandidateSemanticStepV2::Execute { step_alias, depends_on, host_alias, target_alias, execution_intent },
            NativeV2StepDraftV1::Execute { step_id, depends_on: d, host_ref, target, execution_intent: x },
        ) => {
            let o = st.objects[target_alias@];
            &&& step_id@ == step_alias@
            &&& strings_same(d@, depends_on@)
            &&& host_ref@ == host_ref_of(hosts, host_alias@)
            &&& obj_dto_is(target, o.logical, o.revision as int)
            &&& x@ == execution_intent@
        },
        _ => false,
    }
}

pub open spec fn opt_is(o: Option<String>, v: Option<Seq<char>>) -> bool {
    opt_view(o) == v
}

/// The reviewed topology entry of candidate step `s`.
pub open spec fn topology_matches(s: CandidateSemanticStepV2, t: NaturalV2TopologyStepV1) -> bool {
    &&& t.step_alias@ == step_alias(s)
    &&& t.operation == step_op(s)
    &&& strings_same(t.depends_on@, step_deps(s))
    &&& match s {
        CandidateSemanticStepV2::Search { host_alias, output_alias, .. } => t.host_aliases@.len() == 1
            && t.host_aliases@[0]@ == host_alias@ && opt_is(t.input_alias, None) && opt_is(
            t.output_alias,
            Some(output_alias@),
        ),
        CandidateSemanticStepV2::Transform { host_alias, input_alias, output_alias, .. } => t.host_aliases@.len() == 1
            && t.host_aliases@[0]@ == host_alias@ && opt_is(t.input_alias, Some(input_alias@)) && opt_is(
            t.output_alias,
            Some(output_alias@),
        ),
        CandidateSemanticStepV2::Transfer { source_host_alias, destination_host_alias, input_alias, output_alias, .. } => {
            &&& t.host_aliases@.len() == 2
            &&& t.host_aliases@[0]@ == source_host_alias@
            &&& t.host_aliases@[1]@ == destination_host_alias@
            &&& opt_is(t.input_alias, Some(input_alias@))
            &&& opt_is(t.output_alias, Some(output_alias@))
        },
        CandidateSemanticStepV2::Execute { host_alias, target_alias, .. } => t.host_aliases@.len() == 1
            && t.host_aliases@[0]@ == host_alias@ && opt_is(t.input_alias, Some(target_alias@)) && opt_is(
            t.output_alias,
            None,
        ),
    }
}

/// The movement a candidate step makes: exactly its Transfer, if it is one.
pub open spec fn movement_matches(s: CandidateSemanticStepV2, m: Option<NaturalV2MovementV1>) -> bool {
    match s {
        CandidateSemanticStepV2::Transfer { step_alias, source_host_alias, destination_host_alias, output_alias, .. } => {
            &&& m is Some
            &&& m.unwrap().step_alias@ == step_alias@
            &&& m.unwrap().object_alias@ == output_alias@
            &&& m.unwrap().source_host_alias@ == source_host_alias@
            &&& m.unwrap().destination_host_alias@ == destination_host_alias@
        },
        _ => m is None,
    }
}

fn clone_strings(v: &Vec<String>) -> (r: Vec<String>)
    ensures
        strings_same(r@, v@),
{
    let mut out: Vec<String> = Vec::new();
    let mut i: usize = 0;
    while i < v.len()
        invariant
            i <= v@.len(),
            out@.len() == i,
            forall|k: int| 0 <= k < i ==> #[trigger] out@[k]@ == v@[k]@,
        decreases v@.len() - i,
    {
        out.push(v[i].clone());
        i = i + 1;
    }
    out
}

fn seen_has(seen: &Vec<String>, a: &String) -> (r: bool)
    ensures
        r == seen_view(seen@).contains(a@),
{
    let mut i: usize = 0;
    while i < seen.len()
        invariant
            i <= seen@.len(),
            forall|k: int| 0 <= k < i ==> #[trigger] seen@[k]@ != a@,
        decreases seen@.len() - i,
    {
        if seen[i] == *a {
            return true;
        }
        i = i + 1;
    }
    false
}

fn push_seen(seen: &mut Vec<String>, a: &String)
    ensures
        seen_view(final(seen)@) == seen_view(old(seen)@).insert(a@),
{
    let ghost before = seen@;
    seen.push(a.clone());
    proof {
        assert forall|x: Seq<char>| #[trigger] seen_view(seen@).contains(x) <==> seen_view(before).insert(a@).contains(x) by {
            if seen_view(before).contains(x) {
                let k = choose|k: int| 0 <= k < before.len() && #[trigger] before[k]@ == x;
                assert(seen@[k]@ == x);
            }
            if x == a@ {
                assert(seen@[before.len() as int]@ == x);
            }
            if seen_view(seen@).contains(x) && x != a@ {
                let k = choose|k: int| 0 <= k < seen@.len() && #[trigger] seen@[k]@ == x;
                assert(k < before.len());
                assert(before[k]@ == x);
            }
        }
        assert(seen_view(seen@) =~= seen_view(before).insert(a@));
    }
}

fn deps_in_seen(deps: &Vec<String>, seen: &Vec<String>) -> (r: bool)
    ensures
        r == deps_seen(deps@, seen_view(seen@)),
{
    let mut i: usize = 0;
    while i < deps.len()
        invariant
            i <= deps@.len(),
            forall|k: int| 0 <= k < i ==> seen_view(seen@).contains(#[trigger] deps@[k]@),
        decreases deps@.len() - i,
    {
        if !seen_has(seen, &deps[i]) {
            return false;
        }
        i = i + 1;
    }
    true
}

fn dep_in(deps: &Vec<String>, p: &String) -> (r: bool)
    ensures
        r == dep_listed(deps@, p@),
{
    let mut i: usize = 0;
    while i < deps.len()
        invariant
            i <= deps@.len(),
            forall|k: int| 0 <= k < i ==> #[trigger] deps@[k]@ != p@,
        decreases deps@.len() - i,
    {
        if deps[i] == *p {
            return true;
        }
        i = i + 1;
    }
    false
}

fn producer_allows(e: &ObjectEntry, deps: &Vec<String>) -> (r: bool)
    ensures
        r == producer_ok(entry_view(*e), deps@),
{
    match &e.producer {
        None => true,
        Some(p) => dep_in(deps, p),
    }
}

fn op_in(c: &NaturalV2ProposalContextV1, op: StepOperation) -> (r: bool)
    ensures
        r == op_allowed(*c, op),
{
    let mut i: usize = 0;
    while i < c.allowed_operations.len()
        invariant
            i <= c.allowed_operations@.len(),
            forall|k: int| 0 <= k < i ==> #[trigger] c.allowed_operations@[k] != op,
        decreases c.allowed_operations@.len() - i,
    {
        if operation_eq(c.allowed_operations[i], op) {
            return true;
        }
        i = i + 1;
    }
    false
}

fn scopes_in(c: &NaturalV2ProposalContextV1, labels: &Vec<String>) -> (r: bool)
    ensures
        r == scopes_allowed(*c, labels@),
{
    let mut i: usize = 0;
    while i < labels.len()
        invariant
            i <= labels@.len(),
            forall|k: int| 0 <= k < i ==> scope_allowed(*c, #[trigger] labels@[k]@),
        decreases labels@.len() - i,
    {
        let mut j: usize = 0;
        let mut found = false;
        while j < c.allowed_scope_labels.len()
            invariant
                j <= c.allowed_scope_labels@.len(),
                i < labels@.len(),
                found ==> scope_allowed(*c, labels@[i as int]@),
                !found ==> forall|k: int| 0 <= k < j ==> #[trigger] c.allowed_scope_labels@[k]@ != labels@[i as int]@,
            decreases c.allowed_scope_labels@.len() - j,
        {
            if c.allowed_scope_labels[j] == labels[i] {
                found = true;
            }
            j = j + 1;
        }
        if !found {
            assert(!scope_allowed(*c, labels@[i as int]@));
            return false;
        }
        i = i + 1;
    }
    true
}

fn route_in(c: &NaturalV2ProposalContextV1, src: &String, dst: &String) -> (r: bool)
    ensures
        r == route_allowed(*c, src@, dst@),
{
    let mut i: usize = 0;
    while i < c.allowed_transfer_routes.len()
        invariant
            i <= c.allowed_transfer_routes@.len(),
            forall|k: int|
                0 <= k < i ==> !(#[trigger] c.allowed_transfer_routes@[k].source_host_alias@ == src@
                    && c.allowed_transfer_routes@[k].destination_host_alias@ == dst@),
        decreases c.allowed_transfer_routes@.len() - i,
    {
        if c.allowed_transfer_routes[i].source_host_alias == *src
            && c.allowed_transfer_routes[i].destination_host_alias == *dst {
            return true;
        }
        i = i + 1;
    }
    false
}

pub open spec fn aliases_unique(hosts: Seq<NaturalV2HostSelectionV1>) -> bool {
    forall|i: int, j: int| 0 <= i < j < hosts.len() ==> #[trigger] hosts[i].alias@ != #[trigger] hosts[j].alias@
}

/// The Host reference selected under `alias`; refuses an unknown alias.
fn host_ref(hosts: &Vec<NaturalV2HostSelectionV1>, alias: &String) -> (r: AppResult<String>)
    requires
        aliases_unique(hosts@),
    ensures
        r is Ok <==> host_known(hosts@, alias@),
        r matches Ok(h) ==> h@ == host_ref_of(hosts@, alias@),
        r is Err ==> r == Err::<String, AppError>(AppError::InvalidInput("Natural-v2 candidate names an unknown Host alias.")),
{
    match find_host(hosts, alias) {
        Some(i) => {
            proof {
                let c = choose|j: int| 0 <= j < hosts@.len() && #[trigger] hosts@[j].alias@ == alias@;
                if c != i {
                    if c < i {
                        assert(hosts@[c].alias@ != hosts@[i as int].alias@);
                    } else {
                        assert(hosts@[i as int].alias@ != hosts@[c].alias@);
                    }
                }
            }
            Ok(hosts[i].host_ref.clone())
        },
        None => Err(AppError::InvalidInput("Natural-v2 candidate names an unknown Host alias.")),
    }
}

fn dto(logical: &String, revision: u64) -> (r: NativeV2ObjectRevisionDtoV1)
    ensures
        obj_dto_is(r, logical@, revision as int),
{
    NativeV2ObjectRevisionDtoV1 { logical_object_id: logical.clone(), revision }
}

fn some_string(s: &String) -> (r: Option<String>)
    ensures
        opt_is(r, Some(s@)),
{
    Some(s.clone())
}

fn one(s: &String) -> (r: Vec<String>)
    ensures
        r@.len() == 1 && r@[0]@ == s@,
{
    let mut v: Vec<String> = Vec::new();
    v.push(s.clone());
    v
}

/// Lowers one candidate step against the current objects and seen steps.
#[verifier::rlimit(100)]
#[verifier::spinoff_prover]
fn lower_candidate_step(
    r: &NaturalV2ComposeCandidateRequestV1,
    step: &CandidateSemanticStepV2,
    objects: &mut Vec<ObjectEntry>,
    seen: &mut Vec<String>,
) -> (res: AppResult<(NativeV2StepDraftV1, NaturalV2TopologyStepV1, Option<NaturalV2MovementV1>)>)
    requires
        aliases_unique(r.context.hosts@),
        table_wf(old(objects)@),
    ensures
        table_wf(final(objects)@),
        ({
            let st = FlowState { objects: table_view(old(objects)@), seen: seen_view(old(seen)@) };
            &&& res is Ok <==> step_next(*r, st, *step) is Some
            &&& res is Ok <==> step_error(*r, st, *step) is None
            &&& res is Err ==> res == Err::<
                (NativeV2StepDraftV1, NaturalV2TopologyStepV1, Option<NaturalV2MovementV1>),
                AppError,
            >(AppError::InvalidInput(step_error(*r, st, *step).unwrap()))
            &&& res matches Ok(out) ==> ({
                let nx = step_next(*r, st, *step).unwrap();
                &&& table_view(final(objects)@) == nx.objects
                &&& seen_view(final(seen)@) == nx.seen
                &&& native_matches(*r, st, *step, out.0)
                &&& topology_matches(*step, out.1)
                &&& movement_matches(*step, out.2)
            })
        }),
{
    let c = &r.context;
    let alias = step.alias();
    let deps = step.dependencies();
    if !op_in(c, step.operation()) {
        return Err(
            AppError::InvalidInput(
                "Natural-v2 candidate requested an operation outside the selected proposal vocabulary.",
            ),
        );
    }
    if seen_has(seen, alias) || !deps_in_seen(deps, seen) {
        return Err(
            AppError::InvalidInput("Natural-v2 step aliases/dependencies are duplicate, forward, or unknown."),
        );
    }
    match step {
        CandidateSemanticStepV2::Search { step_alias, depends_on, host_alias, output_alias, query, safe_scope_labels } => {
            if safe_scope_labels.len() == 0 || !scopes_in(c, safe_scope_labels) || table_find(objects, output_alias).is_some() {
                return Err(AppError::InvalidInput("Natural-v2 Search output or reviewed scope selection is invalid."));
            }
            let href = host_ref(&c.hosts, host_alias)?;
            let logical = derived_search_object_id(r.plan_id.as_str(), r.revision_id.as_str(), step_alias.as_str());
            let output = dto(&logical, 1);
            table_insert(
                objects,
                ObjectEntry {
                    alias: output_alias.clone(),
                    logical_object_id: logical,
                    revision: 1,
                    host_alias: host_alias.clone(),
                    producer: Some(step_alias.clone()),
                },
            );
            push_seen(seen, step_alias);
            let native = NativeV2StepDraftV1::Search {
                step_id: step_alias.clone(),
                depends_on: clone_strings(depends_on),
                host_ref: href,
                output,
                query: query.clone(),
                safe_scope_labels: clone_strings(safe_scope_labels),
            };
            let topo = NaturalV2TopologyStepV1 {
                step_alias: step_alias.clone(),
                operation: StepOperation::Search,
                host_aliases: one(host_alias),
                depends_on: clone_strings(depends_on),
                input_alias: None,
                output_alias: some_string(output_alias),
            };
            Ok((native, topo, None))
        },
        CandidateSemanticStepV2::Transform {
            step_alias,
            depends_on,
            host_alias,
            input_alias,
            output_alias,
            modification_intent,
        } => {
            let idx = match table_find(objects, input_alias) {
                Some(i) => i,
                None => {
                    return Err(AppError::InvalidInput("Natural-v2 step consumes an unknown or stale object alias."));
                },
            };
            if !producer_allows(&objects[idx], deps) {
                return Err(AppError::InvalidInput("Natural-v2 step does not depend on the exact object producer."));
            }
            if objects[idx].host_alias != *host_alias || table_find(objects, output_alias).is_some() {
                return Err(AppError::InvalidInput("Natural-v2 Transform would move an object or reuse an object alias."));
            }
            if objects[idx].revision == u64::MAX {
                return Err(AppError::InvalidInput("Natural-v2 object revision overflowed."));
            }
            let href = host_ref(&c.hosts, host_alias)?;
            let removed = table_remove(objects, idx);
            let input = dto(&removed.logical_object_id, removed.revision);
            let output = dto(&removed.logical_object_id, removed.revision + 1);
            table_insert(
                objects,
                ObjectEntry {
                    alias: output_alias.clone(),
                    logical_object_id: removed.logical_object_id.clone(),
                    revision: removed.revision + 1,
                    host_alias: host_alias.clone(),
                    producer: Some(step_alias.clone()),
                },
            );
            push_seen(seen, step_alias);
            let native = NativeV2StepDraftV1::Transform {
                step_id: step_alias.clone(),
                depends_on: clone_strings(depends_on),
                host_ref: href,
                input,
                output,
                modification_intent: modification_intent.clone(),
            };
            let topo = NaturalV2TopologyStepV1 {
                step_alias: step_alias.clone(),
                operation: StepOperation::Transform,
                host_aliases: one(host_alias),
                depends_on: clone_strings(depends_on),
                input_alias: some_string(input_alias),
                output_alias: some_string(output_alias),
            };
            Ok((native, topo, None))
        },
        CandidateSemanticStepV2::Transfer {
            step_alias,
            depends_on,
            source_host_alias,
            destination_host_alias,
            input_alias,
            output_alias,
        } => {
            if !route_in(c, source_host_alias, destination_host_alias) {
                return Err(AppError::InvalidInput("Natural-v2 candidate invented an unselected Transfer route."));
            }
            let idx = match table_find(objects, input_alias) {
                Some(i) => i,
                None => {
                    return Err(AppError::InvalidInput("Natural-v2 step consumes an unknown or stale object alias."));
                },
            };
            if !producer_allows(&objects[idx], deps) {
                return Err(AppError::InvalidInput("Natural-v2 step does not depend on the exact object producer."));
            }
            if objects[idx].host_alias != *source_host_alias || *source_host_alias == *destination_host_alias
                || table_find(objects, output_alias).is_some() {
                return Err(AppError::InvalidInput("Natural-v2 Transfer source, destination, or output alias is invalid."));
            }
            let source_ref = host_ref(&c.hosts, source_host_alias)?;
            let destination_ref = host_ref(&c.hosts, destination_host_alias)?;
            let removed = table_remove(objects, idx);
            let input = dto(&removed.logical_object_id, removed.revision);
            let output = dto(&removed.logical_object_id, removed.revision);
            table_insert(
                objects,
                ObjectEntry {
                    alias: output_alias.clone(),
                    logical_object_id: removed.logical_object_id.clone(),
                    revision: removed.revision,
                    host_alias: destination_host_alias.clone(),
                    producer: Some(step_alias.clone()),
                },
            );
            push_seen(seen, step_alias);
            let native = NativeV2StepDraftV1::Transfer {
                step_id: step_alias.clone(),
                depends_on: clone_strings(depends_on),
                source_host_ref: source_ref,
                destination_host_ref: destination_ref,
                input,
                output,
            };
            let mut hosts: Vec<String> = Vec::new();
            hosts.push(source_host_alias.clone());
            hosts.push(destination_host_alias.clone());
            let topo = NaturalV2TopologyStepV1 {
                step_alias: step_alias.clone(),
                operation: StepOperation::Transfer,
                host_aliases: hosts,
                depends_on: clone_strings(depends_on),
                input_alias: some_string(input_alias),
                output_alias: some_string(output_alias),
            };
            let movement = NaturalV2MovementV1 {
                step_alias: step_alias.clone(),
                object_alias: output_alias.clone(),
                source_host_alias: source_host_alias.clone(),
                destination_host_alias: destination_host_alias.clone(),
            };
            Ok((native, topo, Some(movement)))
        },
        CandidateSemanticStepV2::Execute { step_alias, depends_on, host_alias, target_alias, execution_intent } => {
            let idx = match table_find(objects, target_alias) {
                Some(i) => i,
                None => {
                    return Err(AppError::InvalidInput("Natural-v2 step consumes an unknown or stale object alias."));
                },
            };
            if !producer_allows(&objects[idx], deps) {
                return Err(AppError::InvalidInput("Natural-v2 step does not depend on the exact object producer."));
            }
            if objects[idx].host_alias != *host_alias {
                return Err(AppError::InvalidInput("Natural-v2 Execute cannot consume an object at another Host."));
            }
            let href = host_ref(&c.hosts, host_alias)?;
            let target = dto(&objects[idx].logical_object_id, objects[idx].revision);
            push_seen(seen, step_alias);
            let native = NativeV2StepDraftV1::Execute {
                step_id: step_alias.clone(),
                depends_on: clone_strings(depends_on),
                host_ref: href,
                target,
                execution_intent: execution_intent.clone(),
            };
            let topo = NaturalV2TopologyStepV1 {
                step_alias: step_alias.clone(),
                operation: StepOperation::Execute,
                host_aliases: one(host_alias),
                depends_on: clone_strings(depends_on),
                input_alias: some_string(target_alias),
                output_alias: None,
            };
            Ok((native, topo, None))
        },
    }
}

pub open spec fn root_selected(c: NaturalV2ProposalContextV1, alias: Seq<char>) -> bool {
    exists|j: int| 0 <= j < c.roots@.len() && #[trigger] c.roots@[j].root_alias@ == alias
}

pub open spec fn selected_root(c: NaturalV2ProposalContextV1, alias: Seq<char>) -> NaturalV2RootSelectionV1 {
    c.roots@[choose|j: int| 0 <= j < c.roots@.len() && #[trigger] c.roots@[j].root_alias@ == alias]
}

/// The objects after binding one candidate root to its selection, or `None`
/// where the candidate names an unselected root, substitutes its object or
/// Host, or repeats an object alias.
pub open spec fn root_next(
    r: NaturalV2ComposeCandidateRequestV1,
    objects: Map<Seq<char>, ObjView>,
    root: CandidateSemanticRootV2,
) -> Option<Map<Seq<char>, ObjView>> {
    let c = r.context;
    let sel = selected_root(c, root.root_alias@);
    if !root_selected(c, root.root_alias@) || root.object_alias@ != sel.object_alias@ || root.host_alias@
        != sel.host_alias@ || objects.contains_key(root.object_alias@) || !host_known(c.hosts@, root.host_alias@) {
        None
    } else {
        Some(
            objects.insert(
                root.object_alias@,
                ObjView { logical: sel.logical_object_id@, revision: sel.revision, host: sel.host_alias@, producer: None },
            ),
        )
    }
}

pub open spec fn roots_run(r: NaturalV2ComposeCandidateRequestV1, roots: Seq<CandidateSemanticRootV2>) -> Option<
    Map<Seq<char>, ObjView>,
>
    decreases roots.len(),
{
    if roots.len() == 0 {
        Some(Map::empty())
    } else {
        match roots_run(r, roots.drop_last()) {
            Some(m) => root_next(r, m, roots.last()),
            None => None,
        }
    }
}

pub open spec fn steps_run(r: NaturalV2ComposeCandidateRequestV1, st0: FlowState, steps: Seq<CandidateSemanticStepV2>) -> Option<
    FlowState,
>
    decreases steps.len(),
{
    if steps.len() == 0 {
        Some(st0)
    } else {
        match steps_run(r, st0, steps.drop_last()) {
            Some(st) => step_next(r, st, steps.last()),
            None => None,
        }
    }
}

/// The state before the first step: the bound roots, no step seen.
pub open spec fn initial_state(r: NaturalV2ComposeCandidateRequestV1) -> FlowState {
    FlowState { objects: roots_run(r, r.candidate.roots@).unwrap(), seen: Set::empty() }
}

/// The state before candidate step `i`.
pub open spec fn state_before(r: NaturalV2ComposeCandidateRequestV1, i: int) -> FlowState {
    steps_run(r, initial_state(r), r.candidate.steps@.take(i)).unwrap()
}

pub open spec fn step_uses_host(s: CandidateSemanticStepV2, a: Seq<char>) -> bool {
    match s {
        CandidateSemanticStepV2::Search { host_alias, .. } => host_alias@ == a,
        CandidateSemanticStepV2::Transform { host_alias, .. } => host_alias@ == a,
        CandidateSemanticStepV2::Transfer { source_host_alias, destination_host_alias, .. } => source_host_alias@ == a
            || destination_host_alias@ == a,
        CandidateSemanticStepV2::Execute { host_alias, .. } => host_alias@ == a,
    }
}

/// The Host aliases a candidate touches: those of its steps and its roots.
pub open spec fn host_used(r: NaturalV2ComposeCandidateRequestV1, a: Seq<char>) -> bool {
    ||| exists|i: int| 0 <= i < r.candidate.steps@.len() && step_uses_host(#[trigger] r.candidate.steps@[i], a)
    ||| exists|j: int| 0 <= j < r.candidate.roots@.len() && #[trigger] r.candidate.roots@[j].host_alias@ == a
}

/// When lowering succeeds: a request of valid shape whose candidate repeats
/// the Host-captured goal, names a selected requester, binds its roots to
/// their selections and lowers every step in order.
pub open spec fn lowering_ok(r: NaturalV2ComposeCandidateRequestV1) -> bool {
    &&& request_shape_ok(r)
    &&& r.candidate.original_user_goal@ == r.original_user_goal@
    &&& host_known(r.context.hosts@, r.requester_host_alias@)
    &&& roots_run(r, r.candidate.roots@) is Some
    &&& steps_run(r, initial_state(r), r.candidate.steps@) is Some
}

pub open spec fn alias_lt(a: Seq<char>, b: Seq<char>) -> bool {
    crate::text::seq_lt(utf8(a), utf8(b))
}

/// Strictly increasing in the byte order of the aliases.
pub open spec fn aliases_sorted(v: Seq<String>) -> bool {
    forall|k: int| 0 <= k < v.len() - 1 ==> #[trigger] alias_lt(v[k]@, v[k + 1]@)
}

pub open spec fn strings_distinct(v: Seq<String>) -> bool {
    forall|i: int, j: int| 0 <= i < j < v.len() ==> #[trigger] v[i]@ != #[trigger] v[j]@
}

/// The first position in `v` whose alias `a` precedes.
fn insertion_point(v: &Vec<String>, a: &String) -> (pos: usize)
    ensures
        pos <= v@.len(),
        forall|k: int| 0 <= k < pos ==> !alias_lt(a@, #[trigger] v@[k]@),
        pos < v@.len() ==> alias_lt(a@, v@[pos as int]@),
{
    let ab = as_bytes(a.as_str());
    let mut pos: usize = 0;
    while pos < v.len()
        invariant
            pos <= v@.len(),
            ab@ == utf8(a@),
            forall|k: int| 0 <= k < pos ==> !alias_lt(a@, #[trigger] v@[k]@),
        decreases v@.len() - pos,
    {
        if crate::text::bytes_lt(ab, as_bytes(v[pos].as_str())) {
            return pos;
        }
        pos = pos + 1;
    }
    pos
}

/// Adds `a` to the sorted aliases `v` unless it is there already.
fn insert_sorted(v: &mut Vec<String>, a: &String)
    requires
        aliases_sorted(old(v)@),
        strings_distinct(old(v)@),
    ensures
        aliases_sorted(final(v)@),
        strings_distinct(final(v)@),
        seen_view(final(v)@) == seen_view(old(v)@).insert(a@),
{
    if seen_has(v, a) {
        assert(seen_view(v@).insert(a@) =~= seen_view(v@));
        return;
    }
    let pos = insertion_point(v, a);
    let ghost before = v@;
    v.insert(pos, a.clone());
    proof {
        assert(v@ =~= before.insert(pos as int, v@[pos as int]));
        assert forall|k: int| 0 <= k < v@.len() - 1 implies #[trigger] alias_lt(v@[k]@, v@[k + 1]@) by {
            if k + 1 < pos {
                assert(v@[k] == before[k]);
                assert(v@[k + 1] == before[k + 1]);
                assert(alias_lt(before[k]@, before[k + 1]@));
            } else if k + 1 == pos {
                assert(v@[k] == before[k]);
                assert(before[k]@ != a@);
                vstd::utf8::encode_utf8_decode_utf8(before[k]@);
                vstd::utf8::encode_utf8_decode_utf8(a@);
                crate::text::lemma_seq_lt_total(utf8(before[k]@), utf8(a@));
            } else if k == pos {
                assert(v@[k + 1] == before[k]);
            } else {
                assert(v@[k] == before[k - 1]);
                assert(v@[k + 1] == before[k]);
                let j = k - 1;
                assert(alias_lt(before[j]@, before[j + 1]@));
            }
        }
        assert forall|x: int, y: int| 0 <= x < y < v@.len() implies #[trigger] v@[x]@ != #[trigger] v@[y]@ by {
            if x == pos {
                assert(!seen_view(before).contains(a@));
                assert(v@[y] == before[y - 1]);
            } else if y == pos {
                assert(v@[x] == before[x]);
            } else {
                let bx = if x < pos { x } else { x - 1 };
                let by_ = if y < pos { y } else { y - 1 };
                assert(v@[x] == before[bx]);
                assert(v@[y] == before[by_]);
            }
        }
        assert forall|x: Seq<char>| #[trigger] seen_view(v@).contains(x) <==> seen_view(before).insert(a@).contains(x) by {
            if seen_view(before).contains(x) {
                let k = choose|k: int| 0 <= k < before.len() && #[trigger] before[k]@ == x;
                let vk = if k < pos { k } else { k + 1 };
                assert(v@[vk]@ == x);
            }
            if x == a@ {
                assert(v@[pos as int]@ == x);
            }
            if seen_view(v@).contains(x) && x != a@ {
                let k = choose|k: int| 0 <= k < v@.len() && #[trigger] v@[k]@ == x;
                let bk = if k < pos { k } else { k - 1 };
                assert(k != pos);
                assert(before[bk]@ == x);
            }
        }
        assert(seen_view(v@) =~= seen_view(before).insert(a@));
    }
}

/// The native root bound from candidate root `c`.
pub open spec fn root_matches(r: NaturalV2ComposeCandidateRequestV1, c: CandidateSemanticRootV2, n: NativeV2RootDraftV1) -> bool {
    let sel = selected_root(r.context, c.root_alias@);
    &&& n.root_id@ == c.root_alias@
    &&& obj_dto_is(n.object, sel.logical_object_id@, sel.revision as int)
    &&& n.host_ref@ == host_ref_of(r.context.hosts@, c.host_alias@)
}

/// The movements of `steps`: one per Transfer, in order.
pub open spec fn movements_match(steps: Seq<CandidateSemanticStepV2>, ms: Seq<NaturalV2MovementV1>) -> bool
    decreases steps.len(),
{
    if steps.len() == 0 {
        ms.len() == 0
    } else if step_op(steps.last()) == StepOperation::Transfer {
        &&& ms.len() > 0
        &&& movements_match(steps.drop_last(), ms.drop_last())
        &&& movement_matches(steps.last(), Some(ms.last()))
    } else {
        movements_match(steps.drop_last(), ms)
    }
}

/// Why binding candidate root `root` to its selection is refused, in the
/// order the checks run, or `None` where it binds.
pub open spec fn root_error(
    r: NaturalV2ComposeCandidateRequestV1,
    objects: Map<Seq<char>, ObjView>,
    root: CandidateSemanticRootV2,
) -> Option<&'static str> {
    let c = r.context;
    let sel = selected_root(c, root.root_alias@);
    if !root_selected(c, root.root_alias@) {
        Some("Natural-v2 candidate names an unprovided root alias.")
    } else if root.object_alias@ != sel.object_alias@ || root.host_alias@ != sel.host_alias@ {
        Some("Natural-v2 candidate substituted a root object or Host alias.")
    } else if objects.contains_key(root.object_alias@) {
        Some("Natural-v2 candidate contains a duplicate root object alias.")
    } else if !host_known(c.hosts@, root.host_alias@) {
        Some("Natural-v2 candidate names an unknown Host alias.")
    } else {
        None
    }
}

/// The first refusal among candidate roots `roots`, bound in order.
pub open spec fn roots_error(r: NaturalV2ComposeCandidateRequestV1, roots: Seq<CandidateSemanticRootV2>) -> Option<
    &'static str,
>
    decreases roots.len(),
{
    if roots.len() == 0 {
        None
    } else {
        match roots_error(r, roots.drop_last()) {
            Some(m) => Some(m),
            None => match roots_run(r, roots.drop_last()) {
                Some(m) => root_error(r, m, roots.last()),
                None => None,
            },
        }
    }
}

/// The first refusal among candidate steps `steps`, lowered in order from `st0`.
pub open spec fn steps_error(r: NaturalV2ComposeCandidateRequestV1, st0: FlowState, steps: Seq<CandidateSemanticStepV2>) -> Option<
    &'static str,
>
    decreases steps.len(),
{
    if steps.len() == 0 {
        None
    } else {
        match steps_error(r, st0, steps.drop_last()) {
            Some(m) => Some(m),
            None => match steps_run(r, st0, steps.drop_last()) {
                Some(st) => step_error(r, st, steps.last()),
                None => None,
            },
        }
    }
}

/// Why lowering a request of valid shape is refused, in the order the
/// checks run: a replaced Host-captured goal, an unselected requester, the
/// first refused root, the first refused step, then a Host the candidate
/// touches that the context does not select.
#[verifier::opaque]
pub open spec fn lowering_error(r: NaturalV2ComposeCandidateRequestV1) -> Option<&'static str> {
    if r.candidate.original_user_goal@ != r.original_user_goal@ {
        Some("Natural-v2 candidate changed the Host-captured user goal.")
    } else if !host_known(r.context.hosts@, r.requester_host_alias@) {
        Some("Natural-v2 requester Host alias is unavailable.")
    } else if roots_error(r, r.candidate.roots@) is Some {
        roots_error(r, r.candidate.roots@)
    } else if steps_error(r, initial_state(r), r.candidate.steps@) is Some {
        steps_error(r, initial_state(r), r.candidate.steps@)
    } else if !used_hosts_known(r) {
        Some("Natural-v2 topology names an unknown Host alias.")
    } else {
        None
    }
}

proof fn lemma_lowering_goal(r: NaturalV2ComposeCandidateRequestV1)
    requires
        r.candidate.original_user_goal@ != r.original_user_goal@,
    ensures
        lowering_error(r) == Some("Natural-v2 candidate changed the Host-captured user goal."),
{
    reveal(lowering_error);
}

proof fn lemma_lowering_requester(r: NaturalV2ComposeCandidateRequestV1)
    requires
        r.candidate.original_user_goal@ == r.original_user_goal@,
        !host_known(r.context.hosts@, r.requester_host_alias@),
    ensures
        lowering_error(r) == Some("Natural-v2 requester Host alias is unavailable."),
{
    reveal(lowering_error);
}

proof fn lemma_lowering_roots(r: NaturalV2ComposeCandidateRequestV1)
    requires
        r.candidate.original_user_goal@ == r.original_user_goal@,
        host_known(r.context.hosts@, r.requester_host_alias@),
        roots_error(r, r.candidate.roots@) is Some,
    ensures
        lowering_error(r) == roots_error(r, r.candidate.roots@),
{
    reveal(lowering_error);
}

proof fn lemma_lowering_steps(r: NaturalV2ComposeCandidateRequestV1)
    requires
        r.candidate.original_user_goal@ == r.original_user_goal@,
        host_known(r.context.hosts@, r.requester_host_alias@),
        roots_error(r, r.candidate.roots@) is None,
        steps_error(r, initial_state(r), r.candidate.steps@) is Some,
    ensures
        lowering_error(r) == steps_error(r, initial_state(r), r.candidate.steps@),
{
    reveal(lowering_error);
}

proof fn lemma_lowering_hosts(r: NaturalV2ComposeCandidateRequestV1)
    requires
        r.candidate.original_user_goal@ == r.original_user_goal@,
        host_known(r.context.hosts@, r.requester_host_alias@),
        roots_error(r, r.candidate.roots@) is None,
        steps_error(r, initial_state(r), r.candidate.steps@) is None,
    ensures
        lowering_error(r) == if used_hosts_known(r) {
            None
        } else {
            Some("Natural-v2 topology names an unknown Host alias.")
        },
{
    reveal(lowering_error);
}

proof fn lemma_roots_error_prefix(r: NaturalV2ComposeCandidateRequestV1, roots: Seq<CandidateSemanticRootV2>, j: int)
    requires
        0 <= j <= roots.len(),
        roots_error(r, roots.take(j)) is Some,
    ensures
        roots_error(r, roots) == roots_error(r, roots.take(j)),
    decreases roots.len() - j,
{
    if j < roots.len() {
        assert(roots.take(j + 1).drop_last() =~= roots.take(j));
        lemma_roots_error_prefix(r, roots, j + 1);
    } else {
        assert(roots.take(j) =~= roots);
    }
}

proof fn lemma_steps_error_prefix(
    r: NaturalV2ComposeCandidateRequestV1,
    st0: FlowState,
    steps: Seq<CandidateSemanticStepV2>,
    i: int,
)
    requires
        0 <= i <= steps.len(),
        steps_error(r, st0, steps.take(i)) is Some,
    ensures
        steps_error(r, st0, steps) == steps_error(r, st0, steps.take(i)),
    decreases steps.len() - i,
{
    if i < steps.len() {
        assert(steps.take(i + 1).drop_last() =~= steps.take(i));
        lemma_steps_error_prefix(r, st0, steps, i + 1);
    } else {
        assert(steps.take(i) =~= steps);
    }
}

proof fn lemma_roots_prefix_none(r: NaturalV2ComposeCandidateRequestV1, roots: Seq<CandidateSemanticRootV2>, j: int)
    requires
        0 <= j <= roots.len(),
        roots_run(r, roots.take(j)) is None,
    ensures
        roots_run(r, roots) is None,
    decreases roots.len() - j,
{
    if j < roots.len() {
        assert(roots.take(j + 1).drop_last() =~= roots.take(j));
        lemma_roots_prefix_none(r, roots, j + 1);
    } else {
        assert(roots.take(j) =~= roots);
    }
}

proof fn lemma_steps_prefix_none(r: NaturalV2ComposeCandidateRequestV1, st0: FlowState, steps: Seq<CandidateSemanticStepV2>, i: int)
    requires
        0 <= i <= steps.len(),
        steps_run(r, st0, steps.take(i)) is None,
    ensures
        steps_run(r, st0, steps) is None,
    decreases steps.len() - i,
{
    if i < steps.len() {
        assert(steps.take(i + 1).drop_last() =~= steps.take(i));
        lemma_steps_prefix_none(r, st0, steps, i + 1);
    } else {
        assert(steps.take(i) =~= steps);
    }
}

fn find_root_selection(roots: &Vec<NaturalV2RootSelectionV1>, alias: &String) -> (r: Option<usize>)
    requires
        forall|i: int, j: int|
            0 <= i < j < roots@.len() ==> #[trigger] roots@[i].root_alias@ != #[trigger] roots@[j].root_alias@,
    ensures
        r matches Some(i) ==> i < roots@.len() && roots@[i as int] == roots@[choose|j: int|
            0 <= j < roots@.len() && #[trigger] roots@[j].root_alias@ == alias@],
        r matches Some(i) ==> roots@[i as int].root_alias@ == alias@,
        r is None <==> !exists|j: int| 0 <= j < roots@.len() && #[trigger] roots@[j].root_alias@ == alias@,
{
    let mut i: usize = 0;
    while i < roots.len()
        invariant
            forall|x: int, y: int|
                0 <= x < y < roots@.len() ==> #[trigger] roots@[x].root_alias@ != #[trigger] roots@[y].root_alias@,
            i <= roots@.len(),
            forall|k: int| 0 <= k < i ==> #[trigger] roots@[k].root_alias@ != alias@,
        decreases roots@.len() - i,
    {
        if roots[i].root_alias == *alias {
            proof {
                let c = choose|j: int| 0 <= j < roots@.len() && #[trigger] roots@[j].root_alias@ == alias@;
                if c < i {
                    assert(roots@[c].root_alias@ != roots@[i as int].root_alias@);
                } else if c > i {
                    assert(roots@[i as int].root_alias@ != roots@[c].root_alias@);
                }
            }
            return Some(i);
        }
        i = i + 1;
    }
    None
}

/// Binds the candidate's roots to the requester's selections.
fn bind_roots(r: &NaturalV2ComposeCandidateRequestV1, objects: &mut Vec<ObjectEntry>) -> (res: AppResult<Vec<NativeV2RootDraftV1>>)
    requires
        request_shape_ok(*r),
        old(objects)@.len() == 0,
    ensures
        table_wf(final(objects)@),
        res is Ok <==> roots_run(*r, r.candidate.roots@) is Some,
        res is Ok <==> roots_error(*r, r.candidate.roots@) is None,
        res is Err ==> res == Err::<Vec<NativeV2RootDraftV1>, AppError>(
            AppError::InvalidInput(roots_error(*r, r.candidate.roots@).unwrap()),
        ),
        res matches Ok(v) ==> ({
            &&& table_view(final(objects)@) == roots_run(*r, r.candidate.roots@).unwrap()
            &&& v@.len() == r.candidate.roots@.len()
            &&& forall|j: int| 0 <= j < v@.len() ==> root_matches(*r, r.candidate.roots@[j], #[trigger] v@[j])
        }),
{
    let c = &r.context;
    let roots = &r.candidate.roots;
    let mut out: Vec<NativeV2RootDraftV1> = Vec::new();
    proof {
        assert(table_view(objects@) =~= Map::empty());
        assert(roots@.take(0) =~= Seq::empty());
    }
    let mut j: usize = 0;
    while j < roots.len()
        invariant
            request_shape_ok(*r),
            c == &r.context,
            roots == &r.candidate.roots,
            j <= roots@.len(),
            table_wf(objects@),
            roots_run(*r, roots@.take(j as int)) == Some(table_view(objects@)),
            roots_error(*r, roots@.take(j as int)) is None,
            out@.len() == j,
            forall|k: int| 0 <= k < j ==> root_matches(*r, roots@[k], #[trigger] out@[k]),
        decreases roots@.len() - j,
    {
        let root = &roots[j];
        proof {
            assert(roots@.take(j + 1).drop_last() =~= roots@.take(j as int));
            assert(roots@.take(j + 1).last() == roots@[j as int]);
        }
        let si = match find_root_selection(&c.roots, &root.root_alias) {
            Some(si) => si,
            None => {
                proof {
                    lemma_roots_prefix_none(*r, roots@, j + 1);
                    lemma_roots_error_prefix(*r, roots@, j + 1);
                }
                return Err(AppError::InvalidInput("Natural-v2 candidate names an unprovided root alias."));
            },
        };
        let sel = &c.roots[si];
        if root.object_alias != sel.object_alias || root.host_alias != sel.host_alias {
            proof {
                lemma_roots_prefix_none(*r, roots@, j + 1);
                lemma_roots_error_prefix(*r, roots@, j + 1);
            }
            return Err(AppError::InvalidInput("Natural-v2 candidate substituted a root object or Host alias."));
        }
        if table_find(objects, &root.object_alias).is_some() {
            proof {
                lemma_roots_prefix_none(*r, roots@, j + 1);
                lemma_roots_error_prefix(*r, roots@, j + 1);
            }
            return Err(AppError::InvalidInput("Natural-v2 candidate contains a duplicate root object alias."));
        }
        let href = match host_ref(&c.hosts, &root.host_alias) {
            Ok(h) => h,
            Err(e) => {
                proof {
                    lemma_roots_prefix_none(*r, roots@, j + 1);
                    lemma_roots_error_prefix(*r, roots@, j + 1);
                }
                return Err(e);
            },
        };
        table_insert(
            objects,
            ObjectEntry {
                alias: root.object_alias.clone(),
                logical_object_id: sel.logical_object_id.clone(),
                revision: sel.revision,
                host_alias: sel.host_alias.clone(),
                producer: None,
            },
        );
        out.push(
            NativeV2RootDraftV1 {
                root_id: root.root_alias.clone(),
                object: dto(&sel.logical_object_id, sel.revision),
                host_ref: href,
            },
        );
        j = j + 1;
    }
    proof {
        assert(roots@.take(roots@.len() as int) =~= roots@);
    }
    Ok(out)
}

/// Lowers the candidate's steps in order, from the bound roots.
fn lower_steps(r: &NaturalV2ComposeCandidateRequestV1, objects: &mut Vec<ObjectEntry>) -> (res: AppResult<
    (Vec<NativeV2StepDraftV1>, Vec<NaturalV2TopologyStepV1>, Vec<NaturalV2MovementV1>),
>)
    requires
        request_shape_ok(*r),
        table_wf(old(objects)@),
        roots_run(*r, r.candidate.roots@) == Some(table_view(old(objects)@)),
    ensures
        res is Ok <==> steps_run(*r, initial_state(*r), r.candidate.steps@) is Some,
        res is Ok <==> steps_error(*r, initial_state(*r), r.candidate.steps@) is None,
        res is Err ==> res == Err::<
            (Vec<NativeV2StepDraftV1>, Vec<NaturalV2TopologyStepV1>, Vec<NaturalV2MovementV1>),
            AppError,
        >(AppError::InvalidInput(steps_error(*r, initial_state(*r), r.candidate.steps@).unwrap())),
        res matches Ok(out) ==> ({
            let steps = r.candidate.steps@;
            &&& out.0@.len() == steps.len()
            &&& out.1@.len() == steps.len()
            &&& forall|i: int| 0 <= i < steps.len() ==> native_matches(*r, state_before(*r, i), steps[i], #[trigger] out.0@[i])
            &&& forall|i: int| 0 <= i < steps.len() ==> topology_matches(steps[i], #[trigger] out.1@[i])
            &&& movements_match(steps, out.2@)
        }),
{
    let steps = &r.candidate.steps;
    let mut seen: Vec<String> = Vec::new();
    let mut natives: Vec<NativeV2StepDraftV1> = Vec::new();
    let mut topology: Vec<NaturalV2TopologyStepV1> = Vec::new();
    let mut movements: Vec<NaturalV2MovementV1> = Vec::new();
    proof {
        assert(seen_view(seen@) =~= Set::empty());
        assert(steps@.take(0) =~= Seq::empty());
    }
    let mut i: usize = 0;
    while i < steps.len()
        invariant
            request_shape_ok(*r),
            steps == &r.candidate.steps,
            i <= steps@.len(),
            table_wf(objects@),
            steps_run(*r, initial_state(*r), steps@.take(i as int)) == Some(
                FlowState { objects: table_view(objects@), seen: seen_view(seen@) },
            ),
            steps_error(*r, initial_state(*r), steps@.take(i as int)) is None,
            natives@.len() == i,
            topology@.len() == i,
            forall|k: int| 0 <= k < i ==> native_matches(*r, state_before(*r, k), steps@[k], #[trigger] natives@[k]),
            forall|k: int| 0 <= k < i ==> topology_matches(steps@[k], #[trigger] topology@[k]),
            movements_match(steps@.take(i as int), movements@),
        decreases steps@.len() - i,
    {
        proof {
            assert(steps@.take(i + 1).drop_last() =~= steps@.take(i as int));
            assert(steps@.take(i + 1).last() == steps@[i as int]);
            assert(state_before(*r, i as int) == FlowState { objects: table_view(objects@), seen: seen_view(seen@) });
        }
        let out = match lower_candidate_step(r, &steps[i], objects, &mut seen) {
            Ok(out) => out,
            Err(e) => {
                proof {
                    lemma_steps_prefix_none(*r, initial_state(*r), steps@, i + 1);
                    lemma_steps_error_prefix(*r, initial_state(*r), steps@, i + 1);
                }
                return Err(e);
            },
        };
        let (native, topo, movement) = out;
        natives.push(native);
        topology.push(topo);
        let ghost before_moves = movements@;
        match movement {
            Some(m) => {
                movements.push(m);
                proof {
                    assert(movements@.drop_last() =~= before_moves);
                }
            },
            None => {},
        }
        proof {
            let t = steps@.take(i + 1);
            assert(t.drop_last() =~= steps@.take(i as int));
        }
        i = i + 1;
    }
    proof {
        assert(steps@.take(steps@.len() as int) =~= steps@);
    }
    Ok((natives, topology, movements))
}

/// The set of Host aliases a candidate touches.
pub open spec fn used_set(r: NaturalV2ComposeCandidateRequestV1) -> Set<Seq<char>> {
    Set::new(|a: Seq<char>| host_used(r, a))
}

/// The display name selected under `alias`.
pub open spec fn display_of(hosts: Seq<NaturalV2HostSelectionV1>, alias: Seq<char>) -> Seq<char> {
    hosts[choose|i: int| 0 <= i < hosts.len() && #[trigger] hosts[i].alias@ == alias].display_name@
}

fn add_step_hosts(v: &mut Vec<String>, s: &CandidateSemanticStepV2)
    requires
        aliases_sorted(old(v)@),
        strings_distinct(old(v)@),
    ensures
        aliases_sorted(final(v)@),
        strings_distinct(final(v)@),
        seen_view(final(v)@) == seen_view(old(v)@).union(Set::new(|a: Seq<char>| step_uses_host(*s, a))),
{
    let ghost before = seen_view(v@);
    match s {
        CandidateSemanticStepV2::Search { host_alias, .. } => insert_sorted(v, host_alias),
        CandidateSemanticStepV2::Transform { host_alias, .. } => insert_sorted(v, host_alias),
        CandidateSemanticStepV2::Transfer { source_host_alias, destination_host_alias, .. } => {
            insert_sorted(v, source_host_alias);
            insert_sorted(v, destination_host_alias);
        },
        CandidateSemanticStepV2::Execute { host_alias, .. } => insert_sorted(v, host_alias),
    }
    assert(seen_view(v@) =~= before.union(Set::new(|a: Seq<char>| step_uses_host(*s, a))));
}

/// The Host aliases the candidate touches, sorted and distinct.
fn used_aliases(r: &NaturalV2ComposeCandidateRequestV1) -> (v: Vec<String>)
    ensures
        aliases_sorted(v@),
        strings_distinct(v@),
        seen_view(v@) == used_set(*r),
{
    let steps = &r.candidate.steps;
    let roots = &r.candidate.roots;
    let mut v: Vec<String> = Vec::new();
    proof {
        assert(seen_view(v@) =~= Set::empty());
    }
    let mut i: usize = 0;
    while i < steps.len()
        invariant
            steps == &r.candidate.steps,
            i <= steps@.len(),
            aliases_sorted(v@),
            strings_distinct(v@),
            seen_view(v@) == Set::new(
                |a: Seq<char>| exists|k: int| 0 <= k < i && step_uses_host(#[trigger] steps@[k], a),
            ),
        decreases steps@.len() - i,
    {
        let ghost before = seen_view(v@);
        add_step_hosts(&mut v, &steps[i]);
        proof {
            assert forall|a: Seq<char>| #[trigger] seen_view(v@).contains(a) <==> (exists|k: int|
                0 <= k < i + 1 && step_uses_host(#[trigger] steps@[k], a)) by {
                if exists|k: int| 0 <= k < i + 1 && step_uses_host(#[trigger] steps@[k], a) {
                    let k = choose|k: int| 0 <= k < i + 1 && step_uses_host(#[trigger] steps@[k], a);
                    if k < i {
                        assert(before.contains(a));
                    }
                }
            }
            assert(seen_view(v@) =~= Set::new(
                |a: Seq<char>| exists|k: int| 0 <= k < i + 1 && step_uses_host(#[trigger] steps@[k], a),
            ));
        }
        i = i + 1;
    }
    let ghost from_steps = seen_view(v@);
    let mut j: usize = 0;
    while j < roots.len()
        invariant
            roots == &r.candidate.roots,
            steps == &r.candidate.steps,
            j <= roots@.len(),
            aliases_sorted(v@),
            strings_distinct(v@),
            from_steps == Set::new(
                |a: Seq<char>| exists|k: int| 0 <= k < steps@.len() && step_uses_host(#[trigger] steps@[k], a),
            ),
            seen_view(v@) == from_steps.union(
                Set::new(|a: Seq<char>| exists|k: int| 0 <= k < j && #[trigger] roots@[k].host_alias@ == a),
            ),
        decreases roots@.len() - j,
    {
        let ghost before = seen_view(v@);
        insert_sorted(&mut v, &roots[j].host_alias);
        proof {
            assert forall|a: Seq<char>| #[trigger] seen_view(v@).contains(a) <==> from_steps.union(
                Set::new(|a: Seq<char>| exists|k: int| 0 <= k < j + 1 && #[trigger] roots@[k].host_alias@ == a),
            ).contains(a) by {
                if exists|k: int| 0 <= k < j + 1 && #[trigger] roots@[k].host_alias@ == a {
                    let k = choose|k: int| 0 <= k < j + 1 && #[trigger] roots@[k].host_alias@ == a;
                    if k < j {
                        assert(before.contains(a));
                    }
                }
            }
            assert(seen_view(v@) =~= from_steps.union(
                Set::new(|a: Seq<char>| exists|k: int| 0 <= k < j + 1 && #[trigger] roots@[k].host_alias@ == a),
            ));
        }
        j = j + 1;
    }
    assert(seen_view(v@) =~= used_set(*r));
    v
}

/// The affected Hosts, one per alias, with their selected display names.
fn affected_hosts(hosts: &Vec<NaturalV2HostSelectionV1>, aliases: &Vec<String>) -> (res: AppResult<Vec<NaturalV2AffectedHostV1>>)
    requires
        aliases_unique(hosts@),
    ensures
        res is Ok <==> forall|k: int| 0 <= k < aliases@.len() ==> host_known(hosts@, #[trigger] aliases@[k]@),
        res is Err ==> res == Err::<Vec<NaturalV2AffectedHostV1>, AppError>(
            AppError::InvalidInput("Natural-v2 topology names an unknown Host alias."),
        ),
        res matches Ok(v) ==> v@.len() == aliases@.len() && forall|k: int|
            0 <= k < v@.len() ==> #[trigger] v@[k].host_alias@ == aliases@[k]@ && v@[k].display_name@ == display_of(
                hosts@,
                aliases@[k]@,
            ),
{
    let mut out: Vec<NaturalV2AffectedHostV1> = Vec::new();
    let mut k: usize = 0;
    while k < aliases.len()
        invariant
            aliases_unique(hosts@),
            k <= aliases@.len(),
            out@.len() == k,
            forall|j: int| 0 <= j < k ==> host_known(hosts@, #[trigger] aliases@[j]@),
            forall|j: int|
                0 <= j < k ==> #[trigger] out@[j].host_alias@ == aliases@[j]@ && out@[j].display_name@ == display_of(
                    hosts@,
                    aliases@[j]@,
                ),
        decreases aliases@.len() - k,
    {
        let i = match find_host(hosts, &aliases[k]) {
            Some(i) => i,
            None => {
                return Err(AppError::InvalidInput("Natural-v2 topology names an unknown Host alias."));
            },
        };
        proof {
            let c = choose|j: int| 0 <= j < hosts@.len() && #[trigger] hosts@[j].alias@ == aliases@[k as int]@;
            if c < i {
                assert(hosts@[c].alias@ != hosts@[i as int].alias@);
            } else if c > i {
                assert(hosts@[i as int].alias@ != hosts@[c].alias@);
            }
        }
        out.push(
            NaturalV2AffectedHostV1 { host_alias: aliases[k].clone(), display_name: hosts[i].display_name.clone() },
        );
        k = k + 1;
    }
    Ok(out)
}

/// The Host references of the affected Hosts, in order.
fn participant_refs(hosts: &Vec<NaturalV2HostSelectionV1>, affected: &Vec<NaturalV2AffectedHostV1>) -> (res: AppResult<Vec<String>>)
    requires
        aliases_unique(hosts@),
        forall|k: int| 0 <= k < affected@.len() ==> host_known(hosts@, #[trigger] affected@[k].host_alias@),
    ensures
        res matches Ok(v) && v@.len() == affected@.len() && forall|k: int|
            0 <= k < v@.len() ==> #[trigger] v@[k]@ == host_ref_of(hosts@, affected@[k].host_alias@),
{
    let mut out: Vec<String> = Vec::new();
    let mut k: usize = 0;
    while k < affected.len()
        invariant
            aliases_unique(hosts@),
            forall|j: int| 0 <= j < affected@.len() ==> host_known(hosts@, #[trigger] affected@[j].host_alias@),
            k <= affected@.len(),
            out@.len() == k,
            forall|j: int| 0 <= j < k ==> #[trigger] out@[j]@ == host_ref_of(hosts@, affected@[j].host_alias@),
        decreases affected@.len() - k,
    {
        let h = host_ref(hosts, &affected[k].host_alias)?;
        out.push(h);
        k = k + 1;
    }
    Ok(out)
}

/// Every Host alias the candidate touches is selected.
pub open spec fn used_hosts_known(r: NaturalV2ComposeCandidateRequestV1) -> bool {
    forall|a: Seq<char>| #[trigger] used_set(r).contains(a) ==> host_known(r.context.hosts@, a)
}

/// `compose` and `review` are the lowering of `r`.
pub open spec fn lowered_as(
    r: NaturalV2ComposeCandidateRequestV1,
    compose: NativeV2ComposeRequestV1,
    review: NaturalV2CandidateReviewV1,
) -> bool {
    let hosts = r.context.hosts@;
    let p = r.candidate;
    let affected = review.affected_hosts@;
    &&& compose.plan_id@ == r.plan_id@
    &&& compose.revision_id@ == r.revision_id@
    &&& compose.revision_number == r.revision_number
    &&& compose.bridge_id@ == r.bridge_id@
    &&& compose.requester_host_ref@ == host_ref_of(hosts, r.requester_host_alias@)
    &&& compose.original_user_goal@ == r.original_user_goal@
    &&& compose.expected_outcome@ == p.expected_outcome@
    &&& compose.roots@.len() == p.roots@.len()
    &&& forall|j: int| 0 <= j < p.roots@.len() ==> root_matches(r, p.roots@[j], #[trigger] compose.roots@[j])
    &&& compose.steps@.len() == p.steps@.len()
    &&& forall|i: int|
        0 <= i < p.steps@.len() ==> native_matches(r, state_before(r, i), p.steps@[i], #[trigger] compose.steps@[i])
    &&& review.schema_version@ == NATURAL_V2_REVIEW_SCHEMA_VERSION@
    &&& review.title@ == p.title@
    &&& review.draft.state == crate::native_v2::NativeV2ProductStateV1::Draft
    &&& review.draft.approval_id is None
    &&& review.draft.attempt_id is None
    &&& review.topology@.len() == p.steps@.len()
    &&& forall|i: int| 0 <= i < p.steps@.len() ==> topology_matches(p.steps@[i], #[trigger] review.topology@[i])
    &&& movements_match(p.steps@, review.movements@)
    &&& forall|k: int| 0 <= k < affected.len() - 1 ==> #[trigger] alias_lt(affected[k].host_alias@, affected[k + 1].host_alias@)
    &&& forall|a: Seq<char>| used_set(r).contains(a) <==> exists|k: int| 0 <= k < affected.len() && #[trigger] affected[k].host_alias@ == a
    &&& forall|k: int| 0 <= k < affected.len() ==> #[trigger] affected[k].display_name@ == display_of(hosts, affected[k].host_alias@)
    &&& compose.participant_host_refs@.len() == affected.len()
    &&& forall|k: int|
        0 <= k < affected.len() ==> #[trigger] compose.participant_host_refs@[k]@ == host_ref_of(hosts, affected[k].host_alias@)
}

/// Lowers a candidate into a Composer request and its review. Refuses a
/// request of invalid shape, a candidate that replaces the Host-captured
/// goal, and every alias, dependency, object flow, operation, scope or route
/// the requester did not select; no object changes Host but by Transfer.
#[verifier::spinoff_prover]
#[verifier::rlimit(40)]
pub fn lower_candidate(request: NaturalV2ComposeCandidateRequestV1) -> (res: AppResult<
    (NativeV2ComposeRequestV1, NaturalV2CandidateReviewV1),
>)
    ensures
        res is Ok <==> lowering_ok(request) && used_hosts_known(request),
        res matches Ok(out) ==> lowered_as(request, out.0, out.1),
        request_shape_ok(request) ==> (res is Ok <==> lowering_error(request) is None),
        request_shape_ok(request) && res is Err ==> res == Err::<
            (NativeV2ComposeRequestV1, NaturalV2CandidateReviewV1),
            AppError,
        >(AppError::InvalidInput(lowering_error(request).unwrap())),
{
    let r = &request;
    validate_request_shape(r)?;
    if r.candidate.original_user_goal != r.original_user_goal {
        proof {
            lemma_lowering_goal(request);
        }
        return Err(AppError::InvalidInput("Natural-v2 candidate changed the Host-captured user goal."));
    }
    let requester_ref = match host_ref(&r.context.hosts, &r.requester_host_alias) {
        Ok(h) => h,
        Err(_) => {
            proof {
                lemma_lowering_requester(request);
            }
            return Err(AppError::InvalidInput("Natural-v2 requester Host alias is unavailable."));
        },
    };
    let mut objects: Vec<ObjectEntry> = Vec::new();
    let roots = match bind_roots(r, &mut objects) {
        Ok(v) => v,
        Err(e) => {
            proof {
                lemma_lowering_roots(request);
            }
            return Err(e);
        },
    };
    let (steps, topology, movements) = match lower_steps(r, &mut objects) {
        Ok(out) => out,
        Err(e) => {
            proof {
                lemma_lowering_steps(request);
            }
            return Err(e);
        },
    };
    let aliases = used_aliases(r);
    let affected = match affected_hosts(&r.context.hosts, &aliases) {
        Ok(a) => a,
        Err(e) => {
            proof {
                let k = choose|k: int| 0 <= k < aliases@.len() && !host_known(r.context.hosts@, #[trigger] aliases@[k]@);
                assert(seen_view(aliases@).contains(aliases@[k]@));
                assert(!used_hosts_known(request));
                lemma_lowering_hosts(request);
            }
            return Err(e);
        },
    };
    proof {
        assert forall|a: Seq<char>| #[trigger] used_set(*r).contains(a) implies host_known(r.context.hosts@, a) by {
            assert(seen_view(aliases@).contains(a));
            let k = choose|k: int| 0 <= k < aliases@.len() && #[trigger] aliases@[k]@ == a;
            assert(host_known(r.context.hosts@, aliases@[k]@));
        }
        assert forall|k: int| 0 <= k < affected@.len() implies host_known(r.context.hosts@, #[trigger] affected@[k].host_alias@) by {
            assert(host_known(r.context.hosts@, aliases@[k]@));
        }
        assert forall|a: Seq<char>| used_set(*r).contains(a) <==> exists|k: int|
            0 <= k < affected@.len() && #[trigger] affected@[k].host_alias@ == a by {
            if used_set(*r).contains(a) {
                assert(seen_view(aliases@).contains(a));
                let k = choose|k: int| 0 <= k < aliases@.len() && #[trigger] aliases@[k]@ == a;
                assert(affected@[k].host_alias@ == a);
            }
            if exists|k: int| 0 <= k < affected@.len() && #[trigger] affected@[k].host_alias@ == a {
                let k = choose|k: int| 0 <= k < affected@.len() && #[trigger] affected@[k].host_alias@ == a;
                assert(aliases@[k]@ == a);
                assert(seen_view(aliases@).contains(a));
            }
        }
        assert forall|k: int| 0 <= k < affected@.len() - 1 implies #[trigger] alias_lt(
            affected@[k].host_alias@,
            affected@[k + 1].host_alias@,
        ) by {
            assert(alias_lt(aliases@[k]@, aliases@[k + 1]@));
            assert(affected@[k + 1].host_alias@ == aliases@[k + 1]@);
        }
    }
    proof {
        lemma_lowering_hosts(request);
    }
    let participants = participant_refs(&r.context.hosts, &affected)?;
    let compose = NativeV2ComposeRequestV1 {
        plan_id: r.plan_id.clone(),
        revision_id: r.revision_id.clone(),
        revision_number: r.revision_number,
        bridge_id: r.bridge_id.clone(),
        requester_host_ref: requester_ref,
        participant_host_refs: participants,
        roots,
        original_user_goal: r.candidate.original_user_goal.clone(),
        expected_outcome: r.candidate.expected_outcome.clone(),
        steps,
    };
    let review = NaturalV2CandidateReviewV1 {
        schema_version: String::from_str(NATURAL_V2_REVIEW_SCHEMA_VERSION),
        title: r.candidate.title.clone(),
        draft: crate::native_v2::NativeV2PlanStatusV1::unsealed_draft(),
        affected_hosts: affected,
        topology,
        movements,
    };
    Ok((compose, review))
}

/// Only an explicit Transfer changes where an object is: after any other
/// step, every current object sits at the Host where an object of the same
/// identity sat before, unless it is the fresh output of a Search.
pub proof fn lemma_only_transfer_moves(r: NaturalV2ComposeCandidateRequestV1, st: FlowState, s: CandidateSemanticStepV2)
    requires
        step_next(r, st, s) is Some,
        step_op(s) != StepOperation::Transfer,
    ensures
        forall|a: Seq<char>| #[trigger] step_next(r, st, s).unwrap().objects.contains_key(a) ==> ({
            let o = step_next(r, st, s).unwrap().objects[a];
            ||| exists|b: Seq<char>|
                #[trigger] st.objects.contains_key(b) && st.objects[b].logical == o.logical && st.objects[b].host == o.host
            ||| (step_op(s) == StepOperation::Search && o.logical == search_object_id(
                r.plan_id@,
                r.revision_id@,
                step_alias(s),
            ))
        }),
{
    let nx = step_next(r, st, s).unwrap();
    assert forall|a: Seq<char>| #[trigger] nx.objects.contains_key(a) implies ({
        let o = nx.objects[a];
        ||| exists|b: Seq<char>|
            #[trigger] st.objects.contains_key(b) && st.objects[b].logical == o.logical && st.objects[b].host == o.host
        ||| (step_op(s) == StepOperation::Search && o.logical == search_object_id(r.plan_id@, r.revision_id@, step_alias(s)))
    }) by {
        match s {
            CandidateSemanticStepV2::Transform { input_alias, output_alias, .. } => {
                if a != output_alias@ {
                    assert(st.objects.contains_key(a));
                } else {
                    assert(st.objects.contains_key(input_alias@));
                }
            },
            CandidateSemanticStepV2::Search { output_alias, .. } => {
                if a != output_alias@ {
                    assert(st.objects.contains_key(a));
                }
            },
            CandidateSemanticStepV2::Execute { .. } => {
                assert(st.objects.contains_key(a));
            },
            CandidateSemanticStepV2::Transfer { .. } => {},
        }
    }
}

/// Lowering never accepts a candidate whose goal differs from the one the
/// Host captured.
pub proof fn lemma_goal_is_host_captured(r: NaturalV2ComposeCandidateRequestV1)
    requires
        lowering_ok(r),
    ensures
        r.candidate.original_user_goal@ == r.original_user_goal@,
{
}

/// The bytes hashed for a Search output's identity tell revisions apart:
/// the same step of the same plan in two different revisions is hashed
/// from different bytes, and so are two different steps of one revision.
pub proof fn lemma_search_input_separates(plan: Seq<char>, r1: Seq<char>, r2: Seq<char>, a1: Seq<char>, a2: Seq<char>)
    ensures
        r1 != r2 ==> search_id_input(plan, r1, a1) != search_id_input(plan, r2, a1),
        a1 != a2 ==> search_id_input(plan, r1, a1) != search_id_input(plan, r1, a2),
{
    let h = utf8("pastey-natural-v2-search-object-v1"@) + seq![0u8] + utf8(plan) + seq![0u8];
    if r1 != r2 && search_id_input(plan, r1, a1) == search_id_input(plan, r2, a1) {
        let x = search_id_input(plan, r1, a1);
        let y = search_id_input(plan, r2, a1);
        let u1 = utf8(r1);
        let u2 = utf8(r2);
        let t = seq![0u8] + utf8(a1);
        assert(x =~= h + u1 + t);
        assert(y =~= h + u2 + t);
        assert(u1.len() == u2.len());
        assert(x.subrange(h.len() as int, (h.len() + u1.len()) as int) =~= u1);
        assert(y.subrange(h.len() as int, (h.len() + u2.len()) as int) =~= u2);
        vstd::utf8::encode_utf8_decode_utf8(r1);
        vstd::utf8::encode_utf8_decode_utf8(r2);
        assert(false);
    }
    if a1 != a2 && search_id_input(plan, r1, a1) == search_id_input(plan, r1, a2) {
        let g = h + utf8(r1) + seq![0u8];
        let x = search_id_input(plan, r1, a1);
        let y = search_id_input(plan, r1, a2);
        assert(x =~= g + utf8(a1));
        assert(y =~= g + utf8(a2));
        assert(x.subrange(g.len() as int, x.len() as int) =~= utf8(a1));
        assert(y.subrange(g.len() as int, y.len() as int) =~= utf8(a2));
        vstd::utf8::encode_utf8_decode_utf8(a1);
        vstd::utf8::encode_utf8_decode_utf8(a2);
        assert(false);
    }
}

} // verus!
