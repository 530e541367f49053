//! The Host's record of brokered network grants: per managed run, the
//! scopes and destinations its grant was provisioned with, the name
//! resolutions pinned for it, and the requests staged for exactly one
//! apply. A grant is provisioned once and only as its authority granted
//! it; a request is staged only inside its bindings; revoking a run removes
//! everything it held and keeps it revoked.
use vstd::prelude::*;

use crate::error::{AppError, AppResult};
use crate::hashing::{blake3_digest, blake3_hex, lower_hex};
use crate::native_v2_product::same_text;
use crate::natural_v2::{append_bytes, as_bytes};
use crate::network::{
    budget_shape_ok, destination_error, effect_aligned, scope_identity_ok, scope_zone_ok,
    validate_network_budget_shape, validate_scope_for_effect, NetworkBudgetSliceV1,
    NetworkDestinationBindingSpecV1, NetworkEffectV1, NetworkScopeBindingSpecV1,
    NetworkTransportV1, NetworkVerbV1, StagedNetworkExchangeV1, MAX_STAGED_REQUEST_BYTES,
    TCP_TRANSPORT_REF, address_key, same_address, SocketAddressV1, address_zone, classify_address,
    NetworkEndpointHostV1, NetworkScopeKindV1,
};
use crate::text::utf8;

verus! {

/// Whom a grant belongs to: the envelope, run and authority context it was
/// granted under, and the Host, Bridge and session it runs for.
#[derive(Clone, Debug, PartialEq, Eq)]
pub struct NetworkOwnerV1 {
    pub envelope_ref: String,
    pub run_ref: String,
    pub context_ref: String,
    pub host_ref: String,
    pub bridge_id: String,
    pub session_binding_ref: String,
}

/// What the effect authority granted one run: its scopes, verbs and
/// destinations, its budgets (by their canonical reference) and its expiry.
#[derive(Clone, Debug, PartialEq, Eq)]
pub struct NetworkGrantV1 {
    pub context_ref: String,
    pub run_control_ref: String,
    pub host_ref: String,
    pub scope_refs: Vec<String>,
    pub allowed_verbs: Vec<NetworkVerbV1>,
    pub destination_refs: Vec<String>,
    pub budgets_ref: String,
    pub expires_at: i64,
}

/// A name resolution pinned for one destination under one scope.
#[derive(Clone, Debug, PartialEq, Eq)]
pub struct ResolutionPinV1 {
    pub destination_ref: String,
    pub scope_ref: String,
    pub generation_ref: String,
    pub addresses: Vec<SocketAddressV1>,
}

/// One brokered request, as its run asked for it.
#[derive(Clone, Debug, PartialEq, Eq)]
pub struct NetworkRequestV1 {
    pub request_id: String,
    pub verb: NetworkVerbV1,
    pub scope_ref: String,
    pub destination_ref: String,
    pub transport_ref: String,
    pub resolution_generation_ref: Option<String>,
    pub request_digest: Option<String>,
}

/// A request staged for exactly one apply, with the bytes it sends and the
/// logical time it was staged at.
#[derive(Clone, Debug, PartialEq, Eq)]
pub struct StagedRequestV1 {
    pub request: NetworkRequestV1,
    pub exchange: Option<StagedNetworkExchangeV1>,
    pub logical_now: i64,
}

/// A provisioned grant and what its run holds under it.
#[derive(Clone, Debug, PartialEq, Eq)]
pub struct ProvisionedGrantV1 {
    pub owner: NetworkOwnerV1,
    pub grant: NetworkGrantV1,
    pub scopes: Vec<NetworkScopeBindingSpecV1>,
    pub destinations: Vec<NetworkDestinationBindingSpecV1>,
    pub resolutions: Vec<ResolutionPinV1>,
    pub staged: Vec<StagedRequestV1>,
}

/// `x` occurs in `v`.
pub open spec fn text_in(v: Seq<String>, x: Seq<char>) -> bool {
    exists|i: int| 0 <= i < v.len() && #[trigger] v[i]@ == x
}

pub open spec fn scope_declared(scopes: Seq<NetworkScopeBindingSpecV1>, r: Seq<char>) -> bool {
    exists|i: int| 0 <= i < scopes.len() && #[trigger] scopes[i].scope_ref@ == r
}

pub open spec fn destination_declared(ds: Seq<NetworkDestinationBindingSpecV1>, r: Seq<char>) -> bool {
    exists|i: int| 0 <= i < ds.len() && #[trigger] ds[i].destination_ref@ == r
}

pub open spec fn verb_represented(scopes: Seq<NetworkScopeBindingSpecV1>, v: NetworkVerbV1) -> bool {
    exists|i: int| 0 <= i < scopes.len() && (#[trigger] scopes[i]).allowed_verbs@.contains(v)
}

/// Every verb of scope `s` is granted.
pub open spec fn verbs_granted(g: NetworkGrantV1, s: NetworkScopeBindingSpecV1) -> bool {
    forall|k: int| 0 <= k < s.allowed_verbs@.len() ==> g.allowed_verbs@.contains(#[trigger] s.allowed_verbs@[k])
}

/// Scope `i` outlives its grant, is already expired at `now`, grants a
/// verb its grant does not, or repeats an earlier scope.
pub open spec fn scope_widens(g: NetworkGrantV1, scopes: Seq<NetworkScopeBindingSpecV1>, i: int, now: i64) -> bool {
    let s = scopes[i];
    ||| s.expires_at > g.expires_at
    ||| s.expires_at <= now
    ||| !verbs_granted(g, s)
    ||| exists|j: int| 0 <= j < i && #[trigger] scopes[j].scope_ref@ == s.scope_ref@
}

/// Destination `i` outlives its grant, is already expired at `now`, or
/// repeats an earlier destination.
pub open spec fn destination_widens(
    g: NetworkGrantV1,
    ds: Seq<NetworkDestinationBindingSpecV1>,
    i: int,
    now: i64,
) -> bool {
    let d = ds[i];
    ||| d.expires_at > g.expires_at
    ||| d.expires_at <= now
    ||| exists|j: int| 0 <= j < i && #[trigger] ds[j].destination_ref@ == d.destination_ref@
}

/// Why scope `i`, expected under `expected[i]`, is refused.
pub open spec fn scope_error(
    g: NetworkGrantV1,
    scopes: Seq<NetworkScopeBindingSpecV1>,
    expected: Seq<String>,
    i: int,
    now: i64,
) -> Option<&'static str> {
    if !scope_identity_ok(scopes[i], expected[i]@) {
        Some("Network scope identity or policy is invalid.")
    } else if !scope_zone_ok(scopes[i]) {
        Some("Network scope mixes independent zone or DNS authority.")
    } else if scope_widens(g, scopes, i, now) {
        Some("Network scope binding widens or duplicates its grant.")
    } else {
        None
    }
}

/// Why destination `i`, expected under `expected[i]`, is refused.
pub open spec fn destination_binding_error(
    g: NetworkGrantV1,
    ds: Seq<NetworkDestinationBindingSpecV1>,
    expected: Seq<String>,
    i: int,
    now: i64,
) -> Option<&'static str> {
    match destination_error(ds[i], expected[i]@) {
        Some(m) => Some(m),
        None => if destination_widens(g, ds, i, now) {
            Some("Network destination binding widens or duplicates its grant.")
        } else {
            None
        },
    }
}

pub open spec fn first_scope_error(
    g: NetworkGrantV1,
    scopes: Seq<NetworkScopeBindingSpecV1>,
    expected: Seq<String>,
    now: i64,
    n: int,
) -> Option<&'static str>
    decreases n,
{
    if n <= 0 {
        None
    } else {
        match first_scope_error(g, scopes, expected, now, n - 1) {
            Some(e) => Some(e),
            None => scope_error(g, scopes, expected, n - 1, now),
        }
    }
}

pub open spec fn first_destination_error(
    g: NetworkGrantV1,
    ds: Seq<NetworkDestinationBindingSpecV1>,
    expected: Seq<String>,
    now: i64,
    n: int,
) -> Option<&'static str>
    decreases n,
{
    if n <= 0 {
        None
    } else {
        match first_destination_error(g, ds, expected, now, n - 1) {
            Some(e) => Some(e),
            None => destination_binding_error(g, ds, expected, n - 1, now),
        }
    }
}

/// The scopes and destinations are exactly those of the grant, for the
/// owner's Host, and every granted verb is represented by some scope.
pub open spec fn topology_matches(
    g: NetworkGrantV1,
    owner: NetworkOwnerV1,
    scopes: Seq<NetworkScopeBindingSpecV1>,
    ds: Seq<NetworkDestinationBindingSpecV1>,
) -> bool {
    &&& g.host_ref@ == owner.host_ref@
    &&& forall|i: int| 0 <= i < scopes.len() ==> text_in(g.scope_refs@, #[trigger] scopes[i].scope_ref@)
    &&& forall|j: int| 0 <= j < g.scope_refs@.len() ==> scope_declared(scopes, #[trigger] g.scope_refs@[j]@)
    &&& forall|i: int| 0 <= i < ds.len() ==> text_in(g.destination_refs@, #[trigger] ds[i].destination_ref@)
    &&& forall|j: int|
        0 <= j < g.destination_refs@.len() ==> destination_declared(ds, #[trigger] g.destination_refs@[j]@)
    &&& forall|j: int| 0 <= j < g.allowed_verbs@.len() ==> verb_represented(scopes, #[trigger] g.allowed_verbs@[j])
}

pub open spec fn grant_at(gs: Seq<ProvisionedGrantV1>, i: int, run: Seq<char>) -> bool {
    0 <= i < gs.len() && gs[i].owner.run_ref@ == run
}

pub open spec fn has_grant(gs: Seq<ProvisionedGrantV1>, run: Seq<char>) -> bool {
    exists|i: int| #[trigger] grant_at(gs, i, run)
}

pub open spec fn grant_index(gs: Seq<ProvisionedGrantV1>, run: Seq<char>) -> int {
    choose|i: int| grant_at(gs, i, run)
}

/// Why grant `g`, found for `owner` as `scopes` and `destinations` (each
/// with the identity its descriptor should have), is not provisioned at
/// `now`, in the order the checks are made.
pub open spec fn provision_blocker(
    gs: Seq<ProvisionedGrantV1>,
    revoked: Seq<String>,
    available: bool,
    g: NetworkGrantV1,
    owner: NetworkOwnerV1,
    scopes: Seq<NetworkScopeBindingSpecV1>,
    scope_refs: Seq<String>,
    ds: Seq<NetworkDestinationBindingSpecV1>,
    destination_refs: Seq<String>,
    now: i64,
) -> Option<&'static str> {
    if !available {
        Some("Host network brokerage is unavailable.")
    } else if scopes.len() == 0 {
        Some("Network scope bindings are empty.")
    } else if ds.len() == 0 {
        Some("Network destination bindings are empty.")
    } else if first_scope_error(g, scopes, scope_refs, now, scopes.len() as int) is Some {
        first_scope_error(g, scopes, scope_refs, now, scopes.len() as int)
    } else if first_destination_error(g, ds, destination_refs, now, ds.len() as int) is Some {
        first_destination_error(g, ds, destination_refs, now, ds.len() as int)
    } else if !topology_matches(g, owner, scopes, ds) {
        Some("Host-resolved network topology does not exactly match the grant.")
    } else if text_in(revoked, owner.run_ref@) || has_grant(gs, owner.run_ref@) {
        Some("Network grant is revoked or already provisioned.")
    } else {
        None
    }
}

/// Bindings exactly those of the grant, each scope within the granted
/// verbs; distinct scopes, destinations, pinned destinations and staged
/// requests.
pub open spec fn record_ok(r: ProvisionedGrantV1) -> bool {
    &&& topology_matches(r.grant, r.owner, r.scopes@, r.destinations@)
    &&& forall|i: int| 0 <= i < r.scopes@.len() ==> verbs_granted(r.grant, #[trigger] r.scopes@[i])
    &&& forall|i: int, j: int|
        0 <= i < j < r.scopes@.len() ==> #[trigger] r.scopes@[i].scope_ref@ != #[trigger] r.scopes@[j].scope_ref@
    &&& forall|i: int, j: int|
        0 <= i < j < r.destinations@.len() ==> #[trigger] r.destinations@[i].destination_ref@
            != #[trigger] r.destinations@[j].destination_ref@
    &&& forall|i: int, j: int|
        0 <= i < j < r.resolutions@.len() ==> #[trigger] r.resolutions@[i].destination_ref@
            != #[trigger] r.resolutions@[j].destination_ref@
    &&& forall|i: int, j: int|
        0 <= i < j < r.staged@.len() ==> #[trigger] r.staged@[i].request.request_id@
            != #[trigger] r.staged@[j].request.request_id@
}

/// The Host's brokered network grants and the runs it revoked.
pub struct NetworkBrokerLedgerV1 {
    grants: Vec<ProvisionedGrantV1>,
    revoked_runs: Vec<String>,
}

impl NetworkBrokerLedgerV1 {
    pub closed spec fn spec_grants(&self) -> Seq<ProvisionedGrantV1> {
        self.grants@
    }

    pub closed spec fn spec_revoked(&self) -> Seq<String> {
        self.revoked_runs@
    }

    /// One grant per run, none for a revoked run, every record distinct
    /// inside.
    pub open spec fn wf(&self) -> bool {
        let gs = self.spec_grants();
        &&& forall|i: int, j: int|
            0 <= i < j < gs.len() ==> #[trigger] gs[i].owner.run_ref@ != #[trigger] gs[j].owner.run_ref@
        &&& forall|i: int| 0 <= i < gs.len() ==> record_ok(#[trigger] gs[i])
        &&& forall|i: int| 0 <= i < gs.len() ==> !text_in(self.spec_revoked(), (#[trigger] gs[i]).owner.run_ref@)
    }

    /// Revoked runs stay revoked: the earlier revoked runs begin the later.
    pub open spec fn evolves_to(&self, other: &NetworkBrokerLedgerV1) -> bool {
        let a = texts_view(self.spec_revoked());
        let b = texts_view(other.spec_revoked());
        a.len() <= b.len() && b.subrange(0, a.len() as int) =~= a
    }

    /// Nothing granted, nothing revoked.
    pub fn new() -> (r: NetworkBrokerLedgerV1)
        ensures
            r.wf(),
            r.spec_grants().len() == 0,
            r.spec_revoked().len() == 0,
    {
        NetworkBrokerLedgerV1 { grants: Vec::new(), revoked_runs: Vec::new() }
    }

    proof fn lemma_grant_unique(&self, i: int, j: int, run: Seq<char>)
        requires
            self.wf(),
            grant_at(self.spec_grants(), i, run),
            grant_at(self.spec_grants(), j, run),
        ensures
            i == j,
    {
        let gs = self.spec_grants();
        if i < j {
            assert(gs[i].owner.run_ref@ != gs[j].owner.run_ref@);
        } else if j < i {
            assert(gs[j].owner.run_ref@ != gs[i].owner.run_ref@);
        }
    }

    fn find_grant(&self, run: &str) -> (r: Option<usize>)
        requires
            self.wf(),
        ensures
            r matches Some(i) ==> grant_at(self.spec_grants(), i as int, run@) && i as int == grant_index(
                self.spec_grants(),
                run@,
            ),
            r is None ==> !has_grant(self.spec_grants(), run@),
    {
        let mut i: usize = 0;
        while i < self.grants.len()
            invariant
                self.wf(),
                i <= self.grants@.len(),
                forall|k: int| 0 <= k < i ==> !#[trigger] grant_at(self.grants@, k, run@),
            decreases self.grants@.len() - i,
        {
            if same_text(self.grants[i].owner.run_ref.as_str(), run) {
                proof {
                    let c = grant_index(self.spec_grants(), run@);
                    self.lemma_grant_unique(i as int, c, run@);
                }
                return Some(i);
            }
            i = i + 1;
        }
        None
    }
}

pub fn contains_text(v: &Vec<String>, x: &str) -> (b: bool)
    ensures
        b == text_in(v@, x@),
{
    let mut i: usize = 0;
    while i < v.len()
        invariant
            i <= v@.len(),
            forall|k: int| 0 <= k < i ==> #[trigger] v@[k]@ != x@,
        decreases v@.len() - i,
    {
        if same_text(v[i].as_str(), x) {
            return true;
        }
        i = i + 1;
    }
    false
}

fn contains_verb(v: &Vec<NetworkVerbV1>, x: NetworkVerbV1) -> (b: bool)
    ensures
        b == v@.contains(x),
{
    let mut i: usize = 0;
    while i < v.len()
        invariant
            i <= v@.len(),
            forall|k: int| 0 <= k < i ==> v@[k] != x,
        decreases v@.len() - i,
    {
        if v[i] == x {
            return true;
        }
        i = i + 1;
    }
    false
}

fn all_verbs_granted(g: &NetworkGrantV1, s: &NetworkScopeBindingSpecV1) -> (b: bool)
    ensures
        b == verbs_granted(*g, *s),
{
    let mut k: usize = 0;
    while k < s.allowed_verbs.len()
        invariant
            k <= s.allowed_verbs@.len(),
            forall|j: int| 0 <= j < k ==> g.allowed_verbs@.contains(#[trigger] s.allowed_verbs@[j]),
        decreases s.allowed_verbs@.len() - k,
    {
        if !contains_verb(&g.allowed_verbs, s.allowed_verbs[k]) {
            return false;
        }
        k = k + 1;
    }
    true
}

fn scope_repeats(scopes: &Vec<NetworkScopeBindingSpecV1>, i: usize) -> (b: bool)
    requires
        i < scopes@.len(),
    ensures
        b == exists|j: int| 0 <= j < i && #[trigger] scopes@[j].scope_ref@ == scopes@[i as int].scope_ref@,
{
    let mut j: usize = 0;
    while j < i
        invariant
            i < scopes@.len(),
            j <= i,
            forall|k: int| 0 <= k < j ==> #[trigger] scopes@[k].scope_ref@ != scopes@[i as int].scope_ref@,
        decreases i - j,
    {
        if same_text(scopes[j].scope_ref.as_str(), scopes[i].scope_ref.as_str()) {
            return true;
        }
        j = j + 1;
    }
    false
}

fn destination_repeats(ds: &Vec<NetworkDestinationBindingSpecV1>, i: usize) -> (b: bool)
    requires
        i < ds@.len(),
    ensures
        b == exists|j: int| 0 <= j < i && #[trigger] ds@[j].destination_ref@ == ds@[i as int].destination_ref@,
{
    let mut j: usize = 0;
    while j < i
        invariant
            i < ds@.len(),
            j <= i,
            forall|k: int| 0 <= k < j ==> #[trigger] ds@[k].destination_ref@ != ds@[i as int].destination_ref@,
        decreases i - j,
    {
        if same_text(ds[j].destination_ref.as_str(), ds[i].destination_ref.as_str()) {
            return true;
        }
        j = j + 1;
    }
    false
}

/// The first error among the first `n` stays the first among more.
proof fn lemma_first_scope_error_stable(
    g: NetworkGrantV1,
    scopes: Seq<NetworkScopeBindingSpecV1>,
    expected: Seq<String>,
    now: i64,
    n: int,
    m: int,
)
    requires
        0 <= n <= m,
        first_scope_error(g, scopes, expected, now, n) is Some,
    ensures
        first_scope_error(g, scopes, expected, now, m) == first_scope_error(g, scopes, expected, now, n),
    decreases m - n,
{
    if n < m {
        lemma_first_scope_error_stable(g, scopes, expected, now, n, m - 1);
    }
}

proof fn lemma_first_destination_error_stable(
    g: NetworkGrantV1,
    ds: Seq<NetworkDestinationBindingSpecV1>,
    expected: Seq<String>,
    now: i64,
    n: int,
    m: int,
)
    requires
        0 <= n <= m,
        first_destination_error(g, ds, expected, now, n) is Some,
    ensures
        first_destination_error(g, ds, expected, now, m) == first_destination_error(g, ds, expected, now, n),
    decreases m - n,
{
    if n < m {
        lemma_first_destination_error_stable(g, ds, expected, now, n, m - 1);
    }
}

fn every_scope_in_grant(g: &NetworkGrantV1, scopes: &Vec<NetworkScopeBindingSpecV1>) -> (b: bool)
    ensures
        b == forall|i: int| 0 <= i < scopes@.len() ==> text_in(g.scope_refs@, #[trigger] scopes@[i].scope_ref@),
{
    let mut i: usize = 0;
    while i < scopes.len()
        invariant
            i <= scopes@.len(),
            forall|k: int| 0 <= k < i ==> text_in(g.scope_refs@, #[trigger] scopes@[k].scope_ref@),
        decreases scopes@.len() - i,
    {
        if !contains_text(&g.scope_refs, scopes[i].scope_ref.as_str()) {
            return false;
        }
        i = i + 1;
    }
    true
}

fn every_destination_in_grant(g: &NetworkGrantV1, ds: &Vec<NetworkDestinationBindingSpecV1>) -> (b: bool)
    ensures
        b == forall|i: int| 0 <= i < ds@.len() ==> text_in(g.destination_refs@, #[trigger] ds@[i].destination_ref@),
{
    let mut i: usize = 0;
    while i < ds.len()
        invariant
            i <= ds@.len(),
            forall|k: int| 0 <= k < i ==> text_in(g.destination_refs@, #[trigger] ds@[k].destination_ref@),
        decreases ds@.len() - i,
    {
        if !contains_text(&g.destination_refs, ds[i].destination_ref.as_str()) {
            return false;
        }
        i = i + 1;
    }
    true
}

fn declared_scope(scopes: &Vec<NetworkScopeBindingSpecV1>, r: &str) -> (b: bool)
    ensures
        b == scope_declared(scopes@, r@),
{
    let mut i: usize = 0;
    while i < scopes.len()
        invariant
            i <= scopes@.len(),
            forall|k: int| 0 <= k < i ==> #[trigger] scopes@[k].scope_ref@ != r@,
        decreases scopes@.len() - i,
    {
        if same_text(scopes[i].scope_ref.as_str(), r) {
            return true;
        }
        i = i + 1;
    }
    false
}

fn declared_destination(ds: &Vec<NetworkDestinationBindingSpecV1>, r: &str) -> (b: bool)
    ensures
        b == destination_declared(ds@, r@),
{
    let mut i: usize = 0;
    while i < ds.len()
        invariant
            i <= ds@.len(),
            forall|k: int| 0 <= k < i ==> #[trigger] ds@[k].destination_ref@ != r@,
        decreases ds@.len() - i,
    {
        if same_text(ds[i].destination_ref.as_str(), r) {
            return true;
        }
        i = i + 1;
    }
    false
}

fn represented(scopes: &Vec<NetworkScopeBindingSpecV1>, v: NetworkVerbV1) -> (b: bool)
    ensures
        b == verb_represented(scopes@, v),
{
    let mut i: usize = 0;
    while i < scopes.len()
        invariant
            i <= scopes@.len(),
            forall|k: int| 0 <= k < i ==> !(#[trigger] scopes@[k]).allowed_verbs@.contains(v),
        decreases scopes@.len() - i,
    {
        if contains_verb(&scopes[i].allowed_verbs, v) {
            return true;
        }
        i = i + 1;
    }
    false
}

fn topology_check(
    g: &NetworkGrantV1,
    owner: &NetworkOwnerV1,
    scopes: &Vec<NetworkScopeBindingSpecV1>,
    ds: &Vec<NetworkDestinationBindingSpecV1>,
) -> (b: bool)
    ensures
        b == topology_matches(*g, *owner, scopes@, ds@),
{
    if !same_text(g.host_ref.as_str(), owner.host_ref.as_str()) || !every_scope_in_grant(g, scopes)
        || !every_destination_in_grant(g, ds) {
        return false;
    }
    let mut j: usize = 0;
    while j < g.scope_refs.len()
        invariant
            j <= g.scope_refs@.len(),
            forall|k: int| 0 <= k < j ==> scope_declared(scopes@, #[trigger] g.scope_refs@[k]@),
        decreases g.scope_refs@.len() - j,
    {
        if !declared_scope(scopes, g.scope_refs[j].as_str()) {
            return false;
        }
        j = j + 1;
    }
    let mut j: usize = 0;
    while j < g.destination_refs.len()
        invariant
            j <= g.destination_refs@.len(),
            forall|k: int| 0 <= k < j ==> destination_declared(ds@, #[trigger] g.destination_refs@[k]@),
        decreases g.destination_refs@.len() - j,
    {
        if !declared_destination(ds, g.destination_refs[j].as_str()) {
            return false;
        }
        j = j + 1;
    }
    let mut j: usize = 0;
    while j < g.allowed_verbs.len()
        invariant
            j <= g.allowed_verbs@.len(),
            forall|k: int| 0 <= k < j ==> verb_represented(scopes@, #[trigger] g.allowed_verbs@[k]),
        decreases g.allowed_verbs@.len() - j,
    {
        if !represented(scopes, g.allowed_verbs[j]) {
            return false;
        }
        j = j + 1;
    }
    true
}

impl NetworkBrokerLedgerV1 {
    /// Provisions grant `grant` for `owner` at `now`, with exactly the
    /// scopes `scopes` and destinations `destinations`, each expected under
    /// the identity at the same position of `scope_refs` and
    /// `destination_refs`, when brokerage is `available`. Refuses, in this
    /// order: unavailable brokerage; no scope; no destination; the first
    /// scope, then the first destination, that is invalid, outlives or
    /// widens the grant, or repeats; a topology other than the grant's; a
    /// run revoked or already provisioned.
    pub fn provision(
        &mut self,
        available: bool,
        grant: NetworkGrantV1,
        owner: NetworkOwnerV1,
        scopes: Vec<NetworkScopeBindingSpecV1>,
        scope_refs: &Vec<String>,
        destinations: Vec<NetworkDestinationBindingSpecV1>,
        destination_refs: &Vec<String>,
        now: i64,
    ) -> (r: AppResult<()>)
        requires
            old(self).wf(),
            scope_refs@.len() == scopes@.len(),
            destination_refs@.len() == destinations@.len(),
        ensures
            final(self).wf(),
            old(self).evolves_to(&*final(self)),
            final(self).spec_revoked() == old(self).spec_revoked(),
            match provision_blocker(
                old(self).spec_grants(),
                old(self).spec_revoked(),
                available,
                grant,
                owner,
                scopes@,
                scope_refs@,
                destinations@,
                destination_refs@,
                now,
            ) {
                Some(m) => r == Err::<(), AppError>(AppError::InvalidInput(m)) && final(self).spec_grants()
                    == old(self).spec_grants(),
                None => {
                    let g = final(self).spec_grants();
                    &&& r is Ok
                    &&& g.len() == old(self).spec_grants().len() + 1
                    &&& g.drop_last() == old(self).spec_grants()
                    &&& g.last().owner == owner
                    &&& g.last().grant == grant
                    &&& g.last().scopes == scopes
                    &&& g.last().destinations == destinations
                    &&& g.last().resolutions@.len() == 0
                    &&& g.last().staged@.len() == 0
                },
            },
    {
        if !available {
            return Err(AppError::InvalidInput("Host network brokerage is unavailable."));
        }
        if scopes.len() == 0 {
            return Err(AppError::InvalidInput("Network scope bindings are empty."));
        }
        if destinations.len() == 0 {
            return Err(AppError::InvalidInput("Network destination bindings are empty."));
        }
        let mut i: usize = 0;
        while i < scopes.len()
            invariant
                self.wf(),
                self.spec_grants() == old(self).spec_grants(),
                self.spec_revoked() == old(self).spec_revoked(),
                available,
                scopes@.len() > 0,
                destinations@.len() > 0,
                scope_refs@.len() == scopes@.len(),
                i <= scopes@.len(),
                first_scope_error(grant, scopes@, scope_refs@, now, i as int) is None,
                forall|a: int, b: int| 0 <= a < b < i ==> #[trigger] scopes@[a].scope_ref@ != #[trigger] scopes@[b].scope_ref@,
                forall|k: int| 0 <= k < i ==> verbs_granted(grant, #[trigger] scopes@[k]),
            decreases scopes@.len() - i,
        {
            let checked = scopes[i].validate_identity(scope_refs[i].as_str());
            match checked {
                Err(e) => {
                    proof {
                        lemma_first_scope_error_stable(grant, scopes@, scope_refs@, now, i + 1, scopes@.len() as int);
                    }
                    return Err(e);
                },
                Ok(()) => {},
            }
            let s = &scopes[i];
            if s.expires_at > grant.expires_at || s.expires_at <= now || !all_verbs_granted(&grant, s)
                || scope_repeats(&scopes, i) {
                proof {
                    lemma_first_scope_error_stable(grant, scopes@, scope_refs@, now, i + 1, scopes@.len() as int);
                }
                return Err(AppError::InvalidInput("Network scope binding widens or duplicates its grant."));
            }
            i = i + 1;
        }
        let mut i: usize = 0;
        while i < destinations.len()
            invariant
                self.wf(),
                self.spec_grants() == old(self).spec_grants(),
                self.spec_revoked() == old(self).spec_revoked(),
                available,
                scopes@.len() > 0,
                destinations@.len() > 0,
                first_scope_error(grant, scopes@, scope_refs@, now, scopes@.len() as int) is None,
                forall|a: int, b: int|
                    0 <= a < b < scopes@.len() ==> #[trigger] scopes@[a].scope_ref@ != #[trigger] scopes@[b].scope_ref@,
                forall|k: int| 0 <= k < scopes@.len() ==> verbs_granted(grant, #[trigger] scopes@[k]),
                destination_refs@.len() == destinations@.len(),
                i <= destinations@.len(),
                first_destination_error(grant, destinations@, destination_refs@, now, i as int) is None,
                forall|a: int, b: int|
                    0 <= a < b < i ==> #[trigger] destinations@[a].destination_ref@
                        != #[trigger] destinations@[b].destination_ref@,
            decreases destinations@.len() - i,
        {
            let checked = destinations[i].validate_identity(destination_refs[i].as_str());
            match checked {
                Err(e) => {
                    proof {
                        lemma_first_destination_error_stable(
                            grant,
                            destinations@,
                            destination_refs@,
                            now,
                            i + 1,
                            destinations@.len() as int,
                        );
                    }
                    return Err(e);
                },
                Ok(()) => {},
            }
            let d = &destinations[i];
            if d.expires_at > grant.expires_at || d.expires_at <= now || destination_repeats(&destinations, i) {
                proof {
                    lemma_first_destination_error_stable(
                        grant,
                        destinations@,
                        destination_refs@,
                        now,
                        i + 1,
                        destinations@.len() as int,
                    );
                }
                return Err(AppError::InvalidInput("Network destination binding widens or duplicates its grant."));
            }
            i = i + 1;
        }
        if !topology_check(&grant, &owner, &scopes, &destinations) {
            return Err(AppError::InvalidInput("Host-resolved network topology does not exactly match the grant."));
        }
        if contains_text(&self.revoked_runs, owner.run_ref.as_str()) || self.find_grant(
            owner.run_ref.as_str(),
        ).is_some() {
            return Err(AppError::InvalidInput("Network grant is revoked or already provisioned."));
        }
        let ghost before = self.spec_grants();
        self.grants.push(
            ProvisionedGrantV1 {
                owner,
                grant,
                scopes,
                destinations,
                resolutions: Vec::new(),
                staged: Vec::new(),
            },
        );
        proof {
            let gs = self.spec_grants();
            assert(gs.drop_last() =~= before);
            assert forall|i: int, j: int| 0 <= i < j < gs.len() implies #[trigger] gs[i].owner.run_ref@
                != #[trigger] gs[j].owner.run_ref@ by {
                if j == gs.len() - 1 {
                    assert(!grant_at(before, i, gs[j].owner.run_ref@));
                } else {
                    assert(gs[i] == before[i] && gs[j] == before[j]);
                }
            }
            assert forall|i: int| 0 <= i < gs.len() implies record_ok(#[trigger] gs[i]) by {
                if i < gs.len() - 1 {
                    assert(gs[i] == before[i]);
                }
            }
            assert forall|i: int| 0 <= i < gs.len() implies !text_in(self.spec_revoked(), (#[trigger] gs[i]).owner.run_ref@) by {
                if i < gs.len() - 1 {
                    assert(gs[i] == before[i]);
                }
            }
        }
        Ok(())
    }
}

/// Which grants a revocation reaches: one run's, those of a Bridge or a
/// session, all, or those expired at a time.
#[derive(Clone, Debug, PartialEq, Eq)]
pub enum NetworkRevocationV1 {
    Run(String),
    Bridge(String),
    Session(String),
    All,
    ExpiredAt(i64),
}

pub open spec fn revocation_reaches(g: ProvisionedGrantV1, scope: NetworkRevocationV1) -> bool {
    match scope {
        NetworkRevocationV1::Run(r) => g.owner.run_ref@ == r@,
        NetworkRevocationV1::Bridge(b) => g.owner.bridge_id@ == b@,
        NetworkRevocationV1::Session(s) => g.owner.session_binding_ref@ == s@,
        NetworkRevocationV1::All => true,
        NetworkRevocationV1::ExpiredAt(now) => g.grant.expires_at <= now,
    }
}

/// The grants of `gs` a revocation in `scope` leaves, in order.
pub open spec fn kept(gs: Seq<ProvisionedGrantV1>, scope: NetworkRevocationV1) -> Seq<ProvisionedGrantV1>
    decreases gs.len(),
{
    if gs.len() == 0 {
        seq![]
    } else {
        let rest = kept(gs.drop_last(), scope);
        if revocation_reaches(gs.last(), scope) {
            rest
        } else {
            rest.push(gs.last())
        }
    }
}

/// The runs of the grants of `gs` a revocation in `scope` reaches, in order.
pub open spec fn reached_runs(gs: Seq<ProvisionedGrantV1>, scope: NetworkRevocationV1) -> Seq<Seq<char>>
    decreases gs.len(),
{
    if gs.len() == 0 {
        seq![]
    } else {
        let rest = reached_runs(gs.drop_last(), scope);
        if revocation_reaches(gs.last(), scope) {
            rest.push(gs.last().owner.run_ref@)
        } else {
            rest
        }
    }
}

pub open spec fn texts_view(v: Seq<String>) -> Seq<Seq<char>> {
    v.map_values(|s: String| s@)
}

/// `kept` keeps only grants of `gs`, each once, in order.
proof fn lemma_kept_sub(gs: Seq<ProvisionedGrantV1>, scope: NetworkRevocationV1)
    ensures
        forall|i: int| 0 <= i < kept(gs, scope).len() ==> exists|j: int| 0 <= j < gs.len() && #[trigger] kept(gs, scope)[i] == gs[j] && !revocation_reaches(gs[j], scope),
        forall|j: int| 0 <= j < gs.len() && !revocation_reaches(#[trigger] gs[j], scope) ==> kept(gs, scope).contains(gs[j]),
        forall|i: int| 0 <= i < reached_runs(gs, scope).len() ==> exists|j: int| 0 <= j < gs.len() && #[trigger] reached_runs(gs, scope)[i] == gs[j].owner.run_ref@ && revocation_reaches(gs[j], scope),
        forall|j: int| 0 <= j < gs.len() && revocation_reaches(#[trigger] gs[j], scope) ==> reached_runs(gs, scope).contains(gs[j].owner.run_ref@),
        kept(gs, scope).len() + reached_runs(gs, scope).len() == gs.len(),
    decreases gs.len(),
{
    if gs.len() > 0 {
        let init = gs.drop_last();
        lemma_kept_sub(init, scope);
        let k = kept(gs, scope);
        let r = reached_runs(gs, scope);
        assert forall|i: int| 0 <= i < k.len() implies exists|j: int| 0 <= j < gs.len() && #[trigger] k[i] == gs[j] && !revocation_reaches(gs[j], scope) by {
            if i < kept(init, scope).len() {
                let j = choose|j: int| 0 <= j < init.len() && #[trigger] kept(init, scope)[i] == init[j] && !revocation_reaches(init[j], scope);
                assert(k[i] == gs[j]);
            } else {
                assert(k[i] == gs[gs.len() - 1]);
            }
        }
        assert forall|j: int| 0 <= j < gs.len() && !revocation_reaches(#[trigger] gs[j], scope) implies k.contains(gs[j]) by {
            if j < gs.len() - 1 {
                assert(init[j] == gs[j]);
                assert(kept(init, scope).contains(init[j]));
                let w = choose|w: int| 0 <= w < kept(init, scope).len() && kept(init, scope)[w] == init[j];
                assert(k[w] == gs[j]);
            } else {
                assert(k[k.len() - 1] == gs[j]);
            }
        }
        assert forall|i: int| 0 <= i < r.len() implies exists|j: int| 0 <= j < gs.len() && #[trigger] r[i] == gs[j].owner.run_ref@ && revocation_reaches(gs[j], scope) by {
            if i < reached_runs(init, scope).len() {
                let j = choose|j: int| 0 <= j < init.len() && #[trigger] reached_runs(init, scope)[i] == init[j].owner.run_ref@ && revocation_reaches(init[j], scope);
                assert(r[i] == gs[j].owner.run_ref@);
            } else {
                assert(r[i] == gs[gs.len() - 1].owner.run_ref@);
            }
        }
        assert forall|j: int| 0 <= j < gs.len() && revocation_reaches(#[trigger] gs[j], scope) implies r.contains(gs[j].owner.run_ref@) by {
            if j < gs.len() - 1 {
                assert(init[j] == gs[j]);
                assert(reached_runs(init, scope).contains(init[j].owner.run_ref@));
                let w = choose|w: int| 0 <= w < reached_runs(init, scope).len() && reached_runs(init, scope)[w] == init[j].owner.run_ref@;
                assert(r[w] == gs[j].owner.run_ref@);
            } else {
                assert(r[r.len() - 1] == gs[j].owner.run_ref@);
            }
        }
    }
}

fn reaches(g: &ProvisionedGrantV1, scope: &NetworkRevocationV1) -> (b: bool)
    ensures
        b == revocation_reaches(*g, *scope),
{
    match scope {
        NetworkRevocationV1::Run(r) => same_text(g.owner.run_ref.as_str(), r.as_str()),
        NetworkRevocationV1::Bridge(b) => same_text(g.owner.bridge_id.as_str(), b.as_str()),
        NetworkRevocationV1::Session(s) => same_text(g.owner.session_binding_ref.as_str(), s.as_str()),
        NetworkRevocationV1::All => true,
        NetworkRevocationV1::ExpiredAt(now) => g.grant.expires_at <= *now,
    }
}

impl NetworkBrokerLedgerV1 {
    /// Revokes every grant in `scope`: its run is recorded revoked for good
    /// and everything it held (bindings, pinned resolutions, staged
    /// requests) is dropped. Gives the runs revoked, in grant order; the
    /// Host closes whatever sockets they own.
    pub fn revoke(&mut self, scope: &NetworkRevocationV1) -> (runs: Vec<String>)
        requires
            old(self).wf(),
        ensures
            final(self).wf(),
            old(self).evolves_to(&*final(self)),
            final(self).spec_grants() == kept(old(self).spec_grants(), *scope),
            texts_view(runs@) == reached_runs(old(self).spec_grants(), *scope),
            texts_view(final(self).spec_revoked()) == texts_view(old(self).spec_revoked()) + reached_runs(
                old(self).spec_grants(),
                *scope,
            ),
    {
        let ghost gs0 = self.spec_grants();
        let ghost rv0 = self.spec_revoked();
        let mut rest: Vec<ProvisionedGrantV1> = Vec::new();
        std::mem::swap(&mut rest, &mut self.grants);
        let mut runs: Vec<String> = Vec::new();
        let mut n: usize = 0;
        let total = rest.len();
        while rest.len() > 0
            invariant
                total == gs0.len(),
                n + rest@.len() == total,
                rest@ == gs0.subrange(n as int, total as int),
                self.grants@ == kept(gs0.take(n as int), *scope),
                texts_view(runs@) == reached_runs(gs0.take(n as int), *scope),
                texts_view(self.revoked_runs@) == texts_view(rv0) + reached_runs(gs0.take(n as int), *scope),
            decreases rest@.len(),
        {
            let g = rest.remove(0);
            proof {
                assert(g == gs0[n as int]);
                assert(gs0.take(n + 1).drop_last() =~= gs0.take(n as int));
                assert(gs0.take(n + 1).last() == g);
            }
            if reaches(&g, scope) {
                let ghost rv_before = self.revoked_runs@;
                let ghost runs_before = runs@;
                self.revoked_runs.push(g.owner.run_ref.clone());
                runs.push(g.owner.run_ref.clone());
                proof {
                    assert(texts_view(self.revoked_runs@) =~= texts_view(rv_before).push(g.owner.run_ref@));
                    assert(texts_view(runs@) =~= texts_view(runs_before).push(g.owner.run_ref@));
                }
            } else {
                self.grants.push(g);
            }
            n = n + 1;
            proof {
                assert(rest@ =~= gs0.subrange(n as int, total as int));
            }
        }
        proof {
            assert(gs0.take(n as int) =~= gs0);
            lemma_kept_sub(gs0, *scope);
            let gs = self.spec_grants();
            assert forall|i: int| 0 <= i < gs.len() implies record_ok(#[trigger] gs[i]) && !text_in(self.spec_revoked(), gs[i].owner.run_ref@) by {
                let j = choose|j: int| 0 <= j < gs0.len() && #[trigger] kept(gs0, *scope)[i] == gs0[j] && !revocation_reaches(gs0[j], *scope);
                assert(record_ok(gs0[j]));
                assert(!text_in(rv0, gs0[j].owner.run_ref@));
                if text_in(self.spec_revoked(), gs[i].owner.run_ref@) {
                    let w = choose|w: int| 0 <= w < self.spec_revoked().len() && #[trigger] self.spec_revoked()[w]@ == gs[i].owner.run_ref@;
                    assert(texts_view(self.spec_revoked())[w] == gs[i].owner.run_ref@);
                    if w < rv0.len() {
                        assert(texts_view(rv0)[w] == rv0[w]@);
                    } else {
                        let x = reached_runs(gs0, *scope)[w - rv0.len()];
                        assert(x == gs[i].owner.run_ref@);
                        let q = choose|q: int| 0 <= q < gs0.len() && #[trigger] reached_runs(gs0, *scope)[w - rv0.len()] == gs0[q].owner.run_ref@ && revocation_reaches(gs0[q], *scope);
                        if q < j {
                            assert(gs0[q].owner.run_ref@ != gs0[j].owner.run_ref@);
                        } else if j < q {
                            assert(gs0[j].owner.run_ref@ != gs0[q].owner.run_ref@);
                        }
                    }
                }
            }
            lemma_kept_distinct(gs0, *scope);
            assert((texts_view(rv0) + reached_runs(gs0, *scope)).subrange(0, texts_view(rv0).len() as int)
                =~= texts_view(rv0));
        }
        runs
    }
}

/// What a revocation keeps keeps its runs distinct.
proof fn lemma_kept_distinct(gs: Seq<ProvisionedGrantV1>, scope: NetworkRevocationV1)
    requires
        forall|i: int, j: int| 0 <= i < j < gs.len() ==> #[trigger] gs[i].owner.run_ref@ != #[trigger] gs[j].owner.run_ref@,
    ensures
        forall|i: int, j: int|
            0 <= i < j < kept(gs, scope).len() ==> #[trigger] kept(gs, scope)[i].owner.run_ref@
                != #[trigger] kept(gs, scope)[j].owner.run_ref@,
    decreases gs.len(),
{
    if gs.len() > 0 {
        let init = gs.drop_last();
        lemma_kept_distinct(init, scope);
        lemma_kept_sub(init, scope);
        let k = kept(gs, scope);
        if !revocation_reaches(gs.last(), scope) {
            assert forall|i: int, j: int| 0 <= i < j < k.len() implies #[trigger] k[i].owner.run_ref@ != #[trigger] k[j].owner.run_ref@ by {
                if j == k.len() - 1 {
                    let w = choose|w: int| 0 <= w < init.len() && #[trigger] kept(init, scope)[i] == init[w] && !revocation_reaches(init[w], scope);
                    assert(gs[w].owner.run_ref@ != gs[gs.len() - 1].owner.run_ref@);
                } else {
                    assert(k[i] == kept(init, scope)[i] && k[j] == kept(init, scope)[j]);
                }
            }
        }
    }
}

/// The decimal digits of `n`.
pub open spec fn decimal(n: nat) -> Seq<u8>
    decreases n,
{
    if n < 10 {
        seq![(48 + n) as u8]
    } else {
        decimal(n / 10).push((48 + n % 10) as u8)
    }
}

pub fn put_decimal(buf: &mut Vec<u8>, n: u64)
    ensures
        final(buf)@ == old(buf)@ + decimal(n as nat),
    decreases n,
{
    if n >= 10 {
        put_decimal(buf, n / 10);
    }
    let ghost before = buf@;
    buf.push(48 + (n % 10) as u8);
    proof {
        if n >= 10 {
            assert(buf@ =~= old(buf)@ + decimal(n as nat));
        } else {
            assert(buf@ =~= old(buf)@ + decimal(n as nat));
        }
    }
}

/// The reference of a value serialized as `payload` under `domain`.
pub open spec fn domain_digest(domain: Seq<char>, payload: Seq<u8>) -> Seq<char> {
    domain + ":"@ + lower_hex(blake3_digest(utf8(domain) + seq![0u8] + payload))
}

/// The canonical JSON of a staged exchange's digest pair: the hexadecimal
/// BLAKE3 hash of its request bytes, and its most response bytes.
pub open spec fn exchange_pair_json(e: StagedNetworkExchangeV1) -> Seq<u8> {
    utf8("[\""@) + utf8(lower_hex(blake3_digest(e.request_bytes@))) + utf8("\","@) + decimal(
        e.max_response_bytes as nat,
    ) + utf8("]"@)
}

/// The digest a staged exchange is declared under.
pub open spec fn exchange_digest(e: StagedNetworkExchangeV1) -> Seq<char> {
    domain_digest("pastey-network-request-bytes-v1"@, exchange_pair_json(e))
}

/// The digest of staged exchange `e`.
pub fn staged_request_digest(e: &StagedNetworkExchangeV1) -> (r: String)
    ensures
        r@ == exchange_digest(*e),
{
    let bytes_hex = blake3_hex(e.request_bytes.as_slice());
    let mut payload: Vec<u8> = Vec::new();
    append_bytes(&mut payload, as_bytes("[\""));
    append_bytes(&mut payload, as_bytes(bytes_hex.as_str()));
    append_bytes(&mut payload, as_bytes("\","));
    put_decimal(&mut payload, e.max_response_bytes);
    append_bytes(&mut payload, as_bytes("]"));
    assert(payload@ =~= exchange_pair_json(*e));
    let mut input: Vec<u8> = Vec::new();
    append_bytes(&mut input, as_bytes("pastey-network-request-bytes-v1"));
    input.push(0u8);
    append_bytes(&mut input, payload.as_slice());
    assert(input@ =~= utf8("pastey-network-request-bytes-v1"@) + seq![0u8] + exchange_pair_json(*e));
    let hex = blake3_hex(input.as_slice());
    String::from_str("pastey-network-request-bytes-v1").concat(":").concat(hex.as_str())
}

/// Two owners with the same identities in every field.
pub open spec fn same_owner(a: NetworkOwnerV1, b: NetworkOwnerV1) -> bool {
    &&& a.envelope_ref@ == b.envelope_ref@
    &&& a.run_ref@ == b.run_ref@
    &&& a.context_ref@ == b.context_ref@
    &&& a.host_ref@ == b.host_ref@
    &&& a.bridge_id@ == b.bridge_id@
    &&& a.session_binding_ref@ == b.session_binding_ref@
}

/// Two grants equal in every field.
pub open spec fn same_grant(a: NetworkGrantV1, b: NetworkGrantV1) -> bool {
    &&& a.context_ref@ == b.context_ref@
    &&& a.run_control_ref@ == b.run_control_ref@
    &&& a.host_ref@ == b.host_ref@
    &&& texts_view(a.scope_refs@) == texts_view(b.scope_refs@)
    &&& a.allowed_verbs@ == b.allowed_verbs@
    &&& texts_view(a.destination_refs@) == texts_view(b.destination_refs@)
    &&& a.budgets_ref@ == b.budgets_ref@
    &&& a.expires_at == b.expires_at
}

fn owner_same(a: &NetworkOwnerV1, b: &NetworkOwnerV1) -> (r: bool)
    ensures
        r == same_owner(*a, *b),
{
    same_text(a.envelope_ref.as_str(), b.envelope_ref.as_str()) && same_text(a.run_ref.as_str(), b.run_ref.as_str())
        && same_text(a.context_ref.as_str(), b.context_ref.as_str()) && same_text(
        a.host_ref.as_str(),
        b.host_ref.as_str(),
    ) && same_text(a.bridge_id.as_str(), b.bridge_id.as_str()) && same_text(
        a.session_binding_ref.as_str(),
        b.session_binding_ref.as_str(),
    )
}

fn same_texts(a: &Vec<String>, b: &Vec<String>) -> (r: bool)
    ensures
        r == (texts_view(a@) == texts_view(b@)),
{
    if a.len() != b.len() {
        proof {
            assert(texts_view(a@).len() != texts_view(b@).len());
        }
        return false;
    }
    let mut i: usize = 0;
    while i < a.len()
        invariant
            a@.len() == b@.len(),
            i <= a@.len(),
            forall|k: int| 0 <= k < i ==> #[trigger] a@[k]@ == b@[k]@,
        decreases a@.len() - i,
    {
        if !same_text(a[i].as_str(), b[i].as_str()) {
            proof {
                assert(texts_view(a@)[i as int] != texts_view(b@)[i as int]);
            }
            return false;
        }
        i = i + 1;
    }
    assert(texts_view(a@) =~= texts_view(b@));
    true
}

fn same_verbs(a: &Vec<NetworkVerbV1>, b: &Vec<NetworkVerbV1>) -> (r: bool)
    ensures
        r == (a@ == b@),
{
    if a.len() != b.len() {
        return false;
    }
    let mut i: usize = 0;
    while i < a.len()
        invariant
            a@.len() == b@.len(),
            i <= a@.len(),
            forall|k: int| 0 <= k < i ==> a@[k] == b@[k],
        decreases a@.len() - i,
    {
        if a[i] != b[i] {
            return false;
        }
        i = i + 1;
    }
    assert(a@ =~= b@);
    true
}

fn grant_same(a: &NetworkGrantV1, b: &NetworkGrantV1) -> (r: bool)
    ensures
        r == same_grant(*a, *b),
{
    same_text(a.context_ref.as_str(), b.context_ref.as_str()) && same_text(
        a.run_control_ref.as_str(),
        b.run_control_ref.as_str(),
    ) && same_text(a.host_ref.as_str(), b.host_ref.as_str()) && same_texts(&a.scope_refs, &b.scope_refs)
        && same_verbs(&a.allowed_verbs, &b.allowed_verbs) && same_texts(
        &a.destination_refs,
        &b.destination_refs,
    ) && same_text(a.budgets_ref.as_str(), b.budgets_ref.as_str()) && a.expires_at == b.expires_at
}

pub open spec fn scope_at(r: ProvisionedGrantV1, i: int, id: Seq<char>) -> bool {
    0 <= i < r.scopes@.len() && r.scopes@[i].scope_ref@ == id
}

pub open spec fn destination_at(r: ProvisionedGrantV1, i: int, id: Seq<char>) -> bool {
    0 <= i < r.destinations@.len() && r.destinations@[i].destination_ref@ == id
}

pub open spec fn scope_index(r: ProvisionedGrantV1, id: Seq<char>) -> int {
    choose|i: int| scope_at(r, i, id)
}

pub open spec fn destination_index(r: ProvisionedGrantV1, id: Seq<char>) -> int {
    choose|i: int| destination_at(r, i, id)
}

pub open spec fn is_staged(r: ProvisionedGrantV1, id: Seq<char>) -> bool {
    exists|i: int| 0 <= i < r.staged@.len() && #[trigger] r.staged@[i].request.request_id@ == id
}

/// The effect a request asks for.
pub open spec fn effect_of(q: NetworkRequestV1) -> NetworkEffectV1 {
    NetworkEffectV1 {
        verb: q.verb,
        resolution_generation_ref: q.resolution_generation_ref,
        request_digest: q.request_digest,
    }
}

/// Why request `q` of `owner`, under the grant the authority currently
/// holds (`current`), with budget slice `budget` and staged exchange
/// `exchange`, is not staged at `now` among grants `gs`, in the order the
/// checks are made.
pub open spec fn prepare_blocker(
    gs: Seq<ProvisionedGrantV1>,
    q: NetworkRequestV1,
    owner: NetworkOwnerV1,
    current: NetworkGrantV1,
    budget: NetworkBudgetSliceV1,
    exchange: Option<StagedNetworkExchangeV1>,
    now: i64,
) -> Option<&'static str> {
    let rec = gs[grant_index(gs, owner.run_ref@)];
    let scope = rec.scopes@[scope_index(rec, q.scope_ref@)];
    let dest = rec.destinations@[destination_index(rec, q.destination_ref@)];
    if !(budget.requests == 1 && budget.network_time_millis != 0) {
        Some("Network effect requires one request and a non-zero time budget.")
    } else if !budget_shape_ok(q.verb, budget, exchange) {
        Some("Network budget slice is inconsistent with the exact broker verb.")
    } else if exchange is Some && (exchange.unwrap().request_bytes@.len() > MAX_STAGED_REQUEST_BYTES || !(
    q.request_digest is Some && q.request_digest.unwrap()@ == exchange_digest(exchange.unwrap()))) {
        Some("Staged network request bytes are oversized or mismatched.")
    } else if exchange is None && q.request_digest is Some {
        Some("Network request bytes were not staged.")
    } else if !has_grant(gs, owner.run_ref@) {
        Some("Network grant resolution is unavailable.")
    } else if !same_owner(rec.owner, owner) {
        Some("Brokered network request owner context was substituted.")
    } else if !(exists|i: int| #[trigger] scope_at(rec, i, q.scope_ref@)) {
        Some("Network scope resolution is unavailable.")
    } else if !(exists|i: int| #[trigger] destination_at(rec, i, q.destination_ref@)) {
        Some("Network destination resolution is unavailable.")
    } else if !same_grant(current, rec.grant) || scope.expires_at <= now || dest.expires_at <= now
        || !scope.allowed_verbs@.contains(q.verb) || !scope.transports@.contains(dest.transport)
        || q.transport_ref@ != TCP_TRANSPORT_REF@ || is_staged(rec, q.request_id@) {
        Some("Network request widens, substitutes, or replays its binding.")
    } else if !effect_aligned(scope, dest, effect_of(q)) {
        Some("Network verb, DNS, and destination scope are not independently aligned.")
    } else {
        None
    }
}

impl NetworkBrokerLedgerV1 {
    proof fn lemma_scope_unique(&self, gi: int, i: int, j: int, id: Seq<char>)
        requires
            self.wf(),
            0 <= gi < self.spec_grants().len(),
            scope_at(self.spec_grants()[gi], i, id),
            scope_at(self.spec_grants()[gi], j, id),
        ensures
            i == j,
    {
        let r = self.spec_grants()[gi];
        assert(record_ok(r));
        if i < j {
            assert(r.scopes@[i].scope_ref@ != r.scopes@[j].scope_ref@);
        } else if j < i {
            assert(r.scopes@[j].scope_ref@ != r.scopes@[i].scope_ref@);
        }
    }

    proof fn lemma_destination_unique(&self, gi: int, i: int, j: int, id: Seq<char>)
        requires
            self.wf(),
            0 <= gi < self.spec_grants().len(),
            destination_at(self.spec_grants()[gi], i, id),
            destination_at(self.spec_grants()[gi], j, id),
        ensures
            i == j,
    {
        let r = self.spec_grants()[gi];
        assert(record_ok(r));
        if i < j {
            assert(r.destinations@[i].destination_ref@ != r.destinations@[j].destination_ref@);
        } else if j < i {
            assert(r.destinations@[j].destination_ref@ != r.destinations@[i].destination_ref@);
        }
    }

    fn find_scope(&self, gi: usize, id: &str) -> (r: Option<usize>)
        requires
            self.wf(),
            gi < self.spec_grants().len(),
        ensures
            r matches Some(i) ==> scope_at(self.spec_grants()[gi as int], i as int, id@) && i as int == scope_index(
                self.spec_grants()[gi as int],
                id@,
            ),
            r is None ==> !(exists|i: int| #[trigger] scope_at(self.spec_grants()[gi as int], i, id@)),
    {
        let v = &self.grants[gi].scopes;
        let mut i: usize = 0;
        while i < v.len()
            invariant
                self.wf(),
                gi < self.spec_grants().len(),
                v@ == self.spec_grants()[gi as int].scopes@,
                i <= v@.len(),
                forall|k: int| 0 <= k < i ==> !#[trigger] scope_at(self.spec_grants()[gi as int], k, id@),
            decreases v@.len() - i,
        {
            if same_text(v[i].scope_ref.as_str(), id) {
                proof {
                    assert(scope_at(self.spec_grants()[gi as int], i as int, id@));
                    let c = scope_index(self.spec_grants()[gi as int], id@);
                    assert(scope_at(self.spec_grants()[gi as int], c, id@));
                    self.lemma_scope_unique(gi as int, i as int, c, id@);
                }
                return Some(i);
            }
            i = i + 1;
        }
        None
    }

    fn find_destination(&self, gi: usize, id: &str) -> (r: Option<usize>)
        requires
            self.wf(),
            gi < self.spec_grants().len(),
        ensures
            r matches Some(i) ==> destination_at(self.spec_grants()[gi as int], i as int, id@) && i as int
                == destination_index(self.spec_grants()[gi as int], id@),
            r is None ==> !(exists|i: int| #[trigger] destination_at(self.spec_grants()[gi as int], i, id@)),
    {
        let v = &self.grants[gi].destinations;
        let mut i: usize = 0;
        while i < v.len()
            invariant
                self.wf(),
                gi < self.spec_grants().len(),
                v@ == self.spec_grants()[gi as int].destinations@,
                i <= v@.len(),
                forall|k: int| 0 <= k < i ==> !#[trigger] destination_at(self.spec_grants()[gi as int], k, id@),
            decreases v@.len() - i,
        {
            if same_text(v[i].destination_ref.as_str(), id) {
                proof {
                    assert(destination_at(self.spec_grants()[gi as int], i as int, id@));
                    let c = destination_index(self.spec_grants()[gi as int], id@);
                    assert(destination_at(self.spec_grants()[gi as int], c, id@));
                    self.lemma_destination_unique(gi as int, i as int, c, id@);
                }
                return Some(i);
            }
            i = i + 1;
        }
        None
    }

    fn find_staged(&self, gi: usize, id: &str) -> (r: Option<usize>)
        requires
            gi < self.spec_grants().len(),
        ensures
            r matches Some(i) ==> i < self.spec_grants()[gi as int].staged@.len()
                && self.spec_grants()[gi as int].staged@[i as int].request.request_id@ == id@,
            r is None ==> !is_staged(self.spec_grants()[gi as int], id@),
    {
        let v = &self.grants[gi].staged;
        let mut i: usize = 0;
        while i < v.len()
            invariant
                gi < self.spec_grants().len(),
                v@ == self.spec_grants()[gi as int].staged@,
                i <= v@.len(),
                forall|k: int| 0 <= k < i ==> #[trigger] v@[k].request.request_id@ != id@,
            decreases v@.len() - i,
        {
            if same_text(v[i].request.request_id.as_str(), id) {
                return Some(i);
            }
            i = i + 1;
        }
        None
    }

    /// Stages request `request` of `owner` for exactly one apply, at `now`,
    /// under the grant its authority currently holds (`current`), with
    /// budget slice `budget` and staged exchange `exchange`. First every
    /// grant expired at `now` is revoked; then the request must have the
    /// exact budget shape of its verb, carry exactly the bytes its digest
    /// declares, come from the grant's own owner, name a scope and a
    /// destination of the grant, stay inside them and the unchanged grant,
    /// not repeat a staged request, and align its verb with both.
    pub fn prepare_request(
        &mut self,
        request: NetworkRequestV1,
        owner: &NetworkOwnerV1,
        current: &NetworkGrantV1,
        budget: &NetworkBudgetSliceV1,
        exchange: Option<StagedNetworkExchangeV1>,
        now: i64,
    ) -> (r: AppResult<()>)
        requires
            old(self).wf(),
            exchange matches Some(e) ==> e.request_bytes@.len() + e.max_response_bytes <= u64::MAX,
        ensures
            final(self).wf(),
            old(self).evolves_to(&*final(self)),
            texts_view(final(self).spec_revoked()) == texts_view(old(self).spec_revoked()) + reached_runs(
                old(self).spec_grants(),
                NetworkRevocationV1::ExpiredAt(now),
            ),
            ({
                let gs1 = kept(old(self).spec_grants(), NetworkRevocationV1::ExpiredAt(now));
                match prepare_blocker(gs1, request, *owner, *current, *budget, exchange, now) {
                    Some(m) => r == Err::<(), AppError>(AppError::InvalidInput(m)) && final(self).spec_grants() == gs1,
                    None => {
                        let gi = grant_index(gs1, owner.run_ref@);
                        let after = final(self).spec_grants();
                        &&& r is Ok
                        &&& after.len() == gs1.len()
                        &&& forall|j: int| 0 <= j < after.len() && j != gi ==> #[trigger] after[j] == gs1[j]
                        &&& after[gi].owner == gs1[gi].owner
                        &&& after[gi].grant == gs1[gi].grant
                        &&& after[gi].scopes == gs1[gi].scopes
                        &&& after[gi].destinations == gs1[gi].destinations
                        &&& after[gi].resolutions == gs1[gi].resolutions
                        &&& after[gi].staged@ == gs1[gi].staged@.push(
                            StagedRequestV1 { request, exchange, logical_now: now },
                        )
                    },
                }
            }),
    {
        let _expired = self.revoke(&NetworkRevocationV1::ExpiredAt(now));
        let ghost gs1 = self.spec_grants();
        match validate_network_budget_shape(request.verb, budget, exchange.as_ref()) {
            Err(e) => {
                return Err(e);
            },
            Ok(()) => {},
        }
        match &exchange {
            Some(e) => {
                let declared = match &request.request_digest {
                    Some(d) => same_text(d.as_str(), staged_request_digest(e).as_str()),
                    None => false,
                };
                if e.request_bytes.len() > MAX_STAGED_REQUEST_BYTES || !declared {
                    return Err(AppError::InvalidInput("Staged network request bytes are oversized or mismatched."));
                }
            },
            None => {
                if request.request_digest.is_some() {
                    return Err(AppError::InvalidInput("Network request bytes were not staged."));
                }
            },
        }
        let gi = match self.find_grant(owner.run_ref.as_str()) {
            Some(gi) => gi,
            None => {
                return Err(AppError::InvalidInput("Network grant resolution is unavailable."));
            },
        };
        if !owner_same(&self.grants[gi].owner, owner) {
            return Err(AppError::InvalidInput("Brokered network request owner context was substituted."));
        }
        let si = match self.find_scope(gi, request.scope_ref.as_str()) {
            Some(si) => si,
            None => {
                return Err(AppError::InvalidInput("Network scope resolution is unavailable."));
            },
        };
        let di = match self.find_destination(gi, request.destination_ref.as_str()) {
            Some(di) => di,
            None => {
                return Err(AppError::InvalidInput("Network destination resolution is unavailable."));
            },
        };
        let rec = &self.grants[gi];
        let scope = &rec.scopes[si];
        let dest = &rec.destinations[di];
        let substituted = !grant_same(current, &rec.grant) || scope.expires_at <= now || dest.expires_at <= now
            || !contains_verb(&scope.allowed_verbs, request.verb) || !contains_transport(
            &scope.transports,
            dest.transport,
        ) || !same_text(request.transport_ref.as_str(), dest.transport.transport_ref()) || self.find_staged(
            gi,
            request.request_id.as_str(),
        ).is_some();
        if substituted {
            return Err(AppError::InvalidInput("Network request widens, substitutes, or replays its binding."));
        }
        let effect = NetworkEffectV1 {
            verb: request.verb,
            resolution_generation_ref: copy_option(&request.resolution_generation_ref),
            request_digest: copy_option(&request.request_digest),
        };
        match validate_scope_for_effect(scope, dest, &effect) {
            Err(e) => {
                return Err(e);
            },
            Ok(()) => {},
        }
        let ghost before = self.spec_grants();
        let ghost rec0 = before[gi as int];
        self.grants[gi].staged.push(StagedRequestV1 { request, exchange, logical_now: now });
        proof {
            let gs = self.spec_grants();
            assert forall|i: int, j: int| 0 <= i < j < gs.len() implies #[trigger] gs[i].owner.run_ref@
                != #[trigger] gs[j].owner.run_ref@ by {
                assert(gs[i].owner == before[i].owner && gs[j].owner == before[j].owner);
            }
            assert forall|i: int| 0 <= i < gs.len() implies record_ok(#[trigger] gs[i]) by {
                if i == gi {
                    let r = gs[i];
                    assert(record_ok(rec0));
                    assert forall|a: int, b: int| 0 <= a < b < r.staged@.len() implies #[trigger] r.staged@[a].request.request_id@
                        != #[trigger] r.staged@[b].request.request_id@ by {
                        if b == r.staged@.len() - 1 {
                            assert(r.staged@[a] == rec0.staged@[a]);
                        } else {
                            assert(r.staged@[a] == rec0.staged@[a] && r.staged@[b] == rec0.staged@[b]);
                        }
                    }
                } else {
                    assert(gs[i] == before[i]);
                }
            }
            assert forall|i: int| 0 <= i < gs.len() implies !text_in(self.spec_revoked(), (#[trigger] gs[i]).owner.run_ref@) by {
                assert(gs[i].owner == before[i].owner);
            }
        }
        Ok(())
    }
}

fn contains_transport(v: &Vec<NetworkTransportV1>, x: NetworkTransportV1) -> (b: bool)
    ensures
        b == v@.contains(x),
{
    let mut i: usize = 0;
    while i < v.len()
        invariant
            i <= v@.len(),
            forall|k: int| 0 <= k < i ==> v@[k] != x,
        decreases v@.len() - i,
    {
        if v[i] == x {
            return true;
        }
        i = i + 1;
    }
    false
}

fn copy_option(s: &Option<String>) -> (r: Option<String>)
    ensures
        r is Some == s is Some,
        r matches Some(x) ==> x@ == s.unwrap()@,
{
    match s {
        Some(x) => Some(x.clone()),
        None => None,
    }
}

/// A precondition that a connection uses exactly one pinned resolution
/// generation of one scope.
#[derive(Clone, Debug, PartialEq, Eq)]
pub struct GenerationPreconditionV1 {
    pub scope_ref: String,
    pub generation_ref: String,
}

pub open spec fn pin_at(r: ProvisionedGrantV1, i: int, destination: Seq<char>) -> bool {
    0 <= i < r.resolutions@.len() && r.resolutions@[i].destination_ref@ == destination
}

pub open spec fn has_pin(r: ProvisionedGrantV1, destination: Seq<char>) -> bool {
    exists|i: int| #[trigger] pin_at(r, i, destination)
}

pub open spec fn pin_index(r: ProvisionedGrantV1, destination: Seq<char>) -> int {
    choose|i: int| pin_at(r, i, destination)
}

/// The pinned resolutions after pinning `p`: it replaces the pin of its
/// destination, or joins the others.
pub open spec fn pins_after(r: ProvisionedGrantV1, p: ResolutionPinV1) -> Seq<ResolutionPinV1> {
    if has_pin(r, p.destination_ref@) {
        r.resolutions@.update(pin_index(r, p.destination_ref@), p)
    } else {
        r.resolutions@.push(p)
    }
}

/// Some precondition names exactly the scope and generation of pin `p`.
pub open spec fn pin_required(pre: Seq<GenerationPreconditionV1>, p: ResolutionPinV1) -> bool {
    exists|i: int|
        0 <= i < pre.len() && #[trigger] pre[i].scope_ref@ == p.scope_ref@ && pre[i].generation_ref@
            == p.generation_ref@
}

/// Two address lists with the same addresses in the same order.
pub open spec fn same_addresses(a: Seq<SocketAddressV1>, b: Seq<SocketAddressV1>) -> bool {
    a.len() == b.len() && forall|i: int| 0 <= i < a.len() ==> address_key(#[trigger] a[i]) == address_key(b[i])
}

/// The record at `gi` is unchanged but for its field named by the
/// predicate the caller states.
pub open spec fn same_bindings(a: ProvisionedGrantV1, b: ProvisionedGrantV1) -> bool {
    &&& b.owner == a.owner
    &&& b.grant == a.grant
    &&& b.scopes == a.scopes
    &&& b.destinations == a.destinations
}

impl NetworkBrokerLedgerV1 {
    proof fn lemma_after_record_change(&self, before: Seq<ProvisionedGrantV1>, gi: int)
        requires
            forall|i: int, j: int|
                0 <= i < j < before.len() ==> #[trigger] before[i].owner.run_ref@ != #[trigger] before[j].owner.run_ref@,
            forall|i: int| 0 <= i < before.len() ==> !text_in(self.spec_revoked(), (#[trigger] before[i]).owner.run_ref@),
            forall|i: int| 0 <= i < before.len() ==> record_ok(#[trigger] before[i]),
            self.spec_grants().len() == before.len(),
            0 <= gi < before.len(),
            forall|j: int| 0 <= j < before.len() && j != gi ==> #[trigger] self.spec_grants()[j] == before[j],
            same_bindings(before[gi], self.spec_grants()[gi]),
            record_ok(self.spec_grants()[gi]),
        ensures
            self.wf(),
    {
        let gs = self.spec_grants();
        assert forall|i: int, j: int| 0 <= i < j < gs.len() implies #[trigger] gs[i].owner.run_ref@
            != #[trigger] gs[j].owner.run_ref@ by {
            assert(gs[i].owner == before[i].owner && gs[j].owner == before[j].owner);
        }
        assert forall|i: int| 0 <= i < gs.len() implies record_ok(#[trigger] gs[i]) by {
            if i != gi {
                assert(gs[i] == before[i]);
            }
        }
        assert forall|i: int| 0 <= i < gs.len() implies !text_in(self.spec_revoked(), (#[trigger] gs[i]).owner.run_ref@) by {
            assert(gs[i].owner == before[i].owner);
        }
    }

    /// Takes the request `request_id` staged for `owner`'s run, for its one
    /// apply: it is no longer staged. Refuses an unknown run, another owner,
    /// and a request not staged.
    pub fn take_staged(&mut self, owner: &NetworkOwnerV1, request_id: &str) -> (r: AppResult<StagedRequestV1>)
        requires
            old(self).wf(),
        ensures
            final(self).wf(),
            old(self).evolves_to(&*final(self)),
            final(self).spec_revoked() == old(self).spec_revoked(),
            ({
                let gs = old(self).spec_grants();
                let gi = grant_index(gs, owner.run_ref@);
                if !has_grant(gs, owner.run_ref@) {
                    r == Err::<StagedRequestV1, AppError>(AppError::InvalidInput("Network grant is unavailable."))
                        && final(self).spec_grants() == gs
                } else if !same_owner(gs[gi].owner, *owner) {
                    r == Err::<StagedRequestV1, AppError>(
                        AppError::InvalidInput("Brokered network request owner context was substituted."),
                    ) && final(self).spec_grants() == gs
                } else if !is_staged(gs[gi], request_id@) {
                    r == Err::<StagedRequestV1, AppError>(
                        AppError::InvalidInput("Exact staged network request is unavailable."),
                    ) && final(self).spec_grants() == gs
                } else {
                    let after = final(self).spec_grants();
                    &&& r matches Ok(s) && s.request.request_id@ == request_id@
                    &&& after.len() == gs.len()
                    &&& forall|j: int| 0 <= j < after.len() && j != gi ==> #[trigger] after[j] == gs[j]
                    &&& same_bindings(gs[gi], after[gi])
                    &&& after[gi].resolutions == gs[gi].resolutions
                    &&& exists|k: int|
                        0 <= k < gs[gi].staged@.len() && gs[gi].staged@[k] == r.unwrap()
                            && after[gi].staged@ == gs[gi].staged@.remove(k)
                    &&& !is_staged(after[gi], request_id@)
                }
            }),
    {
        let gi = match self.find_grant(owner.run_ref.as_str()) {
            Some(gi) => gi,
            None => {
                return Err(AppError::InvalidInput("Network grant is unavailable."));
            },
        };
        if !owner_same(&self.grants[gi].owner, owner) {
            return Err(AppError::InvalidInput("Brokered network request owner context was substituted."));
        }
        let k = match self.find_staged(gi, request_id) {
            Some(k) => k,
            None => {
                return Err(AppError::InvalidInput("Exact staged network request is unavailable."));
            },
        };
        let ghost before = self.spec_grants();
        let ghost rec0 = before[gi as int];
        let s = self.grants[gi].staged.remove(k);
        proof {
            let r = self.spec_grants()[gi as int];
            assert(record_ok(rec0));
            assert(r.staged@ =~= rec0.staged@.remove(k as int));
            assert forall|a: int, b: int| 0 <= a < b < r.staged@.len() implies #[trigger] r.staged@[a].request.request_id@
                != #[trigger] r.staged@[b].request.request_id@ by {
                let a0 = if a < k { a } else { a + 1 };
                let b0 = if b < k { b } else { b + 1 };
                assert(r.staged@[a] == rec0.staged@[a0] && r.staged@[b] == rec0.staged@[b0]);
            }
            assert(!is_staged(r, request_id@)) by {
                if is_staged(r, request_id@) {
                    let w = choose|w: int| 0 <= w < r.staged@.len() && #[trigger] r.staged@[w].request.request_id@ == request_id@;
                    let w0 = if w < k { w } else { w + 1 };
                    assert(r.staged@[w] == rec0.staged@[w0]);
                    if w0 < k {
                        assert(rec0.staged@[w0].request.request_id@ != rec0.staged@[k as int].request.request_id@);
                    } else {
                        assert(rec0.staged@[k as int].request.request_id@ != rec0.staged@[w0].request.request_id@);
                    }
                }
            }
            self.lemma_after_record_change(before, gi as int);
        }
        Ok(s)
    }

    /// The scope and destination a request of `owner` names. Refuses an
    /// unknown run, another owner, and an unknown scope or destination.
    pub fn bound_specs(&self, owner: &NetworkOwnerV1, scope_ref: &str, destination_ref: &str) -> (r: AppResult<
        (&NetworkScopeBindingSpecV1, &NetworkDestinationBindingSpecV1),
    >)
        requires
            self.wf(),
        ensures
            ({
                let gs = self.spec_grants();
                let rec = gs[grant_index(gs, owner.run_ref@)];
                if !has_grant(gs, owner.run_ref@) {
                    r == Err::<(&NetworkScopeBindingSpecV1, &NetworkDestinationBindingSpecV1), AppError>(
                        AppError::InvalidInput("Network grant is unavailable."),
                    )
                } else if !same_owner(rec.owner, *owner) {
                    r == Err::<(&NetworkScopeBindingSpecV1, &NetworkDestinationBindingSpecV1), AppError>(
                        AppError::InvalidInput("Brokered network request owner context was substituted."),
                    )
                } else if !(exists|i: int| #[trigger] scope_at(rec, i, scope_ref@)) {
                    r == Err::<(&NetworkScopeBindingSpecV1, &NetworkDestinationBindingSpecV1), AppError>(
                        AppError::InvalidInput("Network scope resolution is unavailable."),
                    )
                } else if !(exists|i: int| #[trigger] destination_at(rec, i, destination_ref@)) {
                    r == Err::<(&NetworkScopeBindingSpecV1, &NetworkDestinationBindingSpecV1), AppError>(
                        AppError::InvalidInput("Network destination resolution is unavailable."),
                    )
                } else {
                    r matches Ok((s, d)) && *s == rec.scopes@[scope_index(rec, scope_ref@)] && *d
                        == rec.destinations@[destination_index(rec, destination_ref@)]
                }
            }),
    {
        let gi = match self.find_grant(owner.run_ref.as_str()) {
            Some(gi) => gi,
            None => {
                return Err(AppError::InvalidInput("Network grant is unavailable."));
            },
        };
        if !owner_same(&self.grants[gi].owner, owner) {
            return Err(AppError::InvalidInput("Brokered network request owner context was substituted."));
        }
        let si = match self.find_scope(gi, scope_ref) {
            Some(si) => si,
            None => {
                return Err(AppError::InvalidInput("Network scope resolution is unavailable."));
            },
        };
        let di = match self.find_destination(gi, destination_ref) {
            Some(di) => di,
            None => {
                return Err(AppError::InvalidInput("Network destination resolution is unavailable."));
            },
        };
        Ok((&self.grants[gi].scopes[si], &self.grants[gi].destinations[di]))
    }

    fn find_pin(&self, gi: usize, destination: &str) -> (r: Option<usize>)
        requires
            self.wf(),
            gi < self.spec_grants().len(),
        ensures
            r matches Some(i) ==> pin_at(self.spec_grants()[gi as int], i as int, destination@) && i as int
                == pin_index(self.spec_grants()[gi as int], destination@),
            r is None ==> !has_pin(self.spec_grants()[gi as int], destination@),
    {
        let v = &self.grants[gi].resolutions;
        let mut i: usize = 0;
        while i < v.len()
            invariant
                self.wf(),
                gi < self.spec_grants().len(),
                v@ == self.spec_grants()[gi as int].resolutions@,
                i <= v@.len(),
                forall|k: int| 0 <= k < i ==> !#[trigger] pin_at(self.spec_grants()[gi as int], k, destination@),
            decreases v@.len() - i,
        {
            if same_text(v[i].destination_ref.as_str(), destination) {
                proof {
                    let r = self.spec_grants()[gi as int];
                    assert(pin_at(r, i as int, destination@));
                    let c = pin_index(r, destination@);
                    assert(pin_at(r, c, destination@));
                    assert(record_ok(r));
                    if c < i {
                        assert(r.resolutions@[c].destination_ref@ != r.resolutions@[i as int].destination_ref@);
                    } else if i < c {
                        assert(r.resolutions@[i as int].destination_ref@ != r.resolutions@[c].destination_ref@);
                    }
                }
                return Some(i);
            }
            i = i + 1;
        }
        None
    }

    /// Pins resolution `pin` for the run `run_ref` still granted under the
    /// context `context_ref`: it replaces the pin of its destination.
    /// Refuses a run no longer granted or granted under another context.
    pub fn pin_resolution(&mut self, run_ref: &str, context_ref: &str, pin: ResolutionPinV1) -> (r: AppResult<()>)
        requires
            old(self).wf(),
        ensures
            final(self).wf(),
            old(self).evolves_to(&*final(self)),
            final(self).spec_revoked() == old(self).spec_revoked(),
            ({
                let gs = old(self).spec_grants();
                let gi = grant_index(gs, run_ref@);
                if !(has_grant(gs, run_ref@) && gs[gi].owner.context_ref@ == context_ref@) {
                    r == Err::<(), AppError>(AppError::InvalidInput("Network grant was revoked during resolution."))
                        && final(self).spec_grants() == gs
                } else {
                    let after = final(self).spec_grants();
                    &&& r is Ok
                    &&& after.len() == gs.len()
                    &&& forall|j: int| 0 <= j < after.len() && j != gi ==> #[trigger] after[j] == gs[j]
                    &&& same_bindings(gs[gi], after[gi])
                    &&& after[gi].staged == gs[gi].staged
                    &&& after[gi].resolutions@ == pins_after(gs[gi], pin)
                }
            }),
    {
        let gi = match self.find_grant(run_ref) {
            Some(gi) => gi,
            None => {
                return Err(AppError::InvalidInput("Network grant was revoked during resolution."));
            },
        };
        if !same_text(self.grants[gi].owner.context_ref.as_str(), context_ref) {
            return Err(AppError::InvalidInput("Network grant was revoked during resolution."));
        }
        let ghost before = self.spec_grants();
        let ghost rec0 = before[gi as int];
        let ghost p = pin;
        match self.find_pin(gi, pin.destination_ref.as_str()) {
            Some(k) => {
                self.grants[gi].resolutions.set(k, pin);
            },
            None => {
                self.grants[gi].resolutions.push(pin);
            },
        }
        proof {
            let r = self.spec_grants()[gi as int];
            assert(record_ok(rec0));
            assert(r.resolutions@ =~= pins_after(rec0, p));
            assert forall|a: int, b: int| 0 <= a < b < r.resolutions@.len() implies #[trigger] r.resolutions@[a].destination_ref@
                != #[trigger] r.resolutions@[b].destination_ref@ by {
                if has_pin(rec0, p.destination_ref@) {
                    let k = pin_index(rec0, p.destination_ref@);
                    if a != k && b != k {
                        assert(r.resolutions@[a] == rec0.resolutions@[a] && r.resolutions@[b] == rec0.resolutions@[b]);
                    } else if a == k {
                        assert(r.resolutions@[b] == rec0.resolutions@[b]);
                        assert(rec0.resolutions@[k].destination_ref@ != rec0.resolutions@[b].destination_ref@);
                    } else {
                        assert(r.resolutions@[a] == rec0.resolutions@[a]);
                        assert(rec0.resolutions@[a].destination_ref@ != rec0.resolutions@[k].destination_ref@);
                    }
                } else {
                    if b == r.resolutions@.len() - 1 {
                        assert(r.resolutions@[a] == rec0.resolutions@[a]);
                        assert(!pin_at(rec0, a, p.destination_ref@));
                    } else {
                        assert(r.resolutions@[a] == rec0.resolutions@[a] && r.resolutions@[b] == rec0.resolutions@[b]);
                    }
                }
            }
            self.lemma_after_record_change(before, gi as int);
        }
        Ok(())
    }

    /// The resolution pinned for a connection of run `run_ref` to
    /// `destination_ref`, when the connection names exactly its generation
    /// (`generation`) and a precondition requires exactly its scope and
    /// generation. Refuses a destination without a pin, and any other
    /// generation.
    pub fn connect_pin(
        &self,
        run_ref: &str,
        destination_ref: &str,
        generation: &Option<String>,
        preconditions: &Vec<GenerationPreconditionV1>,
    ) -> (r: AppResult<&ResolutionPinV1>)
        requires
            self.wf(),
        ensures
            ({
                let gs = self.spec_grants();
                let rec = gs[grant_index(gs, run_ref@)];
                let p = rec.resolutions@[pin_index(rec, destination_ref@)];
                if !(has_grant(gs, run_ref@) && has_pin(rec, destination_ref@)) {
                    r == Err::<&ResolutionPinV1, AppError>(
                        AppError::InvalidInput("Hostname connection lacks a pinned resolution."),
                    )
                } else if !(generation is Some && generation.unwrap()@ == p.generation_ref@ && pin_required(
                    preconditions@,
                    p,
                )) {
                    r == Err::<&ResolutionPinV1, AppError>(
                        AppError::InvalidInput("Hostname connection substituted its resolution generation."),
                    )
                } else {
                    r matches Ok(q) && *q == p
                }
            }),
    {
        let gi = match self.find_grant(run_ref) {
            Some(gi) => gi,
            None => {
                return Err(AppError::InvalidInput("Hostname connection lacks a pinned resolution."));
            },
        };
        let k = match self.find_pin(gi, destination_ref) {
            Some(k) => k,
            None => {
                return Err(AppError::InvalidInput("Hostname connection lacks a pinned resolution."));
            },
        };
        let p = &self.grants[gi].resolutions[k];
        let named = match generation {
            Some(g) => same_text(g.as_str(), p.generation_ref.as_str()),
            None => false,
        };
        let mut required = false;
        let mut i: usize = 0;
        while i < preconditions.len()
            invariant
                i <= preconditions@.len(),
                required == exists|j: int|
                    0 <= j < i && #[trigger] preconditions@[j].scope_ref@ == p.scope_ref@
                        && preconditions@[j].generation_ref@ == p.generation_ref@,
            decreases preconditions@.len() - i,
        {
            if same_text(preconditions[i].scope_ref.as_str(), p.scope_ref.as_str()) && same_text(
                preconditions[i].generation_ref.as_str(),
                p.generation_ref.as_str(),
            ) {
                required = true;
            }
            i = i + 1;
        }
        if !named || !required {
            return Err(AppError::InvalidInput("Hostname connection substituted its resolution generation."));
        }
        Ok(p)
    }

    /// Whether run `run_ref` still holds its grant and was never revoked.
    pub fn run_active(&self, run_ref: &str) -> (b: bool)
        requires
            self.wf(),
        ensures
            b == (has_grant(self.spec_grants(), run_ref@) && !text_in(self.spec_revoked(), run_ref@)),
    {
        !contains_text(&self.revoked_runs, run_ref) && self.find_grant(run_ref).is_some()
    }

    /// The runs whose grants belong to session `session_binding_ref`, in
    /// grant order.
    pub fn run_refs_for_session(&self, session_binding_ref: &str) -> (runs: Vec<String>)
        requires
            self.wf(),
        ensures
            texts_view(runs@) == session_runs(self.spec_grants(), session_binding_ref@),
    {
        let mut runs: Vec<String> = Vec::new();
        let mut i: usize = 0;
        while i < self.grants.len()
            invariant
                i <= self.grants@.len(),
                texts_view(runs@) == session_runs(self.grants@.take(i as int), session_binding_ref@),
            decreases self.grants@.len() - i,
        {
            proof {
                assert(self.grants@.take(i + 1).drop_last() =~= self.grants@.take(i as int));
            }
            if same_text(self.grants[i].owner.session_binding_ref.as_str(), session_binding_ref) {
                let ghost before = runs@;
                runs.push(self.grants[i].owner.run_ref.clone());
                proof {
                    assert(texts_view(runs@) =~= texts_view(before).push(self.grants@[i as int].owner.run_ref@));
                }
            }
            i = i + 1;
        }
        proof {
            assert(self.grants@.take(i as int) =~= self.grants@);
        }
        runs
    }
}

/// The runs of the grants of `gs` that belong to session `session`, in
/// order.
pub open spec fn session_runs(gs: Seq<ProvisionedGrantV1>, session: Seq<char>) -> Seq<Seq<char>>
    decreases gs.len(),
{
    if gs.len() == 0 {
        seq![]
    } else {
        let rest = session_runs(gs.drop_last(), session);
        if gs.last().owner.session_binding_ref@ == session {
            rest.push(gs.last().owner.run_ref@)
        } else {
            rest
        }
    }
}

/// `Ok` exactly when a fresh resolution `fresh`, of generation
/// `fresh_generation`, is exactly the pinned one.
pub fn check_fresh_resolution(pin: &ResolutionPinV1, fresh: &Vec<SocketAddressV1>, fresh_generation: &str) -> (r:
    AppResult<()>)
    ensures
        r is Ok <==> same_addresses(fresh@, pin.addresses@) && fresh_generation@ == pin.generation_ref@,
        r is Err ==> r == Err::<(), AppError>(AppError::InvalidInput("DNS resolution changed before connect.")),
{
    let same = fresh.len() == pin.addresses.len() && {
        let mut all = true;
        let mut i: usize = 0;
        while i < fresh.len()
            invariant
                fresh@.len() == pin.addresses@.len(),
                i <= fresh@.len(),
                all == forall|j: int| 0 <= j < i ==> address_key(#[trigger] fresh@[j]) == address_key(pin.addresses@[j]),
            decreases fresh@.len() - i,
        {
            if !same_address(&fresh[i], &pin.addresses[i]) {
                all = false;
            }
            i = i + 1;
        }
        all
    };
    if !same || !same_text(fresh_generation, pin.generation_ref.as_str()) {
        return Err(AppError::InvalidInput("DNS resolution changed before connect."));
    }
    Ok(())
}

/// `Ok` exactly when a response of `received` bytes stays within its
/// reserved `max_response_bytes`.
pub fn check_response_size(received: u64, max_response_bytes: u64) -> (r: AppResult<()>)
    ensures
        r is Ok <==> received <= max_response_bytes,
        r is Err ==> r == Err::<(), AppError>(
            AppError::InvalidInput("Brokered response exceeded its reserved byte budget."),
        ),
{
    if received > max_response_bytes {
        return Err(AppError::InvalidInput("Brokered response exceeded its reserved byte budget."));
    }
    Ok(())
}

/// `Ok` exactly when the bytes sent and received, counted up to `u64`'s
/// largest value, stay within the reserved `network_bytes`.
pub fn check_exchange_budget(sent: u64, received: u64, network_bytes: u64) -> (r: AppResult<()>)
    ensures
        r is Ok <==> (if sent + received > u64::MAX { u64::MAX as int } else { sent + received }) <= network_bytes,
        r is Err ==> r == Err::<(), AppError>(
            AppError::InvalidInput("Brokered network bytes exceeded the reserved budget."),
        ),
{
    let total = sent.saturating_add(received);
    if total > network_bytes {
        return Err(AppError::InvalidInput("Brokered network bytes exceeded the reserved budget."));
    }
    Ok(())
}

impl NetworkBrokerLedgerV1 {
    /// Staying revoked composes.
    pub proof fn lemma_evolves_transitive(a: &NetworkBrokerLedgerV1, b: &NetworkBrokerLedgerV1, c: &NetworkBrokerLedgerV1)
        requires
            a.evolves_to(b),
            b.evolves_to(c),
        ensures
            a.evolves_to(c),
    {
        let x = texts_view(a.spec_revoked());
        let y = texts_view(b.spec_revoked());
        let z = texts_view(c.spec_revoked());
        assert(z.subrange(0, x.len() as int) =~= y.subrange(0, x.len() as int));
    }

    /// A run once revoked never holds a grant again, whatever follows.
    pub proof fn lemma_revoked_never_granted(a: &NetworkBrokerLedgerV1, b: &NetworkBrokerLedgerV1, run: Seq<char>)
        requires
            a.evolves_to(b),
            b.wf(),
            text_in(a.spec_revoked(), run),
        ensures
            !has_grant(b.spec_grants(), run),
    {
        let i = choose|i: int| 0 <= i < a.spec_revoked().len() && #[trigger] a.spec_revoked()[i]@ == run;
        assert(texts_view(a.spec_revoked())[i] == run);
        assert(texts_view(b.spec_revoked())[i] == run);
        assert(b.spec_revoked()[i]@ == run);
        assert(text_in(b.spec_revoked(), run));
        if has_grant(b.spec_grants(), run) {
            let g = choose|g: int| #[trigger] grant_at(b.spec_grants(), g, run);
            assert(!text_in(b.spec_revoked(), b.spec_grants()[g].owner.run_ref@));
        }
    }

    /// Every provisioned grant holds exactly the scopes and destinations
    /// of its grant, for its owner's Host, and no scope grants a verb its
    /// grant does not.
    pub proof fn lemma_bindings_match_grant(&self, i: int)
        requires
            self.wf(),
            0 <= i < self.spec_grants().len(),
        ensures
            topology_matches(
                self.spec_grants()[i].grant,
                self.spec_grants()[i].owner,
                self.spec_grants()[i].scopes@,
                self.spec_grants()[i].destinations@,
            ),
            forall|k: int|
                0 <= k < self.spec_grants()[i].scopes@.len() ==> verbs_granted(
                    self.spec_grants()[i].grant,
                    #[trigger] self.spec_grants()[i].scopes@[k],
                ),
    {
        assert(record_ok(self.spec_grants()[i]));
    }
}


/// What applying a staged request does: resolve a hostname, connect to a
/// literal endpoint, connect to a hostname through its pinned resolution,
/// or bind a literal endpoint.
#[derive(Clone, Debug, PartialEq, Eq)]
pub enum ApplyPlanV1 {
    Resolve(String, u16),
    ConnectLiteral(SocketAddressV1),
    ConnectPinned(String, u16),
    Bind(SocketAddressV1),
}

/// The socket work a request of verb `verb` to `destination` calls for:
/// only a hostname is resolved, a literal is connected to directly and a
/// hostname only through its pinned resolution, and only a literal is bound.
pub fn apply_plan(verb: NetworkVerbV1, destination: &NetworkDestinationBindingSpecV1) -> (r: AppResult<ApplyPlanV1>)
    ensures
        match (verb, destination.host) {
            (NetworkVerbV1::Resolve, NetworkEndpointHostV1::Hostname(h)) => r matches Ok(ApplyPlanV1::Resolve(x, p))
                && x@ == h@ && p == destination.port,
            (NetworkVerbV1::Resolve, NetworkEndpointHostV1::Literal(_)) => r == Err::<ApplyPlanV1, AppError>(
                AppError::InvalidInput("Literal destinations do not require name resolution."),
            ),
            (NetworkVerbV1::Connect, NetworkEndpointHostV1::Literal(ip)) => r == Ok::<ApplyPlanV1, AppError>(
                ApplyPlanV1::ConnectLiteral(SocketAddressV1 { ip, port: destination.port, flowinfo: 0, scope_id: 0 }),
            ),
            (NetworkVerbV1::Connect, NetworkEndpointHostV1::Hostname(h)) => r matches Ok(
                ApplyPlanV1::ConnectPinned(x, p),
            ) && x@ == h@ && p == destination.port,
            (NetworkVerbV1::Bind, NetworkEndpointHostV1::Literal(ip)) => r == Ok::<ApplyPlanV1, AppError>(
                ApplyPlanV1::Bind(SocketAddressV1 { ip, port: destination.port, flowinfo: 0, scope_id: 0 }),
            ),
            (NetworkVerbV1::Bind, NetworkEndpointHostV1::Hostname(_)) => r == Err::<ApplyPlanV1, AppError>(
                AppError::InvalidInput("Brokered bind requires an exact literal Host address."),
            ),
        },
{
    match (verb, &destination.host) {
        (NetworkVerbV1::Resolve, NetworkEndpointHostV1::Hostname(h)) => Ok(ApplyPlanV1::Resolve(h.clone(), destination.port)),
        (NetworkVerbV1::Resolve, NetworkEndpointHostV1::Literal(_)) => Err(
            AppError::InvalidInput("Literal destinations do not require name resolution."),
        ),
        (NetworkVerbV1::Connect, NetworkEndpointHostV1::Literal(ip)) => Ok(
            ApplyPlanV1::ConnectLiteral(SocketAddressV1 { ip: *ip, port: destination.port, flowinfo: 0, scope_id: 0 }),
        ),
        (NetworkVerbV1::Connect, NetworkEndpointHostV1::Hostname(h)) => Ok(
            ApplyPlanV1::ConnectPinned(h.clone(), destination.port),
        ),
        (NetworkVerbV1::Bind, NetworkEndpointHostV1::Literal(ip)) => Ok(
            ApplyPlanV1::Bind(SocketAddressV1 { ip: *ip, port: destination.port, flowinfo: 0, scope_id: 0 }),
        ),
        (NetworkVerbV1::Bind, NetworkEndpointHostV1::Hostname(_)) => Err(
            AppError::InvalidInput("Brokered bind requires an exact literal Host address."),
        ),
    }
}

/// Whether the endpoint `local` a bind produced lies in the zone its scope
/// grants: refused with the address's own refusal, or as outside the scope.
pub fn check_bound_endpoint(local: SocketAddressV1, kind: NetworkScopeKindV1) -> (r: AppResult<()>)
    ensures
        r is Ok <==> address_zone(local.ip) == Some(kind),
        address_zone(local.ip) matches Some(k) && k != kind ==> r == Err::<(), AppError>(
            AppError::InvalidInput("Brokered bind produced an endpoint outside its scope."),
        ),
{
    let zone = classify_address(local.ip)?;
    if zone == kind {
        Ok(())
    } else {
        Err(AppError::InvalidInput("Brokered bind produced an endpoint outside its scope."))
    }
}

impl NetworkBrokerLedgerV1 {
    /// After socket work for run `run_ref`: refused when the run was revoked
    /// or lost its grant meanwhile, so the work is dropped.
    pub fn check_still_active(&self, run_ref: &str, verb: NetworkVerbV1) -> (r: AppResult<()>)
        requires
            self.wf(),
        ensures
            r is Ok <==> (has_grant(self.spec_grants(), run_ref@) && !text_in(self.spec_revoked(), run_ref@)),
            r is Err ==> r == Err::<(), AppError>(AppError::InvalidInput(
                if verb == NetworkVerbV1::Bind {
                    "Network run was revoked during bind."
                } else {
                    "Network run was revoked during connect."
                },
            )),
    {
        if self.run_active(run_ref) {
            Ok(())
        } else {
            match verb {
                NetworkVerbV1::Bind => Err(AppError::InvalidInput("Network run was revoked during bind.")),
                _ => Err(AppError::InvalidInput("Network run was revoked during connect.")),
            }
        }
    }
}

} // verus!
