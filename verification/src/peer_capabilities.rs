//! Current-session Host capability observations. A fact answers only whether
//! one exact capability is currently implemented by a Host: it approves no
//! step, selects no Host, rewrites no topology and moves no object.
use vstd::prelude::*;

use crate::error::{AppError, AppResult};
use crate::text::{byte_len, contains_byte, utf8};

verus! {

pub const PEER_CAPABILITY_SCHEMA: &'static str = "pastey-peer-capabilities-v2";

pub const MANAGED_PROVIDER_CAPABILITY: &'static str = "pastey.managed.provider";

pub const MANAGED_RUNTIME_CAPABILITY: &'static str = "pastey.managed.runtime";

pub const EXECUTION_WORLD_CAPABILITY: &'static str = "pastey.managed.execution_world";

pub const MANAGED_EXECUTION_CAPABILITY: &'static str = "pastey.managed.execution";

pub const REASON_NOT_CONFIGURED: &'static str = "not_configured";

pub const REASON_UNKNOWN: &'static str = "unknown";

pub const REASON_PLAN_BINDING_REQUIRED: &'static str = "plan_process_binding_required";

pub const REASON_PROVIDER_UNAVAILABLE: &'static str = "provider_unavailable";

pub const REASON_RUNTIME_UNAVAILABLE: &'static str = "runtime_unavailable";

pub const REASON_EXECUTION_WORLD_UNAVAILABLE: &'static str = "execution_world_unavailable";

pub const REASON_SYSTEM_PROBE_UNAVAILABLE: &'static str = "system_probe_unavailable";

pub const REASON_SYSTEM_PROBE_UNSUPPORTED: &'static str = "system_probe_unsupported";

/// One capability observation.
#[derive(Clone, Debug, PartialEq, Eq)]
pub struct HostCapabilityFact {
    pub capability_id: String,
    pub available: bool,
    pub accepted_input_media_types: Vec<String>,
    pub effect: String,
    pub unavailable_reason: Option<String>,
}

/// One session's projection of capability facts.
#[derive(Clone, Debug, PartialEq, Eq)]
pub struct PeerCapabilityProjection {
    pub schema_version: String,
    pub peer_session_id: String,
    pub observed_at: i64,
    pub capabilities: Vec<HostCapabilityFact>,
}

/// How a diagnostic view renders one capability.
#[derive(Clone, Copy, Debug, PartialEq, Eq)]
pub enum DiagnosticState {
    Available,
    Unavailable,
    NotConfigured,
    Unknown,
}

/// What a Host's fixed probe observed of one known capability.
#[derive(Clone, Copy, Debug, PartialEq, Eq)]
pub enum KnownCapabilityProbeResult {
    Available,
    Unavailable,
    Unsupported,
}

fn owned(s: &str) -> (r: String)
    ensures
        r@ == s@,
{
    String::from_str(s)
}

fn owned_option(s: Option<&str>) -> (r: Option<String>)
    ensures
        match (s, r) {
            (None, None) => true,
            (Some(a), Some(b)) => a@ == b@,
            _ => false,
        },
{
    match s {
        Some(v) => Some(owned(v)),
        None => None,
    }
}

/// A fact of `effect` with no accepted media types.
pub open spec fn fact_is(
    f: HostCapabilityFact,
    id: Seq<char>,
    available: bool,
    effect: Seq<char>,
    reason: Option<Seq<char>>,
) -> bool {
    &&& f.capability_id@ == id
    &&& f.available == available
    &&& f.accepted_input_media_types@.len() == 0
    &&& f.effect@ == effect
    &&& match (f.unavailable_reason, reason) {
        (None, None) => true,
        (Some(a), Some(b)) => a@ == b,
        _ => false,
    }
}

pub open spec fn option_view(s: Option<&str>) -> Option<Seq<char>> {
    match s {
        Some(v) => Some(v@),
        None => None,
    }
}

/// A readiness observation.
pub fn capability(capability_id: &str, available: bool, unavailable_reason: Option<&str>) -> (r:
    HostCapabilityFact)
    ensures
        fact_is(r, capability_id@, available, "readiness_observation"@, option_view(unavailable_reason)),
{
    HostCapabilityFact {
        capability_id: owned(capability_id),
        available,
        accepted_input_media_types: Vec::new(),
        effect: owned("readiness_observation"),
        unavailable_reason: owned_option(unavailable_reason),
    }
}

/// A system-probe observation.
pub fn system_probe_fact(capability_id: &str, available: bool, unavailable_reason: Option<&str>) -> (r:
    HostCapabilityFact)
    ensures
        fact_is(r, capability_id@, available, "system_probe_observation"@, option_view(unavailable_reason)),
{
    HostCapabilityFact {
        capability_id: owned(capability_id),
        available,
        accepted_input_media_types: Vec::new(),
        effect: owned("system_probe_observation"),
        unavailable_reason: owned_option(unavailable_reason),
    }
}

/// The fact a probe result becomes.
pub open spec fn probe_fact_is(f: HostCapabilityFact, id: Seq<char>, result: KnownCapabilityProbeResult) -> bool {
    match result {
        KnownCapabilityProbeResult::Available => fact_is(f, id, true, "system_probe_observation"@, None),
        KnownCapabilityProbeResult::Unavailable => fact_is(
            f,
            id,
            false,
            "system_probe_observation"@,
            Some(REASON_SYSTEM_PROBE_UNAVAILABLE@),
        ),
        KnownCapabilityProbeResult::Unsupported => fact_is(
            f,
            id,
            false,
            "system_probe_observation"@,
            Some(REASON_SYSTEM_PROBE_UNSUPPORTED@),
        ),
    }
}

/// An empty projection of this Host for session `peer_session_id`: Core
/// projects no concrete capability by itself.
pub fn local_projection(peer_session_id: String, observed_at: i64) -> (r: PeerCapabilityProjection)
    ensures
        r.schema_version@ == PEER_CAPABILITY_SCHEMA@,
        r.peer_session_id@ == peer_session_id@,
        r.observed_at == observed_at,
        r.capabilities@.len() == 0,
{
    PeerCapabilityProjection {
        schema_version: owned(PEER_CAPABILITY_SCHEMA),
        peer_session_id,
        observed_at,
        capabilities: Vec::new(),
    }
}

/// Appends one system-probe fact per requested capability, in order, from
/// what the Host's probe observed of each (`results[i]` for `capability_ids[i]`).
pub fn append_system_probe_facts(
    projection: &mut PeerCapabilityProjection,
    capability_ids: &[String],
    results: &[KnownCapabilityProbeResult],
) -> (r: AppResult<()>)
    requires
        capability_ids@.len() == results@.len(),
    ensures
        r is Ok,
        final(projection).schema_version == old(projection).schema_version,
        final(projection).peer_session_id == old(projection).peer_session_id,
        final(projection).observed_at == old(projection).observed_at,
        final(projection).capabilities@.len() == old(projection).capabilities@.len() + capability_ids@.len(),
        forall|i: int|
            0 <= i < old(projection).capabilities@.len() ==> #[trigger] final(projection).capabilities@[i]
                == old(projection).capabilities@[i],
        forall|i: int|
            0 <= i < capability_ids@.len() ==> probe_fact_is(
                #[trigger] final(projection).capabilities@[old(projection).capabilities@.len() + i],
                capability_ids@[i]@,
                results@[i],
            ),
{
    let ghost base = projection.capabilities@;
    let mut i: usize = 0;
    while i < capability_ids.len()
        invariant
            i <= capability_ids@.len(),
            capability_ids@.len() == results@.len(),
            projection.schema_version == old(projection).schema_version,
            projection.peer_session_id == old(projection).peer_session_id,
            projection.observed_at == old(projection).observed_at,
            base == old(projection).capabilities@,
            projection.capabilities@.len() == base.len() + i,
            forall|k: int| 0 <= k < base.len() ==> #[trigger] projection.capabilities@[k] == base[k],
            forall|k: int|
                0 <= k < i ==> probe_fact_is(
                    #[trigger] projection.capabilities@[base.len() + k],
                    capability_ids@[k]@,
                    results@[k],
                ),
        decreases capability_ids@.len() - i,
    {
        let id = capability_ids[i].as_str();
        let fact = match results[i] {
            KnownCapabilityProbeResult::Available => system_probe_fact(id, true, None),
            KnownCapabilityProbeResult::Unavailable => system_probe_fact(
                id,
                false,
                Some(REASON_SYSTEM_PROBE_UNAVAILABLE),
            ),
            KnownCapabilityProbeResult::Unsupported => system_probe_fact(
                id,
                false,
                Some(REASON_SYSTEM_PROBE_UNSUPPORTED),
            ),
        };
        projection.capabilities.push(fact);
        i = i + 1;
    }
    Ok(())
}

/// What the Host's worker-provider configuration reports.
#[derive(Clone, Copy, Debug, PartialEq, Eq)]
pub enum ProviderReadiness {
    NotConfigured,
    Healthy,
    Unknown,
    Unhealthy,
    Unreadable,
}

/// What the Host's managed-runtime configuration reports.
#[derive(Clone, Copy, Debug, PartialEq, Eq)]
pub enum RuntimeReadiness {
    NotConfigured,
    Selected,
    Unreadable,
}

pub open spec fn provider_reason(p: ProviderReadiness) -> Option<Seq<char>> {
    match p {
        ProviderReadiness::NotConfigured => Some(REASON_NOT_CONFIGURED@),
        ProviderReadiness::Healthy => None,
        ProviderReadiness::Unknown => Some(REASON_UNKNOWN@),
        ProviderReadiness::Unhealthy | ProviderReadiness::Unreadable => Some(REASON_PROVIDER_UNAVAILABLE@),
    }
}

pub open spec fn runtime_reason(r: RuntimeReadiness) -> Option<Seq<char>> {
    match r {
        RuntimeReadiness::NotConfigured => Some(REASON_NOT_CONFIGURED@),
        RuntimeReadiness::Selected => None,
        RuntimeReadiness::Unreadable => Some(REASON_RUNTIME_UNAVAILABLE@),
    }
}

/// Why managed execution is not available: a missing configuration first,
/// then an unavailable provider or runtime, then an unavailable execution
/// world; with all present it still needs a plan's process binding.
pub open spec fn execution_reason(p: ProviderReadiness, r: RuntimeReadiness, world: bool) -> Seq<char> {
    if p == ProviderReadiness::NotConfigured || r == RuntimeReadiness::NotConfigured {
        REASON_NOT_CONFIGURED@
    } else if p == ProviderReadiness::Unhealthy || p == ProviderReadiness::Unreadable {
        REASON_PROVIDER_UNAVAILABLE@
    } else if r == RuntimeReadiness::Unreadable {
        REASON_RUNTIME_UNAVAILABLE@
    } else if !world {
        REASON_EXECUTION_WORLD_UNAVAILABLE@
    } else {
        REASON_PLAN_BINDING_REQUIRED@
    }
}

/// The Host's managed-readiness projection: provider, runtime and
/// execution world as observed, and managed execution never available by
/// itself (an exact plan still owns selection, approval and binding).
pub fn diagnostic_projection(
    provider: ProviderReadiness,
    runtime: RuntimeReadiness,
    execution_world_available: bool,
    peer_session_id: String,
    observed_at: i64,
) -> (r: PeerCapabilityProjection)
    ensures
        r.schema_version@ == PEER_CAPABILITY_SCHEMA@,
        r.peer_session_id@ == peer_session_id@,
        r.observed_at == observed_at,
        r.capabilities@.len() == 4,
        fact_is(
            r.capabilities@[0],
            MANAGED_PROVIDER_CAPABILITY@,
            provider == ProviderReadiness::Healthy,
            "readiness_observation"@,
            provider_reason(provider),
        ),
        fact_is(
            r.capabilities@[1],
            MANAGED_RUNTIME_CAPABILITY@,
            runtime == RuntimeReadiness::Selected,
            "readiness_observation"@,
            runtime_reason(runtime),
        ),
        fact_is(
            r.capabilities@[2],
            EXECUTION_WORLD_CAPABILITY@,
            execution_world_available,
            "readiness_observation"@,
            if execution_world_available {
                None
            } else {
                Some(REASON_EXECUTION_WORLD_UNAVAILABLE@)
            },
        ),
        fact_is(
            r.capabilities@[3],
            MANAGED_EXECUTION_CAPABILITY@,
            false,
            "readiness_observation"@,
            Some(execution_reason(provider, runtime, execution_world_available)),
        ),
{
    let p = match provider {
        ProviderReadiness::NotConfigured => capability(MANAGED_PROVIDER_CAPABILITY, false, Some(REASON_NOT_CONFIGURED)),
        ProviderReadiness::Healthy => capability(MANAGED_PROVIDER_CAPABILITY, true, None),
        ProviderReadiness::Unknown => capability(MANAGED_PROVIDER_CAPABILITY, false, Some(REASON_UNKNOWN)),
        ProviderReadiness::Unhealthy | ProviderReadiness::Unreadable => capability(
            MANAGED_PROVIDER_CAPABILITY,
            false,
            Some(REASON_PROVIDER_UNAVAILABLE),
        ),
    };
    let rt = match runtime {
        RuntimeReadiness::NotConfigured => capability(MANAGED_RUNTIME_CAPABILITY, false, Some(REASON_NOT_CONFIGURED)),
        RuntimeReadiness::Selected => capability(MANAGED_RUNTIME_CAPABILITY, true, None),
        RuntimeReadiness::Unreadable => capability(
            MANAGED_RUNTIME_CAPABILITY,
            false,
            Some(REASON_RUNTIME_UNAVAILABLE),
        ),
    };
    let world = if execution_world_available {
        capability(EXECUTION_WORLD_CAPABILITY, true, None)
    } else {
        capability(EXECUTION_WORLD_CAPABILITY, false, Some(REASON_EXECUTION_WORLD_UNAVAILABLE))
    };
    let provider_missing = match provider {
        ProviderReadiness::NotConfigured => true,
        _ => false,
    };
    let runtime_missing = match runtime {
        RuntimeReadiness::NotConfigured => true,
        _ => false,
    };
    let provider_down = match provider {
        ProviderReadiness::Unhealthy | ProviderReadiness::Unreadable => true,
        _ => false,
    };
    let runtime_down = match runtime {
        RuntimeReadiness::Unreadable => true,
        _ => false,
    };
    let reason = if provider_missing || runtime_missing {
        REASON_NOT_CONFIGURED
    } else if provider_down {
        REASON_PROVIDER_UNAVAILABLE
    } else if runtime_down {
        REASON_RUNTIME_UNAVAILABLE
    } else if !execution_world_available {
        REASON_EXECUTION_WORLD_UNAVAILABLE
    } else {
        REASON_PLAN_BINDING_REQUIRED
    };
    let managed = capability(MANAGED_EXECUTION_CAPABILITY, false, Some(reason));
    let mut capabilities: Vec<HostCapabilityFact> = Vec::new();
    capabilities.push(p);
    capabilities.push(rt);
    capabilities.push(world);
    capabilities.push(managed);
    PeerCapabilityProjection {
        schema_version: owned(PEER_CAPABILITY_SCHEMA),
        peer_session_id,
        observed_at,
        capabilities,
    }
}

/// The diagnostic state of one fact.
pub open spec fn fact_state(f: HostCapabilityFact) -> DiagnosticState {
    if f.available {
        DiagnosticState::Available
    } else {
        match f.unavailable_reason {
            Some(r) => if r@ == REASON_NOT_CONFIGURED@ {
                DiagnosticState::NotConfigured
            } else if r@ == REASON_UNKNOWN@ || r@ == REASON_PLAN_BINDING_REQUIRED@ {
                DiagnosticState::Unknown
            } else {
                DiagnosticState::Unavailable
            },
            None => DiagnosticState::Unknown,
        }
    }
}

/// The state of the first fact about `id`; unknown when there is none.
pub open spec fn diagnostic_of(facts: Seq<HostCapabilityFact>, id: Seq<char>) -> DiagnosticState
    decreases facts.len(),
{
    if facts.len() == 0 {
        DiagnosticState::Unknown
    } else if facts[0].capability_id@ == id {
        fact_state(facts[0])
    } else {
        diagnostic_of(facts.drop_first(), id)
    }
}

fn state_of(f: &HostCapabilityFact) -> (r: DiagnosticState)
    ensures
        r == fact_state(*f),
{
    if f.available {
        return DiagnosticState::Available;
    }
    match &f.unavailable_reason {
        Some(r) => {
            if *r == owned(REASON_NOT_CONFIGURED) {
                DiagnosticState::NotConfigured
            } else if *r == owned(REASON_UNKNOWN) || *r == owned(REASON_PLAN_BINDING_REQUIRED) {
                DiagnosticState::Unknown
            } else {
                DiagnosticState::Unavailable
            }
        },
        None => DiagnosticState::Unknown,
    }
}

impl PeerCapabilityProjection {
    /// The renderer-safe state of capability `capability_id`: that of its
    /// first fact, or unknown when the projection holds none.
    pub fn diagnostic_state(&self, capability_id: &str) -> (r: DiagnosticState)
        ensures
            r == diagnostic_of(self.capabilities@, capability_id@),
    {
        let id = owned(capability_id);
        assert(self.capabilities@.subrange(0, self.capabilities@.len() as int) =~= self.capabilities@);
        let mut i: usize = 0;
        while i < self.capabilities.len()
            invariant
                i <= self.capabilities@.len(),
                id@ == capability_id@,
                diagnostic_of(self.capabilities@, capability_id@) == diagnostic_of(
                    self.capabilities@.subrange(i as int, self.capabilities@.len() as int),
                    capability_id@,
                ),
            decreases self.capabilities@.len() - i,
        {
            let ghost rest = self.capabilities@.subrange(i as int, self.capabilities@.len() as int);
            assert(rest[0] == self.capabilities@[i as int]);
            if self.capabilities[i].capability_id == id {
                return state_of(&self.capabilities[i]);
            }
            assert(rest.drop_first() =~= self.capabilities@.subrange(
                i + 1,
                self.capabilities@.len() as int,
            ));
            i = i + 1;
        }
        DiagnosticState::Unknown
    }
}

/// The largest encoded projection a peer may send.
pub const MAX_PAYLOAD_BYTES: usize = 4096;

/// A bounded fact: a 1..=128-byte identity and effect, at most sixteen
/// media types each naming a `/` type, and a 1..=128-byte reason exactly
/// when unavailable.
pub open spec fn fact_valid(f: HostCapabilityFact) -> bool {
    &&& 0 < utf8(f.capability_id@).len() <= 128
    &&& f.accepted_input_media_types@.len() <= 16
    &&& forall|k: int|
        0 <= k < f.accepted_input_media_types@.len() ==> utf8(
            #[trigger] f.accepted_input_media_types@[k]@,
        ).contains('/' as u8)
    &&& 0 < utf8(f.effect@).len() <= 128
    &&& match f.unavailable_reason {
        None => f.available,
        Some(r) => !f.available && 0 < utf8(r@).len() <= 128,
    }
}

/// A valid projection, given the length of its canonical encoding.
pub open spec fn projection_valid(p: PeerCapabilityProjection, encoded_len: nat) -> bool {
    &&& p.schema_version@ == PEER_CAPABILITY_SCHEMA@
    &&& 0 < utf8(p.peer_session_id@).len() <= 256
    &&& p.observed_at > 0
    &&& p.capabilities@.len() <= 16
    &&& encoded_len <= MAX_PAYLOAD_BYTES
    &&& forall|k: int| 0 <= k < p.capabilities@.len() ==> fact_valid(#[trigger] p.capabilities@[k])
    &&& forall|a: int, b: int|
        0 <= a < b < p.capabilities@.len() ==> #[trigger] p.capabilities@[a].capability_id@
            != #[trigger] p.capabilities@[b].capability_id@
}

fn fact_ok(f: &HostCapabilityFact) -> (r: bool)
    ensures
        r == fact_valid(*f),
{
    let id_len = byte_len(f.capability_id.as_str());
    let effect_len = byte_len(f.effect.as_str());
    if id_len == 0 || id_len > 128 || effect_len == 0 || effect_len > 128
        || f.accepted_input_media_types.len() > 16 {
        return false;
    }
    let mut k: usize = 0;
    while k < f.accepted_input_media_types.len()
        invariant
            k <= f.accepted_input_media_types@.len(),
            forall|j: int|
                0 <= j < k ==> utf8(#[trigger] f.accepted_input_media_types@[j]@).contains('/' as u8),
        decreases f.accepted_input_media_types@.len() - k,
    {
        if !contains_byte(f.accepted_input_media_types[k].as_str(), 47u8) {
            return false;
        }
        k = k + 1;
    }
    match &f.unavailable_reason {
        None => f.available,
        Some(r) => {
            let n = byte_len(r.as_str());
            !f.available && n > 0 && n <= 128
        },
    }
}

/// Accepts exactly a valid projection whose canonical encoding is
/// `encoded_len` bytes long.
pub fn validate_projection(projection: &PeerCapabilityProjection, encoded_len: usize) -> (r: AppResult<()>)
    ensures
        r is Ok <==> projection_valid(*projection, encoded_len as nat),
{
    let session_len = byte_len(projection.peer_session_id.as_str());
    if projection.schema_version != owned(PEER_CAPABILITY_SCHEMA) || session_len == 0 || session_len
        > 256 || projection.observed_at <= 0 || projection.capabilities.len() > 16 || encoded_len
        > MAX_PAYLOAD_BYTES {
        return Err(AppError::InvalidInput("Invalid peer capability projection."));
    }
    let caps = &projection.capabilities;
    let mut i: usize = 0;
    while i < caps.len()
        invariant
            caps@ == projection.capabilities@,
            projection.schema_version@ == PEER_CAPABILITY_SCHEMA@,
            0 < utf8(projection.peer_session_id@).len() <= 256,
            projection.observed_at > 0,
            projection.capabilities@.len() <= 16,
            encoded_len <= MAX_PAYLOAD_BYTES,
            i <= caps@.len(),
            forall|k: int| 0 <= k < i ==> fact_valid(#[trigger] caps@[k]),
            forall|a: int, b: int|
                0 <= a < b < i ==> #[trigger] caps@[a].capability_id@ != #[trigger] caps@[b].capability_id@,
        decreases caps@.len() - i,
    {
        if !fact_ok(&caps[i]) {
            assert(!fact_valid(projection.capabilities@[i as int]));
            return Err(AppError::InvalidInput("Invalid peer capability fact."));
        }
        let mut j: usize = 0;
        while j < i
            invariant
                caps@ == projection.capabilities@,
                j <= i < caps@.len(),
                forall|a: int| 0 <= a < j ==> #[trigger] caps@[a].capability_id@ != caps@[i as int].capability_id@,
            decreases i - j,
        {
            if caps[j].capability_id == caps[i].capability_id {
                assert(projection.capabilities@[j as int].capability_id@
                    == projection.capabilities@[i as int].capability_id@);
                return Err(AppError::InvalidInput("Invalid peer capability fact."));
            }
            j = j + 1;
        }
        i = i + 1;
    }
    Ok(())
}

/// One stored projection, under its room, session and observation route.
pub struct StoredProjection {
    pub room_id: String,
    pub peer_session_id: String,
    pub peer_observation_ref: String,
    pub projection: PeerCapabilityProjection,
}

/// Which stored projections a removal drops.
pub enum StoreSelector<'a> {
    Room(&'a str),
    Key(&'a str, &'a str, &'a str),
}

pub open spec fn drops_key(sel: StoreSelector, room: Seq<char>, session: Seq<char>, route: Seq<char>) -> bool {
    match sel {
        StoreSelector::Room(r) => room == r@,
        StoreSelector::Key(r, s, o) => room == r@ && session == s@ && route == o@,
    }
}

pub open spec fn drops(sel: StoreSelector, e: StoredProjection) -> bool {
    drops_key(sel, e.room_id@, e.peer_session_id@, e.peer_observation_ref@)
}

/// The entries that `sel` keeps, in order.
pub open spec fn kept(s: Seq<StoredProjection>, sel: StoreSelector) -> Seq<StoredProjection>
    decreases s.len(),
{
    if s.len() == 0 {
        s
    } else if drops(sel, s.last()) {
        kept(s.drop_last(), sel)
    } else {
        kept(s.drop_last(), sel).push(s.last())
    }
}

/// The projection stored under a room, session and observation route: that
/// of the latest matching entry.
pub open spec fn stored_under(
    s: Seq<StoredProjection>,
    room: Seq<char>,
    session: Seq<char>,
    route: Seq<char>,
) -> Option<PeerCapabilityProjection>
    decreases s.len(),
{
    if s.len() == 0 {
        None
    } else if s.last().room_id@ == room && s.last().peer_session_id@ == session
        && s.last().peer_observation_ref@ == route {
        Some(s.last().projection)
    } else {
        stored_under(s.drop_last(), room, session, route)
    }
}

/// Removing what `sel` drops leaves every other key's projection and none of the dropped.
proof fn lemma_kept_lookup(
    s: Seq<StoredProjection>,
    sel: StoreSelector,
    room: Seq<char>,
    session: Seq<char>,
    route: Seq<char>,
)
    ensures
        stored_under(kept(s, sel), room, session, route) == if drops_key(sel, room, session, route) {
            None
        } else {
            stored_under(s, room, session, route)
        },
    decreases s.len(),
{
    if s.len() > 0 {
        lemma_kept_lookup(s.drop_last(), sel, room, session, route);
        if !drops(sel, s.last()) {
            assert(kept(s, sel).drop_last() =~= kept(s.drop_last(), sel));
        }
    }
}

/// Current-session capability projections, by room, session and route.
pub struct PeerCapabilityStore {
    entries: Vec<StoredProjection>,
}

impl PeerCapabilityStore {
    pub closed spec fn spec_entries(&self) -> Seq<StoredProjection> {
        self.entries@
    }

    /// The projection stored under `room`, `session` and `route`.
    pub open spec fn lookup(&self, room: Seq<char>, session: Seq<char>, route: Seq<char>) -> Option<
        PeerCapabilityProjection,
    > {
        stored_under(self.spec_entries(), room, session, route)
    }

    pub fn new() -> (r: PeerCapabilityStore)
        ensures
            forall|a: Seq<char>, b: Seq<char>, c: Seq<char>| r.lookup(a, b, c) is None,
    {
        PeerCapabilityStore { entries: Vec::new() }
    }

    fn remove_where(&mut self, sel: StoreSelector)
        ensures
            final(self).spec_entries() == kept(old(self).spec_entries(), sel),
    {
        let ghost old_entries = self.entries@;
        let mut rest: Vec<StoredProjection> = Vec::new();
        std::mem::swap(&mut rest, &mut self.entries);
        let mut kept_entries: Vec<StoredProjection> = Vec::new();
        let mut taken: Vec<StoredProjection> = Vec::new();
        // Walk the old entries front to back by reversing them once.
        while rest.len() > 0
            invariant
                taken@.len() + rest@.len() == old_entries.len(),
                rest@ == old_entries.subrange(0, rest@.len() as int),
                forall|k: int| 0 <= k < taken@.len() ==> #[trigger] taken@[k] == old_entries[old_entries.len() - 1 - k],
            decreases rest@.len(),
        {
            let e = rest.pop().unwrap();
            taken.push(e);
        }
        while taken.len() > 0
            invariant
                taken@.len() <= old_entries.len(),
                forall|k: int| 0 <= k < taken@.len() ==> #[trigger] taken@[k] == old_entries[old_entries.len() - 1 - k],
                kept_entries@ == kept(old_entries.subrange(0, old_entries.len() - taken@.len()), sel),
            decreases taken@.len(),
        {
            let ghost n = old_entries.len() - taken@.len();
            let e = taken.pop().unwrap();
            assert(e == old_entries[n]);
            let ghost prefix = old_entries.subrange(0, n + 1);
            assert(prefix.drop_last() =~= old_entries.subrange(0, n));
            assert(prefix.last() == e);
            let drop = match sel {
                StoreSelector::Room(room) => e.room_id == owned(room),
                StoreSelector::Key(room, session, route) => e.room_id == owned(room)
                    && e.peer_session_id == owned(session) && e.peer_observation_ref == owned(route),
            };
            if !drop {
                kept_entries.push(e);
            }
        }
        assert(old_entries.subrange(0, old_entries.len() as int) =~= old_entries);
        self.entries = kept_entries;
    }

    /// Stores a valid projection of session `session` (whose encoding is
    /// `encoded_len` bytes) under `room`, `session` and `route`, replacing
    /// any earlier one there.
    pub fn observe(
        &mut self,
        room: &str,
        session: &str,
        route: &str,
        projection: PeerCapabilityProjection,
        encoded_len: usize,
        received_at: i64,
    ) -> (r: AppResult<()>)
        ensures
            r is Ok <==> (projection_valid(projection, encoded_len as nat) && projection.peer_session_id@
                == session@),
            r is Ok ==> final(self).lookup(room@, session@, route@) == Some(projection),
            r is Ok ==> forall|a: Seq<char>, b: Seq<char>, c: Seq<char>|
                !(a == room@ && b == session@ && c == route@) ==> #[trigger] final(self).lookup(a, b, c)
                    == old(self).lookup(a, b, c),
            r is Err ==> final(self).spec_entries() == old(self).spec_entries(),
    {
        validate_projection(&projection, encoded_len)?;
        if projection.peer_session_id != owned(session) {
            return Err(AppError::InvalidInput("Peer capability session mismatch."));
        }
        let ghost before = self.entries@;
        self.remove_where(StoreSelector::Key(room, session, route));
        let e = StoredProjection {
            room_id: owned(room),
            peer_session_id: owned(session),
            peer_observation_ref: owned(route),
            projection,
        };
        let ghost middle = self.entries@;
        self.entries.push(e);
        proof {
            assert(self.entries@.drop_last() =~= middle);
            assert forall|a: Seq<char>, b: Seq<char>, c: Seq<char>|
                !(a == room@ && b == session@ && c == route@) implies #[trigger] stored_under(
                    self.entries@,
                    a,
                    b,
                    c,
                ) == stored_under(before, a, b, c) by {
                lemma_kept_lookup(before, StoreSelector::Key(room, session, route), a, b, c);
            }
        }
        Ok(())
    }

    /// Drops every projection of room `room`.
    pub fn purge_room(&mut self, room: &str)
        ensures
            forall|a: Seq<char>, b: Seq<char>, c: Seq<char>| #[trigger]
                final(self).lookup(a, b, c) == if a == room@ {
                    None
                } else {
                    old(self).lookup(a, b, c)
                },
    {
        let ghost before = self.entries@;
        self.remove_where(StoreSelector::Room(room));
        proof {
            assert forall|a: Seq<char>, b: Seq<char>, c: Seq<char>| #[trigger]
                stored_under(self.entries@, a, b, c) == if a == room@ {
                    None
                } else {
                    stored_under(before, a, b, c)
                } by {
                lemma_kept_lookup(before, StoreSelector::Room(room), a, b, c);
            }
        }
    }

    /// Drops the projection stored under `room`, `session` and `route`.
    pub fn remove_projection(&mut self, room: &str, session: &str, route: &str)
        ensures
            final(self).lookup(room@, session@, route@) is None,
            forall|a: Seq<char>, b: Seq<char>, c: Seq<char>|
                !(a == room@ && b == session@ && c == route@) ==> #[trigger] final(self).lookup(a, b, c)
                    == old(self).lookup(a, b, c),
    {
        let ghost before = self.entries@;
        self.remove_where(StoreSelector::Key(room, session, route));
        proof {
            lemma_kept_lookup(before, StoreSelector::Key(room, session, route), room@, session@, route@);
            assert forall|a: Seq<char>, b: Seq<char>, c: Seq<char>|
                !(a == room@ && b == session@ && c == route@) implies #[trigger] stored_under(
                    self.entries@,
                    a,
                    b,
                    c,
                ) == stored_under(before, a, b, c) by {
                lemma_kept_lookup(before, StoreSelector::Key(room, session, route), a, b, c);
            }
        }
    }

    /// The projection stored under `room`, `session` and `route`, if any.
    pub fn projection(&self, room: &str, session: &str, route: &str) -> (r: Option<&PeerCapabilityProjection>)
        ensures
            match r {
                Some(p) => self.lookup(room@, session@, route@) == Some(*p),
                None => self.lookup(room@, session@, route@) is None,
            },
    {
        let room_s = owned(room);
        let session_s = owned(session);
        let route_s = owned(route);
        let mut n: usize = self.entries.len();
        assert(self.entries@.subrange(0, n as int) =~= self.entries@);
        while n > 0
            invariant
                n <= self.entries@.len(),
                room_s@ == room@,
                session_s@ == session@,
                route_s@ == route@,
                stored_under(self.entries@, room@, session@, route@) == stored_under(
                    self.entries@.subrange(0, n as int),
                    room@,
                    session@,
                    route@,
                ),
            decreases n,
        {
            let ghost prefix = self.entries@.subrange(0, n as int);
            assert(prefix.last() == self.entries@[n - 1]);
            assert(prefix.drop_last() =~= self.entries@.subrange(0, n - 1));
            let e = &self.entries[n - 1];
            if e.room_id == room_s && e.peer_session_id == session_s && e.peer_observation_ref == route_s {
                return Some(&e.projection);
            }
            n = n - 1;
        }
        None
    }
}

/// A capability with no fact in a projection is unknown, never unavailable.
pub proof fn lemma_absent_capability_is_unknown(facts: Seq<HostCapabilityFact>, id: Seq<char>)
    requires
        forall|k: int| 0 <= k < facts.len() ==> (#[trigger] facts[k]).capability_id@ != id,
    ensures
        diagnostic_of(facts, id) == DiagnosticState::Unknown,
    decreases facts.len(),
{
    if facts.len() > 0 {
        assert(facts[0].capability_id@ != id);
        lemma_absent_capability_is_unknown(facts.drop_first(), id);
    }
}

/// Appending facts (such as system-probe observations) never changes the
/// diagnostic state of a capability the projection already reports.
pub proof fn lemma_append_keeps_reported_state(
    facts: Seq<HostCapabilityFact>,
    extra: Seq<HostCapabilityFact>,
    id: Seq<char>,
    k: int,
)
    requires
        0 <= k < facts.len(),
        facts[k].capability_id@ == id,
    ensures
        diagnostic_of(facts + extra, id) == diagnostic_of(facts, id),
    decreases facts.len(),
{
    assert((facts + extra)[0] == facts[0]);
    if facts[0].capability_id@ != id {
        assert((facts + extra).drop_first() =~= facts.drop_first() + extra);
        lemma_append_keeps_reported_state(facts.drop_first(), extra, id, k - 1);
    }
}

/// A capability's diagnostic state is what its first fact reports:
/// available whenever that fact says it is available; otherwise not
/// configured, unknown or unavailable by the fact's reason, and unknown
/// without a reason.
pub proof fn lemma_first_fact_decides(facts: Seq<HostCapabilityFact>, id: Seq<char>, k: int)
    requires
        0 <= k < facts.len(),
        facts[k].capability_id@ == id,
        forall|j: int| 0 <= j < k ==> (#[trigger] facts[j]).capability_id@ != id,
    ensures
        facts[k].available ==> diagnostic_of(facts, id) == DiagnosticState::Available,
        !facts[k].available && facts[k].unavailable_reason is None ==> diagnostic_of(facts, id)
            == DiagnosticState::Unknown,
        (facts[k].unavailable_reason matches Some(r) && !facts[k].available && r@ == REASON_NOT_CONFIGURED@)
            ==> diagnostic_of(facts, id) == DiagnosticState::NotConfigured,
        (facts[k].unavailable_reason matches Some(r) && !facts[k].available && (r@ == REASON_UNKNOWN@ || r@
            == REASON_PLAN_BINDING_REQUIRED@)) ==> diagnostic_of(facts, id) == DiagnosticState::Unknown,
        (facts[k].unavailable_reason matches Some(r) && !facts[k].available && r@ != REASON_NOT_CONFIGURED@
            && r@ != REASON_UNKNOWN@ && r@ != REASON_PLAN_BINDING_REQUIRED@) ==> diagnostic_of(facts, id)
            == DiagnosticState::Unavailable,
    decreases k,
{
    reveal_strlit("not_configured");
    reveal_strlit("unknown");
    reveal_strlit("plan_process_binding_required");
    assert(REASON_UNKNOWN@.len() != REASON_NOT_CONFIGURED@.len());
    assert(REASON_PLAN_BINDING_REQUIRED@.len() != REASON_NOT_CONFIGURED@.len());
    if k > 0 {
        assert(facts[0].capability_id@ != id);
        let rest = facts.drop_first();
        assert forall|j: int| 0 <= j < k - 1 implies (#[trigger] rest[j]).capability_id@ != id by {
            assert(rest[j] == facts[j + 1]);
        }
        lemma_first_fact_decides(rest, id, k - 1);
    }
}

/// Without any fact about it, a capability's diagnostic state is unknown.
pub proof fn lemma_no_fact_is_unknown(facts: Seq<HostCapabilityFact>, id: Seq<char>)
    requires
        forall|j: int| 0 <= j < facts.len() ==> (#[trigger] facts[j]).capability_id@ != id,
    ensures
        diagnostic_of(facts, id) == DiagnosticState::Unknown,
    decreases facts.len(),
{
    if facts.len() > 0 {
        assert(facts[0].capability_id@ != id);
        let rest = facts.drop_first();
        assert forall|j: int| 0 <= j < rest.len() implies (#[trigger] rest[j]).capability_id@ != id by {
            assert(rest[j] == facts[j + 1]);
        }
        lemma_no_fact_is_unknown(rest, id);
    }
}

} // verus!
