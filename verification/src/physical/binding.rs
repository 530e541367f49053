//! Untrusted binding views and pure identity matching. No enrollment or live proof.
use vstd::prelude::*;

use crate::encode::{
    enc_digest, enc_evidence, enc_label, enc_option_token, enc_text, enc_token, enc_token_list,
    enc_u64, put_digest, put_evidence, put_label, put_millis, put_option_token, put_text,
    put_token, put_token_list, put_u64,
};
use crate::error::{require, AppError, AppResult};
use crate::hashing::blake3_digest;
use crate::identity::HostRef;
use crate::text::{seq_lt, utf8};
use crate::values::{
    evidence_eq,
    BindingOfferId, BodyRefV1, DigestV1, DomainId, EnvironmentRefV1, EvidenceClassV1, IncarnationId,
    LabelV1, TokenV1, UnixMillis, VersionV1,
};

verus! {

/// Most subsystems per environment and most conflict domains per subsystem.
pub const MAX_SUBSYSTEMS: usize = 16;

pub const MAX_DOMAINS: usize = 16;

/// Consecutive tokens at `i` and `i + 1` are in strictly increasing order.
pub open spec fn token_ordered_at(s: Seq<TokenV1>, i: int) -> bool {
    seq_lt(utf8(s[i]@), utf8(s[i + 1]@))
}

/// Strictly increasing: unique and canonically ordered.
pub open spec fn tokens_strictly_ordered(s: Seq<TokenV1>) -> bool {
    forall|i: int| 0 <= i < s.len() - 1 ==> #[trigger] token_ordered_at(s, i)
}

/// One subsystem of an environment: a body with its incarnations and the
/// conflict domains that it occupies.
#[derive(Clone, Debug, PartialEq, Eq)]
pub struct SubsystemBindingViewV1 {
    pub body: BodyRefV1,
    pub controller_incarnation: IncarnationId,
    pub body_incarnation: IncarnationId,
    pub world_incarnation: Option<IncarnationId>,
    pub configuration_digest: DigestV1,
    pub policy_digest: DigestV1,
    pub domains: Vec<DomainId>,
}

/// 1..=16 conflict domains, unique and canonically ordered.
pub open spec fn subsystem_valid(s: SubsystemBindingViewV1) -> bool {
    &&& 0 < s.domains@.len() <= MAX_DOMAINS
    &&& tokens_strictly_ordered(s.domains@)
}

#[verifier::opaque]
pub open spec fn enc_subsystem(s: SubsystemBindingViewV1) -> Seq<u8> {
    enc_token(s.body) + enc_token(s.controller_incarnation) + enc_token(s.body_incarnation)
        + enc_option_token(s.world_incarnation) + enc_digest(s.configuration_digest) + enc_digest(
        s.policy_digest,
    ) + enc_token_list(s.domains@)
}

impl SubsystemBindingViewV1 {
    pub fn validate(&self) -> (r: AppResult<()>)
        ensures
            r is Ok <==> subsystem_valid(*self),
    {
        require(
            !self.domains.is_empty() && self.domains.len() <= MAX_DOMAINS,
            "A subsystem needs bounded conflict domains",
        )?;
        let mut i: usize = 0;
        while i + 1 < self.domains.len()
            invariant
                0 < self.domains@.len() <= MAX_DOMAINS,
                i < self.domains@.len(),
                forall|j: int| 0 <= j < i ==> #[trigger] token_ordered_at(self.domains@, j),
            decreases self.domains@.len() - i,
        {
            if !self.domains[i].precedes(&self.domains[i + 1]) {
                assert(!token_ordered_at(self.domains@, i as int));
                return Err(AppError::InvalidInput("Conflict domains must be unique and canonically ordered"));
            }
            i = i + 1;
        }
        Ok(())
    }

    pub fn encode(&self, buf: &mut Vec<u8>)
        ensures
            final(buf)@ == old(buf)@ + enc_subsystem(*self),
    {
        put_token(buf, &self.body);
        put_token(buf, &self.controller_incarnation);
        put_token(buf, &self.body_incarnation);
        put_option_token(buf, &self.world_incarnation);
        put_digest(buf, &self.configuration_digest);
        put_digest(buf, &self.policy_digest);
        put_token_list(buf, &self.domains);
        assert(buf@ =~= old(buf)@ + enc_subsystem(*self)) by {
            reveal(enc_subsystem);
        }
    }
}

/// A named subsystem. A binding keeps its entries in strictly increasing
/// label order, the canonical form of a map without duplicate keys.
#[derive(Clone, Debug, PartialEq, Eq)]
pub struct SubsystemEntryV1 {
    pub label: LabelV1,
    pub subsystem: SubsystemBindingViewV1,
}

pub open spec fn entry_ordered_at(s: Seq<SubsystemEntryV1>, i: int) -> bool {
    seq_lt(utf8(s[i].label@), utf8(s[i + 1].label@))
}

pub open spec fn enc_entry(e: SubsystemEntryV1) -> Seq<u8> {
    enc_label(e.label) + enc_subsystem(e.subsystem)
}

pub open spec fn enc_entry_items(s: Seq<SubsystemEntryV1>) -> Seq<u8>
    decreases s.len(),
{
    if s.len() == 0 {
        Seq::empty()
    } else {
        enc_entry_items(s.drop_last()) + enc_entry(s.last())
    }
}

/// An untrusted view of an environment binding offered by an executor.
#[derive(Clone, Debug, PartialEq, Eq)]
pub struct EnvironmentBindingViewV1 {
    pub version: VersionV1,
    pub environment: EnvironmentRefV1,
    pub executor: HostRef,
    pub registration_revision: u64,
    pub adapter_incarnation: IncarnationId,
    pub subsystems: Vec<SubsystemEntryV1>,
    pub evidence_class: EvidenceClassV1,
    pub configuration_digest: DigestV1,
    pub offer_id: BindingOfferId,
    pub offer_expiry: UnixMillis,
}

/// Every subsystem is valid and claims a world incarnation exactly in simulation.
pub open spec fn subsystem_entry_ok(b: EnvironmentBindingViewV1, i: int) -> bool {
    &&& subsystem_valid(b.subsystems@[i].subsystem)
    &&& (b.subsystems@[i].subsystem.world_incarnation is Some) == (b.evidence_class
        == EvidenceClassV1::Simulation)
}

pub open spec fn binding_valid(b: EnvironmentBindingViewV1) -> bool {
    &&& b.registration_revision > 0
    &&& 0 < b.subsystems@.len() <= MAX_SUBSYSTEMS
    &&& forall|i: int| 0 <= i < b.subsystems@.len() - 1 ==> #[trigger] entry_ordered_at(b.subsystems@, i)
    &&& forall|i: int| 0 <= i < b.subsystems@.len() ==> #[trigger] subsystem_entry_ok(b, i)
}

pub open spec fn enc_binding_head(b: EnvironmentBindingViewV1) -> Seq<u8> {
    enc_token(b.environment) + enc_text(b.executor@) + enc_u64(b.registration_revision)
        + enc_token(b.adapter_incarnation) + enc_u64(b.subsystems@.len() as u64)
}

pub open spec fn enc_binding_tail(b: EnvironmentBindingViewV1) -> Seq<u8> {
    enc_evidence(b.evidence_class) + enc_digest(b.configuration_digest) + enc_token(b.offer_id)
        + enc_u64(b.offer_expiry.spec_get())
}

#[verifier::opaque]
pub open spec fn enc_binding(b: EnvironmentBindingViewV1) -> Seq<u8> {
    enc_binding_head(b) + enc_entry_items(b.subsystems@) + enc_binding_tail(b)
}

/// The digest of a binding view: BLAKE3 over its domain separator and encoding.
pub open spec fn binding_digest(b: EnvironmentBindingViewV1) -> Seq<u8> {
    blake3_digest(utf8("pastey-physical-binding-view-v1"@) + seq![0u8] + enc_binding(b))
}

/// Inserts `t`, whose text `s` does not hold, where the strict order of
/// `s` keeps.
fn insert_token_sorted(s: &mut Vec<TokenV1>, t: TokenV1)
    requires
        tokens_strictly_ordered(old(s)@),
        forall|k: int, l: int| 0 <= k < l < old(s)@.len() ==> old(s)@[k]@ != old(s)@[l]@,
        !token_listed(old(s)@, t@),
    ensures
        tokens_strictly_ordered(final(s)@),
        forall|k: int, l: int| 0 <= k < l < final(s)@.len() ==> final(s)@[k]@ != final(s)@[l]@,
        forall|d: Seq<char>| #[trigger] token_listed(final(s)@, d) == (token_listed(old(s)@, d) || d == t@),
{
    let mut pos: usize = 0;
    while pos < s.len() && !t.precedes(&s[pos])
        invariant
            pos <= s@.len(),
            forall|k: int| 0 <= k < pos ==> !seq_lt(utf8(t@), utf8(#[trigger] s@[k]@)),
        decreases s@.len() - pos,
    {
        pos = pos + 1;
    }
    let ghost before = s@;
    let ghost tv = t@;
    s.insert(pos, t);
    proof {
        assert(s@ =~= before.insert(pos as int, s@[pos as int]));
        assert forall|k: int| 0 <= k < s@.len() - 1 implies #[trigger] token_ordered_at(s@, k) by {
            if k + 1 < pos {
                assert(s@[k] == before[k]);
                assert(s@[k + 1] == before[k + 1]);
                assert(token_ordered_at(before, k));
            } else if k + 1 == pos {
                assert(s@[k] == before[k]);
                assert(before[k]@ != tv);
                vstd::utf8::encode_utf8_decode_utf8(before[k]@);
                vstd::utf8::encode_utf8_decode_utf8(tv);
                crate::text::lemma_seq_lt_total(utf8(before[k]@), utf8(tv));
            } else if k == pos {
                assert(s@[k + 1] == before[k]);
            } else {
                assert(s@[k] == before[k - 1]);
                assert(s@[k + 1] == before[k]);
                assert(token_ordered_at(before, k - 1));
            }
        }
        assert forall|x: int, y: int| 0 <= x < y < s@.len() implies s@[x]@ != s@[y]@ by {
            if x == pos {
                assert(s@[y] == before[y - 1]);
            } else if y == pos {
                assert(s@[x] == before[x]);
            } else {
                let bx = if x < pos { x } else { x - 1 };
                let by_ = if y < pos { y } else { y - 1 };
                assert(s@[x] == before[bx]);
                assert(s@[y] == before[by_]);
            }
        }
        assert forall|d: Seq<char>| #[trigger] token_listed(s@, d) == (token_listed(before, d) || d == tv) by {
            if token_listed(before, d) {
                let k = choose|k: int| 0 <= k < before.len() && before[k]@ == d;
                let sk = if k < pos { k } else { k + 1 };
                assert(s@[sk]@ == d);
            }
            if d == tv {
                assert(s@[pos as int]@ == d);
            }
            if token_listed(s@, d) && d != tv {
                let k = choose|k: int| 0 <= k < s@.len() && s@[k]@ == d;
                let bk = if k < pos { k } else { k - 1 };
                assert(k != pos);
                assert(before[bk]@ == d);
            }
        }
    }
}

/// Whether some token of `s` has the text `d`.
pub open spec fn token_listed(s: Seq<TokenV1>, d: Seq<char>) -> bool {
    exists|k: int| 0 <= k < s.len() && s[k]@ == d
}

/// Whether `d` is a conflict domain of some subsystem.
pub open spec fn binding_has_domain(b: EnvironmentBindingViewV1, d: Seq<char>) -> bool {
    exists|i: int, j: int|
        0 <= i < b.subsystems@.len() && 0 <= j < b.subsystems@[i].subsystem.domains@.len()
            && #[trigger] b.subsystems@[i].subsystem.domains@[j]@ == d
}

pub fn domain_bytes(domain: &str) -> (r: &[u8])
    ensures
        r@ == utf8(domain@),
{
    let b = domain.as_bytes();
    assert(b@ == vstd::string::StringSliceAdditionalSpecFns::spec_bytes(domain));
    b
}

impl EnvironmentBindingViewV1 {
    #[verifier::rlimit(40)]
    pub fn validate(&self) -> (r: AppResult<()>)
        ensures
            r is Ok <==> binding_valid(*self),
    {
        require(self.registration_revision > 0, "Missing registration revision")?;
        require(
            !self.subsystems.is_empty() && self.subsystems.len() <= MAX_SUBSYSTEMS,
            "Invalid subsystem count",
        )?;
        let mut i: usize = 0;
        while i < self.subsystems.len()
            invariant
                i <= self.subsystems@.len(),
                0 < self.subsystems@.len() <= MAX_SUBSYSTEMS,
                self.registration_revision > 0,
                forall|j: int| 0 <= j < i ==> #[trigger] subsystem_entry_ok(*self, j),
                forall|j: int|
                    0 <= j < i && j < self.subsystems@.len() - 1 ==> #[trigger] entry_ordered_at(
                        self.subsystems@,
                        j,
                    ),
            decreases self.subsystems@.len() - i,
        {
            let entry = &self.subsystems[i];
            if entry.subsystem.validate().is_err() {
                assert(!subsystem_entry_ok(*self, i as int));
                return Err(AppError::InvalidInput("A subsystem needs bounded, ordered conflict domains"));
            }
            let simulated = match self.evidence_class {
                EvidenceClassV1::Simulation => true,
                EvidenceClassV1::Hardware => false,
            };
            if entry.subsystem.world_incarnation.is_some() != simulated {
                assert(!subsystem_entry_ok(*self, i as int));
                return Err(AppError::InvalidInput("Simulation requires a world incarnation; hardware must not claim one"));
            }
            if i + 1 < self.subsystems.len() && !entry.label.precedes(&self.subsystems[i + 1].label) {
                assert(!entry_ordered_at(self.subsystems@, i as int));
                return Err(AppError::InvalidInput("Duplicate/excess subsystem"));
            }
            i = i + 1;
        }
        Ok(())
    }

    #[verifier::rlimit(40)]
    pub fn encode(&self, buf: &mut Vec<u8>)
        ensures
            final(buf)@ == old(buf)@ + enc_binding(*self),
    {
        let ghost b0 = buf@;
        put_token(buf, &self.environment);
        put_text(buf, self.executor.as_str());
        put_u64(buf, self.registration_revision);
        put_token(buf, &self.adapter_incarnation);
        put_u64(buf, self.subsystems.len() as u64);
        let ghost start = buf@;
        assert(start =~= b0 + enc_binding_head(*self));
        let mut i: usize = 0;
        while i < self.subsystems.len()
            invariant
                i <= self.subsystems@.len(),
                buf@ == start + enc_entry_items(self.subsystems@.subrange(0, i as int)),
            decreases self.subsystems@.len() - i,
        {
            let ghost before = buf@;
            put_label(buf, &self.subsystems[i].label);
            self.subsystems[i].subsystem.encode(buf);
            proof {
                let s = self.subsystems@.subrange(0, i + 1);
                assert(s.drop_last() =~= self.subsystems@.subrange(0, i as int));
                assert(s.last() == self.subsystems@[i as int]);
                assert(buf@ =~= before + enc_entry(self.subsystems@[i as int]));
                assert(enc_entry_items(s) == enc_entry_items(s.drop_last()) + enc_entry(s.last()));
                assert(buf@ =~= start + enc_entry_items(s));
            }
            i = i + 1;
        }
        assert(self.subsystems@.subrange(0, self.subsystems@.len() as int) =~= self.subsystems@);
        let ghost mid = buf@;
        put_evidence(buf, self.evidence_class);
        put_digest(buf, &self.configuration_digest);
        put_token(buf, &self.offer_id);
        put_millis(buf, &self.offer_expiry);
        assert(buf@ =~= mid + enc_binding_tail(*self));
        assert(mid == start + enc_entry_items(self.subsystems@));
        assert(buf@ =~= old(buf)@ + enc_binding(*self)) by {
            reveal(enc_binding);
        }
    }

    /// The digest of a valid view; refuses an invalid one.
    pub fn digest(&self) -> (r: AppResult<DigestV1>)
        ensures
            r is Ok <==> binding_valid(*self),
            r matches Ok(d) ==> d@ == binding_digest(*self),
    {
        self.validate()?;
        let mut buf: Vec<u8> = Vec::new();
        self.encode(&mut buf);
        assert(buf@ =~= enc_binding(*self));
        Ok(DigestV1::of(domain_bytes("pastey-physical-binding-view-v1"), buf.as_slice()))
    }

    /// A valid view naming exactly this executor Host and environment.
    pub fn validate_selection(&self, host: &HostRef, environment: &EnvironmentRefV1) -> (r:
        AppResult<()>)
        ensures
            r is Ok <==> (binding_valid(*self) && self.executor@ == host@ && self.environment@
                == environment@),
    {
        self.validate()?;
        require(
            self.executor.same(host) && self.environment.same(environment),
            "Physical target mismatch",
        )
    }

    /// Every conflict domain of every subsystem, each once, in the order
    /// of the domain identifiers.
    pub fn domains(&self) -> (r: Vec<DomainId>)
        ensures
            tokens_strictly_ordered(r@),
            forall|k: int| 0 <= k < r@.len() ==> binding_has_domain(*self, #[trigger] r@[k]@),
            forall|a: int, b: int|
                0 <= a < self.subsystems@.len() && 0 <= b < self.subsystems@[a].subsystem.domains@.len()
                    ==> token_listed(r@, #[trigger] self.subsystems@[a].subsystem.domains@[b]@),
            forall|k: int, l: int| 0 <= k < l < r@.len() ==> r@[k]@ != r@[l]@,
            forall|d: Seq<char>| #[trigger] token_listed(r@, d) == binding_has_domain(*self, d),
    {
        let mut out: Vec<DomainId> = Vec::new();
        let mut i: usize = 0;
        while i < self.subsystems.len()
            invariant
                i <= self.subsystems@.len(),
                tokens_strictly_ordered(out@),
                forall|k: int, l: int| 0 <= k < l < out@.len() ==> out@[k]@ != out@[l]@,
                forall|k: int| 0 <= k < out@.len() ==> binding_has_domain(*self, #[trigger] out@[k]@),
                forall|a: int, b: int|
                    0 <= a < i && 0 <= b < self.subsystems@[a].subsystem.domains@.len()
                        ==> token_listed(out@, #[trigger] self.subsystems@[a].subsystem.domains@[b]@),
            decreases self.subsystems@.len() - i,
        {
            let domains = &self.subsystems[i].subsystem.domains;
            let mut j: usize = 0;
            while j < domains.len()
                invariant
                    i < self.subsystems@.len(),
                    *domains == self.subsystems@[i as int].subsystem.domains,
                    j <= domains@.len(),
                    tokens_strictly_ordered(out@),
                    forall|k: int, l: int| 0 <= k < l < out@.len() ==> out@[k]@ != out@[l]@,
                    forall|k: int| 0 <= k < out@.len() ==> binding_has_domain(*self, #[trigger] out@[k]@),
                    forall|a: int, b: int|
                        0 <= a < i && 0 <= b < self.subsystems@[a].subsystem.domains@.len()
                            ==> token_listed(out@, #[trigger] self.subsystems@[a].subsystem.domains@[b]@),
                    forall|b: int| 0 <= b < j ==> token_listed(out@, #[trigger] domains@[b]@),
                decreases domains@.len() - j,
            {
                let mut found = false;
                let mut k: usize = 0;
                while k < out.len()
                    invariant
                        k <= out@.len(),
                        j < domains@.len(),
                        found ==> token_listed(out@, domains@[j as int]@),
                        !found ==> forall|m: int| 0 <= m < k ==> out@[m]@ != domains@[j as int]@,
                    decreases out@.len() - k,
                {
                    if out[k].same(&domains[j]) {
                        found = true;
                    }
                    k = k + 1;
                }
                let ghost before = out@;
                if !found {
                    proof {
                        assert(binding_has_domain(*self, domains@[j as int]@)) by {
                            assert(self.subsystems@[i as int].subsystem.domains@[j as int]@
                                == domains@[j as int]@);
                        }
                    }
                    insert_token_sorted(&mut out, domains[j].duplicate());
                    proof {
                        assert forall|t: Seq<char>| token_listed(before, t) implies token_listed(out@, t) by {}
                        assert(token_listed(out@, domains@[j as int]@));
                        assert forall|k: int| 0 <= k < out@.len() implies binding_has_domain(*self, #[trigger] out@[k]@) by {
                            assert(token_listed(out@, out@[k]@));
                            if out@[k]@ != domains@[j as int]@ {
                                assert(token_listed(before, out@[k]@));
                                let m = choose|m: int| 0 <= m < before.len() && before[m]@ == out@[k]@;
                                assert(binding_has_domain(*self, before[m]@));
                            }
                        }
                    }
                }
                j = j + 1;
            }
            i = i + 1;
        }
        proof {
            assert forall|d: Seq<char>| #[trigger] token_listed(out@, d) == binding_has_domain(*self, d) by {
                if token_listed(out@, d) {
                    let k = choose|k: int| 0 <= k < out@.len() && out@[k]@ == d;
                    assert(binding_has_domain(*self, out@[k]@));
                }
                if binding_has_domain(*self, d) {
                    let (a, b) = choose|a: int, b: int|
                        0 <= a < self.subsystems@.len() && 0 <= b < self.subsystems@[a].subsystem.domains@.len()
                            && #[trigger] self.subsystems@[a].subsystem.domains@[b]@ == d;
                    assert(token_listed(out@, self.subsystems@[a].subsystem.domains@[b]@));
                }
            }
        }
        out
    }
}


/// Two token lists with the same texts, position by position.
pub open spec fn tokens_same(a: Seq<TokenV1>, b: Seq<TokenV1>) -> bool {
    a.len() == b.len() && forall|i: int| 0 <= i < a.len() ==> #[trigger] a[i]@ == b[i]@
}

pub open spec fn option_token_same(a: Option<TokenV1>, b: Option<TokenV1>) -> bool {
    match (a, b) {
        (None, None) => true,
        (Some(x), Some(y)) => x@ == y@,
        _ => false,
    }
}

/// Equality of every field, by value.
pub open spec fn subsystem_same(a: SubsystemBindingViewV1, b: SubsystemBindingViewV1) -> bool {
    &&& a.body@ == b.body@
    &&& a.controller_incarnation@ == b.controller_incarnation@
    &&& a.body_incarnation@ == b.body_incarnation@
    &&& option_token_same(a.world_incarnation, b.world_incarnation)
    &&& a.configuration_digest@ == b.configuration_digest@
    &&& a.policy_digest@ == b.policy_digest@
    &&& tokens_same(a.domains@, b.domains@)
}

pub open spec fn entry_same(a: SubsystemEntryV1, b: SubsystemEntryV1) -> bool {
    a.label@ == b.label@ && subsystem_same(a.subsystem, b.subsystem)
}

pub open spec fn entries_same(a: Seq<SubsystemEntryV1>, b: Seq<SubsystemEntryV1>) -> bool {
    a.len() == b.len() && forall|i: int| 0 <= i < a.len() ==> #[trigger] entry_same(a[i], b[i])
}

/// Equality of every field, by value.
pub open spec fn binding_same(a: EnvironmentBindingViewV1, b: EnvironmentBindingViewV1) -> bool {
    &&& a.environment@ == b.environment@
    &&& a.executor@ == b.executor@
    &&& a.registration_revision == b.registration_revision
    &&& a.adapter_incarnation@ == b.adapter_incarnation@
    &&& entries_same(a.subsystems@, b.subsystems@)
    &&& a.evidence_class == b.evidence_class
    &&& a.configuration_digest@ == b.configuration_digest@
    &&& a.offer_id@ == b.offer_id@
    &&& a.offer_expiry.spec_get() == b.offer_expiry.spec_get()
}

pub fn duplicate_tokens(v: &Vec<TokenV1>) -> (r: Vec<TokenV1>)
    ensures
        tokens_same(r@, v@),
{
    let mut out: Vec<TokenV1> = Vec::new();
    let mut i: usize = 0;
    while i < v.len()
        invariant
            i <= v@.len(),
            out@.len() == i,
            forall|j: int| 0 <= j < i ==> #[trigger] out@[j]@ == v@[j]@,
        decreases v@.len() - i,
    {
        out.push(v[i].duplicate());
        i = i + 1;
    }
    out
}

proof fn lemma_token_items_same(a: Seq<TokenV1>, b: Seq<TokenV1>)
    requires
        tokens_same(a, b),
    ensures
        crate::encode::enc_token_items(a) == crate::encode::enc_token_items(b),
    decreases a.len(),
{
    if a.len() > 0 {
        assert(tokens_same(a.drop_last(), b.drop_last()));
        lemma_token_items_same(a.drop_last(), b.drop_last());
        assert(a.last()@ == b.last()@);
    }
}

/// Same-valued subsystems have the same encoding and the same validity.
pub proof fn lemma_subsystem_same(a: SubsystemBindingViewV1, b: SubsystemBindingViewV1)
    requires
        subsystem_same(a, b),
    ensures
        enc_subsystem(a) == enc_subsystem(b),
        subsystem_valid(a) == subsystem_valid(b),
        (a.world_incarnation is Some) == (b.world_incarnation is Some),
{
    reveal(enc_subsystem);
    lemma_token_items_same(a.domains@, b.domains@);
    assert(enc_option_token(a.world_incarnation) == enc_option_token(b.world_incarnation));
    assert forall|i: int| 0 <= i < a.domains@.len() - 1 implies #[trigger] token_ordered_at(
        a.domains@,
        i,
    ) == token_ordered_at(b.domains@, i) by {
        assert(a.domains@[i]@ == b.domains@[i]@);
        assert(a.domains@[i + 1]@ == b.domains@[i + 1]@);
    }
    if subsystem_valid(a) {
        assert forall|i: int| 0 <= i < b.domains@.len() - 1 implies #[trigger] token_ordered_at(
            b.domains@,
            i,
        ) by {
            assert(token_ordered_at(a.domains@, i));
        }
    }
    if subsystem_valid(b) {
        assert forall|i: int| 0 <= i < a.domains@.len() - 1 implies #[trigger] token_ordered_at(
            a.domains@,
            i,
        ) by {
            assert(token_ordered_at(b.domains@, i));
        }
    }
}

proof fn lemma_entry_items_same(a: Seq<SubsystemEntryV1>, b: Seq<SubsystemEntryV1>)
    requires
        entries_same(a, b),
    ensures
        enc_entry_items(a) == enc_entry_items(b),
    decreases a.len(),
{
    if a.len() > 0 {
        assert(entries_same(a.drop_last(), b.drop_last())) by {
            assert forall|i: int| 0 <= i < a.drop_last().len() implies #[trigger] entry_same(
                a.drop_last()[i],
                b.drop_last()[i],
            ) by {
                assert(entry_same(a[i], b[i]));
            }
        }
        lemma_entry_items_same(a.drop_last(), b.drop_last());
        assert(entry_same(a[a.len() - 1], b[b.len() - 1]));
        lemma_subsystem_same(a.last().subsystem, b.last().subsystem);
    }
}

/// Same-valued bindings have the same encoding, digest, validity and domains.
pub proof fn lemma_binding_same(a: EnvironmentBindingViewV1, b: EnvironmentBindingViewV1)
    requires
        binding_same(a, b),
    ensures
        enc_binding(a) == enc_binding(b),
        binding_digest(a) == binding_digest(b),
        binding_valid(a) == binding_valid(b),
        forall|l: Seq<char>, d: Seq<char>| #[trigger] crate::physical::contracts::binding_offers(a, l, d)
            == crate::physical::contracts::binding_offers(b, l, d),
{
    reveal(enc_binding);
    lemma_entry_items_same(a.subsystems@, b.subsystems@);
    assert forall|i: int| 0 <= i < a.subsystems@.len() implies #[trigger] subsystem_entry_ok(a, i)
        == subsystem_entry_ok(b, i) by {
        assert(entry_same(a.subsystems@[i], b.subsystems@[i]));
        lemma_subsystem_same(a.subsystems@[i].subsystem, b.subsystems@[i].subsystem);
    }
    assert forall|i: int| 0 <= i < a.subsystems@.len() - 1 implies #[trigger] entry_ordered_at(
        a.subsystems@,
        i,
    ) == entry_ordered_at(b.subsystems@, i) by {
        assert(entry_same(a.subsystems@[i], b.subsystems@[i]));
        assert(entry_same(a.subsystems@[i + 1], b.subsystems@[i + 1]));
    }
    if binding_valid(a) {
        assert forall|i: int| 0 <= i < b.subsystems@.len() - 1 implies #[trigger] entry_ordered_at(
            b.subsystems@,
            i,
        ) by {
            assert(entry_ordered_at(a.subsystems@, i));
        }
        assert forall|i: int| 0 <= i < b.subsystems@.len() implies #[trigger] subsystem_entry_ok(
            b,
            i,
        ) by {
            assert(subsystem_entry_ok(a, i));
        }
    }
    if binding_valid(b) {
        assert forall|i: int| 0 <= i < a.subsystems@.len() - 1 implies #[trigger] entry_ordered_at(
            a.subsystems@,
            i,
        ) by {
            assert(entry_ordered_at(b.subsystems@, i));
        }
        assert forall|i: int| 0 <= i < a.subsystems@.len() implies #[trigger] subsystem_entry_ok(
            a,
            i,
        ) by {
            assert(subsystem_entry_ok(b, i));
        }
    }
    assert forall|l: Seq<char>, d: Seq<char>| #[trigger] crate::physical::contracts::binding_offers(a, l, d)
        == crate::physical::contracts::binding_offers(b, l, d) by {
        if crate::physical::contracts::binding_offers(a, l, d) {
            let i = choose|i: int|
                0 <= i < a.subsystems@.len() && #[trigger] a.subsystems@[i].label@ == l
                    && token_listed(a.subsystems@[i].subsystem.domains@, d);
            assert(entry_same(a.subsystems@[i], b.subsystems@[i]));
            let k = choose|k: int| 0 <= k < a.subsystems@[i].subsystem.domains@.len()
                && a.subsystems@[i].subsystem.domains@[k]@ == d;
            assert(b.subsystems@[i].subsystem.domains@[k]@ == d);
            assert(b.subsystems@[i].label@ == l);
        }
        if crate::physical::contracts::binding_offers(b, l, d) {
            let i = choose|i: int|
                0 <= i < b.subsystems@.len() && #[trigger] b.subsystems@[i].label@ == l
                    && token_listed(b.subsystems@[i].subsystem.domains@, d);
            assert(entry_same(a.subsystems@[i], b.subsystems@[i]));
            let k = choose|k: int| 0 <= k < b.subsystems@[i].subsystem.domains@.len()
                && b.subsystems@[i].subsystem.domains@[k]@ == d;
            assert(a.subsystems@[i].subsystem.domains@[k]@ == d);
            assert(a.subsystems@[i].label@ == l);
        }
    }
}

impl SubsystemBindingViewV1 {
    pub fn duplicate(&self) -> (r: SubsystemBindingViewV1)
        ensures
            subsystem_same(r, *self),
    {
        SubsystemBindingViewV1 {
            body: self.body.duplicate(),
            controller_incarnation: self.controller_incarnation.duplicate(),
            body_incarnation: self.body_incarnation.duplicate(),
            world_incarnation: match &self.world_incarnation {
                None => None,
                Some(w) => Some(w.duplicate()),
            },
            configuration_digest: self.configuration_digest.duplicate(),
            policy_digest: self.policy_digest.duplicate(),
            domains: duplicate_tokens(&self.domains),
        }
    }
}

impl EnvironmentBindingViewV1 {
    pub fn duplicate(&self) -> (r: EnvironmentBindingViewV1)
        ensures
            binding_same(r, *self),
    {
        let mut entries: Vec<SubsystemEntryV1> = Vec::new();
        let mut i: usize = 0;
        while i < self.subsystems.len()
            invariant
                i <= self.subsystems@.len(),
                entries@.len() == i,
                forall|j: int| 0 <= j < i ==> #[trigger] entry_same(entries@[j], self.subsystems@[j]),
            decreases self.subsystems@.len() - i,
        {
            entries.push(
                SubsystemEntryV1 {
                    label: self.subsystems[i].label.duplicate(),
                    subsystem: self.subsystems[i].subsystem.duplicate(),
                },
            );
            i = i + 1;
        }
        EnvironmentBindingViewV1 {
            version: VersionV1,
            environment: self.environment.duplicate(),
            executor: self.executor.duplicate(),
            registration_revision: self.registration_revision,
            adapter_incarnation: self.adapter_incarnation.duplicate(),
            subsystems: entries,
            evidence_class: self.evidence_class,
            configuration_digest: self.configuration_digest.duplicate(),
            offer_id: self.offer_id.duplicate(),
            offer_expiry: self.offer_expiry,
        }
    }

    /// Field-by-field equality, by value.
    pub fn same(&self, other: &EnvironmentBindingViewV1) -> (r: bool)
        ensures
            r == binding_same(*self, *other),
    {
        if !(self.environment.same(&other.environment) && self.executor.same(&other.executor)
            && self.registration_revision == other.registration_revision
            && self.adapter_incarnation.same(&other.adapter_incarnation) && evidence_eq(
            self.evidence_class,
            other.evidence_class,
        ) && self.configuration_digest.same(&other.configuration_digest) && self.offer_id.same(
            &other.offer_id,
        ) && self.offer_expiry.get() == other.offer_expiry.get()
            && self.subsystems.len() == other.subsystems.len()) {
            return false;
        }
        let mut i: usize = 0;
        while i < self.subsystems.len()
            invariant
                i <= self.subsystems@.len(),
                self.subsystems@.len() == other.subsystems@.len(),
                forall|j: int| 0 <= j < i ==> #[trigger] entry_same(self.subsystems@[j], other.subsystems@[j]),
            decreases self.subsystems@.len() - i,
        {
            let a = &self.subsystems[i];
            let b = &other.subsystems[i];
            let world = match (&a.subsystem.world_incarnation, &b.subsystem.world_incarnation) {
                (None, None) => true,
                (Some(x), Some(y)) => x.same(y),
                _ => false,
            };
            let mut domains = a.subsystem.domains.len() == b.subsystem.domains.len();
            if domains {
                let mut k: usize = 0;
                while k < a.subsystem.domains.len()
                    invariant
                        k <= a.subsystem.domains@.len(),
                        a.subsystem.domains@.len() == b.subsystem.domains@.len(),
                        domains ==> forall|m: int| 0 <= m < k ==> #[trigger] a.subsystem.domains@[m]@
                            == b.subsystem.domains@[m]@,
                        !domains ==> !tokens_same(a.subsystem.domains@, b.subsystem.domains@),
                    decreases a.subsystem.domains@.len() - k,
                {
                    if domains && !a.subsystem.domains[k].same(&b.subsystem.domains[k]) {
                        domains = false;
                    }
                    k = k + 1;
                }
            }
            if !(a.label.same(&b.label) && world && domains && a.subsystem.body.same(&b.subsystem.body)
                && a.subsystem.controller_incarnation.same(&b.subsystem.controller_incarnation)
                && a.subsystem.body_incarnation.same(&b.subsystem.body_incarnation)
                && a.subsystem.configuration_digest.same(&b.subsystem.configuration_digest)
                && a.subsystem.policy_digest.same(&b.subsystem.policy_digest)) {
                assert(!entry_same(self.subsystems@[i as int], other.subsystems@[i as int]));
                return false;
            }
            i = i + 1;
        }
        true
    }
}

/// Field-by-field equality of subsystems is an equivalence.
proof fn lemma_subsystem_same_equiv(a: SubsystemBindingViewV1, b: SubsystemBindingViewV1, c: SubsystemBindingViewV1)
    ensures
        subsystem_same(a, a),
        subsystem_same(a, b) ==> subsystem_same(b, a),
        subsystem_same(a, b) && subsystem_same(b, c) ==> subsystem_same(a, c),
{
    if subsystem_same(a, b) && subsystem_same(b, c) {
        assert forall|i: int| 0 <= i < a.domains@.len() implies #[trigger] a.domains@[i]@ == c.domains@[i]@ by {
            assert(a.domains@[i]@ == b.domains@[i]@);
            assert(b.domains@[i]@ == c.domains@[i]@);
        }
    }
    if subsystem_same(a, b) {
        assert forall|i: int| 0 <= i < b.domains@.len() implies #[trigger] b.domains@[i]@ == a.domains@[i]@ by {
            assert(a.domains@[i]@ == b.domains@[i]@);
        }
    }
}

/// Field-by-field equality of binding views is an equivalence.
/// Views equal by value occupy the same conflict domains.
pub proof fn lemma_same_domains(a: EnvironmentBindingViewV1, b: EnvironmentBindingViewV1, d: Seq<char>)
    requires
        binding_same(a, b),
    ensures
        binding_has_domain(a, d) <==> binding_has_domain(b, d),
{
    if binding_has_domain(a, d) {
        let (i, j) = choose|i: int, j: int|
            0 <= i < a.subsystems@.len() && 0 <= j < a.subsystems@[i].subsystem.domains@.len()
                && #[trigger] a.subsystems@[i].subsystem.domains@[j]@ == d;
        assert(entry_same(a.subsystems@[i], b.subsystems@[i]));
        assert(b.subsystems@[i].subsystem.domains@[j]@ == d);
    }
    if binding_has_domain(b, d) {
        let (i, j) = choose|i: int, j: int|
            0 <= i < b.subsystems@.len() && 0 <= j < b.subsystems@[i].subsystem.domains@.len()
                && #[trigger] b.subsystems@[i].subsystem.domains@[j]@ == d;
        assert(entry_same(a.subsystems@[i], b.subsystems@[i]));
        assert(a.subsystems@[i].subsystem.domains@[j]@ == d);
    }
}

/// Both views occupy exactly the same conflict domains.
pub open spec fn domain_sets_same(a: EnvironmentBindingViewV1, b: EnvironmentBindingViewV1) -> bool {
    forall|d: Seq<char>| #[trigger] binding_has_domain(a, d) == binding_has_domain(b, d)
}

/// Whether every token of `xs` is listed in `ys`.
pub fn all_listed(xs: &Vec<TokenV1>, ys: &Vec<TokenV1>) -> (r: bool)
    ensures
        r == forall|k: int| 0 <= k < xs@.len() ==> token_listed(ys@, (#[trigger] xs@[k])@),
{
    let mut k: usize = 0;
    while k < xs.len()
        invariant
            k <= xs@.len(),
            forall|m: int| 0 <= m < k ==> token_listed(ys@, (#[trigger] xs@[m])@),
        decreases xs@.len() - k,
    {
        let mut j: usize = 0;
        let mut found = false;
        while j < ys.len()
            invariant
                k < xs@.len(),
                j <= ys@.len(),
                found ==> token_listed(ys@, xs@[k as int]@),
                !found ==> forall|m: int| 0 <= m < j ==> ys@[m]@ != xs@[k as int]@,
            decreases ys@.len() - j,
        {
            if ys[j].same(&xs[k]) {
                found = true;
            }
            j = j + 1;
        }
        if !found {
            assert(!token_listed(ys@, xs@[k as int]@));
            return false;
        }
        k = k + 1;
    }
    true
}

impl EnvironmentBindingViewV1 {
    /// Whether both views occupy exactly the same conflict domains.
    pub fn same_domain_set(&self, other: &EnvironmentBindingViewV1) -> (r: bool)
        ensures
            r == domain_sets_same(*self, *other),
    {
        let a = self.domains();
        let b = other.domains();
        let ab = all_listed(&a, &b);
        let ba = all_listed(&b, &a);
        let r = ab && ba;
        proof {
            assert forall|d: Seq<char>| token_listed(a@, d) == binding_has_domain(*self, d) by {
                if token_listed(a@, d) {
                    let k = choose|k: int| 0 <= k < a@.len() && a@[k]@ == d;
                    assert(binding_has_domain(*self, a@[k]@));
                }
                if binding_has_domain(*self, d) {
                    let (i, j) = choose|i: int, j: int|
                        0 <= i < self.subsystems@.len() && 0 <= j < self.subsystems@[i].subsystem.domains@.len()
                            && #[trigger] self.subsystems@[i].subsystem.domains@[j]@ == d;
                    assert(token_listed(a@, self.subsystems@[i].subsystem.domains@[j]@));
                }
            }
            assert forall|d: Seq<char>| token_listed(b@, d) == binding_has_domain(*other, d) by {
                if token_listed(b@, d) {
                    let k = choose|k: int| 0 <= k < b@.len() && b@[k]@ == d;
                    assert(binding_has_domain(*other, b@[k]@));
                }
                if binding_has_domain(*other, d) {
                    let (i, j) = choose|i: int, j: int|
                        0 <= i < other.subsystems@.len() && 0 <= j < other.subsystems@[i].subsystem.domains@.len()
                            && #[trigger] other.subsystems@[i].subsystem.domains@[j]@ == d;
                    assert(token_listed(b@, other.subsystems@[i].subsystem.domains@[j]@));
                }
            }
            if r {
                assert forall|d: Seq<char>| #[trigger] binding_has_domain(*self, d) == binding_has_domain(*other, d) by {
                    if token_listed(a@, d) {
                        let k = choose|k: int| 0 <= k < a@.len() && a@[k]@ == d;
                        assert(token_listed(b@, a@[k]@));
                    }
                    if token_listed(b@, d) {
                        let k = choose|k: int| 0 <= k < b@.len() && b@[k]@ == d;
                        assert(token_listed(a@, b@[k]@));
                    }
                }
            } else {
                if !ab {
                    let k = choose|k: int| 0 <= k < a@.len() && !token_listed(b@, (#[trigger] a@[k])@);
                    assert(binding_has_domain(*self, a@[k]@) != binding_has_domain(*other, a@[k]@));
                } else {
                    let k = choose|k: int| 0 <= k < b@.len() && !token_listed(a@, (#[trigger] b@[k])@);
                    assert(binding_has_domain(*self, b@[k]@) != binding_has_domain(*other, b@[k]@));
                }
            }
        }
        r
    }
}

pub proof fn lemma_binding_same_equiv(a: EnvironmentBindingViewV1, b: EnvironmentBindingViewV1, c: EnvironmentBindingViewV1)
    ensures
        binding_same(a, a),
        binding_same(a, b) ==> binding_same(b, a),
        binding_same(a, b) && binding_same(b, c) ==> binding_same(a, c),
{
    assert forall|i: int| 0 <= i < a.subsystems@.len() implies #[trigger] entry_same(
        a.subsystems@[i],
        a.subsystems@[i],
    ) by {
        lemma_subsystem_same_equiv(a.subsystems@[i].subsystem, a.subsystems@[i].subsystem, a.subsystems@[i].subsystem);
    }
    if binding_same(a, b) {
        assert forall|i: int| 0 <= i < b.subsystems@.len() implies #[trigger] entry_same(
            b.subsystems@[i],
            a.subsystems@[i],
        ) by {
            assert(entry_same(a.subsystems@[i], b.subsystems@[i]));
            lemma_subsystem_same_equiv(a.subsystems@[i].subsystem, b.subsystems@[i].subsystem, a.subsystems@[i].subsystem);
        }
    }
    if binding_same(a, b) && binding_same(b, c) {
        assert forall|i: int| 0 <= i < a.subsystems@.len() implies #[trigger] entry_same(
            a.subsystems@[i],
            c.subsystems@[i],
        ) by {
            assert(entry_same(a.subsystems@[i], b.subsystems@[i]));
            assert(entry_same(b.subsystems@[i], c.subsystems@[i]));
            lemma_subsystem_same_equiv(a.subsystems@[i].subsystem, b.subsystems@[i].subsystem, c.subsystems@[i].subsystem);
        }
    }
}

} // verus!
