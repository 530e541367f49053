//! The trusted enrollment registry of one executor: which environments are
//! enrolled, the one Core-resolved live binding of each, and the recorded
//! qualifications. A binding view is only a claim until the registry resolves
//! it; a later enrollment, resolution or retirement makes earlier bindings stale.
use vstd::prelude::*;

use crate::error::{require, AppError, AppResult};
use crate::physical::binding::{
    binding_has_domain, binding_same, binding_valid, domain_sets_same, lemma_binding_same_equiv,
    lemma_same_domains, token_listed, EnvironmentBindingViewV1,
};
use crate::physical::domains::{
    bumpable, domains_unique, entry_listed, epoch_of, snapshot_holds, DomainEpochV1, DomainLedgerV1,
};
use crate::physical::contracts::{
    qualification_for, qualification_same, qualification_valid, PhysicalCapabilityProfileV1, PhysicalQualificationV1,
};
use crate::values::{DomainId, EnvironmentRefV1, QualificationId};

verus! {

/// A binding resolved by this registry. Only `resolve` makes one.
pub struct EnvironmentBindingV1 {
    view: EnvironmentBindingViewV1,
    resolution: u64,
    epochs: Vec<DomainEpochV1>,
}

/// Two snapshots list the same domains at the same epochs, in order.
pub open spec fn snapshots_same(a: Seq<DomainEpochV1>, b: Seq<DomainEpochV1>) -> bool {
    &&& a.len() == b.len()
    &&& forall|k: int| 0 <= k < a.len() ==> (#[trigger] a[k]).domain@ == b[k].domain@ && a[k].epoch == b[k].epoch
}

fn duplicate_snapshot(v: &Vec<DomainEpochV1>) -> (r: Vec<DomainEpochV1>)
    ensures
        snapshots_same(r@, v@),
{
    let mut r: Vec<DomainEpochV1> = Vec::new();
    let mut k: usize = 0;
    while k < v.len()
        invariant
            k <= v@.len(),
            r@.len() == k,
            forall|j: int| 0 <= j < k ==> (#[trigger] r@[j]).domain@ == v@[j].domain@ && r@[j].epoch == v@[j].epoch,
        decreases v@.len() - k,
    {
        r.push(DomainEpochV1 { domain: v[k].domain.duplicate(), epoch: v[k].epoch });
        k = k + 1;
    }
    r
}

impl EnvironmentBindingV1 {
    pub closed spec fn spec_view(self) -> EnvironmentBindingViewV1 {
        self.view
    }

    pub closed spec fn spec_resolution(self) -> u64 {
        self.resolution
    }

    /// The epochs of the binding's conflict domains when it was resolved.
    pub closed spec fn spec_epochs(self) -> Seq<DomainEpochV1> {
        self.epochs@
    }

    pub fn view(&self) -> (r: &EnvironmentBindingViewV1)
        ensures
            *r == self.spec_view(),
    {
        &self.view
    }

    /// The same resolved binding.
    pub fn duplicate(&self) -> (r: EnvironmentBindingV1)
        ensures
            binding_same(r.spec_view(), self.spec_view()),
            r.spec_resolution() == self.spec_resolution(),
            snapshots_same(r.spec_epochs(), self.spec_epochs()),
    {
        EnvironmentBindingV1 {
            view: self.view.duplicate(),
            resolution: self.resolution,
            epochs: duplicate_snapshot(&self.epochs),
        }
    }
}

/// One enrolled environment.
pub struct EnrollmentV1 {
    pub view: EnvironmentBindingViewV1,
    pub retired: bool,
    pub resolution: u64,
}

/// One recorded qualification, bound to the registration it was made for.
pub struct QualificationRecordV1 {
    pub qualification: PhysicalQualificationV1,
    pub environment: EnvironmentRefV1,
    pub registration_revision: u64,
    /// The revision at which the qualification was withdrawn; zero while it stands.
    pub withdrawal_revision: u64,
}

pub open spec fn env_at(es: Seq<EnrollmentV1>, i: int, env: Seq<char>) -> bool {
    0 <= i < es.len() && es[i].view.environment@ == env
}

pub open spec fn enrolled(es: Seq<EnrollmentV1>, env: Seq<char>) -> bool {
    exists|i: int| #[trigger] env_at(es, i, env)
}

pub open spec fn env_index(es: Seq<EnrollmentV1>, env: Seq<char>) -> int {
    choose|i: int| env_at(es, i, env)
}

pub open spec fn qual_at(qs: Seq<QualificationRecordV1>, j: int, id: Seq<char>) -> bool {
    0 <= j < qs.len() && qs[j].qualification.qualification_id@ == id
}

pub open spec fn recorded(qs: Seq<QualificationRecordV1>, id: Seq<char>) -> bool {
    exists|j: int| #[trigger] qual_at(qs, j, id)
}

pub open spec fn qual_index(qs: Seq<QualificationRecordV1>, id: Seq<char>) -> int {
    choose|j: int| qual_at(qs, j, id)
}

/// Environments and qualification identities are unique; enrolled views are valid.
pub open spec fn registry_wf(es: Seq<EnrollmentV1>, qs: Seq<QualificationRecordV1>) -> bool {
    &&& forall|i: int, j: int|
        0 <= i < j < es.len() ==> #[trigger] es[i].view.environment@
            != #[trigger] es[j].view.environment@
    &&& forall|i: int| 0 <= i < es.len() ==> binding_valid(#[trigger] es[i].view)
    &&& forall|i: int, j: int|
        0 <= i < j < qs.len() ==> #[trigger] qs[i].qualification.qualification_id@
            != #[trigger] qs[j].qualification.qualification_id@
}

/// `b` is the live binding of its enrolled, unretired environment: the view
/// is exactly the enrolled one, no later resolution replaced it, and none of
/// its conflict domains moved to another epoch since.
pub open spec fn binding_current(es: Seq<EnrollmentV1>, ds: Seq<DomainEpochV1>, b: EnvironmentBindingV1) -> bool {
    let e = es[env_index(es, b.spec_view().environment@)];
    &&& enrolled(es, b.spec_view().environment@)
    &&& !e.retired
    &&& binding_same(e.view, b.spec_view())
    &&& e.resolution == b.spec_resolution()
    &&& snapshot_holds(ds, b.spec_epochs())
}

/// Qualification `id` is recorded for the current registration of `b`'s
/// environment, not withdrawn, matches `profile` and `b`, and neither it nor
/// the binding offer has expired at `now`.
pub open spec fn qualification_current(
    es: Seq<EnrollmentV1>,
    ds: Seq<DomainEpochV1>,
    qs: Seq<QualificationRecordV1>,
    b: EnvironmentBindingV1,
    profile: PhysicalCapabilityProfileV1,
    id: Seq<char>,
    now: u64,
) -> bool {
    let r = qs[qual_index(qs, id)];
    &&& binding_current(es, ds, b)
    &&& recorded(qs, id)
    &&& r.withdrawal_revision == 0
    &&& r.environment@ == b.spec_view().environment@
    &&& r.registration_revision == b.spec_view().registration_revision
    &&& qualification_for(r.qualification, profile, b.spec_view())
    &&& now < r.qualification.expires_at.spec_get()
    &&& now < b.spec_view().offer_expiry.spec_get()
}

/// Every conflict domain of `v` has an epoch that can still move on.
pub open spec fn domains_bumpable(ds: Seq<DomainEpochV1>, v: EnvironmentBindingViewV1) -> bool {
    forall|d: Seq<char>| #[trigger] binding_has_domain(v, d) ==> bumpable(epoch_of(ds, d))
}

/// `after` is `before` with every conflict domain of `v` one epoch on.
pub open spec fn domains_bumped(
    before: Seq<DomainEpochV1>,
    after: Seq<DomainEpochV1>,
    v: EnvironmentBindingViewV1,
) -> bool {
    forall|d: Seq<char>| #[trigger] epoch_of(after, d) == if binding_has_domain(v, d) {
        Some((epoch_of(before, d).unwrap() + 1) as u64)
    } else {
        epoch_of(before, d)
    }
}

/// When an enrollment is accepted: a valid view, either a first enrollment
/// at registration revision one, or a re-enrollment of an unretired
/// environment at exactly the next revision by the same executor over the
/// same conflict domains (whose epochs then move on).
pub open spec fn enrollment_ok(
    es: Seq<EnrollmentV1>,
    ds: Seq<DomainEpochV1>,
    view: EnvironmentBindingViewV1,
    expected: Option<u64>,
) -> bool {
    let e = es[env_index(es, view.environment@)];
    &&& binding_valid(view)
    &&& match expected {
        None => !enrolled(es, view.environment@) && view.registration_revision == 1,
        Some(rev) => {
            &&& enrolled(es, view.environment@)
            &&& !e.retired
            &&& e.view.registration_revision == rev
            &&& view.registration_revision == rev + 1
            &&& e.resolution < u64::MAX
            &&& e.view.executor@ == view.executor@
            &&& domain_sets_same(e.view, view)
            &&& domains_bumpable(ds, e.view)
        },
    }
}

/// Every conflict domain of every enrolled view has an epoch.
pub open spec fn domains_covered(es: Seq<EnrollmentV1>, ds: Seq<DomainEpochV1>) -> bool {
    forall|i: int, d: Seq<char>|
        0 <= i < es.len() && #[trigger] binding_has_domain(es[i].view, d) ==> epoch_of(ds, d) is Some
}

/// A stored qualification explains itself: it is valid, a withdrawal came
/// at a later revision, and one that stands names the current registration
/// of an enrolled environment.
pub open spec fn qualification_fact_ok(es: Seq<EnrollmentV1>, q: QualificationRecordV1) -> bool {
    &&& qualification_valid(q.qualification)
    &&& (q.withdrawal_revision == 0 || q.withdrawal_revision > q.qualification.revision)
    &&& q.withdrawal_revision == 0 ==> enrolled(es, q.environment@) && es[env_index(
        es,
        q.environment@,
    )].view.registration_revision == q.registration_revision
}

/// Stored registry facts that can become a registry again: unique valid
/// enrollments, unique qualifications each explaining itself, every domain
/// listed once at an epoch of at least one, and an epoch for every conflict
/// domain of every enrolled view.
pub open spec fn registry_facts_ok(
    es: Seq<EnrollmentV1>,
    qs: Seq<QualificationRecordV1>,
    ds: Seq<DomainEpochV1>,
) -> bool {
    &&& registry_wf(es, qs)
    &&& domains_unique(ds)
    &&& forall|k: int| 0 <= k < ds.len() ==> (#[trigger] ds[k]).epoch >= 1
    &&& domains_covered(es, ds)
    &&& forall|j: int| 0 <= j < qs.len() ==> qualification_fact_ok(es, #[trigger] qs[j])
}

pub struct PhysicalBindingRegistryV1 {
    enrollments: Vec<EnrollmentV1>,
    qualifications: Vec<QualificationRecordV1>,
    domains: DomainLedgerV1,
}

impl PhysicalBindingRegistryV1 {
    pub closed spec fn spec_enrollments(&self) -> Seq<EnrollmentV1> {
        self.enrollments@
    }

    pub closed spec fn spec_qualifications(&self) -> Seq<QualificationRecordV1> {
        self.qualifications@
    }

    /// The epochs of the conflict domains.
    pub closed spec fn spec_domains(&self) -> Seq<DomainEpochV1> {
        self.domains.spec_entries()
    }

    pub open spec fn wf(&self) -> bool {
        &&& registry_wf(self.spec_enrollments(), self.spec_qualifications())
        &&& crate::physical::domains::domains_unique(self.spec_domains())
        &&& domains_covered(self.spec_enrollments(), self.spec_domains())
    }

    pub fn new() -> (r: PhysicalBindingRegistryV1)
        ensures
            r.wf(),
            r.spec_enrollments().len() == 0,
            r.spec_qualifications().len() == 0,
            r.spec_domains().len() == 0,
    {
        PhysicalBindingRegistryV1 {
            enrollments: Vec::new(),
            qualifications: Vec::new(),
            domains: DomainLedgerV1::new(),
        }
    }

    /// Audits stored registry facts before they become a registry again:
    /// accepted exactly when `registry_facts_ok` holds; the registry then
    /// holds exactly these facts.
    #[verifier::loop_isolation(false)]
    pub fn restore(
        enrollments: Vec<EnrollmentV1>,
        qualifications: Vec<QualificationRecordV1>,
        domains: Vec<DomainEpochV1>,
    ) -> (r: AppResult<PhysicalBindingRegistryV1>)
        ensures
            r is Ok <==> registry_facts_ok(enrollments@, qualifications@, domains@),
            r is Err ==> r == Err::<PhysicalBindingRegistryV1, AppError>(
                AppError::InvalidInput("Physical registry records are inconsistent."),
            ),
            r matches Ok(g) ==> g.wf() && g.spec_enrollments() == enrollments@
                && g.spec_qualifications() == qualifications@ && g.spec_domains() == domains@,
    {
        let ghost ds0 = domains@;
        let ghost es0 = enrollments@;
        let ghost qs0 = qualifications@;
        let ledger = match DomainLedgerV1::restore(domains) {
            Some(l) => l,
            None => {
                return Err(AppError::InvalidInput("Physical registry records are inconsistent."));
            },
        };
        let mut i: usize = 0;
        while i < enrollments.len()
            invariant
                i <= enrollments@.len(),
                ledger.wf(),
                ledger.spec_entries() == ds0,
                enrollments@ == es0,
                forall|a: int, b: int|
                    0 <= a < b < i ==> #[trigger] enrollments@[a].view.environment@
                        != #[trigger] enrollments@[b].view.environment@,
                forall|a: int| 0 <= a < i ==> binding_valid(#[trigger] enrollments@[a].view),
                forall|a: int, d: Seq<char>|
                    0 <= a < i && #[trigger] binding_has_domain(enrollments@[a].view, d) ==> epoch_of(
                        ledger.spec_entries(),
                        d,
                    ) is Some,
            decreases enrollments@.len() - i,
        {
            let v = &enrollments[i].view;
            if v.validate().is_err() {
                return Err(AppError::InvalidInput("Physical registry records are inconsistent."));
            }
            let ds = v.domains();
            if ledger.snapshot(&ds).is_err() {
                proof {
                    let k = choose|k: int| 0 <= k < ds@.len() && !(ledger.epoch(#[trigger] ds@[k]@) is Some);
                    assert(token_listed(ds@, ds@[k]@));
                    assert(binding_has_domain(enrollments@[i as int].view, ds@[k]@));
                    assert(epoch_of(ds0, ds@[k]@) is None);
                    assert(!domains_covered(es0, ds0));
                    assert(!registry_facts_ok(es0, qs0, ds0));
                }
                return Err(AppError::InvalidInput("Physical registry records are inconsistent."));
            }
            proof {
                assert forall|d: Seq<char>| #[trigger] binding_has_domain(enrollments@[i as int].view, d) implies epoch_of(
                    ledger.spec_entries(),
                    d,
                ) is Some by {
                    assert(token_listed(ds@, d));
                    let k = choose|k: int| 0 <= k < ds@.len() && ds@[k]@ == d;
                    assert(ledger.epoch(ds@[k]@) is Some);
                }
            }
            let mut j: usize = 0;
            while j < i
                invariant
                    i < enrollments@.len(),
                    j <= i,
                    forall|a: int|
                        0 <= a < j ==> (#[trigger] enrollments@[a]).view.environment@
                            != enrollments@[i as int].view.environment@,
                decreases i - j,
            {
                if enrollments[j].view.environment.same(&enrollments[i].view.environment) {
                    return Err(AppError::InvalidInput("Physical registry records are inconsistent."));
                }
                j = j + 1;
            }
            i = i + 1;
        }
        let mut i: usize = 0;
        while i < qualifications.len()
            invariant
                i <= qualifications@.len(),
                qualifications@ == qs0,
                forall|a: int, b: int|
                    0 <= a < b < i ==> #[trigger] qualifications@[a].qualification.qualification_id@
                        != #[trigger] qualifications@[b].qualification.qualification_id@,
            decreases qualifications@.len() - i,
        {
            let mut j: usize = 0;
            while j < i
                invariant
                    i < qualifications@.len(),
                    j <= i,
                    forall|a: int|
                        0 <= a < j ==> (#[trigger] qualifications@[a]).qualification.qualification_id@
                            != qualifications@[i as int].qualification.qualification_id@,
                decreases i - j,
            {
                if qualifications[j].qualification.qualification_id.same(
                    &qualifications[i].qualification.qualification_id,
                ) {
                    return Err(AppError::InvalidInput("Physical registry records are inconsistent."));
                }
                j = j + 1;
            }
            i = i + 1;
        }
        let registry = PhysicalBindingRegistryV1 { enrollments, qualifications, domains: ledger };
        let mut j: usize = 0;
        while j < registry.qualifications.len()
            invariant
                registry.wf(),
                registry.enrollments@ == es0,
                registry.qualifications@ == qs0,
                j <= registry.qualifications@.len(),
                forall|a: int|
                    0 <= a < j ==> qualification_fact_ok(
                        registry.enrollments@,
                        #[trigger] registry.qualifications@[a],
                    ),
            decreases registry.qualifications@.len() - j,
        {
            let q = &registry.qualifications[j];
            if q.qualification.validate().is_err() || (q.withdrawal_revision != 0
                && q.withdrawal_revision <= q.qualification.revision) {
                proof {
                    assert(!qualification_fact_ok(es0, qs0[j as int]));
                    assert(!registry_facts_ok(es0, qs0, ds0));
                }
                return Err(AppError::InvalidInput("Physical registry records are inconsistent."));
            }
            if q.withdrawal_revision == 0 {
                match registry.find_env(&q.environment) {
                    Some(e) => {
                        if registry.enrollments[e].view.registration_revision != q.registration_revision {
                            proof {
                                assert(!qualification_fact_ok(es0, qs0[j as int]));
                    assert(!registry_facts_ok(es0, qs0, ds0));
                            }
                            return Err(AppError::InvalidInput("Physical registry records are inconsistent."));
                        }
                    },
                    None => {
                        proof {
                            assert(!qualification_fact_ok(es0, qs0[j as int]));
                    assert(!registry_facts_ok(es0, qs0, ds0));
                        }
                        return Err(AppError::InvalidInput("Physical registry records are inconsistent."));
                    },
                }
            }
            j = j + 1;
        }
        Ok(registry)
    }

    /// Hands the stored facts back, in the order they were written.
    pub fn into_parts(self) -> (r: (Vec<EnrollmentV1>, Vec<QualificationRecordV1>, Vec<DomainEpochV1>))
        ensures
            r.0@ == self.spec_enrollments(),
            r.1@ == self.spec_qualifications(),
            r.2@ == self.spec_domains(),
    {
        (self.enrollments, self.qualifications, self.domains.into_entries())
    }

    fn find_env(&self, env: &EnvironmentRefV1) -> (r: Option<usize>)
        requires
            self.wf(),
        ensures
            r matches Some(i) ==> env_at(self.enrollments@, i as int, env@) && i == env_index(
                self.enrollments@,
                env@,
            ),
            r is None ==> !enrolled(self.enrollments@, env@),
    {
        let mut i: usize = 0;
        while i < self.enrollments.len()
            invariant
                self.wf(),
                i <= self.enrollments@.len(),
                forall|k: int| 0 <= k < i ==> !env_at(self.enrollments@, k, env@),
            decreases self.enrollments@.len() - i,
        {
            if self.enrollments[i].view.environment.same(env) {
                proof {
                    let c = env_index(self.enrollments@, env@);
                    assert(env_at(self.enrollments@, i as int, env@));
                    if c < i {
                        assert(self.enrollments@[c].view.environment@
                            != self.enrollments@[i as int].view.environment@);
                    } else if c > i {
                        assert(self.enrollments@[i as int].view.environment@
                            != self.enrollments@[c].view.environment@);
                    }
                }
                return Some(i);
            }
            i = i + 1;
        }
        None
    }

    fn find_qualification(&self, id: &QualificationId) -> (r: Option<usize>)
        requires
            self.wf(),
        ensures
            r matches Some(j) ==> qual_at(self.qualifications@, j as int, id@) && j == qual_index(
                self.qualifications@,
                id@,
            ),
            r is None ==> !recorded(self.qualifications@, id@),
    {
        let mut j: usize = 0;
        while j < self.qualifications.len()
            invariant
                self.wf(),
                j <= self.qualifications@.len(),
                forall|k: int| 0 <= k < j ==> !qual_at(self.qualifications@, k, id@),
            decreases self.qualifications@.len() - j,
        {
            if self.qualifications[j].qualification.qualification_id.same(id) {
                proof {
                    let c = qual_index(self.qualifications@, id@);
                    assert(qual_at(self.qualifications@, j as int, id@));
                    if c < j {
                        assert(self.qualifications@[c].qualification.qualification_id@
                            != self.qualifications@[j as int].qualification.qualification_id@);
                    } else if c > j {
                        assert(self.qualifications@[j as int].qualification.qualification_id@
                            != self.qualifications@[c].qualification.qualification_id@);
                    }
                }
                return Some(j);
            }
            j = j + 1;
        }
        None
    }

    /// Enrolls `view` (first enrollment when `expected` is `None`, whose new
    /// conflict domains start at epoch one), or replaces the enrollment at
    /// registration revision `expected`, moving its domains one epoch on; a
    /// replacement makes every earlier binding of that environment stale.
    pub fn enroll(&mut self, view: EnvironmentBindingViewV1, expected: Option<u64>) -> (res:
        AppResult<()>)
        requires
            old(self).wf(),
        ensures
            final(self).wf(),
            res is Ok <==> enrollment_ok(old(self).spec_enrollments(), old(self).spec_domains(), view, expected),
            res is Ok && expected is None ==> final(self).spec_enrollments()
                == old(self).spec_enrollments().push(
                EnrollmentV1 { view, retired: false, resolution: 1 },
            ),
            res is Ok && expected is None ==> forall|d: Seq<char>| #[trigger] epoch_of(final(self).spec_domains(), d)
                == if epoch_of(old(self).spec_domains(), d) is Some {
                epoch_of(old(self).spec_domains(), d)
            } else if binding_has_domain(view, d) {
                Some(1u64)
            } else {
                None
            },
            res is Ok && expected is Some ==> ({
                let i = env_index(old(self).spec_enrollments(), view.environment@);
                final(self).spec_enrollments() == old(self).spec_enrollments().update(
                    i,
                    EnrollmentV1 {
                        view,
                        retired: false,
                        resolution: (old(self).spec_enrollments()[i].resolution + 1) as u64,
                    },
                )
            }),
            res is Ok && expected is Some ==> domains_bumped(old(self).spec_domains(), final(self).spec_domains(), view),
            res is Err ==> final(self).spec_enrollments() == old(self).spec_enrollments()
                && final(self).spec_domains() == old(self).spec_domains(),
            final(self).spec_qualifications() == old(self).spec_qualifications(),
    {
        view.validate()?;
        let found = self.find_env(&view.environment);
        match expected {
            None => {
                require(found.is_none() && view.registration_revision == 1, "Duplicate enrollment")?;
                let listed = view.domains();
                let ghost before = self.enrollments@;
                let ghost ds_before = self.domains.spec_entries();
                self.enrollments.push(EnrollmentV1 { view, retired: false, resolution: 1 });
                self.domains.register_all(&listed);
                proof {
                    assert forall|a: int, b: int|
                        0 <= a < b < self.enrollments@.len() implies #[trigger] self.enrollments@[a].view.environment@
                            != #[trigger] self.enrollments@[b].view.environment@ by {
                        if b == before.len() {
                            assert(!env_at(before, a, self.enrollments@[b].view.environment@));
                        }
                    }
                    assert forall|i: int, d: Seq<char>|
                        0 <= i < self.enrollments@.len() && #[trigger] binding_has_domain(self.enrollments@[i].view, d)
                            implies epoch_of(self.domains.spec_entries(), d) is Some by {
                        assert(self.domains.epoch(d) == epoch_of(self.domains.spec_entries(), d));
                        if i < before.len() {
                            assert(self.enrollments@[i] == before[i]);
                            assert(epoch_of(ds_before, d) is Some);
                        } else {
                            assert(token_listed(listed@, d));
                        }
                    }
                    assert forall|d: Seq<char>| #[trigger] epoch_of(self.domains.spec_entries(), d)
                        == if epoch_of(ds_before, d) is Some {
                        epoch_of(ds_before, d)
                    } else if binding_has_domain(view, d) {
                        Some(1u64)
                    } else {
                        None
                    } by {
                        assert(self.domains.epoch(d) == epoch_of(self.domains.spec_entries(), d));
                        assert(token_listed(listed@, d) == binding_has_domain(view, d));
                    }
                }
                Ok(())
            },
            Some(rev) => {
                let i = match found {
                    Some(i) => i,
                    None => {
                        return Err(AppError::InvalidInput("Unknown physical environment"));
                    },
                };
                require(
                    !self.enrollments[i].retired && self.enrollments[i].view.registration_revision
                        == rev && rev < u64::MAX && view.registration_revision == rev + 1
                        && self.enrollments[i].resolution < u64::MAX,
                    "Stale physical enrollment",
                )?;
                require(
                    self.enrollments[i].view.executor.same(&view.executor)
                        && self.enrollments[i].view.same_domain_set(&view),
                    "Enrollment revision/Host/domain ownership mismatch",
                )?;
                let listed = self.enrollments[i].view.domains();
                let ghost ds_before = self.domains.spec_entries();
                let ghost led_before = self.domains;
                let bumped = self.domains.bump_all(&listed);
                proof {
                    let ev = self.enrollments@[i as int].view;
                    assert forall|d: Seq<char>| token_listed(listed@, d) == binding_has_domain(ev, d) by {}
                    if bumped is Ok {
                        assert forall|d: Seq<char>| #[trigger] binding_has_domain(ev, d) implies bumpable(epoch_of(ds_before, d)) by {
                            assert(token_listed(listed@, d));
                            let k = choose|k: int| 0 <= k < listed@.len() && listed@[k]@ == d;
                            assert(bumpable(led_before.epoch(listed@[k]@)));
                        }
                    } else {
                        let k = choose|k: int| 0 <= k < listed@.len() && !bumpable(#[trigger] led_before.epoch(listed@[k]@));
                        assert(binding_has_domain(ev, listed@[k]@));
                    }
                }
                if bumped.is_err() {
                    return Err(AppError::InvalidInput("Stale/conflicting physical domain ledger operation"));
                }
                let resolution = self.enrollments[i].resolution + 1;
                let ghost before = self.enrollments@;
                self.enrollments.set(i, EnrollmentV1 { view, retired: false, resolution });
                proof {
                    let ev = before[i as int].view;
                    assert forall|a: int, b: int|
                        0 <= a < b < self.enrollments@.len() implies #[trigger] self.enrollments@[a].view.environment@
                            != #[trigger] self.enrollments@[b].view.environment@ by {
                        assert(before[a].view.environment@ == self.enrollments@[a].view.environment@);
                        assert(before[b].view.environment@ == self.enrollments@[b].view.environment@);
                    }
                    assert forall|d: Seq<char>| #[trigger] epoch_of(self.domains.spec_entries(), d) == if binding_has_domain(view, d) {
                        Some((epoch_of(ds_before, d).unwrap() + 1) as u64)
                    } else {
                        epoch_of(ds_before, d)
                    } by {
                        assert(self.domains.epoch(d) == epoch_of(self.domains.spec_entries(), d));
                        assert(binding_has_domain(ev, d) == binding_has_domain(view, d));
                        assert(token_listed(listed@, d) == binding_has_domain(ev, d));
                    }
                    assert forall|j: int, d: Seq<char>|
                        0 <= j < self.enrollments@.len() && #[trigger] binding_has_domain(self.enrollments@[j].view, d)
                            implies epoch_of(self.domains.spec_entries(), d) is Some by {
                        if j == i {
                            assert(binding_has_domain(ev, d) == binding_has_domain(view, d));
                            assert(epoch_of(ds_before, d) is Some);
                        } else {
                            assert(self.enrollments@[j] == before[j]);
                            assert(epoch_of(ds_before, d) is Some);
                        }
                    }
                }
                Ok(())
            },
        }
    }

    /// Retires environment `env` at registration revision `expected`,
    /// moving its conflict domains one epoch on; its bindings are never
    /// current again.
    pub fn retire(&mut self, env: &EnvironmentRefV1, expected: u64) -> (res: AppResult<()>)
        requires
            old(self).wf(),
        ensures
            final(self).wf(),
            res is Ok <==> ({
                let e = old(self).spec_enrollments()[env_index(old(self).spec_enrollments(), env@)];
                enrolled(old(self).spec_enrollments(), env@) && !e.retired
                    && e.view.registration_revision == expected
                    && domains_bumpable(old(self).spec_domains(), e.view)
            }),
            res is Ok ==> ({
                let i = env_index(old(self).spec_enrollments(), env@);
                let e = old(self).spec_enrollments()[i];
                &&& final(self).spec_enrollments() == old(self).spec_enrollments().update(
                    i,
                    EnrollmentV1 { view: e.view, retired: true, resolution: e.resolution },
                )
                &&& domains_bumped(old(self).spec_domains(), final(self).spec_domains(), e.view)
            }),
            res is Err ==> final(self).spec_enrollments() == old(self).spec_enrollments()
                && final(self).spec_domains() == old(self).spec_domains(),
            final(self).spec_qualifications() == old(self).spec_qualifications(),
    {
        let i = match self.find_env(env) {
            Some(i) => i,
            None => {
                return Err(AppError::InvalidInput("Unknown physical environment"));
            },
        };
        require(
            !self.enrollments[i].retired && self.enrollments[i].view.registration_revision
                == expected,
            "Retirement revision mismatch",
        )?;
        let listed = self.enrollments[i].view.domains();
        let ghost ds_before = self.domains.spec_entries();
        let ghost led_before = self.domains;
        let bumped = self.domains.bump_all(&listed);
        proof {
            let ev = self.enrollments@[i as int].view;
            assert forall|d: Seq<char>| token_listed(listed@, d) == binding_has_domain(ev, d) by {}
            if bumped is Ok {
                assert forall|d: Seq<char>| #[trigger] binding_has_domain(ev, d) implies bumpable(epoch_of(ds_before, d)) by {
                    assert(token_listed(listed@, d));
                    let k = choose|k: int| 0 <= k < listed@.len() && listed@[k]@ == d;
                    assert(bumpable(led_before.epoch(listed@[k]@)));
                }
            } else {
                let k = choose|k: int| 0 <= k < listed@.len() && !bumpable(#[trigger] led_before.epoch(listed@[k]@));
                assert(binding_has_domain(ev, listed@[k]@));
            }
        }
        if bumped.is_err() {
            return Err(AppError::InvalidInput("Stale/conflicting physical domain ledger operation"));
        }
        let ghost before = self.enrollments@;
        self.enrollments[i].retired = true;
        proof {
            let ev = before[i as int].view;
            assert(self.enrollments@ =~= before.update(
                i as int,
                EnrollmentV1 { view: before[i as int].view, retired: true, resolution: before[i as int].resolution },
            ));
            assert forall|a: int, b: int|
                0 <= a < b < self.enrollments@.len() implies #[trigger] self.enrollments@[a].view.environment@
                    != #[trigger] self.enrollments@[b].view.environment@ by {
                assert(before[a].view.environment@ == self.enrollments@[a].view.environment@);
                assert(before[b].view.environment@ == self.enrollments@[b].view.environment@);
            }
            assert forall|d: Seq<char>| #[trigger] epoch_of(self.domains.spec_entries(), d) == if binding_has_domain(ev, d) {
                Some((epoch_of(ds_before, d).unwrap() + 1) as u64)
            } else {
                epoch_of(ds_before, d)
            } by {
                assert(self.domains.epoch(d) == epoch_of(self.domains.spec_entries(), d));
                assert(token_listed(listed@, d) == binding_has_domain(ev, d));
            }
            assert forall|j: int, d: Seq<char>|
                0 <= j < self.enrollments@.len() && #[trigger] binding_has_domain(self.enrollments@[j].view, d)
                    implies epoch_of(self.domains.spec_entries(), d) is Some by {
                assert(self.enrollments@[j].view == before[j].view);
                assert(epoch_of(ds_before, d) is Some);
            }
        }
        Ok(())
    }

    /// Resolves the live binding of an enrolled, unretired environment whose
    /// enrolled view is exactly `view`, at the current epochs of its
    /// conflict domains. Each resolution replaces the previous live binding.
    pub fn resolve(&mut self, view: &EnvironmentBindingViewV1) -> (res: AppResult<EnvironmentBindingV1>)
        requires
            old(self).wf(),
        ensures
            final(self).wf(),
            res is Ok <==> ({
                let e = old(self).spec_enrollments()[env_index(old(self).spec_enrollments(), view.environment@)];
                &&& enrolled(old(self).spec_enrollments(), view.environment@)
                &&& !e.retired
                &&& binding_same(e.view, *view)
                &&& e.resolution < u64::MAX
            }),
            res matches Ok(b) ==> ({
                let i = env_index(old(self).spec_enrollments(), view.environment@);
                let e = old(self).spec_enrollments()[i];
                &&& final(self).spec_enrollments() == old(self).spec_enrollments().update(
                    i,
                    EnrollmentV1 { view: e.view, retired: e.retired, resolution: (e.resolution + 1) as u64 },
                )
                &&& binding_current(final(self).spec_enrollments(), final(self).spec_domains(), b)
                &&& binding_same(b.spec_view(), *view)
                &&& forall|d: Seq<char>| #[trigger] binding_has_domain(b.spec_view(), d) ==> entry_listed(b.spec_epochs(), d)
            }),
            res is Err ==> final(self).spec_enrollments() == old(self).spec_enrollments(),
            final(self).spec_qualifications() == old(self).spec_qualifications(),
            final(self).spec_domains() == old(self).spec_domains(),
    {
        let i = match self.find_env(&view.environment) {
            Some(i) => i,
            None => {
                return Err(AppError::InvalidInput("Unknown physical environment"));
            },
        };
        require(
            !self.enrollments[i].retired && self.enrollments[i].view.same(view)
                && self.enrollments[i].resolution < u64::MAX,
            "Unenrolled physical binding facts",
        )?;
        let listed = self.enrollments[i].view.domains();
        let snapshot = match self.domains.snapshot(&listed) {
            Ok(v) => v,
            Err(e) => {
                proof {
                    let ev = self.enrollments@[i as int].view;
                    let k = choose|k: int| 0 <= k < listed@.len() && !(#[trigger] self.domains.epoch(listed@[k]@) is Some);
                    assert(token_listed(listed@, listed@[k]@));
                    assert(binding_has_domain(ev, listed@[k]@));
                    assert(self.domains.epoch(listed@[k]@) == epoch_of(self.domains.spec_entries(), listed@[k]@));
                }
                return Err(e);
            },
        };
        let ghost before = self.enrollments@;
        let resolution = self.enrollments[i].resolution + 1;
        self.enrollments[i].resolution = resolution;
        let b = EnvironmentBindingV1 { view: self.enrollments[i].view.duplicate(), resolution, epochs: snapshot };
        proof {
            let e = before[i as int];
            assert(self.enrollments@ =~= before.update(
                i as int,
                EnrollmentV1 { view: e.view, retired: e.retired, resolution: resolution },
            ));
            assert forall|a: int, c: int|
                0 <= a < c < self.enrollments@.len() implies #[trigger] self.enrollments@[a].view.environment@
                    != #[trigger] self.enrollments@[c].view.environment@ by {
                assert(before[a].view.environment@ == self.enrollments@[a].view.environment@);
                assert(before[c].view.environment@ == self.enrollments@[c].view.environment@);
            }
            assert forall|j: int, d: Seq<char>|
                0 <= j < self.enrollments@.len() && #[trigger] binding_has_domain(self.enrollments@[j].view, d)
                    implies epoch_of(self.domains.spec_entries(), d) is Some by {
                assert(self.enrollments@[j].view == before[j].view);
            }
            lemma_binding_same_equiv(b.view, e.view, *view);
            assert(env_at(self.enrollments@, i as int, b.view.environment@));
            assert forall|d: Seq<char>| #[trigger] binding_has_domain(b.view, d) implies entry_listed(b.epochs@, d) by {
                lemma_same_domains(e.view, b.view, d);
                assert(token_listed(listed@, d));
                let k = choose|k: int| 0 <= k < listed@.len() && listed@[k]@ == d;
                assert(b.epochs@[k].domain@ == d);
            }
        }
        Ok(b)
    }

    /// `Ok` exactly when `b` is still the live binding of its environment.
    pub fn check_binding(&self, b: &EnvironmentBindingV1) -> (r: AppResult<()>)
        requires
            self.wf(),
        ensures
            r is Ok <==> binding_current(self.spec_enrollments(), self.spec_domains(), *b),
    {
        let i = match self.find_env(&b.view.environment) {
            Some(i) => i,
            None => {
                return Err(AppError::InvalidInput("Replaced/unknown physical binding"));
            },
        };
        require(
            !self.enrollments[i].retired && self.enrollments[i].view.same(&b.view)
                && self.enrollments[i].resolution == b.resolution && self.domains.holds(&b.epochs),
            "Replaced/unknown physical binding",
        )
    }

    /// Compare-and-advance of conflict-domain epochs: 1..=16 distinct
    /// domains, each at exactly its listed epoch, all move one epoch on;
    /// every binding resolved over any of them is stale from then on.
    pub fn advance_epochs(&mut self, expected: &Vec<DomainEpochV1>) -> (r: AppResult<()>)
        requires
            old(self).wf(),
        ensures
            final(self).wf(),
            r is Ok <==> ({
                &&& 0 < expected@.len() <= crate::physical::domains::MAX_LEDGER_DOMAINS
                &&& forall|k: int, l: int| 0 <= k < l < expected@.len() ==> expected@[k].domain@ != expected@[l].domain@
                &&& forall|k: int|
                    0 <= k < expected@.len() ==> epoch_of(old(self).spec_domains(), (#[trigger] expected@[k]).domain@)
                        == Some(expected@[k].epoch) && expected@[k].epoch < u64::MAX
            }),
            r is Ok ==> forall|d: Seq<char>| #[trigger] epoch_of(final(self).spec_domains(), d) == if entry_listed(expected@, d) {
                Some((epoch_of(old(self).spec_domains(), d).unwrap() + 1) as u64)
            } else {
                epoch_of(old(self).spec_domains(), d)
            },
            r is Err ==> final(self).spec_domains() == old(self).spec_domains(),
            final(self).spec_enrollments() == old(self).spec_enrollments(),
            final(self).spec_qualifications() == old(self).spec_qualifications(),
    {
        let ghost ds_before = self.domains.spec_entries();
        let ghost led_before = self.domains;
        let r = self.domains.advance(expected);
        proof {
            if r is Ok {
                assert forall|d: Seq<char>| #[trigger] epoch_of(self.domains.spec_entries(), d) == if entry_listed(expected@, d) {
                    Some((epoch_of(ds_before, d).unwrap() + 1) as u64)
                } else {
                    epoch_of(ds_before, d)
                } by {
                    assert(self.domains.epoch(d) == epoch_of(self.domains.spec_entries(), d));
                    assert(led_before.epoch(d) == epoch_of(ds_before, d));
                }
            }
            assert forall|k: int| 0 <= k < expected@.len() implies (epoch_of(ds_before, (#[trigger] expected@[k]).domain@)
                == led_before.epoch(expected@[k].domain@)) by {}
            assert forall|i: int, d: Seq<char>|
                0 <= i < self.enrollments@.len() && #[trigger] binding_has_domain(self.enrollments@[i].view, d)
                    implies epoch_of(self.domains.spec_entries(), d) is Some by {
                assert(epoch_of(ds_before, d) is Some);
                assert(self.domains.epoch(d) == epoch_of(self.domains.spec_entries(), d));
            }
        }
        r
    }

    /// The current epochs of the listed conflict domains, when all are known.
    pub fn epochs(&self, domains: &Vec<DomainId>) -> (r: AppResult<Vec<DomainEpochV1>>)
        requires
            self.wf(),
        ensures
            r is Ok <==> forall|k: int| 0 <= k < domains@.len() ==> (#[trigger] epoch_of(self.spec_domains(), domains@[k]@)) is Some,
            r matches Ok(v) ==> v@.len() == domains@.len() && snapshot_holds(self.spec_domains(), v@)
                && forall|k: int| 0 <= k < domains@.len() ==> (#[trigger] v@[k]).domain@ == domains@[k]@,
    {
        let r = self.domains.snapshot(domains);
        proof {
            assert forall|k: int| 0 <= k < domains@.len() implies (#[trigger] epoch_of(self.spec_domains(), domains@[k]@))
                == self.domains.epoch(domains@[k]@) by {}
        }
        r
    }

    /// Records qualification `q` of `profile` on the live binding `b`.
    pub fn record_qualification(
        &mut self,
        b: &EnvironmentBindingV1,
        profile: &PhysicalCapabilityProfileV1,
        q: PhysicalQualificationV1,
    ) -> (res: AppResult<()>)
        requires
            old(self).wf(),
        ensures
            final(self).wf(),
            res is Ok <==> (binding_current(old(self).spec_enrollments(), old(self).spec_domains(), *b) && qualification_for(
                q,
                *profile,
                b.spec_view(),
            ) && !recorded(old(self).spec_qualifications(), q.qualification_id@)),
            res is Ok ==> final(self).spec_qualifications().len() == old(
                self,
            ).spec_qualifications().len() + 1 && final(self).spec_qualifications().drop_last()
                == old(self).spec_qualifications() && ({
                let r = final(self).spec_qualifications().last();
                &&& r.qualification == q
                &&& r.environment@ == b.spec_view().environment@
                &&& r.registration_revision == b.spec_view().registration_revision
                &&& r.withdrawal_revision == 0
            }),
            res is Err ==> final(self).spec_qualifications() == old(self).spec_qualifications(),
            final(self).spec_enrollments() == old(self).spec_enrollments(),
            final(self).spec_domains() == old(self).spec_domains(),
    {
        self.check_binding(b)?;
        q.validate_for(profile, &b.view)?;
        require(self.find_qualification(&q.qualification_id).is_none(), "Duplicate qualification")?;
        let ghost before = self.qualifications@;
        self.qualifications.push(
            QualificationRecordV1 {
                qualification: q,
                environment: b.view.environment.duplicate(),
                registration_revision: b.view.registration_revision,
                withdrawal_revision: 0,
            },
        );
        proof {
            assert(self.qualifications@.drop_last() =~= before);
            assert forall|a: int, c: int|
                0 <= a < c < self.qualifications@.len() implies #[trigger] self.qualifications@[a].qualification.qualification_id@
                    != #[trigger] self.qualifications@[c].qualification.qualification_id@ by {
                if c == before.len() {
                    assert(!qual_at(before, a, q.qualification_id@));
                }
            }
        }
        Ok(())
    }

    /// Withdraws recorded qualification `id` at withdrawal revision
    /// `revision`, which must be later than the qualification's own revision
    /// and than any earlier withdrawal; it is never current again.
    pub fn withdraw(&mut self, id: &QualificationId, revision: u64) -> (res: AppResult<()>)
        requires
            old(self).wf(),
        ensures
            final(self).wf(),
            res is Ok <==> ({
                let r = old(self).spec_qualifications()[qual_index(old(self).spec_qualifications(), id@)];
                &&& recorded(old(self).spec_qualifications(), id@)
                &&& r.qualification.revision < revision
                &&& r.withdrawal_revision < revision
            }),
            res is Ok ==> ({
                let j = qual_index(old(self).spec_qualifications(), id@);
                let r = old(self).spec_qualifications()[j];
                final(self).spec_qualifications() == old(self).spec_qualifications().update(
                    j,
                    QualificationRecordV1 {
                        qualification: r.qualification,
                        environment: r.environment,
                        registration_revision: r.registration_revision,
                        withdrawal_revision: revision,
                    },
                )
            }),
            res is Err ==> final(self).spec_qualifications() == old(self).spec_qualifications(),
            final(self).spec_enrollments() == old(self).spec_enrollments(),
            final(self).spec_domains() == old(self).spec_domains(),
    {
        let j = match self.find_qualification(id) {
            Some(j) => j,
            None => {
                return Err(AppError::InvalidInput("Missing/stale qualification withdrawal"));
            },
        };
        require(
            self.qualifications[j].qualification.revision < revision
                && self.qualifications[j].withdrawal_revision < revision,
            "Missing/stale qualification withdrawal",
        )?;
        let ghost before = self.qualifications@;
        self.qualifications[j].withdrawal_revision = revision;
        proof {
            let r = before[j as int];
            assert(self.qualifications@ =~= before.update(
                j as int,
                QualificationRecordV1 {
                    qualification: r.qualification,
                    environment: r.environment,
                    registration_revision: r.registration_revision,
                    withdrawal_revision: revision,
                },
            ));
            assert forall|a: int, c: int|
                0 <= a < c < self.qualifications@.len() implies #[trigger] self.qualifications@[a].qualification.qualification_id@
                    != #[trigger] self.qualifications@[c].qualification.qualification_id@ by {
                assert(before[a].qualification.qualification_id@
                    == self.qualifications@[a].qualification.qualification_id@);
                assert(before[c].qualification.qualification_id@
                    == self.qualifications@[c].qualification.qualification_id@);
            }
        }
        Ok(())
    }

    /// The trusted qualification `id` of `profile` on live binding `b`, when
    /// it is current at `now`.
    pub fn qualification(
        &self,
        b: &EnvironmentBindingV1,
        profile: &PhysicalCapabilityProfileV1,
        id: &QualificationId,
        now: u64,
    ) -> (res: AppResult<PhysicalQualificationV1>)
        requires
            self.wf(),
        ensures
            res is Ok <==> qualification_current(
                self.spec_enrollments(),
                self.spec_domains(),
                self.spec_qualifications(),
                *b,
                *profile,
                id@,
                now,
            ),
            res matches Ok(q) ==> qualification_same(
                q,
                self.spec_qualifications()[qual_index(self.spec_qualifications(), id@)].qualification,
            ),
    {
        self.check_binding(b)?;
        let j = match self.find_qualification(id) {
            Some(j) => j,
            None => {
                return Err(AppError::InvalidInput("Unknown physical qualification"));
            },
        };
        let r = &self.qualifications[j];
        require(
            r.withdrawal_revision == 0 && r.environment.same(&b.view.environment) && r.registration_revision
                == b.view.registration_revision && now < r.qualification.expires_at.get() && now
                < b.view.offer_expiry.get(),
            "Current qualification/binding mismatch",
        )?;
        r.qualification.validate_for(profile, &b.view)?;
        Ok(r.qualification.duplicate())
    }
}

/// Moving any conflict domain that a binding was resolved over to its next
/// epoch makes that binding stale, whatever else stays the same.
pub proof fn lemma_advanced_domain_stales_binding(
    es: Seq<EnrollmentV1>,
    before: Seq<DomainEpochV1>,
    after: Seq<DomainEpochV1>,
    b: EnvironmentBindingV1,
    d: Seq<char>,
)
    requires
        binding_current(es, before, b),
        entry_listed(b.spec_epochs(), d),
        epoch_of(before, d) is Some,
        epoch_of(after, d) == Some((epoch_of(before, d).unwrap() + 1) as u64),
        epoch_of(before, d).unwrap() < u64::MAX,
    ensures
        !binding_current(es, after, b),
{
    let k = choose|k: int| 0 <= k < b.spec_epochs().len() && (#[trigger] b.spec_epochs()[k]).domain@ == d;
    assert(epoch_of(before, b.spec_epochs()[k].domain@) == Some(b.spec_epochs()[k].epoch));
}

} // verus!
