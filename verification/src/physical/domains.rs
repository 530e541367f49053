//! The conflict-domain ledger: one epoch per canonical domain. An epoch only
//! grows; a binding resolved at some epochs is stale once any of them moves.
use vstd::prelude::*;

use crate::error::{AppError, AppResult};
use crate::physical::binding::token_listed;
use crate::values::DomainId;

verus! {

/// The most domains one ledger operation names.
pub const MAX_LEDGER_DOMAINS: usize = 16;

/// A domain and its epoch.
#[derive(Clone, Debug, PartialEq, Eq)]
pub struct DomainEpochV1 {
    pub domain: DomainId,
    pub epoch: u64,
}

pub open spec fn epoch_at(ds: Seq<DomainEpochV1>, i: int, d: Seq<char>) -> bool {
    0 <= i < ds.len() && ds[i].domain@ == d
}

/// The epoch of domain `d`, if the ledger knows it.
pub open spec fn epoch_of(ds: Seq<DomainEpochV1>, d: Seq<char>) -> Option<u64> {
    if exists|i: int| #[trigger] epoch_at(ds, i, d) {
        Some(ds[choose|i: int| #[trigger] epoch_at(ds, i, d)].epoch)
    } else {
        None
    }
}

/// No domain is listed twice.
pub open spec fn domains_unique(ds: Seq<DomainEpochV1>) -> bool {
    forall|i: int, j: int| 0 <= i < j < ds.len() ==> #[trigger] ds[i].domain@ != #[trigger] ds[j].domain@
}

/// Some entry of `s` names domain `d`.
pub open spec fn entry_listed(s: Seq<DomainEpochV1>, d: Seq<char>) -> bool {
    exists|k: int| 0 <= k < s.len() && (#[trigger] s[k]).domain@ == d
}

/// A known epoch that can still move on.
pub open spec fn bumpable(e: Option<u64>) -> bool {
    e is Some && e.unwrap() < u64::MAX
}

/// Every entry of `snap` still holds its epoch in `ds`.
pub open spec fn snapshot_holds(ds: Seq<DomainEpochV1>, snap: Seq<DomainEpochV1>) -> bool {
    forall|k: int| 0 <= k < snap.len() ==> epoch_of(ds, (#[trigger] snap[k]).domain@) == Some(snap[k].epoch)
}

/// In a ledger without repeated domains, the entry at `i` is the epoch of its domain.
pub proof fn lemma_epoch_at(ds: Seq<DomainEpochV1>, i: int)
    requires
        domains_unique(ds),
        0 <= i < ds.len(),
    ensures
        epoch_of(ds, ds[i].domain@) == Some(ds[i].epoch),
{
    let d = ds[i].domain@;
    assert(epoch_at(ds, i, d));
    let c = choose|c: int| #[trigger] epoch_at(ds, c, d);
    if c != i {
        if c < i {
            assert(ds[c].domain@ != ds[i].domain@);
        } else {
            assert(ds[i].domain@ != ds[c].domain@);
        }
    }
}

/// Appending an entry for a new domain sets that domain's epoch and keeps
/// every other.
pub proof fn lemma_push_epoch(before: Seq<DomainEpochV1>, e: DomainEpochV1, d: Seq<char>)
    requires
        domains_unique(before.push(e)),
    ensures
        epoch_of(before.push(e), d) == if d == e.domain@ {
            Some(e.epoch)
        } else {
            epoch_of(before, d)
        },
{
    let after = before.push(e);
    assert(domains_unique(before)) by {
        assert forall|i: int, j: int| 0 <= i < j < before.len() implies #[trigger] before[i].domain@ != #[trigger] before[j].domain@ by {
            assert(after[i] == before[i] && after[j] == before[j]);
        }
    }
    if d == e.domain@ {
        lemma_epoch_at(after, before.len() as int);
    } else if exists|k: int| #[trigger] epoch_at(after, k, d) {
        let k = choose|k: int| #[trigger] epoch_at(after, k, d);
        assert(k < before.len());
        assert(after[k] == before[k]);
        lemma_epoch_at(after, k);
        lemma_epoch_at(before, k);
    } else {
        assert forall|k: int| !#[trigger] epoch_at(before, k, d) by {
            if epoch_at(before, k, d) {
                assert(after[k] == before[k]);
                assert(epoch_at(after, k, d));
            }
        }
    }
}

/// Changing the epoch at `i` changes exactly its domain's epoch.
pub proof fn lemma_set_epoch(before: Seq<DomainEpochV1>, i: int, v: u64, d: Seq<char>)
    requires
        domains_unique(before),
        0 <= i < before.len(),
    ensures
        domains_unique(before.update(i, DomainEpochV1 { domain: before[i].domain, epoch: v })),
        epoch_of(before.update(i, DomainEpochV1 { domain: before[i].domain, epoch: v }), d) == if d
            == before[i].domain@ {
            Some(v)
        } else {
            epoch_of(before, d)
        },
{
    let after = before.update(i, DomainEpochV1 { domain: before[i].domain, epoch: v });
    assert forall|a: int, b: int| 0 <= a < b < after.len() implies #[trigger] after[a].domain@ != #[trigger] after[b].domain@ by {
        assert(after[a].domain@ == before[a].domain@ && after[b].domain@ == before[b].domain@);
    }
    if d == before[i].domain@ {
        lemma_epoch_at(after, i);
    } else if exists|k: int| #[trigger] epoch_at(after, k, d) {
        let k = choose|k: int| #[trigger] epoch_at(after, k, d);
        assert(k != i);
        lemma_epoch_at(after, k);
        lemma_epoch_at(before, k);
    } else {
        assert forall|k: int| !#[trigger] epoch_at(before, k, d) by {
            if epoch_at(before, k, d) {
                assert(k != i);
                assert(epoch_at(after, k, d));
            }
        }
    }
}

/// Epochs of the canonical conflict domains.
pub struct DomainLedgerV1 {
    entries: Vec<DomainEpochV1>,
}

impl DomainLedgerV1 {
    pub closed spec fn spec_entries(&self) -> Seq<DomainEpochV1> {
        self.entries@
    }

    pub open spec fn wf(&self) -> bool {
        domains_unique(self.spec_entries())
    }

    /// The epoch of `d`, if known.
    pub open spec fn epoch(&self, d: Seq<char>) -> Option<u64> {
        epoch_of(self.spec_entries(), d)
    }

    pub fn new() -> (r: DomainLedgerV1)
        ensures
            r.wf(),
            forall|d: Seq<char>| #[trigger] r.epoch(d) is None,
            r.spec_entries().len() == 0,
    {
        DomainLedgerV1 { entries: Vec::new() }
    }

    /// Stored epochs back as a ledger: accepted exactly when no domain is
    /// listed twice and every epoch is at least one.
    pub fn restore(entries: Vec<DomainEpochV1>) -> (r: Option<DomainLedgerV1>)
        ensures
            r is Some <==> domains_unique(entries@) && forall|k: int|
                0 <= k < entries@.len() ==> (#[trigger] entries@[k]).epoch >= 1,
            r matches Some(l) ==> l.spec_entries() == entries@,
    {
        let mut i: usize = 0;
        while i < entries.len()
            invariant
                i <= entries@.len(),
                forall|a: int, b: int| 0 <= a < b < i ==> #[trigger] entries@[a].domain@ != #[trigger] entries@[b].domain@,
                forall|k: int| 0 <= k < i ==> (#[trigger] entries@[k]).epoch >= 1,
            decreases entries@.len() - i,
        {
            if entries[i].epoch == 0 {
                return None;
            }
            let mut j: usize = 0;
            while j < i
                invariant
                    i < entries@.len(),
                    j <= i,
                    forall|a: int| 0 <= a < j ==> (#[trigger] entries@[a]).domain@ != entries@[i as int].domain@,
                decreases i - j,
            {
                if entries[j].domain.same(&entries[i].domain) {
                    return None;
                }
                j = j + 1;
            }
            i = i + 1;
        }
        Some(DomainLedgerV1 { entries })
    }

    /// The stored epochs, in the order they were written.
    pub fn into_entries(self) -> (r: Vec<DomainEpochV1>)
        ensures
            r@ == self.spec_entries(),
    {
        self.entries
    }

    fn find(&self, d: &DomainId) -> (r: Option<usize>)
        requires
            self.wf(),
        ensures
            r matches Some(i) ==> i < self.entries@.len() && self.entries@[i as int].domain@ == d@
                && self.epoch(d@) == Some(self.entries@[i as int].epoch),
            r is None ==> self.epoch(d@) is None,
    {
        let mut i: usize = 0;
        while i < self.entries.len()
            invariant
                self.wf(),
                i <= self.entries@.len(),
                forall|k: int| 0 <= k < i ==> self.entries@[k].domain@ != d@,
            decreases self.entries@.len() - i,
        {
            if self.entries[i].domain.same(d) {
                proof {
                    lemma_epoch_at(self.entries@, i as int);
                }
                return Some(i);
            }
            i = i + 1;
        }
        proof {
            assert forall|k: int| !#[trigger] epoch_at(self.entries@, k, d@) by {
                if 0 <= k < self.entries@.len() {
                    assert(self.entries@[k].domain@ != d@);
                }
            }
        }
        None
    }

    /// The epoch of `d`, if the ledger knows it.
    pub fn epoch_of_domain(&self, d: &DomainId) -> (r: Option<u64>)
        requires
            self.wf(),
        ensures
            r == self.epoch(d@),
    {
        match self.find(d) {
            Some(i) => Some(self.entries[i].epoch),
            None => None,
        }
    }

    /// Registers every listed domain not yet known, at epoch one.
    pub fn register_all(&mut self, ds: &Vec<DomainId>)
        requires
            old(self).wf(),
        ensures
            final(self).wf(),
            forall|d: Seq<char>| #[trigger] final(self).epoch(d) == if old(self).epoch(d) is Some {
                old(self).epoch(d)
            } else if token_listed(ds@, d) {
                Some(1u64)
            } else {
                None
            },
    {
        let ghost start = self.entries@;
        let mut i: usize = 0;
        while i < ds.len()
            invariant
                self.wf(),
                i <= ds@.len(),
                start.len() <= self.entries@.len(),
                self.entries@.subrange(0, start.len() as int) == start,
                domains_unique(start),
                forall|d: Seq<char>| #[trigger] epoch_of(self.entries@, d) == if epoch_of(start, d) is Some {
                    epoch_of(start, d)
                } else if exists|k: int| 0 <= k < i && ds@[k]@ == d {
                    Some(1u64)
                } else {
                    None
                },
            decreases ds@.len() - i,
        {
            let ghost before = self.entries@;
            if self.find(&ds[i]).is_none() {
                self.entries.push(DomainEpochV1 { domain: ds[i].duplicate(), epoch: 1 });
                proof {
                    let n = ds@[i as int]@;
                    assert forall|a: int, b: int| 0 <= a < b < self.entries@.len() implies #[trigger] self.entries@[a].domain@
                        != #[trigger] self.entries@[b].domain@ by {
                        if b == before.len() {
                            assert(!epoch_at(before, a, n));
                        }
                    }
                    assert(self.entries@ == before.push(DomainEpochV1 { domain: self.entries@.last().domain, epoch: 1 }));
                    assert(self.entries@.subrange(0, start.len() as int) =~= before.subrange(0, start.len() as int));
                    assert forall|d: Seq<char>| #[trigger] epoch_of(self.entries@, d) == if epoch_of(start, d) is Some {
                        epoch_of(start, d)
                    } else if exists|k: int| 0 <= k < i + 1 && ds@[k]@ == d {
                        Some(1u64)
                    } else {
                        None
                    } by {
                        lemma_push_epoch(before, self.entries@.last(), d);
                        assert(epoch_of(before, d) == if epoch_of(start, d) is Some {
                            epoch_of(start, d)
                        } else if exists|k: int| 0 <= k < i && ds@[k]@ == d {
                            Some(1u64)
                        } else {
                            None
                        });
                        if d == n {
                            assert(ds@[i as int]@ == d);
                        } else if exists|k: int| 0 <= k < i + 1 && ds@[k]@ == d {
                            let k = choose|k: int| 0 <= k < i + 1 && ds@[k]@ == d;
                            assert(k < i);
                        }
                    }
                }
            } else {
                proof {
                    assert forall|d: Seq<char>| #[trigger] epoch_of(self.entries@, d) == if epoch_of(start, d) is Some {
                        epoch_of(start, d)
                    } else if exists|k: int| 0 <= k < i + 1 && ds@[k]@ == d {
                        Some(1u64)
                    } else {
                        None
                    } by {
                        if exists|k: int| 0 <= k < i + 1 && ds@[k]@ == d {
                            let k = choose|k: int| 0 <= k < i + 1 && ds@[k]@ == d;
                            if k == i {
                                assert(epoch_of(self.entries@, d) is Some);
                            }
                        }
                    }
                }
            }
            i = i + 1;
        }
        proof {
            assert forall|d: Seq<char>| #[trigger] epoch_of(self.entries@, d) == if epoch_of(start, d) is Some {
                epoch_of(start, d)
            } else if token_listed(ds@, d) {
                Some(1u64)
            } else {
                None
            } by {
                if token_listed(ds@, d) {
                    let k = choose|k: int| 0 <= k < ds@.len() && ds@[k]@ == d;
                    assert(exists|k: int| 0 <= k < ds@.len() && ds@[k]@ == d);
                }
            }
        }
    }

    /// Moves every listed domain (each listed once) one epoch on, when all
    /// are known and none is at the last epoch; otherwise changes nothing.
    pub fn bump_all(&mut self, ds: &Vec<DomainId>) -> (r: AppResult<()>)
        requires
            old(self).wf(),
            forall|k: int, l: int| 0 <= k < l < ds@.len() ==> ds@[k]@ != ds@[l]@,
        ensures
            final(self).wf(),
            r is Ok <==> forall|k: int|
                0 <= k < ds@.len() ==> bumpable(#[trigger] old(self).epoch(ds@[k]@)),
            r is Ok ==> forall|d: Seq<char>| #[trigger] final(self).epoch(d) == if token_listed(ds@, d) {
                Some((old(self).epoch(d).unwrap() + 1) as u64)
            } else {
                old(self).epoch(d)
            },
            r is Err ==> final(self).spec_entries() == old(self).spec_entries(),
    {
        let mut k: usize = 0;
        while k < ds.len()
            invariant
                self.wf(),
                k <= ds@.len(),
                forall|j: int| 0 <= j < k ==> bumpable(#[trigger] self.epoch(ds@[j]@)),
            decreases ds@.len() - k,
        {
            match self.epoch_of_domain(&ds[k]) {
                Some(e) => {
                    if e == u64::MAX {
                        return Err(AppError::InvalidInput("Stale/conflicting physical domain ledger operation"));
                    }
                },
                None => {
                    return Err(AppError::InvalidInput("Unknown physical domain"));
                },
            }
            k = k + 1;
        }
        let ghost start = self.entries@;
        proof {
            assert forall|j: int| 0 <= j < ds@.len() implies bumpable(#[trigger] epoch_of(start, ds@[j]@)) by {
                assert(bumpable(self.epoch(ds@[j]@)));
            }
        }
        let mut k: usize = 0;
        while k < ds.len()
            invariant
                self.wf(),
                k <= ds@.len(),
                domains_unique(start),
                forall|j: int, l: int| 0 <= j < l < ds@.len() ==> ds@[j]@ != ds@[l]@,
                forall|j: int| 0 <= j < ds@.len() ==> bumpable(#[trigger] epoch_of(start, ds@[j]@)),
                forall|d: Seq<char>| #[trigger] epoch_of(self.entries@, d) == if exists|j: int| 0 <= j < k && ds@[j]@ == d {
                    Some((epoch_of(start, d).unwrap() + 1) as u64)
                } else {
                    epoch_of(start, d)
                },
            decreases ds@.len() - k,
        {
            let i = match self.find(&ds[k]) {
                Some(i) => i,
                None => {
                    proof {
                        assert(epoch_of(start, ds@[k as int]@) is Some);
                        assert(!(exists|j: int| 0 <= j < k && ds@[j]@ == ds@[k as int]@));
                    }
                    return Err(AppError::InvalidInput("Unknown physical domain"));
                },
            };
            let ghost before = self.entries@;
            proof {
                assert(!(exists|j: int| 0 <= j < k && ds@[j]@ == ds@[k as int]@));
                assert(epoch_of(before, ds@[k as int]@) == epoch_of(start, ds@[k as int]@));
            }
            let next = self.entries[i].epoch + 1;
            self.entries[i].epoch = next;
            proof {
                assert(self.entries@ =~= before.update(
                    i as int,
                    DomainEpochV1 { domain: before[i as int].domain, epoch: next },
                ));
                assert forall|d: Seq<char>| #[trigger] epoch_of(self.entries@, d) == if exists|j: int| 0 <= j < k + 1 && ds@[j]@ == d {
                    Some((epoch_of(start, d).unwrap() + 1) as u64)
                } else {
                    epoch_of(start, d)
                } by {
                    lemma_set_epoch(before, i as int, next, d);
                    if d == ds@[k as int]@ {
                        assert(ds@[k as int]@ == d);
                    } else if exists|j: int| 0 <= j < k + 1 && ds@[j]@ == d {
                        let j = choose|j: int| 0 <= j < k + 1 && ds@[j]@ == d;
                        assert(j < k);
                    }
                }
                lemma_set_epoch(before, i as int, next, ds@[0]@);
            }
            k = k + 1;
        }
        proof {
            assert forall|d: Seq<char>| #[trigger] epoch_of(self.entries@, d) == if token_listed(ds@, d) {
                Some((epoch_of(start, d).unwrap() + 1) as u64)
            } else {
                epoch_of(start, d)
            } by {
                if token_listed(ds@, d) {
                    let j = choose|j: int| 0 <= j < ds@.len() && ds@[j]@ == d;
                    assert(exists|j: int| 0 <= j < ds@.len() && ds@[j]@ == d);
                }
            }
        }
        Ok(())
    }

    /// Compare-and-advance: when 1..=16 distinct domains are listed, each
    /// exactly at its listed epoch, every one of them moves one epoch on
    /// together; otherwise nothing changes.
    pub fn advance(&mut self, expected: &Vec<DomainEpochV1>) -> (r: AppResult<()>)
        requires
            old(self).wf(),
        ensures
            final(self).wf(),
            r is Ok <==> ({
                &&& 0 < expected@.len() <= MAX_LEDGER_DOMAINS
                &&& forall|k: int, l: int| 0 <= k < l < expected@.len() ==> expected@[k].domain@ != expected@[l].domain@
                &&& forall|k: int|
                    0 <= k < expected@.len() ==> old(self).epoch((#[trigger] expected@[k]).domain@) == Some(expected@[k].epoch)
                        && expected@[k].epoch < u64::MAX
            }),
            r is Ok ==> forall|d: Seq<char>| #[trigger] final(self).epoch(d) == if entry_listed(expected@, d) {
                Some((old(self).epoch(d).unwrap() + 1) as u64)
            } else {
                old(self).epoch(d)
            },
            r is Err ==> final(self).spec_entries() == old(self).spec_entries(),
    {
        if expected.len() == 0 || expected.len() > MAX_LEDGER_DOMAINS {
            return Err(AppError::InvalidInput("Invalid domain ledger operation"));
        }
        let mut ds: Vec<DomainId> = Vec::new();
        let mut k: usize = 0;
        while k < expected.len()
            invariant
                self.wf(),
                k <= expected@.len(),
                ds@.len() == k,
                forall|j: int| 0 <= j < k ==> (#[trigger] ds@[j])@ == expected@[j].domain@,
                forall|j: int, l: int| 0 <= j < l < k ==> expected@[j].domain@ != expected@[l].domain@,
                forall|j: int|
                    0 <= j < k ==> self.epoch((#[trigger] expected@[j]).domain@) == Some(expected@[j].epoch)
                        && expected@[j].epoch < u64::MAX,
            decreases expected@.len() - k,
        {
            let e = &expected[k];
            let mut j: usize = 0;
            while j < k
                invariant
                    self.wf(),
                    k < expected@.len(),
                    *e == expected@[k as int],
                    ds@.len() == k,
                    forall|m: int| 0 <= m < k ==> (#[trigger] ds@[m])@ == expected@[m].domain@,
                    j <= k,
                    forall|m: int| 0 <= m < j ==> expected@[m].domain@ != expected@[k as int].domain@,
                decreases k - j,
            {
                if ds[j].same(&e.domain) {
                    return Err(AppError::InvalidInput("Invalid domain ledger operation"));
                }
                j = j + 1;
            }
            match self.epoch_of_domain(&e.domain) {
                Some(current) => {
                    if current != e.epoch || e.epoch == u64::MAX {
                        return Err(AppError::InvalidInput("Stale/conflicting physical domain ledger operation"));
                    }
                },
                None => {
                    return Err(AppError::InvalidInput("Stale/conflicting physical domain ledger operation"));
                },
            }
            ds.push(e.domain.duplicate());
            k = k + 1;
        }
        proof {
            assert forall|j: int| 0 <= j < ds@.len() implies bumpable(#[trigger] self.epoch(ds@[j]@)) by {
                assert(ds@[j]@ == expected@[j].domain@);
            }
        }
        let r = self.bump_all(&ds);
        proof {
            assert(r is Ok);
            assert forall|d: Seq<char>| token_listed(ds@, d) == entry_listed(expected@, d) by {
                if token_listed(ds@, d) {
                    let j = choose|j: int| 0 <= j < ds@.len() && ds@[j]@ == d;
                    assert(expected@[j].domain@ == d);
                }
                if entry_listed(expected@, d) {
                    let j = choose|j: int| 0 <= j < expected@.len() && (#[trigger] expected@[j]).domain@ == d;
                    assert(ds@[j]@ == d);
                }
            }
        }
        r
    }

    /// The current epochs of the listed domains, when all are known.
    pub fn snapshot(&self, ds: &Vec<DomainId>) -> (r: AppResult<Vec<DomainEpochV1>>)
        requires
            self.wf(),
        ensures
            r is Ok <==> forall|k: int| 0 <= k < ds@.len() ==> (#[trigger] self.epoch(ds@[k]@)) is Some,
            r matches Ok(v) ==> v@.len() == ds@.len() && snapshot_holds(self.spec_entries(), v@)
                && forall|k: int| 0 <= k < ds@.len() ==> (#[trigger] v@[k]).domain@ == ds@[k]@,
    {
        let mut out: Vec<DomainEpochV1> = Vec::new();
        let mut k: usize = 0;
        while k < ds.len()
            invariant
                self.wf(),
                k <= ds@.len(),
                out@.len() == k,
                snapshot_holds(self.spec_entries(), out@),
                forall|j: int| 0 <= j < k ==> (#[trigger] out@[j]).domain@ == ds@[j]@,
                forall|j: int| 0 <= j < k ==> (#[trigger] self.epoch(ds@[j]@)) is Some,
            decreases ds@.len() - k,
        {
            match self.epoch_of_domain(&ds[k]) {
                Some(e) => {
                    out.push(DomainEpochV1 { domain: ds[k].duplicate(), epoch: e });
                },
                None => {
                    return Err(AppError::InvalidInput("Unknown physical domain"));
                },
            }
            k = k + 1;
        }
        Ok(out)
    }

    /// Whether every entry of `snap` still holds its epoch.
    pub fn holds(&self, snap: &Vec<DomainEpochV1>) -> (r: bool)
        requires
            self.wf(),
        ensures
            r == snapshot_holds(self.spec_entries(), snap@),
    {
        let mut k: usize = 0;
        while k < snap.len()
            invariant
                self.wf(),
                k <= snap@.len(),
                forall|j: int| 0 <= j < k ==> epoch_of(self.spec_entries(), (#[trigger] snap@[j]).domain@) == Some(snap@[j].epoch),
            decreases snap@.len() - k,
        {
            match self.epoch_of_domain(&snap[k].domain) {
                Some(e) => {
                    if e != snap[k].epoch {
                        return false;
                    }
                },
                None => {
                    return false;
                },
            }
            k = k + 1;
        }
        true
    }
}

} // verus!
