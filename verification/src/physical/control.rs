//! The durable control facts of admitted actions: one cumulative budget per
//! root and at most one action per root, with its dispatch disposition.
//! Budgets never replenish once spent, a dispatch decision is kept before
//! any apply and never repeated, and closing a root releases only a
//! reservation that provably never reached dispatch.
use vstd::prelude::*;

use crate::error::{AppError, AppResult};
use crate::values::{ActionId, RootId, TokenV1};

verus! {

/// Identifies one adapter operation (an apply or a refresh).
pub type RequestId = TokenV1;

/// What is known of an action's dispatch.
#[derive(Clone, Copy, Debug, PartialEq, Eq, Structural)]
pub enum DispositionV1 {
    /// No dispatch decision was made.
    NotSent,
    /// A dispatch was decided; whether it applied is unknown.
    DispatchUnknown,
    /// The lane accepted the apply.
    FakeAccepted,
    /// The lane refused the apply.
    FakeRefused,
}

#[derive(Clone, Copy, Debug, PartialEq, Eq, Structural)]
pub enum ActionStateV1 {
    Open,
    Closed,
}

/// A root's cumulative execution budget, in microseconds, for one action.
#[derive(Clone, Debug, PartialEq, Eq)]
pub struct ControlBudgetV1 {
    pub root_id: RootId,
    pub ceiling_us: u64,
    pub reserved_us: u64,
    pub reserved_count: u64,
    pub consumed_us: u64,
}

/// An admitted action and what is known of its dispatch.
#[derive(Clone, Debug, PartialEq, Eq)]
pub struct ControlActionV1 {
    pub action_id: ActionId,
    pub root_id: RootId,
    pub requested_us: u64,
    pub reserved_us: u64,
    pub expires_at: u64,
    pub state: ActionStateV1,
    pub dispatch_intent: bool,
    pub disposition: DispositionV1,
    pub apply_result: Option<bool>,
    pub operation: Option<RequestId>,
    pub refresh_sequence: u64,
}

/// A positive ceiling, with at most one reservation within it, of which at
/// most everything is consumed.
pub open spec fn budget_valid(b: ControlBudgetV1) -> bool {
    &&& b.ceiling_us > 0
    &&& b.reserved_us <= b.ceiling_us
    &&& b.reserved_count <= 1
    &&& b.consumed_us <= b.reserved_us
}

/// Without a dispatch decision nothing was sent, applied or refreshed; an
/// accepted or refused disposition carries the same apply result.
pub open spec fn action_valid(a: ControlActionV1) -> bool {
    &&& 0 < a.requested_us <= a.reserved_us
    &&& a.dispatch_intent || (a.disposition == DispositionV1::NotSent && a.apply_result is None
        && a.refresh_sequence == 0)
    &&& a.disposition == DispositionV1::FakeAccepted ==> a.apply_result == Some(true)
    &&& a.disposition == DispositionV1::FakeRefused ==> a.apply_result == Some(false)
    &&& a.operation is Some ==> a.dispatch_intent
}

/// The disposition a finished write records: a refresh only confirms an
/// acceptance; an apply records acceptance, refusal or that it is unknown.
pub open spec fn finished_disposition(refresh: bool, result: Option<bool>) -> DispositionV1 {
    if refresh {
        if result == Some(true) {
            DispositionV1::FakeAccepted
        } else {
            DispositionV1::DispatchUnknown
        }
    } else {
        match result {
            Some(true) => DispositionV1::FakeAccepted,
            Some(false) => DispositionV1::FakeRefused,
            None => DispositionV1::DispatchUnknown,
        }
    }
}

/// `a` after a write finished: the new disposition, the first apply result
/// kept, and no operation in flight.
pub open spec fn finished_action(a: ControlActionV1, refresh: bool, result: Option<bool>) -> ControlActionV1 {
    ControlActionV1 {
        disposition: finished_disposition(refresh, result),
        apply_result: if a.apply_result is Some {
            a.apply_result
        } else if refresh {
            None
        } else {
            result
        },
        operation: None,
        ..a
    }
}

/// The operation in flight for `a` is exactly `op`, and `a` is open.
pub open spec fn write_in_flight(a: ControlActionV1, op: Seq<char>) -> bool {
    a.state == ActionStateV1::Open && a.operation is Some && a.operation.unwrap()@ == op
}

/// A budget moves forward only: same root and ceiling, consumption never
/// shrinks, and once anything is consumed the reservation never shrinks.
pub open spec fn budget_evolves(a: ControlBudgetV1, b: ControlBudgetV1) -> bool {
    &&& a.root_id@ == b.root_id@
    &&& a.ceiling_us == b.ceiling_us
    &&& a.consumed_us <= b.consumed_us
    &&& a.consumed_us > 0 ==> a.reserved_us <= b.reserved_us && a.reserved_count <= b.reserved_count
}

/// An action moves forward only: same identity and amounts, a closed action
/// stays as it was, a dispatch decision is never taken back, refreshes only
/// count up, and a recorded apply result never changes.
pub open spec fn action_evolves(a: ControlActionV1, b: ControlActionV1) -> bool {
    &&& a.action_id@ == b.action_id@
    &&& a.root_id@ == b.root_id@
    &&& a.requested_us == b.requested_us
    &&& a.reserved_us == b.reserved_us
    &&& a.expires_at == b.expires_at
    &&& a.state == ActionStateV1::Closed ==> b.state == ActionStateV1::Closed && b.disposition == a.disposition
        && b.apply_result == a.apply_result && b.dispatch_intent == a.dispatch_intent
    &&& a.dispatch_intent ==> b.dispatch_intent
    &&& a.refresh_sequence <= b.refresh_sequence
    &&& a.apply_result is Some ==> b.apply_result == a.apply_result
}

pub open spec fn budget_at(bs: Seq<ControlBudgetV1>, i: int, root: Seq<char>) -> bool {
    0 <= i < bs.len() && bs[i].root_id@ == root
}

pub open spec fn has_budget(bs: Seq<ControlBudgetV1>, root: Seq<char>) -> bool {
    exists|j: int| #[trigger] budget_at(bs, j, root)
}

pub open spec fn action_at(xs: Seq<ControlActionV1>, i: int, id: Seq<char>) -> bool {
    0 <= i < xs.len() && xs[i].action_id@ == id
}

pub open spec fn root_action_at(xs: Seq<ControlActionV1>, i: int, root: Seq<char>) -> bool {
    0 <= i < xs.len() && xs[i].root_id@ == root
}

pub open spec fn budget_index(bs: Seq<ControlBudgetV1>, root: Seq<char>) -> int {
    choose|i: int| budget_at(bs, i, root)
}

pub open spec fn action_index(xs: Seq<ControlActionV1>, id: Seq<char>) -> int {
    choose|i: int| action_at(xs, i, id)
}

pub open spec fn has_action(xs: Seq<ControlActionV1>, id: Seq<char>) -> bool {
    exists|i: int| #[trigger] action_at(xs, i, id)
}

pub open spec fn root_has_action(xs: Seq<ControlActionV1>, root: Seq<char>) -> bool {
    exists|i: int| #[trigger] root_action_at(xs, i, root)
}

pub open spec fn root_action_index(xs: Seq<ControlActionV1>, root: Seq<char>) -> int {
    choose|i: int| root_action_at(xs, i, root)
}

/// What a budget shows of its root's action: nothing reserved or consumed
/// without one, or once one closed without a dispatch decision; otherwise
/// exactly its reservation, consumed exactly when a dispatch was decided.
pub open spec fn budget_matches(b: ControlBudgetV1, xs: Seq<ControlActionV1>) -> bool {
    let x = xs[root_action_index(xs, b.root_id@)];
    if !root_has_action(xs, b.root_id@) || (x.state == ActionStateV1::Closed && !x.dispatch_intent) {
        b.reserved_us == 0 && b.reserved_count == 0 && b.consumed_us == 0
    } else {
        &&& b.reserved_us == x.reserved_us
        &&& b.reserved_count == 1
        &&& b.consumed_us == if x.dispatch_intent { x.reserved_us } else { 0 }
    }
}

/// Stored control facts that can become a ledger again: one valid budget
/// per root, one valid action per identity and per root under a budget of
/// its root, and every budget showing exactly its root's action.
pub open spec fn control_facts_ok(bs: Seq<ControlBudgetV1>, xs: Seq<ControlActionV1>) -> bool {
    &&& forall|i: int, j: int| 0 <= i < j < bs.len() ==> #[trigger] bs[i].root_id@ != #[trigger] bs[j].root_id@
    &&& forall|i: int| 0 <= i < bs.len() ==> budget_valid(#[trigger] bs[i])
    &&& forall|i: int, j: int| 0 <= i < j < xs.len() ==> #[trigger] xs[i].action_id@ != #[trigger] xs[j].action_id@
    &&& forall|i: int, j: int| 0 <= i < j < xs.len() ==> #[trigger] xs[i].root_id@ != #[trigger] xs[j].root_id@
    &&& forall|i: int| 0 <= i < xs.len() ==> action_valid(#[trigger] xs[i])
    &&& forall|i: int| 0 <= i < xs.len() ==> has_budget(bs, (#[trigger] xs[i]).root_id@)
    &&& forall|i: int| 0 <= i < bs.len() ==> budget_matches(#[trigger] bs[i], xs)
}

/// The control facts of every root.
pub struct ControlLedgerV1 {
    budgets: Vec<ControlBudgetV1>,
    actions: Vec<ControlActionV1>,
}

impl ControlLedgerV1 {
    pub closed spec fn spec_budgets(&self) -> Seq<ControlBudgetV1> {
        self.budgets@
    }

    pub closed spec fn spec_actions(&self) -> Seq<ControlActionV1> {
        self.actions@
    }

    /// One budget per root, one action per identity and per root, each
    /// action under a budget of its root, every record valid.
    pub open spec fn wf(&self) -> bool {
        let bs = self.spec_budgets();
        let xs = self.spec_actions();
        &&& forall|i: int, j: int| 0 <= i < j < bs.len() ==> #[trigger] bs[i].root_id@ != #[trigger] bs[j].root_id@
        &&& forall|i: int| 0 <= i < bs.len() ==> budget_valid(#[trigger] bs[i])
        &&& forall|i: int, j: int| 0 <= i < j < xs.len() ==> #[trigger] xs[i].action_id@ != #[trigger] xs[j].action_id@
        &&& forall|i: int, j: int| 0 <= i < j < xs.len() ==> #[trigger] xs[i].root_id@ != #[trigger] xs[j].root_id@
        &&& forall|i: int| 0 <= i < xs.len() ==> action_valid(#[trigger] xs[i])
        &&& forall|i: int| 0 <= i < xs.len() ==> has_budget(bs, (#[trigger] xs[i]).root_id@)
    }

    /// Every earlier budget and action moved forward only; new ones may follow.
    pub open spec fn evolves_to(&self, other: &ControlLedgerV1) -> bool {
        &&& self.spec_budgets().len() <= other.spec_budgets().len()
        &&& self.spec_actions().len() <= other.spec_actions().len()
        &&& forall|i: int| 0 <= i < self.spec_budgets().len() ==> budget_evolves(#[trigger] self.spec_budgets()[i], other.spec_budgets()[i])
        &&& forall|i: int| 0 <= i < self.spec_actions().len() ==> action_evolves(#[trigger] self.spec_actions()[i], other.spec_actions()[i])
    }

    pub fn new() -> (r: ControlLedgerV1)
        ensures
            r.wf(),
            r.spec_budgets().len() == 0,
            r.spec_actions().len() == 0,
    {
        ControlLedgerV1 { budgets: Vec::new(), actions: Vec::new() }
    }

    /// Audits stored control facts before they become a ledger again:
    /// accepted exactly when `control_facts_ok` holds; the ledger then holds
    /// exactly these facts.
    #[verifier::loop_isolation(false)]
    pub fn restore(budgets: Vec<ControlBudgetV1>, actions: Vec<ControlActionV1>) -> (r: AppResult<ControlLedgerV1>)
        ensures
            r is Ok <==> control_facts_ok(budgets@, actions@),
            r is Err ==> r == Err::<ControlLedgerV1, AppError>(
                AppError::InvalidInput("Control ledger records are inconsistent."),
            ),
            r matches Ok(l) ==> l.wf() && l.spec_budgets() == budgets@ && l.spec_actions() == actions@,
    {
        let ghost bs = budgets@;
        let ghost xs = actions@;
        let mut i: usize = 0;
        while i < budgets.len()
            invariant
                i <= bs.len(),
                budgets@ == bs,
                forall|a: int, b: int| 0 <= a < b < i ==> #[trigger] bs[a].root_id@ != #[trigger] bs[b].root_id@,
                forall|a: int| 0 <= a < i ==> budget_valid(#[trigger] bs[a]),
            decreases bs.len() - i,
        {
            let b = &budgets[i];
            if !(b.ceiling_us > 0 && b.reserved_us <= b.ceiling_us && b.reserved_count <= 1
                && b.consumed_us <= b.reserved_us) {
                return Err(AppError::InvalidInput("Control ledger records are inconsistent."));
            }
            let mut j: usize = 0;
            while j < i
                invariant
                    i < bs.len(),
                    j <= i,
                    budgets@ == bs,
                    forall|a: int| 0 <= a < j ==> (#[trigger] bs[a]).root_id@ != bs[i as int].root_id@,
                decreases i - j,
            {
                if budgets[j].root_id.same(&budgets[i].root_id) {
                    return Err(AppError::InvalidInput("Control ledger records are inconsistent."));
                }
                j = j + 1;
            }
            i = i + 1;
        }
        let mut i: usize = 0;
        while i < actions.len()
            invariant
                i <= xs.len(),
                actions@ == xs,
                budgets@ == bs,
                forall|a: int, b: int| 0 <= a < b < i ==> #[trigger] xs[a].action_id@ != #[trigger] xs[b].action_id@,
                forall|a: int, b: int| 0 <= a < b < i ==> #[trigger] xs[a].root_id@ != #[trigger] xs[b].root_id@,
                forall|a: int| 0 <= a < i ==> action_valid(#[trigger] xs[a]),
                forall|a: int| 0 <= a < i ==> has_budget(bs, (#[trigger] xs[a]).root_id@),
            decreases xs.len() - i,
        {
            let x = &actions[i];
            let quiet = match x.disposition {
                DispositionV1::NotSent => true,
                _ => false,
            };
            let accepted = match x.disposition {
                DispositionV1::FakeAccepted => true,
                _ => false,
            };
            let refused = match x.disposition {
                DispositionV1::FakeRefused => true,
                _ => false,
            };
            let result_true = match x.apply_result {
                Some(v) => v,
                None => false,
            };
            let result_false = match x.apply_result {
                Some(v) => !v,
                None => false,
            };
            if !(0 < x.requested_us && x.requested_us <= x.reserved_us && (x.dispatch_intent || (quiet
                && x.apply_result.is_none() && x.refresh_sequence == 0)) && (!accepted || result_true)
                && (!refused || result_false) && (x.operation.is_none() || x.dispatch_intent)) {
                return Err(AppError::InvalidInput("Control ledger records are inconsistent."));
            }
            let mut found = false;
            let mut k: usize = 0;
            while k < budgets.len()
                invariant
                    i < xs.len(),
                    k <= bs.len(),
                    budgets@ == bs,
                    found ==> has_budget(bs, xs[i as int].root_id@),
                    !found ==> forall|a: int| 0 <= a < k ==> !#[trigger] budget_at(bs, a, xs[i as int].root_id@),
                decreases bs.len() - k,
            {
                if budgets[k].root_id.same(&actions[i].root_id) {
                    proof {
                        assert(budget_at(bs, k as int, xs[i as int].root_id@));
                    }
                    found = true;
                }
                k = k + 1;
            }
            if !found {
                return Err(AppError::InvalidInput("Control ledger records are inconsistent."));
            }
            let mut j: usize = 0;
            while j < i
                invariant
                    i < xs.len(),
                    j <= i,
                    actions@ == xs,
                    forall|a: int| 0 <= a < j ==> (#[trigger] xs[a]).action_id@ != xs[i as int].action_id@,
                    forall|a: int| 0 <= a < j ==> (#[trigger] xs[a]).root_id@ != xs[i as int].root_id@,
                decreases i - j,
            {
                if actions[j].action_id.same(&actions[i].action_id) || actions[j].root_id.same(&actions[i].root_id) {
                    return Err(AppError::InvalidInput("Control ledger records are inconsistent."));
                }
                j = j + 1;
            }
            i = i + 1;
        }
        let ledger = ControlLedgerV1 { budgets, actions };
        let mut i: usize = 0;
        while i < ledger.budgets.len()
            invariant
                ledger.wf(),
                ledger.budgets@ == bs,
                ledger.actions@ == xs,
                i <= bs.len(),
                forall|a: int| 0 <= a < i ==> budget_matches(#[trigger] bs[a], xs),
            decreases bs.len() - i,
        {
            let b = &ledger.budgets[i];
            let ok = match ledger.find_root_action(&b.root_id) {
                None => b.reserved_us == 0 && b.reserved_count == 0 && b.consumed_us == 0,
                Some(k) => {
                    let x = &ledger.actions[k];
                    proof {
                        let c = root_action_index(xs, b.root_id@);
                        assert(root_action_at(xs, k as int, b.root_id@));
                        assert(root_action_at(xs, c, b.root_id@));
                        if c < k {
                            assert(xs[c].root_id@ != xs[k as int].root_id@);
                        } else if k < c {
                            assert(xs[k as int].root_id@ != xs[c].root_id@);
                        }
                    }
                    let closed = match x.state {
                        ActionStateV1::Closed => true,
                        ActionStateV1::Open => false,
                    };
                    if closed && !x.dispatch_intent {
                        b.reserved_us == 0 && b.reserved_count == 0 && b.consumed_us == 0
                    } else {
                        b.reserved_us == x.reserved_us && b.reserved_count == 1 && b.consumed_us == if x.dispatch_intent {
                            x.reserved_us
                        } else {
                            0
                        }
                    }
                },
            };
            if !ok {
                proof {
                    assert(!budget_matches(bs[i as int], xs));
                }
                return Err(AppError::InvalidInput("Control ledger records are inconsistent."));
            }
            i = i + 1;
        }
        Ok(ledger)
    }

    /// Hands the stored facts back, in the order they were written.
    pub fn into_parts(self) -> (r: (Vec<ControlBudgetV1>, Vec<ControlActionV1>))
        ensures
            r.0@ == self.spec_budgets(),
            r.1@ == self.spec_actions(),
    {
        (self.budgets, self.actions)
    }

    fn find_budget(&self, root: &RootId) -> (r: Option<usize>)
        requires
            self.wf(),
        ensures
            r matches Some(i) ==> budget_at(self.budgets@, i as int, root@) && i == budget_index(self.budgets@, root@),
            r is None ==> forall|i: int| !#[trigger] budget_at(self.budgets@, i, root@),
    {
        let mut i: usize = 0;
        while i < self.budgets.len()
            invariant
                self.wf(),
                i <= self.budgets@.len(),
                forall|k: int| 0 <= k < i ==> !#[trigger] budget_at(self.budgets@, k, root@),
            decreases self.budgets@.len() - i,
        {
            if self.budgets[i].root_id.same(root) {
                proof {
                    let c = budget_index(self.budgets@, root@);
                    assert(budget_at(self.budgets@, i as int, root@));
                    assert(budget_at(self.budgets@, c, root@));
                    if c < i {
                        assert(self.spec_budgets()[c].root_id@ != self.spec_budgets()[i as int].root_id@);
                    } else if c > i {
                        assert(self.spec_budgets()[i as int].root_id@ != self.spec_budgets()[c].root_id@);
                    }
                }
                return Some(i);
            }
            i = i + 1;
        }
        None
    }

    fn find_action(&self, id: &ActionId) -> (r: Option<usize>)
        requires
            self.wf(),
        ensures
            r matches Some(i) ==> action_at(self.actions@, i as int, id@) && i == action_index(self.actions@, id@),
            r is None ==> forall|i: int| !#[trigger] action_at(self.actions@, i, id@),
    {
        let mut i: usize = 0;
        while i < self.actions.len()
            invariant
                self.wf(),
                i <= self.actions@.len(),
                forall|k: int| 0 <= k < i ==> !#[trigger] action_at(self.actions@, k, id@),
            decreases self.actions@.len() - i,
        {
            if self.actions[i].action_id.same(id) {
                proof {
                    let c = action_index(self.actions@, id@);
                    assert(action_at(self.actions@, i as int, id@));
                    assert(action_at(self.actions@, c, id@));
                    if c < i {
                        assert(self.spec_actions()[c].action_id@ != self.spec_actions()[i as int].action_id@);
                    } else if c > i {
                        assert(self.spec_actions()[i as int].action_id@ != self.spec_actions()[c].action_id@);
                    }
                }
                return Some(i);
            }
            i = i + 1;
        }
        None
    }

    fn find_root_action(&self, root: &RootId) -> (r: Option<usize>)
        requires
            self.wf(),
        ensures
            r matches Some(i) ==> root_action_at(self.actions@, i as int, root@),
            r is None ==> forall|i: int| !#[trigger] root_action_at(self.actions@, i, root@),
    {
        let mut i: usize = 0;
        while i < self.actions.len()
            invariant
                i <= self.actions@.len(),
                forall|k: int| 0 <= k < i ==> !#[trigger] root_action_at(self.actions@, k, root@),
            decreases self.actions@.len() - i,
        {
            if self.actions[i].root_id.same(root) {
                return Some(i);
            }
            i = i + 1;
        }
        None
    }

    /// Opens the budget of root `root_id`: `ceiling_us` microseconds for one
    /// action, nothing reserved or consumed.
    pub fn open_budget(&mut self, root_id: RootId, ceiling_us: u64) -> (r: AppResult<()>)
        requires
            old(self).wf(),
        ensures
            final(self).wf(),
            old(self).evolves_to(&*final(self)),
            r is Ok <==> ceiling_us > 0 && !has_budget(old(self).spec_budgets(), root_id@),
            r is Ok ==> final(self).spec_budgets() == old(self).spec_budgets().push(
                ControlBudgetV1 { root_id, ceiling_us, reserved_us: 0, reserved_count: 0, consumed_us: 0 },
            ),
            r is Err ==> final(self).spec_budgets() == old(self).spec_budgets(),
            final(self).spec_actions() == old(self).spec_actions(),
    {
        if ceiling_us == 0 {
            return Err(AppError::InvalidInput("Invalid physical control budget"));
        }
        if self.find_budget(&root_id).is_some() {
            return Err(AppError::InvalidInput("Physical control budget already exists"));
        }
        let ghost before = self.spec_budgets();
        self.budgets.push(ControlBudgetV1 { root_id, ceiling_us, reserved_us: 0, reserved_count: 0, consumed_us: 0 });
        proof {
            let bs = self.spec_budgets();
            let xs = self.spec_actions();
            assert forall|i: int, j: int| 0 <= i < j < bs.len() implies #[trigger] bs[i].root_id@ != #[trigger] bs[j].root_id@ by {
                if j == before.len() {
                    assert(!budget_at(before, i, bs[j].root_id@));
                } else {
                    assert(bs[i] == before[i] && bs[j] == before[j]);
                }
            }
            assert forall|i: int| 0 <= i < bs.len() implies budget_valid(#[trigger] bs[i]) by {
                if i < before.len() {
                    assert(bs[i] == before[i]);
                }
            }
            assert forall|i: int| 0 <= i < xs.len() implies has_budget(bs, (#[trigger] xs[i]).root_id@) by {
                let j = choose|j: int| #[trigger] budget_at(before, j, xs[i].root_id@);
                assert(budget_at(bs, j, xs[i].root_id@));
            }
            assert forall|i: int| 0 <= i < before.len() implies budget_evolves(#[trigger] before[i], bs[i]) by {
                assert(bs[i] == before[i]);
            }
        }
        Ok(())
    }

    /// Admits action `action_id` of root `root_id`, reserving `reserved_us`
    /// of the root's budget: only while the action is still live at `now`,
    /// the budget holds no reservation, nothing of it was consumed and the
    /// reservation fits, and the root has no other action. The action starts
    /// open, with no dispatch decision.
    pub fn admit_action(
        &mut self,
        action_id: ActionId,
        root_id: &RootId,
        requested_us: u64,
        reserved_us: u64,
        expires_at: u64,
        now: u64,
    ) -> (r: AppResult<()>)
        requires
            old(self).wf(),
        ensures
            final(self).wf(),
            old(self).evolves_to(&*final(self)),
            r is Ok <==> ({
                let bs = old(self).spec_budgets();
                let b = bs[budget_index(bs, root_id@)];
                &&& now < expires_at
                &&& has_budget(bs, root_id@)
                &&& b.reserved_count == 0
                &&& b.consumed_us == 0
                &&& b.reserved_us + reserved_us <= b.ceiling_us
                &&& 0 < requested_us <= reserved_us
                &&& !has_action(old(self).spec_actions(), action_id@)
                &&& !root_has_action(old(self).spec_actions(), root_id@)
            }),
            r is Ok ==> ({
                let bs = old(self).spec_budgets();
                let i = budget_index(bs, root_id@);
                let b = bs[i];
                &&& final(self).spec_budgets() == bs.update(
                    i,
                    ControlBudgetV1 {
                        root_id: b.root_id,
                        ceiling_us: b.ceiling_us,
                        reserved_us: (b.reserved_us + reserved_us) as u64,
                        reserved_count: (b.reserved_count + 1) as u64,
                        consumed_us: b.consumed_us,
                    },
                )
                &&& final(self).spec_actions().len() == old(self).spec_actions().len() + 1
                &&& final(self).spec_actions().drop_last() == old(self).spec_actions()
                &&& ({
                    let a = final(self).spec_actions().last();
                    &&& a.action_id == action_id
                    &&& a.root_id@ == root_id@
                    &&& a.requested_us == requested_us
                    &&& a.reserved_us == reserved_us
                    &&& a.expires_at == expires_at
                    &&& a.state == ActionStateV1::Open
                    &&& !a.dispatch_intent
                    &&& a.disposition == DispositionV1::NotSent
                    &&& a.apply_result is None
                    &&& a.operation is None
                    &&& a.refresh_sequence == 0
                })
            }),
            r is Err ==> final(self).spec_budgets() == old(self).spec_budgets()
                && final(self).spec_actions() == old(self).spec_actions(),
    {
        if now >= expires_at {
            return Err(AppError::InvalidInput("Action lifetime exhausted"));
        }
        let i = match self.find_budget(root_id) {
            Some(i) => i,
            None => {
                return Err(AppError::InvalidInput("Insufficient cumulative budget"));
            },
        };
        let b = &self.budgets[i];
        proof {
            assert(budget_valid(self.spec_budgets()[i as int]));
        }
        if !(b.reserved_count == 0 && b.consumed_us == 0 && reserved_us <= b.ceiling_us - b.reserved_us) {
            return Err(AppError::InvalidInput("Insufficient cumulative budget"));
        }
        if !(0 < requested_us && requested_us <= reserved_us) {
            return Err(AppError::InvalidInput("Invalid physical action reservation"));
        }
        let same_id = self.find_action(&action_id);
        let same_root = self.find_root_action(root_id);
        if same_id.is_some() || same_root.is_some() {
            return Err(AppError::InvalidInput("Physical action identity is not unique"));
        }
        let ghost bs0 = self.spec_budgets();
        let ghost xs0 = self.spec_actions();
        let new_reserved = self.budgets[i].reserved_us + reserved_us;
        self.budgets[i].reserved_us = new_reserved;
        self.budgets[i].reserved_count = 1;
        let action = ControlActionV1 {
            action_id,
            root_id: root_id.duplicate(),
            requested_us,
            reserved_us,
            expires_at,
            state: ActionStateV1::Open,
            dispatch_intent: false,
            disposition: DispositionV1::NotSent,
            apply_result: None,
            operation: None,
            refresh_sequence: 0,
        };
        self.actions.push(action);
        proof {
            let bs = self.spec_budgets();
            let xs = self.spec_actions();
            let b0 = bs0[i as int];
            assert(bs =~= bs0.update(
                i as int,
                ControlBudgetV1 {
                    root_id: b0.root_id,
                    ceiling_us: b0.ceiling_us,
                    reserved_us: (b0.reserved_us + reserved_us) as u64,
                    reserved_count: (b0.reserved_count + 1) as u64,
                    consumed_us: b0.consumed_us,
                },
            ));
            assert(xs.drop_last() =~= xs0);
            assert forall|a: int, c: int| 0 <= a < c < bs.len() implies #[trigger] bs[a].root_id@ != #[trigger] bs[c].root_id@ by {
                assert(bs[a].root_id@ == bs0[a].root_id@ && bs[c].root_id@ == bs0[c].root_id@);
                assert(bs0[a].root_id@ != bs0[c].root_id@);
            }
            assert forall|a: int| 0 <= a < bs.len() implies budget_valid(#[trigger] bs[a]) by {
                if a != i {
                    assert(bs[a] == bs0[a]);
                }
            }
            assert forall|a: int, c: int| 0 <= a < c < xs.len() implies #[trigger] xs[a].action_id@ != #[trigger] xs[c].action_id@ by {
                if c == xs0.len() {
                    assert(!action_at(xs0, a, xs[c].action_id@));
                } else {
                    assert(xs[a] == xs0[a] && xs[c] == xs0[c]);
                }
            }
            assert forall|a: int, c: int| 0 <= a < c < xs.len() implies #[trigger] xs[a].root_id@ != #[trigger] xs[c].root_id@ by {
                if c == xs0.len() {
                    assert(!root_action_at(xs0, a, root_id@));
                } else {
                    assert(xs[a] == xs0[a] && xs[c] == xs0[c]);
                }
            }
            assert forall|a: int| 0 <= a < xs.len() implies action_valid(#[trigger] xs[a]) by {
                if a < xs0.len() {
                    assert(xs[a] == xs0[a]);
                }
            }
            assert forall|a: int| 0 <= a < xs.len() implies has_budget(bs, (#[trigger] xs[a]).root_id@) by {
                if a < xs0.len() {
                    assert(xs[a] == xs0[a]);
                    let j = choose|j: int| #[trigger] budget_at(bs0, j, xs0[a].root_id@);
                    assert(budget_at(bs, j, xs[a].root_id@));
                } else {
                    assert(budget_at(bs, i as int, xs[a].root_id@));
                }
            }
            assert forall|a: int| 0 <= a < bs0.len() implies budget_evolves(#[trigger] bs0[a], bs[a]) by {}
            assert forall|a: int| 0 <= a < xs0.len() implies action_evolves(#[trigger] xs0[a], xs[a]) by {
                assert(xs[a] == xs0[a]);
            }
        }
        Ok(())
    }

    /// Decides one write of action `action_id` as operation `op` while the
    /// action is live at `now` and no other write is in flight: a dispatch
    /// only if none was ever decided (it is recorded, with the whole
    /// reservation consumed, before anything is sent); a refresh only of an
    /// accepted apply.
    pub fn prepare_write(&mut self, action_id: &ActionId, op: RequestId, refresh: bool, now: u64) -> (r: AppResult<()>)
        requires
            old(self).wf(),
        ensures
            final(self).wf(),
            old(self).evolves_to(&*final(self)),
            r is Ok <==> ({
                let xs = old(self).spec_actions();
                let a = xs[action_index(xs, action_id@)];
                &&& has_action(xs, action_id@)
                &&& now < a.expires_at
                &&& a.state == ActionStateV1::Open
                &&& a.operation is None
                &&& if refresh {
                    a.disposition == DispositionV1::FakeAccepted && a.refresh_sequence < u64::MAX
                } else {
                    !a.dispatch_intent
                }
            }),
            r is Ok && refresh ==> ({
                let xs = old(self).spec_actions();
                let i = action_index(xs, action_id@);
                let a = xs[i];
                &&& final(self).spec_actions() == xs.update(
                    i,
                    ControlActionV1 { operation: Some(op), refresh_sequence: (a.refresh_sequence + 1) as u64, ..a },
                )
                &&& final(self).spec_budgets() == old(self).spec_budgets()
            }),
            r is Ok && !refresh ==> ({
                let xs = old(self).spec_actions();
                let i = action_index(xs, action_id@);
                let a = xs[i];
                let bs = old(self).spec_budgets();
                let j = budget_index(bs, a.root_id@);
                &&& final(self).spec_actions() == xs.update(
                    i,
                    ControlActionV1 {
                        dispatch_intent: true,
                        disposition: DispositionV1::DispatchUnknown,
                        operation: Some(op),
                        ..a
                    },
                )
                &&& final(self).spec_budgets() == bs.update(j, ControlBudgetV1 { consumed_us: bs[j].reserved_us, ..bs[j] })
            }),
            r is Err ==> final(self).spec_budgets() == old(self).spec_budgets()
                && final(self).spec_actions() == old(self).spec_actions(),
    {
        let i = match self.find_action(action_id) {
            Some(i) => i,
            None => {
                return Err(AppError::InvalidInput("Unknown physical action"));
            },
        };
        if now >= self.actions[i].expires_at {
            return Err(AppError::InvalidInput("Action expired"));
        }
        let a = &self.actions[i];
        let allowed = match a.state {
            ActionStateV1::Open => a.operation.is_none() && if refresh {
                a.disposition == DispositionV1::FakeAccepted && a.refresh_sequence < u64::MAX
            } else {
                !a.dispatch_intent
            },
            ActionStateV1::Closed => false,
        };
        if !allowed {
            return Err(AppError::InvalidInput("Duplicate/uncertain/in-flight dispatch"));
        }
        let ghost xs0 = self.spec_actions();
        let ghost bs0 = self.spec_budgets();
        proof {
            assert(has_budget(bs0, xs0[i as int].root_id@));
        }
        if refresh {
            let next = self.actions[i].refresh_sequence + 1;
            self.actions[i].operation = Some(op);
            self.actions[i].refresh_sequence = next;
            proof {
                let a0 = xs0[i as int];
                assert(self.spec_actions() =~= xs0.update(
                    i as int,
                    ControlActionV1 { operation: self.spec_actions()[i as int].operation, refresh_sequence: next, ..a0 },
                ));
            }
        } else {
            let j = match self.find_budget(&self.actions[i].root_id) {
                Some(j) => j,
                None => {
                    proof {
                        let w = choose|w: int| #[trigger] budget_at(bs0, w, xs0[i as int].root_id@);
                        assert(budget_at(self.budgets@, w, self.actions@[i as int].root_id@));
                    }
                    return Err(AppError::InvalidInput("Unknown physical control budget"));
                },
            };
            self.actions[i].dispatch_intent = true;
            self.actions[i].disposition = DispositionV1::DispatchUnknown;
            self.actions[i].operation = Some(op);
            let reserved = self.budgets[j].reserved_us;
            self.budgets[j].consumed_us = reserved;
            proof {
                let a0 = xs0[i as int];
                assert(self.spec_actions() =~= xs0.update(
                    i as int,
                    ControlActionV1 {
                        dispatch_intent: true,
                        disposition: DispositionV1::DispatchUnknown,
                        operation: self.spec_actions()[i as int].operation,
                        ..a0
                    },
                ));
                assert(self.spec_budgets() =~= bs0.update(j as int, ControlBudgetV1 { consumed_us: bs0[j as int].reserved_us, ..bs0[j as int] }));
            }
        }
        proof {
            let bs = self.spec_budgets();
            let xs = self.spec_actions();
            assert forall|a: int, c: int| 0 <= a < c < bs.len() implies #[trigger] bs[a].root_id@ != #[trigger] bs[c].root_id@ by {
                assert(bs[a].root_id@ == bs0[a].root_id@ && bs[c].root_id@ == bs0[c].root_id@);
                assert(bs0[a].root_id@ != bs0[c].root_id@);
            }
            assert forall|a: int| 0 <= a < bs.len() implies budget_valid(#[trigger] bs[a]) by {
                assert(budget_valid(bs0[a]));
            }
            assert forall|a: int, c: int| 0 <= a < c < xs.len() implies #[trigger] xs[a].action_id@ != #[trigger] xs[c].action_id@ by {
                assert(xs[a].action_id@ == xs0[a].action_id@ && xs[c].action_id@ == xs0[c].action_id@);
                assert(xs0[a].action_id@ != xs0[c].action_id@);
            }
            assert forall|a: int, c: int| 0 <= a < c < xs.len() implies #[trigger] xs[a].root_id@ != #[trigger] xs[c].root_id@ by {
                assert(xs[a].root_id@ == xs0[a].root_id@ && xs[c].root_id@ == xs0[c].root_id@);
                assert(xs0[a].root_id@ != xs0[c].root_id@);
            }
            assert forall|a: int| 0 <= a < xs.len() implies action_valid(#[trigger] xs[a]) by {
                assert(action_valid(xs0[a]));
            }
            assert forall|a: int| 0 <= a < xs.len() implies has_budget(bs, (#[trigger] xs[a]).root_id@) by {
                assert(has_budget(bs0, xs0[a].root_id@));
                let w = choose|w: int| #[trigger] budget_at(bs0, w, xs0[a].root_id@);
                assert(budget_at(bs, w, xs[a].root_id@));
            }
            assert forall|a: int| 0 <= a < bs0.len() implies budget_evolves(#[trigger] bs0[a], bs[a]) by {
                assert(budget_valid(bs0[a]));
            }
            assert forall|a: int| 0 <= a < xs0.len() implies action_evolves(#[trigger] xs0[a], xs[a]) by {}
        }
        Ok(())
    }

    /// Records how write `op` of action `action_id` ended (`result`: the
    /// lane's answer, if any), while the action is live at `now`. `Ok(true)`
    /// when `op` was the write in flight: the disposition is recorded, the
    /// first apply result kept, and nothing stays in flight; `Ok(false)` for
    /// a stale callback, which changes nothing.
    pub fn finish_write(
        &mut self,
        action_id: &ActionId,
        op: &RequestId,
        result: Option<bool>,
        refresh: bool,
        now: u64,
    ) -> (r: AppResult<bool>)
        requires
            old(self).wf(),
        ensures
            final(self).wf(),
            old(self).evolves_to(&*final(self)),
            ({
                let xs = old(self).spec_actions();
                let i = action_index(xs, action_id@);
                let a = xs[i];
                &&& r is Err <==> !has_action(xs, action_id@) || now >= a.expires_at || (write_in_flight(a, op@)
                    && !action_valid(finished_action(a, refresh, result)))
                &&& r == Ok::<bool, AppError>(true) <==> has_action(xs, action_id@) && now < a.expires_at
                    && write_in_flight(a, op@) && action_valid(finished_action(a, refresh, result))
                &&& r == Ok::<bool, AppError>(true) ==> final(self).spec_actions() == xs.update(
                    i,
                    finished_action(a, refresh, result),
                )
                &&& r != Ok::<bool, AppError>(true) ==> final(self).spec_actions() == xs
            }),
            final(self).spec_budgets() == old(self).spec_budgets(),
    {
        let i = match self.find_action(action_id) {
            Some(i) => i,
            None => {
                return Err(AppError::InvalidInput("Closed/mismatched action callback"));
            },
        };
        if now >= self.actions[i].expires_at {
            return Err(AppError::InvalidInput("Closed/mismatched action callback"));
        }
        let in_flight = match (&self.actions[i].state, &self.actions[i].operation) {
            (ActionStateV1::Open, Some(o)) => o.same(op),
            _ => false,
        };
        if !in_flight {
            return Ok(false);
        }
        let disposition = if refresh {
            if result == Some(true) {
                DispositionV1::FakeAccepted
            } else {
                DispositionV1::DispatchUnknown
            }
        } else {
            match result {
                Some(true) => DispositionV1::FakeAccepted,
                Some(false) => DispositionV1::FakeRefused,
                None => DispositionV1::DispatchUnknown,
            }
        };
        let applied = match self.actions[i].apply_result {
            Some(x) => Some(x),
            None => if refresh {
                None
            } else {
                result
            },
        };
        let consistent = (disposition != DispositionV1::FakeAccepted || applied == Some(true)) && (
        disposition != DispositionV1::FakeRefused || applied == Some(false));
        let ghost xs0 = self.spec_actions();
        proof {
            let a0 = xs0[i as int];
            assert(finished_action(a0, refresh, result).disposition == disposition);
            assert(finished_action(a0, refresh, result).apply_result == applied);
            assert(a0.dispatch_intent);
        }
        if !consistent {
            return Err(AppError::InvalidInput("Physical action disposition is inconsistent"));
        }
        self.actions[i].disposition = disposition;
        self.actions[i].apply_result = applied;
        self.actions[i].operation = None;
        proof {
            let xs = self.spec_actions();
            let a0 = xs0[i as int];
            assert(xs =~= xs0.update(i as int, finished_action(a0, refresh, result)));
            assert forall|a: int, c: int| 0 <= a < c < xs.len() implies #[trigger] xs[a].action_id@ != #[trigger] xs[c].action_id@ by {
                assert(xs[a].action_id@ == xs0[a].action_id@ && xs[c].action_id@ == xs0[c].action_id@);
                assert(xs0[a].action_id@ != xs0[c].action_id@);
            }
            assert forall|a: int, c: int| 0 <= a < c < xs.len() implies #[trigger] xs[a].root_id@ != #[trigger] xs[c].root_id@ by {
                assert(xs[a].root_id@ == xs0[a].root_id@ && xs[c].root_id@ == xs0[c].root_id@);
                assert(xs0[a].root_id@ != xs0[c].root_id@);
            }
            assert forall|a: int| 0 <= a < xs.len() implies action_valid(#[trigger] xs[a]) by {
                assert(action_valid(xs0[a]));
            }
            assert forall|a: int| 0 <= a < xs.len() implies has_budget(self.spec_budgets(), (#[trigger] xs[a]).root_id@) by {
                assert(has_budget(self.spec_budgets(), xs0[a].root_id@));
            }
            assert forall|a: int| 0 <= a < self.spec_budgets().len() implies budget_evolves(#[trigger] self.spec_budgets()[a], self.spec_budgets()[a]) by {}
            assert forall|a: int| 0 <= a < xs0.len() implies action_evolves(#[trigger] xs0[a], xs[a]) by {}
        }
        Ok(true)
    }

    /// Closes the control facts of root `root`: its open action closes with
    /// nothing in flight, and its reservation is released only if nothing of
    /// it was ever consumed, that is, no dispatch was ever decided.
    pub fn close_root(&mut self, root: &RootId)
        requires
            old(self).wf(),
        ensures
            final(self).wf(),
            old(self).evolves_to(&*final(self)),
            ({
                let bs = old(self).spec_budgets();
                let j = budget_index(bs, root@);
                if has_budget(bs, root@) && bs[j].consumed_us == 0 {
                    final(self).spec_budgets() == bs.update(j, ControlBudgetV1 { reserved_us: 0, reserved_count: 0, ..bs[j] })
                } else {
                    final(self).spec_budgets() == bs
                }
            }),
            ({
                let xs = old(self).spec_actions();
                let i = choose|i: int| root_action_at(xs, i, root@);
                if root_has_action(xs, root@) && xs[i].state == ActionStateV1::Open {
                    final(self).spec_actions() == xs.update(
                        i,
                        ControlActionV1 { state: ActionStateV1::Closed, operation: None, ..xs[i] },
                    )
                } else {
                    final(self).spec_actions() == xs
                }
            }),
    {
        let ghost bs0 = self.spec_budgets();
        let ghost xs0 = self.spec_actions();
        let found_budget = self.find_budget(root);
        let found_action = self.find_root_action(root);
        match found_budget {
            Some(j) => {
                if self.budgets[j].consumed_us == 0 {
                    self.budgets[j].reserved_us = 0;
                    self.budgets[j].reserved_count = 0;
                    proof {
                        assert(self.spec_budgets() =~= bs0.update(
                            j as int,
                            ControlBudgetV1 { reserved_us: 0, reserved_count: 0, ..bs0[j as int] },
                        ));
                    }
                }
            },
            None => {},
        }
        match found_action {
            Some(i) => {
                proof {
                    let c = choose|c: int| root_action_at(xs0, c, root@);
                    assert(root_action_at(xs0, i as int, root@));
                    assert(root_action_at(xs0, c, root@));
                    if c < i {
                        assert(self.spec_actions()[c].root_id@ != self.spec_actions()[i as int].root_id@);
                    } else if c > i {
                        assert(self.spec_actions()[i as int].root_id@ != self.spec_actions()[c].root_id@);
                    }
                }
                let open = match self.actions[i].state {
                    ActionStateV1::Open => true,
                    ActionStateV1::Closed => false,
                };
                if open {
                    self.actions[i].state = ActionStateV1::Closed;
                    self.actions[i].operation = None;
                    proof {
                        assert(self.spec_actions() =~= xs0.update(
                            i as int,
                            ControlActionV1 { state: ActionStateV1::Closed, operation: None, ..xs0[i as int] },
                        ));
                    }
                }
            },
            None => {},
        }
        proof {
            let bs = self.spec_budgets();
            let xs = self.spec_actions();
            assert(bs.len() == bs0.len());
            assert forall|a: int, c: int| 0 <= a < c < bs.len() implies #[trigger] bs[a].root_id@ != #[trigger] bs[c].root_id@ by {
                assert(bs[a].root_id@ == bs0[a].root_id@ && bs[c].root_id@ == bs0[c].root_id@);
                assert(bs0[a].root_id@ != bs0[c].root_id@);
            }
            assert forall|a: int| 0 <= a < bs.len() implies budget_valid(#[trigger] bs[a]) by {
                assert(budget_valid(bs0[a]));
            }
            assert forall|a: int, c: int| 0 <= a < c < xs.len() implies #[trigger] xs[a].action_id@ != #[trigger] xs[c].action_id@ by {
                assert(xs[a].action_id@ == xs0[a].action_id@ && xs[c].action_id@ == xs0[c].action_id@);
                assert(xs0[a].action_id@ != xs0[c].action_id@);
            }
            assert forall|a: int, c: int| 0 <= a < c < xs.len() implies #[trigger] xs[a].root_id@ != #[trigger] xs[c].root_id@ by {
                assert(xs[a].root_id@ == xs0[a].root_id@ && xs[c].root_id@ == xs0[c].root_id@);
                assert(xs0[a].root_id@ != xs0[c].root_id@);
            }
            assert forall|a: int| 0 <= a < xs.len() implies action_valid(#[trigger] xs[a]) by {
                assert(action_valid(xs0[a]));
            }
            assert forall|a: int| 0 <= a < xs.len() implies has_budget(bs, (#[trigger] xs[a]).root_id@) by {
                assert(has_budget(bs0, xs0[a].root_id@));
                let w = choose|w: int| #[trigger] budget_at(bs0, w, xs0[a].root_id@);
                assert(budget_at(bs, w, xs[a].root_id@));
            }
            assert forall|a: int| 0 <= a < bs0.len() implies budget_evolves(#[trigger] bs0[a], bs[a]) by {
                assert(budget_valid(bs0[a]));
            }
            assert forall|a: int| 0 <= a < xs0.len() implies action_evolves(#[trigger] xs0[a], xs[a]) by {}
        }
    }

    /// After a restart no write is in flight, and every dispatch whose
    /// outcome was not a recorded refusal is of unknown effect.
    pub fn interrupt_dispatches(&mut self)
        requires
            old(self).wf(),
        ensures
            final(self).wf(),
            old(self).evolves_to(&*final(self)),
            final(self).spec_budgets() == old(self).spec_budgets(),
            final(self).spec_actions().len() == old(self).spec_actions().len(),
            forall|k: int| 0 <= k < old(self).spec_actions().len() ==> {
                let a = #[trigger] old(self).spec_actions()[k];
                final(self).spec_actions()[k] == if a.state == ActionStateV1::Open && a.dispatch_intent
                    && a.disposition != DispositionV1::FakeRefused {
                    ControlActionV1 { disposition: DispositionV1::DispatchUnknown, operation: None, ..a }
                } else {
                    a
                }
            },
    {
        let ghost xs0 = self.spec_actions();
        let mut k: usize = 0;
        while k < self.actions.len()
            invariant
                self.spec_budgets() == old(self).spec_budgets(),
                xs0 == old(self).spec_actions(),
                self.actions@.len() == xs0.len(),
                k <= xs0.len(),
                forall|m: int| 0 <= m < xs0.len() ==> {
                    let a = #[trigger] xs0[m];
                    self.actions@[m] == if m < k && a.state == ActionStateV1::Open && a.dispatch_intent
                        && a.disposition != DispositionV1::FakeRefused {
                        ControlActionV1 { disposition: DispositionV1::DispatchUnknown, operation: None, ..a }
                    } else {
                        a
                    }
                },
            decreases xs0.len() - k,
        {
            let a = &self.actions[k];
            let hit = match (&a.state, &a.disposition) {
                (ActionStateV1::Open, DispositionV1::FakeRefused) => false,
                (ActionStateV1::Open, _) => a.dispatch_intent,
                (ActionStateV1::Closed, _) => false,
            };
            if hit {
                let ghost before = self.actions@;
                self.actions[k].disposition = DispositionV1::DispatchUnknown;
                self.actions[k].operation = None;
                proof {
                    assert forall|m: int| 0 <= m < xs0.len() implies {
                        let a = #[trigger] xs0[m];
                        self.actions@[m] == if m < k + 1 && a.state == ActionStateV1::Open && a.dispatch_intent
                            && a.disposition != DispositionV1::FakeRefused {
                            ControlActionV1 { disposition: DispositionV1::DispatchUnknown, operation: None, ..a }
                        } else {
                            a
                        }
                    } by {
                        if m != k {
                            assert(self.actions@[m] == before[m]);
                        }
                    }
                }
            }
            k = k + 1;
        }
        proof {
            let xs = self.spec_actions();
            let bs = self.spec_budgets();
            assert forall|a: int, c: int| 0 <= a < c < xs.len() implies #[trigger] xs[a].action_id@ != #[trigger] xs[c].action_id@ by {
                assert(xs[a].action_id@ == xs0[a].action_id@ && xs[c].action_id@ == xs0[c].action_id@);
                assert(xs0[a].action_id@ != xs0[c].action_id@);
            }
            assert forall|a: int, c: int| 0 <= a < c < xs.len() implies #[trigger] xs[a].root_id@ != #[trigger] xs[c].root_id@ by {
                assert(xs[a].root_id@ == xs0[a].root_id@ && xs[c].root_id@ == xs0[c].root_id@);
                assert(xs0[a].root_id@ != xs0[c].root_id@);
            }
            assert forall|a: int| 0 <= a < xs.len() implies action_valid(#[trigger] xs[a]) by {
                assert(action_valid(xs0[a]));
            }
            assert forall|a: int| 0 <= a < xs.len() implies has_budget(bs, (#[trigger] xs[a]).root_id@) by {
                assert(has_budget(bs, xs0[a].root_id@));
            }
            assert forall|a: int| 0 <= a < bs.len() implies budget_evolves(#[trigger] bs[a], bs[a]) by {}
            assert forall|a: int| 0 <= a < xs0.len() implies action_evolves(#[trigger] xs0[a], xs[a]) by {}
        }
    }

    /// The state and disposition of action `action_id`, with what its root
    /// has reserved and consumed.
    pub fn action_status(&self, action_id: &ActionId) -> (r: Option<(ActionStateV1, DispositionV1, u64, u64)>)
        requires
            self.wf(),
        ensures
            r is Some <==> has_action(self.spec_actions(), action_id@),
            r matches Some(v) ==> ({
                let a = self.spec_actions()[action_index(self.spec_actions(), action_id@)];
                let b = self.spec_budgets()[budget_index(self.spec_budgets(), a.root_id@)];
                v == (a.state, a.disposition, b.reserved_us, b.consumed_us)
            }),
    {
        let i = match self.find_action(action_id) {
            Some(i) => i,
            None => {
                return None;
            },
        };
        let a = &self.actions[i];
        match self.find_budget(&a.root_id) {
            Some(j) => Some((a.state, a.disposition, self.budgets[j].reserved_us, self.budgets[j].consumed_us)),
            None => {
                proof {
                    assert(has_budget(self.spec_budgets(), self.spec_actions()[i as int].root_id@));
                    let w = choose|w: int| #[trigger] budget_at(self.spec_budgets(), w, self.spec_actions()[i as int].root_id@);
                    assert(budget_at(self.budgets@, w, a.root_id@));
                }
                None
            },
        }
    }
}

/// Control facts only move forward, over any number of operations.
pub proof fn lemma_control_evolves_transitive(a: ControlLedgerV1, b: ControlLedgerV1, c: ControlLedgerV1)
    requires
        a.evolves_to(&b),
        b.evolves_to(&c),
    ensures
        a.evolves_to(&c),
{
    assert forall|i: int| 0 <= i < a.spec_budgets().len() implies budget_evolves(#[trigger] a.spec_budgets()[i], c.spec_budgets()[i]) by {
        assert(budget_evolves(a.spec_budgets()[i], b.spec_budgets()[i]));
        assert(budget_evolves(b.spec_budgets()[i], c.spec_budgets()[i]));
    }
    assert forall|i: int| 0 <= i < a.spec_actions().len() implies action_evolves(#[trigger] a.spec_actions()[i], c.spec_actions()[i]) by {
        assert(action_evolves(a.spec_actions()[i], b.spec_actions()[i]));
        assert(action_evolves(b.spec_actions()[i], c.spec_actions()[i]));
    }
}

/// Once a dispatch of an action was decided, it stays decided in every later
/// state, so no second dispatch of it is ever prepared.
pub proof fn lemma_dispatch_decided_once(before: ControlLedgerV1, after: ControlLedgerV1, id: Seq<char>)
    requires
        before.wf(),
        after.wf(),
        before.evolves_to(&after),
        has_action(before.spec_actions(), id),
        before.spec_actions()[action_index(before.spec_actions(), id)].dispatch_intent,
    ensures
        has_action(after.spec_actions(), id),
        after.spec_actions()[action_index(after.spec_actions(), id)].dispatch_intent,
{
    let xs = before.spec_actions();
    let ys = after.spec_actions();
    let i = action_index(xs, id);
    assert(action_at(xs, i, id));
    assert(action_evolves(xs[i], ys[i]));
    assert(action_at(ys, i, id));
    let j = action_index(ys, id);
    assert(action_at(ys, j, id));
    if j < i {
        assert(ys[j].action_id@ != ys[i].action_id@);
    } else if j > i {
        assert(ys[i].action_id@ != ys[j].action_id@);
    }
}

/// Once anything of a root's budget was consumed, no later state holds less
/// of it reserved or consumed: a spent budget is never replenished.
pub proof fn lemma_spent_budget_never_returns(before: ControlLedgerV1, after: ControlLedgerV1, root: Seq<char>)
    requires
        before.wf(),
        after.wf(),
        before.evolves_to(&after),
        has_budget(before.spec_budgets(), root),
        before.spec_budgets()[budget_index(before.spec_budgets(), root)].consumed_us > 0,
    ensures
        ({
            let b0 = before.spec_budgets()[budget_index(before.spec_budgets(), root)];
            let b1 = after.spec_budgets()[budget_index(after.spec_budgets(), root)];
            &&& has_budget(after.spec_budgets(), root)
            &&& b1.reserved_us >= b0.reserved_us
            &&& b1.reserved_count >= b0.reserved_count
            &&& b1.consumed_us >= b0.consumed_us
        }),
{
    let bs = before.spec_budgets();
    let cs = after.spec_budgets();
    let i = budget_index(bs, root);
    assert(budget_at(bs, i, root));
    assert(budget_evolves(bs[i], cs[i]));
    assert(budget_at(cs, i, root));
    let j = budget_index(cs, root);
    assert(budget_at(cs, j, root));
    if j < i {
        assert(cs[j].root_id@ != cs[i].root_id@);
    } else if j > i {
        assert(cs[i].root_id@ != cs[j].root_id@);
    }
}

} // verus!
