use vstd::prelude::*;

use crate::types::{lemma_push_contains, Incarnation, TxnIndex};

verus! {

/// Where a transaction stands in its execution life cycle.
#[derive(Clone, Copy, Debug, PartialEq, Eq, Structural)]
pub enum TxnStatus {
    ReadyToExecute(Incarnation),
    Executing(Incarnation),
    /// Parked on a dependency; resumes with the next incarnation.
    Suspended(Incarnation),
    Executed(Incarnation),
    Aborting(Incarnation),
}

pub open spec fn incarnation_of(s: TxnStatus) -> Incarnation {
    match s {
        TxnStatus::ReadyToExecute(i) => i,
        TxnStatus::Executing(i) => i,
        TxnStatus::Suspended(i) => i,
        TxnStatus::Executed(i) => i,
        TxnStatus::Aborting(i) => i,
    }
}

/// Work handed to a worker.
#[derive(Clone, Copy, Debug, PartialEq, Eq, Structural)]
pub enum SchedulerTask {
    ExecutionTask(TxnIndex, Incarnation),
    /// Transaction, incarnation and the validation wave it belongs to.
    ValidationTask(TxnIndex, Incarnation, u32),
    NoTask,
    Done,
}

/// No incarnation goes down, and a transaction only becomes ready to execute
/// again with the incarnation after the one it had.
pub open spec fn incarnations_advance(old: Seq<TxnStatus>, new: Seq<TxnStatus>) -> bool {
    &&& old.len() == new.len()
    &&& forall|t: int|
        0 <= t < old.len() ==> incarnation_of(#[trigger] old[t]) <= incarnation_of(new[t])
    &&& forall|t: int|
        0 <= t < old.len() && #[trigger] new[t] != old[t] && new[t] is ReadyToExecute ==> incarnation_of(
            new[t],
        ) == incarnation_of(old[t]) + 1
}

/// Across any run of scheduler operations from `old` to `new`: no
/// incarnation goes down, and a transaction that was not ready to execute
/// becomes ready again only with a higher incarnation.
pub open spec fn never_repeats(old: Seq<TxnStatus>, new: Seq<TxnStatus>) -> bool {
    &&& old.len() == new.len()
    &&& forall|t: int|
        0 <= t < old.len() ==> incarnation_of(#[trigger] old[t]) <= incarnation_of(new[t])
    &&& forall|t: int|
        0 <= t < old.len() && !(#[trigger] old[t] is ReadyToExecute) && new[t] is ReadyToExecute
            ==> incarnation_of(old[t]) < incarnation_of(new[t])
}

/// Each scheduler operation keeps incarnations from repeating.
pub proof fn lemma_step_never_repeats(old: Seq<TxnStatus>, new: Seq<TxnStatus>)
    requires
        incarnations_advance(old, new),
    ensures
        never_repeats(old, new),
{
    assert forall|t: int|
        0 <= t < old.len() && !(#[trigger] old[t] is ReadyToExecute) && new[t] is ReadyToExecute
            implies incarnation_of(old[t]) < incarnation_of(new[t]) by {
        assert(new[t] != old[t]);
    }
}

/// Runs of operations compose.
pub proof fn lemma_never_repeats_trans(a: Seq<TxnStatus>, b: Seq<TxnStatus>, c: Seq<TxnStatus>)
    requires
        never_repeats(a, b),
        never_repeats(b, c),
    ensures
        never_repeats(a, c),
{
    assert forall|t: int|
        0 <= t < a.len() && !(#[trigger] a[t] is ReadyToExecute) && c[t] is ReadyToExecute
            implies incarnation_of(a[t]) < incarnation_of(c[t]) by {
        assert(incarnation_of(a[t]) <= incarnation_of(b[t]));
        assert(incarnation_of(b[t]) <= incarnation_of(c[t]));
    }
    assert forall|t: int| 0 <= t < a.len() implies incarnation_of(#[trigger] a[t]) <= incarnation_of(c[t]) by {
        assert(incarnation_of(a[t]) <= incarnation_of(b[t]));
    }
}

/// At most one execution of each incarnation: once incarnation `inc` of `t`
/// has started executing, no later state has `t` ready to execute `inc`
/// again, so `next_task` never hands out `(t, inc)` a second time.
pub proof fn lemma_executed_once(a: Seq<TxnStatus>, b: Seq<TxnStatus>, t: int, inc: Incarnation)
    requires
        never_repeats(a, b),
        0 <= t < a.len(),
        a[t] == TxnStatus::Executing(inc),
    ensures
        b[t] != TxnStatus::ReadyToExecute(inc),
{
    assert(!(a[t] is ReadyToExecute));
}

pub open spec fn next_task_post(old: Scheduler, new: Scheduler, r: SchedulerTask) -> bool {
    &&& new.wf()
    &&& new.num_txns_spec() == old.num_txns_spec()
    &&& new.aborts() == old.aborts()
    &&& incarnations_advance(old.status(), new.status())
    &&& r == old.next_task_spec()
    &&& ({
            let v = old.val_idx();
            let e = old.exec_idx();
            let checks = v < e && v < old.num_txns_spec();
            let validates = checks && old.status()[v as int] is Executed;
            &&& new.val_idx() == if checks {
                v + 1
            } else {
                v
            }
            &&& new.exec_idx() == if !validates && e < old.num_txns_spec() {
                e + 1
            } else {
                e
            }
            &&& new.active() == if (r is ValidationTask || r is ExecutionTask)
                && old.active() < usize::MAX {
                old.active() + 1
            } else {
                old.active()
            }
            &&& new.waves() == old.waves()
            &&& new.done_spec() == (old.done_spec() || r is Done)
            &&& forall|x: int| #[trigger] new.waiters(x) == old.waiters(x)
    })
    &&& match r {
            SchedulerTask::ExecutionTask(t, inc) => t < old.num_txns_spec()
                && old.status()[t as int] == TxnStatus::ReadyToExecute(inc)
                && new.status() == old.status().update(
                t as int,
                TxnStatus::Executing(inc),
            ),
            SchedulerTask::ValidationTask(t, inc, _) => t < old.num_txns_spec()
                && old.status()[t as int] == TxnStatus::Executed(inc) && new.status()
                == old.status(),
            SchedulerTask::Done => new.done_spec() && new.status() == old.status(),
            SchedulerTask::NoTask => new.status() == old.status()
    }
}

pub open spec fn add_dependency_post(old: Scheduler, new: Scheduler, t: TxnIndex, inc: Incarnation, dep: TxnIndex, r: bool) -> bool {
    &&& new.wf()
    &&& new.num_txns_spec() == old.num_txns_spec()
    &&& new.aborts() == old.aborts()
    &&& incarnations_advance(old.status(), new.status())
    &&& r == !(old.status()[dep as int] is Executed)
    &&& r ==> new.status() == old.status().update(
            t as int,
            TxnStatus::Suspended(inc)
    )
    &&& !r ==> new.status() == old.status()
    &&& new.exec_idx() == old.exec_idx()
    &&& new.val_idx() == old.val_idx()
    &&& new.waves() == old.waves()
    &&& new.done_spec() == old.done_spec()
    &&& new.active() == if r && old.active() > 0 {
            (old.active() - 1) as nat
    } else {
            old.active()
    }
    &&& new.waiters(dep as int) == if r {
            old.waiters(dep as int).push(t)
    } else {
            old.waiters(dep as int)
    }
    &&& forall|x: int|
            0 <= x < old.num_txns_spec() && x != dep ==> #[trigger] new.waiters(x) == old.waiters(x)
}

pub open spec fn finish_execution_post(old: Scheduler, new: Scheduler, t: TxnIndex, inc: Incarnation, wrote_new_keys: bool, r: Option<SchedulerTask>) -> bool {
    &&& new.wf()
    &&& new.num_txns_spec() == old.num_txns_spec()
    &&& new.aborts() == old.aborts() + 1
    &&& incarnations_advance(old.status(), new.status())
    &&& new.status()[t as int] == TxnStatus::Executed(inc)
    &&& forall|x: int|
            0 <= x < old.num_txns_spec() && x != t ==> #[trigger] new.status()[x]
                == old.status_after_finish(t as int, x)
    &&& new.exec_idx() <= old.exec_idx()
    &&& forall|x: int|
            0 <= x < old.num_txns_spec() && old.resumes(t as int, x) ==> new.exec_idx() <= x
    &&& new.exec_idx() == old.exec_idx() || old.resumes(
            t as int,
            new.exec_idx() as int
    )
    &&& new.waiters(t as int).len() == 0
    &&& forall|x: int|
            0 <= x < old.num_txns_spec() && x != t ==> #[trigger] new.waiters(x) == old.waiters(x)
    &&& new.waves() == old.waves()
    &&& new.done_spec() == old.done_spec()
    &&& new.active() == if r is Some || old.active() == 0 {
            old.active()
    } else {
            (old.active() - 1) as nat
    }
    &&& r == if old.val_idx() > t && !wrote_new_keys {
            Some(SchedulerTask::ValidationTask(t, inc, old.waves()[t as int]))
    } else {
            None
    }
    &&& new.val_idx() == if old.val_idx() > t && wrote_new_keys {
            t as nat
    } else {
            old.val_idx()
    }
}

pub open spec fn finish_validation_post(old: Scheduler, new: Scheduler, t: TxnIndex, inc: Incarnation, ok: bool, r: bool) -> bool {
    &&& new.wf()
    &&& new.num_txns_spec() == old.num_txns_spec()
    &&& new.aborts() <= old.aborts() + 1
    &&& incarnations_advance(old.status(), new.status())
    &&& r == (!ok && old.status()[t as int] == TxnStatus::Executed(inc))
    &&& r ==> new.status() == old.status().update(
            t as int,
            TxnStatus::ReadyToExecute((inc + 1) as u32)
    )
    &&& !r ==> new.status() == old.status()
    &&& new.waves() == if r {
            old.waves().update(t as int, (old.waves()[t as int] + 1) as u32)
    } else {
            old.waves()
    }
    &&& new.exec_idx() == if r && t < old.exec_idx() {
            t as nat
    } else {
            old.exec_idx()
    }
    &&& new.val_idx() == if r && t + 1 < old.val_idx() {
            (t + 1) as nat
    } else {
            old.val_idx()
    }
    &&& new.active() == if old.active() > 0 {
            (old.active() - 1) as nat
    } else {
            0
    }
    &&& new.done_spec() == old.done_spec()
    &&& forall|x: int| #[trigger] new.waiters(x) == old.waiters(x)
}

pub open spec fn abort_execution_post(old: Scheduler, new: Scheduler, t: TxnIndex, inc: Incarnation) -> bool {
    &&& new.wf()
    &&& new.num_txns_spec() == old.num_txns_spec()
    &&& new.aborts() == old.aborts() + 1
    &&& incarnations_advance(old.status(), new.status())
    &&& new.status() == old.status().update(
            t as int,
            TxnStatus::ReadyToExecute((inc + 1) as u32)
    )
    &&& new.exec_idx() == if t < old.exec_idx() {
            t as nat
    } else {
            old.exec_idx()
    }
    &&& new.val_idx() == old.val_idx()
    &&& new.waves() == old.waves()
    &&& new.done_spec() == old.done_spec()
    &&& new.active() == if old.active() > 0 {
            (old.active() - 1) as nat
    } else {
            0
    }
    &&& forall|x: int| #[trigger] new.waiters(x) == old.waiters(x)
}

/// Hands out execution and validation tasks for one block so that the block
/// commits in index order. Execution starts at `execution_idx`, validation
/// at `validation_idx`; an abort pulls them back.
pub struct Scheduler {
    num_txns: usize,
    execution_idx: usize,
    validation_idx: usize,
    num_active_tasks: usize,
    done_marker: bool,
    txn_status: Vec<TxnStatus>,
    txn_dependency: Vec<Vec<TxnIndex>>,
    validation_wave: Vec<u32>,
    abort_count: u32,
}

impl Scheduler {
    pub closed spec fn wf(&self) -> bool {
        &&& self.txn_status@.len() == self.num_txns
        &&& self.txn_dependency@.len() == self.num_txns
        &&& self.validation_wave@.len() == self.num_txns
        &&& forall|t: int|
            0 <= t < self.num_txns ==> incarnation_of(#[trigger] self.txn_status@[t])
                <= self.abort_count
        &&& forall|t: int| 0 <= t < self.num_txns ==> #[trigger] self.validation_wave@[t] <= self.abort_count
        &&& forall|t: int, j: int|
            0 <= t < self.num_txns && 0 <= j < self.txn_dependency@[t]@.len() ==> #[trigger] self.txn_dependency@[t]@[j]
                < self.num_txns
    }

    pub closed spec fn num_txns_spec(&self) -> nat {
        self.num_txns as nat
    }

    pub closed spec fn status(&self) -> Seq<TxnStatus> {
        self.txn_status@
    }

    /// Number of aborts so far; no incarnation exceeds it.
    pub closed spec fn aborts(&self) -> nat {
        self.abort_count as nat
    }

    pub closed spec fn done_spec(&self) -> bool {
        self.done_marker
    }

    pub closed spec fn exec_idx(&self) -> nat {
        self.execution_idx as nat
    }

    pub closed spec fn val_idx(&self) -> nat {
        self.validation_idx as nat
    }

    pub closed spec fn active(&self) -> nat {
        self.num_active_tasks as nat
    }

    pub closed spec fn waves(&self) -> Seq<u32> {
        self.validation_wave@
    }

    pub broadcast proof fn lemma_status_len(&self)
        requires
            self.wf(),
        ensures
            #[trigger] self.status().len() == self.num_txns_spec(),
            self.waves().len() == self.num_txns_spec(),
    {
    }

    /// The transactions parked on `t`.
    pub closed spec fn waiters(&self, t: int) -> Seq<TxnIndex> {
        self.txn_dependency@[t]@
    }

    /// Transaction `x` resumes when `t` finishes executing.
    pub open spec fn resumes(&self, t: int, x: int) -> bool {
        self.status()[x] is Suspended && self.waiters(t).contains(x as usize)
    }

    /// The status of `x` once `t` has finished executing.
    pub open spec fn status_after_finish(&self, t: int, x: int) -> TxnStatus {
        if self.resumes(t, x) {
            TxnStatus::ReadyToExecute((incarnation_of(self.status()[x]) + 1) as u32)
        } else {
            self.status()[x]
        }
    }

    /// The task `next_task` hands out in this state: a validation at
    /// `validation_idx` when it trails execution and that transaction is
    /// executed; else an execution at `execution_idx` when that transaction
    /// is ready; else `Done` when both indices are past the block (the
    /// validation index once advanced past a transaction not yet executed)
    /// and no task is active; else `NoTask`.
    pub open spec fn next_task_spec(&self) -> SchedulerTask {
        let v = self.val_idx();
        let e = self.exec_idx();
        let n = self.num_txns_spec();
        let checks = v < e && v < n;
        if checks && self.status()[v as int] is Executed {
            SchedulerTask::ValidationTask(
                v as usize,
                incarnation_of(self.status()[v as int]),
                self.waves()[v as int],
            )
        } else if e < n {
            if self.status()[e as int] is ReadyToExecute {
                SchedulerTask::ExecutionTask(e as usize, incarnation_of(self.status()[e as int]))
            } else {
                SchedulerTask::NoTask
            }
        } else if self.active() == 0 && (if checks {
            v + 1
        } else {
            v
        }) >= n {
            SchedulerTask::Done
        } else {
            SchedulerTask::NoTask
        }
    }

    pub fn new(num_txns: usize) -> (r: Scheduler)
        ensures
            r.wf(),
            r.num_txns_spec() == num_txns,
            r.aborts() == 0,
            !r.done_spec(),
            r.status().len() == num_txns,
            r.exec_idx() == 0,
            r.val_idx() == 0,
            r.active() == 0,
            r.waves() == Seq::new(num_txns as nat, |t: int| 0u32),
            forall|t: int| 0 <= t < num_txns ==> #[trigger] r.status()[t] == TxnStatus::ReadyToExecute(0),
    {
        let mut txn_status: Vec<TxnStatus> = Vec::new();
        let mut txn_dependency: Vec<Vec<TxnIndex>> = Vec::new();
        let mut validation_wave: Vec<u32> = Vec::new();
        let mut i: usize = 0;
        while i < num_txns
            invariant
                i <= num_txns,
                txn_status@.len() == i,
                txn_dependency@.len() == i,
                validation_wave@.len() == i,
                forall|t: int| 0 <= t < i ==> #[trigger] txn_status@[t] == TxnStatus::ReadyToExecute(0),
                forall|t: int| 0 <= t < i ==> #[trigger] validation_wave@[t] == 0,
                forall|t: int| 0 <= t < i ==> (#[trigger] txn_dependency@[t])@.len() == 0,
            decreases num_txns - i,
        {
            txn_status.push(TxnStatus::ReadyToExecute(0));
            txn_dependency.push(Vec::new());
            validation_wave.push(0);
            i = i + 1;
        }
        assert(validation_wave@ =~= Seq::new(num_txns as nat, |t: int| 0u32));
        Scheduler {
            num_txns,
            execution_idx: 0,
            validation_idx: 0,
            num_active_tasks: 0,
            done_marker: false,
            txn_status,
            txn_dependency,
            validation_wave,
            abort_count: 0,
        }
    }

    pub fn num_txns(&self) -> (r: usize)
        ensures
            r == self.num_txns_spec(),
    {
        self.num_txns
    }

    pub fn aborts_count(&self) -> (r: u32)
        ensures
            r == self.aborts(),
    {
        self.abort_count
    }

    pub fn done(&self) -> (r: bool)
        ensures
            r == self.done_spec(),
    {
        self.done_marker
    }

    pub fn status_of(&self, t: TxnIndex) -> (r: TxnStatus)
        requires
            self.wf(),
            t < self.num_txns_spec(),
        ensures
            r == self.status()[t as int],
    {
        self.txn_status[t]
    }

    fn set_status(&mut self, t: TxnIndex, s: TxnStatus)
        requires
            old(self).wf(),
            t < old(self).num_txns,
            incarnation_of(s) <= old(self).abort_count,
        ensures
            final(self).wf(),
            final(self).txn_status@ == old(self).txn_status@.update(t as int, s),
            final(self).num_txns == old(self).num_txns,
            final(self).abort_count == old(self).abort_count,
            final(self).execution_idx == old(self).execution_idx,
            final(self).validation_idx == old(self).validation_idx,
            final(self).num_active_tasks == old(self).num_active_tasks,
            final(self).done_marker == old(self).done_marker,
            final(self).txn_dependency == old(self).txn_dependency,
            final(self).validation_wave == old(self).validation_wave,
    {
        self.txn_status.set(t, s);
    }

    fn decrease_active(&mut self)
        ensures
            *final(self) == (Scheduler {
                num_active_tasks: if old(self).num_active_tasks > 0 {
                    (old(self).num_active_tasks - 1) as usize
                } else {
                    0
                },
                ..*old(self)
            }),
    {
        if self.num_active_tasks > 0 {
            self.num_active_tasks = self.num_active_tasks - 1;
        }
    }

    /// Picks the next task: a validation at `validation_idx` when it trails
    /// execution and that transaction is executed, else an execution at
    /// `execution_idx` when that transaction is ready, else `Done` when both
    /// indices are past the block and no task is active, else `NoTask`.
    pub fn next_task(&mut self) -> (r: SchedulerTask)
        requires
            old(self).wf(),
        ensures
            next_task_post(*old(self), *final(self), r),

    {
        if self.validation_idx < self.execution_idx && self.validation_idx < self.num_txns {
            let t = self.validation_idx;
            self.validation_idx = t + 1;
            match self.txn_status[t] {
                TxnStatus::Executed(inc) => {
                    if self.num_active_tasks < usize::MAX {
                        self.num_active_tasks = self.num_active_tasks + 1;
                    }
                    return SchedulerTask::ValidationTask(t, inc, self.validation_wave[t]);
                },
                _ => {},
            }
        }
        if self.execution_idx < self.num_txns {
            let t = self.execution_idx;
            self.execution_idx = t + 1;
            match self.txn_status[t] {
                TxnStatus::ReadyToExecute(inc) => {
                    self.set_status(t, TxnStatus::Executing(inc));
                    if self.num_active_tasks < usize::MAX {
                        self.num_active_tasks = self.num_active_tasks + 1;
                    }
                    return SchedulerTask::ExecutionTask(t, inc);
                },
                _ => {},
            }
            return SchedulerTask::NoTask;
        }
        if self.num_active_tasks == 0 && self.validation_idx >= self.num_txns {
            self.done_marker = true;
            return SchedulerTask::Done;
        }
        SchedulerTask::NoTask
    }

    /// Parks executing transaction `t` on `dep`, whose write it met as an
    /// estimate. Returns `false`, leaving `t` executing, when `dep` has
    /// already executed again: the read can then simply be retried.
    pub fn add_dependency(&mut self, t: TxnIndex, inc: Incarnation, dep: TxnIndex) -> (r: bool)
        requires
            old(self).wf(),
            t < old(self).num_txns_spec(),
            dep < old(self).num_txns_spec(),
            old(self).status()[t as int] == TxnStatus::Executing(inc),
        ensures
            add_dependency_post(*old(self), *final(self), t, inc, dep, r),

    {
        match self.txn_status[dep] {
            TxnStatus::Executed(_) => {
                return false;
            },
            _ => {},
        }
        let mut waiters: Vec<TxnIndex> = Vec::new();
        std::mem::swap(&mut waiters, &mut self.txn_dependency[dep]);
        waiters.push(t);
        std::mem::swap(&mut waiters, &mut self.txn_dependency[dep]);
        assert forall|x: int, j: int|
            0 <= x < self.num_txns && 0 <= j < self.txn_dependency@[x]@.len() implies #[trigger] self.txn_dependency@[x]@[j]
            < self.num_txns by {
            if x != dep {
                assert(self.txn_dependency@[x] == old(self).txn_dependency@[x]);
            } else if j < old(self).txn_dependency@[x]@.len() {
                assert(self.txn_dependency@[x]@[j] == old(self).txn_dependency@[x]@[j]);
            }
        }
        self.set_status(t, TxnStatus::Suspended(inc));
        self.decrease_active();
        true
    }

    /// Moves the suspended waiters of `t` back to ready, with their next
    /// incarnation, and lets execution restart from the lowest of them.
    fn resume_dependencies(&mut self, t: TxnIndex)
        requires
            old(self).wf(),
            t < old(self).num_txns,
            old(self).abort_count < u32::MAX,
        ensures
            final(self).wf(),
            final(self).num_txns == old(self).num_txns,
            final(self).abort_count == old(self).abort_count + 1,
            final(self).done_marker == old(self).done_marker,
            final(self).validation_idx == old(self).validation_idx,
            final(self).validation_wave == old(self).validation_wave,
            final(self).num_active_tasks == old(self).num_active_tasks,
            incarnations_advance(old(self).txn_status@, final(self).txn_status@),
            forall|x: int|
                0 <= x < old(self).num_txns ==> #[trigger] final(self).txn_status@[x] == old(self).status_after_finish(t as int, x),
            final(self).execution_idx <= old(self).execution_idx,
            forall|x: int|
                0 <= x < old(self).num_txns && old(self).resumes(t as int, x) ==> final(self).execution_idx <= x,
            final(self).execution_idx == old(self).execution_idx || old(self).resumes(
                t as int,
                final(self).execution_idx as int,
            ),
            final(self).waiters(t as int).len() == 0,
            forall|x: int|
                0 <= x < old(self).num_txns && x != t ==> #[trigger] final(self).waiters(x) == old(self).waiters(x),
    {
        self.abort_count = self.abort_count + 1;
        let mut waiters: Vec<TxnIndex> = Vec::new();
        std::mem::swap(&mut waiters, &mut self.txn_dependency[t]);
        assert forall|x: int, j: int|
            0 <= x < self.num_txns && 0 <= j < self.txn_dependency@[x]@.len() implies #[trigger] self.txn_dependency@[x]@[j]
            < self.num_txns by {
            if x != t {
                assert(self.txn_dependency@[x] == old(self).txn_dependency@[x]);
            }
        }
        assert(waiters@ == old(self).waiters(t as int));
        let ghost ws = waiters@;
        let mut i: usize = 0;
        while i < waiters.len()
            invariant
                self.wf(),
                self.num_txns == old(self).num_txns,
                self.abort_count == old(self).abort_count + 1,
                self.done_marker == old(self).done_marker,
                self.validation_idx == old(self).validation_idx,
                self.validation_wave == old(self).validation_wave,
                self.num_active_tasks == old(self).num_active_tasks,
                t < self.num_txns,
                self.txn_dependency@[t as int]@.len() == 0,
                forall|x: int|
                    0 <= x < self.num_txns && x != t ==> #[trigger] self.txn_dependency@[x] == old(self).txn_dependency@[x],
                ws == waiters@,
                ws == old(self).waiters(t as int),
                i <= ws.len(),
                forall|j: int| 0 <= j < ws.len() ==> #[trigger] ws[j] < self.num_txns,
                old(self).wf(),
                old(self).txn_status@.len() == old(self).num_txns,
                incarnations_advance(old(self).txn_status@, self.txn_status@),
                forall|x: int|
                    0 <= x < old(self).num_txns ==> #[trigger] self.txn_status@[x] == if (old(self).txn_status@[x] is Suspended && ws.take(i as int).contains(x as usize)) {
                        TxnStatus::ReadyToExecute((incarnation_of(old(self).txn_status@[x]) + 1) as u32)
                    } else {
                        old(self).txn_status@[x]
                    },
                self.execution_idx <= old(self).execution_idx,
                forall|x: int|
                    0 <= x < old(self).num_txns && old(self).txn_status@[x] is Suspended && ws.take(
                        i as int,
                    ).contains(x as usize) ==> self.execution_idx <= x,
                self.execution_idx == old(self).execution_idx || (old(self).txn_status@[self.execution_idx as int] is Suspended && ws.take(i as int).contains(
                    self.execution_idx,
                )),
            decreases ws.len() - i,
        {
            let w = waiters[i];
            let ghost prev_exec = self.execution_idx;
            proof {
                assert(ws.take(i + 1) =~= ws.take(i as int).push(w));
                assert forall|x: usize| #[trigger] ws.take(i + 1).contains(x) == (ws.take(
                    i as int,
                ).contains(x) || x == w) by {
                    lemma_push_contains(ws.take(i as int), w, x);
                }
            }
            match self.txn_status[w] {
                TxnStatus::Suspended(inc) => {
                    assert(self.txn_status@[w as int] == old(self).txn_status@[w as int]);
                    assert(incarnation_of(old(self).txn_status@[w as int]) <= old(self).abort_count);
                    self.set_status(w, TxnStatus::ReadyToExecute(inc + 1));
                    if w < self.execution_idx {
                        self.execution_idx = w;
                    }
                },
                _ => {},
            }
            i = i + 1;
        }
        proof {
            assert(ws.take(ws.len() as int) =~= ws);
        }
    }

    /// Records that incarnation `inc` of `t` finished executing and wakes the
    /// transactions waiting on it. When validation already went past `t`,
    /// either validation restarts from `t` (the incarnation wrote a key its
    /// predecessor did not) or the validation of `t` is returned, for the
    /// caller to perform next.
    pub fn finish_execution(&mut self, t: TxnIndex, inc: Incarnation, wrote_new_keys: bool) -> (r:
        Option<SchedulerTask>)
        requires
            old(self).wf(),
            t < old(self).num_txns_spec(),
            old(self).status()[t as int] == TxnStatus::Executing(inc),
            old(self).aborts() < u32::MAX,
        ensures
            finish_execution_post(*old(self), *final(self), t, inc, wrote_new_keys, r),

    {
        self.resume_dependencies(t);
        let ghost mid = *self;
        assert(self.txn_status@[t as int] == old(self).txn_status@[t as int]);
        self.set_status(t, TxnStatus::Executed(inc));
        assert forall|x: int|
            0 <= x < old(self).num_txns_spec() && x != t implies #[trigger] self.waiters(x) == old(self).waiters(x) by {
            assert(mid.waiters(x) == old(self).waiters(x));
        }
        if self.validation_idx > t {
            if wrote_new_keys {
                self.validation_idx = t;
            } else {
                return Some(SchedulerTask::ValidationTask(t, inc, self.validation_wave[t]));
            }
        }
        self.decrease_active();
        assert forall|x: int|
            0 <= x < old(self).num_txns_spec() && x != t implies #[trigger] self.waiters(x) == old(self).waiters(x) by {
            assert(mid.waiters(x) == old(self).waiters(x));
        }
        None
    }

    /// Records the outcome of validating incarnation `inc` of `t`. A failed
    /// validation of the current incarnation aborts it: `t` becomes ready with
    /// the next incarnation, its wave advances, and execution and validation
    /// restart from it. Returns whether it aborted; the caller then marks the
    /// transaction's writes as estimates.
    pub fn finish_validation(&mut self, t: TxnIndex, inc: Incarnation, ok: bool) -> (r: bool)
        requires
            old(self).wf(),
            t < old(self).num_txns_spec(),
            old(self).aborts() < u32::MAX,
        ensures
            finish_validation_post(*old(self), *final(self), t, inc, ok, r),

    {
        let aborted = !ok && self.txn_status[t] == TxnStatus::Executed(inc);
        if aborted {
            self.abort_count = self.abort_count + 1;
            self.set_status(t, TxnStatus::Aborting(inc));
            self.set_status(t, TxnStatus::ReadyToExecute(inc + 1));
            let w = self.validation_wave[t];
            self.validation_wave.set(t, w + 1);
            if t < self.execution_idx {
                self.execution_idx = t;
            }
            if t + 1 < self.validation_idx {
                self.validation_idx = t + 1;
            }
        }
        self.decrease_active();
        proof {
            assert(self.txn_dependency == old(self).txn_dependency);
            assert forall|x: int| #[trigger] self.waiters(x) == old(self).waiters(x) by {}
            assert(incarnations_advance(old(self).status(), self.status()));
            assert(self.wf());
            assert(self.num_txns_spec() == old(self).num_txns_spec());
            assert(self.aborts() <= old(self).aborts() + 1);
            assert(incarnations_advance(old(self).status(), self.status()));
            assert(aborted == (!ok && old(self).status()[t as int] == TxnStatus::Executed(inc)));
            assert(aborted ==> self.status() == old(self).status().update(
            t as int,
            TxnStatus::ReadyToExecute((inc + 1) as u32)
    ));
            assert(!aborted ==> self.status() == old(self).status());
            assert(self.waves() == if aborted {
            old(self).waves().update(t as int, (old(self).waves()[t as int] + 1) as u32)
    } else {
            old(self).waves()
    });
            assert(self.exec_idx() == if aborted && t < old(self).exec_idx() {
            t as nat
    } else {
            old(self).exec_idx()
    });
            assert(self.val_idx() == if aborted && t + 1 < old(self).val_idx() {
            (t + 1) as nat
    } else {
            old(self).val_idx()
    });
            assert(self.active() == if old(self).active() > 0 {
            (old(self).active() - 1) as nat
    } else {
            0
    });
            assert(self.done_spec() == old(self).done_spec());
            assert(forall|x: int| #[trigger] self.waiters(x) == old(self).waiters(x));
        }
        aborted
    }

    /// Abandons incarnation `inc` of executing transaction `t` (its read could
    /// not be resolved); `t` becomes ready with the next incarnation.
    pub fn abort_execution(&mut self, t: TxnIndex, inc: Incarnation)
        requires
            old(self).wf(),
            t < old(self).num_txns_spec(),
            old(self).status()[t as int] == TxnStatus::Executing(inc),
            old(self).aborts() < u32::MAX,
        ensures
            abort_execution_post(*old(self), *final(self), t, inc),

    {
        self.abort_count = self.abort_count + 1;
        self.set_status(t, TxnStatus::ReadyToExecute(inc + 1));
        if t < self.execution_idx {
            self.execution_idx = t;
        }
        self.decrease_active();
    }
}

} // verus!
