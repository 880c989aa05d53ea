use vstd::prelude::*;

use crate::commit::{commit_slots, committed_below, lemma_observe_committed, out_value, slot_holds};
use crate::executor::committed_len;
use crate::scheduler::{
    abort_execution_post, add_dependency_post, finish_execution_post, finish_validation_post,
    incarnations_advance, next_task_post, Scheduler, SchedulerTask, TxnStatus,
};
use crate::storage::Storage;
use crate::txn::{
    block_wf, delta_keys, expected_output, is_sequential_result, lookup, observe, output_len_ok,
    read_keys, run_task, seq_output, seq_state, txn_read_keys, txn_wf, write_keys, OutputView,
    Transaction, TxnOutput,
};
use crate::types::{lemma_push_contains, Incarnation, StorageKey, TxnIndex};
use crate::versioned_map::{read_col, resolve_col, MvEntry, ReadResult, Resolution, VersionedMap};

verus! {

/// The latest completed incarnation of a transaction: where each read came
/// from (the closest entry of the map below the transaction, or storage),
/// the values it observed, and what it produced from them.
pub struct LastIo {
    pub incarnation: Incarnation,
    pub sources: Vec<ReadResult>,
    pub reads: Vec<Option<u128>>,
    pub output: TxnOutput,
}

/// A record is consistent when its output is what the VM gives on its reads.
pub open spec fn last_io_ok(txns: Seq<Transaction>, last: Seq<Option<LastIo>>) -> bool {
    forall|t: int|
        0 <= t < last.len() && #[trigger] last[t] is Some ==> last[t].unwrap().reads@.len()
            == read_keys(txns[t]).len() && last[t].unwrap().output@ == expected_output(
            txns[t],
            last[t].unwrap().reads@,
        )
}

/// Counters of one parallel run.
#[derive(Clone, Copy, Debug, PartialEq, Eq, Structural)]
pub struct ExecutionStats {
    /// Incarnations started.
    pub executions: usize,
    /// Validations performed.
    pub validations: usize,
    /// Incarnations aborted by a failed validation.
    pub aborts: usize,
    /// Transactions whose result the in-order commit had to recompute.
    pub commit_reexecutions: usize,
}

/// What a worker came back with after performing its task on the map.
pub enum WorkResult {
    /// Where the transaction's read keys were read from, and the values
    /// they resolved to.
    Executed(Vec<ReadResult>, Vec<Option<u128>>),
    /// A read met an estimate of this lower transaction.
    Blocked(TxnIndex),
    /// A read's deltas could not be folded.
    Unresolvable,
    /// Whether the recorded reads still come from the same sources and
    /// resolve to the values observed.
    Validated(bool),
    Idle,
}

/// The keys an output writes, plainly or by a delta.
pub open spec fn written_keys(o: OutputView) -> Seq<StorageKey> {
    match o {
        OutputView::Success { writes, deltas, .. } => write_keys(writes) + delta_keys(deltas),
        _ => Seq::empty(),
    }
}

/// What transaction `t` observes for `k` through the map, on top of base
/// storage.
pub open spec fn resolved(mv: VersionedMap, base: Map<StorageKey, u128>, k: StorageKey, t: int) -> Resolution {
    resolve_col(mv.column(k), lookup(base, k), t)
}

/// Read `p` of `keys` is the first that does not resolve to a value.
pub open spec fn first_failure(
    mv: VersionedMap,
    base: Map<StorageKey, u128>,
    keys: Seq<StorageKey>,
    t: int,
    p: int,
) -> bool {
    &&& 0 <= p < keys.len()
    &&& forall|q: int| 0 <= q < p ==> (#[trigger] resolved(mv, base, keys[q], t)) is Value
    &&& !(resolved(mv, base, keys[p], t) is Value)
}

/// The outcome of executing transaction `t` with read keys `keys`: the
/// sources and values of all reads when each resolves to a value; else
/// `Blocked` on the estimate, or `Unresolvable` on the failed delta fold,
/// met by the first read that does not.
pub open spec fn execution_result(
    mv: VersionedMap,
    base: Map<StorageKey, u128>,
    keys: Seq<StorageKey>,
    t: int,
    r: WorkResult,
) -> bool {
    if forall|p: int| 0 <= p < keys.len() ==> (#[trigger] resolved(mv, base, keys[p], t)) is Value {
        &&& r is Executed
        &&& r->Executed_1@ == Seq::new(keys.len(), |p: int| resolved(mv, base, keys[p], t)->Value_0)
        &&& r->Executed_0@ == Seq::new(keys.len(), |p: int| read_col(mv.column(keys[p]), t))
    } else {
        exists|p: int|
            #[trigger] first_failure(mv, base, keys, t, p) && r == match resolved(mv, base, keys[p], t) {
                Resolution::Dependency(j) => WorkResult::Blocked(j),
                _ => WorkResult::Unresolvable,
            }
    }
}

/// Every logged read of `rec` still comes from the same source and resolves
/// to the same value.
pub open spec fn reads_still_valid(
    mv: VersionedMap,
    base: Map<StorageKey, u128>,
    keys: Seq<StorageKey>,
    t: int,
    rec: LastIo,
) -> bool {
    &&& rec.reads@.len() == keys.len()
    &&& rec.sources@.len() == keys.len()
    &&& forall|p: int|
        0 <= p < keys.len() ==> read_col(mv.column(keys[p]), t) == #[trigger] rec.sources@[p]
            && resolved(mv, base, keys[p], t) == Resolution::Value(rec.reads@[p])
}

/// The output writes a key that the previous record of the transaction did
/// not.
pub open spec fn writes_new_key(prev: Option<LastIo>, out: OutputView) -> bool {
    exists|k: StorageKey|
        #[trigger] written_keys(out).contains(k) && !(prev is Some && written_keys(
            prev.unwrap().output@,
        ).contains(k))
}

/// The slot of `k` once the writes of `rec` are flagged as estimates.
pub open spec fn estimate_slot(e: Option<MvEntry>, rec: Option<LastIo>, k: StorageKey) -> Option<MvEntry> {
    if rec is Some && written_keys(rec.unwrap().output@).contains(k) && e is Some {
        Some(MvEntry { estimate: true, ..e.unwrap() })
    } else {
        e
    }
}

pub open spec fn bump(x: usize) -> usize {
    if x < usize::MAX {
        (x + 1) as usize
    } else {
        x
    }
}

fn bumped(x: usize) -> (r: usize)
    ensures
        r == bump(x),
{
    if x < usize::MAX {
        x + 1
    } else {
        x
    }
}

fn output_keys(out: &TxnOutput) -> (r: Vec<StorageKey>)
    ensures
        r@ == written_keys(out@),
{
    let mut r: Vec<StorageKey> = Vec::new();
    match out {
        TxnOutput::Success { writes, deltas, .. } => {
            let mut p: usize = 0;
            while p < writes.len()
                invariant
                    p <= writes@.len(),
                    r@ == write_keys(writes@).take(p as int),
                decreases writes@.len() - p,
            {
                r.push(writes[p].0);
                p = p + 1;
                assert(r@ =~= write_keys(writes@).take(p as int));
            }
            let mut q: usize = 0;
            while q < deltas.len()
                invariant
                    q <= deltas@.len(),
                    r@ == write_keys(writes@) + delta_keys(deltas@).take(q as int),
                decreases deltas@.len() - q,
            {
                r.push(deltas[q].0);
                q = q + 1;
                assert(r@ =~= write_keys(writes@) + delta_keys(deltas@).take(q as int));
            }
            assert(r@ =~= write_keys(writes@) + delta_keys(deltas@));
        },
        _ => {
            assert(r@ =~= written_keys(out@));
        },
    }
    r
}

fn contains_key(v: &Vec<StorageKey>, k: StorageKey) -> (r: bool)
    ensures
        r == v@.contains(k),
{
    let mut p: usize = 0;
    while p < v.len()
        invariant
            p <= v@.len(),
            forall|q: int| 0 <= q < p ==> v@[q] != k,
        decreases v@.len() - p,
    {
        if v[p] == k {
            assert(v@[p as int] == k);
            return true;
        }
        p = p + 1;
    }
    false
}

/// Whether `new` holds a key that `old` does not.
fn has_new_key(new: &Vec<StorageKey>, old: &Vec<StorageKey>) -> (r: bool)
    ensures
        r == exists|k: StorageKey| #[trigger] new@.contains(k) && !old@.contains(k),
{
    let mut p: usize = 0;
    while p < new.len()
        invariant
            p <= new@.len(),
            forall|q: int| 0 <= q < p ==> old@.contains(#[trigger] new@[q]),
        decreases new@.len() - p,
    {
        if !contains_key(old, new[p]) {
            assert(new@.contains(new@[p as int]));
            return true;
        }
        p = p + 1;
    }
    assert forall|k: StorageKey| #[trigger] new@.contains(k) implies old@.contains(k) by {
        let q = choose|q: int| 0 <= q < new@.len() && new@[q] == k;
    }
    false
}

/// Observes the read keys of transaction `t` through the map, stopping at
/// the first estimate or failed delta fold.
fn speculative_read(mv: &VersionedMap, base: &Storage, txn: &Transaction, t: TxnIndex) -> (r:
    WorkResult)
    requires
        mv.wf(),
        t < mv.len_spec(),
    ensures
        execution_result(*mv, base@, read_keys(*txn), t as int, r),
{
    let keys = txn_read_keys(txn);
    let ghost ks = keys@;
    let mut sources: Vec<ReadResult> = Vec::new();
    let mut obs: Vec<Option<u128>> = Vec::new();
    let mut p: usize = 0;
    while p < keys.len()
        invariant
            mv.wf(),
            t < mv.len_spec(),
            p <= ks.len(),
            ks == keys@,
            ks == read_keys(*txn),
            forall|q: int| 0 <= q < p ==> (#[trigger] resolved(*mv, base@, ks[q], t as int)) is Value,
            obs@ == Seq::new(p as nat, |q: int| resolved(*mv, base@, ks[q], t as int)->Value_0),
            sources@ == Seq::new(p as nat, |q: int| read_col(mv.column(ks[q]), t as int)),
        decreases ks.len() - p,
    {
        let k = keys[p];
        match mv.resolve(k, t, base.get(k)) {
            Resolution::Value(v) => {
                let src = mv.read(k, t);
                sources.push(src);
                obs.push(v);
                assert(obs@ =~= Seq::new((p + 1) as nat, |q: int| resolved(*mv, base@, ks[q], t as int)->Value_0));
                assert(sources@ =~= Seq::new((p + 1) as nat, |q: int| read_col(mv.column(ks[q]), t as int)));
            },
            Resolution::Dependency(j) => {
                assert(resolved(*mv, base@, ks[p as int], t as int) == Resolution::Dependency(j));
                assert(first_failure(*mv, base@, ks, t as int, p as int));
                assert(!(forall|q: int| 0 <= q < ks.len() ==> (#[trigger] resolved(*mv, base@, ks[q], t as int)) is Value));
                return WorkResult::Blocked(j);
            },
            Resolution::DeltaFailure => {
                assert(resolved(*mv, base@, ks[p as int], t as int) == Resolution::DeltaFailure);
                assert(first_failure(*mv, base@, ks, t as int, p as int));
                assert(!(forall|q: int| 0 <= q < ks.len() ==> (#[trigger] resolved(*mv, base@, ks[q], t as int)) is Value));
                return WorkResult::Unresolvable;
            },
        }
        p = p + 1;
    }
    WorkResult::Executed(sources, obs)
}

/// Re-reads the recorded reads of `t` and checks that each still comes from
/// the same source and resolves to the value observed.
fn validate_reads(mv: &VersionedMap, base: &Storage, txn: &Transaction, t: TxnIndex, rec: &LastIo) -> (r: bool)
    requires
        mv.wf(),
        t < mv.len_spec(),
    ensures
        r == reads_still_valid(*mv, base@, read_keys(*txn), t as int, *rec),
{
    let keys = txn_read_keys(txn);
    if keys.len() != rec.reads.len() || keys.len() != rec.sources.len() {
        return false;
    }
    let mut p: usize = 0;
    while p < keys.len()
        invariant
            mv.wf(),
            t < mv.len_spec(),
            keys@ == read_keys(*txn),
            keys@.len() == rec.reads@.len(),
            keys@.len() == rec.sources@.len(),
            p <= keys@.len(),
            forall|q: int|
                0 <= q < p ==> read_col(mv.column(keys@[q]), t as int) == #[trigger] rec.sources@[q]
                    && resolved(*mv, base@, keys@[q], t as int) == Resolution::Value(rec.reads@[q]),
        decreases keys@.len() - p,
    {
        let k = keys[p];
        if mv.read(k, t) != rec.sources[p] {
            return false;
        }
        match mv.resolve(k, t, base.get(k)) {
            Resolution::Value(v) => {
                if !same_value(v, rec.reads[p]) {
                    return false;
                }
            },
            _ => {
                return false;
            },
        }
        p = p + 1;
    }
    true
}

/// The speculative phase of one block, as a protocol for workers: take a
/// task (`next_task`), perform it against the map (`perform`, which only
/// reads), and hand the result back (`apply`), until `should_stop`. Workers
/// may interleave in any order and perform against any past state of the
/// map: `commit` then validates every transaction in index order and yields
/// exactly the outputs of sequential execution.
pub struct SpeculativeState<'a> {
    txns: &'a Vec<Transaction>,
    n: usize,
    sched: Scheduler,
    mv: VersionedMap,
    last: Vec<Option<LastIo>>,
    stats: ExecutionStats,
}

impl<'a> SpeculativeState<'a> {
    /// The block being executed.
    pub closed spec fn block(&self) -> Seq<Transaction> {
        self.txns@
    }

    /// The number of transactions that will commit.
    pub closed spec fn len(&self) -> nat {
        self.n as nat
    }

    pub closed spec fn scheduler(&self) -> Scheduler {
        self.sched
    }

    pub closed spec fn map(&self) -> VersionedMap {
        self.mv
    }

    /// The latest completed incarnation of each transaction, if any.
    pub closed spec fn records(&self) -> Seq<Option<LastIo>> {
        self.last@
    }

    pub closed spec fn stats_spec(&self) -> ExecutionStats {
        self.stats
    }

    pub closed spec fn wf(&self) -> bool {
        &&& block_wf(self.txns@)
        &&& output_len_ok(self.txns@, self.n as int)
        &&& self.sched.wf()
        &&& self.sched.num_txns_spec() == self.n
        &&& self.mv.wf()
        &&& self.mv.len_spec() == self.n
        &&& self.last@.len() == self.n
        &&& last_io_ok(self.txns@, self.last@)
    }

    /// The scheduler's statuses, one per transaction that will commit.
    pub open spec fn statuses(&self) -> Seq<TxnStatus> {
        self.scheduler().status()
    }

    /// `new` is `self` after incarnation `inc` of `t` observed `obs` from
    /// `sources` and finished: its record, its slots in the map and the
    /// scheduler are updated as described at `apply`.
    pub open spec fn executed(
        &self,
        new: &Self,
        t: int,
        inc: Incarnation,
        sources: Seq<ReadResult>,
        obs: Seq<Option<u128>>,
        r: SchedulerTask,
    ) -> bool {
        let out = expected_output(self.block()[t], obs);
        let w = writes_new_key(self.records()[t], out);
        let follow = self.scheduler().val_idx() > t && !w;
        let next = SchedulerTask::ValidationTask(t as usize, inc, self.scheduler().waves()[t]);
        &&& new.records()[t] is Some
        &&& new.records()[t].unwrap().incarnation == inc
        &&& new.records()[t].unwrap().sources@ == sources
        &&& new.records()[t].unwrap().reads@ == obs
        &&& new.records()[t].unwrap().output@ == out
        &&& forall|x: int| 0 <= x < self.len() && x != t ==> #[trigger] new.records()[x] == self.records()[x]
        &&& forall|k: StorageKey| #[trigger] slot_holds(new.map().entry(k, t), out_value(out, k))
        &&& forall|k: StorageKey, x: int|
            0 <= x < self.len() && x != t ==> #[trigger] new.map().entry(k, x) == self.map().entry(k, x)
        &&& finish_execution_post(
            self.scheduler(),
            new.scheduler(),
            t as usize,
            inc,
            w,
            if follow { Some(next) } else { None },
        )
        &&& r == if follow { next } else { SchedulerTask::NoTask }
        &&& new.stats_spec() == (ExecutionStats { executions: bump(self.stats_spec().executions), ..self.stats_spec() })
    }

    /// `new` is `self` after a validation of incarnation `inc` of `t` found
    /// `ok`: the scheduler is updated as `finish_validation` says and, on an
    /// abort, the transaction's recorded writes are flagged as estimates.
    pub open spec fn validated(&self, new: &Self, t: int, inc: Incarnation, ok: bool) -> bool {
        let aborted = !ok && self.statuses()[t] == TxnStatus::Executed(inc);
        &&& finish_validation_post(self.scheduler(), new.scheduler(), t as usize, inc, ok, aborted)
        &&& new.records() == self.records()
        &&& forall|k: StorageKey| #[trigger] new.map().entry(k, t) == if aborted {
            estimate_slot(self.map().entry(k, t), self.records()[t], k)
        } else {
            self.map().entry(k, t)
        }
        &&& forall|k: StorageKey, x: int|
            0 <= x < self.len() && x != t ==> #[trigger] new.map().entry(k, x) == self.map().entry(k, x)
        &&& new.stats_spec() == (ExecutionStats {
            validations: bump(self.stats_spec().validations),
            aborts: if aborted {
                bump(self.stats_spec().aborts)
            } else {
                self.stats_spec().aborts
            },
            ..self.stats_spec()
        })
    }

    /// Only the scheduler changed.
    pub open spec fn same_but_scheduler(&self, new: &Self) -> bool {
        &&& new.records() == self.records()
        &&& new.map() == self.map()
        &&& new.stats_spec() == self.stats_spec()
    }

    pub fn new(txns: &'a Vec<Transaction>) -> (r: SpeculativeState<'a>)
        requires
            block_wf(txns@),
        ensures
            r.wf(),
            r.block() == txns@,
            output_len_ok(txns@, r.len() as int),
            r.records() == Seq::new(r.len(), |t: int| None::<LastIo>),
            forall|k: StorageKey, t: int| 0 <= t < r.len() ==> #[trigger] r.map().entry(k, t) is None,
            r.statuses() == Seq::new(r.len(), |t: int| TxnStatus::ReadyToExecute(0)),
            r.stats_spec() == (ExecutionStats {
                executions: 0,
                validations: 0,
                aborts: 0,
                commit_reexecutions: 0,
            }),
    {
        let n = committed_len(txns);
        let mut last: Vec<Option<LastIo>> = Vec::new();
        let mut j: usize = 0;
        while j < n
            invariant
                j <= n,
                last@.len() == j,
                forall|t: int| 0 <= t < j ==> (#[trigger] last@[t]) is None,
            decreases n - j,
        {
            last.push(None);
            j = j + 1;
        }
        assert(last@ =~= Seq::new(n as nat, |t: int| None::<LastIo>));
        let sched = Scheduler::new(n);
        assert(sched.status() =~= Seq::new(n as nat, |t: int| TxnStatus::ReadyToExecute(0)));
        SpeculativeState {
            txns,
            n,
            sched,
            mv: VersionedMap::new(n),
            last,
            stats: ExecutionStats { executions: 0, validations: 0, aborts: 0, commit_reexecutions: 0 },
        }
    }

    pub fn block_len(&self) -> (r: usize)
        ensures
            r == self.len(),
    {
        self.n
    }

    pub fn stats(&self) -> (r: ExecutionStats)
        ensures
            r == self.stats_spec(),
    {
        self.stats
    }

    /// Whether workers should stop: the scheduler reported completion, or
    /// aborts have run out of incarnation numbers.
    pub fn should_stop(&self) -> (r: bool)
        ensures
            r == (self.scheduler().done_spec() || self.scheduler().aborts() >= u32::MAX - 1),
    {
        self.sched.done() || self.sched.aborts_count() >= u32::MAX - 1
    }

    /// A new task for an idle worker, as the scheduler's `next_task` picks it.
    pub fn next_task(&mut self) -> (r: SchedulerTask)
        requires
            old(self).wf(),
        ensures
            final(self).wf(),
            final(self).block() == old(self).block(),
            final(self).len() == old(self).len(),
            next_task_post(old(self).scheduler(), final(self).scheduler(), r),
            old(self).same_but_scheduler(&*final(self)),
    {
        self.sched.next_task()
    }

    /// Performs `task` against the current map, without changing anything:
    /// an execution reads the transaction's keys through the map (see
    /// `execution_result`); a validation of the recorded incarnation checks
    /// that every logged read still comes from the same source with the same
    /// value.
    pub fn perform(&self, base: &Storage, task: SchedulerTask) -> (r: WorkResult)
        requires
            self.wf(),
        ensures
            match task {
                SchedulerTask::ExecutionTask(t, _) => if t < self.len() {
                    execution_result(self.map(), base@, read_keys(self.block()[t as int]), t as int, r)
                } else {
                    r is Idle
                },
                SchedulerTask::ValidationTask(t, inc, _) => if t < self.len() {
                    r == WorkResult::Validated(
                        self.records()[t as int] is Some && self.records()[t as int].unwrap().incarnation
                            == inc && reads_still_valid(
                            self.map(),
                            base@,
                            read_keys(self.block()[t as int]),
                            t as int,
                            self.records()[t as int].unwrap(),
                        ),
                    )
                } else {
                    r is Idle
                },
                _ => r is Idle,
            },
    {
        match task {
            SchedulerTask::ExecutionTask(t, _) => {
                if t < self.n {
                    speculative_read(&self.mv, base, &self.txns[t], t)
                } else {
                    WorkResult::Idle
                }
            },
            SchedulerTask::ValidationTask(t, inc, _) => {
                if t < self.n {
                    match &self.last[t] {
                        Some(rec) => {
                            if rec.incarnation == inc {
                                WorkResult::Validated(validate_reads(&self.mv, base, &self.txns[t], t, rec))
                            } else {
                                WorkResult::Validated(false)
                            }
                        },
                        None => WorkResult::Validated(false),
                    }
                } else {
                    WorkResult::Idle
                }
            },
            _ => WorkResult::Idle,
        }
    }

    /// Applies what a worker found for `task`, and returns the worker's next
    /// task (`NoTask` when it should ask the scheduler):
    /// - an execution of the running incarnation records the output the VM
    ///   gives on the observed values, replaces the transaction's slots by
    ///   exactly that output's writes, and finishes the execution;
    /// - a read blocked on an estimate parks the transaction on that
    ///   dependency (or retries when it finished meanwhile);
    /// - an unresolvable read abandons the incarnation;
    /// - a validation finishes; on an abort of the executed incarnation, its
    ///   recorded writes are flagged as estimates.
    /// Results that no longer match the transaction's status change nothing.
    pub fn apply(&mut self, task: SchedulerTask, result: WorkResult) -> (r: SchedulerTask)
        requires
            old(self).wf(),
        ensures
            final(self).wf(),
            final(self).block() == old(self).block(),
            final(self).len() == old(self).len(),
            incarnations_advance(old(self).statuses(), final(self).statuses()),
            old(self).scheduler().aborts() >= u32::MAX - 1 ==> r is NoTask && *final(self) == *old(self),
            old(self).scheduler().aborts() < u32::MAX - 1 ==> match (task, result) {
                (SchedulerTask::ExecutionTask(t, inc), WorkResult::Executed(sources, obs)) => if t
                    < old(self).len() && obs@.len() == read_keys(old(self).block()[t as int]).len()
                    && old(self).statuses()[t as int] == TxnStatus::Executing(inc) {
                    old(self).executed(&*final(self), t as int, inc, sources@, obs@, r)
                } else {
                    r is NoTask && *final(self) == *old(self)
                },
                (SchedulerTask::ExecutionTask(t, inc), WorkResult::Blocked(dep)) => if t < old(self).len()
                    && dep < t && old(self).statuses()[t as int] == TxnStatus::Executing(inc) {
                    let parked = !(old(self).statuses()[dep as int] is Executed);
                    &&& add_dependency_post(old(self).scheduler(), final(self).scheduler(), t, inc, dep, parked)
                    &&& old(self).same_but_scheduler(&*final(self))
                    &&& r == if parked { SchedulerTask::NoTask } else { task }
                } else {
                    r is NoTask && *final(self) == *old(self)
                },
                (SchedulerTask::ExecutionTask(t, inc), WorkResult::Unresolvable) => if t < old(self).len()
                    && old(self).statuses()[t as int] == TxnStatus::Executing(inc) {
                    &&& abort_execution_post(old(self).scheduler(), final(self).scheduler(), t, inc)
                    &&& old(self).same_but_scheduler(&*final(self))
                    &&& r is NoTask
                } else {
                    r is NoTask && *final(self) == *old(self)
                },
                (SchedulerTask::ValidationTask(t, inc, _), WorkResult::Validated(ok)) => if t < old(self).len() {
                    old(self).validated(&*final(self), t as int, inc, ok) && r is NoTask
                } else {
                    r is NoTask && *final(self) == *old(self)
                },
                _ => r is NoTask && *final(self) == *old(self),
            },
    {
        if self.sched.aborts_count() >= u32::MAX - 1 {
            return SchedulerTask::NoTask;
        }
        let n = self.n;
        match (task, result) {
            (SchedulerTask::ExecutionTask(t, inc), WorkResult::Executed(sources, obs)) => {
                if t < n && obs.len() == txn_read_keys(&self.txns[t]).len()
                    && self.sched.status_of(t) == TxnStatus::Executing(inc) {
                    let ghost s0 = *self;
                    let out = run_task(&self.txns[t], &obs);
                    let new_keys = output_keys(&out);
                    let old_keys = match &self.last[t] {
                        Some(rec) => output_keys(&rec.output),
                        None => Vec::new(),
                    };
                    let wrote_new_keys = has_new_key(&new_keys, &old_keys);
                    proof {
                        assert(txn_wf(self.txns@[t as int]));
                        assert(wrote_new_keys == writes_new_key(s0.last@[t as int], out@));
                    }
                    commit_slots(&mut self.mv, t, inc, &out);
                    self.last.set(t, Some(LastIo { incarnation: inc, sources, reads: obs, output: out }));
                    let fe = self.sched.finish_execution(t, inc, wrote_new_keys);
                    self.stats.executions = bumped(self.stats.executions);
                    match fe {
                        Some(next) => next,
                        None => SchedulerTask::NoTask,
                    }
                } else {
                    SchedulerTask::NoTask
                }
            },
            (SchedulerTask::ExecutionTask(t, inc), WorkResult::Blocked(dep)) => {
                if t < n && dep < t && self.sched.status_of(t) == TxnStatus::Executing(inc) {
                    if self.sched.add_dependency(t, inc, dep) {
                        SchedulerTask::NoTask
                    } else {
                        // The dependency finished meanwhile: retry.
                        task
                    }
                } else {
                    SchedulerTask::NoTask
                }
            },
            (SchedulerTask::ExecutionTask(t, inc), WorkResult::Unresolvable) => {
                if t < n && self.sched.status_of(t) == TxnStatus::Executing(inc) {
                    self.sched.abort_execution(t, inc);
                }
                SchedulerTask::NoTask
            },
            (SchedulerTask::ValidationTask(t, inc, _), WorkResult::Validated(ok)) => {
                if t < n {
                    let ghost s0 = *self;
                    let aborted = self.sched.finish_validation(t, inc, ok);
                    self.stats.validations = bumped(self.stats.validations);
                    if aborted {
                        self.stats.aborts = bumped(self.stats.aborts);
                        match &self.last[t] {
                            Some(rec) => {
                                let written = output_keys(&rec.output);
                                let ghost s1 = *self;
                                let mut p: usize = 0;
                                while p < written.len()
                                    invariant
                                        self.mv.wf(),
                                        self.mv.len_spec() == n,
                                        t < n,
                                        self.txns == s1.txns,
                                        self.n == s1.n,
                                        self.sched == s1.sched,
                                        self.last == s1.last,
                                        self.stats == s1.stats,
                                        s1.mv == s0.mv,
                                        s0.mv.wf(),
                                        s0.mv.len_spec() == n,
                                        s0.last@.len() == n,
                                        s0.last@[t as int] == Some(*rec),
                                        written@ == written_keys(rec.output@),
                                        p <= written@.len(),
                                        forall|k: StorageKey| #[trigger] self.mv.entry(k, t as int) == if written@.take(p as int).contains(k) {
                                            estimate_slot(s0.mv.entry(k, t as int), s0.last@[t as int], k)
                                        } else {
                                            s0.mv.entry(k, t as int)
                                        },
                                        forall|k: StorageKey, x: int|
                                            0 <= x < n && x != t ==> #[trigger] self.mv.entry(k, x) == s0.mv.entry(k, x),
                                    decreases written@.len() - p,
                                {
                                    let ghost before = self.mv;
                                    let k = written[p];
                                    self.mv.mark_estimate(k, t);
                                    proof {
                                        assert(written@.take(p + 1) =~= written@.take(p as int).push(k));
                                        assert forall|k2: StorageKey| #[trigger] self.mv.entry(k2, t as int) == if written@.take(p + 1).contains(k2) {
                                            estimate_slot(s0.mv.entry(k2, t as int), s0.last@[t as int], k2)
                                        } else {
                                            s0.mv.entry(k2, t as int)
                                        } by {
                                            lemma_push_contains(written@.take(p as int), k, k2);
                                            before.lemma_column_len(k2);
                                            self.mv.lemma_column_len(k2);
                                            s0.mv.lemma_column_len(k2);
                                            assert(written@[p as int] == k);
                                            assert(written@.contains(k));
                                            assert(written_keys(s0.last@[t as int].unwrap().output@).contains(k));
                                            if k2 != k {
                                                assert(self.mv.entry(k2, t as int) == before.entry(k2, t as int));
                                            } else {
                                                assert(before.entry(k, t as int) == if written@.take(p as int).contains(k) {
                                                    estimate_slot(s0.mv.entry(k, t as int), s0.last@[t as int], k)
                                                } else {
                                                    s0.mv.entry(k, t as int)
                                                });
                                            }
                                        }
                                        assert forall|k2: StorageKey, x: int|
                                            0 <= x < n && x != t implies #[trigger] self.mv.entry(k2, x) == s0.mv.entry(k2, x) by {
                                            before.lemma_column_len(k2);
                                            self.mv.lemma_column_len(k2);
                                            assert(self.mv.entry(k2, x) == before.entry(k2, x));
                                        }
                                    }
                                    p = p + 1;
                                }
                                proof {
                                    assert(written@.take(written@.len() as int) =~= written@);
                                }
                            },
                            None => {},
                        }
                    }
                }
                SchedulerTask::NoTask
            },
            _ => SchedulerTask::NoTask,
        }
    }

    /// Commits the block in index order and returns its outputs: those of
    /// sequential execution on `base`.
    pub fn commit(&mut self, base: &Storage) -> (r: Vec<TxnOutput>)
        requires
            old(self).wf(),
        ensures
            is_sequential_result(base@, old(self).block(), r@),
    {
        commit_in_order(base, self.txns, self.n, &mut self.mv, &mut self.last, &mut self.stats)
    }
}

/// The in-order commit: each transaction's reads are resolved against the
/// map, whose lower slots hold the committed writes; the recorded result is
/// kept when it observed the same values, and recomputed otherwise. The
/// transaction's slots are then replaced by exactly its committed writes.
fn commit_in_order(
    base: &Storage,
    txns: &Vec<Transaction>,
    n: usize,
    mv: &mut VersionedMap,
    last: &mut Vec<Option<LastIo>>,
    stats: &mut ExecutionStats,
) -> (outs: Vec<TxnOutput>)
    requires
        block_wf(txns@),
        output_len_ok(txns@, n as int),
        old(mv).wf(),
        old(mv).len_spec() == n,
        old(last)@.len() == n,
        last_io_ok(txns@, old(last)@),
    ensures
        is_sequential_result(base@, txns@, outs@),
{
    let mut outs: Vec<TxnOutput> = Vec::new();
    let mut i: usize = 0;
    proof {
        assert(committed_below(*mv, base@, txns@, 0));
    }
    while i < n
        invariant
            block_wf(txns@),
            output_len_ok(txns@, n as int),
            n <= txns@.len(),
            i <= n,
            mv.wf(),
            mv.len_spec() == n,
            last@.len() == n,
            last_io_ok(txns@, last@),
            committed_below(*mv, base@, txns@, i as int),
            outs@.len() == i,
            forall|t: int| 0 <= t < i ==> (#[trigger] outs@[t])@ == seq_output(base@, txns@, t as nat),
        decreases n - i,
    {
        let txn = &txns[i];
        let keys = txn_read_keys(txn);
        let ghost st = seq_state(base@, txns@, i as nat);
        proof {
            lemma_observe_committed(*mv, base@, txns@, i as int);
        }
        let mut obs: Vec<Option<u128>> = Vec::new();
        let mut p: usize = 0;
        while p < keys.len()
            invariant
                mv.wf(),
                mv.len_spec() == n,
                i < n,
                p <= keys@.len(),
                obs@ == observe(st, keys@.take(p as int)),
                forall|k: StorageKey|
                    #[trigger] crate::versioned_map::resolve_col(mv.column(k), lookup(base@, k), i as int)
                        == Resolution::Value(lookup(st, k)),
            decreases keys@.len() - p,
        {
            let k = keys[p];
            let v = match mv.resolve(k, i, base.get(k)) {
                Resolution::Value(v) => v,
                _ => None,
            };
            obs.push(v);
            p = p + 1;
            assert(obs@ =~= observe(st, keys@.take(p as int)));
        }
        assert(keys@.take(keys@.len() as int) =~= keys@);
        let mut slot: Option<LastIo> = None;
        std::mem::swap(&mut slot, &mut last[i]);
        proof {
            assert forall|t: int| 0 <= t < last@.len() && #[trigger] last@[t] is Some implies last@[t].unwrap().reads@.len()
                == read_keys(txns@[t]).len() && last@[t].unwrap().output@ == expected_output(
                txns@[t],
                last@[t].unwrap().reads@,
            ) by {
                assert(t != i);
            }
        }
        let (out, inc) = match slot {
            Some(rec) => {
                if same_reads(&rec.reads, &obs) {
                    (rec.output, rec.incarnation)
                } else {
                    stats.commit_reexecutions = stats.commit_reexecutions.saturating_add(1);
                    (run_task(txn, &obs), rec.incarnation)
                }
            },
            None => {
                stats.commit_reexecutions = stats.commit_reexecutions.saturating_add(1);
                (run_task(txn, &obs), 0)
            },
        };
        assert(out@ == seq_output(base@, txns@, i as nat));
        assert(txn_wf(txns@[i as int]));
        let ghost before = *mv;
        commit_slots(mv, i, inc, &out);
        proof {
            assert forall|k: StorageKey, t: int| 0 <= t < i + 1 implies slot_holds(
                #[trigger] mv.entry(k, t),
                out_value(seq_output(base@, txns@, t as nat), k),
            ) by {
                if t < i {
                    assert(mv.entry(k, t) == before.entry(k, t));
                }
            }
        }
        outs.push(out);
        i = i + 1;
    }
    outs
}

fn same_value(a: Option<u128>, b: Option<u128>) -> (r: bool)
    ensures
        r == (a == b),
{
    match (a, b) {
        (Some(x), Some(y)) => x == y,
        (None, None) => true,
        _ => false,
    }
}

fn same_reads(a: &Vec<Option<u128>>, b: &Vec<Option<u128>>) -> (r: bool)
    ensures
        r ==> a@ == b@,
{
    if a.len() != b.len() {
        return false;
    }
    let mut p: usize = 0;
    while p < a.len()
        invariant
            a@.len() == b@.len(),
            p <= a@.len(),
            forall|x: int| 0 <= x < p ==> a@[x] == b@[x],
        decreases a@.len() - p,
    {
        if !same_value(a[p], b[p]) {
            return false;
        }
        p = p + 1;
    }
    assert(a@ =~= b@);
    true
}

} // verus!
