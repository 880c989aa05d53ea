use vstd::prelude::*;

use crate::delta::DeltaResolver;
use crate::scheduler::SchedulerTask;
use crate::speculation::{ExecutionStats, SpeculativeState, WorkResult};
use crate::storage::Storage;
use crate::txn::{
    block_wf, delta_keys, is_sequential_result, no_skip_before, output_len_ok, run_task,
    seq_output, seq_state, txn_read_keys, write_keys, Transaction, TxnOutput,
};
use crate::types::{lemma_push_contains, StorageKey};

verus! {

/// Block-level failures of the parallel path.
#[derive(Clone, Copy, Debug, PartialEq, Eq, Structural)]
pub enum ExecutorError {
    /// The block both reads and writes module keys; run it sequentially.
    ModulePathReadWrite,
}

/// The keys a transaction reads.
pub open spec fn txn_reads(txn: Transaction) -> Seq<StorageKey> {
    match txn {
        Transaction::Write { reads, .. } => reads@,
        _ => Seq::empty(),
    }
}

/// Some transaction of the block reads `k`.
pub open spec fn block_reads(txns: Seq<Transaction>, k: StorageKey) -> bool {
    exists|i: int| 0 <= i < txns.len() && #[trigger] txn_reads(txns[i]).contains(k)
}

/// The keys a transaction writes, plainly or by a delta.
pub open spec fn txn_writes(txn: Transaction) -> Seq<StorageKey> {
    match txn {
        Transaction::Write { writes, deltas, .. } => write_keys(writes@) + delta_keys(deltas@),
        _ => Seq::empty(),
    }
}

/// Some transaction of the block writes `k`.
pub open spec fn block_writes(txns: Seq<Transaction>, k: StorageKey) -> bool {
    exists|j: int| 0 <= j < txns.len() && #[trigger] txn_writes(txns[j]).contains(k)
}

/// Some transaction of the block reads a module key, and some transaction
/// writes one.
pub open spec fn module_conflict(txns: Seq<Transaction>) -> bool {
    &&& exists|k1: StorageKey| k1.kind is Module && #[trigger] block_reads(txns, k1)
    &&& exists|k2: StorageKey| k2.kind is Module && #[trigger] block_writes(txns, k2)
}

/// The module keys that the block writes.
fn module_writes(txns: &Vec<Transaction>) -> (r: Vec<StorageKey>)
    ensures
        forall|k: StorageKey| #[trigger] r@.contains(k) <==> (k.kind is Module && block_writes(txns@, k)),
{
    let mut r: Vec<StorageKey> = Vec::new();
    let mut i: usize = 0;
    while i < txns.len()
        invariant
            i <= txns@.len(),
            forall|k: StorageKey|
                #[trigger] r@.contains(k) <==> (k.kind is Module && exists|j: int|
                    0 <= j < i && #[trigger] txn_writes(txns@[j]).contains(k)),
        decreases txns@.len() - i,
    {
        let ghost before = r@;
        let keys = txn_write_keys(&txns[i]);
        let mut p: usize = 0;
        while p < keys.len()
            invariant
                p <= keys@.len(),
                keys@ == txn_writes(txns@[i as int]),
                forall|k: StorageKey|
                    #[trigger] r@.contains(k) <==> (before.contains(k) || (k.kind is Module
                        && keys@.take(p as int).contains(k))),
            decreases keys@.len() - p,
        {
            let k = keys[p];
            let ghost prev = r@;
            if k.is_module() {
                r.push(k);
            }
            p = p + 1;
            proof {
                let pm: int = p - 1;
                assert(keys@.take(p as int) =~= keys@.take(pm).push(k));
                assert forall|x: StorageKey| #[trigger] r@.contains(x) <==> (before.contains(x) || (
                x.kind is Module && keys@.take(p as int).contains(x))) by {
                    lemma_push_contains(keys@.take(pm), k, x);
                    if k.kind is Module {
                        assert(r@ == prev.push(k));
                        lemma_push_contains(prev, k, x);
                    }
                }
            }
        }
        proof {
            assert(keys@.take(keys@.len() as int) =~= keys@);
            assert forall|k: StorageKey| #[trigger] r@.contains(k) <==> (k.kind is Module && exists|j: int|
                0 <= j < i + 1 && #[trigger] txn_writes(txns@[j]).contains(k)) by {
                if k.kind is Module && txn_writes(txns@[i as int]).contains(k) {
                    assert(r@.contains(k));
                }
            }
        }
        i = i + 1;
    }
    r
}

fn txn_write_keys(txn: &Transaction) -> (r: Vec<StorageKey>)
    ensures
        r@ == txn_writes(*txn),
{
    match txn {
        Transaction::Write { writes, deltas, .. } => {
            let mut r: Vec<StorageKey> = Vec::new();
            let mut p: usize = 0;
            while p < writes.len()
                invariant
                    p <= writes@.len(),
                    r@ == write_keys(writes@).take(p as int),
                decreases writes@.len() - p,
            {
                r.push(writes[p].0);
                p = p + 1;
                assert(r@ =~= write_keys(writes@).take(p as int));
            }
            let mut q: usize = 0;
            while q < deltas.len()
                invariant
                    q <= deltas@.len(),
                    r@ == write_keys(writes@) + delta_keys(deltas@).take(q as int),
                decreases deltas@.len() - q,
            {
                r.push(deltas[q].0);
                q = q + 1;
                assert(r@ =~= write_keys(writes@) + delta_keys(deltas@).take(q as int));
            }
            assert(r@ =~= write_keys(writes@) + delta_keys(deltas@));
            r
        },
        _ => Vec::new(),
    }
}

/// Whether the transaction reads a module key.
fn txn_reads_module(txn: &Transaction) -> (r: bool)
    ensures
        r == exists|k: StorageKey| k.kind is Module && #[trigger] txn_reads(*txn).contains(k),
{
    match txn {
        Transaction::Write { reads, .. } => {
            let mut p: usize = 0;
            while p < reads.len()
                invariant
                    p <= reads@.len(),
                    txn_reads(*txn) == reads@,
                    forall|q: int| 0 <= q < p ==> !((#[trigger] reads@[q]).kind is Module),
                decreases reads@.len() - p,
            {
                if reads[p].is_module() {
                    assert(txn_reads(*txn).contains(reads@[p as int]));
                    return true;
                }
                p = p + 1;
            }
            assert forall|k: StorageKey| k.kind is Module implies !#[trigger] txn_reads(*txn).contains(k) by {
                if reads@.contains(k) {
                    let q = choose|q: int| 0 <= q < reads@.len() && reads@[q] == k;
                }
            }
            false
        },
        _ => false,
    }
}

/// Whether the block both reads and writes module keys.
pub fn has_module_conflict(txns: &Vec<Transaction>) -> (r: bool)
    ensures
        r == module_conflict(txns@),
{
    let written = module_writes(txns);
    let any_write = written.len() > 0;
    proof {
        if any_write {
            assert(written@.contains(written@[0]));
        }
        if exists|k2: StorageKey| k2.kind is Module && #[trigger] block_writes(txns@, k2) {
            let k2 = choose|k2: StorageKey| k2.kind is Module && #[trigger] block_writes(txns@, k2);
            assert(written@.contains(k2));
        }
    }
    let mut any_read = false;
    let mut i: usize = 0;
    while i < txns.len()
        invariant
            i <= txns@.len(),
            any_read == exists|k1: StorageKey, j: int|
                0 <= j < i && k1.kind is Module && #[trigger] txn_reads(txns@[j]).contains(k1),
        decreases txns@.len() - i,
    {
        if txn_reads_module(&txns[i]) {
            any_read = true;
        }
        i = i + 1;
    }
    proof {
        if any_read {
            let (k1, j) = choose|k1: StorageKey, j: int|
                0 <= j < i && k1.kind is Module && #[trigger] txn_reads(txns@[j]).contains(k1);
            assert(block_reads(txns@, k1));
        }
        if exists|k1: StorageKey| k1.kind is Module && #[trigger] block_reads(txns@, k1) {
            let k1 = choose|k1: StorageKey| k1.kind is Module && #[trigger] block_reads(txns@, k1);
            let j = choose|j: int| 0 <= j < txns@.len() && #[trigger] txn_reads(txns@[j]).contains(k1);
            assert(txn_reads(txns@[j]).contains(k1));
        }
    }
    any_read && any_write
}

/// The number of transactions whose outputs a block produces: up to and
/// including the first `SkipRest`.
pub fn committed_len(txns: &Vec<Transaction>) -> (r: usize)
    ensures
        output_len_ok(txns@, r as int),
{
    let mut i: usize = 0;
    while i < txns.len()
        invariant
            i <= txns@.len(),
            no_skip_before(txns@, i as int),
        decreases txns@.len() - i,
    {
        match &txns[i] {
            Transaction::SkipRest => {
                return i + 1;
            },
            _ => {},
        }
        i = i + 1;
    }
    i
}

/// Executes blocks of transactions with optimistic concurrency: workers run
/// transactions speculatively against a versioned map, validate what they
/// read, and re-execute on conflict; the block then commits in index order.
pub struct ParallelTransactionExecutor {
    concurrency_level: usize,
}

impl ParallelTransactionExecutor {
    pub closed spec fn level(&self) -> nat {
        self.concurrency_level as nat
    }

    /// An executor with `concurrency_level` workers (at least one).
    pub fn new(concurrency_level: usize) -> (r: ParallelTransactionExecutor)
        ensures
            r.level() == if concurrency_level == 0 {
                1
            } else {
                concurrency_level
            },
    {
        ParallelTransactionExecutor {
            concurrency_level: if concurrency_level == 0 {
                1
            } else {
                concurrency_level
            },
        }
    }

    pub fn concurrency_level(&self) -> (r: usize)
        ensures
            r == self.level(),
    {
        self.concurrency_level
    }

    /// Runs the block one transaction after the other on `base`: the
    /// reference the parallel path must agree with.
    pub fn execute_transactions_sequential(&self, base: &Storage, txns: &Vec<Transaction>) -> (r:
        Vec<TxnOutput>)
        ensures
            is_sequential_result(base@, txns@, r@),
    {
        let mut state = base.copy();
        let mut outs: Vec<TxnOutput> = Vec::new();
        let mut i: usize = 0;
        while i < txns.len()
            invariant
                i <= txns@.len(),
                outs@.len() == i,
                state@ == seq_state(base@, txns@, i as nat),
                no_skip_before(txns@, i as int),
                forall|t: int| 0 <= t < i ==> (#[trigger] outs@[t])@ == seq_output(base@, txns@, t as nat),
            decreases txns@.len() - i,
        {
            let txn = &txns[i];
            let keys = txn_read_keys(txn);
            let obs = state.observe_keys(&keys);
            let out = run_task(txn, &obs);
            assert(out@ == seq_output(base@, txns@, i as nat));
            let skip = match txn {
                Transaction::SkipRest => true,
                _ => false,
            };
            state.apply(&out);
            outs.push(out);
            if skip {
                assert(output_len_ok(txns@, outs@.len() as int));
                return outs;
            }
            i = i + 1;
        }
        outs
    }

    /// Runs the block in parallel. Fails with `ModulePathReadWrite` exactly
    /// when the block both reads and writes module keys; otherwise returns the
    /// outputs of sequential execution, and the deltas they carry.
    pub fn execute_transactions_parallel(&self, base: &Storage, txns: &Vec<Transaction>) -> (r:
        Result<(Vec<TxnOutput>, DeltaResolver), ExecutorError>)
        requires
            block_wf(txns@),
        ensures
            r is Err <==> module_conflict(txns@),
            r matches Err(e) ==> e == ExecutorError::ModulePathReadWrite,
            r matches Ok((outs, res)) ==> is_sequential_result(base@, txns@, outs@)
                && res.built_from(outs@),
    {
        match self.execute_with_stats(base, txns) {
            Ok((outs, res, _)) => Ok((outs, res)),
            Err(e) => Err(e),
        }
    }

    /// The speculative phase, with every worker in this thread: rounds in
    /// which every idle worker takes a task, all tasks of the round run
    /// against the map as it stood when the round began, and their results
    /// are then applied in worker order.
    fn speculate(&self, base: &Storage, state: &mut SpeculativeState)
        requires
            old(state).wf(),
        ensures
            final(state).wf(),
            final(state).block() == old(state).block(),
    {
        let workers = self.concurrency_level;
        let mut tasks: Vec<SchedulerTask> = Vec::new();
        let mut w: usize = 0;
        while w < workers
            invariant
                w <= workers,
                tasks@.len() == w,
            decreases workers - w,
        {
            tasks.push(SchedulerTask::NoTask);
            w = w + 1;
        }
        let n = state.block_len();
        let max_rounds: usize = if n < 1_000_000 {
            64 * n + 64
        } else {
            usize::MAX
        };
        let mut round: usize = 0;
        while round < max_rounds && !state.should_stop()
            invariant
                state.wf(),
                state.block() == old(state).block(),
                tasks@.len() == workers,
            decreases max_rounds - round,
        {
            round = round + 1;
            // Idle workers take tasks.
            let mut w: usize = 0;
            while w < workers
                invariant
                    state.wf(),
                    state.block() == old(state).block(),
                    tasks@.len() == workers,
                    w <= workers,
                decreases workers - w,
            {
                match tasks[w] {
                    SchedulerTask::NoTask => {
                        let task = state.next_task();
                        tasks.set(w, task);
                    },
                    _ => {},
                }
                w = w + 1;
            }
            // Every task of the round runs against the same map.
            let mut results: Vec<WorkResult> = Vec::new();
            let mut w: usize = 0;
            while w < workers
                invariant
                    state.wf(),
                    tasks@.len() == workers,
                    w <= workers,
                    results@.len() == w,
                decreases workers - w,
            {
                results.push(state.perform(base, tasks[w]));
                w = w + 1;
            }
            // Apply the results in worker order.
            let mut w: usize = 0;
            while w < workers
                invariant
                    state.wf(),
                    state.block() == old(state).block(),
                    tasks@.len() == workers,
                    results@.len() == workers,
                    w <= workers,
                decreases workers - w,
            {
                let mut res = WorkResult::Idle;
                std::mem::swap(&mut res, &mut results[w]);
                let next = state.apply(tasks[w], res);
                tasks.set(w, next);
                w = w + 1;
            }
        }
    }

    /// `execute_transactions_parallel`, also returning the run's counters.
    pub fn execute_with_stats(&self, base: &Storage, txns: &Vec<Transaction>) -> (r: Result<
        (Vec<TxnOutput>, DeltaResolver, ExecutionStats),
        ExecutorError,
    >)
        requires
            block_wf(txns@),
        ensures
            r is Err <==> module_conflict(txns@),
            r matches Err(e) ==> e == ExecutorError::ModulePathReadWrite,
            r matches Ok((outs, res, _)) ==> is_sequential_result(base@, txns@, outs@)
                && res.built_from(outs@),
    {
        if has_module_conflict(txns) {
            return Err(ExecutorError::ModulePathReadWrite);
        }
        let mut state = SpeculativeState::new(txns);
        self.speculate(base, &mut state);
        let outs = state.commit(base);
        let res = DeltaResolver::from_outputs(&outs);
        let stats = state.stats();
        Ok((outs, res, stats))
    }
}

} // verus!
