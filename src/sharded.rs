use vstd::prelude::*;

use crate::delta::views;
use crate::executor::ParallelTransactionExecutor;
use crate::laws::{lemma_sequential_outputs, seq_outputs};
use crate::storage::Storage;
use crate::txn::{block_wf, OutputView, Transaction, TxnOutput};
use crate::types::StorageKey;

verus! {

/// Relies on `num_cpus::get`, documented to return the number of logical
/// CPUs available, and always at least 1.
#[verifier::external_body]
fn available_cpus() -> (r: usize)
    ensures
        r >= 1,
{
    num_cpus::get()
}

/// Transactions per shard when `n` transactions are split over `k` shards.
pub open spec fn chunk_len(n: int, k: int) -> int {
    (n + k - 1) / k
}

/// Where shard `i` starts.
pub open spec fn shard_start(n: int, k: int, i: int) -> int {
    if i * chunk_len(n, k) < n {
        i * chunk_len(n, k)
    } else {
        n
    }
}

/// The uniform split of a block into `k` contiguous shards of
/// `chunk_len(n, k)` transactions (the last ones shorter or empty).
pub open spec fn uniform_parts<T>(txns: Seq<T>, k: int) -> Seq<Seq<T>> {
    Seq::new(
        k as nat,
        |i: int|
            txns.subrange(
                shard_start(txns.len() as int, k, i),
                shard_start(txns.len() as int, k, i + 1),
            ),
    )
}

pub open spec fn flatten<T>(parts: Seq<Seq<T>>) -> Seq<T>
    decreases parts.len(),
{
    if parts.len() == 0 {
        Seq::empty()
    } else {
        flatten(parts.drop_last()) + parts.last()
    }
}

proof fn lemma_shard_start(n: int, k: int, i: int)
    requires
        n >= 0,
        k >= 1,
        0 <= i <= k,
    ensures
        0 <= shard_start(n, k, i) <= n,
        i < k ==> shard_start(n, k, i) <= shard_start(n, k, i + 1),
        shard_start(n, k, 0) == 0,
        shard_start(n, k, k) == n,
{
    let c = chunk_len(n, k);
    assert(c >= 0) by (nonlinear_arith)
        requires
            n >= 0,
            k >= 1,
            c == (n + k - 1) / k,
    ;
    assert(i * c <= (i + 1) * c) by (nonlinear_arith)
        requires
            c >= 0,
    ;
    assert(0 * c == 0);
    assert(i * c >= 0) by (nonlinear_arith)
        requires
            c >= 0,
            i >= 0,
    ;
    assert(k * c >= n) by (nonlinear_arith)
        requires
            n >= 0,
            k >= 1,
            c == (n + k - 1) / k,
    ;
}

proof fn lemma_flatten_prefix<T>(txns: Seq<T>, k: int, j: int)
    requires
        k >= 1,
        0 <= j <= k,
    ensures
        flatten(uniform_parts(txns, k).take(j)) == txns.subrange(0, shard_start(txns.len() as int, k, j)),
    decreases j,
{
    let n = txns.len() as int;
    lemma_shard_start(n, k, j);
    if j == 0 {
        assert(uniform_parts(txns, k).take(0) =~= Seq::<Seq<T>>::empty());
        assert(txns.subrange(0, 0) =~= Seq::<T>::empty());
    } else {
        lemma_flatten_prefix(txns, k, j - 1);
        lemma_shard_start(n, k, j - 1);
        let ps = uniform_parts(txns, k).take(j);
        assert(ps.drop_last() =~= uniform_parts(txns, k).take(j - 1));
        assert(txns.subrange(0, shard_start(n, k, j)) =~= txns.subrange(0, shard_start(n, k, j - 1))
            + txns.subrange(shard_start(n, k, j - 1), shard_start(n, k, j)));
    }
}

/// The uniform split of `block` into `num_shards` shards, in order. The
/// shards together hold every transaction once, in block order.
pub fn uniform_partition(block: Vec<Transaction>, num_shards: usize) -> (r: Vec<Vec<Transaction>>)
    requires
        num_shards >= 1,
    ensures
        r@.len() == num_shards,
        forall|i: int| 0 <= i < num_shards ==> (#[trigger] r@[i])@ == uniform_parts(block@, num_shards as int)[i],
        flatten(uniform_parts(block@, num_shards as int)) == block@,
{
    let ghost txns = block@;
    let n = block.len();
    let k = num_shards;
    let c: usize = ceil_div(n, k);
    let mut rest = block;
    let mut parts: Vec<Vec<Transaction>> = Vec::new();
    let mut i: usize = k;
    proof {
        lemma_shard_start(n as int, k as int, k as int);
        assert(txns.subrange(0, n as int) =~= txns);
    }
    while i > 0
        invariant
            i <= k,
            k >= 1,
            n == txns.len(),
            c == chunk_len(n as int, k as int),
            rest@ == txns.subrange(0, shard_start(n as int, k as int, i as int)),
            parts@.len() == k - i,
            forall|j: int|
                0 <= j < k - i ==> (#[trigger] parts@[j])@ == uniform_parts(txns, k as int)[i + j],
        decreases i,
    {
        proof {
            lemma_shard_start(n as int, k as int, i - 1);
            lemma_shard_start(n as int, k as int, i as int);
        }
        let a: u128 = i as u128 - 1;
        let b: u128 = c as u128;
        assert(a * b <= u128::MAX) by (nonlinear_arith)
            requires
                a <= usize::MAX,
                b <= usize::MAX,
        ;
        let prod: u128 = a * b;
        let start: usize = if prod < n as u128 {
            prod as usize
        } else {
            n
        };
        assert(start == shard_start(n as int, k as int, i - 1));
        let piece = rest.split_off(start);
        parts.insert(0, piece);
        i = i - 1;
    }
    proof {
        lemma_flatten_prefix(txns, k as int, k as int);
        lemma_shard_start(n as int, k as int, k as int);
        assert(uniform_parts(txns, k as int).take(k as int) =~= uniform_parts(txns, k as int));
        assert(txns.subrange(0, n as int) =~= txns);
    }
    parts
}

/// `cpus / num_shards`, rounded up.
fn ceil_div(cpus: usize, num_shards: usize) -> (r: usize)
    requires
        num_shards >= 1,
    ensures
        r == chunk_len(cpus as int, num_shards as int),
{
    let q = cpus / num_shards;
    let r = if cpus % num_shards == 0 {
        q
    } else {
        assert(q < usize::MAX) by (nonlinear_arith)
            requires
                num_shards >= 1,
                cpus % num_shards != 0,
                q == cpus / num_shards,
                cpus <= usize::MAX,
        {
            vstd::arithmetic::div_mod::lemma_fundamental_div_mod(cpus as int, num_shards as int);
        }
        q + 1
    };
    assert(r == chunk_len(cpus as int, num_shards as int)) by (nonlinear_arith)
        requires
            num_shards >= 1,
            q == cpus / num_shards,
            r == if cpus % num_shards == 0 {
                q as int
            } else {
                q + 1
            },
    {
        vstd::arithmetic::div_mod::lemma_fundamental_div_mod(cpus as int, num_shards as int);
        vstd::arithmetic::div_mod::lemma_fundamental_div_mod(
            (cpus + num_shards - 1) as int,
            num_shards as int,
        );
    }
    r
}

/// Workers per shard when `cpus` CPUs are shared out over `num_shards`
/// shards, rounded up.
pub fn default_threads_per_executor(cpus: usize, num_shards: usize) -> (r: usize)
    requires
        num_shards >= 1,
    ensures
        r == chunk_len(cpus as int, num_shards as int),
{
    ceil_div(cpus, num_shards)
}

/// Splits blocks over several executor shards, each a parallel executor
/// with its own workers, and puts their outputs back together in shard
/// order.
pub struct ShardedBlockExecutor {
    num_executor_shards: usize,
    num_threads_per_executor: usize,
}

impl ShardedBlockExecutor {
    pub closed spec fn shards(&self) -> nat {
        self.num_executor_shards as nat
    }

    pub closed spec fn threads(&self) -> nat {
        self.num_threads_per_executor as nat
    }

    /// A dispatcher over `num_executor_shards` shards with
    /// `num_threads_per_executor` workers each, or by default the available
    /// CPUs shared out over the shards, rounded up.
    pub fn new(num_executor_shards: usize, num_threads_per_executor: Option<usize>) -> (r:
        ShardedBlockExecutor)
        requires
            num_executor_shards > 0,
        ensures
            r.shards() == num_executor_shards,
            num_threads_per_executor matches Some(t) ==> r.threads() == t,
            num_threads_per_executor is None ==> r.threads() >= 1 && exists|cpus: int|
                cpus >= 1 && r.threads() == chunk_len(cpus, num_executor_shards as int),
    {
        let threads = match num_threads_per_executor {
            Some(t) => t,
            None => {
                let cpus = available_cpus();
                let t = default_threads_per_executor(cpus, num_executor_shards);
                assert(t >= 1) by (nonlinear_arith)
                    requires
                        cpus >= 1,
                        num_executor_shards >= 1,
                        t == (cpus + num_executor_shards - 1) / num_executor_shards as int,
                ;
                t
            },
        };
        ShardedBlockExecutor { num_executor_shards, num_threads_per_executor: threads }
    }

    pub fn num_executor_shards(&self) -> (r: usize)
        ensures
            r == self.shards(),
    {
        self.num_executor_shards
    }

    pub fn num_threads_per_executor(&self) -> (r: usize)
        ensures
            r == self.threads(),
    {
        self.num_threads_per_executor
    }

    /// Runs one shard: in parallel, or sequentially when the parallel path
    /// refuses the shard.
    pub fn execute_shard(&self, base: &Storage, txns: &Vec<Transaction>) -> (r: Vec<TxnOutput>)
        requires
            block_wf(txns@),
        ensures
            views(r@) == seq_outputs(base@, txns@),
    {
        let executor = ParallelTransactionExecutor::new(self.num_threads_per_executor);
        let outs = match executor.execute_transactions_parallel(base, txns) {
            Ok((outs, _)) => outs,
            Err(_) => executor.execute_transactions_sequential(base, txns),
        };
        proof {
            lemma_sequential_outputs(base@, txns@, outs@);
        }
        outs
    }

    /// Executes a block: splits it uniformly over the shards, runs each shard
    /// on `base`, and concatenates the outputs in shard order.
    pub fn execute_block(&self, base: &Storage, block: Vec<Transaction>) -> (r: Vec<TxnOutput>)
        requires
            self.shards() >= 1,
            block_wf(block@),
        ensures
            views(r@) == flatten(
                Seq::new(
                    self.shards(),
                    |i: int| seq_outputs(base@, uniform_parts(block@, self.shards() as int)[i]),
                ),
            ),
    {
        let ghost txns = block@;
        let k = self.num_executor_shards;
        let parts = uniform_partition(block, k);
        let ghost expected = Seq::new(
            k as nat,
            |i: int| seq_outputs(base@, uniform_parts(txns, k as int)[i]),
        );
        let mut outs: Vec<TxnOutput> = Vec::new();
        let mut i: usize = 0;
        while i < k
            invariant
                i <= k,
                parts@.len() == k,
                block_wf(txns),
                forall|j: int| 0 <= j < k ==> (#[trigger] parts@[j])@ == uniform_parts(txns, k as int)[j],
                expected == Seq::new(
                    k as nat,
                    |j: int| seq_outputs(base@, uniform_parts(txns, k as int)[j]),
                ),
                views(outs@) == flatten(expected.take(i as int)),
            decreases k - i,
        {
            proof {
                lemma_shard_start(txns.len() as int, k as int, i as int);
                lemma_shard_start(txns.len() as int, k as int, i + 1);
                let part = uniform_parts(txns, k as int)[i as int];
                assert forall|x: int| 0 <= x < part.len() implies #[trigger] crate::txn::txn_wf(part[x]) by {
                    assert(part[x] == txns[shard_start(txns.len() as int, k as int, i as int) + x]);
                }
            }
            let mut shard_outs = self.execute_shard(base, &parts[i]);
            let ghost before = outs@;
            outs.append(&mut shard_outs);
            proof {
                assert(expected.take(i + 1).drop_last() =~= expected.take(i as int));
                assert(views(outs@) =~= views(before) + expected[i as int]);
            }
            i = i + 1;
        }
        proof {
            assert(expected.take(k as int) =~= expected);
        }
        outs
    }
}

/// With one shard, the sharded dispatcher's outputs are exactly those of
/// sequential execution of the whole block.
pub proof fn lemma_one_shard_is_sequential(base: Map<StorageKey, u128>, block: Seq<Transaction>)
    ensures
        flatten(Seq::new(1, |i: int| seq_outputs(base, uniform_parts(block, 1)[i])))
            == seq_outputs(base, block),
{
    let n = block.len() as int;
    lemma_shard_start(n, 1, 0);
    lemma_shard_start(n, 1, 1);
    assert(uniform_parts(block, 1)[0] =~= block);
    let parts = Seq::new(1, |i: int| seq_outputs(base, uniform_parts(block, 1)[i]));
    assert(parts.drop_last() =~= Seq::<Seq<OutputView>>::empty());
    assert(flatten(parts.drop_last()) =~= Seq::<OutputView>::empty());
    assert(flatten(parts) =~= parts[0]);
}

} // verus!
