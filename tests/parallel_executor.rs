use parallel_executor::delta::DeltaFold;
use parallel_executor::executor::{ExecutorError, ParallelTransactionExecutor};
use parallel_executor::storage::Storage;
use parallel_executor::txn::{Transaction, TxnOutput};
use parallel_executor::types::{DeltaOp, PathKind, StorageKey, WriteOp};
use proptest::collection;
use proptest::prelude::any;
use proptest::strategy::{Strategy, ValueTree};
use proptest::test_runner::TestRunner;

const DEFAULT_STORAGE_VAL: u128 = 10000000;

/// How random transactions are drawn.
#[derive(Clone, Copy)]
struct GenParams {
    /// Reads, and writes, go to module paths.
    module_access: (bool, bool),
    /// Keys from this index of the universe on are aggregators, updated by
    /// deltas only.
    delta_threshold: Option<usize>,
    allow_deletes: bool,
    limit: u128,
}

fn plain() -> GenParams {
    GenParams { module_access: (false, false), delta_threshold: None, allow_deletes: true, limit: u128::MAX }
}

fn draw(runner: &mut TestRunner, n: usize) -> Vec<u64> {
    collection::vec(any::<u64>(), n)
        .new_tree(runner)
        .expect("creating a new value should succeed")
        .current()
}

fn universe(runner: &mut TestRunner, size: usize) -> Vec<u64> {
    draw(runner, size)
}

fn materialize(r: &[u64], universe: &[u64], p: GenParams) -> Transaction {
    let n = universe.len();
    let kind_read = if p.module_access.0 { PathKind::Module } else { PathKind::Data };
    let kind_write = if p.module_access.1 { PathKind::Module } else { PathKind::Data };
    let mut reads = Vec::new();
    let num_reads = (r[0] % 5) as usize;
    for i in 0..num_reads {
        reads.push(StorageKey::new(universe[(r[1 + i] % n as u64) as usize], kind_read));
    }
    let mut used: Vec<StorageKey> = Vec::new();
    let mut writes = Vec::new();
    let mut deltas = Vec::new();
    let num_writes = (r[6] % 5) as usize;
    for i in 0..num_writes {
        let idx = (r[7 + i] % n as u64) as usize;
        let aggregator = matches!(p.delta_threshold, Some(t) if idx >= t);
        let kind = if aggregator { PathKind::Data } else { kind_write };
        let key = StorageKey::new(universe[idx], kind);
        if used.contains(&key) {
            continue;
        }
        used.push(key);
        let x = r[12 + i];
        if aggregator {
            let amount = (x % 100) as u128;
            let op = if x % 3 == 0 {
                DeltaOp::subtraction(amount, p.limit)
            } else {
                DeltaOp::addition(amount, p.limit)
            };
            deltas.push((key, op));
        } else if p.allow_deletes && x % 7 == 0 {
            writes.push((key, WriteOp::Delete));
        } else {
            writes.push((key, WriteOp::Write(x as u128)));
        }
    }
    Transaction::Write { reads, writes, deltas }
}

fn gen_transactions(runner: &mut TestRunner, universe: &[u64], num_txns: usize, p: GenParams) -> Vec<Transaction> {
    let r = draw(runner, num_txns * 17);
    (0..num_txns).map(|i| materialize(&r[i * 17..(i + 1) * 17], universe, p)).collect()
}

fn base_storage(universe: &[u64], value: u128) -> Storage {
    let mut s = Storage::new();
    for a in universe {
        s.set(StorageKey::new(*a, PathKind::Data), value);
        s.set(StorageKey::new(*a, PathKind::Module), value);
    }
    s
}

fn run_transactions(
    universe: &[u64],
    mut transactions: Vec<Transaction>,
    abort_transactions: Vec<usize>,
    skip_rest_transactions: Vec<usize>,
    num_repeat: usize,
    module_access: (bool, bool),
) {
    let length = transactions.len();
    for i in abort_transactions {
        transactions[i % length] = Transaction::Abort;
    }
    for i in skip_rest_transactions {
        transactions[i % length] = Transaction::SkipRest;
    }
    let base = base_storage(universe, DEFAULT_STORAGE_VAL);
    let baseline = ParallelTransactionExecutor::new(1).execute_transactions_sequential(&base, &transactions);
    let cpu_count = num_cpus::get();
    for num_cpus in [cpu_count / 4, cpu_count / 2, cpu_count] {
        if num_cpus <= 1 {
            continue;
        }
        for _ in 0..num_repeat {
            let output = ParallelTransactionExecutor::new(num_cpus)
                .execute_transactions_parallel(&base, &transactions)
                .map(|(res, _)| res);
            if module_access.0 && module_access.1 {
                assert_eq!(output.unwrap_err(), ExecutorError::ModulePathReadWrite);
                continue;
            }
            assert_eq!(output.unwrap(), baseline);
        }
    }
}

#[test]
fn dynamic_read_writes() {
    let mut runner = TestRunner::default();
    let universe = universe(&mut runner, 100);
    let transaction_gen = gen_transactions(&mut runner, &universe, 3000, plain());
    run_transactions(&universe, transaction_gen, vec![], vec![], 100, (false, false));
}

#[test]
fn deltas_writes_mixed() {
    let mut runner = TestRunner::default();
    let num_txns = 1000;
    let universe = universe(&mut runner, 50);
    let cpu_count = num_cpus::get();
    for num_cpus in [cpu_count / 2, cpu_count] {
        for i in 0..5 {
            let limit = if i == 0 { 100 } else { u128::MAX };
            let params = GenParams { delta_threshold: Some(15), allow_deletes: true, limit, ..plain() };
            let transactions = gen_transactions(&mut runner, &universe, num_txns, params);
            let base = base_storage(&universe, DEFAULT_STORAGE_VAL);
            let baseline = ParallelTransactionExecutor::new(1).execute_transactions_sequential(&base, &transactions);
            for _ in 0..8 {
                let output = ParallelTransactionExecutor::new(num_cpus)
                    .execute_transactions_parallel(&base, &transactions)
                    .map(|(res, _)| res);
                assert_eq!(output.unwrap(), baseline);
            }
        }
    }
}

#[test]
fn deltas_writes_mixed_sequential() {
    let mut runner = TestRunner::default();
    let num_txns = 1000;
    for _ in 0..5 {
        let universe = universe(&mut runner, 50);
        let params = GenParams { delta_threshold: Some(15), allow_deletes: true, limit: u128::MAX, ..plain() };
        let transactions = gen_transactions(&mut runner, &universe, num_txns, params);
        let storage_aggregator_val = 100001;
        let base = base_storage(&universe, storage_aggregator_val);
        let executor = ParallelTransactionExecutor::new(2);
        let sequential_output = executor.execute_transactions_sequential(&base, &transactions);
        assert_eq!(sequential_output.len(), num_txns);
        // Running the sequential path again gives the same outputs.
        assert_eq!(executor.execute_transactions_sequential(&base, &transactions), sequential_output);
        let (parallel_output, _) = executor.execute_transactions_parallel(&base, &transactions).unwrap();
        assert_eq!(parallel_output, sequential_output);
        // Each delta-free success observed storage through its reads.
        for out in &sequential_output {
            assert!(!matches!(out, TxnOutput::SkipRest));
        }
    }
}

/// The fold of the deltas to `key` in the outputs, from `base`.
fn expected_fold(outputs: &[TxnOutput], key: StorageKey, base: u128) -> DeltaFold {
    let mut value = base;
    let mut failed_txns = Vec::new();
    for (t, out) in outputs.iter().enumerate() {
        if let TxnOutput::Success { deltas, .. } = out {
            for (k, op) in deltas {
                if *k == key {
                    match op.apply_to(value) {
                        Some(v) => value = v,
                        None => failed_txns.push(t),
                    }
                }
            }
        }
    }
    DeltaFold { value, failed_txns }
}

#[test]
fn deltas_resolver() {
    let mut runner = TestRunner::default();
    let num_txns = 1000;
    let universe = universe(&mut runner, 50);
    // No deletes, so that every aggregator keeps a value.
    let params = GenParams { delta_threshold: Some(15), allow_deletes: false, limit: u128::MAX, ..plain() };
    let transactions = gen_transactions(&mut runner, &universe, num_txns, params);
    // Each delta is at most 100, so this cannot underflow.
    let storage_aggregator_val = 100001;
    let base = base_storage(&universe, DEFAULT_STORAGE_VAL);
    let baseline = ParallelTransactionExecutor::new(1).execute_transactions_sequential(&base, &transactions);
    let cpu_count = num_cpus::get();
    for num_cpus in [cpu_count / 2, cpu_count] {
        for _ in 0..15 {
            let output = ParallelTransactionExecutor::new(num_cpus).execute_transactions_parallel(&base, &transactions);
            let (output, delta_resolver) = output.unwrap();
            assert_eq!(output, baseline);
            for i in 15..50 {
                let key = StorageKey::new(universe[i], PathKind::Data);
                let resolved = delta_resolver.resolve(key, storage_aggregator_val);
                assert_eq!(resolved, Some(expected_fold(&output, key, storage_aggregator_val)));
                assert!(resolved.unwrap().failed_txns.is_empty());
            }
        }
    }
}

#[test]
fn dynamic_read_writes_contended() {
    let mut runner = TestRunner::default();
    let universe = universe(&mut runner, 10);
    let transaction_gen = gen_transactions(&mut runner, &universe, 1000, plain());
    run_transactions(&universe, transaction_gen, vec![], vec![], 100, (false, false));
}

#[test]
fn module_publishing_fallback() {
    let mut runner = TestRunner::default();
    let universe = universe(&mut runner, 100);
    let writes_only = GenParams { module_access: (false, true), ..plain() };
    let transaction_gen = gen_transactions(&mut runner, &universe, 3000, writes_only);
    run_transactions(&universe, transaction_gen.clone(), vec![], vec![], 2, (false, true));
    run_transactions(&universe, transaction_gen, vec![], vec![], 2, (false, true));
    let both = GenParams { module_access: (true, true), ..plain() };
    let transaction_gen = gen_transactions(&mut runner, &universe, 3000, both);
    run_transactions(&universe, transaction_gen, vec![], vec![], 2, (true, true));
}

fn publishing_fixed_params() {
    let mut runner = TestRunner::default();
    let num_txns = 300;
    let universe = universe(&mut runner, 50);
    let indices = draw(&mut runner, 4);
    // The first 12 keys are normal paths, the next 14 module reads, then module writes.
    let r = draw(&mut runner, num_txns * 17);
    let mut transactions: Vec<Transaction> = (0..num_txns)
        .map(|i| {
            let c = &r[i * 17..(i + 1) * 17];
            let data = &universe[0..12];
            let module_reads = &universe[12..26];
            let module_writes = &universe[26..40];
            let mut reads = vec![StorageKey::new(data[(c[0] % 12) as usize], PathKind::Data)];
            reads.push(StorageKey::new(module_reads[(c[1] % 14) as usize], PathKind::Module));
            let mut writes = vec![(StorageKey::new(data[(c[2] % 12) as usize], PathKind::Data), WriteOp::Write(c[3] as u128))];
            let mk = StorageKey::new(module_writes[(c[4] % 14) as usize], PathKind::Module);
            writes.push((mk, WriteOp::Write(c[5] as u128)));
            if c[6] % 2 == 0 {
                reads.push(StorageKey::new(data[(c[7] % 12) as usize], PathKind::Data));
            }
            Transaction::Write { reads, writes, deltas: vec![] }
        })
        .collect();
    let base = base_storage(&universe, DEFAULT_STORAGE_VAL);

    // Add a module write to key 42 in one transaction.
    let w_index = (indices[0] % num_txns as u64) as usize;
    if let Transaction::Write { writes, .. } = &mut transactions[w_index] {
        let val = writes[0].1;
        let insert_idx = (indices[1] % writes.len() as u64) as usize;
        writes.insert(insert_idx, (StorageKey::new(universe[42], PathKind::Module), val));
    }
    // Module reads and module writes in one block: refused, though no
    // module key is both read and written.
    let output = ParallelTransactionExecutor::new(num_cpus::get())
        .execute_transactions_parallel(&base, &transactions)
        .map(|(res, _)| res);
    assert_eq!(output.unwrap_err(), ExecutorError::ModulePathReadWrite);

    // Add a module read of key 42 in one transaction.
    let r_index = (indices[2] % num_txns as u64) as usize;
    if let Transaction::Write { reads, .. } = &mut transactions[r_index] {
        let insert_idx = (indices[3] % reads.len() as u64) as usize;
        reads.insert(insert_idx, StorageKey::new(universe[42], PathKind::Module));
    }
    for _ in 0..200 {
        let output = ParallelTransactionExecutor::new(num_cpus::get())
            .execute_transactions_parallel(&base, &transactions)
            .map(|(res, _)| res);
        assert_eq!(output.unwrap_err(), ExecutorError::ModulePathReadWrite);
    }
}

#[test]
// Blocks with module reads and module writes, disjoint or sharing a key,
// amid many dependencies.
fn module_publishing_races() {
    for _ in 0..10 {
        publishing_fixed_params();
    }
}

#[test]
fn aborts_and_skips_match_sequential() {
    let mut runner = TestRunner::default();
    let universe = universe(&mut runner, 100);
    let transaction_gen = gen_transactions(&mut runner, &universe, 500, plain());
    let picks = draw(&mut runner, 10);
    let aborts: Vec<usize> = picks[0..5].iter().map(|x| *x as usize).collect();
    let skips: Vec<usize> = picks[5..10].iter().map(|x| *x as usize).collect();
    run_transactions(&universe, transaction_gen, aborts, skips, 2, (false, false));
}
