use parallel_executor::executor::{has_module_conflict, committed_len, ExecutorError, ParallelTransactionExecutor};
use parallel_executor::scheduler::{Scheduler, SchedulerTask, TxnStatus};
use parallel_executor::sharded::{uniform_partition, ShardedBlockExecutor};
use parallel_executor::speculation::SpeculativeState;
use parallel_executor::storage::Storage;
use parallel_executor::txn::{run_task, txn_read_keys, Transaction, TxnOutput};
use parallel_executor::types::{DeltaOp, PathKind, StorageKey, Value, WriteOp};
use parallel_executor::versioned_map::{ReadResult, Resolution, VersionedMap};

fn key(a: u64) -> StorageKey {
    StorageKey::new(a, PathKind::Data)
}

fn transfer(from: u64, to: u64, amount: u128) -> Transaction {
    Transaction::Write {
        reads: vec![key(from), key(to)],
        writes: vec![(key(from), WriteOp::Write(1000 - amount)), (key(to), WriteOp::Write(amount))],
        deltas: vec![],
    }
}

fn storage_with(entries: &[(u64, u128)]) -> Storage {
    let mut s = Storage::new();
    for (a, v) in entries {
        s.set(key(*a), *v);
    }
    s
}

fn adder(k: StorageKey, amount: u128, limit: u128) -> Transaction {
    Transaction::Write { reads: vec![], writes: vec![], deltas: vec![(k, DeltaOp::addition(amount, limit))] }
}

#[test]
fn empty_block_has_no_outputs() {
    let base = Storage::new();
    let exec = ParallelTransactionExecutor::new(4);
    let (outs, resolver, stats) = exec.execute_with_stats(&base, &vec![]).unwrap();
    assert!(outs.is_empty());
    assert_eq!(stats.executions, 0);
    assert_eq!(stats.validations, 0);
    assert_eq!(resolver.resolve(key(1), 5).unwrap().value, 5);
    assert!(exec.execute_transactions_sequential(&base, &vec![]).is_empty());
}

#[test]
fn single_transaction_runs_once() {
    let base = storage_with(&[(1, 7)]);
    let txns = vec![Transaction::Write { reads: vec![key(1)], writes: vec![(key(2), WriteOp::Write(9))], deltas: vec![] }];
    let exec = ParallelTransactionExecutor::new(4);
    let (outs, _, stats) = exec.execute_with_stats(&base, &txns).unwrap();
    assert_eq!(
        outs,
        vec![TxnOutput::Success { reads: vec![Some(7)], writes: vec![(key(2), WriteOp::Write(9))], deltas: vec![] }]
    );
    assert_eq!(stats.executions, 1);
    assert_eq!(stats.validations, 1);
    assert_eq!(stats.aborts, 0);
    assert_eq!(stats.commit_reexecutions, 0);
}

#[test]
fn skip_rest_truncates_outputs() {
    let base = storage_with(&[(1, 1)]);
    let mut txns: Vec<Transaction> = (0..6).map(|i| transfer(1, 10 + i, 5)).collect();
    txns[3] = Transaction::SkipRest;
    assert_eq!(committed_len(&txns), 4);
    let exec = ParallelTransactionExecutor::new(3);
    let (outs, _) = exec.execute_transactions_parallel(&base, &txns).unwrap();
    assert_eq!(outs.len(), 4);
    assert_eq!(outs[3], TxnOutput::SkipRest);
    assert_eq!(outs, exec.execute_transactions_sequential(&base, &txns));
}

#[test]
fn abort_marks_only_that_transaction() {
    let base = storage_with(&[(1, 1), (2, 2)]);
    let mut txns = vec![
        Transaction::Write { reads: vec![], writes: vec![(key(1), WriteOp::Write(10))], deltas: vec![] },
        Transaction::Write { reads: vec![], writes: vec![(key(1), WriteOp::Write(20))], deltas: vec![] },
        Transaction::Write { reads: vec![key(1)], writes: vec![], deltas: vec![] },
    ];
    txns[1] = Transaction::Abort;
    let exec = ParallelTransactionExecutor::new(3);
    let (outs, _) = exec.execute_transactions_parallel(&base, &txns).unwrap();
    assert_eq!(outs[1], TxnOutput::Aborted);
    // The aborted transaction's write never happened: txn 2 sees txn 0's.
    assert_eq!(outs[2], TxnOutput::Success { reads: vec![Some(10)], writes: vec![], deltas: vec![] });
    assert_eq!(outs.len(), 3);
}

#[test]
fn full_serialization_on_one_key() {
    let base = storage_with(&[(1, 0)]);
    let txns: Vec<Transaction> = (0..50)
        .map(|i| Transaction::Write {
            reads: vec![key(1)],
            writes: vec![(key(1), WriteOp::Write(i as u128 + 1))],
            deltas: vec![],
        })
        .collect();
    for workers in [1, 2, 8] {
        let (outs, _, stats) = ParallelTransactionExecutor::new(workers).execute_with_stats(&base, &txns).unwrap();
        for (i, out) in outs.iter().enumerate() {
            match out {
                TxnOutput::Success { reads, .. } => assert_eq!(reads, &vec![Some(i as u128)]),
                _ => panic!("unexpected output"),
            }
        }
        if workers > 1 {
            assert!(stats.aborts > 0 || stats.executions > 50);
        }
    }
}

#[test]
fn disjoint_keys_never_abort() {
    let base = storage_with(&[]);
    let txns: Vec<Transaction> = (0..10).map(|i| transfer(2 * i, 2 * i + 1, 3)).collect();
    let (outs, _, stats) = ParallelTransactionExecutor::new(10).execute_with_stats(&base, &txns).unwrap();
    assert_eq!(stats.aborts, 0);
    assert_eq!(stats.executions, 10);
    assert_eq!(stats.commit_reexecutions, 0);
    assert_eq!(outs, ParallelTransactionExecutor::new(1).execute_transactions_sequential(&base, &txns));
}

#[test]
fn single_sender_block_matches_sequential() {
    let base = storage_with(&[(0, 1000)]);
    let txns: Vec<Transaction> = (0..10).map(|i| transfer(0, 100 + i, i as u128)).collect();
    let (outs, _, stats) = ParallelTransactionExecutor::new(4).execute_with_stats(&base, &txns).unwrap();
    assert_eq!(outs, ParallelTransactionExecutor::new(1).execute_transactions_sequential(&base, &txns));
    assert!(stats.aborts > 0);
}

#[test]
fn chained_block_matches_sequential() {
    let base = storage_with(&[]);
    let txns: Vec<Transaction> = (0..10).map(|i| transfer(i, (i + 1) % 10, 1)).collect();
    for workers in [2, 4, 10] {
        let (outs, _) = ParallelTransactionExecutor::new(workers).execute_transactions_parallel(&base, &txns).unwrap();
        assert_eq!(outs, ParallelTransactionExecutor::new(1).execute_transactions_sequential(&base, &txns));
    }
}

#[test]
fn module_read_write_conflict_falls_back() {
    let module = StorageKey::new(5, PathKind::Module);
    let mut txns: Vec<Transaction> = (0..10).map(|i| transfer(i, i + 20, 1)).collect();
    txns[3] = Transaction::Write { reads: vec![], writes: vec![(module, WriteOp::Write(1))], deltas: vec![] };
    txns[7] = Transaction::Write { reads: vec![module], writes: vec![], deltas: vec![] };
    assert!(has_module_conflict(&txns));
    let base = storage_with(&[]);
    let exec = ParallelTransactionExecutor::new(4);
    assert_eq!(exec.execute_transactions_parallel(&base, &txns).unwrap_err(), ExecutorError::ModulePathReadWrite);
    let outs = exec.execute_transactions_sequential(&base, &txns);
    assert_eq!(outs.len(), 10);
    assert_eq!(outs[7], TxnOutput::Success { reads: vec![Some(1)], writes: vec![], deltas: vec![] });
    // The sharded dispatcher falls back to sequential execution on its own.
    let sharded = ShardedBlockExecutor::new(1, Some(4));
    assert_eq!(sharded.execute_block(&base, txns), outs);
}

#[test]
fn module_reads_and_writes_on_different_keys_conflict() {
    let txns = vec![
        Transaction::Write { reads: vec![StorageKey::new(1, PathKind::Module)], writes: vec![], deltas: vec![] },
        Transaction::Write {
            reads: vec![],
            writes: vec![(StorageKey::new(2, PathKind::Module), WriteOp::Write(3))],
            deltas: vec![],
        },
    ];
    assert!(has_module_conflict(&txns));
    let base = storage_with(&[]);
    assert_eq!(
        ParallelTransactionExecutor::new(2).execute_transactions_parallel(&base, &txns).unwrap_err(),
        ExecutorError::ModulePathReadWrite
    );
    // Module writes alone are fine.
    assert!(!has_module_conflict(&txns[1..].to_vec()));
}

#[test]
fn aggregator_adds_up() {
    let k = key(77);
    let base = storage_with(&[(77, 0)]);
    let txns: Vec<Transaction> = (0..1000).map(|_| adder(k, 1, u128::MAX)).collect();
    let (outs, resolver) = ParallelTransactionExecutor::new(8).execute_transactions_parallel(&base, &txns).unwrap();
    assert!(outs.iter().all(|o| matches!(o, TxnOutput::Success { .. })));
    let fold = resolver.resolve(k, 0).unwrap();
    assert_eq!(fold.value, 1000);
    assert!(fold.failed_txns.is_empty());
}

#[test]
fn aggregator_overflow_reports_failures() {
    let k = key(77);
    let base = storage_with(&[(77, 0)]);
    let txns: Vec<Transaction> = (0..1000).map(|_| adder(k, 1, 100)).collect();
    let (outs, resolver) = ParallelTransactionExecutor::new(8).execute_transactions_parallel(&base, &txns).unwrap();
    assert!(outs[..100].iter().all(|o| matches!(o, TxnOutput::Success { .. })));
    assert!(outs[100..].iter().all(|o| *o == TxnOutput::DeltaFailure));
    assert_eq!(outs.iter().filter(|o| **o == TxnOutput::DeltaFailure).count(), 900);
    assert_eq!(resolver.resolve(k, 0).unwrap().value, 100);
    // Resolved against a higher base, the same deltas overflow from txn 50 on.
    let fold = resolver.resolve(k, 50).unwrap();
    assert_eq!(fold.value, 100);
    assert_eq!(fold.failed_txns, (50..100).collect::<Vec<usize>>());
}

#[test]
fn resolver_skips_plainly_written_keys() {
    let txns = vec![
        Transaction::Write { reads: vec![], writes: vec![(key(1), WriteOp::Write(5))], deltas: vec![] },
        adder(key(2), 3, 10),
        Transaction::Write {
            reads: vec![],
            writes: vec![],
            deltas: vec![(key(2), DeltaOp::subtraction(4, 10))],
        },
    ];
    let base = storage_with(&[(2, 1)]);
    let (outs, resolver) = ParallelTransactionExecutor::new(2).execute_transactions_parallel(&base, &txns).unwrap();
    assert_eq!(outs[2], TxnOutput::Success { reads: vec![], writes: vec![], deltas: vec![(key(2), DeltaOp::subtraction(4, 10))] });
    assert!(resolver.resolve(key(1), 0).is_none());
    let fold = resolver.resolve(key(2), 9).unwrap();
    assert_eq!(fold.value, 5);
    assert_eq!(fold.failed_txns, vec![1]);
    let all = resolver.resolve_all(&vec![(key(1), 0), (key(2), 2)]);
    assert_eq!(all[0], None);
    assert_eq!(all[1].as_ref().unwrap().value, 1);
}

#[test]
fn later_reader_sees_last_write() {
    let base = storage_with(&[(1, 3)]);
    let txns = vec![
        Transaction::Write { reads: vec![], writes: vec![(key(1), WriteOp::Write(42))], deltas: vec![] },
        Transaction::Write { reads: vec![key(2)], writes: vec![(key(2), WriteOp::Write(1))], deltas: vec![] },
        Transaction::Write { reads: vec![key(1)], writes: vec![], deltas: vec![] },
    ];
    let (outs, _) = ParallelTransactionExecutor::new(3).execute_transactions_parallel(&base, &txns).unwrap();
    assert_eq!(outs[2], TxnOutput::Success { reads: vec![Some(42)], writes: vec![], deltas: vec![] });
}

#[test]
fn delta_failure_on_missing_base() {
    let txn = adder(key(9), 1, 10);
    let out = run_task(&txn, &vec![None]);
    assert_eq!(out, TxnOutput::DeltaFailure);
    assert_eq!(txn_read_keys(&txn), vec![key(9)]);
    assert_eq!(run_task(&txn, &vec![Some(9)]), TxnOutput::Success { reads: vec![], writes: vec![], deltas: vec![(key(9), DeltaOp::addition(1, 10))] });
    assert_eq!(run_task(&txn, &vec![Some(10)]), TxnOutput::DeltaFailure);
}

#[test]
fn delta_arithmetic() {
    assert_eq!(DeltaOp::addition(5, 10).apply_to(5), Some(10));
    assert_eq!(DeltaOp::addition(6, 10).apply_to(5), None);
    assert_eq!(DeltaOp::addition(1, 10).apply_to(11), None);
    assert_eq!(DeltaOp::subtraction(5, 10).apply_to(5), Some(0));
    assert_eq!(DeltaOp::subtraction(6, 10).apply_to(5), None);
    assert_eq!(DeltaOp::addition(1, u128::MAX).apply_to(u128::MAX - 1), Some(u128::MAX));
    assert_eq!(DeltaOp::addition(1, u128::MAX).apply_to(u128::MAX), None);
}

#[test]
fn storage_last_write_wins() {
    let mut s = Storage::new();
    s.set(key(1), 5);
    s.set(key(1), 6);
    s.set(key(2), 7);
    s.remove(key(2));
    assert_eq!(s.get(key(1)), Some(6));
    assert_eq!(s.get(key(2)), None);
    assert_eq!(s.get(key(3)), None);
    assert_eq!(s.copy().observe_keys(&vec![key(2), key(1)]), vec![None, Some(6)]);
    s.apply(&TxnOutput::Success {
        reads: vec![],
        writes: vec![(key(1), WriteOp::Delete)],
        deltas: vec![(key(4), DeltaOp::addition(1, 5))],
    });
    assert_eq!(s.get(key(1)), None);
    assert_eq!(s.get(key(4)), None);
}

#[test]
fn versioned_map_reads_below() {
    let mut mv = VersionedMap::new(5);
    assert_eq!(mv.read(key(1), 3), ReadResult::NotFound);
    assert!(mv.write(key(1), 1, 0, Value::Write(10)));
    assert!(mv.write(key(1), 2, 0, Value::Delta(DeltaOp::addition(5, 100))));
    assert_eq!(mv.read(key(1), 1), ReadResult::NotFound);
    assert_eq!(mv.read(key(1), 2), ReadResult::Versioned(1, 0, Value::Write(10)));
    assert_eq!(mv.resolve(key(1), 4, Some(1)), Resolution::Value(Some(15)));
    assert_eq!(mv.resolve(key(1), 1, Some(1)), Resolution::Value(Some(1)));
    mv.mark_estimate(key(1), 1);
    assert_eq!(mv.read(key(1), 2), ReadResult::Dependency(1));
    assert_eq!(mv.resolve(key(1), 4, Some(1)), Resolution::Dependency(1));
    // A stale incarnation cannot overwrite a newer one.
    assert!(mv.write(key(1), 1, 3, Value::Write(11)));
    assert!(!mv.write(key(1), 1, 2, Value::Write(12)));
    assert_eq!(mv.read(key(1), 2), ReadResult::Versioned(1, 3, Value::Write(11)));
    mv.delete_write(key(1), 1);
    assert_eq!(mv.resolve(key(1), 4, None), Resolution::DeltaFailure);
    assert_eq!(mv.resolve(key(1), 4, Some(99)), Resolution::DeltaFailure);
    assert_eq!(mv.resolve(key(1), 4, Some(90)), Resolution::Value(Some(95)));
}

#[test]
fn scheduler_hands_out_in_order() {
    let mut s = Scheduler::new(2);
    assert_eq!(s.next_task(), SchedulerTask::ExecutionTask(0, 0));
    assert_eq!(s.next_task(), SchedulerTask::ExecutionTask(1, 0));
    assert_eq!(s.next_task(), SchedulerTask::NoTask);
    assert_eq!(s.finish_execution(0, 0, true), None);
    assert_eq!(s.status_of(0), TxnStatus::Executed(0));
    assert_eq!(s.next_task(), SchedulerTask::ValidationTask(0, 0, 0));
    // A failed validation aborts and bumps the incarnation.
    assert!(s.finish_validation(0, 0, false));
    assert_eq!(s.status_of(0), TxnStatus::ReadyToExecute(1));
    assert_eq!(s.next_task(), SchedulerTask::ExecutionTask(0, 1));
    // Txn 1 waits on txn 0 and resumes with its next incarnation.
    assert!(s.add_dependency(1, 0, 0));
    assert_eq!(s.status_of(1), TxnStatus::Suspended(0));
    assert_eq!(s.finish_execution(0, 1, false), Some(SchedulerTask::ValidationTask(0, 1, 1)));
    assert_eq!(s.status_of(1), TxnStatus::ReadyToExecute(1));
    assert!(!s.done());
}

#[test]
fn uniform_partition_covers_block() {
    let txns: Vec<Transaction> = (0..10).map(|i| transfer(i, i + 100, 1)).collect();
    let parts = uniform_partition(txns.clone(), 3);
    assert_eq!(parts.iter().map(|p| p.len()).collect::<Vec<_>>(), vec![4, 4, 2]);
    assert_eq!(parts.concat(), txns);
    let parts = uniform_partition(txns.clone(), 12);
    assert_eq!(parts.len(), 12);
    assert_eq!(parts.concat(), txns);
}

#[test]
fn sharded_executor_concatenates_in_order() {
    let base = storage_with(&[]);
    let txns: Vec<Transaction> = (0..9).map(|i| transfer(2 * i, 2 * i + 1, 2)).collect();
    let sharded = ShardedBlockExecutor::new(3, Some(2));
    assert_eq!(sharded.num_executor_shards(), 3);
    assert_eq!(sharded.num_threads_per_executor(), 2);
    let outs = sharded.execute_block(&base, txns.clone());
    assert_eq!(outs, ParallelTransactionExecutor::new(1).execute_transactions_sequential(&base, &txns));
}

#[test]
fn sharded_executor_default_threads() {
    let cpus = num_cpus::get();
    let sharded = ShardedBlockExecutor::new(2, None);
    assert_eq!(sharded.num_threads_per_executor(), (cpus + 1) / 2);
    assert!(sharded.num_threads_per_executor() >= 1);
    let single = ShardedBlockExecutor::new(1, None);
    assert_eq!(single.num_threads_per_executor(), cpus);
}

/// A random block over `num_keys` keys, from a fixed seed.
fn random_block(seed: u64, num_txns: usize, num_keys: u64) -> Vec<Transaction> {
    let mut x = seed;
    let mut next = move || {
        x = x.wrapping_mul(6364136223846793005).wrapping_add(1442695040888963407);
        x >> 17
    };
    (0..num_txns)
        .map(|_| {
            let reads: Vec<StorageKey> = (0..next() % 4).map(|_| key(next() % num_keys)).collect();
            let mut writes: Vec<(StorageKey, WriteOp)> = Vec::new();
            for _ in 0..next() % 3 {
                let k = key(next() % num_keys);
                if writes.iter().all(|(w, _)| *w != k) {
                    writes.push((k, WriteOp::Write(next() as u128)));
                }
            }
            Transaction::Write { reads, writes, deltas: vec![] }
        })
        .collect()
}

#[test]
fn speculation_alone_reaches_the_sequential_result() {
    for seed in 1..6 {
        let txns = random_block(seed, 300, 20);
        let base = storage_with(&[(0, 1), (1, 2), (2, 3)]);
        let expected = ParallelTransactionExecutor::new(1).execute_transactions_sequential(&base, &txns);
        for workers in [2, 4, 16] {
            let (outs, _, stats) = ParallelTransactionExecutor::new(workers).execute_with_stats(&base, &txns).unwrap();
            assert_eq!(outs, expected);
            assert_eq!(stats.commit_reexecutions, 0);
        }
    }
}

#[test]
fn any_worker_schedule_commits_the_sequential_result() {
    for seed in 1..4 {
        let txns = random_block(seed, 120, 8);
        let base = storage_with(&[(0, 5), (3, 9)]);
        let expected = ParallelTransactionExecutor::new(1).execute_transactions_sequential(&base, &txns);
        let mut state = SpeculativeState::new(&txns);
        let mut tasks = vec![SchedulerTask::NoTask; 5];
        for _ in 0..400 {
            if state.should_stop() {
                break;
            }
            for task in tasks.iter_mut() {
                if *task == SchedulerTask::NoTask {
                    *task = state.next_task();
                }
            }
            let results: Vec<_> = tasks.iter().map(|t| state.perform(&base, *t)).collect();
            // Hand the results back last worker first.
            for (w, result) in results.into_iter().enumerate().rev() {
                tasks[w] = state.apply(tasks[w], result);
            }
        }
        assert_eq!(state.commit(&base), expected);
    }
}
