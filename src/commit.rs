use vstd::prelude::*;

use crate::txn::{
    apply_delta, apply_deltas, apply_output, apply_writes, block_wf, delta_keys, expected_output,
    lookup, observe, read_keys, seq_output, seq_state, txn_wf, write_keys, OutputView, Transaction,
    TxnOutput,
};
use crate::types::{delta_apply, DeltaOp, Incarnation, StorageKey, TxnIndex, Value, WriteOp};
use crate::versioned_map::{resolve_col, MvEntry, Resolution, VersionedMap};

verus! {

/// The last plain write to `k` in a write list.
pub open spec fn write_effect(ws: Seq<(StorageKey, WriteOp)>, k: StorageKey) -> Option<WriteOp>
    decreases ws.len(),
{
    if ws.len() == 0 {
        None
    } else if ws.last().0 == k {
        Some(ws.last().1)
    } else {
        write_effect(ws.drop_last(), k)
    }
}

/// The last delta to `k` in a delta list.
pub open spec fn delta_effect(ds: Seq<(StorageKey, DeltaOp)>, k: StorageKey) -> Option<DeltaOp>
    decreases ds.len(),
{
    if ds.len() == 0 {
        None
    } else if ds.last().0 == k {
        Some(ds.last().1)
    } else {
        delta_effect(ds.drop_last(), k)
    }
}

pub open spec fn write_value(w: WriteOp) -> Value {
    match w {
        WriteOp::Write(v) => Value::Write(v),
        WriteOp::Delete => Value::Delete,
    }
}

/// What an output leaves in the versioned map for key `k`.
pub open spec fn out_value(o: OutputView, k: StorageKey) -> Option<Value> {
    match o {
        OutputView::Success { writes, deltas, .. } => match write_effect(writes, k) {
            Some(w) => Some(write_value(w)),
            None => match delta_effect(deltas, k) {
                Some(op) => Some(Value::Delta(op)),
                None => None,
            },
        },
        _ => None,
    }
}

/// A map slot holds exactly the value `v`, as a finished (non-estimate) write.
pub open spec fn slot_holds(e: Option<MvEntry>, v: Option<Value>) -> bool {
    match v {
        None => e is None,
        Some(val) => e is Some && !e.unwrap().estimate && e.unwrap().value == val,
    }
}

/// The slots of every transaction below `i` hold what its sequential output
/// writes.
pub open spec fn committed_below(
    mv: VersionedMap,
    base: Map<StorageKey, u128>,
    txns: Seq<Transaction>,
    i: int,
) -> bool {
    forall|k: StorageKey, t: int|
        0 <= t < i ==> slot_holds(#[trigger] mv.entry(k, t), out_value(seq_output(base, txns, t as nat), k))
}

proof fn lemma_write_effect_in(ws: Seq<(StorageKey, WriteOp)>, k: StorageKey)
    requires
        write_effect(ws, k) is Some,
    ensures
        exists|p: int| 0 <= p < ws.len() && (#[trigger] ws[p]).0 == k,
    decreases ws.len(),
{
    if ws.last().0 == k {
        assert(ws[ws.len() - 1].0 == k);
    } else {
        lemma_write_effect_in(ws.drop_last(), k);
        let p = choose|p: int| 0 <= p < ws.drop_last().len() && (#[trigger] ws.drop_last()[p]).0 == k;
        assert(ws[p].0 == k);
    }
}

proof fn lemma_delta_effect_in(ds: Seq<(StorageKey, DeltaOp)>, k: StorageKey)
    requires
        delta_effect(ds, k) is Some,
    ensures
        exists|p: int| 0 <= p < ds.len() && #[trigger] ds[p] == (k, delta_effect(ds, k).unwrap()),
    decreases ds.len(),
{
    if ds.last().0 == k {
        assert(ds[ds.len() - 1] == (k, delta_effect(ds, k).unwrap()));
    } else {
        lemma_delta_effect_in(ds.drop_last(), k);
        let p = choose|p: int|
            0 <= p < ds.drop_last().len() && #[trigger] ds.drop_last()[p] == (
                k,
                delta_effect(ds.drop_last(), k).unwrap(),
            );
        assert(ds[p] == ds.drop_last()[p]);
    }
}

proof fn lemma_delta_effect_none(ds: Seq<(StorageKey, DeltaOp)>, k: StorageKey)
    requires
        forall|p: int| 0 <= p < ds.len() ==> (#[trigger] ds[p]).0 != k,
    ensures
        delta_effect(ds, k) is None,
    decreases ds.len(),
{
    if ds.len() > 0 {
        assert(ds[ds.len() - 1].0 != k);
        lemma_delta_effect_none(ds.drop_last(), k);
    }
}

proof fn lemma_apply_writes_at(st: Map<StorageKey, u128>, ws: Seq<(StorageKey, WriteOp)>, k: StorageKey)
    ensures
        lookup(apply_writes(st, ws), k) == match write_effect(ws, k) {
            Some(WriteOp::Write(v)) => Some(v),
            Some(WriteOp::Delete) => None,
            None => lookup(st, k),
        },
    decreases ws.len(),
{
    if ws.len() > 0 {
        lemma_apply_writes_at(st, ws.drop_last(), k);
    }
}

proof fn lemma_apply_deltas_untouched(st: Map<StorageKey, u128>, ds: Seq<(StorageKey, DeltaOp)>, k: StorageKey)
    requires
        delta_effect(ds, k) is None,
    ensures
        lookup(apply_deltas(st, ds), k) == lookup(st, k),
    decreases ds.len(),
{
    if ds.len() > 0 {
        lemma_apply_deltas_untouched(st, ds.drop_last(), k);
    }
}

proof fn lemma_apply_deltas_at(st: Map<StorageKey, u128>, ds: Seq<(StorageKey, DeltaOp)>, k: StorageKey)
    requires
        delta_keys(ds).no_duplicates(),
        delta_effect(ds, k) is Some,
    ensures
        lookup(apply_deltas(st, ds), k) == lookup(apply_delta(st, (k, delta_effect(ds, k).unwrap())), k),
    decreases ds.len(),
{
    let dl = ds.drop_last();
    assert(delta_keys(dl) =~= delta_keys(ds).drop_last());
    if ds.last().0 == k {
        assert forall|p: int| 0 <= p < dl.len() implies (#[trigger] dl[p]).0 != k by {
            assert(delta_keys(ds)[p] == dl[p].0);
            assert(delta_keys(ds)[ds.len() - 1] == k);
        }
        lemma_delta_effect_none(dl, k);
        lemma_apply_deltas_untouched(st, dl, k);
    } else {
        lemma_apply_deltas_at(st, dl, k);
    }
}

/// How the value of one key changes when a transaction with output value `v`
/// for it commits.
pub open spec fn step(v: Option<Value>, x: Option<u128>) -> Option<u128> {
    match v {
        None => x,
        Some(Value::Write(w)) => Some(w),
        Some(Value::Delete) => None,
        Some(Value::Delta(op)) => match x {
            Some(b) => match delta_apply(op, b) {
                Some(r) => Some(r),
                None => x,
            },
            None => x,
        },
    }
}

/// One sequential step, seen from a single key: the key's new value follows
/// from its old value and what the output writes to it; a delta that
/// committed applied without failure.
pub proof fn lemma_step_at(st: Map<StorageKey, u128>, txn: Transaction, k: StorageKey)
    requires
        txn_wf(txn),
    ensures
        ({
            let o = expected_output(txn, observe(st, read_keys(txn)));
            &&& lookup(apply_output(st, o), k) == step(out_value(o, k), lookup(st, k))
            &&& out_value(o, k) matches Some(Value::Delta(op)) ==> lookup(st, k) is Some
                && delta_apply(op, lookup(st, k).unwrap()) is Some
        }),
{
    let obs = observe(st, read_keys(txn));
    let o = expected_output(txn, obs);
    if let Transaction::Write { reads, writes, deltas } = txn {
        if o is Success {
            let ws = writes@;
            let ds = deltas@;
            let all = write_keys(ws) + delta_keys(ds);
            lemma_apply_writes_at(st, ws, k);
            match write_effect(ws, k) {
                Some(w) => {
                    lemma_write_effect_in(ws, k);
                    let p = choose|p: int| 0 <= p < ws.len() && (#[trigger] ws[p]).0 == k;
                    assert forall|q: int| 0 <= q < ds.len() implies (#[trigger] ds[q]).0 != k by {
                        assert(all[p] == k);
                        assert(all[ws.len() + q] == ds[q].0);
                    }
                    lemma_delta_effect_none(ds, k);
                    lemma_apply_deltas_untouched(apply_writes(st, ws), ds, k);
                },
                None => {
                    match delta_effect(ds, k) {
                        Some(op) => {
                            assert(delta_keys(ds) =~= all.subrange(
                                ws.len() as int,
                                all.len() as int,
                            ));
                            lemma_apply_deltas_at(apply_writes(st, ws), ds, k);
                            lemma_delta_effect_in(ds, k);
                            let p = choose|p: int| 0 <= p < ds.len() && #[trigger] ds[p] == (k, op);
                            let sk = obs.skip(reads@.len() as int);
                            assert(sk[p] == obs[reads@.len() + p]);
                            assert(read_keys(txn)[reads@.len() + p] == k);
                            assert(sk[p] == lookup(st, k));
                        },
                        None => {
                            lemma_apply_deltas_untouched(apply_writes(st, ws), ds, k);
                        },
                    }
                },
            }
        }
    }
}

/// A resolution only ever waits on a transaction below the reader.
pub proof fn lemma_resolve_dependency_below(col: Seq<Option<MvEntry>>, base: Option<u128>, t: int)
    requires
        resolve_col(col, base, t) is Dependency,
    ensures
        0 <= resolve_col(col, base, t)->Dependency_0 < t,
    decreases t,
{
    if t > 0 {
        match col[t - 1] {
            None => lemma_resolve_dependency_below(col, base, t - 1),
            Some(e) => {
                if !e.estimate && e.value is Delta {
                    lemma_resolve_dependency_below(col, base, t - 1);
                }
            },
        }
    }
}

/// Resolving any key at `i` in a map whose slots below `i` are committed
/// gives the key's value in the sequential state before `i`.
pub proof fn lemma_resolve_committed(
    mv: VersionedMap,
    base: Map<StorageKey, u128>,
    txns: Seq<Transaction>,
    i: int,
    k: StorageKey,
)
    requires
        mv.wf(),
        0 <= i <= mv.len_spec(),
        i <= txns.len(),
        block_wf(txns),
        committed_below(mv, base, txns, i),
    ensures
        resolve_col(mv.column(k), lookup(base, k), i) == Resolution::Value(
            lookup(seq_state(base, txns, i as nat), k),
        ),
    decreases i,
{
    broadcast use VersionedMap::lemma_column_len;
    if i > 0 {
        let t = i - 1;
        assert(committed_below(mv, base, txns, t));
        lemma_resolve_committed(mv, base, txns, t, k);
        let st = seq_state(base, txns, t as nat);
        assert(txn_wf(txns[t]));
        lemma_step_at(st, txns[t], k);
        assert(slot_holds(mv.entry(k, t), out_value(seq_output(base, txns, t as nat), k)));
        assert(seq_state(base, txns, i as nat) == apply_output(st, seq_output(base, txns, t as nat)));
    }
}

/// Every read key resolves at `i` to its sequential value.
pub proof fn lemma_observe_committed(
    mv: VersionedMap,
    base: Map<StorageKey, u128>,
    txns: Seq<Transaction>,
    i: int,
)
    requires
        mv.wf(),
        0 <= i < txns.len(),
        i <= mv.len_spec(),
        block_wf(txns),
        committed_below(mv, base, txns, i),
    ensures
        forall|k: StorageKey|
            #[trigger] resolve_col(mv.column(k), lookup(base, k), i) == Resolution::Value(
                lookup(seq_state(base, txns, i as nat), k),
            ),
{
    assert forall|k: StorageKey|
        #[trigger] resolve_col(mv.column(k), lookup(base, k), i) == Resolution::Value(
            lookup(seq_state(base, txns, i as nat), k),
        ) by {
        lemma_resolve_committed(mv, base, txns, i, k);
    }
}

/// Replaces the slots of transaction `t` by exactly what `out` writes.
pub fn commit_slots(mv: &mut VersionedMap, t: TxnIndex, inc: Incarnation, out: &TxnOutput)
    requires
        old(mv).wf(),
        t < old(mv).len_spec(),
        out matches TxnOutput::Success { writes, deltas, .. } ==> (write_keys(writes@)
            + delta_keys(deltas@)).no_duplicates(),
    ensures
        final(mv).wf(),
        final(mv).len_spec() == old(mv).len_spec(),
        forall|k: StorageKey| #[trigger] slot_holds(final(mv).entry(k, t as int), out_value(out@, k)),
        forall|k: StorageKey, x: int|
            0 <= x < old(mv).len_spec() && x != t ==> #[trigger] final(mv).entry(k, x) == old(
                mv,
            ).entry(k, x),
{
    broadcast use VersionedMap::lemma_column_len;

    mv.clear_txn(t);
    let ghost cleared = *mv;
    match out {
        TxnOutput::Success { writes, deltas, .. } => {
            let ghost ws = writes@;
            let ghost ds = deltas@;
            let mut p: usize = 0;
            while p < writes.len()
                invariant
                    mv.wf(),
                    mv.len_spec() == old(mv).len_spec(),
                    t < mv.len_spec(),
                    p <= ws.len(),
                    ws == writes@,
                    forall|k: StorageKey|
                        #[trigger] mv.entry(k, t as int) == match write_effect(ws.take(p as int), k) {
                            Some(w) => Some(MvEntry { incarnation: inc, value: write_value(w), estimate: false }),
                            None => None,
                        },
                    forall|k: StorageKey, x: int|
                        0 <= x < mv.len_spec() && x != t ==> #[trigger] mv.entry(k, x) == old(
                            mv,
                        ).entry(k, x),
                decreases ws.len() - p,
            {
                let (k, w) = writes[p];
                let v = match w {
                    WriteOp::Write(x) => Value::Write(x),
                    WriteOp::Delete => Value::Delete,
                };
                let ghost before = *mv;
                proof {
                    before.lemma_column_len(k);
                    assert(before.entry(k, t as int) == match write_effect(ws.take(p as int), k) {
                        Some(w) => Some(MvEntry { incarnation: inc, value: write_value(w), estimate: false }),
                        None => None,
                    });
                }
                mv.write(k, t, inc, v);
                proof {
                    assert(ws.take(p + 1).drop_last() =~= ws.take(p as int));
                    assert(ws.take(p + 1).last() == (k, w));
                    assert forall|k2: StorageKey| #[trigger] mv.entry(k2, t as int) == match write_effect(ws.take(p + 1), k2) {
                        Some(w) => Some(MvEntry { incarnation: inc, value: write_value(w), estimate: false }),
                        None => None,
                    } by {
                        before.lemma_column_len(k2);
                        mv.lemma_column_len(k2);
                        assert(before.entry(k2, t as int) == match write_effect(ws.take(p as int), k2) {
                            Some(w) => Some(MvEntry { incarnation: inc, value: write_value(w), estimate: false }),
                            None => None,
                        });
                    }
                    assert forall|k2: StorageKey, x: int| 0 <= x < mv.len_spec() && x != t implies #[trigger] mv.entry(k2, x)
                        == old(mv).entry(k2, x) by {
                        before.lemma_column_len(k2);
                        mv.lemma_column_len(k2);
                        assert(mv.entry(k2, x) == before.entry(k2, x));
                    }
                }
                p = p + 1;
            }
            assert(ws.take(ws.len() as int) =~= ws);
            let mut q: usize = 0;
            while q < deltas.len()
                invariant
                    mv.wf(),
                    mv.len_spec() == old(mv).len_spec(),
                    t < mv.len_spec(),
                    q <= ds.len(),
                    ws == writes@,
                    ds == deltas@,
                    (write_keys(ws) + delta_keys(ds)).no_duplicates(),
                    forall|k: StorageKey|
                        #[trigger] mv.entry(k, t as int) == match write_effect(ws, k) {
                            Some(w) => Some(MvEntry { incarnation: inc, value: write_value(w), estimate: false }),
                            None => match delta_effect(ds.take(q as int), k) {
                                Some(op) => Some(MvEntry { incarnation: inc, value: Value::Delta(op), estimate: false }),
                                None => None,
                            },
                        },
                    forall|k: StorageKey, x: int|
                        0 <= x < mv.len_spec() && x != t ==> #[trigger] mv.entry(k, x) == old(
                            mv,
                        ).entry(k, x),
                decreases ds.len() - q,
            {
                let (k, op) = deltas[q];
                let ghost before = *mv;
                proof {
                    let all = write_keys(ws) + delta_keys(ds);
                    if write_effect(ws, k) is Some {
                        lemma_write_effect_in(ws, k);
                        let p = choose|p: int| 0 <= p < ws.len() && (#[trigger] ws[p]).0 == k;
                        assert(all[p] == k);
                        assert(all[ws.len() + q] == k);
                    }
                    assert forall|j: int| 0 <= j < q implies (#[trigger] ds.take(q as int)[j]).0 != k by {
                        assert(all[ws.len() + j] == ds[j].0);
                        assert(all[ws.len() + q] == k);
                    }
                    lemma_delta_effect_none(ds.take(q as int), k);
                    before.lemma_column_len(k);
                    assert(before.entry(k, t as int) is None);
                }
                mv.write(k, t, inc, Value::Delta(op));
                proof {
                    assert(ds.take(q + 1).drop_last() =~= ds.take(q as int));
                    assert(ds.take(q + 1).last() == (k, op));
                    assert forall|k2: StorageKey| #[trigger] mv.entry(k2, t as int) == match write_effect(ws, k2) {
                        Some(w) => Some(MvEntry { incarnation: inc, value: write_value(w), estimate: false }),
                        None => match delta_effect(ds.take(q + 1), k2) {
                            Some(op) => Some(MvEntry { incarnation: inc, value: Value::Delta(op), estimate: false }),
                            None => None,
                        },
                    } by {
                        before.lemma_column_len(k2);
                        mv.lemma_column_len(k2);
                        assert(before.entry(k2, t as int) == match write_effect(ws, k2) {
                            Some(w) => Some(MvEntry { incarnation: inc, value: write_value(w), estimate: false }),
                            None => match delta_effect(ds.take(q as int), k2) {
                                Some(op) => Some(MvEntry { incarnation: inc, value: Value::Delta(op), estimate: false }),
                                None => None,
                            },
                        });
                    }
                    assert forall|k2: StorageKey, x: int| 0 <= x < mv.len_spec() && x != t implies #[trigger] mv.entry(k2, x)
                        == old(mv).entry(k2, x) by {
                        before.lemma_column_len(k2);
                        mv.lemma_column_len(k2);
                        assert(mv.entry(k2, x) == before.entry(k2, x));
                    }
                }
                q = q + 1;
            }
            assert(ds.take(ds.len() as int) =~= ds);
        },
        _ => {},
    }
}

} // verus!
