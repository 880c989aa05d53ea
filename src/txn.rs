use vstd::prelude::*;

use crate::types::{delta_apply, DeltaOp, StorageKey, WriteOp};

verus! {

/// A transaction of a block, as the VM task sees it. A `Write` transaction
/// reads `reads`, then stores `writes` and applies `deltas`; the keys of
/// `writes` and `deltas` together form a set (no key twice).
#[derive(Clone, Debug, PartialEq, Eq)]
pub enum Transaction {
    Write {
        reads: Vec<StorageKey>,
        writes: Vec<(StorageKey, WriteOp)>,
        deltas: Vec<(StorageKey, DeltaOp)>,
    },
    Abort,
    SkipRest,
}

/// The output of one transaction. A successful one reports the values its
/// reads observed (`None` for an absent key) along with its write set.
#[derive(Clone, Debug, PartialEq, Eq)]
pub enum TxnOutput {
    Success {
        reads: Vec<Option<u128>>,
        writes: Vec<(StorageKey, WriteOp)>,
        deltas: Vec<(StorageKey, DeltaOp)>,
    },
    Aborted,
    DeltaFailure,
    SkipRest,
}

/// Mathematical form of a transaction output.
pub ghost enum OutputView {
    Success {
        reads: Seq<Option<u128>>,
        writes: Seq<(StorageKey, WriteOp)>,
        deltas: Seq<(StorageKey, DeltaOp)>,
    },
    Aborted,
    DeltaFailure,
    SkipRest,
}

impl View for TxnOutput {
    type V = OutputView;

    open spec fn view(&self) -> OutputView {
        match self {
            TxnOutput::Success { reads, writes, deltas } => OutputView::Success {
                reads: reads@,
                writes: writes@,
                deltas: deltas@,
            },
            TxnOutput::Aborted => OutputView::Aborted,
            TxnOutput::DeltaFailure => OutputView::DeltaFailure,
            TxnOutput::SkipRest => OutputView::SkipRest,
        }
    }
}

pub open spec fn write_keys(ws: Seq<(StorageKey, WriteOp)>) -> Seq<StorageKey> {
    ws.map_values(|w: (StorageKey, WriteOp)| w.0)
}

pub open spec fn delta_keys(ds: Seq<(StorageKey, DeltaOp)>) -> Seq<StorageKey> {
    ds.map_values(|d: (StorageKey, DeltaOp)| d.0)
}

/// The keys whose values the VM observes, in order: the plain reads, then
/// the keys of the deltas (a delta must be checked against its base).
pub open spec fn read_keys(txn: Transaction) -> Seq<StorageKey> {
    match txn {
        Transaction::Write { reads, deltas, .. } => reads@ + delta_keys(deltas@),
        _ => Seq::empty(),
    }
}

/// A transaction is well formed when no key is both written and updated by a
/// delta, or named twice among them.
pub open spec fn txn_wf(txn: Transaction) -> bool {
    match txn {
        Transaction::Write { writes, deltas, .. } => (write_keys(writes@) + delta_keys(
            deltas@,
        )).no_duplicates(),
        _ => true,
    }
}

pub open spec fn block_wf(txns: Seq<Transaction>) -> bool {
    forall|i: int| 0 <= i < txns.len() ==> #[trigger] txn_wf(txns[i])
}

/// Every delta applies to the value observed for its key.
pub open spec fn deltas_apply(ds: Seq<(StorageKey, DeltaOp)>, base: Seq<Option<u128>>) -> bool {
    forall|p: int|
        0 <= p < ds.len() ==> (#[trigger] base[p]).is_some() && delta_apply(
            ds[p].1,
            base[p].unwrap(),
        ).is_some()
}

/// The deterministic VM: the output of `txn` given the values observed for
/// `read_keys(txn)`.
pub open spec fn expected_output(txn: Transaction, obs: Seq<Option<u128>>) -> OutputView {
    match txn {
        Transaction::Write { reads, writes, deltas } => {
            if deltas_apply(deltas@, obs.skip(reads.len() as int)) {
                OutputView::Success {
                    reads: obs.take(reads.len() as int),
                    writes: writes@,
                    deltas: deltas@,
                }
            } else {
                OutputView::DeltaFailure
            }
        },
        Transaction::Abort => OutputView::Aborted,
        Transaction::SkipRest => OutputView::SkipRest,
    }
}

/// The value of `k` in a state, as the VM observes it.
pub open spec fn lookup(state: Map<StorageKey, u128>, k: StorageKey) -> Option<u128> {
    if state.contains_key(k) {
        Some(state[k])
    } else {
        None
    }
}

pub open spec fn observe(state: Map<StorageKey, u128>, keys: Seq<StorageKey>) -> Seq<
    Option<u128>,
> {
    keys.map_values(|k: StorageKey| lookup(state, k))
}

pub open spec fn apply_write(state: Map<StorageKey, u128>, w: (StorageKey, WriteOp)) -> Map<
    StorageKey,
    u128,
> {
    match w.1 {
        WriteOp::Write(v) => state.insert(w.0, v),
        WriteOp::Delete => state.remove(w.0),
    }
}

pub open spec fn apply_writes(state: Map<StorageKey, u128>, ws: Seq<(StorageKey, WriteOp)>) -> Map<
    StorageKey,
    u128,
>
    decreases ws.len(),
{
    if ws.len() == 0 {
        state
    } else {
        apply_write(apply_writes(state, ws.drop_last()), ws.last())
    }
}

pub open spec fn apply_delta(state: Map<StorageKey, u128>, d: (StorageKey, DeltaOp)) -> Map<
    StorageKey,
    u128,
> {
    match lookup(state, d.0) {
        Some(b) => match delta_apply(d.1, b) {
            Some(v) => state.insert(d.0, v),
            None => state,
        },
        None => state,
    }
}

pub open spec fn apply_deltas(state: Map<StorageKey, u128>, ds: Seq<(StorageKey, DeltaOp)>) -> Map<
    StorageKey,
    u128,
>
    decreases ds.len(),
{
    if ds.len() == 0 {
        state
    } else {
        apply_delta(apply_deltas(state, ds.drop_last()), ds.last())
    }
}

/// The state after a transaction with output `o` ran on `state`.
pub open spec fn apply_output(state: Map<StorageKey, u128>, o: OutputView) -> Map<StorageKey, u128> {
    match o {
        OutputView::Success { writes, deltas, .. } => apply_deltas(
            apply_writes(state, writes),
            deltas,
        ),
        _ => state,
    }
}

/// The state that sequential execution of `txns` on `base` has reached
/// before transaction `i`.
pub open spec fn seq_state(base: Map<StorageKey, u128>, txns: Seq<Transaction>, i: nat) -> Map<
    StorageKey,
    u128,
>
    decreases i, 0nat,
{
    if i == 0 {
        base
    } else {
        let prev = seq_state(base, txns, (i - 1) as nat);
        apply_output(prev, seq_output(base, txns, (i - 1) as nat))
    }
}

/// The output of transaction `i` under sequential execution.
pub open spec fn seq_output(base: Map<StorageKey, u128>, txns: Seq<Transaction>, i: nat) -> OutputView
    decreases i, 1nat,
{
    let st = seq_state(base, txns, i);
    expected_output(txns[i as int], observe(st, read_keys(txns[i as int])))
}

pub open spec fn no_skip_before(txns: Seq<Transaction>, n: int) -> bool {
    forall|j: int| 0 <= j < n ==> !(#[trigger] txns[j] is SkipRest)
}

/// The number of outputs of a block: up to and including its first
/// `SkipRest`, or all of it.
pub open spec fn output_len_ok(txns: Seq<Transaction>, len: int) -> bool {
    ||| (len == txns.len() && no_skip_before(txns, len))
    ||| (1 <= len <= txns.len() && txns[len - 1] is SkipRest && no_skip_before(txns, len - 1))
}

/// `outs` are exactly the outputs of sequential execution of `txns` on `base`.
pub open spec fn is_sequential_result(
    base: Map<StorageKey, u128>,
    txns: Seq<Transaction>,
    outs: Seq<TxnOutput>,
) -> bool {
    &&& output_len_ok(txns, outs.len() as int)
    &&& forall|i: int| 0 <= i < outs.len() ==> (#[trigger] outs[i])@ == seq_output(base, txns, i as nat)
}

/// Whether the keys of `txn`'s writes and deltas are all distinct.
pub fn txn_is_well_formed(txn: &Transaction) -> (r: bool)
    ensures
        r == txn_wf(*txn),
{
    match txn {
        Transaction::Write { writes, deltas, .. } => {
            let mut keys: Vec<StorageKey> = Vec::new();
            let mut p: usize = 0;
            while p < writes.len()
                invariant
                    p <= writes@.len(),
                    keys@ == write_keys(writes@).take(p as int),
                decreases writes@.len() - p,
            {
                keys.push(writes[p].0);
                p = p + 1;
                assert(keys@ =~= write_keys(writes@).take(p as int));
            }
            let mut q: usize = 0;
            while q < deltas.len()
                invariant
                    q <= deltas@.len(),
                    keys@ == write_keys(writes@) + delta_keys(deltas@).take(q as int),
                decreases deltas@.len() - q,
            {
                keys.push(deltas[q].0);
                q = q + 1;
                assert(keys@ =~= write_keys(writes@) + delta_keys(deltas@).take(q as int));
            }
            assert(keys@ =~= write_keys(writes@) + delta_keys(deltas@));
            distinct_keys(&keys)
        },
        _ => true,
    }
}

fn distinct_keys(keys: &Vec<StorageKey>) -> (r: bool)
    ensures
        r == keys@.no_duplicates(),
{
    let mut i: usize = 0;
    while i < keys.len()
        invariant
            i <= keys@.len(),
            forall|a: int, b: int| 0 <= a < b < keys@.len() && a < i ==> keys@[a] != keys@[b],
        decreases keys@.len() - i,
    {
        let mut j: usize = i + 1;
        while j < keys.len()
            invariant
                i < keys@.len(),
                i + 1 <= j <= keys@.len(),
                forall|a: int, b: int| 0 <= a < b < keys@.len() && a < i ==> keys@[a] != keys@[b],
                forall|b: int| i < b < j ==> keys@[i as int] != keys@[b],
            decreases keys@.len() - j,
        {
            if keys[i] == keys[j] {
                return false;
            }
            j = j + 1;
        }
        i = i + 1;
    }
    true
}

/// Whether every transaction of the block is well formed.
pub fn block_is_well_formed(txns: &Vec<Transaction>) -> (r: bool)
    ensures
        r == block_wf(txns@),
{
    let mut i: usize = 0;
    while i < txns.len()
        invariant
            i <= txns@.len(),
            forall|x: int| 0 <= x < i ==> #[trigger] txn_wf(txns@[x]),
        decreases txns@.len() - i,
    {
        if !txn_is_well_formed(&txns[i]) {
            return false;
        }
        i = i + 1;
    }
    true
}

pub(crate) fn copy_vec<T: Copy>(v: &Vec<T>) -> (r: Vec<T>)
    ensures
        r@ == v@,
{
    let mut r: Vec<T> = Vec::new();
    let mut i: usize = 0;
    while i < v.len()
        invariant
            i <= v.len(),
            r@ == v@.take(i as int),
        decreases v.len() - i,
    {
        r.push(v[i]);
        i = i + 1;
        assert(r@ =~= v@.take(i as int));
    }
    assert(r@ =~= v@);
    r
}

/// The keys the VM must observe to run `txn`.
pub fn txn_read_keys(txn: &Transaction) -> (r: Vec<StorageKey>)
    ensures
        r@ == read_keys(*txn),
{
    match txn {
        Transaction::Write { reads, deltas, .. } => {
            let mut r = copy_vec(reads);
            let mut i: usize = 0;
            while i < deltas.len()
                invariant
                    i <= deltas.len(),
                    r@ == reads@ + delta_keys(deltas@).take(i as int),
                decreases deltas.len() - i,
            {
                r.push(deltas[i].0);
                i = i + 1;
                assert(delta_keys(deltas@).take(i as int) =~= delta_keys(deltas@).take(
                    (i - 1) as int,
                ).push(deltas@[i - 1].0));
            }
            assert(delta_keys(deltas@).take(deltas.len() as int) =~= delta_keys(deltas@));
            r
        },
        _ => Vec::new(),
    }
}

/// Runs the VM task of `txn` on the values observed for its read keys.
pub fn run_task(txn: &Transaction, obs: &Vec<Option<u128>>) -> (r: TxnOutput)
    requires
        obs@.len() == read_keys(*txn).len(),
    ensures
        r@ == expected_output(*txn, obs@),
{
    match txn {
        Transaction::Write { reads, writes, deltas } => {
            let nr = reads.len();
            let no = obs.len();
            let mut i: usize = 0;
            let mut ok = true;
            while i < deltas.len()
                invariant
                    i <= deltas.len(),
                    nr == reads@.len(),
                    obs@.len() == nr + deltas@.len(),
                    no == obs@.len(),
                    ok == deltas_apply(deltas@.take(i as int), obs@.skip(nr as int)),
                decreases deltas.len() - i,
            {
                let good = match obs[nr + i] {
                    Some(b) => deltas[i].1.apply_to(b).is_some(),
                    None => false,
                };
                assert(obs@.skip(nr as int)[i as int] == obs@[nr + i]);
                if !good {
                    assert(!deltas_apply(deltas@.take(i as int + 1), obs@.skip(nr as int)));
                }
                ok = ok && good;
                i = i + 1;
            }
            assert(deltas@.take(deltas.len() as int) =~= deltas@);
            if ok {
                let mut rs: Vec<Option<u128>> = Vec::new();
                let mut j: usize = 0;
                while j < nr
                    invariant
                        j <= nr,
                        nr <= obs@.len(),
                        rs@ == obs@.take(j as int),
                    decreases nr - j,
                {
                    rs.push(obs[j]);
                    j = j + 1;
                    assert(rs@ =~= obs@.take(j as int));
                }
                TxnOutput::Success { reads: rs, writes: copy_vec(writes), deltas: copy_vec(deltas) }
            } else {
                TxnOutput::DeltaFailure
            }
        },
        Transaction::Abort => TxnOutput::Aborted,
        Transaction::SkipRest => TxnOutput::SkipRest,
    }
}

} // verus!
