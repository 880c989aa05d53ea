use vstd::prelude::*;

use crate::txn::{write_keys, OutputView, TxnOutput};
use crate::types::{delta_apply, DeltaOp, StorageKey, TxnIndex};

verus! {

/// The deltas of transaction `t`, tagged with its index.
pub open spec fn tagged(t: int, ds: Seq<(StorageKey, DeltaOp)>) -> Seq<(TxnIndex, StorageKey, DeltaOp)> {
    ds.map_values(|d: (StorageKey, DeltaOp)| (t as usize, d.0, d.1))
}

/// All deltas of a sequence of outputs, in transaction order.
pub open spec fn delta_entries(outs: Seq<OutputView>) -> Seq<(TxnIndex, StorageKey, DeltaOp)>
    decreases outs.len(),
{
    if outs.len() == 0 {
        Seq::empty()
    } else {
        delta_entries(outs.drop_last()) + match outs.last() {
            OutputView::Success { deltas, .. } => tagged(outs.len() - 1, deltas),
            _ => Seq::empty(),
        }
    }
}

/// All keys that a sequence of outputs writes plainly (store or delete).
pub open spec fn plain_keys(outs: Seq<OutputView>) -> Seq<StorageKey>
    decreases outs.len(),
{
    if outs.len() == 0 {
        Seq::empty()
    } else {
        plain_keys(outs.drop_last()) + match outs.last() {
            OutputView::Success { writes, .. } => write_keys(writes),
            _ => Seq::empty(),
        }
    }
}

pub open spec fn views(outs: Seq<TxnOutput>) -> Seq<OutputView> {
    outs.map_values(|o: TxnOutput| o@)
}

/// Folds the deltas to `k` of `es`, in order, starting from `base`. A delta
/// that would overflow its limit or go below zero is skipped and its
/// transaction reported.
pub open spec fn fold_key(es: Seq<(TxnIndex, StorageKey, DeltaOp)>, k: StorageKey, base: u128) -> (
    u128,
    Seq<TxnIndex>,
)
    decreases es.len(),
{
    if es.len() == 0 {
        (base, Seq::empty())
    } else {
        let (v, f) = fold_key(es.drop_last(), k, base);
        let e = es.last();
        if e.1 == k {
            match delta_apply(e.2, v) {
                Some(v2) => (v2, f),
                None => (v, f.push(e.0)),
            }
        } else {
            (v, f)
        }
    }
}

/// The result of folding one aggregator key: its final value and the
/// transactions whose delta failed against it.
#[derive(Clone, Debug, PartialEq, Eq)]
pub struct DeltaFold {
    pub value: u128,
    pub failed_txns: Vec<TxnIndex>,
}

/// The deltas of a committed block, to be resolved once the base values of
/// the aggregator keys are known.
#[derive(Debug)]
pub struct DeltaResolver {
    entries: Vec<(TxnIndex, StorageKey, DeltaOp)>,
    written: Vec<StorageKey>,
}

impl DeltaResolver {
    pub closed spec fn entries_spec(&self) -> Seq<(TxnIndex, StorageKey, DeltaOp)> {
        self.entries@
    }

    pub closed spec fn written_spec(&self) -> Seq<StorageKey> {
        self.written@
    }

    /// The resolver holds the deltas and plain writes of `outs`.
    pub open spec fn built_from(&self, outs: Seq<TxnOutput>) -> bool {
        &&& self.entries_spec() == delta_entries(views(outs))
        &&& self.written_spec() == plain_keys(views(outs))
    }

    pub fn from_outputs(outs: &Vec<TxnOutput>) -> (r: DeltaResolver)
        ensures
            r.built_from(outs@),
    {
        let ghost vs = views(outs@);
        let mut entries: Vec<(TxnIndex, StorageKey, DeltaOp)> = Vec::new();
        let mut written: Vec<StorageKey> = Vec::new();
        let mut i: usize = 0;
        while i < outs.len()
            invariant
                i <= outs@.len(),
                vs == views(outs@),
                entries@ == delta_entries(vs.take(i as int)),
                written@ == plain_keys(vs.take(i as int)),
            decreases outs@.len() - i,
        {
            let ghost prev_e = entries@;
            let ghost prev_w = written@;
            assert(vs.take(i + 1).drop_last() =~= vs.take(i as int));
            assert(vs.take(i + 1).last() == outs@[i as int]@);
            match &outs[i] {
                TxnOutput::Success { writes, deltas, .. } => {
                    let mut q: usize = 0;
                    while q < deltas.len()
                        invariant
                            q <= deltas@.len(),
                            entries@ == prev_e + tagged(i as int, deltas@).take(q as int),
                        decreases deltas@.len() - q,
                    {
                        entries.push((i, deltas[q].0, deltas[q].1));
                        q = q + 1;
                        assert(tagged(i as int, deltas@).take(q as int) =~= tagged(i as int, deltas@).take(
                            q - 1,
                        ).push((i, deltas@[q - 1].0, deltas@[q - 1].1)));
                        assert(entries@ =~= prev_e + tagged(i as int, deltas@).take(q as int));
                    }
                    assert(tagged(i as int, deltas@).take(deltas@.len() as int) =~= tagged(
                        i as int,
                        deltas@,
                    ));
                    let mut p: usize = 0;
                    while p < writes.len()
                        invariant
                            p <= writes@.len(),
                            written@ == prev_w + write_keys(writes@).take(p as int),
                        decreases writes@.len() - p,
                    {
                        written.push(writes[p].0);
                        p = p + 1;
                        assert(write_keys(writes@).take(p as int) =~= write_keys(writes@).take(
                            p - 1,
                        ).push(writes@[p - 1].0));
                        assert(written@ =~= prev_w + write_keys(writes@).take(p as int));
                    }
                    assert(write_keys(writes@).take(writes@.len() as int) =~= write_keys(writes@));
                },
                _ => {
                    assert(entries@ =~= prev_e + Seq::<(TxnIndex, StorageKey, DeltaOp)>::empty());
                    assert(written@ =~= prev_w + Seq::<StorageKey>::empty());
                },
            }
            i = i + 1;
        }
        assert(vs.take(outs@.len() as int) =~= vs);
        DeltaResolver { entries, written }
    }

    /// Whether some transaction wrote `k` plainly; such a key is no
    /// aggregator and has no delta fold.
    pub fn is_written(&self, k: StorageKey) -> (r: bool)
        ensures
            r == self.written_spec().contains(k),
    {
        let mut p: usize = 0;
        while p < self.written.len()
            invariant
                p <= self.written@.len(),
                forall|x: int| 0 <= x < p ==> self.written@[x] != k,
            decreases self.written@.len() - p,
        {
            if self.written[p] == k {
                assert(self.written@[p as int] == k);
                return true;
            }
            p = p + 1;
        }
        false
    }

    /// Folds the deltas of aggregator key `k` in transaction order onto
    /// `base`, its value before the block. `None` when the block wrote `k`
    /// plainly.
    pub fn resolve(&self, k: StorageKey, base: u128) -> (r: Option<DeltaFold>)
        ensures
            r is None <==> self.written_spec().contains(k),
            r matches Some(f) ==> (f.value, f.failed_txns@) == fold_key(self.entries_spec(), k, base),
    {
        if self.is_written(k) {
            return None;
        }
        let mut value = base;
        let mut failed: Vec<TxnIndex> = Vec::new();
        let mut p: usize = 0;
        while p < self.entries.len()
            invariant
                p <= self.entries@.len(),
                (value, failed@) == fold_key(self.entries@.take(p as int), k, base),
            decreases self.entries@.len() - p,
        {
            let (t, key, op) = self.entries[p];
            assert(self.entries@.take(p + 1).drop_last() =~= self.entries@.take(p as int));
            if key == k {
                match op.apply_to(value) {
                    Some(v) => {
                        value = v;
                    },
                    None => {
                        failed.push(t);
                    },
                }
            }
            p = p + 1;
        }
        assert(self.entries@.take(self.entries@.len() as int) =~= self.entries@);
        Some(DeltaFold { value, failed_txns: failed })
    }

    /// Resolves each `(key, base)` pair, in order.
    pub fn resolve_all(&self, bases: &Vec<(StorageKey, u128)>) -> (r: Vec<Option<DeltaFold>>)
        ensures
            r@.len() == bases@.len(),
            forall|i: int|
                0 <= i < bases@.len() ==> ((#[trigger] r@[i]) is None <==> self.written_spec().contains(
                    bases@[i].0,
                )) && (r@[i] matches Some(f) ==> (f.value, f.failed_txns@) == fold_key(
                    self.entries_spec(),
                    bases@[i].0,
                    bases@[i].1,
                )),
    {
        let mut r: Vec<Option<DeltaFold>> = Vec::new();
        let mut i: usize = 0;
        while i < bases.len()
            invariant
                i <= bases@.len(),
                r@.len() == i,
                forall|x: int|
                    0 <= x < i ==> ((#[trigger] r@[x]) is None <==> self.written_spec().contains(
                        bases@[x].0,
                    )) && (r@[x] matches Some(f) ==> (f.value, f.failed_txns@) == fold_key(
                        self.entries_spec(),
                        bases@[x].0,
                        bases@[x].1,
                    )),
            decreases bases@.len() - i,
        {
            let f = self.resolve(bases[i].0, bases[i].1);
            r.push(f);
            i = i + 1;
        }
        r
    }
}

} // verus!
