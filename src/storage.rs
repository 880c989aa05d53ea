use vstd::prelude::*;

use crate::txn::{apply_delta, apply_deltas, apply_output, apply_write, apply_writes, lookup, observe, TxnOutput};
use crate::types::{DeltaOp, StorageKey, WriteOp};

verus! {

/// The map that a log of updates describes: each `(k, Some(v))` stores `v`
/// at `k`, each `(k, None)` removes `k`, later entries winning.
pub open spec fn log_map(s: Seq<(StorageKey, Option<u128>)>) -> Map<StorageKey, u128>
    decreases s.len(),
{
    if s.len() == 0 {
        Map::empty()
    } else {
        let m = log_map(s.drop_last());
        match s.last().1 {
            Some(v) => m.insert(s.last().0, v),
            None => m.remove(s.last().0),
        }
    }
}

proof fn lemma_log_lookup_prefix(s: Seq<(StorageKey, Option<u128>)>, i: int, k: StorageKey)
    requires
        0 <= i <= s.len(),
        forall|j: int| i <= j < s.len() ==> (#[trigger] s[j]).0 != k,
    ensures
        lookup(log_map(s), k) == lookup(log_map(s.take(i)), k),
    decreases s.len() - i,
{
    if i < s.len() {
        let t = s.take(i + 1);
        assert(t.drop_last() =~= s.take(i));
        assert(t.last() == s[i]);
        lemma_log_lookup_prefix(s, i + 1, k);
    } else {
        assert(s.take(i) =~= s);
    }
}

/// A key-value store: the base storage a block runs on, and the state that
/// sequential execution carries from one transaction to the next.
pub struct Storage {
    log: Vec<(StorageKey, Option<u128>)>,
}

impl View for Storage {
    type V = Map<StorageKey, u128>;

    closed spec fn view(&self) -> Map<StorageKey, u128> {
        log_map(self.log@)
    }
}

impl Storage {
    pub fn new() -> (r: Storage)
        ensures
            r@ == Map::<StorageKey, u128>::empty(),
    {
        Storage { log: Vec::new() }
    }

    pub fn set(&mut self, k: StorageKey, v: u128)
        ensures
            final(self)@ == old(self)@.insert(k, v),
    {
        self.log.push((k, Some(v)));
        assert(self.log@.drop_last() =~= old(self).log@);
    }

    pub fn remove(&mut self, k: StorageKey)
        ensures
            final(self)@ == old(self)@.remove(k),
    {
        self.log.push((k, None));
        assert(self.log@.drop_last() =~= old(self).log@);
    }

    pub fn get(&self, k: StorageKey) -> (r: Option<u128>)
        ensures
            r == lookup(self@, k),
    {
        let mut i: usize = self.log.len();
        while i > 0
            invariant
                i <= self.log@.len(),
                forall|j: int| i <= j < self.log@.len() ==> (#[trigger] self.log@[j]).0 != k,
            decreases i,
        {
            let e = self.log[i - 1];
            if e.0 == k {
                proof {
                    lemma_log_lookup_prefix(self.log@, i as int, k);
                    let t = self.log@.take(i as int);
                    assert(t.drop_last() =~= self.log@.take(i - 1));
                }
                return e.1;
            }
            i = i - 1;
        }
        proof {
            lemma_log_lookup_prefix(self.log@, 0, k);
            assert(self.log@.take(0) =~= Seq::<(StorageKey, Option<u128>)>::empty());
        }
        None
    }

    pub fn copy(&self) -> (r: Storage)
        ensures
            r@ == self@,
    {
        Storage { log: crate::txn::copy_vec(&self.log) }
    }

    /// Observes the values of `keys`, in order.
    pub fn observe_keys(&self, keys: &Vec<StorageKey>) -> (r: Vec<Option<u128>>)
        ensures
            r@ == observe(self@, keys@),
    {
        let mut r: Vec<Option<u128>> = Vec::new();
        let mut i: usize = 0;
        while i < keys.len()
            invariant
                i <= keys.len(),
                r@ == observe(self@, keys@.take(i as int)),
            decreases keys.len() - i,
        {
            let v = self.get(keys[i]);
            r.push(v);
            i = i + 1;
            assert(r@ =~= observe(self@, keys@.take(i as int)));
        }
        assert(keys@.take(keys.len() as int) =~= keys@);
        r
    }

    fn apply_write_op(&mut self, w: (StorageKey, WriteOp))
        ensures
            final(self)@ == apply_write(old(self)@, w),
    {
        match w.1 {
            WriteOp::Write(v) => self.set(w.0, v),
            WriteOp::Delete => self.remove(w.0),
        }
    }

    fn apply_delta_op(&mut self, d: (StorageKey, DeltaOp))
        ensures
            final(self)@ == apply_delta(old(self)@, d),
    {
        match self.get(d.0) {
            Some(b) => match d.1.apply_to(b) {
                Some(v) => self.set(d.0, v),
                None => {},
            },
            None => {},
        }
    }

    /// Applies the effects of a transaction output.
    pub fn apply(&mut self, out: &TxnOutput)
        ensures
            final(self)@ == apply_output(old(self)@, out@),
    {
        match out {
            TxnOutput::Success { writes, deltas, .. } => {
                let mut i: usize = 0;
                while i < writes.len()
                    invariant
                        i <= writes.len(),
                        self@ == apply_writes(old(self)@, writes@.take(i as int)),
                    decreases writes.len() - i,
                {
                    self.apply_write_op(writes[i]);
                    i = i + 1;
                    assert(writes@.take(i as int).drop_last() =~= writes@.take(i - 1));
                }
                assert(writes@.take(writes.len() as int) =~= writes@);
                let ghost mid = self@;
                let mut j: usize = 0;
                while j < deltas.len()
                    invariant
                        j <= deltas.len(),
                        self@ == apply_deltas(mid, deltas@.take(j as int)),
                    decreases deltas.len() - j,
                {
                    self.apply_delta_op(deltas[j]);
                    j = j + 1;
                    assert(deltas@.take(j as int).drop_last() =~= deltas@.take(j - 1));
                }
                assert(deltas@.take(deltas.len() as int) =~= deltas@);
            },
            _ => {},
        }
    }
}

} // verus!
