use vstd::prelude::*;

use crate::types::{delta_apply, Incarnation, StorageKey, TxnIndex, Value};

verus! {

/// One speculative write in the versioned map. `estimate` marks the write of
/// an aborted incarnation: a reader must wait for the transaction instead of
/// trusting the value.
#[derive(Clone, Copy, Debug, PartialEq, Eq, Structural)]
pub struct MvEntry {
    pub incarnation: Incarnation,
    pub value: Value,
    pub estimate: bool,
}

/// What `read` finds below a transaction index.
#[derive(Clone, Copy, Debug, PartialEq, Eq, Structural)]
pub enum ReadResult {
    /// No lower transaction wrote the key: read base storage.
    NotFound,
    /// The closest lower write: its transaction, incarnation and value.
    Versioned(TxnIndex, Incarnation, Value),
    /// The closest lower write is an estimate of this transaction.
    Dependency(TxnIndex),
}

/// The value a reader observes once deltas are folded onto what lies below.
#[derive(Clone, Copy, Debug, PartialEq, Eq, Structural)]
pub enum Resolution {
    Value(Option<u128>),
    Dependency(TxnIndex),
    DeltaFailure,
}

/// The closest entry below index `t` of a column.
pub open spec fn read_col(col: Seq<Option<MvEntry>>, t: int) -> ReadResult
    decreases t,
{
    if t <= 0 {
        ReadResult::NotFound
    } else {
        match col[t - 1] {
            None => read_col(col, t - 1),
            Some(e) => if e.estimate {
                ReadResult::Dependency((t - 1) as usize)
            } else {
                ReadResult::Versioned((t - 1) as usize, e.incarnation, e.value)
            },
        }
    }
}

/// The value observed at index `t` of a column on top of `base`: the closest
/// plain write below `t`, with the deltas above it applied in order.
pub open spec fn resolve_col(col: Seq<Option<MvEntry>>, base: Option<u128>, t: int) -> Resolution
    decreases t,
{
    if t <= 0 {
        Resolution::Value(base)
    } else {
        match col[t - 1] {
            None => resolve_col(col, base, t - 1),
            Some(e) => if e.estimate {
                Resolution::Dependency((t - 1) as usize)
            } else {
                match e.value {
                    Value::Write(v) => Resolution::Value(Some(v)),
                    Value::Delete => Resolution::Value(None),
                    Value::Delta(op) => match resolve_col(col, base, t - 1) {
                        Resolution::Value(Some(b)) => match delta_apply(op, b) {
                            Some(v) => Resolution::Value(Some(v)),
                            None => Resolution::DeltaFailure,
                        },
                        Resolution::Value(None) => Resolution::DeltaFailure,
                        other => other,
                    },
                }
            },
        }
    }
}

/// Multi-version memory of one block: for each key, one slot per transaction
/// holding that transaction's latest write to the key, if any.
pub struct VersionedMap {
    block_len: usize,
    keys: Vec<StorageKey>,
    columns: Vec<Vec<Option<MvEntry>>>,
}

impl VersionedMap {
    pub closed spec fn len_spec(&self) -> nat {
        self.block_len as nat
    }

    pub closed spec fn wf(&self) -> bool {
        &&& self.keys@.len() == self.columns@.len()
        &&& self.keys@.no_duplicates()
        &&& forall|i: int|
            0 <= i < self.columns@.len() ==> (#[trigger] self.columns@[i])@.len()
                == self.block_len
    }

    pub closed spec fn has(&self, k: StorageKey) -> bool {
        exists|i: int| 0 <= i < self.keys@.len() && self.keys@[i] == k
    }

    closed spec fn pos(&self, k: StorageKey) -> int {
        choose|i: int| 0 <= i < self.keys@.len() && self.keys@[i] == k
    }

    /// The slots of key `k`, one per transaction.
    pub closed spec fn column(&self, k: StorageKey) -> Seq<Option<MvEntry>> {
        if self.has(k) {
            self.columns@[self.pos(k)]@
        } else {
            Seq::new(self.block_len as nat, |i: int| None)
        }
    }

    pub broadcast proof fn lemma_column_len(&self, k: StorageKey)
        requires
            self.wf(),
        ensures
            #[trigger] self.column(k).len() == self.len_spec(),
    {
    }

    /// The slot of transaction `t` for key `k`.
    pub open spec fn entry(&self, k: StorageKey, t: int) -> Option<MvEntry> {
        self.column(k)[t]
    }

    pub fn new(block_len: usize) -> (r: VersionedMap)
        ensures
            r.wf(),
            r.len_spec() == block_len,
            forall|k: StorageKey, t: int| 0 <= t < block_len ==> #[trigger] r.entry(k, t) is None,
    {
        VersionedMap { block_len, keys: Vec::new(), columns: Vec::new() }
    }

    pub fn block_len(&self) -> (r: usize)
        ensures
            r == self.len_spec(),
    {
        self.block_len
    }

    fn find(&self, k: StorageKey) -> (r: Option<usize>)
        requires
            self.wf(),
        ensures
            match r {
                Some(i) => i < self.keys@.len() && self.keys@[i as int] == k && self.has(k) && self.pos(
                    k,
                ) == i,
                None => !self.has(k),
            },
    {
        let mut i: usize = 0;
        while i < self.keys.len()
            invariant
                i <= self.keys@.len(),
                self.wf(),
                forall|j: int| 0 <= j < i ==> self.keys@[j] != k,
            decreases self.keys@.len() - i,
        {
            if self.keys[i] == k {
                assert(self.has(k));
                let ghost p = self.pos(k);
                assert(self.keys@[p] == k);
                assert(self.keys@.no_duplicates());
                return Some(i);
            }
            i = i + 1;
        }
        None
    }

    /// Sets the slot of transaction `t` for key `k`, creating the key's
    /// column if needed.
    fn set_slot(&mut self, k: StorageKey, t: TxnIndex, e: Option<MvEntry>)
        requires
            old(self).wf(),
            t < old(self).len_spec(),
        ensures
            final(self).wf(),
            final(self).len_spec() == old(self).len_spec(),
            final(self).column(k) == old(self).column(k).update(t as int, e),
            forall|k2: StorageKey| k2 != k ==> final(self).column(k2) == old(self).column(k2),
    {
        let ghost old_self = *self;
        match self.find(k) {
            Some(i) => {
                let mut col: Vec<Option<MvEntry>> = Vec::new();
                std::mem::swap(&mut col, &mut self.columns[i]);
                col.set(t, e);
                std::mem::swap(&mut col, &mut self.columns[i]);
                assert(self.keys@ == old_self.keys@);
                assert forall|k2: StorageKey| k2 != k implies self.column(k2) == old_self.column(
                    k2,
                ) by {
                    if old_self.has(k2) {
                        assert(self.has(k2));
                        assert(self.pos(k2) == old_self.pos(k2));
                    }
                }
                assert(self.column(k) =~= old_self.column(k).update(t as int, e));
            },
            None => {
                let mut col: Vec<Option<MvEntry>> = Vec::new();
                let mut j: usize = 0;
                while j < self.block_len
                    invariant
                        j <= self.block_len,
                        col@.len() == j,
                        forall|x: int| 0 <= x < j ==> col@[x] is None,
                    decreases self.block_len - j,
                {
                    col.push(None);
                    j = j + 1;
                }
                col.set(t, e);
                self.keys.push(k);
                self.columns.push(col);
                let ghost n = old_self.keys@.len();
                assert(self.keys@[n as int] == k);
                assert(self.has(k));
                assert(self.keys@.no_duplicates()) by {
                    assert forall|a: int, b: int|
                        0 <= a < self.keys@.len() && 0 <= b < self.keys@.len() && a != b implies self.keys@[a]
                        != self.keys@[b] by {
                        if a < n && b < n {
                        } else if a == n {
                            assert(old_self.keys@[b] != k);
                        } else {
                            assert(old_self.keys@[a] != k);
                        }
                    }
                }
                assert(self.pos(k) == n);
                assert(self.column(k) =~= old_self.column(k).update(t as int, e));
                assert forall|k2: StorageKey| k2 != k implies self.column(k2) == old_self.column(
                    k2,
                ) by {
                    if old_self.has(k2) {
                        let p = old_self.pos(k2);
                        assert(self.keys@[p] == k2);
                        assert(self.has(k2));
                        assert(self.pos(k2) == p);
                    } else {
                        assert(!self.has(k2));
                    }
                }
            },
        }
    }

    /// Records the write of incarnation `inc` of transaction `t` to `k`.
    /// A write of an older incarnation than the one recorded is stale and
    /// refused (`false`); an equal or newer one replaces it.
    pub fn write(&mut self, k: StorageKey, t: TxnIndex, inc: Incarnation, v: Value) -> (r: bool)
        requires
            old(self).wf(),
            t < old(self).len_spec(),
        ensures
            final(self).wf(),
            final(self).len_spec() == old(self).len_spec(),
            r == !(old(self).entry(k, t as int) is Some && old(self).entry(
                k,
                t as int,
            ).unwrap().incarnation > inc),
            r ==> final(self).column(k) == old(self).column(k).update(
                t as int,
                Some(MvEntry { incarnation: inc, value: v, estimate: false }),
            ),
            !r ==> final(self).column(k) == old(self).column(k),
            forall|k2: StorageKey| k2 != k ==> final(self).column(k2) == old(self).column(k2),
    {
        let cur = self.get_entry(k, t);
        match cur {
            Some(e) => {
                if e.incarnation > inc {
                    return false;
                }
            },
            None => {},
        }
        self.set_slot(k, t, Some(MvEntry { incarnation: inc, value: v, estimate: false }));
        true
    }

    /// Flags the write of transaction `t` to `k` as an estimate, keeping its
    /// value.
    pub fn mark_estimate(&mut self, k: StorageKey, t: TxnIndex)
        requires
            old(self).wf(),
            t < old(self).len_spec(),
        ensures
            final(self).wf(),
            final(self).len_spec() == old(self).len_spec(),
            final(self).column(k) == match old(self).entry(k, t as int) {
                Some(e) => old(self).column(k).update(
                    t as int,
                    Some(MvEntry { estimate: true, ..e }),
                ),
                None => old(self).column(k),
            },
            forall|k2: StorageKey| k2 != k ==> final(self).column(k2) == old(self).column(k2),
    {
        match self.get_entry(k, t) {
            Some(e) => {
                self.set_slot(
                    k,
                    t,
                    Some(MvEntry { incarnation: e.incarnation, value: e.value, estimate: true }),
                );
            },
            None => {},
        }
    }

    /// Removes the write of transaction `t` to `k`.
    pub fn delete_write(&mut self, k: StorageKey, t: TxnIndex)
        requires
            old(self).wf(),
            t < old(self).len_spec(),
        ensures
            final(self).wf(),
            final(self).len_spec() == old(self).len_spec(),
            final(self).column(k) == old(self).column(k).update(t as int, None),
            forall|k2: StorageKey| k2 != k ==> final(self).column(k2) == old(self).column(k2),
    {
        self.set_slot(k, t, None);
    }

    /// Empties the slot of transaction `t` in every column.
    pub fn clear_txn(&mut self, t: TxnIndex)
        requires
            old(self).wf(),
            t < old(self).len_spec(),
        ensures
            final(self).wf(),
            final(self).len_spec() == old(self).len_spec(),
            forall|k: StorageKey| #[trigger]
                final(self).column(k) == old(self).column(k).update(t as int, None),
    {
        let ghost old_self = *self;
        let mut i: usize = 0;
        while i < self.columns.len()
            invariant
                self.wf(),
                self.keys == old_self.keys,
                self.block_len == old_self.block_len,
                t < self.block_len,
                i <= self.columns@.len(),
                forall|j: int|
                    0 <= j < i ==> (#[trigger] self.columns@[j])@ == old_self.columns@[j]@.update(
                        t as int,
                        None,
                    ),
                forall|j: int|
                    i <= j < self.columns@.len() ==> (#[trigger] self.columns@[j])@
                        == old_self.columns@[j]@,
            decreases self.columns@.len() - i,
        {
            let mut col: Vec<Option<MvEntry>> = Vec::new();
            std::mem::swap(&mut col, &mut self.columns[i]);
            col.set(t, None);
            std::mem::swap(&mut col, &mut self.columns[i]);
            i = i + 1;
        }
        assert forall|k: StorageKey| #[trigger]
            self.column(k) == old_self.column(k).update(t as int, None) by {
            if self.has(k) {
                assert(old_self.has(k));
                assert(self.pos(k) == old_self.pos(k));
            } else {
                assert(!old_self.has(k));
                assert(self.column(k) =~= old_self.column(k).update(t as int, None));
            }
        }
    }

    pub fn get_entry(&self, k: StorageKey, t: TxnIndex) -> (r: Option<MvEntry>)
        requires
            self.wf(),
            t < self.len_spec(),
        ensures
            r == self.entry(k, t as int),
    {
        match self.find(k) {
            Some(i) => self.columns[i][t],
            None => None,
        }
    }

    /// The closest write to `k` by a transaction below `t`.
    pub fn read(&self, k: StorageKey, t: TxnIndex) -> (r: ReadResult)
        requires
            self.wf(),
            t <= self.len_spec(),
        ensures
            r == read_col(self.column(k), t as int),
    {
        match self.find(k) {
            None => {
                proof {
                    lemma_read_empty(self.column(k), t as int);
                }
                ReadResult::NotFound
            },
            Some(i) => {
                let col = &self.columns[i];
                let mut j: usize = t;
                while j > 0
                    invariant
                        j <= t,
                        t <= col@.len(),
                        col@ == self.column(k),
                        read_col(col@, t as int) == read_col(col@, j as int),
                    decreases j,
                {
                    match col[j - 1] {
                        Some(e) => {
                            if e.estimate {
                                return ReadResult::Dependency(j - 1);
                            } else {
                                return ReadResult::Versioned(j - 1, e.incarnation, e.value);
                            }
                        },
                        None => {},
                    }
                    j = j - 1;
                }
                ReadResult::NotFound
            },
        }
    }

    /// The value that transaction `t` observes for `k` on top of `base`, the
    /// value of `k` in base storage.
    pub fn resolve(&self, k: StorageKey, t: TxnIndex, base: Option<u128>) -> (r: Resolution)
        requires
            self.wf(),
            t <= self.len_spec(),
        ensures
            r == resolve_col(self.column(k), base, t as int),
    {
        match self.find(k) {
            None => {
                proof {
                    lemma_resolve_empty(self.column(k), base, t as int);
                }
                Resolution::Value(base)
            },
            Some(i) => {
                let col = &self.columns[i];
                // Walk down past empty slots and deltas to the closest plain
                // write, estimate or the bottom, then fold the deltas on the
                // way back up.
                let mut j: usize = t;
                while j > 0 && is_transparent(col[j - 1])
                    invariant
                        j <= t,
                        t <= col@.len(),
                        col@ == self.column(k),
                        forall|x: int| j <= x < t ==> #[trigger] transparent(col@[x]),
                    decreases j,
                {
                    j = j - 1;
                }
                let mut cur: Resolution = if j == 0 {
                    Resolution::Value(base)
                } else {
                    match col[j - 1] {
                        Some(e) => if e.estimate {
                            Resolution::Dependency(j - 1)
                        } else {
                            match e.value {
                                Value::Write(v) => Resolution::Value(Some(v)),
                                Value::Delete => Resolution::Value(None),
                                Value::Delta(_) => Resolution::Value(base),
                            }
                        },
                        None => Resolution::Value(base),
                    }
                };
                while j < t
                    invariant
                        j <= t,
                        t <= col@.len(),
                        col@ == self.column(k),
                        forall|x: int| j <= x < t ==> #[trigger] transparent(col@[x]),
                        cur == resolve_col(col@, base, j as int),
                    decreases t - j,
                {
                    assert(transparent(col@[j as int]));
                    match col[j] {
                        Some(e) => match e.value {
                            Value::Delta(op) => {
                                cur = match cur {
                                    Resolution::Value(Some(b)) => match op.apply_to(b) {
                                        Some(v) => Resolution::Value(Some(v)),
                                        None => Resolution::DeltaFailure,
                                    },
                                    Resolution::Value(None) => Resolution::DeltaFailure,
                                    other => other,
                                };
                            },
                            _ => {},
                        },
                        None => {},
                    }
                    j = j + 1;
                }
                cur
            },
        }
    }
}

/// Slots that a resolution passes through on its way down: empty ones and
/// deltas that are not estimates.
pub open spec fn transparent(e: Option<MvEntry>) -> bool {
    match e {
        None => true,
        Some(e) => !e.estimate && e.value is Delta,
    }
}

fn is_transparent(e: Option<MvEntry>) -> (r: bool)
    ensures
        r == transparent(e),
{
    match e {
        None => true,
        Some(e) => !e.estimate && match e.value {
            Value::Delta(_) => true,
            _ => false,
        },
    }
}

proof fn lemma_read_empty(col: Seq<Option<MvEntry>>, t: int)
    requires
        forall|x: int| 0 <= x < t ==> col[x] is None,
    ensures
        read_col(col, t) == ReadResult::NotFound,
    decreases t,
{
    if t > 0 {
        lemma_read_empty(col, t - 1);
    }
}

proof fn lemma_resolve_empty(col: Seq<Option<MvEntry>>, base: Option<u128>, t: int)
    requires
        forall|x: int| 0 <= x < t ==> col[x] is None,
    ensures
        resolve_col(col, base, t) == Resolution::Value(base),
    decreases t,
{
    if t > 0 {
        lemma_resolve_empty(col, base, t - 1);
    }
}

} // verus!
