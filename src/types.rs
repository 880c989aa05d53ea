use vstd::prelude::*;

verus! {

/// Position of a transaction in its block.
pub type TxnIndex = usize;

/// Execution attempt counter of one transaction.
pub type Incarnation = u32;

/// Which part of the storage tree a key addresses.
#[derive(Clone, Copy, Debug, PartialEq, Eq, Structural, Hash)]
pub enum PathKind {
    Data,
    Module,
}

/// A storage location: an opaque address plus the kind of path it lives under.
/// Equality is on both parts.
#[derive(Clone, Copy, Debug, PartialEq, Eq, Structural, Hash)]
pub struct StorageKey {
    pub address: u64,
    pub kind: PathKind,
}

impl StorageKey {
    pub fn new(address: u64, kind: PathKind) -> (r: StorageKey)
        ensures
            r.address == address,
            r.kind == kind,
    {
        StorageKey { address, kind }
    }

    pub fn is_module(&self) -> (r: bool)
        ensures
            r == (self.kind == PathKind::Module),
    {
        match self.kind {
            PathKind::Module => true,
            PathKind::Data => false,
        }
    }
}

/// A plain write: store a value, or remove the key.
#[derive(Clone, Copy, Debug, PartialEq, Eq, Structural)]
pub enum WriteOp {
    Write(u128),
    Delete,
}

/// A bounded integer update of an aggregator key: add or subtract `amount`,
/// failing when the result would exceed `limit` or drop below zero.
#[derive(Clone, Copy, Debug, PartialEq, Eq, Structural)]
pub struct DeltaOp {
    pub amount: u128,
    pub increase: bool,
    pub limit: u128,
}

/// What applying a delta to `base` yields, or `None` on overflow past the
/// limit or underflow below zero.
pub open spec fn delta_apply(op: DeltaOp, base: u128) -> Option<u128> {
    if op.increase {
        if base as int + op.amount as int <= op.limit as int {
            Some((base + op.amount) as u128)
        } else {
            None
        }
    } else {
        if op.amount <= base {
            Some((base - op.amount) as u128)
        } else {
            None
        }
    }
}

impl DeltaOp {
    pub fn addition(amount: u128, limit: u128) -> (r: DeltaOp)
        ensures
            r == (DeltaOp { amount, increase: true, limit }),
    {
        DeltaOp { amount, increase: true, limit }
    }

    pub fn subtraction(amount: u128, limit: u128) -> (r: DeltaOp)
        ensures
            r == (DeltaOp { amount, increase: false, limit }),
    {
        DeltaOp { amount, increase: false, limit }
    }

    /// Applies the delta to `base`; `None` reports overflow or underflow.
    pub fn apply_to(&self, base: u128) -> (r: Option<u128>)
        ensures
            r == delta_apply(*self, base),
    {
        if self.increase {
            if base <= self.limit && self.amount <= self.limit - base {
                Some(base + self.amount)
            } else {
                None
            }
        } else {
            if self.amount <= base {
                Some(base - self.amount)
            } else {
                None
            }
        }
    }
}

/// Pushing `a` onto `s` adds exactly `a` to what it contains.
pub proof fn lemma_push_contains<T>(s: Seq<T>, a: T, x: T)
    ensures
        s.push(a).contains(x) == (s.contains(x) || x == a),
{
    let t = s.push(a);
    if s.contains(x) {
        let i = choose|i: int| 0 <= i < s.len() && s[i] == x;
        assert(t[i] == x);
    }
    if x == a {
        assert(t[s.len() as int] == x);
    }
    if t.contains(x) {
        let i = choose|i: int| 0 <= i < t.len() && t[i] == x;
        if i < s.len() {
            assert(s[i] == x);
        }
    }
}

/// A value recorded in the versioned map: a plain write or a delta.
#[derive(Clone, Copy, Debug, PartialEq, Eq, Structural)]
pub enum Value {
    Write(u128),
    Delete,
    Delta(DeltaOp),
}

} // verus!
