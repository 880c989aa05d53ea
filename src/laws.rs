use vstd::prelude::*;

use crate::commit::{lemma_step_at, out_value};
use crate::delta::views;
use crate::txn::{
    block_wf, is_sequential_result, lookup, no_skip_before, output_len_ok, seq_output, seq_state,
    OutputView, Transaction, TxnOutput,
};
use crate::types::{StorageKey, Value};

verus! {

/// The number of outputs of a block.
pub open spec fn seq_len(txns: Seq<Transaction>) -> int {
    choose|n: int| output_len_ok(txns, n)
}

/// The outputs of sequential execution of `txns` on `base`.
pub open spec fn seq_outputs(base: Map<StorageKey, u128>, txns: Seq<Transaction>) -> Seq<OutputView> {
    Seq::new(seq_len(txns) as nat, |i: int| seq_output(base, txns, i as nat))
}

/// A block has exactly one output length.
pub proof fn lemma_output_len_unique(txns: Seq<Transaction>, a: int, b: int)
    requires
        output_len_ok(txns, a),
        output_len_ok(txns, b),
    ensures
        a == b,
{
    if a < b {
        assert(txns[a - 1] is SkipRest);
    } else if b < a {
        assert(txns[b - 1] is SkipRest);
    }
}

/// Outputs that meet the sequential contract are the sequential outputs.
pub proof fn lemma_sequential_outputs(
    base: Map<StorageKey, u128>,
    txns: Seq<Transaction>,
    outs: Seq<TxnOutput>,
)
    requires
        is_sequential_result(base, txns, outs),
    ensures
        views(outs) == seq_outputs(base, txns),
{
    let n = outs.len() as int;
    assert(output_len_ok(txns, seq_len(txns)));
    lemma_output_len_unique(txns, n, seq_len(txns));
    assert(views(outs) =~= seq_outputs(base, txns));
}

/// Any two results of one block on one base storage agree transaction by
/// transaction, including aborts and the truncation at `SkipRest`: the
/// parallel path agrees with the sequential one, and each path with itself
/// on every run.
pub proof fn lemma_results_agree(
    base: Map<StorageKey, u128>,
    txns: Seq<Transaction>,
    first: Seq<TxnOutput>,
    second: Seq<TxnOutput>,
)
    requires
        is_sequential_result(base, txns, first),
        is_sequential_result(base, txns, second),
    ensures
        first.len() == second.len(),
        forall|i: int| 0 <= i < first.len() ==> (#[trigger] first[i])@ == second[i]@,
{
    lemma_sequential_outputs(base, txns, first);
    lemma_sequential_outputs(base, txns, second);
    assert forall|i: int| 0 <= i < first.len() implies (#[trigger] first[i])@ == second[i]@ by {
        assert(views(first)[i] == views(second)[i]);
    }
}

/// No lost writes: when transaction `i` stores `v` at `k` and no transaction
/// between `i` and `j` writes `k`, transaction `j` reads `v` for `k`.
pub proof fn lemma_no_lost_writes(
    base: Map<StorageKey, u128>,
    txns: Seq<Transaction>,
    i: int,
    j: int,
    k: StorageKey,
    v: u128,
)
    requires
        block_wf(txns),
        0 <= i < j <= txns.len(),
        out_value(seq_output(base, txns, i as nat), k) == Some(Value::Write(v)),
        forall|m: int| i < m < j ==> out_value(#[trigger] seq_output(base, txns, m as nat), k) is None,
    ensures
        lookup(seq_state(base, txns, j as nat), k) == Some(v),
    decreases j - i,
{
    let m = j - 1;
    lemma_step_at(seq_state(base, txns, m as nat), txns[m], k);
    assert(crate::txn::txn_wf(txns[m]));
    if m > i {
        assert(out_value(seq_output(base, txns, m as nat), k) is None);
        lemma_no_lost_writes(base, txns, i, m, k, v);
    }
}

/// An empty block has no outputs.
pub proof fn lemma_empty_block(base: Map<StorageKey, u128>)
    ensures
        seq_outputs(base, Seq::<Transaction>::empty()).len() == 0,
{
    let txns = Seq::<Transaction>::empty();
    assert(output_len_ok(txns, 0));
    assert(output_len_ok(txns, seq_len(txns)));
    lemma_output_len_unique(txns, 0, seq_len(txns));
}

/// A block whose first `SkipRest` stands at `k` has `k + 1` outputs, the
/// last of them `SkipRest`: the transactions after `k` leave no output.
pub proof fn lemma_skip_rest_truncates(base: Map<StorageKey, u128>, txns: Seq<Transaction>, k: int)
    requires
        0 <= k < txns.len(),
        txns[k] is SkipRest,
        no_skip_before(txns, k),
    ensures
        seq_outputs(base, txns).len() == k + 1,
        seq_outputs(base, txns)[k] == OutputView::SkipRest,
{
    assert(output_len_ok(txns, k + 1));
    assert(output_len_ok(txns, seq_len(txns)));
    lemma_output_len_unique(txns, k + 1, seq_len(txns));
}

/// An aborted transaction outputs `Aborted` and leaves the state as it
/// found it, so the transactions around it run as if it were not there.
pub proof fn lemma_abort_isolated(base: Map<StorageKey, u128>, txns: Seq<Transaction>, k: int)
    requires
        0 <= k < txns.len(),
        txns[k] is Abort,
    ensures
        seq_output(base, txns, k as nat) == OutputView::Aborted,
        seq_state(base, txns, (k + 1) as nat) == seq_state(base, txns, k as nat),
{
}

} // verus!
