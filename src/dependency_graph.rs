use vstd::prelude::*;

use crate::types::{lemma_push_contains, StorageKey};

verus! {

/// A transaction as the partitioner sees it: the keys it may read and the
/// keys it may write.
#[derive(Clone, Debug, PartialEq, Eq)]
pub struct AnalyzedTransaction {
    read_hints: Vec<StorageKey>,
    write_hints: Vec<StorageKey>,
}

impl AnalyzedTransaction {
    pub closed spec fn reads_spec(&self) -> Seq<StorageKey> {
        self.read_hints@
    }

    pub closed spec fn writes_spec(&self) -> Seq<StorageKey> {
        self.write_hints@
    }

    pub fn new(read_hints: Vec<StorageKey>, write_hints: Vec<StorageKey>) -> (r: AnalyzedTransaction)
        ensures
            r.reads_spec() == read_hints@,
            r.writes_spec() == write_hints@,
    {
        AnalyzedTransaction { read_hints, write_hints }
    }

    pub fn read_hints(&self) -> (r: &Vec<StorageKey>)
        ensures
            r@ == self.reads_spec(),
    {
        &self.read_hints
    }

    pub fn write_hints(&self) -> (r: &Vec<StorageKey>)
        ensures
            r@ == self.writes_spec(),
    {
        &self.write_hints
    }
}

/// Transaction `a` depends on transaction `b`: `b` writes a key that `a`
/// reads or writes. Two transactions conflict when one depends on the other,
/// that is when they share a hinted key and at least one of them writes it.
pub open spec fn depends(txns: Seq<AnalyzedTransaction>, a: int, b: int) -> bool {
    &&& a != b
    &&& exists|k: StorageKey|
        #[trigger] txns[b].writes_spec().contains(k) && (txns[a].reads_spec().contains(k)
            || txns[a].writes_spec().contains(k))
}

/// A transaction of the graph, by its position in the block.
#[derive(Clone, Copy, Debug, PartialEq, Eq, Structural, Hash)]
pub struct Node {
    pub index: usize,
}

impl Node {
    pub fn new(index: usize) -> (r: Node)
        ensures
            r.index == index,
    {
        Node { index }
    }

    pub fn index(&self) -> (r: usize)
        ensures
            r == self.index,
    {
        self.index
    }
}

pub open spec fn node_indices(s: Seq<Node>) -> Seq<usize> {
    s.map_values(|n: Node| n.index)
}

/// The dependencies of a block: for each transaction, the transactions it
/// depends on (`adjacency_list`) and those that depend on it
/// (`reverse_adjacency_list`).
pub struct DependencyGraph {
    adjacency_list: Vec<Vec<Node>>,
    reverse_adjacency_list: Vec<Vec<Node>>,
}

impl DependencyGraph {
    pub closed spec fn size_spec(&self) -> nat {
        self.adjacency_list@.len()
    }

    /// The nodes that node `a` depends on.
    pub closed spec fn out_edges(&self, a: usize) -> Seq<usize> {
        node_indices(self.adjacency_list@[a as int]@)
    }

    /// The nodes that depend on node `b`.
    pub closed spec fn in_edges(&self, b: usize) -> Seq<usize> {
        node_indices(self.reverse_adjacency_list@[b as int]@)
    }

    pub closed spec fn wf(&self) -> bool {
        &&& self.reverse_adjacency_list@.len() == self.adjacency_list@.len()
        &&& self.lists_ok()
    }

    /// Every list is a set of nodes of the graph, and the two lists are
    /// inverse: `b` is among the nodes `a` depends on exactly when `a` is
    /// among the nodes that depend on `b`.
    pub open spec fn lists_ok(&self) -> bool {
        &&& forall|a: usize| a < self.size_spec() ==> (#[trigger] self.out_edges(a)).no_duplicates()
        &&& forall|a: usize| a < self.size_spec() ==> (#[trigger] self.in_edges(a)).no_duplicates()
        &&& forall|a: usize, b: usize|
            #![trigger self.out_edges(a).contains(b)]
            #![trigger self.in_edges(b).contains(a)]
            a < self.size_spec() && b < self.size_spec() ==> (self.out_edges(a).contains(b)
                <==> self.in_edges(b).contains(a))
        &&& forall|a: usize, b: usize|
            a < self.size_spec() && #[trigger] self.out_edges(a).contains(b) ==> b < self.size_spec()
        &&& forall|a: usize, b: usize|
            a < self.size_spec() && #[trigger] self.in_edges(a).contains(b) ==> b < self.size_spec()
    }

    /// A graph of `n` nodes and no edge.
    pub fn new(n: usize) -> (r: DependencyGraph)
        ensures
            r.wf(),
            r.lists_ok(),
            r.size_spec() == n,
            forall|a: usize| a < n ==> (#[trigger] r.out_edges(a)).len() == 0,
            forall|a: usize| a < n ==> (#[trigger] r.in_edges(a)).len() == 0,
    {
        let mut adjacency_list: Vec<Vec<Node>> = Vec::new();
        let mut reverse_adjacency_list: Vec<Vec<Node>> = Vec::new();
        let mut i: usize = 0;
        while i < n
            invariant
                i <= n,
                adjacency_list@.len() == i,
                reverse_adjacency_list@.len() == i,
                forall|a: int| 0 <= a < i ==> (#[trigger] adjacency_list@[a])@.len() == 0,
                forall|a: int| 0 <= a < i ==> (#[trigger] reverse_adjacency_list@[a])@.len() == 0,
            decreases n - i,
        {
            adjacency_list.push(Vec::new());
            reverse_adjacency_list.push(Vec::new());
            i = i + 1;
        }
        let r = DependencyGraph { adjacency_list, reverse_adjacency_list };
        assert forall|a: usize| a < n implies (#[trigger] r.out_edges(a)).len() == 0 && r.in_edges(
            a,
        ).len() == 0 by {
            assert(r.out_edges(a) =~= Seq::<usize>::empty());
            assert(r.in_edges(a) =~= Seq::<usize>::empty());
        }
        r
    }

    pub fn size(&self) -> (r: usize)
        ensures
            r == self.size_spec(),
    {
        self.adjacency_list.len()
    }

    pub fn get_adjacency_list(&self) -> (r: &Vec<Vec<Node>>)
        ensures
            r@.len() == self.size_spec(),
            forall|a: usize| a < r@.len() ==> node_indices((#[trigger] r@[a as int])@) == self.out_edges(a),
    {
        &self.adjacency_list
    }

    pub fn get_reverse_adjacency_list(&self) -> (r: &Vec<Vec<Node>>)
        requires
            self.wf(),
        ensures
            r@.len() == self.size_spec(),
            forall|a: usize| a < r@.len() ==> node_indices((#[trigger] r@[a as int])@) == self.in_edges(a),
    {
        &self.reverse_adjacency_list
    }

    /// The nodes that depend on `node`; `None` when it is not in the graph.
    pub fn get_dependent_nodes(&self, node: Node) -> (r: Option<&Vec<Node>>)
        requires
            self.wf(),
        ensures
            node.index < self.size_spec() <==> r is Some,
            r matches Some(v) ==> node_indices(v@) == self.in_edges(node.index),
    {
        if node.index < self.reverse_adjacency_list.len() {
            Some(&self.reverse_adjacency_list[node.index])
        } else {
            None
        }
    }

    /// Records that `source` depends on `destination`.
    pub fn add_dependency(&mut self, source: Node, destination: Node)
        requires
            old(self).wf(),
            source.index < old(self).size_spec(),
            destination.index < old(self).size_spec(),
        ensures
            final(self).wf(),
            final(self).lists_ok(),
            final(self).size_spec() == old(self).size_spec(),
            forall|a: usize, b: usize|
                a < old(self).size_spec() && b < old(self).size_spec() ==> (
                #[trigger] final(self).out_edges(a).contains(b) <==> (old(self).out_edges(
                    a,
                ).contains(b) || (a == source.index && b == destination.index))),
            forall|a: usize, b: usize|
                a < old(self).size_spec() && b < old(self).size_spec() ==> (
                #[trigger] final(self).in_edges(b).contains(a) <==> (old(self).in_edges(
                    b,
                ).contains(a) || (a == source.index && b == destination.index))),
    {
        let s = source.index;
        let d = destination.index;
        let ghost old_self = *self;
        if contains_node(&self.adjacency_list[s], destination) {
            return;
        }
        let mut row: Vec<Node> = Vec::new();
        std::mem::swap(&mut row, &mut self.adjacency_list[s]);
        row.push(destination);
        std::mem::swap(&mut row, &mut self.adjacency_list[s]);
        let mut col: Vec<Node> = Vec::new();
        std::mem::swap(&mut col, &mut self.reverse_adjacency_list[d]);
        col.push(source);
        std::mem::swap(&mut col, &mut self.reverse_adjacency_list[d]);
        proof {
            assert(!old_self.out_edges(s).contains(d));
            assert(!old_self.in_edges(d).contains(s));
            lemma_push_no_duplicates(old_self.out_edges(s), d);
            lemma_push_no_duplicates(old_self.in_edges(d), s);
            assert(self.out_edges(s) =~= old_self.out_edges(s).push(d));
            assert(self.in_edges(d) =~= old_self.in_edges(d).push(s));
            assert forall|a: usize| a < self.size_spec() && a != s implies self.out_edges(a)
                == old_self.out_edges(a) by {}
            assert forall|a: usize| a < self.size_spec() && a != d implies self.in_edges(a)
                == old_self.in_edges(a) by {}
            assert forall|a: usize| a < self.size_spec() implies (#[trigger] self.out_edges(
                a,
            )).no_duplicates() by {
                if a == s {
                    assert(self.out_edges(a) == old_self.out_edges(a).push(d));
                } else {
                    assert(self.out_edges(a) == old_self.out_edges(a));
                    assert(old_self.out_edges(a).no_duplicates());
                }
            }
            assert forall|a: usize| a < self.size_spec() implies (#[trigger] self.in_edges(
                a,
            )).no_duplicates() by {
                if a == d {
                    assert(self.in_edges(a) == old_self.in_edges(a).push(s));
                } else {
                    assert(self.in_edges(a) == old_self.in_edges(a));
                    assert(old_self.in_edges(a).no_duplicates());
                }
            }
            assert forall|a: usize, b: usize|
                #![trigger self.out_edges(a).contains(b)]
                #![trigger self.in_edges(b).contains(a)]
                a < self.size_spec() && b < self.size_spec() implies (self.out_edges(a).contains(b)
                    <==> self.in_edges(b).contains(a)) by {
                assert(old_self.out_edges(a).contains(b) <==> old_self.in_edges(b).contains(a));
                lemma_push_contains(old_self.out_edges(s), d, b);
                lemma_push_contains(old_self.in_edges(d), s, a);
                if a != s {
                    assert(self.out_edges(a) == old_self.out_edges(a));
                }
                if b != d {
                    assert(self.in_edges(b) == old_self.in_edges(b));
                }
            }
            assert forall|a: usize, b: usize|
                a < self.size_spec() && b < self.size_spec() implies (#[trigger] self.out_edges(
                    a,
                ).contains(b) <==> (old_self.out_edges(a).contains(b) || (a == s && b == d))) by {
                lemma_push_contains(old_self.out_edges(s), d, b);
                if a != s {
                    assert(self.out_edges(a) == old_self.out_edges(a));
                }
            }
            assert forall|a: usize, b: usize|
                a < self.size_spec() && #[trigger] self.out_edges(a).contains(b) implies b
                < self.size_spec() by {
                lemma_push_contains(old_self.out_edges(s), d, b);
                if a != s {
                    assert(self.out_edges(a) == old_self.out_edges(a));
                }
                if a == s && b != d {
                    assert(old_self.out_edges(a).contains(b));
                }
            }
            assert forall|a: usize, b: usize|
                a < self.size_spec() && #[trigger] self.in_edges(a).contains(b) implies b
                < self.size_spec() by {
                lemma_push_contains(old_self.in_edges(d), s, b);
                if a != d {
                    assert(self.in_edges(a) == old_self.in_edges(a));
                }
                if a == d && b != s {
                    assert(old_self.in_edges(a).contains(b));
                }
            }
        }
    }

    /// Builds the graph of a block: node `a` depends on node `b` exactly
    /// when `depends(txns, a, b)`. For each key that `b` writes, the hint
    /// index gives the transactions that name it.
    pub fn create_dependency_graph(analyzed_transactions: &Vec<AnalyzedTransaction>) -> (r:
        DependencyGraph)
        ensures
            r.wf(),
            r.lists_ok(),
            r.size_spec() == analyzed_transactions@.len(),
            forall|a: usize, b: usize|
                a < r.size_spec() && b < r.size_spec() ==> (#[trigger] r.out_edges(a).contains(b)
                    <==> depends(analyzed_transactions@, a as int, b as int)),
            forall|a: usize, b: usize|
                a < r.size_spec() && b < r.size_spec() ==> (#[trigger] r.in_edges(b).contains(a)
                    <==> depends(analyzed_transactions@, a as int, b as int)),
    {
        let txns = analyzed_transactions;
        let n = txns.len();
        let index = build_hint_index(txns);
        let mut g = DependencyGraph::new(n);
        let mut b: usize = 0;
        while b < n
            invariant
                n == txns@.len(),
                b <= n,
                g.wf(),
                g.size_spec() == n,
                hint_index_ok(index@, txns@),
                forall|x: usize, y: usize|
                    x < n && y < n ==> (#[trigger] g.out_edges(x).contains(y) <==> (y < b
                        && depends(txns@, x as int, y as int))),
            decreases n - b,
        {
            let ws = txns[b].write_hints();
            let mut p: usize = 0;
            while p < ws.len()
                invariant
                    n == txns@.len(),
                    b < n,
                    p <= ws@.len(),
                    ws@ == txns@[b as int].writes_spec(),
                    g.wf(),
                    g.size_spec() == n,
                    hint_index_ok(index@, txns@),
                    forall|x: usize, y: usize|
                        x < n && y < n ==> (#[trigger] g.out_edges(x).contains(y) <==> ((y < b
                            && depends(txns@, x as int, y as int)) || (y == b && x != b && exists|
                            j: int,
                        |
                            0 <= j < p && #[trigger] touches(txns@, x as int, ws@[j])))),
                decreases ws@.len() - p,
            {
                let k = ws[p];
                match index_lookup(&index, k) {
                    Some(i) => {
                        let list = &index[i].1;
                        let mut q: usize = 0;
                        while q < list.len()
                            invariant
                                n == txns@.len(),
                                b < n,
                                p < ws@.len(),
                                k == ws@[p as int],
                                ws@ == txns@[b as int].writes_spec(),
                                g.wf(),
                                g.size_spec() == n,
                                hint_index_ok(index@, txns@),
                                i < index@.len(),
                                index@[i as int].0 == k,
                                list@ == index@[i as int].1@,
                                q <= list@.len(),
                                forall|x: usize, y: usize|
                                    x < n && y < n ==> (#[trigger] g.out_edges(x).contains(y) <==> ((
                                    y < b && depends(txns@, x as int, y as int)) || (y == b && x
                                        != b && exists|j: int|
                                        0 <= j < p && #[trigger] touches(txns@, x as int, ws@[j]))
                                        || (y == b && x != b && list@.take(q as int).contains(x)))),
                            decreases list@.len() - q,
                        {
                            let a = list[q];
                            proof {
                                assert(index@[i as int].1@[q as int] == a);
                                assert(list@.take(q + 1) =~= list@.take(q as int).push(a));
                                assert forall|x: usize| #[trigger] list@.take(q + 1).contains(x) == (
                                list@.take(q as int).contains(x) || x == a) by {
                                    lemma_push_contains(list@.take(q as int), a, x);
                                }
                            }
                            if a != b {
                                g.add_dependency(Node::new(a), Node::new(b));
                            }
                            q = q + 1;
                        }
                        proof {
                            assert(list@.take(list@.len() as int) =~= list@);
                            assert forall|x: usize, y: usize|
                                x < n && y < n implies (#[trigger] g.out_edges(x).contains(y) <==> ((
                                y < b && depends(txns@, x as int, y as int)) || (y == b && x != b
                                && exists|j: int|
                                0 <= j < p + 1 && #[trigger] touches(txns@, x as int, ws@[j])))) by {
                                if y == b && x != b {
                                    if list@.contains(x) {
                                        let c = choose|c: int| 0 <= c < list@.len() && list@[c] == x;
                                        assert(index@[i as int].1@[c] == x);
                                        assert(touches(txns@, x as int, ws@[p as int]));
                                    }
                                    if touches(txns@, x as int, ws@[p as int]) {
                                        lemma_index_complete(index@, txns@, x, k, i as int);
                                    }
                                    if exists|j: int| 0 <= j < p + 1 && #[trigger] touches(txns@, x as int, ws@[j]) {
                                        let j = choose|j: int| 0 <= j < p + 1 && #[trigger] touches(txns@, x as int, ws@[j]);
                                        if j < p {
                                            assert(exists|j2: int| 0 <= j2 < p && #[trigger] touches(txns@, x as int, ws@[j2]));
                                        }
                                    }
                                }
                            }
                        }
                    },
                    None => {
                        proof {
                            assert forall|x: usize| x < n implies !touches(txns@, x as int, k) by {
                                if touches(txns@, x as int, k) {
                                    assert(listed(index@, k, x));
                                    let i = choose|i: int| 0 <= i < index@.len() && index@[i].0 == k && index@[i].1@.contains(x);
                                }
                            }
                            assert forall|x: usize, y: usize|
                                x < n && y < n implies (#[trigger] g.out_edges(x).contains(y) <==> ((
                                y < b && depends(txns@, x as int, y as int)) || (y == b && x != b
                                && exists|j: int|
                                0 <= j < p + 1 && #[trigger] touches(txns@, x as int, ws@[j])))) by {
                                if y == b && x != b {
                                    if exists|j: int| 0 <= j < p + 1 && #[trigger] touches(txns@, x as int, ws@[j]) {
                                        let j = choose|j: int| 0 <= j < p + 1 && #[trigger] touches(txns@, x as int, ws@[j]);
                                        if j < p {
                                            assert(exists|j2: int| 0 <= j2 < p && #[trigger] touches(txns@, x as int, ws@[j2]));
                                        }
                                    }
                                }
                            }
                        }
                    },
                }
                p = p + 1;
            }
            proof {
                assert forall|x: usize, y: usize| x < n && y < n implies (#[trigger] g.out_edges(
                    x,
                ).contains(y) <==> (y < b + 1 && depends(txns@, x as int, y as int))) by {
                    if y == b && x != b {
                        if depends(txns@, x as int, y as int) {
                            let k = choose|k: StorageKey|
                                #[trigger] txns@[y as int].writes_spec().contains(k) && (
                                txns@[x as int].reads_spec().contains(k) || txns@[x as int].writes_spec().contains(k));
                            let j = choose|j: int| 0 <= j < ws@.len() && ws@[j] == k;
                            assert(touches(txns@, x as int, ws@[j]));
                        }
                        if exists|j: int| 0 <= j < ws@.len() && #[trigger] touches(txns@, x as int, ws@[j]) {
                            let j = choose|j: int| 0 <= j < ws@.len() && #[trigger] touches(txns@, x as int, ws@[j]);
                            assert(txns@[y as int].writes_spec().contains(ws@[j]));
                        }
                    }
                }
            }
            b = b + 1;
        }
        assert forall|a: usize, b: usize| a < n && b < n implies (#[trigger] g.in_edges(
            b,
        ).contains(a) <==> depends(txns@, a as int, b as int)) by {
            assert(g.out_edges(a).contains(b) <==> g.in_edges(b).contains(a));
        }
        g
    }
}

/// The index lists transaction `x` under key `k`.
pub open spec fn listed(idx: Seq<(StorageKey, Vec<usize>)>, k: StorageKey, x: usize) -> bool {
    exists|i: int| 0 <= i < idx.len() && idx[i].0 == k && idx[i].1@.contains(x)
}

/// Transaction `a` names key `k` among its read or write hints.
pub open spec fn touches(txns: Seq<AnalyzedTransaction>, a: int, k: StorageKey) -> bool {
    txns[a].reads_spec().contains(k) || txns[a].writes_spec().contains(k)
}

/// An index from keys to the transactions that name them: keys are
/// distinct, every listed transaction names its key, and every transaction
/// is listed under each key it names.
pub open spec fn hint_index_ok(idx: Seq<(StorageKey, Vec<usize>)>, txns: Seq<AnalyzedTransaction>) -> bool {
    &&& forall|i: int, j: int| 0 <= i < j < idx.len() ==> idx[i].0 != idx[j].0
    &&& forall|i: int| 0 <= i < idx.len() ==> (#[trigger] idx[i]).1@.len() > 0
    &&& forall|i: int, q: int|
        0 <= i < idx.len() && 0 <= q < idx[i].1@.len() ==> (#[trigger] idx[i].1@[q]) < txns.len()
            && touches(txns, idx[i].1@[q] as int, idx[i].0)
    &&& forall|a: usize, k: StorageKey|
        a < txns.len() && #[trigger] touches(txns, a as int, k) ==> listed(idx, k, a)
}

proof fn lemma_index_complete(
    idx: Seq<(StorageKey, Vec<usize>)>,
    txns: Seq<AnalyzedTransaction>,
    a: usize,
    k: StorageKey,
    i: int,
)
    requires
        hint_index_ok(idx, txns),
        a < txns.len(),
        touches(txns, a as int, k),
        0 <= i < idx.len(),
        idx[i].0 == k,
    ensures
        idx[i].1@.contains(a),
{
    assert(listed(idx, k, a));
    let i2 = choose|i2: int| 0 <= i2 < idx.len() && idx[i2].0 == k && idx[i2].1@.contains(a);
    if i2 != i {
        if i < i2 {
            assert(idx[i].0 != idx[i2].0);
        } else {
            assert(idx[i2].0 != idx[i].0);
        }
    }
}

/// The position of `k` in the index, if it is there.
fn index_lookup(idx: &Vec<(StorageKey, Vec<usize>)>, k: StorageKey) -> (r: Option<usize>)
    ensures
        match r {
            Some(i) => i < idx@.len() && idx@[i as int].0 == k,
            None => forall|i: int| 0 <= i < idx@.len() ==> idx@[i].0 != k,
        },
{
    let mut i: usize = 0;
    while i < idx.len()
        invariant
            i <= idx@.len(),
            forall|j: int| 0 <= j < i ==> idx@[j].0 != k,
        decreases idx@.len() - i,
    {
        if idx[i].0 == k {
            return Some(i);
        }
        i = i + 1;
    }
    None
}

/// Lists transaction `a` under key `k`.
fn index_insert(idx: &mut Vec<(StorageKey, Vec<usize>)>, k: StorageKey, a: usize)
    requires
        forall|i: int, j: int| 0 <= i < j < old(idx)@.len() ==> old(idx)@[i].0 != old(idx)@[j].0,
        forall|i: int| 0 <= i < old(idx)@.len() ==> (#[trigger] old(idx)@[i]).1@.len() > 0,
    ensures
        forall|i: int, j: int| 0 <= i < j < final(idx)@.len() ==> final(idx)@[i].0 != final(idx)@[j].0,
        forall|i: int| 0 <= i < final(idx)@.len() ==> (#[trigger] final(idx)@[i]).1@.len() > 0,
        forall|k2: StorageKey, x: usize|
            #[trigger] listed(final(idx)@, k2, x)
                <==> (listed(old(idx)@, k2, x)
                || (k2 == k && x == a)),
{
    match index_lookup(idx, k) {
        Some(i) => {
            let ghost before = idx@;
            let mut entry: (StorageKey, Vec<usize>) = (k, Vec::new());
            std::mem::swap(&mut entry, &mut idx[i]);
            entry.1.push(a);
            std::mem::swap(&mut entry, &mut idx[i]);
            proof {
                assert(idx@[i as int].1@ == before[i as int].1@.push(a));
                assert forall|k2: StorageKey, x: usize|
                    #[trigger] listed(idx@, k2, x)
                        <==> (listed(before, k2, x)
                        || (k2 == k && x == a)) by {
                    lemma_push_contains(before[i as int].1@, a, x);
                    if exists|j: int| 0 <= j < idx@.len() && idx@[j].0 == k2 && idx@[j].1@.contains(x) {
                        let j = choose|j: int| 0 <= j < idx@.len() && idx@[j].0 == k2 && idx@[j].1@.contains(x);
                        if j != i {
                            assert(idx@[j] == before[j]);
                        }
                    }
                    if exists|j: int| 0 <= j < before.len() && before[j].0 == k2 && before[j].1@.contains(x) {
                        let j = choose|j: int| 0 <= j < before.len() && before[j].0 == k2 && before[j].1@.contains(x);
                        if j != i {
                            assert(idx@[j] == before[j]);
                        } else {
                            assert(idx@[j].1@.contains(x));
                        }
                    }
                    if k2 == k && x == a {
                        assert(idx@[i as int].1@.contains(a));
                    }
                }
                assert forall|x: int, y: int| 0 <= x < y < idx@.len() implies idx@[x].0 != idx@[y].0 by {
                    assert(idx@[x].0 == before[x].0);
                    assert(idx@[y].0 == before[y].0);
                }
                assert forall|x: int| 0 <= x < idx@.len() implies (#[trigger] idx@[x]).1@.len() > 0 by {
                    if x != i {
                        assert(idx@[x] == before[x]);
                    }
                }
            }
        },
        None => {
            let ghost before = idx@;
            let mut list: Vec<usize> = Vec::new();
            list.push(a);
            idx.push((k, list));
            proof {
                let n = before.len() as int;
                assert(idx@[n].1@ == seq![a]);
                assert forall|k2: StorageKey, x: usize|
                    #[trigger] listed(idx@, k2, x)
                        <==> (listed(before, k2, x)
                        || (k2 == k && x == a)) by {
                    if exists|j: int| 0 <= j < idx@.len() && idx@[j].0 == k2 && idx@[j].1@.contains(x) {
                        let j = choose|j: int| 0 <= j < idx@.len() && idx@[j].0 == k2 && idx@[j].1@.contains(x);
                        if j < n {
                            assert(idx@[j] == before[j]);
                        } else {
                            let c = choose|c: int| 0 <= c < idx@[j].1@.len() && idx@[j].1@[c] == x;
                            assert(idx@[j].1@[c] == a);
                        }
                    }
                    if exists|j: int| 0 <= j < before.len() && before[j].0 == k2 && before[j].1@.contains(x) {
                        let j = choose|j: int| 0 <= j < before.len() && before[j].0 == k2 && before[j].1@.contains(x);
                        assert(idx@[j] == before[j]);
                    }
                    if k2 == k && x == a {
                        assert(idx@[n].1@[0] == a);
                        assert(idx@[n].1@.contains(a));
                    }
                }
                assert forall|x: int| 0 <= x < idx@.len() implies (#[trigger] idx@[x]).1@.len() > 0 by {
                    if x < n {
                        assert(idx@[x] == before[x]);
                    }
                }
                assert forall|x: int, y: int| 0 <= x < y < idx@.len() implies idx@[x].0 != idx@[y].0 by {
                    if y == n {
                        assert(idx@[x] == before[x]);
                    } else {
                        assert(idx@[x] == before[x]);
                        assert(idx@[y] == before[y]);
                    }
                }
            }
        },
    }
}

/// Indexes the block by hinted key: each key read or written, with the
/// transactions that name it.
fn build_hint_index(txns: &Vec<AnalyzedTransaction>) -> (r: Vec<(StorageKey, Vec<usize>)>)
    ensures
        hint_index_ok(r@, txns@),
{
    let mut idx: Vec<(StorageKey, Vec<usize>)> = Vec::new();
    let mut a: usize = 0;
    while a < txns.len()
        invariant
            a <= txns@.len(),
            forall|i: int, j: int| 0 <= i < j < idx@.len() ==> idx@[i].0 != idx@[j].0,
            forall|i: int| 0 <= i < idx@.len() ==> (#[trigger] idx@[i]).1@.len() > 0,
            forall|k: StorageKey, x: usize|
                #[trigger] listed(idx@, k, x) <==> (x < a && touches(txns@, x as int, k)),
        decreases txns@.len() - a,
    {
        let hints = txns[a].read_hints();
        let mut p: usize = 0;
        while p < hints.len()
            invariant
                a < txns@.len(),
                p <= hints@.len(),
                hints@ == txns@[a as int].reads_spec(),
                forall|i: int, j: int| 0 <= i < j < idx@.len() ==> idx@[i].0 != idx@[j].0,
                forall|i: int| 0 <= i < idx@.len() ==> (#[trigger] idx@[i]).1@.len() > 0,
                forall|k: StorageKey, x: usize|
                    #[trigger] listed(idx@, k, x) <==> ((x < a && touches(txns@, x as int, k)) || (x == a
                        && hints@.take(p as int).contains(k))),
            decreases hints@.len() - p,
        {
            index_insert(&mut idx, hints[p], a);
            proof {
                assert(hints@.take(p + 1) =~= hints@.take(p as int).push(hints@[p as int]));
                assert forall|k: StorageKey| #[trigger] hints@.take(p + 1).contains(k) == (hints@.take(
                    p as int,
                ).contains(k) || k == hints@[p as int]) by {
                    lemma_push_contains(hints@.take(p as int), hints@[p as int], k);
                }
            }
            p = p + 1;
        }
        let hints = txns[a].write_hints();
        let ghost reads = txns@[a as int].reads_spec();
        proof {
            assert(reads.take(reads.len() as int) =~= reads);
        }
        let mut p: usize = 0;
        while p < hints.len()
            invariant
                a < txns@.len(),
                p <= hints@.len(),
                hints@ == txns@[a as int].writes_spec(),
                reads == txns@[a as int].reads_spec(),
                forall|i: int, j: int| 0 <= i < j < idx@.len() ==> idx@[i].0 != idx@[j].0,
                forall|i: int| 0 <= i < idx@.len() ==> (#[trigger] idx@[i]).1@.len() > 0,
                forall|k: StorageKey, x: usize|
                    #[trigger] listed(idx@, k, x) <==> ((x < a && touches(txns@, x as int, k)) || (x == a && (
                        reads.contains(k) || hints@.take(p as int).contains(k)))),
            decreases hints@.len() - p,
        {
            index_insert(&mut idx, hints[p], a);
            proof {
                assert(hints@.take(p + 1) =~= hints@.take(p as int).push(hints@[p as int]));
                assert forall|k: StorageKey| #[trigger] hints@.take(p + 1).contains(k) == (hints@.take(
                    p as int,
                ).contains(k) || k == hints@[p as int]) by {
                    lemma_push_contains(hints@.take(p as int), hints@[p as int], k);
                }
            }
            p = p + 1;
        }
        proof {
            assert(hints@.take(hints@.len() as int) =~= hints@);
        }
        a = a + 1;
    }
    proof {
        assert forall|i: int, q: int|
            0 <= i < idx@.len() && 0 <= q < idx@[i].1@.len() implies (#[trigger] idx@[i].1@[q]) < txns@.len()
                && touches(txns@, idx@[i].1@[q] as int, idx@[i].0) by {
            assert(idx@[i].1@.contains(idx@[i].1@[q]));
            assert(listed(idx@, idx@[i].0, idx@[i].1@[q]));
        }
        assert forall|x: usize, k: StorageKey|
            x < txns@.len() && #[trigger] touches(txns@, x as int, k) implies listed(idx@, k, x) by {
            assert(listed(idx@, k, x) <==> (x < a && touches(txns@, x as int, k)));
        }
    }
    idx
}

proof fn lemma_push_no_duplicates(s: Seq<usize>, x: usize)
    requires
        s.no_duplicates(),
        !s.contains(x),
    ensures
        s.push(x).no_duplicates(),
{
    let t = s.push(x);
    assert forall|i: int, j: int| 0 <= i < t.len() && 0 <= j < t.len() && i != j implies t[i]
        != t[j] by {
        if i == s.len() {
            assert(s[j] == t[j]);
        } else if j == s.len() {
            assert(s[i] == t[i]);
        }
    }
}

fn contains_node(v: &Vec<Node>, x: Node) -> (r: bool)
    ensures
        r == node_indices(v@).contains(x.index),
{
    let mut p: usize = 0;
    while p < v.len()
        invariant
            p <= v@.len(),
            forall|q: int| 0 <= q < p ==> v@[q].index != x.index,
        decreases v@.len() - p,
    {
        if v[p].index == x.index {
            assert(node_indices(v@)[p as int] == x.index);
            return true;
        }
        p = p + 1;
    }
    false
}

} // verus!
