use parallel_executor::dependency_graph::{AnalyzedTransaction, DependencyGraph, Node};
use parallel_executor::types::{PathKind, StorageKey};
use std::collections::HashSet;

fn generate_test_account(next: &mut u64) -> u64 {
    *next += 1;
    *next
}

/// A transfer from `sender` to `receiver`: both accounts are read and written.
fn p2p_transaction(sender: u64, receiver: u64) -> AnalyzedTransaction {
    let keys = vec![
        StorageKey::new(sender, PathKind::Data),
        StorageKey::new(receiver, PathKind::Data),
    ];
    AnalyzedTransaction::new(keys.clone(), keys)
}

fn create_signed_p2p_transaction(sender: u64, receivers: Vec<u64>) -> Vec<AnalyzedTransaction> {
    receivers.into_iter().map(|r| p2p_transaction(sender, r)).collect()
}

fn create_no_dependency_transaction(next: &mut u64) -> AnalyzedTransaction {
    let sender = generate_test_account(next);
    let receiver = generate_test_account(next);
    p2p_transaction(sender, receiver)
}

fn assert_all_others(lists: &Vec<Vec<Node>>, num_txns: usize) {
    for (index, dependencies) in lists.iter().enumerate() {
        assert_eq!(dependencies.len(), num_txns - 1);
        let mut expected_indices: HashSet<usize> = (0..=num_txns - 1).collect();
        expected_indices.remove(&index);
        for dependency in dependencies {
            expected_indices.remove(&dependency.index());
        }
        assert_eq!(expected_indices.len(), 0);
    }
}

#[test]
fn test_single_sender_txns() {
    let mut next = 0;
    let sender = generate_test_account(&mut next);
    let mut receivers = Vec::new();
    let num_txns = 10;
    for _ in 0..num_txns {
        receivers.push(generate_test_account(&mut next));
    }
    let transactions = create_signed_p2p_transaction(sender, receivers);
    let dependency_graph = DependencyGraph::create_dependency_graph(&transactions);
    assert_eq!(dependency_graph.size(), num_txns);
    let adjacency_list = dependency_graph.get_adjacency_list();
    let reverse_adjacency_list = dependency_graph.get_reverse_adjacency_list();
    assert_eq!(adjacency_list.len(), num_txns);
    assert_eq!(reverse_adjacency_list.len(), num_txns);
    assert_all_others(adjacency_list, num_txns);
    assert_all_others(reverse_adjacency_list, num_txns);
}

#[test]
fn test_non_conflicting_txns() {
    let num_senders = 10;
    let num_receivers = 10;
    let mut next = 0;
    let mut senders = Vec::new();
    let mut receivers = Vec::new();
    for _ in 0..num_senders {
        senders.push(generate_test_account(&mut next));
    }
    for _ in 0..num_receivers {
        receivers.push(generate_test_account(&mut next));
    }
    let mut transactions = Vec::new();
    for (i, sender) in senders.iter().enumerate() {
        let receiver = receivers[i];
        transactions.extend(create_signed_p2p_transaction(*sender, vec![receiver]));
    }
    let dependency_graph = DependencyGraph::create_dependency_graph(&transactions);
    assert_eq!(dependency_graph.size(), num_senders);
    for dependencies in dependency_graph.get_adjacency_list().iter() {
        assert_eq!(dependencies.len(), 0);
    }
    for reverse_dependencies in dependency_graph.get_reverse_adjacency_list().iter() {
        assert_eq!(reverse_dependencies.len(), 0);
    }
}

#[test]
fn test_chained_txns() {
    let mut next = 0;
    let mut accounts = Vec::new();
    let num_txns = 10;
    for _ in 0..num_txns {
        accounts.push(generate_test_account(&mut next));
    }
    let mut transactions = Vec::new();
    for i in 0..num_txns {
        let sender = accounts[i];
        let receiver = accounts[(i + 1) % num_txns];
        transactions.extend(create_signed_p2p_transaction(sender, vec![receiver]));
    }
    let dependency_graph = DependencyGraph::create_dependency_graph(&transactions);
    assert_eq!(dependency_graph.size(), num_txns);
    let adjacency_list = dependency_graph.get_adjacency_list();
    let reverse_adjacency_list = dependency_graph.get_reverse_adjacency_list();
    assert_eq!(adjacency_list.len(), num_txns);
    assert_eq!(reverse_adjacency_list.len(), num_txns);
    for lists in [adjacency_list, reverse_adjacency_list] {
        for (index, dependencies) in lists.iter().enumerate() {
            assert_eq!(dependencies.len(), 2);
            let prev_index = if index == 0 { num_txns - 1 } else { index - 1 };
            let mut expected_indices: HashSet<usize> =
                vec![(index + 1) % num_txns, prev_index].into_iter().collect();
            for dependency in dependencies {
                expected_indices.remove(&dependency.index());
            }
            assert_eq!(expected_indices.len(), 0);
        }
    }
    let directed: usize = adjacency_list.iter().map(|d| d.len()).sum();
    assert_eq!(directed, 20);
    assert_eq!(directed / 2, 10);
}

#[test]
fn test_no_dependency_txns() {
    let num_txns = 10;
    let mut next = 0;
    let transactions: Vec<AnalyzedTransaction> = (0..num_txns)
        .map(|_| create_no_dependency_transaction(&mut next))
        .collect();
    let dependency_graph = DependencyGraph::create_dependency_graph(&transactions);
    assert_eq!(dependency_graph.size(), num_txns);
    for dependencies in dependency_graph.get_adjacency_list().iter() {
        assert!(dependencies.is_empty());
    }
    for reverse_dependencies in dependency_graph.get_reverse_adjacency_list().iter() {
        assert!(reverse_dependencies.is_empty());
    }
}

#[test]
fn graph_reader_depends_on_writer_only() {
    // Txn 0 only reads key 1, txn 1 writes it: 0 depends on 1, not back.
    let k = StorageKey::new(1, PathKind::Data);
    let txns = vec![
        AnalyzedTransaction::new(vec![k], vec![]),
        AnalyzedTransaction::new(vec![], vec![k]),
    ];
    let g = DependencyGraph::create_dependency_graph(&txns);
    assert_eq!(g.get_adjacency_list()[0], vec![Node::new(1)]);
    assert!(g.get_adjacency_list()[1].is_empty());
    assert_eq!(g.get_dependent_nodes(Node::new(1)).unwrap(), &vec![Node::new(0)]);
    assert!(g.get_dependent_nodes(Node::new(5)).is_none());
}

#[test]
fn graph_add_dependency_is_idempotent() {
    let mut g = DependencyGraph::new(3);
    g.add_dependency(Node::new(2), Node::new(0));
    g.add_dependency(Node::new(2), Node::new(0));
    assert_eq!(g.get_adjacency_list()[2], vec![Node::new(0)]);
    assert_eq!(g.get_reverse_adjacency_list()[0], vec![Node::new(2)]);
}
