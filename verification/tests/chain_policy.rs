//! Tests of the chain store: append discipline, the acceptance policy,
//! orphan handling, and the fork-choice rule.

use adamas::block::Block;
use adamas::chain::{Blockchain, SyncOutcome};
use adamas::LedgerError;

fn sealed_on(chain: &Blockchain, data: &str, validator: &str) -> Block {
    Block::new(
        chain.head().index + 1,
        chain.head().hash.clone(),
        String::from(data),
        String::from(validator),
    )
}

#[test]
fn append_accepts_only_the_direct_successor() {
    let mut chain = Blockchain::new();
    let genesis_hash = chain.head().hash.clone();

    // A block whose previous_hash is not the head is refused, even
    // though its own hash checks out.
    let stray = Block::new(1, "aa".repeat(32), String::from("x"), String::from("v"));
    assert_eq!(stray.calculate_hash().as_str(), stray.hash.as_str());
    assert_eq!(chain.append(stray), Err(LedgerError::Integrity));
    assert_eq!(chain.block_count(), 1);

    // A block at the wrong height is refused.
    let too_high = Block::new(5, genesis_hash.clone(), String::from("x"), String::from("v"));
    assert_eq!(chain.append(too_high), Err(LedgerError::Integrity));

    // A tampered block is refused.
    let mut forged = Block::new(1, genesis_hash.clone(), String::from("x"), String::from("v"));
    forged.data = String::from("y");
    assert_eq!(chain.append(forged), Err(LedgerError::Integrity));

    // The direct successor is accepted, and appending it again is a
    // duplicate.
    let good = Block::new(1, genesis_hash, String::from("x"), String::from("v"));
    let copy = good.duplicate();
    assert_eq!(chain.append(good), Ok(()));
    assert_eq!(chain.block_count(), 2);
    assert_eq!(chain.head().index, 1);
    assert_eq!(chain.append(copy), Err(LedgerError::Duplicate));
    assert_eq!(chain.block_count(), 2);
}

#[test]
fn receive_block_classifies_and_buffers_orphans() {
    let mut chain = Blockchain::new();
    let b1 = sealed_on(&chain, "one", "v");
    let b2 = Block::new(2, b1.hash.clone(), String::from("two"), String::from("v"));

    // The duplicate of the genesis is dropped silently.
    let genesis_copy = chain.head().duplicate();
    assert_eq!(chain.receive_block(genesis_copy), SyncOutcome::Duplicate);

    // A corrupt block is rejected.
    let mut corrupt = b1.duplicate();
    corrupt.data = String::from("changed");
    assert_eq!(chain.receive_block(corrupt), SyncOutcome::Rejected);

    // A block whose predecessor is unknown waits as an orphan.
    assert_eq!(chain.receive_block(b2.duplicate()), SyncOutcome::Orphaned);
    assert_eq!(chain.block_count(), 1);

    // When its predecessor arrives, the orphan is adopted too.
    assert_eq!(chain.receive_block(b1), SyncOutcome::Extended);
    assert_eq!(chain.block_count(), 3);
    assert_eq!(chain.head().index, 2);
    assert_eq!(chain.head().hash.as_str(), b2.hash.as_str());

    // Replay of an already-adopted block is a duplicate.
    assert_eq!(chain.receive_block(b2), SyncOutcome::Duplicate);
}

#[test]
fn competing_branches_converge_deterministically() {
    let mut node_a = Blockchain::new();
    let mut node_b = Blockchain::new();
    assert_eq!(node_a.head().hash.as_str(), node_b.head().hash.as_str());

    // Each node seals its own competing block over the same genesis.
    let a1 = node_a.add_block(String::from("from a"), String::from("a")).unwrap();
    let b1 = node_b.add_block(String::from("from b"), String::from("b")).unwrap();
    assert_ne!(a1.hash.as_str(), b1.hash.as_str());

    // After both propagate, the equal-length tie is broken the same way
    // on both nodes: they agree on a head.
    node_a.receive_block(b1.duplicate());
    node_b.receive_block(a1.duplicate());
    assert_eq!(node_a.head().hash.as_str(), node_b.head().hash.as_str());

    // A longer valid extension of one branch wins everywhere.
    let a2 = node_a.add_block(String::from("extension"), String::from("a")).unwrap();
    assert_eq!(node_b.receive_block(a2.duplicate()), SyncOutcome::Extended);
    assert_eq!(node_a.head().hash.as_str(), a2.hash.as_str());
    assert_eq!(node_b.head().hash.as_str(), a2.hash.as_str());
    assert_eq!(node_b.head().index, 2);
}

#[test]
fn main_branch_reads_back_the_linked_history() {
    let mut chain = Blockchain::new();
    let b1 = chain.add_block(String::from("one"), String::from("v")).unwrap();
    let b2 = chain.add_block(String::from("two"), String::from("v")).unwrap();

    let branch = chain.main_branch();
    assert_eq!(branch.len(), 3);
    assert_eq!(branch[0].index, 0);
    assert_eq!(branch[1].hash.as_str(), b1.hash.as_str());
    assert_eq!(branch[2].hash.as_str(), b2.hash.as_str());
    assert_eq!(branch[1].previous_hash.as_str(), branch[0].hash.as_str());
    assert_eq!(branch[2].previous_hash.as_str(), branch[1].hash.as_str());
}
