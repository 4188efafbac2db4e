//! End-to-end scenarios over whole nodes: sealing over genesis, gossip
//! between nodes, and convergence.

use adamas::chain::SyncOutcome;
use adamas::network_messages::encode_block_envelope;
use adamas::node::{HandleOutcome, Node};
use adamas::payload::decode_payload;
use adamas::transaction::Transaction;
use adamas::wallet::Wallet;
use adamas::LedgerError;

#[test]
fn sealed_block_extends_genesis_and_gossips_to_a_peer() {
    let mut node1 = Node::new(String::from("node-1"));
    let genesis_hash = node1.chain.head().hash.clone();

    let wallet = Wallet::new();
    let tx = Transaction::new(&wallet, String::from("receiver-9"), 17);
    assert!(node1.submit(tx.duplicate()));
    assert_eq!(node1.get_pending_count(), 1);

    // Sealing produces block #1 over the genesis, carrying the batch.
    let block1 = node1.seal().expect("sealing must succeed");
    assert_eq!(node1.get_pending_count(), 0);
    assert_eq!(block1.index, 1);
    assert_eq!(block1.previous_hash.as_str(), genesis_hash.as_str());
    assert_eq!(block1.calculate_hash().as_str(), block1.hash.as_str());
    let carried = decode_payload(block1.data.as_str()).expect("payload must reopen");
    assert_eq!(carried.len(), 1);
    assert_eq!(carried[0].signature.as_str(), tx.signature.as_str());

    // A second node starting from the same genesis accepts it via gossip
    // and advances to the identical head.
    let mut node2 = Node::new(String::from("node-2"));
    assert_eq!(node2.chain.head().hash.as_str(), genesis_hash.as_str());
    let wire = encode_block_envelope(&block1);
    match node2.handle_wire(wire.as_slice()) {
        Ok(HandleOutcome::Block(outcome)) => assert_eq!(outcome, SyncOutcome::Extended),
        other => panic!("unexpected outcome: {:?}", other.map(|_| ())),
    }
    assert_eq!(node2.chain.head().hash.as_str(), block1.hash.as_str());
    assert_eq!(node1.chain.head().hash.as_str(), node2.chain.head().hash.as_str());
}

#[test]
fn malformed_wire_bytes_are_absorbed() {
    let mut node = Node::new(String::from("node"));
    assert!(matches!(node.handle_wire(&[]), Err(LedgerError::Decode)));
    assert!(matches!(node.handle_wire(&[1u8, 2, 3]), Err(LedgerError::Decode)));
    // An unknown tag is ignored, not an error.
    assert!(matches!(node.handle_wire(&[77u8]), Ok(HandleOutcome::Ignored)));
    assert_eq!(node.chain.block_count(), 1);
}

#[test]
fn gossiped_transactions_reach_the_mempool() {
    let wallet = Wallet::new();
    let tx = Transaction::new(&wallet, String::from("elsewhere"), 3);
    let wire = adamas::network_messages::encode_transaction_envelope(&tx);

    let mut node = Node::new(String::from("node"));
    match node.handle_wire(wire.as_slice()) {
        Ok(HandleOutcome::Transaction(admitted)) => assert!(admitted),
        other => panic!("unexpected outcome: {:?}", other.map(|_| ())),
    }
    assert_eq!(node.get_pending_count(), 1);

    // A forged transaction is refused at the same door.
    let mut forged = tx.duplicate();
    forged.amount = 4;
    let bad_wire = adamas::network_messages::encode_transaction_envelope(&forged);
    match node.handle_wire(bad_wire.as_slice()) {
        Ok(HandleOutcome::Transaction(admitted)) => assert!(!admitted),
        other => panic!("unexpected outcome: {:?}", other.map(|_| ())),
    }
    assert_eq!(node.get_pending_count(), 1);
}

#[test]
fn three_nodes_converge_after_a_fork() {
    let mut a = Node::new(String::from("a"));
    let mut b = Node::new(String::from("b"));
    let mut c = Node::new(String::from("c"));

    let a1 = a.seal().expect("seal");
    let b1 = b.seal().expect("seal");

    let wire_a1 = encode_block_envelope(&a1);
    let wire_b1 = encode_block_envelope(&b1);

    // Everyone sees both competing blocks, in different orders.
    a.handle_wire(wire_b1.as_slice()).unwrap();
    b.handle_wire(wire_a1.as_slice()).unwrap();
    c.handle_wire(wire_b1.as_slice()).unwrap();
    c.handle_wire(wire_a1.as_slice()).unwrap();

    // The deterministic tie-break already aligns the heads.
    assert_eq!(a.chain.head().hash.as_str(), b.chain.head().hash.as_str());
    assert_eq!(a.chain.head().hash.as_str(), c.chain.head().hash.as_str());

    // A longer extension of one branch wins on every node.
    let a2 = a.seal().expect("seal");
    let wire_a2 = encode_block_envelope(&a2);
    b.handle_wire(wire_a2.as_slice()).unwrap();
    c.handle_wire(wire_a2.as_slice()).unwrap();
    assert_eq!(a.chain.head().hash.as_str(), a2.hash.as_str());
    assert_eq!(b.chain.head().hash.as_str(), a2.hash.as_str());
    assert_eq!(c.chain.head().hash.as_str(), a2.hash.as_str());
    assert_eq!(c.chain.head().index, 2);

    // The chain view read off any node is the same linked history.
    let view_a = a.get_chain_view();
    let view_c = c.get_chain_view();
    assert_eq!(view_a.len(), 3);
    assert_eq!(view_c.len(), 3);
    for i in 0..3 {
        assert_eq!(view_a[i].hash.as_str(), view_c[i].hash.as_str());
    }
}
