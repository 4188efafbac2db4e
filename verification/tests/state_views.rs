//! Tests of the presentation-facing state: block summaries, the bounded
//! recent-block window, configuration values, and the machine skeleton.

use adamas::avm::VirtualMachine;
use adamas::block::Block;
use adamas::config::NodeConfig;
use adamas::views::{AppState, BlockView, LATEST_BLOCKS_LIMIT};

fn sample_config() -> NodeConfig {
    NodeConfig::new(
        String::from("LogisticaChain"),
        String::from("1.0-Enterprise"),
        String::from("./db_test"),
        String::from("Warehouse Node"),
        4001,
    )
}

#[test]
fn config_keeps_its_values() {
    let c = sample_config();
    assert_eq!(c.chain_name.as_str(), "LogisticaChain");
    assert_eq!(c.version.as_str(), "1.0-Enterprise");
    assert_eq!(c.db_path.as_str(), "./db_test");
    assert_eq!(c.node_role.as_str(), "Warehouse Node");
    assert_eq!(c.server_port, 4001);
}

#[test]
fn block_view_summarizes_and_saturates() {
    let b = Block::with_timestamp(7, 1000, String::from("p"), String::from("d"), String::from("v"));
    let v = BlockView::of_block(&b, 3);
    assert_eq!(v.index, 7);
    assert_eq!(v.hash.as_str(), b.hash.as_str());
    assert_eq!(v.tx_count, 3);
    assert_eq!(v.timestamp, 1000);

    let wide = Block::with_timestamp(
        8,
        u128::MAX,
        String::from("p"),
        String::from("d"),
        String::from("v"),
    );
    let w = BlockView::of_block(&wide, 0);
    assert_eq!(w.timestamp, u64::MAX);
}

#[test]
fn app_state_window_is_bounded() {
    let mut state = AppState::new(sample_config());
    for i in 0..(LATEST_BLOCKS_LIMIT as u64 + 5) {
        let b = Block::with_timestamp(
            i,
            0,
            String::from("p"),
            String::from("d"),
            String::from("v"),
        );
        state.record_block(BlockView::of_block(&b, 0));
    }
    assert_eq!(state.latest_blocks.len(), LATEST_BLOCKS_LIMIT);
    // The newest entry is last; the oldest entries were dropped.
    let last = state.latest_blocks.last().unwrap();
    assert_eq!(last.index, LATEST_BLOCKS_LIMIT as u64 + 4);
    assert_eq!(state.latest_blocks[0].index, 5);
}

#[test]
fn virtual_machine_starts_empty() {
    let vm = VirtualMachine::new();
    assert!(vm.memory.is_empty());
}
