use sniffooor::felt::Felt;
use sniffooor::monitor::{liquidity_token_lookups, MonitorState, PartialLookup};
use sniffooor::sniffooor::chain::strknet::StarknetChain;
use sniffooor::sniffooor::chain::types::InvokeTransactionV1;
use sniffooor::sniffooor::chain::Tx;
use sniffooor::sniffooor::{is_add_liquidity, liquidity_txs, missing_tx_count, sniff_step, SniffState};

fn felt(v: u64) -> Felt {
    let mut bytes = [0u8; 32];
    bytes[24..].copy_from_slice(&v.to_be_bytes());
    Felt::from_bytes_be(bytes).unwrap()
}

fn felts(vs: &[u64]) -> Vec<Felt> {
    vs.iter().map(|v| felt(*v)).collect()
}

#[test]
fn is_add_liquidity_finds_both_values() {
    assert!(is_add_liquidity(&felt(1), &felt(2), &felts(&[7, 1, 8, 2])));
    assert!(is_add_liquidity(&felt(1), &felt(2), &felts(&[2, 1])));
    assert!(is_add_liquidity(&felt(1), &felt(2), &felts(&[1, 2, 1, 2])));
}

#[test]
fn is_add_liquidity_needs_both_values() {
    assert!(!is_add_liquidity(&felt(1), &felt(2), &felts(&[1, 1, 3])));
    assert!(!is_add_liquidity(&felt(1), &felt(2), &felts(&[2])));
    assert!(!is_add_liquidity(&felt(1), &felt(2), &[]));
}

#[test]
fn is_add_liquidity_with_equal_values_is_false() {
    assert!(!is_add_liquidity(&felt(1), &felt(1), &felts(&[1, 1])));
}

#[test]
fn is_add_liquidity_laws_on_examples() {
    let c = felts(&[3, 2, 9, 1]);
    let mut longer = c.clone();
    longer.extend(felts(&[4, 5]));
    let mut reversed = c.clone();
    reversed.reverse();
    assert!(is_add_liquidity(&felt(1), &felt(2), &c));
    assert!(is_add_liquidity(&felt(1), &felt(2), &longer));
    assert!(is_add_liquidity(&felt(1), &felt(2), &reversed));
    assert!(is_add_liquidity(&felt(2), &felt(1), &c));
}

#[test]
fn sniff_step_on_a_new_block() {
    let state = SniffState::new();
    let (next, action) = sniff_step(&state, &"0xab".to_string(), 5);
    assert!(!action.same_block);
    assert_eq!(action.check_missing_from, Some(0));
    assert_eq!(action.scan_from, 0);
    assert_eq!(next.latest_block_hash, "0xab");
    assert_eq!(next.latest_block_len, 5);
}

#[test]
fn sniff_step_on_the_same_block_reads_only_new_txs() {
    let state = SniffState { latest_block_hash: "0xab".to_string(), latest_block_len: 5 };
    let (next, action) = sniff_step(&state, &"0xab".to_string(), 8);
    assert!(action.same_block);
    assert_eq!(action.check_missing_from, None);
    assert_eq!(action.scan_from, 5);
    assert_eq!(next.latest_block_len, 8);
}

#[test]
fn sniff_step_on_a_shrunk_block_reads_from_the_start() {
    let state = SniffState { latest_block_hash: "0xab".to_string(), latest_block_len: 5 };
    let (_, action) = sniff_step(&state, &"0xab".to_string(), 3);
    assert!(action.same_block);
    assert_eq!(action.scan_from, 0);
}

#[test]
fn sniff_step_after_a_block_change_checks_missing() {
    let state = SniffState { latest_block_hash: "0xab".to_string(), latest_block_len: 7 };
    let (next, action) = sniff_step(&state, &"0xac".to_string(), 2);
    assert!(!action.same_block);
    assert_eq!(action.check_missing_from, Some(7));
    assert_eq!(action.scan_from, 0);
    assert_eq!(next.latest_block_hash, "0xac");
    assert_eq!(next.latest_block_len, 2);
}

#[test]
fn liquidity_txs_lists_matches_from_an_index() {
    let chain = StarknetChain::new();
    let tx = |calldata: Vec<Felt>| Tx::Starknet(InvokeTransactionV1 { transaction_hash: felt(0), calldata });
    let hit = vec![chain.amm_contract, chain.add_liquidity];
    let txs = vec![tx(hit.clone()), tx(vec![]), tx(hit.clone()), tx(felts(&[1])), tx(hit.clone())];
    assert_eq!(liquidity_txs(&chain, &txs, 0), vec![0, 2, 4]);
    assert_eq!(liquidity_txs(&chain, &txs, 1), vec![2, 4]);
    assert_eq!(liquidity_txs(&chain, &txs, 5), Vec::<usize>::new());
}

#[test]
fn missing_tx_count_counts_unread_txs() {
    assert_eq!(missing_tx_count(3, 7), Some(4));
    assert_eq!(missing_tx_count(0, 2), Some(2));
    assert_eq!(missing_tx_count(5, 5), None);
}

#[test]
fn token_lookups_follow_each_selector() {
    let amm = felt(100);
    let add = felt(200);
    let calldata = felts(&[100, 200, 1, 11, 12, 5, 200, 7, 21, 22]);
    let (pairs, cut_short) = liquidity_token_lookups(&calldata, &amm, &add);
    assert_eq!(pairs, vec![(felt(11), felt(12)), (felt(21), felt(22))]);
    assert_eq!(cut_short, None);
}

#[test]
fn token_lookups_stop_after_the_first_token_past_the_end() {
    let amm = felt(100);
    let add = felt(200);
    let calldata = felts(&[100, 200, 1, 11, 12, 200, 2, 31]);
    let (pairs, cut_short) = liquidity_token_lookups(&calldata, &amm, &add);
    assert_eq!(pairs, vec![(felt(11), felt(12))]);
    assert_eq!(cut_short, Some(PartialLookup::FirstToken(felt(31))));
}

#[test]
fn token_lookups_stop_with_no_token_past_the_end() {
    let calldata = felts(&[100, 7, 200, 1]);
    let (pairs, cut_short) = liquidity_token_lookups(&calldata, &felt(100), &felt(200));
    assert!(pairs.is_empty());
    assert_eq!(cut_short, Some(PartialLookup::NoToken));
}

#[test]
fn token_lookups_ignore_selectors_after_the_cut() {
    let calldata = felts(&[100, 200, 200, 200, 9]);
    let (pairs, cut_short) = liquidity_token_lookups(&calldata, &felt(100), &felt(200));
    assert_eq!(pairs, vec![(felt(200), felt(9))]);
    assert_eq!(cut_short, Some(PartialLookup::FirstToken(felt(9))));
}

#[test]
fn token_lookups_need_the_amm_contract() {
    let calldata = felts(&[200, 1, 11, 12]);
    let (pairs, cut_short) = liquidity_token_lookups(&calldata, &felt(100), &felt(200));
    assert!(pairs.is_empty());
    assert_eq!(cut_short, None);
}

#[test]
fn monitor_starts_from_the_zero_hash() {
    let state = MonitorState::new();
    assert_eq!(state.latest_block_hash, felt(0));
    let (next, same) = state.step(&felt(0));
    assert!(same);
    assert_eq!(next.latest_block_hash, felt(0));
}

#[test]
fn monitor_step_remembers_the_parent() {
    let state = MonitorState::new();
    let (next, same) = state.step(&felt(42));
    assert!(!same);
    assert_eq!(next.latest_block_hash, felt(42));
    let (again, same) = next.step(&felt(42));
    assert!(same);
    assert_eq!(again.latest_block_hash, felt(42));
}

#[test]
fn polls_of_one_block_read_each_tx_once() {
    let mut state = SniffState::new();
    let mut read = Vec::new();
    for len in [2usize, 2, 5, 7] {
        let (next, action) = sniff_step(&state, &"0xab".to_string(), len);
        read.extend(action.scan_from..len);
        state = next;
    }
    assert_eq!(read, (0..7).collect::<Vec<usize>>());
}
