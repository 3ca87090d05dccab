use sniffooor::felt::{Felt, ShortStringError};
use sniffooor::sniffooor::chain::strknet::{StarknetChain, JEDISWAP, JEDISWAP_ADD_LIQUIDITY};
use sniffooor::sniffooor::chain::types::{
    BlockWithTxs, InvokeTransaction, InvokeTransactionV1, PendingBlockWithTxs, Transaction,
};
use sniffooor::sniffooor::chain::{Block, Chain, DataType, Token, Tx};

fn felt(v: u64) -> Felt {
    let mut bytes = [0u8; 32];
    bytes[24..].copy_from_slice(&v.to_be_bytes());
    Felt::from_bytes_be(bytes).unwrap()
}

fn felt_from_tail(tail: &[u8]) -> Felt {
    let mut bytes = [0u8; 32];
    bytes[32 - tail.len()..].copy_from_slice(tail);
    Felt::from_bytes_be(bytes).unwrap()
}

fn invoke(hash: u64, calldata: Vec<Felt>) -> InvokeTransactionV1 {
    InvokeTransactionV1 { transaction_hash: felt(hash), calldata }
}

fn mixed_transactions(chain: &StarknetChain) -> Vec<Transaction> {
    vec![
        Transaction::Invoke(InvokeTransaction::V1(invoke(1, vec![chain.amm_contract, felt(5)]))),
        Transaction::Declare(felt(2)),
        Transaction::Invoke(InvokeTransaction::V0(felt(3))),
        Transaction::Invoke(InvokeTransaction::V1(invoke(
            4,
            vec![felt(9), chain.add_liquidity, chain.amm_contract],
        ))),
        Transaction::L1Handler(felt(5)),
        Transaction::Deploy(felt(6)),
        Transaction::DeployAccount(felt(7)),
    ]
}

fn hashes(txs: &[Tx]) -> Vec<String> {
    txs.iter().map(|t| t.get_tx_hash()).collect()
}

#[test]
fn new_reads_the_jediswap_constants() {
    let chain = StarknetChain::new();
    assert_eq!(chain.amm_contract.to_hex_string(), JEDISWAP);
    assert_eq!(chain.add_liquidity.to_hex_string(), JEDISWAP_ADD_LIQUIDITY);
    assert_eq!(chain.amm_contract, Felt::from_hex_be(JEDISWAP).unwrap());
}

#[test]
fn amm_parameter_is_the_contract_and_selector() {
    let chain = StarknetChain::new();
    let (a, b) = chain.get_amm_parameter();
    let DataType::FieldElement(a) = a;
    let DataType::FieldElement(b) = b;
    assert_eq!(a, chain.amm_contract);
    assert_eq!(b, chain.add_liquidity);
}

#[test]
fn extract_tx_keeps_invoke_v1_in_order() {
    let chain = StarknetChain::new();
    let pending = Block::Starknet(PendingBlockWithTxs {
        parent_hash: felt(100),
        transactions: mixed_transactions(&chain),
    });
    let txs = chain.extract_tx(&pending);
    assert_eq!(hashes(&txs), vec!["0x1".to_string(), "0x4".to_string()]);
    let latest = Block::StarknetLatest(BlockWithTxs {
        block_hash: felt(101),
        parent_hash: felt(100),
        transactions: mixed_transactions(&chain),
    });
    let txs = latest.get_txs(&chain);
    assert_eq!(hashes(&txs), vec!["0x1".to_string(), "0x4".to_string()]);
    let Tx::Starknet(second) = &txs[1];
    assert_eq!(second.calldata, vec![felt(9), chain.add_liquidity, chain.amm_contract]);
}

#[test]
fn extract_tx_of_an_empty_block_is_empty() {
    let chain = StarknetChain::new();
    let block = Block::Starknet(PendingBlockWithTxs { parent_hash: felt(1), transactions: vec![] });
    assert!(chain.extract_tx(&block).is_empty());
}

#[test]
fn get_txs_through_a_trait_object() {
    let chain = StarknetChain::new();
    let handler: &dyn Chain = &chain;
    let block = Block::Starknet(PendingBlockWithTxs {
        parent_hash: felt(1),
        transactions: mixed_transactions(&chain),
    });
    let txs = block.get_txs(handler);
    assert_eq!(txs.len(), 2);
    assert!(!txs[0].is_add_liquidity(handler));
    assert!(txs[1].is_add_liquidity(handler));
}

#[test]
fn block_hashes_as_text() {
    let pending = Block::Starknet(PendingBlockWithTxs { parent_hash: felt(0xab), transactions: vec![] });
    assert_eq!(pending.get_current_hash(), "PENDING");
    assert_eq!(pending.get_parent_hash(), "0xab");
    let latest = Block::StarknetLatest(BlockWithTxs {
        block_hash: felt(0x1c),
        parent_hash: felt(0),
        transactions: vec![],
    });
    assert_eq!(latest.get_current_hash(), "0x1c");
    assert_eq!(latest.get_parent_hash(), "0x0");
}

#[test]
fn tx_hash_as_text() {
    let tx = Tx::Starknet(invoke(0xfeed, vec![]));
    assert_eq!(tx.get_tx_hash(), "0xfeed");
}

#[test]
fn starknet_is_add_liquidity_needs_both_values() {
    let chain = StarknetChain::new();
    let both = Tx::Starknet(invoke(1, vec![felt(1), chain.add_liquidity, felt(2), chain.amm_contract]));
    let amm_only = Tx::Starknet(invoke(2, vec![chain.amm_contract, felt(3)]));
    let selector_only = Tx::Starknet(invoke(3, vec![chain.add_liquidity]));
    let neither = Tx::Starknet(invoke(4, vec![]));
    assert!(chain.is_add_liquidity(&both));
    assert!(both.is_add_liquidity(&chain));
    assert!(!chain.is_add_liquidity(&amm_only));
    assert!(!chain.is_add_liquidity(&selector_only));
    assert!(!chain.is_add_liquidity(&neither));
}

#[test]
fn token_addresses_are_twelfth_and_eleventh_from_the_end() {
    let calldata: Vec<Felt> = (0..14).map(felt).collect();
    let tx = Tx::Starknet(invoke(1, calldata));
    let (a, b) = StarknetChain::token_addresses(&tx);
    assert_eq!(a, felt(2));
    assert_eq!(b, felt(3));
}

#[test]
fn token_new_keeps_its_texts() {
    let token = Token::new("0x1".to_string(), "ETH".to_string(), "Ether".to_string());
    assert_eq!(token.contract_address(), "0x1");
    assert_eq!(token.ticker(), "ETH");
    assert_eq!(token.name(), "Ether");
}

#[test]
fn token_from_field_elements() {
    let token = Token::from_field_elements(&felt(0x49d3), &felt_from_tail(b"ETH"), &felt_from_tail(b"Ether"))
        .unwrap();
    assert_eq!(token.contract_address(), "0x49d3");
    assert_eq!(token.ticker(), "ETH");
    assert_eq!(token.name(), "Ether");
}

#[test]
fn token_from_field_elements_reports_the_ticker_error_first() {
    let bad_null = felt_from_tail(&[b'A', 0]);
    let mut full = [b'a'; 32];
    full[0] = 1;
    let bad_range = Felt::from_bytes_be(full).unwrap();
    let good = felt_from_tail(b"OK");
    assert_eq!(
        Token::from_field_elements(&felt(1), &bad_null, &bad_range).err(),
        Some(ShortStringError::UnexpectedNullTerminator)
    );
    assert_eq!(
        Token::from_field_elements(&felt(1), &good, &bad_range).err(),
        Some(ShortStringError::ValueOutOfRange)
    );
    assert_eq!(
        Token::from_field_elements(&felt(1), &bad_range, &good).err(),
        Some(ShortStringError::ValueOutOfRange)
    );
}
