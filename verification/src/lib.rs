//! Verified core of a Starknet liquidity sniffer: field elements as plain
//! bytes, detection of liquidity-adding transactions, extraction of invoke
//! transactions from blocks, and the decisions of the polling loop.

pub mod felt;
pub mod monitor;
pub mod seq_facts;
pub mod sniffooor;
