//! The Starknet chain: the JediSwap parameters it watches for, and how it
//! reads blocks and transactions.

use vstd::prelude::*;
use crate::felt::{Felt, be_value, hex_felt_value, lemma_hex_felt_value_accepts};
use crate::sniffooor::{add_liquidity_detected, is_add_liquidity};
use super::{Block, Chain, DataType, Tx, TxView, block_transactions, tx_calldata};
use super::types::{InvokeTransaction, InvokeTransactionV1View, Transaction};
use crate::sniffooor::chain::lemma_block_fields;

verus! {

/// The JediSwap AMM contract.
pub const JEDISWAP: &'static str = "0x41fd22b238fa21cfcf5dd45a8548974d8263b3a531a60388411c5e230f97023";

/// The selector of JediSwap's add-liquidity entry point.
pub const JEDISWAP_ADD_LIQUIDITY: &'static str = "0x2cfb12ff9e08412ec5009c65ea06e727119ad948d25c8a8cc2c86fec4adee70";

/// The Starknet chain, watching the JediSwap AMM for added liquidity.
#[derive(Clone, Copy)]
pub struct StarknetChain {
    pub amm_contract: Felt,
    pub add_liquidity: Felt,
}

/// The version-1 invoke transactions among `txs`, in order.
pub open spec fn invoke_v1_txs(txs: Seq<Transaction>) -> Seq<TxView>
    decreases txs.len(),
{
    if txs.len() == 0 {
        Seq::empty()
    } else {
        let rest = invoke_v1_txs(txs.drop_last());
        match txs.last() {
            Transaction::Invoke(InvokeTransaction::V1(t)) => rest.push(TxView::Starknet(t@)),
            _ => rest,
        }
    }
}

/// No more transactions come out of a block than it holds.
pub proof fn lemma_invoke_v1_txs_len(txs: Seq<Transaction>)
    ensures
        invoke_v1_txs(txs).len() <= txs.len(),
    decreases txs.len(),
{
    if txs.len() > 0 {
        lemma_invoke_v1_txs_len(txs.drop_last());
    }
}

/// Extraction of two runs of transactions, one after the other, is the
/// extraction of the first followed by that of the second.
pub proof fn lemma_invoke_v1_txs_split(a: Seq<Transaction>, b: Seq<Transaction>)
    ensures
        invoke_v1_txs(a + b) == invoke_v1_txs(a) + invoke_v1_txs(b),
    decreases b.len(),
{
    if b.len() == 0 {
        assert(a + b =~= a);
        assert(invoke_v1_txs(a) + invoke_v1_txs(b) =~= invoke_v1_txs(a));
    } else {
        lemma_invoke_v1_txs_split(a, b.drop_last());
        assert((a + b).drop_last() =~= a + b.drop_last());
        assert((a + b).last() == b.last());
        let x = invoke_v1_txs(a);
        let y = invoke_v1_txs(b.drop_last());
        match b.last() {
            Transaction::Invoke(InvokeTransaction::V1(t)) => {
                assert((x + y).push(TxView::Starknet(t@)) =~= x + y.push(TxView::Starknet(t@)));
            },
            _ => {},
        }
    }
}

/// The transaction that `extract_tx` makes of one of a block's
/// transactions: the version-1 invoke transaction itself, or nothing.
pub open spec fn as_extracted(t: Transaction) -> Option<TxView> {
    match t {
        Transaction::Invoke(InvokeTransaction::V1(v1_tx)) => Some(TxView::Starknet(v1_tx@)),
        _ => None,
    }
}

proof fn lemma_invoke_v1_txs_filter_map(txs: Seq<Transaction>)
    ensures
        invoke_v1_txs(txs) == txs.filter_map(|t: Transaction| as_extracted(t)),
    decreases txs.len(),
{
    if txs.len() > 0 {
        lemma_invoke_v1_txs_filter_map(txs.drop_last());
        let rest = txs.drop_last().filter_map(|t: Transaction| as_extracted(t));
        match txs.last() {
            Transaction::Invoke(InvokeTransaction::V1(v1_tx)) => {
                assert(rest.push(TxView::Starknet(v1_tx@)) =~= rest + seq![TxView::Starknet(v1_tx@)]);
            },
            _ => {},
        }
    }
}

/// The Starknet chain keeps every version-1 invoke transaction of a block,
/// unchanged and in order, whatever its call data, and drops every other
/// transaction: the `filter_map` of the block's transactions.
pub proof fn lemma_starknet_extracts_every_invoke_v1(chain: StarknetChain, block: Block)
    ensures
        chain.extracted_txs(block) == (match block {
            Block::Starknet(b) => b.transactions@,
            Block::StarknetLatest(b) => b.transactions@,
        }).filter_map(|t: Transaction| as_extracted(t)),
{
    lemma_block_fields(block);
    lemma_invoke_v1_txs_filter_map(block_transactions(block));
}

/// The Starknet chain takes a transaction to add liquidity exactly when its
/// call data holds the AMM contract and the add-liquidity selector, these
/// two being different, however often either occurs and wherever.
pub proof fn lemma_starknet_adds_liquidity_meaning(chain: StarknetChain, t: InvokeTransactionV1View)
    ensures
        chain.adds_liquidity(TxView::Starknet(t)) <==> (chain.amm_contract != chain.add_liquidity
            && (exists|i: int| 0 <= i < t.calldata.len() && t.calldata[i] == chain.amm_contract)
            && (exists|j: int| 0 <= j < t.calldata.len() && t.calldata[j] == chain.add_liquidity)),
{
}

/// Repeating a value of the call data, such as the router of a multicall,
/// never changes whether the Starknet chain takes it to add liquidity.
pub proof fn lemma_starknet_adds_liquidity_repeats(chain: StarknetChain, t: InvokeTransactionV1View, k: int)
    requires
        0 <= k < t.calldata.len(),
    ensures
        chain.adds_liquidity(TxView::Starknet(t)) == chain.adds_liquidity(
            TxView::Starknet(InvokeTransactionV1View {
                transaction_hash: t.transaction_hash,
                calldata: t.calldata.push(t.calldata[k]),
            }),
        ),
{
    let c = t.calldata;
    let d = c.push(c[k]);
    lemma_starknet_adds_liquidity_meaning(chain, t);
    lemma_starknet_adds_liquidity_meaning(chain, InvokeTransactionV1View { transaction_hash: t.transaction_hash, calldata: d });
    if exists|i: int| 0 <= i < d.len() && d[i] == chain.amm_contract {
        let i = choose|i: int| 0 <= i < d.len() && d[i] == chain.amm_contract;
        if i == c.len() {
            assert(c[k] == chain.amm_contract);
        } else {
            assert(c[i] == chain.amm_contract);
        }
    }
    if exists|i: int| 0 <= i < d.len() && d[i] == chain.add_liquidity {
        let i = choose|i: int| 0 <= i < d.len() && d[i] == chain.add_liquidity;
        if i == c.len() {
            assert(c[k] == chain.add_liquidity);
        } else {
            assert(c[i] == chain.add_liquidity);
        }
    }
    if exists|i: int| 0 <= i < c.len() && c[i] == chain.amm_contract {
        let i = choose|i: int| 0 <= i < c.len() && c[i] == chain.amm_contract;
        assert(d[i] == chain.amm_contract);
    }
    if exists|i: int| 0 <= i < c.len() && c[i] == chain.add_liquidity {
        let i = choose|i: int| 0 <= i < c.len() && c[i] == chain.add_liquidity;
        assert(d[i] == chain.add_liquidity);
    }
}

impl StarknetChain {
    /// The chain with the JediSwap AMM contract and add-liquidity selector
    /// read from their hexadecimal constants.
    pub fn new() -> (r: Self)
        ensures
            hex_felt_value(JEDISWAP@) is Some,
            hex_felt_value(JEDISWAP_ADD_LIQUIDITY@) is Some,
            be_value(r.amm_contract@) == hex_felt_value(JEDISWAP@).unwrap(),
            be_value(r.add_liquidity@) == hex_felt_value(JEDISWAP_ADD_LIQUIDITY@).unwrap(),
    {
        proof {
            reveal_strlit("0x41fd22b238fa21cfcf5dd45a8548974d8263b3a531a60388411c5e230f97023");
            reveal_strlit("0x2cfb12ff9e08412ec5009c65ea06e727119ad948d25c8a8cc2c86fec4adee70");
            lemma_hex_felt_value_accepts(JEDISWAP@);
            lemma_hex_felt_value_accepts(JEDISWAP_ADD_LIQUIDITY@);
        }
        Self {
            amm_contract: Felt::from_hex_be(JEDISWAP).unwrap(),
            add_liquidity: Felt::from_hex_be(JEDISWAP_ADD_LIQUIDITY).unwrap(),
        }
    }

    /// The two token contracts of an add-liquidity call: the twelfth and the
    /// eleventh entry from the end of its call data.
    pub fn token_addresses(wrapped_tx: &Tx) -> (r: (Felt, Felt))
        requires
            tx_calldata(wrapped_tx@).len() >= 12,
        ensures
            r.0 == tx_calldata(wrapped_tx@)[tx_calldata(wrapped_tx@).len() - 12],
            r.1 == tx_calldata(wrapped_tx@)[tx_calldata(wrapped_tx@).len() - 11],
    {
        let Tx::Starknet(tx) = wrapped_tx;
        let n = tx.calldata.len();
        (tx.calldata[n - 12], tx.calldata[n - 11])
    }
}

impl Chain for StarknetChain {
    open spec fn extracted_txs(&self, block: Block) -> Seq<TxView> {
        invoke_v1_txs(block_transactions(block))
    }

    open spec fn amm_parameter(&self) -> (DataType, DataType) {
        (DataType::FieldElement(self.amm_contract), DataType::FieldElement(self.add_liquidity))
    }

    open spec fn adds_liquidity(&self, tx: TxView) -> bool {
        add_liquidity_detected(self.amm_contract, self.add_liquidity, tx_calldata(tx))
    }

    fn extract_tx(&self, block: &Block) -> (r: Vec<Tx>)
        ensures
            r@.map_values(|t: Tx| t@) == (match block {
                Block::Starknet(b) => b.transactions@,
                Block::StarknetLatest(b) => b.transactions@,
            }).filter_map(|t: Transaction| as_extracted(t)),
    {
        let transactions = match block {
            Block::Starknet(starknet_block) => &starknet_block.transactions,
            Block::StarknetLatest(starknet_block) => &starknet_block.transactions,
        };
        let mut res: Vec<Tx> = Vec::new();
        let mut i: usize = 0;
        while i < transactions.len()
            invariant
                transactions@ == block_transactions(*block),
                i <= transactions@.len(),
                res@.map_values(|t: Tx| t@) == invoke_v1_txs(transactions@.take(i as int)),
            decreases transactions.len() - i,
        {
            let ghost before = res@;
            proof {
                assert(transactions@.take(i + 1).drop_last() =~= transactions@.take(i as int));
                assert(transactions@.take(i + 1).last() == transactions@[i as int]);
            }
            match &transactions[i] {
                Transaction::Invoke(InvokeTransaction::V1(v1_tx)) => {
                    res.push(Tx::Starknet(v1_tx.clone()));
                    assert(res@.map_values(|t: Tx| t@) =~= before.map_values(|t: Tx| t@).push(
                        res@.last()@,
                    ));
                },
                _ => {},
            }
            i = i + 1;
        }
        assert(transactions@.take(i as int) =~= transactions@);
        proof {
            lemma_starknet_extracts_every_invoke_v1(*self, *block);
        }
        res
    }

    fn get_amm_parameter(&self) -> (r: (DataType, DataType)) {
        (DataType::FieldElement(self.amm_contract), DataType::FieldElement(self.add_liquidity))
    }

    fn is_add_liquidity(&self, wrapped_tx: &Tx) -> (r: bool)
        ensures
            match wrapped_tx {
                Tx::Starknet(tx) => r == (self.amm_contract != self.add_liquidity
                    && (exists|i: int| 0 <= i < tx.calldata@.len() && tx.calldata@[i] == self.amm_contract)
                    && (exists|j: int| 0 <= j < tx.calldata@.len() && tx.calldata@[j] == self.add_liquidity)),
            },
    {
        let Tx::Starknet(tx) = wrapped_tx;
        proof {
            lemma_starknet_adds_liquidity_meaning(*self, tx@);
        }
        is_add_liquidity(&self.amm_contract, &self.add_liquidity, tx.calldata.as_slice())
    }
}

} // verus!
