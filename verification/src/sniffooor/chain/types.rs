//! The parts of Starknet blocks and transactions that the sniffer reads,
//! held as plain values.

use vstd::prelude::*;
use crate::felt::Felt;

verus! {

/// A version-1 invoke transaction: its hash and its call data.
pub struct InvokeTransactionV1 {
    pub transaction_hash: Felt,
    pub calldata: Vec<Felt>,
}

/// What an invoke transaction is, as far as the sniffer reads it.
pub struct InvokeTransactionV1View {
    pub transaction_hash: Felt,
    pub calldata: Seq<Felt>,
}

impl View for InvokeTransactionV1 {
    type V = InvokeTransactionV1View;

    open spec fn view(&self) -> InvokeTransactionV1View {
        InvokeTransactionV1View { transaction_hash: self.transaction_hash, calldata: self.calldata@ }
    }
}

impl Clone for InvokeTransactionV1 {
    fn clone(&self) -> (r: Self)
        ensures
            r@ == self@,
    {
        let calldata = self.calldata.clone();
        assert(calldata@ =~= self.calldata@);
        InvokeTransactionV1 { transaction_hash: self.transaction_hash, calldata }
    }
}

/// An invoke transaction of either version; only version 1 is read further.
pub enum InvokeTransaction {
    V0(Felt),
    V1(InvokeTransactionV1),
}

/// A Starknet transaction; each kind but invoke carries only its hash.
pub enum Transaction {
    Invoke(InvokeTransaction),
    L1Handler(Felt),
    Declare(Felt),
    Deploy(Felt),
    DeployAccount(Felt),
}

/// A pending block with its transactions.
pub struct PendingBlockWithTxs {
    pub parent_hash: Felt,
    pub transactions: Vec<Transaction>,
}

/// An accepted block with its transactions.
pub struct BlockWithTxs {
    pub block_hash: Felt,
    pub parent_hash: Felt,
    pub transactions: Vec<Transaction>,
}

} // verus!
