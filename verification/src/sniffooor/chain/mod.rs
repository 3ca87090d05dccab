//! Chain-independent blocks, transactions and tokens, and the `Chain` trait
//! through which a chain says which of its transactions the sniffer reads.

pub mod strknet;
pub mod types;

use vstd::prelude::*;
use crate::felt::{Felt, ShortStringError, lower_hex, cairo_short_string};
use self::types::{BlockWithTxs, InvokeTransactionV1, InvokeTransactionV1View, PendingBlockWithTxs, Transaction};

verus! {

/// A value that a chain uses as an AMM parameter.
#[derive(Clone, Copy, Debug)]
pub enum DataType {
    FieldElement(Felt),
}

/// A block as read from a chain.
pub enum Block {
    Starknet(PendingBlockWithTxs),
    StarknetLatest(BlockWithTxs),
}

/// The transactions a block holds, in order.
pub open spec fn block_transactions(block: Block) -> Seq<Transaction> {
    match block {
        Block::Starknet(b) => b.transactions@,
        Block::StarknetLatest(b) => b.transactions@,
    }
}

/// The hash of a block's parent.
pub open spec fn block_parent_hash(block: Block) -> Felt {
    match block {
        Block::Starknet(b) => b.parent_hash,
        Block::StarknetLatest(b) => b.parent_hash,
    }
}

/// A transaction that a chain hands to the sniffer.
pub enum Tx {
    Starknet(InvokeTransactionV1),
}

/// What a transaction is, as far as the sniffer reads it.
pub enum TxView {
    Starknet(InvokeTransactionV1View),
}

impl View for Tx {
    type V = TxView;

    open spec fn view(&self) -> TxView {
        match self {
            Tx::Starknet(t) => TxView::Starknet(t@),
        }
    }
}

/// The hash of a transaction.
pub open spec fn tx_hash(tx: TxView) -> Felt {
    match tx {
        TxView::Starknet(t) => t.transaction_hash,
    }
}

/// The call data of a transaction.
pub open spec fn tx_calldata(tx: TxView) -> Seq<Felt> {
    match tx {
        TxView::Starknet(t) => t.calldata,
    }
}

/// A block's parent hash and transactions are the fields of that name,
/// whichever kind the block is and whatever else it holds; an accepted
/// block's own hash plays no part.
pub proof fn lemma_block_fields(block: Block)
    ensures
        block_parent_hash(block) == match block {
            Block::Starknet(b) => b.parent_hash,
            Block::StarknetLatest(b) => b.parent_hash,
        },
        block_transactions(block) == match block {
            Block::Starknet(b) => b.transactions@,
            Block::StarknetLatest(b) => b.transactions@,
        },
        forall|b: BlockWithTxs| #[trigger] block_parent_hash(Block::StarknetLatest(b)) == b.parent_hash,
        forall|b: PendingBlockWithTxs| #[trigger] block_parent_hash(Block::Starknet(b)) == b.parent_hash,
{
}

/// A transaction's hash is its `transaction_hash` field and its call data
/// its `calldata` field; neither depends on the other.
pub proof fn lemma_tx_fields(t: InvokeTransactionV1View)
    ensures
        tx_hash(TxView::Starknet(t)) == t.transaction_hash,
        tx_calldata(TxView::Starknet(t)) == t.calldata,
        forall|c: Seq<Felt>| #[trigger] tx_hash(TxView::Starknet(InvokeTransactionV1View { transaction_hash: t.transaction_hash, calldata: c })) == t.transaction_hash,
{
}

/// A blockchain as the sniffer sees it: how it lists a block's transactions,
/// what its AMM parameters are, and which transactions add liquidity.
pub trait Chain {
    /// The transactions that `extract_tx` gives for a block.
    spec fn extracted_txs(&self, block: Block) -> Seq<TxView>;

    /// The parameters that `get_amm_parameter` gives.
    spec fn amm_parameter(&self) -> (DataType, DataType);

    /// Whether `is_add_liquidity` holds of a transaction.
    spec fn adds_liquidity(&self, tx: TxView) -> bool;

    fn extract_tx(&self, block: &Block) -> (r: Vec<Tx>)
        ensures
            r@.map_values(|t: Tx| t@) == self.extracted_txs(*block),
    ;

    fn get_amm_parameter(&self) -> (r: (DataType, DataType))
        ensures
            r == self.amm_parameter(),
    ;

    fn is_add_liquidity(&self, wrapped_tx: &Tx) -> (r: bool)
        ensures
            r == self.adds_liquidity(wrapped_tx@),
    ;
}

impl Block {
    /// `PENDING` for a pending block, else the block's hash as `{:#x}` writes it.
    pub fn get_current_hash(&self) -> (r: String)
        ensures
            r@ == match self {
                Block::Starknet(_) => "PENDING"@,
                Block::StarknetLatest(b) => lower_hex(b.block_hash@),
            },
    {
        match self {
            Block::Starknet(_) => "PENDING".to_string(),
            Block::StarknetLatest(b) => b.block_hash.to_hex_string(),
        }
    }

    /// The parent's hash as `{:#x}` writes it.
    pub fn get_parent_hash(&self) -> (r: String)
        ensures
            r@ == lower_hex(block_parent_hash(*self)@),
            r@ == lower_hex(
                match self {
                    Block::Starknet(b) => b.parent_hash,
                    Block::StarknetLatest(b) => b.parent_hash,
                }@,
            ),
    {
        match self {
            Block::Starknet(b) => b.parent_hash.to_hex_string(),
            Block::StarknetLatest(b) => b.parent_hash.to_hex_string(),
        }
    }

    /// The transactions that the chain reads from this block.
    pub fn get_txs<C: Chain + ?Sized>(&self, chain_handler: &C) -> (r: Vec<Tx>)
        ensures
            r@.map_values(|t: Tx| t@) == chain_handler.extracted_txs(*self),
    {
        match self {
            Block::Starknet(_) => chain_handler.extract_tx(self),
            Block::StarknetLatest(_) => chain_handler.extract_tx(self),
        }
    }
}

impl Tx {
    /// Whether the chain takes this transaction to add liquidity.
    pub fn is_add_liquidity<C: Chain + ?Sized>(&self, chain_handler: &C) -> (r: bool)
        ensures
            r == chain_handler.adds_liquidity(self@),
    {
        match self {
            Tx::Starknet(_) => chain_handler.is_add_liquidity(self),
        }
    }

    /// The transaction's hash as `{:#x}` writes it.
    pub fn get_tx_hash(&self) -> (r: String)
        ensures
            r@ == lower_hex(tx_hash(self@)@),
            match self {
                Tx::Starknet(t) => r@ == lower_hex(t.transaction_hash@),
            },
    {
        match self {
            Tx::Starknet(t) => t.transaction_hash.to_hex_string(),
        }
    }
}

/// A token: its name, its ticker and its contract address, as text.
pub struct Token {
    name: String,
    ticker: String,
    contract_address: String,
}

/// The texts a token holds.
pub struct TokenView {
    pub name: Seq<char>,
    pub ticker: Seq<char>,
    pub contract_address: Seq<char>,
}

impl View for Token {
    type V = TokenView;

    closed spec fn view(&self) -> TokenView {
        TokenView { name: self.name@, ticker: self.ticker@, contract_address: self.contract_address@ }
    }
}

impl Token {
    pub fn new(ca: String, ticker: String, name: String) -> (r: Self)
        ensures
            r@ == (TokenView { name: name@, ticker: ticker@, contract_address: ca@ }),
    {
        Self { ticker: ticker, name: name, contract_address: ca }
    }

    /// The token whose contract is at `contract_address` and whose ticker and
    /// name are the Cairo short strings in `ticker` and `name`; the ticker is
    /// read first, so its error comes out where both fail.
    pub fn from_field_elements(contract_address: &Felt, ticker: &Felt, name: &Felt) -> (r: Result<
        Token,
        ShortStringError,
    >)
        ensures
            match (cairo_short_string(ticker@), cairo_short_string(name@)) {
                (Ok(t), Ok(n)) => r matches Ok(token) && token@ == (TokenView {
                    name: n,
                    ticker: t,
                    contract_address: lower_hex(contract_address@),
                }),
                (Err(e), _) => r == Err::<Token, ShortStringError>(e),
                (Ok(_), Err(e)) => r == Err::<Token, ShortStringError>(e),
            },
    {
        let ca = contract_address.to_hex_string();
        let ticker_text = match ticker.parse_cairo_short_string() {
            Ok(t) => t,
            Err(e) => return Err(e),
        };
        let name_text = match name.parse_cairo_short_string() {
            Ok(n) => n,
            Err(e) => return Err(e),
        };
        Ok(Token::new(ca, ticker_text, name_text))
    }

    pub fn name(&self) -> (r: &str)
        ensures
            r@ == self@.name,
    {
        self.name.as_str()
    }

    pub fn ticker(&self) -> (r: &str)
        ensures
            r@ == self@.ticker,
    {
        self.ticker.as_str()
    }

    pub fn contract_address(&self) -> (r: &str)
        ensures
            r@ == self@.contract_address,
    {
        self.contract_address.as_str()
    }
}

} // verus!
