//! The events of the chain follower, as plain values: blocks, their transactions, and
//! rollbacks. Whoever receives the follower's records converts them into these.

use crate::datum::PlutusData;
use vstd::prelude::*;

verus! {

/// One native asset on an output: policy and name in hexadecimal, and the quantity.
#[derive(Debug)]
pub struct OutputAssetRecord {
    pub policy: String,
    pub asset: String,
    pub amount: u64,
}

/// What an `OutputAssetRecord` is.
pub struct OutputAssetView {
    pub policy: Seq<char>,
    pub asset: Seq<char>,
    pub amount: u64,
}

impl View for OutputAssetRecord {
    type V = OutputAssetView;

    open spec fn view(&self) -> OutputAssetView {
        OutputAssetView { policy: self.policy@, asset: self.asset@, amount: self.amount }
    }
}

impl DeepView for OutputAssetRecord {
    type V = OutputAssetView;

    open spec fn deep_view(&self) -> OutputAssetView {
        self@
    }
}

/// One transaction output. `amount` is the quantity of ADA on it.
#[derive(Debug)]
pub struct TxOutputRecord {
    pub address: String,
    pub amount: u64,
    pub assets: Vec<OutputAssetRecord>,
    pub datum_hash: Option<String>,
}

/// The text that an optional text holds.
pub open spec fn text_of(text: Option<String>) -> Option<Seq<char>> {
    match text {
        Some(text) => Some(text@),
        None => None,
    }
}

/// What a `TxOutputRecord` is.
pub struct TxOutputView {
    pub address: Seq<char>,
    pub amount: u64,
    pub assets: Seq<OutputAssetView>,
    pub datum_hash: Option<Seq<char>>,
}

impl View for TxOutputRecord {
    type V = TxOutputView;

    open spec fn view(&self) -> TxOutputView {
        TxOutputView {
            address: self.address@,
            amount: self.amount,
            assets: self.assets.deep_view(),
            datum_hash: text_of(self.datum_hash),
        }
    }
}

impl DeepView for TxOutputRecord {
    type V = TxOutputView;

    open spec fn deep_view(&self) -> TxOutputView {
        self@
    }
}

/// A reference to the output that a transaction spends: the hash of the transaction that
/// made it, in hexadecimal, and its position among that transaction's outputs.
#[derive(Debug)]
pub struct TxInputRecord {
    pub tx_id: String,
    pub index: u64,
}

/// A datum that a transaction carries, under its hash.
#[derive(Debug)]
pub struct PlutusDatumRecord {
    pub datum_hash: String,
    pub plutus_data: PlutusData,
}

/// A redeemer that a transaction carries, for the input at `input_idx`.
#[derive(Debug)]
pub struct PlutusRedeemerRecord {
    pub input_idx: u32,
    pub plutus_data: PlutusData,
}

/// One transaction.
#[derive(Debug)]
pub struct TransactionRecord {
    pub hash: String,
    pub inputs: Vec<TxInputRecord>,
    pub outputs: Vec<TxOutputRecord>,
    pub plutus_data: Vec<PlutusDatumRecord>,
    pub plutus_redeemers: Vec<PlutusRedeemerRecord>,
}

/// One block with its transactions. Hashes are in hexadecimal.
#[derive(Debug)]
pub struct BlockRecord {
    pub slot: u64,
    pub hash: String,
    pub epoch: Option<u64>,
    pub number: u64,
    pub previous_hash: String,
    pub transactions: Vec<TransactionRecord>,
}

/// One event of the follower.
#[derive(Debug)]
pub enum EventData {
    Block(BlockRecord),
    Transaction(TransactionRecord),
    RollBack { block_slot: u64, block_hash: String },
    Other,
}

} // verus!
