//! The pipeline: what each event of the chain does to the store, and what it announces.
//!
//! A rollback removes what came after its slot. A block is written, and each of its
//! transactions is shown to every pool that is followed: the pool's interpreter reads the
//! pool's reserves and the swaps from the transaction, and they are written and announced.

pub mod common;
pub mod minswap_v1;
pub mod pipeline;
pub mod sundaeswap_v1;
pub mod wingriders_v1;

pub use pipeline::start;

use crate::config::{kind_of, DexKind, Empty, MinSwapV1, PoolConfig, SundaeSwap, WingRiders};
use crate::datum::{InterpretError, InterpretErrorView};
use crate::model::{TransactionRecord, TxOutputRecord, TxOutputView};
use crate::sink::common::{pair_view, swaps_view, Dex};
use crate::sink::minswap_v1::{ms_mean_value, ms_swaps};
use crate::sink::sundaeswap_v1::{ss_mean_value, ss_swaps};
use crate::sink::wingriders_v1::{wr_mean_value, wr_swaps};
use crate::types::{AssetAmount, AssetAmountView, Swap, SwapView};
use vstd::prelude::*;

verus! {

impl Dex for Empty {
    open spec fn mean_value_of(&self, pool: PoolConfig, transaction: TransactionRecord) -> Option<
        (AssetAmountView, AssetAmountView),
    > {
        None
    }

    open spec fn swaps_of(
        &self,
        pool: PoolConfig,
        transaction: TransactionRecord,
        inputs: Seq<Option<TxOutputView>>,
    ) -> Result<Seq<SwapView>, InterpretErrorView> {
        Ok(Seq::empty())
    }

    fn mean_value(&self, pool: &PoolConfig, transaction: &TransactionRecord) -> (pair: Option<
        (AssetAmount, AssetAmount),
    >) {
        None
    }

    fn swaps(
        &self,
        pool: &PoolConfig,
        transaction: &TransactionRecord,
        inputs: &Vec<Option<TxOutputRecord>>,
    ) -> (outcome: Result<Vec<Swap>, InterpretError>) {
        let swaps: Vec<Swap> = Vec::new();
        assert(swaps.deep_view() =~= Seq::<SwapView>::empty());
        Ok(swaps)
    }
}

/// The reserves of a pool after a transaction, as the pool's interpreter reads them.
pub open spec fn mean_value_of(pool: PoolConfig, transaction: TransactionRecord) -> Option<
    (AssetAmountView, AssetAmountView),
> {
    match kind_of(pool.pool_type) {
        DexKind::WingRidersV1 => wr_mean_value(pool, transaction),
        DexKind::MinSwapV1 => ms_mean_value(pool, transaction),
        DexKind::SundaeSwapV1 => ss_mean_value(pool, transaction),
        DexKind::Inert => None,
    }
}

/// The swaps of a transaction against a pool, as the pool's interpreter reads them, or why
/// it cannot read the transaction.
pub open spec fn interpreted_swaps(
    pool: PoolConfig,
    transaction: TransactionRecord,
    inputs: Seq<Option<TxOutputView>>,
) -> Result<Seq<SwapView>, InterpretErrorView> {
    match kind_of(pool.pool_type) {
        DexKind::WingRidersV1 => wr_swaps(transaction, inputs),
        DexKind::MinSwapV1 => ms_swaps(pool, transaction, inputs),
        DexKind::SundaeSwapV1 => ss_swaps(pool, transaction, inputs),
        DexKind::Inert => Ok(Seq::empty()),
    }
}

/// The swaps of a transaction against a pool: none where the interpreter cannot read the
/// transaction.
pub open spec fn swaps_of(
    pool: PoolConfig,
    transaction: TransactionRecord,
    inputs: Seq<Option<TxOutputView>>,
) -> Seq<SwapView> {
    match interpreted_swaps(pool, transaction, inputs) {
        Ok(swaps) => swaps,
        Err(_) => Seq::empty(),
    }
}

/// The reserves of a pool after a transaction, if the transaction touches the pool.
pub fn mean_value(pool: &PoolConfig, transaction: &TransactionRecord) -> (pair: Option<
    (AssetAmount, AssetAmount),
>)
    ensures
        pair_view(pair) == mean_value_of(*pool, *transaction),
{
    match pool.as_trait() {
        DexKind::WingRidersV1 => WingRiders.mean_value(pool, transaction),
        DexKind::MinSwapV1 => MinSwapV1.mean_value(pool, transaction),
        DexKind::SundaeSwapV1 => SundaeSwap.mean_value(pool, transaction),
        DexKind::Inert => Empty.mean_value(pool, transaction),
    }
}

/// The swaps of a transaction against a pool, given the outputs that its inputs spend, or
/// why the pool's interpreter cannot read the transaction.
pub fn try_swaps(
    pool: &PoolConfig,
    transaction: &TransactionRecord,
    inputs: &Vec<Option<TxOutputRecord>>,
) -> (outcome: Result<Vec<Swap>, InterpretError>)
    ensures
        swaps_view(outcome) == interpreted_swaps(*pool, *transaction, inputs.deep_view()),
{
    match pool.as_trait() {
        DexKind::WingRidersV1 => WingRiders.swaps(pool, transaction, inputs),
        DexKind::MinSwapV1 => MinSwapV1.swaps(pool, transaction, inputs),
        DexKind::SundaeSwapV1 => SundaeSwap.swaps(pool, transaction, inputs),
        DexKind::Inert => Empty.swaps(pool, transaction, inputs),
    }
}

/// The swaps of a transaction against a pool, given the outputs that its inputs spend. A
/// transaction that the pool's interpreter cannot read has none.
pub fn swaps(
    pool: &PoolConfig,
    transaction: &TransactionRecord,
    inputs: &Vec<Option<TxOutputRecord>>,
) -> (found: Vec<Swap>)
    ensures
        found.deep_view() == swaps_of(*pool, *transaction, inputs.deep_view()),
{
    match try_swaps(pool, transaction, inputs) {
        Ok(found) => found,
        Err(_) => {
            let found: Vec<Swap> = Vec::new();
            assert(found.deep_view() =~= Seq::<SwapView>::empty());
            found
        },
    }
}

} // verus!
