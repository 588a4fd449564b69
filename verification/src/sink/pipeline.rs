//! What one event does, step by step: the store after it, what is announced, and the failure
//! of the store that stops the pipeline, if there is one.

use crate::config::PoolConfig;
use crate::hex_codec::{decode, hex_decoded};
use crate::model::{BlockRecord, EventData, TransactionRecord, TxOutputRecord};
use crate::queries::blocks::{insert_block, new_block, rollback_to_slot, with_block};
use crate::queries::laws::lemma_transaction_keeps;
use crate::queries::prices::{
    insert_price_update, insert_swap, new_price_update, new_swap, with_price_update_row,
    with_swap_row,
};
use crate::queries::reads::{get_utxo_input, spent_outputs};
use crate::queries::rollback::rolled_back;
use crate::queries::state::{Store, StoreError, StoreView};
use crate::queries::tokens::{get_token_id, token_of_asset, with_asset};
use crate::queries::transactions::{insert_transaction, new_transaction, with_transaction};
use crate::sink::common::{address_pays_to, text_eq};
use crate::sink::{mean_value, mean_value_of, swaps, swaps_of};
use crate::types::{
    direction_name, direction_text, AssetAmountView, BroadcastMessage, BroadcastMessageView,
    ExchangeRate, ExchangeRateView, Swap, SwapInfo, SwapInfoView, SwapView,
};
use crate::utils::payment_hash;
use vstd::prelude::*;

verus! {

/// How far the pipeline has come: the store, what was announced, and the failure of the
/// store that stopped it, if one did.
pub struct Progress {
    pub store: StoreView,
    pub messages: Seq<BroadcastMessageView>,
    pub failure: Option<StoreError>,
}

/// The progress at the start of a step.
pub open spec fn begin(store: StoreView, messages: Seq<BroadcastMessageView>) -> Progress {
    Progress { store, messages, failure: None }
}

/// The progress at the end of a step that ended with `outcome`.
pub open spec fn progress(
    store: StoreView,
    messages: Seq<BroadcastMessageView>,
    outcome: Result<(), StoreError>,
) -> Progress {
    Progress {
        store,
        messages,
        failure: match outcome {
            Ok(_) => None,
            Err(error) => Some(error),
        },
    }
}

/// The progress stopped by a failure.
pub open spec fn failed(at: Progress, error: StoreError) -> Progress {
    Progress { failure: Some(error), ..at }
}

/// Whether an amount fits the column that stores it.
pub open spec fn fits(amount: u64) -> bool {
    amount <= i64::MAX
}

/// A swap as it is stored and announced, given the tokens of the pool's pair; nothing where
/// an amount does not fit its column.
pub open spec fn swap_info_of(
    token1_id: i64,
    token2_id: i64,
    swap: SwapView,
) -> Option<SwapInfoView> {
    if fits(swap.first.amount) && fits(swap.second.amount) {
        Some(
            SwapInfoView {
                asset1: token1_id,
                amount1: swap.first.amount as i64,
                asset2: token2_id,
                amount2: swap.second.amount as i64,
                direction: direction_text(swap.direction),
            },
        )
    } else {
        None
    }
}

/// One swap of a transaction: it is written if the transaction is in the store, and then
/// announced. A swap that cannot be written is not announced, and stops the pipeline.
#[verifier::opaque]
pub open spec fn swap_step(
    at: Progress,
    tx_id: Option<i64>,
    script_hash: Seq<u8>,
    token1_id: i64,
    token2_id: i64,
    swap: SwapView,
) -> Progress {
    if at.failure is Some {
        at
    } else {
        match swap_info_of(token1_id, token2_id, swap) {
            None => failed(at, StoreError::ShapeMismatch),
            Some(info) => match tx_id {
                Some(id) => match new_swap(at.store, id, script_hash, info) {
                    Err(error) => failed(at, error),
                    Ok(row) => Progress {
                        store: with_swap_row(at.store, row),
                        messages: at.messages.push(BroadcastMessageView::Swap(info)),
                        failure: None,
                    },
                },
                None => Progress {
                    messages: at.messages.push(BroadcastMessageView::Swap(info)),
                    ..at
                },
            },
        }
    }
}

/// The first `count` swaps of a transaction, one after the other.
pub open spec fn swap_steps(
    at: Progress,
    tx_id: Option<i64>,
    script_hash: Seq<u8>,
    token1_id: i64,
    token2_id: i64,
    swaps: Seq<SwapView>,
    count: int,
) -> Progress
    decreases count,
{
    if count <= 0 {
        at
    } else {
        swap_step(
            swap_steps(at, tx_id, script_hash, token1_id, token2_id, swaps, count - 1),
            tx_id,
            script_hash,
            token1_id,
            token2_id,
            swaps[count - 1],
        )
    }
}

/// Whether a pool is followed: it is enabled, and its hashes are hexadecimal text.
pub open spec fn followed(pool: PoolConfig) -> bool {
    pool.enable && pool.has_valid_hashes()
}

/// The announcement of a pool's reserves.
pub open spec fn rate_message(
    pool: PoolConfig,
    token1_id: i64,
    token2_id: i64,
    first: AssetAmountView,
    second: AssetAmountView,
) -> BroadcastMessageView {
    BroadcastMessageView::MeanValue(
        ExchangeRateView {
            script_hash: pool.script_hash@,
            asset1: token1_id,
            asset2: token2_id,
            amount1: first.amount,
            amount2: second.amount,
        },
    )
}

/// The price update of a pool's reserves: written if the transaction is in the store.
pub open spec fn price_step(
    at: Progress,
    pool: PoolConfig,
    tx_id: Option<i64>,
    token1_id: i64,
    token2_id: i64,
    first: AssetAmountView,
    second: AssetAmountView,
) -> Progress {
    match tx_id {
        None => at,
        Some(id) => if !fits(first.amount) || !fits(second.amount) {
            failed(at, StoreError::ShapeMismatch)
        } else {
            match new_price_update(
                at.store,
                id,
                hex_decoded(pool.script_hash@),
                token1_id,
                first.amount as i64,
                token2_id,
                second.amount as i64,
            ) {
                Err(error) => failed(at, error),
                Ok(row) => Progress { store: with_price_update_row(at.store, row), ..at },
            }
        },
    }
}

/// One pool and one transaction. A pool that is not followed, and a transaction in which the
/// pool's interpreter finds no reserves, change nothing. Else the tokens of the two assets
/// are looked up, and written if they are new; the reserves are announced; if the
/// transaction is in the store, they are written as a price update; and every swap that the
/// interpreter finds, given the outputs that the inputs spend, is written and announced.
#[verifier::opaque]
pub open spec fn pool_step(
    at: Progress,
    pool: PoolConfig,
    transaction: TransactionRecord,
    tx_id: Option<i64>,
) -> Progress {
    if at.failure is Some || !followed(pool) {
        at
    } else {
        match mean_value_of(pool, transaction) {
            None => at,
            Some((first, second)) => match token_of_asset(at.store, first.asset) {
                Err(error) => failed(at, error),
                Ok(token1_id) => {
                    let known = Progress { store: with_asset(at.store, first.asset), ..at };
                    match token_of_asset(known.store, second.asset) {
                        Err(error) => failed(known, error),
                        Ok(token2_id) => {
                            let announced = Progress {
                                store: with_asset(known.store, second.asset),
                                messages: at.messages.push(
                                    rate_message(pool, token1_id, token2_id, first, second),
                                ),
                                failure: None,
                            };
                            let priced = price_step(
                                announced,
                                pool,
                                tx_id,
                                token1_id,
                                token2_id,
                                first,
                                second,
                            );
                            if priced.failure is Some {
                                priced
                            } else {
                                match spent_outputs(priced.store, transaction.inputs@) {
                                    Err(error) => failed(priced, error),
                                    Ok(inputs) => swap_steps(
                                        priced,
                                        tx_id,
                                        hex_decoded(pool.script_hash@),
                                        token1_id,
                                        token2_id,
                                        swaps_of(pool, transaction, inputs),
                                        swaps_of(pool, transaction, inputs).len() as int,
                                    ),
                                }
                            }
                        },
                    }
                },
            },
        }
    }
}

/// The first `count` pools and one transaction, one pool after the other.
pub open spec fn pool_steps(
    at: Progress,
    pools: Seq<PoolConfig>,
    transaction: TransactionRecord,
    tx_id: Option<i64>,
    count: int,
) -> Progress
    decreases count,
{
    if count <= 0 {
        at
    } else {
        pool_step(
            pool_steps(at, pools, transaction, tx_id, count - 1),
            pools[count - 1],
            transaction,
            tx_id,
        )
    }
}

/// Whether an output concerns a pool: it is paid to the pool's script, to its order script
/// or to its vesting script, or it lies at the pool's address.
pub open spec fn concerns(pool: PoolConfig, output: TxOutputRecord) -> bool {
    ||| payment_hash(output.address@) == Some(hex_decoded(pool.script_hash@))
    ||| payment_hash(output.address@) == Some(hex_decoded(pool.request_hash@))
    ||| payment_hash(output.address@) == Some(hex_decoded(pool.vesting_hash@))
    ||| output.address@ == pool.address@
}

/// Whether a transaction is watched: one of its outputs concerns a pool that is followed.
pub open spec fn is_watched(pools: Seq<PoolConfig>, transaction: TransactionRecord) -> bool {
    exists|p: int, o: int|
        0 <= p < pools.len() && 0 <= o < transaction.outputs@.len() && followed(
            #[trigger] pools[p],
        ) && concerns(pools[p], #[trigger] transaction.outputs@[o])
}

/// One transaction of a block. If the block is in the store and the transaction is watched,
/// the transaction is written; then it is shown to every pool.
#[verifier::opaque]
pub open spec fn transaction_step(
    at: Progress,
    pools: Seq<PoolConfig>,
    block_id: Option<i64>,
    transaction: TransactionRecord,
) -> Progress {
    if at.failure is Some {
        at
    } else {
        match block_id {
            Some(block) => if is_watched(pools, transaction) {
                match new_transaction(at.store, transaction, block) {
                    Err(error) => failed(at, error),
                    Ok(row) => pool_steps(
                        Progress { store: with_transaction(at.store, transaction, block), ..at },
                        pools,
                        transaction,
                        Some(row.id),
                        pools.len() as int,
                    ),
                }
            } else {
                pool_steps(at, pools, transaction, None, pools.len() as int)
            },
            None => pool_steps(at, pools, transaction, None, pools.len() as int),
        }
    }
}

/// The first `count` transactions of a block, one after the other.
pub open spec fn transaction_steps(
    at: Progress,
    pools: Seq<PoolConfig>,
    block_id: Option<i64>,
    transactions: Seq<TransactionRecord>,
    count: int,
) -> Progress
    decreases count,
{
    if count <= 0 {
        at
    } else {
        transaction_step(
            transaction_steps(at, pools, block_id, transactions, count - 1),
            pools,
            block_id,
            transactions[count - 1],
        )
    }
}

/// One block: it is written if the pipeline persists, and its transactions follow.
#[verifier::opaque]
pub open spec fn block_step(
    at: Progress,
    pools: Seq<PoolConfig>,
    persistent: bool,
    block: BlockRecord,
) -> Progress {
    if at.failure is Some {
        at
    } else if persistent {
        match new_block(at.store, block) {
            Err(error) => failed(at, error),
            Ok(row) => transaction_steps(
                Progress { store: with_block(at.store, block), ..at },
                pools,
                Some(row.id),
                block.transactions@,
                block.transactions@.len() as int,
            ),
        }
    } else {
        transaction_steps(at, pools, None, block.transactions@, block.transactions@.len() as int)
    }
}

/// One event: a rollback removes what came after its slot, if the pipeline persists; a block
/// is processed; any other event changes nothing.
#[verifier::opaque]
pub open spec fn event_step(
    at: Progress,
    pools: Seq<PoolConfig>,
    persistent: bool,
    event: EventData,
) -> Progress {
    if at.failure is Some {
        at
    } else {
        match event {
            EventData::RollBack { block_slot, block_hash } => if persistent {
                Progress { store: rolled_back(at.store, block_slot), ..at }
            } else {
                at
            },
            EventData::Block(block) => block_step(at, pools, persistent, block),
            _ => at,
        }
    }
}

/// The first `count` events, in the order in which they arrive.
pub open spec fn event_steps(
    at: Progress,
    pools: Seq<PoolConfig>,
    persistent: bool,
    events: Seq<EventData>,
    count: int,
) -> Progress
    decreases count,
{
    if count <= 0 {
        at
    } else {
        event_step(
            event_steps(at, pools, persistent, events, count - 1),
            pools,
            persistent,
            events[count - 1],
        )
    }
}

/// Once the store has failed, no further swap changes anything.
pub proof fn lemma_swap_steps_stop(
    at: Progress,
    tx_id: Option<i64>,
    script_hash: Seq<u8>,
    token1_id: i64,
    token2_id: i64,
    swaps: Seq<SwapView>,
    count: int,
    more: int,
)
    requires
        count <= more,
        swap_steps(at, tx_id, script_hash, token1_id, token2_id, swaps, count).failure is Some,
    ensures
        swap_steps(at, tx_id, script_hash, token1_id, token2_id, swaps, more) == swap_steps(
            at,
            tx_id,
            script_hash,
            token1_id,
            token2_id,
            swaps,
            count,
        ),
    decreases more - count,
{
    reveal(swap_step);
    if count < more {
        lemma_swap_steps_stop(at, tx_id, script_hash, token1_id, token2_id, swaps, count, more - 1);
    }
}

/// Once the store has failed, no further pool changes anything.
pub proof fn lemma_pool_steps_stop(
    at: Progress,
    pools: Seq<PoolConfig>,
    transaction: TransactionRecord,
    tx_id: Option<i64>,
    count: int,
    more: int,
)
    requires
        count <= more,
        pool_steps(at, pools, transaction, tx_id, count).failure is Some,
    ensures
        pool_steps(at, pools, transaction, tx_id, more) == pool_steps(
            at,
            pools,
            transaction,
            tx_id,
            count,
        ),
    decreases more - count,
{
    reveal(pool_step);
    if count < more {
        lemma_pool_steps_stop(at, pools, transaction, tx_id, count, more - 1);
    }
}

/// Once the store has failed, no further transaction changes anything.
pub proof fn lemma_transaction_steps_stop(
    at: Progress,
    pools: Seq<PoolConfig>,
    block_id: Option<i64>,
    transactions: Seq<TransactionRecord>,
    count: int,
    more: int,
)
    requires
        count <= more,
        transaction_steps(at, pools, block_id, transactions, count).failure is Some,
    ensures
        transaction_steps(at, pools, block_id, transactions, more) == transaction_steps(
            at,
            pools,
            block_id,
            transactions,
            count,
        ),
    decreases more - count,
{
    reveal(transaction_step);
    if count < more {
        lemma_transaction_steps_stop(at, pools, block_id, transactions, count, more - 1);
    }
}

/// Once the store has failed, no further event changes anything.
pub proof fn lemma_event_steps_stop(
    at: Progress,
    pools: Seq<PoolConfig>,
    persistent: bool,
    events: Seq<EventData>,
    count: int,
    more: int,
)
    requires
        count <= more,
        event_steps(at, pools, persistent, events, count).failure is Some,
    ensures
        event_steps(at, pools, persistent, events, more) == event_steps(
            at,
            pools,
            persistent,
            events,
            count,
        ),
    decreases more - count,
{
    reveal(event_step);
    if count < more {
        lemma_event_steps_stop(at, pools, persistent, events, count, more - 1);
    }
}

/// Whether an output concerns a pool whose hashes are hexadecimal text.
fn output_concerns(pool: &PoolConfig, output: &TxOutputRecord) -> (found: bool)
    requires
        pool.has_valid_hashes(),
    ensures
        found == concerns(*pool, *output),
{
    let script = decode(pool.script_hash.as_str());
    let request = decode(pool.request_hash.as_str());
    let vesting = decode(pool.vesting_hash.as_str());
    match (script, request, vesting) {
        (Some(script), Some(request), Some(vesting)) => {
            address_pays_to(output.address.as_str(), &script) || address_pays_to(
                output.address.as_str(),
                &request,
            ) || address_pays_to(output.address.as_str(), &vesting) || text_eq(
                output.address.as_str(),
                pool.address.as_str(),
            )
        },
        _ => false,
    }
}

/// Whether a pool is followed.
pub fn is_followed(pool: &PoolConfig) -> (yes: bool)
    ensures
        yes == followed(*pool),
{
    pool.enable && pool.check_hashes()
}

/// Whether a transaction is watched: one of its outputs concerns a pool that is followed.
pub fn watched(pools: &Vec<PoolConfig>, transaction: &TransactionRecord) -> (yes: bool)
    ensures
        yes == is_watched(pools@, *transaction),
{
    let mut p: usize = 0;
    while p < pools.len()
        invariant
            p <= pools@.len(),
            forall|a: int, o: int|
                0 <= a < p && 0 <= o < transaction.outputs@.len() ==> !(followed(
                    #[trigger] pools@[a],
                ) && concerns(pools@[a], #[trigger] transaction.outputs@[o])),
        decreases pools@.len() - p,
    {
        if is_followed(&pools[p]) {
            let mut o: usize = 0;
            while o < transaction.outputs.len()
                invariant
                    o <= transaction.outputs@.len(),
                    p < pools@.len(),
                    followed(pools@[p as int]),
                    forall|b: int|
                        0 <= b < o ==> !concerns(
                            pools@[p as int],
                            #[trigger] transaction.outputs@[b],
                        ),
                decreases transaction.outputs@.len() - o,
            {
                if output_concerns(&pools[p], &transaction.outputs[o]) {
                    assert(followed(pools@[p as int]) && concerns(
                        pools@[p as int],
                        transaction.outputs@[o as int],
                    ));
                    return true;
                }
                o = o + 1;
            }
        }
        p = p + 1;
    }
    false
}

/// A swap as it is stored and announced, given the tokens of the pool's pair.
pub fn swap_info(token1_id: i64, token2_id: i64, swap: &Swap) -> (info: Option<SwapInfo>)
    ensures
        info.is_some() == swap_info_of(token1_id, token2_id, swap@).is_some(),
        info matches Some(i) ==> Some(i@) == swap_info_of(token1_id, token2_id, swap@),
{
    if swap.first.amount > 0x7fff_ffff_ffff_ffff || swap.second.amount > 0x7fff_ffff_ffff_ffff {
        return None;
    }
    Some(
        SwapInfo {
            asset1: token1_id,
            amount1: swap.first.amount as i64,
            asset2: token2_id,
            amount2: swap.second.amount as i64,
            direction: direction_name(swap.direction),
        },
    )
}

/// Writes the swaps of a transaction, if the transaction is in the store, and announces them.
pub fn announce_swaps(
    found: &Vec<Swap>,
    tx_id: Option<i64>,
    script_hash: &Vec<u8>,
    token1_id: i64,
    token2_id: i64,
    db: &mut Store,
    messages: &mut Vec<BroadcastMessage>,
) -> (outcome: Result<(), StoreError>)
    requires
        old(db).wf(),
    ensures
        final(db).wf(),
        progress(final(db)@, final(messages).deep_view(), outcome) == swap_steps(
            begin(old(db)@, old(messages).deep_view()),
            tx_id,
            script_hash@,
            token1_id,
            token2_id,
            found.deep_view(),
            found@.len() as int,
        ),
{
    let ghost start = begin(db@, messages.deep_view());
    let mut k: usize = 0;
    while k < found.len()
        invariant
            k <= found@.len(),
            db.wf(),
            start == begin(old(db)@, old(messages).deep_view()),
            begin(db@, messages.deep_view()) == swap_steps(
                start,
                tx_id,
                script_hash@,
                token1_id,
                token2_id,
                found.deep_view(),
                k as int,
            ),
        decreases found@.len() - k,
    {
        let ghost before = messages.deep_view();
        proof {
            reveal(swap_step);
        }
        assert(found.deep_view()[k as int] == found@[k as int]@);
        let info = match swap_info(token1_id, token2_id, &found[k]) {
            Some(info) => info,
            None => {
                proof {
                    lemma_swap_steps_stop(
                        start,
                        tx_id,
                        script_hash@,
                        token1_id,
                        token2_id,
                        found.deep_view(),
                        k as int + 1,
                        found@.len() as int,
                    );
                }
                return Err(StoreError::ShapeMismatch);
            },
        };
        match tx_id {
            Some(id) => {
                match insert_swap(id, script_hash, &info, db) {
                    Err(error) => {
                        proof {
                            lemma_swap_steps_stop(
                                start,
                                tx_id,
                                script_hash@,
                                token1_id,
                                token2_id,
                                found.deep_view(),
                                k as int + 1,
                                found@.len() as int,
                            );
                        }
                        return Err(error);
                    },
                    Ok(_) => {},
                }
            },
            None => {},
        }
        let ghost announced = BroadcastMessageView::Swap(info@);
        messages.push(BroadcastMessage::Swap(info));
        assert(messages.deep_view() =~= before.push(announced));
        k = k + 1;
    }
    Ok(())
}

/// Shows a transaction to a pool: the pool's reserves and the swaps against it are written,
/// if the transaction is in the store under `tx_id`, and announced.
pub fn process_pool(
    pool: &PoolConfig,
    transaction: &TransactionRecord,
    tx_id: Option<i64>,
    db: &mut Store,
    messages: &mut Vec<BroadcastMessage>,
) -> (outcome: Result<(), StoreError>)
    requires
        old(db).wf(),
    ensures
        final(db).wf(),
        progress(final(db)@, final(messages).deep_view(), outcome) == pool_step(
            begin(old(db)@, old(messages).deep_view()),
            *pool,
            *transaction,
            tx_id,
        ),
{
    proof {
        reveal(pool_step);
    }
    if !is_followed(pool) {
        return Ok(());
    }
    let (first, second) = match mean_value(pool, transaction) {
        Some(pair) => pair,
        None => {
            return Ok(());
        },
    };
    let token1_id = match get_token_id(&first.asset, db) {
        Ok(id) => id,
        Err(error) => {
            return Err(error);
        },
    };
    let token2_id = match get_token_id(&second.asset, db) {
        Ok(id) => id,
        Err(error) => {
            return Err(error);
        },
    };
    let ghost before = messages.deep_view();
    let rate = ExchangeRate {
        script_hash: pool.script_hash.clone(),
        asset1: token1_id,
        asset2: token2_id,
        amount1: first.amount,
        amount2: second.amount,
    };
    let ghost announced = BroadcastMessageView::MeanValue(rate@);
    messages.push(BroadcastMessage::MeanValue(rate));
    assert(messages.deep_view() =~= before.push(announced));
    let script_hash = match decode(pool.script_hash.as_str()) {
        Some(bytes) => bytes,
        None => Vec::new(),
    };
    match tx_id {
        Some(id) => {
            if first.amount > 0x7fff_ffff_ffff_ffff || second.amount > 0x7fff_ffff_ffff_ffff {
                return Err(StoreError::ShapeMismatch);
            }
            match insert_price_update(
                id,
                &script_hash,
                token1_id,
                first.amount as i64,
                token2_id,
                second.amount as i64,
                db,
            ) {
                Ok(_) => {},
                Err(error) => {
                    return Err(error);
                },
            }
        },
        None => {},
    }
    let inputs = match get_utxo_input(&transaction.inputs, db) {
        Ok(inputs) => inputs,
        Err(error) => {
            return Err(error);
        },
    };
    let found = swaps(pool, transaction, &inputs);
    announce_swaps(&found, tx_id, &script_hash, token1_id, token2_id, db, messages)
}

/// Processes one transaction of a block. `block_id` is the block's identifier in the store,
/// if the block is there.
pub fn process_transaction(
    pools: &Vec<PoolConfig>,
    block_id: Option<i64>,
    transaction: &TransactionRecord,
    db: &mut Store,
    messages: &mut Vec<BroadcastMessage>,
) -> (outcome: Result<(), StoreError>)
    requires
        old(db).wf(),
    ensures
        final(db).wf(),
        progress(final(db)@, final(messages).deep_view(), outcome) == transaction_step(
            begin(old(db)@, old(messages).deep_view()),
            pools@,
            block_id,
            *transaction,
        ),
{
    proof {
        reveal(transaction_step);
    }
    let tx_id = match block_id {
        Some(block) => {
            if watched(pools, transaction) {
                match insert_transaction(transaction, block, db) {
                    Ok(id) => Some(id),
                    Err(error) => {
                        return Err(error);
                    },
                }
            } else {
                None
            }
        },
        None => None,
    };
    let ghost start = begin(db@, messages.deep_view());
    let mut k: usize = 0;
    while k < pools.len()
        invariant
            k <= pools@.len(),
            db.wf(),
            transaction_step(begin(old(db)@, old(messages).deep_view()), pools@, block_id, *transaction)
                == pool_steps(start, pools@, *transaction, tx_id, pools@.len() as int),
            begin(db@, messages.deep_view()) == pool_steps(
                start,
                pools@,
                *transaction,
                tx_id,
                k as int,
            ),
        decreases pools@.len() - k,
    {
        match process_pool(&pools[k], transaction, tx_id, db, messages) {
            Ok(_) => {},
            Err(error) => {
                proof {
                    lemma_pool_steps_stop(
                        start,
                        pools@,
                        *transaction,
                        tx_id,
                        k as int + 1,
                        pools@.len() as int,
                    );
                }
                return Err(error);
            },
        }
        k = k + 1;
    }
    Ok(())
}

/// Processes one block: writes it, if the pipeline persists, and processes its transactions
/// in their order.
pub fn process_block(
    pools: &Vec<PoolConfig>,
    persistent: bool,
    block: &BlockRecord,
    db: &mut Store,
    messages: &mut Vec<BroadcastMessage>,
) -> (outcome: Result<(), StoreError>)
    requires
        old(db).wf(),
    ensures
        final(db).wf(),
        progress(final(db)@, final(messages).deep_view(), outcome) == block_step(
            begin(old(db)@, old(messages).deep_view()),
            pools@,
            persistent,
            *block,
        ),
{
    proof {
        reveal(block_step);
    }
    let block_id = if persistent {
        match insert_block(block, db) {
            Ok(id) => Some(id),
            Err(error) => {
                return Err(error);
            },
        }
    } else {
        None
    };
    let ghost start = begin(db@, messages.deep_view());
    let mut k: usize = 0;
    while k < block.transactions.len()
        invariant
            k <= block.transactions@.len(),
            db.wf(),
            block_step(begin(old(db)@, old(messages).deep_view()), pools@, persistent, *block)
                == transaction_steps(
                start,
                pools@,
                block_id,
                block.transactions@,
                block.transactions@.len() as int,
            ),
            begin(db@, messages.deep_view()) == transaction_steps(
                start,
                pools@,
                block_id,
                block.transactions@,
                k as int,
            ),
        decreases block.transactions@.len() - k,
    {
        match process_transaction(pools, block_id, &block.transactions[k], db, messages) {
            Ok(_) => {},
            Err(error) => {
                proof {
                    lemma_transaction_steps_stop(
                        start,
                        pools@,
                        block_id,
                        block.transactions@,
                        k as int + 1,
                        block.transactions@.len() as int,
                    );
                }
                return Err(error);
            },
        }
        k = k + 1;
    }
    Ok(())
}

/// Processes one event.
pub fn process_event(
    pools: &Vec<PoolConfig>,
    persistent: bool,
    event: &EventData,
    db: &mut Store,
    messages: &mut Vec<BroadcastMessage>,
) -> (outcome: Result<(), StoreError>)
    requires
        old(db).wf(),
    ensures
        final(db).wf(),
        progress(final(db)@, final(messages).deep_view(), outcome) == event_step(
            begin(old(db)@, old(messages).deep_view()),
            pools@,
            persistent,
            *event,
        ),
{
    proof {
        reveal(event_step);
    }
    match event {
        EventData::RollBack { block_slot, block_hash } => {
            if persistent {
                rollback_to_slot(*block_slot, db);
            }
            Ok(())
        },
        EventData::Block(block) => process_block(pools, persistent, block, db, messages),
        _ => Ok(()),
    }
}

/// Processes events in the order in which they arrived, each one completely before the
/// next. What is announced is added to `messages`. The first failure of the store stops the
/// pipeline.
pub fn start(
    input: &Vec<EventData>,
    db: &mut Store,
    pools: &Vec<PoolConfig>,
    persistent: bool,
    messages: &mut Vec<BroadcastMessage>,
) -> (outcome: Result<(), StoreError>)
    requires
        old(db).wf(),
    ensures
        final(db).wf(),
        progress(final(db)@, final(messages).deep_view(), outcome) == event_steps(
            begin(old(db)@, old(messages).deep_view()),
            pools@,
            persistent,
            input@,
            input@.len() as int,
        ),
{
    let ghost first = begin(db@, messages.deep_view());
    let mut k: usize = 0;
    while k < input.len()
        invariant
            k <= input@.len(),
            db.wf(),
            first == begin(old(db)@, old(messages).deep_view()),
            begin(db@, messages.deep_view()) == event_steps(
                first,
                pools@,
                persistent,
                input@,
                k as int,
            ),
        decreases input@.len() - k,
    {
        match process_event(pools, persistent, &input[k], db, messages) {
            Ok(_) => {},
            Err(error) => {
                proof {
                    lemma_event_steps_stop(
                        first,
                        pools@,
                        persistent,
                        input@,
                        k as int + 1,
                        input@.len() as int,
                    );
                }
                return Err(error);
            },
        }
        k = k + 1;
    }
    Ok(())
}

/// Fault isolation, for the pools: a transaction in which no followed pool has reserves to
/// read, as one whose datum lacks a field, changes nothing and stops nothing.
pub proof fn lemma_unread_transaction_changes_nothing(
    at: Progress,
    pools: Seq<PoolConfig>,
    transaction: TransactionRecord,
    tx_id: Option<i64>,
    count: int,
)
    requires
        0 <= count <= pools.len(),
        forall|p: int|
            0 <= p < pools.len() && followed(#[trigger] pools[p]) ==> mean_value_of(
                pools[p],
                transaction,
            ) is None,
    ensures
        pool_steps(at, pools, transaction, tx_id, count) == at,
    decreases count,
{
    reveal(pool_step);
    if count > 0 {
        lemma_unread_transaction_changes_nothing(at, pools, transaction, tx_id, count - 1);
    }
}

/// Fault isolation, for the pipeline: a transaction in which no followed pool has reserves
/// to read announces nothing and writes no price update and no swap, and the pipeline goes
/// on unless the store refuses the transaction itself.
pub proof fn lemma_fault_isolation(
    at: Progress,
    pools: Seq<PoolConfig>,
    block_id: Option<i64>,
    transaction: TransactionRecord,
)
    requires
        at.failure is None,
        forall|p: int|
            0 <= p < pools.len() && followed(#[trigger] pools[p]) ==> mean_value_of(
                pools[p],
                transaction,
            ) is None,
    ensures
        transaction_step(at, pools, block_id, transaction).messages == at.messages,
        transaction_step(at, pools, block_id, transaction).store.price_updates
            == at.store.price_updates,
        transaction_step(at, pools, block_id, transaction).store.swaps == at.store.swaps,
        transaction_step(at, pools, block_id, transaction).failure is Some ==> block_id is Some
            && is_watched(pools, transaction) && new_transaction(
            at.store,
            transaction,
            block_id->0,
        ) is Err,
{
    reveal(transaction_step);
    lemma_unread_transaction_changes_nothing(at, pools, transaction, None, pools.len() as int);
    if let Some(block) = block_id {
        if let Ok(row) = new_transaction(at.store, transaction, block) {
            lemma_transaction_keeps(at.store, transaction, block);
            lemma_unread_transaction_changes_nothing(
                Progress { store: with_transaction(at.store, transaction, block), ..at },
                pools,
                transaction,
                Some(row.id),
                pools.len() as int,
            );
        }
    }
}

} // verus!
