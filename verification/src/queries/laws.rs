//! What follows from the contracts of the store's operations when several of them are taken
//! together.

use crate::entity::{token_transfer, transaction, transaction_output};
use crate::model::BlockRecord;
use crate::queries::blocks::{new_block, with_block};
use crate::queries::rollback::{at_or_before, ids_of_blocks, in_blocks, rolled_back};
use crate::model::{OutputAssetView, TransactionRecord, TxOutputRecord};
use crate::queries::history::swap_entry;
use crate::queries::prices::new_swap;
use crate::queries::state::{empty_store, StoreView};
use crate::queries::tokens::{
    address_id, lemma_with_address, lemma_with_token, token_id, with_address, with_token,
};
use crate::queries::transactions::{
    new_transaction, with_asset_transfers, with_output_row, with_outputs, with_transaction,
    with_transaction_row, with_transfer_row,
};
use crate::types::{direction_text, lemma_direction_text_tells, SwapInfoView};
use vstd::prelude::*;

verus! {

/// Filtering keeps a beginning of the rows where exactly the rows of that beginning pass.
pub proof fn lemma_filter_prefix<T>(rows: Seq<T>, wanted: spec_fn(T) -> bool, count: int)
    requires
        0 <= count <= rows.len(),
        forall|k: int| 0 <= k < count ==> wanted(#[trigger] rows[k]),
        forall|k: int| count <= k < rows.len() ==> !wanted(#[trigger] rows[k]),
    ensures
        rows.filter(wanted) == rows.take(count),
    decreases rows.len(),
{
    reveal(Seq::filter);
    if rows.len() == 0 {
        assert(rows.take(count) =~= rows);
    } else if count == rows.len() {
        lemma_filter_prefix(rows.drop_last(), wanted, count - 1);
        assert(rows.drop_last().take(count - 1).push(rows.last()) =~= rows.take(count));
    } else {
        lemma_filter_prefix(rows.drop_last(), wanted, count);
        assert(rows.drop_last().take(count) =~= rows.take(count));
    }
}

/// Two filters that agree on every row keep the same rows.
pub proof fn lemma_filter_agrees<T>(
    rows: Seq<T>,
    one: spec_fn(T) -> bool,
    other: spec_fn(T) -> bool,
)
    requires
        forall|k: int| 0 <= k < rows.len() ==> one(#[trigger] rows[k]) == other(rows[k]),
    ensures
        rows.filter(one) == rows.filter(other),
    decreases rows.len(),
{
    reveal(Seq::filter);
    if rows.len() > 0 {
        lemma_filter_agrees(rows.drop_last(), one, other);
        assert(one(rows[rows.len() - 1]) == other(rows[rows.len() - 1]));
    }
}

/// The store after a run of blocks was handed to it, one after the other.
pub open spec fn with_blocks(store: StoreView, blocks: Seq<BlockRecord>) -> StoreView
    decreases blocks.len(),
{
    if blocks.len() == 0 {
        store
    } else {
        with_block(with_blocks(store, blocks.drop_last()), blocks.last())
    }
}

/// Whether the store, starting empty, accepts every block of a run.
pub open spec fn all_accepted(blocks: Seq<BlockRecord>) -> bool {
    forall|k: int|
        0 <= k < blocks.len() ==> new_block(
            with_blocks(empty_store(), blocks.take(k)),
            #[trigger] blocks[k],
        ) is Ok
}

/// Whether the slots of a run of blocks ascend.
pub open spec fn slots_ascend(blocks: Seq<BlockRecord>) -> bool {
    forall|a: int, b: int|
        0 <= a < b < blocks.len() ==> (#[trigger] blocks[a]).slot < (#[trigger] blocks[b]).slot
}

/// Whether a transaction lies in a block whose identifier is between 1 and `last`.
pub open spec fn in_first_blocks(last: int) -> spec_fn(transaction::Row) -> bool {
    |row: transaction::Row| 1 <= row.block_id <= last
}

/// The blocks of an empty store after a run of accepted blocks: one row for each block, in
/// order, with the identifiers 1, 2, 3 and so on and with the slots of the blocks.
pub proof fn lemma_blocks_of_run(blocks: Seq<BlockRecord>)
    requires
        all_accepted(blocks),
    ensures
        with_blocks(empty_store(), blocks).blocks.len() == blocks.len(),
        with_blocks(empty_store(), blocks).next_block_id == blocks.len() + 1,
        forall|k: int|
            0 <= k < blocks.len() ==> (#[trigger] with_blocks(empty_store(), blocks).blocks[k]).id
                == k + 1 && with_blocks(empty_store(), blocks).blocks[k].slot == blocks[k].slot,
        forall|k: int|
            0 <= k <= blocks.len() ==> with_blocks(empty_store(), blocks).blocks.take(k)
                == #[trigger] with_blocks(empty_store(), blocks.take(k)).blocks,
    decreases blocks.len(),
{
    if blocks.len() == 0 {
        assert forall|k: int| 0 <= k <= blocks.len() implies with_blocks(
            empty_store(),
            blocks,
        ).blocks.take(k) == #[trigger] with_blocks(empty_store(), blocks.take(k)).blocks by {
            assert(blocks.take(k) =~= blocks);
            assert(with_blocks(empty_store(), blocks).blocks.take(k) =~= with_blocks(
                empty_store(),
                blocks,
            ).blocks);
        }
    } else {
        let shorter = blocks.drop_last();
        assert forall|k: int| 0 <= k < shorter.len() implies new_block(
            with_blocks(empty_store(), shorter.take(k)),
            #[trigger] shorter[k],
        ) is Ok by {
            assert(shorter.take(k) =~= blocks.take(k));
            assert(shorter[k] == blocks[k]);
        }
        lemma_blocks_of_run(shorter);
        let before = with_blocks(empty_store(), shorter);
        let after = with_blocks(empty_store(), blocks);
        assert(blocks.take(blocks.len() - 1) =~= shorter);
        assert(new_block(before, blocks[blocks.len() - 1]) is Ok);
        assert(after == with_block(before, blocks.last()));
        assert forall|k: int| 0 <= k <= blocks.len() implies after.blocks.take(k)
            == #[trigger] with_blocks(empty_store(), blocks.take(k)).blocks by {
            if k == blocks.len() {
                assert(blocks.take(k) =~= blocks);
                assert(after.blocks.take(k) =~= after.blocks);
            } else {
                assert(blocks.take(k) =~= shorter.take(k));
                assert(after.blocks.take(k) =~= before.blocks.take(k));
            }
        }
    }
}

/// Rollback monotonicity. Let a store hold the blocks of a run that an empty store accepted,
/// with ascending slots. After a rollback to the slot of the block at `at`, the blocks that
/// remain are the ones up to that block, with the identifiers 1 to `at + 1`, and the
/// transactions that remain are exactly those in blocks with these identifiers.
pub proof fn lemma_rollback_monotonicity(store: StoreView, blocks: Seq<BlockRecord>, at: int)
    requires
        all_accepted(blocks),
        slots_ascend(blocks),
        0 <= at < blocks.len(),
        store.blocks == with_blocks(empty_store(), blocks).blocks,
    ensures
        rolled_back(store, blocks[at].slot).blocks == store.blocks.take(at + 1),
        rolled_back(store, blocks[at].slot).blocks == with_blocks(
            empty_store(),
            blocks.take(at + 1),
        ).blocks,
        forall|k: int|
            0 <= k <= at ==> (#[trigger] rolled_back(store, blocks[at].slot).blocks[k]).id == k + 1
                && rolled_back(store, blocks[at].slot).blocks[k].slot == blocks[k].slot,
        rolled_back(store, blocks[at].slot).transactions == store.transactions.filter(
            in_first_blocks(at + 1),
        ),
{
    let slot = blocks[at].slot;
    lemma_blocks_of_run(blocks);
    let wanted = at_or_before(slot);
    assert forall|k: int| 0 <= k < at + 1 implies wanted(#[trigger] store.blocks[k]) by {
        if k < at {
            assert(blocks[k].slot < blocks[at].slot);
        }
    }
    assert forall|k: int| at + 1 <= k < store.blocks.len() implies !wanted(
        #[trigger] store.blocks[k],
    ) by {
        assert(blocks[at].slot < blocks[k].slot);
    }
    lemma_filter_prefix(store.blocks, wanted, at + 1);
    let kept = store.blocks.take(at + 1);
    let ids = ids_of_blocks(kept);
    assert forall|k: int| 0 <= k < store.transactions.len() implies in_blocks(ids)(
        #[trigger] store.transactions[k],
    ) == in_first_blocks(at + 1)(store.transactions[k]) by {
        let id = store.transactions[k].block_id;
        if 1 <= id <= at + 1 {
            assert(ids[id - 1] == id);
        }
        if ids.contains(id) {
            let j = choose|j: int| 0 <= j < ids.len() && ids[j] == id;
            assert(kept[j] == store.blocks[j]);
        }
    }
    lemma_filter_agrees(store.transactions, in_blocks(ids), in_first_blocks(at + 1));
}

/// Upsert idempotence, for one address: once the store knows an address, asking for it again
/// changes nothing.
pub proof fn lemma_address_upsert_is_idempotent(store: StoreView, payload: Seq<char>)
    requires
        store.wf(),
        store.next_address_id < i64::MAX,
    ensures
        with_address(with_address(store, payload), payload) == with_address(store, payload),
{
    lemma_with_address(store, payload);
}

/// Upsert idempotence, for one token: once the store knows a token, asking for it again
/// changes nothing.
pub proof fn lemma_token_upsert_is_idempotent(store: StoreView, policy_id: Seq<u8>, name: Seq<u8>)
    requires
        store.wf(),
        store.next_token_id < i64::MAX,
    ensures
        with_token(with_token(store, policy_id, name), policy_id, name) == with_token(
            store,
            policy_id,
            name,
        ),
{
    lemma_with_token(store, policy_id, name);
}

/// Upsert idempotence, for the tables: whatever was written, and how often, the store holds
/// at most one address of each text and at most one token of each policy and name.
pub proof fn lemma_one_row_per_key(store: StoreView)
    requires
        store.wf(),
    ensures
        forall|i: int, j: int|
            0 <= i < store.addresses.len() && 0 <= j < store.addresses.len() && i != j ==> (
            #[trigger] store.addresses[i]).payload != (#[trigger] store.addresses[j]).payload,
        forall|i: int, j: int|
            0 <= i < store.tokens.len() && 0 <= j < store.tokens.len() && i != j ==> !((
            #[trigger] store.tokens[i]).policy_id == (#[trigger] store.tokens[j]).policy_id
                && store.tokens[i].name == store.tokens[j].name),
{
    assert forall|i: int, j: int|
        0 <= i < store.addresses.len() && 0 <= j < store.addresses.len() && i != j implies (
    #[trigger] store.addresses[i]).payload != (#[trigger] store.addresses[j]).payload by {
        if i < j {
            assert(store.addresses[i].payload != store.addresses[j].payload);
        } else {
            assert(store.addresses[j].payload != store.addresses[i].payload);
        }
    }
    assert forall|i: int, j: int|
        0 <= i < store.tokens.len() && 0 <= j < store.tokens.len() && i != j implies !((
    #[trigger] store.tokens[i]).policy_id == (#[trigger] store.tokens[j]).policy_id
        && store.tokens[i].name == store.tokens[j].name) by {
        if i < j {
            assert(!(store.tokens[i].policy_id == store.tokens[j].policy_id
                && store.tokens[i].name == store.tokens[j].name));
        } else {
            assert(!(store.tokens[j].policy_id == store.tokens[i].policy_id
                && store.tokens[j].name == store.tokens[i].name));
        }
    }
}

/// Direction mapping. A swap that is handed in as `"Buy"` is stored with the direction
/// `true` and stands in histories as `"Buy"`; one handed in as `"Sell"` is stored as `false`
/// and stands there as `"Sell"`.
pub proof fn lemma_direction_mapping(
    store: StoreView,
    tx_id: i64,
    script_hash: Seq<u8>,
    info: SwapInfoView,
    direction: bool,
)
    requires
        info.direction == direction_text(direction),
        new_swap(store, tx_id, script_hash, info) is Ok,
    ensures
        new_swap(store, tx_id, script_hash, info)->Ok_0.direction == direction,
        swap_entry(new_swap(store, tx_id, script_hash, info)->Ok_0).direction == info.direction,
{
    lemma_direction_text_tells(direction, true);
    lemma_direction_text_tells(direction, false);
}

/// Writing the transfers of assets leaves blocks, transactions, price updates and swaps as
/// they are.
pub proof fn lemma_asset_transfers_keep(
    store: StoreView,
    output_id: i64,
    assets: Seq<OutputAssetView>,
    count: int,
)
    ensures
        with_asset_transfers(store, output_id, assets, count).blocks == store.blocks,
        with_asset_transfers(store, output_id, assets, count).transactions == store.transactions,
        with_asset_transfers(store, output_id, assets, count).price_updates == store.price_updates,
        with_asset_transfers(store, output_id, assets, count).swaps == store.swaps,
    decreases count,
{
    if count > 0 {
        lemma_asset_transfers_keep(store, output_id, assets, count - 1);
    }
}

/// Writing the outputs of a transaction leaves blocks, transactions, price updates and swaps
/// as they are.
pub proof fn lemma_outputs_keep(
    store: StoreView,
    tx_id: i64,
    outputs: Seq<TxOutputRecord>,
    count: int,
)
    ensures
        with_outputs(store, tx_id, outputs, count).blocks == store.blocks,
        with_outputs(store, tx_id, outputs, count).transactions == store.transactions,
        with_outputs(store, tx_id, outputs, count).price_updates == store.price_updates,
        with_outputs(store, tx_id, outputs, count).swaps == store.swaps,
    decreases count,
{
    if count > 0 {
        lemma_outputs_keep(store, tx_id, outputs, count - 1);
        let before = with_outputs(store, tx_id, outputs, count - 1);
        let output = outputs[count - 1]@;
        let known = with_token(with_address(before, output.address), Seq::empty(), Seq::empty());
        let listed = with_output_row(
            known,
            transaction_output::Row {
                id: known.next_output_id,
                tx_id,
                index: (count - 1) as u32,
                address_id: address_id(known, output.address)->0,
                datum_hash: output.datum_hash,
            },
        );
        let paid = with_transfer_row(
            listed,
            token_transfer::Row {
                id: listed.next_transfer_id,
                output_id: known.next_output_id,
                token_id: token_id(listed, Seq::empty(), Seq::empty())->0,
                amount: output.amount,
            },
        );
        lemma_asset_transfers_keep(
            paid,
            known.next_output_id,
            output.assets,
            output.assets.len() as int,
        );
    }
}

/// Writing a transaction leaves blocks, price updates and swaps as they are.
pub proof fn lemma_transaction_keeps(
    store: StoreView,
    transaction: TransactionRecord,
    block_id: i64,
)
    ensures
        with_transaction(store, transaction, block_id).blocks == store.blocks,
        with_transaction(store, transaction, block_id).price_updates == store.price_updates,
        with_transaction(store, transaction, block_id).swaps == store.swaps,
{
    if let Ok(row) = new_transaction(store, transaction, block_id) {
        lemma_outputs_keep(
            with_transaction_row(store, row),
            row.id,
            transaction.outputs@,
            transaction.outputs@.len() as int,
        );
    }
}

} // verus!
