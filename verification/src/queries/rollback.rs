//! Rolling the store back to a slot: the blocks after the slot leave, and with them every row
//! that hangs on them.

use crate::entity::{block, price_update, swap, token_transfer, transaction, transaction_output};
use crate::queries::rows::{lemma_kept, lemma_kept_from, kept_from};
use crate::queries::state::{ids_ascend, StoreView};
use vstd::prelude::*;

verus! {

/// Whether a block lies at or before `slot`.
pub open spec fn at_or_before(slot: u64) -> spec_fn(block::Row) -> bool {
    |row: block::Row| row.slot <= slot
}

/// Whether a transaction lies in one of these blocks.
pub open spec fn in_blocks(ids: Seq<i64>) -> spec_fn(transaction::Row) -> bool {
    |row: transaction::Row| ids.contains(row.block_id)
}

/// Whether an output belongs to one of these transactions.
pub open spec fn output_of(ids: Seq<i64>) -> spec_fn(transaction_output::Row) -> bool {
    |row: transaction_output::Row| ids.contains(row.tx_id)
}

/// Whether a transfer lies on one of these outputs.
pub open spec fn transfer_on(ids: Seq<i64>) -> spec_fn(token_transfer::Row) -> bool {
    |row: token_transfer::Row| ids.contains(row.output_id)
}

/// Whether a price update belongs to one of these transactions.
pub open spec fn price_of(ids: Seq<i64>) -> spec_fn(price_update::Row) -> bool {
    |row: price_update::Row| ids.contains(row.tx_id)
}

/// Whether a swap belongs to one of these transactions.
pub open spec fn swap_of(ids: Seq<i64>) -> spec_fn(swap::Row) -> bool {
    |row: swap::Row| ids.contains(row.tx_id)
}

/// The identifiers of blocks.
pub open spec fn ids_of_blocks(rows: Seq<block::Row>) -> Seq<i64> {
    Seq::new(rows.len(), |i: int| rows[i].id)
}

/// The identifiers of transactions.
pub open spec fn ids_of_transactions(rows: Seq<transaction::Row>) -> Seq<i64> {
    Seq::new(rows.len(), |i: int| rows[i].id)
}

/// The identifiers of outputs.
pub open spec fn ids_of_outputs(rows: Seq<transaction_output::Row>) -> Seq<i64> {
    Seq::new(rows.len(), |i: int| rows[i].id)
}

/// The store after a rollback to `slot`. The blocks at or before the slot stay. A
/// transaction stays if its block stays; an output, a price update and a swap stay if their
/// transaction stays; a transfer stays if its output stays. Addresses and tokens all stay,
/// and no identifier is handed out again.
pub open spec fn rolled_back(store: StoreView, slot: u64) -> StoreView {
    let blocks = store.blocks.filter(at_or_before(slot));
    let transactions = store.transactions.filter(in_blocks(ids_of_blocks(blocks)));
    let outputs = store.outputs.filter(output_of(ids_of_transactions(transactions)));
    let transfers = store.transfers.filter(transfer_on(ids_of_outputs(outputs)));
    let price_updates = store.price_updates.filter(price_of(ids_of_transactions(transactions)));
    let swaps = store.swaps.filter(swap_of(ids_of_transactions(transactions)));
    StoreView { blocks, transactions, outputs, transfers, price_updates, swaps, ..store }
}

/// What holds of a store still holds after a rollback.
pub proof fn lemma_rolled_back_wf(store: StoreView, slot: u64)
    requires
        store.wf(),
    ensures
        rolled_back(store, slot).wf(),
{
    lemma_rolled_back_ids(store, slot);
    lemma_rolled_back_keys(store, slot);
    lemma_rolled_back_references(store, slot);
    lemma_rolled_back_amounts(store, slot);
}

proof fn lemma_rolled_back_ids(store: StoreView, slot: u64)
    requires
        store.ids_in_order(),
    ensures
        rolled_back(store, slot).ids_in_order(),
{
    let after = rolled_back(store, slot);
    let keep_blocks = at_or_before(slot);
    let keep_transactions = in_blocks(ids_of_blocks(after.blocks));
    let keep_outputs = output_of(ids_of_transactions(after.transactions));
    let keep_transfers = transfer_on(ids_of_outputs(after.outputs));
    let keep_prices = price_of(ids_of_transactions(after.transactions));
    let keep_swaps = swap_of(ids_of_transactions(after.transactions));
    assert(after.address_ids() =~= store.address_ids());
    assert(after.token_ids() =~= store.token_ids());
    assert(ids_ascend(after.block_ids(), after.next_block_id)) by {
        assert forall|i: int, j: int| 0 <= i < j < after.block_ids().len() implies
            #[trigger] after.block_ids()[i] < #[trigger] after.block_ids()[j] by {
            lemma_kept_from(store.blocks, keep_blocks, i);
            lemma_kept_from(store.blocks, keep_blocks, j);
            let a = kept_from(store.blocks, keep_blocks, i);
            let b = kept_from(store.blocks, keep_blocks, j);
            assert(store.block_ids()[a] < store.block_ids()[b]);
        }
        assert forall|i: int| 0 <= i < after.block_ids().len() implies 1
            <= #[trigger] after.block_ids()[i] < after.next_block_id by {
            lemma_kept_from(store.blocks, keep_blocks, i);
            let a = kept_from(store.blocks, keep_blocks, i);
            assert(1 <= store.block_ids()[a] < store.next_block_id);
        }
    }
    assert(ids_ascend(after.transaction_ids(), after.next_transaction_id)) by {
        assert forall|i: int, j: int| 0 <= i < j < after.transaction_ids().len() implies
            #[trigger] after.transaction_ids()[i] < #[trigger] after.transaction_ids()[j] by {
            lemma_kept_from(store.transactions, keep_transactions, i);
            lemma_kept_from(store.transactions, keep_transactions, j);
            let a = kept_from(store.transactions, keep_transactions, i);
            let b = kept_from(store.transactions, keep_transactions, j);
            assert(store.transaction_ids()[a] < store.transaction_ids()[b]);
        }
        assert forall|i: int| 0 <= i < after.transaction_ids().len() implies 1
            <= #[trigger] after.transaction_ids()[i] < after.next_transaction_id by {
            lemma_kept_from(store.transactions, keep_transactions, i);
            let a = kept_from(store.transactions, keep_transactions, i);
            assert(1 <= store.transaction_ids()[a] < store.next_transaction_id);
        }
    }
    assert(ids_ascend(after.output_ids(), after.next_output_id)) by {
        assert forall|i: int, j: int| 0 <= i < j < after.output_ids().len() implies
            #[trigger] after.output_ids()[i] < #[trigger] after.output_ids()[j] by {
            lemma_kept_from(store.outputs, keep_outputs, i);
            lemma_kept_from(store.outputs, keep_outputs, j);
            let a = kept_from(store.outputs, keep_outputs, i);
            let b = kept_from(store.outputs, keep_outputs, j);
            assert(store.output_ids()[a] < store.output_ids()[b]);
        }
        assert forall|i: int| 0 <= i < after.output_ids().len() implies 1
            <= #[trigger] after.output_ids()[i] < after.next_output_id by {
            lemma_kept_from(store.outputs, keep_outputs, i);
            let a = kept_from(store.outputs, keep_outputs, i);
            assert(1 <= store.output_ids()[a] < store.next_output_id);
        }
    }
    assert(ids_ascend(after.transfer_ids(), after.next_transfer_id)) by {
        assert forall|i: int, j: int| 0 <= i < j < after.transfer_ids().len() implies
            #[trigger] after.transfer_ids()[i] < #[trigger] after.transfer_ids()[j] by {
            lemma_kept_from(store.transfers, keep_transfers, i);
            lemma_kept_from(store.transfers, keep_transfers, j);
            let a = kept_from(store.transfers, keep_transfers, i);
            let b = kept_from(store.transfers, keep_transfers, j);
            assert(store.transfer_ids()[a] < store.transfer_ids()[b]);
        }
        assert forall|i: int| 0 <= i < after.transfer_ids().len() implies 1
            <= #[trigger] after.transfer_ids()[i] < after.next_transfer_id by {
            lemma_kept_from(store.transfers, keep_transfers, i);
            let a = kept_from(store.transfers, keep_transfers, i);
            assert(1 <= store.transfer_ids()[a] < store.next_transfer_id);
        }
    }
    assert(ids_ascend(after.price_update_ids(), after.next_price_update_id)) by {
        assert forall|i: int, j: int| 0 <= i < j < after.price_update_ids().len() implies
            #[trigger] after.price_update_ids()[i] < #[trigger] after.price_update_ids()[j] by {
            lemma_kept_from(store.price_updates, keep_prices, i);
            lemma_kept_from(store.price_updates, keep_prices, j);
            let a = kept_from(store.price_updates, keep_prices, i);
            let b = kept_from(store.price_updates, keep_prices, j);
            assert(store.price_update_ids()[a] < store.price_update_ids()[b]);
        }
        assert forall|i: int| 0 <= i < after.price_update_ids().len() implies 1
            <= #[trigger] after.price_update_ids()[i] < after.next_price_update_id by {
            lemma_kept_from(store.price_updates, keep_prices, i);
            let a = kept_from(store.price_updates, keep_prices, i);
            assert(1 <= store.price_update_ids()[a] < store.next_price_update_id);
        }
    }
    assert(ids_ascend(after.swap_ids(), after.next_swap_id)) by {
        assert forall|i: int, j: int| 0 <= i < j < after.swap_ids().len() implies
            #[trigger] after.swap_ids()[i] < #[trigger] after.swap_ids()[j] by {
            lemma_kept_from(store.swaps, keep_swaps, i);
            lemma_kept_from(store.swaps, keep_swaps, j);
            let a = kept_from(store.swaps, keep_swaps, i);
            let b = kept_from(store.swaps, keep_swaps, j);
            assert(store.swap_ids()[a] < store.swap_ids()[b]);
        }
        assert forall|i: int| 0 <= i < after.swap_ids().len() implies 1
            <= #[trigger] after.swap_ids()[i] < after.next_swap_id by {
            lemma_kept_from(store.swaps, keep_swaps, i);
            let a = kept_from(store.swaps, keep_swaps, i);
            assert(1 <= store.swap_ids()[a] < store.next_swap_id);
        }
    }
}

proof fn lemma_rolled_back_keys(store: StoreView, slot: u64)
    requires
        store.keys_are_unique(),
    ensures
        rolled_back(store, slot).keys_are_unique(),
{
    let after = rolled_back(store, slot);
    let keep_blocks = at_or_before(slot);
    let keep_transactions = in_blocks(ids_of_blocks(after.blocks));
    assert forall|i: int, j: int| 0 <= i < j < after.blocks.len() implies (
    #[trigger] after.blocks[i]).hash != (#[trigger] after.blocks[j]).hash by {
        lemma_kept_from(store.blocks, keep_blocks, i);
        lemma_kept_from(store.blocks, keep_blocks, j);
        let a = kept_from(store.blocks, keep_blocks, i);
        let b = kept_from(store.blocks, keep_blocks, j);
        assert(store.blocks[a].hash != store.blocks[b].hash);
    }
    assert forall|i: int, j: int| 0 <= i < j < after.transactions.len() implies (
    #[trigger] after.transactions[i]).hash != (#[trigger] after.transactions[j]).hash by {
        lemma_kept_from(store.transactions, keep_transactions, i);
        lemma_kept_from(store.transactions, keep_transactions, j);
        let a = kept_from(store.transactions, keep_transactions, i);
        let b = kept_from(store.transactions, keep_transactions, j);
        assert(store.transactions[a].hash != store.transactions[b].hash);
    }
}

proof fn lemma_rolled_back_references(store: StoreView, slot: u64)
    requires
        store.references_hold(),
    ensures
        rolled_back(store, slot).references_hold(),
{
    let after = rolled_back(store, slot);
    let keep_blocks = at_or_before(slot);
    let keep_transactions = in_blocks(ids_of_blocks(after.blocks));
    let keep_outputs = output_of(ids_of_transactions(after.transactions));
    let keep_transfers = transfer_on(ids_of_outputs(after.outputs));
    let keep_prices = price_of(ids_of_transactions(after.transactions));
    let keep_swaps = swap_of(ids_of_transactions(after.transactions));
    assert(after.block_ids() =~= ids_of_blocks(after.blocks));
    assert(after.transaction_ids() =~= ids_of_transactions(after.transactions));
    assert(after.output_ids() =~= ids_of_outputs(after.outputs));
    assert(after.address_ids() =~= store.address_ids());
    assert(after.token_ids() =~= store.token_ids());
    assert forall|i: int| 0 <= i < after.blocks.len() implies ((
    #[trigger] after.blocks[i]).previous_block_id matches Some(parent)
        ==> after.is_earlier_block(parent, after.blocks[i].slot)) by {
        lemma_kept_from(store.blocks, keep_blocks, i);
        let a = kept_from(store.blocks, keep_blocks, i);
        if let Some(parent) = after.blocks[i].previous_block_id {
            assert(store.blocks[a].previous_block_id == Some(parent));
            assert(store.is_earlier_block(parent, store.blocks[a].slot));
            let p = choose|p: int|
                0 <= p < store.blocks.len() && (#[trigger] store.blocks[p]).id == parent
                    && store.blocks[p].slot < store.blocks[a].slot;
            assert(keep_blocks(store.blocks[a]));
            assert(keep_blocks(store.blocks[p]));
            lemma_kept(store.blocks, keep_blocks, p);
            let k = choose|k: int|
                0 <= k < after.blocks.len() && after.blocks[k] == store.blocks[p];
            assert(after.blocks[k].id == parent);
        }
    }
    assert forall|i: int| 0 <= i < after.transactions.len() implies after.block_ids().contains(
        (#[trigger] after.transactions[i]).block_id,
    ) by {
        lemma_kept_from(store.transactions, keep_transactions, i);
        assert(keep_transactions(after.transactions[i]));
    }
    assert forall|i: int| 0 <= i < after.outputs.len() implies after.transaction_ids().contains(
        (#[trigger] after.outputs[i]).tx_id,
    ) && after.address_ids().contains(after.outputs[i].address_id) by {
        lemma_kept_from(store.outputs, keep_outputs, i);
        assert(keep_outputs(after.outputs[i]));
        let a = kept_from(store.outputs, keep_outputs, i);
        assert(store.address_ids().contains(store.outputs[a].address_id));
    }
    assert forall|i: int| 0 <= i < after.transfers.len() implies after.output_ids().contains(
        (#[trigger] after.transfers[i]).output_id,
    ) && after.token_ids().contains(after.transfers[i].token_id) by {
        lemma_kept_from(store.transfers, keep_transfers, i);
        assert(keep_transfers(after.transfers[i]));
        let a = kept_from(store.transfers, keep_transfers, i);
        assert(store.token_ids().contains(store.transfers[a].token_id));
    }
    assert forall|i: int|
        0 <= i < after.price_updates.len() implies after.transaction_ids().contains(
        (#[trigger] after.price_updates[i]).tx_id,
    ) && after.token_ids().contains(after.price_updates[i].token1_id)
        && after.token_ids().contains(after.price_updates[i].token2_id) by {
        lemma_kept_from(store.price_updates, keep_prices, i);
        assert(keep_prices(after.price_updates[i]));
        let a = kept_from(store.price_updates, keep_prices, i);
        assert(store.token_ids().contains(store.price_updates[a].token1_id));
    }
    assert forall|i: int| 0 <= i < after.swaps.len() implies after.transaction_ids().contains(
        (#[trigger] after.swaps[i]).tx_id,
    ) && after.token_ids().contains(after.swaps[i].token1_id) && after.token_ids().contains(
        after.swaps[i].token2_id,
    ) by {
        lemma_kept_from(store.swaps, keep_swaps, i);
        assert(keep_swaps(after.swaps[i]));
        let a = kept_from(store.swaps, keep_swaps, i);
        assert(store.token_ids().contains(store.swaps[a].token1_id));
    }
}

proof fn lemma_rolled_back_amounts(store: StoreView, slot: u64)
    requires
        store.amounts_hold(),
    ensures
        rolled_back(store, slot).amounts_hold(),
{
    let after = rolled_back(store, slot);
    let keep_prices = price_of(ids_of_transactions(after.transactions));
    let keep_swaps = swap_of(ids_of_transactions(after.transactions));
    assert forall|i: int| 0 <= i < after.price_updates.len() implies (
    #[trigger] after.price_updates[i]).amount1 >= 0 && after.price_updates[i].amount2 >= 0 by {
        lemma_kept_from(store.price_updates, keep_prices, i);
        let a = kept_from(store.price_updates, keep_prices, i);
        assert(store.price_updates[a].amount1 >= 0);
    }
    assert forall|i: int| 0 <= i < after.swaps.len() implies (#[trigger] after.swaps[i]).amount1
        >= 0 && after.swaps[i].amount2 >= 0 by {
        lemma_kept_from(store.swaps, keep_swaps, i);
        let a = kept_from(store.swaps, keep_swaps, i);
        assert(store.swaps[a].amount1 >= 0);
    }
}

} // verus!
