//! Taking up a store again from its tables, as they were kept elsewhere: the tables are
//! accepted only if everything holds of them that holds of a store at all times.

use crate::entity::{
    address, block, price_update, swap, token, token_transfer, transaction, transaction_output,
};
use crate::queries::columns::{
    address_ids, all_among, block_ids, next_after, output_addresses, output_ids,
    output_transactions, price_first_tokens, price_second_tokens, price_transactions,
    price_update_ids, swap_first_tokens, swap_ids, swap_second_tokens, swap_transactions,
    token_ids, transaction_blocks, transaction_ids, transfer_ids, transfer_outputs,
    transfer_tokens,
};
use crate::queries::state::{Store, StoreView};
use crate::sink::common::{bytes_eq, text_eq};
use vstd::prelude::*;

verus! {

/// The eight tables of a store.
pub struct Tables {
    pub blocks: Vec<block::Model>,
    pub transactions: Vec<transaction::Model>,
    pub addresses: Vec<address::Model>,
    pub tokens: Vec<token::Model>,
    pub outputs: Vec<transaction_output::Model>,
    pub transfers: Vec<token_transfer::Model>,
    pub price_updates: Vec<price_update::Model>,
    pub swaps: Vec<swap::Model>,
}

/// The identifier that follows the last of these: 1 where there is none.
pub open spec fn next_id_after(ids: Seq<i64>) -> i64 {
    if ids.len() == 0 {
        1
    } else {
        (ids.last() + 1) as i64
    }
}

/// The rows of the tables, with no identifier handed out yet.
pub open spec fn rows_of(tables: Tables) -> StoreView {
    StoreView {
        blocks: tables.blocks.deep_view(),
        transactions: tables.transactions.deep_view(),
        addresses: tables.addresses.deep_view(),
        tokens: tables.tokens.deep_view(),
        outputs: tables.outputs.deep_view(),
        transfers: tables.transfers.deep_view(),
        price_updates: tables.price_updates.deep_view(),
        swaps: tables.swaps.deep_view(),
        next_block_id: 1,
        next_transaction_id: 1,
        next_address_id: 1,
        next_token_id: 1,
        next_output_id: 1,
        next_transfer_id: 1,
        next_price_update_id: 1,
        next_swap_id: 1,
    }
}

/// The store that has these tables: each table goes on with the identifier after its last.
pub open spec fn store_of(tables: Tables) -> StoreView {
    let rows = rows_of(tables);
    StoreView {
        next_block_id: next_id_after(rows.block_ids()),
        next_transaction_id: next_id_after(rows.transaction_ids()),
        next_address_id: next_id_after(rows.address_ids()),
        next_token_id: next_id_after(rows.token_ids()),
        next_output_id: next_id_after(rows.output_ids()),
        next_transfer_id: next_id_after(rows.transfer_ids()),
        next_price_update_id: next_id_after(rows.price_update_ids()),
        next_swap_id: next_id_after(rows.swap_ids()),
        ..rows
    }
}

fn distinct_block_hashes(rows: &Vec<block::Model>) -> (yes: bool)
    ensures
        yes == forall|i: int, j: int|
            0 <= i < j < rows@.len() ==> (#[trigger] rows.deep_view()[i]).hash != (
            #[trigger] rows.deep_view()[j]).hash,
{
    let mut j: usize = 0;
    while j < rows.len()
        invariant
            j <= rows@.len(),
            forall|a: int, b: int|
                0 <= a < b < j ==> (#[trigger] rows.deep_view()[a]).hash != (
                #[trigger] rows.deep_view()[b]).hash,
        decreases rows@.len() - j,
    {
        let mut i: usize = 0;
        while i < j
            invariant
                i <= j < rows@.len(),
                forall|a: int|
                    0 <= a < i ==> (#[trigger] rows.deep_view()[a]).hash != rows.deep_view()[j as int].hash,
            decreases j - i,
        {
            if bytes_eq(&rows[i].hash, &rows[j].hash) {
                assert(rows.deep_view()[i as int].hash == rows.deep_view()[j as int].hash);
                return false;
            }
            i = i + 1;
        }
        j = j + 1;
    }
    true
}

fn distinct_transaction_hashes(rows: &Vec<transaction::Model>) -> (yes: bool)
    ensures
        yes == forall|i: int, j: int|
            0 <= i < j < rows@.len() ==> (#[trigger] rows.deep_view()[i]).hash != (
            #[trigger] rows.deep_view()[j]).hash,
{
    let mut j: usize = 0;
    while j < rows.len()
        invariant
            j <= rows@.len(),
            forall|a: int, b: int|
                0 <= a < b < j ==> (#[trigger] rows.deep_view()[a]).hash != (
                #[trigger] rows.deep_view()[b]).hash,
        decreases rows@.len() - j,
    {
        let mut i: usize = 0;
        while i < j
            invariant
                i <= j < rows@.len(),
                forall|a: int|
                    0 <= a < i ==> (#[trigger] rows.deep_view()[a]).hash != rows.deep_view()[j as int].hash,
            decreases j - i,
        {
            if bytes_eq(&rows[i].hash, &rows[j].hash) {
                assert(rows.deep_view()[i as int].hash == rows.deep_view()[j as int].hash);
                return false;
            }
            i = i + 1;
        }
        j = j + 1;
    }
    true
}

fn distinct_payloads(rows: &Vec<address::Model>) -> (yes: bool)
    ensures
        yes == forall|i: int, j: int|
            0 <= i < j < rows@.len() ==> (#[trigger] rows.deep_view()[i]).payload != (
            #[trigger] rows.deep_view()[j]).payload,
{
    let mut j: usize = 0;
    while j < rows.len()
        invariant
            j <= rows@.len(),
            forall|a: int, b: int|
                0 <= a < b < j ==> (#[trigger] rows.deep_view()[a]).payload != (
                #[trigger] rows.deep_view()[b]).payload,
        decreases rows@.len() - j,
    {
        let mut i: usize = 0;
        while i < j
            invariant
                i <= j < rows@.len(),
                forall|a: int|
                    0 <= a < i ==> (#[trigger] rows.deep_view()[a]).payload
                        != rows.deep_view()[j as int].payload,
            decreases j - i,
        {
            if text_eq(rows[i].payload.as_str(), rows[j].payload.as_str()) {
                assert(rows.deep_view()[i as int].payload == rows.deep_view()[j as int].payload);
                return false;
            }
            i = i + 1;
        }
        j = j + 1;
    }
    true
}

fn distinct_tokens(rows: &Vec<token::Model>) -> (yes: bool)
    ensures
        yes == forall|i: int, j: int|
            0 <= i < j < rows@.len() ==> !((#[trigger] rows.deep_view()[i]).policy_id == (
            #[trigger] rows.deep_view()[j]).policy_id && rows.deep_view()[i].name
                == rows.deep_view()[j].name),
{
    let mut j: usize = 0;
    while j < rows.len()
        invariant
            j <= rows@.len(),
            forall|a: int, b: int|
                0 <= a < b < j ==> !((#[trigger] rows.deep_view()[a]).policy_id == (
                #[trigger] rows.deep_view()[b]).policy_id && rows.deep_view()[a].name
                    == rows.deep_view()[b].name),
        decreases rows@.len() - j,
    {
        let mut i: usize = 0;
        while i < j
            invariant
                i <= j < rows@.len(),
                forall|a: int|
                    0 <= a < i ==> !((#[trigger] rows.deep_view()[a]).policy_id
                        == rows.deep_view()[j as int].policy_id && rows.deep_view()[a].name
                        == rows.deep_view()[j as int].name),
            decreases j - i,
        {
            if bytes_eq(&rows[i].policy_id, &rows[j].policy_id) && bytes_eq(
                &rows[i].name,
                &rows[j].name,
            ) {
                assert(rows.deep_view()[i as int].policy_id == rows.deep_view()[j as int].policy_id
                    && rows.deep_view()[i as int].name == rows.deep_view()[j as int].name);
                return false;
            }
            i = i + 1;
        }
        j = j + 1;
    }
    true
}

/// Whether a block with this identifier and a slot below `slot` is among the rows.
pub open spec fn has_earlier(rows: Seq<block::Row>, id: i64, slot: i64) -> bool {
    exists|k: int| 0 <= k < rows.len() && (#[trigger] rows[k]).id == id && rows[k].slot < slot
}

fn parent_is_earlier(rows: &Vec<block::Model>, id: i64, slot: i64) -> (yes: bool)
    ensures
        yes == has_earlier(rows.deep_view(), id, slot),
{
    let mut k: usize = 0;
    while k < rows.len()
        invariant
            k <= rows@.len(),
            forall|a: int|
                0 <= a < k ==> !((#[trigger] rows.deep_view()[a]).id == id
                    && rows.deep_view()[a].slot < slot),
        decreases rows@.len() - k,
    {
        if rows[k].id == id && rows[k].slot < slot {
            assert(rows.deep_view()[k as int].id == id && rows.deep_view()[k as int].slot < slot);
            return true;
        }
        k = k + 1;
    }
    false
}

fn parents_are_earlier(rows: &Vec<block::Model>) -> (yes: bool)
    ensures
        yes == forall|i: int|
            0 <= i < rows@.len() ==> ((#[trigger] rows.deep_view()[i]).previous_block_id matches Some(
                parent,
            ) ==> has_earlier(rows.deep_view(), parent, rows.deep_view()[i].slot)),
{
    let mut i: usize = 0;
    while i < rows.len()
        invariant
            i <= rows@.len(),
            forall|a: int|
                0 <= a < i ==> ((#[trigger] rows.deep_view()[a]).previous_block_id matches Some(
                    parent,
                ) ==> has_earlier(rows.deep_view(), parent, rows.deep_view()[a].slot)),
        decreases rows@.len() - i,
    {
        match rows[i].previous_block_id {
            Some(parent) => {
                if !parent_is_earlier(rows, parent, rows[i].slot) {
                    assert(rows.deep_view()[i as int].previous_block_id == Some(parent));
                    return false;
                }
            },
            None => {},
        }
        i = i + 1;
    }
    true
}

fn price_amounts_hold(rows: &Vec<price_update::Model>) -> (yes: bool)
    ensures
        yes == forall|i: int|
            0 <= i < rows@.len() ==> (#[trigger] rows.deep_view()[i]).amount1 >= 0
                && rows.deep_view()[i].amount2 >= 0,
{
    let mut i: usize = 0;
    while i < rows.len()
        invariant
            i <= rows@.len(),
            forall|a: int|
                0 <= a < i ==> (#[trigger] rows.deep_view()[a]).amount1 >= 0
                    && rows.deep_view()[a].amount2 >= 0,
        decreases rows@.len() - i,
    {
        if rows[i].amount1 < 0 || rows[i].amount2 < 0 {
            assert(!(rows.deep_view()[i as int].amount1 >= 0 && rows.deep_view()[i as int].amount2
                >= 0));
            return false;
        }
        i = i + 1;
    }
    true
}

fn swap_amounts_hold(rows: &Vec<swap::Model>) -> (yes: bool)
    ensures
        yes == forall|i: int|
            0 <= i < rows@.len() ==> (#[trigger] rows.deep_view()[i]).amount1 >= 0
                && rows.deep_view()[i].amount2 >= 0,
{
    let mut i: usize = 0;
    while i < rows.len()
        invariant
            i <= rows@.len(),
            forall|a: int|
                0 <= a < i ==> (#[trigger] rows.deep_view()[a]).amount1 >= 0
                    && rows.deep_view()[a].amount2 >= 0,
        decreases rows@.len() - i,
    {
        if rows[i].amount1 < 0 || rows[i].amount2 < 0 {
            assert(!(rows.deep_view()[i as int].amount1 >= 0 && rows.deep_view()[i as int].amount2
                >= 0));
            return false;
        }
        i = i + 1;
    }
    true
}

fn references_hold(tables: &Tables) -> (yes: bool)
    ensures
        yes == rows_of(*tables).references_hold(),
{
    let ghost rows = rows_of(*tables);
    let blocks = block_ids(&tables.blocks);
    let transactions = transaction_ids(&tables.transactions);
    let addresses = address_ids(&tables.addresses);
    let tokens = token_ids(&tables.tokens);
    let outputs = output_ids(&tables.outputs);
    proof {
        assert(blocks@ =~= rows.block_ids());
        assert(transactions@ =~= rows.transaction_ids());
        assert(addresses@ =~= rows.address_ids());
        assert(tokens@ =~= rows.token_ids());
        assert(outputs@ =~= rows.output_ids());
        assert forall|parent: i64, slot: i64| #[trigger]
            rows.is_earlier_block(parent, slot) == has_earlier(
                tables.blocks.deep_view(),
                parent,
                slot,
            ) by {}
    }
    let parents = parents_are_earlier(&tables.blocks);
    let transaction_blocks = transaction_blocks(&tables.transactions);
    let in_blocks = all_among(&transaction_blocks, &blocks);
    let output_transactions = output_transactions(&tables.outputs);
    let output_addresses = output_addresses(&tables.outputs);
    let of_transactions = all_among(&output_transactions, &transactions);
    let at_addresses = all_among(&output_addresses, &addresses);
    let transfer_outputs = transfer_outputs(&tables.transfers);
    let transfer_tokens = transfer_tokens(&tables.transfers);
    let on_outputs = all_among(&transfer_outputs, &outputs);
    let of_tokens = all_among(&transfer_tokens, &tokens);
    let price_transactions = price_transactions(&tables.price_updates);
    let price_first = price_first_tokens(&tables.price_updates);
    let price_second = price_second_tokens(&tables.price_updates);
    let prices = all_among(&price_transactions, &transactions) && all_among(&price_first, &tokens)
        && all_among(&price_second, &tokens);
    let swap_transactions = swap_transactions(&tables.swaps);
    let swap_first = swap_first_tokens(&tables.swaps);
    let swap_second = swap_second_tokens(&tables.swaps);
    let swaps = all_among(&swap_transactions, &transactions) && all_among(&swap_first, &tokens)
        && all_among(&swap_second, &tokens);
    proof {
        assert forall|i: int| 0 <= i < rows.transactions.len() implies (
        #[trigger] rows.transactions[i]).block_id == transaction_blocks@[i] by {}
        assert forall|i: int| 0 <= i < rows.outputs.len() implies (#[trigger] rows.outputs[i]).tx_id
            == output_transactions@[i] && rows.outputs[i].address_id == output_addresses@[i] by {}
        assert forall|i: int| 0 <= i < rows.transfers.len() implies (
        #[trigger] rows.transfers[i]).output_id == transfer_outputs@[i]
            && rows.transfers[i].token_id == transfer_tokens@[i] by {}
        assert forall|i: int| 0 <= i < rows.price_updates.len() implies (
        #[trigger] rows.price_updates[i]).tx_id == price_transactions@[i]
            && rows.price_updates[i].token1_id == price_first@[i] && rows.price_updates[i].token2_id
            == price_second@[i] by {}
        assert forall|i: int| 0 <= i < rows.swaps.len() implies (#[trigger] rows.swaps[i]).tx_id
            == swap_transactions@[i] && rows.swaps[i].token1_id == swap_first@[i]
            && rows.swaps[i].token2_id == swap_second@[i] by {}
        if parents && in_blocks && of_transactions && at_addresses && on_outputs && of_tokens
            && prices && swaps {
            assert forall|i: int| 0 <= i < rows.transactions.len() implies rows.block_ids().contains(
                (#[trigger] rows.transactions[i]).block_id,
            ) by {
                assert(blocks@.contains(transaction_blocks@[i]));
            }
            assert forall|i: int| 0 <= i < rows.outputs.len() implies rows.transaction_ids().contains(
                (#[trigger] rows.outputs[i]).tx_id,
            ) && rows.address_ids().contains(rows.outputs[i].address_id) by {
                assert(transactions@.contains(output_transactions@[i]));
                assert(addresses@.contains(output_addresses@[i]));
            }
            assert forall|i: int| 0 <= i < rows.transfers.len() implies rows.output_ids().contains(
                (#[trigger] rows.transfers[i]).output_id,
            ) && rows.token_ids().contains(rows.transfers[i].token_id) by {
                assert(outputs@.contains(transfer_outputs@[i]));
                assert(tokens@.contains(transfer_tokens@[i]));
            }
            assert forall|i: int|
                0 <= i < rows.price_updates.len() implies rows.transaction_ids().contains(
                (#[trigger] rows.price_updates[i]).tx_id,
            ) && rows.token_ids().contains(rows.price_updates[i].token1_id)
                && rows.token_ids().contains(rows.price_updates[i].token2_id) by {
                assert(transactions@.contains(price_transactions@[i]));
                assert(tokens@.contains(price_first@[i]));
                assert(tokens@.contains(price_second@[i]));
            }
            assert forall|i: int| 0 <= i < rows.swaps.len() implies rows.transaction_ids().contains(
                (#[trigger] rows.swaps[i]).tx_id,
            ) && rows.token_ids().contains(rows.swaps[i].token1_id) && rows.token_ids().contains(
                rows.swaps[i].token2_id,
            ) by {
                assert(transactions@.contains(swap_transactions@[i]));
                assert(tokens@.contains(swap_first@[i]));
                assert(tokens@.contains(swap_second@[i]));
            }
        } else {
            if rows.references_hold() {
                assert forall|i: int| 0 <= i < transaction_blocks@.len() implies blocks@.contains(
                    #[trigger] transaction_blocks@[i],
                ) by {
                    assert(rows.block_ids().contains(rows.transactions[i].block_id));
                }
                assert forall|i: int|
                    0 <= i < output_transactions@.len() implies transactions@.contains(
                    #[trigger] output_transactions@[i],
                ) by {
                    assert(rows.transaction_ids().contains(rows.outputs[i].tx_id));
                }
                assert forall|i: int| 0 <= i < output_addresses@.len() implies addresses@.contains(
                    #[trigger] output_addresses@[i],
                ) by {
                    assert(rows.address_ids().contains(rows.outputs[i].address_id));
                }
                assert forall|i: int| 0 <= i < transfer_outputs@.len() implies outputs@.contains(
                    #[trigger] transfer_outputs@[i],
                ) by {
                    assert(rows.output_ids().contains(rows.transfers[i].output_id));
                }
                assert forall|i: int| 0 <= i < transfer_tokens@.len() implies tokens@.contains(
                    #[trigger] transfer_tokens@[i],
                ) by {
                    assert(rows.token_ids().contains(rows.transfers[i].token_id));
                }
                assert forall|i: int|
                    0 <= i < price_transactions@.len() implies transactions@.contains(
                    #[trigger] price_transactions@[i],
                ) by {
                    assert(rows.transaction_ids().contains(rows.price_updates[i].tx_id));
                }
                assert forall|i: int| 0 <= i < price_first@.len() implies tokens@.contains(
                    #[trigger] price_first@[i],
                ) by {
                    assert(rows.token_ids().contains(rows.price_updates[i].token1_id));
                }
                assert forall|i: int| 0 <= i < price_second@.len() implies tokens@.contains(
                    #[trigger] price_second@[i],
                ) by {
                    assert(rows.token_ids().contains(rows.price_updates[i].token2_id));
                }
                assert forall|i: int|
                    0 <= i < swap_transactions@.len() implies transactions@.contains(
                    #[trigger] swap_transactions@[i],
                ) by {
                    assert(rows.transaction_ids().contains(rows.swaps[i].tx_id));
                }
                assert forall|i: int| 0 <= i < swap_first@.len() implies tokens@.contains(
                    #[trigger] swap_first@[i],
                ) by {
                    assert(rows.token_ids().contains(rows.swaps[i].token1_id));
                }
                assert forall|i: int| 0 <= i < swap_second@.len() implies tokens@.contains(
                    #[trigger] swap_second@[i],
                ) by {
                    assert(rows.token_ids().contains(rows.swaps[i].token2_id));
                }
            }
        }
    }
    parents && in_blocks && of_transactions && at_addresses && on_outputs && of_tokens && prices
        && swaps
}

impl Store {
    /// The store that has these tables, if everything holds of them that holds of a store at
    /// all times: identifiers that ascend, hashes, addresses and tokens that stand once,
    /// references to rows that are there, blocks after their parents, and amounts that are not
    /// negative.
    pub fn restore(tables: Tables) -> (store: Option<Store>)
        ensures
            store.is_some() == store_of(tables).wf(),
            store matches Some(restored) ==> restored.wf() && restored@ == store_of(tables),
    {
        let ghost rows = rows_of(tables);
        let ghost wanted = store_of(tables);
        let block_column = block_ids(&tables.blocks);
        let transaction_column = transaction_ids(&tables.transactions);
        let address_column = address_ids(&tables.addresses);
        let token_column = token_ids(&tables.tokens);
        let output_column = output_ids(&tables.outputs);
        let transfer_column = transfer_ids(&tables.transfers);
        let price_column = price_update_ids(&tables.price_updates);
        let swap_column = swap_ids(&tables.swaps);
        proof {
            assert(block_column@ =~= rows.block_ids());
            assert(transaction_column@ =~= rows.transaction_ids());
            assert(address_column@ =~= rows.address_ids());
            assert(token_column@ =~= rows.token_ids());
            assert(output_column@ =~= rows.output_ids());
            assert(transfer_column@ =~= rows.transfer_ids());
            assert(price_column@ =~= rows.price_update_ids());
            assert(swap_column@ =~= rows.swap_ids());
            assert(wanted.block_ids() =~= rows.block_ids());
            assert(wanted.transaction_ids() =~= rows.transaction_ids());
            assert(wanted.address_ids() =~= rows.address_ids());
            assert(wanted.token_ids() =~= rows.token_ids());
            assert(wanted.output_ids() =~= rows.output_ids());
            assert(wanted.transfer_ids() =~= rows.transfer_ids());
            assert(wanted.price_update_ids() =~= rows.price_update_ids());
            assert(wanted.swap_ids() =~= rows.swap_ids());
            assert(wanted.keys_are_unique() == rows.keys_are_unique());
            assert(wanted.amounts_hold() == rows.amounts_hold());
            assert(wanted.references_hold() == rows.references_hold()) by {
                assert forall|parent: i64, slot: i64| #[trigger]
                    wanted.is_earlier_block(parent, slot) == rows.is_earlier_block(
                        parent,
                        slot,
                    ) by {}
            }
        }
        let next_block_id = match next_after(&block_column) {
            Some(next) => next,
            None => {
                return None;
            },
        };
        let next_transaction_id = match next_after(&transaction_column) {
            Some(next) => next,
            None => {
                return None;
            },
        };
        let next_address_id = match next_after(&address_column) {
            Some(next) => next,
            None => {
                return None;
            },
        };
        let next_token_id = match next_after(&token_column) {
            Some(next) => next,
            None => {
                return None;
            },
        };
        let next_output_id = match next_after(&output_column) {
            Some(next) => next,
            None => {
                return None;
            },
        };
        let next_transfer_id = match next_after(&transfer_column) {
            Some(next) => next,
            None => {
                return None;
            },
        };
        let next_price_update_id = match next_after(&price_column) {
            Some(next) => next,
            None => {
                return None;
            },
        };
        let next_swap_id = match next_after(&swap_column) {
            Some(next) => next,
            None => {
                return None;
            },
        };
        assert(wanted.ids_in_order());
        if !distinct_block_hashes(&tables.blocks) || !distinct_transaction_hashes(
            &tables.transactions,
        ) || !distinct_payloads(&tables.addresses) || !distinct_tokens(&tables.tokens) {
            return None;
        }
        assert(rows.keys_are_unique());
        if !references_hold(&tables) {
            return None;
        }
        if !price_amounts_hold(&tables.price_updates) || !swap_amounts_hold(&tables.swaps) {
            return None;
        }
        assert(rows.amounts_hold());
        let restored = Store {
            blocks: tables.blocks,
            transactions: tables.transactions,
            addresses: tables.addresses,
            tokens: tables.tokens,
            outputs: tables.outputs,
            transfers: tables.transfers,
            price_updates: tables.price_updates,
            swaps: tables.swaps,
            next_block_id,
            next_transaction_id,
            next_address_id,
            next_token_id,
            next_output_id,
            next_transfer_id,
            next_price_update_id,
            next_swap_id,
        };
        proof {
            restored.lemma_view();
        }
        Some(restored)
    }
}

} // verus!
