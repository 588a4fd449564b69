//! The store: its tables, what it is as a value, and what holds of it at all times.

use crate::entity::{
    address, block, price_update, swap, token, token_transfer, transaction, transaction_output,
};
use vstd::prelude::*;

verus! {

/// A table of the store, as an error names it.
#[derive(Debug, Clone, Copy, PartialEq, Eq, Structural)]
pub enum Entity {
    Block,
    Transaction,
    Token,
}

/// Why the store refused an operation.
#[derive(Debug, Clone, Copy, PartialEq, Eq, Structural)]
pub enum StoreError {
    /// A row that the operation refers to is not in the store.
    NotFound(Entity),
    /// What was handed in has not the shape of a row: text that is no hexadecimal, a missing
    /// epoch, a number that does not fit its column, a block that is not later than its parent.
    ShapeMismatch,
    /// The tables refused the row: a hash that is already there, or no identifier left.
    Backend,
}

/// The store: eight tables, each in the order in which its rows were inserted, and for each
/// table the identifier that its next row gets.
pub struct Store {
    pub(crate) blocks: Vec<block::Model>,
    pub(crate) transactions: Vec<transaction::Model>,
    pub(crate) addresses: Vec<address::Model>,
    pub(crate) tokens: Vec<token::Model>,
    pub(crate) outputs: Vec<transaction_output::Model>,
    pub(crate) transfers: Vec<token_transfer::Model>,
    pub(crate) price_updates: Vec<price_update::Model>,
    pub(crate) swaps: Vec<swap::Model>,
    pub(crate) next_block_id: i64,
    pub(crate) next_transaction_id: i64,
    pub(crate) next_address_id: i64,
    pub(crate) next_token_id: i64,
    pub(crate) next_output_id: i64,
    pub(crate) next_transfer_id: i64,
    pub(crate) next_price_update_id: i64,
    pub(crate) next_swap_id: i64,
}

/// What a store is.
pub struct StoreView {
    pub blocks: Seq<block::Row>,
    pub transactions: Seq<transaction::Row>,
    pub addresses: Seq<address::Row>,
    pub tokens: Seq<token::Row>,
    pub outputs: Seq<transaction_output::Row>,
    pub transfers: Seq<token_transfer::Row>,
    pub price_updates: Seq<price_update::Row>,
    pub swaps: Seq<swap::Row>,
    pub next_block_id: i64,
    pub next_transaction_id: i64,
    pub next_address_id: i64,
    pub next_token_id: i64,
    pub next_output_id: i64,
    pub next_transfer_id: i64,
    pub next_price_update_id: i64,
    pub next_swap_id: i64,
}

/// Identifiers as a table hands them out: positive, below the next one, and ascending.
pub open spec fn ids_ascend(ids: Seq<i64>, next: i64) -> bool {
    &&& 1 <= next
    &&& forall|i: int| 0 <= i < ids.len() ==> 1 <= #[trigger] ids[i] < next
    &&& forall|i: int, j: int| 0 <= i < j < ids.len() ==> #[trigger] ids[i] < #[trigger] ids[j]
}

impl StoreView {
    /// The identifiers of the blocks, in the order of the table.
    pub open spec fn block_ids(self) -> Seq<i64> {
        Seq::new(self.blocks.len(), |i: int| self.blocks[i].id)
    }

    /// The identifiers of the transactions, in the order of the table.
    pub open spec fn transaction_ids(self) -> Seq<i64> {
        Seq::new(self.transactions.len(), |i: int| self.transactions[i].id)
    }

    /// The identifiers of the addresses, in the order of the table.
    pub open spec fn address_ids(self) -> Seq<i64> {
        Seq::new(self.addresses.len(), |i: int| self.addresses[i].id)
    }

    /// The identifiers of the tokens, in the order of the table.
    pub open spec fn token_ids(self) -> Seq<i64> {
        Seq::new(self.tokens.len(), |i: int| self.tokens[i].id)
    }

    /// The identifiers of the outputs, in the order of the table.
    pub open spec fn output_ids(self) -> Seq<i64> {
        Seq::new(self.outputs.len(), |i: int| self.outputs[i].id)
    }

    /// The identifiers of the transfers, in the order of the table.
    pub open spec fn transfer_ids(self) -> Seq<i64> {
        Seq::new(self.transfers.len(), |i: int| self.transfers[i].id)
    }

    /// The identifiers of the price updates, in the order of the table.
    pub open spec fn price_update_ids(self) -> Seq<i64> {
        Seq::new(self.price_updates.len(), |i: int| self.price_updates[i].id)
    }

    /// The identifiers of the swaps, in the order of the table.
    pub open spec fn swap_ids(self) -> Seq<i64> {
        Seq::new(self.swaps.len(), |i: int| self.swaps[i].id)
    }

    /// In every table the identifiers are as the table hands them out.
    pub open spec fn ids_in_order(self) -> bool {
        &&& ids_ascend(self.block_ids(), self.next_block_id)
        &&& ids_ascend(self.transaction_ids(), self.next_transaction_id)
        &&& ids_ascend(self.address_ids(), self.next_address_id)
        &&& ids_ascend(self.token_ids(), self.next_token_id)
        &&& ids_ascend(self.output_ids(), self.next_output_id)
        &&& ids_ascend(self.transfer_ids(), self.next_transfer_id)
        &&& ids_ascend(self.price_update_ids(), self.next_price_update_id)
        &&& ids_ascend(self.swap_ids(), self.next_swap_id)
    }

    /// No two blocks and no two transactions share a hash, no two addresses a text, and no
    /// two tokens both policy and name.
    pub open spec fn keys_are_unique(self) -> bool {
        &&& forall|i: int, j: int|
            0 <= i < j < self.blocks.len() ==> (#[trigger] self.blocks[i]).hash
                != (#[trigger] self.blocks[j]).hash
        &&& forall|i: int, j: int|
            0 <= i < j < self.transactions.len() ==> (#[trigger] self.transactions[i]).hash
                != (#[trigger] self.transactions[j]).hash
        &&& forall|i: int, j: int|
            0 <= i < j < self.addresses.len() ==> (#[trigger] self.addresses[i]).payload
                != (#[trigger] self.addresses[j]).payload
        &&& forall|i: int, j: int|
            0 <= i < j < self.tokens.len() ==> !((#[trigger] self.tokens[i]).policy_id
                == (#[trigger] self.tokens[j]).policy_id && self.tokens[i].name
                == self.tokens[j].name)
    }

    /// Whether the block with this identifier is in the store and has a slot below `slot`.
    pub open spec fn is_earlier_block(self, id: i64, slot: i64) -> bool {
        exists|k: int| 0 <= k < self.blocks.len() && (#[trigger] self.blocks[k]).id == id
            && self.blocks[k].slot < slot
    }

    /// Every row that refers to a row of another table refers to one that is there, and a
    /// block's parent has a smaller slot than the block.
    pub open spec fn references_hold(self) -> bool {
        &&& forall|i: int|
            0 <= i < self.blocks.len() ==> ((#[trigger] self.blocks[i]).previous_block_id matches Some(
                parent,
            ) ==> self.is_earlier_block(parent, self.blocks[i].slot))
        &&& forall|i: int|
            0 <= i < self.transactions.len() ==> self.block_ids().contains(
                (#[trigger] self.transactions[i]).block_id,
            )
        &&& forall|i: int|
            0 <= i < self.outputs.len() ==> self.transaction_ids().contains(
                (#[trigger] self.outputs[i]).tx_id,
            ) && self.address_ids().contains(self.outputs[i].address_id)
        &&& forall|i: int|
            0 <= i < self.transfers.len() ==> self.output_ids().contains(
                (#[trigger] self.transfers[i]).output_id,
            ) && self.token_ids().contains(self.transfers[i].token_id)
        &&& forall|i: int|
            0 <= i < self.price_updates.len() ==> self.transaction_ids().contains(
                (#[trigger] self.price_updates[i]).tx_id,
            ) && self.token_ids().contains(self.price_updates[i].token1_id)
                && self.token_ids().contains(self.price_updates[i].token2_id)
        &&& forall|i: int|
            0 <= i < self.swaps.len() ==> self.transaction_ids().contains(
                (#[trigger] self.swaps[i]).tx_id,
            ) && self.token_ids().contains(self.swaps[i].token1_id) && self.token_ids().contains(
                self.swaps[i].token2_id,
            )
    }

    /// The amounts of price updates and swaps are not negative.
    pub open spec fn amounts_hold(self) -> bool {
        &&& forall|i: int|
            0 <= i < self.price_updates.len() ==> (#[trigger] self.price_updates[i]).amount1 >= 0
                && self.price_updates[i].amount2 >= 0
        &&& forall|i: int|
            0 <= i < self.swaps.len() ==> (#[trigger] self.swaps[i]).amount1 >= 0
                && self.swaps[i].amount2 >= 0
    }

    /// What holds of a store at all times.
    pub open spec fn wf(self) -> bool {
        &&& self.ids_in_order()
        &&& self.keys_are_unique()
        &&& self.references_hold()
        &&& self.amounts_hold()
    }
}

/// The store without rows, in which every table starts at the identifier 1.
pub open spec fn empty_store() -> StoreView {
    StoreView {
        blocks: Seq::empty(),
        transactions: Seq::empty(),
        addresses: Seq::empty(),
        tokens: Seq::empty(),
        outputs: Seq::empty(),
        transfers: Seq::empty(),
        price_updates: Seq::empty(),
        swaps: Seq::empty(),
        next_block_id: 1,
        next_transaction_id: 1,
        next_address_id: 1,
        next_token_id: 1,
        next_output_id: 1,
        next_transfer_id: 1,
        next_price_update_id: 1,
        next_swap_id: 1,
    }
}

impl View for Store {
    type V = StoreView;

    closed spec fn view(&self) -> StoreView {
        StoreView {
            blocks: self.blocks.deep_view(),
            transactions: self.transactions.deep_view(),
            addresses: self.addresses.deep_view(),
            tokens: self.tokens.deep_view(),
            outputs: self.outputs.deep_view(),
            transfers: self.transfers.deep_view(),
            price_updates: self.price_updates.deep_view(),
            swaps: self.swaps.deep_view(),
            next_block_id: self.next_block_id,
            next_transaction_id: self.next_transaction_id,
            next_address_id: self.next_address_id,
            next_token_id: self.next_token_id,
            next_output_id: self.next_output_id,
            next_transfer_id: self.next_transfer_id,
            next_price_update_id: self.next_price_update_id,
            next_swap_id: self.next_swap_id,
        }
    }
}

impl Store {
    /// What holds of a store at all times.
    pub open spec fn wf(&self) -> bool {
        self@.wf()
    }

    /// How the store's value follows from its tables.
    pub(crate) proof fn lemma_view(&self)
        ensures
            self@ == (StoreView {
                blocks: self.blocks.deep_view(),
                transactions: self.transactions.deep_view(),
                addresses: self.addresses.deep_view(),
                tokens: self.tokens.deep_view(),
                outputs: self.outputs.deep_view(),
                transfers: self.transfers.deep_view(),
                price_updates: self.price_updates.deep_view(),
                swaps: self.swaps.deep_view(),
                next_block_id: self.next_block_id,
                next_transaction_id: self.next_transaction_id,
                next_address_id: self.next_address_id,
                next_token_id: self.next_token_id,
                next_output_id: self.next_output_id,
                next_transfer_id: self.next_transfer_id,
                next_price_update_id: self.next_price_update_id,
                next_swap_id: self.next_swap_id,
            }),
    {
    }

    /// The store without rows.
    pub fn new() -> (store: Store)
        ensures
            store@ == empty_store(),
            store.wf(),
    {
        let store = Store {
            blocks: Vec::new(),
            transactions: Vec::new(),
            addresses: Vec::new(),
            tokens: Vec::new(),
            outputs: Vec::new(),
            transfers: Vec::new(),
            price_updates: Vec::new(),
            swaps: Vec::new(),
            next_block_id: 1,
            next_transaction_id: 1,
            next_address_id: 1,
            next_token_id: 1,
            next_output_id: 1,
            next_transfer_id: 1,
            next_price_update_id: 1,
            next_swap_id: 1,
        };
        assert(store@.blocks =~= Seq::empty());
        assert(store@.transactions =~= Seq::empty());
        assert(store@.addresses =~= Seq::empty());
        assert(store@.tokens =~= Seq::empty());
        assert(store@.outputs =~= Seq::empty());
        assert(store@.transfers =~= Seq::empty());
        assert(store@.price_updates =~= Seq::empty());
        assert(store@.swaps =~= Seq::empty());
        store
    }

    /// The blocks, in the order in which they were inserted.
    pub fn blocks(&self) -> (rows: &Vec<block::Model>)
        ensures
            rows.deep_view() == self@.blocks,
    {
        &self.blocks
    }

    /// The transactions, in the order in which they were inserted.
    pub fn transactions(&self) -> (rows: &Vec<transaction::Model>)
        ensures
            rows.deep_view() == self@.transactions,
    {
        &self.transactions
    }

    /// The addresses, in the order in which they were inserted.
    pub fn addresses(&self) -> (rows: &Vec<address::Model>)
        ensures
            rows.deep_view() == self@.addresses,
    {
        &self.addresses
    }

    /// The tokens, in the order in which they were inserted.
    pub fn tokens(&self) -> (rows: &Vec<token::Model>)
        ensures
            rows.deep_view() == self@.tokens,
    {
        &self.tokens
    }

    /// The outputs, in the order in which they were inserted.
    pub fn outputs(&self) -> (rows: &Vec<transaction_output::Model>)
        ensures
            rows.deep_view() == self@.outputs,
    {
        &self.outputs
    }

    /// The token transfers, in the order in which they were inserted.
    pub fn transfers(&self) -> (rows: &Vec<token_transfer::Model>)
        ensures
            rows.deep_view() == self@.transfers,
    {
        &self.transfers
    }

    /// The price updates, in the order in which they were inserted.
    pub fn price_updates(&self) -> (rows: &Vec<price_update::Model>)
        ensures
            rows.deep_view() == self@.price_updates,
    {
        &self.price_updates
    }

    /// The swaps, in the order in which they were inserted.
    pub fn swaps(&self) -> (rows: &Vec<swap::Model>)
        ensures
            rows.deep_view() == self@.swaps,
    {
        &self.swaps
    }
}

} // verus!
