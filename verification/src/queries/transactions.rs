//! Writing a transaction: its row, the addresses and tokens that its outputs name, one row
//! for each output, and one transfer for the ADA and for each asset on it.

use crate::entity::{token_transfer, transaction, transaction_output};
use crate::hex_codec::{decode, hex_decoded, is_hex_text};
use crate::model::{
    text_of, OutputAssetRecord, OutputAssetView, TransactionRecord, TxOutputRecord, TxOutputView,
};
use crate::queries::columns::block_ids;
use crate::queries::rows::contains_id;
use crate::queries::state::{Entity, Store, StoreError, StoreView};
use crate::queries::tokens::{
    address_id, lemma_ids_push, lemma_with_address, lemma_with_token, token_id, with_address,
    with_token,
};
use crate::search::{
    first_where, is_first_where, lemma_first_where_found, lemma_first_where_is_first,
    lemma_first_where_missing,
};
use crate::sink::common::bytes_eq;
use vstd::prelude::*;

verus! {

/// Whether a transaction has this hash.
pub open spec fn has_tx_hash(hash: Seq<u8>) -> spec_fn(transaction::Row) -> bool {
    |row: transaction::Row| row.hash == hash
}

/// The store with one more transaction row.
pub open spec fn with_transaction_row(store: StoreView, row: transaction::Row) -> StoreView {
    StoreView {
        transactions: store.transactions.push(row),
        next_transaction_id: (store.next_transaction_id + 1) as i64,
        ..store
    }
}

/// The store with one more output row.
pub open spec fn with_output_row(store: StoreView, row: transaction_output::Row) -> StoreView {
    StoreView {
        outputs: store.outputs.push(row),
        next_output_id: (store.next_output_id + 1) as i64,
        ..store
    }
}

/// The store with one more transfer row.
pub open spec fn with_transfer_row(store: StoreView, row: token_transfer::Row) -> StoreView {
    StoreView {
        transfers: store.transfers.push(row),
        next_transfer_id: (store.next_transfer_id + 1) as i64,
        ..store
    }
}

/// What holds of a store still holds with one more transaction, if the row takes the next
/// identifier, lies in a block of the store and has a hash that is new.
pub proof fn lemma_with_transaction_row(store: StoreView, row: transaction::Row)
    requires
        store.wf(),
        store.next_transaction_id < i64::MAX,
        row.id == store.next_transaction_id,
        store.block_ids().contains(row.block_id),
        first_where(store.transactions, has_tx_hash(row.hash)) is None,
    ensures
        with_transaction_row(store, row).wf(),
        with_transaction_row(store, row).transaction_ids().contains(row.id),
{
    let after = with_transaction_row(store, row);
    lemma_ids_push(store.transaction_ids(), store.next_transaction_id);
    assert(after.transaction_ids() =~= store.transaction_ids().push(row.id));
    assert(after.block_ids() =~= store.block_ids());
    assert(after.address_ids() =~= store.address_ids());
    assert(after.token_ids() =~= store.token_ids());
    assert(after.output_ids() =~= store.output_ids());
    assert(after.transfer_ids() =~= store.transfer_ids());
    assert(after.price_update_ids() =~= store.price_update_ids());
    assert(after.swap_ids() =~= store.swap_ids());
    lemma_first_where_is_first(store.transactions, has_tx_hash(row.hash));
    assert(after.keys_are_unique()) by {
        assert forall|i: int, j: int| 0 <= i < j < after.transactions.len() implies (
        #[trigger] after.transactions[i]).hash != (#[trigger] after.transactions[j]).hash by {
            if j < store.transactions.len() {
                assert(store.transactions[i].hash != store.transactions[j].hash);
            } else {
                assert(!has_tx_hash(row.hash)(store.transactions[i]));
            }
        }
    }
    assert(after.references_hold()) by {
        assert forall|i: int| 0 <= i < after.blocks.len() implies ((
        #[trigger] after.blocks[i]).previous_block_id matches Some(parent)
            ==> after.is_earlier_block(parent, after.blocks[i].slot)) by {
            if let Some(parent) = after.blocks[i].previous_block_id {
                assert(store.is_earlier_block(parent, store.blocks[i].slot));
            }
        }
        assert forall|i: int|
            0 <= i < after.transactions.len() implies after.block_ids().contains(
            (#[trigger] after.transactions[i]).block_id,
        ) by {
            if i < store.transactions.len() {
                assert(store.block_ids().contains(store.transactions[i].block_id));
            }
        }
        assert forall|i: int| 0 <= i < after.outputs.len() implies after.transaction_ids().contains(
            (#[trigger] after.outputs[i]).tx_id,
        ) && after.address_ids().contains(after.outputs[i].address_id) by {
            assert(store.transaction_ids().contains(store.outputs[i].tx_id));
        }
        assert forall|i: int|
            0 <= i < after.price_updates.len() implies after.transaction_ids().contains(
            (#[trigger] after.price_updates[i]).tx_id,
        ) && after.token_ids().contains(after.price_updates[i].token1_id)
            && after.token_ids().contains(after.price_updates[i].token2_id) by {
            assert(store.transaction_ids().contains(store.price_updates[i].tx_id));
        }
        assert forall|i: int| 0 <= i < after.swaps.len() implies after.transaction_ids().contains(
            (#[trigger] after.swaps[i]).tx_id,
        ) && after.token_ids().contains(after.swaps[i].token1_id) && after.token_ids().contains(
            after.swaps[i].token2_id,
        ) by {
            assert(store.transaction_ids().contains(store.swaps[i].tx_id));
        }
    }
}

/// What holds of a store still holds with one more output, if the row takes the next
/// identifier and names a transaction and an address of the store.
pub proof fn lemma_with_output_row(store: StoreView, row: transaction_output::Row)
    requires
        store.wf(),
        store.next_output_id < i64::MAX,
        row.id == store.next_output_id,
        store.transaction_ids().contains(row.tx_id),
        store.address_ids().contains(row.address_id),
    ensures
        with_output_row(store, row).wf(),
        with_output_row(store, row).output_ids().contains(row.id),
{
    let after = with_output_row(store, row);
    lemma_ids_push(store.output_ids(), store.next_output_id);
    assert(after.output_ids() =~= store.output_ids().push(row.id));
    assert(after.block_ids() =~= store.block_ids());
    assert(after.transaction_ids() =~= store.transaction_ids());
    assert(after.address_ids() =~= store.address_ids());
    assert(after.token_ids() =~= store.token_ids());
    assert(after.transfer_ids() =~= store.transfer_ids());
    assert(after.price_update_ids() =~= store.price_update_ids());
    assert(after.swap_ids() =~= store.swap_ids());
    assert(after.references_hold()) by {
        assert forall|i: int| 0 <= i < after.blocks.len() implies ((
        #[trigger] after.blocks[i]).previous_block_id matches Some(parent)
            ==> after.is_earlier_block(parent, after.blocks[i].slot)) by {
            if let Some(parent) = after.blocks[i].previous_block_id {
                assert(store.is_earlier_block(parent, store.blocks[i].slot));
            }
        }
        assert forall|i: int| 0 <= i < after.outputs.len() implies after.transaction_ids().contains(
            (#[trigger] after.outputs[i]).tx_id,
        ) && after.address_ids().contains(after.outputs[i].address_id) by {
            if i < store.outputs.len() {
                assert(store.transaction_ids().contains(store.outputs[i].tx_id));
            }
        }
        assert forall|i: int| 0 <= i < after.transfers.len() implies after.output_ids().contains(
            (#[trigger] after.transfers[i]).output_id,
        ) && after.token_ids().contains(after.transfers[i].token_id) by {
            assert(store.output_ids().contains(store.transfers[i].output_id));
        }
    }
}

/// What holds of a store still holds with one more transfer, if the row takes the next
/// identifier and names an output and a token of the store.
pub proof fn lemma_with_transfer_row(store: StoreView, row: token_transfer::Row)
    requires
        store.wf(),
        store.next_transfer_id < i64::MAX,
        row.id == store.next_transfer_id,
        store.output_ids().contains(row.output_id),
        store.token_ids().contains(row.token_id),
    ensures
        with_transfer_row(store, row).wf(),
{
    let after = with_transfer_row(store, row);
    lemma_ids_push(store.transfer_ids(), store.next_transfer_id);
    assert(after.transfer_ids() =~= store.transfer_ids().push(row.id));
    assert(after.block_ids() =~= store.block_ids());
    assert(after.transaction_ids() =~= store.transaction_ids());
    assert(after.address_ids() =~= store.address_ids());
    assert(after.token_ids() =~= store.token_ids());
    assert(after.output_ids() =~= store.output_ids());
    assert(after.price_update_ids() =~= store.price_update_ids());
    assert(after.swap_ids() =~= store.swap_ids());
    assert(after.references_hold()) by {
        assert forall|i: int| 0 <= i < after.blocks.len() implies ((
        #[trigger] after.blocks[i]).previous_block_id matches Some(parent)
            ==> after.is_earlier_block(parent, after.blocks[i].slot)) by {
            if let Some(parent) = after.blocks[i].previous_block_id {
                assert(store.is_earlier_block(parent, store.blocks[i].slot));
            }
        }
        assert forall|i: int| 0 <= i < after.transfers.len() implies after.output_ids().contains(
            (#[trigger] after.transfers[i]).output_id,
        ) && after.token_ids().contains(after.transfers[i].token_id) by {
            if i < store.transfers.len() {
                assert(store.output_ids().contains(store.transfers[i].output_id));
            }
        }
    }
}

impl Store {
    pub(crate) fn push_transaction(&mut self, hash: Vec<u8>, block_id: i64) -> (id: i64)
        requires
            old(self).wf(),
            old(self)@.next_transaction_id < i64::MAX,
            old(self)@.block_ids().contains(block_id),
            first_where(old(self)@.transactions, has_tx_hash(hash@)) is None,
        ensures
            final(self).wf(),
            id == old(self)@.next_transaction_id,
            final(self)@ == with_transaction_row(
                old(self)@,
                transaction::Row { id, hash: hash@, block_id },
            ),
            final(self)@.transaction_ids().contains(id),
    {
        let id = self.next_transaction_id;
        let ghost row = transaction::Row { id, hash: hash@, block_id };
        let ghost rows = self.transactions.deep_view();
        proof {
            self.lemma_view();
            lemma_with_transaction_row(self@, row);
        }
        self.transactions.push(transaction::Model { id, hash, block_id });
        self.next_transaction_id = id + 1;
        proof {
            self.lemma_view();
            assert(self.transactions.deep_view() =~= rows.push(row));
        }
        id
    }

    pub(crate) fn push_output(
        &mut self,
        tx_id: i64,
        index: u32,
        address_id: i64,
        datum_hash: Option<String>,
    ) -> (id: i64)
        requires
            old(self).wf(),
            old(self)@.next_output_id < i64::MAX,
            old(self)@.transaction_ids().contains(tx_id),
            old(self)@.address_ids().contains(address_id),
        ensures
            final(self).wf(),
            id == old(self)@.next_output_id,
            final(self)@ == with_output_row(
                old(self)@,
                transaction_output::Row {
                    id,
                    tx_id,
                    index,
                    address_id,
                    datum_hash: text_of(datum_hash),
                },
            ),
            final(self)@.output_ids().contains(id),
    {
        let id = self.next_output_id;
        let ghost row = transaction_output::Row {
            id,
            tx_id,
            index,
            address_id,
            datum_hash: text_of(datum_hash),
        };
        let ghost rows = self.outputs.deep_view();
        proof {
            self.lemma_view();
            lemma_with_output_row(self@, row);
        }
        self.outputs.push(transaction_output::Model { id, tx_id, index, address_id, datum_hash });
        self.next_output_id = id + 1;
        proof {
            self.lemma_view();
            assert(self.outputs.deep_view() =~= rows.push(row));
        }
        id
    }

    pub(crate) fn push_transfer(&mut self, output_id: i64, token_id: i64, amount: u64)
        requires
            old(self).wf(),
            old(self)@.next_transfer_id < i64::MAX,
            old(self)@.output_ids().contains(output_id),
            old(self)@.token_ids().contains(token_id),
        ensures
            final(self).wf(),
            final(self)@ == with_transfer_row(
                old(self)@,
                token_transfer::Row {
                    id: old(self)@.next_transfer_id,
                    output_id,
                    token_id,
                    amount,
                },
            ),
    {
        let id = self.next_transfer_id;
        let ghost row = token_transfer::Row { id, output_id, token_id, amount };
        let ghost rows = self.transfers.deep_view();
        proof {
            self.lemma_view();
            lemma_with_transfer_row(self@, row);
        }
        self.transfers.push(token_transfer::Model { id, output_id, token_id, amount });
        self.next_transfer_id = id + 1;
        proof {
            self.lemma_view();
            assert(self.transfers.deep_view() =~= rows.push(row));
        }
    }
}

/// Whether policy and name of every asset are hexadecimal text.
pub open spec fn assets_are_hex(assets: Seq<OutputAssetView>) -> bool {
    forall|i: int|
        0 <= i < assets.len() ==> is_hex_text((#[trigger] assets[i]).policy) && is_hex_text(
            assets[i].asset,
        )
}

/// Whether policy and name of every asset on every output are hexadecimal text.
pub open spec fn outputs_are_hex(outputs: Seq<TxOutputRecord>) -> bool {
    forall|i: int| 0 <= i < outputs.len() ==> assets_are_hex((#[trigger] outputs[i])@.assets)
}

/// The number of assets on the first `count` outputs.
pub open spec fn asset_count(outputs: Seq<TxOutputRecord>, count: int) -> int
    decreases count,
{
    if count <= 0 {
        0
    } else {
        asset_count(outputs, count - 1) + outputs[count - 1].assets@.len()
    }
}

/// Whether the store has identifiers left for so many addresses, tokens, outputs and
/// transfers.
pub open spec fn has_room(
    store: StoreView,
    addresses: int,
    tokens: int,
    outputs: int,
    transfers: int,
) -> bool {
    &&& store.next_address_id + addresses < i64::MAX
    &&& store.next_token_id + tokens < i64::MAX
    &&& store.next_output_id + outputs < i64::MAX
    &&& store.next_transfer_id + transfers < i64::MAX
}

/// The row that a transaction becomes in a block, or why the store refuses it. The hash of
/// the transaction and policy and name of every asset must be hexadecimal text, and the
/// position of every output must fit its column; else the shape does not match. The block
/// must be in the store. The hash must be new to the store, and the store must have
/// identifiers left for the transaction, for an address and an output for each output, and
/// for a token and a transfer for each output and each asset.
pub open spec fn new_transaction(
    store: StoreView,
    transaction: TransactionRecord,
    block_id: i64,
) -> Result<
    transaction::Row,
    StoreError,
> {
    let outputs = transaction.outputs@;
    let assets = asset_count(outputs, outputs.len() as int);
    if !is_hex_text(transaction.hash@) || !outputs_are_hex(outputs) || outputs.len() > u32::MAX {
        Err(StoreError::ShapeMismatch)
    } else if !store.block_ids().contains(block_id) {
        Err(StoreError::NotFound(Entity::Block))
    } else if first_where(store.transactions, has_tx_hash(hex_decoded(transaction.hash@))) is Some
        || store.next_transaction_id == i64::MAX || !has_room(
        store,
        outputs.len() as int,
        outputs.len() + assets,
        outputs.len() as int,
        outputs.len() + assets,
    ) {
        Err(StoreError::Backend)
    } else {
        Ok(
            transaction::Row {
                id: store.next_transaction_id,
                hash: hex_decoded(transaction.hash@),
                block_id,
            },
        )
    }
}

/// The store with the transfer of one asset on an output: the asset's token is written if
/// the store does not know it, then the transfer.
pub open spec fn with_asset_transfer(
    store: StoreView,
    output_id: i64,
    asset: OutputAssetView,
) -> StoreView {
    let policy_id = hex_decoded(asset.policy);
    let name = hex_decoded(asset.asset);
    let known = with_token(store, policy_id, name);
    with_transfer_row(
        known,
        token_transfer::Row {
            id: known.next_transfer_id,
            output_id,
            token_id: token_id(known, policy_id, name)->0,
            amount: asset.amount,
        },
    )
}

/// The store with the transfers of the first `count` assets on an output.
pub open spec fn with_asset_transfers(
    store: StoreView,
    output_id: i64,
    assets: Seq<OutputAssetView>,
    count: int,
) -> StoreView
    decreases count,
{
    if count <= 0 {
        store
    } else {
        with_asset_transfer(
            with_asset_transfers(store, output_id, assets, count - 1),
            output_id,
            assets[count - 1],
        )
    }
}

/// The store with one output of a transaction: the address and the ADA token are written if
/// the store does not know them, then the output's row, the transfer of its ADA, and the
/// transfer of each asset on it.
pub open spec fn with_output(
    store: StoreView,
    tx_id: i64,
    index: u32,
    output: TxOutputView,
) -> StoreView {
    let known = with_token(with_address(store, output.address), Seq::empty(), Seq::empty());
    let output_id = known.next_output_id;
    let listed = with_output_row(
        known,
        transaction_output::Row {
            id: output_id,
            tx_id,
            index,
            address_id: address_id(known, output.address)->0,
            datum_hash: output.datum_hash,
        },
    );
    let paid = with_transfer_row(
        listed,
        token_transfer::Row {
            id: listed.next_transfer_id,
            output_id,
            token_id: token_id(listed, Seq::empty(), Seq::empty())->0,
            amount: output.amount,
        },
    );
    with_asset_transfers(paid, output_id, output.assets, output.assets.len() as int)
}

/// The store with the first `count` outputs of a transaction.
pub open spec fn with_outputs(
    store: StoreView,
    tx_id: i64,
    outputs: Seq<TxOutputRecord>,
    count: int,
) -> StoreView
    decreases count,
{
    if count <= 0 {
        store
    } else {
        with_output(
            with_outputs(store, tx_id, outputs, count - 1),
            tx_id,
            (count - 1) as u32,
            outputs[count - 1]@,
        )
    }
}

/// The store after a transaction was handed to it: with the transaction's row and all its
/// outputs, or unchanged where the store refuses the transaction.
pub open spec fn with_transaction(
    store: StoreView,
    transaction: TransactionRecord,
    block_id: i64,
) -> StoreView {
    match new_transaction(store, transaction, block_id) {
        Ok(row) => with_outputs(
            with_transaction_row(store, row),
            row.id,
            transaction.outputs@,
            transaction.outputs@.len() as int,
        ),
        Err(_) => store,
    }
}

/// The position of the first transaction with this hash.
pub(crate) fn find_transaction(rows: &Vec<transaction::Model>, hash: &Vec<u8>) -> (found: Option<
    usize,
>)
    ensures
        found.is_some() == first_where(rows.deep_view(), has_tx_hash(hash@)).is_some(),
        found matches Some(at) ==> Some(at as int) == first_where(
            rows.deep_view(),
            has_tx_hash(hash@),
        ) && at < rows@.len(),
{
    let ghost wanted = has_tx_hash(hash@);
    let mut i: usize = 0;
    while i < rows.len()
        invariant
            i <= rows@.len(),
            wanted == has_tx_hash(hash@),
            forall|j: int| 0 <= j < i ==> !wanted(#[trigger] rows.deep_view()[j]),
        decreases rows@.len() - i,
    {
        if bytes_eq(&rows[i].hash, hash) {
            proof {
                assert(wanted(rows.deep_view()[i as int]));
                assert(is_first_where(rows.deep_view(), wanted, i as int));
                lemma_first_where_found(rows.deep_view(), wanted, i as int);
            }
            return Some(i);
        }
        i = i + 1;
    }
    proof {
        lemma_first_where_missing(rows.deep_view(), wanted);
    }
    None
}

/// Whether policy and name of every asset are hexadecimal text.
fn check_assets(assets: &Vec<OutputAssetRecord>) -> (valid: bool)
    ensures
        valid == assets_are_hex(assets.deep_view()),
{
    let mut i: usize = 0;
    while i < assets.len()
        invariant
            i <= assets@.len(),
            forall|k: int|
                0 <= k < i ==> is_hex_text((#[trigger] assets.deep_view()[k]).policy)
                    && is_hex_text(assets.deep_view()[k].asset),
        decreases assets@.len() - i,
    {
        if decode(assets[i].policy.as_str()).is_none() || decode(assets[i].asset.as_str()).is_none() {
            assert(!(is_hex_text(assets.deep_view()[i as int].policy) && is_hex_text(
                assets.deep_view()[i as int].asset,
            )));
            return false;
        }
        i = i + 1;
    }
    true
}

/// Whether policy and name of every asset on every output are hexadecimal text.
fn check_outputs(outputs: &Vec<TxOutputRecord>) -> (valid: bool)
    ensures
        valid == outputs_are_hex(outputs@),
{
    let mut i: usize = 0;
    while i < outputs.len()
        invariant
            i <= outputs@.len(),
            forall|k: int| 0 <= k < i ==> assets_are_hex((#[trigger] outputs@[k])@.assets),
        decreases outputs@.len() - i,
    {
        if !check_assets(&outputs[i].assets) {
            assert(!assets_are_hex(outputs@[i as int]@.assets));
            return false;
        }
        i = i + 1;
    }
    true
}

/// The number of assets on all outputs, if it fits in 63 bits.
fn count_assets(outputs: &Vec<TxOutputRecord>) -> (total: Option<u64>)
    ensures
        total matches Some(n) ==> n == asset_count(outputs@, outputs@.len() as int) && n
            < 0x8000_0000_0000_0000,
        total is None ==> asset_count(outputs@, outputs@.len() as int) >= 0x8000_0000_0000_0000,
{
    let mut total: u64 = 0;
    let mut i: usize = 0;
    while i < outputs.len()
        invariant
            i <= outputs@.len(),
            total == asset_count(outputs@, i as int),
            total < 0x8000_0000_0000_0000,
        decreases outputs@.len() - i,
    {
        let here = outputs[i].assets.len() as u64;
        if here >= 0x8000_0000_0000_0000 || total + here >= 0x8000_0000_0000_0000 {
            proof {
                lemma_asset_count_grows(outputs@, i as int + 1, outputs@.len() as int);
            }
            return None;
        }
        total = total + here;
        i = i + 1;
    }
    Some(total)
}

/// The number of assets on more outputs is not smaller.
pub proof fn lemma_asset_count_grows(outputs: Seq<TxOutputRecord>, count: int, more: int)
    requires
        0 <= count <= more,
    ensures
        asset_count(outputs, count) <= asset_count(outputs, more),
    decreases more - count,
{
    if count < more {
        lemma_asset_count_grows(outputs, count, more - 1);
    }
}

/// The bytes that hexadecimal text stands for.
fn decode_known(text: &str) -> (bytes: Vec<u8>)
    requires
        is_hex_text(text@),
    ensures
        bytes@ == hex_decoded(text@),
{
    match decode(text) {
        Some(bytes) => bytes,
        None => Vec::new(),
    }
}

/// A copy of an optional text.
fn copy_text(text: &Option<String>) -> (copy: Option<String>)
    ensures
        text_of(copy) == text_of(*text),
{
    match text {
        Some(text) => Some(text.clone()),
        None => None,
    }
}

impl Store {
    /// Writes one output of a transaction.
    pub(crate) fn write_output(&mut self, tx_id: i64, index: u32, output: &TxOutputRecord)
        requires
            old(self).wf(),
            old(self)@.transaction_ids().contains(tx_id),
            assets_are_hex(output@.assets),
            has_room(
                old(self)@,
                1,
                1 + output.assets@.len() as int,
                1,
                1 + output.assets@.len() as int,
            ),
        ensures
            final(self).wf(),
            final(self)@ == with_output(old(self)@, tx_id, index, output@),
            final(self)@.transaction_ids().contains(tx_id),
            final(self)@.next_address_id <= old(self)@.next_address_id + 1,
            final(self)@.next_token_id <= old(self)@.next_token_id + 1 + output.assets@.len(),
            final(self)@.next_output_id <= old(self)@.next_output_id + 1,
            final(self)@.next_transfer_id <= old(self)@.next_transfer_id + 1
                + output.assets@.len(),
    {
        proof {
            lemma_with_address(self@, output.address@);
        }
        let address_id = self.upsert_address(output.address.as_str());
        proof {
            lemma_with_token(self@, Seq::empty(), Seq::empty());
        }
        let ada: i64 = self.upsert_token(Vec::new(), Vec::new());
        let output_id = self.push_output(tx_id, index, address_id, copy_text(&output.datum_hash));
        self.push_transfer(output_id, ada, output.amount);
        let ghost paid = self@;
        let mut k: usize = 0;
        while k < output.assets.len()
            invariant
                k <= output.assets@.len(),
                self.wf(),
                assets_are_hex(output@.assets),
                self@ == with_asset_transfers(paid, output_id, output@.assets, k as int),
                self@.transaction_ids().contains(tx_id),
                self@.output_ids().contains(output_id),
                self@.next_address_id == paid.next_address_id,
                self@.next_output_id == paid.next_output_id,
                self@.next_token_id <= paid.next_token_id + k,
                self@.next_transfer_id <= paid.next_transfer_id + k,
                paid.next_token_id + output.assets@.len() < i64::MAX,
                paid.next_transfer_id + output.assets@.len() < i64::MAX,
            decreases output.assets@.len() - k,
        {
            let asset = &output.assets[k];
            assert(output@.assets[k as int] == asset@);
            let policy_id = decode_known(asset.policy.as_str());
            let name = decode_known(asset.asset.as_str());
            proof {
                lemma_with_token(self@, policy_id@, name@);
            }
            let token = self.upsert_token(policy_id, name);
            self.push_transfer(output_id, token, asset.amount);
            k = k + 1;
        }
    }
}

/// Writes a transaction into a block, with its outputs and what they hold, and gives the
/// transaction's identifier; or says why the store refuses it, and leaves the store as it was.
pub fn insert_transaction(
    transaction: &TransactionRecord,
    block_id: i64,
    db: &mut Store,
) -> (inserted:
    Result<i64, StoreError>)
    requires
        old(db).wf(),
    ensures
        final(db).wf(),
        final(db)@ == with_transaction(old(db)@, *transaction, block_id),
        match inserted {
            Ok(id) => new_transaction(old(db)@, *transaction, block_id) matches Ok(row) && row.id
                == id,
            Err(error) => new_transaction(old(db)@, *transaction, block_id) == Err::<
                transaction::Row,
                StoreError,
            >(error),
        },
        inserted matches Ok(id) ==> final(db)@.transaction_ids().contains(id),
{
    proof {
        db.lemma_view();
    }
    let hash = match decode(transaction.hash.as_str()) {
        Some(bytes) => bytes,
        None => {
            return Err(StoreError::ShapeMismatch);
        },
    };
    if !check_outputs(&transaction.outputs) || transaction.outputs.len() > 0xffff_ffff {
        return Err(StoreError::ShapeMismatch);
    }
    let ids = block_ids(&db.blocks);
    assert(ids@ =~= db@.block_ids());
    if !contains_id(&ids, block_id) {
        return Err(StoreError::NotFound(Entity::Block));
    }
    if find_transaction(&db.transactions, &hash).is_some() || db.next_transaction_id == i64::MAX {
        return Err(StoreError::Backend);
    }
    let count = transaction.outputs.len() as u64;
    let assets = match count_assets(&transaction.outputs) {
        Some(assets) => assets,
        None => {
            return Err(StoreError::Backend);
        },
    };
    let limit: u64 = 0x7fff_ffff_ffff_ffff;
    let rows = count + assets;
    if rows >= limit || db.next_address_id as u64 + count >= limit || db.next_token_id as u64
        + rows >= limit || db.next_output_id as u64 + count >= limit || db.next_transfer_id as u64
        + rows >= limit {
        return Err(StoreError::Backend);
    }
    let ghost row = transaction::Row { id: db@.next_transaction_id, hash: hash@, block_id };
    assert(new_transaction(old(db)@, *transaction, block_id) == Ok::<transaction::Row, StoreError>(
        row,
    ));
    let tx_id = db.push_transaction(hash, block_id);
    let ghost listed = db@;
    let mut k: usize = 0;
    while k < transaction.outputs.len()
        invariant
            k <= transaction.outputs@.len(),
            transaction.outputs@.len() <= u32::MAX,
            db.wf(),
            outputs_are_hex(transaction.outputs@),
            db@ == with_outputs(listed, tx_id, transaction.outputs@, k as int),
            db@.transaction_ids().contains(tx_id),
            db@.next_address_id <= listed.next_address_id + k,
            db@.next_token_id <= listed.next_token_id + k + asset_count(
                transaction.outputs@,
                k as int,
            ),
            db@.next_output_id <= listed.next_output_id + k,
            db@.next_transfer_id <= listed.next_transfer_id + k + asset_count(
                transaction.outputs@,
                k as int,
            ),
            has_room(
                listed,
                transaction.outputs@.len() as int,
                transaction.outputs@.len() + asset_count(
                    transaction.outputs@,
                    transaction.outputs@.len() as int,
                ),
                transaction.outputs@.len() as int,
                transaction.outputs@.len() + asset_count(
                    transaction.outputs@,
                    transaction.outputs@.len() as int,
                ),
            ),
        decreases transaction.outputs@.len() - k,
    {
        proof {
            lemma_asset_count_grows(
                transaction.outputs@,
                k as int + 1,
                transaction.outputs@.len() as int,
            );
            assert(assets_are_hex(transaction.outputs@[k as int]@.assets));
            assert(asset_count(transaction.outputs@, k as int + 1) == asset_count(
                transaction.outputs@,
                k as int,
            ) + transaction.outputs@[k as int].assets@.len());
        }
        db.write_output(tx_id, k as u32, &transaction.outputs[k]);
        k = k + 1;
    }
    Ok(tx_id)
}

} // verus!
