//! Writing and removing blocks.

use crate::entity::{block, price_update, swap, token_transfer, transaction, transaction_output};
use crate::hex_codec::{decode, hex_decoded, is_hex_text};
use crate::model::BlockRecord;
use crate::queries::rollback::{
    at_or_before, ids_of_blocks, ids_of_outputs, ids_of_transactions, in_blocks,
    lemma_rolled_back_wf, output_of, price_of, rolled_back, swap_of, transfer_on,
};
use crate::queries::columns::{
    block_ids, marks_of, output_ids, output_transactions, price_transactions, swap_transactions,
    transaction_blocks, transaction_ids, transfer_outputs,
};
use crate::queries::rows::{lemma_marked_is_filter, retain_marked};
use crate::queries::state::{Store, StoreError, StoreView};
use crate::search::{
    first_where, is_first_where, lemma_first_where_found, lemma_first_where_is_first,
    lemma_first_where_missing,
};
use crate::sink::common::bytes_eq;
use vstd::prelude::*;

verus! {

/// For each block, whether it lies at or before `slot`.
fn marks_of_blocks(rows: &Vec<block::Model>, slot: u64) -> (keep: Vec<bool>)
    ensures
        keep@ == Seq::new(rows@.len(), |i: int| rows@[i].slot <= slot),
{
    let mut keep: Vec<bool> = Vec::new();
    let mut i: usize = 0;
    while i < rows.len()
        invariant
            i <= rows@.len(),
            keep@ == Seq::new(i as nat, |k: int| rows@[k].slot <= slot),
        decreases rows@.len() - i,
    {
        let row_slot: i64 = rows[i].slot;
        keep.push(row_slot < 0 || row_slot as u64 <= slot);
        assert(keep@ =~= Seq::new((i + 1) as nat, |k: int| rows@[k].slot <= slot));
        i = i + 1;
    }
    keep
}

/// Removes every block after `slot`, and with it every row that hangs on it.
pub fn rollback_to_slot(slot: u64, db: &mut Store)
    requires
        old(db).wf(),
    ensures
        final(db)@ == rolled_back(old(db)@, slot),
        final(db).wf(),
{
    proof {
        db.lemma_view();
        lemma_rolled_back_wf(db@, slot);
    }
    let ghost before = db@;
    let ghost after = rolled_back(before, slot);

    let keep = marks_of_blocks(&db.blocks, slot);
    proof {
        lemma_marked_is_filter::<block::Model>(db.blocks@, keep@, at_or_before(slot));
        assert(db.blocks.deep_view() =~= Seq::new(
            db.blocks@.len(),
            |i: int| db.blocks@[i].deep_view(),
        ));
    }
    retain_marked(&mut db.blocks, &keep);
    assert(db.blocks.deep_view() =~= after.blocks);
    let ids = block_ids(&db.blocks);
    assert(ids@ =~= ids_of_blocks(after.blocks));

    let references = transaction_blocks(&db.transactions);
    let keep = marks_of(&references, &ids);
    proof {
        lemma_marked_is_filter::<transaction::Model>(db.transactions@, keep@, in_blocks(ids@));
        assert(db.transactions.deep_view() =~= Seq::new(
            db.transactions@.len(),
            |i: int| db.transactions@[i].deep_view(),
        ));
    }
    retain_marked(&mut db.transactions, &keep);
    assert(db.transactions.deep_view() =~= after.transactions);
    let ids = transaction_ids(&db.transactions);
    assert(ids@ =~= ids_of_transactions(after.transactions));

    let references = output_transactions(&db.outputs);
    let keep = marks_of(&references, &ids);
    proof {
        lemma_marked_is_filter::<transaction_output::Model>(db.outputs@, keep@, output_of(ids@));
        assert(db.outputs.deep_view() =~= Seq::new(
            db.outputs@.len(),
            |i: int| db.outputs@[i].deep_view(),
        ));
    }
    retain_marked(&mut db.outputs, &keep);
    assert(db.outputs.deep_view() =~= after.outputs);

    let references = price_transactions(&db.price_updates);
    let keep = marks_of(&references, &ids);
    proof {
        lemma_marked_is_filter::<price_update::Model>(db.price_updates@, keep@, price_of(ids@));
        assert(db.price_updates.deep_view() =~= Seq::new(
            db.price_updates@.len(),
            |i: int| db.price_updates@[i].deep_view(),
        ));
    }
    retain_marked(&mut db.price_updates, &keep);
    assert(db.price_updates.deep_view() =~= after.price_updates);

    let references = swap_transactions(&db.swaps);
    let keep = marks_of(&references, &ids);
    proof {
        lemma_marked_is_filter::<swap::Model>(db.swaps@, keep@, swap_of(ids@));
        assert(db.swaps.deep_view() =~= Seq::new(
            db.swaps@.len(),
            |i: int| db.swaps@[i].deep_view(),
        ));
    }
    retain_marked(&mut db.swaps, &keep);
    assert(db.swaps.deep_view() =~= after.swaps);

    let ids = output_ids(&db.outputs);
    assert(ids@ =~= ids_of_outputs(after.outputs));
    let references = transfer_outputs(&db.transfers);
    let keep = marks_of(&references, &ids);
    proof {
        lemma_marked_is_filter::<token_transfer::Model>(db.transfers@, keep@, transfer_on(ids@));
        assert(db.transfers.deep_view() =~= Seq::new(
            db.transfers@.len(),
            |i: int| db.transfers@[i].deep_view(),
        ));
    }
    retain_marked(&mut db.transfers, &keep);
    assert(db.transfers.deep_view() =~= after.transfers);
    proof {
        db.lemma_view();
    }
}

/// Whether a block has this hash.
pub open spec fn has_block_hash(hash: Seq<u8>) -> spec_fn(block::Row) -> bool {
    |row: block::Row| row.hash == hash
}

/// The row that a block becomes, or why the store refuses the block. The block's hashes must
/// be hexadecimal text, its epoch known, and its numbers must fit their columns; a block whose
/// parent is in the store must lie after the parent; else the shape does not match. The
/// block's hash must be new to the store. The parent is the block with the previous hash, if
/// the store has one.
pub open spec fn new_block(store: StoreView, block: BlockRecord) -> Result<block::Row, StoreError> {
    if !is_hex_text(block.previous_hash@) || !is_hex_text(block.hash@) {
        Err(StoreError::ShapeMismatch)
    } else if block.epoch is None || block.number > i64::MAX || block.epoch->0 > i64::MAX
        || block.slot > i64::MAX {
        Err(StoreError::ShapeMismatch)
    } else {
        let parent = first_where(store.blocks, has_block_hash(hex_decoded(block.previous_hash@)));
        if parent matches Some(at) && store.blocks[at].slot >= block.slot {
            Err(StoreError::ShapeMismatch)
        } else if first_where(store.blocks, has_block_hash(hex_decoded(block.hash@))) is Some
            || store.next_block_id == i64::MAX {
            Err(StoreError::Backend)
        } else {
            Ok(
                block::Row {
                    id: store.next_block_id,
                    hash: hex_decoded(block.hash@),
                    height: block.number as i64,
                    epoch: block.epoch->0 as i64,
                    slot: block.slot as i64,
                    previous_block_id: match parent {
                        Some(at) => Some(store.blocks[at].id),
                        None => None,
                    },
                },
            )
        }
    }
}

/// The store after a block was handed to it: with the block's row at the end of the blocks,
/// or unchanged where the store refuses the block.
pub open spec fn with_block(store: StoreView, block: BlockRecord) -> StoreView {
    match new_block(store, block) {
        Ok(row) => StoreView {
            blocks: store.blocks.push(row),
            next_block_id: (store.next_block_id + 1) as i64,
            ..store
        },
        Err(_) => store,
    }
}

/// What holds of a store still holds with one more block.
pub proof fn lemma_with_block_wf(store: StoreView, block: BlockRecord)
    requires
        store.wf(),
    ensures
        with_block(store, block).wf(),
{
    let after = with_block(store, block);
    if let Ok(row) = new_block(store, block) {
        assert(after.block_ids() =~= store.block_ids().push(row.id));
        assert(after.transaction_ids() =~= store.transaction_ids());
        assert(after.address_ids() =~= store.address_ids());
        assert(after.token_ids() =~= store.token_ids());
        assert(after.output_ids() =~= store.output_ids());
        assert(after.transfer_ids() =~= store.transfer_ids());
        assert(after.price_update_ids() =~= store.price_update_ids());
        assert(after.swap_ids() =~= store.swap_ids());
        assert(after.ids_in_order()) by {
            assert forall|i: int, j: int| 0 <= i < j < after.block_ids().len() implies
                #[trigger] after.block_ids()[i] < #[trigger] after.block_ids()[j] by {
                assert(1 <= store.block_ids()[i] < store.next_block_id);
                if j < store.block_ids().len() {
                    assert(store.block_ids()[i] < store.block_ids()[j]);
                }
            }
            assert forall|i: int| 0 <= i < after.block_ids().len() implies 1
                <= #[trigger] after.block_ids()[i] < after.next_block_id by {
                if i < store.block_ids().len() {
                    assert(1 <= store.block_ids()[i] < store.next_block_id);
                }
            }
        }
        assert(after.keys_are_unique()) by {
            lemma_first_where_is_first(store.blocks, has_block_hash(hex_decoded(block.hash@)));
            assert forall|i: int, j: int| 0 <= i < j < after.blocks.len() implies (
            #[trigger] after.blocks[i]).hash != (#[trigger] after.blocks[j]).hash by {
                if j < store.blocks.len() {
                    assert(store.blocks[i].hash != store.blocks[j].hash);
                } else {
                    assert(!has_block_hash(hex_decoded(block.hash@))(store.blocks[i]));
                }
            }
        }
        assert(after.references_hold()) by {
            assert forall|i: int| 0 <= i < after.blocks.len() implies ((
            #[trigger] after.blocks[i]).previous_block_id matches Some(parent)
                ==> after.is_earlier_block(parent, after.blocks[i].slot)) by {
                if let Some(parent) = after.blocks[i].previous_block_id {
                    if i < store.blocks.len() {
                        assert(store.is_earlier_block(parent, store.blocks[i].slot));
                        let p = choose|p: int|
                            0 <= p < store.blocks.len() && (#[trigger] store.blocks[p]).id
                                == parent && store.blocks[p].slot < store.blocks[i].slot;
                        assert(after.blocks[p].id == parent);
                    } else {
                        lemma_first_where_is_first(
                            store.blocks,
                            has_block_hash(hex_decoded(block.previous_hash@)),
                        );
                        let at = first_where(
                            store.blocks,
                            has_block_hash(hex_decoded(block.previous_hash@)),
                        )->0;
                        assert(after.blocks[at].id == parent);
                    }
                }
            }
            assert forall|i: int|
                0 <= i < after.transactions.len() implies after.block_ids().contains(
                (#[trigger] after.transactions[i]).block_id,
            ) by {
                assert(store.block_ids().contains(store.transactions[i].block_id));
                let k = choose|k: int|
                    0 <= k < store.block_ids().len() && store.block_ids()[k]
                        == store.transactions[i].block_id;
                assert(after.block_ids()[k] == store.transactions[i].block_id);
            }
        }
    }
}

/// The position of the first block with this hash.
fn find_block(rows: &Vec<block::Model>, hash: &Vec<u8>) -> (found: Option<usize>)
    ensures
        found.is_some() == first_where(rows.deep_view(), has_block_hash(hash@)).is_some(),
        found matches Some(at) ==> Some(at as int) == first_where(
            rows.deep_view(),
            has_block_hash(hash@),
        ) && at < rows@.len(),
{
    let ghost wanted = has_block_hash(hash@);
    let mut i: usize = 0;
    while i < rows.len()
        invariant
            i <= rows@.len(),
            wanted == has_block_hash(hash@),
            forall|j: int| 0 <= j < i ==> !wanted(#[trigger] rows.deep_view()[j]),
        decreases rows@.len() - i,
    {
        if bytes_eq(&rows[i].hash, hash) {
            proof {
                assert(wanted(rows.deep_view()[i as int]));
                assert(is_first_where(rows.deep_view(), wanted, i as int));
                lemma_first_where_found(rows.deep_view(), wanted, i as int);
            }
            return Some(i);
        }
        i = i + 1;
    }
    proof {
        lemma_first_where_missing(rows.deep_view(), wanted);
    }
    None
}

/// Writes a block and gives its identifier, or says why the store refuses the block.
pub fn insert_block(block: &BlockRecord, db: &mut Store) -> (inserted: Result<i64, StoreError>)
    requires
        old(db).wf(),
    ensures
        final(db).wf(),
        final(db)@ == with_block(old(db)@, *block),
        match inserted {
            Ok(id) => new_block(old(db)@, *block) matches Ok(row) && row.id == id,
            Err(error) => new_block(old(db)@, *block) == Err::<block::Row, StoreError>(error),
        },
{
    proof {
        db.lemma_view();
        lemma_with_block_wf(db@, *block);
    }
    let previous_hash = match decode(block.previous_hash.as_str()) {
        Some(bytes) => bytes,
        None => {
            return Err(StoreError::ShapeMismatch);
        },
    };
    let hash = match decode(block.hash.as_str()) {
        Some(bytes) => bytes,
        None => {
            return Err(StoreError::ShapeMismatch);
        },
    };
    let epoch = match block.epoch {
        Some(epoch) => epoch,
        None => {
            return Err(StoreError::ShapeMismatch);
        },
    };
    if block.number > 0x7fff_ffff_ffff_ffff || epoch > 0x7fff_ffff_ffff_ffff || block.slot
        > 0x7fff_ffff_ffff_ffff {
        return Err(StoreError::ShapeMismatch);
    }
    let slot = block.slot as i64;
    let parent = find_block(&db.blocks, &previous_hash);
    let previous_block_id = match parent {
        Some(at) => {
            if db.blocks[at].slot >= slot {
                return Err(StoreError::ShapeMismatch);
            }
            Some(db.blocks[at].id)
        },
        None => None,
    };
    if find_block(&db.blocks, &hash).is_some() || db.next_block_id == i64::MAX {
        return Err(StoreError::Backend);
    }
    let id = db.next_block_id;
    let ghost rows = db.blocks.deep_view();
    let row = block::Model {
        id,
        hash,
        height: block.number as i64,
        epoch: epoch as i64,
        slot,
        previous_block_id,
    };
    db.blocks.push(row);
    db.next_block_id = id + 1;
    proof {
        db.lemma_view();
        assert(db.blocks.deep_view() =~= rows.push(new_block(old(db)@, *block)->Ok_0));
    }
    Ok(id)
}

} // verus!
