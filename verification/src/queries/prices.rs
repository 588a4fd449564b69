//! Writing price updates and swaps.

use crate::entity::{price_update, swap};
use crate::queries::columns::transaction_ids;
use crate::queries::rows::contains_id;
use crate::queries::state::{Entity, Store, StoreError, StoreView};
use crate::queries::tokens::lemma_ids_push;
use crate::sink::common::text_eq;
use crate::types::{direction_text, SwapInfo, SwapInfoView};
use vstd::prelude::*;

verus! {

/// The store with one more price update.
pub open spec fn with_price_update_row(store: StoreView, row: price_update::Row) -> StoreView {
    StoreView {
        price_updates: store.price_updates.push(row),
        next_price_update_id: (store.next_price_update_id + 1) as i64,
        ..store
    }
}

/// The store with one more swap.
pub open spec fn with_swap_row(store: StoreView, row: swap::Row) -> StoreView {
    StoreView { swaps: store.swaps.push(row), next_swap_id: (store.next_swap_id + 1) as i64, ..store }
}

/// What holds of a store still holds with one more price update, if the row takes the next
/// identifier, names a transaction and two tokens of the store, and has no negative amount.
pub proof fn lemma_with_price_update_row(store: StoreView, row: price_update::Row)
    requires
        store.wf(),
        store.next_price_update_id < i64::MAX,
        row.id == store.next_price_update_id,
        store.transaction_ids().contains(row.tx_id),
        store.token_ids().contains(row.token1_id),
        store.token_ids().contains(row.token2_id),
        row.amount1 >= 0,
        row.amount2 >= 0,
    ensures
        with_price_update_row(store, row).wf(),
{
    let after = with_price_update_row(store, row);
    lemma_ids_push(store.price_update_ids(), store.next_price_update_id);
    assert(after.price_update_ids() =~= store.price_update_ids().push(row.id));
    assert(after.block_ids() =~= store.block_ids());
    assert(after.transaction_ids() =~= store.transaction_ids());
    assert(after.address_ids() =~= store.address_ids());
    assert(after.token_ids() =~= store.token_ids());
    assert(after.output_ids() =~= store.output_ids());
    assert(after.transfer_ids() =~= store.transfer_ids());
    assert(after.swap_ids() =~= store.swap_ids());
    assert(after.references_hold()) by {
        assert forall|i: int| 0 <= i < after.blocks.len() implies ((
        #[trigger] after.blocks[i]).previous_block_id matches Some(parent)
            ==> after.is_earlier_block(parent, after.blocks[i].slot)) by {
            if let Some(parent) = after.blocks[i].previous_block_id {
                assert(store.is_earlier_block(parent, store.blocks[i].slot));
            }
        }
        assert forall|i: int| 0 <= i < after.price_updates.len() implies after.transaction_ids().contains(
            (#[trigger] after.price_updates[i]).tx_id,
        ) && after.token_ids().contains(after.price_updates[i].token1_id)
            && after.token_ids().contains(after.price_updates[i].token2_id) by {
            if i < store.price_updates.len() {
                assert(store.transaction_ids().contains(store.price_updates[i].tx_id));
            }
        }
    }
    assert(after.amounts_hold()) by {
        assert forall|i: int| 0 <= i < after.price_updates.len() implies (
        #[trigger] after.price_updates[i]).amount1 >= 0 && after.price_updates[i].amount2 >= 0 by {
            if i < store.price_updates.len() {
                assert(store.price_updates[i].amount1 >= 0);
            }
        }
    }
}

/// What holds of a store still holds with one more swap, if the row takes the next identifier,
/// names a transaction and two tokens of the store, and has no negative amount.
pub proof fn lemma_with_swap_row(store: StoreView, row: swap::Row)
    requires
        store.wf(),
        store.next_swap_id < i64::MAX,
        row.id == store.next_swap_id,
        store.transaction_ids().contains(row.tx_id),
        store.token_ids().contains(row.token1_id),
        store.token_ids().contains(row.token2_id),
        row.amount1 >= 0,
        row.amount2 >= 0,
    ensures
        with_swap_row(store, row).wf(),
{
    let after = with_swap_row(store, row);
    lemma_ids_push(store.swap_ids(), store.next_swap_id);
    assert(after.swap_ids() =~= store.swap_ids().push(row.id));
    assert(after.block_ids() =~= store.block_ids());
    assert(after.transaction_ids() =~= store.transaction_ids());
    assert(after.address_ids() =~= store.address_ids());
    assert(after.token_ids() =~= store.token_ids());
    assert(after.output_ids() =~= store.output_ids());
    assert(after.transfer_ids() =~= store.transfer_ids());
    assert(after.price_update_ids() =~= store.price_update_ids());
    assert(after.references_hold()) by {
        assert forall|i: int| 0 <= i < after.blocks.len() implies ((
        #[trigger] after.blocks[i]).previous_block_id matches Some(parent)
            ==> after.is_earlier_block(parent, after.blocks[i].slot)) by {
            if let Some(parent) = after.blocks[i].previous_block_id {
                assert(store.is_earlier_block(parent, store.blocks[i].slot));
            }
        }
        assert forall|i: int| 0 <= i < after.swaps.len() implies after.transaction_ids().contains(
            (#[trigger] after.swaps[i]).tx_id,
        ) && after.token_ids().contains(after.swaps[i].token1_id)
            && after.token_ids().contains(after.swaps[i].token2_id) by {
            if i < store.swaps.len() {
                assert(store.transaction_ids().contains(store.swaps[i].tx_id));
            }
        }
    }
    assert(after.amounts_hold()) by {
        assert forall|i: int| 0 <= i < after.swaps.len() implies (
        #[trigger] after.swaps[i]).amount1 >= 0 && after.swaps[i].amount2 >= 0 by {
            if i < store.swaps.len() {
                assert(store.swaps[i].amount1 >= 0);
            }
        }
    }
}

/// Why the store refuses a price update or a swap with these references and amounts, if it
/// does: an amount is negative, the transaction or a token is not in the store, or, for
/// `next` at its limit, no identifier is left.
pub open spec fn refusal(
    store: StoreView,
    next: i64,
    tx_id: i64,
    token1_id: i64,
    amount1: i64,
    token2_id: i64,
    amount2: i64,
) -> Option<StoreError> {
    if amount1 < 0 || amount2 < 0 {
        Some(StoreError::ShapeMismatch)
    } else if !store.transaction_ids().contains(tx_id) {
        Some(StoreError::NotFound(Entity::Transaction))
    } else if !store.token_ids().contains(token1_id) || !store.token_ids().contains(token2_id) {
        Some(StoreError::NotFound(Entity::Token))
    } else if next == i64::MAX {
        Some(StoreError::Backend)
    } else {
        None
    }
}

/// The row that a price update becomes, or why the store refuses it.
pub open spec fn new_price_update(
    store: StoreView,
    tx_id: i64,
    script_hash: Seq<u8>,
    token1_id: i64,
    amount1: i64,
    token2_id: i64,
    amount2: i64,
) -> Result<price_update::Row, StoreError> {
    match refusal(store, store.next_price_update_id, tx_id, token1_id, amount1, token2_id, amount2) {
        Some(error) => Err(error),
        None => Ok(
            price_update::Row {
                id: store.next_price_update_id,
                tx_id,
                script_hash,
                token1_id,
                token2_id,
                amount1,
                amount2,
            },
        ),
    }
}

/// The direction that a text names: `"Buy"` is `true`, `"Sell"` is `false`.
pub open spec fn direction_of(text: Seq<char>) -> Option<bool> {
    if text == direction_text(true) {
        Some(true)
    } else if text == direction_text(false) {
        Some(false)
    } else {
        None
    }
}

/// The row that a swap becomes, or why the store refuses it. A direction that is neither
/// `"Buy"` nor `"Sell"` does not match the shape.
pub open spec fn new_swap(
    store: StoreView,
    tx_id: i64,
    script_hash: Seq<u8>,
    info: SwapInfoView,
) -> Result<
    swap::Row,
    StoreError,
> {
    match direction_of(info.direction) {
        None => Err(StoreError::ShapeMismatch),
        Some(direction) => match refusal(
            store,
            store.next_swap_id,
            tx_id,
            info.asset1,
            info.amount1,
            info.asset2,
            info.amount2,
        ) {
            Some(error) => Err(error),
            None => Ok(
                swap::Row {
                    id: store.next_swap_id,
                    tx_id,
                    script_hash,
                    token1_id: info.asset1,
                    token2_id: info.asset2,
                    amount1: info.amount1,
                    amount2: info.amount2,
                    direction,
                },
            ),
        },
    }
}

/// The store after a price update was handed to it.
pub open spec fn with_price_update(
    store: StoreView,
    tx_id: i64,
    script_hash: Seq<u8>,
    token1_id: i64,
    amount1: i64,
    token2_id: i64,
    amount2: i64,
) -> StoreView {
    match new_price_update(store, tx_id, script_hash, token1_id, amount1, token2_id, amount2) {
        Ok(row) => with_price_update_row(store, row),
        Err(_) => store,
    }
}

/// The store after a swap was handed to it.
pub open spec fn with_swap(
    store: StoreView,
    tx_id: i64,
    script_hash: Seq<u8>,
    info: SwapInfoView,
) -> StoreView {
    match new_swap(store, tx_id, script_hash, info) {
        Ok(row) => with_swap_row(store, row),
        Err(_) => store,
    }
}

/// A copy of bytes.
pub(crate) fn copy_bytes(bytes: &Vec<u8>) -> (copy: Vec<u8>)
    ensures
        copy@ == bytes@,
{
    let mut copy: Vec<u8> = Vec::new();
    let mut i: usize = 0;
    while i < bytes.len()
        invariant
            i <= bytes@.len(),
            copy@ == bytes@.take(i as int),
        decreases bytes@.len() - i,
    {
        copy.push(bytes[i]);
        assert(bytes@.take(i as int + 1) =~= bytes@.take(i as int).push(bytes@[i as int]));
        i = i + 1;
    }
    assert(bytes@.take(bytes@.len() as int) =~= bytes@);
    copy
}

impl Store {
    /// Why the store refuses a price update or a swap with these references and amounts.
    pub(crate) fn check_references(
        &self,
        next: i64,
        tx_id: i64,
        token1_id: i64,
        amount1: i64,
        token2_id: i64,
        amount2: i64,
    ) -> (error: Option<StoreError>)
        ensures
            error == refusal(self@, next, tx_id, token1_id, amount1, token2_id, amount2),
    {
        proof {
            self.lemma_view();
        }
        if amount1 < 0 || amount2 < 0 {
            return Some(StoreError::ShapeMismatch);
        }
        let ids = transaction_ids(&self.transactions);
        assert(ids@ =~= self@.transaction_ids());
        if !contains_id(&ids, tx_id) {
            return Some(StoreError::NotFound(Entity::Transaction));
        }
        let ids = self.token_id_column();
        if !contains_id(&ids, token1_id) || !contains_id(&ids, token2_id) {
            return Some(StoreError::NotFound(Entity::Token));
        }
        if next == i64::MAX {
            return Some(StoreError::Backend);
        }
        None
    }

    /// The identifiers of the tokens.
    pub(crate) fn token_id_column(&self) -> (ids: Vec<i64>)
        ensures
            ids@ == self@.token_ids(),
    {
        proof {
            self.lemma_view();
        }
        let mut ids: Vec<i64> = Vec::new();
        let mut i: usize = 0;
        while i < self.tokens.len()
            invariant
                i <= self.tokens@.len(),
                ids@ == Seq::new(i as nat, |k: int| self.tokens@[k].id),
            decreases self.tokens@.len() - i,
        {
            ids.push(self.tokens[i].id);
            assert(ids@ =~= Seq::new((i + 1) as nat, |k: int| self.tokens@[k].id));
            i = i + 1;
        }
        assert(ids@ =~= self@.token_ids());
        ids
    }
}

/// Writes the reserves of a pool after a transaction, or says why the store refuses them.
pub fn insert_price_update(
    tx_id: i64,
    script_hash: &Vec<u8>,
    token1_id: i64,
    amount1: i64,
    token2_id: i64,
    amount2: i64,
    db: &mut Store,
) -> (inserted: Result<(), StoreError>)
    requires
        old(db).wf(),
    ensures
        final(db).wf(),
        final(db)@ == with_price_update(
            old(db)@,
            tx_id,
            script_hash@,
            token1_id,
            amount1,
            token2_id,
            amount2,
        ),
        inserted.is_ok() == new_price_update(
            old(db)@,
            tx_id,
            script_hash@,
            token1_id,
            amount1,
            token2_id,
            amount2,
        ).is_ok(),
        inserted matches Err(error) ==> new_price_update(
            old(db)@,
            tx_id,
            script_hash@,
            token1_id,
            amount1,
            token2_id,
            amount2,
        ) == Err::<price_update::Row, StoreError>(error),
{
    proof {
        db.lemma_view();
    }
    match db.check_references(db.next_price_update_id, tx_id, token1_id, amount1, token2_id, amount2) {
        Some(error) => {
            return Err(error);
        },
        None => {},
    }
    let id = db.next_price_update_id;
    let ghost row = price_update::Row {
        id,
        tx_id,
        script_hash: script_hash@,
        token1_id,
        token2_id,
        amount1,
        amount2,
    };
    let ghost rows = db.price_updates.deep_view();
    proof {
        lemma_with_price_update_row(db@, row);
    }
    db.price_updates.push(
        price_update::Model {
            id,
            tx_id,
            script_hash: copy_bytes(script_hash),
            token1_id,
            token2_id,
            amount1,
            amount2,
        },
    );
    db.next_price_update_id = id + 1;
    proof {
        db.lemma_view();
        assert(db.price_updates.deep_view() =~= rows.push(row));
    }
    Ok(())
}

/// The direction that a text names.
pub fn parse_direction(text: &str) -> (direction: Option<bool>)
    ensures
        direction == direction_of(text@),
{
    proof {
        reveal_strlit("Buy");
        reveal_strlit("Sell");
        assert("Buy"@ =~= direction_text(true));
        assert("Sell"@ =~= direction_text(false));
    }
    if text_eq(text, "Buy") {
        Some(true)
    } else if text_eq(text, "Sell") {
        Some(false)
    } else {
        None
    }
}

/// Writes a swap that a transaction executed against a pool, or says why the store refuses
/// it.
pub fn insert_swap(
    tx_id: i64,
    script_hash: &Vec<u8>,
    swap_info: &SwapInfo,
    db: &mut Store,
) -> (inserted:
    Result<(), StoreError>)
    requires
        old(db).wf(),
    ensures
        final(db).wf(),
        final(db)@ == with_swap(old(db)@, tx_id, script_hash@, swap_info@),
        inserted.is_ok() == new_swap(old(db)@, tx_id, script_hash@, swap_info@).is_ok(),
        inserted matches Err(error) ==> new_swap(old(db)@, tx_id, script_hash@, swap_info@) == Err::<
            swap::Row,
            StoreError,
        >(error),
{
    proof {
        db.lemma_view();
    }
    let direction = match parse_direction(swap_info.direction.as_str()) {
        Some(direction) => direction,
        None => {
            return Err(StoreError::ShapeMismatch);
        },
    };
    match db.check_references(
        db.next_swap_id,
        tx_id,
        swap_info.asset1,
        swap_info.amount1,
        swap_info.asset2,
        swap_info.amount2,
    ) {
        Some(error) => {
            return Err(error);
        },
        None => {},
    }
    let id = db.next_swap_id;
    let ghost row = swap::Row {
        id,
        tx_id,
        script_hash: script_hash@,
        token1_id: swap_info.asset1,
        token2_id: swap_info.asset2,
        amount1: swap_info.amount1,
        amount2: swap_info.amount2,
        direction,
    };
    let ghost rows = db.swaps.deep_view();
    proof {
        lemma_with_swap_row(db@, row);
    }
    db.swaps.push(
        swap::Model {
            id,
            tx_id,
            script_hash: copy_bytes(script_hash),
            token1_id: swap_info.asset1,
            token2_id: swap_info.asset2,
            amount1: swap_info.amount1,
            amount2: swap_info.amount2,
            direction,
        },
    );
    db.next_swap_id = id + 1;
    proof {
        db.lemma_view();
        assert(db.swaps.deep_view() =~= rows.push(row));
    }
    Ok(())
}

} // verus!
