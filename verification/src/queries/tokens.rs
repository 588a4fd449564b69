//! Addresses and tokens: each is written when it is first seen and found again afterwards.

use crate::entity::{address, token};
use crate::hex_codec::{decode, hex_decoded, is_hex_text};
use crate::queries::prices::copy_bytes;
use crate::queries::state::{ids_ascend, Store, StoreError, StoreView};
use crate::search::{
    first_where, is_first_where, lemma_first_where_found, lemma_first_where_is_first,
    lemma_first_where_missing,
};
use crate::sink::common::{bytes_eq, text_eq};
use crate::types::{Asset, AssetView};
use vstd::prelude::*;

verus! {

/// Identifiers with one more at the end: they still ascend, and what was among them still is.
pub proof fn lemma_ids_push(ids: Seq<i64>, next: i64)
    requires
        ids_ascend(ids, next),
        next < i64::MAX,
    ensures
        ids_ascend(ids.push(next), (next + 1) as i64),
        forall|id: i64| ids.contains(id) ==> #[trigger] ids.push(next).contains(id),
        ids.push(next).contains(next),
{
    assert forall|id: i64| ids.contains(id) implies #[trigger] ids.push(next).contains(id) by {
        let k = choose|k: int| 0 <= k < ids.len() && ids[k] == id;
        assert(ids.push(next)[k] == id);
    }
    assert(ids.push(next)[ids.len() as int] == next);
}

/// Whether an address has this text.
pub open spec fn has_payload(payload: Seq<char>) -> spec_fn(address::Row) -> bool {
    |row: address::Row| row.payload == payload
}

/// Whether a token has this policy and this name.
pub open spec fn has_token(policy_id: Seq<u8>, name: Seq<u8>) -> spec_fn(token::Row) -> bool {
    |row: token::Row| row.policy_id == policy_id && row.name == name
}

/// The identifier of the address with this text.
pub open spec fn address_id(store: StoreView, payload: Seq<char>) -> Option<i64> {
    match first_where(store.addresses, has_payload(payload)) {
        Some(at) => Some(store.addresses[at].id),
        None => None,
    }
}

/// The identifier of the token with this policy and this name.
pub open spec fn token_id(store: StoreView, policy_id: Seq<u8>, name: Seq<u8>) -> Option<i64> {
    match first_where(store.tokens, has_token(policy_id, name)) {
        Some(at) => Some(store.tokens[at].id),
        None => None,
    }
}

/// The store once it knows the address: unchanged where it knew it, else with one more row.
pub open spec fn with_address(store: StoreView, payload: Seq<char>) -> StoreView {
    if address_id(store, payload) is Some {
        store
    } else {
        StoreView {
            addresses: store.addresses.push(address::Row { id: store.next_address_id, payload }),
            next_address_id: (store.next_address_id + 1) as i64,
            ..store
        }
    }
}

/// The store once it knows the token: unchanged where it knew it, else with one more row.
pub open spec fn with_token(store: StoreView, policy_id: Seq<u8>, name: Seq<u8>) -> StoreView {
    if token_id(store, policy_id, name) is Some {
        store
    } else {
        StoreView {
            tokens: store.tokens.push(token::Row { id: store.next_token_id, policy_id, name }),
            next_token_id: (store.next_token_id + 1) as i64,
            ..store
        }
    }
}

/// What holds of a store still holds once it knows one more address, and the address is
/// then found under an identifier of the table.
pub proof fn lemma_with_address(store: StoreView, payload: Seq<char>)
    requires
        store.wf(),
        store.next_address_id < i64::MAX,
    ensures
        with_address(store, payload).wf(),
        address_id(with_address(store, payload), payload) is Some,
        with_address(store, payload).address_ids().contains(
            address_id(with_address(store, payload), payload)->0,
        ),
        address_id(store, payload) is Some ==> address_id(with_address(store, payload), payload)
            == address_id(store, payload),
        address_id(store, payload) is None ==> address_id(with_address(store, payload), payload)
            == Some(store.next_address_id),
        with_address(store, payload).next_address_id <= store.next_address_id + 1,
{
    let after = with_address(store, payload);
    let wanted = has_payload(payload);
    lemma_first_where_is_first(store.addresses, wanted);
    if address_id(store, payload) is Some {
        let at = first_where(store.addresses, wanted)->0;
        assert(store.address_ids()[at] == store.addresses[at].id);
    } else {
        lemma_ids_push(store.address_ids(), store.next_address_id);
        assert(after.address_ids() =~= store.address_ids().push(store.next_address_id));
        assert(after.block_ids() =~= store.block_ids());
        assert(after.transaction_ids() =~= store.transaction_ids());
        assert(after.token_ids() =~= store.token_ids());
        assert(after.output_ids() =~= store.output_ids());
        assert(after.transfer_ids() =~= store.transfer_ids());
        assert(after.price_update_ids() =~= store.price_update_ids());
        assert(after.swap_ids() =~= store.swap_ids());
        let last = store.addresses.len() as int;
        assert(wanted(after.addresses[last]));
        assert forall|j: int| 0 <= j < last implies !wanted(#[trigger] after.addresses[j]) by {
            assert(!wanted(store.addresses[j]));
        }
        assert(is_first_where(after.addresses, wanted, last));
        lemma_first_where_found(after.addresses, wanted, last);
        assert(after.keys_are_unique()) by {
            assert forall|i: int, j: int| 0 <= i < j < after.addresses.len() implies (
            #[trigger] after.addresses[i]).payload != (#[trigger] after.addresses[j]).payload by {
                if j < last {
                    assert(store.addresses[i].payload != store.addresses[j].payload);
                } else {
                    assert(!wanted(store.addresses[i]));
                }
            }
        }
        assert(after.references_hold()) by {
            assert forall|i: int| 0 <= i < after.blocks.len() implies ((
            #[trigger] after.blocks[i]).previous_block_id matches Some(parent)
                ==> after.is_earlier_block(parent, after.blocks[i].slot)) by {
                if let Some(parent) = after.blocks[i].previous_block_id {
                    assert(store.is_earlier_block(parent, store.blocks[i].slot));
                }
            }
            assert forall|i: int|
                0 <= i < after.outputs.len() implies after.transaction_ids().contains(
                (#[trigger] after.outputs[i]).tx_id,
            ) && after.address_ids().contains(after.outputs[i].address_id) by {
                assert(store.address_ids().contains(store.outputs[i].address_id));
            }
        }
    }
}

/// What holds of a store still holds once it knows one more token, and the token is then
/// found under an identifier of the table.
pub proof fn lemma_with_token(store: StoreView, policy_id: Seq<u8>, name: Seq<u8>)
    requires
        store.wf(),
        store.next_token_id < i64::MAX,
    ensures
        with_token(store, policy_id, name).wf(),
        token_id(with_token(store, policy_id, name), policy_id, name) is Some,
        with_token(store, policy_id, name).token_ids().contains(
            token_id(with_token(store, policy_id, name), policy_id, name)->0,
        ),
        token_id(store, policy_id, name) is Some ==> token_id(
            with_token(store, policy_id, name),
            policy_id,
            name,
        ) == token_id(store, policy_id, name),
        token_id(store, policy_id, name) is None ==> token_id(
            with_token(store, policy_id, name),
            policy_id,
            name,
        ) == Some(store.next_token_id),
        with_token(store, policy_id, name).next_token_id <= store.next_token_id + 1,
        forall|id: i64|
            store.token_ids().contains(id) ==> #[trigger] with_token(
                store,
                policy_id,
                name,
            ).token_ids().contains(id),
{
    let after = with_token(store, policy_id, name);
    let wanted = has_token(policy_id, name);
    lemma_first_where_is_first(store.tokens, wanted);
    if token_id(store, policy_id, name) is Some {
        let at = first_where(store.tokens, wanted)->0;
        assert(store.token_ids()[at] == store.tokens[at].id);
    } else {
        lemma_ids_push(store.token_ids(), store.next_token_id);
        assert(after.token_ids() =~= store.token_ids().push(store.next_token_id));
        assert(after.block_ids() =~= store.block_ids());
        assert(after.transaction_ids() =~= store.transaction_ids());
        assert(after.address_ids() =~= store.address_ids());
        assert(after.output_ids() =~= store.output_ids());
        assert(after.transfer_ids() =~= store.transfer_ids());
        assert(after.price_update_ids() =~= store.price_update_ids());
        assert(after.swap_ids() =~= store.swap_ids());
        let last = store.tokens.len() as int;
        assert(wanted(after.tokens[last]));
        assert forall|j: int| 0 <= j < last implies !wanted(#[trigger] after.tokens[j]) by {
            assert(!wanted(store.tokens[j]));
        }
        assert(is_first_where(after.tokens, wanted, last));
        lemma_first_where_found(after.tokens, wanted, last);
        assert(after.keys_are_unique()) by {
            assert forall|i: int, j: int| 0 <= i < j < after.tokens.len() implies !((
            #[trigger] after.tokens[i]).policy_id == (#[trigger] after.tokens[j]).policy_id
                && after.tokens[i].name == after.tokens[j].name) by {
                if j < last {
                    assert(!(store.tokens[i].policy_id == store.tokens[j].policy_id
                        && store.tokens[i].name == store.tokens[j].name));
                } else {
                    assert(!wanted(store.tokens[i]));
                }
            }
        }
        assert(after.references_hold()) by {
            assert forall|i: int| 0 <= i < after.blocks.len() implies ((
            #[trigger] after.blocks[i]).previous_block_id matches Some(parent)
                ==> after.is_earlier_block(parent, after.blocks[i].slot)) by {
                if let Some(parent) = after.blocks[i].previous_block_id {
                    assert(store.is_earlier_block(parent, store.blocks[i].slot));
                }
            }
            assert forall|i: int|
                0 <= i < after.transfers.len() implies after.output_ids().contains(
                (#[trigger] after.transfers[i]).output_id,
            ) && after.token_ids().contains(after.transfers[i].token_id) by {
                assert(store.token_ids().contains(store.transfers[i].token_id));
            }
            assert forall|i: int|
                0 <= i < after.price_updates.len() implies after.transaction_ids().contains(
                (#[trigger] after.price_updates[i]).tx_id,
            ) && after.token_ids().contains(after.price_updates[i].token1_id)
                && after.token_ids().contains(after.price_updates[i].token2_id) by {
                assert(store.token_ids().contains(store.price_updates[i].token1_id));
                assert(store.token_ids().contains(store.price_updates[i].token2_id));
            }
            assert forall|i: int|
                0 <= i < after.swaps.len() implies after.transaction_ids().contains(
                (#[trigger] after.swaps[i]).tx_id,
            ) && after.token_ids().contains(after.swaps[i].token1_id)
                && after.token_ids().contains(after.swaps[i].token2_id) by {
                assert(store.token_ids().contains(store.swaps[i].token1_id));
                assert(store.token_ids().contains(store.swaps[i].token2_id));
            }
        }
    }
}

/// The position of the first address with this text.
fn find_address(rows: &Vec<address::Model>, payload: &str) -> (found: Option<usize>)
    ensures
        found.is_some() == first_where(rows.deep_view(), has_payload(payload@)).is_some(),
        found matches Some(at) ==> Some(at as int) == first_where(
            rows.deep_view(),
            has_payload(payload@),
        ) && at < rows@.len(),
{
    let ghost wanted = has_payload(payload@);
    let mut i: usize = 0;
    while i < rows.len()
        invariant
            i <= rows@.len(),
            wanted == has_payload(payload@),
            forall|j: int| 0 <= j < i ==> !wanted(#[trigger] rows.deep_view()[j]),
        decreases rows@.len() - i,
    {
        if text_eq(rows[i].payload.as_str(), payload) {
            proof {
                assert(wanted(rows.deep_view()[i as int]));
                assert(is_first_where(rows.deep_view(), wanted, i as int));
                lemma_first_where_found(rows.deep_view(), wanted, i as int);
            }
            return Some(i);
        }
        i = i + 1;
    }
    proof {
        lemma_first_where_missing(rows.deep_view(), wanted);
    }
    None
}

/// The position of the first token with this policy and this name.
fn find_token(rows: &Vec<token::Model>, policy_id: &Vec<u8>, name: &Vec<u8>) -> (found: Option<
    usize,
>)
    ensures
        found.is_some() == first_where(rows.deep_view(), has_token(policy_id@, name@)).is_some(),
        found matches Some(at) ==> Some(at as int) == first_where(
            rows.deep_view(),
            has_token(policy_id@, name@),
        ) && at < rows@.len(),
{
    let ghost wanted = has_token(policy_id@, name@);
    let mut i: usize = 0;
    while i < rows.len()
        invariant
            i <= rows@.len(),
            wanted == has_token(policy_id@, name@),
            forall|j: int| 0 <= j < i ==> !wanted(#[trigger] rows.deep_view()[j]),
        decreases rows@.len() - i,
    {
        if bytes_eq(&rows[i].policy_id, policy_id) && bytes_eq(&rows[i].name, name) {
            proof {
                assert(wanted(rows.deep_view()[i as int]));
                assert(is_first_where(rows.deep_view(), wanted, i as int));
                lemma_first_where_found(rows.deep_view(), wanted, i as int);
            }
            return Some(i);
        }
        i = i + 1;
    }
    proof {
        lemma_first_where_missing(rows.deep_view(), wanted);
    }
    None
}

impl Store {
    /// The identifier of the address with this text, which is written if the store does not
    /// know it.
    pub(crate) fn upsert_address(&mut self, payload: &str) -> (id: i64)
        requires
            old(self).wf(),
            old(self)@.next_address_id < i64::MAX,
        ensures
            final(self).wf(),
            final(self)@ == with_address(old(self)@, payload@),
            Some(id) == address_id(final(self)@, payload@),
    {
        proof {
            self.lemma_view();
            lemma_with_address(self@, payload@);
        }
        match find_address(&self.addresses, payload) {
            Some(at) => self.addresses[at].id,
            None => {
                let id = self.next_address_id;
                let ghost rows = self.addresses.deep_view();
                self.addresses.push(address::Model { id, payload: payload.to_owned() });
                self.next_address_id = id + 1;
                proof {
                    self.lemma_view();
                    assert(self.addresses.deep_view() =~= rows.push(
                        address::Row { id, payload: payload@ },
                    ));
                }
                id
            },
        }
    }

    /// The identifier of the token with this policy and this name, which is written if the
    /// store does not know it.
    pub(crate) fn upsert_token(&mut self, policy_id: Vec<u8>, name: Vec<u8>) -> (id: i64)
        requires
            old(self).wf(),
            old(self)@.next_token_id < i64::MAX,
        ensures
            final(self).wf(),
            final(self)@ == with_token(old(self)@, policy_id@, name@),
            Some(id) == token_id(final(self)@, policy_id@, name@),
    {
        proof {
            self.lemma_view();
            lemma_with_token(self@, policy_id@, name@);
        }
        match find_token(&self.tokens, &policy_id, &name) {
            Some(at) => self.tokens[at].id,
            None => {
                let id = self.next_token_id;
                let ghost rows = self.tokens.deep_view();
                let ghost row = token::Row { id, policy_id: policy_id@, name: name@ };
                self.tokens.push(token::Model { id, policy_id, name });
                self.next_token_id = id + 1;
                proof {
                    self.lemma_view();
                    assert(self.tokens.deep_view() =~= rows.push(row));
                }
                id
            },
        }
    }
}

/// The token that an asset names, or why the store cannot hold it.
pub open spec fn token_of_asset(store: StoreView, asset: AssetView) -> Result<i64, StoreError> {
    if !is_hex_text(asset.policy_id) || !is_hex_text(asset.name) {
        Err(StoreError::ShapeMismatch)
    } else if store.next_token_id == i64::MAX {
        Err(StoreError::Backend)
    } else {
        Ok(
            token_id(
                with_token(store, hex_decoded(asset.policy_id), hex_decoded(asset.name)),
                hex_decoded(asset.policy_id),
                hex_decoded(asset.name),
            )->0,
        )
    }
}

/// The store after it was asked for the token of an asset.
pub open spec fn with_asset(store: StoreView, asset: AssetView) -> StoreView {
    match token_of_asset(store, asset) {
        Ok(_) => with_token(store, hex_decoded(asset.policy_id), hex_decoded(asset.name)),
        Err(_) => store,
    }
}

/// The identifier of the token that an asset names by policy and name, both in hexadecimal.
/// A token that the store does not know is written first.
pub fn get_token_id(asset: &Asset, db: &mut Store) -> (id: Result<i64, StoreError>)
    requires
        old(db).wf(),
    ensures
        final(db).wf(),
        final(db)@ == with_asset(old(db)@, asset@),
        id == token_of_asset(old(db)@, asset@),
        id matches Ok(token) ==> final(db)@.token_ids().contains(token),
{
    proof {
        db.lemma_view();
    }
    let policy_id = match decode(asset.policy_id.as_str()) {
        Some(bytes) => bytes,
        None => {
            return Err(StoreError::ShapeMismatch);
        },
    };
    let name = match decode(asset.name.as_str()) {
        Some(bytes) => bytes,
        None => {
            return Err(StoreError::ShapeMismatch);
        },
    };
    if db.next_token_id == i64::MAX {
        return Err(StoreError::Backend);
    }
    proof {
        lemma_with_token(db@, policy_id@, name@);
    }
    Ok(db.upsert_token(policy_id, name))
}

/// The identifier of an address that the store knows stays the same when the store gets to
/// know another address.
pub proof fn lemma_address_id_stays(store: StoreView, payload: Seq<char>, other: Seq<char>)
    requires
        address_id(store, payload) is Some,
    ensures
        address_id(with_address(store, other), payload) == address_id(store, payload),
{
    let wanted = has_payload(payload);
    lemma_first_where_is_first(store.addresses, wanted);
    let at = first_where(store.addresses, wanted)->0;
    let after = with_address(store, other);
    assert(is_first_where(after.addresses, wanted, at)) by {
        assert(after.addresses[at] == store.addresses[at]);
        assert forall|j: int| 0 <= j < at implies !wanted(#[trigger] after.addresses[j]) by {
            assert(!wanted(store.addresses[j]));
        }
    }
    lemma_first_where_found(after.addresses, wanted, at);
}

/// The identifier of a token that the store knows stays the same when the store gets to know
/// another token.
pub proof fn lemma_token_id_stays(
    store: StoreView,
    policy_id: Seq<u8>,
    name: Seq<u8>,
    other_policy_id: Seq<u8>,
    other_name: Seq<u8>,
)
    requires
        token_id(store, policy_id, name) is Some,
    ensures
        token_id(with_token(store, other_policy_id, other_name), policy_id, name) == token_id(
            store,
            policy_id,
            name,
        ),
{
    let wanted = has_token(policy_id, name);
    lemma_first_where_is_first(store.tokens, wanted);
    let at = first_where(store.tokens, wanted)->0;
    let after = with_token(store, other_policy_id, other_name);
    assert(is_first_where(after.tokens, wanted, at)) by {
        assert(after.tokens[at] == store.tokens[at]);
        assert forall|j: int| 0 <= j < at implies !wanted(#[trigger] after.tokens[j]) by {
            assert(!wanted(store.tokens[j]));
        }
    }
    lemma_first_where_found(after.tokens, wanted, at);
}

/// The store once it knows the first `count` of some addresses.
pub open spec fn with_addresses(store: StoreView, payloads: Seq<String>, count: int) -> StoreView
    decreases count,
{
    if count <= 0 {
        store
    } else {
        with_address(with_addresses(store, payloads, count - 1), payloads[count - 1]@)
    }
}

/// A token by its policy and its name, both as bytes.
pub struct TokenKey {
    pub policy_id: Vec<u8>,
    pub name: Vec<u8>,
}

/// The store once it knows the first `count` of some tokens.
pub open spec fn with_tokens(store: StoreView, keys: Seq<TokenKey>, count: int) -> StoreView
    decreases count,
{
    if count <= 0 {
        store
    } else {
        with_token(
            with_tokens(store, keys, count - 1),
            keys[count - 1].policy_id@,
            keys[count - 1].name@,
        )
    }
}

/// The identifiers of addresses, one for each text and in their order. An address that the
/// store does not know is written first; one that it knows, or that was named before, is not
/// written again. Where the store might run out of identifiers, nothing is written.
pub fn upsert_addresses(addresses: &Vec<String>, db: &mut Store) -> (ids: Result<
    Vec<i64>,
    StoreError,
>)
    requires
        old(db).wf(),
    ensures
        final(db).wf(),
        ids is Err <==> old(db)@.next_address_id + addresses@.len() >= i64::MAX,
        ids matches Err(error) ==> error == StoreError::Backend && final(db)@ == old(db)@,
        ids matches Ok(found) ==> final(db)@ == with_addresses(
            old(db)@,
            addresses@,
            addresses@.len() as int,
        ) && found@.len() == addresses@.len() && forall|i: int|
            0 <= i < found@.len() ==> Some(#[trigger] found@[i]) == address_id(
                final(db)@,
                addresses@[i]@,
            ),
{
    proof {
        db.lemma_view();
    }
    let limit: u64 = 0x7fff_ffff_ffff_ffff;
    let count = addresses.len() as u64;
    if count >= limit || db.next_address_id as u64 + count >= limit {
        return Err(StoreError::Backend);
    }
    let ghost before = db@;
    let mut found: Vec<i64> = Vec::new();
    let mut k: usize = 0;
    while k < addresses.len()
        invariant
            k <= addresses@.len(),
            db.wf(),
            db@ == with_addresses(before, addresses@, k as int),
            db@.next_address_id <= before.next_address_id + k,
            before.next_address_id + addresses@.len() < i64::MAX,
            found@.len() == k,
            forall|i: int|
                0 <= i < k ==> Some(#[trigger] found@[i]) == address_id(db@, addresses@[i]@),
        decreases addresses@.len() - k,
    {
        let ghost known = db@;
        let ghost so_far = found@;
        proof {
            lemma_with_address(known, addresses@[k as int]@);
            assert forall|i: int| 0 <= i < k implies Some(so_far[i]) == address_id(
                with_address(known, addresses@[k as int]@),
                addresses@[i]@,
            ) by {
                assert(Some(found@[i]) == address_id(known, addresses@[i]@));
                lemma_address_id_stays(known, addresses@[i]@, addresses@[k as int]@);
            }
        }
        let id = db.upsert_address(addresses[k].as_str());
        found.push(id);
        k = k + 1;
    }
    Ok(found)
}

/// The identifiers of tokens, one for each policy and name and in their order. A token that
/// the store does not know is written first; one that it knows, or that was named before, is
/// not written again. Where the store might run out of identifiers, nothing is written.
pub fn upsert_tokens(keys: &Vec<TokenKey>, db: &mut Store) -> (ids: Result<Vec<i64>, StoreError>)
    requires
        old(db).wf(),
    ensures
        final(db).wf(),
        ids is Err <==> old(db)@.next_token_id + keys@.len() >= i64::MAX,
        ids matches Err(error) ==> error == StoreError::Backend && final(db)@ == old(db)@,
        ids matches Ok(found) ==> final(db)@ == with_tokens(old(db)@, keys@, keys@.len() as int)
            && found@.len() == keys@.len() && forall|i: int|
            0 <= i < found@.len() ==> Some(#[trigger] found@[i]) == token_id(
                final(db)@,
                keys@[i].policy_id@,
                keys@[i].name@,
            ),
{
    proof {
        db.lemma_view();
    }
    let limit: u64 = 0x7fff_ffff_ffff_ffff;
    let count = keys.len() as u64;
    if count >= limit || db.next_token_id as u64 + count >= limit {
        return Err(StoreError::Backend);
    }
    let ghost before = db@;
    let mut found: Vec<i64> = Vec::new();
    let mut k: usize = 0;
    while k < keys.len()
        invariant
            k <= keys@.len(),
            db.wf(),
            db@ == with_tokens(before, keys@, k as int),
            db@.next_token_id <= before.next_token_id + k,
            before.next_token_id + keys@.len() < i64::MAX,
            found@.len() == k,
            forall|i: int|
                0 <= i < k ==> Some(#[trigger] found@[i]) == token_id(
                    db@,
                    keys@[i].policy_id@,
                    keys@[i].name@,
                ),
        decreases keys@.len() - k,
    {
        let ghost known = db@;
        let ghost so_far = found@;
        let key = &keys[k];
        proof {
            lemma_with_token(known, key.policy_id@, key.name@);
            assert forall|i: int| 0 <= i < k implies Some(so_far[i]) == token_id(
                with_token(known, key.policy_id@, key.name@),
                keys@[i].policy_id@,
                keys@[i].name@,
            ) by {
                assert(Some(found@[i]) == token_id(known, keys@[i].policy_id@, keys@[i].name@));
                lemma_token_id_stays(
                    known,
                    keys@[i].policy_id@,
                    keys@[i].name@,
                    key.policy_id@,
                    key.name@,
                );
            }
        }
        let id = db.upsert_token(
            copy_bytes(&key.policy_id),
            copy_bytes(&key.name),
        );
        found.push(id);
        k = k + 1;
    }
    Ok(found)
}

} // verus!
