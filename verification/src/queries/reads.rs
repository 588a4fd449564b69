//! Reading the store: the latest price of each pool and pair, the tokens, and the outputs that
//! the inputs of a transaction spend.

use crate::entity::{address, price_update, token, token_transfer, transaction_output};
use crate::hex_codec::{decode, encode, hex_decoded, hex_encoded, is_hex_text};
use crate::model::{
    text_of, OutputAssetRecord, OutputAssetView, TxInputRecord, TxOutputRecord, TxOutputView,
};
use crate::queries::history::{comes_before, price_keys};
use crate::queries::state::{Store, StoreError, StoreView};
use crate::queries::transactions::{find_transaction, has_tx_hash};
use crate::search::{
    first_where, is_first_where, lemma_first_where_found, lemma_first_where_missing,
};
use crate::sink::common::bytes_eq;
use crate::types::{Asset, AssetView, ExchangeRate, ExchangeRateView};
use vstd::prelude::*;

verus! {

/// Whether two price updates are of the same pool and the same pair of tokens.
pub open spec fn same_pool_pair(a: price_update::Row, b: price_update::Row) -> bool {
    a.script_hash == b.script_hash && a.token1_id == b.token1_id && a.token2_id == b.token2_id
}

/// Whether the price update at `at` is the latest of its pool and pair: it comes before every
/// other one of them in a history.
pub open spec fn is_latest(rows: Seq<price_update::Row>, at: int) -> bool {
    forall|j: int|
        0 <= j < rows.len() && j != at && same_pool_pair(#[trigger] rows[j], rows[at])
            ==> comes_before(price_keys(rows), at, j)
}

/// The exchange rate that a price update states: the pool's script in hexadecimal, the two
/// tokens, and the two amounts whose quotient is the rate.
pub open spec fn rate_of(row: price_update::Row) -> ExchangeRateView {
    ExchangeRateView {
        script_hash: hex_encoded(row.script_hash),
        asset1: row.token1_id,
        asset2: row.token2_id,
        amount1: row.amount1 as u64,
        amount2: row.amount2 as u64,
    }
}

/// The latest prices among the first `count` price updates: of each pool and pair the rate of
/// its latest price update, in the order of the table.
pub open spec fn latest_prices(rows: Seq<price_update::Row>, count: int) -> Seq<ExchangeRateView>
    decreases count,
{
    if count <= 0 {
        Seq::empty()
    } else if is_latest(rows, count - 1) {
        latest_prices(rows, count - 1).push(rate_of(rows[count - 1]))
    } else {
        latest_prices(rows, count - 1)
    }
}

/// Whether the price update at `at` is the latest of its pool and pair.
fn check_latest(rows: &Vec<price_update::Model>, at: usize) -> (latest: bool)
    requires
        at < rows@.len(),
    ensures
        latest == is_latest(rows.deep_view(), at as int),
{
    let ghost keys = price_keys(rows.deep_view());
    let mut j: usize = 0;
    while j < rows.len()
        invariant
            j <= rows@.len(),
            at < rows@.len(),
            keys == price_keys(rows.deep_view()),
            forall|k: int|
                0 <= k < j && k != at && same_pool_pair(
                    #[trigger] rows.deep_view()[k],
                    rows.deep_view()[at as int],
                ) ==> comes_before(keys, at as int, k),
        decreases rows@.len() - j,
    {
        if j != at && bytes_eq(&rows[j].script_hash, &rows[at].script_hash) && rows[j].token1_id
            == rows[at].token1_id && rows[j].token2_id == rows[at].token2_id {
            let before = rows[at].tx_id > rows[j].tx_id || (rows[at].tx_id == rows[j].tx_id && at
                > j);
            if !before {
                assert(same_pool_pair(rows.deep_view()[j as int], rows.deep_view()[at as int]));
                assert(!comes_before(keys, at as int, j as int));
                return false;
            }
        }
        j = j + 1;
    }
    true
}

/// The latest price of each pool and pair of tokens.
pub fn get_latest_prices(db: &Store) -> (rates: Vec<ExchangeRate>)
    requires
        db.wf(),
    ensures
        rates.deep_view() == latest_prices(db@.price_updates, db@.price_updates.len() as int),
{
    proof {
        db.lemma_view();
    }
    let ghost rows = db.price_updates.deep_view();
    let mut rates: Vec<ExchangeRate> = Vec::new();
    assert(rates.deep_view() =~= latest_prices(rows, 0));
    let mut i: usize = 0;
    while i < db.price_updates.len()
        invariant
            i <= db.price_updates@.len(),
            rows == db.price_updates.deep_view(),
            db@.price_updates == rows,
            db.wf(),
            rates.deep_view() == latest_prices(rows, i as int),
        decreases db.price_updates@.len() - i,
    {
        if check_latest(&db.price_updates, i) {
            let row = &db.price_updates[i];
            assert(rows[i as int] == row@);
            assert(row.amount1 >= 0 && row.amount2 >= 0);
            let ghost before = rates.deep_view();
            rates.push(
                ExchangeRate {
                    script_hash: encode(row.script_hash.as_slice()),
                    asset1: row.token1_id,
                    asset2: row.token2_id,
                    amount1: row.amount1 as u64,
                    amount2: row.amount2 as u64,
                },
            );
            assert(rates.deep_view() =~= before.push(rate_of(row@)));
        }
        i = i + 1;
    }
    rates
}

/// Of the price updates of one pool and pair, at most one is the latest.
pub proof fn lemma_latest_is_one(rows: Seq<price_update::Row>, a: int, b: int)
    requires
        0 <= a < rows.len(),
        0 <= b < rows.len(),
        same_pool_pair(rows[a], rows[b]),
        is_latest(rows, a),
        is_latest(rows, b),
    ensures
        a == b,
{
    if a != b {
        assert(comes_before(price_keys(rows), a, b));
        assert(same_pool_pair(rows[b], rows[a]));
        assert(comes_before(price_keys(rows), b, a));
    }
}

/// The latest price update of the pool and pair of the row at `at`, among the first `count`
/// rows, or `at` where none of them is of that pool and pair.
pub open spec fn latest_among(rows: Seq<price_update::Row>, at: int, count: int) -> int
    decreases count,
{
    if count <= 0 {
        at
    } else {
        let before = latest_among(rows, at, count - 1);
        if same_pool_pair(rows[count - 1], rows[at]) && (before == count - 1 || comes_before(
            price_keys(rows),
            count - 1,
            before,
        )) {
            count - 1
        } else {
            before
        }
    }
}

/// Every pool and pair has a latest price update: one of its own, from a transaction that is
/// not earlier than that of any other of its price updates.
pub proof fn lemma_latest_exists(rows: Seq<price_update::Row>, at: int)
    requires
        0 <= at < rows.len(),
    ensures
        0 <= latest_among(rows, at, rows.len() as int) < rows.len(),
        same_pool_pair(rows[latest_among(rows, at, rows.len() as int)], rows[at]),
        is_latest(rows, latest_among(rows, at, rows.len() as int)),
        forall|j: int|
            0 <= j < rows.len() && same_pool_pair(#[trigger] rows[j], rows[at]) ==> rows[j].tx_id
                <= rows[latest_among(rows, at, rows.len() as int)].tx_id,
{
    lemma_latest_among(rows, at, rows.len() as int);
    let best = latest_among(rows, at, rows.len() as int);
    assert(best == at || comes_before(price_keys(rows), best, at));
    assert forall|j: int|
        0 <= j < rows.len() && j != best && same_pool_pair(
            #[trigger] rows[j],
            rows[best],
        ) implies comes_before(price_keys(rows), best, j) by {
        assert(same_pool_pair(rows[j], rows[at]));
    }
}

proof fn lemma_latest_among(rows: Seq<price_update::Row>, at: int, count: int)
    requires
        0 <= at < rows.len(),
        0 <= count <= rows.len(),
    ensures
        0 <= latest_among(rows, at, count) < rows.len(),
        same_pool_pair(rows[latest_among(rows, at, count)], rows[at]),
        latest_among(rows, at, count) == at || latest_among(rows, at, count) < count,
        forall|j: int|
            0 <= j < count && j != latest_among(rows, at, count) && same_pool_pair(
                #[trigger] rows[j],
                rows[at],
            ) ==> comes_before(price_keys(rows), latest_among(rows, at, count), j),
        count > at ==> (latest_among(rows, at, count) == at || comes_before(
            price_keys(rows),
            latest_among(rows, at, count),
            at,
        )),
    decreases count,
{
    if count > 0 {
        lemma_latest_among(rows, at, count - 1);
        let before = latest_among(rows, at, count - 1);
        let now = latest_among(rows, at, count);
        assert forall|j: int|
            0 <= j < count && j != now && same_pool_pair(
                #[trigger] rows[j],
                rows[at],
            ) implies comes_before(price_keys(rows), now, j) by {
            if j < count - 1 && j != before {
                assert(comes_before(price_keys(rows), before, j));
            }
        }
    }
}

/// The positions, among the first `count` price updates, of those that are the latest of
/// their pool and pair, in the order of the table.
pub open spec fn latest_positions(rows: Seq<price_update::Row>, count: int) -> Seq<int>
    decreases count,
{
    if count <= 0 {
        Seq::empty()
    } else if is_latest(rows, count - 1) {
        latest_positions(rows, count - 1).push(count - 1)
    } else {
        latest_positions(rows, count - 1)
    }
}

/// The latest prices are the rates of the price updates at the latest positions, one for
/// one; these positions ascend, and they are those of the latest price updates, all of them.
pub proof fn lemma_latest_prices_are_of_latest_rows(rows: Seq<price_update::Row>, count: int)
    requires
        0 <= count <= rows.len(),
    ensures
        latest_prices(rows, count).len() == latest_positions(rows, count).len(),
        forall|k: int|
            0 <= k < latest_positions(rows, count).len() ==> {
                &&& 0 <= #[trigger] latest_positions(rows, count)[k] < count
                &&& is_latest(rows, latest_positions(rows, count)[k])
                &&& latest_prices(rows, count)[k] == rate_of(rows[latest_positions(rows, count)[k]])
            },
        forall|a: int, b: int|
            0 <= a < b < latest_positions(rows, count).len() ==> #[trigger] latest_positions(
                rows,
                count,
            )[a] < #[trigger] latest_positions(rows, count)[b],
        forall|i: int|
            0 <= i < count && is_latest(rows, i) ==> #[trigger] latest_positions(
                rows,
                count,
            ).contains(i),
    decreases count,
{
    if count > 0 {
        lemma_latest_prices_are_of_latest_rows(rows, count - 1);
        let before = latest_positions(rows, count - 1);
        let now = latest_positions(rows, count);
        assert forall|i: int| 0 <= i < count && is_latest(rows, i) implies #[trigger] now.contains(
            i,
        ) by {
            if i < count - 1 {
                assert(before.contains(i));
                let k = choose|k: int| 0 <= k < before.len() && before[k] == i;
                assert(now[k] == i);
            } else {
                assert(now[now.len() - 1] == i);
            }
        }
    }
}

/// Mean-price identity. Every pool and pair that has a price update has exactly one latest
/// price: one position among the latest is of that pool and pair, and the price update there
/// belongs to a transaction that is not earlier than that of any other price update of the
/// pool and pair.
pub proof fn lemma_mean_price_identity(rows: Seq<price_update::Row>, at: int)
    requires
        0 <= at < rows.len(),
    ensures
        latest_positions(rows, rows.len() as int).contains(
            latest_among(rows, at, rows.len() as int),
        ),
        same_pool_pair(rows[latest_among(rows, at, rows.len() as int)], rows[at]),
        forall|j: int|
            0 <= j < rows.len() && same_pool_pair(#[trigger] rows[j], rows[at]) ==> rows[j].tx_id
                <= rows[latest_among(rows, at, rows.len() as int)].tx_id,
        forall|k: int|
            0 <= k < latest_positions(rows, rows.len() as int).len() && same_pool_pair(
                rows[#[trigger] latest_positions(rows, rows.len() as int)[k]],
                rows[at],
            ) ==> latest_positions(rows, rows.len() as int)[k] == latest_among(
                rows,
                at,
                rows.len() as int,
            ),
{
    let best = latest_among(rows, at, rows.len() as int);
    let positions = latest_positions(rows, rows.len() as int);
    lemma_latest_exists(rows, at);
    lemma_latest_prices_are_of_latest_rows(rows, rows.len() as int);
    assert(positions.contains(best));
    assert forall|k: int|
        0 <= k < positions.len() && same_pool_pair(
            rows[#[trigger] positions[k]],
            rows[at],
        ) implies positions[k] == best by {
        lemma_latest_is_one(rows, positions[k], best);
    }
}

/// The asset that a token is: policy and name in hexadecimal.
pub open spec fn asset_of(row: token::Row) -> AssetView {
    AssetView { policy_id: hex_encoded(row.policy_id), name: hex_encoded(row.name) }
}

/// Every token of the store, under its identifier, with policy and name in hexadecimal.
pub fn get_assets(db: &Store) -> (assets: Vec<(i64, Asset)>)
    ensures
        assets@.len() == db@.tokens.len(),
        forall|i: int|
            0 <= i < assets@.len() ==> (#[trigger] assets@[i]).0 == db@.tokens[i].id
                && assets@[i].1@ == asset_of(db@.tokens[i]),
{
    proof {
        db.lemma_view();
    }
    let mut assets: Vec<(i64, Asset)> = Vec::new();
    let mut i: usize = 0;
    while i < db.tokens.len()
        invariant
            i <= db.tokens@.len(),
            db@.tokens == db.tokens.deep_view(),
            assets@.len() == i,
            forall|k: int|
                0 <= k < i ==> (#[trigger] assets@[k]).0 == db@.tokens[k].id && assets@[k].1@
                    == asset_of(db@.tokens[k]),
        decreases db.tokens@.len() - i,
    {
        let row = &db.tokens[i];
        assert(db@.tokens[i as int] == row@);
        assets.push(
            (
                row.id,
                Asset {
                    policy_id: encode(row.policy_id.as_slice()),
                    name: encode(row.name.as_slice()),
                },
            ),
        );
        i = i + 1;
    }
    assets
}

/// Whether an output is the one at this position among the outputs of this transaction.
pub open spec fn is_output(tx_id: i64, index: u64) -> spec_fn(transaction_output::Row) -> bool {
    |row: transaction_output::Row| row.tx_id == tx_id && row.index as u64 == index
}

/// Whether an address has this identifier.
pub open spec fn is_address(id: i64) -> spec_fn(address::Row) -> bool {
    |row: address::Row| row.id == id
}

/// Whether a token has this identifier.
pub open spec fn is_token(id: i64) -> spec_fn(token::Row) -> bool {
    |row: token::Row| row.id == id
}

/// The token of a transfer, if the transfer lies on this output.
pub open spec fn token_on(
    store: StoreView,
    output_id: i64,
    transfer: token_transfer::Row,
) -> Option<
    token::Row,
> {
    if transfer.output_id == output_id {
        match first_where(store.tokens, is_token(transfer.token_id)) {
            Some(at) => Some(store.tokens[at]),
            None => None,
        }
    } else {
        None
    }
}

/// Whether a token is ADA: the token without policy and name.
pub open spec fn is_ada_token(row: token::Row) -> bool {
    row.policy_id.len() == 0 && row.name.len() == 0
}

/// The ADA on an output, as the first `count` transfers state it: the amount of the last
/// transfer of ADA onto the output, or nothing.
pub open spec fn held_ada(store: StoreView, output_id: i64, count: int) -> u64
    decreases count,
{
    if count <= 0 {
        0
    } else {
        match token_on(store, output_id, store.transfers[count - 1]) {
            Some(token) => if is_ada_token(token) {
                store.transfers[count - 1].amount
            } else {
                held_ada(store, output_id, count - 1)
            },
            None => held_ada(store, output_id, count - 1),
        }
    }
}

/// The assets on an output, as the first `count` transfers state them: one for each transfer
/// of another token than ADA onto the output, in the order of the transfers, with policy and
/// name in hexadecimal.
pub open spec fn held_assets(store: StoreView, output_id: i64, count: int) -> Seq<OutputAssetView>
    decreases count,
{
    if count <= 0 {
        Seq::empty()
    } else {
        match token_on(store, output_id, store.transfers[count - 1]) {
            Some(token) => if is_ada_token(token) {
                held_assets(store, output_id, count - 1)
            } else {
                held_assets(store, output_id, count - 1).push(
                    OutputAssetView {
                        policy: hex_encoded(token.policy_id),
                        asset: hex_encoded(token.name),
                        amount: store.transfers[count - 1].amount,
                    },
                )
            },
            None => held_assets(store, output_id, count - 1),
        }
    }
}

/// The output that an input spends, as the store knows it: the first output at the input's
/// position among the outputs of the transaction with the input's hash, with the text of its
/// address, its datum hash, its ADA and its other assets. Absent where the store has no such
/// transaction or no such output.
pub open spec fn spent_output(store: StoreView, input: TxInputRecord) -> Option<TxOutputView> {
    match first_where(store.transactions, has_tx_hash(hex_decoded(input.tx_id@))) {
        None => None,
        Some(t) => match first_where(
            store.outputs,
            is_output(store.transactions[t].id, input.index),
        ) {
            None => None,
            Some(o) => match first_where(store.addresses, is_address(store.outputs[o].address_id)) {
                None => None,
                Some(a) => Some(
                    TxOutputView {
                        address: store.addresses[a].payload,
                        amount: held_ada(store, store.outputs[o].id, store.transfers.len() as int),
                        assets: held_assets(
                            store,
                            store.outputs[o].id,
                            store.transfers.len() as int,
                        ),
                        datum_hash: store.outputs[o].datum_hash,
                    },
                ),
            },
        },
    }
}

/// Whether the hash of every input is hexadecimal text.
pub open spec fn inputs_are_hex(inputs: Seq<TxInputRecord>) -> bool {
    forall|i: int| 0 <= i < inputs.len() ==> is_hex_text((#[trigger] inputs[i]).tx_id@)
}

/// The outputs that inputs spend, one for each input and in their order; a hash that is no
/// hexadecimal text does not match the shape.
pub open spec fn spent_outputs(store: StoreView, inputs: Seq<TxInputRecord>) -> Result<
    Seq<Option<TxOutputView>>,
    StoreError,
> {
    if inputs_are_hex(inputs) {
        Ok(Seq::new(inputs.len(), |i: int| spent_output(store, inputs[i])))
    } else {
        Err(StoreError::ShapeMismatch)
    }
}

fn find_output(rows: &Vec<transaction_output::Model>, tx_id: i64, index: u64) -> (found: Option<
    usize,
>)
    ensures
        found.is_some() == first_where(rows.deep_view(), is_output(tx_id, index)).is_some(),
        found matches Some(at) ==> Some(at as int) == first_where(
            rows.deep_view(),
            is_output(tx_id, index),
        ) && at < rows@.len(),
{
    let ghost wanted = is_output(tx_id, index);
    let mut i: usize = 0;
    while i < rows.len()
        invariant
            i <= rows@.len(),
            wanted == is_output(tx_id, index),
            forall|j: int| 0 <= j < i ==> !wanted(#[trigger] rows.deep_view()[j]),
        decreases rows@.len() - i,
    {
        if rows[i].tx_id == tx_id && rows[i].index as u64 == index {
            proof {
                assert(wanted(rows.deep_view()[i as int]));
                assert(is_first_where(rows.deep_view(), wanted, i as int));
                lemma_first_where_found(rows.deep_view(), wanted, i as int);
            }
            return Some(i);
        }
        i = i + 1;
    }
    proof {
        lemma_first_where_missing(rows.deep_view(), wanted);
    }
    None
}

fn find_address_by_id(rows: &Vec<address::Model>, id: i64) -> (found: Option<usize>)
    ensures
        found.is_some() == first_where(rows.deep_view(), is_address(id)).is_some(),
        found matches Some(at) ==> Some(at as int) == first_where(rows.deep_view(), is_address(id))
            && at < rows@.len(),
{
    let ghost wanted = is_address(id);
    let mut i: usize = 0;
    while i < rows.len()
        invariant
            i <= rows@.len(),
            wanted == is_address(id),
            forall|j: int| 0 <= j < i ==> !wanted(#[trigger] rows.deep_view()[j]),
        decreases rows@.len() - i,
    {
        if rows[i].id == id {
            proof {
                assert(wanted(rows.deep_view()[i as int]));
                assert(is_first_where(rows.deep_view(), wanted, i as int));
                lemma_first_where_found(rows.deep_view(), wanted, i as int);
            }
            return Some(i);
        }
        i = i + 1;
    }
    proof {
        lemma_first_where_missing(rows.deep_view(), wanted);
    }
    None
}

fn find_token_by_id(rows: &Vec<token::Model>, id: i64) -> (found: Option<usize>)
    ensures
        found.is_some() == first_where(rows.deep_view(), is_token(id)).is_some(),
        found matches Some(at) ==> Some(at as int) == first_where(rows.deep_view(), is_token(id))
            && at < rows@.len(),
{
    let ghost wanted = is_token(id);
    let mut i: usize = 0;
    while i < rows.len()
        invariant
            i <= rows@.len(),
            wanted == is_token(id),
            forall|j: int| 0 <= j < i ==> !wanted(#[trigger] rows.deep_view()[j]),
        decreases rows@.len() - i,
    {
        if rows[i].id == id {
            proof {
                assert(wanted(rows.deep_view()[i as int]));
                assert(is_first_where(rows.deep_view(), wanted, i as int));
                lemma_first_where_found(rows.deep_view(), wanted, i as int);
            }
            return Some(i);
        }
        i = i + 1;
    }
    proof {
        lemma_first_where_missing(rows.deep_view(), wanted);
    }
    None
}

fn copy_datum_hash(text: &Option<String>) -> (copy: Option<String>)
    ensures
        text_of(copy) == text_of(*text),
{
    match text {
        Some(text) => Some(text.clone()),
        None => None,
    }
}

impl Store {
    /// The output at `at` among the outputs, as a transaction that spends it sees it.
    fn restore_output(&self, at: usize, address: usize) -> (output: TxOutputRecord)
        requires
            at < self@.outputs.len(),
            address < self@.addresses.len(),
        ensures
            output@ == (TxOutputView {
                address: self@.addresses[address as int].payload,
                amount: held_ada(self@, self@.outputs[at as int].id, self@.transfers.len() as int),
                assets: held_assets(
                    self@,
                    self@.outputs[at as int].id,
                    self@.transfers.len() as int,
                ),
                datum_hash: self@.outputs[at as int].datum_hash,
            }),
    {
        proof {
            self.lemma_view();
        }
        let output_id = self.outputs[at].id;
        assert(self@.outputs[at as int] == self.outputs@[at as int]@);
        assert(self@.addresses[address as int] == self.addresses@[address as int]@);
        let mut amount: u64 = 0;
        let mut assets: Vec<OutputAssetRecord> = Vec::new();
        assert(assets.deep_view() =~= held_assets(self@, output_id, 0));
        let mut i: usize = 0;
        while i < self.transfers.len()
            invariant
                i <= self.transfers@.len(),
                self@.transfers == self.transfers.deep_view(),
                self@.tokens == self.tokens.deep_view(),
                amount == held_ada(self@, output_id, i as int),
                assets.deep_view() == held_assets(self@, output_id, i as int),
            decreases self.transfers@.len() - i,
        {
            let transfer = &self.transfers[i];
            assert(self@.transfers[i as int] == transfer@);
            if transfer.output_id == output_id {
                match find_token_by_id(&self.tokens, transfer.token_id) {
                    Some(t) => {
                        let token = &self.tokens[t];
                        assert(self@.tokens[t as int] == token@);
                        if token.policy_id.len() == 0 && token.name.len() == 0 {
                            amount = transfer.amount;
                        } else {
                            let ghost before = assets.deep_view();
                            let asset = OutputAssetRecord {
                                policy: encode(token.policy_id.as_slice()),
                                asset: encode(token.name.as_slice()),
                                amount: transfer.amount,
                            };
                            assets.push(asset);
                            assert(assets.deep_view() =~= before.push(
                                OutputAssetView {
                                    policy: hex_encoded(token@.policy_id),
                                    asset: hex_encoded(token@.name),
                                    amount: transfer.amount,
                                },
                            ));
                        }
                    },
                    None => {},
                }
            }
            i = i + 1;
        }
        TxOutputRecord {
            address: self.addresses[address].payload.clone(),
            amount,
            assets,
            datum_hash: copy_datum_hash(&self.outputs[at].datum_hash),
        }
    }

    /// The output that an input spends, as the store knows it.
    fn restore_input(&self, hash: &Vec<u8>, index: u64) -> (output: Option<TxOutputRecord>)
        ensures
            output.deep_view() == match first_where(self@.transactions, has_tx_hash(hash@)) {
                None => None,
                Some(t) => match first_where(
                    self@.outputs,
                    is_output(self@.transactions[t].id, index),
                ) {
                    None => None,
                    Some(o) => match first_where(
                        self@.addresses,
                        is_address(self@.outputs[o].address_id),
                    ) {
                        None => None,
                        Some(a) => Some(
                            TxOutputView {
                                address: self@.addresses[a].payload,
                                amount: held_ada(
                                    self@,
                                    self@.outputs[o].id,
                                    self@.transfers.len() as int,
                                ),
                                assets: held_assets(
                                    self@,
                                    self@.outputs[o].id,
                                    self@.transfers.len() as int,
                                ),
                                datum_hash: self@.outputs[o].datum_hash,
                            },
                        ),
                    },
                },
            },
    {
        proof {
            self.lemma_view();
        }
        let t = match find_transaction(&self.transactions, hash) {
            Some(t) => t,
            None => {
                return None;
            },
        };
        assert(self@.transactions[t as int] == self.transactions@[t as int]@);
        let o = match find_output(&self.outputs, self.transactions[t].id, index) {
            Some(o) => o,
            None => {
                return None;
            },
        };
        assert(self@.outputs[o as int] == self.outputs@[o as int]@);
        let a = match find_address_by_id(&self.addresses, self.outputs[o].address_id) {
            Some(a) => a,
            None => {
                return None;
            },
        };
        Some(self.restore_output(o, a))
    }
}

/// The outputs that the inputs of a transaction spend, as far as the store knows them: one
/// entry for each input, in the order of the inputs, absent where the store does not have the
/// output.
pub fn get_utxo_input(inputs: &Vec<TxInputRecord>, db: &Store) -> (outputs: Result<
    Vec<Option<TxOutputRecord>>,
    StoreError,
>)
    ensures
        match outputs {
            Ok(found) => Ok::<Seq<Option<TxOutputView>>, StoreError>(found.deep_view()),
            Err(error) => Err::<Seq<Option<TxOutputView>>, StoreError>(error),
        } == spent_outputs(db@, inputs@),
{
    let mut hashes: Vec<Vec<u8>> = Vec::new();
    let mut i: usize = 0;
    while i < inputs.len()
        invariant
            i <= inputs@.len(),
            hashes@.len() == i,
            forall|k: int|
                0 <= k < i ==> is_hex_text((#[trigger] inputs@[k]).tx_id@) && hashes@[k]@
                    == hex_decoded(inputs@[k].tx_id@),
        decreases inputs@.len() - i,
    {
        match decode(inputs[i].tx_id.as_str()) {
            Some(hash) => {
                hashes.push(hash);
            },
            None => {
                assert(!is_hex_text(inputs@[i as int].tx_id@));
                return Err(StoreError::ShapeMismatch);
            },
        }
        i = i + 1;
    }
    let mut found: Vec<Option<TxOutputRecord>> = Vec::new();
    let mut i: usize = 0;
    while i < inputs.len()
        invariant
            i <= inputs@.len(),
            hashes@.len() == inputs@.len(),
            forall|k: int|
                0 <= k < inputs@.len() ==> is_hex_text((#[trigger] inputs@[k]).tx_id@)
                    && hashes@[k]@ == hex_decoded(inputs@[k].tx_id@),
            found@.len() == i,
            forall|k: int|
                0 <= k < i ==> (#[trigger] found@[k]).deep_view() == spent_output(
                    db@,
                    inputs@[k],
                ),
        decreases inputs@.len() - i,
    {
        assert(is_hex_text(inputs@[i as int].tx_id@));
        let output = db.restore_input(&hashes[i], inputs[i].index);
        found.push(output);
        i = i + 1;
    }
    assert(found.deep_view() =~= Seq::new(
        inputs@.len(),
        |i: int| spent_output(db@, inputs@[i]),
    ));
    Ok(found)
}

} // verus!
