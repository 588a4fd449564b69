//! The interpreter of WingRiders pools.
//!
//! A pool's datum names its two assets and the treasury of each. The reserves are what the
//! pool's output holds beyond the treasuries and, of ADA, beyond a fixed deposit. Orders are
//! paired with the outputs that answer them by the list of input positions that the pool's
//! redeemer carries.

use crate::config::{PoolConfig, WingRiders};
use crate::hex_codec::{hex_decoded, is_hex_text};
use crate::datum::{
    constructor_at, int_at, int_list_at, quantity_at, InterpretError, InterpretErrorView,
    PlutusData,
};
use crate::model::{PlutusRedeemerRecord, TransactionRecord, TxOutputRecord, TxOutputView};
use crate::search::{
    first_where, is_first_where, lemma_first_where_found, lemma_first_where_missing,
};
use crate::sink::common::{
    amount_of, asset_at, datum_of, find_datum, find_output_paying_to, get_net_amount,
    get_swap_between, is_ada, net_amount, output_paying_to, pair_view, path1, path2, path4,
    pays_to, read_asset, reduce_ada_amount, reduced, swap_between, swaps_view, Dex,
};
use crate::types::{Asset, AssetAmount, AssetAmountView, AssetView, Swap, SwapView};
use vstd::prelude::*;

verus! {

/// The ADA that a pool's output holds as a deposit, outside its reserves.
pub const WR_ADA_POOL: u64 = 3_000_000;

/// The ADA that an order's input holds beyond what is swapped.
pub const WR_ADA_SWAP_IN: u64 = 4_000_000;

/// The ADA that an answering output holds beyond what was swapped.
pub const WR_ADA_SWAP_OUT: u64 = 2_000_000;

/// What is held back of an asset: `amount` of ADA, nothing of any other asset.
pub fn wr_transaction(policy_id: &str, asset: &str, amount: u64) -> (held_back: u64)
    ensures
        held_back == reduced(policy_id@, asset@, amount),
{
    reduce_ada_amount(policy_id, asset, amount)
}

/// The two assets of a pool, each with its treasury, as the pool's datum declares them: the
/// first asset at `fields[1].fields[0].fields[0]`, the second at `fields[1].fields[0].fields[1]`,
/// each a policy and a name, and the treasuries at `fields[1].fields[2]` and `fields[1].fields[3]`.
/// Where the datum lacks one of them, the error names the first path that leads nowhere.
pub open spec fn wr_pool_assets(datum: PlutusData) -> Result<
    (AssetAmountView, AssetAmountView),
    InterpretErrorView,
> {
    match asset_at(datum, seq![1usize, 0usize, 0usize, 0usize], seq![1usize, 0usize, 0usize, 1usize]) {
        Err(error) => Err(error),
        Ok(first) => match quantity_at(datum, seq![1usize, 2usize]) {
            None => Err(InterpretErrorView::DatumShape(seq![1usize, 2usize])),
            Some(first_treasury) => match asset_at(
                datum,
                seq![1usize, 0usize, 1usize, 0usize],
                seq![1usize, 0usize, 1usize, 1usize],
            ) {
                Err(error) => Err(error),
                Ok(second) => match quantity_at(datum, seq![1usize, 3usize]) {
                    None => Err(InterpretErrorView::DatumShape(seq![1usize, 3usize])),
                    Some(second_treasury) => Ok(
                        (
                            AssetAmountView { asset: first, amount: first_treasury },
                            AssetAmountView { asset: second, amount: second_treasury },
                        ),
                    ),
                },
            },
        },
    }
}

/// What the outcome of reading a pool's assets is.
pub open spec fn pool_assets_view(
    outcome: Result<(AssetAmount, AssetAmount), InterpretError>,
) -> Result<
    (AssetAmountView, AssetAmountView),
    InterpretErrorView,
> {
    match outcome {
        Ok((first, second)) => Ok((first@, second@)),
        Err(error) => Err(error@),
    }
}

/// The two assets of a pool, each with its treasury, read from the pool's datum.
pub fn wr_extract_plutus_assets(datum: &PlutusData) -> (assets: Result<
    (AssetAmount, AssetAmount),
    InterpretError,
>)
    ensures
        pool_assets_view(assets) == wr_pool_assets(*datum),
{
    let first = match read_asset(
        datum,
        path4(1, 0, 0, 0).as_slice(),
        path4(1, 0, 0, 1).as_slice(),
    ) {
        Ok(asset) => asset,
        Err(error) => {
            return Err(error);
        },
    };
    let first_treasury = match datum.quantity_at(path2(1, 2).as_slice()) {
        Ok(amount) => amount,
        Err(error) => {
            return Err(error);
        },
    };
    let second = match read_asset(
        datum,
        path4(1, 0, 1, 0).as_slice(),
        path4(1, 0, 1, 1).as_slice(),
    ) {
        Ok(asset) => asset,
        Err(error) => {
            return Err(error);
        },
    };
    let second_treasury = match datum.quantity_at(path2(1, 3).as_slice()) {
        Ok(amount) => amount,
        Err(error) => {
            return Err(error);
        },
    };
    Ok(
        (
            AssetAmount { asset: first, amount: first_treasury },
            AssetAmount { asset: second, amount: second_treasury },
        ),
    )
}

/// The reserves of a pool, given the pool's output and its datum: of each asset, what the
/// output holds less the treasury and, for ADA, less the deposit. Absent where the datum
/// lacks a field or the output holds less than that.
pub open spec fn wr_reserves(output: TxOutputView, datum: PlutusData) -> Option<
    (AssetAmountView, AssetAmountView),
> {
    match wr_pool_assets(datum) {
        Err(_) => None,
        Ok((first, second)) => match (
            net_amount(output, first.asset, first.amount, WR_ADA_POOL),
            net_amount(output, second.asset, second.amount, WR_ADA_POOL),
        ) {
            (Some(amount1), Some(amount2)) => Some(
                (
                    AssetAmountView { asset: first.asset, amount: amount1 },
                    AssetAmountView { asset: second.asset, amount: amount2 },
                ),
            ),
            _ => None,
        },
    }
}

/// The reserves of a pool after a transaction: those that the first output paid to the pool's
/// script, with the datum that the transaction carries for it, declares. Absent where the
/// transaction has no such output or no datum for it.
pub open spec fn wr_mean_value(pool: PoolConfig, transaction: TransactionRecord) -> Option<
    (AssetAmountView, AssetAmountView),
> {
    match output_paying_to(transaction.outputs@, pool.script_hash@) {
        None => None,
        Some(at) => match datum_of(transaction, transaction.outputs@[at]@.datum_hash) {
            None => None,
            Some(datum) => wr_reserves(transaction.outputs@[at]@, datum),
        },
    }
}

/// The reserves of a pool, given the pool's output and its datum.
pub fn wr_get_reserves(output: &TxOutputRecord, datum: &PlutusData) -> (pair: Option<
    (AssetAmount, AssetAmount),
>)
    ensures
        pair_view(pair) == wr_reserves(output@, *datum),
{
    let (first, second) = match wr_extract_plutus_assets(datum) {
        Ok(assets) => assets,
        Err(_) => {
            return None;
        },
    };
    let amount1 = get_net_amount(output, &first.asset, first.amount, WR_ADA_POOL);
    let amount2 = get_net_amount(output, &second.asset, second.amount, WR_ADA_POOL);
    match (amount1, amount2) {
        (Some(amount1), Some(amount2)) => Some(
            (
                AssetAmount { asset: first.asset, amount: amount1 },
                AssetAmount { asset: second.asset, amount: amount2 },
            ),
        ),
        _ => None,
    }
}

/// The reserves of a pool after a transaction.
pub fn wr_get_transaction(transaction: &TransactionRecord, script_hash: &str) -> (pair: Option<
    (AssetAmount, AssetAmount),
>)
    ensures
        pair_view(pair) == match output_paying_to(transaction.outputs@, script_hash@) {
            None => None,
            Some(at) => match datum_of(*transaction, transaction.outputs@[at]@.datum_hash) {
                None => None,
                Some(datum) => wr_reserves(transaction.outputs@[at]@, datum),
            },
        },
{
    match find_output_paying_to(&transaction.outputs, script_hash) {
        None => None,
        Some(at) => {
            let output = &transaction.outputs[at];
            match find_datum(transaction, &output.datum_hash) {
                None => None,
                Some(datum) => wr_get_reserves(output, datum),
            }
        },
    }
}

/// The reserves of a pool whose first asset is ADA. Let a transaction have exactly one output
/// paid to the pool's script, let it carry the datum of that output, and let the datum declare
/// ADA with treasury `t1` and another asset with treasury `t2`. Then the mean value is ADA in
/// the quantity that the output holds less `t1` and the deposit of 3 000 000, and the other
/// asset in the quantity that the output holds less `t2`, provided the output holds that much.
pub proof fn lemma_wingriders_extraction(
    pool: PoolConfig,
    transaction: TransactionRecord,
    at: int,
    datum: PlutusData,
    second: AssetView,
    t1: u64,
    t2: u64,
)
    requires
        is_hex_text(pool.script_hash@),
        0 <= at < transaction.outputs@.len(),
        forall|j: int|
            0 <= j < transaction.outputs@.len() ==> (pays_to(hex_decoded(pool.script_hash@))(
                #[trigger] transaction.outputs@[j],
            ) <==> j == at),
        datum_of(transaction, transaction.outputs@[at]@.datum_hash) == Some(datum),
        wr_pool_assets(datum) == Ok::<(AssetAmountView, AssetAmountView), InterpretErrorView>(
            (
                AssetAmountView {
                    asset: AssetView { policy_id: Seq::empty(), name: Seq::empty() },
                    amount: t1,
                },
                AssetAmountView { asset: second, amount: t2 },
            ),
        ),
        !is_ada(second.policy_id, second.name),
        transaction.outputs@[at].amount >= t1 + WR_ADA_POOL,
        t2 <= amount_of(transaction.outputs@[at]@, second.policy_id, second.name) <= u64::MAX,
    ensures
        wr_mean_value(pool, transaction) == Some(
            (
                AssetAmountView {
                    asset: AssetView { policy_id: Seq::empty(), name: Seq::empty() },
                    amount: (transaction.outputs@[at].amount - t1 - WR_ADA_POOL) as u64,
                },
                AssetAmountView {
                    asset: second,
                    amount: (amount_of(transaction.outputs@[at]@, second.policy_id, second.name)
                        - t2) as u64,
                },
            ),
        ),
{
    let wanted = pays_to(hex_decoded(pool.script_hash@));
    assert(is_first_where(transaction.outputs@, wanted, at));
    lemma_first_where_found(transaction.outputs@, wanted, at);
}

/// Whether a redeemer is the one for the input at `index`.
pub open spec fn redeems(index: int) -> spec_fn(PlutusRedeemerRecord) -> bool {
    |redeemer: PlutusRedeemerRecord| redeemer.input_idx as int == index
}

/// The pool's redeemer: the first redeemer names the pool's input at `fields[0]`, and the
/// pool's redeemer is the first one for that input. Absent where the transaction has no
/// redeemer, the first one names no input, or no redeemer is for that input.
pub open spec fn wr_pool_redeemer(transaction: TransactionRecord) -> Option<PlutusData> {
    if transaction.plutus_redeemers@.len() == 0 {
        None
    } else {
        match int_at(transaction.plutus_redeemers@[0].plutus_data, seq![0usize]) {
            None => None,
            Some(pool_input) => match first_where(
                transaction.plutus_redeemers@,
                redeems(pool_input as int),
            ) {
                Some(at) => Some(transaction.plutus_redeemers@[at].plutus_data),
                None => None,
            },
        }
    }
}

/// The swap of one order, given the order's input and the output that answers it. No swap
/// where the transaction carries no datum for the input, or the order's `fields[1]` is no
/// swap (its tag is not 0). The tag of `fields[1].fields[0]` is the direction: 0 for a buy,
/// which reads the first asset from the input and the second from the output; anything else
/// for a sell, which reads them the other way round.
pub open spec fn wr_order_swap(
    transaction: TransactionRecord,
    input: TxOutputView,
    output: TxOutputView,
    first: AssetView,
    second: AssetView,
) -> Result<Option<SwapView>, InterpretErrorView> {
    match datum_of(transaction, input.datum_hash) {
        None => Ok(None),
        Some(order) => match constructor_at(order, seq![1usize]) {
            None => Err(InterpretErrorView::DatumShape(seq![1usize])),
            Some(operation) => if operation != 0 {
                Ok(None)
            } else {
                match constructor_at(order, seq![1usize, 0usize]) {
                    None => Err(InterpretErrorView::DatumShape(seq![1usize, 0usize])),
                    Some(direction) => match swap_between(
                        input,
                        output,
                        first,
                        second,
                        direction == 0,
                        direction == 0,
                        WR_ADA_SWAP_IN,
                        WR_ADA_SWAP_OUT,
                    ) {
                        Ok(swap) => Ok(Some(swap)),
                        Err(error) => Err(error),
                    },
                }
            },
        },
    }
}

/// The swap of the order whose input stands at `index` among the inputs. A position outside
/// the inputs is an error; an input that is not known gives no swap.
pub open spec fn wr_order(
    transaction: TransactionRecord,
    inputs: Seq<Option<TxOutputView>>,
    index: i64,
    output: TxOutputView,
    first: AssetView,
    second: AssetView,
) -> Result<Option<SwapView>, InterpretErrorView> {
    if 0 <= index < inputs.len() {
        match inputs[index as int] {
            None => Ok(None),
            Some(input) => wr_order_swap(transaction, input, output, first, second),
        }
    } else {
        Err(InterpretErrorView::IndexOutOfBounds)
    }
}

/// The number of orders that a transaction can answer: each output after the first answers
/// one entry of the list, in order, until either runs out.
pub open spec fn wr_order_count(transaction: TransactionRecord, orders: Seq<i64>) -> int {
    if transaction.outputs@.len() == 0 {
        0
    } else if transaction.outputs@.len() - 1 <= orders.len() {
        transaction.outputs@.len() - 1
    } else {
        orders.len() as int
    }
}

/// The swaps of the first `count` orders, in order, or the error of the first order that
/// cannot be read.
pub open spec fn wr_orders(
    transaction: TransactionRecord,
    inputs: Seq<Option<TxOutputView>>,
    orders: Seq<i64>,
    first: AssetView,
    second: AssetView,
    count: int,
) -> Result<Seq<SwapView>, InterpretErrorView>
    decreases count,
{
    if count <= 0 {
        Ok(Seq::empty())
    } else {
        match wr_orders(transaction, inputs, orders, first, second, count - 1) {
            Err(error) => Err(error),
            Ok(swaps) => match wr_order(
                transaction,
                inputs,
                orders[count - 1],
                transaction.outputs@[count]@,
                first,
                second,
            ) {
                Err(error) => Err(error),
                Ok(None) => Ok(swaps),
                Ok(Some(swap)) => Ok(swaps.push(swap)),
            },
        }
    }
}

/// The swaps of a transaction, given the outputs that its inputs spend. The pool's redeemer
/// carries the position of the pool's own input at `fields[0]` and the positions of the
/// orders' inputs at `fields[2]`. The pool's assets are those that the datum of the pool's
/// input declares. No swaps where the transaction has no pool redeemer, the pool's input is
/// not known, or the transaction carries no datum for it.
pub open spec fn wr_swaps(
    transaction: TransactionRecord,
    inputs: Seq<Option<TxOutputView>>,
) -> Result<Seq<SwapView>, InterpretErrorView> {
    match wr_pool_redeemer(transaction) {
        None => Ok(Seq::empty()),
        Some(redeemer) => match int_list_at(redeemer, seq![2usize]) {
            None => Err(InterpretErrorView::DatumShape(seq![2usize])),
            Some(orders) => match int_at(redeemer, seq![0usize]) {
                None => Err(InterpretErrorView::DatumShape(seq![0usize])),
                Some(mother) => if 0 <= mother < inputs.len() {
                    match inputs[mother as int] {
                        None => Ok(Seq::empty()),
                        Some(pool_input) => match datum_of(transaction, pool_input.datum_hash) {
                            None => Ok(Seq::empty()),
                            Some(pool_datum) => match wr_pool_assets(pool_datum) {
                                Err(error) => Err(error),
                                Ok((first, second)) => wr_orders(
                                    transaction,
                                    inputs,
                                    orders,
                                    first.asset,
                                    second.asset,
                                    wr_order_count(transaction, orders),
                                ),
                            },
                        },
                    }
                } else {
                    Err(InterpretErrorView::IndexOutOfBounds)
                },
            },
        },
    }
}

/// What the outcome of reading one order is.
pub open spec fn order_view(outcome: Result<Option<Swap>, InterpretError>) -> Result<
    Option<SwapView>,
    InterpretErrorView,
> {
    match outcome {
        Ok(Some(swap)) => Ok(Some(swap@)),
        Ok(None) => Ok(None),
        Err(error) => Err(error@),
    }
}

/// The swap of one order, given the order's input and the output that answers it.
pub fn wr_get_order_swap(
    transaction: &TransactionRecord,
    input: &TxOutputRecord,
    output: &TxOutputRecord,
    first: &Asset,
    second: &Asset,
) -> (outcome: Result<Option<Swap>, InterpretError>)
    ensures
        order_view(outcome) == wr_order_swap(*transaction, input@, output@, first@, second@),
{
    let order = match find_datum(transaction, &input.datum_hash) {
        Some(order) => order,
        None => {
            return Ok(None);
        },
    };
    let operation = match order.constructor_at(path1(1).as_slice()) {
        Ok(tag) => tag,
        Err(error) => {
            return Err(error);
        },
    };
    if operation != 0 {
        return Ok(None);
    }
    let direction = match order.constructor_at(path2(1, 0).as_slice()) {
        Ok(tag) => tag,
        Err(error) => {
            return Err(error);
        },
    };
    match get_swap_between(
        input,
        output,
        first,
        second,
        direction == 0,
        direction == 0,
        WR_ADA_SWAP_IN,
        WR_ADA_SWAP_OUT,
    ) {
        Ok(swap) => Ok(Some(swap)),
        Err(error) => Err(error),
    }
}

/// The pool's redeemer.
pub fn wr_find_pool_redeemer(transaction: &TransactionRecord) -> (redeemer: Option<&PlutusData>)
    ensures
        redeemer.is_some() == wr_pool_redeemer(*transaction).is_some(),
        redeemer matches Some(r) ==> Some(*r) == wr_pool_redeemer(*transaction),
{
    if transaction.plutus_redeemers.len() == 0 {
        return None;
    }
    let pool_input = match transaction.plutus_redeemers[0].plutus_data.int_at(path1(0).as_slice()) {
        Ok(value) => value,
        Err(_) => {
            return None;
        },
    };
    let ghost wanted = redeems(pool_input as int);
    let mut i: usize = 0;
    while i < transaction.plutus_redeemers.len()
        invariant
            i <= transaction.plutus_redeemers@.len(),
            transaction.plutus_redeemers@.len() > 0,
            Some(pool_input) == int_at(transaction.plutus_redeemers@[0].plutus_data, seq![0usize]),
            wanted == redeems(pool_input as int),
            forall|j: int| 0 <= j < i ==> !wanted(#[trigger] transaction.plutus_redeemers@[j]),
        decreases transaction.plutus_redeemers@.len() - i,
    {
        let index: u32 = transaction.plutus_redeemers[i].input_idx;
        if pool_input >= 0 && pool_input <= 0xffff_ffff && index as i64 == pool_input {
            proof {
                assert(wanted(transaction.plutus_redeemers@[i as int]));
                assert(is_first_where(transaction.plutus_redeemers@, wanted, i as int));
                lemma_first_where_found(transaction.plutus_redeemers@, wanted, i as int);
            }
            return Some(&transaction.plutus_redeemers[i].plutus_data);
        }
        i = i + 1;
    }
    proof {
        lemma_first_where_missing(transaction.plutus_redeemers@, wanted);
    }
    None
}

/// Once an order cannot be read, the error stays whatever follows.
pub proof fn lemma_wr_orders_error_stays(
    transaction: TransactionRecord,
    inputs: Seq<Option<TxOutputView>>,
    orders: Seq<i64>,
    first: AssetView,
    second: AssetView,
    count: int,
    more: int,
)
    requires
        count <= more,
        wr_orders(transaction, inputs, orders, first, second, count) is Err,
    ensures
        wr_orders(transaction, inputs, orders, first, second, more) == wr_orders(
            transaction,
            inputs,
            orders,
            first,
            second,
            count,
        ),
    decreases more - count,
{
    if count < more {
        lemma_wr_orders_error_stays(transaction, inputs, orders, first, second, count, more - 1);
    }
}

/// The swaps of a transaction, given the outputs that its inputs spend.
pub fn wr_get_swaps(
    transaction: &TransactionRecord,
    inputs: &Vec<Option<TxOutputRecord>>,
) -> (outcome:
    Result<Vec<Swap>, InterpretError>)
    ensures
        swaps_view(outcome) == wr_swaps(*transaction, inputs.deep_view()),
{
    let mut swaps: Vec<Swap> = Vec::new();
    assert(swaps.deep_view() =~= Seq::<SwapView>::empty());
    let redeemer = match wr_find_pool_redeemer(transaction) {
        Some(redeemer) => redeemer,
        None => {
            return Ok(swaps);
        },
    };
    let orders = match redeemer.int_list_at(path1(2).as_slice()) {
        Ok(orders) => orders,
        Err(error) => {
            return Err(error);
        },
    };
    let mother = match redeemer.int_at(path1(0).as_slice()) {
        Ok(mother) => mother,
        Err(error) => {
            return Err(error);
        },
    };
    if mother < 0 || mother as u64 >= inputs.len() as u64 {
        return Err(InterpretError::IndexOutOfBounds);
    }
    let pool_input = match &inputs[mother as usize] {
        Some(pool_input) => pool_input,
        None => {
            return Ok(swaps);
        },
    };
    let pool_datum = match find_datum(transaction, &pool_input.datum_hash) {
        Some(datum) => datum,
        None => {
            return Ok(swaps);
        },
    };
    let (first, second) = match wr_extract_plutus_assets(pool_datum) {
        Ok(assets) => assets,
        Err(error) => {
            return Err(error);
        },
    };
    let count: usize = if transaction.outputs.len() == 0 {
        0
    } else if transaction.outputs.len() - 1 <= orders.len() {
        transaction.outputs.len() - 1
    } else {
        orders.len()
    };
    let mut k: usize = 0;
    while k < count
        invariant
            k <= count,
            count as int == wr_order_count(*transaction, orders@),
            count < transaction.outputs@.len() || count == 0,
            count <= orders@.len(),
            wr_swaps(*transaction, inputs.deep_view()) == wr_orders(
                *transaction,
                inputs.deep_view(),
                orders@,
                first.asset@,
                second.asset@,
                count as int,
            ),
            Ok::<Seq<SwapView>, InterpretErrorView>(swaps.deep_view()) == wr_orders(
                *transaction,
                inputs.deep_view(),
                orders@,
                first.asset@,
                second.asset@,
                k as int,
            ),
        decreases count - k,
    {
        let index: i64 = orders[k];
        let output = &transaction.outputs[k + 1];
        let ghost before = swaps.deep_view();
        if index < 0 || index as u64 >= inputs.len() as u64 {
            proof {
                lemma_wr_orders_error_stays(
                    *transaction,
                    inputs.deep_view(),
                    orders@,
                    first.asset@,
                    second.asset@,
                    k as int + 1,
                    count as int,
                );
            }
            return Err(InterpretError::IndexOutOfBounds);
        }
        match &inputs[index as usize] {
            None => {},
            Some(input) => {
                match wr_get_order_swap(transaction, input, output, &first.asset, &second.asset) {
                    Err(error) => {
                        proof {
                            lemma_wr_orders_error_stays(
                                *transaction,
                                inputs.deep_view(),
                                orders@,
                                first.asset@,
                                second.asset@,
                                k as int + 1,
                                count as int,
                            );
                        }
                        return Err(error);
                    },
                    Ok(None) => {},
                    Ok(Some(swap)) => {
                        swaps.push(swap);
                        assert(swaps.deep_view() =~= before.push(swap@));
                    },
                }
            },
        }
        k = k + 1;
    }
    Ok(swaps)
}

impl Dex for WingRiders {
    open spec fn mean_value_of(&self, pool: PoolConfig, transaction: TransactionRecord) -> Option<
        (AssetAmountView, AssetAmountView),
    > {
        wr_mean_value(pool, transaction)
    }

    open spec fn swaps_of(
        &self,
        pool: PoolConfig,
        transaction: TransactionRecord,
        inputs: Seq<Option<TxOutputView>>,
    ) -> Result<Seq<SwapView>, InterpretErrorView> {
        wr_swaps(transaction, inputs)
    }

    fn mean_value(&self, pool: &PoolConfig, transaction: &TransactionRecord) -> (pair: Option<
        (AssetAmount, AssetAmount),
    >) {
        wr_get_transaction(transaction, pool.script_hash.as_str())
    }

    fn swaps(
        &self,
        pool: &PoolConfig,
        transaction: &TransactionRecord,
        inputs: &Vec<Option<TxOutputRecord>>,
    ) -> (outcome: Result<Vec<Swap>, InterpretError>) {
        wr_get_swaps(transaction, inputs)
    }
}

/// A pool datum that lacks a field gives no reserves, whatever the pool's output holds.
pub proof fn lemma_incomplete_datum_gives_nothing(output: TxOutputView, datum: PlutusData)
    requires
        wr_pool_assets(datum) is Err,
    ensures
        wr_reserves(output, datum) is None,
{
}

/// A pool datum without a quantity at `fields[1].fields[2]`, the first treasury, lacks a field.
pub proof fn lemma_datum_without_treasury(datum: PlutusData)
    requires
        quantity_at(datum, seq![1usize, 2usize]) is None,
    ensures
        wr_pool_assets(datum) is Err,
{
}

} // verus!
