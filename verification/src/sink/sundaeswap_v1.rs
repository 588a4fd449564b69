//! The interpreter of SundaeSwap pools of the first version.
//!
//! A pool is found by its address. Its datum names its two assets; the reserves are what the
//! pool's output holds of them. An order is an input paid to the protocol's order script; its
//! datum names the credentials of whoever receives the result, and the direction. The output
//! that answers an order is the first one at the receiver's address that no earlier order has
//! taken.

use crate::config::{PoolConfig, SundaeSwap};
use crate::datum::{bytes_at, constructor_at, InterpretError, InterpretErrorView, PlutusData};
use crate::hex_codec::{decode, hex_decoded, is_hex_text};
use crate::model::{TransactionRecord, TxOutputRecord, TxOutputView};
use crate::search::{first_where};
use crate::sink::common::{
    address_pays_to, answer_order, answered_swap, asset_at, datum_of, find_datum, find_output_at,
    get_held_pair, held_pair, lies_at, none_taken, pair_view, path1, path2, path3, path5, path7,
    read_asset, step_view, swaps_view, Dex,
};
use crate::sink::minswap_v1::{assets_view, text_view};
use crate::types::{Asset, AssetAmount, AssetAmountView, AssetView, Swap, SwapView};
use crate::utils::{address_of_credentials, get_address_of_credentials, payment_hash};
use vstd::prelude::*;

verus! {

/// The ADA that an order's input holds beyond what is swapped.
pub const SS1_ADA_SWAP_IN: u64 = 4_500_000;

/// The ADA that an answering output holds beyond what was swapped.
pub const SS1_ADA_SWAP_OUT: u64 = 2_000_000;

/// The two assets of a pool as the pool's datum declares them: the first at
/// `fields[0].fields[0]`, the second at `fields[0].fields[1]`, each a policy at its own
/// `fields[0]` and a name at its `fields[1]`.
pub open spec fn ss_pool_assets(
    datum: PlutusData,
) -> Result<(AssetView, AssetView), InterpretErrorView> {
    match asset_at(datum, seq![0usize, 0usize, 0usize], seq![0usize, 0usize, 1usize]) {
        Err(error) => Err(error),
        Ok(first) => match asset_at(datum, seq![0usize, 1usize, 0usize], seq![0usize, 1usize, 1usize]) {
            Err(error) => Err(error),
            Ok(second) => Ok((first, second)),
        },
    }
}

/// The two assets of a pool, read from the pool's datum.
pub fn extract_plutus(datum: &PlutusData) -> (assets: Result<(Asset, Asset), InterpretError>)
    ensures
        assets_view(assets) == ss_pool_assets(*datum),
{
    let first = match read_asset(datum, path3(0, 0, 0).as_slice(), path3(0, 0, 1).as_slice()) {
        Ok(asset) => asset,
        Err(error) => {
            return Err(error);
        },
    };
    let second = match read_asset(datum, path3(0, 1, 0).as_slice(), path3(0, 1, 1).as_slice()) {
        Ok(asset) => asset,
        Err(error) => {
            return Err(error);
        },
    };
    Ok((first, second))
}

/// The address of an order's receiver: the mainnet key address whose payment credential
/// stands at `fields[1].fields[0].fields[0].fields[0].fields[0]` of the order's datum and whose
/// stake credential stands at `fields[1].fields[0].fields[0].fields[1].fields[0].fields[0].fields[0]`.
/// Where the two credentials make no address, the error names `fields[1]`.
pub open spec fn ss_receiver(datum: PlutusData) -> Result<Seq<char>, InterpretErrorView> {
    match bytes_at(datum, seq![1usize, 0usize, 0usize, 0usize, 0usize]) {
        None => Err(InterpretErrorView::DatumShape(seq![1usize, 0usize, 0usize, 0usize, 0usize])),
        Some(payment) => match bytes_at(datum, seq![1usize, 0usize, 0usize, 1usize, 0usize, 0usize, 0usize]) {
            None => Err(
                InterpretErrorView::DatumShape(seq![1usize, 0usize, 0usize, 1usize, 0usize, 0usize, 0usize]),
            ),
            Some(stake) => match address_of_credentials(payment, stake) {
                None => Err(InterpretErrorView::DatumShape(seq![1usize])),
                Some(address) => Ok(address),
            },
        },
    }
}

/// The address of an order's receiver, read from the order's datum.
pub fn get_address_from_plutus(datum: &PlutusData) -> (address: Result<String, InterpretError>)
    ensures
        text_view(address) == ss_receiver(*datum),
{
    let payment = match datum.bytes_at(path5(1, 0, 0, 0, 0).as_slice()) {
        Ok(text) => text,
        Err(error) => {
            return Err(error);
        },
    };
    let stake = match datum.bytes_at(path7(1, 0, 0, 1, 0, 0, 0).as_slice()) {
        Ok(text) => text,
        Err(error) => {
            return Err(error);
        },
    };
    match get_address_of_credentials(payment.as_str(), stake.as_str()) {
        Some(address) => Ok(address),
        None => Err(InterpretError::DatumShape(path1(1))),
    }
}

/// The reserves of a pool after a transaction: what the first output at the pool's address
/// holds of the two assets that its datum declares. Absent where the transaction has no such
/// output or no datum for it, or the datum declares no two assets.
pub open spec fn ss_mean_value(pool: PoolConfig, transaction: TransactionRecord) -> Option<
    (AssetAmountView, AssetAmountView),
> {
    match first_where(transaction.outputs@, lies_at(pool.address@)) {
        None => None,
        Some(at) => match datum_of(transaction, transaction.outputs@[at]@.datum_hash) {
            None => None,
            Some(datum) => match ss_pool_assets(datum) {
                Err(_) => None,
                Ok((first, second)) => held_pair(transaction.outputs@[at]@, first, second),
            },
        },
    }
}

/// The swap of one order, given what its input spends and the outputs that earlier orders
/// have taken. An input that is not known, is not paid to the order script, has no datum in
/// the transaction, or whose `fields[3]` is no swap (its tag is not 0) gives no swap. The tag
/// of `fields[3].fields[0]` is the direction. With 0 the order sells: the first asset is read
/// from the input and the second from the answering output. Otherwise it buys, and they are
/// read the other way round.
pub open spec fn ss_order(
    transaction: TransactionRecord,
    order_hash: Seq<u8>,
    input: Option<TxOutputView>,
    taken: Seq<bool>,
    first: AssetView,
    second: AssetView,
) -> Result<(Option<SwapView>, Seq<bool>), InterpretErrorView> {
    match input {
        None => Ok((None, taken)),
        Some(input) => if payment_hash(input.address) != Some(order_hash) {
            Ok((None, taken))
        } else {
            match datum_of(transaction, input.datum_hash) {
                None => Ok((None, taken)),
                Some(order) => match constructor_at(order, seq![3usize]) {
                    None => Err(InterpretErrorView::DatumShape(seq![3usize])),
                    Some(operation) => if operation != 0 {
                        Ok((None, taken))
                    } else {
                        match ss_receiver(order) {
                            Err(error) => Err(error),
                            Ok(address) => match constructor_at(order, seq![3usize, 0usize]) {
                                None => Err(
                                    InterpretErrorView::DatumShape(seq![3usize, 0usize]),
                                ),
                                Some(direction) => match answered_swap(
                                    transaction.outputs@,
                                    taken,
                                    input,
                                    address,
                                    first,
                                    second,
                                    direction == 0,
                                    direction != 0,
                                    SS1_ADA_SWAP_IN,
                                    SS1_ADA_SWAP_OUT,
                                ) {
                                    Err(error) => Err(error),
                                    Ok((swap, taken)) => Ok((Some(swap), taken)),
                                },
                            },
                        }
                    },
                },
            }
        },
    }
}

/// The swaps of the first `count` inputs, in order, with the outputs that they have taken,
/// or the error of the first order that cannot be read.
pub open spec fn ss_orders(
    transaction: TransactionRecord,
    order_hash: Seq<u8>,
    inputs: Seq<Option<TxOutputView>>,
    first: AssetView,
    second: AssetView,
    count: int,
) -> Result<(Seq<SwapView>, Seq<bool>), InterpretErrorView>
    decreases count,
{
    if count <= 0 {
        Ok((Seq::empty(), Seq::new(transaction.outputs@.len(), |i: int| false)))
    } else {
        match ss_orders(transaction, order_hash, inputs, first, second, count - 1) {
            Err(error) => Err(error),
            Ok((swaps, taken)) => match ss_order(
                transaction,
                order_hash,
                inputs[count - 1],
                taken,
                first,
                second,
            ) {
                Err(error) => Err(error),
                Ok((None, taken)) => Ok((swaps, taken)),
                Ok((Some(swap), taken)) => Ok((swaps.push(swap), taken)),
            },
        }
    }
}

/// The swaps of a transaction, given the outputs that its inputs spend. The pool's assets are
/// those that the datum of the first output at the pool's address declares; without such an
/// output or its datum there are no swaps, and none either where the pool's order hash is no
/// hexadecimal text.
pub open spec fn ss_swaps(
    pool: PoolConfig,
    transaction: TransactionRecord,
    inputs: Seq<Option<TxOutputView>>,
) -> Result<Seq<SwapView>, InterpretErrorView> {
    match first_where(transaction.outputs@, lies_at(pool.address@)) {
        None => Ok(Seq::empty()),
        Some(at) => match datum_of(transaction, transaction.outputs@[at]@.datum_hash) {
            None => Ok(Seq::empty()),
            Some(datum) => match ss_pool_assets(datum) {
                Err(error) => Err(error),
                Ok((first, second)) => if is_hex_text(pool.request_hash@) {
                    match ss_orders(
                        transaction,
                        hex_decoded(pool.request_hash@),
                        inputs,
                        first,
                        second,
                        inputs.len() as int,
                    ) {
                        Err(error) => Err(error),
                        Ok((swaps, _)) => Ok(swaps),
                    }
                } else {
                    Ok(Seq::empty())
                },
            },
        },
    }
}

/// The reserves of a pool after a transaction.
pub fn ss_get_mean_value(pool: &PoolConfig, transaction: &TransactionRecord) -> (pair: Option<
    (AssetAmount, AssetAmount),
>)
    ensures
        pair_view(pair) == ss_mean_value(*pool, *transaction),
{
    match find_output_at(&transaction.outputs, pool.address.as_str()) {
        None => None,
        Some(at) => {
            let output = &transaction.outputs[at];
            match find_datum(transaction, &output.datum_hash) {
                None => None,
                Some(datum) => match extract_plutus(datum) {
                    Err(_) => None,
                    Ok((first, second)) => get_held_pair(output, first, second),
                },
            }
        },
    }
}

/// The swap of one order; the output that answers it is marked as taken.
pub fn ss_get_order_swap(
    transaction: &TransactionRecord,
    order_hash: &Vec<u8>,
    input: &Option<TxOutputRecord>,
    taken: &mut Vec<bool>,
    first: &Asset,
    second: &Asset,
) -> (outcome: Result<Option<Swap>, InterpretError>)
    requires
        old(taken)@.len() == transaction.outputs@.len(),
    ensures
        final(taken)@.len() == transaction.outputs@.len(),
        step_view(outcome, final(taken)@) == ss_order(
            *transaction,
            order_hash@,
            input.deep_view(),
            old(taken)@,
            first@,
            second@,
        ),
{
    let input = match input {
        Some(input) => input,
        None => {
            return Ok(None);
        },
    };
    if !address_pays_to(input.address.as_str(), order_hash) {
        return Ok(None);
    }
    let order = match find_datum(transaction, &input.datum_hash) {
        Some(order) => order,
        None => {
            return Ok(None);
        },
    };
    let operation = match order.constructor_at(path1(3).as_slice()) {
        Ok(tag) => tag,
        Err(error) => {
            return Err(error);
        },
    };
    if operation != 0 {
        return Ok(None);
    }
    let address = match get_address_from_plutus(order) {
        Ok(address) => address,
        Err(error) => {
            return Err(error);
        },
    };
    let direction = match order.constructor_at(path2(3, 0).as_slice()) {
        Ok(tag) => tag,
        Err(error) => {
            return Err(error);
        },
    };
    match answer_order(
        &transaction.outputs,
        taken,
        input,
        address.as_str(),
        first,
        second,
        direction == 0,
        direction != 0,
        SS1_ADA_SWAP_IN,
        SS1_ADA_SWAP_OUT,
    ) {
        Ok(swap) => Ok(Some(swap)),
        Err(error) => Err(error),
    }
}

/// Once an order cannot be read, the error stays whatever follows.
pub proof fn lemma_ss_orders_error_stays(
    transaction: TransactionRecord,
    order_hash: Seq<u8>,
    inputs: Seq<Option<TxOutputView>>,
    first: AssetView,
    second: AssetView,
    count: int,
    more: int,
)
    requires
        count <= more,
        ss_orders(transaction, order_hash, inputs, first, second, count) is Err,
    ensures
        ss_orders(transaction, order_hash, inputs, first, second, more) == ss_orders(
            transaction,
            order_hash,
            inputs,
            first,
            second,
            count,
        ),
    decreases more - count,
{
    if count < more {
        lemma_ss_orders_error_stays(
            transaction,
            order_hash,
            inputs,
            first,
            second,
            count,
            more - 1,
        );
    }
}

/// The swaps of a transaction, given the outputs that its inputs spend.
pub fn ss_get_swaps(
    pool: &PoolConfig,
    transaction: &TransactionRecord,
    inputs: &Vec<Option<TxOutputRecord>>,
) -> (outcome: Result<Vec<Swap>, InterpretError>)
    ensures
        swaps_view(outcome) == ss_swaps(*pool, *transaction, inputs.deep_view()),
{
    let mut swaps: Vec<Swap> = Vec::new();
    assert(swaps.deep_view() =~= Seq::<SwapView>::empty());
    let at = match find_output_at(&transaction.outputs, pool.address.as_str()) {
        Some(at) => at,
        None => {
            return Ok(swaps);
        },
    };
    let datum = match find_datum(transaction, &transaction.outputs[at].datum_hash) {
        Some(datum) => datum,
        None => {
            return Ok(swaps);
        },
    };
    let (first, second) = match extract_plutus(datum) {
        Ok(assets) => assets,
        Err(error) => {
            return Err(error);
        },
    };
    let order_hash = match decode(pool.request_hash.as_str()) {
        Some(bytes) => bytes,
        None => {
            return Ok(swaps);
        },
    };
    let mut taken = none_taken(&transaction.outputs);
    let ghost whole = ss_orders(
        *transaction,
        order_hash@,
        inputs.deep_view(),
        first@,
        second@,
        inputs@.len() as int,
    );
    let mut k: usize = 0;
    while k < inputs.len()
        invariant
            k <= inputs@.len(),
            taken@.len() == transaction.outputs@.len(),
            ss_swaps(*pool, *transaction, inputs.deep_view()) == match whole {
                Err(error) => Err::<Seq<SwapView>, InterpretErrorView>(error),
                Ok((all, _)) => Ok(all),
            },
            whole == ss_orders(
                *transaction,
                order_hash@,
                inputs.deep_view(),
                first@,
                second@,
                inputs@.len() as int,
            ),
            Ok::<(Seq<SwapView>, Seq<bool>), InterpretErrorView>((swaps.deep_view(), taken@))
                == ss_orders(*transaction, order_hash@, inputs.deep_view(), first@, second@, k as int),
        decreases inputs@.len() - k,
    {
        let ghost before = swaps.deep_view();
        match ss_get_order_swap(transaction, &order_hash, &inputs[k], &mut taken, &first, &second) {
            Err(error) => {
                proof {
                    lemma_ss_orders_error_stays(
                        *transaction,
                        order_hash@,
                        inputs.deep_view(),
                        first@,
                        second@,
                        k as int + 1,
                        inputs@.len() as int,
                    );
                }
                return Err(error);
            },
            Ok(None) => {},
            Ok(Some(swap)) => {
                swaps.push(swap);
                assert(swaps.deep_view() =~= before.push(swap@));
            },
        }
        k = k + 1;
    }
    Ok(swaps)
}

impl Dex for SundaeSwap {
    open spec fn mean_value_of(&self, pool: PoolConfig, transaction: TransactionRecord) -> Option<
        (AssetAmountView, AssetAmountView),
    > {
        ss_mean_value(pool, transaction)
    }

    open spec fn swaps_of(
        &self,
        pool: PoolConfig,
        transaction: TransactionRecord,
        inputs: Seq<Option<TxOutputView>>,
    ) -> Result<Seq<SwapView>, InterpretErrorView> {
        ss_swaps(pool, transaction, inputs)
    }

    fn mean_value(&self, pool: &PoolConfig, transaction: &TransactionRecord) -> (pair: Option<
        (AssetAmount, AssetAmount),
    >) {
        ss_get_mean_value(pool, transaction)
    }

    fn swaps(
        &self,
        pool: &PoolConfig,
        transaction: &TransactionRecord,
        inputs: &Vec<Option<TxOutputRecord>>,
    ) -> (outcome: Result<Vec<Swap>, InterpretError>) {
        ss_get_swaps(pool, transaction, inputs)
    }
}

} // verus!
