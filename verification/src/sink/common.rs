//! What the interpreters share: the contract they all meet, quantities on outputs, the fixed
//! ADA amounts that protocols hold back, and the search for a datum or an output.

use crate::config::PoolConfig;
use crate::datum::{bytes_at, InterpretError, InterpretErrorView, PlutusData};
use crate::hex_codec::{decode, hex_decoded, is_hex_text};
use crate::search::{
    first_where, is_first_where, lemma_first_where_found, lemma_first_where_missing,
};
use crate::utils::{get_payment_hash, payment_hash};
use crate::model::{
    text_of, OutputAssetView, PlutusDatumRecord, TransactionRecord, TxOutputRecord, TxOutputView,
};
use crate::types::{Asset, AssetAmount, AssetAmountView, AssetView, Swap, SwapView};
use vstd::prelude::*;

verus! {

/// What an optional pair of amounts is.
pub open spec fn pair_view(pair: Option<(AssetAmount, AssetAmount)>) -> Option<
    (AssetAmountView, AssetAmountView),
> {
    match pair {
        Some((first, second)) => Some((first@, second@)),
        None => None,
    }
}

/// What the outcome of reading swaps is.
pub open spec fn swaps_view(outcome: Result<Vec<Swap>, InterpretError>) -> Result<
    Seq<SwapView>,
    InterpretErrorView,
> {
    match outcome {
        Ok(swaps) => Ok(swaps.deep_view()),
        Err(error) => Err(error@),
    }
}

/// An interpreter of one protocol: what a transaction says about a pool.
pub trait Dex {
    /// The pool's reserves after the transaction, if the transaction touches the pool.
    spec fn mean_value_of(&self, pool: PoolConfig, transaction: TransactionRecord) -> Option<
        (AssetAmountView, AssetAmountView),
    >;

    /// The swaps that the transaction executes against the pool, given the outputs that its
    /// inputs spend, or the reason why the transaction cannot be read.
    spec fn swaps_of(
        &self,
        pool: PoolConfig,
        transaction: TransactionRecord,
        inputs: Seq<Option<TxOutputView>>,
    ) -> Result<Seq<SwapView>, InterpretErrorView>;

    fn mean_value(&self, pool: &PoolConfig, transaction: &TransactionRecord) -> (pair: Option<
        (AssetAmount, AssetAmount),
    >)
        ensures
            pair_view(pair) == self.mean_value_of(*pool, *transaction),
    ;

    fn swaps(
        &self,
        pool: &PoolConfig,
        transaction: &TransactionRecord,
        inputs: &Vec<Option<TxOutputRecord>>,
    ) -> (outcome: Result<Vec<Swap>, InterpretError>)
        ensures
            swaps_view(outcome) == self.swaps_of(*pool, *transaction, inputs.deep_view()),
    ;
}

/// Whether policy and name are those of ADA: both empty.
pub open spec fn is_ada(policy_id: Seq<char>, asset: Seq<char>) -> bool {
    policy_id.len() == 0 && asset.len() == 0
}

/// Whether an asset on an output is the one with this policy and name.
pub open spec fn is_asset(held: OutputAssetView, policy_id: Seq<char>, asset: Seq<char>) -> bool {
    held.asset == asset && held.policy == policy_id
}

/// The sum of the quantities of the assets with this policy and name.
pub open spec fn asset_total(
    assets: Seq<OutputAssetView>,
    policy_id: Seq<char>,
    asset: Seq<char>,
) -> nat
    decreases assets.len(),
{
    if assets.len() == 0 {
        0
    } else {
        asset_total(assets.drop_last(), policy_id, asset) + if is_asset(
            assets.last(),
            policy_id,
            asset,
        ) {
            assets.last().amount as nat
        } else {
            0
        }
    }
}

/// The quantity of an asset on an output: its ADA for the empty policy and name, else the sum
/// over the assets with that policy and name.
pub open spec fn amount_of(output: TxOutputView, policy_id: Seq<char>, asset: Seq<char>) -> nat {
    if is_ada(policy_id, asset) {
        output.amount as nat
    } else {
        asset_total(output.assets, policy_id, asset)
    }
}

/// `str`'s `==`: whether two texts hold the same characters.
#[verifier::external_body]
pub(crate) fn text_eq(a: &str, b: &str) -> (same: bool)
    ensures
        same == (a@ == b@),
{
    a == b
}

/// The quantity of an asset on an output, or `None` where the sum does not fit in 64 bits.
pub fn checked_amount(output: &TxOutputRecord, policy_id: &str, asset: &str) -> (amount: Option<
    u64,
>)
    ensures
        amount.is_some() == (amount_of(output@, policy_id@, asset@) <= u64::MAX),
        amount matches Some(a) ==> a == amount_of(output@, policy_id@, asset@),
{
    if asset.is_empty() && policy_id.is_empty() {
        return Some(output.amount);
    }
    let mut sum: u64 = 0;
    let mut i: usize = 0;
    while i < output.assets.len()
        invariant
            i <= output.assets@.len(),
            !is_ada(policy_id@, asset@),
            sum == asset_total(output@.assets.take(i as int), policy_id@, asset@),
        decreases output.assets@.len() - i,
    {
        let held = &output.assets[i];
        proof {
            assert(output@.assets.take(i as int + 1).drop_last() =~= output@.assets.take(i as int));
            assert(output@.assets.take(i as int + 1).last() == output.assets@[i as int]@);
        }
        if text_eq(held.asset.as_str(), asset) && text_eq(held.policy.as_str(), policy_id) {
            match sum.checked_add(held.amount) {
                Some(next) => {
                    sum = next;
                },
                None => {
                    proof {
                        lemma_asset_total_grows(
                            output@.assets,
                            i as int + 1,
                            policy_id@,
                            asset@,
                        );
                    }
                    return None;
                },
            }
        }
        i = i + 1;
    }
    assert(output@.assets.take(output.assets@.len() as int) =~= output@.assets);
    Some(sum)
}

/// The sum over a beginning of the assets is at most the sum over all of them.
pub proof fn lemma_asset_total_grows(
    assets: Seq<OutputAssetView>,
    len: int,
    policy_id: Seq<char>,
    asset: Seq<char>,
)
    requires
        0 <= len <= assets.len(),
    ensures
        asset_total(assets.take(len), policy_id, asset) <= asset_total(assets, policy_id, asset),
    decreases assets.len(),
{
    if len == assets.len() {
        assert(assets.take(len) =~= assets);
    } else {
        assert(assets.drop_last().take(len) =~= assets.take(len));
        lemma_asset_total_grows(assets.drop_last(), len, policy_id, asset);
    }
}

/// The quantity of an asset on an output.
pub fn get_amount(output: &TxOutputRecord, policy_id: &str, asset: &str) -> (amount: u64)
    requires
        amount_of(output@, policy_id@, asset@) <= u64::MAX,
    ensures
        amount == amount_of(output@, policy_id@, asset@),
{
    match checked_amount(output, policy_id, asset) {
        Some(amount) => amount,
        None => 0,
    }
}

/// What a protocol holds back of an asset: `amount` of ADA, nothing of any other asset.
pub open spec fn reduced(policy_id: Seq<char>, asset: Seq<char>, amount: u64) -> u64 {
    if is_ada(policy_id, asset) {
        amount
    } else {
        0
    }
}

/// What a protocol holds back of an asset: `amount` of ADA, nothing of any other asset.
pub fn reduce_ada_amount(policy_id: &str, asset: &str, amount: u64) -> (held_back: u64)
    ensures
        held_back == reduced(policy_id@, asset@, amount),
{
    if policy_id.is_empty() && asset.is_empty() {
        return amount;
    }
    0
}

/// What is left of an asset on an output once `treasury`, and `fee` if the asset is ADA, are
/// taken off; `None` where the output holds less than that.
pub open spec fn net_amount(
    output: TxOutputView,
    asset: AssetView,
    treasury: u64,
    fee: u64,
) -> Option<
    u64,
> {
    let held = amount_of(output, asset.policy_id, asset.name);
    let taken = treasury + reduced(asset.policy_id, asset.name, fee);
    if held <= u64::MAX && taken <= held {
        Some((held - taken) as u64)
    } else {
        None
    }
}

/// What is left of an asset on an output once `treasury`, and `fee` if the asset is ADA, are
/// taken off.
pub fn get_net_amount(
    output: &TxOutputRecord,
    asset: &Asset,
    treasury: u64,
    fee: u64,
) -> (left: Option<
    u64,
>)
    ensures
        left == net_amount(output@, asset@, treasury, fee),
{
    let held = match checked_amount(output, asset.policy_id.as_str(), asset.name.as_str()) {
        Some(held) => held,
        None => {
            return None;
        },
    };
    let fee = reduce_ada_amount(asset.policy_id.as_str(), asset.name.as_str(), fee);
    let taken = match treasury.checked_add(fee) {
        Some(taken) => taken,
        None => {
            return None;
        },
    };
    if taken <= held {
        Some(held - taken)
    } else {
        None
    }
}

/// The two amounts of a swap between an order's input and the output that answers it. With
/// `input_first` the first asset is read from the input and the second from the output;
/// otherwise the other way round. What is read from the input loses `fee_in`, what is read
/// from the output loses `fee_out`, each only where the asset is ADA.
pub open spec fn swap_amounts(
    input: TxOutputView,
    output: TxOutputView,
    first: AssetView,
    second: AssetView,
    input_first: bool,
    fee_in: u64,
    fee_out: u64,
) -> Option<(u64, u64)> {
    let (amount1, amount2) = if input_first {
        (net_amount(input, first, 0, fee_in), net_amount(output, second, 0, fee_out))
    } else {
        (net_amount(output, first, 0, fee_out), net_amount(input, second, 0, fee_in))
    };
    match (amount1, amount2) {
        (Some(a1), Some(a2)) => Some((a1, a2)),
        _ => None,
    }
}

/// The swap between an order's input and the output that answers it.
pub open spec fn swap_between(
    input: TxOutputView,
    output: TxOutputView,
    first: AssetView,
    second: AssetView,
    input_first: bool,
    direction: bool,
    fee_in: u64,
    fee_out: u64,
) -> Result<SwapView, InterpretErrorView> {
    match swap_amounts(input, output, first, second, input_first, fee_in, fee_out) {
        Some((amount1, amount2)) => Ok(
            SwapView {
                first: AssetAmountView { asset: first, amount: amount1 },
                second: AssetAmountView { asset: second, amount: amount2 },
                direction,
            },
        ),
        None => Err(InterpretErrorView::Amount),
    }
}

/// The swap between an order's input and the output that answers it, or `Amount` where an
/// output holds less than what the protocol holds back.
pub fn get_swap_between(
    input: &TxOutputRecord,
    output: &TxOutputRecord,
    first: &Asset,
    second: &Asset,
    input_first: bool,
    direction: bool,
    fee_in: u64,
    fee_out: u64,
) -> (swap: Result<Swap, InterpretError>)
    ensures
        swap.is_ok() == swap_between(
            input@,
            output@,
            first@,
            second@,
            input_first,
            direction,
            fee_in,
            fee_out,
        ).is_ok(),
        swap matches Ok(s) ==> Ok::<SwapView, InterpretErrorView>(s@) == swap_between(
            input@,
            output@,
            first@,
            second@,
            input_first,
            direction,
            fee_in,
            fee_out,
        ),
        swap matches Err(error) ==> error@ == InterpretErrorView::Amount,
{
    let (amount1, amount2) = if input_first {
        (get_net_amount(input, first, 0, fee_in), get_net_amount(output, second, 0, fee_out))
    } else {
        (get_net_amount(output, first, 0, fee_out), get_net_amount(input, second, 0, fee_in))
    };
    match (amount1, amount2) {
        (Some(a1), Some(a2)) => Ok(
            Swap {
                first: AssetAmount { asset: first.clone(), amount: a1 },
                second: AssetAmount { asset: second.clone(), amount: a2 },
                direction,
            },
        ),
        _ => Err(InterpretError::Amount),
    }
}

/// Whether a datum is carried under `hash`.
pub open spec fn has_hash(hash: Seq<char>) -> spec_fn(PlutusDatumRecord) -> bool {
    |record: PlutusDatumRecord| record.datum_hash@ == hash
}

/// The datum that a transaction carries under `hash`: the first one of that hash.
pub open spec fn datum_of(transaction: TransactionRecord, hash: Option<Seq<char>>) -> Option<
    PlutusData,
> {
    match hash {
        Some(hash) => match first_where(transaction.plutus_data@, has_hash(hash)) {
            Some(i) => Some(transaction.plutus_data@[i].plutus_data),
            None => None,
        },
        None => None,
    }
}

/// The datum that a transaction carries under `hash`.
pub fn find_datum<'a>(transaction: &'a TransactionRecord, hash: &Option<String>) -> (datum: Option<
    &'a PlutusData,
>)
    ensures
        datum.is_some() == datum_of(*transaction, text_of(*hash)).is_some(),
        datum matches Some(d) ==> Some(*d) == datum_of(*transaction, text_of(*hash)),
{
    match hash {
        Some(text) => {
            let ghost wanted = has_hash(text@);
            let mut i: usize = 0;
            while i < transaction.plutus_data.len()
                invariant
                    i <= transaction.plutus_data@.len(),
                    *hash == Some(*text),
                    wanted == has_hash(text@),
                    forall|j: int|
                        0 <= j < i ==> !wanted(#[trigger] transaction.plutus_data@[j]),
                decreases transaction.plutus_data@.len() - i,
            {
                if text_eq(transaction.plutus_data[i].datum_hash.as_str(), text.as_str()) {
                    proof {
                        assert(wanted(transaction.plutus_data@[i as int]));
                        assert(is_first_where(transaction.plutus_data@, wanted, i as int));
                        lemma_first_where_found(transaction.plutus_data@, wanted, i as int);
                    }
                    return Some(&transaction.plutus_data[i].plutus_data);
                }
                i = i + 1;
            }
            proof {
                lemma_first_where_missing(transaction.plutus_data@, wanted);
            }
            None
        },
        None => None,
    }
}

/// Whether two byte strings are the same.
pub fn bytes_eq(a: &Vec<u8>, b: &Vec<u8>) -> (same: bool)
    ensures
        same == (a@ == b@),
{
    if a.len() != b.len() {
        return false;
    }
    let mut i: usize = 0;
    while i < a.len()
        invariant
            i <= a@.len(),
            a@.len() == b@.len(),
            a@.take(i as int) == b@.take(i as int),
        decreases a@.len() - i,
    {
        if a[i] != b[i] {
            return false;
        }
        assert(a@.take(i as int + 1) =~= a@.take(i as int).push(a@[i as int]));
        assert(b@.take(i as int + 1) =~= b@.take(i as int).push(b@[i as int]));
        i = i + 1;
    }
    assert(a@.take(a@.len() as int) =~= a@);
    assert(b@.take(b@.len() as int) =~= b@);
    true
}

/// The asset whose policy and name a datum holds at two paths, or the first path at which the
/// datum holds no byte string.
pub open spec fn asset_at(
    datum: PlutusData,
    policy_path: Seq<usize>,
    name_path: Seq<usize>,
) -> Result<
    AssetView,
    InterpretErrorView,
> {
    match bytes_at(datum, policy_path) {
        None => Err(InterpretErrorView::DatumShape(policy_path)),
        Some(policy_id) => match bytes_at(datum, name_path) {
            None => Err(InterpretErrorView::DatumShape(name_path)),
            Some(name) => Ok(AssetView { policy_id, name }),
        },
    }
}

/// The asset whose policy and name a datum holds at two paths.
pub fn read_asset(datum: &PlutusData, policy_path: &[usize], name_path: &[usize]) -> (asset: Result<
    Asset,
    InterpretError,
>)
    ensures
        asset.is_ok() == asset_at(*datum, policy_path@, name_path@).is_ok(),
        asset matches Ok(a) ==> Ok::<AssetView, InterpretErrorView>(a@) == asset_at(
            *datum,
            policy_path@,
            name_path@,
        ),
        asset matches Err(error) ==> Err::<AssetView, InterpretErrorView>(error@) == asset_at(
            *datum,
            policy_path@,
            name_path@,
        ),
{
    let policy_id = match datum.bytes_at(policy_path) {
        Ok(text) => text,
        Err(error) => {
            return Err(error);
        },
    };
    let name = match datum.bytes_at(name_path) {
        Ok(text) => text,
        Err(error) => {
            return Err(error);
        },
    };
    Ok(Asset { policy_id, name })
}

/// Whether an output is paid to the credential with this hash.
pub open spec fn pays_to(hash: Seq<u8>) -> spec_fn(TxOutputRecord) -> bool {
    |output: TxOutputRecord| payment_hash(output.address@) == Some(hash)
}

/// The position of the first output paid to the credential whose hash is given in
/// hexadecimal; none where the text is no hexadecimal.
pub open spec fn output_paying_to(outputs: Seq<TxOutputRecord>, hash: Seq<char>) -> Option<int> {
    if is_hex_text(hash) {
        first_where(outputs, pays_to(hex_decoded(hash)))
    } else {
        None
    }
}

/// Whether the address pays to the credential with this hash.
pub fn address_pays_to(address: &str, hash: &Vec<u8>) -> (pays: bool)
    ensures
        pays == (payment_hash(address@) == Some(hash@)),
{
    match get_payment_hash(address) {
        Some(found) => bytes_eq(&found, hash),
        None => false,
    }
}

/// The position of the first output paid to the credential whose hash is given in hexadecimal.
pub fn find_output_paying_to(outputs: &Vec<TxOutputRecord>, hash: &str) -> (found: Option<usize>)
    ensures
        found.is_some() == output_paying_to(outputs@, hash@).is_some(),
        found matches Some(i) ==> Some(i as int) == output_paying_to(outputs@, hash@) && i
            < outputs@.len(),
{
    let wanted_hash = match decode(hash) {
        Some(bytes) => bytes,
        None => {
            return None;
        },
    };
    let ghost wanted = pays_to(wanted_hash@);
    let mut i: usize = 0;
    while i < outputs.len()
        invariant
            i <= outputs@.len(),
            is_hex_text(hash@),
            wanted_hash@ == hex_decoded(hash@),
            wanted == pays_to(wanted_hash@),
            forall|j: int| 0 <= j < i ==> !wanted(#[trigger] outputs@[j]),
        decreases outputs@.len() - i,
    {
        if address_pays_to(outputs[i].address.as_str(), &wanted_hash) {
            proof {
                assert(wanted(outputs@[i as int]));
                assert(is_first_where(outputs@, wanted, i as int));
                lemma_first_where_found(outputs@, wanted, i as int);
            }
            return Some(i);
        }
        i = i + 1;
    }
    proof {
        lemma_first_where_missing(outputs@, wanted);
    }
    None
}

/// Whether an output lies at this address.
pub open spec fn lies_at(address: Seq<char>) -> spec_fn(TxOutputRecord) -> bool {
    |output: TxOutputRecord| output.address@ == address
}

/// The position of the first output at this address.
pub fn find_output_at(outputs: &Vec<TxOutputRecord>, address: &str) -> (found: Option<usize>)
    ensures
        found.is_some() == first_where(outputs@, lies_at(address@)).is_some(),
        found matches Some(i) ==> Some(i as int) == first_where(outputs@, lies_at(address@)) && i
            < outputs@.len(),
{
    let ghost wanted = lies_at(address@);
    let mut i: usize = 0;
    while i < outputs.len()
        invariant
            i <= outputs@.len(),
            wanted == lies_at(address@),
            forall|j: int| 0 <= j < i ==> !wanted(#[trigger] outputs@[j]),
        decreases outputs@.len() - i,
    {
        if text_eq(outputs[i].address.as_str(), address) {
            proof {
                assert(wanted(outputs@[i as int]));
                assert(is_first_where(outputs@, wanted, i as int));
                lemma_first_where_found(outputs@, wanted, i as int);
            }
            return Some(i);
        }
        i = i + 1;
    }
    proof {
        lemma_first_where_missing(outputs@, wanted);
    }
    None
}

/// The quantities of two assets on an output, or nothing where one does not fit in 64 bits.
pub open spec fn held_pair(output: TxOutputView, first: AssetView, second: AssetView) -> Option<
    (AssetAmountView, AssetAmountView),
> {
    match (net_amount(output, first, 0, 0), net_amount(output, second, 0, 0)) {
        (Some(amount1), Some(amount2)) => Some(
            (
                AssetAmountView { asset: first, amount: amount1 },
                AssetAmountView { asset: second, amount: amount2 },
            ),
        ),
        _ => None,
    }
}

/// The quantities of two assets on an output.
pub fn get_held_pair(output: &TxOutputRecord, first: Asset, second: Asset) -> (pair: Option<
    (AssetAmount, AssetAmount),
>)
    ensures
        pair_view(pair) == held_pair(output@, first@, second@),
{
    let amount1 = get_net_amount(output, &first, 0, 0);
    let amount2 = get_net_amount(output, &second, 0, 0);
    match (amount1, amount2) {
        (Some(amount1), Some(amount2)) => Some(
            (
                AssetAmount { asset: first, amount: amount1 },
                AssetAmount { asset: second, amount: amount2 },
            ),
        ),
        _ => None,
    }
}

/// Whether `i` is the first output at `address` that no order has taken yet.
pub open spec fn is_first_free(
    outputs: Seq<TxOutputRecord>,
    taken: Seq<bool>,
    address: Seq<char>,
    i: int,
) -> bool {
    &&& 0 <= i < outputs.len()
    &&& !taken[i]
    &&& outputs[i].address@ == address
    &&& forall|j: int| 0 <= j < i ==> taken[j] || (#[trigger] outputs[j]).address@ != address
}

/// The first output at `address` that no order has taken yet.
pub open spec fn first_free(
    outputs: Seq<TxOutputRecord>,
    taken: Seq<bool>,
    address: Seq<char>,
) -> Option<
    int,
> {
    if exists|i: int| is_first_free(outputs, taken, address, i) {
        Some(choose|i: int| is_first_free(outputs, taken, address, i))
    } else {
        None
    }
}

/// The first output at `address` that no order has taken yet.
pub fn find_free_output(outputs: &Vec<TxOutputRecord>, taken: &Vec<bool>, address: &str) -> (found:
    Option<usize>)
    requires
        taken@.len() == outputs@.len(),
    ensures
        found.is_some() == first_free(outputs@, taken@, address@).is_some(),
        found matches Some(i) ==> Some(i as int) == first_free(outputs@, taken@, address@)
            && is_first_free(outputs@, taken@, address@, i as int),
{
    let mut i: usize = 0;
    while i < outputs.len()
        invariant
            i <= outputs@.len(),
            taken@.len() == outputs@.len(),
            forall|j: int|
                0 <= j < i ==> taken@[j] || (#[trigger] outputs@[j]).address@ != address@,
        decreases outputs@.len() - i,
    {
        if !taken[i] && text_eq(outputs[i].address.as_str(), address) {
            proof {
                assert(is_first_free(outputs@, taken@, address@, i as int));
                let k = choose|k: int| is_first_free(outputs@, taken@, address@, k);
                assert(is_first_free(outputs@, taken@, address@, k));
                if k < i {
                    assert(taken@[k] || outputs@[k].address@ != address@);
                }
                if i < k {
                    assert(taken@[i as int] || outputs@[i as int].address@ != address@);
                }
            }
            return Some(i);
        }
        i = i + 1;
    }
    proof {
        if exists|k: int| is_first_free(outputs@, taken@, address@, k) {
            let k = choose|k: int| is_first_free(outputs@, taken@, address@, k);
            assert(taken@[k] || outputs@[k].address@ != address@);
        }
    }
    None
}

/// The swap of an order that is answered at `address`: the first output there that no order
/// has taken answers it and is taken from then on. An order that no output answers is an
/// error.
pub open spec fn answered_swap(
    outputs: Seq<TxOutputRecord>,
    taken: Seq<bool>,
    input: TxOutputView,
    address: Seq<char>,
    first: AssetView,
    second: AssetView,
    input_first: bool,
    direction: bool,
    fee_in: u64,
    fee_out: u64,
) -> Result<(SwapView, Seq<bool>), InterpretErrorView> {
    match first_free(outputs, taken, address) {
        None => Err(InterpretErrorView::IndexOutOfBounds),
        Some(at) => match swap_between(
            input,
            outputs[at]@,
            first,
            second,
            input_first,
            direction,
            fee_in,
            fee_out,
        ) {
            Err(error) => Err(error),
            Ok(swap) => Ok((swap, taken.update(at, true))),
        },
    }
}

/// What the outcome of reading one order is, with the outputs taken so far.
pub open spec fn step_view(
    outcome: Result<Option<Swap>, InterpretError>,
    taken: Seq<bool>,
) -> Result<
    (Option<SwapView>, Seq<bool>),
    InterpretErrorView,
> {
    match outcome {
        Ok(Some(swap)) => Ok((Some(swap@), taken)),
        Ok(None) => Ok((None, taken)),
        Err(error) => Err(error@),
    }
}

/// The swap of an order that is answered at `address`; the output that answers it is marked
/// as taken.
pub fn answer_order(
    outputs: &Vec<TxOutputRecord>,
    taken: &mut Vec<bool>,
    input: &TxOutputRecord,
    address: &str,
    first: &Asset,
    second: &Asset,
    input_first: bool,
    direction: bool,
    fee_in: u64,
    fee_out: u64,
) -> (swap: Result<Swap, InterpretError>)
    requires
        old(taken)@.len() == outputs@.len(),
    ensures
        final(taken)@.len() == outputs@.len(),
        match swap {
            Ok(s) => Ok::<(SwapView, Seq<bool>), InterpretErrorView>((s@, final(taken)@)),
            Err(error) => Err::<(SwapView, Seq<bool>), InterpretErrorView>(error@),
        } == answered_swap(
            outputs@,
            old(taken)@,
            input@,
            address@,
            first@,
            second@,
            input_first,
            direction,
            fee_in,
            fee_out,
        ),
{
    let at = match find_free_output(outputs, taken, address) {
        Some(at) => at,
        None => {
            return Err(InterpretError::IndexOutOfBounds);
        },
    };
    match get_swap_between(
        input,
        &outputs[at],
        first,
        second,
        input_first,
        direction,
        fee_in,
        fee_out,
    ) {
        Err(error) => Err(error),
        Ok(swap) => {
            taken.set(at, true);
            Ok(swap)
        },
    }
}

/// As many marks as there are outputs, none of them set.
pub fn none_taken(outputs: &Vec<TxOutputRecord>) -> (taken: Vec<bool>)
    ensures
        taken@ == Seq::new(outputs@.len(), |i: int| false),
{
    let mut taken: Vec<bool> = Vec::new();
    let mut i: usize = 0;
    while i < outputs.len()
        invariant
            i <= outputs@.len(),
            taken@ == Seq::new(i as nat, |k: int| false),
        decreases outputs@.len() - i,
    {
        taken.push(false);
        assert(taken@ =~= Seq::new((i + 1) as nat, |k: int| false));
        i = i + 1;
    }
    taken
}

pub(crate) fn path1(a: usize) -> (path: Vec<usize>)
    ensures
        path@ == seq![a],
{
    let path = vec![a];
    assert(path@ =~= seq![a]);
    path
}

pub(crate) fn path2(a: usize, b: usize) -> (path: Vec<usize>)
    ensures
        path@ == seq![a, b],
{
    let path = vec![a, b];
    assert(path@ =~= seq![a, b]);
    path
}

pub(crate) fn path3(a: usize, b: usize, c: usize) -> (path: Vec<usize>)
    ensures
        path@ == seq![a, b, c],
{
    let path = vec![a, b, c];
    assert(path@ =~= seq![a, b, c]);
    path
}

pub(crate) fn path4(a: usize, b: usize, c: usize, d: usize) -> (path: Vec<usize>)
    ensures
        path@ == seq![a, b, c, d],
{
    let path = vec![a, b, c, d];
    assert(path@ =~= seq![a, b, c, d]);
    path
}

pub(crate) fn path5(a: usize, b: usize, c: usize, d: usize, e: usize) -> (path: Vec<usize>)
    ensures
        path@ == seq![a, b, c, d, e],
{
    let path = vec![a, b, c, d, e];
    assert(path@ =~= seq![a, b, c, d, e]);
    path
}

pub(crate) fn path7(a: usize, b: usize, c: usize, d: usize, e: usize, f: usize, g: usize) -> (path:
    Vec<usize>)
    ensures
        path@ == seq![a, b, c, d, e, f, g],
{
    let path = vec![a, b, c, d, e, f, g];
    assert(path@ =~= seq![a, b, c, d, e, f, g]);
    path
}

} // verus!
