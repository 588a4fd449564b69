use cardano_price_feed::config::{Empty, MinSwapV1, PoolConfig, PoolType, SundaeSwap, WingRiders};
use cardano_price_feed::datum::{InterpretError, PlutusData};
use cardano_price_feed::model::{
    OutputAssetRecord, PlutusDatumRecord, PlutusRedeemerRecord, TransactionRecord, TxInputRecord,
    TxOutputRecord,
};
use cardano_price_feed::sink::common::Dex;
use cardano_price_feed::sink::minswap_v1::get_address_from_plutus;
use cardano_price_feed::sink::wingriders_v1::{wr_extract_plutus_assets, wr_get_reserves};
use cardano_price_feed::sink::{mean_value, swaps, try_swaps};
use cardano_price_feed::types::{AssetAmount, Swap};

const KEY_ADDRESS: &str = "addr1qx2fxv2umyhttkxyxp8x0dlpdt3k6cwng5pxj3jhsydzer3n0d3vllmyqwsx5wktcd8cc3sq835lu7drv2xwl2wywfgse35a3x";
const SCRIPT_ADDRESS: &str = "addr1w8phkx6acpnf78fuvxn0mkew3l0fd058hzquvz7w36x4gtcyjy7wx";
const ORDER_ADDRESS: &str = "addr1z8phkx6acpnf78fuvxn0mkew3l0fd058hzquvz7w36x4gten0d3vllmyqwsx5wktcd8cc3sq835lu7drv2xwl2wywfgs9yc0hh";
const OTHER_ADDRESS: &str = "addr1vx2fxv2umyhttkxyxp8x0dlpdt3k6cwng5pxj3jhsydzers66hrl8";
const PAYMENT_KEY_HASH: &str = "9493315cd92eb5d8c4304e67b7e16ae36d61d34502694657811a2c8e";
const STAKE_KEY_HASH: &str = "337b62cfff6403a06a3acbc34f8c46003c69fe79a3628cefa9c47251";
const SCRIPT_HASH: &str = "c37b1b5dc0669f1d3c61a6fddb2e8fde96be87b881c60bce8e8d542f";

fn constr(constructor: i64, fields: Vec<PlutusData>) -> PlutusData {
    PlutusData::Constr { constructor, fields }
}

fn bytes(text: &str) -> PlutusData {
    PlutusData::Bytes(text.to_string())
}

fn asset_node(policy: &str, name: &str) -> PlutusData {
    constr(0, vec![bytes(policy), bytes(name)])
}

fn pool(pool_type: PoolType) -> PoolConfig {
    PoolConfig {
        enable: true,
        script_hash: SCRIPT_HASH.to_string(),
        request_hash: SCRIPT_HASH.to_string(),
        vesting_hash: "".to_string(),
        address: SCRIPT_ADDRESS.to_string(),
        pool_type,
    }
}

fn output(address: &str, ada: u64, assets: Vec<(&str, &str, u64)>, datum_hash: Option<&str>) -> TxOutputRecord {
    TxOutputRecord {
        address: address.to_string(),
        amount: ada,
        assets: assets
            .into_iter()
            .map(|(policy, asset, amount)| OutputAssetRecord {
                policy: policy.to_string(),
                asset: asset.to_string(),
                amount,
            })
            .collect(),
        datum_hash: datum_hash.map(|hash| hash.to_string()),
    }
}

fn datum(hash: &str, data: PlutusData) -> PlutusDatumRecord {
    PlutusDatumRecord { datum_hash: hash.to_string(), plutus_data: data }
}

fn transaction(
    outputs: Vec<TxOutputRecord>,
    plutus_data: Vec<PlutusDatumRecord>,
    plutus_redeemers: Vec<PlutusRedeemerRecord>,
) -> TransactionRecord {
    TransactionRecord {
        hash: "00".to_string(),
        inputs: vec![
            TxInputRecord { tx_id: "aa".to_string(), index: 0 },
            TxInputRecord { tx_id: "aa".to_string(), index: 1 },
        ],
        outputs,
        plutus_data,
        plutus_redeemers,
    }
}

fn amounts(pair: &Option<(AssetAmount, AssetAmount)>) -> Option<((String, String, u64), (String, String, u64))> {
    pair.as_ref().map(|(first, second)| {
        (
            (first.asset.policy_id.clone(), first.asset.name.clone(), first.amount),
            (second.asset.policy_id.clone(), second.asset.name.clone(), second.amount),
        )
    })
}

fn s(text: &str) -> String {
    text.to_string()
}

fn swap_amounts(swaps: &Vec<Swap>) -> Vec<(u64, u64, bool)> {
    swaps.iter().map(|swap| (swap.first.amount, swap.second.amount, swap.direction)).collect()
}

// WingRiders

fn wr_pool_transaction(pool_datum: PlutusData) -> TransactionRecord {
    wr_pool_transaction_holding(1_003_000_005, pool_datum)
}

fn wr_pool_datum(t1: PlutusData, t2: PlutusData) -> PlutusData {
    constr(
        0,
        vec![
            PlutusData::Other,
            constr(
                0,
                vec![
                    constr(0, vec![asset_node("", ""), asset_node("aa", "bb")]),
                    PlutusData::Int(0),
                    t1,
                    t2,
                ],
            ),
        ],
    )
}

fn wr_pool_transaction_holding(ada: u64, pool_datum: PlutusData) -> TransactionRecord {
    transaction(
        vec![
            output(OTHER_ADDRESS, 9, vec![], None),
            output(SCRIPT_ADDRESS, ada, vec![("aa", "bb", 1_000)], Some("d1")),
        ],
        vec![datum("d0", PlutusData::Other), datum("d1", pool_datum)],
        vec![],
    )
}

#[test]
fn wingriders_mean_value_subtracts_treasury_and_deposit() {
    let tx = wr_pool_transaction_holding(
        3_000_005,
        wr_pool_datum(PlutusData::Int(2), PlutusData::Int(3)),
    );
    let pair = mean_value(&pool(PoolType::WingRiders), &tx);
    assert_eq!(amounts(&pair), Some(((s(""), s(""), 3), (s("aa"), s("bb"), 997))));
    let direct = WingRiders.mean_value(&pool(PoolType::WingRiders), &tx);
    assert_eq!(amounts(&direct), amounts(&pair));
}

#[test]
fn wingriders_mean_value_of_a_large_pool() {
    let tx = wr_pool_transaction(wr_pool_datum(PlutusData::Int(2), PlutusData::Int(3)));
    let pair = mean_value(&pool(PoolType::WingRiders), &tx);
    assert_eq!(amounts(&pair), Some(((s(""), s(""), 1_000_000_003), (s("aa"), s("bb"), 997))));
}

#[test]
fn wingriders_reserves_of_an_output_and_its_datum() {
    let tx = wr_pool_transaction(wr_pool_datum(PlutusData::Int(5), PlutusData::Int(0)));
    let pair = wr_get_reserves(&tx.outputs[1], &tx.plutus_data[1].plutus_data);
    assert_eq!(amounts(&pair), Some(((s(""), s(""), 1_000_000_000), (s("aa"), s("bb"), 1_000))));
}

#[test]
fn wingriders_mean_value_absent_without_pool_output() {
    let mut tx = wr_pool_transaction(wr_pool_datum(PlutusData::Int(2), PlutusData::Int(3)));
    tx.outputs[1].address = OTHER_ADDRESS.to_string();
    assert!(mean_value(&pool(PoolType::WingRiders), &tx).is_none());
}

#[test]
fn wingriders_mean_value_absent_without_datum() {
    let mut tx = wr_pool_transaction(wr_pool_datum(PlutusData::Int(2), PlutusData::Int(3)));
    tx.outputs[1].datum_hash = Some(s("d2"));
    assert!(mean_value(&pool(PoolType::WingRiders), &tx).is_none());
    tx.outputs[1].datum_hash = None;
    assert!(mean_value(&pool(PoolType::WingRiders), &tx).is_none());
}

#[test]
fn wingriders_mean_value_absent_for_datum_without_treasury() {
    let tx = wr_pool_transaction(wr_pool_datum(PlutusData::Other, PlutusData::Int(3)));
    assert!(mean_value(&pool(PoolType::WingRiders), &tx).is_none());
    match wr_extract_plutus_assets(&tx.plutus_data[1].plutus_data) {
        Err(InterpretError::DatumShape(path)) => assert_eq!(path, vec![1, 2]),
        other => panic!("{:?}", other),
    }
}

#[test]
fn wingriders_mean_value_absent_where_output_holds_too_little() {
    let tx = wr_pool_transaction(wr_pool_datum(PlutusData::Int(2), PlutusData::Int(1_001)));
    assert!(mean_value(&pool(PoolType::WingRiders), &tx).is_none());
    let tx = wr_pool_transaction(wr_pool_datum(PlutusData::Int(1_000_000_006), PlutusData::Int(3)));
    assert!(mean_value(&pool(PoolType::WingRiders), &tx).is_none());
}

#[test]
fn wingriders_mean_value_absent_for_hash_that_is_no_hexadecimal() {
    let tx = wr_pool_transaction(wr_pool_datum(PlutusData::Int(2), PlutusData::Int(3)));
    let mut config = pool(PoolType::WingRiders);
    config.script_hash = s("xyz");
    assert!(mean_value(&config, &tx).is_none());
}

fn wr_order_datum(operation: i64, direction: i64) -> PlutusData {
    constr(0, vec![PlutusData::Other, constr(operation, vec![constr(direction, vec![])])])
}

fn wr_redeemer(mother: i64, orders: Vec<i64>) -> PlutusRedeemerRecord {
    PlutusRedeemerRecord {
        input_idx: 0,
        plutus_data: constr(
            0,
            vec![
                PlutusData::Int(mother),
                PlutusData::Other,
                PlutusData::List(orders.into_iter().map(PlutusData::Int).collect()),
            ],
        ),
    }
}

fn wr_swap_transaction(order: PlutusData, orders: Vec<i64>) -> TransactionRecord {
    transaction(
        vec![
            output(SCRIPT_ADDRESS, 1_003_000_005, vec![("aa", "bb", 1_000)], Some("pool")),
            output(KEY_ADDRESS, 2_500_000, vec![("aa", "bb", 1_100)], None),
        ],
        vec![
            datum("pool", wr_pool_datum(PlutusData::Int(2), PlutusData::Int(3))),
            datum("order", order),
        ],
        vec![wr_redeemer(0, orders)],
    )
}

fn wr_inputs() -> Vec<Option<TxOutputRecord>> {
    vec![
        Some(output(SCRIPT_ADDRESS, 1_000_000_000, vec![("aa", "bb", 2_100)], Some("pool"))),
        Some(output(ORDER_ADDRESS, 5_000_000, vec![("aa", "bb", 70)], Some("order"))),
    ]
}

#[test]
fn wingriders_swap_buy() {
    let tx = wr_swap_transaction(wr_order_datum(0, 0), vec![1]);
    let found = swaps(&pool(PoolType::WingRiders), &tx, &wr_inputs());
    assert_eq!(swap_amounts(&found), vec![(1_000_000, 1_100, true)]);
    assert_eq!(found[0].first.asset.policy_id, "");
    assert_eq!(found[0].second.asset.policy_id, "aa");
    assert_eq!(found[0].second.asset.name, "bb");
}

#[test]
fn wingriders_swap_sell() {
    let tx = wr_swap_transaction(wr_order_datum(0, 1), vec![1]);
    let found = swaps(&pool(PoolType::WingRiders), &tx, &wr_inputs());
    assert_eq!(swap_amounts(&found), vec![(500_000, 70, false)]);
}

#[test]
fn wingriders_order_that_is_no_swap_is_skipped() {
    let tx = wr_swap_transaction(wr_order_datum(1, 0), vec![1]);
    assert_eq!(swap_amounts(&swaps(&pool(PoolType::WingRiders), &tx, &wr_inputs())), vec![]);
}

#[test]
fn wingriders_unknown_input_is_skipped() {
    let tx = wr_swap_transaction(wr_order_datum(0, 0), vec![1]);
    let mut inputs = wr_inputs();
    inputs[1] = None;
    assert_eq!(swap_amounts(&swaps(&pool(PoolType::WingRiders), &tx, &inputs)), vec![]);
}

#[test]
fn wingriders_without_redeemer_has_no_swaps() {
    let mut tx = wr_swap_transaction(wr_order_datum(0, 0), vec![1]);
    tx.plutus_redeemers = vec![];
    assert!(try_swaps(&pool(PoolType::WingRiders), &tx, &wr_inputs()).unwrap().is_empty());
}

#[test]
fn wingriders_order_outside_the_inputs_is_an_error() {
    let tx = wr_swap_transaction(wr_order_datum(0, 0), vec![2]);
    assert!(matches!(
        try_swaps(&pool(PoolType::WingRiders), &tx, &wr_inputs()),
        Err(InterpretError::IndexOutOfBounds)
    ));
    let tx = wr_swap_transaction(wr_order_datum(0, 0), vec![-1]);
    assert!(matches!(
        try_swaps(&pool(PoolType::WingRiders), &tx, &wr_inputs()),
        Err(InterpretError::IndexOutOfBounds)
    ));
    assert!(swaps(&pool(PoolType::WingRiders), &tx, &wr_inputs()).is_empty());
}

#[test]
fn wingriders_order_datum_without_direction_is_an_error() {
    let order = constr(0, vec![PlutusData::Other, constr(0, vec![])]);
    let tx = wr_swap_transaction(order, vec![1]);
    match try_swaps(&pool(PoolType::WingRiders), &tx, &wr_inputs()) {
        Err(InterpretError::DatumShape(path)) => assert_eq!(path, vec![1, 0]),
        other => panic!("{:?}", other),
    }
    assert!(swaps(&pool(PoolType::WingRiders), &tx, &wr_inputs()).is_empty());
}

#[test]
fn wingriders_input_with_too_little_ada_is_an_error() {
    let tx = wr_swap_transaction(wr_order_datum(0, 0), vec![1]);
    let mut inputs = wr_inputs();
    inputs[1].as_mut().unwrap().amount = 3_999_999;
    assert!(matches!(
        try_swaps(&pool(PoolType::WingRiders), &tx, &inputs),
        Err(InterpretError::Amount)
    ));
}

// MinSwap

fn ms_pool_datum() -> PlutusData {
    constr(0, vec![asset_node("", ""), asset_node("aa", "bb")])
}

fn receiver_fields() -> PlutusData {
    constr(
        0,
        vec![
            constr(0, vec![bytes(PAYMENT_KEY_HASH)]),
            constr(0, vec![constr(0, vec![constr(0, vec![bytes(STAKE_KEY_HASH)])])]),
        ],
    )
}

fn ms_order_datum(operation: i64, policy: &str, name: &str) -> PlutusData {
    constr(
        0,
        vec![
            PlutusData::Other,
            receiver_fields(),
            PlutusData::Other,
            constr(operation, vec![asset_node(policy, name), PlutusData::Int(1)]),
        ],
    )
}

fn ms_transaction(orders: Vec<(&str, PlutusData)>) -> TransactionRecord {
    let mut data = vec![datum("pool", ms_pool_datum())];
    for (hash, order) in orders {
        data.push(datum(hash, order));
    }
    transaction(
        vec![
            output(SCRIPT_ADDRESS, 50_000_000, vec![("aa", "bb", 9_000)], Some("pool")),
            output(KEY_ADDRESS, 2_000_000, vec![("aa", "bb", 400)], None),
            output(KEY_ADDRESS, 7_000_000, vec![], None),
        ],
        data,
        vec![],
    )
}

fn ms_pool() -> PoolConfig {
    let mut config = pool(PoolType::MinSwapV1);
    config.address = ORDER_ADDRESS.to_string();
    config
}

#[test]
fn minswap_mean_value_is_what_the_pool_output_holds() {
    let tx = ms_transaction(vec![]);
    let pair = mean_value(&ms_pool(), &tx);
    assert_eq!(amounts(&pair), Some(((s(""), s(""), 50_000_000), (s("aa"), s("bb"), 9_000))));
    assert_eq!(amounts(&MinSwapV1.mean_value(&ms_pool(), &tx)), amounts(&pair));
}

#[test]
fn minswap_receiver_is_the_address_of_the_credentials() {
    assert_eq!(get_address_from_plutus(&ms_order_datum(0, "aa", "bb")).unwrap(), KEY_ADDRESS);
    match get_address_from_plutus(&constr(0, vec![])) {
        Err(InterpretError::DatumShape(path)) => assert_eq!(path, vec![1, 0, 0]),
        other => panic!("{:?}", other),
    }
}

#[test]
fn minswap_orders_take_the_outputs_at_their_address_in_turn() {
    let tx = ms_transaction(vec![
        ("sell", ms_order_datum(0, "aa", "bb")),
        ("buy", ms_order_datum(0, "", "")),
    ]);
    let inputs = vec![
        Some(output(ORDER_ADDRESS, 14_000_000, vec![], Some("sell"))),
        None,
        Some(output(OTHER_ADDRESS, 14_000_000, vec![], Some("sell"))),
        Some(output(ORDER_ADDRESS, 4_000_000, vec![("aa", "bb", 300)], Some("buy"))),
    ];
    let found = swaps(&ms_pool(), &tx, &inputs);
    // the sale reads ADA from its input and the token from the first output of the receiver;
    // the purchase reads ADA from the second output and the token from its input
    assert_eq!(swap_amounts(&found), vec![(10_000_000, 400, false), (5_000_000, 300, true)]);
}

#[test]
fn minswap_order_without_a_free_output_is_an_error() {
    let tx = ms_transaction(vec![("sell", ms_order_datum(0, "aa", "bb"))]);
    let inputs = vec![
        Some(output(ORDER_ADDRESS, 14_000_000, vec![], Some("sell"))),
        Some(output(ORDER_ADDRESS, 14_000_000, vec![], Some("sell"))),
        Some(output(ORDER_ADDRESS, 14_000_000, vec![], Some("sell"))),
    ];
    assert!(matches!(try_swaps(&ms_pool(), &tx, &inputs), Err(InterpretError::IndexOutOfBounds)));
    assert!(swaps(&ms_pool(), &tx, &inputs).is_empty());
}

#[test]
fn minswap_order_that_is_no_swap_is_skipped() {
    let tx = ms_transaction(vec![("sell", ms_order_datum(2, "aa", "bb"))]);
    let inputs = vec![Some(output(ORDER_ADDRESS, 14_000_000, vec![], Some("sell")))];
    assert!(try_swaps(&ms_pool(), &tx, &inputs).unwrap().is_empty());
}

// SundaeSwap

fn ss_pool_datum() -> PlutusData {
    constr(0, vec![constr(0, vec![asset_node("", ""), asset_node("aa", "bb")])])
}

fn ss_order_datum(operation: i64, direction: i64) -> PlutusData {
    constr(
        0,
        vec![
            PlutusData::Other,
            constr(
                0,
                vec![constr(
                    0,
                    vec![constr(
                        0,
                        vec![
                            constr(0, vec![bytes(PAYMENT_KEY_HASH)]),
                            constr(0, vec![constr(0, vec![constr(0, vec![bytes(STAKE_KEY_HASH)])])]),
                        ],
                    )],
                )],
            ),
            PlutusData::Other,
            constr(operation, vec![constr(direction, vec![])]),
        ],
    )
}

fn ss_transaction(orders: Vec<(&str, PlutusData)>) -> TransactionRecord {
    let mut data = vec![datum("pool", ss_pool_datum())];
    for (hash, order) in orders {
        data.push(datum(hash, order));
    }
    transaction(
        vec![
            output(OTHER_ADDRESS, 50_000_000, vec![("aa", "bb", 9_000)], Some("pool")),
            output(KEY_ADDRESS, 2_000_000, vec![("aa", "bb", 400)], None),
            output(KEY_ADDRESS, 7_000_000, vec![], None),
        ],
        data,
        vec![],
    )
}

fn ss_pool() -> PoolConfig {
    let mut config = pool(PoolType::SundaeSwap);
    config.address = OTHER_ADDRESS.to_string();
    config
}

#[test]
fn sundaeswap_mean_value_is_found_by_the_address() {
    let tx = ss_transaction(vec![]);
    let pair = mean_value(&ss_pool(), &tx);
    assert_eq!(amounts(&pair), Some(((s(""), s(""), 50_000_000), (s("aa"), s("bb"), 9_000))));
    assert_eq!(amounts(&SundaeSwap.mean_value(&ss_pool(), &tx)), amounts(&pair));
    assert!(mean_value(&pool(PoolType::SundaeSwap), &tx).is_none());
}

#[test]
fn sundaeswap_orders_are_inputs_paid_to_the_order_script() {
    let tx = ss_transaction(vec![("sell", ss_order_datum(0, 0)), ("buy", ss_order_datum(0, 1))]);
    let inputs = vec![
        Some(output(ORDER_ADDRESS, 14_500_000, vec![], Some("sell"))),
        Some(output(KEY_ADDRESS, 14_500_000, vec![], Some("sell"))),
        Some(output(SCRIPT_ADDRESS, 4_500_000, vec![("aa", "bb", 300)], Some("buy"))),
    ];
    let found = swaps(&ss_pool(), &tx, &inputs);
    assert_eq!(swap_amounts(&found), vec![(10_000_000, 400, false), (5_000_000, 300, true)]);
}

#[test]
fn sundaeswap_order_datum_without_receiver_is_an_error() {
    let order = constr(0, vec![PlutusData::Other, PlutusData::Other, PlutusData::Other, constr(0, vec![constr(0, vec![])])]);
    let tx = ss_transaction(vec![("sell", order)]);
    let inputs = vec![Some(output(ORDER_ADDRESS, 14_500_000, vec![], Some("sell")))];
    match try_swaps(&ss_pool(), &tx, &inputs) {
        Err(InterpretError::DatumShape(path)) => assert_eq!(path, vec![1, 0, 0, 0, 0]),
        other => panic!("{:?}", other),
    }
}

// pools without an interpreter

#[test]
fn pool_without_interpreter_is_inert() {
    let tx = ms_transaction(vec![]);
    assert!(mean_value(&pool(PoolType::MinSwapV2), &tx).is_none());
    assert!(try_swaps(&pool(PoolType::MinSwapV2), &tx, &vec![]).unwrap().is_empty());
    assert!(Empty.mean_value(&pool(PoolType::MinSwapV2), &tx).is_none());
    assert!(Empty.swaps(&pool(PoolType::MinSwapV2), &tx, &vec![]).unwrap().is_empty());
}
