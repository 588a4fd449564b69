use cardano_price_feed::config::{PoolConfig, PoolType};
use cardano_price_feed::datum::PlutusData;
use cardano_price_feed::model::{
    BlockRecord, EventData, OutputAssetRecord, PlutusDatumRecord, PlutusRedeemerRecord,
    TransactionRecord, TxInputRecord, TxOutputRecord,
};
use cardano_price_feed::queries::{get_latest_prices, get_swap_history, Store, StoreError};
use cardano_price_feed::sink::pipeline::{is_followed, process_event, watched};
use cardano_price_feed::sink::start;
use cardano_price_feed::types::BroadcastMessage;

const KEY_ADDRESS: &str = "addr1qx2fxv2umyhttkxyxp8x0dlpdt3k6cwng5pxj3jhsydzer3n0d3vllmyqwsx5wktcd8cc3sq835lu7drv2xwl2wywfgse35a3x";
const SCRIPT_ADDRESS: &str = "addr1w8phkx6acpnf78fuvxn0mkew3l0fd058hzquvz7w36x4gtcyjy7wx";
const ORDER_ADDRESS: &str = "addr1z8phkx6acpnf78fuvxn0mkew3l0fd058hzquvz7w36x4gten0d3vllmyqwsx5wktcd8cc3sq835lu7drv2xwl2wywfgs9yc0hh";
const OTHER_ADDRESS: &str = "addr1vx2fxv2umyhttkxyxp8x0dlpdt3k6cwng5pxj3jhsydzers66hrl8";
const PAYMENT_KEY_HASH: &str = "9493315cd92eb5d8c4304e67b7e16ae36d61d34502694657811a2c8e";
const SCRIPT_HASH: &str = "c37b1b5dc0669f1d3c61a6fddb2e8fde96be87b881c60bce8e8d542f";

fn constr(constructor: i64, fields: Vec<PlutusData>) -> PlutusData {
    PlutusData::Constr { constructor, fields }
}

fn asset_node(policy: &str, name: &str) -> PlutusData {
    constr(0, vec![PlutusData::Bytes(policy.to_string()), PlutusData::Bytes(name.to_string())])
}

fn pool_datum(t1: PlutusData, t2: PlutusData) -> PlutusData {
    constr(
        0,
        vec![
            PlutusData::Other,
            constr(
                0,
                vec![
                    constr(0, vec![asset_node("", ""), asset_node("aa", "bb")]),
                    PlutusData::Int(0),
                    t1,
                    t2,
                ],
            ),
        ],
    )
}

fn pool() -> PoolConfig {
    PoolConfig {
        enable: true,
        script_hash: SCRIPT_HASH.to_string(),
        request_hash: "".to_string(),
        vesting_hash: "".to_string(),
        address: SCRIPT_ADDRESS.to_string(),
        pool_type: PoolType::WingRiders,
    }
}

fn output(address: &str, ada: u64, assets: Vec<(&str, &str, u64)>, datum_hash: Option<&str>) -> TxOutputRecord {
    TxOutputRecord {
        address: address.to_string(),
        amount: ada,
        assets: assets
            .into_iter()
            .map(|(policy, asset, amount)| OutputAssetRecord {
                policy: policy.to_string(),
                asset: asset.to_string(),
                amount,
            })
            .collect(),
        datum_hash: datum_hash.map(|hash| hash.to_string()),
    }
}

fn pool_transaction(hash: &str, ada: u64, datum: PlutusData) -> TransactionRecord {
    TransactionRecord {
        hash: hash.to_string(),
        inputs: vec![],
        outputs: vec![output(SCRIPT_ADDRESS, ada, vec![("aa", "bb", 1_000)], Some("pool"))],
        plutus_data: vec![PlutusDatumRecord { datum_hash: "pool".to_string(), plutus_data: datum }],
        plutus_redeemers: vec![],
    }
}

fn plain_transaction(hash: &str) -> TransactionRecord {
    TransactionRecord {
        hash: hash.to_string(),
        inputs: vec![],
        outputs: vec![output(OTHER_ADDRESS, 1, vec![], None)],
        plutus_data: vec![],
        plutus_redeemers: vec![],
    }
}

fn block(slot: u64, hash: &str, previous_hash: &str, transactions: Vec<TransactionRecord>) -> EventData {
    EventData::Block(BlockRecord {
        slot,
        hash: hash.to_string(),
        epoch: Some(1),
        number: slot,
        previous_hash: previous_hash.to_string(),
        transactions,
    })
}

fn rates(messages: &Vec<BroadcastMessage>) -> Vec<(String, i64, i64, u64, u64)> {
    messages
        .iter()
        .filter_map(|m| match m {
            BroadcastMessage::MeanValue(r) => {
                Some((r.script_hash.clone(), r.asset1, r.asset2, r.amount1, r.amount2))
            }
            _ => None,
        })
        .collect()
}

#[test]
fn mean_price_is_written_and_announced() {
    let mut db = Store::new();
    let mut messages = Vec::new();
    let events = vec![block(
        10,
        "01",
        "00",
        vec![pool_transaction("a1", 3_000_005, pool_datum(PlutusData::Int(2), PlutusData::Int(3)))],
    )];
    assert_eq!(start(&events, &mut db, &vec![pool()], true, &mut messages), Ok(()));
    let updates: Vec<(i64, Vec<u8>, i64, i64, i64, i64)> = db
        .price_updates()
        .iter()
        .map(|p| (p.tx_id, p.script_hash.clone(), p.token1_id, p.token2_id, p.amount1, p.amount2))
        .collect();
    assert_eq!(updates.len(), 1);
    assert_eq!((updates[0].0, updates[0].2, updates[0].3, updates[0].4, updates[0].5), (1, 1, 2, 3, 997));
    assert_eq!(updates[0].1.len(), 28);
    assert_eq!(rates(&messages), vec![(SCRIPT_HASH.to_string(), 1, 2, 3, 997)]);
    let rate = 3 as f64 / 997 as f64;
    assert!((rate - 0.003009).abs() < 0.000001);
    assert_eq!(get_latest_prices(&db).len(), 1);
    assert_eq!(db.transactions().len(), 1);
}

#[test]
fn bad_datum_writes_nothing_and_the_pipeline_goes_on() {
    let mut db = Store::new();
    let mut messages = Vec::new();
    let events = vec![block(
        10,
        "01",
        "00",
        vec![
            pool_transaction("a1", 3_000_005, pool_datum(PlutusData::Other, PlutusData::Int(3))),
            pool_transaction("a2", 3_000_005, pool_datum(PlutusData::Int(2), PlutusData::Int(3))),
        ],
    )];
    assert_eq!(start(&events, &mut db, &vec![pool()], true, &mut messages), Ok(()));
    // the first transaction is watched and stored, but states no price
    assert_eq!(db.transactions().len(), 2);
    assert_eq!(db.price_updates().iter().map(|p| p.tx_id).collect::<Vec<_>>(), vec![2]);
    assert_eq!(messages.len(), 1);
    assert!(db.swaps().is_empty());
}

#[test]
fn nothing_is_written_without_persistence() {
    let mut db = Store::new();
    let mut messages = Vec::new();
    let events = vec![
        block(
            10,
            "01",
            "00",
            vec![pool_transaction("a1", 3_000_005, pool_datum(PlutusData::Int(2), PlutusData::Int(3)))],
        ),
        EventData::RollBack { block_slot: 0, block_hash: "00".to_string() },
    ];
    assert_eq!(start(&events, &mut db, &vec![pool()], false, &mut messages), Ok(()));
    assert!(db.blocks().is_empty());
    assert!(db.transactions().is_empty());
    assert!(db.price_updates().is_empty());
    // tokens are looked up, and the price is announced all the same
    assert_eq!(db.tokens().len(), 2);
    assert_eq!(rates(&messages), vec![(SCRIPT_HASH.to_string(), 1, 2, 3, 997)]);
}

#[test]
fn only_watched_transactions_are_written() {
    let mut db = Store::new();
    let mut messages = Vec::new();
    let events = vec![block(10, "01", "00", vec![plain_transaction("a1")])];
    assert_eq!(start(&events, &mut db, &vec![pool()], true, &mut messages), Ok(()));
    assert_eq!(db.blocks().len(), 1);
    assert!(db.transactions().is_empty());
    assert!(messages.is_empty());
}

#[test]
fn transaction_is_watched_for_a_pool_that_is_followed() {
    let tx = pool_transaction("a1", 1, PlutusData::Other);
    assert!(watched(&vec![pool()], &tx));
    assert!(!watched(&vec![], &tx));
    assert!(!watched(&vec![pool()], &plain_transaction("a1")));
    let mut disabled = pool();
    disabled.enable = false;
    assert!(!is_followed(&disabled));
    assert!(!watched(&vec![disabled], &tx));
    let mut invalid = pool();
    invalid.vesting_hash = "xyz".to_string();
    assert!(!is_followed(&invalid));
    assert!(!watched(&vec![invalid], &tx));
    // a pool is also concerned by its order script and by its address
    let mut by_request = pool();
    by_request.script_hash = "".to_string();
    by_request.address = "".to_string();
    by_request.request_hash = PAYMENT_KEY_HASH.to_string();
    let mut paid = plain_transaction("a1");
    paid.outputs[0].address = KEY_ADDRESS.to_string();
    assert!(watched(&vec![by_request], &paid));
    let mut by_address = pool();
    by_address.script_hash = "".to_string();
    by_address.address = OTHER_ADDRESS.to_string();
    assert!(watched(&vec![by_address], &plain_transaction("a1")));
    // an address without a payment hash matches no hash, not even an empty one
    let mut byron = plain_transaction("a1");
    byron.outputs[0].address = "not an address".to_string();
    let mut empty = pool();
    empty.script_hash = "".to_string();
    assert!(!watched(&vec![empty], &byron));
}

#[test]
fn rollback_event_removes_later_blocks() {
    let mut db = Store::new();
    let mut messages = Vec::new();
    let events = vec![
        block(10, "01", "00", vec![]),
        block(
            20,
            "02",
            "01",
            vec![pool_transaction("a1", 3_000_005, pool_datum(PlutusData::Int(2), PlutusData::Int(3)))],
        ),
        block(30, "03", "02", vec![]),
        EventData::RollBack { block_slot: 15, block_hash: "ff".to_string() },
        EventData::Other,
        EventData::Transaction(plain_transaction("a9")),
    ];
    assert_eq!(start(&events, &mut db, &vec![pool()], true, &mut messages), Ok(()));
    assert_eq!(db.blocks().iter().map(|b| b.slot).collect::<Vec<_>>(), vec![10]);
    assert!(db.transactions().is_empty());
    assert!(get_latest_prices(&db).is_empty());
    assert_eq!(messages.len(), 1);
}

#[test]
fn failure_of_the_store_stops_the_pipeline() {
    let mut db = Store::new();
    let mut messages = Vec::new();
    let events = vec![
        block(10, "01", "00", vec![]),
        block(20, "01", "00", vec![]),
        block(30, "03", "01", vec![]),
    ];
    assert_eq!(start(&events, &mut db, &vec![pool()], true, &mut messages), Err(StoreError::Backend));
    assert_eq!(db.blocks().len(), 1);
    // one event at a time, the pipeline may go on after the failure
    assert_eq!(process_event(&vec![pool()], true, &events[2], &mut db, &mut messages), Ok(()));
    assert_eq!(db.blocks().len(), 2);
}

fn order_datum() -> PlutusData {
    constr(0, vec![PlutusData::Other, constr(0, vec![constr(0, vec![])])])
}

#[test]
fn swap_is_read_from_stored_inputs_written_and_announced() {
    let mut db = Store::new();
    let mut messages = Vec::new();
    // the block that makes the pool's output and the order
    let mut funding = pool_transaction("a1", 1_003_000_005, pool_datum(PlutusData::Int(2), PlutusData::Int(3)));
    funding.outputs.push(output(ORDER_ADDRESS, 5_000_000, vec![], Some("order")));
    // the block that executes the order
    let mut executing = pool_transaction("a2", 1_004_000_005, pool_datum(PlutusData::Int(2), PlutusData::Int(3)));
    executing.inputs = vec![
        TxInputRecord { tx_id: "a1".to_string(), index: 0 },
        TxInputRecord { tx_id: "a1".to_string(), index: 1 },
    ];
    executing.outputs.push(output(KEY_ADDRESS, 2_000_000, vec![("aa", "bb", 1_100)], None));
    executing.plutus_data.push(PlutusDatumRecord { datum_hash: "order".to_string(), plutus_data: order_datum() });
    executing.plutus_redeemers = vec![PlutusRedeemerRecord {
        input_idx: 0,
        plutus_data: constr(
            0,
            vec![PlutusData::Int(0), PlutusData::Other, PlutusData::List(vec![PlutusData::Int(1)])],
        ),
    }];
    let events = vec![block(10, "01", "00", vec![funding]), block(20, "02", "01", vec![executing])];
    assert_eq!(start(&events, &mut db, &vec![pool()], true, &mut messages), Ok(()));

    let swaps: Vec<(i64, i64, i64, i64, i64, bool)> = db
        .swaps()
        .iter()
        .map(|s| (s.tx_id, s.token1_id, s.token2_id, s.amount1, s.amount2, s.direction))
        .collect();
    assert_eq!(swaps, vec![(2, 1, 2, 1_000_000, 1_100, true)]);
    let history = get_swap_history(1, 2, 10, &db);
    assert_eq!(history.len(), 1);
    assert_eq!(history[0].direction, "Buy");
    // two prices and one swap were announced, in this order
    assert_eq!(messages.len(), 3);
    assert!(matches!(messages[0], BroadcastMessage::MeanValue(_)));
    assert!(matches!(messages[1], BroadcastMessage::MeanValue(_)));
    match &messages[2] {
        BroadcastMessage::Swap(info) => {
            assert_eq!((info.asset1, info.amount1, info.asset2, info.amount2), (1, 1_000_000, 2, 1_100));
            assert_eq!(info.direction, "Buy");
        }
        other => panic!("{:?}", other),
    }
    assert_eq!(db.price_updates().len(), 2);
}
