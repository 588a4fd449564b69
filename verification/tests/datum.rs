use cardano_price_feed::config::{
    default_as_true, Config, ConfigError, DexKind, PoolConfig, PoolType,
};
use cardano_price_feed::datum::{InterpretError, PlutusData};
use cardano_price_feed::model::{OutputAssetRecord, TxOutputRecord};
use cardano_price_feed::sink::common::{checked_amount, get_amount, reduce_ada_amount};
use cardano_price_feed::sink::wingriders_v1::wr_transaction;
use cardano_price_feed::types::direction_name;

fn constr(constructor: i64, fields: Vec<PlutusData>) -> PlutusData {
    PlutusData::Constr { constructor, fields }
}

fn tree() -> PlutusData {
    constr(
        0,
        vec![
            PlutusData::Int(5),
            constr(
                3,
                vec![
                    PlutusData::Bytes("aabb".to_string()),
                    PlutusData::List(vec![PlutusData::Int(1), PlutusData::Int(-2)]),
                    PlutusData::List(vec![PlutusData::Int(1), PlutusData::Other]),
                    PlutusData::Int(-7),
                ],
            ),
        ],
    )
}

fn shape(error: InterpretError) -> Vec<usize> {
    match error {
        InterpretError::DatumShape(path) => path,
        other => panic!("not a shape error: {:?}", other),
    }
}

#[test]
fn int_is_read_at_its_path() {
    assert_eq!(tree().int_at(&[0]).unwrap(), 5);
    assert_eq!(tree().int_at(&[1, 3]).unwrap(), -7);
}

#[test]
fn bytes_are_read_at_their_path() {
    assert_eq!(tree().bytes_at(&[1, 0]).unwrap(), "aabb");
}

#[test]
fn constructor_is_read_at_its_path() {
    assert_eq!(tree().constructor_at(&[]).unwrap(), 0);
    assert_eq!(tree().constructor_at(&[1]).unwrap(), 3);
}

#[test]
fn int_list_is_read_at_its_path() {
    assert_eq!(tree().int_list_at(&[1, 1]).unwrap(), vec![1, -2]);
}

#[test]
fn quantity_is_an_int_that_is_not_negative() {
    assert_eq!(tree().quantity_at(&[0]).unwrap(), 5);
    assert_eq!(shape(tree().quantity_at(&[1, 3]).unwrap_err()), vec![1, 3]);
}

#[test]
fn a_read_that_finds_nothing_fails_with_its_path() {
    assert_eq!(shape(tree().int_at(&[2]).unwrap_err()), vec![2]);
    assert_eq!(shape(tree().int_at(&[0, 0]).unwrap_err()), vec![0, 0]);
    assert_eq!(shape(tree().int_at(&[1]).unwrap_err()), vec![1]);
    assert_eq!(shape(tree().bytes_at(&[0]).unwrap_err()), vec![0]);
    assert_eq!(shape(tree().constructor_at(&[0]).unwrap_err()), vec![0]);
    assert_eq!(shape(tree().int_list_at(&[1, 2]).unwrap_err()), vec![1, 2]);
    assert_eq!(shape(tree().int_list_at(&[1, 0]).unwrap_err()), vec![1, 0]);
    assert_eq!(shape(tree().descend(&[1, 9, 0]).unwrap_err()), vec![1, 9, 0]);
}

fn output() -> TxOutputRecord {
    TxOutputRecord {
        address: "somewhere".to_string(),
        amount: 42,
        assets: vec![
            OutputAssetRecord { policy: "aa".to_string(), asset: "bb".to_string(), amount: 5 },
            OutputAssetRecord { policy: "aa".to_string(), asset: "cc".to_string(), amount: 7 },
            OutputAssetRecord { policy: "aa".to_string(), asset: "bb".to_string(), amount: 6 },
        ],
        datum_hash: None,
    }
}

#[test]
fn amount_of_ada_is_the_amount_of_the_output() {
    assert_eq!(get_amount(&output(), "", ""), 42);
}

#[test]
fn amount_of_an_asset_is_the_sum_over_its_entries() {
    assert_eq!(get_amount(&output(), "aa", "bb"), 11);
    assert_eq!(get_amount(&output(), "aa", "cc"), 7);
    assert_eq!(get_amount(&output(), "aa", ""), 0);
    assert_eq!(get_amount(&output(), "", "bb"), 0);
}

#[test]
fn amount_that_does_not_fit_is_not_given() {
    let mut full = output();
    full.assets[0].amount = u64::MAX;
    assert_eq!(checked_amount(&full, "aa", "bb"), None);
    assert_eq!(checked_amount(&full, "aa", "cc"), Some(7));
    assert_eq!(checked_amount(&full, "", ""), Some(42));
}

#[test]
fn only_ada_is_reduced() {
    assert_eq!(reduce_ada_amount("", "", 3_000_000), 3_000_000);
    assert_eq!(reduce_ada_amount("aa", "", 3_000_000), 0);
    assert_eq!(reduce_ada_amount("", "bb", 3_000_000), 0);
    assert_eq!(wr_transaction("", "", 4_000_000), 4_000_000);
    assert_eq!(wr_transaction("aa", "bb", 4_000_000), 0);
}

#[test]
fn directions_have_their_names() {
    assert_eq!(direction_name(true), "Buy");
    assert_eq!(direction_name(false), "Sell");
}

fn pool(script_hash: &str, pool_type: PoolType) -> PoolConfig {
    PoolConfig {
        enable: default_as_true(),
        script_hash: script_hash.to_string(),
        request_hash: "aa".to_string(),
        vesting_hash: "".to_string(),
        address: "addr".to_string(),
        pool_type,
    }
}

#[test]
fn pools_are_enabled_by_default() {
    assert!(default_as_true());
}

#[test]
fn each_protocol_has_its_interpreter() {
    assert_eq!(pool("aa", PoolType::WingRiders).as_trait(), DexKind::WingRidersV1);
    assert_eq!(pool("aa", PoolType::MinSwapV1).as_trait(), DexKind::MinSwapV1);
    assert_eq!(pool("aa", PoolType::SundaeSwap).as_trait(), DexKind::SundaeSwapV1);
    assert_eq!(pool("aa", PoolType::MinSwapV2).as_trait(), DexKind::Inert);
    assert_eq!(pool("aa", PoolType::Other).as_trait(), DexKind::Inert);
}

#[test]
fn protocols_are_named_in_a_configuration() {
    assert_eq!(PoolType::named("WingRiders"), PoolType::WingRiders);
    assert_eq!(PoolType::named("SundaeSwap"), PoolType::SundaeSwap);
    assert_eq!(PoolType::named("MinSwapV1"), PoolType::MinSwapV1);
    assert_eq!(PoolType::named("MinSwapV2"), PoolType::MinSwapV2);
    assert_eq!(PoolType::named("wingriders"), PoolType::Other);
    assert_eq!(PoolType::named(""), PoolType::Other);
}

#[test]
fn configuration_with_hexadecimal_hashes_is_valid() {
    let config = Config { pools: vec![pool("aa", PoolType::WingRiders), pool("", PoolType::MinSwapV1)] };
    assert_eq!(config.validate(), Ok(()));
}

#[test]
fn configuration_names_the_first_pool_with_a_bad_hash() {
    let config = Config {
        pools: vec![
            pool("aa", PoolType::WingRiders),
            pool("xyz", PoolType::MinSwapV1),
            pool("q", PoolType::MinSwapV1),
        ],
    };
    assert_eq!(config.validate(), Err(ConfigError::InvalidHash(1)));
}
