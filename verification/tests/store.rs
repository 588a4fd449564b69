use cardano_price_feed::model::{
    BlockRecord, OutputAssetRecord, TransactionRecord, TxInputRecord, TxOutputRecord,
};
use cardano_price_feed::queries::{
    get_assets, get_latest_prices, get_swap_history, get_token_id, get_token_price_history,
    get_utxo_input, insert_block, insert_price_update, insert_swap, insert_transaction,
    rollback_to_slot, upsert_addresses, upsert_tokens, Entity, Store, StoreError, Tables, TokenKey,
};
use cardano_price_feed::server::{route, Route};
use cardano_price_feed::types::{Asset, SwapInfo};

fn block(slot: u64, hash: &str, previous_hash: &str) -> BlockRecord {
    BlockRecord {
        slot,
        hash: hash.to_string(),
        epoch: Some(1),
        number: slot / 10,
        previous_hash: previous_hash.to_string(),
        transactions: vec![],
    }
}

fn output(address: &str, ada: u64, assets: Vec<(&str, &str, u64)>, datum_hash: Option<&str>) -> TxOutputRecord {
    TxOutputRecord {
        address: address.to_string(),
        amount: ada,
        assets: assets
            .into_iter()
            .map(|(policy, asset, amount)| OutputAssetRecord {
                policy: policy.to_string(),
                asset: asset.to_string(),
                amount,
            })
            .collect(),
        datum_hash: datum_hash.map(|hash| hash.to_string()),
    }
}

fn transaction(hash: &str, outputs: Vec<TxOutputRecord>) -> TransactionRecord {
    TransactionRecord {
        hash: hash.to_string(),
        inputs: vec![],
        outputs,
        plutus_data: vec![],
        plutus_redeemers: vec![],
    }
}

fn asset(policy_id: &str, name: &str) -> Asset {
    Asset { policy_id: policy_id.to_string(), name: name.to_string() }
}

fn chain() -> Store {
    let mut db = Store::new();
    assert_eq!(insert_block(&block(10, "01", "00"), &mut db), Ok(1));
    assert_eq!(insert_block(&block(20, "02", "01"), &mut db), Ok(2));
    assert_eq!(insert_block(&block(30, "03", "02"), &mut db), Ok(3));
    db
}

#[test]
fn blocks_get_ascending_identifiers_and_their_parents() {
    let db = chain();
    let parents: Vec<Option<i64>> = db.blocks().iter().map(|b| b.previous_block_id).collect();
    assert_eq!(parents, vec![None, Some(1), Some(2)]);
    let slots: Vec<i64> = db.blocks().iter().map(|b| b.slot).collect();
    assert_eq!(slots, vec![10, 20, 30]);
    assert_eq!(db.blocks()[1].hash, vec![0x02]);
    assert_eq!(db.blocks()[1].height, 2);
    assert_eq!(db.blocks()[1].epoch, 1);
}

#[test]
fn block_is_refused_for_its_shape() {
    let mut db = chain();
    let mut no_epoch = block(40, "04", "03");
    no_epoch.epoch = None;
    assert_eq!(insert_block(&no_epoch, &mut db), Err(StoreError::ShapeMismatch));
    assert_eq!(insert_block(&block(40, "0x", "03"), &mut db), Err(StoreError::ShapeMismatch));
    assert_eq!(insert_block(&block(40, "04", "xyz"), &mut db), Err(StoreError::ShapeMismatch));
    assert_eq!(insert_block(&block(u64::MAX, "04", "03"), &mut db), Err(StoreError::ShapeMismatch));
    // a block must lie after its parent
    assert_eq!(insert_block(&block(30, "04", "03"), &mut db), Err(StoreError::ShapeMismatch));
    assert_eq!(db.blocks().len(), 3);
}

#[test]
fn block_with_a_known_hash_is_refused() {
    let mut db = chain();
    assert_eq!(insert_block(&block(40, "02", "03"), &mut db), Err(StoreError::Backend));
    assert_eq!(db.blocks().len(), 3);
}

#[test]
fn genesis_then_rollback() {
    let mut db = chain();
    rollback_to_slot(15, &mut db);
    let slots: Vec<i64> = db.blocks().iter().map(|b| b.slot).collect();
    assert_eq!(slots, vec![10]);
    assert!(get_latest_prices(&db).is_empty());
}

#[test]
fn rollback_removes_what_hangs_on_the_removed_blocks() {
    let mut db = chain();
    let kept = insert_transaction(&transaction("a1", vec![output("x", 5, vec![("aa", "bb", 2)], None)]), 1, &mut db).unwrap();
    let gone = insert_transaction(&transaction("a2", vec![output("y", 6, vec![("aa", "cc", 3)], None)]), 3, &mut db).unwrap();
    let ada = get_token_id(&asset("", ""), &mut db).unwrap();
    let token = get_token_id(&asset("aa", "bb"), &mut db).unwrap();
    insert_price_update(kept, &vec![1], ada, 1, token, 2, &mut db).unwrap();
    insert_price_update(gone, &vec![1], ada, 3, token, 4, &mut db).unwrap();
    let info = SwapInfo { asset1: ada, amount1: 1, asset2: token, amount2: 2, direction: "Buy".to_string() };
    insert_swap(kept, &vec![1], &info, &mut db).unwrap();
    insert_swap(gone, &vec![1], &info, &mut db).unwrap();

    rollback_to_slot(20, &mut db);

    assert_eq!(db.blocks().iter().map(|b| b.id).collect::<Vec<_>>(), vec![1, 2]);
    assert_eq!(db.transactions().iter().map(|t| t.id).collect::<Vec<_>>(), vec![kept]);
    assert_eq!(db.outputs().iter().map(|o| o.tx_id).collect::<Vec<_>>(), vec![kept]);
    assert_eq!(db.transfers().len(), 2);
    assert_eq!(db.price_updates().iter().map(|p| p.tx_id).collect::<Vec<_>>(), vec![kept]);
    assert_eq!(db.swaps().iter().map(|p| p.tx_id).collect::<Vec<_>>(), vec![kept]);
    // addresses and tokens stay
    assert_eq!(db.addresses().len(), 2);
    assert_eq!(db.tokens().len(), 3);
    // a rollback to the same slot changes nothing more
    rollback_to_slot(20, &mut db);
    assert_eq!(db.blocks().len(), 2);
    assert_eq!(db.transactions().len(), 1);
    // identifiers are not handed out again
    assert_eq!(insert_block(&block(25, "04", "02"), &mut db), Ok(4));
}

#[test]
fn transaction_writes_outputs_and_transfers() {
    let mut db = chain();
    let tx = transaction(
        "a1",
        vec![
            output("x", 5, vec![("aa", "bb", 2), ("aa", "cc", 3)], Some("d")),
            output("y", 6, vec![], None),
            output("x", 7, vec![("AA", "bb", 4)], None),
        ],
    );
    let id = insert_transaction(&tx, 2, &mut db).unwrap();
    assert_eq!(id, 1);
    assert_eq!(db.transactions()[0].hash, vec![0xa1]);
    assert_eq!(db.transactions()[0].block_id, 2);
    let addresses: Vec<&str> = db.addresses().iter().map(|a| a.payload.as_str()).collect();
    assert_eq!(addresses, vec!["x", "y"]);
    let tokens: Vec<(Vec<u8>, Vec<u8>)> =
        db.tokens().iter().map(|t| (t.policy_id.clone(), t.name.clone())).collect();
    assert_eq!(tokens, vec![(vec![], vec![]), (vec![0xaa], vec![0xbb]), (vec![0xaa], vec![0xcc])]);
    let outputs: Vec<(i64, u32, i64, Option<String>)> = db
        .outputs()
        .iter()
        .map(|o| (o.tx_id, o.index, o.address_id, o.datum_hash.clone()))
        .collect();
    assert_eq!(
        outputs,
        vec![(1, 0, 1, Some("d".to_string())), (1, 1, 2, None), (1, 2, 1, None)]
    );
    let transfers: Vec<(i64, i64, u64)> =
        db.transfers().iter().map(|t| (t.output_id, t.token_id, t.amount)).collect();
    assert_eq!(
        transfers,
        vec![(1, 1, 5), (1, 2, 2), (1, 3, 3), (2, 1, 6), (3, 1, 7), (3, 2, 4)]
    );
}

#[test]
fn writing_the_same_addresses_and_tokens_again_adds_none() {
    let mut db = chain();
    let outputs = || vec![output("x", 5, vec![("aa", "bb", 2)], None), output("y", 6, vec![("aa", "bb", 2)], None)];
    insert_transaction(&transaction("a1", outputs()), 1, &mut db).unwrap();
    insert_transaction(&transaction("a2", outputs()), 1, &mut db).unwrap();
    insert_transaction(&transaction("a3", outputs()), 2, &mut db).unwrap();
    assert_eq!(db.addresses().len(), 2);
    assert_eq!(db.tokens().len(), 2);
    assert_eq!(db.outputs().len(), 6);
    assert_eq!(get_token_id(&asset("aa", "bb"), &mut db), Ok(2));
    assert_eq!(get_token_id(&asset("AA", "BB"), &mut db), Ok(2));
    assert_eq!(db.tokens().len(), 2);
}

#[test]
fn transaction_is_refused_and_leaves_the_store_as_it_was() {
    let mut db = chain();
    insert_transaction(&transaction("a1", vec![]), 1, &mut db).unwrap();
    let outputs = || vec![output("x", 5, vec![("aa", "bb", 2)], None)];
    assert_eq!(insert_transaction(&transaction("zz", outputs()), 1, &mut db), Err(StoreError::ShapeMismatch));
    assert_eq!(
        insert_transaction(&transaction("a2", vec![output("x", 5, vec![("aa", "b", 2)], None)]), 1, &mut db),
        Err(StoreError::ShapeMismatch)
    );
    assert_eq!(insert_transaction(&transaction("a2", outputs()), 9, &mut db), Err(StoreError::NotFound(Entity::Block)));
    assert_eq!(insert_transaction(&transaction("a1", outputs()), 1, &mut db), Err(StoreError::Backend));
    assert_eq!(db.transactions().len(), 1);
    assert_eq!(db.addresses().len(), 0);
    assert_eq!(db.tokens().len(), 0);
    assert_eq!(db.outputs().len(), 0);
}

#[test]
fn token_of_an_asset_is_written_when_first_asked_for() {
    let mut db = Store::new();
    assert_eq!(get_token_id(&asset("", ""), &mut db), Ok(1));
    assert_eq!(get_token_id(&asset("aa", "bb"), &mut db), Ok(2));
    assert_eq!(get_token_id(&asset("", ""), &mut db), Ok(1));
    assert_eq!(get_token_id(&asset("a", "bb"), &mut db), Err(StoreError::ShapeMismatch));
    let assets = get_assets(&db);
    assert_eq!(assets.len(), 2);
    assert_eq!((assets[1].0, assets[1].1.policy_id.as_str(), assets[1].1.name.as_str()), (2, "aa", "bb"));
    assert_eq!((assets[0].0, assets[0].1.policy_id.as_str(), assets[0].1.name.as_str()), (1, "", ""));
}

fn priced() -> Store {
    let mut db = chain();
    for n in 1..=109 {
        let id = insert_transaction(&transaction(&format!("{:04x}", n), vec![]), 1, &mut db).unwrap();
        assert_eq!(id, n);
    }
    for n in 1..=9 {
        assert_eq!(get_token_id(&asset(&format!("{:02x}", n), ""), &mut db), Ok(n));
    }
    db
}

#[test]
fn price_update_is_refused_without_its_rows() {
    let mut db = priced();
    assert_eq!(insert_price_update(110, &vec![1], 7, 1, 9, 1, &mut db), Err(StoreError::NotFound(Entity::Transaction)));
    assert_eq!(insert_price_update(1, &vec![1], 10, 1, 9, 1, &mut db), Err(StoreError::NotFound(Entity::Token)));
    assert_eq!(insert_price_update(1, &vec![1], 7, 1, 0, 1, &mut db), Err(StoreError::NotFound(Entity::Token)));
    assert_eq!(insert_price_update(1, &vec![1], 7, -1, 9, 1, &mut db), Err(StoreError::ShapeMismatch));
    assert!(db.price_updates().is_empty());
}

#[test]
fn history_query() {
    let mut db = priced();
    for tx_id in [104, 100, 109, 101, 103, 102, 108, 105, 107, 106] {
        insert_price_update(tx_id, &vec![0xab], 7, tx_id * 2, 9, tx_id * 3, &mut db).unwrap();
    }
    insert_price_update(109, &vec![0xab], 9, 1, 7, 1, &mut db).unwrap();
    insert_price_update(109, &vec![0xab], 7, 1, 8, 1, &mut db).unwrap();
    let request = match route(true, b"/mean_history/7/9", Some(b"count=3")) {
        Route::MeanHistory(request) => request,
        other => panic!("{:?}", other),
    };
    let history = get_token_price_history(request.asset1, request.asset2, request.count, &db);
    assert_eq!(history.iter().map(|h| h.tx_id).collect::<Vec<_>>(), vec![109, 108, 107]);
    assert_eq!((history[0].amount1, history[0].amount2), (218, 327));
    let all = get_token_price_history(7, 9, 100, &db);
    assert_eq!(all.iter().map(|h| h.tx_id).collect::<Vec<_>>(), (100..=109).rev().collect::<Vec<_>>());
    assert!(get_token_price_history(7, 9, 0, &db).is_empty());
    assert!(get_token_price_history(1, 2, 10, &db).is_empty());
}

#[test]
fn history_orders_updates_of_one_transaction_by_their_writing() {
    let mut db = priced();
    insert_price_update(5, &vec![1], 7, 1, 9, 1, &mut db).unwrap();
    insert_price_update(5, &vec![2], 7, 2, 9, 2, &mut db).unwrap();
    insert_price_update(4, &vec![2], 7, 3, 9, 3, &mut db).unwrap();
    let history = get_token_price_history(7, 9, 2, &db);
    assert_eq!(history.iter().map(|h| (h.tx_id, h.amount1)).collect::<Vec<_>>(), vec![(5, 2), (5, 1)]);
}

#[test]
fn latest_price_of_each_pool_and_pair() {
    let mut db = priced();
    insert_price_update(3, &vec![0xab], 7, 30, 9, 31, &mut db).unwrap();
    insert_price_update(5, &vec![0xab], 7, 50, 9, 51, &mut db).unwrap();
    insert_price_update(4, &vec![0xab], 7, 40, 9, 41, &mut db).unwrap();
    insert_price_update(2, &vec![0xcd], 7, 20, 9, 21, &mut db).unwrap();
    insert_price_update(1, &vec![0xab], 9, 10, 7, 11, &mut db).unwrap();
    let rates: Vec<(String, i64, i64, u64, u64)> = get_latest_prices(&db)
        .into_iter()
        .map(|r| (r.script_hash, r.asset1, r.asset2, r.amount1, r.amount2))
        .collect();
    assert_eq!(
        rates,
        vec![
            ("ab".to_string(), 7, 9, 50, 51),
            ("cd".to_string(), 7, 9, 20, 21),
            ("ab".to_string(), 9, 7, 10, 11),
        ]
    );
}

fn info(direction: &str, amount: i64) -> SwapInfo {
    SwapInfo { asset1: 7, amount1: amount, asset2: 9, amount2: amount + 1, direction: direction.to_string() }
}

#[test]
fn swap_is_stored_with_its_direction_and_read_back_with_its_name() {
    let mut db = priced();
    insert_swap(3, &vec![1], &info("Buy", 10), &mut db).unwrap();
    insert_swap(4, &vec![1], &info("Sell", 20), &mut db).unwrap();
    assert_eq!(db.swaps().iter().map(|s| s.direction).collect::<Vec<_>>(), vec![true, false]);
    let history: Vec<(i64, i64, i64, String)> = get_swap_history(7, 9, 10, &db)
        .into_iter()
        .map(|h| (h.tx_id, h.amount1, h.amount2, h.direction))
        .collect();
    assert_eq!(
        history,
        vec![(4, 20, 21, "Sell".to_string()), (3, 10, 11, "Buy".to_string())]
    );
    assert_eq!(get_swap_history(7, 9, 1, &db).len(), 1);
}

#[test]
fn swap_with_another_direction_is_refused() {
    let mut db = priced();
    assert_eq!(insert_swap(3, &vec![1], &info("buy", 10), &mut db), Err(StoreError::ShapeMismatch));
    assert_eq!(insert_swap(300, &vec![1], &info("Buy", 10), &mut db), Err(StoreError::NotFound(Entity::Transaction)));
    assert!(db.swaps().is_empty());
}

#[test]
fn spent_outputs_are_restored_from_the_store() {
    let mut db = chain();
    let tx = transaction(
        "A1B2",
        vec![
            output("x", 5, vec![("aa", "bb", 2), ("aa", "bb", 3), ("cc", "", 4)], Some("d")),
            output("y", 6, vec![], None),
        ],
    );
    insert_transaction(&tx, 2, &mut db).unwrap();
    let inputs = vec![
        TxInputRecord { tx_id: "a1b2".to_string(), index: 1 },
        TxInputRecord { tx_id: "a1b2".to_string(), index: 2 },
        TxInputRecord { tx_id: "A1B2".to_string(), index: 0 },
        TxInputRecord { tx_id: "ffff".to_string(), index: 0 },
    ];
    let found = get_utxo_input(&inputs, &db).unwrap();
    assert_eq!(found.len(), 4);
    let second = found[0].as_ref().unwrap();
    assert_eq!((second.address.as_str(), second.amount, second.assets.len(), &second.datum_hash), ("y", 6, 0, &None));
    assert!(found[1].is_none());
    let first = found[2].as_ref().unwrap();
    assert_eq!(first.address, "x");
    assert_eq!(first.amount, 5);
    assert_eq!(first.datum_hash, Some("d".to_string()));
    let assets: Vec<(&str, &str, u64)> =
        first.assets.iter().map(|a| (a.policy.as_str(), a.asset.as_str(), a.amount)).collect();
    assert_eq!(assets, vec![("aa", "bb", 2), ("aa", "bb", 3), ("cc", "", 4)]);
    assert!(found[3].is_none());
    assert!(get_utxo_input(&vec![], &db).unwrap().is_empty());
}

#[test]
fn input_whose_hash_is_no_hexadecimal_is_refused() {
    let db = chain();
    let inputs = vec![TxInputRecord { tx_id: "xy".to_string(), index: 0 }];
    assert_eq!(get_utxo_input(&inputs, &db).unwrap_err(), StoreError::ShapeMismatch);
}

#[test]
fn addresses_are_written_once() {
    let mut db = Store::new();
    let texts = vec!["x".to_string(), "y".to_string(), "x".to_string()];
    assert_eq!(upsert_addresses(&texts, &mut db), Ok(vec![1, 2, 1]));
    assert_eq!(upsert_addresses(&vec!["z".to_string(), "y".to_string()], &mut db), Ok(vec![3, 2]));
    assert_eq!(upsert_addresses(&texts, &mut db), Ok(vec![1, 2, 1]));
    let payloads: Vec<&str> = db.addresses().iter().map(|a| a.payload.as_str()).collect();
    assert_eq!(payloads, vec!["x", "y", "z"]);
}

#[test]
fn tokens_are_written_once() {
    let mut db = Store::new();
    let key = |policy: u8, name: u8| TokenKey { policy_id: vec![policy], name: vec![name] };
    let ada = TokenKey { policy_id: vec![], name: vec![] };
    assert_eq!(upsert_tokens(&vec![ada, key(1, 2), key(1, 3), key(1, 2)], &mut db), Ok(vec![1, 2, 3, 2]));
    assert_eq!(upsert_tokens(&vec![key(1, 3), key(2, 3)], &mut db), Ok(vec![3, 4]));
    assert_eq!(db.tokens().len(), 4);
}

fn tables_of(db: &Store) -> Tables {
    Tables {
        blocks: db.blocks().clone(),
        transactions: db.transactions().clone(),
        addresses: db.addresses().clone(),
        tokens: db.tokens().clone(),
        outputs: db.outputs().clone(),
        transfers: db.transfers().clone(),
        price_updates: db.price_updates().clone(),
        swaps: db.swaps().clone(),
    }
}

fn filled() -> Store {
    let mut db = chain();
    let tx = insert_transaction(&transaction("a1", vec![output("x", 5, vec![("aa", "bb", 2)], None)]), 2, &mut db).unwrap();
    insert_price_update(tx, &vec![1], 1, 5, 2, 2, &mut db).unwrap();
    let info = SwapInfo { asset1: 1, amount1: 1, asset2: 2, amount2: 2, direction: "Sell".to_string() };
    insert_swap(tx, &vec![1], &info, &mut db).unwrap();
    db
}

#[test]
fn store_is_taken_up_again_from_its_tables() {
    let db = filled();
    let mut restored = Store::restore(tables_of(&db)).unwrap();
    assert_eq!(restored.blocks().len(), 3);
    assert_eq!(restored.transfers().len(), 2);
    assert_eq!(get_latest_prices(&restored).len(), 1);
    // every table goes on after its last identifier
    assert_eq!(insert_block(&block(40, "04", "03"), &mut restored), Ok(4));
    assert_eq!(insert_transaction(&transaction("a2", vec![]), 4, &mut restored), Ok(2));
    assert_eq!(get_token_id(&asset("cc", ""), &mut restored), Ok(3));
    let mut empty = Store::restore(tables_of(&Store::new())).unwrap();
    assert_eq!(insert_block(&block(40, "04", "03"), &mut empty), Ok(1));
}

#[test]
fn tables_that_cannot_be_a_store_are_refused() {
    let db = filled();
    let mut tables = tables_of(&db);
    tables.blocks.swap(0, 1);
    assert!(Store::restore(tables).is_none());
    let mut tables = tables_of(&db);
    tables.blocks[2].hash = tables.blocks[0].hash.clone();
    assert!(Store::restore(tables).is_none());
    let mut tables = tables_of(&db);
    tables.blocks[2].previous_block_id = Some(3);
    assert!(Store::restore(tables).is_none());
    let mut tables = tables_of(&db);
    tables.transactions[0].block_id = 7;
    assert!(Store::restore(tables).is_none());
    let mut tables = tables_of(&db);
    tables.outputs[0].address_id = 7;
    assert!(Store::restore(tables).is_none());
    let mut tables = tables_of(&db);
    tables.transfers[1].token_id = 0;
    assert!(Store::restore(tables).is_none());
    let mut tables = tables_of(&db);
    tables.tokens[1].policy_id = vec![];
    tables.tokens[1].name = vec![];
    assert!(Store::restore(tables).is_none());
    let mut tables = tables_of(&db);
    tables.price_updates[0].amount2 = -1;
    assert!(Store::restore(tables).is_none());
    let mut tables = tables_of(&db);
    tables.swaps[0].tx_id = 2;
    assert!(Store::restore(tables).is_none());
    let mut tables = tables_of(&db);
    tables.addresses[0].id = i64::MAX;
    tables.outputs[0].address_id = i64::MAX;
    assert!(Store::restore(tables).is_none());
}
