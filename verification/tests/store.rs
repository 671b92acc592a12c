use coin_ingest::fetch::collect_records;
use coin_ingest::fetch::PageOutcome;
use coin_ingest::record::FetchedRecord;
use coin_ingest::store::Store;

fn full_rec(uuid: &str, symbol: &str, name: &str, price: &str, market_cap: &str) -> FetchedRecord {
    FetchedRecord {
        uuid: uuid.to_owned(),
        symbol: symbol.to_owned(),
        name: name.to_owned(),
        price: price.to_owned(),
        market_cap: market_cap.to_owned(),
    }
}

fn rec(uuid: &str, symbol: &str) -> FetchedRecord {
    full_rec(uuid, symbol, symbol, "1.5", "100")
}

#[test]
fn upserting_a_new_uuid_appends_a_row() {
    let mut store = Store::new();
    store.insert_or_update_coins(&vec![rec("u1", "BTC")]);
    assert_eq!(store.coins.len(), 1);
    assert_eq!(store.coins[0].id, 1);
    assert_eq!(store.coins[0].uuid, "u1");
    assert_eq!(store.coins[0].symbol, "BTC");
}

#[test]
fn upserting_an_existing_uuid_updates_symbol_and_name_in_place() {
    let mut store = Store::new();
    store.insert_or_update_coins(&vec![rec("u1", "BTC"), rec("u2", "ETH")]);
    store.insert_or_update_coins(&vec![full_rec("u1", "XBT", "Bitcoin", "2.0", "200")]);
    assert_eq!(store.coins.len(), 2);
    assert_eq!(store.coins[0].id, 1);
    assert_eq!(store.coins[0].uuid, "u1");
    assert_eq!(store.coins[0].symbol, "XBT");
    assert_eq!(store.coins[0].name, "Bitcoin");
    assert_eq!(store.coins[1].symbol, "ETH");
}

#[test]
fn upserting_the_same_uuid_twice_in_one_batch_keeps_one_row() {
    let mut store = Store::new();
    store.insert_or_update_coins(&vec![rec("u1", "OLD"), rec("u1", "NEW")]);
    assert_eq!(store.coins.len(), 1);
    assert_eq!(store.coins[0].symbol, "NEW");
}

#[test]
fn upserting_an_empty_batch_changes_nothing() {
    let mut store = Store::new();
    store.insert_or_update_coins(&vec![rec("u1", "BTC")]);
    store.insert_or_update_coins(&Vec::new());
    assert_eq!(store.coins.len(), 1);
    assert!(store.coin_data.is_empty());
}

#[test]
fn an_unresolvable_uuid_contributes_no_observation() {
    // Appending observations before any dimension row exists must not
    // produce an orphaned row.
    let mut store = Store::new();
    store.insert_coin_data(&vec![rec("missing", "M")], 1000);
    assert!(store.coin_data.is_empty());
}

#[test]
fn a_mixed_batch_appends_only_resolvable_observations() {
    let mut store = Store::new();
    store.insert_or_update_coins(&vec![rec("u1", "BTC")]);
    store.insert_coin_data(&vec![rec("u1", "BTC"), rec("ghost", "G")], 1000);
    assert_eq!(store.coin_data.len(), 1);
    assert_eq!(store.coin_data[0].coin_id, 1);
}

#[test]
fn a_malformed_price_is_persisted_as_the_default_zero() {
    let mut store = Store::new();
    let r = full_rec("u1", "BTC", "Bitcoin", "not-a-number", "42.5");
    store.insert_or_update_coins(&vec![r.clone()]);
    store.insert_coin_data(&vec![r], 1000);
    assert_eq!(store.coin_data.len(), 1);
    assert_eq!(store.coin_data[0].price, "0");
    assert_eq!(store.coin_data[0].price.parse::<f64>().unwrap(), 0.0);
    assert_eq!(store.coin_data[0].market_cap, "42.5");
    assert_eq!(store.coin_data[0].market_cap.parse::<f64>().unwrap(), 42.5);
}

#[test]
fn find_coin_id_resolves_present_uuids_only() {
    let mut store = Store::new();
    store.insert_or_update_coins(&vec![rec("u1", "BTC"), rec("u2", "ETH")]);
    assert_eq!(store.find_coin_id(&"u2".to_owned()), Some(2));
    assert_eq!(store.find_coin_id(&"u3".to_owned()), None);
}

#[test]
fn one_cycle_links_one_observation_per_record() {
    // A two-page, three-records-per-page cycle: after persisting, the
    // dimension table holds exactly the distinct uuids and the fact table
    // one row per record, each linked by coin id.
    let pages = vec![
        PageOutcome::Success(vec![rec("a", "A"), rec("b", "B"), rec("c", "C")]),
        PageOutcome::Success(vec![rec("d", "D"), rec("e", "E"), rec("f", "F")]),
    ];
    let records = collect_records(pages);
    assert_eq!(records.len(), 6);
    let mut store = Store::new();
    store.persist_cycle(&records, 777);
    assert_eq!(store.coins.len(), 6);
    assert_eq!(store.coin_data.len(), 6);
    for (k, r) in records.iter().enumerate() {
        let coin_id = store.find_coin_id(&r.uuid).unwrap();
        let row = &store.coin_data[k];
        assert_eq!(row.coin_id, coin_id);
        assert_eq!(row.ts, 777);
        assert_eq!(row.id as usize, k + 1);
    }
}

#[test]
fn a_cycle_with_repeated_uuids_still_appends_one_observation_per_record() {
    let records = vec![rec("a", "A1"), rec("a", "A2"), rec("b", "B")];
    let mut store = Store::new();
    store.persist_cycle(&records, 5);
    assert_eq!(store.coins.len(), 2);
    assert_eq!(store.coins[0].symbol, "A2");
    assert_eq!(store.coin_data.len(), 3);
    assert_eq!(store.coin_data[0].coin_id, 1);
    assert_eq!(store.coin_data[1].coin_id, 1);
    assert_eq!(store.coin_data[2].coin_id, 2);
}
