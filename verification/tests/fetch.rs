use coin_ingest::fetch::collect_records;
use coin_ingest::fetch::page_offset;
use coin_ingest::fetch::PageOutcome;
use coin_ingest::fetch::DEFAULT_LIMIT;
use coin_ingest::record::FetchedRecord;

fn rec(uuid: &str, symbol: &str) -> FetchedRecord {
    FetchedRecord {
        uuid: uuid.to_owned(),
        symbol: symbol.to_owned(),
        name: format!("{symbol} coin"),
        price: "1.0".to_owned(),
        market_cap: "10.0".to_owned(),
    }
}

#[test]
fn page_offsets_step_by_the_page_size() {
    assert_eq!(page_offset(0, DEFAULT_LIMIT), 0);
    assert_eq!(page_offset(1, DEFAULT_LIMIT), 100);
    assert_eq!(page_offset(3, DEFAULT_LIMIT), 300);
    assert_eq!(page_offset(7, 25), 175);
}

#[test]
fn a_failed_page_is_skipped_and_the_rest_keep_their_order() {
    // Page 2 of 5 fails; pages 0, 1, 3 and 4 succeed.
    let pages = vec![
        PageOutcome::Success(vec![rec("a", "A"), rec("b", "B")]),
        PageOutcome::Success(vec![rec("c", "C")]),
        PageOutcome::Failed,
        PageOutcome::Success(vec![rec("d", "D")]),
        PageOutcome::Success(vec![rec("e", "E"), rec("f", "F")]),
    ];
    let records = collect_records(pages);
    let uuids: Vec<&str> = records.iter().map(|r| r.uuid.as_str()).collect();
    assert_eq!(uuids, ["a", "b", "c", "d", "e", "f"]);
}

#[test]
fn all_pages_failing_yields_no_records() {
    let pages = vec![PageOutcome::Failed, PageOutcome::Failed, PageOutcome::Failed];
    let records = collect_records(pages);
    assert!(records.is_empty());
}

#[test]
fn no_pages_yield_no_records() {
    let records = collect_records(Vec::new());
    assert!(records.is_empty());
}

#[test]
fn an_empty_successful_page_contributes_nothing() {
    let pages = vec![
        PageOutcome::Success(Vec::new()),
        PageOutcome::Success(vec![rec("x", "X")]),
    ];
    let records = collect_records(pages);
    assert_eq!(records.len(), 1);
    assert_eq!(records[0].uuid, "x");
}
