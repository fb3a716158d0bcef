use polymarket_indexer::backfill::{chunk_ranges, BackfillRun};
use polymarket_indexer::dedup::dedupe_events;
use polymarket_indexer::enrich::{
    backoff_delay_ms, classify_response, FetchError, RetryDecision, RetryMachine,
};
use polymarket_indexer::events::{matches_filter, DecodeError, RawLog, TokenRegistered};
use polymarket_indexer::market::{MarketMetadata, Tag};
use polymarket_indexer::store::MarketStore;

fn topic(fill: u8) -> Vec<u8> {
    vec![fill; 32]
}

fn raw_log(topics: Vec<Vec<u8>>, block_number: Option<u64>, tx: Option<Vec<u8>>) -> RawLog {
    RawLog {
        address: vec![0x11; 20],
        topics,
        data: Vec::new(),
        block_number,
        transaction_hash: tx,
    }
}

fn sample_metadata() -> MarketMetadata {
    MarketMetadata {
        id: Some("612".to_string()),
        question: "Will it rain tomorrow?".to_string(),
        slug: "will-it-rain".to_string(),
        condition_id: "0xabc".to_string(),
        outcomes: vec!["Yes".to_string(), "No".to_string()],
        start_date: Some("2024-01-01T00:00:00Z".to_string()),
        end_date: None,
    }
}

#[test]
fn decode_rejects_three_topics() {
    let log = raw_log(
        vec![topic(0), topic(1), topic(2)],
        Some(100),
        Some(topic(9)),
    );
    assert_eq!(
        TokenRegistered::from_log(&log).unwrap_err(),
        DecodeError::MalformedLog
    );
}

#[test]
fn decode_rejects_missing_block_number() {
    let log = raw_log(
        vec![topic(0), topic(1), topic(2), topic(3)],
        None,
        Some(topic(9)),
    );
    assert_eq!(
        TokenRegistered::from_log(&log).unwrap_err(),
        DecodeError::IncompleteLog
    );
}

#[test]
fn decode_rejects_missing_tx_hash() {
    let log = raw_log(vec![topic(0), topic(1), topic(2), topic(3)], Some(100), None);
    assert_eq!(
        TokenRegistered::from_log(&log).unwrap_err(),
        DecodeError::IncompleteLog
    );
}

#[test]
fn decode_reads_well_formed_log() {
    let log = raw_log(
        vec![topic(0), topic(1), topic(2), topic(3)],
        Some(100),
        Some(topic(9)),
    );
    let event = TokenRegistered::from_log(&log).unwrap();
    assert_eq!(event.block_number, 100);
    assert_eq!(event.tx_hash, topic(9));
    assert_eq!(event.token0, topic(1));
    assert_eq!(event.token1, topic(2));
    assert_eq!(event.condition_id, topic(3));
}

#[test]
fn condition_id_hex_has_prefix_and_digits() {
    let log = raw_log(
        vec![topic(0), topic(1), topic(2), topic(0xab)],
        Some(1),
        Some(topic(9)),
    );
    let event = TokenRegistered::from_log(&log).unwrap();
    let mut expected = "0x".to_string();
    for _ in 0..32 {
        expected.push_str("ab");
    }
    assert_eq!(event.condition_id_hex(), expected);
}

#[test]
fn filter_checks_address_and_signature_topic() {
    let log = raw_log(vec![topic(7)], Some(1), None);
    assert!(matches_filter(&log, &vec![0x11; 20], &topic(7)));
    assert!(!matches_filter(&log, &vec![0x22; 20], &topic(7)));
    assert!(!matches_filter(&log, &vec![0x11; 20], &topic(8)));
}

#[test]
fn dedupe_keeps_one_event_per_condition_id() {
    let log_a = raw_log(
        vec![topic(0), topic(1), topic(2), topic(0xcc)],
        Some(5),
        Some(topic(9)),
    );
    let log_b = raw_log(
        vec![topic(0), topic(2), topic(1), topic(0xcc)],
        Some(5),
        Some(topic(9)),
    );
    let log_c = raw_log(
        vec![topic(0), topic(4), topic(5), topic(0xdd)],
        Some(6),
        Some(topic(8)),
    );
    let events = vec![
        TokenRegistered::from_log(&log_a).unwrap(),
        TokenRegistered::from_log(&log_b).unwrap(),
        TokenRegistered::from_log(&log_c).unwrap(),
    ];
    let unique = dedupe_events(&events);
    assert_eq!(unique.len(), 2);
    // first-seen token assignment wins
    assert_eq!(unique[0].condition_id, topic(0xcc));
    assert_eq!(unique[0].token0, topic(1));
    assert_eq!(unique[0].token1, topic(2));
    assert_eq!(unique[1].condition_id, topic(0xdd));
}

#[test]
fn pipeline_persists_one_record_for_swapped_token_logs() {
    let log_a = raw_log(
        vec![topic(0), topic(1), topic(2), topic(0xab)],
        Some(50),
        Some(topic(9)),
    );
    let log_b = raw_log(
        vec![topic(0), topic(2), topic(1), topic(0xab)],
        Some(50),
        Some(topic(9)),
    );
    let events = vec![
        TokenRegistered::from_log(&log_a).unwrap(),
        TokenRegistered::from_log(&log_b).unwrap(),
    ];
    let unique = dedupe_events(&events);
    let mut store = MarketStore::new();
    for event in unique.iter() {
        store.upsert_market(event, Some(&sample_metadata()), 1_000);
    }
    assert_eq!(store.count_markets(), 1);
    let record = store.get_market_by_condition_id(&topic(0xab)).unwrap();
    assert_eq!(record.token0, topic(1));
    assert_eq!(record.block_number, 50);
}

#[test]
fn upsert_twice_with_identical_inputs_is_idempotent() {
    let log = raw_log(
        vec![topic(0), topic(1), topic(2), topic(3)],
        Some(10),
        Some(topic(9)),
    );
    let event = TokenRegistered::from_log(&log).unwrap();
    let meta = sample_metadata();

    let mut once = MarketStore::new();
    once.upsert_market(&event, Some(&meta), 500);

    let mut twice = MarketStore::new();
    twice.upsert_market(&event, Some(&meta), 500);
    twice.upsert_market(&event, Some(&meta), 500);

    assert_eq!(once.count_markets(), 1);
    assert_eq!(twice.count_markets(), 1);
    let a = once.get_market_by_condition_id(&topic(3)).unwrap();
    let b = twice.get_market_by_condition_id(&topic(3)).unwrap();
    assert_eq!(a.question, b.question);
    assert_eq!(a.slug, b.slug);
    assert_eq!(a.outcomes, b.outcomes);
    assert_eq!(a.start_date, b.start_date);
    assert_eq!(a.end_date, b.end_date);
    assert_eq!(a.created_at, b.created_at);
    assert_eq!(a.updated_at, b.updated_at);
    assert_eq!(a.metadata_fetched_at, b.metadata_fetched_at);
}

#[test]
fn later_upsert_without_metadata_keeps_fields() {
    let log = raw_log(
        vec![topic(0), topic(1), topic(2), topic(3)],
        Some(10),
        Some(topic(9)),
    );
    let event = TokenRegistered::from_log(&log).unwrap();
    let mut store = MarketStore::new();
    store.upsert_market(&event, Some(&sample_metadata()), 500);
    store.upsert_market(&event, None, 900);

    let record = store.get_market_by_condition_id(&topic(3)).unwrap();
    assert_eq!(record.question.as_deref(), Some("Will it rain tomorrow?"));
    assert_eq!(record.slug.as_deref(), Some("will-it-rain"));
    assert_eq!(
        record.outcomes,
        Some(vec!["Yes".to_string(), "No".to_string()])
    );
    assert_eq!(record.metadata_fetched_at, Some(500));
    assert_eq!(record.updated_at, 900);
}

#[test]
fn records_without_metadata_are_listed_oldest_first() {
    let mut store = MarketStore::new();
    for (fill, block) in [(1u8, 10u64), (2, 20), (3, 30)] {
        let log = raw_log(
            vec![topic(0), topic(4), topic(5), topic(fill)],
            Some(block),
            Some(topic(9)),
        );
        let event = TokenRegistered::from_log(&log).unwrap();
        let metadata = if fill == 2 { Some(sample_metadata()) } else { None };
        store.upsert_market(&event, metadata.as_ref(), i64::from(fill));
    }
    let missing = store.get_markets_without_metadata(10);
    assert_eq!(missing.len(), 2);
    assert_eq!(missing[0].condition_id, topic(1));
    assert_eq!(missing[1].condition_id, topic(3));
    let limited = store.get_markets_without_metadata(1);
    assert_eq!(limited.len(), 1);
    assert_eq!(limited[0].condition_id, topic(1));
}

#[test]
fn tag_insertion_is_idempotent() {
    let mut store = MarketStore::new();
    let tags = vec![
        Tag {
            id: "t1".to_string(),
            label: Some("Sports".to_string()),
            slug: None,
        },
        Tag {
            id: "t2".to_string(),
            label: None,
            slug: Some("politics".to_string()),
        },
    ];
    store.insert_market_tags(&topic(3), &tags);
    store.insert_market_tags(&topic(3), &tags);
    let joined = store.get_tags_for_market(&topic(3));
    assert_eq!(joined.len(), 2);
    assert_eq!(joined[0].id, "t1");
    assert_eq!(joined[0].label.as_deref(), Some("Sports"));
    assert_eq!(joined[1].id, "t2");
    let other = store.get_tags_for_market(&topic(4));
    assert!(other.is_empty());
}

#[test]
fn tags_come_back_ordered_by_label() {
    let mut store = MarketStore::new();
    let tags = vec![
        Tag {
            id: "t1".to_string(),
            label: Some("zz".to_string()),
            slug: None,
        },
        Tag {
            id: "t2".to_string(),
            label: None,
            slug: None,
        },
        Tag {
            id: "t3".to_string(),
            label: Some("aa".to_string()),
            slug: None,
        },
    ];
    store.insert_market_tags(&topic(3), &tags);
    let joined = store.get_tags_for_market(&topic(3));
    assert_eq!(joined.len(), 3);
    assert_eq!(joined[0].label.as_deref(), Some("aa"));
    assert_eq!(joined[1].label.as_deref(), Some("zz"));
    // absent labels sort last
    assert_eq!(joined[2].id, "t2");
    assert!(joined[2].label.is_none());
}

#[test]
fn tag_merge_fills_missing_fields() {
    let mut store = MarketStore::new();
    let sparse = vec![Tag {
        id: "t1".to_string(),
        label: None,
        slug: Some("sports".to_string()),
    }];
    let full = vec![Tag {
        id: "t1".to_string(),
        label: Some("Sports".to_string()),
        slug: None,
    }];
    store.insert_market_tags(&topic(3), &sparse);
    store.insert_market_tags(&topic(3), &full);
    let joined = store.get_tags_for_market(&topic(3));
    assert_eq!(joined.len(), 1);
    assert_eq!(joined[0].label.as_deref(), Some("Sports"));
    assert_eq!(joined[0].slug.as_deref(), Some("sports"));
}

#[test]
fn retry_not_found_makes_three_attempts_then_absent() {
    let mut machine = RetryMachine::new(100, 2);
    let mut attempts: u32 = 0;
    let mut delays: Vec<u64> = Vec::new();
    let result;
    loop {
        attempts += 1;
        match machine.on_outcome(Ok(None)) {
            RetryDecision::Done(r) => {
                result = r;
                break;
            }
            RetryDecision::RetryAfter(ms) => delays.push(ms),
        }
    }
    assert_eq!(attempts, 3);
    assert_eq!(delays, vec![100, 200]);
    assert!(matches!(result, Ok(None)));
}

#[test]
fn retry_found_stops_at_once() {
    let mut machine = RetryMachine::new(100, 5);
    match machine.on_outcome(Ok(Some(sample_metadata()))) {
        RetryDecision::Done(Ok(Some(m))) => assert_eq!(m.slug, "will-it-rain"),
        _ => panic!("expected an immediate result"),
    }
}

#[test]
fn retry_parse_error_is_not_retried() {
    let mut machine = RetryMachine::new(100, 5);
    assert!(matches!(
        machine.on_outcome(Err(FetchError::Parse)),
        RetryDecision::Done(Err(FetchError::Parse))
    ));
}

#[test]
fn retry_all_transport_failures_propagates_error() {
    let mut machine = RetryMachine::new(100, 1);
    assert!(matches!(
        machine.on_outcome(Err(FetchError::Transport)),
        RetryDecision::RetryAfter(100)
    ));
    assert!(matches!(
        machine.on_outcome(Err(FetchError::Transport)),
        RetryDecision::Done(Err(FetchError::Transport))
    ));
}

#[test]
fn backoff_doubles_per_attempt() {
    assert_eq!(backoff_delay_ms(100, 0), 100);
    assert_eq!(backoff_delay_ms(100, 1), 200);
    assert_eq!(backoff_delay_ms(100, 2), 400);
}

#[test]
fn classify_sorts_fetch_outcomes() {
    assert!(matches!(
        classify_response(false, None),
        Err(FetchError::Transport)
    ));
    assert!(matches!(
        classify_response(false, Some(vec![sample_metadata()])),
        Err(FetchError::Transport)
    ));
    assert!(matches!(classify_response(true, None), Err(FetchError::Parse)));
    assert!(matches!(classify_response(true, Some(Vec::new())), Ok(None)));
    match classify_response(true, Some(vec![sample_metadata()])) {
        Ok(Some(m)) => assert_eq!(m.slug, "will-it-rain"),
        _ => panic!("expected the first listed market"),
    }
}

#[test]
fn http_failure_leaves_record_without_metadata() {
    // A non-success response is retryable; once retries are exhausted the
    // record is still persisted, with all metadata fields null.
    let mut machine = RetryMachine::new(100, 1);
    let outcome = classify_response(false, None);
    assert!(matches!(
        machine.on_outcome(outcome),
        RetryDecision::RetryAfter(100)
    ));
    let outcome = classify_response(false, None);
    let metadata = match machine.on_outcome(outcome) {
        RetryDecision::Done(Ok(m)) => m,
        RetryDecision::Done(Err(_)) => None,
        RetryDecision::RetryAfter(_) => panic!("budget was exhausted"),
    };
    assert!(metadata.is_none());

    let log = raw_log(
        vec![topic(0), topic(1), topic(2), topic(3)],
        Some(10),
        Some(topic(9)),
    );
    let event = TokenRegistered::from_log(&log).unwrap();
    let mut store = MarketStore::new();
    store.upsert_market(&event, metadata.as_ref(), 700);
    let record = store.get_market_by_condition_id(&topic(3)).unwrap();
    assert!(record.question.is_none());
    assert!(record.outcomes.is_none());
    assert!(record.metadata_fetched_at.is_none());
}

#[test]
fn upsert_with_wall_clock_sets_fetched_timestamp() {
    let log = raw_log(
        vec![topic(0), topic(1), topic(2), topic(3)],
        Some(10),
        Some(topic(9)),
    );
    let event = TokenRegistered::from_log(&log).unwrap();
    let mut store = MarketStore::new();
    store.upsert_market_now(&event, Some(&sample_metadata()));
    assert_eq!(store.count_markets(), 1);
    let record = store.get_market_by_condition_id(&topic(3)).unwrap();
    // the clock wrapper handed back a real instant, well after the epoch
    assert!(record.metadata_fetched_at.unwrap() > 1_000_000_000_000);
    assert_eq!(record.created_at, record.updated_at);
}

#[test]
fn backfill_chunks_thousand_blocks_into_ten_increasing_fetches() {
    let chunks = chunk_ranges(0, 999, 100);
    assert_eq!(chunks.len(), 10);
    assert_eq!(chunks[0], (0, 99));
    assert_eq!(chunks[9], (900, 999));
    for i in 1..chunks.len() {
        assert!(chunks[i - 1].1 < chunks[i].0);
        assert_eq!(chunks[i].0, chunks[i - 1].1 + 1);
    }

    let mut run = BackfillRun::new(0, 999, 100, 3);
    let mut fetched: Vec<(u64, u64)> = Vec::new();
    while let Some(range) = run.current_range() {
        fetched.push(range);
        run.on_logs(&Vec::new());
    }
    assert_eq!(fetched.len(), 10);
    for i in 1..fetched.len() {
        assert!(fetched[i - 1].1 < fetched[i].0);
    }
}

#[test]
fn dedupe_of_empty_batch_is_empty() {
    let unique = dedupe_events(&Vec::new());
    assert!(unique.is_empty());
}

#[test]
fn single_block_range_is_one_chunk() {
    assert_eq!(chunk_ranges(5, 5, 100), vec![(5, 5)]);
    assert_eq!(chunk_ranges(0, 100, 100), vec![(0, 99), (100, 100)]);
}

#[test]
fn backfill_records_gap_after_exhausted_retries() {
    let mut run = BackfillRun::new(0, 299, 100, 2);
    // first sub-range fails twice: one retry, then a gap
    assert!(run.on_fetch_error());
    assert!(!run.on_fetch_error());
    assert_eq!(run.gaps, vec![(0, 99)]);
    assert_eq!(run.current_range(), Some((100, 199)));
    // a successful fetch decodes and advances
    let log = raw_log(
        vec![topic(0), topic(1), topic(2), topic(3)],
        Some(150),
        Some(topic(9)),
    );
    let bad = raw_log(vec![topic(0)], Some(150), Some(topic(9)));
    run.on_logs(&vec![log, bad]);
    assert_eq!(run.events.len(), 1);
    assert_eq!(run.malformed_logs, 1);
    assert_eq!(run.current_range(), Some((200, 299)));
}
