use polymarket_indexer::backfill::{parse_block_range, parse_u64, ArgError};
use polymarket_indexer::constants::{
    ctf_contract_address, ctf_exchange_address, token_registered_event_signature,
    CTF_EXCHANGE_ADDRESS, TOKEN_REGISTERED_SIGNATURE,
};
use polymarket_indexer::hex_str::hex_decode;
use polymarket_indexer::live::{DedupWindow, LiveAction, LiveEvent, LiveSession, LiveState};
use polymarket_indexer::market::MarketMetadata;
use polymarket_indexer::provider::{Chain, Provider};

fn args(list: &[&str]) -> Vec<String> {
    list.iter().map(|a| a.to_string()).collect()
}

#[test]
fn parse_u64_reads_numerals_only() {
    assert_eq!(parse_u64("0"), Some(0));
    assert_eq!(parse_u64("123"), Some(123));
    assert_eq!(parse_u64("18446744073709551615"), Some(u64::MAX));
    assert_eq!(parse_u64("18446744073709551616"), None);
    assert_eq!(parse_u64(""), None);
    assert_eq!(parse_u64("12a"), None);
    assert_eq!(parse_u64("-3"), None);
}

#[test]
fn block_range_from_explicit_flags() {
    let a = args(&["prog", "--from-block", "50000000", "--to-block", "50001000"]);
    assert_eq!(parse_block_range(&a, 99), Ok((50000000, 50001000)));
}

#[test]
fn block_range_from_days_window() {
    // one day at two seconds per block reaches 43200 blocks back
    let a = args(&["prog", "--days", "1"]);
    assert_eq!(parse_block_range(&a, 50_000_000), Ok((49_956_800, 50_000_000)));
}

#[test]
fn block_range_from_minutes_window_saturates_at_zero() {
    let a = args(&["prog", "--minutes", "30"]);
    assert_eq!(parse_block_range(&a, 100), Ok((0, 100)));
}

#[test]
fn block_range_errors() {
    let a = args(&["prog", "--days"]);
    assert_eq!(parse_block_range(&a, 100), Err(ArgError::InvalidTimeWindow));
    let a = args(&["prog", "--hours", "six"]);
    assert_eq!(parse_block_range(&a, 100), Err(ArgError::InvalidTimeWindow));
    let a = args(&["prog", "--from-block", "5"]);
    assert_eq!(parse_block_range(&a, 100), Err(ArgError::InvalidRange));
    let a = args(&["prog"]);
    assert_eq!(parse_block_range(&a, 100), Err(ArgError::InvalidRange));
}

#[test]
fn http_urls_append_api_key() {
    assert_eq!(
        Provider::Alchemy.http_url(Chain::Polygon, Some("KEY")),
        "https://polygon-mainnet.g.alchemy.com/v2/KEY"
    );
    assert_eq!(
        Provider::Infura.http_url(Chain::Ethereum, Some("KEY")),
        "https://mainnet.infura.io/v3/KEY"
    );
    assert_eq!(
        Provider::PublicRpc.http_url(Chain::Polygon, None),
        "https://polygon-rpc.com"
    );
}

#[test]
fn ws_urls_append_api_key() {
    assert_eq!(
        Provider::Alchemy.ws_url(Chain::Polygon, Some("KEY")),
        "wss://polygon-mainnet.g.alchemy.com/v2/KEY"
    );
    assert_eq!(
        Provider::Infura.ws_url(Chain::Polygon, Some("KEY")),
        "wss://polygon-mainnet.infura.io/ws/v3/KEY"
    );
}

#[test]
fn hex_decode_reads_pairs() {
    assert_eq!(hex_decode("00ff10"), Some(vec![0x00, 0xff, 0x10]));
    assert_eq!(hex_decode("AbCd"), Some(vec![0xab, 0xcd]));
    assert_eq!(hex_decode("abc"), None);
    assert_eq!(hex_decode("zz"), None);
}

#[test]
fn contract_addresses_decode_to_twenty_bytes() {
    let exchange = ctf_exchange_address();
    assert_eq!(exchange.len(), 20);
    assert_eq!(exchange[0], 0x4b);
    assert_eq!(exchange[19], 0x2e);
    assert!(CTF_EXCHANGE_ADDRESS.starts_with("0x"));
    let ctf = ctf_contract_address();
    assert_eq!(ctf.len(), 20);
    assert_eq!(ctf[0], 0x4d);
}

#[test]
fn event_signature_topic_is_a_32_byte_digest() {
    let topic0 = token_registered_event_signature();
    assert_eq!(topic0.len(), 32);
    // a digest, not the signature text handed back
    assert_ne!(topic0, TOKEN_REGISTERED_SIGNATURE.as_bytes().to_vec());
    assert_eq!(topic0, token_registered_event_signature());
}

#[test]
fn metadata_from_parts_decodes_outcomes() {
    let m = MarketMetadata::from_parts(
        Some("7".to_string()),
        "Question?".to_string(),
        "question".to_string(),
        "0xabc".to_string(),
        "[\"Up\", \"Down\"]",
        None,
        None,
    )
    .unwrap();
    assert_eq!(m.outcomes, vec!["Up".to_string(), "Down".to_string()]);
    assert_eq!(m.question, "Question?");

    assert!(MarketMetadata::from_parts(
        None,
        "q".to_string(),
        "s".to_string(),
        "0x1".to_string(),
        "not json",
        None,
        None,
    )
    .is_none());
}

#[test]
fn live_session_reconnects_with_backoff_and_stops_on_cancel() {
    let mut session = LiveSession::new(100, 6);
    assert_eq!(session.on_event(LiveEvent::Start), LiveAction::Connect);
    assert_eq!(session.state, LiveState::Connecting);
    assert_eq!(session.on_event(LiveEvent::Connected), LiveAction::Idle);
    assert_eq!(session.state, LiveState::Subscribed);

    assert_eq!(session.on_event(LiveEvent::StreamDropped), LiveAction::Wait(100));
    assert_eq!(session.state, LiveState::Reconnecting);
    assert_eq!(session.on_event(LiveEvent::BackoffElapsed), LiveAction::Connect);
    assert_eq!(session.on_event(LiveEvent::ConnectFailed), LiveAction::Wait(200));
    assert_eq!(session.on_event(LiveEvent::BackoffElapsed), LiveAction::Connect);
    // a successful connect resets the backoff
    assert_eq!(session.on_event(LiveEvent::Connected), LiveAction::Idle);
    assert_eq!(session.on_event(LiveEvent::StreamDropped), LiveAction::Wait(100));

    assert_eq!(session.on_event(LiveEvent::CancelRequested), LiveAction::Release);
    assert_eq!(session.state, LiveState::Stopped);
    assert_eq!(session.on_event(LiveEvent::CancelRequested), LiveAction::Idle);
}

#[test]
fn dedup_window_absorbs_recent_duplicates() {
    let mut window = DedupWindow::new(2);
    let a = vec![0xaa; 32];
    let b = vec![0xbb; 32];
    let c = vec![0xcc; 32];
    assert!(window.note(&a));
    assert!(!window.note(&a));
    assert!(window.note(&b));
    // capacity two: noting a third evicts the oldest
    assert!(window.note(&c));
    assert!(window.note(&a));
}
