//! DBInternational: logins, masters, subscriptions and ticks.
use std::io::Write;

use base64::engine::general_purpose::URL_SAFE_NO_PAD;
use base64::Engine;
use dhancred_trading_app::adapters::dbinternational::auth::{
    build_saved_session, jwt_exp_epoch, next_login, parse_login_response, read_login,
    same_ist_day, sanitized_error_snippet, token_valid_at, DbinternationalLoginKind,
    DbinternationalLoginSummary, DbinternationalSavedSession, LoginAllStep, ParsedLoginSession,
};
use dhancred_trading_app::adapters::dbinternational::latest_price_file::DbinternationalLatestPriceFile;
use dhancred_trading_app::adapters::dbinternational::live::{
    market_data_socket_url, parse_tick_event, queue_subscription_response_ticks,
    socketio_manager_path, tick_error, InstrumentNames,
};
use dhancred_trading_app::adapters::dbinternational::master::{
    ensure_master_current, fetch_master, market_data_master_url_from_base_url, master_refreshed,
    parse_master_response, refresh_master, MasterFile, MasterStep,
};
use dhancred_trading_app::adapters::dbinternational::master_catalog::{
    instrument_key_from_token, parse_master_catalog,
};
use dhancred_trading_app::adapters::dbinternational::runtime::{after_run, RunStep};
use dhancred_trading_app::adapters::dbinternational::socket::{
    binary_bytes_from_value, queue_binary_packet_ticks,
};
use dhancred_trading_app::adapters::dbinternational::universe::parse_catalog_contents;
use dhancred_trading_app::adapters::universe::{selected_trading_symbols, StrikeWindow};
use dhancred_trading_app::adapters::HttpReply;
use dhancred_trading_app::binary64::{Decimal, Numbers, Real};
use dhancred_trading_app::config::{DbinternationalBrokerSection, InstrumentSelection};
use dhancred_trading_app::feeder::catalog::InstrumentDefinition;
use dhancred_trading_app::feeder::error::FeedError;
use dhancred_trading_app::feeder::event::{InstrumentName, PriceEvent};
use dhancred_trading_app::json::{read_json, Json};
use dhancred_trading_app::order::TextMap;
use dhancred_trading_app::pairs::PairMap;

fn bits_of(value: f64) -> Real {
    Real { bits: value.to_bits() }
}

fn told(value: f64) -> Decimal {
    Decimal { value: bits_of(value), text: format!("{value:.4}") }
}

fn json(text: &str) -> Json {
    read_json(text).expect("json")
}

fn numbers(content: &str) -> Numbers {
    let mut numbers: Numbers = TextMap::new();
    for text in content.split(|c: char| c == '|' || c == '\n') {
        if let Ok(value) = text.trim().parse::<f64>() {
            numbers.insert(
                text.trim().to_string(),
                Decimal { value: bits_of(value), text: value.to_string() },
            );
        }
    }
    numbers
}

#[test]
fn parses_interactive_object_login_response() {
    let value = json(
        r#"{"type": "success", "result": {"token": "interactive-token", "userID": "SYMP"}}"#,
    );

    let session = parse_login_response(DbinternationalLoginKind::Interactive, &value).unwrap();

    assert_eq!(
        session,
        ParsedLoginSession {
            access_token: "interactive-token".to_string(),
            user_id: Some("SYMP".to_string()),
            base_url: None
        }
    );
}

#[test]
fn parses_market_data_array_login_response() {
    let value = json(
        r#"[{"type": "success", "result": {
            "token": "market-data-token",
            "userID": "ABC",
            "baseURL": "https://developers.symphonyfintech.in/apibinarymarketdata/auth/login"
        }}]"#,
    );

    let session = parse_login_response(DbinternationalLoginKind::MarketData, &value).unwrap();

    assert_eq!(
        session,
        ParsedLoginSession {
            access_token: "market-data-token".to_string(),
            user_id: Some("ABC".to_string()),
            base_url: Some(
                "https://developers.symphonyfintech.in/apibinarymarketdata/auth/login".to_string()
            )
        }
    );
}

#[test]
fn builds_saved_session_with_normalized_base_url() {
    let parsed = ParsedLoginSession {
        access_token: "token".to_string(),
        user_id: Some("ABC".to_string()),
        base_url: None,
    };
    let response = json(r#"{"type": "success", "result": {"token": "token", "userID": "ABC"}}"#);

    let session = build_saved_session(
        DbinternationalLoginKind::MarketData,
        "https://developers.symphonyfintech.in/apibinarymarketdata/auth/login",
        parsed,
        response,
        1_777_100_000,
    )
    .expect("saved session");

    assert_eq!(session.base_url, "https://developers.symphonyfintech.in/apibinarymarketdata");
    assert_eq!(
        session.auth_url,
        "https://developers.symphonyfintech.in/apibinarymarketdata/auth/login"
    );
    assert_eq!(session.access_token, "token");
    assert_eq!(session.logged_in_at_epoch_secs, 1_777_100_000);
}

#[test]
fn parses_access_token_and_connection_string_aliases() {
    let text = r#"{"type": "success", "result": {
        "accessToken": "alias-token",
        "clientID": "CLIENT1",
        "connectionString": "https://developers.symphonyfintech.in/1interactive/user/session"
    }}"#;

    let parsed = parse_login_response(DbinternationalLoginKind::Interactive, &json(text)).unwrap();
    let session = build_saved_session(
        DbinternationalLoginKind::Interactive,
        "https://fallback.example/1interactive/user/session",
        parsed,
        json(text),
        1_777_100_000,
    )
    .expect("saved session");

    assert_eq!(session.access_token, "alias-token");
    assert_eq!(session.user_id, Some("CLIENT1".to_string()));
    assert_eq!(session.base_url, "https://developers.symphonyfintech.in/1interactive");
}

#[test]
fn rejects_non_success_login_response() {
    let value = json(r#"{"type": "error", "description": "bad credentials"}"#);

    assert!(parse_login_response(DbinternationalLoginKind::MarketData, &value).is_err());
}

#[test]
fn a_reply_to_a_login_is_read_whole() {
    let url = "https://h/apibinarymarketdata/auth/login";
    let reply = |success: bool, status: u16, body: &str| HttpReply {
        success,
        status,
        body: body.to_string(),
    };
    let read = |reply: &HttpReply| {
        read_login(DbinternationalLoginKind::MarketData, url, reply, 7)
    };
    let session = read(&reply(
        true,
        200,
        r#"{"type":"success","result":{"token":"t","userID":"U"}}"#,
    ))
    .expect("session");
    assert_eq!(session.access_token, "t");
    assert!(read(&reply(false, 401, "no")).is_err());
    assert!(read(&reply(true, 200, "{")).is_err());
}

#[test]
fn redacts_secret_values_from_error_snippet() {
    let body = r#"{"errors":[{"messages":["\"secretKey\" with value \"Secret123$Xy\" failed"]}]}"#;

    let snippet = sanitized_error_snippet(body);

    assert!(snippet.contains("<redacted>"));
    assert!(!snippet.contains("Secret123"));
}

fn test_jwt_with_exp(exp: u64) -> String {
    let header = URL_SAFE_NO_PAD.encode(br#"{"alg":"none"}"#);
    let payload = URL_SAFE_NO_PAD.encode(format!(r#"{{"exp":{exp}}}"#));
    format!("{header}.{payload}.signature")
}

#[test]
fn detects_current_session_by_ist_day_and_jwt_expiry() {
    let session = DbinternationalSavedSession {
        broker: "DBINTERNATIONAL".to_string(),
        login_kind: DbinternationalLoginKind::MarketData.as_str().to_string(),
        logged_in_at_epoch_secs: 1_777_100_000,
        access_token: test_jwt_with_exp(1_777_186_400),
        user_id: Some("ABC".to_string()),
        base_url: "https://xts3.dbonlinetrade.com/apibinarymarketdata".to_string(),
        auth_url: "https://xts3.dbonlinetrade.com/apibinarymarketdata/auth/login".to_string(),
        response: json("{}"),
    };

    assert!(same_ist_day(session.logged_in_at_epoch_secs, 1_777_100_500));
    assert!(token_valid_at(&session.access_token, 1_777_100_500));
    assert!(!token_valid_at(&session.access_token, 1_777_186_400));
    assert_eq!(jwt_exp_epoch(&session.access_token), Some(1_777_186_400));
    assert_eq!(jwt_exp_epoch("a.b"), None);
}

#[test]
fn writes_latest_prices_for_configured_symbols() {
    let symbols = vec![
        "GOLD05AUG2026FUT".to_string(),
        "GOLDM03JUL2026FUT".to_string(),
        "GOLDTEN30JUN2026FUT".to_string(),
    ];
    let mut file = DbinternationalLatestPriceFile::new(&symbols);

    assert_eq!(
        file.content(),
        "GOLD05AUG2026FUT: -\nGOLDM03JUL2026FUT: -\nGOLDTEN30JUN2026FUT: -\n"
    );

    assert!(file.update_tick("GOLDM03JUL2026FUT", &told(140_317.0)));
    assert!(file.update_tick("GOLDTEN30JUN2026FUT", &told(141_000.5)));
    assert!(!file.update_tick("SILVER05SEP2026FUT", &told(150_000.0)));

    assert_eq!(
        file.content(),
        "GOLD05AUG2026FUT: -\nGOLDM03JUL2026FUT: 140317.0000\nGOLDTEN30JUN2026FUT: 141000.5000\n"
    );
}

#[test]
fn deduplicates_configured_symbols() {
    let symbols = vec!["GOLD05AUG2026FUT".to_string(), "GOLD05AUG2026FUT".to_string()];

    let file = DbinternationalLatestPriceFile::new(&symbols);

    assert_eq!(file.content(), "GOLD05AUG2026FUT: -\n");
}

#[test]
fn replaces_symbols_and_preserves_existing_prices() {
    let symbols = vec!["GOLD".to_string(), "GOLD26JUNFUT".to_string()];
    let mut file = DbinternationalLatestPriceFile::new(&symbols);

    file.update_tick("GOLD", &told(90_000.0));
    file.set_symbols(&vec![
        "GOLD".to_string(),
        "SENSEX".to_string(),
        "SENSEX26JUNFUT".to_string(),
    ]);

    assert_eq!(file.content(), "GOLD: 90000.0000\nSENSEX: -\nSENSEX26JUNFUT: -\n");
}

#[test]
fn builds_socket_url_from_saved_session_base_url() {
    let url = market_data_socket_url(
        "https://xts3.dbonlinetrade.com/apibinarymarketdata",
        "token.jwt",
        "41415",
        "JSON",
        "Full",
    )
    .expect("socket url");

    assert_eq!(
        url,
        "https://xts3.dbonlinetrade.com/?token=token.jwt&userID=41415&publishFormat=JSON&broadcastMode=Full"
    );
}

#[test]
fn normalizes_socketio_path_for_engineio_v3_client() {
    assert_eq!(socketio_manager_path("/apibinarymarketdata/socket.io"), "/apibinarymarketdata");
    assert_eq!(socketio_manager_path("/apibinarymarketdata/socketio"), "/apibinarymarketdata");
    assert_eq!(socketio_manager_path("socket.io"), "/");
}

#[test]
fn parses_cash_and_derivative_master_aliases() {
    let content = "\
NSECM|2885|8|RELIANCE|RELIANCE-EQ|EQ|RELIANCE-EQ|1100100002885|1440.4|1178.6|67662|0.1|1|1|RELIANCE|INE002A01018|1|1|RELIANCE INDUSTRIES LTD-EQ|0|-1|-1
NSEFO|62329|1|NIFTY|NIFTY26JUNFUT|FUTIDX|NIFTY-FUTIDX|2618100062329|26237.7|21467.3|1801|0.1|65|1|-1|Nifty 50|2026-06-30T14:30:00|NIFTY 30JUN2026|1|1|NIFTY26JUNFUT
";
    let catalog = parse_master_catalog(content).expect("catalog");

    let reliance = catalog.resolve_symbol("RELIANCE-EQ").expect("reliance");
    assert_eq!(reliance.key.exchange_segment, 1);
    assert_eq!(reliance.key.exchange_instrument_id, 2885);

    let nifty = catalog.resolve_symbol("NIFTY26JUNFUT").expect("nifty fut");
    assert_eq!(nifty.key.exchange_segment, 2);
    assert_eq!(nifty.key.exchange_instrument_id, 62329);
}

#[test]
fn rejects_ambiguous_alias() {
    let content = "\
NSEFO|62329|1|NIFTY|NIFTY26JUNFUT|FUTIDX|NIFTY-FUTIDX|2618100062329|26237.7|21467.3|1801|0.1|65|1|-1|Nifty 50|2026-06-30T14:30:00|NIFTY 30JUN2026|1|1|NIFTY26JUNFUT
NSEFO|61093|1|NIFTY|NIFTY26JULFUT|FUTIDX|NIFTY-FUTIDX|2620900061093|26345.4|21555.4|1801|0.1|65|1|-1|Nifty 50|2026-07-28T14:30:00|NIFTY 28JUL2026|1|1|NIFTY26JULFUT
";
    let catalog = parse_master_catalog(content).expect("catalog");

    assert!(catalog.resolve_symbol("NIFTY-FUTIDX").is_err());
}

#[test]
fn resolves_index_cache_rows_without_derivative_underlying_ambiguity() {
    let content = "\
NSEFO|75452|2|BANKNIFTY|BANKNIFTY26JUN52100PE|OPTIDX|BANKNIFTY-OPTIDX|2618100075452|27.25|0.05|901|0.05|30|1|-1|Nifty Bank|2026-06-30T14:30:00|52100|4|BANKNIFTY 30JUN2026 PE 52100|1|1|BANKNIFTY26JUN52100PE
NSECM|26001|16|NIFTY BANK|NIFTY BANK|INDEX|NIFTY BANK-INDEX|26001|0|0|0|0.05|1|1|NIFTY BANK|NIFTYBANK|1|1||||-1|NIFTY BANK
BSECM|26065|16|SENSEX|SENSEX|INDEX|SENSEX-INDEX|26065|0|0|0|0.05|1|1|SENSEX|SENSEX|1|1||||-1|SENSEX
";
    let catalog = parse_master_catalog(content).expect("catalog");

    let bank_nifty = catalog.resolve_symbol("NIFTY BANK").expect("bank nifty");
    assert_eq!(bank_nifty.key.exchange_segment, 1);
    assert_eq!(bank_nifty.key.exchange_instrument_id, 26001);

    let sensex = catalog.resolve_symbol("SENSEX").expect("sensex");
    assert_eq!(sensex.key.exchange_segment, 11);
    assert_eq!(sensex.key.exchange_instrument_id, 26065);
}

#[test]
fn merging_masters_keeps_what_they_resolve() {
    let first = "NSECM|2885|8|RELIANCE|RELIANCE-EQ|EQ|RELIANCE-EQ|1|1|1|1|0.1|1|1|RELIANCE|I|1|1|R|0|-1|-1\n";
    let second = "BSECM|26065|16|SENSEX|SENSEX|INDEX|SENSEX-INDEX|26065|0|0|0|0.05|1|1|SENSEX|SENSEX|1|1||||-1|SENSEX\n";
    let mut catalog = parse_master_catalog(first).expect("catalog");
    assert!(catalog.resolve_symbol("SENSEX").is_err());
    catalog.merge(&parse_master_catalog(second).expect("catalog"));
    assert_eq!(catalog.resolve_symbol("SENSEX").expect("sensex").key.exchange_segment, 11);
    assert_eq!(catalog.resolve_symbol("RELIANCE-EQ").expect("cash").key.exchange_segment, 1);
}

#[test]
fn parses_exact_subscription_key_from_universe_token() {
    let key = instrument_key_from_token("NSEFO:65238").expect("key");

    assert_eq!(key.exchange_segment, 2);
    assert_eq!(key.exchange_instrument_id, 65238);
    assert!(instrument_key_from_token("65238").is_err());
}

fn names(segment: u64, id: u64, name: &str) -> InstrumentNames {
    let mut names: InstrumentNames = PairMap::new();
    names.insert((segment, id), InstrumentName::new(name));
    names
}

#[test]
fn parses_touchline_tick_json_to_price_event() {
    let names = names(1, 2885, "RELIANCE");
    let value = json(
        r#"{
            "MessageCode": 1501,
            "ExchangeSegment": 1,
            "ExchangeInstrumentID": "2885",
            "LastTradedPrice": 1430.25,
            "LastUpdateTime": 1782300000
        }"#,
    );

    let event = parse_tick_event(&value, &names, &numbers("2885"), 1)
        .expect("tick parse")
        .expect("tick event");

    let PriceEvent::Tick(tick) = event else {
        panic!("expected tick");
    };
    assert_eq!(tick.instrument_name.as_str(), "RELIANCE");
    assert_eq!(tick.price.value(), bits_of(1430.25));
    assert_eq!(tick.time.as_u64(), 1_782_300_000_000);
}

#[test]
fn queues_subscription_list_quotes() {
    let names = names(1, 22, "ACC");
    let response = json(
        r#"{"type": "success", "result": {"listQuotes": [
            "{\"ExchangeSegment\":1,\"ExchangeInstrumentID\":\"22\",\"LastTradedPrice\":1723,\"LastUpdateTime\":1453476469}"
        ]}}"#,
    );

    let batch = queue_subscription_response_ticks(&response, &names, &numbers("22"), 1);

    assert!(batch.fault.is_none());
    let PriceEvent::Tick(tick) = &batch.events[0] else {
        panic!("expected queued tick");
    };
    assert_eq!(tick.instrument_name.as_str(), "ACC");
    assert_eq!(tick.price.value(), bits_of(1723.0));
}

fn touchline(price: f64) -> Vec<u8> {
    let mut payload: Vec<u8> = Vec::new();
    payload.extend(1u16.to_le_bytes());
    payload.extend(0u16.to_le_bytes());
    payload.extend(0u64.to_le_bytes());
    payload.extend(1i16.to_le_bytes());
    payload.extend(2885i32.to_le_bytes());
    payload.extend(0u64.to_le_bytes());
    payload.extend([0u8; 44]);
    payload.extend(1_782_300_000u64.to_le_bytes());
    payload.extend(price.to_le_bytes());
    payload
}

fn packet(compressed: u8, plain_size: usize, body: &[u8]) -> Vec<u8> {
    let mut packet: Vec<u8> = vec![compressed];
    packet.extend(1501u16.to_le_bytes());
    packet.extend([0u8; 10]);
    packet.extend((plain_size as u16).to_le_bytes());
    packet.extend((body.len() as u16).to_le_bytes());
    packet.extend(body);
    packet
}

fn deflated(bytes: &[u8]) -> Vec<u8> {
    let mut encoder =
        flate2::write::DeflateEncoder::new(Vec::new(), flate2::Compression::default());
    encoder.write_all(bytes).expect("write");
    encoder.finish().expect("finish")
}

#[test]
fn packets_are_read_plain_and_compressed() {
    let names = names(1, 2885, "RELIANCE");
    let plain = touchline(1430.25);
    let mut bytes = packet(0, plain.len(), &plain);
    bytes.extend(packet(1, plain.len(), &deflated(&touchline(1431.5))));
    let mut coded = 1501u16.to_le_bytes().to_vec();
    coded.extend(touchline(1432.0));
    bytes.extend(packet(1, coded.len(), &deflated(&coded)));
    bytes.extend([0, 1]);
    let batch = queue_binary_packet_ticks(&bytes, &names);
    assert!(batch.fault.is_none());
    let prices: Vec<Real> = batch
        .events
        .iter()
        .map(|event| match event {
            PriceEvent::Tick(tick) => {
                assert_eq!(tick.instrument_name.as_str(), "RELIANCE");
                assert_eq!(tick.time.as_u64(), 1_782_300_000_000);
                tick.price.value()
            }
            PriceEvent::Candle(_) => panic!("expected tick"),
        })
        .collect();
    assert_eq!(prices, vec![bits_of(1430.25), bits_of(1431.5), bits_of(1432.0)]);
}

#[test]
fn packets_with_faults_end_a_batch() {
    let names: InstrumentNames = PairMap::new();
    let negative = touchline(-1.0);
    let batch = queue_binary_packet_ticks(&packet(0, negative.len(), &negative), &names);
    assert_eq!(batch.events.len(), 0);
    let error = tick_error(batch.fault.expect("fault"), "-1");
    assert!(matches!(&error, FeedError::Parse(text)
        if text.starts_with("invalid DBInternational binary tick price -1: ")));
    let broken = queue_binary_packet_ticks(&packet(1, 4, &[7, 7, 7]), &names);
    assert!(broken.fault.is_some());
}

#[test]
fn bytes_are_read_from_lists_of_numbers() {
    assert_eq!(binary_bytes_from_value(&json("[1, 2, 255]")), Some(vec![1, 2, 255]));
    assert_eq!(binary_bytes_from_value(&json("[1, 256]")), None);
    assert_eq!(binary_bytes_from_value(&json("\"AQID\"")), None);
}

#[test]
fn parses_string_master_response() {
    let value = json(
        r#"{"type": "success", "result": "NSECM|2885|8|RELIANCE|RELIANCE-EQ\nNSEFO|49229|1|NIFTY|NIFTY26JANFUT"}"#,
    );

    let content = parse_master_response(&value).expect("master response");

    assert!(content.contains("RELIANCE"));
    assert!(content.contains("NIFTY26JANFUT"));
}

#[test]
fn parses_array_wrapped_master_response() {
    let value = json(
        r#"[{"type": "success", "result": [
            "NSECM|2885|8|RELIANCE|RELIANCE-EQ",
            "NSEFO|49229|1|NIFTY|NIFTY26JANFUT"
        ]}]"#,
    );

    let content = parse_master_response(&value).expect("master response");

    assert_eq!(content.lines().count(), 2);
}

#[test]
fn rejects_error_master_response() {
    let value = json(r#"{"type": "error", "description": "bad token"}"#);

    assert!(parse_master_response(&value).is_err());
}

#[test]
fn builds_master_url_from_saved_session_base_url() {
    let url = market_data_master_url_from_base_url(
        "https://developers.symphonyfintech.in/apibinarymarketdata/auth/login",
    )
    .expect("master url");

    assert_eq!(
        url,
        "https://developers.symphonyfintech.in/apibinarymarketdata/instruments/master"
    );
}

fn broker() -> DbinternationalBrokerSection {
    let text = |value: &str| value.to_string();
    DbinternationalBrokerSection {
        market_data_base_url: text("https://h/apibinarymarketdata"),
        market_data_app_key_env: text("A"),
        market_data_secret_key_env: text("B"),
        market_data_token_file: text("token"),
        market_data_session_file: None,
        market_data_master_file: text("master.txt"),
        market_data_exchange_segments: vec![text("NSECM")],
        market_data_socket_path: text("/apibinarymarketdata/socket.io"),
        market_data_publish_format: text("JSON"),
        market_data_broadcast_mode: text("Full"),
        market_data_subscribe_symbols: Vec::new(),
        latest_prices_file: None,
        interactive_base_url: text("https://h/interactive"),
        interactive_app_key_env: text("C"),
        interactive_secret_key_env: text("D"),
        interactive_unique_key_env: None,
        interactive_unique_key_file: None,
        interactive_access_token_env: None,
        interactive_access_token_file: None,
        interactive_token_file: text("itoken"),
        interactive_session_file: None,
        console_logging: None,
        derivatives_csv: text("derivatives.csv"),
        market_data_index_file: text("index.txt"),
        instrument_types: Vec::new(),
        strike_distance_pct: bits_of(3.0),
        refresh_trigger_pct: bits_of(3.0),
    }
}

#[test]
fn detects_current_non_empty_master_file() {
    let now: u64 = 1_777_100_000;
    let file = Some(MasterFile {
        content: "NSECM|1|ABC\n\nNSEFO|2|XYZ\n".to_string(),
        modified: Ok(now),
    });

    let MasterStep::Keep(summary) =
        ensure_master_current(&broker(), &file, now).expect("current file")
    else {
        panic!("expected current file");
    };
    assert_eq!(summary.instrument_count, 2);
    assert!(matches!(
        ensure_master_current(&broker(), &file, now + 86_400),
        Ok(MasterStep::Fetch)
    ));
}

#[test]
fn rejects_empty_master_file_as_stale() {
    let now: u64 = 1_777_100_000;
    let file = Some(MasterFile { content: "\n\n".to_string(), modified: Ok(now) });

    assert!(matches!(ensure_master_current(&broker(), &file, now), Ok(MasterStep::Fetch)));
}

#[test]
fn masters_are_read_from_replies() {
    let body = br#"{"type":"success","result":" a|1\n\nb|2 "}"#;
    let content = fetch_master(true, 200, body).expect("content");
    assert_eq!(refresh_master(&content), Ok(("a|1\n\nb|2\n".to_string(), 2)));
    let summary = master_refreshed(&broker(), Ok(2)).expect("summary");
    assert_eq!(summary.instrument_count, 2);
    assert_eq!(summary.output_path, broker().market_data_master_file);
    assert!(summary.refreshed);
    assert_eq!(
        master_refreshed(&broker(), Err(FeedError::Io("disk".to_string()))),
        Err(FeedError::Io("disk".to_string()))
    );
    let file = MasterFile { content: "a|1\n\nb|2\n".to_string(), modified: Ok(5) };
    match ensure_master_current(&broker(), &Some(file), 6) {
        Ok(MasterStep::Keep(kept)) => assert_eq!(kept.instrument_count, 2),
        other => panic!("{other:?}"),
    }
    assert!(fetch_master(false, 500, b"no \xff").is_err());
    assert!(fetch_master(true, 200, b"{").is_err());
}

fn sample_indices() -> &'static str {
    "\
NSECM|26000|16|NIFTY 50|NIFTY 50|INDEX|NIFTY 50-INDEX|26000|0|0|0|0.05|1|1|NIFTY 50|NIFTY50|1|1||||-1|NIFTY 50
NSECM|26001|16|NIFTY BANK|NIFTY BANK|INDEX|NIFTY BANK-INDEX|26001|0|0|0|0.05|1|1|NIFTY BANK|NIFTYBANK|1|1||||-1|NIFTY BANK
NSECM|26121|16|NIFTY MID SELECT|NIFTY MID SELECT|INDEX|NIFTY MID SELECT-INDEX|26121|0|0|0|0.05|1|1|NIFTY MID SELECT|NIFTYMIDSELECT|1|1|MIDCPNIFTY|MIDCAPSELECT||-1|NIFTY MID SELECT
BSECM|26065|16|SENSEX|SENSEX|INDEX|SENSEX-INDEX|26065|0|0|0|0.05|1|1|SENSEX|SENSEX|1|1||||-1|SENSEX
"
}

fn sample_master() -> &'static str {
    "\
NSECM|2885|8|RELIANCE|RELIANCE-EQ|EQ|RELIANCE-EQ|1100100002885|1440.4|1178.6|67662|0.1|1|1|RELIANCE|INE002A01018|1|1|RELIANCE INDUSTRIES LTD-EQ|0|-1|-1
NSEFO|50001|1|RELIANCE|RELIANCE26JUNFUT|FUTSTK|RELIANCE-FUTSTK|x|0|0|0|0.05|500|1|-1|RELIANCE|2026-06-30T14:30:00|RELIANCE 30JUN2026|1|1|RELIANCE26JUNFUT
NSEFO|50002|2|RELIANCE|RELIANCE26JUN1500CE|OPTSTK|RELIANCE-OPTSTK|x|0|0|0|0.05|500|1|-1|RELIANCE|2026-06-30T14:30:00|1500|3|RELIANCE 30JUN2026 CE 1500|1|1|RELIANCE26JUN1500CE
BSEFO|1105863|1|SENSEX|SENSEX26JUNFUT|IF|SENSEX-IF|x|84787.5|69371.55|500|0.05|20|1|-1|SENSEX|2026-06-25T00:00:00|SENSEX 25JUN2026|1|1|SENSEX26JUNFUT
BSEFO|1144507|1|SENSEX|SENSEX26JULFUT|IF|SENSEX-IF|x|85401.1|69873.65|500|0.05|20|1|-1|SENSEX|2026-07-30T00:00:00|SENSEX 30JUL2026|1|1|SENSEX26JULFUT
BSEFO|825622|1|SENSEX|SENSEX26AUGFUT|IF|SENSEX-IF|x|85889.8|70273.45|500|0.05|20|1|-1|SENSEX|2026-08-27T00:00:00|SENSEX 27AUG2026|1|1|SENSEX26AUGFUT
BSEFO|16016544|4|SENSEX|SENSEX26JUN26JULFUT|IF|SENSEX-IF|x|1145|-1145|901|0.2|30|1|-1||2026-06-25T00:00:00|SENSEX 25JUN30JUL SPD|1|1|SENSEX26JUN26JULFUT
BSEFO|887600|2|SENSEX|SENSEX26JUN80000CE|IO|SENSEX-IO|x|100|0.05|1000|0.05|20|1|-1|SENSEX|2026-06-25T00:00:00|80000|3|SENSEX 25JUN2026 CE 80000|1|1|SENSEX26JUN80000CE
BSEFO|820380|2|SENSEX|SENSEX2670279000PE|IO|SENSEX-IO|x|100|0.05|1000|0.05|20|1|-1|SENSEX|2026-07-02T00:00:00|79000|4|SENSEX 02JUL2026 PE 79000|1|1|SENSEX2670279000PE
BSEFO|820381|2|SENSEX|SENSEX2670285000CE|IO|SENSEX-IO|x|100|0.05|1000|0.05|20|1|-1|SENSEX|2026-07-02T00:00:00|85000|3|SENSEX 02JUL2026 CE 85000|1|1|SENSEX2670285000CE
MCXFO|1001|16|GOLD|GOLD|COMDTY|GOLD-COMDTY|x|0|0|0|1|1|1|GOLD|GOLD|1|1
MCXFO|1002|16|GOLDPETAL|GOLDPETAL|COMDTY|GOLDPETAL-COMDTY|x|0|0|0|1|1|1|GOLDPETAL|GOLDPETAL|1|1
MCXFO|2001|1|GOLDPETAL|GOLDPETAL26JUNFUT|FUTCOM|GOLDPETAL-FUTCOM|x|0|0|0|1|1|1|-1|GOLDPETAL|2026-06-30T00:00:00|GOLDPETAL 30JUN2026|1|1|GOLDPETAL26JUNFUT
MCXFO|2002|1|GOLDPETAL|GOLDPETAL26JULFUT|FUTCOM|GOLDPETAL-FUTCOM|x|0|0|0|1|1|1|-1|GOLDPETAL|2026-07-31T00:00:00|GOLDPETAL 31JUL2026|1|1|GOLDPETAL26JULFUT
MCXFO|2003|1|GOLDPETAL|GOLDPETAL26AUGFUT|FUTCOM|GOLDPETAL-FUTCOM|x|0|0|0|1|1|1|-1|GOLDPETAL|2026-08-31T00:00:00|GOLDPETAL 31AUG2026|1|1|GOLDPETAL26AUGFUT
"
}

fn window(price: f64, distance_pct: f64, strikes: &[f64]) -> StrikeWindow {
    let distance = price * (distance_pct / 100.0);
    let mut distances: TextMap<Real> = TextMap::new();
    for strike in strikes {
        distances.insert(strike.to_string(), bits_of((strike - price).abs()));
    }
    StrikeWindow {
        lower: bits_of(price - distance),
        upper: bits_of(price + distance),
        distances,
    }
}

fn selection() -> InstrumentSelection {
    InstrumentSelection {
        instrument_types: vec!["FUT".to_string(), "CALL".to_string(), "PUT".to_string()],
        strike_distance_pct: bits_of(3.0),
        refresh_trigger_pct: bits_of(3.0),
    }
}

#[test]
fn builds_spot_anchors_from_master_and_index_cache() {
    let catalog =
        parse_catalog_contents(sample_master(), sample_indices(), &numbers(sample_master()))
            .expect("catalog");
    let symbols: Vec<String> = catalog
        .spot_references()
        .iter()
        .map(|reference| format!("{}={}", reference.underlying, reference.spot_symbol))
        .collect();

    for expected in [
        "RELIANCE=RELIANCE-EQ",
        "NIFTY=NIFTY50",
        "BANKNIFTY=NIFTYBANK",
        "MIDCPNIFTY=MIDCPNIFTY",
        "SENSEX=SENSEX",
        "GOLD=GOLD",
    ] {
        assert!(symbols.contains(&expected.to_string()), "{expected}");
    }
}

#[test]
fn selects_current_next_expiry_and_strike_window() {
    let catalog =
        parse_catalog_contents(sample_master(), sample_indices(), &numbers(sample_master()))
            .expect("catalog");

    let summary = catalog
        .build_summary_for_date(
            &selection(),
            "SENSEX",
            "SENSEX",
            bits_of(80_000.0),
            &window(80_000.0, 3.0, &[80_000.0, 79_000.0, 85_000.0]),
            "2026-06-25",
        )
        .expect("summary");
    let symbols = selected_trading_symbols(&summary);

    assert!(symbols.contains("SENSEX26JUNFUT"));
    assert!(symbols.contains("SENSEX26JULFUT"));
    assert!(!symbols.contains("SENSEX26AUGFUT"));
    assert!(symbols.contains("SENSEX26JUN80000CE"));
    assert!(symbols.contains("SENSEX2670279000PE"));
    assert!(!symbols.contains("SENSEX2670285000CE"));
    assert!(!symbols.contains("SENSEX26JUN26JULFUT"));
}

#[test]
fn keeps_all_allowed_mcx_variations_with_derivatives() {
    let catalog =
        parse_catalog_contents(sample_master(), sample_indices(), &numbers(sample_master()))
            .expect("catalog");

    let summary = catalog
        .build_summary_for_date(
            &selection(),
            "GOLDPETAL",
            "GOLDPETAL",
            bits_of(9_000.0),
            &window(9_000.0, 3.0, &[]),
            "2026-06-25",
        )
        .expect("summary");

    assert_eq!(summary.futures.len(), 2);
    assert_eq!(summary.atm_options.len(), 0);
}

#[test]
fn a_refused_session_is_tried_once_more() {
    let refused = || Some(FeedError::Disconnected("Session has been expired".to_string()));
    assert!(matches!(after_run(false, refused()), RunStep::LogIn));
    assert!(matches!(after_run(true, refused()), RunStep::Stop(Some(_))));
    assert!(matches!(
        after_run(false, Some(FeedError::Parse("session expired".to_string()))),
        RunStep::Stop(Some(_))
    ));
    assert!(matches!(after_run(false, None), RunStep::Stop(None)));
}

#[test]
fn all_logins_are_made_one_after_the_other() {
    let summary = |kind: DbinternationalLoginKind| DbinternationalLoginSummary {
        kind,
        user_id: None,
        token_file: kind.as_str().to_string(),
        session_file: None,
    };
    let first = || summary(DbinternationalLoginKind::MarketData);
    let second = || summary(DbinternationalLoginKind::Interactive);
    let failure = || FeedError::Http("refused".to_string());
    assert_eq!(
        next_login(vec![], None),
        LoginAllStep::Ask { kind: DbinternationalLoginKind::MarketData, done: vec![] }
    );
    assert_eq!(
        next_login(vec![first()], None),
        LoginAllStep::Ask { kind: DbinternationalLoginKind::Interactive, done: vec![first()] }
    );
    assert_eq!(
        next_login(vec![first(), second()], None),
        LoginAllStep::End(Ok(vec![first(), second()]))
    );
    assert_eq!(next_login(vec![], Some(failure())), LoginAllStep::End(Err(failure())));
    assert_eq!(next_login(vec![first()], Some(failure())), LoginAllStep::End(Err(failure())));
}

#[test]
fn what_is_traded_stands_in_its_order() {
    let catalog =
        parse_catalog_contents(sample_master(), sample_indices(), &numbers(sample_master()))
            .expect("catalog");
    let summary = catalog
        .build_summary_for_date(
            &selection(),
            "SENSEX",
            "SENSEX",
            bits_of(80_000.0),
            &window(80_000.0, 3.0, &[80_000.0, 79_000.0, 85_000.0]),
            "2026-06-25",
        )
        .expect("summary");
    let names = |list: &[InstrumentDefinition]| -> Vec<String> {
        list.iter().map(|instrument| instrument.trading_symbol.clone()).collect()
    };
    assert_eq!(names(&summary.futures), ["SENSEX26JUNFUT", "SENSEX26JULFUT"]);
    assert_eq!(names(&summary.atm_options), ["SENSEX26JUN80000CE", "SENSEX2670279000PE"]);
}
