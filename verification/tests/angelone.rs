//! Angel One: logins, the master, the universe and ticks.
use dhancred_trading_app::adapters::angelone::auth::{
    extract_totp_secret, generate_totp, login, login_request, parse_login_response,
    percent_decode, session_current_today, AngeloneSavedSession, LoginEnv,
};
use dhancred_trading_app::adapters::angelone::live::{
    heartbeat_due, parse_packet, AngeloneSubscriptions, LTP_PACKET_SIZE,
};
use dhancred_trading_app::adapters::angelone::master::{
    instrument_key_from_token, parse_expiry, parse_master_json, AngeloneRawInstrument,
};
use dhancred_trading_app::adapters::angelone::runtime::{
    active_reference_keys_for, AngeloneLive, TickStep,
};
use dhancred_trading_app::adapters::angelone::universe::{
    spot_references_from_base_catalog, AngeloneSpotReference, AngeloneUniverseCatalog,
};
use dhancred_trading_app::adapters::universe::{selected_trading_symbols, StrikeWindow};
use dhancred_trading_app::adapters::HttpReply;
use dhancred_trading_app::binary64::{Decimal, Numbers, Real};
use dhancred_trading_app::config::{
    AngeloneBrokerSection, InstrumentSelection, MarketSessionSection,
};
use dhancred_trading_app::feeder::catalog::{
    InstrumentCatalog, InstrumentDefinition, InstrumentType,
};
use dhancred_trading_app::feeder::event::{InstrumentName, PriceEvent};
use dhancred_trading_app::feeder::market_session::MarketSessionSchedule;
use dhancred_trading_app::json::{read_json, Json, Shape};
use dhancred_trading_app::order::{TextMap, TextSet};

fn bits_of(value: f64) -> Real {
    Real { bits: value.to_bits() }
}

fn decimal(value: f64) -> Decimal {
    Decimal { value: bits_of(value), text: value.to_string() }
}

fn json(text: &str) -> Json {
    read_json(text).expect("json")
}

/// The rows of a master, and the numbers in it and their hundredths.
fn master(text: &str) -> (Vec<AngeloneRawInstrument>, Numbers, Numbers) {
    let mut rows = Vec::new();
    let mut numbers: Numbers = TextMap::new();
    let mut hundredths: Numbers = TextMap::new();
    let Shape::List(items) = json(text).shape else {
        panic!("expected a list");
    };
    for item in &items {
        let field = |key: &str| {
            item.field(key).and_then(|value| value.as_str()).unwrap_or_default().to_string()
        };
        for key in ["strike", "lotsize", "tick_size"] {
            if let Ok(value) = field(key).parse::<f64>() {
                numbers.insert(field(key), decimal(value));
                hundredths.insert(field(key), decimal(value / 100.0));
            }
        }
        rows.push(AngeloneRawInstrument {
            token: field("token"),
            symbol: field("symbol"),
            name: field("name"),
            expiry: field("expiry"),
            strike: field("strike"),
            lotsize: field("lotsize"),
            instrumenttype: field("instrumenttype"),
            exch_seg: field("exch_seg"),
            tick_size: field("tick_size"),
        });
    }
    (rows, numbers, hundredths)
}

#[test]
fn parses_successful_login_response() {
    let response = json(
        r#"{
            "status": true,
            "message": "SUCCESS",
            "data": {
                "jwtToken": "jwt",
                "refreshToken": "refresh",
                "feedToken": "feed"
            }
        }"#,
    );

    let session = parse_login_response(
        response,
        "CLIENT".to_string(),
        "API".to_string(),
        "https://example.test/login".to_string(),
        100,
    )
    .expect("session");

    assert_eq!(session.jwt_token, "jwt");
    assert_eq!(session.feed_token, "feed");
    assert_eq!(session.client_code, "CLIENT");
}

#[test]
fn expires_session_on_next_ist_day() {
    let session = AngeloneSavedSession {
        jwt_token: "jwt".to_string(),
        refresh_token: "refresh".to_string(),
        feed_token: "feed".to_string(),
        client_code: "CLIENT".to_string(),
        api_key: "API".to_string(),
        login_url: "login".to_string(),
        created_at_utc: 18 * 3_600,
        response: json("{}"),
    };

    assert!(session_current_today(&session, 18 * 3_600 + 60));
    assert!(!session_current_today(&session, 19 * 3_600));
}

#[test]
fn generates_totp_from_base32_secret() {
    let code = generate_totp("GEZDGNBVGY3TQOJQGEZDGNBVGY3TQOJQ", 59).expect("totp");

    assert_eq!(code, "287082");
}

#[test]
fn generates_totp_from_otpauth_uri() {
    let code = generate_totp(
        "otpauth://totp/AngelOne:CLIENT?secret=GEZDGNBVGY3TQOJQGEZDGNBVGY3TQOJQ&issuer=AngelOne",
        59,
    )
    .expect("totp");

    assert_eq!(code, "287082");
}

#[test]
fn secrets_are_taken_from_addresses() {
    assert_eq!(percent_decode("a%20b%zz"), "a b%zz");
    assert_eq!(extract_totp_secret("otpauth://totp/x?issuer=y&secret=AB%3D"), "AB=");
    assert_eq!(extract_totp_secret("PLAIN"), "PLAIN");
    let code = |at: u64| generate_totp("GEZDGNBVGY3TQOJQGEZDGNBVGY3TQOJQ", at);
    assert_eq!(code(30), code(59));
    assert_ne!(code(59), code(60));
    assert_eq!(code(1_111_111_109), Ok("081804".to_string()));
    assert!(generate_totp("1", 59).is_err());
}

fn broker() -> AngeloneBrokerSection {
    let text = |value: &str| value.to_string();
    AngeloneBrokerSection {
        api_key_env: text("API_KEY"),
        client_code_env: text("CLIENT"),
        password_env: text("PASSWORD"),
        totp_code_env: None,
        totp_secret_env: Some(text("SECRET")),
        state: text("state"),
        login_url: text("https://h/login"),
        client_local_ip: text("127.0.0.1"),
        client_public_ip: text("127.0.0.1"),
        mac_address: text("00:00:00:00:00:00"),
        session_file: text("session.json"),
        master_url: text("https://h/master"),
        master_file: text("master.csv"),
        websocket_url: text("wss://h"),
        websocket_mode: 1,
        websocket_subscription_limit: 1000,
        websocket_subscription_batch_size: 50,
        base_instruments_csv: text("base.csv"),
        derivatives_csv: text("derivatives.csv"),
        latest_prices_file: None,
        console_logging: None,
        instrument_types: Vec::new(),
        strike_distance_pct: bits_of(3.0),
        refresh_trigger_pct: bits_of(3.0),
    }
}

#[test]
fn logins_are_asked_for_with_a_code() {
    let env = LoginEnv {
        api_key: Some("k".to_string()),
        client_code: Some("c".to_string()),
        password: Some("p".to_string()),
        totp_code: None,
        totp_secret: Some("GEZDGNBVGY3TQOJQGEZDGNBVGY3TQOJQ".to_string()),
    };
    let request = login_request(&broker(), &env, &None, 59).expect("request");
    assert_eq!(request.totp, "287082");
    assert_eq!(request.client_code, "c");
    let given = login_request(&broker(), &env, &Some("123456".to_string()), 59).expect("request");
    assert_eq!(given.totp, "123456");
    let missing = LoginEnv { api_key: None, ..env };
    assert!(login_request(&broker(), &missing, &None, 59).is_err());

    let reply = HttpReply {
        success: true,
        status: 200,
        body: r#"{"status":true,"data":{"jwtToken":"j","refreshToken":"r","feedToken":"f"}}"#
            .to_string(),
    };
    let (session, summary) = login(&broker(), &request, &reply, 7).expect("login");
    assert_eq!(session.jwt_token, "j");
    assert_eq!(summary.client_code, "c");
    assert_eq!(summary.session_file, "session.json");
    let refused = HttpReply { success: false, status: 401, body: "no".to_string() };
    assert!(login(&broker(), &request, &refused, 7).is_err());
}

fn instrument(symbol: &str, token: &str) -> InstrumentDefinition {
    InstrumentDefinition {
        instrument_name: InstrumentName::new(symbol),
        instrument_type: InstrumentType::Fut,
        strike: None,
        expiry: Some("2026-07-28".to_string()),
        broker: "ANGELONE".to_string(),
        instrument_token: token.to_string(),
        trading_symbol: symbol.to_string(),
        exchange: "NFO".to_string(),
        segment: "FUTIDX".to_string(),
        underlying: "NIFTY".to_string(),
        lot_size: decimal(1.0),
        tick_size: decimal(1.0),
        tradable: true,
    }
}

fn packet() -> Vec<u8> {
    let mut payload = vec![0_u8; LTP_PACKET_SIZE];
    payload[0] = 1;
    payload[1] = 2;
    payload[2..7].copy_from_slice(b"61093");
    payload[27..35].copy_from_slice(&7_i64.to_le_bytes());
    payload[35..43].copy_from_slice(&1_756_800_000_000_i64.to_le_bytes());
    payload[43..51].copy_from_slice(&23_512_50_i64.to_le_bytes());
    payload
}

#[test]
fn parses_ltp_packet() {
    let mut subscriptions = AngeloneSubscriptions::new(1, 1000, 50);
    let resolved = subscriptions
        .subscribe_instruments(&vec![instrument("NIFTY28JUL26FUT", "NFO:61093")])
        .expect("resolved");
    subscriptions.subscribed(&resolved);

    let packet = parse_packet(&packet()).expect("packet");
    let price = packet.price as f64 / packet.divisor() as f64;
    let event = subscriptions.parse_binary_tick(&packet, &decimal(price), 1).expect("event");

    let PriceEvent::Tick(tick) = event else {
        panic!("expected tick");
    };
    assert_eq!(tick.instrument_name.as_str(), "NIFTY28JUL26FUT");
    assert_eq!(tick.price.value(), bits_of(23_512.5));
    assert_eq!(tick.time.as_u64(), 1_756_800_000_000);
}

#[test]
fn short_packets_tell_nothing() {
    assert!(parse_packet(&packet()[..LTP_PACKET_SIZE - 1]).is_none());
    assert!(!heartbeat_due(24_999));
    assert!(heartbeat_due(25_000));
}

#[test]
fn subscriptions_are_asked_for_in_batches_and_left_again() {
    let mut subscriptions = AngeloneSubscriptions::new(1, 1000, 2);
    let instruments = vec![
        instrument("A", "NFO:1"),
        instrument("B", "NFO:2"),
        instrument("C", "NFO:3"),
        instrument("D", "MCX:4"),
    ];
    let resolved = subscriptions.subscribe_instruments(&instruments).expect("resolved");
    let requests = subscriptions.requests(1, &resolved);
    let asked: Vec<(u8, usize)> =
        requests.iter().map(|request| (request.exchange_type, request.tokens.len())).collect();
    assert_eq!(asked, vec![(2, 2), (2, 1), (5, 1)]);
    subscriptions.subscribed(&resolved);
    assert_eq!(subscriptions.subscribe_instruments(&instruments).expect("again").len(), 0);
    let symbols: Vec<String> =
        ["A", "B", "C", "D"].iter().map(|symbol| symbol.to_string()).collect();
    let leaving = subscriptions.unsubscribe_symbols(&symbols);
    assert_eq!(leaving.len(), 4);
    subscriptions.unsubscribed(&leaving);
    assert_eq!(subscriptions.subscribe_instruments(&instruments).expect("once more").len(), 4);
}

#[test]
fn parses_spot_and_derivative_rows() {
    let (rows, numbers, hundredths) = master(
        r#"[
          {"token":"3045","symbol":"SBIN-EQ","name":"SBIN","expiry":"","strike":"-1.000000","lotsize":"1","instrumenttype":"","exch_seg":"NSE","tick_size":"10.000000"},
          {"token":"61093","symbol":"NIFTY28JUL26FUT","name":"NIFTY","expiry":"28JUL2026","strike":"-1.000000","lotsize":"65","instrumenttype":"FUTIDX","exch_seg":"NFO","tick_size":"10.000000"},
          {"token":"63915","symbol":"NIFTY28JUL2623500CE","name":"NIFTY","expiry":"28JUL2026","strike":"2350000.000000","lotsize":"65","instrumenttype":"OPTIDX","exch_seg":"NFO","tick_size":"5.000000"}
        ]"#,
    );

    let instruments = parse_master_json(&Ok(rows), &numbers, &hundredths).expect("master");

    assert_eq!(instruments.len(), 3);
    assert_eq!(instruments[0].instrument_token, "NSE:3045");
    assert_eq!(instruments[1].expiry.as_deref(), Some("2026-07-28"));
    assert_eq!(instruments[2].strike.as_ref().expect("strike").value, bits_of(23_500.0));
    assert_eq!(instruments[2].instrument_type, InstrumentType::Call);
}

#[test]
fn parses_exchange_token_key() {
    let key = instrument_key_from_token("NFO:61093").expect("key");

    assert_eq!(key.exchange_type, 2);
    assert_eq!(key.token, "61093");
    assert!(instrument_key_from_token("XYZ:1").is_err());
    assert_eq!(parse_expiry("28JUL2026"), Some("2026-07-28".to_string()));
    assert_eq!(parse_expiry("28XXX2026"), None);
}

fn reference(symbol: &str, exchange: &str, underlying: &str) -> AngeloneSpotReference {
    AngeloneSpotReference {
        underlying: underlying.to_string(),
        spot_symbol: symbol.to_string(),
        instrument: InstrumentDefinition {
            instrument_name: InstrumentName::new(symbol),
            instrument_type: InstrumentType::Fut,
            strike: None,
            expiry: Some("2026-08-05".to_string()),
            broker: "ANGELONE".to_string(),
            instrument_token: format!("{exchange}:1"),
            trading_symbol: symbol.to_string(),
            exchange: exchange.to_string(),
            segment: "FUTCOM".to_string(),
            underlying: underlying.to_string(),
            lot_size: decimal(1.0),
            tick_size: decimal(1.0),
            tradable: true,
        },
    }
}

fn mcx_schedule() -> MarketSessionSchedule {
    let sessions = vec![MarketSessionSection {
        id: "MCX".to_string(),
        exchanges: vec!["MCX".to_string()],
        timezone: "Asia/Kolkata".to_string(),
        open: Some("09:00".to_string()),
        close: Some("23:30".to_string()),
        always_open: false,
        connect_before_open_secs: 300,
        weekdays_only: true,
    }];
    MarketSessionSchedule::from_configs(&sessions).expect("schedule")
}

#[test]
fn active_reference_keys_follow_exchange_sessions() {
    let schedule = mcx_schedule();
    let references = vec![reference("GOLD05AUG26FUT", "MCX", "GOLD")];

    // 2026-07-02 23:00 IST.
    assert_eq!(
        active_reference_keys_for(&references, &schedule, 1_783_013_400).items(),
        &vec!["GOLD05AUG26FUT".to_string()]
    );
    // 2026-07-02 23:31 IST.
    assert!(active_reference_keys_for(&references, &schedule, 1_783_015_260).is_empty());
}

#[test]
fn references_come_and_go_with_their_sessions() {
    let schedule = mcx_schedule();
    let references = vec![reference("GOLD05AUG26FUT", "MCX", "GOLD")];
    let mut live = AngeloneLive::start(references, bits_of(3.0), 2);
    let opened = live.apply_session_state(&schedule, 1_783_013_400).expect("plan");
    assert_eq!(opened.opening, vec!["GOLD05AUG26FUT".to_string()]);
    assert_eq!(opened.subscribe.len(), 1);
    assert!(live.apply_session_state(&schedule, 1_783_013_401).is_none());
    let mut names = TextMap::new();
    names.insert("GOLD05AUG26FUT".to_string(), "GOLD".to_string());
    assert_eq!(live.strategy_instrument(&names, "GOLD05AUG26FUT"), ("GOLD".to_string(), true));
    assert_eq!(live.strategy_instrument(&names, "SILVER"), ("SILVER".to_string(), false));
    match live.on_tick("GOLD05AUG26FUT", bits_of(100.0), bits_of(0.0)) {
        Ok(TickStep::Choose { place, .. }) => assert_eq!(place, 0),
        other => panic!("{other:?}"),
    }
    let closed = live.apply_session_state(&schedule, 1_783_015_260).expect("plan");
    assert_eq!(closed.closing, vec!["GOLD05AUG26FUT".to_string()]);
    assert!(matches!(
        live.on_tick("GOLD05AUG26FUT", bits_of(100.0), bits_of(0.0)),
        Ok(TickStep::Skipped)
    ));
}

#[test]
fn ticks_of_what_was_chosen_are_taken_in() {
    let schedule = mcx_schedule();
    let mut live = AngeloneLive::start(vec![reference("NIFTY", "NSE", "NIFTY")], bits_of(3.0), 0);
    assert!(live.apply_session_state(&schedule, 1_783_013_400).is_some());
    let summary = sample_catalog()
        .build_summary_for_date(
            &selection(),
            "NIFTY",
            "NIFTY",
            bits_of(23_500.0),
            &window(),
            "2026-07-02",
            None,
        )
        .expect("summary");
    let names: Vec<String> = summary
        .futures
        .iter()
        .map(|future| future.instrument_name.as_str().to_string())
        .collect();
    assert_eq!(names.len(), 2);
    assert!(matches!(live.on_tick(&names[0], bits_of(1.0), bits_of(0.0)), Ok(TickStep::Skipped)));
    assert!(live.apply_summary("BANKNIFTY", &summary).is_none());
    let plan = live.apply_summary("NIFTY", &summary).expect("plan");
    for name in &names {
        assert!(plan.watched.contains(name));
        assert!(matches!(live.on_tick(name, bits_of(1.0), bits_of(0.0)), Ok(TickStep::Told)));
    }
    assert!(plan.derivatives_csv.contains("NIFTY28JUL26FUT"));
    let again = live.apply_summary("NIFTY", &summary).expect("plan");
    assert!(again.diff.subscribe.is_empty() && again.diff.unsubscribe.is_empty());
    assert_eq!(again.derivatives_csv, plan.derivatives_csv);
}

fn sample_master() -> &'static str {
    r#"[
      {"token":"61093","symbol":"NIFTY28JUL26FUT","name":"NIFTY","expiry":"28JUL2026","strike":"-1.000000","lotsize":"65","instrumenttype":"FUTIDX","exch_seg":"NFO","tick_size":"10.000000"},
      {"token":"58072","symbol":"NIFTY25AUG26FUT","name":"NIFTY","expiry":"25AUG2026","strike":"-1.000000","lotsize":"65","instrumenttype":"FUTIDX","exch_seg":"NFO","tick_size":"10.000000"},
      {"token":"68392","symbol":"NIFTY29SEP26FUT","name":"NIFTY","expiry":"29SEP2026","strike":"-1.000000","lotsize":"65","instrumenttype":"FUTIDX","exch_seg":"NFO","tick_size":"10.000000"},
      {"token":"1","symbol":"NIFTY07JUL2623500CE","name":"NIFTY","expiry":"07JUL2026","strike":"2350000.000000","lotsize":"65","instrumenttype":"OPTIDX","exch_seg":"NFO","tick_size":"5.000000"},
      {"token":"2","symbol":"NIFTY07JUL2623500PE","name":"NIFTY","expiry":"07JUL2026","strike":"2350000.000000","lotsize":"65","instrumenttype":"OPTIDX","exch_seg":"NFO","tick_size":"5.000000"},
      {"token":"3","symbol":"NIFTY07JUL2626000CE","name":"NIFTY","expiry":"07JUL2026","strike":"2600000.000000","lotsize":"65","instrumenttype":"OPTIDX","exch_seg":"NFO","tick_size":"5.000000"}
    ]"#
}

fn sample_catalog() -> AngeloneUniverseCatalog {
    let (rows, numbers, hundredths) = master(sample_master());
    let instruments = parse_master_json(&Ok(rows), &numbers, &hundredths).expect("master");
    AngeloneUniverseCatalog::from_instruments(&instruments)
}

fn selection() -> InstrumentSelection {
    InstrumentSelection {
        instrument_types: vec!["FUT".to_string(), "CALL".to_string(), "PUT".to_string()],
        strike_distance_pct: bits_of(3.0),
        refresh_trigger_pct: bits_of(3.0),
    }
}

fn window() -> StrikeWindow {
    let price = 23_500.0;
    let distance = price * (3.0 / 100.0);
    let mut distances: TextMap<Real> = TextMap::new();
    for strike in [23_500.0, 26_000.0_f64] {
        distances.insert(strike.to_string(), bits_of((strike - price).abs()));
    }
    StrikeWindow { lower: bits_of(price - distance), upper: bits_of(price + distance), distances }
}

#[test]
fn universe_selects_current_next_expiry_and_strike_window() {
    let summary = sample_catalog()
        .build_summary_for_date(
            &selection(),
            "NIFTY",
            "NIFTY",
            bits_of(23_500.0),
            &window(),
            "2026-07-02",
            None,
        )
        .expect("summary");
    let symbols = selected_trading_symbols(&summary);

    assert!(symbols.contains("NIFTY28JUL26FUT"));
    assert!(symbols.contains("NIFTY25AUG26FUT"));
    assert!(!symbols.contains("NIFTY29SEP26FUT"));
    assert!(symbols.contains("NIFTY07JUL2623500CE"));
    assert!(symbols.contains("NIFTY07JUL2623500PE"));
    assert!(!symbols.contains("NIFTY07JUL2626000CE"));
}

#[test]
fn filters_derivatives_by_allowed_exchanges() {
    let mut allowed = TextSet::new();
    allowed.insert("MCX".to_string());
    let summary = sample_catalog()
        .build_summary_for_date(
            &selection(),
            "NIFTY",
            "NIFTY",
            bits_of(23_500.0),
            &window(),
            "2026-07-02",
            Some(&allowed),
        )
        .expect("summary");

    assert!(selected_trading_symbols(&summary).is_empty());
}

#[test]
fn base_references_can_use_futures() {
    let catalog = InstrumentCatalog::new(vec![InstrumentDefinition {
        instrument_name: InstrumentName::new("GOLD05AUG26FUT"),
        instrument_type: InstrumentType::Fut,
        strike: None,
        expiry: Some("2026-08-05".to_string()),
        broker: "ANGELONE".to_string(),
        instrument_token: "MCX:466583".to_string(),
        trading_symbol: "GOLD05AUG26FUT".to_string(),
        exchange: "MCX".to_string(),
        segment: "FUTCOM".to_string(),
        underlying: "GOLD".to_string(),
        lot_size: decimal(1.0),
        tick_size: decimal(1.0),
        tradable: true,
    }]);

    let references = spot_references_from_base_catalog(&catalog).expect("references");

    assert_eq!(references.len(), 1);
    assert_eq!(references[0].underlying, "GOLD");
    assert_eq!(references[0].spot_symbol, "GOLD05AUG26FUT");
}
