//! What holds of the library as a whole, on values of each kind.
use dhancred_trading_app::adapters::angelone::auth::{
    code_from_digest, code_from_secret, generate_totp,
};
use dhancred_trading_app::adapters::dbinternational::live::{
    forget_names, instrument_name, learn_names, resolve_subscription_symbols,
};
use dhancred_trading_app::adapters::dbinternational::master_catalog::{
    parse_master_catalog, DbinternationalInstrumentKey,
};
use dhancred_trading_app::adapters::dbinternational::universe::{expiry_date, expiry_if};
use dhancred_trading_app::adapters::fyers::live::{access_token_msg, control_response_status};
use dhancred_trading_app::backtest::args::{parse_time, read_time};
use dhancred_trading_app::backtest::stores::{day_key, ist_day_key};
use dhancred_trading_app::config::prefer_external;
use dhancred_trading_app::encodings::decode_url;
use dhancred_trading_app::feeder::historical_candles::{
    minute_bounds, one_minute_bucket_bounds_ist,
};
use dhancred_trading_app::feeder::market_session::now_unix_seconds;
use dhancred_trading_app::login_scheduler::{
    first_login_step, next_login_step, LoginEvent, LoginStep,
};
use dhancred_trading_app::order::{TextMap, TextSet};
use dhancred_trading_app::pairs::PairMap;

#[test]
fn a_text_is_read_by_the_first_form_that_fits() {
    assert_eq!(read_time("x", &vec![None, Some(7), Some(8)]), Ok(7));
    assert_eq!(read_time("12", &vec![Some(7)]), Ok(12));
    assert_eq!(read_time("x", &vec![Some(-1)]), Ok(u64::MAX));
    assert_eq!(
        read_time("x", &vec![None]),
        Err("invalid time x; use unix millis, YYYY-MM-DD, or YYYY-MM-DDTHH:MM".to_string())
    );
    assert_eq!(parse_time("1970-01-02"), Ok(86_400_000));
    assert_eq!(parse_time("1970-01-02T00:01"), Ok(86_460_000));
    assert_eq!(parse_time("1970-01-02 00:01"), Ok(86_460_000));
    assert_eq!(parse_time("1970-01-02T00:01:02"), Ok(86_462_000));
    assert_eq!(parse_time("1970-01-02 00:01:02"), Ok(86_462_000));
}

#[test]
fn days_are_told_by_their_dates() {
    assert_eq!(day_key(0, Some((2024, 3, 9))).unwrap(), "2024-03-09");
    assert_eq!(day_key(0, Some((31, 12, 1))).unwrap(), "0031-12-01");
    assert!(day_key(5, None).is_err());
    assert_eq!(ist_day_key(0).unwrap(), "1970-01-01");
    assert_eq!(ist_day_key(18 * 3_600_000 + 30 * 60_000).unwrap(), "1970-01-02");
}

#[test]
fn minutes_are_told_by_their_beginnings() {
    assert_eq!(minute_bounds(5, Some(Some(60_000))).unwrap(), (60_000, 120_000));
    assert!(minute_bounds(5, None).is_err());
    assert!(minute_bounds(5, Some(None)).is_err());
    assert_eq!(one_minute_bucket_bounds_ist(61_000).unwrap(), (60_000, 120_000));
}

#[test]
fn expiries_are_days() {
    assert_eq!(expiry_if(" 2026-05-28T14:30:00 ", true), Some("2026-05-28".to_string()));
    assert_eq!(expiry_if(" 2026-05-28T14:30:00 ", false), None);
    assert_eq!(expiry_if("2026-05-2", true), None);
    assert_eq!(expiry_date("2026-05-28T14:30:00"), Some("2026-05-28".to_string()));
    assert_eq!(expiry_date("2026-13-28T14:30:00"), None);
    assert_eq!(expiry_date("2026-05"), None);
}

#[test]
fn the_length_of_an_access_message_is_that_of_what_follows() {
    for key in ["", "k", "a longer key"] {
        let message = access_token_msg(key);
        assert_eq!(256 * message[0] as usize + message[1] as usize, message.len() - 2);
    }
}

#[test]
fn a_code_stays_while_it_is_valid() {
    let secret = "GEZDGNBVGY3TQOJQGEZDGNBVGY3TQOJQ";
    let code = generate_totp(secret, 30).unwrap();
    assert_eq!(generate_totp(secret, 59).unwrap(), code);
    assert_ne!(generate_totp(secret, 60).unwrap(), code);
    assert_eq!(code.len(), 6);
    assert_eq!(code_from_digest(&[0; 20]), "000000");
}

#[test]
fn a_login_run_ends_without_a_login_where_sessions_are_current() {
    let mut step = first_login_step("DBINTERNATIONAL", true, false).unwrap();
    let mut steps = 0;
    while step != LoginStep::Finished {
        assert_ne!(step, LoginStep::LoginMarketData);
        assert_ne!(step, LoginStep::LoginInteractive);
        let event = LoginEvent::SessionCurrent { owner: None };
        step = next_login_step(step, &event).0;
        steps += 1;
    }
    assert_eq!(steps, 2);
}

#[test]
fn forgotten_instruments_have_no_names() {
    let master = "NSECM|2885|8|RELIANCE|RELIANCE-EQ|EQ|RELIANCE-EQ|1100100002885|1440.4|1178.6|67662|0.1|1|1|RELIANCE|INE002A01018|1|1|RELIANCE INDUSTRIES LTD-EQ|0|-1|-1\n";
    let catalog = parse_master_catalog(master).unwrap();
    let wanted = vec!["RELIANCE-EQ".to_string()];
    let resolved = match resolve_subscription_symbols(&catalog, &wanted) {
        Ok(resolved) => resolved,
        Err(_) => panic!("RELIANCE-EQ is in the catalog"),
    };
    let key = DbinternationalInstrumentKey { exchange_segment: 1, exchange_instrument_id: 2885 };
    let mut names = PairMap::new();
    let before = instrument_name(key, &names);
    learn_names(&mut names, &resolved);
    assert_ne!(instrument_name(key, &names), before);
    forget_names(&mut names, &resolved);
    assert_eq!(instrument_name(key, &names), before);
}

#[test]
fn a_section_of_its_own_is_preferred() {
    assert_eq!(prefer_external(Some(1), Some(2)), Some(1));
    assert_eq!(prefer_external(None, Some(2)), Some(2));
    assert_eq!(prefer_external::<u64>(None, None), None);
}

#[test]
fn sets_and_maps_of_texts_are_in_order() {
    let mut set = TextSet::new();
    for text in ["b", "a", "c", "a"] {
        set.insert(text.to_string());
    }
    assert_eq!(set.items(), &vec!["a".to_string(), "b".to_string(), "c".to_string()]);
    let mut map: TextMap<u64> = TextMap::new();
    map.insert("b".to_string(), 1);
    map.insert("b".to_string(), 2);
    assert_eq!(map.get("b"), Some(&2));
    assert_eq!(map.get("a"), None);
}

#[test]
fn bytes_that_are_no_text_are_read_as_far_as_they_go() {
    let mut response = vec![0, 0, 0, 0, 0, 0, 3];
    response.extend_from_slice(&[b'K', 0xff, 0]);
    assert_eq!(control_response_status(&response).unwrap(), "K\u{fffd}");
}

#[test]
fn texts_for_addresses_are_read_filled_up_or_not() {
    assert_eq!(decode_url("eyJhIjoxfQ"), Ok(b"{\"a\":1}".to_vec()));
    assert_eq!(decode_url("eyJhIjoxfQ=="), Ok(b"{\"a\":1}".to_vec()));
    assert_eq!(decode_url("-_8"), Ok(vec![0xfb, 0xff]));
    assert!(decode_url("+/8").is_err());
}

#[test]
fn secrets_are_read_filled_up_or_not() {
    assert_eq!(generate_totp("MFRGG", 59).unwrap(), generate_totp("MFRGG===", 59).unwrap());
    assert_eq!(generate_totp("MFRGG", 59).unwrap(), code_from_secret(b"abc", 59));
    assert_eq!(code_from_secret(b"12345678901234567890", 59), "287082");
    assert!(generate_totp("MFRGG=", 59).is_err());
}

#[test]
fn the_clock_goes() {
    assert!(now_unix_seconds().unwrap() > 1_600_000_000);
}
