//! Reading the frames of FYERS.
use dhancred_trading_app::adapters::fyers::live::{
    control_response_status, hsm_symbol_for_symbol_update, FyersHsmParser, RawTick,
};
use dhancred_trading_app::adapters::fyers::token::jwt_access_token_only;
use dhancred_trading_app::binary64::Real;
use dhancred_trading_app::feeder::event::PriceEvent;
use dhancred_trading_app::order::TextMap;

#[test]
fn builds_hsm_symbol_for_index() {
    assert_eq!(
        hsm_symbol_for_symbol_update("NSE:NIFTY50-INDEX", "101000000026000").unwrap(),
        "if|nse_cm|Nifty 50"
    );
}

#[test]
fn builds_hsm_symbol_for_scrip() {
    assert_eq!(
        hsm_symbol_for_symbol_update("NSE:SBIN-EQ", "10100000003045").unwrap(),
        "sf|nse_cm|3045"
    );
}

#[test]
fn fyers_data_socket_uses_raw_jwt_even_when_app_id_prefix_is_present() {
    assert_eq!(
        jwt_access_token_only("APPID:header.payload.signature").unwrap(),
        "header.payload.signature"
    );
    assert_eq!(
        jwt_access_token_only("Bearer header.payload.signature").unwrap(),
        "header.payload.signature"
    );
}

#[test]
fn parses_fyers_control_response_status() {
    assert_eq!(control_response_status(&[0, 0, 1, 1, 1, 0, 1, b'K']).unwrap(), "K");
    assert_eq!(control_response_status(&[0, 0, 4, 1, 1, 1, 0, b'K']).unwrap(), "K");
}

fn sbin_parser() -> FyersHsmParser {
    let mut symbols = TextMap::new();
    symbols.insert("sf|nse_cm|3045".to_string(), "NSE:SBIN-EQ".to_string());
    FyersHsmParser::new(symbols, false)
}

fn event_of(tick: &RawTick) -> Option<PriceEvent> {
    let divisor = 10f64.powi(tick.precision as i32) * tick.factor() as f64;
    let price = tick.ltp_raw as f64 / divisor;
    tick.to_price_event(Real { bits: price.to_bits() }, 1)
}

#[test]
fn snapshot_and_lite_update_emit_price_ticks() {
    let mut parser = sbin_parser();

    let snapshot = sample_snapshot_frame("sf|nse_cm|3045", 7, 12_345, 2, 1);
    parser.handle_binary_message(&snapshot).unwrap();
    let first = event_of(&parser.next_tick().unwrap()).unwrap();
    assert_eq!(first.instrument_name().as_str(), "NSE:SBIN-EQ");
    assert_eq!(f64::from_bits(first.price().value().bits), 123.45);

    let lite = sample_lite_frame(7, 12_400);
    parser.handle_binary_message(&lite).unwrap();
    let second = event_of(&parser.next_tick().unwrap()).unwrap();
    assert_eq!(f64::from_bits(second.price().value().bits), 124.0);
}

#[test]
fn ignores_invalid_fyers_price_without_failing_feed() {
    let mut parser = sbin_parser();

    let snapshot = sample_snapshot_frame("sf|nse_cm|3045", 7, 0, 2, 1);

    parser.handle_binary_message(&snapshot).unwrap();

    let mut events = 0;
    while let Some(tick) = parser.next_tick() {
        if event_of(&tick).is_some() {
            events += 1;
        }
    }
    assert_eq!(events, 0);
}

fn sample_snapshot_frame(
    topic: &str,
    topic_id: u16,
    ltp_raw: i32,
    precision: u8,
    multiplier: u16,
) -> Vec<u8> {
    let mut data = vec![0, 0, 6];
    data.extend_from_slice(&1u32.to_be_bytes());
    data.extend_from_slice(&1u16.to_be_bytes());
    data.push(83);
    data.extend_from_slice(&topic_id.to_le_bytes());
    data.push(topic.len() as u8);
    data.extend_from_slice(topic.as_bytes());
    data.push(4);
    data.extend_from_slice(&ltp_raw.to_be_bytes());
    data.extend_from_slice(&i32::MIN.to_be_bytes());
    data.extend_from_slice(&i32::MIN.to_be_bytes());
    data.extend_from_slice(&1_775_000_000i32.to_be_bytes());
    data.extend_from_slice(&0u16.to_be_bytes());
    data.extend_from_slice(&multiplier.to_be_bytes());
    data.push(precision);
    for value in ["NSE", "3045", "SBIN"] {
        data.push(value.len() as u8);
        data.extend_from_slice(value.as_bytes());
    }
    data
}

fn sample_lite_frame(topic_id: u16, ltp_raw: i32) -> Vec<u8> {
    let mut data = vec![0, 0, 6];
    data.extend_from_slice(&2u32.to_be_bytes());
    data.extend_from_slice(&1u16.to_be_bytes());
    data.push(76);
    data.extend_from_slice(&topic_id.to_le_bytes());
    data.extend_from_slice(&ltp_raw.to_be_bytes());
    data
}
