//! How brokers are started and restarted.
use dhancred_trading_app::adapters::{
    annotate_broker_error, broker_restart_delay_secs, CONFIG_RESTART_DELAY_SECS,
    TRANSIENT_RESTART_DELAY_SECS,
};
use dhancred_trading_app::feeder::error::FeedError;

#[test]
fn config_errors_back_off_longer_than_transient_errors() {
    assert_eq!(
        broker_restart_delay_secs(&FeedError::Config("missing token".to_string())),
        CONFIG_RESTART_DELAY_SECS
    );
    assert_eq!(
        broker_restart_delay_secs(&FeedError::Disconnected("socket closed".to_string())),
        TRANSIENT_RESTART_DELAY_SECS
    );
}

#[test]
fn preserves_transient_error_kind_when_annotating_broker_failures() {
    let error = annotate_broker_error("DELTA", FeedError::Disconnected("socket closed".into()));
    assert!(matches!(error, FeedError::Disconnected(_)));
}
