//! When brokers are connected to and logged in at.
use dhancred_trading_app::adapters::fyers::session::{
    combined_status_at, format_ist_epoch, ist_day_second_to_utc, market_session_wait,
    ConnectWindowStatus, MarketSessionPolicy,
};
use dhancred_trading_app::config::{FyersMarketSessionSection, MarketSessionSection};
use dhancred_trading_app::feeder::market_session::{
    exchange_session_wait, format_utc_epoch, ExchangeSessionStatus, MarketSessionSchedule,
};
use dhancred_trading_app::login_scheduler::{
    next_scheduled_utc_epoch, parse_ist_hh_mm, should_run_catchup,
};
use dhancred_trading_app::order::TextSet;

fn fyers_section(name: &str, open: &str, close: &str) -> FyersMarketSessionSection {
    FyersMarketSessionSection {
        enabled: true,
        name: name.to_string(),
        timezone: "Asia/Kolkata".to_string(),
        open_ist: open.to_string(),
        close_ist: close.to_string(),
        connect_before_open_secs: 300,
        weekdays_only: true,
    }
}

fn policy() -> MarketSessionPolicy {
    MarketSessionPolicy::from_config(&fyers_section("NSE_BSE_EQUITY", "09:15", "15:30"))
        .expect("policy")
}

fn commodity() -> MarketSessionPolicy {
    MarketSessionPolicy::from_config(&fyers_section("MCX_NON_AGRI", "09:00", "23:30"))
        .expect("commodity policy")
}

fn utc_from_ist_day_second(day: i64, second: u64) -> u64 {
    ist_day_second_to_utc(day, second)
}

#[test]
fn allows_connection_from_pre_open_until_close() {
    let policy = policy();
    let monday = 4;
    assert_eq!(
        policy.status_at(utc_from_ist_day_second(monday, 9 * 3_600 + 10 * 60)),
        ConnectWindowStatus::Open { session_name: "NSE_BSE_EQUITY".to_string() }
    );
    assert_eq!(
        policy.status_at(utc_from_ist_day_second(monday, 15 * 3_600 + 29 * 60)),
        ConnectWindowStatus::Open { session_name: "NSE_BSE_EQUITY".to_string() }
    );
}

#[test]
fn waits_until_pre_open_before_market() {
    let policy = policy();
    let monday = 4;
    let now = utc_from_ist_day_second(monday, 9 * 3_600);
    let next = utc_from_ist_day_second(monday, 9 * 3_600 + 10 * 60);

    assert_eq!(
        policy.status_at(now),
        ConnectWindowStatus::Closed {
            session_name: "NSE_BSE_EQUITY".to_string(),
            next_connect_utc: next,
            sleep_seconds: 10 * 60
        }
    );
}

#[test]
fn skips_weekend_when_weekdays_only() {
    let policy = policy();
    let sunday = 3;
    let monday = 4;
    let now = utc_from_ist_day_second(sunday, 12 * 3_600);
    let next = utc_from_ist_day_second(monday, 9 * 3_600 + 10 * 60);

    assert_eq!(
        policy.status_at(now),
        ConnectWindowStatus::Closed {
            session_name: "NSE_BSE_EQUITY".to_string(),
            next_connect_utc: next,
            sleep_seconds: next - now
        }
    );
}

#[test]
fn moves_to_next_day_after_close() {
    let policy = policy();
    let monday = 4;
    let tuesday = 5;
    let now = utc_from_ist_day_second(monday, 15 * 3_600 + 30 * 60);
    let next = utc_from_ist_day_second(tuesday, 9 * 3_600 + 10 * 60);

    assert_eq!(
        policy.status_at(now),
        ConnectWindowStatus::Closed {
            session_name: "NSE_BSE_EQUITY".to_string(),
            next_connect_utc: next,
            sleep_seconds: next - now
        }
    );
}

#[test]
fn combined_sessions_allow_connection_until_latest_open_session_close() {
    let equity = policy();
    let commodity = commodity();
    let monday = 4;

    assert_eq!(
        combined_status_at(
            &vec![equity, commodity],
            utc_from_ist_day_second(monday, 20 * 3_600)
        ),
        ConnectWindowStatus::Open { session_name: "MCX_NON_AGRI".to_string() }
    );
}

#[test]
fn combined_sessions_sleep_until_earliest_next_window() {
    let equity = policy();
    let commodity = commodity();
    let sunday = 3;
    let monday = 4;
    let now = utc_from_ist_day_second(sunday, 12 * 3_600);
    let next = utc_from_ist_day_second(monday, 8 * 3_600 + 55 * 60);

    assert_eq!(
        combined_status_at(&vec![equity, commodity], now),
        ConnectWindowStatus::Closed {
            session_name: "MCX_NON_AGRI".to_string(),
            next_connect_utc: next,
            sleep_seconds: next - now
        }
    );
}

#[test]
fn ist_moments_are_told_with_their_day() {
    assert_eq!(format_ist_epoch(ist_day_second_to_utc(20_636, 9 * 3_600 + 5 * 60)), "2026-07-02 09:05 IST");
}

fn section(id: &str, exchanges: &[&str], open: &str, close: &str) -> MarketSessionSection {
    MarketSessionSection {
        id: id.to_string(),
        exchanges: exchanges.iter().map(|value| value.to_string()).collect(),
        timezone: "Asia/Kolkata".to_string(),
        open: Some(open.to_string()),
        close: Some(close.to_string()),
        always_open: false,
        connect_before_open_secs: 300,
        weekdays_only: true,
    }
}

#[test]
fn gates_nse_session_with_connect_window() {
    let schedule = MarketSessionSchedule::from_configs(&vec![section(
        "NSE_BSE",
        &["NSE", "NFO"],
        "09:15",
        "15:30",
    )])
    .expect("schedule");

    // 2026-07-02 09:10 IST, connect window open.
    assert!(schedule.is_exchange_active("NSE", 1_782_963_600));
    // 2026-07-02 15:31 IST, closed.
    assert!(!schedule.is_exchange_active("NFO", 1_782_986_460));
}

#[test]
fn supports_mcx_late_close_and_crypto_always_open() {
    let crypto = MarketSessionSection {
        id: "CRYPTO".to_string(),
        exchanges: vec!["DELTA".to_string()],
        timezone: "UTC".to_string(),
        open: None,
        close: None,
        always_open: true,
        connect_before_open_secs: 0,
        weekdays_only: false,
    };
    let schedule = MarketSessionSchedule::from_configs(&vec![
        section("MCX", &["MCX"], "09:00", "23:30"),
        crypto,
    ])
    .expect("schedule");

    // 2026-07-02 23:00 IST.
    assert!(schedule.is_exchange_active("MCX", 1_783_013_400));
    // Saturday 2026-07-04 12:00 IST.
    assert!(!schedule.is_exchange_active("MCX", 1_783_148_400));
    assert!(schedule.is_exchange_active("DELTA", 1_783_148_400));
}

#[test]
fn the_first_exchange_to_open_decides() {
    let schedule = MarketSessionSchedule::from_configs(&vec![
        section("NSE_BSE", &[" nse ", "NFO"], "09:15", "15:30"),
        section("MCX", &["MCX"], "09:00", "23:30"),
    ])
    .expect("schedule");
    let both = TextSet::from_list(&vec!["NSE".to_string(), "MCX".to_string()]);
    // 2026-07-02 23:00 IST: only MCX is open.
    assert_eq!(
        schedule.combined_status_for_exchanges(&both, 1_783_013_400),
        ExchangeSessionStatus::Active
    );
    // 2026-07-02 23:31 IST: MCX is connected to at 08:55 on the next day.
    assert_eq!(
        schedule.combined_status_for_exchanges(&both, 1_783_015_260),
        ExchangeSessionStatus::Inactive {
            next_open_utc: Some(1_783_049_100),
            sleep_seconds: 1_783_049_100 - 1_783_015_260
        }
    );
    assert_eq!(
        schedule.combined_status_for_exchanges(&TextSet::new(), 1_783_015_260),
        ExchangeSessionStatus::Active
    );
}

#[test]
fn an_exchange_is_in_the_session_that_lists_it() {
    let schedule = MarketSessionSchedule::from_configs(&vec![section(
        " NSE_BSE ",
        &[" nse ", "NFO", " "],
        "09:15",
        "15:30",
    )])
    .expect("schedule");
    for spelling in ["NSE", " nse", "nFo "] {
        assert_eq!(schedule.policy_for_exchange(spelling).expect("policy").id(), "NSE_BSE");
    }
    assert!(schedule.policy_for_exchange("").is_none());
    assert!(schedule.policy_for_exchange("MCX").is_none());
    assert!(schedule.is_exchange_active("MCX", u64::MAX));
    assert_eq!(
        schedule.status_for_exchange("MCX", u64::MAX),
        ExchangeSessionStatus::Active
    );
}

#[test]
fn returns_exchange_group_for_derivative_filtering() {
    let schedule = MarketSessionSchedule::from_configs(&vec![section(
        "NSE_BSE",
        &["NSE", "NFO"],
        "09:15",
        "15:30",
    )])
    .expect("schedule");

    let group = schedule.session_exchanges_for_exchange("nse").expect("group");
    assert_eq!(group.len(), 2);
    assert!(group.contains("NFO"));
    assert!(group.contains("NSE"));
}

#[test]
fn parses_ist_hh_mm() {
    assert_eq!(parse_ist_hh_mm("08:05").unwrap(), 29_100);
    assert!(parse_ist_hh_mm("24:00").is_err());
}

#[test]
fn schedules_next_weekday_login() {
    let friday_7_30_ist = 86_400 + (2 * 60 * 60);
    let friday_8_05_utc = 86_400 + (2 * 60 * 60 + 35 * 60);
    assert_eq!(next_scheduled_utc_epoch(friday_7_30_ist, 29_100, true), friday_8_05_utc);
}

#[test]
fn exchanges_have_a_status_at_every_moment() {
    let schedule = MarketSessionSchedule::from_configs(&vec![
        section("NSE_BSE", &["NSE"], "09:15", "15:30"),
        section("MCX", &["MCX"], "09:00", "23:30"),
        section("EARLY", &["EARLY"], "01:05", "02:00"),
    ])
    .expect("schedule");
    let all: Vec<String> = ["NSE", "MCX", "EARLY"].iter().map(|name| name.to_string()).collect();
    let set = TextSet::from_list(&all);
    let waits = |next: Option<u64>, seconds: u64| ExchangeSessionStatus::Inactive {
        next_open_utc: next,
        sleep_seconds: seconds,
    };
    // The first second: the session of the early exchange began before it on that day.
    assert_eq!(schedule.status_for_exchange("NSE", 0), waits(Some(13_200), 13_200));
    assert_eq!(schedule.status_for_exchange("MCX", 0), waits(Some(12_300), 12_300));
    assert_eq!(
        schedule.status_for_exchange("EARLY", 0),
        waits(Some(18_446_744_073_709_535_416), 18_446_744_073_709_535_416)
    );
    assert_eq!(schedule.combined_status_for_exchanges(&set, 0), waits(Some(12_300), 12_300));
    // The last second: none of them opens again.
    for name in &all {
        assert!(!schedule.is_exchange_active(name, u64::MAX));
        assert_eq!(schedule.status_for_exchange(name, u64::MAX), waits(None, 86_400));
    }
    assert_eq!(
        schedule.combined_status_for_exchanges(&set, u64::MAX),
        waits(None, 86_400)
    );
    // Some have an opening and some have none.
    assert_eq!(schedule.status_for_exchange("NSE", u64::MAX - 39_999), waits(None, 86_400));
    assert!(schedule.is_exchange_active("MCX", u64::MAX - 39_999));
    let two = TextSet::from_list(&vec!["NSE".to_string(), "EARLY".to_string()]);
    assert_eq!(
        schedule.combined_status_for_exchanges(&two, u64::MAX - 39_999),
        waits(Some(18_446_744_073_709_535_416), 23_800)
    );
    // Where the seconds with a sign end.
    assert_eq!(
        schedule.combined_status_for_exchanges(&set, 9_223_372_036_854_775_808),
        waits(Some(9_223_372_036_854_815_416), 39_608)
    );
}

#[test]
fn a_wait_for_exchanges_is_told() {
    let names = vec![" nse".to_string(), "MCX".to_string(), " ".to_string(), "NSE".to_string()];
    let none = MarketSessionSchedule::from_configs(&vec![]).expect("schedule");
    assert!(exchange_session_wait(&none, &names, 1_783_015_260).is_none());
    let schedule = MarketSessionSchedule::from_configs(&vec![
        section("NSE_BSE", &["NSE"], "09:15", "15:30"),
        section("MCX", &["MCX"], "09:00", "23:30"),
    ])
    .expect("schedule");
    assert!(exchange_session_wait(&schedule, &names, 1_783_013_400).is_none());
    assert!(exchange_session_wait(&schedule, &vec![], 1_783_015_260).is_none());
    let wait = exchange_session_wait(&schedule, &names, 1_783_015_260).expect("wait");
    assert_eq!(
        wait.message,
        "market sessions closed for MCX,NSE; next connect window is 2026-07-03 03:25 UTC; \
         sleeping 33840s"
    );
    assert_eq!(wait.seconds, 33_840);
    let wait = exchange_session_wait(&schedule, &names, u64::MAX).expect("wait");
    assert_eq!(
        wait.message,
        "market sessions closed for MCX,NSE; next connect window is unknown; sleeping 86400s"
    );
    assert_eq!(wait.seconds, 86_400);
    assert_eq!(format_utc_epoch(0), "1970-01-01 00:00 UTC");
}

#[test]
fn a_wait_for_fyers_is_told() {
    assert!(market_session_wait(&vec![], 0).is_none());
    let monday = 4;
    let policies = vec![policy(), commodity()];
    let open = utc_from_ist_day_second(monday, 20 * 3_600);
    assert!(market_session_wait(&policies, open).is_none());
    let wait = market_session_wait(&policies, utc_from_ist_day_second(monday, 8 * 3_600))
        .expect("wait");
    assert_eq!(
        wait.message,
        "FYERS market sessions closed; next connect window is MCX_NON_AGRI at \
         1970-01-05 08:55 IST; sleeping 3300s without reconnect spam"
    );
    assert_eq!(wait.seconds, 3_300);
    assert_eq!(
        combined_status_at(&vec![], 5),
        ConnectWindowStatus::Closed {
            session_name: "UNKNOWN".to_string(),
            next_connect_utc: 86_405,
            sleep_seconds: 86_400
        }
    );
    assert_eq!(
        policy().status_at(9_223_372_036_854_775_808),
        ConnectWindowStatus::Closed {
            session_name: "NSE_BSE_EQUITY".to_string(),
            next_connect_utc: 9_223_372_036_854_844_816,
            sleep_seconds: 69_008
        }
    );
}

#[test]
fn logins_are_scheduled_at_every_moment() {
    assert_eq!(next_scheduled_utc_epoch(u64::MAX, 29_100, true), 86_399);
    assert_eq!(next_scheduled_utc_epoch(0, 3_600, true), 18_446_744_073_709_535_416);
    // Friday 2026-07-03 08:05 IST: the next is on Monday.
    assert_eq!(next_scheduled_utc_epoch(1_783_046_100, 29_100, true), 1_783_305_300);
    assert_eq!(next_scheduled_utc_epoch(1_783_046_100, 29_100, false), 1_783_132_500);
    assert!(should_run_catchup(1_783_046_100, 29_100, true));
    assert!(!should_run_catchup(1_783_046_099, 29_100, true));
    assert!(!should_run_catchup(1_783_132_500, 29_100, true));
}
