//! The interface through which logins and tokens are given.
use dhancred_trading_app::adapters::angelone::auth::AngeloneLoginSummary;
use dhancred_trading_app::adapters::dbinternational::auth::{
    DbinternationalLoginKind, DbinternationalLoginSummary,
};
use dhancred_trading_app::admin::{
    check_bind_address, format_angelone_login_summary, format_login_summaries, login_answer,
    parse_http_request, request_complete, response_text, route, take_bytes, AdminAction,
    AdminState, BindAddress, HttpAnswer, FYERS_ACCESS_TOKEN_PATH,
};
use dhancred_trading_app::feeder::error::FeedError;

#[test]
fn parses_plain_text_token_request() {
    let request = b"POST /admin/fyers/access-token HTTP/1.1\r\nhost: 127.0.0.1\r\ncontent-length: 11\r\n\r\ntoken-value";

    let parsed = parse_http_request(request).expect("request");

    assert_eq!(parsed.method, "POST");
    assert_eq!(parsed.path, FYERS_ACCESS_TOKEN_PATH);
    assert_eq!(parsed.body, "token-value");
}

#[test]
fn formats_dbinternational_login_summary_without_token_value() {
    let body = format_login_summaries(&vec![DbinternationalLoginSummary {
        kind: DbinternationalLoginKind::MarketData,
        user_id: Some("ABC".to_string()),
        token_file: "runtime/secrets/token".to_string(),
        session_file: None,
    }]);

    assert!(body.contains("market_data user_id=ABC"));
    assert!(body.contains("token_file=runtime/secrets/token"));
    assert!(!body.contains("token-value"));
    assert_eq!(
        body,
        "DBInternational login completed\nmarket_data user_id=ABC token_file=runtime/secrets/token session_file=-\n"
    );
}

#[test]
fn formats_angelone_login_summary_without_token_value() {
    let body = format_angelone_login_summary(&AngeloneLoginSummary {
        client_code: "ABC".to_string(),
        session_file: "runtime/secrets/angelone_session.json".to_string(),
    });

    assert!(body.contains("client_code=ABC"));
    assert!(body.contains("session_file=runtime/secrets/angelone_session.json"));
    assert!(!body.contains("jwt"));
}

#[test]
fn a_request_is_complete_with_its_body() {
    let head = b"POST /x HTTP/1.1\r\nContent-Length: 3\r\n\r\n";
    let mut data = Vec::new();
    assert_eq!(take_bytes(&mut data, &head[..20]), Ok(false));
    assert_eq!(take_bytes(&mut data, &head[20..]), Ok(false));
    assert_eq!(take_bytes(&mut data, b"ab"), Ok(false));
    assert_eq!(
        parse_http_request(&data).err(),
        Some(FeedError::Parse("admin API request body incomplete".to_string()))
    );
    assert_eq!(take_bytes(&mut data, b"c"), Ok(true));
    let request = parse_http_request(&data).expect("request");
    assert_eq!(request.body, "abc");
    assert_eq!(take_bytes(&mut data, b"d\r\n\r\nGET /y"), Ok(true));
    assert_eq!(parse_http_request(&data), Ok(request));
    assert_eq!(
        take_bytes(&mut data, &[0; 16_384]),
        Err(FeedError::Config("admin API request too large".to_string()))
    );
}

#[test]
fn requests_that_are_none_are_refused() {
    assert_eq!(
        parse_http_request(b"GET /health HTTP/1.1\r\n").err(),
        Some(FeedError::Parse("admin API request missing headers".to_string()))
    );
    assert_eq!(
        parse_http_request(b"\r\n\r\n").err(),
        Some(FeedError::Parse("admin API request line missing".to_string()))
    );
    assert_eq!(
        parse_http_request(b" \r\n\r\n").err(),
        Some(FeedError::Parse("admin API request method missing".to_string()))
    );
    assert_eq!(
        parse_http_request(b"GET\r\n\r\n").err(),
        Some(FeedError::Parse("admin API request path missing".to_string()))
    );
    assert_eq!(
        request_complete(b"GET / HTTP/1.1\r\ncontent-length: x\r\n\r\n").err(),
        Some(FeedError::Parse(
            "invalid admin API content-length: invalid digit found in string".to_string()
        ))
    );
    assert_eq!(
        parse_http_request(b"GET /\xff HTTP/1.1\r\n\r\n").err(),
        Some(FeedError::Parse(
            "invalid admin API request headers: invalid utf-8 sequence of 1 bytes from index 5"
                .to_string()
        ))
    );
}

fn state() -> AdminState {
    AdminState {
        fyers_access_token_file: Some("token".to_string()),
        dbinternational: true,
        angelone: true,
        strategies: false,
    }
}

fn asked(text: &str) -> AdminAction {
    route(&parse_http_request(text.as_bytes()).expect("request"), &state())
}

#[test]
fn requests_find_what_is_done_about_them() {
    assert_eq!(
        asked("GET /health HTTP/1.1\r\n\r\n"),
        AdminAction::Answer(HttpAnswer { status: 200, body: "ok\n".to_string() })
    );
    assert_eq!(
        asked("POST /admin/fyers/access-token HTTP/1.1\r\ncontent-length: 1\r\n\r\nt"),
        AdminAction::KeepFyersToken { file: "token".to_string(), token: "t".to_string() }
    );
    assert_eq!(
        asked("POST /admin/dbinternational/login HTTP/1.1\r\n\r\n"),
        AdminAction::LoginDbinternational
    );
    assert_eq!(
        asked("POST /admin/angelone/login HTTP/1.1\r\ncontent-length: 10\r\n\r\n 123456 x "),
        AdminAction::LoginAngelone { totp: Some("123456".to_string()) }
    );
    assert_eq!(
        asked("POST /admin/strategy/reload HTTP/1.1\r\n\r\n"),
        AdminAction::Answer(HttpAnswer {
            status: 404,
            body: "strategy runtime disabled\n".to_string()
        })
    );
    assert_eq!(
        asked("GET /admin/angelone/login HTTP/1.1\r\n\r\n"),
        AdminAction::Answer(HttpAnswer { status: 404, body: "not found\n".to_string() })
    );
}

#[test]
fn answers_tell_the_bytes_of_their_bodies() {
    let text = response_text(&HttpAnswer { status: 404, body: "né\n".to_string() });
    assert_eq!(
        text,
        "HTTP/1.1 404 Not Found\r\ncontent-type: text/plain\r\ncontent-length: 4\r\nconnection: close\r\n\r\nné\n"
    );
    let failed = login_answer(&Err(FeedError::Http("down".to_string())));
    assert_eq!(failed.status, 500);
    assert_eq!(failed.body, "login failed: http error: down\n");
}

#[test]
fn only_addresses_of_this_machine_are_listened_at() {
    let address = |loopback: bool| {
        Ok(BindAddress { shown: "0.0.0.0:8080".to_string(), loopback })
    };
    assert_eq!(check_bind_address("0.0.0.0:8080", &address(true)), Ok(()));
    assert_eq!(
        check_bind_address("0.0.0.0:8080", &address(false)).err(),
        Some(FeedError::Config(
            "admin bind_addr must be loopback only, got 0.0.0.0:8080".to_string()
        ))
    );
    assert_eq!(
        check_bind_address("x", &Err("bad".to_string())).err(),
        Some(FeedError::Config("invalid admin bind_addr x: bad".to_string()))
    );
}
