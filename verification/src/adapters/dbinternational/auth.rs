//! Logging in at DBInternational.
use crate::adapters::HttpReply;
use crate::binary64::{copy_text, text_facts};
use crate::config::{missing_env, url_of, DbinternationalBrokerSection};
use crate::encodings::{decode_url, url_decoded};
use crate::feeder::error::{outcome, FeedError, FeedFault};
use crate::json::{
    field_of, json_option, parsed_bytes, parsed_text, read_json, read_json_bytes, string_of,
    unsigned_of, Json, JsonFacts, Shape, ShapeFacts,
};
use crate::text::{
    brief, brief_of, byte_len, chars_of, contains, decimal, decimal_of, drop_ending, drop_ending_of,
    holds, place, place_of, same, split, split_of, str_views, strip_end, strip_end_of, sub_text,
    trim, trim_of,
};
use vstd::prelude::*;
use vstd::utf8::encode_utf8;

verus! {

/// How large a token may be, in bytes.
pub const MAX_TOKEN_BYTES: usize = 16_384;

/// How large a session file may be, in bytes.
pub const MAX_SESSION_BYTES: usize = 2_097_152;

/// How long a token has to be valid for yet to be used.
pub const TOKEN_EXPIRY_GRACE_SECONDS: u64 = 60;

/// What a login is for.
#[derive(Clone, Copy, Debug, PartialEq, Eq, Structural)]
pub enum DbinternationalLoginKind {
    MarketData,
    Interactive,
}

pub open spec fn kind_text(kind: DbinternationalLoginKind) -> Seq<char> {
    match kind {
        DbinternationalLoginKind::MarketData => "market_data"@,
        DbinternationalLoginKind::Interactive => "interactive"@,
    }
}

pub open spec fn label_of(kind: DbinternationalLoginKind) -> Seq<char> {
    match kind {
        DbinternationalLoginKind::MarketData => "DBInternational market data"@,
        DbinternationalLoginKind::Interactive => "DBInternational interactive"@,
    }
}

impl DbinternationalLoginKind {
    pub fn as_str(self) -> (r: &'static str)
        ensures
            r@ == kind_text(self),
    {
        match self {
            DbinternationalLoginKind::MarketData => "market_data",
            DbinternationalLoginKind::Interactive => "interactive",
        }
    }

    pub fn label(self) -> (r: &'static str)
        ensures
            r@ == label_of(self),
    {
        match self {
            DbinternationalLoginKind::MarketData => "DBInternational market data",
            DbinternationalLoginKind::Interactive => "DBInternational interactive",
        }
    }
}

/// What came of a login.
#[derive(Debug, PartialEq, Eq)]
pub struct DbinternationalLoginSummary {
    pub kind: DbinternationalLoginKind,
    pub user_id: Option<String>,
    pub token_file: String,
    pub session_file: Option<String>,
}

/// What came of a login, as contracts speak of it.
pub struct SummaryFacts {
    pub kind: DbinternationalLoginKind,
    pub user_id: Option<Seq<char>>,
    pub token_file: Seq<char>,
    pub session_file: Option<Seq<char>>,
}

impl View for DbinternationalLoginSummary {
    type V = SummaryFacts;

    open spec fn view(&self) -> SummaryFacts {
        SummaryFacts {
            kind: self.kind,
            user_id: text_facts(self.user_id),
            token_file: self.token_file@,
            session_file: text_facts(self.session_file),
        }
    }
}

/// What is next where everything is logged in to.
#[derive(Debug, PartialEq, Eq)]
pub enum LoginAllStep {
    /// One more login is made, behind those that are done.
    Ask { kind: DbinternationalLoginKind, done: Vec<DbinternationalLoginSummary> },
    /// It is over.
    End(Result<Vec<DbinternationalLoginSummary>, FeedError>),
}

/// What is next where everything is logged in to: the market data first, and then the
/// interactive part. What came of them stands in that order; a login that fails ends it.
pub fn next_login(done: Vec<DbinternationalLoginSummary>, failed: Option<FeedError>) -> (r:
    LoginAllStep)
    ensures
        match failed {
            Some(e) => r == LoginAllStep::End(Err(e)),
            None => if done@.len() == 0 {
                r == (LoginAllStep::Ask { kind: DbinternationalLoginKind::MarketData, done })
            } else if done@.len() == 1 {
                r == (LoginAllStep::Ask { kind: DbinternationalLoginKind::Interactive, done })
            } else {
                r == LoginAllStep::End(Ok(done))
            },
        },
{
    if let Some(e) = failed {
        return LoginAllStep::End(Err(e));
    }
    if done.len() == 0 {
        LoginAllStep::Ask { kind: DbinternationalLoginKind::MarketData, done }
    } else if done.len() == 1 {
        LoginAllStep::Ask { kind: DbinternationalLoginKind::Interactive, done }
    } else {
        LoginAllStep::End(Ok(done))
    }
}

/// What is sent to log in.
#[derive(Debug)]
pub struct LoginRequest {
    pub secret_key: String,
    pub app_key: String,
    pub source: Option<String>,
    pub unique_key: Option<String>,
    pub access_token: Option<String>,
}

/// What is sent to log in, as contracts speak of it.
pub struct RequestFacts {
    pub secret_key: Seq<char>,
    pub app_key: Seq<char>,
    pub source: Option<Seq<char>>,
    pub unique_key: Option<Seq<char>>,
    pub access_token: Option<Seq<char>>,
}

impl View for LoginRequest {
    type V = RequestFacts;

    open spec fn view(&self) -> RequestFacts {
        RequestFacts {
            secret_key: self.secret_key@,
            app_key: self.app_key@,
            source: text_facts(self.source),
            unique_key: text_facts(self.unique_key),
            access_token: text_facts(self.access_token),
        }
    }
}

/// The value of a variable that has to be set.
pub open spec fn env_of(name: Seq<char>, value: Option<Seq<char>>) -> Result<
    Seq<char>,
    FeedFault,
> {
    match value {
        None => Err(FeedFault::Config("missing environment variable "@ + name)),
        Some(v) => if trim_of(v).len() == 0 {
            Err(FeedFault::Config("environment variable "@ + name + " is empty"@))
        } else {
            Ok(trim_of(v))
        },
    }
}

/// The value of a variable that has to be set.
pub fn required_env(name: &str, value: &Option<String>) -> (r: Result<String, FeedError>)
    ensures
        outcome(r) == env_of(name@, text_facts(*value)),
{
    match value {
        None => Err(missing_env(name)),
        Some(v) => {
            let t = trim(v.as_str());
            if t.as_str().is_empty() {
                let mut message = "environment variable ".to_owned();
                message.append(name);
                message.append(" is empty");
                return Err(FeedError::Config(message));
            }
            Ok(t)
        },
    }
}

/// What came of reading a file.
#[derive(Debug)]
pub enum FileRead {
    NotFound,
    Failed(String),
    Content(String),
}

/// A secret that may be set: by a variable, or else by a file.
pub open spec fn secret_of(
    env_value: Option<Seq<char>>,
    file_path: Option<Seq<char>>,
    file: FileRead,
) -> Result<Option<Seq<char>>, FeedFault> {
    if env_value is Some && trim_of(env_value->0).len() > 0 {
        Ok(Some(trim_of(env_value->0)))
    } else {
        match file_path {
            None => Ok(None),
            Some(path) => match file {
                FileRead::NotFound => Ok(None),
                FileRead::Failed(error) => Err(
                    FeedFault::Config("failed to read "@ + path + ": "@ + error@),
                ),
                FileRead::Content(value) => if trim_of(value@).len() == 0 {
                    Ok(None)
                } else {
                    Ok(Some(trim_of(value@)))
                },
            },
        }
    }
}

/// A secret that may be set. `env_value` is the value of its variable, where there is one;
/// `file` is what came of reading the file at `file_path`.
pub fn optional_secret(
    env_value: &Option<String>,
    file_path: &Option<String>,
    file: &FileRead,
) -> (r: Result<Option<String>, FeedError>)
    ensures
        match r {
            Ok(secret) => secret_of(text_facts(*env_value), text_facts(*file_path), *file) == Ok::<
                Option<Seq<char>>,
                FeedFault,
            >(text_facts(secret)),
            Err(e) => secret_of(text_facts(*env_value), text_facts(*file_path), *file) == Err::<
                Option<Seq<char>>,
                FeedFault,
            >(e@),
        },
{
    if let Some(value) = env_value {
        let t = trim(value.as_str());
        if !t.as_str().is_empty() {
            return Ok(Some(t));
        }
    }
    match file_path {
        None => Ok(None),
        Some(path) => match file {
            FileRead::NotFound => Ok(None),
            FileRead::Failed(error) => {
                let mut message = "failed to read ".to_owned();
                message.append(path.as_str());
                message.append(": ");
                message.append(error.as_str());
                Err(FeedError::Config(message))
            },
            FileRead::Content(value) => {
                let t = trim(value.as_str());
                if t.as_str().is_empty() {
                    Ok(None)
                } else {
                    Ok(Some(t))
                }
            },
        },
    }
}

/// What is sent to log in for market data.
pub open spec fn market_data_request_of(
    config: DbinternationalBrokerSection,
    secret_key: Option<Seq<char>>,
    app_key: Option<Seq<char>>,
) -> Result<RequestFacts, FeedFault> {
    match env_of(config.market_data_secret_key_env@, secret_key) {
        Err(e) => Err(e),
        Ok(secret_key) => match env_of(config.market_data_app_key_env@, app_key) {
            Err(e) => Err(e),
            Ok(app_key) => Ok(
                RequestFacts {
                    secret_key,
                    app_key,
                    source: None,
                    unique_key: None,
                    access_token: None,
                },
            ),
        },
    }
}

/// What is sent to log in for market data, with the values of the configured variables.
pub fn market_data_login_request(
    config: &DbinternationalBrokerSection,
    secret_key: &Option<String>,
    app_key: &Option<String>,
) -> (r: Result<LoginRequest, FeedError>)
    ensures
        outcome(r) == market_data_request_of(*config, text_facts(*secret_key), text_facts(*app_key)),
{
    let secret_key = match required_env(config.market_data_secret_key_env.as_str(), secret_key) {
        Ok(value) => value,
        Err(e) => return Err(e),
    };
    let app_key = match required_env(config.market_data_app_key_env.as_str(), app_key) {
        Ok(value) => value,
        Err(e) => return Err(e),
    };
    Ok(LoginRequest { secret_key, app_key, source: None, unique_key: None, access_token: None })
}

/// What is sent to log in for trading.
pub open spec fn interactive_request_of(
    config: DbinternationalBrokerSection,
    secret_key: Option<Seq<char>>,
    app_key: Option<Seq<char>>,
    unique_key: Result<Option<Seq<char>>, FeedFault>,
    access_token: Result<Option<Seq<char>>, FeedFault>,
) -> Result<RequestFacts, FeedFault> {
    match env_of(config.interactive_secret_key_env@, secret_key) {
        Err(e) => Err(e),
        Ok(secret_key) => match env_of(config.interactive_app_key_env@, app_key) {
            Err(e) => Err(e),
            Ok(app_key) => match unique_key {
                Err(e) => Err(e),
                Ok(unique_key) => match access_token {
                    Err(e) => Err(e),
                    Ok(access_token) => Ok(
                        RequestFacts {
                            secret_key,
                            app_key,
                            source: Some("WebApi"@),
                            unique_key,
                            access_token,
                        },
                    ),
                },
            },
        },
    }
}

pub open spec fn secret_outcome(r: Result<Option<String>, FeedError>) -> Result<
    Option<Seq<char>>,
    FeedFault,
> {
    match r {
        Ok(secret) => Ok(text_facts(secret)),
        Err(e) => Err(e@),
    }
}

/// What is sent to log in for trading, with the values of the configured variables and
/// what came of the secrets that may be set.
pub fn interactive_login_request(
    config: &DbinternationalBrokerSection,
    secret_key: &Option<String>,
    app_key: &Option<String>,
    unique_key: Result<Option<String>, FeedError>,
    access_token: Result<Option<String>, FeedError>,
) -> (r: Result<LoginRequest, FeedError>)
    ensures
        outcome(r) == interactive_request_of(
            *config,
            text_facts(*secret_key),
            text_facts(*app_key),
            secret_outcome(unique_key),
            secret_outcome(access_token),
        ),
{
    let secret_key = match required_env(config.interactive_secret_key_env.as_str(), secret_key) {
        Ok(value) => value,
        Err(e) => return Err(e),
    };
    let app_key = match required_env(config.interactive_app_key_env.as_str(), app_key) {
        Ok(value) => value,
        Err(e) => return Err(e),
    };
    let unique_key = match unique_key {
        Ok(value) => value,
        Err(e) => return Err(e),
    };
    let access_token = match access_token {
        Ok(value) => value,
        Err(e) => return Err(e),
    };
    Ok(
        LoginRequest {
            secret_key,
            app_key,
            source: Some("WebApi".to_owned()),
            unique_key,
            access_token,
        },
    )
}

/// The part of an answer that tells what came of a request: the first of a list, or the
/// object that the answer is.
pub open spec fn envelope_of(json: JsonFacts) -> Option<JsonFacts> {
    match json.shape {
        ShapeFacts::List(items) => if items.len() > 0 {
            Some(items[0])
        } else {
            None
        },
        ShapeFacts::Object { .. } => Some(json),
        _ => None,
    }
}

pub fn response_envelope(json: &Json) -> (r: Option<&Json>)
    ensures
        json_option(r) == envelope_of(json@),
{
    match &json.shape {
        Shape::List(items) => if items.len() > 0 {
            Some(&items[0])
        } else {
            None
        },
        Shape::Object { .. } => Some(json),
        _ => None,
    }
}

/// Whether an envelope tells of success.
pub open spec fn tells_success(envelope: JsonFacts) -> bool {
    text_under(envelope, "type"@) == Some("success"@)
}

/// The characters of a field that is a text.
pub open spec fn text_under(json: JsonFacts, key: Seq<char>) -> Option<Seq<char>> {
    match field_of(json, key) {
        Some(value) => string_of(value),
        None => None,
    }
}

pub open spec fn str_option(value: Option<&str>) -> Option<Seq<char>> {
    match value {
        Some(v) => Some(v@),
        None => None,
    }
}

pub fn text_field<'a>(json: &'a Json, key: &str) -> (r: Option<&'a str>)
    ensures
        str_option(r) == text_under(json@, key@),
{
    match json.field(key) {
        Some(value) => value.as_str(),
        None => None,
    }
}

pub fn is_success(envelope: &Json) -> (r: bool)
    ensures
        r == tells_success(envelope@),
{
    match text_field(envelope, "type") {
        Some(value) => same(value, "success"),
        None => false,
    }
}

/// The first of some fields that is a text.
pub open spec fn first_text(json: JsonFacts, keys: Seq<Seq<char>>) -> Option<Seq<char>>
    decreases keys.len(),
{
    if keys.len() == 0 {
        None
    } else {
        match text_under(json, keys[0]) {
            Some(value) => Some(value),
            None => first_text(json, keys.drop_first()),
        }
    }
}

/// What the first of some fields that is a text says, where it says anything.
pub open spec fn said_under(json: JsonFacts, keys: Seq<Seq<char>>) -> Option<Seq<char>> {
    match first_text(json, keys) {
        Some(value) => if trim_of(value).len() > 0 {
            Some(trim_of(value))
        } else {
            None
        },
        None => None,
    }
}

/// What the first of some fields that is a text says, where it says anything.
pub fn first_string_field(json: &Json, keys: &Vec<&'static str>) -> (r: Option<String>)
    ensures
        text_facts(r) == said_under(json@, str_views(keys@)),
{
    let ghost names = str_views(keys@);
    let mut i: usize = 0;
    assert(names.skip(0) =~= names);
    while i < keys.len()
        invariant
            i <= keys@.len(),
            names == str_views(keys@),
            first_text(json@, names) == first_text(json@, names.skip(i as int)),
        decreases keys@.len() - i,
    {
        assert(names.skip(i as int).drop_first() =~= names.skip(i + 1));
        assert(names.skip(i as int)[0] == keys@[i as int]@);
        match text_field(json, keys[i]) {
            Some(value) => {
                let t = trim(value);
                if t.as_str().is_empty() {
                    return None;
                }
                return Some(t);
            },
            None => {},
        }
        i += 1;
    }
    None
}

/// The fields that a token is given under.
pub open spec fn token_keys() -> Seq<Seq<char>> {
    seq!["token"@, "accessToken"@, "access_token"@, "Token"@]
}

/// The fields that a user is given under.
pub open spec fn user_keys() -> Seq<Seq<char>> {
    seq!["userID"@, "userId"@, "user_id"@, "ClientID"@, "clientID"@, "clientId"@]
}

/// The fields that an address is given under.
pub open spec fn address_keys() -> Seq<Seq<char>> {
    seq![
        "base_url"@,
        "baseUrl"@,
        "baseURL"@,
        "hostUrl"@,
        "host_url"@,
        "connectionString"@,
        "ConnectionString"@,
    ]
}

/// What the result of a login says, or else its envelope.
pub open spec fn said_in_either(
    result: JsonFacts,
    envelope: JsonFacts,
    keys: Seq<Seq<char>>,
) -> Option<Seq<char>> {
    match said_under(result, keys) {
        Some(value) => Some(value),
        None => said_under(envelope, keys),
    }
}

fn in_either(result: &Json, envelope: &Json, keys: &Vec<&'static str>) -> (r: Option<String>)
    ensures
        text_facts(r) == said_in_either(result@, envelope@, str_views(keys@)),
{
    match first_string_field(result, keys) {
        Some(value) => Some(value),
        None => first_string_field(envelope, keys),
    }
}

/// What a login gives.
#[derive(Debug, PartialEq, Eq)]
pub struct ParsedLoginSession {
    pub access_token: String,
    pub user_id: Option<String>,
    pub base_url: Option<String>,
}

/// What a login gives, as contracts speak of it.
pub struct LoginFacts {
    pub access_token: Seq<char>,
    pub user_id: Option<Seq<char>>,
    pub base_url: Option<Seq<char>>,
}

impl View for ParsedLoginSession {
    type V = LoginFacts;

    open spec fn view(&self) -> LoginFacts {
        LoginFacts {
            access_token: self.access_token@,
            user_id: text_facts(self.user_id),
            base_url: text_facts(self.base_url),
        }
    }
}

/// What the answer to a login gives.
pub open spec fn login_of(kind: DbinternationalLoginKind, json: JsonFacts) -> Result<
    LoginFacts,
    FeedFault,
> {
    match envelope_of(json) {
        None => Err(FeedFault::Parse(label_of(kind) + " login response is empty"@)),
        Some(envelope) => if !tells_success(envelope) {
            Err(
                FeedFault::Http(
                    label_of(kind) + " login returned non-success response: "@ + brief_of(
                        envelope.text,
                        500,
                    ),
                ),
            )
        } else {
            match field_of(envelope, "result"@) {
                None => Err(FeedFault::Parse(label_of(kind) + " login missing result"@)),
                Some(result) => match said_in_either(result, envelope, token_keys()) {
                    None => Err(FeedFault::Parse(label_of(kind) + " login missing token"@)),
                    Some(access_token) => Ok(
                        LoginFacts {
                            access_token,
                            user_id: said_in_either(result, envelope, user_keys()),
                            base_url: said_in_either(result, envelope, address_keys()),
                        },
                    ),
                },
            }
        },
    }
}

/// Reads the answer to a login.
pub fn parse_login_response(kind: DbinternationalLoginKind, json: &Json) -> (r: Result<
    ParsedLoginSession,
    FeedError,
>)
    ensures
        outcome(r) == login_of(kind, json@),
{
    let label = kind.label().to_owned();
    let envelope = match response_envelope(json) {
        Some(envelope) => envelope,
        None => return Err(FeedError::Parse(label.concat(" login response is empty"))),
    };
    if !is_success(envelope) {
        let mut message = label;
        message.append(" login returned non-success response: ");
        message.append(brief(envelope.text.as_str(), 500).as_str());
        return Err(FeedError::Http(message));
    }
    let result = match envelope.field("result") {
        Some(result) => result,
        None => return Err(FeedError::Parse(label.concat(" login missing result"))),
    };
    let keys: Vec<&'static str> = vec!["token", "accessToken", "access_token", "Token"];
    assert(str_views(keys@) =~= token_keys());
    let access_token = match in_either(result, envelope, &keys) {
        Some(access_token) => access_token,
        None => return Err(FeedError::Parse(label.concat(" login missing token"))),
    };
    let keys: Vec<&'static str> = vec![
        "userID",
        "userId",
        "user_id",
        "ClientID",
        "clientID",
        "clientId",
    ];
    assert(str_views(keys@) =~= user_keys());
    let user_id = in_either(result, envelope, &keys);
    let keys: Vec<&'static str> = vec![
        "base_url",
        "baseUrl",
        "baseURL",
        "hostUrl",
        "host_url",
        "connectionString",
        "ConnectionString",
    ];
    assert(str_views(keys@) =~= address_keys());
    let base_url = in_either(result, envelope, &keys);
    Ok(ParsedLoginSession { access_token, user_id, base_url })
}

/// The address that a session is used at, for an address that was logged in at.
pub open spec fn login_base_of(kind: DbinternationalLoginKind, value: Seq<char>) -> Seq<char> {
    let t = strip_end_of(trim_of(value), '/');
    match kind {
        DbinternationalLoginKind::MarketData => drop_ending_of(t, "/auth/login"@),
        DbinternationalLoginKind::Interactive => drop_ending_of(t, "/user/session"@),
    }
}

pub fn normalize_login_url(kind: DbinternationalLoginKind, value: &str) -> (r: String)
    ensures
        r@ == login_base_of(kind, value@),
{
    let t = strip_end(trim(value).as_str(), '/');
    match kind {
        DbinternationalLoginKind::MarketData => drop_ending(t.as_str(), "/auth/login"),
        DbinternationalLoginKind::Interactive => drop_ending(t.as_str(), "/user/session"),
    }
}

/// The address that a session is used at: the one that the answer gives, or else the one
/// that was logged in at.
pub open spec fn session_base_of(
    kind: DbinternationalLoginKind,
    auth_url: Seq<char>,
    given: Option<Seq<char>>,
) -> Result<Seq<char>, FeedFault> {
    let base = login_base_of(
        kind,
        match given {
            Some(value) => value,
            None => auth_url,
        },
    );
    if base.len() == 0 {
        Err(FeedFault::Parse(label_of(kind) + " login produced empty base_url"@))
    } else {
        Ok(base)
    }
}

pub fn session_base_url(
    kind: DbinternationalLoginKind,
    auth_url: &str,
    response_base_url: &Option<String>,
) -> (r: Result<String, FeedError>)
    ensures
        outcome(r) == session_base_of(kind, auth_url@, text_facts(*response_base_url)),
{
    let base_url = match response_base_url {
        Some(value) => normalize_login_url(kind, value.as_str()),
        None => normalize_login_url(kind, auth_url),
    };
    if base_url.as_str().is_empty() {
        return Err(
            FeedError::Parse(kind.label().to_owned().concat(" login produced empty base_url")),
        );
    }
    Ok(base_url)
}

/// A session as it is kept.
#[derive(Debug)]
pub struct DbinternationalSavedSession {
    pub broker: String,
    pub login_kind: String,
    pub logged_in_at_epoch_secs: u64,
    pub access_token: String,
    pub user_id: Option<String>,
    pub base_url: String,
    pub auth_url: String,
    pub response: Json,
}

/// A session as contracts speak of it.
pub struct SavedFacts {
    pub broker: Seq<char>,
    pub login_kind: Seq<char>,
    pub logged_in_at: u64,
    pub access_token: Seq<char>,
    pub user_id: Option<Seq<char>>,
    pub base_url: Seq<char>,
    pub auth_url: Seq<char>,
    pub response: JsonFacts,
}

impl View for DbinternationalSavedSession {
    type V = SavedFacts;

    open spec fn view(&self) -> SavedFacts {
        SavedFacts {
            broker: self.broker@,
            login_kind: self.login_kind@,
            logged_in_at: self.logged_in_at_epoch_secs,
            access_token: self.access_token@,
            user_id: text_facts(self.user_id),
            base_url: self.base_url@,
            auth_url: self.auth_url@,
            response: self.response@,
        }
    }
}

/// The session that a login gives.
pub open spec fn saved_of(
    kind: DbinternationalLoginKind,
    auth_url: Seq<char>,
    login: LoginFacts,
    response: JsonFacts,
    now: u64,
) -> Result<SavedFacts, FeedFault> {
    match session_base_of(kind, auth_url, login.base_url) {
        Err(e) => Err(e),
        Ok(base_url) => Ok(
            SavedFacts {
                broker: "DBINTERNATIONAL"@,
                login_kind: kind_text(kind),
                logged_in_at: now,
                access_token: login.access_token,
                user_id: login.user_id,
                base_url,
                auth_url,
                response,
            },
        ),
    }
}

/// The session that a login at a moment gives.
pub fn build_saved_session(
    kind: DbinternationalLoginKind,
    auth_url: &str,
    parsed_session: ParsedLoginSession,
    response: Json,
    now_epoch_secs: u64,
) -> (r: Result<DbinternationalSavedSession, FeedError>)
    ensures
        outcome(r) == saved_of(kind, auth_url@, parsed_session@, response@, now_epoch_secs),
{
    let base_url = match session_base_url(kind, auth_url, &parsed_session.base_url) {
        Ok(base_url) => base_url,
        Err(e) => return Err(e),
    };
    Ok(
        DbinternationalSavedSession {
            broker: "DBINTERNATIONAL".to_owned(),
            login_kind: kind.as_str().to_owned(),
            logged_in_at_epoch_secs: now_epoch_secs,
            access_token: parsed_session.access_token,
            user_id: parsed_session.user_id,
            base_url,
            auth_url: auth_url.to_owned(),
            response,
        },
    )
}

/// The session that the answer to a login gives.
pub open spec fn session_of(
    kind: DbinternationalLoginKind,
    url: Seq<char>,
    response: JsonFacts,
    now: u64,
) -> Result<SavedFacts, FeedFault> {
    match login_of(kind, response) {
        Err(e) => Err(e),
        Ok(login) => saved_of(kind, url, login, response, now),
    }
}

/// The session that the answer to a login gives.
pub fn finish_login(
    kind: DbinternationalLoginKind,
    url: &str,
    response: Json,
    now_epoch_secs: u64,
) -> (r: Result<DbinternationalSavedSession, FeedError>)
    ensures
        outcome(r) == session_of(kind, url@, response@, now_epoch_secs),
{
    match parse_login_response(kind, &response) {
        Ok(parsed) => build_saved_session(kind, url, parsed, response, now_epoch_secs),
        Err(e) => Err(e),
    }
}

/// The session that a reply to a login gives.
pub open spec fn replied_of(
    kind: DbinternationalLoginKind,
    url: Seq<char>,
    reply: HttpReply,
    now: u64,
) -> Result<SavedFacts, FeedFault> {
    if !reply.success {
        Err(
            FeedFault::Http(
                label_of(kind) + " login failed url="@ + url + " status="@ + decimal_of(
                    reply.status as nat,
                ) + " body="@ + sanitized_of(reply.body@),
            ),
        )
    } else {
        match parsed_text(reply.body@) {
            Err(e) => Err(FeedFault::Parse(e)),
            Ok(json) => session_of(kind, url, json, now),
        }
    }
}

/// The session that a reply to a login gives.
pub fn read_login(
    kind: DbinternationalLoginKind,
    url: &str,
    reply: &HttpReply,
    now_epoch_secs: u64,
) -> (r: Result<DbinternationalSavedSession, FeedError>)
    ensures
        outcome(r) == replied_of(kind, url@, *reply, now_epoch_secs),
{
    if !reply.success {
        let mut message = kind.label().to_owned();
        message.append(" login failed url=");
        message.append(url);
        message.append(" status=");
        message.append(decimal(reply.status as u64).as_str());
        message.append(" body=");
        message.append(sanitized_error_snippet(reply.body.as_str()).as_str());
        return Err(FeedError::Http(message));
    }
    match read_json(reply.body.as_str()) {
        Ok(json) => finish_login(kind, url, json, now_epoch_secs),
        Err(e) => Err(FeedError::Parse(e)),
    }
}

/// What a file of limited size is to hold.
pub open spec fn limited_of(content: Seq<char>, max_bytes: nat, label: Seq<char>) -> Result<
    Seq<char>,
    FeedFault,
> {
    let t = trim_of(content);
    let n = encode_utf8(t).len();
    if t.len() == 0 {
        Err(FeedFault::Config(label + " content cannot be empty"@))
    } else if n > max_bytes {
        Err(
            FeedFault::Config(
                label + " content is too large: "@ + decimal_of(n) + " bytes > "@ + decimal_of(
                    max_bytes,
                ) + " bytes"@,
            ),
        )
    } else {
        Ok(t + "\n"@)
    }
}

/// What a file of limited size is to hold.
pub fn limited_content(content: &str, max_bytes: usize, label: &str) -> (r: Result<
    String,
    FeedError,
>)
    ensures
        outcome(r) == limited_of(content@, max_bytes as nat, label@),
{
    let t = trim(content);
    if t.as_str().is_empty() {
        return Err(FeedError::Config(label.to_owned().concat(" content cannot be empty")));
    }
    let n: usize = byte_len(t.as_str());
    if n > max_bytes {
        let mut message = label.to_owned();
        message.append(" content is too large: ");
        message.append(decimal(n as u64).as_str());
        message.append(" bytes > ");
        message.append(decimal(max_bytes as u64).as_str());
        message.append(" bytes");
        return Err(FeedError::Config(message));
    }
    Ok(t.concat("\n"))
}

/// A login that is to be kept: the session, what the token file is to hold, and what is
/// told of it.
#[derive(Debug)]
pub struct StoredLogin {
    pub session: DbinternationalSavedSession,
    pub token_content: String,
    pub summary: DbinternationalLoginSummary,
}

/// A login that is to be kept, as contracts speak of it.
pub struct StoredFacts {
    pub session: SavedFacts,
    pub token_content: Seq<char>,
    pub summary: SummaryFacts,
}

impl View for StoredLogin {
    type V = StoredFacts;

    open spec fn view(&self) -> StoredFacts {
        StoredFacts {
            session: self.session@,
            token_content: self.token_content@,
            summary: self.summary@,
        }
    }
}

/// What is kept of a login.
pub open spec fn stored_of(
    kind: DbinternationalLoginKind,
    session: Result<SavedFacts, FeedFault>,
    token_file: Seq<char>,
    session_file: Option<Seq<char>>,
) -> Result<StoredFacts, FeedFault> {
    match session {
        Err(e) => Err(e),
        Ok(session) => match limited_of(
            session.access_token,
            MAX_TOKEN_BYTES as nat,
            "DBInternational token"@,
        ) {
            Err(e) => Err(e),
            Ok(token_content) => Ok(
                StoredFacts {
                    session,
                    token_content,
                    summary: SummaryFacts {
                        kind,
                        user_id: session.user_id,
                        token_file,
                        session_file,
                    },
                },
            ),
        },
    }
}

fn login_and_store(
    kind: DbinternationalLoginKind,
    url: &str,
    reply: &HttpReply,
    token_file: &str,
    session_file: &Option<String>,
    now_epoch_secs: u64,
) -> (r: Result<StoredLogin, FeedError>)
    ensures
        outcome(r) == stored_of(
            kind,
            replied_of(kind, url@, *reply, now_epoch_secs),
            token_file@,
            text_facts(*session_file),
        ),
{
    let session = match read_login(kind, url, reply, now_epoch_secs) {
        Ok(session) => session,
        Err(e) => return Err(e),
    };
    let token_content = match limited_content(
        session.access_token.as_str(),
        MAX_TOKEN_BYTES,
        "DBInternational token",
    ) {
        Ok(content) => content,
        Err(e) => return Err(e),
    };
    let summary = DbinternationalLoginSummary {
        kind,
        user_id: copy_text(&session.user_id),
        token_file: token_file.to_owned(),
        session_file: copy_text(session_file),
    };
    Ok(StoredLogin { session, token_content, summary })
}

/// What is kept of a login for market data that was replied to at a moment.
pub fn login_market_data(
    config: &DbinternationalBrokerSection,
    reply: &HttpReply,
    now_epoch_secs: u64,
) -> (r: Result<StoredLogin, FeedError>)
    ensures
        outcome(r) == stored_of(
            DbinternationalLoginKind::MarketData,
            replied_of(
                DbinternationalLoginKind::MarketData,
                url_of(config.market_data_base_url@, "/auth/login"@),
                *reply,
                now_epoch_secs,
            ),
            config.market_data_token_file@,
            text_facts(config.market_data_session_file),
        ),
{
    login_and_store(
        DbinternationalLoginKind::MarketData,
        config.market_data_login_url().as_str(),
        reply,
        config.market_data_token_file.as_str(),
        &config.market_data_session_file,
        now_epoch_secs,
    )
}

/// What is kept of a login for trading that was replied to at a moment.
pub fn login_interactive(
    config: &DbinternationalBrokerSection,
    reply: &HttpReply,
    now_epoch_secs: u64,
) -> (r: Result<StoredLogin, FeedError>)
    ensures
        outcome(r) == stored_of(
            DbinternationalLoginKind::Interactive,
            replied_of(
                DbinternationalLoginKind::Interactive,
                url_of(config.interactive_base_url@, "/user/session"@),
                *reply,
                now_epoch_secs,
            ),
            config.interactive_token_file@,
            text_facts(config.interactive_session_file),
        ),
{
    login_and_store(
        DbinternationalLoginKind::Interactive,
        config.interactive_login_url().as_str(),
        reply,
        config.interactive_token_file.as_str(),
        &config.interactive_session_file,
        now_epoch_secs,
    )
}

/// What is found wrong with a session that was read from a file.
pub open spec fn session_fault(
    path: Seq<char>,
    session: SavedFacts,
    kind: DbinternationalLoginKind,
) -> Option<FeedFault> {
    if session.login_kind != kind_text(kind) {
        Some(
            FeedFault::Config(
                path + " contains "@ + session.login_kind + " session, expected "@ + kind_text(kind),
            ),
        )
    } else if trim_of(session.access_token).len() == 0 {
        Some(FeedFault::Config(path + " missing access_token"@))
    } else if trim_of(session.base_url).len() == 0 {
        Some(FeedFault::Config(path + " missing base_url"@))
    } else {
        None
    }
}

/// A session that was read from a file, where nothing is wrong with it.
pub open spec fn read_of(
    path: Seq<char>,
    decoded: Result<SavedFacts, FeedFault>,
    kind: DbinternationalLoginKind,
) -> Result<SavedFacts, FeedFault> {
    match decoded {
        Err(e) => Err(e),
        Ok(session) => match session_fault(path, session, kind) {
            Some(e) => Err(e),
            None => Ok(session),
        },
    }
}

/// A session that was read from the file at a path, where nothing is wrong with it.
pub fn read_saved_session(
    path: &str,
    decoded: Result<DbinternationalSavedSession, FeedError>,
    expected_kind: DbinternationalLoginKind,
) -> (r: Result<DbinternationalSavedSession, FeedError>)
    ensures
        outcome(r) == read_of(path@, outcome(decoded), expected_kind),
{
    let session = match decoded {
        Ok(session) => session,
        Err(e) => return Err(e),
    };
    if !same(session.login_kind.as_str(), expected_kind.as_str()) {
        let mut message = path.to_owned();
        message.append(" contains ");
        message.append(session.login_kind.as_str());
        message.append(" session, expected ");
        message.append(expected_kind.as_str());
        return Err(FeedError::Config(message));
    }
    if trim(session.access_token.as_str()).as_str().is_empty() {
        return Err(FeedError::Config(path.to_owned().concat(" missing access_token")));
    }
    if trim(session.base_url.as_str()).as_str().is_empty() {
        return Err(FeedError::Config(path.to_owned().concat(" missing base_url")));
    }
    Ok(session)
}

/// The session for market data. `decoded` is what came of reading the configured file.
pub fn read_market_data_session(
    config: &DbinternationalBrokerSection,
    decoded: Result<DbinternationalSavedSession, FeedError>,
) -> (r: Result<DbinternationalSavedSession, FeedError>)
    ensures
        outcome(r) == match text_facts(config.market_data_session_file) {
            None => Err::<SavedFacts, FeedFault>(
                FeedFault::Config(
                    "DBInternational market_data_session_file is required for market-data APIs"@,
                ),
            ),
            Some(path) => read_of(path, outcome(decoded), DbinternationalLoginKind::MarketData),
        },
{
    match &config.market_data_session_file {
        None => Err(
            FeedError::Config(
                "DBInternational market_data_session_file is required for market-data APIs".to_owned(),
            ),
        ),
        Some(path) => read_saved_session(
            path.as_str(),
            decoded,
            DbinternationalLoginKind::MarketData,
        ),
    }
}

/// The session for trading. `decoded` is what came of reading the configured file.
pub fn read_interactive_session(
    config: &DbinternationalBrokerSection,
    decoded: Result<DbinternationalSavedSession, FeedError>,
) -> (r: Result<DbinternationalSavedSession, FeedError>)
    ensures
        outcome(r) == match text_facts(config.interactive_session_file) {
            None => Err::<SavedFacts, FeedFault>(
                FeedFault::Config(
                    "DBInternational interactive_session_file is required for interactive APIs"@,
                ),
            ),
            Some(path) => read_of(path, outcome(decoded), DbinternationalLoginKind::Interactive),
        },
{
    match &config.interactive_session_file {
        None => Err(
            FeedError::Config(
                "DBInternational interactive_session_file is required for interactive APIs".to_owned(),
            ),
        ),
        Some(path) => read_saved_session(
            path.as_str(),
            decoded,
            DbinternationalLoginKind::Interactive,
        ),
    }
}

/// The day in Indian Standard Time.
pub open spec fn ist_day_of(utc: u64) -> int {
    (if utc + 19_800 > u64::MAX {
        u64::MAX as int
    } else {
        utc + 19_800
    }) / 86_400
}

pub fn ist_day(epoch_utc: u64) -> (r: u64)
    ensures
        r == ist_day_of(epoch_utc),
{
    epoch_utc.saturating_add(19_800) / 86_400
}

pub fn same_ist_day(left_utc: u64, right_utc: u64) -> (r: bool)
    ensures
        r == (ist_day_of(left_utc) == ist_day_of(right_utc)),
{
    ist_day(left_utc) == ist_day(right_utc)
}

/// The part of a token that tells of its expiry.
pub open spec fn payload_of(token: Seq<char>) -> Option<JsonFacts> {
    let parts = split_of(token, '.');
    if parts.len() < 2 {
        None
    } else {
        match url_decoded(parts[1]) {
            Err(_) => None,
            Ok(bytes) => match parsed_bytes(bytes) {
                Ok(json) => Some(json),
                Err(_) => None,
            },
        }
    }
}

pub fn jwt_payload(token: &str) -> (r: Option<Json>)
    ensures
        match r {
            Some(json) => payload_of(token@) == Some(json@),
            None => payload_of(token@) is None,
        },
{
    let parts = split(token, '.');
    if parts.len() < 2 {
        return None;
    }
    match decode_url(parts[1].as_str()) {
        Err(_) => None,
        Ok(bytes) => match read_json_bytes(bytes.as_slice()) {
            Ok(json) => Some(json),
            Err(_) => None,
        },
    }
}

/// When a token expires, as its payload says.
pub open spec fn expiry_of(payload: Option<JsonFacts>) -> Option<u64> {
    match payload {
        None => None,
        Some(json) => match field_of(json, "exp"@) {
            None => None,
            Some(value) => unsigned_of(value),
        },
    }
}

/// When a token expires, as its payload says.
pub fn payload_expiry(payload: &Json) -> (r: Option<u64>)
    ensures
        r == expiry_of(Some(payload@)),
{
    match payload.field("exp") {
        None => None,
        Some(value) => value.as_u64(),
    }
}

pub fn jwt_exp_epoch(token: &str) -> (r: Option<u64>)
    ensures
        r == expiry_of(payload_of(token@)),
{
    match jwt_payload(token) {
        None => None,
        Some(payload) => payload_expiry(&payload),
    }
}

/// Whether a token that expires at some moment is still of use.
pub open spec fn outlasts(expiry: Option<u64>, now: u64) -> bool {
    expiry matches Some(at) && at > now + TOKEN_EXPIRY_GRACE_SECONDS
}

/// Whether a token that expires at some moment is still of use.
pub fn expires_later(expiry: Option<u64>, now_utc: u64) -> (r: bool)
    ensures
        r == outlasts(expiry, now_utc),
{
    match expiry {
        Some(at) => at > now_utc.saturating_add(TOKEN_EXPIRY_GRACE_SECONDS),
        None => false,
    }
}

pub fn token_valid_at(token: &str, now_utc: u64) -> (r: bool)
    ensures
        r == outlasts(expiry_of(payload_of(token@)), now_utc),
{
    expires_later(jwt_exp_epoch(token), now_utc)
}

/// A session that is still of use: one of this day whose token is valid. What is wrong
/// with a file makes that there is none; another fault stays one.
pub open spec fn current_of(
    read: Result<SavedFacts, FeedFault>,
    expiry: Option<u64>,
    now: u64,
) -> Result<Option<SavedFacts>, FeedFault> {
    match read {
        Err(FeedFault::Config(_)) => Ok(None),
        Err(FeedFault::Parse(_)) => Ok(None),
        Err(e) => Err(e),
        Ok(session) => if ist_day_of(session.logged_in_at) == ist_day_of(now) && outlasts(
            expiry,
            now,
        ) {
            Ok(Some(session))
        } else {
            Ok(None)
        },
    }
}

pub open spec fn session_option(r: Result<Option<DbinternationalSavedSession>, FeedError>) -> Result<
    Option<SavedFacts>,
    FeedFault,
> {
    match r {
        Ok(Some(session)) => Ok(Some(session@)),
        Ok(None) => Ok(None),
        Err(e) => Err(e@),
    }
}

/// A session that is still of use. `expiry` is when its token expires.
pub fn keep_current(
    read: Result<DbinternationalSavedSession, FeedError>,
    expiry: Option<u64>,
    now_utc: u64,
) -> (r: Result<Option<DbinternationalSavedSession>, FeedError>)
    ensures
        session_option(r) == current_of(outcome(read), expiry, now_utc),
{
    match read {
        Err(FeedError::Config(_)) => Ok(None),
        Err(FeedError::Parse(_)) => Ok(None),
        Err(e) => Err(e),
        Ok(session) => {
            if !same_ist_day(session.logged_in_at_epoch_secs, now_utc) {
                return Ok(None);
            }
            if !expires_later(expiry, now_utc) {
                return Ok(None);
            }
            Ok(Some(session))
        },
    }
}

/// When the token of a session expires.
pub open spec fn session_expiry(read: Result<SavedFacts, FeedFault>) -> Option<u64> {
    match read {
        Ok(session) => expiry_of(payload_of(session.access_token)),
        Err(_) => None,
    }
}

fn current_saved_session(
    path: &str,
    decoded: Result<DbinternationalSavedSession, FeedError>,
    expected_kind: DbinternationalLoginKind,
    now_utc: u64,
) -> (r: Result<Option<DbinternationalSavedSession>, FeedError>)
    ensures
        session_option(r) == current_of(
            read_of(path@, outcome(decoded), expected_kind),
            session_expiry(read_of(path@, outcome(decoded), expected_kind)),
            now_utc,
        ),
{
    let read = read_saved_session(path, decoded, expected_kind);
    let expiry = match &read {
        Ok(session) => jwt_exp_epoch(session.access_token.as_str()),
        Err(_) => None,
    };
    keep_current(read, expiry, now_utc)
}

/// The session for market data, where it is still of use. `decoded` is what came of
/// reading the configured file.
pub fn current_market_data_session(
    config: &DbinternationalBrokerSection,
    decoded: Result<DbinternationalSavedSession, FeedError>,
    now_utc: u64,
) -> (r: Result<Option<DbinternationalSavedSession>, FeedError>)
    ensures
        session_option(r) == match text_facts(config.market_data_session_file) {
            None => Ok::<Option<SavedFacts>, FeedFault>(None),
            Some(path) => {
                let read = read_of(path, outcome(decoded), DbinternationalLoginKind::MarketData);
                current_of(read, session_expiry(read), now_utc)
            },
        },
{
    match &config.market_data_session_file {
        None => Ok(None),
        Some(path) => current_saved_session(
            path.as_str(),
            decoded,
            DbinternationalLoginKind::MarketData,
            now_utc,
        ),
    }
}

/// The session for trading, where it is still of use. `decoded` is what came of reading
/// the configured file.
pub fn current_interactive_session(
    config: &DbinternationalBrokerSection,
    decoded: Result<DbinternationalSavedSession, FeedError>,
    now_utc: u64,
) -> (r: Result<Option<DbinternationalSavedSession>, FeedError>)
    ensures
        session_option(r) == match text_facts(config.interactive_session_file) {
            None => Ok::<Option<SavedFacts>, FeedFault>(None),
            Some(path) => {
                let read = read_of(path, outcome(decoded), DbinternationalLoginKind::Interactive);
                current_of(read, session_expiry(read), now_utc)
            },
        },
{
    match &config.interactive_session_file {
        None => Ok(None),
        Some(path) => current_saved_session(
            path.as_str(),
            decoded,
            DbinternationalLoginKind::Interactive,
            now_utc,
        ),
    }
}

/// What ends a value that stands after a pattern.
pub open spec fn closing_of(pattern: Seq<char>) -> Seq<char> {
    if holds(pattern, "\\\""@) {
        "\\\""@
    } else {
        "\""@
    }
}

/// A text in which what stands after a pattern, up to the mark that ends it, is replaced.
pub open spec fn redacted_of(s: Seq<char>, pattern: Seq<char>) -> Seq<char>
    decreases s.len(),
{
    let at = place_of(s, pattern);
    if at < 0 || pattern.len() == 0 || at + pattern.len() > s.len() {
        s
    } else {
        let rest = s.skip(at + pattern.len());
        let end = place_of(rest, closing_of(pattern));
        s.take(at) + pattern + "<redacted>"@ + if 0 <= end <= rest.len() {
            redacted_of(rest.skip(end), pattern)
        } else {
            Seq::empty()
        }
    }
}

/// What stands between a pattern and the mark that ends a value is not told: a text that
/// begins with `before`, the pattern, a secret and `after` comes out without the secret,
/// where the pattern stands for the first time after `before` and the mark for the first
/// time after the secret.
pub proof fn redaction_hides_secret(
    before: Seq<char>,
    pattern: Seq<char>,
    secret: Seq<char>,
    after: Seq<char>,
)
    requires
        pattern.len() > 0,
        place_of(before + pattern + secret + after, pattern) == before.len(),
        place_of(secret + after, closing_of(pattern)) == secret.len(),
    ensures
        redacted_of(before + pattern + secret + after, pattern) == before + pattern
            + "<redacted>"@ + redacted_of(after, pattern),
{
    let s = before + pattern + secret + after;
    let at = before.len() as int;
    let rest = s.skip(at + pattern.len());
    assert(rest =~= secret + after);
    assert(rest.skip(secret.len() as int) =~= after);
    assert(s.take(at) =~= before);
}

/// Replaces what stands after a pattern.
pub fn redact_after_pattern(value: &str, pattern: &str) -> (r: String)
    requires
        pattern@.len() > 0,
    ensures
        r@ == redacted_of(value@, pattern@),
{
    let p = chars_of(pattern);
    let closing = if contains(pattern, "\\\"") {
        chars_of("\\\"")
    } else {
        chars_of("\"")
    };
    let mut output: String = String::new();
    let mut rest = chars_of(value);
    assert(output@ + redacted_of(rest@, pattern@) =~= redacted_of(value@, pattern@));
    loop
        invariant
            p@ == pattern@,
            pattern@.len() > 0,
            closing@ == closing_of(pattern@),
            output@ + redacted_of(rest@, pattern@) == redacted_of(value@, pattern@),
        decreases rest@.len(),
    {
        let ghost done = output@;
        let total: usize = rest.len();
        match place(&rest, &p) {
            None => {
                output.append(sub_text(&rest, 0, total).as_str());
                assert(rest@.subrange(0, rest@.len() as int) =~= rest@);
                return output;
            },
            Some(at) => {
                output.append(sub_text(&rest, 0, at).as_str());
                output.append(pattern);
                output.append("<redacted>");
                assert(rest@.subrange(0, at as int) =~= rest@.take(at as int));
                let from: usize = at + p.len();
                let tail = chars_of(sub_text(&rest, from, total).as_str());
                assert(tail@ =~= rest@.skip(at + pattern@.len()));
                match place(&tail, &closing) {
                    None => {
                        assert(output@ =~= done + redacted_of(rest@, pattern@));
                        return output;
                    },
                    Some(end) => {
                        let next = chars_of(sub_text(&tail, end, tail.len()).as_str());
                        assert(next@ =~= tail@.skip(end as int));
                        assert(output@ + redacted_of(next@, pattern@) =~= done + redacted_of(
                            rest@,
                            pattern@,
                        ));
                        rest = next;
                    },
                }
            },
        }
    }
}

/// A text in which the values of a field are replaced, in the ways that answers give them.
pub open spec fn hidden_of(s: Seq<char>, field: Seq<char>) -> Seq<char> {
    redacted_of(
        redacted_of(
            redacted_of(s, "\""@ + field + "\":\""@),
            "\""@ + field + "\" with value \""@,
        ),
        "\\\""@ + field + "\\\" with value \\\""@,
    )
}

fn hide_field(value: &str, field: &str) -> (r: String)
    ensures
        r@ == hidden_of(value@, field@),
{
    let mut plain = "\"".to_owned();
    plain.append(field);
    plain.append("\":\"");
    let mut told = "\"".to_owned();
    told.append(field);
    told.append("\" with value \"");
    let mut escaped = "\\\"".to_owned();
    escaped.append(field);
    escaped.append("\\\" with value \\\"");
    proof {
        reveal_strlit("\"");
        reveal_strlit("\\\"");
    }
    let a = redact_after_pattern(value, plain.as_str());
    let b = redact_after_pattern(a.as_str(), told.as_str());
    redact_after_pattern(b.as_str(), escaped.as_str())
}

/// The beginning of an answer, without the secrets that were sent.
pub open spec fn sanitized_of(s: Seq<char>) -> Seq<char> {
    brief_of(
        hidden_of(
            hidden_of(
                hidden_of(hidden_of(hidden_of(s, "secretKey"@), "appKey"@), "accessToken"@),
                "uniqueKey"@,
            ),
            "token"@,
        ),
        500,
    )
}

/// The beginning of an answer, without the secrets that were sent.
pub fn sanitized_error_snippet(value: &str) -> (r: String)
    ensures
        r@ == sanitized_of(value@),
{
    let a = hide_field(value, "secretKey");
    let b = hide_field(a.as_str(), "appKey");
    let c = hide_field(b.as_str(), "accessToken");
    let d = hide_field(c.as_str(), "uniqueKey");
    let e = hide_field(d.as_str(), "token");
    brief(e.as_str(), 500)
}

/// A session is used on the day that it was made, as the day is counted in India, five and a half
/// hours ahead, and only while its token lasts for more than a minute still.
pub proof fn sessions_last_their_day(session: SavedFacts, expiry: Option<u64>, now: u64)
    requires
        now + 19_800 <= u64::MAX,
        session.logged_in_at + 19_800 <= u64::MAX,
    ensures
        ({
            let r = current_of(Ok(session), expiry, now);
            let kept = r is Ok && r->Ok_0 == Some(session);
            &&& r is Ok
            &&& !kept ==> r->Ok_0 is None
            &&& kept ==> expiry is Some && expiry->0 > now + 60
            &&& kept ==> now < session.logged_in_at + 86_400 && session.logged_in_at < now + 86_400
            &&& session.logged_in_at == now && expiry is Some && expiry->0 > now + 60 ==> kept
            &&& forall|day: int|
                {
                    &&& #[trigger] (86_400 * day) <= now + 19_800 < 86_400 * day + 86_400
                    &&& 86_400 * day <= session.logged_in_at + 19_800 < 86_400 * day + 86_400
                    &&& expiry is Some
                    &&& expiry->0 > now + 60
                } ==> kept
        }),
{
    let a = session.logged_in_at + 19_800;
    let b = now + 19_800;
    let (m, n) = (a / 86_400, b / 86_400);
    assert(86_400 * m <= a < 86_400 * m + 86_400);
    assert(86_400 * n <= b < 86_400 * n + 86_400);
    assert forall|day: int|
        86_400 * day <= a < 86_400 * day + 86_400 && #[trigger] (86_400 * day) <= b < 86_400 * day
            + 86_400 implies m == n by {
        assert(day == m && day == n) by (nonlinear_arith)
            requires
                86_400 * day <= a < 86_400 * day + 86_400,
                86_400 * day <= b < 86_400 * day + 86_400,
                86_400 * m <= a < 86_400 * m + 86_400,
                86_400 * n <= b < 86_400 * n + 86_400,
        ;
    }
}

/// A session of one kind is not read as one of the other, nor is one without a token or an
/// address.
pub proof fn read_sessions_are_of_their_kind(
    path: Seq<char>,
    session: SavedFacts,
    kind: DbinternationalLoginKind,
)
    ensures
        read_of(path, Ok(session), kind) is Ok <==> {
            &&& session.login_kind == kind_text(kind)
            &&& trim_of(session.access_token).len() > 0
            &&& trim_of(session.base_url).len() > 0
        },
        read_of(path, Ok(session), kind) is Ok ==> read_of(path, Ok(session), kind)->Ok_0 == session,
        kind_text(DbinternationalLoginKind::MarketData) != kind_text(
            DbinternationalLoginKind::Interactive,
        ),
{
    reveal_strlit("market_data");
    reveal_strlit("interactive");
    assert("market_data"@[0] != "interactive"@[0]);
}

/// A login succeeds where the answer says so and has a token, and it keeps that token, who it is
/// for, and when it came.
pub proof fn login_keeps_its_token(
    kind: DbinternationalLoginKind,
    url: Seq<char>,
    response: JsonFacts,
    now: u64,
    result: JsonFacts,
    token: Seq<char>,
)
    requires
        response.shape is Object,
        field_of(response, "type"@) is Some,
        field_of(response, "result"@) == Some(result),
        text_under(result, "token"@) == Some(token),
        text_under(response, "token"@) is None,
        text_under(response, "accessToken"@) is None,
        text_under(response, "access_token"@) is None,
        text_under(response, "Token"@) is None,
    ensures
        login_of(kind, response) is Ok <==> string_of(field_of(response, "type"@)->0) == Some(
            "success"@,
        ) && trim_of(token).len() > 0,
        session_of(kind, url, response, now) matches Ok(session) ==> {
            &&& session.access_token == trim_of(token)
            &&& session.logged_in_at == now
            &&& session.login_kind == kind_text(kind)
            &&& session.auth_url == url
            &&& session.base_url.len() > 0
        },
{
    reveal_with_fuel(first_text, 5);
    let keys = token_keys();
    assert(keys[0] == "token"@);
    assert(keys.drop_first()[0] == "accessToken"@);
    assert(keys.drop_first().drop_first()[0] == "access_token"@);
    assert(keys.drop_first().drop_first().drop_first()[0] == "Token"@);
    assert(keys.drop_first().drop_first().drop_first().drop_first().len() == 0);
}

/// A secret of the environment comes before one of a file, and a blank of either is as if it were
/// missing.
pub proof fn environment_comes_before_files(
    env_value: Option<Seq<char>>,
    file_path: Option<Seq<char>>,
    file: FileRead,
)
    ensures
        ({
            let blank = env_value is None || trim_of(env_value->0).len() == 0;
            let r = secret_of(env_value, file_path, file);
            &&& !blank ==> r == Ok::<Option<Seq<char>>, FeedFault>(Some(trim_of(env_value->0)))
            &&& blank && file_path is None ==> r == Ok::<Option<Seq<char>>, FeedFault>(None)
            &&& blank && file_path is Some && file is Content ==> r == Ok::<
                Option<Seq<char>>,
                FeedFault,
            >(
                if trim_of(file->Content_0@).len() > 0 {
                    Some(trim_of(file->Content_0@))
                } else {
                    None
                },
            )
            &&& blank && file_path is Some && file is Failed ==> r is Err
            &&& r is Ok && r->Ok_0 is Some ==> r->Ok_0->0.len() > 0
        }),
{
}

/// What is kept is what was given but for the blanks round it, and only where there is any of it
/// and not too much.
pub proof fn kept_contents_are_whole(content: Seq<char>, max_bytes: nat, label: Seq<char>)
    ensures
        limited_of(content, max_bytes, label) is Ok <==> trim_of(content).len() > 0 && encode_utf8(
            trim_of(content),
        ).len() <= max_bytes,
        limited_of(content, max_bytes, label) is Ok ==> limited_of(content, max_bytes, label)->Ok_0
            == trim_of(content) + "\n"@,
{
}

} // verus!
