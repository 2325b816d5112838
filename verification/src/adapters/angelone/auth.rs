//! Logging in at AngelOne.
use crate::adapters::HttpReply;
use crate::binary64::text_facts;
use crate::bytes::{big, little_is_to_the_base_of_256, to_bytes_be};
use crate::config::{missing_env, AngeloneBrokerSection};
use crate::encodings::{
    base32_padded, base32_unpadded, decode_base32_padded, decode_base32_unpadded,
};
use crate::feeder::error::{outcome, FeedError, FeedFault};
use crate::json::{field_of, parsed_text, read_json, string_of, Json, JsonFacts, Shape, ShapeFacts};
use crate::text::{
    byte_len, char_to_upper, chars_of, contains, decimal, decimal_of, holds, is_space, lower,
    lower_of, padded, padded_of, padding_fills, same_ignoring_case, snippet, snippet_of, space_char, split,
    split_of, split_once, split_once_of, starts, starts_with, ten_to, trim, trim_of, upper_char, views,
};
use vstd::prelude::*;
use vstd::utf8::encode_utf8;

verus! {

/// How large a session file may be, in bytes.
pub const MAX_SESSION_BYTES: usize = 2_097_152;

/// How long a code is valid.
pub const TOTP_STEP_SECONDS: u64 = 30;

/// How many codes there are.
pub const TOTP_MODULUS: u32 = 1_000_000;

/// What came of a login.
#[derive(Debug, PartialEq, Eq)]
pub struct AngeloneLoginSummary {
    pub client_code: String,
    pub session_file: String,
}

/// A session as it is kept.
#[derive(Debug)]
pub struct AngeloneSavedSession {
    pub jwt_token: String,
    pub refresh_token: String,
    pub feed_token: String,
    pub client_code: String,
    pub api_key: String,
    pub login_url: String,
    pub created_at_utc: u64,
    pub response: Json,
}

/// A session as contracts speak of it.
pub struct SavedFacts {
    pub jwt_token: Seq<char>,
    pub refresh_token: Seq<char>,
    pub feed_token: Seq<char>,
    pub client_code: Seq<char>,
    pub api_key: Seq<char>,
    pub login_url: Seq<char>,
    pub created_at_utc: u64,
    pub response: JsonFacts,
}

impl View for AngeloneSavedSession {
    type V = SavedFacts;

    open spec fn view(&self) -> SavedFacts {
        SavedFacts {
            jwt_token: self.jwt_token@,
            refresh_token: self.refresh_token@,
            feed_token: self.feed_token@,
            client_code: self.client_code@,
            api_key: self.api_key@,
            login_url: self.login_url@,
            created_at_utc: self.created_at_utc,
            response: self.response@,
        }
    }
}

/// What is sent to log in.
#[derive(Debug)]
pub struct LoginRequest {
    pub api_key: String,
    pub client_code: String,
    pub password: String,
    pub totp: String,
    pub state: String,
}

/// What is sent to log in, as contracts speak of it.
pub struct RequestFacts {
    pub api_key: Seq<char>,
    pub client_code: Seq<char>,
    pub password: Seq<char>,
    pub totp: Seq<char>,
    pub state: Seq<char>,
}

impl View for LoginRequest {
    type V = RequestFacts;

    open spec fn view(&self) -> RequestFacts {
        RequestFacts {
            api_key: self.api_key@,
            client_code: self.client_code@,
            password: self.password@,
            totp: self.totp@,
            state: self.state@,
        }
    }
}

/// The values of the configured variables, where they are set.
#[derive(Debug)]
pub struct LoginEnv {
    pub api_key: Option<String>,
    pub client_code: Option<String>,
    pub password: Option<String>,
    pub totp_code: Option<String>,
    pub totp_secret: Option<String>,
}

/// A text that says something, without the blanks around it.
pub open spec fn said(value: Option<Seq<char>>) -> Option<Seq<char>> {
    match value {
        Some(v) => if trim_of(v).len() > 0 {
            Some(trim_of(v))
        } else {
            None
        },
        None => None,
    }
}

fn said_text(value: &Option<String>) -> (r: Option<String>)
    ensures
        text_facts(r) == said(text_facts(*value)),
{
    match value {
        Some(v) => {
            let t = trim(v.as_str());
            if t.as_str().is_empty() {
                None
            } else {
                Some(t)
            }
        },
        None => None,
    }
}

/// The code that is logged in with: one that was handed in, one that is configured, or one
/// made of a configured secret.
pub open spec fn code_of(
    handed: Option<Seq<char>>,
    code: Option<Seq<char>>,
    secret: Option<Seq<char>>,
    now: u64,
) -> Result<Seq<char>, FeedFault> {
    match said(handed) {
        Some(t) => Ok(t),
        None => match said(code) {
            Some(t) => Ok(t),
            None => match said(secret) {
                Some(s) => totp_of(s, now),
                None => Err(
                    FeedFault::Config(
                        "AngelOne login requires a current TOTP code via admin body/configured env or a configured TOTP secret"@,
                    ),
                ),
            },
        },
    }
}

fn login_code(
    handed: &Option<String>,
    code: &Option<String>,
    secret: &Option<String>,
    now_utc: u64,
) -> (r: Result<String, FeedError>)
    ensures
        outcome(r) == code_of(text_facts(*handed), text_facts(*code), text_facts(*secret), now_utc),
{
    match said_text(handed) {
        Some(t) => Ok(t),
        None => match said_text(code) {
            Some(t) => Ok(t),
            None => match said_text(secret) {
                Some(s) => generate_totp(s.as_str(), now_utc),
                None => Err(
                    FeedError::Config(
                        "AngelOne login requires a current TOTP code via admin body/configured env or a configured TOTP secret".to_owned(),
                    ),
                ),
            },
        },
    }
}

/// A variable that has to be set.
pub open spec fn env_of(name: Seq<char>, value: Option<Seq<char>>) -> Result<
    Seq<char>,
    FeedFault,
> {
    match value {
        Some(v) => Ok(v),
        None => Err(FeedFault::Config("missing environment variable "@ + name)),
    }
}

fn required_env(name: &str, value: &Option<String>) -> (r: Result<String, FeedError>)
    ensures
        outcome(r) == env_of(name@, text_facts(*value)),
{
    match value {
        Some(v) => Ok(v.clone()),
        None => Err(missing_env(name)),
    }
}

/// What is sent to log in.
pub open spec fn request_of(
    config: AngeloneBrokerSection,
    env: LoginEnv,
    handed: Option<Seq<char>>,
    now: u64,
) -> Result<RequestFacts, FeedFault> {
    match env_of(config.api_key_env@, text_facts(env.api_key)) {
        Err(e) => Err(e),
        Ok(api_key) => match env_of(config.client_code_env@, text_facts(env.client_code)) {
            Err(e) => Err(e),
            Ok(client_code) => match env_of(config.password_env@, text_facts(env.password)) {
                Err(e) => Err(e),
                Ok(password) => match code_of(
                    handed,
                    text_facts(env.totp_code),
                    text_facts(env.totp_secret),
                    now,
                ) {
                    Err(e) => Err(e),
                    Ok(totp) => Ok(
                        RequestFacts { api_key, client_code, password, totp, state: config.state@ },
                    ),
                },
            },
        },
    }
}

/// What is sent to log in at a moment. `totp_override` is a code that was handed in.
pub fn login_request(
    config: &AngeloneBrokerSection,
    env: &LoginEnv,
    totp_override: &Option<String>,
    now_utc: u64,
) -> (r: Result<LoginRequest, FeedError>)
    ensures
        outcome(r) == request_of(*config, *env, text_facts(*totp_override), now_utc),
{
    let api_key = match required_env(config.api_key_env.as_str(), &env.api_key) {
        Ok(value) => value,
        Err(e) => return Err(e),
    };
    let client_code = match required_env(config.client_code_env.as_str(), &env.client_code) {
        Ok(value) => value,
        Err(e) => return Err(e),
    };
    let password = match required_env(config.password_env.as_str(), &env.password) {
        Ok(value) => value,
        Err(e) => return Err(e),
    };
    let totp = match login_code(totp_override, &env.totp_code, &env.totp_secret, now_utc) {
        Ok(value) => value,
        Err(e) => return Err(e),
    };
    Ok(LoginRequest { api_key, client_code, password, totp, state: config.state.clone() })
}

/// A text in an answer that has to be there.
pub open spec fn required_of(json: JsonFacts, key: Seq<char>) -> Result<Seq<char>, FeedFault> {
    match field_of(json, key) {
        Some(value) => match string_of(value) {
            Some(t) => if trim_of(t).len() > 0 {
                Ok(t)
            } else {
                Err(FeedFault::Parse("AngelOne login missing "@ + key))
            },
            None => Err(FeedFault::Parse("AngelOne login missing "@ + key)),
        },
        None => Err(FeedFault::Parse("AngelOne login missing "@ + key)),
    }
}

fn required_string(json: &Json, key: &str) -> (r: Result<String, FeedError>)
    ensures
        outcome(r) == required_of(json@, key@),
{
    if let Some(value) = json.field(key) {
        if let Some(t) = value.as_str() {
            if !trim(t).as_str().is_empty() {
                return Ok(t.to_owned());
            }
        }
    }
    Err(FeedError::Parse("AngelOne login missing ".to_owned().concat(key)))
}

/// Whether an answer tells of success.
pub open spec fn tells_success(json: JsonFacts) -> bool {
    field_of(json, "status"@) matches Some(status) && status.shape == ShapeFacts::Bool(true)
}

/// The session that the answer to a login gives.
pub open spec fn login_of(
    json: JsonFacts,
    client_code: Seq<char>,
    api_key: Seq<char>,
    login_url: Seq<char>,
    now: u64,
) -> Result<SavedFacts, FeedFault> {
    if !tells_success(json) {
        Err(
            FeedFault::Http(
                "AngelOne login returned non-success response: "@ + snippet_of(json.text, 300),
            ),
        )
    } else {
        match field_of(json, "data"@) {
            None => Err(FeedFault::Parse("AngelOne login missing data"@)),
            Some(data) => match required_of(data, "jwtToken"@) {
                Err(e) => Err(e),
                Ok(jwt_token) => match required_of(data, "refreshToken"@) {
                    Err(e) => Err(e),
                    Ok(refresh_token) => match required_of(data, "feedToken"@) {
                        Err(e) => Err(e),
                        Ok(feed_token) => Ok(
                            SavedFacts {
                                jwt_token,
                                refresh_token,
                                feed_token,
                                client_code,
                                api_key,
                                login_url,
                                created_at_utc: now,
                                response: json,
                            },
                        ),
                    },
                },
            },
        }
    }
}

/// The session that the answer to a login gives.
pub fn parse_login_response(
    response: Json,
    client_code: String,
    api_key: String,
    login_url: String,
    created_at_utc: u64,
) -> (r: Result<AngeloneSavedSession, FeedError>)
    ensures
        outcome(r) == login_of(
            response@,
            client_code@,
            api_key@,
            login_url@,
            created_at_utc,
        ),
{
    let success = match response.field("status") {
        Some(status) => match &status.shape {
            Shape::Bool(b) => *b,
            _ => false,
        },
        None => false,
    };
    if !success {
        return Err(
            FeedError::Http(
                "AngelOne login returned non-success response: ".to_owned().concat(
                    snippet(response.text.as_str(), 300).as_str(),
                ),
            ),
        );
    }
    let data = match response.field("data") {
        Some(data) => data,
        None => return Err(FeedError::Parse("AngelOne login missing data".to_owned())),
    };
    let jwt_token = match required_string(data, "jwtToken") {
        Ok(t) => t,
        Err(e) => return Err(e),
    };
    let refresh_token = match required_string(data, "refreshToken") {
        Ok(t) => t,
        Err(e) => return Err(e),
    };
    let feed_token = match required_string(data, "feedToken") {
        Ok(t) => t,
        Err(e) => return Err(e),
    };
    Ok(
        AngeloneSavedSession {
            jwt_token,
            refresh_token,
            feed_token,
            client_code,
            api_key,
            login_url,
            created_at_utc,
            response,
        },
    )
}

/// The session that a reply to a login gives.
pub open spec fn replied_of(
    request: RequestFacts,
    login_url: Seq<char>,
    reply: HttpReply,
    now: u64,
) -> Result<SavedFacts, FeedFault> {
    if !reply.success {
        Err(
            FeedFault::Http(
                "AngelOne login failed status="@ + decimal_of(reply.status as nat) + " body="@
                    + snippet_of(reply.body@, 300),
            ),
        )
    } else {
        match parsed_text(reply.body@) {
            Err(e) => Err(FeedFault::Parse(e)),
            Ok(json) => login_of(json, request.client_code, request.api_key, login_url, now),
        }
    }
}

/// The session that a reply to a login gives, and what is told of it.
pub fn login(
    config: &AngeloneBrokerSection,
    request: &LoginRequest,
    reply: &HttpReply,
    now_utc: u64,
) -> (r: Result<(AngeloneSavedSession, AngeloneLoginSummary), FeedError>)
    ensures
        match replied_of(request@, config.login_url@, *reply, now_utc) {
            Err(fault) => r matches Err(e) && e@ == fault,
            Ok(session) => r matches Ok((s, summary)) && s@ == session && summary.client_code@
                == request@.client_code && summary.session_file@ == config.session_file@,
        },
{
    if !reply.success {
        let mut message = "AngelOne login failed status=".to_owned();
        message.append(decimal(reply.status as u64).as_str());
        message.append(" body=");
        message.append(snippet(reply.body.as_str(), 300).as_str());
        return Err(FeedError::Http(message));
    }
    let json = match read_json(reply.body.as_str()) {
        Ok(json) => json,
        Err(e) => return Err(FeedError::Parse(e)),
    };
    match parse_login_response(
        json,
        request.client_code.clone(),
        request.api_key.clone(),
        config.login_url.clone(),
        now_utc,
    ) {
        Ok(session) => Ok(
            (
                session,
                AngeloneLoginSummary {
                    client_code: request.client_code.clone(),
                    session_file: config.session_file.clone(),
                },
            ),
        ),
        Err(e) => Err(e),
    }
}

/// Refuses to write a session file that is too large.
pub fn check_session_size(content: &str) -> (r: Option<FeedError>)
    ensures
        match r {
            Some(e) => encode_utf8(content@).len() > MAX_SESSION_BYTES && e@ == FeedFault::Config(
                "AngelOne session file exceeds size limit"@,
            ),
            None => encode_utf8(content@).len() <= MAX_SESSION_BYTES,
        },
{
    if byte_len(content) > MAX_SESSION_BYTES {
        Some(FeedError::Config("AngelOne session file exceeds size limit".to_owned()))
    } else {
        None
    }
}

/// Refuses to read a session file that is too large.
pub fn check_session_file_size(path: &str, content: &str) -> (r: Option<FeedError>)
    ensures
        match r {
            Some(e) => encode_utf8(content@).len() > MAX_SESSION_BYTES && e@ == FeedFault::Config(
                path@ + " exceeds size limit"@,
            ),
            None => encode_utf8(content@).len() <= MAX_SESSION_BYTES,
        },
{
    if byte_len(content) > MAX_SESSION_BYTES {
        Some(FeedError::Config(path.to_owned().concat(" exceeds size limit")))
    } else {
        None
    }
}

/// What is wrong with a session that was read from a file.
pub open spec fn session_fault(path: Seq<char>, session: SavedFacts) -> Option<FeedFault> {
    if trim_of(session.jwt_token).len() == 0 {
        Some(FeedFault::Config(path + " missing jwt_token"@))
    } else if trim_of(session.feed_token).len() == 0 {
        Some(FeedFault::Config(path + " missing feed_token"@))
    } else if trim_of(session.client_code).len() == 0 {
        Some(FeedFault::Config(path + " missing client_code"@))
    } else if trim_of(session.api_key).len() == 0 {
        Some(FeedFault::Config(path + " missing api_key"@))
    } else {
        None
    }
}

pub fn validate_session(path: &str, session: &AngeloneSavedSession) -> (r: Option<FeedError>)
    ensures
        match r {
            Some(e) => session_fault(path@, session@) == Some(e@),
            None => session_fault(path@, session@) is None,
        },
{
    if trim(session.jwt_token.as_str()).as_str().is_empty() {
        return Some(FeedError::Config(path.to_owned().concat(" missing jwt_token")));
    }
    if trim(session.feed_token.as_str()).as_str().is_empty() {
        return Some(FeedError::Config(path.to_owned().concat(" missing feed_token")));
    }
    if trim(session.client_code.as_str()).as_str().is_empty() {
        return Some(FeedError::Config(path.to_owned().concat(" missing client_code")));
    }
    if trim(session.api_key.as_str()).as_str().is_empty() {
        return Some(FeedError::Config(path.to_owned().concat(" missing api_key")));
    }
    None
}

/// A session that was read from a file, where nothing is wrong with it.
pub open spec fn read_of(path: Seq<char>, decoded: Result<SavedFacts, FeedFault>) -> Result<
    SavedFacts,
    FeedFault,
> {
    match decoded {
        Err(e) => Err(e),
        Ok(session) => match session_fault(path, session) {
            Some(e) => Err(e),
            None => Ok(session),
        },
    }
}

/// The session of the configured file, where nothing is wrong with it. `decoded` is what
/// came of reading the file.
pub fn read_session(
    config: &AngeloneBrokerSection,
    decoded: Result<AngeloneSavedSession, FeedError>,
) -> (r: Result<AngeloneSavedSession, FeedError>)
    ensures
        outcome(r) == read_of(config.session_file@, outcome(decoded)),
{
    match decoded {
        Err(e) => Err(e),
        Ok(session) => match validate_session(config.session_file.as_str(), &session) {
            Some(e) => Err(e),
            None => Ok(session),
        },
    }
}

/// The day in Indian Standard Time.
pub open spec fn ist_day_of(utc: u64) -> int {
    (utc + 19_800) / 86_400
}

/// Whether two moments are of the same day in Indian Standard Time.
pub fn on_same_day(a: u64, b: u64) -> (r: bool)
    ensures
        r == (ist_day_of(a) == ist_day_of(b)),
{
    (a as u128 + 19_800) / 86_400 == (b as u128 + 19_800) / 86_400
}

pub fn session_current_today(session: &AngeloneSavedSession, now_utc: u64) -> (r: bool)
    ensures
        r == (ist_day_of(session.created_at_utc) == ist_day_of(now_utc)),
{
    on_same_day(session.created_at_utc, now_utc)
}

/// A session that is still of use: one of this day. That there is no file makes that there
/// is none.
pub open spec fn current_of(read: Result<SavedFacts, FeedFault>, now: u64) -> Result<
    Option<SavedFacts>,
    FeedFault,
> {
    match read {
        Err(FeedFault::Io(message)) => if holds(message, "No such file"@) {
            Ok(None)
        } else {
            Err(FeedFault::Io(message))
        },
        Err(e) => Err(e),
        Ok(session) => if ist_day_of(session.created_at_utc) == ist_day_of(now) {
            Ok(Some(session))
        } else {
            Ok(None)
        },
    }
}

/// The session of the configured file, where it is still of use. `decoded` is what came of
/// reading the file.
pub fn current_session(
    config: &AngeloneBrokerSection,
    decoded: Result<AngeloneSavedSession, FeedError>,
    now_utc: u64,
) -> (r: Result<Option<AngeloneSavedSession>, FeedError>)
    ensures
        match current_of(read_of(config.session_file@, outcome(decoded)), now_utc) {
            Err(fault) => r matches Err(e) && e@ == fault,
            Ok(None) => r matches Ok(None),
            Ok(Some(session)) => r matches Ok(Some(s)) && s@ == session,
        },
{
    match read_session(config, decoded) {
        Err(FeedError::Io(message)) => {
            if contains(message.as_str(), "No such file") {
                Ok(None)
            } else {
                Err(FeedError::Io(message))
            }
        },
        Err(e) => Err(e),
        Ok(session) => {
            if session_current_today(&session, now_utc) {
                Ok(Some(session))
            } else {
                Ok(None)
            }
        },
    }
}

/// The number that a hexadecimal digit stands for.
pub open spec fn hex_of(byte: u8) -> Option<u8> {
    if 48 <= byte <= 57 {
        Some((byte - 48) as u8)
    } else if 97 <= byte <= 102 {
        Some((byte - 87) as u8)
    } else if 65 <= byte <= 70 {
        Some((byte - 55) as u8)
    } else {
        None
    }
}

pub fn hex_value(byte: u8) -> (r: Option<u8>)
    ensures
        r == hex_of(byte),
{
    if 48 <= byte && byte <= 57 {
        Some(byte - 48)
    } else if 97 <= byte && byte <= 102 {
        Some(byte - 87)
    } else if 65 <= byte && byte <= 70 {
        Some(byte - 55)
    } else {
        None
    }
}

/// Bytes in which a percent sign with two hexadecimal digits stands for a character, and a
/// plus sign for a blank.
pub open spec fn unescaped_of(bytes: Seq<u8>) -> Seq<char>
    decreases bytes.len(),
{
    if bytes.len() == 0 {
        Seq::empty()
    } else if bytes[0] == 37 {
        if bytes.len() < 3 {
            Seq::new(bytes.len(), |i: int| bytes[i] as char)
        } else {
            let (high, low) = (hex_of(bytes[1]), hex_of(bytes[2]));
            (if high is Some && low is Some {
                seq![(16 * high->0 + low->0) as char]
            } else {
                seq!['%', bytes[1] as char, bytes[2] as char]
            }) + unescaped_of(bytes.skip(3))
        }
    } else {
        seq![
            if bytes[0] == 43 {
                ' '
            } else {
                bytes[0] as char
            },
        ] + unescaped_of(bytes.skip(1))
    }
}

pub fn percent_decode(value: &str) -> (r: String)
    ensures
        r@ == unescaped_of(encode_utf8(value@)),
{
    let bytes = value.as_bytes();
    let ghost all = bytes@;
    let n: usize = bytes.len();
    let mut out: String = String::new();
    let mut i: usize = 0;
    assert(all.skip(0) =~= all);
    assert(out@ + unescaped_of(all) =~= unescaped_of(all));
    while i < n
        invariant
            i <= n == all.len(),
            all == bytes@,
            all == encode_utf8(value@),
            out@ + unescaped_of(all.skip(i as int)) == unescaped_of(all),
        decreases n - i,
    {
        let ghost done = out@;
        let ghost rest = all.skip(i as int);
        let byte: u8 = bytes[i];
        assert(rest[0] == byte);
        if byte == 37 {
            if n - i < 3 {
                out.push('%');
                if n - i == 2 {
                    out.push(bytes[i + 1] as char);
                    assert(rest[1] == bytes@[i + 1]);
                }
                assert(out@ =~= done + unescaped_of(rest));
                return out;
            }
            let a: u8 = bytes[i + 1];
            let b: u8 = bytes[i + 2];
            assert(rest[1] == a && rest[2] == b);
            let (high, low) = (hex_value(a), hex_value(b));
            if high.is_some() && low.is_some() {
                let code: u8 = 16 * high.unwrap() + low.unwrap();
                out.push(code as char);
            } else {
                out.push('%');
                out.push(a as char);
                out.push(b as char);
            }
            i += 3;
            assert(rest.skip(3) =~= all.skip(i as int));
        } else {
            if byte == 43 {
                out.push(' ');
            } else {
                out.push(byte as char);
            }
            i += 1;
            assert(rest.skip(1) =~= all.skip(i as int));
        }
        assert(out@ + unescaped_of(all.skip(i as int)) =~= done + unescaped_of(rest));
    }
    assert(all.skip(i as int) =~= Seq::empty());
    assert(out@ + Seq::<char>::empty() =~= out@);
    out
}

/// The value of the first part that names a secret.
pub open spec fn secret_among(parts: Seq<Seq<char>>) -> Option<Seq<char>>
    decreases parts.len(),
{
    if parts.len() == 0 {
        None
    } else {
        match split_once_of(parts[0], '=') {
            Some((key, value)) => if lower_of(key) == lower_of("secret"@) {
                Some(unescaped_of(encode_utf8(value)))
            } else {
                secret_among(parts.drop_first())
            },
            None => secret_among(parts.drop_first()),
        }
    }
}

/// The secret in a text that is one or an address that holds one.
pub open spec fn secret_of(value: Seq<char>) -> Seq<char> {
    let t = trim_of(value);
    if !starts(lower_of(t), "otpauth://"@) {
        t
    } else {
        match split_once_of(t, '?') {
            None => t,
            Some((_, query)) => match secret_among(split_of(query, '&')) {
                Some(secret) => secret,
                None => t,
            },
        }
    }
}

pub fn extract_totp_secret(secret_value: &str) -> (r: String)
    ensures
        r@ == secret_of(secret_value@),
{
    let t = trim(secret_value);
    if !starts_with(lower(t.as_str()).as_str(), "otpauth://") {
        return t;
    }
    let query = match split_once(t.as_str(), '?') {
        None => return t,
        Some((_, query)) => query,
    };
    let parts = split(query.as_str(), '&');
    let ghost all = views(parts@);
    let mut i: usize = 0;
    assert(all.skip(0) =~= all);
    while i < parts.len()
        invariant
            i <= parts@.len(),
            all == views(parts@),
            t@ == trim_of(secret_value@),
            starts(lower_of(t@), "otpauth://"@),
            split_once_of(t@, '?') is Some,
            all == split_of((split_once_of(t@, '?')->0).1, '&'),
            secret_among(all) == secret_among(all.skip(i as int)),
        decreases parts@.len() - i,
    {
        assert(all.skip(i as int).drop_first() =~= all.skip(i + 1));
        assert(all.skip(i as int)[0] == parts@[i as int]@);
        if let Some((key, value)) = split_once(parts[i].as_str(), '=') {
            if same_ignoring_case(key.as_str(), "secret") {
                return percent_decode(value.as_str());
            }
        }
        i += 1;
    }
    t
}

/// A secret without blanks and dashes, in capital letters.
pub open spec fn plain_secret(s: Seq<char>) -> Seq<char>
    decreases s.len(),
{
    if s.len() == 0 {
        Seq::empty()
    } else if is_space(s.last()) || s.last() == '-' {
        plain_secret(s.drop_last())
    } else {
        plain_secret(s.drop_last()).push(upper_char(s.last()))
    }
}

fn normalize_secret(secret: &str) -> (r: String)
    ensures
        r@ == plain_secret(secret@),
{
    let v = chars_of(secret);
    let mut out: String = String::new();
    let mut i: usize = 0;
    assert(v@.take(0) =~= Seq::empty());
    assert(out@ =~= Seq::empty());
    while i < v.len()
        invariant
            i <= v@.len(),
            out@ == plain_secret(v@.take(i as int)),
        decreases v@.len() - i,
    {
        assert(v@.take(i + 1).drop_last() =~= v@.take(i as int));
        if !space_char(v[i]) && v[i] != '-' {
            out.push(char_to_upper(v[i]));
        }
        i += 1;
    }
    assert(v@.take(i as int) =~= v@);
    out
}

/// The bytes of a secret.
pub open spec fn secret_bytes(value: Seq<char>) -> Result<Seq<u8>, FeedFault> {
    let secret = secret_of(value);
    let plain = plain_secret(secret);
    if secret.len() == 0 {
        Err(FeedFault::Config("invalid AngelOne TOTP secret: empty secret"@))
    } else {
        match if holds(plain, "="@) {
            base32_padded(plain)
        } else {
            base32_unpadded(plain)
        } {
            Ok(bytes) => Ok(bytes),
            Err(e) => Err(
                FeedFault::Config(
                    "invalid AngelOne TOTP secret: expected base32 QR/setup secret ("@ + e + ")"@,
                ),
            ),
        }
    }
}

fn decode_totp_secret(secret_value: &str) -> (r: Result<Vec<u8>, FeedError>)
    ensures
        outcome(r) == secret_bytes(secret_value@),
{
    let secret = extract_totp_secret(secret_value);
    if secret.as_str().is_empty() {
        return Err(
            FeedError::Config("invalid AngelOne TOTP secret: empty secret".to_owned()),
        );
    }
    let plain = normalize_secret(secret.as_str());
    let decoded = if contains(plain.as_str(), "=") {
        decode_base32_padded(plain.as_str())
    } else {
        decode_base32_unpadded(plain.as_str())
    };
    match decoded {
        Ok(bytes) => Ok(bytes),
        Err(e) => {
            let mut message =
                "invalid AngelOne TOTP secret: expected base32 QR/setup secret (".to_owned();
            message.append(e.as_str());
            message.append(")");
            Err(FeedError::Config(message))
        },
    }
}

/// What `ring::hmac::sign` gives with a key for HMAC-SHA1.
pub uninterp spec fn hmac_sha1(key: Seq<u8>, message: Seq<u8>) -> Seq<u8>;

/// Calls `ring::hmac::sign` with a key for `ring::hmac::HMAC_SHA1_FOR_LEGACY_USE_ONLY`. The
/// tag depends on the key and the message alone; it is named and not described, but for
/// its length, which is that of a SHA-1 digest.
#[verifier::external_body]
fn sign(key: &[u8], message: &[u8]) -> (r: Vec<u8>)
    ensures
        r@ == hmac_sha1(key@, message@),
        r@.len() == 20,
{
    let key = ring::hmac::Key::new(ring::hmac::HMAC_SHA1_FOR_LEGACY_USE_ONLY, key);
    ring::hmac::sign(&key, message).as_ref().to_vec()
}

/// The number that four of the bytes of a digest stand for, without the highest bit. The
/// last byte tells which.
pub open spec fn truncated_of(digest: Seq<u8>) -> int {
    let at = digest[digest.len() - 1] as int % 16;
    (digest[at] as int % 128) * 16_777_216 + digest[at + 1] * 65_536 + digest[at + 2] * 256
        + digest[at + 3]
}

/// The code that a digest gives.
pub open spec fn digest_code(digest: Seq<u8>) -> Seq<char> {
    padded_of((truncated_of(digest) % TOTP_MODULUS as int) as nat, 6)
}

/// The code that a digest gives.
pub fn code_from_digest(digest: &[u8]) -> (r: String)
    requires
        digest@.len() == 20,
    ensures
        r@ == digest_code(digest@),
{
    let at: usize = (digest[19] % 16) as usize;
    let binary: u32 = (digest[at] % 128) as u32 * 16_777_216 + digest[at + 1] as u32 * 65_536
        + digest[at + 2] as u32 * 256 + digest[at + 3] as u32;
    let code: u32 = binary % TOTP_MODULUS;
    padded(code as u64, 6)
}

/// A number as eight bytes, the highest first.
pub open spec fn counter_bytes(counter: nat) -> Seq<u8> {
    choose|b: Seq<u8>| b.len() == 8 && big(b) == counter
}

proof fn same_bytes(a: Seq<u8>, b: Seq<u8>)
    requires
        a.len() == b.len(),
        big(a) == big(b),
    ensures
        a == b,
    decreases a.len(),
{
    if a.len() > 0 {
        assert(a.last() == b.last()) by {
            assert(big(a) % 256 == a.last());
            assert(big(b) % 256 == b.last());
        }
        same_bytes(a.drop_last(), b.drop_last());
        assert(a =~= a.drop_last().push(a.last()));
        assert(b =~= b.drop_last().push(b.last()));
    } else {
        assert(a =~= b);
    }
}

/// The code that the bytes of a secret give at a moment.
pub open spec fn secret_code(key: Seq<u8>, now: u64) -> Seq<char> {
    digest_code(hmac_sha1(key, counter_bytes((now / TOTP_STEP_SECONDS) as nat)))
}

/// The code that the bytes of a secret give at a moment.
pub fn code_from_secret(key: &[u8], epoch_seconds: u64) -> (r: String)
    ensures
        r@ == secret_code(key@, epoch_seconds),
{
    let counter = to_bytes_be(epoch_seconds / TOTP_STEP_SECONDS);
    proof {
        let b = counter_bytes((epoch_seconds / TOTP_STEP_SECONDS) as nat);
        assert(counter@.len() == 8 && big(counter@) == (epoch_seconds / TOTP_STEP_SECONDS) as nat);
        same_bytes(counter@, b);
    }
    let digest = sign(key, counter.as_slice());
    code_from_digest(digest.as_slice())
}

/// The code that a secret gives at a moment.
pub open spec fn totp_of(secret: Seq<char>, now: u64) -> Result<Seq<char>, FeedFault> {
    match secret_bytes(secret) {
        Err(e) => Err(e),
        Ok(key) => Ok(secret_code(key, now)),
    }
}

/// The code that a secret gives at a moment.
pub fn generate_totp(secret_value: &str, epoch_seconds: u64) -> (r: Result<String, FeedError>)
    ensures
        outcome(r) == totp_of(secret_value@, epoch_seconds),
{
    match decode_totp_secret(secret_value) {
        Ok(secret) => Ok(code_from_secret(secret.as_slice(), epoch_seconds)),
        Err(e) => Err(e),
    }
}

/// A code is the same for as long as it is valid.
pub proof fn code_stays(secret: Seq<char>, a: u64, b: u64)
    requires
        a / TOTP_STEP_SECONDS == b / TOTP_STEP_SECONDS,
    ensures
        totp_of(secret, a) == totp_of(secret, b),
{
}

/// A code has six digits.
pub proof fn code_has_six_digits(digest: Seq<u8>)
    requires
        digest.len() == 20,
    ensures
        digest_code(digest).len() == 6,
{
    let n = (truncated_of(digest) % TOTP_MODULUS as int) as nat;
    assert(ten_to(6) == 1_000_000) by {
        reveal_with_fuel(ten_to, 7);
    }
    padding_fills(n, 6);
}

/// A login succeeds where the answer says so and has the three tokens, none of them blank, and
/// what is kept is these, for whom they are and when they came.
pub proof fn login_keeps_its_tokens(
    json: JsonFacts,
    client_code: Seq<char>,
    api_key: Seq<char>,
    login_url: Seq<char>,
    now: u64,
    data: JsonFacts,
    jwt: Seq<char>,
    refresh: Seq<char>,
    feed: Seq<char>,
)
    requires
        field_of(json, "status"@) is Some,
        field_of(json, "data"@) == Some(data),
        field_of(data, "jwtToken"@) is Some,
        string_of(field_of(data, "jwtToken"@)->0) == Some(jwt),
        field_of(data, "refreshToken"@) is Some,
        string_of(field_of(data, "refreshToken"@)->0) == Some(refresh),
        field_of(data, "feedToken"@) is Some,
        string_of(field_of(data, "feedToken"@)->0) == Some(feed),
    ensures
        login_of(json, client_code, api_key, login_url, now) is Ok <==> {
            &&& field_of(json, "status"@)->0.shape == ShapeFacts::Bool(true)
            &&& trim_of(jwt).len() > 0
            &&& trim_of(refresh).len() > 0
            &&& trim_of(feed).len() > 0
        },
        login_of(json, client_code, api_key, login_url, now) matches Ok(session) ==> {
            &&& session.jwt_token == jwt
            &&& session.refresh_token == refresh
            &&& session.feed_token == feed
            &&& session.client_code == client_code
            &&& session.api_key == api_key
            &&& session.login_url == login_url
            &&& session.created_at_utc == now
        },
{
}

/// A session that was kept is one that can be used: none of what a feed needs of it is blank.
pub proof fn read_sessions_are_whole(path: Seq<char>, session: SavedFacts)
    ensures
        read_of(path, Ok(session)) is Ok <==> {
            &&& trim_of(session.jwt_token).len() > 0
            &&& trim_of(session.feed_token).len() > 0
            &&& trim_of(session.client_code).len() > 0
            &&& trim_of(session.api_key).len() > 0
        },
        read_of(path, Ok(session)) is Ok ==> read_of(path, Ok(session))->Ok_0 == session,
{
}

/// A session is used on the day that it was made, as the day is counted in India, five and a half
/// hours ahead, and on no other: there is a midnight that both moments follow by less than a day.
pub proof fn sessions_last_their_day(session: SavedFacts, now: u64)
    ensures
        ({
            let r = current_of(Ok(session), now);
            let kept = r is Ok && r->Ok_0 == Some(session);
            &&& r is Ok
            &&& kept <==> exists|day: int|
                86_400 * day <= session.created_at_utc + 19_800 < 86_400 * day + 86_400 && #[trigger] (
                86_400 * day) <= now + 19_800 < 86_400 * day + 86_400
            &&& !kept ==> r->Ok_0 is None
            &&& session.created_at_utc == now ==> kept
            &&& now >= session.created_at_utc + 86_400 ==> !kept
        }),
{
    let a = session.created_at_utc + 19_800;
    let b = now + 19_800;
    let (m, n) = (a / 86_400, b / 86_400);
    assert(86_400 * m <= a < 86_400 * m + 86_400);
    assert(86_400 * n <= b < 86_400 * n + 86_400);
    assert forall|day: int|
        86_400 * day <= a < 86_400 * day + 86_400 && #[trigger] (86_400 * day) <= b < 86_400 * day
            + 86_400 implies m == n by {
        assert(day == m && day == n) by (nonlinear_arith)
            requires
                86_400 * day <= a < 86_400 * day + 86_400,
                86_400 * day <= b < 86_400 * day + 86_400,
                86_400 * m <= a < 86_400 * m + 86_400,
                86_400 * n <= b < 86_400 * n + 86_400,
        ;
    }
    if m == n {
        assert(86_400 * m <= b);
    }
}

/// A text in an address stands for itself, but for an escape, which stands for the character of
/// the number that its two digits are to the base of sixteen, and a plus, which is a space.
pub proof fn escapes_stand_for_characters(bytes: Seq<u8>, high: u8, low: u8)
    requires
        high < 16,
        low < 16,
    ensures
        ({
            let digit = |n: u8|
                (if n < 10 {
                    48 + n
                } else {
                    87 + n
                }) as u8;
            let capital = |n: u8|
                (if n < 10 {
                    48 + n
                } else {
                    55 + n
                }) as u8;
            &&& unescaped_of(seq![37u8, digit(high), digit(low)] + bytes) == seq![
                (16 * high + low) as char,
            ] + unescaped_of(bytes)
            &&& unescaped_of(seq![37u8, capital(high), capital(low)] + bytes) == seq![
                (16 * high + low) as char,
            ] + unescaped_of(bytes)
        }),
        unescaped_of(seq![43u8] + bytes) == seq![' '] + unescaped_of(bytes),
        forall|b: u8|
            b != 37 && b != 43 ==> #[trigger] unescaped_of(seq![b] + bytes) == seq![b as char]
                + unescaped_of(bytes),
{
    let digit = |n: u8|
        (if n < 10 {
            48 + n
        } else {
            87 + n
        }) as u8;
    let capital = |n: u8|
        (if n < 10 {
            48 + n
        } else {
            55 + n
        }) as u8;
    let small = seq![37u8, digit(high), digit(low)] + bytes;
    let large = seq![37u8, capital(high), capital(low)] + bytes;
    assert(small[0] == 37 && small[1] == digit(high) && small[2] == digit(low));
    assert(large[0] == 37 && large[1] == capital(high) && large[2] == capital(low));
    assert(small.skip(3) =~= bytes);
    assert(large.skip(3) =~= bytes);
    assert((seq![43u8] + bytes).skip(1) =~= bytes);
    assert forall|b: u8| b != 37 && b != 43 implies #[trigger] unescaped_of(seq![b] + bytes)
        == seq![b as char] + unescaped_of(bytes) by {
        assert((seq![b] + bytes).skip(1) =~= bytes);
    }
}

/// The number of a digest is that of the four bytes that its last half byte points at, without
/// their highest bit.
pub proof fn digest_is_cut_to_31_bits(digest: Seq<u8>)
    requires
        digest.len() == 20,
    ensures
        ({
            let at = digest[19] as int % 16;
            &&& truncated_of(digest) == big(digest.subrange(at, at + 4)) as int % 0x8000_0000
            &&& 0 <= truncated_of(digest) < 0x8000_0000
        }),
{
    let at = digest[19] as int % 16;
    let b = digest.subrange(at, at + 4);
    little_is_to_the_base_of_256(b);
    let n = b[0] as int;
    assert(n == 128 * (n / 128) + n % 128);
    assert(big(b) == 16_777_216 * n + 65_536 * b[1] + 256 * b[2] + b[3]);
    let rest = 16_777_216 * (n % 128) + 65_536 * b[1] + 256 * b[2] + b[3];
    assert(big(b) == 0x8000_0000 * (n / 128) + rest);
    assert(0 <= rest < 0x8000_0000);
    assert(big(b) as int % 0x8000_0000 == rest);
}

/// A code that is handed over comes before one that is set, and that before one that is made of
/// a secret; blanks are as if they were missing.
pub proof fn handed_codes_come_first(
    handed: Option<Seq<char>>,
    code: Option<Seq<char>>,
    secret: Option<Seq<char>>,
    now: u64,
)
    ensures
        ({
            let blank = |v: Option<Seq<char>>| v is None || trim_of(v->0).len() == 0;
            &&& !blank(handed) ==> code_of(handed, code, secret, now) == Ok::<Seq<char>, FeedFault>(
                trim_of(handed->0),
            )
            &&& blank(handed) && !blank(code) ==> code_of(handed, code, secret, now) == Ok::<
                Seq<char>,
                FeedFault,
            >(trim_of(code->0))
            &&& blank(handed) && blank(code) && !blank(secret) ==> code_of(
                handed,
                code,
                secret,
                now,
            ) == totp_of(trim_of(secret->0), now)
            &&& blank(handed) && blank(code) && blank(secret) ==> code_of(
                handed,
                code,
                secret,
                now,
            ) is Err
        }),
{
}

} // verus!
