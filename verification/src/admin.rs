//! The interface through which logins and tokens are given while the program runs.
use crate::adapters::angelone::auth::AngeloneLoginSummary;
use crate::adapters::dbinternational::auth::{kind_text, DbinternationalLoginSummary, SummaryFacts};
use crate::binary64::text_facts;
use crate::bytes::part;
use crate::feeder::error::{message_of, FeedError, FeedFault};
use crate::text::{
    byte_len, decimal, decimal_of, ends, holds, join, join_of, lines, lines_of, lower_of,
    number_fault, number_fault_of, parse_of, parse_up_to, parts_are_found, read_utf8, same,
    same_ignoring_case, split_once, split_once_of, starts, trim, trim_of, utf8_fault, views, words,
    words_of,
};
use vstd::prelude::*;
use vstd::utf8::{decode_utf8, encode_utf8, valid_utf8};

verus! {

pub const DBINTERNATIONAL_LOGIN_PATH: &'static str = "/admin/dbinternational/login";

pub const DBINTERNATIONAL_MARKET_DATA_LOGIN_PATH: &'static str =
    "/admin/dbinternational/login/market-data";

pub const DBINTERNATIONAL_INTERACTIVE_LOGIN_PATH: &'static str =
    "/admin/dbinternational/login/interactive";

pub const ANGELONE_LOGIN_PATH: &'static str = "/admin/angelone/login";

pub const FYERS_ACCESS_TOKEN_PATH: &'static str = "/admin/fyers/access-token";

pub const STRATEGY_RELOAD_PATH: &'static str = "/admin/strategy/reload";

/// The most bytes that a request may have.
pub const MAX_REQUEST_BYTES: usize = 16_384;

/// Whether the headers of a request end at a place.
pub open spec fn ends_at(data: Seq<u8>, i: int) -> bool {
    &&& 0 <= i
    &&& i + 4 <= data.len()
    &&& data[i] == 13
    &&& data[i + 1] == 10
    &&& data[i + 2] == 13
    &&& data[i + 3] == 10
}

/// Whether the headers of a request end at a place, and not before.
pub open spec fn first_ends_at(data: Seq<u8>, i: int) -> bool {
    ends_at(data, i) && forall|k: int| 0 <= k < i ==> !#[trigger] ends_at(data, k)
}

/// Where the headers of a request end.
pub fn find_header_end(data: &[u8]) -> (r: Option<usize>)
    ensures
        match r {
            Some(i) => first_ends_at(data@, i as int),
            None => forall|k: int| !#[trigger] ends_at(data@, k),
        },
{
    let n: usize = data.len();
    if n < 4 {
        return None;
    }
    let mut i: usize = 0;
    while i <= n - 4
        invariant
            n == data@.len(),
            4 <= n,
            i <= n - 3,
            forall|k: int| 0 <= k < i ==> !#[trigger] ends_at(data@, k),
        decreases n - i,
    {
        if data[i] == 13 && data[i + 1] == 10 && data[i + 2] == 13 && data[i + 3] == 10 {
            assert(ends_at(data@, i as int));
            return Some(i);
        }
        assert(!ends_at(data@, i as int));
        i += 1;
    }
    None
}

/// The length of the body that a header tells, where it tells one.
pub open spec fn told_length(line: Seq<char>) -> Option<Result<nat, FeedFault>> {
    match split_once_of(line, ':') {
        None => None,
        Some((name, value)) => if lower_of(name) == lower_of("content-length"@) {
            match parse_of(trim_of(value), usize::MAX as nat) {
                Some(n) => Some(Ok(n)),
                None => Some(
                    Err(
                        FeedFault::Parse(
                            "invalid admin API content-length: "@ + number_fault_of(
                                trim_of(value),
                                usize::MAX as nat,
                            ),
                        ),
                    ),
                ),
            }
        } else {
            None
        },
    }
}

/// The length of the body that the first of some headers tells that tells one.
pub open spec fn length_in(lines: Seq<Seq<char>>) -> Result<nat, FeedFault>
    decreases lines.len(),
{
    if lines.len() == 0 {
        Ok(0)
    } else {
        match told_length(lines[0]) {
            Some(outcome) => outcome,
            None => length_in(lines.skip(1)),
        }
    }
}

/// The length of the body that the headers of a request tell, behind its first line.
pub open spec fn content_length_of(headers: Seq<char>) -> Result<nat, FeedFault> {
    let all = lines_of(headers);
    if all.len() == 0 {
        Ok(0)
    } else {
        length_in(all.skip(1))
    }
}

/// The length of the body that the headers of a request tell.
pub fn content_length(headers: &str) -> (r: Result<usize, FeedError>)
    ensures
        match r {
            Ok(n) => content_length_of(headers@) == Ok::<nat, FeedFault>(n as nat),
            Err(e) => content_length_of(headers@) == Err::<nat, FeedFault>(e@),
        },
{
    let all = lines(headers);
    let ghost texts = views(all@);
    let mut i: usize = 1;
    while i < all.len()
        invariant
            1 <= i,
            texts == views(all@),
            texts == lines_of(headers@),
            texts.len() > 0 ==> i <= texts.len() && content_length_of(headers@) == length_in(
                texts.skip(i as int),
            ),
        decreases all@.len() - i,
    {
        let ghost rest = texts.skip(i as int);
        assert(rest[0] == all@[i as int]@);
        assert(rest.skip(1) =~= texts.skip(i + 1));
        if let Some((name, value)) = split_once(all[i].as_str(), ':') {
            if same_ignoring_case(name.as_str(), "content-length") {
                let value = trim(value.as_str());
                return match parse_up_to(value.as_str(), usize::MAX as u64) {
                    Some(n) => Ok(n as usize),
                    None => Err(
                        FeedError::Parse(
                            "invalid admin API content-length: ".to_owned().concat(
                                number_fault(value.as_str(), usize::MAX as u64).as_str(),
                            ),
                        ),
                    ),
                };
            }
        }
        i += 1;
    }
    assert(texts.len() > 0 ==> texts.skip(i as int) =~= Seq::empty());
    Ok(0)
}

/// Bytes of a request as a text. `what` names them.
pub open spec fn text_in(bytes: Seq<u8>, what: Seq<char>) -> Result<Seq<char>, FeedFault> {
    if valid_utf8(bytes) {
        Ok(decode_utf8(bytes))
    } else {
        Err(FeedFault::Parse("invalid admin API request "@ + what + ": "@ + utf8_fault(bytes)))
    }
}

fn read_text(data: &[u8], from: usize, to: usize, what: &str) -> (r: Result<String, FeedError>)
    requires
        from <= to <= data@.len(),
    ensures
        match r {
            Ok(text) => text_in(data@.subrange(from as int, to as int), what@) == Ok::<
                Seq<char>,
                FeedFault,
            >(text@),
            Err(e) => text_in(data@.subrange(from as int, to as int), what@) == Err::<
                Seq<char>,
                FeedFault,
            >(e@),
        },
{
    let bytes = part(data, from, to);
    match read_utf8(bytes.as_slice()) {
        Ok(text) => Ok(text),
        Err(fault) => {
            let mut message = "invalid admin API request ".to_owned();
            message.append(what);
            message.append(": ");
            message.append(fault.as_str());
            Err(FeedError::Parse(message))
        },
    }
}

/// Where the headers of a request end, where they do.
pub open spec fn header_end_of(data: Seq<u8>) -> Option<int> {
    if exists|i: int| first_ends_at(data, i) {
        Some(choose|i: int| first_ends_at(data, i))
    } else {
        None
    }
}

proof fn header_end_is(data: Seq<u8>, i: int)
    requires
        first_ends_at(data, i),
    ensures
        header_end_of(data) == Some(i),
{
    let j = choose|j: int| first_ends_at(data, j);
    assert(first_ends_at(data, j));
    if j < i {
        assert(!ends_at(data, j));
    }
    if i < j {
        assert(!ends_at(data, i));
    }
}

/// Whether a request has come in whole.
pub open spec fn is_complete(data: Seq<u8>) -> Result<bool, FeedFault> {
    match header_end_of(data) {
        None => Ok(false),
        Some(end) => match text_in(data.take(end), "headers"@) {
            Err(e) => Err(e),
            Ok(headers) => match content_length_of(headers) {
                Err(e) => Err(e),
                Ok(length) => Ok(data.len() >= end + 4 + length),
            },
        },
    }
}

/// Whether a request has come in whole.
pub fn request_complete(data: &[u8]) -> (r: Result<bool, FeedError>)
    ensures
        match r {
            Ok(complete) => is_complete(data@) == Ok::<bool, FeedFault>(complete),
            Err(e) => is_complete(data@) == Err::<bool, FeedFault>(e@),
        },
{
    let end: usize = match find_header_end(data) {
        Some(end) => end,
        None => {
            assert forall|i: int| !first_ends_at(data@, i) by {
                assert(!ends_at(data@, i));
            }
            return Ok(false);
        },
    };
    proof {
        header_end_is(data@, end as int);
        assert(data@.subrange(0, end as int) =~= data@.take(end as int));
    }
    let headers = match read_text(data, 0, end, "headers") {
        Ok(headers) => headers,
        Err(e) => return Err(e),
    };
    match content_length(headers.as_str()) {
        Err(e) => Err(e),
        Ok(length) => {
            let n: usize = data.len();
            Ok(n - end - 4 >= length)
        },
    }
}

/// Takes in more bytes of a request. Tells whether it has come in whole.
pub fn take_bytes(data: &mut Vec<u8>, more: &[u8]) -> (r: Result<bool, FeedError>)
    ensures
        final(data)@ == old(data)@ + more@,
        match r {
            Ok(complete) => final(data)@.len() <= MAX_REQUEST_BYTES && is_complete(final(data)@)
                == Ok::<bool, FeedFault>(complete),
            Err(e) => if final(data)@.len() > MAX_REQUEST_BYTES {
                e@ == FeedFault::Config("admin API request too large"@)
            } else {
                is_complete(final(data)@) == Err::<bool, FeedFault>(e@)
            },
        },
{
    let ghost start = data@;
    let mut i: usize = 0;
    assert(data@ =~= start + more@.take(0));
    while i < more.len()
        invariant
            i <= more@.len(),
            data@ == start + more@.take(i as int),
        decreases more@.len() - i,
    {
        data.push(more[i]);
        i += 1;
        assert(start + more@.take(i as int) =~= (start + more@.take(i - 1)).push(more@[i - 1]));
    }
    assert(more@.take(i as int) =~= more@);
    if data.len() > MAX_REQUEST_BYTES {
        return Err(FeedError::Config("admin API request too large".to_owned()));
    }
    request_complete(data.as_slice())
}

/// A request.
#[derive(Debug, PartialEq, Eq)]
pub struct HttpRequest {
    pub method: String,
    pub path: String,
    pub body: String,
}

/// A request, as contracts speak of it.
pub struct HttpRequestFacts {
    pub method: Seq<char>,
    pub path: Seq<char>,
    pub body: Seq<char>,
}

impl View for HttpRequest {
    type V = HttpRequestFacts;

    open spec fn view(&self) -> HttpRequestFacts {
        HttpRequestFacts { method: self.method@, path: self.path@, body: self.body@ }
    }
}

/// The request that bytes are.
pub open spec fn request_of(data: Seq<u8>) -> Result<HttpRequestFacts, FeedFault> {
    match header_end_of(data) {
        None => Err(FeedFault::Parse("admin API request missing headers"@)),
        Some(end) => match text_in(data.take(end), "headers"@) {
            Err(e) => Err(e),
            Ok(headers) => match content_length_of(headers) {
                Err(e) => Err(e),
                Ok(length) => {
                    let all = lines_of(headers);
                    if all.len() == 0 {
                        Err(FeedFault::Parse("admin API request line missing"@))
                    } else {
                        let parts = words_of(all[0]);
                        if parts.len() == 0 {
                            Err(FeedFault::Parse("admin API request method missing"@))
                        } else if parts.len() == 1 {
                            Err(FeedFault::Parse("admin API request path missing"@))
                        } else if data.len() < end + 4 + length {
                            Err(FeedFault::Parse("admin API request body incomplete"@))
                        } else {
                            match text_in(
                                data.subrange(end + 4, end + 4 + length),
                                "body"@,
                            ) {
                                Err(e) => Err(e),
                                Ok(body) => Ok(
                                    HttpRequestFacts { method: parts[0], path: parts[1], body },
                                ),
                            }
                        }
                    }
                },
            },
        },
    }
}

/// The request that bytes are.
pub fn parse_http_request(data: &[u8]) -> (r: Result<HttpRequest, FeedError>)
    ensures
        match r {
            Ok(request) => request_of(data@) == Ok::<HttpRequestFacts, FeedFault>(request@),
            Err(e) => request_of(data@) == Err::<HttpRequestFacts, FeedFault>(e@),
        },
{
    let end: usize = match find_header_end(data) {
        Some(end) => end,
        None => {
            assert forall|i: int| !first_ends_at(data@, i) by {
                assert(!ends_at(data@, i));
            }
            return Err(FeedError::Parse("admin API request missing headers".to_owned()));
        },
    };
    proof {
        header_end_is(data@, end as int);
        assert(data@.subrange(0, end as int) =~= data@.take(end as int));
    }
    let headers = match read_text(data, 0, end, "headers") {
        Ok(headers) => headers,
        Err(e) => return Err(e),
    };
    let length: usize = match content_length(headers.as_str()) {
        Ok(length) => length,
        Err(e) => return Err(e),
    };
    let all = lines(headers.as_str());
    assert(views(all@).len() == all@.len());
    if all.len() == 0 {
        return Err(FeedError::Parse("admin API request line missing".to_owned()));
    }
    assert(views(all@)[0] == all@[0]@);
    let parts = words(all[0].as_str());
    assert(views(parts@).len() == parts@.len());
    if parts.len() == 0 {
        return Err(FeedError::Parse("admin API request method missing".to_owned()));
    }
    if parts.len() == 1 {
        return Err(FeedError::Parse("admin API request path missing".to_owned()));
    }
    let n: usize = data.len();
    if n - end - 4 < length {
        return Err(FeedError::Parse("admin API request body incomplete".to_owned()));
    }
    assert(views(parts@)[0] == parts@[0]@);
    assert(views(parts@)[1] == parts@[1]@);
    match read_text(data, end + 4, end + 4 + length, "body") {
        Err(e) => Err(e),
        Ok(body) => Ok(
            HttpRequest { method: parts[0].clone(), path: parts[1].clone(), body },
        ),
    }
}

/// A request that has come in whole is never taken for one whose body falls short.
pub proof fn whole_requests_are_read(data: Seq<u8>)
    requires
        is_complete(data) == Ok::<bool, FeedFault>(true),
    ensures
        request_of(data) != Err::<HttpRequestFacts, FeedFault>(
            FeedFault::Parse("admin API request body incomplete"@),
        ),
{
    reveal_strlit("admin API request body incomplete");
    reveal_strlit("admin API request line missing");
    reveal_strlit("admin API request method missing");
    reveal_strlit("admin API request path missing");
    reveal_strlit("invalid admin API request ");
    let incomplete = "admin API request body incomplete"@;
    assert(incomplete[0] == 'a');
    assert("admin API request line missing"@[18] == 'l');
    assert("admin API request method missing"@[18] == 'm');
    assert("admin API request path missing"@[18] == 'p');
    assert(incomplete[18] == 'b');
    if let Some(end) = header_end_of(data) {
        let headers = decode_utf8(data.take(end));
        let length = content_length_of(headers)->Ok_0;
        let body = data.subrange(end + 4, end + 4 + length);
        if !valid_utf8(body) {
            let message = "invalid admin API request "@ + "body"@ + ": "@ + utf8_fault(body);
            assert(message[0] == 'i');
        }
    }
}

/// Bytes that follow a request that has come in whole leave it as it is, its method, its path
/// and its body, and it is still whole.
pub proof fn bytes_behind_change_nothing(data: Seq<u8>, more: Seq<u8>)
    requires
        is_complete(data) == Ok::<bool, FeedFault>(true),
    ensures
        is_complete(data + more) == Ok::<bool, FeedFault>(true),
        request_of(data + more) == request_of(data),
{
    let all = data + more;
    let end = header_end_of(data)->0;
    assert(first_ends_at(data, end));
    assert(ends_at(all, end));
    assert forall|k: int| 0 <= k < end implies !#[trigger] ends_at(all, k) by {
        assert(!ends_at(data, k));
    }
    header_end_is(all, end);
    assert(all.take(end) =~= data.take(end));
    let length = content_length_of(decode_utf8(data.take(end)))->Ok_0;
    assert(all.subrange(end + 4, end + 4 + length) =~= data.subrange(end + 4, end + 4 + length));
}

/// What is answered.
#[derive(Debug, PartialEq, Eq)]
pub struct HttpAnswer {
    pub status: u16,
    pub body: String,
}

/// What is to be done about a request.
#[derive(Debug, PartialEq, Eq)]
pub enum AdminAction {
    /// It is answered.
    Answer(HttpAnswer),
    /// A token of FYERS is kept in a file.
    KeepFyersToken { file: String, token: String },
    /// DBInternational is logged in at, for all that there is.
    LoginDbinternational,
    LoginMarketData,
    LoginInteractive,
    /// AngelOne is logged in at, with a code where one is given.
    LoginAngelone { totp: Option<String> },
    ReloadStrategies,
}

/// What is to be done about a request, as contracts speak of it.
pub enum ActionFacts {
    Answer { status: u16, body: Seq<char> },
    KeepFyersToken { file: Seq<char>, token: Seq<char> },
    LoginDbinternational,
    LoginMarketData,
    LoginInteractive,
    LoginAngelone { totp: Option<Seq<char>> },
    ReloadStrategies,
}

impl View for AdminAction {
    type V = ActionFacts;

    open spec fn view(&self) -> ActionFacts {
        match self {
            AdminAction::Answer(answer) => ActionFacts::Answer {
                status: answer.status,
                body: answer.body@,
            },
            AdminAction::KeepFyersToken { file, token } => ActionFacts::KeepFyersToken {
                file: file@,
                token: token@,
            },
            AdminAction::LoginDbinternational => ActionFacts::LoginDbinternational,
            AdminAction::LoginMarketData => ActionFacts::LoginMarketData,
            AdminAction::LoginInteractive => ActionFacts::LoginInteractive,
            AdminAction::LoginAngelone { totp } => ActionFacts::LoginAngelone {
                totp: text_facts(*totp),
            },
            AdminAction::ReloadStrategies => ActionFacts::ReloadStrategies,
        }
    }
}

/// What the interface can do: where the token of FYERS is kept, and which brokers and
/// strategies there are.
#[derive(Debug)]
pub struct AdminState {
    pub fyers_access_token_file: Option<String>,
    pub dbinternational: bool,
    pub angelone: bool,
    pub strategies: bool,
}

pub open spec fn refused(body: Seq<char>) -> ActionFacts {
    ActionFacts::Answer { status: 404, body }
}

fn refuse(body: &str) -> (r: AdminAction)
    ensures
        r@ == refused(body@),
{
    AdminAction::Answer(HttpAnswer { status: 404, body: body.to_owned() })
}

/// What is to be done about a request.
pub open spec fn action_of(request: HttpRequestFacts, state: AdminState) -> ActionFacts {
    let post = request.method == "POST"@;
    let path = request.path;
    if request.method == "GET"@ && path == "/health"@ {
        ActionFacts::Answer { status: 200, body: "ok\n"@ }
    } else if post && path == FYERS_ACCESS_TOKEN_PATH@ {
        match state.fyers_access_token_file {
            None => refused("FYERS config disabled\n"@),
            Some(file) => ActionFacts::KeepFyersToken { file: file@, token: request.body },
        }
    } else if post && path == DBINTERNATIONAL_LOGIN_PATH@ {
        if state.dbinternational {
            ActionFacts::LoginDbinternational
        } else {
            refused("DBInternational config disabled\n"@)
        }
    } else if post && path == DBINTERNATIONAL_MARKET_DATA_LOGIN_PATH@ {
        if state.dbinternational {
            ActionFacts::LoginMarketData
        } else {
            refused("DBInternational config disabled\n"@)
        }
    } else if post && path == DBINTERNATIONAL_INTERACTIVE_LOGIN_PATH@ {
        if state.dbinternational {
            ActionFacts::LoginInteractive
        } else {
            refused("DBInternational config disabled\n"@)
        }
    } else if post && path == ANGELONE_LOGIN_PATH@ {
        if state.angelone {
            let parts = words_of(trim_of(request.body));
            ActionFacts::LoginAngelone {
                totp: if parts.len() > 0 && parts[0].len() > 0 {
                    Some(parts[0])
                } else {
                    None
                },
            }
        } else {
            refused("AngelOne config disabled\n"@)
        }
    } else if post && path == STRATEGY_RELOAD_PATH@ {
        if state.strategies {
            ActionFacts::ReloadStrategies
        } else {
            refused("strategy runtime disabled\n"@)
        }
    } else {
        refused("not found\n"@)
    }
}

/// What is to be done about a request.
pub fn route(request: &HttpRequest, state: &AdminState) -> (r: AdminAction)
    ensures
        r@ == action_of(request@, *state),
{
    let post = same(request.method.as_str(), "POST");
    let path = request.path.as_str();
    if same(request.method.as_str(), "GET") && same(path, "/health") {
        return AdminAction::Answer(HttpAnswer { status: 200, body: "ok\n".to_owned() });
    }
    if post && same(path, FYERS_ACCESS_TOKEN_PATH) {
        return match &state.fyers_access_token_file {
            None => refuse("FYERS config disabled\n"),
            Some(file) => AdminAction::KeepFyersToken {
                file: file.clone(),
                token: request.body.clone(),
            },
        };
    }
    if post && same(path, DBINTERNATIONAL_LOGIN_PATH) {
        return if state.dbinternational {
            AdminAction::LoginDbinternational
        } else {
            refuse("DBInternational config disabled\n")
        };
    }
    if post && same(path, DBINTERNATIONAL_MARKET_DATA_LOGIN_PATH) {
        return if state.dbinternational {
            AdminAction::LoginMarketData
        } else {
            refuse("DBInternational config disabled\n")
        };
    }
    if post && same(path, DBINTERNATIONAL_INTERACTIVE_LOGIN_PATH) {
        return if state.dbinternational {
            AdminAction::LoginInteractive
        } else {
            refuse("DBInternational config disabled\n")
        };
    }
    if post && same(path, ANGELONE_LOGIN_PATH) {
        if !state.angelone {
            return refuse("AngelOne config disabled\n");
        }
        let parts = words(trim(request.body.as_str()).as_str());
        assert(views(parts@).len() == parts@.len());
        let mut totp: Option<String> = None;
        if parts.len() > 0 {
            assert(views(parts@)[0] == parts@[0]@);
            if !parts[0].as_str().is_empty() {
                totp = Some(parts[0].clone());
            }
        }
        return AdminAction::LoginAngelone { totp };
    }
    if post && same(path, STRATEGY_RELOAD_PATH) {
        return if state.strategies {
            AdminAction::ReloadStrategies
        } else {
            refuse("strategy runtime disabled\n")
        };
    }
    refuse("not found\n")
}

/// What is answered when strategies were loaded anew.
pub fn reloaded(count: usize) -> (r: HttpAnswer)
    ensures
        r.status == 200,
        r.body@ == "reloaded "@ + decimal_of(count as nat) + " active SSUs\n"@,
{
    let mut body = "reloaded ".to_owned();
    body.append(decimal(count as u64).as_str());
    body.append(" active SSUs\n");
    HttpAnswer { status: 200, body }
}

/// What is answered when a token of FYERS was kept.
pub fn fyers_token_kept() -> (r: HttpAnswer)
    ensures
        r.status == 200,
        r.body@ == "FYERS access token updated\n"@,
{
    HttpAnswer { status: 200, body: "FYERS access token updated\n".to_owned() }
}

pub open spec fn summary_views(v: Seq<DbinternationalLoginSummary>) -> Seq<SummaryFacts> {
    Seq::new(v.len(), |i: int| v[i]@)
}

pub open spec fn or_dash(value: Option<Seq<char>>) -> Seq<char> {
    match value {
        Some(text) => text,
        None => "-"@,
    }
}

/// What is told of a login.
pub open spec fn summary_line(summary: SummaryFacts) -> Seq<char> {
    kind_text(summary.kind) + " user_id="@ + or_dash(summary.user_id) + " token_file="@
        + summary.token_file + " session_file="@ + or_dash(summary.session_file)
}

/// What is told of logins, line by line.
pub open spec fn summary_lines(list: Seq<SummaryFacts>) -> Seq<Seq<char>>
    decreases list.len(),
{
    if list.len() == 0 {
        seq!["DBInternational login completed"@]
    } else {
        summary_lines(list.drop_last()).push(summary_line(list.last()))
    }
}

/// What is told of logins.
pub open spec fn logins_text(list: Seq<SummaryFacts>) -> Seq<char> {
    if list.len() == 0 {
        "no logins executed\n"@
    } else {
        join_of(summary_lines(list).push(""@), "\n"@)
    }
}

fn append_or_dash(out: &mut String, value: &Option<String>)
    ensures
        final(out)@ == old(out)@ + or_dash(text_facts(*value)),
{
    match value {
        Some(text) => out.append(text.as_str()),
        None => out.append("-"),
    }
}

/// What is told of logins.
pub fn format_login_summaries(summaries: &Vec<DbinternationalLoginSummary>) -> (r: String)
    ensures
        r@ == logins_text(summary_views(summaries@)),
{
    let ghost all = summary_views(summaries@);
    if summaries.len() == 0 {
        return "no logins executed\n".to_owned();
    }
    let mut texts: Vec<String> = Vec::new();
    texts.push("DBInternational login completed".to_owned());
    let mut i: usize = 0;
    assert(all.take(0) =~= Seq::empty());
    assert(views(texts@) =~= seq!["DBInternational login completed"@]);
    while i < summaries.len()
        invariant
            i <= summaries@.len(),
            all == summary_views(summaries@),
            views(texts@) == summary_lines(all.take(i as int)),
        decreases summaries@.len() - i,
    {
        let ghost before = views(texts@);
        assert(all.take(i + 1).drop_last() =~= all.take(i as int));
        assert(all.take(i + 1).last() == summaries@[i as int]@);
        let one = &summaries[i];
        let mut line = one.kind.as_str().to_owned();
        line.append(" user_id=");
        append_or_dash(&mut line, &one.user_id);
        line.append(" token_file=");
        line.append(one.token_file.as_str());
        line.append(" session_file=");
        append_or_dash(&mut line, &one.session_file);
        texts.push(line);
        assert(views(texts@) =~= before.push(line@));
        i += 1;
    }
    assert(all.take(i as int) =~= all);
    let ghost before = views(texts@);
    texts.push("".to_owned());
    assert(views(texts@) =~= before.push(""@));
    join(&texts, "\n")
}

/// What is told of a login at AngelOne.
pub fn format_angelone_login_summary(summary: &AngeloneLoginSummary) -> (r: String)
    ensures
        r@ == "AngelOne login completed\nclient_code="@ + summary.client_code@ + " session_file="@
            + summary.session_file@ + "\n"@,
{
    let mut out = "AngelOne login completed\nclient_code=".to_owned();
    out.append(summary.client_code.as_str());
    out.append(" session_file=");
    out.append(summary.session_file.as_str());
    out.append("\n");
    out
}

fn login_failed(error: &FeedError) -> (r: HttpAnswer)
    ensures
        r.status == 500,
        r.body@ == "login failed: "@ + message_of(error@) + "\n"@,
{
    let mut body = "login failed: ".to_owned();
    body.append(error.message().as_str());
    body.append("\n");
    HttpAnswer { status: 500, body }
}

/// What is answered when logins at DBInternational were tried.
pub fn login_answer(result: &Result<Vec<DbinternationalLoginSummary>, FeedError>) -> (r: HttpAnswer)
    ensures
        match *result {
            Ok(list) => r.status == 200 && r.body@ == logins_text(summary_views(list@)),
            Err(e) => r.status == 500 && r.body@ == "login failed: "@ + message_of(e@) + "\n"@,
        },
{
    match result {
        Ok(list) => HttpAnswer { status: 200, body: format_login_summaries(list) },
        Err(e) => login_failed(e),
    }
}

/// What is answered when a login at AngelOne was tried.
pub fn angelone_login_answer(result: &Result<AngeloneLoginSummary, FeedError>) -> (r: HttpAnswer)
    ensures
        match *result {
            Ok(summary) => r.status == 200 && r.body@ == "AngelOne login completed\nclient_code="@
                + summary.client_code@ + " session_file="@ + summary.session_file@ + "\n"@,
            Err(e) => r.status == 500 && r.body@ == "login failed: "@ + message_of(e@) + "\n"@,
        },
{
    match result {
        Ok(summary) => HttpAnswer { status: 200, body: format_angelone_login_summary(summary) },
        Err(e) => login_failed(e),
    }
}

/// What a status says.
pub open spec fn reason_of(status: u16) -> Seq<char> {
    if status == 200 {
        "OK"@
    } else if status == 404 {
        "Not Found"@
    } else if status == 500 {
        "Internal Server Error"@
    } else {
        "Error"@
    }
}

/// An answer as it is sent.
pub open spec fn response_of(status: u16, body: Seq<char>) -> Seq<char> {
    "HTTP/1.1 "@ + decimal_of(status as nat) + " "@ + reason_of(status)
        + "\r\ncontent-type: text/plain\r\ncontent-length: "@ + decimal_of(encode_utf8(body).len())
        + "\r\nconnection: close\r\n\r\n"@ + body
}

/// An answer as it is sent.
pub fn response_text(answer: &HttpAnswer) -> (r: String)
    ensures
        r@ == response_of(answer.status, answer.body@),
{
    let mut out = "HTTP/1.1 ".to_owned();
    out.append(decimal(answer.status as u64).as_str());
    out.append(" ");
    if answer.status == 200 {
        out.append("OK");
    } else if answer.status == 404 {
        out.append("Not Found");
    } else if answer.status == 500 {
        out.append("Internal Server Error");
    } else {
        out.append("Error");
    }
    out.append("\r\ncontent-type: text/plain\r\ncontent-length: ");
    out.append(decimal(byte_len(answer.body.as_str()) as u64).as_str());
    out.append("\r\nconnection: close\r\n\r\n");
    out.append(answer.body.as_str());
    out
}

/// The address that the interface listens at: as it is shown, and whether it is one of this
/// machine alone.
#[derive(Debug)]
pub struct BindAddress {
    pub shown: String,
    pub loopback: bool,
}

/// Whether the interface may listen at an address. `parsed` is what the address was read as.
pub fn check_bind_address(bind_addr: &str, parsed: &Result<BindAddress, String>) -> (r: Result<
    (),
    FeedError,
>)
    ensures
        match *parsed {
            Err(error) => r matches Err(e) && e@ == FeedFault::Config(
                "invalid admin bind_addr "@ + bind_addr@ + ": "@ + error@,
            ),
            Ok(address) => if address.loopback {
                r is Ok
            } else {
                r matches Err(e) && e@ == FeedFault::Config(
                    "admin bind_addr must be loopback only, got "@ + address.shown@,
                )
            },
        },
{
    match parsed {
        Err(error) => {
            let mut message = "invalid admin bind_addr ".to_owned();
            message.append(bind_addr);
            message.append(": ");
            message.append(error.as_str());
            Err(FeedError::Config(message))
        },
        Ok(address) => {
            if address.loopback {
                Ok(())
            } else {
                Err(
                    FeedError::Config(
                        "admin bind_addr must be loopback only, got ".to_owned().concat(
                            address.shown.as_str(),
                        ),
                    ),
                )
            }
        },
    }
}

/// A broker is logged in to, a token kept and strategies reloaded only where that is asked for by
/// its own path, and where it is set up.
pub proof fn actions_are_asked_for(request: HttpRequestFacts, state: AdminState)
    ensures
        ({
            let action = action_of(request, state);
            let acts = !(action is Answer);
            &&& acts ==> request.method == "POST"@
            &&& action is KeepFyersToken ==> request.path == "/admin/fyers/access-token"@
                && state.fyers_access_token_file is Some && action->token == request.body
                && action->file == state.fyers_access_token_file->0@
            &&& action is LoginDbinternational ==> request.path == "/admin/dbinternational/login"@
                && state.dbinternational
            &&& action is LoginMarketData ==> request.path
                == DBINTERNATIONAL_MARKET_DATA_LOGIN_PATH@ && state.dbinternational
            &&& action is LoginInteractive ==> request.path
                == DBINTERNATIONAL_INTERACTIVE_LOGIN_PATH@ && state.dbinternational
            &&& action is LoginAngelone ==> request.path == "/admin/angelone/login"@
                && state.angelone
            &&& action is ReloadStrategies ==> request.path == "/admin/strategy/reload"@
                && state.strategies
            &&& action is Answer ==> action->status == 200 || action->status == 404
            &&& action is Answer && action->status == 200 ==> request.method == "GET"@
                && request.path == "/health"@
        }),
{
}

/// A response ends with its body, and tells how many bytes that has.
pub proof fn responses_tell_their_length(status: u16, body: Seq<char>)
    ensures
        ends(response_of(status, body), body),
        holds(
            response_of(status, body),
            "\r\ncontent-type: text/plain\r\ncontent-length: "@ + decimal_of(
                encode_utf8(body).len(),
            ) + "\r\nconnection: close\r\n\r\n"@,
        ),
        starts(response_of(status, body), "HTTP/1.1 "@ + decimal_of(status as nat) + " "@),
{
    let start = "HTTP/1.1 "@ + decimal_of(status as nat) + " "@;
    let length = "\r\ncontent-type: text/plain\r\ncontent-length: "@;
    let bytes = decimal_of(encode_utf8(body).len());
    let end = "\r\nconnection: close\r\n\r\n"@;
    let head = start + reason_of(status) + length + bytes + end;
    parts_are_found(head, body, Seq::empty());
    middle_is_found(start + reason_of(status), length, bytes, end, body);
    start_is_found(start, reason_of(status), length, bytes, end, body);
}

proof fn middle_is_found(
    a: Seq<char>,
    b: Seq<char>,
    c: Seq<char>,
    d: Seq<char>,
    e: Seq<char>,
)
    ensures
        holds(a + b + c + d + e, b + c + d),
{
    assert(a + b + c + d + e =~= a + (b + c + d) + e);
    parts_are_found(a, b + c + d, e);
}

proof fn start_is_found(
    a: Seq<char>,
    b: Seq<char>,
    c: Seq<char>,
    d: Seq<char>,
    e: Seq<char>,
    f: Seq<char>,
)
    ensures
        starts(a + b + c + d + e + f, a),
{
    assert((a + b + c + d + e + f).take(a.len() as int) =~= a);
}

/// What logins came to is told in a line for each, in their order.
pub proof fn every_login_is_told(list: Seq<SummaryFacts>, i: int)
    requires
        0 <= i < list.len(),
    ensures
        summary_lines(list).len() == list.len() + 1,
        summary_lines(list)[i + 1] == summary_line(list[i]),
    decreases list.len(),
{
    let d = list.drop_last();
    reveal_with_fuel(summary_lines, 2);
    if i < d.len() {
        every_login_is_told(d, i);
        assert(d[i] == list[i]);
    } else if d.len() > 0 {
        every_login_is_told(d, 0);
    }
}

} // verus!
