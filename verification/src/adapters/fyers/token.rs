//! The access token of FYERS.
use crate::config::missing_env;
use crate::feeder::error::{outcome, FeedError, FeedFault};
use crate::text::{
    byte_len, chars_of, encoding_is_no_shorter, last_one_cuts, rsplit_once, rsplit_once_of, starts,
    starts_with, sub_text, trim, trim_of,
};
use vstd::prelude::*;
use vstd::utf8::encode_utf8;

verus! {

/// What the token file is to hold, for a token as it was handed in.
pub open spec fn token_file_of(token: Seq<char>) -> Result<Seq<char>, FeedFault> {
    let t = trim_of(token);
    if t.len() == 0 {
        Err(FeedFault::Config("FYERS access token cannot be empty"@))
    } else if encode_utf8(t).len() > 8_192 {
        Err(FeedFault::Config("FYERS access token is too large"@))
    } else {
        Ok(t + "\n"@)
    }
}

/// Checks a token that was handed in, and gives what the token file is to hold.
pub fn access_token_file_content(token: &str) -> (r: Result<String, FeedError>)
    ensures
        outcome(r) == token_file_of(token@),
{
    let t = trim(token);
    if t.as_str().is_empty() {
        return Err(FeedError::Config("FYERS access token cannot be empty".to_owned()));
    }
    if byte_len(t.as_str()) > 8_192 {
        return Err(FeedError::Config("FYERS access token is too large".to_owned()));
    }
    Ok(t.concat("\n"))
}

/// A text without a prefix that it may have.
pub open spec fn without_prefix(s: Seq<char>, p: Seq<char>) -> Seq<char> {
    if starts(s, p) {
        s.skip(p.len() as int)
    } else {
        s
    }
}

/// A token without the word that marks it as a bearer token.
pub open spec fn unmarked_of(value: Seq<char>) -> Seq<char> {
    let t = trim_of(value);
    if starts(t, "Bearer "@) {
        trim_of(without_prefix(t, "Bearer "@))
    } else {
        trim_of(without_prefix(t, "bearer "@))
    }
}

fn drop_prefix(s: &str, p: &str) -> (r: String)
    ensures
        r@ == without_prefix(s@, p@),
{
    if starts_with(s, p) {
        let v = chars_of(s);
        let n: usize = chars_of(p).len();
        assert(v@.subrange(n as int, v@.len() as int) =~= v@.skip(n as int));
        sub_text(&v, n, v.len())
    } else {
        s.to_owned()
    }
}

/// A token without the word that marks it as a bearer token.
pub fn strip_bearer_prefix(value: &str) -> (r: String)
    ensures
        r@ == unmarked_of(value@),
{
    let t = trim(value);
    let bare = if starts_with(t.as_str(), "Bearer ") {
        drop_prefix(t.as_str(), "Bearer ")
    } else {
        drop_prefix(t.as_str(), "bearer ")
    };
    trim(bare.as_str())
}

/// The token proper: what follows the last colon.
pub open spec fn jwt_of(access_token: Seq<char>) -> Result<Seq<char>, FeedFault> {
    let stripped = unmarked_of(access_token);
    let token = trim_of(
        match rsplit_once_of(stripped, ':') {
            Some((_, token)) => token,
            None => stripped,
        },
    );
    if token.len() == 0 {
        Err(FeedFault::Config("FYERS access token cannot be empty"@))
    } else {
        Ok(token)
    }
}

/// The token proper, without the application that may stand before it.
pub fn jwt_access_token_only(access_token: &str) -> (r: Result<String, FeedError>)
    ensures
        outcome(r) == jwt_of(access_token@),
{
    let stripped = strip_bearer_prefix(access_token);
    let token = match rsplit_once(stripped.as_str(), ':') {
        Some((_, token)) => trim(token.as_str()),
        None => trim(stripped.as_str()),
    };
    if token.as_str().is_empty() {
        return Err(FeedError::Config("FYERS access token cannot be empty".to_owned()));
    }
    Ok(token)
}

/// Where the application is to be looked up: a variable that has to be set, or one that
/// may be.
pub open spec fn application_of(
    stripped: Seq<char>,
    app_id_env: Option<Seq<char>>,
    env_value: Option<Seq<char>>,
    default_value: Option<Seq<char>>,
) -> Result<Seq<char>, FeedFault> {
    match app_id_env {
        Some(name) => match env_value {
            Some(value) => Ok(value),
            None => Err(FeedFault::Config("missing environment variable "@ + name)),
        },
        None => match default_value {
            Some(value) => Ok(value),
            None => match rsplit_once_of(stripped, ':') {
                Some((app_id, _)) => Ok(app_id),
                None => Err(
                    FeedFault::Config("missing FYERS app id for historical authorization"@),
                ),
            },
        },
    }
}

/// What history is asked for with.
pub open spec fn authorization_of(
    access_token: Seq<char>,
    app_id_env: Option<Seq<char>>,
    env_value: Option<Seq<char>>,
    default_value: Option<Seq<char>>,
) -> Result<Seq<char>, FeedFault> {
    let stripped = unmarked_of(access_token);
    match application_of(stripped, app_id_env, env_value, default_value) {
        Err(e) => Err(e),
        Ok(app_id) => match jwt_of(stripped) {
            Err(e) => Err(e),
            Ok(jwt) => Ok(trim_of(app_id) + ":"@ + jwt),
        },
    }
}

pub open spec fn str_facts(value: Option<&str>) -> Option<Seq<char>> {
    match value {
        Some(v) => Some(v@),
        None => None,
    }
}

/// What history is asked for with. `app_id_env` names the variable that holds the
/// application, where one is configured, and `env_value` is its value; `default_value` is
/// the value of the variable that is looked at where none is configured.
pub fn history_authorization_header(
    access_token: &str,
    app_id_env: Option<&str>,
    env_value: Option<&str>,
    default_value: Option<&str>,
) -> (r: Result<String, FeedError>)
    ensures
        outcome(r) == authorization_of(
            access_token@,
            str_facts(app_id_env),
            str_facts(env_value),
            str_facts(default_value),
        ),
{
    let stripped = strip_bearer_prefix(access_token);
    let app_id = match app_id_env {
        Some(name) => match env_value {
            Some(value) => value.to_owned(),
            None => return Err(missing_env(name)),
        },
        None => match default_value {
            Some(value) => value.to_owned(),
            None => match rsplit_once(stripped.as_str(), ':') {
                Some((app_id, _)) => app_id,
                None => return Err(
                    FeedError::Config(
                        "missing FYERS app id for historical authorization".to_owned(),
                    ),
                ),
            },
        },
    };
    match jwt_access_token_only(stripped.as_str()) {
        Ok(jwt) => {
            let mut out = trim(app_id.as_str());
            out.append(":");
            out.append(jwt.as_str());
            Ok(out)
        },
        Err(e) => Err(e),
    }
}

/// A token is kept as it is but for the blanks round it, and only where there is any of it and
/// not too much.
pub proof fn kept_tokens_are_whole(token: Seq<char>)
    ensures
        token_file_of(token) is Ok <==> 0 < encode_utf8(trim_of(token)).len() <= 8_192,
        token_file_of(token) is Ok ==> token_file_of(token)->Ok_0 == trim_of(token) + "\n"@,
{
    encoding_is_no_shorter(trim_of(token));
}

/// A token is read with or without the mark and the application in front of it: what stands
/// behind the last colon is the token itself.
pub proof fn marks_are_no_part_of_tokens(application: Seq<char>, token: Seq<char>)
    requires
        token.len() > 0,
        trim_of(token) == token,
        trim_of(application + ":"@ + token) == application + ":"@ + token,
        forall|i: int| 0 <= i < token.len() ==> token[i] != ':',
        !starts(application + ":"@ + token, "Bearer "@),
        !starts(application + ":"@ + token, "bearer "@),
        !starts(token, "Bearer "@),
        !starts(token, "bearer "@),
    ensures
        jwt_of(application + ":"@ + token) == Ok::<Seq<char>, FeedFault>(token),
        jwt_of(token) == Ok::<Seq<char>, FeedFault>(token),
        authorization_of(application + ":"@ + token, None, None, None) == Ok::<Seq<char>, FeedFault>(
            trim_of(application) + ":"@ + token,
        ),
{
    reveal_strlit(":");
    let whole = application + ":"@ + token;
    assert(whole =~= application + seq![':'] + token);
    last_one_cuts(application, ':', token);
}

/// The application that is named by the environment comes before the one that is set, and that
/// before the one that the token tells; a name that the environment does not have is a fault.
pub proof fn named_application_comes_first(
    access_token: Seq<char>,
    name: Seq<char>,
    value: Option<Seq<char>>,
    default_value: Option<Seq<char>>,
)
    requires
        jwt_of(unmarked_of(access_token)) is Ok,
    ensures
        value is None ==> authorization_of(access_token, Some(name), value, default_value) is Err,
        value is Some ==> authorization_of(access_token, Some(name), value, default_value) == Ok::<
            Seq<char>,
            FeedFault,
        >(trim_of(value->0) + ":"@ + jwt_of(unmarked_of(access_token))->Ok_0),
        default_value is Some ==> authorization_of(access_token, None, value, default_value) == Ok::<
            Seq<char>,
            FeedFault,
        >(trim_of(default_value->0) + ":"@ + jwt_of(unmarked_of(access_token))->Ok_0),
{
}

} // verus!
