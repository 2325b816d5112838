//! The market data of DBInternational: where it comes from, what is asked for, and what is
//! made of what comes.
use crate::adapters::dbinternational::auth::{
    envelope_of, is_success, response_envelope, tells_success, text_field, text_under,
};
use crate::adapters::dbinternational::master_catalog::{
    exchange_segment_code, instrument_key_from_token, key_of, resolved_of, segment_of,
    DbinternationalInstrumentKey, DbinternationalMasterCatalog, DbinternationalMasterInstrument,
    MasterFacts,
};
use crate::adapters::HttpReply;
use crate::binary64::{find_number, number_in, Decimal, Numbers, Real};
use crate::feeder::catalog::InstrumentDefinition;
use crate::feeder::error::{FeedError, FeedFault};
use crate::feeder::event::{
    is_price, price_fault, EventFacts, InstrumentName, Price, PriceEvent, PriceTick,
    TickFacts, UnixMillis,
};
use crate::json::{
    field_of, first_field, json_views, list_facts, parsed_text, read_json, room_of, rooms_of,
    string_of, value_field, Json, JsonFacts, Shape, ShapeFacts,
};
use crate::pairs::PairMap;
use crate::text::{
    brief, brief_of, chars_of, contains, decimal, decimal_of, drop_ending, drop_ending_of, holds,
    lower, lower_of, parse_of, parse_up_to, place, place_of, same, same_ignoring_case, split,
    split_of, starts, starts_with, str_views, strip_end, strip_end_of, strip_start, strip_start_of,
    sub_text, trim, trim_of, views,
};
use vstd::prelude::*;

verus! {

/// The code of the messages that are asked for and read.
pub const TOUCHLINE_MESSAGE_CODE: u16 = 1_501;

/// How many instruments are asked for at once.
pub const SUBSCRIPTION_CHUNK: usize = 100;

/// The address of the service for market data, for one that may name a part of it.
pub open spec fn market_base_of(value: Seq<char>) -> Seq<char> {
    drop_ending_of(
        drop_ending_of(
            drop_ending_of(strip_end_of(trim_of(value), '/'), "/instruments/subscription"@),
            "/instruments/master"@,
        ),
        "/auth/login"@,
    )
}

pub fn normalize_market_data_base_url(value: &str) -> (r: String)
    ensures
        r@ == market_base_of(value@),
{
    let a = strip_end(trim(value).as_str(), '/');
    let b = drop_ending(a.as_str(), "/instruments/subscription");
    let c = drop_ending(b.as_str(), "/instruments/master");
    drop_ending(c.as_str(), "/auth/login")
}

/// The scheme and the host of an address.
pub open spec fn root_of(base_url: Seq<char>) -> Result<Seq<char>, FeedFault> {
    let n = market_base_of(base_url);
    let at = place_of(n, "://"@);
    if at < 0 {
        Err(FeedFault::Config("invalid DBInternational base_url "@ + base_url))
    } else {
        let host = trim_of(split_of(n.skip(at + 3), '/')[0]);
        if at == 0 || host.len() == 0 {
            Err(FeedFault::Config("invalid DBInternational base_url "@ + base_url))
        } else {
            Ok(n.take(at) + "://"@ + host)
        }
    }
}

pub open spec fn text_outcome(r: Result<String, FeedError>) -> Result<Seq<char>, FeedFault> {
    match r {
        Ok(t) => Ok(t@),
        Err(e) => Err(e@),
    }
}

pub fn base_root_url(base_url: &str) -> (r: Result<String, FeedError>)
    ensures
        text_outcome(r) == root_of(base_url@),
{
    let n = normalize_market_data_base_url(base_url);
    let v = chars_of(n.as_str());
    proof {
        reveal_strlit("://");
    }
    let total: usize = v.len();
    match place(&v, &chars_of("://")) {
        None => Err(
            FeedError::Config("invalid DBInternational base_url ".to_owned().concat(base_url)),
        ),
        Some(at) => {
            let rest = sub_text(&v, at + 3, total);
            assert(rest@ =~= n@.skip(at + 3));
            let parts = split(rest.as_str(), '/');
            proof {
                crate::text::split_of_nonempty(rest@, '/');
            }
            assert(views(parts@)[0] == parts@[0]@);
            let host = trim(parts[0].as_str());
            if at == 0 || host.as_str().is_empty() {
                return Err(
                    FeedError::Config(
                        "invalid DBInternational base_url ".to_owned().concat(base_url),
                    ),
                );
            }
            let mut out = sub_text(&v, 0, at);
            assert(out@ =~= n@.take(at as int));
            out.append("://");
            out.append(host.as_str());
            Ok(out)
        },
    }
}

/// The address that the socket is opened at.
pub open spec fn socket_url_of(
    base_url: Seq<char>,
    token: Seq<char>,
    user_id: Seq<char>,
    publish_format: Seq<char>,
    broadcast_mode: Seq<char>,
) -> Result<Seq<char>, FeedFault> {
    match root_of(base_url) {
        Err(e) => Err(e),
        Ok(root) => Ok(
            root + "/?token="@ + trim_of(token) + "&userID="@ + trim_of(user_id)
                + "&publishFormat="@ + trim_of(publish_format) + "&broadcastMode="@ + trim_of(
                broadcast_mode,
            ),
        ),
    }
}

pub fn market_data_socket_url(
    base_url: &str,
    token: &str,
    user_id: &str,
    publish_format: &str,
    broadcast_mode: &str,
) -> (r: Result<String, FeedError>)
    ensures
        text_outcome(r) == socket_url_of(
            base_url@,
            token@,
            user_id@,
            publish_format@,
            broadcast_mode@,
        ),
{
    match base_root_url(base_url) {
        Err(e) => Err(e),
        Ok(root) => {
            let mut out = root;
            out.append("/?token=");
            out.append(trim(token).as_str());
            out.append("&userID=");
            out.append(trim(user_id).as_str());
            out.append("&publishFormat=");
            out.append(trim(publish_format).as_str());
            out.append("&broadcastMode=");
            out.append(trim(broadcast_mode).as_str());
            Ok(out)
        },
    }
}

/// The address that instruments are asked for at.
pub open spec fn subscription_url_of(base_url: Seq<char>) -> Result<Seq<char>, FeedFault> {
    let n = market_base_of(base_url);
    if n.len() == 0 {
        Err(FeedFault::Config("DBInternational market-data session base_url is empty"@))
    } else {
        Ok(n + "/instruments/subscription"@)
    }
}

pub fn market_data_subscription_url_from_base_url(base_url: &str) -> (r: Result<String, FeedError>)
    ensures
        text_outcome(r) == subscription_url_of(base_url@),
{
    let n = normalize_market_data_base_url(base_url);
    if n.as_str().is_empty() {
        return Err(
            FeedError::Config("DBInternational market-data session base_url is empty".to_owned()),
        );
    }
    Ok(n.concat("/instruments/subscription"))
}

/// The path that the socket's client is given, which adds the name of the protocol itself.
pub open spec fn socket_path_of(value: Seq<char>) -> Seq<char> {
    let a = strip_end_of(strip_start_of(trim_of(value), '/'), '/');
    let b = drop_ending_of(drop_ending_of(a, "/socket.io"@), "/socketio"@);
    if b.len() == 0 || lower_of(b) == lower_of("socket.io"@) || lower_of(b) == lower_of(
        "socketio"@,
    ) {
        "/"@
    } else {
        "/"@ + b
    }
}

pub fn socketio_manager_path(value: &str) -> (r: String)
    ensures
        r@ == socket_path_of(value@),
{
    let a = strip_end(strip_start(trim(value).as_str(), '/').as_str(), '/');
    let c = drop_ending(a.as_str(), "/socket.io");
    let b = drop_ending(c.as_str(), "/socketio");
    if b.as_str().is_empty() || same_ignoring_case(b.as_str(), "socket.io") || same_ignoring_case(
        b.as_str(),
        "socketio",
    ) {
        "/".to_owned()
    } else {
        "/".to_owned().concat(b.as_str())
    }
}

/// The user that a socket is opened for.
pub fn socket_user(user_id: &Option<String>) -> (r: Result<String, FeedError>)
    ensures
        match user_id {
            Some(user) => text_outcome(r) == Ok::<Seq<char>, FeedFault>(user@),
            None => text_outcome(r) == Err::<Seq<char>, FeedFault>(
                FeedFault::Config(
                    "DBInternational market-data session missing user_id for socket connection"@,
                ),
            ),
        },
{
    match user_id {
        Some(user) => Ok(user.clone()),
        None => Err(
            FeedError::Config(
                "DBInternational market-data session missing user_id for socket connection".to_owned(),
            ),
        ),
    }
}

/// An instrument that is asked for, by the name that it is known under.
#[derive(Debug)]
pub struct ResolvedInstrument {
    pub symbol: String,
    pub instrument: DbinternationalMasterInstrument,
}

/// An instrument that is asked for, as contracts speak of it.
pub struct ResolvedFacts {
    pub symbol: Seq<char>,
    pub instrument: MasterFacts,
}

impl View for ResolvedInstrument {
    type V = ResolvedFacts;

    open spec fn view(&self) -> ResolvedFacts {
        ResolvedFacts { symbol: self.symbol@, instrument: self.instrument@ }
    }
}

pub open spec fn resolved_views(v: Seq<ResolvedInstrument>) -> Seq<ResolvedFacts> {
    Seq::new(v.len(), |i: int| v[i]@)
}

/// The instruments that symbols name, or what is wrong with the first that names none.
pub open spec fn symbols_resolved(catalog: Seq<MasterFacts>, symbols: Seq<Seq<char>>) -> Result<
    Seq<ResolvedFacts>,
    FeedFault,
>
    decreases symbols.len(),
{
    if symbols.len() == 0 {
        Ok(Seq::empty())
    } else {
        match symbols_resolved(catalog, symbols.drop_last()) {
            Err(e) => Err(e),
            Ok(known) => match resolved_of(catalog, symbols.last()) {
                Err(e) => Err(e),
                Ok(instrument) => Ok(
                    known.push(ResolvedFacts { symbol: trim_of(symbols.last()), instrument }),
                ),
            },
        }
    }
}

proof fn symbols_fail(catalog: Seq<MasterFacts>, symbols: Seq<Seq<char>>, n: int)
    requires
        0 <= n <= symbols.len(),
        symbols_resolved(catalog, symbols.take(n)) is Err,
    ensures
        symbols_resolved(catalog, symbols) == symbols_resolved(catalog, symbols.take(n)),
    decreases symbols.len() - n,
{
    if n < symbols.len() {
        assert(symbols.take(n + 1).drop_last() =~= symbols.take(n));
        symbols_fail(catalog, symbols, n + 1);
    } else {
        assert(symbols.take(n) =~= symbols);
    }
}

pub open spec fn resolved_outcome(r: Result<Vec<ResolvedInstrument>, FeedError>) -> Result<
    Seq<ResolvedFacts>,
    FeedFault,
> {
    match r {
        Ok(list) => Ok(resolved_views(list@)),
        Err(e) => Err(e@),
    }
}

/// The instruments that symbols name.
pub fn resolve_subscription_symbols(
    catalog: &DbinternationalMasterCatalog,
    symbols: &Vec<String>,
) -> (r: Result<Vec<ResolvedInstrument>, FeedError>)
    ensures
        resolved_outcome(r) == symbols_resolved(catalog@, views(symbols@)),
{
    let ghost all = views(symbols@);
    let mut out: Vec<ResolvedInstrument> = Vec::new();
    let mut i: usize = 0;
    assert(all.take(0) =~= Seq::empty());
    assert(resolved_views(out@) =~= Seq::empty());
    while i < symbols.len()
        invariant
            i <= symbols@.len(),
            all == views(symbols@),
            symbols_resolved(catalog@, all.take(i as int)) == Ok::<Seq<ResolvedFacts>, FeedFault>(
                resolved_views(out@),
            ),
        decreases symbols@.len() - i,
    {
        let ghost before = resolved_views(out@);
        assert(all.take(i + 1).drop_last() =~= all.take(i as int));
        assert(all.take(i + 1).last() == symbols@[i as int]@);
        match catalog.resolve_symbol(symbols[i].as_str()) {
            Ok(instrument) => {
                let item = ResolvedInstrument { symbol: trim(symbols[i].as_str()), instrument };
                let ghost facts = item@;
                out.push(item);
                assert(resolved_views(out@) =~= before.push(facts));
            },
            Err(e) => {
                proof {
                    symbols_fail(catalog@, all, i + 1);
                }
                return Err(e);
            },
        }
        i += 1;
    }
    assert(all.take(i as int) =~= all);
    Ok(out)
}

/// The instruments of a universe as they are asked for, or what is wrong with the token of
/// the first that cannot be.
pub open spec fn definitions_resolved(
    tokens: Seq<Seq<char>>,
    symbols: Seq<Seq<char>>,
) -> Result<Seq<ResolvedFacts>, FeedFault>
    decreases tokens.len(),
{
    if tokens.len() == 0 {
        Ok(Seq::empty())
    } else {
        match definitions_resolved(tokens.drop_last(), symbols) {
            Err(e) => Err(e),
            Ok(known) => match key_of(tokens.last()) {
                Err(e) => Err(e),
                Ok(key) => {
                    let symbol = symbols[tokens.len() - 1];
                    Ok(
                        known.push(
                            ResolvedFacts {
                                symbol,
                                instrument: MasterFacts { key, aliases: seq![symbol] },
                            },
                        ),
                    )
                },
            },
        }
    }
}

proof fn definitions_fail(tokens: Seq<Seq<char>>, symbols: Seq<Seq<char>>, n: int)
    requires
        0 <= n <= tokens.len(),
        definitions_resolved(tokens.take(n), symbols) is Err,
    ensures
        definitions_resolved(tokens, symbols) == definitions_resolved(tokens.take(n), symbols),
    decreases tokens.len() - n,
{
    if n < tokens.len() {
        assert(tokens.take(n + 1).drop_last() =~= tokens.take(n));
        definitions_fail(tokens, symbols, n + 1);
    } else {
        assert(tokens.take(n) =~= tokens);
    }
}

/// The tokens of a list of instruments.
pub open spec fn tokens_of(v: Seq<InstrumentDefinition>) -> Seq<Seq<char>> {
    Seq::new(v.len(), |i: int| v[i].instrument_token@)
}

/// The trading symbols of a list of instruments.
pub open spec fn symbols_of(v: Seq<InstrumentDefinition>) -> Seq<Seq<char>> {
    Seq::new(v.len(), |i: int| v[i].trading_symbol@)
}

/// The instruments of a universe as they are asked for.
pub fn resolve_subscription_instruments(instruments: &Vec<InstrumentDefinition>) -> (r: Result<
    Vec<ResolvedInstrument>,
    FeedError,
>)
    ensures
        resolved_outcome(r) == definitions_resolved(
            tokens_of(instruments@),
            symbols_of(instruments@),
        ),
{
    let ghost tokens = tokens_of(instruments@);
    let ghost symbols = symbols_of(instruments@);
    let mut out: Vec<ResolvedInstrument> = Vec::new();
    let mut i: usize = 0;
    assert(tokens.take(0) =~= Seq::empty());
    assert(resolved_views(out@) =~= Seq::empty());
    while i < instruments.len()
        invariant
            i <= instruments@.len(),
            tokens == tokens_of(instruments@),
            symbols == symbols_of(instruments@),
            definitions_resolved(tokens.take(i as int), symbols) == Ok::<
                Seq<ResolvedFacts>,
                FeedFault,
            >(resolved_views(out@)),
        decreases instruments@.len() - i,
    {
        let ghost before = resolved_views(out@);
        assert(tokens.take(i + 1).drop_last() =~= tokens.take(i as int));
        match instrument_key_from_token(instruments[i].instrument_token.as_str()) {
            Ok(key) => {
                let symbol = instruments[i].trading_symbol.clone();
                let mut aliases: Vec<String> = Vec::new();
                aliases.push(instruments[i].trading_symbol.clone());
                assert(views(aliases@) =~= seq![symbol@]);
                let item = ResolvedInstrument {
                    symbol,
                    instrument: DbinternationalMasterInstrument { key, aliases },
                };
                let ghost facts = item@;
                out.push(item);
                assert(resolved_views(out@) =~= before.push(facts));
            },
            Err(e) => {
                proof {
                    definitions_fail(tokens, symbols, i + 1);
                }
                return Err(e);
            },
        }
        i += 1;
    }
    assert(tokens.take(i as int) =~= tokens);
    Ok(out)
}

/// Refuses to ask for nothing.
pub fn check_symbols(symbols: &Vec<String>) -> (r: Option<FeedError>)
    ensures
        match r {
            Some(e) => symbols@.len() == 0 && e@ == FeedFault::Config(
                "DBInternational subscription symbols cannot be empty"@,
            ),
            None => symbols@.len() > 0,
        },
{
    if symbols.len() == 0 {
        Some(
            FeedError::Config("DBInternational subscription symbols cannot be empty".to_owned()),
        )
    } else {
        None
    }
}

/// The keys of the instruments that are asked for.
pub open spec fn keys_of(list: Seq<ResolvedFacts>) -> Seq<DbinternationalInstrumentKey> {
    Seq::new(list.len(), |i: int| list[i].instrument.key)
}

/// The end of a chunk that begins at a place.
pub open spec fn chunk_end(at: int, len: int) -> int {
    if at + SUBSCRIPTION_CHUNK <= len {
        at + SUBSCRIPTION_CHUNK
    } else {
        len
    }
}

/// The keys that are asked for at once, from a place on. Asking from where the last chunk
/// ended, until nothing is left, asks for each once.
pub fn subscription_chunk(resolved: &Vec<ResolvedInstrument>, from: usize) -> (r: Vec<
    DbinternationalInstrumentKey,
>)
    requires
        from <= resolved@.len(),
    ensures
        r@ == keys_of(resolved_views(resolved@)).subrange(
            from as int,
            chunk_end(from as int, resolved@.len() as int),
        ),
{
    let n: usize = resolved.len();
    let to: usize = if n - from <= SUBSCRIPTION_CHUNK {
        n
    } else {
        from + SUBSCRIPTION_CHUNK
    };
    let ghost keys = keys_of(resolved_views(resolved@));
    let mut out: Vec<DbinternationalInstrumentKey> = Vec::new();
    let mut i: usize = from;
    while i < to
        invariant
            from <= i <= to <= resolved@.len(),
            keys == keys_of(resolved_views(resolved@)),
            out@ == keys.subrange(from as int, i as int),
        decreases to - i,
    {
        out.push(resolved[i].instrument.key);
        i += 1;
        assert(keys.subrange(from as int, i as int) =~= keys.subrange(from as int, i - 1).push(
            keys[i - 1],
        ));
    }
    out
}

/// The names that instruments are known under.
pub type InstrumentNames = PairMap<InstrumentName>;

pub open spec fn pair_of(key: DbinternationalInstrumentKey) -> (u64, u64) {
    (key.exchange_segment as u64, key.exchange_instrument_id)
}

/// The names after some instruments were asked for.
pub open spec fn names_with(
    names: Map<(u64, u64), Seq<char>>,
    list: Seq<ResolvedFacts>,
) -> Map<(u64, u64), Seq<char>>
    decreases list.len(),
{
    if list.len() == 0 {
        names
    } else {
        names_with(names, list.drop_last()).insert(
            pair_of(list.last().instrument.key),
            trim_of(list.last().symbol),
        )
    }
}

/// The names after some instruments are no longer asked for.
pub open spec fn names_without(
    names: Map<(u64, u64), Seq<char>>,
    list: Seq<ResolvedFacts>,
) -> Map<(u64, u64), Seq<char>>
    decreases list.len(),
{
    if list.len() == 0 {
        names
    } else {
        names_without(names, list.drop_last()).remove(pair_of(list.last().instrument.key))
    }
}

/// The names of a table, as contracts speak of them.
pub open spec fn name_texts(names: Map<(u64, u64), InstrumentName>) -> Map<(u64, u64), Seq<char>> {
    Map::new(|k: (u64, u64)| names.contains_key(k), |k: (u64, u64)| names[k]@)
}

/// Notes the names of instruments that are asked for.
pub fn learn_names(names: &mut InstrumentNames, resolved: &Vec<ResolvedInstrument>)
    ensures
        name_texts(final(names)@) == names_with(
            name_texts(old(names)@),
            resolved_views(resolved@),
        ),
{
    let ghost list = resolved_views(resolved@);
    let ghost first = name_texts(names@);
    let mut i: usize = 0;
    assert(list.take(0) =~= Seq::empty());
    while i < resolved.len()
        invariant
            i <= resolved@.len(),
            list == resolved_views(resolved@),
            name_texts(names@) == names_with(first, list.take(i as int)),
        decreases resolved@.len() - i,
    {
        let ghost before = names@;
        let key: DbinternationalInstrumentKey = resolved[i].instrument.key;
        let name = InstrumentName::new(trim(resolved[i].symbol.as_str()).as_str());
        let ghost text = name@;
        names.insert((key.exchange_segment as u64, key.exchange_instrument_id), name);
        i += 1;
        assert(list.take(i as int).drop_last() =~= list.take(i - 1));
        assert(name_texts(names@) =~= name_texts(before).insert(pair_of(key), text));
    }
    assert(list.take(i as int) =~= list);
}

/// Forgets the names of instruments that are no longer asked for.
pub fn forget_names(names: &mut InstrumentNames, resolved: &Vec<ResolvedInstrument>)
    ensures
        name_texts(final(names)@) == names_without(
            name_texts(old(names)@),
            resolved_views(resolved@),
        ),
{
    let ghost list = resolved_views(resolved@);
    let ghost first = name_texts(names@);
    let mut i: usize = 0;
    assert(list.take(0) =~= Seq::empty());
    while i < resolved.len()
        invariant
            i <= resolved@.len(),
            list == resolved_views(resolved@),
            name_texts(names@) == names_without(first, list.take(i as int)),
        decreases resolved@.len() - i,
    {
        let ghost before = names@;
        let key: DbinternationalInstrumentKey = resolved[i].instrument.key;
        let _name = names.remove((key.exchange_segment as u64, key.exchange_instrument_id));
        i += 1;
        assert(list.take(i as int).drop_last() =~= list.take(i - 1));
        assert(name_texts(names@) =~= name_texts(before).remove(pair_of(key)));
    }
    assert(list.take(i as int) =~= list);
}

/// Once instruments are no longer asked for, none of them is known by name, and every
/// other is known as before.
pub proof fn forgetting_is_complete(
    names: Map<(u64, u64), Seq<char>>,
    list: Seq<ResolvedFacts>,
    key: (u64, u64),
)
    ensures
        names_without(names, list).contains_key(key) == (names.contains_key(key) && forall|i: int|
            0 <= i < list.len() ==> pair_of((#[trigger] list[i]).instrument.key) != key),
        names_without(names, list).contains_key(key) ==> names_without(names, list)[key]
            == names[key],
    decreases list.len(),
{
    if list.len() > 0 {
        let d = list.drop_last();
        forgetting_is_complete(names, d, key);
        assert(forall|i: int| 0 <= i < d.len() ==> d[i] == list[i]);
        if pair_of(list.last().instrument.key) == key {
            assert(pair_of(list[list.len() - 1].instrument.key) == key);
        } else if forall|i: int|
            0 <= i < d.len() ==> pair_of((#[trigger] d[i]).instrument.key) != key {
            assert forall|i: int| 0 <= i < list.len() implies pair_of(
                (#[trigger] list[i]).instrument.key,
            ) != key by {
                if i < d.len() {
                    assert(pair_of(d[i].instrument.key) != key);
                }
            }
        } else {
            let i = choose|i: int|
                0 <= i < d.len() && pair_of((#[trigger] d[i]).instrument.key) == key;
            assert(pair_of(list[i].instrument.key) == key);
        }
    }
}

/// Whether an answer says that instruments are being sent already.
pub open spec fn already_subscribed(json: JsonFacts) -> bool {
    match envelope_of(json) {
        None => false,
        Some(envelope) => text_under(envelope, "code"@) == Some("e-session-0002"@) || (
        text_under(envelope, "description"@) is Some && holds(
            lower_of(text_under(envelope, "description"@)->0),
            "already subscribed"@,
        )),
    }
}

pub fn subscription_already_exists(json: &Json) -> (r: bool)
    ensures
        r == already_subscribed(json@),
{
    match response_envelope(json) {
        None => false,
        Some(envelope) => {
            let by_code = match text_field(envelope, "code") {
                Some(code) => same(code, "e-session-0002"),
                None => false,
            };
            let by_description = match text_field(envelope, "description") {
                Some(description) => contains(lower(description).as_str(), "already subscribed"),
                None => false,
            };
            by_code || by_description
        },
    }
}

/// What is wrong with an answer, for what was asked: `asked` is "subscription" or
/// "unsubscription".
pub open spec fn answer_fault(
    asked: Seq<char>,
    url: Seq<char>,
    reply: HttpReply,
    json: JsonFacts,
) -> Option<FeedFault> {
    if !reply.success {
        Some(
            FeedFault::Http(
                "DBInternational "@ + asked + " failed url="@ + url + " status="@ + decimal_of(
                    reply.status as nat,
                ) + " body="@ + brief_of(reply.body@, 500),
            ),
        )
    } else {
        match envelope_of(json) {
            None => Some(
                FeedFault::Parse("DBInternational "@ + asked + " response envelope is empty"@),
            ),
            Some(envelope) => if tells_success(envelope) {
                None
            } else {
                Some(
                    FeedFault::Http(
                        "DBInternational "@ + asked + " returned non-success response: "@
                            + brief_of(envelope.text, 500),
                    ),
                )
            },
        }
    }
}

pub open spec fn fault_option(e: Option<FeedError>) -> Option<FeedFault> {
    match e {
        Some(e) => Some(e@),
        None => None,
    }
}

fn check_answer(asked: &str, url: &str, reply: &HttpReply, json: &Json) -> (r: Option<FeedError>)
    ensures
        fault_option(r) == answer_fault(asked@, url@, *reply, json@),
{
    let mut message = "DBInternational ".to_owned();
    message.append(asked);
    if !reply.success {
        message.append(" failed url=");
        message.append(url);
        message.append(" status=");
        message.append(decimal(reply.status as u64).as_str());
        message.append(" body=");
        message.append(brief(reply.body.as_str(), 500).as_str());
        return Some(FeedError::Http(message));
    }
    match response_envelope(json) {
        None => {
            message.append(" response envelope is empty");
            Some(FeedError::Parse(message))
        },
        Some(envelope) => {
            if is_success(envelope) {
                return None;
            }
            message.append(" returned non-success response: ");
            message.append(brief(envelope.text.as_str(), 500).as_str());
            Some(FeedError::Http(message))
        },
    }
}

/// What is wrong with the answer to asking for instruments. That they are being sent
/// already is not.
pub open spec fn subscription_fault(url: Seq<char>, reply: HttpReply, json: JsonFacts) -> Option<
    FeedFault,
> {
    if !reply.success && already_subscribed(json) {
        None
    } else {
        answer_fault("subscription"@, url, reply, json)
    }
}

pub fn check_subscription(url: &str, reply: &HttpReply, json: &Json) -> (r: Option<FeedError>)
    ensures
        fault_option(r) == subscription_fault(url@, *reply, json@),
{
    if !reply.success && subscription_already_exists(json) {
        None
    } else {
        check_answer("subscription", url, reply, json)
    }
}

/// What is wrong with the answer to no longer asking for instruments.
pub fn check_unsubscription(url: &str, reply: &HttpReply, json: &Json) -> (r: Option<FeedError>)
    ensures
        fault_option(r) == answer_fault("unsubscription"@, url@, *reply, json@),
{
    check_answer("unsubscription", url, reply, json)
}

/// Reads the answer to asking for instruments.
pub fn subscribe_chunk(url: &str, reply: &HttpReply) -> (r: Result<Json, FeedError>)
    ensures
        match parsed_text(reply.body@) {
            Err(e) => r matches Err(error) && error@ == FeedFault::Parse(e),
            Ok(json) => match subscription_fault(url@, *reply, json) {
                Some(fault) => r matches Err(error) && error@ == fault,
                None => r matches Ok(value) && value@ == json,
            },
        },
{
    match read_json(reply.body.as_str()) {
        Err(e) => Err(FeedError::Parse(e)),
        Ok(json) => match check_subscription(url, reply, &json) {
            Some(e) => Err(e),
            None => Ok(json),
        },
    }
}

/// Reads the answer to no longer asking for instruments.
pub fn unsubscribe_chunk(url: &str, reply: &HttpReply) -> (r: Option<FeedError>)
    ensures
        fault_option(r) == match parsed_text(reply.body@) {
            Err(e) => Some(FeedFault::Parse(e)),
            Ok(json) => answer_fault("unsubscription"@, url@, *reply, json),
        },
{
    match read_json(reply.body.as_str()) {
        Err(e) => Some(FeedError::Parse(e)),
        Ok(json) => check_unsubscription(url, reply, &json),
    }
}

/// What is wrong with a tick.
#[derive(Debug)]
pub enum TickFault {
    /// A price that can be none, as a text or a binary message gave it.
    Price { binary: bool, price: Real },
    Feed(FeedError),
}

/// What is wrong with a tick, as contracts speak of it.
pub enum TickFaultFacts {
    Price { binary: bool, price: Real },
    Feed(FeedFault),
}

impl View for TickFault {
    type V = TickFaultFacts;

    open spec fn view(&self) -> TickFaultFacts {
        match self {
            TickFault::Price { binary, price } => TickFaultFacts::Price {
                binary: *binary,
                price: *price,
            },
            TickFault::Feed(e) => TickFaultFacts::Feed(e@),
        }
    }
}

/// What is wrong with a tick, as it is told; `told` is the text of the price.
pub fn tick_error(fault: TickFault, told: &str) -> (r: FeedError)
    ensures
        r@ == match fault@ {
            TickFaultFacts::Price { binary: true, .. } => FeedFault::Parse(
                "invalid DBInternational binary tick price "@ + told@ + ": "@ + price_fault(),
            ),
            TickFaultFacts::Price { binary: false, .. } => FeedFault::Parse(
                "invalid DBInternational tick price "@ + told@ + ": "@ + price_fault(),
            ),
            TickFaultFacts::Feed(e) => e,
        },
{
    match fault {
        TickFault::Price { binary, .. } => {
            let mut message = if binary {
                "invalid DBInternational binary tick price ".to_owned()
            } else {
                "invalid DBInternational tick price ".to_owned()
            };
            message.append(told);
            message.append(": ");
            message.append("price must be finite and positive");
            FeedError::Parse(message)
        },
        TickFault::Feed(e) => e,
    }
}

/// The ticks of a message, up to one that is at fault.
#[derive(Debug)]
pub struct TickBatch {
    pub events: Vec<PriceEvent>,
    pub fault: Option<TickFault>,
}

/// The ticks of a message, as contracts speak of them.
pub struct BatchFacts {
    pub events: Seq<EventFacts>,
    pub fault: Option<TickFaultFacts>,
}

impl View for TickBatch {
    type V = BatchFacts;

    open spec fn view(&self) -> BatchFacts {
        BatchFacts {
            events: event_list(self.events@),
            fault: match self.fault {
                Some(f) => Some(f@),
                None => None,
            },
        }
    }
}

/// The events of a list, as contracts speak of them.
pub open spec fn event_list(v: Seq<PriceEvent>) -> Seq<EventFacts> {
    Seq::new(v.len(), |i: int| v[i]@)
}

/// No ticks.
pub open spec fn nothing() -> BatchFacts {
    BatchFacts { events: Seq::empty(), fault: None }
}

/// Ticks, and behind them others, unless there is a fault before.
pub open spec fn followed(a: BatchFacts, b: BatchFacts) -> BatchFacts {
    if a.fault is Some {
        a
    } else {
        BatchFacts { events: a.events + b.events, fault: b.fault }
    }
}

/// What came of reading one tick.
pub open spec fn batch_of(r: Result<Option<EventFacts>, TickFaultFacts>) -> BatchFacts {
    match r {
        Ok(Some(event)) => BatchFacts { events: seq![event], fault: None },
        Ok(None) => nothing(),
        Err(fault) => BatchFacts { events: Seq::empty(), fault: Some(fault) },
    }
}

pub open spec fn tick_outcome(r: Result<Option<PriceEvent>, TickFault>) -> Result<
    Option<EventFacts>,
    TickFaultFacts,
> {
    match r {
        Ok(Some(event)) => Ok(Some(event@)),
        Ok(None) => Ok(None),
        Err(fault) => Err(fault@),
    }
}

impl TickBatch {
    pub fn new() -> (r: TickBatch)
        ensures
            r@ == nothing(),
    {
        let r = TickBatch { events: Vec::new(), fault: None };
        assert(event_list(r.events@) =~= Seq::empty());
        r
    }

    pub fn of(tick: Result<Option<PriceEvent>, TickFault>) -> (r: TickBatch)
        ensures
            r@ == batch_of(tick_outcome(tick)),
    {
        match tick {
            Ok(Some(event)) => {
                let mut events: Vec<PriceEvent> = Vec::new();
                let ghost facts = event@;
                events.push(event);
                assert(event_list(events@) =~= seq![facts]);
                TickBatch { events, fault: None }
            },
            Ok(None) => TickBatch::new(),
            Err(fault) => {
                let r = TickBatch { events: Vec::new(), fault: Some(fault) };
                assert(event_list(r.events@) =~= Seq::empty());
                r
            },
        }
    }

    pub fn failed(error: FeedError) -> (r: TickBatch)
        ensures
            r@ == (BatchFacts {
                events: Seq::empty(),
                fault: Some(TickFaultFacts::Feed(error@)),
            }),
    {
        let r = TickBatch { events: Vec::new(), fault: Some(TickFault::Feed(error)) };
        assert(event_list(r.events@) =~= Seq::empty());
        r
    }

    pub fn follow(self, other: TickBatch) -> (r: TickBatch)
        requires
            self@.fault is None,
        ensures
            r@ == followed(self@, other@),
    {
        let mut all = self.events;
        let mut more = other.events;
        let ghost a = event_list(all@);
        let ghost b = event_list(more@);
        all.append(&mut more);
        assert(event_list(all@) =~= a + b);
        TickBatch { events: all, fault: other.fault }
    }
}

/// The whole part of a value, where it is finite and not negative.
pub open spec fn whole_of(value: Real) -> Option<u64> {
    if value.is_finite() && (Real { bits: 0 }).le_of(value) {
        Some(value.whole_part() as u64)
    } else {
        None
    }
}

fn whole(value: Real) -> (r: Option<u64>)
    ensures
        r == whole_of(value),
{
    if value.finite() && (Real { bits: 0 }).at_most(value) {
        Some(value.to_whole())
    } else {
        None
    }
}

/// A value as a number that is not negative and has no fraction. `numbers` tells what
/// texts denote.
pub open spec fn count_of(json: JsonFacts, numbers: Map<Seq<char>, Decimal>) -> Option<u64> {
    match json.shape {
        ShapeFacts::Number { unsigned: Some(n), .. } => Some(n),
        ShapeFacts::Number { signed: Some(n), .. } if n >= 0 => Some(n as u64),
        ShapeFacts::Number { value: Some(value), .. } => whole_of(value),
        ShapeFacts::Text(t) => match parse_of(trim_of(t), u64::MAX as nat) {
            Some(n) => Some(n as u64),
            None => match number_in(numbers, trim_of(t)) {
                Some(d) => whole_of(d.value),
                None => None,
            },
        },
        _ => None,
    }
}

pub fn value_as_u64(json: &Json, numbers: &Numbers) -> (r: Option<u64>)
    ensures
        r == count_of(json@, numbers@),
{
    match &json.shape {
        Shape::Number { unsigned, signed, value } => {
            if let Some(n) = unsigned {
                return Some(*n);
            }
            if let Some(n) = signed {
                let k: i64 = *n;
                if k >= 0 {
                    return Some(k as u64);
                }
            }
            match value {
                Some(v) => whole(*v),
                None => None,
            }
        },
        Shape::Text(t) => {
            let text = trim(t.as_str());
            match parse_up_to(text.as_str(), u64::MAX) {
                Some(n) => Some(n),
                None => match find_number(numbers, text.as_str()) {
                    Some(d) => whole(d.value),
                    None => None,
                },
            }
        },
        _ => None,
    }
}

/// A value as a number.
pub open spec fn real_of(json: JsonFacts, numbers: Map<Seq<char>, Decimal>) -> Option<Real> {
    match json.shape {
        ShapeFacts::Number { value, .. } => value,
        ShapeFacts::Text(t) => match number_in(numbers, trim_of(t)) {
            Some(d) => Some(d.value),
            None => None,
        },
        _ => None,
    }
}

pub fn value_as_real(json: &Json, numbers: &Numbers) -> (r: Option<Real>)
    ensures
        r == real_of(json@, numbers@),
{
    match &json.shape {
        Shape::Number { value, .. } => *value,
        Shape::Text(t) => match find_number(numbers, trim(t.as_str()).as_str()) {
            Some(d) => Some(d.value),
            None => None,
        },
        _ => None,
    }
}

/// A value as the number of an exchange segment.
pub open spec fn segment_in(json: JsonFacts, numbers: Map<Seq<char>, Decimal>) -> Option<u16> {
    match count_of(json, numbers) {
        Some(n) if n <= u16::MAX => Some(n as u16),
        _ => match string_of(json) {
            Some(label) => segment_of(trim_of(label)),
            None => None,
        },
    }
}

pub fn parse_segment(json: &Json, numbers: &Numbers) -> (r: Option<u16>)
    ensures
        r == segment_in(json@, numbers@),
{
    if let Some(n) = value_as_u64(json, numbers) {
        if n <= u16::MAX as u64 {
            return Some(n as u16);
        }
    }
    match json.as_str() {
        Some(label) => exchange_segment_code(trim(label).as_str()),
        None => None,
    }
}

pub open spec fn segment_keys() -> Seq<Seq<char>> {
    seq!["ExchangeSegment"@, "exchangeSegment"@]
}

pub open spec fn id_keys() -> Seq<Seq<char>> {
    seq!["ExchangeInstrumentID"@, "exchangeInstrumentID"@, "exchangeInstrumentId"@]
}

pub open spec fn price_keys() -> Seq<Seq<char>> {
    seq!["LastTradedPrice"@, "lastTradedPrice"@]
}

pub open spec fn time_keys() -> Seq<Seq<char>> {
    seq![
        "LastUpdateTime"@,
        "lastUpdateTime"@,
        "LastTradedTime"@,
        "lastTradedTime"@,
        "ExchangeTimeStamp"@,
        "exchangeTimeStamp"@,
    ]
}

/// The instrument of a tick.
pub open spec fn tick_key_of(json: JsonFacts, numbers: Map<Seq<char>, Decimal>) -> Option<
    DbinternationalInstrumentKey,
> {
    match first_field(json, segment_keys()) {
        None => None,
        Some(segment) => match segment_in(segment, numbers) {
            None => None,
            Some(exchange_segment) => match first_field(json, id_keys()) {
                None => None,
                Some(id) => match count_of(id, numbers) {
                    None => None,
                    Some(exchange_instrument_id) => Some(
                        DbinternationalInstrumentKey { exchange_segment, exchange_instrument_id },
                    ),
                },
            },
        },
    }
}

pub fn tick_instrument_key(json: &Json, numbers: &Numbers) -> (r: Option<
    DbinternationalInstrumentKey,
>)
    ensures
        r == tick_key_of(json@, numbers@),
{
    let keys: Vec<&'static str> = vec!["ExchangeSegment", "exchangeSegment"];
    assert(str_views(keys@) =~= segment_keys());
    let exchange_segment: u16 = match value_field(json, &keys) {
        None => return None,
        Some(segment) => match parse_segment(segment, numbers) {
            None => return None,
            Some(code) => code,
        },
    };
    let keys: Vec<&'static str> = vec![
        "ExchangeInstrumentID",
        "exchangeInstrumentID",
        "exchangeInstrumentId",
    ];
    assert(str_views(keys@) =~= id_keys());
    match value_field(json, &keys) {
        None => None,
        Some(id) => match value_as_u64(id, numbers) {
            None => None,
            Some(exchange_instrument_id) => Some(
                DbinternationalInstrumentKey { exchange_segment, exchange_instrument_id },
            ),
        },
    }
}

/// The price in a value.
pub open spec fn price_in(json: JsonFacts, numbers: Map<Seq<char>, Decimal>) -> Option<Real> {
    match first_field(json, price_keys()) {
        Some(value) => real_of(value, numbers),
        None => None,
    }
}

/// The price of a tick: its own, or the one of its touchline.
pub open spec fn tick_price_of(json: JsonFacts, numbers: Map<Seq<char>, Decimal>) -> Option<Real> {
    match price_in(json, numbers) {
        Some(price) => Some(price),
        None => match field_of(json, "Touchline"@) {
            Some(touchline) => price_in(touchline, numbers),
            None => match field_of(json, "touchline"@) {
                Some(touchline) => price_in(touchline, numbers),
                None => None,
            },
        },
    }
}

fn find_price(json: &Json, numbers: &Numbers) -> (r: Option<Real>)
    ensures
        r == price_in(json@, numbers@),
{
    let keys: Vec<&'static str> = vec!["LastTradedPrice", "lastTradedPrice"];
    assert(str_views(keys@) =~= price_keys());
    match value_field(json, &keys) {
        Some(value) => value_as_real(value, numbers),
        None => None,
    }
}

pub fn tick_ltp(json: &Json, numbers: &Numbers) -> (r: Option<Real>)
    ensures
        r == tick_price_of(json@, numbers@),
{
    match find_price(json, numbers) {
        Some(price) => Some(price),
        None => match json.field("Touchline") {
            Some(touchline) => find_price(touchline, numbers),
            None => match json.field("touchline") {
                Some(touchline) => find_price(touchline, numbers),
                None => None,
            },
        },
    }
}

/// A time that is in seconds or in milliseconds, in milliseconds.
pub open spec fn millis_of(time: u64) -> u64 {
    if time < 100_000_000_000 {
        (time * 1_000) as u64
    } else {
        time
    }
}

pub fn seconds_or_millis_to_millis(seconds_or_millis: u64) -> (r: u64)
    ensures
        r == millis_of(seconds_or_millis),
{
    if seconds_or_millis < 100_000_000_000 {
        seconds_or_millis * 1_000
    } else {
        seconds_or_millis
    }
}

/// The time of a tick.
pub open spec fn tick_time_of(json: JsonFacts, numbers: Map<Seq<char>, Decimal>) -> Option<u64> {
    match first_field(json, time_keys()) {
        None => None,
        Some(value) => match count_of(value, numbers) {
            None => None,
            Some(time) => Some(millis_of(time)),
        },
    }
}

pub fn tick_time_millis(json: &Json, numbers: &Numbers) -> (r: Option<u64>)
    ensures
        r == tick_time_of(json@, numbers@),
{
    let keys: Vec<&'static str> = vec![
        "LastUpdateTime",
        "lastUpdateTime",
        "LastTradedTime",
        "lastTradedTime",
        "ExchangeTimeStamp",
        "exchangeTimeStamp",
    ];
    assert(str_views(keys@) =~= time_keys());
    match value_field(json, &keys) {
        None => None,
        Some(value) => match value_as_u64(value, numbers) {
            None => None,
            Some(time) => Some(seconds_or_millis_to_millis(time)),
        },
    }
}

/// The name of an instrument: the one that it is known under, or one made of its key.
pub open spec fn name_of(
    key: DbinternationalInstrumentKey,
    names: Map<(u64, u64), InstrumentName>,
) -> Seq<char> {
    if names.contains_key(pair_of(key)) {
        names[pair_of(key)]@
    } else {
        "DBINTERNATIONAL:"@ + decimal_of(key.exchange_segment as nat) + ":"@ + decimal_of(
            key.exchange_instrument_id as nat,
        )
    }
}

pub fn instrument_name(key: DbinternationalInstrumentKey, names: &InstrumentNames) -> (r:
    InstrumentName)
    ensures
        r@ == name_of(key, names@),
{
    match names.get((key.exchange_segment as u64, key.exchange_instrument_id)) {
        Some(name) => name.clone(),
        None => {
            let mut text = "DBINTERNATIONAL:".to_owned();
            text.append(decimal(key.exchange_segment as u64).as_str());
            text.append(":");
            text.append(decimal(key.exchange_instrument_id).as_str());
            InstrumentName::new(text.as_str())
        },
    }
}

/// The tick that an object gives, at a moment.
pub open spec fn tick_of(
    json: JsonFacts,
    names: Map<(u64, u64), InstrumentName>,
    numbers: Map<Seq<char>, Decimal>,
    now: u64,
) -> Result<Option<EventFacts>, TickFaultFacts> {
    match tick_key_of(json, numbers) {
        None => Ok(None),
        Some(key) => match tick_price_of(json, numbers) {
            None => Ok(None),
            Some(price) => if !is_price(price) {
                Err(TickFaultFacts::Price { binary: false, price })
            } else {
                Ok(
                    Some(
                        EventFacts::Tick(
                            TickFacts {
                                instrument_name: name_of(key, names),
                                price,
                                time: match tick_time_of(json, numbers) {
                                    Some(time) => time,
                                    None => now,
                                },
                            },
                        ),
                    ),
                )
            },
        },
    }
}

/// The tick that an object gives. `now_millis` is its time where it gives none.
pub fn parse_tick_event(json: &Json, names: &InstrumentNames, numbers: &Numbers, now_millis: u64)
    -> (r: Result<Option<PriceEvent>, TickFault>)
    ensures
        tick_outcome(r) == tick_of(json@, names@, numbers@, now_millis),
{
    let key: DbinternationalInstrumentKey = match tick_instrument_key(json, numbers) {
        Some(key) => key,
        None => return Ok(None),
    };
    let value: Real = match tick_ltp(json, numbers) {
        Some(value) => value,
        None => return Ok(None),
    };
    let price = match Price::new(value) {
        Ok(price) => price,
        Err(_) => return Err(TickFault::Price { binary: false, price: value }),
    };
    let time: u64 = match tick_time_millis(json, numbers) {
        Some(time) => time,
        None => now_millis,
    };
    Ok(
        Some(
            PriceEvent::Tick(
                PriceTick::new(instrument_name(key, names), price, UnixMillis::new(time)),
            ),
        ),
    )
}

/// The ticks in a value: those of an object, of what a list holds, and of what a text
/// says where it is JSON.
pub open spec fn ticks_in(
    json: JsonFacts,
    names: Map<(u64, u64), InstrumentName>,
    numbers: Map<Seq<char>, Decimal>,
    now: u64,
) -> BatchFacts
    decreases room_of(json), json,
{
    match json.shape {
        ShapeFacts::Text(t) => {
            let text = trim_of(t);
            if text.len() == 0 || !(starts(text, "{"@) || starts(text, "["@)) {
                nothing()
            } else {
                match parsed_text(text) {
                    Err(e) => BatchFacts {
                        events: Seq::empty(),
                        fault: Some(TickFaultFacts::Feed(FeedFault::Parse(e))),
                    },
                    Ok(inner) => if room_of(inner) < t.len() {
                        ticks_in(inner, names, numbers, now)
                    } else {
                        nothing()
                    },
                }
            }
        },
        ShapeFacts::List(items) => ticks_in_all(items, names, numbers, now),
        ShapeFacts::Object { .. } => batch_of(tick_of(json, names, numbers, now)),
        _ => nothing(),
    }
}

/// The ticks in some values.
pub open spec fn ticks_in_all(
    items: Seq<JsonFacts>,
    names: Map<(u64, u64), InstrumentName>,
    numbers: Map<Seq<char>, Decimal>,
    now: u64,
) -> BatchFacts
    decreases rooms_of(items), items,
{
    if items.len() == 0 {
        nothing()
    } else {
        followed(
            ticks_in_all(items.drop_last(), names, numbers, now),
            ticks_in(items.last(), names, numbers, now),
        )
    }
}

/// A fault among the first values is the fault of all.
proof fn ticks_stop(
    items: Seq<JsonFacts>,
    names: Map<(u64, u64), InstrumentName>,
    numbers: Map<Seq<char>, Decimal>,
    now: u64,
    n: int,
)
    requires
        0 <= n <= items.len(),
        ticks_in_all(items.take(n), names, numbers, now).fault is Some,
    ensures
        ticks_in_all(items, names, numbers, now) == ticks_in_all(
            items.take(n),
            names,
            numbers,
            now,
        ),
    decreases items.len() - n,
{
    if n < items.len() {
        assert(items.take(n + 1).drop_last() =~= items.take(n));
        ticks_stop(items, names, numbers, now, n + 1);
    } else {
        assert(items.take(n) =~= items);
    }
}

/// The longest text of a list is as long as that of any of its values at least.
proof fn room_within(items: Seq<JsonFacts>, i: int)
    requires
        0 <= i < items.len(),
    ensures
        room_of(items[i]) <= rooms_of(items),
    decreases items.len(),
{
    if i < items.len() - 1 {
        room_within(items.drop_last(), i);
    }
}

/// The white space around a text is no part of it.
proof fn trimming_shortens(s: Seq<char>)
    ensures
        trim_of(s).len() <= s.len(),
{
    trim_start_shortens(s);
    trim_end_shortens(crate::text::trim_start_of(s));
    trim_end_shortens(s);
    trim_start_shortens(crate::text::trim_end_of(s));
}

proof fn trim_start_shortens(s: Seq<char>)
    ensures
        crate::text::trim_start_of(s).len() <= s.len(),
    decreases s.len(),
{
    if s.len() > 0 {
        trim_start_shortens(s.drop_first());
    }
}

proof fn trim_end_shortens(s: Seq<char>)
    ensures
        crate::text::trim_end_of(s).len() <= s.len(),
    decreases s.len(),
{
    if s.len() > 0 {
        trim_end_shortens(s.drop_last());
    }
}

/// The ticks in a value.
pub fn queue_value_ticks(json: &Json, names: &InstrumentNames, numbers: &Numbers, now_millis: u64)
    -> (r: TickBatch)
    ensures
        r@ == ticks_in(json@, names@, numbers@, now_millis),
    decreases room_of(json@), *json,
{
    match &json.shape {
        Shape::Text(t) => {
            let text = trim(t.as_str());
            if text.as_str().is_empty() || !(starts_with(text.as_str(), "{") || starts_with(
                text.as_str(),
                "[",
            )) {
                return TickBatch::new();
            }
            match read_json(text.as_str()) {
                Err(e) => TickBatch::failed(FeedError::Parse(e)),
                Ok(inner) => {
                    proof {
                        trimming_shortens(t@);
                    }
                    queue_value_ticks(&inner, names, numbers, now_millis)
                },
            }
        },
        Shape::List(items) => {
            let ghost all = json_views(items@);
            proof {
                list_facts(*items);
            }
            let mut batch = TickBatch::new();
            let mut i: usize = 0;
            assert(all.take(0) =~= Seq::empty());
            while i < items.len()
                invariant
                    i <= items@.len(),
                    all == json_views(items@),
                    json.shape == Shape::List(*items),
                    json@.shape == ShapeFacts::List(all),
                    batch@ == ticks_in_all(all.take(i as int), names@, numbers@, now_millis),
                    batch@.fault is None,
                decreases items@.len() - i,
            {
                assert(all.take(i + 1).drop_last() =~= all.take(i as int));
                assert(all.take(i + 1).last() == items@[i as int]@);
                proof {
                    room_within(all, i as int);
                }
                assert(decreases_to!(*json => items@[i as int])) by {
                    assert(decreases_to!(*json => json.shape));
                    assert(decreases_to!(json.shape => *items));
                    assert(decreases_to!(*items => items@));
                    assert(decreases_to!(items@ => items@[i as int]));
                }
                let more = queue_value_ticks(&items[i], names, numbers, now_millis);
                batch = batch.follow(more);
                i += 1;
                if batch.fault.is_some() {
                    proof {
                        ticks_stop(all, names@, numbers@, now_millis, i as int);
                    }
                    return batch;
                }
            }
            assert(all.take(i as int) =~= all);
            batch
        },
        Shape::Object { .. } => TickBatch::of(parse_tick_event(json, names, numbers, now_millis)),
        _ => TickBatch::new(),
    }
}

/// The ticks in the answer to asking for instruments.
pub open spec fn quotes_in(
    json: JsonFacts,
    names: Map<(u64, u64), InstrumentName>,
    numbers: Map<Seq<char>, Decimal>,
    now: u64,
) -> BatchFacts {
    match envelope_of(json) {
        None => nothing(),
        Some(envelope) => match field_of(envelope, "result"@) {
            None => nothing(),
            Some(result) => match first_field(result, seq!["listQuotes"@, "listquotes"@]) {
                None => nothing(),
                Some(quotes) => ticks_in(quotes, names, numbers, now),
            },
        },
    }
}

/// The ticks in the answer to asking for instruments.
pub fn queue_subscription_response_ticks(
    json: &Json,
    names: &InstrumentNames,
    numbers: &Numbers,
    now_millis: u64,
) -> (r: TickBatch)
    ensures
        r@ == quotes_in(json@, names@, numbers@, now_millis),
{
    match response_envelope(json) {
        None => TickBatch::new(),
        Some(envelope) => match envelope.field("result") {
            None => TickBatch::new(),
            Some(result) => {
                let keys: Vec<&'static str> = vec!["listQuotes", "listquotes"];
                assert(str_views(keys@) =~= seq!["listQuotes"@, "listquotes"@]);
                match value_field(result, &keys) {
                    None => TickBatch::new(),
                    Some(quotes) => queue_value_ticks(quotes, names, numbers, now_millis),
                }
            },
        },
    }
}

/// Instruments are asked for in parts, each of at most a hundred, until there are none left: only
/// the last part is smaller.
pub proof fn parts_reach_the_end(at: int, len: int)
    requires
        0 <= at < len,
    ensures
        at < chunk_end(at, len) <= len,
        chunk_end(at, len) - at <= 100,
        chunk_end(at, len) < len ==> chunk_end(at, len) - at == 100,
{
}

/// After instruments were asked for, each is known by its symbol, where no later one of them has
/// the same key, and what was known of others is known still.
pub proof fn asked_instruments_are_named(
    names: Map<(u64, u64), Seq<char>>,
    list: Seq<ResolvedFacts>,
    key: (u64, u64),
)
    ensures
        ({
            let after = names_with(names, list);
            &&& forall|k: int|
                0 <= k < list.len() && pair_of((#[trigger] list[k]).instrument.key) == key && (forall|
                    j: int,
                |
                    k < j < list.len() ==> pair_of((#[trigger] list[j]).instrument.key) != key)
                    ==> after.contains_key(key) && after[key] == trim_of(list[k].symbol)
            &&& (forall|k: int|
                0 <= k < list.len() ==> pair_of((#[trigger] list[k]).instrument.key) != key) ==> (
            after.contains_key(key) <==> names.contains_key(key)) && after[key] == names[key]
        }),
    decreases list.len(),
{
    if list.len() > 0 {
        let d = list.drop_last();
        let n = list.len() - 1;
        let after = names_with(names, list);
        asked_instruments_are_named(names, d, key);
        assert(list[n] == list.last());
        assert forall|i: int|
            #![trigger d[i]]
            #![trigger list[i]]
            0 <= i < n implies d[i] == list[i] by {}
        if pair_of(list.last().instrument.key) != key {
            assert forall|k: int|
                0 <= k < list.len() && pair_of((#[trigger] list[k]).instrument.key) == key && (forall|
                    j: int,
                |
                    k < j < list.len() ==> pair_of((#[trigger] list[j]).instrument.key)
                        != key) implies after.contains_key(key) && after[key] == trim_of(
                list[k].symbol,
            ) by {
                assert(d[k] == list[k]);
                assert forall|j: int| k < j < d.len() implies pair_of(
                    (#[trigger] d[j]).instrument.key,
                ) != key by {
                    assert(list[j] == d[j]);
                }
            }
        }
    }
}

/// A quote tells a tick: of the instrument that its segment and its number stand for, at the
/// price that was traded last, and at its time, which it may give in seconds; now where it gives
/// none.
pub proof fn quotes_tell_ticks(
    json: JsonFacts,
    names: Map<(u64, u64), InstrumentName>,
    numbers: Map<Seq<char>, Decimal>,
    now: u64,
    segment: u64,
    id: u64,
    price: Real,
)
    requires
        segment <= u16::MAX,
        field_of(json, "ExchangeSegment"@) is Some,
        count_of(field_of(json, "ExchangeSegment"@)->0, numbers) == Some(segment),
        field_of(json, "ExchangeInstrumentID"@) is Some,
        count_of(field_of(json, "ExchangeInstrumentID"@)->0, numbers) == Some(id),
        field_of(json, "LastTradedPrice"@) is Some,
        real_of(field_of(json, "LastTradedPrice"@)->0, numbers) == Some(price),
        field_of(json, "LastUpdateTime"@) is Some,
    ensures
        0 < price.bits < 0x7ff0_0000_0000_0000 ==> ({
            let told = tick_of(json, names, numbers, now)->Ok_0;
            let time = told->0->Tick_0.time;
            &&& tick_of(json, names, numbers, now) is Ok
            &&& told is Some
            &&& told->0 is Tick
            &&& told->0->Tick_0.price == price
            &&& names.contains_key((segment, id)) ==> told->0->Tick_0.instrument_name == names[(
                segment,
                id,
            )]@
            &&& match count_of(field_of(json, "LastUpdateTime"@)->0, numbers) {
                None => time == now,
                Some(t) => if t < 100_000_000_000 {
                    time == t * 1_000
                } else {
                    time == t
                },
            }
        }),
        !(0 < price.bits < 0x7ff0_0000_0000_0000) ==> tick_of(json, names, numbers, now) is Err,
{
    reveal_with_fuel(first_field, 2);
    assert(segment_keys()[0] == "ExchangeSegment"@);
    assert(id_keys()[0] == "ExchangeInstrumentID"@);
    assert(price_keys()[0] == "LastTradedPrice"@);
    assert(time_keys()[0] == "LastUpdateTime"@);
}

/// Where a quote tells no price, the one that its touchline tells is taken.
pub proof fn touchline_tells_the_price(
    json: JsonFacts,
    numbers: Map<Seq<char>, Decimal>,
    price: Real,
)
    requires
        field_of(json, "LastTradedPrice"@) is None,
        field_of(json, "lastTradedPrice"@) is None,
        field_of(json, "Touchline"@) is Some,
        field_of(field_of(json, "Touchline"@)->0, "LastTradedPrice"@) is Some,
        real_of(field_of(field_of(json, "Touchline"@)->0, "LastTradedPrice"@)->0, numbers) == Some(
            price,
        ),
    ensures
        tick_price_of(json, numbers) == Some(price),
{
    reveal_with_fuel(first_field, 3);
    assert(price_keys()[0] == "LastTradedPrice"@);
    assert(price_keys().drop_first()[0] == "lastTradedPrice"@);
    assert(price_keys().drop_first().drop_first().len() == 0);
}

/// The ticks of a list are those of its items, one after another; behind a fault there are none.
pub proof fn lists_tell_the_ticks_of_their_items(
    a: Seq<JsonFacts>,
    b: Seq<JsonFacts>,
    names: Map<(u64, u64), InstrumentName>,
    numbers: Map<Seq<char>, Decimal>,
    now: u64,
)
    ensures
        ({
            let first = ticks_in_all(a, names, numbers, now);
            let second = ticks_in_all(b, names, numbers, now);
            let both = ticks_in_all(a + b, names, numbers, now);
            &&& first.fault is None ==> both.events == first.events + second.events && both.fault
                == second.fault
            &&& first.fault is Some ==> both == first
        }),
        a.len() == 1 ==> ticks_in_all(a, names, numbers, now).events == ticks_in(
            a[0],
            names,
            numbers,
            now,
        ).events,
        a.len() == 0 ==> ticks_in_all(a, names, numbers, now).events.len() == 0,
    decreases b.len(),
{
    if b.len() > 0 {
        lists_tell_the_ticks_of_their_items(a, b.drop_last(), names, numbers, now);
        assert((a + b).drop_last() =~= a + b.drop_last());
        assert((a + b).last() == b.last());
        let first = ticks_in_all(a, names, numbers, now);
        let middle = ticks_in_all(b.drop_last(), names, numbers, now);
        let last = ticks_in(b.last(), names, numbers, now);
        assert(first.events + (middle.events + last.events) =~= (first.events + middle.events)
            + last.events);
    } else {
        assert(a + b =~= a);
        let first = ticks_in_all(a, names, numbers, now);
        assert(first.events + Seq::<EventFacts>::empty() =~= first.events);
    }
    reveal_with_fuel(ticks_in_all, 2);
    if a.len() == 1 {
        assert(a.drop_last().len() == 0);
        let one = ticks_in(a[0], names, numbers, now);
        assert(Seq::<EventFacts>::empty() + one.events =~= one.events);
    }
}

/// Instruments that are refused because they are subscribed to already are as good as accepted;
/// any other answer that is no success is a fault.
pub proof fn already_subscribed_is_no_fault(url: Seq<char>, reply: HttpReply, json: JsonFacts)
    ensures
        !reply.success ==> (subscription_fault(url, reply, json) is None <==> already_subscribed(
            json,
        )),
        reply.success ==> (subscription_fault(url, reply, json) is None <==> envelope_of(
            json,
        ) is Some && tells_success(envelope_of(json)->0)),
{
}

} // verus!
