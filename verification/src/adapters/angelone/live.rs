//! The live market data of AngelOne: what is asked for, and what its packets tell.
use crate::adapters::angelone::master::{
    divisor_of, instrument_key_from_token, key_of, price_divisor, AngeloneInstrumentKey, KeyFacts,
};
use crate::binary64::{Decimal, DecimalFacts};
use crate::bytes::{little_at, little_is_to_the_base_of_256, part, read_u64_le};
use crate::feeder::catalog::{InstrumentDefinition, InstrumentFacts, instrument_views};
use crate::feeder::error::{outcome, FeedError, FeedFault};
use crate::feeder::event::{
    is_price, price_fault, EventFacts, InstrumentName, Price, PriceEvent, PriceTick, TickFacts,
    UnixMillis,
};
use crate::order::{TextMap, TextSet};
use crate::text::{
    decimal, decimal_of, lossy, lossy_of, same, texts_between, trim, trim_of, views,
};
use vstd::prelude::*;

verus! {

/// How many bytes a packet has at least.
pub const LTP_PACKET_SIZE: usize = 51;

/// After how many milliseconds a sign of life is due.
pub const HEARTBEAT_INTERVAL_MS: u64 = 25_000;

/// A text that stands for a key.
pub open spec fn key_text(key: KeyFacts) -> Seq<char> {
    seq![key.exchange_type as char] + key.token
}

fn text_of_key(key: &AngeloneInstrumentKey) -> (r: String)
    ensures
        r@ == key_text(key@),
{
    let mut out: String = String::new();
    out.push(key.exchange_type as char);
    out.append(key.token.as_str());
    assert(out@ =~= key_text(key@));
    out
}

/// The text that stands for a key tells the key.
pub proof fn key_text_tells_key(a: KeyFacts, b: KeyFacts)
    requires
        key_text(a) == key_text(b),
    ensures
        a == b,
{
    assert(key_text(a)[0] == a.exchange_type as char);
    assert(key_text(b)[0] == b.exchange_type as char);
    assert(key_text(a).skip(1) =~= a.token);
    assert(key_text(b).skip(1) =~= b.token);
}

/// An instrument that is asked for, or no longer.
#[derive(Debug)]
pub struct ResolvedInstrument {
    pub key: AngeloneInstrumentKey,
    pub symbol: String,
    pub name: InstrumentName,
}

/// An instrument that is asked for, or no longer, as contracts speak of it.
pub struct ResolvedFacts {
    pub key: KeyFacts,
    pub symbol: Seq<char>,
    pub name: Seq<char>,
}

impl View for ResolvedInstrument {
    type V = ResolvedFacts;

    open spec fn view(&self) -> ResolvedFacts {
        ResolvedFacts { key: self.key@, symbol: self.symbol@, name: self.name@ }
    }
}

pub open spec fn resolved_views(v: Seq<ResolvedInstrument>) -> Seq<ResolvedFacts> {
    Seq::new(v.len(), |i: int| v[i]@)
}

/// The instruments of a list that are to be asked for: those that can be traded and are not
/// asked for yet.
pub open spec fn resolved_of(list: Seq<InstrumentFacts>, active: Set<Seq<char>>) -> Result<
    Seq<ResolvedFacts>,
    FeedFault,
>
    decreases list.len(),
{
    if list.len() == 0 {
        Ok(Seq::empty())
    } else {
        match resolved_of(list.drop_last(), active) {
            Err(e) => Err(e),
            Ok(before) => if !list.last().tradable {
                Ok(before)
            } else {
                match key_of(list.last().instrument_token) {
                    Err(e) => Err(e),
                    Ok(key) => if active.contains(key_text(key)) {
                        Ok(before)
                    } else {
                        Ok(
                            before.push(
                                ResolvedFacts {
                                    key,
                                    symbol: list.last().trading_symbol,
                                    name: list.last().instrument_name,
                                },
                            ),
                        )
                    },
                }
            },
        }
    }
}

proof fn resolving_fails(list: Seq<InstrumentFacts>, n: int, active: Set<Seq<char>>)
    requires
        0 <= n <= list.len(),
        resolved_of(list.take(n), active) is Err,
    ensures
        resolved_of(list, active) == resolved_of(list.take(n), active),
    decreases list.len(),
{
    if n == list.len() {
        assert(list.take(n) =~= list);
    } else {
        assert(list.drop_last().take(n) =~= list.take(n));
        resolving_fails(list.drop_last(), n, active);
    }
}

/// The keys of a list, each as the text that stands for it.
pub open spec fn keys_in(list: Seq<ResolvedFacts>) -> Set<Seq<char>>
    decreases list.len(),
{
    if list.len() == 0 {
        Set::empty()
    } else {
        keys_in(list.drop_last()).insert(key_text(list.last().key))
    }
}

/// What is asked for at once.
#[derive(Debug, PartialEq, Eq)]
pub struct SubscriptionRequest {
    pub correlation_id: &'static str,
    pub action: u8,
    pub mode: u8,
    pub exchange_type: u8,
    pub tokens: Vec<String>,
}

/// What is asked for at once, as contracts speak of it.
pub struct SubscriptionFacts {
    pub correlation_id: Seq<char>,
    pub action: u8,
    pub mode: u8,
    pub exchange_type: u8,
    pub tokens: Seq<Seq<char>>,
}

impl View for SubscriptionRequest {
    type V = SubscriptionFacts;

    open spec fn view(&self) -> SubscriptionFacts {
        SubscriptionFacts {
            correlation_id: self.correlation_id@,
            action: self.action,
            mode: self.mode,
            exchange_type: self.exchange_type,
            tokens: views(self.tokens@),
        }
    }
}

pub open spec fn request_views(v: Seq<SubscriptionRequest>) -> Seq<SubscriptionFacts> {
    Seq::new(v.len(), |i: int| v[i]@)
}

/// The tokens at an exchange, in the order of a list.
pub open spec fn tokens_at(list: Seq<ResolvedFacts>, exchange: int) -> Seq<Seq<char>>
    decreases list.len(),
{
    if list.len() == 0 {
        Seq::empty()
    } else if list.last().key.exchange_type == exchange {
        tokens_at(list.drop_last(), exchange).push(list.last().key.token)
    } else {
        tokens_at(list.drop_last(), exchange)
    }
}

/// What asks for tokens of an exchange, so many at once.
pub open spec fn chunked_of(
    tokens: Seq<Seq<char>>,
    batch: int,
    action: u8,
    mode: u8,
    exchange: int,
) -> Seq<SubscriptionFacts>
    decreases tokens.len(),
{
    if tokens.len() == 0 || batch <= 0 {
        Seq::empty()
    } else {
        let n = if tokens.len() < batch {
            tokens.len() as int
        } else {
            batch
        };
        seq![
            SubscriptionFacts {
                correlation_id: "dhancred01"@,
                action,
                mode,
                exchange_type: exchange as u8,
                tokens: tokens.take(n),
            },
        ] + chunked_of(tokens.skip(n), batch, action, mode, exchange)
    }
}

/// What asks for the instruments of a list at the exchanges below a number, in the order of
/// the exchanges.
pub open spec fn asked_below(
    list: Seq<ResolvedFacts>,
    batch: int,
    action: u8,
    mode: u8,
    exchanges: nat,
) -> Seq<SubscriptionFacts>
    decreases exchanges,
{
    if exchanges == 0 {
        Seq::empty()
    } else {
        asked_below(list, batch, action, mode, (exchanges - 1) as nat) + chunked_of(
            tokens_at(list, exchanges - 1),
            batch,
            action,
            mode,
            exchanges - 1,
        )
    }
}

/// The names that keys are known under.
pub open spec fn names_in(map: Map<Seq<char>, InstrumentName>) -> Map<Seq<char>, Seq<char>> {
    Map::new(|k: Seq<char>| map.contains_key(k), |k: Seq<char>| map[k]@)
}

/// The keys of symbols.
pub open spec fn keys_under(map: Map<Seq<char>, AngeloneInstrumentKey>) -> Map<Seq<char>, KeyFacts> {
    Map::new(|k: Seq<char>| map.contains_key(k), |k: Seq<char>| map[k]@)
}

/// What is asked for. A key stands there as the text that stands for it.
pub struct BookFacts {
    pub active: Set<Seq<char>>,
    pub names: Map<Seq<char>, Seq<char>>,
    pub symbols: Map<Seq<char>, KeyFacts>,
}

/// What is asked for after a list was asked for.
pub open spec fn after_asking(book: BookFacts, list: Seq<ResolvedFacts>) -> BookFacts
    decreases list.len(),
{
    if list.len() == 0 {
        book
    } else {
        let before = after_asking(book, list.drop_last());
        let one = list.last();
        BookFacts {
            active: before.active.insert(key_text(one.key)),
            names: before.names.insert(key_text(one.key), one.name),
            symbols: before.symbols.insert(one.symbol, one.key),
        }
    }
}

/// What is asked for after a list no longer was.
pub open spec fn after_leaving(book: BookFacts, list: Seq<ResolvedFacts>) -> BookFacts
    decreases list.len(),
{
    if list.len() == 0 {
        book
    } else {
        let before = after_leaving(book, list.drop_last());
        let one = list.last();
        BookFacts {
            active: before.active.remove(key_text(one.key)),
            names: before.names.remove(key_text(one.key)),
            symbols: before.symbols.remove(one.symbol),
        }
    }
}

/// The instruments of symbols that are asked for.
pub open spec fn known_of(symbols: Seq<Seq<char>>, book: BookFacts) -> Seq<ResolvedFacts>
    decreases symbols.len(),
{
    if symbols.len() == 0 {
        Seq::empty()
    } else {
        let before = known_of(symbols.drop_last(), book);
        let symbol = symbols.last();
        if book.symbols.contains_key(symbol) {
            before.push(ResolvedFacts { key: book.symbols[symbol], symbol, name: symbol })
        } else {
            before
        }
    }
}

/// Whether what is asked for is in order: just the keys that are asked for have a name.
pub open spec fn book_in_step(book: BookFacts) -> bool {
    book.active == book.names.dom()
}

/// Asking for instruments keeps what is asked for in order.
pub proof fn asking_keeps_step(book: BookFacts, list: Seq<ResolvedFacts>)
    requires
        book_in_step(book),
    ensures
        book_in_step(after_asking(book, list)),
        after_asking(book, list).active == book.active + keys_in(list),
    decreases list.len(),
{
    let after = after_asking(book, list);
    if list.len() > 0 {
        asking_keeps_step(book, list.drop_last());
        assert(after.active =~= after.names.dom());
        assert(after.active =~= book.active + keys_in(list));
    } else {
        assert(after.active =~= book.active + keys_in(list));
    }
}

/// No longer asking for instruments keeps what is asked for in order.
pub proof fn leaving_keeps_step(book: BookFacts, list: Seq<ResolvedFacts>)
    requires
        book_in_step(book),
    ensures
        book_in_step(after_leaving(book, list)),
        after_leaving(book, list).active == book.active - keys_in(list),
    decreases list.len(),
{
    let after = after_leaving(book, list);
    if list.len() > 0 {
        leaving_keeps_step(book, list.drop_last());
        assert(after.active =~= after.names.dom());
        assert(after.active =~= book.active - keys_in(list));
    } else {
        assert(after.active =~= book.active - keys_in(list));
    }
}

/// Asking for instruments that were not asked for, and no longer asking for them, leaves just
/// those keys that were asked for before.
pub proof fn leaving_undoes_asking(book: BookFacts, list: Seq<ResolvedFacts>)
    requires
        book_in_step(book),
        forall|k: Seq<char>| #[trigger] keys_in(list).contains(k) ==> !book.active.contains(k),
    ensures
        after_leaving(after_asking(book, list), list).active == book.active,
{
    asking_keeps_step(book, list);
    leaving_keeps_step(after_asking(book, list), list);
    assert((book.active + keys_in(list)) - keys_in(list) =~= book.active);
}

/// What is asked for of AngelOne.
pub struct AngeloneSubscriptions {
    mode: u8,
    limit: usize,
    batch: usize,
    active: TextSet,
    names: TextMap<InstrumentName>,
    symbols: TextMap<AngeloneInstrumentKey>,
}

impl View for AngeloneSubscriptions {
    type V = BookFacts;

    closed spec fn view(&self) -> BookFacts {
        BookFacts {
            active: self.active@,
            names: names_in(self.names@),
            symbols: keys_under(self.symbols@),
        }
    }
}

impl AngeloneSubscriptions {
    pub closed spec fn mode(&self) -> u8 {
        self.mode
    }

    /// How many keys may be asked for.
    pub closed spec fn limit(&self) -> nat {
        self.limit as nat
    }

    /// How many tokens are asked for at once.
    pub closed spec fn batch(&self) -> nat {
        self.batch as nat
    }

    pub open spec fn same_terms(&self, other: &AngeloneSubscriptions) -> bool {
        self.mode() == other.mode() && self.limit() == other.limit() && self.batch()
            == other.batch()
    }

    pub fn new(mode: u8, limit: usize, batch: usize) -> (r: AngeloneSubscriptions)
        ensures
            r@ == (BookFacts { active: Set::empty(), names: Map::empty(), symbols: Map::empty() }),
            book_in_step(r@),
            r.mode() == mode,
            r.limit() == limit,
            r.batch() == if batch == 0 {
                1
            } else {
                batch as nat
            },
    {
        let r = AngeloneSubscriptions {
            mode,
            limit,
            batch: if batch == 0 {
                1
            } else {
                batch
            },
            active: TextSet::new(),
            names: TextMap::new(),
            symbols: TextMap::new(),
        };
        assert(r@.names =~= Map::empty());
        assert(r@.symbols =~= Map::empty());
        assert(r@.active =~= r@.names.dom());
        r
    }

    /// Which instruments of a list are to be asked for. There must be room for them.
    pub fn subscribe_instruments(&self, instruments: &Vec<InstrumentDefinition>) -> (r: Result<
        Vec<ResolvedInstrument>,
        FeedError,
    >)
        ensures
            match resolved_of(instrument_views(instruments@), self@.active) {
                Err(fault) => r matches Err(e) && e@ == fault,
                Ok(list) => if list.len() > 0 && self@.active.len() + keys_in(list).len()
                    > self.limit() {
                    r matches Err(e) && e@ == FeedFault::Config(
                        "AngelOne websocket subscription limit exceeded: active="@ + decimal_of(
                            self@.active.len(),
                        ) + " new="@ + decimal_of(keys_in(list).len()) + " limit="@ + decimal_of(
                            self.limit(),
                        ),
                    )
                } else {
                    r matches Ok(v) && resolved_views(v@) == list
                },
            },
    {
        let ghost all = instrument_views(instruments@);
        let ghost active = self.active@;
        let mut resolved: Vec<ResolvedInstrument> = Vec::new();
        let mut fresh = TextSet::new();
        let mut i: usize = 0;
        assert(all.take(0) =~= Seq::empty());
        assert(resolved_views(resolved@) =~= Seq::empty());
        while i < instruments.len()
            invariant
                i <= instruments@.len(),
                all == instrument_views(instruments@),
                active == self.active@,
                active == self@.active,
                resolved_of(all.take(i as int), active) == Ok::<Seq<ResolvedFacts>, FeedFault>(
                    resolved_views(resolved@),
                ),
                fresh@ == keys_in(resolved_views(resolved@)),
            decreases instruments@.len() - i,
        {
            let ghost before = resolved_views(resolved@);
            assert(all.take(i + 1).drop_last() =~= all.take(i as int));
            assert(all.take(i + 1).last() == instruments@[i as int]@);
            let instrument = &instruments[i];
            if instrument.tradable {
                match instrument_key_from_token(instrument.instrument_token.as_str()) {
                    Err(e) => {
                        proof {
                            resolving_fails(all, i + 1, active);
                        }
                        return Err(e);
                    },
                    Ok(key) => {
                        let text = text_of_key(&key);
                        if !self.active.contains(text.as_str()) {
                            fresh.insert(text);
                            let one = ResolvedInstrument {
                                key,
                                symbol: instrument.trading_symbol.clone(),
                                name: instrument.instrument_name.clone(),
                            };
                            resolved.push(one);
                            assert(resolved_views(resolved@) =~= before.push(one@));
                            assert(before.push(one@).drop_last() =~= before);
                        }
                    },
                }
            }
            i += 1;
        }
        assert(all.take(i as int) =~= all);
        if resolved.len() == 0 {
            return Ok(resolved);
        }
        let new_count: usize = fresh.len();
        let active_count: usize = self.active.len();
        if new_count > self.limit || active_count > self.limit - new_count {
            let mut message = "AngelOne websocket subscription limit exceeded: active=".to_owned();
            message.append(decimal(active_count as u64).as_str());
            message.append(" new=");
            message.append(decimal(new_count as u64).as_str());
            message.append(" limit=");
            message.append(decimal(self.limit as u64).as_str());
            return Err(FeedError::Config(message));
        }
        Ok(resolved)
    }

    /// Takes in that the instruments of a list are asked for.
    pub fn subscribed(&mut self, resolved: &Vec<ResolvedInstrument>)
        ensures
            final(self)@ == after_asking(old(self)@, resolved_views(resolved@)),
            final(self).same_terms(old(self)),
            book_in_step(old(self)@) ==> book_in_step(final(self)@),
    {
        let ghost all = resolved_views(resolved@);
        let ghost start = self@;
        let mut i: usize = 0;
        assert(all.take(0) =~= Seq::empty());
        while i < resolved.len()
            invariant
                i <= resolved@.len(),
                all == resolved_views(resolved@),
                self@ == after_asking(start, all.take(i as int)),
                self.same_terms(old(self)),
            decreases resolved@.len() - i,
        {
            let ghost names = self.names@;
            let ghost symbols = self.symbols@;
            assert(all.take(i + 1).drop_last() =~= all.take(i as int));
            assert(all.take(i + 1).last() == resolved@[i as int]@);
            let one = &resolved[i];
            let text = text_of_key(&one.key);
            self.active.insert(text_of_key(&one.key));
            self.names.insert(text, one.name.clone());
            self.symbols.insert(one.symbol.clone(), one.key.clone());
            assert(names_in(self.names@) =~= names_in(names).insert(key_text(one.key@), one.name@));
            assert(keys_under(self.symbols@) =~= keys_under(symbols).insert(one.symbol@, one.key@));
            i += 1;
        }
        assert(all.take(i as int) =~= all);
        proof {
            if book_in_step(start) {
                asking_keeps_step(start, all);
            }
        }
    }

    /// Which instruments are no longer to be asked for, out of the symbols of a list.
    pub fn unsubscribe_symbols(&self, symbols: &Vec<String>) -> (r: Vec<ResolvedInstrument>)
        ensures
            resolved_views(r@) == known_of(views(symbols@), self@),
    {
        let ghost all = views(symbols@);
        let mut out: Vec<ResolvedInstrument> = Vec::new();
        let mut i: usize = 0;
        assert(all.take(0) =~= Seq::empty());
        assert(resolved_views(out@) =~= Seq::empty());
        while i < symbols.len()
            invariant
                i <= symbols@.len(),
                all == views(symbols@),
                resolved_views(out@) == known_of(all.take(i as int), self@),
            decreases symbols@.len() - i,
        {
            let ghost before = resolved_views(out@);
            assert(all.take(i + 1).drop_last() =~= all.take(i as int));
            assert(all.take(i + 1).last() == symbols@[i as int]@);
            let symbol = &symbols[i];
            if let Some(key) = self.symbols.get(symbol.as_str()) {
                let one = ResolvedInstrument {
                    key: key.clone(),
                    symbol: symbol.clone(),
                    name: InstrumentName::new(symbol.as_str()),
                };
                out.push(one);
                assert(resolved_views(out@) =~= before.push(one@));
            }
            i += 1;
        }
        assert(all.take(i as int) =~= all);
        out
    }

    /// Takes in that the instruments of a list are no longer asked for.
    pub fn unsubscribed(&mut self, resolved: &Vec<ResolvedInstrument>)
        ensures
            final(self)@ == after_leaving(old(self)@, resolved_views(resolved@)),
            final(self).same_terms(old(self)),
            book_in_step(old(self)@) ==> book_in_step(final(self)@),
    {
        let ghost all = resolved_views(resolved@);
        let ghost start = self@;
        let mut i: usize = 0;
        assert(all.take(0) =~= Seq::empty());
        while i < resolved.len()
            invariant
                i <= resolved@.len(),
                all == resolved_views(resolved@),
                self@ == after_leaving(start, all.take(i as int)),
                self.same_terms(old(self)),
            decreases resolved@.len() - i,
        {
            let ghost names = self.names@;
            let ghost symbols = self.symbols@;
            assert(all.take(i + 1).drop_last() =~= all.take(i as int));
            assert(all.take(i + 1).last() == resolved@[i as int]@);
            let one = &resolved[i];
            let text = text_of_key(&one.key);
            self.active.remove(text.as_str());
            self.names.remove(text.as_str());
            self.symbols.remove(one.symbol.as_str());
            assert(names_in(self.names@) =~= names_in(names).remove(key_text(one.key@)));
            assert(keys_under(self.symbols@) =~= keys_under(symbols).remove(one.symbol@));
            i += 1;
        }
        assert(all.take(i as int) =~= all);
        proof {
            if book_in_step(start) {
                leaving_keeps_step(start, all);
            }
        }
    }

    /// What is sent to ask for the instruments of a list, by action 1, or no longer to, by
    /// action 0: for each exchange its tokens, no more at once than agreed.
    pub fn requests(&self, action: u8, resolved: &Vec<ResolvedInstrument>) -> (r: Vec<
        SubscriptionRequest,
    >)
        requires
            self.batch() > 0,
        ensures
            request_views(r@) == asked_below(
                resolved_views(resolved@),
                self.batch() as int,
                action,
                self.mode(),
                256,
            ),
    {
        let ghost all = resolved_views(resolved@);
        let mut out: Vec<SubscriptionRequest> = Vec::new();
        let mut exchange: u16 = 0;
        assert(request_views(out@) =~= Seq::empty());
        while exchange < 256
            invariant
                exchange <= 256,
                all == resolved_views(resolved@),
                self.batch() > 0,
                request_views(out@) == asked_below(
                    all,
                    self.batch() as int,
                    action,
                    self.mode(),
                    exchange as nat,
                ),
            decreases 256 - exchange,
        {
            let tokens = tokens_of_exchange(resolved, exchange as u8);
            push_chunks(&mut out, &tokens, self.batch, action, self.mode, exchange as u8);
            exchange += 1;
        }
        out
    }

    /// The event that a packet tells. `price` is its price, divided as its exchange asks.
    pub fn parse_binary_tick(&self, packet: &TickPacket, price: &Decimal, now_millis: u64) -> (r:
        Result<PriceEvent, FeedError>)
        ensures
            outcome(r) == event_of(packet@, self@.names, price@, now_millis),
    {
        let text = text_of_key(&packet.key);
        let instrument_name = match self.names.get(text.as_str()) {
            Some(name) => name.clone(),
            None => {
                let mut name = decimal(packet.key.exchange_type as u64);
                name.append(":");
                name.append(packet.key.token.as_str());
                InstrumentName::new(name.as_str())
            },
        };
        assert(instrument_name@ == name_of(packet@.key, self@.names));
        match Price::new(price.value) {
            Err(reason) => {
                let mut message = "AngelOne tick invalid price ".to_owned();
                message.append(price.text.as_str());
                message.append(" for ");
                message.append(instrument_name.as_str());
                message.append(": ");
                message.append(reason);
                Err(FeedError::Parse(message))
            },
            Ok(price) => {
                let time: u64 = if packet.timestamp > 0 {
                    packet.timestamp as u64
                } else {
                    now_millis
                };
                Ok(PriceEvent::Tick(PriceTick::new(instrument_name, price, UnixMillis::new(time))))
            },
        }
    }
}

fn tokens_of_exchange(resolved: &Vec<ResolvedInstrument>, exchange: u8) -> (r: Vec<String>)
    ensures
        views(r@) == tokens_at(resolved_views(resolved@), exchange as int),
{
    let ghost all = resolved_views(resolved@);
    let mut out: Vec<String> = Vec::new();
    let mut i: usize = 0;
    assert(all.take(0) =~= Seq::empty());
    assert(views(out@) =~= Seq::empty());
    while i < resolved.len()
        invariant
            i <= resolved@.len(),
            all == resolved_views(resolved@),
            views(out@) == tokens_at(all.take(i as int), exchange as int),
        decreases resolved@.len() - i,
    {
        let ghost before = views(out@);
        assert(all.take(i + 1).drop_last() =~= all.take(i as int));
        assert(all.take(i + 1).last() == resolved@[i as int]@);
        if resolved[i].key.exchange_type == exchange {
            let token = resolved[i].key.token.clone();
            out.push(token);
            assert(views(out@) =~= before.push(token@));
        }
        i += 1;
    }
    assert(all.take(i as int) =~= all);
    out
}

fn push_chunks(
    out: &mut Vec<SubscriptionRequest>,
    tokens: &Vec<String>,
    batch: usize,
    action: u8,
    mode: u8,
    exchange: u8,
)
    requires
        batch > 0,
    ensures
        request_views(final(out)@) == request_views(old(out)@) + chunked_of(
            views(tokens@),
            batch as int,
            action,
            mode,
            exchange as int,
        ),
{
    let ghost start = request_views(out@);
    let ghost all = views(tokens@);
    let ghost whole = chunked_of(all, batch as int, action, mode, exchange as int);
    let n: usize = tokens.len();
    let mut from: usize = 0;
    assert(all.skip(0) =~= all);
    while from < n
        invariant
            from <= n == tokens@.len(),
            batch > 0,
            all == views(tokens@),
            request_views(out@) + chunked_of(
                all.skip(from as int),
                batch as int,
                action,
                mode,
                exchange as int,
            ) == start + whole,
        decreases n - from,
    {
        let to: usize = if n - from < batch {
            n
        } else {
            from + batch
        };
        let ghost before = request_views(out@);
        let ghost rest = all.skip(from as int);
        let one = SubscriptionRequest {
            correlation_id: "dhancred01",
            action,
            mode,
            exchange_type: exchange,
            tokens: texts_between(tokens, from, to),
        };
        out.push(one);
        assert(request_views(out@) =~= before.push(one@));
        assert(rest.take(to - from) =~= all.subrange(from as int, to as int));
        assert(rest.skip(to - from) =~= all.skip(to as int));
        assert(before + (seq![one@] + chunked_of(
            all.skip(to as int),
            batch as int,
            action,
            mode,
            exchange as int,
        )) =~= before.push(one@) + chunked_of(
            all.skip(to as int),
            batch as int,
            action,
            mode,
            exchange as int,
        ));
        from = to;
    }
    assert(all.skip(from as int) =~= Seq::empty());
    assert(request_views(out@) + Seq::<SubscriptionFacts>::empty() =~= request_views(out@));
}

/// A packet with the last price of an instrument.
#[derive(Debug)]
pub struct TickPacket {
    pub key: AngeloneInstrumentKey,
    pub timestamp: i64,
    /// The price, times the divisor of the exchange.
    pub price: i64,
}

/// A packet as contracts speak of it.
pub struct PacketFacts {
    pub key: KeyFacts,
    pub timestamp: int,
    pub price: int,
}

impl View for TickPacket {
    type V = PacketFacts;

    open spec fn view(&self) -> PacketFacts {
        PacketFacts {
            key: self.key@,
            timestamp: self.timestamp as int,
            price: self.price as int,
        }
    }
}

pub open spec fn packet_option(packet: Option<TickPacket>) -> Option<PacketFacts> {
    match packet {
        Some(p) => Some(p@),
        None => None,
    }
}

impl TickPacket {
    /// What the price of the packet is divided by.
    pub fn divisor(&self) -> (r: u64)
        ensures
            r == divisor_of(self.key.exchange_type),
    {
        price_divisor(self.key.exchange_type)
    }
}

/// The bytes before the first that is zero.
pub open spec fn until_zero(bytes: Seq<u8>) -> Seq<u8>
    decreases bytes.len(),
{
    if bytes.len() == 0 || bytes[0] == 0 {
        Seq::empty()
    } else {
        seq![bytes[0]] + until_zero(bytes.skip(1))
    }
}

/// The token that bytes hold.
pub open spec fn token_of(bytes: Seq<u8>) -> Seq<char> {
    trim_of(lossy_of(until_zero(bytes)))
}

proof fn until_zero_is(bytes: Seq<u8>, n: int)
    requires
        0 <= n <= bytes.len(),
        forall|k: int| 0 <= k < n ==> bytes[k] != 0,
        n < bytes.len() ==> bytes[n] == 0,
    ensures
        until_zero(bytes) == bytes.take(n),
    decreases bytes.len(),
{
    if bytes.len() > 0 && bytes[0] != 0 {
        until_zero_is(bytes.skip(1), n - 1);
        assert(bytes.take(n) =~= seq![bytes[0]] + bytes.skip(1).take(n - 1));
    } else {
        assert(bytes.take(n) =~= Seq::empty());
    }
}

fn parse_token(bytes: &[u8]) -> (r: String)
    ensures
        r@ == token_of(bytes@),
{
    let n: usize = bytes.len();
    let mut end: usize = 0;
    while end < n && bytes[end] != 0
        invariant
            end <= n == bytes@.len(),
            forall|k: int| 0 <= k < end ==> bytes@[k] != 0,
        decreases n - end,
    {
        end += 1;
    }
    proof {
        until_zero_is(bytes@, end as int);
    }
    let kept = part(bytes, 0, end);
    assert(kept@ =~= bytes@.take(end as int));
    trim(lossy(kept.as_slice()).as_str())
}

/// The number that eight bytes stand for, with a sign.
pub open spec fn signed(n: nat) -> int {
    if n >= 0x8000_0000_0000_0000 {
        n - 0x1_0000_0000_0000_0000
    } else {
        n as int
    }
}

fn to_signed(n: u64) -> (r: i64)
    ensures
        r == signed(n as nat),
{
    if n >= 0x8000_0000_0000_0000 {
        let below: i64 = (u64::MAX - n) as i64;
        -below - 1
    } else {
        n as i64
    }
}

/// The packet that bytes hold, where they hold one.
pub open spec fn packet_of(payload: Seq<u8>) -> Option<PacketFacts> {
    if payload.len() < LTP_PACKET_SIZE || !(1 <= payload[0] <= 4) || token_of(
        payload.subrange(2, 27),
    ).len() == 0 {
        None
    } else {
        Some(
            PacketFacts {
                key: KeyFacts {
                    exchange_type: payload[1],
                    token: token_of(payload.subrange(2, 27)),
                },
                timestamp: signed(little_at(payload, 35, 8)),
                price: signed(little_at(payload, 43, 8)),
            },
        )
    }
}

/// The packet that bytes hold, where they hold one.
pub fn parse_packet(payload: &[u8]) -> (r: Option<TickPacket>)
    ensures
        packet_option(r) == packet_of(payload@),
{
    if payload.len() < LTP_PACKET_SIZE {
        return None;
    }
    let mode: u8 = payload[0];
    if mode < 1 || mode > 4 {
        return None;
    }
    let exchange_type: u8 = payload[1];
    let name = part(payload, 2, 27);
    let token = parse_token(name.as_slice());
    if token.as_str().is_empty() {
        return None;
    }
    match (read_u64_le(payload, 35), read_u64_le(payload, 43)) {
        (Some(timestamp), Some(price)) => Some(
            TickPacket {
                key: AngeloneInstrumentKey { exchange_type, token },
                timestamp: to_signed(timestamp),
                price: to_signed(price),
            },
        ),
        _ => None,
    }
}

/// The name of the instrument with a key.
pub open spec fn name_of(key: KeyFacts, names: Map<Seq<char>, Seq<char>>) -> Seq<char> {
    if names.contains_key(key_text(key)) {
        names[key_text(key)]
    } else {
        decimal_of(key.exchange_type as nat) + ":"@ + key.token
    }
}

/// The event that a packet tells.
pub open spec fn event_of(
    packet: PacketFacts,
    names: Map<Seq<char>, Seq<char>>,
    price: DecimalFacts,
    now: u64,
) -> Result<EventFacts, FeedFault> {
    let name = name_of(packet.key, names);
    if !is_price(price.value) {
        Err(
            FeedFault::Parse(
                "AngelOne tick invalid price "@ + price.text + " for "@ + name + ": "@
                    + price_fault(),
            ),
        )
    } else {
        Ok(
            EventFacts::Tick(
                TickFacts {
                    instrument_name: name,
                    price: price.value,
                    time: if packet.timestamp > 0 {
                        packet.timestamp as u64
                    } else {
                        now
                    },
                },
            ),
        )
    }
}

/// Whether a sign of life is due.
pub fn heartbeat_due(elapsed_millis: u64) -> (r: bool)
    ensures
        r == (elapsed_millis >= HEARTBEAT_INTERVAL_MS),
{
    elapsed_millis >= HEARTBEAT_INTERVAL_MS
}

/// What a text message leads to: an answer to a sign of life is passed over, another is told.
pub fn told_text(text: &str, log_to_console: bool) -> (r: Option<String>)
    ensures
        match r {
            None => text@ == "pong"@ || !log_to_console,
            Some(t) => text@ != "pong"@ && log_to_console && t@ == "AngelOne websocket text: "@
                + text@,
        },
{
    if !same(text, "pong") && log_to_console {
        Some("AngelOne websocket text: ".to_owned().concat(text))
    } else {
        None
    }
}

/// A packet is read as what its bytes say: the exchange in the second, the token in the 25 behind
/// it, up to the first that is zero, and the time and the price as numbers of eight bytes with a
/// sign, the lowest first. One that is too short, of another mode, or without a token is none.
pub proof fn packets_are_read_byte_by_byte(payload: Seq<u8>)
    ensures
        packet_of(payload) is Some <==> payload.len() >= 51 && 1 <= payload[0] <= 4 && token_of(
            payload.subrange(2, 27),
        ).len() > 0,
        packet_of(payload) matches Some(packet) ==> {
            &&& packet.key.exchange_type == payload[1]
            &&& packet.key.token == token_of(payload.subrange(2, 27))
            &&& packet.timestamp == payload[35] + 256 * payload[36] + 65_536 * payload[37]
                + 16_777_216 * payload[38] + 4_294_967_296 * payload[39] + 1_099_511_627_776
                * payload[40] + 281_474_976_710_656 * payload[41] + 72_057_594_037_927_936
                * payload[42] - if payload[42] >= 128 {
                0x1_0000_0000_0000_0000int
            } else {
                0
            }
            &&& packet.price == payload[43] + 256 * payload[44] + 65_536 * payload[45] + 16_777_216
                * payload[46] + 4_294_967_296 * payload[47] + 1_099_511_627_776 * payload[48]
                + 281_474_976_710_656 * payload[49] + 72_057_594_037_927_936 * payload[50]
                - if payload[50] >= 128 {
                0x1_0000_0000_0000_0000int
            } else {
                0
            }
        },
{
    if payload.len() >= 51 {
        little_is_to_the_base_of_256(payload.subrange(35, 43));
        little_is_to_the_base_of_256(payload.subrange(43, 51));
    }
}

/// The token of a packet is what stands before its first byte that is zero, and all of that.
pub proof fn tokens_end_at_zero(bytes: Seq<u8>)
    ensures
        until_zero(bytes).len() <= bytes.len(),
        until_zero(bytes) == bytes.take(until_zero(bytes).len() as int),
        !until_zero(bytes).contains(0),
        until_zero(bytes).len() < bytes.len() ==> bytes[until_zero(bytes).len() as int] == 0,
    decreases bytes.len(),
{
    let t = until_zero(bytes);
    if bytes.len() > 0 && bytes[0] != 0 {
        tokens_end_at_zero(bytes.skip(1));
        let r = until_zero(bytes.skip(1));
        assert(t =~= bytes.take(t.len() as int)) by {
            assert forall|i: int| 0 <= i < t.len() implies t[i] == bytes[i] by {
                if i > 0 {
                    assert(r[i - 1] == bytes.skip(1).take(r.len() as int)[i - 1]);
                }
            }
        }
        if t.contains(0) {
            let i = choose|i: int| 0 <= i < t.len() && t[i] == 0;
            assert(r[i - 1] == 0);
        }
    } else {
        assert(t =~= bytes.take(0));
    }
}

/// A tick is of the instrument that was subscribed to under the key of its packet, at the price
/// that is told, and of the time of the packet, where it has one.
pub proof fn ticks_tell_their_packets(
    packet: PacketFacts,
    names: Map<Seq<char>, Seq<char>>,
    price: DecimalFacts,
    now: u64,
)
    ensures
        event_of(packet, names, price, now) is Ok <==> 0 < price.value.bits < 0x7ff0_0000_0000_0000,
        event_of(packet, names, price, now) matches Ok(event) ==> {
            &&& event is Tick
            &&& event->Tick_0.price == price.value
            &&& names.contains_key(key_text(packet.key)) ==> event->Tick_0.instrument_name
                == names[key_text(packet.key)]
            &&& packet.timestamp > 0 && packet.timestamp <= u64::MAX ==> event->Tick_0.time
                == packet.timestamp
            &&& packet.timestamp <= 0 ==> event->Tick_0.time == now
        },
{
}

/// The tokens of requests, one behind another.
pub open spec fn tokens_together(requests: Seq<SubscriptionFacts>) -> Seq<Seq<char>>
    decreases requests.len(),
{
    if requests.len() == 0 {
        Seq::empty()
    } else {
        requests[0].tokens + tokens_together(requests.skip(1))
    }
}

/// Tokens are asked for in batches, each once and in their order: no batch is empty or larger
/// than it may be, and only the last is smaller.
pub proof fn every_token_is_in_one_batch(
    tokens: Seq<Seq<char>>,
    batch: int,
    action: u8,
    mode: u8,
    exchange: int,
)
    requires
        batch > 0,
        0 <= exchange <= 255,
    ensures
        tokens_together(chunked_of(tokens, batch, action, mode, exchange)) == tokens,
        forall|i: int|
            0 <= i < chunked_of(tokens, batch, action, mode, exchange).len() ==> {
                let one = #[trigger] chunked_of(tokens, batch, action, mode, exchange)[i];
                &&& 0 < one.tokens.len() <= batch
                &&& i < chunked_of(tokens, batch, action, mode, exchange).len() - 1
                    ==> one.tokens.len() == batch
                &&& one.action == action
                &&& one.mode == mode
                &&& one.exchange_type == exchange
            },
    decreases tokens.len(),
{
    let all = chunked_of(tokens, batch, action, mode, exchange);
    if tokens.len() > 0 {
        let n = if tokens.len() < batch {
            tokens.len() as int
        } else {
            batch
        };
        let rest = chunked_of(tokens.skip(n), batch, action, mode, exchange);
        every_token_is_in_one_batch(tokens.skip(n), batch, action, mode, exchange);
        assert(all.skip(1) =~= rest);
        assert(tokens.take(n) + tokens.skip(n) =~= tokens);
        assert forall|i: int| 0 <= i < all.len() implies {
            let one = #[trigger] all[i];
            &&& 0 < one.tokens.len() <= batch
            &&& i < all.len() - 1 ==> one.tokens.len() == batch
            &&& one.action == action
            &&& one.mode == mode
            &&& one.exchange_type == exchange
        } by {
            if i > 0 {
                assert(all[i] == rest[i - 1]);
            } else if all.len() > 1 {
                assert(tokens.skip(n).len() > 0);
            }
        }
    }
}

/// The tokens at an exchange are those of the instruments that trade there, all of them.
pub proof fn tokens_are_of_their_exchange(list: Seq<ResolvedFacts>, exchange: int, token: Seq<char>)
    ensures
        tokens_at(list, exchange).contains(token) <==> exists|i: int|
            0 <= i < list.len() && (#[trigger] list[i]).key.exchange_type == exchange
                && list[i].key.token == token,
    decreases list.len(),
{
    let all = tokens_at(list, exchange);
    if list.len() > 0 {
        let d = list.drop_last();
        let n = list.len() - 1;
        tokens_are_of_their_exchange(d, exchange, token);
        let before = tokens_at(d, exchange);
        assert(list[n] == list.last());
        assert forall|i: int|
            #![trigger d[i]]
            #![trigger list[i]]
            0 <= i < n implies d[i] == list[i] by {}
        if before.contains(token) {
            let k = choose|k: int| 0 <= k < before.len() && before[k] == token;
            assert(all[k] == token);
            let i = choose|i: int|
                0 <= i < d.len() && (#[trigger] d[i]).key.exchange_type == exchange
                    && d[i].key.token == token;
            assert(list[i] == d[i]);
        }
        if all.contains(token) && !before.contains(token) {
            let k = choose|k: int| 0 <= k < all.len() && all[k] == token;
            if k < before.len() {
                assert(before[k] == token);
            }
        }
        if all.len() > before.len() {
            assert(all[before.len() as int] == list[n].key.token);
        }
    }
}

/// Every instrument that is to be asked for is in a request for its exchange.
pub proof fn every_instrument_is_asked_for(
    list: Seq<ResolvedFacts>,
    batch: int,
    action: u8,
    mode: u8,
    exchanges: nat,
    k: int,
)
    requires
        batch > 0,
        exchanges <= 256,
        0 <= k < list.len(),
        list[k].key.exchange_type < exchanges,
    ensures
        exists|i: int|
            {
                let one = #[trigger] asked_below(list, batch, action, mode, exchanges)[i];
                &&& 0 <= i < asked_below(list, batch, action, mode, exchanges).len()
                &&& one.exchange_type == list[k].key.exchange_type
                &&& one.tokens.contains(list[k].key.token)
                &&& one.action == action
                &&& one.mode == mode
                &&& one.tokens.len() <= batch
            },
    decreases exchanges,
{
    let e = (exchanges - 1) as nat;
    let all = asked_below(list, batch, action, mode, exchanges);
    let before = asked_below(list, batch, action, mode, e);
    let last = chunked_of(tokens_at(list, e as int), batch, action, mode, e as int);
    let token = list[k].key.token;
    if list[k].key.exchange_type < e {
        every_instrument_is_asked_for(list, batch, action, mode, e, k);
        let i = choose|i: int|
            {
                let one = #[trigger] before[i];
                &&& 0 <= i < before.len()
                &&& one.exchange_type == list[k].key.exchange_type
                &&& one.tokens.contains(token)
                &&& one.action == action
                &&& one.mode == mode
                &&& one.tokens.len() <= batch
            };
        assert(all[i] == before[i]);
    } else {
        tokens_are_of_their_exchange(list, e as int, token);
        every_token_is_in_one_batch(tokens_at(list, e as int), batch, action, mode, e as int);
        let i = batch_with(last, token);
        assert(all[before.len() + i] == last[i]);
    }
}

proof fn batch_with(requests: Seq<SubscriptionFacts>, token: Seq<char>) -> (i: int)
    requires
        tokens_together(requests).contains(token),
    ensures
        0 <= i < requests.len(),
        requests[i].tokens.contains(token),
    decreases requests.len(),
{
    let all = tokens_together(requests);
    let k = choose|k: int| 0 <= k < all.len() && all[k] == token;
    let first = requests[0].tokens;
    if k < first.len() {
        assert(first[k] == token);
        0
    } else {
        let rest = tokens_together(requests.skip(1));
        assert(rest[k - first.len()] == token);
        let i = batch_with(requests.skip(1), token);
        assert(requests.skip(1)[i] == requests[i + 1]);
        i + 1
    }
}

/// What is resolved are the instruments that can be traded and are not subscribed to yet, under
/// the keys that their tokens tell.
pub proof fn resolved_are_new_and_tradable(
    list: Seq<InstrumentFacts>,
    active: Set<Seq<char>>,
    one: ResolvedFacts,
)
    requires
        resolved_of(list, active) is Ok,
    ensures
        resolved_of(list, active)->Ok_0.contains(one) <==> exists|i: int|
            {
                let instrument = #[trigger] list[i];
                &&& 0 <= i < list.len()
                &&& instrument.tradable
                &&& key_of(instrument.instrument_token) == Ok::<KeyFacts, FeedFault>(one.key)
                &&& !active.contains(key_text(one.key))
                &&& one.symbol == instrument.trading_symbol
                &&& one.name == instrument.instrument_name
            },
        forall|i: int|
            0 <= i < list.len() && (#[trigger] list[i]).tradable ==> key_of(
                list[i].instrument_token,
            ) is Ok,
    decreases list.len(),
{
    let all = resolved_of(list, active)->Ok_0;
    if list.len() > 0 {
        let d = list.drop_last();
        let n = list.len() - 1;
        resolved_are_new_and_tradable(d, active, one);
        let before = resolved_of(d, active)->Ok_0;
        assert(list[n] == list.last());
        assert forall|i: int|
            #![trigger d[i]]
            #![trigger list[i]]
            0 <= i < n implies d[i] == list[i] by {}
        if before.contains(one) {
            let k = choose|k: int| 0 <= k < before.len() && before[k] == one;
            assert(all[k] == one);
            let i = choose|i: int|
                {
                    let instrument = #[trigger] d[i];
                    &&& 0 <= i < d.len()
                    &&& instrument.tradable
                    &&& key_of(instrument.instrument_token) == Ok::<KeyFacts, FeedFault>(one.key)
                    &&& !active.contains(key_text(one.key))
                    &&& one.symbol == instrument.trading_symbol
                    &&& one.name == instrument.instrument_name
                };
            assert(list[i] == d[i]);
        }
        if all.contains(one) && !before.contains(one) {
            let k = choose|k: int| 0 <= k < all.len() && all[k] == one;
            if k < before.len() {
                assert(before[k] == one);
            }
        }
        if all.len() > before.len() {
            let added = all[before.len() as int];
            assert(added.symbol == list[n].trading_symbol);
        }
    }
}

/// What is left are the instruments that were asked for under some symbols, under their keys.
pub proof fn left_are_known(symbols: Seq<Seq<char>>, book: BookFacts, one: ResolvedFacts)
    ensures
        known_of(symbols, book).contains(one) <==> {
            &&& symbols.contains(one.symbol)
            &&& book.symbols.contains_key(one.symbol)
            &&& book.symbols[one.symbol] == one.key
            &&& one.name == one.symbol
        },
    decreases symbols.len(),
{
    let all = known_of(symbols, book);
    if symbols.len() > 0 {
        let d = symbols.drop_last();
        let n = symbols.len() - 1;
        left_are_known(d, book, one);
        let before = known_of(d, book);
        if before.contains(one) {
            let k = choose|k: int| 0 <= k < before.len() && before[k] == one;
            assert(all[k] == one);
            let i = choose|i: int| 0 <= i < d.len() && d[i] == one.symbol;
            assert(symbols[i] == one.symbol);
        }
        if all.contains(one) && !before.contains(one) {
            let k = choose|k: int| 0 <= k < all.len() && all[k] == one;
            if k < before.len() {
                assert(before[k] == one);
            }
            assert(symbols[n] == one.symbol);
        }
        if symbols.contains(one.symbol) && !d.contains(one.symbol) {
            let i = choose|i: int| 0 <= i < symbols.len() && symbols[i] == one.symbol;
            if i < n {
                assert(d[i] == one.symbol);
            }
        }
        if all.len() > before.len() {
            assert(all[before.len() as int].symbol == symbols[n]);
        }
    }
}

/// After instruments were asked for, each is named by its own name and found under its symbol,
/// where no key and no symbol stands twice.
pub proof fn asked_instruments_are_named(book: BookFacts, list: Seq<ResolvedFacts>, k: int)
    requires
        0 <= k < list.len(),
        forall|a: int, b: int|
            0 <= a < b < list.len() ==> key_text((#[trigger] list[a]).key) != key_text(
                (#[trigger] list[b]).key,
            ) && list[a].symbol != list[b].symbol,
    ensures
        ({
            let after = after_asking(book, list);
            &&& after.active.contains(key_text(list[k].key))
            &&& after.names.contains_key(key_text(list[k].key))
            &&& after.names[key_text(list[k].key)] == list[k].name
            &&& after.symbols.contains_key(list[k].symbol)
            &&& after.symbols[list[k].symbol] == list[k].key
        }),
    decreases list.len(),
{
    let d = list.drop_last();
    let n = list.len() - 1;
    if k < n {
        assert forall|a: int, b: int| 0 <= a < b < d.len() implies key_text((#[trigger] d[a]).key)
            != key_text((#[trigger] d[b]).key) && d[a].symbol != d[b].symbol by {
            assert(d[a] == list[a] && d[b] == list[b]);
        }
        asked_instruments_are_named(book, d, k);
        assert(d[k] == list[k]);
        assert(list[n] == list.last());
    }
}

/// Nothing is asked for but the instruments of the list: a token of a request is that of one of
/// them, which trades at the exchange of the request.
pub proof fn nothing_else_is_asked_for(
    list: Seq<ResolvedFacts>,
    batch: int,
    action: u8,
    mode: u8,
    exchanges: nat,
    i: int,
    token: Seq<char>,
)
    requires
        batch > 0,
        exchanges <= 256,
        0 <= i < asked_below(list, batch, action, mode, exchanges).len(),
        asked_below(list, batch, action, mode, exchanges)[i].tokens.contains(token),
    ensures
        exists|k: int|
            0 <= k < list.len() && (#[trigger] list[k]).key.token == token
                && list[k].key.exchange_type == asked_below(
                list,
                batch,
                action,
                mode,
                exchanges,
            )[i].exchange_type,
    decreases exchanges,
{
    let e = (exchanges - 1) as nat;
    let all = asked_below(list, batch, action, mode, exchanges);
    let before = asked_below(list, batch, action, mode, e);
    let last = chunked_of(tokens_at(list, e as int), batch, action, mode, e as int);
    if i < before.len() {
        assert(all[i] == before[i]);
        nothing_else_is_asked_for(list, batch, action, mode, e, i, token);
    } else {
        assert(all[i] == last[i - before.len()]);
        every_token_is_in_one_batch(tokens_at(list, e as int), batch, action, mode, e as int);
        batch_is_of_the_whole(last, i - before.len(), token);
        tokens_are_of_their_exchange(list, e as int, token);
    }
}

proof fn batch_is_of_the_whole(requests: Seq<SubscriptionFacts>, i: int, token: Seq<char>)
    requires
        0 <= i < requests.len(),
        requests[i].tokens.contains(token),
    ensures
        tokens_together(requests).contains(token),
    decreases requests.len(),
{
    let all = tokens_together(requests);
    let first = requests[0].tokens;
    let rest = tokens_together(requests.skip(1));
    if i == 0 {
        let k = choose|k: int| 0 <= k < first.len() && first[k] == token;
        assert(all[k] == token);
    } else {
        assert(requests.skip(1)[i - 1] == requests[i]);
        batch_is_of_the_whole(requests.skip(1), i - 1, token);
        let k = choose|k: int| 0 <= k < rest.len() && rest[k] == token;
        assert(all[first.len() + k] == token);
    }
}

} // verus!
