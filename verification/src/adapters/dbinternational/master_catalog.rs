//! The instruments that can be subscribed to, by the names that the master gives them.
use crate::feeder::error::{message_of, outcome, FeedError, FeedFault};
use crate::order::filter_push;
use crate::text::{
    chars_of, copy_texts, decimal, decimal_of, decimals_read_back, is_space, join, join_of, lines,
    lines_of, lower_of, number_fault, number_fault_of, parse_of, parse_up_to, same,
    same_ignoring_case, split, split_of, split_once, split_once_at, split_once_of, trim, trim_keeps,
    trim_of, upper, upper_of, views,
};
use vstd::prelude::*;

verus! {

/// What an instrument is subscribed to by.
#[derive(Clone, Copy, Debug, PartialEq, Eq, Structural)]
pub struct DbinternationalInstrumentKey {
    pub exchange_segment: u16,
    pub exchange_instrument_id: u64,
}

/// An instrument with the names that it has.
#[derive(Debug, PartialEq, Eq)]
pub struct DbinternationalMasterInstrument {
    pub key: DbinternationalInstrumentKey,
    pub aliases: Vec<String>,
}

/// An instrument as contracts speak of it.
pub struct MasterFacts {
    pub key: DbinternationalInstrumentKey,
    pub aliases: Seq<Seq<char>>,
}

impl View for DbinternationalMasterInstrument {
    type V = MasterFacts;

    open spec fn view(&self) -> MasterFacts {
        MasterFacts { key: self.key, aliases: views(self.aliases@) }
    }
}

impl DbinternationalMasterInstrument {
    fn copy(&self) -> (r: DbinternationalMasterInstrument)
        ensures
            r@ == self@,
    {
        let aliases = copy_texts(&self.aliases);
        DbinternationalMasterInstrument { key: self.key, aliases }
    }
}

/// A name in the form that names are compared in.
pub open spec fn alias_key(value: Seq<char>) -> Seq<char> {
    upper_of(trim_of(value))
}

pub fn normalize_alias(value: &str) -> (r: String)
    ensures
        r@ == alias_key(value@),
{
    upper(trim(value).as_str())
}

/// The number of an exchange segment.
pub open spec fn segment_of(value: Seq<char>) -> Option<u16> {
    let v = upper_of(trim_of(value));
    if v == "NSECM"@ {
        Some(1)
    } else if v == "NSEFO"@ {
        Some(2)
    } else if v == "NSECD"@ {
        Some(3)
    } else if v == "NSECO"@ {
        Some(4)
    } else if v == "BSECM"@ {
        Some(11)
    } else if v == "BSEFO"@ {
        Some(12)
    } else if v == "BSECD"@ {
        Some(13)
    } else if v == "NCDEX"@ {
        Some(21)
    } else if v == "MCXFO"@ {
        Some(51)
    } else {
        None
    }
}

pub fn exchange_segment_code(value: &str) -> (r: Option<u16>)
    ensures
        r == segment_of(value@),
{
    let v = upper(trim(value).as_str());
    let t = v.as_str();
    if same(t, "NSECM") {
        Some(1)
    } else if same(t, "NSEFO") {
        Some(2)
    } else if same(t, "NSECD") {
        Some(3)
    } else if same(t, "NSECO") {
        Some(4)
    } else if same(t, "BSECM") {
        Some(11)
    } else if same(t, "BSEFO") {
        Some(12)
    } else if same(t, "BSECD") {
        Some(13)
    } else if same(t, "NCDEX") {
        Some(21)
    } else if same(t, "MCXFO") {
        Some(51)
    } else {
        None
    }
}

/// What an instrument is subscribed to by, as its token gives it.
pub open spec fn key_of(token: Seq<char>) -> Result<DbinternationalInstrumentKey, FeedFault> {
    match split_once_of(trim_of(token), ':') {
        None => Err(
            FeedFault::InvalidInstrument(
                "DBInternational instrument_token "@ + token
                    + " must be exchangeSegment:exchangeInstrumentID"@,
            ),
        ),
        Some((segment, id)) => match segment_of(segment) {
            None => Err(
                FeedFault::InvalidInstrument(
                    "unsupported DBInternational exchange segment "@ + segment,
                ),
            ),
            Some(exchange_segment) => match parse_of(id, u64::MAX as nat) {
                None => Err(
                    FeedFault::InvalidInstrument(
                        "invalid DBInternational exchangeInstrumentID "@ + id + ": "@
                            + number_fault_of(id, u64::MAX as nat),
                    ),
                ),
                Some(n) => Ok(
                    DbinternationalInstrumentKey {
                        exchange_segment,
                        exchange_instrument_id: n as u64,
                    },
                ),
            },
        },
    }
}

pub fn instrument_key_from_token(value: &str) -> (r: Result<
    DbinternationalInstrumentKey,
    FeedError,
>)
    ensures
        match r {
            Ok(key) => key_of(value@) == Ok::<DbinternationalInstrumentKey, FeedFault>(key),
            Err(e) => key_of(value@) == Err::<DbinternationalInstrumentKey, FeedFault>(e@),
        },
{
    let (segment, id) = match split_once(trim(value).as_str(), ':') {
        Some(parts) => parts,
        None => {
            let mut message = "DBInternational instrument_token ".to_owned();
            message.append(value);
            message.append(" must be exchangeSegment:exchangeInstrumentID");
            return Err(FeedError::InvalidInstrument(message));
        },
    };
    let exchange_segment: u16 = match exchange_segment_code(segment.as_str()) {
        Some(code) => code,
        None => return Err(
            FeedError::InvalidInstrument(
                "unsupported DBInternational exchange segment ".to_owned().concat(
                    segment.as_str(),
                ),
            ),
        ),
    };
    match parse_up_to(id.as_str(), u64::MAX) {
        Some(exchange_instrument_id) => Ok(
            DbinternationalInstrumentKey { exchange_segment, exchange_instrument_id },
        ),
        None => {
            let mut message = "invalid DBInternational exchangeInstrumentID ".to_owned();
            message.append(id.as_str());
            message.append(": ");
            message.append(number_fault(id.as_str(), u64::MAX).as_str());
            Err(FeedError::InvalidInstrument(message))
        },
    }
}

/// The fields of a line of the master.
pub open spec fn fields_of(line: Seq<char>) -> Seq<Seq<char>> {
    let parts = split_of(line, '|');
    Seq::new(parts.len(), |i: int| trim_of(parts[i]))
}

/// The fields of a line of the master.
pub fn fields(line: &str) -> (r: Vec<String>)
    ensures
        views(r@) == fields_of(line@),
{
    let parts = split(line, '|');
    let mut out: Vec<String> = Vec::new();
    let mut i: usize = 0;
    while i < parts.len()
        invariant
            i <= parts@.len(),
            views(parts@) == split_of(line@, '|'),
            views(out@) == fields_of(line@).take(i as int),
        decreases parts@.len() - i,
    {
        let ghost before = views(out@);
        out.push(trim(parts[i].as_str()));
        assert(views(parts@)[i as int] == parts@[i as int]@);
        assert(views(out@) =~= before.push(fields_of(line@)[i as int]));
        i += 1;
        assert(fields_of(line@).take(i as int) =~= before.push(fields_of(line@)[i - 1]));
    }
    assert(fields_of(line@).take(i as int) =~= fields_of(line@));
    out
}

/// Whether a character occurs in a plain number.
pub open spec fn numeric_char(c: char) -> bool {
    '0' <= c <= '9' || c == '.' || c == '-'
}

/// Whether a field can be a name.
pub open spec fn is_name(value: Seq<char>) -> bool {
    let v = trim_of(value);
    &&& v.len() > 0
    &&& v != "-1"@
    &&& v != "0"@
    &&& lower_of(v) != lower_of("null"@)
    &&& exists|i: int| 0 <= i < v.len() && !numeric_char(#[trigger] v[i])
}

pub fn usable_alias(value: &str) -> (r: bool)
    ensures
        r == is_name(value@),
{
    let v = trim(value);
    let t = v.as_str();
    if t.is_empty() || same(t, "-1") || same(t, "0") || same_ignoring_case(t, "null") {
        return false;
    }
    let chars = chars_of(t);
    let mut i: usize = 0;
    while i < chars.len()
        invariant
            i <= chars@.len(),
            chars@ == trim_of(value@),
            chars@.len() > 0 && chars@ != "-1"@ && chars@ != "0"@,
            lower_of(chars@) != lower_of("null"@),
            forall|k: int| 0 <= k < i ==> numeric_char(#[trigger] chars@[k]),
        decreases chars@.len() - i,
    {
        let c: char = chars[i];
        if !(('0' <= c && c <= '9') || c == '.' || c == '-') {
            assert(!numeric_char(chars@[i as int]));
            return true;
        }
        i += 1;
    }
    false
}

/// The places of the fields that hold names.
pub open spec fn name_place(n: int) -> int {
    seq![3int, 4, 6, 14, 15, 17, 18, 19, 20, 22][n]
}

/// Whether a name is among others, in the form that names are compared in.
pub open spec fn is_known(known: Seq<Seq<char>>, value: Seq<char>) -> bool {
    exists|i: int| 0 <= i < known.len() && alias_key(#[trigger] known[i]) == alias_key(value)
}

/// The names among the first of the fields that hold names. The names that a derivative
/// shares with its underlying are left out.
pub open spec fn names_of(fields: Seq<Seq<char>>, n: nat) -> Seq<Seq<char>>
    decreases n,
{
    if n == 0 {
        Seq::empty()
    } else {
        let before = names_of(fields, (n - 1) as nat);
        let at = name_place(n - 1);
        let derivative = fields.len() > 2 && (fields[2] == "1"@ || fields[2] == "2"@ || fields[2]
            == "4"@);
        if derivative && (at == 3 || at == 15) || at >= fields.len() || !is_name(fields[at])
            || is_known(before, trim_of(fields[at])) {
            before
        } else {
            before.push(trim_of(fields[at]))
        }
    }
}

fn knows(known: &Vec<String>, value: &str) -> (r: bool)
    ensures
        r == is_known(views(known@), value@),
{
    let key = normalize_alias(value);
    let mut i: usize = 0;
    while i < known.len()
        invariant
            i <= known@.len(),
            key@ == alias_key(value@),
            forall|k: int| 0 <= k < i ==> alias_key(#[trigger] views(known@)[k]) != key@,
        decreases known@.len() - i,
    {
        assert(views(known@)[i as int] == known@[i as int]@);
        if same(normalize_alias(known[i].as_str()).as_str(), key.as_str()) {
            return true;
        }
        i += 1;
    }
    false
}

/// The names in the fields of a line.
pub fn alias_fields(fields: &Vec<String>) -> (r: Vec<String>)
    ensures
        views(r@) == names_of(views(fields@), 10),
{
    let ghost cells = views(fields@);
    let places: Vec<usize> = vec![3, 4, 6, 14, 15, 17, 18, 19, 20, 22];
    let derivative = fields.len() > 2 && (same(fields[2].as_str(), "1") || same(
        fields[2].as_str(),
        "2",
    ) || same(fields[2].as_str(), "4"));
    let mut out: Vec<String> = Vec::new();
    let mut n: usize = 0;
    assert(views(out@) =~= Seq::empty());
    while n < places.len()
        invariant
            n <= places@.len(),
            places@.len() == 10,
            forall|k: int| 0 <= k < 10 ==> places@[k] == #[trigger] name_place(k),
            cells == views(fields@),
            derivative == (cells.len() > 2 && (cells[2] == "1"@ || cells[2] == "2"@ || cells[2]
                == "4"@)),
            views(out@) == names_of(cells, n as nat),
        decreases 10 - n,
    {
        let at: usize = places[n];
        assert(at == name_place(n as int));
        let ghost before = views(out@);
        n += 1;
        if !(derivative && (at == 3 || at == 15)) && at < fields.len() {
            assert(cells[at as int] == fields@[at as int]@);
            if usable_alias(fields[at].as_str()) {
                let name = trim(fields[at].as_str());
                if !knows(&out, name.as_str()) {
                    let ghost text = name@;
                    out.push(name);
                    assert(views(out@) =~= before.push(text));
                }
            }
        }
    }
    out
}

/// The instrument of a line, where the line is of one.
pub open spec fn instrument_of(line: Seq<char>) -> Result<Option<MasterFacts>, FeedFault> {
    let fields = fields_of(line);
    if fields.len() < 7 || segment_of(fields[0]) is None {
        Ok(None)
    } else {
        match parse_of(fields[1], u64::MAX as nat) {
            None => Err(
                FeedFault::Parse(
                    "invalid DBInternational exchangeInstrumentID "@ + fields[1] + ": "@
                        + number_fault_of(fields[1], u64::MAX as nat),
                ),
            ),
            Some(id) => {
                let aliases = names_of(fields, 10);
                if aliases.len() == 0 {
                    Ok(None)
                } else {
                    Ok(
                        Some(
                            MasterFacts {
                                key: DbinternationalInstrumentKey {
                                    exchange_segment: segment_of(fields[0])->0,
                                    exchange_instrument_id: id as u64,
                                },
                                aliases,
                            },
                        ),
                    )
                }
            },
        }
    }
}

/// The instrument of a line, where the line is of one.
pub fn parse_master_line(line: &str) -> (r: Result<
    Option<DbinternationalMasterInstrument>,
    FeedError,
>)
    ensures
        match r {
            Ok(Some(instrument)) => instrument_of(line@) == Ok::<Option<MasterFacts>, FeedFault>(
                Some(instrument@),
            ),
            Ok(None) => instrument_of(line@) == Ok::<Option<MasterFacts>, FeedFault>(None),
            Err(e) => instrument_of(line@) == Err::<Option<MasterFacts>, FeedFault>(e@),
        },
{
    let cells = fields(line);
    if cells.len() < 7 {
        return Ok(None);
    }
    assert(views(cells@)[0] == cells@[0]@);
    assert(views(cells@)[1] == cells@[1]@);
    let exchange_segment: u16 = match exchange_segment_code(cells[0].as_str()) {
        Some(code) => code,
        None => return Ok(None),
    };
    let exchange_instrument_id: u64 = match parse_up_to(cells[1].as_str(), u64::MAX) {
        Some(id) => id,
        None => {
            let mut message = "invalid DBInternational exchangeInstrumentID ".to_owned();
            message.append(cells[1].as_str());
            message.append(": ");
            message.append(number_fault(cells[1].as_str(), u64::MAX).as_str());
            return Err(FeedError::Parse(message));
        },
    };
    let aliases = alias_fields(&cells);
    if aliases.len() == 0 {
        return Ok(None);
    }
    Ok(
        Some(
            DbinternationalMasterInstrument {
                key: DbinternationalInstrumentKey { exchange_segment, exchange_instrument_id },
                aliases,
            },
        ),
    )
}

/// The instruments of the first lines of a master, or what is wrong with the first line
/// that cannot be read.
pub open spec fn instruments_of(lines: Seq<Seq<char>>) -> Result<Seq<MasterFacts>, FeedFault>
    decreases lines.len(),
{
    if lines.len() == 0 {
        Ok(Seq::empty())
    } else {
        match instruments_of(lines.drop_last()) {
            Err(e) => Err(e),
            Ok(known) => {
                let line = trim_of(lines.last());
                if line.len() == 0 {
                    Ok(known)
                } else {
                    match instrument_of(line) {
                        Err(e) => Err(
                            FeedFault::Parse(
                                "DBInternational master line "@ + decimal_of(lines.len())
                                    + " failed: "@ + message_of(e),
                            ),
                        ),
                        Ok(None) => Ok(known),
                        Ok(Some(instrument)) => Ok(known.push(instrument)),
                    }
                }
            },
        }
    }
}

proof fn instruments_fail(lines: Seq<Seq<char>>, n: int)
    requires
        0 <= n <= lines.len(),
        instruments_of(lines.take(n)) is Err,
    ensures
        instruments_of(lines) == instruments_of(lines.take(n)),
    decreases lines.len() - n,
{
    if n < lines.len() {
        assert(lines.take(n + 1).drop_last() =~= lines.take(n));
        instruments_fail(lines, n + 1);
    } else {
        assert(lines.take(n) =~= lines);
    }
}

/// Whether an instrument has a name.
pub open spec fn has_alias(instrument: MasterFacts, key: Seq<char>) -> bool {
    exists|i: int|
        0 <= i < instrument.aliases.len() && alias_key(#[trigger] instrument.aliases[i]) == key
}

/// Tells which instruments have a name.
pub open spec fn named(key: Seq<char>) -> spec_fn(MasterFacts) -> bool {
    |instrument: MasterFacts| has_alias(instrument, key)
}

/// The first names of some instruments.
pub open spec fn first_names(list: Seq<MasterFacts>) -> Seq<Seq<char>> {
    Seq::new(
        list.len(),
        |i: int|
            if list[i].aliases.len() > 0 {
                list[i].aliases[0]
            } else {
                ""@
            },
    )
}

/// The one instrument that has a name.
pub open spec fn resolved_of(list: Seq<MasterFacts>, symbol: Seq<char>) -> Result<
    MasterFacts,
    FeedFault,
> {
    let name = trim_of(symbol);
    let found = list.filter(named(alias_key(name)));
    if name.len() == 0 {
        Err(FeedFault::InvalidInstrument("DBInternational subscription symbol is empty"@))
    } else if found.len() == 0 {
        Err(
            FeedFault::InvalidInstrument(
                "DBInternational symbol "@ + name + " was not found in master"@,
            ),
        )
    } else if found.len() > 1 {
        Err(
            FeedFault::InvalidInstrument(
                "DBInternational symbol "@ + name + " is ambiguous in master: "@ + decimal_of(
                    found.len(),
                ) + " matches ("@ + join_of(
                    first_names(
                        found.take(
                            if found.len() > 5 {
                                5
                            } else {
                                found.len() as int
                            },
                        ),
                    ),
                    ", "@,
                ) + ")"@,
            ),
        )
    } else {
        Ok(found[0])
    }
}

pub open spec fn master_views(v: Seq<DbinternationalMasterInstrument>) -> Seq<MasterFacts> {
    Seq::new(v.len(), |i: int| v[i]@)
}

/// The instruments of a master.
pub struct DbinternationalMasterCatalog {
    instruments: Vec<DbinternationalMasterInstrument>,
    keys: Vec<Vec<String>>,
}

/// Whether keys are the names of an instrument in the form that names are compared in.
spec fn keys_match(instrument: MasterFacts, keys: Seq<Seq<char>>) -> bool {
    &&& keys.len() == instrument.aliases.len()
    &&& forall|i: int| 0 <= i < keys.len() ==> #[trigger] keys[i] == alias_key(instrument.aliases[i])
}

fn alias_keys(aliases: &Vec<String>) -> (r: Vec<String>)
    ensures
        r@.len() == aliases@.len(),
        forall|i: int|
            0 <= i < r@.len() ==> #[trigger] views(r@)[i] == alias_key(views(aliases@)[i]),
{
    let mut out: Vec<String> = Vec::new();
    let mut i: usize = 0;
    while i < aliases.len()
        invariant
            i <= aliases@.len(),
            out@.len() == i,
            forall|k: int|
                0 <= k < i ==> #[trigger] views(out@)[k] == alias_key(views(aliases@)[k]),
        decreases aliases@.len() - i,
    {
        let ghost before = views(out@);
        out.push(normalize_alias(aliases[i].as_str()));
        assert(forall|k: int| 0 <= k < i ==> #[trigger] views(out@)[k] == before[k]);
        i += 1;
    }
    out
}

impl DbinternationalMasterCatalog {
    #[verifier::type_invariant]
    closed spec fn keyed(self) -> bool {
        &&& self.keys@.len() == self.instruments@.len()
        &&& forall|i: int|
            0 <= i < self.keys@.len() ==> keys_match(
                #[trigger] self.instruments@[i]@,
                views(self.keys@[i]@),
            )
    }

    pub closed spec fn view(&self) -> Seq<MasterFacts> {
        master_views(self.instruments@)
    }

    /// The catalog with no instrument.
    pub fn new() -> (r: DbinternationalMasterCatalog)
        ensures
            r@ == Seq::<MasterFacts>::empty(),
    {
        let r = DbinternationalMasterCatalog { instruments: Vec::new(), keys: Vec::new() };
        assert(r@ =~= Seq::empty());
        r
    }

    fn push(&mut self, instrument: DbinternationalMasterInstrument)
        ensures
            final(self)@ == old(self)@.push(instrument@),
    {
        proof {
            use_type_invariant(&*self);
        }
        let mut me = DbinternationalMasterCatalog { instruments: Vec::new(), keys: Vec::new() };
        std::mem::swap(&mut me, self);
        let ghost before = me@;
        proof {
            use_type_invariant(&me);
        }
        let DbinternationalMasterCatalog { instruments: mut instruments, keys: mut keys } = me;
        let ghost old_instruments = instruments@;
        let ghost old_keys = keys@;
        let ghost facts = instrument@;
        let names = alias_keys(&instrument.aliases);
        instruments.push(instrument);
        keys.push(names);
        assert forall|i: int| 0 <= i < keys@.len() implies keys_match(
            #[trigger] instruments@[i]@,
            views(keys@[i]@),
        ) by {
            if i < old_keys.len() {
                assert(instruments@[i] == old_instruments[i]);
                assert(keys@[i] == old_keys[i]);
                assert(keys_match(old_instruments[i]@, views(old_keys[i]@)));
            }
        }
        *self = DbinternationalMasterCatalog { instruments, keys };
        assert(self@ =~= before.push(facts));
    }

    /// Adds the instruments of another catalog behind those of this one.
    pub fn merge(&mut self, other: &DbinternationalMasterCatalog)
        ensures
            final(self)@ == old(self)@ + other@,
    {
        let mut i: usize = 0;
        assert(self@ + other@.take(0) =~= self@);
        while i < other.instruments.len()
            invariant
                i <= other.instruments@.len(),
                self@ == old(self)@ + other@.take(i as int),
            decreases other.instruments@.len() - i,
        {
            self.push(other.instruments[i].copy());
            i += 1;
            assert(other@.take(i as int) =~= other@.take(i - 1).push(other@[i - 1]));
            assert(self@ =~= old(self)@ + other@.take(i as int));
        }
        assert(other@.take(i as int) =~= other@);
    }

    fn has(&self, i: usize, key: &str) -> (r: bool)
        requires
            i < self@.len(),
        ensures
            r == has_alias(self@[i as int], key@),
    {
        proof {
            use_type_invariant(self);
            assert(keys_match(self.instruments@[i as int]@, views(self.keys@[i as int]@)));
        }
        let names = &self.keys[i];
        let ghost facts = self@[i as int];
        let mut k: usize = 0;
        while k < names.len()
            invariant
                k <= names@.len(),
                i < self@.len(),
                facts == self@[i as int],
                keys_match(facts, views(names@)),
                forall|j: int| 0 <= j < k ==> alias_key(#[trigger] facts.aliases[j]) != key@,
            decreases names@.len() - k,
        {
            assert(views(names@)[k as int] == names@[k as int]@);
            assert(views(names@)[k as int] == alias_key(facts.aliases[k as int]));
            if same(names[k].as_str(), key) {
                assert(has_alias(facts, key@));
                return true;
            }
            k += 1;
        }
        false
    }

    /// The one instrument that has a name.
    pub fn resolve_symbol(&self, symbol: &str) -> (r: Result<
        DbinternationalMasterInstrument,
        FeedError,
    >)
        ensures
            outcome(r) == resolved_of(self@, symbol@),
    {
        let name = trim(symbol);
        if name.as_str().is_empty() {
            return Err(
                FeedError::InvalidInstrument(
                    "DBInternational subscription symbol is empty".to_owned(),
                ),
            );
        }
        let key = normalize_alias(name.as_str());
        let ghost f = named(key@);
        let mut found: Vec<DbinternationalMasterInstrument> = Vec::new();
        let mut i: usize = 0;
        assert(self@.take(0).filter(f) =~= Seq::empty()) by {
            reveal(Seq::filter);
        }
        assert(master_views(found@) =~= Seq::empty());
        while i < self.instruments.len()
            invariant
                i <= self.instruments@.len(),
                self@.len() == self.instruments@.len(),
                f == named(key@),
                master_views(found@) == self@.take(i as int).filter(f),
            decreases self.instruments@.len() - i,
        {
            let ghost before = master_views(found@);
            proof {
                filter_push(self@.take(i as int), self@[i as int], f);
                assert(self@.take(i + 1) =~= self@.take(i as int).push(self@[i as int]));
            }
            if self.has(i, key.as_str()) {
                found.push(self.instruments[i].copy());
                assert(master_views(found@) =~= before.push(self@[i as int]));
            }
            i += 1;
        }
        assert(self@.take(i as int) =~= self@);
        let ghost all = self@.filter(f);
        if found.len() == 0 {
            let mut message = "DBInternational symbol ".to_owned();
            message.append(name.as_str());
            message.append(" was not found in master");
            return Err(FeedError::InvalidInstrument(message));
        }
        if found.len() > 1 {
            let count: usize = if found.len() > 5 {
                5
            } else {
                found.len()
            };
            let mut samples: Vec<String> = Vec::new();
            let mut k: usize = 0;
            while k < count
                invariant
                    k <= count <= found@.len(),
                    all == master_views(found@),
                    views(samples@) == first_names(all.take(count as int)).take(k as int),
                decreases count - k,
            {
                let ghost before = views(samples@);
                let aliases = &found[k].aliases;
                assert(all.take(count as int)[k as int] == found@[k as int]@);
                let ghost text = first_names(all.take(count as int))[k as int];
                if aliases.len() > 0 {
                    assert(views(aliases@)[0] == aliases@[0]@);
                    samples.push(aliases[0].clone());
                } else {
                    samples.push("".to_owned());
                }
                assert(views(samples@) =~= before.push(text));
                k += 1;
                assert(first_names(all.take(count as int)).take(k as int) =~= before.push(text));
            }
            assert(first_names(all.take(count as int)).take(count as int) =~= first_names(
                all.take(count as int),
            ));
            let mut message = "DBInternational symbol ".to_owned();
            message.append(name.as_str());
            message.append(" is ambiguous in master: ");
            message.append(decimal(found.len() as u64).as_str());
            message.append(" matches (");
            message.append(join(&samples, ", ").as_str());
            message.append(")");
            return Err(FeedError::InvalidInstrument(message));
        }
        assert(all[0] == found@[0]@);
        Ok(found[0].copy())
    }
}

/// Reads a master.
pub fn parse_master_catalog(content: &str) -> (r: Result<DbinternationalMasterCatalog, FeedError>)
    ensures
        match r {
            Ok(catalog) => instruments_of(lines_of(content@)) == Ok::<Seq<MasterFacts>, FeedFault>(
                catalog@,
            ),
            Err(e) => instruments_of(lines_of(content@)) == Err::<Seq<MasterFacts>, FeedFault>(e@),
        },
{
    let all = lines(content);
    let ghost text = views(all@);
    let mut catalog = DbinternationalMasterCatalog::new();
    let mut i: usize = 0;
    assert(text.take(0) =~= Seq::empty());
    while i < all.len()
        invariant
            i <= all@.len(),
            text == views(all@),
            text == lines_of(content@),
            instruments_of(text.take(i as int)) == Ok::<Seq<MasterFacts>, FeedFault>(catalog@),
        decreases all@.len() - i,
    {
        assert(text.take(i + 1).drop_last() =~= text.take(i as int));
        assert(text.take(i + 1).last() == all@[i as int]@);
        let line = trim(all[i].as_str());
        i += 1;
        if !line.as_str().is_empty() {
            match parse_master_line(line.as_str()) {
                Ok(Some(instrument)) => catalog.push(instrument),
                Ok(None) => {},
                Err(error) => {
                    let mut message = "DBInternational master line ".to_owned();
                    message.append(decimal(i as u64).as_str());
                    message.append(" failed: ");
                    message.append(error.message().as_str());
                    proof {
                        instruments_fail(text, i as int);
                    }
                    return Err(FeedError::Parse(message));
                },
            }
        }
    }
    assert(text.take(i as int) =~= text);
    Ok(catalog)
}

/// An instrument is found in a catalog that others are added to only where it was the only
/// one of its name: adding the instruments of another catalog adds to those that have a
/// name the ones that have it there.
pub proof fn merging_adds_matches(a: Seq<MasterFacts>, b: Seq<MasterFacts>, key: Seq<char>)
    ensures
        (a + b).filter(named(key)) == a.filter(named(key)) + b.filter(named(key)),
    decreases b.len(),
{
    let f = named(key);
    if b.len() == 0 {
        assert(a + b =~= a);
        assert(b.filter(f) =~= Seq::empty()) by {
            reveal(Seq::filter);
        }
        assert(a.filter(f) + b.filter(f) =~= a.filter(f));
    } else {
        let d = b.drop_last();
        merging_adds_matches(a, d, key);
        assert(a + b =~= (a + d).push(b.last()));
        assert(b =~= d.push(b.last()));
        filter_push(a + d, b.last(), f);
        filter_push(d, b.last(), f);
        assert((a + b).filter(f) =~= a.filter(f) + b.filter(f));
    }
}

/// A symbol stands for the only instrument that has it for one of its names, whatever the case of
/// their letters; where there is none, or more than one, it stands for nothing.
pub proof fn symbols_stand_for_one_instrument(list: Seq<MasterFacts>, symbol: Seq<char>)
    ensures
        resolved_of(list, symbol) matches Ok(it) ==> {
            &&& list.contains(it)
            &&& exists|i: int|
                0 <= i < it.aliases.len() && upper_of(trim_of(#[trigger] it.aliases[i])) == upper_of(
                    trim_of(trim_of(symbol)),
                )
            &&& forall|k: int|
                0 <= k < list.len() && has_alias(
                    #[trigger] list[k],
                    upper_of(trim_of(trim_of(symbol))),
                ) ==> list[k] == it
        },
        trim_of(symbol).len() == 0 ==> resolved_of(list, symbol) is Err,
        (forall|k: int|
            0 <= k < list.len() ==> !has_alias(
                #[trigger] list[k],
                upper_of(trim_of(trim_of(symbol))),
            )) ==> resolved_of(list, symbol) is Err,
{
    let key = alias_key(trim_of(symbol));
    let f = named(key);
    let found = list.filter(f);
    if resolved_of(list, symbol) is Ok {
        let it = found[0];
        list.lemma_filter_pred(f, 0);
        assert(found.contains(found[0]));
        list.lemma_filter_contains_rev(f, it);
        let i = choose|i: int|
            0 <= i < it.aliases.len() && alias_key(#[trigger] it.aliases[i]) == key;
        assert(upper_of(trim_of(it.aliases[i])) == key);
        assert forall|k: int|
            0 <= k < list.len() && has_alias(#[trigger] list[k], key) implies list[k] == it by {
            assert(f(list[k]));
            list.lemma_filter_contains(f, k);
            let j = choose|j: int| 0 <= j < found.len() && found[j] == list[k];
            assert(j == 0);
        }
    }
    if found.len() > 0 {
        list.lemma_filter_pred(f, 0);
        assert(found.contains(found[0]));
        list.lemma_filter_contains_rev(f, found[0]);
        let k = choose|k: int| 0 <= k < list.len() && list[k] == found[0];
        assert(has_alias(list[k], key));
    }
}

/// The token of an instrument tells its key: the segment in front of the colon, and the number
/// behind it.
pub proof fn tokens_tell_keys(segment: Seq<char>, id: u64)
    requires
        segment_of(segment) is Some,
        forall|i: int| 0 <= i < segment.len() ==> segment[i] != ':' && !is_space(segment[i]),
        segment.len() > 0,
    ensures
        key_of(segment + ":"@ + decimal_of(id as nat)) == Ok::<
            DbinternationalInstrumentKey,
            FeedFault,
        >(
            DbinternationalInstrumentKey {
                exchange_segment: segment_of(segment)->0,
                exchange_instrument_id: id,
            },
        ),
{
    reveal_strlit(":");
    let number = decimal_of(id as nat);
    let token = segment + ":"@ + number;
    decimals_read_back(id as nat, u64::MAX as nat);
    assert(number.len() > 0);
    assert(token =~= segment + seq![':'] + number);
    split_once_at(segment, ':', number);
    figures_are_no_blanks(id as nat);
    assert(token.last() == number.last());
    assert(token[0] == segment[0]);
    trim_keeps(token);
}

proof fn figures_are_no_blanks(n: nat)
    ensures
        decimal_of(n).len() > 0,
        '0' <= decimal_of(n).last() <= '9',
{
}

/// Each segment has a number of its own.
pub proof fn segments_have_their_own_numbers(a: Seq<char>, b: Seq<char>)
    requires
        segment_of(a) is Some,
        segment_of(a) == segment_of(b),
    ensures
        upper_of(trim_of(a)) == upper_of(trim_of(b)),
{
}

/// The instruments of the master are those of its lines, under the number and the segment that
/// these tell, and with names that they tell.
pub proof fn lines_tell_instruments(line: Seq<char>)
    ensures
        instrument_of(line) matches Ok(Some(it)) ==> {
            let fields = fields_of(line);
            &&& fields.len() >= 7
            &&& segment_of(fields[0]) == Some(it.key.exchange_segment)
            &&& parse_of(fields[1], u64::MAX as nat) == Some(it.key.exchange_instrument_id as nat)
            &&& it.aliases.len() > 0
            &&& forall|i: int|
                0 <= i < it.aliases.len() ==> exists|k: int|
                    0 <= k < fields.len() && trim_of(#[trigger] fields[k]) == #[trigger] it.aliases[i]
            &&& forall|i: int|
                0 <= i < it.aliases.len() ==> (#[trigger] it.aliases[i]).len() > 0 && it.aliases[i]
                    != "-1"@ && it.aliases[i] != "0"@
            &&& forall|i: int, j: int|
                0 <= i < j < it.aliases.len() ==> upper_of(trim_of(#[trigger] it.aliases[i]))
                    != upper_of(trim_of(#[trigger] it.aliases[j]))
        },
{
    names_are_fields(fields_of(line), 10);
}

proof fn names_are_fields(fields: Seq<Seq<char>>, n: nat)
    requires
        n <= 10,
    ensures
        ({
            let names = names_of(fields, n);
            &&& forall|i: int|
                0 <= i < names.len() ==> exists|k: int|
                    0 <= k < fields.len() && trim_of(#[trigger] fields[k]) == #[trigger] names[i]
            &&& forall|i: int|
                0 <= i < names.len() ==> (#[trigger] names[i]).len() > 0 && names[i] != "-1"@
                    && names[i] != "0"@
            &&& forall|i: int, j: int|
                0 <= i < j < names.len() ==> alias_key(#[trigger] names[i]) != alias_key(
                    #[trigger] names[j],
                )
        }),
    decreases n,
{
    if n > 0 {
        names_are_fields(fields, (n - 1) as nat);
        let before = names_of(fields, (n - 1) as nat);
        let names = names_of(fields, n);
        let at = name_place(n - 1);
        if names.len() > before.len() {
            assert(names.last() == trim_of(fields[at]));
            assert forall|i: int| 0 <= i < names.len() implies exists|k: int|
                0 <= k < fields.len() && trim_of(#[trigger] fields[k]) == #[trigger] names[i] by {
                if i < before.len() {
                    assert(names[i] == before[i]);
                } else {
                    assert(trim_of(fields[at]) == names[i]);
                }
            }
            assert forall|i: int| 0 <= i < names.len() implies (#[trigger] names[i]).len() > 0
                && names[i] != "-1"@ && names[i] != "0"@ by {
                if i < before.len() {
                    assert(names[i] == before[i]);
                }
            }
            assert forall|i: int, j: int| 0 <= i < j < names.len() implies alias_key(
                #[trigger] names[i],
            ) != alias_key(#[trigger] names[j]) by {
                assert(names[i] == before[i]);
                if j < before.len() {
                    assert(names[j] == before[j]);
                } else {
                    assert(alias_key(before[i]) != alias_key(trim_of(fields[at])));
                }
            }
        }
    }
}

/// What is said under the lines of a master are the instruments that they tell, and all of them.
pub proof fn master_has_the_instruments_of_its_lines(lines: Seq<Seq<char>>, it: MasterFacts)
    requires
        instruments_of(lines) is Ok,
    ensures
        instruments_of(lines)->Ok_0.contains(it) <==> exists|k: int|
            0 <= k < lines.len() && trim_of(#[trigger] lines[k]).len() > 0 && instrument_of(
                trim_of(lines[k]),
            ) == Ok::<Option<MasterFacts>, FeedFault>(Some(it)),
    decreases lines.len(),
{
    let all = instruments_of(lines)->Ok_0;
    if lines.len() > 0 {
        let d = lines.drop_last();
        let n = lines.len() - 1;
        master_has_the_instruments_of_its_lines(d, it);
        let before = instruments_of(d)->Ok_0;
        assert(lines[n] == lines.last());
        assert forall|i: int|
            #![trigger d[i]]
            #![trigger lines[i]]
            0 <= i < n implies d[i] == lines[i] by {}
        if before.contains(it) {
            let k = choose|k: int| 0 <= k < before.len() && before[k] == it;
            assert(all[k] == it);
            let i = choose|k: int|
                0 <= k < d.len() && trim_of(#[trigger] d[k]).len() > 0 && instrument_of(
                    trim_of(d[k]),
                ) == Ok::<Option<MasterFacts>, FeedFault>(Some(it));
            assert(lines[i] == d[i]);
        }
        if all.contains(it) && !before.contains(it) {
            let k = choose|k: int| 0 <= k < all.len() && all[k] == it;
            if k < before.len() {
                assert(before[k] == it);
            }
        }
        if all.len() > before.len() {
            assert(all[before.len() as int] == all.last());
        }
    }
}

/// A segment has the number that it is told by on the wire, and no other segment has it.
pub proof fn segments_are_told_by_their_numbers(segment: Seq<char>)
    ensures
        ({
            let s = upper_of(trim_of(segment));
            &&& segment_of(segment) == Some(1u16) <==> s == "NSECM"@
            &&& segment_of(segment) == Some(2u16) <==> s == "NSEFO"@
            &&& segment_of(segment) == Some(3u16) <==> s == "NSECD"@
            &&& segment_of(segment) == Some(4u16) <==> s == "NSECO"@
            &&& segment_of(segment) == Some(11u16) <==> s == "BSECM"@
            &&& segment_of(segment) == Some(12u16) <==> s == "BSEFO"@
            &&& segment_of(segment) == Some(13u16) <==> s == "BSECD"@
            &&& segment_of(segment) == Some(21u16) <==> s == "NCDEX"@
            &&& segment_of(segment) == Some(51u16) <==> s == "MCXFO"@
        }),
{
    reveal_strlit("NSECM");
    reveal_strlit("NSEFO");
    reveal_strlit("NSECD");
    reveal_strlit("NSECO");
    reveal_strlit("BSECM");
    reveal_strlit("BSEFO");
    reveal_strlit("BSECD");
    reveal_strlit("NCDEX");
    reveal_strlit("MCXFO");
    assert("NSECM"@[3] != "NSEFO"@[3]);
    assert("NSECM"@[4] != "NSECD"@[4]);
    assert("NSECM"@[4] != "NSECO"@[4]);
    assert("NSECM"@[0] != "BSECM"@[0]);
    assert("NSECM"@[0] != "BSEFO"@[0]);
    assert("NSECM"@[0] != "BSECD"@[0]);
    assert("NSECM"@[1] != "NCDEX"@[1]);
    assert("NSECM"@[0] != "MCXFO"@[0]);
    assert("NSEFO"@[3] != "NSECD"@[3]);
    assert("NSEFO"@[3] != "NSECO"@[3]);
    assert("NSEFO"@[0] != "BSECM"@[0]);
    assert("NSEFO"@[0] != "BSEFO"@[0]);
    assert("NSEFO"@[0] != "BSECD"@[0]);
    assert("NSEFO"@[1] != "NCDEX"@[1]);
    assert("NSEFO"@[0] != "MCXFO"@[0]);
    assert("NSECD"@[4] != "NSECO"@[4]);
    assert("NSECD"@[0] != "BSECM"@[0]);
    assert("NSECD"@[0] != "BSEFO"@[0]);
    assert("NSECD"@[0] != "BSECD"@[0]);
    assert("NSECD"@[1] != "NCDEX"@[1]);
    assert("NSECD"@[0] != "MCXFO"@[0]);
    assert("NSECO"@[0] != "BSECM"@[0]);
    assert("NSECO"@[0] != "BSEFO"@[0]);
    assert("NSECO"@[0] != "BSECD"@[0]);
    assert("NSECO"@[1] != "NCDEX"@[1]);
    assert("NSECO"@[0] != "MCXFO"@[0]);
    assert("BSECM"@[3] != "BSEFO"@[3]);
    assert("BSECM"@[4] != "BSECD"@[4]);
    assert("BSECM"@[0] != "NCDEX"@[0]);
    assert("BSECM"@[0] != "MCXFO"@[0]);
    assert("BSEFO"@[3] != "BSECD"@[3]);
    assert("BSEFO"@[0] != "NCDEX"@[0]);
    assert("BSEFO"@[0] != "MCXFO"@[0]);
    assert("BSECD"@[0] != "NCDEX"@[0]);
    assert("BSECD"@[0] != "MCXFO"@[0]);
    assert("NCDEX"@[0] != "MCXFO"@[0]);
}

/// A field is a name where it is no blank, not nothing and no number: one character at least is
/// neither a figure, a point nor a minus.
pub proof fn numbers_are_no_names(value: Seq<char>)
    ensures
        is_name(value) ==> trim_of(value).len() > 0,
        (forall|i: int|
            0 <= i < trim_of(value).len() ==> '0' <= #[trigger] trim_of(value)[i] <= '9' || trim_of(
                value,
            )[i] == '.' || trim_of(value)[i] == '-') ==> !is_name(value),
        lower_of(trim_of(value)) == "null"@ ==> !is_name(value),
{
    reveal_strlit("null");
    assert(lower_of("null"@) =~= "null"@);
}

} // verus!
