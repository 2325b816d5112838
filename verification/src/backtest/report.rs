//! What is reported of a backtest.
use crate::backtest::stores::{
    charge_mode_name, side_label, side_name, status_label, status_name, BacktestTrade,
    FundingChargeMode,
};
use crate::binary64::Real;
use crate::feeder::catalog::flag_text;
use crate::feeder::event::{timeframe_label, timeframe_label_of, Timeframe};
use crate::json::{json_views, list_facts, parsed_text, read_json, Json, JsonFacts, Shape, ShapeFacts};
use crate::order::{
    ascending_items, ascending_of, filter_push, sort, sorted_keys, sorted_of, sorting_keeps, sorting_orders,
    take_to_set, texts_in, Ranked, TextMap, TextSet,
};
use crate::pairs::PairMap;
use crate::strategy::{PositionStatus, SsuConfig, StrategyError, StrategyFault};
use crate::text::{
    chars_of, copy_texts, decimal, decimal_of, join, join_of, signed_decimal, signed_decimal_of, views,
};
use vstd::prelude::*;

verus! {

/// The texts of amounts with six places behind the point, by the bits of the amounts, as the
/// caller's writer of numbers gave them.
pub type Shown = PairMap<String>;

/// The text of an amount: none where it is not finite.
pub open spec fn amount_text(value: Real, shown: Map<(u64, u64), String>) -> Seq<char> {
    if value.is_finite() && shown.contains_key((value.bits, 0u64)) {
        shown[(value.bits, 0u64)]@
    } else {
        ""@
    }
}

/// The text of an amount that may be missing.
pub open spec fn amount_text_if_any(value: Option<Real>, shown: Map<(u64, u64), String>) -> Seq<char> {
    match value {
        Some(value) => amount_text(value, shown),
        None => ""@,
    }
}

fn show_amount(value: Real, shown: &Shown) -> (r: String)
    ensures
        r@ == amount_text(value, shown@),
{
    if value.finite() {
        if let Some(text) = shown.get((value.bits, 0)) {
            return text.clone();
        }
    }
    "".to_owned()
}

fn show_amount_if_any(value: Option<Real>, shown: &Shown) -> (r: String)
    ensures
        r@ == amount_text_if_any(value, shown@),
{
    match value {
        Some(value) => show_amount(value, shown),
        None => "".to_owned(),
    }
}

/// Whether a text cannot stand in a field as it is.
pub open spec fn needs_quotes(value: Seq<char>) -> bool {
    exists|i: int| 0 <= i < value.len() && is_special(#[trigger] value[i])
}

pub open spec fn is_special(c: char) -> bool {
    c == ',' || c == '"' || c == '\n' || c == '\r'
}

/// A text with every quote in it written twice.
pub open spec fn doubled(value: Seq<char>) -> Seq<char>
    decreases value.len(),
{
    if value.len() == 0 {
        Seq::empty()
    } else if value.last() == '"' {
        doubled(value.drop_last()).push('"').push('"')
    } else {
        doubled(value.drop_last()).push(value.last())
    }
}

/// A text as a field of a line.
pub open spec fn field_text(value: Seq<char>) -> Seq<char> {
    if needs_quotes(value) {
        seq!['"'] + doubled(value) + seq!['"']
    } else {
        value
    }
}

/// What a text within quotes says, each pair of quotes read as one.
pub open spec fn halved(text: Seq<char>) -> Seq<char>
    decreases text.len(),
{
    if text.len() == 0 {
        Seq::empty()
    } else if text.last() == '"' && text.len() >= 2 {
        halved(text.take(text.len() - 2)).push('"')
    } else {
        halved(text.drop_last()).push(text.last())
    }
}

/// What a field of a line says.
pub open spec fn read_field(text: Seq<char>) -> Seq<char> {
    if text.len() >= 2 && text[0] == '"' {
        halved(text.subrange(1, text.len() - 1))
    } else {
        text
    }
}

proof fn doubling_is_undone(value: Seq<char>)
    ensures
        halved(doubled(value)) == value,
    decreases value.len(),
{
    if value.len() > 0 {
        let d = doubled(value.drop_last());
        doubling_is_undone(value.drop_last());
        if value.last() == '"' {
            assert(d.push('"').push('"').take(d.len() as int) =~= d);
        } else {
            assert(d.push(value.last()).drop_last() =~= d);
        }
        assert(value.drop_last().push(value.last()) =~= value);
    }
}

/// A field of a line says the text that was written into it.
pub proof fn field_reads_back(value: Seq<char>)
    ensures
        read_field(field_text(value)) == value,
{
    if needs_quotes(value) {
        let text = field_text(value);
        assert(text.subrange(1, text.len() - 1) =~= doubled(value));
        doubling_is_undone(value);
    } else if value.len() >= 2 && value[0] == '"' {
        assert(is_special(value[0]));
    }
}

/// A text as a field of a line.
pub fn csv_field(value: &str) -> (r: String)
    ensures
        r@ == field_text(value@),
{
    let v = chars_of(value);
    let mut special = false;
    let mut out: String = String::new();
    out.push('"');
    let mut i: usize = 0;
    assert(value@.take(0) =~= Seq::empty());
    assert(out@ =~= seq!['"'] + Seq::empty());
    while i < v.len()
        invariant
            i <= v@.len(),
            v@ == value@,
            special == exists|k: int| 0 <= k < i && is_special(#[trigger] value@[k]),
            out@ == seq!['"'] + doubled(value@.take(i as int)),
        decreases v@.len() - i,
    {
        let c = v[i];
        assert(value@.take(i + 1).drop_last() =~= value@.take(i as int));
        let ghost before = doubled(value@.take(i as int));
        if c == ',' || c == '"' || c == '\n' || c == '\r' {
            assert(is_special(value@[i as int]));
            special = true;
        }
        if c == '"' {
            out.push('"');
        }
        out.push(c);
        assert(out@ =~= seq!['"'] + doubled(value@.take(i + 1)));
        i += 1;
    }
    assert(value@.take(i as int) =~= value@);
    if special {
        out.push('"');
        out
    } else {
        value.to_owned()
    }
}

pub open spec fn fields_of(values: Seq<Seq<char>>) -> Seq<Seq<char>> {
    Seq::new(values.len(), |i: int| field_text(values[i]))
}

/// A line of fields.
pub open spec fn line_of(values: Seq<Seq<char>>) -> Seq<char> {
    join_of(fields_of(values), ","@) + "\n"@
}

/// A line of fields.
pub fn csv_row(values: &Vec<String>) -> (r: String)
    ensures
        r@ == line_of(views(values@)),
{
    let ghost all = fields_of(views(values@));
    let mut fields: Vec<String> = Vec::new();
    let mut i: usize = 0;
    while i < values.len()
        invariant
            i <= values@.len(),
            all == fields_of(views(values@)),
            fields@.len() == i,
            forall|k: int| 0 <= k < i ==> (#[trigger] fields@[k])@ == all[k],
        decreases values@.len() - i,
    {
        fields.push(csv_field(values[i].as_str()));
        i += 1;
    }
    assert(views(fields@) =~= all);
    join(&fields, ",").concat("\n")
}

fn put(row: &mut Vec<String>, text: &str)
    ensures
        views(final(row)@) == views(old(row)@).push(text@),
{
    let ghost before = views(row@);
    row.push(text.to_owned());
    assert(views(row@) =~= before.push(text@));
}

/// The key of a field in an object that stands under a key itself.
pub open spec fn nested_key(prefix: Seq<char>, key: Seq<char>) -> Seq<char> {
    if prefix.len() == 0 {
        key
    } else {
        prefix + "_"@ + key
    }
}

pub open spec fn key_at(keys: Seq<Seq<char>>, i: int) -> Seq<char> {
    if 0 <= i < keys.len() {
        keys[i]
    } else {
        ""@
    }
}

/// A value as it is reported.
pub open spec fn label_of(json: JsonFacts) -> Seq<char>
    decreases json,
{
    match json.shape {
        ShapeFacts::Null => ""@,
        ShapeFacts::Bool(b) => flag_text(b),
        ShapeFacts::Number { .. } => json.text,
        ShapeFacts::Text(t) => t,
        ShapeFacts::List(items) => join_of(labels_of(items), "|"@),
        ShapeFacts::Object { .. } => json.text,
    }
}

/// Values as they are reported.
pub open spec fn labels_of(items: Seq<JsonFacts>) -> Seq<Seq<char>>
    decreases items,
{
    if items.len() == 0 {
        Seq::empty()
    } else {
        labels_of(items.drop_last()).push(label_of(items.last()))
    }
}

/// The values of an object, by their keys; those of an object in it under its key and theirs.
pub open spec fn flattened(prefix: Seq<char>, json: JsonFacts, known: Map<Seq<char>, Seq<char>>) -> Map<
    Seq<char>,
    Seq<char>,
>
    decreases json,
{
    match json.shape {
        ShapeFacts::Object { keys, values } => flattened_fields(prefix, keys, values, known),
        _ => known.insert(prefix, label_of(json)),
    }
}

/// The values of some fields, by their keys.
pub open spec fn flattened_fields(
    prefix: Seq<char>,
    keys: Seq<Seq<char>>,
    values: Seq<JsonFacts>,
    known: Map<Seq<char>, Seq<char>>,
) -> Map<Seq<char>, Seq<char>>
    decreases values,
{
    if values.len() == 0 {
        known
    } else {
        flattened(
            nested_key(prefix, key_at(keys, values.len() - 1)),
            values.last(),
            flattened_fields(prefix, keys, values.drop_last(), known),
        )
    }
}

fn json_value_label(json: &Json) -> (r: String)
    ensures
        r@ == label_of(json@),
    decreases json,
{
    match &json.shape {
        Shape::Null => "".to_owned(),
        Shape::Bool(b) => {
            if *b {
                "true".to_owned()
            } else {
                "false".to_owned()
            }
        },
        Shape::Number { .. } => json.text.clone(),
        Shape::Text(t) => t.clone(),
        Shape::List(items) => {
            let ghost all = json_views(items@);
            proof {
                list_facts(*items);
            }
            let mut labels: Vec<String> = Vec::new();
            let mut i: usize = 0;
            assert(all.take(0) =~= Seq::empty());
            assert(views(labels@) =~= Seq::empty());
            while i < items.len()
                invariant
                    i <= items@.len(),
                    all == json_views(items@),
                    json.shape == Shape::List(*items),
                    views(labels@) == labels_of(all.take(i as int)),
                decreases items@.len() - i,
            {
                assert(decreases_to!(*json => json.shape));
                assert(decreases_to!(json.shape => json.shape->List_0));
                assert(decreases_to!(*items => items@));
                assert(decreases_to!(items@ => items@[i as int]));
                let ghost before = views(labels@);
                assert(all.take(i + 1).drop_last() =~= all.take(i as int));
                assert(all.take(i + 1).last() == items@[i as int]@);
                let label = json_value_label(&items[i]);
                labels.push(label);
                assert(views(labels@) =~= before.push(label@));
                i += 1;
            }
            assert(all.take(i as int) =~= all);
            join(&labels, "|")
        },
        Shape::Object { .. } => json.text.clone(),
    }
}

fn flatten_json_value(prefix: &str, json: &Json, params: &mut TextMap<String>)
    ensures
        texts_in(final(params)@) == flattened(prefix@, json@, texts_in(old(params)@)),
    decreases json,
{
    let ghost start = texts_in(params@);
    match &json.shape {
        Shape::Object { keys, values } => {
            let ghost all = json_views(values@);
            assert(json@.shape->values =~= all);
            let ghost names = views(keys@);
            let mut i: usize = 0;
            assert(all.take(0) =~= Seq::empty());
            while i < values.len()
                invariant
                    i <= values@.len(),
                    all == json_views(values@),
                    names == views(keys@),
                    json.shape == (Shape::Object { keys: *keys, values: *values }),
                    texts_in(params@) == flattened_fields(prefix@, names, all.take(i as int), start),
                decreases values@.len() - i,
            {
                assert(decreases_to!(*json => json.shape));
                assert(decreases_to!(json.shape => json.shape->values));
                assert(decreases_to!(*values => values@));
                assert(decreases_to!(values@ => values@[i as int]));
                assert(all.take(i + 1).drop_last() =~= all.take(i as int));
                assert(all.take(i + 1).last() == values@[i as int]@);
                let key = if i < keys.len() {
                    keys[i].clone()
                } else {
                    "".to_owned()
                };
                let child = if prefix.is_empty() {
                    key
                } else {
                    let mut child = prefix.to_owned();
                    child.append("_");
                    child.append(key.as_str());
                    child
                };
                assert(child@ == nested_key(prefix@, key_at(names, i as int)));
                flatten_json_value(child.as_str(), &values[i], params);
                i += 1;
            }
            assert(all.take(i as int) =~= all);
        },
        _ => {
            let ghost before = params@;
            let label = json_value_label(json);
            params.insert(prefix.to_owned(), label);
            assert(texts_in(params@) =~= texts_in(before).insert(prefix@, label@));
        },
    }
}

/// The values of the parameters of a strategy, by their keys.
pub open spec fn params_of(params_json: Seq<char>) -> Result<Map<Seq<char>, Seq<char>>, StrategyFault> {
    match parsed_text(params_json) {
        Err(error) => Err(
            StrategyFault::Parse("invalid SSU params_json for backtest report: "@ + error),
        ),
        Ok(json) => Ok(flattened(""@, json, Map::empty())),
    }
}

fn flatten_params_json(params_json: &str) -> (r: Result<TextMap<String>, StrategyError>)
    ensures
        match r {
            Ok(params) => params_of(params_json@) == Ok::<Map<Seq<char>, Seq<char>>, StrategyFault>(
                texts_in(params@),
            ),
            Err(e) => params_of(params_json@) == Err::<Map<Seq<char>, Seq<char>>, StrategyFault>(e@),
        },
{
    match read_json(params_json) {
        Err(error) => Err(
            StrategyError::Parse(
                "invalid SSU params_json for backtest report: ".to_owned().concat(error.as_str()),
            ),
        ),
        Ok(json) => {
            let mut params: TextMap<String> = TextMap::new();
            assert(texts_in(params@) =~= Map::empty());
            flatten_json_value("", &json, &mut params);
            Ok(params)
        },
    }
}

/// What is reported of a strategy.
pub struct SsuReportConfig {
    ssu_id: i64,
    enabled: bool,
    trade_gap_secs: u64,
    max_overlap: u32,
    max_positions_per_day: u32,
    timeframes: String,
    params: TextMap<String>,
}

/// What is reported of a strategy, as contracts speak of it.
pub struct ConfigFacts {
    pub ssu_id: i64,
    pub enabled: bool,
    pub trade_gap_secs: u64,
    pub max_overlap: u32,
    pub max_positions_per_day: u32,
    pub timeframes: Seq<char>,
    pub params: Map<Seq<char>, Seq<char>>,
}

impl View for SsuReportConfig {
    type V = ConfigFacts;

    closed spec fn view(&self) -> ConfigFacts {
        ConfigFacts {
            ssu_id: self.ssu_id,
            enabled: self.enabled,
            trade_gap_secs: self.trade_gap_secs,
            max_overlap: self.max_overlap,
            max_positions_per_day: self.max_positions_per_day,
            timeframes: self.timeframes@,
            params: texts_in(self.params@),
        }
    }
}

spec fn config_views(v: Seq<SsuReportConfig>) -> Seq<ConfigFacts> {
    Seq::new(v.len(), |i: int| v[i]@)
}

pub open spec fn timeframe_labels(list: Seq<Timeframe>) -> Seq<Seq<char>> {
    Seq::new(list.len(), |i: int| timeframe_label_of(list[i]))
}

fn timeframes_label(list: &Vec<Timeframe>) -> (r: String)
    ensures
        r@ == join_of(timeframe_labels(list@), "|"@),
{
    let mut labels: Vec<String> = Vec::new();
    let mut i: usize = 0;
    while i < list.len()
        invariant
            i <= list@.len(),
            labels@.len() == i,
            forall|k: int| 0 <= k < i ==> (#[trigger] labels@[k])@ == timeframe_labels(list@)[k],
        decreases list@.len() - i,
    {
        labels.push(timeframe_label(list[i]).to_owned());
        i += 1;
    }
    assert(views(labels@) =~= timeframe_labels(list@));
    join(&labels, "|")
}

/// What is reported of strategies, as they are listed.
pub open spec fn configs_of(ssus: Seq<SsuConfig>) -> Result<Seq<ConfigFacts>, StrategyFault>
    decreases ssus.len(),
{
    if ssus.len() == 0 {
        Ok(Seq::empty())
    } else {
        match configs_of(ssus.drop_last()) {
            Err(e) => Err(e),
            Ok(before) => {
                let ssu = ssus.last();
                match params_of(ssu.params_json@) {
                    Err(e) => Err(e),
                    Ok(params) => Ok(
                        before.push(
                            ConfigFacts {
                                ssu_id: ssu.ssu_id,
                                enabled: ssu.enabled,
                                trade_gap_secs: ssu.trade_gap_secs,
                                max_overlap: ssu.max_overlap,
                                max_positions_per_day: ssu.max_positions_per_day,
                                timeframes: join_of(
                                    timeframe_labels(ssu.required_timeframes@),
                                    "|"@,
                                ),
                                params,
                            },
                        ),
                    ),
                }
            },
        }
    }
}

proof fn configs_fail(ssus: Seq<SsuConfig>, n: int)
    requires
        0 <= n <= ssus.len(),
        configs_of(ssus.take(n)) is Err,
    ensures
        configs_of(ssus) == configs_of(ssus.take(n)),
    decreases ssus.len(),
{
    if n == ssus.len() {
        assert(ssus.take(n) =~= ssus);
    } else {
        assert(ssus.drop_last().take(n) =~= ssus.take(n));
        configs_fail(ssus.drop_last(), n);
    }
}

/// The keys of the parameters of strategies.
pub open spec fn param_keys_of(configs: Seq<ConfigFacts>) -> Set<Seq<char>>
    decreases configs.len(),
{
    if configs.len() == 0 {
        Set::empty()
    } else {
        param_keys_of(configs.drop_last()).union(configs.last().params.dom())
    }
}

/// The last of some strategies with a number, or the length of the list.
pub open spec fn config_place(configs: Seq<ConfigFacts>, ssu_id: i64) -> int
    decreases configs.len(),
{
    if configs.len() == 0 {
        -1
    } else if configs.last().ssu_id == ssu_id {
        configs.len() - 1
    } else {
        config_place(configs.drop_last(), ssu_id)
    }
}

proof fn config_place_bounds(configs: Seq<ConfigFacts>, ssu_id: i64)
    ensures
        -1 <= config_place(configs, ssu_id) < configs.len(),
    decreases configs.len(),
{
    if configs.len() > 0 {
        config_place_bounds(configs.drop_last(), ssu_id);
    }
}

/// What is reported of strategies, and the keys of their parameters.
pub struct SsuReportIndex {
    configs: Vec<SsuReportConfig>,
    param_keys: Vec<String>,
}

fn take_keys(set: &mut TextSet, map: &TextMap<String>)
    ensures
        final(set)@ == old(set)@.union(map@.dom()),
{
    let ghost start = set@;
    let names = sorted_keys(map);
    let ghost keys = views(names@);
    let mut i: usize = 0;
    assert(keys.take(0).to_set() =~= Set::empty());
    while i < names.len()
        invariant
            i <= names@.len(),
            keys == views(names@),
            set@ =~= start.union(keys.take(i as int).to_set()),
        decreases names@.len() - i,
    {
        proof {
            take_to_set(keys, i as int);
        }
        let _new = set.insert(names[i].clone());
        i += 1;
    }
    assert(keys.take(i as int) =~= keys);
}

/// The values of parameters under keys, in the order of the keys.
pub open spec fn values_at(keys: Seq<Seq<char>>, map: Map<Seq<char>, Seq<char>>) -> Seq<Seq<char>> {
    Seq::new(
        keys.len(),
        |i: int|
            if map.contains_key(keys[i]) {
                map[keys[i]]
            } else {
                ""@
            },
    )
}

fn put_values(row: &mut Vec<String>, keys: &Vec<String>, map: &TextMap<String>)
    ensures
        views(final(row)@) == views(old(row)@) + values_at(views(keys@), texts_in(map@)),
{
    let ghost start = views(row@);
    let ghost all = values_at(views(keys@), texts_in(map@));
    let mut i: usize = 0;
    assert(views(row@) =~= start + all.take(0));
    while i < keys.len()
        invariant
            i <= keys@.len(),
            all == values_at(views(keys@), texts_in(map@)),
            views(row@) == start + all.take(i as int),
        decreases keys@.len() - i,
    {
        assert(views(keys@)[i as int] == keys@[i as int]@);
        assert(start + all.take(i + 1) =~= (start + all.take(i as int)).push(all[i as int]));
        match map.get(keys[i].as_str()) {
            Some(value) => put(row, value.as_str()),
            None => put(row, ""),
        }
        i += 1;
    }
    assert(all.take(i as int) =~= all);
}

pub open spec fn prefixed(prefix: Seq<char>, keys: Seq<Seq<char>>) -> Seq<Seq<char>> {
    Seq::new(keys.len(), |i: int| prefix + keys[i])
}

fn put_prefixed(row: &mut Vec<String>, prefix: &str, keys: &Vec<String>)
    ensures
        views(final(row)@) == views(old(row)@) + prefixed(prefix@, views(keys@)),
{
    let ghost start = views(row@);
    let ghost all = prefixed(prefix@, views(keys@));
    let mut i: usize = 0;
    assert(views(row@) =~= start + all.take(0));
    while i < keys.len()
        invariant
            i <= keys@.len(),
            all == prefixed(prefix@, views(keys@)),
            views(row@) == start + all.take(i as int),
        decreases keys@.len() - i,
    {
        assert(views(keys@)[i as int] == keys@[i as int]@);
        assert(start + all.take(i + 1) =~= (start + all.take(i as int)).push(all[i as int]));
        put(row, prefix.to_owned().concat(keys[i].as_str()).as_str());
        i += 1;
    }
    assert(all.take(i as int) =~= all);
}

/// What is reported of the strategy with a number: how it is set up, and its parameters.
pub open spec fn ssu_values(configs: Seq<ConfigFacts>, keys: Seq<Seq<char>>, ssu_id: i64) -> Seq<Seq<char>> {
    let i = config_place(configs, ssu_id);
    if i < 0 {
        seq![""@, ""@, ""@, ""@, ""@] + values_at(keys, Map::empty())
    } else {
        let c = configs[i];
        seq![
            flag_text(c.enabled),
            c.timeframes,
            decimal_of(c.trade_gap_secs as nat),
            decimal_of(c.max_overlap as nat),
            decimal_of(c.max_positions_per_day as nat),
        ] + values_at(keys, c.params)
    }
}

impl SsuReportIndex {
    /// What is reported of the strategies.
    pub closed spec fn configs(&self) -> Seq<ConfigFacts> {
        config_views(self.configs@)
    }

    /// The keys of their parameters.
    pub closed spec fn keys(&self) -> Seq<Seq<char>> {
        views(self.param_keys@)
    }

    pub fn new(ssus: &Vec<SsuConfig>) -> (r: Result<SsuReportIndex, StrategyError>)
        ensures
            match configs_of(ssus@) {
                Err(fault) => r matches Err(e) && e@ == fault,
                Ok(configs) => r matches Ok(index) && index.configs() == configs && index.keys()
                    == ascending_of(param_keys_of(configs)),
            },
    {
        let mut configs: Vec<SsuReportConfig> = Vec::new();
        let mut set = TextSet::new();
        let mut i: usize = 0;
        assert(ssus@.take(0) =~= Seq::empty());
        assert(config_views(configs@) =~= Seq::empty());
        while i < ssus.len()
            invariant
                i <= ssus@.len(),
                configs_of(ssus@.take(i as int)) == Ok::<Seq<ConfigFacts>, StrategyFault>(
                    config_views(configs@),
                ),
                set@ == param_keys_of(config_views(configs@)),
            decreases ssus@.len() - i,
        {
            let ghost before = config_views(configs@);
            assert(ssus@.take(i + 1).drop_last() =~= ssus@.take(i as int));
            let ssu = &ssus[i];
            let params = match flatten_params_json(ssu.params_json.as_str()) {
                Ok(params) => params,
                Err(e) => {
                    proof {
                        configs_fail(ssus@, i + 1);
                    }
                    return Err(e);
                },
            };
            take_keys(&mut set, &params);
            let config = SsuReportConfig {
                ssu_id: ssu.ssu_id,
                enabled: ssu.enabled,
                trade_gap_secs: ssu.trade_gap_secs,
                max_overlap: ssu.max_overlap,
                max_positions_per_day: ssu.max_positions_per_day,
                timeframes: timeframes_label(&ssu.required_timeframes),
                params,
            };
            let ghost now = config@;
            assert(now.params.dom() =~= config.params@.dom());
            configs.push(config);
            assert(config_views(configs@) =~= before.push(now));
            assert(before.push(now).drop_last() =~= before);
            i += 1;
        }
        assert(ssus@.take(i as int) =~= ssus@);
        let param_keys = copy_texts(ascending_items(&set));
        Ok(SsuReportIndex { configs, param_keys })
    }

    fn find(&self, ssu_id: i64) -> (r: Option<usize>)
        ensures
            match r {
                Some(i) => i == config_place(self.configs(), ssu_id) && i < self.configs@.len(),
                None => config_place(self.configs(), ssu_id) == -1,
            },
    {
        let ghost all = self.configs();
        let mut i: usize = self.configs.len();
        assert(all.take(i as int) =~= all);
        while i > 0
            invariant
                i <= self.configs@.len(),
                all == config_views(self.configs@),
                config_place(all, ssu_id) == config_place(all.take(i as int), ssu_id),
            decreases i,
        {
            assert(all.take(i as int).drop_last() =~= all.take(i - 1));
            assert(all.take(i as int).last() == self.configs@[i - 1]@);
            if self.configs[i - 1].ssu_id == ssu_id {
                return Some(i - 1);
            }
            i -= 1;
        }
        None
    }

    fn push_ssu_values(&self, row: &mut Vec<String>, ssu_id: i64)
        ensures
            views(final(row)@) == views(old(row)@) + ssu_values(self.configs(), self.keys(), ssu_id),
    {
        let ghost start = views(row@);
        match self.find(ssu_id) {
            None => {
                put(row, "");
                put(row, "");
                put(row, "");
                put(row, "");
                put(row, "");
                assert(views(row@) =~= start + seq![""@, ""@, ""@, ""@, ""@]);
                let none: TextMap<String> = TextMap::new();
                assert(texts_in(none@) =~= Map::empty());
                put_values(row, &self.param_keys, &none);
                assert(views(row@) =~= start + ssu_values(self.configs(), self.keys(), ssu_id));
            },
            Some(i) => {
                let c = &self.configs[i];
                assert(self.configs()[i as int] == c@);
                put(
                    row,
                    if c.enabled {
                        "true"
                    } else {
                        "false"
                    },
                );
                put(row, c.timeframes.as_str());
                put(row, decimal(c.trade_gap_secs).as_str());
                put(row, decimal(c.max_overlap as u64).as_str());
                put(row, decimal(c.max_positions_per_day as u64).as_str());
                assert(views(row@) =~= start + seq![
                    flag_text(c.enabled),
                    c.timeframes@,
                    decimal_of(c.trade_gap_secs as nat),
                    decimal_of(c.max_overlap as nat),
                    decimal_of(c.max_positions_per_day as nat),
                ]);
                put_values(row, &self.param_keys, &c.params);
                assert(views(row@) =~= start + ssu_values(self.configs(), self.keys(), ssu_id));
            },
        }
    }
}

pub open spec fn trade_seq(v: Seq<&BacktestTrade>) -> Seq<BacktestTrade> {
    Seq::new(v.len(), |i: int| *v[i])
}

/// The values that a trade was entered with, by their keys.
pub open spec fn metadata_of(trade: BacktestTrade) -> Map<Seq<char>, Seq<char>> {
    flattened(""@, trade.entry_metadata@, Map::empty())
}

fn flatten_metadata(trade: &BacktestTrade) -> (r: TextMap<String>)
    ensures
        texts_in(r@) == metadata_of(*trade),
{
    let mut map: TextMap<String> = TextMap::new();
    assert(texts_in(map@) =~= Map::empty());
    flatten_json_value("", &trade.entry_metadata, &mut map);
    map
}

/// The keys of the values that trades were entered with.
pub open spec fn metadata_keys(trades: Seq<BacktestTrade>) -> Set<Seq<char>>
    decreases trades.len(),
{
    if trades.len() == 0 {
        Set::empty()
    } else {
        metadata_keys(trades.drop_last()).union(metadata_of(trades.last()).dom())
    }
}

/// The keys of the values that trades were entered with.
pub fn collect_entry_metadata_keys(trades: &Vec<&BacktestTrade>) -> (r: Vec<String>)
    ensures
        views(r@) == ascending_of(metadata_keys(trade_seq(trades@))),
{
    let ghost all = trade_seq(trades@);
    let mut set = TextSet::new();
    let mut i: usize = 0;
    assert(all.take(0) =~= Seq::empty());
    while i < trades.len()
        invariant
            i <= trades@.len(),
            all == trade_seq(trades@),
            set@ == metadata_keys(all.take(i as int)),
        decreases trades@.len() - i,
    {
        assert(all.take(i + 1).drop_last() =~= all.take(i as int));
        assert(all.take(i + 1).last() == *trades@[i as int]);
        let map = flatten_metadata(trades[i]);
        assert(texts_in(map@).dom() =~= map@.dom());
        take_keys(&mut set, &map);
        i += 1;
    }
    assert(all.take(i as int) =~= all);
    copy_texts(ascending_items(&set))
}

/// The place of a trade, and what it is ordered by: when it was entered, and when it was left,
/// if ever.
pub struct TradePlace {
    pub entry_at: u64,
    pub exit_at: u64,
    pub place: usize,
}

impl Ranked for TradePlace {
    open spec fn ranks_before(&self, other: &TradePlace) -> bool {
        self.entry_at < other.entry_at || (self.entry_at == other.entry_at && self.exit_at
            < other.exit_at)
    }

    proof fn rank_is_asymmetric(a: &TradePlace, b: &TradePlace) {
    }

    proof fn rank_is_transitive(a: &TradePlace, b: &TradePlace, c: &TradePlace) {
    }

    fn is_before(&self, other: &TradePlace) -> (r: bool) {
        self.entry_at < other.entry_at || (self.entry_at == other.entry_at && self.exit_at
            < other.exit_at)
    }
}

pub open spec fn left_at(trade: BacktestTrade) -> u64 {
    match trade.exit_at {
        Some(at) => at,
        None => u64::MAX,
    }
}

pub open spec fn trade_places(trades: Seq<BacktestTrade>) -> Seq<TradePlace> {
    Seq::new(
        trades.len(),
        |i: int|
            TradePlace { entry_at: trades[i].entry_at, exit_at: left_at(trades[i]), place: i as usize },
    )
}

fn places_in_order(trades: &Vec<&BacktestTrade>) -> (r: Vec<TradePlace>)
    ensures
        r@ == sorted_of(trade_places(trade_seq(trades@))),
{
    let ghost all = trade_places(trade_seq(trades@));
    let mut items: Vec<TradePlace> = Vec::new();
    let mut i: usize = 0;
    while i < trades.len()
        invariant
            i <= trades@.len(),
            all == trade_places(trade_seq(trades@)),
            items@ == all.take(i as int),
        decreases trades@.len() - i,
    {
        let exit_at: u64 = match trades[i].exit_at {
            Some(at) => at,
            None => u64::MAX,
        };
        items.push(TradePlace { entry_at: trades[i].entry_at, exit_at, place: i });
        i += 1;
        assert(all.take(i as int) =~= all.take(i - 1).push(all[i - 1]));
    }
    assert(all.take(i as int) =~= all);
    sort(items)
}

/// The columns of the book of orders.
pub open spec fn orderbook_columns(param_keys: Seq<Seq<char>>, metric_keys: Seq<Seq<char>>) -> Seq<Seq<char>> {
    seq![
        "position_id"@,
        "ssu_id"@,
        "strategy"@,
        "ssu_enabled"@,
        "ssu_timeframes"@,
        "ssu_trade_gap_secs"@,
        "ssu_max_overlap"@,
        "ssu_max_positions_per_day"@,
    ] + prefixed("ssu_param_"@, param_keys) + prefixed("setup_"@, metric_keys) + seq![
        "instrument"@,
        "side"@,
        "status"@,
        "qty"@,
        "remaining_qty"@,
        "entry_at"@,
        "entry_price"@,
        "exit_at"@,
        "exit_price"@,
        "exit_reason"@,
        "gross_pnl"@,
        "charges"@,
        "net_pnl"@,
        "raw_entry_price"@,
        "raw_exit_price"@,
        "entry_slippage"@,
        "exit_slippage"@,
        "entry_charges"@,
        "exit_charges"@,
        "funding_charges"@,
        "partial_exits_json"@,
        "entry_signal_id"@,
        "exit_signal_id"@,
    ]
}

fn orderbook_header(param_keys: &Vec<String>, metric_keys: &Vec<String>) -> (r: Vec<String>)
    ensures
        views(r@) == orderbook_columns(views(param_keys@), views(metric_keys@)),
{
    let mut row: Vec<String> = Vec::new();
    assert(views(row@) =~= Seq::empty());
    put(&mut row, "position_id");
    put(&mut row, "ssu_id");
    put(&mut row, "strategy");
    put(&mut row, "ssu_enabled");
    put(&mut row, "ssu_timeframes");
    put(&mut row, "ssu_trade_gap_secs");
    put(&mut row, "ssu_max_overlap");
    put(&mut row, "ssu_max_positions_per_day");
    put_prefixed(&mut row, "ssu_param_", param_keys);
    put_prefixed(&mut row, "setup_", metric_keys);
    let ghost front = views(row@);
    put(&mut row, "instrument");
    put(&mut row, "side");
    put(&mut row, "status");
    put(&mut row, "qty");
    put(&mut row, "remaining_qty");
    put(&mut row, "entry_at");
    put(&mut row, "entry_price");
    put(&mut row, "exit_at");
    put(&mut row, "exit_price");
    put(&mut row, "exit_reason");
    put(&mut row, "gross_pnl");
    put(&mut row, "charges");
    put(&mut row, "net_pnl");
    put(&mut row, "raw_entry_price");
    put(&mut row, "raw_exit_price");
    put(&mut row, "entry_slippage");
    put(&mut row, "exit_slippage");
    put(&mut row, "entry_charges");
    put(&mut row, "exit_charges");
    put(&mut row, "funding_charges");
    put(&mut row, "partial_exits_json");
    put(&mut row, "entry_signal_id");
    put(&mut row, "exit_signal_id");
    assert(views(row@) =~= orderbook_columns(views(param_keys@), views(metric_keys@)));
    row
}

pub open spec fn text_if_any(value: Option<String>) -> Seq<char> {
    match value {
        Some(text) => text@,
        None => ""@,
    }
}

pub open spec fn count_if_any(value: Option<u64>) -> Seq<char> {
    match value {
        Some(n) => decimal_of(n as nat),
        None => ""@,
    }
}

/// What is reported of the exits in part of a position: the text for its id, or an empty one.
pub open spec fn exits_text(texts: Map<Seq<char>, String>, id: Seq<char>) -> Seq<char> {
    if texts.contains_key(id) {
        texts[id]@
    } else {
        ""@
    }
}

/// The last fields of a trade in the book of orders.
pub open spec fn trade_fields(
    trade: BacktestTrade,
    shown: Map<(u64, u64), String>,
    partial_json: Map<Seq<char>, String>,
) -> Seq<Seq<char>> {
    seq![
        trade.instrument@,
        side_name(trade.side),
        status_name(trade.status),
        amount_text(trade.qty, shown),
        amount_text(trade.remaining_qty, shown),
        decimal_of(trade.entry_at as nat),
        amount_text(trade.entry_price, shown),
        count_if_any(trade.exit_at),
        amount_text_if_any(trade.exit_price, shown),
        text_if_any(trade.exit_reason),
        amount_text_if_any(trade.gross_pnl, shown),
        amount_text(trade.charges, shown),
        amount_text_if_any(trade.net_pnl, shown),
        amount_text(trade.raw_entry_price, shown),
        amount_text_if_any(trade.raw_exit_price, shown),
        amount_text(trade.entry_slippage, shown),
        amount_text(trade.exit_slippage, shown),
        amount_text(trade.entry_charges, shown),
        amount_text(trade.exit_charges, shown),
        amount_text(trade.funding_charges, shown),
        exits_text(partial_json, trade.position_id@),
        trade.entry_signal_id@,
        text_if_any(trade.exit_signal_id),
    ]
}

fn put_text_if_any(row: &mut Vec<String>, value: &Option<String>)
    ensures
        views(final(row)@) == views(old(row)@).push(text_if_any(*value)),
{
    match value {
        Some(text) => put(row, text.as_str()),
        None => put(row, ""),
    }
}

fn push_trade_fields(
    row: &mut Vec<String>,
    trade: &BacktestTrade,
    shown: &Shown,
    partial_json: &TextMap<String>,
)
    ensures
        views(final(row)@) == views(old(row)@) + trade_fields(*trade, shown@, partial_json@),
{
    let ghost start = views(row@);
    put(row, trade.instrument.as_str());
    put(row, side_label(trade.side));
    put(row, status_label(trade.status));
    put(row, show_amount(trade.qty, shown).as_str());
    put(row, show_amount(trade.remaining_qty, shown).as_str());
    put(row, decimal(trade.entry_at).as_str());
    put(row, show_amount(trade.entry_price, shown).as_str());
    match trade.exit_at {
        Some(at) => put(row, decimal(at).as_str()),
        None => put(row, ""),
    }
    put(row, show_amount_if_any(trade.exit_price, shown).as_str());
    put_text_if_any(row, &trade.exit_reason);
    put(row, show_amount_if_any(trade.gross_pnl, shown).as_str());
    put(row, show_amount(trade.charges, shown).as_str());
    put(row, show_amount_if_any(trade.net_pnl, shown).as_str());
    put(row, show_amount(trade.raw_entry_price, shown).as_str());
    put(row, show_amount_if_any(trade.raw_exit_price, shown).as_str());
    put(row, show_amount(trade.entry_slippage, shown).as_str());
    put(row, show_amount(trade.exit_slippage, shown).as_str());
    put(row, show_amount(trade.entry_charges, shown).as_str());
    put(row, show_amount(trade.exit_charges, shown).as_str());
    put(row, show_amount(trade.funding_charges, shown).as_str());
    match partial_json.get(trade.position_id.as_str()) {
        Some(text) => put(row, text.as_str()),
        None => put(row, ""),
    }
    put(row, trade.entry_signal_id.as_str());
    put_text_if_any(row, &trade.exit_signal_id);
    assert(views(row@) =~= start + trade_fields(*trade, shown@, partial_json@));
}

/// A trade in the book of orders.
pub open spec fn trade_row(
    trade: BacktestTrade,
    configs: Seq<ConfigFacts>,
    param_keys: Seq<Seq<char>>,
    metric_keys: Seq<Seq<char>>,
    shown: Map<(u64, u64), String>,
    partial_json: Map<Seq<char>, String>,
) -> Seq<Seq<char>> {
    seq![trade.position_id@, signed_decimal_of(trade.ssu_id as int), trade.strategy_key@]
        + ssu_values(configs, param_keys, trade.ssu_id) + values_at(
        metric_keys,
        metadata_of(trade),
    ) + trade_fields(trade, shown, partial_json)
}

/// The lines of the first trades of the book of orders, in their order.
pub open spec fn trade_lines(
    order: Seq<TradePlace>,
    trades: Seq<BacktestTrade>,
    configs: Seq<ConfigFacts>,
    param_keys: Seq<Seq<char>>,
    metric_keys: Seq<Seq<char>>,
    shown: Map<(u64, u64), String>,
    partial_json: Map<Seq<char>, String>,
) -> Seq<char>
    decreases order.len(),
{
    if order.len() == 0 {
        Seq::empty()
    } else {
        trade_lines(
            order.drop_last(),
            trades,
            configs,
            param_keys,
            metric_keys,
            shown,
            partial_json,
        ) + line_of(
            trade_row(
                trades[order.last().place as int],
                configs,
                param_keys,
                metric_keys,
                shown,
                partial_json,
            ),
        )
    }
}

proof fn places_stay(s: Seq<TradePlace>, n: nat)
    requires
        forall|i: int| 0 <= i < s.len() ==> (#[trigger] s[i]).place < n,
    ensures
        forall|i: int| 0 <= i < sorted_of(s).len() ==> (#[trigger] sorted_of(s)[i]).place < n,
{
    assert forall|i: int| 0 <= i < sorted_of(s).len() implies (#[trigger] sorted_of(s)[i]).place < n by {
        sorting_keeps(s, i);
    }
}

/// The book of orders: the trades by when they were entered and left. `shown` has the texts
/// of amounts, and `partial_json` what is told of the exits in part, by the ids of positions.
pub fn orderbook_csv(
    trades: &Vec<&BacktestTrade>,
    index: &SsuReportIndex,
    metric_keys: &Vec<String>,
    shown: &Shown,
    partial_json: &TextMap<String>,
) -> (r: String)
    ensures
        r@ == line_of(orderbook_columns(index.keys(), views(metric_keys@))) + trade_lines(
            sorted_of(trade_places(trade_seq(trades@))),
            trade_seq(trades@),
            index.configs(),
            index.keys(),
            views(metric_keys@),
            shown@,
            partial_json@,
        ),
{
    let header = orderbook_header(&index.param_keys, metric_keys);
    let mut out = csv_row(&header);
    let ghost front = out@;
    let ghost all = trade_seq(trades@);
    let order = places_in_order(trades);
    let count: usize = trades.len();
    proof {
        let places = trade_places(all);
        assert forall|i: int| 0 <= i < places.len() implies (#[trigger] places[i]).place
            < trades@.len() by {
            assert(trades@.len() == count);
        }
        places_stay(places, trades@.len());
    }
    let mut i: usize = 0;
    assert(order@.take(0) =~= Seq::empty());
    assert(out@ =~= front + Seq::empty());
    while i < order.len()
        invariant
            i <= order@.len(),
            all == trade_seq(trades@),
            forall|k: int| 0 <= k < order@.len() ==> (#[trigger] order@[k]).place < trades@.len(),
            out@ == front + trade_lines(
                order@.take(i as int),
                all,
                index.configs(),
                index.keys(),
                views(metric_keys@),
                shown@,
                partial_json@,
            ),
        decreases order@.len() - i,
    {
        assert(order@.take(i + 1).drop_last() =~= order@.take(i as int));
        let place: usize = order[i].place;
        let trade = trades[place];
        let mut row: Vec<String> = Vec::new();
        assert(views(row@) =~= Seq::empty());
        put(&mut row, trade.position_id.as_str());
        put(&mut row, signed_decimal(trade.ssu_id).as_str());
        put(&mut row, trade.strategy_key.as_str());
        index.push_ssu_values(&mut row, trade.ssu_id);
        let metadata = flatten_metadata(trade);
        put_values(&mut row, metric_keys, &metadata);
        push_trade_fields(&mut row, trade, shown, partial_json);
        assert(views(row@) =~= trade_row(
            *trade,
            index.configs(),
            index.keys(),
            views(metric_keys@),
            shown@,
            partial_json@,
        ));
        let ghost before = out@;
        out.append(csv_row(&row).as_str());
        i += 1;
        assert(out@ =~= front + trade_lines(
            order@.take(i as int),
            all,
            index.configs(),
            index.keys(),
            views(metric_keys@),
            shown@,
            partial_json@,
        ));
    }
    assert(order@.take(i as int) =~= order@);
    out
}

/// What is reported on besides the trades: what was asked for, how many candles there were,
/// the costs, and the strategies.
#[derive(Debug)]
pub struct BacktestReportInput {
    pub instruments: Vec<String>,
    pub from: u64,
    pub to: u64,
    pub warmup_bars: usize,
    pub replay_bars: usize,
    pub slippage_pct: Real,
    pub brokerage_pct: Real,
    pub entry_fee_pct: Option<Real>,
    pub exit_fee_pct: Option<Real>,
    pub fee_tax_pct: Real,
    pub fixed_fee_per_order: Real,
    pub funding_rate_pct: Real,
    pub funding_interval_hours: u64,
    pub funding_charge_mode: FundingChargeMode,
    pub ssus: Vec<SsuConfig>,
}

/// A strategy in the summary: its number and its name, the instruments that it traded, and
/// the places of its trades.
#[derive(Debug)]
pub struct SsuSummaryRow {
    pub ssu_id: i64,
    pub strategy_key: String,
    pub instruments: String,
    pub places: Vec<usize>,
}

/// A strategy in the summary, as contracts speak of it.
pub struct RowFacts {
    pub ssu_id: i64,
    pub strategy_key: Seq<char>,
    pub instruments: Seq<char>,
    pub places: Seq<usize>,
}

impl View for SsuSummaryRow {
    type V = RowFacts;

    open spec fn view(&self) -> RowFacts {
        RowFacts {
            ssu_id: self.ssu_id,
            strategy_key: self.strategy_key@,
            instruments: self.instruments@,
            places: self.places@,
        }
    }
}

pub open spec fn row_views(v: Seq<SsuSummaryRow>) -> Seq<RowFacts> {
    Seq::new(v.len(), |i: int| v[i]@)
}

impl Ranked for SsuSummaryRow {
    open spec fn ranks_before(&self, other: &SsuSummaryRow) -> bool {
        self.ssu_id < other.ssu_id
    }

    proof fn rank_is_asymmetric(a: &SsuSummaryRow, b: &SsuSummaryRow) {
    }

    proof fn rank_is_transitive(a: &SsuSummaryRow, b: &SsuSummaryRow, c: &SsuSummaryRow) {
    }

    fn is_before(&self, other: &SsuSummaryRow) -> (r: bool) {
        self.ssu_id < other.ssu_id
    }
}

/// The places of the trades of a strategy.
pub open spec fn places_of(trades: Seq<BacktestTrade>, ssu_id: i64) -> Seq<usize>
    decreases trades.len(),
{
    if trades.len() == 0 {
        Seq::empty()
    } else {
        let before = places_of(trades.drop_last(), ssu_id);
        if trades.last().ssu_id == ssu_id {
            before.push((trades.len() - 1) as usize)
        } else {
            before
        }
    }
}

proof fn places_fit(trades: Seq<BacktestTrade>, ssu_id: i64)
    requires
        trades.len() <= usize::MAX,
    ensures
        forall|i: int|
            0 <= i < places_of(trades, ssu_id).len() ==> (#[trigger] places_of(trades, ssu_id)[i])
                < trades.len() && trades[places_of(trades, ssu_id)[i] as int].ssu_id == ssu_id,
    decreases trades.len(),
{
    if trades.len() > 0 {
        places_fit(trades.drop_last(), ssu_id);
        let before = places_of(trades.drop_last(), ssu_id);
        assert forall|i: int|
            0 <= i < places_of(trades, ssu_id).len() implies (#[trigger] places_of(trades, ssu_id)[i])
                < trades.len() && trades[places_of(trades, ssu_id)[i] as int].ssu_id == ssu_id by {
            if i < before.len() {
                assert(places_of(trades, ssu_id)[i] == before[i]);
            }
        }
    }
}

fn find_places(trades: &Vec<&BacktestTrade>, ssu_id: i64) -> (r: Vec<usize>)
    ensures
        r@ == places_of(trade_seq(trades@), ssu_id),
{
    let ghost all = trade_seq(trades@);
    let mut out: Vec<usize> = Vec::new();
    let mut i: usize = 0;
    assert(all.take(0) =~= Seq::empty());
    while i < trades.len()
        invariant
            i <= trades@.len(),
            all == trade_seq(trades@),
            out@ == places_of(all.take(i as int), ssu_id),
        decreases trades@.len() - i,
    {
        assert(all.take(i + 1).drop_last() =~= all.take(i as int));
        if trades[i].ssu_id == ssu_id {
            out.push(i);
        }
        i += 1;
    }
    assert(all.take(i as int) =~= all);
    out
}

/// The instruments of the trades at some places.
pub open spec fn instruments_at(trades: Seq<BacktestTrade>, places: Seq<usize>) -> Set<Seq<char>>
    decreases places.len(),
{
    if places.len() == 0 {
        Set::empty()
    } else {
        instruments_at(trades, places.drop_last()).insert(trades[places.last() as int].instrument@)
    }
}

/// The instruments of a strategy: those that it traded, or all that were asked for.
pub open spec fn instruments_text(
    trades: Seq<BacktestTrade>,
    places: Seq<usize>,
    asked: Seq<Seq<char>>,
) -> Seq<char> {
    let traded = instruments_at(trades, places);
    if traded == Set::<Seq<char>>::empty() {
        join_of(ascending_of(asked.to_set()), "|"@)
    } else {
        join_of(ascending_of(traded), "|"@)
    }
}

fn instruments_label(trades: &Vec<&BacktestTrade>, places: &Vec<usize>, asked: &Vec<String>) -> (r:
    String)
    requires
        forall|i: int| 0 <= i < places@.len() ==> (#[trigger] places@[i]) < trades@.len(),
    ensures
        r@ == instruments_text(trade_seq(trades@), places@, views(asked@)),
{
    let ghost all = trade_seq(trades@);
    let mut set = TextSet::new();
    let mut i: usize = 0;
    assert(places@.take(0) =~= Seq::empty());
    while i < places.len()
        invariant
            i <= places@.len(),
            all == trade_seq(trades@),
            forall|k: int| 0 <= k < places@.len() ==> (#[trigger] places@[k]) < trades@.len(),
            set@ == instruments_at(all, places@.take(i as int)),
        decreases places@.len() - i,
    {
        assert(places@.take(i + 1).drop_last() =~= places@.take(i as int));
        let place: usize = places[i];
        let _new = set.insert(trades[place].instrument.clone());
        i += 1;
    }
    assert(places@.take(i as int) =~= places@);
    if set.is_empty() {
        let ghost names = views(asked@);
        let mut k: usize = 0;
        assert(names.take(0).to_set() =~= Set::empty());
        while k < asked.len()
            invariant
                k <= asked@.len(),
                names == views(asked@),
                set@ == names.take(k as int).to_set(),
            decreases asked@.len() - k,
        {
            proof {
                take_to_set(names, k as int);
            }
            let _new = set.insert(asked[k].clone());
            k += 1;
        }
        assert(names.take(k as int) =~= names);
    }
    join(ascending_items(&set), "|")
}

/// Whether a strategy with a number is among some.
pub open spec fn has_ssu(ssus: Seq<SsuConfig>, ssu_id: i64) -> bool {
    exists|i: int| 0 <= i < ssus.len() && (#[trigger] ssus[i]).ssu_id == ssu_id
}

fn holds_ssu(ssus: &Vec<SsuConfig>, count: usize, ssu_id: i64) -> (r: bool)
    requires
        count <= ssus@.len(),
    ensures
        r == has_ssu(ssus@.take(count as int), ssu_id),
{
    let ghost list = ssus@.take(count as int);
    let mut i: usize = 0;
    while i < count
        invariant
            i <= count <= ssus@.len(),
            list == ssus@.take(count as int),
            forall|k: int| 0 <= k < i ==> (#[trigger] list[k]).ssu_id != ssu_id,
        decreases count - i,
    {
        assert(list[i as int] == ssus@[i as int]);
        if ssus[i].ssu_id == ssu_id {
            return true;
        }
        i += 1;
    }
    false
}

/// The strategies that were tried, each with its trades; one whose number came before has
/// none.
pub open spec fn tried_rows(
    ssus: Seq<SsuConfig>,
    trades: Seq<BacktestTrade>,
    asked: Seq<Seq<char>>,
) -> Seq<RowFacts>
    decreases ssus.len(),
{
    if ssus.len() == 0 {
        Seq::empty()
    } else {
        let ssu = ssus.last();
        let places = if has_ssu(ssus.drop_last(), ssu.ssu_id) {
            Seq::empty()
        } else {
            places_of(trades, ssu.ssu_id)
        };
        tried_rows(ssus.drop_last(), trades, asked).push(
            RowFacts {
                ssu_id: ssu.ssu_id,
                strategy_key: ssu.strategy_key@,
                instruments: instruments_text(trades, places, asked),
                places,
            },
        )
    }
}

/// The strategies that have trades among the first ones and were not tried.
pub open spec fn other_rows(
    n: nat,
    ssus: Seq<SsuConfig>,
    trades: Seq<BacktestTrade>,
    asked: Seq<Seq<char>>,
) -> Seq<RowFacts>
    decreases n,
{
    if n == 0 {
        Seq::empty()
    } else {
        let before = other_rows((n - 1) as nat, ssus, trades, asked);
        let trade = trades[n - 1];
        if has_ssu(ssus, trade.ssu_id) || places_of(trades.take(n - 1), trade.ssu_id).len() > 0 {
            before
        } else {
            let places = places_of(trades, trade.ssu_id);
            before.push(
                RowFacts {
                    ssu_id: trade.ssu_id,
                    strategy_key: trade.strategy_key@,
                    instruments: instruments_text(trades, places, asked),
                    places,
                },
            )
        }
    }
}

/// Whether rows are some given ones, by the numbers of their strategies.
pub open spec fn is_summary_of(sorted: Seq<SsuSummaryRow>, facts: Seq<RowFacts>) -> bool {
    exists|rows: Seq<SsuSummaryRow>| row_views(rows) == facts && sorted == #[trigger] sorted_of(rows)
}

/// Whether the places of rows are those of trades.
pub open spec fn places_are_of(rows: Seq<RowFacts>, count: nat) -> bool {
    forall|i: int, k: int|
        0 <= i < rows.len() && 0 <= k < rows[i].places.len() ==> (#[trigger] rows[i].places[k]) < count
}

/// The strategies of the summary, by their numbers: those that were tried, and those that have
/// trades besides.
pub fn summary_rows(ssus: &Vec<SsuConfig>, trades: &Vec<&BacktestTrade>, asked: &Vec<String>) -> (r:
    Vec<SsuSummaryRow>)
    ensures
        is_summary_of(
            r@,
            tried_rows(ssus@, trade_seq(trades@), views(asked@)) + other_rows(
                trades@.len(),
                ssus@,
                trade_seq(trades@),
                views(asked@),
            ),
        ),
        places_are_of(row_views(r@), trades@.len()),
{
    let ghost all = trade_seq(trades@);
    let ghost names = views(asked@);
    let mut rows: Vec<SsuSummaryRow> = Vec::new();
    let count: usize = trades.len();
    let mut i: usize = 0;
    assert(ssus@.take(0) =~= Seq::empty());
    assert(row_views(rows@) =~= Seq::empty());
    while i < ssus.len()
        invariant
            i <= ssus@.len(),
            count == trades@.len(),
            all == trade_seq(trades@),
            names == views(asked@),
            row_views(rows@) == tried_rows(ssus@.take(i as int), all, names),
            places_are_of(row_views(rows@), count as nat),
        decreases ssus@.len() - i,
    {
        let ghost before = row_views(rows@);
        assert(ssus@.take(i + 1).drop_last() =~= ssus@.take(i as int));
        let ssu = &ssus[i];
        let places: Vec<usize> = if holds_ssu(ssus, i, ssu.ssu_id) {
            Vec::new()
        } else {
            find_places(trades, ssu.ssu_id)
        };
        proof {
            places_fit(all, ssu.ssu_id);
        }
        let row = SsuSummaryRow {
            ssu_id: ssu.ssu_id,
            strategy_key: ssu.strategy_key.clone(),
            instruments: instruments_label(trades, &places, asked),
            places,
        };
        let ghost now = row@;
        rows.push(row);
        assert(row_views(rows@) =~= before.push(now));
        i += 1;
    }
    assert(ssus@.take(i as int) =~= ssus@);
    let ghost tried = row_views(rows@);
    let mut k: usize = 0;
    assert(row_views(rows@) =~= tried + Seq::empty());
    while k < count
        invariant
            k <= count == trades@.len(),
            all == trade_seq(trades@),
            names == views(asked@),
            ssus@.take(ssus@.len() as int) =~= ssus@,
            row_views(rows@) == tried + other_rows(k as nat, ssus@, all, names),
            places_are_of(row_views(rows@), count as nat),
        decreases count - k,
    {
        let ghost before = row_views(rows@);
        let trade = trades[k];
        let known = holds_ssu(ssus, ssus.len(), trade.ssu_id);
        let places = find_places(trades, trade.ssu_id);
        proof {
            places_fit(all, trade.ssu_id);
            first_place(all, k as nat, trade.ssu_id);
        }
        // The first of the trades of a strategy stands for it.
        assert(places@.len() > 0 && places@[0] <= k);
        if !known && places[0] == k {
            let row = SsuSummaryRow {
                ssu_id: trade.ssu_id,
                strategy_key: trade.strategy_key.clone(),
                instruments: instruments_label(trades, &places, asked),
                places,
            };
            let ghost now = row@;
            rows.push(row);
            assert(row_views(rows@) =~= before.push(now));
            assert(row_views(rows@) =~= tried + other_rows((k + 1) as nat, ssus@, all, names));
        }
        k += 1;
    }
    let ghost facts = row_views(rows@);
    let ghost unsorted = rows@;
    let sorted = sort(rows);
    assert(row_views(unsorted) == facts && sorted@ == sorted_of(unsorted));
    proof {
        let list = row_views(sorted@);
        assert forall|i: int, k: int| 0 <= i < list.len() && 0 <= k < list[i].places.len() implies (
        #[trigger] list[i].places[k]) < trades@.len() by {
            sorting_keeps(unsorted, i);
            let j = choose|j: int| 0 <= j < unsorted.len() && unsorted[j] == sorted@[i];
            assert(facts[j].places[k] < count);
        }
    }
    sorted
}

/// The first of the trades of a strategy, of which one is known, stands at or before it; before
/// it where there is one among those ahead.
proof fn first_place(trades: Seq<BacktestTrade>, k: nat, ssu_id: i64)
    requires
        k < trades.len() <= usize::MAX,
        trades[k as int].ssu_id == ssu_id,
    ensures
        places_of(trades, ssu_id).len() > 0,
        places_of(trades, ssu_id)[0] <= k,
        places_of(trades, ssu_id)[0] == k <==> places_of(trades.take(k as int), ssu_id).len() == 0,
    decreases trades.len() - k,
{
    if k + 1 == trades.len() {
        assert(trades.take(k as int) =~= trades.drop_last());
        let before = places_of(trades.drop_last(), ssu_id);
        places_fit(trades.drop_last(), ssu_id);
        if before.len() > 0 {
            assert(before[0] < trades.drop_last().len());
            assert(places_of(trades, ssu_id)[0] == before[0]);
        }
    } else {
        let d = trades.drop_last();
        first_place_of_rest(trades, k, ssu_id);
    }
}

proof fn first_place_of_rest(trades: Seq<BacktestTrade>, k: nat, ssu_id: i64)
    requires
        k + 1 < trades.len() <= usize::MAX,
        trades[k as int].ssu_id == ssu_id,
    ensures
        places_of(trades, ssu_id).len() > 0,
        places_of(trades, ssu_id)[0] <= k,
        places_of(trades, ssu_id)[0] == k <==> places_of(trades.take(k as int), ssu_id).len() == 0,
    decreases trades.len(),
{
    let d = trades.drop_last();
    assert(d.take(k as int) =~= trades.take(k as int));
    if k + 1 == d.len() {
        assert(d.take(k as int) =~= d.drop_last());
        let before = places_of(d.drop_last(), ssu_id);
        places_fit(d.drop_last(), ssu_id);
        if before.len() > 0 {
            assert(before[0] < d.drop_last().len());
            assert(places_of(d, ssu_id)[0] == before[0]);
        }
    } else {
        first_place_of_rest(d, k, ssu_id);
    }
    assert(places_of(trades, ssu_id)[0] == places_of(d, ssu_id)[0]);
}

/// When a trade that is closed was left, and its place.
pub struct ClosedPlace {
    pub exit_at: u64,
    pub place: usize,
}

impl Ranked for ClosedPlace {
    open spec fn ranks_before(&self, other: &ClosedPlace) -> bool {
        self.exit_at < other.exit_at
    }

    proof fn rank_is_asymmetric(a: &ClosedPlace, b: &ClosedPlace) {
    }

    proof fn rank_is_transitive(a: &ClosedPlace, b: &ClosedPlace, c: &ClosedPlace) {
    }

    fn is_before(&self, other: &ClosedPlace) -> (r: bool) {
        self.exit_at < other.exit_at
    }
}

/// The trades at some places that are closed.
pub open spec fn closed_at(trades: Seq<BacktestTrade>, places: Seq<usize>) -> Seq<ClosedPlace>
    decreases places.len(),
{
    if places.len() == 0 {
        Seq::empty()
    } else {
        let before = closed_at(trades, places.drop_last());
        let trade = trades[places.last() as int];
        if trade.status == PositionStatus::Closed {
            before.push(ClosedPlace { exit_at: left_at(trade), place: places.last() })
        } else {
            before
        }
    }
}

/// How many of the trades at some places are open.
pub open spec fn open_at(trades: Seq<BacktestTrade>, places: Seq<usize>) -> nat
    decreases places.len(),
{
    if places.len() == 0 {
        0
    } else {
        open_at(trades, places.drop_last()) + if trades[places.last() as int].status
            == PositionStatus::Open {
            1nat
        } else {
            0nat
        }
    }
}

/// What trades came to, where it is known.
pub open spec fn known_amounts(values: Seq<Option<Real>>) -> Seq<Real>
    decreases values.len(),
{
    if values.len() == 0 {
        Seq::empty()
    } else {
        let before = known_amounts(values.drop_last());
        match values.last() {
            Some(value) => before.push(value),
            None => before,
        }
    }
}

/// How many amounts are above zero.
pub open spec fn wins_in(values: Seq<Real>) -> nat
    decreases values.len(),
{
    if values.len() == 0 {
        0
    } else {
        wins_in(values.drop_last()) + if !values.last().is_nan() && !values.last().le_of(
            Real { bits: 0 },
        ) {
            1nat
        } else {
            0nat
        }
    }
}

/// How many amounts are below zero.
pub open spec fn losses_in(values: Seq<Real>) -> nat
    decreases values.len(),
{
    if values.len() == 0 {
        0
    } else {
        losses_in(values.drop_last()) + if !values.last().is_nan() && !(Real { bits: 0 }).le_of(
            values.last(),
        ) {
            1nat
        } else {
            0nat
        }
    }
}

/// A trade counts as closed or as open, and as one of these only.
pub proof fn trades_are_counted_once(trades: Seq<BacktestTrade>, places: Seq<usize>)
    ensures
        closed_at(trades, places).len() + open_at(trades, places) == places.len(),
    decreases places.len(),
{
    if places.len() > 0 {
        trades_are_counted_once(trades, places.drop_last());
    }
}

/// No amount counts both as won and as lost.
pub proof fn wins_are_no_losses(values: Seq<Real>)
    ensures
        wins_in(values) + losses_in(values) <= values.len(),
    decreases values.len(),
{
    if values.len() > 0 {
        wins_are_no_losses(values.drop_last());
    }
}

/// What is counted of trades, and the amounts of those that are closed, by when they were
/// left.
#[derive(Debug)]
pub struct TradeCounts {
    pub closed_trades: usize,
    pub open_positions: usize,
    pub wins: usize,
    pub losses: usize,
    pub gross_values: Vec<Real>,
    pub charge_values: Vec<Real>,
    pub net_values: Vec<Real>,
}

pub open spec fn gross_amounts(trades: Seq<BacktestTrade>, order: Seq<ClosedPlace>) -> Seq<Option<Real>> {
    Seq::new(order.len(), |i: int| trades[order[i].place as int].gross_pnl)
}

pub open spec fn net_amounts(trades: Seq<BacktestTrade>, order: Seq<ClosedPlace>) -> Seq<Option<Real>> {
    Seq::new(order.len(), |i: int| trades[order[i].place as int].net_pnl)
}

pub open spec fn charge_amounts(trades: Seq<BacktestTrade>, order: Seq<ClosedPlace>) -> Seq<Real> {
    Seq::new(order.len(), |i: int| trades[order[i].place as int].charges)
}

proof fn closed_fit(trades: Seq<BacktestTrade>, places: Seq<usize>)
    requires
        forall|i: int| 0 <= i < places.len() ==> (#[trigger] places[i]) < trades.len(),
    ensures
        forall|i: int|
            0 <= i < closed_at(trades, places).len() ==> (#[trigger] closed_at(
                trades,
                places,
            )[i]).place < trades.len(),
        closed_at(trades, places).len() <= places.len(),
    decreases places.len(),
{
    if places.len() > 0 {
        assert forall|i: int| 0 <= i < places.drop_last().len() implies (
        #[trigger] places.drop_last()[i]) < trades.len() by {
            assert(places.drop_last()[i] == places[i]);
        }
        closed_fit(trades, places.drop_last());
        let before = closed_at(trades, places.drop_last());
        assert forall|i: int| 0 <= i < closed_at(trades, places).len() implies (
        #[trigger] closed_at(trades, places)[i]).place < trades.len() by {
            if i < before.len() {
                assert(closed_at(trades, places)[i] == before[i]);
            }
        }
    }
}

proof fn closed_order_fits(trades: Seq<BacktestTrade>, s: Seq<ClosedPlace>)
    requires
        forall|i: int| 0 <= i < s.len() ==> (#[trigger] s[i]).place < trades.len(),
    ensures
        sorted_of(s).len() == s.len(),
        forall|i: int|
            0 <= i < sorted_of(s).len() ==> (#[trigger] sorted_of(s)[i]).place < trades.len(),
{
    sorting_orders(s);
    assert forall|i: int| 0 <= i < sorted_of(s).len() implies (#[trigger] sorted_of(s)[i]).place
        < trades.len() by {
        sorting_keeps(s, i);
    }
}

/// What is counted of the trades at some places.
pub fn count_trades(trades: &Vec<&BacktestTrade>, places: &Vec<usize>) -> (r: TradeCounts)
    requires
        forall|i: int| 0 <= i < places@.len() ==> (#[trigger] places@[i]) < trades@.len(),
    ensures
        ({
            let all = trade_seq(trades@);
            let order = sorted_of(closed_at(all, places@));
            &&& r.closed_trades == closed_at(all, places@).len()
            &&& r.open_positions == open_at(all, places@)
            &&& r.gross_values@ == known_amounts(gross_amounts(all, order))
            &&& r.charge_values@ == charge_amounts(all, order)
            &&& r.net_values@ == known_amounts(net_amounts(all, order))
            &&& r.wins == wins_in(r.net_values@)
            &&& r.losses == losses_in(r.net_values@)
        }),
{
    let ghost all = trade_seq(trades@);
    let mut closed: Vec<ClosedPlace> = Vec::new();
    let mut open_positions: usize = 0;
    let mut i: usize = 0;
    assert(places@.take(0) =~= Seq::empty());
    while i < places.len()
        invariant
            i <= places@.len(),
            all == trade_seq(trades@),
            forall|k: int| 0 <= k < places@.len() ==> (#[trigger] places@[k]) < trades@.len(),
            closed@ == closed_at(all, places@.take(i as int)),
            open_positions == open_at(all, places@.take(i as int)),
            open_positions <= i,
        decreases places@.len() - i,
    {
        assert(places@.take(i + 1).drop_last() =~= places@.take(i as int));
        let place: usize = places[i];
        let trade = trades[place];
        match trade.status {
            PositionStatus::Closed => {
                let exit_at: u64 = match trade.exit_at {
                    Some(at) => at,
                    None => u64::MAX,
                };
                closed.push(ClosedPlace { exit_at, place });
            },
            PositionStatus::Open => {
                open_positions += 1;
            },
        }
        i += 1;
    }
    assert(places@.take(i as int) =~= places@);
    let closed_trades: usize = closed.len();
    proof {
        closed_fit(all, places@);
        closed_order_fits(all, closed@);
    }
    let order = sort(closed);
    let ghost gross = gross_amounts(all, order@);
    let ghost net = net_amounts(all, order@);
    let ghost charges = charge_amounts(all, order@);
    let zero = Real { bits: 0 };
    let mut gross_values: Vec<Real> = Vec::new();
    let mut charge_values: Vec<Real> = Vec::new();
    let mut net_values: Vec<Real> = Vec::new();
    let mut wins: usize = 0;
    let mut losses: usize = 0;
    let mut k: usize = 0;
    assert(gross.take(0) =~= Seq::empty());
    assert(net.take(0) =~= Seq::empty());
    while k < order.len()
        invariant
            k <= order@.len(),
            all == trade_seq(trades@),
            forall|j: int| 0 <= j < order@.len() ==> (#[trigger] order@[j]).place < trades@.len(),
            gross == gross_amounts(all, order@),
            net == net_amounts(all, order@),
            charges == charge_amounts(all, order@),
            zero == (Real { bits: 0 }),
            gross_values@ == known_amounts(gross.take(k as int)),
            charge_values@ == charges.take(k as int),
            net_values@ == known_amounts(net.take(k as int)),
            wins == wins_in(net_values@),
            losses == losses_in(net_values@),
            wins <= k,
            losses <= k,
        decreases order@.len() - k,
    {
        assert(gross.take(k + 1).drop_last() =~= gross.take(k as int));
        assert(net.take(k + 1).drop_last() =~= net.take(k as int));
        let place: usize = order[k].place;
        let trade = trades[place];
        assert(gross.take(k + 1).last() == trade.gross_pnl);
        assert(net.take(k + 1).last() == trade.net_pnl);
        if let Some(value) = trade.gross_pnl {
            gross_values.push(value);
        }
        charge_values.push(trade.charges);
        if let Some(value) = trade.net_pnl {
            let ghost before = net_values@;
            net_values.push(value);
            assert(net_values@.drop_last() =~= before);
            let up = zero.at_most(value) && !value.at_most(zero);
            let down = value.at_most(zero) && !zero.at_most(value);
            assert(up == (!value.is_nan() && !value.le_of(zero)));
            assert(down == (!value.is_nan() && !zero.le_of(value)));
            if up {
                wins += 1;
            }
            if down {
                losses += 1;
            }
        }
        k += 1;
        assert(charges.take(k as int) =~= charges.take(k - 1).push(charges[k - 1]));
    }
    assert(gross.take(k as int) =~= gross);
    assert(net.take(k as int) =~= net);
    assert(charges.take(k as int) =~= charges);
    TradeCounts {
        closed_trades,
        open_positions,
        wins,
        losses,
        gross_values,
        charge_values,
        net_values,
    }
}

/// What trades came to.
#[derive(Clone, Copy, Debug)]
pub struct SummaryMetrics {
    pub closed_trades: usize,
    pub open_positions: usize,
    pub wins: usize,
    pub losses: usize,
    pub win_rate: Real,
    pub gross_pnl: Real,
    pub charges: Real,
    pub net_pnl: Real,
    pub max_drawdown: Real,
    pub profit_factor: Option<Real>,
    pub expectancy: Real,
    pub avg_win: Option<Real>,
    pub avg_loss: Option<Real>,
    pub avg_trade: Real,
}

/// How far a strategy has come: whether it has positions, and whether some are open.
pub open spec fn status_of(places: nat, open_positions: usize) -> Seq<char> {
    if places == 0 {
        "NO_POSITIONS"@
    } else if open_positions > 0 {
        "HAS_OPEN_POSITIONS"@
    } else {
        "CLOSED"@
    }
}

fn report_status(places: usize, open_positions: usize) -> (r: &'static str)
    ensures
        r@ == status_of(places as nat, open_positions),
{
    if places == 0 {
        "NO_POSITIONS"
    } else if open_positions > 0 {
        "HAS_OPEN_POSITIONS"
    } else {
        "CLOSED"
    }
}

/// The columns of the summary.
pub open spec fn summary_columns(param_keys: Seq<Seq<char>>) -> Seq<Seq<char>> {
    seq![
        "status"@,
        "ssu_id"@,
        "strategy"@,
        "ssu_enabled"@,
        "ssu_timeframes"@,
        "ssu_trade_gap_secs"@,
        "ssu_max_overlap"@,
        "ssu_max_positions_per_day"@,
    ] + prefixed("ssu_param_"@, param_keys) + seq![
        "instruments"@,
        "from"@,
        "to"@,
        "warmup_bars"@,
        "replay_bars"@,
        "slippage_pct"@,
        "brokerage_pct"@,
        "entry_fee_pct"@,
        "exit_fee_pct"@,
        "fee_tax_pct"@,
        "fixed_fee_per_order"@,
        "funding_rate_pct"@,
        "funding_interval_hours"@,
        "funding_charge_mode"@,
        "positions"@,
        "trades"@,
        "open_positions"@,
        "wins"@,
        "losses"@,
        "win_rate"@,
        "gross_pnl"@,
        "charges"@,
        "net_pnl"@,
        "max_drawdown"@,
        "profit_factor"@,
        "expectancy"@,
        "avg_win"@,
        "avg_loss"@,
        "avg_trade"@,
    ]
}

fn summary_header(param_keys: &Vec<String>) -> (r: Vec<String>)
    ensures
        views(r@) == summary_columns(views(param_keys@)),
{
    let mut row: Vec<String> = Vec::new();
    assert(views(row@) =~= Seq::empty());
    put(&mut row, "status");
    put(&mut row, "ssu_id");
    put(&mut row, "strategy");
    put(&mut row, "ssu_enabled");
    put(&mut row, "ssu_timeframes");
    put(&mut row, "ssu_trade_gap_secs");
    put(&mut row, "ssu_max_overlap");
    put(&mut row, "ssu_max_positions_per_day");
    put_prefixed(&mut row, "ssu_param_", param_keys);
    put(&mut row, "instruments");
    put(&mut row, "from");
    put(&mut row, "to");
    put(&mut row, "warmup_bars");
    put(&mut row, "replay_bars");
    put(&mut row, "slippage_pct");
    put(&mut row, "brokerage_pct");
    put(&mut row, "entry_fee_pct");
    put(&mut row, "exit_fee_pct");
    put(&mut row, "fee_tax_pct");
    put(&mut row, "fixed_fee_per_order");
    put(&mut row, "funding_rate_pct");
    put(&mut row, "funding_interval_hours");
    put(&mut row, "funding_charge_mode");
    put(&mut row, "positions");
    put(&mut row, "trades");
    put(&mut row, "open_positions");
    put(&mut row, "wins");
    put(&mut row, "losses");
    put(&mut row, "win_rate");
    put(&mut row, "gross_pnl");
    put(&mut row, "charges");
    put(&mut row, "net_pnl");
    put(&mut row, "max_drawdown");
    put(&mut row, "profit_factor");
    put(&mut row, "expectancy");
    put(&mut row, "avg_win");
    put(&mut row, "avg_loss");
    put(&mut row, "avg_trade");
    assert(views(row@) =~= summary_columns(views(param_keys@)));
    row
}

/// What was asked for and the costs, in the summary.
pub open spec fn cost_fields(
    row: RowFacts,
    input: BacktestReportInput,
    shown: Map<(u64, u64), String>,
) -> Seq<Seq<char>> {
    seq![
        row.instruments,
        decimal_of(input.from as nat),
        decimal_of(input.to as nat),
        decimal_of(input.warmup_bars as nat),
        decimal_of(input.replay_bars as nat),
        amount_text(input.slippage_pct, shown),
        amount_text(input.brokerage_pct, shown),
        amount_text_if_any(input.entry_fee_pct, shown),
        amount_text_if_any(input.exit_fee_pct, shown),
        amount_text(input.fee_tax_pct, shown),
        amount_text(input.fixed_fee_per_order, shown),
        amount_text(input.funding_rate_pct, shown),
        decimal_of(input.funding_interval_hours as nat),
        charge_mode_name(input.funding_charge_mode),
    ]
}

/// What a strategy came to, in the summary.
pub open spec fn metric_fields(
    row: RowFacts,
    metrics: SummaryMetrics,
    shown: Map<(u64, u64), String>,
) -> Seq<Seq<char>> {
    seq![
        decimal_of(row.places.len()),
        decimal_of(metrics.closed_trades as nat),
        decimal_of(metrics.open_positions as nat),
        decimal_of(metrics.wins as nat),
        decimal_of(metrics.losses as nat),
        amount_text(metrics.win_rate, shown),
        amount_text(metrics.gross_pnl, shown),
        amount_text(metrics.charges, shown),
        amount_text(metrics.net_pnl, shown),
        amount_text(metrics.max_drawdown, shown),
        amount_text_if_any(metrics.profit_factor, shown),
        amount_text(metrics.expectancy, shown),
        amount_text_if_any(metrics.avg_win, shown),
        amount_text_if_any(metrics.avg_loss, shown),
        amount_text(metrics.avg_trade, shown),
    ]
}

fn push_cost_fields(
    row: &mut Vec<String>,
    one: &SsuSummaryRow,
    input: &BacktestReportInput,
    shown: &Shown,
)
    ensures
        views(final(row)@) == views(old(row)@) + cost_fields(one@, *input, shown@),
{
    let ghost start = views(row@);
    put(row, one.instruments.as_str());
    put(row, decimal(input.from).as_str());
    put(row, decimal(input.to).as_str());
    put(row, decimal(input.warmup_bars as u64).as_str());
    put(row, decimal(input.replay_bars as u64).as_str());
    put(row, show_amount(input.slippage_pct, shown).as_str());
    put(row, show_amount(input.brokerage_pct, shown).as_str());
    put(row, show_amount_if_any(input.entry_fee_pct, shown).as_str());
    put(row, show_amount_if_any(input.exit_fee_pct, shown).as_str());
    put(row, show_amount(input.fee_tax_pct, shown).as_str());
    put(row, show_amount(input.fixed_fee_per_order, shown).as_str());
    put(row, show_amount(input.funding_rate_pct, shown).as_str());
    put(row, decimal(input.funding_interval_hours).as_str());
    put(row, input.funding_charge_mode.label());
    assert(views(row@) =~= start + cost_fields(one@, *input, shown@));
}

fn push_metric_fields(
    row: &mut Vec<String>,
    one: &SsuSummaryRow,
    metrics: &SummaryMetrics,
    shown: &Shown,
)
    ensures
        views(final(row)@) == views(old(row)@) + metric_fields(one@, *metrics, shown@),
{
    let ghost start = views(row@);
    put(row, decimal(one.places.len() as u64).as_str());
    put(row, decimal(metrics.closed_trades as u64).as_str());
    put(row, decimal(metrics.open_positions as u64).as_str());
    put(row, decimal(metrics.wins as u64).as_str());
    put(row, decimal(metrics.losses as u64).as_str());
    put(row, show_amount(metrics.win_rate, shown).as_str());
    put(row, show_amount(metrics.gross_pnl, shown).as_str());
    put(row, show_amount(metrics.charges, shown).as_str());
    put(row, show_amount(metrics.net_pnl, shown).as_str());
    put(row, show_amount(metrics.max_drawdown, shown).as_str());
    put(row, show_amount_if_any(metrics.profit_factor, shown).as_str());
    put(row, show_amount(metrics.expectancy, shown).as_str());
    put(row, show_amount_if_any(metrics.avg_win, shown).as_str());
    put(row, show_amount_if_any(metrics.avg_loss, shown).as_str());
    put(row, show_amount(metrics.avg_trade, shown).as_str());
    assert(views(row@) =~= start + metric_fields(one@, *metrics, shown@));
}

/// The lines of the first strategies of the summary.
pub open spec fn summary_lines(
    rows: Seq<RowFacts>,
    metrics: Seq<SummaryMetrics>,
    input: BacktestReportInput,
    configs: Seq<ConfigFacts>,
    param_keys: Seq<Seq<char>>,
    shown: Map<(u64, u64), String>,
) -> Seq<char>
    decreases rows.len(),
{
    if rows.len() == 0 {
        Seq::empty()
    } else {
        let row = rows.last();
        let m = metrics[rows.len() - 1];
        summary_lines(rows.drop_last(), metrics, input, configs, param_keys, shown) + line_of(
            seq![
                status_of(row.places.len(), m.open_positions),
                signed_decimal_of(row.ssu_id as int),
                row.strategy_key,
            ] + ssu_values(configs, param_keys, row.ssu_id) + cost_fields(row, input, shown) + metric_fields(
                row,
                m,
                shown,
            ),
        )
    }
}

/// The summary: what each strategy came to. `metrics` has that of each row, and `shown` the
/// texts of amounts.
pub fn summary_csv(
    rows: &Vec<SsuSummaryRow>,
    metrics: &Vec<SummaryMetrics>,
    input: &BacktestReportInput,
    index: &SsuReportIndex,
    shown: &Shown,
) -> (r: String)
    requires
        metrics@.len() == rows@.len(),
    ensures
        r@ == line_of(summary_columns(index.keys())) + summary_lines(
            row_views(rows@),
            metrics@,
            *input,
            index.configs(),
            index.keys(),
            shown@,
        ),
{
    let header = summary_header(&index.param_keys);
    let mut out = csv_row(&header);
    let ghost front = out@;
    let ghost all = row_views(rows@);
    let mut i: usize = 0;
    assert(all.take(0) =~= Seq::empty());
    assert(out@ =~= front + Seq::empty());
    while i < rows.len()
        invariant
            i <= rows@.len() == metrics@.len(),
            all == row_views(rows@),
            out@ == front + summary_lines(
                all.take(i as int),
                metrics@,
                *input,
                index.configs(),
                index.keys(),
                shown@,
            ),
        decreases rows@.len() - i,
    {
        assert(all.take(i + 1).drop_last() =~= all.take(i as int));
        assert(all.take(i + 1).last() == rows@[i as int]@);
        let one = &rows[i];
        let m = &metrics[i];
        let mut row: Vec<String> = Vec::new();
        assert(views(row@) =~= Seq::empty());
        put(&mut row, report_status(one.places.len(), m.open_positions));
        put(&mut row, signed_decimal(one.ssu_id).as_str());
        put(&mut row, one.strategy_key.as_str());
        index.push_ssu_values(&mut row, one.ssu_id);
        push_cost_fields(&mut row, one, input, shown);
        push_metric_fields(&mut row, one, m, shown);
        assert(views(row@) =~= seq![
            status_of(one.places@.len(), m.open_positions),
            signed_decimal_of(one.ssu_id as int),
            one.strategy_key@,
        ] + ssu_values(index.configs(), index.keys(), one.ssu_id) + cost_fields(
            one@,
            *input,
            shown@,
        ) + metric_fields(one@, *m, shown@));
        let ghost before = out@;
        out.append(csv_row(&row).as_str());
        i += 1;
        assert(out@ =~= front + summary_lines(
            all.take(i as int),
            metrics@,
            *input,
            index.configs(),
            index.keys(),
            shown@,
        ));
    }
    assert(all.take(i as int) =~= all);
    out
}

/// How many of some amounts are so.
pub open spec fn how_many(values: Seq<Real>, is_so: spec_fn(Real) -> bool) -> nat {
    values.filter(is_so).len()
}

proof fn counting_one_more(values: Seq<Real>, is_so: spec_fn(Real) -> bool)
    requires
        values.len() > 0,
    ensures
        how_many(values, is_so) == how_many(values.drop_last(), is_so) + if is_so(values.last()) {
            1nat
        } else {
            0nat
        },
{
    filter_push(values.drop_last(), values.last(), is_so);
    assert(values =~= values.drop_last().push(values.last()));
}

/// An amount is won where, and only where, it is above zero, and lost where, and only where, it
/// is below. So each is won, lost, even or no number, and as one of these only.
pub proof fn amounts_are_won_lost_or_even(values: Seq<Real>)
    ensures
        wins_in(values) == how_many(values, |v: Real| 0 < v.bits <= 0x7ff0_0000_0000_0000),
        losses_in(values) == how_many(
            values,
            |v: Real| 0x8000_0000_0000_0000 < v.bits <= 0xfff0_0000_0000_0000,
        ),
        wins_in(values) + losses_in(values) + how_many(
            values,
            |v: Real| v.bits == 0 || v.bits == 0x8000_0000_0000_0000,
        ) + how_many(values, |v: Real| v.is_nan()) == values.len(),
    decreases values.len(),
{
    let up = |v: Real| 0 < v.bits <= 0x7ff0_0000_0000_0000;
    let down = |v: Real| 0x8000_0000_0000_0000 < v.bits <= 0xfff0_0000_0000_0000;
    let even = |v: Real| v.bits == 0 || v.bits == 0x8000_0000_0000_0000;
    let none = |v: Real| v.is_nan();
    if values.len() > 0 {
        amounts_are_won_lost_or_even(values.drop_last());
        counting_one_more(values, up);
        counting_one_more(values, down);
        counting_one_more(values, even);
        counting_one_more(values, none);
    } else {
        reveal(Seq::filter);
    }
}

/// The trades that count as closed are those at the given places that are closed, in the order
/// of their places, each with the moment it was left at; those that count as open are the rest.
pub proof fn closed_trades_are_the_closed_ones(trades: Seq<BacktestTrade>, places: Seq<usize>)
    ensures
        Seq::new(closed_at(trades, places).len(), |i: int| closed_at(trades, places)[i].place)
            == places.filter(|p: usize| trades[p as int].status == PositionStatus::Closed),
        forall|i: int|
            0 <= i < closed_at(trades, places).len() ==> {
                let one = #[trigger] closed_at(trades, places)[i];
                match trades[one.place as int].exit_at {
                    Some(at) => one.exit_at == at,
                    None => one.exit_at == u64::MAX,
                }
            },
        open_at(trades, places) == places.filter(
            |p: usize| trades[p as int].status == PositionStatus::Open,
        ).len(),
    decreases places.len(),
{
    let f = |p: usize| trades[p as int].status == PositionStatus::Closed;
    let g = |p: usize| trades[p as int].status == PositionStatus::Open;
    let all = closed_at(trades, places);
    if places.len() > 0 {
        let d = places.drop_last();
        closed_trades_are_the_closed_ones(trades, d);
        filter_push(d, places.last(), f);
        filter_push(d, places.last(), g);
        assert(places =~= d.push(places.last()));
        let before = closed_at(trades, d);
        let was = Seq::new(before.len(), |i: int| before[i].place);
        let now = Seq::new(all.len(), |i: int| all[i].place);
        assert(now =~= if f(places.last()) {
            was.push(places.last())
        } else {
            was
        });
        assert forall|i: int| 0 <= i < all.len() implies {
            let one = #[trigger] all[i];
            match trades[one.place as int].exit_at {
                Some(at) => one.exit_at == at,
                None => one.exit_at == u64::MAX,
            }
        } by {
            if i < before.len() {
                assert(all[i] == before[i]);
            }
        }
    } else {
        reveal(Seq::filter);
        assert(Seq::new(all.len(), |i: int| all[i].place) =~= places.filter(f));
    }
}

/// The amounts that are known are all that are there, in their order.
pub proof fn known_amounts_are_all_there_are(values: Seq<Option<Real>>)
    ensures
        known_amounts(values) == values.filter(|v: Option<Real>| v is Some).map_values(
            |v: Option<Real>| v->0,
        ),
    decreases values.len(),
{
    let f = |v: Option<Real>| v is Some;
    let g = |v: Option<Real>| v->0;
    if values.len() > 0 {
        let d = values.drop_last();
        known_amounts_are_all_there_are(d);
        filter_push(d, values.last(), f);
        assert(values =~= d.push(values.last()));
        if f(values.last()) {
            assert(d.filter(f).push(values.last()).map_values(g) =~= d.filter(f).map_values(
                g,
            ).push(values.last()->0));
        }
    } else {
        reveal(Seq::filter);
        assert(values.filter(f).map_values(g) =~= Seq::empty());
    }
}

/// In the book of orders what stands under a column is what the column is called after.
pub proof fn orders_stand_under_their_columns(
    trade: BacktestTrade,
    configs: Seq<ConfigFacts>,
    param_keys: Seq<Seq<char>>,
    metric_keys: Seq<Seq<char>>,
    shown: Map<(u64, u64), String>,
    partial_json: Map<Seq<char>, String>,
)
    ensures
        ({
            let columns = orderbook_columns(param_keys, metric_keys);
            let row = trade_row(trade, configs, param_keys, metric_keys, shown, partial_json);
            let at = columns.len() - 23;
            let amount = |v: Real| amount_text(v, shown);
            let amount_if = |v: Option<Real>| amount_text_if_any(v, shown);
            &&& row.len() == columns.len()
            &&& columns[0] == "position_id"@ && row[0] == trade.position_id@
            &&& columns[1] == "ssu_id"@ && row[1] == signed_decimal_of(trade.ssu_id as int)
            &&& columns[2] == "strategy"@ && row[2] == trade.strategy_key@
            &&& columns[at] == "instrument"@ && row[at] == trade.instrument@
            &&& columns[at + 1] == "side"@ && row[at + 1] == side_name(trade.side)
            &&& columns[at + 2] == "status"@ && row[at + 2] == status_name(trade.status)
            &&& columns[at + 3] == "qty"@ && row[at + 3] == amount(trade.qty)
            &&& columns[at + 4] == "remaining_qty"@ && row[at + 4] == amount(trade.remaining_qty)
            &&& columns[at + 5] == "entry_at"@ && row[at + 5] == decimal_of(trade.entry_at as nat)
            &&& columns[at + 6] == "entry_price"@ && row[at + 6] == amount(trade.entry_price)
            &&& columns[at + 7] == "exit_at"@ && row[at + 7] == match trade.exit_at {
                Some(n) => decimal_of(n as nat),
                None => ""@,
            }
            &&& columns[at + 8] == "exit_price"@ && row[at + 8] == amount_if(trade.exit_price)
            &&& columns[at + 9] == "exit_reason"@ && row[at + 9] == match trade.exit_reason {
                Some(text) => text@,
                None => ""@,
            }
            &&& columns[at + 10] == "gross_pnl"@ && row[at + 10] == amount_if(trade.gross_pnl)
            &&& columns[at + 11] == "charges"@ && row[at + 11] == amount(trade.charges)
            &&& columns[at + 12] == "net_pnl"@ && row[at + 12] == amount_if(trade.net_pnl)
            &&& columns[at + 13] == "raw_entry_price"@ && row[at + 13] == amount(
                trade.raw_entry_price,
            )
            &&& columns[at + 14] == "raw_exit_price"@ && row[at + 14] == amount_if(
                trade.raw_exit_price,
            )
            &&& columns[at + 15] == "entry_slippage"@ && row[at + 15] == amount(
                trade.entry_slippage,
            )
            &&& columns[at + 16] == "exit_slippage"@ && row[at + 16] == amount(trade.exit_slippage)
            &&& columns[at + 17] == "entry_charges"@ && row[at + 17] == amount(trade.entry_charges)
            &&& columns[at + 18] == "exit_charges"@ && row[at + 18] == amount(trade.exit_charges)
            &&& columns[at + 19] == "funding_charges"@ && row[at + 19] == amount(
                trade.funding_charges,
            )
            &&& columns[at + 20] == "partial_exits_json"@
            &&& columns[at + 21] == "entry_signal_id"@ && row[at + 21] == trade.entry_signal_id@
            &&& columns[at + 22] == "exit_signal_id"@ && row[at + 22] == match trade.exit_signal_id {
                Some(text) => text@,
                None => ""@,
            }
        }),
{
    assert(ssu_values(configs, param_keys, trade.ssu_id).len() == 5 + param_keys.len());
}

/// In the summary what stands under a column is what the column is called after.
pub proof fn summary_stands_under_its_columns(
    row: RowFacts,
    metrics: SummaryMetrics,
    input: BacktestReportInput,
    configs: Seq<ConfigFacts>,
    param_keys: Seq<Seq<char>>,
    shown: Map<(u64, u64), String>,
)
    ensures
        ({
            let columns = summary_columns(param_keys);
            let fields = seq![
                status_of(row.places.len(), metrics.open_positions),
                signed_decimal_of(row.ssu_id as int),
                row.strategy_key,
            ] + ssu_values(configs, param_keys, row.ssu_id) + cost_fields(row, input, shown)
                + metric_fields(row, metrics, shown);
            let at = columns.len() - 29;
            let amount = |v: Real| amount_text(v, shown);
            let amount_if = |v: Option<Real>| amount_text_if_any(v, shown);
            &&& summary_lines(seq![row], seq![metrics], input, configs, param_keys, shown)
                == line_of(fields)
            &&& fields.len() == columns.len()
            &&& columns[0] == "status"@
            &&& columns[1] == "ssu_id"@
            &&& columns[2] == "strategy"@
            &&& columns[at] == "instruments"@ && fields[at] == row.instruments
            &&& columns[at + 1] == "from"@ && fields[at + 1] == decimal_of(input.from as nat)
            &&& columns[at + 2] == "to"@ && fields[at + 2] == decimal_of(input.to as nat)
            &&& columns[at + 3] == "warmup_bars"@ && fields[at + 3] == decimal_of(
                input.warmup_bars as nat,
            )
            &&& columns[at + 4] == "replay_bars"@ && fields[at + 4] == decimal_of(
                input.replay_bars as nat,
            )
            &&& columns[at + 5] == "slippage_pct"@ && fields[at + 5] == amount(input.slippage_pct)
            &&& columns[at + 6] == "brokerage_pct"@ && fields[at + 6] == amount(
                input.brokerage_pct,
            )
            &&& columns[at + 7] == "entry_fee_pct"@ && fields[at + 7] == amount_if(
                input.entry_fee_pct,
            )
            &&& columns[at + 8] == "exit_fee_pct"@ && fields[at + 8] == amount_if(
                input.exit_fee_pct,
            )
            &&& columns[at + 9] == "fee_tax_pct"@ && fields[at + 9] == amount(input.fee_tax_pct)
            &&& columns[at + 10] == "fixed_fee_per_order"@ && fields[at + 10] == amount(
                input.fixed_fee_per_order,
            )
            &&& columns[at + 11] == "funding_rate_pct"@ && fields[at + 11] == amount(
                input.funding_rate_pct,
            )
            &&& columns[at + 12] == "funding_interval_hours"@ && fields[at + 12] == decimal_of(
                input.funding_interval_hours as nat,
            )
            &&& columns[at + 13] == "funding_charge_mode"@ && fields[at + 13] == charge_mode_name(
                input.funding_charge_mode,
            )
            &&& columns[at + 14] == "positions"@ && fields[at + 14] == decimal_of(row.places.len())
            &&& columns[at + 15] == "trades"@ && fields[at + 15] == decimal_of(
                metrics.closed_trades as nat,
            )
            &&& columns[at + 16] == "open_positions"@ && fields[at + 16] == decimal_of(
                metrics.open_positions as nat,
            )
            &&& columns[at + 17] == "wins"@ && fields[at + 17] == decimal_of(metrics.wins as nat)
            &&& columns[at + 18] == "losses"@ && fields[at + 18] == decimal_of(
                metrics.losses as nat,
            )
            &&& columns[at + 19] == "win_rate"@ && fields[at + 19] == amount(metrics.win_rate)
            &&& columns[at + 20] == "gross_pnl"@ && fields[at + 20] == amount(metrics.gross_pnl)
            &&& columns[at + 21] == "charges"@ && fields[at + 21] == amount(metrics.charges)
            &&& columns[at + 22] == "net_pnl"@ && fields[at + 22] == amount(metrics.net_pnl)
            &&& columns[at + 23] == "max_drawdown"@ && fields[at + 23] == amount(
                metrics.max_drawdown,
            )
            &&& columns[at + 24] == "profit_factor"@ && fields[at + 24] == amount_if(
                metrics.profit_factor,
            )
            &&& columns[at + 25] == "expectancy"@ && fields[at + 25] == amount(metrics.expectancy)
            &&& columns[at + 26] == "avg_win"@ && fields[at + 26] == amount_if(metrics.avg_win)
            &&& columns[at + 27] == "avg_loss"@ && fields[at + 27] == amount_if(metrics.avg_loss)
            &&& columns[at + 28] == "avg_trade"@ && fields[at + 28] == amount(metrics.avg_trade)
        }),
{
    assert(ssu_values(configs, param_keys, row.ssu_id).len() == 5 + param_keys.len());
    let rows = seq![row];
    let fields = seq![
        status_of(row.places.len(), metrics.open_positions),
        signed_decimal_of(row.ssu_id as int),
        row.strategy_key,
    ] + ssu_values(configs, param_keys, row.ssu_id) + cost_fields(row, input, shown)
        + metric_fields(row, metrics, shown);
    assert(rows.drop_last() =~= Seq::empty());
    assert(summary_lines(rows.drop_last(), seq![metrics], input, configs, param_keys, shown)
        =~= Seq::empty());
    assert(Seq::<char>::empty() + line_of(fields) =~= line_of(fields));
}

/// The trades of a strategy are those with its number, all of them, in their order.
pub proof fn places_are_of_the_strategy(trades: Seq<BacktestTrade>, ssu_id: i64, k: int)
    requires
        0 <= k < trades.len() <= usize::MAX,
    ensures
        places_of(trades, ssu_id).contains(k as usize) <==> trades[k].ssu_id == ssu_id,
        forall|i: int, j: int|
            0 <= i < j < places_of(trades, ssu_id).len() ==> (#[trigger] places_of(
                trades,
                ssu_id,
            )[i]) < (#[trigger] places_of(trades, ssu_id)[j]) < trades.len(),
    decreases trades.len(),
{
    let d = trades.drop_last();
    let n = trades.len() - 1;
    let all = places_of(trades, ssu_id);
    let before = places_of(d, ssu_id);
    places_fit(trades, ssu_id);
    places_fit(d, ssu_id);
    if d.len() > 0 {
        places_are_of_the_strategy(
            d,
            ssu_id,
            if k < n {
                k
            } else {
                0
            },
        );
    }
    if k < n && before.contains(k as usize) {
        let i = choose|i: int| 0 <= i < before.len() && before[i] == k as usize;
        assert(all[i] == k as usize);
    }
    if k < n && all.contains(k as usize) {
        let i = choose|i: int| 0 <= i < all.len() && all[i] == k as usize;
        if i < before.len() {
            assert(before[i] == k as usize);
        }
    }
    if k == n {
        if trades[n].ssu_id == ssu_id {
            assert(all[before.len() as int] == n as usize);
        }
        if all.contains(k as usize) {
            let i = choose|i: int| 0 <= i < all.len() && all[i] == k as usize;
            assert(trades[all[i] as int].ssu_id == ssu_id);
        }
    }
    assert forall|i: int, j: int| 0 <= i < j < all.len() implies (#[trigger] all[i]) < (
    #[trigger] all[j]) < trades.len() by {
        if j < before.len() {
            assert(before[i] < before[j]);
        } else {
            assert(before[i] < d.len());
        }
    }
}

proof fn tried_rows_are_of_their_strategies(
    ssus: Seq<SsuConfig>,
    trades: Seq<BacktestTrade>,
    asked: Seq<Seq<char>>,
)
    ensures
        tried_rows(ssus, trades, asked).len() == ssus.len(),
        forall|i: int|
            0 <= i < ssus.len() ==> {
                let row = #[trigger] tried_rows(ssus, trades, asked)[i];
                &&& row.ssu_id == ssus[i].ssu_id
                &&& row.strategy_key == ssus[i].strategy_key@
                &&& row.places == if has_ssu(ssus.take(i), ssus[i].ssu_id) {
                    Seq::empty()
                } else {
                    places_of(trades, ssus[i].ssu_id)
                }
            },
    decreases ssus.len(),
{
    if ssus.len() > 0 {
        let d = ssus.drop_last();
        let n = ssus.len() - 1;
        tried_rows_are_of_their_strategies(d, trades, asked);
        let all = tried_rows(ssus, trades, asked);
        let before = tried_rows(d, trades, asked);
        assert(ssus.take(n) =~= d);
        assert forall|i: int| 0 <= i < ssus.len() implies {
            let row = #[trigger] all[i];
            &&& row.ssu_id == ssus[i].ssu_id
            &&& row.strategy_key == ssus[i].strategy_key@
            &&& row.places == if has_ssu(ssus.take(i), ssus[i].ssu_id) {
                Seq::empty()
            } else {
                places_of(trades, ssus[i].ssu_id)
            }
        } by {
            if i < n {
                assert(all[i] == before[i]);
                assert(d.take(i) =~= ssus.take(i));
                assert(d[i] == ssus[i]);
            }
        }
    }
}

proof fn other_rows_are_of_their_strategies(
    n: nat,
    ssus: Seq<SsuConfig>,
    trades: Seq<BacktestTrade>,
    asked: Seq<Seq<char>>,
)
    requires
        n <= trades.len() <= usize::MAX,
    ensures
        forall|i: int|
            0 <= i < other_rows(n, ssus, trades, asked).len() ==> {
                let row = #[trigger] other_rows(n, ssus, trades, asked)[i];
                &&& !has_ssu(ssus, row.ssu_id)
                &&& row.places == places_of(trades, row.ssu_id)
                &&& places_of(trades.take(n as int), row.ssu_id).len() > 0
            },
        forall|k: int|
            0 <= k < n && !has_ssu(ssus, (#[trigger] trades[k]).ssu_id) ==> exists|i: int|
                0 <= i < other_rows(n, ssus, trades, asked).len() && (#[trigger] other_rows(
                    n,
                    ssus,
                    trades,
                    asked,
                )[i]).ssu_id == trades[k].ssu_id,
        forall|i: int, j: int|
            0 <= i < j < other_rows(n, ssus, trades, asked).len() ==> (#[trigger] other_rows(
                n,
                ssus,
                trades,
                asked,
            )[i]).ssu_id != (#[trigger] other_rows(n, ssus, trades, asked)[j]).ssu_id,
    decreases n,
{
    if n > 0 {
        let m = (n - 1) as nat;
        other_rows_are_of_their_strategies(m, ssus, trades, asked);
        let all = other_rows(n, ssus, trades, asked);
        let before = other_rows(m, ssus, trades, asked);
        let head = trades.take(n as int);
        assert(head.drop_last() =~= trades.take(m as int));
        assert(head.last() == trades[m as int]);
        assert forall|i: int| 0 <= i < all.len() implies {
            let row = #[trigger] all[i];
            &&& !has_ssu(ssus, row.ssu_id)
            &&& row.places == places_of(trades, row.ssu_id)
            &&& places_of(head, row.ssu_id).len() > 0
        } by {
            if i < before.len() {
                assert(all[i] == before[i]);
            }
        }
        assert forall|k: int|
            0 <= k < n && !has_ssu(ssus, (#[trigger] trades[k]).ssu_id) implies exists|i: int|
            0 <= i < all.len() && (#[trigger] all[i]).ssu_id == trades[k].ssu_id by {
            let id = trades[k].ssu_id;
            if k < m {
                let i = choose|i: int| 0 <= i < before.len() && (#[trigger] before[i]).ssu_id == id;
                assert(all[i].ssu_id == id);
            } else if places_of(trades.take(m as int), id).len() > 0 {
                places_fit(trades.take(m as int), id);
                let p = places_of(trades.take(m as int), id)[0] as int;
                assert(trades.take(m as int)[p].ssu_id == id);
                assert(trades[p].ssu_id == id);
                let i = choose|i: int| 0 <= i < before.len() && (#[trigger] before[i]).ssu_id == id;
                assert(all[i].ssu_id == id);
            } else {
                assert(all[before.len() as int].ssu_id == id);
            }
        }
        assert forall|i: int, j: int| 0 <= i < j < all.len() implies (#[trigger] all[i]).ssu_id
            != (#[trigger] all[j]).ssu_id by {
            assert(all[i] == before[i]);
            if j < before.len() {
                assert(all[j] == before[j]);
            }
        }
    }
}

/// The summary is of every trade, and of each once: a trade is counted with the strategy that
/// made it, and with no other.
pub proof fn every_trade_is_in_one_row(
    ssus: Seq<SsuConfig>,
    trades: Seq<BacktestTrade>,
    asked: Seq<Seq<char>>,
    k: int,
)
    requires
        0 <= k < trades.len() <= usize::MAX,
    ensures
        ({
            let rows = tried_rows(ssus, trades, asked) + other_rows(
                trades.len(),
                ssus,
                trades,
                asked,
            );
            &&& exists|i: int|
                0 <= i < rows.len() && (#[trigger] rows[i]).places.contains(k as usize)
            &&& forall|i: int|
                0 <= i < rows.len() && (#[trigger] rows[i]).places.contains(k as usize)
                    ==> rows[i].ssu_id == trades[k].ssu_id
            &&& forall|i: int, j: int|
                0 <= i < j < rows.len() && (#[trigger] rows[i]).places.contains(k as usize) ==> !(
                #[trigger] rows[j]).places.contains(k as usize)
        }),
{
    let id = trades[k].ssu_id;
    let tried = tried_rows(ssus, trades, asked);
    let others = other_rows(trades.len(), ssus, trades, asked);
    let rows = tried + others;
    tried_rows_are_of_their_strategies(ssus, trades, asked);
    other_rows_are_of_their_strategies(trades.len(), ssus, trades, asked);
    assert forall|x: i64| #[trigger] places_of(trades, x).contains(k as usize) <==> x == id by {
        places_are_of_the_strategy(trades, x, k);
    }
    if has_ssu(ssus, id) {
        let i = first_with(ssus, id);
        assert(!has_ssu(ssus.take(i), id));
        assert(rows[i] == tried[i]);
        assert(rows[i].places.contains(k as usize));
    } else {
        let i = choose|i: int| 0 <= i < others.len() && (#[trigger] others[i]).ssu_id == id;
        assert(rows[tried.len() + i] == others[i]);
        assert(rows[tried.len() + i].places.contains(k as usize));
    }
    assert forall|i: int|
        0 <= i < rows.len() && (#[trigger] rows[i]).places.contains(
            k as usize,
        ) implies rows[i].ssu_id == id by {
        if i < tried.len() {
            assert(rows[i] == tried[i]);
        } else {
            assert(rows[i] == others[i - tried.len()]);
        }
    }
    assert forall|i: int, j: int|
        0 <= i < j < rows.len() && (#[trigger] rows[i]).places.contains(k as usize) implies !(
    #[trigger] rows[j]).places.contains(k as usize) by {
        if rows[j].places.contains(k as usize) {
            if j < tried.len() {
                assert(rows[i] == tried[i] && rows[j] == tried[j]);
                assert(ssus.take(j)[i].ssu_id == ssus[j].ssu_id);
            } else if i < tried.len() {
                assert(rows[i] == tried[i] && rows[j] == others[j - tried.len()]);
                assert(ssus[i].ssu_id == id);
            } else {
                assert(rows[i] == others[i - tried.len()] && rows[j] == others[j - tried.len()]);
            }
        }
    }
}

proof fn first_with(ssus: Seq<SsuConfig>, ssu_id: i64) -> (i: int)
    requires
        has_ssu(ssus, ssu_id),
    ensures
        0 <= i < ssus.len(),
        ssus[i].ssu_id == ssu_id,
        !has_ssu(ssus.take(i), ssu_id),
    decreases ssus.len(),
{
    let d = ssus.drop_last();
    if has_ssu(d, ssu_id) {
        let i = first_with(d, ssu_id);
        assert(d.take(i) =~= ssus.take(i));
        i
    } else {
        let k = choose|k: int| 0 <= k < ssus.len() && (#[trigger] ssus[k]).ssu_id == ssu_id;
        if k < d.len() {
            assert(d[k].ssu_id == ssu_id);
        }
        assert(ssus.take(ssus.len() - 1) =~= d);
        ssus.len() - 1
    }
}

/// The amounts of the trades that are closed are theirs, in the order in which they are counted,
/// and a trade that was left sooner comes first.
pub proof fn amounts_are_those_of_the_trades(trades: Seq<BacktestTrade>, places: Seq<usize>)
    ensures
        ({
            let order = sorted_of(closed_at(trades, places));
            &&& order.len() == closed_at(trades, places).len()
            &&& gross_amounts(trades, order).len() == order.len()
            &&& net_amounts(trades, order).len() == order.len()
            &&& charge_amounts(trades, order).len() == order.len()
            &&& forall|i: int|
                0 <= i < order.len() ==> {
                    let trade = trades[(#[trigger] order[i]).place as int];
                    &&& trade.status == PositionStatus::Closed
                    &&& gross_amounts(trades, order)[i] == trade.gross_pnl
                    &&& net_amounts(trades, order)[i] == trade.net_pnl
                    &&& charge_amounts(trades, order)[i] == trade.charges
                }
            &&& forall|i: int, j: int|
                0 <= i < j < order.len() ==> (#[trigger] order[i]).exit_at <= (
                #[trigger] order[j]).exit_at
        }),
{
    let s = closed_at(trades, places);
    let order = sorted_of(s);
    sorting_orders(s);
    closed_trades_are_the_closed_ones(trades, places);
    assert forall|i: int| 0 <= i < order.len() implies trades[(
    #[trigger] order[i]).place as int].status == PositionStatus::Closed by {
        sorting_keeps(s, i);
        let k = choose|k: int| 0 <= k < s.len() && s[k] == order[i];
        closed_is_closed(trades, places, k);
    }
    assert forall|i: int, j: int| 0 <= i < j < order.len() implies (#[trigger] order[i]).exit_at
        <= (#[trigger] order[j]).exit_at by {
        assert(!order[j].ranks_before(&order[i]));
    }
}

proof fn closed_is_closed(trades: Seq<BacktestTrade>, places: Seq<usize>, k: int)
    requires
        0 <= k < closed_at(trades, places).len(),
    ensures
        trades[closed_at(trades, places)[k].place as int].status == PositionStatus::Closed,
    decreases places.len(),
{
    if places.len() > 0 {
        let before = closed_at(trades, places.drop_last());
        if k < before.len() {
            closed_is_closed(trades, places.drop_last(), k);
        }
    }
}

/// The trades of the book of orders stand by when they were entered, and those that were entered
/// together by when they were left; one that is still open comes last.
pub proof fn orders_stand_by_their_entry(trades: Seq<BacktestTrade>, i: int, j: int)
    requires
        trades.len() <= usize::MAX,
        0 <= i < j < sorted_of(trade_places(trades)).len(),
    ensures
        ({
            let order = sorted_of(trade_places(trades));
            let (a, b) = (trades[order[i].place as int], trades[order[j].place as int]);
            &&& order.len() == trades.len()
            &&& order[i].place < trades.len()
            &&& order[j].place < trades.len()
            &&& a.entry_at <= b.entry_at
            &&& a.entry_at == b.entry_at && b.exit_at is Some ==> match a.exit_at {
                Some(at) => at <= b.exit_at->0,
                None => b.exit_at == Some(u64::MAX),
            }
        }),
{
    let s = trade_places(trades);
    let order = sorted_of(s);
    sorting_orders(s);
    sorting_keeps(s, i);
    sorting_keeps(s, j);
    let x = choose|x: int| 0 <= x < s.len() && s[x] == order[i];
    let y = choose|y: int| 0 <= y < s.len() && s[y] == order[j];
    assert(s[x].place == x && s[y].place == y);
    assert(!order[j].ranks_before(&order[i]));
}

/// A setting that is no object stands under its own key, as its label, and under no other; a list
/// stands as the labels of its items, with bars between them.
pub proof fn settings_stand_under_their_keys(
    prefix: Seq<char>,
    keys: Seq<Seq<char>>,
    values: Seq<JsonFacts>,
    i: int,
)
    requires
        keys.len() == values.len(),
        keys.no_duplicates(),
        forall|k: int| 0 <= k < values.len() ==> !((#[trigger] values[k]).shape is Object),
        0 <= i < values.len(),
    ensures
        ({
            let map = flattened_fields(prefix, keys, values, Map::empty());
            let key = if prefix.len() == 0 {
                keys[i]
            } else {
                prefix + "_"@ + keys[i]
            };
            &&& map.contains_key(key)
            &&& map[key] == label_of(values[i])
            &&& forall|name: Seq<char>| #[trigger]
                map.contains_key(name) ==> exists|k: int|
                    0 <= k < keys.len() && name == nested_key(prefix, #[trigger] keys[k])
        }),
        values[i].shape matches ShapeFacts::Text(t) ==> label_of(values[i]) == t,
        values[i].shape matches ShapeFacts::Bool(b) ==> label_of(values[i]) == if b {
            "true"@
        } else {
            "false"@
        },
        values[i].shape is Number ==> label_of(values[i]) == values[i].text,
        values[i].shape is Null ==> label_of(values[i]) == ""@,
{
    settings_so_far(prefix, keys, values, values.len(), i);
    assert(values.take(values.len() as int) =~= values);
}

proof fn settings_so_far(
    prefix: Seq<char>,
    keys: Seq<Seq<char>>,
    values: Seq<JsonFacts>,
    n: nat,
    i: int,
)
    requires
        keys.len() == values.len(),
        keys.no_duplicates(),
        forall|k: int| 0 <= k < values.len() ==> !((#[trigger] values[k]).shape is Object),
        0 <= i < n <= values.len(),
    ensures
        ({
            let map = flattened_fields(prefix, keys, values.take(n as int), Map::empty());
            &&& map.contains_key(nested_key(prefix, keys[i]))
            &&& map[nested_key(prefix, keys[i])] == label_of(values[i])
            &&& forall|name: Seq<char>| #[trigger]
                map.contains_key(name) ==> exists|k: int|
                    0 <= k < n && name == nested_key(prefix, #[trigger] keys[k])
        }),
    decreases n,
{
    let part = values.take(n as int);
    let d = part.drop_last();
    assert(d =~= values.take(n - 1));
    assert(part.last() == values[n - 1]);
    let before = flattened_fields(prefix, keys, d, Map::empty());
    let map = flattened_fields(prefix, keys, part, Map::empty());
    let last = nested_key(prefix, keys[n - 1]);
    reveal_with_fuel(flattened_fields, 2);
    reveal_with_fuel(flattened, 2);
    assert(!(values[n - 1].shape is Object));
    assert(map == flattened(last, values[n - 1], before));
    assert(map == before.insert(last, label_of(values[n - 1])));
    if n > 1 {
        settings_so_far(
            prefix,
            keys,
            values,
            (n - 1) as nat,
            if i < n - 1 {
                i
            } else {
                0
            },
        );
    } else {
        assert(d.len() == 0);
    }
    if i < n - 1 {
        keys_stay_apart(prefix, keys[i], keys[n - 1]);
    }
    assert forall|name: Seq<char>| #[trigger] map.contains_key(name) implies exists|k: int|
        0 <= k < n && name == nested_key(prefix, #[trigger] keys[k]) by {
        if name == last {
            assert(name == nested_key(prefix, keys[n - 1]));
        } else {
            assert(before.contains_key(name));
            let k = choose|k: int| 0 <= k < n - 1 && name == nested_key(prefix, #[trigger] keys[k]);
            assert(name == nested_key(prefix, keys[k]));
        }
    }
}

proof fn keys_stay_apart(prefix: Seq<char>, a: Seq<char>, b: Seq<char>)
    requires
        a != b,
    ensures
        nested_key(prefix, a) != nested_key(prefix, b),
{
    if prefix.len() > 0 && nested_key(prefix, a) == nested_key(prefix, b) {
        let n = (prefix + "_"@).len() as int;
        assert(nested_key(prefix, a).skip(n) =~= a);
        assert(nested_key(prefix, b).skip(n) =~= b);
    }
}

/// Each unit that is tried is told with its own settings, in their order.
pub proof fn units_are_told_with_their_settings(ssus: Seq<SsuConfig>, i: int)
    requires
        configs_of(ssus) is Ok,
        0 <= i < ssus.len(),
    ensures
        configs_of(ssus)->Ok_0.len() == ssus.len(),
        ({
            let c = configs_of(ssus)->Ok_0[i];
            &&& c.ssu_id == ssus[i].ssu_id
            &&& c.enabled == ssus[i].enabled
            &&& c.trade_gap_secs == ssus[i].trade_gap_secs
            &&& c.max_overlap == ssus[i].max_overlap
            &&& c.max_positions_per_day == ssus[i].max_positions_per_day
            &&& params_of(ssus[i].params_json@) == Ok::<Map<Seq<char>, Seq<char>>, StrategyFault>(
                c.params,
            )
            &&& c.timeframes == join_of(
                Seq::new(
                    ssus[i].required_timeframes@.len(),
                    |k: int| timeframe_label_of(ssus[i].required_timeframes@[k]),
                ),
                "|"@,
            )
        }),
    decreases ssus.len(),
{
    let d = ssus.drop_last();
    let n = ssus.len() - 1;
    if i < n {
        units_are_told_with_their_settings(d, i);
        assert(d[i] == ssus[i]);
    } else {
        if n > 0 {
            units_are_told_with_their_settings(d, 0);
        }
        assert(timeframe_labels(ssus[i].required_timeframes@) =~= Seq::new(
            ssus[i].required_timeframes@.len(),
            |k: int| timeframe_label_of(ssus[i].required_timeframes@[k]),
        ));
    }
}

/// The values of a unit stand as its columns do: whether it is switched on, its timeframes, its
/// gap, how many positions it may have at once and how many in a day, and then its settings, by
/// their keys; what it does not have is left empty.
pub proof fn units_stand_under_their_columns(
    configs: Seq<ConfigFacts>,
    keys: Seq<Seq<char>>,
    i: int,
    k: int,
)
    requires
        0 <= i < configs.len(),
        forall|j: int| i < j < configs.len() ==> (#[trigger] configs[j]).ssu_id != configs[i].ssu_id,
        0 <= k < keys.len(),
    ensures
        ({
            let values = ssu_values(configs, keys, configs[i].ssu_id);
            &&& values.len() == 5 + keys.len()
            &&& values[0] == if configs[i].enabled {
                "true"@
            } else {
                "false"@
            }
            &&& values[1] == configs[i].timeframes
            &&& values[2] == decimal_of(configs[i].trade_gap_secs as nat)
            &&& values[3] == decimal_of(configs[i].max_overlap as nat)
            &&& values[4] == decimal_of(configs[i].max_positions_per_day as nat)
            &&& configs[i].params.contains_key(keys[k]) ==> values[5 + k]
                == configs[i].params[keys[k]]
            &&& !configs[i].params.contains_key(keys[k]) ==> values[5 + k] == ""@
        }),
{
    last_config_is_taken(configs, i);
}

proof fn last_config_is_taken(configs: Seq<ConfigFacts>, i: int)
    requires
        0 <= i < configs.len(),
        forall|j: int| i < j < configs.len() ==> (#[trigger] configs[j]).ssu_id != configs[i].ssu_id,
    ensures
        config_place(configs, configs[i].ssu_id) == i,
    decreases configs.len(),
{
    if i < configs.len() - 1 {
        let d = configs.drop_last();
        assert(configs[configs.len() - 1].ssu_id != configs[i].ssu_id);
        assert(d[i] == configs[i]);
        assert forall|j: int| i < j < d.len() implies (#[trigger] d[j]).ssu_id != d[i].ssu_id by {
            assert(d[j] == configs[j]);
        }
        last_config_is_taken(d, i);
    }
}

/// There is a column for every setting that a unit has and for everything that an entry was told
/// with, and for nothing else.
pub proof fn columns_are_of_what_is_told(
    configs: Seq<ConfigFacts>,
    trades: Seq<BacktestTrade>,
    key: Seq<char>,
)
    ensures
        param_keys_of(configs).contains(key) <==> exists|i: int|
            0 <= i < configs.len() && (#[trigger] configs[i]).params.contains_key(key),
        metadata_keys(trades).contains(key) <==> exists|i: int|
            0 <= i < trades.len() && metadata_of(#[trigger] trades[i]).contains_key(key),
{
    setting_columns_are_told(configs, key);
    entry_columns_are_told(trades, key);
}

proof fn setting_columns_are_told(configs: Seq<ConfigFacts>, key: Seq<char>)
    ensures
        param_keys_of(configs).contains(key) <==> exists|i: int|
            0 <= i < configs.len() && (#[trigger] configs[i]).params.contains_key(key),
    decreases configs.len(),
{
    if configs.len() > 0 {
        let d = configs.drop_last();
        let n = configs.len() - 1;
        setting_columns_are_told(d, key);
        assert(configs[n] == configs.last());
        assert forall|i: int|
            #![trigger d[i]]
            #![trigger configs[i]]
            0 <= i < n implies d[i] == configs[i] by {}
        if param_keys_of(d).contains(key) {
            let i = choose|i: int|
                0 <= i < d.len() && (#[trigger] d[i]).params.contains_key(key);
            assert(configs[i] == d[i]);
        }
    }
}

proof fn entry_columns_are_told(trades: Seq<BacktestTrade>, key: Seq<char>)
    ensures
        metadata_keys(trades).contains(key) <==> exists|i: int|
            0 <= i < trades.len() && metadata_of(#[trigger] trades[i]).contains_key(key),
    decreases trades.len(),
{
    if trades.len() > 0 {
        let d = trades.drop_last();
        let n = trades.len() - 1;
        entry_columns_are_told(d, key);
        assert(trades[n] == trades.last());
        assert forall|i: int|
            #![trigger d[i]]
            #![trigger trades[i]]
            0 <= i < n implies d[i] == trades[i] by {}
        if metadata_keys(d).contains(key) {
            let i = choose|i: int|
                0 <= i < d.len() && metadata_of(#[trigger] d[i]).contains_key(key);
            assert(metadata_of(trades[i]).contains_key(key));
        }
    }
}

/// The order book has a line for every trade, one behind another.
pub proof fn orders_stand_line_by_line(
    a: Seq<TradePlace>,
    b: Seq<TradePlace>,
    trades: Seq<BacktestTrade>,
    configs: Seq<ConfigFacts>,
    param_keys: Seq<Seq<char>>,
    metric_keys: Seq<Seq<char>>,
    shown: Map<(u64, u64), String>,
    partial_json: Map<Seq<char>, String>,
)
    ensures
        ({
            let lines = |order: Seq<TradePlace>|
                trade_lines(
                    order,
                    trades,
                    configs,
                    param_keys,
                    metric_keys,
                    shown,
                    partial_json,
                );
            &&& lines(a + b) == lines(a) + lines(b)
            &&& a.len() == 1 ==> lines(a) == line_of(
                trade_row(
                    trades[a[0].place as int],
                    configs,
                    param_keys,
                    metric_keys,
                    shown,
                    partial_json,
                ),
            )
        }),
    decreases b.len(),
{
    let first = trade_lines(
        a,
        trades,
        configs,
        param_keys,
        metric_keys,
        shown,
        partial_json,
    );
    if a.len() == 1 {
        let none = trade_lines(
            a.drop_last(),
            trades,
            configs,
            param_keys,
            metric_keys,
            shown,
            partial_json,
        );
        assert(a.drop_last().len() == 0);
        assert(none =~= Seq::empty());
        let line = line_of(
            trade_row(
                trades[a[0].place as int],
                configs,
                param_keys,
                metric_keys,
                shown,
                partial_json,
            ),
        );
        assert(none + line =~= line);
    }
    if b.len() > 0 {
        let d = b.drop_last();
        orders_stand_line_by_line(
            a,
            d,
            trades,
            configs,
            param_keys,
            metric_keys,
            shown,
            partial_json,
        );
        assert((a + b).drop_last() =~= a + d);
        assert((a + b).last() == b.last());
        let middle = trade_lines(
            d,
            trades,
            configs,
            param_keys,
            metric_keys,
            shown,
            partial_json,
        );
        let line = line_of(
            trade_row(
                trades[b.last().place as int],
                configs,
                param_keys,
                metric_keys,
                shown,
                partial_json,
            ),
        );
        assert(first + (middle + line) =~= (first + middle) + line);
    } else {
        assert(a + b =~= a);
        assert(first + Seq::<char>::empty() =~= first);
    }
}

/// A row tells the instruments that were traded, each once, or where none was those that were
/// asked for; and it says whether anything was traded and whether anything is open still.
pub proof fn rows_tell_what_was_traded(
    trades: Seq<BacktestTrade>,
    places: Seq<usize>,
    name: Seq<char>,
    open_positions: usize,
)
    ensures
        instruments_at(trades, places).contains(name) <==> exists|i: int|
            0 <= i < places.len() && trades[(#[trigger] places[i]) as int].instrument@ == name,
        status_of(0, open_positions) == "NO_POSITIONS"@,
        places.len() > 0 && open_positions > 0 ==> status_of(places.len(), open_positions)
            == "HAS_OPEN_POSITIONS"@,
        places.len() > 0 && open_positions == 0 ==> status_of(places.len(), open_positions)
            == "CLOSED"@,
    decreases places.len(),
{
    if places.len() > 0 {
        let d = places.drop_last();
        let n = places.len() - 1;
        rows_tell_what_was_traded(trades, d, name, open_positions);
        assert(places[n] == places.last());
        assert forall|i: int|
            #![trigger d[i]]
            #![trigger places[i]]
            0 <= i < n implies d[i] == places[i] by {}
        if instruments_at(trades, d).contains(name) {
            let i = choose|i: int|
                0 <= i < d.len() && trades[(#[trigger] d[i]) as int].instrument@ == name;
            assert(trades[places[i] as int].instrument@ == name);
        }
    }
}

} // verus!
