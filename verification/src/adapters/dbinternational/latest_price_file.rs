//! The file of the latest prices of DBInternational.
use crate::adapters::latest_prices::{price_after, same_price, told_price, update_price};
use crate::binary64::{copy_decimal, decimal_facts, Decimal, DecimalFacts};
use crate::order::{ascending_of, sorted_keys, TextMap, TextSet};
use crate::text::{trim, trim_of, views};
use vstd::prelude::*;

verus! {

/// The symbols that are said, without the blanks around them.
pub open spec fn symbols_of(symbols: Seq<Seq<char>>) -> Set<Seq<char>>
    decreases symbols.len(),
{
    if symbols.len() == 0 {
        Set::empty()
    } else {
        let before = symbols_of(symbols.drop_last());
        let symbol = trim_of(symbols.last());
        if symbol.len() > 0 {
            before.insert(symbol)
        } else {
            before
        }
    }
}

/// The prices of symbols, as contracts speak of them.
pub open spec fn price_table(prices: Map<Seq<char>, Option<Decimal>>) -> Map<
    Seq<char>,
    Option<DecimalFacts>,
> {
    Map::new(|k: Seq<char>| prices.contains_key(k), |k: Seq<char>| decimal_facts(prices[k]))
}

/// The prices of other symbols: those that were known are kept.
pub open spec fn kept_prices(
    prices: Map<Seq<char>, Option<DecimalFacts>>,
    symbols: Set<Seq<char>>,
) -> Map<Seq<char>, Option<DecimalFacts>> {
    Map::new(
        |k: Seq<char>| symbols.contains(k),
        |k: Seq<char>|
            if prices.contains_key(k) {
                prices[k]
            } else {
                None
            },
    )
}

/// The lines of symbols with their prices.
pub open spec fn price_lines(
    symbols: Seq<Seq<char>>,
    prices: Map<Seq<char>, Option<DecimalFacts>>,
) -> Seq<char>
    decreases symbols.len(),
{
    if symbols.len() == 0 {
        Seq::empty()
    } else {
        price_lines(symbols.drop_last(), prices) + symbols.last() + ": "@ + told_price(
            prices[symbols.last()],
        ) + "\n"@
    }
}

/// The latest prices of the symbols that are followed. The texts of the prices have four
/// places behind the point.
pub struct DbinternationalLatestPriceFile {
    prices: TextMap<Option<Decimal>>,
}

impl View for DbinternationalLatestPriceFile {
    type V = Map<Seq<char>, Option<DecimalFacts>>;

    closed spec fn view(&self) -> Map<Seq<char>, Option<DecimalFacts>> {
        price_table(self.prices@)
    }
}

impl DbinternationalLatestPriceFile {
    /// The prices of symbols, none of which is known.
    pub fn new(symbols: &Vec<String>) -> (r: DbinternationalLatestPriceFile)
        ensures
            r@ == kept_prices(Map::empty(), symbols_of(views(symbols@))),
    {
        let mut r = DbinternationalLatestPriceFile { prices: TextMap::new() };
        assert(r@ =~= Map::empty());
        let _changed = r.set_symbols(symbols);
        r
    }

    /// Follows other symbols, and tells whether the file is to be written anew.
    pub fn set_symbols(&mut self, symbols: &Vec<String>) -> (r: bool)
        ensures
            final(self)@ == kept_prices(old(self)@, symbols_of(views(symbols@))),
            r == !(old(self)@.dom() == symbols_of(views(symbols@)) && forall|k: Seq<char>|
                old(self)@.contains_key(k) ==> !((#[trigger] old(self)@[k]) matches Some(p)
                    && p.value.is_nan())),
    {
        let mut set = TextSet::new();
        let ghost names = views(symbols@);
        let mut i: usize = 0;
        assert(names.take(0) =~= Seq::empty());
        while i < symbols.len()
            invariant
                i <= symbols@.len(),
                names == views(symbols@),
                set@ == symbols_of(names.take(i as int)),
            decreases symbols@.len() - i,
        {
            assert(names.take(i + 1).drop_last() =~= names.take(i as int));
            assert(names.take(i + 1).last() == symbols@[i as int]@);
            let symbol = trim(symbols[i].as_str());
            if !symbol.as_str().is_empty() {
                let _new = set.insert(symbol);
            }
            i += 1;
        }
        assert(names.take(i as int) =~= names);
        let ghost before = self.prices@;
        let items = set.items();
        let ghost all = views(items@);
        let mut next: TextMap<Option<Decimal>> = TextMap::new();
        let mut same = true;
        let mut k: usize = 0;
        assert(all.take(0).to_set() =~= Set::empty());
        assert(price_table(next@) =~= kept_prices(price_table(before), Set::empty()));
        while k < items.len()
            invariant
                k <= items@.len(),
                all == views(items@),
                before == self.prices@,
                price_table(next@) == kept_prices(
                    price_table(before),
                    all.take(k as int).to_set(),
                ),
                same == forall|j: int|
                    0 <= j < k ==> before.contains_key(#[trigger] all[j]) && !(decimal_facts(
                        before[all[j]],
                    ) matches Some(p) && p.value.is_nan()),
            decreases items@.len() - k,
        {
            let ghost table = price_table(next@);
            let ghost name = all[k as int];
            assert(name == items@[k as int]@);
            let price: Option<Decimal> = match self.prices.get(items[k].as_str()) {
                Some(p) => {
                    let nan = match p {
                        Some(d) => !d.value.equals(d.value),
                        None => false,
                    };
                    if nan {
                        same = false;
                    }
                    copy_decimal(p)
                },
                None => {
                    same = false;
                    None
                },
            };
            let ghost facts = decimal_facts(price);
            next.insert(items[k].clone(), price);
            assert(price_table(next@) =~= table.insert(name, facts));
            proof {
                crate::order::take_to_set(all, k as int);
            }
            k += 1;
            assert(price_table(next@) =~= kept_prices(
                price_table(before),
                all.take(k as int).to_set(),
            ));
        }
        assert(all.take(k as int) =~= all);
        let old_count: usize = self.prices.len();
        let changed = !(same && old_count == items.len());
        proof {
            let dom = before.dom();
            let set_view = symbols_of(names);
            assert(price_table(before).dom() =~= dom);
            crate::order::same_size_is_same(&self.prices, &set, old_count as int);
            if same && old_count == items@.len() {
                assert forall|x: Seq<char>| price_table(before).contains_key(x) implies !((
                #[trigger] price_table(before)[x]) matches Some(p) && p.value.is_nan()) by {
                    assert(all.to_set().contains(x));
                    let j = choose|j: int| 0 <= j < all.len() && all[j] == x;
                    assert(before.contains_key(all[j]));
                }
            }
            if !same {
                let j = choose|j: int|
                    0 <= j < all.len() && !(before.contains_key(#[trigger] all[j]) && !(
                    decimal_facts(before[all[j]]) matches Some(p) && p.value.is_nan()));
                assert(all.to_set().contains(all[j]));
                if before.contains_key(all[j]) {
                    assert(price_table(before).contains_key(all[j]));
                    assert(price_table(before)[all[j]] matches Some(p) && p.value.is_nan());
                }
            }
        }
        self.prices = next;
        changed
    }

    /// Takes in a price of a symbol, and tells whether the file is to be written anew.
    pub fn update_tick(&mut self, symbol: &str, price: &Decimal) -> (r: bool)
        ensures
            final(self)@ == if old(self)@.contains_key(symbol@) {
                old(self)@.insert(symbol@, price_after(old(self)@[symbol@], price@))
            } else {
                old(self)@
            },
            r == (old(self)@.contains_key(symbol@) && !same_price(old(self)@[symbol@], price@)),
    {
        let ghost before = self.prices@;
        match self.prices.remove(symbol) {
            None => {
                assert(before.remove(symbol@) =~= before);
                false
            },
            Some(current) => {
                let mut current = current;
                let changed = update_price(&mut current, price);
                let ghost facts = decimal_facts(current);
                self.prices.insert(symbol.to_owned(), current);
                assert(price_table(self.prices@) =~= price_table(before).insert(symbol@, facts));
                changed
            },
        }
    }

    /// What the file holds: a line for each symbol, in ascending order.
    pub fn content(&self) -> (r: String)
        ensures
            r@ == price_lines(ascending_of(self@.dom()), self@),
    {
        let keys = sorted_keys(&self.prices);
        let ghost names = views(keys@);
        assert(self@.dom() =~= self.prices@.dom());
        let mut out: String = String::new();
        let mut i: usize = 0;
        assert(names.take(0) =~= Seq::empty());
        assert(out@ =~= Seq::empty());
        while i < keys.len()
            invariant
                i <= keys@.len(),
                names == views(keys@),
                names.to_set() == self.prices@.dom(),
                out@ == price_lines(names.take(i as int), self@),
            decreases keys@.len() - i,
        {
            assert(names.take(i + 1).drop_last() =~= names.take(i as int));
            assert(names.take(i + 1).last() == keys@[i as int]@);
            assert(names[i as int] == keys@[i as int]@);
            assert(names.to_set().contains(names[i as int]));
            out.append(keys[i].as_str());
            out.append(": ");
            match self.prices.get(keys[i].as_str()) {
                Some(Some(p)) => out.append(p.text.as_str()),
                _ => out.append("-"),
            }
            out.append("\n");
            i += 1;
        }
        assert(names.take(i as int) =~= names);
        out
    }
}

/// The symbols that are told are those that are named, without the blanks round them.
pub proof fn named_symbols_are_told(symbols: Seq<Seq<char>>, symbol: Seq<char>)
    ensures
        symbols_of(symbols).contains(symbol) <==> symbol.len() > 0 && exists|i: int|
            0 <= i < symbols.len() && trim_of(#[trigger] symbols[i]) == symbol,
    decreases symbols.len(),
{
    if symbols.len() > 0 {
        let d = symbols.drop_last();
        let n = symbols.len() - 1;
        named_symbols_are_told(d, symbol);
        assert(symbols[n] == symbols.last());
        assert forall|i: int|
            #![trigger d[i]]
            #![trigger symbols[i]]
            0 <= i < n implies d[i] == symbols[i] by {}
        if symbols_of(d).contains(symbol) {
            let i = choose|i: int| 0 <= i < d.len() && trim_of(#[trigger] d[i]) == symbol;
            assert(trim_of(symbols[i]) == symbol);
        }
    }
}

/// Where other symbols are told, those that stay keep their prices, those that are new have none,
/// and those that are gone are told no more.
pub proof fn symbols_that_stay_keep_their_prices(
    prices: Map<Seq<char>, Option<DecimalFacts>>,
    symbols: Set<Seq<char>>,
    symbol: Seq<char>,
)
    ensures
        ({
            let after = kept_prices(prices, symbols);
            &&& after.contains_key(symbol) <==> symbols.contains(symbol)
            &&& symbols.contains(symbol) && prices.contains_key(symbol) ==> after[symbol]
                == prices[symbol]
            &&& symbols.contains(symbol) && !prices.contains_key(symbol) ==> after[symbol] is None
        }),
{
}

/// The file tells its symbols one behind another, each with its price.
pub proof fn file_tells_every_symbol(
    a: Seq<Seq<char>>,
    b: Seq<Seq<char>>,
    prices: Map<Seq<char>, Option<DecimalFacts>>,
)
    ensures
        price_lines(a + b, prices) == price_lines(a, prices) + price_lines(b, prices),
        a.len() == 1 ==> price_lines(a, prices) == a[0] + ": "@ + told_price(prices[a[0]]) + "\n"@,
    decreases b.len(),
{
    if a.len() == 1 {
        assert(a.drop_last().len() == 0);
        assert(price_lines(a.drop_last(), prices) =~= Seq::empty());
        assert(Seq::<char>::empty() + a.last() =~= a[0]);
    }
    if b.len() > 0 {
        file_tells_every_symbol(a, b.drop_last(), prices);
        assert((a + b).drop_last() =~= a + b.drop_last());
        assert((a + b).last() == b.last());
        joined_in_turn(
            price_lines(a, prices),
            price_lines(b.drop_last(), prices),
            b.last(),
            told_price(prices[b.last()]),
        );
    } else {
        assert(a + b =~= a);
        assert(price_lines(a, prices) + Seq::<char>::empty() =~= price_lines(a, prices));
    }
}

proof fn joined_in_turn(a: Seq<char>, b: Seq<char>, c: Seq<char>, d: Seq<char>)
    ensures
        (a + b) + c + ": "@ + d + "\n"@ == a + (b + c + ": "@ + d + "\n"@),
{
    assert((a + b) + c + ": "@ + d + "\n"@ =~= a + (b + c + ": "@ + d + "\n"@));
}

} // verus!
