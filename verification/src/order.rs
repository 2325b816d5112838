//! The order of texts, and sets and maps of texts kept in that order.
use crate::text::{chars_of, same, views};
use vstd::prelude::*;

verus! {

/// Whether `a` comes before `b` where texts are ordered character by character.
/// A text comes before its own continuations.
pub open spec fn text_lt(a: Seq<char>, b: Seq<char>) -> bool
    decreases a.len(),
{
    if b.len() == 0 {
        false
    } else if a.len() == 0 {
        true
    } else if a[0] != b[0] {
        a[0] < b[0]
    } else {
        text_lt(a.skip(1), b.skip(1))
    }
}

/// Of two texts, exactly one of these holds: the first is before the second, they
/// are the same, or the second is before the first.
pub proof fn text_order_is_total(a: Seq<char>, b: Seq<char>)
    ensures
        text_lt(a, b) || a == b || text_lt(b, a),
        text_lt(a, b) ==> a != b && !text_lt(b, a),
    decreases a.len(),
{
    if a.len() == 0 || b.len() == 0 {
        assert(a.len() == 0 && b.len() == 0 ==> a =~= b);
    } else if a[0] == b[0] {
        text_order_is_total(a.skip(1), b.skip(1));
        if a.skip(1) == b.skip(1) {
            assert(a =~= seq![a[0]] + a.skip(1));
            assert(b =~= seq![b[0]] + b.skip(1));
        }
    }
}

/// The order of texts is transitive.
pub proof fn text_order_is_transitive(a: Seq<char>, b: Seq<char>, c: Seq<char>)
    requires
        text_lt(a, b),
        text_lt(b, c),
    ensures
        text_lt(a, c),
    decreases a.len(),
{
    if a.len() > 0 && a[0] == b[0] && b[0] == c[0] {
        text_order_is_transitive(a.skip(1), b.skip(1), c.skip(1));
    }
}

/// Whether `a` comes before `b` in the order of texts.
pub fn text_before(a: &str, b: &str) -> (r: bool)
    ensures
        r == text_lt(a@, b@),
{
    let v = chars_of(a);
    let w = chars_of(b);
    let mut i: usize = 0;
    assert(v@.skip(0) =~= v@);
    assert(w@.skip(0) =~= w@);
    while i < v.len() && i < w.len() && v[i] == w[i]
        invariant
            i <= v@.len(),
            i <= w@.len(),
            text_lt(v@, w@) == text_lt(v@.skip(i as int), w@.skip(i as int)),
        decreases v@.len() - i,
    {
        assert(v@.skip(i as int).skip(1) =~= v@.skip(i + 1));
        assert(w@.skip(i as int).skip(1) =~= w@.skip(i + 1));
        i += 1;
    }
    if i == w.len() {
        false
    } else if i == v.len() {
        true
    } else {
        v[i] < w[i]
    }
}

/// Whether every text of the list comes before all that follow it.
pub open spec fn ascending(s: Seq<Seq<char>>) -> bool {
    forall|i: int, j: int| 0 <= i < j < s.len() ==> text_lt(#[trigger] s[i], #[trigger] s[j])
}

/// In an ascending list no text occurs twice.
pub proof fn ascending_is_distinct(s: Seq<Seq<char>>)
    requires
        ascending(s),
    ensures
        s.no_duplicates(),
{
    assert forall|i: int, j: int| 0 <= i < s.len() && 0 <= j < s.len() && i != j implies s[i]
        != s[j] by {
        if i < j {
            text_order_is_total(s[i], s[j]);
        } else {
            text_order_is_total(s[j], s[i]);
        }
    }
}

/// Two ascending lists with the same texts are the same list.
pub proof fn ascending_is_unique(s: Seq<Seq<char>>, t: Seq<Seq<char>>)
    requires
        ascending(s),
        ascending(t),
        s.to_set() == t.to_set(),
    ensures
        s == t,
    decreases s.len(),
{
    if s.len() == 0 {
        if t.len() > 0 {
            assert(t.to_set().contains(t[0]));
            assert(s.to_set().contains(t[0]));
        }
        assert(s =~= t);
    } else {
        assert(s.to_set().contains(s.last()));
        assert(t.to_set().contains(s.last()));
        assert(t.len() > 0);
        assert(t.to_set().contains(t.last()));
        assert(s.to_set().contains(t.last()));
        let i = choose|i: int| 0 <= i < t.len() && t[i] == s.last();
        let j = choose|j: int| 0 <= j < s.len() && s[j] == t.last();
        if s.last() != t.last() {
            assert(text_lt(t[i], t.last()));
            assert(text_lt(s[j], s.last()));
            text_order_is_total(s.last(), t.last());
            assert(false);
        }
        ascending_is_distinct(s);
        ascending_is_distinct(t);
        let x = s.last();
        assert(s.drop_last().to_set() =~= s.to_set().remove(x)) by {
            assert forall|y: Seq<char>| s.drop_last().to_set().contains(y) == s.to_set().remove(
                x,
            ).contains(y) by {
                if s.to_set().remove(x).contains(y) {
                    let k = choose|k: int| 0 <= k < s.len() && s[k] == y;
                    assert(s.drop_last()[k] == y);
                }
                if s.drop_last().to_set().contains(y) {
                    let k = choose|k: int| 0 <= k < s.drop_last().len() && s.drop_last()[k] == y;
                    assert(s[k] == y);
                }
            }
        }
        assert(t.drop_last().to_set() =~= t.to_set().remove(x)) by {
            assert forall|y: Seq<char>| t.drop_last().to_set().contains(y) == t.to_set().remove(
                x,
            ).contains(y) by {
                if t.to_set().remove(x).contains(y) {
                    let k = choose|k: int| 0 <= k < t.len() && t[k] == y;
                    assert(t.drop_last()[k] == y);
                }
                if t.drop_last().to_set().contains(y) {
                    let k = choose|k: int| 0 <= k < t.drop_last().len() && t.drop_last()[k] == y;
                    assert(t[k] == y);
                }
            }
        }
        ascending_is_unique(s.drop_last(), t.drop_last());
        assert(s =~= s.drop_last().push(x));
        assert(t =~= t.drop_last().push(x));
    }
}

/// Where a text stands, or is to be put, in an ascending list of texts.
pub open spec fn place_in(s: Seq<Seq<char>>, key: Seq<char>, i: int) -> bool {
    &&& 0 <= i <= s.len()
    &&& forall|k: int| 0 <= k < i ==> text_lt(#[trigger] s[k], key)
    &&& forall|k: int| i <= k < s.len() ==> !text_lt(#[trigger] s[k], key)
}

/// A text is in an ascending list where it stands at its place, and nowhere else.
proof fn place_decides(s: Seq<Seq<char>>, key: Seq<char>, i: int)
    requires
        ascending(s),
        place_in(s, key, i),
    ensures
        s.contains(key) == (i < s.len() && s[i] == key),
        i < s.len() && s[i] != key ==> text_lt(key, s[i]),
        forall|k: int| i < k < s.len() ==> text_lt(key, #[trigger] s[k]),
        forall|k: int| 0 <= k < s.len() && s[k] == key ==> k == i,
{
    assert forall|k: int| i < k < s.len() implies text_lt(key, #[trigger] s[k]) by {
        text_order_is_total(s[i], key);
        if text_lt(key, s[i]) {
            text_order_is_transitive(key, s[i], s[k]);
        }
    }
    if i < s.len() {
        text_order_is_total(s[i], key);
    }
    if s.contains(key) {
        let k = choose|k: int| 0 <= k < s.len() && s[k] == key;
        text_order_is_total(key, key);
        if k > i {
            assert(text_lt(key, s[k]));
        }
    }
    assert forall|k: int| 0 <= k < s.len() && s[k] == key implies k == i by {
        text_order_is_total(key, key);
        if k > i {
            assert(text_lt(key, s[k]));
        }
    }
}

/// Finds the place of a text in an ascending list, by halving.
fn find_place(items: &Vec<String>, key: &str) -> (r: usize)
    requires
        ascending(views(items@)),
    ensures
        place_in(views(items@), key@, r as int),
{
    let ghost s = views(items@);
    let mut lo: usize = 0;
    let mut hi: usize = items.len();
    while lo < hi
        invariant
            s == views(items@),
            ascending(s),
            lo <= hi <= s.len(),
            forall|k: int| 0 <= k < lo ==> text_lt(#[trigger] s[k], key@),
            forall|k: int| hi <= k < s.len() ==> !text_lt(#[trigger] s[k], key@),
        decreases hi - lo,
    {
        let mid: usize = lo + (hi - lo) / 2;
        assert(s[mid as int] == items@[mid as int]@);
        if text_before(items[mid].as_str(), key) {
            assert forall|k: int| 0 <= k < mid + 1 implies text_lt(#[trigger] s[k], key@) by {
                if k < mid {
                    text_order_is_transitive(s[k], s[mid as int], key@);
                }
            }
            lo = mid + 1;
        } else {
            assert forall|k: int| mid <= k < s.len() implies !text_lt(#[trigger] s[k], key@) by {
                if mid < k && text_lt(s[k], key@) {
                    text_order_is_transitive(s[mid as int], s[k], key@);
                }
            }
            hi = mid;
        }
    }
    lo
}

/// A set of texts, kept in ascending order.
#[derive(Debug)]
pub struct TextSet {
    items: Vec<String>,
}

impl TextSet {
    #[verifier::type_invariant]
    closed spec fn ordered(self) -> bool {
        ascending(views(self.items@))
    }

    /// The texts of the set in ascending order.
    pub closed spec fn list(&self) -> Seq<Seq<char>> {
        views(self.items@)
    }

    /// The set of the texts.
    pub open spec fn view(&self) -> Set<Seq<char>> {
        self.list().to_set()
    }

    pub fn new() -> (r: TextSet)
        ensures
            r@ == Set::<Seq<char>>::empty(),
            r.list() == Seq::<Seq<char>>::empty(),
    {
        let r = TextSet { items: Vec::new() };
        assert(r.list() =~= Seq::empty());
        assert(r@ =~= Set::<Seq<char>>::empty());
        r
    }

    /// The texts in ascending order.
    pub fn items(&self) -> (r: &Vec<String>)
        ensures
            views(r@) == self.list(),
            ascending(self.list()),
            self.list().no_duplicates(),
    {
        proof {
            use_type_invariant(self);
            ascending_is_distinct(self.list());
        }
        &self.items
    }

    pub fn len(&self) -> (r: usize)
        ensures
            r == self.list().len(),
            r == self@.len(),
    {
        proof {
            use_type_invariant(self);
            ascending_is_distinct(self.list());
            self.list().unique_seq_to_set();
        }
        self.items.len()
    }

    pub fn is_empty(&self) -> (r: bool)
        ensures
            r == (self@ == Set::<Seq<char>>::empty()),
            r == (self.list().len() == 0),
    {
        proof {
            if self.list().len() > 0 {
                assert(self@.contains(self.list()[0]));
            } else {
                assert(self@ =~= Set::<Seq<char>>::empty());
            }
        }
        self.items.len() == 0
    }

    pub fn contains(&self, text: &str) -> (r: bool)
        ensures
            r == self@.contains(text@),
    {
        proof {
            use_type_invariant(self);
        }
        let i = find_place(&self.items, text);
        proof {
            place_decides(self.list(), text@, i as int);
        }
        assert(i < self.items@.len() ==> self.list()[i as int] == self.items@[i as int]@);
        i < self.items.len() && same(self.items[i].as_str(), text)
    }

    /// Adds a text; says whether it was new.
    pub fn insert(&mut self, text: String) -> (r: bool)
        ensures
            final(self)@ == old(self)@.insert(text@),
            r == !old(self)@.contains(text@),
            !r ==> final(self).list() == old(self).list(),
    {
        proof {
            use_type_invariant(&*self);
        }
        let ghost before = self.list();
        let mut items: Vec<String> = Vec::new();
        std::mem::swap(&mut items, &mut self.items);
        let i = find_place(&items, text.as_str());
        proof {
            place_decides(before, text@, i as int);
        }
        assert(i < items@.len() ==> before[i as int] == items@[i as int]@);
        if i < items.len() && same(items[i].as_str(), text.as_str()) {
            self.items = items;
            assert(old(self)@.insert(text@) =~= old(self)@);
            return false;
        }
        let ghost key = text@;
        items.insert(i, text);
        assert(views(items@) =~= before.insert(i as int, key));
        proof {
            let after = before.insert(i as int, key);
            assert forall|a: int, b: int| 0 <= a < b < after.len() implies text_lt(
                #[trigger] after[a],
                #[trigger] after[b],
            ) by {
                let x = if a < i {
                    a
                } else {
                    a - 1
                };
                let y = if b < i {
                    b
                } else {
                    b - 1
                };
                if a != i && b != i {
                    assert(text_lt(before[x], before[y]));
                } else if a == i {
                    assert(text_lt(key, before[y]));
                } else {
                    assert(text_lt(before[x], key));
                }
            }
            assert(after.to_set() =~= before.to_set().insert(key)) by {
                assert forall|t: Seq<char>| after.to_set().contains(t) == before.to_set().insert(
                    key,
                ).contains(t) by {
                    if after.to_set().contains(t) {
                        let k = choose|k: int| 0 <= k < after.len() && after[k] == t;
                        if k < i {
                            assert(before[k] == t);
                        } else if k > i {
                            assert(before[k - 1] == t);
                        }
                    }
                    if before.to_set().insert(key).contains(t) {
                        if t == key {
                            assert(after[i as int] == t);
                        } else {
                            let k = choose|k: int| 0 <= k < before.len() && before[k] == t;
                            if k < i {
                                assert(after[k] == t);
                            } else {
                                assert(after[k + 1] == t);
                            }
                        }
                    }
                }
            }
        }
        self.items = items;
        true
    }

    /// Takes a text out; says whether it was there.
    pub fn remove(&mut self, text: &str) -> (r: bool)
        ensures
            final(self)@ == old(self)@.remove(text@),
            r == old(self)@.contains(text@),
    {
        proof {
            use_type_invariant(&*self);
        }
        let ghost before = self.list();
        let mut items: Vec<String> = Vec::new();
        std::mem::swap(&mut items, &mut self.items);
        let i = find_place(&items, text);
        proof {
            place_decides(before, text@, i as int);
        }
        assert(i < items@.len() ==> before[i as int] == items@[i as int]@);
        if i < items.len() && same(items[i].as_str(), text) {
            let _ = items.remove(i);
            let ghost after = before.remove(i as int);
            assert(views(items@) =~= after);
            proof {
                assert forall|a: int, b: int| 0 <= a < b < after.len() implies text_lt(
                    #[trigger] after[a],
                    #[trigger] after[b],
                ) by {
                    let x = if a < i {
                        a
                    } else {
                        a + 1
                    };
                    let y = if b < i {
                        b
                    } else {
                        b + 1
                    };
                    assert(text_lt(before[x], before[y]));
                }
                assert(after.to_set() =~= before.to_set().remove(text@)) by {
                    assert forall|t: Seq<char>| after.to_set().contains(t)
                        == before.to_set().remove(text@).contains(t) by {
                        if after.to_set().contains(t) {
                            let k = choose|k: int| 0 <= k < after.len() && after[k] == t;
                            if k < i {
                                assert(before[k] == t);
                            } else {
                                assert(before[k + 1] == t);
                            }
                        }
                        if before.to_set().remove(text@).contains(t) {
                            let k = choose|k: int| 0 <= k < before.len() && before[k] == t;
                            if k < i {
                                assert(after[k] == t);
                            } else {
                                assert(after[k - 1] == t);
                            }
                        }
                    }
                }
            }
            self.items = items;
            true
        } else {
            self.items = items;
            assert(old(self)@.remove(text@) =~= old(self)@);
            false
        }
    }

    /// The set of the texts of a list.
    pub fn from_list(texts: &Vec<String>) -> (r: TextSet)
        ensures
            r@ == views(texts@).to_set(),
            ascending(r.list()),
    {
        let mut out = TextSet::new();
        let mut i: usize = 0;
        assert(views(texts@).take(0).to_set() =~= Set::<Seq<char>>::empty());
        while i < texts.len()
            invariant
                i <= texts@.len(),
                out@ == views(texts@).take(i as int).to_set(),
            decreases texts@.len() - i,
        {
            proof {
                take_to_set(views(texts@), i as int);
            }
            let _ = out.insert(texts[i].clone());
            i += 1;
        }
        assert(views(texts@).take(texts@.len() as int) =~= views(texts@));
        let _ = out.items();
        out
    }

    pub fn copy(&self) -> (r: TextSet)
        ensures
            r@ == self@,
            r.list() == self.list(),
    {
        proof {
            use_type_invariant(self);
        }
        let items = self.items.clone();
        assert(views(items@) =~= views(self.items@));
        TextSet { items }
    }

    /// Whether two sets hold the same texts.
    pub fn same_as(&self, other: &TextSet) -> (r: bool)
        ensures
            r == (self@ == other@),
    {
        proof {
            use_type_invariant(self);
            use_type_invariant(other);
            if self@ == other@ {
                ascending_is_unique(self.list(), other.list());
            }
        }
        if self.items.len() != other.items.len() {
            return false;
        }
        let mut i: usize = 0;
        while i < self.items.len()
            invariant
                i <= self.items@.len(),
                self.items@.len() == other.items@.len(),
                self@ == other@ ==> self.list() == other.list(),
                forall|k: int| 0 <= k < i ==> self.list()[k] == other.list()[k],
            decreases self.items@.len() - i,
        {
            assert(self.list()[i as int] == self.items@[i as int]@);
            assert(other.list()[i as int] == other.items@[i as int]@);
            if !same(self.items[i].as_str(), other.items[i].as_str()) {
                return false;
            }
            i += 1;
        }
        assert(self.list() =~= other.list());
        true
    }
}

/// The texts up to and with one place are those before it and the one that stands
/// there.
pub proof fn take_to_set<A>(s: Seq<A>, i: int)
    requires
        0 <= i < s.len(),
    ensures
        s.take(i + 1).to_set() == s.take(i).to_set().insert(s[i]),
{
    assert(s.take(i + 1).to_set() =~= s.take(i).to_set().insert(s[i])) by {
        assert forall|t: A| s.take(i + 1).to_set().contains(t) == s.take(i).to_set().insert(
            s[i],
        ).contains(t) by {
            if s.take(i + 1).to_set().contains(t) {
                let u = s.take(i + 1);
                let k = choose|k: int| 0 <= k < u.len() && u[k] == t;
                if k < i {
                    assert(s.take(i)[k] == t);
                }
            }
            if s.take(i).to_set().insert(s[i]).contains(t) {
                if t == s[i] {
                    assert(s.take(i + 1)[i] == t);
                } else {
                    let u = s.take(i);
                    let k = choose|k: int| 0 <= k < u.len() && u[k] == t;
                    assert(s.take(i + 1)[k] == t);
                }
            }
        }
    }
}

/// A map from texts, kept in ascending order of its keys.
#[verifier::reject_recursive_types(V)]
#[derive(Debug)]
pub struct TextMap<V> {
    keys: Vec<String>,
    values: Vec<V>,
}

/// The map that a list of keys and values makes, where no key occurs twice.
pub open spec fn map_of<V>(entries: Seq<(Seq<char>, V)>) -> Map<Seq<char>, V> {
    Map::new(
        |k: Seq<char>| exists|i: int| 0 <= i < entries.len() && (#[trigger] entries[i]).0 == k,
        |k: Seq<char>| entries[entry_of(entries, k)].1,
    )
}

/// The place of a key in a list of keys and values.
pub open spec fn entry_of<V>(entries: Seq<(Seq<char>, V)>, k: Seq<char>) -> int {
    choose|i: int| 0 <= i < entries.len() && (#[trigger] entries[i]).0 == k
}

/// The keys of a list of keys and values.
pub open spec fn keys_of<V>(entries: Seq<(Seq<char>, V)>) -> Seq<Seq<char>> {
    Seq::new(entries.len(), |i: int| entries[i].0)
}

/// Where the keys ascend, the map of the list holds each entry.
proof fn map_of_entry<V>(entries: Seq<(Seq<char>, V)>, i: int)
    requires
        ascending(keys_of(entries)),
        0 <= i < entries.len(),
    ensures
        map_of(entries).contains_key(entries[i].0),
        map_of(entries)[entries[i].0] == entries[i].1,
{
    let k = entries[i].0;
    let j = entry_of(entries, k);
    let keys = keys_of(entries);
    ascending_is_distinct(keys);
    assert(keys[i] == k && keys[j] == k);
}

impl<V> TextMap<V> {
    #[verifier::type_invariant]
    closed spec fn ordered(self) -> bool {
        ascending(views(self.keys@)) && self.keys@.len() == self.values@.len()
    }

    /// The keys with their values, in ascending order of the keys.
    pub closed spec fn entries(&self) -> Seq<(Seq<char>, V)> {
        Seq::new(self.keys@.len(), |i: int| (self.keys@[i]@, self.values@[i]))
    }

    pub open spec fn view(&self) -> Map<Seq<char>, V> {
        map_of(self.entries())
    }

    pub fn new() -> (r: TextMap<V>)
        ensures
            r@ == Map::<Seq<char>, V>::empty(),
            r.entries() == Seq::<(Seq<char>, V)>::empty(),
    {
        let r = TextMap { keys: Vec::new(), values: Vec::new() };
        assert(r.entries() =~= Seq::empty());
        assert(r@ =~= Map::<Seq<char>, V>::empty());
        r
    }

    pub fn len(&self) -> (r: usize)
        ensures
            r == self.entries().len(),
            ascending(keys_of(self.entries())),
    {
        proof {
            use_type_invariant(self);
            assert(keys_of(self.entries()) =~= views(self.keys@));
        }
        self.keys.len()
    }

    /// The key at a place in ascending order.
    pub fn key_at(&self, i: usize) -> (r: &String)
        requires
            i < self.entries().len(),
        ensures
            r@ == self.entries()[i as int].0,
    {
        &self.keys[i]
    }

    /// The value at a place in ascending order of the keys.
    pub fn value_at(&self, i: usize) -> (r: &V)
        requires
            i < self.entries().len(),
        ensures
            *r == self.entries()[i as int].1,
            self@.contains_key(self.entries()[i as int].0),
            *r == self@[self.entries()[i as int].0],
    {
        proof {
            use_type_invariant(self);
            assert(keys_of(self.entries()) =~= views(self.keys@));
            map_of_entry(self.entries(), i as int);
        }
        &self.values[i]
    }

    pub fn get(&self, key: &str) -> (r: Option<&V>)
        ensures
            match r {
                Some(v) => self@.contains_key(key@) && *v == self@[key@],
                None => !self@.contains_key(key@),
            },
    {
        proof {
            use_type_invariant(self);
        }
        let ghost names = views(self.keys@);
        let i = find_place(&self.keys, key);
        proof {
            place_decides(names, key@, i as int);
            assert(keys_of(self.entries()) =~= names);
            if i < names.len() {
                map_of_entry(self.entries(), i as int);
            }
            if self@.contains_key(key@) {
                let k = choose|k: int|
                    0 <= k < self.entries().len() && (#[trigger] self.entries()[k]).0 == key@;
                assert(names[k] == key@);
            }
        }
        if i < self.keys.len() && same(self.keys[i].as_str(), key) {
            Some(&self.values[i])
        } else {
            None
        }
    }

    pub fn contains_key(&self, key: &str) -> (r: bool)
        ensures
            r == self@.contains_key(key@),
    {
        self.get(key).is_some()
    }

    /// Puts a value under a key; a value that stood there gives way.
    pub fn insert(&mut self, key: String, value: V)
        ensures
            final(self)@ == old(self)@.insert(key@, value),
    {
        proof {
            use_type_invariant(&*self);
        }
        let ghost before = self.entries();
        let ghost names = views(self.keys@);
        let ghost name = key@;
        let mut keys: Vec<String> = Vec::new();
        let mut values: Vec<V> = Vec::new();
        let mut me = TextMap { keys: Vec::new(), values: Vec::new() };
        std::mem::swap(&mut me, self);
        let TextMap { keys: old_keys, values: old_values } = me;
        keys = old_keys;
        values = old_values;
        let i = find_place(&keys, key.as_str());
        proof {
            place_decides(names, name, i as int);
            assert(keys_of(before) =~= names);
        }
        assert(i < keys@.len() ==> names[i as int] == keys@[i as int]@);
        if i < keys.len() && same(keys[i].as_str(), key.as_str()) {
            values.set(i, value);
            *self = TextMap { keys, values };
            let ghost after = self.entries();
            proof {
                assert(keys_of(after) =~= names);
                let goal = old(self)@.insert(name, value);
                assert forall|k: Seq<char>|
                    #![trigger self@.contains_key(k)]
                    #![trigger self@[k]]
                    #![trigger goal.contains_key(k)]
                    self@.contains_key(k) == goal.contains_key(k) && (self@.contains_key(k)
                        ==> self@[k] == goal[k]) by {
                    if map_of(after).contains_key(k) {
                        let j = choose|j: int| 0 <= j < after.len() && (#[trigger] after[j]).0 == k;
                        map_of_entry(after, j);
                        map_of_entry(before, j);
                        assert(names[j] == k);
                    }
                    if map_of(before).contains_key(k) {
                        let j = choose|j: int| 0 <= j < before.len() && (#[trigger] before[j]).0 == k;
                        map_of_entry(after, j);
                        map_of_entry(before, j);
                    }
                    map_of_entry(after, i as int);
                }
                assert(self@ =~= goal);
            }
        } else {
            keys.insert(i, key);
            values.insert(i, value);
            let ghost new_names = names.insert(i as int, name);
            assert(views(keys@) =~= new_names);
            proof {
                assert forall|a: int, b: int| 0 <= a < b < new_names.len() implies text_lt(
                    #[trigger] new_names[a],
                    #[trigger] new_names[b],
                ) by {
                    let x = if a < i {
                        a
                    } else {
                        a - 1
                    };
                    let y = if b < i {
                        b
                    } else {
                        b - 1
                    };
                    if a != i && b != i {
                        assert(text_lt(names[x], names[y]));
                    } else if a == i {
                        assert(text_lt(name, names[y]));
                    } else {
                        assert(text_lt(names[x], name));
                    }
                }
            }
            *self = TextMap { keys, values };
            let ghost after = self.entries();
            proof {
                assert(keys_of(after) =~= new_names);
                assert(after =~= before.insert(i as int, (name, value)));
                let goal = old(self)@.insert(name, value);
                assert forall|k: Seq<char>|
                    #![trigger self@.contains_key(k)]
                    #![trigger self@[k]]
                    #![trigger goal.contains_key(k)]
                    self@.contains_key(k) == goal.contains_key(k) && (self@.contains_key(k)
                        ==> self@[k] == goal[k]) by {
                    if map_of(after).contains_key(k) {
                        let j = choose|j: int| 0 <= j < after.len() && (#[trigger] after[j]).0 == k;
                        map_of_entry(after, j);
                        if j < i {
                            map_of_entry(before, j);
                            assert(names[j] == k);
                        } else if j > i {
                            map_of_entry(before, j - 1);
                            assert(names[j - 1] == k);
                        }
                    }
                    if map_of(before).contains_key(k) {
                        let j = choose|j: int| 0 <= j < before.len() && (#[trigger] before[j]).0 == k;
                        map_of_entry(before, j);
                        if j < i {
                            map_of_entry(after, j);
                        } else {
                            map_of_entry(after, j + 1);
                        }
                    }
                    map_of_entry(after, i as int);
                }
                assert(self@ =~= goal);
            }
        }
    }

    /// Takes a key out with its value.
    pub fn remove(&mut self, key: &str) -> (r: Option<V>)
        ensures
            final(self)@ == old(self)@.remove(key@),
            match r {
                Some(v) => old(self)@.contains_key(key@) && v == old(self)@[key@],
                None => !old(self)@.contains_key(key@),
            },
    {
        proof {
            use_type_invariant(&*self);
        }
        let ghost before = self.entries();
        let ghost names = views(self.keys@);
        let mut me = TextMap { keys: Vec::new(), values: Vec::new() };
        std::mem::swap(&mut me, self);
        let TextMap { keys: old_keys, values: old_values } = me;
        let mut keys = old_keys;
        let mut values = old_values;
        let i = find_place(&keys, key);
        proof {
            place_decides(names, key@, i as int);
            assert(keys_of(before) =~= names);
        }
        assert(i < keys@.len() ==> names[i as int] == keys@[i as int]@);
        if i < keys.len() && same(keys[i].as_str(), key) {
            let _ = keys.remove(i);
            let value = values.remove(i);
            proof {
                map_of_entry(before, i as int);
            }
            let ghost new_names = names.remove(i as int);
            assert(views(keys@) =~= new_names);
            proof {
                assert forall|a: int, b: int| 0 <= a < b < new_names.len() implies text_lt(
                    #[trigger] new_names[a],
                    #[trigger] new_names[b],
                ) by {
                    let x = if a < i {
                        a
                    } else {
                        a + 1
                    };
                    let y = if b < i {
                        b
                    } else {
                        b + 1
                    };
                    assert(text_lt(names[x], names[y]));
                }
            }
            *self = TextMap { keys, values };
            let ghost after = self.entries();
            proof {
                assert(keys_of(after) =~= new_names);
                assert(after =~= before.remove(i as int));
                let goal = old(self)@.remove(key@);
                assert forall|k: Seq<char>|
                    #![trigger self@.contains_key(k)]
                    #![trigger self@[k]]
                    #![trigger goal.contains_key(k)]
                    self@.contains_key(k) == goal.contains_key(k) && (self@.contains_key(k)
                        ==> self@[k] == goal[k]) by {
                    if map_of(after).contains_key(k) {
                        let j = choose|j: int| 0 <= j < after.len() && (#[trigger] after[j]).0 == k;
                        map_of_entry(after, j);
                        if j < i {
                            map_of_entry(before, j);
                            assert(names[j] == k);
                        } else {
                            map_of_entry(before, j + 1);
                            assert(names[j + 1] == k);
                        }
                    }
                    if map_of(before).contains_key(k) && k != key@ {
                        let j = choose|j: int| 0 <= j < before.len() && (#[trigger] before[j]).0 == k;
                        map_of_entry(before, j);
                        if j < i {
                            map_of_entry(after, j);
                        } else {
                            map_of_entry(after, j - 1);
                        }
                    }
                }
                assert(self@ =~= goal);
            }
            Some(value)
        } else {
            *self = TextMap { keys, values };
            proof {
                assert(self.entries() =~= before);
                if map_of(before).contains_key(key@) {
                    let j = choose|j: int|
                        0 <= j < before.len() && (#[trigger] before[j]).0 == key@;
                    assert(names[j] == key@);
                }
                assert(old(self)@.remove(key@) =~= old(self)@);
            }
            None
        }
    }
}

/// Values that stand in an order in which some may be tied.
pub trait Ranked: Sized {
    /// Whether the value comes before the other.
    spec fn ranks_before(&self, other: &Self) -> bool;

    /// Of two values, at most one comes before the other.
    proof fn rank_is_asymmetric(a: &Self, b: &Self)
        ensures
            a.ranks_before(b) ==> !b.ranks_before(a),
    ;

    /// Not coming after is transitive.
    proof fn rank_is_transitive(a: &Self, b: &Self, c: &Self)
        ensures
            !b.ranks_before(a) && !c.ranks_before(b) ==> !c.ranks_before(a),
    ;

    fn is_before(&self, other: &Self) -> (r: bool)
        ensures
            r == self.ranks_before(other),
    ;
}

/// The list `t` with `x` put behind everything that does not come after it.
pub open spec fn placed<T: Ranked>(t: Seq<T>, x: T) -> Seq<T>
    decreases t.len(),
{
    if t.len() == 0 || !x.ranks_before(&t.last()) {
        t.push(x)
    } else {
        placed(t.drop_last(), x).push(t.last())
    }
}

/// The values of `s` in their order, tied values in the order they had.
pub open spec fn sorted_of<T: Ranked>(s: Seq<T>) -> Seq<T>
    decreases s.len(),
{
    if s.len() == 0 {
        Seq::empty()
    } else {
        placed(sorted_of(s.drop_last()), s.last())
    }
}

/// Whether no value of the list comes before one that stands ahead of it.
pub open spec fn in_order<T: Ranked>(s: Seq<T>) -> bool {
    forall|i: int, j: int| 0 <= i < j < s.len() ==> !(#[trigger] s[j]).ranks_before(#[trigger] &s[i])
}

proof fn placed_in_order<T: Ranked>(t: Seq<T>, x: T)
    requires
        in_order(t),
    ensures
        in_order(placed(t, x)),
        placed(t, x).len() == t.len() + 1,
        placed(t, x).to_multiset() == t.to_multiset().insert(x),
        forall|y: T| #[trigger] placed(t, x).contains(y) ==> y == x || t.contains(y),
    decreases t.len(),
{
    broadcast use vstd::seq_lib::group_to_multiset_ensures;

    if t.len() == 0 || !x.ranks_before(&t.last()) {
        let p = t.push(x);
        assert forall|i: int, j: int| 0 <= i < j < p.len() implies !(
        #[trigger] p[j]).ranks_before(#[trigger] &p[i]) by {
            if j == t.len() {
                if i == t.len() - 1 {
                } else {
                    assert(!t[t.len() - 1].ranks_before(&t[i]));
                    T::rank_is_transitive(&t[i], &t.last(), &x);
                }
            } else {
                assert(!t[j].ranks_before(&t[i]));
            }
        }
        assert forall|y: T| #[trigger] p.contains(y) implies y == x || t.contains(y) by {
            let k = choose|k: int| 0 <= k < p.len() && p[k] == y;
            if k < t.len() {
                assert(t[k] == y);
            }
        }
    } else {
        let d = t.drop_last();
        placed_in_order(d, x);
        let q = placed(d, x);
        let p = q.push(t.last());
        assert forall|i: int, j: int| 0 <= i < j < p.len() implies !(
        #[trigger] p[j]).ranks_before(#[trigger] &p[i]) by {
            if j == q.len() {
                assert(q.contains(q[i]));
                if q[i] == x {
                    T::rank_is_asymmetric(&x, &t.last());
                } else {
                    let k = choose|k: int| 0 <= k < d.len() && d[k] == q[i];
                    assert(!t[t.len() - 1].ranks_before(&t[k]));
                }
            } else {
                assert(!q[j].ranks_before(&q[i]));
            }
        }
        assert(t =~= d.push(t.last()));
        assert(p.to_multiset() =~= t.to_multiset().insert(x));
        assert forall|y: T| #[trigger] p.contains(y) implies y == x || t.contains(y) by {
            let k = choose|k: int| 0 <= k < p.len() && p[k] == y;
            if k < q.len() {
                assert(q.contains(q[k]));
                if y != x {
                    let m = choose|m: int| 0 <= m < d.len() && d[m] == y;
                    assert(t[m] == y);
                }
            } else {
                assert(t[t.len() - 1] == y);
            }
        }
    }
}

/// Sorting puts the values in order and neither adds nor drops one.
pub proof fn sorting_orders<T: Ranked>(s: Seq<T>)
    ensures
        in_order(sorted_of(s)),
        sorted_of(s).to_multiset() == s.to_multiset(),
        sorted_of(s).len() == s.len(),
    decreases s.len(),
{
    broadcast use vstd::seq_lib::group_to_multiset_ensures;

    if s.len() > 0 {
        sorting_orders(s.drop_last());
        placed_in_order(sorted_of(s.drop_last()), s.last());
        assert(s =~= s.drop_last().push(s.last()));
    } else {
        assert(s =~= Seq::empty());
    }
}

/// Whether neither of two values comes before the other.
pub open spec fn tied<T: Ranked>(a: T, b: T) -> bool {
    !a.ranks_before(&b) && !b.ranks_before(&a)
}

/// Tells which values are tied with `a`.
pub open spec fn ties<T: Ranked>(a: T) -> spec_fn(T) -> bool {
    |y: T| tied(a, y)
}

/// Filtering a list with one value more.
pub proof fn filter_push<A>(s: Seq<A>, x: A, f: spec_fn(A) -> bool)
    ensures
        s.push(x).filter(f) == if f(x) {
            s.filter(f).push(x)
        } else {
            s.filter(f)
        },
{
    reveal(Seq::filter);
    assert(s.push(x).drop_last() =~= s);
}

proof fn placed_keeps_ties<T: Ranked>(t: Seq<T>, x: T, a: T)
    requires
        in_order(t),
    ensures
        placed(t, x).filter(ties(a)) == t.push(x).filter(ties(a)),
    decreases t.len(),
{
    let f = ties(a);
    if t.len() > 0 && x.ranks_before(&t.last()) {
        let d = t.drop_last();
        let z = t.last();
        assert(in_order(d));
        placed_keeps_ties(d, x, a);
        filter_push(placed(d, x), z, f);
        filter_push(d, x, f);
        filter_push(d, z, f);
        filter_push(t, x, f);
        assert(d.push(z) =~= t);
        if f(x) && f(z) {
            T::rank_is_transitive(&z, &a, &x);
        }
        assert(placed(t, x).filter(f) =~= t.push(x).filter(f));
    }
}

/// Sorting leaves tied values in the order they had.
pub proof fn sorting_keeps_ties<T: Ranked>(s: Seq<T>, a: T)
    ensures
        sorted_of(s).filter(ties(a)) == s.filter(ties(a)),
    decreases s.len(),
{
    if s.len() > 0 {
        let d = s.drop_last();
        sorting_orders(d);
        sorting_keeps_ties(d, a);
        placed_keeps_ties(sorted_of(d), s.last(), a);
        filter_push(sorted_of(d), s.last(), ties(a));
        filter_push(d, s.last(), ties(a));
        assert(s =~= d.push(s.last()));
    } else {
        assert(s =~= Seq::empty());
    }
}

proof fn placed_keeps_count<T: Ranked>(t: Seq<T>, x: T, f: spec_fn(T) -> bool)
    ensures
        placed(t, x).filter(f).len() == t.push(x).filter(f).len(),
    decreases t.len(),
{
    if t.len() > 0 && x.ranks_before(&t.last()) {
        let d = t.drop_last();
        placed_keeps_count(d, x, f);
        filter_push(placed(d, x), t.last(), f);
        filter_push(d, x, f);
        filter_push(d, t.last(), f);
        filter_push(t, x, f);
        assert(d.push(t.last()) =~= t);
    }
}

/// Sorting leaves as many values of any sort as there were.
pub proof fn sorting_keeps_count<T: Ranked>(s: Seq<T>, f: spec_fn(T) -> bool)
    ensures
        sorted_of(s).filter(f).len() == s.filter(f).len(),
    decreases s.len(),
{
    if s.len() > 0 {
        let d = s.drop_last();
        sorting_keeps_count(d, f);
        placed_keeps_count(sorted_of(d), s.last(), f);
        filter_push(sorted_of(d), s.last(), f);
        filter_push(d, s.last(), f);
        assert(s =~= d.push(s.last()));
    } else {
        assert(s =~= Seq::empty());
    }
}

/// Sorts values, tied values in the order they had.
pub fn sort<T: Ranked>(v: Vec<T>) -> (r: Vec<T>)
    ensures
        r@ == sorted_of(v@),
{
    let mut out: Vec<T> = Vec::new();
    let ghost s = v@;
    for x in it: v
        invariant
            it.seq() == s,
            out@ == sorted_of(s.take(it.index())),
    {
        let ghost n = it.index();
        let ghost t = out@;
        let mut j: usize = out.len();
        assert(t.take(t.len() as int) =~= t);
        assert(placed(t, x) =~= placed(t.take(j as int), x) + t.skip(j as int));
        while j > 0 && x.is_before(&out[j - 1])
            invariant
                out@ == t,
                j <= t.len(),
                placed(t, x) == placed(t.take(j as int), x) + t.skip(j as int),
            decreases j,
        {
            assert(t.take(j as int).drop_last() =~= t.take(j - 1));
            assert(placed(t.take(j - 1), x).push(t[j - 1]) + t.skip(j as int) =~= placed(
                t.take(j - 1),
                x,
            ) + t.skip(j - 1));
            j -= 1;
        }
        assert(placed(t, x) =~= t.insert(j as int, x));
        out.insert(j, x);
        assert(s.take(n + 1).drop_last() =~= s.take(n));
    }
    assert(s.take(s.len() as int) =~= s);
    out
}

/// The texts of a finite set in ascending order.
pub open spec fn ascending_of(set: Set<Seq<char>>) -> Seq<Seq<char>> {
    choose|s: Seq<Seq<char>>| ascending(s) && s.to_set() == set
}

/// Of texts there is a first in their order.
pub proof fn first_text(set: Set<Seq<char>>) -> (first: Seq<char>)
    requires
        set.finite(),
        set.len() > 0,
    ensures
        set.contains(first),
        forall|x: Seq<char>| #[trigger] set.contains(x) ==> x == first || text_lt(first, x),
    decreases set.len(),
{
    let one = set.choose();
    let rest = set.remove(one);
    if rest.len() == 0 {
        assert forall|x: Seq<char>| #[trigger] set.contains(x) implies x == one || text_lt(
            one,
            x,
        ) by {
            if x != one {
                assert(rest.contains(x));
            }
        }
        one
    } else {
        let first = first_text(rest);
        text_order_is_total(first, one);
        let least = if text_lt(first, one) {
            first
        } else {
            one
        };
        assert forall|x: Seq<char>| #[trigger] set.contains(x) implies x == least || text_lt(
            least,
            x,
        ) by {
            if x != one {
                assert(rest.contains(x));
                if least == one && x != first {
                    text_order_is_transitive(one, first, x);
                }
            }
        }
        least
    }
}

/// The texts of a finite set can be put in ascending order.
pub proof fn ascending_of_holds(set: Set<Seq<char>>)
    requires
        set.finite(),
    ensures
        ascending(ascending_of(set)),
        ascending_of(set).to_set() == set,
    decreases set.len(),
{
    if set.len() == 0 {
        let s = Seq::<Seq<char>>::empty();
        assert(s.to_set() =~= set);
        assert(ascending(s) && s.to_set() == set);
    } else {
        let first = first_text(set);
        let rest = set.remove(first);
        ascending_of_holds(rest);
        let t = ascending_of(rest);
        let s = seq![first] + t;
        assert forall|i: int, j: int| 0 <= i < j < s.len() implies text_lt(
            #[trigger] s[i],
            #[trigger] s[j],
        ) by {
            assert(t.to_set().contains(t[j - 1]));
            if i > 0 {
                assert(text_lt(t[i - 1], t[j - 1]));
            }
        }
        assert forall|x: Seq<char>| #[trigger] s.to_set().contains(x) <==> set.contains(x) by {
            if s.to_set().contains(x) {
                let i = choose|i: int| 0 <= i < s.len() && s[i] == x;
                if i > 0 {
                    assert(t.to_set().contains(t[i - 1]));
                }
            }
            if set.contains(x) {
                if x == first {
                    assert(s[0] == x);
                } else {
                    assert(t.to_set().contains(x));
                    let i = choose|i: int| 0 <= i < t.len() && t[i] == x;
                    assert(s[i + 1] == x);
                }
            }
        }
        assert(s.to_set() =~= set);
        assert(ascending(s) && s.to_set() == set);
    }
}

/// Texts in ascending order are those of their set in ascending order.
pub proof fn ascending_of_is(s: Seq<Seq<char>>)
    requires
        ascending(s),
    ensures
        ascending_of(s.to_set()) == s,
{
    let t = ascending_of(s.to_set());
    assert(ascending(s) && s.to_set() == s.to_set());
    ascending_is_unique(s, t);
}

/// The texts of a set in ascending order.
pub fn ascending_items(set: &TextSet) -> (r: &Vec<String>)
    ensures
        views(r@) == ascending_of(set@),
{
    let items = set.items();
    proof {
        let s = ascending_of(set@);
        assert(ascending(views(items@)) && views(items@).to_set() == set@);
        ascending_is_unique(views(items@), s);
    }
    items
}

/// The keys of a table in ascending order.
pub fn sorted_keys<V>(map: &TextMap<V>) -> (r: Vec<String>)
    ensures
        views(r@) == ascending_of(map@.dom()),
        views(r@).to_set() == map@.dom(),
        views(r@).no_duplicates(),
{
    let n: usize = map.len();
    let ghost entries = map.entries();
    let ghost keys = keys_of(entries);
    let mut out: Vec<String> = Vec::new();
    let mut i: usize = 0;
    while i < n
        invariant
            i <= n == entries.len(),
            entries == map.entries(),
            keys == keys_of(entries),
            views(out@) == keys.take(i as int),
        decreases n - i,
    {
        let ghost before = views(out@);
        out.push(map.key_at(i).clone());
        assert(views(out@) =~= before.push(keys[i as int]));
        i += 1;
        assert(keys.take(i as int) =~= before.push(keys[i - 1]));
    }
    assert(keys.take(i as int) =~= keys);
    proof {
        assert(keys.to_set() =~= map@.dom()) by {
            assert forall|k: Seq<char>| keys.to_set().contains(k) implies map@.dom().contains(
                k,
            ) by {
                let j = choose|j: int| 0 <= j < keys.len() && keys[j] == k;
                assert(entries[j].0 == k);
            }
            assert forall|k: Seq<char>| map@.dom().contains(k) implies keys.to_set().contains(
                k,
            ) by {
                let j = choose|j: int| 0 <= j < entries.len() && (#[trigger] entries[j]).0 == k;
                assert(keys[j] == k);
            }
        }
        let s = ascending_of(map@.dom());
        assert(ascending(keys) && keys.to_set() == map@.dom());
        ascending_is_unique(keys, s);
        ascending_is_distinct(keys);
    }
    out
}

/// A table and a set of the same size, all of whose texts are keys of the table, have the
/// same texts.
pub proof fn same_size_is_same<V>(map: &TextMap<V>, set: &TextSet, size: int)
    requires
        size == map.entries().len(),
        ascending(keys_of(map.entries())),
        ascending(set.list()),
    ensures
        (map@.dom() == set@) == (size == set.list().len() && forall|i: int|
            0 <= i < set.list().len() ==> map@.contains_key(#[trigger] set.list()[i])),
{
    let keys = keys_of(map.entries());
    let list = set.list();
    assert(keys.to_set() =~= map@.dom()) by {
        assert forall|k: Seq<char>| keys.to_set().contains(k) implies map@.dom().contains(k) by {
            let j = choose|j: int| 0 <= j < keys.len() && keys[j] == k;
            assert(map.entries()[j].0 == k);
        }
        assert forall|k: Seq<char>| map@.dom().contains(k) implies keys.to_set().contains(k) by {
            let j = choose|j: int|
                0 <= j < map.entries().len() && (#[trigger] map.entries()[j]).0 == k;
            assert(keys[j] == k);
        }
    }
    ascending_is_distinct(keys);
    ascending_is_distinct(list);
    keys.unique_seq_to_set();
    list.unique_seq_to_set();
    if map@.dom() == set@ {
        ascending_is_unique(keys, list);
        assert forall|i: int| 0 <= i < list.len() implies map@.contains_key(
            #[trigger] list[i],
        ) by {
            assert(list.to_set().contains(list[i]));
        }
    } else if size == list.len() && forall|i: int|
        0 <= i < list.len() ==> map@.contains_key(#[trigger] list[i]) {
        assert(list.to_set().subset_of(keys.to_set())) by {
            assert forall|k: Seq<char>| list.to_set().contains(k) implies keys.to_set().contains(
                k,
            ) by {
                let j = choose|j: int| 0 <= j < list.len() && list[j] == k;
                assert(map@.contains_key(list[j]));
            }
        }
        vstd::set_lib::lemma_subset_equality(list.to_set(), keys.to_set());
    }
}

/// The texts of a table, as contracts speak of them.
pub open spec fn texts_in(map: Map<Seq<char>, String>) -> Map<Seq<char>, Seq<char>> {
    Map::new(|k: Seq<char>| map.contains_key(k), |k: Seq<char>| map[k]@)
}

/// What stands in a sorted list stood in the list.
pub proof fn sorting_keeps<T: Ranked>(s: Seq<T>, i: int)
    requires
        0 <= i < sorted_of(s).len(),
    ensures
        s.contains(sorted_of(s)[i]),
{
    broadcast use vstd::seq_lib::group_to_multiset_ensures;

    sorting_orders(s);
    let x = sorted_of(s)[i];
    assert(sorted_of(s).contains(x));
    assert(sorted_of(s).to_multiset().count(x) > 0);
    assert(s.to_multiset().count(x) > 0);
}

/// Two texts are ordered by the first character in which they differ, by which is the lower; a
/// text comes before every other that begins with it.
pub proof fn first_difference_decides(a: Seq<char>, b: Seq<char>, k: int)
    requires
        0 <= k <= a.len(),
        k <= b.len(),
        a.take(k) == b.take(k),
    ensures
        k < a.len() && k < b.len() && a[k] < b[k] ==> text_lt(a, b) && !text_lt(b, a),
        k == a.len() && k < b.len() ==> text_lt(a, b) && !text_lt(b, a),
        k == a.len() && k == b.len() ==> !text_lt(a, b) && !text_lt(b, a),
    decreases k,
{
    if k > 0 {
        assert(a[0] == a.take(k)[0] && b[0] == b.take(k)[0]);
        assert(a.skip(1).take(k - 1) =~= a.take(k).skip(1));
        assert(b.skip(1).take(k - 1) =~= b.take(k).skip(1));
        first_difference_decides(a.skip(1), b.skip(1), k - 1);
        assert(k < a.len() ==> a.skip(1)[k - 1] == a[k]);
        assert(k < b.len() ==> b.skip(1)[k - 1] == b[k]);
    }
}

} // verus!
