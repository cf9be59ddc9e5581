//! Variable tables: string-keyed maps and the values they hold.

use vstd::prelude::*;
use vstd::std_specs::vec::axiom_vec_index_decreases;
use crate::text::{
    concat2, concat3, decimal, decimal_string, lemma_less_irreflexive, lemma_less_total,
    lemma_less_transitive, chars_of, str_eq, str_less, text_less,
};

verus! {

/// The map that a sequence of key/value pairs stands for. Where a key occurs
/// more than once the last pair wins.
pub open spec fn entries_map<T>(s: Seq<(Seq<char>, T)>) -> Map<Seq<char>, T>
    decreases s.len(),
{
    if s.len() == 0 {
        Map::empty()
    } else {
        entries_map(s.drop_last()).insert(s.last().0, s.last().1)
    }
}

/// No key occurs twice among the pairs.
pub open spec fn distinct_keys<T>(s: Seq<(Seq<char>, T)>) -> bool {
    forall|i: int, j: int| 0 <= i < j < s.len() ==> s[i].0 != s[j].0
}

/// A key is in the map of a sequence of pairs exactly when some pair has it.
pub proof fn lemma_entries_map_dom<T>(s: Seq<(Seq<char>, T)>, key: Seq<char>)
    ensures
        entries_map(s).dom().contains(key) <==> exists|i: int| 0 <= i < s.len() && s[i].0 == key,
        entries_map(s).dom().finite(),
    decreases s.len(),
{
    if s.len() > 0 {
        lemma_entries_map_dom(s.drop_last(), key);
        if entries_map(s).dom().contains(key) {
            if s.last().0 == key {
                assert(s[s.len() - 1].0 == key);
            } else {
                let i = choose|i: int| 0 <= i < s.drop_last().len() && s.drop_last()[i].0 == key;
                assert(s[i].0 == key);
            }
        }
        if exists|i: int| 0 <= i < s.len() && s[i].0 == key {
            let i = choose|i: int| 0 <= i < s.len() && s[i].0 == key;
            if i < s.len() - 1 {
                assert(s.drop_last()[i].0 == key);
            }
        }
    }
}

/// With distinct keys every pair is found in the map under its key.
pub proof fn lemma_entries_map_index<T>(s: Seq<(Seq<char>, T)>, i: int)
    requires
        distinct_keys(s),
        0 <= i < s.len(),
    ensures
        entries_map(s).dom().contains(s[i].0),
        entries_map(s)[s[i].0] == s[i].1,
    decreases s.len(),
{
    if i < s.len() - 1 {
        assert(distinct_keys(s.drop_last())) by {
            assert forall|a: int, b: int| 0 <= a < b < s.drop_last().len() implies s.drop_last()[a].0
                != s.drop_last()[b].0 by {
                assert(s.drop_last()[a] == s[a]);
                assert(s.drop_last()[b] == s[b]);
            }
        }
        lemma_entries_map_index(s.drop_last(), i);
        assert(s.drop_last()[i] == s[i]);
        assert(s[i].0 != s[s.len() - 1].0);
    }
}

/// With distinct keys the map has as many keys as there are pairs.
pub proof fn lemma_entries_map_len<T>(s: Seq<(Seq<char>, T)>)
    requires
        distinct_keys(s),
    ensures
        entries_map(s).dom().finite(),
        entries_map(s).dom().len() == s.len(),
    decreases s.len(),
{
    lemma_entries_map_dom(s, Seq::empty());
    if s.len() > 0 {
        let t = s.drop_last();
        assert(distinct_keys(t)) by {
            assert forall|a: int, b: int| 0 <= a < b < t.len() implies t[a].0 != t[b].0 by {
                assert(t[a] == s[a]);
                assert(t[b] == s[b]);
            }
        }
        lemma_entries_map_len(t);
        lemma_entries_map_dom(t, s.last().0);
        if entries_map(t).dom().contains(s.last().0) {
            let i = choose|i: int| 0 <= i < t.len() && t[i].0 == s.last().0;
            assert(t[i] == s[i]);
            assert(s[i].0 != s[s.len() - 1].0);
        }
    }
}

/// The keys with one more at the end, unless it is among them already.
pub open spec fn with_key(keys: Seq<Seq<char>>, key: Seq<char>) -> Seq<Seq<char>> {
    if keys.contains(key) {
        keys
    } else {
        keys.push(key)
    }
}

/// The keys with each of the others added in turn, unless it is there
/// already.
pub open spec fn with_keys(keys: Seq<Seq<char>>, more: Seq<Seq<char>>) -> Seq<Seq<char>>
    decreases more.len(),
{
    if more.len() == 0 {
        keys
    } else {
        with_key(with_keys(keys, more.drop_last()), more.last())
    }
}

/// A map from string keys to values that keeps the order in which the keys
/// were first inserted. No key occurs twice.
#[derive(Debug, PartialEq)]
pub struct StrMap<V> {
    items: Vec<(String, V)>,
}

impl<V> View for StrMap<V> {
    type V = Map<Seq<char>, V>;

    open spec fn view(&self) -> Map<Seq<char>, V> {
        entries_map(self.entries())
    }
}

impl<V> StrMap<V> {
    #[verifier::type_invariant]
    spec fn inv(&self) -> bool {
        forall|i: int, j: int| 0 <= i < j < self.items.len() ==> self.items[i].0@ != self.items[j].0@
    }

    /// The pairs of the map in insertion order.
    pub closed spec fn entries(&self) -> Seq<(Seq<char>, V)> {
        Seq::new(self.items.len() as nat, |i: int| (self.items[i].0@, self.items[i].1))
    }

    /// The keys of the map in insertion order.
    pub open spec fn key_seq(&self) -> Seq<Seq<char>> {
        Seq::new(self.entries().len(), |i: int| self.entries()[i].0)
    }

    /// An empty map.
    pub fn new() -> (r: Self)
        ensures
            r.entries() == Seq::<(Seq<char>, V)>::empty(),
            r@ == Map::<Seq<char>, V>::empty(),
    {
        let r = StrMap { items: Vec::new() };
        assert(r.entries() =~= Seq::<(Seq<char>, V)>::empty());
        r
    }

    /// The number of keys. The keys are distinct and are those of the view.
    pub fn len(&self) -> (n: usize)
        ensures
            n == self.entries().len(),
            n == self@.dom().len(),
            self@.dom().finite(),
            distinct_keys(self.entries()),
            self.key_seq().no_duplicates(),
            forall|k: Seq<char>| self@.dom().contains(k) <==> self.key_seq().contains(k),
    {
        proof {
            use_type_invariant(self);
            lemma_entries_map_len(self.entries());
            assert forall|k: Seq<char>| self@.dom().contains(k) <==> self.key_seq().contains(
                k,
            ) by {
                lemma_entries_map_dom(self.entries(), k);
                if self@.dom().contains(k) {
                    let i = choose|i: int| 0 <= i < self.entries().len() && self.entries()[i].0 == k;
                    assert(self.key_seq()[i] == k);
                }
            }
        }
        self.items.len()
    }

    /// Whether the map has no key.
    pub fn is_empty(&self) -> (b: bool)
        ensures
            b == (self.entries().len() == 0),
            b == (self@ == Map::<Seq<char>, V>::empty()),
    {
        proof {
            use_type_invariant(self);
            lemma_entries_map_len(self.entries());
            if self.entries().len() == 0 {
                assert(self@ =~= Map::<Seq<char>, V>::empty());
            }
        }
        self.items.len() == 0
    }

    /// The position of a key, if the map has it.
    fn find(&self, key: &str) -> (r: Option<usize>)
        ensures
            match r {
                Some(i) => i < self.entries().len() && self.entries()[i as int].0 == key@,
                None => forall|i: int| 0 <= i < self.entries().len() ==> self.entries()[i].0 != key@,
            },
    {
        let n: usize = self.items.len();
        let mut i: usize = 0;
        while i < n
            invariant
                i <= n,
                n == self.items.len(),
                n == self.entries().len(),
                forall|j: int| 0 <= j < i ==> self.entries()[j].0 != key@,
            decreases n - i,
        {
            if str_eq(self.items[i].0.as_str(), key) {
                return Some(i);
            }
            i += 1;
        }
        None
    }

    /// Whether the map has the key.
    pub fn contains_key(&self, key: &str) -> (b: bool)
        ensures
            b == self@.dom().contains(key@),
    {
        proof {
            lemma_entries_map_dom(self.entries(), key@);
        }
        self.find(key).is_some()
    }

    /// The value stored under a key.
    pub fn get(&self, key: &str) -> (r: Option<&V>)
        ensures
            match r {
                Some(v) => self@.dom().contains(key@) && *v == self@[key@],
                None => !self@.dom().contains(key@),
            },
    {
        proof {
            use_type_invariant(self);
            lemma_entries_map_dom(self.entries(), key@);
        }
        match self.find(key) {
            Some(i) => {
                proof {
                    lemma_entries_map_index(self.entries(), i as int);
                }
                Some(&self.items[i].1)
            },
            None => None,
        }
    }

    /// The key at a position of the insertion order.
    pub fn key_at(&self, i: usize) -> (k: &String)
        requires
            i < self.entries().len(),
        ensures
            k@ == self.entries()[i as int].0,
    {
        &self.items[i].0
    }

    /// The value at a position of the insertion order.
    pub fn value_at(&self, i: usize) -> (v: &V)
        requires
            i < self.entries().len(),
        ensures
            *v == self.entries()[i as int].1,
            self@.dom().contains(self.entries()[i as int].0),
            self@[self.entries()[i as int].0] == *v,
    {
        proof {
            use_type_invariant(self);
            lemma_entries_map_index(self.entries(), i as int);
        }
        &self.items[i].1
    }

    /// Stores a value under a key. A key that the map already has keeps its
    /// place in the order and gets the new value; the old one is returned.
    pub fn insert(&mut self, key: String, value: V) -> (r: Option<V>)
        ensures
            final(self)@ == old(self)@.insert(key@, value),
            match r {
                Some(v) => old(self)@.dom().contains(key@) && v == old(self)@[key@],
                None => !old(self)@.dom().contains(key@),
            },
            old(self)@.dom().contains(key@) ==> final(self).key_seq() == old(self).key_seq(),
            !old(self)@.dom().contains(key@) ==> final(self).entries() == old(
                self,
            ).entries().push((key@, value)),
            final(self).key_seq() == with_key(old(self).key_seq(), key@),
            forall|i: int|
                0 <= i < old(self).entries().len() && #[trigger] old(self).entries()[i].0 == key@
                    ==> final(self).entries() == old(self).entries().update(i, (key@, value)),
    {
        proof {
            use_type_invariant(&*self);
            lemma_entries_map_dom(self.entries(), key@);
            if self.key_seq().contains(key@) {
                let i = choose|i: int| 0 <= i < self.key_seq().len() && self.key_seq()[i] == key@;
                assert(self.entries()[i].0 == key@);
            }
            if self@.dom().contains(key@) {
                let i = choose|i: int| 0 <= i < self.entries().len() && self.entries()[i].0 == key@;
                assert(self.key_seq()[i] == key@);
            }
        }
        let found = self.find(key.as_str());
        let ghost before = self.entries();
        let mut items: Vec<(String, V)> = Vec::new();
        std::mem::swap(&mut items, &mut self.items);
        match found {
            Some(i) => {
                proof {
                    lemma_entries_map_index(before, i as int);
                    lemma_entries_map_update(before, i as int, value);
                }
                let mut pair = (key, value);
                std::mem::swap(&mut items[i], &mut pair);
                self.items = items;
                assert(self.entries() =~= before.update(i as int, (key@, value)));
                assert(self.key_seq() =~= old(self).key_seq());
                Some(pair.1)
            },
            None => {
                items.push((key, value));
                assert forall|a: int, b: int| 0 <= a < b < items.len() implies items[a].0@
                    != items[b].0@ by {
                    assert(before[a].0 == items[a].0@);
                    if b < items.len() - 1 {
                        assert(before[b].0 == items[b].0@);
                    }
                }
                self.items = items;
                assert(self.entries() =~= before.push((key@, value)));
                assert(self.entries().drop_last() =~= before);
                assert(self.key_seq() =~= old(self).key_seq().push(key@));
                None
            },
        }
    }
}

/// Replacing the value of one pair replaces it in the map.
pub proof fn lemma_entries_map_update<T>(s: Seq<(Seq<char>, T)>, i: int, value: T)
    requires
        distinct_keys(s),
        0 <= i < s.len(),
    ensures
        entries_map(s.update(i, (s[i].0, value))) == entries_map(s).insert(s[i].0, value),
        distinct_keys(s.update(i, (s[i].0, value))),
    decreases s.len(),
{
    let u = s.update(i, (s[i].0, value));
    let t = s.drop_last();
    assert(distinct_keys(t)) by {
        assert forall|a: int, b: int| 0 <= a < b < t.len() implies t[a].0 != t[b].0 by {
            assert(t[a] == s[a]);
            assert(t[b] == s[b]);
        }
    }
    if i == s.len() - 1 {
        assert(u.drop_last() =~= t);
        assert(entries_map(u) =~= entries_map(s).insert(s[i].0, value));
    } else {
        lemma_entries_map_update(t, i, value);
        assert(t[i] == s[i]);
        assert(u.drop_last() =~= t.update(i, (t[i].0, value)));
        assert(u.last() == s.last());
        assert(s[i].0 != s[s.len() - 1].0);
        assert(entries_map(u) =~= entries_map(s).insert(s[i].0, value));
    }
}

} // verus!

verus! {

/// A value of a variable table.
#[derive(Debug, PartialEq)]
pub enum TomlValue {
    String(String),
    Integer(i64),
    /// A floating-point number, held as its decimal text.
    Float(String),
    Boolean(bool),
    /// A date or time, held as its RFC 3339 text.
    Datetime(String),
    Array(Vec<TomlValue>),
    Table(Table),
}

/// A table of variables: a map from names to values. Its keys are kept in
/// the order of strings, as a TOML table keeps them.
#[derive(Debug, PartialEq)]
pub struct Table {
    map: StrMap<TomlValue>,
}

/// The mathematical content of a `TomlValue`.
pub ghost enum TomlView {
    String(Seq<char>),
    Integer(i64),
    Float(Seq<char>),
    Boolean(bool),
    Datetime(Seq<char>),
    Array(Seq<TomlView>),
    Table(Map<Seq<char>, TomlView>),
}

/// The content of a value.
pub open spec fn value_view(v: &TomlValue) -> TomlView
    decreases v,
{
    match v {
        TomlValue::String(s) => TomlView::String(s@),
        TomlValue::Integer(i) => TomlView::Integer(*i),
        TomlValue::Float(s) => TomlView::Float(s@),
        TomlValue::Boolean(b) => TomlView::Boolean(*b),
        TomlValue::Datetime(s) => TomlView::Datetime(s@),
        TomlValue::Array(a) => TomlView::Array(
            Seq::new(
                a.len() as nat,
                |i: int|
                    if 0 <= i < a.len() {
                        value_view(&a[i])
                    } else {
                        arbitrary()
                    },
            ),
        ),
        TomlValue::Table(t) => TomlView::Table(table_view(t)),
    }
}

/// The keys of the pairs stand in the order of strings, each before the
/// next.
pub open spec fn sorted_pairs<T>(s: Seq<(Seq<char>, T)>) -> bool {
    forall|i: int, j: int| 0 <= i < j < s.len() ==> text_less(s[i].0, s[j].0)
}

/// The number of pairs at the start whose key comes before `key`.
pub open spec fn rank<T>(s: Seq<(Seq<char>, T)>, key: Seq<char>) -> int
    decreases s.len(),
{
    if s.len() > 0 && text_less(s[0].0, key) {
        1 + rank(s.drop_first(), key)
    } else {
        0
    }
}

/// Sorted pairs with a value stored under a key: in place of the value that
/// the key had, or where the key belongs in the order.
pub open spec fn sorted_put<T>(s: Seq<(Seq<char>, T)>, key: Seq<char>, value: T) -> Seq<
    (Seq<char>, T),
> {
    if rank(s, key) < s.len() && s[rank(s, key)].0 == key {
        s.update(rank(s, key), (key, value))
    } else {
        s.insert(rank(s, key), (key, value))
    }
}

/// The first `n` keys come before `key` and the next does not: `n` is the
/// rank of `key`.
pub proof fn lemma_rank<T>(s: Seq<(Seq<char>, T)>, key: Seq<char>, n: int)
    requires
        0 <= n <= s.len(),
        forall|j: int| 0 <= j < n ==> text_less(#[trigger] s[j].0, key),
        n < s.len() ==> !text_less(s[n].0, key),
    ensures
        rank(s, key) == n,
    decreases s.len(),
{
    if n > 0 {
        assert(text_less(s[0].0, key));
        assert forall|j: int| 0 <= j < n - 1 implies text_less(
            #[trigger] s.drop_first()[j].0,
            key,
        ) by {
            assert(s.drop_first()[j] == s[j + 1]);
        }
        if n < s.len() {
            assert(s.drop_first()[n - 1] == s[n]);
        }
        lemma_rank(s.drop_first(), key, n - 1);
    }
}

/// The pairs of a table in the order of its keys, each value by its
/// content.
pub open spec fn table_entries(t: &Table) -> Seq<(Seq<char>, TomlView)>
    decreases t, 0nat,
{
    Seq::new(
        t.pairs().len(),
        |i: int|
            if 0 <= i < t.pairs().len() {
                (t.pairs()[i].0, value_view(&t.pairs()[i].1))
            } else {
                arbitrary()
            },
    )
}

/// The content of a table: each key with the content of its value.
pub open spec fn table_view(t: &Table) -> Map<Seq<char>, TomlView>
    decreases t, 1nat,
{
    entries_map(table_entries(t))
}

impl DeepView for TomlValue {
    type V = TomlView;

    open spec fn deep_view(&self) -> TomlView {
        value_view(self)
    }
}

impl View for TomlValue {
    type V = TomlView;

    open spec fn view(&self) -> TomlView {
        value_view(self)
    }
}

impl View for Table {
    type V = Map<Seq<char>, TomlView>;

    open spec fn view(&self) -> Map<Seq<char>, TomlView> {
        table_view(self)
    }
}

impl DeepView for Table {
    type V = Map<Seq<char>, TomlView>;

    open spec fn deep_view(&self) -> Map<Seq<char>, TomlView> {
        table_view(self)
    }
}

/// The contents of a sequence of values.
pub open spec fn values_view(a: Seq<TomlValue>) -> Seq<TomlView> {
    Seq::new(a.len(), |i: int| value_view(&a[i]))
}

/// The views of a sequence of strings.
pub open spec fn strings_view(v: Seq<String>) -> Seq<Seq<char>> {
    Seq::new(v.len(), |i: int| v[i]@)
}

/// The content of a map from names to strings.
pub open spec fn text_map_view(m: &StrMap<String>) -> Map<Seq<char>, Seq<char>> {
    m@.map_values(|s: String| s@)
}

/// A map from names to strings is empty exactly when its content is.
pub proof fn lemma_text_map_empty(m: &StrMap<String>)
    ensures
        (text_map_view(m) == Map::<Seq<char>, Seq<char>>::empty()) <==> (m@ == Map::<
            Seq<char>,
            String,
        >::empty()),
{
    if text_map_view(m) == Map::<Seq<char>, Seq<char>>::empty() {
        assert(m@.dom() =~= text_map_view(m).dom());
        assert(m@ =~= Map::<Seq<char>, String>::empty());
    }
    if m@ == Map::<Seq<char>, String>::empty() {
        assert(text_map_view(m) =~= Map::<Seq<char>, Seq<char>>::empty());
    }
}

/// The content of a table is the content of each value under its key.
proof fn lemma_table_view(t: &Table)
    ensures
        t@ == t.map@.map_values(|v: TomlValue| value_view(&v)),
{
    let f = |v: TomlValue| value_view(&v);
    assert(table_entries(t) =~= t.map.entries().map_values(|e: (Seq<char>, TomlValue)| (e.0, f(e.1))));
    lemma_entries_map_values(t.map.entries(), f);
}

impl Table {
    #[verifier::type_invariant]
    spec fn inv(&self) -> bool {
        sorted_pairs(self.map.entries())
    }

    /// The pairs of the table in the order of its keys.
    pub closed spec fn pairs(&self) -> Seq<(Seq<char>, TomlValue)> {
        self.map.entries()
    }

    /// The keys of the table in their order.
    pub open spec fn keys(&self) -> Seq<Seq<char>> {
        Seq::new(self.pairs().len(), |i: int| self.pairs()[i].0)
    }

    /// An empty table.
    pub fn new() -> (r: Self)
        ensures
            r@ == Map::<Seq<char>, TomlView>::empty(),
            r.pairs() == Seq::<(Seq<char>, TomlValue)>::empty(),
    {
        let r = Table { map: StrMap::new() };
        proof {
            lemma_table_view(&r);
            assert(r@ =~= Map::<Seq<char>, TomlView>::empty());
        }
        r
    }

    /// The number of keys. The keys stand in the order of strings and are
    /// those of the view.
    pub fn len(&self) -> (n: usize)
        ensures
            n == self@.dom().len(),
            n == self.pairs().len(),
            n == self.keys().len(),
            self@.dom().finite(),
            sorted_pairs(self.pairs()),
            self.keys().no_duplicates(),
            forall|k: Seq<char>| self@.dom().contains(k) <==> self.keys().contains(k),
    {
        proof {
            use_type_invariant(self);
            lemma_table_view(self);
            assert(self@.dom() =~= self.map@.dom());
            assert(self.keys() =~= self.map.key_seq());
        }
        self.map.len()
    }

    /// Whether the table has no key.
    pub fn is_empty(&self) -> (b: bool)
        ensures
            b == (self@ == Map::<Seq<char>, TomlView>::empty()),
            b == (self.pairs().len() == 0),
    {
        proof {
            lemma_table_view(self);
            assert(self@.dom() =~= self.map@.dom());
            if self.map@ == Map::<Seq<char>, TomlValue>::empty() {
                assert(self@ =~= Map::<Seq<char>, TomlView>::empty());
            }
            if self@ == Map::<Seq<char>, TomlView>::empty() {
                assert(self.map@ =~= Map::<Seq<char>, TomlValue>::empty());
            }
        }
        self.map.is_empty()
    }

    /// Whether the table has the key.
    pub fn contains_key(&self, key: &str) -> (b: bool)
        ensures
            b == self@.dom().contains(key@),
    {
        proof {
            lemma_table_view(self);
        }
        self.map.contains_key(key)
    }

    /// The value stored under a key.
    pub fn get(&self, key: &str) -> (r: Option<&TomlValue>)
        ensures
            match r {
                Some(v) => self@.dom().contains(key@) && v@ == self@[key@],
                None => !self@.dom().contains(key@),
            },
    {
        proof {
            lemma_table_view(self);
        }
        self.map.get(key)
    }

    /// The key at a position of the order.
    pub fn key_at(&self, i: usize) -> (k: &String)
        requires
            i < self.pairs().len(),
        ensures
            k@ == self.pairs()[i as int].0,
            k@ == self.keys()[i as int],
            self@.dom().contains(k@),
    {
        proof {
            lemma_table_view(self);
        }
        let v = self.map.value_at(i);
        self.map.key_at(i)
    }

    /// The value at a position of the order.
    pub fn value_at(&self, i: usize) -> (v: &TomlValue)
        requires
            i < self.pairs().len(),
        ensures
            *v == self.pairs()[i as int].1,
            self@.dom().contains(self.keys()[i as int]),
            v@ == self@[self.keys()[i as int]],
    {
        proof {
            lemma_table_view(self);
        }
        self.map.value_at(i)
    }

    /// The number of keys that come before `key`.
    fn position(&self, key: &str) -> (i: usize)
        ensures
            i <= self.pairs().len(),
            i == rank(self.pairs(), key@),
            forall|j: int| 0 <= j < i ==> text_less(#[trigger] self.pairs()[j].0, key@),
            i < self.pairs().len() ==> !text_less(self.pairs()[i as int].0, key@),
    {
        let n: usize = self.map.len();
        let mut i: usize = 0;
        while i < n && str_less(self.map.key_at(i).as_str(), key)
            invariant
                i <= n,
                n == self.map.entries().len(),
                forall|j: int| 0 <= j < i ==> text_less(#[trigger] self.map.entries()[j].0, key@),
            decreases n - i,
        {
            i += 1;
        }
        proof {
            lemma_rank(self.pairs(), key@, i as int);
        }
        i
    }

    /// Stores a value under a key and returns the value that it replaces.
    /// A new key takes its place in the order of the keys.
    pub fn insert(&mut self, key: String, value: TomlValue) -> (r: Option<TomlValue>)
        ensures
            final(self)@ == old(self)@.insert(key@, value@),
            final(self).pairs() == sorted_put(old(self).pairs(), key@, value),
            match r {
                Some(v) => old(self)@.dom().contains(key@) && v@ == old(self)@[key@],
                None => !old(self)@.dom().contains(key@),
            },
    {
        proof {
            use_type_invariant(&*self);
            lemma_table_view(&*self);
        }
        let i = self.position(key.as_str());
        let n: usize = self.map.len();
        let present = i < n && str_eq(self.map.key_at(i).as_str(), key.as_str());
        let ghost before = self.map.entries();
        let ghost shallow = self.map@;
        let mut map: StrMap<TomlValue> = StrMap::new();
        std::mem::swap(&mut map, &mut self.map);
        let r = if present {
            let r = map.insert(key, value);
            proof {
                assert(map.entries() == before.update(i as int, (key@, value)));
                assert forall|a: int, b: int| 0 <= a < b < map.entries().len() implies text_less(
                    map.entries()[a].0,
                    map.entries()[b].0,
                ) by {
                    assert(map.entries()[a].0 == before[a].0);
                    assert(map.entries()[b].0 == before[b].0);
                }
            }
            r
        } else {
            proof {
                lemma_less_irreflexive(key@);
                assert forall|j: int| 0 <= j < before.len() implies before[j].0 != key@ && (j >= i
                    ==> text_less(key@, before[j].0)) by {
                    if j >= i {
                        lemma_less_total(key@, before[i as int].0);
                        if j > i {
                            lemma_less_transitive(key@, before[i as int].0, before[j].0);
                        }
                    }
                }
                lemma_entries_map_dom(before, key@);
            }
            map.insert_at(i, key, value);
            proof {
                let after = map.entries();
                assert forall|a: int, b: int| 0 <= a < b < after.len() implies text_less(
                    after[a].0,
                    after[b].0,
                ) by {
                    if a != i {
                        assert(after[a] == before[if a < i { a } else { a - 1 }]);
                    }
                    if b != i {
                        assert(after[b] == before[if b < i { b } else { b - 1 }]);
                    }
                }
            }
            None
        };
        self.map = map;
        proof {
            lemma_table_view(&*self);
            assert(self@ =~= old(self)@.insert(key@, value@));
        }
        r
    }

    /// Takes a key out of the table and returns its value.
    pub fn remove(&mut self, key: &str) -> (r: Option<TomlValue>)
        ensures
            final(self)@ == old(self)@.remove(key@),
            match r {
                Some(v) => old(self)@.dom().contains(key@) && v@ == old(self)@[key@],
                None => !old(self)@.dom().contains(key@),
            },
    {
        proof {
            use_type_invariant(&*self);
            lemma_table_view(&*self);
        }
        let ghost before = self.map.entries();
        let mut map: StrMap<TomlValue> = StrMap::new();
        std::mem::swap(&mut map, &mut self.map);
        let r = map.remove(key);
        proof {
            if r is Some {
                let i = choose|i: int|
                    0 <= i < before.len() && #[trigger] before[i].0 == key@ && map.entries()
                        == before.remove(i);
                assert forall|a: int, b: int| 0 <= a < b < map.entries().len() implies text_less(
                    map.entries()[a].0,
                    map.entries()[b].0,
                ) by {
                    assert(map.entries()[a] == before[if a < i { a } else { a + 1 }]);
                    assert(map.entries()[b] == before[if b < i { b } else { b + 1 }]);
                }
            }
        }
        self.map = map;
        proof {
            lemma_table_view(&*self);
            assert(self@ =~= old(self)@.remove(key@));
        }
        r
    }

    /// Adds every pair of another table. Where both tables have a key, the
    /// value of the other table replaces the one held, whatever it holds.
    pub fn extend(&mut self, other: Table)
        ensures
            final(self)@ == old(self)@.union_prefer_right(other@),
    {
        let ghost pairs = other.map.entries();
        let ghost deep = table_entries(&other);
        let ghost start = self@;
        assert(deep.take(0) =~= Seq::<(Seq<char>, TomlView)>::empty());
        assert(start.union_prefer_right(Map::<Seq<char>, TomlView>::empty()) =~= start);
        let items = other.map.items;
        for pair in it: items
            invariant
                it.seq().len() == pairs.len(),
                deep.len() == pairs.len(),
                forall|j: int|
                    0 <= j < pairs.len() ==> pairs[j] == ((#[trigger] it.seq()[j]).0@, it.seq()[j].1),
                forall|j: int|
                    0 <= j < pairs.len() ==> #[trigger] deep[j] == (pairs[j].0, value_view(&pairs[j].1)),
                self@ == start.union_prefer_right(entries_map(deep.take(it.index() as int))),
        {
            let ghost k = it.index() as int;
            let (key, value) = pair;
            proof {
                lemma_entries_map_take(deep, k);
                assert(deep[k] == (key@, value@));
                assert(start.union_prefer_right(entries_map(deep.take(k)).insert(key@, value@))
                    =~= start.union_prefer_right(entries_map(deep.take(k))).insert(key@, value@));
            }
            self.insert(key, value);
        }
        assert(deep.take(deep.len() as int) =~= deep);
    }
}

} // verus!

verus! {

/// A prefix of a sequence of pairs, one pair longer, adds that pair to the map.
pub proof fn lemma_entries_map_take<T>(s: Seq<(Seq<char>, T)>, i: int)
    requires
        0 <= i < s.len(),
    ensures
        entries_map(s.take(i + 1)) == entries_map(s.take(i)).insert(s[i].0, s[i].1),
{
    assert(s.take(i + 1).drop_last() =~= s.take(i));
}

/// Mapping the values of the pairs maps the values of their map.
pub proof fn lemma_entries_map_values<T, U>(s: Seq<(Seq<char>, T)>, f: spec_fn(T) -> U)
    ensures
        entries_map(s.map_values(|e: (Seq<char>, T)| (e.0, f(e.1)))) == entries_map(s).map_values(
            f,
        ),
    decreases s.len(),
{
    let g = |e: (Seq<char>, T)| (e.0, f(e.1));
    if s.len() == 0 {
        assert(entries_map(s.map_values(g)) =~= entries_map(s).map_values(f));
    } else {
        lemma_entries_map_values(s.drop_last(), f);
        assert(s.map_values(g).drop_last() =~= s.drop_last().map_values(g));
        assert(entries_map(s.map_values(g)) =~= entries_map(s).map_values(f));
    }
}

impl<V> StrMap<V> {
    /// Takes a key out of the map and returns its value, if the map has it.
    pub fn remove(&mut self, key: &str) -> (r: Option<V>)
        ensures
            final(self)@ == old(self)@.remove(key@),
            match r {
                Some(v) => old(self)@.dom().contains(key@) && v == old(self)@[key@] && exists|i: int|
                    0 <= i < old(self).entries().len() && #[trigger] old(self).entries()[i].0
                        == key@ && final(self).entries() == old(self).entries().remove(i),
                None => !old(self)@.dom().contains(key@) && final(self).entries() == old(
                    self,
                ).entries(),
            },
    {
        proof {
            use_type_invariant(&*self);
            lemma_entries_map_dom(self.entries(), key@);
        }
        let found = self.find(key);
        let ghost before = self.entries();
        match found {
            Some(i) => {
                let mut items: Vec<(String, V)> = Vec::new();
                std::mem::swap(&mut items, &mut self.items);
                let pair = items.remove(i);
                assert forall|a: int, b: int| 0 <= a < b < items.len() implies items[a].0@
                    != items[b].0@ by {
                    assert(items[a].0@ == before[if a < i { a } else { a + 1 }].0);
                    assert(items[b].0@ == before[if b < i { b } else { b + 1 }].0);
                }
                self.items = items;
                proof {
                    lemma_entries_map_index(before, i as int);
                    assert(self.entries() =~= before.remove(i as int));
                    lemma_entries_map_remove(before, i as int);
                }
                Some(pair.1)
            },
            None => {
                assert(self@ =~= self@.remove(key@));
                None
            },
        }
    }

    /// Puts a key that the map does not have at a position of the order.
    pub fn insert_at(&mut self, i: usize, key: String, value: V)
        requires
            i <= old(self).entries().len(),
            !old(self)@.dom().contains(key@),
        ensures
            final(self).entries() == old(self).entries().insert(i as int, (key@, value)),
            final(self)@ == old(self)@.insert(key@, value),
    {
        proof {
            use_type_invariant(&*self);
            lemma_entries_map_dom(self.entries(), key@);
        }
        let ghost before = self.entries();
        let mut items: Vec<(String, V)> = Vec::new();
        std::mem::swap(&mut items, &mut self.items);
        items.insert(i, (key, value));
        proof {
            lemma_entries_map_insert(before, i as int, (key@, value));
            assert forall|a: int, b: int| 0 <= a < b < items.len() implies items[a].0@
                != items[b].0@ by {
                let after = before.insert(i as int, (key@, value));
                assert(items[a].0@ == after[a].0);
                assert(items[b].0@ == after[b].0);
            }
        }
        self.items = items;
        assert(self.entries() =~= before.insert(i as int, (key@, value)));
    }

    /// Adds every pair of another map, in its order. Where both maps have a
    /// key, the value of the other map replaces the one held.
    pub fn extend(&mut self, other: StrMap<V>)
        ensures
            final(self)@ == old(self)@.union_prefer_right(other@),
            final(self).key_seq() == with_keys(old(self).key_seq(), other.key_seq()),
    {
        let ghost pairs = other.entries();
        let ghost names = other.key_seq();
        let ghost start = self@;
        let ghost start_keys = self.key_seq();
        assert(pairs.take(0) =~= Seq::<(Seq<char>, V)>::empty());
        assert(names.take(0) =~= Seq::<Seq<char>>::empty());
        assert(start.union_prefer_right(Map::<Seq<char>, V>::empty()) =~= start);
        for pair in it: other.items
            invariant
                names.len() == pairs.len(),
                forall|j: int| 0 <= j < pairs.len() ==> names[j] == (#[trigger] pairs[j]).0,
                self.key_seq() == with_keys(start_keys, names.take(it.index() as int)),
                it.seq().len() == pairs.len(),
                forall|j: int|
                    0 <= j < pairs.len() ==> pairs[j] == ((#[trigger] it.seq()[j]).0@, it.seq()[j].1),
                self@ == start.union_prefer_right(entries_map(pairs.take(it.index() as int))),
        {
            let ghost k = it.index() as int;
            let (key, value) = pair;
            proof {
                lemma_entries_map_take(pairs, k);
                assert(pairs[k] == (key@, value));
                assert(names.take(k + 1).drop_last() =~= names.take(k));
                assert(names.take(k + 1).last() == key@);
                assert(start.union_prefer_right(entries_map(pairs.take(k)).insert(key@, value))
                    =~= start.union_prefer_right(entries_map(pairs.take(k))).insert(key@, value));
            }
            self.insert(key, value);
        }
        assert(pairs.take(pairs.len() as int) =~= pairs);
        assert(names.take(names.len() as int) =~= names);
    }
}

/// Putting a pair with a new key among pairs with distinct keys puts it into
/// the map.
pub proof fn lemma_entries_map_insert<T>(s: Seq<(Seq<char>, T)>, i: int, pair: (Seq<char>, T))
    requires
        distinct_keys(s),
        0 <= i <= s.len(),
        forall|j: int| 0 <= j < s.len() ==> s[j].0 != pair.0,
    ensures
        entries_map(s.insert(i, pair)) == entries_map(s).insert(pair.0, pair.1),
        distinct_keys(s.insert(i, pair)),
{
    let r = s.insert(i, pair);
    assert(distinct_keys(r)) by {
        assert forall|a: int, b: int| 0 <= a < b < r.len() implies r[a].0 != r[b].0 by {
            if a != i {
                assert(r[a] == s[if a < i { a } else { a - 1 }]);
            }
            if b != i {
                assert(r[b] == s[if b < i { b } else { b - 1 }]);
            }
        }
    }
    assert forall|k: Seq<char>| #[trigger]
        entries_map(r).dom().contains(k) <==> entries_map(s).insert(pair.0, pair.1).dom().contains(
            k,
        ) by {
        lemma_entries_map_dom(r, k);
        lemma_entries_map_dom(s, k);
        if entries_map(r).dom().contains(k) {
            let a = choose|a: int| 0 <= a < r.len() && r[a].0 == k;
            if a != i {
                assert(r[a] == s[if a < i { a } else { a - 1 }]);
            }
        }
        if entries_map(s).dom().contains(k) {
            let b = choose|b: int| 0 <= b < s.len() && s[b].0 == k;
            assert(r[if b < i { b } else { b + 1 }] == s[b]);
        }
        if k == pair.0 {
            assert(r[i].0 == k);
        }
    }
    assert forall|k: Seq<char>| #[trigger] entries_map(r).dom().contains(k) implies entries_map(
        r,
    )[k] == entries_map(s).insert(pair.0, pair.1)[k] by {
        lemma_entries_map_dom(r, k);
        let a = choose|a: int| 0 <= a < r.len() && r[a].0 == k;
        lemma_entries_map_index(r, a);
        if a != i {
            let b = if a < i { a } else { a - 1 };
            assert(r[a] == s[b]);
            lemma_entries_map_index(s, b);
        }
    }
    assert(entries_map(r) =~= entries_map(s).insert(pair.0, pair.1));
}

/// Taking one pair out of pairs with distinct keys takes its key out of the map.
pub proof fn lemma_entries_map_remove<T>(s: Seq<(Seq<char>, T)>, i: int)
    requires
        distinct_keys(s),
        0 <= i < s.len(),
    ensures
        entries_map(s.remove(i)) == entries_map(s).remove(s[i].0),
        distinct_keys(s.remove(i)),
{
    let r = s.remove(i);
    assert(distinct_keys(r)) by {
        assert forall|a: int, b: int| 0 <= a < b < r.len() implies r[a].0 != r[b].0 by {
            assert(r[a] == s[if a < i { a } else { a + 1 }]);
            assert(r[b] == s[if b < i { b } else { b + 1 }]);
        }
    }
    assert forall|k: Seq<char>| #[trigger]
        entries_map(r).dom().contains(k) <==> entries_map(s).remove(s[i].0).dom().contains(
            k,
        ) by {
        lemma_entries_map_dom(r, k);
        lemma_entries_map_dom(s, k);
        if entries_map(r).dom().contains(k) {
            let a = choose|a: int| 0 <= a < r.len() && r[a].0 == k;
            let b = if a < i { a } else { a + 1 };
            assert(r[a] == s[b]);
            assert(s[b].0 == k);
        }
        if entries_map(s).remove(s[i].0).dom().contains(k) {
            let b = choose|b: int| 0 <= b < s.len() && s[b].0 == k;
            let a = if b < i { b } else { b - 1 };
            assert(r[a] == s[b]);
        }
    }
    assert forall|k: Seq<char>| #[trigger] entries_map(r).dom().contains(k) implies entries_map(
        r,
    )[k] == entries_map(s).remove(s[i].0)[k] by {
        lemma_entries_map_dom(r, k);
        let a = choose|a: int| 0 <= a < r.len() && r[a].0 == k;
        let b = if a < i { a } else { a + 1 };
        assert(r[a] == s[b]);
        lemma_entries_map_index(r, a);
        lemma_entries_map_index(s, b);
    }
    assert(entries_map(r) =~= entries_map(s).remove(s[i].0));
}

} // verus!

verus! {

impl TomlValue {
    /// The text of a string value.
    pub fn as_str(&self) -> (r: Option<&str>)
        ensures
            match r {
                Some(s) => self@ == TomlView::String(s@),
                None => !(self@ is String),
            },
    {
        match self {
            TomlValue::String(s) => Some(s.as_str()),
            _ => None,
        }
    }

    /// The truth value of a boolean value.
    pub fn as_bool(&self) -> (r: Option<bool>)
        ensures
            match r {
                Some(b) => self@ == TomlView::Boolean(b),
                None => !(self@ is Boolean),
            },
    {
        match self {
            TomlValue::Boolean(b) => Some(*b),
            _ => None,
        }
    }

    /// The number of an integer value.
    pub fn as_integer(&self) -> (r: Option<i64>)
        ensures
            match r {
                Some(i) => self@ == TomlView::Integer(i),
                None => !(self@ is Integer),
            },
    {
        match self {
            TomlValue::Integer(i) => Some(*i),
            _ => None,
        }
    }

    /// The items of an array value.
    pub fn as_array(&self) -> (r: Option<&Vec<TomlValue>>)
        ensures
            match r {
                Some(a) => self@ == TomlView::Array(values_view(a@)),
                None => !(self@ is Array),
            },
    {
        match self {
            TomlValue::Array(a) => {
                assert(self@->Array_0 =~= values_view(a@));
                Some(a)
            },
            _ => None,
        }
    }

    /// The table of a table value.
    pub fn as_table(&self) -> (r: Option<&Table>)
        ensures
            match r {
                Some(t) => self@ == TomlView::Table(t@),
                None => !(self@ is Table),
            },
    {
        match self {
            TomlValue::Table(t) => Some(t),
            _ => None,
        }
    }
}

/// An array value and its content.
pub proof fn lemma_array_value(a: Vec<TomlValue>)
    ensures
        TomlValue::Array(a)@ == TomlView::Array(values_view(a@)),
{
    assert(TomlValue::Array(a)@->Array_0 =~= values_view(a@));
}

/// A deep copy of a value.
pub fn clone_value(v: &TomlValue) -> (r: TomlValue)
    ensures
        r@ == v@,
    decreases v,
{
    match v {
        TomlValue::String(s) => TomlValue::String(s.clone()),
        TomlValue::Integer(i) => TomlValue::Integer(*i),
        TomlValue::Float(s) => TomlValue::Float(s.clone()),
        TomlValue::Boolean(b) => TomlValue::Boolean(*b),
        TomlValue::Datetime(s) => TomlValue::Datetime(s.clone()),
        TomlValue::Array(a) => {
            let out = clone_values(a);
            proof {
                lemma_array_value(out);
                lemma_array_value(*a);
            }
            TomlValue::Array(out)
        },
        TomlValue::Table(t) => TomlValue::Table(clone_table(t)),
    }
}

/// A deep copy of a list of values.
pub fn clone_values(a: &Vec<TomlValue>) -> (r: Vec<TomlValue>)
    ensures
        values_view(r@) == values_view(a@),
    decreases a,
{
    let mut out: Vec<TomlValue> = Vec::new();
    let mut i: usize = 0;
    while i < a.len()
        invariant
            i <= a.len(),
            out.len() == i,
            forall|j: int| 0 <= j < i ==> out[j]@ == a[j]@,
        decreases a.len() - i,
    {
        proof {
            axiom_vec_index_decreases(*a, i as int);
        }
        out.push(clone_value(&a[i]));
        i += 1;
    }
    assert(values_view(out@) =~= values_view(a@));
    out
}

/// A deep copy of a table.
pub fn clone_table(t: &Table) -> (r: Table)
    ensures
        r@ == t@,
        r.keys() == t.keys(),
    decreases t,
{
    proof {
        use_type_invariant(t);
    }
    let n: usize = t.map.len();
    let mut map: StrMap<TomlValue> = StrMap::new();
    let mut i: usize = 0;
    while i < n
        invariant
            i <= n,
            n == t.map.entries().len(),
            distinct_keys(t.map.entries()),
            map.entries().len() == i,
            forall|j: int|
                0 <= j < i ==> (#[trigger] map.entries()[j]).0 == t.map.entries()[j].0 && value_view(
                    &map.entries()[j].1,
                ) == value_view(&t.map.entries()[j].1),
        decreases n - i,
    {
        let key = t.map.key_at(i).clone();
        let value = clone_value(t.map.value_at(i));
        proof {
            lemma_entries_map_dom(map.entries(), key@);
            if map@.dom().contains(key@) {
                let j = choose|j: int| 0 <= j < map.entries().len() && map.entries()[j].0 == key@;
                assert(t.map.entries()[j].0 == t.map.entries()[i as int].0);
            }
        }
        map.insert(key, value);
        i += 1;
    }
    proof {
        assert forall|a: int, b: int| 0 <= a < b < map.entries().len() implies text_less(
            map.entries()[a].0,
            map.entries()[b].0,
        ) by {
            assert(map.entries()[a].0 == t.map.entries()[a].0);
            assert(map.entries()[b].0 == t.map.entries()[b].0);
        }
    }
    let r = Table { map };
    proof {
        assert(table_entries(&r) =~= table_entries(t));
        assert(r.keys() =~= t.keys());
    }
    r
}

impl Clone for TomlValue {
    fn clone(&self) -> (r: Self)
        ensures
            r@ == self@,
    {
        clone_value(self)
    }
}

impl Clone for Table {
    fn clone(&self) -> (r: Self)
        ensures
            r@ == self@,
            r.keys() == self.keys(),
    {
        clone_table(self)
    }
}

/// A copy of a list of strings.
pub fn clone_strings(v: &Vec<String>) -> (r: Vec<String>)
    ensures
        strings_view(r@) == strings_view(v@),
{
    let mut out: Vec<String> = Vec::new();
    let mut i: usize = 0;
    while i < v.len()
        invariant
            i <= v.len(),
            out.len() == i,
            forall|j: int| 0 <= j < i ==> out[j]@ == v[j]@,
        decreases v.len() - i,
    {
        out.push(v[i].clone());
        i += 1;
    }
    assert(strings_view(out@) =~= strings_view(v@));
    out
}

/// A copy of a map from names to strings, with the keys in the same order.
pub fn clone_text_map(m: &StrMap<String>) -> (r: StrMap<String>)
    ensures
        text_map_view(&r) == text_map_view(m),
        r.key_seq() == m.key_seq(),
{
    let n: usize = m.len();
    let mut out: StrMap<String> = StrMap::new();
    let mut i: usize = 0;
    let ghost f = |s: String| s@;
    let ghost pairs = m.entries().map_values(|e: (Seq<char>, String)| (e.0, f(e.1)));
    proof {
        assert(pairs.take(0) =~= Seq::<(Seq<char>, Seq<char>)>::empty());
        assert(text_map_view(&out) =~= entries_map(pairs.take(0)));
        assert(out.key_seq() =~= m.key_seq().take(0));
    }
    while i < n
        invariant
            i <= n,
            n == m.entries().len(),
            distinct_keys(m.entries()),
            f == |s: String| s@,
            pairs == m.entries().map_values(|e: (Seq<char>, String)| (e.0, f(e.1))),
            text_map_view(&out) == entries_map(pairs.take(i as int)),
            out.key_seq() == m.key_seq().take(i as int),
        decreases n - i,
    {
        let key = m.key_at(i).clone();
        let value = m.value_at(i).clone();
        proof {
            lemma_entries_map_take(pairs, i as int);
            lemma_entries_map_dom(pairs.take(i as int), key@);
            if out@.dom().contains(key@) {
                let j = choose|j: int|
                    0 <= j < pairs.take(i as int).len() && pairs.take(i as int)[j].0 == key@;
                assert(m.entries()[j].0 == m.entries()[i as int].0);
            }
            assert(m.key_seq().take(i as int).push(key@) =~= m.key_seq().take(i + 1));
            assert(out@.insert(key@, value).map_values(f) =~= out@.map_values(f).insert(
                key@,
                value@,
            ));
        }
        out.insert(key, value);
        i += 1;
    }
    proof {
        assert(pairs.take(n as int) =~= pairs);
        assert(m.key_seq().take(n as int) =~= m.key_seq());
        lemma_entries_map_values(m.entries(), f);
    }
    out
}

} // verus!

verus! {

/// The text of a truth value.
pub open spec fn bool_text(b: bool) -> Seq<char> {
    if b {
        "true"@
    } else {
        "false"@
    }
}

/// The text of a value that is no array and no table.
pub open spec fn scalar_text(v: &TomlValue) -> Seq<char> {
    match v {
        TomlValue::String(s) => s@,
        TomlValue::Integer(i) => decimal(*i as int),
        TomlValue::Float(s) => s@,
        TomlValue::Boolean(b) => bool_text(*b),
        TomlValue::Datetime(s) => s@,
        _ => Seq::empty(),
    }
}

/// The lines that show a variable behind the indentation `ind`: one line
/// `key = value` for a simple value; for an array a line `key = [`, the
/// items one level deeper, and a line `]`; for a table a line `key =` and
/// its variables one level deeper.
pub open spec fn value_lines(key: Seq<char>, v: &TomlValue, ind: Seq<char>) -> Seq<Seq<char>>
    decreases v, 1nat, 0nat,
{
    match v {
        TomlValue::Array(a) => seq![ind + key + " = ["@] + items_lines(
            a,
            a.len() as nat,
            ind + "  "@,
        ) + seq![ind + "]"@],
        TomlValue::Table(t) => seq![ind + key + " ="@] + table_lines(t, ind + "  "@),
        _ => seq![ind + key + " = "@ + scalar_text(v)],
    }
}

/// The lines that show an item of an array: a line `- value` for a simple
/// value; for an array or a table a line `-` and the item, shown without a
/// name, one level deeper.
pub open spec fn item_lines(v: &TomlValue, ind: Seq<char>) -> Seq<Seq<char>>
    decreases v, 2nat, 0nat,
{
    match v {
        TomlValue::Array(_) => seq![ind + "-"@] + value_lines(Seq::empty(), v, ind + "  "@),
        TomlValue::Table(_) => seq![ind + "-"@] + value_lines(Seq::empty(), v, ind + "  "@),
        _ => seq![ind + "- "@ + scalar_text(v)],
    }
}

/// The lines that show the first `upto` items of an array.
pub open spec fn items_lines(a: &Vec<TomlValue>, upto: nat, ind: Seq<char>) -> Seq<Seq<char>>
    decreases a, 0nat, upto,
{
    if upto == 0 || upto > a.len() {
        Seq::empty()
    } else {
        items_lines(a, (upto - 1) as nat, ind) + item_lines(&a[upto - 1], ind)
    }
}

/// The lines that show the first `upto` variables of a table.
pub open spec fn table_lines_upto(t: &Table, upto: nat, ind: Seq<char>) -> Seq<Seq<char>>
    decreases t, 0nat, upto,
{
    if upto == 0 || upto > t.pairs().len() {
        Seq::empty()
    } else {
        table_lines_upto(t, (upto - 1) as nat, ind) + value_lines(
            t.pairs()[upto - 1].0,
            &t.pairs()[upto - 1].1,
            ind,
        )
    }
}

/// The lines that show the variables of a table, in the order of its keys.
pub open spec fn table_lines(t: &Table, ind: Seq<char>) -> Seq<Seq<char>>
    decreases t, 1nat, 0nat,
{
    table_lines_upto(t, t.keys().len(), ind)
}

/// Appends the lines of `more` to `lines`.
fn append_lines(lines: &mut Vec<String>, more: Vec<String>)
    ensures
        strings_view(final(lines)@) == strings_view(old(lines)@) + strings_view(more@),
{
    let mut more = more;
    let ghost added = more@;
    lines.append(&mut more);
    assert(strings_view(lines@) =~= strings_view(old(lines)@) + strings_view(added));
}

/// The text of a value that is no array and no table; `None` for those.
fn scalar_string(v: &TomlValue) -> (r: Option<String>)
    ensures
        match r {
            Some(s) => !(v is Array) && !(v is Table) && s@ == scalar_text(v),
            None => v is Array || v is Table,
        },
{
    match v {
        TomlValue::String(s) => Some(s.clone()),
        TomlValue::Integer(i) => Some(decimal_string(*i)),
        TomlValue::Float(s) => Some(s.clone()),
        TomlValue::Boolean(b) => Some(
            if *b {
                "true".to_owned()
            } else {
                "false".to_owned()
            },
        ),
        TomlValue::Datetime(s) => Some(s.clone()),
        _ => None,
    }
}

/// The lines that show a variable behind an indentation.
pub fn variable_lines(key: &str, value: &TomlValue, indentation: &str) -> (r: Vec<String>)
    ensures
        strings_view(r@) == value_lines(key@, value, indentation@),
    decreases value, 1nat,
{
    let mut lines: Vec<String> = Vec::new();
    match scalar_string(value) {
        Some(text) => {
            let mut line = concat3(indentation, key, " = ");
            line.append(text.as_str());
            lines.push(line);
            assert(strings_view(lines@) =~= value_lines(key@, value, indentation@));
        },
        None => {
            let deeper = concat2(indentation, "  ");
            match value {
                TomlValue::Array(a) => {
                    lines.push(concat3(indentation, key, " = ["));
                    assert(strings_view(lines@) =~= seq![indentation@ + key@ + " = ["@]);
                    let more = items_lines_of(a, deeper.as_str());
                    append_lines(&mut lines, more);
                    let ghost body = strings_view(lines@);
                    lines.push(concat2(indentation, "]"));
                    assert(strings_view(lines@) =~= body + seq![indentation@ + "]"@]);
                },
                TomlValue::Table(t) => {
                    lines.push(concat3(indentation, key, " ="));
                    assert(strings_view(lines@) =~= seq![indentation@ + key@ + " ="@]);
                    let more = table_lines_of(t, deeper.as_str());
                    append_lines(&mut lines, more);
                },
                _ => {},
            }
        },
    }
    lines
}

/// The lines that show the items of an array behind an indentation.
fn items_lines_of(a: &Vec<TomlValue>, indentation: &str) -> (r: Vec<String>)
    ensures
        strings_view(r@) == items_lines(a, a.len() as nat, indentation@),
    decreases a, 0nat,
{
    let mut lines: Vec<String> = Vec::new();
    let mut i: usize = 0;
    assert(strings_view(lines@) =~= items_lines(a, 0, indentation@));
    while i < a.len()
        invariant
            i <= a.len(),
            strings_view(lines@) == items_lines(a, i as nat, indentation@),
        decreases a.len() - i,
    {
        proof {
            axiom_vec_index_decreases(*a, i as int);
        }
        let more = item_lines_of(&a[i], indentation);
        append_lines(&mut lines, more);
        i += 1;
    }
    lines
}

/// The lines that show an item of an array behind an indentation.
fn item_lines_of(value: &TomlValue, indentation: &str) -> (r: Vec<String>)
    ensures
        strings_view(r@) == item_lines(value, indentation@),
    decreases value, 2nat,
{
    let mut lines: Vec<String> = Vec::new();
    match scalar_string(value) {
        Some(text) => {
            lines.push(concat3(indentation, "- ", text.as_str()));
            assert(strings_view(lines@) =~= item_lines(value, indentation@));
        },
        None => {
            lines.push(concat2(indentation, "-"));
            assert(strings_view(lines@) =~= seq![indentation@ + "-"@]);
            let deeper = concat2(indentation, "  ");
            let more = variable_lines("", value, deeper.as_str());
            proof {
                reveal_strlit("");
                assert(""@ =~= Seq::<char>::empty());
            }
            append_lines(&mut lines, more);
        },
    }
    lines
}

/// The lines that show the variables of a table behind an indentation.
pub fn table_lines_of(t: &Table, indentation: &str) -> (r: Vec<String>)
    ensures
        strings_view(r@) == table_lines(t, indentation@),
    decreases t, 0nat,
{
    let n: usize = t.map.len();
    let mut lines: Vec<String> = Vec::new();
    let mut i: usize = 0;
    assert(strings_view(lines@) =~= table_lines_upto(t, 0, indentation@));
    while i < n
        invariant
            i <= n,
            n == t.map.entries().len(),
            n == t.keys().len(),
            strings_view(lines@) == table_lines_upto(t, i as nat, indentation@),
        decreases n - i,
    {
        let key = t.map.key_at(i);
        let value = t.map.value_at(i);
        let more = variable_lines(key.as_str(), value, indentation);
        append_lines(&mut lines, more);
        i += 1;
    }
    lines
}

} // verus!

verus! {

/// Whether a character is plain: an ASCII character other than the
/// carriage return. Plain characters never join into one grapheme.
pub open spec fn plain_char(c: char) -> bool {
    (c as u32) < 128 && c != '\r'
}

/// Whether every character of a text is plain.
pub open spec fn plain_text(s: Seq<char>) -> bool {
    forall|i: int| 0 <= i < s.len() ==> plain_char(#[trigger] s[i])
}

/// Whether every text that a value holds is plain: its strings, and the
/// keys of its tables.
pub open spec fn plain_value(v: &TomlValue) -> bool
    decreases v, 1nat, 0nat,
{
    match v {
        TomlValue::String(s) => plain_text(s@),
        TomlValue::Float(s) => plain_text(s@),
        TomlValue::Datetime(s) => plain_text(s@),
        TomlValue::Array(a) => plain_values(a, a.len() as nat),
        TomlValue::Table(t) => plain_table(t),
        _ => true,
    }
}

/// Whether the first `upto` values of a list are plain.
pub open spec fn plain_values(a: &Vec<TomlValue>, upto: nat) -> bool
    decreases a, 0nat, upto,
{
    if upto == 0 || upto > a.len() {
        true
    } else {
        plain_values(a, (upto - 1) as nat) && plain_value(&a[upto - 1])
    }
}

/// Whether the first `upto` pairs of a table are plain.
pub open spec fn plain_pairs(t: &Table, upto: nat) -> bool
    decreases t, 0nat, upto,
{
    if upto == 0 || upto > t.pairs().len() {
        true
    } else {
        plain_pairs(t, (upto - 1) as nat) && plain_text(t.pairs()[upto - 1].0) && plain_value(
            &t.pairs()[upto - 1].1,
        )
    }
}

/// Whether every key of a table and every text that its values hold is
/// plain.
pub open spec fn plain_table(t: &Table) -> bool
    decreases t, 1nat, 0nat,
{
    plain_pairs(t, t.pairs().len())
}

/// Whether every character of a text is plain.
pub fn is_plain_text(s: &str) -> (r: bool)
    ensures
        r == plain_text(s@),
{
    let cs = chars_of(s);
    let mut i: usize = 0;
    while i < cs.len()
        invariant
            i <= cs.len(),
            cs@ == s@,
            forall|j: int| 0 <= j < i ==> plain_char(#[trigger] cs@[j]),
        decreases cs.len() - i,
    {
        if (cs[i] as u32) >= 128 || cs[i] == '\r' {
            assert(!plain_char(s@[i as int]));
            return false;
        }
        i += 1;
    }
    true
}

/// Whether every text that a value holds is plain.
pub fn is_plain_value(v: &TomlValue) -> (r: bool)
    ensures
        r == plain_value(v),
    decreases v, 1nat,
{
    match v {
        TomlValue::String(s) => is_plain_text(s.as_str()),
        TomlValue::Float(s) => is_plain_text(s.as_str()),
        TomlValue::Datetime(s) => is_plain_text(s.as_str()),
        TomlValue::Array(a) => are_plain_values(a),
        TomlValue::Table(t) => is_plain_table(t),
        _ => true,
    }
}

/// Whether the values of a list are plain.
fn are_plain_values(a: &Vec<TomlValue>) -> (r: bool)
    ensures
        r == plain_values(a, a.len() as nat),
    decreases a, 0nat,
{
    let mut i: usize = 0;
    while i < a.len()
        invariant
            i <= a.len(),
            plain_values(a, i as nat),
        decreases a.len() - i,
    {
        proof {
            axiom_vec_index_decreases(*a, i as int);
        }
        if !is_plain_value(&a[i]) {
            proof {
                lemma_plain_values_stop(a, i as nat, a.len() as nat);
            }
            return false;
        }
        i += 1;
    }
    true
}

/// A list with a value that is not plain is not plain from there on.
proof fn lemma_plain_values_stop(a: &Vec<TomlValue>, at: nat, upto: nat)
    requires
        at < upto <= a.len(),
        !plain_value(&a[at as int]),
    ensures
        !plain_values(a, upto),
    decreases upto,
{
    if upto > at + 1 {
        lemma_plain_values_stop(a, at, (upto - 1) as nat);
    }
}

/// A table with a pair that is not plain is not plain from there on.
proof fn lemma_plain_pairs_stop(t: &Table, at: nat, upto: nat)
    requires
        at < upto <= t.pairs().len(),
        !(plain_text(t.pairs()[at as int].0) && plain_value(&t.pairs()[at as int].1)),
    ensures
        !plain_pairs(t, upto),
    decreases upto,
{
    if upto > at + 1 {
        lemma_plain_pairs_stop(t, at, (upto - 1) as nat);
    }
}

/// Whether every key of a table and every text that its values hold is
/// plain.
pub fn is_plain_table(t: &Table) -> (r: bool)
    ensures
        r == plain_table(t),
    decreases t, 0nat,
{
    let n: usize = t.map.len();
    let mut i: usize = 0;
    while i < n
        invariant
            i <= n,
            n == t.pairs().len(),
            plain_pairs(t, i as nat),
        decreases n - i,
    {
        let key = t.map.key_at(i);
        let value = t.map.value_at(i);
        if !is_plain_text(key.as_str()) || !is_plain_value(value) {
            proof {
                lemma_plain_pairs_stop(t, i as nat, n as nat);
            }
            return false;
        }
        i += 1;
    }
    true
}

} // verus!
