//! Reading the fields of a configuration table.

use vstd::prelude::*;
use crate::error::{DotrError, ErrorView};
use crate::value::{
    entries_map, lemma_array_value, lemma_entries_map_take, lemma_entries_map_values, strings_view,
    text_map_view, values_view, StrMap, Table, TomlValue, TomlView,
};

verus! {

/// Every item is a string.
pub open spec fn all_strings(a: Seq<TomlView>) -> bool {
    forall|i: int| 0 <= i < a.len() ==> a[i] is String
}

/// The texts of items that are strings.
pub open spec fn strings_of(a: Seq<TomlView>) -> Seq<Seq<char>> {
    Seq::new(a.len(), |i: int| a[i]->String_0)
}

/// Every value of the table is a string.
pub open spec fn all_string_values(m: Map<Seq<char>, TomlView>) -> bool {
    forall|k: Seq<char>| m.dom().contains(k) ==> m[k] is String
}

/// The texts of a table whose values are strings.
pub open spec fn texts_of(m: Map<Seq<char>, TomlView>) -> Map<Seq<char>, Seq<char>> {
    m.map_values(|v: TomlView| v->String_0)
}

/// The first of two faults.
pub open spec fn either(a: Option<Seq<char>>, b: Option<Seq<char>>) -> Option<Seq<char>> {
    if a is Some {
        a
    } else {
        b
    }
}

/// What is wrong with an optional list of strings under `key`.
pub open spec fn list_fault(
    t: Map<Seq<char>, TomlView>,
    key: Seq<char>,
    not_list: Seq<char>,
    not_text: Seq<char>,
) -> Option<Seq<char>> {
    if !t.dom().contains(key) {
        None
    } else if !(t[key] is Array) {
        Some(not_list)
    } else if !all_strings(t[key]->Array_0) {
        Some(not_text)
    } else {
        None
    }
}

/// The list of strings under `key`, if the key is there.
pub open spec fn list_of(t: Map<Seq<char>, TomlView>, key: Seq<char>) -> Option<Seq<Seq<char>>> {
    if t.dom().contains(key) {
        Some(strings_of(t[key]->Array_0))
    } else {
        None
    }
}

/// What is wrong with an optional table of strings under `key`.
pub open spec fn map_fault(
    t: Map<Seq<char>, TomlView>,
    key: Seq<char>,
    not_table: Seq<char>,
    not_text: Seq<char>,
) -> Option<Seq<char>> {
    if !t.dom().contains(key) {
        None
    } else if !(t[key] is Table) {
        Some(not_table)
    } else if !all_string_values(t[key]->Table_0) {
        Some(not_text)
    } else {
        None
    }
}

/// The table of strings under `key`; empty where the key is missing.
pub open spec fn map_of(t: Map<Seq<char>, TomlView>, key: Seq<char>) -> Map<Seq<char>, Seq<char>> {
    if t.dom().contains(key) {
        texts_of(t[key]->Table_0)
    } else {
        Map::empty()
    }
}

/// What is wrong with an optional table under `key`.
pub open spec fn table_fault(
    t: Map<Seq<char>, TomlView>,
    key: Seq<char>,
    not_table: Seq<char>,
) -> Option<Seq<char>> {
    if t.dom().contains(key) && !(t[key] is Table) {
        Some(not_table)
    } else {
        None
    }
}

/// The table under `key`; empty where the key is missing.
pub open spec fn table_of(t: Map<Seq<char>, TomlView>, key: Seq<char>) -> Map<Seq<char>, TomlView> {
    if t.dom().contains(key) {
        t[key]->Table_0
    } else {
        Map::empty()
    }
}

/// What is wrong with a required string under `key`.
pub open spec fn text_fault(
    t: Map<Seq<char>, TomlView>,
    key: Seq<char>,
    missing: Seq<char>,
    not_text: Seq<char>,
) -> Option<Seq<char>> {
    if !t.dom().contains(key) {
        Some(missing)
    } else if !(t[key] is String) {
        Some(not_text)
    } else {
        None
    }
}

/// The boolean under `key`; `default` where the key is missing or holds
/// something else.
pub open spec fn flag_of(t: Map<Seq<char>, TomlView>, key: Seq<char>, default: bool) -> bool {
    if t.dom().contains(key) && t[key] is Boolean {
        t[key]->Boolean_0
    } else {
        default
    }
}

/// The view of an optional list of strings.
pub open spec fn option_strings_view(l: Option<Vec<String>>) -> Option<Seq<Seq<char>>> {
    match l {
        Some(v) => Some(strings_view(v@)),
        None => None,
    }
}

/// A parse error with the given message.
pub fn parse_error(message: &str) -> (e: DotrError)
    ensures
        e@ == ErrorView::ConfigParseError(message@),
{
    DotrError::ConfigParseError(message.to_owned())
}

/// Reads the optional list of strings under `key`.
pub fn read_list(t: &Table, key: &str, not_list: &str, not_text: &str) -> (r: Result<
    Option<Vec<String>>,
    DotrError,
>)
    ensures
        match r {
            Ok(l) => list_fault(t@, key@, not_list@, not_text@) is None && option_strings_view(l)
                == list_of(t@, key@),
            Err(e) => list_fault(t@, key@, not_list@, not_text@) is Some && e@
                == ErrorView::ConfigParseError(list_fault(t@, key@, not_list@, not_text@)->0),
        },
{
    match t.get(key) {
        None => Ok(None),
        Some(v) => match v.as_array() {
            None => Err(parse_error(not_list)),
            Some(a) => {
                let mut out: Vec<String> = Vec::new();
                let mut i: usize = 0;
                while i < a.len()
                    invariant
                        i <= a.len(),
                        out.len() == i,
                        t@.dom().contains(key@),
                        t@[key@] == v@,
                        v@ == TomlView::Array(values_view(a@)),
                        forall|j: int|
                            0 <= j < i ==> (#[trigger] a[j])@ is String && out[j]@
                                == a[j]@->String_0,
                    decreases a.len() - i,
                {
                    match a[i].as_str() {
                        Some(s) => {
                            out.push(s.to_owned());
                        },
                        None => {
                            assert(v@->Array_0[i as int] == a[i as int]@);
                            return Err(parse_error(not_text));
                        },
                    }
                    i += 1;
                }
                assert forall|j: int| 0 <= j < a.len() implies v@->Array_0[j] is String
                    && out[j]@ == v@->Array_0[j]->String_0 by {
                    assert(v@->Array_0[j] == a[j]@);
                }
                assert(strings_view(out@) =~= strings_of(v@->Array_0));
                Ok(Some(out))
            },
        },
    }
}

/// Reads the optional table of strings under `key`.
pub fn read_text_map(t: &Table, key: &str, not_table: &str, not_text: &str) -> (r: Result<
    StrMap<String>,
    DotrError,
>)
    ensures
        match r {
            Ok(m) => map_fault(t@, key@, not_table@, not_text@) is None && text_map_view(&m)
                == map_of(t@, key@),
            Err(e) => map_fault(t@, key@, not_table@, not_text@) is Some && e@
                == ErrorView::ConfigParseError(map_fault(t@, key@, not_table@, not_text@)->0),
        },
{
    let mut out: StrMap<String> = StrMap::new();
    match t.get(key) {
        None => {
            assert(text_map_view(&out) =~= Map::<Seq<char>, Seq<char>>::empty());
            Ok(out)
        },
        Some(v) => match v.as_table() {
            None => Err(parse_error(not_table)),
            Some(inner) => {
                let n: usize = inner.len();
                let mut i: usize = 0;
                while i < n
                    invariant
                        i <= n,
                        n == inner.keys().len(),
                        inner.keys().no_duplicates(),
                        forall|k: Seq<char>| inner@.dom().contains(k) <==> inner.keys().contains(k),
                        v@ == TomlView::Table(inner@),
                        t@.dom().contains(key@),
                        t@[key@] == v@,
                        forall|k: Seq<char>|
                            out@.dom().contains(k) <==> inner.keys().take(i as int).contains(k),
                        forall|k: Seq<char>| #[trigger]
                            out@.dom().contains(k) ==> inner@.dom().contains(k) && inner@[k] is String
                                && out@[k]@ == inner@[k]->String_0,
                    decreases n - i,
                {
                    let name = inner.key_at(i);
                    let value = inner.value_at(i);
                    match value.as_str() {
                        Some(s) => {
                            let ghost before = out@;
                            let owned = s.to_owned();
                            out.insert(name.clone(), owned);
                            proof {
                                let prev = inner.keys().take(i as int);
                                let next = inner.keys().take(i + 1);
                                assert(next =~= prev.push(name@));
                                assert forall|k: Seq<char>|
                                    out@.dom().contains(k) <==> next.contains(k) by {
                                    if next.contains(k) {
                                        let j = choose|j: int| 0 <= j < next.len() && next[j] == k;
                                        if j < i {
                                            assert(prev[j] == k);
                                        }
                                    }
                                    if before.dom().contains(k) {
                                        let j = choose|j: int| 0 <= j < prev.len() && prev[j] == k;
                                        assert(next[j] == k);
                                    }
                                    if k == name@ {
                                        assert(next[i as int] == k);
                                    }
                                }
                            }
                        },
                        None => {
                            assert(inner@.dom().contains(name@));
                            return Err(parse_error(not_text));
                        },
                    }
                    i += 1;
                }
                proof {
                    assert(inner.keys().take(n as int) =~= inner.keys());
                    assert forall|k: Seq<char>| inner@.dom().contains(k) implies inner@[k] is String by {
                        assert(inner.keys().contains(k));
                        assert(out@.dom().contains(k));
                    }
                    assert(text_map_view(&out) =~= texts_of(inner@));
                }
                Ok(out)
            },
        },
    }
}

/// Reads a copy of the optional table under `key`.
pub fn read_table(t: &Table, key: &str, not_table: &str) -> (r: Result<Table, DotrError>)
    ensures
        match r {
            Ok(m) => table_fault(t@, key@, not_table@) is None && m@ == table_of(t@, key@),
            Err(e) => table_fault(t@, key@, not_table@) is Some && e@
                == ErrorView::ConfigParseError(not_table@),
        },
{
    match t.get(key) {
        None => Ok(Table::new()),
        Some(v) => match v.as_table() {
            None => Err(parse_error(not_table)),
            Some(inner) => Ok(inner.clone()),
        },
    }
}

/// Reads the required string under `key`.
pub fn read_text(t: &Table, key: &str, missing: &str, not_text: &str) -> (r: Result<
    String,
    DotrError,
>)
    ensures
        match r {
            Ok(s) => text_fault(t@, key@, missing@, not_text@) is None && s@ == t@[key@]->String_0,
            Err(e) => text_fault(t@, key@, missing@, not_text@) is Some && e@
                == ErrorView::ConfigParseError(text_fault(t@, key@, missing@, not_text@)->0),
        },
{
    match t.get(key) {
        None => Err(parse_error(missing)),
        Some(v) => match v.as_str() {
            None => Err(parse_error(not_text)),
            Some(s) => Ok(s.to_owned()),
        },
    }
}

/// Reads the boolean under `key`, or `default` where there is none.
pub fn read_flag(t: &Table, key: &str, default: bool) -> (r: bool)
    ensures
        r == flag_of(t@, key@, default),
{
    match t.get(key) {
        None => default,
        Some(v) => match v.as_bool() {
            None => default,
            Some(b) => b,
        },
    }
}

/// String values with the given texts.
pub open spec fn text_items(s: Seq<Seq<char>>) -> Seq<TomlView> {
    Seq::new(s.len(), |i: int| TomlView::String(s[i]))
}

/// A table of string values with the given texts.
pub open spec fn text_table(m: Map<Seq<char>, Seq<char>>) -> Map<Seq<char>, TomlView> {
    m.map_values(|s: Seq<char>| TomlView::String(s))
}

/// A string value with the given text.
pub fn text_value(s: &str) -> (r: TomlValue)
    ensures
        r@ == TomlView::String(s@),
{
    TomlValue::String(s.to_owned())
}

/// An array of string values with the texts of the list.
pub fn strings_value(v: &Vec<String>) -> (r: TomlValue)
    ensures
        r@ == TomlView::Array(text_items(strings_view(v@))),
{
    let mut out: Vec<TomlValue> = Vec::new();
    let mut i: usize = 0;
    while i < v.len()
        invariant
            i <= v.len(),
            out.len() == i,
            forall|j: int| 0 <= j < i ==> (#[trigger] out[j])@ == TomlView::String(v[j]@),
        decreases v.len() - i,
    {
        out.push(text_value(v[i].as_str()));
        i += 1;
    }
    proof {
        lemma_array_value(out);
        assert(values_view(out@) =~= text_items(strings_view(v@)));
    }
    TomlValue::Array(out)
}

/// A table of string values with the texts of the map, in its order.
pub fn text_map_table(m: &StrMap<String>) -> (r: Table)
    ensures
        r@ == text_table(text_map_view(m)),
{
    let n: usize = m.len();
    let mut out = Table::new();
    let mut i: usize = 0;
    let ghost f = |s: String| TomlView::String(s@);
    let ghost pairs = m.entries().map_values(|e: (Seq<char>, String)| (e.0, f(e.1)));
    proof {
        assert(pairs.take(0) =~= Seq::<(Seq<char>, TomlView)>::empty());
    }
    while i < n
        invariant
            i <= n,
            n == m.entries().len(),
            f == |s: String| TomlView::String(s@),
            pairs == m.entries().map_values(|e: (Seq<char>, String)| (e.0, f(e.1))),
            out@ == entries_map(pairs.take(i as int)),
        decreases n - i,
    {
        let key = m.key_at(i).clone();
        let value = text_value(m.value_at(i).as_str());
        proof {
            lemma_entries_map_take(pairs, i as int);
        }
        out.insert(key, value);
        i += 1;
    }
    proof {
        assert(pairs.take(n as int) =~= pairs);
        lemma_entries_map_values(m.entries(), f);
        assert(out@ =~= text_table(text_map_view(m)));
    }
    out
}

/// The table under `key`; empty where the key is missing or holds something
/// else.
pub open spec fn section(t: Map<Seq<char>, TomlView>, key: Seq<char>) -> Map<Seq<char>, TomlView> {
    if t.dom().contains(key) && t[key] is Table {
        t[key]->Table_0
    } else {
        Map::empty()
    }
}

/// A record of the configuration that is stored as a table under its name.
pub trait Record: Sized + View {
    /// The first thing wrong with the table of a record, as the message
    /// that reports it.
    spec fn fault(name: Seq<char>, t: Map<Seq<char>, TomlView>) -> Option<Seq<char>>;

    /// The record that a faultless table describes.
    spec fn described(name: Seq<char>, t: Map<Seq<char>, TomlView>) -> Self::V;

    /// The table that stores a record.
    spec fn stored(v: Self::V) -> Map<Seq<char>, TomlView>;

    /// Reads a record from its table.
    fn read(name: &str, t: &Table) -> (r: Result<Self, DotrError>)
        ensures
            match r {
                Ok(p) => Self::fault(name@, t@) is None && p@ == Self::described(name@, t@),
                Err(e) => Self::fault(name@, t@) is Some && e@ == ErrorView::ConfigParseError(
                    Self::fault(name@, t@)->0,
                ),
            },
    ;

    /// The table that stores the record.
    fn write(&self) -> (r: Table)
        ensures
            r@ == Self::stored(self@),
    ;
}

/// The contents of the records of a map.
pub open spec fn records_view<T: Record>(m: &StrMap<T>) -> Map<Seq<char>, T::V> {
    m@.map_values(|p: T| p@)
}

/// Whether every entry of a section describes a record.
pub open spec fn records_ok<T: Record>(entries: Map<Seq<char>, TomlView>) -> bool {
    forall|k: Seq<char>| #[trigger]
        entries.dom().contains(k) ==> entries[k] is Table && T::fault(k, entries[k]->Table_0) is None
}

/// The records that a faultless section describes, each under its key,
/// which is its name.
pub open spec fn records_of<T: Record>(entries: Map<Seq<char>, TomlView>) -> Map<Seq<char>, T::V> {
    Map::new(
        |k: Seq<char>| entries.dom().contains(k),
        |k: Seq<char>| T::described(k, entries[k]->Table_0),
    )
}

/// The tables that store the records, each under its name.
pub open spec fn record_tables<T: Record>(m: Map<Seq<char>, T::V>) -> Map<Seq<char>, TomlView> {
    m.map_values(|v: T::V| TomlView::Table(T::stored(v)))
}

/// Reads the records of the section under `key`. An entry that is no table
/// is reported with the message `bad`.
pub fn read_records<T: Record>(table: &Table, key: &str, bad: &str) -> (r: Result<
    StrMap<T>,
    DotrError,
>)
    ensures
        match r {
            Ok(m) => records_ok::<T>(section(table@, key@)) && records_view(&m) == records_of::<T>(
                section(table@, key@),
            ),
            Err(e) => !records_ok::<T>(section(table@, key@)) && e@ is ConfigParseError,
        },
{
    let mut out: StrMap<T> = StrMap::new();
    let inner = match table.get(key) {
        Some(v) => match v.as_table() {
            Some(t) => t,
            None => {
                assert(records_view(&out) =~= records_of::<T>(section(table@, key@)));
                return Ok(out);
            },
        },
        None => {
            assert(records_view(&out) =~= records_of::<T>(section(table@, key@)));
            return Ok(out);
        },
    };
    assert(inner@ == section(table@, key@));
    let n: usize = inner.len();
    let mut i: usize = 0;
    while i < n
        invariant
            i <= n,
            n == inner.pairs().len(),
            inner.keys().no_duplicates(),
            forall|k: Seq<char>| inner@.dom().contains(k) <==> inner.keys().contains(k),
            inner@ == section(table@, key@),
            forall|k: Seq<char>| out@.dom().contains(k) <==> inner.keys().take(i as int).contains(k),
            forall|k: Seq<char>| #[trigger]
                out@.dom().contains(k) ==> inner@.dom().contains(k) && inner@[k] is Table && T::fault(
                    k,
                    inner@[k]->Table_0,
                ) is None && out@[k]@ == T::described(k, inner@[k]->Table_0),
        decreases n - i,
    {
        let name = inner.key_at(i);
        let value = inner.value_at(i);
        let record = match value.as_table() {
            Some(t) => match T::read(name.as_str(), t) {
                Ok(p) => p,
                Err(e) => {
                    assert(section(table@, key@).dom().contains(name@));
                    return Err(e);
                },
            },
            None => {
                assert(section(table@, key@).dom().contains(name@));
                return Err(parse_error(bad));
            },
        };
        let ghost before = out@;
        out.insert(name.clone(), record);
        proof {
            let prev = inner.keys().take(i as int);
            let next = inner.keys().take(i + 1);
            assert(next =~= prev.push(name@));
            assert forall|k: Seq<char>| out@.dom().contains(k) <==> next.contains(k) by {
                if next.contains(k) {
                    let j = choose|j: int| 0 <= j < next.len() && next[j] == k;
                    if j < i {
                        assert(prev[j] == k);
                    }
                }
                if before.dom().contains(k) {
                    let j = choose|j: int| 0 <= j < prev.len() && prev[j] == k;
                    assert(next[j] == k);
                }
                if k == name@ {
                    assert(next[i as int] == k);
                }
            }
        }
        i += 1;
    }
    proof {
        assert(inner.keys().take(n as int) =~= inner.keys());
        assert forall|k: Seq<char>| #[trigger]
            section(table@, key@).dom().contains(k) implies section(table@, key@)[k] is Table
            && T::fault(k, section(table@, key@)[k]->Table_0) is None by {
            assert(inner.keys().contains(k));
            assert(out@.dom().contains(k));
        }
        assert(records_view(&out) =~= records_of::<T>(section(table@, key@)));
    }
    Ok(out)
}

/// The tables of the records, each under its name.
pub fn write_records<T: Record>(m: &StrMap<T>) -> (r: Table)
    ensures
        r@ == record_tables::<T>(records_view(m)),
{
    let n: usize = m.len();
    let mut out = Table::new();
    let mut i: usize = 0;
    let ghost f = |p: T| TomlView::Table(T::stored(p@));
    let ghost pairs = m.entries().map_values(|e: (Seq<char>, T)| (e.0, f(e.1)));
    proof {
        assert(pairs.take(0) =~= Seq::<(Seq<char>, TomlView)>::empty());
    }
    while i < n
        invariant
            i <= n,
            n == m.entries().len(),
            f == |p: T| TomlView::Table(T::stored(p@)),
            pairs == m.entries().map_values(|e: (Seq<char>, T)| (e.0, f(e.1))),
            out@ == entries_map(pairs.take(i as int)),
        decreases n - i,
    {
        let key = m.key_at(i).clone();
        let value = TomlValue::Table(m.value_at(i).write());
        proof {
            lemma_entries_map_take(pairs, i as int);
        }
        out.insert(key, value);
        i += 1;
    }
    proof {
        assert(pairs.take(n as int) =~= pairs);
        lemma_entries_map_values(m.entries(), f);
        assert(out@ =~= record_tables::<T>(records_view(m)));
    }
    out
}

} // verus!
