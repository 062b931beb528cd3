//! The values of a parsed TOML document, as plain data the configuration logic reads.
use vstd::prelude::*;
use crate::utils::strings::{chars_of, push_char, str_eq, views};

verus! {

/// Strict lexicographic order of strings by code point (the order of Rust's `String`).
pub open spec fn key_lt(a: Seq<char>, b: Seq<char>) -> bool
    decreases a.len(),
{
    if b.len() == 0 {
        false
    } else if a.len() == 0 {
        true
    } else if a[0] < b[0] {
        true
    } else if a[0] == b[0] {
        key_lt(a.drop_first(), b.drop_first())
    } else {
        false
    }
}

/// `key_lt` never relates a string to itself.
pub proof fn lemma_key_lt_irreflexive(a: Seq<char>)
    ensures
        !key_lt(a, a),
    decreases a.len(),
{
    if a.len() > 0 {
        lemma_key_lt_irreflexive(a.drop_first());
    }
}

/// `key_lt` is transitive.
pub proof fn lemma_key_lt_transitive(a: Seq<char>, b: Seq<char>, c: Seq<char>)
    requires
        key_lt(a, b),
        key_lt(b, c),
    ensures
        key_lt(a, c),
    decreases a.len(),
{
    if a.len() > 0 && b.len() > 0 && c.len() > 0 {
        if a[0] == b[0] && b[0] == c[0] {
            lemma_key_lt_transitive(a.drop_first(), b.drop_first(), c.drop_first());
        }
    }
}

/// Two different strings are ordered one way or the other.
pub proof fn lemma_key_lt_total(a: Seq<char>, b: Seq<char>)
    ensures
        a == b || key_lt(a, b) || key_lt(b, a),
    decreases a.len(),
{
    if a.len() > 0 && b.len() > 0 {
        if a[0] == b[0] {
            lemma_key_lt_total(a.drop_first(), b.drop_first());
            if a.drop_first() == b.drop_first() {
                assert(a =~= seq![a[0]] + a.drop_first());
                assert(b =~= seq![b[0]] + b.drop_first());
            }
        } else {
        }
    } else if a.len() == 0 && b.len() == 0 {
        assert(a =~= b);
    }
}

/// Whether `a` comes strictly before `b` in code point order.
pub fn key_less(a: &str, b: &str) -> (r: bool)
    ensures
        r == key_lt(a@, b@),
{
    let va = chars_of(a);
    let vb = chars_of(b);
    let mut i: usize = 0;
    assert(a@.skip(0) =~= a@);
    assert(b@.skip(0) =~= b@);
    while i < va.len() && i < vb.len() && va[i] == vb[i]
        invariant
            va@ == a@,
            vb@ == b@,
            i <= va.len(),
            i <= vb.len(),
            key_lt(a@, b@) == key_lt(a@.skip(i as int), b@.skip(i as int)),
        decreases va.len() - i,
    {
        assert(a@.skip(i as int).drop_first() =~= a@.skip(i + 1));
        assert(b@.skip(i as int).drop_first() =~= b@.skip(i + 1));
        i = i + 1;
    }
    if i == vb.len() {
        false
    } else if i == va.len() {
        true
    } else {
        va[i] < vb[i]
    }
}

/// A TOML value as mathematical data: strings as character sequences, tables as their
/// entries in key order.
pub enum TomlData {
    Str(Seq<char>),
    Int(int),
    Float(Seq<char>),
    Bool(bool),
    Datetime(Seq<char>),
    Array(Seq<TomlData>),
    Table(Seq<(Seq<char>, TomlData)>),
}

/// A TOML value. A float is kept as its TOML text: nothing in the configuration computes with
/// one, and the text is written back as it is.
pub enum TomlValue {
    Str(String),
    Int(i64),
    Float(String),
    Bool(bool),
    Datetime(String),
    Array(Vec<TomlValue>),
    Table(TomlTable),
}

/// A TOML table: keys in increasing order, each once (the order of a `BTreeMap`).
pub struct TomlTable {
    entries: Vec<(String, TomlValue)>,
}

/// Keys in strictly increasing order.
pub open spec fn keys_sorted(entries: Seq<(String, TomlValue)>) -> bool {
    forall|i: int, j: int|
        0 <= i < j < entries.len() ==> key_lt(#[trigger] entries[i].0@, #[trigger] entries[j].0@)
}

/// The data of a value.
pub closed spec fn value_data(v: TomlValue) -> TomlData
    decreases v,
{
    match v {
        TomlValue::Str(s) => TomlData::Str(s@),
        TomlValue::Int(i) => TomlData::Int(i as int),
        TomlValue::Float(s) => TomlData::Float(s@),
        TomlValue::Bool(b) => TomlData::Bool(b),
        TomlValue::Datetime(s) => TomlData::Datetime(s@),
        TomlValue::Array(a) => TomlData::Array(values_data(a@)),
        TomlValue::Table(t) => TomlData::Table(entries_data(t.entries@)),
    }
}

/// The data of a sequence of values.
pub closed spec fn values_data(s: Seq<TomlValue>) -> Seq<TomlData>
    decreases s,
{
    if s.len() == 0 {
        Seq::empty()
    } else {
        values_data(s.subrange(0, s.len() - 1)).push(value_data(s[s.len() - 1]))
    }
}

/// The data of table entries.
pub closed spec fn entries_data(s: Seq<(String, TomlValue)>) -> Seq<(Seq<char>, TomlData)>
    decreases s,
{
    if s.len() == 0 {
        Seq::empty()
    } else {
        entries_data(s.subrange(0, s.len() - 1)).push((s[s.len() - 1].0@, value_data(s[s.len() - 1].1)))
    }
}

proof fn lemma_values_data(s: Seq<TomlValue>)
    ensures
        values_data(s).len() == s.len(),
        forall|i: int| 0 <= i < s.len() ==> #[trigger] values_data(s)[i] == value_data(s[i]),
    decreases s.len(),
{
    if s.len() > 0 {
        lemma_values_data(s.subrange(0, s.len() - 1));
    }
}

proof fn lemma_entries_data(s: Seq<(String, TomlValue)>)
    ensures
        entries_data(s).len() == s.len(),
        forall|i: int| 0 <= i < s.len() ==> #[trigger] entries_data(s)[i] == (s[i].0@, value_data(s[i].1)),
    decreases s.len(),
{
    if s.len() > 0 {
        lemma_entries_data(s.subrange(0, s.len() - 1));
    }
}

/// The value under `key` in table data (the first entry with that key).
pub open spec fn data_get(entries: Seq<(Seq<char>, TomlData)>, key: Seq<char>) -> Option<TomlData>
    decreases entries.len(),
{
    if entries.len() == 0 {
        None
    } else if entries[0].0 == key {
        Some(entries[0].1)
    } else {
        data_get(entries.drop_first(), key)
    }
}

/// The value at a dotted path of keys (the whole value for an empty path).
pub open spec fn data_at(d: TomlData, path: Seq<Seq<char>>) -> Option<TomlData>
    decreases path.len(),
{
    if path.len() == 0 {
        Some(d)
    } else {
        match d {
            TomlData::Table(entries) => match data_get(entries, path[0]) {
                Some(c) => data_at(c, path.drop_first()),
                None => None,
            },
            _ => None,
        }
    }
}

/// A string value, if the data is one.
pub open spec fn data_str(d: TomlData) -> Option<Seq<char>> {
    match d {
        TomlData::Str(s) => Some(s),
        _ => None,
    }
}

/// A boolean value, if the data is one.
pub open spec fn data_bool(d: TomlData) -> Option<bool> {
    match d {
        TomlData::Bool(b) => Some(b),
        _ => None,
    }
}

impl TomlValue {
    /// The data of this value.
    pub open spec fn data(self) -> TomlData {
        value_data(self)
    }

    /// The string, if this is a string.
    pub fn as_str(&self) -> (r: Option<&str>)
        ensures
            match r {
                Some(s) => self.data() == TomlData::Str(s@),
                None => !(self.data() is Str),
            },
    {
        proof { reveal(value_data); }
        match self {
            TomlValue::Str(s) => Some(s.as_str()),
            _ => None,
        }
    }

    /// The boolean, if this is a boolean.
    pub fn as_bool(&self) -> (r: Option<bool>)
        ensures
            r == data_bool(self.data()),
    {
        proof { reveal(value_data); }
        match self {
            TomlValue::Bool(b) => Some(*b),
            _ => None,
        }
    }

    /// The text of a float.
    pub fn as_float_text(&self) -> (r: &str)
        requires
            self.data() is Float,
        ensures
            self.data() == TomlData::Float(r@),
    {
        proof { reveal(value_data); }
        match self {
            TomlValue::Float(s) => s.as_str(),
            _ => "",
        }
    }

    /// The integer, if this is an integer.
    pub fn as_int(&self) -> (r: Option<i64>)
        ensures
            match r {
                Some(i) => self.data() == TomlData::Int(i as int),
                None => !(self.data() is Int),
            },
    {
        proof { reveal(value_data); }
        match self {
            TomlValue::Int(i) => Some(*i),
            _ => None,
        }
    }

    /// The date-time text, if this is a date-time.
    pub fn as_datetime(&self) -> (r: Option<&str>)
        ensures
            match r {
                Some(s) => self.data() == TomlData::Datetime(s@),
                None => !(self.data() is Datetime),
            },
    {
        proof { reveal(value_data); }
        match self {
            TomlValue::Datetime(s) => Some(s.as_str()),
            _ => None,
        }
    }

    /// Whether this is a boolean.
    pub fn is_bool(&self) -> (r: bool)
        ensures
            r == (self.data() is Bool),
    {
        proof { reveal(value_data); }
        match self {
            TomlValue::Bool(_) => true,
            _ => false,
        }
    }

    /// The elements, if this is an array.
    pub fn as_array(&self) -> (r: Option<&Vec<TomlValue>>)
        ensures
            match r {
                Some(a) => self.data() is Array && self.data()->Array_0.len() == a@.len() && forall|i: int|
                    0 <= i < a@.len() ==> #[trigger] self.data()->Array_0[i] == a@[i].data(),
                None => !(self.data() is Array),
            },
    {
        proof { reveal(value_data); }
        match self {
            TomlValue::Array(a) => {
                proof { lemma_values_data(a@); }
                Some(a)
            },
            _ => None,
        }
    }

    /// The table, if this is a table.
    pub fn as_table(&self) -> (r: Option<&TomlTable>)
        ensures
            match r {
                Some(t) => self.data() == TomlData::Table(t.data()),
                None => !(self.data() is Table),
            },
    {
        proof { reveal(value_data); }
        match self {
            TomlValue::Table(t) => Some(t),
            _ => None,
        }
    }

    /// A string value.
    pub fn from_str(s: String) -> (v: TomlValue)
        ensures
            v.data() == TomlData::Str(s@),
    {
        proof { reveal(value_data); }
        TomlValue::Str(s)
    }

    /// A table value.
    pub fn from_table(t: TomlTable) -> (v: TomlValue)
        ensures
            v.data() == TomlData::Table(t.data()),
    {
        proof { reveal(value_data); }
        TomlValue::Table(t)
    }

    /// An array value.
    pub fn from_array(a: Vec<TomlValue>) -> (v: TomlValue)
        ensures
            v.data() is Array,
            v.data()->Array_0.len() == a@.len(),
            forall|i: int| 0 <= i < a@.len() ==> #[trigger] v.data()->Array_0[i] == a@[i].data(),
    {
        proof {
            reveal(value_data);
            lemma_values_data(a@);
        }
        TomlValue::Array(a)
    }

    /// A copy with the same data.
    pub fn deep_clone(&self) -> (r: TomlValue)
        ensures
            r.data() == self.data(),
        decreases self,
    {
        proof { reveal(value_data); }
        match self {
            TomlValue::Str(s) => TomlValue::Str(s.clone()),
            TomlValue::Int(i) => TomlValue::Int(*i),
            TomlValue::Float(s) => TomlValue::Float(s.clone()),
            TomlValue::Bool(b) => TomlValue::Bool(*b),
            TomlValue::Datetime(s) => TomlValue::Datetime(s.clone()),
            TomlValue::Array(a) => {
                let mut out: Vec<TomlValue> = Vec::new();
                let mut i: usize = 0;
                proof { lemma_values_data(a@); }
                while i < a.len()
                    invariant
                        *self == TomlValue::Array(*a),
                        i <= a@.len(),
                        out@.len() == i,
                        forall|j: int| 0 <= j < i ==> #[trigger] out@[j].data() == a@[j].data(),
                    decreases a@.len() - i,
                {
                    proof {
                        vstd::std_specs::vec::axiom_vec_index_decreases(*a, i as int);
                        assert(decreases_to!(*self => self->Array_0));
                    }
                    let c = a[i].deep_clone();
                    out.push(c);
                    i = i + 1;
                }
                proof {
                    lemma_values_data(out@);
                    lemma_values_data(a@);
                    assert(out@.len() == a@.len());
                    assert forall|j: int| 0 <= j < a@.len() implies values_data(out@)[j] == values_data(a@)[j] by {
                        assert(out@[j].data() == a@[j].data());
                    }
                }
                assert(values_data(out@) =~= values_data(a@));
                TomlValue::Array(out)
            },
            TomlValue::Table(t) => {
                proof { use_type_invariant(t); }
                let mut out: Vec<(String, TomlValue)> = Vec::new();
                let mut i: usize = 0;
                proof { lemma_entries_data(t.entries@); }
                while i < t.entries.len()
                    invariant
                        *self == TomlValue::Table(*t),
                        i <= t.entries@.len(),
                        out@.len() == i,
                        keys_sorted(t.entries@),
                        forall|j: int| 0 <= j < i ==> #[trigger] out@[j].0@ == t.entries@[j].0@
                            && out@[j].1.data() == t.entries@[j].1.data(),
                    decreases t.entries@.len() - i,
                {
                    proof {
                        vstd::std_specs::vec::axiom_vec_index_decreases(t.entries, i as int);
                        assert(decreases_to!(*self => self->Table_0));
                        assert(decreases_to!(*t => t.entries));
                    }
                    let k = t.entries[i].0.clone();
                    let c = t.entries[i].1.deep_clone();
                    out.push((k, c));
                    i = i + 1;
                }
                proof {
                    lemma_entries_data(out@);
                    lemma_entries_data(t.entries@);
                }
                assert(entries_data(out@) =~= entries_data(t.entries@));
                assert(keys_sorted(out@));
                TomlValue::Table(TomlTable { entries: out })
            },
        }
    }
}

impl TomlTable {
    #[verifier::type_invariant]
    spec fn sorted(self) -> bool {
        keys_sorted(self.entries@)
    }

    /// The entries as data, in key order.
    pub closed spec fn data(self) -> Seq<(Seq<char>, TomlData)> {
        entries_data(self.entries@)
    }

    /// The value under `key`, if any.
    pub open spec fn lookup(self, key: Seq<char>) -> Option<TomlData> {
        data_get(self.data(), key)
    }

    /// An empty table.
    pub fn new() -> (t: TomlTable)
        ensures
            t.data().len() == 0,
            forall|k: Seq<char>| t.lookup(k) is None,
    {
        proof { reveal(entries_data); }
        TomlTable { entries: Vec::new() }
    }

    /// Number of entries.
    pub fn len(&self) -> (n: usize)
        ensures
            n == self.data().len(),
    {
        proof { lemma_entries_data(self.entries@); }
        self.entries.len()
    }

    /// The `i`-th entry in key order.
    pub fn entry(&self, i: usize) -> (r: (&String, &TomlValue))
        requires
            i < self.data().len(),
        ensures
            self.data()[i as int] == (r.0@, r.1.data()),
    {
        proof { lemma_entries_data(self.entries@); }
        let e = &self.entries[i];
        (&e.0, &e.1)
    }

    /// The keys in increasing order.
    pub fn keys(&self) -> (r: Vec<String>)
        ensures
            r@.len() == self.data().len(),
            forall|i: int| 0 <= i < r@.len() ==> #[trigger] r@[i]@ == self.data()[i].0,
            forall|i: int, j: int| 0 <= i < j < r@.len() ==> key_lt(#[trigger] r@[i]@, #[trigger] r@[j]@),
    {
        proof {
            use_type_invariant(self);
            lemma_entries_data(self.entries@);
        }
        let mut out: Vec<String> = Vec::new();
        let mut i: usize = 0;
        while i < self.entries.len()
            invariant
                i <= self.entries@.len(),
                out@.len() == i,
                forall|j: int| 0 <= j < i ==> #[trigger] out@[j]@ == self.entries@[j].0@,
            decreases self.entries@.len() - i,
        {
            out.push(self.entries[i].0.clone());
            i = i + 1;
        }
        out
    }

    /// The value under `key`, if any.
    pub fn get(&self, key: &str) -> (r: Option<&TomlValue>)
        ensures
            match r {
                Some(v) => self.lookup(key@) == Some(v.data()),
                None => self.lookup(key@) is None,
            },
    {
        proof { lemma_entries_data(self.entries@); }
        let ghost d = self.data();
        let mut i: usize = 0;
        assert(d.skip(0) =~= d);
        while i < self.entries.len()
            invariant
                i <= self.entries@.len(),
                d == entries_data(self.entries@),
                d.len() == self.entries@.len(),
                forall|j: int| 0 <= j < d.len() ==> #[trigger] d[j] == (self.entries@[j].0@, self.entries@[j].1.data()),
                data_get(d, key@) == data_get(d.skip(i as int), key@),
            decreases self.entries@.len() - i,
        {
            assert(d.skip(i as int).drop_first() =~= d.skip(i + 1));
            assert(d.skip(i as int)[0] == d[i as int]);
            if str_eq(self.entries[i].0.as_str(), key) {
                return Some(&self.entries[i].1);
            }
            i = i + 1;
        }
        None
    }

    /// Whether the table has an entry under `key`.
    pub fn contains_key(&self, key: &str) -> (r: bool)
        ensures
            r == self.lookup(key@) is Some,
    {
        self.get(key).is_some()
    }
}

proof fn lemma_get_absent(d: Seq<(Seq<char>, TomlData)>, key: Seq<char>)
    requires
        forall|i: int| 0 <= i < d.len() ==> #[trigger] d[i].0 != key,
    ensures
        data_get(d, key) is None,
    decreases d.len(),
{
    if d.len() > 0 {
        assert(d[0].0 != key);
        lemma_get_absent(d.drop_first(), key);
    }
}

proof fn lemma_get_unique(d: Seq<(Seq<char>, TomlData)>, key: Seq<char>, p: int)
    requires
        0 <= p < d.len(),
        d[p].0 == key,
        forall|i: int| 0 <= i < p ==> #[trigger] d[i].0 != key,
    ensures
        data_get(d, key) == Some(d[p].1),
    decreases d.len(),
{
    if p > 0 {
        assert(d[0].0 != key);
        lemma_get_unique(d.drop_first(), key, p - 1);
    }
}

/// In data whose keys are strictly increasing, lookup finds the one entry with the key.
proof fn lemma_get_sorted(d: Seq<(Seq<char>, TomlData)>, key: Seq<char>)
    requires
        forall|i: int, j: int| 0 <= i < j < d.len() ==> key_lt(#[trigger] d[i].0, #[trigger] d[j].0),
    ensures
        forall|p: int| 0 <= p < d.len() && d[p].0 == key ==> data_get(d, key) == Some(#[trigger] d[p].1),
        (forall|p: int| 0 <= p < d.len() ==> #[trigger] d[p].0 != key) ==> data_get(d, key) is None,
{
    assert forall|p: int| 0 <= p < d.len() && d[p].0 == key implies data_get(d, key) == Some(#[trigger] d[p].1) by {
        assert forall|i: int| 0 <= i < p implies #[trigger] d[i].0 != key by {
            assert(key_lt(d[i].0, d[p].0));
            lemma_key_lt_irreflexive(key);
        }
        lemma_get_unique(d, key, p);
    }
    if forall|p: int| 0 <= p < d.len() ==> #[trigger] d[p].0 != key {
        lemma_get_absent(d, key);
    }
}

proof fn lemma_sorted_data(entries: Seq<(String, TomlValue)>)
    requires
        keys_sorted(entries),
    ensures
        forall|i: int, j: int|
            0 <= i < j < entries_data(entries).len() ==> key_lt(
                #[trigger] entries_data(entries)[i].0,
                #[trigger] entries_data(entries)[j].0,
            ),
{
    lemma_entries_data(entries);
    assert forall|i: int, j: int| 0 <= i < j < entries_data(entries).len() implies key_lt(
        #[trigger] entries_data(entries)[i].0,
        #[trigger] entries_data(entries)[j].0,
    ) by {
        assert(key_lt(entries[i].0@, entries[j].0@));
    }
}

impl TomlTable {
    /// Sets `key` to `value`: replaces the value of an existing key in place, or inserts the
    /// key where the order puts it (`BTreeMap::insert`).
    pub fn insert(&mut self, key: String, value: TomlValue)
        ensures
            final(self).lookup(key@) == Some(value.data()),
            forall|k: Seq<char>| k != key@ ==> final(self).lookup(k) == old(self).lookup(k),
            final(self).data().len() == old(self).data().len() + (if old(self).lookup(key@) is Some {
                0int
            } else {
                1int
            }),
    {
        proof { use_type_invariant(&*self); }
        let ghost old_entries = self.entries@;
        let ghost old_d = entries_data(old_entries);
        proof {
            lemma_entries_data(old_entries);
            lemma_sorted_data(old_entries);
        }
        let mut p: usize = 0;
        while p < self.entries.len() && key_less(self.entries[p].0.as_str(), key.as_str())
            invariant
                p <= self.entries@.len(),
                self.entries@ == old_entries,
                forall|i: int| 0 <= i < p ==> key_lt(#[trigger] old_entries[i].0@, key@),
            decreases self.entries@.len() - p,
        {
            p = p + 1;
        }
        let exists_at_p = p < self.entries.len() && str_eq(self.entries[p].0.as_str(), key.as_str());
        let ghost kv = key@;
        let ghost vd = value.data();
        proof {
            lemma_get_sorted(old_d, kv);
            // the key is nowhere but possibly at p
            assert forall|i: int| 0 <= i < old_entries.len() && i != p implies #[trigger] old_entries[i].0@ != kv by {
                if i < p {
                    lemma_key_lt_irreflexive(kv);
                } else if p < old_entries.len() {
                    assert(!key_lt(old_entries[p as int].0@, kv));
                    lemma_key_lt_total(old_entries[p as int].0@, kv);
                    if old_entries[p as int].0@ == kv {
                        assert(key_lt(old_entries[p as int].0@, old_entries[i].0@));
                        lemma_key_lt_irreflexive(kv);
                    } else {
                        assert(key_lt(kv, old_entries[p as int].0@));
                        assert(key_lt(old_entries[p as int].0@, old_entries[i].0@));
                        lemma_key_lt_transitive(kv, old_entries[p as int].0@, old_entries[i].0@);
                        lemma_key_lt_irreflexive(kv);
                    }
                }
            }
            if !exists_at_p {
                assert forall|i: int| 0 <= i < old_d.len() implies #[trigger] old_d[i].0 != kv by {
                    assert(old_d[i].0 == old_entries[i].0@);
                }
            }
        }
        let mut entries: Vec<(String, TomlValue)> = Vec::new();
        std::mem::swap(&mut entries, &mut self.entries);
        assert(entries@ == old_entries);
        if exists_at_p {
            entries.set(p, (key, value));
        } else {
            entries.insert(p, (key, value));
        }
        let ghost new_entries = entries@;
        proof {
            lemma_entries_data(new_entries);
            let new_d = entries_data(new_entries);
            assert(new_entries[p as int].0@ == kv);
            assert(new_entries[p as int].1.data() == vd);
            // map from new positions to old ones
            assert forall|i: int| 0 <= i < new_entries.len() && i != p implies #[trigger] new_entries[i]
                == (if i < p || exists_at_p { old_entries[i] } else { old_entries[i - 1] }) by {}
            assert forall|i: int, j: int| 0 <= i < j < new_entries.len() implies key_lt(
                #[trigger] new_entries[i].0@,
                #[trigger] new_entries[j].0@,
            ) by {
                if exists_at_p {
                    assert(new_entries[p as int].0@ == old_entries[p as int].0@);
                    assert(key_lt(old_entries[i].0@, old_entries[j].0@));
                } else if i == p {
                    lemma_key_lt_total(old_entries[p as int].0@, kv);
                    assert(key_lt(kv, old_entries[p as int].0@));
                    if j - 1 > p {
                        assert(key_lt(old_entries[p as int].0@, old_entries[j - 1].0@));
                        lemma_key_lt_transitive(kv, old_entries[p as int].0@, old_entries[j - 1].0@);
                    }
                } else if j == p {
                } else if i < p && j > p {
                    assert(key_lt(old_entries[i].0@, old_entries[j - 1].0@));
                } else if i > p {
                    assert(key_lt(old_entries[i - 1].0@, old_entries[j - 1].0@));
                } else {
                    assert(key_lt(old_entries[i].0@, old_entries[j].0@));
                }
            }
            lemma_sorted_data(new_entries);
            lemma_get_sorted(new_d, kv);
            assert(new_d[p as int] == (kv, vd));
            assert(new_d[p as int].0 == kv);
            assert(new_d[p as int].1 == vd);
            assert(data_get(new_d, kv) == Some(vd));
            assert(new_entries.len() == old_entries.len() + (if exists_at_p { 0int } else { 1int }));
            if exists_at_p {
                assert(old_d[p as int].0 == kv);
                assert(data_get(old_d, kv) == Some(old_d[p as int].1));
            } else {
                assert(data_get(old_d, kv) is None);
            }
            assert forall|k: Seq<char>| k != kv implies data_get(new_d, k) == data_get(old_d, k) by {
                lemma_get_sorted(new_d, k);
                lemma_get_sorted(old_d, k);
                if exists|q: int| 0 <= q < old_d.len() && old_d[q].0 == k {
                    let q = choose|q: int| 0 <= q < old_d.len() && old_d[q].0 == k;
                    assert(q != p || !exists_at_p);
                    let q2 = if q < p || exists_at_p { q } else { q + 1 };
                    assert(new_entries[q2] == old_entries[q]);
                    assert(new_d[q2] == old_d[q]);
                    assert(data_get(new_d, k) == Some(new_d[q2].1));
                } else {
                    assert forall|q: int| 0 <= q < new_d.len() implies #[trigger] new_d[q].0 != k by {
                        if q != p {
                            let q0 = if q < p || exists_at_p { q } else { q - 1 };
                            assert(new_entries[q] == old_entries[q0]);
                            assert(old_d[q0].0 == old_entries[q0].0@);
                        }
                    }
                }
            }
        }
        self.entries = entries;
    }
}


impl TomlTable {
    /// A copy with the same entries.
    pub fn deep_clone(&self) -> (r: TomlTable)
        ensures
            r.data() == self.data(),
    {
        let v = TomlValue::Table(TomlTable { entries: Vec::new() });
        proof { reveal(entries_data); }
        let copy = match self.as_value_copy() {
            TomlValue::Table(c) => c,
            _ => TomlTable { entries: Vec::new() },
        };
        copy
    }

    fn as_value_copy(&self) -> (r: TomlValue)
        ensures
            r.data() == TomlData::Table(self.data()),
            r is Table,
    {
        proof { use_type_invariant(self); }
        let mut out: Vec<(String, TomlValue)> = Vec::new();
        let mut i: usize = 0;
        proof { lemma_entries_data(self.entries@); }
        while i < self.entries.len()
            invariant
                i <= self.entries@.len(),
                out@.len() == i,
                keys_sorted(self.entries@),
                forall|j: int| 0 <= j < i ==> #[trigger] out@[j].0@ == self.entries@[j].0@
                    && out@[j].1.data() == self.entries@[j].1.data(),
            decreases self.entries@.len() - i,
        {
            let k = self.entries[i].0.clone();
            let c = self.entries[i].1.deep_clone();
            out.push((k, c));
            i = i + 1;
        }
        proof {
            lemma_entries_data(out@);
            lemma_entries_data(self.entries@);
            reveal(value_data);
        }
        assert(entries_data(out@) =~= entries_data(self.entries@));
        assert(keys_sorted(out@));
        TomlValue::Table(TomlTable { entries: out })
    }
}

/// Whether setting the dotted path `p` inside table data `t` meets a value that is not a table
/// on the way (a proper prefix of `p` names such a value).
pub open spec fn path_blocked(t: Seq<(Seq<char>, TomlData)>, p: Seq<Seq<char>>) -> bool
    decreases p.len(),
{
    p.len() > 1 && match data_get(t, p[0]) {
        Some(TomlData::Table(c)) => path_blocked(c, p.drop_first()),
        Some(_) => true,
        None => false,
    }
}

/// What setting path `p` of table data `t` to `n` gives (`r`): the path now reads `n`, every
/// path below it reads what `n` holds there, and every path that neither lies below `p` nor
/// above it reads what it read before. Tables missing on the way are created.
pub open spec fn set_effect(t: Seq<(Seq<char>, TomlData)>, p: Seq<Seq<char>>, n: TomlData, r: Seq<(Seq<char>, TomlData)>) -> bool {
    &&& data_at(TomlData::Table(r), p) == Some(n)
    &&& forall|q: Seq<Seq<char>>| #![trigger data_at(TomlData::Table(r), q)]
        p.is_prefix_of(q) ==> data_at(TomlData::Table(r), q) == data_at(n, q.skip(p.len() as int))
    &&& forall|q: Seq<Seq<char>>| #![trigger data_at(TomlData::Table(r), q)]
        !p.is_prefix_of(q) && !q.is_prefix_of(p) ==> data_at(TomlData::Table(r), q) == data_at(TomlData::Table(t), q)
}

proof fn lemma_data_at_table(r: Seq<(Seq<char>, TomlData)>, q: Seq<Seq<char>>)
    requires
        q.len() > 0,
    ensures
        data_at(TomlData::Table(r), q) == match data_get(r, q[0]) {
            Some(c) => data_at(c, q.drop_first()),
            None => None,
        },
{
}

proof fn lemma_set_step(
    t: Seq<(Seq<char>, TomlData)>,
    r: Seq<(Seq<char>, TomlData)>,
    p: Seq<Seq<char>>,
    n: TomlData,
    child_new: TomlData,
)
    requires
        p.len() > 0,
        data_get(r, p[0]) == Some(child_new),
        forall|k: Seq<char>| k != p[0] ==> data_get(r, k) == data_get(t, k),
        p.len() == 1 ==> child_new == n,
        p.len() > 1 ==> child_new is Table && set_effect(
            match data_get(t, p[0]) {
                Some(TomlData::Table(c)) => c,
                _ => Seq::empty(),
            },
            p.drop_first(),
            n,
            child_new->Table_0,
        ),
        p.len() > 1 ==> (data_get(t, p[0]) is None || data_get(t, p[0]) matches Some(TomlData::Table(_))),
    ensures
        set_effect(t, p, n, r),
{
    let child_old = match data_get(t, p[0]) {
        Some(TomlData::Table(c)) => c,
        _ => Seq::empty(),
    };
    assert(p.skip(1) =~= p.drop_first());
    lemma_data_at_table(r, p);
    if p.len() == 1 {
        assert(p.drop_first() =~= Seq::<Seq<char>>::empty());
    } else {
        assert(data_at(child_new, p.drop_first()) == Some(n));
    }
    assert forall|q: Seq<Seq<char>>| #![trigger data_at(TomlData::Table(r), q)]
        p.is_prefix_of(q) implies data_at(TomlData::Table(r), q) == data_at(n, q.skip(p.len() as int)) by {
        lemma_data_at_table(r, q);
        assert(q[0] == p[0]);
        if p.len() == 1 {
            assert(q.drop_first() =~= q.skip(1));
        } else {
            assert(p.drop_first().is_prefix_of(q.drop_first()));
            assert(q.drop_first().skip(p.len() - 1) =~= q.skip(p.len() as int));
            let cn = child_new->Table_0;
            assert(child_new == TomlData::Table(cn));
            assert(data_at(TomlData::Table(cn), q.drop_first()) == data_at(n, q.drop_first().skip(p.drop_first().len() as int)));
        }
    }
    assert forall|q: Seq<Seq<char>>| #![trigger data_at(TomlData::Table(r), q)]
        !p.is_prefix_of(q) && !q.is_prefix_of(p) implies data_at(TomlData::Table(r), q) == data_at(TomlData::Table(t), q) by {
        if q.len() == 0 {
            assert(q.is_prefix_of(p));
        }
        lemma_data_at_table(r, q);
        lemma_data_at_table(t, q);
        if q[0] != p[0] {
        } else {
            // same first key: p has more than one key, else p would be a prefix of q
            if p.len() == 1 {
                assert(p.is_prefix_of(q));
            }
            let q1 = q.drop_first();
            let p1 = p.drop_first();
            if p1.is_prefix_of(q1) {
                assert(p =~= seq![p[0]] + p1);
                assert(q.subrange(0, p.len() as int) =~= seq![q[0]] + q1.subrange(0, p1.len() as int));
                assert(p.is_prefix_of(q));
            }
            if q1.is_prefix_of(p1) {
                assert(q.len() > 0);
                assert(p.subrange(0, q.len() as int) =~= seq![p[0]] + p1.subrange(0, q1.len() as int));
                assert(q.is_prefix_of(p));
            }
            let cn = child_new->Table_0;
            assert(child_new == TomlData::Table(cn));
            assert(data_at(TomlData::Table(cn), q1) == data_at(TomlData::Table(child_old), q1));
            match data_get(t, p[0]) {
                Some(TomlData::Table(c)) => {
                    assert(c == child_old);
                },
                _ => {
                    // a missing table reads nothing below it
                    assert(data_get(t, p[0]) is None);
                    assert(data_at(TomlData::Table(child_old), q1) == data_at(TomlData::Table(Seq::empty()), q1));
                    if q1.len() > 0 {
                        lemma_data_at_table(Seq::empty(), q1);
                    } else {
                        assert(q1.is_prefix_of(p1));
                    }
                },
            }
        }
    }
}

/// The first key on the way of setting path `p` in table data `t` that names a value that is
/// not a table (see `path_blocked`).
pub open spec fn blocking_key(t: Seq<(Seq<char>, TomlData)>, p: Seq<Seq<char>>) -> Option<Seq<char>>
    decreases p.len(),
{
    if p.len() > 1 {
        match data_get(t, p[0]) {
            Some(TomlData::Table(c)) => blocking_key(c, p.drop_first()),
            Some(_) => Some(p[0]),
            None => None,
        }
    } else {
        None
    }
}

/// The message of a key that names a value that is not a table: `'<key>' is not a table`.
pub open spec fn not_a_table(key: Seq<char>) -> Seq<char> {
    seq!['\''] + key + "' is not a table"@
}

fn not_a_table_message(key: &String) -> (m: String)
    ensures
        m@ == not_a_table(key@),
{
    let mut m = String::new();
    push_char(&mut m, '\'');
    m.append(key.as_str());
    m.append("' is not a table");
    m
}

/// Sets the dotted path `path[i..]` of table `t` to `new_value`, creating missing tables on
/// the way; fails when a value on the way is not a table.
fn set_in_table(t: &TomlTable, path: &Vec<String>, i: usize, new_value: TomlValue) -> (r: Result<TomlTable, String>)
    requires
        i < path@.len(),
    ensures
        r is Ok <==> !path_blocked(t.data(), views(path@).skip(i as int)),
        r matches Ok(nt) ==> set_effect(t.data(), views(path@).skip(i as int), new_value.data(), nt.data()),
        r matches Err(m) ==> (blocking_key(t.data(), views(path@).skip(i as int)) matches Some(k) && m@ == not_a_table(k)),
    decreases path@.len() - i,
{
    let ghost p = views(path@).skip(i as int);
    let ghost nd = new_value.data();
    assert(p.len() == path@.len() - i);
    assert(p[0] == path@[i as int]@);
    let mut r = t.deep_clone();
    let ghost r0 = r;
    if i == path.len() - 1 {
        let key = path[i].clone();
        assert(key@ == p[0]);
        r.insert(key, new_value);
        proof {
            assert(p.len() == 1);
            assert forall|k: Seq<char>| k != p[0] implies data_get(r.data(), k) == data_get(t.data(), k) by {
                assert(r.lookup(k) == r0.lookup(k));
            }
            lemma_set_step(t.data(), r.data(), p, nd, nd);
        }
        return Ok(r);
    }
    assert(p.drop_first() =~= views(path@).skip(i + 1));
    let child: TomlTable = match t.get(path[i].as_str()) {
        None => TomlTable::new(),
        Some(v) => match v.as_table() {
            Some(c) => c.deep_clone(),
            None => {
                return Err(not_a_table_message(&path[i]));
            },
        },
    };
    let ghost child_old = child.data();
    match set_in_table(&child, path, i + 1, new_value) {
        Ok(new_child) => {
            let ghost cn = new_child.data();
            let cv = TomlValue::from_table(new_child);
            let key = path[i].clone();
            assert(key@ == p[0]);
            r.insert(key, cv);
            proof {
                assert forall|k: Seq<char>| k != p[0] implies data_get(r.data(), k) == data_get(t.data(), k) by {
                    assert(r.lookup(k) == r0.lookup(k));
                }
                if t.lookup(p[0]) is None {
                    assert(child_old.len() == 0);
                    assert(child_old =~= Seq::<(Seq<char>, TomlData)>::empty());
                    // an empty table blocks nothing
                    assert(!path_blocked(child_old, p.drop_first())) by {
                        if p.drop_first().len() > 1 {
                            assert(data_get(child_old, p.drop_first()[0]) is None);
                        }
                    }
                }
                lemma_set_step(t.data(), r.data(), p, nd, TomlData::Table(cn));
            }
            Ok(r)
        },
        Err(e) => {
            proof {
                if t.lookup(p[0]) is None {
                    if p.drop_first().len() > 1 {
                        assert(data_get(child_old, p.drop_first()[0]) is None);
                    }
                }
            }
            Err(e)
        },
    }
}

/// The value at the dotted path `path` (`path` split at dots), if every step finds a table.
pub fn get_path<'a>(value: &'a TomlValue, path: &Vec<String>) -> (r: Option<&'a TomlValue>)
    ensures
        match r {
            Some(v) => data_at(value.data(), views(path@)) == Some(v.data()),
            None => data_at(value.data(), views(path@)) is None,
        },
{
    let mut current = value;
    let mut i: usize = 0;
    assert(views(path@).skip(0) =~= views(path@));
    while i < path.len()
        invariant
            i <= path@.len(),
            data_at(value.data(), views(path@)) == data_at(current.data(), views(path@).skip(i as int)),
        decreases path@.len() - i,
    {
        let ghost p = views(path@).skip(i as int);
        assert(p[0] == path@[i as int]@);
        assert(p.drop_first() =~= views(path@).skip(i + 1));
        match current.as_table() {
            Some(t) => match t.get(path[i].as_str()) {
                Some(v) => {
                    current = v;
                },
                None => {
                    return None;
                },
            },
            None => {
                return None;
            },
        }
        i = i + 1;
    }
    assert(views(path@).skip(i as int) =~= Seq::<Seq<char>>::empty());
    Some(current)
}

/// Sets the dotted path `path` of `value` to `new_value`; the root must be a table, and every
/// value met on the way must be a table or missing (missing tables are created).
pub fn set_path(value: &TomlValue, path: &Vec<String>, new_value: TomlValue) -> (r: Result<TomlValue, String>)
    requires
        path@.len() > 0,
    ensures
        r is Ok <==> (value.data() is Table && !path_blocked(value.data()->Table_0, views(path@))),
        r matches Ok(nv) ==> nv.data() is Table && set_effect(
            value.data()->Table_0,
            views(path@),
            new_value.data(),
            nv.data()->Table_0,
        ),
        r matches Err(m) ==> if value.data() is Table {
            blocking_key(value.data()->Table_0, views(path@)) matches Some(k) && m@ == not_a_table(k)
        } else {
            m@ == "root is not a table"@
        },
{
    assert(views(path@).skip(0) =~= views(path@));
    match value.as_table() {
        Some(t) => match set_in_table(t, path, 0, new_value) {
            Ok(nt) => Ok(TomlValue::from_table(nt)),
            Err(e) => Err(e),
        },
        None => {
            let m = "root is not a table".to_owned();
            Err(m)
        },
    }
}


/// The `toml` crate's value type.
#[verifier::external_type_specification]
#[verifier::external_body]
pub struct ExTomlValue(toml::Value);

/// What the `toml` crate reads from a document, as data; `None` when it rejects the text.
pub uninterp spec fn toml_document(text: Seq<char>) -> Option<TomlData>;

/// The message the `toml` crate gives for a text it rejects.
pub uninterp spec fn toml_error(text: Seq<char>) -> Seq<char>;

/// Converts a value of the `toml` crate, variant by variant; a float is kept as the text the
/// crate writes for it, and a table's entries come in the order of its `BTreeMap` (increasing
/// keys).
#[verifier::external_body]
fn from_toml(v: toml::Value) -> TomlValue {
    match v {
        toml::Value::String(s) => TomlValue::Str(s),
        toml::Value::Integer(i) => TomlValue::Int(i),
        toml::Value::Float(f) => TomlValue::Float(toml::Value::Float(f).to_string()),
        toml::Value::Boolean(b) => TomlValue::Bool(b),
        toml::Value::Datetime(d) => TomlValue::Datetime(d.to_string()),
        toml::Value::Array(a) => TomlValue::Array(a.into_iter().map(from_toml).collect()),
        toml::Value::Table(t) => TomlValue::Table(
            TomlTable { entries: t.into_iter().map(|(k, x)| (k, from_toml(x))).collect() },
        ),
    }
}

/// Parses a TOML document with `toml::from_str::<toml::Value>`.
///
/// Trusted: the result is the document the `toml` crate reads, named `toml_document` and not
/// written out; a document's root is a table. On rejection the error is the crate's message,
/// named `toml_error`.
#[verifier::external_body]
pub fn parse_toml(text: &str) -> (r: Result<TomlValue, String>)
    ensures
        match r {
            Ok(v) => toml_document(text@) == Some(v.data()) && v.data() is Table,
            Err(e) => toml_document(text@) is None && e@ == toml_error(text@),
        },
{
    match toml::from_str::<toml::Value>(text) {
        Ok(v) => Ok(from_toml(v)),
        Err(e) => Err(e.to_string()),
    }
}

} // verus!
