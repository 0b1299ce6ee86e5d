//! Dynamic values: the structured results of queries and the open-ended
//! properties of nodes and blocks.

use vstd::prelude::*;

verus! {

/// A list of named values. A name is looked up from the front, so where a
/// name occurs twice the first entry is the one that counts.
#[derive(Clone, Debug, PartialEq)]
pub struct StringMap<V> {
    pub entries: Vec<(String, V)>,
}

/// The index of the first entry of `entries` at or after `from` whose name
/// is `key`, or `entries.len()` when there is none.
pub open spec fn position_from<V>(entries: Seq<(String, V)>, key: Seq<char>, from: int) -> int
    decreases entries.len() - from,
{
    if from < 0 || from >= entries.len() {
        entries.len() as int
    } else if entries[from].0@ == key {
        from
    } else {
        position_from(entries, key, from + 1)
    }
}

/// The value that `entries` holds under `key`.
pub open spec fn lookup<V>(entries: Seq<(String, V)>, key: Seq<char>) -> Option<V> {
    let i = position_from(entries, key, 0);
    if i < entries.len() {
        Some(entries[i].1)
    } else {
        None
    }
}

/// `entries` with `value` under `key`: in the place of the first entry of
/// that name, or at the end when there is none.
pub open spec fn with_entry<V>(entries: Seq<(String, V)>, key: String, value: V) -> Seq<
    (String, V),
> {
    let i = position_from(entries, key@, 0);
    if i < entries.len() {
        entries.update(i, (key, value))
    } else {
        entries.push((key, value))
    }
}

/// Whether every name occurs once: every entry is the first of its name.
pub open spec fn names_distinct<V>(entries: Seq<(String, V)>) -> bool {
    forall|i: int|
        0 <= i < entries.len() ==> position_from(entries, (#[trigger] entries[i]).0@, 0) == i
}

/// The places of those of the first `n` entries that are the first of their
/// name, in their order.
pub open spec fn first_places<V>(entries: Seq<(String, V)>, n: int) -> Seq<int>
    decreases n,
{
    if n <= 0 || n > entries.len() {
        Seq::empty()
    } else if position_from(entries, entries[n - 1].0@, 0) == n - 1 {
        first_places(entries, n - 1).push(n - 1)
    } else {
        first_places(entries, n - 1)
    }
}

/// Whether one of the names is `t`.
pub open spec fn holds_name(names: Seq<&String>, t: Seq<char>) -> bool {
    exists|k: int| 0 <= k < names.len() && (#[trigger] names[k])@ == t
}

/// Whether `names` are the names of `entries`: each name once, at the place
/// of its first entry, so that a name is listed exactly if there is a value
/// under it. Where every name occurs once these are the names of all
/// entries in their order.
pub open spec fn lists_names_of<V>(names: Seq<&String>, entries: Seq<(String, V)>) -> bool {
    let places = first_places(entries, entries.len() as int);
    &&& names.len() == places.len()
    &&& forall|k: int|
        0 <= k < names.len() ==> 0 <= places[k] < entries.len() && *(#[trigger] names[k])
            == entries[places[k]].0
    &&& forall|i: int, j: int|
        0 <= i < j < names.len() ==> (#[trigger] names[i])@ != (#[trigger] names[j])@
    &&& forall|t: Seq<char>|
        #[trigger] holds_name(names, t) <==> position_from(entries, t, 0) < entries.len()
    &&& names_distinct(entries) ==> names.len() == entries.len() && forall|k: int|
        0 <= k < names.len() ==> *(#[trigger] names[k]) == entries[k].0
}

/// After a value was put under a name, the lookup of that name finds it.
pub proof fn lemma_lookup_after_insert<V>(entries: Seq<(String, V)>, key: String, value: V)
    ensures
        lookup(with_entry(entries, key, value), key@) == Some(value),
        with_entry(entries, key, value).len() == if position_from(entries, key@, 0)
            < entries.len() {
            entries.len()
        } else {
            entries.len() + 1
        },
{
    let after = with_entry(entries, key, value);
    let i = position_from(entries, key@, 0);
    lemma_position_bounds(entries, key@, 0);
    lemma_position_same_prefix(entries, after, key@, 0, i);
}

/// `position_from` answers with an index from `from` to the length; below
/// the length it names an entry of that name, and no entry before it has
/// the name.
pub proof fn lemma_position_bounds<V>(entries: Seq<(String, V)>, key: Seq<char>, from: int)
    requires
        0 <= from <= entries.len(),
    ensures
        from <= position_from(entries, key, from) <= entries.len(),
        position_from(entries, key, from) < entries.len() ==> entries[position_from(
            entries,
            key,
            from,
        )].0@ == key,
        forall|j: int| from <= j < position_from(entries, key, from) ==> entries[j].0@ != key,
    decreases entries.len() - from,
{
    if from < entries.len() && entries[from].0@ != key {
        lemma_position_bounds(entries, key, from + 1);
    }
}

/// Where two lists agree on the names before `stop`, and the second has an
/// entry named `key` at `stop`, the search in the second ends at `stop` if
/// the first has no such name before it.
pub proof fn lemma_position_same_prefix<V>(
    a: Seq<(String, V)>,
    b: Seq<(String, V)>,
    key: Seq<char>,
    from: int,
    stop: int,
)
    requires
        0 <= from <= stop,
        stop <= a.len(),
        stop < b.len(),
        b[stop].0@ == key,
        forall|j: int| from <= j < stop ==> a[j].0@ != key && b[j].0@ == a[j].0@,
    ensures
        position_from(b, key, from) == stop,
    decreases stop - from,
{
    if from < stop {
        lemma_position_same_prefix(a, b, key, from + 1, stop);
    }
}


/// The places that `first_places` lists are places of the list, each the
/// first of its name, in rising order; every such place is listed; and
/// where every name occurs once every place is listed.
pub proof fn lemma_first_places<V>(entries: Seq<(String, V)>, n: int)
    requires
        0 <= n <= entries.len(),
    ensures
        first_places(entries, n).len() <= n,
        forall|k: int|
            0 <= k < first_places(entries, n).len() ==> {
                let p = #[trigger] first_places(entries, n)[k];
                0 <= p < n && position_from(entries, entries[p].0@, 0) == p
            },
        forall|k: int, l: int|
            0 <= k < l < first_places(entries, n).len() ==> first_places(entries, n)[k]
                < first_places(entries, n)[l],
        forall|p: int|
            0 <= p < n && position_from(entries, (#[trigger] entries[p]).0@, 0) == p
                ==> first_places(entries, n).contains(p),
        names_distinct(entries) ==> first_places(entries, n).len() == n && forall|k: int|
            0 <= k < n ==> #[trigger] first_places(entries, n)[k] == k,
    decreases n,
{
    if n > 0 {
        lemma_first_places(entries, n - 1);
        let before = first_places(entries, n - 1);
        let now = first_places(entries, n);
        assert forall|p: int|
            0 <= p < n && position_from(entries, (#[trigger] entries[p]).0@, 0)
                == p implies now.contains(p) by {
            if p < n - 1 {
                let k = choose|k: int| 0 <= k < before.len() && before[k] == p;
                assert(now[k] == p);
            } else {
                assert(now[now.len() - 1] == p);
            }
        }
    }
}

/// Putting a value under a name keeps every name at one place.
pub proof fn lemma_with_entry_keeps_names_distinct<V>(
    entries: Seq<(String, V)>,
    key: String,
    value: V,
)
    ensures
        names_distinct(entries) ==> names_distinct(with_entry(entries, key, value)),
{
    if names_distinct(entries) {
        let after = with_entry(entries, key, value);
        let i = position_from(entries, key@, 0);
        lemma_position_bounds(entries, key@, 0);
        assert forall|j: int| 0 <= j < after.len() implies position_from(
            after,
            (#[trigger] after[j]).0@,
            0,
        ) == j by {
            if j < entries.len() {
                assert(after[j].0@ == entries[j].0@);
                let name = entries[j].0@;
                assert(position_from(entries, name, 0) == j);
                lemma_position_bounds(entries, name, 0);
                lemma_position_same_prefix(entries, after, name, 0, j);
            } else {
                lemma_position_same_prefix(entries, after, key@, 0, j);
            }
        }
    }
}

impl<V> StringMap<V> {
    /// Whether every name occurs once. A list that is made by `new` and
    /// filled by `insert` is of this kind.
    pub open spec fn well_formed(&self) -> bool {
        names_distinct(self.entries@)
    }

    /// The names, each once, in the order of the entries.
    pub fn names(&self) -> (r: Vec<&String>)
        ensures
            lists_names_of(r@, self.entries@),
    {
        let mut names: Vec<&String> = Vec::new();
        let mut i: usize = 0;
        while i < self.entries.len()
            invariant
                i <= self.entries.len(),
                names.len() == first_places(self.entries@, i as int).len(),
                forall|k: int|
                    0 <= k < names.len() ==> 0 <= (#[trigger] first_places(
                        self.entries@,
                        i as int,
                    )[k]) < i,
                forall|k: int|
                    0 <= k < names.len() ==> *(#[trigger] names[k]) == self.entries[first_places(
                        self.entries@,
                        i as int,
                    )[k]].0,
            decreases self.entries.len() - i,
        {
            let first = self.position(self.entries[i].0.as_str());
            let ghost before = first_places(self.entries@, i as int);
            let ghost now = first_places(self.entries@, i + 1);
            let ghost earlier = names@;
            if first == i {
                names.push(&self.entries[i].0);
                assert(now == before.push(i as int));
            } else {
                assert(now == before);
            }
            assert forall|k: int| 0 <= k < names.len() implies 0 <= now[k] < i + 1 && *(
            #[trigger] names[k]) == self.entries[now[k]].0 by {
                if k < before.len() {
                    assert(now[k] == before[k]);
                    assert(names[k] == earlier[k]);
                    assert(0 <= before[k] < i && *earlier[k] == self.entries[before[k]].0);
                } else {
                    assert(now[k] == i);
                    assert(*names[k] == self.entries[i as int].0);
                }
            }
            i += 1;
            assert(now == first_places(self.entries@, i as int));
        }
        proof {
            let entries = self.entries@;
            let n = entries.len() as int;
            let places = first_places(entries, n);
            lemma_first_places(entries, n);
            assert forall|a: int, b: int| 0 <= a < b < names.len() implies (#[trigger] names[a])@
                != (#[trigger] names[b])@ by {
                assert(places[a] < places[b]);
            }
            assert forall|t: Seq<char>| #[trigger]
                holds_name(names@, t) <==> position_from(entries, t, 0) < entries.len() by {
                lemma_position_bounds(entries, t, 0);
                if holds_name(names@, t) {
                    let k = choose|k: int| 0 <= k < names.len() && (#[trigger] names[k])@ == t;
                    assert(entries[places[k]].0@ == t);
                }
                let p = position_from(entries, t, 0);
                if p < entries.len() {
                    assert(position_from(entries, entries[p].0@, 0) == p);
                    assert(places.contains(p));
                    let k = choose|k: int| 0 <= k < places.len() && places[k] == p;
                    assert(names[k]@ == t);
                }
            }
        }
        names
    }
}

impl<V> StringMap<V> {
    /// The value under `key`, if there is one.
    pub open spec fn spec_get(&self, key: Seq<char>) -> Option<V> {
        lookup(self.entries@, key)
    }

    /// Whether there is a value under `key`.
    pub open spec fn has(&self, key: Seq<char>) -> bool {
        position_from(self.entries@, key, 0) < self.entries.len()
    }

    /// A list without entries.
    pub fn new() -> (r: Self)
        ensures
            r.entries@ == Seq::<(String, V)>::empty(),
            r.well_formed(),
    {
        StringMap { entries: Vec::new() }
    }

    /// The number of entries.
    pub fn len(&self) -> (r: usize)
        ensures
            r == self.entries.len(),
    {
        self.entries.len()
    }

    /// The index of the first entry named `key`, or the number of entries.
    pub fn position(&self, key: &str) -> (r: usize)
        ensures
            r as int == position_from(self.entries@, key@, 0),
            r <= self.entries.len(),
    {
        let wanted = key.to_owned();
        let mut i: usize = 0;
        while i < self.entries.len()
            invariant
                i <= self.entries.len(),
                wanted@ == key@,
                position_from(self.entries@, key@, 0) == position_from(
                    self.entries@,
                    key@,
                    i as int,
                ),
            decreases self.entries.len() - i,
        {
            if self.entries[i].0 == wanted {
                return i;
            }
            i += 1;
        }
        i
    }

    /// The value under `key`.
    pub fn get(&self, key: &str) -> (r: Option<&V>)
        ensures
            match r {
                Some(v) => self.spec_get(key@) == Some(*v),
                None => self.spec_get(key@) is None,
            },
    {
        let i = self.position(key);
        if i < self.entries.len() {
            Some(&self.entries[i].1)
        } else {
            None
        }
    }

    /// Whether there is a value under `key`.
    pub fn contains_key(&self, key: &str) -> (r: bool)
        ensures
            r == self.has(key@),
    {
        self.position(key) < self.entries.len()
    }

    /// Puts `value` under `key`, in the place of an earlier value of that
    /// name if there is one.
    pub fn insert(&mut self, key: String, value: V)
        ensures
            final(self).entries@ == with_entry(old(self).entries@, key, value),
            old(self).well_formed() ==> final(self).well_formed(),
    {
        proof {
            lemma_with_entry_keeps_names_distinct(self.entries@, key, value);
        }
        let i = self.position(key.as_str());
        if i < self.entries.len() {
            self.entries.set(i, (key, value));
        } else {
            self.entries.push((key, value));
        }
    }
}

/// An IEEE 754 binary64 number, held by its bit pattern: one sign bit,
/// eleven exponent bits, fifty-two fraction bits.
#[derive(Clone, Copy, Debug, PartialEq, Eq)]
pub struct Float {
    pub bits: u64,
}

impl Float {
    /// The number with the given bit pattern.
    pub fn from_bits(bits: u64) -> (r: Self)
        ensures
            r.bits == bits,
    {
        Float { bits }
    }

    /// The bit pattern.
    pub fn to_bits(&self) -> (r: u64)
        ensures
            r == self.bits,
    {
        self.bits
    }

    /// The sign bit: true for negative numbers and negative zero.
    pub open spec fn sign(&self) -> bool {
        self.bits >= 0x8000_0000_0000_0000
    }

    /// The exponent field, from 0 to 2047.
    pub open spec fn exponent(&self) -> int {
        (self.bits as int / 0x10_0000_0000_0000) % 0x800
    }

    /// The fraction field, below 2^52.
    pub open spec fn fraction(&self) -> int {
        self.bits as int % 0x10_0000_0000_0000
    }

    /// Whether the number is neither an infinity nor a NaN.
    pub open spec fn finite(&self) -> bool {
        self.exponent() != 0x7FF
    }

    /// Whether the number is a NaN.
    pub open spec fn nan(&self) -> bool {
        self.exponent() == 0x7FF && self.fraction() != 0
    }

    /// Whether the number is neither an infinity nor a NaN.
    pub fn is_finite(&self) -> (r: bool)
        ensures
            r == self.finite(),
    {
        (self.bits / 0x10_0000_0000_0000) % 0x800 != 0x7FF
    }

    /// Whether the number is a NaN.
    pub fn is_nan(&self) -> (r: bool)
        ensures
            r == self.nan(),
    {
        (self.bits / 0x10_0000_0000_0000) % 0x800 == 0x7FF && self.bits % 0x10_0000_0000_0000 != 0
    }
}

/// A number of a structured value: a non-negative integer, a negative
/// integer, or a finite binary64 number.
#[derive(Clone, Copy, Debug, PartialEq, Eq)]
pub enum Number {
    PosInt(u64),
    NegInt(i64),
    Float(Float),
}

/// The number that stands for a signed integer: negative ones apart from
/// the others.
pub open spec fn number_of_int(i: i64) -> Number {
    if i < 0 {
        Number::NegInt(i)
    } else {
        Number::PosInt(i as u64)
    }
}

impl Number {
    /// The number for a signed integer.
    pub fn from_i64(i: i64) -> (r: Number)
        ensures
            r == number_of_int(i),
    {
        if i < 0 {
            Number::NegInt(i)
        } else {
            Number::PosInt(i as u64)
        }
    }

    /// The number for an unsigned integer.
    pub fn from_u64(n: u64) -> (r: Number)
        ensures
            r == Number::PosInt(n),
    {
        Number::PosInt(n)
    }

    /// The number for a binary64 value; there is none for an infinity or a
    /// NaN.
    pub fn from_float(f: Float) -> (r: Option<Number>)
        ensures
            r == if f.finite() {
                Some(Number::Float(f))
            } else {
                None::<Number>
            },
    {
        if f.is_finite() {
            Some(Number::Float(f))
        } else {
            None
        }
    }
}

/// A structured value: the result of a query.
#[derive(Debug, PartialEq)]
pub enum JsonValue {
    Null,
    Bool(bool),
    Number(Number),
    String(String),
    Array(Vec<JsonValue>),
    Object(Vec<(String, JsonValue)>),
}

/// What a structured value holds, with sequences of characters for strings.
pub enum JsonView {
    Null,
    Bool(bool),
    Number(Number),
    String(Seq<char>),
    Array(Seq<JsonView>),
    Object(Seq<(Seq<char>, JsonView)>),
}

/// What `v` holds.
pub open spec fn json_view(v: JsonValue) -> JsonView
    decreases v,
{
    match v {
        JsonValue::Null => JsonView::Null,
        JsonValue::Bool(b) => JsonView::Bool(b),
        JsonValue::Number(n) => JsonView::Number(n),
        JsonValue::String(s) => JsonView::String(s@),
        JsonValue::Array(items) => JsonView::Array(
            Seq::new(
                items.len() as nat,
                |i: int|
                    if 0 <= i < items.len() {
                        json_view(items[i])
                    } else {
                        JsonView::Null
                    },
            ),
        ),
        JsonValue::Object(members) => JsonView::Object(
            Seq::new(
                members.len() as nat,
                |i: int|
                    if 0 <= i < members.len() {
                        (members[i].0@, json_view(members[i].1))
                    } else {
                        (Seq::empty(), JsonView::Null)
                    },
            ),
        ),
    }
}

impl View for JsonValue {
    type V = JsonView;

    open spec fn view(&self) -> JsonView {
        json_view(*self)
    }
}

impl Clone for JsonValue {
    /// A copy that holds the same as `self`.
    #[verifier::loop_isolation(false)]
    fn clone(&self) -> (r: Self)
        ensures
            r@ == self@,
        decreases self,
    {
        match self {
            JsonValue::Null => JsonValue::Null,
            JsonValue::Bool(b) => JsonValue::Bool(*b),
            JsonValue::Number(n) => JsonValue::Number(*n),
            JsonValue::String(s) => JsonValue::String(s.clone()),
            JsonValue::Array(items) => {
                let mut copy: Vec<JsonValue> = Vec::new();
                let mut i: usize = 0;
                while i < items.len()
                    invariant
                        i <= items.len(),
                        copy.len() == i,
                        forall|j: int| 0 <= j < i ==> copy[j]@ == items[j]@,
                    decreases items.len() - i,
                {
                    copy.push(items[i].clone());
                    i += 1;
                }
                let r = JsonValue::Array(copy);
                assert(r@ == self@) by {
                    assert(r@->Array_0 =~= self@->Array_0);
                }
                r
            },
            JsonValue::Object(members) => {
                let mut copy: Vec<(String, JsonValue)> = Vec::new();
                let mut i: usize = 0;
                while i < members.len()
                    invariant
                        i <= members.len(),
                        copy.len() == i,
                        forall|j: int|
                            0 <= j < i ==> copy[j].0@ == members[j].0@ && copy[j].1@
                                == members[j].1@,
                    decreases members.len() - i,
                {
                    copy.push((members[i].0.clone(), members[i].1.clone()));
                    i += 1;
                }
                let r = JsonValue::Object(copy);
                assert(r@ == self@) by {
                    assert(r@->Object_0 =~= self@->Object_0);
                }
                r
            },
        }
    }
}

/// A property value as a settings file gives it.
#[derive(Debug, PartialEq)]
pub enum TomlValue {
    String(String),
    Integer(i64),
    Float(Float),
    Boolean(bool),
    /// A date or time, held as the text that stands for it.
    Datetime(String),
    Array(Vec<TomlValue>),
    Table(Vec<(String, TomlValue)>),
}

/// What a property value holds, with sequences of characters for strings.
pub enum TomlView {
    String(Seq<char>),
    Integer(i64),
    Float(Float),
    Boolean(bool),
    Datetime(Seq<char>),
    Array(Seq<TomlView>),
    Table(Seq<(Seq<char>, TomlView)>),
}

/// What `v` holds.
pub open spec fn toml_view(v: TomlValue) -> TomlView
    decreases v,
{
    match v {
        TomlValue::String(s) => TomlView::String(s@),
        TomlValue::Integer(i) => TomlView::Integer(i),
        TomlValue::Float(f) => TomlView::Float(f),
        TomlValue::Boolean(b) => TomlView::Boolean(b),
        TomlValue::Datetime(s) => TomlView::Datetime(s@),
        TomlValue::Array(items) => TomlView::Array(
            Seq::new(
                items.len() as nat,
                |i: int|
                    if 0 <= i < items.len() {
                        toml_view(items[i])
                    } else {
                        TomlView::Boolean(false)
                    },
            ),
        ),
        TomlValue::Table(entries) => TomlView::Table(
            Seq::new(
                entries.len() as nat,
                |i: int|
                    if 0 <= i < entries.len() {
                        (entries[i].0@, toml_view(entries[i].1))
                    } else {
                        (Seq::empty(), TomlView::Boolean(false))
                    },
            ),
        ),
    }
}

impl View for TomlValue {
    type V = TomlView;

    open spec fn view(&self) -> TomlView {
        toml_view(*self)
    }
}

impl Clone for TomlValue {
    /// A copy that holds the same as `self`.
    #[verifier::loop_isolation(false)]
    fn clone(&self) -> (r: Self)
        ensures
            r@ == self@,
        decreases self,
    {
        match self {
            TomlValue::String(s) => TomlValue::String(s.clone()),
            TomlValue::Integer(i) => TomlValue::Integer(*i),
            TomlValue::Float(f) => TomlValue::Float(*f),
            TomlValue::Boolean(b) => TomlValue::Boolean(*b),
            TomlValue::Datetime(s) => TomlValue::Datetime(s.clone()),
            TomlValue::Array(items) => {
                let mut copy: Vec<TomlValue> = Vec::new();
                let mut i: usize = 0;
                while i < items.len()
                    invariant
                        i <= items.len(),
                        copy.len() == i,
                        forall|j: int| 0 <= j < i ==> copy[j]@ == items[j]@,
                    decreases items.len() - i,
                {
                    copy.push(items[i].clone());
                    i += 1;
                }
                let r = TomlValue::Array(copy);
                assert(r@ == self@) by {
                    assert(r@->Array_0 =~= self@->Array_0);
                }
                r
            },
            TomlValue::Table(entries) => {
                let mut copy: Vec<(String, TomlValue)> = Vec::new();
                let mut i: usize = 0;
                while i < entries.len()
                    invariant
                        i <= entries.len(),
                        copy.len() == i,
                        forall|j: int|
                            0 <= j < i ==> copy[j].0@ == entries[j].0@ && copy[j].1@
                                == entries[j].1@,
                    decreases entries.len() - i,
                {
                    copy.push((entries[i].0.clone(), entries[i].1.clone()));
                    i += 1;
                }
                let r = TomlValue::Table(copy);
                assert(r@ == self@) by {
                    assert(r@->Table_0 =~= self@->Table_0);
                }
                r
            },
        }
    }
}

/// The structured value that stands for a property value. Integers and
/// finite numbers stay numbers, an infinity or a NaN becomes null, a date
/// becomes its text, and lists and tables are converted entry by entry.
pub open spec fn json_of_toml(v: TomlView) -> JsonView
    decreases v,
{
    match v {
        TomlView::String(s) => JsonView::String(s),
        TomlView::Integer(i) => JsonView::Number(number_of_int(i)),
        TomlView::Float(f) => if f.finite() {
            JsonView::Number(Number::Float(f))
        } else {
            JsonView::Null
        },
        TomlView::Boolean(b) => JsonView::Bool(b),
        TomlView::Datetime(s) => JsonView::String(s),
        TomlView::Array(items) => JsonView::Array(
            Seq::new(
                items.len(),
                |i: int|
                    if 0 <= i < items.len() {
                        json_of_toml(items[i])
                    } else {
                        JsonView::Null
                    },
            ),
        ),
        TomlView::Table(entries) => JsonView::Object(
            Seq::new(
                entries.len(),
                |i: int|
                    if 0 <= i < entries.len() {
                        (entries[i].0, json_of_toml(entries[i].1))
                    } else {
                        (Seq::empty(), JsonView::Null)
                    },
            ),
        ),
    }
}

/// What the view of a list value holds: the views of its items.
pub proof fn lemma_json_array_view(v: JsonValue)
    requires
        v is Array,
    ensures
        v@ is Array,
        v@->Array_0.len() == v->Array_0.len(),
        forall|i: int| 0 <= i < v->Array_0.len() ==> (#[trigger] v@->Array_0[i]) == v->Array_0[i]@,
{
    let items = v->Array_0;
    let sq = Seq::new(
        items.len() as nat,
        |i: int|
            if 0 <= i < items.len() {
                json_view(items[i])
            } else {
                JsonView::Null
            },
    );
    assert(sq.len() == items.len());
    assert(v@->Array_0.len() == sq.len());
    assert forall|i: int| 0 <= i < sq.len() implies v@->Array_0[i] == sq[i] by {
        assert(sq[i] == items[i]@);
    }
    assert(v@->Array_0 =~= sq);
}

/// What the view of an object value holds: the names and the views of its
/// members.
pub proof fn lemma_json_object_view(v: JsonValue)
    requires
        v is Object,
    ensures
        v@ is Object,
        v@->Object_0.len() == v->Object_0.len(),
        forall|i: int|
            0 <= i < v->Object_0.len() ==> (#[trigger] v@->Object_0[i]) == (
                v->Object_0[i].0@,
                v->Object_0[i].1@,
            ),
{
    let members = v->Object_0;
    let sq = Seq::new(
        members.len() as nat,
        |i: int|
            if 0 <= i < members.len() {
                (members[i].0@, json_view(members[i].1))
            } else {
                (Seq::empty(), JsonView::Null)
            },
    );
    assert(sq.len() == members.len());
    assert(v@->Object_0.len() == sq.len());
    assert forall|i: int| 0 <= i < sq.len() implies v@->Object_0[i] == sq[i] by {
        assert(sq[i] == (members[i].0@, members[i].1@));
    }
    assert(v@->Object_0 =~= sq);
}

/// What the view of a list of property values holds.
pub proof fn lemma_toml_array_view(v: TomlValue)
    requires
        v is Array,
    ensures
        v@ is Array,
        v@->Array_0.len() == v->Array_0.len(),
        forall|i: int| 0 <= i < v->Array_0.len() ==> (#[trigger] v@->Array_0[i]) == v->Array_0[i]@,
{
    let items = v->Array_0;
    let sq = Seq::new(
        items.len() as nat,
        |i: int|
            if 0 <= i < items.len() {
                toml_view(items[i])
            } else {
                TomlView::Boolean(false)
            },
    );
    assert(sq.len() == items.len());
    assert(v@->Array_0.len() == sq.len());
    assert forall|i: int| 0 <= i < sq.len() implies v@->Array_0[i] == sq[i] by {
        assert(sq[i] == items[i]@);
    }
    assert(v@->Array_0 =~= sq);
}

/// What the view of a table of property values holds.
pub proof fn lemma_toml_table_view(v: TomlValue)
    requires
        v is Table,
    ensures
        v@ is Table,
        v@->Table_0.len() == v->Table_0.len(),
        forall|i: int|
            0 <= i < v->Table_0.len() ==> (#[trigger] v@->Table_0[i]) == (
                v->Table_0[i].0@,
                v->Table_0[i].1@,
            ),
{
    let entries = v->Table_0;
    let sq = Seq::new(
        entries.len() as nat,
        |i: int|
            if 0 <= i < entries.len() {
                (entries[i].0@, toml_view(entries[i].1))
            } else {
                (Seq::empty(), TomlView::Boolean(false))
            },
    );
    assert(sq.len() == entries.len());
    assert(v@->Table_0.len() == sq.len());
    assert forall|i: int| 0 <= i < sq.len() implies v@->Table_0[i] == sq[i] by {
        assert(sq[i] == (entries[i].0@, entries[i].1@));
    }
    assert(v@->Table_0 =~= sq);
}

/// A list of property values becomes the list of what its items become.
pub proof fn lemma_json_of_toml_array(v: TomlView)
    requires
        v is Array,
    ensures
        json_of_toml(v) is Array,
        json_of_toml(v)->Array_0.len() == v->Array_0.len(),
        forall|i: int|
            0 <= i < v->Array_0.len() ==> (#[trigger] json_of_toml(v)->Array_0[i]) == json_of_toml(
                v->Array_0[i],
            ),
{
    let items = v->Array_0;
    let sq = Seq::new(
        items.len(),
        |i: int|
            if 0 <= i < items.len() {
                json_of_toml(items[i])
            } else {
                JsonView::Null
            },
    );
    assert(sq.len() == items.len());
    assert(json_of_toml(v)->Array_0 =~= sq);
}

/// A table of property values becomes an object with the same names.
pub proof fn lemma_json_of_toml_table(v: TomlView)
    requires
        v is Table,
    ensures
        json_of_toml(v) is Object,
        json_of_toml(v)->Object_0.len() == v->Table_0.len(),
        forall|i: int|
            0 <= i < v->Table_0.len() ==> (#[trigger] json_of_toml(v)->Object_0[i]) == (
                v->Table_0[i].0,
                json_of_toml(v->Table_0[i].1),
            ),
{
    let entries = v->Table_0;
    let sq = Seq::new(
        entries.len(),
        |i: int|
            if 0 <= i < entries.len() {
                (entries[i].0, json_of_toml(entries[i].1))
            } else {
                (Seq::empty(), JsonView::Null)
            },
    );
    assert(sq.len() == entries.len());
    assert(json_of_toml(v)->Object_0 =~= sq);
}

/// Converts a property value into a structured value.
#[verifier::loop_isolation(false)]
pub fn toml_to_json(value: &TomlValue) -> (r: JsonValue)
    ensures
        r@ == json_of_toml(value@),
    decreases value,
{
    match value {
        TomlValue::String(s) => JsonValue::String(s.clone()),
        TomlValue::Integer(i) => JsonValue::Number(Number::from_i64(*i)),
        TomlValue::Float(f) => match Number::from_float(*f) {
            Some(n) => JsonValue::Number(n),
            None => JsonValue::Null,
        },
        TomlValue::Boolean(b) => JsonValue::Bool(*b),
        TomlValue::Datetime(s) => JsonValue::String(s.clone()),
        TomlValue::Array(items) => {
            let mut out: Vec<JsonValue> = Vec::new();
            let mut i: usize = 0;
            while i < items.len()
                invariant
                    i <= items.len(),
                    out.len() == i,
                    forall|j: int| 0 <= j < i ==> out[j]@ == json_of_toml(items[j]@),
                decreases items.len() - i,
            {
                out.push(toml_to_json(&items[i]));
                i += 1;
            }
            let r = JsonValue::Array(out);
            proof {
                lemma_json_array_view(r);
                lemma_toml_array_view(*value);
                lemma_json_of_toml_array(value@);
                assert(r@->Array_0 =~= json_of_toml(value@)->Array_0);
            }
            r
        },
        TomlValue::Table(entries) => {
            let mut out: Vec<(String, JsonValue)> = Vec::new();
            let mut i: usize = 0;
            while i < entries.len()
                invariant
                    i <= entries.len(),
                    out.len() == i,
                    forall|j: int|
                        0 <= j < i ==> out[j].0@ == entries[j].0@ && out[j].1@ == json_of_toml(
                            entries[j].1@,
                        ),
                decreases entries.len() - i,
            {
                out.push((entries[i].0.clone(), toml_to_json(&entries[i].1)));
                i += 1;
            }
            let r = JsonValue::Object(out);
            proof {
                lemma_json_object_view(r);
                lemma_toml_table_view(*value);
                lemma_json_of_toml_table(value@);
                assert(r@->Object_0 =~= json_of_toml(value@)->Object_0);
            }
            r
        },
    }
}

/// The index of the first member of `members` at or after `from` whose
/// name is `key`, or `members.len()` when there is none.
pub open spec fn member_position<V>(members: Seq<(Seq<char>, V)>, key: Seq<char>, from: int) -> int
    decreases members.len() - from,
{
    if from < 0 || from >= members.len() {
        members.len() as int
    } else if members[from].0 == key {
        from
    } else {
        member_position(members, key, from + 1)
    }
}

/// The value of the first member named `key`.
pub open spec fn member<V>(members: Seq<(Seq<char>, V)>, key: Seq<char>) -> Option<V> {
    let i = member_position(members, key, 0);
    if i < members.len() {
        Some(members[i].1)
    } else {
        None
    }
}

/// `members` with `value` under `key`: in the place of the first member of
/// that name, or at the end when there is none.
pub open spec fn with_member<V>(members: Seq<(Seq<char>, V)>, key: Seq<char>, value: V) -> Seq<
    (Seq<char>, V),
> {
    let i = member_position(members, key, 0);
    if i < members.len() {
        members.update(i, (key, value))
    } else {
        members.push((key, value))
    }
}

/// The names and values that a list of members holds.
pub open spec fn members_view(members: Vec<(String, JsonValue)>) -> Seq<(Seq<char>, JsonView)> {
    json_view(JsonValue::Object(members))->Object_0
}

/// The values that a list of items holds.
pub open spec fn items_view(items: Vec<JsonValue>) -> Seq<JsonView> {
    json_view(JsonValue::Array(items))->Array_0
}

/// `members_view` entry by entry.
pub proof fn lemma_members_view(members: Vec<(String, JsonValue)>)
    ensures
        members_view(members).len() == members.len(),
        forall|i: int|
            0 <= i < members.len() ==> (#[trigger] members_view(members)[i]) == (
                members[i].0@,
                members[i].1@,
            ),
{
    lemma_json_object_view(JsonValue::Object(members));
}

/// `items_view` item by item.
pub proof fn lemma_items_view(items: Vec<JsonValue>)
    ensures
        items_view(items).len() == items.len(),
        forall|i: int| 0 <= i < items.len() ==> (#[trigger] items_view(items)[i]) == items[i]@,
{
    lemma_json_array_view(JsonValue::Array(items));
}

/// The index of the first member named `key`, or the number of members.
pub fn find_member(members: &Vec<(String, JsonValue)>, key: &str) -> (r: usize)
    ensures
        r as int == member_position(members_view(*members), key@, 0),
        r <= members.len(),
{
    proof {
        lemma_members_view(*members);
    }
    let wanted = key.to_owned();
    let mut i: usize = 0;
    while i < members.len()
        invariant
            i <= members.len(),
            wanted@ == key@,
            members_view(*members).len() == members.len(),
            forall|j: int|
                0 <= j < members.len() ==> (#[trigger] members_view(*members)[j]) == (
                    members[j].0@,
                    members[j].1@,
                ),
            member_position(members_view(*members), key@, 0) == member_position(
                members_view(*members),
                key@,
                i as int,
            ),
        decreases members.len() - i,
    {
        if members[i].0 == wanted {
            assert(members_view(*members)[i as int].0 == key@);
            return i;
        }
        assert(members_view(*members)[i as int].0 != key@);
        i += 1;
    }
    i
}

/// Puts `value` under `key`, in the place of an earlier member of that name
/// if there is one.
pub fn insert_member(members: &mut Vec<(String, JsonValue)>, key: String, value: JsonValue)
    ensures
        members_view(*final(members)) == with_member(members_view(*old(members)), key@, value@),
{
    let i = find_member(members, key.as_str());
    proof {
        lemma_members_view(*members);
    }
    let ghost before = *members;
    let ghost k = key@;
    let ghost v = value@;
    if i < members.len() {
        members.set(i, (key, value));
    } else {
        members.push((key, value));
    }
    proof {
        lemma_members_view(*members);
        assert(members_view(*members) =~= with_member(members_view(before), k, v));
    }
}

impl JsonValue {
    /// The structured value for a text.
    pub fn text(s: &str) -> (r: JsonValue)
        ensures
            r@ == JsonView::String(s@),
    {
        JsonValue::String(s.to_owned())
    }

    /// The structured value for an unsigned number.
    pub fn unsigned(n: u64) -> (r: JsonValue)
        ensures
            r@ == JsonView::Number(Number::PosInt(n)),
    {
        JsonValue::Number(Number::PosInt(n))
    }

    /// The structured value for a signed number.
    pub fn signed(n: i64) -> (r: JsonValue)
        ensures
            r@ == JsonView::Number(number_of_int(n)),
    {
        JsonValue::Number(Number::from_i64(n))
    }

    /// The value of the member named `key`, where `self` is an object that
    /// has one.
    pub fn get(&self, key: &str) -> (r: Option<&JsonValue>)
        ensures
            match r {
                Some(v) => self@ is Object && member(self@->Object_0, key@) == Some(v@),
                None => !(self@ is Object) || member(self@->Object_0, key@) is None,
            },
    {
        match self {
            JsonValue::Object(members) => {
                let i = find_member(members, key);
                proof {
                    lemma_members_view(*members);
                }
                if i < members.len() {
                    Some(&members[i].1)
                } else {
                    None
                }
            },
            _ => None,
        }
    }

    /// The items, where `self` is a list.
    pub fn as_array(&self) -> (r: Option<&Vec<JsonValue>>)
        ensures
            match r {
                Some(items) => self@ == JsonView::Array(items_view(*items)),
                None => !(self@ is Array),
            },
    {
        match self {
            JsonValue::Array(items) => Some(items),
            _ => None,
        }
    }

    /// The members, where `self` is an object.
    pub fn as_object(&self) -> (r: Option<&Vec<(String, JsonValue)>>)
        ensures
            match r {
                Some(members) => self@ == JsonView::Object(members_view(*members)),
                None => !(self@ is Object),
            },
    {
        match self {
            JsonValue::Object(members) => Some(members),
            _ => None,
        }
    }

    /// The text, where `self` is a string.
    pub fn as_str(&self) -> (r: Option<&str>)
        ensures
            match r {
                Some(s) => self@ == JsonView::String(s@),
                None => !(self@ is String),
            },
    {
        match self {
            JsonValue::String(s) => Some(s.as_str()),
            _ => None,
        }
    }

    /// The number, where `self` is one.
    pub fn as_number(&self) -> (r: Option<Number>)
        ensures
            match r {
                Some(n) => self@ == JsonView::Number(n),
                None => !(self@ is Number),
            },
    {
        match self {
            JsonValue::Number(n) => Some(*n),
            _ => None,
        }
    }

    /// The binary64 number that stands for `self`, where `self` is a
    /// number.
    pub fn as_float(&self) -> (r: Option<Float>)
        ensures
            match r {
                Some(f) => self@ is Number && f == self@->Number_0.spec_as_float(),
                None => !(self@ is Number),
            },
    {
        match self {
            JsonValue::Number(n) => Some(n.as_float()),
            _ => None,
        }
    }

    /// The truth value, where `self` is one.
    pub fn as_bool(&self) -> (r: Option<bool>)
        ensures
            match r {
                Some(b) => self@ == JsonView::Bool(b),
                None => !(self@ is Bool),
            },
    {
        match self {
            JsonValue::Bool(b) => Some(*b),
            _ => None,
        }
    }

    /// Whether `self` is a list.
    pub fn is_array(&self) -> (r: bool)
        ensures
            r == (self@ is Array),
    {
        match self {
            JsonValue::Array(_) => true,
            _ => false,
        }
    }

    /// Whether `self` is an object.
    pub fn is_object(&self) -> (r: bool)
        ensures
            r == (self@ is Object),
    {
        match self {
            JsonValue::Object(_) => true,
            _ => false,
        }
    }

    /// Whether `self` is null.
    pub fn is_null(&self) -> (r: bool)
        ensures
            r == (self@ is Null),
    {
        match self {
            JsonValue::Null => true,
            _ => false,
        }
    }
}

/// Appends a member named `key`, whatever members there are already.
pub fn push_member(members: &mut Vec<(String, JsonValue)>, key: &str, value: JsonValue)
    ensures
        members_view(*final(members)) == members_view(*old(members)).push((key@, value@)),
{
    proof {
        lemma_members_view(*members);
    }
    let ghost v = value@;
    members.push((key.to_owned(), value));
    proof {
        lemma_members_view(*members);
        assert(members_view(*members) =~= members_view(*old(members)).push((key@, v)));
    }
}

/// The object with the given members.
pub fn object_of(members: Vec<(String, JsonValue)>) -> (r: JsonValue)
    ensures
        r@ == JsonView::Object(members_view(members)),
{
    JsonValue::Object(members)
}

/// The list with the given items.
pub fn array_of(items: Vec<JsonValue>) -> (r: JsonValue)
    ensures
        r@ == JsonView::Array(items_view(items)),
{
    JsonValue::Array(items)
}

/// A list of members without any member.
pub fn no_members() -> (r: Vec<(String, JsonValue)>)
    ensures
        members_view(r) == Seq::<(Seq<char>, JsonView)>::empty(),
{
    let r: Vec<(String, JsonValue)> = Vec::new();
    proof {
        lemma_members_view(r);
        assert(members_view(r) =~= Seq::<(Seq<char>, JsonView)>::empty());
    }
    r
}

/// The structured value that a property value is written out as. It is
/// the value that `json_of_toml` gives, but for dates: a date is written as
/// an object with its text under one reserved name.
pub open spec fn serialized_toml(v: TomlView) -> JsonView
    decreases v,
{
    match v {
        TomlView::Datetime(s) => JsonView::Object(
            seq![("$__toml_private_datetime"@, JsonView::String(s))],
        ),
        TomlView::Array(items) => JsonView::Array(
            Seq::new(
                items.len(),
                |i: int|
                    if 0 <= i < items.len() {
                        serialized_toml(items[i])
                    } else {
                        JsonView::Null
                    },
            ),
        ),
        TomlView::Table(entries) => JsonView::Object(
            Seq::new(
                entries.len(),
                |i: int|
                    if 0 <= i < entries.len() {
                        (entries[i].0, serialized_toml(entries[i].1))
                    } else {
                        (Seq::empty(), JsonView::Null)
                    },
            ),
        ),
        _ => json_of_toml(v),
    }
}

/// A list of property values is written out item by item.
pub proof fn lemma_serialized_toml_array(v: TomlView)
    requires
        v is Array,
    ensures
        serialized_toml(v) is Array,
        serialized_toml(v)->Array_0.len() == v->Array_0.len(),
        forall|i: int|
            0 <= i < v->Array_0.len() ==> (#[trigger] serialized_toml(v)->Array_0[i])
                == serialized_toml(v->Array_0[i]),
{
    let items = v->Array_0;
    let sq = Seq::new(
        items.len(),
        |i: int|
            if 0 <= i < items.len() {
                serialized_toml(items[i])
            } else {
                JsonView::Null
            },
    );
    assert(sq.len() == items.len());
    assert(serialized_toml(v)->Array_0 =~= sq);
}

/// A table of property values is written out entry by entry.
pub proof fn lemma_serialized_toml_table(v: TomlView)
    requires
        v is Table,
    ensures
        serialized_toml(v) is Object,
        serialized_toml(v)->Object_0.len() == v->Table_0.len(),
        forall|i: int|
            0 <= i < v->Table_0.len() ==> (#[trigger] serialized_toml(v)->Object_0[i]) == (
                v->Table_0[i].0,
                serialized_toml(v->Table_0[i].1),
            ),
{
    let entries = v->Table_0;
    let sq = Seq::new(
        entries.len(),
        |i: int|
            if 0 <= i < entries.len() {
                (entries[i].0, serialized_toml(entries[i].1))
            } else {
                (Seq::empty(), JsonView::Null)
            },
    );
    assert(sq.len() == entries.len());
    assert(serialized_toml(v)->Object_0 =~= sq);
}

/// Writes a property value out as a structured value.
#[verifier::loop_isolation(false)]
pub fn serialize_toml(value: &TomlValue) -> (r: JsonValue)
    ensures
        r@ == serialized_toml(value@),
    decreases value,
{
    match value {
        TomlValue::Datetime(s) => {
            let mut members = no_members();
            push_member(&mut members, "$__toml_private_datetime", JsonValue::String(s.clone()));
            assert(members_view(members) =~= serialized_toml(value@)->Object_0);
            object_of(members)
        },
        TomlValue::Array(items) => {
            let mut out: Vec<JsonValue> = Vec::new();
            let mut i: usize = 0;
            while i < items.len()
                invariant
                    i <= items.len(),
                    out.len() == i,
                    forall|j: int| 0 <= j < i ==> out[j]@ == serialized_toml(items[j]@),
                decreases items.len() - i,
            {
                out.push(serialize_toml(&items[i]));
                i += 1;
            }
            let r = JsonValue::Array(out);
            proof {
                lemma_json_array_view(r);
                lemma_toml_array_view(*value);
                lemma_serialized_toml_array(value@);
                assert(r@->Array_0 =~= serialized_toml(value@)->Array_0);
            }
            r
        },
        TomlValue::Table(entries) => {
            let mut out: Vec<(String, JsonValue)> = Vec::new();
            let mut i: usize = 0;
            while i < entries.len()
                invariant
                    i <= entries.len(),
                    out.len() == i,
                    forall|j: int|
                        0 <= j < i ==> out[j].0@ == entries[j].0@ && out[j].1@ == serialized_toml(
                            entries[j].1@,
                        ),
                decreases entries.len() - i,
            {
                out.push((entries[i].0.clone(), serialize_toml(&entries[i].1)));
                i += 1;
            }
            let r = JsonValue::Object(out);
            proof {
                lemma_json_object_view(r);
                lemma_toml_table_view(*value);
                lemma_serialized_toml_table(value@);
                assert(r@->Object_0 =~= serialized_toml(value@)->Object_0);
            }
            r
        },
        _ => toml_to_json(value),
    }
}

/// The names and values that a list of entries holds.
pub open spec fn entries_view(entries: Vec<(String, TomlValue)>) -> Seq<(Seq<char>, TomlView)> {
    toml_view(TomlValue::Table(entries))->Table_0
}

/// `entries_view` entry by entry.
pub proof fn lemma_entries_view(entries: Vec<(String, TomlValue)>)
    ensures
        entries_view(entries).len() == entries.len(),
        forall|i: int|
            0 <= i < entries.len() ==> (#[trigger] entries_view(entries)[i]) == (
                entries[i].0@,
                entries[i].1@,
            ),
{
    lemma_toml_table_view(TomlValue::Table(entries));
}

/// The index of the first entry named `key`, or the number of entries.
pub fn find_entry(entries: &Vec<(String, TomlValue)>, key: &str) -> (r: usize)
    ensures
        r as int == member_position(entries_view(*entries), key@, 0),
        r <= entries.len(),
{
    proof {
        lemma_entries_view(*entries);
    }
    let wanted = key.to_owned();
    let mut i: usize = 0;
    while i < entries.len()
        invariant
            i <= entries.len(),
            wanted@ == key@,
            entries_view(*entries).len() == entries.len(),
            forall|j: int|
                0 <= j < entries.len() ==> (#[trigger] entries_view(*entries)[j]) == (
                    entries[j].0@,
                    entries[j].1@,
                ),
            member_position(entries_view(*entries), key@, 0) == member_position(
                entries_view(*entries),
                key@,
                i as int,
            ),
        decreases entries.len() - i,
    {
        if entries[i].0 == wanted {
            assert(entries_view(*entries)[i as int].0 == key@);
            return i;
        }
        assert(entries_view(*entries)[i as int].0 != key@);
        i += 1;
    }
    i
}

/// Puts `value` under `key`, in the place of an earlier entry of that name
/// if there is one.
pub fn insert_entry(entries: &mut Vec<(String, TomlValue)>, key: String, value: TomlValue)
    ensures
        entries_view(*final(entries)) == with_member(entries_view(*old(entries)), key@, value@),
{
    let i = find_entry(entries, key.as_str());
    proof {
        lemma_entries_view(*entries);
    }
    let ghost before = *entries;
    let ghost k = key@;
    let ghost v = value@;
    if i < entries.len() {
        entries.set(i, (key, value));
    } else {
        entries.push((key, value));
    }
    proof {
        lemma_entries_view(*entries);
        assert(entries_view(*entries) =~= with_member(entries_view(before), k, v));
    }
}

/// What a list of named property values holds.
pub open spec fn properties_view(map: StringMap<TomlValue>) -> Seq<(Seq<char>, TomlView)> {
    entries_view(map.entries)
}

/// What a list of named texts holds.
pub open spec fn named_texts(entries: Seq<(String, String)>) -> Seq<(Seq<char>, Seq<char>)> {
    entries.map_values(|e: (String, String)| (e.0@, e.1@))
}

/// The search for a name finds the same place in a list of named texts
/// and in what the list holds.
pub proof fn lemma_position_of_texts(entries: Seq<(String, String)>, key: Seq<char>, from: int)
    requires
        0 <= from <= entries.len(),
    ensures
        position_from(entries, key, from) == member_position(named_texts(entries), key, from),
        from <= position_from(entries, key, from) <= entries.len(),
    decreases entries.len() - from,
{
    if from < entries.len() {
        assert(named_texts(entries)[from].0 == entries[from].0@);
        if entries[from].0@ != key {
            lemma_position_of_texts(entries, key, from + 1);
        }
    }
}

/// Putting a text under a name does to what the list holds what it does to
/// the list.
pub proof fn lemma_with_entry_texts(entries: Seq<(String, String)>, key: String, value: String)
    ensures
        named_texts(with_entry(entries, key, value)) == with_member(
            named_texts(entries),
            key@,
            value@,
        ),
{
    lemma_position_of_texts(entries, key@, 0);
    let i = position_from(entries, key@, 0);
    let after = with_entry(entries, key, value);
    let want = with_member(named_texts(entries), key@, value@);
    assert(named_texts(after).len() == want.len());
    assert forall|j: int| 0 <= j < want.len() implies named_texts(after)[j] == want[j] by {
        if j < entries.len() && j != i {
            assert(named_texts(entries)[j] == (entries[j].0@, entries[j].1@));
        }
    }
    assert(named_texts(with_entry(entries, key, value)) =~= with_member(
        named_texts(entries),
        key@,
        value@,
    ));
}

} // verus!
