//! The replacement of unit strings by numbers.
//!
//! A property that is written as a quantity with a unit, such as
//! `100 bar`, is replaced by its number in the base unit, and the text is
//! kept beside it under `_<property>_original`. Reading the text is the
//! work of the unit library; what it has read is handed in as readings.

use crate::dim::detector::{is_unit_string, looks_like_unit_string};
use crate::dim::error::DimError;
use crate::dim::validator::{get_reference_unit_for_dimension, reference_quantity};
use crate::schema::registry::PropertyMetadata;
use crate::schema::validator::{is_listed, lists};
use crate::text::join3;
use crate::value::{
    entries_view, insert_entry, lemma_entries_view, lemma_toml_array_view, lookup, properties_view, with_member, Float, StringMap, TomlValue, TomlView,
};
use vstd::prelude::*;

verus! {

/// What the unit library has read from one text: the number in the base
/// unit, and the kinds of quantities that the text is of.
#[derive(Debug, Clone)]
pub struct UnitReading {
    pub value: Float,
    pub dimensions: Vec<String>,
}

/// Replaces unit strings by numbers, with the readings that it was given.
pub struct UnitProcessor {
    /// The readings, by text. A text that is not listed could not be read.
    pub readings: StringMap<UnitReading>,
}

/// The name under which the text of a property is kept.
pub open spec fn original_key(key: Seq<char>) -> Seq<char> {
    "_"@ + key + "_original"@
}

/// Whether a value is a unit string that was read.
pub open spec fn is_read(v: TomlView, readings: Seq<(String, UnitReading)>) -> bool {
    match v {
        TomlView::String(s) => is_unit_string(s) && lookup(readings, s) is Some,
        _ => false,
    }
}

/// A value with its unit strings replaced: a text that looks like a unit
/// string and was read becomes its number; lists and tables are worked
/// through; everything else stays.
pub open spec fn processed(v: TomlView, readings: Seq<(String, UnitReading)>) -> TomlView
    decreases v, 0nat,
{
    match v {
        TomlView::String(s) => if is_read(v, readings) {
            TomlView::Float(lookup(readings, s)->0.value)
        } else {
            v
        },
        TomlView::Array(items) => TomlView::Array(
            Seq::new(
                items.len(),
                |i: int|
                    if 0 <= i < items.len() {
                        processed(items[i], readings)
                    } else {
                        TomlView::Boolean(false)
                    },
            ),
        ),
        TomlView::Table(entries) => TomlView::Table(
            processed_entries(entries, readings, entries.len() as int),
        ),
        _ => v,
    }
}

/// The first `n` entries with their unit strings replaced: every entry is
/// put under its name, and the text of a unit string that was read is put
/// under the name for originals.
pub open spec fn processed_entries(
    entries: Seq<(Seq<char>, TomlView)>,
    readings: Seq<(String, UnitReading)>,
    n: int,
) -> Seq<(Seq<char>, TomlView)>
    decreases entries, n,
{
    if n <= 0 || n > entries.len() {
        Seq::empty()
    } else {
        let before = processed_entries(entries, readings, n - 1);
        let entry = entries[n - 1];
        let put = with_member(before, entry.0, processed(entry.1, readings));
        if is_read(entry.1, readings) {
            with_member(put, original_key(entry.0), entry.1)
        } else {
            put
        }
    }
}

/// A list is worked through item by item.
pub proof fn lemma_processed_array(v: TomlView, readings: Seq<(String, UnitReading)>)
    requires
        v is Array,
    ensures
        processed(v, readings) is Array,
        processed(v, readings)->Array_0.len() == v->Array_0.len(),
        forall|i: int|
            0 <= i < v->Array_0.len() ==> (#[trigger] processed(v, readings)->Array_0[i])
                == processed(v->Array_0[i], readings),
{
    let items = v->Array_0;
    let sq = Seq::new(
        items.len(),
        |i: int|
            if 0 <= i < items.len() {
                processed(items[i], readings)
            } else {
                TomlView::Boolean(false)
            },
    );
    assert(sq.len() == items.len());
    assert(processed(v, readings)->Array_0 =~= sq);
}

/// The name under which the unit string of the property `key` is kept.
pub fn original_key_of(key: &str) -> (r: String)
    ensures
        r@ == original_key(key@),
{
    join3("_", key, "_original")
}

impl UnitProcessor {
    /// A processor without readings: every text stays as it is.
    pub fn new() -> (r: Self)
        ensures
            r.readings.entries@.len() == 0,
    {
        UnitProcessor { readings: StringMap::new() }
    }

    /// A processor with what the unit library has read.
    pub fn with_readings(readings: StringMap<UnitReading>) -> (r: Self)
        ensures
            r.readings == readings,
    {
        UnitProcessor { readings }
    }

    /// The number that a text was read as, if it looks like a unit string
    /// and was read.
    fn reading_of(&self, value: &TomlValue) -> (r: Option<Float>)
        ensures
            match r {
                Some(f) => is_read(value@, self.readings.entries@) && f == lookup(
                    self.readings.entries@,
                    value@->String_0,
                )->0.value,
                None => !is_read(value@, self.readings.entries@),
            },
    {
        match value {
            TomlValue::String(s) => {
                if looks_like_unit_string(s.as_str()) {
                    match self.readings.get(s.as_str()) {
                        Some(reading) => Some(reading.value),
                        None => None,
                    }
                } else {
                    None
                }
            },
            _ => None,
        }
    }

    /// Replaces the unit strings in a value.
    #[verifier::loop_isolation(false)]
    pub fn process_value(&self, value: &TomlValue) -> (r: Result<TomlValue, DimError>)
        ensures
            r is Ok,
            r->Ok_0@ == processed(value@, self.readings.entries@),
        decreases value,
    {
        match value {
            TomlValue::String(s) => {
                match self.reading_of(value) {
                    Some(f) => Ok(TomlValue::Float(f)),
                    None => Ok(value.clone()),
                }
            },
            TomlValue::Array(items) => {
                let mut out: Vec<TomlValue> = Vec::new();
                let mut i: usize = 0;
                while i < items.len()
                    invariant
                        i <= items.len(),
                        out.len() == i,
                        forall|j: int|
                            0 <= j < i ==> out[j]@ == processed(
                                items[j]@,
                                self.readings.entries@,
                            ),
                    decreases items.len() - i,
                {
                    match self.process_value(&items[i]) {
                        Ok(v) => {
                            out.push(v);
                        },
                        Err(e) => {
                            return Err(e);
                        },
                    }
                    i += 1;
                }
                let r = TomlValue::Array(out);
                proof {
                    lemma_toml_array_view(r);
                    lemma_toml_array_view(*value);
                    lemma_processed_array(value@, self.readings.entries@);
                    assert(r@->Array_0 =~= processed(value@, self.readings.entries@)->Array_0);
                }
                Ok(r)
            },
            TomlValue::Table(entries) => {
                let mut out: Vec<(String, TomlValue)> = Vec::new();
                proof {
                    lemma_entries_view(out);
                    lemma_entries_view(*entries);
                    assert(entries_view(out) =~= Seq::<(Seq<char>, TomlView)>::empty());
                }
                let mut i: usize = 0;
                while i < entries.len()
                    invariant
                        i <= entries.len(),
                        entries_view(out) == processed_entries(
                            entries_view(*entries),
                            self.readings.entries@,
                            i as int,
                        ),
                    decreases entries.len() - i,
                {
                    let key = &entries[i].0;
                    let read = self.reading_of(&entries[i].1);
                    let replaced = match self.process_value(&entries[i].1) {
                        Ok(v) => v,
                        Err(e) => {
                            return Err(e);
                        },
                    };
                    insert_entry(&mut out, key.clone(), replaced);
                    if read.is_some() {
                        insert_entry(&mut out, original_key_of(key.as_str()), entries[i].1.clone());
                    }
                    i += 1;
                }
                Ok(TomlValue::Table(out))
            },
            _ => Ok(value.clone()),
        }
    }

    /// Replaces the unit strings among the properties of a node or block.
    pub fn process_hashmap(&self, extra: &StringMap<TomlValue>) -> (r: Result<
        StringMap<TomlValue>,
        DimError,
    >)
        ensures
            r is Ok,
            properties_view(r->Ok_0) == processed_entries(
                properties_view(*extra),
                self.readings.entries@,
                extra.entries.len() as int,
            ),
    {
        let entries = &extra.entries;
        let mut out: Vec<(String, TomlValue)> = Vec::new();
        proof {
            lemma_entries_view(out);
            lemma_entries_view(*entries);
            assert(entries_view(out) =~= Seq::<(Seq<char>, TomlView)>::empty());
        }
        let mut i: usize = 0;
        while i < entries.len()
            invariant
                i <= entries.len(),
                entries_view(*entries).len() == entries.len(),
                forall|j: int|
                    0 <= j < entries.len() ==> (#[trigger] entries_view(*entries)[j]) == (
                        entries[j].0@,
                        entries[j].1@,
                    ),
                entries_view(out) == processed_entries(
                    entries_view(*entries),
                    self.readings.entries@,
                    i as int,
                ),
            decreases entries.len() - i,
        {
            let key = &entries[i].0;
            let read = self.reading_of(&entries[i].1);
            let replaced = match self.process_value(&entries[i].1) {
                Ok(v) => v,
                Err(e) => {
                    return Err(e);
                },
            };
            insert_entry(&mut out, key.clone(), replaced);
            if read.is_some() {
                insert_entry(&mut out, original_key_of(key.as_str()), entries[i].1.clone());
            }
            i += 1;
        }
        Ok(StringMap { entries: out })
    }
}

/// The kind of quantity that a schema expects of a property, if it
/// expects one.
pub open spec fn expected_dimension(metadata: Seq<(String, PropertyMetadata)>, key: Seq<char>) -> Option<
    Seq<char>,
> {
    match lookup(metadata, key) {
        Some(m) => match m.dimension {
            Some(d) => Some(d@),
            None => None,
        },
        None => None,
    }
}

/// Whether a text was read as a quantity of the kind `dimension`: the kind
/// is known, the text was read, and the reading lists the kind.
pub open spec fn is_read_as(
    v: TomlView,
    readings: Seq<(String, UnitReading)>,
    dimension: Seq<char>,
) -> bool {
    match v {
        TomlView::String(s) => match lookup(readings, s) {
            Some(reading) => reference_quantity(dimension) is Some && lists(
                reading.dimensions@,
                dimension,
            ),
            None => false,
        },
        _ => false,
    }
}

/// The first `n` properties with their unit strings replaced, with the
/// schema to go by. A property for which the schema expects a kind of
/// quantity is replaced if its text was read as a quantity of that kind,
/// and stays as it is otherwise; every other property is treated as
/// without a schema.
pub open spec fn processed_with_schema(
    entries: Seq<(Seq<char>, TomlView)>,
    metadata: Seq<(String, PropertyMetadata)>,
    readings: Seq<(String, UnitReading)>,
    n: int,
) -> Seq<(Seq<char>, TomlView)>
    decreases n,
{
    if n <= 0 || n > entries.len() {
        Seq::empty()
    } else {
        let before = processed_with_schema(entries, metadata, readings, n - 1);
        let entry = entries[n - 1];
        match expected_dimension(metadata, entry.0) {
            Some(d) => if is_read_as(entry.1, readings, d) {
                with_member(
                    with_member(
                        before,
                        entry.0,
                        TomlView::Float(lookup(readings, entry.1->String_0)->0.value),
                    ),
                    original_key(entry.0),
                    entry.1,
                )
            } else {
                with_member(before, entry.0, entry.1)
            },
            None => {
                let put = with_member(before, entry.0, processed(entry.1, readings));
                if is_read(entry.1, readings) {
                    with_member(put, original_key(entry.0), entry.1)
                } else {
                    put
                }
            },
        }
    }
}

impl UnitProcessor {
    /// The number that a text was read as, if it was read as a quantity of
    /// the kind `dimension`.
    fn reading_as(&self, value: &TomlValue, dimension: &String) -> (r: Option<Float>)
        ensures
            match r {
                Some(f) => is_read_as(value@, self.readings.entries@, dimension@) && f == lookup(
                    self.readings.entries@,
                    value@->String_0,
                )->0.value,
                None => !is_read_as(value@, self.readings.entries@, dimension@),
            },
    {
        match value {
            TomlValue::String(s) => match self.readings.get(s.as_str()) {
                Some(reading) => {
                    if get_reference_unit_for_dimension(dimension.as_str()).is_some() && is_listed(
                        &reading.dimensions,
                        dimension,
                    ) {
                        Some(reading.value)
                    } else {
                        None
                    }
                },
                None => None,
            },
            _ => None,
        }
    }

    /// Replaces the unit strings among the properties of a block, with the
    /// schema of the block to go by.
    pub fn process_hashmap_with_schema(
        &self,
        extra: &StringMap<TomlValue>,
        property_metadata: &StringMap<PropertyMetadata>,
    ) -> (r: Result<StringMap<TomlValue>, DimError>)
        ensures
            r is Ok,
            properties_view(r->Ok_0) == processed_with_schema(
                properties_view(*extra),
                property_metadata.entries@,
                self.readings.entries@,
                extra.entries.len() as int,
            ),
    {
        let entries = &extra.entries;
        let mut out: Vec<(String, TomlValue)> = Vec::new();
        proof {
            lemma_entries_view(out);
            lemma_entries_view(*entries);
            assert(entries_view(out) =~= Seq::<(Seq<char>, TomlView)>::empty());
        }
        let mut i: usize = 0;
        while i < entries.len()
            invariant
                i <= entries.len(),
                entries_view(*entries).len() == entries.len(),
                forall|j: int|
                    0 <= j < entries.len() ==> (#[trigger] entries_view(*entries)[j]) == (
                        entries[j].0@,
                        entries[j].1@,
                    ),
                entries_view(out) == processed_with_schema(
                    entries_view(*entries),
                    property_metadata.entries@,
                    self.readings.entries@,
                    i as int,
                ),
            decreases entries.len() - i,
        {
            let key = &entries[i].0;
            let value = &entries[i].1;
            let expected: Option<&String> = match property_metadata.get(key.as_str()) {
                Some(m) => match &m.dimension {
                    Some(d) => Some(d),
                    None => None,
                },
                None => None,
            };
            match expected {
                Some(d) => {
                    match self.reading_as(value, d) {
                        Some(f) => {
                            insert_entry(&mut out, key.clone(), TomlValue::Float(f));
                            insert_entry(&mut out, original_key_of(key.as_str()), value.clone());
                        },
                        None => {
                            insert_entry(&mut out, key.clone(), value.clone());
                        },
                    }
                },
                None => {
                    let read = self.reading_of(value);
                    let replaced = match self.process_value(value) {
                        Ok(v) => v,
                        Err(e) => {
                            return Err(e);
                        },
                    };
                    insert_entry(&mut out, key.clone(), replaced);
                    if read.is_some() {
                        insert_entry(&mut out, original_key_of(key.as_str()), value.clone());
                    }
                },
            }
            i += 1;
        }
        Ok(StringMap { entries: out })
    }
}

} // verus!
