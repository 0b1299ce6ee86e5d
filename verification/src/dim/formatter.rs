//! The choice of the unit in which a property is shown.

use crate::dim::processor::original_key;
use crate::schema::registry::PropertyMetadata;
use crate::text::join3;
use crate::value::{lookup, JsonValue, JsonView, Number, StringMap};
use vstd::prelude::*;

verus! {

/// The units that are preferred for showing properties.
#[derive(Clone)]
pub struct UnitPreferences {
    /// The units asked for with the query, by property.
    pub query_overrides: StringMap<String>,
    /// The units for the properties of single block types.
    pub block_types: StringMap<StringMap<String>>,
    /// The units for kinds of quantities.
    pub dimensions: StringMap<String>,
    /// The unit strings as they were written, under `_<property>_original`.
    pub original_strings: StringMap<String>,
}

impl Default for UnitPreferences {
    /// No preference at all.
    fn default() -> (r: Self)
        ensures
            r.query_overrides.entries@.len() == 0,
            r.block_types.entries@.len() == 0,
            r.dimensions.entries@.len() == 0,
            r.original_strings.entries@.len() == 0,
    {
        UnitPreferences {
            query_overrides: StringMap::new(),
            block_types: StringMap::new(),
            dimensions: StringMap::new(),
            original_strings: StringMap::new(),
        }
    }
}

/// The unit that a block type prefers for a property.
pub open spec fn block_type_unit(
    preferences: UnitPreferences,
    property: Seq<char>,
    block_type: Option<Seq<char>>,
) -> Option<String> {
    match block_type {
        Some(t) => match lookup(preferences.block_types.entries@, t) {
            Some(units) => lookup(units.entries@, property),
            None => None,
        },
        None => None,
    }
}

/// The unit that is preferred for the kind of quantity of a property.
pub open spec fn dimension_unit(
    preferences: UnitPreferences,
    metadata: Option<PropertyMetadata>,
) -> Option<String> {
    match metadata {
        Some(m) => match m.dimension {
            Some(d) => lookup(preferences.dimensions.entries@, d@),
            None => None,
        },
        None => None,
    }
}

/// The unit that the schema gives a property.
pub open spec fn schema_unit(metadata: Option<PropertyMetadata>) -> Option<String> {
    match metadata {
        Some(m) => m.default_unit,
        None => None,
    }
}

/// The unit in which a property is shown: the one asked for with the
/// query, else the one of the block type, else the one of the kind of
/// quantity, else the one of the schema; none where none of them is given.
pub open spec fn preferred_unit(
    preferences: UnitPreferences,
    property: Seq<char>,
    block_type: Option<Seq<char>>,
    metadata: Option<PropertyMetadata>,
) -> Option<String> {
    if lookup(preferences.query_overrides.entries@, property) is Some {
        lookup(preferences.query_overrides.entries@, property)
    } else if block_type_unit(preferences, property, block_type) is Some {
        block_type_unit(preferences, property, block_type)
    } else if dimension_unit(preferences, metadata) is Some {
        dimension_unit(preferences, metadata)
    } else {
        schema_unit(metadata)
    }
}

/// The view of an optional text.
pub open spec fn optional_view(s: Option<&str>) -> Option<Seq<char>> {
    match s {
        Some(t) => Some(t@),
        None => None,
    }
}

/// The metadata behind an optional reference.
pub open spec fn optional_metadata(m: Option<&PropertyMetadata>) -> Option<PropertyMetadata> {
    match m {
        Some(x) => Some(*x),
        None => None,
    }
}

impl UnitPreferences {
    /// The unit in which `property` is shown.
    pub fn preferred_unit_for<'a>(
        &'a self,
        property: &str,
        block_type: Option<&str>,
        metadata: Option<&'a PropertyMetadata>,
    ) -> (r: Option<&'a String>)
        ensures
            match r {
                Some(unit) => preferred_unit(
                    *self,
                    property@,
                    optional_view(block_type),
                    optional_metadata(metadata),
                ) == Some(*unit),
                None => preferred_unit(
                    *self,
                    property@,
                    optional_view(block_type),
                    optional_metadata(metadata),
                ) is None,
            },
    {
        match self.query_overrides.get(property) {
            Some(unit) => {
                return Some(unit);
            },
            None => {},
        }
        match block_type {
            Some(t) => match self.block_types.get(t) {
                Some(units) => match units.get(property) {
                    Some(unit) => {
                        return Some(unit);
                    },
                    None => {},
                },
                None => {},
            },
            None => {},
        }
        match metadata {
            Some(m) => {
                match &m.dimension {
                    Some(d) => match self.dimensions.get(d.as_str()) {
                        Some(unit) => {
                            return Some(unit);
                        },
                        None => {},
                    },
                    None => {},
                }
                match &m.default_unit {
                    Some(unit) => Some(unit),
                    None => None,
                }
            },
            None => None,
        }
    }
}

/// The unit in which quantities of a kind are kept.
pub open spec fn reference_unit(dimension: Seq<char>) -> Option<Seq<char>> {
    if dimension == "pressure"@ {
        Some("Pa"@)
    } else if dimension == "length"@ {
        Some("m"@)
    } else if dimension == "temperature"@ {
        Some("K"@)
    } else if dimension == "time"@ {
        Some("s"@)
    } else if dimension == "mass"@ {
        Some("kg"@)
    } else if dimension == "energy"@ {
        Some("J"@)
    } else if dimension == "power"@ {
        Some("W"@)
    } else if dimension == "flow_rate"@ {
        Some("m³/s"@)
    } else if dimension == "velocity"@ {
        Some("m/s"@)
    } else if dimension == "force"@ {
        Some("N"@)
    } else if dimension == "volume"@ {
        Some("m³"@)
    } else if dimension == "area"@ {
        Some("m²"@)
    } else if dimension == "density"@ {
        Some("kg/m³"@)
    } else {
        None
    }
}

/// The unit in which quantities of the kind `dimension` are kept.
pub fn get_reference_unit_for_dimension(dimension: &str) -> (r: Option<String>)
    ensures
        match r {
            Some(unit) => reference_unit(dimension@) == Some(unit@),
            None => reference_unit(dimension@) is None,
        },
{
    let d = dimension.to_owned();
    if d == "pressure".to_owned() {
        Some("Pa".to_owned())
    } else if d == "length".to_owned() {
        Some("m".to_owned())
    } else if d == "temperature".to_owned() {
        Some("K".to_owned())
    } else if d == "time".to_owned() {
        Some("s".to_owned())
    } else if d == "mass".to_owned() {
        Some("kg".to_owned())
    } else if d == "energy".to_owned() {
        Some("J".to_owned())
    } else if d == "power".to_owned() {
        Some("W".to_owned())
    } else if d == "flow_rate".to_owned() {
        Some("m³/s".to_owned())
    } else if d == "velocity".to_owned() {
        Some("m/s".to_owned())
    } else if d == "force".to_owned() {
        Some("N".to_owned())
    } else if d == "volume".to_owned() {
        Some("m³".to_owned())
    } else if d == "area".to_owned() {
        Some("m²".to_owned())
    } else if d == "density".to_owned() {
        Some("kg/m³".to_owned())
    } else {
        None
    }
}

/// What is to be converted: a number, or a text that may read as one.
#[derive(Debug, Clone, PartialEq)]
pub enum Quantity {
    Number(Number),
    Text(String),
}

/// Where the unit of a value is known from.
#[derive(Debug, Clone, PartialEq)]
pub enum BaseUnit {
    /// From the unit string that the property was written with; the unit
    /// library tells its base unit.
    OfOriginal(String),
    /// The unit itself.
    Known(String),
}

/// What is to be done to show a property in its preferred unit.
#[derive(Debug, Clone, PartialEq)]
pub enum FormatPlan {
    /// The value is shown as it is.
    Keep,
    /// The value is converted from its base unit into the target unit.
    Convert { quantity: Quantity, base: BaseUnit, target: String },
}

/// What a plan holds, with sequences of characters for strings.
pub enum PlanView {
    Keep,
    ConvertNumber { number: Number, original: Option<Seq<char>>, base: Seq<char>, target: Seq<char> },
    ConvertText {
        text: Seq<char>,
        original: Option<Seq<char>>,
        base: Seq<char>,
        target: Seq<char>,
    },
}

impl View for FormatPlan {
    type V = PlanView;

    open spec fn view(&self) -> PlanView {
        match self {
            FormatPlan::Keep => PlanView::Keep,
            FormatPlan::Convert { quantity, base, target } => {
                let original = match base {
                    BaseUnit::OfOriginal(o) => Some(o@),
                    BaseUnit::Known(_) => None,
                };
                let unit = match base {
                    BaseUnit::OfOriginal(_) => Seq::empty(),
                    BaseUnit::Known(u) => u@,
                };
                match quantity {
                    Quantity::Number(n) => PlanView::ConvertNumber {
                        number: *n,
                        original,
                        base: unit,
                        target: target@,
                    },
                    Quantity::Text(t) => PlanView::ConvertText {
                        text: t@,
                        original,
                        base: unit,
                        target: target@,
                    },
                }
            },
        }
    }
}

/// Where the unit of the property `name` is known from: from the unit
/// string that it was written with, if that is kept, else from the kind of
/// quantity that the schema gives it.
pub open spec fn base_unit_source(
    preferences: UnitPreferences,
    name: Seq<char>,
    metadata: Option<PropertyMetadata>,
) -> Option<(Option<Seq<char>>, Seq<char>)> {
    match lookup(preferences.original_strings.entries@, original_key(name)) {
        Some(original) => Some((Some(original@), Seq::empty())),
        None => match metadata {
            Some(m) => match m.dimension {
                Some(d) => match reference_unit(d@) {
                    Some(unit) => Some((None, unit)),
                    None => None,
                },
                None => None,
            },
            None => None,
        },
    }
}

/// The plan for showing the property `name` with the value `value`.
///
/// The value is kept where no unit is preferred, where the value is
/// neither a number nor a text, and where its unit is not known. Else it
/// is to be converted into the preferred unit.
pub open spec fn format_plan(
    preferences: UnitPreferences,
    name: Seq<char>,
    value: JsonView,
    block_type: Option<Seq<char>>,
    metadata: Option<PropertyMetadata>,
) -> PlanView {
    match preferred_unit(preferences, name, block_type, metadata) {
        None => PlanView::Keep,
        Some(target) => match base_unit_source(preferences, name, metadata) {
            None => PlanView::Keep,
            Some(source) => match value {
                JsonView::Number(n) => PlanView::ConvertNumber {
                    number: n,
                    original: source.0,
                    base: source.1,
                    target: target@,
                },
                JsonView::String(t) => PlanView::ConvertText {
                    text: t,
                    original: source.0,
                    base: source.1,
                    target: target@,
                },
                _ => PlanView::Keep,
            },
        },
    }
}

/// The preferences with other unit strings.
pub open spec fn with_originals(
    preferences: UnitPreferences,
    originals: StringMap<String>,
) -> UnitPreferences {
    UnitPreferences {
        query_overrides: preferences.query_overrides,
        block_types: preferences.block_types,
        dimensions: preferences.dimensions,
        original_strings: originals,
    }
}

/// The value that is shown: the converted quantity with its unit as a
/// text, or the value itself where nothing was converted.
pub open spec fn shown_value(value: JsonView, converted: Option<Seq<char>>) -> JsonView {
    match converted {
        Some(text) => JsonView::String(text),
        None => value,
    }
}

/// Plans the conversion of property values into their preferred units.
/// The conversion itself is the work of the unit library.
pub struct UnitFormatter {}

impl UnitFormatter {
    /// A formatter.
    pub fn new() -> (r: Self) {
        UnitFormatter {  }
    }

    /// The plan for showing the property `property_name`.
    pub fn plan_property(
        &self,
        property_name: &str,
        value: &JsonValue,
        block_type: Option<&str>,
        unit_preferences: &UnitPreferences,
        property_metadata: Option<&PropertyMetadata>,
    ) -> (r: FormatPlan)
        ensures
            r@ == format_plan(
                *unit_preferences,
                property_name@,
                value@,
                optional_view(block_type),
                optional_metadata(property_metadata),
            ),
    {
        self.plan_with_originals(
            property_name,
            value,
            block_type,
            unit_preferences,
            &unit_preferences.original_strings,
            property_metadata,
        )
    }

    /// The plan for showing the property `property_name`, with the unit
    /// strings of `originals` in the place of those of the preferences.
    pub fn plan_with_originals(
        &self,
        property_name: &str,
        value: &JsonValue,
        block_type: Option<&str>,
        unit_preferences: &UnitPreferences,
        originals: &StringMap<String>,
        property_metadata: Option<&PropertyMetadata>,
    ) -> (r: FormatPlan)
        ensures
            r@ == format_plan(
                with_originals(*unit_preferences, *originals),
                property_name@,
                value@,
                optional_view(block_type),
                optional_metadata(property_metadata),
            ),
    {
        let target = match unit_preferences.preferred_unit_for(
            property_name,
            block_type,
            property_metadata,
        ) {
            Some(unit) => unit,
            None => {
                return FormatPlan::Keep;
            },
        };
        let key = join3("_", property_name, "_original");
        let base = match originals.get(key.as_str()) {
            Some(original) => BaseUnit::OfOriginal(original.clone()),
            None => {
                let known = match property_metadata {
                    Some(m) => match &m.dimension {
                        Some(d) => get_reference_unit_for_dimension(d.as_str()),
                        None => None,
                    },
                    None => None,
                };
                match known {
                    Some(unit) => BaseUnit::Known(unit),
                    None => {
                        return FormatPlan::Keep;
                    },
                }
            },
        };
        match value {
            JsonValue::Number(n) => FormatPlan::Convert {
                quantity: Quantity::Number(*n),
                base,
                target: target.clone(),
            },
            JsonValue::String(t) => FormatPlan::Convert {
                quantity: Quantity::Text(t.clone()),
                base,
                target: target.clone(),
            },
            _ => FormatPlan::Keep,
        }
    }

    /// The value that is shown for a property: `converted` where the unit
    /// library has converted the quantity, else the value itself.
    pub fn format_property(&self, value: &JsonValue, converted: Option<String>) -> (r: JsonValue)
        ensures
            r@ == shown_value(
                value@,
                match converted {
                    Some(text) => Some(text@),
                    None => None,
                },
            ),
    {
        match converted {
            Some(text) => JsonValue::String(text),
            None => value.clone(),
        }
    }
}

impl Default for UnitFormatter {
    /// A formatter.
    fn default() -> (r: Self) {
        UnitFormatter::new()
    }
}

} // verus!
