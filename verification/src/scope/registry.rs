//! The properties and rules that the settings know.

use crate::scope::config::Config;
use crate::value::{lists_names_of, TomlValue};
use vstd::prelude::*;

verus! {

/// What the settings say about properties.
pub struct PropertyRegistry {
    pub config: Config,
}

impl PropertyRegistry {
    /// A registry for the given settings.
    pub fn new(config: Config) -> (r: Self)
        ensures
            r.config == config,
    {
        PropertyRegistry { config }
    }

    /// The value that the global scope gives `name`.
    pub fn get_global_property(&self, name: &str) -> (r: Option<&TomlValue>)
        ensures
            match r {
                Some(v) => self.config.properties.spec_get(name@) == Some(*v),
                None => self.config.properties.spec_get(name@) is None,
            },
    {
        self.config.properties.get(name)
    }

    /// The names of the global properties, each once, in the order of the
    /// settings.
    pub fn list_global_properties(&self) -> (r: Vec<&String>)
        ensures
            lists_names_of(r@, self.config.properties.entries@),
    {
        self.config.properties.names()
    }

    /// Whether there is a rule for `property`.
    pub fn has_inheritance_rule(&self, property: &str) -> (r: bool)
        ensures
            r == self.config.inheritance.rules.has(property@),
    {
        self.config.inheritance.rules.contains_key(property)
    }
}

} // verus!
