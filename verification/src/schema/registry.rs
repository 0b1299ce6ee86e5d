//! The schemas that are known, by version and by block type.

use crate::value::{
    holds_name, lemma_lookup_after_insert, lists_names_of, lookup, with_entry, StringMap,
};
use vstd::prelude::*;

verus! {

/// A path in the file system, carried along and never looked into.
#[verifier::external_type_specification]
#[verifier::external_body]
pub struct ExPathBuf(std::path::PathBuf);

/// What a schema says about one property.
#[derive(Debug, Clone)]
pub struct PropertyMetadata {
    /// The kind of quantity, such as `pressure` or `length`.
    pub dimension: Option<String>,
    /// The unit in which the property is shown.
    pub default_unit: Option<String>,
    /// The name under which the property is shown.
    pub title: Option<String>,
}

/// The schema of one block type.
#[derive(Debug, Clone)]
pub struct SchemaDefinition {
    pub block_type: String,
    pub version: String,
    pub required_properties: Vec<String>,
    pub optional_properties: Vec<String>,
    pub properties: StringMap<PropertyMetadata>,
}

/// The schemas of one version, by block type.
#[derive(Debug, Clone)]
pub struct SchemaLibrary {
    pub version: String,
    pub schemas: StringMap<SchemaDefinition>,
}

/// The schema libraries that have been loaded, by version.
pub struct SchemaRegistry {
    pub libraries: StringMap<SchemaLibrary>,
    pub schemas_dir: std::path::PathBuf,
}

/// The schema for `block_type` in the library of `version`.
pub open spec fn schema_of(
    libraries: Seq<(String, SchemaLibrary)>,
    version: Seq<char>,
    block_type: Seq<char>,
) -> Option<SchemaDefinition> {
    match lookup(libraries, version) {
        Some(library) => lookup(library.schemas.entries@, block_type),
        None => None,
    }
}

/// The library that holds `schemas` one after the other, each under its
/// block type; of two schemas for one block type the later one stays.
pub open spec fn library_entries(schemas: Seq<SchemaDefinition>, n: int) -> Seq<
    (String, SchemaDefinition),
>
    decreases n,
{
    if n <= 0 || n > schemas.len() {
        Seq::empty()
    } else {
        with_entry(library_entries(schemas, n - 1), schemas[n - 1].block_type, schemas[n - 1])
    }
}

/// Puts schemas into a library, each under its block type.
pub fn library_of(schemas: Vec<SchemaDefinition>) -> (r: StringMap<SchemaDefinition>)
    ensures
        r.entries@ == library_entries(schemas@, schemas.len() as int),
        r.well_formed(),
{
    let mut library: StringMap<SchemaDefinition> = StringMap::new();
    let mut schemas = schemas;
    let ghost all = schemas@;
    let mut i: usize = 0;
    let n = schemas.len();
    let mut rest: Vec<SchemaDefinition> = Vec::new();
    while schemas.len() > 0
        invariant
            all.len() == n,
            schemas.len() <= all.len(),
            rest.len() + schemas.len() == all.len(),
            forall|j: int| 0 <= j < schemas.len() ==> schemas[j] == all[j],
            forall|j: int| 0 <= j < rest.len() ==> rest[j] == all[all.len() - 1 - j],
        decreases schemas.len(),
    {
        let last = schemas.pop().unwrap();
        rest.push(last);
    }
    while rest.len() > 0
        invariant
            all.len() == n,
            i + rest.len() == all.len(),
            forall|j: int| 0 <= j < rest.len() ==> rest[j] == all[all.len() - 1 - j],
            library.entries@ == library_entries(all, i as int),
            library.well_formed(),
        decreases rest.len(),
    {
        let schema = rest.pop().unwrap();
        assert(schema == all[i as int]);
        let key = schema.block_type.clone();
        library.insert(key, schema);
        i += 1;
    }
    library
}

impl SchemaRegistry {
    /// A registry without libraries, for schemas kept under `schemas_dir`.
    pub fn new(schemas_dir: std::path::PathBuf) -> (r: Self)
        ensures
            r.libraries.entries@.len() == 0,
            r.libraries.well_formed(),
            r.schemas_dir == schemas_dir,
    {
        SchemaRegistry { libraries: StringMap::new(), schemas_dir }
    }

    /// Puts the library of `version` into the registry. An earlier library
    /// of that version is replaced.
    pub fn add_library(&mut self, version: &str, schemas: StringMap<SchemaDefinition>)
        ensures
            final(self).schemas_dir == old(self).schemas_dir,
            old(self).libraries.well_formed() ==> final(self).libraries.well_formed(),
            final(self).libraries.entries@.len() == if old(self).libraries.has(version@) {
                old(self).libraries.entries@.len()
            } else {
                old(self).libraries.entries@.len() + 1
            },
            match lookup(final(self).libraries.entries@, version@) {
                Some(library) => library.version@ == version@ && library.schemas == schemas,
                None => false,
            },
    {
        let library = SchemaLibrary { version: version.to_owned(), schemas };
        let key = version.to_owned();
        proof {
            lemma_lookup_after_insert(self.libraries.entries@, key, library);
        }
        self.libraries.insert(key, library);
    }

    /// The schema for `block_type` in the library of `version`.
    pub fn get_schema(&self, version: &str, block_type: &str) -> (r: Option<&SchemaDefinition>)
        ensures
            match r {
                Some(schema) => schema_of(self.libraries.entries@, version@, block_type@) == Some(
                    *schema,
                ),
                None => schema_of(self.libraries.entries@, version@, block_type@) is None,
            },
    {
        match self.libraries.get(version) {
            Some(library) => library.schemas.get(block_type),
            None => None,
        }
    }

    /// The versions that have been loaded, each once, in the order of
    /// loading.
    pub fn list_versions(&self) -> (r: Vec<&String>)
        ensures
            lists_names_of(r@, self.libraries.entries@),
    {
        self.libraries.names()
    }

    /// The block types of the library of `version`, each once, in the order
    /// of the library: a block type is listed exactly if the library has a
    /// schema for it. None is listed where there is no such library.
    pub fn list_block_types(&self, version: &str) -> (r: Vec<&String>)
        ensures
            match lookup(self.libraries.entries@, version@) {
                Some(library) => lists_names_of(r@, library.schemas.entries@),
                None => r.len() == 0,
            },
            forall|t: Seq<char>|
                #[trigger] holds_name(r@, t) <==> schema_of(
                    self.libraries.entries@,
                    version@,
                    t,
                ) is Some,
    {
        match self.libraries.get(version) {
            Some(library) => library.schemas.names(),
            None => {
                let r: Vec<&String> = Vec::new();
                assert forall|t: Seq<char>| !(#[trigger] holds_name(r@, t)) by {}
                r
            },
        }
    }
}

} // verus!
