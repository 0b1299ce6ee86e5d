//! The check of a block against the schema of its type.

use crate::parser::models::{Block, Network, NodeData};
use crate::schema::registry::{schema_of, SchemaDefinition, SchemaRegistry};
use crate::text::join3;
use crate::value::position_from;
use vstd::prelude::*;

verus! {

/// How grave an issue is.
#[derive(Debug, Clone, Copy, PartialEq, Eq)]
pub enum IssueSeverity {
    Error,
    Warning,
}

/// One thing that was found wrong with a block, and the property that it
/// is about.
#[derive(Debug, Clone)]
pub struct ValidationIssue {
    pub severity: IssueSeverity,
    pub message: String,
    pub property: Option<String>,
}

/// What an issue holds, with sequences of characters for strings.
pub struct IssueView {
    pub severity: IssueSeverity,
    pub message: Seq<char>,
    pub property: Option<Seq<char>>,
}

impl View for ValidationIssue {
    type V = IssueView;

    open spec fn view(&self) -> IssueView {
        IssueView {
            severity: self.severity,
            message: self.message@,
            property: match self.property {
                Some(p) => Some(p@),
                None => None,
            },
        }
    }
}

/// The issues of one block, in the order in which they were found.
#[derive(Debug)]
pub struct ValidationResult {
    pub issues: Vec<ValidationIssue>,
}

/// The views of a list of issues.
pub open spec fn issues_view(issues: Seq<ValidationIssue>) -> Seq<IssueView> {
    issues.map_values(|i: ValidationIssue| i@)
}

/// Whether one of the first `n` issues is an error.
pub open spec fn has_error(issues: Seq<ValidationIssue>, n: int) -> bool
    decreases n,
{
    if n <= 0 || n > issues.len() {
        false
    } else {
        issues[n - 1].severity == IssueSeverity::Error || has_error(issues, n - 1)
    }
}

impl ValidationResult {
    /// A result without issues.
    pub fn new() -> (r: Self)
        ensures
            r.issues@.len() == 0,
    {
        ValidationResult { issues: Vec::new() }
    }

    /// Adds an error at the end.
    pub fn add_error(&mut self, message: String, property: Option<String>)
        ensures
            final(self).issues@ == old(self).issues@.push(
                ValidationIssue { severity: IssueSeverity::Error, message, property },
            ),
    {
        self.issues.push(ValidationIssue { severity: IssueSeverity::Error, message, property });
    }

    /// Adds a warning at the end.
    pub fn add_warning(&mut self, message: String, property: Option<String>)
        ensures
            final(self).issues@ == old(self).issues@.push(
                ValidationIssue { severity: IssueSeverity::Warning, message, property },
            ),
    {
        self.issues.push(ValidationIssue { severity: IssueSeverity::Warning, message, property });
    }

    /// Whether no issue is an error.
    pub fn is_valid(&self) -> (r: bool)
        ensures
            r == !has_error(self.issues@, self.issues@.len() as int),
    {
        let mut i: usize = 0;
        while i < self.issues.len()
            invariant
                i <= self.issues.len(),
                !has_error(self.issues@, i as int),
            decreases self.issues.len() - i,
        {
            match self.issues[i].severity {
                IssueSeverity::Error => {
                    proof {
                        lemma_error_stays(self.issues@, i + 1, self.issues@.len() as int);
                    }
                    return false;
                },
                IssueSeverity::Warning => {},
            }
            i += 1;
        }
        true
    }

    /// Whether there is an issue.
    pub fn has_issues(&self) -> (r: bool)
        ensures
            r == (self.issues@.len() > 0),
    {
        self.issues.len() > 0
    }
}

/// An error among the first `n` issues is an error among the first `m`,
/// for every `m` from `n` on.
pub proof fn lemma_error_stays(issues: Seq<ValidationIssue>, n: int, m: int)
    requires
        0 <= n <= m <= issues.len(),
        has_error(issues, n),
    ensures
        has_error(issues, m),
    decreases m - n,
{
    if n < m {
        lemma_error_stays(issues, n, m - 1);
    }
}

impl Default for ValidationResult {
    /// A result without issues.
    fn default() -> (r: Self)
        ensures
            r.issues@.len() == 0,
    {
        ValidationResult::new()
    }
}

/// Checks blocks against the schemas of a registry.
pub struct SchemaValidator {
    pub registry: SchemaRegistry,
}

/// Whether one of the strings is `name`.
pub open spec fn lists(names: Seq<String>, name: Seq<char>) -> bool {
    exists|i: int| 0 <= i < names.len() && (#[trigger] names[i])@ == name
}

/// The warning for a block type that has no schema.
pub open spec fn no_schema_issue(block_type: Seq<char>, version: Seq<char>) -> IssueView {
    IssueView {
        severity: IssueSeverity::Warning,
        message: "No schema found for block type '"@ + block_type + "' in version '"@ + version
            + "'"@,
        property: None,
    }
}

/// The error for a required property that a block lacks.
pub open spec fn missing_issue(property: Seq<char>, block_type: Seq<char>) -> IssueView {
    IssueView {
        severity: IssueSeverity::Error,
        message: "Required property '"@ + property + "' is missing for block type '"@
            + block_type + "'"@,
        property: Some(property),
    }
}

/// The warning for a property that the schema does not know.
pub open spec fn unknown_issue(
    property: Seq<char>,
    block_type: Seq<char>,
    version: Seq<char>,
) -> IssueView {
    IssueView {
        severity: IssueSeverity::Warning,
        message: "Unknown property '"@ + property + "' for block type '"@ + block_type
            + "' (not in schema version '"@ + version + "')"@,
        property: Some(property),
    }
}

/// The errors for those of the first `n` required properties that the
/// block lacks, in the order of the schema.
pub open spec fn missing_issues(schema: SchemaDefinition, block: Block, n: int) -> Seq<IssueView>
    decreases n,
{
    if n <= 0 || n > schema.required_properties.len() {
        Seq::empty()
    } else {
        let before = missing_issues(schema, block, n - 1);
        let name = schema.required_properties[n - 1]@;
        if block.extra.has(name) {
            before
        } else {
            before.push(missing_issue(name, block.type_@))
        }
    }
}

/// The warnings for those of the first `n` properties of the block that
/// the schema lists neither as required nor as optional, in the order of
/// the block, each name once.
pub open spec fn unknown_issues(
    schema: SchemaDefinition,
    block: Block,
    version: Seq<char>,
    n: int,
) -> Seq<IssueView>
    decreases n,
{
    if n <= 0 || n > block.extra.entries.len() {
        Seq::empty()
    } else {
        let before = unknown_issues(schema, block, version, n - 1);
        let name = block.extra.entries[n - 1].0@;
        if position_from(block.extra.entries@, name, 0) != n - 1 || lists(
            schema.required_properties@,
            name,
        ) || lists(schema.optional_properties@, name) {
            before
        } else {
            before.push(unknown_issue(name, block.type_@, version))
        }
    }
}

/// The issues of a block: a warning where its type has no schema, else an
/// error for every required property that it lacks and a warning for every
/// property that the schema does not know.
pub open spec fn block_issues(
    schema: Option<SchemaDefinition>,
    block: Block,
    version: Seq<char>,
) -> Seq<IssueView> {
    match schema {
        None => seq![no_schema_issue(block.type_@, version)],
        Some(s) => missing_issues(s, block, s.required_properties.len() as int) + unknown_issues(
            s,
            block,
            version,
            block.extra.entries.len() as int,
        ),
    }
}

/// Whether one of `names` is `name`.
pub fn is_listed(names: &Vec<String>, name: &String) -> (r: bool)
    ensures
        r == lists(names@, name@),
{
    let mut i: usize = 0;
    while i < names.len()
        invariant
            i <= names.len(),
            forall|j: int| 0 <= j < i ==> (#[trigger] names[j])@ != name@,
        decreases names.len() - i,
    {
        if names[i] == *name {
            return true;
        }
        i += 1;
    }
    false
}

impl SchemaValidator {
    /// A validator for the schemas of `registry`.
    pub fn new(registry: SchemaRegistry) -> (r: Self)
        ensures
            r.registry == registry,
    {
        SchemaValidator { registry }
    }

    /// Checks `block` against the schema of its type in the library of
    /// `schema_version`.
    pub fn validate_block(&self, block: &Block, schema_version: &str) -> (r: ValidationResult)
        ensures
            issues_view(r.issues@) == block_issues(
                schema_of(self.registry.libraries.entries@, schema_version@, block.type_@),
                *block,
                schema_version@,
            ),
    {
        let mut result = ValidationResult::new();
        let schema = match self.registry.get_schema(schema_version, block.type_.as_str()) {
            Some(s) => s,
            None => {
                let mut message = join3(
                    "No schema found for block type '",
                    block.type_.as_str(),
                    "' in version '",
                );
                message.append(schema_version);
                message.append("'");
                result.add_warning(message, None);
                assert(issues_view(result.issues@) =~= seq![
                    no_schema_issue(block.type_@, schema_version@),
                ]);
                return result;
            },
        };
        assert(issues_view(result.issues@) =~= Seq::<IssueView>::empty());
        let mut i: usize = 0;
        while i < schema.required_properties.len()
            invariant
                i <= schema.required_properties.len(),
                issues_view(result.issues@) == missing_issues(*schema, *block, i as int),
            decreases schema.required_properties.len() - i,
        {
            let name = &schema.required_properties[i];
            if !block.extra.contains_key(name.as_str()) {
                let mut message = join3(
                    "Required property '",
                    name.as_str(),
                    "' is missing for block type '",
                );
                message.append(block.type_.as_str());
                message.append("'");
                let ghost before = issues_view(result.issues@);
                result.add_error(message, Some(name.clone()));
                assert(issues_view(result.issues@) =~= before.push(
                    missing_issue(name@, block.type_@),
                ));
            }
            i += 1;
        }
        let ghost missing = issues_view(result.issues@);
        assert(missing + Seq::<IssueView>::empty() =~= missing);
        let mut k: usize = 0;
        while k < block.extra.entries.len()
            invariant
                k <= block.extra.entries.len(),
                issues_view(result.issues@) == missing + unknown_issues(
                    *schema,
                    *block,
                    schema_version@,
                    k as int,
                ),
            decreases block.extra.entries.len() - k,
        {
            let name = &block.extra.entries[k].0;
            let first = block.extra.position(name.as_str());
            if first == k && !is_listed(&schema.required_properties, name) && !is_listed(
                &schema.optional_properties,
                name,
            ) {
                let mut message = join3(
                    "Unknown property '",
                    name.as_str(),
                    "' for block type '",
                );
                message.append(block.type_.as_str());
                message.append("' (not in schema version '");
                message.append(schema_version);
                message.append("')");
                let ghost before = issues_view(result.issues@);
                result.add_warning(message, Some(name.clone()));
                assert(issues_view(result.issues@) =~= before.push(
                    unknown_issue(name@, block.type_@, schema_version@),
                ));
                assert(issues_view(result.issues@) =~= missing + unknown_issues(
                    *schema,
                    *block,
                    schema_version@,
                    k + 1,
                ));
            }
            k += 1;
        }
        result
    }
}

/// The issues of one block of a network.
pub struct BlockReport {
    /// The branch that holds the block.
    pub node_id: String,
    /// The index of the block in its branch.
    pub block_index: usize,
    /// The type of the block.
    pub block_type: String,
    /// What was found.
    pub result: ValidationResult,
}

/// The number of issues of the given severity among the first `n`.
pub open spec fn count_severity(issues: Seq<ValidationIssue>, severity: IssueSeverity, n: int) -> nat
    decreases n,
{
    if n <= 0 || n > issues.len() {
        0
    } else {
        count_severity(issues, severity, n - 1) + if issues[n - 1].severity == severity {
            1nat
        } else {
            0nat
        }
    }
}

/// The number of issues of the given severity.
pub fn count_issues(result: &ValidationResult, severity: IssueSeverity) -> (r: usize)
    ensures
        r == count_severity(result.issues@, severity, result.issues@.len() as int),
{
    let mut count: usize = 0;
    let mut i: usize = 0;
    while i < result.issues.len()
        invariant
            i <= result.issues.len(),
            count == count_severity(result.issues@, severity, i as int),
            count <= i,
        decreases result.issues.len() - i,
    {
        let same = match (result.issues[i].severity, severity) {
            (IssueSeverity::Error, IssueSeverity::Error) => true,
            (IssueSeverity::Warning, IssueSeverity::Warning) => true,
            _ => false,
        };
        if same {
            count += 1;
        }
        i += 1;
    }
    count
}

/// The blocks of the first `n` nodes, as pairs of the index of the node
/// and the index of the block in it, in the order of the network.
pub open spec fn block_places(nodes: Seq<NodeData>, n: int) -> Seq<(int, int)>
    decreases n,
{
    if n <= 0 || n > nodes.len() {
        Seq::empty()
    } else {
        let before = block_places(nodes, n - 1);
        match nodes[n - 1] {
            NodeData::Branch(branch) => before + Seq::new(
                branch.blocks.len() as nat,
                |k: int| (n - 1, k),
            ),
            _ => before,
        }
    }
}

/// The block at a place of the network.
pub open spec fn block_at(nodes: Seq<NodeData>, place: (int, int)) -> Block {
    nodes[place.0]->Branch_0.blocks[place.1]
}

impl SchemaValidator {
    /// Whether `report` is the report of the block at `place`.
    pub open spec fn reports_place(
        &self,
        nodes: Seq<NodeData>,
        version: Seq<char>,
        report: BlockReport,
        place: (int, int),
    ) -> bool {
        &&& report.block_index == place.1
        &&& report.node_id@ == nodes[place.0].spec_base().id@
        &&& report.block_type@ == block_at(nodes, place).type_@
        &&& issues_view(report.result.issues@) == block_issues(
            schema_of(self.registry.libraries.entries@, version, block_at(nodes, place).type_@),
            block_at(nodes, place),
            version,
        )
    }

    /// Checks every block of every branch of `network`: one report for
    /// each block, in the order of the network.
    pub fn validate_network(&self, network: &Network, schema_version: &str) -> (r: Vec<
        BlockReport,
    >)
        ensures
            r.len() == block_places(network.nodes@, network.nodes.len() as int).len(),
            forall|j: int|
                0 <= j < r.len() ==> self.reports_place(
                    network.nodes@,
                    schema_version@,
                    #[trigger] r[j],
                    block_places(network.nodes@, network.nodes.len() as int)[j],
                ),
    {
        let mut reports: Vec<BlockReport> = Vec::new();
        let mut i: usize = 0;
        while i < network.nodes.len()
            invariant
                i <= network.nodes.len(),
                reports.len() == block_places(network.nodes@, i as int).len(),
                forall|j: int|
                    0 <= j < reports.len() ==> self.reports_place(
                        network.nodes@,
                        schema_version@,
                        #[trigger] reports[j],
                        block_places(network.nodes@, i as int)[j],
                    ),
            decreases network.nodes.len() - i,
        {
            let ghost places_before = block_places(network.nodes@, i as int);
            let ghost places_after = block_places(network.nodes@, i + 1);
            match &network.nodes[i] {
                NodeData::Branch(branch) => {
                    let mut b: usize = 0;
                    while b < branch.blocks.len()
                        invariant
                            b <= branch.blocks.len(),
                            i < network.nodes.len(),
                            network.nodes[i as int] == NodeData::Branch(*branch),
                            places_before == block_places(network.nodes@, i as int),
                            places_after == places_before + Seq::new(
                                branch.blocks.len() as nat,
                                |k: int| (i as int, k),
                            ),
                            reports.len() == places_before.len() + b,
                            forall|j: int|
                                0 <= j < reports.len() ==> self.reports_place(
                                    network.nodes@,
                                    schema_version@,
                                    #[trigger] reports[j],
                                    places_after[j],
                                ),
                        decreases branch.blocks.len() - b,
                    {
                        let result = self.validate_block(&branch.blocks[b], schema_version);
                        let report = BlockReport {
                            node_id: branch.base.id.clone(),
                            block_index: b,
                            block_type: branch.blocks[b].type_.clone(),
                            result,
                        };
                        proof {
                            let j = places_before.len() + b;
                            assert(places_after[j] == (i as int, b as int));
                        }
                        reports.push(report);
                        b += 1;
                    }
                },
                _ => {},
            }
            i += 1;
        }
        reports
    }
}

} // verus!
