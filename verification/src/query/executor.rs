//! The evaluation of query paths against a network.

use crate::dim::formatter::{
    format_plan, optional_metadata, with_originals, FormatPlan, UnitFormatter,
    UnitPreferences,
};
use crate::dim::processor::{original_key, original_key_of};
use crate::numeric::{spec_within_epsilon, within_epsilon};
use crate::parser::models::{
    branch_position, group_position, node_position, Block, BranchNode, Edge, GroupNode, Network,
    NodeBase, NodeData, Outgoing, Position,
};
use crate::query::parser::{
    parse_error_message, path_view, FilterOperator, ParseError, ParseErrorView, PathView,
    QueryPath, texts_view,
};
use crate::schema::registry::{schema_of, PropertyMetadata, SchemaRegistry};
use crate::scope::config::{level_of_name, ScopeLevel};
use crate::scope::resolver::{deref_group, resolve_from, scope_chain, ScopeResolver};
use crate::text::{
    text_before, text_lt_from, chars_of, contains_char, decimal, decimal_text, ends_with, find_char, has_prefix, has_suffix,
    join2, join3, split, split_chars, starts_with, text_between, views_of,
};
use crate::value::{
    array_of, insert_member, items_view, json_of_toml, lemma_items_view, lemma_members_view,
    lemma_with_entry_texts, named_texts, lookup, member, member_position, members_view, no_members, number_of_int, object_of,
    push_member, serialize_toml, serialized_toml, toml_to_json, with_member, find_member, Float, JsonValue, JsonView, Number,
    StringMap, TomlValue,
};
use vstd::prelude::*;

verus! {

/// Why a query could not be answered.
#[derive(Debug, Clone, PartialEq)]
pub enum QueryError {
    /// No node has this identifier.
    NodeNotFound(String),
    /// The value has no such property, and no scope defines it.
    PropertyNotFound(String),
    /// An index, and the length of the list that it does not fit.
    IndexOutOfRange(usize, usize),
    /// An operation was applied to a value of the wrong kind.
    InvalidType(String),
    /// The path could not be parsed.
    ParseError(ParseError),
}

/// What a query error holds, with sequences of characters for strings.
pub enum QueryErrorView {
    NodeNotFound(Seq<char>),
    PropertyNotFound(Seq<char>),
    IndexOutOfRange(usize, usize),
    InvalidType(Seq<char>),
    ParseError(ParseErrorView),
}

impl View for QueryError {
    type V = QueryErrorView;

    open spec fn view(&self) -> QueryErrorView {
        match self {
            QueryError::NodeNotFound(s) => QueryErrorView::NodeNotFound(s@),
            QueryError::PropertyNotFound(s) => QueryErrorView::PropertyNotFound(s@),
            QueryError::IndexOutOfRange(i, n) => QueryErrorView::IndexOutOfRange(*i, *n),
            QueryError::InvalidType(s) => QueryErrorView::InvalidType(s@),
            QueryError::ParseError(e) => QueryErrorView::ParseError(e@),
        }
    }
}

/// The sentence that describes a query error.
pub open spec fn query_error_message(e: QueryErrorView) -> Seq<char> {
    match e {
        QueryErrorView::NodeNotFound(id) => "Node '"@ + id + "' not found"@,
        QueryErrorView::PropertyNotFound(name) => "Property '"@ + name + "' not found"@,
        QueryErrorView::IndexOutOfRange(i, n) => "Index "@ + decimal(i as nat)
            + " out of range (length: "@ + decimal(n as nat) + ")"@,
        QueryErrorView::InvalidType(detail) => "Invalid type: "@ + detail,
        QueryErrorView::ParseError(inner) => "Parse error: "@ + parse_error_message(inner),
    }
}

impl QueryError {
    /// The sentence that describes the error.
    pub fn message(&self) -> (s: String)
        ensures
            s@ == query_error_message(self@),
    {
        match self {
            QueryError::NodeNotFound(id) => join3("Node '", id.as_str(), "' not found"),
            QueryError::PropertyNotFound(name) => join3(
                "Property '",
                name.as_str(),
                "' not found",
            ),
            QueryError::IndexOutOfRange(i, n) => {
                let mut s = join2("Index ", decimal_text(*i).as_str());
                s.append(" out of range (length: ");
                s.append(decimal_text(*n).as_str());
                s.append(")");
                s
            },
            QueryError::InvalidType(detail) => join2("Invalid type: ", detail.as_str()),
            QueryError::ParseError(inner) => join2("Parse error: ", inner.message().as_str()),
        }
    }
}

impl From<ParseError> for QueryError {
    /// The query error that wraps a parse error.
    fn from(e: ParseError) -> (r: QueryError) {
        QueryError::ParseError(e)
    }
}

impl vstd::std_specs::convert::FromSpecImpl<ParseError> for QueryError {
    open spec fn obeys_from_spec() -> bool {
        true
    }

    open spec fn from_spec(e: ParseError) -> QueryError {
        QueryError::ParseError(e)
    }
}

/// What an evaluation yields, seen through the views of its two outcomes.
pub open spec fn query_outcome(r: Result<JsonValue, QueryError>) -> Result<
    JsonView,
    QueryErrorView,
> {
    match r {
        Ok(v) => Ok(v@),
        Err(e) => Err(e@),
    }
}

/// The object that stands for a position.
pub open spec fn position_json(p: Position) -> JsonView {
    JsonView::Object(
        seq![
            ("x"@, JsonView::Number(number_of_int(p.x as i64))),
            ("y"@, JsonView::Number(number_of_int(p.y as i64))),
        ],
    )
}

/// Whether `key` names the unit string that another property was written
/// with: such keys begin with `_` and end with `_original`.
pub open spec fn is_original_key(key: Seq<char>) -> bool {
    has_prefix(key, "_"@) && has_suffix(key, "_original"@)
}

/// The members that every block has: its type, and its quantity where one
/// is given.
pub open spec fn block_head(b: Block) -> Seq<(Seq<char>, JsonView)> {
    let head = seq![("type"@, JsonView::String(b.type_@))];
    match b.quantity {
        Some(q) => head.push(("quantity"@, JsonView::Number(Number::PosInt(q as u64)))),
        None => head,
    }
}

/// The members of a block after its first `n` properties were added. A
/// property is put under its own name, in the place of an earlier member of
/// that name if there is one; the unit strings kept beside properties are
/// left out.
pub open spec fn block_members(b: Block, n: int) -> Seq<(Seq<char>, JsonView)>
    decreases n,
{
    if n <= 0 || n > b.extra.entries.len() {
        block_head(b)
    } else {
        let before = block_members(b, n - 1);
        let entry = b.extra.entries[n - 1];
        if is_original_key(entry.0@) {
            before
        } else {
            with_member(before, entry.0@, json_of_toml(entry.1@))
        }
    }
}

/// The object that stands for a block.
pub open spec fn block_json(b: Block) -> JsonView {
    JsonView::Object(block_members(b, b.extra.entries.len() as int))
}

/// The objects that stand for the blocks of a branch.
pub open spec fn blocks_json(blocks: Seq<Block>) -> Seq<JsonView> {
    Seq::new(blocks.len(), |i: int| block_json(blocks[i]))
}

/// The object that stands for a connection.
pub open spec fn outgoing_json(o: Outgoing) -> JsonView {
    JsonView::Object(
        seq![
            ("target"@, JsonView::String(o.target@)),
            ("weight"@, JsonView::Number(Number::PosInt(o.weight as u64))),
        ],
    )
}

/// The objects that stand for the connections of a branch.
pub open spec fn all_outgoing_json(outgoing: Seq<Outgoing>) -> Seq<JsonView> {
    Seq::new(outgoing.len(), |i: int| outgoing_json(outgoing[i]))
}

/// The members that every node has: identifier, type, label where there is
/// one, and position.
pub open spec fn base_members(base: NodeBase) -> Seq<(Seq<char>, JsonView)> {
    let head = seq![("id"@, JsonView::String(base.id@)), ("type"@, JsonView::String(base.type_@))];
    let labelled = match base.label {
        Some(label) => head.push(("label"@, JsonView::String(label@))),
        None => head,
    };
    labelled.push(("position"@, position_json(base.position)))
}

/// The members that only a branch has: its blocks, and its connections
/// where it has any.
pub open spec fn branch_members(branch: BranchNode) -> Seq<(Seq<char>, JsonView)> {
    let blocks = seq![("blocks"@, JsonView::Array(blocks_json(branch.blocks@)))];
    if branch.outgoing.len() > 0 {
        blocks.push(("outgoing"@, JsonView::Array(all_outgoing_json(branch.outgoing@))))
    } else {
        blocks
    }
}

/// The member that names the parent, where there is one.
pub open spec fn parent_members(base: NodeBase) -> Seq<(Seq<char>, JsonView)> {
    match base.parent_id {
        Some(parent) => seq![("parentId"@, JsonView::String(parent@))],
        None => Seq::empty(),
    }
}

/// The object that stands for a node in queries: what every node has, for
/// a branch its blocks and connections, and the parent where there is one.
pub open spec fn node_json(node: NodeData) -> JsonView {
    match node {
        NodeData::Branch(branch) => JsonView::Object(
            base_members(branch.base) + branch_members(branch) + parent_members(branch.base),
        ),
        _ => JsonView::Object(
            base_members(node.spec_base()) + parent_members(node.spec_base()),
        ),
    }
}

/// Builds the object that stands for a position.
pub fn position_to_json(p: &Position) -> (r: JsonValue)
    ensures
        r@ == position_json(*p),
{
    let mut members = no_members();
    push_member(&mut members, "x", JsonValue::signed(p.x as i64));
    push_member(&mut members, "y", JsonValue::signed(p.y as i64));
    assert(members_view(members) =~= position_json(*p)->Object_0);
    object_of(members)
}

/// Whether `key` names a unit string kept beside a property.
pub fn names_an_original(key: &str) -> (r: bool)
    ensures
        r == is_original_key(key@),
{
    let chars = chars_of(key);
    starts_with(&chars, "_") && ends_with(&chars, "_original")
}

/// Builds the object that stands for a block.
pub fn block_to_json(b: &Block) -> (r: JsonValue)
    ensures
        r@ == block_json(*b),
{
    let mut members = no_members();
    push_member(&mut members, "type", JsonValue::text(b.type_.as_str()));
    match b.quantity {
        Some(q) => {
            push_member(&mut members, "quantity", JsonValue::unsigned(q as u64));
        },
        None => {},
    }
    assert(members_view(members) =~= block_head(*b));
    let mut i: usize = 0;
    while i < b.extra.entries.len()
        invariant
            i <= b.extra.entries.len(),
            members_view(members) == block_members(*b, i as int),
        decreases b.extra.entries.len() - i,
    {
        let entry = &b.extra.entries[i];
        if !names_an_original(entry.0.as_str()) {
            insert_member(&mut members, entry.0.clone(), toml_to_json(&entry.1));
        }
        i += 1;
    }
    object_of(members)
}

/// Builds the objects that stand for the blocks of a branch.
pub fn blocks_to_json(blocks: &Vec<Block>) -> (r: JsonValue)
    ensures
        r@ == JsonView::Array(blocks_json(blocks@)),
{
    let mut items: Vec<JsonValue> = Vec::new();
    let mut i: usize = 0;
    while i < blocks.len()
        invariant
            i <= blocks.len(),
            items.len() == i,
            forall|j: int| 0 <= j < i ==> items[j]@ == block_json(blocks[j]),
        decreases blocks.len() - i,
    {
        items.push(block_to_json(&blocks[i]));
        i += 1;
    }
    proof {
        lemma_items_view(items);
        assert(items_view(items) =~= blocks_json(blocks@));
    }
    array_of(items)
}

/// Builds the objects that stand for the connections of a branch.
pub fn outgoing_to_json(outgoing: &Vec<Outgoing>) -> (r: JsonValue)
    ensures
        r@ == JsonView::Array(all_outgoing_json(outgoing@)),
{
    let mut items: Vec<JsonValue> = Vec::new();
    let mut i: usize = 0;
    while i < outgoing.len()
        invariant
            i <= outgoing.len(),
            items.len() == i,
            forall|j: int| 0 <= j < i ==> items[j]@ == outgoing_json(outgoing[j]),
        decreases outgoing.len() - i,
    {
        let mut members = no_members();
        push_member(&mut members, "target", JsonValue::text(outgoing[i].target.as_str()));
        push_member(&mut members, "weight", JsonValue::unsigned(outgoing[i].weight as u64));
        assert(members_view(members) =~= outgoing_json(outgoing[i as int])->Object_0);
        items.push(object_of(members));
        i += 1;
    }
    proof {
        lemma_items_view(items);
        assert(items_view(items) =~= all_outgoing_json(outgoing@));
    }
    array_of(items)
}

/// Builds the object that stands for a node in queries.
pub fn node_to_json(node: &NodeData) -> (r: JsonValue)
    ensures
        r@ == node_json(*node),
{
    let base = node.base();
    let mut members = no_members();
    push_member(&mut members, "id", JsonValue::text(base.id.as_str()));
    push_member(&mut members, "type", JsonValue::text(base.type_.as_str()));
    match &base.label {
        Some(label) => {
            push_member(&mut members, "label", JsonValue::text(label.as_str()));
        },
        None => {},
    }
    push_member(&mut members, "position", position_to_json(&base.position));
    assert(members_view(members) =~= base_members(*base));
    match node {
        NodeData::Branch(branch) => {
            push_member(&mut members, "blocks", blocks_to_json(&branch.blocks));
            if branch.outgoing.len() > 0 {
                push_member(&mut members, "outgoing", outgoing_to_json(&branch.outgoing));
            }
            assert(members_view(members) =~= base_members(*base) + branch_members(*branch));
        },
        _ => {},
    }
    match &base.parent_id {
        Some(parent) => {
            push_member(&mut members, "parentId", JsonValue::text(parent.as_str()));
        },
        None => {},
    }
    assert(members_view(members) =~= node_json(*node)->Object_0);
    object_of(members)
}

/// The property `name` of a value. An object has its members as
/// properties, and itself under the name `data`; nothing else has
/// properties.
pub open spec fn property_of(value: JsonView, name: Seq<char>) -> Result<JsonView, QueryErrorView> {
    match value {
        JsonView::Object(members) => if name == "data"@ {
            Ok(value)
        } else {
            match member(members, name) {
                Some(v) => Ok(v),
                None => Err(QueryErrorView::PropertyNotFound(name)),
            }
        },
        _ => Err(
            QueryErrorView::InvalidType("Cannot access property '"@ + name + "' on non-object"@),
        ),
    }
}

/// The element of a list at index `i`.
pub open spec fn element_of(value: JsonView, i: usize) -> Result<JsonView, QueryErrorView> {
    match value {
        JsonView::Array(items) => if i >= items.len() {
            Err(QueryErrorView::IndexOutOfRange(i, items.len() as usize))
        } else {
            Ok(items[i as int])
        },
        _ => Err(
            QueryErrorView::InvalidType(
                "Cannot index into non-array (index: "@ + decimal(i as nat) + ")"@,
            ),
        ),
    }
}

/// The first index of a range: the one given, or 0.
pub open spec fn range_start(start: Option<usize>) -> usize {
    match start {
        Some(s) => s,
        None => 0,
    }
}

/// The last index of a range over `len` elements: the one given, or the
/// index of the last element.
pub open spec fn range_end(end: Option<usize>, len: nat) -> usize {
    match end {
        Some(e) => e,
        None => if len == 0 {
            0
        } else {
            (len - 1) as usize
        },
    }
}

/// The elements of a list from the first index of the range up to and
/// including the last. Both must be indices of the list, and the first
/// must not lie behind the last.
pub open spec fn slice_of(value: JsonView, start: Option<usize>, end: Option<usize>) -> Result<
    JsonView,
    QueryErrorView,
> {
    match value {
        JsonView::Array(items) => {
            let s = range_start(start);
            let e = range_end(end, items.len());
            if s >= items.len() {
                Err(QueryErrorView::IndexOutOfRange(s, items.len() as usize))
            } else if e >= items.len() {
                Err(QueryErrorView::IndexOutOfRange(e, items.len() as usize))
            } else if s > e {
                Err(
                    QueryErrorView::InvalidType(
                        "Range start ("@ + decimal(s as nat) + ") must be <= end ("@ + decimal(
                            e as nat,
                        ) + ")"@,
                    ),
                )
            } else {
                Ok(JsonView::Array(items.subrange(s as int, e + 1)))
            }
        },
        _ => Err(QueryErrorView::InvalidType("Cannot apply range to non-array"@)),
    }
}

/// Whether a value equals the text of a filter. A string does if it is the
/// text; a number does if the text reads as a number and the two are
/// within the tolerance; a truth value does if the text is its name;
/// nothing else equals any text. `reading` is the number that the text
/// reads as, if it does.
pub open spec fn value_matches(value: JsonView, text: Seq<char>, reading: Option<Float>) -> bool {
    match value {
        JsonView::String(s) => s == text,
        JsonView::Number(n) => match reading {
            Some(f) => spec_within_epsilon(n.spec_as_float(), f),
            None => false,
        },
        JsonView::Bool(b) => (b && text == "true"@) || (!b && text == "false"@),
        _ => false,
    }
}

/// Whether `a` stands to `b` as the ordering operator asks.
pub open spec fn ordering_holds(operator: FilterOperator, a: Float, b: Float) -> bool {
    match operator {
        FilterOperator::GreaterThan => b.spec_lt(a),
        FilterOperator::LessThan => a.spec_lt(b),
        FilterOperator::GreaterThanOrEqual => b.spec_le(a),
        FilterOperator::LessThanOrEqual => a.spec_le(b),
        _ => false,
    }
}

/// The outcome of an ordering comparison of a value with the text of a
/// filter: only numbers can be compared, and only with text that reads as
/// a number.
pub open spec fn numeric_comparison(
    value: JsonView,
    operator: FilterOperator,
    text: Seq<char>,
    reading: Option<Float>,
) -> Result<bool, QueryErrorView> {
    match value {
        JsonView::Number(n) => match reading {
            Some(f) => Ok(ordering_holds(operator, n.spec_as_float(), f)),
            None => Err(
                QueryErrorView::InvalidType("Cannot parse filter value as number: "@ + text),
            ),
        },
        _ => Err(QueryErrorView::InvalidType("Comparison operators only work with numbers"@)),
    }
}

/// The outcome of the comparison of a field's value with the text of a
/// filter.
pub open spec fn filter_verdict(
    value: JsonView,
    operator: FilterOperator,
    text: Seq<char>,
    reading: Option<Float>,
) -> Result<bool, QueryErrorView> {
    match operator {
        FilterOperator::Equals => Ok(value_matches(value, text, reading)),
        FilterOperator::NotEquals => Ok(!value_matches(value, text, reading)),
        _ => numeric_comparison(value, operator, text, reading),
    }
}

/// The value reached from `value` through the properties `parts[from..]`,
/// one after the other.
pub open spec fn nested_property(value: JsonView, parts: Seq<Seq<char>>, from: int) -> Result<
    JsonView,
    QueryErrorView,
>
    decreases parts.len() - from,
{
    if from < 0 || from >= parts.len() {
        Ok(value)
    } else {
        match property_of(value, parts[from]) {
            Ok(v) => nested_property(v, parts, from + 1),
            Err(e) => Err(e),
        }
    }
}

/// The value of the field of a filter in one element: a property, or for
/// a field with dots the property reached through its parts.
pub open spec fn field_of(item: JsonView, field: Seq<char>) -> Result<JsonView, QueryErrorView> {
    if contains_char(field, '.') {
        nested_property(item, split(field, '.'), 0)
    } else {
        property_of(item, field)
    }
}

/// The outcome of a filter for one element. An element without the field
/// is not kept. For an element with the field the comparison decides; a
/// comparison that cannot be made, as an ordering of what is no number, is
/// an error.
pub open spec fn element_verdict(
    item: JsonView,
    field: Seq<char>,
    operator: FilterOperator,
    text: Seq<char>,
    reading: Option<Float>,
) -> Result<bool, QueryErrorView> {
    match field_of(item, field) {
        Ok(value) => filter_verdict(value, operator, text, reading),
        Err(_) => Ok(false),
    }
}

/// Whether a filter keeps an element: the element has the field, and the
/// comparison holds.
pub open spec fn keeps(
    item: JsonView,
    field: Seq<char>,
    operator: FilterOperator,
    text: Seq<char>,
    reading: Option<Float>,
) -> bool {
    element_verdict(item, field, operator, text, reading) == Ok::<bool, QueryErrorView>(true)
}

/// The error of the first element at or after `from`, in the order of the
/// list, whose comparison cannot be made; none where every comparison can.
pub open spec fn first_failure(
    items: Seq<JsonView>,
    field: Seq<char>,
    operator: FilterOperator,
    text: Seq<char>,
    reading: Option<Float>,
    from: int,
) -> Option<QueryErrorView>
    decreases items.len() - from,
{
    if from < 0 || from >= items.len() {
        None
    } else {
        match element_verdict(items[from], field, operator, text, reading) {
            Err(e) => Some(e),
            Ok(_) => first_failure(items, field, operator, text, reading, from + 1),
        }
    }
}

/// Those of the first `n` elements that a filter keeps, in their order.
pub open spec fn kept_items(
    items: Seq<JsonView>,
    field: Seq<char>,
    operator: FilterOperator,
    text: Seq<char>,
    reading: Option<Float>,
    n: int,
) -> Seq<JsonView>
    decreases n,
{
    if n <= 0 || n > items.len() {
        Seq::empty()
    } else {
        let before = kept_items(items, field, operator, text, reading, n - 1);
        if keeps(items[n - 1], field, operator, text, reading) {
            before.push(items[n - 1])
        } else {
            before
        }
    }
}

/// The elements of a list that a filter keeps. A comparison that cannot
/// be made ends the filter with its error: that of the first such element
/// in the order of the list. Elements without the field are passed over.
pub open spec fn filtered(
    value: JsonView,
    field: Seq<char>,
    operator: FilterOperator,
    text: Seq<char>,
    reading: Option<Float>,
) -> Result<JsonView, QueryErrorView> {
    match value {
        JsonView::Array(items) => match first_failure(items, field, operator, text, reading, 0) {
            Some(e) => Err(e),
            None => Ok(
                JsonView::Array(
                    kept_items(items, field, operator, text, reading, items.len() as int),
                ),
            ),
        },
        _ => Err(QueryErrorView::InvalidType("Filter can only be applied to arrays"@)),
    }
}

/// What a borrowed result yields, seen through views.
pub open spec fn borrowed_outcome(r: Result<&JsonValue, QueryError>) -> Result<
    JsonView,
    QueryErrorView,
> {
    match r {
        Ok(v) => Ok(v@),
        Err(e) => Err(e@),
    }
}

/// The property `name` of `value`, borrowed from it.
pub fn property_ref<'a>(value: &'a JsonValue, name: &str) -> (r: Result<&'a JsonValue, QueryError>)
    ensures
        borrowed_outcome(r) == property_of(value@, name@),
{
    match value {
        JsonValue::Object(members) => {
            if name.to_owned() == "data".to_owned() {
                return Ok(value);
            }
            let i = find_member(members, name);
            proof {
                lemma_members_view(*members);
            }
            if i < members.len() {
                Ok(&members[i].1)
            } else {
                Err(QueryError::PropertyNotFound(name.to_owned()))
            }
        },
        _ => Err(QueryError::InvalidType(join3("Cannot access property '", name, "' on non-object"))),
    }
}

/// The property `name` of `value`.
pub fn get_property(value: &JsonValue, name: &str) -> (r: Result<JsonValue, QueryError>)
    ensures
        query_outcome(r) == property_of(value@, name@),
{
    match property_ref(value, name) {
        Ok(v) => Ok(v.clone()),
        Err(e) => Err(e),
    }
}

/// The element of `value` at index `idx`.
pub fn get_index(value: &JsonValue, idx: usize) -> (r: Result<JsonValue, QueryError>)
    ensures
        query_outcome(r) == element_of(value@, idx),
{
    match value {
        JsonValue::Array(items) => {
            proof {
                lemma_items_view(*items);
            }
            if idx >= items.len() {
                return Err(QueryError::IndexOutOfRange(idx, items.len()));
            }
            Ok(items[idx].clone())
        },
        _ => Err(
            QueryError::InvalidType(
                join3("Cannot index into non-array (index: ", decimal_text(idx).as_str(), ")"),
            ),
        ),
    }
}

/// The elements of `value` from `start` up to and including `end`.
pub fn get_range(value: &JsonValue, start: Option<usize>, end: Option<usize>) -> (r: Result<
    JsonValue,
    QueryError,
>)
    ensures
        query_outcome(r) == slice_of(value@, start, end),
{
    match value {
        JsonValue::Array(items) => {
            proof {
                lemma_items_view(*items);
            }
            let start_idx = match start {
                Some(s) => s,
                None => 0,
            };
            let end_idx = match end {
                Some(e) => e,
                None => if items.len() == 0 {
                    0
                } else {
                    items.len() - 1
                },
            };
            if start_idx >= items.len() {
                return Err(QueryError::IndexOutOfRange(start_idx, items.len()));
            }
            if end_idx >= items.len() {
                return Err(QueryError::IndexOutOfRange(end_idx, items.len()));
            }
            if start_idx > end_idx {
                let mut s = join2("Range start (", decimal_text(start_idx).as_str());
                s.append(") must be <= end (");
                s.append(decimal_text(end_idx).as_str());
                s.append(")");
                return Err(QueryError::InvalidType(s));
            }
            let mut slice: Vec<JsonValue> = Vec::new();
            let mut i: usize = start_idx;
            while i <= end_idx
                invariant
                    start_idx <= i <= end_idx + 1,
                    end_idx < items.len(),
                    slice.len() == i - start_idx,
                    forall|j: int| 0 <= j < slice.len() ==> slice[j]@ == items[start_idx + j]@,
                decreases end_idx + 1 - i,
            {
                slice.push(items[i].clone());
                i += 1;
            }
            proof {
                lemma_items_view(slice);
                assert(items_view(slice) =~= items_view(*items).subrange(
                    start_idx as int,
                    end_idx + 1,
                ));
            }
            Ok(array_of(slice))
        },
        _ => Err(QueryError::InvalidType("Cannot apply range to non-array".to_owned())),
    }
}

/// Whether `value` equals the text of a filter that reads as `reading`.
pub fn matches_value(value: &JsonValue, filter_value: &str, reading: Option<Float>) -> (r: bool)
    ensures
        r == value_matches(value@, filter_value@, reading),
{
    match value {
        JsonValue::String(s) => *s == filter_value.to_owned(),
        JsonValue::Number(n) => match reading {
            Some(f) => within_epsilon(&n.as_float(), &f),
            None => false,
        },
        JsonValue::Bool(b) => {
            let text = filter_value.to_owned();
            (*b && text == "true".to_owned()) || (!*b && text == "false".to_owned())
        },
        _ => false,
    }
}

/// Compares a number with the text of a filter that reads as `reading`.
pub fn compare_numeric(
    value: &JsonValue,
    operator: FilterOperator,
    filter_value: &str,
    reading: Option<Float>,
) -> (r: Result<bool, QueryError>)
    ensures
        match r {
            Ok(b) => numeric_comparison(value@, operator, filter_value@, reading) == Ok::<
                bool,
                QueryErrorView,
            >(b),
            Err(e) => numeric_comparison(value@, operator, filter_value@, reading) == Err::<
                bool,
                QueryErrorView,
            >(e@),
        },
{
    let n = match value {
        JsonValue::Number(n) => n.as_float(),
        _ => {
            return Err(
                QueryError::InvalidType("Comparison operators only work with numbers".to_owned()),
            );
        },
    };
    let f = match reading {
        Some(f) => f,
        None => {
            return Err(
                QueryError::InvalidType(
                    join2("Cannot parse filter value as number: ", filter_value),
                ),
            );
        },
    };
    Ok(
        match operator {
            FilterOperator::GreaterThan => n.gt(&f),
            FilterOperator::LessThan => n.lt(&f),
            FilterOperator::GreaterThanOrEqual => n.ge(&f),
            FilterOperator::LessThanOrEqual => n.le(&f),
            _ => false,
        },
    )
}

/// The comparison of a field's value with the text of a filter.
pub fn matches_filter_value(
    field_value: &JsonValue,
    operator: FilterOperator,
    filter_value: &str,
    reading: Option<Float>,
) -> (r: Result<bool, QueryError>)
    ensures
        match r {
            Ok(b) => filter_verdict(field_value@, operator, filter_value@, reading) == Ok::<
                bool,
                QueryErrorView,
            >(b),
            Err(e) => filter_verdict(field_value@, operator, filter_value@, reading) == Err::<
                bool,
                QueryErrorView,
            >(e@),
        },
{
    match operator {
        FilterOperator::Equals => Ok(matches_value(field_value, filter_value, reading)),
        FilterOperator::NotEquals => Ok(!matches_value(field_value, filter_value, reading)),
        _ => compare_numeric(field_value, operator, filter_value, reading),
    }
}

/// The value reached from `value` through the properties named in `path`,
/// which are separated by dots.
pub fn nested_ref<'a>(value: &'a JsonValue, path: &str) -> (r: Result<&'a JsonValue, QueryError>)
    ensures
        borrowed_outcome(r) == nested_property(value@, split(path@, '.'), 0),
{
    let chars = chars_of(path);
    let parts = split_chars(&chars, '.');
    let mut current: &'a JsonValue = value;
    let mut i: usize = 0;
    while i < parts.len()
        invariant
            i <= parts.len(),
            views_of(parts@) == split(path@, '.'),
            nested_property(current@, views_of(parts@), i as int) == nested_property(
                value@,
                views_of(parts@),
                0,
            ),
        decreases parts.len() - i,
    {
        let name = text_between(&parts[i], 0, parts[i].len());
        assert(parts[i as int]@.subrange(0, parts[i as int].len() as int) =~= parts[i as int]@);
        assert(views_of(parts@)[i as int] == parts[i as int]@);
        match property_ref(current, name.as_str()) {
            Ok(v) => {
                current = v;
            },
            Err(e) => {
                return Err(e);
            },
        }
        i += 1;
    }
    Ok(current)
}

/// The value reached from `value` through the properties named in `path`.
pub fn get_nested_property(value: &JsonValue, path: &str) -> (r: Result<JsonValue, QueryError>)
    ensures
        query_outcome(r) == nested_property(value@, split(path@, '.'), 0),
{
    match nested_ref(value, path) {
        Ok(v) => Ok(v.clone()),
        Err(e) => Err(e),
    }
}

/// The outcome of a filter for `item`.
pub fn keeps_item(
    item: &JsonValue,
    field: &str,
    operator: FilterOperator,
    filter_value: &str,
    reading: Option<Float>,
) -> (r: Result<bool, QueryError>)
    ensures
        match r {
            Ok(b) => element_verdict(item@, field@, operator, filter_value@, reading) == Ok::<
                bool,
                QueryErrorView,
            >(b),
            Err(e) => element_verdict(item@, field@, operator, filter_value@, reading) == Err::<
                bool,
                QueryErrorView,
            >(e@),
        },
{
    let chars = chars_of(field);
    let dotted = find_char(&chars, '.', 0) < chars.len();
    let found = if dotted {
        nested_ref(item, field)
    } else {
        property_ref(item, field)
    };
    match found {
        Ok(value) => matches_filter_value(value, operator, filter_value, reading),
        Err(_) => Ok(false),
    }
}

/// The elements of `value` that a filter keeps.
pub fn apply_filter(
    value: &JsonValue,
    field: &str,
    operator: FilterOperator,
    filter_value: &str,
    reading: Option<Float>,
) -> (r: Result<JsonValue, QueryError>)
    ensures
        query_outcome(r) == filtered(value@, field@, operator, filter_value@, reading),
{
    match value {
        JsonValue::Array(items) => {
            proof {
                lemma_items_view(*items);
            }
            let mut kept: Vec<JsonValue> = Vec::new();
            let mut i: usize = 0;
            while i < items.len()
                invariant
                    i <= items.len(),
                    value@ == JsonView::Array(items_view(*items)),
                    items_view(*items).len() == items.len(),
                    forall|j: int|
                        0 <= j < items.len() ==> (#[trigger] items_view(*items)[j]) == items[j]@,
                    first_failure(
                        items_view(*items),
                        field@,
                        operator,
                        filter_value@,
                        reading,
                        0,
                    ) == first_failure(
                        items_view(*items),
                        field@,
                        operator,
                        filter_value@,
                        reading,
                        i as int,
                    ),
                    items_view(kept) == kept_items(
                        items_view(*items),
                        field@,
                        operator,
                        filter_value@,
                        reading,
                        i as int,
                    ),
                decreases items.len() - i,
            {
                assert(items_view(*items)[i as int] == items[i as int]@);
                match keeps_item(&items[i], field, operator, filter_value, reading) {
                    Err(e) => {
                        return Err(e);
                    },
                    Ok(true) => {
                        let ghost before = items_view(kept);
                        let copy = items[i].clone();
                        proof {
                            lemma_items_view(kept);
                        }
                        kept.push(copy);
                        proof {
                            lemma_items_view(kept);
                            assert(items_view(kept) =~= before.push(items[i as int]@));
                        }
                    },
                    Ok(false) => {},
                }
                i += 1;
            }
            Ok(array_of(kept))
        },
        _ => Err(QueryError::InvalidType("Filter can only be applied to arrays".to_owned())),
    }
}

/// The lower-case form of a text, as `str::to_lowercase` gives it.
pub uninterp spec fn lowercase(s: Seq<char>) -> Seq<char>;

/// Calls `str::to_lowercase`, which returns the lower-case equivalent of
/// the string as a new string. Nothing is claimed of the result but that
/// it is this lower-case form.
#[verifier::external_body]
fn to_lowercase(s: &str) -> (r: String)
    ensures
        r@ == lowercase(s@),
{
    s.to_lowercase()
}

/// The scope that a name stands for: the scope of that name as it is
/// written, or else the scope of its lower-case form.
pub open spec fn scope_of_name(name: Seq<char>) -> Option<ScopeLevel> {
    match level_of_name(name) {
        Some(level) => Some(level),
        None => level_of_name(lowercase(name)),
    }
}

/// The scopes that the first `n` of the given names stand for, in their
/// order. A name counts whatever its case; a name that stands for no scope
/// is passed over.
pub open spec fn explicit_levels(names: Seq<Seq<char>>, n: int) -> Seq<ScopeLevel>
    decreases n,
{
    if n <= 0 || n > names.len() {
        Seq::empty()
    } else {
        let before = explicit_levels(names, n - 1);
        match scope_of_name(names[n - 1]) {
            Some(level) => before.push(level),
            None => before,
        }
    }
}

/// The scope that a name stands for, whatever its case.
pub fn scope_level_of(name: &str) -> (r: Option<ScopeLevel>)
    ensures
        r == scope_of_name(name@),
{
    match ScopeLevel::from_name(name) {
        Some(level) => Some(level),
        None => {
            let lowered = to_lowercase(name);
            ScopeLevel::from_name(lowered.as_str())
        },
    }
}

/// The scopes that the given names stand for.
pub fn scope_levels_of(names: &Vec<String>) -> (r: Vec<ScopeLevel>)
    ensures
        r@ == explicit_levels(texts_view(names@), names.len() as int),
{
    let mut levels: Vec<ScopeLevel> = Vec::new();
    let mut i: usize = 0;
    while i < names.len()
        invariant
            i <= names.len(),
            levels@ == explicit_levels(texts_view(names@), i as int),
        decreases names.len() - i,
    {
        assert(texts_view(names@)[i as int] == names[i as int]@);
        match scope_level_of(names[i].as_str()) {
            Some(level) => {
                levels.push(level);
            },
            None => {},
        }
        i += 1;
    }
    levels
}

/// Scope names that are written in lower case stand for their scopes as
/// they are: the names `block`, `branch`, `group` and `global`, in any
/// order and number, give the scopes of these names in that order.
pub proof fn lemma_plain_scope_names(names: Seq<Seq<char>>, n: int)
    requires
        0 <= n <= names.len(),
        forall|k: int| 0 <= k < n ==> level_of_name(#[trigger] names[k]) is Some,
    ensures
        explicit_levels(names, n).len() == n,
        forall|k: int|
            0 <= k < n ==> Some(#[trigger] explicit_levels(names, n)[k]) == level_of_name(
                names[k],
            ),
    decreases n,
{
    if n > 0 {
        lemma_plain_scope_names(names, n - 1);
    }
}

/// What is known of the place of a value while a path is evaluated: the
/// node that the path started from and the index that was asked for last.
#[derive(Debug, Clone)]
pub struct QueryContext {
    pub node_id: Option<String>,
    pub block_index: Option<usize>,
}

/// What a context holds, with a sequence of characters for the identifier.
pub struct ContextView {
    pub node_id: Option<Seq<char>>,
    pub block_index: Option<usize>,
}

impl View for QueryContext {
    type V = ContextView;

    open spec fn view(&self) -> ContextView {
        ContextView {
            node_id: match self.node_id {
                Some(id) => Some(id@),
                None => None,
            },
            block_index: self.block_index,
        }
    }
}

/// The context in which nothing is known.
pub open spec fn empty_context() -> ContextView {
    ContextView { node_id: None, block_index: None }
}

/// The group that a branch names as its parent, if the network has it.
pub open spec fn owning_group(network: Network, branch: BranchNode) -> Option<GroupNode> {
    match branch.base.parent_id {
        Some(parent) => {
            let g = group_position(network.nodes@, parent@, 0);
            if g < network.nodes.len() {
                Some(network.nodes[g]->Group_0)
            } else {
                None
            }
        },
        None => None,
    }
}

/// The value of `property` for the block that the context names, found
/// through the scopes.
///
/// The context has to name a node and a block index, the node has to be a
/// branch of the network, and the index has to be one of its blocks. The
/// scopes are those that `scopes` names, or, where it names none, those
/// that the settings give for the property and the type of the block.
pub open spec fn scoped_value(
    network: Network,
    resolver: ScopeResolver,
    property: Seq<char>,
    scopes: Seq<Seq<char>>,
    ctx: ContextView,
) -> Result<JsonView, QueryErrorView> {
    match ctx.node_id {
        None => Err(QueryErrorView::InvalidType("Scope resolution requires a node context"@)),
        Some(node_id) => match ctx.block_index {
            None => Err(
                QueryErrorView::InvalidType(
                    "Scope resolution requires a block context (use path like branch-4/blocks/0)"@,
                ),
            ),
            Some(index) => {
                let p = branch_position(network.nodes@, node_id, 0);
                if p >= network.nodes.len() {
                    Err(QueryErrorView::NodeNotFound(node_id))
                } else {
                    let branch = network.nodes[p]->Branch_0;
                    if index >= branch.blocks.len() {
                        Err(QueryErrorView::IndexOutOfRange(index, branch.blocks.len() as usize))
                    } else {
                        let block = branch.blocks[index as int];
                        let levels = explicit_levels(scopes, scopes.len() as int);
                        let chain = if levels.len() > 0 {
                            levels
                        } else {
                            scope_chain(resolver.config, property, block.type_@)
                        };
                        match resolve_from(
                            resolver.config,
                            property,
                            block,
                            branch,
                            owning_group(network, branch),
                            chain,
                            0,
                        ) {
                            Some(found) => Ok(json_of_toml(found.0@)),
                            None => Err(
                                QueryErrorView::PropertyNotFound(
                                    "Property '"@ + property + "' not found in any scope"@,
                                ),
                            ),
                        }
                    }
                }
            },
        },
    }
}

/// What a block is called in the summary of its branch.
pub open spec fn block_kind(block_type: Seq<char>) -> Seq<char> {
    if block_type == "Source"@ {
        "source"@
    } else if block_type == "Sink"@ {
        "sink"@
    } else {
        "transform"@
    }
}

/// The summary of a block: its kind, its type as label, its quantity and
/// its type.
pub open spec fn block_summary(b: Block) -> JsonView {
    JsonView::Object(
        seq![
            ("kind"@, JsonView::String(block_kind(b.type_@))),
            ("label"@, JsonView::String(b.type_@)),
            ("quantity"@, JsonView::Number(Number::PosInt(b.spec_quantity() as u64))),
            ("type"@, JsonView::String(b.type_@)),
        ],
    )
}

/// The summaries of the blocks of a branch.
pub open spec fn block_summaries(blocks: Seq<Block>) -> Seq<JsonView> {
    Seq::new(blocks.len(), |i: int| block_summary(blocks[i]))
}

/// The summary of a branch: its blocks, its identifier and its label.
pub open spec fn branch_summary(branch: BranchNode) -> JsonView {
    JsonView::Object(
        seq![
            ("blocks"@, JsonView::Array(block_summaries(branch.blocks@))),
            ("id"@, JsonView::String(branch.base.id@)),
            ("label"@, JsonView::String(branch.base.spec_label_display())),
        ],
    )
}

/// The value of an optional text: null where there is none.
pub open spec fn optional_text_json(s: Option<String>) -> JsonView {
    match s {
        Some(t) => JsonView::String(t@),
        None => JsonView::Null,
    }
}

/// The value of an optional number: null where there is none.
pub open spec fn optional_number_json(n: Option<u32>) -> JsonView {
    match n {
        Some(v) => JsonView::Number(Number::PosInt(v as u64)),
        None => JsonView::Null,
    }
}

/// The properties of a node, written out.
pub open spec fn written_properties(extra: Seq<(String, TomlValue)>) -> Seq<(Seq<char>, JsonView)> {
    Seq::new(extra.len(), |i: int| (extra[i].0@, serialized_toml(extra[i].1@)))
}

/// A node other than a branch written out flat: its known fields, then its
/// properties.
pub open spec fn flattened_base(base: NodeBase) -> Seq<(Seq<char>, JsonView)> {
    seq![
        ("type"@, JsonView::String(base.type_@)),
        ("label"@, optional_text_json(base.label)),
        ("position"@, position_json(base.position)),
        ("parentId"@, optional_text_json(base.parent_id)),
        ("width"@, optional_number_json(base.width)),
        ("height"@, optional_number_json(base.height)),
    ] + written_properties(base.extra.entries@)
}

/// Among the first `n` entries, the one whose name comes first in
/// character order, and the last of those where the name is repeated.
pub open spec fn first_in_key_order(entries: Seq<(Seq<char>, JsonView)>, n: int) -> (
    Seq<char>,
    JsonView,
)
    decreases n,
{
    if n <= 1 || n > entries.len() {
        entries[0]
    } else {
        let best = first_in_key_order(entries, n - 1);
        let entry = entries[n - 1];
        if text_lt_from(entry.0, best.0, 0) || entry.0 == best.0 {
            entry
        } else {
            best
        }
    }
}

/// What the collection `nodes` holds for one node: for a branch its
/// summary, for every other node the value of the field that comes first
/// in character order when the node is written out flat.
pub open spec fn node_entry_json(node: NodeData) -> JsonView {
    match node {
        NodeData::Branch(branch) => branch_summary(branch),
        _ => {
            let entries = flattened_base(node.spec_base());
            first_in_key_order(entries, entries.len() as int).1
        },
    }
}

/// What the collection `nodes` holds.
pub open spec fn node_entries_json(nodes: Seq<NodeData>) -> Seq<JsonView> {
    Seq::new(nodes.len(), |i: int| node_entry_json(nodes[i]))
}

/// The object that stands for an edge.
pub open spec fn edge_json(e: Edge) -> JsonView {
    JsonView::Object(
        seq![
            (
                "data"@,
                JsonView::Object(
                    seq![("weight"@, JsonView::Number(Number::PosInt(e.data.weight as u64)))],
                ),
            ),
            ("id"@, JsonView::String(e.id@)),
            ("source"@, JsonView::String(e.source@)),
            ("target"@, JsonView::String(e.target@)),
        ],
    )
}

/// What the collection `edges` holds.
pub open spec fn edges_json(edges: Seq<Edge>) -> Seq<JsonView> {
    Seq::new(edges.len(), |i: int| edge_json(edges[i]))
}

/// A collection of the whole network: `nodes` or `edges`.
pub open spec fn network_collection_json(network: Network, name: Seq<char>) -> Result<
    JsonView,
    QueryErrorView,
> {
    if name == "nodes"@ {
        Ok(JsonView::Array(node_entries_json(network.nodes@)))
    } else if name == "edges"@ {
        Ok(JsonView::Array(edges_json(network.edges@)))
    } else {
        Err(QueryErrorView::InvalidType("Unknown network collection: "@ + name))
    }
}

/// The object that stands for the node with the identifier `id`.
pub open spec fn node_value(network: Network, id: Seq<char>) -> Result<JsonView, QueryErrorView> {
    let p = node_position(network.nodes@, id, 0);
    if p < network.nodes.len() {
        Ok(node_json(network.nodes[p]))
    } else {
        Err(QueryErrorView::NodeNotFound(id))
    }
}

/// Whether a value looks like a block: an object whose member `type` is a
/// string.
pub open spec fn looks_like_block(value: JsonView) -> bool {
    match value {
        JsonView::Object(members) => match member(members, "type"@) {
            Some(JsonView::String(_)) => true,
            _ => false,
        },
        _ => false,
    }
}

/// The property `name` of `value`, with the scopes to fall back on. Where
/// the value looks like a block, the context names a node and an index,
/// and the value has no such property, the property is looked for through
/// the scopes that the settings give, if there is a resolver.
pub open spec fn property_or_scoped(
    network: Network,
    resolver: Option<ScopeResolver>,
    value: JsonView,
    name: Seq<char>,
    ctx: ContextView,
) -> Result<JsonView, QueryErrorView> {
    if looks_like_block(value) && ctx.block_index is Some && ctx.node_id is Some {
        match property_of(value, name) {
            Ok(v) => Ok(v),
            Err(e) => match resolver {
                Some(r) => scoped_value(network, r, name, Seq::empty(), ctx),
                None => Err(QueryErrorView::PropertyNotFound(name)),
            },
        }
    } else {
        property_of(value, name)
    }
}

/// The path that names the whole network.
pub open spec fn network_root() -> PathView {
    PathView::Node("network"@)
}

/// The value of a path and the context after its evaluation.
///
/// A node sets the node of the context. A property of the network root is
/// a collection of the network; any other property is read from the value
/// of the inner path, with the scopes to fall back on. An index sets the
/// index of the context before the inner path is evaluated, so that the
/// index nearest to the root is the one that stays. A range and a filter
/// work on the list that the inner path yields. A scope lookup evaluates
/// the inner path for the context alone. The first error ends the
/// evaluation.
pub open spec fn evaluate(
    network: Network,
    resolver: Option<ScopeResolver>,
    literals: Seq<(String, Float)>,
    path: PathView,
    ctx: ContextView,
) -> (Result<JsonView, QueryErrorView>, ContextView)
    decreases path,
{
    match path {
        PathView::Node(id) => (
            node_value(network, id),
            ContextView { node_id: Some(id), block_index: ctx.block_index },
        ),
        PathView::Property(name, inner) => if *inner == network_root() {
            (network_collection_json(network, name), ctx)
        } else {
            let below = evaluate(network, resolver, literals, *inner, ctx);
            match below.0 {
                Err(e) => (Err(e), below.1),
                Ok(value) => (property_or_scoped(network, resolver, value, name, below.1), below.1),
            }
        },
        PathView::Index(i, inner) => {
            let below = evaluate(
                network,
                resolver,
                literals,
                *inner,
                ContextView { node_id: ctx.node_id, block_index: Some(i) },
            );
            match below.0 {
                Err(e) => (Err(e), below.1),
                Ok(value) => (element_of(value, i), below.1),
            }
        },
        PathView::Range { start, end, inner } => {
            let below = evaluate(network, resolver, literals, *inner, ctx);
            match below.0 {
                Err(e) => (Err(e), below.1),
                Ok(value) => (slice_of(value, start, end), below.1),
            }
        },
        PathView::Filter { field, operator, value, inner } => {
            let below = evaluate(network, resolver, literals, *inner, ctx);
            match below.0 {
                Err(e) => (Err(e), below.1),
                Ok(list) => (
                    filtered(list, field, operator, value, lookup(literals, value)),
                    below.1,
                ),
            }
        },
        PathView::ScopeResolve { property, scopes, inner } => {
            let below = evaluate(network, resolver, literals, *inner, ctx);
            match below.0 {
                Err(e) => (Err(e), below.1),
                Ok(_) => match resolver {
                    Some(r) => (scoped_value(network, r, property, scopes, below.1), below.1),
                    None => (
                        Err(
                            QueryErrorView::InvalidType(
                                "Scope resolution requires scope resolver. Use resolve command instead."@,
                            ),
                        ),
                        below.1,
                    ),
                },
            }
        },
    }
}

/// Evaluates query paths against one network.
pub struct QueryExecutor<'a> {
    /// The network that is queried.
    pub network: &'a Network,
    /// The scopes to fall back on, if any.
    pub scope_resolver: Option<&'a ScopeResolver>,
    /// The units in which properties are to be shown.
    pub unit_preferences: UnitPreferences,
    /// The schemas that give properties their units.
    pub schema_registry: Option<&'a SchemaRegistry>,
    /// The version of the schemas to use.
    pub schema_version: Option<&'a str>,
    /// The numbers that the texts of filters read as. A text that is not
    /// listed reads as no number.
    pub numeric_literals: StringMap<Float>,
}

/// The resolver behind an optional reference.
pub open spec fn deref_resolver(r: Option<&ScopeResolver>) -> Option<ScopeResolver> {
    match r {
        Some(x) => Some(*x),
        None => None,
    }
}

/// Builds the summary of a block.
pub fn block_summary_of(b: &Block) -> (r: JsonValue)
    ensures
        r@ == block_summary(*b),
{
    let t = b.type_.clone();
    let kind = if t == "Source".to_owned() {
        "source"
    } else if t == "Sink".to_owned() {
        "sink"
    } else {
        "transform"
    };
    let mut members = no_members();
    push_member(&mut members, "kind", JsonValue::text(kind));
    push_member(&mut members, "label", JsonValue::text(b.type_.as_str()));
    push_member(&mut members, "quantity", JsonValue::unsigned(b.quantity() as u64));
    push_member(&mut members, "type", JsonValue::text(b.type_.as_str()));
    assert(members_view(members) =~= block_summary(*b)->Object_0);
    object_of(members)
}

/// Builds the summary of a branch.
pub fn branch_summary_of(branch: &BranchNode) -> (r: JsonValue)
    ensures
        r@ == branch_summary(*branch),
{
    let mut items: Vec<JsonValue> = Vec::new();
    let mut i: usize = 0;
    while i < branch.blocks.len()
        invariant
            i <= branch.blocks.len(),
            items.len() == i,
            forall|j: int| 0 <= j < i ==> items[j]@ == block_summary(branch.blocks[j]),
        decreases branch.blocks.len() - i,
    {
        items.push(block_summary_of(&branch.blocks[i]));
        i += 1;
    }
    proof {
        lemma_items_view(items);
        assert(items_view(items) =~= block_summaries(branch.blocks@));
    }
    let label = branch.base.label_display();
    let mut members = no_members();
    push_member(&mut members, "blocks", array_of(items));
    push_member(&mut members, "id", JsonValue::text(branch.base.id.as_str()));
    push_member(&mut members, "label", JsonValue::String(label));
    assert(members_view(members) =~= branch_summary(*branch)->Object_0);
    object_of(members)
}

/// The value of an optional text.
fn optional_text(s: &Option<String>) -> (r: JsonValue)
    ensures
        r@ == optional_text_json(*s),
{
    match s {
        Some(t) => JsonValue::text(t.as_str()),
        None => JsonValue::Null,
    }
}

/// The value of an optional number.
fn optional_number(n: Option<u32>) -> (r: JsonValue)
    ensures
        r@ == optional_number_json(n),
{
    match n {
        Some(v) => JsonValue::unsigned(v as u64),
        None => JsonValue::Null,
    }
}

/// Writes a node other than a branch out flat.
pub fn flatten_base(base: &NodeBase) -> (r: Vec<(String, JsonValue)>)
    ensures
        members_view(r) == flattened_base(*base),
        r.len() >= 6,
{
    let mut members = no_members();
    push_member(&mut members, "type", JsonValue::text(base.type_.as_str()));
    push_member(&mut members, "label", optional_text(&base.label));
    push_member(&mut members, "position", position_to_json(&base.position));
    push_member(&mut members, "parentId", optional_text(&base.parent_id));
    push_member(&mut members, "width", optional_number(base.width));
    push_member(&mut members, "height", optional_number(base.height));
    let ghost head = members_view(members);
    proof {
        lemma_members_view(members);
    }
    let mut i: usize = 0;
    while i < base.extra.entries.len()
        invariant
            i <= base.extra.entries.len(),
            head.len() == 6,
            members.len() == 6 + i,
            members_view(members) == head + written_properties(base.extra.entries@).subrange(
                0,
                i as int,
            ),
        decreases base.extra.entries.len() - i,
    {
        let entry = &base.extra.entries[i];
        let ghost before = members_view(members);
        push_member(&mut members, entry.0.as_str(), serialize_toml(&entry.1));
        proof {
            lemma_members_view(members);
            assert(members_view(members) =~= head + written_properties(
                base.extra.entries@,
            ).subrange(0, i + 1));
        }
        i += 1;
    }
    proof {
        assert(written_properties(base.extra.entries@).subrange(
            0,
            base.extra.entries.len() as int,
        ) =~= written_properties(base.extra.entries@));
        assert(head =~= flattened_base(*base).subrange(0, 6));
        assert(members_view(members) =~= flattened_base(*base));
    }
    members
}

/// The index of the member that comes first in character order, the last
/// of those where the name is repeated.
pub fn first_member(members: &Vec<(String, JsonValue)>) -> (r: usize)
    requires
        members.len() >= 1,
    ensures
        r < members.len(),
        (members[r as int].0@, members[r as int].1@) == first_in_key_order(
            members_view(*members),
            members.len() as int,
        ),
{
    proof {
        lemma_members_view(*members);
    }
    let mut best: usize = 0;
    let mut best_name = chars_of(members[0].0.as_str());
    let mut i: usize = 1;
    while i < members.len()
        invariant
            1 <= i <= members.len(),
            best < i,
            best_name@ == members[best as int].0@,
            members_view(*members).len() == members.len(),
            forall|j: int|
                0 <= j < members.len() ==> (#[trigger] members_view(*members)[j]) == (
                    members[j].0@,
                    members[j].1@,
                ),
            (members[best as int].0@, members[best as int].1@) == first_in_key_order(
                members_view(*members),
                i as int,
            ),
        decreases members.len() - i,
    {
        let name = chars_of(members[i].0.as_str());
        let same = members[i].0 == members[best].0;
        if text_before(&name, &best_name) || same {
            best = i;
            best_name = name;
        }
        i += 1;
    }
    best
}

/// Builds what the collection `nodes` holds for one node.
pub fn node_entry_of(node: &NodeData) -> (r: JsonValue)
    ensures
        r@ == node_entry_json(*node),
{
    match node {
        NodeData::Branch(branch) => branch_summary_of(branch),
        _ => {
            let members = flatten_base(node.base());
            let i = first_member(&members);
            members[i].1.clone()
        },
    }
}

/// Builds the object that stands for an edge.
pub fn edge_to_json(e: &Edge) -> (r: JsonValue)
    ensures
        r@ == edge_json(*e),
{
    let mut data = no_members();
    push_member(&mut data, "weight", JsonValue::unsigned(e.data.weight as u64));
    assert(members_view(data) =~= seq![
        ("weight"@, JsonView::Number(Number::PosInt(e.data.weight as u64))),
    ]);
    let mut members = no_members();
    push_member(&mut members, "data", object_of(data));
    push_member(&mut members, "id", JsonValue::text(e.id.as_str()));
    push_member(&mut members, "source", JsonValue::text(e.source.as_str()));
    push_member(&mut members, "target", JsonValue::text(e.target.as_str()));
    assert(members_view(members) =~= edge_json(*e)->Object_0);
    object_of(members)
}

/// The texts that the filters of a path compare with, from the outermost
/// filter inwards.
pub open spec fn filter_texts(path: PathView) -> Seq<Seq<char>>
    decreases path,
{
    match path {
        PathView::Node(_) => Seq::empty(),
        PathView::Property(_, inner) => filter_texts(*inner),
        PathView::Index(_, inner) => filter_texts(*inner),
        PathView::Range { start, end, inner } => filter_texts(*inner),
        PathView::Filter { field, operator, value, inner } => seq![value] + filter_texts(*inner),
        PathView::ScopeResolve { property, scopes, inner } => filter_texts(*inner),
    }
}

impl QueryPath {
    /// The texts that the filters of the path compare with, from the
    /// outermost filter inwards. These are the texts whose reading as
    /// numbers an executor has to be given.
    pub fn filter_values(&self) -> (r: Vec<String>)
        ensures
            texts_view(r@) == filter_texts(self@),
        decreases self,
    {
        match self {
            QueryPath::Node(_) => {
                let r: Vec<String> = Vec::new();
                assert(texts_view(r@) =~= Seq::<Seq<char>>::empty());
                r
            },
            QueryPath::Property(_, inner) => (**inner).filter_values(),
            QueryPath::Index(_, inner) => (**inner).filter_values(),
            QueryPath::Range { start, end, inner } => (**inner).filter_values(),
            QueryPath::Filter { field, operator, value, inner } => {
                let mut rest = (**inner).filter_values();
                let ghost before = texts_view(rest@);
                rest.insert(0, value.clone());
                assert(texts_view(rest@) =~= seq![value@] + before);
                rest
            },
            QueryPath::ScopeResolve { property, scopes, inner } => (**inner).filter_values(),
        }
    }
}

impl<'a> QueryExecutor<'a> {
    /// The value of a path, as the model gives it for this executor.
    pub open spec fn value_of(&self, path: PathView) -> Result<JsonView, QueryErrorView> {
        evaluate(
            *self.network,
            deref_resolver(self.scope_resolver),
            self.numeric_literals.entries@,
            path,
            empty_context(),
        ).0
    }

    /// The value of a path and the context after it, as the model gives
    /// them for this executor.
    pub open spec fn value_in(&self, path: PathView, ctx: ContextView) -> (
        Result<JsonView, QueryErrorView>,
        ContextView,
    ) {
        evaluate(
            *self.network,
            deref_resolver(self.scope_resolver),
            self.numeric_literals.entries@,
            path,
            ctx,
        )
    }

    /// An executor for `network` without scopes to fall back on.
    pub fn new(network: &'a Network) -> (r: Self)
        ensures
            r.network == network,
            r.scope_resolver is None,
            r.schema_registry is None,
            r.schema_version is None,
            r.numeric_literals.entries@.len() == 0,
    {
        QueryExecutor {
            network,
            scope_resolver: None,
            unit_preferences: UnitPreferences::default(),
            schema_registry: None,
            schema_version: None,
            numeric_literals: StringMap::new(),
        }
    }

    /// An executor for `network` with the scopes of `resolver` to fall
    /// back on.
    pub fn with_scope_resolver(network: &'a Network, resolver: &'a ScopeResolver) -> (r: Self)
        ensures
            r.network == network,
            r.scope_resolver == Some(resolver),
            r.schema_registry is None,
            r.schema_version is None,
            r.numeric_literals.entries@.len() == 0,
    {
        QueryExecutor {
            network,
            scope_resolver: Some(resolver),
            unit_preferences: UnitPreferences::default(),
            schema_registry: None,
            schema_version: None,
            numeric_literals: StringMap::new(),
        }
    }

    /// An executor that also knows in which units properties are to be
    /// shown.
    ///
    /// The preferences and the schemas serve `plan_block_property`, which
    /// plans the conversion of a property. The value of a path does not
    /// depend on them: queries show the values of properties as they are
    /// kept, without conversion, as an executor without preferences does.
    pub fn with_unit_preferences(
        network: &'a Network,
        resolver: Option<&'a ScopeResolver>,
        unit_preferences: UnitPreferences,
        schema_registry: Option<&'a SchemaRegistry>,
        schema_version: Option<&'a str>,
    ) -> (r: Self)
        ensures
            r.network == network,
            r.scope_resolver == resolver,
            r.unit_preferences == unit_preferences,
            r.schema_registry == schema_registry,
            r.schema_version == schema_version,
            r.numeric_literals.entries@.len() == 0,
            forall|path: PathView| #[trigger]
                r.value_of(path) == evaluate(
                    *network,
                    deref_resolver(resolver),
                    Seq::empty(),
                    path,
                    empty_context(),
                ).0,
    {
        let r = QueryExecutor {
            network,
            scope_resolver: resolver,
            unit_preferences,
            schema_registry,
            schema_version,
            numeric_literals: StringMap::new(),
        };
        assert(r.numeric_literals.entries@ =~= Seq::empty());
        r
    }

    /// The same executor with the numbers that the texts of filters read
    /// as.
    pub fn with_numeric_literals(self, literals: StringMap<Float>) -> (r: Self)
        ensures
            r.network == self.network,
            r.scope_resolver == self.scope_resolver,
            r.unit_preferences == self.unit_preferences,
            r.schema_registry == self.schema_registry,
            r.schema_version == self.schema_version,
            r.numeric_literals == literals,
    {
        QueryExecutor {
            network: self.network,
            scope_resolver: self.scope_resolver,
            unit_preferences: self.unit_preferences,
            schema_registry: self.schema_registry,
            schema_version: self.schema_version,
            numeric_literals: literals,
        }
    }

    /// The value of a path.
    pub fn execute(&self, path: &QueryPath) -> (r: Result<JsonValue, QueryError>)
        ensures
            query_outcome(r) == self.value_of(path@),
    {
        let mut context = QueryContext { node_id: None, block_index: None };
        self.execute_with_context(path, &mut context)
    }

    /// A collection of the whole network.
    pub fn execute_network_query(&self, collection: &str) -> (r: Result<JsonValue, QueryError>)
        ensures
            query_outcome(r) == network_collection_json(*self.network, collection@),
    {
        let name = collection.to_owned();
        if name == "nodes".to_owned() {
            let nodes = &self.network.nodes;
            let mut items: Vec<JsonValue> = Vec::new();
            let mut i: usize = 0;
            while i < nodes.len()
                invariant
                    i <= nodes.len(),
                    items.len() == i,
                    forall|j: int| 0 <= j < i ==> items[j]@ == node_entry_json(nodes[j]),
                decreases nodes.len() - i,
            {
                items.push(node_entry_of(&nodes[i]));
                i += 1;
            }
            proof {
                lemma_items_view(items);
                assert(items_view(items) =~= node_entries_json(nodes@));
            }
            Ok(array_of(items))
        } else if name == "edges".to_owned() {
            let edges = &self.network.edges;
            let mut items: Vec<JsonValue> = Vec::new();
            let mut i: usize = 0;
            while i < edges.len()
                invariant
                    i <= edges.len(),
                    items.len() == i,
                    forall|j: int| 0 <= j < i ==> items[j]@ == edge_json(edges[j]),
                decreases edges.len() - i,
            {
                items.push(edge_to_json(&edges[i]));
                i += 1;
            }
            proof {
                lemma_items_view(items);
                assert(items_view(items) =~= edges_json(edges@));
            }
            Ok(array_of(items))
        } else {
            Err(QueryError::InvalidType(join2("Unknown network collection: ", collection)))
        }
    }

    /// The object that stands for the node with the identifier `id`.
    pub fn get_node(&self, id: &str) -> (r: Result<JsonValue, QueryError>)
        ensures
            query_outcome(r) == node_value(*self.network, id@),
    {
        match self.network.find_node(id) {
            Some(node) => Ok(node_to_json(node)),
            None => Err(QueryError::NodeNotFound(id.to_owned())),
        }
    }

    /// The value of `property` for the block that the context names, found
    /// through the scopes of `resolver`.
    pub fn resolve_scoped_property_from_context(
        &self,
        property: &str,
        explicit_scopes: &Vec<String>,
        context: &QueryContext,
        resolver: &ScopeResolver,
    ) -> (r: Result<JsonValue, QueryError>)
        ensures
            query_outcome(r) == scoped_value(
                *self.network,
                *resolver,
                property@,
                texts_view(explicit_scopes@),
                context@,
            ),
    {
        let node_id = match &context.node_id {
            Some(id) => id,
            None => {
                return Err(
                    QueryError::InvalidType("Scope resolution requires a node context".to_owned()),
                );
            },
        };
        let block_index = match context.block_index {
            Some(i) => i,
            None => {
                return Err(
                    QueryError::InvalidType(
                        "Scope resolution requires a block context (use path like branch-4/blocks/0)".to_owned(),
                    ),
                );
            },
        };
        let branch = match self.network.find_branch(node_id.as_str()) {
            Some(b) => b,
            None => {
                return Err(QueryError::NodeNotFound(node_id.clone()));
            },
        };
        if block_index >= branch.blocks.len() {
            return Err(QueryError::IndexOutOfRange(block_index, branch.blocks.len()));
        }
        let block = &branch.blocks[block_index];
        let group: Option<&GroupNode> = match &branch.base.parent_id {
            Some(parent) => self.network.find_group(parent.as_str()),
            None => None,
        };
        assert(deref_group(group) == owning_group(*self.network, *branch));
        let levels = scope_levels_of(explicit_scopes);
        let found = if levels.len() > 0 {
            match resolver.resolve_property_with_explicit_scopes(
                property,
                block,
                branch,
                group,
                &levels,
            ) {
                Some((v, _)) => Some(v),
                None => None,
            }
        } else {
            resolver.resolve_property(property, block, branch, group)
        };
        match found {
            Some(v) => Ok(toml_to_json(&v)),
            None => Err(
                QueryError::PropertyNotFound(
                    join3("Property '", property, "' not found in any scope"),
                ),
            ),
        }
    }

    /// The property `name` of `value`, with the scopes to fall back on.
    fn property_with_fallback(&self, value: &JsonValue, name: &str, context: &QueryContext) -> (r:
        Result<JsonValue, QueryError>)
        ensures
            query_outcome(r) == property_or_scoped(
                *self.network,
                deref_resolver(self.scope_resolver),
                value@,
                name@,
                context@,
            ),
    {
        let is_block = match value.get("type") {
            Some(t) => t.as_str().is_some(),
            None => false,
        };
        if is_block && context.block_index.is_some() && context.node_id.is_some() {
            match get_property(value, name) {
                Ok(v) => Ok(v),
                Err(e) => match self.scope_resolver {
                    Some(resolver) => {
                        let none: Vec<String> = Vec::new();
                        assert(texts_view(none@) =~= Seq::<Seq<char>>::empty());
                        self.resolve_scoped_property_from_context(name, &none, context, resolver)
                    },
                    None => Err(QueryError::PropertyNotFound(name.to_owned())),
                },
            }
        } else {
            get_property(value, name)
        }
    }

    /// The value of a path, evaluated in a context that is carried along.
    pub fn execute_with_context(&self, path: &QueryPath, context: &mut QueryContext) -> (r: Result<
        JsonValue,
        QueryError,
    >)
        ensures
            (query_outcome(r), final(context)@) == self.value_in(path@, old(context)@),
        decreases path,
    {
        match path {
            QueryPath::Node(id) => {
                context.node_id = Some(id.clone());
                self.get_node(id.as_str())
            },
            QueryPath::Property(name, inner) => {
                let at_root = match &**inner {
                    QueryPath::Node(id) => *id == "network".to_owned(),
                    _ => false,
                };
                proof {
                    let below = path_view(**inner);
                    assert(at_root == (below == network_root())) by {
                        match **inner {
                            QueryPath::Node(id) => {
                                assert(below == PathView::Node(id@));
                            },
                            _ => {
                                assert(!(below is Node));
                            },
                        }
                    }
                }
                if at_root {
                    return self.execute_network_query(name.as_str());
                }
                let value = match self.execute_with_context(&**inner, context) {
                    Ok(v) => v,
                    Err(e) => {
                        return Err(e);
                    },
                };
                self.property_with_fallback(&value, name.as_str(), context)
            },
            QueryPath::Index(idx, inner) => {
                context.block_index = Some(*idx);
                let value = match self.execute_with_context(&**inner, context) {
                    Ok(v) => v,
                    Err(e) => {
                        return Err(e);
                    },
                };
                get_index(&value, *idx)
            },
            QueryPath::Range { start, end, inner } => {
                let value = match self.execute_with_context(&**inner, context) {
                    Ok(v) => v,
                    Err(e) => {
                        return Err(e);
                    },
                };
                get_range(&value, *start, *end)
            },
            QueryPath::Filter { field, operator, value, inner } => {
                let list = match self.execute_with_context(&**inner, context) {
                    Ok(v) => v,
                    Err(e) => {
                        return Err(e);
                    },
                };
                let reading: Option<Float> = match self.numeric_literals.get(value.as_str()) {
                    Some(f) => Some(*f),
                    None => None,
                };
                apply_filter(&list, field.as_str(), *operator, value.as_str(), reading)
            },
            QueryPath::ScopeResolve { property, scopes, inner } => {
                match self.execute_with_context(&**inner, context) {
                    Ok(_) => {},
                    Err(e) => {
                        return Err(e);
                    },
                }
                match self.scope_resolver {
                    Some(resolver) => self.resolve_scoped_property_from_context(
                        property.as_str(),
                        scopes,
                        context,
                        resolver,
                    ),
                    None => Err(
                        QueryError::InvalidType(
                            "Scope resolution requires scope resolver. Use resolve command instead.".to_owned(),
                        ),
                    ),
                }
            },
        }
    }
}

/// A range yields the elements from its first index up to and including
/// its last: `end - start + 1` of them, in their order. A bound that is
/// left out stands for the first or the last index of the list.
pub proof fn lemma_range_is_inclusive(
    items: Seq<JsonView>,
    start: Option<usize>,
    end: Option<usize>,
)
    requires
        items.len() <= usize::MAX,
        range_start(start) <= range_end(end, items.len()) < items.len(),
    ensures
        slice_of(JsonView::Array(items), start, end) is Ok,
        slice_of(JsonView::Array(items), start, end)->Ok_0 is Array,
        ({
            let slice = slice_of(JsonView::Array(items), start, end)->Ok_0->Array_0;
            let s = range_start(start);
            let e = range_end(end, items.len());
            &&& slice.len() == e - s + 1
            &&& forall|k: int| 0 <= k < slice.len() ==> slice[k] == items[s + k]
            &&& start is None ==> s == 0
            &&& end is None ==> e == items.len() - 1
        }),
{
}

/// A filter keeps elements of the list and nothing else: every element of
/// the result is an element of the list for which the comparison holds,
/// the elements keep their order, and none is kept twice.
pub proof fn lemma_filter_keeps_elements(
    items: Seq<JsonView>,
    field: Seq<char>,
    operator: FilterOperator,
    text: Seq<char>,
    reading: Option<Float>,
    n: int,
) -> (places: Seq<int>)
    requires
        0 <= n <= items.len(),
    ensures
        places.len() == kept_items(items, field, operator, text, reading, n).len(),
        places.len() <= n,
        forall|k: int|
            0 <= k < places.len() ==> 0 <= #[trigger] places[k] < n && kept_items(
                items,
                field,
                operator,
                text,
                reading,
                n,
            )[k] == items[places[k]] && keeps(items[places[k]], field, operator, text, reading),
        forall|k: int, l: int| 0 <= k < l < places.len() ==> places[k] < places[l],
    decreases n,
{
    if n == 0 {
        Seq::empty()
    } else {
        let before = lemma_filter_keeps_elements(items, field, operator, text, reading, n - 1);
        if keeps(items[n - 1], field, operator, text, reading) {
            before.push(n - 1)
        } else {
            before
        }
    }
}

/// Every element for which the comparison holds is kept.
pub proof fn lemma_filter_keeps_all(
    items: Seq<JsonView>,
    field: Seq<char>,
    operator: FilterOperator,
    text: Seq<char>,
    reading: Option<Float>,
    n: int,
    j: int,
)
    requires
        0 <= j < n <= items.len(),
        keeps(items[j], field, operator, text, reading),
    ensures
        kept_items(items, field, operator, text, reading, n).contains(items[j]),
    decreases n,
{
    let kept = kept_items(items, field, operator, text, reading, n);
    if j == n - 1 {
        assert(kept.last() == items[j]);
    } else {
        lemma_filter_keeps_all(items, field, operator, text, reading, n - 1, j);
        let before = kept_items(items, field, operator, text, reading, n - 1);
        let k = choose|k: int| 0 <= k < before.len() && before[k] == items[j];
        assert(kept[k] == items[j]);
    }
}

/// A filter over a range works on the slice alone: where the inner path
/// yields a list, the range fits it and every comparison on the slice can
/// be made, the result holds at most as many elements as the slice, and
/// each of them is an element of the slice for which the comparison holds.
pub proof fn lemma_filter_over_range(
    network: Network,
    resolver: Option<ScopeResolver>,
    literals: Seq<(String, Float)>,
    inner: PathView,
    ctx: ContextView,
    start: Option<usize>,
    end: Option<usize>,
    field: Seq<char>,
    operator: FilterOperator,
    text: Seq<char>,
)
    requires
        evaluate(network, resolver, literals, inner, ctx).0 is Ok,
        evaluate(network, resolver, literals, inner, ctx).0->Ok_0 is Array,
        range_start(start) <= range_end(
            end,
            evaluate(network, resolver, literals, inner, ctx).0->Ok_0->Array_0.len(),
        ) < evaluate(network, resolver, literals, inner, ctx).0->Ok_0->Array_0.len(),
        evaluate(
            network,
            resolver,
            literals,
            PathView::Filter {
                field,
                operator,
                value: text,
                inner: Box::new(PathView::Range { start, end, inner: Box::new(inner) }),
            },
            ctx,
        ).0 is Ok,
    ensures
        ({
            let items = evaluate(network, resolver, literals, inner, ctx).0->Ok_0->Array_0;
            let s = range_start(start);
            let e = range_end(end, items.len());
            let slice = items.subrange(s as int, e + 1);
            let reading = lookup(literals, text);
            let fused = PathView::Filter {
                field,
                operator,
                value: text,
                inner: Box::new(PathView::Range { start, end, inner: Box::new(inner) }),
            };
            let result = evaluate(network, resolver, literals, fused, ctx).0;
            &&& result == Ok::<JsonView, QueryErrorView>(
                JsonView::Array(
                    kept_items(slice, field, operator, text, reading, slice.len() as int),
                ),
            )
            &&& result->Ok_0->Array_0.len() <= e - s + 1
            &&& forall|k: int|
                0 <= k < result->Ok_0->Array_0.len() ==> slice.contains(
                    #[trigger] result->Ok_0->Array_0[k],
                ) && keeps(result->Ok_0->Array_0[k], field, operator, text, reading)
        }),
{
    let items = evaluate(network, resolver, literals, inner, ctx).0->Ok_0->Array_0;
    let s = range_start(start);
    let e = range_end(end, items.len());
    let slice = items.subrange(s as int, e + 1);
    let reading = lookup(literals, text);
    let ranged = PathView::Range { start, end, inner: Box::new(inner) };
    let fused = PathView::Filter { field, operator, value: text, inner: Box::new(ranged) };
    assert(evaluate(network, resolver, literals, ranged, ctx).0 == Ok::<
        JsonView,
        QueryErrorView,
    >(JsonView::Array(slice)));
    let result = evaluate(network, resolver, literals, fused, ctx).0;
    assert(result == filtered(JsonView::Array(slice), field, operator, text, reading));
    let places = lemma_filter_keeps_elements(
        slice,
        field,
        operator,
        text,
        reading,
        slice.len() as int,
    );
    assert forall|k: int| 0 <= k < result->Ok_0->Array_0.len() implies slice.contains(
        #[trigger] result->Ok_0->Array_0[k],
    ) && keeps(result->Ok_0->Array_0[k], field, operator, text, reading) by {
        assert(result->Ok_0->Array_0[k] == slice[places[k]]);
    }
}

/// A filter ends with an error exactly if the comparison of some element
/// cannot be made, and the error is that of the first such element: every
/// element before it either lacks the field or can be compared.
pub proof fn lemma_first_failure_decides(
    items: Seq<JsonView>,
    field: Seq<char>,
    operator: FilterOperator,
    text: Seq<char>,
    reading: Option<Float>,
    from: int,
)
    requires
        0 <= from <= items.len(),
    ensures
        match first_failure(items, field, operator, text, reading, from) {
            Some(e) => exists|j: int|
                from <= j < items.len() && #[trigger] element_verdict(
                    items[j],
                    field,
                    operator,
                    text,
                    reading,
                ) == Err::<bool, QueryErrorView>(e) && forall|k: int|
                    from <= k < j ==> (#[trigger] element_verdict(
                        items[k],
                        field,
                        operator,
                        text,
                        reading,
                    )) is Ok,
            None => forall|j: int|
                from <= j < items.len() ==> (#[trigger] element_verdict(
                    items[j],
                    field,
                    operator,
                    text,
                    reading,
                )) is Ok,
        },
    decreases items.len() - from,
{
    if from < items.len() {
        match element_verdict(items[from], field, operator, text, reading) {
            Err(e) => {},
            Ok(_) => {
                lemma_first_failure_decides(items, field, operator, text, reading, from + 1);
            },
        }
    }
}

/// An ordering filter on an element whose field is found and is no number
/// cannot be made: the filter over a list that holds such an element ends
/// with an error, and so it does where the text of the filter reads as no
/// number and the field of some element is found.
pub proof fn lemma_ordering_needs_numbers(
    items: Seq<JsonView>,
    field: Seq<char>,
    operator: FilterOperator,
    text: Seq<char>,
    reading: Option<Float>,
    j: int,
)
    requires
        0 <= j < items.len(),
        operator != FilterOperator::Equals,
        operator != FilterOperator::NotEquals,
        field_of(items[j], field) is Ok,
        !(field_of(items[j], field)->Ok_0 is Number) || reading is None,
    ensures
        filtered(JsonView::Array(items), field, operator, text, reading) is Err,
        filtered(JsonView::Array(items), field, operator, text, reading)->Err_0 is InvalidType,
{
    lemma_first_failure_decides(items, field, operator, text, reading, 0);
    assert(element_verdict(items[j], field, operator, text, reading) is Err);
    let e = first_failure(items, field, operator, text, reading, 0);
    assert(e is Some);
    let i = choose|i: int|
        0 <= i < items.len() && #[trigger] element_verdict(
            items[i],
            field,
            operator,
            text,
            reading,
        ) == Err::<bool, QueryErrorView>(e->0);
    assert(element_verdict(items[i], field, operator, text, reading)->Err_0 is InvalidType);
}

/// The value of a path depends on nothing but the network, the settings,
/// the readings of the filter texts and the path: two evaluations of one
/// path by one executor yield the same.
pub proof fn lemma_evaluation_is_repeatable(
    executor: QueryExecutor,
    path: QueryPath,
    first: Result<JsonValue, QueryError>,
    second: Result<JsonValue, QueryError>,
)
    requires
        query_outcome(first) == executor.value_of(path@),
        query_outcome(second) == executor.value_of(path@),
    ensures
        query_outcome(first) == query_outcome(second),
{
}

/// A scope lookup that names the global scope alone yields the global
/// value, whatever the block itself defines.
pub proof fn lemma_explicit_global_lookup(
    network: Network,
    resolver: ScopeResolver,
    property: Seq<char>,
    scopes: Seq<Seq<char>>,
    ctx: ContextView,
)
    requires
        explicit_levels(scopes, scopes.len() as int) == seq![ScopeLevel::Global],
        ctx.node_id is Some,
        ctx.block_index is Some,
        branch_position(network.nodes@, ctx.node_id->0, 0) < network.nodes.len(),
        ctx.block_index->0 < network.nodes[branch_position(
            network.nodes@,
            ctx.node_id->0,
            0,
        )]->Branch_0.blocks.len(),
    ensures
        scoped_value(network, resolver, property, scopes, ctx) == match lookup(
            resolver.config.properties.entries@,
            property,
        ) {
            Some(v) => Ok::<JsonView, QueryErrorView>(json_of_toml(v@)),
            None => Err::<JsonView, QueryErrorView>(
                QueryErrorView::PropertyNotFound(
                    "Property '"@ + property + "' not found in any scope"@,
                ),
            ),
        },
{
    reveal_with_fuel(resolve_from, 3);
}

/// The unit strings that the first `n` properties of a block were written
/// with: for every property the text that is kept under its name for
/// originals, under that name.
pub open spec fn block_originals(b: Block, n: int) -> Seq<(Seq<char>, Seq<char>)>
    decreases n,
{
    if n <= 0 || n > b.extra.entries.len() {
        Seq::empty()
    } else {
        let before = block_originals(b, n - 1);
        let key = original_key(b.extra.entries[n - 1].0@);
        match b.extra.spec_get(key) {
            Some(TomlValue::String(text)) => with_member(before, key, text@),
            _ => before,
        }
    }
}

/// The unit strings that the properties of a block were written with.
pub fn original_strings_of(b: &Block) -> (r: StringMap<String>)
    ensures
        named_texts(r.entries@) == block_originals(*b, b.extra.entries.len() as int),
{
    let mut originals: StringMap<String> = StringMap::new();
    assert(named_texts(originals.entries@) =~= Seq::<(Seq<char>, Seq<char>)>::empty());
    let mut i: usize = 0;
    while i < b.extra.entries.len()
        invariant
            i <= b.extra.entries.len(),
            named_texts(originals.entries@) == block_originals(*b, i as int),
        decreases b.extra.entries.len() - i,
    {
        let key = original_key_of(b.extra.entries[i].0.as_str());
        match b.extra.get(key.as_str()) {
            Some(TomlValue::String(text)) => {
                let copy = text.clone();
                proof {
                    lemma_with_entry_texts(originals.entries@, key, copy);
                }
                originals.insert(key, copy);
            },
            _ => {},
        }
        i += 1;
    }
    originals
}

impl<'a> QueryExecutor<'a> {
    /// What the schema says about the property `key` of blocks of the type
    /// `block_type`, as the model gives it for this executor.
    pub open spec fn metadata_of(&self, block_type: Seq<char>, key: Seq<char>) -> Option<
        PropertyMetadata,
    > {
        match self.schema_registry {
            Some(registry) => match self.schema_version {
                Some(version) => match schema_of(
                    registry.libraries.entries@,
                    version@,
                    block_type,
                ) {
                    Some(schema) => lookup(schema.properties.entries@, key),
                    None => None,
                },
                None => None,
            },
            None => None,
        }
    }

    /// What the schema says about the property `key` of blocks of the type
    /// `block_type`.
    pub fn property_metadata(&self, block_type: &str, key: &str) -> (r: Option<
        &'a PropertyMetadata,
    >)
        ensures
            optional_metadata(r) == self.metadata_of(block_type@, key@),
    {
        match self.schema_registry {
            Some(registry) => match self.schema_version {
                Some(version) => match registry.get_schema(version, block_type) {
                    Some(schema) => schema.properties.get(key),
                    None => None,
                },
                None => None,
            },
            None => None,
        }
    }

    /// The plan for showing the property `key` of a block with the value
    /// `value`, given the unit strings that the block was written with.
    pub fn plan_block_property(
        &self,
        block: &Block,
        key: &str,
        value: &JsonValue,
        originals: &StringMap<String>,
    ) -> (r: FormatPlan)
        ensures
            r@ == format_plan(
                with_originals(self.unit_preferences, *originals),
                key@,
                value@,
                Some(block.type_@),
                self.metadata_of(block.type_@, key@),
            ),
    {
        let metadata = self.property_metadata(block.type_.as_str(), key);
        let formatter = UnitFormatter::new();
        formatter.plan_with_originals(
            key,
            value,
            Some(block.type_.as_str()),
            &self.unit_preferences,
            originals,
            metadata,
        )
    }
}

/// The path `<id>/blocks/<i>` yields the block `i` of the branch `id`, as
/// `block_json` shows it. The name `network` stands for the whole network
/// and for no branch.
pub proof fn lemma_block_by_index(
    network: Network,
    resolver: Option<ScopeResolver>,
    literals: Seq<(String, Float)>,
    id: Seq<char>,
    i: usize,
    place: int,
)
    requires
        id != "network"@,
        place == node_position(network.nodes@, id, 0),
        0 <= place < network.nodes.len(),
        network.nodes[place] is Branch,
        i < network.nodes[place]->Branch_0.blocks.len(),
    ensures
        evaluate(
            network,
            resolver,
            literals,
            PathView::Index(
                i,
                Box::new(PathView::Property("blocks"@, Box::new(PathView::Node(id)))),
            ),
            empty_context(),
        ).0 == Ok::<JsonView, QueryErrorView>(
            block_json(network.nodes[place]->Branch_0.blocks[i as int]),
        ),
{
    reveal_strlit("id");
    reveal_strlit("type");
    reveal_strlit("label");
    reveal_strlit("position");
    reveal_strlit("blocks");
    reveal_strlit("data");
    reveal_strlit("network");
    let node = network.nodes[place];
    let branch = node->Branch_0;
    let members = node_json(node)->Object_0;
    let root = PathView::Node(id);
    let blocks = PathView::Property("blocks"@, Box::new(root));
    let ctx = ContextView { node_id: None, block_index: Some(i) };
    let after = ContextView { node_id: Some(id), block_index: Some(i) };
    assert(evaluate(network, resolver, literals, root, ctx) == (
        Ok::<JsonView, QueryErrorView>(node_json(node)),
        after,
    ));
    let head = base_members(branch.base);
    let at = head.len() as int;
    assert(members[at] == ("blocks"@, JsonView::Array(blocks_json(branch.blocks@))));
    assert("id"@.len() == 2 && "type"@.len() == 4 && "label"@.len() == 5 && "position"@.len() == 8
        && "blocks"@.len() == 6 && "data"@.len() == 4);
    assert forall|k: int| 0 <= k < at implies (#[trigger] members[k]).0 != "blocks"@ by {
        assert(members[k] == head[k]);
        assert(head[k].0 == "id"@ || head[k].0 == "type"@ || head[k].0 == "label"@ || head[k].0
            == "position"@);
    }
    lemma_member_at(members, "blocks"@, 0, at);
    lemma_member_at(members, "type"@, 0, 1);
    assert(member(members, "blocks"@) == Some(JsonView::Array(blocks_json(branch.blocks@))));
    assert(member(members, "type"@) == Some(JsonView::String(branch.base.type_@)));
    assert(looks_like_block(node_json(node)));
    assert(property_of(node_json(node), "blocks"@) == Ok::<JsonView, QueryErrorView>(
        JsonView::Array(blocks_json(branch.blocks@)),
    ));
    assert(evaluate(network, resolver, literals, blocks, ctx).0 == Ok::<JsonView, QueryErrorView>(
        JsonView::Array(blocks_json(branch.blocks@)),
    ));
}

/// Where no member before `place` has the name and the member at `place`
/// has it, the search from `from` ends at `place`.
pub proof fn lemma_member_at<V>(
    members: Seq<(Seq<char>, V)>,
    key: Seq<char>,
    from: int,
    place: int,
)
    requires
        0 <= from <= place < members.len(),
        members[place].0 == key,
        forall|k: int| from <= k < place ==> (#[trigger] members[k]).0 != key,
    ensures
        member_position(members, key, from) == place,
    decreases place - from,
{
    if from < place {
        lemma_member_at(members, key, from + 1, place);
    }
}

} // verus!
