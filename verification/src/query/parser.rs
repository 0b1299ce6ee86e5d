//! The syntax of query paths.
//!
//! A path is a chain: a node at the root, then property accesses, indices,
//! ranges and filters, each applied to what stands before it. A path that
//! ends in `?scope=` asks for a property through the scope cascade.

use crate::text::{
    chars_between, chars_equal, chars_of, find_char, find_from, find_pair, find_pair_from,
    has_prefix, join2, lemma_find_from_bounds, parse_index, read_index, split, split_chars,
    starts_with, text_between, trimmed, trimmed_text, views_of, contains_char, decimal,
    decimal_text, push_char,
};
use vstd::prelude::*;

verus! {

/// The comparison of a filter.
#[derive(Debug, Clone, Copy, PartialEq, Eq)]
pub enum FilterOperator {
    Equals,
    NotEquals,
    GreaterThan,
    LessThan,
    GreaterThanOrEqual,
    LessThanOrEqual,
}

/// A parsed query path. Every variant but `Node` wraps the path that it is
/// applied to.
#[derive(Debug, PartialEq)]
pub enum QueryPath {
    /// A node by its identifier, or the whole network under the name
    /// `network`.
    Node(String),
    /// A field of what the inner path yields.
    Property(String, Box<QueryPath>),
    /// One element of a list, counted from zero.
    Index(usize, Box<QueryPath>),
    /// A slice of a list; `end` is included.
    Range { start: Option<usize>, end: Option<usize>, inner: Box<QueryPath> },
    /// The elements of a list whose field compares as asked.
    Filter { field: String, operator: FilterOperator, value: String, inner: Box<QueryPath> },
    /// A property looked up through the scope cascade.
    ScopeResolve { property: String, scopes: Vec<String>, inner: Box<QueryPath> },
}

/// What a query path holds, with sequences of characters for strings.
pub enum PathView {
    Node(Seq<char>),
    Property(Seq<char>, Box<PathView>),
    Index(usize, Box<PathView>),
    Range { start: Option<usize>, end: Option<usize>, inner: Box<PathView> },
    Filter { field: Seq<char>, operator: FilterOperator, value: Seq<char>, inner: Box<PathView> },
    ScopeResolve { property: Seq<char>, scopes: Seq<Seq<char>>, inner: Box<PathView> },
}

/// The views of a list of strings.
pub open spec fn texts_view(v: Seq<String>) -> Seq<Seq<char>> {
    v.map_values(|s: String| s@)
}

/// What `p` holds.
pub open spec fn path_view(p: QueryPath) -> PathView
    decreases p,
{
    match p {
        QueryPath::Node(id) => PathView::Node(id@),
        QueryPath::Property(name, inner) => PathView::Property(name@, Box::new(path_view(*inner))),
        QueryPath::Index(i, inner) => PathView::Index(i, Box::new(path_view(*inner))),
        QueryPath::Range { start, end, inner } => PathView::Range {
            start,
            end,
            inner: Box::new(path_view(*inner)),
        },
        QueryPath::Filter { field, operator, value, inner } => PathView::Filter {
            field: field@,
            operator,
            value: value@,
            inner: Box::new(path_view(*inner)),
        },
        QueryPath::ScopeResolve { property, scopes, inner } => PathView::ScopeResolve {
            property: property@,
            scopes: texts_view(scopes@),
            inner: Box::new(path_view(*inner)),
        },
    }
}

impl Clone for QueryPath {
    /// A copy that holds the same as `self`.
    #[verifier::loop_isolation(false)]
    fn clone(&self) -> (r: Self)
        ensures
            r@ == self@,
        decreases self,
    {
        match self {
            QueryPath::Node(id) => QueryPath::Node(id.clone()),
            QueryPath::Property(name, inner) => {
                let copy = (**inner).clone();
                QueryPath::Property(name.clone(), Box::new(copy))
            },
            QueryPath::Index(i, inner) => {
                let copy = (**inner).clone();
                QueryPath::Index(*i, Box::new(copy))
            },
            QueryPath::Range { start, end, inner } => {
                let copy = (**inner).clone();
                QueryPath::Range { start: *start, end: *end, inner: Box::new(copy) }
            },
            QueryPath::Filter { field, operator, value, inner } => {
                let copy = (**inner).clone();
                QueryPath::Filter {
                    field: field.clone(),
                    operator: *operator,
                    value: value.clone(),
                    inner: Box::new(copy),
                }
            },
            QueryPath::ScopeResolve { property, scopes, inner } => {
                let copy = (**inner).clone();
                let mut names: Vec<String> = Vec::new();
                let mut i: usize = 0;
                while i < scopes.len()
                    invariant
                        i <= scopes.len(),
                        names.len() == i,
                        forall|j: int| 0 <= j < i ==> names[j]@ == scopes[j]@,
                    decreases scopes.len() - i,
                {
                    names.push(scopes[i].clone());
                    i += 1;
                }
                assert(texts_view(names@) =~= texts_view(scopes@));
                QueryPath::ScopeResolve { property: property.clone(), scopes: names, inner: Box::new(copy) }
            },
        }
    }
}

impl View for QueryPath {
    type V = PathView;

    open spec fn view(&self) -> PathView {
        path_view(*self)
    }
}

/// Why a path could not be parsed.
#[derive(Debug, Clone, PartialEq)]
pub enum ParseError {
    /// The path is empty.
    EmptyPath,
    /// An index or a bound of a range is no number.
    InvalidIndex(String),
    /// A scope lookup names no path to start from.
    UnexpectedEnd,
    /// The path has a shape that is not understood.
    InvalidCharacter(char, usize),
}

/// What a parse error holds, with sequences of characters for strings.
pub enum ParseErrorView {
    EmptyPath,
    InvalidIndex(Seq<char>),
    UnexpectedEnd,
    InvalidCharacter(char, usize),
}

impl View for ParseError {
    type V = ParseErrorView;

    open spec fn view(&self) -> ParseErrorView {
        match self {
            ParseError::EmptyPath => ParseErrorView::EmptyPath,
            ParseError::InvalidIndex(s) => ParseErrorView::InvalidIndex(s@),
            ParseError::UnexpectedEnd => ParseErrorView::UnexpectedEnd,
            ParseError::InvalidCharacter(c, pos) => ParseErrorView::InvalidCharacter(*c, *pos),
        }
    }
}

/// The sentence that describes a parse error.
pub open spec fn parse_error_message(e: ParseErrorView) -> Seq<char> {
    match e {
        ParseErrorView::EmptyPath => "Query path cannot be empty"@,
        ParseErrorView::InvalidIndex(s) => "Invalid index: "@ + s,
        ParseErrorView::UnexpectedEnd => "Unexpected end of path"@,
        ParseErrorView::InvalidCharacter(c, pos) => "Invalid character '"@.push(c)
            + "' at position "@ + decimal(pos as nat),
    }
}

impl ParseError {
    /// The sentence that describes the error.
    pub fn message(&self) -> (s: String)
        ensures
            s@ == parse_error_message(self@),
    {
        match self {
            ParseError::EmptyPath => "Query path cannot be empty".to_owned(),
            ParseError::InvalidIndex(detail) => join2("Invalid index: ", detail.as_str()),
            ParseError::UnexpectedEnd => "Unexpected end of path".to_owned(),
            ParseError::InvalidCharacter(c, pos) => {
                let mut s = "Invalid character '".to_owned();
                push_char(&mut s, *c);
                s.append("' at position ");
                let digits = decimal_text(*pos);
                s.append(digits.as_str());
                s
            },
        }
    }
}

/// What a parse yields, seen through the views of its two outcomes.
pub open spec fn parse_outcome(r: Result<QueryPath, ParseError>) -> Result<
    PathView,
    ParseErrorView,
> {
    match r {
        Ok(p) => Ok(path_view(p)),
        Err(e) => Err(e@),
    }
}

/// The field, the comparison and the value of a filter, each as text.
pub type FilterParts = (Seq<char>, FilterOperator, Seq<char>);

/// The two sides of `expr` around an operator of `width` characters at
/// `pos`, without the whitespace around them.
pub open spec fn cut_expression(
    expr: Seq<char>,
    pos: int,
    width: int,
    operator: FilterOperator,
) -> FilterParts {
    (
        trimmed(expr.subrange(0, pos)),
        operator,
        trimmed(expr.subrange(pos + width, expr.len() as int)),
    )
}

/// The reading of a filter expression. The operators are tried in the order
/// `>=`, `<=`, `!=`, `>`, `<`, `=`; the first one that occurs anywhere in the
/// expression is taken, at its first occurrence.
pub open spec fn filter_expression(expr: Seq<char>) -> Result<FilterParts, ParseErrorView> {
    let n = expr.len() as int;
    if find_pair_from(expr, '>', '=', 0) < n {
        Ok(cut_expression(expr, find_pair_from(expr, '>', '=', 0), 2, FilterOperator::GreaterThanOrEqual))
    } else if find_pair_from(expr, '<', '=', 0) < n {
        Ok(cut_expression(expr, find_pair_from(expr, '<', '=', 0), 2, FilterOperator::LessThanOrEqual))
    } else if find_pair_from(expr, '!', '=', 0) < n {
        Ok(cut_expression(expr, find_pair_from(expr, '!', '=', 0), 2, FilterOperator::NotEquals))
    } else if find_from(expr, '>', 0) < n {
        Ok(cut_expression(expr, find_from(expr, '>', 0), 1, FilterOperator::GreaterThan))
    } else if find_from(expr, '<', 0) < n {
        Ok(cut_expression(expr, find_from(expr, '<', 0), 1, FilterOperator::LessThan))
    } else if find_from(expr, '=', 0) < n {
        Ok(cut_expression(expr, find_from(expr, '=', 0), 1, FilterOperator::Equals))
    } else {
        Err(ParseErrorView::InvalidCharacter('=', 0))
    }
}

/// One bound of a range: none where the text is empty, else the number
/// written there; text that is no number is an error that quotes it after
/// `label`.
pub open spec fn range_bound(text: Seq<char>, label: Seq<char>) -> Result<
    Option<usize>,
    ParseErrorView,
> {
    if text.len() == 0 {
        Ok(None)
    } else {
        match parse_index(text) {
            Some(n) => Ok(Some(n)),
            None => Err(ParseErrorView::InvalidIndex(label + text)),
        }
    }
}

/// The two bounds of a range.
pub type Bounds = (Option<usize>, Option<usize>);

/// The reading of `part` as a range: two bounds around exactly one colon.
/// Text with no colon, or with more than one, is no range.
pub open spec fn range_syntax(part: Seq<char>) -> Result<Option<Bounds>, ParseErrorView> {
    let pieces = split(part, ':');
    if contains_char(part, ':') && pieces.len() == 2 {
        match range_bound(pieces[0], "Invalid range start: "@) {
            Err(e) => Err(e),
            Ok(start) => match range_bound(pieces[1], "Invalid range end: "@) {
                Err(e) => Err(e),
                Ok(end) => Ok(Some((start, end))),
            },
        }
    } else {
        Ok(None)
    }
}

/// A property name and the parts of a filter.
pub type NamedFilter = (Seq<char>, Seq<char>, FilterOperator, Seq<char>);

/// The reading of `part` as a filter: a name, possibly empty, and an
/// expression between the first `[` and the first `]`. Text without both
/// brackets in this order is no filter.
pub open spec fn filter_syntax(part: Seq<char>) -> Result<Option<NamedFilter>, ParseErrorView> {
    let open = find_from(part, '[', 0);
    let close = find_from(part, ']', 0);
    if open < part.len() && close < part.len() && open < close {
        match filter_expression(part.subrange(open + 1, close)) {
            Err(e) => Err(e),
            Ok(parts) => Ok(Some((part.subrange(0, open), parts.0, parts.1, parts.2))),
        }
    } else {
        Ok(None)
    }
}

/// A filter over `inner`.
pub open spec fn filter_over(parts: FilterParts, inner: PathView) -> PathView {
    PathView::Filter { field: parts.0, operator: parts.1, value: parts.2, inner: Box::new(inner) }
}

/// A range over `inner`.
pub open spec fn range_over(bounds: Bounds, inner: PathView) -> PathView {
    PathView::Range { start: bounds.0, end: bounds.1, inner: Box::new(inner) }
}

/// A segment that is a filter, a range, an index or a property name, tried
/// in this order.
pub open spec fn plain_segment(current: PathView, part: Seq<char>) -> Result<
    PathView,
    ParseErrorView,
> {
    match filter_syntax(part) {
        Err(e) => Err(e),
        Ok(Some(named)) => {
            let parts = (named.1, named.2, named.3);
            if named.0.len() == 0 {
                Ok(filter_over(parts, current))
            } else {
                Ok(filter_over(parts, PathView::Property(named.0, Box::new(current))))
            }
        },
        Ok(None) => match range_syntax(part) {
            Err(e) => Err(e),
            Ok(Some(bounds)) => Ok(range_over(bounds, current)),
            Ok(None) => match parse_index(part) {
                Some(i) => Ok(PathView::Index(i, Box::new(current))),
                None => Ok(PathView::Property(part, Box::new(current))),
            },
        },
    }
}

/// The path that one segment makes of `current`. An empty segment changes
/// nothing. A segment with a colon and an opening bracket is a range, read
/// from what stands before the bracket, with a filter on top of it, read
/// from the bracket on; where that front part is no range the segment is
/// read plainly.
pub open spec fn apply_segment(current: PathView, part: Seq<char>) -> Result<
    PathView,
    ParseErrorView,
> {
    if part.len() == 0 {
        Ok(current)
    } else if contains_char(part, ':') && contains_char(part, '[') {
        let open = find_from(part, '[', 0);
        match range_syntax(part.subrange(0, open)) {
            Err(e) => Err(e),
            Ok(Some(bounds)) => {
                let ranged = range_over(bounds, current);
                match filter_syntax(part.subrange(open, part.len() as int)) {
                    Err(e) => Err(e),
                    Ok(Some(named)) => Ok(filter_over((named.1, named.2, named.3), ranged)),
                    Ok(None) => Ok(ranged),
                }
            },
            Ok(None) => plain_segment(current, part),
        }
    } else {
        plain_segment(current, part)
    }
}

/// The path that the segments `parts[from..]` make of `current`, applied
/// from left to right; the first error ends it.
pub open spec fn apply_segments(current: PathView, parts: Seq<Seq<char>>, from: int) -> Result<
    PathView,
    ParseErrorView,
>
    decreases parts.len() - from,
{
    if from < 0 || from >= parts.len() {
        Ok(current)
    } else {
        match apply_segment(current, parts[from]) {
            Err(e) => Err(e),
            Ok(next) => apply_segments(next, parts, from + 1),
        }
    }
}

/// The collection `name` of the whole network.
pub open spec fn network_collection(name: Seq<char>) -> PathView {
    PathView::Property(name, Box::new(PathView::Node("network"@)))
}

/// The reading of a path that begins with `nodes` or `edges`: the bare
/// collection, or the collection with one filter in brackets.
pub open spec fn network_query(path: Seq<char>) -> Result<PathView, ParseErrorView> {
    let open = find_from(path, '[', 0);
    let close = find_from(path, ']', 0);
    if path == "nodes"@ || path == "edges"@ {
        Ok(network_collection(path))
    } else if open < path.len() && close < path.len() && open < close && (path.subrange(0, open)
        == "nodes"@ || path.subrange(0, open) == "edges"@) {
        match filter_expression(path.subrange(open + 1, close)) {
            Err(e) => Err(e),
            Ok(parts) => Ok(filter_over(parts, network_collection(path.subrange(0, open)))),
        }
    } else {
        Err(ParseErrorView::InvalidCharacter('?', 0))
    }
}

/// The index of the last `c` in `s` before `end`, or -1 when there is none.
pub open spec fn find_last(s: Seq<char>, c: char, end: int) -> int
    decreases end,
{
    if end <= 0 || end > s.len() {
        -1
    } else if s[end - 1] == c {
        end - 1
    } else {
        find_last(s, c, end - 1)
    }
}

/// `find_last` answers with -1 or an index below `end`.
pub proof fn lemma_find_last_bounds(s: Seq<char>, c: char, end: int)
    requires
        0 <= end <= s.len(),
    ensures
        -1 <= find_last(s, c, end) < end || (end == 0 && find_last(s, c, end) == -1),
        find_last(s, c, end) >= 0 ==> s[find_last(s, c, end)] == c,
    decreases end,
{
    if end > 0 && s[end - 1] != c {
        lemma_find_last_bounds(s, c, end - 1);
    }
}

/// Whether `path` asks for a scope lookup: its first `?` is directly
/// followed by `scope=`.
pub open spec fn is_scope_query(path: Seq<char>) -> bool {
    let q = find_from(path, '?', 0);
    q < path.len() && has_prefix(path.subrange(q + 1, path.len() as int), "scope="@)
}

/// The scope names of a scope lookup: what follows `scope=`, cut at commas,
/// each piece without the whitespace around it.
pub open spec fn scope_names(path: Seq<char>) -> Seq<Seq<char>> {
    let q = find_from(path, '?', 0);
    split(path.subrange(q + 7, path.len() as int), ',').map_values(|s: Seq<char>| trimmed(s))
}

/// The reading of a path.
///
/// An empty path is an error. A path that begins with `nodes` or `edges` is
/// a query on the whole network. A path whose first `?` is followed by
/// `scope=` is a scope lookup: the last segment of what stands before the
/// `?` is the property, the rest is parsed as the path to start from (the
/// whole of it where there is only one segment), and nothing before the `?`
/// is an error. Every other path is a node followed by segments.
pub open spec fn parse_path(path: Seq<char>) -> Result<PathView, ParseErrorView>
    decreases path.len(),
    via parse_path_decreases
{
    if path.len() == 0 {
        Err(ParseErrorView::EmptyPath)
    } else if has_prefix(path, "nodes"@) || has_prefix(path, "edges"@) {
        network_query(path)
    } else if is_scope_query(path) {
        let q = find_from(path, '?', 0);
        let base = path.subrange(0, q);
        let slash = find_last(base, '/', q);
        if q == 0 {
            Err(ParseErrorView::UnexpectedEnd)
        } else {
            let start = if slash >= 0 {
                base.subrange(0, slash)
            } else {
                base
            };
            match parse_path(start) {
                Err(e) => Err(e),
                Ok(inner) => Ok(
                    PathView::ScopeResolve {
                        property: base.subrange(slash + 1, q),
                        scopes: scope_names(path),
                        inner: Box::new(inner),
                    },
                ),
            }
        }
    } else {
        let parts = split(path, '/');
        apply_segments(PathView::Node(parts[0]), parts, 1)
    }
}

#[via_fn]
proof fn parse_path_decreases(path: Seq<char>) {
    let q = find_from(path, '?', 0);
    if path.len() != 0 && is_scope_query(path) {
        lemma_find_from_bounds(path, '?', 0);
        lemma_find_last_bounds(path.subrange(0, q), '/', q);
    }
}

/// Cuts a filter expression around an operator of `width` characters at
/// `pos`.
fn cut_chars(expr: &Vec<char>, pos: usize, width: usize, operator: FilterOperator) -> (r: (
    String,
    FilterOperator,
    String,
))
    requires
        pos + width <= expr.len(),
    ensures
        (r.0@, r.1, r.2@) == cut_expression(expr@, pos as int, width as int, operator),
{
    let field = trimmed_text(expr, 0, pos);
    let value = trimmed_text(expr, pos + width, expr.len());
    (field, operator, value)
}

/// Reads a filter expression from its characters.
pub fn filter_expression_of(expr: &Vec<char>) -> (r: Result<
    (String, FilterOperator, String),
    ParseError,
>)
    ensures
        match r {
            Ok(parts) => filter_expression(expr@) == Ok::<FilterParts, ParseErrorView>(
                (parts.0@, parts.1, parts.2@),
            ),
            Err(e) => filter_expression(expr@) == Err::<FilterParts, ParseErrorView>(e@),
        },
{
    let n = expr.len();
    let ge = find_pair(expr, '>', '=', 0);
    if ge < n {
        return Ok(cut_chars(expr, ge, 2, FilterOperator::GreaterThanOrEqual));
    }
    let le = find_pair(expr, '<', '=', 0);
    if le < n {
        return Ok(cut_chars(expr, le, 2, FilterOperator::LessThanOrEqual));
    }
    let ne = find_pair(expr, '!', '=', 0);
    if ne < n {
        return Ok(cut_chars(expr, ne, 2, FilterOperator::NotEquals));
    }
    let gt = find_char(expr, '>', 0);
    if gt < n {
        return Ok(cut_chars(expr, gt, 1, FilterOperator::GreaterThan));
    }
    let lt = find_char(expr, '<', 0);
    if lt < n {
        return Ok(cut_chars(expr, lt, 1, FilterOperator::LessThan));
    }
    let eq = find_char(expr, '=', 0);
    if eq < n {
        return Ok(cut_chars(expr, eq, 1, FilterOperator::Equals));
    }
    Err(ParseError::InvalidCharacter('=', 0))
}

/// Reads a filter expression such as `type=Pipe` or `pressure >= 10`.
pub fn parse_filter_expression(expr: &str) -> (r: Result<
    (String, FilterOperator, String),
    ParseError,
>)
    ensures
        match r {
            Ok(parts) => filter_expression(expr@) == Ok::<FilterParts, ParseErrorView>(
                (parts.0@, parts.1, parts.2@),
            ),
            Err(e) => filter_expression(expr@) == Err::<FilterParts, ParseErrorView>(e@),
        },
{
    let chars = chars_of(expr);
    filter_expression_of(&chars)
}

/// Reads one bound of a range.
fn bound_of(text: &Vec<char>, label: &str) -> (r: Result<Option<usize>, ParseError>)
    ensures
        match r {
            Ok(b) => range_bound(text@, label@) == Ok::<Option<usize>, ParseErrorView>(b),
            Err(e) => range_bound(text@, label@) == Err::<Option<usize>, ParseErrorView>(e@),
        },
{
    if text.len() == 0 {
        return Ok(None);
    }
    match read_index(text) {
        Some(n) => Ok(Some(n)),
        None => {
            let quoted = text_between(text, 0, text.len());
            assert(text@.subrange(0, text.len() as int) =~= text@);
            Err(ParseError::InvalidIndex(join2(label, quoted.as_str())))
        },
    }
}

/// Reads a range from its characters.
pub fn range_of(part: &Vec<char>) -> (r: Result<Option<(Option<usize>, Option<usize>)>, ParseError>)
    ensures
        match r {
            Ok(b) => range_syntax(part@) == Ok::<Option<Bounds>, ParseErrorView>(b),
            Err(e) => range_syntax(part@) == Err::<Option<Bounds>, ParseErrorView>(e@),
        },
{
    let colon = find_char(part, ':', 0);
    if colon >= part.len() {
        return Ok(None);
    }
    let pieces = split_chars(part, ':');
    if pieces.len() != 2 {
        return Ok(None);
    }
    assert(views_of(pieces@)[0] == pieces[0]@);
    assert(views_of(pieces@)[1] == pieces[1]@);
    let start = match bound_of(&pieces[0], "Invalid range start: ") {
        Ok(b) => b,
        Err(e) => {
            return Err(e);
        },
    };
    let end = match bound_of(&pieces[1], "Invalid range end: ") {
        Ok(b) => b,
        Err(e) => {
            return Err(e);
        },
    };
    Ok(Some((start, end)))
}

/// Reads a range such as `1:2`, `:2` or `1:`.
pub fn parse_range(part: &str) -> (r: Result<Option<(Option<usize>, Option<usize>)>, ParseError>)
    ensures
        match r {
            Ok(b) => range_syntax(part@) == Ok::<Option<Bounds>, ParseErrorView>(b),
            Err(e) => range_syntax(part@) == Err::<Option<Bounds>, ParseErrorView>(e@),
        },
{
    let chars = chars_of(part);
    range_of(&chars)
}

/// What the reading of a filter yields, seen through views.
pub open spec fn named_filter_outcome(
    r: Result<Option<(String, String, FilterOperator, String)>, ParseError>,
) -> Result<Option<NamedFilter>, ParseErrorView> {
    match r {
        Ok(Some(f)) => Ok(Some((f.0@, f.1@, f.2, f.3@))),
        Ok(None) => Ok(None),
        Err(e) => Err(e@),
    }
}

/// Reads a filter from its characters.
pub fn filter_of(part: &Vec<char>) -> (r: Result<
    Option<(String, String, FilterOperator, String)>,
    ParseError,
>)
    ensures
        named_filter_outcome(r) == filter_syntax(part@),
{
    let open = find_char(part, '[', 0);
    let close = find_char(part, ']', 0);
    if open < part.len() && close < part.len() && open < close {
        let expr = chars_between(part, open + 1, close);
        match filter_expression_of(&expr) {
            Err(e) => Err(e),
            Ok(parts) => {
                let name = text_between(part, 0, open);
                Ok(Some((name, parts.0, parts.1, parts.2)))
            },
        }
    } else {
        Ok(None)
    }
}

/// Reads a filter such as `blocks[type=Pipe]`.
pub fn parse_filter(part: &str) -> (r: Result<
    Option<(String, String, FilterOperator, String)>,
    ParseError,
>)
    ensures
        named_filter_outcome(r) == filter_syntax(part@),
{
    let chars = chars_of(part);
    filter_of(&chars)
}

/// Reads a segment that is a filter, a range, an index or a property name.
fn plain_segment_of(current: QueryPath, part: &Vec<char>) -> (r: Result<QueryPath, ParseError>)
    ensures
        parse_outcome(r) == plain_segment(path_view(current), part@),
{
    match filter_of(part) {
        Err(e) => {
            return Err(e);
        },
        Ok(Some((name, field, operator, value))) => {
            if name.as_str().unicode_len() == 0 {
                return Ok(QueryPath::Filter { field, operator, value, inner: Box::new(current) });
            } else {
                let named = QueryPath::Property(name, Box::new(current));
                assert(path_view(named) == PathView::Property(name@, Box::new(path_view(current))));
                return Ok(QueryPath::Filter { field, operator, value, inner: Box::new(named) });
            }
        },
        Ok(None) => {},
    }
    match range_of(part) {
        Err(e) => {
            return Err(e);
        },
        Ok(Some((start, end))) => {
            return Ok(QueryPath::Range { start, end, inner: Box::new(current) });
        },
        Ok(None) => {},
    }
    match read_index(part) {
        Some(i) => Ok(QueryPath::Index(i, Box::new(current))),
        None => {
            let name = text_between(part, 0, part.len());
            assert(part@.subrange(0, part.len() as int) =~= part@);
            Ok(QueryPath::Property(name, Box::new(current)))
        },
    }
}

/// Applies one segment to the path read so far.
fn segment_of(current: QueryPath, part: &Vec<char>) -> (r: Result<QueryPath, ParseError>)
    ensures
        parse_outcome(r) == apply_segment(path_view(current), part@),
{
    if part.len() == 0 {
        return Ok(current);
    }
    let colon = find_char(part, ':', 0);
    let open = find_char(part, '[', 0);
    if colon < part.len() && open < part.len() {
        let front = chars_between(part, 0, open);
        match range_of(&front) {
            Err(e) => {
                return Err(e);
            },
            Ok(Some((start, end))) => {
                let ranged = QueryPath::Range { start, end, inner: Box::new(current) };
                let back = chars_between(part, open, part.len());
                match filter_of(&back) {
                    Err(e) => {
                        return Err(e);
                    },
                    Ok(Some((_, field, operator, value))) => {
                        return Ok(
                            QueryPath::Filter { field, operator, value, inner: Box::new(ranged) },
                        );
                    },
                    Ok(None) => {
                        return Ok(ranged);
                    },
                }
            },
            Ok(None) => {},
        }
    }
    plain_segment_of(current, part)
}

/// The path for the collection `name` of the whole network.
fn collection_of(name: String) -> (r: QueryPath)
    ensures
        path_view(r) == network_collection(name@),
{
    let root = QueryPath::Node("network".to_owned());
    assert(path_view(root) == PathView::Node("network"@));
    QueryPath::Property(name, Box::new(root))
}

/// Reads a path that begins with `nodes` or `edges`.
pub fn network_query_of(path: &Vec<char>) -> (r: Result<QueryPath, ParseError>)
    ensures
        parse_outcome(r) == network_query(path@),
{
    if chars_equal(path, "nodes") {
        return Ok(collection_of("nodes".to_owned()));
    }
    if chars_equal(path, "edges") {
        return Ok(collection_of("edges".to_owned()));
    }
    let open = find_char(path, '[', 0);
    let close = find_char(path, ']', 0);
    if open < path.len() && close < path.len() && open < close {
        let collection = chars_between(path, 0, open);
        if chars_equal(&collection, "nodes") || chars_equal(&collection, "edges") {
            let expr = chars_between(path, open + 1, close);
            match filter_expression_of(&expr) {
                Err(e) => {
                    return Err(e);
                },
                Ok((field, operator, value)) => {
                    let name = text_between(path, 0, open);
                    let inner = collection_of(name);
                    return Ok(QueryPath::Filter { field, operator, value, inner: Box::new(inner) });
                },
            }
        }
    }
    Err(ParseError::InvalidCharacter('?', 0))
}

/// Reads a path that begins with `nodes` or `edges`.
pub fn parse_network_query(path: &str) -> (r: Result<QueryPath, ParseError>)
    ensures
        parse_outcome(r) == network_query(path@),
{
    let chars = chars_of(path);
    network_query_of(&chars)
}

/// Finds the last `c` in `v` before `end`; the answer is `end` when there
/// is none.
fn find_last_char(v: &Vec<char>, c: char, end: usize) -> (r: usize)
    requires
        end <= v.len(),
    ensures
        r <= end,
        r < end ==> find_last(v@, c, end as int) == r,
        r == end ==> find_last(v@, c, end as int) == -1,
{
    let mut i: usize = end;
    while i > 0
        invariant
            i <= end <= v.len(),
            find_last(v@, c, end as int) == find_last(v@, c, i as int),
        decreases i,
    {
        if v[i - 1] == c {
            return i - 1;
        }
        i -= 1;
    }
    end
}

/// Reads the scope names that follow `scope=`.
fn scope_names_of(path: &Vec<char>, q: usize) -> (names: Vec<String>)
    requires
        q + 7 <= path.len(),
        q as int == find_from(path@, '?', 0),
    ensures
        texts_view(names@) == scope_names(path@),
{
    let tail = chars_between(path, q + 7, path.len());
    let pieces = split_chars(&tail, ',');
    let mut names: Vec<String> = Vec::new();
    let mut i: usize = 0;
    while i < pieces.len()
        invariant
            i <= pieces.len(),
            names.len() == i,
            views_of(pieces@) == split(tail@, ','),
            forall|j: int| 0 <= j < i ==> names[j]@ == trimmed(pieces[j]@),
        decreases pieces.len() - i,
    {
        let name = trimmed_text(&pieces[i], 0, pieces[i].len());
        assert(pieces[i as int]@.subrange(0, pieces[i as int].len() as int) =~= pieces[i as int]@);
        names.push(name);
        i += 1;
    }
    proof {
        let want = scope_names(path@);
        assert(want.len() == pieces.len());
        assert forall|j: int| 0 <= j < names.len() implies texts_view(names@)[j] == want[j] by {
            assert(views_of(pieces@)[j] == pieces[j]@);
        }
        assert(texts_view(names@) =~= want);
    }
    names
}

/// Reads a path from its characters.
pub fn parse_chars(path: &Vec<char>) -> (r: Result<QueryPath, ParseError>)
    ensures
        parse_outcome(r) == parse_path(path@),
    decreases path.len(),
{
    if path.len() == 0 {
        return Err(ParseError::EmptyPath);
    }
    if starts_with(path, "nodes") || starts_with(path, "edges") {
        return network_query_of(path);
    }
    let q = find_char(path, '?', 0);
    if q < path.len() {
        let after = chars_between(path, q + 1, path.len());
        if starts_with(&after, "scope=") {
            proof {
                reveal_strlit("scope=");
                assert("scope="@.len() == 6);
            }
            if q == 0 {
                return Err(ParseError::UnexpectedEnd);
            }
            let base = chars_between(path, 0, q);
            let slash = find_last_char(&base, '/', q);
            let (start, property) = if slash < q {
                (chars_between(&base, 0, slash), text_between(&base, slash + 1, q))
            } else {
                assert(base@.subrange(0, q as int) =~= base@);
                (chars_between(&base, 0, q), text_between(&base, 0, q))
            };
            let inner = match parse_chars(&start) {
                Ok(p) => p,
                Err(e) => {
                    return Err(e);
                },
            };
            let scopes = scope_names_of(path, q);
            return Ok(QueryPath::ScopeResolve { property, scopes, inner: Box::new(inner) });
        }
    }
    let parts = split_chars(path, '/');
    assert(views_of(parts@)[0] == parts[0]@);
    let first = text_between(&parts[0], 0, parts[0].len());
    assert(parts[0]@.subrange(0, parts[0].len() as int) =~= parts[0]@);
    let mut current = QueryPath::Node(first);
    let mut i: usize = 1;
    while i < parts.len()
        invariant
            1 <= i <= parts.len(),
            views_of(parts@) == split(path@, '/'),
            apply_segments(path_view(current), views_of(parts@), i as int) == parse_path(path@),
        decreases parts.len() - i,
    {
        assert(views_of(parts@)[i as int] == parts[i as int]@);
        match segment_of(current, &parts[i]) {
            Ok(next) => {
                current = next;
            },
            Err(e) => {
                return Err(e);
            },
        }
        i += 1;
    }
    Ok(current)
}

/// Reads a query path.
pub fn parse_query_path(path: &str) -> (r: Result<QueryPath, ParseError>)
    ensures
        parse_outcome(r) == parse_path(path@),
{
    let chars = chars_of(path);
    parse_chars(&chars)
}

/// A path without a slash that is not empty, does not begin with `nodes`
/// or `edges` and is no scope lookup is read as the node of that name,
/// whatever else it holds.
pub proof fn lemma_plain_identifier_is_node(id: Seq<char>)
    requires
        id.len() > 0,
        !contains_char(id, '/'),
        !has_prefix(id, "nodes"@),
        !has_prefix(id, "edges"@),
        !is_scope_query(id),
    ensures
        parse_path(id) == Ok::<PathView, ParseErrorView>(PathView::Node(id)),
{
    let parts = split(id, '/');
    assert(id.subrange(0, id.len() as int) =~= id);
    assert(parts =~= seq![id]);
}

/// A segment that holds a range and then a filter is read as the filter
/// over the range: the range is applied to the path first.
pub proof fn lemma_range_before_filter(current: PathView, part: Seq<char>)
    requires
        contains_char(part, ':'),
        contains_char(part, '['),
        range_syntax(part.subrange(0, find_from(part, '[', 0))) is Ok,
        range_syntax(part.subrange(0, find_from(part, '[', 0)))->Ok_0 is Some,
        filter_syntax(part.subrange(find_from(part, '[', 0), part.len() as int)) is Ok,
        filter_syntax(part.subrange(find_from(part, '[', 0), part.len() as int))->Ok_0 is Some,
    ensures
        ({
            let open = find_from(part, '[', 0);
            let bounds = range_syntax(part.subrange(0, open))->Ok_0->Some_0;
            let named = filter_syntax(part.subrange(open, part.len() as int))->Ok_0->Some_0;
            apply_segment(current, part) == Ok::<PathView, ParseErrorView>(
                filter_over((named.1, named.2, named.3), range_over(bounds, current)),
            )
        }),
{
    lemma_find_from_bounds(part, '[', 0);
}

} // verus!
