//! DQL intermediate representation: the execution plan a query is lowered
//! to, and the builder that lowers a parsed query.
//!
//! The plan of each query kind is stated as a sequence of operation views
//! (`select_ops`, `insert_ops`, ...); the builder is proved to produce it.

use vstd::prelude::*;
use vstd::string::StringExecFns;
use crate::dql_ast::{
    Expression, Literal, LiteralView, ExprView, AggregateFunction, Direction, SelectQuery, SelectView,
    PatternView, InsertQuery, UpdateQuery, DeleteQuery, CreateQuery, TraversePattern, SelectField,
    OrderByField, opt_text, copy_opt_text, patterns_view, select_fields_view, exprs_view,
    order_fields_view, named_literals_view, named_exprs_view, where_view,
};
use crate::text::{decimal, usize_to_string, concat2, str_equal};

verus! {

/// Aggregate function type.
#[derive(Debug, Clone, Copy, PartialEq, Eq, Structural)]
pub enum AggregateFunc {
    Count,
    Sum,
    Avg,
    Min,
    Max,
}

/// Aggregate operation (for GROUP BY).
#[derive(Debug)]
pub struct AggregateOp {
    pub function: AggregateFunc,
    pub argument: FilterExpr,
    pub alias: String,
}

/// Query execution plan: the operations, run in order.
#[derive(Debug)]
pub struct QueryPlan {
    pub operations: Vec<Operation>,
}

/// Traversal direction of a plan.
#[derive(Debug, Clone, Copy, PartialEq, Eq, Structural)]
pub enum TraverseDirection {
    Outgoing,
    Incoming,
    Both,
}

/// Runtime value. A floating-point value keeps the decimal text of the
/// literal it came from.
#[derive(Debug, Clone, PartialEq)]
pub enum Value {
    Null,
    Bool(bool),
    Integer(i64),
    Float(String),
    String(String),
    EntityId(u64),
    EdgeId(u64),
}

/// Filter expression (the AST expression with every property bound to a
/// binding).
#[derive(Debug)]
pub enum FilterExpr {
    // Logical
    And(Box<FilterExpr>, Box<FilterExpr>),
    Or(Box<FilterExpr>, Box<FilterExpr>),
    Not(Box<FilterExpr>),
    // Comparisons
    Equal(Box<FilterExpr>, Box<FilterExpr>),
    NotEqual(Box<FilterExpr>, Box<FilterExpr>),
    LessThan(Box<FilterExpr>, Box<FilterExpr>),
    LessThanEq(Box<FilterExpr>, Box<FilterExpr>),
    GreaterThan(Box<FilterExpr>, Box<FilterExpr>),
    GreaterThanEq(Box<FilterExpr>, Box<FilterExpr>),
    // Arithmetic
    Add(Box<FilterExpr>, Box<FilterExpr>),
    Subtract(Box<FilterExpr>, Box<FilterExpr>),
    Multiply(Box<FilterExpr>, Box<FilterExpr>),
    Divide(Box<FilterExpr>, Box<FilterExpr>),
    // Aggregates
    Aggregate { function: AggregateFunc, argument: Box<FilterExpr> },
    // Values
    Property { binding: String, property: String },
    Constant(Value),
}

/// Projection field.
#[derive(Debug)]
pub struct ProjectField {
    pub expression: FilterExpr,
    pub alias: String,
}

/// Sort field.
#[derive(Debug)]
pub struct SortField {
    pub expression: FilterExpr,
    pub ascending: bool,
}

/// Individual operation in an execution plan. Property lists hold each
/// name once.
#[derive(Debug)]
pub enum Operation {
    /// Scan collection (table scan)
    Scan { collection: String, alias: String, filter: Option<FilterExpr> },
    /// Index lookup (optimized scan)
    IndexLookup { collection: String, alias: String, index_name: String, key_values: Vec<Value> },
    /// Graph traversal
    Traverse {
        source_binding: String,
        direction: TraverseDirection,
        edge_type: Option<String>,
        target_alias: String,
        min_hops: usize,
        max_hops: usize,
        filter: Option<FilterExpr>,
    },
    /// Filter results
    Filter { binding: String, condition: FilterExpr },
    /// Project (select) fields
    Project { fields: Vec<ProjectField> },
    /// Sort results
    Sort { fields: Vec<SortField> },
    /// Limit results
    Limit { count: usize },
    /// Skip results
    Skip { count: usize },
    /// Join two result sets
    Join { left: String, right: String, condition: FilterExpr },
    /// Insert entity
    InsertEntity { collection: String, properties: Vec<(String, Value)> },
    /// Update entities
    UpdateEntities { binding: String, updates: Vec<(String, FilterExpr)> },
    /// Delete entities
    DeleteEntities { binding: String },
    /// Create edge
    CreateEdge { source: FilterExpr, target: FilterExpr, edge_type: String, properties: Vec<(String, Value)> },
    /// Group by aggregation
    GroupBy { group_fields: Vec<FilterExpr>, aggregates: Vec<AggregateOp> },
    /// Filter aggregated results (HAVING)
    Having { condition: FilterExpr },
}

/// Query plan builder: converts an AST to a plan. It names the targets of
/// traversals that have no alias `_binding_0`, `_binding_1`, ...
pub struct QueryPlanBuilder {
    next_binding_id: usize,
}

// ---------------------------------------------------------------------
// Views
// ---------------------------------------------------------------------

/// A value with its texts as character sequences.
pub enum ValueView {
    Null,
    Bool(bool),
    Integer(i64),
    Float(Seq<char>),
    String(Seq<char>),
    EntityId(u64),
    EdgeId(u64),
}

impl View for Value {
    type V = ValueView;

    open spec fn view(&self) -> ValueView {
        match self {
            Value::Null => ValueView::Null,
            Value::Bool(b) => ValueView::Bool(*b),
            Value::Integer(n) => ValueView::Integer(*n),
            Value::Float(s) => ValueView::Float(s@),
            Value::String(s) => ValueView::String(s@),
            Value::EntityId(n) => ValueView::EntityId(*n),
            Value::EdgeId(n) => ValueView::EdgeId(*n),
        }
    }
}

/// A filter expression with its texts as character sequences.
pub enum FilterView {
    And(Box<FilterView>, Box<FilterView>),
    Or(Box<FilterView>, Box<FilterView>),
    Not(Box<FilterView>),
    Equal(Box<FilterView>, Box<FilterView>),
    NotEqual(Box<FilterView>, Box<FilterView>),
    LessThan(Box<FilterView>, Box<FilterView>),
    LessThanEq(Box<FilterView>, Box<FilterView>),
    GreaterThan(Box<FilterView>, Box<FilterView>),
    GreaterThanEq(Box<FilterView>, Box<FilterView>),
    Add(Box<FilterView>, Box<FilterView>),
    Subtract(Box<FilterView>, Box<FilterView>),
    Multiply(Box<FilterView>, Box<FilterView>),
    Divide(Box<FilterView>, Box<FilterView>),
    Aggregate(AggregateFunc, Box<FilterView>),
    /// Binding and property.
    Property(Seq<char>, Seq<char>),
    Constant(ValueView),
}

/// The view of a filter expression, node by node.
pub open spec fn filter_view(f: FilterExpr) -> FilterView
    decreases f,
{
    match f {
        FilterExpr::And(l, r) => FilterView::And(Box::new(filter_view(*l)), Box::new(filter_view(*r))),
        FilterExpr::Or(l, r) => FilterView::Or(Box::new(filter_view(*l)), Box::new(filter_view(*r))),
        FilterExpr::Not(x) => FilterView::Not(Box::new(filter_view(*x))),
        FilterExpr::Equal(l, r) => FilterView::Equal(Box::new(filter_view(*l)), Box::new(filter_view(*r))),
        FilterExpr::NotEqual(l, r) => FilterView::NotEqual(
            Box::new(filter_view(*l)),
            Box::new(filter_view(*r)),
        ),
        FilterExpr::LessThan(l, r) => FilterView::LessThan(
            Box::new(filter_view(*l)),
            Box::new(filter_view(*r)),
        ),
        FilterExpr::LessThanEq(l, r) => FilterView::LessThanEq(
            Box::new(filter_view(*l)),
            Box::new(filter_view(*r)),
        ),
        FilterExpr::GreaterThan(l, r) => FilterView::GreaterThan(
            Box::new(filter_view(*l)),
            Box::new(filter_view(*r)),
        ),
        FilterExpr::GreaterThanEq(l, r) => FilterView::GreaterThanEq(
            Box::new(filter_view(*l)),
            Box::new(filter_view(*r)),
        ),
        FilterExpr::Add(l, r) => FilterView::Add(Box::new(filter_view(*l)), Box::new(filter_view(*r))),
        FilterExpr::Subtract(l, r) => FilterView::Subtract(
            Box::new(filter_view(*l)),
            Box::new(filter_view(*r)),
        ),
        FilterExpr::Multiply(l, r) => FilterView::Multiply(
            Box::new(filter_view(*l)),
            Box::new(filter_view(*r)),
        ),
        FilterExpr::Divide(l, r) => FilterView::Divide(Box::new(filter_view(*l)), Box::new(filter_view(*r))),
        FilterExpr::Aggregate { function, argument } => FilterView::Aggregate(
            function,
            Box::new(filter_view(*argument)),
        ),
        FilterExpr::Property { binding, property } => FilterView::Property(binding@, property@),
        FilterExpr::Constant(v) => FilterView::Constant(v@),
    }
}

impl View for FilterExpr {
    type V = FilterView;

    open spec fn view(&self) -> FilterView {
        filter_view(*self)
    }
}

/// An optional filter.
pub open spec fn opt_filter_view(f: Option<FilterExpr>) -> Option<FilterView> {
    match f {
        Some(x) => Some(x@),
        None => None,
    }
}

/// An operation with its texts as character sequences and its lists as
/// sequences.
pub enum OperationView {
    Scan { collection: Seq<char>, alias: Seq<char>, filter: Option<FilterView> },
    IndexLookup { collection: Seq<char>, alias: Seq<char>, index_name: Seq<char>, key_values: Seq<ValueView> },
    Traverse {
        source_binding: Seq<char>,
        direction: TraverseDirection,
        edge_type: Option<Seq<char>>,
        target_alias: Seq<char>,
        min_hops: usize,
        max_hops: usize,
        filter: Option<FilterView>,
    },
    Filter { binding: Seq<char>, condition: FilterView },
    Project { fields: Seq<(FilterView, Seq<char>)> },
    Sort { fields: Seq<(FilterView, bool)> },
    Limit { count: usize },
    Skip { count: usize },
    Join { left: Seq<char>, right: Seq<char>, condition: FilterView },
    InsertEntity { collection: Seq<char>, properties: Seq<(Seq<char>, ValueView)> },
    UpdateEntities { binding: Seq<char>, updates: Seq<(Seq<char>, FilterView)> },
    DeleteEntities { binding: Seq<char> },
    CreateEdge {
        source: FilterView,
        target: FilterView,
        edge_type: Seq<char>,
        properties: Seq<(Seq<char>, ValueView)>,
    },
    GroupBy { group_fields: Seq<FilterView>, aggregates: Seq<(AggregateFunc, FilterView, Seq<char>)> },
    Having { condition: FilterView },
}

/// A list of named items, each name as a character sequence and each item
/// by its view.
pub open spec fn named_view<X: View>(v: Seq<(String, X)>) -> Seq<(Seq<char>, X::V)> {
    Seq::new(v.len(), |i: int| (v[i].0@, v[i].1@))
}

/// A list of items by their views.
pub open spec fn seq_view<X: View>(v: Seq<X>) -> Seq<X::V> {
    Seq::new(v.len(), |i: int| v[i]@)
}

/// Projection fields: each expression with its name.
pub open spec fn project_view(v: Seq<ProjectField>) -> Seq<(FilterView, Seq<char>)> {
    Seq::new(v.len(), |i: int| (v[i].expression@, v[i].alias@))
}

/// Sort fields: each expression with its direction.
pub open spec fn sort_view(v: Seq<SortField>) -> Seq<(FilterView, bool)> {
    Seq::new(v.len(), |i: int| (v[i].expression@, v[i].ascending))
}

/// Aggregates: each function with its argument and name.
pub open spec fn aggregates_view(v: Seq<AggregateOp>) -> Seq<(AggregateFunc, FilterView, Seq<char>)> {
    Seq::new(v.len(), |i: int| (v[i].function, v[i].argument@, v[i].alias@))
}

impl View for Operation {
    type V = OperationView;

    open spec fn view(&self) -> OperationView {
        match self {
            Operation::Scan { collection, alias, filter } => OperationView::Scan {
                collection: collection@,
                alias: alias@,
                filter: opt_filter_view(*filter),
            },
            Operation::IndexLookup { collection, alias, index_name, key_values } => OperationView::IndexLookup {
                collection: collection@,
                alias: alias@,
                index_name: index_name@,
                key_values: seq_view(key_values@),
            },
            Operation::Traverse {
                source_binding,
                direction,
                edge_type,
                target_alias,
                min_hops,
                max_hops,
                filter,
            } => OperationView::Traverse {
                source_binding: source_binding@,
                direction: *direction,
                edge_type: opt_text(*edge_type),
                target_alias: target_alias@,
                min_hops: *min_hops,
                max_hops: *max_hops,
                filter: opt_filter_view(*filter),
            },
            Operation::Filter { binding, condition } => OperationView::Filter {
                binding: binding@,
                condition: condition@,
            },
            Operation::Project { fields } => OperationView::Project { fields: project_view(fields@) },
            Operation::Sort { fields } => OperationView::Sort { fields: sort_view(fields@) },
            Operation::Limit { count } => OperationView::Limit { count: *count },
            Operation::Skip { count } => OperationView::Skip { count: *count },
            Operation::Join { left, right, condition } => OperationView::Join {
                left: left@,
                right: right@,
                condition: condition@,
            },
            Operation::InsertEntity { collection, properties } => OperationView::InsertEntity {
                collection: collection@,
                properties: named_view(properties@),
            },
            Operation::UpdateEntities { binding, updates } => OperationView::UpdateEntities {
                binding: binding@,
                updates: named_view(updates@),
            },
            Operation::DeleteEntities { binding } => OperationView::DeleteEntities { binding: binding@ },
            Operation::CreateEdge { source, target, edge_type, properties } => OperationView::CreateEdge {
                source: source@,
                target: target@,
                edge_type: edge_type@,
                properties: named_view(properties@),
            },
            Operation::GroupBy { group_fields, aggregates } => OperationView::GroupBy {
                group_fields: seq_view(group_fields@),
                aggregates: aggregates_view(aggregates@),
            },
            Operation::Having { condition } => OperationView::Having { condition: condition@ },
        }
    }
}

impl QueryPlan {
    /// The operations of the plan, by their views.
    pub open spec fn ops(&self) -> Seq<OperationView> {
        seq_view(self.operations@)
    }
}

// ---------------------------------------------------------------------
// Lowering, stated
// ---------------------------------------------------------------------

/// The plan's aggregate function for an AST aggregate function.
pub open spec fn agg_func(f: AggregateFunction) -> AggregateFunc {
    match f {
        AggregateFunction::Count => AggregateFunc::Count,
        AggregateFunction::Sum => AggregateFunc::Sum,
        AggregateFunction::Avg => AggregateFunc::Avg,
        AggregateFunction::Min => AggregateFunc::Min,
        AggregateFunction::Max => AggregateFunc::Max,
    }
}

/// The plan's direction for an AST direction.
pub open spec fn trav_dir(d: Direction) -> TraverseDirection {
    match d {
        Direction::Outgoing => TraverseDirection::Outgoing,
        Direction::Incoming => TraverseDirection::Incoming,
        Direction::Both => TraverseDirection::Both,
    }
}

/// The runtime value of a literal.
pub open spec fn value_of(l: LiteralView) -> ValueView {
    match l {
        LiteralView::Null => ValueView::Null,
        LiteralView::Bool(b) => ValueView::Bool(b),
        LiteralView::Integer(n) => ValueView::Integer(n),
        LiteralView::Float(s) => ValueView::Float(s),
        LiteralView::String(s) => ValueView::String(s),
    }
}

/// An expression as a filter: the same tree, with each property bound to
/// the entity it names, or to `b` when it names none.
pub open spec fn filter_of(e: ExprView, b: Seq<char>) -> FilterView
    decreases e,
{
    match e {
        ExprView::And(l, r) => FilterView::And(Box::new(filter_of(*l, b)), Box::new(filter_of(*r, b))),
        ExprView::Or(l, r) => FilterView::Or(Box::new(filter_of(*l, b)), Box::new(filter_of(*r, b))),
        ExprView::Not(x) => FilterView::Not(Box::new(filter_of(*x, b))),
        ExprView::Equal(l, r) => FilterView::Equal(Box::new(filter_of(*l, b)), Box::new(filter_of(*r, b))),
        ExprView::NotEqual(l, r) => FilterView::NotEqual(Box::new(filter_of(*l, b)), Box::new(filter_of(*r, b))),
        ExprView::LessThan(l, r) => FilterView::LessThan(Box::new(filter_of(*l, b)), Box::new(filter_of(*r, b))),
        ExprView::LessThanEq(l, r) => FilterView::LessThanEq(
            Box::new(filter_of(*l, b)),
            Box::new(filter_of(*r, b)),
        ),
        ExprView::GreaterThan(l, r) => FilterView::GreaterThan(
            Box::new(filter_of(*l, b)),
            Box::new(filter_of(*r, b)),
        ),
        ExprView::GreaterThanEq(l, r) => FilterView::GreaterThanEq(
            Box::new(filter_of(*l, b)),
            Box::new(filter_of(*r, b)),
        ),
        ExprView::Add(l, r) => FilterView::Add(Box::new(filter_of(*l, b)), Box::new(filter_of(*r, b))),
        ExprView::Subtract(l, r) => FilterView::Subtract(Box::new(filter_of(*l, b)), Box::new(filter_of(*r, b))),
        ExprView::Multiply(l, r) => FilterView::Multiply(Box::new(filter_of(*l, b)), Box::new(filter_of(*r, b))),
        ExprView::Divide(l, r) => FilterView::Divide(Box::new(filter_of(*l, b)), Box::new(filter_of(*r, b))),
        ExprView::Aggregate(f, x) => FilterView::Aggregate(agg_func(f), Box::new(filter_of(*x, b))),
        ExprView::Property(entity, property) => FilterView::Property(
            match entity {
                Some(n) => n,
                None => b,
            },
            property,
        ),
        ExprView::Literal(l) => FilterView::Constant(value_of(l)),
    }
}

/// The first position at or after `i` whose name is `k`.
pub open spec fn key_pos_from<X>(acc: Seq<(Seq<char>, X)>, k: Seq<char>, i: int) -> Option<int>
    decreases acc.len() - i,
{
    if i < 0 || i >= acc.len() {
        None
    } else if acc[i].0 == k {
        Some(i)
    } else {
        key_pos_from(acc, k, i + 1)
    }
}

/// Setting the item of name `k` to `x`: in place where the name is
/// present, at the end where it is not.
pub open spec fn upsert<X>(acc: Seq<(Seq<char>, X)>, k: Seq<char>, x: X) -> Seq<(Seq<char>, X)> {
    match key_pos_from(acc, k, 0) {
        Some(i) => acc.update(i, (k, x)),
        None => acc.push((k, x)),
    }
}

/// Named literals as a property list: set one after the other, so each
/// name appears once, with the last value given for it.
pub open spec fn property_list(ps: Seq<(Seq<char>, LiteralView)>) -> Seq<(Seq<char>, ValueView)>
    decreases ps.len(),
{
    if ps.len() == 0 {
        Seq::empty()
    } else {
        upsert(property_list(ps.drop_last()), ps.last().0, value_of(ps.last().1))
    }
}

/// Named expressions as an update list, bound to `b`: set one after the
/// other, so each name appears once, with the last expression given.
pub open spec fn update_list(ps: Seq<(Seq<char>, ExprView)>, b: Seq<char>) -> Seq<(Seq<char>, FilterView)>
    decreases ps.len(),
{
    if ps.len() == 0 {
        Seq::empty()
    } else {
        upsert(update_list(ps.drop_last(), b), ps.last().0, filter_of(ps.last().1, b))
    }
}

/// The generated name of the `n`-th unnamed binding.
pub open spec fn binding_name(n: nat) -> Seq<char> {
    "_binding_"@ + decimal(n)
}

/// How many of the patterns have no target alias.
pub open spec fn unnamed(ps: Seq<PatternView>) -> nat
    decreases ps.len(),
{
    if ps.len() == 0 {
        0
    } else {
        unnamed(ps.drop_last()) + if ps.last().target_alias is None { 1nat } else { 0nat }
    }
}

/// The traversals of the patterns from binding `fb`, the unnamed targets
/// numbered from `start`.
pub open spec fn traverse_ops(ps: Seq<PatternView>, fb: Seq<char>, start: nat) -> Seq<OperationView>
    decreases ps.len(),
{
    if ps.len() == 0 {
        Seq::empty()
    } else {
        let p = ps.last();
        let target = match p.target_alias {
            Some(a) => a,
            None => binding_name(start + unnamed(ps.drop_last())),
        };
        traverse_ops(ps.drop_last(), fb, start).push(
            OperationView::Traverse {
                source_binding: fb,
                direction: trav_dir(p.direction),
                edge_type: p.edge_type,
                target_alias: target,
                min_hops: p.min_hops,
                max_hops: p.max_hops,
                filter: None,
            },
        )
    }
}

/// The aggregates among the first `n` SELECT fields, each named by its
/// alias or `agg_` and its position.
pub open spec fn aggregates_upto(fields: Seq<(ExprView, Option<Seq<char>>)>, n: int, fb: Seq<char>) -> Seq<
    (AggregateFunc, FilterView, Seq<char>),
>
    decreases n,
{
    if n <= 0 {
        Seq::empty()
    } else {
        let prev = aggregates_upto(fields, n - 1, fb);
        let (e, alias) = fields[n - 1];
        match e {
            ExprView::Aggregate(f, arg) => prev.push(
                (
                    agg_func(f),
                    filter_of(*arg, fb),
                    match alias {
                        Some(a) => a,
                        None => "agg_"@ + decimal((n - 1) as nat),
                    },
                ),
            ),
            _ => prev,
        }
    }
}

/// The projection of the SELECT fields, each named by its alias or `col_`
/// and its position.
pub open spec fn project_fields(fields: Seq<(ExprView, Option<Seq<char>>)>, fb: Seq<char>) -> Seq<
    (FilterView, Seq<char>),
> {
    Seq::new(
        fields.len(),
        |i: int|
            (
                filter_of(fields[i].0, fb),
                match fields[i].1 {
                    Some(a) => a,
                    None => "col_"@ + decimal(i as nat),
                },
            ),
    )
}

/// The binding of the FROM clause: its alias, or the collection.
pub open spec fn from_binding(q: SelectView) -> Seq<char> {
    match q.alias {
        Some(a) => a,
        None => q.collection,
    }
}

/// The scan that starts a SELECT plan, filtered by the WHERE condition.
pub open spec fn scan_part(q: SelectView, fb: Seq<char>) -> Seq<OperationView> {
    seq![
        OperationView::Scan {
            collection: q.collection,
            alias: fb,
            filter: match q.where_clause {
                Some(w) => Some(filter_of(w, fb)),
                None => None,
            },
        },
    ]
}

/// The traversals of a SELECT plan.
pub open spec fn traverse_part(q: SelectView, fb: Seq<char>, start: nat) -> Seq<OperationView> {
    match q.traverse {
        Some(ps) => traverse_ops(ps, fb, start),
        None => Seq::empty(),
    }
}

/// The grouping of a SELECT plan, when it groups.
pub open spec fn group_part(q: SelectView, fb: Seq<char>) -> Seq<OperationView> {
    match q.group_by {
        Some(g) => seq![
            OperationView::GroupBy {
                group_fields: Seq::new(g.len(), |i: int| filter_of(g[i], fb)),
                aggregates: aggregates_upto(q.select, q.select.len() as int, fb),
            },
        ],
        None => Seq::empty(),
    }
}

/// The HAVING filter of a SELECT plan, when it has one.
pub open spec fn having_part(q: SelectView, fb: Seq<char>) -> Seq<OperationView> {
    match q.having {
        Some(h) => seq![OperationView::Having { condition: filter_of(h, fb) }],
        None => Seq::empty(),
    }
}

/// The projection of a SELECT plan.
pub open spec fn project_part(q: SelectView, fb: Seq<char>) -> Seq<OperationView> {
    seq![OperationView::Project { fields: project_fields(q.select, fb) }]
}

/// The sort of a SELECT plan, when it orders.
pub open spec fn sort_part(q: SelectView, fb: Seq<char>) -> Seq<OperationView> {
    match q.order_by {
        Some(o) => seq![
            OperationView::Sort { fields: Seq::new(o.len(), |i: int| (filter_of(o[i].0, fb), o[i].1)) },
        ],
        None => Seq::empty(),
    }
}

/// The skip and the limit that end a SELECT plan, when it has them.
pub open spec fn page_part(q: SelectView) -> Seq<OperationView> {
    let skip = match q.offset {
        Some(n) => seq![OperationView::Skip { count: n }],
        None => Seq::empty(),
    };
    let limit = match q.limit {
        Some(n) => seq![OperationView::Limit { count: n }],
        None => Seq::empty(),
    };
    skip + limit
}

/// The plan of a SELECT query, unnamed traversal targets numbered from
/// `start`: scan (with the WHERE filter), traversals, grouping, HAVING,
/// projection, sort, skip, limit.
pub open spec fn select_ops(q: SelectView, start: nat) -> Seq<OperationView> {
    let fb = from_binding(q);
    scan_part(q, fb) + traverse_part(q, fb, start) + group_part(q, fb) + having_part(q, fb) + project_part(
        q,
        fb,
    ) + sort_part(q, fb) + page_part(q)
}

/// How many unnamed traversal targets a SELECT query has.
pub open spec fn select_unnamed(q: SelectView) -> nat {
    match q.traverse {
        Some(ps) => unnamed(ps),
        None => 0,
    }
}

/// The plan of an INSERT query.
pub open spec fn insert_ops(collection: Seq<char>, properties: Seq<(Seq<char>, LiteralView)>) -> Seq<
    OperationView,
> {
    seq![OperationView::InsertEntity { collection, properties: property_list(properties) }]
}

/// The plan of an UPDATE query: scan the collection (under its own name,
/// with the WHERE filter), then set.
pub open spec fn update_ops(
    collection: Seq<char>,
    set: Seq<(Seq<char>, ExprView)>,
    where_clause: Option<ExprView>,
) -> Seq<OperationView> {
    seq![
        OperationView::Scan {
            collection,
            alias: collection,
            filter: match where_clause {
                Some(w) => Some(filter_of(w, collection)),
                None => None,
            },
        },
        OperationView::UpdateEntities { binding: collection, updates: update_list(set, collection) },
    ]
}

/// The plan of a DELETE query: scan the collection (under its own name,
/// with the WHERE filter), then delete.
pub open spec fn delete_ops(collection: Seq<char>, where_clause: Option<ExprView>) -> Seq<OperationView> {
    seq![
        OperationView::Scan {
            collection,
            alias: collection,
            filter: match where_clause {
                Some(w) => Some(filter_of(w, collection)),
                None => None,
            },
        },
        OperationView::DeleteEntities { binding: collection },
    ]
}

/// The plan of a CREATE query; its endpoints are bound to `_default`.
pub open spec fn create_ops(
    edge_type: Seq<char>,
    source: ExprView,
    target: ExprView,
    properties: Seq<(Seq<char>, LiteralView)>,
) -> Seq<OperationView> {
    seq![
        OperationView::CreateEdge {
            source: filter_of(source, "_default"@),
            target: filter_of(target, "_default"@),
            edge_type,
            properties: property_list(properties),
        },
    ]
}

// ---------------------------------------------------------------------
// Lowering
// ---------------------------------------------------------------------

impl From<&AggregateFunction> for AggregateFunc {
    fn from(func: &AggregateFunction) -> (r: Self) {
        match func {
            AggregateFunction::Count => AggregateFunc::Count,
            AggregateFunction::Sum => AggregateFunc::Sum,
            AggregateFunction::Avg => AggregateFunc::Avg,
            AggregateFunction::Min => AggregateFunc::Min,
            AggregateFunction::Max => AggregateFunc::Max,
        }
    }
}

impl vstd::std_specs::convert::FromSpecImpl<&AggregateFunction> for AggregateFunc {
    open spec fn obeys_from_spec() -> bool {
        true
    }

    open spec fn from_spec(func: &AggregateFunction) -> AggregateFunc {
        agg_func(*func)
    }
}

impl From<Direction> for TraverseDirection {
    fn from(dir: Direction) -> (r: Self) {
        match dir {
            Direction::Outgoing => TraverseDirection::Outgoing,
            Direction::Incoming => TraverseDirection::Incoming,
            Direction::Both => TraverseDirection::Both,
        }
    }
}

impl vstd::std_specs::convert::FromSpecImpl<Direction> for TraverseDirection {
    open spec fn obeys_from_spec() -> bool {
        true
    }

    open spec fn from_spec(dir: Direction) -> TraverseDirection {
        trav_dir(dir)
    }
}

impl Value {
    /// The runtime value of a literal.
    pub fn from_literal(lit: &Literal) -> (r: Self)
        ensures
            r@ == value_of(lit@),
    {
        match lit {
            Literal::Null => Value::Null,
            Literal::Bool(b) => Value::Bool(*b),
            Literal::Integer(n) => Value::Integer(*n),
            Literal::Float(f) => Value::Float(f.clone()),
            Literal::String(s) => Value::String(s.clone()),
        }
    }
}

impl FilterExpr {
    /// Convert an AST expression to a filter, binding every property that
    /// names no entity to `default_binding`.
    pub fn from_ast(expr: &Expression, default_binding: &str) -> (r: Self)
        ensures
            r@ == filter_of(expr@, default_binding@),
        decreases expr,
    {
        let b = default_binding;
        match expr {
            Expression::And(l, r) => FilterExpr::And(
                Box::new(Self::from_ast(l, b)),
                Box::new(Self::from_ast(r, b)),
            ),
            Expression::Or(l, r) => FilterExpr::Or(
                Box::new(Self::from_ast(l, b)),
                Box::new(Self::from_ast(r, b)),
            ),
            Expression::Not(e) => FilterExpr::Not(Box::new(Self::from_ast(e, b))),
            Expression::Equal(l, r) => FilterExpr::Equal(
                Box::new(Self::from_ast(l, b)),
                Box::new(Self::from_ast(r, b)),
            ),
            Expression::NotEqual(l, r) => FilterExpr::NotEqual(
                Box::new(Self::from_ast(l, b)),
                Box::new(Self::from_ast(r, b)),
            ),
            Expression::LessThan(l, r) => FilterExpr::LessThan(
                Box::new(Self::from_ast(l, b)),
                Box::new(Self::from_ast(r, b)),
            ),
            Expression::LessThanEq(l, r) => FilterExpr::LessThanEq(
                Box::new(Self::from_ast(l, b)),
                Box::new(Self::from_ast(r, b)),
            ),
            Expression::GreaterThan(l, r) => FilterExpr::GreaterThan(
                Box::new(Self::from_ast(l, b)),
                Box::new(Self::from_ast(r, b)),
            ),
            Expression::GreaterThanEq(l, r) => FilterExpr::GreaterThanEq(
                Box::new(Self::from_ast(l, b)),
                Box::new(Self::from_ast(r, b)),
            ),
            Expression::Add(l, r) => FilterExpr::Add(
                Box::new(Self::from_ast(l, b)),
                Box::new(Self::from_ast(r, b)),
            ),
            Expression::Subtract(l, r) => FilterExpr::Subtract(
                Box::new(Self::from_ast(l, b)),
                Box::new(Self::from_ast(r, b)),
            ),
            Expression::Multiply(l, r) => FilterExpr::Multiply(
                Box::new(Self::from_ast(l, b)),
                Box::new(Self::from_ast(r, b)),
            ),
            Expression::Divide(l, r) => FilterExpr::Divide(
                Box::new(Self::from_ast(l, b)),
                Box::new(Self::from_ast(r, b)),
            ),
            Expression::Property(prop_ref) => {
                let binding = match &prop_ref.entity {
                    Some(e) => e.clone(),
                    None => String::from_str(b),
                };
                FilterExpr::Property { binding, property: prop_ref.property.clone() }
            },
            Expression::Literal(lit) => FilterExpr::Constant(Value::from_literal(lit)),
            Expression::Aggregate(func, arg) => FilterExpr::Aggregate {
                function: AggregateFunc::from(func),
                argument: Box::new(Self::from_ast(arg, b)),
            },
        }
    }
}

/// Set the item of name `k` to `x`: in place where the name is present, at
/// the end where it is not.
pub fn upsert_named<X: View>(v: &mut Vec<(String, X)>, k: String, x: X)
    ensures
        named_view(final(v)@) == upsert(named_view(old(v)@), k@, x@),
{
    let ghost acc = named_view(v@);
    let mut i: usize = 0;
    let mut found = false;
    while i < v.len()
        invariant_except_break
            !found,
        invariant
            named_view(v@) == acc,
            i <= v.len(),
            key_pos_from(acc, k@, 0) == key_pos_from(acc, k@, i as int),
        ensures
            found ==> i < v.len() && key_pos_from(acc, k@, 0) == Some(i as int),
            !found ==> key_pos_from(acc, k@, 0) == None::<int>,
        decreases v.len() - i,
    {
        if str_equal(v[i].0.as_str(), k.as_str()) {
            assert(key_pos_from(acc, k@, i as int) == Some(i as int));
            found = true;
            break;
        }
        i = i + 1;
    }
    let ghost kv = k@;
    let ghost xv = x@;
    if found {
        v[i] = (k, x);
        assert(named_view(v@) =~= acc.update(i as int, (kv, xv)));
    } else {
        v.push((k, x));
        assert(named_view(v@) =~= acc.push((kv, xv)));
    }
}

impl QueryPlan {
    pub fn new(operations: Vec<Operation>) -> (r: Self)
        ensures
            r.operations@ == operations@,
    {
        QueryPlan { operations }
    }
}

impl QueryPlanBuilder {
    /// How many unnamed traversal targets the builder has named so far.
    pub closed spec fn bindings_named(&self) -> nat {
        self.next_binding_id as nat
    }

    pub fn new() -> (r: Self)
        ensures
            r.bindings_named() == 0,
    {
        QueryPlanBuilder { next_binding_id: 0 }
    }

    /// A fresh binding name.
    fn next_binding(&mut self) -> (r: String)
        requires
            old(self).bindings_named() < usize::MAX,
        ensures
            r@ == binding_name(old(self).bindings_named()),
            final(self).bindings_named() == old(self).bindings_named() + 1,
    {
        let id = self.next_binding_id;
        self.next_binding_id = self.next_binding_id + 1;
        concat2("_binding_", usize_to_string(id).as_str())
    }
}

impl Default for QueryPlanBuilder {
    fn default() -> (r: Self)
        ensures
            r.bindings_named() == 0,
    {
        Self::new()
    }
}

/// The generated names never run out before the counter does.
proof fn lemma_unnamed_prefix(ps: Seq<PatternView>, i: int)
    requires
        0 <= i <= ps.len(),
    ensures
        unnamed(ps.take(i)) <= unnamed(ps),
    decreases ps.len() - i,
{
    if i < ps.len() {
        lemma_unnamed_prefix(ps, i + 1);
        assert(ps.take(i + 1).drop_last() =~= ps.take(i));
    } else {
        assert(ps.take(i) =~= ps);
    }
}

/// Named literals lowered to a property list.
fn property_values(ps: &Vec<(String, Literal)>) -> (r: Vec<(String, Value)>)
    ensures
        named_view(r@) == property_list(named_literals_view(ps@)),
{
    let ghost all = named_literals_view(ps@);
    let mut props: Vec<(String, Value)> = Vec::new();
    let mut i: usize = 0;
    while i < ps.len()
        invariant
            i <= ps.len(),
            all == named_literals_view(ps@),
            named_view(props@) == property_list(all.take(i as int)),
        decreases ps.len() - i,
    {
        assert(all.take(i + 1).drop_last() =~= all.take(i as int));
        upsert_named(&mut props, ps[i].0.clone(), Value::from_literal(&ps[i].1));
        i = i + 1;
    }
    assert(all.take(ps.len() as int) =~= all);
    props
}

/// Named expressions lowered to an update list bound to `b`.
fn update_values(ps: &Vec<(String, Expression)>, b: &str) -> (r: Vec<(String, FilterExpr)>)
    ensures
        named_view(r@) == update_list(named_exprs_view(ps@), b@),
{
    let ghost all = named_exprs_view(ps@);
    let mut ups: Vec<(String, FilterExpr)> = Vec::new();
    let mut i: usize = 0;
    while i < ps.len()
        invariant
            i <= ps.len(),
            all == named_exprs_view(ps@),
            named_view(ups@) == update_list(all.take(i as int), b@),
        decreases ps.len() - i,
    {
        assert(all.take(i + 1).drop_last() =~= all.take(i as int));
        upsert_named(&mut ups, ps[i].0.clone(), FilterExpr::from_ast(&ps[i].1, b));
        i = i + 1;
    }
    assert(all.take(ps.len() as int) =~= all);
    ups
}

/// Each expression lowered to a filter bound to `b`.
fn filters_of(es: &Vec<Expression>, b: &str) -> (r: Vec<FilterExpr>)
    ensures
        seq_view(r@) == Seq::new(es@.len(), |i: int| filter_of(exprs_view(es@)[i], b@)),
{
    let mut out: Vec<FilterExpr> = Vec::new();
    let mut i: usize = 0;
    while i < es.len()
        invariant
            i <= es.len(),
            out@.len() == i,
            forall|k: int| 0 <= k < i ==> #[trigger] out@[k]@ == filter_of(es@[k]@, b@),
        decreases es.len() - i,
    {
        let f = FilterExpr::from_ast(&es[i], b);
        out.push(f);
        i = i + 1;
    }
    assert(seq_view(out@) =~= Seq::new(es@.len(), |i: int| filter_of(exprs_view(es@)[i], b@)));
    out
}

/// The projection of SELECT fields from binding `b`.
fn project_of(fields: &Vec<SelectField>, b: &str) -> (r: Vec<ProjectField>)
    ensures
        project_view(r@) == project_fields(select_fields_view(fields@), b@),
{
    let ghost fv = select_fields_view(fields@);
    let mut out: Vec<ProjectField> = Vec::new();
    let mut i: usize = 0;
    while i < fields.len()
        invariant
            i <= fields.len(),
            fv == select_fields_view(fields@),
            out@.len() == i,
            project_view(out@) == project_fields(fv, b@).take(i as int),
        decreases fields.len() - i,
    {
        let field = &fields[i];
        let alias = match &field.alias {
            Some(a) => a.clone(),
            None => concat2("col_", usize_to_string(i).as_str()),
        };
        let f = FilterExpr::from_ast(&field.expression, b);
        assert(fv[i as int] == (field.expression@, opt_text(field.alias)));
        out.push(ProjectField { expression: f, alias });
        assert(project_view(out@)[i as int] == (out@[i as int].expression@, out@[i as int].alias@));
        assert(project_view(out@) =~= project_fields(fv, b@).take(i + 1));
        i = i + 1;
    }
    assert(project_fields(fv, b@).take(fields.len() as int) =~= project_fields(fv, b@));
    out
}

/// The sort fields of ORDER BY from binding `b`.
fn sort_of(fields: &Vec<OrderByField>, b: &str) -> (r: Vec<SortField>)
    ensures
        sort_view(r@) == Seq::new(
            fields@.len(),
            |i: int| (filter_of(order_fields_view(fields@)[i].0, b@), order_fields_view(fields@)[i].1),
        ),
{
    let mut out: Vec<SortField> = Vec::new();
    let mut i: usize = 0;
    while i < fields.len()
        invariant
            i <= fields.len(),
            out@.len() == i,
            forall|k: int|
                0 <= k < i ==> #[trigger] out@[k].expression@ == filter_of(fields@[k].expression@, b@)
                    && out@[k].ascending == fields@[k].ascending,
        decreases fields.len() - i,
    {
        let f = FilterExpr::from_ast(&fields[i].expression, b);
        out.push(SortField { expression: f, ascending: fields[i].ascending });
        i = i + 1;
    }
    assert(sort_view(out@) =~= Seq::new(
        fields@.len(),
        |i: int| (filter_of(order_fields_view(fields@)[i].0, b@), order_fields_view(fields@)[i].1),
    ));
    out
}

/// The aggregates among the SELECT fields, from binding `b`.
fn aggregates_of(fields: &Vec<SelectField>, b: &str) -> (r: Vec<AggregateOp>)
    ensures
        aggregates_view(r@) == aggregates_upto(select_fields_view(fields@), fields@.len() as int, b@),
{
    let ghost fv = select_fields_view(fields@);
    let mut out: Vec<AggregateOp> = Vec::new();
    let mut i: usize = 0;
    while i < fields.len()
        invariant
            i <= fields.len(),
            fv == select_fields_view(fields@),
            aggregates_view(out@) == aggregates_upto(fv, i as int, b@),
        decreases fields.len() - i,
    {
        let field = &fields[i];
        if let Expression::Aggregate(func, arg) = &field.expression {
            let alias = match &field.alias {
                Some(a) => a.clone(),
                None => concat2("agg_", usize_to_string(i).as_str()),
            };
            let argument = FilterExpr::from_ast(arg, b);
            out.push(AggregateOp { function: AggregateFunc::from(func), argument, alias });
            assert(aggregates_view(out@) =~= aggregates_upto(fv, i + 1, b@));
        }
        i = i + 1;
    }
    out
}

/// Push `op` to the plan.
fn push_op(ops: &mut Vec<Operation>, op: Operation)
    ensures
        seq_view(final(ops)@) == seq_view(old(ops)@).push(op@),
{
    let ghost opv = op@;
    let ghost prev = ops@;
    ops.push(op);
    assert(ops@ == prev.push(op));
    assert(seq_view(ops@) =~= seq_view(prev).push(opv));
}

/// Push the grouping of a SELECT query from binding `fb`.
fn push_group(ops: &mut Vec<Operation>, query: &SelectQuery, fb: &str)
    ensures
        seq_view(final(ops)@) == seq_view(old(ops)@) + group_part(query@, fb@),
{
    let ghost prev = seq_view(ops@);
    if let Some(group_by) = &query.group_by {
        let group_fields = filters_of(&group_by.fields, fb);
        let aggregates = aggregates_of(&query.select.fields, fb);
        let op = Operation::GroupBy { group_fields, aggregates };
        assert(seq![op@] =~= group_part(query@, fb@));
        push_op(ops, op);
    }
    assert(seq_view(ops@) =~= prev + group_part(query@, fb@));
}

/// Push the HAVING filter of a SELECT query from binding `fb`.
fn push_having(ops: &mut Vec<Operation>, query: &SelectQuery, fb: &str)
    ensures
        seq_view(final(ops)@) == seq_view(old(ops)@) + having_part(query@, fb@),
{
    let ghost prev = seq_view(ops@);
    if let Some(having) = &query.having {
        let op = Operation::Having { condition: FilterExpr::from_ast(&having.condition, fb) };
        assert(seq![op@] =~= having_part(query@, fb@));
        push_op(ops, op);
    }
    assert(seq_view(ops@) =~= prev + having_part(query@, fb@));
}

/// Push the projection of a SELECT query from binding `fb`.
fn push_project(ops: &mut Vec<Operation>, query: &SelectQuery, fb: &str)
    ensures
        seq_view(final(ops)@) == seq_view(old(ops)@) + project_part(query@, fb@),
{
    let ghost prev = seq_view(ops@);
    let fields = project_of(&query.select.fields, fb);
    let op = Operation::Project { fields };
    assert(seq![op@] =~= project_part(query@, fb@));
    push_op(ops, op);
    assert(seq_view(ops@) =~= prev + project_part(query@, fb@));
}

/// Push the sort of a SELECT query from binding `fb`.
fn push_sort(ops: &mut Vec<Operation>, query: &SelectQuery, fb: &str)
    ensures
        seq_view(final(ops)@) == seq_view(old(ops)@) + sort_part(query@, fb@),
{
    let ghost prev = seq_view(ops@);
    if let Some(order_by) = &query.order_by {
        let fields = sort_of(&order_by.fields, fb);
        let op = Operation::Sort { fields };
        assert(seq![op@] =~= sort_part(query@, fb@));
        push_op(ops, op);
    }
    assert(seq_view(ops@) =~= prev + sort_part(query@, fb@));
}

/// Push the skip and the limit of a SELECT query.
fn push_page(ops: &mut Vec<Operation>, query: &SelectQuery)
    ensures
        seq_view(final(ops)@) == seq_view(old(ops)@) + page_part(query@),
{
    let ghost prev = seq_view(ops@);
    if let Some(offset) = query.offset {
        push_op(ops, Operation::Skip { count: offset });
    }
    if let Some(limit) = query.limit {
        push_op(ops, Operation::Limit { count: limit });
    }
    assert(seq_view(ops@) =~= prev + page_part(query@));
}

impl QueryPlanBuilder {
    /// Push a traversal for each pattern, from binding `fb`.
    fn push_traversals(&mut self, ops: &mut Vec<Operation>, patterns: &Vec<TraversePattern>, fb: &String)
        requires
            old(self).bindings_named() + unnamed(patterns_view(patterns@)) <= usize::MAX,
        ensures
            seq_view(final(ops)@) == seq_view(old(ops)@) + traverse_ops(
                patterns_view(patterns@),
                fb@,
                old(self).bindings_named(),
            ),
            final(self).bindings_named() == old(self).bindings_named() + unnamed(patterns_view(patterns@)),
    {
        let ghost ps = patterns_view(patterns@);
        let ghost start = self.bindings_named();
        let ghost before = seq_view(ops@);
        let mut i: usize = 0;
        while i < patterns.len()
            invariant
                i <= patterns.len(),
                ps == patterns_view(patterns@),
                start + unnamed(ps) <= usize::MAX,
                self.bindings_named() == start + unnamed(ps.take(i as int)),
                seq_view(ops@) == before + traverse_ops(ps.take(i as int), fb@, start),
            decreases patterns.len() - i,
        {
            proof {
                lemma_unnamed_prefix(ps, i + 1);
                assert(ps.take(i + 1).drop_last() =~= ps.take(i as int));
            }
            let pattern = &patterns[i];
            assert(ps[i as int] == pattern@);
            assert(ps.take(i + 1).last() == ps[i as int]);
            let target = match &pattern.target_alias {
                Some(a) => a.clone(),
                None => self.next_binding(),
            };
            let direction = TraverseDirection::from(pattern.direction);
            assert(direction == trav_dir(pattern.direction));
            let op = Operation::Traverse {
                source_binding: fb.clone(),
                direction,
                edge_type: copy_opt_text(&pattern.edge_type),
                target_alias: target,
                min_hops: pattern.min_hops,
                max_hops: pattern.max_hops,
                filter: None,
            };
            let ghost tail = traverse_ops(ps.take(i + 1), fb@, start);
            assert(tail == traverse_ops(ps.take(i as int), fb@, start).push(op@));
            let ghost opv = op@;
            let ghost prev = ops@;
            ops.push(op);
            assert(ops@ == prev.push(op));
            assert(seq_view(ops@) =~= seq_view(prev).push(opv));
            assert(seq_view(ops@) =~= before + traverse_ops(ps.take(i + 1), fb@, start));
            i = i + 1;
        }
        assert(ps.take(patterns.len() as int) =~= ps);
    }

    /// Build the execution plan of a SELECT query.
    pub fn build_select(&mut self, query: &SelectQuery) -> (r: Result<QueryPlan, String>)
        requires
            old(self).bindings_named() + select_unnamed(query@) <= usize::MAX,
        ensures
            r matches Ok(plan) && plan.ops() == select_ops(query@, old(self).bindings_named()),
            final(self).bindings_named() == old(self).bindings_named() + select_unnamed(query@),
    {
        let ghost q = query@;
        let ghost start = self.bindings_named();
        let mut operations: Vec<Operation> = Vec::new();

        // Step 1: FROM clause - scan, filtered by WHERE
        let from_binding = match &query.from.alias {
            Some(a) => a.clone(),
            None => query.from.collection.clone(),
        };
        let ghost fb = from_binding@;
        assert(fb == self::from_binding(q));
        let filter = match &query.where_clause {
            Some(w) => Some(FilterExpr::from_ast(&w.condition, from_binding.as_str())),
            None => None,
        };
        let op = Operation::Scan { collection: query.from.collection.clone(), alias: from_binding.clone(), filter };
        assert(seq![op@] == scan_part(q, fb));
        operations.push(op);
        assert(seq_view(operations@) =~= scan_part(q, fb));

        // Step 2: TRAVERSE clause
        if let Some(traverse) = &query.traverse {
            self.push_traversals(&mut operations, &traverse.patterns, &from_binding);
        }
        assert(seq_view(operations@) =~= scan_part(q, fb) + traverse_part(q, fb, start));
        // Steps 3 to 7: GROUP BY, HAVING, PROJECT, ORDER BY, OFFSET, LIMIT
        push_group(&mut operations, query, from_binding.as_str());
        push_having(&mut operations, query, from_binding.as_str());
        push_project(&mut operations, query, from_binding.as_str());
        push_sort(&mut operations, query, from_binding.as_str());
        push_page(&mut operations, query);
        let plan = QueryPlan::new(operations);
        assert(plan.ops() =~= select_ops(q, start));
        Ok(plan)
    }

    /// Build the execution plan of an INSERT query.
    pub fn build_insert(&mut self, query: &InsertQuery) -> (r: Result<QueryPlan, String>)
        ensures
            r matches Ok(plan) && plan.ops() == insert_ops(query.collection@, named_literals_view(query.properties@)),
            final(self).bindings_named() == old(self).bindings_named(),
    {
        let properties = property_values(&query.properties);
        let mut operations: Vec<Operation> = Vec::new();
        operations.push(Operation::InsertEntity { collection: query.collection.clone(), properties });
        let plan = QueryPlan::new(operations);
        assert(plan.ops() =~= insert_ops(query.collection@, named_literals_view(query.properties@)));
        Ok(plan)
    }

    /// Build the execution plan of an UPDATE query.
    pub fn build_update(&mut self, query: &UpdateQuery) -> (r: Result<QueryPlan, String>)
        ensures
            r matches Ok(plan) && plan.ops() == update_ops(
                query.collection@,
                named_exprs_view(query.set@),
                where_view(query.where_clause),
            ),
            final(self).bindings_named() == old(self).bindings_named(),
    {
        let binding = query.collection.clone();
        let filter = match &query.where_clause {
            Some(w) => Some(FilterExpr::from_ast(&w.condition, binding.as_str())),
            None => None,
        };
        let mut operations: Vec<Operation> = Vec::new();
        operations.push(Operation::Scan { collection: query.collection.clone(), alias: binding.clone(), filter });
        let updates = update_values(&query.set, binding.as_str());
        operations.push(Operation::UpdateEntities { binding, updates });
        let plan = QueryPlan::new(operations);
        assert(plan.ops() =~= update_ops(
            query.collection@,
            named_exprs_view(query.set@),
            where_view(query.where_clause),
        ));
        Ok(plan)
    }

    /// Build the execution plan of a DELETE query.
    pub fn build_delete(&mut self, query: &DeleteQuery) -> (r: Result<QueryPlan, String>)
        ensures
            r matches Ok(plan) && plan.ops() == delete_ops(query.collection@, where_view(query.where_clause)),
            final(self).bindings_named() == old(self).bindings_named(),
    {
        let binding = query.collection.clone();
        let filter = match &query.where_clause {
            Some(w) => Some(FilterExpr::from_ast(&w.condition, binding.as_str())),
            None => None,
        };
        let mut operations: Vec<Operation> = Vec::new();
        operations.push(Operation::Scan { collection: query.collection.clone(), alias: binding.clone(), filter });
        operations.push(Operation::DeleteEntities { binding });
        let plan = QueryPlan::new(operations);
        assert(plan.ops() =~= delete_ops(query.collection@, where_view(query.where_clause)));
        Ok(plan)
    }

    /// Build the execution plan of a CREATE query.
    pub fn build_create(&mut self, query: &CreateQuery) -> (r: Result<QueryPlan, String>)
        ensures
            r matches Ok(plan) && plan.ops() == create_ops(
                query.edge_type@,
                query.source@,
                query.target@,
                named_literals_view(query.properties@),
            ),
            final(self).bindings_named() == old(self).bindings_named(),
    {
        let properties = property_values(&query.properties);
        let source = FilterExpr::from_ast(&query.source, "_default");
        let target = FilterExpr::from_ast(&query.target, "_default");
        let mut operations: Vec<Operation> = Vec::new();
        operations.push(Operation::CreateEdge { source, target, edge_type: query.edge_type.clone(), properties });
        let plan = QueryPlan::new(operations);
        assert(plan.ops() =~= create_ops(
            query.edge_type@,
            query.source@,
            query.target@,
            named_literals_view(query.properties@),
        ));
        Ok(plan)
    }
}

// ---------------------------------------------------------------------
// Laws
// ---------------------------------------------------------------------

/// One traversal per pattern.
proof fn lemma_traverse_len(ps: Seq<PatternView>, fb: Seq<char>, start: nat)
    ensures
        traverse_ops(ps, fb, start).len() == ps.len(),
    decreases ps.len(),
{
    if ps.len() > 0 {
        lemma_traverse_len(ps.drop_last(), fb, start);
    }
}

/// 1 when the option holds a value, else 0.
pub open spec fn present<T>(o: Option<T>) -> int {
    if o is Some { 1 } else { 0 }
}

/// The shape of a SELECT plan: it starts with a scan of the FROM
/// collection under the FROM binding, filtered by the WHERE condition; it
/// has one operation per traverse pattern, one projection, and one more
/// for each of GROUP BY, HAVING, ORDER BY, OFFSET and LIMIT that the query
/// has; and a LIMIT is its last operation.
pub proof fn law_select_plan_shape(q: SelectView, start: nat)
    ensures
        select_ops(q, start)[0] == (OperationView::Scan {
            collection: q.collection,
            alias: from_binding(q),
            filter: match q.where_clause {
                Some(w) => Some(filter_of(w, from_binding(q))),
                None => None,
            },
        }),
        select_ops(q, start).len() == 2 + match q.traverse {
            Some(ps) => ps.len() as int,
            None => 0,
        } + present(q.group_by) + present(q.having) + present(q.order_by) + present(q.offset) + present(
            q.limit,
        ),
        q.limit matches Some(n) ==> select_ops(q, start).last() == (OperationView::Limit { count: n }),
{
    let fb = from_binding(q);
    if let Some(ps) = q.traverse {
        lemma_traverse_len(ps, fb, start);
    }
}

/// Where in a list a name stands, if anywhere.
proof fn lemma_key_pos(acc: Seq<(Seq<char>, ValueView)>, k: Seq<char>, i: int)
    requires
        0 <= i <= acc.len(),
    ensures
        match key_pos_from(acc, k, i) {
            Some(j) => i <= j < acc.len() && acc[j].0 == k && forall|m: int| i <= m < j ==> acc[m].0 != k,
            None => forall|m: int| i <= m < acc.len() ==> acc[m].0 != k,
        },
    decreases acc.len() - i,
{
    if i < acc.len() && acc[i].0 != k {
        lemma_key_pos(acc, k, i + 1);
    }
}

/// The names of a list are pairwise different.
pub open spec fn names_distinct<X>(acc: Seq<(Seq<char>, X)>) -> bool {
    forall|a: int, b: int| 0 <= a < b < acc.len() ==> acc[a].0 != acc[b].0
}

/// The last position before `n` at which the named literals give the
/// name `k`.
pub open spec fn last_given(ps: Seq<(Seq<char>, LiteralView)>, k: Seq<char>, n: int) -> Option<int>
    decreases n,
{
    if n <= 0 {
        None
    } else if ps[n - 1].0 == k {
        Some(n - 1)
    } else {
        last_given(ps, k, n - 1)
    }
}

/// A property list, as INSERT and CREATE plans hold it, has each name once;
/// it holds a name exactly when the query gives that name, and with the
/// value of the last literal given for it.
pub proof fn law_property_list(ps: Seq<(Seq<char>, LiteralView)>, k: Seq<char>)
    ensures
        names_distinct(property_list(ps)),
        match last_given(ps, k, ps.len() as int) {
            Some(i) => exists|j: int|
                0 <= j < property_list(ps).len() && #[trigger] property_list(ps)[j] == (k, value_of(ps[i].1)),
            None => forall|j: int| 0 <= j < property_list(ps).len() ==> #[trigger] property_list(ps)[j].0 != k,
        },
    decreases ps.len(),
{
    if ps.len() > 0 {
        let init = ps.drop_last();
        let (lk, lv) = ps.last();
        law_property_list(init, k);
        law_property_list(init, lk);
        let acc = property_list(init);
        lemma_key_pos(acc, lk, 0);
        lemma_last_given_prefix(ps, init, k, init.len() as int);
        lemma_last_given_range(init, k, init.len() as int);
        assert(last_given(ps, k, ps.len() as int) == if lk == k {
            Some(ps.len() - 1)
        } else {
            last_given(init, k, init.len() as int)
        });
        let res = property_list(ps);
        match key_pos_from(acc, lk, 0) {
            Some(p) => {
                assert(res == acc.update(p, (lk, value_of(lv))));
                if k == lk {
                    assert(res[p] == (k, value_of(ps[ps.len() - 1].1)));
                    assert(last_given(ps, k, ps.len() as int) == Some((ps.len() - 1) as int));
                } else {
                    match last_given(init, k, init.len() as int) {
                        Some(i) => {
                            let j = choose|j: int| 0 <= j < acc.len() && #[trigger] acc[j] == (k, value_of(init[i].1));
                            assert(res[j] == acc[j]);
                            assert(init[i] == ps[i]);
                        },
                        None => {
                            assert forall|j: int| 0 <= j < res.len() implies #[trigger] res[j].0 != k by {
                                if j != p {
                                    assert(res[j] == acc[j]);
                                }
                            }
                        },
                    }
                }
            },
            None => {
                assert(res == acc.push((lk, value_of(lv))));
                if k == lk {
                    assert(res[acc.len() as int] == (k, value_of(ps[ps.len() - 1].1)));
                    assert(last_given(ps, k, ps.len() as int) == Some((ps.len() - 1) as int));
                } else {
                    match last_given(init, k, init.len() as int) {
                        Some(i) => {
                            let j = choose|j: int| 0 <= j < acc.len() && #[trigger] acc[j] == (k, value_of(init[i].1));
                            assert(res[j] == acc[j]);
                            assert(init[i] == ps[i]);
                        },
                        None => {
                            assert forall|j: int| 0 <= j < res.len() implies #[trigger] res[j].0 != k by {
                                if j < acc.len() {
                                    assert(res[j] == acc[j]);
                                }
                            }
                        },
                    }
                }
            },
        }
    }
}

/// The last occurrence below `n` is a position below `n` holding the name.
proof fn lemma_last_given_range(ps: Seq<(Seq<char>, LiteralView)>, k: Seq<char>, n: int)
    requires
        n <= ps.len(),
    ensures
        last_given(ps, k, n) matches Some(i) ==> 0 <= i < n && ps[i].0 == k,
    decreases n,
{
    if n > 0 && ps[n - 1].0 != k {
        lemma_last_given_range(ps, k, n - 1);
    }
}

/// The last occurrence below `n` does not look past `n`.
proof fn lemma_last_given_prefix(
    ps: Seq<(Seq<char>, LiteralView)>,
    init: Seq<(Seq<char>, LiteralView)>,
    k: Seq<char>,
    n: int,
)
    requires
        ps.len() > 0,
        init == ps.drop_last(),
        0 <= n <= init.len(),
    ensures
        last_given(init, k, n) == last_given(ps, k, n),
    decreases n,
{
    if n > 0 {
        lemma_last_given_prefix(ps, init, k, n - 1);
        assert(init[n - 1] == ps[n - 1]);
    }
}

/// The truth of an expression's connectives (`AND`, `OR`, `NOT`) when each
/// other node reads as `atom` says.
pub open spec fn expr_holds(e: ExprView, atom: spec_fn(ExprView) -> bool) -> bool
    decreases e,
{
    match e {
        ExprView::And(l, r) => expr_holds(*l, atom) && expr_holds(*r, atom),
        ExprView::Or(l, r) => expr_holds(*l, atom) || expr_holds(*r, atom),
        ExprView::Not(x) => !expr_holds(*x, atom),
        _ => atom(e),
    }
}

/// The truth of a filter's connectives (`And`, `Or`, `Not`) when each other
/// node reads as `atom` says.
pub open spec fn filter_holds(f: FilterView, atom: spec_fn(FilterView) -> bool) -> bool
    decreases f,
{
    match f {
        FilterView::And(l, r) => filter_holds(*l, atom) && filter_holds(*r, atom),
        FilterView::Or(l, r) => filter_holds(*l, atom) || filter_holds(*r, atom),
        FilterView::Not(x) => !filter_holds(*x, atom),
        _ => atom(f),
    }
}

/// Turning an expression into a filter keeps its meaning: however the
/// comparisons and other leaves of the filter read, the filter holds exactly
/// when the expression holds with each of its leaves read as the filter of
/// that leaf.
pub proof fn law_filter_keeps_truth(e: ExprView, b: Seq<char>, atom: spec_fn(FilterView) -> bool)
    ensures
        filter_holds(filter_of(e, b), atom) == expr_holds(e, |x: ExprView| atom(filter_of(x, b))),
    decreases e,
{
    match e {
        ExprView::And(l, r) => {
            law_filter_keeps_truth(*l, b, atom);
            law_filter_keeps_truth(*r, b, atom);
        },
        ExprView::Or(l, r) => {
            law_filter_keeps_truth(*l, b, atom);
            law_filter_keeps_truth(*r, b, atom);
        },
        ExprView::Not(x) => {
            law_filter_keeps_truth(*x, b, atom);
        },
        _ => {},
    }
}

/// Turning an expression into a filter keeps every node's operator: each
/// connective, comparison and arithmetic operator becomes the filter
/// operator of the same name over the filters of its operands; a property
/// keeps its name and is bound to the entity it names, or to `b` when it
/// names none; a literal becomes the constant of its value.
pub proof fn law_filter_keeps_operators(l: ExprView, r: ExprView, b: Seq<char>, entity: Seq<char>, property: Seq<char>, lit: LiteralView)
    ensures
        filter_of(ExprView::And(Box::new(l), Box::new(r)), b) == FilterView::And(
            Box::new(filter_of(l, b)),
            Box::new(filter_of(r, b)),
        ),
        filter_of(ExprView::Or(Box::new(l), Box::new(r)), b) == FilterView::Or(
            Box::new(filter_of(l, b)),
            Box::new(filter_of(r, b)),
        ),
        filter_of(ExprView::Equal(Box::new(l), Box::new(r)), b) == FilterView::Equal(
            Box::new(filter_of(l, b)),
            Box::new(filter_of(r, b)),
        ),
        filter_of(ExprView::NotEqual(Box::new(l), Box::new(r)), b) == FilterView::NotEqual(
            Box::new(filter_of(l, b)),
            Box::new(filter_of(r, b)),
        ),
        filter_of(ExprView::LessThan(Box::new(l), Box::new(r)), b) == FilterView::LessThan(
            Box::new(filter_of(l, b)),
            Box::new(filter_of(r, b)),
        ),
        filter_of(ExprView::LessThanEq(Box::new(l), Box::new(r)), b) == FilterView::LessThanEq(
            Box::new(filter_of(l, b)),
            Box::new(filter_of(r, b)),
        ),
        filter_of(ExprView::GreaterThan(Box::new(l), Box::new(r)), b) == FilterView::GreaterThan(
            Box::new(filter_of(l, b)),
            Box::new(filter_of(r, b)),
        ),
        filter_of(ExprView::GreaterThanEq(Box::new(l), Box::new(r)), b) == FilterView::GreaterThanEq(
            Box::new(filter_of(l, b)),
            Box::new(filter_of(r, b)),
        ),
        filter_of(ExprView::Add(Box::new(l), Box::new(r)), b) == FilterView::Add(
            Box::new(filter_of(l, b)),
            Box::new(filter_of(r, b)),
        ),
        filter_of(ExprView::Subtract(Box::new(l), Box::new(r)), b) == FilterView::Subtract(
            Box::new(filter_of(l, b)),
            Box::new(filter_of(r, b)),
        ),
        filter_of(ExprView::Multiply(Box::new(l), Box::new(r)), b) == FilterView::Multiply(
            Box::new(filter_of(l, b)),
            Box::new(filter_of(r, b)),
        ),
        filter_of(ExprView::Divide(Box::new(l), Box::new(r)), b) == FilterView::Divide(
            Box::new(filter_of(l, b)),
            Box::new(filter_of(r, b)),
        ),
        filter_of(ExprView::Not(Box::new(l)), b) == FilterView::Not(Box::new(filter_of(l, b))),
        filter_of(ExprView::Property(Some(entity), property), b) == FilterView::Property(entity, property),
        filter_of(ExprView::Property(None, property), b) == FilterView::Property(b, property),
        filter_of(ExprView::Literal(lit), b) == FilterView::Constant(value_of(lit)),
        forall|f: AggregateFunction| #[trigger] filter_of(ExprView::Aggregate(f, Box::new(l)), b) == FilterView::Aggregate(
            agg_func(f),
            Box::new(filter_of(l, b)),
        ),
{
}

/// Lowering keeps names: each aggregate function, traversal direction and
/// literal becomes the plan's function, direction and value of the same
/// name (with the same contents).
pub proof fn law_lowering_keeps_names(flag: bool, n: i64, text: Seq<char>)
    ensures
        agg_func(AggregateFunction::Count) == AggregateFunc::Count,
        agg_func(AggregateFunction::Sum) == AggregateFunc::Sum,
        agg_func(AggregateFunction::Avg) == AggregateFunc::Avg,
        agg_func(AggregateFunction::Min) == AggregateFunc::Min,
        agg_func(AggregateFunction::Max) == AggregateFunc::Max,
        trav_dir(Direction::Outgoing) == TraverseDirection::Outgoing,
        trav_dir(Direction::Incoming) == TraverseDirection::Incoming,
        trav_dir(Direction::Both) == TraverseDirection::Both,
        value_of(LiteralView::Null) == ValueView::Null,
        value_of(LiteralView::Bool(flag)) == ValueView::Bool(flag),
        value_of(LiteralView::Integer(n)) == ValueView::Integer(n),
        value_of(LiteralView::Float(text)) == ValueView::Float(text),
        value_of(LiteralView::String(text)) == ValueView::String(text),
{
}

} // verus!

