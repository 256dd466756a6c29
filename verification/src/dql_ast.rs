//! DQL abstract syntax tree: the parsed structure of a query before it is
//! lowered to an execution plan.
//!
//! Every node has a view in which its texts are character sequences; the
//! parser and the plan builder state their results over these views.

use vstd::prelude::*;
use vstd::string::StringExecFns;
use crate::transaction::IsolationLevel;

verus! {

/// Top-level query node.
#[derive(Debug, Clone)]
pub enum Query {
    Select(SelectQuery),
    Insert(InsertQuery),
    Update(UpdateQuery),
    Delete(DeleteQuery),
    Create(CreateQuery),
    // Transaction commands
    Begin(BeginQuery),
    Commit,
    Rollback,
    // Index commands
    CreateIndex(CreateIndexQuery),
    DropIndex(DropIndexQuery),
}

/// BEGIN TRANSACTION query.
#[derive(Debug, Clone)]
pub struct BeginQuery {
    pub isolation_level: Option<IsolationLevel>,
}

/// CREATE INDEX query.
#[derive(Debug, Clone)]
pub struct CreateIndexQuery {
    pub index_name: String,
    pub collection: String,
    pub field: String,
    pub unique: bool,
}

/// DROP INDEX query.
#[derive(Debug, Clone)]
pub struct DropIndexQuery {
    pub index_name: String,
}

/// SELECT query with optional TRAVERSE.
#[derive(Debug, Clone)]
pub struct SelectQuery {
    pub from: FromClause,
    pub traverse: Option<TraverseClause>,
    pub where_clause: Option<WhereClause>,
    pub select: SelectClause,
    pub group_by: Option<GroupByClause>,
    pub having: Option<HavingClause>,
    pub order_by: Option<OrderByClause>,
    pub limit: Option<usize>,
    pub offset: Option<usize>,
}

/// FROM clause (table/collection scan).
#[derive(Debug, Clone)]
pub struct FromClause {
    pub collection: String,
    pub alias: Option<String>,
}

/// TRAVERSE clause (graph navigation).
#[derive(Debug, Clone)]
pub struct TraverseClause {
    pub patterns: Vec<TraversePattern>,
}

/// Single traverse pattern: `-[:TYPE]-> Node`.
#[derive(Debug, Clone)]
pub struct TraversePattern {
    pub direction: Direction,
    pub edge_type: Option<String>,
    pub target_alias: Option<String>,
    pub min_hops: usize,
    pub max_hops: usize,
}

/// Direction of a traversal.
#[derive(Debug, Clone, Copy, PartialEq, Eq, Structural)]
pub enum Direction {
    /// `->`
    Outgoing,
    /// `<-`
    Incoming,
    /// `<->`
    Both,
}

/// WHERE clause (filter condition).
#[derive(Debug, Clone)]
pub struct WhereClause {
    pub condition: Expression,
}

/// Expressions of WHERE, SELECT, SET and ORDER BY.
#[derive(Debug)]
pub enum Expression {
    // Binary operations
    And(Box<Expression>, Box<Expression>),
    Or(Box<Expression>, Box<Expression>),
    Not(Box<Expression>),
    // Comparisons
    Equal(Box<Expression>, Box<Expression>),
    NotEqual(Box<Expression>, Box<Expression>),
    LessThan(Box<Expression>, Box<Expression>),
    LessThanEq(Box<Expression>, Box<Expression>),
    GreaterThan(Box<Expression>, Box<Expression>),
    GreaterThanEq(Box<Expression>, Box<Expression>),
    // Arithmetic
    Add(Box<Expression>, Box<Expression>),
    Subtract(Box<Expression>, Box<Expression>),
    Multiply(Box<Expression>, Box<Expression>),
    Divide(Box<Expression>, Box<Expression>),
    // Aggregations
    Aggregate(AggregateFunction, Box<Expression>),
    // Values
    Property(PropertyRef),
    Literal(Literal),
}

/// Aggregate functions.
#[derive(Debug, Clone, Copy, PartialEq, Eq, Structural)]
pub enum AggregateFunction {
    /// COUNT(*) or COUNT(field)
    Count,
    /// SUM(field)
    Sum,
    /// AVG(field)
    Avg,
    /// MIN(field)
    Min,
    /// MAX(field)
    Max,
}

/// Property reference: `Table.column` or `alias.property`.
#[derive(Debug, Clone)]
pub struct PropertyRef {
    /// Optional table/alias
    pub entity: Option<String>,
    pub property: String,
}

/// Literal values. A floating-point literal keeps the decimal text the
/// lexer read; its value is computed where it is used.
#[derive(Debug, Clone)]
pub enum Literal {
    Null,
    Bool(bool),
    Integer(i64),
    Float(String),
    String(String),
}

/// SELECT clause (projection).
#[derive(Debug, Clone)]
pub struct SelectClause {
    pub fields: Vec<SelectField>,
}

#[derive(Debug, Clone)]
pub struct SelectField {
    pub expression: Expression,
    pub alias: Option<String>,
}

/// GROUP BY clause.
#[derive(Debug, Clone)]
pub struct GroupByClause {
    pub fields: Vec<Expression>,
}

/// HAVING clause (filter after GROUP BY).
#[derive(Debug, Clone)]
pub struct HavingClause {
    pub condition: Expression,
}

/// ORDER BY clause.
#[derive(Debug, Clone)]
pub struct OrderByClause {
    pub fields: Vec<OrderByField>,
}

#[derive(Debug, Clone)]
pub struct OrderByField {
    pub expression: Expression,
    pub ascending: bool,
}

/// INSERT query.
#[derive(Debug, Clone)]
pub struct InsertQuery {
    pub collection: String,
    pub properties: Vec<(String, Literal)>,
}

/// UPDATE query.
#[derive(Debug, Clone)]
pub struct UpdateQuery {
    pub collection: String,
    pub set: Vec<(String, Expression)>,
    pub where_clause: Option<WhereClause>,
}

/// DELETE query.
#[derive(Debug, Clone)]
pub struct DeleteQuery {
    pub collection: String,
    pub where_clause: Option<WhereClause>,
}

/// CREATE query (for edges/relationships).
#[derive(Debug, Clone)]
pub struct CreateQuery {
    pub edge_type: String,
    pub source: Expression,
    pub target: Expression,
    pub properties: Vec<(String, Literal)>,
}

// ---------------------------------------------------------------------
// Views
// ---------------------------------------------------------------------

/// A literal with its texts as character sequences.
pub enum LiteralView {
    Null,
    Bool(bool),
    Integer(i64),
    Float(Seq<char>),
    String(Seq<char>),
}

/// An expression with its texts as character sequences.
pub enum ExprView {
    And(Box<ExprView>, Box<ExprView>),
    Or(Box<ExprView>, Box<ExprView>),
    Not(Box<ExprView>),
    Equal(Box<ExprView>, Box<ExprView>),
    NotEqual(Box<ExprView>, Box<ExprView>),
    LessThan(Box<ExprView>, Box<ExprView>),
    LessThanEq(Box<ExprView>, Box<ExprView>),
    GreaterThan(Box<ExprView>, Box<ExprView>),
    GreaterThanEq(Box<ExprView>, Box<ExprView>),
    Add(Box<ExprView>, Box<ExprView>),
    Subtract(Box<ExprView>, Box<ExprView>),
    Multiply(Box<ExprView>, Box<ExprView>),
    Divide(Box<ExprView>, Box<ExprView>),
    Aggregate(AggregateFunction, Box<ExprView>),
    /// The entity (table or alias), when named, and the property.
    Property(Option<Seq<char>>, Seq<char>),
    Literal(LiteralView),
}

/// An optional text as an optional character sequence.
pub open spec fn opt_text(o: Option<String>) -> Option<Seq<char>> {
    match o {
        Some(s) => Some(s@),
        None => None,
    }
}

impl View for Literal {
    type V = LiteralView;

    open spec fn view(&self) -> LiteralView {
        match self {
            Literal::Null => LiteralView::Null,
            Literal::Bool(b) => LiteralView::Bool(*b),
            Literal::Integer(n) => LiteralView::Integer(*n),
            Literal::Float(s) => LiteralView::Float(s@),
            Literal::String(s) => LiteralView::String(s@),
        }
    }
}

/// The view of an expression, node by node.
pub open spec fn expr_view(e: Expression) -> ExprView
    decreases e,
{
    match e {
        Expression::And(l, r) => ExprView::And(Box::new(expr_view(*l)), Box::new(expr_view(*r))),
        Expression::Or(l, r) => ExprView::Or(Box::new(expr_view(*l)), Box::new(expr_view(*r))),
        Expression::Not(x) => ExprView::Not(Box::new(expr_view(*x))),
        Expression::Equal(l, r) => ExprView::Equal(Box::new(expr_view(*l)), Box::new(expr_view(*r))),
        Expression::NotEqual(l, r) => ExprView::NotEqual(Box::new(expr_view(*l)), Box::new(expr_view(*r))),
        Expression::LessThan(l, r) => ExprView::LessThan(Box::new(expr_view(*l)), Box::new(expr_view(*r))),
        Expression::LessThanEq(l, r) => ExprView::LessThanEq(
            Box::new(expr_view(*l)),
            Box::new(expr_view(*r)),
        ),
        Expression::GreaterThan(l, r) => ExprView::GreaterThan(
            Box::new(expr_view(*l)),
            Box::new(expr_view(*r)),
        ),
        Expression::GreaterThanEq(l, r) => ExprView::GreaterThanEq(
            Box::new(expr_view(*l)),
            Box::new(expr_view(*r)),
        ),
        Expression::Add(l, r) => ExprView::Add(Box::new(expr_view(*l)), Box::new(expr_view(*r))),
        Expression::Subtract(l, r) => ExprView::Subtract(Box::new(expr_view(*l)), Box::new(expr_view(*r))),
        Expression::Multiply(l, r) => ExprView::Multiply(Box::new(expr_view(*l)), Box::new(expr_view(*r))),
        Expression::Divide(l, r) => ExprView::Divide(Box::new(expr_view(*l)), Box::new(expr_view(*r))),
        Expression::Aggregate(f, x) => ExprView::Aggregate(f, Box::new(expr_view(*x))),
        Expression::Property(p) => ExprView::Property(opt_text(p.entity), p.property@),
        Expression::Literal(l) => ExprView::Literal(l@),
    }
}

impl View for Expression {
    type V = ExprView;

    open spec fn view(&self) -> ExprView {
        expr_view(*self)
    }
}

/// A traverse pattern with its texts as character sequences.
pub struct PatternView {
    pub direction: Direction,
    pub edge_type: Option<Seq<char>>,
    pub target_alias: Option<Seq<char>>,
    pub min_hops: usize,
    pub max_hops: usize,
}

impl View for TraversePattern {
    type V = PatternView;

    open spec fn view(&self) -> PatternView {
        PatternView {
            direction: self.direction,
            edge_type: opt_text(self.edge_type),
            target_alias: opt_text(self.target_alias),
            min_hops: self.min_hops,
            max_hops: self.max_hops,
        }
    }
}

/// The patterns of a TRAVERSE clause.
pub open spec fn patterns_view(v: Seq<TraversePattern>) -> Seq<PatternView> {
    Seq::new(v.len(), |i: int| v[i]@)
}

/// SELECT fields: each expression with its alias.
pub open spec fn select_fields_view(v: Seq<SelectField>) -> Seq<(ExprView, Option<Seq<char>>)> {
    Seq::new(v.len(), |i: int| (v[i].expression@, opt_text(v[i].alias)))
}

/// A list of expressions.
pub open spec fn exprs_view(v: Seq<Expression>) -> Seq<ExprView> {
    Seq::new(v.len(), |i: int| v[i]@)
}

/// ORDER BY fields: each expression with its direction.
pub open spec fn order_fields_view(v: Seq<OrderByField>) -> Seq<(ExprView, bool)> {
    Seq::new(v.len(), |i: int| (v[i].expression@, v[i].ascending))
}

/// Named literals (INSERT values, CREATE properties).
pub open spec fn named_literals_view(v: Seq<(String, Literal)>) -> Seq<(Seq<char>, LiteralView)> {
    Seq::new(v.len(), |i: int| (v[i].0@, v[i].1@))
}

/// Named expressions (UPDATE assignments).
pub open spec fn named_exprs_view(v: Seq<(String, Expression)>) -> Seq<(Seq<char>, ExprView)> {
    Seq::new(v.len(), |i: int| (v[i].0@, v[i].1@))
}

/// A SELECT query with its texts as character sequences and its lists as
/// sequences.
pub struct SelectView {
    pub collection: Seq<char>,
    pub alias: Option<Seq<char>>,
    pub traverse: Option<Seq<PatternView>>,
    pub where_clause: Option<ExprView>,
    pub select: Seq<(ExprView, Option<Seq<char>>)>,
    pub group_by: Option<Seq<ExprView>>,
    pub having: Option<ExprView>,
    pub order_by: Option<Seq<(ExprView, bool)>>,
    pub limit: Option<usize>,
    pub offset: Option<usize>,
}

impl View for SelectQuery {
    type V = SelectView;

    open spec fn view(&self) -> SelectView {
        SelectView {
            collection: self.from.collection@,
            alias: opt_text(self.from.alias),
            traverse: match self.traverse {
                Some(t) => Some(patterns_view(t.patterns@)),
                None => None,
            },
            where_clause: match self.where_clause {
                Some(w) => Some(w.condition@),
                None => None,
            },
            select: select_fields_view(self.select.fields@),
            group_by: match self.group_by {
                Some(g) => Some(exprs_view(g.fields@)),
                None => None,
            },
            having: match self.having {
                Some(h) => Some(h.condition@),
                None => None,
            },
            order_by: match self.order_by {
                Some(o) => Some(order_fields_view(o.fields@)),
                None => None,
            },
            limit: self.limit,
            offset: self.offset,
        }
    }
}

/// The condition of an optional WHERE clause.
pub open spec fn where_view(w: Option<WhereClause>) -> Option<ExprView> {
    match w {
        Some(c) => Some(c.condition@),
        None => None,
    }
}

/// A query with its texts as character sequences.
pub enum QueryView {
    Select(SelectView),
    Insert { collection: Seq<char>, properties: Seq<(Seq<char>, LiteralView)> },
    Update { collection: Seq<char>, set: Seq<(Seq<char>, ExprView)>, where_clause: Option<ExprView> },
    Delete { collection: Seq<char>, where_clause: Option<ExprView> },
    Create {
        edge_type: Seq<char>,
        source: ExprView,
        target: ExprView,
        properties: Seq<(Seq<char>, LiteralView)>,
    },
    Begin(Option<IsolationLevel>),
    Commit,
    Rollback,
    CreateIndex { index_name: Seq<char>, collection: Seq<char>, field: Seq<char>, unique: bool },
    DropIndex(Seq<char>),
}

impl View for Query {
    type V = QueryView;

    open spec fn view(&self) -> QueryView {
        match self {
            Query::Select(q) => QueryView::Select(q@),
            Query::Insert(q) => QueryView::Insert {
                collection: q.collection@,
                properties: named_literals_view(q.properties@),
            },
            Query::Update(q) => QueryView::Update {
                collection: q.collection@,
                set: named_exprs_view(q.set@),
                where_clause: where_view(q.where_clause),
            },
            Query::Delete(q) => QueryView::Delete {
                collection: q.collection@,
                where_clause: where_view(q.where_clause),
            },
            Query::Create(q) => QueryView::Create {
                edge_type: q.edge_type@,
                source: q.source@,
                target: q.target@,
                properties: named_literals_view(q.properties@),
            },
            Query::Begin(q) => QueryView::Begin(q.isolation_level),
            Query::Commit => QueryView::Commit,
            Query::Rollback => QueryView::Rollback,
            Query::CreateIndex(q) => QueryView::CreateIndex {
                index_name: q.index_name@,
                collection: q.collection@,
                field: q.field@,
                unique: q.unique,
            },
            Query::DropIndex(q) => QueryView::DropIndex(q.index_name@),
        }
    }
}

/// A copy of a literal.
pub fn copy_literal(l: &Literal) -> (r: Literal)
    ensures
        r@ == l@,
{
    match l {
        Literal::Null => Literal::Null,
        Literal::Bool(b) => Literal::Bool(*b),
        Literal::Integer(n) => Literal::Integer(*n),
        Literal::Float(s) => Literal::Float(s.clone()),
        Literal::String(s) => Literal::String(s.clone()),
    }
}

/// A copy of an optional text.
pub fn copy_opt_text(o: &Option<String>) -> (r: Option<String>)
    ensures
        opt_text(r) == opt_text(*o),
{
    match o {
        Some(s) => Some(s.clone()),
        None => None,
    }
}

/// A copy of an expression, node by node.
pub fn copy_expr(e: &Expression) -> (r: Expression)
    ensures
        r@ == e@,
    decreases e,
{
    match e {
        Expression::And(l, r) => Expression::And(Box::new(copy_expr(l)), Box::new(copy_expr(r))),
        Expression::Or(l, r) => Expression::Or(Box::new(copy_expr(l)), Box::new(copy_expr(r))),
        Expression::Not(x) => Expression::Not(Box::new(copy_expr(x))),
        Expression::Equal(l, r) => Expression::Equal(Box::new(copy_expr(l)), Box::new(copy_expr(r))),
        Expression::NotEqual(l, r) => Expression::NotEqual(Box::new(copy_expr(l)), Box::new(copy_expr(r))),
        Expression::LessThan(l, r) => Expression::LessThan(Box::new(copy_expr(l)), Box::new(copy_expr(r))),
        Expression::LessThanEq(l, r) => Expression::LessThanEq(Box::new(copy_expr(l)), Box::new(copy_expr(r))),
        Expression::GreaterThan(l, r) => Expression::GreaterThan(Box::new(copy_expr(l)), Box::new(copy_expr(r))),
        Expression::GreaterThanEq(l, r) => Expression::GreaterThanEq(
            Box::new(copy_expr(l)),
            Box::new(copy_expr(r)),
        ),
        Expression::Add(l, r) => Expression::Add(Box::new(copy_expr(l)), Box::new(copy_expr(r))),
        Expression::Subtract(l, r) => Expression::Subtract(Box::new(copy_expr(l)), Box::new(copy_expr(r))),
        Expression::Multiply(l, r) => Expression::Multiply(Box::new(copy_expr(l)), Box::new(copy_expr(r))),
        Expression::Divide(l, r) => Expression::Divide(Box::new(copy_expr(l)), Box::new(copy_expr(r))),
        Expression::Aggregate(f, x) => Expression::Aggregate(*f, Box::new(copy_expr(x))),
        Expression::Property(p) => Expression::Property(
            PropertyRef { entity: copy_opt_text(&p.entity), property: p.property.clone() },
        ),
        Expression::Literal(l) => Expression::Literal(copy_literal(l)),
    }
}

impl Clone for Expression {
    fn clone(&self) -> (r: Self)
        ensures
            r@ == self@,
    {
        copy_expr(self)
    }
}

// ---------------------------------------------------------------------
// Expression helpers
// ---------------------------------------------------------------------

impl Expression {
    /// Helper to create property reference.
    pub fn property(entity: Option<&str>, property: &str) -> (r: Self)
        ensures
            r@ == ExprView::Property(
                match entity {
                    Some(e) => Some(e@),
                    None => None,
                },
                property@,
            ),
    {
        let entity = match entity {
            Some(e) => Some(String::from_str(e)),
            None => None,
        };
        Expression::Property(PropertyRef { entity, property: String::from_str(property) })
    }

    /// Helper to create literal.
    pub fn literal(lit: Literal) -> (r: Self)
        ensures
            r@ == ExprView::Literal(lit@),
    {
        Expression::Literal(lit)
    }

    /// Helper to create string literal.
    pub fn string(s: &str) -> (r: Self)
        ensures
            r@ == ExprView::Literal(LiteralView::String(s@)),
    {
        Expression::Literal(Literal::String(String::from_str(s)))
    }

    /// Helper to create integer literal.
    pub fn integer(n: i64) -> (r: Self)
        ensures
            r@ == ExprView::Literal(LiteralView::Integer(n)),
    {
        Expression::Literal(Literal::Integer(n))
    }

    /// Helper to create boolean literal.
    pub fn bool(b: bool) -> (r: Self)
        ensures
            r@ == ExprView::Literal(LiteralView::Bool(b)),
    {
        Expression::Literal(Literal::Bool(b))
    }
}

} // verus!
