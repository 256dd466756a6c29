//! Rewrites of query plans that an optimizer tries: index lookups for
//! equality scans, filters merged into their scans, projections moved
//! earlier, joins swapped, and the signature of a plan's shape. Costs and
//! the pheromone bookkeeping over them are the caller's part.

use vstd::prelude::*;
use vstd::string::StringExecFns;
use crate::dql_ir::{
    AggregateOp, FilterExpr, FilterView, Operation, OperationView, ProjectField, QueryPlan, SortField, Value,
    ValueView, named_view, seq_view, project_view, sort_view, aggregates_view, opt_filter_view,
};
use crate::dql_ast::{opt_text, copy_opt_text};
use crate::text::{concat2, str_equal};

verus! {

// ---------------------------------------------------------------------
// Copies
// ---------------------------------------------------------------------

/// A copy of a value.
pub fn copy_value(v: &Value) -> (r: Value)
    ensures
        r@ == v@,
{
    match v {
        Value::Null => Value::Null,
        Value::Bool(b) => Value::Bool(*b),
        Value::Integer(n) => Value::Integer(*n),
        Value::Float(s) => Value::Float(s.clone()),
        Value::String(s) => Value::String(s.clone()),
        Value::EntityId(n) => Value::EntityId(*n),
        Value::EdgeId(n) => Value::EdgeId(*n),
    }
}

/// A copy of a filter expression.
pub fn copy_filter(f: &FilterExpr) -> (r: FilterExpr)
    ensures
        r@ == f@,
    decreases f,
{
    match f {
        FilterExpr::And(l, r) => FilterExpr::And(Box::new(copy_filter(l)), Box::new(copy_filter(r))),
        FilterExpr::Or(l, r) => FilterExpr::Or(Box::new(copy_filter(l)), Box::new(copy_filter(r))),
        FilterExpr::Not(x) => FilterExpr::Not(Box::new(copy_filter(x))),
        FilterExpr::Equal(l, r) => FilterExpr::Equal(Box::new(copy_filter(l)), Box::new(copy_filter(r))),
        FilterExpr::NotEqual(l, r) => FilterExpr::NotEqual(Box::new(copy_filter(l)), Box::new(copy_filter(r))),
        FilterExpr::LessThan(l, r) => FilterExpr::LessThan(Box::new(copy_filter(l)), Box::new(copy_filter(r))),
        FilterExpr::LessThanEq(l, r) => FilterExpr::LessThanEq(Box::new(copy_filter(l)), Box::new(copy_filter(r))),
        FilterExpr::GreaterThan(l, r) => FilterExpr::GreaterThan(Box::new(copy_filter(l)), Box::new(copy_filter(r))),
        FilterExpr::GreaterThanEq(l, r) => FilterExpr::GreaterThanEq(
            Box::new(copy_filter(l)),
            Box::new(copy_filter(r)),
        ),
        FilterExpr::Add(l, r) => FilterExpr::Add(Box::new(copy_filter(l)), Box::new(copy_filter(r))),
        FilterExpr::Subtract(l, r) => FilterExpr::Subtract(Box::new(copy_filter(l)), Box::new(copy_filter(r))),
        FilterExpr::Multiply(l, r) => FilterExpr::Multiply(Box::new(copy_filter(l)), Box::new(copy_filter(r))),
        FilterExpr::Divide(l, r) => FilterExpr::Divide(Box::new(copy_filter(l)), Box::new(copy_filter(r))),
        FilterExpr::Aggregate { function, argument } => FilterExpr::Aggregate {
            function: *function,
            argument: Box::new(copy_filter(argument)),
        },
        FilterExpr::Property { binding, property } => FilterExpr::Property {
            binding: binding.clone(),
            property: property.clone(),
        },
        FilterExpr::Constant(v) => FilterExpr::Constant(copy_value(v)),
    }
}

fn copy_opt_filter(f: &Option<FilterExpr>) -> (r: Option<FilterExpr>)
    ensures
        opt_filter_view(r) == opt_filter_view(*f),
{
    match f {
        Some(x) => Some(copy_filter(x)),
        None => None,
    }
}

fn copy_values(v: &Vec<Value>) -> (r: Vec<Value>)
    ensures
        seq_view(r@) == seq_view(v@),
{
    let mut r: Vec<Value> = Vec::new();
    let mut i: usize = 0;
    while i < v.len()
        invariant
            i <= v.len(),
            r@.len() == i,
            forall|j: int| 0 <= j < i ==> (#[trigger] r@[j])@ == v@[j]@,
        decreases v.len() - i,
    {
        r.push(copy_value(&v[i]));
        i = i + 1;
    }
    assert(seq_view(r@) =~= seq_view(v@));
    r
}

fn copy_filters(v: &Vec<FilterExpr>) -> (r: Vec<FilterExpr>)
    ensures
        seq_view(r@) == seq_view(v@),
{
    let mut r: Vec<FilterExpr> = Vec::new();
    let mut i: usize = 0;
    while i < v.len()
        invariant
            i <= v.len(),
            r@.len() == i,
            forall|j: int| 0 <= j < i ==> (#[trigger] r@[j])@ == v@[j]@,
        decreases v.len() - i,
    {
        r.push(copy_filter(&v[i]));
        i = i + 1;
    }
    assert(seq_view(r@) =~= seq_view(v@));
    r
}

fn copy_named_values(v: &Vec<(String, Value)>) -> (r: Vec<(String, Value)>)
    ensures
        named_view(r@) == named_view(v@),
{
    let mut r: Vec<(String, Value)> = Vec::new();
    let mut i: usize = 0;
    while i < v.len()
        invariant
            i <= v.len(),
            r@.len() == i,
            forall|j: int| 0 <= j < i ==> (#[trigger] r@[j]).0@ == v@[j].0@ && r@[j].1@ == v@[j].1@,
        decreases v.len() - i,
    {
        r.push((v[i].0.clone(), copy_value(&v[i].1)));
        i = i + 1;
    }
    assert(named_view(r@) =~= named_view(v@));
    r
}

fn copy_named_filters(v: &Vec<(String, FilterExpr)>) -> (r: Vec<(String, FilterExpr)>)
    ensures
        named_view(r@) == named_view(v@),
{
    let mut r: Vec<(String, FilterExpr)> = Vec::new();
    let mut i: usize = 0;
    while i < v.len()
        invariant
            i <= v.len(),
            r@.len() == i,
            forall|j: int| 0 <= j < i ==> (#[trigger] r@[j]).0@ == v@[j].0@ && r@[j].1@ == v@[j].1@,
        decreases v.len() - i,
    {
        r.push((v[i].0.clone(), copy_filter(&v[i].1)));
        i = i + 1;
    }
    assert(named_view(r@) =~= named_view(v@));
    r
}

fn copy_project_fields(v: &Vec<ProjectField>) -> (r: Vec<ProjectField>)
    ensures
        project_view(r@) == project_view(v@),
{
    let mut r: Vec<ProjectField> = Vec::new();
    let mut i: usize = 0;
    while i < v.len()
        invariant
            i <= v.len(),
            r@.len() == i,
            forall|j: int|
                0 <= j < i ==> (#[trigger] r@[j]).expression@ == v@[j].expression@ && r@[j].alias@ == v@[j].alias@,
        decreases v.len() - i,
    {
        r.push(ProjectField { expression: copy_filter(&v[i].expression), alias: v[i].alias.clone() });
        i = i + 1;
    }
    assert(project_view(r@) =~= project_view(v@));
    r
}

fn copy_sort_fields(v: &Vec<SortField>) -> (r: Vec<SortField>)
    ensures
        sort_view(r@) == sort_view(v@),
{
    let mut r: Vec<SortField> = Vec::new();
    let mut i: usize = 0;
    while i < v.len()
        invariant
            i <= v.len(),
            r@.len() == i,
            forall|j: int|
                0 <= j < i ==> (#[trigger] r@[j]).expression@ == v@[j].expression@ && r@[j].ascending
                    == v@[j].ascending,
        decreases v.len() - i,
    {
        r.push(SortField { expression: copy_filter(&v[i].expression), ascending: v[i].ascending });
        i = i + 1;
    }
    assert(sort_view(r@) =~= sort_view(v@));
    r
}

fn copy_aggregates(v: &Vec<AggregateOp>) -> (r: Vec<AggregateOp>)
    ensures
        aggregates_view(r@) == aggregates_view(v@),
{
    let mut r: Vec<AggregateOp> = Vec::new();
    let mut i: usize = 0;
    while i < v.len()
        invariant
            i <= v.len(),
            r@.len() == i,
            forall|j: int|
                0 <= j < i ==> (#[trigger] r@[j]).function == v@[j].function && r@[j].argument@ == v@[j].argument@
                    && r@[j].alias@ == v@[j].alias@,
        decreases v.len() - i,
    {
        r.push(
            AggregateOp {
                function: v[i].function,
                argument: copy_filter(&v[i].argument),
                alias: v[i].alias.clone(),
            },
        );
        i = i + 1;
    }
    assert(aggregates_view(r@) =~= aggregates_view(v@));
    r
}

/// A copy of an operation.
pub fn copy_operation(op: &Operation) -> (r: Operation)
    ensures
        r@ == op@,
{
    match op {
        Operation::Scan { collection, alias, filter } => Operation::Scan {
            collection: collection.clone(),
            alias: alias.clone(),
            filter: copy_opt_filter(filter),
        },
        Operation::IndexLookup { collection, alias, index_name, key_values } => Operation::IndexLookup {
            collection: collection.clone(),
            alias: alias.clone(),
            index_name: index_name.clone(),
            key_values: copy_values(key_values),
        },
        Operation::Traverse { source_binding, direction, edge_type, target_alias, min_hops, max_hops, filter } => {
            Operation::Traverse {
                source_binding: source_binding.clone(),
                direction: *direction,
                edge_type: copy_opt_text(edge_type),
                target_alias: target_alias.clone(),
                min_hops: *min_hops,
                max_hops: *max_hops,
                filter: copy_opt_filter(filter),
            }
        },
        Operation::Filter { binding, condition } => Operation::Filter {
            binding: binding.clone(),
            condition: copy_filter(condition),
        },
        Operation::Project { fields } => Operation::Project { fields: copy_project_fields(fields) },
        Operation::Sort { fields } => Operation::Sort { fields: copy_sort_fields(fields) },
        Operation::Limit { count } => Operation::Limit { count: *count },
        Operation::Skip { count } => Operation::Skip { count: *count },
        Operation::Join { left, right, condition } => Operation::Join {
            left: left.clone(),
            right: right.clone(),
            condition: copy_filter(condition),
        },
        Operation::InsertEntity { collection, properties } => Operation::InsertEntity {
            collection: collection.clone(),
            properties: copy_named_values(properties),
        },
        Operation::UpdateEntities { binding, updates } => Operation::UpdateEntities {
            binding: binding.clone(),
            updates: copy_named_filters(updates),
        },
        Operation::DeleteEntities { binding } => Operation::DeleteEntities { binding: binding.clone() },
        Operation::CreateEdge { source, target, edge_type, properties } => Operation::CreateEdge {
            source: copy_filter(source),
            target: copy_filter(target),
            edge_type: edge_type.clone(),
            properties: copy_named_values(properties),
        },
        Operation::GroupBy { group_fields, aggregates } => Operation::GroupBy {
            group_fields: copy_filters(group_fields),
            aggregates: copy_aggregates(aggregates),
        },
        Operation::Having { condition } => Operation::Having { condition: copy_filter(condition) },
    }
}

/// A copy of a plan.
pub fn copy_plan(plan: &QueryPlan) -> (r: QueryPlan)
    ensures
        r.ops() == plan.ops(),
{
    let mut ops: Vec<Operation> = Vec::new();
    let mut i: usize = 0;
    while i < plan.operations.len()
        invariant
            i <= plan.operations.len(),
            ops@.len() == i,
            forall|j: int| 0 <= j < i ==> (#[trigger] ops@[j])@ == plan.operations@[j]@,
        decreases plan.operations.len() - i,
    {
        ops.push(copy_operation(&plan.operations[i]));
        i = i + 1;
    }
    let r = QueryPlan { operations: ops };
    assert(r.ops() =~= plan.ops());
    r
}

// ---------------------------------------------------------------------
// Rewrites, stated
// ---------------------------------------------------------------------

/// A scan whose filter is `property = constant` becomes a lookup in the
/// property's index (`idx_` and the property's name) for that constant;
/// any other operation stays.
pub open spec fn index_rewrite(o: OperationView) -> OperationView {
    match o {
        OperationView::Scan { collection, alias, filter: Some(FilterView::Equal(l, r)) } => match (*l, *r) {
            (FilterView::Property(_, p), FilterView::Constant(v)) => OperationView::IndexLookup {
                collection,
                alias,
                index_name: "idx_"@ + p,
                key_values: seq![v],
            },
            _ => o,
        },
        _ => o,
    }
}

/// The nearest scan before `i` whose alias is `b`.
pub open spec fn scan_before(ops: Seq<OperationView>, i: int, b: Seq<char>) -> Option<int>
    decreases i,
{
    if i <= 0 {
        None
    } else if ops[i - 1] matches OperationView::Scan { alias, .. } && alias == b {
        Some(i - 1)
    } else {
        scan_before(ops, i - 1, b)
    }
}

/// The first filter at or after `i` with a scan of its binding before it,
/// with that scan.
pub open spec fn pushdown_at(ops: Seq<OperationView>, i: int) -> Option<(int, int)>
    decreases ops.len() - i,
{
    if i < 0 || i >= ops.len() {
        None
    } else {
        match ops[i] {
            OperationView::Filter { binding, .. } => match scan_before(ops, i, binding) {
                Some(j) => Some((i, j)),
                None => pushdown_at(ops, i + 1),
            },
            _ => pushdown_at(ops, i + 1),
        }
    }
}

/// A scan with a condition added to its filter (joined with `And` to a
/// filter it has).
pub open spec fn merged(scan: OperationView, cond: FilterView) -> OperationView {
    match scan {
        OperationView::Scan { collection, alias, filter } => OperationView::Scan {
            collection,
            alias,
            filter: Some(
                match filter {
                    Some(f) => FilterView::And(Box::new(f), Box::new(cond)),
                    None => cond,
                },
            ),
        },
        _ => scan,
    }
}

/// The condition of a filter operation.
pub open spec fn condition_of(o: OperationView) -> FilterView {
    match o {
        OperationView::Filter { condition, .. } => condition,
        _ => FilterView::Constant(ValueView::Null),
    }
}

/// The first filter that has a scan of its binding before it is merged
/// into the nearest such scan and dropped; without one the plan stays.
pub open spec fn pushdown_spec(ops: Seq<OperationView>) -> Seq<OperationView> {
    match pushdown_at(ops, 0) {
        Some((i, j)) => ops.update(j, merged(ops[j], condition_of(ops[i]))).remove(i),
        None => ops,
    }
}

/// The first projection at or after `i`.
pub open spec fn project_at(ops: Seq<OperationView>, i: int) -> Option<int>
    decreases ops.len() - i,
{
    if i < 0 || i >= ops.len() {
        None
    } else if ops[i] is Project {
        Some(i)
    } else {
        project_at(ops, i + 1)
    }
}

/// The two operations at `i` and `j` exchanged.
pub open spec fn swapped(ops: Seq<OperationView>, i: int, j: int) -> Seq<OperationView> {
    ops.update(i, ops[j]).update(j, ops[i])
}

/// The first projection, where it stands third or later, changes places
/// with the operation before it.
pub open spec fn projection_spec(ops: Seq<OperationView>) -> Seq<OperationView> {
    match project_at(ops, 0) {
        Some(p) => if p > 1 {
            swapped(ops, p, p - 1)
        } else {
            ops
        },
        None => ops,
    }
}

/// The first place at or after `i` where two joins follow each other.
pub open spec fn join_pair_at(ops: Seq<OperationView>, i: int) -> Option<int>
    decreases ops.len() - i,
{
    if i < 0 || i + 1 >= ops.len() {
        None
    } else if ops[i] is Join && ops[i + 1] is Join {
        Some(i)
    } else {
        join_pair_at(ops, i + 1)
    }
}

/// The first two joins that follow each other change places.
pub open spec fn join_spec(ops: Seq<OperationView>) -> Seq<OperationView> {
    match join_pair_at(ops, 0) {
        Some(i) => swapped(ops, i, i + 1),
        None => ops,
    }
}

/// The letter(s) of an operation in a plan's signature.
pub open spec fn op_code(o: OperationView) -> Seq<char> {
    match o {
        OperationView::Scan { .. } => "S"@,
        OperationView::IndexLookup { .. } => "I"@,
        OperationView::Traverse { .. } => "T"@,
        OperationView::Filter { .. } => "F"@,
        OperationView::Project { .. } => "P"@,
        OperationView::Sort { .. } => "O"@,
        OperationView::Limit { .. } => "L"@,
        OperationView::Skip { .. } => "K"@,
        OperationView::Join { .. } => "J"@,
        OperationView::InsertEntity { .. } => "INS"@,
        OperationView::UpdateEntities { .. } => "UPD"@,
        OperationView::DeleteEntities { .. } => "DEL"@,
        OperationView::CreateEdge { .. } => "CRE"@,
        OperationView::GroupBy { .. } => "G"@,
        OperationView::Having { .. } => "H"@,
    }
}

/// The codes of the operations joined by `_`.
pub open spec fn signature_of(ops: Seq<OperationView>) -> Seq<char>
    decreases ops.len(),
{
    if ops.len() == 0 {
        Seq::empty()
    } else if ops.len() == 1 {
        op_code(ops[0])
    } else {
        signature_of(ops.drop_last()) + "_"@ + op_code(ops.last())
    }
}

// ---------------------------------------------------------------------
// Rewrites
// ---------------------------------------------------------------------

/// An operation after the index rewrite.
fn rewrite_index(op: Operation) -> (r: Operation)
    ensures
        r@ == index_rewrite(op@),
{
    match op {
        Operation::Scan { collection, alias, filter } => match filter {
            Some(FilterExpr::Equal(l, r)) => {
                let left = *l;
                let right = *r;
                match left {
                    FilterExpr::Property { binding, property } => match right {
                        FilterExpr::Constant(v) => {
                            let ghost vv = v@;
                            let key_values = vec![v];
                            assert(seq_view(key_values@) =~= seq![vv]);
                            Operation::IndexLookup {
                                collection,
                                alias,
                                index_name: concat2("idx_", property.as_str()),
                                key_values,
                            }
                        },
                        other => {
                            assert(!(other@ is Constant));
                            Operation::Scan {
                            collection,
                            alias,
                            filter: Some(
                                FilterExpr::Equal(
                                    Box::new(FilterExpr::Property { binding, property }),
                                    Box::new(other),
                                ),
                            ),
                        }},
                    },
                    other_left => {
                        assert(!(other_left@ is Property));
                        Operation::Scan {
                        collection,
                        alias,
                        filter: Some(FilterExpr::Equal(Box::new(other_left), Box::new(right))),
                    }},
                }
            },
            other_filter => Operation::Scan { collection, alias, filter: other_filter },
        },
        other => other,
    }
}

/// Turn every scan filtered by `property = constant` into a lookup in the
/// property's index.
pub fn try_index_optimization(plan: &mut QueryPlan)
    ensures
        final(plan).ops() == old(plan).ops().map_values(|o: OperationView| index_rewrite(o)),
{
    let ghost ops0 = plan.ops();
    let mut i: usize = 0;
    while i < plan.operations.len()
        invariant
            i <= plan.operations.len(),
            plan.operations@.len() == ops0.len(),
            forall|j: int| 0 <= j < i ==> (#[trigger] plan.operations@[j])@ == index_rewrite(ops0[j]),
            forall|j: int| i <= j < ops0.len() ==> (#[trigger] plan.operations@[j])@ == ops0[j],
        decreases plan.operations.len() - i,
    {
        let op = plan.operations.remove(i);
        let new_op = rewrite_index(op);
        plan.operations.insert(i, new_op);
        i = i + 1;
    }
    assert(plan.ops() =~= ops0.map_values(|o: OperationView| index_rewrite(o)));
}

/// A scan with a condition added to its filter.
fn merge_into(scan: Operation, cond: FilterExpr) -> (r: Operation)
    ensures
        r@ == merged(scan@, cond@),
{
    match scan {
        Operation::Scan { collection, alias, filter } => {
            let new_filter = match filter {
                Some(f) => FilterExpr::And(Box::new(f), Box::new(cond)),
                None => cond,
            };
            Operation::Scan { collection, alias, filter: Some(new_filter) }
        },
        other => other,
    }
}

/// What the nearest-scan search finds.
proof fn lemma_scan_before(ops: Seq<OperationView>, i: int, b: Seq<char>)
    requires
        0 <= i <= ops.len(),
    ensures
        scan_before(ops, i, b) matches Some(j) ==> (0 <= j < i && (ops[j] matches OperationView::Scan { alias, .. }
            && alias == b)),
    decreases i,
{
    if i > 0 {
        lemma_scan_before(ops, i - 1, b);
    }
}

/// What the filter search finds.
proof fn lemma_pushdown_at(ops: Seq<OperationView>, i: int)
    requires
        0 <= i <= ops.len(),
    ensures
        pushdown_at(ops, i) matches Some((f, j)) ==> (i <= f < ops.len() && ops[f] is Filter && 0 <= j < f
            && ops[j] is Scan),
    decreases ops.len() - i,
{
    if i < ops.len() {
        match ops[i] {
            OperationView::Filter { binding, .. } => {
                lemma_scan_before(ops, i, binding);
                if scan_before(ops, i, binding) is None {
                    lemma_pushdown_at(ops, i + 1);
                }
            },
            _ => lemma_pushdown_at(ops, i + 1),
        }
    }
}

/// Merge the first filter that has a scan of its binding before it into
/// the nearest such scan, and drop it.
pub fn try_filter_pushdown(plan: &mut QueryPlan)
    ensures
        final(plan).ops() == pushdown_spec(old(plan).ops()),
{
    let ghost ops0 = plan.ops();
    proof {
        lemma_pushdown_at(ops0, 0);
    }
    let mut i: usize = 0;
    while i < plan.operations.len()
        invariant
            i <= plan.operations.len(),
            plan.ops() == ops0,
            ops0 == old(plan).ops(),
            pushdown_at(ops0, 0) == pushdown_at(ops0, i as int),
        decreases plan.operations.len() - i,
    {
        let binding = match &plan.operations[i] {
            Operation::Filter { binding, .. } => Some(binding.clone()),
            _ => None,
        };
        assert(plan.operations@[i as int]@ == ops0[i as int]);
        match binding {
            Some(b) => {
                let mut j: usize = i;
                while j > 0
                    invariant
                        j <= i < plan.operations.len(),
                        plan.ops() == ops0,
                        ops0 == old(plan).ops(),
                        (ops0[i as int] matches OperationView::Filter { binding, .. } && binding == b@),
                        pushdown_at(ops0, 0) == pushdown_at(ops0, i as int),
                        scan_before(ops0, i as int, b@) == scan_before(ops0, j as int, b@),
                    decreases j,
                {
                    let hit = match &plan.operations[j - 1] {
                        Operation::Scan { alias, .. } => str_equal(alias.as_str(), b.as_str()),
                        _ => false,
                    };
                    assert(plan.operations@[j - 1]@ == ops0[j - 1]);
                    if hit {
                        let ghost k = (j - 1) as int;
                        assert(pushdown_at(ops0, 0) == Some((i as int, k)));
                        let filter_op = plan.operations.remove(i);
                        let cond = match filter_op {
                            Operation::Filter { condition, .. } => condition,
                            _ => FilterExpr::Constant(Value::Null),
                        };
                        assert(cond@ == condition_of(ops0[i as int]));
                        let scan = plan.operations.remove(j - 1);
                        let new_scan = merge_into(scan, cond);
                        plan.operations.insert(j - 1, new_scan);
                        proof {
                            let want = ops0.update(k, merged(ops0[k], condition_of(ops0[i as int]))).remove(
                                i as int,
                            );
                            assert forall|m: int| 0 <= m < want.len() implies (#[trigger] plan.ops()[m]) == want[m] by {
                                if m < k {
                                } else if m == k {
                                } else if m < i {
                                } else {
                                }
                            }
                            assert(plan.ops() =~= want);
                        }
                        return;
                    }
                    j = j - 1;
                }
                assert(scan_before(ops0, i as int, b@) is None);
            },
            None => {},
        }
        i = i + 1;
    }
}

/// Move the first projection, where it stands third or later, one place
/// earlier.
pub fn try_projection_pushdown(plan: &mut QueryPlan)
    ensures
        final(plan).ops() == projection_spec(old(plan).ops()),
{
    let ghost ops0 = plan.ops();
    let mut i: usize = 0;
    while i < plan.operations.len()
        invariant
            i <= plan.operations.len(),
            plan.ops() == ops0,
            ops0 == old(plan).ops(),
            project_at(ops0, 0) == project_at(ops0, i as int),
        decreases plan.operations.len() - i,
    {
        assert(plan.operations@[i as int]@ == ops0[i as int]);
        let is_project = match &plan.operations[i] {
            Operation::Project { .. } => true,
            _ => false,
        };
        if is_project {
            if i > 1 {
                let x = plan.operations.remove(i);
                plan.operations.insert(i - 1, x);
                assert(plan.ops() =~= swapped(ops0, i as int, i - 1));
            }
            return;
        }
        i = i + 1;
    }
}

/// Swap the first two joins that follow each other.
pub fn try_join_reorder(plan: &mut QueryPlan)
    ensures
        final(plan).ops() == join_spec(old(plan).ops()),
{
    let ghost ops0 = plan.ops();
    let mut i: usize = 0;
    while i < plan.operations.len() && i + 1 < plan.operations.len()
        invariant
            i <= plan.operations.len(),
            plan.ops() == ops0,
            ops0 == old(plan).ops(),
            join_pair_at(ops0, 0) == join_pair_at(ops0, i as int),
        decreases plan.operations.len() - i,
    {
        assert(plan.operations@[i as int]@ == ops0[i as int]);
        assert(plan.operations@[i + 1]@ == ops0[i + 1]);
        let a = match &plan.operations[i] {
            Operation::Join { .. } => true,
            _ => false,
        };
        let b = match &plan.operations[i + 1] {
            Operation::Join { .. } => true,
            _ => false,
        };
        if a && b {
            let x = plan.operations.remove(i + 1);
            plan.operations.insert(i, x);
            assert(plan.ops() =~= swapped(ops0, i as int, i + 1));
            return;
        }
        i = i + 1;
    }
}

/// The letter(s) of an operation in a plan's signature.
fn code_of(op: &Operation) -> (r: &'static str)
    ensures
        r@ == op_code(op@),
{
    match op {
        Operation::Scan { .. } => "S",
        Operation::IndexLookup { .. } => "I",
        Operation::Traverse { .. } => "T",
        Operation::Filter { .. } => "F",
        Operation::Project { .. } => "P",
        Operation::Sort { .. } => "O",
        Operation::Limit { .. } => "L",
        Operation::Skip { .. } => "K",
        Operation::Join { .. } => "J",
        Operation::InsertEntity { .. } => "INS",
        Operation::UpdateEntities { .. } => "UPD",
        Operation::DeleteEntities { .. } => "DEL",
        Operation::CreateEdge { .. } => "CRE",
        Operation::GroupBy { .. } => "G",
        Operation::Having { .. } => "H",
    }
}

/// The signature of a plan's shape: the codes of its operations joined
/// by `_`.
pub fn plan_signature(plan: &QueryPlan) -> (r: String)
    ensures
        r@ == signature_of(plan.ops()),
{
    let ghost ops = plan.ops();
    let mut out = String::new();
    let mut i: usize = 0;
    while i < plan.operations.len()
        invariant
            i <= plan.operations.len(),
            ops == plan.ops(),
            out@ == signature_of(ops.take(i as int)),
        decreases plan.operations.len() - i,
    {
        proof {
            assert(ops.take(i + 1).drop_last() =~= ops.take(i as int));
            assert(ops.take(i + 1).last() == ops[i as int]);
            assert(plan.operations@[i as int]@ == ops[i as int]);
        }
        if i > 0 {
            out.append("_");
        } else {
            assert(out@ =~= Seq::<char>::empty());
        }
        out.append(code_of(&plan.operations[i]));
        i = i + 1;
    }
    assert(ops.take(ops.len() as int) =~= ops);
    out
}

/// A variant of a plan made by one of the four rewrites, chosen at random.
pub fn explore_variant(plan: &QueryPlan) -> (r: QueryPlan)
    ensures
        r.ops() == plan.ops().map_values(|o: OperationView| index_rewrite(o)) || r.ops() == pushdown_spec(plan.ops())
            || r.ops() == projection_spec(plan.ops()) || r.ops() == join_spec(plan.ops()),
{
    let mut variant = copy_plan(plan);
    match crate::distributed_topology::random_index(4) {
        0 => try_index_optimization(&mut variant),
        1 => try_filter_pushdown(&mut variant),
        2 => try_projection_pushdown(&mut variant),
        _ => try_join_reorder(&mut variant),
    }
    variant
}

/// No rewrite adds an operation: the index, projection and join rewrites
/// keep the plan's length, and the filter pushdown drops at most one
/// operation, a filter.
pub proof fn law_rewrites_keep_operations(ops: Seq<OperationView>)
    ensures
        ops.map_values(|o: OperationView| index_rewrite(o)).len() == ops.len(),
        projection_spec(ops).len() == ops.len(),
        join_spec(ops).len() == ops.len(),
        pushdown_spec(ops).len() == ops.len() || (pushdown_spec(ops).len() == ops.len() - 1 && (pushdown_at(ops, 0) matches Some((i, j))
            && ops[i] is Filter)),
{
    lemma_pushdown_at(ops, 0);
    lemma_project_at(ops, 0);
    lemma_join_pair_at(ops, 0);
}

/// The first projection found is in the plan.
proof fn lemma_project_at(ops: Seq<OperationView>, i: int)
    requires
        0 <= i <= ops.len(),
    ensures
        project_at(ops, i) matches Some(p) ==> i <= p < ops.len(),
    decreases ops.len() - i,
{
    if i < ops.len() && !(ops[i] is Project) {
        lemma_project_at(ops, i + 1);
    }
}

/// The first pair of joins found is in the plan.
proof fn lemma_join_pair_at(ops: Seq<OperationView>, i: int)
    requires
        0 <= i <= ops.len(),
    ensures
        join_pair_at(ops, i) matches Some(p) ==> i <= p && p + 1 < ops.len(),
    decreases ops.len() - i,
{
    if i + 1 < ops.len() && !(ops[i] is Join && ops[i + 1] is Join) {
        lemma_join_pair_at(ops, i + 1);
    }
}

} // verus!
