//! Distributed query planning: classifying a query, finding the shards it
//! touches and the nodes that hold them, and combining the answers of the
//! nodes. Sending the sub-queries is the caller's part.

use vstd::prelude::*;
use vstd::string::StringExecFns;
use std::sync::Arc;
use crate::distributed_shard::{ShardId, ShardManager, default_hash_of_str};
use crate::distributed_topology::NodeId;
use crate::distributed_p2p::{MessageType, P2PMessage};
use crate::dql_lexer::{char_is_whitespace, uppercase, to_uppercase, is_whitespace};
use crate::text::{
    decimal, usize_to_string, chars_of, string_from_chars, contains_chars, starts_with_chars, find_text,
    slice_chars, concat2, contains_text, has_prefix, first_occurrence, strip_start, strip_end, strip_both,
    utf8_encoding, utf8_bytes,
};

verus! {

/// Type of query.
#[derive(Debug, Clone, Copy, PartialEq, Eq, Structural)]
pub enum QueryType {
    Select,
    Insert,
    Update,
    Delete,
    /// Graph traversal
    Traverse,
    Aggregate,
}

/// Type of aggregation.
#[derive(Debug, Clone, PartialEq, Eq)]
pub enum AggregationType {
    Count,
    Sum,
    Avg,
    Min,
    Max,
    GroupBy { fields: Vec<String> },
}

/// Sub-query to execute on a specific node.
#[derive(Debug, Clone)]
pub struct SubQuery {
    pub node_id: NodeId,
    pub shard_ids: Vec<ShardId>,
    pub query: String,
}

/// Result from a sub-query.
#[derive(Debug, Clone)]
pub struct SubQueryResult {
    pub node_id: NodeId,
    pub shard_ids: Vec<ShardId>,
    pub success: bool,
    pub rows_affected: usize,
    pub error: Option<String>,
    /// Serialized result data
    pub data: Option<Vec<u8>>,
}

/// Distributed query plan.
#[derive(Debug, Clone)]
pub struct DistributedQueryPlan {
    /// The query as submitted
    pub query: String,
    /// Sub-queries for each node
    pub sub_queries: Vec<SubQuery>,
    /// Query type (SELECT, INSERT, UPDATE, DELETE, etc.)
    pub query_type: QueryType,
    /// Whether query requires global coordination
    pub requires_coordination: bool,
    /// Aggregation needed (for GROUP BY, COUNT, etc.)
    pub aggregation: Option<AggregationType>,
}

/// The combined answer of a distributed query.
#[derive(Debug, Clone)]
pub struct QueryResult {
    pub success: bool,
    pub rows_affected: usize,
    pub message: String,
}

/// Statistics for distributed query execution.
#[derive(Debug, Clone, Copy)]
pub struct DistributedQueryStats {
    pub cached_plans: usize,
    pub local_node_id: NodeId,
}

// ---------------------------------------------------------------------
// Reading a query's text
// ---------------------------------------------------------------------

/// White space, as `str::trim` removes it.
pub open spec fn ws() -> spec_fn(char) -> bool {
    |c: char| char_is_whitespace(c)
}

/// The characters `trim_matches` removes around a key: quotes, semicolons
/// and spaces.
pub open spec fn key_junk() -> spec_fn(char) -> bool {
    |c: char| c == '\'' || c == '"' || c == ';' || c == ' '
}

/// The kind of a query, from its upper-cased, trimmed text. Reads (`SELECT`
/// or `FROM`) are aggregates when they count, sum, average or group, and
/// traversals when they traverse.
pub open spec fn query_kind(u: Seq<char>) -> QueryType {
    if has_prefix(u, "SELECT"@) || has_prefix(u, "FROM"@) {
        if contains_text(u, "COUNT"@) || contains_text(u, "SUM"@) || contains_text(u, "AVG"@)
            || contains_text(u, "GROUP BY"@) {
            QueryType::Aggregate
        } else if contains_text(u, "TRAVERSE"@) {
            QueryType::Traverse
        } else {
            QueryType::Select
        }
    } else if has_prefix(u, "INSERT"@) {
        QueryType::Insert
    } else if has_prefix(u, "UPDATE"@) {
        QueryType::Update
    } else if has_prefix(u, "DELETE"@) {
        QueryType::Delete
    } else if contains_text(u, "TRAVERSE"@) {
        QueryType::Traverse
    } else {
        QueryType::Select
    }
}

/// The aggregation of a query, from its upper-cased text, by the first of
/// `COUNT(`, `SUM(`, `AVG(`, `MIN(`, `MAX(`, `GROUP BY` that it holds
/// (0 to 5), or `None`.
pub open spec fn aggregation_kind(u: Seq<char>) -> Option<int> {
    if contains_text(u, "COUNT("@) {
        Some(0)
    } else if contains_text(u, "SUM("@) {
        Some(1)
    } else if contains_text(u, "AVG("@) {
        Some(2)
    } else if contains_text(u, "MIN("@) {
        Some(3)
    } else if contains_text(u, "MAX("@) {
        Some(4)
    } else if contains_text(u, "GROUP BY"@) {
        Some(5)
    } else {
        None
    }
}

/// The kind number of an aggregation.
pub open spec fn aggregation_number(a: AggregationType) -> int {
    match a {
        AggregationType::Count => 0,
        AggregationType::Sum => 1,
        AggregationType::Avg => 2,
        AggregationType::Min => 3,
        AggregationType::Max => 4,
        AggregationType::GroupBy { .. } => 5,
    }
}

/// The key a query looks up: after the first `WHERE` of its upper-cased
/// text, the value after the first `=`, trimmed of white space and then of
/// quotes, semicolons and spaces. Positions are counted in characters.
pub open spec fn where_key(q: Seq<char>, u: Seq<char>) -> Option<Seq<char>> {
    if exists|w: int| first_occurrence(u, "WHERE"@, w) {
        let w = choose|w: int| first_occurrence(u, "WHERE"@, w);
        if w + 5 > q.len() {
            None
        } else {
            let rest = q.subrange(w + 5, q.len() as int);
            if exists|e: int| first_occurrence(rest, "="@, e) {
                let e = choose|e: int| first_occurrence(rest, "="@, e);
                Some(strip_both(strip_both(rest.subrange(e + 1, rest.len() as int), ws()), key_junk()))
            } else {
                None
            }
        }
    } else {
        None
    }
}

/// `s` without the characters around it that satisfy `drop`.
fn strip_chars(s: &Vec<char>, ws_mode: bool) -> (r: Vec<char>)
    ensures
        ws_mode ==> r@ == strip_both(s@, ws()),
        !ws_mode ==> r@ == strip_both(s@, key_junk()),
{
    let ghost d = if ws_mode { ws() } else { key_junk() };
    let mut a: usize = 0;
    assert(s@.subrange(0, s@.len() as int) =~= s@);
    while a < s.len() && droppable(s[a], ws_mode)
        invariant
            a <= s@.len(),
            d == (if ws_mode { ws() } else { key_junk() }),
            strip_start(s@, d) == strip_start(s@.subrange(a as int, s@.len() as int), d),
        decreases s.len() - a,
    {
        proof {
            let t = s@.subrange(a as int, s@.len() as int);
            assert(t.drop_first() =~= s@.subrange(a + 1, s@.len() as int));
        }
        a = a + 1;
    }
    proof {
        let t = s@.subrange(a as int, s@.len() as int);
        if t.len() > 0 {
            assert(t[0] == s@[a as int]);
        }
    }
    let mut b: usize = s.len();
    while b > a && droppable(s[b - 1], ws_mode)
        invariant
            a <= b <= s@.len(),
            d == (if ws_mode { ws() } else { key_junk() }),
            strip_both(s@, d) == strip_end(s@.subrange(a as int, b as int), d),
        decreases b - a,
    {
        proof {
            let t = s@.subrange(a as int, b as int);
            assert(t.drop_last() =~= s@.subrange(a as int, b - 1));
        }
        b = b - 1;
    }
    proof {
        let t = s@.subrange(a as int, b as int);
        if t.len() > 0 {
            assert(t.last() == s@[b - 1]);
        }
    }
    slice_chars(s, a, b)
}

fn droppable(c: char, ws_mode: bool) -> (r: bool)
    ensures
        r == (if ws_mode { ws() } else { key_junk() })(c),
{
    if ws_mode {
        is_whitespace(c)
    } else {
        is_junk(c)
    }
}

fn is_junk(c: char) -> (r: bool)
    ensures
        r == (key_junk())(c),
{
    c == '\'' || c == '"' || c == ';' || c == ' '
}

/// The kind of a query.
pub fn determine_query_type(query: &str) -> (r: QueryType)
    ensures
        r == query_kind(uppercase(strip_both(query@, ws()))),
{
    let chars = chars_of(query);
    let trimmed = strip_chars(&chars, true);
    let t = string_from_chars(&trimmed);
    let upper = to_uppercase(t.as_str());
    let u = chars_of(upper.as_str());
    if starts_with_chars(&u, "SELECT") || starts_with_chars(&u, "FROM") {
        if contains_chars(&u, "COUNT") || contains_chars(&u, "SUM") || contains_chars(&u, "AVG")
            || contains_chars(&u, "GROUP BY") {
            QueryType::Aggregate
        } else if contains_chars(&u, "TRAVERSE") {
            QueryType::Traverse
        } else {
            QueryType::Select
        }
    } else if starts_with_chars(&u, "INSERT") {
        QueryType::Insert
    } else if starts_with_chars(&u, "UPDATE") {
        QueryType::Update
    } else if starts_with_chars(&u, "DELETE") {
        QueryType::Delete
    } else if contains_chars(&u, "TRAVERSE") {
        QueryType::Traverse
    } else {
        QueryType::Select
    }
}

/// The aggregation a query needs, if any; a `GROUP BY` carries no fields.
pub fn determine_aggregation(query: &str) -> (r: Option<AggregationType>)
    ensures
        match r {
            Some(a) => aggregation_kind(uppercase(query@)) == Some(aggregation_number(a))
                && (a matches AggregationType::GroupBy { fields } ==> fields@.len() == 0),
            None => aggregation_kind(uppercase(query@)) is None,
        },
{
    let upper = to_uppercase(query);
    let u = chars_of(upper.as_str());
    if contains_chars(&u, "COUNT(") {
        Some(AggregationType::Count)
    } else if contains_chars(&u, "SUM(") {
        Some(AggregationType::Sum)
    } else if contains_chars(&u, "AVG(") {
        Some(AggregationType::Avg)
    } else if contains_chars(&u, "MIN(") {
        Some(AggregationType::Min)
    } else if contains_chars(&u, "MAX(") {
        Some(AggregationType::Max)
    } else if contains_chars(&u, "GROUP BY") {
        Some(AggregationType::GroupBy { fields: Vec::new() })
    } else {
        None
    }
}

/// The key a query looks up in its `WHERE`, if any.
pub fn extract_key_from_where(query: &str) -> (r: Option<String>)
    ensures
        match r {
            Some(k) => where_key(query@, uppercase(query@)) == Some(k@),
            None => where_key(query@, uppercase(query@)) is None,
        },
{
    let q = chars_of(query);
    let upper = to_uppercase(query);
    let u = chars_of(upper.as_str());
    let where_word = chars_of("WHERE");
    match find_text(&u, &where_word) {
        None => None,
        Some(w) => {
            proof {
                let c = choose|x: int| first_occurrence(u@, "WHERE"@, x);
                assert(first_occurrence(u@, "WHERE"@, c));
                if c < w { assert(!crate::text::occurs_at(u@, "WHERE"@, c)); }
                if w < c { assert(!crate::text::occurs_at(u@, "WHERE"@, w as int)); }
            }
            if w > q.len() || 5 > q.len() - w {
                return None;
            }
            let rest = slice_chars(&q, w + 5, q.len());
            let eq = chars_of("=");
            proof { reveal_strlit("="); }
            match find_text(&rest, &eq) {
                None => None,
                Some(e) => {
                    proof {
                        let c = choose|x: int| first_occurrence(rest@, "="@, x);
                        assert(first_occurrence(rest@, "="@, c));
                        if c < e { assert(!crate::text::occurs_at(rest@, "="@, c)); }
                        if e < c { assert(!crate::text::occurs_at(rest@, "="@, e as int)); }
                    }
                    let value = slice_chars(&rest, e + 1, rest.len());
                    let trimmed = strip_chars(&value, true);
                    let key = strip_chars(&trimmed, false);
                    Some(string_from_chars(&key))
                },
            }
        },
    }
}

// ---------------------------------------------------------------------
// Combining the nodes' answers
// ---------------------------------------------------------------------

/// The total of the rows the sub-queries affected.
pub open spec fn total_rows(rs: Seq<SubQueryResult>) -> nat
    decreases rs.len(),
{
    if rs.len() == 0 {
        0
    } else {
        total_rows(rs.drop_last()) + (rs.last().rows_affected as nat)
    }
}

/// The failed sub-queries, in order.
pub open spec fn failures(rs: Seq<SubQueryResult>) -> Seq<SubQueryResult> {
    rs.filter(|r: SubQueryResult| !r.success)
}

/// The error texts of the failed sub-queries that have one, in order.
pub open spec fn error_texts(rs: Seq<SubQueryResult>) -> Seq<Seq<char>>
    decreases rs.len(),
{
    if rs.len() == 0 {
        Seq::empty()
    } else {
        let t = error_texts(rs.drop_last());
        let r = rs.last();
        if !r.success && r.error is Some {
            t.push(r.error->Some_0@)
        } else {
            t
        }
    }
}

/// Texts joined with `", "`.
pub open spec fn join_texts(ts: Seq<Seq<char>>) -> Seq<char>
    decreases ts.len(),
{
    if ts.len() == 0 {
        Seq::empty()
    } else if ts.len() == 1 {
        ts[0]
    } else {
        join_texts(ts.drop_last()) + ", "@ + ts.last()
    }
}

/// The combined answer of a query's sub-queries: an error naming the
/// failures if any failed; otherwise, by the aggregation, the summed row
/// counts (counts, sums, averages and plain queries), one row (minimum and
/// maximum) or one row per node (grouping).
pub open spec fn aggregate_spec(aggregation: Option<AggregationType>, rs: Seq<SubQueryResult>) -> Result<(usize, Seq<char>), Seq<char>> {
    let n = decimal(rs.len());
    if failures(rs).len() > 0 {
        Err("Query failed on "@ + decimal(failures(rs).len()) + " nodes: "@ + join_texts(error_texts(rs)))
    } else {
        match aggregation {
            Some(AggregationType::Count) => Ok((total_rows(rs) as usize, "COUNT aggregated from "@ + n + " nodes"@)),
            Some(AggregationType::Sum) => Ok((total_rows(rs) as usize, "SUM aggregated from "@ + n + " nodes"@)),
            Some(AggregationType::Avg) => Ok((total_rows(rs) as usize, "AVG aggregated from "@ + n + " nodes"@)),
            Some(AggregationType::Min) => Ok((1usize, "MIN/MAX aggregated from "@ + n + " nodes"@)),
            Some(AggregationType::Max) => Ok((1usize, "MIN/MAX aggregated from "@ + n + " nodes"@)),
            Some(AggregationType::GroupBy { .. }) => Ok((rs.len() as usize, "GROUP BY aggregated from "@ + n + " nodes"@)),
            None => Ok((total_rows(rs) as usize, "Query executed on "@ + n + " nodes, "@ + decimal(total_rows(rs))
                + " total rows affected"@)),
        }
    }
}

/// Whether the aggregation reports the summed row counts.
pub open spec fn sums_rows(aggregation: Option<AggregationType>) -> bool {
    match aggregation {
        Some(AggregationType::Count) | Some(AggregationType::Sum) | Some(AggregationType::Avg) | None => true,
        _ => false,
    }
}

/// A row count held in a `usize`, stopping at its largest value.
spec fn capped_rows(n: nat) -> usize {
    if n <= usize::MAX { n as usize } else { usize::MAX }
}

/// Combine the answers of a plan's sub-queries, as `aggregate_spec` states.
pub fn aggregate_results(plan: &DistributedQueryPlan, sub_results: Vec<SubQueryResult>) -> (r: Result<QueryResult, String>)
    requires
        failures(sub_results@).len() == 0 && sums_rows(plan.aggregation) ==> total_rows(sub_results@) <= usize::MAX,
    ensures
        match (r, aggregate_spec(plan.aggregation, sub_results@)) {
            (Ok(q), Ok((rows, msg))) => q.success && q.rows_affected == rows && q.message@ == msg,
            (Err(e), Err(m)) => e@ == m,
            _ => false,
        },
{
    let ghost rs = sub_results@;
    // Failed sub-queries and their errors.
    let mut failed: usize = 0;
    let mut errors = String::new();
    let mut n_errors: usize = 0;
    let mut total: usize = 0;
    let mut i: usize = 0;
    while i < sub_results.len()
        invariant
            rs == sub_results@,
            i <= rs.len(),
            failed == failures(rs.subrange(0, i as int)).len(),
            failed <= i,
            n_errors == error_texts(rs.subrange(0, i as int)).len(),
            n_errors <= i,
            errors@ == join_texts(error_texts(rs.subrange(0, i as int))),
            total == capped_rows(total_rows(rs.subrange(0, i as int))),
        decreases sub_results.len() - i,
    {
        let ghost sub = rs.subrange(0, i + 1);
        proof {
            assert(sub.drop_last() =~= rs.subrange(0, i as int));
            sub.drop_last().lemma_filter_push(sub.last(), |r: SubQueryResult| !r.success);
            assert(sub =~= sub.drop_last().push(sub.last()));
        }
        let r = &sub_results[i];
        if !r.success {
            failed = failed + 1;
            match &r.error {
                Some(e) => {
                    let ghost before = errors@;
                    let ghost t = error_texts(rs.subrange(0, i as int));
                    if n_errors > 0 {
                        errors.append(", ");
                    }
                    errors.append(e.as_str());
                    n_errors = n_errors + 1;
                    proof {
                        let t2 = t.push(e@);
                        assert(t2.drop_last() =~= t);
                        if t.len() == 0 {
                            assert(before =~= Seq::<char>::empty());
                            assert(errors@ =~= e@);
                        }
                        assert(error_texts(sub) == t2);
                    }
                },
                None => {},
            }
        }
        total = total.saturating_add(r.rows_affected);
        i = i + 1;
    }
    proof {
        assert(rs.subrange(0, rs.len() as int) =~= rs);
    }
    let n = sub_results.len();
    if failed > 0 {
        let mut m = String::from_str("Query failed on ");
        m.append(usize_to_string(failed).as_str());
        m.append(" nodes: ");
        m.append(errors.as_str());
        return Err(m);
    }
    let count_text = usize_to_string(n);
    match &plan.aggregation {
        Some(AggregationType::Count) => {
            let mut m = String::from_str("COUNT aggregated from ");
            m.append(count_text.as_str());
            m.append(" nodes");
            Ok(QueryResult { success: true, rows_affected: total, message: m })
        },
        Some(AggregationType::Sum) => {
            let mut m = String::from_str("SUM aggregated from ");
            m.append(count_text.as_str());
            m.append(" nodes");
            Ok(QueryResult { success: true, rows_affected: total, message: m })
        },
        Some(AggregationType::Avg) => {
            let mut m = String::from_str("AVG aggregated from ");
            m.append(count_text.as_str());
            m.append(" nodes");
            Ok(QueryResult { success: true, rows_affected: total, message: m })
        },
        Some(AggregationType::Min) | Some(AggregationType::Max) => {
            let mut m = String::from_str("MIN/MAX aggregated from ");
            m.append(count_text.as_str());
            m.append(" nodes");
            Ok(QueryResult { success: true, rows_affected: 1, message: m })
        },
        Some(AggregationType::GroupBy { .. }) => {
            let mut m = String::from_str("GROUP BY aggregated from ");
            m.append(count_text.as_str());
            m.append(" nodes");
            Ok(QueryResult { success: true, rows_affected: n, message: m })
        },
        None => {
            let mut m = String::from_str("Query executed on ");
            m.append(count_text.as_str());
            m.append(" nodes, ");
            m.append(usize_to_string(total).as_str());
            m.append(" total rows affected");
            Ok(QueryResult { success: true, rows_affected: total, message: m })
        },
    }
}


// ---------------------------------------------------------------------
// Planning
// ---------------------------------------------------------------------

/// The shards a query touches: the shard of its `WHERE` key, or else every
/// assigned shard.
pub open spec fn affected_shards(q: Seq<char>, sm: ShardManager) -> Set<ShardId> {
    match where_key(q, uppercase(q)) {
        Some(k) => set![default_hash_of_str(k) % (sm.config_spec().total_shards as u64)],
        None => sm.shards_spec().dom(),
    }
}

/// The sub-queries of a plan for query `q` over `sm`: each runs `q` on a
/// distinct node, lists only affected shards whose primary is that node,
/// and every affected shard with a primary is listed.
pub open spec fn sub_queries_ok(subs: Seq<SubQuery>, q: Seq<char>, sm: ShardManager) -> bool {
    let affected = affected_shards(q, sm);
    let shards = sm.shards_spec();
    &&& forall|i: int| 0 <= i < subs.len() ==> (#[trigger] subs[i]).query@ == q
    &&& forall|i: int, j: int| 0 <= i < j < subs.len() ==> subs[i].node_id != subs[j].node_id
    &&& forall|i: int, j: int| 0 <= i < subs.len() && 0 <= j < subs[i].shard_ids@.len() ==> {
        let sid = #[trigger] subs[i].shard_ids@[j];
        &&& affected.contains(sid)
        &&& shards.contains_key(sid)
        &&& shards[sid].primary_node == subs[i].node_id
    }
    &&& forall|sid: ShardId| affected.contains(sid) && shards.contains_key(sid) ==> exists|i: int, j: int|
        0 <= i < subs.len() && 0 <= j < subs[i].shard_ids@.len() && #[trigger] subs[i].shard_ids@[j] == sid
}

/// A plan for query `q` over `sm`.
pub open spec fn plan_ok(p: DistributedQueryPlan, q: Seq<char>, sm: ShardManager) -> bool {
    &&& p.query@ == q
    &&& p.query_type == query_kind(uppercase(strip_both(q, ws())))
    &&& p.requires_coordination == (p.query_type == QueryType::Aggregate || p.query_type == QueryType::Traverse)
    &&& match p.aggregation {
        Some(a) => aggregation_kind(uppercase(q)) == Some(aggregation_number(a)),
        None => aggregation_kind(uppercase(q)) is None,
    }
    &&& sub_queries_ok(p.sub_queries@, q, sm)
}

fn copy_ids(v: &Vec<ShardId>) -> (r: Vec<ShardId>)
    ensures
        r@ == v@,
{
    let mut r: Vec<ShardId> = Vec::new();
    let mut i: usize = 0;
    while i < v.len()
        invariant
            i <= v@.len(),
            r@ == v@.subrange(0, i as int),
        decreases v.len() - i,
    {
        r.push(v[i]);
        i = i + 1;
        assert(r@ =~= v@.subrange(0, i as int));
    }
    r
}

fn copy_sub_queries(v: &Vec<SubQuery>) -> (r: Vec<SubQuery>)
    ensures
        r@.len() == v@.len(),
        forall|i: int| 0 <= i < v@.len() ==> (#[trigger] r@[i]).node_id == v@[i].node_id
            && r@[i].shard_ids@ == v@[i].shard_ids@ && r@[i].query@ == v@[i].query@,
{
    let mut r: Vec<SubQuery> = Vec::new();
    let mut i: usize = 0;
    while i < v.len()
        invariant
            i <= v@.len(),
            r@.len() == i,
            forall|k: int| 0 <= k < i ==> (#[trigger] r@[k]).node_id == v@[k].node_id
                && r@[k].shard_ids@ == v@[k].shard_ids@ && r@[k].query@ == v@[k].query@,
        decreases v.len() - i,
    {
        let sq = SubQuery { node_id: v[i].node_id, shard_ids: copy_ids(&v[i].shard_ids), query: v[i].query.clone() };
        r.push(sq);
        i = i + 1;
    }
    r
}

fn copy_aggregation(a: &Option<AggregationType>) -> (r: Option<AggregationType>)
    ensures
        match (r, *a) {
            (Some(x), Some(y)) => aggregation_number(x) == aggregation_number(y),
            (None, None) => true,
            _ => false,
        },
{
    match a {
        None => None,
        Some(AggregationType::Count) => Some(AggregationType::Count),
        Some(AggregationType::Sum) => Some(AggregationType::Sum),
        Some(AggregationType::Avg) => Some(AggregationType::Avg),
        Some(AggregationType::Min) => Some(AggregationType::Min),
        Some(AggregationType::Max) => Some(AggregationType::Max),
        Some(AggregationType::GroupBy { fields }) => Some(AggregationType::GroupBy { fields: fields.clone() }),
    }
}

fn copy_plan(p: &DistributedQueryPlan) -> (r: DistributedQueryPlan)
    ensures
        forall|q: Seq<char>, sm: ShardManager| plan_ok(*p, q, sm) ==> plan_ok(r, q, sm),
{
    let r = DistributedQueryPlan {
        query: p.query.clone(),
        sub_queries: copy_sub_queries(&p.sub_queries),
        query_type: p.query_type,
        requires_coordination: p.requires_coordination,
        aggregation: copy_aggregation(&p.aggregation),
    };
    assert forall|q: Seq<char>, sm: ShardManager| plan_ok(*p, q, sm) implies plan_ok(r, q, sm) by {
        let affected = affected_shards(q, sm);
        let shards = sm.shards_spec();
        assert forall|sid: ShardId| affected.contains(sid) && shards.contains_key(sid) implies exists|i: int, j: int|
            0 <= i < r.sub_queries@.len() && 0 <= j < r.sub_queries@[i].shard_ids@.len()
            && #[trigger] r.sub_queries@[i].shard_ids@[j] == sid by {
            let (i, j) = choose|i: int, j: int| 0 <= i < p.sub_queries@.len() && 0 <= j < p.sub_queries@[i].shard_ids@.len()
                && #[trigger] p.sub_queries@[i].shard_ids@[j] == sid;
            assert(r.sub_queries@[i].shard_ids@[j] == sid);
        }
        assert forall|i: int, j: int| 0 <= i < r.sub_queries@.len() && 0 <= j < r.sub_queries@[i].shard_ids@.len() implies {
            let sid = #[trigger] r.sub_queries@[i].shard_ids@[j];
            &&& affected.contains(sid)
            &&& shards.contains_key(sid)
            &&& shards[sid].primary_node == r.sub_queries@[i].node_id
        } by {
            assert(r.sub_queries@[i].shard_ids@[j] == p.sub_queries@[i].shard_ids@[j]);
        }
    }
    r
}

/// Distributed query planner of a node: it routes queries to the nodes
/// holding their shards and remembers the plans it made.
pub struct DistributedQueryExecutor {
    local_id: NodeId,
    shard_manager: Arc<ShardManager>,
    query_cache: Vec<DistributedQueryPlan>,
}

impl DistributedQueryExecutor {
    /// The shard manager it routes with.
    pub closed spec fn shards(&self) -> ShardManager {
        *self.shard_manager
    }

    /// The local node.
    pub closed spec fn local_id_spec(&self) -> NodeId {
        self.local_id
    }

    /// The number of cached plans.
    pub closed spec fn cached_count(&self) -> nat {
        self.query_cache@.len()
    }

    /// Every cached plan is a plan for its own query.
    pub closed spec fn wf(&self) -> bool {
        &&& self.shard_manager.wf()
        &&& self.shard_manager.config_spec().total_shards > 0
        &&& forall|i: int| 0 <= i < self.query_cache@.len() ==> plan_ok(#[trigger] self.query_cache@[i],
            self.query_cache@[i].query@, *self.shard_manager)
    }

    /// A planner with no cached plan.
    pub fn new(local_id: NodeId, shard_manager: Arc<ShardManager>) -> (r: Self)
        requires
            shard_manager.wf(),
            shard_manager.config_spec().total_shards > 0,
        ensures
            r.wf(),
            r.local_id_spec() == local_id,
            r.shards() == *shard_manager,
            r.cached_count() == 0,
    {
        DistributedQueryExecutor { local_id, shard_manager, query_cache: Vec::new() }
    }

    /// The shards a query touches, as `affected_shards` states, each once.
    pub fn determine_affected_shards(&self, query: &str) -> (r: Result<Vec<ShardId>, String>)
        requires
            self.wf(),
        ensures
            r matches Ok(v) && v@.to_set() == affected_shards(query@, self.shards()) && v@.no_duplicates(),
    {
        match extract_key_from_where(query) {
            Some(key) => {
                let id = self.shard_manager.get_shard_for_key(key.as_str()).unwrap();
                let mut v: Vec<ShardId> = Vec::new();
                v.push(id);
                proof {
                    let target = affected_shards(query@, self.shards());
                    assert(target == set![id]);
                    assert(v@[0] == id);
                    assert forall|x: ShardId| v@.to_set().contains(x) <==> target.contains(x) by {
                        if v@.to_set().contains(x) {
                            assert(v@.contains(x));
                        }
                        if x == id {
                            assert(v@.contains(x));
                        }
                    }
                    assert(v@.to_set() =~= target);
                }
                Ok(v)
            },
            None => {
                let all = self.shard_manager.get_all_shards();
                let mut v: Vec<ShardId> = Vec::new();
                let mut i: usize = 0;
                while i < all.len()
                    invariant
                        i <= all@.len(),
                        v@.len() == i,
                        forall|k: int| 0 <= k < i ==> #[trigger] v@[k] == all@[k].shard_id,
                    decreases all.len() - i,
                {
                    v.push(all[i].shard_id);
                    i = i + 1;
                }
                proof {
                    let dom = self.shards().shards_spec().dom();
                    assert(v@.no_duplicates()) by {
                        assert forall|a: int, b: int| 0 <= a < v@.len() && 0 <= b < v@.len() && a != b implies v@[a] != v@[b] by {
                            if a < b {
                                assert(all@[a].shard_id != all@[b].shard_id);
                            } else {
                                assert(all@[b].shard_id != all@[a].shard_id);
                            }
                        }
                    }
                    assert forall|sid: ShardId| v@.to_set().contains(sid) implies dom.contains(sid) by {
                        let k = choose|k: int| 0 <= k < v@.len() && v@[k] == sid;
                        assert(self.shards().shards_spec().contains_key(all@[k].shard_id));
                    }
                    v@.unique_seq_to_set();
                    self.shards().lemma_shards_finite();
                    assert(v@.to_set().len() == v@.len());
                    vstd::set_lib::lemma_len_subset(v@.to_set(), dom);
                    assert(v@.to_set() =~= dom) by {
                        if !(v@.to_set() =~= dom) {
                            let extra = choose|sid: ShardId| dom.contains(sid) && !v@.to_set().contains(sid);
                            vstd::set_lib::lemma_len_subset(v@.to_set().insert(extra), dom);
                        }
                    }
                }
                Ok(v)
            },
        }
    }

    /// Plan a query: a cached plan for the same text, or a new one (which is
    /// then cached) that groups the affected shards by their primary node.
    pub fn create_query_plan(&mut self, query: &str) -> (r: Result<DistributedQueryPlan, String>)
        requires
            old(self).wf(),
        ensures
            final(self).wf(),
            final(self).shards() == old(self).shards(),
            final(self).local_id_spec() == old(self).local_id_spec(),
            r matches Ok(p) && plan_ok(p, query@, old(self).shards()),
    {
        // A cached plan for the same text.
        let mut c: usize = 0;
        while c < self.query_cache.len()
            invariant
                self.wf(),
                c <= self.query_cache@.len(),
            decreases self.query_cache.len() - c,
        {
            if crate::text::str_equal(self.query_cache[c].query.as_str(), query) {
                let p = copy_plan(&self.query_cache[c]);
                return Ok(p);
            }
            c = c + 1;
        }
        let query_type = determine_query_type(query);
        let affected = match self.determine_affected_shards(query) {
            Ok(v) => v,
            Err(e) => {
                return Err(e);
            },
        };
        let ghost aff = affected_shards(query@, self.shards());
        let ghost shards = self.shards().shards_spec();
        // Group the shards by their primary node.
        let mut sub_queries: Vec<SubQuery> = Vec::new();
        let mut i: usize = 0;
        while i < affected.len()
            invariant
                self.wf(),
                aff == affected_shards(query@, self.shards()),
                shards == self.shards().shards_spec(),
                affected@.to_set() == aff,
                i <= affected@.len(),
                forall|a: int| 0 <= a < sub_queries@.len() ==> (#[trigger] sub_queries@[a]).query@ == query@,
                forall|a: int, b: int| 0 <= a < b < sub_queries@.len() ==> sub_queries@[a].node_id != sub_queries@[b].node_id,
                forall|a: int, j: int| 0 <= a < sub_queries@.len() && 0 <= j < sub_queries@[a].shard_ids@.len() ==> {
                    let sid = #[trigger] sub_queries@[a].shard_ids@[j];
                    &&& aff.contains(sid)
                    &&& shards.contains_key(sid)
                    &&& shards[sid].primary_node == sub_queries@[a].node_id
                },
                forall|k: int| 0 <= k < i && shards.contains_key(#[trigger] affected@[k]) ==> exists|a: int, j: int|
                    0 <= a < sub_queries@.len() && 0 <= j < sub_queries@[a].shard_ids@.len()
                    && #[trigger] sub_queries@[a].shard_ids@[j] == affected@[k],
            decreases affected.len() - i,
        {
            let sid = affected[i];
            proof {
                assert(affected@.to_set().contains(sid));
            }
            match self.shard_manager.get_node_for_shard(sid) {
                None => {},
                Some(node) => {
                    let mut g: usize = 0;
                    while g < sub_queries.len() && sub_queries[g].node_id != node
                        invariant
                            g <= sub_queries@.len(),
                            forall|a: int| 0 <= a < g ==> sub_queries@[a].node_id != node,
                        decreases sub_queries.len() - g,
                    {
                        g = g + 1;
                    }
                    let ghost before = sub_queries@;
                    if g < sub_queries.len() {
                        let mut sq = sub_queries.remove(g);
                        let ghost old_ids = sq.shard_ids@;
                        sq.shard_ids.push(sid);
                        sub_queries.insert(g, sq);
                        proof {
                            assert forall|a: int| 0 <= a < sub_queries@.len() implies
                                (a != g ==> #[trigger] sub_queries@[a] == before[a]) by {
                                if a < g {
                                } else if a > g {
                                }
                            }
                            assert(sub_queries@[g as int].shard_ids@ == old_ids.push(sid));
                            assert forall|k: int| 0 <= k < i + 1 && shards.contains_key(#[trigger] affected@[k]) implies exists|a: int, j: int|
                                0 <= a < sub_queries@.len() && 0 <= j < sub_queries@[a].shard_ids@.len()
                                && #[trigger] sub_queries@[a].shard_ids@[j] == affected@[k] by {
                                if k == i {
                                    assert(sub_queries@[g as int].shard_ids@[old_ids.len() as int] == affected@[k]);
                                } else {
                                    let (a, j) = choose|a: int, j: int| 0 <= a < before.len() && 0 <= j < before[a].shard_ids@.len()
                                        && #[trigger] before[a].shard_ids@[j] == affected@[k];
                                    if a == g {
                                        assert(sub_queries@[a].shard_ids@[j] == affected@[k]);
                                    } else {
                                        assert(sub_queries@[a] == before[a]);
                                    }
                                }
                            }
                        }
                    } else {
                        let mut ids: Vec<ShardId> = Vec::new();
                        ids.push(sid);
                        let sq = SubQuery { node_id: node, shard_ids: ids, query: String::from_str(query) };
                        sub_queries.push(sq);
                        proof {
                            assert forall|k: int| 0 <= k < i + 1 && shards.contains_key(#[trigger] affected@[k]) implies exists|a: int, j: int|
                                0 <= a < sub_queries@.len() && 0 <= j < sub_queries@[a].shard_ids@.len()
                                && #[trigger] sub_queries@[a].shard_ids@[j] == affected@[k] by {
                                if k == i {
                                    assert(sub_queries@[before.len() as int].shard_ids@[0] == affected@[k]);
                                } else {
                                    let (a, j) = choose|a: int, j: int| 0 <= a < before.len() && 0 <= j < before[a].shard_ids@.len()
                                        && #[trigger] before[a].shard_ids@[j] == affected@[k];
                                    assert(sub_queries@[a] == before[a]);
                                }
                            }
                        }
                    }
                },
            }
            i = i + 1;
        }
        proof {
            assert forall|sid: ShardId| aff.contains(sid) && shards.contains_key(sid) implies exists|a: int, j: int|
                0 <= a < sub_queries@.len() && 0 <= j < sub_queries@[a].shard_ids@.len()
                && #[trigger] sub_queries@[a].shard_ids@[j] == sid by {
                assert(affected@.to_set().contains(sid));
                let k = choose|k: int| 0 <= k < affected@.len() && affected@[k] == sid;
                assert(shards.contains_key(affected@[k]));
            }
        }
        let aggregation = determine_aggregation(query);
        let requires_coordination = match query_type {
            QueryType::Aggregate | QueryType::Traverse => true,
            _ => false,
        };
        let plan = DistributedQueryPlan {
            query: String::from_str(query),
            sub_queries,
            query_type,
            requires_coordination,
            aggregation,
        };
        assert(plan_ok(plan, query@, self.shards()));
        let cached = copy_plan(&plan);
        let ghost before_cache = self.query_cache@;
        self.query_cache.push(cached);
        proof {
            assert forall|k: int| 0 <= k < self.query_cache@.len() implies plan_ok(#[trigger] self.query_cache@[k],
                self.query_cache@[k].query@, *self.shard_manager) by {
                if k < self.query_cache@.len() - 1 {
                    assert(self.query_cache@[k] == before_cache[k]);
                } else {
                    assert(self.query_cache@[k] == cached);
                    assert(plan_ok(cached, query@, *self.shard_manager));
                }
            }
        }
        Ok(plan)
    }

    /// Statistics: the number of cached plans and the local node.
    pub fn get_statistics(&self) -> (r: DistributedQueryStats)
        ensures
            r.cached_plans == self.cached_count(),
            r.local_node_id == self.local_id_spec(),
    {
        DistributedQueryStats { cached_plans: self.query_cache.len(), local_node_id: self.local_id }
    }
}

// ---------------------------------------------------------------------
// Answers of nodes
// ---------------------------------------------------------------------


/// A failed answer of a node for a sub-query, with its error.
pub open spec fn failed_answer(r: SubQueryResult, sq: SubQuery, error: Seq<char>) -> bool {
    &&& r.node_id == sq.node_id
    &&& r.shard_ids@ == sq.shard_ids@
    &&& !r.success
    &&& r.rows_affected == 0
    &&& r.error matches Some(e) && e@ == error
    &&& r.data is None
}

/// The result of a sub-query sent to another node, from its reply: a
/// query response is a success of one row whose data are the response's
/// bytes; an error response, no response, or a failure to send is a failed
/// answer with its error; any other reply is the error
/// `Unexpected response type`.
pub fn remote_result(sub_query: &SubQuery, reply: Result<Option<P2PMessage>, String>) -> (r: Result<
    SubQueryResult,
    String,
>)
    ensures
        match reply {
            Ok(Some(msg)) => match msg.message_type {
                MessageType::QueryResponse { result } => r matches Ok(x) && (x.node_id == sub_query.node_id
                    && x.shard_ids@ == sub_query.shard_ids@ && x.success && x.rows_affected == 1 && x.error is None
                    && (x.data matches Some(d) && d@ == utf8_encoding(result@))),
                MessageType::Error { message } => r matches Ok(x) && failed_answer(x, *sub_query, message@),
                _ => r matches Err(e) && e@ == "Unexpected response type"@,
            },
            Ok(None) => r matches Ok(x) && failed_answer(x, *sub_query, "No response from node"@),
            Err(e) => r matches Ok(x) && failed_answer(x, *sub_query, e@),
        },
{
    match reply {
        Ok(Some(response)) => match response.message_type {
            MessageType::QueryResponse { result } => Ok(
                SubQueryResult {
                    node_id: sub_query.node_id,
                    shard_ids: copy_ids(&sub_query.shard_ids),
                    success: true,
                    rows_affected: 1,
                    error: None,
                    data: Some(utf8_bytes(result)),
                },
            ),
            MessageType::Error { message } => Ok(
                SubQueryResult {
                    node_id: sub_query.node_id,
                    shard_ids: copy_ids(&sub_query.shard_ids),
                    success: false,
                    rows_affected: 0,
                    error: Some(message),
                    data: None,
                },
            ),
            _ => Err(String::from_str("Unexpected response type")),
        },
        Ok(None) => Ok(
            SubQueryResult {
                node_id: sub_query.node_id,
                shard_ids: copy_ids(&sub_query.shard_ids),
                success: false,
                rows_affected: 0,
                error: Some(String::from_str("No response from node")),
                data: None,
            },
        ),
        Err(e) => Ok(
            SubQueryResult {
                node_id: sub_query.node_id,
                shard_ids: copy_ids(&sub_query.shard_ids),
                success: false,
                rows_affected: 0,
                error: Some(e),
                data: None,
            },
        ),
    }
}

/// The result of a sub-query run on this node, from the rows it affected
/// or its error.
pub fn local_result(local_id: NodeId, sub_query: &SubQuery, outcome: Result<usize, String>) -> (r: SubQueryResult)
    ensures
        r.node_id == local_id,
        r.shard_ids@ == sub_query.shard_ids@,
        r.data is None,
        match outcome {
            Ok(n) => r.success && r.rows_affected == n && r.error is None,
            Err(e) => !r.success && r.rows_affected == 0 && (r.error matches Some(x) && x@ == e@),
        },
{
    match outcome {
        Ok(rows) => SubQueryResult {
            node_id: local_id,
            shard_ids: copy_ids(&sub_query.shard_ids),
            success: true,
            rows_affected: rows,
            error: None,
            data: None,
        },
        Err(e) => SubQueryResult {
            node_id: local_id,
            shard_ids: copy_ids(&sub_query.shard_ids),
            success: false,
            rows_affected: 0,
            error: Some(e),
            data: None,
        },
    }
}

} // verus!
