use deed::distributed_query::{
    aggregate_results, determine_aggregation, determine_query_type, extract_key_from_where, AggregationType,
    DistributedQueryExecutor, DistributedQueryPlan, QueryType, SubQueryResult,
};
use deed::distributed_shard::{ShardConfig, ShardManager};
use std::sync::Arc;

#[test]
fn test_determine_query_type() {
    assert_eq!(determine_query_type("SELECT * FROM users"), QueryType::Select);
    assert_eq!(determine_query_type("INSERT INTO users VALUES (...)"), QueryType::Insert);
    assert_eq!(determine_query_type("UPDATE users SET ..."), QueryType::Update);
    assert_eq!(determine_query_type("DELETE FROM users WHERE ..."), QueryType::Delete);
    assert_eq!(determine_query_type("SELECT COUNT(*) FROM users"), QueryType::Aggregate);
    assert_eq!(determine_query_type("FROM users TRAVERSE ..."), QueryType::Traverse);
}

#[test]
fn test_determine_aggregation() {
    assert_eq!(determine_aggregation("SELECT COUNT(*) FROM users"), Some(AggregationType::Count));

    assert_eq!(determine_aggregation("SELECT SUM(age) FROM users"), Some(AggregationType::Sum));

    assert_eq!(determine_aggregation("SELECT * FROM users"), None);
}

#[test]
fn test_extract_key_from_where() {
    assert_eq!(extract_key_from_where("SELECT * FROM users WHERE id = 123"), Some("123".to_string()));

    assert_eq!(extract_key_from_where("SELECT * FROM users WHERE name = 'Alice'"), Some("Alice".to_string()));

    assert_eq!(extract_key_from_where("SELECT * FROM users"), None);
}

#[test]
fn query_classification_edge_cases() {
    assert_eq!(determine_query_type("   select avg(x) from t  "), QueryType::Aggregate);
    assert_eq!(determine_query_type("MATCH TRAVERSE"), QueryType::Traverse);
    assert_eq!(determine_query_type("EXPLAIN"), QueryType::Select);
    assert_eq!(
        determine_aggregation("FROM t SELECT x GROUP BY x"),
        Some(AggregationType::GroupBy { fields: vec![] })
    );
    assert_eq!(determine_aggregation("select max(x) from t"), Some(AggregationType::Max));
    assert_eq!(extract_key_from_where("FROM t where k = \"v\";"), Some("v".to_string()));
    assert_eq!(extract_key_from_where("FROM t WHERE k > 3"), None);
}

fn result(success: bool, rows: usize, error: Option<&str>) -> SubQueryResult {
    SubQueryResult { node_id: 1, shard_ids: vec![], success, rows_affected: rows, error: error.map(|e| e.to_string()), data: None }
}

fn plan(aggregation: Option<AggregationType>) -> DistributedQueryPlan {
    DistributedQueryPlan {
        query: "q".to_string(),
        sub_queries: vec![],
        query_type: QueryType::Select,
        requires_coordination: false,
        aggregation,
    }
}

#[test]
fn aggregation_of_node_answers() {
    let ok = vec![result(true, 2, None), result(true, 3, None)];
    let r = aggregate_results(&plan(None), ok.clone()).unwrap();
    assert_eq!(r.rows_affected, 5);
    assert_eq!(r.message, "Query executed on 2 nodes, 5 total rows affected");
    let r = aggregate_results(&plan(Some(AggregationType::Count)), ok.clone()).unwrap();
    assert_eq!((r.rows_affected, r.message.as_str()), (5, "COUNT aggregated from 2 nodes"));
    let r = aggregate_results(&plan(Some(AggregationType::Max)), ok.clone()).unwrap();
    assert_eq!((r.rows_affected, r.message.as_str()), (1, "MIN/MAX aggregated from 2 nodes"));
    let r = aggregate_results(&plan(Some(AggregationType::GroupBy { fields: vec![] })), ok).unwrap();
    assert_eq!((r.rows_affected, r.message.as_str()), (2, "GROUP BY aggregated from 2 nodes"));
    let bad = vec![result(false, 0, Some("timeout")), result(true, 1, None), result(false, 0, None), result(false, 0, Some("down"))];
    let e = aggregate_results(&plan(None), bad).unwrap_err();
    assert_eq!(e, "Query failed on 3 nodes: timeout, down");
}

#[test]
fn plans_route_shards_to_their_primaries() {
    let mut shards = ShardManager::new(ShardConfig { total_shards: 8, replication_factor: 2, ..Default::default() });
    shards.add_node(1);
    shards.add_node(2);
    let shards = Arc::new(shards);
    let mut planner = DistributedQueryExecutor::new(1, shards.clone());
    let p = planner.create_query_plan("SELECT * FROM users").unwrap();
    assert_eq!(p.query_type, QueryType::Select);
    assert!(!p.requires_coordination);
    let listed: usize = p.sub_queries.iter().map(|s| s.shard_ids.len()).sum();
    assert_eq!(listed, 8);
    for sq in &p.sub_queries {
        for sid in &sq.shard_ids {
            assert_eq!(shards.get_node_for_shard(*sid), Some(sq.node_id));
        }
    }
    let keyed = planner.create_query_plan("SELECT COUNT(*) FROM users WHERE id = 7").unwrap();
    assert_eq!(keyed.sub_queries.len(), 1);
    assert_eq!(keyed.sub_queries[0].shard_ids, vec![shards.get_shard_for_key("7").unwrap()]);
    assert!(keyed.requires_coordination);
    let again = planner.create_query_plan("SELECT * FROM users").unwrap();
    assert_eq!(again.sub_queries.len(), p.sub_queries.len());
    assert_eq!(planner.get_statistics().cached_plans, 2);
    assert_eq!(planner.get_statistics().local_node_id, 1);
}

#[test]
fn huge_row_counts_are_fine_where_nothing_is_summed() {
    let big = vec![result(true, usize::MAX, None), result(true, usize::MAX, None)];
    let r = aggregate_results(&plan(Some(AggregationType::Min)), big.clone()).unwrap();
    assert_eq!(r.rows_affected, 1);
    let r = aggregate_results(&plan(Some(AggregationType::GroupBy { fields: vec![] })), big).unwrap();
    assert_eq!(r.rows_affected, 2);
    let failed = vec![result(true, usize::MAX, None), result(true, usize::MAX, None), result(false, 0, Some("down"))];
    let e = aggregate_results(&plan(Some(AggregationType::Sum)), failed).unwrap_err();
    assert_eq!(e, "Query failed on 1 nodes: down");
}
