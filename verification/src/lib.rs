//! Deed database core: the graph store and its ordered indexes, query
//! lexing, parsing, planning, plan rewrites and execution steps,
//! transactions and multi-version visibility, the write-ahead log and
//! backups, sharding, partitions, consensus, two-phase commit, recovery
//! planning, replication, the connection pool and authentication, with
//! their contracts proved by Verus.

pub mod text;
pub mod clock;
pub mod types;
pub mod table;
pub mod transaction;
pub mod distributed_topology;
pub mod distributed_partition;
pub mod distributed_shard;
pub mod distributed_2pc;
pub mod distributed_recovery;
pub mod auth;
pub mod dql_lexer;
pub mod replication;
pub mod connection_pool;
pub mod backup;
pub mod admin_dashboard;
pub mod mvcc;
pub mod distributed_consensus;
pub mod distributed_query;
pub mod dql_ast;
pub mod dql_ir;
pub mod dql_parser;
pub mod schema;
pub mod wal;
pub mod distributed_p2p;
pub mod graph;
pub mod executor;
pub mod dql_optimizer;
pub mod btree;
pub mod dql_executor;
