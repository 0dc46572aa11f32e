use vstd::prelude::*;

verus! {

/// The sharding schema of one proxy user.
#[derive(Debug)]
pub struct DBShardSchemaConfig {
    pub owner: String,
    pub db: Vec<DBSectionConfig>,
}

/// One database of a sharding schema and the clusters it spreads over.
#[derive(Debug)]
pub struct DBSectionConfig {
    pub db: String,
    pub cluster_ids: Vec<String>,
    pub table: Vec<TableSectionConfig>,
}

/// One sharded table: its shard key, the way it is sharded
/// (`hash`, `integer` or `integer_range`), how many tables each cluster
/// splits it into, and for `integer_range` the bounds `[start, end)` of each
/// cluster, as consecutive decimal strings.
#[derive(Debug)]
pub struct TableSectionConfig {
    pub table: String,
    pub shard_key: String,
    pub shard_type: String,
    pub each_cluster_table_split_count: Vec<u16>,
    pub integer_range: Option<Vec<String>>,
}

} // verus!
