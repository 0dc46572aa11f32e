use vstd::prelude::*;

verus! {

/// How a statement runs: in which database, whether on the masters only,
/// and the statement to send to each cluster, by cluster id.
#[derive(Debug)]
pub struct Plan {
    pub db: String,
    pub force_master: bool,
    pub cluster_id_vs_sql: Vec<(String, String)>,
}

} // verus!
