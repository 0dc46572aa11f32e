//! Connection pools, one per database node.
pub mod checker;
pub mod inner;
pub mod node;
pub mod node_cfg;

use vstd::prelude::*;
use crate::backend::error::BackendError;
use crate::keyed;

verus! {

/// The pools of every node, and the nodes of every cluster, the master
/// first. `N` is how a node's pool is reached.
#[derive(Debug)]
pub struct P2MConnPool<N> {
    node_conns: Vec<(String, N)>,
    cluster_id_node_ids: Vec<(String, Vec<String>)>,
}

impl<N> P2MConnPool<N> {
    /// The nodes by id.
    pub closed spec fn nodes(&self) -> Seq<(String, N)> {
        self.node_conns@
    }

    /// The node ids of each cluster, by cluster id.
    pub closed spec fn clusters(&self) -> Seq<(String, Vec<String>)> {
        self.cluster_id_node_ids@
    }

    /// Every cluster has a master.
    pub open spec fn wf(&self) -> bool {
        forall|i: int| 0 <= i < self.clusters().len() ==> #[trigger] self.clusters()[i].1@.len() > 0
    }

    /// The node of id `id`, the last one of that id.
    pub open spec fn spec_node(&self, id: Seq<char>) -> Option<N> {
        match keyed::last_index(keyed::keys_of(self.nodes()), id) {
            Some(i) => Some(self.nodes()[i].1),
            None => None,
        }
    }

    /// The master node id of cluster `c_id`, the last cluster of that id.
    pub open spec fn spec_master_id(&self, c_id: Seq<char>) -> Option<Seq<char>> {
        match keyed::last_index(keyed::keys_of(self.clusters()), c_id) {
            Some(i) => Some(self.clusters()[i].1@[0]@),
            None => None,
        }
    }

    /// A pool of the nodes `node_conns` and the clusters
    /// `cluster_id_node_ids`, each cluster's master first.
    pub fn new(node_conns: Vec<(String, N)>, cluster_id_node_ids: Vec<(String, Vec<String>)>) -> (p: P2MConnPool<N>)
        requires
            forall|i: int| 0 <= i < cluster_id_node_ids@.len() ==> #[trigger] cluster_id_node_ids@[i].1@.len() > 0,
        ensures
            p.nodes() == node_conns@,
            p.clusters() == cluster_id_node_ids@,
            p.wf(),
    {
        P2MConnPool { node_conns, cluster_id_node_ids }
    }

    /// The node of id `node_id`, or `PoolErrNodeNotFound`.
    pub fn node(&self, node_id: &str) -> (r: Result<&N, BackendError>)
        ensures
            match self.spec_node(node_id@) {
                Some(n) => r matches Ok(x) && *x == n,
                None => r matches Err(BackendError::PoolErrNodeNotFound(s)) && s@ == node_id@,
            },
    {
        match keyed::find_last(&self.node_conns, node_id) {
            Some(i) => Ok(&self.node_conns[i].1),
            None => Err(BackendError::PoolErrNodeNotFound(String::from_str(node_id))),
        }
    }

    /// The node the connections of cluster `c_id` come from: its master,
    /// whether the master is asked for or not; `PoolErrClusterIdNotFound`
    /// for an unknown cluster, `PoolErrNodeNotFound` for an unknown master.
    pub fn pick_node(&self, c_id: &str, force_master: bool) -> (r: Result<&N, BackendError>)
        requires
            self.wf(),
        ensures
            match self.spec_master_id(c_id@) {
                None => r matches Err(BackendError::PoolErrClusterIdNotFound(s)) && s@ == c_id@,
                Some(m) => match self.spec_node(m) {
                    Some(n) => r matches Ok(x) && *x == n,
                    None => r matches Err(BackendError::PoolErrNodeNotFound(s)) && s@ == m,
                },
            },
    {
        let nodes = match keyed::find_last(&self.cluster_id_node_ids, c_id) {
            Some(i) => &self.cluster_id_node_ids[i].1,
            None => {
                return Err(BackendError::PoolErrClusterIdNotFound(String::from_str(c_id)));
            },
        };
        // No replica is picked yet: the master serves every request.
        let _ = force_master;
        self.node(nodes[0].as_str())
    }

    /// Every node, with its id.
    pub fn node_list(&self) -> (r: &Vec<(String, N)>)
        ensures
            r@ == self.nodes(),
    {
        &self.node_conns
    }
}

} // verus!
