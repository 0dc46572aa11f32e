use vstd::prelude::*;
use vstd::string::StringExecFns;
use std::ops::Range;
use std::sync::Arc;
use super::decision::{self, ShardType};
use super::error::ShardRouterError;
use crate::config::configer::{DBNodeConfig, DBNodeConfigView};
use crate::keyed;
use crate::text;

verus! {

/// One sharded table, described flat: every field may be missing.
#[derive(Debug)]
pub struct ShardSchemaConfig {
    pub owner: Option<String>,
    pub db: Option<String>,
    pub table: Option<String>,
    pub shard_key: Option<String>,
    pub shard_type: Option<String>,
    pub db_cluster_id_list: Option<Vec<String>>,
    pub each_cluster_table_split_count: Option<Vec<u16>>,
    pub integer_range: Option<Vec<String>>,
}

/// A cluster by the ids of its nodes.
#[derive(Debug)]
pub struct ClusterNodesConfig {
    pub id: String,
    pub master_node_id: Option<String>,
    pub slave_node_id_list: Option<Vec<String>>,
}

/// What this router is built from: the flat shard schemas, the clusters
/// and the nodes.
#[derive(Debug)]
pub struct ShardConfig {
    pub db_shard_schema_list: Option<Vec<ShardSchemaConfig>>,
    pub db_cluster_list: Vec<ClusterNodesConfig>,
    pub db_node_list: Vec<DBNodeConfig>,
}

/// The keys of a list of clusters.
pub open spec fn cluster_ids_of(v: Seq<ClusterNodesConfig>) -> Seq<Seq<char>> {
    v.map_values(|c: ClusterNodesConfig| c.id@)
}

/// The keys of a list of nodes.
pub open spec fn node_ids_of(v: Seq<DBNodeConfig>) -> Seq<Seq<char>> {
    v.map_values(|c: DBNodeConfig| c.id@)
}

impl ShardConfig {
    /// The first cluster of id `id`.
    pub open spec fn spec_get_db_cluster(&self, id: Seq<char>) -> Option<ClusterNodesConfig> {
        match keyed::first_index(cluster_ids_of(self.db_cluster_list@), id) {
            Some(i) => Some(self.db_cluster_list@[i]),
            None => None,
        }
    }

    /// The first node of id `id`.
    pub open spec fn spec_get_db_node(&self, id: Seq<char>) -> Option<DBNodeConfig> {
        match keyed::first_index(node_ids_of(self.db_node_list@), id) {
            Some(i) => Some(self.db_node_list@[i]),
            None => None,
        }
    }

    /// The first cluster of id `id`.
    pub fn get_db_cluster(&self, id: &str) -> (r: Option<&ClusterNodesConfig>)
        ensures
            match self.spec_get_db_cluster(id@) {
                Some(c) => r matches Some(x) && *x == c,
                None => r is None,
            },
    {
        let ghost keys = cluster_ids_of(self.db_cluster_list@);
        let mut i: usize = 0;
        while i < self.db_cluster_list.len()
            invariant
                i <= self.db_cluster_list@.len(),
                keys == cluster_ids_of(self.db_cluster_list@),
                forall|j: int| 0 <= j < i ==> keys[j] != id@,
            decreases self.db_cluster_list@.len() - i,
        {
            if text::str_eq(self.db_cluster_list[i].id.as_str(), id) {
                proof {
                    keyed::lemma_first_index_unique(keys, id@, i as int);
                }
                return Some(&self.db_cluster_list[i]);
            }
            i += 1;
        }
        proof {
            keyed::lemma_first_index(keys, id@);
        }
        None
    }

    /// The first node of id `id`.
    pub fn get_db_node(&self, id: &str) -> (r: Option<&DBNodeConfig>)
        ensures
            match self.spec_get_db_node(id@) {
                Some(c) => r matches Some(x) && *x == c,
                None => r is None,
            },
    {
        let ghost keys = node_ids_of(self.db_node_list@);
        let mut i: usize = 0;
        while i < self.db_node_list.len()
            invariant
                i <= self.db_node_list@.len(),
                keys == node_ids_of(self.db_node_list@),
                forall|j: int| 0 <= j < i ==> keys[j] != id@,
            decreases self.db_node_list@.len() - i,
        {
            if text::str_eq(self.db_node_list[i].id.as_str(), id) {
                proof {
                    keyed::lemma_first_index_unique(keys, id@, i as int);
                }
                return Some(&self.db_node_list[i]);
            }
            i += 1;
        }
        proof {
            keyed::lemma_first_index(keys, id@);
        }
        None
    }
}

/// A database node a cluster routes to.
#[derive(Debug)]
pub struct DBNode {
    node_cfg: DBNodeConfig,
}

/// A cluster, its nodes, and how many tables it splits a sharded table into.
#[derive(Debug)]
pub struct DBCluster {
    id: String,
    master_node: DBNode,
    slave_node_list: Vec<DBNode>,
    cluster_table_split_count: u16,
}

/// The routing entry of one sharded table of one database of one user.
#[derive(Debug)]
pub struct RouterTableEntry {
    owner: String,
    db: String,
    table: String,
    shard_key: String,
    shard_type: ShardType,
    cluster_list: Vec<DBCluster>,
    integer_range: Option<Vec<Range<u128>>>,
}

/// The entries keyed by `{user}-{db}-{table}`; where a key occurs twice the
/// later entry counts.
#[derive(Debug)]
struct RouterTable {
    table_entry: Vec<(String, RouterTableEntry)>,
}

/// The routing table of the flat shard schemas.
#[derive(Debug)]
pub struct Router {
    table: Box<RouterTable>,
}

/// What a cluster holds.
pub struct ClusterView {
    pub id: Seq<char>,
    pub master: DBNodeConfigView,
    pub slaves: Seq<DBNodeConfigView>,
    pub split: u16,
}

/// What a routing entry holds.
pub struct EntryView {
    pub owner: Seq<char>,
    pub db: Seq<char>,
    pub table: Seq<char>,
    pub shard_key: Seq<char>,
    pub shard_type: ShardType,
    pub clusters: Seq<ClusterView>,
    pub integer_range: Option<Seq<(u128, u128)>>,
}

/// The ranges, where there are any, are one per cluster.
pub open spec fn entry_view_wf(e: EntryView) -> bool {
    e.integer_range matches Some(r) ==> r.len() == e.clusters.len()
}

pub closed spec fn nodes_view(v: Seq<DBNode>) -> Seq<DBNodeConfigView> {
    v.map_values(|n: DBNode| n.node_cfg@)
}

impl View for DBCluster {
    type V = ClusterView;

    closed spec fn view(&self) -> ClusterView {
        ClusterView {
            id: self.id@,
            master: self.master_node.node_cfg@,
            slaves: nodes_view(self.slave_node_list@),
            split: self.cluster_table_split_count,
        }
    }
}

impl DBCluster {
    /// The cluster's id.
    pub fn id(&self) -> (r: &str)
        ensures
            r@ == self@.id,
    {
        self.id.as_str()
    }

    /// Into how many tables the cluster splits a sharded table.
    pub fn cluster_table_split_count(&self) -> (r: u16)
        ensures
            r == self@.split,
    {
        self.cluster_table_split_count
    }

    /// The id of the cluster's master node.
    pub fn master_node_id(&self) -> (r: &str)
        ensures
            r@ == self@.master.id,
    {
        self.master_node.node_cfg.id.as_str()
    }

    /// How many slave nodes the cluster has.
    pub fn slave_count(&self) -> (r: usize)
        ensures
            r == self@.slaves.len(),
    {
        self.slave_node_list.len()
    }
}

impl RouterTableEntry {
    #[verifier::type_invariant]
    spec fn inv(self) -> bool {
        self.integer_range matches Some(r) ==> r@.len() == self.cluster_list@.len()
    }
}

impl View for RouterTableEntry {
    type V = EntryView;

    closed spec fn view(&self) -> EntryView {
        EntryView {
            owner: self.owner@,
            db: self.db@,
            table: self.table@,
            shard_key: self.shard_key@,
            shard_type: self.shard_type,
            clusters: clusters_view(self.cluster_list@),
            integer_range: match self.integer_range {
                Some(r) => Some(decision::ranges_view(r@)),
                None => None,
            },
        }
    }
}

impl View for Router {
    type V = Seq<(Seq<char>, EntryView)>;

    closed spec fn view(&self) -> Seq<(Seq<char>, EntryView)> {
        entries_view(self.table.table_entry@)
    }
}

/// The clusters of a list, by their view.
pub open spec fn clusters_view(v: Seq<DBCluster>) -> Seq<ClusterView> {
    v.map_values(|c: DBCluster| c@)
}

/// The entries of a keyed list of routing entries.
pub open spec fn entries_view(v: Seq<(String, RouterTableEntry)>) -> Seq<(Seq<char>, EntryView)> {
    v.map_values(|p: (String, RouterTableEntry)| (p.0@, p.1@))
}

/// The key of a table: `{user}-{db}-{table}`.
pub open spec fn spec_key(user: Seq<char>, db: Seq<char>, table: Seq<char>) -> Seq<char> {
    user + "-"@ + db + "-"@ + table
}

fn make_key(user: &str, db: &str, table: &str) -> (r: String)
    ensures
        r@ == spec_key(user@, db@, table@),
{
    let mut k = text::to_string(user);
    k.append("-");
    k.append(db);
    k.append("-");
    k.append(table);
    k
}

/// The name of the table cluster `idx` gives a row of shard value `x`.
pub open spec fn spec_brain_table_name(e: EntryView, idx: int, x: nat) -> Seq<char> {
    let tsc = e.clusters[idx].split;
    if tsc > 1 {
        decision::spec_shard_table_name(e.table, x % (tsc as nat))
    } else {
        e.table
    }
}

/// The table of the first cluster, for values outside every range.
pub open spec fn spec_brain_fallback_name(e: EntryView) -> Seq<char> {
    if e.clusters[0].split > 1 {
        decision::spec_shard_table_name(e.table, 0)
    } else {
        e.table
    }
}

/// The route of a row with shard value `s`: the index of its cluster and the
/// name of its table. A value that is no integer counts as 0; a value outside
/// every range goes to the first cluster. No route for a table without clusters.
pub open spec fn spec_brain_route(e: EntryView, s: Seq<char>) -> Option<(int, Seq<char>)> {
    let n = e.clusters.len() as int;
    let x: u128 = match text::spec_parse_u128(s) {
        Ok(v) => v,
        Err(_) => 0,
    };
    if n == 0 {
        None
    } else {
        match e.shard_type {
            ShardType::Hash => {
                let h = decision::spec_default_hash(s);
                let idx = (h as int) % n;
                Some((idx, spec_brain_table_name(e, idx, h as nat)))
            },
            ShardType::Integer => {
                let idx = (x as int) % n;
                Some((idx, spec_brain_table_name(e, idx, x as nat)))
            },
            ShardType::IntegerRange => match e.integer_range {
                Some(v) => match decision::first_range_containing(v, x) {
                    Some(p) => Some((p, spec_brain_table_name(e, p, x as nat))),
                    None => Some((0, spec_brain_fallback_name(e))),
                },
                None => Some((0, spec_brain_fallback_name(e))),
            },
        }
    }
}

/// The route of every shard of cluster `idx`.
pub open spec fn spec_cluster_paths(e: EntryView, idx: int) -> Seq<(int, Seq<char>)> {
    let tsc = e.clusters[idx].split;
    if tsc > 1 {
        Seq::new(tsc as nat, |i: int| (idx, decision::spec_shard_table_name(e.table, i as nat)))
    } else {
        seq![(idx, e.table)]
    }
}

/// The routes of every shard of the first `k` clusters.
pub open spec fn spec_brain_paths(e: EntryView, k: int) -> Seq<(int, Seq<char>)>
    decreases k,
{
    if k <= 0 {
        Seq::empty()
    } else {
        spec_brain_paths(e, k - 1) + spec_cluster_paths(e, k - 1)
    }
}

/// Whether a route result is the route `(idx, name)` of `e`.
pub open spec fn route_is(r: Option<(&DBCluster, String)>, o: Option<(int, Seq<char>)>, e: EntryView) -> bool {
    match o {
        Some((idx, name)) => r matches Some(p) && p.0@ == e.clusters[idx] && p.1@ == name,
        None => r is None,
    }
}

/// The routes of a list of `(cluster, table name)`, clusters by their view.
pub open spec fn cluster_paths_view(v: Seq<(&DBCluster, String)>) -> Seq<(ClusterView, Seq<char>)> {
    v.map_values(|p: (&DBCluster, String)| (p.0@, p.1@))
}

/// The routes `(cluster index, name)` as `(cluster, name)`.
pub open spec fn with_clusters(e: EntryView, v: Seq<(int, Seq<char>)>) -> Seq<(ClusterView, Seq<char>)> {
    v.map_values(|p: (int, Seq<char>)| (e.clusters[p.0], p.1))
}

impl RouterTableEntry {
    fn shard_name(&self, idx: usize, x: u128) -> (r: String)
        requires
            idx < self@.clusters.len(),
        ensures
            r@ == spec_brain_table_name(self@, idx as int, x as nat),
    {
        let tsc = self.cluster_list[idx].cluster_table_split_count;
        if tsc > 1 {
            let mut r = self.table.clone();
            r.append("_");
            text::push_decimal(&mut r, x % (tsc as u128));
            r
        } else {
            self.table.clone()
        }
    }

    /// Every `(cluster, table name)` of the table; none for a table
    /// without clusters.
    pub fn do_get_all_routing_path(&self) -> (r: Option<Vec<(&DBCluster, String)>>)
        ensures
            self@.clusters.len() == 0 ==> r is None,
            self@.clusters.len() > 0 ==> (r matches Some(v) && cluster_paths_view(v@) == with_clusters(
                self@,
                spec_brain_paths(self@, self@.clusters.len() as int),
            )),
    {
        if self.cluster_list.len() == 0 {
            return None;
        }
        let ghost e = self@;
        let mut v: Vec<(&DBCluster, String)> = Vec::new();
        let mut i: usize = 0;
        while i < self.cluster_list.len()
            invariant
                i <= self.cluster_list@.len(),
                e == self@,
                cluster_paths_view(v@) == with_clusters(e, spec_brain_paths(e, i as int)),
            decreases self.cluster_list@.len() - i,
        {
            let c = &self.cluster_list[i];
            let ghost before = cluster_paths_view(v@);
            proof {
                assert(e.clusters[i as int] == c@);
            }
            if c.cluster_table_split_count > 1 {
                let mut k: u16 = 0;
                while k < c.cluster_table_split_count
                    invariant
                        k <= c.cluster_table_split_count,
                        c.cluster_table_split_count > 1,
                        e == self@,
                        e.clusters[i as int] == c@,
                        cluster_paths_view(v@) == before + with_clusters(e, spec_cluster_paths(e, i as int).take(k as int)),
                    decreases c.cluster_table_split_count - k,
                {
                    let mut name = self.table.clone();
                    name.append("_");
                    text::push_decimal(&mut name, k as u128);
                    let ghost prev = v@;
                    v.push((c, name));
                    proof {
                        assert(cluster_paths_view(v@) =~= cluster_paths_view(prev).push((c@, decision::spec_shard_table_name(e.table, k as nat))));
                        assert(spec_cluster_paths(e, i as int).take(k + 1) =~= spec_cluster_paths(e, i as int).take(k as int).push((i as int, decision::spec_shard_table_name(e.table, k as nat))));
                        assert(with_clusters(e, spec_cluster_paths(e, i as int).take(k + 1)) =~= with_clusters(e, spec_cluster_paths(e, i as int).take(k as int)).push((c@, decision::spec_shard_table_name(e.table, k as nat))));
                    }
                    k += 1;
                }
                proof {
                    assert(spec_cluster_paths(e, i as int).take(k as int) =~= spec_cluster_paths(e, i as int));
                }
            } else {
                let ghost prev = v@;
                v.push((c, self.table.clone()));
                proof {
                    assert(cluster_paths_view(v@) =~= cluster_paths_view(prev).push((c@, e.table)));
                    assert(with_clusters(e, spec_cluster_paths(e, i as int)) =~= seq![(c@, e.table)]);
                }
            }
            proof {
                assert(spec_brain_paths(e, i + 1) == spec_brain_paths(e, i as int) + spec_cluster_paths(e, i as int));
                assert(with_clusters(e, spec_brain_paths(e, i + 1)) =~= with_clusters(e, spec_brain_paths(e, i as int)) + with_clusters(e, spec_cluster_paths(e, i as int)));
                assert(cluster_paths_view(v@) =~= with_clusters(e, spec_brain_paths(e, i + 1)));
            }
            i += 1;
        }
        Some(v)
    }

    /// The `(cluster, table name)` of the row with shard value `shard_key`
    /// (see `spec_brain_route`).
    pub fn do_find_routing_path(&self, shard_key: &str) -> (r: Option<(&DBCluster, String)>)
        ensures
            route_is(r, spec_brain_route(self@, shard_key@), self@),
            entry_view_wf(self@),
    {
        proof {
            use_type_invariant(self);
        }
        let n = self.cluster_list.len();
        if n == 0 {
            return None;
        }
        let x: u128 = match text::parse_u128(shard_key) {
            Ok(v) => v,
            Err(_) => 0,
        };
        match self.shard_type {
            ShardType::Hash => {
                let shard_hash = decision::default_hash(shard_key);
                let idx = (shard_hash % (n as u64)) as usize;
                let c = &self.cluster_list[idx];
                let name = if c.cluster_table_split_count > 1 {
                    let mut r = self.table.clone();
                    r.append("_");
                    text::push_decimal(&mut r, (shard_hash % (c.cluster_table_split_count as u64)) as u128);
                    r
                } else {
                    self.table.clone()
                };
                Some((c, name))
            },
            ShardType::Integer => {
                let idx = (x % (n as u128)) as usize;
                Some((&self.cluster_list[idx], self.shard_name(idx, x)))
            },
            ShardType::IntegerRange => {
                if let Some(v) = &self.integer_range {
                    let ghost ranges = decision::ranges_view(v@);
                    let mut pos: usize = 0;
                    while pos < v.len()
                        invariant
                            pos <= v@.len(),
                            v@.len() == self.cluster_list@.len(),
                            self.integer_range == Some(*v),
                            ranges == decision::ranges_view(v@),
                            self@.integer_range == Some(ranges),
                            self@.shard_type == ShardType::IntegerRange,
                            self@.clusters.len() > 0,
                            x == (match text::spec_parse_u128(shard_key@) {
                                Ok(v) => v,
                                Err(_) => 0u128,
                            }),
                            forall|j: int| #![trigger ranges[j]] 0 <= j < pos ==> !(ranges[j].0 <= x < ranges[j].1),
                        decreases v@.len() - pos,
                    {
                        let r = &v[pos];
                        proof {
                            assert(ranges[pos as int] == (r.start, r.end));
                        }
                        if r.start <= x && x < r.end {
                            proof {
                                decision::lemma_first_range_containing(ranges, x);
                                assert(decision::first_range_containing(ranges, x) == Some(pos as int));
                            }
                            return Some((&self.cluster_list[pos], self.shard_name(pos, x)));
                        }
                        pos += 1;
                    }
                    proof {
                        decision::lemma_first_range_containing(ranges, x);
                    }
                }
                let c = &self.cluster_list[0];
                let name = if c.cluster_table_split_count > 1 {
                    let mut r = self.table.clone();
                    r.append("_");
                    text::push_decimal(&mut r, 0);
                    r
                } else {
                    self.table.clone()
                };
                Some((c, name))
            },
        }
    }
}

impl Router {
    /// The entry of key `{proxy_user}-{db}-{table}`, the last one of that key.
    pub open spec fn spec_entry(&self, proxy_user: Seq<char>, db: Seq<char>, table: Seq<char>) -> Option<EntryView> {
        match keyed::last_index(decision::view_keys(self@), spec_key(proxy_user, db, table)) {
            Some(i) => Some(self@[i].1),
            None => None,
        }
    }

    /// The `(cluster, table name)` of a row of `table` of `db` of
    /// `proxy_user` with shard value `shard_key`.
    pub fn find_routing_path(&self, proxy_user: &str, db: &str, table: &str, shard_key: &str) -> (r: Option<(&DBCluster, String)>)
        ensures
            match self.spec_entry(proxy_user@, db@, table@) {
                Some(e) => route_is(r, spec_brain_route(e, shard_key@), e) && entry_view_wf(e),
                None => r is None,
            },
    {
        let key = make_key(proxy_user, db, table);
        proof {
            assert(keyed::keys_of(self.table.table_entry@) =~= decision::view_keys(self@));
        }
        match keyed::find_last(&self.table.table_entry, key.as_str()) {
            Some(i) => {
                let entry = &self.table.table_entry[i].1;
                proof {
                    assert(self@[i as int].1 == entry@);
                }
                entry.do_find_routing_path(shard_key)
            },
            None => None,
        }
    }

    /// Every `(cluster, table name)` of `table` of `db` of `proxy_user`.
    pub fn find_all_routing_path(&self, proxy_user: &str, db: &str, table: &str) -> (r: Option<Vec<(&DBCluster, String)>>)
        ensures
            match self.spec_entry(proxy_user@, db@, table@) {
                Some(e) => if e.clusters.len() == 0 {
                    r is None
                } else {
                    r matches Some(v) && cluster_paths_view(v@) == with_clusters(e, spec_brain_paths(e, e.clusters.len() as int))
                },
                None => r is None,
            },
    {
        let key = make_key(proxy_user, db, table);
        proof {
            assert(keyed::keys_of(self.table.table_entry@) =~= decision::view_keys(self@));
        }
        match keyed::find_last(&self.table.table_entry, key.as_str()) {
            Some(i) => {
                let entry = &self.table.table_entry[i].1;
                proof {
                    assert(self@[i as int].1 == entry@);
                }
                entry.do_get_all_routing_path()
            },
            None => None,
        }
    }
}

/// Why the flat schemas are refused.
pub enum BrainErr {
    Ill(Seq<char>),
    IntegerRangeIll(Seq<char>),
    NoShardSchema,
    NoCluster(Seq<char>),
    NoNode(Seq<char>),
}

/// What building a part of this router gives: the part, or the first failure.
pub enum BOutcome<T> {
    Built(T),
    Failed(BrainErr),
}

/// Whether an error is the failure `b`.
pub open spec fn error_is(e: ShardRouterError, b: BrainErr) -> bool {
    match b {
        BrainErr::Ill(m) => e matches ShardRouterError::ShardSchemaParameterILL(s) && s@ == m,
        BrainErr::IntegerRangeIll(m) => e matches ShardRouterError::ShardSchemaIntegerRangeILL(s)
            && s@ == m,
        BrainErr::NoShardSchema => e matches ShardRouterError::NoShardSchemaConfig,
        BrainErr::NoCluster(m) => e matches ShardRouterError::NoClusterConfig(s) && s@ == m,
        BrainErr::NoNode(m) => e matches ShardRouterError::NoNodeConfig(s) && s@ == m,
    }
}

/// A field that must be present and not blank.
pub open spec fn spec_required(o: Option<String>, what: Seq<char>) -> BOutcome<Seq<char>> {
    match o {
        None => BOutcome::Failed(BrainErr::Ill("There is no "@ + what + " in shard schema config!"@)),
        Some(s) => if text::spec_trim(s@).len() == 0 {
            BOutcome::Failed(
                BrainErr::Ill("There is a zero length of the "@ + what + " in shard schema config!"@),
            )
        } else {
            BOutcome::Built(s@)
        },
    }
}

/// Lower case, as `str::to_lowercase` gives it.
pub uninterp spec fn spec_to_lowercase(s: Seq<char>) -> Seq<char>;

/// `str::to_lowercase`.
#[verifier::external_body]
fn to_lowercase(s: &str) -> (r: String)
    ensures
        r@ == spec_to_lowercase(s@),
{
    s.to_lowercase()
}

/// The shard type a configured name selects, in any case.
pub open spec fn spec_brain_shard_type(o: Option<String>) -> BOutcome<ShardType> {
    match spec_required(o, "shard_type"@) {
        BOutcome::Built(s) => {
            let t = text::spec_trim(spec_to_lowercase(s));
            if t == "hash"@ {
                BOutcome::Built(ShardType::Hash)
            } else if t == "integer_range"@ {
                BOutcome::Built(ShardType::IntegerRange)
            } else if t == "integer"@ {
                BOutcome::Built(ShardType::Integer)
            } else {
                BOutcome::Failed(BrainErr::Ill("There is a wrong shard_type string in shard schema config!"@))
            }
        },
        BOutcome::Failed(e) => BOutcome::Failed(e),
    }
}

/// The configured nodes of the ids `ids`, in order.
pub open spec fn spec_slaves(cfg: ShardConfig, ids: Seq<Seq<char>>) -> BOutcome<Seq<DBNodeConfigView>>
    decreases ids.len(),
{
    if ids.len() == 0 {
        BOutcome::Built(Seq::empty())
    } else {
        match cfg.spec_get_db_node(ids[0]) {
            None => BOutcome::Failed(BrainErr::NoNode(ids[0])),
            Some(n) => match spec_slaves(cfg, ids.drop_first()) {
                BOutcome::Built(r) => BOutcome::Built(seq![n@] + r),
                BOutcome::Failed(e) => BOutcome::Failed(e),
            },
        }
    }
}

/// The cluster `id`, the `pos`-th of a schema whose split counts are `splits`.
pub open spec fn spec_cluster(cfg: ShardConfig, splits: Option<Seq<u16>>, id: Seq<char>, pos: int) -> BOutcome<ClusterView> {
    match cfg.spec_get_db_cluster(id) {
        None => BOutcome::Failed(BrainErr::NoCluster(id)),
        Some(cc) => if splits matches Some(v) && pos >= v.len() {
            BOutcome::Failed(BrainErr::Ill("There is a too short each_cluster_table_split_count in shard schema config!"@))
        } else {
            let split: u16 = match splits {
                Some(v) => v[pos],
                None => 0,
            };
            match cc.slave_node_id_list {
                None => BOutcome::Failed(BrainErr::NoNode("slave node list is empty!"@)),
                Some(sl) => match spec_slaves(cfg, text::strings_view(sl@)) {
                    BOutcome::Failed(e) => BOutcome::Failed(e),
                    BOutcome::Built(slaves) => match cc.master_node_id {
                        None => BOutcome::Failed(BrainErr::NoNode("master node id is emtpy"@)),
                        Some(m) => match cfg.spec_get_db_node(m@) {
                            None => BOutcome::Failed(BrainErr::NoNode(m@)),
                            Some(mn) => BOutcome::Built(ClusterView { id, master: mn@, slaves, split }),
                        },
                    },
                },
            }
        },
    }
}

/// The clusters of the ids from position `k` on, in order.
pub open spec fn spec_clusters(cfg: ShardConfig, splits: Option<Seq<u16>>, ids: Seq<Seq<char>>, k: int) -> BOutcome<Seq<ClusterView>>
    decreases ids.len() - k,
{
    if k < 0 || k >= ids.len() {
        BOutcome::Built(Seq::empty())
    } else {
        match spec_cluster(cfg, splits, ids[k], k) {
            BOutcome::Built(c) => match spec_clusters(cfg, splits, ids, k + 1) {
                BOutcome::Built(r) => BOutcome::Built(seq![c] + r),
                BOutcome::Failed(e) => BOutcome::Failed(e),
            },
            BOutcome::Failed(e) => BOutcome::Failed(e),
        }
    }
}

/// The ranges of consecutive decimal bounds; none where a bound is no
/// integer or a start is left without an end.
pub open spec fn spec_brain_ranges(ir: Seq<Seq<char>>) -> BOutcome<Option<Seq<(u128, u128)>>>
    decreases ir.len(),
{
    if ir.len() == 0 {
        BOutcome::Built(Some(Seq::empty()))
    } else if ir.len() == 1 {
        BOutcome::Built(None)
    } else {
        let a = text::spec_parse_u128(ir[0]);
        let b = text::spec_parse_u128(ir[1]);
        if a is Err || b is Err {
            BOutcome::Built(None)
        } else {
            match spec_brain_ranges(ir.skip(2)) {
                BOutcome::Built(Some(r)) => BOutcome::Built(Some(seq![(a->Ok_0, b->Ok_0)] + r)),
                BOutcome::Built(None) => BOutcome::Built(None),
                BOutcome::Failed(e) => BOutcome::Failed(e),
            }
        }
    }
}

/// The ranges of a schema of `n` clusters: none unless there are two bounds per cluster.
pub open spec fn spec_brain_int_range(sc: ShardSchemaConfig, n: nat) -> BOutcome<Option<Seq<(u128, u128)>>> {
    match sc.integer_range {
        None => BOutcome::Built(None),
        Some(ir) => if ir@.len() / 2 != n {
            BOutcome::Built(None)
        } else {
            spec_brain_ranges(text::strings_view(ir@))
        },
    }
}

/// The split counts of a schema.
pub open spec fn splits_view(o: Option<Vec<u16>>) -> Option<Seq<u16>> {
    match o {
        Some(v) => Some(v@),
        None => None,
    }
}

/// The routing entry of one flat schema, with its key.
pub open spec fn spec_brain_entry(cfg: ShardConfig, sc: ShardSchemaConfig) -> BOutcome<(Seq<char>, EntryView)> {
    match spec_required(sc.owner, "owner"@) {
        BOutcome::Failed(e) => BOutcome::Failed(e),
        BOutcome::Built(owner) => match spec_required(sc.db, "db"@) {
            BOutcome::Failed(e) => BOutcome::Failed(e),
            BOutcome::Built(db) => match spec_required(sc.table, "table"@) {
                BOutcome::Failed(e) => BOutcome::Failed(e),
                BOutcome::Built(table) => match spec_required(sc.shard_key, "shard_key"@) {
                    BOutcome::Failed(e) => BOutcome::Failed(e),
                    BOutcome::Built(shard_key) => match spec_brain_shard_type(sc.shard_type) {
                        BOutcome::Failed(e) => BOutcome::Failed(e),
                        BOutcome::Built(st) => match sc.db_cluster_id_list {
                            None => BOutcome::Failed(
                                BrainErr::Ill("There is no db cluster id list in shard schema config!"@),
                            ),
                            Some(idl) => {
                                let ids = text::strings_view(idl@);
                                match spec_clusters(cfg, splits_view(sc.each_cluster_table_split_count), ids, 0) {
                                    BOutcome::Failed(e) => BOutcome::Failed(e),
                                    BOutcome::Built(clusters) => {
                                        let key = spec_key(owner, db, table);
                                        match spec_brain_int_range(sc, ids.len()) {
                                            BOutcome::Failed(e) => BOutcome::Failed(e),
                                            BOutcome::Built(ir) => if st == ShardType::IntegerRange && ir is None {
                                                BOutcome::Failed(BrainErr::IntegerRangeIll(key))
                                            } else {
                                                BOutcome::Built(
                                                    (
                                                        key,
                                                        EntryView {
                                                            owner,
                                                            db,
                                                            table,
                                                            shard_key,
                                                            shard_type: st,
                                                            clusters,
                                                            integer_range: ir,
                                                        },
                                                    ),
                                                )
                                            },
                                        }
                                    },
                                }
                            },
                        },
                    },
                },
            },
        },
    }
}

/// The routing entries of the flat schemas, in order.
pub open spec fn spec_brain_entries(cfg: ShardConfig, ss: Seq<ShardSchemaConfig>) -> BOutcome<Seq<(Seq<char>, EntryView)>>
    decreases ss.len(),
{
    if ss.len() == 0 {
        BOutcome::Built(Seq::empty())
    } else {
        match spec_brain_entry(cfg, ss[0]) {
            BOutcome::Built(e) => match spec_brain_entries(cfg, ss.drop_first()) {
                BOutcome::Built(r) => BOutcome::Built(seq![e] + r),
                BOutcome::Failed(x) => BOutcome::Failed(x),
            },
            BOutcome::Failed(x) => BOutcome::Failed(x),
        }
    }
}

/// The router the configuration gives.
pub open spec fn spec_brain_build(cfg: ShardConfig) -> BOutcome<Seq<(Seq<char>, EntryView)>> {
    match cfg.db_shard_schema_list {
        None => BOutcome::Failed(BrainErr::NoShardSchema),
        Some(v) => spec_brain_entries(cfg, v@),
    }
}


/// `o` with `p` in front of what it built.
pub open spec fn bprepend<T>(p: Seq<T>, o: BOutcome<Seq<T>>) -> BOutcome<Seq<T>> {
    match o {
        BOutcome::Built(r) => BOutcome::Built(p + r),
        BOutcome::Failed(e) => BOutcome::Failed(e),
    }
}

/// `o` with the ranges `p` in front of the ranges it built.
pub open spec fn rprepend(p: Seq<(u128, u128)>, o: BOutcome<Option<Seq<(u128, u128)>>>) -> BOutcome<Option<Seq<(u128, u128)>>> {
    match o {
        BOutcome::Built(Some(r)) => BOutcome::Built(Some(p + r)),
        other => other,
    }
}

fn ill(head: &str, what: &str, tail: &str) -> (e: ShardRouterError)
    ensures
        e matches ShardRouterError::ShardSchemaParameterILL(s) && s@ == head@ + what@ + tail@,
{
    let mut s = text::to_string(head);
    s.append(what);
    s.append(tail);
    ShardRouterError::ShardSchemaParameterILL(s)
}

/// A field that must be present and not blank.
fn required_field(o: &Option<String>, what: &str) -> (r: Result<String, ShardRouterError>)
    ensures
        match spec_required(*o, what@) {
            BOutcome::Built(s) => r matches Ok(x) && x@ == s,
            BOutcome::Failed(b) => r matches Err(e) && error_is(e, b),
        },
{
    match o {
        None => Err(ill("There is no ", what, " in shard schema config!")),
        Some(s) => {
            if text::is_blank(s.as_str()) {
                Err(ill("There is a zero length of the ", what, " in shard schema config!"))
            } else {
                Ok(s.clone())
            }
        },
    }
}

/// The shard type a configured name selects.
fn brain_shard_type(o: &Option<String>) -> (r: Result<ShardType, ShardRouterError>)
    ensures
        match spec_brain_shard_type(*o) {
            BOutcome::Built(t) => r matches Ok(x) && x == t,
            BOutcome::Failed(b) => r matches Err(e) && error_is(e, b),
        },
{
    let s = match required_field(o, "shard_type") {
        Ok(s) => s,
        Err(e) => {
            return Err(e);
        },
    };
    let low = to_lowercase(s.as_str());
    let t = text::trim(low.as_str());
    if text::str_eq(t, "hash") {
        Ok(ShardType::Hash)
    } else if text::str_eq(t, "integer_range") {
        Ok(ShardType::IntegerRange)
    } else if text::str_eq(t, "integer") {
        Ok(ShardType::Integer)
    } else {
        Err(
            ShardRouterError::ShardSchemaParameterILL(
                String::from_str("There is a wrong shard_type string in shard schema config!"),
            ),
        )
    }
}

/// The configured nodes of the ids `ids`, in order.
fn build_slaves(cfg: &ShardConfig, ids: &Vec<String>) -> (r: Result<Vec<DBNode>, ShardRouterError>)
    ensures
        match spec_slaves(*cfg, text::strings_view(ids@)) {
            BOutcome::Built(v) => r matches Ok(x) && nodes_view(x@) == v,
            BOutcome::Failed(b) => r matches Err(e) && error_is(e, b),
        },
{
    let ghost sv = text::strings_view(ids@);
    let mut v: Vec<DBNode> = Vec::new();
    let mut i: usize = 0;
    proof {
        assert(sv.skip(0) =~= sv);
        assert(nodes_view(v@) =~= Seq::<DBNodeConfigView>::empty());
    }
    while i < ids.len()
        invariant
            i <= ids@.len(),
            sv == text::strings_view(ids@),
            spec_slaves(*cfg, sv) == bprepend(nodes_view(v@), spec_slaves(*cfg, sv.skip(i as int))),
        decreases ids@.len() - i,
    {
        proof {
            assert(sv.skip(i as int)[0] == ids@[i as int]@);
            assert(sv.skip(i as int).drop_first() =~= sv.skip(i + 1));
        }
        match cfg.get_db_node(ids[i].as_str()) {
            Some(n) => {
                let ghost before = nodes_view(v@);
                v.push(DBNode { node_cfg: n.copy() });
                proof {
                    assert(nodes_view(v@) =~= before + seq![n@]);
                    match spec_slaves(*cfg, sv.skip(i + 1)) {
                        BOutcome::Built(r2) => {
                            assert(before + (seq![n@] + r2) =~= nodes_view(v@) + r2);
                        },
                        _ => {},
                    }
                }
            },
            None => {
                return Err(ShardRouterError::NoNodeConfig(ids[i].clone()));
            },
        }
        i += 1;
    }
    proof {
        assert(sv.skip(i as int) =~= Seq::<Seq<char>>::empty());
        assert(nodes_view(v@) + Seq::<DBNodeConfigView>::empty() =~= nodes_view(v@));
    }
    Ok(v)
}

/// The cluster `id`, the `pos`-th of a schema whose split counts are `splits`.
fn build_cluster(cfg: &ShardConfig, splits: &Option<Vec<u16>>, id: &String, pos: usize) -> (r: Result<DBCluster, ShardRouterError>)
    ensures
        match spec_cluster(*cfg, splits_view(*splits), id@, pos as int) {
            BOutcome::Built(c) => r matches Ok(x) && x@ == c,
            BOutcome::Failed(b) => r matches Err(e) && error_is(e, b),
        },
{
    let ccfg = match cfg.get_db_cluster(id.as_str()) {
        Some(c) => c,
        None => {
            return Err(ShardRouterError::NoClusterConfig(id.clone()));
        },
    };
    let split: u16 = match splits {
        Some(v) => {
            if pos >= v.len() {
                return Err(
                    ShardRouterError::ShardSchemaParameterILL(
                        String::from_str("There is a too short each_cluster_table_split_count in shard schema config!"),
                    ),
                );
            }
            v[pos]
        },
        None => 0,
    };
    let slaves = match &ccfg.slave_node_id_list {
        None => {
            return Err(ShardRouterError::NoNodeConfig(String::from_str("slave node list is empty!")));
        },
        Some(sl) => match build_slaves(cfg, sl) {
            Ok(v) => v,
            Err(e) => {
                return Err(e);
            },
        },
    };
    let master = match &ccfg.master_node_id {
        None => {
            return Err(ShardRouterError::NoNodeConfig(String::from_str("master node id is emtpy")));
        },
        Some(m) => match cfg.get_db_node(m.as_str()) {
            Some(n) => n.copy(),
            None => {
                return Err(ShardRouterError::NoNodeConfig(m.clone()));
            },
        },
    };
    Ok(
        DBCluster {
            id: id.clone(),
            master_node: DBNode { node_cfg: master },
            slave_node_list: slaves,
            cluster_table_split_count: split,
        },
    )
}

/// The clusters of the ids `ids`, in order.
fn build_clusters(cfg: &ShardConfig, splits: &Option<Vec<u16>>, ids: &Vec<String>) -> (r: Result<Vec<DBCluster>, ShardRouterError>)
    ensures
        match spec_clusters(*cfg, splits_view(*splits), text::strings_view(ids@), 0) {
            BOutcome::Built(c) => r matches Ok(x) && clusters_view(x@) == c && x@.len() == ids@.len(),
            BOutcome::Failed(b) => r matches Err(e) && error_is(e, b),
        },
{
    let ghost sv = text::strings_view(ids@);
    let ghost sp = splits_view(*splits);
    let mut v: Vec<DBCluster> = Vec::new();
    let mut i: usize = 0;
    proof {
        assert(clusters_view(v@) =~= Seq::<ClusterView>::empty());
    }
    while i < ids.len()
        invariant
            i <= ids@.len(),
            v@.len() == i,
            sv == text::strings_view(ids@),
            sp == splits_view(*splits),
            spec_clusters(*cfg, sp, sv, 0) == bprepend(clusters_view(v@), spec_clusters(*cfg, sp, sv, i as int)),
        decreases ids@.len() - i,
    {
        match build_cluster(cfg, splits, &ids[i], i) {
            Ok(c) => {
                let ghost before = clusters_view(v@);
                let ghost cv = c@;
                v.push(c);
                proof {
                    assert(clusters_view(v@) =~= before + seq![cv]);
                    match spec_clusters(*cfg, sp, sv, i + 1) {
                        BOutcome::Built(r2) => {
                            assert(before + (seq![cv] + r2) =~= clusters_view(v@) + r2);
                        },
                        _ => {},
                    }
                }
            },
            Err(e) => {
                return Err(e);
            },
        }
        i += 1;
    }
    proof {
        assert(clusters_view(v@) + Seq::<ClusterView>::empty() =~= clusters_view(v@));
    }
    Ok(v)
}

/// The ranges of a schema of `n` clusters; none unless there are two bounds
/// per cluster, each a decimal integer.
fn brain_int_range(sc: &ShardSchemaConfig, n: usize) -> (r: Option<Vec<Range<u128>>>)
    ensures
        match spec_brain_int_range(*sc, n as nat) {
            BOutcome::Built(Some(rv)) => r matches Some(x) && decision::ranges_view(x@) == rv
                && x@.len() == n,
            BOutcome::Built(None) => r is None,
            BOutcome::Failed(_) => false,
        },
{
    let ir = match &sc.integer_range {
        None => {
            return None;
        },
        Some(ir) => ir,
    };
    if ir.len() / 2 != n {
        return None;
    }
    let ghost sv = text::strings_view(ir@);
    let mut v: Vec<Range<u128>> = Vec::new();
    let mut i: usize = 0;
    proof {
        assert(sv.skip(0) =~= sv);
        assert(decision::ranges_view(v@) =~= Seq::<(u128, u128)>::empty());
    }
    while i < ir.len()
        invariant
            i <= ir@.len(),
            v@.len() * 2 == i,
            ir@.len() / 2 == n,
            sv == text::strings_view(ir@),
            spec_brain_int_range(*sc, n as nat) == spec_brain_ranges(sv),
            spec_brain_ranges(sv) == rprepend(decision::ranges_view(v@), spec_brain_ranges(sv.skip(i as int))),
        decreases ir@.len() - i,
    {
        let ghost rest = sv.skip(i as int);
        if i + 1 >= ir.len() {
            proof {
                assert(rest.len() == 1);
            }
            return None;
        }
        let a = text::parse_u128(ir[i].as_str());
        let b = text::parse_u128(ir[i + 1].as_str());
        proof {
            assert(rest[0] == ir@[i as int]@);
            assert(rest[1] == ir@[i + 1]@);
            assert(rest.skip(2) =~= sv.skip(i + 2));
        }
        match (a, b) {
            (Ok(start), Ok(end)) => {
                let ghost before = decision::ranges_view(v@);
                v.push(Range { start, end });
                proof {
                    assert(decision::ranges_view(v@) =~= before + seq![(start, end)]);
                    match spec_brain_ranges(sv.skip(i + 2)) {
                        BOutcome::Built(Some(r2)) => {
                            assert(before + (seq![(start, end)] + r2) =~= decision::ranges_view(v@) + r2);
                        },
                        _ => {},
                    }
                }
                i += 2;
            },
            _ => {
                return None;
            },
        }
    }
    proof {
        assert(sv.skip(i as int) =~= Seq::<Seq<char>>::empty());
        assert(decision::ranges_view(v@) + Seq::<(u128, u128)>::empty() =~= decision::ranges_view(v@));
    }
    Some(v)
}

/// The routing entry of one flat schema, with its key.
fn build_entry(cfg: &ShardConfig, sc: &ShardSchemaConfig) -> (r: Result<(String, RouterTableEntry), ShardRouterError>)
    ensures
        match spec_brain_entry(*cfg, *sc) {
            BOutcome::Built(p) => r matches Ok(x) && x.0@ == p.0 && x.1@ == p.1,
            BOutcome::Failed(b) => r matches Err(e) && error_is(e, b),
        },
{
    let owner = match required_field(&sc.owner, "owner") {
        Ok(s) => s,
        Err(e) => {
            return Err(e);
        },
    };
    let db = match required_field(&sc.db, "db") {
        Ok(s) => s,
        Err(e) => {
            return Err(e);
        },
    };
    let table = match required_field(&sc.table, "table") {
        Ok(s) => s,
        Err(e) => {
            return Err(e);
        },
    };
    let shard_key = match required_field(&sc.shard_key, "shard_key") {
        Ok(s) => s,
        Err(e) => {
            return Err(e);
        },
    };
    let shard_type = match brain_shard_type(&sc.shard_type) {
        Ok(t) => t,
        Err(e) => {
            return Err(e);
        },
    };
    let idl = match &sc.db_cluster_id_list {
        None => {
            return Err(
                ShardRouterError::ShardSchemaParameterILL(
                    String::from_str("There is no db cluster id list in shard schema config!"),
                ),
            );
        },
        Some(v) => v,
    };
    let cluster_list = match build_clusters(cfg, &sc.each_cluster_table_split_count, idl) {
        Ok(v) => v,
        Err(e) => {
            return Err(e);
        },
    };
    let key = make_key(owner.as_str(), db.as_str(), table.as_str());
    let integer_range = brain_int_range(sc, idl.len());
    let needs_ranges = match shard_type {
        ShardType::IntegerRange => true,
        _ => false,
    };
    if needs_ranges && integer_range.is_none() {
        return Err(ShardRouterError::ShardSchemaIntegerRangeILL(key));
    }
    let entry = RouterTableEntry { owner, db, table, shard_key, shard_type, cluster_list, integer_range };
    Ok((key, entry))
}

/// The routing entries of the flat schemas, in order.
fn build_entries(cfg: &ShardConfig, ss: &Vec<ShardSchemaConfig>) -> (r: Result<Vec<(String, RouterTableEntry)>, ShardRouterError>)
    ensures
        match spec_brain_entries(*cfg, ss@) {
            BOutcome::Built(v) => r matches Ok(x) && entries_view(x@) == v,
            BOutcome::Failed(b) => r matches Err(e) && error_is(e, b),
        },
{
    let mut v: Vec<(String, RouterTableEntry)> = Vec::new();
    let mut i: usize = 0;
    proof {
        assert(ss@.skip(0) =~= ss@);
        assert(entries_view(v@) =~= Seq::<(Seq<char>, EntryView)>::empty());
    }
    while i < ss.len()
        invariant
            i <= ss@.len(),
            spec_brain_entries(*cfg, ss@) == bprepend(entries_view(v@), spec_brain_entries(*cfg, ss@.skip(i as int))),
        decreases ss@.len() - i,
    {
        proof {
            assert(ss@.skip(i as int)[0] == ss@[i as int]);
            assert(ss@.skip(i as int).drop_first() =~= ss@.skip(i + 1));
        }
        match build_entry(cfg, &ss[i]) {
            Ok(p) => {
                let ghost before = entries_view(v@);
                let ghost pv = (p.0@, p.1@);
                v.push(p);
                proof {
                    assert(entries_view(v@) =~= before + seq![pv]);
                    match spec_brain_entries(*cfg, ss@.skip(i + 1)) {
                        BOutcome::Built(r2) => {
                            assert(before + (seq![pv] + r2) =~= entries_view(v@) + r2);
                        },
                        _ => {},
                    }
                }
            },
            Err(e) => {
                return Err(e);
            },
        }
        i += 1;
    }
    proof {
        assert(ss@.skip(i as int) =~= Seq::<ShardSchemaConfig>::empty());
        assert(entries_view(v@) + Seq::<(Seq<char>, EntryView)>::empty() =~= entries_view(v@));
    }
    Ok(v)
}

/// Builds the router of the flat shard schemas. Each schema is checked in
/// order, and the first failing check is the error: a missing or blank
/// field, an unknown shard type, a cluster or node that is not configured,
/// fewer split counts than clusters, or a range-sharded table without a
/// range per cluster. Where two schemas have the same key the later one
/// counts.
pub fn build_router(cfg: &ShardConfig) -> (r: Result<Arc<Router>, ShardRouterError>)
    ensures
        match spec_brain_build(*cfg) {
            BOutcome::Built(v) => r matches Ok(router) && router@ == v,
            BOutcome::Failed(b) => r matches Err(e) && error_is(e, b),
        },
{
    match &cfg.db_shard_schema_list {
        None => Err(ShardRouterError::NoShardSchemaConfig),
        Some(ss) => match build_entries(cfg, ss) {
            Ok(v) => Ok(Arc::new(Router { table: Box::new(RouterTable { table_entry: v }) })),
            Err(e) => Err(e),
        },
    }
}

/// The router of the flat shard schemas, as `build_router` gives it, for
/// the start of the program.
pub fn load_shard_router(config: &ShardConfig) -> (r: Result<Arc<Router>, ShardRouterError>)
    ensures
        match spec_brain_build(*config) {
            BOutcome::Built(v) => r matches Ok(router) && router@ == v,
            BOutcome::Failed(b) => r matches Err(e) && error_is(e, b),
        },
{
    build_router(config)
}

/// Every route of the shards of cluster `idx` is among the routes of the
/// first `k` clusters, for `idx < k`.
proof fn lemma_cluster_paths_listed(e: EntryView, k: int, idx: int, j: int)
    requires
        0 <= idx < k,
        0 <= j < spec_cluster_paths(e, idx).len(),
    ensures
        spec_brain_paths(e, k).contains(spec_cluster_paths(e, idx)[j]),
    decreases k,
{
    let prefix = spec_brain_paths(e, k - 1);
    let last = spec_cluster_paths(e, k - 1);
    assert(spec_brain_paths(e, k) == prefix + last);
    if idx == k - 1 {
        assert((prefix + last)[prefix.len() + j] == last[j]);
    } else {
        lemma_cluster_paths_listed(e, k - 1, idx, j);
        let w = choose|w: int| 0 <= w < prefix.len() && prefix[w] == spec_cluster_paths(e, idx)[j];
        assert((prefix + last)[w] == prefix[w]);
    }
}

/// The route that cluster `idx` gives a shard value `x` is among all the routes.
pub proof fn lemma_table_name_listed(e: EntryView, idx: int, x: nat)
    requires
        0 <= idx < e.clusters.len(),
    ensures
        spec_brain_paths(e, e.clusters.len() as int).contains((idx, spec_brain_table_name(e, idx, x))),
{
    let tsc = e.clusters[idx].split;
    if tsc > 1 {
        let j = (x % (tsc as nat)) as int;
        assert(spec_cluster_paths(e, idx)[j] == (idx, spec_brain_table_name(e, idx, x)));
        lemma_cluster_paths_listed(e, e.clusters.len() as int, idx, j);
    } else {
        assert(spec_cluster_paths(e, idx)[0] == (idx, spec_brain_table_name(e, idx, x)));
        lemma_cluster_paths_listed(e, e.clusters.len() as int, idx, 0);
    }
}

/// Whatever route a shard value takes is one of the routes that
/// `find_all_routing_path` lists for the table.
pub proof fn lemma_brain_route_listed(e: EntryView, s: Seq<char>)
    requires
        entry_view_wf(e),
    ensures
        spec_brain_route(e, s) matches Some(p) ==> spec_brain_paths(e, e.clusters.len() as int).contains(p),
{
    let n = e.clusters.len() as int;
    if n > 0 {
        let x: u128 = match text::spec_parse_u128(s) {
            Ok(v) => v,
            Err(_) => 0,
        };
        assert(spec_brain_fallback_name(e) == spec_brain_table_name(e, 0, 0));
        match e.shard_type {
            ShardType::Hash => {
                let h = decision::spec_default_hash(s);
                lemma_table_name_listed(e, (h as int) % n, h as nat);
            },
            ShardType::Integer => {
                lemma_table_name_listed(e, (x as int) % n, x as nat);
            },
            ShardType::IntegerRange => {
                lemma_table_name_listed(e, 0, 0);
                if let Some(v) = e.integer_range {
                    decision::lemma_first_range_containing(v, x);
                    if let Some(p) = decision::first_range_containing(v, x) {
                        lemma_table_name_listed(e, p, x as nat);
                    }
                }
            },
        }
    }
}

/// Routing in an entry with `n > 0` clusters that shards by hash or by
/// integer: the row goes to the cluster at position `k mod n`, where `k` is
/// the shard value's hash (hash sharding) or the integer it reads as, 0 for
/// a value that is no decimal integer (integer sharding); within a cluster
/// that splits the table in `t > 1` shards, to shard `k mod t`, else to the
/// table itself.
pub proof fn lemma_brain_modulo_route(e: EntryView, s: Seq<char>)
    requires
        e.clusters.len() > 0,
        e.shard_type == ShardType::Hash || e.shard_type == ShardType::Integer,
    ensures
        ({
            let n = e.clusters.len() as int;
            let k: nat = if e.shard_type == ShardType::Hash {
                decision::spec_default_hash(s) as nat
            } else {
                match text::spec_parse_u128(s) {
                    Ok(x) => x as nat,
                    Err(_) => 0,
                }
            };
            let idx = (k as int) % n;
            let t = e.clusters[idx].split;
            spec_brain_route(e, s) == Some(
                (
                    idx,
                    if t > 1 {
                        e.table + "_"@ + text::spec_decimal(k % (t as nat))
                    } else {
                        e.table
                    },
                ),
            )
        }),
{
}

/// Range routing in an entry with clusters: the shard value (0 where it is
/// no decimal integer) goes to the cluster of the first range
/// `[start, end)` that holds it, and within a cluster that splits the table
/// in `t > 1` shards to shard `value mod t`; a value no range holds, or any
/// value where the entry has no ranges, goes to the first cluster, to its
/// shard 0 where it splits the table.
pub proof fn lemma_brain_range_route(e: EntryView, s: Seq<char>)
    requires
        e.clusters.len() > 0,
        e.shard_type == ShardType::IntegerRange,
        entry_view_wf(e),
    ensures
        ({
            let x: u128 = match text::spec_parse_u128(s) {
                Ok(v) => v,
                Err(_) => 0,
            };
            let first = if e.clusters[0].split > 1 {
                e.table + "_"@ + text::spec_decimal(0)
            } else {
                e.table
            };
            &&& e.integer_range is None ==> spec_brain_route(e, s) == Some((0int, first))
            &&& e.integer_range matches Some(r) ==> {
                &&& (forall|j: int| #![trigger r[j]] 0 <= j < r.len() ==> !(r[j].0 <= x < r[j].1))
                    ==> spec_brain_route(e, s) == Some((0int, first))
                &&& forall|i: int|
                    0 <= i < r.len() && r[i].0 <= x < r[i].1 && (forall|j: int| #![trigger r[j]] 0 <= j < i ==> !(r[j].0
                        <= x < r[j].1)) ==> spec_brain_route(e, s) == Some(
                        (
                            i,
                            if (#[trigger] e.clusters[i]).split > 1 {
                                e.table + "_"@ + text::spec_decimal((x as nat) % (e.clusters[i].split as nat))
                            } else {
                                e.table
                            },
                        ),
                    )
            }
        }),
{
    let x: u128 = match text::spec_parse_u128(s) {
        Ok(v) => v,
        Err(_) => 0,
    };
    if let Some(r) = e.integer_range {
        decision::lemma_first_range_containing(r, x);
        assert forall|i: int|
            0 <= i < r.len() && r[i].0 <= x < r[i].1 && (forall|j: int| #![trigger r[j]] 0 <= j < i ==> !(r[j].0 <= x
                < r[j].1)) implies decision::first_range_containing(r, x) == Some(i) by {
            match decision::first_range_containing(r, x) {
                Some(k) => {
                    if k < i {
                        assert(!(r[k].0 <= x < r[k].1));
                    } else if k > i {
                        assert(!(r[i].0 <= x < r[i].1));
                    }
                },
                None => {
                    assert(!(r[i].0 <= x < r[i].1));
                },
            }
        }
        if forall|j: int| #![trigger r[j]] 0 <= j < r.len() ==> !(r[j].0 <= x < r[j].1) {
            if let Some(k) = decision::first_range_containing(r, x) {
                assert(!(r[k].0 <= x < r[k].1));
            }
        }
    }
}

/// Integer routing reaches every cluster: a shard value that reads as a
/// position `x` of the `n` clusters goes to cluster `x`.
pub proof fn lemma_brain_integer_reaches_all(e: EntryView, s: Seq<char>, x: u128)
    requires
        e.shard_type == ShardType::Integer,
        (x as int) < e.clusters.len(),
        text::spec_parse_u128(s) == Ok::<u128, text::IntErrorKind>(x),
    ensures
        spec_brain_route(e, s) matches Some(p) && p.0 == x as int,
{
    lemma_brain_modulo_route(e, s);
    let n = e.clusters.len() as int;
    let i = x as int;
    assert(i % n == i) by (nonlinear_arith)
        requires
            0 <= i < n,
    ;
}

/// Each routing entry built from the flat schemas stands under the key of
/// its user, database and table.
proof fn lemma_brain_entries_keyed(cfg: ShardConfig, ss: Seq<ShardSchemaConfig>)
    ensures
        spec_brain_entries(cfg, ss) matches BOutcome::Built(v) ==> forall|i: int|
            0 <= i < v.len() ==> #[trigger] v[i].0 == spec_key(v[i].1.owner, v[i].1.db, v[i].1.table),
    decreases ss.len(),
{
    if ss.len() > 0 {
        lemma_brain_entries_keyed(cfg, ss.drop_first());
        if let BOutcome::Built(v) = spec_brain_entries(cfg, ss) {
            if let BOutcome::Built(e) = spec_brain_entry(cfg, ss[0]) {
                if let BOutcome::Built(r) = spec_brain_entries(cfg, ss.drop_first()) {
                    assert forall|i: int| 0 <= i < v.len() implies #[trigger] v[i].0 == spec_key(
                        v[i].1.owner,
                        v[i].1.db,
                        v[i].1.table,
                    ) by {
                        if i > 0 {
                            assert(v[i] == r[i - 1]);
                        }
                    }
                }
            }
        }
    }
}

/// Every table the flat schemas configure is found by the router built
/// from them: a routing path of it can be looked up.
pub proof fn lemma_configured_table_found(router: Router, cfg: ShardConfig, i: int)
    requires
        spec_brain_build(cfg) matches BOutcome::Built(v) && router@ == v && 0 <= i < v.len(),
    ensures
        router.spec_entry(router@[i].1.owner, router@[i].1.db, router@[i].1.table) is Some,
{
    let v = router@;
    let e = v[i].1;
    if let Some(ss) = cfg.db_shard_schema_list {
        lemma_brain_entries_keyed(cfg, ss@);
    }
    let keys = decision::view_keys(v);
    assert(keys[i] == spec_key(e.owner, e.db, e.table));
    keyed::lemma_last_index(keys, spec_key(e.owner, e.db, e.table));
}

} // verus!
