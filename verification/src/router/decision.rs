use vstd::prelude::*;
use vstd::string::StringExecFns;
use std::collections::hash_map::DefaultHasher;
use std::hash::{Hash, Hasher};
use std::ops::Range;
use std::sync::Arc;
use super::error::RouterError;
use crate::config::configer::Config;
use crate::config::schema::{DBSectionConfig, DBShardSchemaConfig, TableSectionConfig};
use crate::keyed;
use crate::text;

verus! {

/// How a table spreads its rows over its clusters.
#[derive(Clone, Copy, Debug, PartialEq, Eq, Structural)]
pub enum ShardType {
    IntegerRange,
    Integer,
    Hash,
}

/// A sharded table of one database of one proxy user.
#[derive(Debug)]
pub struct TableSectionEntry {
    table: String,
    shard_key: String,
    shard_type: ShardType,
    /// (cluster id, number of tables the cluster splits the table into)
    cluster_pairs: Vec<(String, u16)>,
    /// for `IntegerRange`: the values `[start, end)` of each cluster
    integer_range: Vec<Range<u128>>,
}

/// A database of one proxy user, and its sharded tables by name.
#[derive(Debug)]
pub struct DBSectionEntry {
    db: String,
    cluster_ids: Vec<String>,
    tables: Vec<(String, TableSectionEntry)>,
}

/// The databases of one proxy user.
#[derive(Debug)]
struct SchemaEntry {
    owner: String,
    db_entries: Vec<(String, DBSectionEntry)>,
}

/// The routing table: the schema of each proxy user. Where the configuration
/// names a user, a database or a table twice, the first one counts.
#[derive(Debug)]
pub struct Router {
    schema_map: Vec<(String, SchemaEntry)>,
}

/// What a table entry holds.
pub struct TableView {
    pub table: Seq<char>,
    pub shard_key: Seq<char>,
    pub shard_type: ShardType,
    pub cluster_pairs: Seq<(Seq<char>, u16)>,
    pub integer_range: Seq<(u128, u128)>,
}

/// What a database entry holds.
pub struct DbView {
    pub db: Seq<char>,
    pub cluster_ids: Seq<Seq<char>>,
    pub tables: Seq<(Seq<char>, TableView)>,
}

/// What the schema of a proxy user holds.
pub struct SchemaView {
    pub owner: Seq<char>,
    pub dbs: Seq<(Seq<char>, DbView)>,
}

/// Each cluster has a range of its own, and only `IntegerRange` tables have ranges.
pub open spec fn table_view_wf(v: TableView) -> bool {
    v.integer_range.len() <= v.cluster_pairs.len()
}

impl TableSectionEntry {
    #[verifier::type_invariant]
    spec fn inv(self) -> bool {
        self.integer_range@.len() <= self.cluster_pairs@.len()
    }
}

impl View for TableSectionEntry {
    type V = TableView;

    closed spec fn view(&self) -> TableView {
        TableView {
            table: self.table@,
            shard_key: self.shard_key@,
            shard_type: self.shard_type,
            cluster_pairs: self.cluster_pairs@.map_values(|p: (String, u16)| (p.0@, p.1)),
            integer_range: self.integer_range@.map_values(|r: Range<u128>| (r.start, r.end)),
        }
    }
}

impl View for DBSectionEntry {
    type V = DbView;

    closed spec fn view(&self) -> DbView {
        DbView {
            db: self.db@,
            cluster_ids: text::strings_view(self.cluster_ids@),
            tables: self.tables@.map_values(|p: (String, TableSectionEntry)| (p.0@, p.1@)),
        }
    }
}

impl View for SchemaEntry {
    type V = SchemaView;

    closed spec fn view(&self) -> SchemaView {
        SchemaView {
            owner: self.owner@,
            dbs: self.db_entries@.map_values(|p: (String, DBSectionEntry)| (p.0@, p.1@)),
        }
    }
}

impl View for Router {
    type V = Seq<(Seq<char>, SchemaView)>;

    closed spec fn view(&self) -> Seq<(Seq<char>, SchemaView)> {
        self.schema_map@.map_values(|p: (String, SchemaEntry)| (p.0@, p.1@))
    }
}

/// The name of shard `idx` of `table`: `{table}_{idx}`.
pub open spec fn spec_shard_table_name(table: Seq<char>, idx: nat) -> Seq<char> {
    table + "_"@ + text::spec_decimal(idx)
}

/// `{table}_{idx}`.
fn shard_table_name(table: &String, idx: u128) -> (r: String)
    ensures
        r@ == spec_shard_table_name(table@, idx as nat),
{
    let mut r = table.clone();
    r.append("_");
    text::push_decimal(&mut r, idx);
    r
}

/// The path that cluster `idx` gives a row of shard value `x`: the cluster,
/// and the table of the shard `x % split count` where the cluster splits the
/// table, the table itself where it does not.
pub open spec fn spec_path_by_index(v: TableView, idx: int, x: nat) -> (Seq<char>, Seq<char>) {
    let tsc = v.cluster_pairs[idx].1;
    (v.cluster_pairs[idx].0, if tsc > 1 {
        spec_shard_table_name(v.table, x % (tsc as nat))
    } else {
        v.table
    })
}

/// The path of a row whose shard value hashes to `h`.
pub open spec fn spec_route_by_hash(v: TableView, h: u64) -> (Seq<char>, Seq<char>) {
    spec_path_by_index(v, (h as int) % (v.cluster_pairs.len() as int), h as nat)
}

/// The first range `[start, end)` that holds `x`.
pub open spec fn first_range_containing(ranges: Seq<(u128, u128)>, x: u128) -> Option<int>
    decreases ranges.len(),
{
    if ranges.len() == 0 {
        None
    } else if ranges[0].0 <= x < ranges[0].1 {
        Some(0)
    } else {
        match first_range_containing(ranges.drop_first(), x) {
            Some(i) => Some(i + 1),
            None => None,
        }
    }
}

/// The least range that holds `x`, or none holds it.
pub proof fn lemma_first_range_containing(ranges: Seq<(u128, u128)>, x: u128)
    ensures
        match first_range_containing(ranges, x) {
            Some(i) => 0 <= i < ranges.len() && ranges[i].0 <= x < ranges[i].1 && forall|j: int|
                #![trigger ranges[j]] 0 <= j < i ==> !(ranges[j].0 <= x < ranges[j].1),
            None => forall|j: int| #![trigger ranges[j]] 0 <= j < ranges.len() ==> !(ranges[j].0 <= x < ranges[j].1),
        },
    decreases ranges.len(),
{
    if ranges.len() > 0 && !(ranges[0].0 <= x < ranges[0].1) {
        lemma_first_range_containing(ranges.drop_first(), x);
        assert forall|j: int| 1 <= j < ranges.len() implies ranges[j] == ranges.drop_first()[j - 1] by {}
    }
}

/// The hash `DefaultHasher` gives a string.
pub uninterp spec fn spec_default_hash(s: Seq<char>) -> u64;

/// `Hash::hash` of the string into a fresh `DefaultHasher`, then `finish`.
/// `DefaultHasher::new` starts every hasher with the same keys, so the hash
/// depends on the string alone.
#[verifier::external_body]
pub(crate) fn default_hash(s: &str) -> (h: u64)
    ensures
        h == spec_default_hash(s@),
{
    let mut hasher = DefaultHasher::new();
    s.hash(&mut hasher);
    hasher.finish()
}

/// The name `ParseIntError`'s debug form gives each kind.
pub open spec fn kind_name(k: text::IntErrorKind) -> Seq<char> {
    match k {
        text::IntErrorKind::Empty => "Empty"@,
        text::IntErrorKind::InvalidDigit => "InvalidDigit"@,
        text::IntErrorKind::PosOverflow => "PosOverflow"@,
    }
}

/// The detail of a shard value that is no integer.
pub open spec fn spec_illegal_integer_text(k: text::IntErrorKind) -> Seq<char> {
    "illegal integer: ParseIntError { kind: "@ + kind_name(k) + " }"@
}

/// The detail of a shard value outside every range: the value, quoted.
pub open spec fn spec_not_in_range_text(s: Seq<char>) -> Seq<char> {
    "\""@ + s + "\" not in integer range"@
}

fn illegal_integer_text(k: text::IntErrorKind) -> (r: String)
    ensures
        r@ == spec_illegal_integer_text(k),
{
    let mut r = String::from_str("illegal integer: ParseIntError { kind: ");
    match k {
        text::IntErrorKind::Empty => r.append("Empty"),
        text::IntErrorKind::InvalidDigit => r.append("InvalidDigit"),
        text::IntErrorKind::PosOverflow => r.append("PosOverflow"),
    }
    r.append(" }");
    r
}

fn not_in_range_text(s: &str) -> (r: String)
    ensures
        r@ == spec_not_in_range_text(s@),
{
    let mut r = String::from_str("\"");
    r.append(s);
    r.append("\" not in integer range");
    r
}

/// What looking up the path of a shard value gives.
pub enum RouteOutcome {
    Path(Seq<char>, Seq<char>),
    ShardValueEmpty,
    ClusterPairsEmpty,
    ShardValueIll(Seq<char>),
    NotInRange(Seq<char>),
}

/// The path of the row with shard value `s`: `(cluster id, table name)`.
/// A blank value is refused; so is every value of a table without clusters.
/// `Hash` picks the cluster by the value's hash modulo the number of
/// clusters, `Integer` by the value modulo the number of clusters, and
/// `IntegerRange` takes the cluster of the first range that holds the value.
pub open spec fn spec_lookup_one_path(v: TableView, s: Seq<char>) -> RouteOutcome {
    let n = v.cluster_pairs.len() as int;
    if text::spec_trim(s).len() == 0 {
        RouteOutcome::ShardValueEmpty
    } else if n == 0 {
        RouteOutcome::ClusterPairsEmpty
    } else {
        match v.shard_type {
            ShardType::Hash => {
                let p = spec_route_by_hash(v, spec_default_hash(s));
                RouteOutcome::Path(p.0, p.1)
            },
            ShardType::Integer => match text::spec_parse_u128(s) {
                Err(k) => RouteOutcome::ShardValueIll(spec_illegal_integer_text(k)),
                Ok(x) => {
                    let p = spec_path_by_index(v, (x as int) % n, x as nat);
                    RouteOutcome::Path(p.0, p.1)
                },
            },
            ShardType::IntegerRange => match text::spec_parse_u128(s) {
                Err(k) => RouteOutcome::ShardValueIll(spec_illegal_integer_text(k)),
                Ok(x) => match first_range_containing(v.integer_range, x) {
                    Some(pos) => {
                        let p = spec_path_by_index(v, pos, x as nat);
                        RouteOutcome::Path(p.0, p.1)
                    },
                    None => RouteOutcome::NotInRange(spec_not_in_range_text(s)),
                },
            },
        }
    }
}

/// Whether a lookup result is the outcome `o`.
pub open spec fn route_result_is(r: Result<(&str, String), RouterError>, o: RouteOutcome) -> bool {
    match o {
        RouteOutcome::Path(c, t) => r matches Ok(p) && p.0@ == c && p.1@ == t,
        RouteOutcome::ShardValueEmpty => r matches Err(RouterError::LookupErrShardValueEmpty),
        RouteOutcome::ClusterPairsEmpty => r matches Err(RouterError::LookupErrClusterPairsEmpty),
        RouteOutcome::ShardValueIll(m) => r matches Err(RouterError::LookupErrShardValueILL(e))
            && e@ == m,
        RouteOutcome::NotInRange(m) => r matches Err(RouterError::LookupErrNotInIntegerRange(e))
            && e@ == m,
    }
}

/// The paths of the shards of one cluster.
pub open spec fn spec_pair_paths(table: Seq<char>, pair: (Seq<char>, u16)) -> Seq<(Seq<char>, Seq<char>)> {
    if pair.1 > 1 {
        Seq::new(pair.1 as nat, |pos: int| (pair.0, spec_shard_table_name(table, pos as nat)))
    } else {
        seq![(pair.0, table)]
    }
}

/// The paths of every shard of every cluster, cluster by cluster.
pub open spec fn spec_all_paths(table: Seq<char>, pairs: Seq<(Seq<char>, u16)>) -> Seq<(Seq<char>, Seq<char>)>
    decreases pairs.len(),
{
    if pairs.len() == 0 {
        Seq::empty()
    } else {
        spec_all_paths(table, pairs.drop_last()) + spec_pair_paths(table, pairs.last())
    }
}

/// The paths of a list of `(cluster id, table name)`.
pub open spec fn paths_view(v: Seq<(&str, String)>) -> Seq<(Seq<char>, Seq<char>)> {
    v.map_values(|p: (&str, String)| (p.0@, p.1@))
}

impl TableSectionEntry {
    pub fn get_shard_key(&self) -> (r: &str)
        ensures
            r@ == self@.shard_key,
    {
        self.shard_key.as_str()
    }

    pub fn get_shard_type(&self) -> (r: ShardType)
        ensures
            r == self@.shard_type,
    {
        self.shard_type
    }

    /// Every `(cluster id, table name)` the table's rows live in; an error
    /// for a table without clusters.
    pub fn load_all_path(&self) -> (r: Result<Vec<(&str, String)>, RouterError>)
        ensures
            self@.cluster_pairs.len() == 0 ==> r matches Err(RouterError::LookupErrClusterPairsEmpty),
            self@.cluster_pairs.len() > 0 ==> (r matches Ok(v) && paths_view(v@) == spec_all_paths(
                self@.table,
                self@.cluster_pairs,
            )),
            table_view_wf(self@),
    {
        proof {
            use_type_invariant(self);
        }
        if self.cluster_pairs.len() == 0 {
            return Err(RouterError::LookupErrClusterPairsEmpty);
        }
        let ghost pairs = self@.cluster_pairs;
        let ghost table = self@.table;
        let mut v: Vec<(&str, String)> = Vec::new();
        let mut i: usize = 0;
        while i < self.cluster_pairs.len()
            invariant
                i <= self.cluster_pairs@.len(),
                pairs == self@.cluster_pairs,
                table == self@.table,
                paths_view(v@) == spec_all_paths(table, pairs.take(i as int)),
            decreases self.cluster_pairs@.len() - i,
        {
            let pair = &self.cluster_pairs[i];
            let ghost before = paths_view(v@);
            proof {
                assert(pairs[i as int] == (pair.0@, pair.1));
            }
            if pair.1 > 1 {
                let mut pos: u16 = 0;
                while pos < pair.1
                    invariant
                        pos <= pair.1,
                        pair.1 > 1,
                        table == self.table@,
                        paths_view(v@) == before + spec_pair_paths(table, (pair.0@, pair.1)).take(pos as int),
                    decreases pair.1 - pos,
                {
                    let name = shard_table_name(&self.table, pos as u128);
                    let ghost prev = v@;
                    v.push((pair.0.as_str(), name));
                    proof {
                        assert(paths_view(v@) =~= paths_view(prev).push((pair.0@, spec_shard_table_name(table, pos as nat))));
                        assert(spec_pair_paths(table, (pair.0@, pair.1)).take(pos + 1) =~= spec_pair_paths(
                            table,
                            (pair.0@, pair.1),
                        ).take(pos as int).push((pair.0@, spec_shard_table_name(table, pos as nat))));
                        assert(paths_view(v@) =~= before + spec_pair_paths(table, (pair.0@, pair.1)).take(pos + 1));
                    }
                    pos += 1;
                }
                proof {
                    assert(spec_pair_paths(table, (pair.0@, pair.1)).take(pair.1 as int) =~= spec_pair_paths(table, (pair.0@, pair.1)));
                }
            } else {
                let ghost prev = v@;
                v.push((pair.0.as_str(), self.table.clone()));
                proof {
                    assert(paths_view(v@) =~= paths_view(prev).push((pair.0@, table)));
                    assert(paths_view(v@) =~= before + spec_pair_paths(table, (pair.0@, pair.1)));
                }
            }
            proof {
                assert(pairs.take(i + 1).drop_last() =~= pairs.take(i as int));
                assert(pairs.take(i + 1).last() == pairs[i as int]);
            }
            i += 1;
        }
        proof {
            assert(pairs.take(i as int) =~= pairs);
        }
        Ok(v)
    }

    /// The path of a row whose shard value hashes to `shard_hash`.
    pub fn route_by_hash(&self, shard_hash: u64) -> (r: (&str, String))
        requires
            self@.cluster_pairs.len() > 0,
        ensures
            r.0@ == spec_route_by_hash(self@, shard_hash).0,
            r.1@ == spec_route_by_hash(self@, shard_hash).1,
    {
        let n = self.cluster_pairs.len() as u64;
        let idx = (shard_hash % n) as usize;
        let pair = &self.cluster_pairs[idx];
        let tsc = pair.1 as u64;
        if tsc > 1 {
            let table_idx = shard_hash % tsc;
            (pair.0.as_str(), shard_table_name(&self.table, table_idx as u128))
        } else {
            (pair.0.as_str(), self.table.clone())
        }
    }

    /// The path cluster `idx` gives a row of shard value `x`.
    fn path_by_index(&self, idx: usize, x: u128) -> (r: (&str, String))
        requires
            idx < self@.cluster_pairs.len(),
        ensures
            r.0@ == spec_path_by_index(self@, idx as int, x as nat).0,
            r.1@ == spec_path_by_index(self@, idx as int, x as nat).1,
    {
        let pair = &self.cluster_pairs[idx];
        let tsc = pair.1 as u128;
        if tsc > 1 {
            (pair.0.as_str(), shard_table_name(&self.table, x % tsc))
        } else {
            (pair.0.as_str(), self.table.clone())
        }
    }

    /// The path `(cluster id, table name)` of the row with shard value
    /// `shard_val` (see `spec_lookup_one_path`).
    pub fn lookup_one_path(&self, shard_val: &str) -> (r: Result<(&str, String), RouterError>)
        ensures
            route_result_is(r, spec_lookup_one_path(self@, shard_val@)),
            table_view_wf(self@),
    {
        proof {
            use_type_invariant(self);
        }
        if text::is_blank(shard_val) {
            return Err(RouterError::LookupErrShardValueEmpty);
        }
        let n = self.cluster_pairs.len();
        if n == 0 {
            return Err(RouterError::LookupErrClusterPairsEmpty);
        }
        match self.shard_type {
            ShardType::Hash => {
                let shard_hash = default_hash(shard_val);
                Ok(self.route_by_hash(shard_hash))
            },
            ShardType::Integer => {
                let x = match text::parse_u128(shard_val) {
                    Ok(x) => x,
                    Err(k) => {
                        return Err(RouterError::LookupErrShardValueILL(illegal_integer_text(k)));
                    },
                };
                let idx = (x % (n as u128)) as usize;
                Ok(self.path_by_index(idx, x))
            },
            ShardType::IntegerRange => {
                let x = match text::parse_u128(shard_val) {
                    Ok(x) => x,
                    Err(k) => {
                        return Err(RouterError::LookupErrShardValueILL(illegal_integer_text(k)));
                    },
                };
                let ghost ranges = self@.integer_range;
                let mut pos: usize = 0;
                while pos < self.integer_range.len()
                    invariant
                        pos <= self.integer_range@.len(),
                        self.integer_range@.len() <= self.cluster_pairs@.len(),
                        ranges == self@.integer_range,
                        self@.shard_type == ShardType::IntegerRange,
                        text::spec_parse_u128(shard_val@) == Ok::<u128, text::IntErrorKind>(x),
                        text::spec_trim(shard_val@).len() != 0,
                        n == self@.cluster_pairs.len(),
                        n > 0,
                        forall|j: int| #![trigger ranges[j]] 0 <= j < pos ==> !(ranges[j].0 <= x < ranges[j].1),
                    decreases self.integer_range@.len() - pos,
                {
                    let r = &self.integer_range[pos];
                    proof {
                        assert(ranges[pos as int] == (r.start, r.end));
                    }
                    if r.start <= x && x < r.end {
                        proof {
                            lemma_first_range_containing(ranges, x);
                            assert(first_range_containing(ranges, x) == Some(pos as int));
                            assert(text::spec_parse_u128(shard_val@) == Ok::<u128, text::IntErrorKind>(x));
                            assert(self@.shard_type == ShardType::IntegerRange);
                            assert(text::spec_trim(shard_val@).len() != 0);
                            assert(self@.cluster_pairs.len() != 0);
                        }
                        let p = self.path_by_index(pos, x);
                        proof {
                            let sp = spec_path_by_index(self@, pos as int, x as nat);
                            assert(spec_lookup_one_path(self@, shard_val@) == RouteOutcome::Path(sp.0, sp.1));
                        }
                        return Ok(p);
                    }
                    pos += 1;
                }
                proof {
                    lemma_first_range_containing(ranges, x);
                }
                Err(RouterError::LookupErrNotInIntegerRange(not_in_range_text(shard_val)))
            },
        }
    }
}

impl DBSectionEntry {
    pub fn load_cluster_ids(&self) -> (r: &Vec<String>)
        ensures
            text::strings_view(r@) == self@.cluster_ids,
    {
        &self.cluster_ids
    }

    /// The entry of `table`: the first one of that name.
    pub fn lookup_table(&self, table: &str) -> (r: Result<&TableSectionEntry, RouterError>)
        ensures
            match keyed::first_index(view_keys(self@.tables), table@) {
                Some(i) => r matches Ok(t) && t@ == self@.tables[i].1,
                None => r matches Err(RouterError::LookupErrTableNotExist),
            },
    {
        proof {
            assert(keyed::keys_of(self.tables@) =~= view_keys(self@.tables));
        }
        match keyed::find_first(&self.tables, table) {
            Some(i) => {
                proof {
                    assert(self@.tables[i as int] == (self.tables@[i as int].0@, self.tables@[i as int].1@));
                }
                Ok(&self.tables[i].1)
            },
            None => Err(RouterError::LookupErrTableNotExist),
        }
    }
}

/// The keys of a keyed view.
pub open spec fn view_keys<V>(v: Seq<(Seq<char>, V)>) -> Seq<Seq<char>> {
    v.map_values(|p: (Seq<char>, V)| p.0)
}

impl Router {
    /// The database `db` of proxy user `user`: the first schema of that
    /// user, and in it the first database of that name.
    pub fn lookup_db(&self, user: &str, db: &str) -> (r: Result<&DBSectionEntry, RouterError>)
        ensures
            match keyed::first_index(view_keys(self@), user@) {
                None => r matches Err(RouterError::LookupErrSchemaNotExit),
                Some(i) => match keyed::first_index(view_keys(self@[i].1.dbs), db@) {
                    None => r matches Err(RouterError::LookupErrDBNotExist),
                    Some(j) => r matches Ok(e) && e@ == self@[i].1.dbs[j].1,
                },
            },
    {
        proof {
            assert(keyed::keys_of(self.schema_map@) =~= view_keys(self@));
        }
        match keyed::find_first(&self.schema_map, user) {
            None => Err(RouterError::LookupErrSchemaNotExit),
            Some(i) => {
                let schema = &self.schema_map[i].1;
                proof {
                    assert(self@[i as int] == (self.schema_map@[i as int].0@, schema@));
                    assert(keyed::keys_of(schema.db_entries@) =~= view_keys(self@[i as int].1.dbs));
                }
                match keyed::find_first(&schema.db_entries, db) {
                    None => Err(RouterError::LookupErrDBNotExist),
                    Some(j) => {
                        proof {
                            assert(schema@.dbs[j as int] == (schema.db_entries@[j as int].0@, schema.db_entries@[j as int].1@));
                        }
                        Ok(&schema.db_entries[j].1)
                    },
                }
            },
        }
    }
}

/// What building a part of the router from its configuration gives: the
/// part, or the message of the first check that fails.
pub enum Outcome<T> {
    Built(T),
    Rejected(Seq<char>),
}

/// The shard type a configured name selects (around whitespace).
pub open spec fn spec_shard_type(s: Seq<char>) -> Option<ShardType> {
    let t = text::spec_trim(s);
    if t == "hash"@ {
        Some(ShardType::Hash)
    } else if t == "integer_range"@ {
        Some(ShardType::IntegerRange)
    } else if t == "integer"@ {
        Some(ShardType::Integer)
    } else {
        None
    }
}

/// The ranges `[start, end)` that consecutive decimal bounds give, pair by
/// pair: a bound that is no integer, a start above its end, or a start left
/// without an end refuses the list.
pub open spec fn spec_ranges(ir: Seq<Seq<char>>) -> Outcome<Seq<(u128, u128)>>
    decreases ir.len(),
{
    if ir.len() == 0 {
        Outcome::Built(Seq::empty())
    } else if ir.len() == 1 {
        Outcome::Rejected("odd count of bounds in integer_range in TableSectionConfig"@)
    } else {
        let a = text::spec_parse_u128(ir[0]);
        let b = text::spec_parse_u128(ir[1]);
        if a is Err || b is Err {
            Outcome::Rejected("Illegal integer in integer_range in TableSectionConfig"@)
        } else if a->Ok_0 > b->Ok_0 {
            Outcome::Rejected("Wrong case : start > end in integer_range"@)
        } else {
            match spec_ranges(ir.skip(2)) {
                Outcome::Built(rest) => Outcome::Built(seq![(a->Ok_0, b->Ok_0)] + rest),
                Outcome::Rejected(m) => Outcome::Rejected(m),
            }
        }
    }
}

/// The ranges of a table of `n` clusters; only `IntegerRange` tables have any.
pub open spec fn spec_table_ranges(t: TableSectionConfig, st: ShardType, n: nat) -> Outcome<Seq<(u128, u128)>> {
    if st != ShardType::IntegerRange {
        Outcome::Built(Seq::empty())
    } else {
        match t.integer_range {
            None => Outcome::Rejected("no integer_range  in TableSectionConfig"@),
            Some(ir) => if ir@.len() == 0 {
                Outcome::Rejected(" integer_range is empty in TableSectionConfig"@)
            } else if ir@.len() / 2 != n {
                Outcome::Rejected(
                    "(integer_range.len() / 2) != cluster_ids.len()  in TableSectionConfig"@,
                )
            } else {
                spec_ranges(text::strings_view(ir@))
            },
        }
    }
}

/// The entry of a configured table of a database whose clusters are `ids`.
pub open spec fn spec_table_entry(t: TableSectionConfig, ids: Seq<Seq<char>>) -> Outcome<TableView> {
    if text::spec_trim(t.table@).len() == 0 {
        Outcome::Rejected("table name is empty in TableSectionConfig"@)
    } else if text::spec_trim(t.shard_key@).len() == 0 {
        Outcome::Rejected("shard key is empty in TableSectionConfig"@)
    } else {
        match spec_shard_type(t.shard_type@) {
            None => Outcome::Rejected("wrong shard type in TableSectionConfig"@),
            Some(st) => match spec_table_ranges(t, st, ids.len()) {
                Outcome::Rejected(m) => Outcome::Rejected(m),
                Outcome::Built(ranges) => if t.each_cluster_table_split_count@.len() != ids.len() {
                    Outcome::Rejected(
                        "Wrong case : each_cluster_table_split_count.len() != cluster_ids.len() in TableSectionConfig"@,
                    )
                } else {
                    Outcome::Built(
                        TableView {
                            table: text::spec_trim(t.table@),
                            shard_key: text::spec_trim(t.shard_key@),
                            shard_type: st,
                            cluster_pairs: Seq::new(
                                ids.len(),
                                |i: int| (ids[i], t.each_cluster_table_split_count@[i]),
                            ),
                            integer_range: ranges,
                        },
                    )
                },
            },
        }
    }
}

/// The entries of the configured tables, by name, in order.
pub open spec fn spec_tables(ts: Seq<TableSectionConfig>, ids: Seq<Seq<char>>) -> Outcome<Seq<(Seq<char>, TableView)>>
    decreases ts.len(),
{
    if ts.len() == 0 {
        Outcome::Built(Seq::empty())
    } else {
        match spec_table_entry(ts[0], ids) {
            Outcome::Built(v) => match spec_tables(ts.drop_first(), ids) {
                Outcome::Built(rest) => Outcome::Built(seq![(v.table, v)] + rest),
                Outcome::Rejected(m) => Outcome::Rejected(m),
            },
            Outcome::Rejected(m) => Outcome::Rejected(m),
        }
    }
}

/// The entry of a configured database.
pub open spec fn spec_db_entry(d: DBSectionConfig) -> Outcome<DbView> {
    if text::spec_trim(d.db@).len() == 0 {
        Outcome::Rejected("db name empty in DBSectionConfig"@)
    } else if d.cluster_ids@.len() == 0 {
        Outcome::Rejected("cluster id list empty in DBSectionConfig"@)
    } else if d.table@.len() == 0 {
        Outcome::Rejected("zero len table list  in TableSectionConfig"@)
    } else {
        match spec_tables(d.table@, text::strings_view(d.cluster_ids@)) {
            Outcome::Built(ts) => Outcome::Built(
                DbView {
                    db: text::spec_trim(d.db@),
                    cluster_ids: text::strings_view(d.cluster_ids@),
                    tables: ts,
                },
            ),
            Outcome::Rejected(m) => Outcome::Rejected(m),
        }
    }
}

/// The entries of the configured databases, by name, in order.
pub open spec fn spec_dbs(ds: Seq<DBSectionConfig>) -> Outcome<Seq<(Seq<char>, DbView)>>
    decreases ds.len(),
{
    if ds.len() == 0 {
        Outcome::Built(Seq::empty())
    } else {
        match spec_db_entry(ds[0]) {
            Outcome::Built(v) => match spec_dbs(ds.drop_first()) {
                Outcome::Built(rest) => Outcome::Built(seq![(v.db, v)] + rest),
                Outcome::Rejected(m) => Outcome::Rejected(m),
            },
            Outcome::Rejected(m) => Outcome::Rejected(m),
        }
    }
}

/// The schemas of the configured proxy users, by owner, in order.
pub open spec fn spec_schemas(ss: Seq<DBShardSchemaConfig>) -> Outcome<Seq<(Seq<char>, SchemaView)>>
    decreases ss.len(),
{
    if ss.len() == 0 {
        Outcome::Built(Seq::empty())
    } else {
        match spec_dbs(ss[0].db@) {
            Outcome::Built(dbs) => match spec_schemas(ss.drop_first()) {
                Outcome::Built(rest) => Outcome::Built(
                    seq![(ss[0].owner@, SchemaView { owner: ss[0].owner@, dbs })] + rest,
                ),
                Outcome::Rejected(m) => Outcome::Rejected(m),
            },
            Outcome::Rejected(m) => Outcome::Rejected(m),
        }
    }
}

/// The bounds of a list of ranges.
pub open spec fn ranges_view(v: Seq<Range<u128>>) -> Seq<(u128, u128)> {
    v.map_values(|r: Range<u128>| (r.start, r.end))
}

/// `o` with `p` in front of what it built.
pub open spec fn prepend<T>(p: Seq<T>, o: Outcome<Seq<T>>) -> Outcome<Seq<T>> {
    match o {
        Outcome::Built(r) => Outcome::Built(p + r),
        Outcome::Rejected(m) => Outcome::Rejected(m),
    }
}

/// Built ranges come one per pair of bounds.
pub proof fn lemma_ranges_len(ir: Seq<Seq<char>>)
    ensures
        spec_ranges(ir) matches Outcome::Built(r) ==> r.len() * 2 == ir.len(),
    decreases ir.len(),
{
    if ir.len() >= 2 {
        lemma_ranges_len(ir.skip(2));
    }
}

/// Parses consecutive decimal bounds into ranges `[start, end)`.
fn parse_ranges(ir: &Vec<String>) -> (r: Result<Vec<Range<u128>>, String>)
    ensures
        match spec_ranges(text::strings_view(ir@)) {
            Outcome::Built(rs) => r matches Ok(v) && ranges_view(v@) == rs,
            Outcome::Rejected(m) => r matches Err(e) && e@ == m,
        },
{
    let ghost sv = text::strings_view(ir@);
    let mut v: Vec<Range<u128>> = Vec::new();
    let mut i: usize = 0;
    proof {
        assert(sv.skip(0) =~= sv);
        assert(ranges_view(v@) =~= Seq::<(u128, u128)>::empty());
    }
    while i < ir.len()
        invariant
            i <= ir@.len(),
            sv == text::strings_view(ir@),
            spec_ranges(sv) == prepend(ranges_view(v@), spec_ranges(sv.skip(i as int))),
        decreases ir@.len() - i,
    {
        let ghost rest = sv.skip(i as int);
        if i + 1 >= ir.len() {
            proof {
                assert(rest.len() == 1);
            }
            return Err(String::from_str("odd count of bounds in integer_range in TableSectionConfig"));
        }
        let a = text::parse_u128(ir[i].as_str());
        let b = text::parse_u128(ir[i + 1].as_str());
        proof {
            assert(rest[0] == ir@[i as int]@);
            assert(rest[1] == ir@[i + 1]@);
            assert(rest.skip(2) =~= sv.skip(i + 2));
        }
        match (a, b) {
            (Ok(start), Ok(end)) => {
                if start > end {
                    return Err(String::from_str("Wrong case : start > end in integer_range"));
                }
                let ghost before = ranges_view(v@);
                v.push(Range { start, end });
                proof {
                    assert(ranges_view(v@) =~= before + seq![(start, end)]);
                    match spec_ranges(sv.skip(i + 2)) {
                        Outcome::Built(r2) => {
                            assert(before + (seq![(start, end)] + r2) =~= ranges_view(v@) + r2);
                        },
                        _ => {},
                    }
                }
                i += 2;
            },
            _ => {
                return Err(String::from_str("Illegal integer in integer_range in TableSectionConfig"));
            },
        }
    }
    proof {
        assert(sv.skip(i as int) =~= Seq::<Seq<char>>::empty());
        assert(ranges_view(v@) + Seq::<(u128, u128)>::empty() =~= ranges_view(v@));
    }
    Ok(v)
}

/// The entries of a keyed list of table entries.
pub open spec fn tables_view(v: Seq<(String, TableSectionEntry)>) -> Seq<(Seq<char>, TableView)> {
    v.map_values(|p: (String, TableSectionEntry)| (p.0@, p.1@))
}

/// The entries of a keyed list of database entries.
pub open spec fn dbs_view(v: Seq<(String, DBSectionEntry)>) -> Seq<(Seq<char>, DbView)> {
    v.map_values(|p: (String, DBSectionEntry)| (p.0@, p.1@))
}

/// Builds the entry of one configured table of a database whose clusters are `ids`.
fn build_table_entry(t: &TableSectionConfig, ids: &Vec<String>) -> (r: Result<TableSectionEntry, String>)
    ensures
        match spec_table_entry(*t, text::strings_view(ids@)) {
            Outcome::Built(tv) => r matches Ok(e) && e@ == tv,
            Outcome::Rejected(m) => r matches Err(e) && e@ == m,
        },
{
    let ghost idv = text::strings_view(ids@);
    let table_name = text::trim(t.table.as_str());
    if table_name.unicode_len() == 0 {
        return Err(String::from_str("table name is empty in TableSectionConfig"));
    }
    let shard_key = text::trim(t.shard_key.as_str());
    if shard_key.unicode_len() == 0 {
        return Err(String::from_str("shard key is empty in TableSectionConfig"));
    }
    let st_name = text::trim(t.shard_type.as_str());
    let shard_type = if text::str_eq(st_name, "hash") {
        ShardType::Hash
    } else if text::str_eq(st_name, "integer_range") {
        ShardType::IntegerRange
    } else if text::str_eq(st_name, "integer") {
        ShardType::Integer
    } else {
        return Err(String::from_str("wrong shard type in TableSectionConfig"));
    };
    let integer_range: Vec<Range<u128>> = match shard_type {
        ShardType::IntegerRange => {
            match &t.integer_range {
                None => {
                    return Err(String::from_str("no integer_range  in TableSectionConfig"));
                },
                Some(ir) => {
                    if ir.len() == 0 {
                        return Err(String::from_str(" integer_range is empty in TableSectionConfig"));
                    }
                    if ir.len() / 2 != ids.len() {
                        return Err(
                            String::from_str(
                                "(integer_range.len() / 2) != cluster_ids.len()  in TableSectionConfig",
                            ),
                        );
                    }
                    proof {
                        lemma_ranges_len(text::strings_view(ir@));
                    }
                    match parse_ranges(ir) {
                        Ok(v) => v,
                        Err(e) => {
                            return Err(e);
                        },
                    }
                },
            }
        },
        _ => {
            let e: Vec<Range<u128>> = Vec::new();
            proof {
                assert(ranges_view(e@) =~= Seq::<(u128, u128)>::empty());
            }
            e
        },
    };
    proof {
        assert(ranges_view(integer_range@).len() == integer_range@.len());
        assert(spec_shard_type(t.shard_type@) == Some(shard_type));
        assert(spec_table_ranges(*t, shard_type, idv.len()) == Outcome::Built(ranges_view(integer_range@)));
    }
    if t.each_cluster_table_split_count.len() != ids.len() {
        return Err(
            String::from_str(
                "Wrong case : each_cluster_table_split_count.len() != cluster_ids.len() in TableSectionConfig",
            ),
        );
    }
    let mut cluster_pairs: Vec<(String, u16)> = Vec::new();
    let mut pos: usize = 0;
    while pos < ids.len()
        invariant
            pos <= ids@.len(),
            ids@.len() == t.each_cluster_table_split_count@.len(),
            cluster_pairs@.len() == pos,
            forall|j: int|
                0 <= j < pos ==> #[trigger] cluster_pairs@[j].0@ == ids@[j]@ && cluster_pairs@[j].1
                    == t.each_cluster_table_split_count@[j],
        decreases ids@.len() - pos,
    {
        cluster_pairs.push((ids[pos].clone(), t.each_cluster_table_split_count[pos]));
        pos += 1;
    }
    let entry = TableSectionEntry {
        table: text::to_string(table_name),
        shard_key: text::to_string(shard_key),
        shard_type,
        cluster_pairs,
        integer_range,
    };
    proof {
        assert(entry@.cluster_pairs =~= Seq::new(
            idv.len(),
            |i: int| (idv[i], t.each_cluster_table_split_count@[i]),
        ));
        assert(entry@.table == text::spec_trim(t.table@));
        assert(entry@.shard_key == text::spec_trim(t.shard_key@));
        assert(entry@.integer_range == ranges_view(integer_range@));
    }
    Ok(entry)
}

/// Builds the entries of the configured tables of a database, in order.
fn build_tables(ts: &Vec<TableSectionConfig>, ids: &Vec<String>) -> (r: Result<Vec<(String, TableSectionEntry)>, String>)
    ensures
        match spec_tables(ts@, text::strings_view(ids@)) {
            Outcome::Built(tv) => r matches Ok(v) && tables_view(v@) == tv,
            Outcome::Rejected(m) => r matches Err(e) && e@ == m,
        },
{
    let ghost idv = text::strings_view(ids@);
    let mut v: Vec<(String, TableSectionEntry)> = Vec::new();
    let mut i: usize = 0;
    proof {
        assert(ts@.skip(0) =~= ts@);
        assert(tables_view(v@) =~= Seq::<(Seq<char>, TableView)>::empty());
    }
    while i < ts.len()
        invariant
            i <= ts@.len(),
            idv == text::strings_view(ids@),
            v@.len() == i,
            spec_tables(ts@, idv) == prepend(tables_view(v@), spec_tables(ts@.skip(i as int), idv)),
        decreases ts@.len() - i,
    {
        proof {
            assert(ts@.skip(i as int)[0] == ts@[i as int]);
            assert(ts@.skip(i as int).drop_first() =~= ts@.skip(i + 1));
        }
        let entry = match build_table_entry(&ts[i], ids) {
            Ok(e) => e,
            Err(m) => {
                return Err(m);
            },
        };
        let ghost before = tables_view(v@);
        let name = entry.table.clone();
        v.push((name, entry));
        proof {
            let ev = v@[i as int].1@;
            assert(tables_view(v@) =~= before + seq![(ev.table, ev)]);
            match spec_tables(ts@.skip(i + 1), idv) {
                Outcome::Built(r2) => {
                    assert(before + (seq![(ev.table, ev)] + r2) =~= tables_view(v@) + r2);
                },
                _ => {},
            }
        }
        i += 1;
    }
    proof {
        assert(ts@.skip(i as int) =~= Seq::<TableSectionConfig>::empty());
        assert(tables_view(v@) + Seq::<(Seq<char>, TableView)>::empty() =~= tables_view(v@));
    }
    Ok(v)
}

/// Builds the entry of one configured database.
fn build_db_entry(d: &DBSectionConfig) -> (r: Result<DBSectionEntry, String>)
    ensures
        match spec_db_entry(*d) {
            Outcome::Built(dv) => r matches Ok(e) && e@ == dv,
            Outcome::Rejected(m) => r matches Err(e) && e@ == m,
        },
{
    let db_name = text::trim(d.db.as_str());
    if db_name.unicode_len() == 0 {
        return Err(String::from_str("db name empty in DBSectionConfig"));
    }
    if d.cluster_ids.len() == 0 {
        return Err(String::from_str("cluster id list empty in DBSectionConfig"));
    }
    if d.table.len() == 0 {
        return Err(String::from_str("zero len table list  in TableSectionConfig"));
    }
    let tables = match build_tables(&d.table, &d.cluster_ids) {
        Ok(v) => v,
        Err(m) => {
            return Err(m);
        },
    };
    let cluster_ids = text::copy_strings(&d.cluster_ids);
    let entry = DBSectionEntry { db: text::to_string(db_name), cluster_ids, tables };
    proof {
        assert(text::strings_view(entry.cluster_ids@) =~= text::strings_view(d.cluster_ids@));
        assert(entry@.tables =~= tables_view(entry.tables@));
    }
    Ok(entry)
}

/// Builds the entries of the configured databases of a schema, in order.
fn build_dbs(ds: &Vec<DBSectionConfig>) -> (r: Result<Vec<(String, DBSectionEntry)>, String>)
    ensures
        match spec_dbs(ds@) {
            Outcome::Built(dv) => r matches Ok(v) && dbs_view(v@) == dv,
            Outcome::Rejected(m) => r matches Err(e) && e@ == m,
        },
{
    let mut v: Vec<(String, DBSectionEntry)> = Vec::new();
    let mut i: usize = 0;
    proof {
        assert(ds@.skip(0) =~= ds@);
        assert(dbs_view(v@) =~= Seq::<(Seq<char>, DbView)>::empty());
    }
    while i < ds.len()
        invariant
            i <= ds@.len(),
            v@.len() == i,
            spec_dbs(ds@) == prepend(dbs_view(v@), spec_dbs(ds@.skip(i as int))),
        decreases ds@.len() - i,
    {
        proof {
            assert(ds@.skip(i as int)[0] == ds@[i as int]);
            assert(ds@.skip(i as int).drop_first() =~= ds@.skip(i + 1));
        }
        let entry = match build_db_entry(&ds[i]) {
            Ok(e) => e,
            Err(m) => {
                return Err(m);
            },
        };
        let ghost before = dbs_view(v@);
        let name = entry.db.clone();
        v.push((name, entry));
        proof {
            let ev = v@[i as int].1@;
            assert(dbs_view(v@) =~= before + seq![(ev.db, ev)]);
            match spec_dbs(ds@.skip(i + 1)) {
                Outcome::Built(r2) => {
                    assert(before + (seq![(ev.db, ev)] + r2) =~= dbs_view(v@) + r2);
                },
                _ => {},
            }
        }
        i += 1;
    }
    proof {
        assert(ds@.skip(i as int) =~= Seq::<DBSectionConfig>::empty());
        assert(dbs_view(v@) + Seq::<(Seq<char>, DbView)>::empty() =~= dbs_view(v@));
    }
    Ok(v)
}

/// Builds the router from the sharding schemas of the configuration. Every
/// schema, database and table is checked in order, and the first failing
/// check is the error; the configuration is refused only by
/// `ShardSchemaParameterILL`.
pub fn build_router(cfg: &Config) -> (r: Result<Arc<Router>, RouterError>)
    ensures
        match spec_schemas(cfg.schema@) {
            Outcome::Built(sv) => r matches Ok(router) && router@ == sv,
            Outcome::Rejected(m) => r matches Err(RouterError::ShardSchemaParameterILL(e)) && e@ == m,
        },
{
    let ss = &cfg.schema;
    let mut v: Vec<(String, SchemaEntry)> = Vec::new();
    let mut i: usize = 0;
    proof {
        assert(ss@.skip(0) =~= ss@);
        assert(v@.map_values(|p: (String, SchemaEntry)| (p.0@, p.1@)) =~= Seq::<(Seq<char>, SchemaView)>::empty());
    }
    while i < ss.len()
        invariant
            i <= ss@.len(),
            ss == &cfg.schema,
            v@.len() == i,
            spec_schemas(ss@) == prepend(
                v@.map_values(|p: (String, SchemaEntry)| (p.0@, p.1@)),
                spec_schemas(ss@.skip(i as int)),
            ),
        decreases ss@.len() - i,
    {
        proof {
            assert(ss@.skip(i as int)[0] == ss@[i as int]);
            assert(ss@.skip(i as int).drop_first() =~= ss@.skip(i + 1));
        }
        let schema = &ss[i];
        let db_entries = match build_dbs(&schema.db) {
            Ok(e) => e,
            Err(m) => {
                return Err(RouterError::ShardSchemaParameterILL(m));
            },
        };
        let ghost before = v@.map_values(|p: (String, SchemaEntry)| (p.0@, p.1@));
        let entry = SchemaEntry { owner: schema.owner.clone(), db_entries };
        proof {
            assert(entry@.dbs =~= dbs_view(entry.db_entries@));
        }
        v.push((schema.owner.clone(), entry));
        proof {
            let ev = v@[i as int].1@;
            assert(v@.map_values(|p: (String, SchemaEntry)| (p.0@, p.1@)) =~= before + seq![(schema.owner@, ev)]);
            match spec_schemas(ss@.skip(i + 1)) {
                Outcome::Built(r2) => {
                    assert(before + (seq![(schema.owner@, ev)] + r2) =~= v@.map_values(
                        |p: (String, SchemaEntry)| (p.0@, p.1@),
                    ) + r2);
                },
                _ => {},
            }
        }
        i += 1;
    }
    proof {
        assert(ss@.skip(i as int) =~= Seq::<DBShardSchemaConfig>::empty());
    }
    let router = Router { schema_map: v };
    proof {
        assert(router@ + Seq::<(Seq<char>, SchemaView)>::empty() =~= router@);
    }
    Ok(Arc::new(router))
}

/// Every path of the shards of cluster `idx` is among all the paths.
proof fn lemma_pair_paths_listed(table: Seq<char>, pairs: Seq<(Seq<char>, u16)>, idx: int, k: int)
    requires
        0 <= idx < pairs.len(),
        0 <= k < spec_pair_paths(table, pairs[idx]).len(),
    ensures
        spec_all_paths(table, pairs).contains(spec_pair_paths(table, pairs[idx])[k]),
    decreases pairs.len(),
{
    let prefix = spec_all_paths(table, pairs.drop_last());
    let last = spec_pair_paths(table, pairs.last());
    assert(spec_all_paths(table, pairs) == prefix + last);
    if idx == pairs.len() - 1 {
        assert((prefix + last)[prefix.len() + k] == last[k]);
    } else {
        lemma_pair_paths_listed(table, pairs.drop_last(), idx, k);
        assert(pairs.drop_last()[idx] == pairs[idx]);
        let w = choose|w: int| 0 <= w < prefix.len() && prefix[w] == spec_pair_paths(table, pairs[idx])[k];
        assert((prefix + last)[w] == prefix[w]);
    }
}

/// The path that cluster `idx` gives any shard value is among all the paths.
pub proof fn lemma_path_by_index_listed(v: TableView, idx: int, x: nat)
    requires
        0 <= idx < v.cluster_pairs.len(),
    ensures
        spec_all_paths(v.table, v.cluster_pairs).contains(spec_path_by_index(v, idx, x)),
{
    let pair = v.cluster_pairs[idx];
    if pair.1 > 1 {
        let k = (x % (pair.1 as nat)) as int;
        assert(spec_pair_paths(v.table, pair)[k] == spec_path_by_index(v, idx, x));
        lemma_pair_paths_listed(v.table, v.cluster_pairs, idx, k);
    } else {
        assert(spec_pair_paths(v.table, pair)[0] == spec_path_by_index(v, idx, x));
        lemma_pair_paths_listed(v.table, v.cluster_pairs, idx, 0);
    }
}

/// Whatever path a shard value is routed to is one of the paths that
/// `load_all_path` lists for the table.
pub proof fn lemma_routed_path_is_listed(v: TableView, s: Seq<char>)
    requires
        table_view_wf(v),
    ensures
        spec_lookup_one_path(v, s) matches RouteOutcome::Path(c, t) ==> spec_all_paths(
            v.table,
            v.cluster_pairs,
        ).contains((c, t)),
{
    let n = v.cluster_pairs.len() as int;
    if text::spec_trim(s).len() != 0 && n != 0 {
        match v.shard_type {
            ShardType::Hash => {
                let h = spec_default_hash(s);
                lemma_path_by_index_listed(v, (h as int) % n, h as nat);
            },
            ShardType::Integer => {
                if let Ok(x) = text::spec_parse_u128(s) {
                    lemma_path_by_index_listed(v, (x as int) % n, x as nat);
                }
            },
            ShardType::IntegerRange => {
                if let Ok(x) = text::spec_parse_u128(s) {
                    lemma_first_range_containing(v.integer_range, x);
                    if let Some(pos) = first_range_containing(v.integer_range, x) {
                        lemma_path_by_index_listed(v, pos, x as nat);
                    }
                }
            },
        }
    }
}

/// Hash routing: a row whose shard value hashes to `h` goes to the cluster
/// at position `h mod n` of the `n` clusters, and, where that cluster splits
/// the table in `k > 1` shards, to shard `h mod k`, else to the table
/// itself. So every cluster receives the rows of some hash: cluster `i`
/// those of hash `i`.
pub proof fn lemma_hash_route(v: TableView, h: u64)
    requires
        v.cluster_pairs.len() > 0,
    ensures
        ({
            let n = v.cluster_pairs.len() as int;
            let pair = v.cluster_pairs[(h as int) % n];
            &&& spec_route_by_hash(v, h).0 == pair.0
            &&& pair.1 > 1 ==> spec_route_by_hash(v, h).1 == v.table + "_"@ + text::spec_decimal(
                (h as nat) % (pair.1 as nat),
            )
            &&& pair.1 <= 1 ==> spec_route_by_hash(v, h).1 == v.table
        }),
        forall|i: int|
            0 <= i < v.cluster_pairs.len() && i <= u64::MAX ==> #[trigger] spec_route_by_hash(v, i as u64).0
                == v.cluster_pairs[i].0,
{
    let n = v.cluster_pairs.len() as int;
    assert forall|i: int| 0 <= i < n && i <= u64::MAX implies #[trigger] spec_route_by_hash(v, i as u64).0
        == v.cluster_pairs[i].0 by {
        assert((i as u64) as int == i);
        assert(i % n == i) by (nonlinear_arith)
            requires
                0 <= i < n,
        ;
    }
}

/// Looking up a row of a hash- or integer-sharded table with clusters: a
/// non-blank shard value goes to the cluster at position `h mod n` of the
/// `n` clusters, where `h` is the value's hash (hash sharding) or the
/// value itself (integer sharding; a value that is no decimal integer is
/// refused), and within a cluster that splits the table in `k > 1` shards
/// to shard `h mod k`.
pub proof fn lemma_lookup_modulo_route(v: TableView, s: Seq<char>)
    requires
        v.cluster_pairs.len() > 0,
        text::spec_trim(s).len() != 0,
        v.shard_type == ShardType::Hash || v.shard_type == ShardType::Integer,
    ensures
        ({
            let n = v.cluster_pairs.len() as int;
            let key: Option<nat> = if v.shard_type == ShardType::Hash {
                Some(spec_default_hash(s) as nat)
            } else {
                match text::spec_parse_u128(s) {
                    Ok(x) => Some(x as nat),
                    Err(_) => None,
                }
            };
            match key {
                Some(h) => {
                    let pair = v.cluster_pairs[(h as int) % n];
                    let table = if pair.1 > 1 {
                        v.table + "_"@ + text::spec_decimal(h % (pair.1 as nat))
                    } else {
                        v.table
                    };
                    spec_lookup_one_path(v, s) == RouteOutcome::Path(pair.0, table)
                },
                None => spec_lookup_one_path(v, s) is ShardValueIll,
            }
        }),
{
}

/// Range routing: a non-blank shard value that reads as an integer `x` goes
/// to the cluster of the first range `[start, end)` that holds `x` (and,
/// where that cluster splits the table in `k > 1` shards, to shard
/// `x mod k`); a value no range holds is refused.
pub proof fn lemma_lookup_range_route(v: TableView, s: Seq<char>, x: u128)
    requires
        table_view_wf(v),
        v.cluster_pairs.len() > 0,
        text::spec_trim(s).len() != 0,
        v.shard_type == ShardType::IntegerRange,
        text::spec_parse_u128(s) == Ok::<u128, text::IntErrorKind>(x),
    ensures
        forall|i: int|
            0 <= i < v.integer_range.len() && v.integer_range[i].0 <= x < v.integer_range[i].1 && (forall|j: int| #![trigger v.integer_range[j]]
                0 <= j < i ==> !(v.integer_range[j].0 <= x < v.integer_range[j].1)) ==> {
                let pair = #[trigger] v.cluster_pairs[i];
                let table = if pair.1 > 1 {
                    v.table + "_"@ + text::spec_decimal((x as nat) % (pair.1 as nat))
                } else {
                    v.table
                };
                spec_lookup_one_path(v, s) == RouteOutcome::Path(pair.0, table)
            },
        (forall|j: int| #![trigger v.integer_range[j]] 0 <= j < v.integer_range.len() ==> !(v.integer_range[j].0 <= x < v.integer_range[j].1))
            ==> spec_lookup_one_path(v, s) is NotInRange,
{
    lemma_first_range_containing(v.integer_range, x);
    assert forall|i: int|
        0 <= i < v.integer_range.len() && v.integer_range[i].0 <= x < v.integer_range[i].1 && (forall|j: int| #![trigger v.integer_range[j]]
            0 <= j < i ==> !(v.integer_range[j].0 <= x < v.integer_range[j].1)) implies {
        let pair = #[trigger] v.cluster_pairs[i];
        let table = if pair.1 > 1 {
            v.table + "_"@ + text::spec_decimal((x as nat) % (pair.1 as nat))
        } else {
            v.table
        };
        spec_lookup_one_path(v, s) == RouteOutcome::Path(pair.0, table)
    } by {
        match first_range_containing(v.integer_range, x) {
            Some(k) => {
                if k < i {
                    assert(!(v.integer_range[k].0 <= x < v.integer_range[k].1));
                } else if k > i {
                    assert(!(v.integer_range[i].0 <= x < v.integer_range[i].1));
                }
            },
            None => {
                assert(!(v.integer_range[i].0 <= x < v.integer_range[i].1));
            },
        }
    }
    if forall|j: int| #![trigger v.integer_range[j]] 0 <= j < v.integer_range.len() ==> !(v.integer_range[j].0 <= x < v.integer_range[j].1) {
        if let Some(k) = first_range_containing(v.integer_range, x) {
            assert(!(v.integer_range[k].0 <= x < v.integer_range[k].1));
        }
    }
}

} // verus!
