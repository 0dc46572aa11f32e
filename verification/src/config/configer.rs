use vstd::prelude::*;
use super::schema::DBShardSchemaConfig;
use crate::text;

verus! {

/// Seconds after which a database node that does not answer counts as dead.
pub const DB_NODE_TIME_TO_NO_ALIVE: u64 = 1800;

/// The whole configuration file.
#[derive(Debug)]
pub struct Config {
    pub global: Option<GlobalConfig>,
    pub proxy: ProxyConfig,
    pub web: Option<WebConfig>,
    pub node: Vec<DBNodeConfig>,
    pub cluster: Vec<DBClusterConfig>,
    pub schema: Vec<DBShardSchemaConfig>,
}

#[derive(Debug)]
pub struct GlobalConfig {
    pub log_path: Option<String>,
    pub log_level: Option<String>,
    pub log_slow_query_time: Option<u64>,
}

#[derive(Debug)]
pub struct ProxyConfig {
    pub listen_addr: String,
    pub charset: Option<String>,
    pub users: Vec<ProxyUser>,
    /// `None` or zero: unlimited.
    pub time_to_no_alive: Option<u64>,
}

/// A user that may log in to the proxy.
#[derive(Debug)]
pub struct ProxyUser {
    pub user: String,
    pub pwd: String,
}

#[derive(Debug)]
pub struct WebConfig {
    pub listen_addr: String,
    pub web_user: String,
    pub web_pwd: String,
}

/// One MySQL/MariaDB server.
#[derive(Debug)]
pub struct DBNodeConfig {
    pub id: String,
    pub listen_addr: String,
    pub user: String,
    pub pwd: String,
    /// `None` or zero: unlimited.
    pub max_conns_limit: Option<u64>,
}

/// A master and its slaves.
#[derive(Debug)]
pub struct DBClusterConfig {
    pub id: String,
    pub master_node_id: String,
    pub slave_node_ids: Option<Vec<String>>,
}

/// What a node's configuration holds.
pub struct DBNodeConfigView {
    pub id: Seq<char>,
    pub listen_addr: Seq<char>,
    pub user: Seq<char>,
    pub pwd: Seq<char>,
    pub max_conns_limit: Option<u64>,
}

impl View for DBNodeConfig {
    type V = DBNodeConfigView;

    open spec fn view(&self) -> DBNodeConfigView {
        DBNodeConfigView {
            id: self.id@,
            listen_addr: self.listen_addr@,
            user: self.user@,
            pwd: self.pwd@,
            max_conns_limit: self.max_conns_limit,
        }
    }
}

impl DBNodeConfig {
    /// A copy of this node's configuration.
    pub fn copy(&self) -> (r: DBNodeConfig)
        ensures
            r@ == self@,
    {
        DBNodeConfig {
            id: self.id.clone(),
            listen_addr: self.listen_addr.clone(),
            user: self.user.clone(),
            pwd: self.pwd.clone(),
            max_conns_limit: self.max_conns_limit,
        }
    }
}

/// What a cluster's configuration holds.
pub struct DBClusterConfigView {
    pub id: Seq<char>,
    pub master_node_id: Seq<char>,
    pub slave_node_ids: Option<Seq<Seq<char>>>,
}

impl View for DBClusterConfig {
    type V = DBClusterConfigView;

    open spec fn view(&self) -> DBClusterConfigView {
        DBClusterConfigView {
            id: self.id@,
            master_node_id: self.master_node_id@,
            slave_node_ids: match self.slave_node_ids {
                Some(v) => Some(text::strings_view(v@)),
                None => None,
            },
        }
    }
}

impl DBClusterConfig {
    /// A copy of this cluster's configuration.
    pub fn copy(&self) -> (r: DBClusterConfig)
        ensures
            r@ == self@,
    {
        let slave_node_ids = match &self.slave_node_ids {
            Some(v) => {
                let c = text::copy_strings(v);
                proof {
                    assert(text::strings_view(c@) =~= text::strings_view(v@));
                }
                Some(c)
            },
            None => None,
        };
        DBClusterConfig {
            id: self.id.clone(),
            master_node_id: self.master_node_id.clone(),
            slave_node_ids,
        }
    }
}

/// The log levels of the `log` facade.
#[derive(Debug, Clone, Copy, PartialEq, Eq, Structural)]
pub enum LogLevel {
    Off,
    Error,
    Warn,
    Info,
    Debug,
    Trace,
}

/// The level a configured level name selects: the names `error`, `warn`,
/// `info` and `debug` (around whitespace), and `Trace` for anything else.
pub open spec fn spec_log_level(name: Seq<char>) -> LogLevel {
    let t = text::spec_trim(name);
    if t == "error"@ {
        LogLevel::Error
    } else if t == "warn"@ {
        LogLevel::Warn
    } else if t == "info"@ {
        LogLevel::Info
    } else if t == "debug"@ {
        LogLevel::Debug
    } else {
        LogLevel::Trace
    }
}

/// A configuration with no users, nodes, clusters or schemas.
pub fn empty() -> (c: Config)
    ensures
        c.global is None,
        c.web is None,
        c.proxy.listen_addr@.len() == 0,
        c.proxy.charset is None,
        c.proxy.users@.len() == 0,
        c.proxy.time_to_no_alive is None,
        c.node@.len() == 0,
        c.cluster@.len() == 0,
        c.schema@.len() == 0,
{
    Config {
        global: None,
        proxy: ProxyConfig {
            listen_addr: String::new(),
            charset: None,
            users: Vec::new(),
            time_to_no_alive: None,
        },
        web: None,
        node: Vec::new(),
        cluster: Vec::new(),
        schema: Vec::new(),
    }
}

impl Config {
    /// The configured log file, if any.
    pub fn query_log_path(&self) -> (r: Option<&str>)
        ensures
            match self.global {
                Some(g) => match g.log_path {
                    Some(p) => r matches Some(s) && s@ == p@,
                    None => r is None,
                },
                None => r is None,
            },
    {
        match &self.global {
            Some(g) => match &g.log_path {
                Some(p) => Some(p.as_str()),
                None => None,
            },
            None => None,
        }
    }

    /// The configured log level (error/warn/info/debug/trace), if any.
    pub fn query_log_level(&self) -> (r: Option<LogLevel>)
        ensures
            match self.global {
                Some(g) => match g.log_level {
                    Some(l) => r == Some(spec_log_level(l@)),
                    None => r is None,
                },
                None => r is None,
            },
    {
        match &self.global {
            Some(g) => match &g.log_level {
                Some(level) => {
                    let t = text::trim(level.as_str());
                    let l = if text::str_eq(t, "error") {
                        LogLevel::Error
                    } else if text::str_eq(t, "warn") {
                        LogLevel::Warn
                    } else if text::str_eq(t, "info") {
                        LogLevel::Info
                    } else if text::str_eq(t, "debug") {
                        LogLevel::Debug
                    } else {
                        LogLevel::Trace
                    };
                    Some(l)
                },
                None => None,
            },
            None => None,
        }
    }

    /// The address the proxy listens on.
    pub fn query_proxy_listen_addr(&self) -> (r: &str)
        ensures
            r@ == self.proxy.listen_addr@,
    {
        self.proxy.listen_addr.as_str()
    }

    /// The proxy users as (user, password) pairs, both trimmed, in the order
    /// of the configuration; where a user occurs twice the later pair counts.
    pub fn load_proxy_user_list(&self) -> (r: Vec<(String, String)>)
        ensures
            r@.len() == self.proxy.users@.len(),
            forall|i: int|
                0 <= i < r@.len() ==> #[trigger] r@[i].0@ == text::spec_trim(
                    self.proxy.users@[i].user@,
                ) && r@[i].1@ == text::spec_trim(self.proxy.users@[i].pwd@),
    {
        let mut r: Vec<(String, String)> = Vec::new();
        let mut i: usize = 0;
        while i < self.proxy.users.len()
            invariant
                i <= self.proxy.users@.len(),
                r@.len() == i,
                forall|j: int|
                    0 <= j < i ==> #[trigger] r@[j].0@ == text::spec_trim(
                        self.proxy.users@[j].user@,
                    ) && r@[j].1@ == text::spec_trim(self.proxy.users@[j].pwd@),
            decreases self.proxy.users@.len() - i,
        {
            let pu = &self.proxy.users[i];
            let user = text::to_string(text::trim(pu.user.as_str()));
            let pwd = text::to_string(text::trim(pu.pwd.as_str()));
            r.push((user, pwd));
            i += 1;
        }
        r
    }

    /// The clusters keyed by id, in the order of the configuration; where an
    /// id occurs twice the later cluster counts.
    pub fn load_db_cluster_config(&self) -> (r: Vec<(String, DBClusterConfig)>)
        ensures
            r@.len() == self.cluster@.len(),
            forall|i: int|
                0 <= i < r@.len() ==> #[trigger] r@[i].0@ == self.cluster@[i].id@ && r@[i].1@
                    == self.cluster@[i]@,
    {
        let mut r: Vec<(String, DBClusterConfig)> = Vec::new();
        let mut i: usize = 0;
        while i < self.cluster.len()
            invariant
                i <= self.cluster@.len(),
                r@.len() == i,
                forall|j: int|
                    0 <= j < i ==> #[trigger] r@[j].0@ == self.cluster@[j].id@ && r@[j].1@
                        == self.cluster@[j]@,
            decreases self.cluster@.len() - i,
        {
            let cc = &self.cluster[i];
            let c = cc.copy();
            r.push((cc.id.clone(), c));
            proof {
                assert(r@[i as int].1@ == self.cluster@[i as int]@);
            }
            i += 1;
        }
        r
    }

    /// The nodes keyed by id, in the order of the configuration; where an id
    /// occurs twice the later node counts.
    pub fn load_db_node_config(&self) -> (r: Vec<(String, DBNodeConfig)>)
        ensures
            r@.len() == self.node@.len(),
            forall|i: int|
                0 <= i < r@.len() ==> #[trigger] r@[i].0@ == self.node@[i].id@ && r@[i].1@
                    == self.node@[i]@,
    {
        let mut r: Vec<(String, DBNodeConfig)> = Vec::new();
        let mut i: usize = 0;
        while i < self.node.len()
            invariant
                i <= self.node@.len(),
                r@.len() == i,
                forall|j: int|
                    0 <= j < i ==> #[trigger] r@[j].0@ == self.node@[j].id@ && r@[j].1@
                        == self.node@[j]@,
            decreases self.node@.len() - i,
        {
            let nc = &self.node[i];
            r.push((nc.id.clone(), nc.copy()));
            i += 1;
        }
        r
    }
}

} // verus!
