use vstd::prelude::*;
use super::configer::{Config, DBClusterConfig, DBNodeConfig};
use crate::keyed;
use crate::text;

verus! {

/// The configuration rearranged for lookups by key: proxy users, nodes and
/// clusters. Where a key occurs twice, the later entry counts.
#[derive(Debug)]
pub struct ConfigShortcut {
    proxy_user_list: Vec<(String, String)>,
    node_list: Vec<(String, DBNodeConfig)>,
    cluster_list: Vec<(String, DBClusterConfig)>,
}

/// The last position in `keys` that holds `k`, if any.
pub open spec fn is_last_key(keys: Seq<Seq<char>>, k: Seq<char>, i: int) -> bool {
    &&& 0 <= i < keys.len()
    &&& keys[i] == k
    &&& forall|j: int| i < j < keys.len() ==> keys[j] != k
}

pub open spec fn has_key(keys: Seq<Seq<char>>, k: Seq<char>) -> bool {
    exists|i: int| 0 <= i < keys.len() && keys[i] == k
}

impl ConfigShortcut {
    pub closed spec fn user_keys(&self) -> Seq<Seq<char>> {
        self.proxy_user_list@.map_values(|p: (String, String)| p.0@)
    }

    pub closed spec fn user_pwds(&self) -> Seq<Seq<char>> {
        self.proxy_user_list@.map_values(|p: (String, String)| p.1@)
    }

    pub closed spec fn node_keys(&self) -> Seq<Seq<char>> {
        self.node_list@.map_values(|p: (String, DBNodeConfig)| p.0@)
    }

    pub closed spec fn nodes(&self) -> Seq<DBNodeConfig> {
        self.node_list@.map_values(|p: (String, DBNodeConfig)| p.1)
    }

    pub closed spec fn cluster_keys(&self) -> Seq<Seq<char>> {
        self.cluster_list@.map_values(|p: (String, DBClusterConfig)| p.0@)
    }

    pub closed spec fn clusters(&self) -> Seq<DBClusterConfig> {
        self.cluster_list@.map_values(|p: (String, DBClusterConfig)| p.1)
    }

    /// The password of the last configured user named `user`.
    pub open spec fn spec_user_pwd(&self, user: Seq<char>) -> Option<Seq<char>> {
        match keyed::last_index(self.user_keys(), user) {
            Some(i) => Some(self.user_pwds()[i]),
            None => None,
        }
    }

    /// The user and password a login as `user` is checked against: the last
    /// configured user of that name.
    pub fn check_proxy_user_exists(&self, user: &str) -> (r: Option<(&String, &String)>)
        ensures
            match r {
                Some((u, p)) => exists|i: int|
                    is_last_key(self.user_keys(), user@, i) && u@ == self.user_keys()[i] && p@
                        == self.user_pwds()[i],
                None => !has_key(self.user_keys(), user@),
            },
            match self.spec_user_pwd(user@) {
                Some(p) => r matches Some((u, q)) && u@ == user@ && q@ == p,
                None => r is None,
            },
    {
        let mut i = self.proxy_user_list.len();
        while i > 0
            invariant
                i <= self.proxy_user_list@.len(),
                forall|j: int| i <= j < self.user_keys().len() ==> self.user_keys()[j] != user@,
            decreases i,
        {
            i -= 1;
            if text::str_eq(self.proxy_user_list[i].0.as_str(), user) {
                let p = &self.proxy_user_list[i];
                proof {
                    assert(is_last_key(self.user_keys(), user@, i as int));
                    keyed::lemma_last_index_unique(self.user_keys(), user@, i as int);
                }
                return Some((&p.0, &p.1));
            }
        }
        proof {
            keyed::lemma_last_index(self.user_keys(), user@);
        }
        None
    }

    /// The configuration of cluster `id`, the last one of that id.
    pub fn get_db_cluster_config(&self, id: &str) -> (r: &DBClusterConfig)
        requires
            has_key(self.cluster_keys(), id@),
        ensures
            exists|i: int| is_last_key(self.cluster_keys(), id@, i) && *r == self.clusters()[i],
    {
        let mut i = self.cluster_list.len();
        while i > 0
            invariant
                i <= self.cluster_list@.len(),
                has_key(self.cluster_keys(), id@),
                forall|j: int| i <= j < self.cluster_keys().len() ==> self.cluster_keys()[j] != id@,
            decreases i,
        {
            i -= 1;
            if text::str_eq(self.cluster_list[i].0.as_str(), id) {
                proof {
                    assert(is_last_key(self.cluster_keys(), id@, i as int));
                    assert(self.clusters()[i as int] == self.cluster_list@[i as int].1);
                }
                return &self.cluster_list[i].1;
            }
        }
        proof {
            assert(false);
        }
        &self.cluster_list[0].1
    }

    /// The configuration of node `id`, the last one of that id.
    pub fn get_db_node_config(&self, id: &str) -> (r: &DBNodeConfig)
        requires
            has_key(self.node_keys(), id@),
        ensures
            exists|i: int| is_last_key(self.node_keys(), id@, i) && *r == self.nodes()[i],
    {
        let mut i = self.node_list.len();
        while i > 0
            invariant
                i <= self.node_list@.len(),
                has_key(self.node_keys(), id@),
                forall|j: int| i <= j < self.node_keys().len() ==> self.node_keys()[j] != id@,
            decreases i,
        {
            i -= 1;
            if text::str_eq(self.node_list[i].0.as_str(), id) {
                proof {
                    assert(is_last_key(self.node_keys(), id@, i as int));
                    assert(self.nodes()[i as int] == self.node_list@[i as int].1);
                }
                return &self.node_list[i].1;
            }
        }
        proof {
            assert(false);
        }
        &self.node_list[0].1
    }
}

/// The lookups of `cfg`: its proxy users (trimmed), nodes and clusters.
pub fn build_config_shortcut(cfg: &Config) -> (csc: ConfigShortcut)
    ensures
        csc.user_keys().len() == cfg.proxy.users@.len(),
        forall|i: int|
            0 <= i < cfg.proxy.users@.len() ==> #[trigger] csc.user_keys()[i] == text::spec_trim(
                cfg.proxy.users@[i].user@,
            ) && csc.user_pwds()[i] == text::spec_trim(cfg.proxy.users@[i].pwd@),
        csc.node_keys().len() == cfg.node@.len(),
        forall|i: int|
            0 <= i < cfg.node@.len() ==> #[trigger] csc.node_keys()[i] == cfg.node@[i].id@
                && csc.nodes()[i]@ == cfg.node@[i]@,
        csc.cluster_keys().len() == cfg.cluster@.len(),
        forall|i: int|
            0 <= i < cfg.cluster@.len() ==> #[trigger] csc.cluster_keys()[i] == cfg.cluster@[i].id@
                && csc.clusters()[i]@ == cfg.cluster@[i]@,
{
    let csc = ConfigShortcut {
        proxy_user_list: cfg.load_proxy_user_list(),
        node_list: cfg.load_db_node_config(),
        cluster_list: cfg.load_db_cluster_config(),
    };
    proof {
        assert forall|i: int| 0 <= i < cfg.proxy.users@.len() implies #[trigger] csc.user_keys()[i]
            == text::spec_trim(cfg.proxy.users@[i].user@) && csc.user_pwds()[i] == text::spec_trim(
            cfg.proxy.users@[i].pwd@,
        ) by {
            assert(csc.user_keys()[i] == csc.proxy_user_list@[i].0@);
            assert(csc.user_pwds()[i] == csc.proxy_user_list@[i].1@);
        }
        assert forall|i: int| 0 <= i < cfg.node@.len() implies #[trigger] csc.node_keys()[i]
            == cfg.node@[i].id@ && csc.nodes()[i]@ == cfg.node@[i]@ by {
            assert(csc.node_keys()[i] == csc.node_list@[i].0@);
            assert(csc.nodes()[i] == csc.node_list@[i].1);
        }
        assert forall|i: int| 0 <= i < cfg.cluster@.len() implies #[trigger] csc.cluster_keys()[i]
            == cfg.cluster@[i].id@ && csc.clusters()[i]@ == cfg.cluster@[i]@ by {
            assert(csc.cluster_keys()[i] == csc.cluster_list@[i].0@);
            assert(csc.clusters()[i] == csc.cluster_list@[i].1);
        }
    }
    csc
}

} // verus!
