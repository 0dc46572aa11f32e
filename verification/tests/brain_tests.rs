use sparrow::config::configer::DBNodeConfig;
use sparrow::router::error::ShardRouterError;
use sparrow::router::router_brain::{build_router, load_shard_router, ClusterNodesConfig, ShardConfig, ShardSchemaConfig};
use std::collections::hash_map::DefaultHasher;
use std::hash::{Hash, Hasher};

fn node(id: &str) -> DBNodeConfig {
    DBNodeConfig {
        id: id.to_string(),
        listen_addr: format!("{}:3306", id),
        user: "u".to_string(),
        pwd: "p".to_string(),
        max_conns_limit: None,
    }
}

fn cluster(id: &str, master: &str, slaves: &[&str]) -> ClusterNodesConfig {
    ClusterNodesConfig {
        id: id.to_string(),
        master_node_id: Some(master.to_string()),
        slave_node_id_list: Some(slaves.iter().map(|s| s.to_string()).collect()),
    }
}

fn schema(table: &str, kind: &str, splits: Option<Vec<u16>>, range: Option<Vec<&str>>) -> ShardSchemaConfig {
    ShardSchemaConfig {
        owner: Some("root".to_string()),
        db: Some("shop".to_string()),
        table: Some(table.to_string()),
        shard_key: Some("id".to_string()),
        shard_type: Some(kind.to_string()),
        db_cluster_id_list: Some(vec!["c1".to_string(), "c2".to_string()]),
        each_cluster_table_split_count: splits,
        integer_range: range.map(|v| v.into_iter().map(|s| s.to_string()).collect()),
    }
}

fn config(schemas: Vec<ShardSchemaConfig>) -> ShardConfig {
    ShardConfig {
        db_shard_schema_list: Some(schemas),
        db_cluster_list: vec![cluster("c1", "n1", &["n2"]), cluster("c2", "n3", &[])],
        db_node_list: vec![node("n1"), node("n2"), node("n3")],
    }
}

fn hash_of(s: &str) -> u64 {
    let mut h = DefaultHasher::new();
    s.hash(&mut h);
    h.finish()
}

#[test]
fn brain_integer_routes_by_modulo() {
    let r = build_router(&config(vec![schema("orders", "integer", Some(vec![1, 3]), None)])).unwrap();
    let (c, name) = r.find_routing_path("root", "shop", "orders", "5").unwrap();
    assert_eq!(c.id(), "c2");
    assert_eq!(c.master_node_id(), "n3");
    assert_eq!(name, "orders_2");
    let (c, name) = r.find_routing_path("root", "shop", "orders", "4").unwrap();
    assert_eq!(c.id(), "c1");
    assert_eq!(c.slave_count(), 1);
    assert_eq!(name, "orders");
    // a value that is no integer counts as 0
    let (c, name) = r.find_routing_path("root", "shop", "orders", "abc").unwrap();
    assert_eq!((c.id(), name.as_str()), ("c1", "orders"));
}

#[test]
fn brain_shard_type_ignores_case() {
    let r = build_router(&config(vec![schema("user", "  HASH ", Some(vec![2, 1]), None)])).unwrap();
    let h = hash_of("alice");
    let (c, name) = r.find_routing_path("root", "shop", "user", "alice").unwrap();
    if h % 2 == 0 {
        assert_eq!((c.id(), name), ("c1", format!("user_{}", h % 2)));
    } else {
        assert_eq!((c.id(), name.as_str()), ("c2", "user"));
    }
}

#[test]
fn brain_range_falls_back_to_first_cluster() {
    let r = build_router(&config(vec![schema(
        "acct",
        "integer_range",
        Some(vec![2, 1]),
        Some(vec!["0", "100", "100", "200"]),
    )]))
    .unwrap();
    let (c, name) = r.find_routing_path("root", "shop", "acct", "150").unwrap();
    assert_eq!((c.id(), name.as_str()), ("c2", "acct"));
    let (c, name) = r.find_routing_path("root", "shop", "acct", "7").unwrap();
    assert_eq!((c.id(), name.as_str()), ("c1", "acct_1"));
    let (c, name) = r.find_routing_path("root", "shop", "acct", "999").unwrap();
    assert_eq!((c.id(), name.as_str()), ("c1", "acct_0"));
}

#[test]
fn brain_all_paths_and_unknown_tables() {
    let r = build_router(&config(vec![schema("orders", "integer", Some(vec![1, 3]), None)])).unwrap();
    let all = r.find_all_routing_path("root", "shop", "orders").unwrap();
    let got: Vec<(String, String)> = all.iter().map(|(c, n)| (c.id().to_string(), n.clone())).collect();
    assert_eq!(
        got,
        vec![
            ("c1".to_string(), "orders".to_string()),
            ("c2".to_string(), "orders_0".to_string()),
            ("c2".to_string(), "orders_1".to_string()),
            ("c2".to_string(), "orders_2".to_string()),
        ]
    );
    for v in ["0", "1", "2", "3", "5", "x"] {
        let (c, n) = r.find_routing_path("root", "shop", "orders", v).unwrap();
        assert!(got.contains(&(c.id().to_string(), n)));
    }
    assert!(r.find_routing_path("root", "shop", "nope", "1").is_none());
    assert!(r.find_all_routing_path("guest", "shop", "orders").is_none());
}

#[test]
fn brain_build_errors() {
    let mut s = schema("t", "hash", None, None);
    s.owner = None;
    match build_router(&config(vec![s])) {
        Err(ShardRouterError::ShardSchemaParameterILL(m)) => assert_eq!(m, "There is no owner in shard schema config!"),
        other => panic!("unexpected {:?}", other.map(|_| ())),
    }
    let mut s = schema("t", "hash", None, None);
    s.table = Some("  ".to_string());
    match build_router(&config(vec![s])) {
        Err(ShardRouterError::ShardSchemaParameterILL(m)) => {
            assert_eq!(m, "There is a zero length of the table in shard schema config!")
        },
        other => panic!("unexpected {:?}", other.map(|_| ())),
    }
    match build_router(&config(vec![schema("t", "md5", None, None)])) {
        Err(ShardRouterError::ShardSchemaParameterILL(m)) => {
            assert_eq!(m, "There is a wrong shard_type string in shard schema config!")
        },
        other => panic!("unexpected {:?}", other.map(|_| ())),
    }
    let mut s = schema("t", "hash", None, None);
    s.db_cluster_id_list = Some(vec!["c9".to_string()]);
    match build_router(&config(vec![s])) {
        Err(ShardRouterError::NoClusterConfig(m)) => assert_eq!(m, "c9"),
        other => panic!("unexpected {:?}", other.map(|_| ())),
    }
    let mut cfg = config(vec![schema("t", "hash", None, None)]);
    cfg.db_node_list.pop();
    match build_router(&cfg) {
        Err(ShardRouterError::NoNodeConfig(m)) => assert_eq!(m, "n3"),
        other => panic!("unexpected {:?}", other.map(|_| ())),
    }
    match build_router(&config(vec![schema("t", "integer_range", None, Some(vec!["0", "1"]))])) {
        Err(ShardRouterError::ShardSchemaIntegerRangeILL(m)) => assert_eq!(m, "root-shop-t"),
        other => panic!("unexpected {:?}", other.map(|_| ())),
    }
    let mut cfg = config(vec![]);
    cfg.db_shard_schema_list = None;
    assert!(matches!(build_router(&cfg), Err(ShardRouterError::NoShardSchemaConfig)));
}

#[test]
fn brain_malformed_config_is_an_error() {
    // fewer split counts than clusters
    match build_router(&config(vec![schema("t", "hash", Some(vec![1]), None)])) {
        Err(ShardRouterError::ShardSchemaParameterILL(m)) => {
            assert_eq!(m, "There is a too short each_cluster_table_split_count in shard schema config!")
        },
        other => panic!("unexpected {:?}", other.map(|_| ())),
    }
    // an odd number of range bounds gives no ranges
    match load_shard_router(&config(vec![schema("t", "integer_range", None, Some(vec!["0", "1", "2", "3", "4"]))])) {
        Err(ShardRouterError::ShardSchemaIntegerRangeILL(m)) => assert_eq!(m, "root-shop-t"),
        other => panic!("unexpected {:?}", other.map(|_| ())),
    }
    assert!(load_shard_router(&config(vec![schema("t", "hash", Some(vec![1, 1]), None)])).is_ok());
}

#[test]
fn brain_later_schema_wins() {
    let r = build_router(&config(vec![
        schema("orders", "integer", Some(vec![1, 1]), None),
        schema("orders", "integer", Some(vec![1, 4]), None),
    ]))
    .unwrap();
    let (c, name) = r.find_routing_path("root", "shop", "orders", "5").unwrap();
    assert_eq!((c.id(), name.as_str()), ("c2", "orders_1"));
}
