use sparrow::config::configer::{empty, DBClusterConfig, DBNodeConfig, GlobalConfig, LogLevel, ProxyUser};
use sparrow::config::shortcut::build_config_shortcut;
use sparrow::keyed::{find_first, find_last};
use sparrow::text::{is_blank, parse_u128, push_decimal, str_eq, trim, IntErrorKind};

fn node(id: &str, addr: &str) -> DBNodeConfig {
    DBNodeConfig {
        id: id.to_string(),
        listen_addr: addr.to_string(),
        user: "u".to_string(),
        pwd: "p".to_string(),
        max_conns_limit: Some(10),
    }
}

#[test]
fn log_settings() {
    let mut cfg = empty();
    assert_eq!(cfg.query_log_path(), None);
    assert_eq!(cfg.query_log_level(), None);
    for (name, level) in [(" warn ", LogLevel::Warn), ("error", LogLevel::Error), ("info", LogLevel::Info), ("debug", LogLevel::Debug), ("WARN", LogLevel::Trace), ("verbose", LogLevel::Trace)] {
        cfg.global = Some(GlobalConfig {
            log_path: Some("/var/log/sparrow.log".to_string()),
            log_level: Some(name.to_string()),
            log_slow_query_time: None,
        });
        assert_eq!(cfg.query_log_level(), Some(level));
    }
    assert_eq!(cfg.query_log_path(), Some("/var/log/sparrow.log"));
    cfg.proxy.listen_addr = "0.0.0.0:9696".to_string();
    assert_eq!(cfg.query_proxy_listen_addr(), "0.0.0.0:9696");
}

#[test]
fn user_list_is_trimmed_and_last_wins() {
    let mut cfg = empty();
    cfg.proxy.users = vec![
        ProxyUser { user: " alice ".to_string(), pwd: " one ".to_string() },
        ProxyUser { user: "bob".to_string(), pwd: "two".to_string() },
        ProxyUser { user: "alice".to_string(), pwd: "three".to_string() },
    ];
    let list = cfg.load_proxy_user_list();
    assert_eq!(list[0], ("alice".to_string(), "one".to_string()));
    let sc = build_config_shortcut(&cfg);
    let (u, p) = sc.check_proxy_user_exists("alice").unwrap();
    assert_eq!((u.as_str(), p.as_str()), ("alice", "three"));
    assert!(sc.check_proxy_user_exists("carol").is_none());
}

#[test]
fn nodes_and_clusters_by_id() {
    let mut cfg = empty();
    cfg.node = vec![node("n1", "a:1"), node("n2", "b:2"), node("n1", "c:3")];
    cfg.cluster = vec![DBClusterConfig {
        id: "c1".to_string(),
        master_node_id: "n1".to_string(),
        slave_node_ids: Some(vec!["n2".to_string()]),
    }];
    assert_eq!(cfg.load_db_node_config().len(), 3);
    assert_eq!(cfg.load_db_cluster_config()[0].0, "c1");
    let sc = build_config_shortcut(&cfg);
    assert_eq!(sc.get_db_node_config("n1").listen_addr, "c:3");
    assert_eq!(sc.get_db_cluster_config("c1").master_node_id, "n1");
    let copy = sc.get_db_node_config("n2").copy();
    assert_eq!(copy.listen_addr, "b:2");
}

#[test]
fn keyed_lookups() {
    let v = vec![("a".to_string(), 1), ("b".to_string(), 2), ("a".to_string(), 3)];
    assert_eq!(find_first(&v, "a"), Some(0));
    assert_eq!(find_last(&v, "a"), Some(2));
    assert_eq!(find_first(&v, "z"), None);
}

#[test]
fn text_helpers() {
    assert_eq!(trim("  x y \t"), "x y");
    assert!(is_blank(" \n\t"));
    assert!(!is_blank(" a "));
    assert!(str_eq("abc", "abc"));
    assert!(!str_eq("abc", "abd"));
    assert_eq!(parse_u128("0042"), Ok(42));
    assert_eq!(parse_u128("+7"), Ok(7));
    assert_eq!(parse_u128(""), Err(IntErrorKind::Empty));
    assert_eq!(parse_u128("+"), Err(IntErrorKind::InvalidDigit));
    assert_eq!(parse_u128("-1"), Err(IntErrorKind::InvalidDigit));
    assert_eq!(parse_u128("340282366920938463463374607431768211455"), Ok(u128::MAX));
    assert_eq!(parse_u128("340282366920938463463374607431768211456"), Err(IntErrorKind::PosOverflow));
    let mut s = String::from("t_");
    push_decimal(&mut s, 1234567890123);
    assert_eq!(s, "t_1234567890123");
    let mut z = String::new();
    push_decimal(&mut z, 0);
    assert_eq!(z, "0");
}
