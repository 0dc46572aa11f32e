use sparrow::config::configer::{empty, Config};
use sparrow::config::schema::{DBSectionConfig, DBShardSchemaConfig, TableSectionConfig};
use sparrow::router::decision::{build_router, ShardType};
use sparrow::router::error::RouterError;
use std::collections::hash_map::DefaultHasher;
use std::hash::{Hash, Hasher};

fn table(name: &str, key: &str, kind: &str, split: Vec<u16>, range: Option<Vec<&str>>) -> TableSectionConfig {
    TableSectionConfig {
        table: name.to_string(),
        shard_key: key.to_string(),
        shard_type: kind.to_string(),
        each_cluster_table_split_count: split,
        integer_range: range.map(|v| v.into_iter().map(|s| s.to_string()).collect()),
    }
}

fn config_with(tables: Vec<TableSectionConfig>) -> Config {
    let mut cfg = empty();
    cfg.schema = vec![DBShardSchemaConfig {
        owner: "root".to_string(),
        db: vec![DBSectionConfig {
            db: "shop".to_string(),
            cluster_ids: vec!["c1".to_string(), "c2".to_string()],
            table: tables,
        }],
    }];
    cfg
}

fn sample() -> Config {
    config_with(vec![
        table("user", "uid", "hash", vec![2, 1], None),
        table("orders", "oid", "integer", vec![1, 3], None),
        table("acct", "aid", "integer_range", vec![1, 2], Some(vec!["0", "100", "100", "200"])),
    ])
}

fn hash_of(s: &str) -> u64 {
    let mut h = DefaultHasher::new();
    s.hash(&mut h);
    h.finish()
}

#[test]
fn integer_table_routes_by_modulo() {
    let r = build_router(&sample()).unwrap();
    let db = r.lookup_db("root", "shop").unwrap();
    let t = db.lookup_table("orders").unwrap();
    assert_eq!(t.get_shard_key(), "oid");
    assert!(t.get_shard_type() == ShardType::Integer);
    let (c, name) = t.lookup_one_path("5").unwrap();
    assert_eq!(c, "c2");
    assert_eq!(name, "orders_2");
    let (c, name) = t.lookup_one_path("4").unwrap();
    assert_eq!(c, "c1");
    assert_eq!(name, "orders");
}

#[test]
fn hash_table_routes_by_default_hasher() {
    let r = build_router(&sample()).unwrap();
    let t = r.lookup_db("root", "shop").unwrap().lookup_table("user").unwrap();
    let h = hash_of("alice");
    let (c, name) = t.lookup_one_path("alice").unwrap();
    let expected_cluster = if h % 2 == 0 { "c1" } else { "c2" };
    assert_eq!(c, expected_cluster);
    if h % 2 == 0 {
        assert_eq!(name, format!("user_{}", h % 2));
    } else {
        assert_eq!(name, "user");
    }
    let (c2, name2) = t.route_by_hash(h);
    assert_eq!((c2, name2), (c, name));
}

#[test]
fn route_by_hash_exact() {
    let r = build_router(&sample()).unwrap();
    let t = r.lookup_db("root", "shop").unwrap().lookup_table("user").unwrap();
    assert_eq!(t.route_by_hash(4), ("c1", "user_0".to_string()));
    assert_eq!(t.route_by_hash(7), ("c2", "user".to_string()));
}

#[test]
fn integer_range_routes_to_first_range() {
    let r = build_router(&sample()).unwrap();
    let t = r.lookup_db("root", "shop").unwrap().lookup_table("acct").unwrap();
    assert_eq!(t.lookup_one_path("99").unwrap(), ("c1", "acct".to_string()));
    assert_eq!(t.lookup_one_path("100").unwrap(), ("c2", "acct_0".to_string()));
    assert_eq!(t.lookup_one_path("151").unwrap(), ("c2", "acct_1".to_string()));
    match t.lookup_one_path("200") {
        Err(RouterError::LookupErrNotInIntegerRange(s)) => assert_eq!(s, "\"200\" not in integer range"),
        other => panic!("unexpected {:?}", other),
    }
}

#[test]
fn lookup_rejects_blank_and_non_integers() {
    let r = build_router(&sample()).unwrap();
    let t = r.lookup_db("root", "shop").unwrap().lookup_table("orders").unwrap();
    assert!(matches!(t.lookup_one_path("  "), Err(RouterError::LookupErrShardValueEmpty)));
    match t.lookup_one_path("12a") {
        Err(RouterError::LookupErrShardValueILL(s)) => {
            assert_eq!(s, "illegal integer: ParseIntError { kind: InvalidDigit }")
        },
        other => panic!("unexpected {:?}", other),
    }
    match t.lookup_one_path("340282366920938463463374607431768211456") {
        Err(RouterError::LookupErrShardValueILL(s)) => {
            assert_eq!(s, "illegal integer: ParseIntError { kind: PosOverflow }")
        },
        other => panic!("unexpected {:?}", other),
    }
}

#[test]
fn all_paths_list_every_shard() {
    let r = build_router(&sample()).unwrap();
    let t = r.lookup_db("root", "shop").unwrap().lookup_table("orders").unwrap();
    let all = t.load_all_path().unwrap();
    let got: Vec<(String, String)> = all.iter().map(|(c, n)| (c.to_string(), n.clone())).collect();
    assert_eq!(
        got,
        vec![
            ("c1".to_string(), "orders".to_string()),
            ("c2".to_string(), "orders_0".to_string()),
            ("c2".to_string(), "orders_1".to_string()),
            ("c2".to_string(), "orders_2".to_string()),
        ]
    );
}

#[test]
fn routed_path_is_among_all_paths() {
    let r = build_router(&sample()).unwrap();
    let db = r.lookup_db("root", "shop").unwrap();
    for name in ["user", "orders", "acct"] {
        let t = db.lookup_table(name).unwrap();
        let all: Vec<(String, String)> =
            t.load_all_path().unwrap().iter().map(|(c, n)| (c.to_string(), n.clone())).collect();
        for v in ["0", "1", "5", "17", "99", "150", "bob"] {
            if let Ok((c, n)) = t.lookup_one_path(v) {
                assert!(all.contains(&(c.to_string(), n)));
            }
        }
    }
}

#[test]
fn lookups_of_unknown_names_fail() {
    let r = build_router(&sample()).unwrap();
    assert!(matches!(r.lookup_db("nobody", "shop"), Err(RouterError::LookupErrSchemaNotExit)));
    assert!(matches!(r.lookup_db("root", "other"), Err(RouterError::LookupErrDBNotExist)));
    let db = r.lookup_db("root", "shop").unwrap();
    assert!(matches!(db.lookup_table("nope"), Err(RouterError::LookupErrTableNotExist)));
    assert_eq!(db.load_cluster_ids(), &vec!["c1".to_string(), "c2".to_string()]);
}

#[test]
fn build_refuses_bad_tables() {
    let cases: Vec<(TableSectionConfig, &str)> = vec![
        (table("  ", "k", "hash", vec![1, 1], None), "table name is empty in TableSectionConfig"),
        (table("t", " ", "hash", vec![1, 1], None), "shard key is empty in TableSectionConfig"),
        (table("t", "k", "md5", vec![1, 1], None), "wrong shard type in TableSectionConfig"),
        (table("t", "k", "integer_range", vec![1, 1], None), "no integer_range  in TableSectionConfig"),
        (table("t", "k", "integer_range", vec![1, 1], Some(vec![])), " integer_range is empty in TableSectionConfig"),
        (
            table("t", "k", "integer_range", vec![1, 1], Some(vec!["0", "1"])),
            "(integer_range.len() / 2) != cluster_ids.len()  in TableSectionConfig",
        ),
        (
            table("t", "k", "integer_range", vec![1, 1], Some(vec!["5", "1", "1", "9"])),
            "Wrong case : start > end in integer_range",
        ),
        (
            table("t", "k", "integer_range", vec![1, 1], Some(vec!["x", "1", "1", "9"])),
            "Illegal integer in integer_range in TableSectionConfig",
        ),
        (
            table("t", "k", "integer_range", vec![1, 1], Some(vec!["0", "1", "2", "3", "4"])),
            "odd count of bounds in integer_range in TableSectionConfig",
        ),
        (
            table("t", "k", "hash", vec![1], None),
            "Wrong case : each_cluster_table_split_count.len() != cluster_ids.len() in TableSectionConfig",
        ),
    ];
    for (t, msg) in cases {
        match build_router(&config_with(vec![t])) {
            Err(RouterError::ShardSchemaParameterILL(s)) => assert_eq!(s, msg),
            other => panic!("unexpected {:?}", other.map(|_| ())),
        }
    }
}

#[test]
fn build_refuses_empty_sections() {
    let mut cfg = sample();
    cfg.schema[0].db[0].db = " ".to_string();
    assert!(matches!(build_router(&cfg), Err(RouterError::ShardSchemaParameterILL(s)) if s == "db name empty in DBSectionConfig"));
    let mut cfg = sample();
    cfg.schema[0].db[0].cluster_ids = vec![];
    assert!(matches!(build_router(&cfg), Err(RouterError::ShardSchemaParameterILL(s)) if s == "cluster id list empty in DBSectionConfig"));
    let mut cfg = sample();
    cfg.schema[0].db[0].table = vec![];
    assert!(matches!(build_router(&cfg), Err(RouterError::ShardSchemaParameterILL(s)) if s == "zero len table list  in TableSectionConfig"));
}

#[test]
fn router_error_texts() {
    assert_eq!(RouterError::LookupErrTableNotExist.to_text(), "RouterError::LookupErrTableNotExist");
    assert_eq!(
        RouterError::ShardSchemaParameterILL("x".to_string()).to_text(),
        "RouterError::ShardSchemaParameterILL: x"
    );
    assert!(RouterError::LookupErrDBNotExist == RouterError::LookupErrDBNotExist);
    assert!(RouterError::LookupErrDBNotExist != RouterError::LookupErrTableNotExist);
}
