use sparrow::backend::error::BackendError;
use sparrow::backend::pool::checker::{discard, shrink_or_quit_check, takeup, HealthAction, HealthCheck, HealthEvent};
use sparrow::backend::pool::inner::{InnerLine, Lend};
use sparrow::backend::pool::node::{GetConn, NodePipeLine};
use sparrow::backend::pool::node_cfg::NodeCfg;
use sparrow::backend::pool::P2MConnPool;
use std::collections::VecDeque;

fn cfg(id: &str, max: u64, min: u16, pings: u8, reconnects: u8) -> NodeCfg {
    NodeCfg {
        mysql_user: "u".to_string(),
        mysql_pwd: "p".to_string(),
        mysql_addr: "127.0.0.1:3306".to_string(),
        cluster_id: "c1".to_string(),
        node_id: id.to_string(),
        max_conns_limit: max,
        min_conns_limit: min,
        grow_count: 2,
        shrink_count: 1,
        idle_time_to_shrink: 1800,
        time_to_check_interval: 60,
        ping_retry_count: pings,
        ping_retry_interval: 5,
        reconnect_retry_count: reconnects,
        reconnect_retry_interval: 10,
    }
}

#[test]
fn lend_grows_then_lends_in_order() {
    let mut l: InnerLine<u32> = InnerLine::new();
    assert!(matches!(l.lend_with(3), Lend::Grow));
    let mut grown: VecDeque<u32> = VecDeque::from(vec![1, 2]);
    assert_eq!(l.lend_grown(&mut grown).unwrap(), 1);
    assert!(grown.is_empty());
    assert_eq!(l.total_conn_count(), 2);
    assert!(matches!(l.lend_with(3), Lend::Conn(2)));
    assert!(matches!(l.lend_with(2), Lend::Failed(BackendError::InnerErrPipeEmpty)));
    let mut none: VecDeque<u32> = VecDeque::new();
    assert!(matches!(l.lend_grown(&mut none), Err(BackendError::InnerErrPipeEmpty)));
}

#[test]
fn recycle_keeps_the_limit() {
    let mut l: InnerLine<u32> = InnerLine::new();
    let mut retired = Vec::new();
    let mut grown: VecDeque<u32> = VecDeque::from(vec![1, 2, 3]);
    l.takeup_batch(&mut grown);
    let a = match l.lend_with(10) {
        Lend::Conn(c) => c,
        _ => panic!("no conn"),
    };
    assert_eq!(a, 1);
    l.recycle(2, a, &mut retired);
    // three counted, limit two: the oldest idle one is closed
    assert_eq!(retired, vec![2]);
    assert_eq!(l.total_conn_count(), 2);
    assert_eq!(l.cache_size(), 2);
}

#[test]
fn offline_pool_refuses_and_closes() {
    let mut l: InnerLine<u32> = InnerLine::new();
    let mut retired = Vec::new();
    let mut grown: VecDeque<u32> = VecDeque::from(vec![1, 2]);
    l.takeup_batch(&mut grown);
    assert!(matches!(l.offline_where(2, &mut retired), Err(BackendError::InnerErrGreaterThenMaxConnCount)));
    assert_eq!(l.offline(&mut retired).unwrap(), 2);
    assert_eq!(retired, vec![1, 2]);
    assert_eq!(l.total_conn_count(), 0);
    assert!(matches!(l.lend_with(5), Lend::Failed(BackendError::InnerErrOfflineOrQuit)));
    l.takeup(5, 9, &mut retired);
    assert_eq!(retired, vec![1, 2, 9]);
    assert!(l.is_offline());
}

#[test]
fn reonline_needs_offline_and_connections() {
    let mut l: InnerLine<u32> = InnerLine::new();
    let mut retired = Vec::new();
    let mut conns: VecDeque<u32> = VecDeque::from(vec![5]);
    match l.reonline_with("n1", &mut conns, &mut retired) {
        Err(BackendError::PoolErrConnGrowGiveup(s)) => assert_eq!(s, "n1"),
        other => panic!("unexpected {:?}", other),
    }
    assert_eq!(conns.len(), 1);
    l.offline(&mut retired).unwrap();
    let mut empty: VecDeque<u32> = VecDeque::new();
    assert!(matches!(l.reonline_with("n1", &mut empty, &mut retired), Err(BackendError::PoolErrConnGrowFailed(_))));
    assert!(l.reonline_ready("n1").is_ok());
    assert!(l.reonline_with("n1", &mut conns, &mut retired).is_ok());
    assert_eq!(l.cache_size(), 1);
    assert_eq!(l.total_conn_count(), 1);
    l.quit(&mut retired).unwrap();
    assert!(l.is_quit());
    assert!(matches!(l.reonline_ready("n1"), Err(BackendError::InnerErrOfflineOrQuit)));
}

#[test]
fn shrink_keeps_the_minimum() {
    let mut l: InnerLine<u32> = InnerLine::new();
    let mut retired = Vec::new();
    let mut grown: VecDeque<u32> = VecDeque::from(vec![1, 2, 3]);
    l.takeup_batch(&mut grown);
    l.shrink(0, 3, 2, &mut retired);
    assert!(retired.is_empty());
    l.shrink(0, 2, 2, &mut retired);
    assert_eq!(retired, vec![1, 2]);
    assert_eq!(l.total_conn_count(), 1);
    let c = match l.lend_with(9) {
        Lend::Conn(c) => c,
        _ => panic!("no conn"),
    };
    l.discard(c, &mut retired);
    assert_eq!(l.total_conn_count(), 0);
    assert_eq!(l.clean_cache(&mut retired).unwrap(), 0);
}

#[test]
fn node_lends_above_the_minimum_and_grows_below_the_limit() {
    let mut n: NodePipeLine<u32> = NodePipeLine::new(cfg("n1", 3, 1, 1, 1));
    let mut retired = Vec::new();
    // nothing idle, none counted: the full growth fits under the limit
    assert!(matches!(n.get_conn(), GetConn::Grow(2)));
    let mut grown: VecDeque<u32> = VecDeque::from(vec![1, 2]);
    assert_eq!(n.get_conn_grown(&mut grown).unwrap(), 1);
    // one idle, no more than the minimum: grow by what the formula gives
    assert!(matches!(n.get_conn(), GetConn::Grow(1)));
    let mut grown: VecDeque<u32> = VecDeque::from(vec![3]);
    assert_eq!(n.get_conn_grown(&mut grown).unwrap(), 2);
    assert_eq!(n.inner.total_conn_count(), 3);
    // at the limit with no more than the minimum idle: fails at once
    assert!(matches!(n.get_conn(), GetConn::Failed(BackendError::InnerErrPipeEmpty)));
    n.recycle(1, &mut retired);
    assert!(retired.is_empty());
    // two idle, above the minimum: the oldest is lent
    assert!(matches!(n.get_conn(), GetConn::Conn(3)));
    assert_eq!(n.inner.cache_size(), 1);
}

#[test]
fn node_recycle_trims_one_over_the_limit() {
    let mut n: NodePipeLine<u32> = NodePipeLine::new(cfg("n1", 1, 0, 1, 1));
    let mut retired = Vec::new();
    let mut grown: VecDeque<u32> = VecDeque::from(vec![1, 2, 3]);
    n.inner.takeup_batch(&mut grown);
    assert!(matches!(n.get_conn(), GetConn::Conn(1)));
    n.recycle(1, &mut retired);
    assert_eq!(retired, vec![2]);
    assert_eq!(n.inner.cache_size(), 2);
    assert_eq!(n.inner.total_conn_count(), 2);
    assert_eq!(n.offline(&mut retired).unwrap(), 2);
    assert_eq!(retired, vec![2, 3, 1]);
    let mut grown: VecDeque<u32> = VecDeque::from(vec![4]);
    n.inner.takeup_batch(&mut grown);
    n.recycle(4, &mut retired);
    assert_eq!(retired, vec![2, 3, 1, 4]);
}

#[test]
fn node_comes_back_online() {
    let mut n: NodePipeLine<u32> = NodePipeLine::new(cfg("n1", 10, 2, 1, 1));
    let mut retired = Vec::new();
    let mut conns: VecDeque<u32> = VecDeque::from(vec![5]);
    assert_eq!(n.reonline_ready().unwrap(), 0);
    assert_eq!(n.reonline(&mut conns, &mut retired).unwrap(), 0);
    assert_eq!(conns.len(), 1);
    n.offline(&mut retired).unwrap();
    assert!(n.is_offline());
    assert!(matches!(n.get_conn(), GetConn::Failed(BackendError::InnerErrOfflineOrQuit)));
    assert_eq!(n.reonline_ready().unwrap(), 2);
    let mut none: VecDeque<u32> = VecDeque::new();
    match n.reonline(&mut none, &mut retired) {
        Err(BackendError::PoolErrConnGrowFailed(s)) => assert_eq!(s, "n1"),
        other => panic!("unexpected {:?}", other),
    }
    assert!(n.is_offline());
    let mut conns: VecDeque<u32> = VecDeque::from(vec![5, 6]);
    assert_eq!(n.reonline(&mut conns, &mut retired).unwrap(), 2);
    assert!(conns.is_empty());
    assert!(!n.is_offline());
    assert_eq!(n.inner.cache_size(), 2);
    assert_eq!(n.inner.total_conn_count(), 2);
    assert!(matches!(n.get_conn(), GetConn::Grow(2)));
    assert_eq!(n.quit(&mut retired).unwrap(), 2);
    assert!(n.is_quit());
    assert!(matches!(n.reonline_ready(), Err(BackendError::InnerErrOfflineOrQuit)));
    let mut conns: VecDeque<u32> = VecDeque::from(vec![7]);
    assert!(matches!(n.reonline(&mut conns, &mut retired), Err(BackendError::InnerErrOfflineOrQuit)));
    assert!(shrink_or_quit_check(&mut n, &mut retired));
}

#[test]
fn checker_takes_up_and_discards() {
    let mut n: NodePipeLine<u32> = NodePipeLine::new(cfg("n1", 1, 0, 1, 1));
    let mut retired = Vec::new();
    takeup(&mut n, 1, &mut retired);
    takeup(&mut n, 2, &mut retired);
    assert_eq!(retired, vec![1]);
    assert_eq!(n.inner.total_conn_count(), 1);
    assert!(matches!(n.get_conn(), GetConn::Conn(2)));
    discard(&mut n, 2, &mut retired);
    assert_eq!(n.inner.total_conn_count(), 0);
    assert_eq!(n.offline(&mut retired).unwrap(), 0);
    takeup(&mut n, 3, &mut retired);
    assert_eq!(retired, vec![1, 2, 3]);
    assert_eq!(n.inner.total_conn_count(), 0);
}

#[test]
fn shrink_check_closes_idle_connections() {
    let mut n: NodePipeLine<u32> = NodePipeLine::new(cfg("n1", 10, 1, 1, 1));
    let mut retired = Vec::new();
    let mut grown: VecDeque<u32> = VecDeque::from(vec![1, 2, 3]);
    n.inner.takeup_batch(&mut grown);
    assert!(!shrink_or_quit_check(&mut n, &mut retired));
    assert_eq!(retired, vec![1]);
    assert_eq!(n.inner.cache_size(), 2);
    assert_eq!(n.inner.total_conn_count(), 2);
}

fn run(h: &mut HealthCheck, events: &[HealthEvent]) -> Vec<HealthAction> {
    events.iter().map(|e| h.step(*e)).collect()
}

#[test]
fn health_check_answered_ping() {
    let mut h = HealthCheck::new(&cfg("n1", 10, 1, 3, 2));
    let acts = run(&mut h, &[HealthEvent::Begin, HealthEvent::Quit(false), HealthEvent::GotConn(true), HealthEvent::Pinged(false), HealthEvent::Slept, HealthEvent::Pinged(true)]);
    assert_eq!(
        acts,
        vec![
            HealthAction::CheckQuit,
            HealthAction::GetConn,
            HealthAction::Ping,
            HealthAction::Sleep(5),
            HealthAction::Ping,
            HealthAction::RecycleAndReonline,
        ]
    );
    assert_eq!(h.step(HealthEvent::Slept), HealthAction::Stop);
}

#[test]
fn health_check_gives_up_and_goes_offline() {
    let mut h = HealthCheck::new(&cfg("n1", 10, 1, 2, 2));
    let acts = run(
        &mut h,
        &[
            HealthEvent::Begin,
            HealthEvent::Quit(false),
            HealthEvent::GotConn(true),
            HealthEvent::Pinged(false),
            HealthEvent::Slept,
            HealthEvent::Pinged(false),
            HealthEvent::Slept,
            HealthEvent::Discarded,
            HealthEvent::Connected(false),
            HealthEvent::Slept,
            HealthEvent::Connected(false),
            HealthEvent::Slept,
        ],
    );
    assert_eq!(
        acts,
        vec![
            HealthAction::CheckQuit,
            HealthAction::GetConn,
            HealthAction::Ping,
            HealthAction::Sleep(5),
            HealthAction::Ping,
            HealthAction::Sleep(5),
            HealthAction::Discard,
            HealthAction::Connect,
            HealthAction::Sleep(10),
            HealthAction::Connect,
            HealthAction::Sleep(10),
            HealthAction::Offline,
        ]
    );
    assert_eq!(acts.len(), 12);
}

#[test]
fn health_check_reconnects_or_stops() {
    let mut h = HealthCheck::new(&cfg("n1", 10, 1, 2, 2));
    let acts = run(&mut h, &[HealthEvent::Begin, HealthEvent::Quit(false), HealthEvent::GotConn(false), HealthEvent::Connected(true)]);
    assert_eq!(acts, vec![HealthAction::CheckQuit, HealthAction::GetConn, HealthAction::Connect, HealthAction::ReonlineAndTakeup]);
    let mut h = HealthCheck::new(&cfg("n1", 10, 1, 2, 2));
    assert_eq!(run(&mut h, &[HealthEvent::Begin, HealthEvent::Quit(true)]), vec![HealthAction::CheckQuit, HealthAction::Stop]);
    let mut h = HealthCheck::new(&cfg("n1", 10, 1, 0, 0));
    assert_eq!(
        run(&mut h, &[HealthEvent::Begin, HealthEvent::Quit(false), HealthEvent::GotConn(true), HealthEvent::Discarded]),
        vec![HealthAction::CheckQuit, HealthAction::GetConn, HealthAction::Discard, HealthAction::Offline]
    );
    let mut h = HealthCheck::new(&cfg("n1", 10, 1, 0, 0));
    assert_eq!(h.step(HealthEvent::Slept), HealthAction::Stop);
}

#[test]
fn pool_picks_the_master() {
    let pool: P2MConnPool<&str> = P2MConnPool::new(
        vec![("n1".to_string(), "pool of n1"), ("n2".to_string(), "pool of n2")],
        vec![("c1".to_string(), vec!["n1".to_string(), "n2".to_string()]), ("c2".to_string(), vec!["n9".to_string()])],
    );
    assert_eq!(*pool.pick_node("c1", false).unwrap(), "pool of n1");
    assert_eq!(*pool.pick_node("c1", true).unwrap(), "pool of n1");
    match pool.pick_node("c2", false) {
        Err(BackendError::PoolErrNodeNotFound(s)) => assert_eq!(s, "n9"),
        other => panic!("unexpected {:?}", other),
    }
    match pool.pick_node("c3", false) {
        Err(BackendError::PoolErrClusterIdNotFound(s)) => assert_eq!(s, "c3"),
        other => panic!("unexpected {:?}", other),
    }
    assert_eq!(*pool.node("n2").unwrap(), "pool of n2");
    assert_eq!(pool.node_list().len(), 2);
}

#[test]
fn backend_error_texts() {
    assert_eq!(BackendError::InnerErrPipeEmpty.to_text(), "node conn pipe is empty!");
    assert_eq!(BackendError::PoolErrNodeNotFound("n1".to_string()).to_text(), "node_id not exist: n1");
}
