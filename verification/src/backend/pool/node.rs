//! A database node: its pool, whether it is offline or has quit, and how it
//! is run.
use vstd::prelude::*;
use std::collections::VecDeque;
use crate::backend::error::BackendError;
use super::inner::{self, InnerLine};
use super::node_cfg::NodeCfg;

verus! {

/// A database node: its pool, its state and its configuration.
#[derive(Debug)]
pub struct NodePipeLine<C> {
    pub inner: InnerLine<C>,
    pub offline: bool,
    pub quit: bool,
    pub cfg: NodeCfg,
}

/// What a request for a connection of a node gives before anything is
/// opened: a connection, the number of connections to open for it, or an
/// error.
#[derive(Debug)]
pub enum GetConn<C> {
    Conn(C),
    Grow(u16),
    Failed(BackendError),
}

/// How many connections a node with `total` of them opens for a request,
/// where each growth is `grow` and the limit `max`: `grow` while that stays
/// within the limit, `total + grow - max` otherwise.
pub open spec fn spec_grow_count(total: u64, grow: u16, max: u64) -> u16 {
    if total + grow <= max {
        grow
    } else {
        (total + grow - max) as u16
    }
}

/// Whether the pool of `old`, and its configuration and state, are kept in
/// `new`, but for the pool's view `v`.
pub open spec fn with_line<C>(old: NodePipeLine<C>, new: NodePipeLine<C>, v: inner::InnerLineView<C>) -> bool {
    &&& new.inner@ == v
    &&& new.cfg == old.cfg
    &&& new.offline_flag() == old.offline_flag()
    &&& new.quit_flag() == old.quit_flag()
}

/// A growth that stays within the limit keeps the node within it: where
/// the node is below `max_conns_limit` and its full growth count does not
/// pass it, taking up no more connections than a request asked to open
/// (`get_conn`, then `get_conn_grown`) leaves the node's total at most
/// `max_conns_limit`.
pub proof fn lemma_grow_within_limit<C>(v: inner::InnerLineView<C>, cfg: NodeCfg, opened: Seq<C>)
    requires
        v.total_conn_count < cfg.max_conns_limit,
        v.total_conn_count + cfg.grow_count <= cfg.max_conns_limit,
        opened.len() <= spec_grow_count(v.total_conn_count, cfg.grow_count, cfg.max_conns_limit),
    ensures
        inner::taken_up(inner::touched(v), opened).total_conn_count <= cfg.max_conns_limit,
{
}

impl<C> NodePipeLine<C> {
    /// Whether the node was taken offline.
    pub open spec fn offline_flag(&self) -> bool {
        self.offline
    }

    /// Whether the node quit.
    pub open spec fn quit_flag(&self) -> bool {
        self.quit
    }

    /// A node with an empty pool, online.
    pub fn new(cfg: NodeCfg) -> (n: NodePipeLine<C>)
        ensures
            n.cfg == cfg,
            inner::line_wf(n.inner@),
            n.inner@.cache == Seq::<C>::empty(),
            n.inner@.total_conn_count == 0,
            !n.inner@.offline,
            !n.inner@.quit,
            !n.offline_flag(),
            !n.quit_flag(),
    {
        NodePipeLine { inner: InnerLine::new(), offline: false, quit: false, cfg }
    }

    /// Whether the node is offline or has quit.
    pub fn is_offline(&self) -> (r: bool)
        ensures
            r == (self.offline_flag() || self.quit_flag()),
    {
        self.offline || self.quit
    }

    /// Whether the node has quit.
    pub fn is_quit(&self) -> (r: bool)
        ensures
            r == self.quit_flag(),
    {
        self.quit
    }

    /// A connection of the node. An offline node refuses at once; a node
    /// with more idle connections than `min_conns_limit` lends the oldest;
    /// else one below `max_conns_limit` asks to open connections (see
    /// `spec_grow_count`) and then `get_conn_grown`; else the pool is empty.
    pub fn get_conn(&mut self) -> (r: GetConn<C>)
        requires
            !(old(self).offline_flag() || old(self).quit_flag()) && old(self).inner@.cache.len()
                <= old(self).cfg.min_conns_limit && old(self).inner@.total_conn_count
                < old(self).cfg.max_conns_limit ==> old(self).inner@.total_conn_count + old(
                self,
            ).cfg.grow_count <= u64::MAX,
        ensures
            inner::line_wf(old(self).inner@) ==> inner::line_wf(final(self).inner@),
            old(self).offline_flag() || old(self).quit_flag() ==> (r matches GetConn::Failed(
                BackendError::InnerErrOfflineOrQuit,
            ) && with_line(*old(self), *final(self), old(self).inner@)),
            !(old(self).offline_flag() || old(self).quit_flag()) ==> {
                let t = inner::touched(old(self).inner@);
                if old(self).inner@.cache.len() > old(self).cfg.min_conns_limit {
                    r matches GetConn::Conn(c) && c == old(self).inner@.cache[0] && with_line(
                        *old(self),
                        *final(self),
                        inner::InnerLineView { cache: t.cache.drop_first(), ..t },
                    )
                } else if old(self).inner@.total_conn_count < old(self).cfg.max_conns_limit {
                    r matches GetConn::Grow(n) && n == spec_grow_count(
                        old(self).inner@.total_conn_count,
                        old(self).cfg.grow_count,
                        old(self).cfg.max_conns_limit,
                    ) && with_line(*old(self), *final(self), t)
                } else {
                    r matches GetConn::Failed(BackendError::InnerErrPipeEmpty) && with_line(
                        *old(self),
                        *final(self),
                        t,
                    )
                }
            },
    {
        if self.is_offline() {
            return GetConn::Failed(BackendError::InnerErrOfflineOrQuit);
        }
        self.inner.update_time_stamp();
        if self.inner.cache_size() as u64 > self.cfg.min_conns_limit as u64 {
            match self.inner.lend_conn() {
                Ok(c) => GetConn::Conn(c),
                Err(e) => GetConn::Failed(e),
            }
        } else if self.inner.total_conn_count() < self.cfg.max_conns_limit {
            let total = self.inner.total_conn_count();
            let grow = self.cfg.grow_count;
            let max = self.cfg.max_conns_limit;
            let grow_c = if total + grow as u64 <= max {
                grow
            } else {
                (total + grow as u64 - max) as u16
            };
            GetConn::Grow(grow_c)
        } else {
            GetConn::Failed(BackendError::InnerErrPipeEmpty)
        }
    }

    /// Takes up the connections opened for a request and lends the oldest
    /// idle connection (see `InnerLine::lend_grown`).
    pub fn get_conn_grown(&mut self, conns: &mut VecDeque<C>) -> (r: Result<C, BackendError>)
        requires
            old(self).inner@.total_conn_count + old(conns)@.len() <= u64::MAX,
        ensures
            inner::line_wf(old(self).inner@) ==> inner::line_wf(final(self).inner@),
            final(conns)@ == Seq::<C>::empty(),
            ({
                let t = inner::taken_up(old(self).inner@, old(conns)@);
                if t.cache.len() > 0 {
                    r matches Ok(c) && c == t.cache[0] && with_line(
                        *old(self),
                        *final(self),
                        inner::InnerLineView { cache: t.cache.drop_first(), ..t },
                    )
                } else {
                    r matches Err(BackendError::InnerErrPipeEmpty) && with_line(*old(self), *final(self), t)
                }
            }),
    {
        self.inner.lend_grown(conns)
    }

    /// Takes back a lent connection: closed where the node is offline, else
    /// idle again, and the oldest idle one closed where the idle ones
    /// exceed `max_conns_limit`.
    pub fn recycle(&mut self, conn: C, retired: &mut Vec<C>)
        requires
            old(self).offline_flag() || old(self).quit_flag() ==> old(self).inner@.total_conn_count >= 1,
            !(old(self).offline_flag() || old(self).quit_flag()) && old(self).inner@.cache.len() + 1 > old(
                self,
            ).cfg.max_conns_limit ==> old(self).inner@.total_conn_count >= 1,
        ensures
            old(self).offline_flag() || old(self).quit_flag() ==> with_line(
                *old(self),
                *final(self),
                inner::InnerLineView {
                    total_conn_count: (old(self).inner@.total_conn_count - 1) as u64,
                    ..old(self).inner@
                },
            ) && final(retired)@ == old(retired)@.push(conn),
            !(old(self).offline_flag() || old(self).quit_flag()) ==> {
                let b = inner::InnerLineView { cache: old(self).inner@.cache.push(conn), ..old(self).inner@ };
                if b.cache.len() > old(self).cfg.max_conns_limit {
                    with_line(*old(self), *final(self), inner::eliminated(b, 1)) && final(retired)@ == old(
                        retired,
                    )@ + inner::eliminated_conns(b, 1)
                } else {
                    with_line(*old(self), *final(self), b) && final(retired)@ == old(retired)@
                }
            },
    {
        if self.is_offline() {
            self.inner.discard(conn, retired);
            return;
        }
        self.inner.send_back(conn);
        if self.inner.cache_size() as u64 > self.cfg.max_conns_limit {
            let _ = self.inner.eliminate(1, retired);
        }
    }

    /// How many connections to open to bring the node back: an error once
    /// it has quit, `min_conns_limit` while it is offline, none while it is
    /// online.
    pub fn reonline_ready(&self) -> (r: Result<u16, BackendError>)
        ensures
            self.quit_flag() ==> r matches Err(BackendError::InnerErrOfflineOrQuit),
            !self.quit_flag() && self.offline_flag() ==> r == Ok::<u16, BackendError>(self.cfg.min_conns_limit),
            !self.quit_flag() && !self.offline_flag() ==> r == Ok::<u16, BackendError>(0),
    {
        if self.is_quit() {
            return Err(BackendError::InnerErrOfflineOrQuit);
        }
        if self.is_offline() {
            Ok(self.cfg.min_conns_limit)
        } else {
            Ok(0)
        }
    }

    /// Brings an offline node back online with the connections `conns`
    /// opened to it, which replace its idle ones: how many they are. Once it
    /// has quit: `InnerErrOfflineOrQuit`; an online node: `0`, nothing
    /// changes; no connection opened: `PoolErrConnGrowFailed`, the node stays
    /// offline.
    pub fn reonline(&mut self, conns: &mut VecDeque<C>, retired: &mut Vec<C>) -> (r: Result<usize, BackendError>)
        requires
            !old(self).quit_flag() && old(self).offline_flag() && old(conns)@.len() > 0 ==> inner::line_wf(
                old(self).inner@,
            ) && old(self).inner@.total_conn_count - old(self).inner@.cache.len() + old(conns)@.len()
                <= u64::MAX,
        ensures
            final(self).cfg == old(self).cfg,
            final(self).quit_flag() == old(self).quit_flag(),
            inner::line_wf(old(self).inner@) ==> inner::line_wf(final(self).inner@),
            old(self).quit_flag() ==> r matches Err(BackendError::InnerErrOfflineOrQuit),
            !old(self).quit_flag() && !old(self).offline_flag() ==> r == Ok::<usize, BackendError>(0),
            !old(self).quit_flag() && old(self).offline_flag() && old(conns)@.len() == 0 ==> (r matches Err(
                BackendError::PoolErrConnGrowFailed(s),
            ) && s@ == old(self).cfg.node_id@),
            !old(self).quit_flag() && old(self).offline_flag() && old(conns)@.len() > 0 ==> r
                == Ok::<usize, BackendError>(old(conns)@.len() as usize) && !final(self).offline_flag()
                && final(self).inner@ == inner::taken_up(
                inner::eliminated(inner::touched(old(self).inner@), old(self).inner@.cache.len()),
                old(conns)@,
            ) && final(conns)@ == Seq::<C>::empty() && final(retired)@ == old(retired)@ + old(
                self,
            ).inner@.cache,
            !(!old(self).quit_flag() && old(self).offline_flag() && old(conns)@.len() > 0) ==> with_line(
                *old(self),
                *final(self),
                old(self).inner@,
            ) && final(conns)@ == old(conns)@ && final(retired)@ == old(retired)@,
    {
        if self.is_quit() {
            return Err(BackendError::InnerErrOfflineOrQuit);
        }
        if !self.is_offline() {
            return Ok(0);
        }
        let l_size = conns.len();
        if l_size == 0 {
            return Err(BackendError::PoolErrConnGrowFailed(self.cfg.node_id.clone()));
        }
        self.inner.update_time_stamp();
        let _ = self.inner.clean_cache(retired);
        self.inner.takeup_batch(conns);
        self.offline = false;
        Ok(l_size)
    }

    /// Takes the node offline and closes its idle connections: how many.
    pub fn offline(&mut self, retired: &mut Vec<C>) -> (r: Result<usize, BackendError>)
        requires
            inner::line_wf(old(self).inner@),
        ensures
            final(self).cfg == old(self).cfg,
            final(self).offline_flag(),
            final(self).quit_flag() == old(self).quit_flag(),
            inner::line_wf(final(self).inner@),
            final(self).inner@ == inner::eliminated(old(self).inner@, old(self).inner@.cache.len()),
            final(retired)@ == old(retired)@ + old(self).inner@.cache,
            r == Ok::<usize, BackendError>(old(self).inner@.cache.len() as usize),
    {
        self.offline = true;
        self.inner.clean_cache(retired)
    }

    /// Shuts the node down: it quits, goes offline, and its idle
    /// connections are closed: how many.
    pub fn quit(&mut self, retired: &mut Vec<C>) -> (r: Result<usize, BackendError>)
        requires
            inner::line_wf(old(self).inner@),
        ensures
            final(self).cfg == old(self).cfg,
            final(self).offline_flag(),
            final(self).quit_flag(),
            inner::line_wf(final(self).inner@),
            final(self).inner@ == inner::eliminated(old(self).inner@, old(self).inner@.cache.len()),
            final(retired)@ == old(retired)@ + old(self).inner@.cache,
            r == Ok::<usize, BackendError>(old(self).inner@.cache.len() as usize),
    {
        self.quit = true;
        self.offline = true;
        self.inner.clean_cache(retired)
    }
}

} // verus!
