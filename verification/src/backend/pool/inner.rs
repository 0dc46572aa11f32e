//! The pool of one node: idle connections, first in first out, and a count
//! of every connection it opened that is still alive, idle or lent out.
//! Connections the pool gives up are handed to the caller in `retired`, to
//! be closed there.
use vstd::prelude::*;
use std::collections::VecDeque;
use crate::backend::error::BackendError;

verus! {

broadcast use vstd::std_specs::vecdeque::group_vec_dequeue_axioms;

/// The pool of one node.
#[derive(Debug)]
pub struct InnerLine<C> {
    cache: VecDeque<C>,
    recent_request_time: u64,
    total_conn_count: u64,
    offline: bool,
    quit: bool,
}

/// What the pool of a node holds.
pub struct InnerLineView<C> {
    pub cache: Seq<C>,
    pub recent_request_time: u64,
    pub total_conn_count: u64,
    pub offline: bool,
    pub quit: bool,
}

impl<C> View for InnerLine<C> {
    type V = InnerLineView<C>;

    closed spec fn view(&self) -> InnerLineView<C> {
        InnerLineView {
            cache: self.cache@,
            recent_request_time: self.recent_request_time,
            total_conn_count: self.total_conn_count,
            offline: self.offline,
            quit: self.quit,
        }
    }
}

/// The idle connections are among those counted.
pub open spec fn line_wf<C>(v: InnerLineView<C>) -> bool {
    v.cache.len() <= v.total_conn_count
}

/// How many idle connections closing `count` of them closes.
pub open spec fn closing<C>(v: InnerLineView<C>, count: nat) -> nat {
    if count <= v.cache.len() {
        count
    } else {
        v.cache.len()
    }
}

/// The pool after closing `count` idle connections, the oldest first, or
/// every one where there are fewer.
pub open spec fn eliminated<C>(v: InnerLineView<C>, count: nat) -> InnerLineView<C> {
    InnerLineView {
        cache: v.cache.skip(closing(v, count) as int),
        total_conn_count: (v.total_conn_count - closing(v, count)) as u64,
        ..v
    }
}

/// The connections that closing `count` idle connections gives up.
pub open spec fn eliminated_conns<C>(v: InnerLineView<C>, count: nat) -> Seq<C> {
    v.cache.take(closing(v, count) as int)
}

/// Closing idle connections loses none and keeps their order: the closed
/// ones, then those left idle, are the idle ones before; the count drops by
/// as many as were closed.
pub proof fn lemma_eliminate_conserves<C>(v: InnerLineView<C>, count: nat)
    requires
        line_wf(v),
    ensures
        eliminated_conns(v, count) + eliminated(v, count).cache == v.cache,
        eliminated(v, count).total_conn_count + eliminated_conns(v, count).len() == v.total_conn_count,
        line_wf(eliminated(v, count)),
{
    let k = closing(v, count) as int;
    assert(v.cache.take(k) + v.cache.skip(k) =~= v.cache);
}

/// The pool with the time of its last request reset.
pub open spec fn touched<C>(v: InnerLineView<C>) -> InnerLineView<C> {
    InnerLineView { recent_request_time: 0, ..v }
}

/// The pool with `conns` taken up as idle connections.
pub open spec fn taken_up<C>(v: InnerLineView<C>, conns: Seq<C>) -> InnerLineView<C> {
    InnerLineView {
        cache: v.cache + conns,
        total_conn_count: (v.total_conn_count + conns.len()) as u64,
        ..v
    }
}

/// The pool after it takes up `conn` under the limit `max`: the oldest idle
/// connections beyond the limit closed.
pub open spec fn after_takeup<C>(v: InnerLineView<C>, max: u64, conn: C) -> InnerLineView<C> {
    let b = taken_up(v, seq![conn]);
    if b.total_conn_count > max {
        eliminated(b, (b.total_conn_count - max) as nat)
    } else {
        b
    }
}

/// Taking up a newly opened connection keeps a pool that was within its
/// limit within it: the connection taken up beyond the limit is made up
/// for by closing the oldest idle one.
pub proof fn lemma_takeup_within_limit<C>(v: InnerLineView<C>, max: u64, conn: C)
    requires
        v.total_conn_count <= max,
        v.total_conn_count < u64::MAX,
    ensures
        after_takeup(v, max, conn).total_conn_count <= max,
{
}

/// What a request for a connection gives before anything is opened: a
/// connection, the need to open more, or an error.
#[derive(Debug)]
pub enum Lend<C> {
    Conn(C),
    Grow,
    Failed(BackendError),
}

impl<C> InnerLine<C> {
    /// An empty pool, online.
    pub fn new() -> (l: InnerLine<C>)
        ensures
            line_wf(l@),
            l@.cache == Seq::<C>::empty(),
            l@.recent_request_time == 0,
            l@.total_conn_count == 0,
            !l@.offline,
            !l@.quit,
    {
        InnerLine { cache: VecDeque::new(), recent_request_time: 0, total_conn_count: 0, offline: false, quit: false }
    }

    /// Records a request.
    pub fn update_time_stamp(&mut self)
        ensures
            final(self)@ == touched(old(self)@),
    {
        self.recent_request_time = 0;
    }

    pub fn is_offline(&self) -> (r: bool)
        ensures
            r == self@.offline,
    {
        self.offline
    }

    pub fn is_quit(&self) -> (r: bool)
        ensures
            r == self@.quit,
    {
        self.quit
    }

    /// How many connections the pool counts.
    pub fn total_conn_count(&self) -> (r: u64)
        ensures
            r == self@.total_conn_count,
    {
        self.total_conn_count
    }

    /// How many connections are idle.
    pub fn cache_size(&self) -> (r: usize)
        ensures
            r == self@.cache.len(),
    {
        self.cache.len()
    }

    /// Closes up to `count` idle connections, the oldest first: `count`, or
    /// `InnerErrPipeEmpty` where there were fewer (all of them are closed).
    pub fn eliminate(&mut self, count: u64, retired: &mut Vec<C>) -> (r: Result<u64, BackendError>)
        requires
            closing(old(self)@, count as nat) <= old(self)@.total_conn_count,
        ensures
            final(self)@ == eliminated(old(self)@, count as nat),
            final(retired)@ == old(retired)@ + eliminated_conns(old(self)@, count as nat),
            count <= old(self)@.cache.len() ==> (r matches Ok(n) && n == count),
            count > old(self)@.cache.len() ==> r matches Err(BackendError::InnerErrPipeEmpty),
    {
        let ghost v0 = self@;
        let ghost r0 = retired@;
        let mut i: u64 = 0;
        proof {
            assert(v0.cache.skip(0) =~= v0.cache);
            assert(r0 + v0.cache.take(0) =~= r0);
        }
        while i < count
            invariant
                i <= count,
                i <= v0.cache.len(),
                v0 == old(self)@,
                r0 == old(retired)@,
                closing(v0, count as nat) <= v0.total_conn_count,
                self@ == eliminated(v0, i as nat),
                retired@ == r0 + eliminated_conns(v0, i as nat),
            decreases count - i,
        {
            match self.cache.pop_front() {
                Some(c) => {
                    let ghost before = retired@;
                    retired.push(c);
                    self.total_conn_count = self.total_conn_count - 1;
                    proof {
                        assert(v0.cache.skip(i as int).subrange(1, v0.cache.len() - i) =~= v0.cache.skip(i + 1));
                        assert(v0.cache.take(i + 1) =~= v0.cache.take(i as int).push(c));
                        assert(retired@ =~= r0 + eliminated_conns(v0, (i + 1) as nat));
                    }
                },
                None => {
                    proof {
                        assert(i == v0.cache.len());
                        assert(closing(v0, count as nat) == closing(v0, i as nat));
                        assert(eliminated(v0, count as nat) == eliminated(v0, i as nat));
                        assert(eliminated_conns(v0, count as nat) == eliminated_conns(v0, i as nat));
                    }
                    return Err(BackendError::InnerErrPipeEmpty);
                },
            }
            i += 1;
        }
        Ok(count)
    }

    /// Closes every idle connection: how many.
    pub fn clean_cache(&mut self, retired: &mut Vec<C>) -> (r: Result<usize, BackendError>)
        requires
            line_wf(old(self)@),
        ensures
            line_wf(final(self)@),
            final(self)@ == eliminated(old(self)@, old(self)@.cache.len()),
            final(retired)@ == old(retired)@ + old(self)@.cache,
            r matches Ok(n) && n == old(self)@.cache.len(),
    {
        let c_size = self.cache.len();
        let _ = self.eliminate(c_size as u64, retired);
        proof {
            assert(old(self)@.cache.take(c_size as int) =~= old(self)@.cache);
        }
        Ok(c_size)
    }

    /// Takes the node offline and closes its idle connections.
    pub fn offline(&mut self, retired: &mut Vec<C>) -> (r: Result<usize, BackendError>)
        requires
            line_wf(old(self)@),
        ensures
            line_wf(final(self)@),
            final(self)@ == eliminated(
                InnerLineView { offline: true, ..old(self)@ },
                old(self)@.cache.len(),
            ),
            final(retired)@ == old(retired)@ + old(self)@.cache,
            r matches Ok(n) && n == old(self)@.cache.len(),
    {
        self.offline = true;
        self.clean_cache(retired)
    }

    /// `offline`, unless the pool counts `max` connections or more:
    /// `InnerErrGreaterThenMaxConnCount`, and nothing changes.
    pub fn offline_where(&mut self, max: u64, retired: &mut Vec<C>) -> (r: Result<usize, BackendError>)
        requires
            old(self)@.total_conn_count < max ==> line_wf(old(self)@),
        ensures
            line_wf(old(self)@) ==> line_wf(final(self)@),
            old(self)@.total_conn_count >= max ==> (r matches Err(
                BackendError::InnerErrGreaterThenMaxConnCount,
            ) && final(self)@ == old(self)@ && final(retired)@ == old(retired)@),
            old(self)@.total_conn_count < max ==> (final(self)@ == eliminated(
                InnerLineView { offline: true, ..old(self)@ },
                old(self)@.cache.len(),
            ) && final(retired)@ == old(retired)@ + old(self)@.cache && (r matches Ok(n) && n
                == old(self)@.cache.len())),
    {
        if self.total_conn_count >= max {
            return Err(BackendError::InnerErrGreaterThenMaxConnCount);
        }
        self.offline = true;
        self.clean_cache(retired)
    }

    /// Shuts the pool down: offline for good, idle connections closed.
    pub fn quit(&mut self, retired: &mut Vec<C>) -> (r: Result<usize, BackendError>)
        requires
            line_wf(old(self)@),
        ensures
            line_wf(final(self)@),
            final(self)@ == eliminated(
                InnerLineView { offline: true, quit: true, ..old(self)@ },
                old(self)@.cache.len(),
            ),
            final(retired)@ == old(retired)@ + old(self)@.cache,
            r matches Ok(n) && n == old(self)@.cache.len(),
    {
        self.quit = true;
        self.offline = true;
        self.clean_cache(retired)
    }

    /// Lends the oldest idle connection. An offline pool refuses; a pool
    /// with no idle connection asks to open more while it counts fewer than
    /// `max`, and is empty otherwise.
    pub fn lend_with(&mut self, max: u64) -> (r: Lend<C>)
        ensures
            line_wf(old(self)@) ==> line_wf(final(self)@),
            old(self)@.offline || old(self)@.quit ==> (r matches Lend::Failed(BackendError::InnerErrOfflineOrQuit)
                && final(self)@ == old(self)@),
            !(old(self)@.offline || old(self)@.quit) ==> {
                if old(self)@.cache.len() > 0 {
                    r matches Lend::Conn(c) && c == old(self)@.cache[0] && final(self)@ == (InnerLineView {
                        cache: old(self)@.cache.drop_first(),
                        ..touched(old(self)@)
                    })
                } else if old(self)@.total_conn_count < max {
                    r is Grow && final(self)@ == touched(old(self)@)
                } else {
                    r matches Lend::Failed(BackendError::InnerErrPipeEmpty) && final(self)@ == touched(
                        old(self)@,
                    )
                }
            },
    {
        if self.offline || self.quit {
            return Lend::Failed(BackendError::InnerErrOfflineOrQuit);
        }
        self.update_time_stamp();
        match self.cache.pop_front() {
            Some(c) => {
                proof {
                    assert(old(self)@.cache.subrange(1, old(self)@.cache.len() as int) =~= old(
                        self,
                    )@.cache.drop_first());
                }
                Lend::Conn(c)
            },
            None => {
                if self.total_conn_count < max {
                    Lend::Grow
                } else {
                    Lend::Failed(BackendError::InnerErrPipeEmpty)
                }
            },
        }
    }

    /// Takes up the connections opened for a request that found no idle
    /// one, and lends the oldest idle connection.
    pub fn lend_grown(&mut self, conns: &mut VecDeque<C>) -> (r: Result<C, BackendError>)
        requires
            old(self)@.total_conn_count + old(conns)@.len() <= u64::MAX,
        ensures
            line_wf(old(self)@) ==> line_wf(final(self)@),
            final(conns)@ == Seq::<C>::empty(),
            ({
                let t = taken_up(old(self)@, old(conns)@);
                if t.cache.len() > 0 {
                    r matches Ok(c) && c == t.cache[0] && final(self)@ == (InnerLineView {
                        cache: t.cache.drop_first(),
                        ..t
                    })
                } else {
                    r matches Err(BackendError::InnerErrPipeEmpty) && final(self)@ == t
                }
            }),
    {
        self.takeup_batch(conns);
        match self.cache.pop_front() {
            Some(c) => {
                proof {
                    let t = taken_up(old(self)@, old(conns)@);
                    assert(t.cache.subrange(1, t.cache.len() as int) =~= t.cache.drop_first());
                }
                Ok(c)
            },
            None => Err(BackendError::InnerErrPipeEmpty),
        }
    }

    /// Whether connections should be opened to bring the node back: not
    /// once it quit (`InnerErrOfflineOrQuit`), nor while it is online
    /// (`PoolErrConnGrowGiveup`).
    pub fn reonline_ready(&self, node_id: &str) -> (r: Result<(), BackendError>)
        ensures
            self@.quit ==> r matches Err(BackendError::InnerErrOfflineOrQuit),
            !self@.quit && !self@.offline ==> (r matches Err(BackendError::PoolErrConnGrowGiveup(s)) && s@
                == node_id@),
            !self@.quit && self@.offline ==> r is Ok,
    {
        if self.quit {
            return Err(BackendError::InnerErrOfflineOrQuit);
        }
        if !self.offline {
            return Err(BackendError::PoolErrConnGrowGiveup(String::from_str(node_id)));
        }
        Ok(())
    }

    /// Brings an offline node back with the connections `conns` opened to
    /// it: its idle connections are replaced by them (the pool stays marked
    /// offline). Refused as `reonline_ready` says, and where no connection
    /// could be opened (`PoolErrConnGrowFailed`); then nothing changes.
    pub fn reonline_with(&mut self, node_id: &str, conns: &mut VecDeque<C>, retired: &mut Vec<C>) -> (r: Result<(), BackendError>)
        requires
            !old(self)@.quit && old(self)@.offline && old(conns)@.len() > 0 ==> line_wf(old(self)@)
                && old(self)@.total_conn_count - old(self)@.cache.len() + old(conns)@.len() <= u64::MAX,
        ensures
            line_wf(old(self)@) ==> line_wf(final(self)@),
            old(self)@.quit ==> r matches Err(BackendError::InnerErrOfflineOrQuit),
            !old(self)@.quit && !old(self)@.offline ==> (r matches Err(BackendError::PoolErrConnGrowGiveup(s))
                && s@ == node_id@),
            !old(self)@.quit && old(self)@.offline && old(conns)@.len() == 0 ==> (r matches Err(
                BackendError::PoolErrConnGrowFailed(s),
            ) && s@ == node_id@),
            r is Err ==> final(self)@ == old(self)@ && final(conns)@ == old(conns)@ && final(retired)@
                == old(retired)@,
            !old(self)@.quit && old(self)@.offline && old(conns)@.len() > 0 ==> r is Ok,
            r is Ok ==> !old(self)@.quit && old(self)@.offline && old(conns)@.len() > 0 && final(self)@
                == taken_up(
                eliminated(touched(old(self)@), old(self)@.cache.len()),
                old(conns)@,
            ) && final(conns)@ == Seq::<C>::empty() && final(retired)@ == old(retired)@ + old(self)@.cache,
    {
        match self.reonline_ready(node_id) {
            Err(e) => {
                return Err(e);
            },
            Ok(()) => {},
        }
        if conns.len() == 0 {
            return Err(BackendError::PoolErrConnGrowFailed(String::from_str(node_id)));
        }
        self.update_time_stamp();
        let _ = self.clean_cache(retired);
        self.takeup_batch(conns);
        Ok(())
    }

    /// Closes `shrink_c` idle connections where the pool counts more than
    /// `min`.
    pub fn shrink(&mut self, idle_time: u64, min: u16, shrink_c: u16, retired: &mut Vec<C>)
        requires
            old(self)@.total_conn_count > min ==> closing(old(self)@, shrink_c as nat) <= old(
                self,
            )@.total_conn_count,
        ensures
            line_wf(old(self)@) ==> line_wf(final(self)@),
            old(self)@.total_conn_count <= min ==> final(self)@ == old(self)@ && final(retired)@ == old(
                retired,
            )@,
            old(self)@.total_conn_count > min ==> final(self)@ == eliminated(old(self)@, shrink_c as nat)
                && final(retired)@ == old(retired)@ + eliminated_conns(old(self)@, shrink_c as nat),
    {
        if self.total_conn_count <= min as u64 {
            return;
        }
        let _ = self.eliminate(shrink_c as u64, retired);
    }

    /// Gives up a lent connection: it is closed and no longer counted.
    pub fn discard(&mut self, conn: C, retired: &mut Vec<C>)
        requires
            old(self)@.total_conn_count >= 1,
        ensures
            old(self)@.cache.len() < old(self)@.total_conn_count ==> line_wf(final(self)@),
            final(self)@ == (InnerLineView {
                total_conn_count: (old(self)@.total_conn_count - 1) as u64,
                ..old(self)@
            }),
            final(retired)@ == old(retired)@.push(conn),
    {
        retired.push(conn);
        self.total_conn_count = self.total_conn_count - 1;
    }

    /// Takes back a lent connection: closed where the node is offline,
    /// else idle again, the oldest idle ones closed beyond `max` counted.
    pub fn recycle(&mut self, max: u64, conn: C, retired: &mut Vec<C>)
        requires
            old(self)@.offline || old(self)@.quit ==> old(self)@.total_conn_count >= 1,
        ensures
            old(self)@.cache.len() < old(self)@.total_conn_count ==> line_wf(final(self)@),
            old(self)@.offline || old(self)@.quit ==> final(self)@ == (InnerLineView {
                total_conn_count: (old(self)@.total_conn_count - 1) as u64,
                ..old(self)@
            }) && final(retired)@ == old(retired)@.push(conn),
            !(old(self)@.offline || old(self)@.quit) ==> {
                let b = InnerLineView { cache: old(self)@.cache.push(conn), ..old(self)@ };
                if old(self)@.total_conn_count > max {
                    final(self)@ == eliminated(b, (old(self)@.total_conn_count - max) as nat)
                        && final(retired)@ == old(retired)@ + eliminated_conns(
                        b,
                        (old(self)@.total_conn_count - max) as nat,
                    )
                } else {
                    final(self)@ == b && final(retired)@ == old(retired)@
                }
            },
    {
        if self.offline || self.quit {
            self.discard(conn, retired);
            return;
        }
        self.cache.push_back(conn);
        if self.total_conn_count > max {
            let _ = self.eliminate(self.total_conn_count - max, retired);
        }
    }

    /// Takes up a newly opened connection: closed where the node is
    /// offline, else idle and counted, the oldest idle ones closed beyond
    /// `max` counted.
    pub fn takeup(&mut self, max: u64, conn: C, retired: &mut Vec<C>)
        requires
            !(old(self)@.offline || old(self)@.quit) ==> old(self)@.total_conn_count < u64::MAX,
        ensures
            line_wf(old(self)@) ==> line_wf(final(self)@),
            old(self)@.offline || old(self)@.quit ==> final(self)@ == old(self)@ && final(retired)@ == old(
                retired,
            )@.push(conn),
            !(old(self)@.offline || old(self)@.quit) ==> final(self)@ == after_takeup(old(self)@, max, conn),
            !(old(self)@.offline || old(self)@.quit) ==> {
                let b = taken_up(old(self)@, seq![conn]);
                if b.total_conn_count > max {
                    final(self)@ == eliminated(b, (b.total_conn_count - max) as nat) && final(retired)@
                        == old(retired)@ + eliminated_conns(b, (b.total_conn_count - max) as nat)
                } else {
                    final(self)@ == b && final(retired)@ == old(retired)@
                }
            },
    {
        if self.offline || self.quit {
            retired.push(conn);
            return;
        }
        self.total_conn_count = self.total_conn_count + 1;
        self.cache.push_back(conn);
        proof {
            assert(old(self)@.cache.push(conn) =~= old(self)@.cache + seq![conn]);
        }
        if self.total_conn_count > max {
            let _ = self.eliminate(self.total_conn_count - max, retired);
        }
    }

    /// Lends the oldest idle connection, or `InnerErrPipeEmpty` where there
    /// is none.
    pub fn lend_conn(&mut self) -> (r: Result<C, BackendError>)
        ensures
            line_wf(old(self)@) ==> line_wf(final(self)@),
            old(self)@.cache.len() > 0 ==> (r matches Ok(c) && c == old(self)@.cache[0] && final(self)@
                == (InnerLineView { cache: old(self)@.cache.drop_first(), ..old(self)@ })),
            old(self)@.cache.len() == 0 ==> (r matches Err(BackendError::InnerErrPipeEmpty) && final(self)@
                == old(self)@),
    {
        match self.cache.pop_front() {
            Some(c) => {
                proof {
                    assert(old(self)@.cache.subrange(1, old(self)@.cache.len() as int) =~= old(
                        self,
                    )@.cache.drop_first());
                }
                Ok(c)
            },
            None => Err(BackendError::InnerErrPipeEmpty),
        }
    }

    /// Takes back a lent connection as the newest idle one.
    pub fn send_back(&mut self, conn: C)
        ensures
            final(self)@ == (InnerLineView { cache: old(self)@.cache.push(conn), ..old(self)@ }),
    {
        self.cache.push_back(conn);
    }

    /// Takes up newly opened connections as idle ones.
    pub fn takeup_batch(&mut self, conns: &mut VecDeque<C>)
        requires
            old(self)@.total_conn_count + old(conns)@.len() <= u64::MAX,
        ensures
            line_wf(old(self)@) ==> line_wf(final(self)@),
            final(self)@ == taken_up(old(self)@, old(conns)@),
            final(conns)@ == Seq::<C>::empty(),
    {
        self.total_conn_count = self.total_conn_count + conns.len() as u64;
        self.cache.append(conns);
    }
}

} // verus!
