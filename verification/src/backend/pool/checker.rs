//! The periodic checks of a node: shrinking an idle pool, and the health
//! check that pings the node, reconnects to it, or takes it offline. The
//! health check is a machine that says what to do next, given what came of
//! the last thing done; the caller pings, connects and sleeps.
use vstd::prelude::*;
use super::node::NodePipeLine;
use super::node_cfg::NodeCfg;
use super::inner;

verus! {

/// Where a health check stands.
#[derive(Debug, Clone, Copy, PartialEq, Eq, Structural)]
pub enum HealthPhase {
    Start,
    CheckingQuit,
    GettingConn,
    Pinging,
    PingSleeping,
    Discarding,
    Connecting,
    ConnectSleeping,
    Finished,
}

/// What came of the last thing done.
#[derive(Debug, Clone, Copy, PartialEq, Eq, Structural)]
pub enum HealthEvent {
    /// The check begins.
    Begin,
    /// Whether the node has quit.
    Quit(bool),
    /// Whether a connection of the node could be had.
    GotConn(bool),
    /// Whether the connection answered the ping.
    Pinged(bool),
    /// The sleep is over.
    Slept,
    /// The connection was given up.
    Discarded,
    /// Whether a new connection could be opened.
    Connected(bool),
}

/// What to do next.
#[derive(Debug, Clone, Copy, PartialEq, Eq, Structural)]
pub enum HealthAction {
    /// Ask whether the node has quit.
    CheckQuit,
    /// Borrow a connection of the node.
    GetConn,
    /// Ping the borrowed connection.
    Ping,
    /// Sleep this many seconds.
    Sleep(u64),
    /// Give up the borrowed connection.
    Discard,
    /// Open a new connection to the node.
    Connect,
    /// The node answered: give the connection back, bring the node online; done.
    RecycleAndReonline,
    /// The node could be reached again: bring it online, take up the new connection; done.
    ReonlineAndTakeup,
    /// Nothing answered: take the node offline; done.
    Offline,
    /// Done.
    Stop,
}

/// A health check of one node.
#[derive(Debug)]
pub struct HealthCheck {
    phase: HealthPhase,
    ping_tick: u8,
    reconnect_tick: u8,
    ping_retry_count: u8,
    ping_retry_interval: u64,
    reconnect_retry_count: u8,
    reconnect_retry_interval: u64,
}

/// What a health check holds.
pub struct HealthView {
    pub phase: HealthPhase,
    pub ping_tick: u8,
    pub reconnect_tick: u8,
    pub ping_retry_count: u8,
    pub ping_retry_interval: u64,
    pub reconnect_retry_count: u8,
    pub reconnect_retry_interval: u64,
}

impl View for HealthCheck {
    type V = HealthView;

    closed spec fn view(&self) -> HealthView {
        HealthView {
            phase: self.phase,
            ping_tick: self.ping_tick,
            reconnect_tick: self.reconnect_tick,
            ping_retry_count: self.ping_retry_count,
            ping_retry_interval: self.ping_retry_interval,
            reconnect_retry_count: self.reconnect_retry_count,
            reconnect_retry_interval: self.reconnect_retry_interval,
        }
    }
}

/// No more pings and connection attempts were made than configured.
pub open spec fn health_wf(s: HealthView) -> bool {
    s.ping_tick <= s.ping_retry_count && s.reconnect_tick <= s.reconnect_retry_count
}

/// The check after the pings: the first connection attempt, or offline
/// where none is configured.
pub open spec fn spec_start_reconnect(s: HealthView) -> (HealthView, HealthAction) {
    if s.reconnect_retry_count > 0 {
        (HealthView { phase: HealthPhase::Connecting, reconnect_tick: 1, ..s }, HealthAction::Connect)
    } else {
        (HealthView { phase: HealthPhase::Finished, ..s }, HealthAction::Offline)
    }
}

/// One step of the health check: check that the node has not quit, borrow
/// a connection and ping it up to `ping_retry_count` times, a sleep after
/// each unanswered ping; then give it up and open new connections up to
/// `reconnect_retry_count` times, a sleep after each failure; then take the
/// node offline. An answered ping or a new connection ends the check with
/// the node online. An event the phase does not expect ends it too.
pub open spec fn spec_health_step(s: HealthView, e: HealthEvent) -> (HealthView, HealthAction) {
    let finished = HealthView { phase: HealthPhase::Finished, ..s };
    match (s.phase, e) {
        (HealthPhase::Start, HealthEvent::Begin) => (
            HealthView { phase: HealthPhase::CheckingQuit, ..s },
            HealthAction::CheckQuit,
        ),
        (HealthPhase::CheckingQuit, HealthEvent::Quit(q)) => if q {
            (finished, HealthAction::Stop)
        } else {
            (HealthView { phase: HealthPhase::GettingConn, ..s }, HealthAction::GetConn)
        },
        (HealthPhase::GettingConn, HealthEvent::GotConn(got)) => if !got {
            spec_start_reconnect(s)
        } else if s.ping_retry_count > 0 {
            (HealthView { phase: HealthPhase::Pinging, ping_tick: 1, ..s }, HealthAction::Ping)
        } else {
            (HealthView { phase: HealthPhase::Discarding, ..s }, HealthAction::Discard)
        },
        (HealthPhase::Pinging, HealthEvent::Pinged(ok)) => if ok {
            (finished, HealthAction::RecycleAndReonline)
        } else {
            (HealthView { phase: HealthPhase::PingSleeping, ..s }, HealthAction::Sleep(s.ping_retry_interval))
        },
        (HealthPhase::PingSleeping, HealthEvent::Slept) => if s.ping_tick < s.ping_retry_count {
            (HealthView { phase: HealthPhase::Pinging, ping_tick: (s.ping_tick + 1) as u8, ..s }, HealthAction::Ping)
        } else {
            (HealthView { phase: HealthPhase::Discarding, ..s }, HealthAction::Discard)
        },
        (HealthPhase::Discarding, HealthEvent::Discarded) => spec_start_reconnect(s),
        (HealthPhase::Connecting, HealthEvent::Connected(ok)) => if ok {
            (finished, HealthAction::ReonlineAndTakeup)
        } else {
            (
                HealthView { phase: HealthPhase::ConnectSleeping, ..s },
                HealthAction::Sleep(s.reconnect_retry_interval),
            )
        },
        (HealthPhase::ConnectSleeping, HealthEvent::Slept) => if s.reconnect_tick < s.reconnect_retry_count {
            (
                HealthView { phase: HealthPhase::Connecting, reconnect_tick: (s.reconnect_tick + 1) as u8, ..s },
                HealthAction::Connect,
            )
        } else {
            (finished, HealthAction::Offline)
        },
        _ => (finished, HealthAction::Stop),
    }
}

/// An upper bound of the steps left to a health check.
pub open spec fn health_measure(s: HealthView) -> nat {
    let c0 = 2 * (s.reconnect_retry_count as nat) + 3;
    let p = s.ping_retry_count as nat;
    let r = s.reconnect_retry_count as nat;
    match s.phase {
        HealthPhase::Start => c0 + 2 * p + 3,
        HealthPhase::CheckingQuit => c0 + 2 * p + 2,
        HealthPhase::GettingConn => c0 + 2 * p + 1,
        HealthPhase::Pinging => c0 + 2 + 2 * (p - s.ping_tick) as nat,
        HealthPhase::PingSleeping => c0 + 1 + 2 * (p - s.ping_tick) as nat,
        HealthPhase::Discarding => c0,
        HealthPhase::Connecting => 2 + 2 * (r - s.reconnect_tick) as nat,
        HealthPhase::ConnectSleeping => 1 + 2 * (r - s.reconnect_tick) as nat,
        HealthPhase::Finished => 0,
    }
}

impl HealthCheck {
    /// A health check of a node run by `cfg`, not begun.
    pub fn new(cfg: &NodeCfg) -> (h: HealthCheck)
        ensures
            h@ == (HealthView {
                phase: HealthPhase::Start,
                ping_tick: 0,
                reconnect_tick: 0,
                ping_retry_count: cfg.ping_retry_count,
                ping_retry_interval: cfg.ping_retry_interval,
                reconnect_retry_count: cfg.reconnect_retry_count,
                reconnect_retry_interval: cfg.reconnect_retry_interval,
            }),
            health_wf(h@),
    {
        HealthCheck {
            phase: HealthPhase::Start,
            ping_tick: 0,
            reconnect_tick: 0,
            ping_retry_count: cfg.ping_retry_count,
            ping_retry_interval: cfg.ping_retry_interval,
            reconnect_retry_count: cfg.reconnect_retry_count,
            reconnect_retry_interval: cfg.reconnect_retry_interval,
        }
    }

    fn start_reconnect(&mut self) -> (a: HealthAction)
        ensures
            (final(self)@, a) == spec_start_reconnect(old(self)@),
    {
        if self.reconnect_retry_count > 0 {
            self.phase = HealthPhase::Connecting;
            self.reconnect_tick = 1;
            HealthAction::Connect
        } else {
            self.phase = HealthPhase::Finished;
            HealthAction::Offline
        }
    }

    /// The next thing to do, given what came of the last one (see
    /// `spec_health_step`). Every step before the end brings the end
    /// nearer, and the retry counts are never exceeded.
    pub fn step(&mut self, e: HealthEvent) -> (a: HealthAction)
        requires
            health_wf(old(self)@),
        ensures
            (final(self)@, a) == spec_health_step(old(self)@, e),
            health_wf(final(self)@),
            old(self)@.phase != HealthPhase::Finished ==> health_measure(final(self)@) < health_measure(
                old(self)@,
            ),
            old(self)@.phase == HealthPhase::Finished ==> a == HealthAction::Stop && final(self)@ == old(
                self,
            )@,
    {
        match (self.phase, e) {
            (HealthPhase::Start, HealthEvent::Begin) => {
                self.phase = HealthPhase::CheckingQuit;
                HealthAction::CheckQuit
            },
            (HealthPhase::CheckingQuit, HealthEvent::Quit(q)) => {
                if q {
                    self.phase = HealthPhase::Finished;
                    HealthAction::Stop
                } else {
                    self.phase = HealthPhase::GettingConn;
                    HealthAction::GetConn
                }
            },
            (HealthPhase::GettingConn, HealthEvent::GotConn(got)) => {
                if !got {
                    self.start_reconnect()
                } else if self.ping_retry_count > 0 {
                    self.phase = HealthPhase::Pinging;
                    self.ping_tick = 1;
                    HealthAction::Ping
                } else {
                    self.phase = HealthPhase::Discarding;
                    HealthAction::Discard
                }
            },
            (HealthPhase::Pinging, HealthEvent::Pinged(ok)) => {
                if ok {
                    self.phase = HealthPhase::Finished;
                    HealthAction::RecycleAndReonline
                } else {
                    self.phase = HealthPhase::PingSleeping;
                    HealthAction::Sleep(self.ping_retry_interval)
                }
            },
            (HealthPhase::PingSleeping, HealthEvent::Slept) => {
                if self.ping_tick < self.ping_retry_count {
                    self.phase = HealthPhase::Pinging;
                    self.ping_tick = self.ping_tick + 1;
                    HealthAction::Ping
                } else {
                    self.phase = HealthPhase::Discarding;
                    HealthAction::Discard
                }
            },
            (HealthPhase::Discarding, HealthEvent::Discarded) => self.start_reconnect(),
            (HealthPhase::Connecting, HealthEvent::Connected(ok)) => {
                if ok {
                    self.phase = HealthPhase::Finished;
                    HealthAction::ReonlineAndTakeup
                } else {
                    self.phase = HealthPhase::ConnectSleeping;
                    HealthAction::Sleep(self.reconnect_retry_interval)
                }
            },
            (HealthPhase::ConnectSleeping, HealthEvent::Slept) => {
                if self.reconnect_tick < self.reconnect_retry_count {
                    self.phase = HealthPhase::Connecting;
                    self.reconnect_tick = self.reconnect_tick + 1;
                    HealthAction::Connect
                } else {
                    self.phase = HealthPhase::Finished;
                    HealthAction::Offline
                }
            },
            _ => {
                self.phase = HealthPhase::Finished;
                HealthAction::Stop
            },
        }
    }
}

/// A health check ends: from its start it takes at most
/// `2 * (ping_retry_count + reconnect_retry_count) + 6` steps.
pub proof fn lemma_health_check_ends(cfg: NodeCfg)
    ensures
        health_measure(
            HealthView {
                phase: HealthPhase::Start,
                ping_tick: 0,
                reconnect_tick: 0,
                ping_retry_count: cfg.ping_retry_count,
                ping_retry_interval: cfg.ping_retry_interval,
                reconnect_retry_count: cfg.reconnect_retry_count,
                reconnect_retry_interval: cfg.reconnect_retry_interval,
            },
        ) == 2 * (cfg.ping_retry_count + cfg.reconnect_retry_count) + 6,
{
}

/// The actions a health check takes from `s` on the events `events`, one
/// step per event, and where it ends up.
pub open spec fn spec_health_run(s: HealthView, events: Seq<HealthEvent>) -> (HealthView, Seq<HealthAction>)
    decreases events.len(),
{
    if events.len() == 0 {
        (s, Seq::empty())
    } else {
        let (s1, a) = spec_health_step(s, events[0]);
        let (s2, rest) = spec_health_run(s1, events.drop_first());
        (s2, seq![a] + rest)
    }
}

/// `k` times the pair `a`, `b`.
pub open spec fn pairs<T>(a: T, b: T, k: nat) -> Seq<T>
    decreases k,
{
    if k == 0 {
        Seq::empty()
    } else {
        seq![a, b] + pairs(a, b, (k - 1) as nat)
    }
}

/// The check of a node configured by `cfg`, before it begins.
pub open spec fn health_start(cfg: NodeCfg) -> HealthView {
    HealthView {
        phase: HealthPhase::Start,
        ping_tick: 0,
        reconnect_tick: 0,
        ping_retry_count: cfg.ping_retry_count,
        ping_retry_interval: cfg.ping_retry_interval,
        reconnect_retry_count: cfg.reconnect_retry_count,
        reconnect_retry_interval: cfg.reconnect_retry_interval,
    }
}

proof fn lemma_run_append(s: HealthView, e1: Seq<HealthEvent>, e2: Seq<HealthEvent>)
    ensures
        spec_health_run(s, e1 + e2) == (
            spec_health_run(spec_health_run(s, e1).0, e2).0,
            spec_health_run(s, e1).1 + spec_health_run(spec_health_run(s, e1).0, e2).1,
        ),
    decreases e1.len(),
{
    if e1.len() == 0 {
        assert(e1 + e2 =~= e2);
        assert(Seq::<HealthAction>::empty() + spec_health_run(s, e2).1 =~= spec_health_run(s, e2).1);
    } else {
        let s1 = spec_health_step(s, e1[0]).0;
        assert((e1 + e2)[0] == e1[0]);
        assert((e1 + e2).drop_first() =~= e1.drop_first() + e2);
        lemma_run_append(s1, e1.drop_first(), e2);
        let a = spec_health_step(s, e1[0]).1;
        let r1 = spec_health_run(s1, e1.drop_first()).1;
        let r2 = spec_health_run(spec_health_run(s1, e1.drop_first()).0, e2).1;
        assert(seq![a] + (r1 + r2) =~= (seq![a] + r1) + r2);
    }
}

proof fn lemma_run_one(s: HealthView, e: HealthEvent)
    ensures
        spec_health_run(s, seq![e]) == (spec_health_step(s, e).0, seq![spec_health_step(s, e).1]),
{
    let s1 = spec_health_step(s, e).0;
    assert(seq![e][0] == e);
    assert(seq![e].drop_first() =~= Seq::<HealthEvent>::empty());
    assert(spec_health_run(s1, Seq::<HealthEvent>::empty()) == (s1, Seq::<HealthAction>::empty()));
    assert(seq![spec_health_step(s, e).1] + Seq::<HealthAction>::empty() =~= seq![spec_health_step(s, e).1]);
}

proof fn lemma_run_two(s: HealthView, e1: HealthEvent, e2: HealthEvent)
    ensures
        spec_health_run(s, seq![e1, e2]) == (
            spec_health_step(spec_health_step(s, e1).0, e2).0,
            seq![spec_health_step(s, e1).1, spec_health_step(spec_health_step(s, e1).0, e2).1],
        ),
{
    assert(seq![e1, e2] =~= seq![e1] + seq![e2]);
    lemma_run_append(s, seq![e1], seq![e2]);
    lemma_run_one(s, e1);
    lemma_run_one(spec_health_step(s, e1).0, e2);
    assert(seq![spec_health_step(s, e1).1] + seq![spec_health_step(spec_health_step(s, e1).0, e2).1] =~= seq![
        spec_health_step(s, e1).1,
        spec_health_step(spec_health_step(s, e1).0, e2).1,
    ]);
}

/// From the `t`-th failed connection attempt on, every further attempt
/// failing: a sleep, then the attempts left, each followed by a sleep, then
/// offline.
proof fn lemma_connects_fail(s: HealthView)
    requires
        s.phase == HealthPhase::Connecting,
        1 <= s.reconnect_tick <= s.reconnect_retry_count,
    ensures
        ({
            let k = (s.reconnect_retry_count - s.reconnect_tick) as nat;
            let run = spec_health_run(
                s,
                pairs(HealthEvent::Connected(false), HealthEvent::Slept, k + 1),
            );
            &&& run.1 == seq![HealthAction::Sleep(s.reconnect_retry_interval)] + pairs(
                HealthAction::Connect,
                HealthAction::Sleep(s.reconnect_retry_interval),
                k,
            ) + seq![HealthAction::Offline]
            &&& run.0.phase == HealthPhase::Finished
        }),
    decreases s.reconnect_retry_count - s.reconnect_tick,
{
    let k = (s.reconnect_retry_count - s.reconnect_tick) as nat;
    let ev = pairs(HealthEvent::Connected(false), HealthEvent::Slept, k + 1);
    let sl = HealthAction::Sleep(s.reconnect_retry_interval);
    assert(ev == seq![HealthEvent::Connected(false), HealthEvent::Slept] + pairs(
        HealthEvent::Connected(false),
        HealthEvent::Slept,
        k,
    ));
    lemma_run_append(s, seq![HealthEvent::Connected(false), HealthEvent::Slept], pairs(
        HealthEvent::Connected(false),
        HealthEvent::Slept,
        k,
    ));
    lemma_run_two(s, HealthEvent::Connected(false), HealthEvent::Slept);
    let s2 = spec_health_run(s, seq![HealthEvent::Connected(false), HealthEvent::Slept]).0;
    if k == 0 {
        assert(pairs(HealthEvent::Connected(false), HealthEvent::Slept, 0) =~= Seq::<HealthEvent>::empty());
        assert(spec_health_run(s, ev).1 =~= seq![sl, HealthAction::Offline]);
        assert(pairs(HealthAction::Connect, sl, 0) =~= Seq::<HealthAction>::empty());
        assert(seq![sl] + pairs(HealthAction::Connect, sl, k) + seq![HealthAction::Offline] =~= seq![
            sl,
            HealthAction::Offline,
        ]);
    } else {
        assert(s2 == HealthView {
            phase: HealthPhase::Connecting,
            reconnect_tick: (s.reconnect_tick + 1) as u8,
            ..s
        });
        lemma_connects_fail(s2);
        assert((k - 1) as nat + 1 == k);
        let rest = spec_health_run(s2, pairs(HealthEvent::Connected(false), HealthEvent::Slept, k)).1;
        assert(rest == seq![sl] + pairs(HealthAction::Connect, sl, (k - 1) as nat) + seq![HealthAction::Offline]);
        assert(pairs(HealthAction::Connect, sl, k) == seq![HealthAction::Connect, sl] + pairs(
            HealthAction::Connect,
            sl,
            (k - 1) as nat,
        ));
        assert(seq![sl, HealthAction::Connect] + rest =~= seq![sl] + pairs(HealthAction::Connect, sl, k) + seq![
            HealthAction::Offline,
        ]);
    }
}

/// From the `t`-th unanswered ping on, every further ping unanswered: a
/// sleep, then the pings left, each followed by a sleep, then the
/// connection is given up.
proof fn lemma_pings_fail(s: HealthView)
    requires
        s.phase == HealthPhase::Pinging,
        1 <= s.ping_tick <= s.ping_retry_count,
    ensures
        ({
            let k = (s.ping_retry_count - s.ping_tick) as nat;
            let run = spec_health_run(s, pairs(HealthEvent::Pinged(false), HealthEvent::Slept, k + 1));
            &&& run.1 == seq![HealthAction::Sleep(s.ping_retry_interval)] + pairs(
                HealthAction::Ping,
                HealthAction::Sleep(s.ping_retry_interval),
                k,
            ) + seq![HealthAction::Discard]
            &&& run.0 == HealthView { phase: HealthPhase::Discarding, ping_tick: s.ping_retry_count, ..s }
        }),
    decreases s.ping_retry_count - s.ping_tick,
{
    let k = (s.ping_retry_count - s.ping_tick) as nat;
    let ev = pairs(HealthEvent::Pinged(false), HealthEvent::Slept, k + 1);
    let sl = HealthAction::Sleep(s.ping_retry_interval);
    assert(ev == seq![HealthEvent::Pinged(false), HealthEvent::Slept] + pairs(
        HealthEvent::Pinged(false),
        HealthEvent::Slept,
        k,
    ));
    lemma_run_append(s, seq![HealthEvent::Pinged(false), HealthEvent::Slept], pairs(
        HealthEvent::Pinged(false),
        HealthEvent::Slept,
        k,
    ));
    lemma_run_two(s, HealthEvent::Pinged(false), HealthEvent::Slept);
    let s2 = spec_health_run(s, seq![HealthEvent::Pinged(false), HealthEvent::Slept]).0;
    if k == 0 {
        assert(pairs(HealthEvent::Pinged(false), HealthEvent::Slept, 0) =~= Seq::<HealthEvent>::empty());
        assert(spec_health_run(s, ev).1 =~= seq![sl, HealthAction::Discard]);
        assert(pairs(HealthAction::Ping, sl, 0) =~= Seq::<HealthAction>::empty());
        assert(seq![sl] + pairs(HealthAction::Ping, sl, k) + seq![HealthAction::Discard] =~= seq![
            sl,
            HealthAction::Discard,
        ]);
    } else {
        assert(s2 == HealthView { phase: HealthPhase::Pinging, ping_tick: (s.ping_tick + 1) as u8, ..s });
        lemma_pings_fail(s2);
        let rest = spec_health_run(s2, pairs(HealthEvent::Pinged(false), HealthEvent::Slept, k)).1;
        assert(rest == seq![sl] + pairs(HealthAction::Ping, sl, (k - 1) as nat) + seq![HealthAction::Discard]);
        assert(pairs(HealthAction::Ping, sl, k) == seq![HealthAction::Ping, sl] + pairs(
            HealthAction::Ping,
            sl,
            (k - 1) as nat,
        ));
        assert(seq![sl, HealthAction::Ping] + rest =~= seq![sl] + pairs(HealthAction::Ping, sl, k) + seq![
            HealthAction::Discard,
        ]);
    }
}

/// After the pings, every connection attempt failing: exactly
/// `reconnect_retry_count` attempts, each followed by a sleep, then the
/// node is taken offline.
proof fn lemma_reconnects_fail(s: HealthView)
    requires
        s.phase == HealthPhase::Discarding,
    ensures
        spec_health_run(
            s,
            seq![HealthEvent::Discarded] + pairs(HealthEvent::Connected(false), HealthEvent::Slept, s.reconnect_retry_count as nat),
        ).1 == pairs(
            HealthAction::Connect,
            HealthAction::Sleep(s.reconnect_retry_interval),
            s.reconnect_retry_count as nat,
        ) + seq![HealthAction::Offline],
{
    let r = s.reconnect_retry_count as nat;
    let sl = HealthAction::Sleep(s.reconnect_retry_interval);
    let tail = pairs(HealthEvent::Connected(false), HealthEvent::Slept, r);
    lemma_run_append(s, seq![HealthEvent::Discarded], tail);
    lemma_run_one(s, HealthEvent::Discarded);
    let s1 = spec_health_step(s, HealthEvent::Discarded).0;
    if r == 0 {
        assert(tail =~= Seq::<HealthEvent>::empty());
        assert(pairs(HealthAction::Connect, sl, 0) =~= Seq::<HealthAction>::empty());
        assert(seq![HealthAction::Offline] + Seq::<HealthAction>::empty() =~= pairs(HealthAction::Connect, sl, r)
            + seq![HealthAction::Offline]);
    } else {
        lemma_connects_fail(s1);
        assert(((r - 1) as nat) + 1 == r);
        let rest = spec_health_run(s1, tail).1;
        assert(rest == seq![sl] + pairs(HealthAction::Connect, sl, (r - 1) as nat) + seq![HealthAction::Offline]);
        assert(pairs(HealthAction::Connect, sl, r) == seq![HealthAction::Connect, sl] + pairs(
            HealthAction::Connect,
            sl,
            (r - 1) as nat,
        ));
        assert(seq![HealthAction::Connect] + rest =~= pairs(HealthAction::Connect, sl, r) + seq![
            HealthAction::Offline,
        ]);
    }
}

/// A node that never answers goes offline after exactly the configured
/// retries: a check that gets a connection whose `ping_retry_count` pings
/// all go unanswered, and whose `reconnect_retry_count` connection attempts
/// all fail, pings exactly `ping_retry_count` times and tries to connect
/// exactly `reconnect_retry_count` times, a sleep of the configured length
/// after each, gives the connection up in between, and takes the node
/// offline.
pub proof fn lemma_unreachable_node_goes_offline(cfg: NodeCfg)
    ensures
        spec_health_run(
            health_start(cfg),
            seq![HealthEvent::Begin, HealthEvent::Quit(false), HealthEvent::GotConn(true)] + pairs(
                HealthEvent::Pinged(false),
                HealthEvent::Slept,
                cfg.ping_retry_count as nat,
            ) + seq![HealthEvent::Discarded] + pairs(
                HealthEvent::Connected(false),
                HealthEvent::Slept,
                cfg.reconnect_retry_count as nat,
            ),
        ).1 == seq![HealthAction::CheckQuit, HealthAction::GetConn] + pairs(
            HealthAction::Ping,
            HealthAction::Sleep(cfg.ping_retry_interval),
            cfg.ping_retry_count as nat,
        ) + seq![HealthAction::Discard] + pairs(
            HealthAction::Connect,
            HealthAction::Sleep(cfg.reconnect_retry_interval),
            cfg.reconnect_retry_count as nat,
        ) + seq![HealthAction::Offline],
{
    let s0 = health_start(cfg);
    let p = cfg.ping_retry_count as nat;
    let pe = pairs(HealthEvent::Pinged(false), HealthEvent::Slept, p);
    let re = seq![HealthEvent::Discarded] + pairs(
        HealthEvent::Connected(false),
        HealthEvent::Slept,
        cfg.reconnect_retry_count as nat,
    );
    let head = seq![HealthEvent::Begin, HealthEvent::Quit(false)];
    let psl = HealthAction::Sleep(cfg.ping_retry_interval);
    let events = seq![HealthEvent::Begin, HealthEvent::Quit(false), HealthEvent::GotConn(true)] + pe + re;
    let rr = cfg.reconnect_retry_count as nat;
    let rsl = HealthAction::Sleep(cfg.reconnect_retry_interval);
    assert(seq![HealthEvent::Begin, HealthEvent::Quit(false), HealthEvent::GotConn(true)] + pe + seq![
        HealthEvent::Discarded,
    ] + pairs(HealthEvent::Connected(false), HealthEvent::Slept, rr) =~= events);
    let goal = seq![HealthAction::CheckQuit, HealthAction::GetConn] + pairs(HealthAction::Ping, psl, p) + seq![
        HealthAction::Discard,
    ] + pairs(HealthAction::Connect, rsl, rr) + seq![HealthAction::Offline];
    assert(events =~= head + (seq![HealthEvent::GotConn(true)] + pe + re));
    lemma_run_append(s0, head, seq![HealthEvent::GotConn(true)] + pe + re);
    lemma_run_two(s0, HealthEvent::Begin, HealthEvent::Quit(false));
    let s2 = spec_health_run(s0, head).0;
    assert(s2 == HealthView { phase: HealthPhase::GettingConn, ..s0 });
    let s3 = spec_health_step(s2, HealthEvent::GotConn(true)).0;
    assert(seq![HealthEvent::GotConn(true)] + pe + re =~= seq![HealthEvent::GotConn(true)] + (pe + re));
    lemma_run_append(s2, seq![HealthEvent::GotConn(true)], pe + re);
    lemma_run_one(s2, HealthEvent::GotConn(true));
    lemma_run_append(s3, pe, re);
    let ra = pairs(
        HealthAction::Connect,
        HealthAction::Sleep(cfg.reconnect_retry_interval),
        cfg.reconnect_retry_count as nat,
    ) + seq![HealthAction::Offline];
    if p == 0 {
        assert(s3 == HealthView { phase: HealthPhase::Discarding, ..s2 });
        assert(pe =~= Seq::<HealthEvent>::empty());
        assert(spec_health_run(s3, pe) == (s3, Seq::<HealthAction>::empty()));
        lemma_reconnects_fail(s3);
        assert(pairs(HealthAction::Ping, psl, 0) =~= Seq::<HealthAction>::empty());
        assert(spec_health_run(s0, events).1 =~= goal);
    } else {
        assert(s3 == HealthView { phase: HealthPhase::Pinging, ping_tick: 1, ..s2 });
        lemma_pings_fail(s3);
        assert(((p - 1) as nat) + 1 == p);
        let s4 = spec_health_run(s3, pe).0;
        lemma_reconnects_fail(s4);
        let pa = spec_health_run(s3, pe).1;
        assert(pa == seq![psl] + pairs(HealthAction::Ping, psl, (p - 1) as nat) + seq![HealthAction::Discard]);
        assert(pairs(HealthAction::Ping, psl, p) == seq![HealthAction::Ping, psl] + pairs(
            HealthAction::Ping,
            psl,
            (p - 1) as nat,
        ));
        assert(spec_health_run(s0, events).1 =~= goal);
    }
}

/// A node that cannot be reached at all goes offline after exactly
/// `reconnect_retry_count` failed connection attempts, a sleep of the
/// configured length after each.
pub proof fn lemma_no_connection_goes_offline(cfg: NodeCfg)
    ensures
        spec_health_run(
            health_start(cfg),
            seq![HealthEvent::Begin, HealthEvent::Quit(false), HealthEvent::GotConn(false)] + pairs(
                HealthEvent::Connected(false),
                HealthEvent::Slept,
                cfg.reconnect_retry_count as nat,
            ),
        ).1 == seq![HealthAction::CheckQuit, HealthAction::GetConn] + pairs(
            HealthAction::Connect,
            HealthAction::Sleep(cfg.reconnect_retry_interval),
            cfg.reconnect_retry_count as nat,
        ) + seq![HealthAction::Offline],
{
    let s0 = health_start(cfg);
    let head = seq![HealthEvent::Begin, HealthEvent::Quit(false)];
    let tail = pairs(HealthEvent::Connected(false), HealthEvent::Slept, cfg.reconnect_retry_count as nat);
    let events = seq![HealthEvent::Begin, HealthEvent::Quit(false), HealthEvent::GotConn(false)] + tail;
    assert(events =~= head + (seq![HealthEvent::GotConn(false)] + tail));
    lemma_run_append(s0, head, seq![HealthEvent::GotConn(false)] + tail);
    lemma_run_two(s0, HealthEvent::Begin, HealthEvent::Quit(false));
    let s2 = spec_health_run(s0, head).0;
    assert(s2 == HealthView { phase: HealthPhase::GettingConn, ..s0 });
    // getting no connection starts the attempts as giving one up does
    let d = HealthView { phase: HealthPhase::Discarding, ..s2 };
    assert(spec_health_step(s2, HealthEvent::GotConn(false)) == spec_health_step(d, HealthEvent::Discarded));
    lemma_run_append(s2, seq![HealthEvent::GotConn(false)], tail);
    lemma_run_append(d, seq![HealthEvent::Discarded], tail);
    lemma_run_one(s2, HealthEvent::GotConn(false));
    lemma_run_one(d, HealthEvent::Discarded);
    lemma_reconnects_fail(d);
    let r = cfg.reconnect_retry_count as nat;
    let ra = pairs(HealthAction::Connect, HealthAction::Sleep(cfg.reconnect_retry_interval), r) + seq![
        HealthAction::Offline,
    ];
    assert(spec_health_run(s0, events).1 =~= seq![HealthAction::CheckQuit, HealthAction::GetConn] + ra);
}

/// `k` unanswered pings from the `t`-th on, with `t + k` within the
/// configured pings: a sleep and the next ping after each.
proof fn lemma_pings_partial(s: HealthView, k: nat)
    requires
        s.phase == HealthPhase::Pinging,
        1 <= s.ping_tick,
        s.ping_tick + k <= s.ping_retry_count,
    ensures
        spec_health_run(s, pairs(HealthEvent::Pinged(false), HealthEvent::Slept, k)) == (
            HealthView { ping_tick: (s.ping_tick + k) as u8, ..s },
            pairs(HealthAction::Sleep(s.ping_retry_interval), HealthAction::Ping, k),
        ),
    decreases k,
{
    let sl = HealthAction::Sleep(s.ping_retry_interval);
    if k == 0 {
        assert(pairs(HealthEvent::Pinged(false), HealthEvent::Slept, 0) =~= Seq::<HealthEvent>::empty());
        assert(pairs(sl, HealthAction::Ping, 0) =~= Seq::<HealthAction>::empty());
        assert(HealthView { ping_tick: (s.ping_tick + 0) as u8, ..s } == s);
    } else {
        let rest = pairs(HealthEvent::Pinged(false), HealthEvent::Slept, (k - 1) as nat);
        assert(pairs(HealthEvent::Pinged(false), HealthEvent::Slept, k) == seq![
            HealthEvent::Pinged(false),
            HealthEvent::Slept,
        ] + rest);
        lemma_run_append(s, seq![HealthEvent::Pinged(false), HealthEvent::Slept], rest);
        lemma_run_two(s, HealthEvent::Pinged(false), HealthEvent::Slept);
        let s2 = HealthView { ping_tick: (s.ping_tick + 1) as u8, ..s };
        assert(spec_health_run(s, seq![HealthEvent::Pinged(false), HealthEvent::Slept]).0 == s2);
        lemma_pings_partial(s2, (k - 1) as nat);
        assert(HealthView { ping_tick: (s2.ping_tick + (k - 1) as nat) as u8, ..s2 } == HealthView {
            ping_tick: (s.ping_tick + k) as u8,
            ..s
        });
        assert(pairs(sl, HealthAction::Ping, k) == seq![sl, HealthAction::Ping] + pairs(
            sl,
            HealthAction::Ping,
            (k - 1) as nat,
        ));
    }
}

/// `k` failed connection attempts from the `t`-th on, with `t + k` within
/// the configured attempts: a sleep and the next attempt after each.
proof fn lemma_connects_partial(s: HealthView, k: nat)
    requires
        s.phase == HealthPhase::Connecting,
        1 <= s.reconnect_tick,
        s.reconnect_tick + k <= s.reconnect_retry_count,
    ensures
        spec_health_run(s, pairs(HealthEvent::Connected(false), HealthEvent::Slept, k)) == (
            HealthView { reconnect_tick: (s.reconnect_tick + k) as u8, ..s },
            pairs(HealthAction::Sleep(s.reconnect_retry_interval), HealthAction::Connect, k),
        ),
    decreases k,
{
    let sl = HealthAction::Sleep(s.reconnect_retry_interval);
    if k == 0 {
        assert(pairs(HealthEvent::Connected(false), HealthEvent::Slept, 0) =~= Seq::<HealthEvent>::empty());
        assert(pairs(sl, HealthAction::Connect, 0) =~= Seq::<HealthAction>::empty());
        assert(HealthView { reconnect_tick: (s.reconnect_tick + 0) as u8, ..s } == s);
    } else {
        let rest = pairs(HealthEvent::Connected(false), HealthEvent::Slept, (k - 1) as nat);
        assert(pairs(HealthEvent::Connected(false), HealthEvent::Slept, k) == seq![
            HealthEvent::Connected(false),
            HealthEvent::Slept,
        ] + rest);
        lemma_run_append(s, seq![HealthEvent::Connected(false), HealthEvent::Slept], rest);
        lemma_run_two(s, HealthEvent::Connected(false), HealthEvent::Slept);
        let s2 = HealthView { reconnect_tick: (s.reconnect_tick + 1) as u8, ..s };
        assert(spec_health_run(s, seq![HealthEvent::Connected(false), HealthEvent::Slept]).0 == s2);
        lemma_connects_partial(s2, (k - 1) as nat);
        assert(HealthView { reconnect_tick: (s2.reconnect_tick + (k - 1) as nat) as u8, ..s2 } == HealthView {
            reconnect_tick: (s.reconnect_tick + k) as u8,
            ..s
        });
        assert(pairs(sl, HealthAction::Connect, k) == seq![sl, HealthAction::Connect] + pairs(
            sl,
            HealthAction::Connect,
            (k - 1) as nat,
        ));
    }
}

/// A node that answers a ping is kept: where the first `k` pings of the
/// borrowed connection go unanswered (`k < ping_retry_count`) and the next
/// is answered, the check pings `k + 1` times, a sleep after each
/// unanswered one, then gives the connection back and brings the node
/// online.
pub proof fn lemma_answered_ping_recycles(cfg: NodeCfg, k: nat)
    requires
        k < cfg.ping_retry_count,
    ensures
        spec_health_run(
            health_start(cfg),
            seq![HealthEvent::Begin, HealthEvent::Quit(false), HealthEvent::GotConn(true)] + pairs(
                HealthEvent::Pinged(false),
                HealthEvent::Slept,
                k,
            ) + seq![HealthEvent::Pinged(true)],
        ).1 == seq![HealthAction::CheckQuit, HealthAction::GetConn, HealthAction::Ping] + pairs(
            HealthAction::Sleep(cfg.ping_retry_interval),
            HealthAction::Ping,
            k,
        ) + seq![HealthAction::RecycleAndReonline],
{
    let s0 = health_start(cfg);
    let head = seq![HealthEvent::Begin, HealthEvent::Quit(false), HealthEvent::GotConn(true)];
    let mid = pairs(HealthEvent::Pinged(false), HealthEvent::Slept, k);
    let last = seq![HealthEvent::Pinged(true)];
    lemma_run_append(s0, head + mid, last);
    lemma_run_append(s0, head, mid);
    assert(head =~= seq![HealthEvent::Begin, HealthEvent::Quit(false)] + seq![HealthEvent::GotConn(true)]);
    lemma_run_append(s0, seq![HealthEvent::Begin, HealthEvent::Quit(false)], seq![HealthEvent::GotConn(true)]);
    lemma_run_two(s0, HealthEvent::Begin, HealthEvent::Quit(false));
    let s2 = HealthView { phase: HealthPhase::GettingConn, ..s0 };
    lemma_run_one(s2, HealthEvent::GotConn(true));
    let s3 = HealthView { phase: HealthPhase::Pinging, ping_tick: 1, ..s2 };
    assert(spec_health_run(s0, head).0 == s3);
    assert(spec_health_run(s0, head).1 =~= seq![HealthAction::CheckQuit, HealthAction::GetConn, HealthAction::Ping]);
    lemma_pings_partial(s3, k);
    let s4 = HealthView { ping_tick: (s3.ping_tick + k) as u8, ..s3 };
    lemma_run_one(s4, HealthEvent::Pinged(true));
    assert(spec_health_run(s0, head + mid + last).1 =~= seq![
        HealthAction::CheckQuit,
        HealthAction::GetConn,
        HealthAction::Ping,
    ] + pairs(HealthAction::Sleep(cfg.ping_retry_interval), HealthAction::Ping, k) + seq![
        HealthAction::RecycleAndReonline,
    ]);
}

/// A node that can be reached again is brought back: where no connection
/// could be borrowed and the first `k` connection attempts fail
/// (`k < reconnect_retry_count`) and the next succeeds, the check tries to
/// connect `k + 1` times, a sleep after each failure, then brings the node
/// online with the new connection.
pub proof fn lemma_new_connection_reonlines(cfg: NodeCfg, k: nat)
    requires
        k < cfg.reconnect_retry_count,
    ensures
        spec_health_run(
            health_start(cfg),
            seq![HealthEvent::Begin, HealthEvent::Quit(false), HealthEvent::GotConn(false)] + pairs(
                HealthEvent::Connected(false),
                HealthEvent::Slept,
                k,
            ) + seq![HealthEvent::Connected(true)],
        ).1 == seq![HealthAction::CheckQuit, HealthAction::GetConn, HealthAction::Connect] + pairs(
            HealthAction::Sleep(cfg.reconnect_retry_interval),
            HealthAction::Connect,
            k,
        ) + seq![HealthAction::ReonlineAndTakeup],
{
    let s0 = health_start(cfg);
    let head = seq![HealthEvent::Begin, HealthEvent::Quit(false), HealthEvent::GotConn(false)];
    let mid = pairs(HealthEvent::Connected(false), HealthEvent::Slept, k);
    let last = seq![HealthEvent::Connected(true)];
    lemma_run_append(s0, head + mid, last);
    lemma_run_append(s0, head, mid);
    assert(head =~= seq![HealthEvent::Begin, HealthEvent::Quit(false)] + seq![HealthEvent::GotConn(false)]);
    lemma_run_append(s0, seq![HealthEvent::Begin, HealthEvent::Quit(false)], seq![HealthEvent::GotConn(false)]);
    lemma_run_two(s0, HealthEvent::Begin, HealthEvent::Quit(false));
    let s2 = HealthView { phase: HealthPhase::GettingConn, ..s0 };
    lemma_run_one(s2, HealthEvent::GotConn(false));
    let s3 = HealthView { phase: HealthPhase::Connecting, reconnect_tick: 1, ..s2 };
    assert(spec_health_run(s0, head).0 == s3);
    assert(spec_health_run(s0, head).1 =~= seq![HealthAction::CheckQuit, HealthAction::GetConn, HealthAction::Connect]);
    lemma_connects_partial(s3, k);
    let s4 = HealthView { reconnect_tick: (s3.reconnect_tick + k) as u8, ..s3 };
    lemma_run_one(s4, HealthEvent::Connected(true));
    assert(spec_health_run(s0, head + mid + last).1 =~= seq![
        HealthAction::CheckQuit,
        HealthAction::GetConn,
        HealthAction::Connect,
    ] + pairs(HealthAction::Sleep(cfg.reconnect_retry_interval), HealthAction::Connect, k) + seq![
        HealthAction::ReonlineAndTakeup,
    ]);
}

/// A node that has quit is not checked: the check asks and stops.
pub proof fn lemma_quit_node_stops(cfg: NodeCfg)
    ensures
        spec_health_run(health_start(cfg), seq![HealthEvent::Begin, HealthEvent::Quit(true)]).1 == seq![
            HealthAction::CheckQuit,
            HealthAction::Stop,
        ],
{
    lemma_run_two(health_start(cfg), HealthEvent::Begin, HealthEvent::Quit(true));
}

/// The periodic check of a node: `true` where it has quit (the checks
/// stop); else its pool shrinks as `InnerLine::shrink` says, and `false`.
pub fn shrink_or_quit_check<C>(node: &mut NodePipeLine<C>, retired: &mut Vec<C>) -> (stop: bool)
    requires
        !old(node).quit_flag() && old(node).inner@.total_conn_count > old(node).cfg.min_conns_limit
            ==> inner::closing(old(node).inner@, old(node).cfg.shrink_count as nat) <= old(
            node,
        ).inner@.total_conn_count,
    ensures
        final(node).cfg == old(node).cfg,
        final(node).offline == old(node).offline,
        final(node).quit == old(node).quit,
        inner::line_wf(old(node).inner@) ==> inner::line_wf(final(node).inner@),
        stop == old(node).quit_flag(),
        stop ==> final(node).inner@ == old(node).inner@ && final(retired)@ == old(retired)@,
        !stop && old(node).inner@.total_conn_count <= old(node).cfg.min_conns_limit ==> final(node).inner@
            == old(node).inner@ && final(retired)@ == old(retired)@,
        !stop && old(node).inner@.total_conn_count > old(node).cfg.min_conns_limit ==> final(node).inner@
            == inner::eliminated(old(node).inner@, old(node).cfg.shrink_count as nat) && final(retired)@ == old(
            retired,
        )@ + inner::eliminated_conns(old(node).inner@, old(node).cfg.shrink_count as nat),
{
    if node.is_quit() {
        return true;
    }
    node.inner.shrink(node.cfg.idle_time_to_shrink, node.cfg.min_conns_limit, node.cfg.shrink_count, retired);
    false
}

/// Gives up a connection of the node that was lent: it is closed and no
/// longer counted.
pub fn discard<C>(node: &mut NodePipeLine<C>, conn: C, retired: &mut Vec<C>)
    requires
        old(node).inner@.total_conn_count >= 1,
    ensures
        final(node).cfg == old(node).cfg,
        final(node).offline == old(node).offline,
        final(node).quit == old(node).quit,
        final(node).inner@ == (inner::InnerLineView {
            total_conn_count: (old(node).inner@.total_conn_count - 1) as u64,
            ..old(node).inner@
        }),
        final(retired)@ == old(retired)@.push(conn),
{
    node.inner.discard(conn, retired);
}

/// Takes up a connection newly opened to the node: closed where the node
/// is offline, else taken up by its pool (see `InnerLine::takeup`, with the
/// node's limit).
pub fn takeup<C>(node: &mut NodePipeLine<C>, conn: C, retired: &mut Vec<C>)
    requires
        !(old(node).offline || old(node).quit) && !(old(node).inner@.offline || old(node).inner@.quit)
            ==> old(node).inner@.total_conn_count < u64::MAX,
    ensures
        final(node).cfg == old(node).cfg,
        final(node).offline == old(node).offline,
        final(node).quit == old(node).quit,
        inner::line_wf(old(node).inner@) ==> inner::line_wf(final(node).inner@),
        (old(node).offline || old(node).quit) ==> final(node).inner@ == old(node).inner@ && final(retired)@ == old(
            retired,
        )@.push(conn),
        !(old(node).offline || old(node).quit) && (old(node).inner@.offline || old(node).inner@.quit)
            ==> final(node).inner@ == old(node).inner@ && final(retired)@ == old(retired)@.push(conn),
        !(old(node).offline || old(node).quit) && !(old(node).inner@.offline || old(node).inner@.quit) ==> {
            let b = inner::taken_up(old(node).inner@, seq![conn]);
            if b.total_conn_count > old(node).cfg.max_conns_limit {
                final(node).inner@ == inner::eliminated(b, (b.total_conn_count - old(node).cfg.max_conns_limit) as nat)
                    && final(retired)@ == old(retired)@ + inner::eliminated_conns(
                    b,
                    (b.total_conn_count - old(node).cfg.max_conns_limit) as nat,
                )
            } else {
                final(node).inner@ == b && final(retired)@ == old(retired)@
            }
        },
{
    if !node.is_offline() {
        node.inner.takeup(node.cfg.max_conns_limit, conn, retired);
    } else {
        retired.push(conn);
    }
}

} // verus!
