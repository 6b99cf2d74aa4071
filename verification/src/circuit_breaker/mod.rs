//! Circuit breakers: one failure-tripped gate per upstream.
//!
//! A circuit is `Closed` while its upstream answers, `Open` while requests
//! are rejected, and `HalfOpen` while trial requests probe whether the
//! upstream is back. Time is a count of seconds that the caller supplies.

use vstd::prelude::*;
use crate::config::CircuitBreakerConfig;
use crate::text::{first_index_of, lemma_first_index_of, to_string};

verus! {

#[derive(Debug, Clone, Copy, PartialEq, Eq, Structural)]
pub enum CircuitState {
    /// Requests pass.
    Closed,
    /// Requests are rejected.
    Open,
    /// Trial requests pass.
    HalfOpen,
}

/// The record of one circuit.
#[derive(Debug, Clone, Copy)]
pub struct CircuitStats {
    pub failure_count: u32,
    pub success_count: u32,
    pub last_failure_time: Option<u64>,
    pub state: CircuitState,
    /// When an open circuit lets the next trial through.
    pub next_attempt: Option<u64>,
}

/// The record of a circuit that nothing was observed of.
pub open spec fn fresh() -> CircuitStats {
    CircuitStats {
        failure_count: 0,
        success_count: 0,
        last_failure_time: None,
        state: CircuitState::Closed,
        next_attempt: None,
    }
}

/// The admission check at time `now`: the record after it, and the answer.
/// An open circuit whose time has come turns half-open by the check itself.
pub open spec fn admission(s: CircuitStats, now: u64) -> (CircuitStats, bool) {
    match s.state {
        CircuitState::Closed => (s, true),
        CircuitState::HalfOpen => (s, true),
        CircuitState::Open => match s.next_attempt {
            Some(t) => if now >= t {
                (CircuitStats { state: CircuitState::HalfOpen, success_count: 0, ..s }, true)
            } else {
                (s, false)
            },
            None => (s, false),
        },
    }
}

/// The record after a success was observed.
pub open spec fn succeed(s: CircuitStats, cfg: CircuitBreakerConfig) -> CircuitStats {
    match s.state {
        CircuitState::Closed => CircuitStats { failure_count: 0, ..s },
        CircuitState::HalfOpen => if s.success_count + 1 >= cfg.success_threshold {
            CircuitStats {
                state: CircuitState::Closed,
                failure_count: 0,
                success_count: 0,
                next_attempt: None,
                ..s
            }
        } else {
            CircuitStats { success_count: (s.success_count + 1) as u32, ..s }
        },
        CircuitState::Open => s,
    }
}

/// The record after a failure was observed at time `now`.
pub open spec fn fail(s: CircuitStats, cfg: CircuitBreakerConfig, now: u64) -> CircuitStats {
    let counted = CircuitStats {
        failure_count: (s.failure_count + 1) as u32,
        last_failure_time: Some(now),
        ..s
    };
    let rearmed = Some((now + cfg.recovery_timeout) as u64);
    match s.state {
        CircuitState::Closed => if s.failure_count + 1 >= cfg.failure_threshold {
            CircuitStats { state: CircuitState::Open, next_attempt: rearmed, ..counted }
        } else {
            counted
        },
        CircuitState::HalfOpen => CircuitStats {
            state: CircuitState::Open,
            success_count: 0,
            next_attempt: rearmed,
            ..counted
        },
        CircuitState::Open => CircuitStats { next_attempt: rearmed, ..counted },
    }
}

/// The record after it was opened by hand at time `now`.
pub open spec fn forced_open(s: CircuitStats, cfg: CircuitBreakerConfig, now: u64) -> CircuitStats {
    CircuitStats {
        state: CircuitState::Open,
        next_attempt: Some((now + cfg.recovery_timeout) as u64),
        ..s
    }
}

/// The record after one failure at each of the times, in order.
pub open spec fn after_failures(s: CircuitStats, cfg: CircuitBreakerConfig, times: Seq<u64>) -> CircuitStats
    decreases times.len(),
{
    if times.len() == 0 {
        s
    } else {
        fail(after_failures(s, cfg, times.drop_last()), cfg, times.last())
    }
}

/// The record after `n` successes.
pub open spec fn after_successes(s: CircuitStats, cfg: CircuitBreakerConfig, n: nat) -> CircuitStats
    decreases n,
{
    if n == 0 {
        s
    } else {
        succeed(after_successes(s, cfg, (n - 1) as nat), cfg)
    }
}

/// A closed circuit without failures stays closed under fewer failures in
/// a row than the threshold, and counts them.
pub proof fn lemma_fewer_failures_stay_closed(
    s: CircuitStats,
    cfg: CircuitBreakerConfig,
    times: Seq<u64>,
)
    requires
        s.state == CircuitState::Closed,
        s.failure_count == 0,
        times.len() < cfg.failure_threshold,
    ensures
        after_failures(s, cfg, times).state == CircuitState::Closed,
        after_failures(s, cfg, times).failure_count == times.len(),
    decreases times.len(),
{
    if times.len() > 0 {
        lemma_fewer_failures_stay_closed(s, cfg, times.drop_last());
    }
}

/// A closed circuit without failures opens with the failure that makes
/// their number in a row the threshold, and not before; the next trial is
/// due one recovery timeout after that failure.
pub proof fn lemma_threshold_failures_open(
    s: CircuitStats,
    cfg: CircuitBreakerConfig,
    times: Seq<u64>,
)
    requires
        s.state == CircuitState::Closed,
        s.failure_count == 0,
        cfg.failure_threshold >= 1,
        times.len() == cfg.failure_threshold,
        times.last() + cfg.recovery_timeout <= u64::MAX,
    ensures
        forall|k: int|
            0 <= k < times.len() ==> after_failures(s, cfg, #[trigger] times.take(k)).state
                == CircuitState::Closed,
        after_failures(s, cfg, times).state == CircuitState::Open,
        after_failures(s, cfg, times).next_attempt == Some(
            (times.last() + cfg.recovery_timeout) as u64,
        ),
{
    assert forall|k: int| 0 <= k < times.len() implies after_failures(
        s,
        cfg,
        #[trigger] times.take(k),
    ).state == CircuitState::Closed by {
        lemma_fewer_failures_stay_closed(s, cfg, times.take(k));
    }
    lemma_fewer_failures_stay_closed(s, cfg, times.drop_last());
}

/// An open circuit rejects until its recovery timeout has passed; the
/// first admission check from then on passes and turns it half-open.
pub proof fn lemma_recovery(s: CircuitStats, now: u64)
    requires
        s.state == CircuitState::Open,
        s.next_attempt is Some,
    ensures
        now < s.next_attempt->0 ==> admission(s, now) == (s, false),
        now >= s.next_attempt->0 ==> admission(s, now).1 && admission(s, now).0.state
            == CircuitState::HalfOpen && admission(s, now).0.success_count == 0,
{
}

/// A half-open circuit without successes stays half-open under fewer
/// successes in a row than the threshold.
pub proof fn lemma_fewer_successes_stay_half_open(s: CircuitStats, cfg: CircuitBreakerConfig, n: nat)
    requires
        s.state == CircuitState::HalfOpen,
        s.success_count == 0,
        n < cfg.success_threshold,
    ensures
        after_successes(s, cfg, n).state == CircuitState::HalfOpen,
        after_successes(s, cfg, n).success_count == n,
    decreases n,
{
    if n > 0 {
        lemma_fewer_successes_stay_half_open(s, cfg, (n - 1) as nat);
    }
}

/// A half-open circuit without successes closes with the success that
/// makes their number in a row the threshold, and not before; its
/// counters and its deadline are cleared.
pub proof fn lemma_threshold_successes_close(s: CircuitStats, cfg: CircuitBreakerConfig)
    requires
        s.state == CircuitState::HalfOpen,
        s.success_count == 0,
        cfg.success_threshold >= 1,
    ensures
        forall|k: nat|
            k < cfg.success_threshold ==> (#[trigger] after_successes(s, cfg, k)).state
                == CircuitState::HalfOpen,
        after_successes(s, cfg, cfg.success_threshold as nat).state == CircuitState::Closed,
        after_successes(s, cfg, cfg.success_threshold as nat).failure_count == 0,
        after_successes(s, cfg, cfg.success_threshold as nat).success_count == 0,
        after_successes(s, cfg, cfg.success_threshold as nat).next_attempt is None,
{
    assert forall|k: nat| k < cfg.success_threshold implies (#[trigger] after_successes(
        s,
        cfg,
        k,
    )).state == CircuitState::HalfOpen by {
        lemma_fewer_successes_stay_half_open(s, cfg, k);
    }
    lemma_fewer_successes_stay_half_open(s, cfg, (cfg.success_threshold - 1) as nat);
}

/// Any failure of a half-open circuit opens it again at once, whatever
/// its count of successes: the count is cleared, the next trial is due one
/// recovery timeout after the failure, and every admission check before
/// that is answered with no and leaves the circuit open.
pub proof fn lemma_half_open_failure_opens(s: CircuitStats, cfg: CircuitBreakerConfig, now: u64)
    requires
        s.state == CircuitState::HalfOpen,
    ensures
        fail(s, cfg, now).state == CircuitState::Open,
        fail(s, cfg, now).success_count == 0,
        fail(s, cfg, now).next_attempt == Some((now + cfg.recovery_timeout) as u64),
        now + cfg.recovery_timeout <= u64::MAX ==> forall|earlier: u64|
            earlier < now + cfg.recovery_timeout ==> #[trigger] admission(
                fail(s, cfg, now),
                earlier,
            ) == (fail(s, cfg, now), false),
{
}

impl CircuitStats {
    pub fn new() -> (s: CircuitStats)
        ensures
            s == fresh(),
    {
        CircuitStats {
            failure_count: 0,
            success_count: 0,
            last_failure_time: None,
            state: CircuitState::Closed,
            next_attempt: None,
        }
    }

    /// The admission check at time `now`.
    pub fn on_admission(self, now: u64) -> (r: (CircuitStats, bool))
        ensures
            r == admission(self, now),
    {
        match self.state {
            CircuitState::Closed => (self, true),
            CircuitState::HalfOpen => (self, true),
            CircuitState::Open => match self.next_attempt {
                Some(t) => if now >= t {
                    (CircuitStats { state: CircuitState::HalfOpen, success_count: 0, ..self }, true)
                } else {
                    (self, false)
                },
                None => (self, false),
            },
        }
    }

    /// Observes a success.
    pub fn on_success(self, cfg: &CircuitBreakerConfig) -> (r: CircuitStats)
        requires
            self.state == CircuitState::HalfOpen ==> self.success_count < u32::MAX,
        ensures
            r == succeed(self, *cfg),
    {
        match self.state {
            CircuitState::Closed => CircuitStats { failure_count: 0, ..self },
            CircuitState::HalfOpen => if self.success_count + 1 >= cfg.success_threshold {
                CircuitStats {
                    state: CircuitState::Closed,
                    failure_count: 0,
                    success_count: 0,
                    next_attempt: None,
                    ..self
                }
            } else {
                CircuitStats { success_count: self.success_count + 1, ..self }
            },
            CircuitState::Open => self,
        }
    }

    /// Observes a failure at time `now`.
    pub fn on_failure(self, cfg: &CircuitBreakerConfig, now: u64) -> (r: CircuitStats)
        requires
            self.failure_count < u32::MAX,
            now + cfg.recovery_timeout <= u64::MAX,
        ensures
            r == fail(self, *cfg, now),
    {
        let counted = CircuitStats {
            failure_count: self.failure_count + 1,
            last_failure_time: Some(now),
            ..self
        };
        let rearmed = Some(now + cfg.recovery_timeout);
        match self.state {
            CircuitState::Closed => if counted.failure_count >= cfg.failure_threshold {
                CircuitStats { state: CircuitState::Open, next_attempt: rearmed, ..counted }
            } else {
                counted
            },
            CircuitState::HalfOpen => CircuitStats {
                state: CircuitState::Open,
                success_count: 0,
                next_attempt: rearmed,
                ..counted
            },
            CircuitState::Open => CircuitStats { next_attempt: rearmed, ..counted },
        }
    }
}

impl Default for CircuitStats {
    fn default() -> (s: CircuitStats)
        ensures
            s == fresh(),
    {
        CircuitStats::new()
    }
}

/// The circuits of all upstreams. A circuit comes into being when its
/// upstream is first named; until then it counts as closed and fresh.
pub struct CircuitBreaker {
    config: CircuitBreakerConfig,
    names: Vec<String>,
    stats: Vec<CircuitStats>,
}

impl CircuitBreaker {
    pub closed spec fn config(&self) -> CircuitBreakerConfig {
        self.config
    }

    /// The names of the circuits, in the order in which they came into being.
    pub closed spec fn names(&self) -> Seq<Seq<char>> {
        self.names.deep_view()
    }

    /// Whether a circuit of that name has come into being.
    pub open spec fn known(&self, name: Seq<char>) -> bool {
        self.names().contains(name)
    }

    /// The record of the circuit of that name.
    pub closed spec fn stats_of(&self, name: Seq<char>) -> CircuitStats {
        let k = first_index_of(self.names(), name);
        if k < self.stats.len() {
            self.stats[k]
        } else {
            fresh()
        }
    }

    /// No name has two circuits, and a half-open circuit can count one more success.
    pub closed spec fn wf(&self) -> bool {
        &&& self.names.len() == self.stats.len()
        &&& self.names().no_duplicates()
        &&& forall|k: int|
            0 <= k < self.stats.len() && (#[trigger] self.stats[k]).state == CircuitState::HalfOpen
                ==> self.stats[k].success_count < u32::MAX
    }

    /// Everything but the circuit called `name` is as in `before`.
    pub open spec fn same_but(&self, before: &CircuitBreaker, name: Seq<char>) -> bool {
        &&& self.config() == before.config()
        &&& forall|other: Seq<char>|
            other != name ==> self.stats_of(other) == before.stats_of(other) && self.known(other)
                == before.known(other)
    }

    /// The circuit called `name` has come into being, after all that
    /// were there in `before`, unless it was there already.
    pub open spec fn named_since(&self, before: &CircuitBreaker, name: Seq<char>) -> bool {
        self.names() == if before.known(name) {
            before.names()
        } else {
            before.names().push(name)
        }
    }

    pub fn new(config: CircuitBreakerConfig) -> (cb: CircuitBreaker)
        ensures
            cb.wf(),
            cb.config() == config,
            cb.names() == Seq::<Seq<char>>::empty(),
            forall|name: Seq<char>| !cb.known(name) && cb.stats_of(name) == fresh(),
    {
        let cb = CircuitBreaker { config, names: Vec::new(), stats: Vec::new() };
        assert(cb.names.deep_view() =~= Seq::<Seq<char>>::empty());
        cb
    }

    /// Index of the circuit called `name`, if it has come into being.
    fn position(&self, name: &String) -> (r: Option<usize>)
        requires
            self.wf(),
        ensures
            match r {
                Some(k) => k == first_index_of(self.names(), name@) && k < self.stats.len(),
                None => first_index_of(self.names(), name@) == self.stats.len() && !self.known(
                    name@,
                ),
            },
    {
        let ghost names = self.names();
        let mut k: usize = 0;
        assert(names.skip(0) =~= names);
        while k < self.names.len()
            invariant
                self.wf(),
                0 <= k <= self.names.len(),
                names == self.names(),
                first_index_of(names, name@) == k + first_index_of(names.skip(k as int), name@),
            decreases self.names.len() - k,
        {
            let ghost rest = names.skip(k as int);
            assert(rest[0] == names[k as int]);
            assert(names[k as int] == self.names@[k as int]@);
            if self.names[k] == *name {
                return Some(k);
            }
            assert(rest.drop_first() =~= names.skip(k + 1));
            k += 1;
        }
        proof {
            lemma_first_index_of(names, name@);
        }
        None
    }

    /// Index of the circuit called `name`, which comes into being if it has not yet.
    fn slot(&mut self, name: &str) -> (k: usize)
        requires
            old(self).wf(),
        ensures
            final(self).wf(),
            final(self).config() == old(self).config(),
            k == first_index_of(final(self).names(), name@),
            k < final(self).stats.len(),
            final(self).stats[k as int] == old(self).stats_of(name@),
            final(self).known(name@),
            final(self).named_since(old(self), name@),
            forall|other: Seq<char>|
                other != name@ ==> final(self).stats_of(other) == old(self).stats_of(other)
                    && final(self).known(other) == old(self).known(other),
    {
        let key = to_string(name);
        match self.position(&key) {
            Some(k) => {
                proof {
                    lemma_first_index_of(self.names(), name@);
                    assert(self.names()[k as int] == name@);
                }
                k
            },
            None => {
                let ghost before = self.names();
                self.names.push(key);
                self.stats.push(CircuitStats::new());
                proof {
                    let after = self.names();
                    assert(after =~= before.push(name@));
                    lemma_first_index_of(before, name@);
                    lemma_first_index_of(after, name@);
                    assert(after[before.len() as int] == name@);
                    assert forall|other: Seq<char>| other != name@ implies final(self).stats_of(
                        other,
                    ) == old(self).stats_of(other) && final(self).known(other) == old(
                        self,
                    ).known(other) by {
                        lemma_first_index_of(before, other);
                        lemma_first_index_of(after, other);
                        let a = first_index_of(before, other);
                        let b = first_index_of(after, other);
                        if a < before.len() {
                            assert(after[a] == other);
                            assert(b <= a);
                            assert(before[b] == after[b]);
                        } else {
                            if b < after.len() {
                                assert(b == before.len() || before[b] == after[b]);
                            }
                            if before.push(name@).contains(other) {
                                let j = choose|j: int|
                                    0 <= j < after.len() && after[j] == other;
                                assert(before[j] == other);
                            }
                        }
                    }
                    assert(after[before.len() as int] == name@);
                }
                self.names.len() - 1
            },
        }
    }

    /// Puts `s` in the place of the record at `k`.
    fn store(&mut self, k: usize, s: CircuitStats, Ghost(name): Ghost<Seq<char>>)
        requires
            old(self).wf(),
            k == first_index_of(old(self).names(), name),
            k < old(self).stats.len(),
            s.state == CircuitState::HalfOpen ==> s.success_count < u32::MAX,
        ensures
            final(self).wf(),
            final(self).config() == old(self).config(),
            final(self).names() == old(self).names(),
            final(self).stats_of(name) == s,
            forall|other: Seq<char>|
                other != name ==> final(self).stats_of(other) == old(self).stats_of(other),
    {
        proof {
            lemma_first_index_of(self.names(), name);
        }
        self.stats.set(k, s);
        proof {
            assert forall|other: Seq<char>| other != name implies final(self).stats_of(other)
                == old(self).stats_of(other) by {
                lemma_first_index_of(self.names(), other);
            }
        }
    }

    /// Whether a request to the upstream may go ahead at time `now`. A
    /// breaker that is switched off lets every request go ahead and keeps
    /// no record.
    pub fn can_execute(&mut self, upstream_name: &str, now: u64) -> (allowed: bool)
        requires
            old(self).wf(),
        ensures
            final(self).wf(),
            !old(self).config().enabled ==> allowed && *final(self) == *old(self),
            old(self).config().enabled ==> {
                &&& allowed == admission(old(self).stats_of(upstream_name@), now).1
                &&& final(self).stats_of(upstream_name@) == admission(
                    old(self).stats_of(upstream_name@),
                    now,
                ).0
                &&& final(self).known(upstream_name@)
                &&& final(self).named_since(old(self), upstream_name@)
                &&& final(self).same_but(old(self), upstream_name@)
            },
    {
        if !self.config.enabled {
            return true;
        }
        let k = self.slot(upstream_name);
        let (next, allowed) = self.stats[k].on_admission(now);
        self.store(k, next, Ghost(upstream_name@));
        allowed
    }

    /// Records that a request to the upstream succeeded.
    pub fn record_success(&mut self, upstream_name: &str)
        requires
            old(self).wf(),
        ensures
            final(self).wf(),
            !old(self).config().enabled ==> *final(self) == *old(self),
            old(self).config().enabled ==> {
                &&& final(self).stats_of(upstream_name@) == succeed(
                    old(self).stats_of(upstream_name@),
                    old(self).config(),
                )
                &&& final(self).known(upstream_name@)
                &&& final(self).named_since(old(self), upstream_name@)
                &&& final(self).same_but(old(self), upstream_name@)
            },
    {
        if !self.config.enabled {
            return ;
        }
        let k = self.slot(upstream_name);
        let next = self.stats[k].on_success(&self.config);
        self.store(k, next, Ghost(upstream_name@));
    }

    /// Records that a request to the upstream failed at time `now`.
    pub fn record_failure(&mut self, upstream_name: &str, now: u64)
        requires
            old(self).wf(),
            old(self).config().enabled ==> old(self).stats_of(upstream_name@).failure_count
                < u32::MAX && now + old(self).config().recovery_timeout <= u64::MAX,
        ensures
            final(self).wf(),
            !old(self).config().enabled ==> *final(self) == *old(self),
            old(self).config().enabled ==> {
                &&& final(self).stats_of(upstream_name@) == fail(
                    old(self).stats_of(upstream_name@),
                    old(self).config(),
                    now,
                )
                &&& final(self).known(upstream_name@)
                &&& final(self).named_since(old(self), upstream_name@)
                &&& final(self).same_but(old(self), upstream_name@)
            },
    {
        if !self.config.enabled {
            return ;
        }
        let k = self.slot(upstream_name);
        let next = self.stats[k].on_failure(&self.config, now);
        self.store(k, next, Ghost(upstream_name@));
    }

    /// The state of the circuit of the upstream: `Closed` where the
    /// breaker is switched off or the upstream was never named.
    pub fn get_state(&self, upstream_name: &str) -> (state: CircuitState)
        requires
            self.wf(),
        ensures
            state == if self.config().enabled {
                self.stats_of(upstream_name@).state
            } else {
                CircuitState::Closed
            },
    {
        if !self.config.enabled {
            return CircuitState::Closed;
        }
        self.get_stats(upstream_name).state
    }

    /// The record of the circuit of the upstream.
    pub fn get_stats(&self, upstream_name: &str) -> (s: CircuitStats)
        requires
            self.wf(),
        ensures
            s == self.stats_of(upstream_name@),
    {
        let key = to_string(upstream_name);
        match self.position(&key) {
            Some(k) => self.stats[k],
            None => CircuitStats::new(),
        }
    }

    /// Name, state, failures and successes of every circuit that has come
    /// into being, in the order in which they did.
    pub fn get_all_stats(&self) -> (all: Vec<(String, (CircuitState, u32, u32))>)
        requires
            self.wf(),
        ensures
            all.len() == self.names().len(),
            forall|k: int|
                0 <= k < all.len() ==> {
                    let s = self.stats_of(self.names()[k]);
                    &&& (#[trigger] all[k]).0@ == self.names()[k]
                    &&& all[k].1 == (s.state, s.failure_count, s.success_count)
                },
    {
        let mut all: Vec<(String, (CircuitState, u32, u32))> = Vec::new();
        let mut k: usize = 0;
        while k < self.names.len()
            invariant
                self.wf(),
                0 <= k <= self.names.len(),
                all.len() == k,
                forall|j: int|
                    0 <= j < k ==> {
                        let s = self.stats_of(self.names()[j]);
                        &&& (#[trigger] all[j]).0@ == self.names()[j]
                        &&& all[j].1 == (s.state, s.failure_count, s.success_count)
                    },
            decreases self.names.len() - k,
        {
            proof {
                lemma_first_index_of(self.names(), self.names()[k as int]);
            }
            let s = self.stats[k];
            all.push((self.names[k].clone(), (s.state, s.failure_count, s.success_count)));
            k += 1;
        }
        all
    }

    /// Closes the circuit of the upstream and clears its record. An
    /// upstream that was never named stays so. A breaker that is switched
    /// off does nothing.
    pub fn reset(&mut self, upstream_name: &str)
        requires
            old(self).wf(),
        ensures
            final(self).wf(),
            !old(self).config().enabled ==> *final(self) == *old(self),
            old(self).config().enabled ==> {
                &&& final(self).stats_of(upstream_name@) == fresh()
                &&& final(self).names() == old(self).names()
                &&& final(self).same_but(old(self), upstream_name@)
            },
    {
        if !self.config.enabled {
            return ;
        }
        let key = to_string(upstream_name);
        match self.position(&key) {
            Some(k) => {
                self.store(k, CircuitStats::new(), Ghost(upstream_name@));
            },
            None => {},
        }
    }

    /// Opens the circuit of the upstream at time `now`, whatever its
    /// record; the next trial is due one recovery timeout later. A
    /// breaker that is switched off does nothing.
    pub fn force_open(&mut self, upstream_name: &str, now: u64)
        requires
            old(self).wf(),
            old(self).config().enabled ==> now + old(self).config().recovery_timeout <= u64::MAX,
        ensures
            final(self).wf(),
            !old(self).config().enabled ==> *final(self) == *old(self),
            old(self).config().enabled ==> {
                &&& final(self).stats_of(upstream_name@) == forced_open(
                    old(self).stats_of(upstream_name@),
                    old(self).config(),
                    now,
                )
                &&& final(self).known(upstream_name@)
                &&& final(self).named_since(old(self), upstream_name@)
                &&& final(self).same_but(old(self), upstream_name@)
            },
    {
        if !self.config.enabled {
            return ;
        }
        let k = self.slot(upstream_name);
        let s = self.stats[k];
        let next = CircuitStats {
            state: CircuitState::Open,
            next_attempt: Some(now + self.config.recovery_timeout),
            ..s
        };
        self.store(k, next, Ghost(upstream_name@));
    }

    /// Whether the breaker is switched on.
    pub fn is_enabled(&self) -> (b: bool)
        ensures
            b == self.config().enabled,
    {
        self.config.enabled
    }

    /// Seconds that an open circuit rejects before it lets a trial through.
    pub fn recovery_timeout(&self) -> (t: u64)
        ensures
            t == self.config().recovery_timeout,
    {
        self.config.recovery_timeout
    }
}

} // verus!
