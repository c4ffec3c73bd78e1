//! A three-state circuit breaker.
//!
//! Time is a count of milliseconds read from a monotonic clock by the caller.

use vstd::prelude::*;

verus! {

/// Thresholds and cool-down of a breaker.
#[derive(Debug, Clone, Copy, PartialEq, Eq, Structural)]
pub struct CircuitBreakerConfig {
    /// Consecutive failures that open the circuit.
    pub failure_threshold: usize,
    /// Consecutive successes in half-open state that close it again.
    pub success_threshold: usize,
    /// Milliseconds an open circuit rejects calls before it admits a probe.
    pub timeout_ms: u64,
}

impl Default for CircuitBreakerConfig {
    fn default() -> (config: Self)
        ensures
            config.failure_threshold == 5,
            config.success_threshold == 2,
            config.timeout_ms == 60_000,
    {
        CircuitBreakerConfig { failure_threshold: 5, success_threshold: 2, timeout_ms: 60_000 }
    }
}

/// Where a breaker stands.
#[derive(Debug, Clone, Copy, PartialEq, Eq, Structural)]
pub enum BreakerState {
    /// Calls pass; `failures` counts the failures since the last success.
    Closed { failures: usize },
    /// Calls are rejected until the cool-down after `opened_at` has passed.
    Open { opened_at: u64 },
    /// Calls pass as probes; `successes` counts those that succeeded.
    HalfOpen { successes: usize },
}

/// Why a guarded call produced no value.
#[derive(Debug)]
pub enum CircuitBreakerError<E> {
    /// The circuit was open: the operation was not run.
    Open,
    /// The operation ran and failed.
    OperationFailed(E),
}

/// Whether a call made at `now` is let through.
pub open spec fn admits(state: BreakerState, config: CircuitBreakerConfig, now: u64) -> bool {
    match state {
        BreakerState::Open { opened_at } => now - opened_at > config.timeout_ms,
        _ => true,
    }
}

/// The state after a call at `now` has asked for admission.
pub open spec fn after_admission(
    state: BreakerState,
    config: CircuitBreakerConfig,
    now: u64,
) -> BreakerState {
    match state {
        BreakerState::Open { opened_at } => if now - opened_at > config.timeout_ms {
            BreakerState::HalfOpen { successes: 0 }
        } else {
            state
        },
        _ => state,
    }
}

/// The state after an admitted call has succeeded.
pub open spec fn after_success(state: BreakerState, config: CircuitBreakerConfig) -> BreakerState {
    match state {
        BreakerState::HalfOpen { successes } => if successes + 1 >= config.success_threshold {
            BreakerState::Closed { failures: 0 }
        } else {
            BreakerState::HalfOpen { successes: (successes + 1) as usize }
        },
        _ => BreakerState::Closed { failures: 0 },
    }
}

/// The state after an admitted call has failed at `now`.
pub open spec fn after_failure(
    state: BreakerState,
    config: CircuitBreakerConfig,
    now: u64,
) -> BreakerState {
    match state {
        BreakerState::Closed { failures } => if failures + 1 >= config.failure_threshold {
            BreakerState::Open { opened_at: now }
        } else {
            BreakerState::Closed { failures: (failures + 1) as usize }
        },
        BreakerState::HalfOpen { .. } => BreakerState::Open { opened_at: now },
        BreakerState::Open { .. } => state,
    }
}

/// The state after `n` admitted calls in a row have failed at `now`.
pub open spec fn after_failures(
    state: BreakerState,
    config: CircuitBreakerConfig,
    now: u64,
    n: nat,
) -> BreakerState
    decreases n,
{
    if n == 0 {
        state
    } else {
        after_failure(after_failures(state, config, now, (n - 1) as nat), config, now)
    }
}

/// The state after `n` admitted calls in a row have succeeded.
pub open spec fn after_successes(
    state: BreakerState,
    config: CircuitBreakerConfig,
    n: nat,
) -> BreakerState
    decreases n,
{
    if n == 0 {
        state
    } else {
        after_success(after_successes(state, config, (n - 1) as nat), config)
    }
}

/// Fewer failures in a row than the threshold leave a closed circuit closed,
/// with every one of them counted.
proof fn lemma_failures_below_threshold(config: CircuitBreakerConfig, now: u64, n: nat)
    requires
        n < config.failure_threshold,
    ensures
        after_failures(BreakerState::Closed { failures: 0 }, config, now, n) == (
        BreakerState::Closed { failures: n as usize }),
    decreases n,
{
    if n > 0 {
        lemma_failures_below_threshold(config, now, (n - 1) as nat);
    }
}

/// Fewer probe successes in a row than the threshold leave a half-open
/// circuit half-open, with every one of them counted.
proof fn lemma_successes_below_threshold(config: CircuitBreakerConfig, n: nat)
    requires
        n < config.success_threshold,
    ensures
        after_successes(BreakerState::HalfOpen { successes: 0 }, config, n) == (
        BreakerState::HalfOpen { successes: n as usize }),
    decreases n,
{
    if n > 0 {
        lemma_successes_below_threshold(config, (n - 1) as nat);
    }
}

/// An open circuit admits no call until more than the cool-down has passed
/// since it opened, and asking leaves it as it was.
pub proof fn lemma_open_circuit_rejects_during_cooldown(
    config: CircuitBreakerConfig,
    opened_at: u64,
    now: u64,
)
    requires
        now - opened_at <= config.timeout_ms,
    ensures
        !admits(BreakerState::Open { opened_at }, config, now),
        after_admission(BreakerState::Open { opened_at }, config, now) == (BreakerState::Open {
            opened_at,
        }),
{
}

/// From a closed circuit with no failure on record, as many failures in a
/// row as the failure threshold open the circuit. A threshold of zero is
/// left out: no failure at all opens nothing.
pub proof fn lemma_threshold_failures_open(config: CircuitBreakerConfig, now: u64)
    requires
        config.failure_threshold >= 1,
    ensures
        after_failures(
            BreakerState::Closed { failures: 0 },
            config,
            now,
            config.failure_threshold as nat,
        ) == (BreakerState::Open { opened_at: now }),
{
    lemma_failures_below_threshold(config, now, (config.failure_threshold - 1) as nat);
}

/// From a half-open circuit with no success on record, as many successes in
/// a row as the success threshold close the circuit. A threshold of zero is
/// left out: no success at all closes nothing.
pub proof fn lemma_threshold_successes_close(config: CircuitBreakerConfig)
    requires
        config.success_threshold >= 1,
    ensures
        after_successes(
            BreakerState::HalfOpen { successes: 0 },
            config,
            config.success_threshold as nat,
        ) == (BreakerState::Closed { failures: 0 }),
{
    lemma_successes_below_threshold(config, (config.success_threshold - 1) as nat);
}

/// A breaker for one remote host.
#[derive(Debug, Clone, Copy)]
pub struct CircuitBreaker {
    state: BreakerState,
    config: CircuitBreakerConfig,
}

impl CircuitBreaker {
    /// The current state.
    pub closed spec fn state(&self) -> BreakerState {
        self.state
    }

    /// The configuration the breaker was made with.
    pub closed spec fn config(&self) -> CircuitBreakerConfig {
        self.config
    }

    /// A closed breaker with no failure on record.
    pub fn new(config: CircuitBreakerConfig) -> (breaker: Self)
        ensures
            breaker.state() == (BreakerState::Closed { failures: 0 }),
            breaker.config() == config,
    {
        CircuitBreaker { state: BreakerState::Closed { failures: 0 }, config }
    }

    /// The current state, for monitoring.
    pub fn current_state(&self) -> (state: BreakerState)
        ensures
            state == self.state(),
    {
        self.state
    }

    /// The configuration, for monitoring.
    pub fn configuration(&self) -> (config: CircuitBreakerConfig)
        ensures
            config == self.config(),
    {
        self.config
    }

    /// Whether the circuit is open, whatever the time.
    pub fn is_open(&self) -> (open: bool)
        ensures
            open == (self.state() is Open),
    {
        match self.state {
            BreakerState::Open { .. } => true,
            _ => false,
        }
    }

    /// Asks for admission of a call at `now`. An open circuit whose cool-down
    /// has passed turns half-open and admits the call as a probe.
    pub fn try_admit(&mut self, now: u64) -> (admitted: bool)
        ensures
            admitted == admits(old(self).state(), old(self).config(), now),
            final(self).state() == after_admission(old(self).state(), old(self).config(), now),
            final(self).config() == old(self).config(),
    {
        match self.state {
            BreakerState::Open { opened_at } => {
                if now > opened_at && now - opened_at > self.config.timeout_ms {
                    self.state = BreakerState::HalfOpen { successes: 0 };
                    true
                } else {
                    false
                }
            },
            _ => true,
        }
    }

    /// Records that an admitted call succeeded.
    pub fn record_success(&mut self)
        ensures
            final(self).state() == after_success(old(self).state(), old(self).config()),
            final(self).config() == old(self).config(),
    {
        self.state = match self.state {
            BreakerState::HalfOpen { successes } => {
                if successes == usize::MAX || successes + 1 >= self.config.success_threshold {
                    BreakerState::Closed { failures: 0 }
                } else {
                    BreakerState::HalfOpen { successes: successes + 1 }
                }
            },
            _ => BreakerState::Closed { failures: 0 },
        };
    }

    /// Records that an admitted call failed at `now`.
    pub fn record_failure(&mut self, now: u64)
        ensures
            final(self).state() == after_failure(old(self).state(), old(self).config(), now),
            final(self).config() == old(self).config(),
    {
        self.state = match self.state {
            BreakerState::Closed { failures } => {
                if failures == usize::MAX || failures + 1 >= self.config.failure_threshold {
                    BreakerState::Open { opened_at: now }
                } else {
                    BreakerState::Closed { failures: failures + 1 }
                }
            },
            BreakerState::HalfOpen { .. } => BreakerState::Open { opened_at: now },
            BreakerState::Open { opened_at } => BreakerState::Open { opened_at },
        };
    }

    /// Runs `operation` under the breaker: rejected without running while
    /// the circuit is open at `now`, otherwise run once and its outcome
    /// recorded. Where the operation fails, `clock` is read for the time of
    /// the failure.
    pub fn call<T, E, F: FnOnce() -> Result<T, E>, C: FnOnce() -> u64>(
        &mut self,
        now: u64,
        operation: F,
        clock: C,
    ) -> (result: Result<T, CircuitBreakerError<E>>)
        requires
            operation.requires(()),
            clock.requires(()),
        ensures
            final(self).config() == old(self).config(),
            (result matches Err(CircuitBreakerError::Open)) <==> !admits(
                old(self).state(),
                old(self).config(),
                now,
            ),
            match result {
                Err(CircuitBreakerError::Open) => final(self).state() == old(self).state(),
                Ok(value) => operation.ensures((), Ok(value)) && final(self).state()
                    == after_success(
                    after_admission(old(self).state(), old(self).config(), now),
                    old(self).config(),
                ),
                Err(CircuitBreakerError::OperationFailed(error)) => operation.ensures(
                    (),
                    Err(error),
                ) && exists|failed_at: u64|
                    #[trigger] clock.ensures((), failed_at) && final(self).state()
                        == after_failure(
                        after_admission(old(self).state(), old(self).config(), now),
                        old(self).config(),
                        failed_at,
                    ),
            },
    {
        if !self.try_admit(now) {
            return Err(CircuitBreakerError::Open);
        }
        match operation() {
            Ok(value) => {
                self.record_success();
                Ok(value)
            },
            Err(error) => {
                let failed_at = clock();
                self.record_failure(failed_at);
                Err(CircuitBreakerError::OperationFailed(error))
            },
        }
    }
}

struct HostBreaker {
    host: String,
    breaker: CircuitBreaker,
}

spec fn guards(entries: Seq<HostBreaker>, host: Seq<char>, i: int) -> bool {
    0 <= i < entries.len() && entries[i].host@ == host
}

spec fn state_in(entries: Seq<HostBreaker>, host: Seq<char>) -> BreakerState {
    if exists|i: int| guards(entries, host, i) {
        entries[choose|i: int| guards(entries, host, i)].breaker.state()
    } else {
        BreakerState::Closed { failures: 0 }
    }
}

spec fn distinct_hosts(entries: Seq<HostBreaker>) -> bool {
    forall|i: int, j: int|
        0 <= i < j < entries.len() ==> (#[trigger] entries[i]).host@ != (
        #[trigger] entries[j]).host@
}

proof fn lemma_state_at(entries: Seq<HostBreaker>, i: int)
    requires
        distinct_hosts(entries),
        0 <= i < entries.len(),
    ensures
        state_in(entries, entries[i].host@) == entries[i].breaker.state(),
{
    let host = entries[i].host@;
    assert(guards(entries, host, i));
    let chosen = choose|j: int| guards(entries, host, j);
    assert(guards(entries, host, chosen));
    if chosen < i {
        assert(entries[chosen].host@ != entries[i].host@);
    } else if i < chosen {
        assert(entries[i].host@ != entries[chosen].host@);
    }
}

proof fn lemma_state_absent(entries: Seq<HostBreaker>, host: Seq<char>)
    requires
        forall|i: int| 0 <= i < entries.len() ==> (#[trigger] entries[i]).host@ != host,
    ensures
        state_in(entries, host) == (BreakerState::Closed { failures: 0 }),
{
    assert forall|i: int| !guards(entries, host, i) by {
        if 0 <= i < entries.len() {
            assert(entries[i].host@ != host);
        }
    }
}

/// A change to the breaker of one host leaves those of all others alone.
proof fn lemma_state_frame(before: Seq<HostBreaker>, after: Seq<HostBreaker>, slot: int)
    requires
        distinct_hosts(before),
        0 <= slot < after.len(),
        before.len() <= after.len() <= before.len() + 1,
        slot < before.len() ==> after.len() == before.len(),
        forall|i: int|
            0 <= i < before.len() ==> (#[trigger] after[i]).host@ == before[i].host@,
        forall|i: int| 0 <= i < before.len() && i != slot ==> #[trigger] after[i] == before[i],
        slot == before.len() ==> forall|i: int|
            0 <= i < before.len() ==> (#[trigger] before[i]).host@ != after[slot].host@,
    ensures
        distinct_hosts(after),
        state_in(after, after[slot].host@) == after[slot].breaker.state(),
        forall|host: Seq<char>|
            host != after[slot].host@ ==> state_in(after, host) == state_in(before, host),
{
    assert forall|i: int, j: int| 0 <= i < j < after.len() implies (#[trigger] after[i]).host@ != (
    #[trigger] after[j]).host@ by {
        if j < before.len() {
            assert(before[i].host@ != before[j].host@);
        } else {
            assert(before[i].host@ != after[slot].host@);
        }
    }
    lemma_state_at(after, slot);
    assert forall|host: Seq<char>| host != after[slot].host@ implies state_in(after, host)
        == state_in(before, host) by {
        if exists|i: int| guards(before, host, i) {
            let i = choose|i: int| guards(before, host, i);
            assert(guards(before, host, i));
            assert(after[i].host@ == before[i].host@);
            assert(after[i] == before[i]);
            lemma_state_at(before, i);
            lemma_state_at(after, i);
        } else {
            assert forall|i: int| 0 <= i < before.len() implies (#[trigger] before[i]).host@
                != host by {
                assert(!guards(before, host, i));
            }
            assert forall|i: int| 0 <= i < after.len() implies (#[trigger] after[i]).host@
                != host by {
                if i < before.len() {
                    assert(after[i].host@ == before[i].host@);
                }
            }
            lemma_state_absent(before, host);
            lemma_state_absent(after, host);
        }
    }
}

/// The breakers of all remote hosts, each made when its host is first met.
pub struct BreakerRegistry {
    entries: Vec<HostBreaker>,
    config: CircuitBreakerConfig,
}

impl BreakerRegistry {
    /// The state of the breaker of `host`. A host that was never met has a
    /// closed breaker with no failure on record.
    pub closed spec fn state_of(&self, host: Seq<char>) -> BreakerState {
        state_in(self.entries@, host)
    }

    /// The configuration that every breaker is made with.
    pub closed spec fn config(&self) -> CircuitBreakerConfig {
        self.config
    }

    /// The registry is well-formed: one breaker for a host, all of one
    /// configuration.
    pub closed spec fn wf(&self) -> bool {
        &&& distinct_hosts(self.entries@)
        &&& forall|i: int|
            0 <= i < self.entries@.len() ==> (#[trigger] self.entries@[i]).breaker.config()
                == self.config
    }

    /// A registry that has met no host.
    pub fn new(config: CircuitBreakerConfig) -> (registry: Self)
        ensures
            registry.wf(),
            registry.config() == config,
            forall|host: Seq<char>|
                registry.state_of(host) == (BreakerState::Closed { failures: 0 }),
    {
        let registry = BreakerRegistry { entries: Vec::new(), config };
        assert forall|host: Seq<char>| registry.state_of(host) == (BreakerState::Closed {
            failures: 0,
        }) by {
            lemma_state_absent(registry.entries@, host);
        }
        registry
    }

    /// The place of the breaker of `host`, which is made if there is none.
    fn slot_of(&mut self, host: &str) -> (slot: usize)
        requires
            old(self).wf(),
        ensures
            final(self).wf(),
            final(self).config() == old(self).config(),
            forall|other: Seq<char>| final(self).state_of(other) == old(self).state_of(other),
            slot < final(self).entries@.len(),
            final(self).entries@[slot as int].host@ == host@,
            final(self).entries@[slot as int].breaker.state() == old(self).state_of(host@),
    {
        let wanted = host.to_owned();
        let mut slot: usize = 0;
        while slot < self.entries.len()
            invariant
                slot <= self.entries@.len(),
                *self == *old(self),
                self.wf(),
                wanted@ == host@,
                forall|i: int| 0 <= i < slot ==> (#[trigger] self.entries@[i]).host@ != host@,
            decreases self.entries@.len() - slot,
        {
            if self.entries[slot].host == wanted {
                proof {
                    lemma_state_at(self.entries@, slot as int);
                }
                return slot;
            }
            slot += 1;
        }
        proof {
            lemma_state_absent(self.entries@, host@);
        }
        self.entries.push(HostBreaker { host: wanted, breaker: CircuitBreaker::new(self.config) });
        proof {
            lemma_state_frame(old(self).entries@, self.entries@, slot as int);
        }
        slot
    }

    /// The breaker of `host` as it stands, made closed if there was none.
    pub fn get_or_create_breaker(&mut self, host: &str) -> (breaker: CircuitBreaker)
        requires
            old(self).wf(),
        ensures
            final(self).wf(),
            final(self).config() == old(self).config(),
            forall|other: Seq<char>| final(self).state_of(other) == old(self).state_of(other),
            breaker.state() == old(self).state_of(host@),
            breaker.config() == old(self).config(),
    {
        let slot = self.slot_of(host);
        self.entries[slot].breaker
    }

    /// Whether the circuit of `host` is open, whatever the time.
    pub fn is_open(&self, host: &str) -> (open: bool)
        requires
            self.wf(),
        ensures
            open == (self.state_of(host@) is Open),
    {
        let wanted = host.to_owned();
        let mut slot: usize = 0;
        while slot < self.entries.len()
            invariant
                slot <= self.entries@.len(),
                self.wf(),
                wanted@ == host@,
                forall|i: int| 0 <= i < slot ==> (#[trigger] self.entries@[i]).host@ != host@,
            decreases self.entries@.len() - slot,
        {
            if self.entries[slot].host == wanted {
                proof {
                    lemma_state_at(self.entries@, slot as int);
                }
                return self.entries[slot].breaker.is_open();
            }
            slot += 1;
        }
        proof {
            lemma_state_absent(self.entries@, host@);
        }
        false
    }

    /// Asks the breaker of `host` for admission of a call at `now`.
    pub fn try_admit(&mut self, host: &str, now: u64) -> (admitted: bool)
        requires
            old(self).wf(),
        ensures
            final(self).wf(),
            final(self).config() == old(self).config(),
            admitted == admits(old(self).state_of(host@), old(self).config(), now),
            final(self).state_of(host@) == after_admission(
                old(self).state_of(host@),
                old(self).config(),
                now,
            ),
            forall|other: Seq<char>|
                other != host@ ==> final(self).state_of(other) == old(self).state_of(other),
    {
        let slot = self.slot_of(host);
        let ghost before = self.entries@;
        let admitted = self.entries[slot].breaker.try_admit(now);
        proof {
            lemma_state_frame(before, self.entries@, slot as int);
        }
        admitted
    }

    /// Records that an admitted call to `host` succeeded.
    pub fn record_success(&mut self, host: &str)
        requires
            old(self).wf(),
        ensures
            final(self).wf(),
            final(self).config() == old(self).config(),
            final(self).state_of(host@) == after_success(
                old(self).state_of(host@),
                old(self).config(),
            ),
            forall|other: Seq<char>|
                other != host@ ==> final(self).state_of(other) == old(self).state_of(other),
    {
        let slot = self.slot_of(host);
        let ghost before = self.entries@;
        self.entries[slot].breaker.record_success();
        proof {
            lemma_state_frame(before, self.entries@, slot as int);
        }
    }

    /// Records that an admitted call to `host` failed at `now`.
    pub fn record_failure(&mut self, host: &str, now: u64)
        requires
            old(self).wf(),
        ensures
            final(self).wf(),
            final(self).config() == old(self).config(),
            final(self).state_of(host@) == after_failure(
                old(self).state_of(host@),
                old(self).config(),
                now,
            ),
            forall|other: Seq<char>|
                other != host@ ==> final(self).state_of(other) == old(self).state_of(other),
    {
        let slot = self.slot_of(host);
        let ghost before = self.entries@;
        self.entries[slot].breaker.record_failure(now);
        proof {
            lemma_state_frame(before, self.entries@, slot as int);
        }
    }
}

} // verus!
