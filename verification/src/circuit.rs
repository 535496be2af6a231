//! Circuit breaker: persistent per-name state and the state machine that decides
//! whether a request runs and how its outcome changes the state.
//!
//! ```text
//! CLOSED --[failures >= threshold]--> OPEN
//! OPEN --[reset_timeout elapsed]--> HALF_OPEN
//! HALF_OPEN --[success]--> CLOSED (after success_threshold successes)
//! HALF_OPEN --[failure]--> OPEN
//! ```
//!
//! Running the operation is left to the caller: `begin` says whether it may run,
//! `complete` records its outcome.
use vstd::prelude::*;
use crate::clock::unix_now_ms;
use crate::duration::{Duration, NANOS_PER_MILLI};
use crate::json::JsonValue;
use crate::text::{str_eq, concat_str};

verus! {

/// Error type for circuit breaker operations.
#[derive(Debug, PartialEq, Eq)]
pub enum CircuitBreakerError {
    /// Circuit is open - request rejected
    CircuitOpen {
        /// Name of the circuit breaker
        name: String,
        /// When the circuit will attempt to close (if available)
        retry_after: Option<Duration>,
    },
    /// State store operation failed
    StateError(String),
    /// Underlying operation failed
    OperationFailed(String),
}

/// The state of a circuit breaker.
#[derive(Debug, Clone, Copy, PartialEq, Eq, Structural)]
pub enum CircuitStateEnum {
    /// Circuit is closed - requests flow normally
    Closed,
    /// Circuit is open - requests are rejected
    Open,
    /// Circuit is half-open - allowing test requests
    HalfOpen,
}

impl Default for CircuitStateEnum {
    fn default() -> (r: CircuitStateEnum)
        ensures
            r == CircuitStateEnum::Closed,
    {
        CircuitStateEnum::Closed
    }
}

/// How `{:?}` shows a `std::time::Duration` of the given nanoseconds.
pub uninterp spec fn debug_duration(nanos: int) -> Seq<char>;

/// Formats, with `format!("{:?}", ..)`, the `std::time::Duration` of the same
/// span (`<Duration as Debug>::fmt`). Claims only that the text is a function of
/// the span.
#[verifier::external_body]
fn duration_debug(d: &Duration) -> (r: String)
    ensures
        r@ == debug_duration(d@),
{
    format!("{:?}", std::time::Duration::new(d.as_secs(), d.subsec_nanos()))
}

/// The text of a circuit breaker error.
pub open spec fn error_text(e: CircuitBreakerError) -> Seq<char> {
    match e {
        CircuitBreakerError::CircuitOpen { name, retry_after } => "circuit '"@ + name@ + "' is open"@ + match retry_after {
            Some(d) => ", retry after "@ + debug_duration(d@),
            None => Seq::empty(),
        },
        CircuitBreakerError::StateError(m) => "state error: "@ + m@,
        CircuitBreakerError::OperationFailed(m) => "operation failed: "@ + m@,
    }
}

impl CircuitBreakerError {
    /// The error's text.
    pub fn message(&self) -> (r: String)
        ensures
            r@ == error_text(*self),
    {
        match self {
            CircuitBreakerError::CircuitOpen { name, retry_after } => {
                let a = concat_str("circuit '", name.as_str());
                let b = concat_str(a.as_str(), "' is open");
                match retry_after {
                    Some(d) => {
                        let t = duration_debug(d);
                        let c = concat_str(", retry after ", t.as_str());
                        let r = concat_str(b.as_str(), c.as_str());
                        assert(r@ =~= error_text(*self));
                        r
                    },
                    None => {
                        assert(b@ =~= error_text(*self));
                        b
                    },
                }
            },
            CircuitBreakerError::StateError(m) => concat_str("state error: ", m.as_str()),
            CircuitBreakerError::OperationFailed(m) => concat_str("operation failed: ", m.as_str()),
        }
    }
}

/// Persistent state for a circuit breaker.
#[derive(Debug, Clone, Copy, PartialEq, Eq, Structural)]
pub struct CircuitState {
    /// Current state of the circuit
    pub state: CircuitStateEnum,
    /// Number of consecutive failures
    pub failure_count: u32,
    /// Timestamp of the last failure (as Unix timestamp in milliseconds)
    pub last_failure_time_ms: Option<u64>,
    /// Number of successful requests in half-open state
    pub success_count_in_half_open: u32,
    /// Timestamp when the circuit transitioned to open state (Unix ms)
    pub opened_at_ms: Option<u64>,
}

/// A closed circuit with no failures recorded.
pub open spec fn closed_state() -> CircuitState {
    CircuitState {
        state: CircuitStateEnum::Closed,
        failure_count: 0,
        last_failure_time_ms: None,
        success_count_in_half_open: 0,
        opened_at_ms: None,
    }
}

impl Default for CircuitState {
    fn default() -> (r: CircuitState)
        ensures
            r == closed_state(),
    {
        CircuitState {
            state: CircuitStateEnum::Closed,
            failure_count: 0,
            last_failure_time_ms: None,
            success_count_in_half_open: 0,
            opened_at_ms: None,
        }
    }
}

/// The clock reading in milliseconds, zero when the clock is before the epoch.
pub open spec fn reading_or_zero(now: Option<u64>) -> u64 {
    match now {
        Some(n) => n,
        None => 0,
    }
}

/// Time from `since` to `now` in nanoseconds, when both are known and `now` is not
/// earlier.
pub open spec fn spec_elapsed(since: Option<u64>, now: Option<u64>) -> Option<int> {
    match (since, now) {
        (Some(s), Some(n)) => if n >= s {
            Some((n - s) * NANOS_PER_MILLI)
        } else {
            None
        },
        _ => None,
    }
}

/// Whether the last failure lies within `window` (nanoseconds) of `now`.
pub open spec fn spec_within_window(s: CircuitState, window: int, now: Option<u64>) -> bool {
    match spec_elapsed(s.last_failure_time_ms, now) {
        Some(e) => e <= window,
        None => false,
    }
}

/// The state after a recorded failure at time `t`.
pub open spec fn spec_record_failure(s: CircuitState, t: u64) -> CircuitState {
    CircuitState { failure_count: (s.failure_count + 1) as u32, last_failure_time_ms: Some(t), ..s }
}

/// The state after opening at time `t`.
pub open spec fn spec_open(s: CircuitState, t: u64) -> CircuitState {
    CircuitState {
        state: CircuitStateEnum::Open,
        opened_at_ms: Some(t),
        success_count_in_half_open: 0,
        ..s
    }
}

/// The state after moving to half-open.
pub open spec fn spec_half_open(s: CircuitState) -> CircuitState {
    CircuitState { state: CircuitStateEnum::HalfOpen, success_count_in_half_open: 0, ..s }
}

/// The state after a success: counted only while half-open.
pub open spec fn spec_record_success(s: CircuitState) -> CircuitState {
    if s.state == CircuitStateEnum::HalfOpen {
        CircuitState {
            success_count_in_half_open: (s.success_count_in_half_open + 1) as u32,
            ..s
        }
    } else {
        s
    }
}

/// The state after a failed operation in the closed state, at clock reading `now`:
/// the failure is counted when the previous one lies within the window, otherwise
/// counting starts afresh at one; reaching the threshold opens the circuit.
pub open spec fn spec_closed_failure(
    s: CircuitState,
    threshold: u32,
    window: int,
    now: Option<u64>,
) -> CircuitState {
    let t = reading_or_zero(now);
    let counted = if spec_within_window(s, window, now) {
        spec_record_failure(s, t)
    } else {
        CircuitState { failure_count: 1, last_failure_time_ms: Some(t), ..s }
    };
    if counted.failure_count >= threshold {
        spec_open(counted, t)
    } else {
        counted
    }
}

/// The state after a successful operation in the closed state: the run of
/// consecutive failures ends.
pub open spec fn spec_closed_success(s: CircuitState) -> CircuitState {
    CircuitState { failure_count: 0, ..s }
}

/// The state after a successful operation while recovering: enough successes
/// close the circuit.
pub open spec fn spec_recovery_success(s: CircuitState, success_threshold: u32) -> CircuitState {
    let r = spec_record_success(s);
    if r.success_count_in_half_open >= success_threshold {
        closed_state()
    } else {
        r
    }
}

impl CircuitState {
    /// The counters that the state machine increments can still be incremented:
    /// a closed circuit has fewer than `u32::MAX` failures, a half-open one fewer
    /// than `u32::MAX` successes.
    pub open spec fn wf(&self) -> bool {
        &&& self.state == CircuitStateEnum::Closed ==> self.failure_count < u32::MAX
        &&& self.state == CircuitStateEnum::HalfOpen ==> self.success_count_in_half_open
            < u32::MAX
    }

    /// Time since the last failure, at clock reading `now`.
    pub fn time_since_last_failure_at(&self, now: Option<u64>) -> (r: Option<Duration>)
        ensures
            match spec_elapsed(self.last_failure_time_ms, now) {
                Some(e) => r matches Some(d) && d@ == e,
                None => r is None,
            },
    {
        elapsed_between(self.last_failure_time_ms, now)
    }

    /// Time since the circuit opened, at clock reading `now`.
    pub fn time_since_opened_at(&self, now: Option<u64>) -> (r: Option<Duration>)
        ensures
            match spec_elapsed(self.opened_at_ms, now) {
                Some(e) => r matches Some(d) && d@ == e,
                None => r is None,
            },
    {
        elapsed_between(self.opened_at_ms, now)
    }

    /// Get the time since the last failure, if any.
    pub fn time_since_last_failure(&self) -> (r: Option<Duration>)
        ensures
            exists|now: Option<u64>|
                match #[trigger] spec_elapsed(self.last_failure_time_ms, now) {
                    Some(e) => r matches Some(d) && d@ == e,
                    None => r is None,
                },
    {
        self.time_since_last_failure_at(unix_now_ms())
    }

    /// Get the time since the circuit opened, if any.
    pub fn time_since_opened(&self) -> (r: Option<Duration>)
        ensures
            exists|now: Option<u64>|
                match #[trigger] spec_elapsed(self.opened_at_ms, now) {
                    Some(e) => r matches Some(d) && d@ == e,
                    None => r is None,
                },
    {
        self.time_since_opened_at(unix_now_ms())
    }

    /// Current time in milliseconds since the epoch, zero when unknown.
    fn now_ms() -> u64 {
        match unix_now_ms() {
            Some(n) => n,
            None => 0,
        }
    }

    /// Record a failure at time `t` (milliseconds).
    pub fn record_failure_at(&mut self, t: u64)
        requires
            old(self).failure_count < u32::MAX,
        ensures
            *final(self) == spec_record_failure(*old(self), t),
    {
        self.failure_count = self.failure_count + 1;
        self.last_failure_time_ms = Some(t);
    }

    /// Record a failure now.
    pub fn record_failure(&mut self)
        requires
            old(self).failure_count < u32::MAX,
        ensures
            exists|t: u64| *final(self) == spec_record_failure(*old(self), t),
    {
        let t = Self::now_ms();
        self.record_failure_at(t);
    }

    /// Record a success (counted only while half-open).
    pub fn record_success(&mut self)
        requires
            old(self).state == CircuitStateEnum::HalfOpen ==> old(self).success_count_in_half_open < u32::MAX,
        ensures
            *final(self) == spec_record_success(*old(self)),
    {
        if self.state == CircuitStateEnum::HalfOpen {
            self.success_count_in_half_open = self.success_count_in_half_open + 1;
        }
    }

    /// Transition to the open state at time `t`.
    pub fn transition_to_open_at(&mut self, t: u64)
        ensures
            *final(self) == spec_open(*old(self), t),
    {
        self.state = CircuitStateEnum::Open;
        self.opened_at_ms = Some(t);
        self.success_count_in_half_open = 0;
    }

    /// Transition to the open state now.
    pub fn transition_to_open(&mut self)
        ensures
            exists|t: u64| *final(self) == spec_open(*old(self), t),
    {
        let t = Self::now_ms();
        self.transition_to_open_at(t);
    }

    /// Transition to the half-open state.
    pub fn transition_to_half_open(&mut self)
        ensures
            *final(self) == spec_half_open(*old(self)),
    {
        self.state = CircuitStateEnum::HalfOpen;
        self.success_count_in_half_open = 0;
    }

    /// Transition to the closed state, forgetting all failures.
    pub fn transition_to_closed(&mut self)
        ensures
            *final(self) == closed_state(),
    {
        self.state = CircuitStateEnum::Closed;
        self.failure_count = 0;
        self.last_failure_time_ms = None;
        self.opened_at_ms = None;
        self.success_count_in_half_open = 0;
    }

    /// Whether the last failure lies within `window` of clock reading `now`.
    pub fn failures_within_window_at(&self, window: &Duration, now: Option<u64>) -> (r: bool)
        ensures
            r == spec_within_window(*self, window@, now),
    {
        match self.time_since_last_failure_at(now) {
            Some(elapsed) => elapsed.le(window),
            None => false,
        }
    }

    /// Check if failures are within the specified window.
    pub fn failures_within_window(&self, window: &Duration) -> (r: bool)
        ensures
            exists|now: Option<u64>| r == #[trigger] spec_within_window(*self, window@, now),
    {
        self.failures_within_window_at(window, unix_now_ms())
    }
}

/// Time from `since` to `now` as a duration.
fn elapsed_between(since: Option<u64>, now: Option<u64>) -> (r: Option<Duration>)
    ensures
        match spec_elapsed(since, now) {
            Some(e) => r matches Some(d) && d@ == e,
            None => r is None,
        },
{
    match (since, now) {
        (Some(s), Some(n)) => {
            if n >= s {
                Some(Duration::from_millis(n - s))
            } else {
                None
            }
        },
        _ => None,
    }
}

/// Configuration for a circuit breaker.
#[derive(Debug, PartialEq)]
pub struct CircuitBreakerSpec {
    /// Unique name for this circuit breaker
    pub name: String,
    /// Number of failures before the circuit opens
    pub failure_threshold: u32,
    /// Duration the circuit stays open before transitioning to half-open
    pub reset_timeout: Duration,
    /// Time window in which failures are counted
    pub failure_window: Duration,
    /// Number of successful requests in half-open state before closing the circuit
    pub success_threshold: u32,
    /// Optional fallback value to return when the circuit is open
    pub fallback: Option<JsonValue>,
}

/// Default failure threshold: 5.
pub fn default_failure_threshold() -> (r: u32)
    ensures
        r == 5,
{
    5
}

/// Default reset timeout: 30 seconds.
pub fn default_reset_timeout() -> (r: Duration)
    ensures
        r@ == 30 * 1_000_000_000,
{
    Duration::from_secs(30)
}

/// Default failure window: 60 seconds.
pub fn default_failure_window() -> (r: Duration)
    ensures
        r@ == 60 * 1_000_000_000,
{
    Duration::from_secs(60)
}

/// Default success threshold: 3.
pub fn default_success_threshold() -> (r: u32)
    ensures
        r == 3,
{
    3
}

impl Default for CircuitBreakerSpec {
    fn default() -> (r: CircuitBreakerSpec)
        ensures
            r.name@ == Seq::<char>::empty(),
            r.failure_threshold == 5,
            r.reset_timeout@ == 30 * 1_000_000_000,
            r.failure_window@ == 60 * 1_000_000_000,
            r.success_threshold == 3,
            r.fallback is None,
    {
        CircuitBreakerSpec {
            name: String::new(),
            failure_threshold: default_failure_threshold(),
            reset_timeout: default_reset_timeout(),
            failure_window: default_failure_window(),
            success_threshold: default_success_threshold(),
            fallback: None,
        }
    }
}

/// Storage of circuit breaker states by name.
///
/// Implementations may keep the states in memory or in an outside store. A store
/// gives back the states that were saved in it.
pub trait StateStore {
    /// The stored states, by circuit name.
    spec fn circuits(&self) -> Map<Seq<char>, CircuitState>;

    /// The store never fails to load or save.
    spec fn infallible(&self) -> bool;

    /// Load circuit breaker state by name. `None` if no state exists (new circuit).
    fn load_circuit_state(&self, name: &str) -> (r: Result<Option<CircuitState>, String>)
        ensures
            self.infallible() ==> r is Ok,
            r matches Ok(Some(s)) ==> s.wf() && self.circuits().contains_key(name@)
                && self.circuits()[name@] == s,
            r matches Ok(None) ==> !self.circuits().contains_key(name@),
    ;

    /// Save circuit breaker state.
    fn save_circuit_state(&mut self, name: &str, state: &CircuitState) -> (r: Result<(), String>)
        requires
            state.wf(),
        ensures
            old(self).infallible() ==> r is Ok,
            final(self).infallible() == old(self).infallible(),
            r is Ok ==> final(self).circuits() == old(self).circuits().insert(name@, *state),
    ;
}

/// In-memory state store for testing and single-instance deployments.
pub struct InMemoryStateStore {
    circuits: Vec<(String, CircuitState)>,
}

/// The states of a list of named entries, the first entry of a name counting.
pub open spec fn entries_map(entries: Seq<(String, CircuitState)>) -> Map<Seq<char>, CircuitState>
    decreases entries.len(),
{
    if entries.len() == 0 {
        Map::empty()
    } else {
        let last = entries.last();
        let rest = entries_map(entries.drop_last());
        if rest.contains_key(last.0@) {
            rest
        } else {
            rest.insert(last.0@, last.1)
        }
    }
}

impl InMemoryStateStore {
    #[verifier::type_invariant]
    spec fn inv(self) -> bool {
        &&& forall|i: int| 0 <= i < self.circuits.len() ==> (#[trigger] self.circuits@[i]).1.wf()
        &&& forall|i: int, j: int|
            0 <= i < j < self.circuits.len() ==> (#[trigger] self.circuits@[i]).0@ != (
            #[trigger] self.circuits@[j]).0@
    }

    /// The stored states, by circuit name.
    pub closed spec fn stored(&self) -> Map<Seq<char>, CircuitState> {
        entries_map(self.circuits@)
    }

    /// An empty store.
    pub fn new() -> (s: InMemoryStateStore)
        ensures
            s.stored() == Map::<Seq<char>, CircuitState>::empty(),
            s.circuits() == Map::<Seq<char>, CircuitState>::empty(),
            s.infallible(),
    {
        InMemoryStateStore { circuits: Vec::new() }
    }

    fn position(&self, name: &str) -> (r: Option<usize>)
        ensures
            match r {
                Some(i) => i < self.circuits@.len() && self.circuits@[i as int].0@ == name@,
                None => forall|j: int|
                    0 <= j < self.circuits@.len() ==> self.circuits@[j].0@ != name@,
            },
    {
        let mut i: usize = 0;
        while i < self.circuits.len()
            invariant
                i <= self.circuits@.len(),
                forall|j: int| 0 <= j < i ==> self.circuits@[j].0@ != name@,
            decreases self.circuits@.len() - i,
        {
            if str_eq(self.circuits[i].0.as_str(), name) {
                return Some(i);
            }
            i = i + 1;
        }
        None
    }
}

proof fn lemma_entries_map_absent(entries: Seq<(String, CircuitState)>, name: Seq<char>)
    requires
        forall|j: int| 0 <= j < entries.len() ==> entries[j].0@ != name,
    ensures
        !entries_map(entries).contains_key(name),
    decreases entries.len(),
{
    if entries.len() > 0 {
        lemma_entries_map_absent(entries.drop_last(), name);
    }
}

proof fn lemma_entries_map_at(entries: Seq<(String, CircuitState)>, i: int)
    requires
        0 <= i < entries.len(),
        forall|a: int, b: int|
            0 <= a < b < entries.len() ==> (#[trigger] entries[a]).0@ != (#[trigger] entries[b]).0@,
    ensures
        entries_map(entries).contains_key(entries[i].0@),
        entries_map(entries)[entries[i].0@] == entries[i].1,
    decreases entries.len(),
{
    let init = entries.drop_last();
    if i == entries.len() - 1 {
        assert forall|j: int| 0 <= j < init.len() implies init[j].0@ != entries[i].0@ by {
            assert(init[j] == entries[j]);
        }
        lemma_entries_map_absent(init, entries[i].0@);
    } else {
        assert(init[i] == entries[i]);
        lemma_entries_map_at(init, i);
    }
}

proof fn lemma_entries_map_update(entries: Seq<(String, CircuitState)>, i: int, e: (String, CircuitState))
    requires
        0 <= i < entries.len(),
        entries[i].0@ == e.0@,
        forall|a: int, b: int|
            0 <= a < b < entries.len() ==> (#[trigger] entries[a]).0@ != (#[trigger] entries[b]).0@,
    ensures
        entries_map(entries.update(i, e)) == entries_map(entries).insert(e.0@, e.1),
    decreases entries.len(),
{
    let updated = entries.update(i, e);
    let init = entries.drop_last();
    assert(updated.drop_last() == if i == entries.len() - 1 { init } else { init.update(i, e) });
    if i == entries.len() - 1 {
        assert forall|j: int| 0 <= j < init.len() implies init[j].0@ != e.0@ by {
            assert(init[j] == entries[j]);
        }
        lemma_entries_map_absent(init, e.0@);
        assert(entries_map(updated) =~= entries_map(entries).insert(e.0@, e.1));
    } else {
        lemma_entries_map_update(init, i, e);
        assert(init[i] == entries[i]);
        lemma_entries_map_at(init, i);
        let last = entries.last();
        assert(last.0@ != e.0@);
        assert(updated.last() == last);
        assert(entries_map(updated) =~= entries_map(entries).insert(e.0@, e.1));
    }
}

impl StateStore for InMemoryStateStore {
    closed spec fn circuits(&self) -> Map<Seq<char>, CircuitState> {
        self.stored()
    }

    open spec fn infallible(&self) -> bool {
        true
    }

    fn load_circuit_state(&self, name: &str) -> (r: Result<Option<CircuitState>, String>)
        ensures
            r is Ok,
    {
        proof {
            use_type_invariant(self);
        }
        match self.position(name) {
            Some(i) => {
                proof {
                    lemma_entries_map_at(self.circuits@, i as int);
                }
                Ok(Some(self.circuits[i].1))
            },
            None => {
                proof {
                    lemma_entries_map_absent(self.circuits@, name@);
                }
                Ok(None)
            },
        }
    }

    fn save_circuit_state(&mut self, name: &str, state: &CircuitState) -> (r: Result<(), String>)
        ensures
            r is Ok,
    {
        proof {
            use_type_invariant(&*self);
        }
        let ghost old_entries = self.circuits@;
        let pos = self.position(name);
        let mut entries: Vec<(String, CircuitState)> = Vec::new();
        std::mem::swap(&mut entries, &mut self.circuits);
        let key = name.to_owned();
        match pos {
            Some(i) => {
                proof {
                    lemma_entries_map_update(old_entries, i as int, (key, *state));
                }
                entries.set(i, (key, *state));
            },
            None => {
                proof {
                    lemma_entries_map_absent(old_entries, name@);
                    assert(old_entries.push((key, *state)).drop_last() == old_entries);
                }
                entries.push((key, *state));
            },
        }
        std::mem::swap(&mut entries, &mut self.circuits);
        Ok(())
    }
}

/// The permission to run one operation through a circuit breaker, holding the state
/// that its outcome will update.
#[derive(Debug, Clone, Copy, PartialEq, Eq, Structural)]
pub enum Admission {
    /// The circuit is closed; failures are counted.
    Closed(CircuitState),
    /// The circuit is half-open; the operation tests whether it may close.
    Recovering(CircuitState),
}

impl Admission {
    /// The state carried is the one its kind expects, and it is well formed.
    pub open spec fn wf(&self) -> bool {
        match *self {
            Admission::Closed(s) => s.state == CircuitStateEnum::Closed && s.wf(),
            Admission::Recovering(s) => s.state == CircuitStateEnum::HalfOpen && s.wf(),
        }
    }
}

/// Whether an open circuit may try to close: the reset timeout has passed, or the
/// opening time is unknown.
pub open spec fn spec_should_attempt_reset(s: CircuitState, reset_timeout: int, now: Option<u64>) -> bool {
    match spec_elapsed(s.opened_at_ms, now) {
        Some(e) => e >= reset_timeout,
        None => true,
    }
}


/// The state after a run of failed operations in the closed state, the i-th at
/// clock reading `times[i]`.
pub open spec fn spec_closed_failures(
    s: CircuitState,
    threshold: u32,
    window: int,
    times: Seq<u64>,
) -> CircuitState
    decreases times.len(),
{
    if times.len() == 0 {
        s
    } else {
        spec_closed_failure(
            spec_closed_failures(s, threshold, window, times.drop_last()),
            threshold,
            window,
            Some(times.last()),
        )
    }
}

/// Each failure follows the previous one within the window.
pub open spec fn failures_close_together(times: Seq<u64>, window: int) -> bool {
    forall|i: int|
        0 < i < times.len() ==> times[i - 1] <= #[trigger] times[i] && (times[i] - times[i - 1])
            * NANOS_PER_MILLI <= window
}

proof fn lemma_closed_failures_count(threshold: u32, window: int, times: Seq<u64>, k: int)
    requires
        0 <= k <= times.len(),
        k < threshold,
        failures_close_together(times, window),
    ensures
        ({
            let st = spec_closed_failures(closed_state(), threshold, window, times.take(k));
            &&& st.state == CircuitStateEnum::Closed
            &&& st.failure_count == k
            &&& st.last_failure_time_ms == if k == 0 {
                None::<u64>
            } else {
                Some(times[k - 1])
            }
        }),
    decreases k,
{
    if k > 0 {
        lemma_closed_failures_count(threshold, window, times, k - 1);
        assert(times.take(k).drop_last() == times.take(k - 1));
        assert(times.take(k).last() == times[k - 1]);
        if k > 1 {
            assert(times[k - 2] <= times[k - 1]);
        }
    }
}

/// A closed circuit with no failures opens on the `failure_threshold`-th consecutive
/// failure, when each failure follows the previous one within the failure window;
/// before that it stays closed, counting them.
pub proof fn law_failures_open_circuit(threshold: u32, window: int, times: Seq<u64>)
    requires
        threshold >= 1,
        times.len() == threshold,
        failures_close_together(times, window),
    ensures
        spec_closed_failures(closed_state(), threshold, window, times).state
            == CircuitStateEnum::Open,
        forall|k: int|
            0 <= k < threshold ==> (#[trigger] spec_closed_failures(
                closed_state(),
                threshold,
                window,
                times.take(k),
            )).state == CircuitStateEnum::Closed,
{
    let n = threshold as int;
    lemma_closed_failures_count(threshold, window, times, n - 1);
    assert(times.take(n) == times);
    assert(times.take(n).drop_last() == times.take(n - 1));
    if n > 1 {
        assert(times[n - 2] <= times[n - 1]);
    }
    assert forall|k: int| 0 <= k < threshold implies (#[trigger] spec_closed_failures(
        closed_state(),
        threshold,
        window,
        times.take(k),
    )).state == CircuitStateEnum::Closed by {
        lemma_closed_failures_count(threshold, window, times, k);
    }
}

/// The state after `n` successful operations while recovering.
pub open spec fn spec_recovery_successes(s: CircuitState, success_threshold: u32, n: nat) -> CircuitState
    decreases n,
{
    if n == 0 {
        s
    } else {
        spec_recovery_success(
            spec_recovery_successes(s, success_threshold, (n - 1) as nat),
            success_threshold,
        )
    }
}

proof fn lemma_recovery_count(s: CircuitState, success_threshold: u32, k: nat)
    requires
        s.state == CircuitStateEnum::HalfOpen,
        s.success_count_in_half_open == 0,
        k < success_threshold,
    ensures
        spec_recovery_successes(s, success_threshold, k) == (CircuitState {
            success_count_in_half_open: k as u32,
            ..s
        }),
    decreases k,
{
    if k > 0 {
        lemma_recovery_count(s, success_threshold, (k - 1) as nat);
    }
}

/// A circuit that has just become half-open closes, forgetting all failures, on the
/// `success_threshold`-th successful operation, and stays half-open before that.
pub proof fn law_successes_close_circuit(s: CircuitState, success_threshold: u32)
    requires
        s.state == CircuitStateEnum::Open,
        success_threshold >= 1,
    ensures
        spec_recovery_successes(spec_half_open(s), success_threshold, success_threshold as nat)
            == closed_state(),
        forall|k: nat|
            k < success_threshold ==> (#[trigger] spec_recovery_successes(
                spec_half_open(s),
                success_threshold,
                k,
            )).state == CircuitStateEnum::HalfOpen,
{
    lemma_recovery_count(spec_half_open(s), success_threshold, (success_threshold - 1) as nat);
    assert forall|k: nat| k < success_threshold implies (#[trigger] spec_recovery_successes(
        spec_half_open(s),
        success_threshold,
        k,
    )).state == CircuitStateEnum::HalfOpen by {
        lemma_recovery_count(spec_half_open(s), success_threshold, k);
    }
}

/// A failure while recovering always reopens the circuit, at the time of the failure.
pub proof fn law_recovery_failure_reopens(s: CircuitState, t: u64)
    ensures
        spec_open(s, t).state == CircuitStateEnum::Open,
        spec_open(s, t).opened_at_ms == Some(t),
        spec_open(s, t).success_count_in_half_open == 0,
{
}

/// Every state the machine moves to can take the next step without overflow.
pub proof fn law_steps_keep_wf(s: CircuitState, threshold: u32, success_threshold: u32, window: int, now: Option<u64>, t: u64)
    requires
        s.wf(),
    ensures
        s.state == CircuitStateEnum::Closed ==> spec_closed_failure(s, threshold, window, now).wf(),
        s.state == CircuitStateEnum::HalfOpen ==> spec_recovery_success(s, success_threshold).wf(),
        spec_open(s, t).wf(),
        spec_half_open(s).wf(),
        closed_state().wf(),
{
}

/// What `begin_at` answers, with the stored circuits before (`circuits`) and
/// after (`after`).
pub open spec fn begin_answer(
    circuits: Map<Seq<char>, CircuitState>,
    after: Map<Seq<char>, CircuitState>,
    infallible: bool,
    spec: CircuitBreakerSpec,
    now: Option<u64>,
    r: Result<Admission, CircuitBreakerError>,
) -> bool {
    ({
        let name = spec.name@;
        let s = if circuits.contains_key(name) {
            circuits[name]
        } else {
            closed_state()
        };
        match r {
            Ok(a) => a.wf() && match a {
                Admission::Closed(st) => st == s && s.state == CircuitStateEnum::Closed
                    && after == circuits,
                Admission::Recovering(st) => (s.state == CircuitStateEnum::HalfOpen
                    && st == s && after == circuits) || (s.state
                    == CircuitStateEnum::Open && spec_should_attempt_reset(
                    s,
                    spec.reset_timeout@,
                    now,
                ) && st == spec_half_open(s) && after
                    == circuits.insert(name, st)),
            },
            Err(CircuitBreakerError::CircuitOpen { name: n, retry_after }) => {
                &&& n@ == name
                &&& s.state == CircuitStateEnum::Open
                &&& !spec_should_attempt_reset(s, spec.reset_timeout@, now)
                &&& after == circuits
                &&& match spec_elapsed(s.opened_at_ms, now) {
                    Some(e) => retry_after matches Some(d) && d@ == spec.reset_timeout@
                        - e,
                    None => retry_after is None,
                }
            },
            Err(CircuitBreakerError::StateError(_)) => !infallible && (after == circuits || (s.state
                == CircuitStateEnum::Open && spec_should_attempt_reset(s, spec.reset_timeout@, now))),
            Err(CircuitBreakerError::OperationFailed(_)) => false,
        }
    })
}

/// What `complete_at` answers, with the stored circuits before (`circuits`) and
/// after (`after`).
pub open spec fn complete_answer(
    circuits: Map<Seq<char>, CircuitState>,
    after: Map<Seq<char>, CircuitState>,
    infallible: bool,
    spec: CircuitBreakerSpec,
    admission: Admission,
    outcome: Result<(), String>,
    now: Option<u64>,
    r: Result<(), CircuitBreakerError>,
) -> bool {
    ({
        let name = spec.name@;
        let t = reading_or_zero(now);
        match (admission, outcome) {
            (Admission::Closed(s), Ok(())) => if s.failure_count == 0 {
                r is Ok && after == circuits
            } else {
                match r {
                    Ok(()) => after == circuits.insert(name, spec_closed_success(s)),
                    Err(CircuitBreakerError::StateError(_)) => !infallible,
                    _ => false,
                }
            },
            (Admission::Closed(s), Err(e)) => match r {
                Err(CircuitBreakerError::OperationFailed(m)) => m@ == e@ && after == circuits.insert(
                    name,
                    spec_closed_failure(
                        s,
                        spec.failure_threshold,
                        spec.failure_window@,
                        now,
                    ),
                ),
                Err(CircuitBreakerError::StateError(_)) => !infallible,
                _ => false,
            },
            (Admission::Recovering(s), Ok(())) => match r {
                Ok(()) => after == circuits.insert(
                    name,
                    spec_recovery_success(s, spec.success_threshold),
                ),
                Err(CircuitBreakerError::StateError(_)) => !infallible,
                _ => false,
            },
            (Admission::Recovering(s), Err(e)) => match r {
                Err(CircuitBreakerError::OperationFailed(m)) => m@ == e@ && after == circuits.insert(name, spec_open(s, t)),
                Err(CircuitBreakerError::StateError(_)) => !infallible,
                _ => false,
            },
        }
    })
}

/// Circuit breaker executor that manages state and controls request flow.
pub struct CircuitBreakerExecutor<S: StateStore> {
    store: S,
}

impl<S: StateStore> CircuitBreakerExecutor<S> {
    /// Create a new circuit breaker executor with the given state store.
    pub fn new(store: S) -> (r: Self)
        ensures
            r.store_view().circuits() == store.circuits(),
            r.store_view().infallible() == store.infallible(),
    {
        CircuitBreakerExecutor { store }
    }

    /// The state store.
    pub fn store(&self) -> (r: &S)
        ensures
            *r == self.store_view(),
    {
        &self.store
    }

    /// The state store, given back.
    pub fn into_store(self) -> (r: S)
        ensures
            r == self.store_view(),
    {
        self.store
    }

    pub closed spec fn store_view(&self) -> S {
        self.store
    }

    /// Decides, at clock reading `now`, whether a request may run.
    ///
    /// A closed or half-open circuit admits it. An open circuit whose reset timeout
    /// has passed (or whose opening time is unknown) is saved as half-open and admits
    /// it for recovery. Otherwise the request is rejected with `CircuitOpen`, naming
    /// the time left until the reset timeout when it is known. Store failures give
    /// `StateError`.
    pub fn begin_at(&mut self, spec: &CircuitBreakerSpec, now: Option<u64>) -> (r: Result<
        Admission,
        CircuitBreakerError,
    >)
        ensures
            begin_answer(
                old(self).store_view().circuits(),
                final(self).store_view().circuits(),
                old(self).store_view().infallible(),
                *spec,
                now,
                r,
            ),
            final(self).store_view().infallible() == old(self).store_view().infallible(),
    {
        let loaded = match self.store.load_circuit_state(spec.name.as_str()) {
            Ok(o) => o,
            Err(e) => return Err(CircuitBreakerError::StateError(e)),
        };
        let mut state = match loaded {
            Some(s) => s,
            None => CircuitState::default(),
        };
        match state.state {
            CircuitStateEnum::Closed => Ok(Admission::Closed(state)),
            CircuitStateEnum::HalfOpen => Ok(Admission::Recovering(state)),
            CircuitStateEnum::Open => {
                let elapsed = state.time_since_opened_at(now);
                let attempt = match elapsed {
                    Some(e) => spec.reset_timeout.le(&e),
                    None => true,
                };
                if attempt {
                    state.transition_to_half_open();
                    match self.store.save_circuit_state(spec.name.as_str(), &state) {
                        Ok(()) => Ok(Admission::Recovering(state)),
                        Err(e) => Err(CircuitBreakerError::StateError(e)),
                    }
                } else {
                    let retry_after = match elapsed {
                        Some(e) => Some(spec.reset_timeout.saturating_sub(&e)),
                        None => None,
                    };
                    Err(CircuitBreakerError::CircuitOpen { name: spec.name.clone(), retry_after })
                }
            },
        }
    }

    /// Records, at clock reading `now`, the outcome of an operation that `admission`
    /// let run.
    ///
    /// Closed: a success ends the run of consecutive failures (the count, when
    /// not zero, is saved as zero); a failure is counted (see
    /// `spec_closed_failure`), saved, and reported as `OperationFailed`.
    /// Recovering: a success is counted and enough of them close the circuit; a
    /// failure reopens it; the new state is saved. Store failures give `StateError`.
    pub fn complete_at(
        &mut self,
        spec: &CircuitBreakerSpec,
        admission: Admission,
        outcome: Result<(), String>,
        now: Option<u64>,
    ) -> (r: Result<(), CircuitBreakerError>)
        requires
            admission.wf(),
        ensures
            complete_answer(
                old(self).store_view().circuits(),
                final(self).store_view().circuits(),
                old(self).store_view().infallible(),
                *spec,
                admission,
                outcome,
                now,
                r,
            ),
            final(self).store_view().infallible() == old(self).store_view().infallible(),
    {
        let t = match now {
            Some(n) => n,
            None => 0,
        };
        match admission {
            Admission::Closed(s) => {
                let mut state = s;
                match outcome {
                    Ok(()) => {
                        if state.failure_count == 0 {
                            Ok(())
                        } else {
                            state.failure_count = 0;
                            match self.store.save_circuit_state(spec.name.as_str(), &state) {
                                Ok(()) => Ok(()),
                                Err(se) => Err(CircuitBreakerError::StateError(se)),
                            }
                        }
                    },
                    Err(e) => {
                        if state.failures_within_window_at(&spec.failure_window, now) {
                            state.record_failure_at(t);
                        } else {
                            state.failure_count = 1;
                            state.last_failure_time_ms = Some(t);
                        }
                        if state.failure_count >= spec.failure_threshold {
                            state.transition_to_open_at(t);
                        }
                        match self.store.save_circuit_state(spec.name.as_str(), &state) {
                            Ok(()) => Err(CircuitBreakerError::OperationFailed(e)),
                            Err(se) => Err(CircuitBreakerError::StateError(se)),
                        }
                    },
                }
            },
            Admission::Recovering(s) => {
                let mut state = s;
                match outcome {
                    Ok(()) => {
                        state.record_success();
                        if state.success_count_in_half_open >= spec.success_threshold {
                            state.transition_to_closed();
                        }
                        match self.store.save_circuit_state(spec.name.as_str(), &state) {
                            Ok(()) => Ok(()),
                            Err(se) => Err(CircuitBreakerError::StateError(se)),
                        }
                    },
                    Err(e) => {
                        state.transition_to_open_at(t);
                        match self.store.save_circuit_state(spec.name.as_str(), &state) {
                            Ok(()) => Err(CircuitBreakerError::OperationFailed(e)),
                            Err(se) => Err(CircuitBreakerError::StateError(se)),
                        }
                    },
                }
            },
        }
    }

    /// `begin_at` with the current clock reading.
    pub fn begin(&mut self, spec: &CircuitBreakerSpec) -> (r: Result<Admission, CircuitBreakerError>)
        ensures
            exists|now: Option<u64>|
                #[trigger] begin_answer(
                    old(self).store_view().circuits(),
                    final(self).store_view().circuits(),
                    old(self).store_view().infallible(),
                    *spec,
                    now,
                    r,
                ),
            final(self).store_view().infallible() == old(self).store_view().infallible(),
    {
        let now = unix_now_ms();
        self.begin_at(spec, now)
    }

    /// `complete_at` with the current clock reading.
    pub fn complete(
        &mut self,
        spec: &CircuitBreakerSpec,
        admission: Admission,
        outcome: Result<(), String>,
    ) -> (r: Result<(), CircuitBreakerError>)
        requires
            admission.wf(),
        ensures
            exists|now: Option<u64>|
                #[trigger] complete_answer(
                    old(self).store_view().circuits(),
                    final(self).store_view().circuits(),
                    old(self).store_view().infallible(),
                    *spec,
                    admission,
                    outcome,
                    now,
                    r,
                ),
            final(self).store_view().infallible() == old(self).store_view().infallible(),
    {
        let now = unix_now_ms();
        self.complete_at(spec, admission, outcome, now)
    }
}

/// The stored state of circuit `name`: the closed state when none is stored.
pub open spec fn stored_state(circuits: Map<Seq<char>, CircuitState>, name: Seq<char>) -> CircuitState {
    if circuits.contains_key(name) {
        circuits[name]
    } else {
        closed_state()
    }
}

/// The closed-state steps of a run of outcomes, the i-th at clock reading
/// `times[i]`: a failure is counted (see `spec_closed_failure`), a success ends
/// the run of consecutive failures.
pub open spec fn spec_closed_run(
    s: CircuitState,
    threshold: u32,
    window: int,
    outcomes: Seq<Result<(), String>>,
    times: Seq<u64>,
) -> CircuitState
    decreases outcomes.len(),
{
    if outcomes.len() == 0 {
        s
    } else {
        let prev = spec_closed_run(s, threshold, window, outcomes.drop_last(), times);
        match outcomes.last() {
            Ok(()) => spec_closed_success(prev),
            Err(_) => spec_closed_failure(prev, threshold, window, Some(times[outcomes.len() - 1])),
        }
    }
}

/// The answers of one call (admission at `cs[i]`, completion with `outcomes[i]`
/// at `times[i]`) against a store that cannot fail, for each call of a run.
pub open spec fn calls_of_run(
    spec: CircuitBreakerSpec,
    cs: Seq<Map<Seq<char>, CircuitState>>,
    mids: Seq<Map<Seq<char>, CircuitState>>,
    r1s: Seq<Result<Admission, CircuitBreakerError>>,
    r2s: Seq<Result<(), CircuitBreakerError>>,
    outcomes: Seq<Result<(), String>>,
    times: Seq<u64>,
) -> bool {
    &&& cs.len() == outcomes.len() + 1
    &&& mids.len() == outcomes.len()
    &&& r1s.len() == outcomes.len()
    &&& r2s.len() == outcomes.len()
    &&& times.len() == outcomes.len()
    &&& forall|i: int|
        0 <= i < outcomes.len() ==> #[trigger] begin_answer(cs[i], mids[i], true, spec, Some(times[i]), r1s[i])
    &&& forall|i: int|
        0 <= i < outcomes.len() ==> (#[trigger] r1s[i] matches Ok(a) ==> complete_answer(
            mids[i],
            cs[i + 1],
            true,
            spec,
            a,
            outcomes[i],
            Some(times[i]),
            r2s[i],
        ))
}

/// What a call's completion answers for an outcome: a failure is reported as
/// `OperationFailed` with its message, a success as success.
pub open spec fn completion_reports(outcome: Result<(), String>, r: Result<(), CircuitBreakerError>) -> bool {
    match outcome {
        Ok(()) => r is Ok,
        Err(e) => r matches Err(CircuitBreakerError::OperationFailed(m)) && m@ == e@,
    }
}

/// One call on a closed circuit against a store that cannot fail: it is
/// admitted with the stored state and leaves the store as it is; its
/// completion stores the closed-state step for its outcome and reports it.
pub proof fn law_closed_call(
    spec: CircuitBreakerSpec,
    c0: Map<Seq<char>, CircuitState>,
    c1: Map<Seq<char>, CircuitState>,
    c2: Map<Seq<char>, CircuitState>,
    now: u64,
    r1: Result<Admission, CircuitBreakerError>,
    outcome: Result<(), String>,
    r2: Result<(), CircuitBreakerError>,
)
    requires
        stored_state(c0, spec.name@).state == CircuitStateEnum::Closed,
        begin_answer(c0, c1, true, spec, Some(now), r1),
        r1 matches Ok(a) ==> complete_answer(c1, c2, true, spec, a, outcome, Some(now), r2),
    ensures
        r1 == Ok::<Admission, CircuitBreakerError>(Admission::Closed(stored_state(c0, spec.name@))),
        c1 == c0,
        completion_reports(outcome, r2),
        stored_state(c2, spec.name@) == match outcome {
            Ok(()) => spec_closed_success(stored_state(c0, spec.name@)),
            Err(_) => spec_closed_failure(
                stored_state(c0, spec.name@),
                spec.failure_threshold,
                spec.failure_window@,
                Some(now),
            ),
        },
{
    let s = stored_state(c0, spec.name@);
    match outcome {
        Ok(()) => {
            if s.failure_count == 0 {
                assert(spec_closed_success(s) == s);
            }
        },
        Err(_) => {},
    }
}

proof fn lemma_closed_calls_at(
    spec: CircuitBreakerSpec,
    cs: Seq<Map<Seq<char>, CircuitState>>,
    mids: Seq<Map<Seq<char>, CircuitState>>,
    r1s: Seq<Result<Admission, CircuitBreakerError>>,
    r2s: Seq<Result<(), CircuitBreakerError>>,
    outcomes: Seq<Result<(), String>>,
    times: Seq<u64>,
    i: int,
)
    requires
        calls_of_run(spec, cs, mids, r1s, r2s, outcomes, times),
        forall|k: int|
            0 <= k < outcomes.len() ==> (#[trigger] spec_closed_run(
                stored_state(cs[0], spec.name@),
                spec.failure_threshold,
                spec.failure_window@,
                outcomes.take(k),
                times,
            )).state == CircuitStateEnum::Closed,
        0 <= i <= outcomes.len(),
    ensures
        stored_state(cs[i], spec.name@) == spec_closed_run(
            stored_state(cs[0], spec.name@),
            spec.failure_threshold,
            spec.failure_window@,
            outcomes.take(i),
            times,
        ),
        i < outcomes.len() ==> r1s[i] == Ok::<Admission, CircuitBreakerError>(Admission::Closed(stored_state(cs[i], spec.name@))),
        i < outcomes.len() ==> completion_reports(outcomes[i], r2s[i]),
    decreases i,
{
    let s0 = stored_state(cs[0], spec.name@);
    if i > 0 {
        lemma_closed_calls_at(spec, cs, mids, r1s, r2s, outcomes, times, i - 1);
        let j = i - 1;
        assert(begin_answer(cs[j], mids[j], true, spec, Some(times[j]), r1s[j]));
        assert(r1s[j] matches Ok(a) ==> complete_answer(mids[j], cs[j + 1], true, spec, a, outcomes[j], Some(times[j]), r2s[j]));
        law_closed_call(spec, cs[j], mids[j], cs[j + 1], times[j], r1s[j], outcomes[j], r2s[j]);
        assert(outcomes.take(i).drop_last() =~= outcomes.take(j));
        assert(outcomes.take(i).last() == outcomes[j]);
    } else {
        assert(outcomes.take(0) =~= Seq::<Result<(), String>>::empty());
    }
    if i < outcomes.len() {
        assert(spec_closed_run(s0, spec.failure_threshold, spec.failure_window@, outcomes.take(i), times).state
            == CircuitStateEnum::Closed);
        assert(begin_answer(cs[i], mids[i], true, spec, Some(times[i]), r1s[i]));
        assert(r1s[i] matches Ok(a) ==> complete_answer(mids[i], cs[i + 1], true, spec, a, outcomes[i], Some(times[i]), r2s[i]));
        law_closed_call(spec, cs[i], mids[i], cs[i + 1], times[i], r1s[i], outcomes[i], r2s[i]);
    }
}

/// Successive calls on a closed circuit against a store that cannot fail, for as
/// long as the circuit stays closed: each is admitted with the stored state, its
/// outcome is reported, and after the i-th call the stored state is that of the
/// closed-state steps of the first i outcomes (failures counted, a success
/// ending the run of consecutive failures).
pub proof fn law_closed_calls(
    spec: CircuitBreakerSpec,
    cs: Seq<Map<Seq<char>, CircuitState>>,
    mids: Seq<Map<Seq<char>, CircuitState>>,
    r1s: Seq<Result<Admission, CircuitBreakerError>>,
    r2s: Seq<Result<(), CircuitBreakerError>>,
    outcomes: Seq<Result<(), String>>,
    times: Seq<u64>,
)
    requires
        calls_of_run(spec, cs, mids, r1s, r2s, outcomes, times),
        forall|k: int|
            0 <= k < outcomes.len() ==> (#[trigger] spec_closed_run(
                stored_state(cs[0], spec.name@),
                spec.failure_threshold,
                spec.failure_window@,
                outcomes.take(k),
                times,
            )).state == CircuitStateEnum::Closed,
    ensures
        forall|i: int|
            0 <= i <= outcomes.len() ==> stored_state(#[trigger] cs[i], spec.name@) == spec_closed_run(
                stored_state(cs[0], spec.name@),
                spec.failure_threshold,
                spec.failure_window@,
                outcomes.take(i),
                times,
            ),
        forall|i: int|
            0 <= i < outcomes.len() ==> #[trigger] r1s[i] == Ok::<Admission, CircuitBreakerError>(
                Admission::Closed(stored_state(cs[i], spec.name@)),
            ) && completion_reports(outcomes[i], r2s[i]),
{
    assert forall|i: int| 0 <= i <= outcomes.len() implies stored_state(#[trigger] cs[i], spec.name@) == spec_closed_run(
        stored_state(cs[0], spec.name@),
        spec.failure_threshold,
        spec.failure_window@,
        outcomes.take(i),
        times,
    ) by {
        lemma_closed_calls_at(spec, cs, mids, r1s, r2s, outcomes, times, i);
    }
    assert forall|i: int| 0 <= i < outcomes.len() implies #[trigger] r1s[i] == Ok::<Admission, CircuitBreakerError>(
        Admission::Closed(stored_state(cs[i], spec.name@)),
    ) && completion_reports(outcomes[i], r2s[i]) by {
        lemma_closed_calls_at(spec, cs, mids, r1s, r2s, outcomes, times, i);
    }
}

proof fn lemma_failing_run(
    threshold: u32,
    window: int,
    outcomes: Seq<Result<(), String>>,
    times: Seq<u64>,
    i: int,
)
    requires
        0 <= i <= outcomes.len() == times.len(),
        forall|k: int| 0 <= k < outcomes.len() ==> #[trigger] outcomes[k] is Err,
    ensures
        spec_closed_run(closed_state(), threshold, window, outcomes.take(i), times) == spec_closed_failures(
            closed_state(),
            threshold,
            window,
            times.take(i),
        ),
    decreases i,
{
    if i > 0 {
        lemma_failing_run(threshold, window, outcomes, times, i - 1);
        assert(outcomes.take(i).drop_last() =~= outcomes.take(i - 1));
        assert(times.take(i).drop_last() =~= times.take(i - 1));
        assert(outcomes.take(i).last() == outcomes[i - 1]);
        assert(times.take(i).last() == times[i - 1]);
    } else {
        assert(outcomes.take(0) =~= Seq::<Result<(), String>>::empty());
        assert(times.take(0) =~= Seq::<u64>::empty());
    }
}

/// `failure_threshold` successive failing calls on a fresh circuit, each within
/// the failure window of the one before, against a store that cannot fail: each
/// is reported as `OperationFailed`; after the i-th (before the last) the stored
/// circuit is closed with i failures; after the last it is open, opened at the
/// last call's reading.
pub proof fn law_failing_calls_open_circuit(
    spec: CircuitBreakerSpec,
    cs: Seq<Map<Seq<char>, CircuitState>>,
    mids: Seq<Map<Seq<char>, CircuitState>>,
    r1s: Seq<Result<Admission, CircuitBreakerError>>,
    r2s: Seq<Result<(), CircuitBreakerError>>,
    outcomes: Seq<Result<(), String>>,
    times: Seq<u64>,
)
    requires
        calls_of_run(spec, cs, mids, r1s, r2s, outcomes, times),
        stored_state(cs[0], spec.name@) == closed_state(),
        spec.failure_threshold >= 1,
        outcomes.len() == spec.failure_threshold,
        forall|k: int| 0 <= k < outcomes.len() ==> #[trigger] outcomes[k] is Err,
        failures_close_together(times, spec.failure_window@),
    ensures
        forall|i: int| 0 <= i < outcomes.len() ==> completion_reports(outcomes[i], #[trigger] r2s[i]),
        forall|i: int|
            0 <= i < outcomes.len() ==> (#[trigger] stored_state(cs[i], spec.name@)).state == CircuitStateEnum::Closed
                && stored_state(cs[i], spec.name@).failure_count == i,
        stored_state(cs[outcomes.len() as int], spec.name@).state == CircuitStateEnum::Open,
        stored_state(cs[outcomes.len() as int], spec.name@).opened_at_ms == Some(times[outcomes.len() - 1]),
{
    let thr = spec.failure_threshold;
    let w = spec.failure_window@;
    let n = outcomes.len() as int;
    assert forall|k: int| 0 <= k < n implies (#[trigger] spec_closed_run(
        stored_state(cs[0], spec.name@),
        thr,
        w,
        outcomes.take(k),
        times,
    )).state == CircuitStateEnum::Closed by {
        lemma_failing_run(thr, w, outcomes, times, k);
        lemma_closed_failures_count(thr, w, times, k);
    }
    law_closed_calls(spec, cs, mids, r1s, r2s, outcomes, times);
    assert forall|i: int| 0 <= i < n implies (#[trigger] stored_state(cs[i], spec.name@)).state == CircuitStateEnum::Closed
        && stored_state(cs[i], spec.name@).failure_count == i by {
        lemma_failing_run(thr, w, outcomes, times, i);
        lemma_closed_failures_count(thr, w, times, i);
        assert(stored_state(cs[i], spec.name@) == spec_closed_run(closed_state(), thr, w, outcomes.take(i), times));
    }
    assert forall|i: int| 0 <= i < n implies completion_reports(outcomes[i], #[trigger] r2s[i]) by {
        assert(r1s[i] == Ok::<Admission, CircuitBreakerError>(Admission::Closed(stored_state(cs[i], spec.name@))));
    }
    lemma_failing_run(thr, w, outcomes, times, n);
    lemma_closed_failures_count(thr, w, times, n - 1);
    assert(stored_state(cs[n], spec.name@) == spec_closed_run(closed_state(), thr, w, outcomes.take(n), times));
    assert(times.take(n) =~= times);
    assert(times.take(n).drop_last() =~= times.take(n - 1));
    if n > 1 {
        assert(times[n - 2] <= times[n - 1]);
    }
}

/// One call on a half-open circuit, or on an open one whose reset timeout has
/// passed, against a store that cannot fail: it is admitted to recover, with the
/// stored state made half-open; its completion reports its outcome and stores
/// the recovery step: a success is counted (enough of them close the circuit),
/// a failure reopens the circuit at the call's reading.
pub proof fn law_recovering_call(
    spec: CircuitBreakerSpec,
    c0: Map<Seq<char>, CircuitState>,
    c1: Map<Seq<char>, CircuitState>,
    c2: Map<Seq<char>, CircuitState>,
    now: u64,
    r1: Result<Admission, CircuitBreakerError>,
    outcome: Result<(), String>,
    r2: Result<(), CircuitBreakerError>,
)
    requires
        stored_state(c0, spec.name@).state == CircuitStateEnum::HalfOpen || (stored_state(c0, spec.name@).state
            == CircuitStateEnum::Open && spec_should_attempt_reset(
            stored_state(c0, spec.name@),
            spec.reset_timeout@,
            Some(now),
        )),
        begin_answer(c0, c1, true, spec, Some(now), r1),
        r1 matches Ok(a) ==> complete_answer(c1, c2, true, spec, a, outcome, Some(now), r2),
    ensures
        ({
            let s = stored_state(c0, spec.name@);
            let st = if s.state == CircuitStateEnum::HalfOpen {
                s
            } else {
                spec_half_open(s)
            };
            &&& r1 == Ok::<Admission, CircuitBreakerError>(Admission::Recovering(st))
            &&& completion_reports(outcome, r2)
            &&& stored_state(c2, spec.name@) == match outcome {
                Ok(()) => spec_recovery_success(st, spec.success_threshold),
                Err(_) => spec_open(st, now),
            }
        }),
{
}

proof fn lemma_recovering_calls_at(
    spec: CircuitBreakerSpec,
    cs: Seq<Map<Seq<char>, CircuitState>>,
    mids: Seq<Map<Seq<char>, CircuitState>>,
    r1s: Seq<Result<Admission, CircuitBreakerError>>,
    r2s: Seq<Result<(), CircuitBreakerError>>,
    outcomes: Seq<Result<(), String>>,
    times: Seq<u64>,
    i: int,
)
    requires
        calls_of_run(spec, cs, mids, r1s, r2s, outcomes, times),
        stored_state(cs[0], spec.name@).state == CircuitStateEnum::Open,
        outcomes.len() >= 1,
        spec_should_attempt_reset(stored_state(cs[0], spec.name@), spec.reset_timeout@, Some(times[0])),
        outcomes.len() == spec.success_threshold,
        forall|k: int| 0 <= k < outcomes.len() ==> #[trigger] outcomes[k] is Ok,
        1 <= i <= outcomes.len(),
    ensures
        stored_state(cs[i], spec.name@) == spec_recovery_successes(
            spec_half_open(stored_state(cs[0], spec.name@)),
            spec.success_threshold,
            i as nat,
        ),
        completion_reports(outcomes[i - 1], r2s[i - 1]),
        r1s[i - 1] == Ok::<Admission, CircuitBreakerError>(
            Admission::Recovering(
                spec_recovery_successes(
                    spec_half_open(stored_state(cs[0], spec.name@)),
                    spec.success_threshold,
                    (i - 1) as nat,
                ),
            ),
        ),
    decreases i,
{
    let h = spec_half_open(stored_state(cs[0], spec.name@));
    let j = i - 1;
    assert(begin_answer(cs[j], mids[j], true, spec, Some(times[j]), r1s[j]));
    assert(r1s[j] matches Ok(a) ==> complete_answer(mids[j], cs[j + 1], true, spec, a, outcomes[j], Some(times[j]), r2s[j]));
    if i > 1 {
        lemma_recovering_calls_at(spec, cs, mids, r1s, r2s, outcomes, times, j);
        lemma_recovery_count(h, spec.success_threshold, j as nat);
        law_recovering_call(spec, cs[j], mids[j], cs[j + 1], times[j], r1s[j], outcomes[j], r2s[j]);
    } else {
        law_recovering_call(spec, cs[0], mids[0], cs[1], times[0], r1s[0], outcomes[0], r2s[0]);
    }
}

/// `success_threshold` successive successful calls on an open circuit whose
/// reset timeout has passed at the first of them, against a store that cannot
/// fail: the first is admitted with the circuit made half-open, each later one
/// with the stored half-open state; every call reports success; after the i-th
/// (before the last) the circuit is half-open with i successes, and after the
/// last it is closed with no failures.
pub proof fn law_successful_calls_close_circuit(
    spec: CircuitBreakerSpec,
    cs: Seq<Map<Seq<char>, CircuitState>>,
    mids: Seq<Map<Seq<char>, CircuitState>>,
    r1s: Seq<Result<Admission, CircuitBreakerError>>,
    r2s: Seq<Result<(), CircuitBreakerError>>,
    outcomes: Seq<Result<(), String>>,
    times: Seq<u64>,
)
    requires
        calls_of_run(spec, cs, mids, r1s, r2s, outcomes, times),
        stored_state(cs[0], spec.name@).state == CircuitStateEnum::Open,
        spec.success_threshold >= 1,
        spec_should_attempt_reset(stored_state(cs[0], spec.name@), spec.reset_timeout@, Some(times[0])),
        outcomes.len() == spec.success_threshold,
        forall|k: int| 0 <= k < outcomes.len() ==> #[trigger] outcomes[k] is Ok,
    ensures
        r1s[0] == Ok::<Admission, CircuitBreakerError>(
            Admission::Recovering(spec_half_open(stored_state(cs[0], spec.name@))),
        ),
        forall|i: int| 0 <= i < outcomes.len() ==> #[trigger] r2s[i] is Ok,
        forall|i: int|
            1 <= i < outcomes.len() ==> #[trigger] stored_state(cs[i], spec.name@) == (CircuitState {
                success_count_in_half_open: i as u32,
                ..spec_half_open(stored_state(cs[0], spec.name@))
            }),
        stored_state(cs[outcomes.len() as int], spec.name@) == closed_state(),
{
    let h = spec_half_open(stored_state(cs[0], spec.name@));
    let n = outcomes.len() as int;
    lemma_recovering_calls_at(spec, cs, mids, r1s, r2s, outcomes, times, 1);
    assert forall|i: int| 0 <= i < n implies #[trigger] r2s[i] is Ok by {
        lemma_recovering_calls_at(spec, cs, mids, r1s, r2s, outcomes, times, i + 1);
    }
    assert forall|i: int| 1 <= i < n implies #[trigger] stored_state(cs[i], spec.name@) == (CircuitState {
        success_count_in_half_open: i as u32,
        ..h
    }) by {
        lemma_recovering_calls_at(spec, cs, mids, r1s, r2s, outcomes, times, i);
        lemma_recovery_count(h, spec.success_threshold, i as nat);
    }
    lemma_recovering_calls_at(spec, cs, mids, r1s, r2s, outcomes, times, n);
    law_successes_close_circuit(stored_state(cs[0], spec.name@), spec.success_threshold);
}

} // verus!
