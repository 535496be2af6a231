//! Rate limiting of tool invocations by time window.
//!
//! Times are milliseconds of a monotonic clock. The sliding-window and fixed-window
//! strategies count requests; the token-bucket and leaky-bucket strategies work on
//! fractional levels and are kept by the caller.
use vstd::prelude::*;
use crate::text::str_eq;

verus! {

/// Rate limiting strategy.
#[derive(Debug, Clone, Copy, PartialEq, Eq, Structural)]
pub enum ThrottleStrategy {
    /// Accurate rate limiting with a sliding time window
    SlidingWindow,
    /// Allows bursts up to the bucket capacity
    TokenBucket,
    /// Simple window-based counting
    FixedWindow,
    /// Smooths out the request rate
    LeakyBucket,
}

/// Window-based limiter state of one key.
#[derive(Debug)]
pub struct RateLimiterState {
    /// Sliding window: times of the admitted requests still in the window
    pub sliding_window_timestamps: Vec<u64>,
    /// Fixed window: count and window start time
    pub fixed_window: Option<(u32, u64)>,
}

/// A request time `t` is still in the window of length `window` ending at `now`.
pub open spec fn in_window(t: u64, now: u64, window: u64) -> bool {
    t > now - window
}

/// The times of `ts` that are still in the window.
pub open spec fn kept_in_window(ts: Seq<u64>, now: u64, window: u64) -> Seq<u64> {
    ts.filter(|t: u64| in_window(t, now, window))
}

/// Sliding window check: drop the times that left the window, then admit the
/// request (recording its time) when fewer than `rate` remain.
pub open spec fn spec_sliding(ts: Seq<u64>, now: u64, window: u64, rate: u32) -> (bool, Seq<u64>) {
    let kept = kept_in_window(ts, now, window);
    if kept.len() < rate {
        (true, kept.push(now))
    } else {
        (false, kept)
    }
}

/// Fixed window check: a new window starts when the current one has lasted
/// `window`; within a window at most `rate` requests are admitted.
pub open spec fn spec_fixed(fw: Option<(u32, u64)>, now: u64, window: u64, rate: u32) -> (bool, Option<(u32, u64)>) {
    let (count, start) = match fw {
        Some(p) => p,
        None => (0u32, now),
    };
    let elapsed = if now >= start {
        now - start
    } else {
        0
    };
    if elapsed >= window {
        (true, Some((1u32, now)))
    } else if count < rate {
        (true, Some(((count + 1) as u32, start)))
    } else {
        (false, Some((count, start)))
    }
}


proof fn lemma_kept_push(s: Seq<u64>, x: u64, now: u64, window: u64)
    ensures
        kept_in_window(s.push(x), now, window) == if in_window(x, now, window) {
            kept_in_window(s, now, window).push(x)
        } else {
            kept_in_window(s, now, window)
        },
{
    reveal(Seq::filter);
    assert(s.push(x).drop_last() == s);
}

proof fn lemma_kept_twice(s: Seq<u64>, n1: u64, n2: u64, window: u64)
    requires
        n1 <= n2,
    ensures
        kept_in_window(kept_in_window(s, n1, window), n2, window) == kept_in_window(s, n2, window),
    decreases s.len(),
{
    reveal(Seq::filter);
    if s.len() > 0 {
        let init = s.drop_last();
        let x = s.last();
        assert(init.push(x) == s);
        lemma_kept_twice(init, n1, n2, window);
        lemma_kept_push(init, x, n1, window);
        lemma_kept_push(init, x, n2, window);
        if in_window(x, n1, window) {
            lemma_kept_push(kept_in_window(init, n1, window), x, n2, window);
        }
    }
}

/// Decisions and final state of a run of sliding-window checks at the given times,
/// starting from an empty state.
pub open spec fn run_sliding(times: Seq<u64>, window: u64, rate: u32) -> (Seq<bool>, Seq<u64>)
    decreases times.len(),
{
    if times.len() == 0 {
        (Seq::empty(), Seq::empty())
    } else {
        let prev = run_sliding(times.drop_last(), window, rate);
        let step = spec_sliding(prev.1, times.last(), window, rate);
        (prev.0.push(step.0), step.1)
    }
}

/// The times of the admitted requests.
pub open spec fn admitted_times(times: Seq<u64>, decisions: Seq<bool>) -> Seq<u64>
    decreases times.len(),
{
    if times.len() == 0 || decisions.len() == 0 {
        Seq::empty()
    } else {
        let rest = admitted_times(times.drop_last(), decisions.drop_last());
        if decisions.last() {
            rest.push(times.last())
        } else {
            rest
        }
    }
}

/// The times do not decrease.
pub open spec fn non_decreasing(times: Seq<u64>) -> bool {
    forall|i: int, j: int| 0 <= i <= j < times.len() ==> times[i] <= times[j]
}

proof fn lemma_run_sliding(times: Seq<u64>, window: u64, rate: u32, now: u64)
    requires
        non_decreasing(times),
        times.len() > 0 ==> times.last() <= now,
    ensures
        run_sliding(times, window, rate).0.len() == times.len(),
        run_sliding(times, window, rate).1.len() <= rate,
        kept_in_window(run_sliding(times, window, rate).1, now, window) == kept_in_window(
            admitted_times(times, run_sliding(times, window, rate).0),
            now,
            window,
        ),
    decreases times.len(),
{
    reveal(Seq::filter);
    if times.len() > 0 {
        let init = times.drop_last();
        let t = times.last();
        let prev = run_sliding(init, window, rate);
        assert(non_decreasing(init));
        if init.len() > 0 {
            assert(init.last() <= t);
        }
        lemma_run_sliding(init, window, rate, t);
        lemma_run_sliding(init, window, rate, now);
        let kept = kept_in_window(prev.1, t, window);
        prev.1.lemma_filter_len(|x: u64| in_window(x, t, window));
        lemma_kept_twice(prev.1, t, now, window);
        let cur = run_sliding(times, window, rate);
        assert(cur.0.drop_last() == prev.0);
        assert(times.drop_last() == init);
        let adm_prev = admitted_times(init, prev.0);
        assert(admitted_times(times, cur.0) == if cur.0.last() {
            adm_prev.push(t)
        } else {
            adm_prev
        });
        if kept.len() < rate {
            lemma_kept_push(kept, t, now, window);
            lemma_kept_push(adm_prev, t, now, window);
        }
    }
}

/// Sliding-window rate limiting never admits more than `rate` requests within one
/// window: for a run of checks at non-decreasing times, starting from an empty
/// state, the admitted requests whose times lie in the window ending at any check's
/// time number at most `rate`.
pub proof fn law_sliding_window_bound(times: Seq<u64>, window: u64, rate: u32, i: int)
    requires
        non_decreasing(times),
        0 <= i < times.len(),
    ensures
        ({
            let prefix = times.take(i + 1);
            kept_in_window(
                admitted_times(prefix, run_sliding(prefix, window, rate).0),
                times[i],
                window,
            ).len() <= rate
        }),
{
    let prefix = times.take(i + 1);
    assert(non_decreasing(prefix));
    assert(prefix.last() == times[i]);
    lemma_run_sliding(prefix, window, rate, times[i]);
    let st = run_sliding(prefix, window, rate).1;
    st.lemma_filter_len(|x: u64| in_window(x, times[i], window));
}

proof fn lemma_run_sliding_shape(times: Seq<u64>, window: u64, rate: u32)
    ensures
        run_sliding(times, window, rate).0.len() == times.len(),
        run_sliding(times, window, rate).1.len() <= times.len(),
    decreases times.len(),
{
    reveal(Seq::filter);
    if times.len() > 0 {
        let prev = run_sliding(times.drop_last(), window, rate);
        lemma_run_sliding_shape(times.drop_last(), window, rate);
        prev.1.lemma_filter_len(|x: u64| in_window(x, times.last(), window));
    }
}

proof fn lemma_run_sliding_prefix(times: Seq<u64>, window: u64, rate: u32, k: int)
    requires
        0 <= k <= times.len(),
    ensures
        run_sliding(times, window, rate).0.take(k) == run_sliding(times.take(k), window, rate).0,
    decreases times.len() - k,
{
    lemma_run_sliding_shape(times, window, rate);
    lemma_run_sliding_shape(times.take(k), window, rate);
    if k < times.len() {
        lemma_run_sliding_prefix(times, window, rate, k + 1);
        let p = times.take(k + 1);
        assert(p.drop_last() =~= times.take(k));
        lemma_run_sliding_shape(p, window, rate);
        assert(run_sliding(p, window, rate).0.drop_last() == run_sliding(times.take(k), window, rate).0);
        assert(run_sliding(times, window, rate).0.take(k) =~= run_sliding(times, window, rate).0.take(k + 1).drop_last());
    } else {
        assert(times.take(k) =~= times);
        assert(run_sliding(times, window, rate).0.take(k) =~= run_sliding(times, window, rate).0);
    }
}

/// Sliding-window rate limiting admits the first `rate` requests of a run that
/// starts from an empty state, whatever their times.
pub proof fn law_first_requests_admitted(times: Seq<u64>, window: u64, rate: u32, i: int)
    requires
        0 <= i < times.len(),
        i < rate,
    ensures
        run_sliding(times, window, rate).0[i],
{
    reveal(Seq::filter);
    let p = times.take(i + 1);
    lemma_run_sliding_shape(times, window, rate);
    lemma_run_sliding_prefix(times, window, rate, i + 1);
    lemma_run_sliding_shape(p.drop_last(), window, rate);
    let prev = run_sliding(p.drop_last(), window, rate);
    prev.1.lemma_filter_len(|x: u64| in_window(x, p.last(), window));
    assert(run_sliding(p, window, rate).0.last() == spec_sliding(prev.1, p.last(), window, rate).0);
    assert(run_sliding(times, window, rate).0.take(i + 1)[i] == run_sliding(times, window, rate).0[i]);
}

proof fn lemma_kept_props(ts: Seq<u64>, now: u64, window: u64)
    ensures
        kept_in_window(ts, now, window).len() <= ts.len(),
        forall|i: int|
            0 <= i < kept_in_window(ts, now, window).len() ==> ts.contains(#[trigger] kept_in_window(ts, now, window)[i])
                && now < kept_in_window(ts, now, window)[i] + window,
        forall|i: int| 0 <= i < ts.len() && now < #[trigger] ts[i] + window ==> kept_in_window(ts, now, window).contains(ts[i]),
    decreases ts.len(),
{
    reveal(Seq::filter);
    if ts.len() > 0 {
        let init = ts.drop_last();
        let x = ts.last();
        assert(init.push(x) == ts);
        lemma_kept_props(init, now, window);
        lemma_kept_push(init, x, now, window);
        let k0 = kept_in_window(init, now, window);
        let k = kept_in_window(ts, now, window);
        assert forall|i: int| 0 <= i < k.len() implies ts.contains(#[trigger] k[i]) && now < k[i] + window by {
            if i < k0.len() {
                assert(k[i] == k0[i]);
                let j = choose|j: int| 0 <= j < init.len() && init[j] == k0[i];
                assert(ts[j] == init[j]);
            } else {
                assert(k[i] == x);
                assert(ts[ts.len() - 1] == x);
            }
        }
        assert forall|i: int| 0 <= i < ts.len() && now < #[trigger] ts[i] + window implies k.contains(ts[i]) by {
            if i < init.len() {
                assert(init[i] == ts[i]);
                let j = choose|j: int| 0 <= j < k0.len() && k0[j] == init[i];
                if in_window(x, now, window) {
                    assert(k[j] == k0[j]);
                }
            } else {
                assert(k[k.len() - 1] == x);
            }
        }
    }
}

proof fn lemma_kept_order(ts: Seq<u64>, now: u64, window: u64) -> (idx: Seq<int>)
    ensures
        idx.len() == kept_in_window(ts, now, window).len(),
        forall|k: int|
            0 <= k < idx.len() ==> 0 <= #[trigger] idx[k] < ts.len() && kept_in_window(ts, now, window)[k] == ts[idx[k]],
        forall|k: int, l: int| 0 <= k < l < idx.len() ==> #[trigger] idx[k] < #[trigger] idx[l],
    decreases ts.len(),
{
    reveal(Seq::filter);
    if ts.len() == 0 {
        Seq::empty()
    } else {
        let init = ts.drop_last();
        let x = ts.last();
        assert(init.push(x) == ts);
        let prev = lemma_kept_order(init, now, window);
        lemma_kept_push(init, x, now, window);
        let k0 = kept_in_window(init, now, window);
        assert forall|k: int| 0 <= k < prev.len() implies init[prev[k]] == ts[prev[k]] by {}
        if in_window(x, now, window) {
            let idx = prev.push(init.len() as int);
            assert forall|k: int| 0 <= k < idx.len() implies 0 <= #[trigger] idx[k] < ts.len()
                && kept_in_window(ts, now, window)[k] == ts[idx[k]] by {
                if k < prev.len() {
                    assert(idx[k] == prev[k]);
                }
            }
            assert forall|k: int, l: int| 0 <= k < l < idx.len() implies #[trigger] idx[k] < #[trigger] idx[l] by {
                assert(idx[k] == prev[k]);
                if l < prev.len() {
                    assert(idx[l] == prev[l]);
                }
            }
            idx
        } else {
            prev
        }
    }
}

/// A sliding-window check at `now` keeps exactly the recorded times that lie
/// less than `window` before `now` (every kept time `t` has `now - t < window`,
/// and every such time is kept), admits the request exactly when fewer than
/// `rate` of them remain, and then records `now` after them. In particular,
/// when every recorded time lies at least `window` before `now` and the rate is
/// not zero, the request is admitted and `now` is the only time left.
pub proof fn law_sliding_check(ts: Seq<u64>, now: u64, window: u64, rate: u32)
    ensures
        ({
            let (admitted, next) = spec_sliding(ts, now, window, rate);
            let kept = if admitted {
                (next.len() - 1) as nat
            } else {
                next.len()
            };
            &&& admitted ==> next.len() >= 1 && next[next.len() - 1] == now
            &&& admitted <==> kept < rate
            &&& forall|i: int| 0 <= i < kept ==> ts.contains(#[trigger] next[i]) && now < next[i] + window
            &&& forall|i: int| 0 <= i < ts.len() && now < #[trigger] ts[i] + window ==> next.take(kept as int).contains(ts[i])
            &&& exists|idx: Seq<int>|
                #![trigger idx.len()]
                idx.len() == kept && (forall|k: int|
                    0 <= k < kept ==> 0 <= #[trigger] idx[k] < ts.len() && next[k] == ts[idx[k]]) && (forall|k: int, l: int|
                    0 <= k < l < kept ==> #[trigger] idx[k] < #[trigger] idx[l])
            &&& (forall|i: int| 0 <= i < ts.len() ==> #[trigger] ts[i] + window <= now) && rate > 0 ==> admitted && next
                == seq![now]
        }),
{
    lemma_kept_props(ts, now, window);
    let idx = lemma_kept_order(ts, now, window);
    let k = kept_in_window(ts, now, window);
    let (admitted, next) = spec_sliding(ts, now, window, rate);
    if admitted {
        assert(next.take(k.len() as int) =~= k);
    } else {
        assert(next.take(k.len() as int) =~= k);
    }
    if forall|i: int| 0 <= i < ts.len() ==> #[trigger] ts[i] + window <= now {
        if k.len() > 0 {
            let j = choose|j: int| 0 <= j < ts.len() && ts[j] == k[0];
            assert(ts[j] + window <= now);
        }
        assert(k =~= Seq::<u64>::empty());
        if rate > 0 {
            assert(next =~= seq![now]);
        }
    }
}

/// A fixed-window check at `now`, whatever the window's count: a window that
/// has lasted its length (`now >= start + window`) starts afresh, admitting the
/// request with a count of one from `now`; within a running window
/// (`start <= now < start + window`, or a clock reading before the start of a
/// window of positive length) the request is admitted exactly when the count is
/// below the rate, and then counted; a first request opens a window at `now`.
pub proof fn law_fixed_check(fw: Option<(u32, u64)>, now: u64, window: u64, rate: u32)
    ensures
        ({
            let (admitted, next) = spec_fixed(fw, now, window, rate);
            &&& match fw {
                Some(p) => {
                    let (count, start) = p;
                    &&& now >= start + window ==> admitted && next == Some((1u32, now))
                    &&& now < start + window && (now >= start || window > 0) ==> {
                        &&& admitted <==> count < rate
                        &&& admitted ==> next == Some(((count + 1) as u32, start))
                        &&& !admitted ==> next == fw
                    }
                },
                None => {
                    &&& next matches Some(q) && q.1 == now
                    &&& admitted <==> (window == 0 || rate > 0)
                    &&& admitted ==> next == Some((1u32, now))
                },
            }
        }),
{
}

/// Throttle pattern executor.
pub struct ThrottleExecutor;

impl ThrottleExecutor {
    /// Sliding window check at time `now`; returns whether the request is admitted.
    pub fn check_sliding_window(state: &mut RateLimiterState, now: u64, window: u64, rate: u32) -> (r: bool)
        ensures
            (r, final(state).sliding_window_timestamps@) == spec_sliding(
                old(state).sliding_window_timestamps@,
                now,
                window,
                rate,
            ),
            final(state).fixed_window == old(state).fixed_window,
            ({
                let ts = old(state).sliding_window_timestamps@;
                let next = final(state).sliding_window_timestamps@;
                let kept = if r {
                    (next.len() - 1) as nat
                } else {
                    next.len()
                };
                &&& r ==> next.len() >= 1 && next[next.len() - 1] == now
                &&& r <==> kept < rate
                &&& forall|i: int| 0 <= i < kept ==> ts.contains(#[trigger] next[i]) && now < next[i] + window
                &&& forall|i: int|
                    0 <= i < ts.len() && now < #[trigger] ts[i] + window ==> next.take(kept as int).contains(ts[i])
            }),
    {
        proof {
            law_sliding_check(old(state).sliding_window_timestamps@, now, window, rate);
        }
        let ghost old_ts = state.sliding_window_timestamps@;
        let mut kept: Vec<u64> = Vec::new();
        let mut i: usize = 0;
        let n = state.sliding_window_timestamps.len();
        while i < n
            invariant
                i <= n,
                n == old_ts.len(),
                state.sliding_window_timestamps@ == old_ts,
                kept@ == kept_in_window(old_ts.take(i as int), now, window),
            decreases n - i,
        {
            let t = state.sliding_window_timestamps[i];
            proof {
                assert(old_ts.take(i + 1).drop_last() == old_ts.take(i as int));
                reveal(Seq::filter);
            }
            if now < window || t > now - window {
                kept.push(t);
            }
            i = i + 1;
        }
        assert(old_ts.take(n as int) == old_ts);
        let admitted = kept.len() < rate as usize;
        if admitted {
            kept.push(now);
        }
        state.sliding_window_timestamps = kept;
        admitted
    }

    /// Fixed window check at time `now`; returns whether the request is admitted.
    pub fn check_fixed_window(state: &mut RateLimiterState, now: u64, window: u64, rate: u32) -> (r: bool)
        ensures
            (r, final(state).fixed_window) == spec_fixed(old(state).fixed_window, now, window, rate),
            final(state).sliding_window_timestamps@ == old(state).sliding_window_timestamps@,
            match old(state).fixed_window {
                Some(p) => {
                    let (count, start) = p;
                    &&& now >= start + window ==> r && final(state).fixed_window == Some((1u32, now))
                    &&& now < start + window && (now >= start || window > 0) ==> (r <==> count < rate)
                },
                None => final(state).fixed_window matches Some(q) && q.1 == now,
            },
    {
        proof {
            law_fixed_check(old(state).fixed_window, now, window, rate);
        }
        let (count, start) = match state.fixed_window {
            Some(p) => p,
            None => (0u32, now),
        };
        let elapsed = if now >= start {
            now - start
        } else {
            0
        };
        if elapsed >= window {
            state.fixed_window = Some((1, now));
            return true;
        }
        if count < rate {
            state.fixed_window = Some((count + 1, start));
            true
        } else {
            state.fixed_window = Some((count, start));
            false
        }
    }
}

/// Limiter states by key.
pub struct RateLimiterRegistry {
    limiters: Vec<(String, RateLimiterState)>,
}

impl RateLimiterRegistry {
    /// The keys that have a state, in order of first use.
    pub closed spec fn keys(&self) -> Seq<Seq<char>> {
        self.limiters@.map_values(|e: (String, RateLimiterState)| e.0@)
    }

    /// The state of the key at position `i`.
    pub closed spec fn state_at(&self, i: int) -> (Seq<u64>, Option<(u32, u64)>) {
        (self.limiters@[i].1.sliding_window_timestamps@, self.limiters@[i].1.fixed_window)
    }

    /// An empty registry.
    pub fn new() -> (r: RateLimiterRegistry)
        ensures
            r.keys().len() == 0,
    {
        RateLimiterRegistry { limiters: Vec::new() }
    }

    fn position(&self, key: &str) -> (r: Option<usize>)
        ensures
            match r {
                Some(i) => i < self.keys().len() && self.keys()[i as int] == key@ && forall|j: int|
                    0 <= j < i ==> self.keys()[j] != key@,
                None => forall|j: int| 0 <= j < self.keys().len() ==> self.keys()[j] != key@,
            },
    {
        let mut i: usize = 0;
        while i < self.limiters.len()
            invariant
                i <= self.limiters@.len(),
                forall|j: int| 0 <= j < i ==> self.keys()[j] != key@,
            decreases self.limiters@.len() - i,
        {
            if str_eq(self.limiters[i].0.as_str(), key) {
                return Some(i);
            }
            i = i + 1;
        }
        None
    }

    /// Checks a request of `key` at time `now` under a counting strategy, creating a
    /// fresh state for a new key. Returns `Some(admitted)` for the sliding-window and
    /// fixed-window strategies and `None`, changing nothing, for the bucket
    /// strategies.
    pub fn check_window_limit(
        &mut self,
        key: &str,
        strategy: ThrottleStrategy,
        now: u64,
        window_ms: u64,
        rate: u32,
    ) -> (r: Option<bool>)
        ensures
            (strategy == ThrottleStrategy::TokenBucket || strategy
                == ThrottleStrategy::LeakyBucket) ==> r is None && final(self).keys() == old(self).keys(),
            (strategy == ThrottleStrategy::SlidingWindow || strategy
                == ThrottleStrategy::FixedWindow) ==> r is Some && exists|i: int|
                {
                    &&& 0 <= i < final(self).keys().len()
                    &&& final(self).keys()[i] == key@
                    &&& forall|j: int| 0 <= j < i ==> final(self).keys()[j] != key@
                    &&& (old(self).keys().len() <= i ==> final(self).keys() == old(self).keys().push(key@))
                    &&& (i < old(self).keys().len() ==> final(self).keys() == old(self).keys())
                    &&& {
                        let prev = if i < old(self).keys().len() {
                            old(self).state_at(i)
                        } else {
                            (Seq::<u64>::empty(), None::<(u32, u64)>)
                        };
                        if strategy == ThrottleStrategy::SlidingWindow {
                            (r->0, final(self).state_at(i).0) == spec_sliding(
                                prev.0,
                                now,
                                window_ms,
                                rate,
                            ) && final(self).state_at(i).1 == prev.1
                        } else {
                            (r->0, final(self).state_at(i).1) == spec_fixed(
                                prev.1,
                                now,
                                window_ms,
                                rate,
                            ) && final(self).state_at(i).0 == prev.0
                        }
                    }
                    &&& forall|j: int|
                        0 <= j < old(self).keys().len() && j != i ==> final(self).state_at(j)
                            == old(self).state_at(j)
                },
    {
        match strategy {
            ThrottleStrategy::TokenBucket => return None,
            ThrottleStrategy::LeakyBucket => return None,
            _ => {},
        }
        let pos = self.position(key);
        let ghost old_len = self.limiters@.len();
        let idx = match pos {
            Some(i) => i,
            None => {
                let fresh = RateLimiterState { sliding_window_timestamps: Vec::new(), fixed_window: None };
                let ghost prev = self.limiters@;
                self.limiters.push((key.to_owned(), fresh));
                assert(self.keys() =~= old(self).keys().push(key@));
                assert forall|j: int| 0 <= j < old(self).keys().len() implies self.state_at(j)
                    == old(self).state_at(j) by {
                    assert(self.limiters@[j] == prev[j]);
                }
                self.limiters.len() - 1
            },
        };
        let ghost mid = self.limiters@;
        let ghost mid_keys = self.keys();
        let ghost prev_state = self.state_at(idx as int);
        assert(prev_state == if (idx as int) < old(self).keys().len() {
            old(self).state_at(idx as int)
        } else {
            (Seq::<u64>::empty(), None::<(u32, u64)>)
        });
        let mut entry = self.limiters.remove(idx);
        let admitted = if strategy == ThrottleStrategy::SlidingWindow {
            ThrottleExecutor::check_sliding_window(&mut entry.1, now, window_ms, rate)
        } else {
            ThrottleExecutor::check_fixed_window(&mut entry.1, now, window_ms, rate)
        };
        self.limiters.insert(idx, entry);
        proof {
            assert(self.keys() =~= mid_keys);
            assert forall|j: int| 0 <= j < mid.len() && j != idx implies self.limiters@[j]
                == mid[j] by {}
            assert forall|j: int| 0 <= j < old(self).keys().len() && j != idx implies self.state_at(j)
                == old(self).state_at(j) by {
                assert(self.limiters@[j] == mid[j]);
            }
            let i = idx as int;
            assert(0 <= i < self.keys().len());
            assert(self.keys()[i] == key@);
            assert(forall|j: int| 0 <= j < i ==> self.keys()[j] != key@);
        }
        Some(admitted)
    }
}

/// A fixed window never counts more calls than the rate allows (a new window
/// always admits its first call); a call admitted within the current window is
/// counted in it, and a call refused in a running window changes nothing.
pub proof fn law_fixed_window_count(fw: Option<(u32, u64)>, now: u64, window: u64, rate: u32)
    requires
        fw matches Some((c, s)) ==> c <= rate || c == 1,
    ensures
        ({
            let (admitted, next) = spec_fixed(fw, now, window, rate);
            &&& next matches Some((c2, s2)) && (c2 <= rate || c2 == 1)
            &&& fw is Some && !admitted ==> next == fw
            &&& fw matches Some((c, s)) ==> (admitted && now >= s && now - s < window ==> next == Some(((c + 1) as u32, s)))
        }),
{
}

} // verus!
