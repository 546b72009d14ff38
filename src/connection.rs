//! Per-route connection management: whether to try a route now, and how a
//! finished attempt changes the route's state.
//!
//! Time is a count of milliseconds handed in by the caller; the caller
//! performs each attempt and reports how it ended.
use vstd::prelude::*;

verus! {

/// A network failure.
#[derive(Clone, Copy, Debug, PartialEq, Eq, Structural)]
pub enum NetError {
    /// No route could be tried: every route is cooling down.
    NoServiceConnection,
    /// An attempt took longer than the connect deadline.
    Timeout,
    /// The transport refused or broke the connection.
    Transport,
}

/// How to reach one replica, with its retry knobs.
#[derive(Clone, Debug)]
pub struct ConnectionParams {
    pub host: String,
    pub port: u16,
    /// Cooldown after the first failure, in milliseconds; it doubles with
    /// each further consecutive failure.
    pub cooldown_base_ms: u64,
    /// Upper bound on any cooldown, in milliseconds.
    pub max_cooldown_ms: u64,
}

/// Cooldown after `failures` consecutive failures: none before the first,
/// then `base` doubling each time, capped at `max`.
pub open spec fn cooldown_for(base: u64, max: u64, failures: nat) -> nat
    decreases failures,
{
    if failures == 0 {
        0
    } else if failures == 1 {
        if base <= max { base as nat } else { max as nat }
    } else {
        let d = 2 * cooldown_for(base, max, (failures - 1) as nat);
        if d <= max { d } else { max as nat }
    }
}

proof fn lemma_cooldown_bounded(base: u64, max: u64, failures: nat)
    ensures
        cooldown_for(base, max, failures) <= max,
    decreases failures,
{
    if failures > 1 {
        lemma_cooldown_bounded(base, max, (failures - 1) as nat);
    }
}

/// Computes `cooldown_for(base, max, failures)`.
pub fn cooldown_ms(base: u64, max: u64, failures: u32) -> (r: u64)
    ensures
        r as nat == cooldown_for(base, max, failures as nat),
{
    if failures == 0 {
        return 0;
    }
    let mut d: u64 = if base <= max { base } else { max };
    let mut n: u32 = 1;
    while n < failures
        invariant
            1 <= n <= failures,
            d as nat == cooldown_for(base, max, n as nat),
        decreases failures - n,
    {
        proof {
            lemma_cooldown_bounded(base, max, n as nat);
        }
        d = if d <= max / 2 { 2 * d } else { max };
        n = n + 1;
    }
    d
}

/// State of one route between attempts.
#[derive(Clone, Copy, Debug, PartialEq, Eq, Structural)]
pub struct RouteState {
    /// Failures since the last success.
    pub consecutive_failures: u32,
    /// No attempt is made before this time.
    pub cooldown_until: u64,
    /// The failure that started the current cooldown, if any.
    pub last_error: Option<NetError>,
}

/// How one attempt on a route ended, as the caller saw it.
pub enum AttemptResult<T> {
    Connected(T),
    Failed(NetError),
    TimedOut,
}

/// The outcome of one logical connection attempt.
pub enum ServiceState<T> {
    /// A usable channel.
    Active(T),
    /// The route is cooling down for this many more milliseconds; the
    /// network was not touched.
    Cooldown(u64),
    /// The attempt failed.
    Error(NetError),
    /// The attempt passed its deadline.
    TimedOut,
}

/// Whether a route with state `s` is cooling down at `now`.
pub open spec fn cooling_down(s: RouteState, now: u64) -> bool {
    now < s.cooldown_until
}

/// The route's state after an attempt at `now` ended with `result`: a
/// success clears it, a failure extends the cooldown, a timeout leaves it.
pub open spec fn after_attempt<T>(s: RouteState, p: ConnectionParams, now: u64, result: AttemptResult<T>) -> RouteState {
    match result {
        AttemptResult::Connected(_) => RouteState { consecutive_failures: 0, cooldown_until: 0, last_error: None },
        AttemptResult::Failed(e) => {
            let n = if s.consecutive_failures == u32::MAX { s.consecutive_failures } else { (s.consecutive_failures + 1) as u32 };
            let until = now + cooldown_for(p.cooldown_base_ms, p.max_cooldown_ms, n as nat);
            RouteState {
                consecutive_failures: n,
                cooldown_until: if until <= u64::MAX { until as u64 } else { u64::MAX },
                last_error: Some(e),
            }
        },
        AttemptResult::TimedOut => s,
    }
}

/// What an attempt that ended with `result` reports.
pub open spec fn reported<T>(result: AttemptResult<T>) -> ServiceState<T> {
    match result {
        AttemptResult::Connected(c) => ServiceState::Active(c),
        AttemptResult::Failed(e) => ServiceState::Error(e),
        AttemptResult::TimedOut => ServiceState::TimedOut,
    }
}

/// Connection manager for a single route, throttled by cooldowns.
pub struct SingleRouteThrottlingConnectionManager {
    pub params: ConnectionParams,
    pub connect_timeout_ms: u64,
    pub state: RouteState,
}

impl SingleRouteThrottlingConnectionManager {
    /// A manager whose route has never failed.
    pub fn new(params: ConnectionParams, connect_timeout_ms: u64) -> (r: Self)
        ensures
            r.params == params,
            r.connect_timeout_ms == connect_timeout_ms,
            r.state == (RouteState { consecutive_failures: 0, cooldown_until: 0, last_error: None }),
    {
        SingleRouteThrottlingConnectionManager {
            params,
            connect_timeout_ms,
            state: RouteState { consecutive_failures: 0, cooldown_until: 0, last_error: None },
        }
    }

    /// Where the route is cooling down at `now`, the milliseconds left;
    /// otherwise `None`, and an attempt may be made.
    pub fn cooldown_remaining(&self, now: u64) -> (r: Option<u64>)
        ensures
            cooling_down(self.state, now) <==> r is Some,
            r matches Some(d) ==> d == self.state.cooldown_until - now,
    {
        if now < self.state.cooldown_until {
            Some(self.state.cooldown_until - now)
        } else {
            None
        }
    }

    /// Records how an attempt made at `now` ended, and reports it.
    pub fn record_attempt<T>(&mut self, now: u64, result: AttemptResult<T>) -> (r: ServiceState<T>)
        ensures
            final(self).params == old(self).params,
            final(self).connect_timeout_ms == old(self).connect_timeout_ms,
            final(self).state == after_attempt(old(self).state, old(self).params, now, result),
            r == reported(result),
    {
        match result {
            AttemptResult::Connected(c) => {
                self.state = RouteState { consecutive_failures: 0, cooldown_until: 0, last_error: None };
                ServiceState::Active(c)
            },
            AttemptResult::Failed(e) => {
                let n = if self.state.consecutive_failures == u32::MAX {
                    self.state.consecutive_failures
                } else {
                    self.state.consecutive_failures + 1
                };
                let d = cooldown_ms(self.params.cooldown_base_ms, self.params.max_cooldown_ms, n);
                let until = now.saturating_add(d);
                self.state = RouteState { consecutive_failures: n, cooldown_until: until, last_error: Some(e) };
                ServiceState::Error(e)
            },
            AttemptResult::TimedOut => ServiceState::TimedOut,
        }
    }
}

/// What a multi-route connection does next.
pub enum Step<T> {
    /// Try the route at this index.
    TryRoute(usize),
    /// The logical attempt is over with this outcome.
    Finished(ServiceState<T>),
}

/// Connection manager over routes tried in priority order.
pub struct MultiRouteConnectionManager {
    pub routes: Vec<SingleRouteThrottlingConnectionManager>,
}

impl MultiRouteConnectionManager {
    /// A manager over `routes`, highest priority first.
    pub fn new(routes: Vec<SingleRouteThrottlingConnectionManager>) -> (r: Self)
        ensures
            r.routes@ == routes@,
    {
        MultiRouteConnectionManager { routes }
    }

    /// The first route at index `from` or later that is not cooling down
    /// at `now`.
    pub fn next_route(&self, now: u64, from: usize) -> (r: Option<usize>)
        ensures
            match r {
                Some(i) => from <= i < self.routes@.len() && !cooling_down(self.routes@[i as int].state, now)
                    && forall|j: int| from <= j < i ==> cooling_down(#[trigger] self.routes@[j].state, now),
                None => forall|j: int|
                    from <= j < self.routes@.len() ==> cooling_down(#[trigger] self.routes@[j].state, now),
            },
    {
        let mut i: usize = from;
        while i < self.routes.len()
            invariant
                from <= i,
                forall|j: int| from <= j < i && j < self.routes@.len() ==> cooling_down(#[trigger] self.routes@[j].state, now),
            decreases self.routes@.len() - i,
        {
            if self.routes[i].cooldown_remaining(now).is_none() {
                return Some(i);
            }
            i = i + 1;
        }
        None
    }

    /// Records how an attempt on route `index` at `now` ended, and reports it.
    pub fn record_attempt<T>(&mut self, index: usize, now: u64, result: AttemptResult<T>) -> (r: ServiceState<T>)
        requires
            index < old(self).routes@.len(),
        ensures
            final(self).routes@.len() == old(self).routes@.len(),
            forall|j: int| 0 <= j < old(self).routes@.len() && j != index ==> final(self).routes@[j] == old(self).routes@[j],
            final(self).routes@[index as int].state == after_attempt(
                old(self).routes@[index as int].state,
                old(self).routes@[index as int].params,
                now,
                result,
            ),
            final(self).routes@[index as int].params == old(self).routes@[index as int].params,
            r == reported(result),
    {
        let mut route = self.routes.remove(index);
        let r = route.record_attempt(now, result);
        self.routes.insert(index, route);
        r
    }

    /// What a logical attempt reports once no route is left to try: the
    /// outcome of the last attempt made, or, where every route was cooling
    /// down, the shortest cooldown left.
    pub fn exhausted<T>(&self, now: u64, last: Option<ServiceState<T>>) -> (r: ServiceState<T>)
        ensures
            last is Some ==> r == last.unwrap(),
            last is None ==> (r matches ServiceState::Cooldown(d) && (forall|j: int|
                0 <= j < self.routes@.len() && cooling_down(#[trigger] self.routes@[j].state, now)
                    ==> d <= self.routes@[j].state.cooldown_until - now) && (d == u64::MAX || exists|j: int|
                0 <= j < self.routes@.len() && cooling_down(#[trigger] self.routes@[j].state, now)
                    && d == self.routes@[j].state.cooldown_until - now)),
    {
        match last {
            Some(s) => s,
            None => {
                let mut best: u64 = u64::MAX;
                let mut i: usize = 0;
                while i < self.routes.len()
                    invariant
                        0 <= i <= self.routes@.len(),
                        forall|j: int| 0 <= j < i && cooling_down(#[trigger] self.routes@[j].state, now)
                            ==> best <= self.routes@[j].state.cooldown_until - now,
                        best == u64::MAX || exists|j: int| 0 <= j < i && cooling_down(#[trigger] self.routes@[j].state, now)
                            && best == self.routes@[j].state.cooldown_until - now,
                    decreases self.routes@.len() - i,
                {
                    if let Some(d) = self.routes[i].cooldown_remaining(now) {
                        if d < best {
                            best = d;
                        }
                    }
                    i = i + 1;
                }
                ServiceState::Cooldown(best)
            },
        }
    }

    /// How a logical attempt at `now` begins: with the first route that is
    /// not cooling down, or, where every route is, with the shortest
    /// cooldown left.
    pub fn start<T>(&self, now: u64) -> (r: Step<T>)
        ensures
            match r {
                Step::TryRoute(i) => i < self.routes@.len() && !cooling_down(self.routes@[i as int].state, now)
                    && forall|j: int| 0 <= j < i ==> cooling_down(#[trigger] self.routes@[j].state, now),
                Step::Finished(s) => s is Cooldown && forall|j: int|
                    0 <= j < self.routes@.len() ==> cooling_down(#[trigger] self.routes@[j].state, now),
            },
    {
        match self.next_route(now, 0) {
            Some(i) => Step::TryRoute(i),
            None => Step::Finished(self.exhausted(now, None)),
        }
    }

    /// Records how the attempt on route `index` at `now` ended, and says
    /// what follows: a connection ends the logical attempt; a failure or a
    /// timeout moves on to the next route that is not cooling down, and,
    /// where none is left, ends the attempt with that failure.
    pub fn advance<T>(&mut self, index: usize, now: u64, result: AttemptResult<T>) -> (r: Step<T>)
        requires
            index < old(self).routes@.len(),
        ensures
            final(self).routes@.len() == old(self).routes@.len(),
            forall|j: int| 0 <= j < old(self).routes@.len() && j != index ==> final(self).routes@[j] == old(self).routes@[j],
            final(self).routes@[index as int].state == after_attempt(
                old(self).routes@[index as int].state,
                old(self).routes@[index as int].params,
                now,
                result,
            ),
            final(self).routes@[index as int].params == old(self).routes@[index as int].params,
            result is Connected ==> r == Step::Finished(reported(result)),
            !(result is Connected) ==> match r {
                Step::TryRoute(i) => index < i < final(self).routes@.len() && !cooling_down(
                    final(self).routes@[i as int].state,
                    now,
                ) && forall|j: int| index < j < i ==> cooling_down(#[trigger] final(self).routes@[j].state, now),
                Step::Finished(s) => s == reported(result) && forall|j: int|
                    index < j < final(self).routes@.len() ==> cooling_down(#[trigger] final(self).routes@[j].state, now),
            },
    {
        let connected = matches!(result, AttemptResult::Connected(_));
        let reported_state = self.record_attempt(index, now, result);
        if connected {
            return Step::Finished(reported_state);
        }
        let n = self.routes.len();
        assert(index < n);
        match self.next_route(now, index + 1) {
            Some(i) => Step::TryRoute(i),
            None => Step::Finished(reported_state),
        }
    }
}

} // verus!
