//! Routes at run time: which requests a route takes, and round-robin choice
//! among its healthy servers.
use vstd::prelude::*;
use crate::text::{chars_of, chars_start_with_at, has_prefix};
use crate::gateway::config::{GatewayConfig, HealthCheckConfig, RouteConfig};
use vstd::arithmetic::div_mod::{lemma_fundamental_div_mod, lemma_fundamental_div_mod_converse};
use crate::gateway::url::{backend_address, parse_backend_url};

verus! {

/// A backend server of a route and whether it is taking requests.
#[derive(Debug)]
pub struct ServerEntry {
    pub url: String,
    pub host: String,
    pub port: u16,
    pub healthy: bool,
}

/// A route with its servers and its round-robin counter.
#[derive(Debug)]
pub struct Route {
    pub name: String,
    pub prefix: String,
    pub strip_prefix: bool,
    pub servers: Vec<ServerEntry>,
    pub health_check: Option<HealthCheckConfig>,
    pub rr_counter: usize,
}

/// What a health probe changed for one server.
#[derive(Clone, Copy, Debug, PartialEq, Eq)]
pub enum HealthChange {
    /// It was healthy and is not any more.
    WentDown,
    /// It was unhealthy and is healthy again.
    Recovered,
    /// Nothing changed.
    Unchanged,
}

pub open spec fn health_change(was: bool, now: bool) -> HealthChange {
    if was && !now {
        HealthChange::WentDown
    } else if !was && now {
        HealthChange::Recovered
    } else {
        HealthChange::Unchanged
    }
}

/// The healthy flags of `servers`, in order.
pub open spec fn health_flags(servers: Seq<ServerEntry>) -> Seq<bool> {
    Seq::new(servers.len(), |i: int| servers[i].healthy)
}

/// How many of the flags are set.
pub open spec fn count_true(f: Seq<bool>) -> nat
    decreases f.len(),
{
    if f.len() == 0 {
        0
    } else {
        count_true(f.drop_last()) + if f.last() {
            1nat
        } else {
            0nat
        }
    }
}

/// Position `i` holds the `k`-th set flag, counting from 0.
pub open spec fn is_nth_true(f: Seq<bool>, i: int, k: int) -> bool {
    0 <= i < f.len() && f[i] && count_true(f.take(i)) == k
}

/// The server that round robin picks when the counter stands at `counter`:
/// the `(counter mod n)`-th healthy one, `n` being the number of healthy
/// servers.
pub open spec fn round_robin_pick(f: Seq<bool>, counter: int) -> int {
    choose|i: int| #[trigger] is_nth_true(f, i, counter % (count_true(f) as int))
}

/// The counter after one pick: it wraps from `usize::MAX` to 0.
pub open spec fn next_counter(c: usize) -> usize {
    if c == usize::MAX {
        0
    } else {
        (c + 1) as usize
    }
}

/// A route takes a path that begins with its prefix, where the prefix ends
/// the path or is followed by `'/'`.
pub open spec fn route_matches(prefix: Seq<char>, path: Seq<char>) -> bool {
    has_prefix(path, prefix) && (path.len() == prefix.len() || path[prefix.len() as int] == '/')
}

/// What a route's health looks like after its start-up probes.
#[derive(Clone, Copy, Debug, PartialEq, Eq)]
pub enum HealthSummary {
    /// The route has no health check: all its servers are trusted.
    Unchecked { servers: usize },
    /// No server answered its probe: requests will get 503.
    AllUnhealthy,
    /// `healthy` of the `total` servers answered.
    Healthy { healthy: usize, total: usize },
}

/// `r` is the run-time form of `c`: same name, prefix and settings, counter
/// at 0, and each server's host and port read from its address; a server
/// starts healthy exactly when the route has no health check.
pub open spec fn built_from(r: Route, c: RouteConfig) -> bool {
    &&& r.name@ == c.name@
    &&& r.prefix@ == c.prefix@
    &&& r.strip_prefix == c.strip_prefix
    &&& r.health_check == c.health_check
    &&& r.rr_counter == 0
    &&& r.servers@.len() == c.servers@.len()
    &&& forall|i: int|
        0 <= i < r.servers@.len() ==> {
            let s = #[trigger] r.servers@[i];
            &&& s.url@ == c.servers@[i].url@
            &&& backend_address(c.servers@[i].url@) == Ok::<(Seq<char>, u16), crate::gateway::url::BackendUrlError>((s.host@, s.port))
            &&& s.healthy == c.health_check.is_none()
        }
}

/// A probe reports `Recovered` only for a server that was down and answered,
/// `WentDown` only for one that was up and did not, and `Unchanged`
/// exactly when the flag keeps its value.
pub proof fn lemma_health_change_reports_transitions(was: bool, now: bool)
    ensures
        health_change(was, now) == HealthChange::Recovered <==> !was && now,
        health_change(was, now) == HealthChange::WentDown <==> was && !now,
        health_change(was, now) == HealthChange::Unchanged <==> was == now,
{
}

/// A route takes its prefix alone and its prefix followed by `'/'` and
/// anything; it does not take its prefix followed by any other character,
/// nor a path that does not begin with the prefix.
pub proof fn lemma_route_matches_on_segment_boundary(prefix: Seq<char>, rest: Seq<char>, c: char, path: Seq<char>)
    ensures
        route_matches(prefix, prefix),
        route_matches(prefix, prefix + seq!['/'] + rest),
        c != '/' ==> !route_matches(prefix, prefix + seq![c] + rest),
        path.len() < prefix.len() ==> !route_matches(prefix, path),
        route_matches(prefix, path) ==> path.take(prefix.len() as int) == prefix,
{
    assert(prefix.take(prefix.len() as int) =~= prefix);
    let p1 = prefix + seq!['/'] + rest;
    assert(p1.take(prefix.len() as int) =~= prefix);
    assert(p1[prefix.len() as int] == '/');
    let p2 = prefix + seq![c] + rest;
    assert(p2.take(prefix.len() as int) =~= prefix);
    assert(p2[prefix.len() as int] == c);
}

/// Every server address of the route names a host and a port.
pub open spec fn backends_valid(cfg: RouteConfig) -> bool {
    forall|i: int| 0 <= i < cfg.servers@.len() ==> (#[trigger] backend_address(cfg.servers@[i].url@)) is Ok
}

pub proof fn lemma_count_take_step(f: Seq<bool>, i: int)
    requires
        0 <= i < f.len(),
    ensures
        count_true(f.take(i + 1)) == count_true(f.take(i)) + if f[i] {
            1nat
        } else {
            0nat
        },
{
    assert(f.take(i + 1).drop_last() =~= f.take(i));
}

pub proof fn lemma_count_take_monotone(f: Seq<bool>, i: int, j: int)
    requires
        0 <= i <= j <= f.len(),
    ensures
        count_true(f.take(i)) <= count_true(f.take(j)),
        count_true(f.take(j)) <= count_true(f.take(i)) + (j - i),
    decreases j - i,
{
    if i < j {
        lemma_count_take_monotone(f, i, j - 1);
        lemma_count_take_step(f, j - 1);
    }
}

pub proof fn lemma_count_whole(f: Seq<bool>)
    ensures
        count_true(f.take(f.len() as int)) == count_true(f),
        count_true(f) <= f.len(),
{
    assert(f.take(f.len() as int) =~= f);
    lemma_count_take_monotone(f, 0, f.len() as int);
    assert(f.take(0) =~= Seq::<bool>::empty());
}

/// There is exactly one `k`-th set flag for each `k` below the count.
pub proof fn lemma_nth_true_exists(f: Seq<bool>, k: int)
    requires
        0 <= k < count_true(f),
    ensures
        exists|i: int| is_nth_true(f, i, k),
    decreases f.len(),
{
    let g = f.drop_last();
    if k < count_true(g) {
        lemma_nth_true_exists(g, k);
        let i = choose|i: int| is_nth_true(g, i, k);
        assert(f.take(i) =~= g.take(i));
        assert(is_nth_true(f, i, k));
    } else {
        let i = f.len() - 1;
        assert(f.take(i) =~= g);
        assert(is_nth_true(f, i, k));
    }
}

pub proof fn lemma_nth_true_unique(f: Seq<bool>, i: int, j: int, k: int)
    requires
        is_nth_true(f, i, k),
        is_nth_true(f, j, k),
    ensures
        i == j,
{
    if i < j {
        lemma_count_take_step(f, i);
        lemma_count_take_monotone(f, i + 1, j);
    } else if j < i {
        lemma_count_take_step(f, j);
        lemma_count_take_monotone(f, j + 1, i);
    }
}

/// The pick of round robin is a healthy server.
pub proof fn lemma_pick_is_healthy(f: Seq<bool>, counter: int)
    requires
        count_true(f) > 0,
        counter >= 0,
    ensures
        is_nth_true(f, round_robin_pick(f, counter), counter % (count_true(f) as int)),
        0 <= round_robin_pick(f, counter) < f.len(),
        f[round_robin_pick(f, counter)],
{
    lemma_nth_true_exists(f, counter % (count_true(f) as int));
}

/// Whatever the counter, the next `n` picks (`n` being the number of
/// healthy servers) visit every healthy server: round robin leaves none out.
pub proof fn lemma_round_robin_visits_every_healthy_server(f: Seq<bool>, c: int, i: int)
    requires
        c >= 0,
        0 <= i < f.len(),
        f[i],
    ensures
        exists|k: int| 0 <= k < count_true(f) && #[trigger] round_robin_pick(f, c + k) == i,
{
    let n = count_true(f) as int;
    let r = count_true(f.take(i)) as int;
    lemma_count_take_step(f, i);
    lemma_count_take_monotone(f, i + 1, f.len() as int);
    lemma_count_whole(f);
    assert(r < n);
    lemma_fundamental_div_mod(c, n);
    let q = c / n;
    let m = c % n;
    assert(0 <= m < n);
    let k = if r >= m {
        r - m
    } else {
        n - m + r
    };
    if r >= m {
        assert(c + k == q * n + r) by (nonlinear_arith)
            requires
                c == n * q + m,
                k == r - m,
        ;
        lemma_fundamental_div_mod_converse(c + k, n, q, r);
    } else {
        assert(c + k == (q + 1) * n + r) by (nonlinear_arith)
            requires
                c == n * q + m,
                k == n - m + r,
        ;
        lemma_fundamental_div_mod_converse(c + k, n, q + 1, r);
    }
    lemma_pick_is_healthy(f, c + k);
    lemma_nth_true_unique(f, round_robin_pick(f, c + k), i, r);
    assert(0 <= k < count_true(f) && round_robin_pick(f, c + k) == i);
}

/// With two or more healthy servers, consecutive picks differ.
pub proof fn lemma_round_robin_consecutive_picks_differ(f: Seq<bool>, c: int)
    requires
        c >= 0,
        count_true(f) >= 2,
    ensures
        round_robin_pick(f, c) != round_robin_pick(f, c + 1),
{
    let n = count_true(f) as int;
    lemma_fundamental_div_mod(c, n);
    let q = c / n;
    let m = c % n;
    assert(0 <= m < n);
    if m + 1 < n {
        assert(c + 1 == q * n + (m + 1)) by (nonlinear_arith)
            requires
                c == n * q + m,
        ;
        lemma_fundamental_div_mod_converse(c + 1, n, q, m + 1);
    } else {
        assert(c + 1 == (q + 1) * n + 0) by (nonlinear_arith)
            requires
                c == n * q + m,
                m + 1 == n,
        ;
        lemma_fundamental_div_mod_converse(c + 1, n, q + 1, 0);
    }
    lemma_pick_is_healthy(f, c);
    lemma_pick_is_healthy(f, c + 1);
}

/// Counters that differ by less than the number of healthy servers lead to
/// different picks.
pub proof fn lemma_round_robin_picks_distinct(f: Seq<bool>, c: int, j1: int, j2: int)
    requires
        c >= 0,
        count_true(f) > 0,
        0 <= j1 < j2 < count_true(f),
    ensures
        round_robin_pick(f, c + j1) != round_robin_pick(f, c + j2),
{
    let n = count_true(f) as int;
    lemma_pick_is_healthy(f, c + j1);
    lemma_pick_is_healthy(f, c + j2);
    lemma_fundamental_div_mod(c + j1, n);
    lemma_fundamental_div_mod(c + j2, n);
    let q1 = (c + j1) / n;
    let q2 = (c + j2) / n;
    let r1 = (c + j1) % n;
    let r2 = (c + j2) % n;
    if round_robin_pick(f, c + j1) == round_robin_pick(f, c + j2) {
        assert(r1 == r2);
        assert(false) by (nonlinear_arith)
            requires
                c + j1 == n * q1 + r1,
                c + j2 == n * q2 + r2,
                r1 == r2,
                0 < j2 - j1 < n,
        ;
    }
}

/// Round robin hands out every healthy server exactly once in any `n`
/// consecutive picks, `n` being the number of healthy servers: the picks at
/// counters `c, c + 1, ..., c + n - 1` are pairwise different, and each
/// healthy server is among them.
pub proof fn lemma_round_robin_exactly_once(f: Seq<bool>, c: int)
    requires
        c >= 0,
        count_true(f) > 0,
    ensures
        forall|j1: int, j2: int|
            0 <= j1 < count_true(f) && 0 <= j2 < count_true(f) && j1 != j2
                ==> #[trigger] round_robin_pick(f, c + j1) != #[trigger] round_robin_pick(f, c + j2),
        forall|i: int|
            0 <= i < f.len() && #[trigger] f[i] ==> exists|j: int|
                0 <= j < count_true(f) && #[trigger] round_robin_pick(f, c + j) == i,
{
    assert forall|j1: int, j2: int|
        0 <= j1 < count_true(f) && 0 <= j2 < count_true(f) && j1 != j2
            implies #[trigger] round_robin_pick(f, c + j1) != #[trigger] round_robin_pick(f, c + j2) by {
        if j1 < j2 {
            lemma_round_robin_picks_distinct(f, c, j1, j2);
        } else {
            lemma_round_robin_picks_distinct(f, c, j2, j1);
        }
    }
    assert forall|i: int| 0 <= i < f.len() && #[trigger] f[i] implies exists|j: int|
        0 <= j < count_true(f) && #[trigger] round_robin_pick(f, c + j) == i by {
        lemma_round_robin_visits_every_healthy_server(f, c, i);
    }
}

/// Below `usize::MAX`, a pick moves the counter on by exactly one, so `k`
/// calls of `next_server` that do not reach `usize::MAX` use the counters
/// `c, c + 1, ..., c + k - 1`.
pub proof fn lemma_next_counter_steps_by_one(c: usize)
    requires
        c < usize::MAX,
    ensures
        next_counter(c) == c + 1,
{
}

/// The servers that health probes go to, as (route, server) positions:
/// every server of every route that has a health check, in order.
pub open spec fn is_probe_target(routes: Seq<Route>, t: (usize, usize)) -> bool {
    &&& t.0 < routes.len()
    &&& routes[t.0 as int].health_check is Some
    &&& t.1 < routes[t.0 as int].servers@.len()
}

/// `a` comes before `b`: by route, then by server.
pub open spec fn target_before(a: (usize, usize), b: (usize, usize)) -> bool {
    a.0 < b.0 || (a.0 == b.0 && a.1 < b.1)
}

/// The probe targets of `routes`: every server of a route with a health
/// check, each once, ordered by route and then by server.
pub fn probe_targets(routes: &Vec<Route>) -> (t: Vec<(usize, usize)>)
    ensures
        forall|k: int| 0 <= k < t@.len() ==> is_probe_target(routes@, #[trigger] t@[k]),
        forall|p: (usize, usize)| is_probe_target(routes@, p) ==> t@.contains(p),
        forall|k1: int, k2: int| 0 <= k1 < k2 < t@.len() ==> target_before(#[trigger] t@[k1], #[trigger] t@[k2]),
{
    let mut t: Vec<(usize, usize)> = Vec::new();
    let n = routes.len();
    let mut r: usize = 0;
    while r < n
        invariant
            n == routes@.len(),
            r <= n,
            forall|k: int| 0 <= k < t@.len() ==> is_probe_target(routes@, #[trigger] t@[k]) && t@[k].0 < r,
            forall|p: (usize, usize)| is_probe_target(routes@, p) && p.0 < r ==> t@.contains(p),
            forall|k1: int, k2: int| 0 <= k1 < k2 < t@.len() ==> target_before(#[trigger] t@[k1], #[trigger] t@[k2]),
        decreases n - r,
    {
        if routes[r].health_check.is_some() {
            let m = routes[r].servers.len();
            let mut s: usize = 0;
            let ghost base = t@.len();
            while s < m
                invariant
                    n == routes@.len(),
                    r < n,
                    routes@[r as int].health_check is Some,
                    m == routes@[r as int].servers@.len(),
                    s <= m,
                    base <= t@.len(),
                    t@.len() == base + s,
                    forall|k: int| 0 <= k < base ==> is_probe_target(routes@, #[trigger] t@[k]) && t@[k].0 < r,
                    forall|k: int| base <= k < t@.len() ==> #[trigger] t@[k] == (r, (k - base) as usize),
                    forall|p: (usize, usize)| is_probe_target(routes@, p) && p.0 < r ==> t@.contains(p),
                    forall|k1: int, k2: int| 0 <= k1 < k2 < t@.len() ==> target_before(#[trigger] t@[k1], #[trigger] t@[k2]),
                decreases m - s,
            {
                let ghost before = t@;
                t.push((r, s));
                assert forall|p: (usize, usize)| is_probe_target(routes@, p) && p.0 < r implies t@.contains(p) by {
                    let k = choose|k: int| 0 <= k < before.len() && before[k] == p;
                    assert(t@[k] == p);
                }
                s = s + 1;
            }
            assert forall|p: (usize, usize)| is_probe_target(routes@, p) && p.0 < r + 1 implies t@.contains(p) by {
                if p.0 == r {
                    let k = base + p.1 as int;
                    assert(t@[k] == (r, (k - base) as usize));
                }
            }
        }
        r = r + 1;
    }
    t
}

/// The first server of the route whose address is not valid, if any.
pub fn check_backends(cfg: &RouteConfig) -> (r: Option<usize>)
    ensures
        r is None <==> backends_valid(*cfg),
        r matches Some(i) ==> i < cfg.servers@.len() && backend_address(cfg.servers@[i as int].url@) is Err
            && forall|j: int| 0 <= j < i ==> (#[trigger] backend_address(cfg.servers@[j].url@)) is Ok,
{
    let n = cfg.servers.len();
    let mut i: usize = 0;
    while i < n
        invariant
            n == cfg.servers@.len(),
            i <= n,
            forall|j: int| 0 <= j < i ==> (#[trigger] backend_address(cfg.servers@[j].url@)) is Ok,
        decreases n - i,
    {
        if parse_backend_url(cfg.servers[i].url.as_str()).is_err() {
            return Some(i);
        }
        i = i + 1;
    }
    None
}

/// The run-time routes of a configuration, in the same order.
pub fn routes_from_config(cfg: &GatewayConfig) -> (routes: Vec<Route>)
    requires
        forall|i: int| 0 <= i < cfg.routes@.len() ==> backends_valid(#[trigger] cfg.routes@[i]),
    ensures
        routes@.len() == cfg.routes@.len(),
        forall|i: int| 0 <= i < routes@.len() ==> built_from(#[trigger] routes@[i], cfg.routes@[i]),
{
    let n = cfg.routes.len();
    let mut routes: Vec<Route> = Vec::new();
    let mut i: usize = 0;
    while i < n
        invariant
            n == cfg.routes@.len(),
            i <= n,
            routes@.len() == i,
            forall|i: int| 0 <= i < cfg.routes@.len() ==> backends_valid(#[trigger] cfg.routes@[i]),
            forall|j: int| 0 <= j < i ==> built_from(#[trigger] routes@[j], cfg.routes@[j]),
        decreases n - i,
    {
        let r = Route::from_config(&cfg.routes[i]);
        routes.push(r);
        i = i + 1;
    }
    routes
}

impl Route {
    /// How the route stands: unchecked when it has no health check; else
    /// all unhealthy, or how many of its servers are healthy.
    pub fn health_summary(&self) -> (s: HealthSummary)
        ensures
            s == if self.health_check is None {
                HealthSummary::Unchecked { servers: self.servers@.len() as usize }
            } else if count_true(health_flags(self.servers@)) == 0 {
                HealthSummary::AllUnhealthy
            } else {
                HealthSummary::Healthy {
                    healthy: count_true(health_flags(self.servers@)) as usize,
                    total: self.servers@.len() as usize,
                }
            },
    {
        if self.health_check.is_none() {
            return HealthSummary::Unchecked { servers: self.servers.len() };
        }
        let healthy = self.healthy_count();
        if healthy == 0 {
            HealthSummary::AllUnhealthy
        } else {
            HealthSummary::Healthy { healthy, total: self.servers.len() }
        }
    }

    /// Builds the run-time route: every address is split into host and
    /// port; a server starts healthy exactly when the route has no health
    /// check, and the counter starts at 0.
    pub fn from_config(cfg: &RouteConfig) -> (r: Route)
        requires
            backends_valid(*cfg),
        ensures
            built_from(r, *cfg),
    {
        let mut servers: Vec<ServerEntry> = Vec::new();
        let n = cfg.servers.len();
        let starts_healthy = cfg.health_check.is_none();
        let mut i: usize = 0;
        while i < n
            invariant
                n == cfg.servers@.len(),
                i <= n,
                backends_valid(*cfg),
                starts_healthy == cfg.health_check.is_none(),
                servers@.len() == i,
                forall|j: int|
                    0 <= j < i ==> {
                        let s = #[trigger] servers@[j];
                        &&& s.url@ == cfg.servers@[j].url@
                        &&& backend_address(cfg.servers@[j].url@) == Ok::<(Seq<char>, u16), crate::gateway::url::BackendUrlError>((s.host@, s.port))
                        &&& s.healthy == starts_healthy
                    },
            decreases n - i,
        {
            let url = &cfg.servers[i].url;
            assert(backend_address(cfg.servers@[i as int].url@) is Ok);
            match parse_backend_url(url.as_str()) {
                Ok((host, port)) => {
                    servers.push(ServerEntry { url: url.clone(), host, port, healthy: starts_healthy });
                },
                Err(_) => {
                    assert(false);
                },
            }
            i = i + 1;
        }
        let health_check = match &cfg.health_check {
            Some(hc) => Some(hc.duplicate()),
            None => None,
        };
        Route {
            name: cfg.name.clone(),
            prefix: cfg.prefix.clone(),
            strip_prefix: cfg.strip_prefix,
            servers,
            health_check,
            rr_counter: 0,
        }
    }

    /// The number of healthy servers.
    pub fn healthy_count(&self) -> (n: usize)
        ensures
            n == count_true(health_flags(self.servers@)),
    {
        let ghost f = health_flags(self.servers@);
        let len = self.servers.len();
        let mut count: usize = 0;
        let mut j: usize = 0;
        while j < len
            invariant
                len == self.servers@.len(),
                f == health_flags(self.servers@),
                j <= len,
                count == count_true(f.take(j as int)),
                count <= j,
            decreases len - j,
        {
            proof {
                lemma_count_take_step(f, j as int);
            }
            if self.servers[j].healthy {
                count = count + 1;
            }
            j = j + 1;
        }
        proof {
            lemma_count_whole(f);
        }
        count
    }

    /// The next server in round-robin order among the healthy ones, or
    /// `None` when none is healthy; the counter advances (wrapping) only
    /// when a server is picked.
    pub fn next_server(&mut self) -> (r: Option<(String, u16)>)
        ensures
            final(self).name == old(self).name,
            final(self).prefix == old(self).prefix,
            final(self).strip_prefix == old(self).strip_prefix,
            final(self).servers@ == old(self).servers@,
            final(self).health_check == old(self).health_check,
            ({
                let f = health_flags(old(self).servers@);
                if count_true(f) == 0 {
                    &&& r is None
                    &&& final(self).rr_counter == old(self).rr_counter
                } else {
                    let i = round_robin_pick(f, old(self).rr_counter as int);
                    &&& final(self).rr_counter == next_counter(old(self).rr_counter)
                    &&& r matches Some((host, port)) && host@ == old(self).servers@[i].host@
                        && port == old(self).servers@[i].port
                }
            }),
    {
        let ghost f = health_flags(self.servers@);
        let count = self.healthy_count();
        if count == 0 {
            return None;
        }
        let c = self.rr_counter;
        let idx = c % count;
        proof {
            lemma_pick_is_healthy(f, c as int);
        }
        let len = self.servers.len();
        let mut seen: usize = 0;
        let mut j: usize = 0;
        while j < len
            invariant
                len == self.servers@.len(),
                f == health_flags(self.servers@),
                j <= len,
                seen == count_true(f.take(j as int)),
                seen <= idx,
                idx < count,
                count == count_true(f),
                idx == c as int % count as int,
                c == self.rr_counter,
                *self == *old(self),
            decreases len - j,
        {
            proof {
                lemma_count_take_step(f, j as int);
            }
            if self.servers[j].healthy {
                if seen == idx {
                    proof {
                        assert(is_nth_true(f, j as int, idx as int));
                        let p = round_robin_pick(f, c as int);
                        lemma_nth_true_unique(f, j as int, p, idx as int);
                    }
                    let host = self.servers[j].host.clone();
                    let port = self.servers[j].port;
                    self.rr_counter = if c == usize::MAX { 0 } else { c + 1 };
                    return Some((host, port));
                }
                seen = seen + 1;
            }
            j = j + 1;
        }
        proof {
            lemma_count_whole(f);
        }
        None
    }

    /// Whether this route takes requests for `path`.
    pub fn matches(&self, path: &str) -> (b: bool)
        ensures
            b == route_matches(self.prefix@, path@),
            b == (self.prefix@.len() <= path@.len() && path@.take(self.prefix@.len() as int) == self.prefix@
                && (path@.len() == self.prefix@.len() || path@[self.prefix@.len() as int] == '/')),
    {
        let p = chars_of(path);
        let pre = chars_of(self.prefix.as_str());
        assert(p@.skip(0) =~= p@);
        if !chars_start_with_at(&p, 0, &pre) {
            return false;
        }
        p.len() == pre.len() || p[pre.len()] == '/'
    }

    /// Records a probe result for server `idx` and says what changed.
    pub fn set_server_health(&mut self, idx: usize, ok: bool) -> (change: HealthChange)
        requires
            idx < old(self).servers@.len(),
        ensures
            final(self).name == old(self).name,
            final(self).prefix == old(self).prefix,
            final(self).strip_prefix == old(self).strip_prefix,
            final(self).health_check == old(self).health_check,
            final(self).rr_counter == old(self).rr_counter,
            final(self).servers@.len() == old(self).servers@.len(),
            forall|j: int|
                0 <= j < old(self).servers@.len() && j != idx ==> #[trigger] final(self).servers@[j]
                    == old(self).servers@[j],
            final(self).servers@[idx as int].url == old(self).servers@[idx as int].url,
            final(self).servers@[idx as int].host == old(self).servers@[idx as int].host,
            final(self).servers@[idx as int].port == old(self).servers@[idx as int].port,
            final(self).servers@[idx as int].healthy == ok,
            change == health_change(old(self).servers@[idx as int].healthy, ok),
            change == HealthChange::Recovered <==> !old(self).servers@[idx as int].healthy && ok,
            change == HealthChange::WentDown <==> old(self).servers@[idx as int].healthy && !ok,
            change == HealthChange::Unchanged <==> old(self).servers@[idx as int].healthy == ok,
    {
        let was = self.servers[idx].healthy;
        self.servers[idx].healthy = ok;
        if was && !ok {
            HealthChange::WentDown
        } else if !was && ok {
            HealthChange::Recovered
        } else {
            HealthChange::Unchanged
        }
    }
}

/// The first route that takes `path`, by position.
pub fn find_route(routes: &Vec<Route>, path: &str) -> (r: Option<usize>)
    ensures
        match r {
            Some(i) => i < routes@.len() && route_matches(routes@[i as int].prefix@, path@)
                && forall|j: int| 0 <= j < i ==> !route_matches(#[trigger] routes@[j].prefix@, path@),
            None => forall|j: int| 0 <= j < routes@.len() ==> !route_matches(#[trigger] routes@[j].prefix@, path@),
        },
{
    let n = routes.len();
    let mut i: usize = 0;
    while i < n
        invariant
            n == routes@.len(),
            i <= n,
            forall|j: int| 0 <= j < i ==> !route_matches(#[trigger] routes@[j].prefix@, path@),
        decreases n - i,
    {
        if routes[i].matches(path) {
            return Some(i);
        }
        i = i + 1;
    }
    None
}

} // verus!
