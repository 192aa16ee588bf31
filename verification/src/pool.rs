//! Connection pool bookkeeping
//!
//! The pool keeps, per server URL, the connections that are available and
//! those in use, and decides when a connection is reused, when a new one
//! is made, when a released one is kept, and which idle or unhealthy ones
//! are evicted. The connections themselves (and the health of each, which
//! is read from its client) are held by the caller, which reports them by
//! their IDs. Times are nanoseconds on the caller's clock.
use vstd::prelude::*;
use std::time::Duration;
use crate::error::{Error, Result};
use crate::time::duration_nanos;
use crate::text::str_eq;
use crate::assoc::{
    to_map, distinct_keys, lemma_to_map_at, lemma_to_map_dom, lemma_to_map_len, lemma_to_map_remove,
    lemma_to_map_push, lemma_to_map_map_values, map_sum, entries_sum, lemma_entries_sum,
    lemma_entries_sum_prefix,
};

verus! {

/// Configuration for the connection pool
#[derive(Debug, Clone)]
pub struct PoolConfig {
    /// Minimum number of connections to maintain per server
    pub min_connections: usize,
    /// Maximum number of connections per server
    pub max_connections: usize,
    /// How long to keep idle connections before eviction
    pub idle_timeout: Duration,
    /// How often to check connection health
    pub health_check_interval: Duration,
    /// Maximum time to wait for a connection from the pool
    pub acquire_timeout: Duration,
    /// Whether to enable connection health checking
    pub enable_health_check: bool,
}

impl Default for PoolConfig {
    fn default() -> (r: Self)
        ensures
            r.min_connections == 1,
            r.max_connections == 10,
            duration_nanos(r.idle_timeout) == 300_000_000_000,
            duration_nanos(r.health_check_interval) == 30_000_000_000,
            duration_nanos(r.acquire_timeout) == 5_000_000_000,
            r.enable_health_check,
    {
        PoolConfig {
            min_connections: 1,
            max_connections: 10,
            idle_timeout: Duration::from_secs(300),
            health_check_interval: Duration::from_secs(30),
            acquire_timeout: Duration::from_secs(5),
            enable_health_check: true,
        }
    }
}

/// Why a pool configuration is refused, if it is.
pub open spec fn config_problem(c: PoolConfig) -> Option<Seq<char>> {
    if c.min_connections == 0 {
        Some("min_connections must be greater than 0"@)
    } else if c.max_connections == 0 {
        Some("max_connections must be greater than 0"@)
    } else if c.min_connections > c.max_connections {
        Some("min_connections cannot be greater than max_connections"@)
    } else {
        None
    }
}

impl PoolConfig {
    /// Create a new pool configuration with default values
    pub fn new() -> (r: Self)
        ensures
            r.min_connections == 1,
            r.max_connections == 10,
            duration_nanos(r.idle_timeout) == 300_000_000_000,
            duration_nanos(r.health_check_interval) == 30_000_000_000,
            duration_nanos(r.acquire_timeout) == 5_000_000_000,
            r.enable_health_check,
    {
        Self::default()
    }

    /// Set minimum connections (at least 1)
    pub fn with_min_connections(self, min: usize) -> (r: Self)
        requires
            min > 0,
        ensures
            r == (PoolConfig { min_connections: min, ..self }),
    {
        let mut c = self;
        c.min_connections = min;
        c
    }

    /// Set maximum connections (at least 1)
    pub fn with_max_connections(self, max: usize) -> (r: Self)
        requires
            max > 0,
        ensures
            r == (PoolConfig { max_connections: max, ..self }),
    {
        let mut c = self;
        c.max_connections = max;
        c
    }

    /// Set idle timeout
    pub fn with_idle_timeout(self, timeout: Duration) -> (r: Self)
        ensures
            r == (PoolConfig { idle_timeout: timeout, ..self }),
    {
        let mut c = self;
        c.idle_timeout = timeout;
        c
    }

    /// Set health check interval
    pub fn with_health_check_interval(self, interval: Duration) -> (r: Self)
        ensures
            r == (PoolConfig { health_check_interval: interval, ..self }),
    {
        let mut c = self;
        c.health_check_interval = interval;
        c
    }

    /// Set acquire timeout
    pub fn with_acquire_timeout(self, timeout: Duration) -> (r: Self)
        ensures
            r == (PoolConfig { acquire_timeout: timeout, ..self }),
    {
        let mut c = self;
        c.acquire_timeout = timeout;
        c
    }

    /// Enable or disable health checking
    pub fn with_health_check(self, enabled: bool) -> (r: Self)
        ensures
            r == (PoolConfig { enable_health_check: enabled, ..self }),
    {
        let mut c = self;
        c.enable_health_check = enabled;
        c
    }

    /// Validate configuration: both limits at least 1, the minimum not
    /// above the maximum.
    pub fn validate(&self) -> (r: Result<()>)
        ensures
            match config_problem(*self) {
                None => r is Ok,
                Some(m) => r matches Err(Error::InvalidState(s)) && s@ == m,
            },
    {
        if self.min_connections == 0 {
            return Err(Error::invalid_state("min_connections must be greater than 0"));
        }
        if self.max_connections == 0 {
            return Err(Error::invalid_state("max_connections must be greater than 0"));
        }
        if self.min_connections > self.max_connections {
            return Err(Error::invalid_state("min_connections cannot be greater than max_connections"));
        }
        Ok(())
    }
}

/// Pool statistics
#[derive(Debug, Clone)]
pub struct PoolStats {
    /// Number of server pools
    pub server_count: usize,
    /// Total connections across all pools
    pub total_connections: usize,
    /// Available connections
    pub available_connections: usize,
    /// In-use connections
    pub in_use_connections: usize,
    /// Total connections created
    pub total_created: u64,
}

/// Server pool statistics
#[derive(Debug, Clone)]
pub struct ServerPoolStats {
    /// Server URL
    pub url: String,
    /// Available connections
    pub available: usize,
    /// In-use connections
    pub in_use: usize,
    /// Total connections
    pub total: usize,
    /// Total connections created
    pub total_created: u64,
    /// Total connections acquired
    pub total_acquired: u64,
    /// Total connections released
    pub total_released: u64,
}

/// Cleanup statistics
#[derive(Debug, Clone)]
pub struct CleanupStats {
    /// Number of connections removed
    pub connections_removed: usize,
    /// Number of servers cleaned up
    pub servers_cleaned: usize,
}

/// A new random connection ID: `uuid::Uuid::new_v4` in its hyphenated text
/// form (36 characters); nothing else is promised of it.
#[verifier::external_body]
fn random_connection_id() -> (r: String)
    ensures
        r@.len() == 36,
{
    uuid::Uuid::new_v4().to_string()
}

/// The time from `t` to `now` (none when the clock reads earlier).
pub open spec fn since(t: u64, now: u64) -> nat {
    if now > t {
        (now - t) as nat
    } else {
        0
    }
}

/// The record of a pooled connection
#[derive(Debug)]
pub struct PooledConnection {
    /// Unique identifier for this connection
    pub id: String,
    /// Server URL this connection is to
    pub url: String,
    /// When this connection was last used
    pub last_used: u64,
    /// When this connection was created
    pub created_at: u64,
    /// Whether this connection is currently in use
    pub in_use: bool,
    /// Whether the connection's client was connected when last checked
    pub healthy: bool,
}

/// A connection as plain values: ID, URL, last use, creation, in use, healthy.
pub type ConnView = (Seq<char>, Seq<char>, u64, u64, bool, bool);

/// A connection as plain values.
pub open spec fn conn_view(c: PooledConnection) -> ConnView {
    (c.id@, c.url@, c.last_used, c.created_at, c.in_use, c.healthy)
}

/// Connections as plain values.
pub open spec fn conns_view(v: Seq<PooledConnection>) -> Seq<ConnView> {
    v.map_values(|c: PooledConnection| conn_view(c))
}

/// A connection not in use is idle when it was last used more than
/// `timeout` nanoseconds before `now`.
pub open spec fn conn_idle(c: ConnView, timeout: nat, now: u64) -> bool {
    !c.4 && since(c.2, now) > timeout
}

/// A connection not in use is evicted when it is idle or unhealthy.
pub open spec fn conn_evicted(c: ConnView, timeout: nat, now: u64) -> bool {
    !c.4 && (conn_idle(c, timeout, now) || !c.5)
}

impl PooledConnection {
    /// Create the record of a new connection to `url` at time `now`, with a
    /// fresh random ID: not in use, healthy.
    pub fn new(url: String, now: u64) -> (r: Self)
        ensures
            r.id@.len() == 36,
            r.url@ == url@,
            r.last_used == now,
            r.created_at == now,
            !r.in_use,
            r.healthy,
    {
        PooledConnection {
            id: random_connection_id(),
            url,
            last_used: now,
            created_at: now,
            in_use: false,
            healthy: true,
        }
    }

    /// Whether the connection was healthy when last checked
    pub fn is_healthy(&self) -> (r: bool)
        ensures
            r == self.healthy,
    {
        self.healthy
    }

    /// Whether the connection is idle at `now`
    pub fn is_idle_at(&self, timeout: Duration, now: u64) -> (r: bool)
        ensures
            r == conn_idle(conn_view(*self), duration_nanos(timeout), now),
    {
        !self.in_use && now > self.last_used && ((now - self.last_used) as u128) > timeout.as_nanos()
    }

    /// Whether the connection should be evicted at `now`
    pub fn should_evict_at(&self, max_age: Duration, now: u64) -> (r: bool)
        ensures
            r == conn_evicted(conn_view(*self), duration_nanos(max_age), now),
    {
        !self.in_use && (self.is_idle_at(max_age, now) || !self.is_healthy())
    }

    /// Mark the connection as used at `now`
    pub fn mark_used(&mut self, now: u64)
        ensures
            conn_view(*final(self)) == (old(self).id@, old(self).url@, now, old(self).created_at, old(
                self,
            ).in_use, old(self).healthy),
    {
        self.last_used = now;
    }

    /// The connection's age at `now`
    pub fn age_at(&self, now: u64) -> (r: Duration)
        ensures
            duration_nanos(r) == since(self.created_at, now),
    {
        Duration::from_nanos(now.saturating_sub(self.created_at))
    }
}

/// The connection at position `i` has ID `id`.
pub open spec fn id_at(s: Seq<ConnView>, id: Seq<char>, i: int) -> bool {
    0 <= i < s.len() && s[i].0 == id
}

/// Some connection has ID `id`.
pub open spec fn has_id(s: Seq<ConnView>, id: Seq<char>) -> bool {
    exists|i: int| id_at(s, id, i)
}

/// The position of the first connection with ID `id`.
pub open spec fn first_id(s: Seq<ConnView>, id: Seq<char>) -> int {
    choose|i: int| id_at(s, id, i) && forall|j: int| 0 <= j < i ==> !#[trigger] id_at(s, id, j)
}

/// A position with the ID and none before it is the first one.
proof fn lemma_first_id(s: Seq<ConnView>, id: Seq<char>, i: int)
    requires
        id_at(s, id, i),
        forall|j: int| 0 <= j < i ==> !#[trigger] id_at(s, id, j),
    ensures
        first_id(s, id) == i,
{
    let k = first_id(s, id);
    assert(id_at(s, id, k) && forall|j: int| 0 <= j < k ==> !#[trigger] id_at(s, id, j));
    if k < i {
        assert(!id_at(s, id, k));
    }
    if k > i {
        assert(!id_at(s, id, i));
    }
}

/// When some connection has the ID, the first one has it.
proof fn lemma_first_id_exists(s: Seq<ConnView>, id: Seq<char>)
    requires
        has_id(s, id),
    ensures
        id_at(s, id, first_id(s, id)),
        forall|j: int| 0 <= j < first_id(s, id) ==> !#[trigger] id_at(s, id, j),
{
    let i = choose|i: int| id_at(s, id, i);
    lemma_least_id_below(s, id, i);
}

proof fn lemma_least_id_below(s: Seq<ConnView>, id: Seq<char>, n: int)
    requires
        id_at(s, id, n),
    ensures
        exists|i: int| id_at(s, id, i) && forall|j: int| 0 <= j < i ==> !#[trigger] id_at(s, id, j),
    decreases n,
{
    if exists|j: int| 0 <= j < n && id_at(s, id, j) {
        let j = choose|j: int| 0 <= j < n && id_at(s, id, j);
        lemma_least_id_below(s, id, j);
    }
}

/// The position of the first connection with ID `id`, if any.
fn position_of(v: &Vec<PooledConnection>, id: &str) -> (r: Option<usize>)
    ensures
        r matches Some(i) ==> i < v@.len() && i == first_id(conns_view(v@), id@) && has_id(
            conns_view(v@),
            id@,
        ),
        r is None ==> !has_id(conns_view(v@), id@),
{
    let ghost cs = conns_view(v@);
    let mut i: usize = 0;
    while i < v.len()
        invariant
            i <= v@.len(),
            cs == conns_view(v@),
            forall|j: int| 0 <= j < i ==> !#[trigger] id_at(cs, id@, j),
        decreases v@.len() - i,
    {
        if str_eq(v[i].id.as_str(), id) {
            proof {
                assert(id_at(cs, id@, i as int));
                lemma_first_id(cs, id@, i as int);
            }
            return Some(i);
        }
        i = i + 1;
    }
    None
}

/// Record the health of the connection at position `pos`.
fn set_health_at(v: &mut Vec<PooledConnection>, pos: usize, healthy: bool)
    requires
        pos < old(v)@.len(),
    ensures
        conns_view(final(v)@) == conns_view(old(v)@).update(
            pos as int,
            with_health(conns_view(old(v)@)[pos as int], healthy),
        ),
{
    let ghost before = v@;
    let mut conn = v.remove(pos);
    conn.healthy = healthy;
    v.insert(pos, conn);
    assert(v@ == before.remove(pos as int).insert(pos as int, conn));
    assert(conns_view(v@) =~= conns_view(before).update(
        pos as int,
        with_health(conns_view(before)[pos as int], healthy),
    ));
}

/// The connection with the health flag set as given.
pub open spec fn with_health(c: ConnView, healthy: bool) -> ConnView {
    (c.0, c.1, c.2, c.3, c.4, healthy)
}

/// A connection taken from the available ones for use at `now`.
pub open spec fn reused(c: ConnView, now: u64) -> ConnView {
    (c.0, c.1, now, c.3, true, c.5)
}

/// A pool after the connection `id` in use is released at `now`: it goes
/// back to the available connections, not in use and used at `now`, when
/// it is healthy and the pool would then hold at most `max` connections;
/// otherwise it is dropped and the number created goes down by one.
pub open spec fn released_pool(p: PoolView, id: Seq<char>, now: u64, max: nat) -> PoolView {
    let i = first_id(p.1, id);
    let c = p.1[i];
    let rest = p.1.remove(i);
    let back = (c.0, c.1, now, c.3, false, c.5);
    let keep = c.5 && p.0.len() + rest.len() <= max;
    (
        if keep {
            p.0.push(back)
        } else {
            p.0
        },
        rest,
        if keep {
            p.2
        } else {
            sat_dec(p.2)
        },
        p.3,
        (p.4 + 1) as u64,
    )
}

/// A pool after the connection `id` is closed: removed from those in use,
/// or else from those available, the number created going down by one.
pub open spec fn closed_pool(p: PoolView, id: Seq<char>) -> PoolView {
    if has_id(p.1, id) {
        (p.0, p.1.remove(first_id(p.1, id)), sat_dec(p.2), p.3, p.4)
    } else if has_id(p.0, id) {
        (p.0.remove(first_id(p.0, id)), p.1, sat_dec(p.2), p.3, p.4)
    } else {
        p
    }
}

/// A pool after the health of connection `id` (the first in use with that
/// ID, or else the first available) is recorded.
pub open spec fn health_recorded(p: PoolView, id: Seq<char>, healthy: bool) -> PoolView {
    if has_id(p.1, id) {
        let i = first_id(p.1, id);
        (p.0, p.1.update(i, with_health(p.1[i], healthy)), p.2, p.3, p.4)
    } else if has_id(p.0, id) {
        let i = first_id(p.0, id);
        (p.0.update(i, with_health(p.0[i], healthy)), p.1, p.2, p.3, p.4)
    } else {
        p
    }
}

/// A pool after its idle and unhealthy available connections are evicted.
pub open spec fn cleaned_pool(p: PoolView, timeout: nat, now: u64) -> PoolView {
    (p.0.filter(|c: ConnView| !conn_evicted(c, timeout, now)), p.1, p.2, p.3, p.4)
}

/// How many connections a cleanup evicts from a pool.
pub open spec fn evicted_count(timeout: nat, now: u64) -> spec_fn(PoolView) -> nat {
    |p: PoolView| (p.0.len() - cleaned_pool(p, timeout, now).0.len()) as nat
}

/// Whether a cleanup evicts anything from a pool (1 if it does).
pub open spec fn cleaned_flag(timeout: nat, now: u64) -> spec_fn(PoolView) -> nat {
    |p: PoolView|
        if cleaned_pool(p, timeout, now).0.len() < p.0.len() {
            1nat
        } else {
            0nat
        }
}

/// A server's pool as plain values: the available connections, those in
/// use, and the numbers of connections created, acquired and released.
pub type PoolView = (Seq<ConnView>, Seq<ConnView>, u64, u64, u64);

/// Connections managed for a specific server URL
#[derive(Debug)]
pub struct ServerPool {
    /// URL of the server
    url: String,
    /// Available connections (not in use)
    available: Vec<PooledConnection>,
    /// Connections currently in use
    in_use: Vec<PooledConnection>,
    /// Total connections created
    total_created: u64,
    /// Total connections acquired
    total_acquired: u64,
    /// Total connections released
    total_released: u64,
}

impl View for ServerPool {
    type V = PoolView;

    closed spec fn view(&self) -> PoolView {
        (
            conns_view(self.available@),
            conns_view(self.in_use@),
            self.total_created,
            self.total_acquired,
            self.total_released,
        )
    }
}

impl ServerPool {
    /// The server's URL.
    pub closed spec fn spec_url(&self) -> Seq<char> {
        self.url@
    }

    /// An empty pool for `url`
    fn new(url: String) -> (r: Self)
        ensures
            r.spec_url() == url@,
            r@ == empty_pool(),
    {
        let r = ServerPool {
            url,
            available: Vec::new(),
            in_use: Vec::new(),
            total_created: 0,
            total_acquired: 0,
            total_released: 0,
        };
        assert(r@.0 =~= Seq::<ConnView>::empty());
        assert(r@.1 =~= Seq::<ConnView>::empty());
        r
    }

    /// Evict the idle and unhealthy available connections at `now`; returns
    /// how many were evicted.
    fn cleanup_at(&mut self, idle_timeout: Duration, now: u64) -> (r: usize)
        ensures
            final(self).spec_url() == old(self).spec_url(),
            final(self)@ == cleaned_pool(old(self)@, duration_nanos(idle_timeout), now),
            r == (evicted_count(duration_nanos(idle_timeout), now))(old(self)@),
    {
        let ghost t = duration_nanos(idle_timeout);
        let ghost pred = |c: ConnView| !conn_evicted(c, t, now);
        let mut remaining: Vec<PooledConnection> = Vec::new();
        std::mem::swap(&mut remaining, &mut self.available);
        let ghost orig = remaining@;
        let ghost cs = conns_view(orig);
        let count = remaining.len();
        let mut i: usize = 0;
        proof {
            reveal(Seq::filter);
            assert(cs.take(0) =~= Seq::<ConnView>::empty());
            assert(conns_view(self.available@) =~= cs.take(0).filter(pred));
        }
        while remaining.len() > 0
            invariant
                i + remaining@.len() == orig.len(),
                orig.len() == count,
                remaining@ == orig.subrange(i as int, orig.len() as int),
                cs == conns_view(orig),
                conns_view(self.available@) == cs.take(i as int).filter(pred),
                pred == (|c: ConnView| !conn_evicted(c, t, now)),
                t == duration_nanos(idle_timeout),
                self.url@ == old(self).url@,
                self.in_use@ == old(self).in_use@,
                self.total_created == old(self).total_created,
                self.total_acquired == old(self).total_acquired,
                self.total_released == old(self).total_released,
                orig == old(self).available@,
            decreases remaining@.len(),
        {
            let conn = remaining.remove(0);
            proof {
                assert(conn == orig[i as int]);
                assert(remaining@ =~= orig.subrange(i + 1, orig.len() as int));
                reveal(Seq::filter);
                assert(cs.take(i + 1).drop_last() =~= cs.take(i as int));
                assert(cs.take(i + 1).last() == conn_view(conn));
            }
            if !conn.should_evict_at(idle_timeout, now) {
                let ghost before = self.available@;
                self.available.push(conn);
                proof {
                    assert(conns_view(self.available@) =~= conns_view(before).push(conn_view(conn)));
                }
            }
            i = i + 1;
        }
        proof {
            assert(cs.take(i as int) =~= cs);
            cs.lemma_filter_len(pred);
        }
        count - self.available.len()
    }
}

/// The IDs of a pool's connections: the available ones, then those in use.
pub open spec fn pool_ids(p: PoolView) -> Seq<Seq<char>> {
    p.0.map_values(|c: ConnView| c.0) + p.1.map_values(|c: ConnView| c.0)
}

/// The characters of each string.
pub open spec fn strings_view(v: Seq<String>) -> Seq<Seq<char>> {
    v.map_values(|s: String| s@)
}

/// A pool with no connection and nothing counted.
pub open spec fn empty_pool() -> PoolView {
    (Seq::<ConnView>::empty(), Seq::<ConnView>::empty(), 0, 0, 0)
}

/// The pools of a ledger as (URL, pool) entries.
pub open spec fn pools_view(ps: Seq<ServerPool>) -> Seq<(Seq<char>, PoolView)> {
    ps.map_values(|p: ServerPool| (p.spec_url(), p@))
}

/// The number of connections a pool holds (available and in use).
pub open spec fn pool_total(p: PoolView) -> nat {
    p.0.len() + p.1.len()
}

/// The number of available connections of a pool.
pub open spec fn available_count() -> spec_fn(PoolView) -> nat {
    |p: PoolView| p.0.len()
}

/// The number of connections in use of a pool.
pub open spec fn in_use_count() -> spec_fn(PoolView) -> nat {
    |p: PoolView| p.1.len()
}

/// The number of connections a pool created.
pub open spec fn created_count() -> spec_fn(PoolView) -> nat {
    |p: PoolView| p.2 as nat
}

/// The statistics of the pools.
pub open spec fn stats_of(m: Map<Seq<char>, PoolView>, s: PoolStats) -> bool {
    &&& s.server_count == m.dom().len()
    &&& s.available_connections == map_sum(m, available_count())
    &&& s.in_use_connections == map_sum(m, in_use_count())
    &&& s.total_connections == map_sum(m, available_count()) + map_sum(m, in_use_count())
    &&& s.total_created == map_sum(m, created_count())
}

/// Decrease by one, not below zero.
pub open spec fn sat_dec(n: u64) -> u64 {
    if n > 0 {
        (n - 1) as u64
    } else {
        0
    }
}

/// What to do to acquire a connection
#[derive(Debug)]
pub enum AcquireStep {
    /// Use the pooled connection with this ID
    Reuse(String),
    /// Make a new connection
    Create,
    /// Wait for a connection to be released
    Wait,
}

/// The bookkeeping of a connection pool: per server URL, the available
/// connections and those in use, under a pool configuration.
#[derive(Debug)]
pub struct PoolLedger {
    config: PoolConfig,
    pools: Vec<ServerPool>,
}

impl View for PoolLedger {
    type V = Map<Seq<char>, PoolView>;

    closed spec fn view(&self) -> Map<Seq<char>, PoolView> {
        to_map(pools_view(self.pools@))
    }
}

impl PoolLedger {
    /// The pool configuration.
    pub closed spec fn spec_config(&self) -> PoolConfig {
        self.config
    }

    /// One pool per URL.
    pub closed spec fn wf(&self) -> bool {
        distinct_keys(pools_view(self.pools@))
    }

    /// An empty ledger under a configuration, refused when the configuration
    /// is (see `PoolConfig::validate`).
    pub fn new(config: PoolConfig) -> (r: Result<Self>)
        ensures
            match config_problem(config) {
                None => r matches Ok(l) && l.wf() && l@ == Map::<Seq<char>, PoolView>::empty()
                    && l.spec_config() == config,
                Some(m) => r matches Err(Error::InvalidState(s)) && s@ == m,
            },
    {
        match config.validate() {
            Ok(()) => {
                let l = PoolLedger { config, pools: Vec::new() };
                assert(pools_view(l.pools@) =~= Seq::<(Seq<char>, PoolView)>::empty());
                assert(l@ =~= Map::<Seq<char>, PoolView>::empty());
                Ok(l)
            },
            Err(e) => Err(e),
        }
    }

    /// An empty ledger with the default configuration
    pub fn with_defaults() -> (r: Result<Self>)
        ensures
            r matches Ok(l) && l.wf() && l@ == Map::<Seq<char>, PoolView>::empty()
                && l.spec_config().min_connections == 1 && l.spec_config().max_connections == 10
                && duration_nanos(l.spec_config().idle_timeout) == 300_000_000_000
                && duration_nanos(l.spec_config().health_check_interval) == 30_000_000_000
                && duration_nanos(l.spec_config().acquire_timeout) == 5_000_000_000
                && l.spec_config().enable_health_check,
    {
        Self::new(PoolConfig::default())
    }

    /// The pool configuration
    pub fn config(&self) -> (r: &PoolConfig)
        ensures
            *r == self.spec_config(),
    {
        &self.config
    }

    proof fn lemma_finite(&self)
        requires
            self.wf(),
        ensures
            self@.dom().finite(),
            self@.dom().len() == self.pools@.len(),
    {
        lemma_to_map_len(pools_view(self.pools@));
    }

    /// Position of the pool of `url`.
    fn find(&self, url: &str) -> (r: Option<usize>)
        requires
            self.wf(),
        ensures
            r matches Some(i) ==> i < self.pools@.len() && self.pools@[i as int].spec_url() == url@,
            r is Some <==> self@.contains_key(url@),
    {
        let ghost es = pools_view(self.pools@);
        let mut i: usize = 0;
        while i < self.pools.len()
            invariant
                i <= self.pools@.len(),
                es == pools_view(self.pools@),
                distinct_keys(es),
                forall|j: int| 0 <= j < i ==> self.pools@[j].spec_url() != url@,
            decreases self.pools@.len() - i,
        {
            if str_eq(self.pools[i].url.as_str(), url) {
                proof {
                    assert(es[i as int].0 == url@);
                    lemma_to_map_at(es, i as int);
                }
                return Some(i);
            }
            i = i + 1;
        }
        proof {
            lemma_to_map_dom(es, url@);
            if self@.contains_key(url@) {
                let j = choose|j: int| 0 <= j < es.len() && es[j].0 == url@;
                assert(self.pools@[j].spec_url() == es[j].0);
            }
        }
        None
    }

    /// Take out the pool at position `idx`.
    fn take_pool(&mut self, idx: usize) -> (r: ServerPool)
        requires
            old(self).wf(),
            idx < old(self).pools@.len(),
        ensures
            final(self).wf(),
            final(self).config == old(self).config,
            r == old(self).pools@[idx as int],
            old(self)@.contains_key(r.spec_url()),
            old(self)@[r.spec_url()] == r@,
            final(self)@ == old(self)@.remove(r.spec_url()),
    {
        let ghost es = pools_view(self.pools@);
        let r = self.pools.remove(idx);
        proof {
            lemma_to_map_at(es, idx as int);
            lemma_to_map_remove(es, idx as int);
            assert(pools_view(self.pools@) =~= es.remove(idx as int));
        }
        r
    }

    /// Put back a pool for a URL that has none.
    fn put_pool(&mut self, p: ServerPool)
        requires
            old(self).wf(),
            !old(self)@.contains_key(p.spec_url()),
        ensures
            final(self).wf(),
            final(self).config == old(self).config,
            final(self)@ == old(self)@.insert(p.spec_url(), p@),
    {
        let ghost es = pools_view(self.pools@);
        let ghost e = (p.spec_url(), p@);
        self.pools.push(p);
        proof {
            lemma_to_map_push(es, e);
            assert(pools_view(self.pools@) =~= es.push(e));
        }
    }

    /// Get pool statistics
    pub fn stats(&self) -> (r: PoolStats)
        requires
            self.wf(),
            self@.dom().finite() ==> map_sum(self@, available_count()) + map_sum(
                self@,
                in_use_count(),
            ) <= usize::MAX,
            self@.dom().finite() ==> map_sum(self@, created_count()) <= u64::MAX,
        ensures
            self@.dom().finite(),
            stats_of(self@, r),
    {
        let ghost es = pools_view(self.pools@);
        proof {
            self.lemma_finite();
            lemma_entries_sum(es, available_count());
            lemma_entries_sum(es, in_use_count());
            lemma_entries_sum(es, created_count());
        }
        let mut total_available: usize = 0;
        let mut total_in_use: usize = 0;
        let mut total_created: u64 = 0;
        let mut i: usize = 0;
        while i < self.pools.len()
            invariant
                i <= self.pools@.len(),
                es == pools_view(self.pools@),
                total_available == entries_sum(es.take(i as int), available_count()),
                total_in_use == entries_sum(es.take(i as int), in_use_count()),
                total_created == entries_sum(es.take(i as int), created_count()),
                entries_sum(es, available_count()) + entries_sum(es, in_use_count()) <= usize::MAX,
                entries_sum(es, created_count()) <= u64::MAX,
            decreases self.pools@.len() - i,
        {
            proof {
                lemma_entries_sum_prefix(es, available_count(), i + 1, es.len() as int);
                lemma_entries_sum_prefix(es, in_use_count(), i + 1, es.len() as int);
                lemma_entries_sum_prefix(es, created_count(), i + 1, es.len() as int);
                assert(es.take(es.len() as int) =~= es);
                assert(es.take(i + 1).drop_last() =~= es.take(i as int));
                assert(es[i as int].1 == self.pools@[i as int]@);
            }
            let p = &self.pools[i];
            total_available = total_available + p.available.len();
            total_in_use = total_in_use + p.in_use.len();
            total_created = total_created + p.total_created;
            i = i + 1;
        }
        proof {
            assert(es.take(i as int) =~= es);
        }
        PoolStats {
            server_count: self.pools.len(),
            total_connections: total_available + total_in_use,
            available_connections: total_available,
            in_use_connections: total_in_use,
            total_created,
        }
    }

    /// Get statistics for a specific server
    pub fn server_stats(&self, url: &str) -> (r: Option<ServerPoolStats>)
        requires
            self.wf(),
            self@.contains_key(url@) ==> pool_total(self@[url@]) <= usize::MAX,
        ensures
            !self@.contains_key(url@) ==> r is None,
            self@.contains_key(url@) ==> (r matches Some(s) && s.url@ == url@ && s.available
                == self@[url@].0.len() && s.in_use == self@[url@].1.len() && s.total == pool_total(
                self@[url@],
            ) && s.total_created == self@[url@].2 && s.total_acquired == self@[url@].3
                && s.total_released == self@[url@].4),
    {
        match self.find(url) {
            None => None,
            Some(idx) => {
                let p = &self.pools[idx];
                proof {
                    lemma_to_map_at(pools_view(self.pools@), idx as int);
                }
                Some(
                    ServerPoolStats {
                        url: p.url.clone(),
                        available: p.available.len(),
                        in_use: p.in_use.len(),
                        total: p.available.len() + p.in_use.len(),
                        total_created: p.total_created,
                        total_acquired: p.total_acquired,
                        total_released: p.total_released,
                    },
                )
            },
        }
    }

    /// Whether the pool of `url` holds connection `id`, available or in use.
    pub fn holds(&self, url: &str, id: &str) -> (r: bool)
        requires
            self.wf(),
        ensures
            r == (self@.contains_key(url@) && (has_id(self@[url@].0, id@) || has_id(
                self@[url@].1,
                id@,
            ))),
    {
        match self.find(url) {
            None => false,
            Some(idx) => {
                let p = &self.pools[idx];
                proof {
                    lemma_to_map_at(pools_view(self.pools@), idx as int);
                }
                position_of(&p.available, id).is_some() || position_of(&p.in_use, id).is_some()
            },
        }
    }

    /// The first step of acquiring a connection to `url` at `now`. With no
    /// pool for `url` yet, a connection is to be made. Otherwise the last
    /// available connection is taken: if it is healthy it is reused (now in
    /// use, used at `now`); if not it is dropped and the number created goes
    /// down by one; then a connection is to be made if the pool holds fewer
    /// than the maximum, and to be waited for otherwise.
    pub fn acquire_step(&mut self, url: &str, now: u64) -> (r: AcquireStep)
        requires
            old(self).wf(),
            old(self)@.contains_key(url@) ==> old(self)@[url@].3 < u64::MAX,
            old(self)@.contains_key(url@) ==> pool_total(old(self)@[url@]) <= usize::MAX,
        ensures
            final(self).wf(),
            final(self).spec_config() == old(self).spec_config(),
            !old(self)@.contains_key(url@) ==> r is Create && final(self)@ == old(self)@,
            old(self)@.contains_key(url@) ==> ({
                let p = old(self)@[url@];
                if p.0.len() > 0 && p.0.last().5 {
                    &&& r matches AcquireStep::Reuse(id) && id@ == p.0.last().0
                    &&& final(self)@ == old(self)@.insert(
                        url@,
                        (
                            p.0.drop_last(),
                            p.1.push(reused(p.0.last(), now)),
                            p.2,
                            (p.3 + 1) as u64,
                            p.4,
                        ),
                    )
                } else {
                    let av = if p.0.len() > 0 {
                        p.0.drop_last()
                    } else {
                        p.0
                    };
                    let created = if p.0.len() > 0 {
                        sat_dec(p.2)
                    } else {
                        p.2
                    };
                    &&& final(self)@ == old(self)@.insert(url@, (av, p.1, created, p.3, p.4))
                    &&& av.len() + p.1.len() < old(self).spec_config().max_connections ==> r is Create
                    &&& av.len() + p.1.len() >= old(self).spec_config().max_connections ==> r is Wait
                }
            }),
    {
        match self.find(url) {
            None => AcquireStep::Create,
            Some(idx) => {
                let mut pool = self.take_pool(idx);
                let ghost p = pool@;
                let step = match pool.available.pop() {
                    Some(mut conn) => {
                        if conn.healthy {
                            let id = conn.id.clone();
                            conn.in_use = true;
                            conn.last_used = now;
                            pool.in_use.push(conn);
                            pool.total_acquired = pool.total_acquired + 1;
                            proof {
                                assert(conns_view(pool.available@) =~= p.0.drop_last());
                                assert(conns_view(pool.in_use@) =~= p.1.push(reused(p.0.last(), now)));
                            }
                            AcquireStep::Reuse(id)
                        } else {
                            pool.total_created = pool.total_created.saturating_sub(1);
                            proof {
                                assert(conns_view(pool.available@) =~= p.0.drop_last());
                            }
                            if pool.available.len() + pool.in_use.len() < self.config.max_connections {
                                AcquireStep::Create
                            } else {
                                AcquireStep::Wait
                            }
                        }
                    },
                    None => {
                        if pool.available.len() + pool.in_use.len() < self.config.max_connections {
                            AcquireStep::Create
                        } else {
                            AcquireStep::Wait
                        }
                    },
                };
                let ghost mid = self@;
                let ghost url_v = pool.spec_url();
                self.put_pool(pool);
                proof {
                    assert(self@ =~= old(self)@.insert(url_v, self@[url_v]));
                }
                step
            },
        }
    }

    /// Register a new connection to `url`, made at `now` and now in use,
    /// under a fresh random ID (returned); the URL's pool is created if it
    /// has none, and its numbers of connections created and acquired go up
    /// by one.
    pub fn register_new(&mut self, url: &str, now: u64) -> (r: String)
        requires
            old(self).wf(),
            old(self)@.contains_key(url@) ==> old(self)@[url@].2 < u64::MAX && old(self)@[url@].3
                < u64::MAX,
        ensures
            final(self).wf(),
            final(self).spec_config() == old(self).spec_config(),
            r@.len() == 36,
            ({
                let p = if old(self)@.contains_key(url@) {
                    old(self)@[url@]
                } else {
                    empty_pool()
                };
                final(self)@ == old(self)@.insert(
                    url@,
                    (
                        p.0,
                        p.1.push((r@, url@, now, now, true, true)),
                        (p.2 + 1) as u64,
                        (p.3 + 1) as u64,
                        p.4,
                    ),
                )
            }),
    {
        let mut pool = match self.find(url) {
            Some(idx) => self.take_pool(idx),
            None => ServerPool::new(url.to_owned()),
        };
        let ghost p = pool@;
        let mut conn = PooledConnection::new(url.to_owned(), now);
        conn.in_use = true;
        let id = conn.id.clone();
        pool.in_use.push(conn);
        pool.total_created = pool.total_created + 1;
        pool.total_acquired = pool.total_acquired + 1;
        proof {
            assert(conns_view(pool.in_use@) =~= p.1.push((id@, url@, now, now, true, true)));
        }
        let ghost url_v = pool.spec_url();
        self.put_pool(pool);
        proof {
            assert(self@ =~= old(self)@.insert(url_v, self@[url_v]));
        }
        id
    }

    /// A later step of acquiring a connection to `url` at `now` (while
    /// waiting): the last available connection, if any, is taken; if it is
    /// healthy it is reused, otherwise it is dropped (the number created
    /// stays as it is).
    pub fn retry_step(&mut self, url: &str, now: u64) -> (r: Option<String>)
        requires
            old(self).wf(),
            old(self)@.contains_key(url@) ==> old(self)@[url@].3 < u64::MAX,
        ensures
            final(self).wf(),
            final(self).spec_config() == old(self).spec_config(),
            !(old(self)@.contains_key(url@) && old(self)@[url@].0.len() > 0) ==> r is None
                && final(self)@ == old(self)@,
            old(self)@.contains_key(url@) && old(self)@[url@].0.len() > 0 ==> ({
                let p = old(self)@[url@];
                if p.0.last().5 {
                    &&& r matches Some(id) && id@ == p.0.last().0
                    &&& final(self)@ == old(self)@.insert(
                        url@,
                        (
                            p.0.drop_last(),
                            p.1.push(reused(p.0.last(), now)),
                            p.2,
                            (p.3 + 1) as u64,
                            p.4,
                        ),
                    )
                } else {
                    &&& r is None
                    &&& final(self)@ == old(self)@.insert(url@, (p.0.drop_last(), p.1, p.2, p.3, p.4))
                }
            }),
    {
        match self.find(url) {
            None => None,
            Some(idx) => {
                let mut pool = self.take_pool(idx);
                let ghost p = pool@;
                let r = match pool.available.pop() {
                    Some(mut conn) => {
                        proof {
                            assert(conns_view(pool.available@) =~= p.0.drop_last());
                        }
                        if conn.healthy {
                            let id = conn.id.clone();
                            conn.in_use = true;
                            conn.last_used = now;
                            pool.in_use.push(conn);
                            pool.total_acquired = pool.total_acquired + 1;
                            proof {
                                assert(conns_view(pool.in_use@) =~= p.1.push(reused(p.0.last(), now)));
                            }
                            Some(id)
                        } else {
                            None
                        }
                    },
                    None => None,
                };
                let ghost url_v = pool.spec_url();
                self.put_pool(pool);
                proof {
                    assert(self@ =~= old(self)@.insert(url_v, self@[url_v]));
                }
                r
            },
        }
    }

    /// Whether waiting for a connection since `start` has run out the
    /// acquire timeout at `now`.
    pub fn acquire_expired(&self, start: u64, now: u64) -> (r: bool)
        ensures
            r == (since(start, now) >= duration_nanos(self.spec_config().acquire_timeout)),
    {
        (now.saturating_sub(start) as u128) >= self.config.acquire_timeout.as_nanos()
    }

    /// Release the connection `id` of `url` back to the pool at `now` (see
    /// `released_pool`); nothing happens when the pool has no such
    /// connection in use.
    pub fn release(&mut self, url: &str, id: &str, now: u64)
        requires
            old(self).wf(),
            old(self)@.contains_key(url@) ==> old(self)@[url@].4 < u64::MAX,
            old(self)@.contains_key(url@) ==> pool_total(old(self)@[url@]) <= usize::MAX,
        ensures
            final(self).wf(),
            final(self).spec_config() == old(self).spec_config(),
            old(self)@.contains_key(url@) && has_id(old(self)@[url@].1, id@) ==> final(self)@
                == old(self)@.insert(
                url@,
                released_pool(
                    old(self)@[url@],
                    id@,
                    now,
                    old(self).spec_config().max_connections as nat,
                ),
            ),
            !(old(self)@.contains_key(url@) && has_id(old(self)@[url@].1, id@)) ==> final(self)@
                == old(self)@,
    {
        if let Some(idx) = self.find(url) {
            let mut pool = self.take_pool(idx);
            let ghost p = pool@;
            let ghost url_v = pool.spec_url();
            if let Some(pos) = position_of(&pool.in_use, id) {
                let mut conn = pool.in_use.remove(pos);
                proof {
                    assert(conns_view(pool.in_use@) =~= p.1.remove(pos as int));
                }
                conn.in_use = false;
                conn.last_used = now;
                if conn.healthy && pool.available.len() + pool.in_use.len()
                    <= self.config.max_connections {
                    pool.available.push(conn);
                    proof {
                        let c = p.1[pos as int];
                        assert(conns_view(pool.available@) =~= p.0.push(
                            (c.0, c.1, now, c.3, false, c.5),
                        ));
                    }
                } else {
                    pool.total_created = pool.total_created.saturating_sub(1);
                }
                pool.total_released = pool.total_released + 1;
                self.put_pool(pool);
                proof {
                    assert(self@ =~= old(self)@.insert(url_v, self@[url_v]));
                }
            } else {
                self.put_pool(pool);
                proof {
                    assert(self@ =~= old(self)@);
                }
            }
        }
    }

    /// Close the connection `id` of `url` (see `closed_pool`); nothing
    /// happens when there is no pool for `url`.
    pub fn close(&mut self, url: &str, id: &str)
        requires
            old(self).wf(),
        ensures
            final(self).wf(),
            final(self).spec_config() == old(self).spec_config(),
            old(self)@.contains_key(url@) ==> final(self)@ == old(self)@.insert(
                url@,
                closed_pool(old(self)@[url@], id@),
            ),
            !old(self)@.contains_key(url@) ==> final(self)@ == old(self)@,
    {
        if let Some(idx) = self.find(url) {
            let mut pool = self.take_pool(idx);
            let ghost p = pool@;
            let ghost url_v = pool.spec_url();
            if let Some(pos) = position_of(&pool.in_use, id) {
                let _ = pool.in_use.remove(pos);
                pool.total_created = pool.total_created.saturating_sub(1);
                proof {
                    assert(conns_view(pool.in_use@) =~= p.1.remove(pos as int));
                }
            } else if let Some(pos) = position_of(&pool.available, id) {
                let _ = pool.available.remove(pos);
                pool.total_created = pool.total_created.saturating_sub(1);
                proof {
                    assert(conns_view(pool.available@) =~= p.0.remove(pos as int));
                }
            }
            self.put_pool(pool);
            proof {
                assert(self@ =~= old(self)@.insert(url_v, self@[url_v]));
            }
        }
    }

    /// Record the health of connection `id` of `url` (see `health_recorded`);
    /// nothing happens when there is no pool for `url`.
    pub fn set_health(&mut self, url: &str, id: &str, healthy: bool)
        requires
            old(self).wf(),
        ensures
            final(self).wf(),
            final(self).spec_config() == old(self).spec_config(),
            old(self)@.contains_key(url@) ==> final(self)@ == old(self)@.insert(
                url@,
                health_recorded(old(self)@[url@], id@, healthy),
            ),
            !old(self)@.contains_key(url@) ==> final(self)@ == old(self)@,
    {
        if let Some(idx) = self.find(url) {
            let mut pool = self.take_pool(idx);
            let ghost p = pool@;
            let ghost url_v = pool.spec_url();
            if let Some(pos) = position_of(&pool.in_use, id) {
                set_health_at(&mut pool.in_use, pos, healthy);
            } else if let Some(pos) = position_of(&pool.available, id) {
                set_health_at(&mut pool.available, pos, healthy);
            }
            self.put_pool(pool);
            proof {
                assert(self@ =~= old(self)@.insert(url_v, self@[url_v]));
            }
        }
    }

    /// Evict, in every pool, the available connections that are idle (for
    /// longer than the idle timeout) or unhealthy at `now`; returns how many
    /// were evicted and from how many pools.
    pub fn cleanup_at(&mut self, now: u64) -> (r: CleanupStats)
        requires
            old(self).wf(),
            old(self)@.dom().finite() ==> map_sum(old(self)@, available_count()) <= usize::MAX,
        ensures
            final(self).wf(),
            final(self).spec_config() == old(self).spec_config(),
            old(self)@.dom().finite(),
            final(self)@ == old(self)@.map_values(
                |p: PoolView|
                    cleaned_pool(p, duration_nanos(old(self).spec_config().idle_timeout), now),
            ),
            r.connections_removed == map_sum(
                old(self)@,
                evicted_count(duration_nanos(old(self).spec_config().idle_timeout), now),
            ),
            r.servers_cleaned == map_sum(
                old(self)@,
                cleaned_flag(duration_nanos(old(self).spec_config().idle_timeout), now),
            ),
    {
        let ghost t = duration_nanos(self.config.idle_timeout);
        let ghost es = pools_view(self.pools@);
        let ghost f = |p: PoolView| cleaned_pool(p, t, now);
        proof {
            self.lemma_finite();
            lemma_entries_sum(es, available_count());
            lemma_entries_sum(es, evicted_count(t, now));
            lemma_entries_sum(es, cleaned_flag(t, now));
        }
        let mut remaining: Vec<ServerPool> = Vec::new();
        std::mem::swap(&mut remaining, &mut self.pools);
        let ghost orig = remaining@;
        let count = remaining.len();
        let mut total_removed: usize = 0;
        let mut servers_cleaned: usize = 0;
        let mut i: usize = 0;
        assert(pools_view(self.pools@) =~= es.take(0).map_values(
            |e: (Seq<char>, PoolView)| (e.0, f(e.1)),
        ));
        while remaining.len() > 0
            invariant
                i + remaining@.len() == orig.len(),
                orig.len() == count,
                remaining@ == orig.subrange(i as int, orig.len() as int),
                es == pools_view(orig),
                distinct_keys(es),
                f == (|p: PoolView| cleaned_pool(p, t, now)),
                t == duration_nanos(self.config.idle_timeout),
                pools_view(self.pools@) == es.take(i as int).map_values(
                    |e: (Seq<char>, PoolView)| (e.0, f(e.1)),
                ),
                total_removed == entries_sum(es.take(i as int), evicted_count(t, now)),
                total_removed <= entries_sum(es.take(i as int), available_count()),
                servers_cleaned == entries_sum(es.take(i as int), cleaned_flag(t, now)),
                servers_cleaned <= i,
                entries_sum(es, available_count()) <= usize::MAX,
                self.config == old(self).config,
            decreases remaining@.len(),
        {
            let mut pool = remaining.remove(0);
            proof {
                assert(pool == orig[i as int]);
                assert(remaining@ =~= orig.subrange(i + 1, orig.len() as int));
                assert(es.take(i + 1).drop_last() =~= es.take(i as int));
                assert(es[i as int] == (pool.spec_url(), pool@));
                lemma_entries_sum_prefix(es, available_count(), i + 1, es.len() as int);
                assert(es.take(es.len() as int) =~= es);
                pool@.0.lemma_filter_len(|c: ConnView| !conn_evicted(c, t, now));
            }
            let removed = pool.cleanup_at(self.config.idle_timeout, now);
            if removed > 0 {
                total_removed = total_removed + removed;
                servers_cleaned = servers_cleaned + 1;
            }
            let ghost before = self.pools@;
            let ghost e_i = es[i as int];
            assert(pool.spec_url() == e_i.0 && pool@ == f(e_i.1));
            self.pools.push(pool);
            proof {
                let g = |e: (Seq<char>, PoolView)| (e.0, f(e.1));
                assert(pools_view(self.pools@) =~= pools_view(before).push((e_i.0, f(e_i.1))));
                assert(es.take(i + 1).map_values(g) =~= es.take(i as int).map_values(g).push(
                    g(e_i),
                ));
                assert(pools_view(self.pools@) =~= es.take(i + 1).map_values(g));
            }
            i = i + 1;
        }
        proof {
            assert(es.take(i as int) =~= es);
            let g = |e: (Seq<char>, PoolView)| (e.0, f(e.1));
            lemma_to_map_map_values(es, f);
            let ms = es.map_values(g);
            assert(distinct_keys(ms)) by {
                assert forall|a: int, b: int|
                    0 <= a < ms.len() && 0 <= b < ms.len() && a != b implies ms[a].0 != ms[b].0 by {
                    assert(ms[a].0 == es[a].0 && ms[b].0 == es[b].0);
                }
            }
        }
        CleanupStats { connections_removed: total_removed, servers_cleaned }
    }

    /// Forget every pool; returns the IDs of all their connections (for the
    /// caller to close them).
    pub fn close_all(&mut self) -> (r: Vec<String>)
        requires
            old(self).wf(),
        ensures
            final(self).wf(),
            final(self).spec_config() == old(self).spec_config(),
            final(self)@ == Map::<Seq<char>, PoolView>::empty(),
            forall|x: Seq<char>|
                #[trigger] strings_view(r@).contains(x) <==> exists|u: Seq<char>|
                    old(self)@.contains_key(u) && #[trigger] pool_ids(old(self)@[u]).contains(x),
    {
        let ghost es = pools_view(self.pools@);
        let ghost orig = self.pools@;
        let mut ids: Vec<String> = Vec::new();
        while self.pools.len() > 0
            invariant
                self.pools@ == orig.take(self.pools@.len() as int),
                self.pools@.len() <= orig.len(),
                es == pools_view(orig),
                forall|x: Seq<char>|
                    #[trigger] strings_view(ids@).contains(x) <==> exists|j: int|
                        self.pools@.len() <= j < orig.len() && #[trigger] pool_ids(es[j].1).contains(
                            x,
                        ),
                self.config == old(self).config,
            decreases self.pools@.len(),
        {
            let ghost n = self.pools@.len() - 1;
            let pool = self.pools.pop().unwrap();
            proof {
                assert(pool == orig[n]);
                assert(self.pools@ =~= orig.take(n));
                assert(es[n].1 == pool@);
            }
            let ghost start = strings_view(ids@);
            let ghost pids = pool_ids(pool@);
            let mut k: usize = 0;
            while k < pool.available.len()
                invariant
                    k <= pool.available@.len(),
                    strings_view(ids@) == start + pids.take(k as int),
                    pids == pool_ids(pool@),
                decreases pool.available@.len() - k,
            {
                let ghost before = ids@;
                let id = pool.available[k].id.clone();
                ids.push(id);
                proof {
                    assert(strings_view(ids@) =~= strings_view(before).push(id@));
                    assert(pids[k as int] == pool.available@[k as int].id@);
                    assert(pids.take(k + 1) =~= pids.take(k as int).push(pids[k as int]));
                    assert(strings_view(ids@) =~= start + pids.take(k + 1));
                }
                k = k + 1;
            }
            let ghost na = pool.available@.len();
            let mut k2: usize = 0;
            while k2 < pool.in_use.len()
                invariant
                    k2 <= pool.in_use@.len(),
                    na == pool.available@.len(),
                    strings_view(ids@) == start + pids.take(na + k2),
                    pids == pool_ids(pool@),
                decreases pool.in_use@.len() - k2,
            {
                let ghost before = ids@;
                let id = pool.in_use[k2].id.clone();
                ids.push(id);
                proof {
                    assert(strings_view(ids@) =~= strings_view(before).push(id@));
                    assert(pids[na + k2] == pool.in_use@[k2 as int].id@);
                    assert(pids.take(na + k2 + 1) =~= pids.take(na + k2).push(pids[na + k2]));
                    assert(strings_view(ids@) =~= start + pids.take(na + k2 + 1));
                }
                k2 = k2 + 1;
            }
            proof {
                assert(pids.take(na + k2) =~= pids);
                assert forall|x: Seq<char>|
                    #[trigger] strings_view(ids@).contains(x) <==> exists|j: int|
                        n <= j < orig.len() && #[trigger] pool_ids(es[j].1).contains(x) by {
                    if strings_view(ids@).contains(x) {
                        let a = choose|a: int|
                            0 <= a < strings_view(ids@).len() && strings_view(ids@)[a] == x;
                        if a < start.len() {
                            assert(start[a] == x);
                            assert(start.contains(x));
                        } else {
                            assert(pids[a - start.len()] == x);
                            assert(pids.contains(x));
                            assert(pool_ids(es[n as int].1).contains(x));
                        }
                    }
                    if exists|j: int| n <= j < orig.len() && #[trigger] pool_ids(es[j].1).contains(x) {
                        let j = choose|j: int|
                            n <= j < orig.len() && #[trigger] pool_ids(es[j].1).contains(x);
                        if j == n {
                            let a = choose|a: int| 0 <= a < pids.len() && pids[a] == x;
                            assert(strings_view(ids@)[start.len() + a] == x);
                        } else {
                            assert(start.contains(x));
                            let a = choose|a: int| 0 <= a < start.len() && start[a] == x;
                            assert(strings_view(ids@)[a] == x);
                        }
                    }
                }
            }
        }
        proof {
            assert(pools_view(self.pools@) =~= Seq::<(Seq<char>, PoolView)>::empty());
            assert(self@ =~= Map::<Seq<char>, PoolView>::empty());
            assert forall|x: Seq<char>|
                #[trigger] strings_view(ids@).contains(x) <==> exists|u: Seq<char>|
                    old(self)@.contains_key(u) && #[trigger] pool_ids(old(self)@[u]).contains(x) by {
                if strings_view(ids@).contains(x) {
                    let j = choose|j: int| 0 <= j < orig.len() && #[trigger] pool_ids(es[j].1).contains(
                        x,
                    );
                    lemma_to_map_at(es, j);
                    assert(old(self)@.contains_key(es[j].0) && pool_ids(old(self)@[es[j].0]).contains(
                        x,
                    ));
                }
                if exists|u: Seq<char>|
                    old(self)@.contains_key(u) && #[trigger] pool_ids(old(self)@[u]).contains(x) {
                    let u = choose|u: Seq<char>|
                        old(self)@.contains_key(u) && #[trigger] pool_ids(old(self)@[u]).contains(x);
                    lemma_to_map_dom(es, u);
                    let j = choose|j: int| 0 <= j < es.len() && es[j].0 == u;
                    lemma_to_map_at(es, j);
                    assert(pool_ids(es[j].1).contains(x));
                }
            }
        }
        ids
    }
}

/// What one release makes reusable: releasing a healthy connection in use,
/// when the pool then holds at most the maximum, puts it last among the
/// available connections, healthy, so the next acquisition reuses it.
pub proof fn law_release_then_reuse(p: PoolView, id: Seq<char>, now: u64, max: nat)
    requires
        has_id(p.1, id),
        p.1[first_id(p.1, id)].5,
        p.0.len() + p.1.len() - 1 <= max,
    ensures
        released_pool(p, id, now, max).0.len() > 0,
        released_pool(p, id, now, max).0.last().0 == id,
        released_pool(p, id, now, max).0.last().5,
        released_pool(p, id, now, max).1.len() == p.1.len() - 1,
{
    lemma_first_id_exists(p.1, id);
}

/// Closing a connection that the pool holds removes one connection from it.
pub proof fn law_close_removes_one(p: PoolView, id: Seq<char>)
    requires
        has_id(p.0, id) || has_id(p.1, id),
    ensures
        pool_total(closed_pool(p, id)) == pool_total(p) - 1,
{
    if has_id(p.1, id) {
        lemma_first_id_exists(p.1, id);
    } else {
        lemma_first_id_exists(p.0, id);
    }
}

/// No two connections of a pool, available or in use, share an ID.
pub open spec fn ids_unique(p: PoolView) -> bool {
    let s = p.0 + p.1;
    forall|i: int, j: int| 0 <= i < j < s.len() ==> #[trigger] s[i].0 != #[trigger] s[j].0
}

/// Removing the connection at `k` from `s` keeps the others, in order.
proof fn lemma_remove_keeps_others(s: Seq<ConnView>, k: int, c: ConnView)
    requires
        0 <= k < s.len(),
        s.contains(c),
        c != s[k],
    ensures
        s.remove(k).contains(c),
{
    let i = choose|i: int| 0 <= i < s.len() && s[i] == c;
    if i < k {
        assert(s.remove(k)[i] == c);
    } else {
        assert(i > k);
        assert(s.remove(k)[i - 1] == c);
    }
}

/// Closing a connection removes exactly that connection: when the pool
/// holds `id` and IDs are unique, afterwards no connection has `id`, every
/// other connection is still where it was (available or in use), and the
/// number created goes down by one (not below zero).
pub proof fn law_close_removes_exactly(p: PoolView, id: Seq<char>)
    requires
        ids_unique(p),
        has_id(p.0, id) || has_id(p.1, id),
    ensures
        !has_id(closed_pool(p, id).0, id),
        !has_id(closed_pool(p, id).1, id),
        forall|c: ConnView| #[trigger] p.0.contains(c) && c.0 != id ==> closed_pool(p, id).0.contains(c),
        forall|c: ConnView| #[trigger] p.1.contains(c) && c.0 != id ==> closed_pool(p, id).1.contains(c),
        closed_pool(p, id).2 == sat_dec(p.2),
        closed_pool(p, id).3 == p.3,
        closed_pool(p, id).4 == p.4,
{
    let s = p.0 + p.1;
    let a = p.0.len() as int;
    let q = closed_pool(p, id);
    if has_id(p.1, id) {
        lemma_first_id_exists(p.1, id);
        let k = first_id(p.1, id);
        assert(s[a + k] == p.1[k]);
        assert(!has_id(p.0, id)) by {
            if has_id(p.0, id) {
                let i = choose|i: int| id_at(p.0, id, i);
                assert(s[i] == p.0[i]);
                assert(s[i].0 != s[a + k].0);
            }
        }
        assert(!has_id(q.1, id)) by {
            if has_id(q.1, id) {
                let j = choose|j: int| id_at(q.1, id, j);
                if j < k {
                    assert(q.1[j] == p.1[j]);
                    assert(s[a + j] == p.1[j]);
                    assert(s[a + j].0 != s[a + k].0);
                } else {
                    assert(q.1[j] == p.1[j + 1]);
                    assert(s[a + j + 1] == p.1[j + 1]);
                    assert(s[a + k].0 != s[a + j + 1].0);
                }
            }
        }
        assert forall|c: ConnView| #[trigger] p.1.contains(c) && c.0 != id implies q.1.contains(c) by {
            lemma_remove_keeps_others(p.1, k, c);
        }
    } else {
        lemma_first_id_exists(p.0, id);
        let k = first_id(p.0, id);
        assert(!has_id(q.0, id)) by {
            if has_id(q.0, id) {
                let j = choose|j: int| id_at(q.0, id, j);
                if j < k {
                    assert(q.0[j] == p.0[j]);
                    assert(s[j] == p.0[j]);
                    assert(s[k] == p.0[k]);
                    assert(s[j].0 != s[k].0);
                } else {
                    assert(q.0[j] == p.0[j + 1]);
                    assert(s[j + 1] == p.0[j + 1]);
                    assert(s[k] == p.0[k]);
                    assert(s[k].0 != s[j + 1].0);
                }
            }
        }
        assert forall|c: ConnView| #[trigger] p.0.contains(c) && c.0 != id implies q.0.contains(c) by {
            lemma_remove_keeps_others(p.0, k, c);
        }
    }
}

} // verus!
