//! A pool of database connections: which are checked out, when each was
//! last used, and the decisions of handing one out, returning it, and
//! closing those idle too long. Times are nanoseconds on a monotonic clock
//! of the caller's; waiting for a connection is the caller's part.

use vstd::prelude::*;
use vstd::string::StringExecFns;

verus! {

/// Configuration for connection pool.
#[derive(Debug, Clone, Copy)]
pub struct PoolConfig {
    /// Minimum number of connections to maintain
    pub min_size: usize,
    /// Maximum number of connections allowed
    pub max_size: usize,
    /// Maximum time to wait for a connection (in seconds)
    pub connection_timeout: u64,
    /// Maximum idle time for a connection before being closed (in seconds)
    pub max_idle_time: u64,
    /// Enable connection health checks
    pub health_check_enabled: bool,
}

impl Default for PoolConfig {
    fn default() -> (r: Self)
        ensures
            r.min_size == 2,
            r.max_size == 10,
            r.connection_timeout == 30,
            r.max_idle_time == 300,
            r.health_check_enabled,
    {
        PoolConfig {
            min_size: 2,
            max_size: 10,
            connection_timeout: 30,
            max_idle_time: 300,
            health_check_enabled: true,
        }
    }
}

/// Pool statistics.
#[derive(Debug, Clone, Copy)]
pub struct PoolStats {
    pub total_connections: usize,
    pub active_connections: usize,
    pub idle_connections: usize,
    pub max_size: usize,
    pub min_size: usize,
}

/// The nanoseconds from `then` to `now`, none where `now` is earlier.
pub open spec fn elapsed(now: u64, then: u64) -> int {
    if now >= then {
        now - then
    } else {
        0
    }
}

/// A connection (whether checked out, when last used) that is free and
/// has been idle longer than `max_idle_secs` seconds.
pub open spec fn stale(slot: (bool, u64), now: u64, max_idle_secs: u64) -> bool {
    !slot.0 && elapsed(now, slot.1) > max_idle_secs * 1_000_000_000
}

/// The first free connection at or after `i`.
pub open spec fn first_free(s: Seq<(bool, u64)>, i: int) -> Option<int>
    decreases s.len() - i,
{
    if i < 0 || i >= s.len() {
        None
    } else if !s[i].0 {
        Some(i)
    } else {
        first_free(s, i + 1)
    }
}

/// The first stale connection at or after `i`.
pub open spec fn first_stale(s: Seq<(bool, u64)>, i: int, now: u64, max_idle_secs: u64) -> Option<int>
    decreases s.len() - i,
{
    if i < 0 || i >= s.len() {
        None
    } else if stale(s[i], now, max_idle_secs) {
        Some(i)
    } else {
        first_stale(s, i + 1, now, max_idle_secs)
    }
}

/// How many connections are stale.
pub open spec fn stale_count(s: Seq<(bool, u64)>, now: u64, max_idle_secs: u64) -> nat
    decreases s.len(),
{
    if s.len() == 0 {
        0
    } else {
        stale_count(s.drop_last(), now, max_idle_secs) + if stale(s.last(), now, max_idle_secs) {
            1nat
        } else {
            0nat
        }
    }
}

/// How many connections are checked out (`true`) or free (`false`).
pub open spec fn in_use_count(s: Seq<(bool, u64)>, used: bool) -> nat
    decreases s.len(),
{
    if s.len() == 0 {
        0
    } else {
        in_use_count(s.drop_last(), used) + if s.last().0 == used {
            1nat
        } else {
            0nat
        }
    }
}

/// Removing a connection takes its staleness out of the count.
pub proof fn lemma_stale_count_remove(s: Seq<(bool, u64)>, i: int, now: u64, max_idle_secs: u64)
    requires
        0 <= i < s.len(),
    ensures
        stale_count(s.remove(i), now, max_idle_secs) + (if stale(s[i], now, max_idle_secs) {
            1nat
        } else {
            0nat
        }) == stale_count(s, now, max_idle_secs),
    decreases s.len(),
{
    if i < s.len() - 1 {
        lemma_stale_count_remove(s.drop_last(), i, now, max_idle_secs);
        assert(s.remove(i).drop_last() =~= s.drop_last().remove(i));
        assert(s.remove(i).last() == s.last());
    } else {
        assert(s.remove(i) =~= s.drop_last());
    }
}

/// Handing out a connection at time `now`: the first free one, unless
/// health checks are on and it is stale, in which case it is closed, a new
/// one opened at the end, and the search begins again; with none free, a
/// new one is opened and handed out while the pool is below its maximum;
/// otherwise none (`None`) and the caller waits.
pub open spec fn checkout_spec(s: Seq<(bool, u64)>, now: u64, cfg: PoolConfig) -> (Seq<(bool, u64)>, Option<int>)
    decreases stale_count(s, now, cfg.max_idle_time),
{
    match first_free(s, 0) {
        Some(i) => if cfg.health_check_enabled && stale(s[i], now, cfg.max_idle_time) && 0 <= i < s.len() {
            proof {
                lemma_stale_count_remove(s, i, now, cfg.max_idle_time);
                assert(s.remove(i).push((false, now)).drop_last() =~= s.remove(i));
            }
            checkout_spec(s.remove(i).push((false, now)), now, cfg)
        } else {
            (s.update(i, (true, now)), Some(i))
        },
        None => if s.len() < cfg.max_size {
            (s.push((true, now)), Some(s.len() as int))
        } else {
            (s, None)
        },
    }
}

/// Closing idle connections at time `now`: while the pool is above its
/// minimum, the first stale connection is closed; it stops when none is.
pub open spec fn cleanup_spec(s: Seq<(bool, u64)>, now: u64, cfg: PoolConfig) -> Seq<(bool, u64)>
    decreases s.len(),
{
    if s.len() <= cfg.min_size {
        s
    } else {
        match first_stale(s, 0, now, cfg.max_idle_time) {
            Some(i) => if 0 <= i < s.len() {
                cleanup_spec(s.remove(i), now, cfg)
            } else {
                s
            },
            None => s,
        }
    }
}

/// What the first-free search finds, with where it looked.
proof fn lemma_first_free(s: Seq<(bool, u64)>, i: int)
    requires
        0 <= i <= s.len(),
    ensures
        match first_free(s, i) {
            Some(j) => i <= j < s.len() && !s[j].0 && forall|m: int| i <= m < j ==> s[m].0,
            None => forall|m: int| i <= m < s.len() ==> s[m].0,
        },
    decreases s.len() - i,
{
    if i < s.len() && s[i].0 {
        lemma_first_free(s, i + 1);
    }
}

/// What the first-stale search finds, with where it looked.
proof fn lemma_first_stale(s: Seq<(bool, u64)>, i: int, now: u64, max_idle_secs: u64)
    requires
        0 <= i <= s.len(),
    ensures
        match first_stale(s, i, now, max_idle_secs) {
            Some(j) => i <= j < s.len() && stale(s[j], now, max_idle_secs) && forall|m: int|
                i <= m < j ==> !stale(s[m], now, max_idle_secs),
            None => forall|m: int| i <= m < s.len() ==> !stale(s[m], now, max_idle_secs),
        },
    decreases s.len() - i,
{
    if i < s.len() && !stale(s[i], now, max_idle_secs) {
        lemma_first_stale(s, i + 1, now, max_idle_secs);
    }
}

/// Whether a connection is free and idle longer than `max_idle_secs`.
fn is_idle_too_long(in_use: bool, last_used: u64, now: u64, max_idle_secs: u64) -> (r: bool)
    ensures
        r == stale((in_use, last_used), now, max_idle_secs),
{
    if in_use {
        return false;
    }
    let idle = now.saturating_sub(last_used);
    match max_idle_secs.checked_mul(1_000_000_000) {
        Some(limit) => idle > limit,
        None => false,
    }
}

/// A connection with its use.
struct PooledConnection<C> {
    connection: C,
    last_used: u64,
    in_use: bool,
}

/// The (checked out, last used) pairs of the connections.
spec fn slot_view<C>(p: PooledConnection<C>) -> (bool, u64) {
    (p.in_use, p.last_used)
}

/// Result of one attempt to hand out a connection.
#[derive(Debug, Clone, Copy, PartialEq, Eq)]
pub enum Checkout {
    /// The connection at this index is now checked out.
    Ready(usize),
    /// All are checked out and the pool is full: wait for one.
    Wait,
}

/// Connection pool.
pub struct ConnectionPool<C> {
    connections: Vec<PooledConnection<C>>,
    config: PoolConfig,
}

impl<C> ConnectionPool<C> {
    /// The connections as (checked out, last used) pairs, in order.
    pub closed spec fn slots(&self) -> Seq<(bool, u64)> {
        self.connections@.map_values(|p: PooledConnection<C>| slot_view(p))
    }

    /// The configuration.
    pub closed spec fn config_spec(&self) -> PoolConfig {
        self.config
    }

    /// A connection pool with `min_size` connections opened at `now`
    /// (each made by `make`); an error where the minimum is above the
    /// maximum.
    pub fn new<F: Fn() -> C>(make: &F, config: PoolConfig, now: u64) -> (r: Result<Self, String>)
        requires
            call_requires(*make, ()),
            forall|| #[trigger] call_requires(*make, ()),
        ensures
            config.min_size > config.max_size ==> (r matches Err(e) && e@ == "min_size cannot be greater than max_size"@),
            config.min_size <= config.max_size ==> (r matches Ok(p) && p.config_spec() == config && p.slots() == Seq::new(
                config.min_size as nat,
                |i: int| (false, now),
            )),
    {
        if config.min_size > config.max_size {
            return Err(String::from_str("min_size cannot be greater than max_size"));
        }
        let mut pool = ConnectionPool { connections: Vec::new(), config };
        let mut k: usize = 0;
        while k < config.min_size
            invariant
                k <= config.min_size <= config.max_size,
                pool.config == config,
                forall|| #[trigger] call_requires(*make, ()),
                pool.slots() == Seq::new(k as nat, |i: int| (false, now)),
            decreases config.min_size - k,
        {
            let c = make();
            let ghost before = pool.slots();
            pool.connections.push(PooledConnection { connection: c, last_used: now, in_use: false });
            assert(pool.slots() =~= before.push((false, now)));
            assert(pool.slots() =~= Seq::new((k + 1) as nat, |i: int| (false, now)));
            k = k + 1;
        }
        Ok(pool)
    }

    /// The number of connections.
    pub fn size(&self) -> (r: usize)
        ensures
            r == self.slots().len(),
    {
        self.connections.len()
    }

    fn count_in_use(&self, used: bool) -> (r: usize)
        ensures
            r == in_use_count(self.slots(), used),
    {
        let ghost s = self.slots();
        let mut n: usize = 0;
        let mut i: usize = 0;
        while i < self.connections.len()
            invariant
                s == self.slots(),
                i <= self.connections.len(),
                n == in_use_count(s.subrange(0, i as int), used),
                n <= i,
            decreases self.connections.len() - i,
        {
            proof {
                assert(s.subrange(0, i + 1).drop_last() =~= s.subrange(0, i as int));
                assert(s.subrange(0, i + 1).last() == s[i as int]);
            }
            if self.connections[i].in_use == used {
                n = n + 1;
            }
            i = i + 1;
        }
        assert(s.subrange(0, s.len() as int) =~= s);
        n
    }

    /// The number of checked-out connections.
    pub fn active_connections(&self) -> (r: usize)
        ensures
            r == in_use_count(self.slots(), true),
    {
        self.count_in_use(true)
    }

    /// The number of free connections.
    pub fn idle_connections(&self) -> (r: usize)
        ensures
            r == in_use_count(self.slots(), false),
    {
        self.count_in_use(false)
    }

    /// Pool statistics.
    pub fn stats(&self) -> (r: PoolStats)
        ensures
            r.total_connections == self.slots().len(),
            r.active_connections == in_use_count(self.slots(), true),
            r.idle_connections == in_use_count(self.slots(), false),
            r.max_size == self.config_spec().max_size,
            r.min_size == self.config_spec().min_size,
    {
        PoolStats {
            total_connections: self.size(),
            active_connections: self.active_connections(),
            idle_connections: self.idle_connections(),
            max_size: self.config.max_size,
            min_size: self.config.min_size,
        }
    }

    /// The connection at `index`, if there is one.
    pub fn connection(&self, index: usize) -> (r: Option<&C>)
        ensures
            index < self.slots().len() <==> r is Some,
    {
        if index < self.connections.len() {
            Some(&self.connections[index].connection)
        } else {
            None
        }
    }

    /// The first free connection.
    fn first_free_index(&self) -> (r: Option<usize>)
        ensures
            match r {
                Some(k) => first_free(self.slots(), 0) == Some(k as int),
                None => first_free(self.slots(), 0) is None,
            },
    {
        let ghost s = self.slots();
        let mut i: usize = 0;
        while i < self.connections.len()
            invariant
                s == self.slots(),
                i <= self.connections.len(),
                first_free(s, 0) == first_free(s, i as int),
            decreases self.connections.len() - i,
        {
            assert(s[i as int] == slot_view(self.connections@[i as int]));
            if !self.connections[i].in_use {
                return Some(i);
            }
            i = i + 1;
        }
        None
    }

    /// One attempt to hand out a connection at time `now` (new connections
    /// are made by `make`); see `checkout_spec`.
    pub fn checkout_step<F: Fn() -> C>(&mut self, make: &F, now: u64) -> (r: Checkout)
        requires
            forall|| #[trigger] call_requires(*make, ()),
        ensures
            final(self).slots() == checkout_spec(old(self).slots(), now, old(self).config_spec()).0,
            match checkout_spec(old(self).slots(), now, old(self).config_spec()).1 {
                Some(i) => r == Checkout::Ready(i as usize),
                None => r == Checkout::Wait,
            },
            final(self).config_spec() == old(self).config_spec(),
    {
        let ghost goal = checkout_spec(self.slots(), now, self.config);
        loop
            invariant
                checkout_spec(self.slots(), now, self.config) == goal,
                goal == checkout_spec(old(self).slots(), now, old(self).config),
                self.config == old(self).config,
                forall|| #[trigger] call_requires(*make, ()),
            decreases stale_count(self.slots(), now, self.config.max_idle_time), if first_free(
                self.slots(),
                0,
            ) is None {
                1int
            } else {
                0int
            },
        {
            let ghost s = self.slots();
            proof {
                lemma_first_free(s, 0);
            }
            match self.first_free_index() {
                Some(i) => {
                    let c = &self.connections[i];
                    assert(s[i as int] == slot_view(self.connections@[i as int]));
                    if self.config.health_check_enabled && is_idle_too_long(
                        c.in_use,
                        c.last_used,
                        now,
                        self.config.max_idle_time,
                    ) {
                        self.connections.remove(i);
                        let fresh = make();
                        self.connections.push(PooledConnection { connection: fresh, last_used: now, in_use: false });
                        proof {
                            assert(self.slots() =~= s.remove(i as int).push((false, now)));
                            lemma_stale_count_remove(s, i as int, now, self.config.max_idle_time);
                            assert(self.slots().drop_last() =~= s.remove(i as int));
                        }
                        continue;
                    }
                    let ghost stale_here = stale(s[i as int], now, self.config.max_idle_time);
                    self.connections[i].in_use = true;
                    self.connections[i].last_used = now;
                    assert(self.slots() =~= s.update(i as int, (true, now)));
                    assert(!(self.config.health_check_enabled && stale_here));
                    assert(checkout_spec(s, now, self.config) == (s.update(i as int, (true, now)), Some(i as int)));
                    return Checkout::Ready(i);
                },
                None => {
                    if self.connections.len() < self.config.max_size {
                        let fresh = make();
                        self.connections.push(PooledConnection { connection: fresh, last_used: now, in_use: false });
                        proof {
                            let t = self.slots();
                            assert(t =~= s.push((false, now)));
                            lemma_first_free(t, 0);
                            assert(forall|m: int| 0 <= m < s.len() ==> t[m] == s[m]);
                            assert(!t[s.len() as int].0);
                            lemma_first_free_at_end(s, (false, now));
                            assert(!stale((false, now), now, self.config.max_idle_time));
                            assert(t.update(s.len() as int, (true, now)) =~= s.push((true, now)));
                            assert(t.drop_last() =~= s);
                        }
                        continue;
                    }
                    return Checkout::Wait;
                },
            }
        }
    }

    /// Return the connection at `index` at time `now`; nothing where there
    /// is none.
    pub fn checkin(&mut self, index: usize, now: u64)
        ensures
            index < old(self).slots().len() ==> final(self).slots() == old(self).slots().update(index as int, (false, now)),
            index >= old(self).slots().len() ==> final(self).slots() == old(self).slots(),
            final(self).config_spec() == old(self).config_spec(),
    {
        if index < self.connections.len() {
            let ghost s = self.slots();
            self.connections[index].in_use = false;
            self.connections[index].last_used = now;
            assert(self.slots() =~= s.update(index as int, (false, now)));
        }
    }

    /// The first stale connection.
    fn first_stale_index(&self, now: u64) -> (r: Option<usize>)
        ensures
            match r {
                Some(k) => first_stale(self.slots(), 0, now, self.config_spec().max_idle_time) == Some(k as int),
                None => first_stale(self.slots(), 0, now, self.config_spec().max_idle_time) is None,
            },
    {
        let ghost s = self.slots();
        let mut i: usize = 0;
        while i < self.connections.len()
            invariant
                s == self.slots(),
                i <= self.connections.len(),
                first_stale(s, 0, now, self.config.max_idle_time) == first_stale(s, i as int, now, self.config.max_idle_time),
            decreases self.connections.len() - i,
        {
            assert(s[i as int] == slot_view(self.connections@[i as int]));
            if is_idle_too_long(self.connections[i].in_use, self.connections[i].last_used, now, self.config.max_idle_time) {
                return Some(i);
            }
            i = i + 1;
        }
        None
    }

    /// Close connections idle too long at time `now`; see `cleanup_spec`.
    pub fn cleanup_idle_connections(&mut self, now: u64)
        ensures
            final(self).slots() == cleanup_spec(old(self).slots(), now, old(self).config_spec()),
            final(self).config_spec() == old(self).config_spec(),
    {
        let ghost goal = cleanup_spec(self.slots(), now, self.config);
        while self.connections.len() > self.config.min_size
            invariant
                cleanup_spec(self.slots(), now, self.config) == goal,
                goal == cleanup_spec(old(self).slots(), now, old(self).config),
                self.config == old(self).config,
            ensures
                self.slots() == goal,
                self.config == old(self).config,
            decreases self.connections.len(),
        {
            let ghost s = self.slots();
            proof {
                lemma_first_stale(s, 0, now, self.config.max_idle_time);
            }
            match self.first_stale_index(now) {
                Some(i) => {
                    self.connections.remove(i);
                    assert(self.slots() =~= s.remove(i as int));
                },
                None => {
                    assert(cleanup_spec(s, now, self.config) == s);
                    return;
                },
            }
        }
    }
}

/// With every connection checked out, one added at the end is the first
/// free one.
proof fn lemma_first_free_at_end(s: Seq<(bool, u64)>, x: (bool, u64))
    requires
        first_free(s, 0) is None,
        !x.0,
    ensures
        first_free(s.push(x), 0) == Some(s.len() as int),
{
    lemma_first_free(s, 0);
    lemma_first_free(s.push(x), 0);
    let t = s.push(x);
    match first_free(t, 0) {
        Some(j) => {
            if j < s.len() {
                assert(t[j] == s[j]);
            }
        },
        None => {
            assert(t[s.len() as int] == x);
        },
    }
}

/// The time left to wait for a connection, given how long the request has
/// waited: the timeout's nanoseconds less the wait (at most the largest
/// `u64`), or the timeout error once it has passed.
pub fn wait_budget(config: &PoolConfig, waited: u64) -> (r: Result<u64, String>)
    ensures
        waited >= config.connection_timeout * 1_000_000_000 ==> (r matches Err(e) && e@
            == "Connection timeout: no connections available"@),
        waited < config.connection_timeout * 1_000_000_000 ==> (r matches Ok(left) && left as int == if config.connection_timeout
            * 1_000_000_000 - waited <= u64::MAX {
            config.connection_timeout * 1_000_000_000 - waited
        } else {
            u64::MAX as int
        }),
{
    let limit: u128 = (config.connection_timeout as u128) * 1_000_000_000;
    if (waited as u128) >= limit {
        Err(String::from_str("Connection timeout: no connections available"))
    } else {
        let left: u128 = limit - (waited as u128);
        if left <= (u64::MAX as u128) {
            Ok(left as u64)
        } else {
            Ok(u64::MAX)
        }
    }
}

/// A pool that never had more than its maximum open never has after a
/// connection is handed out, and the connection handed out is one it holds,
/// now checked out.
pub proof fn law_checkout_within_max(s: Seq<(bool, u64)>, now: u64, cfg: PoolConfig)
    requires
        s.len() <= cfg.max_size,
    ensures
        checkout_spec(s, now, cfg).0.len() <= cfg.max_size,
        checkout_spec(s, now, cfg).1 matches Some(i) ==> 0 <= i < checkout_spec(s, now, cfg).0.len()
            && checkout_spec(s, now, cfg).0[i].0,
    decreases stale_count(s, now, cfg.max_idle_time),
{
    lemma_first_free(s, 0);
    match first_free(s, 0) {
        Some(i) => {
            if cfg.health_check_enabled && stale(s[i], now, cfg.max_idle_time) {
                lemma_stale_count_remove(s, i, now, cfg.max_idle_time);
                assert(s.remove(i).push((false, now)).drop_last() =~= s.remove(i));
                law_checkout_within_max(s.remove(i).push((false, now)), now, cfg);
            }
        },
        None => {},
    }
}

/// Closing idle connections never goes below the minimum (unless the pool
/// was already below it) and closes only free connections idle too long.
pub proof fn law_cleanup_keeps_minimum(s: Seq<(bool, u64)>, now: u64, cfg: PoolConfig)
    ensures
        cleanup_spec(s, now, cfg).len() >= if s.len() < cfg.min_size {
            s.len()
        } else {
            cfg.min_size as nat
        },
        cleanup_spec(s, now, cfg).len() <= s.len(),
        in_use_count(cleanup_spec(s, now, cfg), true) == in_use_count(s, true),
    decreases s.len(),
{
    if s.len() > cfg.min_size {
        lemma_first_stale(s, 0, now, cfg.max_idle_time);
        match first_stale(s, 0, now, cfg.max_idle_time) {
            Some(i) => {
                lemma_in_use_count_remove(s, i, true);
                law_cleanup_keeps_minimum(s.remove(i), now, cfg);
            },
            None => {},
        }
    }
}

/// Removing a connection takes it out of the count of its kind.
pub proof fn lemma_in_use_count_remove(s: Seq<(bool, u64)>, i: int, used: bool)
    requires
        0 <= i < s.len(),
    ensures
        in_use_count(s.remove(i), used) + (if s[i].0 == used {
            1nat
        } else {
            0nat
        }) == in_use_count(s, used),
    decreases s.len(),
{
    if i < s.len() - 1 {
        lemma_in_use_count_remove(s.drop_last(), i, used);
        assert(s.remove(i).drop_last() =~= s.drop_last().remove(i));
        assert(s.remove(i).last() == s.last());
    } else {
        assert(s.remove(i) =~= s.drop_last());
    }
}

} // verus!
