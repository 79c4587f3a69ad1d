//! Middleware decisions: priority ordering, rate limiting, circuit breaking,
//! request counters and compression thresholds.
//!
//! Instants are handed in by the caller as nanoseconds on a monotonic clock,
//! and durations as nanoseconds (processing times as microseconds); the
//! state that the middleware keeps is plain data.
use vstd::prelude::*;
use crate::error::Error;
use std::sync::atomic::AtomicU64;
use crate::server::validation::str_eq;
use crate::shared::chain_run::{ChainPass, ChainRun, ChainStage, RunState, Waiting, run_wf};

verus! {

// ---------------------------------------------------------------------------
// Priorities and ordering
// ---------------------------------------------------------------------------

/// Middleware execution priority for ordering.
#[derive(Debug, Clone, Copy, PartialEq, Eq, Structural, PartialOrd, Ord, Hash)]
pub enum MiddlewarePriority {
    /// Highest priority - executed first in chain
    Critical,
    /// High priority - authentication, security
    High,
    /// Normal priority - business logic
    Normal,
    /// Low priority - logging, metrics
    Low,
    /// Lowest priority - cleanup, finalization
    Lowest,
}

/// The place of a priority in the execution order: critical first.
pub open spec fn priority_rank(p: MiddlewarePriority) -> nat {
    match p {
        MiddlewarePriority::Critical => 0,
        MiddlewarePriority::High => 1,
        MiddlewarePriority::Normal => 2,
        MiddlewarePriority::Low => 3,
        MiddlewarePriority::Lowest => 4,
    }
}

impl MiddlewarePriority {
    /// The numeric level of the priority, 0 for critical up to 4 for lowest.
    pub fn rank(&self) -> (r: u8)
        ensures
            r == priority_rank(*self),
    {
        match self {
            MiddlewarePriority::Critical => 0,
            MiddlewarePriority::High => 1,
            MiddlewarePriority::Normal => 2,
            MiddlewarePriority::Low => 3,
            MiddlewarePriority::Lowest => 4,
        }
    }
}

impl Default for MiddlewarePriority {
    fn default() -> (p: MiddlewarePriority)
        ensures
            p == MiddlewarePriority::Normal,
    {
        MiddlewarePriority::Normal
    }
}

/// The entries of a given rank, in their order.
pub open spec fn by_rank<M>(s: Seq<(MiddlewarePriority, M)>, r: nat) -> Seq<(MiddlewarePriority, M)>
    decreases s.len(),
{
    if s.len() == 0 {
        s
    } else if priority_rank(s.last().0) == r {
        by_rank(s.drop_last(), r).push(s.last())
    } else {
        by_rank(s.drop_last(), r)
    }
}

/// The entries sorted by priority, critical first, entries of equal
/// priority in the order they were added: a stable sort.
pub open spec fn stable_sorted<M>(s: Seq<(MiddlewarePriority, M)>) -> Seq<(MiddlewarePriority, M)> {
    by_rank(s, 0) + by_rank(s, 1) + by_rank(s, 2) + by_rank(s, 3) + by_rank(s, 4)
}

/// Entries appear by priority, critical first.
pub open spec fn ordered_by_priority<M>(s: Seq<(MiddlewarePriority, M)>) -> bool {
    forall|i: int, j: int|
        0 <= i < j < s.len() ==> priority_rank(s[i].0) <= priority_rank(s[j].0)
}

proof fn lemma_by_rank_ranks<M>(s: Seq<(MiddlewarePriority, M)>, r: nat)
    ensures
        forall|i: int| 0 <= i < by_rank(s, r).len() ==> priority_rank(#[trigger] by_rank(s, r)[i].0) == r,
    decreases s.len(),
{
    if s.len() > 0 {
        lemma_by_rank_ranks(s.drop_last(), r);
        let t = by_rank(s.drop_last(), r);
        if priority_rank(s.last().0) == r {
            assert forall|i: int| 0 <= i < t.push(s.last()).len() implies priority_rank(
                #[trigger] t.push(s.last())[i].0,
            ) == r by {
                if i < t.len() {
                    assert(t.push(s.last())[i] == t[i]);
                }
            }
        }
    }
}

proof fn lemma_by_rank_concat<M>(a: Seq<(MiddlewarePriority, M)>, b: Seq<(MiddlewarePriority, M)>, r: nat)
    ensures
        by_rank(a + b, r) == by_rank(a, r) + by_rank(b, r),
    decreases b.len(),
{
    if b.len() == 0 {
        assert(a + b == a);
        assert(by_rank(a, r) + by_rank(b, r) == by_rank(a, r));
    } else {
        lemma_by_rank_concat(a, b.drop_last(), r);
        assert((a + b).drop_last() == a + b.drop_last());
        assert((a + b).last() == b.last());
        if priority_rank(b.last().0) == r {
            assert(by_rank(a, r) + by_rank(b.drop_last(), r).push(b.last()) == (by_rank(a, r)
                + by_rank(b.drop_last(), r)).push(b.last()));
        }
    }
}

proof fn lemma_by_rank_twice<M>(s: Seq<(MiddlewarePriority, M)>, q: nat, r: nat)
    ensures
        by_rank(by_rank(s, q), r) == if q == r {
            by_rank(s, r)
        } else {
            Seq::<(MiddlewarePriority, M)>::empty()
        },
    decreases s.len(),
{
    if s.len() > 0 {
        lemma_by_rank_twice(s.drop_last(), q, r);
        if priority_rank(s.last().0) == q {
            let t = by_rank(s.drop_last(), q);
            assert(t.push(s.last()).drop_last() == t);
        }
    }
}

proof fn lemma_ordered_concat<M>(a: Seq<(MiddlewarePriority, M)>, b: Seq<(MiddlewarePriority, M)>, t: nat)
    requires
        ordered_by_priority(a),
        forall|i: int| 0 <= i < a.len() ==> priority_rank(#[trigger] a[i].0) <= t,
        forall|i: int| 0 <= i < b.len() ==> priority_rank(#[trigger] b[i].0) == t,
    ensures
        ordered_by_priority(a + b),
        forall|i: int| 0 <= i < (a + b).len() ==> priority_rank(#[trigger] (a + b)[i].0) <= t,
{
    let c = a + b;
    assert forall|i: int, j: int| 0 <= i < j < c.len() implies priority_rank(c[i].0) <= priority_rank(
        c[j].0,
    ) by {
        if j < a.len() {
            assert(c[i] == a[i] && c[j] == a[j]);
        } else if i < a.len() {
            assert(c[i] == a[i] && c[j] == b[j - a.len()]);
        } else {
            assert(c[i] == b[i - a.len()] && c[j] == b[j - a.len()]);
        }
    }
    assert forall|i: int| 0 <= i < c.len() implies priority_rank(#[trigger] c[i].0) <= t by {
        if i < a.len() {
            assert(c[i] == a[i]);
        } else {
            assert(c[i] == b[i - a.len()]);
        }
    }
}

/// The stable sort puts the entries in priority order.
pub proof fn lemma_stable_sorted_ordered<M>(s: Seq<(MiddlewarePriority, M)>)
    ensures
        ordered_by_priority(stable_sorted(s)),
{
    lemma_by_rank_ranks(s, 0);
    lemma_by_rank_ranks(s, 1);
    lemma_by_rank_ranks(s, 2);
    lemma_by_rank_ranks(s, 3);
    lemma_by_rank_ranks(s, 4);
    let e = Seq::<(MiddlewarePriority, M)>::empty();
    assert(e + by_rank(s, 0) == by_rank(s, 0));
    lemma_ordered_concat(e, by_rank(s, 0), 0);
    lemma_ordered_concat(by_rank(s, 0), by_rank(s, 1), 1);
    lemma_ordered_concat(by_rank(s, 0) + by_rank(s, 1), by_rank(s, 2), 2);
    lemma_ordered_concat(by_rank(s, 0) + by_rank(s, 1) + by_rank(s, 2), by_rank(s, 3), 3);
    lemma_ordered_concat(
        by_rank(s, 0) + by_rank(s, 1) + by_rank(s, 2) + by_rank(s, 3),
        by_rank(s, 4),
        4,
    );
}

/// The stable sort keeps every entry, as often as it occurs.
pub proof fn lemma_stable_sorted_permutation<M>(s: Seq<(MiddlewarePriority, M)>)
    ensures
        stable_sorted(s).to_multiset() == s.to_multiset(),
    decreases s.len(),
{
    broadcast use vstd::seq_lib::lemma_multiset_commutative, vstd::seq_lib::to_multiset_build;

    if s.len() == 0 {
        assert(stable_sorted(s) == s);
    } else {
        let t = s.drop_last();
        let x = s.last();
        lemma_stable_sorted_permutation(t);
        assert(s == t.push(x));
        assert(stable_sorted(s).to_multiset() =~= by_rank(s, 0).to_multiset().add(
            by_rank(s, 1).to_multiset(),
        ).add(by_rank(s, 2).to_multiset()).add(by_rank(s, 3).to_multiset()).add(
            by_rank(s, 4).to_multiset(),
        ));
        assert(stable_sorted(t).to_multiset() =~= by_rank(t, 0).to_multiset().add(
            by_rank(t, 1).to_multiset(),
        ).add(by_rank(t, 2).to_multiset()).add(by_rank(t, 3).to_multiset()).add(
            by_rank(t, 4).to_multiset(),
        ));
        assert(stable_sorted(s).to_multiset() =~= stable_sorted(t).to_multiset().insert(x));
    }
}

/// Among entries of equal priority, the stable sort keeps their order.
pub proof fn lemma_stable_sorted_stable<M>(s: Seq<(MiddlewarePriority, M)>, r: nat)
    ensures
        by_rank(stable_sorted(s), r) == by_rank(s, r),
{
    let (a0, a1, a2, a3, a4) = (by_rank(s, 0), by_rank(s, 1), by_rank(s, 2), by_rank(s, 3), by_rank(s, 4));
    lemma_by_rank_concat(a0 + a1 + a2 + a3, a4, r);
    lemma_by_rank_concat(a0 + a1 + a2, a3, r);
    lemma_by_rank_concat(a0 + a1, a2, r);
    lemma_by_rank_concat(a0, a1, r);
    lemma_by_rank_twice(s, 0, r);
    lemma_by_rank_twice(s, 1, r);
    lemma_by_rank_twice(s, 2, r);
    lemma_by_rank_twice(s, 3, r);
    lemma_by_rank_twice(s, 4, r);
    let e = Seq::<(MiddlewarePriority, M)>::empty();
    assert forall|x: Seq<(MiddlewarePriority, M)>| #[trigger] (x + e) == x && e + x == x by {
        assert(x + e =~= x);
        assert(e + x =~= x);
    }
    if r > 4 {
        lemma_by_rank_ranks(s, r);
        if by_rank(s, r).len() > 0 {
            assert(priority_rank(by_rank(s, r)[0].0) == r);
        }
        assert(by_rank(s, r) =~= e);
    }
}

/// The chain's entries after moving them into rank buckets and joining them.
fn sort_entries<M>(entries: Vec<(MiddlewarePriority, M)>) -> (sorted: Vec<(MiddlewarePriority, M)>)
    ensures
        sorted@ == stable_sorted(entries@),
{
    let ghost s = entries@;
    let mut rest = entries;
    let mut b0: Vec<(MiddlewarePriority, M)> = Vec::new();
    let mut b1: Vec<(MiddlewarePriority, M)> = Vec::new();
    let mut b2: Vec<(MiddlewarePriority, M)> = Vec::new();
    let mut b3: Vec<(MiddlewarePriority, M)> = Vec::new();
    let mut b4: Vec<(MiddlewarePriority, M)> = Vec::new();
    assert(s.subrange(s.len() - rest@.len(), s.len() as int) == s);
    while rest.len() > 0
        invariant
            rest@.len() <= s.len(),
            rest@ == s.subrange(s.len() - rest@.len(), s.len() as int),
            b0@ == by_rank(s.subrange(0, s.len() - rest@.len()), 0),
            b1@ == by_rank(s.subrange(0, s.len() - rest@.len()), 1),
            b2@ == by_rank(s.subrange(0, s.len() - rest@.len()), 2),
            b3@ == by_rank(s.subrange(0, s.len() - rest@.len()), 3),
            b4@ == by_rank(s.subrange(0, s.len() - rest@.len()), 4),
        decreases rest@.len(),
    {
        let ghost k = s.len() - rest@.len();
        let e = rest.remove(0);
        proof {
            assert(s[k] == e);
            assert(s.subrange(0, k + 1).drop_last() == s.subrange(0, k));
            assert(s.subrange(0, k + 1).last() == e);
            assert(rest@ == s.subrange(k + 1, s.len() as int));
        }
        let r = e.0.rank();
        if r == 0 {
            b0.push(e);
        } else if r == 1 {
            b1.push(e);
        } else if r == 2 {
            b2.push(e);
        } else if r == 3 {
            b3.push(e);
        } else {
            b4.push(e);
        }
    }
    assert(s.subrange(0, s.len() as int) == s);
    b0.append(&mut b1);
    b0.append(&mut b2);
    b0.append(&mut b3);
    b0.append(&mut b4);
    b0
}

/// A chain of middleware in the order in which they run, each with its
/// priority; with automatic sorting the chain is kept in priority order.
#[derive(Debug)]
pub struct EnhancedMiddlewareChain<M> {
    middlewares: Vec<(MiddlewarePriority, M)>,
    auto_sort: bool,
}

impl<M> EnhancedMiddlewareChain<M> {
    /// The middleware with their priorities, in order of execution.
    pub closed spec fn entries(&self) -> Seq<(MiddlewarePriority, M)> {
        self.middlewares@
    }

    /// Whether adding sorts the chain.
    pub closed spec fn sorts(&self) -> bool {
        self.auto_sort
    }

    /// Create a new chain that sorts by priority.
    pub fn new() -> (c: EnhancedMiddlewareChain<M>)
        ensures
            c.entries() == Seq::<(MiddlewarePriority, M)>::empty(),
            c.sorts(),
    {
        EnhancedMiddlewareChain { middlewares: Vec::new(), auto_sort: true }
    }

    /// Create a new chain without automatic sorting.
    pub fn new_no_sort() -> (c: EnhancedMiddlewareChain<M>)
        ensures
            c.entries() == Seq::<(MiddlewarePriority, M)>::empty(),
            !c.sorts(),
    {
        EnhancedMiddlewareChain { middlewares: Vec::new(), auto_sort: false }
    }

    /// Add a middleware with its priority; a sorting chain is sorted again.
    pub fn add(&mut self, priority: MiddlewarePriority, middleware: M)
        ensures
            final(self).sorts() == old(self).sorts(),
            final(self).entries() == if old(self).sorts() {
                stable_sorted(old(self).entries().push((priority, middleware)))
            } else {
                old(self).entries().push((priority, middleware))
            },
    {
        self.middlewares.push((priority, middleware));
        if self.auto_sort {
            self.sort_by_priority();
        }
    }

    /// Sort middleware by priority (critical first), keeping the order of
    /// those of equal priority.
    pub fn sort_by_priority(&mut self)
        ensures
            final(self).sorts() == old(self).sorts(),
            final(self).entries() == stable_sorted(old(self).entries()),
    {
        let mut taken: Vec<(MiddlewarePriority, M)> = Vec::new();
        std::mem::swap(&mut taken, &mut self.middlewares);
        self.middlewares = sort_entries(taken);
    }

    /// Get middleware count.
    pub fn len(&self) -> (n: usize)
        ensures
            n == self.entries().len(),
    {
        self.middlewares.len()
    }

    /// Check if chain is empty.
    pub fn is_empty(&self) -> (b: bool)
        ensures
            b == (self.entries().len() == 0),
    {
        self.middlewares.len() == 0
    }

    /// The middleware with their priorities, in order of execution.
    pub fn middlewares(&self) -> (m: &[(MiddlewarePriority, M)])
        ensures
            m@ == self.entries(),
    {
        self.middlewares.as_slice()
    }

    /// Begin a pass of a message through the chain, in its current order.
    pub fn start_pass(&self, pass: ChainPass) -> (r: ChainRun)
        ensures
            r@ == (RunState {
                pass,
                len: self.entries().len(),
                stage: ChainStage::Start,
                pos: 0,
                waiting: Waiting::Begin,
                error: None,
            }),
            run_wf(r@),
    {
        ChainRun::new(pass, self.middlewares.len())
    }

    /// Metrics are kept per context, so the chain holds none.
    pub fn get_metrics(&self) -> (v: Vec<PerformanceMetrics>)
        ensures
            v@.len() == 0,
    {
        Vec::new()
    }
}

impl<M> Default for EnhancedMiddlewareChain<M> {
    fn default() -> (c: EnhancedMiddlewareChain<M>)
        ensures
            c.entries() == Seq::<(MiddlewarePriority, M)>::empty(),
            c.sorts(),
    {
        EnhancedMiddlewareChain::new()
    }
}

/// A chain whose middleware run in the order they were added.
#[derive(Debug)]
pub struct MiddlewareChain<M> {
    middlewares: Vec<M>,
}

impl<M> MiddlewareChain<M> {
    /// The middleware, in order.
    pub closed spec fn entries(&self) -> Seq<M> {
        self.middlewares@
    }

    /// Create a new empty middleware chain.
    pub fn new() -> (c: MiddlewareChain<M>)
        ensures
            c.entries() == Seq::<M>::empty(),
    {
        MiddlewareChain { middlewares: Vec::new() }
    }

    /// Add a middleware to the end of the chain.
    pub fn add(&mut self, middleware: M)
        ensures
            final(self).entries() == old(self).entries().push(middleware),
    {
        self.middlewares.push(middleware);
    }

    /// The middleware, in order.
    pub fn middlewares(&self) -> (m: &[M])
        ensures
            m@ == self.entries(),
    {
        self.middlewares.as_slice()
    }
}

impl<M> Default for MiddlewareChain<M> {
    fn default() -> (c: MiddlewareChain<M>)
        ensures
            c.entries() == Seq::<M>::empty(),
    {
        MiddlewareChain::new()
    }
}

// ---------------------------------------------------------------------------
// Performance counters
// ---------------------------------------------------------------------------

/// Request, error and time counters of a middleware chain.
#[derive(Debug, Clone, Copy, PartialEq, Eq, Structural)]
pub struct PerformanceMetrics {
    request_count: u64,
    error_count: u64,
    total_time_us: u64,
}

impl PerformanceMetrics {
    /// Requests, errors and total microseconds counted.
    pub closed spec fn counts(&self) -> (u64, u64, u64) {
        (self.request_count, self.error_count, self.total_time_us)
    }

    /// Create counters at zero.
    pub fn new() -> (m: PerformanceMetrics)
        ensures
            m.counts() == (0u64, 0u64, 0u64),
    {
        PerformanceMetrics { request_count: 0, error_count: 0, total_time_us: 0 }
    }

    /// Increment request count (wrapping, as an atomic counter does).
    pub fn inc_requests(&mut self)
        ensures
            final(self).counts() == (
                old(self).counts().0.wrapping_add(1),
                old(self).counts().1,
                old(self).counts().2,
            ),
    {
        self.request_count = self.request_count.wrapping_add(1);
    }

    /// Increment error count (wrapping).
    pub fn inc_errors(&mut self)
        ensures
            final(self).counts() == (
                old(self).counts().0,
                old(self).counts().1.wrapping_add(1),
                old(self).counts().2,
            ),
    {
        self.error_count = self.error_count.wrapping_add(1);
    }

    /// Add processing time in microseconds (wrapping).
    pub fn add_time(&mut self, micros: u64)
        ensures
            final(self).counts() == (
                old(self).counts().0,
                old(self).counts().1,
                old(self).counts().2.wrapping_add(micros),
            ),
    {
        self.total_time_us = self.total_time_us.wrapping_add(micros);
    }

    /// Get total request count.
    pub fn request_count(&self) -> (r: u64)
        ensures
            r == self.counts().0,
    {
        self.request_count
    }

    /// Get total error count.
    pub fn error_count(&self) -> (r: u64)
        ensures
            r == self.counts().1,
    {
        self.error_count
    }

    /// Average processing time in microseconds; zero before any request.
    pub fn average_time(&self) -> (r: u64)
        ensures
            r == (if self.counts().0 > 0 {
                self.counts().2 / self.counts().0
            } else {
                0
            }),
    {
        if self.request_count > 0 {
            self.total_time_us / self.request_count
        } else {
            0
        }
    }
}

// ---------------------------------------------------------------------------
// Rate limiting (token bucket)
// ---------------------------------------------------------------------------

/// Tokens and time of last refill after refilling the bucket at `now`
/// (times in nanoseconds): when a whole refill period has passed,
/// `max_requests` tokens are added per elapsed period, the periods being
/// counted as whole elapsed milliseconds over whole milliseconds of the
/// period (the count truncated to 32 bits), capped by the bucket.
pub open spec fn refilled(
    max_requests: u32,
    bucket_size: u32,
    refill_ns: u64,
    tokens: nat,
    last: u64,
    now: u64,
) -> (nat, u64)
    recommends
        refill_ns / 1_000_000 > 0,
{
    let elapsed: int = if now >= last { now - last } else { 0 };
    if elapsed >= refill_ns {
        let periods = (((elapsed / 1_000_000) / (refill_ns / 1_000_000) as int) as u64) as u32;
        let add: int = if periods * max_requests <= bucket_size {
            periods * max_requests
        } else {
            bucket_size as int
        };
        let t: int = if tokens + add <= bucket_size {
            tokens + add
        } else {
            bucket_size as int
        };
        (t as nat, now)
    } else {
        (tokens, last)
    }
}

/// The refill at `now` is defined: when a period has passed, the period
/// lasts at least a millisecond (periods are counted in whole milliseconds)
/// and the tokens to add stay within 32-bit arithmetic.
pub open spec fn refill_fits(max_requests: u32, refill_ns: u64, last: u64, now: u64) -> bool {
    let elapsed: int = if now >= last { now - last } else { 0 };
    elapsed >= refill_ns ==> refill_ns / 1_000_000 > 0 && ((((elapsed / 1_000_000) / (refill_ns
        / 1_000_000) as int) as u64) as u32) * max_requests <= u32::MAX
}

/// Token-bucket rate limiter.
#[derive(Debug)]
pub struct RateLimitMiddleware {
    max_requests: u32,
    bucket_size: u32,
    refill_ns: u64,
    tokens: usize,
    last_refill_ns: u64,
}

impl RateLimitMiddleware {
    /// Tokens added per period, bucket capacity and period length.
    pub closed spec fn config(&self) -> (u32, u32, u64) {
        (self.max_requests, self.bucket_size, self.refill_ns)
    }

    /// Tokens left.
    pub closed spec fn tokens(&self) -> nat {
        self.tokens as nat
    }

    /// Time of the last refill.
    pub closed spec fn last_refill(&self) -> u64 {
        self.last_refill_ns
    }

    /// The bucket never holds more than its capacity.
    #[verifier::type_invariant]
    spec fn bucket_bounded(&self) -> bool {
        self.tokens <= self.bucket_size
    }

    /// Tokens left; never more than the bucket holds.
    pub fn tokens_left(&self) -> (n: usize)
        ensures
            n == self.tokens(),
            n <= self.config().1,
    {
        proof {
            use_type_invariant(self);
        }
        self.tokens
    }

    /// The length of a refill period in nanoseconds.
    pub fn refill_period_ns(&self) -> (p: u64)
        ensures
            p == self.config().2,
    {
        self.refill_ns
    }

    /// Whether refilling at `now_ns` is undefined: a period has passed and
    /// either the period is shorter than a millisecond or the tokens to add
    /// overflow 32-bit arithmetic.
    pub fn refill_would_panic(&self, now_ns: u64) -> (b: bool)
        ensures
            b == !refill_fits(self.config().0, self.config().2, self.last_refill(), now_ns),
    {
        let elapsed = if now_ns >= self.last_refill_ns {
            now_ns - self.last_refill_ns
        } else {
            0
        };
        if elapsed >= self.refill_ns {
            let period_ms = self.refill_ns / 1_000_000;
            if period_ms == 0 {
                return true;
            }
            let periods = (elapsed / 1_000_000 / period_ms) as u32;
            let p = periods as u64;
            let m = self.max_requests as u64;
            assert(p * m <= 0xffff_ffffu64 * 0xffff_ffffu64) by (nonlinear_arith)
                requires
                    p <= 0xffff_ffffu64,
                    m <= 0xffff_ffffu64,
            ;
            p * m > 0xffff_ffffu64
        } else {
            false
        }
    }

    /// Create a limiter with a full bucket, refilled last at `now_ns`.
    pub fn new(max_requests: u32, bucket_size: u32, refill_ns: u64, now_ns: u64) -> (m: RateLimitMiddleware)
        ensures
            m.config() == (max_requests, bucket_size, refill_ns),
            m.tokens() == bucket_size,
            m.last_refill() == now_ns,
    {
        RateLimitMiddleware {
            max_requests,
            bucket_size,
            refill_ns,
            tokens: bucket_size as usize,
            last_refill_ns: now_ns,
        }
    }

    /// Refill the bucket for the time passed, then take a token if there is
    /// one. Returns whether the request is within the limit.
    pub fn check_rate_limit(&mut self, now_ns: u64) -> (allowed: bool)
        requires
            refill_fits(old(self).config().0, old(self).config().2, old(self).last_refill(), now_ns),
        ensures
            final(self).config() == old(self).config(),
            ({
                let (m, b, p) = old(self).config();
                let (t, l) = refilled(m, b, p, old(self).tokens(), old(self).last_refill(), now_ns);
                &&& allowed == (t > 0)
                &&& final(self).tokens() == if t > 0 { (t - 1) as nat } else { 0 }
                &&& final(self).last_refill() == l
            }),
    {
        proof {
            use_type_invariant(&*self);
        }
        let elapsed = if now_ns >= self.last_refill_ns {
            now_ns - self.last_refill_ns
        } else {
            0
        };
        if elapsed >= self.refill_ns {
            let periods = (elapsed / 1_000_000 / (self.refill_ns / 1_000_000)) as u32;
            let product = periods * self.max_requests;
            let add = if product <= self.bucket_size {
                product
            } else {
                self.bucket_size
            };
            let sum = self.tokens as u64 + add as u64;
            self.tokens = if sum <= self.bucket_size as u64 {
                sum as usize
            } else {
                self.bucket_size as usize
            };
            self.last_refill_ns = now_ns;
        }
        if self.tokens == 0 {
            false
        } else {
            self.tokens = self.tokens - 1;
            true
        }
    }

    /// Admit a request, or refuse it with `Error::RateLimited` when the
    /// bucket is empty.
    pub fn on_request(&mut self, now_ns: u64) -> (r: Result<(), Error>)
        requires
            refill_fits(old(self).config().0, old(self).config().2, old(self).last_refill(), now_ns),
        ensures
            final(self).config() == old(self).config(),
            ({
                let (m, b, p) = old(self).config();
                let (t, l) = refilled(m, b, p, old(self).tokens(), old(self).last_refill(), now_ns);
                &&& (r is Ok) == (t > 0)
                &&& r matches Err(e) ==> e == Error::RateLimited
                &&& final(self).tokens() == if t > 0 { (t - 1) as nat } else { 0 }
                &&& final(self).last_refill() == l
            }),
    {
        if self.check_rate_limit(now_ns) {
            Ok(())
        } else {
            Err(Error::RateLimited)
        }
    }
}

/// The decisions of the limiter for requests at the given times, starting
/// from `tokens` tokens and the last refill at `last`.
pub open spec fn rate_decisions(
    max_requests: u32,
    bucket_size: u32,
    refill_ns: u64,
    tokens: nat,
    last: u64,
    times: Seq<u64>,
) -> Seq<bool>
    decreases times.len(),
{
    if times.len() == 0 {
        Seq::empty()
    } else {
        let (t, l) = refilled(max_requests, bucket_size, refill_ns, tokens, last, times[0]);
        let rest = rate_decisions(
            max_requests,
            bucket_size,
            refill_ns,
            if t > 0 { (t - 1) as nat } else { 0 },
            l,
            times.drop_first(),
        );
        seq![t > 0] + rest
    }
}

/// How many decisions admitted the request.
pub open spec fn admitted(d: Seq<bool>) -> nat
    decreases d.len(),
{
    if d.len() == 0 {
        0
    } else {
        (if d[0] { 1nat } else { 0nat }) + admitted(d.drop_first())
    }
}

/// Within one refill period no more requests pass than there are tokens:
/// with `tokens` tokens left and every request earlier than a full period
/// after the last refill, exactly `min(tokens, requests)` are admitted.
pub proof fn lemma_rate_limit_burst(
    max_requests: u32,
    bucket_size: u32,
    refill_ns: u64,
    tokens: nat,
    last: u64,
    times: Seq<u64>,
)
    requires
        refill_ns > 0,
        forall|i: int| 0 <= i < times.len() ==> #[trigger] times[i] < last + refill_ns,
    ensures
        admitted(rate_decisions(max_requests, bucket_size, refill_ns, tokens, last, times)) == if tokens
            <= times.len() {
            tokens
        } else {
            times.len()
        },
    decreases times.len(),
{
    if times.len() > 0 {
        assert(times[0] < last + refill_ns);
        let next: nat = if tokens > 0 { (tokens - 1) as nat } else { 0 };
        assert forall|i: int| 0 <= i < times.drop_first().len() implies #[trigger] times.drop_first()[i]
            < last + refill_ns by {
            assert(times.drop_first()[i] == times[i + 1]);
        }
        lemma_rate_limit_burst(max_requests, bucket_size, refill_ns, next, last, times.drop_first());
        let d = rate_decisions(max_requests, bucket_size, refill_ns, tokens, last, times);
        let rest = rate_decisions(max_requests, bucket_size, refill_ns, next, last, times.drop_first());
        assert(d == seq![tokens > 0] + rest);
        assert(d.drop_first() == rest);
    }
}

// ---------------------------------------------------------------------------
// Circuit breaker
// ---------------------------------------------------------------------------

/// The state of a circuit breaker: failures counted, time of the last
/// failure, and since when the circuit has been open.
#[derive(Debug, Clone, Copy, PartialEq, Eq, Structural)]
pub struct BreakerState {
    /// Failures counted in the current window
    pub failures: u64,
    /// Time of the last failure
    pub last_failure: Option<u64>,
    /// Time the circuit opened, while it is open
    pub open_since: Option<u64>,
}

/// Time from `from` to `now`, zero when `now` is earlier.
pub open spec fn since(from: u64, now: u64) -> int {
    if now >= from {
        now - from
    } else {
        0
    }
}

/// Whether a request at `now` is let through, and the state after. An open
/// circuit refuses until more than `timeout` has passed, then closes with
/// the count reset and lets the request through; a closed circuit forgets
/// its failures once more than `window` has passed since the last one, and
/// lets requests through while fewer than `threshold` failures are counted.
pub open spec fn breaker_allow(
    threshold: u32,
    window: u64,
    timeout: u64,
    st: BreakerState,
    now: u64,
) -> (bool, BreakerState) {
    match st.open_since {
        Some(open) => {
            if since(open, now) > timeout {
                (true, BreakerState { failures: 0, last_failure: st.last_failure, open_since: None })
            } else {
                (false, st)
            }
        },
        None => {
            let failures: u64 = match st.last_failure {
                Some(last) => if since(last, now) > window {
                    0
                } else {
                    st.failures
                },
                None => st.failures,
            };
            (failures < threshold, BreakerState { failures, ..st })
        },
    }
}

/// The state after a failure at `now`: counted, remembered, and the circuit
/// opens once `threshold` failures are counted.
pub open spec fn breaker_failure(threshold: u32, st: BreakerState, now: u64) -> BreakerState {
    let failures = (st.failures + 1) as u64;
    BreakerState {
        failures,
        last_failure: Some(now),
        open_since: if failures >= threshold {
            Some(now)
        } else {
            st.open_since
        },
    }
}

/// Circuit breaker for fault tolerance.
#[derive(Debug)]
pub struct CircuitBreakerMiddleware {
    failure_threshold: u32,
    time_window_ns: u64,
    timeout_ns: u64,
    state: BreakerState,
}

impl CircuitBreakerMiddleware {
    /// Failure threshold, window and timeout.
    pub closed spec fn config(&self) -> (u32, u64, u64) {
        (self.failure_threshold, self.time_window_ns, self.timeout_ns)
    }

    /// The breaker's state.
    pub closed spec fn state(&self) -> BreakerState {
        self.state
    }

    /// Create a closed circuit breaker with no failures.
    pub fn new(failure_threshold: u32, time_window_ns: u64, timeout_ns: u64) -> (c: CircuitBreakerMiddleware)
        ensures
            c.config() == (failure_threshold, time_window_ns, timeout_ns),
            c.state() == (BreakerState { failures: 0, last_failure: None, open_since: None }),
    {
        CircuitBreakerMiddleware {
            failure_threshold,
            time_window_ns,
            timeout_ns,
            state: BreakerState { failures: 0, last_failure: None, open_since: None },
        }
    }

    /// Whether the circuit lets a request at `now_ns` through.
    pub fn should_allow_request(&mut self, now_ns: u64) -> (allowed: bool)
        ensures
            final(self).config() == old(self).config(),
            ({
                let (t, w, o) = old(self).config();
                (allowed, final(self).state()) == breaker_allow(t, w, o, old(self).state(), now_ns)
            }),
    {
        match self.state.open_since {
            Some(open) => {
                let passed = if now_ns >= open {
                    now_ns - open
                } else {
                    0
                };
                if passed > self.timeout_ns {
                    self.state = BreakerState {
                        failures: 0,
                        last_failure: self.state.last_failure,
                        open_since: None,
                    };
                    true
                } else {
                    false
                }
            },
            None => {
                match self.state.last_failure {
                    Some(last) => {
                        let passed = if now_ns >= last {
                            now_ns - last
                        } else {
                            0
                        };
                        if passed > self.time_window_ns {
                            self.state = BreakerState { failures: 0, ..self.state };
                        }
                    },
                    None => {},
                }
                self.state.failures < self.failure_threshold as u64
            },
        }
    }

    /// Failures counted.
    pub fn failure_count(&self) -> (n: u64)
        ensures
            n == self.state().failures,
    {
        self.state.failures
    }

    /// Record a failure at `now_ns`, opening the circuit at the threshold.
    pub fn record_failure(&mut self, now_ns: u64)
        requires
            old(self).state().failures < u64::MAX,
        ensures
            final(self).config() == old(self).config(),
            final(self).state() == breaker_failure(old(self).config().0, old(self).state(), now_ns),
    {
        let failures = self.state.failures + 1;
        let open_since = if failures >= self.failure_threshold as u64 {
            Some(now_ns)
        } else {
            self.state.open_since
        };
        self.state = BreakerState { failures, last_failure: Some(now_ns), open_since };
    }

    /// Admit a request, or refuse it with `Error::CircuitBreakerOpen`.
    pub fn on_request(&mut self, now_ns: u64) -> (r: Result<(), Error>)
        ensures
            final(self).config() == old(self).config(),
            ({
                let (t, w, o) = old(self).config();
                let (allowed, st) = breaker_allow(t, w, o, old(self).state(), now_ns);
                &&& (r is Ok) == allowed
                &&& r matches Err(e) ==> e == Error::CircuitBreakerOpen
                &&& final(self).state() == st
            }),
    {
        if self.should_allow_request(now_ns) {
            Ok(())
        } else {
            Err(Error::CircuitBreakerOpen)
        }
    }
}

/// The failure that reaches the threshold opens the circuit: requests are
/// refused from then until more than the timeout has passed.
pub proof fn lemma_breaker_opens(
    threshold: u32,
    window: u64,
    timeout: u64,
    st: BreakerState,
    now: u64,
    later: u64,
)
    requires
        st.failures < u64::MAX,
        st.failures + 1 >= threshold,
        since(now, later) <= timeout,
    ensures
        !breaker_allow(threshold, window, timeout, breaker_failure(threshold, st, now), later).0,
{
}

/// An open circuit lets the first request after the timeout through and
/// closes with the failure count reset.
pub proof fn lemma_breaker_recovers(
    threshold: u32,
    window: u64,
    timeout: u64,
    st: BreakerState,
    now: u64,
)
    requires
        st.open_since matches Some(open) && since(open, now) > timeout,
    ensures
        ({
            let (allowed, next) = breaker_allow(threshold, window, timeout, st, now);
            allowed && next.failures == 0 && next.open_since is None
        }),
{
}

/// A closed circuit below the threshold lets requests through.
pub proof fn lemma_breaker_closed_allows(
    threshold: u32,
    window: u64,
    timeout: u64,
    st: BreakerState,
    now: u64,
)
    requires
        st.open_since is None,
        st.failures < threshold,
    ensures
        breaker_allow(threshold, window, timeout, st, now).0,
{
}

// ---------------------------------------------------------------------------
// Per-method counters
// ---------------------------------------------------------------------------

/// The count of a name, zero when it was never counted.
pub open spec fn count_of(m: Map<Seq<char>, u64>, k: Seq<char>) -> u64 {
    if m.dom().contains(k) {
        m[k]
    } else {
        0
    }
}

/// The map of atomic counters of the `dashmap` crate.
#[verifier::external_type_specification]
#[verifier::external_body]
#[verifier::reject_recursive_types(K)]
#[verifier::reject_recursive_types(V)]
#[verifier::reject_recursive_types(S)]
pub struct ExDashMap<K, V, S>(dashmap::DashMap<K, V, S>);

/// A map of named atomic counters.
pub type Counters = dashmap::DashMap<String, AtomicU64>;

/// What a map of counters of the `dashmap` crate holds: each name and the
/// value of its atomic counter.
pub uninterp spec fn dashmap_counts(m: Counters) -> Map<Seq<char>, u64>;

/// Calls `DashMap::new`: a map with no entries.
#[verifier::external_body]
fn counts_new() -> (r: Counters)
    ensures
        dashmap_counts(r).dom() =~= Set::<Seq<char>>::empty(),
{
    dashmap::DashMap::new()
}

/// Calls `DashMap::get` and reads the counter found (`AtomicU64::load`):
/// the counter's value, or zero when the name has none.
#[verifier::external_body]
fn counts_get(m: &Counters, name: &str) -> (r: u64)
    ensures
        r == count_of(dashmap_counts(*m), name@),
{
    match m.get(name) {
        Some(c) => c.load(std::sync::atomic::Ordering::Relaxed),
        None => 0,
    }
}

/// Calls `DashMap::entry` with `Entry::or_insert` (a new counter
/// starts at zero) and adds to the counter with `AtomicU64::fetch_add`,
/// which wraps around on overflow. No other entry changes.
#[verifier::external_body]
fn counts_add(m: &mut Counters, name: &str, delta: u64)
    ensures
        dashmap_counts(*final(m)) == dashmap_counts(*old(m)).insert(
            name@,
            count_of(dashmap_counts(*old(m)), name@).wrapping_add(delta),
        ),
{
    m.entry(name.to_string()).or_insert(AtomicU64::new(0)).fetch_add(delta, std::sync::atomic::Ordering::Relaxed);
}

/// Counters by name, in a map of atomic counters.
#[derive(Debug)]
pub struct CounterMap {
    counts: Counters,
}

impl View for CounterMap {
    type V = Map<Seq<char>, u64>;

    closed spec fn view(&self) -> Map<Seq<char>, u64> {
        dashmap_counts(self.counts)
    }
}

impl CounterMap {
    /// No counters.
    pub fn new() -> (c: CounterMap)
        ensures
            c@ == Map::<Seq<char>, u64>::empty(),
    {
        CounterMap { counts: counts_new() }
    }

    /// The count of a name, zero when absent.
    pub fn get(&self, name: &str) -> (r: u64)
        ensures
            r == count_of(self@, name@),
    {
        counts_get(&self.counts, name)
    }

    /// Add `delta` to the count of a name (wrapping, as an atomic counter does).
    pub fn add(&mut self, name: &str, delta: u64)
        ensures
            final(self)@ == old(self)@.insert(name@, count_of(old(self)@, name@).wrapping_add(delta)),
    {
        counts_add(&mut self.counts, name, delta);
    }
}

// ---------------------------------------------------------------------------
// Metrics, compression, retry and auth settings
// ---------------------------------------------------------------------------

/// Request, duration and error counters by method.
#[derive(Debug)]
pub struct MetricsMiddleware {
    service_name: String,
    request_counts: CounterMap,
    request_durations: CounterMap,
    error_counts: CounterMap,
}

impl MetricsMiddleware {
    /// The service name.
    pub closed spec fn service(&self) -> Seq<char> {
        self.service_name@
    }

    /// Requests counted by method.
    pub closed spec fn requests(&self) -> Map<Seq<char>, u64> {
        self.request_counts@
    }

    /// Total microseconds by method.
    pub closed spec fn durations(&self) -> Map<Seq<char>, u64> {
        self.request_durations@
    }

    /// Errors counted by method.
    pub closed spec fn errors(&self) -> Map<Seq<char>, u64> {
        self.error_counts@
    }

    /// Create a new metrics collection middleware.
    pub fn new(service_name: String) -> (m: MetricsMiddleware)
        ensures
            m.service() == service_name@,
            m.requests() == Map::<Seq<char>, u64>::empty(),
            m.durations() == Map::<Seq<char>, u64>::empty(),
            m.errors() == Map::<Seq<char>, u64>::empty(),
    {
        MetricsMiddleware {
            service_name,
            request_counts: CounterMap::new(),
            request_durations: CounterMap::new(),
            error_counts: CounterMap::new(),
        }
    }

    /// The service name.
    pub fn service_name(&self) -> (s: &String)
        ensures
            s@ == self.service(),
    {
        &self.service_name
    }

    /// Count a request of a method.
    pub fn record_request(&mut self, method: &str)
        ensures
            final(self).service() == old(self).service(),
            final(self).requests() == old(self).requests().insert(
                method@,
                count_of(old(self).requests(), method@).wrapping_add(1),
            ),
            final(self).durations() == old(self).durations(),
            final(self).errors() == old(self).errors(),
    {
        self.request_counts.add(method, 1);
    }

    /// Add the duration of a response to its method, when the method is known.
    pub fn record_response(&mut self, method: Option<&str>, duration_us: u64)
        ensures
            final(self).service() == old(self).service(),
            final(self).requests() == old(self).requests(),
            final(self).durations() == match method {
                Some(m) => old(self).durations().insert(
                    m@,
                    count_of(old(self).durations(), m@).wrapping_add(duration_us),
                ),
                None => old(self).durations(),
            },
            final(self).errors() == old(self).errors(),
    {
        if let Some(m) = method {
            self.request_durations.add(m, duration_us);
        }
    }

    /// Count an error of a method, when the method is known.
    pub fn record_error(&mut self, method: Option<&str>)
        ensures
            final(self).service() == old(self).service(),
            final(self).requests() == old(self).requests(),
            final(self).durations() == old(self).durations(),
            final(self).errors() == match method {
                Some(m) => old(self).errors().insert(
                    m@,
                    count_of(old(self).errors(), m@).wrapping_add(1),
                ),
                None => old(self).errors(),
            },
    {
        if let Some(m) = method {
            self.error_counts.add(m, 1);
        }
    }

    /// Get request count for a method.
    pub fn get_request_count(&self, method: &str) -> (r: u64)
        ensures
            r == count_of(self.requests(), method@),
    {
        self.request_counts.get(method)
    }

    /// Get error count for a method.
    pub fn get_error_count(&self, method: &str) -> (r: u64)
        ensures
            r == count_of(self.errors(), method@),
    {
        self.error_counts.get(method)
    }

    /// Average duration of a method in microseconds; zero when it was never
    /// requested.
    pub fn get_average_duration(&self, method: &str) -> (r: u64)
        ensures
            r == (if count_of(self.requests(), method@) > 0 {
                count_of(self.durations(), method@) / count_of(self.requests(), method@)
            } else {
                0
            }),
    {
        let total = self.request_durations.get(method);
        let count = self.get_request_count(method);
        if count > 0 {
            total / count
        } else {
            0
        }
    }
}

/// Compression algorithm.
#[derive(Debug, Clone, Copy, PartialEq, Eq, Structural)]
pub enum CompressionType {
    /// No compression
    Uncompressed,
    /// Gzip compression
    Gzip,
    /// Deflate compression
    Deflate,
}

/// Compression middleware settings.
#[derive(Debug)]
pub struct CompressionMiddleware {
    compression_type: CompressionType,
    min_size: usize,
}

impl CompressionMiddleware {
    /// The algorithm and the smallest size that is compressed.
    pub closed spec fn settings(&self) -> (CompressionType, usize) {
        (self.compression_type, self.min_size)
    }

    /// Create a new compression middleware.
    pub fn new(compression_type: CompressionType, min_size: usize) -> (c: CompressionMiddleware)
        ensures
            c.settings() == (compression_type, min_size),
    {
        CompressionMiddleware { compression_type, min_size }
    }

    /// Content is compressed when it is at least the minimum size and an
    /// algorithm is chosen.
    pub fn should_compress(&self, content_size: usize) -> (b: bool)
        ensures
            b == (content_size >= self.settings().1 && self.settings().0 != CompressionType::Uncompressed),
    {
        content_size >= self.min_size && !matches!(self.compression_type, CompressionType::Uncompressed)
    }

    /// The name of the algorithm, as recorded in the context's metadata.
    pub fn compression_name(&self) -> (s: String)
        ensures
            s@ == match self.settings().0 {
                CompressionType::Uncompressed => "None"@,
                CompressionType::Gzip => "Gzip"@,
                CompressionType::Deflate => "Deflate"@,
            },
    {
        match self.compression_type {
            CompressionType::Uncompressed => "None".to_owned(),
            CompressionType::Gzip => "Gzip".to_owned(),
            CompressionType::Deflate => "Deflate".to_owned(),
        }
    }
}

/// Retry settings with exponential backoff.
#[derive(Debug, Clone, Copy, PartialEq, Eq, Structural)]
pub struct RetryMiddleware {
    max_retries: u32,
    initial_delay_ms: u64,
    max_delay_ms: u64,
}

impl RetryMiddleware {
    /// Retries, first delay and largest delay.
    pub closed spec fn settings(&self) -> (u32, u64, u64) {
        (self.max_retries, self.initial_delay_ms, self.max_delay_ms)
    }

    /// Create a new retry middleware.
    pub fn new(max_retries: u32, initial_delay_ms: u64, max_delay_ms: u64) -> (r: RetryMiddleware)
        ensures
            r.settings() == (max_retries, initial_delay_ms, max_delay_ms),
    {
        RetryMiddleware { max_retries, initial_delay_ms, max_delay_ms }
    }

    /// The number of retries.
    pub fn max_retries(&self) -> (n: u32)
        ensures
            n == self.settings().0,
    {
        self.max_retries
    }
}

impl Default for RetryMiddleware {
    /// Three retries, starting at one second, at most thirty seconds.
    fn default() -> (r: RetryMiddleware)
        ensures
            r.settings() == (3u32, 1000u64, 30000u64),
    {
        RetryMiddleware::new(3, 1000, 30000)
    }
}

/// Authentication middleware settings.
#[derive(Debug, Clone)]
pub struct AuthMiddleware {
    auth_token: String,
}

impl AuthMiddleware {
    /// The token that requests carry.
    pub closed spec fn token(&self) -> Seq<char> {
        self.auth_token@
    }

    /// Create a new auth middleware with the given token.
    pub fn new(auth_token: String) -> (a: AuthMiddleware)
        ensures
            a.token() == auth_token@,
    {
        AuthMiddleware { auth_token }
    }
}

} // verus!
