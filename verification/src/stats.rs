//! Process-wide counters and derived figures: query totals, cache hits,
//! threats blocked, errors, a latency moving average, and the rate-limit
//! rule.
//!
//! The latency average is an exponential moving average with
//! coefficients 0.9 and 0.1, kept exact in milli-units of a millisecond:
//! `avg' = (9 * avg + 1000 * sample) / 10`, rounded down.

use vstd::prelude::*;

verus! {

/// The new exponential moving average after one sample, in milli-units.
pub open spec fn spec_ema_milli(avg_milli: u64, sample_ms: u64) -> int {
    (9 * avg_milli + 1000 * sample_ms) / 10
}

/// Server-wide counters.
pub struct ServerStats {
    pub total_queries: u64,
    pub cache_hits: u64,
    pub threats_blocked: u64,
    pub ai_suggestions: u64,
    pub errors: u64,
    pub average_response_time_milli: u64,
}

impl ServerStats {
    pub open spec fn wf(&self) -> bool {
        self.average_response_time_milli <= 0x1000_0000_0000_0000
    }

    /// All-zero counters.
    pub fn new() -> (r: ServerStats)
        ensures
            r.wf(),
            r.total_queries == 0,
            r.cache_hits == 0,
            r.threats_blocked == 0,
            r.ai_suggestions == 0,
            r.errors == 0,
            r.average_response_time_milli == 0,
    {
        ServerStats {
            total_queries: 0,
            cache_hits: 0,
            threats_blocked: 0,
            ai_suggestions: 0,
            errors: 0,
            average_response_time_milli: 0,
        }
    }

    /// Account one finished query: bump the counters its flags call for
    /// and fold its latency into the moving average.
    pub fn record_query(
        &mut self,
        response_time_ms: u64,
        cache_hit: bool,
        threat_detected: bool,
    )
        requires
            old(self).wf(),
            response_time_ms <= 86400000,
        ensures
            final(self).wf(),
            final(self).total_queries == if old(self).total_queries < u64::MAX {
                old(self).total_queries + 1
            } else {
                old(self).total_queries as int
            },
            final(self).cache_hits == old(self).cache_hits + if cache_hit && old(self).cache_hits
                < u64::MAX {
                1int
            } else {
                0int
            },
            final(self).threats_blocked == old(self).threats_blocked + if threat_detected && old(
                self,
            ).threats_blocked < u64::MAX {
                1int
            } else {
                0int
            },
            final(self).average_response_time_milli == spec_ema_milli(
                old(self).average_response_time_milli,
                response_time_ms,
            ),
            final(self).errors == old(self).errors,
            final(self).ai_suggestions == old(self).ai_suggestions,
    {
        if self.total_queries < u64::MAX {
            self.total_queries = self.total_queries + 1;
        }
        if cache_hit && self.cache_hits < u64::MAX {
            self.cache_hits = self.cache_hits + 1;
        }
        if threat_detected && self.threats_blocked < u64::MAX {
            self.threats_blocked = self.threats_blocked + 1;
        }
        self.average_response_time_milli = (9 * self.average_response_time_milli + 1000
            * response_time_ms) / 10;
        proof {
            assert(self.average_response_time_milli <= 0x1000_0000_0000_0000);
        }
    }

    /// Count one error.
    pub fn record_error(&mut self)
        ensures
            final(self).errors == if old(self).errors < u64::MAX {
                old(self).errors + 1
            } else {
                old(self).errors as int
            },
            final(self).total_queries == old(self).total_queries,
            final(self).cache_hits == old(self).cache_hits,
            final(self).threats_blocked == old(self).threats_blocked,
            final(self).ai_suggestions == old(self).ai_suggestions,
            final(self).average_response_time_milli == old(self).average_response_time_milli,
            old(self).wf() ==> final(self).wf(),
    {
        if self.errors < u64::MAX {
            self.errors = self.errors + 1;
        }
    }

    /// Cache hits per thousand queries, rounded down; zero with no
    /// queries yet.
    pub fn cache_hit_rate_permille(&self) -> (r: u64)
        requires
            self.cache_hits <= self.total_queries,
        ensures
            self.total_queries == 0 ==> r == 0,
            self.total_queries > 0 ==> r == (self.cache_hits * 1000) as int / (
            self.total_queries as int),
            r <= 1000,
    {
        if self.total_queries == 0 {
            0
        } else {
            proof {
                assert(self.cache_hits * 1000 <= self.total_queries * 1000) by (nonlinear_arith)
                    requires
                        self.cache_hits <= self.total_queries,
                ;
                assert((self.cache_hits * 1000) as int / (self.total_queries as int) <= 1000)
                    by (nonlinear_arith)
                    requires
                        self.total_queries >= 1 && self.cache_hits <= self.total_queries,
                ;
            }
            let wide: u128 = ((self.cache_hits as u128) * 1000) / (self.total_queries as u128);
            proof {
                assert(wide == (self.cache_hits * 1000) as int / (self.total_queries as int));
            }
            wide as u64
        }
    }
}

/// The state of a connection pool, as reported to the admin surface.
pub struct PoolStatus {
    pub connections: u32,
    pub idle_connections: u32,
    pub max_size: u32,
}

/// The outcome of one rate-limit check.
pub struct RateLimitResult {
    pub allowed: bool,
    pub count: u32,
    pub limit: u32,
    pub remaining: u32,
}

/// The rate-limit rule over a window's running count: allowed while the
/// count stays within the limit, with the remainder reported.
pub fn evaluate_rate_limit(current_count: i64, limit: u32) -> (r: RateLimitResult)
    requires
        current_count >= 1,
    ensures
        r.allowed == (current_count <= limit),
        r.limit == limit,
        r.allowed ==> r.count == current_count && r.remaining == limit - current_count,
        !r.allowed ==> r.remaining == 0,
{
    let allowed = current_count <= limit as i64;
    let remaining: u32 = if allowed {
        (limit as i64 - current_count) as u32
    } else {
        0
    };
    let count: u32 = if current_count <= u32::MAX as i64 {
        current_count as u32
    } else {
        u32::MAX
    };
    RateLimitResult { allowed, count, limit, remaining }
}

/// Aggregate counts over one query log window.
pub struct QueryStats {
    pub total_queries: i64,
    pub unique_domains: i64,
    pub top_domains: Vec<(String, i64)>,
    pub query_types: Vec<(String, i64)>,
}

} // verus!
