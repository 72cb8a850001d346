//! The telemetry tap: a bounded queue of per-query records with a
//! drop-on-full policy.
//!
//! `offer` never blocks and never fails: at capacity the record is
//! dropped and counted. A consumer drains the queue and forwards the
//! records to the external sink.

use vstd::prelude::*;
use crate::cache::{key_view, QueryKey};
use crate::classify::{reasons_view, Decision};
use crate::typo::clone_bytes;

verus! {

/// One per-query record, written once per accepted datagram.
pub struct QueryRecord {
    pub name: Vec<u8>,
    pub qtype: u16,
    pub client_addr: Vec<u8>,
    pub started_at: u64,
    pub finished_at: u64,
    pub response_code: u8,
    pub threat_detected: bool,
    pub cache_hit: bool,
    pub upstream_used: Option<u32>,
    pub decision_reasons: Vec<String>,
}

/// The tap: a bounded queue plus a counter of dropped records.
pub struct TelemetryTap {
    queue: Vec<QueryRecord>,
    capacity: usize,
    dropped: u64,
}

impl TelemetryTap {
    pub closed spec fn spec_queue(&self) -> Seq<QueryRecord> {
        self.queue@
    }

    pub closed spec fn spec_capacity(&self) -> int {
        self.capacity as int
    }

    pub closed spec fn spec_dropped(&self) -> int {
        self.dropped as int
    }

    pub open spec fn wf(&self) -> bool {
        self.spec_queue().len() <= self.spec_capacity()
    }

    /// An empty tap with the given capacity.
    pub fn new(capacity: usize) -> (r: TelemetryTap)
        ensures
            r.wf(),
            r.spec_queue().len() == 0,
            r.spec_capacity() == capacity,
            r.spec_dropped() == 0,
    {
        TelemetryTap { queue: Vec::new(), capacity, dropped: 0 }
    }

    /// Hand a record to the tap without blocking: queued when there is
    /// room, otherwise dropped and counted.
    pub fn offer(&mut self, rec: QueryRecord)
        requires
            old(self).wf(),
        ensures
            final(self).wf(),
            final(self).spec_capacity() == old(self).spec_capacity(),
            old(self).spec_queue().len() < old(self).spec_capacity() ==> {
                &&& final(self).spec_queue() == old(self).spec_queue().push(rec)
                &&& final(self).spec_dropped() == old(self).spec_dropped()
            },
            old(self).spec_queue().len() >= old(self).spec_capacity() ==> {
                &&& final(self).spec_queue() == old(self).spec_queue()
                &&& final(self).spec_dropped() == if old(self).spec_dropped() < u64::MAX {
                    old(self).spec_dropped() + 1
                } else {
                    old(self).spec_dropped()
                }
            },
    {
        if self.queue.len() < self.capacity {
            self.queue.push(rec);
        } else {
            if self.dropped < u64::MAX {
                self.dropped = self.dropped + 1;
            }
        }
    }

    /// Take every queued record, leaving the queue empty. The dropped
    /// counter is unchanged.
    pub fn drain(&mut self) -> (r: Vec<QueryRecord>)
        ensures
            r@ == old(self).spec_queue(),
            final(self).spec_queue().len() == 0,
            final(self).spec_capacity() == old(self).spec_capacity(),
            final(self).spec_dropped() == old(self).spec_dropped(),
            final(self).wf(),
    {
        let mut out: Vec<QueryRecord> = Vec::new();
        core::mem::swap(&mut self.queue, &mut out);
        out
    }

    /// How many records were dropped for want of room.
    pub fn dropped_count(&self) -> (r: u64)
        ensures
            r == self.spec_dropped(),
    {
        self.dropped
    }

    /// How many records wait in the queue.
    pub fn queued_count(&self) -> (r: usize)
        ensures
            r == self.spec_queue().len(),
    {
        self.queue.len()
    }
}

/// The sink retry delay: the base doubled per failed attempt, never
/// above thirty seconds.
pub open spec fn spec_backoff_ms(base_ms: u64, attempt: nat) -> int
    decreases attempt,
{
    if attempt == 0 {
        if base_ms > 30000 {
            30000
        } else {
            base_ms as int
        }
    } else {
        let prev = spec_backoff_ms(base_ms, (attempt - 1) as nat);
        if 2 * prev > 30000 {
            30000
        } else {
            2 * prev
        }
    }
}

/// Compute the delay before the next forward attempt to the sink.
pub fn backoff_ms(base_ms: u64, attempt: u32) -> (r: u64)
    ensures
        r == spec_backoff_ms(base_ms, attempt as nat),
        r <= 30000,
{
    let mut v: u64 = if base_ms > 30000 {
        30000
    } else {
        base_ms
    };
    let mut i: u32 = 0;
    while i < attempt
        invariant
            i <= attempt,
            v == spec_backoff_ms(base_ms, i as nat),
            v <= 30000,
        decreases attempt - i,
    {
        v = if 2 * v > 30000 {
            30000
        } else {
            2 * v
        };
        i += 1;
    }
    v
}

/// Build the record for one finished query: the key, the client, both
/// instants, the outcome flags and the decision's reasons, each field
/// exactly as handed in.
pub fn make_query_record(
    key: &QueryKey,
    client_addr: Vec<u8>,
    started_at: u64,
    finished_at: u64,
    response_code: u8,
    threat_detected: bool,
    cache_hit: bool,
    upstream_used: Option<u32>,
    decision: &Decision,
) -> (r: QueryRecord)
    ensures
        (r.name@, r.qtype) == key_view(*key),
        r.client_addr@ == client_addr@,
        r.started_at == started_at,
        r.finished_at == finished_at,
        r.response_code == response_code,
        r.threat_detected == threat_detected,
        r.cache_hit == cache_hit,
        r.upstream_used == upstream_used,
        reasons_view(r.decision_reasons) == reasons_view(decision.reasons),
{
    let reasons: Vec<String> = decision.reasons.clone();
    proof {
        broadcast use vstd::std_specs::vec::vec_clone_deep_view_proof;

        assert(reasons.deep_view() == decision.reasons.deep_view());
        assert forall|k: int| 0 <= k < reasons@.len() implies reasons_view(reasons)[k]
            == reasons_view(decision.reasons)[k] by {
            assert(reasons.deep_view()[k] == decision.reasons.deep_view()[k]);
        }
        assert(reasons_view(reasons) =~= reasons_view(decision.reasons));
    }
    QueryRecord {
        name: clone_bytes(key.name.as_bytes()),
        qtype: key.qtype,
        client_addr,
        started_at,
        finished_at,
        response_code,
        threat_detected,
        cache_hit,
        upstream_used,
        decision_reasons: reasons,
    }
}

} // verus!
