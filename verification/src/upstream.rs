//! Upstream selection and failover policy.
//!
//! A pool of endpoints, each with a health deadline. Selection is
//! round-robin over the healthy ones. Per query: UDP first; a truncated
//! reply or a timeout falls back to TCP on the same endpoint; a TCP
//! failure marks the endpoint unhealthy for the cooldown window and moves
//! to the next endpoint, up to the attempt budget. The surrounding
//! application performs the sends and hands the outcome back as an event.

use vstd::prelude::*;

verus! {

/// One upstream endpoint: its identifier and the instant its cooldown
/// ends.
#[derive(Clone, Copy, PartialEq, Eq, Structural, Debug)]
pub struct Endpoint {
    pub id: u32,
    pub unhealthy_until: u64,
}

/// The endpoint may be used at `now`.
pub open spec fn healthy(e: Endpoint, now: u64) -> bool {
    e.unhealthy_until <= now
}

/// The pool with its round-robin cursor and policy knobs.
pub struct UpstreamPool {
    endpoints: Vec<Endpoint>,
    rr_next: usize,
    cooldown_ms: u64,
    max_attempts: u32,
}

/// Which transport the current attempt uses.
#[derive(Clone, Copy, PartialEq, Eq, Structural, Debug)]
pub enum Phase {
    Udp,
    Tcp,
}

/// The in-flight state of one resolution.
#[derive(Clone, Copy, PartialEq, Eq, Structural, Debug)]
pub struct ResolveState {
    pub current: usize,
    pub phase: Phase,
    pub attempts: u32,
}

/// What the application must do next.
#[derive(Clone, Copy, PartialEq, Eq, Structural, Debug)]
pub enum ResolveAction {
    SendUdp(usize),
    SendTcp(usize),
    Deliver,
    Fail,
}

/// What came back from the last send.
#[derive(Clone, Copy, PartialEq, Eq, Structural, Debug)]
pub enum UpstreamEvent {
    Reply { truncated: bool },
    Timeout,
    Failed,
}

impl UpstreamPool {
    pub closed spec fn spec_endpoints(&self) -> Seq<Endpoint> {
        self.endpoints@
    }

    pub closed spec fn spec_rr(&self) -> int {
        self.rr_next as int
    }

    pub closed spec fn spec_cooldown(&self) -> int {
        self.cooldown_ms as int
    }

    pub closed spec fn spec_max_attempts(&self) -> int {
        self.max_attempts as int
    }

    pub open spec fn wf(&self) -> bool {
        &&& self.spec_endpoints().len() >= 1
        &&& 0 <= self.spec_rr() < self.spec_endpoints().len()
        &&& self.spec_max_attempts() >= 1
    }

    /// Every endpoint is cooling down at `now`.
    pub open spec fn all_unhealthy(&self, now: u64) -> bool {
        forall|i: int|
            0 <= i < self.spec_endpoints().len() ==> !healthy(
                #[trigger] self.spec_endpoints()[i],
                now,
            )
    }

    /// A pool over the given endpoint identifiers, all healthy.
    pub fn new(ids: &Vec<u32>, cooldown_ms: u64, max_attempts: u32) -> (r: UpstreamPool)
        requires
            ids@.len() >= 1,
            max_attempts >= 1,
        ensures
            r.wf(),
            r.spec_endpoints().len() == ids@.len(),
            forall|i: int|
                0 <= i < ids@.len() ==> (#[trigger] r.spec_endpoints()[i]) == (Endpoint {
                    id: ids@[i],
                    unhealthy_until: 0,
                }),
            r.spec_cooldown() == cooldown_ms,
            r.spec_max_attempts() == max_attempts,
    {
        let mut endpoints: Vec<Endpoint> = Vec::new();
        let mut i: usize = 0;
        while i < ids.len()
            invariant
                i <= ids@.len(),
                endpoints@.len() == i,
                forall|j: int|
                    0 <= j < i ==> (#[trigger] endpoints@[j]) == (Endpoint {
                        id: ids@[j],
                        unhealthy_until: 0,
                    }),
            decreases ids@.len() - i,
        {
            endpoints.push(Endpoint { id: ids[i], unhealthy_until: 0 });
            i += 1;
        }
        UpstreamPool { endpoints, rr_next: 0, cooldown_ms, max_attempts }
    }

    /// Round-robin over the healthy endpoints: the first healthy index at
    /// or after the cursor, else the first before it; none when every
    /// endpoint is cooling down.
    pub fn select(&mut self, now: u64) -> (r: Option<usize>)
        requires
            old(self).wf(),
        ensures
            final(self).wf(),
            final(self).spec_endpoints() == old(self).spec_endpoints(),
            final(self).spec_cooldown() == old(self).spec_cooldown(),
            final(self).spec_max_attempts() == old(self).spec_max_attempts(),
            (r is None) == old(self).all_unhealthy(now),
            r matches Some(i) ==> 0 <= i < old(self).spec_endpoints().len() && healthy(
                old(self).spec_endpoints()[i as int],
                now,
            ),
            r matches Some(i) ==> (i >= old(self).spec_rr() && forall|j: int|
                old(self).spec_rr() <= j < i ==> !healthy(
                    #[trigger] old(self).spec_endpoints()[j],
                    now,
                )) || (i < old(self).spec_rr() && (forall|j: int|
                old(self).spec_rr() <= j < old(self).spec_endpoints().len() ==> !healthy(
                    #[trigger] old(self).spec_endpoints()[j],
                    now,
                )) && (forall|j: int|
                0 <= j < i ==> !healthy(#[trigger] old(self).spec_endpoints()[j], now))),
    {
        let n = self.endpoints.len();
        let start = self.rr_next;
        let mut i: usize = start;
        while i < n
            invariant
                *self == *old(self),
                self.wf(),
                n == self.spec_endpoints().len(),
                start == self.spec_rr(),
                start <= i <= n,
                forall|j: int| start <= j < i ==> !healthy(
                    #[trigger] self.spec_endpoints()[j],
                    now,
                ),
            decreases n - i,
        {
            if self.endpoints[i].unhealthy_until <= now {
                self.rr_next = if i + 1 < n {
                    i + 1
                } else {
                    0
                };
                return Some(i);
            }
            i += 1;
        }
        let mut i: usize = 0;
        while i < start
            invariant
                *self == *old(self),
                self.wf(),
                n == self.spec_endpoints().len(),
                start == self.spec_rr(),
                i <= start,
                forall|j: int| start <= j < n ==> !healthy(
                    #[trigger] self.spec_endpoints()[j],
                    now,
                ),
                forall|j: int| 0 <= j < i ==> !healthy(#[trigger] self.spec_endpoints()[j], now),
            decreases start - i,
        {
            if self.endpoints[i].unhealthy_until <= now {
                self.rr_next = if i + 1 < n {
                    i + 1
                } else {
                    0
                };
                return Some(i);
            }
            i += 1;
        }
        None
    }

    /// Put an endpoint on cooldown until `now + cooldown`.
    pub fn mark_unhealthy(&mut self, i: usize, now: u64)
        requires
            old(self).wf(),
            i < old(self).spec_endpoints().len(),
        ensures
            final(self).wf(),
            final(self).spec_endpoints().len() == old(self).spec_endpoints().len(),
            final(self).spec_cooldown() == old(self).spec_cooldown(),
            final(self).spec_max_attempts() == old(self).spec_max_attempts(),
            final(self).spec_rr() == old(self).spec_rr(),
            (final(self).spec_endpoints()[i as int]).id == (old(
                self,
            ).spec_endpoints()[i as int]).id,
            (final(self).spec_endpoints()[i as int]).unhealthy_until == if now + old(
                self,
            ).spec_cooldown() <= u64::MAX {
                now + old(self).spec_cooldown()
            } else {
                u64::MAX as int
            },
            forall|j: int|
                0 <= j < old(self).spec_endpoints().len() && j != i
                    ==> final(self).spec_endpoints()[j] == old(self).spec_endpoints()[j],
    {
        let id = self.endpoints[i].id;
        let until: u64 = if now <= u64::MAX - self.cooldown_ms {
            now + self.cooldown_ms
        } else {
            u64::MAX
        };
        self.endpoints[i] = Endpoint { id, unhealthy_until: until };
    }

    /// Begin one resolution: pick an endpoint and send over UDP, or fail
    /// at once when every endpoint is cooling down.
    pub fn start_resolve(&mut self, now: u64) -> (r: (Option<ResolveState>, ResolveAction))
        requires
            old(self).wf(),
        ensures
            final(self).wf(),
            final(self).spec_endpoints() == old(self).spec_endpoints(),
            final(self).spec_cooldown() == old(self).spec_cooldown(),
            final(self).spec_max_attempts() == old(self).spec_max_attempts(),
            old(self).all_unhealthy(now) ==> r.0 is None && r.1 == ResolveAction::Fail,
            !old(self).all_unhealthy(now) ==> (r.0 matches Some(st) && st.phase == Phase::Udp
                && st.attempts == 1 && st.current < old(self).spec_endpoints().len() && healthy(
                old(self).spec_endpoints()[st.current as int],
                now,
            ) && r.1 == ResolveAction::SendUdp(st.current)),
    {
        match self.select(now) {
            None => (None, ResolveAction::Fail),
            Some(i) => (
                Some(ResolveState { current: i, phase: Phase::Udp, attempts: 1 }),
                ResolveAction::SendUdp(i),
            ),
        }
    }

    /// Advance one resolution on an upstream event. An untruncated reply
    /// is delivered; a truncated or missing UDP reply retries over TCP on
    /// the same endpoint; a TCP failure cools the endpoint down and moves
    /// on, until the attempt budget is spent.
    pub fn on_event(&mut self, st: ResolveState, ev: UpstreamEvent, now: u64) -> (r: (
        Option<ResolveState>,
        ResolveAction,
    ))
        requires
            old(self).wf(),
            st.current < old(self).spec_endpoints().len(),
        ensures
            final(self).wf(),
            final(self).spec_endpoints().len() == old(self).spec_endpoints().len(),
            final(self).spec_cooldown() == old(self).spec_cooldown(),
            final(self).spec_max_attempts() == old(self).spec_max_attempts(),
            // an untruncated reply is delivered as-is
            (ev matches UpstreamEvent::Reply { truncated } && !truncated) ==> (r.1
                == ResolveAction::Deliver && final(self).spec_endpoints() == old(
                self,
            ).spec_endpoints()),
            // a TCP reply is delivered even when marked truncated
            (st.phase == Phase::Tcp && ev matches UpstreamEvent::Reply { truncated }) ==> r.1
                == ResolveAction::Deliver,
            // UDP truncation or timeout falls back to TCP on the same endpoint
            st.phase == Phase::Udp && (ev == (UpstreamEvent::Reply { truncated: true }) || ev
                == UpstreamEvent::Timeout || ev == UpstreamEvent::Failed) ==> r.0 == Some(
                ResolveState { current: st.current, phase: Phase::Tcp, attempts: st.attempts },
            ) && r.1 == ResolveAction::SendTcp(st.current) && final(self).spec_endpoints() == old(
                self,
            ).spec_endpoints(),
            // TCP failure: the endpoint cools down; out of budget fails
            st.phase == Phase::Tcp && (ev == UpstreamEvent::Timeout || ev
                == UpstreamEvent::Failed) ==> !healthy(
                final(self).spec_endpoints()[st.current as int],
                now,
            ) || old(self).spec_cooldown() == 0 || now == u64::MAX,
            st.phase == Phase::Tcp && (ev == UpstreamEvent::Timeout || ev == UpstreamEvent::Failed)
                && st.attempts >= old(self).spec_max_attempts() ==> r.1 == ResolveAction::Fail,
            // within budget, the next attempt is UDP on a healthy endpoint,
            // or the query fails when none is left
            st.phase == Phase::Tcp && (ev == UpstreamEvent::Timeout || ev == UpstreamEvent::Failed)
                && st.attempts < old(self).spec_max_attempts() ==> (r.1 == ResolveAction::Fail || (
            r.0 matches Some(st2) && st2.phase == Phase::Udp && st2.attempts == st.attempts + 1
                && st2.current < old(self).spec_endpoints().len() && healthy(
                final(self).spec_endpoints()[st2.current as int],
                now,
            ) && r.1 == ResolveAction::SendUdp(st2.current))),
    {
        match ev {
            UpstreamEvent::Reply { truncated } => {
                if !truncated || st.phase == Phase::Tcp {
                    return (None, ResolveAction::Deliver);
                }
                // truncated UDP reply: retry over TCP
                (
                    Some(ResolveState { current: st.current, phase: Phase::Tcp, attempts: st.attempts }),
                    ResolveAction::SendTcp(st.current),
                )
            },
            UpstreamEvent::Timeout | UpstreamEvent::Failed => {
                if st.phase == Phase::Udp {
                    return (
                        Some(
                            ResolveState {
                                current: st.current,
                                phase: Phase::Tcp,
                                attempts: st.attempts,
                            },
                        ),
                        ResolveAction::SendTcp(st.current),
                    );
                }
                self.mark_unhealthy(st.current, now);
                if st.attempts >= self.max_attempts {
                    return (None, ResolveAction::Fail);
                }
                match self.select(now) {
                    None => (None, ResolveAction::Fail),
                    Some(i) => (
                        Some(
                            ResolveState {
                                current: i,
                                phase: Phase::Udp,
                                attempts: st.attempts + 1,
                            },
                        ),
                        ResolveAction::SendUdp(i),
                    ),
                }
            },
        }
    }
}

} // verus!
