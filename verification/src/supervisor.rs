//! Connection supervision: at most one live link, reconnection against an
//! ordered endpoint list in round-robin order, and an edge-triggered
//! connection signal for the presentation layer.
//!
//! The supervisor is a pure state machine. Each periodic cycle performs one
//! transport operation — a non-blocking read probe when a link is held, a
//! connection attempt when none is — and this machine, given that
//! operation's outcome, decides the next state and whether to notify.

use vstd::prelude::*;
use crate::link::{LinkError, ReadState};
use vstd::arithmetic::div_mod::{
    lemma_add_mod_noop, lemma_mod_add_multiples_vanish, lemma_mod_bound, lemma_mod_equivalence,
    lemma_mod_twice, lemma_small_mod,
};

verus! {

/// The result of the one transport operation a supervisor cycle performs.
#[derive(PartialEq, Eq, Structural, Clone, Copy, Debug)]
pub enum CycleOutcome {
    /// The read probe returned data: the link is alive.
    ReadMessage,
    /// The read probe would have blocked: no data, the link is alive.
    ReadWouldBlock,
    /// The read probe saw a graceful remote close.
    ReadDisconnected,
    /// The read probe failed with an error.
    ReadFailed,
    /// The connection attempt produced a fresh link.
    ConnectOk,
    /// The connection attempt failed.
    ConnectFailed,
}

/// The outcome belongs to a read probe (a link was held).
pub open spec fn is_read_outcome(o: CycleOutcome) -> bool {
    o == CycleOutcome::ReadMessage || o == CycleOutcome::ReadWouldBlock || o
        == CycleOutcome::ReadDisconnected || o == CycleOutcome::ReadFailed
}

/// The outcome belongs to a connection attempt (no link was held).
pub open spec fn is_connect_outcome(o: CycleOutcome) -> bool {
    o == CycleOutcome::ConnectOk || o == CycleOutcome::ConnectFailed
}

/// The outcome leaves a live link behind.
pub open spec fn outcome_alive(o: CycleOutcome) -> bool {
    o == CycleOutcome::ReadMessage || o == CycleOutcome::ReadWouldBlock || o
        == CycleOutcome::ConnectOk
}

/// How a cycle reads a finished read probe.
pub open spec fn spec_classify_read(r: Result<ReadState, LinkError>) -> CycleOutcome {
    match r {
        Ok(ReadState::Message(_)) => CycleOutcome::ReadMessage,
        Ok(ReadState::WouldBlock) => CycleOutcome::ReadWouldBlock,
        Ok(ReadState::Disconnected) => CycleOutcome::ReadDisconnected,
        Err(_) => CycleOutcome::ReadFailed,
    }
}

/// Classifies a read probe's result: data and would-block keep the link,
/// a graceful close and any error condemn it.
pub fn classify_read(r: &Result<ReadState, LinkError>) -> (o: CycleOutcome)
    ensures
        o == spec_classify_read(*r),
        is_read_outcome(o),
        outcome_alive(o) <==> (*r matches Ok(ReadState::Message(_)) || *r matches Ok(
            ReadState::WouldBlock,
        )),
{
    match r {
        Ok(ReadState::Message(_)) => CycleOutcome::ReadMessage,
        Ok(ReadState::WouldBlock) => CycleOutcome::ReadWouldBlock,
        Ok(ReadState::Disconnected) => CycleOutcome::ReadDisconnected,
        Err(_) => CycleOutcome::ReadFailed,
    }
}

/// The supervisor's state: how many endpoints it cycles through, which one
/// the next connection attempt targets, whether the shared slot holds a
/// link, and the connection signal reported after the previous cycle.
pub struct Supervisor {
    /// Number of candidate endpoints; fixed after startup.
    pub n_endpoints: usize,
    /// Index of the endpoint the next connection attempt targets.
    pub index: usize,
    /// The shared slot holds a live link.
    pub link_present: bool,
    /// The connection signal as of the previous cycle.
    pub last_signal: bool,
}

impl Supervisor {
    /// At least one endpoint, and the target index stays in range.
    pub open spec fn wf(&self) -> bool {
        0 < self.n_endpoints && self.index < self.n_endpoints
    }

    /// A fresh supervisor: no link, first endpoint targeted, signal down.
    pub fn new(n_endpoints: usize) -> (r: Supervisor)
        requires
            n_endpoints > 0,
        ensures
            r.wf(),
            r.n_endpoints == n_endpoints,
            r.index == 0,
            !r.link_present,
            !r.last_signal,
    {
        Supervisor { n_endpoints, index: 0, link_present: false, last_signal: false }
    }

    /// Runs one supervisor cycle on the given outcome.
    ///
    /// The link slot afterwards holds a link exactly when the outcome left
    /// one alive; a failed connection attempt advances the endpoint index
    /// by one, round-robin; and a notification is returned exactly when the
    /// computed connection signal differs from the previous cycle's —
    /// edge-triggered, never on a mere poll.
    pub fn cycle(&mut self, outcome: CycleOutcome) -> (notify: Option<bool>)
        requires
            old(self).wf(),
            old(self).link_present ==> is_read_outcome(outcome),
            !old(self).link_present ==> is_connect_outcome(outcome),
        ensures
            final(self).wf(),
            *final(self) == spec_cycle_state(*old(self), outcome),
            final(self).n_endpoints == old(self).n_endpoints,
            final(self).link_present == outcome_alive(outcome),
            final(self).last_signal == outcome_alive(outcome),
            final(self).index as int == if outcome == CycleOutcome::ConnectFailed {
                (old(self).index + 1) as int % old(self).n_endpoints as int
            } else {
                old(self).index as int
            },
            notify == if outcome_alive(outcome) != old(self).last_signal {
                Some(outcome_alive(outcome))
            } else {
                None::<bool>
            },
    {
        let alive = match outcome {
            CycleOutcome::ReadMessage => true,
            CycleOutcome::ReadWouldBlock => true,
            CycleOutcome::ConnectOk => true,
            _ => false,
        };
        if outcome == CycleOutcome::ConnectFailed {
            self.index = (self.index + 1) % self.n_endpoints;
        }
        self.link_present = alive;
        let notify = if alive != self.last_signal {
            Some(alive)
        } else {
            None
        };
        self.last_signal = alive;
        notify
    }

    /// Records the outcome of one best-effort send through the held link.
    ///
    /// A failed send discards the link — the slot is cleared, so the next
    /// cycle attempts a fresh connection instead of reusing a stale link —
    /// and fires a disconnect notification, since the link was alive. A
    /// successful send changes nothing.
    pub fn send_result(&mut self, ok: bool) -> (notify: Option<bool>)
        requires
            old(self).wf(),
            old(self).link_present,
        ensures
            final(self).wf(),
            final(self).n_endpoints == old(self).n_endpoints,
            final(self).index == old(self).index,
            final(self).last_signal == old(self).last_signal,
            final(self).link_present == ok,
            notify == if ok {
                None::<bool>
            } else {
                Some(false)
            },
    {
        if ok {
            None
        } else {
            self.link_present = false;
            Some(false)
        }
    }
}

/// The state one supervisor cycle leaves behind on the given outcome.
pub open spec fn spec_cycle_state(s: Supervisor, outcome: CycleOutcome) -> Supervisor {
    Supervisor {
        n_endpoints: s.n_endpoints,
        index: if outcome == CycleOutcome::ConnectFailed {
            ((s.index as int + 1) % s.n_endpoints as int) as usize
        } else {
            s.index
        },
        link_present: outcome_alive(outcome),
        last_signal: outcome_alive(outcome),
    }
}

/// The state after `k` consecutive cycles whose connection attempts all
/// failed.
pub open spec fn run_failed_attempts(s: Supervisor, k: nat) -> Supervisor
    decreases k,
{
    if k == 0 {
        s
    } else {
        run_failed_attempts(spec_cycle_state(s, CycleOutcome::ConnectFailed), (k - 1) as nat)
    }
}

/// The endpoint the k-th consecutive failed connection attempt targets,
/// counting from a state whose next target is `start`.
pub open spec fn target_after_failures(start: int, k: int, n: int) -> int
    recommends
        0 < n,
{
    (start + k) % n
}

/// Where a run of failed connection attempts stands: after `k` failed
/// cycles from a well-formed state, the machine is still well-formed, no
/// link is held once any cycle ran, and the next attempt targets endpoint
/// `(start + k) % n` — the round-robin walk of the endpoint list.
pub proof fn lemma_failed_attempts_round_robin(s: Supervisor, k: nat)
    requires
        s.wf(),
    ensures
        run_failed_attempts(s, k).wf(),
        run_failed_attempts(s, k).n_endpoints == s.n_endpoints,
        k > 0 ==> !run_failed_attempts(s, k).link_present,
        run_failed_attempts(s, k).index as int == target_after_failures(
            s.index as int,
            k as int,
            s.n_endpoints as int,
        ),
    decreases k,
{
    let n = s.n_endpoints as int;
    if k == 0 {
        lemma_small_mod(s.index as nat, s.n_endpoints as nat);
    } else {
        let s1 = spec_cycle_state(s, CycleOutcome::ConnectFailed);
        lemma_mod_bound(s.index as int + 1, n);
        assert(s1.wf());
        lemma_failed_attempts_round_robin(s1, (k - 1) as nat);
        // Collapse the nested remainders into one.
        lemma_mod_twice(s.index as int + 1, n);
        lemma_add_mod_noop((s.index as int + 1) % n, k as int - 1, n);
        lemma_add_mod_noop(s.index as int + 1, k as int - 1, n);
        assert((s1.index as int + (k - 1)) % n == (s.index as int + k) % n) by {
            assert(((s.index as int + 1) % n % n + (k as int - 1) % n) % n == ((s.index as int + 1)
                % n + (k as int - 1)) % n);
            assert(((s.index as int + 1) % n + (k as int - 1) % n) % n == ((s.index as int + 1) + (
            k as int - 1)) % n);
        }
    }
}

/// Within one round of the endpoint list, no two failed connection
/// attempts target the same endpoint: the first `n` consecutive failures
/// visit each endpoint index exactly once before repeating.
pub proof fn lemma_round_robin_visits_all(start: int, n: int, i: int, j: int)
    requires
        0 < n,
        0 <= start < n,
        0 <= i < n,
        0 <= j < n,
        i != j,
    ensures
        target_after_failures(start, i, n) != target_after_failures(start, j, n),
{
    lemma_mod_equivalence(start + i, start + j, n);
    if target_after_failures(start, i, n) == target_after_failures(start, j, n) {
        if i < j {
            lemma_mod_add_multiples_vanish(i - j, n);
            lemma_small_mod((n + i - j) as nat, n as nat);
        } else {
            lemma_small_mod((i - j) as nat, n as nat);
        }
    }
}

} // verus!
