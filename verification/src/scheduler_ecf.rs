//! Earliest completion first.

use vstd::prelude::*;

use crate::path::{
    lemma_lookup, lemma_min_rtt, lookup, min_rtt, total_window, Eligibility, Error, Path, PathMap,
    Recovery,
};
use crate::scheduler::{MultipathConfig, MultipathScheduler, PathEvent, StreamMap};

verus! {

/// The ECF (Earliest Completion First) scheduler.
///
/// It aims at the earliest completion of what is waiting to be sent, by
/// comparing two choices: to wait for the fastest path, which may be busy, or
/// to use at once a path that is available but may be slower.
pub struct EcfScheduler {
    /// Whether the last decision was to wait for the fast path. Keeps the
    /// decision from swinging back and forth.
    waiting_for_fast_path: bool,
}

/// `x`, or the largest 128-bit integer where `x` is larger.
pub open spec fn saturated(x: int) -> int {
    if x <= u128::MAX {
        x
    } else {
        u128::MAX as int
    }
}

/// Waiting for the fast path completes `k` bytes earlier than sending on the
/// slow path: `(CWNDf + k) * RTTf < CWNDf * RTTs`, with the right side
/// raised by a quarter while already waiting.
pub open spec fn waiting_completes_earlier(
    waiting: bool,
    k: nat,
    fast: Recovery,
    slow: Recovery,
) -> bool {
    let wait_cost = saturated((fast.congestion_window + k) * fast.smoothed_rtt.micros());
    let send_cost = saturated(fast.congestion_window * slow.smoothed_rtt.micros());
    if waiting {
        wait_cost < saturated(send_cost + send_cost / 4)
    } else {
        wait_cost < send_cost
    }
}

/// The slow path takes at least twice the fast path's round-trip time for `k`
/// bytes: `k * RTTs >= 2 * RTTf * CWNDs`.
pub open spec fn slow_path_is_costly(k: nat, fast: Recovery, slow: Recovery) -> bool {
    saturated((k * slow.smoothed_rtt.micros()) as int) >= saturated(
        saturated((2 * fast.smoothed_rtt.micros()) as int) * slow.congestion_window,
    )
}

/// The decision between a busy fast path and an available slow path, for `k`
/// bytes: the new state, and the answer.
pub open spec fn ecf_decision(
    waiting: bool,
    k: nat,
    fast: Recovery,
    slow: Recovery,
    slow_pid: usize,
) -> (bool, Result<usize, Error>) {
    if k == 0 {
        (waiting, Err(Error::Done))
    } else if fast.congestion_window == 0 || slow.congestion_window == 0 {
        (false, Ok(slow_pid))
    } else if waiting_completes_earlier(waiting, k, fast, slow) && slow_path_is_costly(
        k,
        fast,
        slow,
    ) {
        (true, Err(Error::Done))
    } else {
        (false, Ok(slow_pid))
    }
}

/// A selection, from the state and the paths to the new state and the answer.
pub open spec fn ecf_select(waiting: bool, paths: Seq<(usize, Path)>) -> (
    bool,
    Result<usize, Error>,
) {
    match min_rtt(paths, Eligibility::Validated) {
        None => (waiting, Err(Error::Done)),
        Some(fast_pid) => {
            let fast = lookup(paths, fast_pid)->0.recovery;
            if fast.can_send {
                (false, Ok(fast_pid))
            } else {
                match min_rtt(paths, Eligibility::Available) {
                    None => (true, Err(Error::Done)),
                    Some(slow_pid) => ecf_decision(
                        waiting,
                        total_window(paths, Eligibility::Validated),
                        fast,
                        lookup(paths, slow_pid)->0.recovery,
                        slow_pid,
                    ),
                }
            }
        },
    }
}

/// A selection adds up the congestion windows: the fast path is busy and
/// another one is available.
pub open spec fn ecf_sums_windows(paths: Seq<(usize, Path)>) -> bool {
    &&& min_rtt(paths, Eligibility::Validated) matches Some(fast_pid)
    &&& !lookup(paths, fast_pid)->0.recovery.can_send
    &&& min_rtt(paths, Eligibility::Available) is Some
}

fn saturating_mul(a: u128, b: u128) -> (res: u128)
    ensures
        res == saturated(a * b),
{
    match a.checked_mul(b) {
        Some(p) => p,
        None => u128::MAX,
    }
}

impl EcfScheduler {
    /// Whether the last decision was to wait for the fast path.
    pub closed spec fn waiting(&self) -> bool {
        self.waiting_for_fast_path
    }

    pub fn new(_conf: &MultipathConfig) -> (res: EcfScheduler)
        ensures
            res.valid(),
            !res.waiting(),
    {
        EcfScheduler { waiting_for_fast_path: false }
    }

    /// The active and validated path with the lowest round-trip time, whether
    /// it can send now or not.
    pub fn find_fastest_path(&self, paths: &PathMap) -> (res: Option<usize>)
        ensures
            res == min_rtt(paths@, Eligibility::Validated),
    {
        paths.find_min_rtt(Eligibility::Validated)
    }

    /// The path with the lowest round-trip time among the active and validated
    /// ones that can send now.
    pub fn find_best_available_path(&self, paths: &PathMap) -> (res: Option<usize>)
        ensures
            res == min_rtt(paths@, Eligibility::Available),
    {
        paths.find_min_rtt(Eligibility::Available)
    }

    /// The number of bytes that the decision is made for: the congestion
    /// windows of the active and validated paths together.
    pub fn get_k_for_ecf(&self, paths: &PathMap) -> (res: u64)
        requires
            total_window(paths@, Eligibility::Validated) <= u64::MAX,
        ensures
            res == total_window(paths@, Eligibility::Validated),
    {
        paths.sum_windows(Eligibility::Validated)
    }

    /// Decides whether to send on the slow path at once or to wait for the
    /// fast path, for `k` bytes.
    pub fn decide(&mut self, k: u64, fast: &Recovery, slow: &Recovery, slow_pid: usize) -> (res:
        Result<usize, Error>)
        ensures
            (final(self).waiting(), res) == ecf_decision(
                old(self).waiting(),
                k as nat,
                *fast,
                *slow,
                slow_pid,
            ),
    {
        // Nothing can be in flight on any path.
        if k == 0 {
            return Err(Error::Done);
        }
        // Without both windows the two choices cannot be compared.
        if fast.congestion_window == 0 || slow.congestion_window == 0 {
            self.waiting_for_fast_path = false;
            return Ok(slow_pid);
        }
        let fast_rtt: u128 = fast.smoothed_rtt.as_micros();
        let slow_rtt: u128 = slow.smoothed_rtt.as_micros();
        let wait_cost: u128 = saturating_mul(fast.congestion_window as u128 + k as u128, fast_rtt);
        let mut send_cost: u128 = saturating_mul(fast.congestion_window as u128, slow_rtt);
        if self.waiting_for_fast_path {
            send_cost = send_cost.saturating_add(send_cost / 4);
        }
        if wait_cost < send_cost {
            // Wait only where the slow path costs far more than waiting.
            let slow_cost: u128 = saturating_mul(k as u128, slow_rtt);
            let bound: u128 = saturating_mul(
                saturating_mul(2, fast_rtt),
                slow.congestion_window as u128,
            );
            if slow_cost >= bound {
                self.waiting_for_fast_path = true;
                return Err(Error::Done);
            }
        }
        self.waiting_for_fast_path = false;
        Ok(slow_pid)
    }
}

impl MultipathScheduler for EcfScheduler {
    open spec fn valid(&self) -> bool {
        true
    }

    open spec fn can_select(&self, paths: Seq<(usize, Path)>, streams: StreamMap) -> bool {
        ecf_sums_windows(paths) ==> total_window(paths, Eligibility::Validated) <= u64::MAX
    }

    fn on_select(&mut self, paths: &PathMap, _streams: &StreamMap) -> (res: Result<usize, Error>)
        ensures
            (final(self).waiting(), res) == ecf_select(old(self).waiting(), paths@),
    {
        let fast_pid: usize = match self.find_fastest_path(paths) {
            Some(pid) => pid,
            None => return Err(Error::Done),
        };
        proof {
            let i = lemma_min_rtt(paths@, Eligibility::Validated);
            lemma_lookup(paths@, i);
        }
        let fast: Recovery = match paths.get(fast_pid) {
            Ok(path) => path.recovery,
            Err(e) => return Err(e),
        };
        if fast.can_send {
            self.waiting_for_fast_path = false;
            return Ok(fast_pid);
        }
        let slow_pid: usize = match self.find_best_available_path(paths) {
            Some(pid) => pid,
            None => {
                // Every path is busy.
                self.waiting_for_fast_path = true;
                return Err(Error::Done);
            },
        };
        proof {
            let i = lemma_min_rtt(paths@, Eligibility::Available);
            lemma_lookup(paths@, i);
        }
        let k: u64 = self.get_k_for_ecf(paths);
        let slow: Recovery = match paths.get(slow_pid) {
            Ok(path) => path.recovery,
            Err(e) => return Err(e),
        };
        self.decide(k, &fast, &slow, slow_pid)
    }

    fn on_sent(&mut self, _path_id: usize, _paths: &PathMap, _streams: &StreamMap)
        ensures
            *final(self) == *old(self),
    {
    }

    fn on_path_updated(&mut self, _paths: &PathMap, _event: PathEvent)
        ensures
            *final(self) == *old(self),
    {
    }
}

} // verus!
