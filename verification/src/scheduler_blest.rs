//! Blocking estimation.

use vstd::prelude::*;

use crate::estimate::{share_of_window, window_share};
use crate::path::{lookup, min_rtt, Eligibility, Error, Path, PathMap};
use crate::scheduler::{MultipathConfig, MultipathScheduler, PathEvent, StreamMap};
use crate::scheduler_minrtt::{minrtt_choice, MinRttScheduler};
use crate::time::{is_clock_reading, is_time_since, read_clock, time_since, Duration};

verus! {

/// The safety factor to start with, in thousandths.
pub const BLEST_INITIAL_LAMBDA_SCALED: i16 = 1200;

/// The lowest safety factor.
pub const BLEST_MIN_LAMBDA_SCALED: i16 = 1000;

/// The highest safety factor.
pub const BLEST_MAX_LAMBDA_SCALED: i16 = 1500;

/// How far the factor falls where the slow path lost nothing.
pub const BLEST_DYN_LAMBDA_GOOD_SCALED: i16 = 50;

/// How far the factor rises where the slow path lost packets.
pub const BLEST_DYN_LAMBDA_BAD_SCALED: i16 = 200;

/// The factor is adjusted about this many times in a round trip of the slow path.
pub const BLEST_LAMBDA_UPDATE_INTERVAL_DIVISOR: u64 = 4;

/// The time between two adjustments where the round-trip time is not known.
pub const BLEST_DEFAULT_UPDATE_INTERVAL_MILLIS: u64 = 50;

/// The BLEST (Blocking Estimation) scheduler.
///
/// It takes the path that the default scheduler picks, unless that is not the
/// fastest path and a packet on it would leave the fastest one too little of
/// the connection's flow control credit.
pub struct BlestScheduler {
    /// Picks the candidate.
    default_scheduler: MinRttScheduler,
    /// The safety factor on the estimate, in thousandths.
    lambda_scaled: i16,
    /// When the scheduler was made.
    created: std::time::Instant,
    /// When the factor was last adjusted, counted from `created`.
    last_lambda_update_time: Duration,
    /// The slow path under observation.
    last_chosen_slow_path_id: Option<usize>,
    /// What that path had lost when the observation began.
    last_chosen_slow_path_lost_count: u64,
    /// Its round-trip time then.
    last_slow_path_rtt_micros: u64,
}

/// The state of the scheduler.
pub struct BlestState {
    /// The safety factor, in thousandths.
    pub lambda: int,
    /// When the scheduler was made.
    pub created: std::time::Instant,
    /// When the factor was last adjusted, in nanoseconds from `created`.
    pub last_update: nat,
    /// The slow path under observation.
    pub slow_path: Option<usize>,
    /// What that path had lost when the observation began.
    pub lost_count: nat,
    /// Its round-trip time then.
    pub rtt_micros: nat,
}

/// The safety factor lies between its lowest and its highest value.
pub open spec fn lambda_in_range(lambda: int) -> bool {
    BLEST_MIN_LAMBDA_SCALED <= lambda <= BLEST_MAX_LAMBDA_SCALED
}

/// The safety factor after an observation period.
pub open spec fn adjusted_lambda(lambda: int, losses: bool) -> int {
    let next = if losses {
        lambda + BLEST_DYN_LAMBDA_BAD_SCALED
    } else {
        lambda - BLEST_DYN_LAMBDA_GOOD_SCALED
    };
    if next < BLEST_MIN_LAMBDA_SCALED {
        BLEST_MIN_LAMBDA_SCALED as int
    } else if next > BLEST_MAX_LAMBDA_SCALED {
        BLEST_MAX_LAMBDA_SCALED as int
    } else {
        next
    }
}

/// The least time between two adjustments, in nanoseconds.
pub open spec fn update_interval(rtt_micros: nat) -> nat {
    if rtt_micros > 0 {
        (rtt_micros / BLEST_LAMBDA_UPDATE_INTERVAL_DIVISOR as nat) * 1_000
    } else {
        (BLEST_DEFAULT_UPDATE_INTERVAL_MILLIS * 1_000_000) as nat
    }
}

/// Whether `now` is at least `interval` after `last`.
pub open spec fn has_passed(now: nat, last: nat, interval: nat) -> bool {
    (if now >= last {
        now - last
    } else {
        0
    }) >= interval
}

/// The round-trip time of a path in microseconds, of which the low 64 bits are
/// kept.
pub open spec fn rtt_micros_of(path: Path) -> nat {
    path.recovery.smoothed_rtt.micros() % 0x1_0000_0000_0000_0000
}

/// The state after the observed slow path was looked at: adjusted where there
/// is such a path and the interval has passed.
pub open spec fn lambda_updated(
    state: BlestState,
    paths: Seq<(usize, Path)>,
    now: nat,
) -> BlestState {
    match state.slow_path {
        Some(pid) => match lookup(paths, pid) {
            Some(path) => if has_passed(
                now,
                state.last_update,
                update_interval(state.rtt_micros),
            ) {
                BlestState {
                    lambda: adjusted_lambda(
                        state.lambda,
                        path.recovery.lost_count > state.lost_count,
                    ),
                    last_update: now,
                    lost_count: path.recovery.lost_count as nat,
                    rtt_micros: rtt_micros_of(path),
                    ..state
                }
            } else {
                state
            },
            None => state,
        },
        None => state,
    }
}

/// How many bytes a path is taken to send in `duration`.
pub open spec fn estimated_bytes(
    window: nat,
    rtt: Duration,
    duration: Duration,
    lambda: int,
) -> int {
    if duration.nanos == 0 {
        0
    } else if rtt.nanos == 0 {
        window as int
    } else {
        window_share(window, duration.micros(), rtt.micros()) * lambda / 1000
    }
}

/// The estimate is computed without exceeding 64 bits.
pub open spec fn estimate_fits(
    window: nat,
    rtt: Duration,
    duration: Duration,
    lambda: int,
) -> bool {
    ||| duration.nanos == 0
    ||| rtt.nanos == 0
    ||| window_share(window, duration.micros(), rtt.micros()) * lambda <= u64::MAX
}

/// The flow control credit that is left after one packet on `slow`.
pub open spec fn credit_after_slow_packet(streams: StreamMap, slow: Path) -> int {
    let left = streams.max_tx_data - streams.tx_data - slow.recovery.max_datagram_size;
    if left > 0 {
        left
    } else {
        0
    }
}

/// The state after the candidate was found to be another path than the fastest
/// one: a path that is under observation already is looked at, any other comes
/// under observation.
pub open spec fn observed(
    state: BlestState,
    paths: Seq<(usize, Path)>,
    now: nat,
    pid: usize,
    slow: Path,
) -> BlestState {
    if state.slow_path == Some(pid) {
        lambda_updated(state, paths, now)
    } else {
        BlestState {
            slow_path: Some(pid),
            lost_count: slow.recovery.lost_count as nat,
            rtt_micros: rtt_micros_of(slow),
            last_update: now,
            ..state
        }
    }
}

/// A packet on `slow` would leave `fast` less credit than it could use while
/// that packet is under way.
pub open spec fn would_block(streams: StreamMap, lambda: int, fast: Path, slow: Path) -> bool {
    estimated_bytes(
        fast.recovery.congestion_window as nat,
        fast.recovery.smoothed_rtt,
        slow.recovery.smoothed_rtt,
        lambda,
    ) > credit_after_slow_packet(streams, slow)
}

/// What becomes of a candidate: the new state, and the answer.
pub open spec fn blest_decision(
    state: BlestState,
    paths: Seq<(usize, Path)>,
    streams: StreamMap,
    now: nat,
    fast_pid: usize,
    candidate: usize,
) -> (BlestState, Result<usize, Error>) {
    if candidate == fast_pid {
        (BlestState { slow_path: None, ..state }, Ok(candidate))
    } else {
        match (lookup(paths, candidate), lookup(paths, fast_pid)) {
            (Some(slow), Some(fast)) => {
                let next = observed(state, paths, now, candidate, slow);
                if slow.recovery.smoothed_rtt.nanos != 0 && would_block(
                    streams,
                    next.lambda,
                    fast,
                    slow,
                ) {
                    (next, Err(Error::Done))
                } else {
                    (next, Ok(candidate))
                }
            },
            _ => (state, Err(Error::InternalError)),
        }
    }
}

/// The estimate that a decision asks for, if any, fits 64 bits.
pub open spec fn decision_fits(
    state: BlestState,
    paths: Seq<(usize, Path)>,
    now: nat,
    fast_pid: usize,
    candidate: usize,
) -> bool {
    candidate != fast_pid ==> match (lookup(paths, candidate), lookup(paths, fast_pid)) {
        (Some(slow), Some(fast)) => estimate_fits(
            fast.recovery.congestion_window as nat,
            fast.recovery.smoothed_rtt,
            slow.recovery.smoothed_rtt,
            observed(state, paths, now, candidate, slow).lambda,
        ),
        _ => true,
    }
}

/// A selection at the time `now`: the new state, and the answer.
pub open spec fn blest_select(
    state: BlestState,
    paths: Seq<(usize, Path)>,
    streams: StreamMap,
    now: nat,
) -> (BlestState, Result<usize, Error>) {
    match min_rtt(paths, Eligibility::Addressable) {
        None => (state, Err(Error::Done)),
        Some(fast_pid) => match minrtt_choice(paths) {
            Err(e) => (state, Err(e)),
            Ok(candidate) => blest_decision(state, paths, streams, now, fast_pid, candidate),
        },
    }
}

/// The estimate that a selection at the time `now` asks for, if any, fits 64 bits.
pub open spec fn select_fits(state: BlestState, paths: Seq<(usize, Path)>, now: nat) -> bool {
    match (min_rtt(paths, Eligibility::Addressable), minrtt_choice(paths)) {
        (Some(fast_pid), Ok(candidate)) => decision_fits(state, paths, now, fast_pid, candidate),
        _ => true,
    }
}

/// The state after a path event: an abandoned path is no longer observed.
pub open spec fn blest_path_updated(state: BlestState, event: PathEvent) -> BlestState {
    match event {
        PathEvent::Abandoned(pid) => if state.slow_path == Some(pid) {
            BlestState { slow_path: None, lost_count: 0, rtt_micros: 0, ..state }
        } else {
            state
        },
        PathEvent::Validated(_) => state,
    }
}

impl View for BlestScheduler {
    type V = BlestState;

    closed spec fn view(&self) -> BlestState {
        BlestState {
            lambda: self.lambda_scaled as int,
            created: self.created,
            last_update: self.last_lambda_update_time.nanos as nat,
            slow_path: self.last_chosen_slow_path_id,
            lost_count: self.last_chosen_slow_path_lost_count as nat,
            rtt_micros: self.last_slow_path_rtt_micros as nat,
        }
    }
}

impl BlestScheduler {
    pub fn new(conf: &MultipathConfig) -> (res: BlestScheduler)
        ensures
            res.valid(),
            res@ == (BlestState {
                lambda: BLEST_INITIAL_LAMBDA_SCALED as int,
                created: res@.created,
                last_update: 0,
                slow_path: None,
                lost_count: 0,
                rtt_micros: 0,
            }),
            res@.lambda == 1200,
            is_clock_reading(res@.created),
    {
        BlestScheduler {
            default_scheduler: MinRttScheduler::new(conf),
            lambda_scaled: BLEST_INITIAL_LAMBDA_SCALED,
            created: read_clock(),
            last_lambda_update_time: Duration::from_nanos(0),
            last_chosen_slow_path_id: None,
            last_chosen_slow_path_lost_count: 0,
            last_slow_path_rtt_micros: 0,
        }
    }

    /// The low 64 bits of the round-trip time of `path` in microseconds.
    fn rtt_micros(path: &Path) -> (res: u64)
        ensures
            res == rtt_micros_of(*path),
    {
        (path.recovery.smoothed_rtt.as_micros() % 0x1_0000_0000_0000_0000) as u64
    }

    /// Adjusts the safety factor by how the observed slow path fared, at the
    /// time `now`, counted from when the scheduler was made.
    pub fn update_lambda(&mut self, paths: &PathMap, now: Duration)
        requires
            old(self).valid(),
            paths.wf(),
        ensures
            final(self).valid(),
            final(self)@ == lambda_updated(old(self)@, paths@, now.nanos as nat),
    {
        if let Some(pid) = self.last_chosen_slow_path_id {
            if let Ok(slow_path) = paths.get(pid) {
                let interval: Duration = if self.last_slow_path_rtt_micros > 0 {
                    Duration::from_micros(
                        self.last_slow_path_rtt_micros / BLEST_LAMBDA_UPDATE_INTERVAL_DIVISOR,
                    )
                } else {
                    Duration::from_millis(BLEST_DEFAULT_UPDATE_INTERVAL_MILLIS)
                };
                if now.saturating_since(self.last_lambda_update_time).nanos < interval.nanos {
                    return;
                }
                let lost_count: u64 = slow_path.recovery.lost_count;
                let next: i16 = if lost_count > self.last_chosen_slow_path_lost_count {
                    self.lambda_scaled + BLEST_DYN_LAMBDA_BAD_SCALED
                } else {
                    self.lambda_scaled - BLEST_DYN_LAMBDA_GOOD_SCALED
                };
                self.lambda_scaled = if next < BLEST_MIN_LAMBDA_SCALED {
                    BLEST_MIN_LAMBDA_SCALED
                } else if next > BLEST_MAX_LAMBDA_SCALED {
                    BLEST_MAX_LAMBDA_SCALED
                } else {
                    next
                };
                self.last_lambda_update_time = now;
                self.last_chosen_slow_path_lost_count = lost_count;
                self.last_slow_path_rtt_micros = Self::rtt_micros(slow_path);
            }
        }
    }

    /// How many bytes `fast_path` could send during `duration`.
    pub fn estimate_fast_path_bytes(&self, fast_path: &Path, duration: Duration) -> (res: u64)
        requires
            self.valid(),
            estimate_fits(
                fast_path.recovery.congestion_window as nat,
                fast_path.recovery.smoothed_rtt,
                duration,
                self@.lambda,
            ),
        ensures
            res == estimated_bytes(
                fast_path.recovery.congestion_window as nat,
                fast_path.recovery.smoothed_rtt,
                duration,
                self@.lambda,
            ),
    {
        if duration.is_zero() {
            return 0;
        }
        let window: u64 = fast_path.recovery.congestion_window;
        let srtt: Duration = fast_path.recovery.smoothed_rtt;
        if srtt.is_zero() {
            // The path is new or unused: take it to send a full window.
            return window;
        }
        let bytes: u64 = share_of_window(window, duration.as_micros(), srtt.as_micros());
        (bytes * self.lambda_scaled as u64) / 1000
    }

    /// The active path with the lowest round-trip time, whether it can send now
    /// or not.
    pub fn find_fastest_path(&self, paths: &PathMap) -> (res: Option<usize>)
        ensures
            res == min_rtt(paths@, Eligibility::Addressable),
    {
        paths.find_min_rtt(Eligibility::Addressable)
    }

    /// Decides at the time `now` on `candidate`, the path that a default
    /// scheduler picked, where `fast_pid` is the fastest path.
    pub fn decide(
        &mut self,
        paths: &PathMap,
        streams: &StreamMap,
        now: Duration,
        fast_pid: usize,
        candidate: usize,
    ) -> (res: Result<usize, Error>)
        requires
            old(self).valid(),
            paths.wf(),
            decision_fits(old(self)@, paths@, now.nanos as nat, fast_pid, candidate),
        ensures
            final(self).valid(),
            (final(self)@, res) == blest_decision(
                old(self)@,
                paths@,
                *streams,
                now.nanos as nat,
                fast_pid,
                candidate,
            ),
    {
        if candidate == fast_pid {
            // No slow path is chosen, so none is observed.
            self.last_chosen_slow_path_id = None;
            return Ok(candidate);
        }
        let slow_path: &Path = match paths.get(candidate) {
            Ok(path) => path,
            Err(e) => return Err(e),
        };
        let fast_path: &Path = match paths.get(fast_pid) {
            Ok(path) => path,
            Err(e) => return Err(e),
        };
        if self.last_chosen_slow_path_id == Some(candidate) {
            self.update_lambda(paths, now);
        } else {
            self.last_chosen_slow_path_id = Some(candidate);
            self.last_chosen_slow_path_lost_count = slow_path.recovery.lost_count;
            self.last_slow_path_rtt_micros = Self::rtt_micros(slow_path);
            self.last_lambda_update_time = now;
        }
        // How long a packet on the slow path is under way.
        let linger: Duration = slow_path.recovery.smoothed_rtt;
        if linger.is_zero() {
            return Ok(candidate);
        }
        let potential: u64 = self.estimate_fast_path_bytes(fast_path, linger);
        let available: u64 = streams.conn_max_tx_data().saturating_sub(streams.conn_tx_data());
        let left: u64 = available.saturating_sub(slow_path.recovery.max_datagram_size as u64);
        if potential > left {
            // Wait for the fast path to become available.
            return Err(Error::Done);
        }
        Ok(candidate)
    }

    /// Names the path that carries the next packet, at the time `now`, counted
    /// from when the scheduler was made.
    pub fn on_select_at(&mut self, paths: &PathMap, streams: &StreamMap, now: Duration) -> (res:
        Result<usize, Error>)
        requires
            old(self).valid(),
            paths.wf(),
            select_fits(old(self)@, paths@, now.nanos as nat),
        ensures
            final(self).valid(),
            (final(self)@, res) == blest_select(
                old(self)@,
                paths@,
                *streams,
                now.nanos as nat,
            ),
    {
        let fast_pid: usize = match self.find_fastest_path(paths) {
            Some(pid) => pid,
            None => return Err(Error::Done),
        };
        let candidate: usize = match self.default_scheduler.on_select(paths, streams) {
            Ok(pid) => pid,
            Err(e) => return Err(e),
        };
        self.decide(paths, streams, now, fast_pid, candidate)
    }
}

impl MultipathScheduler for BlestScheduler {
    open spec fn valid(&self) -> bool {
        lambda_in_range(self@.lambda)
    }

    open spec fn can_select(&self, paths: Seq<(usize, Path)>, streams: StreamMap) -> bool {
        forall|now: u128| #[trigger] select_fits(self@, paths, now as nat)
    }

    /// The time of the selection is what the clock gives for the time since the
    /// scheduler was made.
    fn on_select(&mut self, paths: &PathMap, streams: &StreamMap) -> (res: Result<usize, Error>)
        ensures
            exists|now: u128|
                is_time_since(old(self)@.created, now) && (final(self)@, res)
                    == #[trigger] blest_select(old(self)@, paths@, *streams, now as nat),
    {
        let now: Duration = time_since(&self.created);
        assert(select_fits(self@, paths@, now.nanos as nat));
        self.on_select_at(paths, streams, now)
    }

    fn on_sent(&mut self, _path_id: usize, _paths: &PathMap, _streams: &StreamMap)
        ensures
            *final(self) == *old(self),
    {
    }

    fn on_path_updated(&mut self, paths: &PathMap, event: PathEvent)
        ensures
            final(self)@ == blest_path_updated(old(self)@, event),
    {
        self.default_scheduler.on_path_updated(paths, event);
        if let Some(slow_pid) = self.last_chosen_slow_path_id {
            match event {
                PathEvent::Abandoned(pid) => {
                    if pid == slow_pid {
                        self.last_chosen_slow_path_id = None;
                        self.last_chosen_slow_path_lost_count = 0;
                        self.last_slow_path_rtt_micros = 0;
                    }
                },
                PathEvent::Validated(_) => {},
            }
        }
    }
}

} // verus!
