//! What holds of every selection of the BLEST scheduler.

use vstd::math::{max, min};
use vstd::prelude::*;

use crate::estimate::{lemma_window_share, lemma_window_share_at_the_ends, window_share};
use crate::path::{
    distinct_ids, is_first_min, lemma_lookup, lemma_min_rtt, lemma_min_rtt_is, min_rtt,
    Eligibility, Error, Path,
};
use crate::path_laws::{lemma_distinct_ids, lemma_lookup_finds, lemma_search_finds};
use crate::scheduler::{MultipathScheduler, PathEvent, StreamMap};
use crate::scheduler_blest::{
    adjusted_lambda, blest_decision, blest_path_updated, blest_select, credit_after_slow_packet,
    estimate_fits, estimated_bytes, has_passed, lambda_in_range, lambda_updated, observed,
    select_fits, update_interval, would_block, BlestScheduler, BlestState,
    BLEST_MAX_LAMBDA_SCALED, BLEST_MIN_LAMBDA_SCALED,
};
use crate::time::Duration;

verus! {

/// A path that is named is the active path with the lowest round-trip time among
/// those that can send now. The only error is `Done`.
pub proof fn lemma_blest_answer(
    state: BlestState,
    paths: Seq<(usize, Path)>,
    streams: StreamMap,
    now: nat,
)
    requires
        distinct_ids(paths),
    ensures
        match blest_select(state, paths, streams, now).1 {
            Ok(pid) => min_rtt(paths, Eligibility::Ready) == Some(pid),
            Err(e) => e == Error::Done,
        },
{
    if min_rtt(paths, Eligibility::Addressable) is Some && min_rtt(
        paths,
        Eligibility::Ready,
    ) is Some {
        let i = lemma_min_rtt(paths, Eligibility::Addressable);
        lemma_lookup(paths, i);
        let j = lemma_min_rtt(paths, Eligibility::Ready);
        lemma_lookup(paths, j);
    }
}

/// Without an active path, or without one that can send, the answer is `Done`,
/// and the state stays.
pub proof fn lemma_blest_no_path(
    state: BlestState,
    paths: Seq<(usize, Path)>,
    streams: StreamMap,
    now: nat,
)
    requires
        min_rtt(paths, Eligibility::Addressable) is None || min_rtt(
            paths,
            Eligibility::Ready,
        ) is None,
    ensures
        blest_select(state, paths, streams, now) == (state, Err::<usize, Error>(Error::Done)),
{
}

/// The fastest path is named whenever it can send, however little credit there
/// is, and then no path is under observation. This is so where every path that
/// can send has a connection ID.
pub proof fn lemma_blest_fast_path(
    state: BlestState,
    paths: Seq<(usize, Path)>,
    streams: StreamMap,
    now: nat,
    i: int,
)
    requires
        is_first_min(paths, Eligibility::Addressable, i),
        paths[i].1.recovery.can_send,
        forall|j: int|
            #![trigger paths[j]]
            0 <= j < paths.len() && Eligibility::Ready.admits(paths[j].1)
                ==> paths[j].1.dcid_seq is Some,
    ensures
        blest_select(state, paths, streams, now) == (
            BlestState { slow_path: None, ..state },
            Ok::<usize, Error>(paths[i].0),
        ),
{
    assert(is_first_min(paths, Eligibility::Ready, i));
    lemma_min_rtt_is(paths, Eligibility::Addressable, i);
    lemma_min_rtt_is(paths, Eligibility::Ready, i);
}

/// A candidate that is not the fastest path is refused exactly where its
/// round-trip time is known and what the fastest path could send in that time
/// exceeds the credit that a packet on the candidate would leave.
pub proof fn lemma_blest_veto(
    state: BlestState,
    paths: Seq<(usize, Path)>,
    streams: StreamMap,
    now: nat,
    fast: int,
    slow: int,
)
    requires
        distinct_ids(paths),
        is_first_min(paths, Eligibility::Addressable, fast),
        is_first_min(paths, Eligibility::Ready, slow),
        fast != slow,
    ensures
        ({
            let f = paths[fast].1;
            let s = paths[slow].1;
            let (next, answer) = blest_select(state, paths, streams, now);
            let potential = estimated_bytes(
                f.recovery.congestion_window as nat,
                f.recovery.smoothed_rtt,
                s.recovery.smoothed_rtt,
                next.lambda,
            );
            &&& next.slow_path == Some(paths[slow].0)
            &&& answer is Err <==> s.recovery.smoothed_rtt.nanos != 0 && potential
                > credit_after_slow_packet(streams, s)
        }),
{
    lemma_min_rtt_is(paths, Eligibility::Addressable, fast);
    lemma_min_rtt_is(paths, Eligibility::Ready, slow);
    lemma_lookup(paths, fast);
    lemma_lookup(paths, slow);
    if fast < slow {
        assert(paths[fast].0 != paths[slow].0);
    } else {
        assert(paths[slow].0 != paths[fast].0);
    }
}

/// More credit never turns a path that would be named into a refusal.
pub proof fn lemma_blest_more_credit(
    state: BlestState,
    paths: Seq<(usize, Path)>,
    less: StreamMap,
    more: StreamMap,
    now: nat,
)
    requires
        less.max_tx_data - less.tx_data <= more.max_tx_data - more.tx_data,
    ensures
        blest_select(state, paths, less, now).1 matches Ok(pid) ==> blest_select(
            state,
            paths,
            more,
            now,
        ).1 == Ok::<usize, Error>(pid),
        blest_select(state, paths, less, now).0 == blest_select(state, paths, more, now).0,
{
}

/// A higher safety factor gives a larger estimate, and so never turns a refusal
/// into an allowance.
pub proof fn lemma_blest_higher_lambda(
    streams: StreamMap,
    fast: Path,
    slow: Path,
    lower: int,
    higher: int,
)
    requires
        lower <= higher,
    ensures
        would_block(streams, lower, fast, slow) ==> would_block(streams, higher, fast, slow),
{
    let share = window_share(
        fast.recovery.congestion_window as nat,
        slow.recovery.smoothed_rtt.micros(),
        fast.recovery.smoothed_rtt.micros(),
    ) as int;
    assert(share * lower <= share * higher) by (nonlinear_arith)
        requires
            share >= 0,
            lower <= higher,
    ;
}

/// Losses raise the safety factor and their absence lowers it, within its range:
/// it stays only at the end of the range.
pub proof fn lemma_lambda_adjusted(lambda: int)
    requires
        lambda_in_range(lambda),
    ensures
        lambda_in_range(adjusted_lambda(lambda, true)),
        lambda_in_range(adjusted_lambda(lambda, false)),
        adjusted_lambda(lambda, true) > lambda || lambda == BLEST_MAX_LAMBDA_SCALED,
        adjusted_lambda(lambda, true) >= lambda,
        adjusted_lambda(lambda, false) < lambda || lambda == BLEST_MIN_LAMBDA_SCALED,
        adjusted_lambda(lambda, false) <= lambda,
{
}

/// Every selection and every path event keeps the safety factor in its range.
pub proof fn lemma_lambda_stays_in_range(
    state: BlestState,
    paths: Seq<(usize, Path)>,
    streams: StreamMap,
    now: nat,
    event: PathEvent,
)
    requires
        lambda_in_range(state.lambda),
    ensures
        lambda_in_range(blest_select(state, paths, streams, now).0.lambda),
        lambda_in_range(blest_path_updated(state, event).lambda),
{
}

/// A selection changes the safety factor only where the path under observation
/// is the candidate again.
pub proof fn lemma_lambda_needs_observation(
    state: BlestState,
    paths: Seq<(usize, Path)>,
    streams: StreamMap,
    now: nat,
)
    requires
        blest_select(state, paths, streams, now).0.lambda != state.lambda,
    ensures
        state.slow_path is Some,
        state.slow_path == min_rtt(paths, Eligibility::Ready),
        has_passed(now, state.last_update, update_interval(state.rtt_micros)),
{
}

/// The safety factor is adjusted at most once in an interval: after an
/// adjustment nothing changes until a quarter of the observed path's round-trip
/// time has passed.
pub proof fn lemma_lambda_rate(
    state: BlestState,
    paths: Seq<(usize, Path)>,
    first: nat,
    later_paths: Seq<(usize, Path)>,
    second: nat,
)
    requires
        lambda_updated(state, paths, first).last_update == first,
        first <= second < first + update_interval(
            lambda_updated(state, paths, first).rtt_micros,
        ),
    ensures
        lambda_updated(lambda_updated(state, paths, first), later_paths, second)
            == lambda_updated(state, paths, first),
{
}

/// An abandoned path is no longer observed: what it lost has no part in any
/// later adjustment. Another path's observation goes on.
pub proof fn lemma_blest_abandoned(
    state: BlestState,
    pid: usize,
    paths: Seq<(usize, Path)>,
    now: nat,
)
    ensures
        ({
            let next = blest_path_updated(state, PathEvent::Abandoned(pid));
            &&& next.slow_path != Some(pid)
            &&& state.slow_path != Some(pid) ==> next == state
            &&& state.slow_path == Some(pid) ==> lambda_updated(next, paths, now) == next
            &&& next.lambda == state.lambda
        }),
        blest_path_updated(state, PathEvent::Validated(pid)) == state,
{
}

/// The estimate fits 64 bits where the fast path's window and its share of the
/// slow path's round-trip time are of ordinary size.
pub proof fn lemma_estimate_fits(window: nat, rtt: Duration, duration: Duration, lambda: int)
    requires
        lambda_in_range(lambda),
        rtt.nanos == 0 || (rtt.micros() > 0 && window * duration.micros() <= 0x20_0000_0000_0000
            * rtt.micros()),
    ensures
        estimate_fits(window, rtt, duration, lambda),
{
    if rtt.nanos != 0 {
        let d = duration.micros();
        let r = rtt.micros();
        let share = window_share(window, d, r) as int;
        lemma_window_share(window, d, r);
        assert(share <= 0x20_0000_0000_0010) by (nonlinear_arith)
            requires
                r > 0,
                window * d <= 0x20_0000_0000_0000 * r,
                0x4_0000_0000_0000 * (share * r - window * d) <= window * d + 0x2_0000_0000_0000
                    * r,
        ;
        assert(share * lambda <= 0x20_0000_0000_0010 * 1500) by (nonlinear_arith)
            requires
                0 <= share <= 0x20_0000_0000_0010,
                0 <= lambda <= 1500,
        ;
    }
}

/// A selection needs no more than 64 bits, at any time, on paths of ordinary
/// size.
pub proof fn lemma_select_fits(state: BlestState, paths: Seq<(usize, Path)>, now: nat)
    requires
        distinct_ids(paths),
        lambda_in_range(state.lambda),
        forall|i: int, j: int|
            #![trigger paths[i], paths[j]]
            0 <= i < paths.len() && 0 <= j < paths.len() ==> {
                let fast = paths[i].1.recovery;
                let slow = paths[j].1.recovery;
                fast.smoothed_rtt.nanos == 0 || (fast.smoothed_rtt.micros() > 0
                    && fast.congestion_window * slow.smoothed_rtt.micros()
                    <= 0x20_0000_0000_0000 * fast.smoothed_rtt.micros())
            },
    ensures
        select_fits(state, paths, now),
{
    if min_rtt(paths, Eligibility::Addressable) is Some && min_rtt(
        paths,
        Eligibility::Ready,
    ) is Some {
        let i = lemma_min_rtt(paths, Eligibility::Addressable);
        lemma_lookup(paths, i);
        let j = lemma_min_rtt(paths, Eligibility::Ready);
        lemma_lookup(paths, j);
        let fast = paths[i].1.recovery;
        let slow = paths[j].1.recovery;
        lemma_estimate_fits(
            fast.congestion_window as nat,
            fast.smoothed_rtt,
            slow.smoothed_rtt,
            observed(state, paths, now, paths[j].0, paths[j].1).lambda,
        );
    }
}

/// The credit that a packet on the slow path leaves is what the peer allows less
/// what was sent and less one datagram of that path, or nothing. No other
/// property of the path counts.
pub proof fn lemma_credit(streams: StreamMap, slow: Path, other: Path)
    ensures
        ({
            let left = credit_after_slow_packet(streams, slow);
            let packet = slow.recovery.max_datagram_size;
            &&& streams.max_tx_data >= streams.tx_data + packet ==> left + packet + streams.tx_data
                == streams.max_tx_data
            &&& streams.max_tx_data < streams.tx_data + packet ==> left == 0
            &&& packet == other.recovery.max_datagram_size ==> left == credit_after_slow_packet(
                streams,
                other,
            )
        }),
{
}

/// What the fast path is taken to send differs from
/// `window * duration / rtt * lambda / 1000` by no more than the roundings make:
/// one byte, half a byte times the factor, and one part in `2^50`.
pub proof fn lemma_estimate_is_close(window: nat, rtt: Duration, duration: Duration, lambda: int)
    requires
        lambda >= 0,
        rtt.nanos >= 1_000,
        window * (duration.nanos as int / 1000) < 0xffff_ffff_ffff_0000 * (rtt.nanos as int / 1000),
    ensures
        ({
            let d = duration.nanos as int / 1000;
            let r = rtt.nanos as int / 1000;
            let exact = lambda * (window * d);
            let got = 1000 * (estimated_bytes(window, rtt, duration, lambda) * r);
            let slack = exact + 0x2_0000_0000_0000 * (lambda * r);
            &&& 0x4_0000_0000_0000 * (got - exact) <= slack
            &&& 0x4_0000_0000_0000 * (exact - got) <= slack + 0x4_0000_0000_0000 * (1000 * r)
        }),
{
    let d = duration.nanos as int / 1000;
    let r = rtt.nanos as int / 1000;
    let share = window_share(window, d as nat, r as nat) as int;
    let est = estimated_bytes(window, rtt, duration, lambda);
    lemma_window_share(window, d as nat, r as nat);
    if duration.nanos == 0 {
        lemma_window_share_at_the_ends(window, 0, r as nat);
        assert(share * lambda == 0) by (nonlinear_arith)
            requires
                share == 0,
        ;
    }
    assert(1000 * est <= share * lambda < 1000 * est + 1000);
    assert(1000 * (est * r) <= (share * lambda) * r <= 1000 * (est * r) + 1000 * r)
        by (nonlinear_arith)
        requires
            1000 * est <= share * lambda < 1000 * est + 1000,
            r > 0,
    ;
    let e = window * d;
    let g = share * r;
    assert((share * lambda) * r == lambda * g) by (nonlinear_arith)
        requires
            g == share * r,
    ;
    let b = e + 0x2_0000_0000_0000 * r;
    assert(0x4_0000_0000_0000 * (lambda * g - lambda * e) <= lambda * b) by (nonlinear_arith)
        requires
            0x4_0000_0000_0000 * (g - e) <= b,
            lambda >= 0,
    ;
    assert(0x4_0000_0000_0000 * (lambda * e - lambda * g) <= lambda * b) by (nonlinear_arith)
        requires
            0x4_0000_0000_0000 * (e - g) <= b,
            lambda >= 0,
    ;
    assert(lambda * b == lambda * e + 0x2_0000_0000_0000 * (lambda * r)) by (nonlinear_arith)
        requires
            b == e + 0x2_0000_0000_0000 * r,
    ;
}

/// No time lets nothing be sent, and a path whose round-trip time is not known is
/// taken to send one window, whatever the factor. Otherwise the estimate is the
/// path's share, in thousandths of the factor, with the fraction dropped.
pub proof fn lemma_estimate(window: nat, rtt: Duration, duration: Duration, lambda: int)
    ensures
        ({
            let est = estimated_bytes(window, rtt, duration, lambda);
            let share = window_share(
                window,
                (duration.nanos as int / 1000) as nat,
                (rtt.nanos as int / 1000) as nat,
            );
            &&& duration.nanos == 0 ==> est == 0
            &&& duration.nanos > 0 && rtt.nanos == 0 ==> est == window
            &&& duration.nanos > 0 && rtt.nanos > 0 ==> est == (share * lambda) / 1000
            &&& estimate_fits(window, rtt, duration, lambda) <==> duration.nanos == 0 || rtt.nanos
                == 0 || share * lambda <= 0xffff_ffff_ffff_ffff
        }),
{
}

/// Looking at the observed path. Before a quarter of the remembered round-trip
/// time has passed since the last adjustment, or 50 ms where it is not known,
/// nothing changes. After that the factor rises by 200 where the path lost
/// packets since then and falls by 50 where it did not, held to 1000 and 1500,
/// and the path's present loss count, its present round-trip time and the present
/// time are remembered.
pub proof fn lemma_observed_path(
    state: BlestState,
    paths: Seq<(usize, Path)>,
    now: nat,
    i: int,
)
    requires
        forall|a: int, b: int|
            0 <= a < b < paths.len() ==> (#[trigger] paths[a]).0 != (#[trigger] paths[b]).0,
        0 <= i < paths.len(),
        state.slow_path == Some(paths[i].0),
    ensures
        ({
            let path = paths[i].1.recovery;
            let passed = if now >= state.last_update {
                now - state.last_update
            } else {
                0
            };
            let interval = if state.rtt_micros > 0 {
                (state.rtt_micros as int / 4) * 1_000
            } else {
                50_000_000
            };
            let next = lambda_updated(state, paths, now);
            let moved = if path.lost_count > state.lost_count {
                state.lambda + 200
            } else {
                state.lambda - 50
            };
            &&& passed < interval ==> next == state
            &&& passed >= interval ==> {
                &&& next.lambda == min(max(moved, 1000), 1500)
                &&& next.lost_count == path.lost_count
                &&& next.rtt_micros == (path.smoothed_rtt.nanos as int / 1000)
                    % 0x1_0000_0000_0000_0000
                &&& next.last_update == now
                &&& next.slow_path == state.slow_path
                &&& next.created == state.created
            }
        }),
{
    lemma_lookup_finds(paths, paths[i].0);
}

/// Without a path under observation, and where that path is gone, looking at it
/// changes nothing.
pub proof fn lemma_no_observed_path(state: BlestState, paths: Seq<(usize, Path)>, now: nat)
    requires
        forall|a: int, b: int|
            0 <= a < b < paths.len() ==> (#[trigger] paths[a]).0 != (#[trigger] paths[b]).0,
        state.slow_path is None || forall|i: int|
            0 <= i < paths.len() ==> state.slow_path != Some((#[trigger] paths[i]).0),
    ensures
        lambda_updated(state, paths, now) == state,
{
    if let Some(pid) = state.slow_path {
        assert forall|i: int| 0 <= i < paths.len() implies (#[trigger] paths[i]).0 != pid by {
        }
        lemma_lookup_finds(paths, pid);
    }
}

/// A loss counts once: an adjustment at which the observed path has lost no more
/// than it had at the adjustment before leaves the factor no higher than that one
/// did.
pub proof fn lemma_losses_count_once(
    state: BlestState,
    paths: Seq<(usize, Path)>,
    first: nat,
    i: int,
    later_paths: Seq<(usize, Path)>,
    second: nat,
    j: int,
)
    requires
        1000 <= state.lambda <= 1500,
        forall|a: int, b: int|
            0 <= a < b < paths.len() ==> (#[trigger] paths[a]).0 != (#[trigger] paths[b]).0,
        forall|a: int, b: int|
            0 <= a < b < later_paths.len() ==> (#[trigger] later_paths[a]).0 != (
            #[trigger] later_paths[b]).0,
        0 <= i < paths.len(),
        0 <= j < later_paths.len(),
        state.slow_path == Some(paths[i].0),
        later_paths[j].0 == paths[i].0,
        later_paths[j].1.recovery.lost_count <= paths[i].1.recovery.lost_count,
        first >= state.last_update + if state.rtt_micros > 0 {
            (state.rtt_micros as int / 4) * 1_000
        } else {
            50_000_000
        },
    ensures
        ({
            let next = lambda_updated(state, paths, first);
            let last = lambda_updated(next, later_paths, second);
            &&& last.lambda <= next.lambda
            &&& last != next ==> last.lambda == max(next.lambda - 50, 1000)
        }),
{
    lemma_observed_path(state, paths, first, i);
    lemma_observed_path(lambda_updated(state, paths, first), later_paths, second, j);
}

/// What becomes of a candidate. The fastest path is named, and no path is then
/// under observation. A path that the connection does not have is an error that
/// leaves the state.
pub proof fn lemma_blest_decides_at_once(
    state: BlestState,
    paths: Seq<(usize, Path)>,
    streams: StreamMap,
    now: nat,
    fast_pid: usize,
    candidate: usize,
)
    requires
        forall|a: int, b: int|
            0 <= a < b < paths.len() ==> (#[trigger] paths[a]).0 != (#[trigger] paths[b]).0,
    ensures
        ({
            let (next, answer) = blest_decision(state, paths, streams, now, fast_pid, candidate);
            &&& candidate == fast_pid ==> {
                &&& answer == Ok::<usize, Error>(candidate)
                &&& next.slow_path is None
                &&& next.lambda == state.lambda
                &&& next.lost_count == state.lost_count
                &&& next.rtt_micros == state.rtt_micros
                &&& next.last_update == state.last_update
                &&& next.created == state.created
            }
            &&& candidate != fast_pid && ((forall|i: int|
                0 <= i < paths.len() ==> (#[trigger] paths[i]).0 != candidate) || (forall|i: int|
                0 <= i < paths.len() ==> (#[trigger] paths[i]).0 != fast_pid)) ==> answer == Err::<
                usize,
                Error,
            >(Error::InternalError) && next == state
        }),
{
    lemma_lookup_finds(paths, fast_pid);
    lemma_lookup_finds(paths, candidate);
}

/// What becomes of a candidate that is another path than the fastest one. A path
/// that was not under observation comes under it, with its present loss count and
/// round-trip time and the present time, and the factor stays; one that was is
/// looked at, and the factor moves as its losses say once the interval has
/// passed. Then the candidate is refused exactly where its round-trip time is
/// known and the fastest path could send more in that time than the credit that
/// one datagram on the candidate leaves.
pub proof fn lemma_blest_decides(
    state: BlestState,
    paths: Seq<(usize, Path)>,
    streams: StreamMap,
    now: nat,
    fast: int,
    slow: int,
)
    requires
        forall|a: int, b: int|
            0 <= a < b < paths.len() ==> (#[trigger] paths[a]).0 != (#[trigger] paths[b]).0,
        0 <= fast < paths.len(),
        0 <= slow < paths.len(),
        fast != slow,
    ensures
        ({
            let f = paths[fast].1.recovery;
            let s = paths[slow].1.recovery;
            let (next, answer) = blest_decision(
                state,
                paths,
                streams,
                now,
                paths[fast].0,
                paths[slow].0,
            );
            let passed = if now >= state.last_update {
                now - state.last_update
            } else {
                0
            };
            let interval = if state.rtt_micros > 0 {
                (state.rtt_micros as int / 4) * 1_000
            } else {
                50_000_000
            };
            let moved = if s.lost_count > state.lost_count {
                state.lambda + 200
            } else {
                state.lambda - 50
            };
            let potential = if f.smoothed_rtt.nanos == 0 {
                f.congestion_window as int
            } else {
                (window_share(
                    f.congestion_window as nat,
                    (s.smoothed_rtt.nanos as int / 1000) as nat,
                    (f.smoothed_rtt.nanos as int / 1000) as nat,
                ) * next.lambda) / 1000
            };
            let credit = max(
                0,
                streams.max_tx_data - streams.tx_data - s.max_datagram_size,
            );
            let known = state.slow_path == Some(paths[slow].0);
            &&& known && passed < interval ==> next == state
            &&& !known || passed >= interval ==> {
                &&& next.lambda == if known {
                    min(max(moved, 1000), 1500)
                } else {
                    state.lambda
                }
                &&& next.slow_path == Some(paths[slow].0)
                &&& next.lost_count == s.lost_count
                &&& next.rtt_micros == (s.smoothed_rtt.nanos as int / 1000)
                    % 0x1_0000_0000_0000_0000
                &&& next.last_update == now
                &&& next.created == state.created
            }
            &&& s.smoothed_rtt.nanos > 0 && potential > credit ==> answer == Err::<usize, Error>(
                Error::Done,
            )
            &&& s.smoothed_rtt.nanos == 0 || potential <= credit ==> answer == Ok::<usize, Error>(
                paths[slow].0,
            )
        }),
{
    lemma_lookup_finds(paths, paths[fast].0);
    lemma_lookup_finds(paths, paths[slow].0);
    if fast < slow {
        assert(paths[fast].0 != paths[slow].0);
    } else {
        assert(paths[slow].0 != paths[fast].0);
    }
    if state.slow_path == Some(paths[slow].0) {
        lemma_observed_path(state, paths, now, slow);
    }
    let next = observed(state, paths, now, paths[slow].0, paths[slow].1);
    lemma_estimate(
        paths[fast].1.recovery.congestion_window as nat,
        paths[fast].1.recovery.smoothed_rtt,
        paths[slow].1.recovery.smoothed_rtt,
        next.lambda,
    );
    lemma_credit(streams, paths[slow].1, paths[slow].1);
}

/// A selection decides on the first of the active paths that can send which no
/// other such path outruns, against the first of the active paths with a
/// connection ID which no other such path outruns.
pub proof fn lemma_blest_selects(
    state: BlestState,
    paths: Seq<(usize, Path)>,
    streams: StreamMap,
    now: nat,
    fast: int,
    candidate: int,
)
    requires
        0 <= fast < paths.len(),
        paths[fast].1.active && paths[fast].1.dcid_seq is Some,
        forall|j: int|
            #![trigger paths[j]]
            0 <= j < paths.len() && paths[j].1.active && paths[j].1.dcid_seq is Some ==> {
                &&& paths[fast].1.recovery.smoothed_rtt.nanos
                    <= paths[j].1.recovery.smoothed_rtt.nanos
                &&& j < fast ==> paths[fast].1.recovery.smoothed_rtt.nanos
                    < paths[j].1.recovery.smoothed_rtt.nanos
            },
        0 <= candidate < paths.len(),
        paths[candidate].1.active && paths[candidate].1.recovery.can_send,
        forall|j: int|
            #![trigger paths[j]]
            0 <= j < paths.len() && paths[j].1.active && paths[j].1.recovery.can_send ==> {
                &&& paths[candidate].1.recovery.smoothed_rtt.nanos
                    <= paths[j].1.recovery.smoothed_rtt.nanos
                &&& j < candidate ==> paths[candidate].1.recovery.smoothed_rtt.nanos
                    < paths[j].1.recovery.smoothed_rtt.nanos
            },
    ensures
        blest_select(state, paths, streams, now) == blest_decision(
            state,
            paths,
            streams,
            now,
            paths[fast].0,
            paths[candidate].0,
        ),
{
    lemma_search_finds(paths, Eligibility::Addressable, fast);
    lemma_search_finds(paths, Eligibility::Ready, candidate);
}

/// Where no active path has a connection ID, or no active path can send, the
/// answer is `Done` and the state stays.
pub proof fn lemma_blest_selects_none(
    state: BlestState,
    paths: Seq<(usize, Path)>,
    streams: StreamMap,
    now: nat,
)
    requires
        (forall|j: int|
            0 <= j < paths.len() ==> !((#[trigger] paths[j]).1.active
                && paths[j].1.dcid_seq is Some)) || (forall|j: int|
            0 <= j < paths.len() ==> !((#[trigger] paths[j]).1.active
                && paths[j].1.recovery.can_send)),
    ensures
        blest_select(state, paths, streams, now) == (state, Err::<usize, Error>(Error::Done)),
{
    lemma_min_rtt(paths, Eligibility::Addressable);
    lemma_min_rtt(paths, Eligibility::Ready);
}

/// Two selections of the same slow path, the second less than a quarter of its
/// round-trip time after the first, make at most one adjustment: the second one
/// leaves the whole state. This goes by the time in nanoseconds and the
/// round-trip time in whole microseconds.
pub proof fn lemma_blest_selects_twice(
    state: BlestState,
    paths: Seq<(usize, Path)>,
    streams: StreamMap,
    first: nat,
    second: nat,
    slow: int,
)
    requires
        forall|a: int, b: int|
            0 <= a < b < paths.len() ==> (#[trigger] paths[a]).0 != (#[trigger] paths[b]).0,
        0 <= slow < paths.len(),
        blest_select(state, paths, streams, first).0.slow_path == Some(paths[slow].0),
        blest_select(state, paths, streams, first).0.last_update == first,
        blest_select(state, paths, streams, first).0.rtt_micros
            == paths[slow].1.recovery.smoothed_rtt.nanos as int / 1000,
        min_rtt(paths, Eligibility::Ready) == Some(paths[slow].0),
        min_rtt(paths, Eligibility::Addressable) != Some(paths[slow].0),
        first <= second,
        second - first < ((paths[slow].1.recovery.smoothed_rtt.nanos as int / 1000) / 4) * 1_000,
    ensures
        blest_select(
            blest_select(state, paths, streams, first).0,
            paths,
            streams,
            second,
        ).0 == blest_select(state, paths, streams, first).0,
{
    let next = blest_select(state, paths, streams, first).0;
    lemma_observed_path(next, paths, second, slow);
    lemma_lookup_finds(paths, paths[slow].0);
}

/// An abandoned path is forgotten, with what was remembered of it. Anything else
/// that happens to a path leaves the state, and nothing that happens to one moves
/// the factor or the times.
pub proof fn lemma_blest_path_event(state: BlestState, pid: usize)
    ensures
        ({
            let next = blest_path_updated(state, PathEvent::Abandoned(pid));
            &&& state.slow_path == Some(pid) ==> {
                &&& next.slow_path is None
                &&& next.lost_count == 0
                &&& next.rtt_micros == 0
            }
            &&& state.slow_path != Some(pid) ==> next == state
            &&& next.lambda == state.lambda
            &&& next.last_update == state.last_update
            &&& next.created == state.created
            &&& blest_path_updated(state, PathEvent::Validated(pid)) == state
        }),
{
}

/// The state is valid exactly where the factor is between 1000 and 1500, and a
/// selection can be made at any time on paths of ordinary size.
pub proof fn lemma_blest_can_select(
    scheduler: BlestScheduler,
    paths: Seq<(usize, Path)>,
    streams: StreamMap,
)
    requires
        forall|a: int, b: int|
            0 <= a < b < paths.len() ==> (#[trigger] paths[a]).0 != (#[trigger] paths[b]).0,
        forall|i: int, j: int|
            #![trigger paths[i], paths[j]]
            0 <= i < paths.len() && 0 <= j < paths.len() ==> {
                let fast = paths[i].1.recovery;
                let slow = paths[j].1.recovery;
                fast.smoothed_rtt.nanos == 0 || (fast.smoothed_rtt.nanos >= 1_000
                    && fast.congestion_window * (slow.smoothed_rtt.nanos as int / 1000)
                    <= 0x20_0000_0000_0000 * (fast.smoothed_rtt.nanos as int / 1000))
            },
    ensures
        scheduler.valid() <==> 1000 <= scheduler@.lambda <= 1500,
        scheduler.valid() ==> scheduler.can_select(paths, streams),
{
    if scheduler.valid() {
        lemma_distinct_ids(paths);
        assert forall|now: u128| #[trigger] select_fits(scheduler@, paths, now as nat) by {
            lemma_select_fits(scheduler@, paths, now as nat);
        }
    }
}

} // verus!
