//! What holds of every selection of the ECF scheduler.

use vstd::math::min;
use vstd::prelude::*;

use crate::accuracy::lemma_real_mul;
use crate::path::{
    distinct_ids, is_first_min, lemma_lookup, lemma_min_rtt, lemma_min_rtt_is,
    lemma_window_in_total, min_rtt, total_window, Eligibility, Error, Path, Recovery,
};
use crate::path_laws::{lemma_distinct_ids, lemma_lookup_finds, lemma_search_finds};
use crate::scheduler::{MultipathScheduler, StreamMap};
use crate::scheduler_ecf::{
    ecf_decision, ecf_select, slow_path_is_costly, waiting_completes_earlier, EcfScheduler,
};

verus! {

/// A path that is named is the active and validated path with the lowest
/// round-trip time among those that can send now. The only error is `Done`.
pub proof fn lemma_ecf_answer(waiting: bool, paths: Seq<(usize, Path)>)
    requires
        distinct_ids(paths),
    ensures
        match ecf_select(waiting, paths).1 {
            Ok(pid) => min_rtt(paths, Eligibility::Available) == Some(pid),
            Err(e) => e == Error::Done,
        },
{
    if min_rtt(paths, Eligibility::Validated) is Some {
        let i = lemma_min_rtt(paths, Eligibility::Validated);
        lemma_lookup(paths, i);
        if paths[i].1.recovery.can_send {
            assert(is_first_min(paths, Eligibility::Available, i));
            lemma_min_rtt_is(paths, Eligibility::Available, i);
        }
    }
}

/// Without an active and validated path the answer is `Done`, and the state
/// stays.
pub proof fn lemma_ecf_no_path(waiting: bool, paths: Seq<(usize, Path)>)
    requires
        forall|i: int|
            0 <= i < paths.len() ==> !Eligibility::Validated.admits((#[trigger] paths[i]).1),
    ensures
        ecf_select(waiting, paths) == (waiting, Err::<usize, Error>(Error::Done)),
{
    lemma_min_rtt(paths, Eligibility::Validated);
}

/// The fastest path is named whenever it can send.
pub proof fn lemma_ecf_fast_path(waiting: bool, paths: Seq<(usize, Path)>, i: int)
    requires
        distinct_ids(paths),
        is_first_min(paths, Eligibility::Validated, i),
        paths[i].1.recovery.can_send,
    ensures
        ecf_select(waiting, paths) == (false, Ok::<usize, Error>(paths[i].0)),
{
    lemma_min_rtt_is(paths, Eligibility::Validated, i);
    lemma_lookup(paths, i);
}

/// The scheduler waits where no active and validated path can send, and where
/// there is such a path at all.
pub proof fn lemma_ecf_all_busy(waiting: bool, paths: Seq<(usize, Path)>)
    requires
        distinct_ids(paths),
        min_rtt(paths, Eligibility::Validated) is Some,
        min_rtt(paths, Eligibility::Available) is None,
    ensures
        ecf_select(waiting, paths) == (true, Err::<usize, Error>(Error::Done)),
{
    let i = lemma_min_rtt(paths, Eligibility::Validated);
    lemma_lookup(paths, i);
    lemma_min_rtt(paths, Eligibility::Available);
}

/// The state says whether the last decision was to wait: after a path was named
/// it says no, and after `Done` it says yes, except where no decision was made,
/// for want of a validated path or of any congestion window; then it stays.
pub proof fn lemma_ecf_state(waiting: bool, paths: Seq<(usize, Path)>)
    requires
        distinct_ids(paths),
    ensures
        ({
            let (next, answer) = ecf_select(waiting, paths);
            let undecided = min_rtt(paths, Eligibility::Validated) is None || (min_rtt(
                paths,
                Eligibility::Available,
            ) is Some && total_window(paths, Eligibility::Validated) == 0);
            &&& answer is Ok ==> !next
            &&& answer is Err && !undecided ==> next
            &&& answer is Err && undecided ==> next == waiting
        }),
{
    if min_rtt(paths, Eligibility::Validated) is Some {
        let i = lemma_min_rtt(paths, Eligibility::Validated);
        lemma_lookup(paths, i);
    }
}

/// Being in the waiting state never turns an answer to wait into a path, and
/// what path is named does not depend on it.
pub proof fn lemma_ecf_hysteresis(paths: Seq<(usize, Path)>)
    ensures
        ecf_select(false, paths).1 is Err ==> ecf_select(true, paths).1 is Err,
        ecf_select(true, paths).1 matches Ok(pid) ==> ecf_select(false, paths).1 == Ok::<
            usize,
            Error,
        >(pid),
{
}

/// The integer test is the inequality `RTTf + k / CWNDf * RTTf < RTTs`, unless
/// both of its sides, times `CWNDf`, are too large for 128 bits.
pub proof fn lemma_ecf_wait_formula(k: nat, fast: Recovery, slow: Recovery)
    requires
        fast.congestion_window > 0,
        !(u128::MAX <= (fast.congestion_window + k) * fast.smoothed_rtt.micros()
            < fast.congestion_window * slow.smoothed_rtt.micros()),
    ensures
        waiting_completes_earlier(false, k, fast, slow) <==> ({
            let rtt_f = fast.smoothed_rtt.micros() as real;
            let rtt_s = slow.smoothed_rtt.micros() as real;
            rtt_f + (k as real) / (fast.congestion_window as real) * rtt_f < rtt_s
        }),
{
    let c = fast.congestion_window as int;
    let f = fast.smoothed_rtt.micros() as int;
    let s = slow.smoothed_rtt.micros() as int;
    lemma_cleared_wait(c as real, k as real, f as real, s as real);
    lemma_real_mul(c + k, f);
    lemma_real_mul(c, s);
}

/// While waiting, the right side counts for a quarter more, rounded down: the
/// scheduler waits on only where `4 * (CWNDf + k) * RTTf < 5 * CWNDf * RTTs`,
/// and does so wherever the left side is less by at least 4 and fits 128 bits.
pub proof fn lemma_ecf_wait_on_formula(k: nat, fast: Recovery, slow: Recovery)
    ensures
        ({
            let wait = (fast.congestion_window + k) * fast.smoothed_rtt.micros();
            let send = fast.congestion_window * slow.smoothed_rtt.micros();
            &&& waiting_completes_earlier(true, k, fast, slow) ==> 4 * wait < 5 * send
            &&& wait < u128::MAX && 4 * wait + 4 <= 5 * send ==> waiting_completes_earlier(
                true,
                k,
                fast,
                slow,
            )
        }),
{
}

/// The integer test is the inequality `k / CWNDs * RTTs >= 2 * RTTf`, unless
/// both of its sides, times `CWNDs`, are too large for 128 bits.
pub proof fn lemma_ecf_cost_formula(k: nat, fast: Recovery, slow: Recovery)
    requires
        slow.congestion_window > 0,
        !(u128::MAX <= k * slow.smoothed_rtt.micros() < 2 * fast.smoothed_rtt.micros()
            * slow.congestion_window),
    ensures
        slow_path_is_costly(k, fast, slow) <==> ({
            let rtt_f = fast.smoothed_rtt.micros() as real;
            let rtt_s = slow.smoothed_rtt.micros() as real;
            (k as real) / (slow.congestion_window as real) * rtt_s >= 2real * rtt_f
        }),
{
    let c = slow.congestion_window as int;
    let f = fast.smoothed_rtt.micros() as int;
    let s = slow.smoothed_rtt.micros() as int;
    lemma_cleared_cost(c as real, k as real, f as real, s as real);
    lemma_real_mul(k as int, s);
    lemma_real_mul(2 * f, c);
}

/// With round-trip times below `2^62` microseconds and a byte count of 64 bits,
/// nothing that the two tests compute is too large for 128 bits.
pub proof fn lemma_ecf_fits(k: nat, fast: Recovery, slow: Recovery)
    requires
        k <= u64::MAX,
        fast.smoothed_rtt.micros() < 0x4000_0000_0000_0000,
        slow.smoothed_rtt.micros() < 0x4000_0000_0000_0000,
    ensures
        (fast.congestion_window + k) * fast.smoothed_rtt.micros() < u128::MAX,
        fast.congestion_window * slow.smoothed_rtt.micros() * 5 < u128::MAX * 4,
        k * slow.smoothed_rtt.micros() < u128::MAX,
        2 * fast.smoothed_rtt.micros() * slow.congestion_window < u128::MAX,
{
    lemma_product_bound(
        fast.congestion_window + k,
        0x2_0000_0000_0000_0000,
        fast.smoothed_rtt.micros() as int,
    );
    lemma_product_bound(
        fast.congestion_window as int,
        0x1_0000_0000_0000_0000,
        slow.smoothed_rtt.micros() as int,
    );
    lemma_product_bound(k as int, 0x1_0000_0000_0000_0000, slow.smoothed_rtt.micros() as int);
    lemma_product_bound(
        slow.congestion_window as int,
        0x1_0000_0000_0000_0000,
        fast.smoothed_rtt.micros() as int,
    );
    let f = fast.smoothed_rtt.micros() as int;
    let c = slow.congestion_window as int;
    assert(2 * f * c == 2 * (c * f)) by (nonlinear_arith);
}

/// The scheduler passes over an available path only where that path's round-trip
/// time is more than 1.6 times that of the fastest path.
pub proof fn lemma_ecf_waits_for_faster(
    waiting: bool,
    paths: Seq<(usize, Path)>,
    fast: int,
    slow: int,
)
    requires
        distinct_ids(paths),
        is_first_min(paths, Eligibility::Validated, fast),
        is_first_min(paths, Eligibility::Available, slow),
        total_window(paths, Eligibility::Validated) > 0,
        ecf_select(waiting, paths).1 is Err,
    ensures
        5 * paths[slow].1.recovery.smoothed_rtt.micros() > 8
            * paths[fast].1.recovery.smoothed_rtt.micros(),
{
    lemma_min_rtt_is(paths, Eligibility::Validated, fast);
    lemma_min_rtt_is(paths, Eligibility::Available, slow);
    lemma_lookup(paths, fast);
    lemma_lookup(paths, slow);
    lemma_window_in_total(paths, Eligibility::Validated, fast);
    let k = total_window(paths, Eligibility::Validated) as int;
    let rf = paths[fast].1.recovery;
    let rs = paths[slow].1.recovery;
    let c = rf.congestion_window as int;
    let f = rf.smoothed_rtt.micros() as int;
    let s = rs.smoothed_rtt.micros() as int;
    lemma_ecf_wait_on_formula(k as nat, rf, rs);
    assert((c + k) * f >= 2 * (c * f)) by (nonlinear_arith)
        requires
            k >= c,
            f >= 0,
    ;
    assert(0 <= c * s) by (nonlinear_arith)
        requires
            c >= 0,
            s >= 0,
    ;
    assert(8 * (c * f) < 5 * (c * s));
    assert(8 * f < 5 * s) by (nonlinear_arith)
        requires
            8 * (c * f) < 5 * (c * s),
            c >= 0,
    ;
}

/// The decision between a busy fast path and an available slow path, for any
/// byte count, in the four quantities that it may depend on, capped at 128 bits.
/// Without a byte nothing is decided. Without a window on either side the slow
/// path is used. Otherwise the scheduler waits exactly where
/// `(CWNDf + k) * RTTf < CWNDf * RTTs`, the right side raised by a quarter while
/// already waiting, and `k * RTTs >= 2 * RTTf * CWNDs`.
pub proof fn lemma_ecf_decides(
    waiting: bool,
    k: nat,
    fast: Recovery,
    slow: Recovery,
    slow_pid: usize,
)
    ensures
        ({
            let cwnd_f = fast.congestion_window as int;
            let cwnd_s = slow.congestion_window as int;
            let rtt_f = fast.smoothed_rtt.nanos as int / 1000;
            let rtt_s = slow.smoothed_rtt.nanos as int / 1000;
            let cap = u128::MAX as int;
            let wait = min((cwnd_f + k) * rtt_f, cap);
            let send = min(cwnd_f * rtt_s, cap);
            let raised = if waiting {
                min(send + send / 4, cap)
            } else {
                send
            };
            let costly = min(k * rtt_s, cap) >= min(2 * rtt_f * cwnd_s, cap);
            let (next, answer) = ecf_decision(waiting, k, fast, slow, slow_pid);
            &&& k == 0 ==> next == waiting && answer == Err::<usize, Error>(Error::Done)
            &&& k > 0 && (cwnd_f == 0 || cwnd_s == 0) ==> !next && answer == Ok::<usize, Error>(
                slow_pid,
            )
            &&& k > 0 && cwnd_f > 0 && cwnd_s > 0 && wait < raised && costly ==> next && answer
                == Err::<usize, Error>(Error::Done)
            &&& k > 0 && cwnd_f > 0 && cwnd_s > 0 && !(wait < raised && costly) ==> !next && answer
                == Ok::<usize, Error>(slow_pid)
        }),
{
}

/// The decision is the one between two completion times. With windows on both
/// sides and round-trip times below `2^62` microseconds, a scheduler that is not
/// yet waiting waits exactly where `RTTf + k / CWNDf * RTTf < RTTs` and
/// `k / CWNDs * RTTs >= 2 * RTTf`.
pub proof fn lemma_ecf_compares_completion(
    k: nat,
    fast: Recovery,
    slow: Recovery,
    slow_pid: usize,
)
    requires
        0 < k <= u64::MAX,
        fast.congestion_window > 0,
        slow.congestion_window > 0,
        fast.smoothed_rtt.nanos / 1000 < 0x4000_0000_0000_0000,
        slow.smoothed_rtt.nanos / 1000 < 0x4000_0000_0000_0000,
    ensures
        ({
            let cwnd_f = fast.congestion_window as real;
            let cwnd_s = slow.congestion_window as real;
            let rtt_f = (fast.smoothed_rtt.nanos as int / 1000) as real;
            let rtt_s = (slow.smoothed_rtt.nanos as int / 1000) as real;
            let bytes = k as real;
            ecf_decision(false, k, fast, slow, slow_pid).1 is Err <==> rtt_f + bytes / cwnd_f
                * rtt_f < rtt_s && bytes / cwnd_s * rtt_s >= 2real * rtt_f
        }),
{
    lemma_ecf_fits(k, fast, slow);
    lemma_ecf_wait_formula(k, fast, slow);
    lemma_ecf_cost_formula(k, fast, slow);
}

/// A selection with a busy fastest path and another one available decides
/// between the records of these two, for the windows of all active and
/// validated paths together: it answers `Done` exactly where the window of the
/// fastest path makes waiting for it complete earlier, and the window of the
/// available one makes sending on it cost twice the fastest round-trip time.
pub proof fn lemma_ecf_selects(waiting: bool, paths: Seq<(usize, Path)>, fast: int, slow: int)
    requires
        forall|i: int, j: int|
            0 <= i < j < paths.len() ==> (#[trigger] paths[i]).0 != (#[trigger] paths[j]).0,
        0 <= fast < paths.len(),
        paths[fast].1.active && paths[fast].1.validated && !paths[fast].1.recovery.can_send,
        forall|j: int|
            #![trigger paths[j]]
            0 <= j < paths.len() && paths[j].1.active && paths[j].1.validated ==> {
                &&& paths[fast].1.recovery.smoothed_rtt.nanos
                    <= paths[j].1.recovery.smoothed_rtt.nanos
                &&& j < fast ==> paths[fast].1.recovery.smoothed_rtt.nanos
                    < paths[j].1.recovery.smoothed_rtt.nanos
            },
        0 <= slow < paths.len(),
        paths[slow].1.active && paths[slow].1.validated && paths[slow].1.recovery.can_send,
        forall|j: int|
            #![trigger paths[j]]
            0 <= j < paths.len() && paths[j].1.active && paths[j].1.validated
                && paths[j].1.recovery.can_send ==> {
                &&& paths[slow].1.recovery.smoothed_rtt.nanos
                    <= paths[j].1.recovery.smoothed_rtt.nanos
                &&& j < slow ==> paths[slow].1.recovery.smoothed_rtt.nanos
                    < paths[j].1.recovery.smoothed_rtt.nanos
            },
    ensures
        ({
            let k = total_window(paths, Eligibility::Validated) as int;
            let cwnd_f = paths[fast].1.recovery.congestion_window as int;
            let cwnd_s = paths[slow].1.recovery.congestion_window as int;
            let rtt_f = paths[fast].1.recovery.smoothed_rtt.nanos as int / 1000;
            let rtt_s = paths[slow].1.recovery.smoothed_rtt.nanos as int / 1000;
            let cap = u128::MAX as int;
            let wait = min((cwnd_f + k) * rtt_f, cap);
            let send = min(cwnd_f * rtt_s, cap);
            let raised = if waiting {
                min(send + send / 4, cap)
            } else {
                send
            };
            let costly = min(k * rtt_s, cap) >= min(2 * rtt_f * cwnd_s, cap);
            let (next, answer) = ecf_select(waiting, paths);
            &&& k == 0 ==> next == waiting && answer == Err::<usize, Error>(Error::Done)
            &&& k > 0 && (cwnd_f == 0 || cwnd_s == 0) ==> !next && answer == Ok::<usize, Error>(
                paths[slow].0,
            )
            &&& k > 0 && cwnd_f > 0 && cwnd_s > 0 && wait < raised && costly ==> next && answer
                == Err::<usize, Error>(Error::Done)
            &&& k > 0 && cwnd_f > 0 && cwnd_s > 0 && !(wait < raised && costly) ==> !next && answer
                == Ok::<usize, Error>(paths[slow].0)
        }),
{
    lemma_search_finds(paths, Eligibility::Validated, fast);
    lemma_search_finds(paths, Eligibility::Available, slow);
    lemma_lookup_finds(paths, paths[fast].0);
    lemma_lookup_finds(paths, paths[slow].0);
    lemma_ecf_decides(
        waiting,
        total_window(paths, Eligibility::Validated),
        paths[fast].1.recovery,
        paths[slow].1.recovery,
        paths[slow].0,
    );
}

/// Where the fastest of the active and validated paths can send, it is named and
/// the waiting ends; where none of them can, the scheduler waits; where there is
/// none, the answer is `Done` and the state stays.
pub proof fn lemma_ecf_selects_at_once(waiting: bool, paths: Seq<(usize, Path)>)
    requires
        forall|i: int, j: int|
            0 <= i < j < paths.len() ==> (#[trigger] paths[i]).0 != (#[trigger] paths[j]).0,
    ensures
        forall|fast: int|
            #![trigger paths[fast]]
            0 <= fast < paths.len() && paths[fast].1.active && paths[fast].1.validated
                && paths[fast].1.recovery.can_send && (forall|j: int|
                #![trigger paths[j]]
                0 <= j < paths.len() && paths[j].1.active && paths[j].1.validated ==> {
                    &&& paths[fast].1.recovery.smoothed_rtt.nanos
                        <= paths[j].1.recovery.smoothed_rtt.nanos
                    &&& j < fast ==> paths[fast].1.recovery.smoothed_rtt.nanos
                        < paths[j].1.recovery.smoothed_rtt.nanos
                }) ==> ecf_select(waiting, paths) == (false, Ok::<usize, Error>(paths[fast].0)),
        (exists|i: int|
            0 <= i < paths.len() && (#[trigger] paths[i]).1.active && paths[i].1.validated) && (
        forall|i: int|
            0 <= i < paths.len() && (#[trigger] paths[i]).1.active && paths[i].1.validated
                ==> !paths[i].1.recovery.can_send) ==> ecf_select(waiting, paths) == (
            true,
            Err::<usize, Error>(Error::Done),
        ),
        (forall|i: int|
            0 <= i < paths.len() ==> !((#[trigger] paths[i]).1.active && paths[i].1.validated))
            ==> ecf_select(waiting, paths) == (waiting, Err::<usize, Error>(Error::Done)),
{
    lemma_distinct_ids(paths);
    assert forall|fast: int|
        #![trigger paths[fast]]
        0 <= fast < paths.len() && paths[fast].1.active && paths[fast].1.validated
            && paths[fast].1.recovery.can_send && (forall|j: int|
            #![trigger paths[j]]
            0 <= j < paths.len() && paths[j].1.active && paths[j].1.validated ==> {
                &&& paths[fast].1.recovery.smoothed_rtt.nanos
                    <= paths[j].1.recovery.smoothed_rtt.nanos
                &&& j < fast ==> paths[fast].1.recovery.smoothed_rtt.nanos
                    < paths[j].1.recovery.smoothed_rtt.nanos
            }) implies ecf_select(waiting, paths) == (false, Ok::<usize, Error>(paths[fast].0)) by {
        lemma_search_finds(paths, Eligibility::Validated, fast);
        lemma_ecf_fast_path(waiting, paths, fast);
    }
    let i = lemma_min_rtt(paths, Eligibility::Validated);
    let j = lemma_min_rtt(paths, Eligibility::Available);
    if min_rtt(paths, Eligibility::Validated) is Some {
        lemma_lookup(paths, i);
    }
}

/// The only thing that a selection asks for is that the windows which it adds up
/// make no more than 64 bits, and it adds them up only where the fastest of the
/// active and validated paths is busy and another one can send.
pub proof fn lemma_ecf_can_select(
    scheduler: EcfScheduler,
    paths: Seq<(usize, Path)>,
    streams: StreamMap,
)
    ensures
        scheduler.valid(),
        total_window(paths, Eligibility::Validated) <= u64::MAX ==> scheduler.can_select(
            paths,
            streams,
        ),
        (forall|i: int|
            0 <= i < paths.len() ==> !((#[trigger] paths[i]).1.active && paths[i].1.validated
                && paths[i].1.recovery.can_send)) ==> scheduler.can_select(paths, streams),
{
    lemma_min_rtt(paths, Eligibility::Available);
}

proof fn lemma_product_bound(a: int, a_end: int, b: int)
    by (nonlinear_arith)
    requires
        0 <= a < a_end,
        0 <= b < 0x4000_0000_0000_0000,
    ensures
        a * b <= a_end * 0x4000_0000_0000_0000,
{
}

proof fn lemma_cleared_wait(c: real, k: real, f: real, s: real)
    requires
        c > 0real,
    ensures
        f + k / c * f < s <==> (c + k) * f < c * s,
{
    let x = k / c;
    assert(x * c == k) by (nonlinear_arith)
        requires
            x == k / c,
            c > 0real,
    ;
    assert((c + x * c) * f == c * (f + x * f)) by (nonlinear_arith);
    let y = f + x * f;
    assert(y < s <==> c * y < c * s) by (nonlinear_arith)
        requires
            c > 0real,
    ;
}

proof fn lemma_cleared_cost(c: real, k: real, f: real, s: real)
    requires
        c > 0real,
    ensures
        k / c * s >= 2real * f <==> k * s >= 2real * f * c,
{
    let x = k / c;
    assert(x * c == k) by (nonlinear_arith)
        requires
            x == k / c,
            c > 0real,
    ;
    assert((x * c) * s == c * (x * s)) by (nonlinear_arith);
    assert(2real * f * c == c * (2real * f)) by (nonlinear_arith);
    let y = x * s;
    let z = 2real * f;
    assert(y >= z <==> c * y >= c * z) by (nonlinear_arith)
        requires
            c > 0real,
    ;
}

} // verus!
