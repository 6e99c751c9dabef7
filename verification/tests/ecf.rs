use multipath_scheduler::path::{Error, Path, PathMap, Recovery};
use multipath_scheduler::scheduler::{
    MultipathAlgorithm, MultipathConfig, MultipathScheduler, PathEvent, StreamMap,
};
use multipath_scheduler::scheduler_ecf::EcfScheduler;
use multipath_scheduler::time::Duration;

const STREAMS: StreamMap = StreamMap { max_tx_data: 0, tx_data: 0 };

fn ecf() -> EcfScheduler {
    EcfScheduler::new(&MultipathConfig { multipath_algorithm: MultipathAlgorithm::Ecf })
}

fn path(rtt_micros: u64, can_send: bool, window: u64) -> Path {
    Path {
        active: true,
        validated: true,
        dcid_seq: Some(0),
        recovery: Recovery {
            can_send,
            smoothed_rtt: Duration::from_micros(rtt_micros),
            congestion_window: window,
            lost_count: 0,
            max_datagram_size: 1200,
        },
    }
}

fn map(paths: &[(usize, Path)]) -> PathMap {
    let mut map = PathMap::new();
    for (pid, path) in paths {
        map.insert(*pid, *path);
    }
    map
}

#[test]
fn ecf_no_path_is_done() {
    let mut scheduler = ecf();
    assert_eq!(scheduler.on_select(&PathMap::new(), &STREAMS), Err(Error::Done));
    let mut unvalidated = path(10, true, 1000);
    unvalidated.validated = false;
    let paths = map(&[(0, unvalidated)]);
    assert_eq!(scheduler.on_select(&paths, &STREAMS), Err(Error::Done));
}

#[test]
fn ecf_fast_path_is_used_when_it_can_send() {
    let paths = map(&[(4, path(100, true, 1000)), (6, path(10, true, 1000))]);
    assert_eq!(ecf().on_select(&paths, &STREAMS), Ok(6));
}

#[test]
fn ecf_waits_when_every_path_is_busy() {
    let paths = map(&[(4, path(100, false, 1000)), (6, path(10, false, 1000))]);
    assert_eq!(ecf().on_select(&paths, &STREAMS), Err(Error::Done));
}

#[test]
fn ecf_waits_for_a_much_faster_path() {
    // (1000 + 2000) * 10 < 1000 * 100, and 2000 * 100 >= 2 * 10 * 1000.
    let paths = map(&[(4, path(100, true, 1000)), (6, path(10, false, 1000))]);
    assert_eq!(ecf().on_select(&paths, &STREAMS), Err(Error::Done));
}

#[test]
fn ecf_uses_a_path_that_is_not_much_slower() {
    // (1000 + 2000) * 10 = 1000 * 30.
    let paths = map(&[(4, path(30, true, 1000)), (6, path(10, false, 1000))]);
    assert_eq!(ecf().on_select(&paths, &STREAMS), Ok(4));
    let paths = map(&[(4, path(31, true, 1000)), (6, path(10, false, 1000))]);
    assert_eq!(ecf().on_select(&paths, &STREAMS), Err(Error::Done));
}

#[test]
fn ecf_uses_a_slow_path_with_a_large_window() {
    let mut scheduler = ecf();
    let fast = path(10, false, 1000).recovery;
    let slow = path(100, true, 100_000).recovery;
    // (1000 + 1000) * 10 < 1000 * 100, but 1000 * 100 < 2 * 10 * 100000.
    assert_eq!(scheduler.decide(1000, &fast, &slow, 4), Ok(4));
    let slow = path(100, true, 5_000).recovery;
    assert_eq!(scheduler.decide(1000, &fast, &slow, 4), Err(Error::Done));
    let slow = path(100, true, 5_001).recovery;
    assert_eq!(ecf().decide(1000, &fast, &slow, 4), Ok(4));
}

#[test]
fn ecf_waiting_state_counts_a_quarter_more() {
    // (1000 + 2000) * 10 = 30000, against 1000 * 25 = 25000 and a quarter more.
    let close = map(&[(4, path(25, true, 1000)), (6, path(10, false, 1000))]);
    assert_eq!(ecf().on_select(&close, &STREAMS), Ok(4));
    let mut waiting = ecf();
    let busy = map(&[(6, path(10, false, 1000))]);
    assert_eq!(waiting.on_select(&busy, &STREAMS), Err(Error::Done));
    assert_eq!(waiting.on_select(&close, &STREAMS), Err(Error::Done));
    // 1000 * 24 and a quarter more is 30000.
    let closer = map(&[(4, path(24, true, 1000)), (6, path(10, false, 1000))]);
    assert_eq!(waiting.on_select(&closer, &STREAMS), Ok(4));
    // Naming a path ended the waiting.
    assert_eq!(waiting.on_select(&close, &STREAMS), Ok(4));
}

#[test]
fn ecf_fast_path_ends_the_waiting() {
    let close = map(&[(4, path(25, true, 1000)), (6, path(10, false, 1000))]);
    let mut scheduler = ecf();
    let busy = map(&[(6, path(10, false, 1000))]);
    assert_eq!(scheduler.on_select(&busy, &STREAMS), Err(Error::Done));
    let free = map(&[(6, path(10, true, 1000))]);
    assert_eq!(scheduler.on_select(&free, &STREAMS), Ok(6));
    assert_eq!(scheduler.on_select(&close, &STREAMS), Ok(4));
}

#[test]
fn ecf_no_decision_leaves_the_state() {
    let close = map(&[(4, path(25, true, 1000)), (6, path(10, false, 1000))]);
    let mut scheduler = ecf();
    let busy = map(&[(6, path(10, false, 1000))]);
    assert_eq!(scheduler.on_select(&busy, &STREAMS), Err(Error::Done));
    assert_eq!(scheduler.on_select(&PathMap::new(), &STREAMS), Err(Error::Done));
    let empty = map(&[(4, path(25, true, 0)), (6, path(10, false, 0))]);
    assert_eq!(scheduler.on_select(&empty, &STREAMS), Err(Error::Done));
    scheduler.on_sent(4, &close, &STREAMS);
    scheduler.on_path_updated(&close, PathEvent::Validated(4));
    assert_eq!(scheduler.on_select(&close, &STREAMS), Err(Error::Done));
}

#[test]
fn ecf_empty_window_of_one_path_uses_the_slow_path() {
    let paths = map(&[(4, path(1000, true, 1000)), (6, path(10, false, 0))]);
    assert_eq!(ecf().on_select(&paths, &STREAMS), Ok(4));
    let paths = map(&[(4, path(1000, true, 0)), (6, path(10, false, 1000))]);
    assert_eq!(ecf().on_select(&paths, &STREAMS), Ok(4));
}

#[test]
fn ecf_searches_of_the_scheduler() {
    let mut unvalidated = path(1, true, 50);
    unvalidated.validated = false;
    let paths = map(&[
        (1, unvalidated),
        (4, path(100, true, 1000)),
        (6, path(10, false, 300)),
        (8, path(90, true, 20)),
    ]);
    let scheduler = ecf();
    assert_eq!(scheduler.find_fastest_path(&paths), Some(6));
    assert_eq!(scheduler.find_best_available_path(&paths), Some(8));
    assert_eq!(scheduler.get_k_for_ecf(&paths), 1320);
}

#[test]
fn ecf_huge_round_trip_times_saturate() {
    let mut fast = path(0, false, u64::MAX).recovery;
    fast.smoothed_rtt = Duration::from_nanos(u128::MAX / 2);
    let mut slow = path(0, true, u64::MAX).recovery;
    slow.smoothed_rtt = Duration::from_nanos(u128::MAX);
    // Both sides reach the largest 128-bit integer.
    assert_eq!(ecf().decide(u64::MAX, &fast, &slow, 4), Ok(4));
}
