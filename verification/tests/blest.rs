use multipath_scheduler::path::{Error, Path, PathMap, Recovery};
use multipath_scheduler::scheduler::{
    MultipathAlgorithm, MultipathConfig, MultipathScheduler, PathEvent, StreamMap,
};
use multipath_scheduler::scheduler_blest::BlestScheduler;
use multipath_scheduler::time::Duration;

fn blest() -> BlestScheduler {
    BlestScheduler::new(&MultipathConfig { multipath_algorithm: MultipathAlgorithm::Blest })
}

fn path(rtt_micros: u64, can_send: bool, window: u64) -> Path {
    Path {
        active: true,
        validated: true,
        dcid_seq: Some(0),
        recovery: Recovery {
            can_send,
            smoothed_rtt: Duration::from_micros(rtt_micros),
            congestion_window: window,
            lost_count: 0,
            max_datagram_size: 1200,
        },
    }
}

fn lossy(rtt_micros: u64, lost_count: u64) -> Path {
    let mut path = path(rtt_micros, true, 1000);
    path.recovery.lost_count = lost_count;
    path
}

fn map(paths: &[(usize, Path)]) -> PathMap {
    let mut map = PathMap::new();
    for (pid, path) in paths {
        map.insert(*pid, *path);
    }
    map
}

fn credit(bytes: u64) -> StreamMap {
    StreamMap { max_tx_data: bytes + 500, tx_data: 500 }
}

fn millis(n: u64) -> Duration {
    Duration::from_millis(n)
}

/// A path that sends 1000 bytes in a round trip is taken to send as many bytes
/// in one as the safety factor has thousandths.
fn lambda(scheduler: &BlestScheduler) -> u64 {
    scheduler.estimate_fast_path_bytes(&path(100, true, 1000), Duration::from_micros(100))
}

/// The fast path is busy; the slow path, with the ID 7, has lost `lost_count`
/// packets and takes 100 ms.
fn slow_path(lost_count: u64) -> PathMap {
    map(&[(3, path(10_000, false, 1000)), (7, lossy(100_000, lost_count))])
}

#[test]
fn blest_starts_with_the_initial_factor() {
    assert_eq!(lambda(&blest()), 1200);
}

#[test]
fn blest_no_path_is_done() {
    let mut scheduler = blest();
    assert_eq!(scheduler.on_select(&PathMap::new(), &credit(10)), Err(Error::Done));
    let mut unaddressed = path(10, true, 1000);
    unaddressed.dcid_seq = None;
    let paths = map(&[(0, unaddressed)]);
    assert_eq!(scheduler.on_select(&paths, &credit(10)), Err(Error::Done));
    let busy = map(&[(0, path(10, false, 1000))]);
    assert_eq!(scheduler.on_select(&busy, &credit(10)), Err(Error::Done));
}

#[test]
fn blest_fast_path_is_used_without_credit() {
    let paths = map(&[(3, path(10_000, true, 1000)), (7, path(100_000, true, 1000))]);
    assert_eq!(blest().on_select(&paths, &credit(0)), Ok(3));
}

#[test]
fn blest_slow_path_is_refused_where_it_would_block() {
    // The fast path could send 10 * 1000 * 1.2 bytes.
    let paths = slow_path(0);
    assert_eq!(blest().on_select(&paths, &credit(13_200)), Ok(7));
    assert_eq!(blest().on_select(&paths, &credit(13_199)), Err(Error::Done));
    assert_eq!(blest().on_select(&paths, &credit(0)), Err(Error::Done));
    let overdrawn = StreamMap { max_tx_data: 1, tx_data: 2 };
    assert_eq!(blest().on_select(&paths, &overdrawn), Err(Error::Done));
}

#[test]
fn blest_more_credit_keeps_an_allowance() {
    let paths = slow_path(0);
    for bytes in [13_200u64, 13_201, 20_000, 1_000_000] {
        assert_eq!(blest().on_select_at(&paths, &credit(bytes), millis(5)), Ok(7));
    }
}

#[test]
fn blest_unknown_round_trip_time_of_the_candidate_is_allowed() {
    // The candidate has no connection ID, so that it is not the fastest path.
    let mut candidate = path(0, true, 1000);
    candidate.dcid_seq = None;
    let paths = map(&[(3, path(10_000, false, 1000)), (7, candidate)]);
    assert_eq!(blest().on_select(&paths, &credit(0)), Ok(7));
}

#[test]
fn blest_unknown_round_trip_time_of_the_fast_path_counts_one_window() {
    let paths = map(&[(3, path(0, false, 1000)), (7, path(100_000, true, 1000))]);
    assert_eq!(blest().on_select(&paths, &credit(2_200)), Ok(7));
    assert_eq!(blest().on_select(&paths, &credit(2_199)), Err(Error::Done));
}

#[test]
fn blest_estimates_have_exact_values() {
    let scheduler = blest();
    let fast = path(30_000, true, 14_600);
    assert_eq!(scheduler.estimate_fast_path_bytes(&fast, millis(0)), 0);
    assert_eq!(scheduler.estimate_fast_path_bytes(&fast, millis(30)), 17_520);
    assert_eq!(scheduler.estimate_fast_path_bytes(&fast, millis(100)), 58_400);
    // 14600 / 3 rounds to 4867, of which 1.2 is 5840.4.
    assert_eq!(scheduler.estimate_fast_path_bytes(&fast, millis(10)), 5_840);
    let unused = path(0, true, 14_600);
    assert_eq!(scheduler.estimate_fast_path_bytes(&unused, millis(10)), 14_600);
    assert_eq!(scheduler.estimate_fast_path_bytes(&fast, Duration::from_nanos(999)), 0);
}

#[test]
fn blest_losses_raise_the_factor_and_their_absence_lowers_it() {
    let mut scheduler = blest();
    let much = credit(1_000_000);
    assert_eq!(scheduler.on_select_at(&slow_path(5), &much, millis(0)), Ok(7));
    assert_eq!(lambda(&scheduler), 1200);
    assert_eq!(scheduler.on_select_at(&slow_path(6), &much, millis(25)), Ok(7));
    assert_eq!(lambda(&scheduler), 1400);
    assert_eq!(scheduler.on_select_at(&slow_path(6), &much, millis(50)), Ok(7));
    assert_eq!(lambda(&scheduler), 1350);
    assert_eq!(scheduler.on_select_at(&slow_path(9), &much, millis(75)), Ok(7));
    assert_eq!(lambda(&scheduler), 1500);
    assert_eq!(scheduler.on_select_at(&slow_path(10), &much, millis(100)), Ok(7));
    assert_eq!(lambda(&scheduler), 1500);
}

#[test]
fn blest_factor_stops_at_its_lowest_value() {
    let mut scheduler = blest();
    for i in 0..20u64 {
        let answer = scheduler.on_select_at(&slow_path(0), &credit(1_000_000), millis(25 * i));
        assert_eq!(answer, Ok(7));
    }
    assert_eq!(lambda(&scheduler), 1000);
}

#[test]
fn blest_factor_is_adjusted_once_in_an_interval() {
    let mut scheduler = blest();
    let much = credit(1_000_000);
    assert_eq!(scheduler.on_select_at(&slow_path(0), &much, millis(10)), Ok(7));
    // A quarter of 100 ms must pass.
    assert_eq!(scheduler.on_select_at(&slow_path(1), &much, millis(34)), Ok(7));
    assert_eq!(lambda(&scheduler), 1200);
    scheduler.update_lambda(&slow_path(1), Duration::from_nanos(34_999_999));
    assert_eq!(lambda(&scheduler), 1200);
    scheduler.update_lambda(&slow_path(1), millis(35));
    assert_eq!(lambda(&scheduler), 1400);
    scheduler.update_lambda(&slow_path(2), millis(59));
    assert_eq!(lambda(&scheduler), 1400);
    // A clock that went back counts as no time passed.
    scheduler.update_lambda(&slow_path(2), millis(1));
    assert_eq!(lambda(&scheduler), 1400);
    scheduler.update_lambda(&slow_path(2), millis(60));
    assert_eq!(lambda(&scheduler), 1500);
}

#[test]
fn blest_interval_without_a_round_trip_time_is_fifty_millis() {
    let mut candidate = lossy(0, 0);
    candidate.dcid_seq = None;
    let fast = path(10_000, false, 1000);
    let mut scheduler = blest();
    let paths = map(&[(3, fast), (7, candidate)]);
    assert_eq!(scheduler.on_select_at(&paths, &credit(0), millis(0)), Ok(7));
    scheduler.update_lambda(&paths, millis(49));
    assert_eq!(lambda(&scheduler), 1200);
    scheduler.update_lambda(&paths, millis(50));
    assert_eq!(lambda(&scheduler), 1150);
}

#[test]
fn blest_higher_factor_refuses_more() {
    let mut scheduler = blest();
    let tight = credit(13_200);
    assert_eq!(scheduler.on_select_at(&slow_path(0), &tight, millis(0)), Ok(7));
    assert_eq!(scheduler.on_select_at(&slow_path(1), &tight, millis(25)), Err(Error::Done));
}

#[test]
fn blest_vanished_path_leaves_the_factor() {
    let mut scheduler = blest();
    assert_eq!(scheduler.on_select_at(&slow_path(0), &credit(1_000_000), millis(0)), Ok(7));
    scheduler.update_lambda(&map(&[(3, path(10_000, false, 1000))]), millis(900));
    assert_eq!(lambda(&scheduler), 1200);
    blest().update_lambda(&slow_path(1), millis(900));
}

#[test]
fn blest_fast_path_ends_the_observation() {
    let mut scheduler = blest();
    let much = credit(1_000_000);
    assert_eq!(scheduler.on_select_at(&slow_path(0), &much, millis(0)), Ok(7));
    let free = map(&[(3, path(10_000, true, 1000)), (7, lossy(100_000, 0))]);
    assert_eq!(scheduler.on_select_at(&free, &much, millis(10)), Ok(3));
    scheduler.update_lambda(&slow_path(4), millis(900));
    assert_eq!(lambda(&scheduler), 1200);
}

#[test]
fn blest_another_slow_path_starts_a_new_observation() {
    let mut scheduler = blest();
    let much = credit(1_000_000);
    assert_eq!(scheduler.on_select_at(&slow_path(0), &much, millis(0)), Ok(7));
    let other = map(&[(3, path(10_000, false, 1000)), (8, lossy(100_000, 50))]);
    assert_eq!(scheduler.on_select_at(&other, &much, millis(100)), Ok(8));
    assert_eq!(lambda(&scheduler), 1200);
    assert_eq!(scheduler.on_select_at(&other, &much, millis(124)), Ok(8));
    assert_eq!(lambda(&scheduler), 1200);
    assert_eq!(scheduler.on_select_at(&other, &much, millis(125)), Ok(8));
    assert_eq!(lambda(&scheduler), 1150);
}

#[test]
fn blest_abandoned_path_is_no_longer_observed() {
    let mut scheduler = blest();
    let much = credit(1_000_000);
    let paths = slow_path(0);
    assert_eq!(scheduler.on_select_at(&paths, &much, millis(0)), Ok(7));
    scheduler.on_path_updated(&paths, PathEvent::Abandoned(3));
    scheduler.on_path_updated(&paths, PathEvent::Validated(7));
    scheduler.on_sent(7, &paths, &much);
    scheduler.update_lambda(&paths, millis(25));
    assert_eq!(lambda(&scheduler), 1150);
    scheduler.on_path_updated(&paths, PathEvent::Abandoned(7));
    scheduler.update_lambda(&paths, millis(900));
    assert_eq!(lambda(&scheduler), 1150);
}

#[test]
fn blest_decision_on_an_unknown_path_is_an_error() {
    let mut scheduler = blest();
    let paths = slow_path(0);
    let much = credit(1_000_000);
    let error = Err(Error::InternalError);
    assert_eq!(scheduler.decide(&paths, &much, millis(0), 3, 99), error);
    assert_eq!(scheduler.decide(&paths, &much, millis(0), 99, 7), error);
    assert_eq!(scheduler.decide(&paths, &much, millis(0), 99, 99), Ok(99));
    scheduler.update_lambda(&paths, millis(900));
    assert_eq!(lambda(&scheduler), 1200);
    assert_eq!(scheduler.find_fastest_path(&paths), Some(3));
}

#[test]
fn blest_clock_moves_on() {
    // A quarter of a round trip of 4 ms.
    let paths = map(&[(3, path(1_000, false, 1000)), (7, path(4_000, true, 1000))]);
    let much = credit(1_000_000);
    let mut scheduler = blest();
    assert_eq!(scheduler.on_select(&paths, &much), Ok(7));
    let start = std::time::Instant::now();
    while start.elapsed() < std::time::Duration::from_millis(2) {}
    assert_eq!(scheduler.on_select(&paths, &much), Ok(7));
    assert_eq!(lambda(&scheduler), 1150);
}
