use multipath_scheduler::path::{Eligibility, Error, Path, PathMap, Recovery};
use multipath_scheduler::scheduler::{
    MultipathAlgorithm, MultipathConfig, MultipathScheduler, PathEvent, StreamMap,
};
use multipath_scheduler::scheduler_minrtt::MinRttScheduler;
use multipath_scheduler::time::Duration;

fn path(rtt_micros: u64, can_send: bool, window: u64) -> Path {
    Path {
        active: true,
        validated: true,
        dcid_seq: Some(0),
        recovery: Recovery {
            can_send,
            smoothed_rtt: Duration::from_micros(rtt_micros),
            congestion_window: window,
            lost_count: 0,
            max_datagram_size: 1200,
        },
    }
}

fn map(paths: &[(usize, Path)]) -> PathMap {
    let mut map = PathMap::new();
    for (pid, path) in paths {
        map.insert(*pid, *path);
    }
    map
}

#[test]
fn durations_convert() {
    assert_eq!(Duration::from_micros(7), Duration::from_nanos(7_000));
    assert_eq!(Duration::from_millis(50), Duration::from_micros(50_000));
    assert_eq!(Duration::from_nanos(1_999).as_micros(), 1);
    assert_eq!(Duration::from_nanos(999).as_micros(), 0);
    assert!(Duration::from_nanos(0).is_zero());
    assert!(!Duration::from_nanos(1).is_zero());
}

#[test]
fn durations_subtract_down_to_zero() {
    let a = Duration::from_micros(3);
    let b = Duration::from_micros(5);
    assert_eq!(b.saturating_since(a), Duration::from_micros(2));
    assert_eq!(a.saturating_since(b), Duration::from_micros(0));
}

#[test]
fn map_looks_up_and_replaces() {
    let mut paths = map(&[(3, path(10, true, 1)), (7, path(20, true, 2))]);
    assert_eq!(paths.get(3), Ok(&path(10, true, 1)));
    assert_eq!(paths.get(7), Ok(&path(20, true, 2)));
    assert_eq!(paths.get(4), Err(Error::InternalError));
    paths.insert(3, path(30, false, 5));
    assert_eq!(paths.get(3), Ok(&path(30, false, 5)));
    assert_eq!(paths.get(7), Ok(&path(20, true, 2)));
    assert_eq!(PathMap::new().get(0), Err(Error::InternalError));
}

#[test]
fn search_finds_the_lowest_round_trip_time() {
    let paths = map(&[
        (0, path(30, true, 1)),
        (1, path(10, false, 1)),
        (2, path(20, true, 1)),
    ]);
    assert_eq!(paths.find_min_rtt(Eligibility::Validated), Some(1));
    assert_eq!(paths.find_min_rtt(Eligibility::Addressable), Some(1));
    assert_eq!(paths.find_min_rtt(Eligibility::Available), Some(2));
    assert_eq!(paths.find_min_rtt(Eligibility::Ready), Some(2));
}

#[test]
fn search_takes_the_first_of_equals() {
    let paths = map(&[
        (5, path(30, true, 1)),
        (9, path(10, true, 1)),
        (2, path(10, true, 1)),
    ]);
    assert_eq!(paths.find_min_rtt(Eligibility::Validated), Some(9));
}

#[test]
fn search_compares_below_a_microsecond() {
    let mut slower = path(0, true, 1);
    slower.recovery.smoothed_rtt = Duration::from_nanos(10_999);
    let mut faster = path(0, true, 1);
    faster.recovery.smoothed_rtt = Duration::from_nanos(10_998);
    let paths = map(&[(1, slower), (2, faster)]);
    assert_eq!(paths.find_min_rtt(Eligibility::Validated), Some(2));
}

#[test]
fn search_admits_by_eligibility() {
    let mut inactive = path(1, true, 1);
    inactive.active = false;
    let mut unvalidated = path(2, true, 1);
    unvalidated.validated = false;
    let mut unaddressed = path(3, true, 1);
    unaddressed.dcid_seq = None;
    let busy = path(4, false, 1);
    let paths = map(&[(0, inactive), (1, unvalidated), (2, unaddressed), (3, busy)]);
    assert_eq!(paths.find_min_rtt(Eligibility::Addressable), Some(1));
    assert_eq!(paths.find_min_rtt(Eligibility::Validated), Some(2));
    assert_eq!(paths.find_min_rtt(Eligibility::Available), Some(2));
    assert_eq!(paths.find_min_rtt(Eligibility::Ready), Some(1));
    assert_eq!(map(&[(0, inactive)]).find_min_rtt(Eligibility::Ready), None);
    assert_eq!(PathMap::new().find_min_rtt(Eligibility::Validated), None);
}

#[test]
fn windows_add_up() {
    let mut inactive = path(1, true, 1000);
    inactive.active = false;
    let paths = map(&[(0, path(1, true, 5)), (1, inactive), (2, path(1, false, 7))]);
    assert_eq!(paths.sum_windows(Eligibility::Validated), 12);
    assert_eq!(paths.sum_windows(Eligibility::Available), 5);
    assert_eq!(PathMap::new().sum_windows(Eligibility::Validated), 0);
    let full = map(&[(0, path(1, true, u64::MAX - 1)), (1, path(1, true, 1))]);
    assert_eq!(full.sum_windows(Eligibility::Validated), u64::MAX);
}

#[test]
fn minrtt_picks_a_path_that_can_send() {
    let conf = MultipathConfig { multipath_algorithm: MultipathAlgorithm::MinRtt };
    let streams = StreamMap { max_tx_data: 0, tx_data: 0 };
    let mut scheduler = MinRttScheduler::new(&conf);
    let paths = map(&[
        (0, path(30, true, 1)),
        (1, path(10, false, 1)),
        (2, path(20, true, 1)),
    ]);
    assert_eq!(scheduler.on_select(&paths, &streams), Ok(2));
    scheduler.on_sent(2, &paths, &streams);
    scheduler.on_path_updated(&paths, PathEvent::Abandoned(1));
    assert_eq!(scheduler.on_select(&paths, &streams), Ok(2));
    let busy = map(&[(1, path(10, false, 1))]);
    assert_eq!(scheduler.on_select(&busy, &streams), Err(Error::Done));
    assert_eq!(streams.conn_max_tx_data(), 0);
    assert_eq!(StreamMap { max_tx_data: 9, tx_data: 4 }.conn_tx_data(), 4);
}
