//! Lowest round-trip time first.

use vstd::prelude::*;

use crate::path::{min_rtt, Eligibility, Error, Path, PathMap};
use crate::scheduler::{MultipathConfig, MultipathScheduler, PathEvent, StreamMap};

verus! {

/// Picks, among the active paths that can send now, the one with the lowest
/// round-trip time. Keeps no state.
pub struct MinRttScheduler {}

/// What the lowest-round-trip-time choice answers.
pub open spec fn minrtt_choice(paths: Seq<(usize, Path)>) -> Result<usize, Error> {
    match min_rtt(paths, Eligibility::Ready) {
        Some(pid) => Ok(pid),
        None => Err(Error::Done),
    }
}

impl MinRttScheduler {
    pub fn new(_conf: &MultipathConfig) -> (res: MinRttScheduler)
        ensures
            res.valid(),
    {
        MinRttScheduler {  }
    }
}

impl MultipathScheduler for MinRttScheduler {
    open spec fn valid(&self) -> bool {
        true
    }

    open spec fn can_select(&self, paths: Seq<(usize, Path)>, streams: StreamMap) -> bool {
        true
    }

    fn on_select(&mut self, paths: &PathMap, _streams: &StreamMap) -> (res: Result<usize, Error>)
        ensures
            res == minrtt_choice(paths@),
    {
        match paths.find_min_rtt(Eligibility::Ready) {
            Some(pid) => Ok(pid),
            None => Err(Error::Done),
        }
    }

    fn on_sent(&mut self, _path_id: usize, _paths: &PathMap, _streams: &StreamMap)
        ensures
            *final(self) == *old(self),
    {
    }

    fn on_path_updated(&mut self, _paths: &PathMap, _event: PathEvent)
        ensures
            *final(self) == *old(self),
    {
    }
}

} // verus!
