//! What every multipath scheduler offers, and what it is handed.

use vstd::prelude::*;

use crate::path::{Error, Path, PathMap};

verus! {

/// The scheduling algorithms.
#[derive(Clone, Copy, Debug, PartialEq, Eq, Structural)]
pub enum MultipathAlgorithm {
    MinRtt,
    Blest,
    Ecf,
}

/// How a connection uses its paths.
#[derive(Clone, Copy, Debug, PartialEq, Eq, Structural)]
pub struct MultipathConfig {
    pub multipath_algorithm: MultipathAlgorithm,
}

/// What happened to a path, with its ID.
#[derive(Clone, Copy, Debug, PartialEq, Eq, Structural)]
pub enum PathEvent {
    Validated(usize),
    Abandoned(usize),
}

/// The connection-level flow control state of the send side, in bytes.
#[derive(Clone, Copy, Debug, PartialEq, Eq, Structural)]
pub struct StreamMap {
    /// How much the peer lets the connection send in all.
    pub max_tx_data: u64,
    /// How much was sent.
    pub tx_data: u64,
}

impl StreamMap {
    pub fn conn_max_tx_data(&self) -> (res: u64)
        ensures
            res == self.max_tx_data,
    {
        self.max_tx_data
    }

    pub fn conn_tx_data(&self) -> (res: u64)
        ensures
            res == self.tx_data,
    {
        self.tx_data
    }
}

/// A packet scheduler.
pub trait MultipathScheduler {
    /// What holds of the scheduler's state between any two calls.
    spec fn valid(&self) -> bool;

    /// The quantities that a selection computes on these paths and streams fit
    /// their integer types.
    spec fn can_select(&self, paths: Seq<(usize, Path)>, streams: StreamMap) -> bool;

    /// Names the path that carries the next packet.
    fn on_select(&mut self, paths: &PathMap, streams: &StreamMap) -> (res: Result<usize, Error>)
        requires
            old(self).valid(),
            paths.wf(),
            old(self).can_select(paths@, *streams),
        ensures
            final(self).valid(),
    ;

    /// A packet was sent on `path_id`.
    fn on_sent(&mut self, path_id: usize, paths: &PathMap, streams: &StreamMap)
        requires
            old(self).valid(),
        ensures
            final(self).valid(),
    ;

    /// A path changed its state.
    fn on_path_updated(&mut self, paths: &PathMap, event: PathEvent)
        requires
            old(self).valid(),
        ensures
            final(self).valid(),
    ;
}

} // verus!
