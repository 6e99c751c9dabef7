//! Packet schedulers for multipath transport connections.
//!
//! A scheduler looks at the paths of a connection and names the one that
//! carries the next packet, or answers that nothing should be sent for now.

pub mod accuracy;
pub mod binary64;
pub mod blest_laws;
pub mod ecf_laws;
pub mod estimate;
pub mod path;
pub mod path_laws;
mod rounding_error;
pub mod scheduler;
pub mod scheduler_blest;
pub mod scheduler_ecf;
pub mod scheduler_minrtt;
pub mod time;
