# multipath_scheduler

Verified packet schedulers for multipath transport connections.

- `path`, `time`: the paths of a connection and time spans, as the schedulers
  see them, with the searches over the paths.
- `scheduler`: what every scheduler offers.
- `scheduler_minrtt`: lowest round-trip time first.
- `scheduler_ecf`: earliest completion first; its laws are in `ecf_laws`.
- `scheduler_blest`: blocking estimation; its laws are in `blest_laws`.
- `binary64`, `estimate`: the double-precision estimate of what a path sends in
  a given time, computed on integers; `accuracy` and `rounding_error` bound its
  distance from the exact value.

The clock is the one thing that is trusted: `time` reads it through
`std::time::Instant`, and nothing is claimed of what it says.
