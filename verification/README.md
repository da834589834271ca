# sort-governor

A process-wide governor for bounded sorting, with its decisions verified by
Verus.

Every sort in a process is admitted by one governor. The governor decides
**in-memory versus external** for each sort from its estimated size and the
live memory and file-descriptor pressure, rations the descriptors across the
sorts in flight, and runs a bounded cascade merge whose descriptor footprint
stays within the plan's fan-in for any input size.

## Layout

- `src/` is the verified library (Verus):
  - `config.rs`, `spec.rs`, `snapshot.rs`: the static caps, the caller's size
    estimate, and the live pressure reading.
  - `plan/`: the pure planner `SortPlanner::plan` with an exact contract
    (`plan_spec`) and its laws: the fan-in is at least two and at most the
    configured ceiling, concurrent fan-ins fit the descriptor headroom, the
    run buffer stays within its bounds and the available memory, keeps the
    run count within `fan_in²` when nothing else limits it, and grows as the
    fan-in shrinks.
  - `service/`: the governor's admission bookkeeping (ids, scratch directory
    names, permit counts, counters), the permit ledger (available permits are
    always the total less those held by granted, unreleased leases; the
    active count is the leases not yet released), the `MemoryPressure` seam
    and the stats.
  - `engine/`: the spill ledger (when to spill, run ordinals that never wrap,
    a failed session stays failed, a bounded spill frontier, and a ghost
    record of which pushed rows each run holds, with the law that a session's
    output is the stable sort of everything pushed), the stable sort
    of a run buffer by key (`sort_rows_by_key`, exactly `stable_sort_spec`),
    the cascade pass planner (`next_pass`: no merge opens more runs than the
    fan-in), the merge front (least key first, ties in run order) with the
    law that merging sorted runs gives the stable sort of their rows, the
    dedup filter (the first pushed row of each key survives), the output
    stream's end-of-stream protocol (cleanup before the end, each error
    reported once), run-file framing, and file naming.
- `app/` is the asynchronous shell (Tokio, `async-fs-io`, CBOR via
  `ciborium`): the governor actor and its handle, leases, and sort sessions
  that perform the I/O the library's decisions call for.
- `tests/` exercises the library on concrete values.
