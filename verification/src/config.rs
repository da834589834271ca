//! Static caps the planner works within. These are process-lifetime
//! constants (derived once from the file-descriptor rlimit); the live,
//! moment-to-moment pressure lives in [`crate::SorterSnapshot`].

use vstd::prelude::*;

verus! {

/// Default in-memory ceiling: sorts estimated at or below this never spill
/// when the budget has headroom.
pub const DEFAULT_IN_MEMORY_CEILING_BYTES: u64 = 8 * 1024 * 1024;

/// Default hard cap on concurrently-open merge readers per sort.
pub const DEFAULT_MAX_FAN_IN: u32 = 64;

/// Default cap on concurrent external sorts in the process.
pub const DEFAULT_MAX_CONCURRENT_EXTERNAL: u32 = 8;

/// Default file descriptors reserved for everything that is not sorting
/// (sockets, the block store, journals, ...).
pub const DEFAULT_FD_SAFETY_MARGIN: u32 = 96;

/// Default floor for a spill run buffer.
pub const DEFAULT_MIN_RUN_BUFFER_BYTES: u64 = 1024 * 1024;

/// Default ceiling for a spill run buffer. Deliberately generous: under fd
/// pressure the planner raises the buffer to keep the run count (and thus
/// the merge-pass depth) bounded.
pub const DEFAULT_MAX_RUN_BUFFER_BYTES: u64 = 256 * 1024 * 1024;

/// The caps of a [`SorterConfig`] as plain values.
pub struct SorterConfigView {
    pub in_memory_ceiling_bytes: u64,
    pub max_fan_in: u32,
    pub max_concurrent_external: u32,
    pub fd_safety_margin: u32,
    pub min_run_buffer_bytes: u64,
    pub max_run_buffer_bytes: u64,
}

impl SorterConfigView {
    /// A configuration the planner can work with: a merge needs at least two
    /// inputs, and the run-buffer bounds form a non-empty range.
    pub open spec fn well_formed(self) -> bool {
        &&& 2 <= self.max_fan_in
        &&& self.min_run_buffer_bytes <= self.max_run_buffer_bytes
    }

    /// A configuration as the constructors build it: every cap at its
    /// default, except the fan-in ceiling, which lies in `[2, 64]`.
    pub open spec fn as_built(self) -> bool {
        &&& 2 <= self.max_fan_in <= DEFAULT_MAX_FAN_IN
        &&& self == (SorterConfigView { max_fan_in: self.max_fan_in, ..SorterConfigView::defaults() })
    }

    /// The default caps.
    pub open spec fn defaults() -> SorterConfigView {
        SorterConfigView {
            in_memory_ceiling_bytes: DEFAULT_IN_MEMORY_CEILING_BYTES,
            max_fan_in: DEFAULT_MAX_FAN_IN,
            max_concurrent_external: DEFAULT_MAX_CONCURRENT_EXTERNAL,
            fd_safety_margin: DEFAULT_FD_SAFETY_MARGIN,
            min_run_buffer_bytes: DEFAULT_MIN_RUN_BUFFER_BYTES,
            max_run_buffer_bytes: DEFAULT_MAX_RUN_BUFFER_BYTES,
        }
    }
}

/// The per-sort fan-in ceiling derived from a soft descriptor limit: the
/// usable descriptors (limit less the safety margin, saturating at zero)
/// shared across the concurrent external sorts, clamped to `[2, 64]`.
pub open spec fn fan_in_for_fd_limit(soft_fd_limit: u32) -> u32 {
    let usable: int = if soft_fd_limit >= DEFAULT_FD_SAFETY_MARGIN {
        soft_fd_limit - DEFAULT_FD_SAFETY_MARGIN
    } else {
        0
    };
    let share = usable / (DEFAULT_MAX_CONCURRENT_EXTERNAL as int);
    if share < 2 {
        2
    } else if share > DEFAULT_MAX_FAN_IN {
        DEFAULT_MAX_FAN_IN
    } else {
        share as u32
    }
}

/// Process-lifetime caps for the sorter's planner.
#[derive(Debug)]
pub struct SorterConfig {
    in_memory_ceiling_bytes: u64,
    max_fan_in: u32,
    max_concurrent_external: u32,
    fd_safety_margin: u32,
    min_run_buffer_bytes: u64,
    max_run_buffer_bytes: u64,
}

impl View for SorterConfig {
    type V = SorterConfigView;

    closed spec fn view(&self) -> SorterConfigView {
        SorterConfigView {
            in_memory_ceiling_bytes: self.in_memory_ceiling_bytes,
            max_fan_in: self.max_fan_in,
            max_concurrent_external: self.max_concurrent_external,
            fd_safety_margin: self.fd_safety_margin,
            min_run_buffer_bytes: self.min_run_buffer_bytes,
            max_run_buffer_bytes: self.max_run_buffer_bytes,
        }
    }
}

impl SorterConfig {
    /// Every configuration keeps a workable fan-in and a non-empty run-buffer
    /// range; both constructors establish it and nothing mutates a config.
    #[verifier::type_invariant]
    closed spec fn inv(self) -> bool {
        &&& self@.well_formed()
        &&& self@.as_built()
    }

    /// Derive caps from the process's soft file-descriptor limit, clamping
    /// the per-sort fan-in ceiling so it can never approach the limit even
    /// before the live snapshot rations it further.
    pub fn from_fd_limit(soft_fd_limit: u32) -> (cfg: Self)
        ensures
            cfg@ == (SorterConfigView {
                max_fan_in: fan_in_for_fd_limit(soft_fd_limit),
                ..SorterConfigView::defaults()
            }),
    {
        let usable = soft_fd_limit.saturating_sub(DEFAULT_FD_SAFETY_MARGIN);
        let share = usable / DEFAULT_MAX_CONCURRENT_EXTERNAL;
        let max_fan_in = if share < 2 {
            2
        } else if share > DEFAULT_MAX_FAN_IN {
            DEFAULT_MAX_FAN_IN
        } else {
            share
        };
        SorterConfig {
            in_memory_ceiling_bytes: DEFAULT_IN_MEMORY_CEILING_BYTES,
            max_fan_in,
            max_concurrent_external: DEFAULT_MAX_CONCURRENT_EXTERNAL,
            fd_safety_margin: DEFAULT_FD_SAFETY_MARGIN,
            min_run_buffer_bytes: DEFAULT_MIN_RUN_BUFFER_BYTES,
            max_run_buffer_bytes: DEFAULT_MAX_RUN_BUFFER_BYTES,
        }
    }

    /// In-memory ceiling in bytes.
    pub fn in_memory_ceiling_bytes(&self) -> (r: u64)
        ensures
            r == self@.in_memory_ceiling_bytes,
            r == DEFAULT_IN_MEMORY_CEILING_BYTES,
    {
        proof {
            use_type_invariant(self);
        }
        self.in_memory_ceiling_bytes
    }

    /// Hard cap on concurrently-open merge readers per sort.
    pub fn max_fan_in(&self) -> (r: u32)
        ensures
            r == self@.max_fan_in,
            2 <= r <= DEFAULT_MAX_FAN_IN,
    {
        proof {
            use_type_invariant(self);
        }
        self.max_fan_in
    }

    /// Cap on concurrent external sorts in the process.
    pub fn max_concurrent_external(&self) -> (r: u32)
        ensures
            r == self@.max_concurrent_external,
            r == DEFAULT_MAX_CONCURRENT_EXTERNAL,
    {
        proof {
            use_type_invariant(self);
        }
        self.max_concurrent_external
    }

    /// File descriptors reserved for non-sort work.
    pub fn fd_safety_margin(&self) -> (r: u32)
        ensures
            r == self@.fd_safety_margin,
            r == DEFAULT_FD_SAFETY_MARGIN,
    {
        proof {
            use_type_invariant(self);
        }
        self.fd_safety_margin
    }

    /// Floor for a spill run buffer.
    pub fn min_run_buffer_bytes(&self) -> (r: u64)
        ensures
            r == self@.min_run_buffer_bytes,
            r == DEFAULT_MIN_RUN_BUFFER_BYTES,
            r <= self@.max_run_buffer_bytes,
    {
        proof {
            use_type_invariant(self);
        }
        self.min_run_buffer_bytes
    }

    /// Ceiling for a spill run buffer.
    pub fn max_run_buffer_bytes(&self) -> (r: u64)
        ensures
            r == self@.max_run_buffer_bytes,
            r == DEFAULT_MAX_RUN_BUFFER_BYTES,
    {
        proof {
            use_type_invariant(self);
        }
        self.max_run_buffer_bytes
    }
}

impl Clone for SorterConfig {
    fn clone(&self) -> (cfg: Self)
        ensures
            cfg@ == self@,
    {
        proof {
            use_type_invariant(self);
        }
        SorterConfig {
            in_memory_ceiling_bytes: self.in_memory_ceiling_bytes,
            max_fan_in: self.max_fan_in,
            max_concurrent_external: self.max_concurrent_external,
            fd_safety_margin: self.fd_safety_margin,
            min_run_buffer_bytes: self.min_run_buffer_bytes,
            max_run_buffer_bytes: self.max_run_buffer_bytes,
        }
    }
}

impl Default for SorterConfig {
    fn default() -> (cfg: Self)
        ensures
            cfg@ == SorterConfigView::defaults(),
    {
        SorterConfig {
            in_memory_ceiling_bytes: DEFAULT_IN_MEMORY_CEILING_BYTES,
            max_fan_in: DEFAULT_MAX_FAN_IN,
            max_concurrent_external: DEFAULT_MAX_CONCURRENT_EXTERNAL,
            fd_safety_margin: DEFAULT_FD_SAFETY_MARGIN,
            min_run_buffer_bytes: DEFAULT_MIN_RUN_BUFFER_BYTES,
            max_run_buffer_bytes: DEFAULT_MAX_RUN_BUFFER_BYTES,
        }
    }
}

/// Law: every configuration the constructors build holds its caps: the
/// defaults, with a fan-in ceiling in `[2, 64]`.
pub proof fn law_configs_as_built(soft_fd_limit: u32)
    ensures
        (SorterConfigView {
            max_fan_in: fan_in_for_fd_limit(soft_fd_limit),
            ..SorterConfigView::defaults()
        }).as_built(),
        SorterConfigView::defaults().as_built(),
{
}

/// Law: the fan-in ceiling derived from a descriptor limit always permits a
/// merge (at least two inputs), never exceeds the default ceiling, and, once
/// the usable descriptors allow every concurrent external sort two inputs,
/// the concurrent sorts together stay within the usable descriptors.
pub proof fn law_fd_limit_fan_in_bounded(soft_fd_limit: u32)
    ensures
        2 <= fan_in_for_fd_limit(soft_fd_limit) <= DEFAULT_MAX_FAN_IN,
        soft_fd_limit >= DEFAULT_FD_SAFETY_MARGIN + 2 * DEFAULT_MAX_CONCURRENT_EXTERNAL ==>
            fan_in_for_fd_limit(soft_fd_limit) * DEFAULT_MAX_CONCURRENT_EXTERNAL
                <= soft_fd_limit - DEFAULT_FD_SAFETY_MARGIN,
{
    let usable: int = soft_fd_limit - DEFAULT_FD_SAFETY_MARGIN;
    if soft_fd_limit >= DEFAULT_FD_SAFETY_MARGIN {
        assert((usable / 8) * 8 <= usable) by (nonlinear_arith)
            requires
                usable >= 0,
        ;
    }
}

} // verus!
