//! The limits within which actions run.

use vstd::prelude::*;

use crate::manifest::{Action, ActionView};

verus! {

/// A span of time: seconds, and the nanoseconds beyond them.
#[derive(Debug, Clone, Copy, PartialEq, Eq)]
pub struct Timeout {
    pub secs: u64,
    pub nanos: u32,
}

impl Timeout {
    /// The span in nanoseconds.
    pub open spec fn total(self) -> nat {
        (self.secs as nat) * 1_000_000_000 + (self.nanos as nat)
    }

    /// The nanoseconds do not make up a second.
    pub open spec fn wf(self) -> bool {
        self.nanos < 1_000_000_000
    }

    /// A span of whole seconds.
    pub fn from_secs(secs: u64) -> (r: Timeout)
        ensures
            r.wf(),
            r.total() == secs as nat * 1_000_000_000,
    {
        Timeout { secs, nanos: 0 }
    }

    /// A span of whole milliseconds.
    pub fn from_millis(millis: u64) -> (r: Timeout)
        ensures
            r.wf(),
            r.secs == millis / 1000,
            r.nanos == (millis % 1000) * 1_000_000,
            r.total() == millis as nat * 1_000_000,
    {
        Timeout { secs: millis / 1000, nanos: ((millis % 1000) * 1_000_000) as u32 }
    }

    /// The whole milliseconds of the span.
    pub fn as_millis(&self) -> (r: u128)
        requires
            self.wf(),
        ensures
            r == self.total() / 1_000_000,
    {
        (self.secs as u128) * 1000 + (self.nanos / 1_000_000) as u128
    }

    /// Whether the span is no longer than `other`.
    pub fn is_within(&self, other: &Timeout) -> (r: bool)
        requires
            self.wf(),
            other.wf(),
        ensures
            r == (self.total() <= other.total()),
    {
        self.secs < other.secs || (self.secs == other.secs && self.nanos <= other.nanos)
    }
}

/// The limits within which actions run.
#[derive(Debug, Clone)]
#[non_exhaustive]
pub struct RuntimeLimits {
    /// Instructions that one guest may run.
    pub fuel_budget: u64,
    /// Bytes that the memories of one store may take together.
    pub max_memory_bytes: usize,
    /// Elements that the tables of one store may hold together.
    pub max_table_elements: usize,
    pub max_instances: usize,
    pub max_tables: usize,
    pub max_memories: usize,
    /// The deadline of an action that declares none and is no dataflow.
    pub default_wallclock_timeout: Timeout,
    /// The deadline that no action can exceed.
    pub max_wallclock_timeout: Option<Timeout>,
    pub max_parallel_branches: usize,
    /// Bytes that the step results of one action may take together.
    pub max_step_results_bytes: usize,
    pub dataflow_events_capacity: usize,
}

/// The limits of an embedder that sets none.
pub open spec fn are_default(l: RuntimeLimits) -> bool {
    &&& l.fuel_budget == 1_000_000_000
    &&& l.max_memory_bytes == 67_108_864
    &&& l.max_table_elements == 65_536
    &&& l.max_instances == 32
    &&& l.max_tables == 64
    &&& l.max_memories == 16
    &&& l.default_wallclock_timeout.total() == 60_000_000_000
    &&& l.max_wallclock_timeout is None
    &&& l.max_parallel_branches == 64
    &&& l.max_step_results_bytes == 67_108_864
    &&& l.dataflow_events_capacity == 64
}

impl Default for RuntimeLimits {
    fn default() -> (r: Self)
        ensures
            r.wf(),
            are_default(r),
    {
        RuntimeLimits {
            fuel_budget: 1_000_000_000,
            max_memory_bytes: 67_108_864,
            max_table_elements: 65_536,
            max_instances: 32,
            max_tables: 64,
            max_memories: 16,
            default_wallclock_timeout: Timeout::from_secs(60),
            max_wallclock_timeout: None,
            max_parallel_branches: 64,
            max_step_results_bytes: 67_108_864,
            dataflow_events_capacity: 64,
        }
    }
}

impl RuntimeLimits {
    /// The spans of time are proper ones.
    pub open spec fn wf(&self) -> bool {
        &&& self.default_wallclock_timeout.wf()
        &&& self.max_wallclock_timeout is Some ==> self.max_wallclock_timeout->0.wf()
    }

    #[must_use]
    pub fn with_fuel_budget(self, units: u64) -> (r: Self)
        ensures
            r == (RuntimeLimits { fuel_budget: units, ..self }),
    {
        RuntimeLimits { fuel_budget: units, ..self }
    }

    #[must_use]
    pub fn with_max_memory_bytes(self, bytes: usize) -> (r: Self)
        ensures
            r == (RuntimeLimits { max_memory_bytes: bytes, ..self }),
    {
        RuntimeLimits { max_memory_bytes: bytes, ..self }
    }

    #[must_use]
    pub fn with_max_table_elements(self, elements: usize) -> (r: Self)
        ensures
            r == (RuntimeLimits { max_table_elements: elements, ..self }),
    {
        RuntimeLimits { max_table_elements: elements, ..self }
    }

    #[must_use]
    pub fn with_max_instances(self, instances: usize) -> (r: Self)
        ensures
            r == (RuntimeLimits { max_instances: instances, ..self }),
    {
        RuntimeLimits { max_instances: instances, ..self }
    }

    #[must_use]
    pub fn with_max_tables(self, tables: usize) -> (r: Self)
        ensures
            r == (RuntimeLimits { max_tables: tables, ..self }),
    {
        RuntimeLimits { max_tables: tables, ..self }
    }

    #[must_use]
    pub fn with_max_memories(self, memories: usize) -> (r: Self)
        ensures
            r == (RuntimeLimits { max_memories: memories, ..self }),
    {
        RuntimeLimits { max_memories: memories, ..self }
    }

    #[must_use]
    pub fn with_default_wallclock_timeout(self, timeout: Timeout) -> (r: Self)
        ensures
            r == (RuntimeLimits { default_wallclock_timeout: timeout, ..self }),
    {
        RuntimeLimits { default_wallclock_timeout: timeout, ..self }
    }

    #[must_use]
    pub fn with_max_parallel_branches(self, branches: usize) -> (r: Self)
        ensures
            r == (RuntimeLimits { max_parallel_branches: branches, ..self }),
    {
        RuntimeLimits { max_parallel_branches: branches, ..self }
    }

    #[must_use]
    pub fn with_max_step_results_bytes(self, bytes: usize) -> (r: Self)
        ensures
            r == (RuntimeLimits { max_step_results_bytes: bytes, ..self }),
    {
        RuntimeLimits { max_step_results_bytes: bytes, ..self }
    }

    #[must_use]
    pub fn with_max_wallclock_timeout(self, ceiling: Timeout) -> (r: Self)
        ensures
            r == (RuntimeLimits { max_wallclock_timeout: Some(ceiling), ..self }),
    {
        RuntimeLimits { max_wallclock_timeout: Some(ceiling), ..self }
    }

    #[must_use]
    pub fn with_dataflow_events_capacity(self, capacity: usize) -> (r: Self)
        ensures
            r == (RuntimeLimits { dataflow_events_capacity: capacity, ..self }),
    {
        RuntimeLimits { dataflow_events_capacity: capacity, ..self }
    }
}

/// The span that an action asks for, in nanoseconds: the one that it declares; none, for a dataflow
/// that declares none; else the default.
pub open spec fn asked_span(limits: RuntimeLimits, action: ActionView) -> Option<nat> {
    match action.wallclock_timeout_ms {
        Some(ms) => Some(ms as nat * 1_000_000),
        None => if action.dataflow {
            None
        } else {
            Some(limits.default_wallclock_timeout.total())
        },
    }
}

/// The span that an action gets, in nanoseconds: the one that it asks for, and the ceiling where it
/// asks for more than that.
pub open spec fn granted_span(limits: RuntimeLimits, action: ActionView) -> Option<nat> {
    match limits.max_wallclock_timeout {
        None => asked_span(limits, action),
        Some(ceiling) => match asked_span(limits, action) {
            Some(asked) if asked <= ceiling.total() => Some(asked),
            _ => Some(ceiling.total()),
        },
    }
}

/// The span of an optional timeout, in nanoseconds.
pub open spec fn span_of(t: Option<Timeout>) -> Option<nat> {
    match t {
        Some(t) => Some(t.total()),
        None => None,
    }
}

/// The deadline of an action, or none.
pub fn effective_wallclock_timeout(limits: &RuntimeLimits, action: &Action) -> (r: Option<Timeout>)
    requires
        limits.wf(),
    ensures
        span_of(r) == granted_span(*limits, action.deep_view()),
        r is Some ==> r->0.wf(),
{
    let asked = match action.wallclock_timeout_ms {
        Some(ms) => Some(Timeout::from_millis(ms)),
        None => if action.dataflow {
            None
        } else {
            Some(limits.default_wallclock_timeout)
        },
    };
    match (asked, limits.max_wallclock_timeout) {
        (_, None) => asked,
        (None, Some(ceiling)) => Some(ceiling),
        (Some(span), Some(ceiling)) => if span.is_within(&ceiling) {
            Some(span)
        } else {
            Some(ceiling)
        },
    }
}

/// Where the operator set a ceiling, every action has a deadline, and none beyond the ceiling.
pub proof fn law_ceiling_bounds_every_action(limits: RuntimeLimits, action: ActionView)
    requires
        limits.max_wallclock_timeout is Some,
    ensures
        granted_span(limits, action) is Some,
        granted_span(limits, action)->0 <= limits.max_wallclock_timeout->0.total(),
{
}

/// A ceiling only ever shortens: an action that asks for less than the ceiling gets what it asks
/// for.
pub proof fn law_asking_for_less_is_granted(limits: RuntimeLimits, action: ActionView)
    requires
        asked_span(limits, action) is Some,
        limits.max_wallclock_timeout is Some ==> asked_span(limits, action)->0
            <= limits.max_wallclock_timeout->0.total(),
    ensures
        granted_span(limits, action) == asked_span(limits, action),
{
}

} // verus!
