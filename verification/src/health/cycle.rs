//! The course of the health monitor: pause, check both families, record both.

use crate::health::monitor::health_interval;
use crate::types::IpFamily;
use vstd::prelude::*;

verus! {

/// Where a cycle stands.
#[derive(Clone, Copy, Debug, PartialEq, Eq, Structural)]
pub enum CyclePhase {
    Pause,
    CheckV4,
    CheckV6 { v4_degraded: bool },
    RecordV4 { v4_degraded: bool, v6_degraded: bool },
    RecordV6 { v4_degraded: bool, v6_degraded: bool },
}

/// What the monitor has to do next.
#[derive(Clone, Copy, Debug, PartialEq, Eq, Structural)]
pub enum CycleStep {
    /// Pause for so many nanoseconds, then tidy up the writers.
    Pause(u128),
    /// Check the family.
    Check(IpFamily),
    /// Take the outcome into the state of the family.
    Record { family: IpFamily, degraded: bool },
}

/// Course of the monitor.
#[derive(Clone, Copy, Debug)]
pub struct HealthCycle {
    pub phase: CyclePhase,
    /// Whether the families were degraded in the last full cycle: version 4,
    /// then version 6.
    pub last: Option<(bool, bool)>,
}

/// Pause before a cycle: the one for an unhealthy pool before the first cycle
/// and after a cycle in which a family was degraded, else the one for a healthy
/// pool.
pub open spec fn spec_next_interval(
    last: Option<(bool, bool)>,
    unhealthy: u128,
    healthy: u128,
) -> u128 {
    match last {
        None => unhealthy,
        Some((v4_degraded, v6_degraded)) => if v4_degraded || v6_degraded {
            unhealthy
        } else {
            healthy
        },
    }
}

/// Pause before a cycle: the one for an unhealthy pool before the first cycle
/// and after a cycle in which a family was degraded, else the one for a healthy
/// pool.
pub fn next_interval(
    last: Option<(bool, bool)>,
    unhealthy: u128,
    healthy: u128,
) -> (interval: u128)
    ensures
        interval == spec_next_interval(last, unhealthy, healthy),
{
    let degraded_interval: bool = match last {
        None => true,
        Some((v4_degraded, v6_degraded)) => v4_degraded || v6_degraded,
    };
    health_interval(degraded_interval, unhealthy, healthy)
}

impl HealthCycle {
    /// The course before the first cycle.
    pub open spec fn spec_new() -> HealthCycle {
        HealthCycle { phase: CyclePhase::Pause, last: None }
    }

    /// What the monitor has to do next.
    pub open spec fn spec_step(self, unhealthy: u128, healthy: u128) -> CycleStep {
        match self.phase {
            CyclePhase::Pause => CycleStep::Pause(
                spec_next_interval(self.last, unhealthy, healthy),
            ),
            CyclePhase::CheckV4 => CycleStep::Check(IpFamily::V4),
            CyclePhase::CheckV6 { .. } => CycleStep::Check(IpFamily::V6),
            CyclePhase::RecordV4 { v4_degraded, .. } => CycleStep::Record {
                family: IpFamily::V4,
                degraded: v4_degraded,
            },
            CyclePhase::RecordV6 { v6_degraded, .. } => CycleStep::Record {
                family: IpFamily::V6,
                degraded: v6_degraded,
            },
        }
    }

    /// The course once the step is done. Only after a check does it matter
    /// whether the family was degraded.
    pub open spec fn after_step(self, degraded: bool) -> HealthCycle {
        match self.phase {
            CyclePhase::Pause => HealthCycle { phase: CyclePhase::CheckV4, ..self },
            CyclePhase::CheckV4 => HealthCycle {
                phase: CyclePhase::CheckV6 { v4_degraded: degraded },
                ..self
            },
            CyclePhase::CheckV6 { v4_degraded } => HealthCycle {
                phase: CyclePhase::RecordV4 { v4_degraded, v6_degraded: degraded },
                ..self
            },
            CyclePhase::RecordV4 { v4_degraded, v6_degraded } => HealthCycle {
                phase: CyclePhase::RecordV6 { v4_degraded, v6_degraded },
                ..self
            },
            CyclePhase::RecordV6 { v4_degraded, v6_degraded } => HealthCycle {
                phase: CyclePhase::Pause,
                last: Some((v4_degraded, v6_degraded)),
            },
        }
    }

    /// The course before the first cycle.
    pub fn new() -> (cycle: HealthCycle)
        ensures
            cycle == HealthCycle::spec_new(),
    {
        HealthCycle { phase: CyclePhase::Pause, last: None }
    }

    /// What the monitor has to do next.
    pub fn step(&self, unhealthy: u128, healthy: u128) -> (step: CycleStep)
        ensures
            step == self.spec_step(unhealthy, healthy),
    {
        match self.phase {
            CyclePhase::Pause => CycleStep::Pause(next_interval(self.last, unhealthy, healthy)),
            CyclePhase::CheckV4 => CycleStep::Check(IpFamily::V4),
            CyclePhase::CheckV6 { .. } => CycleStep::Check(IpFamily::V6),
            CyclePhase::RecordV4 { v4_degraded, .. } => CycleStep::Record {
                family: IpFamily::V4,
                degraded: v4_degraded,
            },
            CyclePhase::RecordV6 { v6_degraded, .. } => CycleStep::Record {
                family: IpFamily::V6,
                degraded: v6_degraded,
            },
        }
    }

    /// Goes on once the step is done; after a check, `degraded` is its outcome.
    pub fn advance(&mut self, degraded: bool)
        ensures
            *final(self) == old(self).after_step(degraded),
    {
        match self.phase {
            CyclePhase::Pause => {
                self.phase = CyclePhase::CheckV4;
            },
            CyclePhase::CheckV4 => {
                self.phase = CyclePhase::CheckV6 { v4_degraded: degraded };
            },
            CyclePhase::CheckV6 { v4_degraded } => {
                self.phase = CyclePhase::RecordV4 { v4_degraded, v6_degraded: degraded };
            },
            CyclePhase::RecordV4 { v4_degraded, v6_degraded } => {
                self.phase = CyclePhase::RecordV6 { v4_degraded, v6_degraded };
            },
            CyclePhase::RecordV6 { v4_degraded, v6_degraded } => {
                self.phase = CyclePhase::Pause;
                self.last = Some((v4_degraded, v6_degraded));
            },
        }
    }
}

/// The course after a number of steps, given what each step came to.
pub open spec fn after_steps(outcomes: Seq<bool>) -> HealthCycle
    decreases outcomes.len(),
{
    if outcomes.len() == 0 {
        HealthCycle::spec_new()
    } else {
        after_steps(outcomes.drop_last()).after_step(outcomes.last())
    }
}

/// What the check of version 4 came to in a cycle, counted from zero.
pub open spec fn v4_outcome(outcomes: Seq<bool>, cycle: int) -> bool {
    outcomes[5 * cycle + 1]
}

/// What the check of version 6 came to in a cycle, counted from zero.
pub open spec fn v6_outcome(outcomes: Seq<bool>, cycle: int) -> bool {
    outcomes[5 * cycle + 2]
}

/// Where the course stands after any number of steps.
proof fn lemma_course(outcomes: Seq<bool>)
    ensures
        ({
            let at = after_steps(outcomes);
            let cycle = outcomes.len() as int / 5;
            let place = outcomes.len() as int % 5;
            let v4_degraded = v4_outcome(outcomes, cycle);
            let v6_degraded = v6_outcome(outcomes, cycle);
            &&& at.last == if cycle == 0 {
                None
            } else {
                Some((v4_outcome(outcomes, cycle - 1), v6_outcome(outcomes, cycle - 1)))
            }
            &&& place == 0 ==> at.phase == CyclePhase::Pause
            &&& place == 1 ==> at.phase == CyclePhase::CheckV4
            &&& place == 2 ==> at.phase == (CyclePhase::CheckV6 { v4_degraded })
            &&& place == 3 ==> at.phase == (CyclePhase::RecordV4 { v4_degraded, v6_degraded })
            &&& place == 4 ==> at.phase == (CyclePhase::RecordV6 { v4_degraded, v6_degraded })
        }),
    decreases outcomes.len(),
{
    if outcomes.len() > 0 {
        lemma_course(outcomes.drop_last());
    }
}

/// However the checks come out, the monitor goes on in cycles of five steps:
/// a pause, the check of version 4, the check of version 6 whatever the first
/// came to, and the record of what each of the two came to. The pause is the
/// one for an unhealthy pool before the first cycle and after each cycle in
/// which a family was degraded, and the one for a healthy pool after any other.
pub proof fn cycles_check_and_record_both_families(
    outcomes: Seq<bool>,
    unhealthy: u128,
    healthy: u128,
)
    ensures
        ({
            let step = after_steps(outcomes).spec_step(unhealthy, healthy);
            let cycle = outcomes.len() as int / 5;
            let place = outcomes.len() as int % 5;
            &&& place == 0 ==> step == CycleStep::Pause(
                if cycle == 0 || v4_outcome(outcomes, cycle - 1) || v6_outcome(
                    outcomes,
                    cycle - 1,
                ) {
                    unhealthy
                } else {
                    healthy
                },
            )
            &&& place == 1 ==> step == CycleStep::Check(IpFamily::V4)
            &&& place == 2 ==> step == CycleStep::Check(IpFamily::V6)
            &&& place == 3 ==> step == (CycleStep::Record {
                family: IpFamily::V4,
                degraded: v4_outcome(outcomes, cycle),
            })
            &&& place == 4 ==> step == (CycleStep::Record {
                family: IpFamily::V6,
                degraded: v6_outcome(outcomes, cycle),
            })
        }),
{
    lemma_course(outcomes);
}

} // verus!
