//! The fixed schedule: how much uptime one collector tick stands for, and how
//! much uptime makes one accrual unit.
use vstd::prelude::*;

verus! {

/// Units of uptime that one collector tick adds by default.
pub const DEFAULT_TICK_UNIT: u64 = 60;

/// Units of uptime that make one accrual unit by default: a day of seconds.
pub const DEFAULT_UNIT_THRESHOLD: u64 = 86400;

/// The uptime of one tick and the length of one accrual unit.
#[derive(Clone, Copy, Debug)]
pub struct Schedule {
    tick_unit: u64,
    unit_threshold: u64,
}

impl Schedule {
    /// The uptime that one collector tick adds.
    pub closed spec fn tick(&self) -> u64 {
        self.tick_unit
    }

    /// The uptime that makes one accrual unit.
    pub closed spec fn threshold(&self) -> u64 {
        self.unit_threshold
    }

    /// An accrual unit is never empty.
    pub open spec fn wf(&self) -> bool {
        self.threshold() > 0
    }

    /// A schedule with the given tick and accrual unit; none where the unit
    /// would be empty.
    pub fn new(tick_unit: u64, unit_threshold: u64) -> (made: Option<Schedule>)
        ensures
            made is Some <==> unit_threshold > 0,
            made is Some ==> {
                &&& made->0.wf()
                &&& made->0.tick() == tick_unit
                &&& made->0.threshold() == unit_threshold
            },
    {
        if unit_threshold == 0 {
            None
        } else {
            Some(Schedule { tick_unit, unit_threshold })
        }
    }

    /// One minute per tick, one day per accrual unit.
    pub fn standard() -> (made: Schedule)
        ensures
            made.wf(),
            made.tick() == DEFAULT_TICK_UNIT,
            made.threshold() == DEFAULT_UNIT_THRESHOLD,
    {
        Schedule { tick_unit: DEFAULT_TICK_UNIT, unit_threshold: DEFAULT_UNIT_THRESHOLD }
    }

    /// The uptime that one collector tick adds.
    pub fn tick_unit(&self) -> (units: u64)
        ensures
            units == self.tick(),
    {
        self.tick_unit
    }

    /// The uptime that makes one accrual unit.
    pub fn unit_threshold(&self) -> (units: u64)
        ensures
            units == self.threshold(),
    {
        self.unit_threshold
    }
}

} // verus!
