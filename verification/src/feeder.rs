use vstd::prelude::*;
use crate::priority::PriorityLevel;
use crate::task::{HardProblem, Task};

verus! {

/// The priority class the feeder assigns to its `i`th emission: alternating
/// by parity of the generation counter.
pub open spec fn feeder_priority(i: int) -> PriorityLevel {
    if i % 2 == 0 {
        PriorityLevel::High
    } else {
        PriorityLevel::Low
    }
}

/// Whether `t` is shaped as the feeder's `i`th emission: handler operands
/// `i` and `i + 1`, priority by parity of `i`.
pub open spec fn feeder_shape(i: int, t: Task) -> bool {
    t.priority_level == feeder_priority(i) && t.handler.nums() == (i, i + 1)
}

/// Manufacture the feeder's `i`th task.
pub fn feeder_task(i: i32) -> (t: Task)
    requires
        0 <= i < i32::MAX,
    ensures
        feeder_shape(i as int, t),
{
    let priority = if i % 2 == 0 {
        PriorityLevel::High
    } else {
        PriorityLevel::Low
    };
    Task::fresh(HardProblem::new(i, i + 1), priority)
}

/// Manufacture the feeder's bounded stream: one task per generation
/// `0 .. count`, in emission order.
pub fn feeder_tasks(count: u32) -> (ts: Vec<Task>)
    requires
        count < i32::MAX as u32,
    ensures
        ts@.len() == count,
        forall|i: int| 0 <= i < count ==> feeder_shape(i, #[trigger] ts@[i]),
{
    let mut ts: Vec<Task> = Vec::new();
    let mut i: u32 = 0;
    while i < count
        invariant
            i <= count,
            count < i32::MAX as u32,
            ts@.len() == i,
            forall|j: int| 0 <= j < i ==> feeder_shape(j, #[trigger] ts@[j]),
        decreases count - i,
    {
        let t = feeder_task(i as i32);
        ts.push(t);
        i = i + 1;
    }
    ts
}

} // verus!
