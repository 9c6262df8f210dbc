use vstd::prelude::*;
use crate::priority::PriorityLevel;
use crate::queue::{insert_by_rank, PriorityQueue, TaskQueue};
use crate::task::{HardProblem, Task};

verus! {

/// Whether `t` is one of the two tasks the intake derives from a completed
/// task's result `r`: handler operands `r` and `r + 1`, at priority `p`.
pub open spec fn derived_shape(r: int, p: PriorityLevel, t: Task) -> bool {
    t.priority_level == p && t.handler.nums() == (r, r + 1)
}

/// Derive the two follow-up tasks from a completed task's result: one
/// Medium, one Low, both built from `(result, result + 1)`.
pub fn derive_tasks(result: i32) -> (pair: (Task, Task))
    requires
        result < i32::MAX,
    ensures
        derived_shape(result as int, PriorityLevel::Medium, pair.0),
        derived_shape(result as int, PriorityLevel::Low, pair.1),
{
    let medium = Task::fresh(HardProblem::new(result, result + 1), PriorityLevel::Medium);
    let low = Task::fresh(HardProblem::new(result, result + 1), PriorityLevel::Low);
    (medium, low)
}

/// The feedback step of the intake loop: from a completed task's result,
/// push exactly two derived tasks — one Medium, one Low, both built from
/// `(result, result + 1)` — into the shared queue. The queue grows by
/// exactly two.
pub fn intake_step(queue: &mut PriorityQueue, result: i32)
    requires
        old(queue).wf(),
        result < i32::MAX,
    ensures
        final(queue).wf(),
        final(queue).tasks().len() == old(queue).tasks().len() + 2,
        exists|m: Task, l: Task|
            derived_shape(result as int, PriorityLevel::Medium, m) && derived_shape(
                result as int,
                PriorityLevel::Low,
                l,
            ) && final(queue).tasks() == insert_by_rank(
                insert_by_rank(old(queue).tasks(), m),
                l,
            ),
{
    let (medium, low) = derive_tasks(result);
    let ghost gm = medium;
    let ghost gl = low;
    queue.push(medium);
    queue.push(low);
    proof {
        assert(derived_shape(result as int, PriorityLevel::Medium, gm) && derived_shape(
            result as int,
            PriorityLevel::Low,
            gl,
        ) && queue.tasks() == insert_by_rank(insert_by_rank(old(queue).tasks(), gm), gl));
    }
}

} // verus!
