use vstd::prelude::*;
use crate::priority::PriorityLevel;

verus! {

/// The capability a task carries: a single "execute and return an integer
/// result" operation. `can_execute` names the inputs on which the operation
/// is defined (for a numeric handler: no arithmetic overflow), and
/// `result_spec` pins the value that `execute` returns.
pub trait TaskHandler {
    /// The handlers on which `execute` is defined.
    spec fn can_execute(&self) -> bool;

    /// The integer result that `execute` returns.
    spec fn result_spec(&self) -> int;

    fn execute(&self) -> (r: i32)
        requires
            self.can_execute(),
        ensures
            r as int == self.result_spec(),
    ;
}

/// The toy unit of work: combine two numbers by addition.
pub struct HardProblem {
    num1: i32,
    num2: i32,
}

impl HardProblem {
    /// The two operands held, as mathematical integers.
    pub closed spec fn nums(&self) -> (int, int) {
        (self.num1 as int, self.num2 as int)
    }

    pub fn new(num1: i32, num2: i32) -> (p: HardProblem)
        ensures
            p.nums() == (num1 as int, num2 as int),
    {
        HardProblem { num1, num2 }
    }

    /// Combine the two operands by addition.
    pub fn solve(&self) -> (r: i32)
        requires
            i32::MIN <= self.nums().0 + self.nums().1 <= i32::MAX,
        ensures
            r as int == self.nums().0 + self.nums().1,
    {
        self.num1 + self.num2
    }

    /// Combine the two operands, reporting `None` exactly when the sum
    /// does not fit the result type. Defined on every handler, so a caller
    /// that does not know the operands can still execute safely.
    pub fn checked_solve(&self) -> (r: Option<i32>)
        ensures
            i32::MIN <= self.nums().0 + self.nums().1 <= i32::MAX ==> (r matches Some(v)
                && v as int == self.nums().0 + self.nums().1),
            !(i32::MIN <= self.nums().0 + self.nums().1 <= i32::MAX) ==> r is None,
    {
        let sum: i64 = self.num1 as i64 + self.num2 as i64;
        if i32::MIN as i64 <= sum && sum <= i32::MAX as i64 {
            Some(sum as i32)
        } else {
            None
        }
    }
}

impl TaskHandler for HardProblem {
    open spec fn can_execute(&self) -> bool {
        i32::MIN <= self.nums().0 + self.nums().1 <= i32::MAX
    }

    open spec fn result_spec(&self) -> int {
        self.nums().0 + self.nums().1
    }

    fn execute(&self) -> (r: i32) {
        self.solve()
    }
}

/// An immutable unit of schedulable work: identity, an executable handler,
/// and a priority class.
pub struct Task {
    pub id: u128,
    pub handler: HardProblem,
    pub priority_level: PriorityLevel,
}

impl Task {
    pub fn new(id: u128, handler: HardProblem, priority_level: PriorityLevel) -> (t: Task)
        ensures
            t.id == id,
            t.handler == handler,
            t.priority_level == priority_level,
    {
        Task { id, handler, priority_level }
    }

    /// A task carrying a freshly drawn identifier.
    pub fn fresh(handler: HardProblem, priority_level: PriorityLevel) -> (t: Task)
        ensures
            t.handler == handler,
            t.priority_level == priority_level,
    {
        Task { id: fresh_id(), handler, priority_level }
    }
}

/// Relies on `uuid::Uuid::new_v4` and `uuid::Uuid::as_u128`: a freshly drawn
/// random version-4 identifier, read out as its 128-bit value. The value is
/// random, so nothing is promised of it.
#[verifier::external_body]
fn fresh_id() -> u128 {
    uuid::Uuid::new_v4().as_u128()
}

} // verus!
