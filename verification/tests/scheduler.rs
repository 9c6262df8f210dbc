use scheduler::feeder::{feeder_task, feeder_tasks};
use scheduler::intake::{derive_tasks, intake_step};
use scheduler::priority::PriorityLevel;
use scheduler::queue::{PriorityQueue, TaskQueue};
use scheduler::task::{HardProblem, Task, TaskHandler};

#[test]
fn empty_queue_reports_empty() {
    let mut q = PriorityQueue::new();
    assert!(q.is_empty());
    assert_eq!(q.len(), 0);
    assert!(q.peek().is_none());
    assert!(q.pop().is_none());
}

#[test]
fn high_priority_pops_first_with_results() {
    // push Task(High, handler -> 3+2) and Task(Low, handler -> 5+7):
    // pop must return the High task first, yielding 5; then the Low one, 12.
    let mut q = PriorityQueue::new();
    q.push(Task::new(1, HardProblem::new(3, 2), PriorityLevel::High));
    q.push(Task::new(2, HardProblem::new(5, 7), PriorityLevel::Low));

    let first = q.pop().expect("queue held two tasks");
    assert_eq!(first.priority_level, PriorityLevel::High);
    assert_eq!(first.id, 1);
    assert_eq!(first.handler.execute(), 5);

    let second = q.pop().expect("queue held one more task");
    assert_eq!(second.priority_level, PriorityLevel::Low);
    assert_eq!(second.id, 2);
    assert_eq!(second.handler.execute(), 12);

    assert!(q.pop().is_none());
}

#[test]
fn pop_never_returns_lower_priority_than_resident() {
    let mut q = PriorityQueue::new();
    let levels = [
        PriorityLevel::Low,
        PriorityLevel::High,
        PriorityLevel::Medium,
        PriorityLevel::High,
        PriorityLevel::Low,
        PriorityLevel::Medium,
    ];
    for (i, lvl) in levels.iter().enumerate() {
        q.push(Task::new(i as u128, HardProblem::new(i as i32, 1), *lvl));
    }
    let mut last_rank = 2u8;
    while let Some(t) = q.pop() {
        let r = t.priority_level.rank_value();
        assert!(r <= last_rank, "pop order must be non-increasing in rank");
        last_rank = r;
        // everything still resident has rank at most the popped task's
        if let Some(rest) = q.peek() {
            assert!(rest.priority_level.rank_value() <= r);
        }
    }
}

#[test]
fn len_and_is_empty_track_each_operation() {
    let mut q = PriorityQueue::new();
    assert!(q.is_empty() && q.len() == 0);
    q.push(Task::new(1, HardProblem::new(1, 1), PriorityLevel::Low));
    assert!(!q.is_empty() && q.len() == 1);
    q.push(Task::new(2, HardProblem::new(2, 2), PriorityLevel::High));
    assert!(!q.is_empty() && q.len() == 2);
    q.pop();
    assert!(!q.is_empty() && q.len() == 1);
    q.pop();
    assert!(q.is_empty() && q.len() == 0);
    q.pop();
    assert!(q.is_empty() && q.len() == 0);
}

#[test]
fn peek_then_pop_return_the_same_task() {
    let mut q = PriorityQueue::new();
    q.push(Task::new(7, HardProblem::new(1, 2), PriorityLevel::Medium));
    q.push(Task::new(8, HardProblem::new(3, 4), PriorityLevel::High));
    q.push(Task::new(9, HardProblem::new(5, 6), PriorityLevel::Low));

    let (peeked_id, peeked_level) = {
        let t = q.peek().expect("queue is not empty");
        (t.id, t.priority_level)
    };
    let popped = q.pop().expect("queue is not empty");
    assert_eq!(peeked_id, popped.id);
    assert_eq!(peeked_level, popped.priority_level);
}

#[test]
fn push_n_then_drain_yields_each_exactly_once() {
    let n: u128 = 10;
    let mut q = PriorityQueue::new();
    for i in 0..n {
        let lvl = match i % 3 {
            0 => PriorityLevel::High,
            1 => PriorityLevel::Medium,
            _ => PriorityLevel::Low,
        };
        q.push(Task::new(i, HardProblem::new(i as i32, 1), lvl));
    }
    let mut ids: Vec<u128> = Vec::new();
    while let Some(t) = q.pop() {
        ids.push(t.id);
    }
    assert_eq!(ids.len() as u128, n);
    ids.sort();
    for i in 0..n {
        assert_eq!(ids[i as usize], i, "each pushed task comes out exactly once");
    }
    assert!(q.is_empty());
}

#[test]
fn handle_drains_everything_highest_first() {
    let mut q = PriorityQueue::new();
    q.push(Task::new(1, HardProblem::new(1, 1), PriorityLevel::Low));
    q.push(Task::new(2, HardProblem::new(2, 2), PriorityLevel::High));
    q.push(Task::new(3, HardProblem::new(3, 3), PriorityLevel::Medium));

    let drained = q.handle();
    assert!(q.is_empty());
    assert_eq!(drained.len(), 3);
    assert_eq!(drained[0].priority_level, PriorityLevel::High);
    assert_eq!(drained[1].priority_level, PriorityLevel::Medium);
    assert_eq!(drained[2].priority_level, PriorityLevel::Low);
    let mut ids: Vec<u128> = drained.iter().map(|t| t.id).collect();
    ids.sort();
    assert_eq!(ids, vec![1, 2, 3]);
}

#[test]
fn intake_pushes_one_medium_and_one_low_from_result() {
    // a received task executes to R; the intake pushes exactly two derived
    // tasks, built from (R, R + 1), and the queue grows by exactly two.
    let mut q = PriorityQueue::new();
    let received = Task::new(1, HardProblem::new(4, 5), PriorityLevel::High);
    let r = received.handler.execute();
    assert_eq!(r, 9);

    let before = q.len();
    intake_step(&mut q, r);
    assert_eq!(q.len(), before + 2);

    let first = q.pop().expect("a derived task");
    assert_eq!(first.priority_level, PriorityLevel::Medium);
    assert_eq!(first.handler.execute(), 9 + 10);

    let second = q.pop().expect("the other derived task");
    assert_eq!(second.priority_level, PriorityLevel::Low);
    assert_eq!(second.handler.execute(), 9 + 10);

    assert!(q.is_empty());
}

#[test]
fn derived_pair_is_medium_then_low() {
    let (m, l) = derive_tasks(3);
    assert_eq!(m.priority_level, PriorityLevel::Medium);
    assert_eq!(l.priority_level, PriorityLevel::Low);
    assert_eq!(m.handler.execute(), 7);
    assert_eq!(l.handler.execute(), 7);
}

#[test]
fn feeder_emits_exactly_k_tasks_in_order() {
    let k: u32 = 7;
    let ts = feeder_tasks(k);
    assert_eq!(ts.len(), k as usize);
    for (i, t) in ts.iter().enumerate() {
        let expected = if i % 2 == 0 { PriorityLevel::High } else { PriorityLevel::Low };
        assert_eq!(t.priority_level, expected);
        // the i-th emission combines i and i + 1
        assert_eq!(t.handler.execute(), (2 * i + 1) as i32);
    }
}

#[test]
fn feeder_task_alternates_priority_by_parity() {
    let even = feeder_task(4);
    assert_eq!(even.priority_level, PriorityLevel::High);
    assert_eq!(even.handler.execute(), 9);
    let odd = feeder_task(5);
    assert_eq!(odd.priority_level, PriorityLevel::Low);
    assert_eq!(odd.handler.execute(), 11);
}

#[test]
fn solve_combines_operands() {
    assert_eq!(HardProblem::new(3, 2).solve(), 5);
    assert_eq!(HardProblem::new(-3, 5).solve(), 2);
    assert_eq!(HardProblem::new(0, 0).solve(), 0);
}

#[test]
fn checked_solve_reports_overflow_as_none() {
    assert_eq!(HardProblem::new(i32::MAX, 1).checked_solve(), None);
    assert_eq!(HardProblem::new(i32::MIN, -1).checked_solve(), None);
    assert_eq!(HardProblem::new(i32::MAX, 0).checked_solve(), Some(i32::MAX));
    assert_eq!(HardProblem::new(5, 7).checked_solve(), Some(12));
}

#[test]
fn fresh_tasks_keep_handler_and_priority() {
    let t = Task::fresh(HardProblem::new(2, 3), PriorityLevel::Medium);
    assert_eq!(t.priority_level, PriorityLevel::Medium);
    assert_eq!(t.handler.execute(), 5);
}
