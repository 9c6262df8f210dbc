use vstd::prelude::*;
use vstd::multiset::Multiset;
use crate::priority::rank;
use crate::task::Task;

verus! {

/// The model sequence is ordered by rank from lowest to highest, so the
/// highest-priority task stands at the end.
pub open spec fn sorted_by_rank(s: Seq<Task>) -> bool {
    forall|i: int, j: int|
        0 <= i <= j < s.len() ==> rank(s[i].priority_level) <= rank(s[j].priority_level)
}

/// Where a pushed task comes to rest: behind every task of rank at most its
/// own, before every task of strictly higher rank.
pub open spec fn insert_by_rank(s: Seq<Task>, t: Task) -> Seq<Task>
    decreases s.len(),
{
    if s.len() == 0 {
        seq![t]
    } else if rank(s.last().priority_level) <= rank(t.priority_level) {
        s.push(t)
    } else {
        insert_by_rank(s.drop_last(), t).push(s.last())
    }
}

/// The task that `peek` reports: the last of the model sequence.
pub open spec fn peek_result(s: Seq<Task>) -> Task {
    s.last()
}

/// The task that a successful `pop` removes and returns.
pub open spec fn pop_result(s: Seq<Task>) -> Task {
    s.last()
}

/// `insert_by_rank` is insertion at the position its conditions describe:
/// everything from `i` on has strictly higher rank, everything before `i`
/// has rank at most the new task's.
proof fn lemma_insert_by_rank_at(s: Seq<Task>, t: Task, i: int)
    requires
        0 <= i <= s.len(),
        forall|j: int| i <= j < s.len() ==> rank(s[j].priority_level) > rank(t.priority_level),
        i > 0 ==> rank(s[i - 1].priority_level) <= rank(t.priority_level),
    ensures
        insert_by_rank(s, t) == s.insert(i, t),
    decreases s.len(),
{
    if s.len() == 0 {
        assert(insert_by_rank(s, t) =~= s.insert(0, t));
    } else if i == s.len() {
        assert(rank(s.last().priority_level) <= rank(t.priority_level));
        assert(s.push(t) =~= s.insert(i, t));
    } else {
        assert(rank(s.last().priority_level) > rank(t.priority_level));
        lemma_insert_by_rank_at(s.drop_last(), t, i);
        assert(s.drop_last().insert(i, t).push(s.last()) =~= s.insert(i, t));
    }
}

/// Inserting by rank adds exactly the new task: the contents grow by that
/// one task and the length by one.
pub proof fn lemma_insert_by_rank_multiset(s: Seq<Task>, t: Task)
    ensures
        insert_by_rank(s, t).to_multiset() == s.to_multiset().insert(t),
        insert_by_rank(s, t).len() == s.len() + 1,
    decreases s.len(),
{
    broadcast use vstd::seq_lib::group_to_multiset_ensures;
    broadcast use vstd::multiset::group_multiset_axioms;

    if s.len() == 0 {
        assert(insert_by_rank(s, t) == s.push(t));
    } else if rank(s.last().priority_level) <= rank(t.priority_level) {
    } else {
        let dl = s.drop_last();
        lemma_insert_by_rank_multiset(dl, t);
        assert(s =~= dl.push(s.last()));
        assert(insert_by_rank(s, t).to_multiset() =~= dl.to_multiset().insert(t).insert(
            s.last(),
        ));
        assert(dl.to_multiset().insert(t).insert(s.last()) =~= dl.to_multiset().insert(
            s.last(),
        ).insert(t));
    }
}

/// The queue interface of the scheduler: priority-first retrieval over a
/// model sequence `tasks()` that keeps the highest-priority task last.
pub trait TaskQueue {
    /// The tasks currently held, lowest rank first.
    spec fn tasks(&self) -> Seq<Task>;

    /// The container's invariant: the model sequence is ordered by rank.
    spec fn wf(&self) -> bool;

    /// Insert a task; the priority invariant is re-established. Never fails.
    fn push(&mut self, task: Task)
        requires
            old(self).wf(),
        ensures
            final(self).wf(),
            final(self).tasks() == insert_by_rank(old(self).tasks(), task),
            final(self).tasks().len() == old(self).tasks().len() + 1,
            final(self).tasks().to_multiset() == old(self).tasks().to_multiset().insert(task),
    ;

    /// Remove and return the highest-priority task, or `None` when empty.
    /// Every task left behind has rank at most the returned task's.
    fn pop(&mut self) -> (r: Option<Task>)
        requires
            old(self).wf(),
        ensures
            final(self).wf(),
            old(self).tasks().len() == 0 ==> r is None && final(self).tasks() == old(
                self,
            ).tasks(),
            old(self).tasks().len() > 0 ==> r == Some(pop_result(old(self).tasks())),
            old(self).tasks().len() > 0 ==> final(self).tasks() == old(self).tasks().drop_last(),
            old(self).tasks().len() > 0 ==> final(self).tasks().len() == old(self).tasks().len()
                - 1,
            old(self).tasks().len() > 0 ==> forall|j: int|
                0 <= j < final(self).tasks().len() ==> rank(
                    #[trigger] final(self).tasks()[j].priority_level,
                ) <= rank(pop_result(old(self).tasks()).priority_level),
    ;

    /// Read the highest-priority task without removing it, or `None` when
    /// empty.
    fn peek(&self) -> (r: Option<&Task>)
        requires
            self.wf(),
        ensures
            self.tasks().len() == 0 ==> r is None,
            self.tasks().len() > 0 ==> (r matches Some(t) && *t == peek_result(self.tasks())),
    ;

    /// The number of tasks held.
    fn len(&self) -> (n: usize)
        ensures
            n == self.tasks().len(),
    ;

    /// True exactly when no task is held.
    fn is_empty(&self) -> (b: bool)
        ensures
            b == (self.tasks().len() == 0),
    ;

    /// Drain the queue by repeated pop: the returned vector holds exactly
    /// the tasks that were held, in pop order (highest priority first), and
    /// the queue is left empty.
    fn handle(&mut self) -> (drained: Vec<Task>)
        requires
            old(self).wf(),
        ensures
            final(self).wf(),
            final(self).tasks().len() == 0,
            drained@ == old(self).tasks().reverse(),
            drained@.len() == old(self).tasks().len(),
            drained@.to_multiset() == old(self).tasks().to_multiset(),
            forall|i: int, j: int|
                0 <= i <= j < drained@.len() ==> rank(drained@[i].priority_level) >= rank(
                    drained@[j].priority_level,
                ),
    ;
}

/// The ordered container: a vector kept sorted by rank, lowest first, so
/// that the highest-priority task is popped from the end.
pub struct PriorityQueue {
    tasks: Vec<Task>,
}

impl PriorityQueue {
    /// An empty queue.
    pub fn new() -> (q: PriorityQueue)
        ensures
            q.wf(),
            q.tasks() == Seq::<Task>::empty(),
    {
        PriorityQueue { tasks: Vec::new() }
    }
}

impl TaskQueue for PriorityQueue {
    closed spec fn tasks(&self) -> Seq<Task> {
        self.tasks@
    }

    closed spec fn wf(&self) -> bool {
        sorted_by_rank(self.tasks@)
    }

    fn push(&mut self, task: Task) {
        let ghost s = self.tasks@;
        let mut i: usize = self.tasks.len();
        while i > 0 && self.tasks[i - 1].priority_level.rank_value()
            > task.priority_level.rank_value()
            invariant
                i <= self.tasks@.len(),
                self.tasks@ == s,
                sorted_by_rank(s),
                forall|j: int|
                    i <= j < s.len() ==> rank(#[trigger] s[j].priority_level) > rank(
                        task.priority_level,
                    ),
            decreases i,
        {
            i = i - 1;
        }
        proof {
            lemma_insert_by_rank_at(s, task, i as int);
            lemma_insert_by_rank_multiset(s, task);
            s.insert_ensures(i as int, task);
            assert forall|a: int, b: int|
                0 <= a <= b < s.insert(i as int, task).len() implies rank(
                s.insert(i as int, task)[a].priority_level,
            ) <= rank(s.insert(i as int, task)[b].priority_level) by {
                let ins = s.insert(i as int, task);
                if a < i && b < i {
                    assert(ins[a] == s[a] && ins[b] == s[b]);
                } else if a < i && b == i {
                    assert(ins[a] == s[a] && ins[b] == task);
                    assert(rank(s[a].priority_level) <= rank(s[i - 1].priority_level));
                } else if a == i && b == i {
                } else if a < i && b > i {
                    assert(ins[a] == s[a] && ins[b] == s[b - 1]);
                } else if a == i && b > i {
                    assert(ins[a] == task && ins[b] == s[b - 1]);
                    assert(rank(s[b - 1].priority_level) > rank(task.priority_level));
                } else {
                    assert(ins[a] == s[a - 1] && ins[b] == s[b - 1]);
                }
            }
        }
        self.tasks.insert(i, task);
    }

    fn pop(&mut self) -> (r: Option<Task>) {
        let r = self.tasks.pop();
        proof {
            let s = old(self).tasks@;
            if s.len() > 0 {
                assert forall|a: int, b: int|
                    0 <= a <= b < self.tasks@.len() implies rank(
                    self.tasks@[a].priority_level,
                ) <= rank(self.tasks@[b].priority_level) by {
                    assert(self.tasks@[a] == s[a] && self.tasks@[b] == s[b]);
                }
            }
        }
        r
    }

    fn peek(&self) -> (r: Option<&Task>) {
        if self.tasks.len() == 0 {
            None
        } else {
            Some(&self.tasks[self.tasks.len() - 1])
        }
    }

    fn len(&self) -> (n: usize) {
        self.tasks.len()
    }

    fn is_empty(&self) -> (b: bool) {
        self.tasks.is_empty()
    }

    fn handle(&mut self) -> (drained: Vec<Task>) {
        let ghost s = self.tasks@;
        let mut drained: Vec<Task> = Vec::new();
        proof {
            assert(self.tasks@ =~= s.subrange(0, self.tasks@.len() as int));
            assert(drained@ =~= s.subrange(self.tasks@.len() as int, s.len() as int).reverse());
        }
        while self.tasks.len() > 0
            invariant
                sorted_by_rank(s),
                self.tasks@.len() <= s.len(),
                self.tasks@ == s.subrange(0, self.tasks@.len() as int),
                drained@ == s.subrange(self.tasks@.len() as int, s.len() as int).reverse(),
            decreases self.tasks@.len(),
        {
            let ghost m = self.tasks@.len() as int;
            let t = self.tasks.pop().unwrap();
            drained.push(t);
            proof {
                assert(t == s[m - 1]);
                assert(self.tasks@ =~= s.subrange(0, m - 1));
                assert(drained@ =~= s.subrange(m - 1, s.len() as int).reverse());
            }
        }
        proof {
            assert(s.subrange(0, s.len() as int) =~= s);
            assert(drained@ == s.reverse());
            s.lemma_reverse_to_multiset();
            assert forall|i: int, j: int|
                0 <= i <= j < drained@.len() implies rank(drained@[i].priority_level) >= rank(
                drained@[j].priority_level,
            ) by {
                assert(drained@[i] == s[s.len() - 1 - i]);
                assert(drained@[j] == s[s.len() - 1 - j]);
            }
        }
        drained
    }
}

/// Law: `peek()` followed immediately by `pop()` (no intervening push)
/// reports the same task — the same identifier and the same priority —
/// since both contracts pin their result to the last task of the model
/// sequence.
pub proof fn lemma_peek_pop_agree(s: Seq<Task>)
    requires
        s.len() > 0,
    ensures
        peek_result(s).id == pop_result(s).id,
        peek_result(s).priority_level == pop_result(s).priority_level,
{
}

/// Law: a popped task has priority at least that of every task still
/// resident: the model sequence is ordered by rank and `pop` takes the
/// last task.
pub proof fn lemma_pop_returns_max(s: Seq<Task>)
    requires
        s.len() > 0,
        sorted_by_rank(s),
    ensures
        forall|j: int|
            0 <= j < s.drop_last().len() ==> rank(
                #[trigger] s.drop_last()[j].priority_level,
            ) <= rank(pop_result(s).priority_level),
{
    assert forall|j: int| 0 <= j < s.drop_last().len() implies rank(
        s.drop_last()[j].priority_level,
    ) <= rank(pop_result(s).priority_level) by {
        assert(s.drop_last()[j] == s[j]);
    }
}

/// The model queue after pushing each task of `ts`, in order, onto a queue
/// whose model sequence is `s`.
pub open spec fn after_pushes(s: Seq<Task>, ts: Seq<Task>) -> Seq<Task>
    decreases ts.len(),
{
    if ts.len() == 0 {
        s
    } else {
        after_pushes(insert_by_rank(s, ts.first()), ts.drop_first())
    }
}

/// Pushing a batch of tasks adds exactly that batch to the queue's
/// contents.
proof fn lemma_after_pushes_multiset(s: Seq<Task>, ts: Seq<Task>)
    ensures
        after_pushes(s, ts).to_multiset() == s.to_multiset().add(ts.to_multiset()),
        after_pushes(s, ts).len() == s.len() + ts.len(),
    decreases ts.len(),
{
    broadcast use vstd::seq_lib::group_to_multiset_ensures;
    broadcast use vstd::multiset::group_multiset_axioms;

    if ts.len() == 0 {
        assert(ts.to_multiset() =~= Multiset::<Task>::empty());
        assert(s.to_multiset().add(ts.to_multiset()) =~= s.to_multiset());
    } else {
        let t = ts.first();
        lemma_insert_by_rank_multiset(s, t);
        lemma_after_pushes_multiset(insert_by_rank(s, t), ts.drop_first());
        assert(ts.drop_first() =~= ts.remove(0));
        assert(ts.remove(0).to_multiset() == ts.to_multiset().remove(ts[0]));
        assert(ts.to_multiset().count(ts[0]) > 0) by {
            assert(ts.contains(ts[0]));
        }
        assert(s.to_multiset().insert(t).add(ts.to_multiset().remove(t)) =~= s.to_multiset().add(
            ts.to_multiset(),
        ));
    }
}

/// Law: pushing any batch of tasks and then draining the queue yields
/// exactly those tasks, each exactly once — no duplication, no loss.
pub proof fn lemma_push_all_then_drain(ts: Seq<Task>)
    ensures
        after_pushes(Seq::<Task>::empty(), ts).reverse().to_multiset() == ts.to_multiset(),
        after_pushes(Seq::<Task>::empty(), ts).reverse().len() == ts.len(),
{
    broadcast use vstd::seq_lib::group_to_multiset_ensures;
    broadcast use vstd::multiset::group_multiset_axioms;

    let q = after_pushes(Seq::<Task>::empty(), ts);
    lemma_after_pushes_multiset(Seq::<Task>::empty(), ts);
    q.lemma_reverse_to_multiset();
    assert(Seq::<Task>::empty().to_multiset() =~= Multiset::<Task>::empty());
    assert(q.to_multiset() =~= ts.to_multiset());
    assert(q.reverse().len() == q.len());
}

} // verus!
