//! Tasks and the task queue.
//!
//! A task is a free-text description together with an integer id that is
//! assigned monotonically and never reused. The queue is an ordered
//! sequence whose front is the next task to execute; insertion order is
//! priority order.

use vstd::prelude::*;

verus! {

/// One unit of work: a unique id and a natural-language description.
///
/// Derived tasks carry the provisional id 0 until the queue is
/// renumbered; see `admit_new_tasks` and `reprioritize`.
pub struct Task {
    pub task_id: u64,
    pub task_name: String,
}

/// The names of the queued tasks, front to back.
pub open spec fn names(q: Seq<Task>) -> Seq<Seq<char>> {
    q.map_values(|t: Task| t.task_name@)
}

/// Append a task at the back of the queue (lowest priority).
pub fn add_task(task: Task, task_list: &mut std::collections::VecDeque<Task>)
    ensures
        final(task_list)@ == old(task_list)@.push(task),
{
    task_list.push_back(task);
}

proof fn lemma_push_fresh(
    old_list: Seq<Task>,
    pushed: Task,
    new_list: Seq<Task>,
    base: int,
    counter0: u64,
    orig: Seq<Task>,
)
    requires
        new_list == old_list.push(pushed),
        0 <= base <= old_list.len(),
        old_list.len() - base < orig.len(),
        pushed.task_id == counter0 + 1 + (old_list.len() - base),
        pushed.task_name@ == orig[old_list.len() - base].task_name@,
        forall|j: int|
            base <= j < old_list.len() ==> (#[trigger] old_list[j]).task_id == counter0 + 1 + (j
                - base) && old_list[j].task_name@ == orig[j - base].task_name@,
    ensures
        forall|j: int|
            base <= j < new_list.len() ==> (#[trigger] new_list[j]).task_id == counter0 + 1 + (j
                - base) && new_list[j].task_name@ == orig[j - base].task_name@,
{
    assert forall|j: int|
        base <= j < new_list.len() implies ((#[trigger] new_list[j]).task_id == counter0 + 1 + (j
        - base) && new_list[j].task_name@ == orig[j - base].task_name@) by {
        if j < old_list.len() {
            assert(new_list[j] == old_list[j]);
        } else {
            assert(new_list[j] == pushed);
        }
    }
}

/// Append freshly derived tasks at the back of the queue, giving each
/// the next value of the id counter in order. The counter advances by
/// the number of admitted tasks; queued tasks are untouched.
pub fn admit_new_tasks(
    new_tasks: Vec<Task>,
    task_list: &mut std::collections::VecDeque<Task>,
    task_id_counter: &mut u64,
)
    requires
        *old(task_id_counter) + new_tasks@.len() <= u64::MAX,
    ensures
        *final(task_id_counter) == *old(task_id_counter) + new_tasks@.len(),
        final(task_list)@.len() == old(task_list)@.len() + new_tasks@.len(),
        forall|i: int|
            0 <= i < old(task_list)@.len() ==> final(task_list)@[i] == old(task_list)@[i],
        forall|j: int|
            old(task_list)@.len() <= j < final(task_list)@.len() ==> {
                &&& (#[trigger] final(task_list)@[j]).task_id == *old(task_id_counter) + 1 + (j
                    - old(task_list)@.len())
                &&& final(task_list)@[j].task_name@ == new_tasks@[j
                    - old(task_list)@.len()].task_name@
            },
{
    let ghost orig = new_tasks@;
    let ghost base = task_list@.len() as int;
    let ghost counter0 = *task_id_counter;
    let mut rest = new_tasks;
    while rest.len() > 0
        invariant
            0 <= base <= task_list@.len(),
            task_list@.len() - base + rest@.len() == orig.len(),
            rest@ =~= orig.subrange(task_list@.len() - base, orig.len() as int),
            *task_id_counter == counter0 + (task_list@.len() - base),
            counter0 + orig.len() <= u64::MAX,
            forall|i: int| 0 <= i < base ==> task_list@[i] == old(task_list)@[i],
            forall|j: int|
                base <= j < task_list@.len() ==> {
                    &&& (#[trigger] task_list@[j]).task_id == counter0 + 1 + (j - base)
                    &&& task_list@[j].task_name@ == orig[j - base].task_name@
                },
        decreases rest@.len(),
    {
        let ghost done = task_list@.len() - base;
        let ghost old_rest = rest@;
        let t = rest.remove(0);
        proof {
            assert(old_rest[0] == orig[done]);
        }
        *task_id_counter = *task_id_counter + 1;
        let ghost old_list = task_list@;
        let new_task = Task { task_id: *task_id_counter, task_name: t.task_name };
        let ghost pushed = new_task;
        task_list.push_back(new_task);
        proof {
            assert(old_list.len() == base + done);
            assert(0 <= base <= old_list.len());
            assert(old_list.len() - base < orig.len());
            assert(task_list@ == old_list.push(pushed));
            assert(rest@ =~= orig.subrange(done + 1, orig.len() as int));
            assert(pushed.task_id == counter0 + done + 1);
            assert(pushed.task_name@ == orig[done].task_name@);
            lemma_push_fresh(old_list, pushed, task_list@, base, counter0, orig);
        }
    }
}

} // verus!
