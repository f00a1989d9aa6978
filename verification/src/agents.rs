//! Deriving and reordering tasks from model replies.
//!
//! The task-creation agent turns every line of a reply into a proposed
//! task with the provisional id 0, keeping lines without a `.` as
//! empty names. The prioritization agent rebuilds the queue from a
//! reply, dropping lines without a `.` and assigning fresh sequential
//! ids that continue from the back of the queue it replaces.

use vstd::prelude::*;

use crate::task::names;
use crate::task::Task;
use crate::text::parse_name;
use crate::text::parse_name_spec;
use crate::text::split_lines;
use crate::text::split_lines_spec;
use crate::text::trim;
use crate::text::trim_spec;
use crate::text::lemma_split_lines_len;
use crate::text::lemma_trim_len;

verus! {

/// The name a created task takes from one reply line: the candidate
/// name when the line has one, the empty name otherwise.
pub open spec fn line_name(l: Seq<char>) -> Seq<char> {
    match parse_name_spec(l) {
        Some(n) => n,
        None => Seq::<char>::empty(),
    }
}

/// The names of the tasks created from a reply, one per line.
pub open spec fn created_names(response: Seq<char>) -> Seq<Seq<char>> {
    split_lines_spec(trim_spec(response)).map_values(|l: Seq<char>| line_name(l))
}

/// The candidate names in a reply whose lines have one, in order.
pub open spec fn somes(s: Seq<Option<Seq<char>>>) -> Seq<Seq<char>>
    decreases s.len(),
{
    if s.len() == 0 {
        Seq::<Seq<char>>::empty()
    } else {
        match s[0] {
            Some(x) => seq![x].add(somes(s.drop_first())),
            None => somes(s.drop_first()),
        }
    }
}

proof fn lemma_somes_push(s: Seq<Option<Seq<char>>>, x: Option<Seq<char>>)
    ensures
        somes(s.push(x)) =~~= somes(s).add(
            match x {
                Some(v) => seq![v],
                None => Seq::<Seq<char>>::empty(),
            },
        ),
    decreases s.len(),
{
    let sx = match x {
        Some(v) => seq![v],
        None => Seq::<Seq<char>>::empty(),
    };
    if s.len() == 0 {
        assert(s.push(x)[0] == x);
        assert(s.push(x).drop_first() =~~= Seq::<Option<Seq<char>>>::empty());
        assert(somes(Seq::<Option<Seq<char>>>::empty()) =~~= Seq::<Seq<char>>::empty());
        assert(somes(s.push(x)) =~~= sx);
        assert(somes(s) =~~= Seq::<Seq<char>>::empty());
        assert(somes(s).add(sx) =~~= sx);
    } else {
        lemma_somes_push(s.drop_first(), x);
        assert(s.push(x)[0] == s[0]);
        assert(s.push(x).drop_first() =~~= s.drop_first().push(x));
        assert(somes(s.drop_first().push(x)) =~~= somes(s.drop_first()).add(sx));
        match s[0] {
            Some(v) => {
                assert(somes(s.push(x)) =~~= seq![v].add(somes(s.drop_first().push(x))));
                assert(seq![v].add(somes(s.drop_first()).add(sx)) =~~= (seq![v].add(
                    somes(s.drop_first()),
                )).add(sx));
                assert(somes(s) =~~= seq![v].add(somes(s.drop_first())));
            },
            None => {},
        }
    }
}

/// There are never more candidate names than reply lines.
pub proof fn lemma_somes_len(s: Seq<Option<Seq<char>>>)
    ensures
        somes(s).len() <= s.len(),
    decreases s.len(),
{
    if s.len() > 0 {
        lemma_somes_len(s.drop_first());
    }
}

/// The names the prioritization agent reads out of a reply: one per
/// line that has a `.`, in reply order.
pub open spec fn prioritized_names(response: Seq<char>) -> Seq<Seq<char>> {
    somes(split_lines_spec(trim_spec(response)).map_values(|l: Seq<char>| parse_name_spec(l)))
}

/// A reply never yields more prioritized names than it has characters,
/// plus one for the final line. Callers can meet the id-space
/// precondition of `reprioritize` from this bound alone.
pub proof fn lemma_prioritized_names_len(response: Seq<char>)
    ensures
        prioritized_names(response).len() <= response.len() + 1,
{
    lemma_trim_len(response);
    lemma_split_lines_len(trim_spec(response));
    lemma_somes_len(
        split_lines_spec(trim_spec(response)).map_values(|l: Seq<char>| parse_name_spec(l)),
    );
}

/// The id every freshly parsed task starts from: one past the back of
/// the queue, or 1 for an empty queue.
pub open spec fn fresh_start_id(q: Seq<Task>) -> int {
    if q.len() == 0 {
        1
    } else {
        q.last().task_id + 1
    }
}

/// Turn a task-creation reply into proposed tasks, one per line, each
/// carrying the provisional id 0. Lines without a `.` still yield a
/// task, with an empty name.
pub fn create_tasks(response: &str) -> (r: Vec<Task>)
    ensures
        r@.len() == created_names(response@).len(),
        names(r@) =~~= created_names(response@),
        forall|i: int| 0 <= i < r@.len() ==> (#[trigger] r@[i]).task_id == 0,
{
    let trimmed = trim(response);
    let lines = split_lines(trimmed.as_str());
    let ghost lspec = split_lines_spec(trim_spec(response@));
    let mut r: Vec<Task> = Vec::new();
    let mut i: usize = 0;
    while i < lines.len()
        invariant
            0 <= i <= lines@.len(),
            lines.deep_view() =~~= lspec,
            lines@.len() == lspec.len(),
            r@.len() == i,
            forall|k: int|
                0 <= k < i ==> (#[trigger] r@[k]).task_id == 0 && r@[k].task_name@ == line_name(
                    lspec[k],
                ),
        decreases lines@.len() - i,
    {
        proof {
            assert(lines@[i as int]@ == lines.deep_view()[i as int]);
        }
        let name = match parse_name(lines[i].as_str()) {
            Some(n) => n,
            None => String::new(),
        };
        r.push(Task { task_id: 0, task_name: name });
        i = i + 1;
    }
    proof {
        assert(names(r@) =~~= created_names(response@));
    }
    r
}

/// Rebuild the queue from a prioritization reply: one task per line
/// with a `.`, in reply order, with fresh sequential ids that continue
/// one past the back of the replaced queue (1 when it was empty).
pub fn reprioritize(task_list: &mut std::collections::VecDeque<Task>, response: &str)
    requires
        fresh_start_id(old(task_list)@) + response@.len() + 1 <= u64::MAX,
    ensures
        final(task_list)@.len() == prioritized_names(response@).len(),
        names(final(task_list)@) =~~= prioritized_names(response@),
        forall|j: int|
            0 <= j < final(task_list)@.len() ==> (#[trigger] final(task_list)@[j]).task_id
                == fresh_start_id(old(task_list)@) + j,
{
    let start: u64 = if task_list.len() == 0 {
        1
    } else {
        task_list[task_list.len() - 1].task_id + 1
    };
    proof {
        assert(start as int == fresh_start_id(old(task_list)@));
    }
    task_list.clear();
    let trimmed = trim(response);
    let lines = split_lines(trimmed.as_str());
    let ghost lspec = split_lines_spec(trim_spec(response@));
    let ghost mapped = lspec.map_values(|l: Seq<char>| parse_name_spec(l));
    proof {
        lemma_trim_len(response@);
        lemma_split_lines_len(trim_spec(response@));
        assert(mapped.subrange(0, 0) =~~= Seq::<Option<Seq<char>>>::empty());
    }
    let mut i: usize = 0;
    while i < lines.len()
        invariant
            0 <= i <= lines@.len(),
            lines.deep_view() =~~= lspec,
            lines@.len() == lspec.len(),
            mapped == lspec.map_values(|l: Seq<char>| parse_name_spec(l)),
            lspec.len() <= response@.len() + 1,
            start as int == fresh_start_id(old(task_list)@),
            start + response@.len() + 1 <= u64::MAX,
            task_list@.len() == somes(mapped.subrange(0, i as int)).len(),
            names(task_list@) =~~= somes(mapped.subrange(0, i as int)),
            task_list@.len() <= i,
            forall|j: int|
                0 <= j < task_list@.len() ==> (#[trigger] task_list@[j]).task_id == start + j,
        decreases lines@.len() - i,
    {
        proof {
            assert(lines@[i as int]@ == lines.deep_view()[i as int]);
            assert(mapped[i as int] == parse_name_spec(lspec[i as int]));
            lemma_somes_push(mapped.subrange(0, i as int), mapped[i as int]);
            assert(mapped.subrange(0, i as int).push(mapped[i as int]) =~~= mapped.subrange(
                0,
                i as int + 1,
            ));
        }
        match parse_name(lines[i].as_str()) {
            Some(name) => {
                let id: u64 = start + (task_list.len() as u64);
                let ghost old_list = task_list@;
                let new_task = Task { task_id: id, task_name: name };
                let ghost pushed = new_task;
                task_list.push_back(new_task);
                proof {
                    assert(task_list@ == old_list.push(pushed));
                    assert(names(task_list@) =~~= names(old_list).push(pushed.task_name@));
                    assert forall|j: int|
                        0 <= j < task_list@.len() implies (#[trigger] task_list@[j]).task_id
                        == start + j by {
                        if j < old_list.len() {
                            assert(task_list@[j] == old_list[j]);
                        } else {
                            assert(task_list@[j] == pushed);
                        }
                    }
                }
            },
            None => {},
        }
        i = i + 1;
    }
    proof {
        assert(mapped.subrange(0, lspec.len() as int) =~~= mapped);
    }
}

/// Law: when a prioritization reply lists exactly the queued task
/// names, in any order, rebuilding the queue preserves the multiset of
/// names — none is dropped and none is duplicated.
pub proof fn lemma_reprioritize_preserves_names(
    before: Seq<Task>,
    after: Seq<Task>,
    response: Seq<char>,
)
    requires
        before.len() > 0,
        names(after) == prioritized_names(response),
        prioritized_names(response).to_multiset() == names(before).to_multiset(),
    ensures
        names(after).to_multiset() == names(before).to_multiset(),
{
}

} // verus!
