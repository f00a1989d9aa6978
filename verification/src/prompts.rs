//! Prompt construction for the three agents.
//!
//! Each prompt is an exact concatenation of fixed instruction text and
//! the caller's values; the queue listings are rendered in a
//! debug-style bracketed form. Task names are rendered verbatim,
//! without escaping.

use vstd::prelude::*;

use crate::task::names;
use crate::task::Task;
use crate::text::decimal_spec;
use crate::text::join_lines_spec;
use crate::text::u64_to_string;

verus! {

/// The text wrapped in double quotes.
pub open spec fn quoted(s: Seq<char>) -> Seq<char> {
    "\""@ + s + "\""@
}

/// The comma-separated quoted names, without surrounding brackets.
pub open spec fn name_list_items(items: Seq<Seq<char>>) -> Seq<char>
    decreases items.len(),
{
    if items.len() == 0 {
        Seq::<char>::empty()
    } else if items.len() == 1 {
        quoted(items[0])
    } else {
        quoted(items[0]) + ", "@ + name_list_items(items.drop_first())
    }
}

/// A bracketed list of quoted names, as a listing of strings prints.
pub open spec fn render_names_spec(items: Seq<Seq<char>>) -> Seq<char> {
    "["@ + name_list_items(items) + "]"@
}

proof fn lemma_name_list_items_push(items: Seq<Seq<char>>, x: Seq<char>)
    ensures
        items.len() == 0 ==> name_list_items(items.push(x)) == quoted(x),
        items.len() > 0 ==> name_list_items(items.push(x)) == name_list_items(items) + ", "@
            + quoted(x),
    decreases items.len(),
{
    if items.len() == 0 {
        assert(items.push(x)[0] == x);
    } else if items.len() == 1 {
        assert(items.push(x)[0] == items[0]);
        assert(items.push(x).drop_first() =~~= seq![x]);
        assert(name_list_items(seq![x]) == quoted(x));
    } else {
        lemma_name_list_items_push(items.drop_first(), x);
        assert(items.push(x)[0] == items[0]);
        assert(items.push(x).drop_first() =~~= items.drop_first().push(x));
        assert(quoted(items[0]) + ", "@ + (name_list_items(items.drop_first()) + ", "@ + quoted(
            x,
        )) =~= (quoted(items[0]) + ", "@ + name_list_items(items.drop_first())) + ", "@ + quoted(
            x,
        ));
    }
}

/// Render the queued task names as a bracketed list of quoted
/// strings, front to back.
pub fn render_task_names(task_list: &std::collections::VecDeque<Task>) -> (r: String)
    ensures
        r@ == render_names_spec(names(task_list@)),
{
    let mut r = String::new();
    r.append("[");
    let mut i: usize = 0;
    while i < task_list.len()
        invariant
            0 <= i <= task_list@.len(),
            r@ == "["@ + name_list_items(names(task_list@).subrange(0, i as int)),
        decreases task_list@.len() - i,
    {
        if i > 0 {
            r.append(", ");
        }
        r.append("\"");
        r.append(task_list[i].task_name.as_str());
        r.append("\"");
        proof {
            let items = names(task_list@);
            lemma_name_list_items_push(items.subrange(0, i as int), items[i as int]);
            assert(items[i as int] == task_list@[i as int].task_name@);
            assert(items.subrange(0, i as int).push(items[i as int]) =~~= items.subrange(
                0,
                i as int + 1,
            ));
            if i > 0 {
                assert(r@ =~= "["@ + name_list_items(items.subrange(0, i as int + 1)));
            } else {
                assert(items.subrange(0, 0) =~~= Seq::<Seq<char>>::empty());
                assert(r@ =~= "["@ + name_list_items(items.subrange(0, 1)));
            }
        }
        i = i + 1;
    }
    r.append("]");
    proof {
        assert(names(task_list@).subrange(0, task_list@.len() as int) =~~= names(task_list@));
    }
    r
}

/// One task as the queue listing prints it.
pub open spec fn render_task_spec(t: Task) -> Seq<char> {
    "Task { task_id: "@ + decimal_spec(t.task_id as nat) + ", task_name: \""@ + t.task_name@
        + "\" }"@
}

/// The comma-separated rendered tasks, without surrounding brackets.
pub open spec fn queue_items(q: Seq<Task>) -> Seq<char>
    decreases q.len(),
{
    if q.len() == 0 {
        Seq::<char>::empty()
    } else if q.len() == 1 {
        render_task_spec(q[0])
    } else {
        render_task_spec(q[0]) + ", "@ + queue_items(q.drop_first())
    }
}

/// A bracketed listing of the whole queue, front to back.
pub open spec fn render_queue_spec(q: Seq<Task>) -> Seq<char> {
    "["@ + queue_items(q) + "]"@
}

proof fn lemma_queue_items_push(q: Seq<Task>, t: Task)
    ensures
        q.len() == 0 ==> queue_items(q.push(t)) == render_task_spec(t),
        q.len() > 0 ==> queue_items(q.push(t)) == queue_items(q) + ", "@ + render_task_spec(t),
    decreases q.len(),
{
    if q.len() == 0 {
        assert(q.push(t)[0] == t);
    } else if q.len() == 1 {
        assert(q.push(t)[0] == q[0]);
        assert(q.push(t).drop_first() =~~= seq![t]);
        assert(queue_items(seq![t]) == render_task_spec(t));
    } else {
        lemma_queue_items_push(q.drop_first(), t);
        assert(q.push(t)[0] == q[0]);
        assert(q.push(t).drop_first() =~~= q.drop_first().push(t));
        assert(render_task_spec(q[0]) + ", "@ + (queue_items(q.drop_first()) + ", "@
            + render_task_spec(t)) =~= (render_task_spec(q[0]) + ", "@ + queue_items(
            q.drop_first(),
        )) + ", "@ + render_task_spec(t));
    }
}

/// Render the queue as a bracketed listing of its tasks, front to
/// back, each with its id and name.
pub fn render_queue(task_list: &std::collections::VecDeque<Task>) -> (r: String)
    ensures
        r@ == render_queue_spec(task_list@),
{
    let mut r = String::new();
    r.append("[");
    let mut i: usize = 0;
    while i < task_list.len()
        invariant
            0 <= i <= task_list@.len(),
            r@ == "["@ + queue_items(task_list@.subrange(0, i as int)),
        decreases task_list@.len() - i,
    {
        if i > 0 {
            r.append(", ");
        }
        r.append("Task { task_id: ");
        let digits = u64_to_string(task_list[i].task_id);
        r.append(digits.as_str());
        r.append(", task_name: \"");
        r.append(task_list[i].task_name.as_str());
        r.append("\" }");
        proof {
            lemma_queue_items_push(task_list@.subrange(0, i as int), task_list@[i as int]);
            assert(task_list@.subrange(0, i as int).push(task_list@[i as int])
                =~= task_list@.subrange(0, i as int + 1));
            if i > 0 {
                assert(r@ =~= "["@ + queue_items(task_list@.subrange(0, i as int + 1)));
            } else {
                assert(task_list@.subrange(0, 0) =~= Seq::<Task>::empty());
                assert(r@ =~= "["@ + queue_items(task_list@.subrange(0, 1)));
            }
        }
        i = i + 1;
    }
    r.append("]");
    proof {
        assert(task_list@.subrange(0, task_list@.len() as int) =~= task_list@);
    }
    r
}

/// The prompt asking the model to derive new tasks from a completed
/// task's result, given the objective and the incomplete tasks.
pub fn task_creation_prompt(
    objective: &str,
    result: &str,
    task_description: &str,
    task_list: &std::collections::VecDeque<Task>,
) -> (r: String)
    ensures
        r@ == "\n        You are an task creation AI that uses the result of an execution agent to create new tasks with the following objective: "@
            + objective@ + ".\n        The last completed task has the result: "@ + result@
            + ".\n        The task description behind this result: "@ + task_description@
            + ". These are incomplete tasks: "@ + render_queue_spec(task_list@)
            + ".\n        Based on the result, create new tasks to be completed by the AI system that do not overlap with incomplete tasks.\n        Return the tasks as an array."@,
{
    let mut r = String::new();
    r.append(
        "\n        You are an task creation AI that uses the result of an execution agent to create new tasks with the following objective: ",
    );
    r.append(objective);
    r.append(".\n        The last completed task has the result: ");
    r.append(result);
    r.append(".\n        The task description behind this result: ");
    r.append(task_description);
    r.append(". These are incomplete tasks: ");
    let listing = render_queue(task_list);
    r.append(listing.as_str());
    r.append(
        ".\n        Based on the result, create new tasks to be completed by the AI system that do not overlap with incomplete tasks.\n        Return the tasks as an array.",
    );
    r
}

/// The prompt asking the model to clean and reorder the queued task
/// names, anchored to the objective. The numbering instruction is
/// advisory text to the model only: the ids actually assigned when
/// the reply is parsed restart from the back of the replaced queue.
pub fn prioritization_prompt(
    objective: &str,
    task_list: &std::collections::VecDeque<Task>,
    task_id: u64,
) -> (r: String)
    ensures
        r@ == "\n        You are an task prioritization AI tasked with cleaning the formatting of and reprioritizing the following tasks: "@
            + render_names_spec(names(task_list@))
            + ".\n        Consider the ultimate objective of your team:"@ + objective@
            + ".\n        Do not remove any tasks. Return the result as a numbered list, like:\n        #. First task\n        #. Second task\n        Start the task list with number "@
            + decimal_spec(task_id as nat) + "."@,
{
    let mut r = String::new();
    r.append(
        "\n        You are an task prioritization AI tasked with cleaning the formatting of and reprioritizing the following tasks: ",
    );
    let listing = render_task_names(task_list);
    r.append(listing.as_str());
    r.append(".\n        Consider the ultimate objective of your team:");
    r.append(objective);
    r.append(
        ".\n        Do not remove any tasks. Return the result as a numbered list, like:\n        #. First task\n        #. Second task\n        Start the task list with number ",
    );
    let digits = u64_to_string(task_id);
    r.append(digits.as_str());
    r.append(".");
    r
}

/// The prompt asking the model to perform one task, grounded in the
/// objective and the retrieved context snippets. With no snippets the
/// context portion is simply empty.
pub fn execution_prompt(objective: &str, context: &Vec<String>, task_name: &str) -> (r: String)
    ensures
        r@ == "\n        You are an AI who performs one task based on the following objective: "@
            + objective@ + ".\n        Take into account these previously completed tasks: "@
            + join_lines_spec(context.deep_view()) + ".\n        Your task: "@ + task_name@
            + ".\n        Response:"@,
{
    let mut r = String::new();
    r.append("\n        You are an AI who performs one task based on the following objective: ");
    r.append(objective);
    r.append(".\n        Take into account these previously completed tasks: ");
    let joined = crate::text::join_lines(context);
    r.append(joined.as_str());
    r.append(".\n        Your task: ");
    r.append(task_name);
    r.append(".\n        Response:");
    r
}

} // verus!
