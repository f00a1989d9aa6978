use std::collections::VecDeque;

use task_loop::prompts::execution_prompt;
use task_loop::prompts::prioritization_prompt;
use task_loop::prompts::render_queue;
use task_loop::prompts::render_task_names;
use task_loop::prompts::task_creation_prompt;
use task_loop::store::get_controller_url;
use task_loop::store::get_index_url;
use task_loop::Task;

fn queue_of(entries: &[(u64, &str)]) -> VecDeque<Task> {
    let mut q = VecDeque::new();
    for (id, name) in entries {
        q.push_back(Task { task_id: *id, task_name: name.to_string() });
    }
    q
}

#[test]
fn execution_prompt_with_empty_context_has_empty_context_portion() {
    let context: Vec<String> = vec![];
    let prompt = execution_prompt("Write a blog post", &context, "Research topic");
    assert_eq!(
        prompt,
        "\n        You are an AI who performs one task based on the following objective: \
         Write a blog post.\n        Take into account these previously completed tasks: \
         .\n        Your task: Research topic.\n        Response:"
    );
}

#[test]
fn execution_prompt_joins_context_with_newlines() {
    let context = vec!["first".to_string(), "second".to_string()];
    let prompt = execution_prompt("obj", &context, "task");
    assert!(prompt.contains("previously completed tasks: first\nsecond.\n"));
}

#[test]
fn render_task_names_is_a_quoted_list() {
    let q = queue_of(&[(1, "a"), (2, "b")]);
    assert_eq!(render_task_names(&q), "[\"a\", \"b\"]");
    let empty: VecDeque<Task> = VecDeque::new();
    assert_eq!(render_task_names(&empty), "[]");
}

#[test]
fn render_queue_lists_ids_and_names() {
    let q = queue_of(&[(1, "Research topic")]);
    assert_eq!(render_queue(&q), "[Task { task_id: 1, task_name: \"Research topic\" }]");
}

#[test]
fn task_creation_prompt_embeds_all_parts() {
    let q = queue_of(&[(1, "Research topic")]);
    let prompt = task_creation_prompt("the objective", "the result", "Research topic", &q);
    assert_eq!(
        prompt,
        "\n        You are an task creation AI that uses the result of an execution agent \
         to create new tasks with the following objective: the objective.\n        \
         The last completed task has the result: the result.\n        \
         The task description behind this result: Research topic. \
         These are incomplete tasks: [Task { task_id: 1, task_name: \"Research topic\" }].\n        \
         Based on the result, create new tasks to be completed by the AI system that \
         do not overlap with incomplete tasks.\n        Return the tasks as an array."
    );
}

#[test]
fn prioritization_prompt_embeds_names_and_number() {
    let q = queue_of(&[(1, "a"), (2, "b")]);
    let prompt = prioritization_prompt("team goal", &q, 1);
    assert_eq!(
        prompt,
        "\n        You are an task prioritization AI tasked with cleaning the formatting \
         of and reprioritizing the following tasks: [\"a\", \"b\"].\n        \
         Consider the ultimate objective of your team:team goal.\n        \
         Do not remove any tasks. Return the result as a numbered list, like:\n        \
         #. First task\n        #. Second task\n        Start the task list with number 1."
    );
}

#[test]
fn index_url_is_assembled_from_its_parts() {
    assert_eq!(
        get_index_url("myindex", "proj42", "us-east1-gcp"),
        "https://myindex-proj42.svc.us-east1-gcp.pinecone.io"
    );
}

#[test]
fn controller_url_is_assembled_from_the_region() {
    assert_eq!(get_controller_url("us-east1-gcp"), "https://controller.us-east1-gcp.pinecone.io");
}
