use task_loop::context::retrieve_context;
use task_loop::context::sort_matches_desc;
use task_loop::context::Match;
use task_loop::context::QueryResponse;
use task_loop::store::result_id_for;

fn entry(id: &str, score: u64, task: Option<&str>) -> Match {
    Match { id: id.to_string(), score, task: task.map(|t| t.to_string()) }
}

#[test]
fn retrieve_context_orders_by_descending_score() {
    let response = QueryResponse {
        matches: vec![
            entry("r1", 10, Some("low")),
            entry("r2", 90, Some("high")),
            entry("r3", 50, Some("mid")),
        ],
    };
    let snippets = retrieve_context(response);
    assert_eq!(snippets, vec!["high".to_string(), "mid".to_string(), "low".to_string()]);
}

#[test]
fn retrieve_context_omits_matches_without_task_field() {
    let response = QueryResponse {
        matches: vec![
            entry("r1", 80, None),
            entry("r2", 60, Some("kept")),
            entry("r3", 40, None),
        ],
    };
    let snippets = retrieve_context(response);
    assert_eq!(snippets, vec!["kept".to_string()]);
}

#[test]
fn retrieve_context_of_no_matches_is_empty() {
    let response = QueryResponse { matches: vec![] };
    let snippets = retrieve_context(response);
    assert!(snippets.is_empty());
}

#[test]
fn retrieve_context_never_exceeds_match_count() {
    let response = QueryResponse {
        matches: vec![entry("a", 3, Some("x")), entry("b", 3, Some("y")), entry("c", 2, None)],
    };
    let snippets = retrieve_context(response);
    assert_eq!(snippets.len(), 2);
}

#[test]
fn sort_matches_desc_sorts_and_keeps_all() {
    let sorted = sort_matches_desc(vec![
        entry("a", 1, None),
        entry("b", 5, Some("t")),
        entry("c", 3, None),
        entry("d", 5, None),
    ]);
    let scores: Vec<u64> = sorted.iter().map(|m| m.score).collect();
    assert_eq!(scores, vec![5, 5, 3, 1]);
    let mut ids: Vec<String> = sorted.iter().map(|m| m.id.clone()).collect();
    ids.sort();
    assert_eq!(ids, vec!["a", "b", "c", "d"]);
}

#[test]
fn result_ids_of_distinct_tasks_differ() {
    assert_eq!(result_id_for(1), "result_1");
    assert_eq!(result_id_for(10), "result_10");
    assert_ne!(result_id_for(1), result_id_for(10));
}

#[test]
fn stored_result_comes_back_as_top_snippet() {
    let task_id: u64 = 7;
    let record_id = result_id_for(task_id);
    assert_eq!(record_id, "result_7");
    let response = QueryResponse {
        matches: vec![
            entry("result_3", 40, Some("an older result")),
            entry(record_id.as_str(), 100, Some("Research topic")),
        ],
    };
    let snippets = retrieve_context(response);
    assert_eq!(snippets[0], "Research topic");
}
