use task_loop::completion::classify_status;
use task_loop::completion::completion_endpoint;
use task_loop::completion::is_chat_model;
use task_loop::completion::RetryAction;
use task_loop::completion::RATE_LIMIT_BACKOFF_SECS;

#[test]
fn success_statuses_are_accepted() {
    assert_eq!(classify_status(200), RetryAction::Accept);
    assert_eq!(classify_status(204), RetryAction::Accept);
    assert_eq!(classify_status(299), RetryAction::Accept);
}

#[test]
fn rate_limit_backs_off_ten_seconds() {
    assert_eq!(classify_status(429), RetryAction::Backoff { seconds: 10 });
    assert_eq!(RATE_LIMIT_BACKOFF_SECS, 10);
}

#[test]
fn other_statuses_are_fatal() {
    assert_eq!(classify_status(400), RetryAction::Fail);
    assert_eq!(classify_status(404), RetryAction::Fail);
    assert_eq!(classify_status(500), RetryAction::Fail);
    assert_eq!(classify_status(199), RetryAction::Fail);
}

#[test]
fn two_rate_limits_then_success_takes_three_attempts() {
    let statuses: Vec<u16> = vec![429, 429, 200];
    let mut attempts = 0;
    let mut waits: Vec<u64> = vec![];
    let mut answer: Option<u16> = None;
    for status in statuses {
        attempts += 1;
        match classify_status(status) {
            RetryAction::Accept => {
                answer = Some(status);
                break;
            }
            RetryAction::Backoff { seconds } => {
                waits.push(seconds);
            }
            RetryAction::Fail => {
                panic!("unexpected fatal status");
            }
        }
    }
    assert_eq!(attempts, 3);
    assert_eq!(answer, Some(200));
    assert_eq!(waits, vec![10, 10]);
}

#[test]
fn chat_models_are_recognized_by_prefix() {
    assert!(is_chat_model("gpt-4"));
    assert!(is_chat_model("gpt-3.5-turbo"));
    assert!(!is_chat_model("text-davinci-003"));
    assert!(!is_chat_model("gpt"));
    assert!(!is_chat_model(""));
}

#[test]
fn endpoint_follows_request_style() {
    assert_eq!(completion_endpoint(true), "chat/completions");
    assert_eq!(completion_endpoint(false), "completions");
}
