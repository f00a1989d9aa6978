//! The completion client's decisions: which request style a model
//! name calls for, and what to do with each HTTP status.
//!
//! Rate limiting is the only transient failure: a 429 reply is always
//! answered by waiting a fixed backoff and trying again, indefinitely,
//! so rate-limit errors never reach a caller. Any other non-success
//! status is a fatal, typed error. The caller performs the request
//! and the wait; these functions only decide.

use vstd::prelude::*;

verus! {

/// Seconds to wait after a rate-limited completion request.
pub const RATE_LIMIT_BACKOFF_SECS: u64 = 10;

/// What to do with one HTTP reply from the completion service.
#[derive(Clone, Copy, Debug, PartialEq, Eq, Structural)]
pub enum RetryAction {
    /// A success status: take the reply's body as the answer.
    Accept,
    /// Rate limited: wait this many seconds, then send again.
    Backoff { seconds: u64 },
    /// Any other status: a fatal error to the caller.
    Fail,
}

/// A success HTTP status.
pub open spec fn is_success_status(status: u16) -> bool {
    200 <= status < 300
}

/// Decide what one HTTP status of the completion service means:
/// accept a success reply, back off and retry on 429, fail otherwise.
pub fn classify_status(status: u16) -> (a: RetryAction)
    ensures
        is_success_status(status) ==> a == RetryAction::Accept,
        status == 429 ==> a == (RetryAction::Backoff { seconds: RATE_LIMIT_BACKOFF_SECS }),
        !is_success_status(status) && status != 429 ==> a == RetryAction::Fail,
{
    if 200 <= status && status < 300 {
        RetryAction::Accept
    } else if status == 429 {
        RetryAction::Backoff { seconds: RATE_LIMIT_BACKOFF_SECS }
    } else {
        RetryAction::Fail
    }
}

/// A model name that calls for the chat request style.
pub open spec fn is_chat_model_spec(model: Seq<char>) -> bool {
    model.len() >= 4 && model.subrange(0, 4) == "gpt-"@
}

/// Whether the model name selects the chat completion style rather
/// than the legacy completion style.
pub fn is_chat_model(model: &str) -> (r: bool)
    ensures
        r == is_chat_model_spec(model@),
{
    proof {
        reveal_strlit("gpt-");
    }
    let len = model.unicode_len();
    if len < 4 {
        return false;
    }
    let r = model.get_char(0) == 'g' && model.get_char(1) == 'p' && model.get_char(2) == 't'
        && model.get_char(3) == '-';
    proof {
        if r {
            assert(model@.subrange(0, 4) =~= "gpt-"@);
        } else {
            assert(model@.subrange(0, 4) != "gpt-"@) by {
                if model@.subrange(0, 4) == "gpt-"@ {
                    assert(model@[0] == "gpt-"@[0]);
                    assert(model@[1] == "gpt-"@[1]);
                    assert(model@[2] == "gpt-"@[2]);
                    assert(model@[3] == "gpt-"@[3]);
                }
            }
        }
    }
    r
}

/// The API path of the endpoint each request style uses.
pub fn completion_endpoint(chat: bool) -> (r: &'static str)
    ensures
        chat ==> r@ == "chat/completions"@,
        !chat ==> r@ == "completions"@,
{
    if chat {
        "chat/completions"
    } else {
        "completions"
    }
}

} // verus!
