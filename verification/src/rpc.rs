//! Calls to the node: what is sent, and what the answers mean.

use crate::json::{
    check_json, is_json, json_integer, json_integer_at, json_null, json_null_at, json_quote,
    json_quoted, json_text, json_text_at, json_value, json_value_at,
};
use crate::text::{decimal, push_decimal, text_of};
use vstd::prelude::*;

verus! {

/// How often a call is tried.
pub const ATTEMPTS: u32 = 3;

/// How long to wait before the next try, in milliseconds.
pub const RETRY_MS: u64 = 500;

/// How long a call may take, in seconds.
pub const CALL_SECS: u64 = 120;

/// The call, written as JSON. `params` is JSON already.
pub open spec fn payload(method: Seq<char>, params: Seq<char>, wallet: Option<Seq<char>>) -> Seq<
    char,
> {
    "{\"id\":1,\"method\":"@ + json_quoted(method) + ",\"params\":"@ + params + (match wallet {
        Some(w) => ",\"wallet\":"@ + json_quoted(w),
        None => Seq::empty(),
    }) + "}"@
}

/// The call to send.
pub fn rpc_payload(method: &str, params: &str, wallet: Option<&str>) -> (r: String)
    ensures
        r@ == payload(method@, params@, crate::text::slice_text_of(wallet)),
{
    let mut out = "{\"id\":1,\"method\":".to_owned();
    out.append(json_quote(method).as_str());
    out.append(",\"params\":");
    out.append(params);
    let ghost before = out@;
    match wallet {
        Some(w) => {
            out.append(",\"wallet\":");
            out.append(json_quote(w).as_str());
            assert(out@ =~= before + (",\"wallet\":"@ + json_quoted(w@)));
        },
        None => {
            assert(out@ =~= before + Seq::empty());
        },
    }
    out.append("}");
    out
}

/// An integer in decimal.
pub open spec fn signed_decimal(n: int) -> Seq<char> {
    if n < 0 {
        "-"@ + decimal((-n) as nat)
    } else {
        decimal(n as nat)
    }
}

/// Appends `n` in decimal.
pub fn push_signed(out: &mut String, n: i64)
    ensures
        final(out)@ == old(out)@ + signed_decimal(n as int),
{
    let ghost start = out@;
    if n >= 0 {
        push_decimal(out, n as u64);
    } else {
        out.append("-");
        let m: u64 = (0i128 - n as i128) as u64;
        push_decimal(out, m);
        assert(out@ =~= start + ("-"@ + decimal(m as nat)));
    }
}

/// What the node answered.
pub struct Answer {
    /// Whether it is JSON at all.
    pub readable: bool,
    /// Whether there is an error in it that is not `null`.
    pub failed: bool,
    pub message: Option<String>,
    pub code: Option<i64>,
    /// The result, written as JSON.
    pub result: Option<String>,
}

pub struct AnswerView {
    pub readable: bool,
    pub failed: bool,
    pub message: Option<Seq<char>>,
    pub code: Option<i64>,
    pub result: Option<Seq<char>>,
}

impl View for Answer {
    type V = AnswerView;

    open spec fn view(&self) -> AnswerView {
        AnswerView {
            readable: self.readable,
            failed: self.failed,
            message: text_of(self.message),
            code: self.code,
            result: text_of(self.result),
        }
    }
}

/// What a body holds.
pub open spec fn answer_in(body: Seq<u8>) -> AnswerView {
    AnswerView {
        readable: is_json(body),
        failed: json_null_at(body, "/error"@) == Some(false),
        message: json_text_at(body, "/error/message"@),
        code: json_integer_at(body, "/error/code"@),
        result: json_value_at(body, "/result"@),
    }
}

/// Reads a body.
pub fn read_answer(body: &[u8]) -> (r: Answer)
    ensures
        r@ == answer_in(body@),
{
    Answer {
        readable: check_json(body),
        failed: match json_null(body, "/error") {
            Some(null) => !null,
            None => false,
        },
        message: json_text(body, "/error/message"),
        code: json_integer(body, "/error/code"),
        result: json_value(body, "/result"),
    }
}

/// An error, written as JSON.
pub open spec fn error_text(message: Seq<char>) -> Seq<char> {
    "{\"error\":"@ + json_quoted(message) + "}"@
}

/// What is made of an answer: the error with its code, or the result.
pub open spec fn reply_to(a: AnswerView) -> Seq<char> {
    if !a.readable {
        error_text("Invalid JSON response"@)
    } else if a.failed {
        "{\"error\":"@ + json_quoted(
            match a.message {
                Some(m) => m,
                None => "RPC error"@,
            },
        ) + ",\"errorCode\":"@ + signed_decimal(
            match a.code {
                Some(c) => c as int,
                None => -1,
            },
        ) + "}"@
    } else {
        "{\"result\":"@ + (match a.result {
            Some(v) => v,
            None => "null"@,
        }) + "}"@
    }
}

/// An error, written as JSON.
pub fn error_reply(message: &str) -> (r: String)
    ensures
        r@ == error_text(message@),
{
    let mut out = "{\"error\":".to_owned();
    out.append(json_quote(message).as_str());
    out.append("}");
    out
}

/// What is made of an answer.
pub fn make_reply(a: &Answer) -> (r: String)
    ensures
        r@ == reply_to(a@),
{
    if !a.readable {
        return error_reply("Invalid JSON response");
    }
    if a.failed {
        let mut out = "{\"error\":".to_owned();
        let message = match &a.message {
            Some(m) => json_quote(m.as_str()),
            None => json_quote("RPC error"),
        };
        out.append(message.as_str());
        out.append(",\"errorCode\":");
        let code: i64 = match a.code {
            Some(c) => c,
            None => -1,
        };
        push_signed(&mut out, code);
        out.append("}");
        out
    } else {
        let mut out = "{\"result\":".to_owned();
        match &a.result {
            Some(v) => out.append(v.as_str()),
            None => out.append("null"),
        }
        out.append("}");
        out
    }
}

// ── Trying again ──

/// What came of a try.
pub enum Attempt {
    /// The node was not reached.
    Failed(String),
    /// It was, but its answer broke off.
    BrokenOff,
    /// It answered.
    Answered(Vec<u8>),
}

/// What to do next.
pub enum Next {
    /// Wait for so many milliseconds, then try again; this many tries are over.
    Retry { tried: u32, wait_ms: u64 },
    /// Reply with this.
    Reply(String),
}

pub enum NextView {
    Retry { tried: nat, wait_ms: nat },
    Reply(Seq<char>),
}

impl View for Next {
    type V = NextView;

    open spec fn view(&self) -> NextView {
        match self {
            Next::Retry { tried, wait_ms } => NextView::Retry {
                tried: *tried as nat,
                wait_ms: *wait_ms as nat,
            },
            Next::Reply(t) => NextView::Reply(t@),
        }
    }
}

/// What follows a try, when `tried` were over before it: only where the node
/// was not reached is the call tried again.
pub open spec fn next_call(tried: nat, attempt: Attempt) -> NextView {
    match attempt {
        Attempt::Answered(body) => NextView::Reply(reply_to(answer_in(body@))),
        Attempt::BrokenOff => NextView::Reply(error_text("Invalid JSON response"@)),
        Attempt::Failed(e) => if tried + 1 < ATTEMPTS {
            NextView::Retry { tried: tried + 1, wait_ms: RETRY_MS as nat }
        } else {
            NextView::Reply(error_text(e@))
        },
    }
}

/// What follows a try of a call.
pub fn rpc_call(tried: u32, attempt: Attempt) -> (r: Next)
    ensures
        r@ == next_call(tried as nat, attempt),
{
    match attempt {
        Attempt::Answered(body) => Next::Reply(make_reply(&read_answer(&body))),
        Attempt::BrokenOff => Next::Reply(error_reply("Invalid JSON response")),
        Attempt::Failed(e) => if tried < ATTEMPTS - 1 {
            Next::Retry { tried: tried + 1, wait_ms: RETRY_MS }
        } else {
            Next::Reply(error_reply(e.as_str()))
        },
    }
}

/// Whether this run of tries is what `rpc_call` makes of it: each of them but
/// the last is followed by another.
pub open spec fn is_run(attempts: Seq<Attempt>) -> bool {
    forall|i: int|
        0 <= i < attempts.len() - 1 ==> (#[trigger] next_call(i as nat, attempts[i])) is Retry
}

/// A call is tried three times at most, and the third try is the last: a reply
/// follows it whatever came of it.
pub proof fn law_call_ends(attempts: Seq<Attempt>)
    requires
        is_run(attempts),
        attempts.len() > 0,
    ensures
        attempts.len() <= ATTEMPTS,
        attempts.len() == ATTEMPTS ==> next_call(
            (attempts.len() - 1) as nat,
            attempts.last(),
        ) is Reply,
{
    if attempts.len() > ATTEMPTS {
        let i = ATTEMPTS as int - 1;
        assert(next_call(i as nat, attempts[i]) is Retry);
    }
}

// ── What holds of calls ──

/// What is sent to the node names the method, carries the parameters as they are
/// and names the wallet if one is meant.
pub proof fn law_payload(method: Seq<char>, params: Seq<char>, wallet: Seq<char>)
    ensures
        payload(method, params, None) == "{\"id\":1,\"method\":"@ + json_quoted(method)
            + ",\"params\":"@ + params + "}"@,
        payload(method, params, Some(wallet)) == "{\"id\":1,\"method\":"@ + json_quoted(method)
            + ",\"params\":"@ + params + ",\"wallet\":"@ + json_quoted(wallet) + "}"@,
{
    assert(payload(method, params, None) =~= "{\"id\":1,\"method\":"@ + json_quoted(method)
        + ",\"params\":"@ + params + "}"@);
    assert(payload(method, params, Some(wallet)) =~= "{\"id\":1,\"method\":"@ + json_quoted(
        method,
    ) + ",\"params\":"@ + params + ",\"wallet\":"@ + json_quoted(wallet) + "}"@);
}

/// A result is handed on as it is; an error with its message and its code; what
/// is not JSON is an error.
pub proof fn law_answers_are_handed_on(body: Seq<u8>, v: Seq<char>, m: Seq<char>, c: i64)
    ensures
        is_json(body) && json_null_at(body, "/error"@) != Some(false) && json_value_at(
            body,
            "/result"@,
        ) == Some(v) ==> reply_to(answer_in(body)) == "{\"result\":"@ + v + "}"@,
        is_json(body) && json_null_at(body, "/error"@) == Some(false) && json_text_at(
            body,
            "/error/message"@,
        ) == Some(m) && json_integer_at(body, "/error/code"@) == Some(c) ==> reply_to(
            answer_in(body),
        ) == "{\"error\":"@ + json_quoted(m) + ",\"errorCode\":"@ + signed_decimal(c as int)
            + "}"@,
        !is_json(body) ==> reply_to(answer_in(body)) == "{\"error\":"@ + json_quoted(
            "Invalid JSON response"@,
        ) + "}"@,
{
}

/// A node that cannot be reached is tried three times, half a second apart, and
/// the last failure is what the caller hears; whatever the node answers is heard
/// at once.
pub proof fn law_three_tries(e: String, body: Vec<u8>, tried: nat)
    ensures
        next_call(0, Attempt::Failed(e)) == (NextView::Retry { tried: 1, wait_ms: 500 }),
        next_call(1, Attempt::Failed(e)) == (NextView::Retry { tried: 2, wait_ms: 500 }),
        next_call(2, Attempt::Failed(e)) == NextView::Reply(
            "{\"error\":"@ + json_quoted(e@) + "}"@,
        ),
        next_call(tried, Attempt::Answered(body)) == NextView::Reply(reply_to(answer_in(body@))),
{
}

/// A number below zero is written with a minus sign, and no other is.
pub proof fn law_signs(n: int)
    ensures
        n < 0 ==> signed_decimal(n) == "-"@ + decimal((0 - n) as nat),
        n >= 0 ==> signed_decimal(n) == decimal(n as nat),
{
}

} // verus!
