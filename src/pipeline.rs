//! The decisions of one invocation, apart from running the engine.
//!
//! An invocation first asks `start`, which either answers at once (the message
//! holds no command, so no context is built and nothing runs) or hands back
//! the program to run. The caller runs it in a fresh context of its own,
//! waits at most `DEADLINE_SECS` seconds, and gives what happened to `finish`,
//! which yields the reply.
use vstd::prelude::*;

use crate::batch::{parse_message, program_of};
use crate::error::{Failure, HandlerError};
use crate::extract::extract;
use crate::render::{has_row, item_views, lemma_rendered_without_rows, render_items, rendered, Item};
use crate::reply::{error_message, reply_of, reply_text, result_view};

verus! {

/// How long a program may run before the invocation fails with a timeout.
pub const DEADLINE_SECS: u64 = 5;

/// What to do with an incoming message.
#[derive(Debug, Clone, PartialEq, Eq)]
pub enum Step {
    /// Send this reply; nothing runs.
    Reply(String),
    /// Run this program in a fresh context.
    Run(String),
}

/// How running a program ended.
#[derive(Debug, PartialEq, Eq)]
pub enum Outcome {
    /// The engine finished in time with these items, or with this failure.
    Finished(Result<Vec<Item>, HandlerError>),
    /// The deadline passed first; whatever the run produces is dropped.
    TimedOut,
}

/// The result of an invocation that ended in `o`, its items drawn in the
/// terminal states `ts` (see `render`).
pub open spec fn outcome_result(o: Outcome, ts: Seq<bool>) -> Result<Seq<char>, Failure> {
    match o {
        Outcome::TimedOut => Err(Failure::Timeout),
        Outcome::Finished(Err(e)) => Err(e@),
        Outcome::Finished(Ok(items)) => match rendered(item_views(items@), ts) {
            Ok(t) => Ok(t),
            Err(d) => Err(Failure::Runtime(d)),
        },
    }
}

/// Whether `ts` gives one terminal state for each item of `o`.
pub open spec fn fits(o: Outcome, ts: Seq<bool>) -> bool {
    match o {
        Outcome::Finished(Ok(items)) => ts.len() == items.len(),
        _ => true,
    }
}

/// The first step for the message `msg`: the program that it asks to run, or,
/// when it holds no command, the format error's reply.
pub fn start(msg: &str) -> (r: Step)
    ensures
        match extract(msg@) {
            Some(f) => r is Run && r->Run_0@ == program_of(f),
            None => r is Reply && r->Reply_0@ == reply_of(Err(Failure::Format)),
        },
{
    match parse_message(msg) {
        Ok(program) => Step::Run(program),
        Err(e) => Step::Reply(error_message(&e)),
    }
}

/// The reply to an invocation whose run ended in `o`.
pub fn finish(o: &Outcome) -> (r: String)
    ensures
        exists|ts: Seq<bool>| fits(*o, ts) && r@ == reply_of(outcome_result(*o, ts)),
{
    match o {
        Outcome::TimedOut => {
            let r = error_message(&HandlerError::TimeoutError);
            assert(fits(*o, Seq::empty()) && r@ == reply_of(outcome_result(*o, Seq::empty())));
            r
        },
        Outcome::Finished(Err(e)) => {
            let r = error_message(e);
            assert(fits(*o, Seq::empty()) && r@ == reply_of(outcome_result(*o, Seq::empty())));
            r
        },
        Outcome::Finished(Ok(items)) => {
            let result = render_items(items);
            let ghost ts = choose|ts: Seq<bool>|
                ts.len() == items.len() && match rendered(item_views(items@), ts) {
                    Ok(t) => result is Ok && result->Ok_0@ == t,
                    Err(e) => result is Err && result->Err_0 is RuntimeError
                        && result->Err_0->RuntimeError_0@ == e,
                };
            assert(result_view(result) == outcome_result(*o, ts));
            let r = reply_text(&result);
            assert(fits(*o, ts) && r@ == reply_of(outcome_result(*o, ts)));
            r
        },
    }
}

/// A run that outlives the deadline always ends in the timeout's reply,
/// whatever it would have produced.
pub proof fn lemma_timeout_reply(ts: Seq<bool>)
    ensures
        reply_of(outcome_result(Outcome::TimedOut, ts)) == reply_of(Err(Failure::Timeout)),
{
}

/// The reply depends on the run's outcome and on the terminal states its rows
/// are drawn in, and on nothing else: the same outcome, rendered twice in the
/// same states, gives the same text.
pub proof fn lemma_finish_deterministic(a: Outcome, b: Outcome, ts: Seq<bool>)
    requires
        a == b,
    ensures
        reply_of(outcome_result(a, ts)) == reply_of(outcome_result(b, ts)),
{
}

/// An outcome without rows gives the same reply every time, whatever the
/// terminal states.
pub proof fn lemma_finish_without_rows(o: Outcome, ts1: Seq<bool>, ts2: Seq<bool>)
    requires
        fits(o, ts1),
        fits(o, ts2),
        o matches Outcome::Finished(Ok(items)) ==> !has_row(item_views(items@)),
    ensures
        reply_of(outcome_result(o, ts1)) == reply_of(outcome_result(o, ts2)),
{
    if let Outcome::Finished(Ok(items)) = o {
        lemma_rendered_without_rows(item_views(items@), ts1, ts2);
    }
}

} // verus!
