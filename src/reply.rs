//! The text that goes back to the chat: a rendered result inside a code
//! fence, the fixed empty marker, or the message of a failure. Styling
//! sequences are removed, since the chat shows plain text.
use vstd::prelude::*;

use crate::error::{Failure, HandlerError};
use crate::text::{append_text, chars_of, plain, strip_styling, ESC};

verus! {

/// What an empty result shows as.
pub open spec fn empty_reply() -> Seq<char> {
    "```\n*Empty*\n```"@
}

/// The message of each failure: fixed text, with the engine's diagnostic
/// after it for parse and runtime failures.
pub open spec fn failure_text(f: Failure) -> Seq<char> {
    match f {
        Failure::Format => "Improper formatting. Format as either \"nu! `[command]`\" or \"nu!\" followed by a code block."@,
        Failure::Sandbox => "Internal error: could not create a sandbox for the command."@,
        Failure::Parse(d) => "ParseError: "@ + d,
        Failure::Runtime(d) => "ShellError: "@ + d,
        Failure::Timeout => "Timeout on command (5s)."@,
    }
}

/// `body` inside a code fence.
pub open spec fn fenced(body: Seq<char>) -> Seq<char> {
    "```\n"@ + body + "\n```"@
}

/// The reply to an invocation that ended in `r`.
pub open spec fn reply_of(r: Result<Seq<char>, Failure>) -> Seq<char> {
    match r {
        Ok(t) => if plain(t).len() == 0 {
            empty_reply()
        } else {
            fenced(plain(t))
        },
        Err(f) => plain(failure_text(f)),
    }
}

/// The view of an invocation's result.
pub open spec fn result_view(r: Result<String, HandlerError>) -> Result<Seq<char>, Failure> {
    match r {
        Ok(t) => Ok(t@),
        Err(e) => Err(e@),
    }
}

fn without_styling(s: &String) -> (r: String)
    ensures
        r@ == plain(s@),
{
    let v = strip_styling(&chars_of(s.as_str()));
    crate::text::string_of(&v, 0, v.len())
}

/// The message of a failure, without styling.
pub fn error_message(e: &HandlerError) -> (r: String)
    ensures
        r@ == plain(failure_text(e@)),
{
    let mut t = match e {
        HandlerError::FormatError => "Improper formatting. Format as either \"nu! `[command]`\" or \"nu!\" followed by a code block.".to_owned(),
        HandlerError::SandboxError => "Internal error: could not create a sandbox for the command.".to_owned(),
        HandlerError::ParseError(_) => "ParseError: ".to_owned(),
        HandlerError::RuntimeError(_) => "ShellError: ".to_owned(),
        HandlerError::TimeoutError => "Timeout on command (5s).".to_owned(),
    };
    match e {
        HandlerError::ParseError(d) => append_text(&mut t, d),
        HandlerError::RuntimeError(d) => append_text(&mut t, d),
        _ => {},
    }
    without_styling(&t)
}

/// The reply text for an invocation that ended in `r`.
pub fn reply_text(r: &Result<String, HandlerError>) -> (t: String)
    ensures
        t@ == reply_of(result_view(*r)),
{
    match r {
        Ok(res) => {
            let body = without_styling(res);
            let v = chars_of(body.as_str());
            if v.len() == 0 {
                "```\n*Empty*\n```".to_owned()
            } else {
                let mut t = "```\n".to_owned();
                append_text(&mut t, &body);
                let tail = "\n```".to_owned();
                append_text(&mut t, &tail);
                t
            }
        },
        Err(e) => error_message(e),
    }
}

/// Every reply has text: an empty result shows as the fixed empty marker,
/// never as a blank reply.
pub proof fn lemma_reply_never_blank(r: Result<Seq<char>, Failure>)
    ensures
        reply_of(r).len() > 0,
        r is Ok && plain(r->Ok_0).len() == 0 ==> reply_of(r) == empty_reply(),
{
    reveal_strlit("```\n*Empty*\n```");
    reveal_strlit("```\n");
    reveal_strlit("\n```");
    reveal_strlit("Improper formatting. Format as either \"nu! `[command]`\" or \"nu!\" followed by a code block.");
    reveal_strlit("Internal error: could not create a sandbox for the command.");
    reveal_strlit("ParseError: ");
    reveal_strlit("ShellError: ");
    reveal_strlit("Timeout on command (5s).");
    match r {
        Ok(t) => {},
        Err(f) => {
            let m = failure_text(f);
            assert(m.len() > 0 && m[0] != ESC);
            assert(plain(m) == seq![m[0]] + crate::text::plain_from(m.drop_first(), false));
        },
    }
}

} // verus!
