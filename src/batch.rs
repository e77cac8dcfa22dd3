//! Turning a recognised command into the one program that the engine runs.
//!
//! The statements of a block are joined with the engine's statement separator
//! `;`, so that they run as a single program in a single context and the
//! bindings made by one statement are seen by the next. No formatting
//! statement is appended: the values of every statement, the last one and
//! those before it alike, are turned into text by `render`, so that a block
//! and a single statement give the renderer the same kind of input.
use vstd::prelude::*;

use crate::error::HandlerError;
use crate::extract::{extract, parse_command, CommandForm, Form};
use crate::text::{append_text, push_char};

verus! {

/// The statements `ss` joined by `;`.
pub open spec fn joined(ss: Seq<Seq<char>>) -> Seq<char>
    decreases ss.len(),
{
    if ss.len() == 0 {
        Seq::<char>::empty()
    } else if ss.len() == 1 {
        ss[0]
    } else {
        joined(ss.drop_last()) + seq![';'] + ss.last()
    }
}

/// The program text of a command.
pub open spec fn program_of(f: Form) -> Seq<char> {
    match f {
        Form::Single(x) => x,
        Form::Block(ss) => joined(ss),
    }
}

/// The program that runs `form`: the statement itself, or the statements of
/// a block joined by `;`.
pub fn batch_program(form: &CommandForm) -> (r: String)
    ensures
        r@ == program_of(form@),
{
    match form {
        CommandForm::Single(x) => x.clone(),
        CommandForm::Block(ss) => {
            let mut r = String::new();
            let mut k: usize = 0;
            while k < ss.len()
                invariant
                    k <= ss.len(),
                    r@ == joined(form@->Block_0.take(k as int)),
                    form@->Block_0 == crate::extract::texts(ss@),
                decreases ss.len() - k,
            {
                let ghost all = form@->Block_0;
                assert(all.take(k + 1).drop_last() =~= all.take(k as int));
                if k > 0 {
                    push_char(&mut r, ';');
                }
                append_text(&mut r, &ss[k]);
                k = k + 1;
            }
            assert(form@->Block_0.take(ss.len() as int) =~= form@->Block_0);
            r
        },
    }
}

/// The program that the message `msg` asks to run, or `FormatError` when it
/// holds no command.
pub fn parse_message(msg: &str) -> (r: Result<String, HandlerError>)
    ensures
        match extract(msg@) {
            Some(f) => r is Ok && r->Ok_0@ == program_of(f),
            None => r == Err::<String, HandlerError>(HandlerError::FormatError),
        },
{
    match parse_command(msg) {
        Some(form) => Ok(batch_program(&form)),
        None => Err(HandlerError::FormatError),
    }
}

/// A block of two statements runs as one program in which the second
/// statement follows the first, so that what the first binds the second sees.
pub proof fn lemma_block_is_one_program(a: Seq<char>, b: Seq<char>)
    ensures
        program_of(Form::Block(seq![a, b])) == a + seq![';'] + b,
{
    let ss = seq![a, b];
    assert(ss.drop_last() =~= seq![a]);
    assert(joined(seq![a]) == a);
    assert(ss.last() == b);
    assert(joined(ss) == joined(ss.drop_last()) + seq![';'] + ss.last());
}

} // verus!
