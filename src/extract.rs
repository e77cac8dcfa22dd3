//! Recognising a command in a chat message.
//!
//! Two syntaxes are accepted, tried in this order on the trimmed message:
//! the inline form ``nu! `<statement>` `` and the block form, whose first line
//! is `nu!`, whose second line opens a fence (three backticks, optionally
//! followed by a language tag) and whose last line is the closing fence. The
//! lines between the fences are the statements, each trimmed. A block without
//! any statement is rejected like any other malformed message.
use vstd::prelude::*;

use crate::error::HandlerError;
use crate::text::{line_bounds, split_lines, string_of, trim_bounds, trim_text, chars_of, trimmed};

verus! {

/// The text that opens an inline command.
pub open spec fn inline_open() -> Seq<char> {
    seq!['n', 'u', '!', ' ', '`']
}

/// The first line of a block command.
pub open spec fn trigger_line() -> Seq<char> {
    seq!['n', 'u', '!']
}

/// The marker that opens and closes a fenced block.
pub open spec fn fence() -> Seq<char> {
    seq!['`', '`', '`']
}

/// The statement of an inline command `t` (already trimmed), if it is one.
pub open spec fn inline_body(t: Seq<char>) -> Option<Seq<char>> {
    if t.len() >= 6 && t.subrange(0, 5) == inline_open() && t.last() == '`' {
        Some(t.subrange(5, t.len() - 1))
    } else {
        None
    }
}

/// Whether `lines` has the shape of a block command with at least one statement.
pub open spec fn is_block(lines: Seq<Seq<char>>) -> bool {
    &&& lines.len() >= 4
    &&& trimmed(lines[0]) == trigger_line()
    &&& fence().is_prefix_of(trimmed(lines[1]))
    &&& trimmed(lines.last()) == fence()
}

/// The statements of a block command `t` (already trimmed), if it is one.
pub open spec fn block_statements(t: Seq<char>) -> Option<Seq<Seq<char>>> {
    let lines = split_lines(t);
    if is_block(lines) {
        Some(lines.subrange(2, lines.len() - 1).map_values(|l: Seq<char>| trimmed(l)))
    } else {
        None
    }
}

/// A recognised command, as mathematical text.
pub ghost enum Form {
    Single(Seq<char>),
    Block(Seq<Seq<char>>),
}

/// The command that the message `m` holds, or `None` when it holds none.
pub open spec fn extract(m: Seq<char>) -> Option<Form> {
    let t = trimmed(m);
    match inline_body(t) {
        Some(x) => Some(Form::Single(x)),
        None => match block_statements(t) {
            Some(ss) => Some(Form::Block(ss)),
            None => None,
        },
    }
}

/// The view of a list of strings as a sequence of texts.
pub open spec fn texts(v: Seq<String>) -> Seq<Seq<char>> {
    v.map_values(|s: String| s@)
}

/// A recognised command: one statement, or the statements of a block in order.
#[derive(Debug, Clone, PartialEq, Eq)]
pub enum CommandForm {
    Single(String),
    Block(Vec<String>),
}

impl View for CommandForm {
    type V = Form;

    open spec fn view(&self) -> Form {
        match self {
            CommandForm::Single(s) => Form::Single(s@),
            CommandForm::Block(v) => Form::Block(texts(v@)),
        }
    }
}

fn inline_of(t: &Vec<char>) -> (r: Option<String>)
    ensures
        match inline_body(t@) {
            Some(x) => r is Some && r->0@ == x,
            None => r is None,
        },
{
    let n = t.len();
    if n >= 6 && t[0] == 'n' && t[1] == 'u' && t[2] == '!' && t[3] == ' ' && t[4] == '`'
        && t[n - 1] == '`' {
        assert(t@.subrange(0, 5) =~= inline_open());
        Some(string_of(t, 5, n - 1))
    } else {
        proof {
            if n >= 6 && t@.subrange(0, 5) == inline_open() {
                assert(t@.subrange(0, 5)[0] == 'n');
                assert(t@.subrange(0, 5)[1] == 'u');
                assert(t@.subrange(0, 5)[2] == '!');
                assert(t@.subrange(0, 5)[3] == ' ');
                assert(t@.subrange(0, 5)[4] == '`');
            }
        }
        None
    }
}

fn statements_of(t: &Vec<char>) -> (r: Option<Vec<String>>)
    ensures
        match block_statements(t@) {
            Some(ss) => r is Some && texts(r->0@) == ss,
            None => r is None,
        },
{
    let lines = line_bounds(t);
    let ghost ls = split_lines(t@);
    let n = lines.len();
    if n < 4 {
        return None;
    }
    assert(ls[0] == t@.subrange(lines@[0].0 as int, lines@[0].1 as int));
    let (a0, b0) = trim_bounds(t, lines[0].0, lines[0].1);
    assert(trimmed(ls[0]) == t@.subrange(a0 as int, b0 as int));
    let first_ok = b0 - a0 == 3 && t[a0] == 'n' && t[a0 + 1] == 'u' && t[a0 + 2] == '!';
    assert(first_ok == (trimmed(ls[0]) == trigger_line())) by {
        if trimmed(ls[0]) == trigger_line() {
            assert(trimmed(ls[0])[0] == 'n');
            assert(trimmed(ls[0])[1] == 'u');
            assert(trimmed(ls[0])[2] == '!');
        }
        if first_ok {
            assert(t@.subrange(a0 as int, b0 as int) =~= trigger_line());
        }
    }
    assert(ls[1] == t@.subrange(lines@[1].0 as int, lines@[1].1 as int));
    let (a1, b1) = trim_bounds(t, lines[1].0, lines[1].1);
    let second_ok = b1 - a1 >= 3 && t[a1] == '`' && t[a1 + 1] == '`' && t[a1 + 2] == '`';
    assert(second_ok == fence().is_prefix_of(trimmed(ls[1]))) by {
        if fence().is_prefix_of(trimmed(ls[1])) {
            assert(trimmed(ls[1]).subrange(0, 3) == fence());
            assert(trimmed(ls[1]).subrange(0, 3)[0] == '`');
            assert(trimmed(ls[1]).subrange(0, 3)[1] == '`');
            assert(trimmed(ls[1]).subrange(0, 3)[2] == '`');
        }
        if second_ok {
            assert(t@.subrange(a1 as int, b1 as int).subrange(0, 3) =~= fence());
        }
    }
    assert(ls.last() == t@.subrange(lines@[n - 1].0 as int, lines@[n - 1].1 as int));
    let (al, bl) = trim_bounds(t, lines[n - 1].0, lines[n - 1].1);
    let last_ok = bl - al == 3 && t[al] == '`' && t[al + 1] == '`' && t[al + 2] == '`';
    assert(last_ok == (trimmed(ls.last()) == fence())) by {
        if trimmed(ls.last()) == fence() {
            assert(trimmed(ls.last())[0] == '`');
            assert(trimmed(ls.last())[1] == '`');
            assert(trimmed(ls.last())[2] == '`');
        }
        if last_ok {
            assert(t@.subrange(al as int, bl as int) =~= fence());
        }
    }
    if !(first_ok && second_ok && last_ok) {
        return None;
    }
    let ghost want = ls.subrange(2, ls.len() - 1).map_values(|l: Seq<char>| trimmed(l));
    let mut ss: Vec<String> = Vec::new();
    let mut k: usize = 2;
    while k < n - 1
        invariant
            n == lines.len() == ls.len(),
            ls == split_lines(t@),
            4 <= n,
            2 <= k <= n - 1,
            ls == lines@.map_values(|p: (usize, usize)| t@.subrange(p.0 as int, p.1 as int)),
            forall|j: int| 0 <= j < lines.len() ==> #[trigger] lines@[j].0 <= lines@[j].1 <= t.len(),
            texts(ss@) == want.subrange(0, k - 2),
            want == ls.subrange(2, ls.len() - 1).map_values(|l: Seq<char>| trimmed(l)),
        decreases n - 1 - k,
    {
        assert(lines@[k as int].0 <= lines@[k as int].1 <= t.len());
        assert(ls[k as int] == t@.subrange(lines@[k as int].0 as int, lines@[k as int].1 as int));
        let (a, b) = trim_bounds(t, lines[k].0, lines[k].1);
        assert(want[k - 2] == trimmed(ls[k as int]));
        let s = string_of(t, a, b);
        assert(s@ == want[k - 2]);
        let ghost before = ss@;
        ss.push(s);
        assert(ss@ == before.push(s));
        assert(texts(ss@) =~= texts(before).push(s@));
        assert(texts(ss@) =~= want.subrange(0, k - 1));
        k = k + 1;
    }
    assert(want.subrange(0, n - 3) =~= want);
    Some(ss)
}

/// The statement of an inline command ``nu! `<statement>` ``.
pub fn parse_single_message(msg: &str) -> (r: Result<String, HandlerError>)
    ensures
        match inline_body(trimmed(msg@)) {
            Some(x) => r is Ok && r->Ok_0@ == x,
            None => r == Err::<String, HandlerError>(HandlerError::FormatError),
        },
{
    let t = trim_text(&chars_of(msg));
    match inline_of(&t) {
        Some(x) => Ok(x),
        None => Err(HandlerError::FormatError),
    }
}

/// The statements, in order, of a block command.
pub fn parse_block_message(msg: &str) -> (r: Result<Vec<String>, HandlerError>)
    ensures
        match block_statements(trimmed(msg@)) {
            Some(ss) => r is Ok && texts(r->Ok_0@) == ss,
            None => r == Err::<Vec<String>, HandlerError>(HandlerError::FormatError),
        },
{
    let t = trim_text(&chars_of(msg));
    match statements_of(&t) {
        Some(ss) => Ok(ss),
        None => Err(HandlerError::FormatError),
    }
}

/// The command that `msg` holds, inline form first, or `None` when it holds none.
pub fn parse_command(msg: &str) -> (r: Option<CommandForm>)
    ensures
        match extract(msg@) {
            Some(f) => r is Some && r->0@ == f,
            None => r is None,
        },
{
    let t = trim_text(&chars_of(msg));
    match inline_of(&t) {
        Some(x) => Some(CommandForm::Single(x)),
        None => match statements_of(&t) {
            Some(ss) => Some(CommandForm::Block(ss)),
            None => None,
        },
    }
}

} // verus!

verus! {

/// An inline command yields its statement unchanged, only the backticks
/// around it removed.
pub proof fn lemma_inline_extracts(x: Seq<char>)
    ensures
        extract(inline_open() + x + seq!['`']) == Some(Form::Single(x)),
{
    let s = inline_open() + x + seq!['`'];
    assert(s[0] == 'n');
    assert(s.last() == '`');
    crate::text::lemma_trimmed_unchanged(s);
    assert(s.subrange(0, 5) =~= inline_open());
    assert(s.subrange(5, s.len() - 1) =~= x);
}

/// A block command with the statements `stmts` (one per line, at least one)
/// yields exactly those statements, each trimmed, in order: one per line
/// between the fences, the trigger and fence lines left out.
pub proof fn lemma_block_extracts(stmts: Seq<Seq<char>>)
    requires
        stmts.len() >= 1,
        forall|i: int| 0 <= i < stmts.len() ==> crate::text::one_line(#[trigger] stmts[i]),
    ensures
        extract(
            trigger_line() + seq!['\n'] + fence() + seq!['\n'] + crate::text::lines_text(stmts)
                + seq!['\n'] + fence(),
        ) == Some(Form::Block(stmts.map_values(|l: Seq<char>| trimmed(l)))),
        stmts.map_values(|l: Seq<char>| trimmed(l)).len() == stmts.len(),
{
    let body = crate::text::lines_text(stmts);
    let m = trigger_line() + seq!['\n'] + fence() + seq!['\n'] + body + seq!['\n'] + fence();
    assert(m[0] == 'n');
    assert(m.last() == '`');
    crate::text::lemma_trimmed_unchanged(m);
    assert(m.subrange(0, 5)[3] == '\n');
    assert(inline_body(m) is None);
    let rest = fence() + seq!['\n'] + body + seq!['\n'] + fence();
    assert(m =~= trigger_line() + seq!['\n'] + rest);
    crate::text::lemma_split_concat(trigger_line(), rest);
    let rest2 = body + seq!['\n'] + fence();
    assert(rest =~= fence() + seq!['\n'] + rest2);
    crate::text::lemma_split_concat(fence(), rest2);
    crate::text::lemma_split_concat(body, fence());
    crate::text::lemma_split_lines_text(stmts);
    assert(crate::text::one_line(trigger_line()));
    assert(crate::text::one_line(fence()));
    crate::text::lemma_split_one_line(trigger_line());
    crate::text::lemma_split_one_line(fence());
    let ls = split_lines(m);
    assert(ls =~= seq![trigger_line()] + seq![fence()] + stmts + seq![fence()]);
    crate::text::lemma_trimmed_unchanged(trigger_line());
    crate::text::lemma_trimmed_unchanged(fence());
    assert(fence().is_prefix_of(trimmed(ls[1]))) by {
        assert(ls[1] == fence());
        assert(fence().subrange(0, 3) =~= fence());
    }
    assert(is_block(ls));
    assert(ls.subrange(2, ls.len() - 1) =~= stmts);
}

} // verus!
