//! The two commands that the sandbox adds to the engine: `discordview`, which
//! turns a stream of values into display text, and `run_external`, which
//! stands in for the engine's own and refuses to start outside programs.
use vstd::prelude::*;

use crate::error::HandlerError;
use crate::render::{discordview, item_views, rendered, view_text, Item};

verus! {

/// A usage example of a command.
#[derive(Debug, Clone, PartialEq, Eq)]
pub struct Example {
    pub description: String,
    pub example: String,
}

/// The `discordview` command.
pub struct Command;

impl Command {
    pub fn name(&self) -> (r: &'static str)
        ensures
            r@ == "discordview"@,
    {
        "discordview"
    }

    pub fn usage(&self) -> (r: &'static str)
        ensures
            r@ == "View the contents of the pipeline as a table or list (discord bot usage)."@,
    {
        "View the contents of the pipeline as a table or list (discord bot usage)."
    }

    pub fn examples(&self) -> (r: Vec<Example>)
        ensures
            r.len() == 2,
            r[0].description@ == "Automatically view the results"@,
            r[0].example@ == "ls | discordview"@,
            r[1].description@
                == "Autoview is also implied (in the nushell discord bot context). The above can be written as"@,
            r[1].example@ == "ls"@,
    {
        let mut r: Vec<Example> = Vec::new();
        r.push(
            Example {
                description: "Automatically view the results".to_owned(),
                example: "ls | discordview".to_owned(),
            },
        );
        r.push(
            Example {
                description: "Autoview is also implied (in the nushell discord bot context). The above can be written as".to_owned(),
                example: "ls".to_owned(),
            },
        );
        r
    }

    /// The text of each item of the input stream, in order, or `RuntimeError`
    /// with the description of its first error value.
    pub fn run(&self, input: &Vec<Item>) -> (r: Result<Vec<String>, HandlerError>)
        ensures
            exists|ts: Seq<bool>|
                ts.len() == input.len() && match rendered(item_views(input@), ts) {
                    Ok(_) => r is Ok && r->Ok_0.len() == input.len() && forall|k: int|
                        0 <= k < input.len() ==> #[trigger] r->Ok_0@[k]@ == view_text(
                            input@[k]@,
                            ts[k],
                        ),
                    Err(e) => r is Err && r->Err_0 is RuntimeError && r->Err_0->RuntimeError_0@
                        == e,
                },
    {
        discordview(input)
    }
}

/// The `run_external` command of the sandbox, which starts nothing.
pub struct RunExternalCommand {}

impl RunExternalCommand {
    pub fn name(&self) -> (r: &'static str)
        ensures
            r@ == "run_external"@,
    {
        "run_external"
    }

    pub fn usage(&self) -> (r: &'static str)
        ensures
            r@ == "Runs external command (not a nushell builtin)"@,
    {
        "Runs external command (not a nushell builtin)"
    }

    pub fn examples(&self) -> (r: Vec<Example>)
        ensures
            r.len() == 1,
            r[0].description@ == "Run the external echo command"@,
            r[0].example@ == "run_external echo 'nushell'"@,
    {
        let mut r: Vec<Example> = Vec::new();
        r.push(
            Example {
                description: "Run the external echo command".to_owned(),
                example: "run_external echo 'nushell'".to_owned(),
            },
        );
        r
    }

    /// Hidden from the engine's command listing.
    pub fn is_private(&self) -> (r: bool)
        ensures
            r,
    {
        true
    }

    /// The one line that any call of an outside program yields.
    pub fn run(&self) -> (r: String)
        ensures
            r@ == "External commands are not supported yet\n"@,
    {
        "External commands are not supported yet\n".to_owned()
    }
}

} // verus!
