//! A chat bot core that recognises embedded shell commands in messages,
//! prepares the program that runs them, and renders what the engine produced
//! into one plain-text reply.
pub mod batch;
pub mod commands;
pub mod error;
pub mod extract;
pub mod pipeline;
pub mod render;
pub mod reply;
pub mod text;

pub use batch::{batch_program, parse_message};
pub use commands::{Command, Example, RunExternalCommand};
pub use error::HandlerError;
pub use extract::{parse_block_message, parse_command, parse_single_message, CommandForm};
pub use pipeline::{finish, start, Outcome, Step, DEADLINE_SECS};
pub use render::{discordview, render_items, view_item, Item};
pub use reply::{error_message, reply_text};
