use nubot::{discordview, error_message, finish, render_items, reply_text, start, view_item};
use nubot::{Command, HandlerError, Item, Outcome, RunExternalCommand, Step};

const FORMAT_REPLY: &str =
    "Improper formatting. Format as either \"nu! `[command]`\" or \"nu!\" followed by a code block.";

#[test]
fn scalar_renders_as_engine_text() {
    let items = vec![Item::Scalar("7".to_string())];
    assert_eq!(render_items(&items), Ok("7\n".to_string()));
    assert_eq!(finish(&Outcome::Finished(Ok(items))), "```\n7\n\n```");
}

#[test]
fn styling_is_removed_from_reply() {
    let items = vec![Item::Scalar("\u{1b}[1;32m7\u{1b}[0m".to_string())];
    assert_eq!(finish(&Outcome::Finished(Ok(items))), "```\n7\n\n```");
    assert_eq!(reply_text(&Ok("a\u{1b}b".to_string())), "```\nab\n```");
}

#[test]
fn empty_result_renders_marker() {
    assert_eq!(finish(&Outcome::Finished(Ok(vec![]))), "```\n*Empty*\n```");
    assert_eq!(reply_text(&Ok(String::new())), "```\n*Empty*\n```");
    assert_eq!(reply_text(&Ok("\u{1b}[0m".to_string())), "```\n*Empty*\n```");
}

#[test]
fn error_value_stops_rendering() {
    let items = vec![
        Item::Scalar("1".to_string()),
        Item::Error("boom".to_string()),
        Item::Scalar("2".to_string()),
    ];
    assert_eq!(render_items(&items), Err(HandlerError::RuntimeError("boom".to_string())));
    assert_eq!(discordview(&items), Err(HandlerError::RuntimeError("boom".to_string())));
    assert_eq!(finish(&Outcome::Finished(Ok(items))), "ShellError: boom");
}

#[test]
fn items_render_in_order() {
    let items = vec![Item::Scalar("1".to_string()), Item::Other("<block>".to_string())];
    assert_eq!(render_items(&items), Ok("1\n<block>\n".to_string()));
    assert_eq!(discordview(&items), Ok(vec!["1".to_string(), "<block>".to_string()]));
}

#[test]
fn row_renders_as_two_column_table() {
    let row = Item::Row(vec![
        ("name".to_string(), "nu".to_string()),
        ("size".to_string(), "42".to_string()),
    ]);
    assert_eq!(
        view_item(&row),
        "──────┬────\n name │ nu \n size │ 42 \n──────┴────\n"
    );
    assert_eq!(view_item(&Item::Row(vec![])), "");
}

#[test]
fn long_row_value_is_cut() {
    let long = "x".repeat(100_050);
    let text = view_item(&Item::Row(vec![("k".to_string(), long)]));
    let xs = text.chars().filter(|c| *c == 'x').count();
    assert_eq!(xs, 100_000);
}

#[test]
fn each_error_kind_has_its_message() {
    assert_eq!(error_message(&HandlerError::FormatError), FORMAT_REPLY);
    assert_eq!(
        error_message(&HandlerError::SandboxError),
        "Internal error: could not create a sandbox for the command."
    );
    assert_eq!(
        error_message(&HandlerError::ParseError("unexpected `)`".to_string())),
        "ParseError: unexpected `)`"
    );
    assert_eq!(
        error_message(&HandlerError::RuntimeError("\u{1b}[31mno such variable\u{1b}[0m".to_string())),
        "ShellError: no such variable"
    );
    assert_eq!(error_message(&HandlerError::TimeoutError), "Timeout on command (5s).");
}

#[test]
fn timeout_ends_with_timeout_reply() {
    assert_eq!(finish(&Outcome::TimedOut), "Timeout on command (5s).");
    assert_eq!(
        finish(&Outcome::Finished(Err(HandlerError::SandboxError))),
        "Internal error: could not create a sandbox for the command."
    );
}

#[test]
fn malformed_message_never_runs() {
    assert_eq!(start("hello there"), Step::Reply(FORMAT_REPLY.to_string()));
    assert_eq!(start("nu!\n```\n```"), Step::Reply(FORMAT_REPLY.to_string()));
    assert_eq!(start("nu! `3 + 4`"), Step::Run("3 + 4".to_string()));
}

#[test]
fn same_block_twice_gives_same_program() {
    let msg = "nu!\n```\nlet x = 3\nx + 4\n```";
    assert_eq!(start(msg), start(msg));
    assert_eq!(start(msg), Step::Run("let x = 3;x + 4".to_string()));
}

#[test]
fn rendering_twice_is_identical() {
    let make = || {
        Outcome::Finished(Ok(vec![
            Item::Scalar("7".to_string()),
            Item::Row(vec![("a".to_string(), "b".to_string())]),
        ]))
    };
    assert_eq!(finish(&make()), finish(&make()));
}

#[test]
fn commands_describe_themselves() {
    let view = Command;
    assert_eq!(view.name(), "discordview");
    assert_eq!(view.examples().len(), 2);
    assert_eq!(view.examples()[0].example, "ls | discordview");
    assert_eq!(view.run(&vec![Item::Scalar("3".to_string())]), Ok(vec!["3".to_string()]));
    assert_eq!(
        view.run(&vec![Item::Error("bad".to_string())]),
        Err(HandlerError::RuntimeError("bad".to_string()))
    );
    let ext = RunExternalCommand {};
    assert_eq!(ext.name(), "run_external");
    assert!(ext.is_private());
    assert_eq!(ext.run(), "External commands are not supported yet\n");
    assert_eq!(ext.examples()[0].example, "run_external echo 'nushell'");
}
