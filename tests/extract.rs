use nubot::{batch_program, parse_block_message, parse_command, parse_message, parse_single_message};
use nubot::{CommandForm, HandlerError};

#[test]
fn parse_add() {
    let result = parse_message("nu! `3 + 4`");
    assert!(result.is_ok(), "{:?}", result);
    assert_eq!(result.unwrap(), "3 + 4");
}

#[test]
fn inline_keeps_statement_unchanged() {
    assert_eq!(parse_command("nu! `3 + 4`"), Some(CommandForm::Single("3 + 4".to_string())));
    assert_eq!(
        parse_command("  nu! ` echo `hi` | str length `\n"),
        Some(CommandForm::Single(" echo `hi` | str length ".to_string()))
    );
    assert_eq!(parse_single_message("nu! ``"), Ok(String::new()));
}

#[test]
fn inline_needs_closing_backtick() {
    assert_eq!(parse_single_message("nu! `3 + 4"), Err(HandlerError::FormatError));
    assert_eq!(parse_single_message("nu! `"), Err(HandlerError::FormatError));
}

#[test]
fn block_yields_trimmed_statements_in_order() {
    let msg = "nu!\n```\nlet x = 3\n  x + 4  \n```";
    assert_eq!(
        parse_command(msg),
        Some(CommandForm::Block(vec!["let x = 3".to_string(), "x + 4".to_string()]))
    );
    assert_eq!(
        parse_block_message(msg),
        Ok(vec!["let x = 3".to_string(), "x + 4".to_string()])
    );
}

#[test]
fn block_with_language_tag_and_blank_line() {
    let msg = "\n nu!\n```nu\n1\n\n2\n```\n";
    assert_eq!(
        parse_command(msg),
        Some(CommandForm::Block(vec!["1".to_string(), String::new(), "2".to_string()]))
    );
}

#[test]
fn empty_block_is_a_format_error() {
    assert_eq!(parse_command("nu!\n```\n```"), None);
    assert_eq!(parse_block_message("nu!\n```\n```"), Err(HandlerError::FormatError));
    assert_eq!(parse_message("nu!\n```"), Err(HandlerError::FormatError));
}

#[test]
fn neither_syntax_is_a_format_error() {
    for msg in ["", "hello", "nu!", "nu! 3 + 4", "nu!\n3 + 4", "nu!\n```\n1\n", "nu:\n```\n1\n```"] {
        assert_eq!(parse_command(msg), None, "{:?}", msg);
        assert_eq!(parse_message(msg), Err(HandlerError::FormatError), "{:?}", msg);
    }
}

#[test]
fn block_statements_join_into_one_program() {
    let form = CommandForm::Block(vec!["x = 3".to_string(), "x + 4".to_string()]);
    assert_eq!(batch_program(&form), "x = 3;x + 4");
    assert_eq!(parse_message("nu!\n```\nx = 3\nx + 4\n```"), Ok("x = 3;x + 4".to_string()));
    assert_eq!(batch_program(&CommandForm::Single("ls".to_string())), "ls");
}
