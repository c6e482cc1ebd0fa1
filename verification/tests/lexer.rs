use aparte::command::Command;
use aparte::lexer::LexError;

fn lexed(line: &str, cursor: usize) -> Command {
    Command::parse_with_cursor(None, "test".to_string(), line.to_string(), cursor).unwrap()
}

#[test]
fn test_simple_command_parsing() {
    let command = Command::new(None, "test".to_string(), "/test command".to_string());
    assert!(command.is_ok());
    let command = command.unwrap();
    assert_eq!(command.args.len(), 2);
    assert_eq!(command.args[0], "test");
    assert_eq!(command.args[1], "command");
    assert_eq!(command.cursor, 1);
}

#[test]
fn test_multiple_args_command_parsing() {
    let command = Command::new(
        None,
        "test".to_string(),
        "/test command with args".to_string(),
    );
    assert!(command.is_ok());
    let command = command.unwrap();
    assert_eq!(command.args.len(), 4);
    assert_eq!(command.args[0], "test");
    assert_eq!(command.args[1], "command");
    assert_eq!(command.args[2], "with");
    assert_eq!(command.args[3], "args");
    assert_eq!(command.cursor, 3);
}

#[test]
fn test_doubly_quoted_arg_command_parsing() {
    let command = Command::new(
        None,
        "test".to_string(),
        "/test \"command with arg\"".to_string(),
    );
    assert!(command.is_ok());
    let command = command.unwrap();
    assert_eq!(command.args.len(), 2);
    assert_eq!(command.args[0], "test");
    assert_eq!(command.args[1], "command with arg");
    assert_eq!(command.cursor, 1);
}

#[test]
fn test_simply_quoted_arg_command_parsing() {
    let command = Command::new(
        None,
        "test".to_string(),
        "/test 'command with arg'".to_string(),
    );
    assert!(command.is_ok());
    let command = command.unwrap();
    assert_eq!(command.args.len(), 2);
    assert_eq!(command.args[0], "test");
    assert_eq!(command.args[1], "command with arg");
    assert_eq!(command.cursor, 1);
}

#[test]
fn test_mixed_quote_arg_command_parsing() {
    let command = Command::new(
        None,
        "test".to_string(),
        "/test 'command with \" arg'".to_string(),
    );
    assert!(command.is_ok());
    let command = command.unwrap();
    assert_eq!(command.args.len(), 2);
    assert_eq!(command.args[0], "test");
    assert_eq!(command.args[1], "command with \" arg");
    assert_eq!(command.cursor, 1);
}

#[test]
fn test_missing_closing_quote() {
    let command = Command::new(
        None,
        "test".to_string(),
        "/test \"command with arg".to_string(),
    );
    assert!(command.is_err());
    assert_eq!(
        format!("{}", command.err().unwrap().message()),
        "Missing closing quote"
    );
}

#[test]
fn test_command_args_parsing_with_cursor() {
    let command = Command::parse_with_cursor(
        None,
        "test".to_string(),
        "/test command with args".to_string(),
        10,
    );
    assert!(command.is_ok());
    let command = command.unwrap();
    assert_eq!(command.args.len(), 4);
    assert_eq!(command.args[0], "test");
    assert_eq!(command.args[1], "command");
    assert_eq!(command.args[2], "with");
    assert_eq!(command.args[3], "args");
    assert_eq!(command.cursor, 1);
}

#[test]
fn test_command_parsing_with_cursor() {
    let command = Command::parse_with_cursor(None, "test".to_string(), "/te".to_string(), 3);
    assert!(command.is_ok());
    let command = command.unwrap();
    assert_eq!(command.args.len(), 1);
    assert_eq!(command.args[0], "te");
    assert_eq!(command.cursor, 0);
}

#[test]
fn test_command_end_with_space_parsing_with_cursor() {
    let command =
        Command::parse_with_cursor(None, "test".to_string(), "/test ".to_string(), 6);
    assert!(command.is_ok());
    let command = command.unwrap();
    assert_eq!(command.args.len(), 1);
    assert_eq!(command.args[0], "test");
    assert_eq!(command.cursor, 1);
}

#[test]
fn test_no_command_parsing_with_cursor() {
    let command = Command::parse_with_cursor(None, "test".to_string(), "/".to_string(), 1);
    assert!(command.is_ok());
    let command = command.unwrap();
    assert_eq!(command.args.len(), 1);
    assert_eq!(command.args[0], "");
    assert_eq!(command.cursor, 0);
}

#[test]
fn test_command_parse_name() {
    let name = Command::parse_name("/me's best client is Aparté");
    assert!(name.is_ok());
    assert_eq!("me", name.unwrap());
}

#[test]
fn test_command_parse_name_without_args() {
    let name = Command::parse_name("/close");
    assert!(name.is_ok());
    assert_eq!("close", name.unwrap());
}

#[test]
fn parse_name_needs_the_prefix() {
    assert_eq!(Command::parse_name("close").err(), Some(LexError::MissingPrefix));
    assert_eq!(Command::parse_name("").err(), Some(LexError::MissingPrefix));
    assert_eq!(Command::parse_name(" /close").err(), Some(LexError::MissingPrefix));
}

#[test]
fn parse_name_stops_at_the_first_other_character() {
    assert_eq!(Command::parse_name("/"), Ok(""));
    assert_eq!(Command::parse_name("/ join"), Ok(""));
    assert_eq!(Command::parse_name("/join2 room"), Ok("join2"));
    assert_eq!(Command::parse_name("/join-room"), Ok("join"));
    assert_eq!(Command::parse_name("/été \"unterminated"), Ok("été"));
    assert_eq!(Command::parse_name("/a\\"), Ok("a"));
}

#[test]
fn lex_needs_the_prefix() {
    for line in ["", "test", " /test", "\\/test"] {
        let r = Command::parse_with_cursor(None, String::new(), line.to_string(), 0);
        assert_eq!(r.err(), Some(LexError::MissingPrefix));
        let r = Command::new(None, String::new(), line.to_string());
        assert_eq!(r.err(), Some(LexError::MissingPrefix));
    }
}

#[test]
fn lex_reports_a_dangling_escape() {
    for line in ["/test \\", "/test 'a\\", "/test \"a\\", "/\\"] {
        let r = Command::parse_with_cursor(None, String::new(), line.to_string(), 0);
        assert_eq!(r.err(), Some(LexError::DanglingEscape));
    }
    assert_eq!(LexError::DanglingEscape.message(), "Missing escaped char");
}

#[test]
fn lex_reports_an_unterminated_quote() {
    for line in ["/test 'a", "/test \"a b", "/'", "/a'b' \"", "/a\\\\'"] {
        let r = Command::parse_with_cursor(None, String::new(), line.to_string(), 0);
        assert_eq!(r.err(), Some(LexError::UnterminatedQuote));
    }
    assert_eq!(LexError::UnterminatedQuote.message(), "Missing closing quote");
    assert_eq!(LexError::MissingPrefix.message(), "Missing starting /");
}

#[test]
fn quoted_segments_concatenate() {
    assert_eq!(lexed("/'ab'cd", 0).args, vec!["abcd"]);
    assert_eq!(lexed("/ab'c d'\"e f\"g h", 0).args, vec!["abc de fg", "h"]);
    assert_eq!(lexed("/a\\ b c", 0).args, vec!["a b", "c"]);
    assert_eq!(lexed("/'a\\'b' \"c\\\"d\"", 0).args, vec!["a'b", "c\"d"]);
    assert_eq!(lexed("/a\\nb", 0).args, vec!["anb"]);
}

#[test]
fn an_empty_quoted_token_at_the_end_is_kept() {
    assert_eq!(lexed("/test ''", 0).args, vec!["test", ""]);
    assert_eq!(lexed("/''", 0).args, vec![""]);
    assert_eq!(lexed("/test '' x", 0).args, vec!["test", "", "x"]);
}

#[test]
fn spaces_alone_make_one_empty_token() {
    let command = lexed("/   ", 2);
    assert_eq!(command.args, vec![""]);
    assert_eq!(command.cursor, 0);
    let command = lexed("/", 0);
    assert_eq!(command.args, vec![""]);
    assert_eq!(command.cursor, 0);
}

#[test]
fn the_cursor_maps_to_the_token_under_it() {
    let line = "/test command with args";
    let expected = [0, 0, 0, 0, 0, 1, 1, 1, 1, 1, 1, 1, 1, 2, 2, 2, 2, 2, 3, 3, 3, 3, 3, 3, 3, 3];
    for (offset, token) in expected.iter().enumerate() {
        assert_eq!(lexed(line, offset).cursor, *token, "offset {}", offset);
    }
    assert_eq!(lexed(line, usize::MAX).cursor, 3);
    assert_eq!(lexed("/test command ", 100).cursor, 2);
    assert_eq!(lexed("/test  x", 6).cursor, 1);
}

#[test]
fn the_context_and_account_are_kept() {
    let account = aparte::command::Account { jid: "me@example.org/here".to_string() };
    let command =
        Command::new(Some(account), "room".to_string(), "/say hello".to_string()).unwrap();
    assert_eq!(command.context, "room");
    assert_eq!(command.account.unwrap().jid, "me@example.org/here");
}

#[test]
fn new_puts_the_cursor_on_the_last_grapheme() {
    let command = Command::new(None, String::new(), "/été e\u{301}".to_string()).unwrap();
    assert_eq!(command.args, vec!["été", "e\u{301}"]);
    assert_eq!(command.cursor, 1);
    let command = Command::new(None, String::new(), "/a ".to_string()).unwrap();
    assert_eq!(command.cursor, 1);
    let line = "/a e\u{301}\u{301}\u{301} b";
    let command = Command::new(None, String::new(), line.to_string()).unwrap();
    assert_eq!(command.args, vec!["a", "e\u{301}\u{301}\u{301}", "b"]);
    assert_eq!(command.cursor, 1);
    let command = Command::parse_with_cursor(None, String::new(), line.to_string(), 8).unwrap();
    assert_eq!(command.cursor, 2);
}
