use aparte::command::Command;

fn assemble(args: &[&str]) -> String {
    let command = Command {
        account: None,
        context: "test".to_string(),
        args: args.iter().map(|a| a.to_string()).collect(),
        cursor: 0,
    };
    command.assemble()
}

#[test]
fn test_command_assemble() {
    let command = Command {
        account: None,
        context: "test".to_string(),
        args: vec!["foo".to_string(), "bar".to_string()],
        cursor: 0,
    };

    assert_eq!(command.assemble(), "/foo bar");
}

#[test]
fn test_command_with_double_quote_assemble() {
    let command = Command {
        account: None,
        context: "test".to_string(),
        args: vec!["test".to_string(), "fo\"o".to_string(), "bar".to_string()],
        cursor: 0,
    };

    assert_eq!(command.assemble(), "/test 'fo\"o' bar");
}

#[test]
fn test_command_with_simple_quote_assemble() {
    let command = Command {
        account: None,
        context: "test".to_string(),
        args: vec!["test".to_string(), "fo'o".to_string(), "bar".to_string()],
        cursor: 0,
    };

    assert_eq!(command.assemble(), "/test \"fo'o\" bar");
}

#[test]
fn test_command_with_space_assemble() {
    let command = Command {
        account: None,
        context: "test".to_string(),
        args: vec!["test".to_string(), "foo bar".to_string()],
        cursor: 0,
    };

    assert_eq!(command.assemble(), "/test \"foo bar\"");
}

#[test]
fn test_command_with_space_and_quote_assemble() {
    let command = Command {
        account: None,
        context: "test".to_string(),
        args: vec!["test".to_string(), "foo bar\"".to_string()],
        cursor: 0,
    };

    assert_eq!(command.assemble(), "/test 'foo bar\"'");
}

#[test]
fn escape_leaves_plain_tokens_alone() {
    assert_eq!(Command::escape("foo"), "foo");
    assert_eq!(Command::escape(""), "");
    assert_eq!(Command::escape("été=1"), "été=1");
}

#[test]
fn escape_doubles_backslashes() {
    assert_eq!(Command::escape("a\\b"), "a\\\\b");
    assert_eq!(Command::escape("a \\"), "\"a \\\\\"");
}

#[test]
fn escape_picks_the_other_quote_than_the_first() {
    assert_eq!(Command::escape("'"), "\"'\"");
    assert_eq!(Command::escape("\""), "'\"'");
    assert_eq!(Command::escape("a'b\"c"), "\"a'b\\\"c\"");
    assert_eq!(Command::escape("a\"b'c"), "'a\"b\\'c'");
    assert_eq!(Command::escape("a b'c"), "\"a b'c\"");
    assert_eq!(Command::escape("a b\"c d"), "'a b\"c d'");
    assert_eq!(Command::escape("''"), "\"''\"");
}

#[test]
fn assemble_args_joins_with_single_spaces() {
    let args = vec!["a".to_string(), "b c".to_string(), "d".to_string()];
    assert_eq!(Command::assemble_args(&args), "a \"b c\" d");
    assert_eq!(Command::assemble_args(&[]), "");
    assert_eq!(Command::assemble_args(&["x".to_string()]), "x");
}

#[test]
fn assemble_of_no_token_is_the_prefix() {
    assert_eq!(assemble(&[]), "/");
    assert_eq!(assemble(&[""]), "/");
}

#[test]
fn a_line_lexes_back_to_its_tokens() {
    let cases: Vec<Vec<&str>> = vec![
        vec!["foo", "bar"],
        vec!["test", "fo\"o", "bar"],
        vec!["test", "fo'o", "bar"],
        vec!["test", "foo bar"],
        vec!["test", "foo bar\""],
        vec!["a\\b", "c\\", "\\"],
        vec!["'\"'\"", "\"'\"'", " ", "  ' \" \\ "],
        vec!["/", "//", "a/b"],
        vec![""],
        vec!["é t é", "日本 語"],
    ];
    for tokens in cases {
        let line = assemble(&tokens);
        for cursor in 0..line.chars().count() + 2 {
            let command =
                Command::parse_with_cursor(None, String::new(), line.clone(), cursor).unwrap();
            assert_eq!(command.args, tokens, "line {:?}", line);
        }
    }
}
