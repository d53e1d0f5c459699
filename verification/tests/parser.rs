use rush::{parse_command, ParsedCommand};

#[test]
fn parses_quoted_arguments() {
    assert_eq!(
        parse_command(r#"echo "hello world" 'from rush'"#),
        Ok(Some(ParsedCommand {
            program: "echo".into(),
            args: vec!["hello world".into(), "from rush".into()],
        }))
    );
}

#[test]
fn parser_preserves_empty_quoted_arguments() {
    assert_eq!(
        parse_command(r#"echo before "" '' after"#),
        Ok(Some(ParsedCommand {
            program: "echo".into(),
            args: vec!["before".into(), "".into(), "".into(), "after".into()],
        }))
    );
}

#[test]
fn concatenates_quoted_and_unquoted_segments() {
    assert_eq!(
        parse_command(r#"echo one" two" "three"four''"#),
        Ok(Some(ParsedCommand {
            program: "echo".into(),
            args: vec!["one two".into(), "threefour".into()],
        }))
    );
}

#[test]
fn parses_backslash_escapes() {
    assert_eq!(
        parse_command(r#"echo escaped\ space "quoted\"value" 'literal\value'"#),
        Ok(Some(ParsedCommand {
            program: "echo".into(),
            args: vec![
                "escaped space".into(),
                "quoted\"value".into(),
                "literal\\value".into(),
            ],
        }))
    );
}

#[test]
fn ignores_separator_whitespace() {
    assert_eq!(
        parse_command("  echo\tvalue  "),
        Ok(Some(ParsedCommand {
            program: "echo".into(),
            args: vec!["value".into()],
        }))
    );
    assert_eq!(parse_command(" \t "), Ok(None));
}

#[test]
fn rejects_unterminated_quotes() {
    assert_eq!(
        parse_command("echo \"unfinished"),
        Err("unterminated quote or escape")
    );
}

#[test]
fn rejects_unterminated_escape() {
    assert_eq!(
        parse_command("echo unfinished\\"),
        Err("unterminated quote or escape")
    );
}

#[test]
fn empty_line_has_no_command() {
    assert_eq!(parse_command(""), Ok(None));
}

#[test]
fn plain_words_parse_back() {
    for sep in [' ', '\t', '\n', '\u{a0}'] {
        let line = ["ls", "-l", "src"].join(&sep.to_string());
        assert_eq!(
            parse_command(&line),
            Ok(Some(ParsedCommand {
                program: "ls".into(),
                args: vec!["-l".into(), "src".into()],
            }))
        );
    }
}

#[test]
fn leading_and_trailing_separators_are_ignored() {
    let plain = parse_command("cat 'a b' c");
    assert_eq!(parse_command(" cat 'a b' c"), plain);
    assert_eq!(parse_command("cat 'a b' c\t"), plain);
}

#[test]
fn single_quotes_keep_backslashes_and_double_quotes() {
    assert_eq!(
        parse_command(r#"x 'a\"b'"#),
        Ok(Some(ParsedCommand {
            program: "x".into(),
            args: vec!["a\\\"b".into()],
        }))
    );
}

#[test]
fn escaped_quote_outside_quotes_is_literal() {
    assert_eq!(
        parse_command(r#"x \"a \'"#),
        Ok(Some(ParsedCommand {
            program: "x".into(),
            args: vec!["\"a".into(), "'".into()],
        }))
    );
}

#[test]
fn unterminated_single_quote_is_rejected() {
    assert_eq!(parse_command("x 'open"), Err("unterminated quote or escape"));
}

#[test]
fn lexer_can_be_fed_by_hand() {
    let mut lexer = rush::parser::Lexer::new();
    for c in "a  b".chars() {
        lexer.feed(c, c == ' ');
    }
    assert_eq!(
        lexer.finish(),
        Ok(Some(ParsedCommand {
            program: "a".into(),
            args: vec!["b".into()],
        }))
    );
}

#[test]
fn unquoted_lines_split_on_any_whitespace() {
    let line = "\u{3000}grep\u{85}-n\u{2028}\u{2028}x\u{a0}";
    let words: Vec<&str> = line.split_whitespace().collect();
    assert_eq!(words, vec!["grep", "-n", "x"]);
    assert_eq!(
        parse_command(line),
        Ok(Some(ParsedCommand {
            program: "grep".into(),
            args: vec!["-n".into(), "x".into()],
        }))
    );
}

#[test]
fn zero_width_space_is_not_whitespace() {
    assert_eq!(
        parse_command("a\u{200b}b"),
        Ok(Some(ParsedCommand {
            program: "a\u{200b}b".into(),
            args: vec![],
        }))
    );
}

#[test]
fn single_quoted_words_parse_back() {
    let words = ["", "a b", "\"x\"", "back\\slash", "tab\there"];
    let line = words
        .iter()
        .map(|w| format!("'{w}'"))
        .collect::<Vec<_>>()
        .join(" ");
    assert_eq!(
        parse_command(&line),
        Ok(Some(ParsedCommand {
            program: words[0].into(),
            args: words[1..].iter().map(|w| w.to_string()).collect(),
        }))
    );
}
