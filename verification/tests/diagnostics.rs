use vertex::errors::diagnostics::{print_lexer_err, split_lines};
use vertex::lexer::{LexerError, LexerErrorKind};

#[test]
fn lines_are_split_as_str_lines_does() {
    assert_eq!(split_lines("a\nb\r\nc"), vec!["a", "b", "c"]);
    assert_eq!(split_lines("a\n"), vec!["a"]);
    assert_eq!(split_lines("\n\nx"), vec!["", "", "x"]);
    assert!(split_lines("").is_empty());
    assert_eq!(split_lines("one\r"), vec!["one\r"]);
}

#[test]
fn report_shows_the_line_before_and_after() {
    let err = LexerError {
        err: LexerErrorKind::UnknownToken { wrong_token: "@".to_string() },
        line: 2,
        char: 3,
    };
    let lines = print_lexer_err(&err, "var a = 1;\nvar @ = 2;\nvar c = 3;");
    assert_eq!(
        lines,
        vec![
            "$red|error:$reset| unknown token: @ at 2:3".to_string(),
            "$cyan|1$reset| | var a = 1;".to_string(),
            "$cyan|2$reset| | va$red|r$reset| @ = 2;".to_string(),
            "  |   $red|^$reset|".to_string(),
            "$cyan|3$reset| | var c = 3;".to_string(),
        ]
    );
}

#[test]
fn report_at_the_first_line_has_nothing_before() {
    let err = LexerError { err: LexerErrorKind::MoreDotInANumber, line: 1, char: 1 };
    let lines = print_lexer_err(&err, "1.2.3");
    assert_eq!(
        lines,
        vec![
            "$red|error:$reset| more than one dot in a number at 1:1".to_string(),
            "$cyan|1$reset| | $red|1$reset|.2.3".to_string(),
            "  | $red|^$reset|".to_string(),
        ]
    );
}

#[test]
fn numbers_are_right_aligned() {
    let src = "l1\nl2\nl3\nl4\nl5\nl6\nl7\nl8\nl9\nl10\nl11";
    let err = LexerError { err: LexerErrorKind::EmptyFile, line: 9, char: 1 };
    let lines = print_lexer_err(&err, src);
    assert_eq!(lines[1], "$cyan| 8$reset| | l8");
    assert_eq!(lines[2], "$cyan| 9$reset| | $red|l$reset|9");
    assert_eq!(lines[3], "   | $red|^$reset|");
    assert_eq!(lines[4], "$cyan|10$reset| | l10");
}
