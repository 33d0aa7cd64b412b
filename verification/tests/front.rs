use vertex::ast::Node;
use vertex::indent_fn;
use vertex::lexer::{Lexer, LexerErrorKind};
use vertex::parser::{Parser, ParserError};
use vertex::tokens::{Token, TokenKind};

fn kinds(src: &str) -> Vec<TokenKind> {
    let mut lexer = Lexer::new(src.to_string());
    lexer.tokenize().unwrap().iter().map(|t| t.token_kind).collect()
}

#[test]
fn a_definition_is_lexed() {
    assert_eq!(
        kinds("var x = 5;"),
        vec![
            TokenKind::VAR,
            TokenKind::IDENTIFIER,
            TokenKind::ASSIGN,
            TokenKind::NUMB,
            TokenKind::SEMICOLON,
            TokenKind::EOF,
        ]
    );
    assert_eq!(
        kinds("x == 2.5"),
        vec![TokenKind::IDENTIFIER, TokenKind::EQUAL, TokenKind::FLOAT, TokenKind::EOF]
    );
}

#[test]
fn token_texts_are_kept() {
    let mut lexer = Lexer::new("writeLn!(\"hi\");".to_string());
    let tokens = lexer.tokenize().unwrap();
    assert_eq!(tokens[0].token_value, "writeLn!");
    assert_eq!(tokens[2].token_kind, TokenKind::STRING);
    assert_eq!(tokens[2].token_value, "hi");
}

#[test]
fn empty_source_is_refused() {
    let mut lexer = Lexer::new(String::new());
    let e = lexer.tokenize().unwrap_err();
    assert!(matches!(e.err, LexerErrorKind::EmptyFile));
}

#[test]
fn unterminated_string_is_refused() {
    let mut lexer = Lexer::new("\"abc".to_string());
    let e = lexer.tokenize().unwrap_err();
    assert!(matches!(e.err, LexerErrorKind::UnterminatedString { .. }));
}

#[test]
fn statements_are_parsed_in_order() {
    let mut lexer = Lexer::new("use \"m.vtx\"; var x = 1 + 2 * 3; x = x - 1;".to_string());
    let tokens = lexer.tokenize().unwrap().clone();
    let mut parser = Parser::new(tokens);
    match parser.parse().unwrap() {
        Node::Program(p) => {
            assert_eq!(p.program_nodes.len(), 3);
            assert!(matches!(&p.program_nodes[0], Node::Import(i) if i.module == "m.vtx"));
            match &p.program_nodes[1] {
                Node::VariableDefine(d) => {
                    assert_eq!(d.var_name, "x");
                    match d.value.as_deref() {
                        Some(Node::BinaryOp(b)) => {
                            assert_eq!(b.op_tok, TokenKind::PLUS);
                            assert!(matches!(&*b.right, Node::BinaryOp(m) if m.op_tok == TokenKind::TIMES));
                        },
                        _ => panic!("expected a sum"),
                    }
                },
                _ => panic!("expected a definition"),
            }
            assert!(matches!(&p.program_nodes[2], Node::VariableAssign(a) if a.name == "x"));
        },
        _ => panic!("the parser returns a program"),
    }
}

#[test]
fn a_missing_semicolon_is_reported() {
    let mut lexer = Lexer::new("var x = 1".to_string());
    let tokens = lexer.tokenize().unwrap().clone();
    let mut parser = Parser::new(tokens);
    let e = match parser.parse() {
        Err(e) => e,
        Ok(_) => panic!("the semicolon is missing"),
    };
    assert!(matches!(e, ParserError::UnexpectedToken { expected: TokenKind::SEMICOLON, .. }));
    assert!(e.message().starts_with("Syntax error:expected SEMICOLON but found"));
}

#[test]
fn parser_walks_the_tokens() {
    let tokens = vec![
        Token { token_kind: TokenKind::NUMB, token_value: "1".to_string() },
        Token { token_kind: TokenKind::EOF, token_value: String::new() },
    ];
    let mut parser = Parser::new(tokens);
    assert_eq!(parser.current_token().token_kind, TokenKind::NUMB);
    parser.advance();
    assert_eq!(parser.current_token().token_kind, TokenKind::EOF);
}

#[test]
fn indentation_is_two_spaces_per_level() {
    assert_eq!(indent_fn(0), "");
    assert_eq!(indent_fn(3), "      ");
}

#[test]
fn trees_print_with_indentation() {
    let mut lexer = Lexer::new("var x: int = 1 + 2;".to_string());
    let tokens = lexer.tokenize().unwrap().clone();
    let mut parser = Parser::new(tokens);
    let ast = match parser.parse() {
        Ok(ast) => ast,
        Err(e) => panic!("{}", e.message()),
    };
    assert_eq!(
        ast.fmt_with_indent(0),
        "Program\n  var:Some(\"int\")=BinaryOp(PLUS)\n    Number(1)\n    Number(2)\n"
    );
    let n = Node::Number(vertex::ast::NumberNode { number: -12 });
    assert_eq!(n.fmt_with_indent(1), "  Number(-12)\n");
}

#[test]
fn a_word_alone_is_a_keyword_or_an_identifier() {
    let cases = [
        ("var", TokenKind::VAR),
        ("fnc", TokenKind::FNC),
        ("str", TokenKind::STR),
        ("const", TokenKind::CONST),
        ("true", TokenKind::TRUE),
        ("false", TokenKind::FALSE),
        ("if", TokenKind::IF),
        ("else", TokenKind::ELSE),
        ("loop", TokenKind::LOOP),
        ("while", TokenKind::WHILE),
        ("as", TokenKind::AS),
        ("undef", TokenKind::UNDEF),
        ("use", TokenKind::USE),
        ("exp", TokenKind::EXP),
        ("return", TokenKind::RETURN),
        ("writeLn!", TokenKind::IDENTIFIER),
        ("x_1", TokenKind::IDENTIFIER),
        ("Var", TokenKind::IDENTIFIER),
    ];
    for (w, k) in cases {
        let mut lexer = Lexer::new(w.to_string());
        let toks = lexer.tokenize().unwrap().clone();
        assert_eq!(toks.len(), 2);
        assert_eq!(toks[0].token_kind, k);
        assert_eq!(toks[0].token_value, w);
        assert_eq!(toks[1].token_kind, TokenKind::EOF);
        assert_eq!(toks[1].token_value, "EOF");
    }
}

#[test]
fn non_ascii_words_are_lexed() {
    let mut lexer = Lexer::new("é".to_string());
    let toks = lexer.tokenize().unwrap().clone();
    assert_eq!(toks.len(), 2);
    assert_eq!(toks[0].token_kind, TokenKind::IDENTIFIER);
    assert_eq!(toks[0].token_value, "é");
    assert_eq!(toks[1].token_kind, TokenKind::EOF);
    assert_eq!(
        kinds("var čaj = \"žlutý\";"),
        vec![
            TokenKind::VAR,
            TokenKind::IDENTIFIER,
            TokenKind::ASSIGN,
            TokenKind::STRING,
            TokenKind::SEMICOLON,
            TokenKind::EOF,
        ]
    );
}

#[test]
fn a_source_ending_in_assign_is_the_only_one_that_overruns() {
    assert!(Lexer::new("x =".to_string()).tokenize_panics());
    assert!(Lexer::new("var a=".to_string()).tokenize_panics());
    assert!(!Lexer::new("x = 1;".to_string()).tokenize_panics());
    assert!(!Lexer::new("a==".to_string()).tokenize_panics());
    assert!(!Lexer::new("\"a=".to_string()).tokenize_panics());
    assert!(!Lexer::new("é".to_string()).tokenize_panics());
    assert!(!Lexer::new(String::new()).tokenize_panics());
}
