//! Tokens produced by the lexer.
use vstd::prelude::*;

verus! {

#[derive(Debug, Clone, Copy, PartialEq, Eq, Structural)]
pub enum TokenKind {
    //MATH
    PLUS,
    MINUS,
    TIMES,
    DIVIDE,
    LEFTPAREN,
    RIGHTPAREN,
    OPENINGBRACE,
    CLOSINGBRACE,
    ASSIGN,
    MODULO,
    //BOOLEAN
    GREATER,
    LESS,
    EQUAL,
    //VALUES
    NUMB,
    FLOAT,
    STRING,
    IDENTIFIER,
    //MISC
    COMMA,
    COLON,
    SEMICOLON,
    //VALUES
    TRUE,
    FALSE,
    //KEYWORDS
    FNC,
    VAR,
    CONST,
    STR,
    IF,
    ELSE,
    LOOP,
    WHILE,
    UNDEF,
    AS,
    USE,
    EXP,
    RETURN,
    //EOF
    EOF,
    VALUE,
}

/// How a token kind is written in messages.
pub open spec fn kind_name(k: TokenKind) -> Seq<char> {
    match k {
        TokenKind::PLUS => "PLUS"@,
        TokenKind::MINUS => "MINUS"@,
        TokenKind::TIMES => "TIMES"@,
        TokenKind::DIVIDE => "DIVIDE"@,
        TokenKind::LEFTPAREN => "LEFTPAREN"@,
        TokenKind::RIGHTPAREN => "RIGHTPAREN"@,
        TokenKind::OPENINGBRACE => "OPENINGBRACE"@,
        TokenKind::CLOSINGBRACE => "CLOSINGBRACE"@,
        TokenKind::ASSIGN => "ASSIGN"@,
        TokenKind::MODULO => "MODULO"@,
        TokenKind::GREATER => "GREATER"@,
        TokenKind::LESS => "LESS"@,
        TokenKind::EQUAL => "EQUAL"@,
        TokenKind::NUMB => "NUMB"@,
        TokenKind::FLOAT => "FLOAT"@,
        TokenKind::STRING => "STRING"@,
        TokenKind::IDENTIFIER => "IDENTIFIER"@,
        TokenKind::COMMA => "COMMA"@,
        TokenKind::COLON => "COLON"@,
        TokenKind::SEMICOLON => "SEMICOLON"@,
        TokenKind::TRUE => "TRUE"@,
        TokenKind::FALSE => "FALSE"@,
        TokenKind::FNC => "FNC"@,
        TokenKind::VAR => "VAR"@,
        TokenKind::CONST => "CONST"@,
        TokenKind::STR => "STR"@,
        TokenKind::IF => "IF"@,
        TokenKind::ELSE => "ELSE"@,
        TokenKind::LOOP => "LOOP"@,
        TokenKind::WHILE => "WHILE"@,
        TokenKind::UNDEF => "UNDEF"@,
        TokenKind::AS => "AS"@,
        TokenKind::USE => "USE"@,
        TokenKind::EXP => "EXP"@,
        TokenKind::RETURN => "RETURN"@,
        TokenKind::EOF => "EOF"@,
        TokenKind::VALUE => "VALUE"@,
    }
}

impl TokenKind {
    /// How this token kind is written in messages.
    pub fn debug_name(&self) -> (s: &'static str)
        ensures
            s@ == kind_name(*self),
    {
        match self {
            TokenKind::PLUS => "PLUS",
            TokenKind::MINUS => "MINUS",
            TokenKind::TIMES => "TIMES",
            TokenKind::DIVIDE => "DIVIDE",
            TokenKind::LEFTPAREN => "LEFTPAREN",
            TokenKind::RIGHTPAREN => "RIGHTPAREN",
            TokenKind::OPENINGBRACE => "OPENINGBRACE",
            TokenKind::CLOSINGBRACE => "CLOSINGBRACE",
            TokenKind::ASSIGN => "ASSIGN",
            TokenKind::MODULO => "MODULO",
            TokenKind::GREATER => "GREATER",
            TokenKind::LESS => "LESS",
            TokenKind::EQUAL => "EQUAL",
            TokenKind::NUMB => "NUMB",
            TokenKind::FLOAT => "FLOAT",
            TokenKind::STRING => "STRING",
            TokenKind::IDENTIFIER => "IDENTIFIER",
            TokenKind::COMMA => "COMMA",
            TokenKind::COLON => "COLON",
            TokenKind::SEMICOLON => "SEMICOLON",
            TokenKind::TRUE => "TRUE",
            TokenKind::FALSE => "FALSE",
            TokenKind::FNC => "FNC",
            TokenKind::VAR => "VAR",
            TokenKind::CONST => "CONST",
            TokenKind::STR => "STR",
            TokenKind::IF => "IF",
            TokenKind::ELSE => "ELSE",
            TokenKind::LOOP => "LOOP",
            TokenKind::WHILE => "WHILE",
            TokenKind::UNDEF => "UNDEF",
            TokenKind::AS => "AS",
            TokenKind::USE => "USE",
            TokenKind::EXP => "EXP",
            TokenKind::RETURN => "RETURN",
            TokenKind::EOF => "EOF",
            TokenKind::VALUE => "VALUE",
        }
    }
}

#[derive(Clone, Debug)]
pub struct Token {
    pub token_kind: TokenKind,
    pub token_value: String,
}

/// A token with its text as a character sequence.
pub struct SpecToken {
    pub kind: TokenKind,
    pub value: Seq<char>,
}

impl View for Token {
    type V = SpecToken;

    open spec fn view(&self) -> SpecToken {
        SpecToken { kind: self.token_kind, value: self.token_value@ }
    }
}

pub open spec fn tokens_view(v: Seq<Token>) -> Seq<SpecToken> {
    v.map_values(|t: Token| t@)
}

pub open spec fn spec_token(kind: TokenKind, value: Seq<char>) -> SpecToken {
    SpecToken { kind, value }
}

impl Token {
    /// A copy of this token.
    pub fn duplicate(&self) -> (t: Token)
        ensures
            t@ == self@,
    {
        Token { token_kind: self.token_kind, token_value: self.token_value.clone() }
    }
}

} // verus!
