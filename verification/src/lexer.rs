//! The lexer: source text to tokens.
//!
//! Its behaviour is specified by the character-at-a-time machine `lex`, which reads the
//! source exactly as the lexer does: position `i` holds `source_text[i]` below
//! `token_count` (the number of characters, as `Lexer::new` records it) and `'\0'` from
//! there on. Reading a position past the characters (an `=` that ends the source, or a
//! `token_count` set larger than the text by hand) is an out-of-bounds index in the lexer;
//! the machine calls that outcome `Panic`, and `tokenize` requires that it does not
//! happen.
use vstd::prelude::*;
use crate::text::{
    char_is_alphabetic, char_is_numeric, chars_of, decimal, is_ascii_char, is_ascii_digit,
    is_ascii_letter, owned, push_char,
    push_decimal, push_str, range_eq_str, string_from_chars, is_alphabetic_char, is_numeric_char,
};
use crate::tokens::{spec_token, tokens_view, SpecToken, Token, TokenKind};

verus! {

#[derive(Debug, Clone)]
pub enum LexerErrorKind {
    EmptyFile,
    UnknownToken { wrong_token: String },
    MoreDotInANumber,
    UnterminatedString { text: String },
}

pub enum LexerErrorKindView {
    EmptyFile,
    UnknownToken(Seq<char>),
    MoreDotInANumber,
    UnterminatedString(Seq<char>),
}

impl View for LexerErrorKind {
    type V = LexerErrorKindView;

    open spec fn view(&self) -> LexerErrorKindView {
        match self {
            LexerErrorKind::EmptyFile => LexerErrorKindView::EmptyFile,
            LexerErrorKind::UnknownToken { wrong_token } => LexerErrorKindView::UnknownToken(
                wrong_token@,
            ),
            LexerErrorKind::MoreDotInANumber => LexerErrorKindView::MoreDotInANumber,
            LexerErrorKind::UnterminatedString { text } => LexerErrorKindView::UnterminatedString(
                text@,
            ),
        }
    }
}

/// A lexing error with the line and the column where it was found.
#[derive(Debug, Clone)]
pub struct LexerError {
    pub err: LexerErrorKind,
    pub line: usize,
    pub char: usize,
}

pub struct LexerErrorView {
    pub kind: LexerErrorKindView,
    pub line: int,
    pub col: int,
}

impl View for LexerError {
    type V = LexerErrorView;

    open spec fn view(&self) -> LexerErrorView {
        LexerErrorView { kind: self.err@, line: self.line as int, col: self.char as int }
    }
}

/// The message of a lexing error, with where it was found.
pub open spec fn lexer_error_message(e: LexerErrorView) -> Seq<char> {
    let what = match e.kind {
        LexerErrorKindView::EmptyFile => "file is empty"@,
        LexerErrorKindView::UnknownToken(t) => "unknown token: "@ + t,
        LexerErrorKindView::MoreDotInANumber => "more than one dot in a number"@,
        LexerErrorKindView::UnterminatedString(t) => "unterminated string: "@ + t,
    };
    what + " at "@ + decimal(e.line as nat) + ":"@ + decimal(e.col as nat)
}

impl LexerError {
    /// The human-readable message of this error.
    pub fn message(&self) -> (s: String)
        ensures
            s@ == lexer_error_message(self@),
    {
        let mut s = match &self.err {
            LexerErrorKind::EmptyFile => owned("file is empty"),
            LexerErrorKind::UnknownToken { wrong_token } => {
                let mut s = owned("unknown token: ");
                push_str(&mut s, wrong_token.as_str());
                s
            },
            LexerErrorKind::MoreDotInANumber => owned("more than one dot in a number"),
            LexerErrorKind::UnterminatedString { text } => {
                let mut s = owned("unterminated string: ");
                push_str(&mut s, text.as_str());
                s
            },
        };
        push_str(&mut s, " at ");
        push_decimal(&mut s, self.line as u64);
        push_str(&mut s, ":");
        push_decimal(&mut s, self.char as u64);
        s
    }
}

pub struct Lexer {
    pub current_char: char,
    pub token_idx: usize,
    pub token_count: usize,
    pub source_text: Vec<char>,
    pub final_tokens: Vec<Token>,
    pub current_line_char: usize,
    pub current_line: usize,
    pub errors: Vec<LexerErrorKind>,
}

// ---------------------------------------------------------------------------
// Specification
// ---------------------------------------------------------------------------

/// Where the lexer stands: position, current character, line and column.
pub struct LexCfg {
    pub idx: int,
    pub cur: char,
    pub line: int,
    pub col: int,
}

/// What the lexer is in the middle of: nothing, a word, a number (with or without a
/// dot so far) or a string literal (with the line and column where it started).
pub enum LexMode {
    Normal,
    Text(Seq<char>),
    Number(Seq<char>, bool),
    Str(Seq<char>, int, int),
}

pub enum LexOutcome {
    Done(Seq<SpecToken>, LexCfg),
    Failed(LexerErrorView, Seq<SpecToken>, LexCfg),
    Panic,
}

pub open spec fn at(src: Seq<char>, count: int, i: int) -> char {
    if i >= count {
        '\0'
    } else {
        src[i]
    }
}

/// Reading position `i` indexes past the characters of the source.
pub open spec fn reads_past_end(src: Seq<char>, count: int, i: int) -> bool {
    i < count && i >= src.len()
}

pub open spec fn adv(src: Seq<char>, count: int, c: LexCfg) -> LexCfg {
    LexCfg { idx: c.idx + 1, cur: at(src, count, c.idx + 1), line: c.line, col: c.col + 1 }
}

pub open spec fn lex_measure(count: int, c: LexCfg) -> nat {
    if c.cur == '\0' {
        0
    } else if c.idx >= count {
        1
    } else {
        (count - c.idx + 1) as nat
    }
}

pub open spec fn mode_rank(m: LexMode) -> nat {
    match m {
        LexMode::Normal => 0,
        _ => 1,
    }
}

pub open spec fn is_text_char(c: char) -> bool {
    is_alphabetic_char(c) || is_numeric_char(c) || c == '!' || c == '_'
}

pub open spec fn is_lex_whitespace(c: char) -> bool {
    c == ' ' || c == '\n' || c == '\t' || c == '\r'
}

pub open spec fn err_at(kind: LexerErrorKindView, c: LexCfg) -> LexerErrorView {
    LexerErrorView { kind, line: c.line, col: c.col }
}

/// The kind of a one-character token.
pub open spec fn single_char_kind(c: char) -> Option<TokenKind> {
    if c == ':' {
        Some(TokenKind::COLON)
    } else if c == '+' {
        Some(TokenKind::PLUS)
    } else if c == ',' {
        Some(TokenKind::COMMA)
    } else if c == ';' {
        Some(TokenKind::SEMICOLON)
    } else if c == '(' {
        Some(TokenKind::LEFTPAREN)
    } else if c == ')' {
        Some(TokenKind::RIGHTPAREN)
    } else if c == '{' {
        Some(TokenKind::OPENINGBRACE)
    } else if c == '}' {
        Some(TokenKind::CLOSINGBRACE)
    } else if c == '-' {
        Some(TokenKind::MINUS)
    } else if c == '*' {
        Some(TokenKind::TIMES)
    } else if c == '/' {
        Some(TokenKind::DIVIDE)
    } else if c == '%' {
        Some(TokenKind::MODULO)
    } else if c == '>' {
        Some(TokenKind::GREATER)
    } else if c == '<' {
        Some(TokenKind::LESS)
    } else {
        None
    }
}

/// The kind of a word: a keyword or an identifier.
pub open spec fn keyword_kind(w: Seq<char>) -> TokenKind {
    if w == "var"@ {
        TokenKind::VAR
    } else if w == "fnc"@ {
        TokenKind::FNC
    } else if w == "str"@ {
        TokenKind::STR
    } else if w == "const"@ {
        TokenKind::CONST
    } else if w == "true"@ {
        TokenKind::TRUE
    } else if w == "false"@ {
        TokenKind::FALSE
    } else if w == "if"@ {
        TokenKind::IF
    } else if w == "else"@ {
        TokenKind::ELSE
    } else if w == "loop"@ {
        TokenKind::LOOP
    } else if w == "while"@ {
        TokenKind::WHILE
    } else if w == "as"@ {
        TokenKind::AS
    } else if w == "undef"@ {
        TokenKind::UNDEF
    } else if w == "use"@ {
        TokenKind::USE
    } else if w == "exp"@ {
        TokenKind::EXP
    } else if w == "return"@ {
        TokenKind::RETURN
    } else {
        TokenKind::IDENTIFIER
    }
}

/// The lexer as a machine that looks at one character per step.
pub open spec fn lex(
    src: Seq<char>,
    count: int,
    mode: LexMode,
    c: LexCfg,
    toks: Seq<SpecToken>,
) -> LexOutcome
    decreases lex_measure(count, c), mode_rank(mode),
{
    match mode {
        LexMode::Normal => {
            if c.cur == '\0' {
                LexOutcome::Done(toks.push(spec_token(TokenKind::EOF, "EOF"@)), c)
            } else if is_lex_whitespace(c.cur) {
                let c1 = if c.cur == '\n' {
                    LexCfg { idx: c.idx, cur: c.cur, line: c.line + 1, col: 0 }
                } else {
                    c
                };
                if reads_past_end(src, count, c.idx + 1) {
                    LexOutcome::Panic
                } else {
                    lex(src, count, LexMode::Normal, adv(src, count, c1), toks)
                }
            } else if c.cur == '"' {
                if reads_past_end(src, count, c.idx + 1) {
                    LexOutcome::Panic
                } else {
                    let c1 = adv(src, count, c);
                    lex(src, count, LexMode::Str(Seq::empty(), c1.line, c1.col), c1, toks)
                }
            } else if c.cur == '=' {
                if c.idx + 1 >= src.len() {
                    LexOutcome::Panic
                } else if src[c.idx + 1] == '=' {
                    let c1 = adv(src, count, c);
                    if reads_past_end(src, count, c.idx + 1) || reads_past_end(
                        src,
                        count,
                        c1.idx + 1,
                    ) {
                        LexOutcome::Panic
                    } else {
                        lex(
                            src,
                            count,
                            LexMode::Normal,
                            adv(src, count, c1),
                            toks.push(spec_token(TokenKind::EQUAL, seq![c1.cur])),
                        )
                    }
                } else if reads_past_end(src, count, c.idx + 1) {
                    LexOutcome::Panic
                } else {
                    lex(
                        src,
                        count,
                        LexMode::Normal,
                        adv(src, count, c),
                        toks.push(spec_token(TokenKind::ASSIGN, seq![c.cur])),
                    )
                }
            } else if single_char_kind(c.cur) is Some {
                if reads_past_end(src, count, c.idx + 1) {
                    LexOutcome::Panic
                } else {
                    lex(
                        src,
                        count,
                        LexMode::Normal,
                        adv(src, count, c),
                        toks.push(spec_token(single_char_kind(c.cur).unwrap(), seq![c.cur])),
                    )
                }
            } else if is_alphabetic_char(c.cur) {
                if reads_past_end(src, count, c.idx + 1) {
                    LexOutcome::Panic
                } else {
                    lex(src, count, LexMode::Text(seq![c.cur]), adv(src, count, c), toks)
                }
            } else if is_numeric_char(c.cur) {
                if reads_past_end(src, count, c.idx + 1) {
                    LexOutcome::Panic
                } else {
                    lex(src, count, LexMode::Number(seq![c.cur], false), adv(src, count, c), toks)
                }
            } else {
                LexOutcome::Failed(
                    err_at(LexerErrorKindView::UnknownToken(seq![c.cur]), c),
                    toks,
                    c,
                )
            }
        },
        LexMode::Text(buf) => {
            if c.cur != '\0' && is_text_char(c.cur) {
                if reads_past_end(src, count, c.idx + 1) {
                    LexOutcome::Panic
                } else {
                    lex(src, count, LexMode::Text(buf.push(c.cur)), adv(src, count, c), toks)
                }
            } else {
                lex(
                    src,
                    count,
                    LexMode::Normal,
                    c,
                    toks.push(spec_token(keyword_kind(buf), buf)),
                )
            }
        },
        LexMode::Number(buf, dot) => {
            if c.cur != '\0' && (is_numeric_char(c.cur) || c.cur == '.') {
                if c.cur == '.' && dot {
                    LexOutcome::Failed(err_at(LexerErrorKindView::MoreDotInANumber, c), toks, c)
                } else if reads_past_end(src, count, c.idx + 1) {
                    LexOutcome::Panic
                } else {
                    lex(
                        src,
                        count,
                        LexMode::Number(buf.push(c.cur), dot || c.cur == '.'),
                        adv(src, count, c),
                        toks,
                    )
                }
            } else {
                let kind = if dot {
                    TokenKind::FLOAT
                } else {
                    TokenKind::NUMB
                };
                lex(src, count, LexMode::Normal, c, toks.push(spec_token(kind, buf)))
            }
        },
        LexMode::Str(buf, sl, sc) => {
            if c.cur != '"' && c.cur != '\0' {
                if reads_past_end(src, count, c.idx + 1) {
                    LexOutcome::Panic
                } else {
                    lex(src, count, LexMode::Str(buf.push(c.cur), sl, sc), adv(src, count, c), toks)
                }
            } else if c.cur == '\0' {
                LexOutcome::Failed(
                    LexerErrorView {
                        kind: LexerErrorKindView::UnterminatedString(buf),
                        line: sl,
                        col: sc,
                    },
                    toks,
                    c,
                )
            } else if reads_past_end(src, count, c.idx + 1) {
                LexOutcome::Panic
            } else {
                lex(
                    src,
                    count,
                    LexMode::Normal,
                    adv(src, count, c),
                    toks.push(spec_token(TokenKind::STRING, buf)),
                )
            }
        },
    }
}

/// A word: an ASCII letter, then ASCII letters, digits, `!` or `_`.
pub open spec fn plain_word(w: Seq<char>) -> bool {
    &&& w.len() > 0
    &&& is_ascii_letter(w[0])
    &&& forall|i: int|
        0 < i < w.len() ==> is_ascii_letter(#[trigger] w[i]) || is_ascii_digit(w[i]) || w[i] == '!'
            || w[i] == '_'
}

proof fn lemma_word_rest(w: Seq<char>, k: int, line: int, col: int)
    requires
        plain_word(w),
        1 <= k <= w.len(),
    ensures
        lex(
            w,
            w.len() as int,
            LexMode::Text(w.take(k)),
            LexCfg { idx: k, cur: at(w, w.len() as int, k), line, col },
            seq![],
        ) == LexOutcome::Done(
            seq![spec_token(keyword_kind(w), w), spec_token(TokenKind::EOF, "EOF"@)],
            LexCfg { idx: w.len() as int, cur: '\0', line, col: col + (w.len() - k) },
        ),
    decreases w.len() - k,
{
    let n = w.len() as int;
    let c = LexCfg { idx: k, cur: at(w, n, k), line, col };
    let empty: Seq<SpecToken> = seq![];
    if k == n {
        assert(w.take(k) =~= w);
        let one = empty.push(spec_token(keyword_kind(w), w));
        assert(one.push(spec_token(TokenKind::EOF, "EOF"@)) =~= seq![
            spec_token(keyword_kind(w), w),
            spec_token(TokenKind::EOF, "EOF"@),
        ]);
        assert(lex(w, n, LexMode::Normal, c, one) == LexOutcome::Done(
            one.push(spec_token(TokenKind::EOF, "EOF"@)),
            c,
        ));
        assert(lex(w, n, LexMode::Text(w.take(k)), c, empty) == lex(w, n, LexMode::Normal, c, one));
    } else {
        assert(at(w, n, k) == w[k]);
        let x = w[k];
        assert(is_ascii_letter(x) || is_ascii_digit(x) || x == '!' || x == '_');
        assert(is_text_char(x)) by {
            if is_ascii_letter(x) {
                assert((x as u32) < 128);
            } else if is_ascii_digit(x) {
                assert((x as u32) < 128);
            }
        }
        assert(w[k] != '\0');
        assert(!reads_past_end(w, n, k + 1));
        assert(w.take(k).push(w[k]) =~= w.take(k + 1));
        lemma_word_rest(w, k + 1, line, col + 1);
        assert(adv(w, n, c) == LexCfg { idx: k + 1, cur: at(w, n, k + 1), line, col: col + 1 });
    }
}

/// A word on its own lexes to one token, a keyword's or an identifier's as
/// `keyword_kind` decides, followed by `EOF`. With `line` and `col` both 1 this is the
/// outcome of `tokenize` on `Lexer::new` of the word, which records the word's length as
/// `token_count`.
pub proof fn lemma_word_token(w: Seq<char>, line: int, col: int)
    requires
        plain_word(w),
    ensures
        lex(w, w.len() as int, LexMode::Normal, LexCfg { idx: 0, cur: w[0], line, col }, seq![])
            matches LexOutcome::Done(t, _) && t == seq![
            spec_token(keyword_kind(w), w),
            spec_token(TokenKind::EOF, "EOF"@),
        ],
{
    assert(seq![w[0]] =~= w.take(1));
    assert((w[0] as u32) < 128);
    lemma_word_rest(w, 1, line, col + 1);
}

/// `tokenize` on a lexer as `Lexer::new` makes it from a word gives the word's single
/// token, a keyword's or an identifier's, and then `EOF`.
pub proof fn lemma_new_lexer_word(l: Lexer, w: Seq<char>)
    requires
        plain_word(w),
        l.source_text@ == w,
        l.token_count == w.len(),
        l.token_idx == 0,
        l.current_line == 1,
        l.current_line_char == 1,
        l.final_tokens@.len() == 0,
    ensures
        l.tokenize_outcome() matches LexOutcome::Done(t, _) && t == seq![
            spec_token(keyword_kind(w), w),
            spec_token(TokenKind::EOF, "EOF"@),
        ],
{
    assert(l.toks() =~= Seq::<SpecToken>::empty());
    lemma_word_token(w, 1, 1);
}

/// The rest of lexing after the character at `c` became the one-character token of kind
/// `k`.
pub open spec fn after_symbol(src: Seq<char>, count: int, c: LexCfg, toks: Seq<SpecToken>, k: TokenKind) -> LexOutcome {
    lex(src, count, LexMode::Normal, adv(src, count, c), toks.push(spec_token(k, seq![c.cur])))
}

/// Each one-character symbol lexes to its own token kind, holding the character: `+`
/// PLUS, `-` MINUS, `*` TIMES, `/` DIVIDE, `%` MODULO, `>` GREATER, `<` LESS, `:` COLON,
/// `,` COMMA, `;` SEMICOLON, `(` LEFTPAREN, `)` RIGHTPAREN, `{` OPENINGBRACE, `}`
/// CLOSINGBRACE; a lone `=` is ASSIGN, and `==` is one EQUAL token.
pub proof fn lemma_symbol_tokens(src: Seq<char>, count: int, c: LexCfg, toks: Seq<SpecToken>)
    requires
        !reads_past_end(src, count, c.idx + 1),
    ensures
        ({
            let here = lex(src, count, LexMode::Normal, c, toks);
            &&& c.cur == '+' ==> here == after_symbol(src, count, c, toks, TokenKind::PLUS)
            &&& c.cur == '-' ==> here == after_symbol(src, count, c, toks, TokenKind::MINUS)
            &&& c.cur == '*' ==> here == after_symbol(src, count, c, toks, TokenKind::TIMES)
            &&& c.cur == '/' ==> here == after_symbol(src, count, c, toks, TokenKind::DIVIDE)
            &&& c.cur == '%' ==> here == after_symbol(src, count, c, toks, TokenKind::MODULO)
            &&& c.cur == '>' ==> here == after_symbol(src, count, c, toks, TokenKind::GREATER)
            &&& c.cur == '<' ==> here == after_symbol(src, count, c, toks, TokenKind::LESS)
            &&& c.cur == ':' ==> here == after_symbol(src, count, c, toks, TokenKind::COLON)
            &&& c.cur == ',' ==> here == after_symbol(src, count, c, toks, TokenKind::COMMA)
            &&& c.cur == ';' ==> here == after_symbol(src, count, c, toks, TokenKind::SEMICOLON)
            &&& c.cur == '(' ==> here == after_symbol(src, count, c, toks, TokenKind::LEFTPAREN)
            &&& c.cur == ')' ==> here == after_symbol(src, count, c, toks, TokenKind::RIGHTPAREN)
            &&& c.cur == '{' ==> here == after_symbol(src, count, c, toks, TokenKind::OPENINGBRACE)
            &&& c.cur == '}' ==> here == after_symbol(src, count, c, toks, TokenKind::CLOSINGBRACE)
            &&& c.cur == '=' && c.idx + 1 < src.len() && src[c.idx + 1] != '=' ==> here
                == after_symbol(src, count, c, toks, TokenKind::ASSIGN)
            &&& c.cur == '=' && c.idx + 1 < src.len() && src[c.idx + 1] == '=' && !reads_past_end(
                src,
                count,
                c.idx + 2,
            ) ==> here == after_symbol(src, count, adv(src, count, c), toks, TokenKind::EQUAL)
        }),
{
}

/// The keywords: a word alone lexes to `var` VAR, `fnc` FNC, `str` STR, `const` CONST,
/// `true` TRUE, `false` FALSE, `if` IF, `else` ELSE, `loop` LOOP, `while` WHILE, `as` AS,
/// `undef` UNDEF, `use` USE, `exp` EXP, `return` RETURN, and to IDENTIFIER otherwise,
/// the token holding the word.
pub proof fn lemma_keyword_tokens(w: Seq<char>, line: int, col: int)
    requires
        plain_word(w),
    ensures
        lex(w, w.len() as int, LexMode::Normal, LexCfg { idx: 0, cur: w[0], line, col }, seq![])
            matches LexOutcome::Done(t, _) && t.len() == 2 && t[0].value == w && t[1].kind
            == TokenKind::EOF && t[0].kind == (if w == "var"@ {
            TokenKind::VAR
        } else if w == "fnc"@ {
            TokenKind::FNC
        } else if w == "str"@ {
            TokenKind::STR
        } else if w == "const"@ {
            TokenKind::CONST
        } else if w == "true"@ {
            TokenKind::TRUE
        } else if w == "false"@ {
            TokenKind::FALSE
        } else if w == "if"@ {
            TokenKind::IF
        } else if w == "else"@ {
            TokenKind::ELSE
        } else if w == "loop"@ {
            TokenKind::LOOP
        } else if w == "while"@ {
            TokenKind::WHILE
        } else if w == "as"@ {
            TokenKind::AS
        } else if w == "undef"@ {
            TokenKind::UNDEF
        } else if w == "use"@ {
            TokenKind::USE
        } else if w == "exp"@ {
            TokenKind::EXP
        } else if w == "return"@ {
            TokenKind::RETURN
        } else {
            TokenKind::IDENTIFIER
        }),
{
    lemma_word_token(w, line, col);
}

proof fn lemma_string_step(src: Seq<char>, count: int, buf: Seq<char>, sl: int, sc: int, c: LexCfg, toks: Seq<SpecToken>)
    requires
        c.cur != '"',
        c.cur != '\0',
        !reads_past_end(src, count, c.idx + 1),
    ensures
        lex(src, count, LexMode::Str(buf, sl, sc), c, toks) == lex(
            src,
            count,
            LexMode::Str(buf.push(c.cur), sl, sc),
            adv(src, count, c),
            toks,
        ),
{
}

proof fn lemma_string_rest(
    src: Seq<char>,
    count: int,
    k: int,
    j: int,
    buf: Seq<char>,
    sl: int,
    sc: int,
    line: int,
    col: int,
    toks: Seq<SpecToken>,
)
    requires
        count <= src.len(),
        0 <= k <= j < count,
        src[j] == '"',
        forall|i: int| k <= i < j ==> src[i] != '"' && src[i] != '\0',
    ensures
        lex(src, count, LexMode::Str(buf, sl, sc), LexCfg { idx: k, cur: src[k], line, col }, toks) == lex(
            src,
            count,
            LexMode::Normal,
            LexCfg { idx: j + 1, cur: at(src, count, j + 1), line, col: col + (j - k) + 1 },
            toks.push(spec_token(TokenKind::STRING, buf + src.subrange(k, j))),
        ),
    decreases j - k,
{
    let c = LexCfg { idx: k, cur: src[k], line, col };
    assert(!reads_past_end(src, count, k + 1));
    if k == j {
        assert(buf + src.subrange(k, j) =~= buf);
        assert(adv(src, count, c) == LexCfg { idx: j + 1, cur: at(src, count, j + 1), line, col: col + (j - k) + 1 });
        assert(lex(src, count, LexMode::Str(buf, sl, sc), c, toks) == lex(
            src,
            count,
            LexMode::Normal,
            adv(src, count, c),
            toks.push(spec_token(TokenKind::STRING, buf)),
        ));
    } else {
        assert(src[k] != '"' && src[k] != '\0');
        lemma_string_step(src, count, buf, sl, sc, c, toks);
        assert(at(src, count, k + 1) == src[k + 1]);
        assert(adv(src, count, c) == LexCfg { idx: k + 1, cur: src[k + 1], line, col: col + 1 });
        lemma_string_rest(src, count, k + 1, j, buf.push(src[k]), sl, sc, line, col + 1, toks);
        assert(lex(src, count, LexMode::Str(buf, sl, sc), c, toks) == lex(
            src,
            count,
            LexMode::Str(buf.push(src[k]), sl, sc),
            adv(src, count, c),
            toks,
        ));
        assert(buf.push(src[k]) + src.subrange(k + 1, j) =~= buf + src.subrange(k, j));
    }
}

/// A string literal lexes to one STRING token holding exactly the characters between its
/// quotes, and lexing goes on after the closing quote.
pub proof fn lemma_string_literal(src: Seq<char>, count: int, c: LexCfg, toks: Seq<SpecToken>, j: int)
    requires
        count <= src.len(),
        0 <= c.idx < j < count,
        c.cur == '"',
        src[j] == '"',
        forall|i: int| c.idx < i < j ==> src[i] != '"' && src[i] != '\0',
    ensures
        lex(src, count, LexMode::Normal, c, toks) == lex(
            src,
            count,
            LexMode::Normal,
            LexCfg { idx: j + 1, cur: at(src, count, j + 1), line: c.line, col: c.col + (j - c.idx) + 1 },
            toks.push(spec_token(TokenKind::STRING, src.subrange(c.idx + 1, j))),
        ),
{
    let k = c.idx + 1;
    assert(at(src, count, k) == src[k]);
    lemma_string_rest(src, count, k, j, Seq::empty(), c.line, c.col + 1, c.line, c.col + 1, toks);
    assert(Seq::<char>::empty() + src.subrange(k, j) =~= src.subrange(k, j));
}

proof fn lemma_number_step(src: Seq<char>, count: int, buf: Seq<char>, dot: bool, c: LexCfg, toks: Seq<SpecToken>)
    requires
        is_ascii_digit(c.cur) || (c.cur == '.' && !dot),
        !reads_past_end(src, count, c.idx + 1),
    ensures
        lex(src, count, LexMode::Number(buf, dot), c, toks) == lex(
            src,
            count,
            LexMode::Number(buf.push(c.cur), dot || c.cur == '.'),
            adv(src, count, c),
            toks,
        ),
{
    assert((c.cur as u32) < 128);
}

proof fn lemma_number_end(src: Seq<char>, count: int, buf: Seq<char>, dot: bool, c: LexCfg, toks: Seq<SpecToken>)
    requires
        c.cur == '\0' || (is_ascii_char(c.cur) && !is_ascii_digit(c.cur) && c.cur != '.'),
    ensures
        lex(src, count, LexMode::Number(buf, dot), c, toks) == lex(
            src,
            count,
            LexMode::Normal,
            c,
            toks.push(spec_token(if dot { TokenKind::FLOAT } else { TokenKind::NUMB }, buf)),
        ),
{
}

/// Whether `s` holds a `.`.
pub open spec fn has_dot(s: Seq<char>) -> bool {
    exists|i: int| 0 <= i < s.len() && s[i] == '.'
}

/// ASCII digits with at most one `.`, starting with a digit.
pub open spec fn number_text(s: Seq<char>) -> bool {
    &&& s.len() > 0
    &&& is_ascii_digit(s[0])
    &&& forall|i: int| 0 <= i < s.len() ==> is_ascii_digit(#[trigger] s[i]) || s[i] == '.'
    &&& forall|i: int, k: int| 0 <= i < k < s.len() && #[trigger] s[i] == '.' ==> #[trigger] s[k] != '.'
}

proof fn lemma_number_rest(
    src: Seq<char>,
    count: int,
    start: int,
    k: int,
    j: int,
    line: int,
    col: int,
    toks: Seq<SpecToken>,
)
    requires
        count <= src.len(),
        0 <= start < k <= j <= count,
        number_text(src.subrange(start, j)),
        j == count || (is_ascii_char(src[j]) && !is_ascii_digit(src[j]) && src[j] != '.'),
    ensures
        lex(
            src,
            count,
            LexMode::Number(src.subrange(start, k), has_dot(src.subrange(start, k))),
            LexCfg { idx: k, cur: at(src, count, k), line, col },
            toks,
        ) == lex(
            src,
            count,
            LexMode::Normal,
            LexCfg { idx: j, cur: at(src, count, j), line, col: col + (j - k) },
            toks.push(
                spec_token(
                    if has_dot(src.subrange(start, j)) {
                        TokenKind::FLOAT
                    } else {
                        TokenKind::NUMB
                    },
                    src.subrange(start, j),
                ),
            ),
        ),
    decreases j - k,
{
    let w = src.subrange(start, j);
    let b = src.subrange(start, k);
    let c = LexCfg { idx: k, cur: at(src, count, k), line, col };
    if k == j {
        lemma_number_end(src, count, b, has_dot(b), c, toks);
    } else {
        let x = src[k];
        assert(x == w[k - start]);
        assert(at(src, count, k) == x);
        assert(has_dot(b) ==> x != '.') by {
            if has_dot(b) && x == '.' {
                let i = choose|i: int| 0 <= i < b.len() && b[i] == '.';
                assert(w[i] == '.');
                assert(w[k - start] != '.');
            }
        }
        lemma_number_step(src, count, b, has_dot(b), c, toks);
        let b2 = src.subrange(start, k + 1);
        assert(b.push(x) =~= b2);
        assert(has_dot(b2) == (has_dot(b) || x == '.')) by {
            if has_dot(b2) && !has_dot(b) {
                let i = choose|i: int| 0 <= i < b2.len() && b2[i] == '.';
                if i < b.len() {
                    assert(b[i] == b2[i]);
                }
            }
            if has_dot(b) {
                let i = choose|i: int| 0 <= i < b.len() && b[i] == '.';
                assert(b2[i] == b[i]);
            }
            if x == '.' {
                assert(b2[b.len() as int] == '.');
            }
        }
        assert(adv(src, count, c) == LexCfg { idx: k + 1, cur: at(src, count, k + 1), line, col: col + 1 });
        lemma_number_rest(src, count, start, k + 1, j, line, col + 1, toks);
    }
}

/// A number literal of ASCII digits lexes to one token holding its text: NUMB without a
/// `.` and FLOAT with one, when it is followed by the end of the source or by an ASCII
/// character that is neither a digit nor a `.`.
pub proof fn lemma_number_literal(src: Seq<char>, count: int, c: LexCfg, toks: Seq<SpecToken>, j: int)
    requires
        count <= src.len(),
        0 <= c.idx < j <= count,
        c.cur == src[c.idx],
        number_text(src.subrange(c.idx, j)),
        j == count || (is_ascii_char(src[j]) && !is_ascii_digit(src[j]) && src[j] != '.'),
    ensures
        lex(src, count, LexMode::Normal, c, toks) == lex(
            src,
            count,
            LexMode::Normal,
            LexCfg { idx: j, cur: at(src, count, j), line: c.line, col: c.col + (j - c.idx) },
            toks.push(
                spec_token(
                    if has_dot(src.subrange(c.idx, j)) {
                        TokenKind::FLOAT
                    } else {
                        TokenKind::NUMB
                    },
                    src.subrange(c.idx, j),
                ),
            ),
        ),
{
    let w = src.subrange(c.idx, j);
    assert(w[0] == c.cur);
    assert(is_ascii_digit(c.cur));
    assert((c.cur as u32) < 128);
    let b = src.subrange(c.idx, c.idx + 1);
    assert(b =~= seq![c.cur]);
    assert(!has_dot(b));
    assert(adv(src, count, c) == LexCfg { idx: c.idx + 1, cur: at(src, count, c.idx + 1), line: c.line, col: c.col + 1 });
    lemma_number_rest(src, count, c.idx, c.idx + 1, j, c.line, c.col + 1, toks);
}

/// Keeps the law of the lexer for one recursive step that adds `x` to the tokens.
proof fn lemma_lex_push_step(src: Seq<char>, count: int, mode: LexMode, c: LexCfg, toks: Seq<SpecToken>, x: SpecToken)
    requires
        lex(src, count, mode, c, toks.push(x)) matches LexOutcome::Done(t, _) ==> t.len() > toks.len() + 1
            && t.subrange(0, toks.len() + 1int) == toks.push(x) && t.last() == spec_token(
            TokenKind::EOF,
            "EOF"@,
        ),
    ensures
        lex(src, count, mode, c, toks.push(x)) matches LexOutcome::Done(t, _) ==> t.len() > toks.len()
            && t.subrange(0, toks.len() as int) == toks && t.last() == spec_token(
            TokenKind::EOF,
            "EOF"@,
        ),
{
    if let LexOutcome::Done(t, _) = lex(src, count, mode, c, toks.push(x)) {
        assert(t.subrange(0, toks.len() as int) =~= toks.push(x).subrange(0, toks.len() as int));
        assert(toks.push(x).subrange(0, toks.len() as int) =~= toks);
    }
}

/// Lexing keeps the tokens it already has and, when it succeeds, ends with an `EOF` token.
pub proof fn lemma_lex_ends_with_eof(src: Seq<char>, count: int, mode: LexMode, c: LexCfg, toks: Seq<SpecToken>)
    ensures
        lex(src, count, mode, c, toks) matches LexOutcome::Done(t, _) ==> t.len() > toks.len()
            && t.subrange(0, toks.len() as int) == toks && t.last() == spec_token(
            TokenKind::EOF,
            "EOF"@,
        ),
    decreases lex_measure(count, c), mode_rank(mode),
{
    match mode {
        LexMode::Normal => {
            if c.cur == '\0' {
                let e = spec_token(TokenKind::EOF, "EOF"@);
                assert(toks.push(e).subrange(0, toks.len() as int) =~= toks);
            } else if is_lex_whitespace(c.cur) {
                let c1 = if c.cur == '\n' {
                    LexCfg { idx: c.idx, cur: c.cur, line: c.line + 1, col: 0 }
                } else {
                    c
                };
                if !reads_past_end(src, count, c.idx + 1) {
                    lemma_lex_ends_with_eof(src, count, LexMode::Normal, adv(src, count, c1), toks);
                }
            } else if c.cur == '"' {
                if !reads_past_end(src, count, c.idx + 1) {
                    let c1 = adv(src, count, c);
                    lemma_lex_ends_with_eof(src, count, LexMode::Str(Seq::empty(), c1.line, c1.col), c1, toks);
                }
            } else if c.cur == '=' {
                if c.idx + 1 < src.len() {
                    if src[c.idx + 1] == '=' {
                        let c1 = adv(src, count, c);
                        if !(reads_past_end(src, count, c.idx + 1) || reads_past_end(src, count, c1.idx + 1)) {
                            let x = spec_token(TokenKind::EQUAL, seq![c1.cur]);
                            lemma_lex_ends_with_eof(src, count, LexMode::Normal, adv(src, count, c1), toks.push(x));
                            lemma_lex_push_step(src, count, LexMode::Normal, adv(src, count, c1), toks, x);
                        }
                    } else if !reads_past_end(src, count, c.idx + 1) {
                        let x = spec_token(TokenKind::ASSIGN, seq![c.cur]);
                        lemma_lex_ends_with_eof(src, count, LexMode::Normal, adv(src, count, c), toks.push(x));
                        lemma_lex_push_step(src, count, LexMode::Normal, adv(src, count, c), toks, x);
                    }
                }
            } else if single_char_kind(c.cur) is Some {
                if !reads_past_end(src, count, c.idx + 1) {
                    let x = spec_token(single_char_kind(c.cur).unwrap(), seq![c.cur]);
                    lemma_lex_ends_with_eof(src, count, LexMode::Normal, adv(src, count, c), toks.push(x));
                    lemma_lex_push_step(src, count, LexMode::Normal, adv(src, count, c), toks, x);
                }
            } else if is_alphabetic_char(c.cur) {
                if !reads_past_end(src, count, c.idx + 1) {
                    lemma_lex_ends_with_eof(src, count, LexMode::Text(seq![c.cur]), adv(src, count, c), toks);
                }
            } else if is_numeric_char(c.cur) {
                if !reads_past_end(src, count, c.idx + 1) {
                    lemma_lex_ends_with_eof(src, count, LexMode::Number(seq![c.cur], false), adv(src, count, c), toks);
                }
            }
        },
        LexMode::Text(buf) => {
            if c.cur != '\0' && is_text_char(c.cur) {
                if !reads_past_end(src, count, c.idx + 1) {
                    lemma_lex_ends_with_eof(src, count, LexMode::Text(buf.push(c.cur)), adv(src, count, c), toks);
                }
            } else {
                let x = spec_token(keyword_kind(buf), buf);
                lemma_lex_ends_with_eof(src, count, LexMode::Normal, c, toks.push(x));
                lemma_lex_push_step(src, count, LexMode::Normal, c, toks, x);
            }
        },
        LexMode::Number(buf, dot) => {
            if c.cur != '\0' && (is_numeric_char(c.cur) || c.cur == '.') {
                if !(c.cur == '.' && dot) && !reads_past_end(src, count, c.idx + 1) {
                    lemma_lex_ends_with_eof(
                        src,
                        count,
                        LexMode::Number(buf.push(c.cur), dot || c.cur == '.'),
                        adv(src, count, c),
                        toks,
                    );
                }
            } else {
                let kind = if dot {
                    TokenKind::FLOAT
                } else {
                    TokenKind::NUMB
                };
                let x = spec_token(kind, buf);
                lemma_lex_ends_with_eof(src, count, LexMode::Normal, c, toks.push(x));
                lemma_lex_push_step(src, count, LexMode::Normal, c, toks, x);
            }
        },
        LexMode::Str(buf, sl, sc) => {
            if c.cur != '"' && c.cur != '\0' {
                if !reads_past_end(src, count, c.idx + 1) {
                    lemma_lex_ends_with_eof(src, count, LexMode::Str(buf.push(c.cur), sl, sc), adv(src, count, c), toks);
                }
            } else if c.cur != '\0' && !reads_past_end(src, count, c.idx + 1) {
                let x = spec_token(TokenKind::STRING, buf);
                lemma_lex_ends_with_eof(src, count, LexMode::Normal, adv(src, count, c), toks.push(x));
                lemma_lex_push_step(src, count, LexMode::Normal, adv(src, count, c), toks, x);
            }
        },
    }
}

/// Starting position, line and column of a run, for the arithmetic bounds.
pub struct RunStart {
    pub idx: int,
    pub line: int,
    pub col: int,
}

pub open spec fn quarter() -> int {
    (usize::MAX / 4) as int
}

impl Lexer {
    pub open spec fn cfg(&self) -> LexCfg {
        LexCfg {
            idx: self.token_idx as int,
            cur: self.current_char,
            line: self.current_line as int,
            col: self.current_line_char as int,
        }
    }

    pub open spec fn toks(&self) -> Seq<SpecToken> {
        tokens_view(self.final_tokens@)
    }

    pub open spec fn outcome(&self, mode: LexMode) -> LexOutcome {
        lex(self.source_text@, self.token_count as int, mode, self.cfg(), self.toks())
    }

    /// The outcome of `tokenize` on this lexer.
    pub open spec fn tokenize_outcome(&self) -> LexOutcome {
        lex(
            self.source_text@,
            self.token_count as int,
            LexMode::Normal,
            LexCfg {
                idx: self.token_idx as int,
                cur: self.source_text@[0],
                line: self.current_line as int,
                col: self.current_line_char as int,
            },
            self.toks(),
        )
    }

    /// Arithmetic stays far from overflow during a run that started at `s`.
    pub open spec fn bounded(&self, s: RunStart) -> bool {
        let idx = self.token_idx as int;
        let count = self.token_count as int;
        let top = if count > s.idx {
            count
        } else {
            s.idx
        };
        &&& 0 <= s.idx <= quarter()
        &&& 0 <= s.line <= quarter()
        &&& 0 <= s.col <= quarter()
        &&& count <= quarter()
        &&& s.idx <= idx <= top + 2
        &&& self.current_line <= s.line + (idx - s.idx)
        &&& self.current_line_char <= s.col + (idx - s.idx)
        &&& (self.current_char != '\0' ==> idx < count || idx == s.idx)
    }

    pub open spec fn same_source(&self, other: &Lexer) -> bool {
        &&& self.source_text@ == other.source_text@
        &&& self.token_count == other.token_count
    }
}

// ---------------------------------------------------------------------------
// Implementation
// ---------------------------------------------------------------------------

fn string_of_char(c: char) -> (s: String)
    ensures
        s@ == seq![c],
{
    let mut s = String::new();
    push_char(&mut s, c);
    s
}

fn single_char_kind_exec(c: char) -> (r: Option<TokenKind>)
    ensures
        r == single_char_kind(c),
{
    if c == ':' {
        Some(TokenKind::COLON)
    } else if c == '+' {
        Some(TokenKind::PLUS)
    } else if c == ',' {
        Some(TokenKind::COMMA)
    } else if c == ';' {
        Some(TokenKind::SEMICOLON)
    } else if c == '(' {
        Some(TokenKind::LEFTPAREN)
    } else if c == ')' {
        Some(TokenKind::RIGHTPAREN)
    } else if c == '{' {
        Some(TokenKind::OPENINGBRACE)
    } else if c == '}' {
        Some(TokenKind::CLOSINGBRACE)
    } else if c == '-' {
        Some(TokenKind::MINUS)
    } else if c == '*' {
        Some(TokenKind::TIMES)
    } else if c == '/' {
        Some(TokenKind::DIVIDE)
    } else if c == '%' {
        Some(TokenKind::MODULO)
    } else if c == '>' {
        Some(TokenKind::GREATER)
    } else if c == '<' {
        Some(TokenKind::LESS)
    } else {
        None
    }
}

fn continues_text(c: char) -> (r: bool)
    ensures
        r == (c != '\0' && is_text_char(c)),
{
    let r = char_is_alphabetic(c) || char_is_numeric(c) || c == '!' || c == '_';
    assert(is_ascii_char('\0'));
    r
}

fn continues_number(c: char) -> (r: bool)
    ensures
        r == (c != '\0' && (is_numeric_char(c) || c == '.')),
{
    let r = char_is_numeric(c) || c == '.';
    assert(is_ascii_char('\0'));
    r
}

fn keyword_kind_exec(w: &Vec<char>) -> (k: TokenKind)
    ensures
        k == keyword_kind(w@),
{
    let n = w.len();
    assert(w@.subrange(0, n as int) =~= w@);
    if range_eq_str(w, 0, n, "var") {
        TokenKind::VAR
    } else if range_eq_str(w, 0, n, "fnc") {
        TokenKind::FNC
    } else if range_eq_str(w, 0, n, "str") {
        TokenKind::STR
    } else if range_eq_str(w, 0, n, "const") {
        TokenKind::CONST
    } else if range_eq_str(w, 0, n, "true") {
        TokenKind::TRUE
    } else if range_eq_str(w, 0, n, "false") {
        TokenKind::FALSE
    } else if range_eq_str(w, 0, n, "if") {
        TokenKind::IF
    } else if range_eq_str(w, 0, n, "else") {
        TokenKind::ELSE
    } else if range_eq_str(w, 0, n, "loop") {
        TokenKind::LOOP
    } else if range_eq_str(w, 0, n, "while") {
        TokenKind::WHILE
    } else if range_eq_str(w, 0, n, "as") {
        TokenKind::AS
    } else if range_eq_str(w, 0, n, "undef") {
        TokenKind::UNDEF
    } else if range_eq_str(w, 0, n, "use") {
        TokenKind::USE
    } else if range_eq_str(w, 0, n, "exp") {
        TokenKind::EXP
    } else if range_eq_str(w, 0, n, "return") {
        TokenKind::RETURN
    } else {
        TokenKind::IDENTIFIER
    }
}

impl Lexer {
    /// A lexer positioned at the start of `text`.
    pub fn new(text: String) -> (l: Self)
        ensures
            l.token_idx == 0,
            l.token_count == text@.len(),
            l.current_char == '0',
            l.source_text@ == text@,
            l.final_tokens@.len() == 0,
            l.current_line_char == 1,
            l.current_line == 1,
            l.errors@.len() == 0,
    {
        let source_text = chars_of(text.as_str());
        Self {
            token_idx: 0,
            token_count: source_text.len(),
            current_char: '0',
            source_text,
            final_tokens: Vec::new(),
            current_line_char: 1,
            current_line: 1,
            errors: Vec::new(),
        }
    }

    /// Moves to the next character; `'\0'` once the byte length is reached.
    fn advance(&mut self)
        requires
            old(self).token_idx < usize::MAX,
            old(self).current_line_char < usize::MAX,
            !reads_past_end(
                old(self).source_text@,
                old(self).token_count as int,
                old(self).token_idx + 1,
            ),
        ensures
            final(self).cfg() == adv(
                old(self).source_text@,
                old(self).token_count as int,
                old(self).cfg(),
            ),
            final(self).same_source(old(self)),
            final(self).final_tokens == old(self).final_tokens,
    {
        self.token_idx += 1;
        self.current_line_char += 1;
        if self.token_idx >= self.token_count {
            self.current_char = '\0';
        } else {
            self.current_char = self.source_text[self.token_idx];
        }
    }

    /// Reads a word starting at the current (alphabetic) character.
    fn create_text_token(&mut self, Ghost(s): Ghost<RunStart>) -> (t: Token)
        requires
            old(self).bounded(s),
            is_alphabetic_char(old(self).current_char),
            old(self).current_char != '\0',
            !is_lex_whitespace(old(self).current_char),
            old(self).current_char != '"',
            old(self).current_char != '=',
            single_char_kind(old(self).current_char) is None,
            !(old(self).outcome(LexMode::Normal) is Panic),
        ensures
            lex_measure(final(self).token_count as int, final(self).cfg()) < lex_measure(
                old(self).token_count as int,
                old(self).cfg(),
            ),
            final(self).bounded(s),
            final(self).same_source(old(self)),
            final(self).final_tokens == old(self).final_tokens,
            old(self).outcome(LexMode::Normal) == lex(
                final(self).source_text@,
                final(self).token_count as int,
                LexMode::Normal,
                final(self).cfg(),
                old(self).toks().push(t@),
            ),
    {
        let ghost target = self.outcome(LexMode::Normal);
        let mut buf: Vec<char> = Vec::new();
        assert(Seq::<char>::empty().push(self.current_char) =~= seq![self.current_char]);
        assert(self.outcome(LexMode::Text(buf@)) == target);
        while continues_text(self.current_char)
            invariant
                self.bounded(s),
                self.same_source(old(self)),
                self.final_tokens == old(self).final_tokens,
                self.outcome(LexMode::Text(buf@)) == target,
                !(target is Panic),
                target == old(self).outcome(LexMode::Normal),
                buf@.len() == 0 ==> self.cfg() == old(self).cfg(),
                buf@.len() > 0 ==> lex_measure(self.token_count as int, self.cfg()) < lex_measure(
                    old(self).token_count as int,
                    old(self).cfg(),
                ),
            decreases lex_measure(self.token_count as int, self.cfg()),
        {
            buf.push(self.current_char);
            self.advance();
        }
        let kind = keyword_kind_exec(&buf);
        Token { token_kind: kind, token_value: string_from_chars(&buf) }
    }

    /// Reads a number starting at the current (numeric) character.
    fn create_number_token(&mut self, Ghost(s): Ghost<RunStart>) -> (r: Result<Token, LexerError>)
        requires
            old(self).bounded(s),
            is_numeric_char(old(self).current_char),
            old(self).current_char != '\0',
            old(self).current_char != '.',
            !is_lex_whitespace(old(self).current_char),
            old(self).current_char != '"',
            old(self).current_char != '=',
            single_char_kind(old(self).current_char) is None,
            !is_alphabetic_char(old(self).current_char),
            !(old(self).outcome(LexMode::Normal) is Panic),
        ensures
            r is Ok ==> lex_measure(final(self).token_count as int, final(self).cfg()) < lex_measure(
                old(self).token_count as int,
                old(self).cfg(),
            ),
            final(self).bounded(s),
            final(self).same_source(old(self)),
            final(self).final_tokens == old(self).final_tokens,
            match r {
                Ok(t) => old(self).outcome(LexMode::Normal) == lex(
                    final(self).source_text@,
                    final(self).token_count as int,
                    LexMode::Normal,
                    final(self).cfg(),
                    old(self).toks().push(t@),
                ),
                Err(e) => old(self).outcome(LexMode::Normal) == LexOutcome::Failed(
                    e@,
                    old(self).toks(),
                    final(self).cfg(),
                ),
            },
    {
        let ghost target = self.outcome(LexMode::Normal);
        let mut buf: Vec<char> = Vec::new();
        let mut dot_count: usize = 0;
        assert(Seq::<char>::empty().push(self.current_char) =~= seq![self.current_char]);
        assert(self.outcome(LexMode::Number(buf@, false)) == target);
        while continues_number(self.current_char)
            invariant
                self.bounded(s),
                self.same_source(old(self)),
                self.final_tokens == old(self).final_tokens,
                dot_count <= 1,
                self.outcome(LexMode::Number(buf@, dot_count >= 1)) == target,
                !(target is Panic),
                target == old(self).outcome(LexMode::Normal),
                buf@.len() == 0 ==> self.cfg() == old(self).cfg(),
                buf@.len() > 0 ==> lex_measure(self.token_count as int, self.cfg()) < lex_measure(
                    old(self).token_count as int,
                    old(self).cfg(),
                ),
            decreases lex_measure(self.token_count as int, self.cfg()),
        {
            let c = self.current_char;
            if c == '.' {
                if dot_count < 1 {
                    dot_count += 1;
                    buf.push('.');
                } else {
                    let ghost cf = self.cfg();
                    assert(self.outcome(LexMode::Number(buf@, true)) == LexOutcome::Failed(
                        err_at(LexerErrorKindView::MoreDotInANumber, cf),
                        self.toks(),
                        cf,
                    ));
                    return Err(
                        LexerError {
                            err: LexerErrorKind::MoreDotInANumber,
                            line: self.current_line,
                            char: self.current_line_char,
                        },
                    );
                }
            } else {
                buf.push(c);
            }
            self.advance();
        }
        let kind = if dot_count < 1 {
            TokenKind::NUMB
        } else {
            TokenKind::FLOAT
        };
        Ok(Token { token_kind: kind, token_value: string_from_chars(&buf) })
    }

    /// Reads a string literal; the current character is the opening quote.
    fn read_string(&mut self, Ghost(s): Ghost<RunStart>) -> (r: Result<Token, LexerError>)
        requires
            old(self).bounded(s),
            old(self).current_char == '"',
            !(old(self).outcome(LexMode::Normal) is Panic),
        ensures
            r is Ok ==> lex_measure(final(self).token_count as int, final(self).cfg()) < lex_measure(
                old(self).token_count as int,
                old(self).cfg(),
            ),
            final(self).bounded(s),
            final(self).same_source(old(self)),
            final(self).final_tokens == old(self).final_tokens,
            match r {
                Ok(t) => old(self).outcome(LexMode::Normal) == lex(
                    final(self).source_text@,
                    final(self).token_count as int,
                    LexMode::Normal,
                    final(self).cfg(),
                    old(self).toks().push(t@),
                ),
                Err(e) => old(self).outcome(LexMode::Normal) == LexOutcome::Failed(
                    e@,
                    old(self).toks(),
                    final(self).cfg(),
                ),
            },
    {
        let ghost target = self.outcome(LexMode::Normal);
        self.advance();
        let starting_line = self.current_line;
        let starting_char = self.current_line_char;
        let mut value: Vec<char> = Vec::new();
        assert(self.outcome(
            LexMode::Str(value@, starting_line as int, starting_char as int),
        ) == target);
        while self.current_char != '"' && self.current_char != '\0'
            invariant
                self.bounded(s),
                self.same_source(old(self)),
                self.final_tokens == old(self).final_tokens,
                self.outcome(LexMode::Str(value@, starting_line as int, starting_char as int))
                    == target,
                !(target is Panic),
                target == old(self).outcome(LexMode::Normal),
                lex_measure(self.token_count as int, self.cfg()) < lex_measure(
                    old(self).token_count as int,
                    old(self).cfg(),
                ),
            decreases lex_measure(self.token_count as int, self.cfg()),
        {
            value.push(self.current_char);
            self.advance();
        }
        if self.current_char == '\0' {
            return Err(
                LexerError {
                    err: LexerErrorKind::UnterminatedString { text: string_from_chars(&value) },
                    line: starting_line,
                    char: starting_char,
                },
            );
        }
        self.advance();
        Ok(Token { token_kind: TokenKind::STRING, token_value: string_from_chars(&value) })
    }

    fn push_token(&mut self, t: Token)
        ensures
            final(self).toks() == old(self).toks().push(t@),
            final(self).final_tokens@ == old(self).final_tokens@.push(t),
            final(self).cfg() == old(self).cfg(),
            final(self).same_source(old(self)),
            final(self).current_char == old(self).current_char,
            final(self).token_idx == old(self).token_idx,
            final(self).current_line == old(self).current_line,
            final(self).current_line_char == old(self).current_line_char,
    {
        self.final_tokens.push(t);
        assert(self.toks() =~= old(self).toks().push(t@));
    }

    /// Turns the whole source into tokens, ending with an `EOF` token. The tokens are
    /// appended to `final_tokens`, which is returned.
    pub fn tokenize(&mut self) -> (res: Result<&Vec<Token>, LexerError>)
        requires
            old(self).token_count <= usize::MAX / 4,
            old(self).token_idx <= usize::MAX / 4,
            old(self).current_line <= usize::MAX / 4,
            old(self).current_line_char <= usize::MAX / 4,
            old(self).source_text@.len() > 0 ==> !(old(self).tokenize_outcome() is Panic),
        ensures
            final(self).same_source(old(self)),
            old(self).source_text@.len() == 0 ==> {
                &&& res matches Err(e) && e@ == LexerErrorView {
                    kind: LexerErrorKindView::EmptyFile,
                    line: 0,
                    col: 0,
                }
                &&& *final(self) == *old(self)
            },
            old(self).source_text@.len() > 0 ==> match old(self).tokenize_outcome() {
                LexOutcome::Done(toks, c) => {
                    &&& res matches Ok(v) && v == final(self).final_tokens
                    &&& final(self).toks() == toks
                    &&& final(self).cfg() == c
                },
                LexOutcome::Failed(e, toks, c) => {
                    &&& res matches Err(err) && err@ == e
                    &&& final(self).toks() == toks
                    &&& final(self).cfg() == c
                },
                LexOutcome::Panic => false,
            },
    {
        if self.source_text.len() == 0 {
            return Err(LexerError { err: LexerErrorKind::EmptyFile, line: 0, char: 0 });
        }
        self.current_char = self.source_text[0];
        let ghost target = self.outcome(LexMode::Normal);
        assert(target == old(self).tokenize_outcome());
        let ghost s = RunStart {
            idx: self.token_idx as int,
            line: self.current_line as int,
            col: self.current_line_char as int,
        };
        while self.current_char != '\0'
            invariant
                self.bounded(s),
                self.same_source(old(self)),
                self.source_text@.len() > 0,
                target == old(self).tokenize_outcome(),
                self.outcome(LexMode::Normal) == target,
                !(target is Panic),
            decreases lex_measure(self.token_count as int, self.cfg()),
        {
            let c = self.current_char;
            if c == ' ' || c == '\n' || c == '\t' || c == '\r' {
                if c == '\n' {
                    self.current_line += 1;
                    self.current_line_char = 0;
                }
                self.advance();
                continue ;
            }
            if c == '"' {
                let token = match self.read_string(Ghost(s)) {
                    Ok(t) => t,
                    Err(e) => {
                        return Err(e);
                    },
                };
                self.push_token(token);
                continue ;
            }
            if c == '=' {
                if self.source_text[self.token_idx + 1] == '=' {
                    self.advance();
                    let v = string_of_char(self.current_char);
                    self.push_token(Token { token_kind: TokenKind::EQUAL, token_value: v });
                } else {
                    let v = string_of_char(c);
                    self.push_token(Token { token_kind: TokenKind::ASSIGN, token_value: v });
                }
                self.advance();
                continue ;
            }
            match single_char_kind_exec(c) {
                Some(kind) => {
                    let v = string_of_char(c);
                    self.push_token(Token { token_kind: kind, token_value: v });
                    self.advance();
                    continue ;
                },
                None => {},
            }
            if char_is_alphabetic(c) {
                let token = self.create_text_token(Ghost(s));
                self.push_token(token);
                continue ;
            } else if char_is_numeric(c) {
                proof {
                    assert(is_ascii_char('.'));
                }
                let token = match self.create_number_token(Ghost(s)) {
                    Ok(t) => t,
                    Err(e) => {
                        return Err(e);
                    },
                };
                self.push_token(token);
                continue ;
            } else {
                return Err(
                    LexerError {
                        err: LexerErrorKind::UnknownToken { wrong_token: string_of_char(c) },
                        line: self.current_line,
                        char: self.current_line_char,
                    },
                );
            }
        }
        self.push_token(Token { token_kind: TokenKind::EOF, token_value: owned("EOF") });
        Ok(&self.final_tokens)
    }
}

/// What the lexer is in the middle of, without the text read so far.
enum ScanMode {
    Normal,
    Text,
    Number(bool),
    Str,
}

spec fn scan_agrees(m: ScanMode, g: LexMode) -> bool {
    match (m, g) {
        (ScanMode::Normal, LexMode::Normal) => true,
        (ScanMode::Text, LexMode::Text(_)) => true,
        (ScanMode::Number(d), LexMode::Number(_, gd)) => d == gd,
        (ScanMode::Str, LexMode::Str(_, _, _)) => true,
        _ => false,
    }
}

impl Lexer {
    /// Whether `tokenize` would index past the end of the source, as the lexer does at an
    /// `=` that ends it: a caller tests this first and stops as the lexer would.
    pub fn tokenize_panics(&self) -> (r: bool)
        requires
            self.token_count <= self.source_text@.len(),
            self.token_count <= usize::MAX / 4,
            self.token_idx <= usize::MAX / 4,
        ensures
            r == (self.source_text@.len() > 0 && self.tokenize_outcome() is Panic),
    {
        let n = self.source_text.len();
        if n == 0 {
            return false;
        }
        let count = self.token_count;
        let ghost src = self.source_text@;
        let ghost target = self.tokenize_outcome();
        let mut idx: usize = self.token_idx;
        let mut cur: char = self.source_text[0];
        let mut mode = ScanMode::Normal;
        let ghost mut gmode = LexMode::Normal;
        let ghost mut line: int = self.current_line as int;
        let ghost mut col: int = self.current_line_char as int;
        let ghost mut toks = self.toks();
        loop
            invariant
                n == src.len(),
                n > 0,
                count <= n,
                count <= usize::MAX / 4,
                src == self.source_text@,
                count == self.token_count,
                scan_agrees(mode, gmode),
                lex(src, count as int, gmode, LexCfg { idx: idx as int, cur, line, col }, toks) == target,
                target == self.tokenize_outcome(),
                idx <= usize::MAX / 4 + 2,
                cur != '\0' ==> idx <= usize::MAX / 4,
            decreases lex_measure(count as int, LexCfg { idx: idx as int, cur, line, col }), mode_rank(gmode),
        {
            let ghost c = LexCfg { idx: idx as int, cur, line, col };
            match mode {
                ScanMode::Normal => {
                    if cur == '\0' {
                        return false;
                    }
                    if cur == ' ' || cur == '\n' || cur == '\t' || cur == '\r' {
                        proof {
                            if cur == '\n' {
                                line = line + 1;
                                col = 0;
                            }
                        }
                    } else if cur == '"' {
                        mode = ScanMode::Str;
                        proof {
                            gmode = LexMode::Str(Seq::empty(), line, col + 1);
                        }
                    } else if cur == '=' {
                        if idx >= n - 1 {
                            return true;
                        }
                        if self.source_text[idx + 1] == '=' {
                            proof {
                                toks = toks.push(spec_token(TokenKind::EQUAL, seq![at(src, count as int, idx + 1)]));
                            }
                            idx = idx + 1;
                            cur = if idx >= count { '\0' } else { self.source_text[idx] };
                            proof {
                                col = col + 1;
                            }
                        } else {
                            proof {
                                toks = toks.push(spec_token(TokenKind::ASSIGN, seq![cur]));
                            }
                        }
                    } else if single_char_kind_exec(cur).is_some() {
                        proof {
                            toks = toks.push(spec_token(single_char_kind(cur).unwrap(), seq![cur]));
                        }
                    } else if char_is_alphabetic(cur) {
                        mode = ScanMode::Text;
                        proof {
                            gmode = LexMode::Text(seq![cur]);
                        }
                    } else if char_is_numeric(cur) {
                        mode = ScanMode::Number(false);
                        proof {
                            gmode = LexMode::Number(seq![cur], false);
                        }
                    } else {
                        return false;
                    }
                    idx = idx + 1;
                    cur = if idx >= count { '\0' } else { self.source_text[idx] };
                    proof {
                        col = col + 1;
                    }
                },
                ScanMode::Text => {
                    if continues_text(cur) {
                        proof {
                            gmode = LexMode::Text(gmode->Text_0.push(cur));
                        }
                        idx = idx + 1;
                        cur = if idx >= count { '\0' } else { self.source_text[idx] };
                        proof {
                            col = col + 1;
                        }
                    } else {
                        proof {
                            let buf = gmode->Text_0;
                            toks = toks.push(spec_token(keyword_kind(buf), buf));
                            gmode = LexMode::Normal;
                        }
                        mode = ScanMode::Normal;
                    }
                },
                ScanMode::Number(dot) => {
                    if continues_number(cur) {
                        if cur == '.' && dot {
                            return false;
                        }
                        proof {
                            gmode = LexMode::Number(gmode->Number_0.push(cur), dot || cur == '.');
                        }
                        mode = ScanMode::Number(dot || cur == '.');
                        idx = idx + 1;
                        cur = if idx >= count { '\0' } else { self.source_text[idx] };
                        proof {
                            col = col + 1;
                        }
                    } else {
                        proof {
                            let buf = gmode->Number_0;
                            let kind = if dot {
                                TokenKind::FLOAT
                            } else {
                                TokenKind::NUMB
                            };
                            toks = toks.push(spec_token(kind, buf));
                            gmode = LexMode::Normal;
                        }
                        mode = ScanMode::Normal;
                    }
                },
                ScanMode::Str => {
                    if cur != '"' && cur != '\0' {
                        proof {
                            gmode = LexMode::Str(gmode->Str_0.push(cur), gmode->Str_1, gmode->Str_2);
                        }
                    } else if cur == '\0' {
                        return false;
                    } else {
                        proof {
                            toks = toks.push(spec_token(TokenKind::STRING, gmode->Str_0));
                            gmode = LexMode::Normal;
                        }
                        mode = ScanMode::Normal;
                    }
                    idx = idx + 1;
                    cur = if idx >= count { '\0' } else { self.source_text[idx] };
                    proof {
                        col = col + 1;
                    }
                },
            }
        }
    }
}

} // verus!
