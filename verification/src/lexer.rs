//! Lexical analysis: from source characters to tokens.
use vstd::prelude::*;
use crate::text::{
    decimal, debug_char, debug_string, int_decimal, is_alphanumeric, is_whitespace, push_char,
    push_decimal, push_int, push_str, spec_debug_char, spec_debug_str, spec_is_alphanumeric,
    spec_is_whitespace,
};

verus! {

/// A lexical token of the accepted C subset.
#[derive(Debug, PartialEq)]
pub enum Token {
    Int,
    Char,
    Void,
    Return,
    If,
    Else,
    While,
    Do,
    For,
    Break,
    Continue,
    Sizeof,
    Identifier(String),
    IntConst(i64),
    CharConst(char),
    StringConst(String),
    Plus,
    Minus,
    Star,
    Slash,
    Percent,
    Equal,
    EqualEqual,
    NotEqual,
    Less,
    LessEqual,
    Greater,
    GreaterEqual,
    And,
    Or,
    BitAnd,
    BitOr,
    BitXor,
    Not,
    BitNot,
    ShiftLeft,
    ShiftRight,
    Assign,
    PlusAssign,
    MinusAssign,
    StarAssign,
    SlashAssign,
    PercentAssign,
    AndAssign,
    OrAssign,
    XorAssign,
    ShiftLeftAssign,
    ShiftRightAssign,
    Semicolon,
    Comma,
    OpenParen,
    CloseParen,
    OpenBrace,
    CloseBrace,
    OpenBracket,
    CloseBracket,
    Question,
    Colon,
    PlusPlus,
    MinusMinus,
    Arrow,
    Dot,
    EOF,
}

/// The mathematical value of a [`Token`]: names and string literals are character sequences.
pub enum SpecToken {
    Int,
    Char,
    Void,
    Return,
    If,
    Else,
    While,
    Do,
    For,
    Break,
    Continue,
    Sizeof,
    Identifier(Seq<char>),
    IntConst(i64),
    CharConst(char),
    StringConst(Seq<char>),
    Plus,
    Minus,
    Star,
    Slash,
    Percent,
    Equal,
    EqualEqual,
    NotEqual,
    Less,
    LessEqual,
    Greater,
    GreaterEqual,
    And,
    Or,
    BitAnd,
    BitOr,
    BitXor,
    Not,
    BitNot,
    ShiftLeft,
    ShiftRight,
    Assign,
    PlusAssign,
    MinusAssign,
    StarAssign,
    SlashAssign,
    PercentAssign,
    AndAssign,
    OrAssign,
    XorAssign,
    ShiftLeftAssign,
    ShiftRightAssign,
    Semicolon,
    Comma,
    OpenParen,
    CloseParen,
    OpenBrace,
    CloseBrace,
    OpenBracket,
    CloseBracket,
    Question,
    Colon,
    PlusPlus,
    MinusMinus,
    Arrow,
    Dot,
    EOF,
}

impl View for Token {
    type V = SpecToken;

    open spec fn view(&self) -> SpecToken {
        match self {
            Token::Int => SpecToken::Int,
            Token::Char => SpecToken::Char,
            Token::Void => SpecToken::Void,
            Token::Return => SpecToken::Return,
            Token::If => SpecToken::If,
            Token::Else => SpecToken::Else,
            Token::While => SpecToken::While,
            Token::Do => SpecToken::Do,
            Token::For => SpecToken::For,
            Token::Break => SpecToken::Break,
            Token::Continue => SpecToken::Continue,
            Token::Sizeof => SpecToken::Sizeof,
            Token::Plus => SpecToken::Plus,
            Token::Minus => SpecToken::Minus,
            Token::Star => SpecToken::Star,
            Token::Slash => SpecToken::Slash,
            Token::Percent => SpecToken::Percent,
            Token::Equal => SpecToken::Equal,
            Token::EqualEqual => SpecToken::EqualEqual,
            Token::NotEqual => SpecToken::NotEqual,
            Token::Less => SpecToken::Less,
            Token::LessEqual => SpecToken::LessEqual,
            Token::Greater => SpecToken::Greater,
            Token::GreaterEqual => SpecToken::GreaterEqual,
            Token::And => SpecToken::And,
            Token::Or => SpecToken::Or,
            Token::BitAnd => SpecToken::BitAnd,
            Token::BitOr => SpecToken::BitOr,
            Token::BitXor => SpecToken::BitXor,
            Token::Not => SpecToken::Not,
            Token::BitNot => SpecToken::BitNot,
            Token::ShiftLeft => SpecToken::ShiftLeft,
            Token::ShiftRight => SpecToken::ShiftRight,
            Token::Assign => SpecToken::Assign,
            Token::PlusAssign => SpecToken::PlusAssign,
            Token::MinusAssign => SpecToken::MinusAssign,
            Token::StarAssign => SpecToken::StarAssign,
            Token::SlashAssign => SpecToken::SlashAssign,
            Token::PercentAssign => SpecToken::PercentAssign,
            Token::AndAssign => SpecToken::AndAssign,
            Token::OrAssign => SpecToken::OrAssign,
            Token::XorAssign => SpecToken::XorAssign,
            Token::ShiftLeftAssign => SpecToken::ShiftLeftAssign,
            Token::ShiftRightAssign => SpecToken::ShiftRightAssign,
            Token::Semicolon => SpecToken::Semicolon,
            Token::Comma => SpecToken::Comma,
            Token::OpenParen => SpecToken::OpenParen,
            Token::CloseParen => SpecToken::CloseParen,
            Token::OpenBrace => SpecToken::OpenBrace,
            Token::CloseBrace => SpecToken::CloseBrace,
            Token::OpenBracket => SpecToken::OpenBracket,
            Token::CloseBracket => SpecToken::CloseBracket,
            Token::Question => SpecToken::Question,
            Token::Colon => SpecToken::Colon,
            Token::PlusPlus => SpecToken::PlusPlus,
            Token::MinusMinus => SpecToken::MinusMinus,
            Token::Arrow => SpecToken::Arrow,
            Token::Dot => SpecToken::Dot,
            Token::EOF => SpecToken::EOF,
            Token::Identifier(s) => SpecToken::Identifier(s@),
            Token::IntConst(n) => SpecToken::IntConst(*n),
            Token::CharConst(c) => SpecToken::CharConst(*c),
            Token::StringConst(s) => SpecToken::StringConst(s@),
        }
    }
}

impl Clone for Token {
    fn clone(&self) -> (r: Self)
        ensures
            r@ == self@,
    {
        match self {
            Token::Int => Token::Int,
            Token::Char => Token::Char,
            Token::Void => Token::Void,
            Token::Return => Token::Return,
            Token::If => Token::If,
            Token::Else => Token::Else,
            Token::While => Token::While,
            Token::Do => Token::Do,
            Token::For => Token::For,
            Token::Break => Token::Break,
            Token::Continue => Token::Continue,
            Token::Sizeof => Token::Sizeof,
            Token::Plus => Token::Plus,
            Token::Minus => Token::Minus,
            Token::Star => Token::Star,
            Token::Slash => Token::Slash,
            Token::Percent => Token::Percent,
            Token::Equal => Token::Equal,
            Token::EqualEqual => Token::EqualEqual,
            Token::NotEqual => Token::NotEqual,
            Token::Less => Token::Less,
            Token::LessEqual => Token::LessEqual,
            Token::Greater => Token::Greater,
            Token::GreaterEqual => Token::GreaterEqual,
            Token::And => Token::And,
            Token::Or => Token::Or,
            Token::BitAnd => Token::BitAnd,
            Token::BitOr => Token::BitOr,
            Token::BitXor => Token::BitXor,
            Token::Not => Token::Not,
            Token::BitNot => Token::BitNot,
            Token::ShiftLeft => Token::ShiftLeft,
            Token::ShiftRight => Token::ShiftRight,
            Token::Assign => Token::Assign,
            Token::PlusAssign => Token::PlusAssign,
            Token::MinusAssign => Token::MinusAssign,
            Token::StarAssign => Token::StarAssign,
            Token::SlashAssign => Token::SlashAssign,
            Token::PercentAssign => Token::PercentAssign,
            Token::AndAssign => Token::AndAssign,
            Token::OrAssign => Token::OrAssign,
            Token::XorAssign => Token::XorAssign,
            Token::ShiftLeftAssign => Token::ShiftLeftAssign,
            Token::ShiftRightAssign => Token::ShiftRightAssign,
            Token::Semicolon => Token::Semicolon,
            Token::Comma => Token::Comma,
            Token::OpenParen => Token::OpenParen,
            Token::CloseParen => Token::CloseParen,
            Token::OpenBrace => Token::OpenBrace,
            Token::CloseBrace => Token::CloseBrace,
            Token::OpenBracket => Token::OpenBracket,
            Token::CloseBracket => Token::CloseBracket,
            Token::Question => Token::Question,
            Token::Colon => Token::Colon,
            Token::PlusPlus => Token::PlusPlus,
            Token::MinusMinus => Token::MinusMinus,
            Token::Arrow => Token::Arrow,
            Token::Dot => Token::Dot,
            Token::EOF => Token::EOF,
            Token::Identifier(s) => Token::Identifier(s.clone()),
            Token::IntConst(n) => Token::IntConst(*n),
            Token::CharConst(ch) => Token::CharConst(*ch),
            Token::StringConst(s) => Token::StringConst(s.clone()),
        }
    }
}

/// What `format!("{:?}", token)` gives for a token: the variant's name, and for
/// a token that carries a value, that value's own `Debug` rendering in parentheses.
pub open spec fn token_debug(t: SpecToken) -> Seq<char> {
    match t {
        SpecToken::Int => "Int"@,
        SpecToken::Char => "Char"@,
        SpecToken::Void => "Void"@,
        SpecToken::Return => "Return"@,
        SpecToken::If => "If"@,
        SpecToken::Else => "Else"@,
        SpecToken::While => "While"@,
        SpecToken::Do => "Do"@,
        SpecToken::For => "For"@,
        SpecToken::Break => "Break"@,
        SpecToken::Continue => "Continue"@,
        SpecToken::Sizeof => "Sizeof"@,
        SpecToken::Plus => "Plus"@,
        SpecToken::Minus => "Minus"@,
        SpecToken::Star => "Star"@,
        SpecToken::Slash => "Slash"@,
        SpecToken::Percent => "Percent"@,
        SpecToken::Equal => "Equal"@,
        SpecToken::EqualEqual => "EqualEqual"@,
        SpecToken::NotEqual => "NotEqual"@,
        SpecToken::Less => "Less"@,
        SpecToken::LessEqual => "LessEqual"@,
        SpecToken::Greater => "Greater"@,
        SpecToken::GreaterEqual => "GreaterEqual"@,
        SpecToken::And => "And"@,
        SpecToken::Or => "Or"@,
        SpecToken::BitAnd => "BitAnd"@,
        SpecToken::BitOr => "BitOr"@,
        SpecToken::BitXor => "BitXor"@,
        SpecToken::Not => "Not"@,
        SpecToken::BitNot => "BitNot"@,
        SpecToken::ShiftLeft => "ShiftLeft"@,
        SpecToken::ShiftRight => "ShiftRight"@,
        SpecToken::Assign => "Assign"@,
        SpecToken::PlusAssign => "PlusAssign"@,
        SpecToken::MinusAssign => "MinusAssign"@,
        SpecToken::StarAssign => "StarAssign"@,
        SpecToken::SlashAssign => "SlashAssign"@,
        SpecToken::PercentAssign => "PercentAssign"@,
        SpecToken::AndAssign => "AndAssign"@,
        SpecToken::OrAssign => "OrAssign"@,
        SpecToken::XorAssign => "XorAssign"@,
        SpecToken::ShiftLeftAssign => "ShiftLeftAssign"@,
        SpecToken::ShiftRightAssign => "ShiftRightAssign"@,
        SpecToken::Semicolon => "Semicolon"@,
        SpecToken::Comma => "Comma"@,
        SpecToken::OpenParen => "OpenParen"@,
        SpecToken::CloseParen => "CloseParen"@,
        SpecToken::OpenBrace => "OpenBrace"@,
        SpecToken::CloseBrace => "CloseBrace"@,
        SpecToken::OpenBracket => "OpenBracket"@,
        SpecToken::CloseBracket => "CloseBracket"@,
        SpecToken::Question => "Question"@,
        SpecToken::Colon => "Colon"@,
        SpecToken::PlusPlus => "PlusPlus"@,
        SpecToken::MinusMinus => "MinusMinus"@,
        SpecToken::Arrow => "Arrow"@,
        SpecToken::Dot => "Dot"@,
        SpecToken::EOF => "EOF"@,
        SpecToken::Identifier(s) => "Identifier("@ + spec_debug_str(s) + ")"@,
        SpecToken::IntConst(n) => "IntConst("@ + int_decimal(n as int) + ")"@,
        SpecToken::CharConst(c) => "CharConst("@ + spec_debug_char(c) + ")"@,
        SpecToken::StringConst(s) => "StringConst("@ + spec_debug_str(s) + ")"@,
    }
}

/// Renders a token as `format!("{:?}", token)` does.
pub fn debug_token(t: &Token) -> (r: String)
    ensures
        r@ == token_debug(t@),
{
    match t {
        Token::Int => String::from_str("Int"),
        Token::Char => String::from_str("Char"),
        Token::Void => String::from_str("Void"),
        Token::Return => String::from_str("Return"),
        Token::If => String::from_str("If"),
        Token::Else => String::from_str("Else"),
        Token::While => String::from_str("While"),
        Token::Do => String::from_str("Do"),
        Token::For => String::from_str("For"),
        Token::Break => String::from_str("Break"),
        Token::Continue => String::from_str("Continue"),
        Token::Sizeof => String::from_str("Sizeof"),
        Token::Plus => String::from_str("Plus"),
        Token::Minus => String::from_str("Minus"),
        Token::Star => String::from_str("Star"),
        Token::Slash => String::from_str("Slash"),
        Token::Percent => String::from_str("Percent"),
        Token::Equal => String::from_str("Equal"),
        Token::EqualEqual => String::from_str("EqualEqual"),
        Token::NotEqual => String::from_str("NotEqual"),
        Token::Less => String::from_str("Less"),
        Token::LessEqual => String::from_str("LessEqual"),
        Token::Greater => String::from_str("Greater"),
        Token::GreaterEqual => String::from_str("GreaterEqual"),
        Token::And => String::from_str("And"),
        Token::Or => String::from_str("Or"),
        Token::BitAnd => String::from_str("BitAnd"),
        Token::BitOr => String::from_str("BitOr"),
        Token::BitXor => String::from_str("BitXor"),
        Token::Not => String::from_str("Not"),
        Token::BitNot => String::from_str("BitNot"),
        Token::ShiftLeft => String::from_str("ShiftLeft"),
        Token::ShiftRight => String::from_str("ShiftRight"),
        Token::Assign => String::from_str("Assign"),
        Token::PlusAssign => String::from_str("PlusAssign"),
        Token::MinusAssign => String::from_str("MinusAssign"),
        Token::StarAssign => String::from_str("StarAssign"),
        Token::SlashAssign => String::from_str("SlashAssign"),
        Token::PercentAssign => String::from_str("PercentAssign"),
        Token::AndAssign => String::from_str("AndAssign"),
        Token::OrAssign => String::from_str("OrAssign"),
        Token::XorAssign => String::from_str("XorAssign"),
        Token::ShiftLeftAssign => String::from_str("ShiftLeftAssign"),
        Token::ShiftRightAssign => String::from_str("ShiftRightAssign"),
        Token::Semicolon => String::from_str("Semicolon"),
        Token::Comma => String::from_str("Comma"),
        Token::OpenParen => String::from_str("OpenParen"),
        Token::CloseParen => String::from_str("CloseParen"),
        Token::OpenBrace => String::from_str("OpenBrace"),
        Token::CloseBrace => String::from_str("CloseBrace"),
        Token::OpenBracket => String::from_str("OpenBracket"),
        Token::CloseBracket => String::from_str("CloseBracket"),
        Token::Question => String::from_str("Question"),
        Token::Colon => String::from_str("Colon"),
        Token::PlusPlus => String::from_str("PlusPlus"),
        Token::MinusMinus => String::from_str("MinusMinus"),
        Token::Arrow => String::from_str("Arrow"),
        Token::Dot => String::from_str("Dot"),
        Token::EOF => String::from_str("EOF"),
        Token::Identifier(s) => {
            let mut r = String::from_str("Identifier(");
            let d = debug_string(s);
            push_str(&mut r, d.as_str());
            push_str(&mut r, ")");
            r
        },
        Token::IntConst(n) => {
            let mut r = String::from_str("IntConst(");
            push_int(&mut r, *n);
            push_str(&mut r, ")");
            r
        },
        Token::CharConst(c) => {
            let mut r = String::from_str("CharConst(");
            let d = debug_char(*c);
            push_str(&mut r, d.as_str());
            push_str(&mut r, ")");
            r
        },
        Token::StringConst(s) => {
            let mut r = String::from_str("StringConst(");
            let d = debug_string(s);
            push_str(&mut r, d.as_str());
            push_str(&mut r, ")");
            r
        },
    }
}

/// Decides whether two tokens are the same token (same variant, same value).
pub fn same_token(a: &Token, b: &Token) -> (r: bool)
    ensures
        r == (a@ == b@),
{
    match a {
        Token::Int => match b {
            Token::Int => true,
            _ => false,
        },
        Token::Char => match b {
            Token::Char => true,
            _ => false,
        },
        Token::Void => match b {
            Token::Void => true,
            _ => false,
        },
        Token::Return => match b {
            Token::Return => true,
            _ => false,
        },
        Token::If => match b {
            Token::If => true,
            _ => false,
        },
        Token::Else => match b {
            Token::Else => true,
            _ => false,
        },
        Token::While => match b {
            Token::While => true,
            _ => false,
        },
        Token::Do => match b {
            Token::Do => true,
            _ => false,
        },
        Token::For => match b {
            Token::For => true,
            _ => false,
        },
        Token::Break => match b {
            Token::Break => true,
            _ => false,
        },
        Token::Continue => match b {
            Token::Continue => true,
            _ => false,
        },
        Token::Sizeof => match b {
            Token::Sizeof => true,
            _ => false,
        },
        Token::Plus => match b {
            Token::Plus => true,
            _ => false,
        },
        Token::Minus => match b {
            Token::Minus => true,
            _ => false,
        },
        Token::Star => match b {
            Token::Star => true,
            _ => false,
        },
        Token::Slash => match b {
            Token::Slash => true,
            _ => false,
        },
        Token::Percent => match b {
            Token::Percent => true,
            _ => false,
        },
        Token::Equal => match b {
            Token::Equal => true,
            _ => false,
        },
        Token::EqualEqual => match b {
            Token::EqualEqual => true,
            _ => false,
        },
        Token::NotEqual => match b {
            Token::NotEqual => true,
            _ => false,
        },
        Token::Less => match b {
            Token::Less => true,
            _ => false,
        },
        Token::LessEqual => match b {
            Token::LessEqual => true,
            _ => false,
        },
        Token::Greater => match b {
            Token::Greater => true,
            _ => false,
        },
        Token::GreaterEqual => match b {
            Token::GreaterEqual => true,
            _ => false,
        },
        Token::And => match b {
            Token::And => true,
            _ => false,
        },
        Token::Or => match b {
            Token::Or => true,
            _ => false,
        },
        Token::BitAnd => match b {
            Token::BitAnd => true,
            _ => false,
        },
        Token::BitOr => match b {
            Token::BitOr => true,
            _ => false,
        },
        Token::BitXor => match b {
            Token::BitXor => true,
            _ => false,
        },
        Token::Not => match b {
            Token::Not => true,
            _ => false,
        },
        Token::BitNot => match b {
            Token::BitNot => true,
            _ => false,
        },
        Token::ShiftLeft => match b {
            Token::ShiftLeft => true,
            _ => false,
        },
        Token::ShiftRight => match b {
            Token::ShiftRight => true,
            _ => false,
        },
        Token::Assign => match b {
            Token::Assign => true,
            _ => false,
        },
        Token::PlusAssign => match b {
            Token::PlusAssign => true,
            _ => false,
        },
        Token::MinusAssign => match b {
            Token::MinusAssign => true,
            _ => false,
        },
        Token::StarAssign => match b {
            Token::StarAssign => true,
            _ => false,
        },
        Token::SlashAssign => match b {
            Token::SlashAssign => true,
            _ => false,
        },
        Token::PercentAssign => match b {
            Token::PercentAssign => true,
            _ => false,
        },
        Token::AndAssign => match b {
            Token::AndAssign => true,
            _ => false,
        },
        Token::OrAssign => match b {
            Token::OrAssign => true,
            _ => false,
        },
        Token::XorAssign => match b {
            Token::XorAssign => true,
            _ => false,
        },
        Token::ShiftLeftAssign => match b {
            Token::ShiftLeftAssign => true,
            _ => false,
        },
        Token::ShiftRightAssign => match b {
            Token::ShiftRightAssign => true,
            _ => false,
        },
        Token::Semicolon => match b {
            Token::Semicolon => true,
            _ => false,
        },
        Token::Comma => match b {
            Token::Comma => true,
            _ => false,
        },
        Token::OpenParen => match b {
            Token::OpenParen => true,
            _ => false,
        },
        Token::CloseParen => match b {
            Token::CloseParen => true,
            _ => false,
        },
        Token::OpenBrace => match b {
            Token::OpenBrace => true,
            _ => false,
        },
        Token::CloseBrace => match b {
            Token::CloseBrace => true,
            _ => false,
        },
        Token::OpenBracket => match b {
            Token::OpenBracket => true,
            _ => false,
        },
        Token::CloseBracket => match b {
            Token::CloseBracket => true,
            _ => false,
        },
        Token::Question => match b {
            Token::Question => true,
            _ => false,
        },
        Token::Colon => match b {
            Token::Colon => true,
            _ => false,
        },
        Token::PlusPlus => match b {
            Token::PlusPlus => true,
            _ => false,
        },
        Token::MinusMinus => match b {
            Token::MinusMinus => true,
            _ => false,
        },
        Token::Arrow => match b {
            Token::Arrow => true,
            _ => false,
        },
        Token::Dot => match b {
            Token::Dot => true,
            _ => false,
        },
        Token::EOF => match b {
            Token::EOF => true,
            _ => false,
        },
        Token::Identifier(x) => match b {
            Token::Identifier(y) => *x == *y,
            _ => false,
        },
        Token::IntConst(x) => match b {
            Token::IntConst(y) => *x == *y,
            _ => false,
        },
        Token::CharConst(x) => match b {
            Token::CharConst(y) => *x == *y,
            _ => false,
        },
        Token::StringConst(x) => match b {
            Token::StringConst(y) => *x == *y,
            _ => false,
        },
    }
}

/// The tokens of a token vector, as values.
pub open spec fn tokens_view(v: Seq<Token>) -> Seq<SpecToken> {
    Seq::new(v.len(), |i: int| v[i]@)
}

/// A token or an error message, as values.
pub open spec fn token_result_view(r: Result<Token, String>) -> Result<SpecToken, Seq<char>> {
    match r {
        Ok(t) => Ok(t@),
        Err(e) => Err(e@),
    }
}

/// The state of a lexer: the input, the index of the next character, and the
/// line and column (both counted from 1) at which that character stands.
pub struct LexModel {
    pub input: Seq<char>,
    pub pos: int,
    pub line: int,
    pub column: int,
}

/// The state in which lexing of `input` starts.
pub open spec fn lex_start(input: Seq<char>) -> LexModel {
    LexModel { input, pos: 0, line: 1, column: 1 }
}

/// The number of newline characters in `s`.
pub open spec fn newlines(s: Seq<char>) -> int
    decreases s.len(),
{
    if s.len() == 0 {
        0
    } else {
        newlines(s.drop_last()) + if s.last() == '\n' {
            1int
        } else {
            0int
        }
    }
}

/// The number of characters of `s` after its last newline (all of them when it
/// has none).
pub open spec fn chars_since_newline(s: Seq<char>) -> int
    decreases s.len(),
{
    if s.len() == 0 {
        0
    } else if s.last() == '\n' {
        0
    } else {
        chars_since_newline(s.drop_last()) + 1
    }
}

/// The states a lexer can be in: the position lies in the input; the line is one
/// more than the number of newlines read so far, and the column one more than the
/// number of characters read since the last of them; and the counters stay small
/// enough to be advanced without overflow.
pub open spec fn lex_wf(m: LexModel) -> bool {
    &&& 0 <= m.pos <= m.input.len()
    &&& m.line == 1 + newlines(m.input.take(m.pos))
    &&& m.column == 1 + chars_since_newline(m.input.take(m.pos))
    &&& 1 <= m.line
    &&& 1 <= m.column
    &&& m.line + m.column <= m.pos + 2
    &&& m.input.len() + 2 <= usize::MAX
}

/// A lexer starts in a well-formed state on every input whose length leaves room
/// for its counters: on line 1, column 1.
pub proof fn lemma_start_wf(input: Seq<char>)
    requires
        input.len() + 2 <= usize::MAX,
    ensures
        lex_wf(lex_start(input)),
{
    assert(input.take(0) =~= Seq::<char>::empty());
}

/// Reading one character keeps the state well formed: the line and column go on
/// counting the newlines and the characters since the last one.
pub broadcast proof fn lemma_advance_keeps_wf(m: LexModel)
    requires
        lex_wf(m),
    ensures
        #[trigger] lex_wf(lex_advance(m)),
{
    if 0 <= m.pos < m.input.len() {
        assert(m.input.take(m.pos + 1).drop_last() =~= m.input.take(m.pos));
        assert(m.input.take(m.pos + 1).last() == m.input[m.pos]);
    }
}

/// The next character, if any.
pub open spec fn lex_peek(m: LexModel) -> Option<char> {
    if 0 <= m.pos < m.input.len() {
        Some(m.input[m.pos])
    } else {
        None
    }
}

/// The character after the next one, if any.
pub open spec fn lex_peek_second(m: LexModel) -> Option<char> {
    if 0 <= m.pos && m.pos + 1 < m.input.len() {
        Some(m.input[m.pos + 1])
    } else {
        None
    }
}

/// Consumes one character: a newline starts the next line at column 1, any
/// other character moves one column on. At the end of the input nothing changes.
pub open spec fn lex_advance(m: LexModel) -> LexModel {
    if 0 <= m.pos < m.input.len() {
        if m.input[m.pos] == '\n' {
            LexModel { pos: m.pos + 1, line: m.line + 1, column: 1, ..m }
        } else {
            LexModel { pos: m.pos + 1, column: m.column + 1, ..m }
        }
    } else {
        m
    }
}

/// Skips white space, `//` comments (up to and including the newline) and
/// `/* */` comments (an unclosed one runs to the end of the input).
pub open spec fn skip_trivia(m: LexModel) -> LexModel
    decreases m.input.len() - m.pos, 1nat,
{
    if 0 <= m.pos < m.input.len() {
        let c = m.input[m.pos];
        if spec_is_whitespace(c) {
            skip_trivia(lex_advance(m))
        } else if c == '/' && lex_peek_second(m) == Some('/') {
            skip_line_comment(m)
        } else if c == '/' && lex_peek_second(m) == Some('*') {
            skip_block_comment(lex_advance(lex_advance(m)))
        } else {
            m
        }
    } else {
        m
    }
}

/// Inside a `//` comment: skips up to and including the next newline, then goes on
/// skipping white space and comments.
pub open spec fn skip_line_comment(m: LexModel) -> LexModel
    decreases m.input.len() - m.pos, 0nat,
{
    if 0 <= m.pos < m.input.len() {
        let c = m.input[m.pos];
        let n = lex_advance(m);
        if c == '\n' {
            skip_trivia(n)
        } else {
            skip_line_comment(n)
        }
    } else {
        m
    }
}

/// Inside a `/* */` comment: skips up to and including the next `*/`, then goes
/// on skipping white space and comments.
pub open spec fn skip_block_comment(m: LexModel) -> LexModel
    decreases m.input.len() - m.pos, 0nat,
{
    if 0 <= m.pos < m.input.len() {
        let c = m.input[m.pos];
        let n = lex_advance(m);
        if c == '*' && lex_peek(n) == Some('/') {
            skip_trivia(lex_advance(n))
        } else {
            skip_block_comment(n)
        }
    } else {
        m
    }
}

/// An ASCII decimal digit.
pub open spec fn is_digit(c: char) -> bool {
    '0' <= c <= '9'
}

/// Reads a run of digits, accumulating `value * 10 + digit` with wrapping
/// (two's complement) arithmetic.
pub open spec fn lex_digits(m: LexModel, value: i64) -> (i64, LexModel)
    decreases m.input.len() - m.pos,
{
    if 0 <= m.pos < m.input.len() && is_digit(m.input[m.pos]) {
        let d: i64 = (m.input[m.pos] as int - '0' as int) as i64;
        lex_digits(lex_advance(m), value.wrapping_mul(10).wrapping_add(d))
    } else {
        (value, m)
    }
}

/// The message when a number was expected.
pub open spec fn expected_number(line: int, column: int) -> Seq<char> {
    "Expected number at line "@ + decimal(line as nat) + ", column "@ + decimal(column as nat)
}

/// Reads a number: the value of its digits (wrapping around in 64 bits), or an
/// error, with nothing read, when the next character is no digit.
pub open spec fn lex_read_number(m: LexModel) -> (Result<SpecToken, Seq<char>>, LexModel) {
    if lex_peek(m) matches Some(c) && is_digit(c) {
        let (v, m1) = lex_digits(m, 0);
        (Ok(SpecToken::IntConst(v)), m1)
    } else {
        (Err(expected_number(m.line, m.column)), m)
    }
}

/// A character that continues an identifier: `char::is_alphanumeric` or `_`.
/// Of ASCII characters, that is the letters, the digits and `_`.
pub open spec fn is_ident_char(c: char) -> bool {
    if c <= '\x7f' {
        is_ident_start(c) || is_digit(c)
    } else {
        spec_is_alphanumeric(c)
    }
}

/// Reads the characters of an identifier after those in `acc`.
pub open spec fn lex_ident_chars(m: LexModel, acc: Seq<char>) -> (Seq<char>, LexModel)
    decreases m.input.len() - m.pos,
{
    if 0 <= m.pos < m.input.len() && is_ident_char(m.input[m.pos]) {
        lex_ident_chars(lex_advance(m), acc.push(m.input[m.pos]))
    } else {
        (acc, m)
    }
}

/// The keyword spelled by `s`, or an identifier named `s`.
pub open spec fn keyword_or_identifier(s: Seq<char>) -> SpecToken {
    if s == "int"@ {
        SpecToken::Int
    } else if s == "char"@ {
        SpecToken::Char
    } else if s == "void"@ {
        SpecToken::Void
    } else if s == "return"@ {
        SpecToken::Return
    } else if s == "if"@ {
        SpecToken::If
    } else if s == "else"@ {
        SpecToken::Else
    } else if s == "while"@ {
        SpecToken::While
    } else if s == "do"@ {
        SpecToken::Do
    } else if s == "for"@ {
        SpecToken::For
    } else if s == "break"@ {
        SpecToken::Break
    } else if s == "continue"@ {
        SpecToken::Continue
    } else if s == "sizeof"@ {
        SpecToken::Sizeof
    } else {
        SpecToken::Identifier(s)
    }
}

/// The character that a backslash followed by `e` stands for in a string literal.
pub open spec fn escape_in_string(e: char) -> char {
    if e == 'n' {
        '\n'
    } else if e == 't' {
        '\t'
    } else if e == 'r' {
        '\r'
    } else {
        e
    }
}

/// The character that a backslash followed by `e` stands for in a character literal.
pub open spec fn escape_in_char(e: char) -> char {
    if e == '0' {
        '\0'
    } else {
        escape_in_string(e)
    }
}

/// The message for a string literal that the input ends in.
pub open spec fn unterminated_string(line: int) -> Seq<char> {
    "Unterminated string literal at line "@ + decimal(line as nat)
}

/// The message for a character literal that is cut short or not closed.
pub open spec fn unterminated_char(line: int) -> Seq<char> {
    "Unterminated character literal at line "@ + decimal(line as nat)
}

/// The message for a character that starts no token.
pub open spec fn unexpected_char(c: char, line: int, column: int) -> Seq<char> {
    "Unexpected character '"@ + seq![c] + "' at line "@ + decimal(line as nat) + ", column "@
        + decimal(column as nat)
}

/// Reads the body of a string literal (after the opening quote) up to and
/// including the closing quote; `acc` holds the characters read so far.
pub open spec fn lex_string_body(m: LexModel, acc: Seq<char>) -> (
    Result<SpecToken, Seq<char>>,
    LexModel,
)
    decreases m.input.len() - m.pos,
{
    if 0 <= m.pos < m.input.len() {
        let c = m.input[m.pos];
        if c == '"' {
            (Ok(SpecToken::StringConst(acc)), lex_advance(m))
        } else if c == '\\' {
            let n = lex_advance(m);
            if 0 <= n.pos < n.input.len() {
                lex_string_body(lex_advance(n), acc.push(escape_in_string(n.input[n.pos])))
            } else {
                lex_string_body(n, acc)
            }
        } else {
            lex_string_body(lex_advance(m), acc.push(c))
        }
    } else {
        (Err(unterminated_string(m.line)), m)
    }
}

/// Reads a character literal, `m` standing at its opening quote.
pub open spec fn lex_char_literal(m: LexModel) -> (Result<SpecToken, Seq<char>>, LexModel) {
    let m1 = lex_advance(m);
    let m2 = lex_advance(m1);
    match lex_peek(m1) {
        None => (Err(unterminated_char(m2.line)), m2),
        Some(c) => {
            if c == '\\' && lex_peek(m2) is None {
                (Err(unterminated_char(m2.line)), m2)
            } else {
                let ch = if c == '\\' {
                    escape_in_char(lex_peek(m2)->0)
                } else {
                    c
                };
                let m3 = if c == '\\' {
                    lex_advance(m2)
                } else {
                    m2
                };
                let m4 = lex_advance(m3);
                if lex_peek(m3) == Some('\'') {
                    (Ok(SpecToken::CharConst(ch)), m4)
                } else {
                    (Err(unterminated_char(m4.line)), m4)
                }
            }
        },
    }
}

/// After a one-character operator whose state is `m1`: when the next character
/// is `second`, the two-character token `two` (consuming it), else `one`.
pub open spec fn lex_one_or_two(m1: LexModel, second: char, two: SpecToken, one: SpecToken) -> (
    Result<SpecToken, Seq<char>>,
    LexModel,
) {
    if lex_peek(m1) == Some(second) {
        (Ok(two), lex_advance(m1))
    } else {
        (Ok(one), m1)
    }
}

/// Reads an operator or a punctuation mark, `m` standing at its first character.
pub open spec fn lex_operator(m: LexModel) -> (Result<SpecToken, Seq<char>>, LexModel) {
    let c = m.input[m.pos];
    let m1 = lex_advance(m);
    let nx = lex_peek(m1);
    if c == '+' {
        if nx == Some('+') {
            (Ok(SpecToken::PlusPlus), lex_advance(m1))
        } else {
            lex_one_or_two(m1, '=', SpecToken::PlusAssign, SpecToken::Plus)
        }
    } else if c == '-' {
        if nx == Some('>') {
            (Ok(SpecToken::Arrow), lex_advance(m1))
        } else if nx == Some('-') {
            (Ok(SpecToken::MinusMinus), lex_advance(m1))
        } else {
            lex_one_or_two(m1, '=', SpecToken::MinusAssign, SpecToken::Minus)
        }
    } else if c == '*' {
        lex_one_or_two(m1, '=', SpecToken::StarAssign, SpecToken::Star)
    } else if c == '/' {
        lex_one_or_two(m1, '=', SpecToken::SlashAssign, SpecToken::Slash)
    } else if c == '%' {
        lex_one_or_two(m1, '=', SpecToken::PercentAssign, SpecToken::Percent)
    } else if c == '=' {
        lex_one_or_two(m1, '=', SpecToken::EqualEqual, SpecToken::Assign)
    } else if c == '!' {
        lex_one_or_two(m1, '=', SpecToken::NotEqual, SpecToken::Not)
    } else if c == '<' {
        if nx == Some('=') {
            (Ok(SpecToken::LessEqual), lex_advance(m1))
        } else if nx == Some('<') {
            lex_one_or_two(
                lex_advance(m1),
                '=',
                SpecToken::ShiftLeftAssign,
                SpecToken::ShiftLeft,
            )
        } else {
            (Ok(SpecToken::Less), m1)
        }
    } else if c == '>' {
        if nx == Some('=') {
            (Ok(SpecToken::GreaterEqual), lex_advance(m1))
        } else if nx == Some('>') {
            lex_one_or_two(
                lex_advance(m1),
                '=',
                SpecToken::ShiftRightAssign,
                SpecToken::ShiftRight,
            )
        } else {
            (Ok(SpecToken::Greater), m1)
        }
    } else if c == '&' {
        if nx == Some('&') {
            (Ok(SpecToken::And), lex_advance(m1))
        } else {
            lex_one_or_two(m1, '=', SpecToken::AndAssign, SpecToken::BitAnd)
        }
    } else if c == '|' {
        if nx == Some('|') {
            (Ok(SpecToken::Or), lex_advance(m1))
        } else {
            lex_one_or_two(m1, '=', SpecToken::OrAssign, SpecToken::BitOr)
        }
    } else if c == '^' {
        lex_one_or_two(m1, '=', SpecToken::XorAssign, SpecToken::BitXor)
    } else if c == '~' {
        (Ok(SpecToken::BitNot), m1)
    } else if c == ';' {
        (Ok(SpecToken::Semicolon), m1)
    } else if c == ',' {
        (Ok(SpecToken::Comma), m1)
    } else if c == '(' {
        (Ok(SpecToken::OpenParen), m1)
    } else if c == ')' {
        (Ok(SpecToken::CloseParen), m1)
    } else if c == '{' {
        (Ok(SpecToken::OpenBrace), m1)
    } else if c == '}' {
        (Ok(SpecToken::CloseBrace), m1)
    } else if c == '[' {
        (Ok(SpecToken::OpenBracket), m1)
    } else if c == ']' {
        (Ok(SpecToken::CloseBracket), m1)
    } else if c == '?' {
        (Ok(SpecToken::Question), m1)
    } else if c == ':' {
        (Ok(SpecToken::Colon), m1)
    } else if c == '.' {
        (Ok(SpecToken::Dot), m1)
    } else {
        (Err(unexpected_char(c, m1.line, m1.column)), m1)
    }
}

/// A character that starts an identifier or a keyword.
pub open spec fn is_ident_start(c: char) -> bool {
    'a' <= c <= 'z' || 'A' <= c <= 'Z' || c == '_'
}

/// The next token after white space and comments, with the state after it;
/// `EOF` when the input is used up.
pub open spec fn lex_next_token(m: LexModel) -> (Result<SpecToken, Seq<char>>, LexModel) {
    let m0 = skip_trivia(m);
    if 0 <= m0.pos < m0.input.len() {
        let c = m0.input[m0.pos];
        if is_digit(c) {
            lex_read_number(m0)
        } else if is_ident_start(c) {
            let (s, m1) = lex_ident_chars(m0, seq![]);
            (Ok(keyword_or_identifier(s)), m1)
        } else if c == '"' {
            lex_string_body(lex_advance(m0), seq![])
        } else if c == '\'' {
            lex_char_literal(m0)
        } else {
            lex_operator(m0)
        }
    } else {
        (Ok(SpecToken::EOF), m0)
    }
}

/// All the tokens from state `m` up to the end of the input (without `EOF`), or
/// the first error.
pub open spec fn tokenize_from(m: LexModel) -> Result<Seq<SpecToken>, Seq<char>>
    decreases m.input.len() - m.pos,
    via tokenize_from_decreases
{
    let (r, m1) = lex_next_token(m);
    match r {
        Err(e) => Err(e),
        Ok(t) => {
            if t is EOF {
                Ok(seq![])
            } else {
                match tokenize_from(m1) {
                    Ok(ts) => Ok(seq![t] + ts),
                    Err(e) => Err(e),
                }
            }
        },
    }
}

/// The tokens of a whole input, or the first lexical error.
pub open spec fn spec_tokenize(input: Seq<char>) -> Result<Seq<SpecToken>, Seq<char>> {
    tokenize_from(lex_start(input))
}


proof fn lemma_skip_trivia_bounds(m: LexModel)
    requires
        0 <= m.pos <= m.input.len(),
    ensures
        skip_trivia(m).input == m.input,
        m.pos <= skip_trivia(m).pos <= m.input.len(),
        lex_wf(m) ==> lex_wf(skip_trivia(m)),
    decreases m.input.len() - m.pos, 1nat,
{
    broadcast use lemma_advance_keeps_wf;

    if 0 <= m.pos < m.input.len() {
        let c = m.input[m.pos];
        if spec_is_whitespace(c) {
            lemma_skip_trivia_bounds(lex_advance(m));
        } else if c == '/' && lex_peek_second(m) == Some('/') {
            lemma_skip_line_comment_bounds(m);
        } else if c == '/' && lex_peek_second(m) == Some('*') {
            lemma_skip_block_comment_bounds(lex_advance(lex_advance(m)));
        }
    }
}

proof fn lemma_skip_line_comment_bounds(m: LexModel)
    requires
        0 <= m.pos <= m.input.len(),
    ensures
        skip_line_comment(m).input == m.input,
        m.pos <= skip_line_comment(m).pos <= m.input.len(),
        lex_wf(m) ==> lex_wf(skip_line_comment(m)),
    decreases m.input.len() - m.pos, 0nat,
{
    broadcast use lemma_advance_keeps_wf;

    if 0 <= m.pos < m.input.len() {
        let c = m.input[m.pos];
        if c == '\n' {
            lemma_skip_trivia_bounds(lex_advance(m));
        } else {
            lemma_skip_line_comment_bounds(lex_advance(m));
        }
    }
}

proof fn lemma_skip_block_comment_bounds(m: LexModel)
    requires
        0 <= m.pos <= m.input.len(),
    ensures
        skip_block_comment(m).input == m.input,
        m.pos <= skip_block_comment(m).pos <= m.input.len(),
        lex_wf(m) ==> lex_wf(skip_block_comment(m)),
    decreases m.input.len() - m.pos, 0nat,
{
    broadcast use lemma_advance_keeps_wf;

    if 0 <= m.pos < m.input.len() {
        let c = m.input[m.pos];
        let n = lex_advance(m);
        if c == '*' && lex_peek(n) == Some('/') {
            lemma_skip_trivia_bounds(lex_advance(n));
        } else {
            lemma_skip_block_comment_bounds(n);
        }
    }
}

proof fn lemma_digits_bounds(m: LexModel, value: i64)
    requires
        0 <= m.pos <= m.input.len(),
    ensures
        lex_digits(m, value).1.input == m.input,
        m.pos <= lex_digits(m, value).1.pos <= m.input.len(),
        lex_peek(m) matches Some(c) && is_digit(c) ==> m.pos < lex_digits(m, value).1.pos,
        lex_wf(m) ==> lex_wf(lex_digits(m, value).1),
    decreases m.input.len() - m.pos,
{
    broadcast use lemma_advance_keeps_wf;

    if 0 <= m.pos < m.input.len() && is_digit(m.input[m.pos]) {
        let d: i64 = (m.input[m.pos] as int - '0' as int) as i64;
        lemma_digits_bounds(lex_advance(m), value.wrapping_mul(10).wrapping_add(d));
    }
}

proof fn lemma_ident_chars_bounds(m: LexModel, acc: Seq<char>)
    requires
        0 <= m.pos <= m.input.len(),
    ensures
        lex_ident_chars(m, acc).1.input == m.input,
        m.pos <= lex_ident_chars(m, acc).1.pos <= m.input.len(),
        lex_peek(m) matches Some(c) && is_ident_char(c) ==> m.pos < lex_ident_chars(m, acc).1.pos,
        lex_wf(m) ==> lex_wf(lex_ident_chars(m, acc).1),
    decreases m.input.len() - m.pos,
{
    broadcast use lemma_advance_keeps_wf;

    if 0 <= m.pos < m.input.len() && is_ident_char(m.input[m.pos]) {
        lemma_ident_chars_bounds(lex_advance(m), acc.push(m.input[m.pos]));
    }
}

proof fn lemma_string_body_bounds(m: LexModel, acc: Seq<char>)
    requires
        0 <= m.pos <= m.input.len(),
    ensures
        lex_string_body(m, acc).1.input == m.input,
        m.pos <= lex_string_body(m, acc).1.pos <= m.input.len(),
        lex_wf(m) ==> lex_wf(lex_string_body(m, acc).1),
    decreases m.input.len() - m.pos,
{
    broadcast use lemma_advance_keeps_wf;

    if 0 <= m.pos < m.input.len() {
        let c = m.input[m.pos];
        if c == '"' {
        } else if c == '\\' {
            let n = lex_advance(m);
            if 0 <= n.pos < n.input.len() {
                lemma_string_body_bounds(
                    lex_advance(n),
                    acc.push(escape_in_string(n.input[n.pos])),
                );
            } else {
                lemma_string_body_bounds(n, acc);
            }
        } else {
            lemma_string_body_bounds(lex_advance(m), acc.push(c));
        }
    }
}

/// Reading a token never moves backwards nor past the end of the input, and a
/// token other than `EOF` consumes at least one character.
pub proof fn lemma_next_token_progress(m: LexModel)
    requires
        0 <= m.pos <= m.input.len(),
    ensures
        lex_next_token(m).1.input == m.input,
        m.pos <= lex_next_token(m).1.pos <= m.input.len(),
        lex_next_token(m).0 matches Ok(t) && !(t is EOF) ==> m.pos < lex_next_token(m).1.pos,
{
    lemma_skip_trivia_bounds(m);
    let m0 = skip_trivia(m);
    if 0 <= m0.pos < m0.input.len() {
        let c = m0.input[m0.pos];
        if is_digit(c) {
            lemma_digits_bounds(m0, 0);
        } else if is_ident_start(c) {
            lemma_ident_chars_bounds(m0, seq![]);
        } else if c == '"' {
            lemma_string_body_bounds(lex_advance(m0), seq![]);
        }
    }
}

/// Reading a token from a well-formed state leaves a well-formed state: the line
/// and column go on counting the newlines read and the characters read since the
/// last of them.
pub proof fn lemma_next_token_keeps_wf(m: LexModel)
    requires
        lex_wf(m),
    ensures
        lex_wf(lex_next_token(m).1),
{
    broadcast use lemma_advance_keeps_wf;

    lemma_skip_trivia_bounds(m);
    let m0 = skip_trivia(m);
    if 0 <= m0.pos < m0.input.len() {
        let c = m0.input[m0.pos];
        if is_digit(c) {
            lemma_digits_bounds(m0, 0);
        } else if is_ident_start(c) {
            lemma_ident_chars_bounds(m0, seq![]);
        } else if c == '"' {
            lemma_string_body_bounds(lex_advance(m0), seq![]);
        }
    }
}

/// `EOF` comes exactly when nothing but white space and comments is left; the
/// whole input has then been read.
pub proof fn lemma_eof_iff_only_trivia_left(m: LexModel)
    requires
        0 <= m.pos <= m.input.len(),
    ensures
        (lex_next_token(m).0 == Ok::<SpecToken, Seq<char>>(SpecToken::EOF)) <==> skip_trivia(m).pos
            == m.input.len(),
        lex_next_token(m).0 == Ok::<SpecToken, Seq<char>>(SpecToken::EOF) ==> lex_next_token(
            m,
        ).1.pos == m.input.len(),
{
    lemma_skip_trivia_bounds(m);
    let m0 = skip_trivia(m);
    if 0 <= m0.pos < m0.input.len() {
        let c = m0.input[m0.pos];
        if is_ident_start(c) && !is_digit(c) {
            let s = lex_ident_chars(m0, seq![]).0;
            assert(keyword_or_identifier(s) != SpecToken::EOF);
        } else if c == '"' {
            lemma_string_body_shape(lex_advance(m0), seq![]);
        }
    }
}

/// Once `EOF` has been read, reading again gives `EOF` again and changes nothing.
pub proof fn lemma_eof_repeats(m: LexModel)
    requires
        0 <= m.pos <= m.input.len(),
        lex_next_token(m).0 == Ok::<SpecToken, Seq<char>>(SpecToken::EOF),
    ensures
        lex_next_token(lex_next_token(m).1) == (
            Ok::<SpecToken, Seq<char>>(SpecToken::EOF),
            lex_next_token(m).1,
        ),
{
    lemma_eof_iff_only_trivia_left(m);
    lemma_skip_trivia_bounds(m);
}

proof fn lemma_whitespace_skipped(m: LexModel)
    requires
        0 <= m.pos <= m.input.len(),
        forall|i: int| m.pos <= i < m.input.len() ==> spec_is_whitespace(#[trigger] m.input[i]),
    ensures
        skip_trivia(m).pos == m.input.len(),
    decreases m.input.len() - m.pos,
{
    if m.pos < m.input.len() {
        assert(spec_is_whitespace(m.input[m.pos]));
        lemma_whitespace_skipped(lex_advance(m));
    }
}

/// When only white space is left (or nothing at all), the next token is `EOF`
/// and the whole input has been read.
pub proof fn lemma_whitespace_gives_eof(m: LexModel)
    requires
        0 <= m.pos <= m.input.len(),
        forall|i: int| m.pos <= i < m.input.len() ==> spec_is_whitespace(#[trigger] m.input[i]),
    ensures
        lex_next_token(m).0 == Ok::<SpecToken, Seq<char>>(SpecToken::EOF),
        lex_next_token(m).1.pos == m.input.len(),
{
    lemma_whitespace_skipped(m);
    lemma_eof_iff_only_trivia_left(m);
}

/// The state after reading `n` tokens from `m`.
pub open spec fn lex_after(m: LexModel, n: int) -> LexModel
    decreases n,
{
    if n <= 0 {
        m
    } else {
        lex_next_token(lex_after(m, n - 1)).1
    }
}

proof fn lemma_lex_after_shift(m: LexModel, n: int)
    requires
        0 <= n,
    ensures
        lex_after(m, n + 1) == lex_after(lex_next_token(m).1, n),
    decreases n,
{
    let m1 = lex_next_token(m).1;
    assert(lex_after(m, 0) == m);
    assert(lex_after(m1, 0) == m1);
    if n > 0 {
        lemma_lex_after_shift(m, n - 1);
        assert(lex_after(m, n + 1) == lex_next_token(lex_after(m, n)).1);
        assert(lex_after(m1, n) == lex_next_token(lex_after(m1, n - 1)).1);
    }
}

/// Tokenizing is reading tokens one after another up to `EOF`: the input from `m`
/// gives the tokens `ts` exactly when the tokens read in turn from `m` are those
/// of `ts`, none of them `EOF`, and the one read after them is `EOF`.
pub proof fn lemma_tokenize_reads_tokens(m: LexModel, ts: Seq<SpecToken>)
    requires
        0 <= m.pos <= m.input.len(),
    ensures
        tokenize_from(m) == Ok::<Seq<SpecToken>, Seq<char>>(ts) <==> ((forall|i: int|
            0 <= i < ts.len() ==> #[trigger] lex_next_token(lex_after(m, i)).0 == Ok::<
                SpecToken,
                Seq<char>,
            >(ts[i]) && !(ts[i] is EOF)) && lex_next_token(lex_after(m, ts.len() as int)).0
            == Ok::<SpecToken, Seq<char>>(SpecToken::EOF)),
    decreases ts.len(),
{
    lemma_next_token_progress(m);
    let (r, m1) = lex_next_token(m);
    assert(lex_after(m, 0) == m);
    if ts.len() > 0 {
        let rest = ts.drop_first();
        lemma_tokenize_reads_tokens(m1, rest);
        assert forall|i: int| 0 <= i < rest.len() implies lex_after(m, i + 1) == lex_after(m1, i) by {
            lemma_lex_after_shift(m, i);
        }
        lemma_lex_after_shift(m, rest.len() as int);
        if tokenize_from(m) == Ok::<Seq<SpecToken>, Seq<char>>(ts) {
            if let Ok(t) = r {
                if !(t is EOF) {
                    if let Ok(ts2) = tokenize_from(m1) {
                        assert(ts == seq![t] + ts2);
                        assert(ts2 =~= rest);
                        assert(ts[0] == t);
                    }
                }
            }
            assert(r == Ok::<SpecToken, Seq<char>>(ts[0]));
            assert(tokenize_from(m1) == Ok::<Seq<SpecToken>, Seq<char>>(rest));
            assert forall|i: int| 0 <= i < ts.len() implies #[trigger] lex_next_token(
                lex_after(m, i),
            ).0 == Ok::<SpecToken, Seq<char>>(ts[i]) && !(ts[i] is EOF) by {
                if i > 0 {
                    assert(lex_after(m, i) == lex_after(m1, i - 1));
                    assert(ts[i] == rest[i - 1]);
                    assert(lex_next_token(lex_after(m1, i - 1)).0 == Ok::<SpecToken, Seq<char>>(
                        rest[i - 1],
                    ));
                }
            }
            assert(lex_next_token(lex_after(m1, rest.len() as int)).0 == Ok::<SpecToken, Seq<char>>(
                SpecToken::EOF,
            ));
            assert(lex_after(m, ts.len() as int) == lex_after(m1, rest.len() as int));
        }
        if (forall|i: int|
            0 <= i < ts.len() ==> #[trigger] lex_next_token(lex_after(m, i)).0 == Ok::<
                SpecToken,
                Seq<char>,
            >(ts[i]) && !(ts[i] is EOF)) && lex_next_token(lex_after(m, ts.len() as int)).0
            == Ok::<SpecToken, Seq<char>>(SpecToken::EOF) {
            assert(lex_next_token(lex_after(m, 0)).0 == Ok::<SpecToken, Seq<char>>(ts[0]));
            assert forall|i: int| 0 <= i < rest.len() implies #[trigger] lex_next_token(
                lex_after(m1, i),
            ).0 == Ok::<SpecToken, Seq<char>>(rest[i]) && !(rest[i] is EOF) by {
                assert(lex_next_token(lex_after(m, i + 1)).0 == Ok::<SpecToken, Seq<char>>(
                    ts[i + 1],
                ));
            }
            assert(tokenize_from(m1) == Ok::<Seq<SpecToken>, Seq<char>>(rest));
            assert(seq![ts[0]] + rest =~= ts);
        }
    } else {
        assert(ts =~= Seq::<SpecToken>::empty());
        if tokenize_from(m) == Ok::<Seq<SpecToken>, Seq<char>>(ts) {
            if let Ok(t) = r {
                if !(t is EOF) {
                    assert(false);
                }
            }
        }
    }
}

/// Whether reading a token from `m` gives a token other than `EOF`.
pub open spec fn reads_token(m: LexModel) -> bool {
    lex_next_token(m).0 matches Ok(t) && !(t is EOF)
}

/// Whether the first `n` tokens read from `m` are tokens other than `EOF` and the
/// one read after them is the error `e`.
pub open spec fn fails_after(m: LexModel, n: int, e: Seq<char>) -> bool {
    &&& 0 <= n
    &&& forall|i: int| 0 <= i < n ==> reads_token(#[trigger] lex_after(m, i))
    &&& lex_next_token(lex_after(m, n)).0 == Err::<SpecToken, Seq<char>>(e)
}

proof fn lemma_fails_after_gives_error(m: LexModel, n: int, e: Seq<char>)
    requires
        0 <= m.pos <= m.input.len(),
        fails_after(m, n, e),
    ensures
        tokenize_from(m) == Err::<Seq<SpecToken>, Seq<char>>(e),
    decreases n,
{
    assert(lex_after(m, 0) == m);
    if n > 0 {
        assert(reads_token(lex_after(m, 0)));
        lemma_next_token_progress(m);
        let m1 = lex_next_token(m).1;
        assert forall|i: int| 0 <= i < n - 1 implies reads_token(#[trigger] lex_after(m1, i)) by {
            lemma_lex_after_shift(m, i);
            assert(reads_token(lex_after(m, i + 1)));
        }
        lemma_lex_after_shift(m, n - 1);
        lemma_fails_after_gives_error(m1, n - 1, e);
    }
}

/// Tokenizing fails with `e` exactly when, reading tokens in turn, every token
/// read before some point is a token other than `EOF` and the one read there is
/// the error `e`: the first error ends tokenizing.
pub proof fn lemma_tokenize_fails_at_first_error(m: LexModel, e: Seq<char>)
    requires
        0 <= m.pos <= m.input.len(),
    ensures
        tokenize_from(m) == Err::<Seq<SpecToken>, Seq<char>>(e) <==> exists|n: int|
            fails_after(m, n, e),
    decreases m.input.len() - m.pos,
{
    if exists|n: int| fails_after(m, n, e) {
        let n = choose|n: int| fails_after(m, n, e);
        lemma_fails_after_gives_error(m, n, e);
    }
    if tokenize_from(m) == Err::<Seq<SpecToken>, Seq<char>>(e) {
        lemma_next_token_progress(m);
        let (r, m1) = lex_next_token(m);
        assert(lex_after(m, 0) == m);
        if r is Err {
            assert(fails_after(m, 0, e));
        } else {
            lemma_tokenize_fails_at_first_error(m1, e);
            let n1 = choose|n: int| fails_after(m1, n, e);
            assert forall|i: int| 0 <= i < n1 + 1 implies reads_token(#[trigger] lex_after(m, i)) by {
                if i > 0 {
                    lemma_lex_after_shift(m, i - 1);
                    assert(reads_token(lex_after(m1, i - 1)));
                }
            }
            lemma_lex_after_shift(m, n1);
            assert(fails_after(m, n1 + 1, e));
        }
    }
}

/// The state after reading `n` characters from `m`.
pub open spec fn advance_n(m: LexModel, n: int) -> LexModel
    decreases n,
{
    if n <= 0 {
        m
    } else {
        advance_n(lex_advance(m), n - 1)
    }
}

/// A block comment ends at the first `*/` after its `/*`: from the state `m`
/// just after the `/*`, when `*/` first occurs at `k`, skipping the comment
/// leaves the state just after that `*/` (and goes on skipping white space and
/// comments from there). A `*` that is not followed by `/` ends nothing and
/// consumes only itself.
pub proof fn lemma_block_comment_ends_at_first_close(m: LexModel, k: int)
    requires
        0 <= m.pos <= k,
        k + 1 < m.input.len(),
        m.input[k] == '*',
        m.input[k + 1] == '/',
        forall|j: int| m.pos <= j < k ==> !(#[trigger] m.input[j] == '*' && m.input[j + 1] == '/'),
    ensures
        skip_block_comment(m) == skip_trivia(advance_n(m, k + 2 - m.pos)),
    decreases k - m.pos,
{
    let n = lex_advance(m);
    assert(advance_n(m, 0) == m);
    assert(advance_n(n, 0) == n);
    assert(advance_n(lex_advance(n), 0) == lex_advance(n));
    if m.pos == k {
        assert(advance_n(m, 2) == advance_n(n, 1));
        assert(advance_n(n, 1) == advance_n(lex_advance(n), 0));
    } else {
        assert(!(m.input[m.pos] == '*' && m.input[m.pos + 1] == '/'));
        lemma_block_comment_ends_at_first_close(n, k);
        assert(advance_n(m, k + 2 - m.pos) == advance_n(n, k + 2 - m.pos - 1));
    }
}

/// A block comment with no `*/` after its `/*` runs to the end of the input.
pub proof fn lemma_unclosed_block_comment_runs_to_end(m: LexModel)
    requires
        0 <= m.pos <= m.input.len(),
        forall|j: int|
            m.pos <= j && j + 1 < m.input.len() ==> !(#[trigger] m.input[j] == '*' && m.input[j
                + 1] == '/'),
    ensures
        skip_block_comment(m).pos == m.input.len(),
    decreases m.input.len() - m.pos,
{
    if m.pos < m.input.len() {
        if m.pos + 1 < m.input.len() {
            assert(!(m.input[m.pos] == '*' && m.input[m.pos + 1] == '/'));
        }
        lemma_unclosed_block_comment_runs_to_end(lex_advance(m));
    }
}

/// In a character literal, a backslash followed by `n`, `t`, `r` or `0` stands
/// for a newline, a tab, a carriage return or NUL, and followed by any other
/// character stands for that character; the literal is four characters long.
pub proof fn lemma_char_literal_escape(m: LexModel, e: char)
    requires
        0 <= m.pos,
        m.pos + 3 < m.input.len(),
        m.input[m.pos] == '\'',
        m.input[m.pos + 1] == '\\',
        m.input[m.pos + 2] == e,
        m.input[m.pos + 3] == '\'',
    ensures
        lex_next_token(m).1.pos == m.pos + 4,
        e == 'n' ==> lex_next_token(m).0 == Ok::<SpecToken, Seq<char>>(SpecToken::CharConst('\n')),
        e == 't' ==> lex_next_token(m).0 == Ok::<SpecToken, Seq<char>>(SpecToken::CharConst('\t')),
        e == 'r' ==> lex_next_token(m).0 == Ok::<SpecToken, Seq<char>>(SpecToken::CharConst('\r')),
        e == '0' ==> lex_next_token(m).0 == Ok::<SpecToken, Seq<char>>(SpecToken::CharConst('\0')),
        e != 'n' && e != 't' && e != 'r' && e != '0' ==> lex_next_token(m).0 == Ok::<
            SpecToken,
            Seq<char>,
        >(SpecToken::CharConst(e)),
{
    assert(skip_trivia(m) == m);
}

/// A character literal without a backslash stands for its one character.
pub proof fn lemma_plain_char_literal(m: LexModel, c: char)
    requires
        0 <= m.pos,
        m.pos + 2 < m.input.len(),
        m.input[m.pos] == '\'',
        m.input[m.pos + 1] == c,
        c != '\\',
        m.input[m.pos + 2] == '\'',
    ensures
        lex_next_token(m) == (
            Ok::<SpecToken, Seq<char>>(SpecToken::CharConst(c)),
            advance_n(m, 3),
        ),
{
    assert(skip_trivia(m) == m);
    assert(advance_n(lex_advance(lex_advance(lex_advance(m))), 0) == lex_advance(
        lex_advance(lex_advance(m)),
    ));
    assert(advance_n(lex_advance(lex_advance(m)), 1) == advance_n(
        lex_advance(lex_advance(lex_advance(m))),
        0,
    ));
    assert(advance_n(lex_advance(m), 2) == advance_n(lex_advance(lex_advance(m)), 1));
}

/// In a string literal, a backslash followed by `n`, `t` or `r` stands for a
/// newline, a tab or a carriage return, and followed by any other character
/// stands for that character.
pub proof fn lemma_string_literal_escape(m: LexModel, e: char)
    requires
        0 <= m.pos,
        m.pos + 3 < m.input.len(),
        m.input[m.pos] == '"',
        m.input[m.pos + 1] == '\\',
        m.input[m.pos + 2] == e,
        m.input[m.pos + 3] == '"',
    ensures
        lex_next_token(m).1.pos == m.pos + 4,
        e == 'n' ==> lex_next_token(m).0 == Ok::<SpecToken, Seq<char>>(
            SpecToken::StringConst(seq!['\n']),
        ),
        e == 't' ==> lex_next_token(m).0 == Ok::<SpecToken, Seq<char>>(
            SpecToken::StringConst(seq!['\t']),
        ),
        e == 'r' ==> lex_next_token(m).0 == Ok::<SpecToken, Seq<char>>(
            SpecToken::StringConst(seq!['\r']),
        ),
        e != 'n' && e != 't' && e != 'r' ==> lex_next_token(m).0 == Ok::<SpecToken, Seq<char>>(
            SpecToken::StringConst(seq![e]),
        ),
{
    assert(skip_trivia(m) == m);
    let m1 = lex_advance(m);
    let m3 = lex_advance(lex_advance(m1));
    let x = escape_in_string(e);
    assert(lex_string_body(m3, seq![x]) == (
        Ok::<SpecToken, Seq<char>>(SpecToken::StringConst(seq![x])),
        lex_advance(m3),
    ));
    assert(seq![].push(x) =~= seq![x]);
}

/// How a keyword, an operator or a punctuation mark is written in C source;
/// empty for the tokens that carry a value and for `EOF`.
pub open spec fn spelling(t: SpecToken) -> Seq<char> {
    match t {
        SpecToken::Int => "int"@,
        SpecToken::Char => "char"@,
        SpecToken::Void => "void"@,
        SpecToken::Return => "return"@,
        SpecToken::If => "if"@,
        SpecToken::Else => "else"@,
        SpecToken::While => "while"@,
        SpecToken::Do => "do"@,
        SpecToken::For => "for"@,
        SpecToken::Break => "break"@,
        SpecToken::Continue => "continue"@,
        SpecToken::Sizeof => "sizeof"@,
        SpecToken::Plus => seq!['+'],
        SpecToken::Minus => seq!['-'],
        SpecToken::Star => seq!['*'],
        SpecToken::Slash => seq!['/'],
        SpecToken::Percent => seq!['%'],
        SpecToken::EqualEqual => seq!['=', '='],
        SpecToken::NotEqual => seq!['!', '='],
        SpecToken::Less => seq!['<'],
        SpecToken::LessEqual => seq!['<', '='],
        SpecToken::Greater => seq!['>'],
        SpecToken::GreaterEqual => seq!['>', '='],
        SpecToken::And => seq!['&', '&'],
        SpecToken::Or => seq!['|', '|'],
        SpecToken::BitAnd => seq!['&'],
        SpecToken::BitOr => seq!['|'],
        SpecToken::BitXor => seq!['^'],
        SpecToken::Not => seq!['!'],
        SpecToken::BitNot => seq!['~'],
        SpecToken::ShiftLeft => seq!['<', '<'],
        SpecToken::ShiftRight => seq!['>', '>'],
        SpecToken::Assign => seq!['='],
        SpecToken::PlusAssign => seq!['+', '='],
        SpecToken::MinusAssign => seq!['-', '='],
        SpecToken::StarAssign => seq!['*', '='],
        SpecToken::SlashAssign => seq!['/', '='],
        SpecToken::PercentAssign => seq!['%', '='],
        SpecToken::AndAssign => seq!['&', '='],
        SpecToken::OrAssign => seq!['|', '='],
        SpecToken::XorAssign => seq!['^', '='],
        SpecToken::ShiftLeftAssign => seq!['<', '<', '='],
        SpecToken::ShiftRightAssign => seq!['>', '>', '='],
        SpecToken::Semicolon => seq![';'],
        SpecToken::Comma => seq![','],
        SpecToken::OpenParen => seq!['('],
        SpecToken::CloseParen => seq![')'],
        SpecToken::OpenBrace => seq!['{'],
        SpecToken::CloseBrace => seq!['}'],
        SpecToken::OpenBracket => seq!['['],
        SpecToken::CloseBracket => seq![']'],
        SpecToken::Question => seq!['?'],
        SpecToken::Colon => seq![':'],
        SpecToken::PlusPlus => seq!['+', '+'],
        SpecToken::MinusMinus => seq!['-', '-'],
        SpecToken::Arrow => seq!['-', '>'],
        SpecToken::Dot => seq!['.'],
        _ => seq![],
    }
}

/// Whether `t` is a keyword.
pub open spec fn is_keyword(t: SpecToken) -> bool {
    t is Int || t is Char || t is Void || t is Return || t is If || t is Else || t is While || t is Do || t is For || t is Break || t is Continue || t is Sizeof
}

/// Whether position `p` of `input` is its end or holds an ASCII white-space
/// character (space, tab, newline, vertical tab, form feed, carriage return).
pub open spec fn ends_word(input: Seq<char>, p: int) -> bool {
    p == input.len() || (0 <= p < input.len() && (input[p] == ' ' || '\t' <= input[p] <= '\r'))
}

proof fn lemma_ident_chars_run(m: LexModel, acc: Seq<char>, len: int)
    requires
        0 <= m.pos,
        0 <= len,
        m.pos + len <= m.input.len(),
        forall|i: int| m.pos <= i < m.pos + len ==> is_ident_char(#[trigger] m.input[i]),
        m.pos + len < m.input.len() ==> !is_ident_char(m.input[m.pos + len]),
    ensures
        lex_ident_chars(m, acc).0 == acc + m.input.subrange(m.pos, m.pos + len),
        lex_ident_chars(m, acc).1.pos == m.pos + len,
    decreases len,
{
    if len == 0 {
        assert(m.input.subrange(m.pos, m.pos) =~= Seq::<char>::empty());
        assert(acc + Seq::<char>::empty() =~= acc);
    } else {
        assert(is_ident_char(m.input[m.pos]));
        let n = lex_advance(m);
        lemma_ident_chars_run(n, acc.push(m.input[m.pos]), len - 1);
        assert(acc.push(m.input[m.pos]) + n.input.subrange(n.pos, n.pos + len - 1) =~= acc
            + m.input.subrange(m.pos, m.pos + len));
    }
}

/// A keyword written out and followed by white space is read back as that
/// keyword, and reading it consumes exactly its spelling.
pub proof fn lemma_keyword_spelling_lexes_back(m: LexModel, t: SpecToken)
    requires
        is_keyword(t),
        0 <= m.pos,
        m.pos + spelling(t).len() <= m.input.len(),
        m.input.subrange(m.pos, m.pos + spelling(t).len()) == spelling(t),
        ends_word(m.input, m.pos + spelling(t).len()),
    ensures
        lex_next_token(m).0 == Ok::<SpecToken, Seq<char>>(t),
        lex_next_token(m).1.pos == m.pos + spelling(t).len(),
{
    reveal_strlit("int");
    reveal_strlit("char");
    reveal_strlit("void");
    reveal_strlit("return");
    reveal_strlit("if");
    reveal_strlit("else");
    reveal_strlit("while");
    reveal_strlit("do");
    reveal_strlit("for");
    reveal_strlit("break");
    reveal_strlit("continue");
    reveal_strlit("sizeof");
    let w = spelling(t);
    let len = w.len() as int;
    assert forall|i: int| m.pos <= i < m.pos + len implies is_ident_char(#[trigger] m.input[i]) by {
        assert(m.input[i] == w[i - m.pos]);
    }
    assert(m.input[m.pos] == w[0]);
    assert(skip_trivia(m) == m);
    lemma_ident_chars_run(m, seq![], len);
    assert(Seq::<char>::empty() + m.input.subrange(m.pos, m.pos + len) =~= w);
    assert(keyword_or_identifier(w) == t);
}

/// An operator or a punctuation mark written out and followed by white space is
/// read back as that token (the longest one that its characters spell), and
/// reading it consumes exactly its spelling.
pub proof fn lemma_operator_spelling_lexes_back(m: LexModel, t: SpecToken)
    requires
        !is_keyword(t),
        spelling(t).len() > 0,
        0 <= m.pos,
        m.pos + spelling(t).len() <= m.input.len(),
        m.input.subrange(m.pos, m.pos + spelling(t).len()) == spelling(t),
        ends_word(m.input, m.pos + spelling(t).len()),
    ensures
        lex_next_token(m).0 == Ok::<SpecToken, Seq<char>>(t),
        lex_next_token(m).1.pos == m.pos + spelling(t).len(),
{
    let w = spelling(t);
    let len = w.len() as int;
    assert(m.input[m.pos] == w[0]);
    if len > 1 {
        assert(m.input[m.pos + 1] == w[1]);
    }
    if len > 2 {
        assert(m.input[m.pos + 2] == w[2]);
    }
    assert(skip_trivia(m) == m);
}

/// The value of a numeral written in decimal digits.
pub open spec fn decimal_value(s: Seq<char>) -> int
    decreases s.len(),
{
    if s.len() == 0 {
        0
    } else {
        decimal_value(s.drop_last()) * 10 + (s.last() as int - '0' as int)
    }
}

proof fn lemma_decimal_value_grows(input: Seq<char>, start: int, a: int, b: int)
    requires
        0 <= start <= a <= b <= input.len(),
        forall|i: int| start <= i < b ==> is_digit(#[trigger] input[i]),
    ensures
        0 <= decimal_value(input.subrange(start, a)) <= decimal_value(input.subrange(start, b)),
    decreases b - a,
{
    lemma_decimal_value_nonneg(input, start, a);
    if a < b {
        lemma_decimal_value_grows(input, start, a, b - 1);
        lemma_decimal_value_nonneg(input, start, b - 1);
        assert(input.subrange(start, b).drop_last() =~= input.subrange(start, b - 1));
        assert(is_digit(input[b - 1]));
    }
}

proof fn lemma_decimal_value_nonneg(input: Seq<char>, start: int, b: int)
    requires
        0 <= start <= b <= input.len(),
        forall|i: int| start <= i < b ==> is_digit(#[trigger] input[i]),
    ensures
        0 <= decimal_value(input.subrange(start, b)),
    decreases b - start,
{
    if start < b {
        lemma_decimal_value_nonneg(input, start, b - 1);
        assert(input.subrange(start, b).drop_last() =~= input.subrange(start, b - 1));
        assert(is_digit(input[b - 1]));
    }
}

proof fn lemma_digits_run_value(m: LexModel, v: i64, start: int, end: int)
    requires
        0 <= start <= m.pos <= end <= m.input.len(),
        forall|i: int| start <= i < end ==> is_digit(#[trigger] m.input[i]),
        end < m.input.len() ==> !is_digit(m.input[end]),
        v == decimal_value(m.input.subrange(start, m.pos)),
        decimal_value(m.input.subrange(start, end)) <= i64::MAX,
    ensures
        lex_digits(m, v).0 == decimal_value(m.input.subrange(start, end)),
        lex_digits(m, v).1.pos == end,
    decreases end - m.pos,
{
    if m.pos < end {
        let d: i64 = (m.input[m.pos] as int - '0' as int) as i64;
        assert(is_digit(m.input[m.pos]));
        assert(m.input.subrange(start, m.pos + 1).drop_last() =~= m.input.subrange(start, m.pos));
        lemma_decimal_value_grows(m.input, start, m.pos, m.pos + 1);
        lemma_decimal_value_grows(m.input, start, m.pos + 1, end);
        let prod: int = v * 10;
        assert(0 <= prod <= i64::MAX);
        vstd::arithmetic::div_mod::lemma_small_mod(prod as nat, 0x1_0000_0000_0000_0000nat);
        assert(v.wrapping_mul(10) == prod);
        assert(v.wrapping_mul(10).wrapping_add(d) == prod + d);
        lemma_digits_run_value(lex_advance(m), v.wrapping_mul(10).wrapping_add(d), start, end);
    } else {
        assert(end == m.pos);
    }
}

/// A number is read as the value of all the decimal digits that follow one
/// another from its first one (when that value fits in an `i64`), and reading it
/// consumes exactly those digits.
pub proof fn lemma_number_is_its_decimal_value(m: LexModel, end: int)
    requires
        0 <= m.pos < end <= m.input.len(),
        forall|i: int| m.pos <= i < end ==> is_digit(#[trigger] m.input[i]),
        end < m.input.len() ==> !is_digit(m.input[end]),
        decimal_value(m.input.subrange(m.pos, end)) <= i64::MAX,
    ensures
        lex_read_number(m).0 == Ok::<SpecToken, Seq<char>>(
            SpecToken::IntConst(decimal_value(m.input.subrange(m.pos, end)) as i64),
        ),
        lex_read_number(m).1.pos == end,
{
    assert(is_digit(m.input[m.pos]));
    assert(m.input.subrange(m.pos, m.pos).len() == 0);
    lemma_digits_run_value(m, 0, m.pos, end);
}

proof fn lemma_line_comment_body(m: LexModel, k: int)
    requires
        0 <= m.pos <= k < m.input.len(),
        m.input[k] == '\n',
        forall|j: int| m.pos <= j < k ==> #[trigger] m.input[j] != '\n',
    ensures
        skip_line_comment(m) == skip_trivia(advance_n(m, k + 1 - m.pos)),
    decreases k - m.pos,
{
    let n = lex_advance(m);
    assert(advance_n(n, 0) == n);
    if m.pos == k {
        assert(advance_n(m, 1) == advance_n(n, 0));
    } else {
        lemma_line_comment_body(n, k);
        assert(advance_n(m, k + 1 - m.pos) == advance_n(n, k + 1 - m.pos - 1));
    }
}

proof fn lemma_line_comment_body_unended(m: LexModel)
    requires
        0 <= m.pos <= m.input.len(),
        forall|j: int| m.pos <= j < m.input.len() ==> #[trigger] m.input[j] != '\n',
    ensures
        skip_line_comment(m).pos == m.input.len(),
    decreases m.input.len() - m.pos,
{
    if m.pos < m.input.len() {
        lemma_line_comment_body_unended(lex_advance(m));
    }
}

/// A `//` comment runs up to and including the first newline after it (or to the
/// end of the input when there is none); skipping goes on from there.
pub proof fn lemma_line_comment_ends_at_newline(m: LexModel)
    requires
        0 <= m.pos,
        m.pos + 1 < m.input.len(),
        m.input[m.pos] == '/',
        m.input[m.pos + 1] == '/',
    ensures
        forall|k: int|
            m.pos + 2 <= k < m.input.len() && m.input[k] == '\n' && (forall|j: int|
                m.pos + 2 <= j < k ==> #[trigger] m.input[j] != '\n') ==> skip_trivia(m)
                == skip_trivia(#[trigger] advance_n(m, k + 1 - m.pos)),
        (forall|j: int| m.pos + 2 <= j < m.input.len() ==> #[trigger] m.input[j] != '\n')
            ==> skip_trivia(m).pos == m.input.len(),
{
    let m2 = lex_advance(lex_advance(m));
    assert(skip_trivia(m) == skip_line_comment(m));
    assert(skip_line_comment(m) == skip_line_comment(lex_advance(m)));
    assert(skip_line_comment(lex_advance(m)) == skip_line_comment(m2));
    assert forall|k: int|
        m.pos + 2 <= k < m.input.len() && m.input[k] == '\n' && (forall|j: int|
            m.pos + 2 <= j < k ==> #[trigger] m.input[j] != '\n') implies skip_trivia(m)
        == skip_trivia(#[trigger] advance_n(m, k + 1 - m.pos)) by {
        lemma_line_comment_body(m2, k);
        assert(advance_n(m, k + 1 - m.pos) == advance_n(lex_advance(m), k - m.pos));
        assert(advance_n(lex_advance(m), k - m.pos) == advance_n(m2, k - 1 - m.pos));
    }
    if forall|j: int| m.pos + 2 <= j < m.input.len() ==> #[trigger] m.input[j] != '\n' {
        lemma_line_comment_body_unended(m2);
    }
}

/// The ASCII white-space characters: space, tab, newline, vertical tab, form feed
/// and carriage return.
pub open spec fn is_ascii_space(c: char) -> bool {
    c == ' ' || c == '\t' || c == '\n' || c == '\x0b' || c == '\x0c' || c == '\r'
}

/// A run of ASCII white space between tokens is skipped.
pub proof fn lemma_ascii_space_skipped(m: LexModel, k: int)
    requires
        0 <= m.pos <= k <= m.input.len(),
        forall|j: int| m.pos <= j < k ==> is_ascii_space(#[trigger] m.input[j]),
    ensures
        skip_trivia(m) == skip_trivia(advance_n(m, k - m.pos)),
    decreases k - m.pos,
{
    assert(advance_n(m, 0) == m);
    if m.pos < k {
        assert(is_ascii_space(m.input[m.pos]));
        lemma_ascii_space_skipped(lex_advance(m), k);
        assert(advance_n(m, k - m.pos) == advance_n(lex_advance(m), k - m.pos - 1));
    }
}

/// A name made of ASCII letters, digits and `_`, starting with a letter or `_`,
/// that is no keyword and is followed by white space or the end of the input, is
/// read as an identifier with that name, consuming exactly its characters.
pub proof fn lemma_identifier_lexes_back(m: LexModel, name: Seq<char>)
    requires
        0 <= m.pos,
        m.pos + name.len() <= m.input.len(),
        name.len() > 0,
        m.input.subrange(m.pos, m.pos + name.len()) == name,
        'a' <= name[0] <= 'z' || 'A' <= name[0] <= 'Z' || name[0] == '_',
        forall|i: int|
            0 <= i < name.len() ==> ('a' <= #[trigger] name[i] <= 'z' || 'A' <= name[i] <= 'Z'
                || '0' <= name[i] <= '9' || name[i] == '_'),
        name != "int"@ && name != "char"@ && name != "void"@ && name != "return"@ && name
            != "if"@ && name != "else"@ && name != "while"@ && name != "do"@ && name != "for"@
            && name != "break"@ && name != "continue"@ && name != "sizeof"@,
        ends_word(m.input, m.pos + name.len()),
    ensures
        lex_next_token(m).0 == Ok::<SpecToken, Seq<char>>(SpecToken::Identifier(name)),
        lex_next_token(m).1.pos == m.pos + name.len(),
{
    let len = name.len() as int;
    assert forall|i: int| m.pos <= i < m.pos + len implies is_ident_char(#[trigger] m.input[i]) by {
        assert(m.input[i] == name[i - m.pos]);
        assert('a' <= name[i - m.pos] <= 'z' || 'A' <= name[i - m.pos] <= 'Z' || '0' <= name[i
            - m.pos] <= '9' || name[i - m.pos] == '_');
    }
    assert(m.input[m.pos] == name[0]);
    assert(skip_trivia(m) == m);
    lemma_ident_chars_run(m, seq![], len);
    assert(Seq::<char>::empty() + m.input.subrange(m.pos, m.pos + len) =~= name);
}

#[via_fn]
proof fn tokenize_from_decreases(m: LexModel) {
    if 0 <= m.pos <= m.input.len() {
        lemma_next_token_progress(m);
    }
}

proof fn lemma_ident_chars_grow(m: LexModel, acc: Seq<char>)
    ensures
        lex_ident_chars(m, acc).0.len() >= acc.len(),
        lex_peek(m) matches Some(c) && is_ident_char(c) ==> lex_ident_chars(m, acc).0.len()
            > acc.len(),
    decreases m.input.len() - m.pos,
{
    if 0 <= m.pos < m.input.len() && is_ident_char(m.input[m.pos]) {
        lemma_ident_chars_grow(lex_advance(m), acc.push(m.input[m.pos]));
    }
}

/// A token that lexing can produce among its results: not `EOF`, and an
/// identifier only with a nonempty name that is not a keyword.
pub open spec fn is_lexed_token(t: SpecToken) -> bool {
    &&& !(t is EOF)
    &&& t matches SpecToken::Identifier(name) ==> name.len() > 0 && keyword_or_identifier(name)
        == SpecToken::Identifier(name)
}

proof fn lemma_string_body_shape(m: LexModel, acc: Seq<char>)
    ensures
        lex_string_body(m, acc).0 matches Ok(t) ==> t is StringConst,
    decreases m.input.len() - m.pos,
{
    if 0 <= m.pos < m.input.len() {
        let c = m.input[m.pos];
        if c == '"' {
        } else if c == '\\' {
            let n = lex_advance(m);
            if 0 <= n.pos < n.input.len() {
                lemma_string_body_shape(lex_advance(n), acc.push(escape_in_string(n.input[n.pos])));
            } else {
                lemma_string_body_shape(n, acc);
            }
        } else {
            lemma_string_body_shape(lex_advance(m), acc.push(c));
        }
    }
}

proof fn lemma_next_token_shape(m: LexModel)
    requires
        0 <= m.pos <= m.input.len(),
    ensures
        lex_next_token(m).0 matches Ok(t) ==> (!(t is EOF) ==> is_lexed_token(t)),
{
    let m0 = skip_trivia(m);
    lemma_skip_trivia_bounds(m);
    if 0 <= m0.pos < m0.input.len() {
        let c = m0.input[m0.pos];
        if !is_digit(c) && is_ident_start(c) {
            lemma_ident_chars_grow(m0, seq![]);
            let s = lex_ident_chars(m0, seq![]).0;
            assert(s.len() > 0);
        } else if c == '"' {
            lemma_string_body_shape(lex_advance(m0), seq![]);
        }
    }
}

proof fn lemma_tokenize_from_shape(m: LexModel)
    requires
        0 <= m.pos <= m.input.len(),
    ensures
        tokenize_from(m) matches Ok(ts) ==> forall|i: int| 0 <= i < ts.len() ==> is_lexed_token(
            #[trigger] ts[i],
        ),
    decreases m.input.len() - m.pos,
{
    lemma_next_token_progress(m);
    lemma_next_token_shape(m);
    let (r, m1) = lex_next_token(m);
    if let Ok(t) = r {
        if !(t is EOF) {
            lemma_tokenize_from_shape(m1);
            if let Ok(rest) = tokenize_from(m1) {
                assert forall|i: int| 0 <= i < (seq![t] + rest).len() implies is_lexed_token(
                    #[trigger] (seq![t] + rest)[i],
                ) by {
                    if i > 0 {
                        assert((seq![t] + rest)[i] == rest[i - 1]);
                    }
                }
            }
        }
    }
}

/// Lexing never returns an `EOF` token among its tokens, and every identifier
/// it returns has a nonempty name that is not a keyword.
pub proof fn lemma_tokenize_yields_lexed_tokens(input: Seq<char>)
    ensures
        spec_tokenize(input) matches Ok(ts) ==> forall|i: int|
            0 <= i < ts.len() ==> is_lexed_token(#[trigger] ts[i]),
{
    lemma_tokenize_from_shape(lex_start(input));
}

/// A lexer over a piece of C source: the characters, the position of the next
/// one, and its line and column.
#[derive(Debug)]
pub struct Lexer {
    input: Vec<char>,
    pos: usize,
    line: usize,
    column: usize,
}

impl View for Lexer {
    type V = LexModel;

    closed spec fn view(&self) -> LexModel {
        LexModel {
            input: self.input@,
            pos: self.pos as int,
            line: self.line as int,
            column: self.column as int,
        }
    }
}

/// Decides whether the characters `v` spell the word `w`.
fn is_word(v: &Vec<char>, w: &str) -> (r: bool)
    ensures
        r == (v@ == w@),
{
    let n: usize = w.unicode_len();
    if v.len() != n {
        return false;
    }
    let mut i: usize = 0;
    while i < n
        invariant
            n == w@.len(),
            v@.len() == n,
            i <= n,
            forall|j: int| 0 <= j < i ==> v@[j] == w@[j],
        decreases n - i,
    {
        if v[i] != w.get_char(i) {
            return false;
        }
        i = i + 1;
    }
    assert(v@ =~= w@);
    true
}

/// The message `text` followed by the decimal numeral of `line`.
fn message_with_line(text: &str, line: usize) -> (r: String)
    ensures
        r@ == text@ + decimal(line as nat),
{
    let mut s = String::from_str(text);
    push_decimal(&mut s, line as u64);
    s
}

impl Lexer {
    /// The lexer's states are those of `lex_wf`.
    pub open spec fn wf(&self) -> bool {
        lex_wf(self@)
    }

    /// A lexer at the start of `input`.
    pub fn new(input: &str) -> (r: Lexer)
        requires
            input@.len() + 2 <= usize::MAX,
        ensures
            r.wf(),
            r@ == lex_start(input@),
    {
        let mut chars: Vec<char> = Vec::new();
        broadcast use vstd::string::group_string_axioms;
        for c in it: input.chars()
            invariant
                it.seq() == input@,
                chars@ == it.seq().take(it.index() as int),
        {
            chars.push(c);
            assert(chars@ =~= it.seq().take(it.index() + 1));
        }
        assert(chars@ =~= input@);
        proof {
            lemma_start_wf(input@);
        }
        Lexer { input: chars, pos: 0, line: 1, column: 1 }
    }

    /// Reads the next token, after white space and comments; `EOF` at the end
    /// of the input.
    pub fn next_token(&mut self) -> (r: Result<Token, String>)
        requires
            old(self).wf(),
        ensures
            final(self).wf(),
            (token_result_view(r), final(self)@) == lex_next_token(old(self)@),
    {
        self.skip_whitespace_and_comments();
        match self.peek() {
            None => Ok(Token::EOF),
            Some(c) => {
                if '0' <= c && c <= '9' {
                    self.read_number()
                } else if ('a' <= c && c <= 'z') || ('A' <= c && c <= 'Z') || c == '_' {
                    self.read_identifier()
                } else if c == '"' {
                    self.read_string()
                } else if c == '\'' {
                    self.read_char()
                } else {
                    self.read_operator_or_punctuation()
                }
            },
        }
    }

    fn peek(&self) -> (r: Option<char>)
        ensures
            r == lex_peek(self@),
    {
        if self.pos < self.input.len() {
            Some(self.input[self.pos])
        } else {
            None
        }
    }

    fn peek_second(&self) -> (r: Option<char>)
        ensures
            r == lex_peek_second(self@),
    {
        if self.input.len() > 0 && self.pos < self.input.len() - 1 {
            Some(self.input[self.pos + 1])
        } else {
            None
        }
    }

    fn advance(&mut self) -> (r: Option<char>)
        requires
            old(self).wf(),
        ensures
            final(self).wf(),
            final(self)@ == lex_advance(old(self)@),
            r == lex_peek(old(self)@),
    {
        proof {
            lemma_advance_keeps_wf(self@);
        }
        if self.pos < self.input.len() {
            let c = self.input[self.pos];
            self.pos = self.pos + 1;
            if c == '\n' {
                self.line = self.line + 1;
                self.column = 1;
            } else {
                self.column = self.column + 1;
            }
            Some(c)
        } else {
            None
        }
    }

    fn skip_whitespace_and_comments(&mut self)
        requires
            old(self).wf(),
        ensures
            final(self).wf(),
            final(self)@ == skip_trivia(old(self)@),
    {
        let ghost target = skip_trivia(self@);
        let ghost input0 = self@.input;
        loop
            invariant
                self.wf(),
                self@.input == input0,
                skip_trivia(self@) == target,
            ensures
                self.wf(),
                self@ == target,
            decreases self@.input.len() - self@.pos,
        {
            match self.peek() {
                None => break,
                Some(c) => {
                    if is_whitespace(c) {
                        self.advance();
                    } else if c == '/' {
                        match self.peek_second() {
                            Some('/') => {
                                // A line comment, up to and including the newline.
                                let ghost p0 = self@.pos;
                                loop
                                    invariant_except_break
                                        skip_line_comment(self@) == target,
                                    invariant
                                        self.wf(),
                                        self@.input == input0,
                                        self@.pos > p0 || (self@.pos == p0 && lex_peek(self@) is Some),
                                    ensures
                                        self.wf(),
                                        self@.input == input0,
                                        self@.pos > p0,
                                        skip_trivia(self@) == target,
                                    decreases self@.input.len() - self@.pos,
                                {
                                    match self.advance() {
                                        Some(ch) => {
                                            if ch == '\n' {
                                                break;
                                            }
                                        },
                                        None => break,
                                    }
                                }
                            },
                            Some('*') => {
                                // A block comment, up to and including `*/`.
                                let ghost p0 = self@.pos;
                                self.advance();
                                self.advance();
                                loop
                                    invariant_except_break
                                        skip_block_comment(self@) == target,
                                    invariant
                                        self.wf(),
                                        self@.input == input0,
                                        self@.pos > p0,
                                    ensures
                                        self.wf(),
                                        self@.input == input0,
                                        self@.pos > p0,
                                        skip_trivia(self@) == target,
                                    decreases self@.input.len() - self@.pos,
                                {
                                    match self.advance() {
                                        Some(ch) => {
                                            if ch == '*' {
                                                if let Some('/') = self.peek() {
                                                    self.advance();
                                                    break;
                                                }
                                            }
                                        },
                                        None => break,
                                    }
                                }
                            },
                            _ => break,
                        }
                    } else {
                        break;
                    }
                },
            }
        }
    }

    fn read_number(&mut self) -> (r: Result<Token, String>)
        requires
            old(self).wf(),
        ensures
            final(self).wf(),
            (token_result_view(r), final(self)@) == lex_read_number(old(self)@),
    {
        let mut value: i64 = 0;
        let mut has_digits = false;
        let ghost start = self@;
        loop
            invariant
                self.wf(),
                lex_digits(self@, value) == lex_digits(start, 0),
                has_digits == (self@.pos > start.pos),
                self@.pos >= start.pos,
                self@.pos == start.pos ==> self@ == start && value == 0,
            ensures
                self.wf(),
                self@ == lex_digits(start, 0).1,
                value == lex_digits(start, 0).0,
                has_digits <==> (lex_peek(start) matches Some(c) && is_digit(c)),
            decreases self@.input.len() - self@.pos,
        {
            match self.peek() {
                Some(c) => {
                    if '0' <= c && c <= '9' {
                        has_digits = true;
                        let d: i64 = (c as u32 - '0' as u32) as i64;
                        value = value.wrapping_mul(10).wrapping_add(d);
                        self.advance();
                    } else {
                        break;
                    }
                },
                None => break,
            }
        }
        if !has_digits {
            let mut m = message_with_line("Expected number at line ", self.line);
            push_str(&mut m, ", column ");
            push_decimal(&mut m, self.column as u64);
            return Err(m);
        }
        Ok(Token::IntConst(value))
    }

    fn read_identifier(&mut self) -> (r: Result<Token, String>)
        requires
            old(self).wf(),
        ensures
            final(self).wf(),
            final(self)@ == lex_ident_chars(old(self)@, seq![]).1,
            token_result_view(r) == Ok::<SpecToken, Seq<char>>(
                keyword_or_identifier(lex_ident_chars(old(self)@, seq![]).0),
            ),
    {
        let mut ident = String::new();
        let mut chars: Vec<char> = Vec::new();
        let ghost start = self@;
        loop
            invariant
                self.wf(),
                ident@ == chars@,
                lex_ident_chars(self@, chars@) == lex_ident_chars(start, seq![]),
            ensures
                self.wf(),
                ident@ == chars@,
                (chars@, self@) == lex_ident_chars(start, seq![]),
            decreases self@.input.len() - self@.pos,
        {
            match self.peek() {
                Some(c) => {
                    if is_alphanumeric(c) || c == '_' {
                        push_char(&mut ident, c);
                        chars.push(c);
                        self.advance();
                    } else {
                        break;
                    }
                },
                None => break,
            }
        }
        let token = if is_word(&chars, "int") {
            Token::Int
        } else if is_word(&chars, "char") {
            Token::Char
        } else if is_word(&chars, "void") {
            Token::Void
        } else if is_word(&chars, "return") {
            Token::Return
        } else if is_word(&chars, "if") {
            Token::If
        } else if is_word(&chars, "else") {
            Token::Else
        } else if is_word(&chars, "while") {
            Token::While
        } else if is_word(&chars, "do") {
            Token::Do
        } else if is_word(&chars, "for") {
            Token::For
        } else if is_word(&chars, "break") {
            Token::Break
        } else if is_word(&chars, "continue") {
            Token::Continue
        } else if is_word(&chars, "sizeof") {
            Token::Sizeof
        } else {
            Token::Identifier(ident)
        };
        Ok(token)
    }

    fn read_string(&mut self) -> (r: Result<Token, String>)
        requires
            old(self).wf(),
        ensures
            final(self).wf(),
            (token_result_view(r), final(self)@) == lex_string_body(
                lex_advance(old(self)@),
                seq![],
            ),
    {
        self.advance();  // the opening quote
        let mut s = String::new();
        let ghost target = lex_string_body(self@, seq![]);
        loop
            invariant
                self.wf(),
                lex_string_body(self@, s@) == target,
                target == lex_string_body(lex_advance(old(self)@), seq![]),
            ensures
                self.wf(),
                lex_peek(self@) is None,
                lex_string_body(self@, s@) == target,
            decreases self@.input.len() - self@.pos,
        {
            let c = match self.peek() {
                Some(c) => c,
                None => break,
            };
            if c == '"' {
                self.advance();
                return Ok(Token::StringConst(s));
            } else if c == '\\' {
                self.advance();
                if let Some(escaped) = self.advance() {
                    let e = if escaped == 'n' {
                        '\n'
                    } else if escaped == 't' {
                        '\t'
                    } else if escaped == 'r' {
                        '\r'
                    } else {
                        escaped
                    };
                    push_char(&mut s, e);
                }
            } else {
                push_char(&mut s, c);
                self.advance();
            }
        }
        Err(message_with_line("Unterminated string literal at line ", self.line))
    }

    fn read_char(&mut self) -> (r: Result<Token, String>)
        requires
            old(self).wf(),
        ensures
            final(self).wf(),
            (token_result_view(r), final(self)@) == lex_char_literal(old(self)@),
    {
        self.advance();  // the opening quote
        let c = match self.advance() {
            Some('\\') => {
                if let Some(escaped) = self.advance() {
                    if escaped == '0' {
                        '\0'
                    } else if escaped == 'n' {
                        '\n'
                    } else if escaped == 't' {
                        '\t'
                    } else if escaped == 'r' {
                        '\r'
                    } else {
                        escaped
                    }
                } else {
                    return Err(
                        message_with_line("Unterminated character literal at line ", self.line),
                    );
                }
            },
            Some(c) => c,
            None => {
                return Err(
                    message_with_line("Unterminated character literal at line ", self.line),
                )
            },
        };
        match self.advance() {
            Some('\'') => Ok(Token::CharConst(c)),
            _ => Err(message_with_line("Unterminated character literal at line ", self.line)),
        }
    }

    /// After a one-character operator: the two-character token `two` when the
    /// next character is `second` (consuming it), else `one`.
    fn one_or_two(&mut self, second: char, two: Token, one: Token) -> (r: Result<Token, String>)
        requires
            old(self).wf(),
        ensures
            final(self).wf(),
            (token_result_view(r), final(self)@) == lex_one_or_two(
                old(self)@,
                second,
                two@,
                one@,
            ),
    {
        match self.peek() {
            Some(c) => {
                if c == second {
                    self.advance();
                    Ok(two)
                } else {
                    Ok(one)
                }
            },
            None => Ok(one),
        }
    }

    fn read_operator_or_punctuation(&mut self) -> (r: Result<Token, String>)
        requires
            old(self).wf(),
            lex_peek(old(self)@) is Some,
        ensures
            final(self).wf(),
            (token_result_view(r), final(self)@) == lex_operator(old(self)@),
    {
        let c = match self.advance() {
            Some(c) => c,
            None => '\0',
        };
        let nx = self.peek();
        if c == '+' {
            if let Some('+') = nx {
                self.advance();
                Ok(Token::PlusPlus)
            } else {
                self.one_or_two('=', Token::PlusAssign, Token::Plus)
            }
        } else if c == '-' {
            if let Some('>') = nx {
                self.advance();
                Ok(Token::Arrow)
            } else if let Some('-') = nx {
                self.advance();
                Ok(Token::MinusMinus)
            } else {
                self.one_or_two('=', Token::MinusAssign, Token::Minus)
            }
        } else if c == '*' {
            self.one_or_two('=', Token::StarAssign, Token::Star)
        } else if c == '/' {
            self.one_or_two('=', Token::SlashAssign, Token::Slash)
        } else if c == '%' {
            self.one_or_two('=', Token::PercentAssign, Token::Percent)
        } else if c == '=' {
            self.one_or_two('=', Token::EqualEqual, Token::Assign)
        } else if c == '!' {
            self.one_or_two('=', Token::NotEqual, Token::Not)
        } else if c == '<' {
            if let Some('=') = nx {
                self.advance();
                Ok(Token::LessEqual)
            } else if let Some('<') = nx {
                self.advance();
                self.one_or_two('=', Token::ShiftLeftAssign, Token::ShiftLeft)
            } else {
                Ok(Token::Less)
            }
        } else if c == '>' {
            if let Some('=') = nx {
                self.advance();
                Ok(Token::GreaterEqual)
            } else if let Some('>') = nx {
                self.advance();
                self.one_or_two('=', Token::ShiftRightAssign, Token::ShiftRight)
            } else {
                Ok(Token::Greater)
            }
        } else if c == '&' {
            if let Some('&') = nx {
                self.advance();
                Ok(Token::And)
            } else {
                self.one_or_two('=', Token::AndAssign, Token::BitAnd)
            }
        } else if c == '|' {
            if let Some('|') = nx {
                self.advance();
                Ok(Token::Or)
            } else {
                self.one_or_two('=', Token::OrAssign, Token::BitOr)
            }
        } else if c == '^' {
            self.one_or_two('=', Token::XorAssign, Token::BitXor)
        } else if c == '~' {
            Ok(Token::BitNot)
        } else if c == ';' {
            Ok(Token::Semicolon)
        } else if c == ',' {
            Ok(Token::Comma)
        } else if c == '(' {
            Ok(Token::OpenParen)
        } else if c == ')' {
            Ok(Token::CloseParen)
        } else if c == '{' {
            Ok(Token::OpenBrace)
        } else if c == '}' {
            Ok(Token::CloseBrace)
        } else if c == '[' {
            Ok(Token::OpenBracket)
        } else if c == ']' {
            Ok(Token::CloseBracket)
        } else if c == '?' {
            Ok(Token::Question)
        } else if c == ':' {
            Ok(Token::Colon)
        } else if c == '.' {
            Ok(Token::Dot)
        } else {
            let mut m = String::from_str("Unexpected character '");
            push_char(&mut m, c);
            push_str(&mut m, "' at line ");
            push_decimal(&mut m, self.line as u64);
            push_str(&mut m, ", column ");
            push_decimal(&mut m, self.column as u64);
            assert(m@ =~= unexpected_char(c, self@.line, self@.column));
            Err(m)
        }
    }
}

/// Splits `input` into tokens, up to its end (the result holds no `EOF`), or
/// gives the first lexical error.
pub fn tokenize(input: &str) -> (r: Result<Vec<Token>, String>)
    requires
        input@.len() + 2 <= usize::MAX,
    ensures
        match spec_tokenize(input@) {
            Ok(ts) => r matches Ok(v) && tokens_view(v@) == ts,
            Err(e) => r matches Err(m) && m@ == e,
        },
{
    let mut lexer = Lexer::new(input);
    let mut tokens: Vec<Token> = Vec::new();
    let ghost target = spec_tokenize(input@);
    loop
        invariant
            lexer.wf(),
            target == spec_tokenize(input@),
            target == match tokenize_from(lexer@) {
                Ok(ts) => Ok(tokens_view(tokens@) + ts),
                Err(e) => Err(e),
            },
        decreases lexer@.input.len() - lexer@.pos,
    {
        let ghost before = lexer@;
        proof {
            lemma_next_token_progress(before);
        }
        match lexer.next_token() {
            Ok(Token::EOF) => {
                assert(tokens_view(tokens@) + Seq::<SpecToken>::empty() =~= tokens_view(tokens@));
                return Ok(tokens);
            },
            Ok(token) => {
                let ghost t = token@;
                let ghost old_tokens = tokens@;
                tokens.push(token);
                proof {
                    assert(tokens_view(tokens@) =~= tokens_view(old_tokens).push(t));
                    match tokenize_from(lexer@) {
                        Ok(ts) => {
                            assert(tokens_view(tokens@) + ts =~= tokens_view(old_tokens) + (seq![t]
                                + ts));
                        },
                        Err(e) => {},
                    }
                }
            },
            Err(e) => return Err(e),
        }
    }
}

} // verus!
