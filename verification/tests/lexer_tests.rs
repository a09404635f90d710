use ccompiler::lexer::{tokenize, Lexer, Token};

fn ident(s: &str) -> Token {
    Token::Identifier(s.to_string())
}

#[test]
fn tokenizes_a_small_function() {
    let tokens = tokenize("int main() { return 0; }").unwrap();
    assert_eq!(
        tokens,
        vec![
            Token::Int,
            ident("main"),
            Token::OpenParen,
            Token::CloseParen,
            Token::OpenBrace,
            Token::Return,
            Token::IntConst(0),
            Token::Semicolon,
            Token::CloseBrace,
        ]
    );
}

#[test]
fn tokenizes_every_keyword() {
    let tokens =
        tokenize("int char void return if else while do for break continue sizeof").unwrap();
    assert_eq!(
        tokens,
        vec![
            Token::Int,
            Token::Char,
            Token::Void,
            Token::Return,
            Token::If,
            Token::Else,
            Token::While,
            Token::Do,
            Token::For,
            Token::Break,
            Token::Continue,
            Token::Sizeof,
        ]
    );
}

#[test]
fn keyword_prefixes_are_identifiers() {
    let tokens = tokenize("integer _if do2").unwrap();
    assert_eq!(tokens, vec![ident("integer"), ident("_if"), ident("do2")]);
}

#[test]
fn tokenizes_every_operator() {
    let tokens = tokenize(
        "+ ++ += - -> -- -= * *= / /= % %= = == ! != < <= << <<= > >= >> >>= & && &= | || |= ^ ^= ~ ; , ( ) { } [ ] ? : .",
    )
    .unwrap();
    assert_eq!(
        tokens,
        vec![
            Token::Plus,
            Token::PlusPlus,
            Token::PlusAssign,
            Token::Minus,
            Token::Arrow,
            Token::MinusMinus,
            Token::MinusAssign,
            Token::Star,
            Token::StarAssign,
            Token::Slash,
            Token::SlashAssign,
            Token::Percent,
            Token::PercentAssign,
            Token::Assign,
            Token::EqualEqual,
            Token::Not,
            Token::NotEqual,
            Token::Less,
            Token::LessEqual,
            Token::ShiftLeft,
            Token::ShiftLeftAssign,
            Token::Greater,
            Token::GreaterEqual,
            Token::ShiftRight,
            Token::ShiftRightAssign,
            Token::BitAnd,
            Token::And,
            Token::AndAssign,
            Token::BitOr,
            Token::Or,
            Token::OrAssign,
            Token::BitXor,
            Token::XorAssign,
            Token::BitNot,
            Token::Semicolon,
            Token::Comma,
            Token::OpenParen,
            Token::CloseParen,
            Token::OpenBrace,
            Token::CloseBrace,
            Token::OpenBracket,
            Token::CloseBracket,
            Token::Question,
            Token::Colon,
            Token::Dot,
        ]
    );
}

#[test]
fn operators_without_spaces_take_the_longest_match() {
    let tokens = tokenize("a+++b<<=c").unwrap();
    assert_eq!(
        tokens,
        vec![
            ident("a"),
            Token::PlusPlus,
            Token::Plus,
            ident("b"),
            Token::ShiftLeftAssign,
            ident("c"),
        ]
    );
}

#[test]
fn comments_and_white_space_are_skipped() {
    let tokens = tokenize("a // line comment\n b /* block\n comment */ c\t\r\n").unwrap();
    assert_eq!(tokens, vec![ident("a"), ident("b"), ident("c")]);
}

#[test]
fn division_is_not_a_comment() {
    let tokens = tokenize("a / b /= c").unwrap();
    assert_eq!(
        tokens,
        vec![ident("a"), Token::Slash, ident("b"), Token::SlashAssign, ident("c")]
    );
}

#[test]
fn unclosed_block_comment_runs_to_the_end() {
    let tokens = tokenize("x /* never closed").unwrap();
    assert_eq!(tokens, vec![ident("x")]);
}

#[test]
fn unicode_white_space_is_skipped() {
    let tokens = tokenize("a\u{00a0}b\u{3000}c").unwrap();
    assert_eq!(tokens, vec![ident("a"), ident("b"), ident("c")]);
}

#[test]
fn identifiers_continue_with_unicode_letters() {
    let tokens = tokenize("caf\u{e9} x").unwrap();
    assert_eq!(tokens, vec![ident("caf\u{e9}"), ident("x")]);
}

#[test]
fn numbers_are_decimal() {
    let tokens = tokenize("0 7 12345 007").unwrap();
    assert_eq!(
        tokens,
        vec![Token::IntConst(0), Token::IntConst(7), Token::IntConst(12345), Token::IntConst(7)]
    );
}

#[test]
fn large_numbers_wrap_around() {
    let tokens = tokenize("9223372036854775807 9223372036854775808 18446744073709551617").unwrap();
    assert_eq!(
        tokens,
        vec![Token::IntConst(i64::MAX), Token::IntConst(i64::MIN), Token::IntConst(1)]
    );
}

#[test]
fn string_literals_with_escapes() {
    let tokens = tokenize(r#""hi" "a\nb\t\"q\" \\ \x""#).unwrap();
    assert_eq!(
        tokens,
        vec![
            Token::StringConst("hi".to_string()),
            Token::StringConst("a\nb\t\"q\" \\ x".to_string()),
        ]
    );
}

#[test]
fn char_literals_with_escapes() {
    let tokens = tokenize(r"'a' '\n' '\0' '\'' '\q'").unwrap();
    assert_eq!(
        tokens,
        vec![
            Token::CharConst('a'),
            Token::CharConst('\n'),
            Token::CharConst('\0'),
            Token::CharConst('\''),
            Token::CharConst('q'),
        ]
    );
}

#[test]
fn unterminated_string_reports_its_line() {
    assert_eq!(
        tokenize("x\n\"abc\ndef"),
        Err("Unterminated string literal at line 3".to_string())
    );
}

#[test]
fn unterminated_char_reports_its_line() {
    assert_eq!(tokenize("'a"), Err("Unterminated character literal at line 1".to_string()));
    assert_eq!(tokenize("'ab'"), Err("Unterminated character literal at line 1".to_string()));
    assert_eq!(tokenize("'\\"), Err("Unterminated character literal at line 1".to_string()));
    assert_eq!(tokenize("'a\n"), Err("Unterminated character literal at line 2".to_string()));
}

#[test]
fn unexpected_character_reports_line_and_column() {
    assert_eq!(
        tokenize(" \n\n #"),
        Err("Unexpected character '#' at line 3, column 3".to_string())
    );
    assert_eq!(tokenize("@"), Err("Unexpected character '@' at line 1, column 2".to_string()));
    assert_eq!(
        tokenize("int x = 1 $"),
        Err("Unexpected character '$' at line 1, column 12".to_string())
    );
}

#[test]
fn empty_input_has_no_tokens() {
    assert_eq!(tokenize(""), Ok(vec![]));
    assert_eq!(tokenize("   // only a comment"), Ok(vec![]));
}

#[test]
fn lexer_gives_eof_at_the_end_and_stays_there() {
    let mut lexer = Lexer::new("x 1");
    assert_eq!(lexer.next_token(), Ok(ident("x")));
    assert_eq!(lexer.next_token(), Ok(Token::IntConst(1)));
    assert_eq!(lexer.next_token(), Ok(Token::EOF));
    assert_eq!(lexer.next_token(), Ok(Token::EOF));
}

#[test]
fn tokens_never_include_eof_nor_keyword_identifiers() {
    let tokens = tokenize("int x; char y; while (x) { x = x - 1; }").unwrap();
    for t in &tokens {
        assert_ne!(*t, Token::EOF);
        if let Token::Identifier(name) = t {
            assert!(!name.is_empty());
            assert!(!["int", "char", "void", "while", "if", "return"].contains(&name.as_str()));
        }
    }
}

#[test]
fn line_and_column_count_what_was_read() {
    assert_eq!(
        tokenize("a\n\tbc\n  $"),
        Err("Unexpected character '$' at line 3, column 4".to_string())
    );
    assert_eq!(
        tokenize("/* x\n y */ @"),
        Err("Unexpected character '@' at line 2, column 8".to_string())
    );
    assert_eq!(
        tokenize("// one\n// two\n\n`"),
        Err("Unexpected character '`' at line 4, column 2".to_string())
    );
}

#[test]
fn trivia_only_input_gives_eof_again_and_again() {
    for src in ["", "  \n\t", " /* a */ // b\n ", "\u{3000}\n"] {
        let mut lexer = Lexer::new(src);
        assert_eq!(lexer.next_token(), Ok(Token::EOF));
        assert_eq!(lexer.next_token(), Ok(Token::EOF));
        assert_eq!(lexer.next_token(), Ok(Token::EOF));
    }
}

#[test]
fn identifiers_end_at_ascii_punctuation_and_space() {
    assert_eq!(
        tokenize("int main()"),
        Ok(vec![Token::Int, ident("main"), Token::OpenParen, Token::CloseParen])
    );
    assert_eq!(tokenize("a_1+b"), Ok(vec![ident("a_1"), Token::Plus, ident("b")]));
    assert_eq!(tokenize("x;y"), Ok(vec![ident("x"), Token::Semicolon, ident("y")]));
}

fn tokens_by_next_token(src: &str) -> Result<Vec<Token>, String> {
    let mut lexer = Lexer::new(src);
    let mut out = Vec::new();
    loop {
        match lexer.next_token()? {
            Token::EOF => return Ok(out),
            t => out.push(t),
        }
    }
}

#[test]
fn tokenize_reads_tokens_one_after_another() {
    for src in ["int x = 1;", "", "a /* c */ + 'b' \"s\"", "x $ y", "\"open", "f(1, 2) >>= 3"] {
        assert_eq!(tokenize(src), tokens_by_next_token(src));
    }
}
