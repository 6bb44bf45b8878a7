use lua::{Lexer, LexerError, TokenStream};

fn tokens(src: &str) -> Vec<TokenStream> {
    Lexer::new(src).lex_all()
}

#[test]
fn lexes_a_local_declaration() {
    assert_eq!(
        tokens("local x = 10"),
        vec![
            TokenStream::Local,
            TokenStream::Identifier("x".to_string()),
            TokenStream::Equal,
            TokenStream::Number("10".to_string()),
            TokenStream::EOF,
        ]
    );
}

#[test]
fn lexes_keywords_and_booleans() {
    assert_eq!(
        tokens("while true do break end"),
        vec![
            TokenStream::While,
            TokenStream::True,
            TokenStream::Do,
            TokenStream::Break,
            TokenStream::End,
            TokenStream::EOF,
        ]
    );
}

#[test]
fn lexes_operators() {
    assert_eq!(
        tokens("== ~= <= >= < > = .. ... . + - * / % ^ #"),
        vec![
            TokenStream::EqualEqual,
            TokenStream::NotEqual,
            TokenStream::LessEqual,
            TokenStream::GreaterEqual,
            TokenStream::Less,
            TokenStream::Greater,
            TokenStream::Equal,
            TokenStream::DotDot,
            TokenStream::DotDotDot,
            TokenStream::Dot,
            TokenStream::Plus,
            TokenStream::Minus,
            TokenStream::Asterisk,
            TokenStream::Slash,
            TokenStream::Percent,
            TokenStream::Caret,
            TokenStream::Hash,
            TokenStream::EOF,
        ]
    );
}

#[test]
fn lexes_brackets_and_separators() {
    assert_eq!(
        tokens("( ) { } [ ] : , ;"),
        vec![
            TokenStream::LParen,
            TokenStream::RParen,
            TokenStream::LBrace,
            TokenStream::RBrace,
            TokenStream::LBracket,
            TokenStream::RBracket,
            TokenStream::Colon,
            TokenStream::Comma,
            TokenStream::Semicolon,
            TokenStream::EOF,
        ]
    );
}

#[test]
fn lexes_a_string_literal() {
    assert_eq!(
        tokens("\"hello world\""),
        vec![TokenStream::String("hello world".to_string()), TokenStream::EOF]
    );
}

#[test]
fn an_unclosed_string_runs_to_the_end() {
    assert_eq!(tokens("\"abc"), vec![TokenStream::String("abc".to_string()), TokenStream::EOF]);
}

#[test]
fn lexes_a_decimal_numeral() {
    assert_eq!(tokens("3.25"), vec![TokenStream::Number("3.25".to_string()), TokenStream::EOF]);
}

#[test]
fn a_numeral_stops_before_a_concatenation() {
    assert_eq!(
        tokens("1..2"),
        vec![
            TokenStream::Number("1".to_string()),
            TokenStream::DotDot,
            TokenStream::Number("2".to_string()),
            TokenStream::EOF,
        ]
    );
}

#[test]
fn a_numeral_with_two_points_is_an_error() {
    let mut lex = Lexer::new("1.2.3");
    assert_eq!(lex.next_token(), Err(LexerError::ParseIntError));
}

#[test]
fn skips_a_line_comment() {
    assert_eq!(
        tokens("-- a comment\nx"),
        vec![TokenStream::Identifier("x".to_string()), TokenStream::EOF]
    );
}

#[test]
fn skips_a_block_comment() {
    assert_eq!(
        tokens("--[[ one\ntwo ]] y"),
        vec![TokenStream::Identifier("y".to_string()), TokenStream::EOF]
    );
}

#[test]
fn an_invalid_character_stops_lexing() {
    let mut lex = Lexer::new("x @ y");
    let (toks, err) = lex.lex_with_error();
    assert_eq!(toks, vec![TokenStream::Identifier("x".to_string())]);
    assert_eq!(err, Some(LexerError::InvalidChar('@')));
}

#[test]
fn a_lone_tilde_is_an_error() {
    let mut lex = Lexer::new("~");
    assert_eq!(lex.next_token(), Err(LexerError::InvalidChar('~')));
}

#[test]
fn lex_all_keeps_the_tokens_before_an_error() {
    assert_eq!(tokens("a $"), vec![TokenStream::Identifier("a".to_string())]);
}

#[test]
fn names_may_hold_digits_and_underscores() {
    assert_eq!(
        tokens("_a1 b_2"),
        vec![
            TokenStream::Identifier("_a1".to_string()),
            TokenStream::Identifier("b_2".to_string()),
            TokenStream::EOF,
        ]
    );
}

#[test]
fn the_empty_input_gives_the_end_token() {
    assert_eq!(tokens(""), vec![TokenStream::EOF]);
    assert_eq!(tokens("   \n\t "), vec![TokenStream::EOF]);
}

#[test]
fn current_peek_and_advance() {
    let mut lex = Lexer::new("ab");
    assert_eq!(lex.current(), Some('a'));
    assert_eq!(lex.peek(), Some('b'));
    lex.advance();
    assert_eq!(lex.current(), Some('b'));
    assert_eq!(lex.peek(), None);
    lex.advance();
    assert_eq!(lex.current(), None);
    lex.advance();
    assert_eq!(lex.current(), None);
}

#[test]
fn skip_whitespace_stops_at_the_first_other_character() {
    let mut lex = Lexer::new(" \t\n x");
    lex.skip_whitespace();
    assert_eq!(lex.current(), Some('x'));
}

#[test]
fn read_identifier_reads_a_name() {
    let mut lex = Lexer::new("abc_1+");
    assert_eq!(lex.read_identifier(), Ok("abc_1".to_string()));
    assert_eq!(lex.current(), Some('+'));
}

#[test]
fn read_identifier_refuses_a_digit_first() {
    let mut lex = Lexer::new("1a");
    assert_eq!(lex.read_identifier(), Err(LexerError::FirstCharIdentNotAccept));
    assert_eq!(lex.current(), Some('1'));
}

#[test]
fn read_identifier_at_the_end_is_empty() {
    let mut lex = Lexer::new("");
    assert_eq!(lex.read_identifier(), Ok(String::new()));
}

#[test]
fn read_string_moves_past_the_closing_quote() {
    let mut lex = Lexer::new("\"ab\"c");
    assert_eq!(lex.read_string(), "ab".to_string());
    assert_eq!(lex.current(), Some('c'));
}

#[test]
fn comments_are_skipped_to_their_end() {
    let mut lex = Lexer::new("abc\nd");
    lex.skip_single_line_comment();
    assert_eq!(lex.current(), Some('d'));
    let mut lex = Lexer::new("a ]] b");
    lex.skip_multiline_comment();
    assert_eq!(lex.current(), Some(' '));
    lex.advance();
    assert_eq!(lex.current(), Some('b'));
    let mut lex = Lexer::new("no end");
    lex.skip_multiline_comment();
    assert_eq!(lex.current(), None);
}

#[test]
fn lexing_from_a_clone_gives_the_same_tokens() {
    let lex = Lexer::new("x = y .. \"z\"");
    let mut a = lex.clone();
    let mut b = lex.clone();
    assert_eq!(a.lex_all(), b.lex_all());
}

#[test]
fn an_invalid_character_is_not_consumed() {
    let mut lex = Lexer::new("  @x");
    assert_eq!(lex.next_token(), Err(LexerError::InvalidChar('@')));
    assert_eq!(lex.next_token(), Err(LexerError::InvalidChar('@')));
}

#[test]
fn a_lone_tilde_is_consumed() {
    let mut lex = Lexer::new("~x");
    assert_eq!(lex.next_token(), Err(LexerError::InvalidChar('~')));
    assert_eq!(lex.next_token(), Ok(TokenStream::Identifier("x".to_string())));
}

#[test]
fn only_white_space_left_gives_the_end_again_and_again() {
    let mut lex = Lexer::new("x \u{a0}\u{2003} \n");
    assert_eq!(lex.next_token(), Ok(TokenStream::Identifier("x".to_string())));
    assert_eq!(lex.next_token(), Ok(TokenStream::EOF));
    assert_eq!(lex.next_token(), Ok(TokenStream::EOF));
    assert_eq!(lex.current(), None);
}

#[test]
fn lexing_that_meets_an_error_gives_no_end_token() {
    let (toks, err) = Lexer::new("a b \"c\" 1 ~ d").lex_with_error();
    assert_eq!(err, Some(LexerError::InvalidChar('~')));
    assert!(!toks.contains(&TokenStream::EOF));
    assert_eq!(toks.len(), 4);
}

#[test]
fn white_space_is_what_std_calls_white_space() {
    for n in 0..=0x10ffffu32 {
        if let Some(c) = char::from_u32(n) {
            let mut lex = Lexer::new(&c.to_string());
            lex.skip_whitespace();
            assert_eq!(lex.current().is_none(), c.is_whitespace(), "{:?}", c);
        }
    }
}
