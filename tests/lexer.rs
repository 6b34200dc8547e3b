use minilang::lexer::Lexer;
use minilang::token::{Keyword, LexingError, Punct, Token};

fn lex_all(src: &str) -> Vec<(Token, usize, usize)> {
    let mut lexer = Lexer::new(src);
    let mut out = Vec::new();
    loop {
        let t = lexer.next_token().expect("lexing failed");
        let eof = matches!(t.inner, Token::EOF);
        out.push((t.inner, t.span.start, t.span.len));
        if eof {
            return out;
        }
    }
}

fn kinds(src: &str) -> Vec<Token> {
    lex_all(src).into_iter().map(|(t, _, _)| t).collect()
}

fn ident(s: &str) -> Token {
    Token::Identifier(s.to_string())
}

fn tokens_equal(a: &Token, b: &Token) -> bool {
    format!("{:?}", a) == format!("{:?}", b)
}

fn assert_tokens(src: &str, expected: Vec<Token>) {
    let got = kinds(src);
    assert_eq!(got.len(), expected.len(), "{:?}", got);
    for (g, e) in got.iter().zip(expected.iter()) {
        assert!(tokens_equal(g, e), "got {:?}, expected {:?}", g, e);
    }
}

#[test]
fn lexes_return_expression_program() {
    assert_tokens(
        "fn main(): int { return 1 + 2 * 3; }",
        vec![
            Token::Keyword(Keyword::Fn),
            ident("main"),
            Token::Punct(Punct::LeftParenthesis),
            Token::Punct(Punct::RightParenthesis),
            Token::Punct(Punct::Colon),
            ident("int"),
            Token::Punct(Punct::LeftBracket),
            Token::Keyword(Keyword::Return),
            Token::IntegerLiteral(1),
            Token::Punct(Punct::Plus),
            Token::IntegerLiteral(2),
            Token::Punct(Punct::Star),
            Token::IntegerLiteral(3),
            Token::Punct(Punct::SemiColon),
            Token::Punct(Punct::RightBracket),
            Token::EOF,
        ],
    );
}

#[test]
fn lexes_extern_vararg_declaration() {
    assert_tokens(
        "extern fn printf(*i8, ...): int;",
        vec![
            Token::Keyword(Keyword::Extern),
            Token::Keyword(Keyword::Fn),
            ident("printf"),
            Token::Punct(Punct::LeftParenthesis),
            Token::Punct(Punct::Star),
            ident("i8"),
            Token::Punct(Punct::Comma),
            Token::Punct(Punct::DotDotDot),
            Token::Punct(Punct::RightParenthesis),
            Token::Punct(Punct::Colon),
            ident("int"),
            Token::Punct(Punct::SemiColon),
            Token::EOF,
        ],
    );
}

#[test]
fn longest_operators_win() {
    assert_tokens(
        "-> -- - ++ + == = != ! <= < >= > && & || ...",
        vec![
            Token::Punct(Punct::Arrow),
            Token::Punct(Punct::MinusMinus),
            Token::Punct(Punct::Minus),
            Token::Punct(Punct::PlusPlus),
            Token::Punct(Punct::Plus),
            Token::Punct(Punct::EqualEqual),
            Token::Punct(Punct::Equal),
            Token::Punct(Punct::BangEqual),
            Token::Punct(Punct::Bang),
            Token::Punct(Punct::LessEqual),
            Token::Punct(Punct::Less),
            Token::Punct(Punct::GreaterEqual),
            Token::Punct(Punct::Greater),
            Token::Punct(Punct::AmpAmp),
            Token::Punct(Punct::Amp),
            Token::Punct(Punct::PipePipe),
            Token::Punct(Punct::DotDotDot),
            Token::EOF,
        ],
    );
}

#[test]
fn keywords_and_booleans() {
    assert_tokens(
        "while for if else continue break struct as let nullptr true false",
        vec![
            Token::Keyword(Keyword::While),
            Token::Keyword(Keyword::For),
            Token::Keyword(Keyword::If),
            Token::Keyword(Keyword::Else),
            Token::Keyword(Keyword::Continue),
            Token::Keyword(Keyword::Break),
            Token::Keyword(Keyword::Struct),
            Token::Keyword(Keyword::As),
            Token::Keyword(Keyword::Let),
            Token::Keyword(Keyword::Nullptr),
            Token::BooleanLiteral(true),
            Token::BooleanLiteral(false),
            Token::EOF,
        ],
    );
}

#[test]
fn comments_and_white_space_are_skipped() {
    let toks = lex_all("  // line\n# directive\n/* block\n comment */ x");
    assert_eq!(toks.len(), 2);
    assert!(tokens_equal(&toks[0].0, &ident("x")));
    assert_eq!(toks[0].1, 43);
    assert_eq!(toks[0].2, 1);
}

#[test]
fn unclosed_block_comment_is_not_skipped() {
    assert_tokens(
        "/* x",
        vec![Token::Punct(Punct::Slash), Token::Punct(Punct::Star), ident("x"), Token::EOF],
    );
}

#[test]
fn spans_count_characters() {
    let toks = lex_all("let abc = 42;");
    assert_eq!((toks[1].1, toks[1].2), (4, 3));
    assert_eq!((toks[3].1, toks[3].2), (10, 2));
}

#[test]
fn eof_span_is_one_past_the_input() {
    let toks = lex_all("a ");
    let last = toks.last().unwrap();
    assert!(matches!(last.0, Token::EOF));
    assert_eq!((last.1, last.2), (2, 1));
}

#[test]
fn empty_input_gives_eof() {
    let toks = lex_all("");
    assert_eq!(toks.len(), 1);
    assert!(matches!(toks[0].0, Token::EOF));
    assert_eq!((toks[0].1, toks[0].2), (0, 1));
}

#[test]
fn double_literals_keep_their_text() {
    assert_tokens(
        "3.25e-2 0.5 1.5E3 2.5e",
        vec![
            Token::DoubleLiteral("3.25e-2".to_string()),
            Token::DoubleLiteral("0.5".to_string()),
            Token::DoubleLiteral("1.5E3".to_string()),
            Token::DoubleLiteral("2.5".to_string()),
            ident("e"),
            Token::EOF,
        ],
    );
}

#[test]
fn dot_before_digits_is_a_dot() {
    assert_tokens(
        ".5",
        vec![Token::Punct(Punct::Dot), Token::IntegerLiteral(5), Token::EOF],
    );
}

#[test]
fn string_literal_with_escaped_quote() {
    assert_tokens(
        "\"say \\\"hi\\\"\" x",
        vec![Token::StringLiteral("\"say \\\"hi\\\"\"".to_string()), ident("x"), Token::EOF],
    );
    assert_tokens("\"\"", vec![Token::StringLiteral("\"\"".to_string()), Token::EOF]);
}

#[test]
fn reserved_identifier_is_an_error() {
    let mut lexer = Lexer::new("  ___secret");
    let err = lexer.next_token().unwrap_err();
    assert!(matches!(&err.inner, LexingError::ReservedIdentifier(s) if s == "___secret"));
    assert_eq!((err.span.start, err.span.len), (2, 9));
    assert_tokens("__ok", vec![ident("__ok"), Token::EOF]);
}

#[test]
fn unknown_character_is_an_error() {
    let mut lexer = Lexer::new("a @");
    lexer.next_token().unwrap();
    let err = lexer.next_token().unwrap_err();
    assert!(matches!(err.inner, LexingError::UnknownChar('@')));
    assert_eq!((err.span.start, err.span.len), (2, 1));
    let mut lexer = Lexer::new("|");
    assert!(matches!(lexer.next_token().unwrap_err().inner, LexingError::UnknownChar('|')));
    let mut lexer = Lexer::new("\"open");
    assert!(matches!(lexer.next_token().unwrap_err().inner, LexingError::UnknownChar('"')));
}

#[test]
fn integer_overflow_is_unparsable() {
    let mut lexer = Lexer::new("9223372036854775808");
    let err = lexer.next_token().unwrap_err();
    assert!(matches!(err.inner, LexingError::UnparsableNumber));
    assert_eq!((err.span.start, err.span.len), (0, 19));
    assert_tokens(
        "9223372036854775807",
        vec![Token::IntegerLiteral(i64::MAX), Token::EOF],
    );
}

#[test]
fn peek_does_not_consume() {
    let mut lexer = Lexer::new("foo bar");
    let p = lexer.peek_token().unwrap();
    let p2 = lexer.peek_token().unwrap();
    let n = lexer.next_token().unwrap();
    assert!(tokens_equal(&p.inner, &ident("foo")));
    assert!(tokens_equal(&p2.inner, &ident("foo")));
    assert!(tokens_equal(&n.inner, &ident("foo")));
    assert_eq!(n.span.start, 0);
    let n = lexer.next_token().unwrap();
    assert!(tokens_equal(&n.inner, &ident("bar")));
}

#[test]
fn unicode_white_space_is_skipped() {
    let toks = lex_all("\u{a0}\u{2003}x\u{3000}");
    assert!(tokens_equal(&toks[0].0, &ident("x")));
    assert_eq!(toks[0].1, 2);
}
