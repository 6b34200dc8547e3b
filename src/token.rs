use vstd::prelude::*;

verus! {

#[derive(Debug, Clone, Copy, PartialEq, Eq, Structural)]
pub enum Punct {
    DotDotDot,
    LeftParenthesis,
    RightParenthesis,
    LeftBracket,
    RightBracket,
    LeftSquare,
    RightSquare,
    SemiColon,
    Colon,
    Comma,
    Dot,
    Arrow,
    EqualEqual,
    BangEqual,
    PlusPlus,
    MinusMinus,
    LessEqual,
    GreaterEqual,
    PipePipe,
    AmpAmp,
    Amp,
    Equal,
    Plus,
    Minus,
    Star,
    Slash,
    Percent,
    Less,
    Greater,
    Bang,
}

#[derive(Debug, Clone, Copy, PartialEq, Eq, Structural)]
pub enum Keyword {
    Extern,
    While,
    For,
    If,
    Else,
    Return,
    Continue,
    Break,
    Struct,
    As,
    Fn,
    Let,
    Nullptr,
}

/// A token. Identifiers, double literals and string literals keep their source text;
/// a string literal's text includes its quotes.
#[derive(Debug)]
pub enum Token {
    Punct(Punct),
    Keyword(Keyword),
    BooleanLiteral(bool),
    Identifier(String),
    IntegerLiteral(i64),
    DoubleLiteral(String),
    StringLiteral(String),
    EOF,
}

pub enum TokenView {
    Punct(Punct),
    Keyword(Keyword),
    BooleanLiteral(bool),
    Identifier(Seq<char>),
    IntegerLiteral(i64),
    DoubleLiteral(Seq<char>),
    StringLiteral(Seq<char>),
    EOF,
}

impl View for Token {
    type V = TokenView;

    open spec fn view(&self) -> TokenView {
        match self {
            Token::Punct(p) => TokenView::Punct(*p),
            Token::Keyword(k) => TokenView::Keyword(*k),
            Token::BooleanLiteral(b) => TokenView::BooleanLiteral(*b),
            Token::Identifier(s) => TokenView::Identifier(s@),
            Token::IntegerLiteral(n) => TokenView::IntegerLiteral(*n),
            Token::DoubleLiteral(s) => TokenView::DoubleLiteral(s@),
            Token::StringLiteral(s) => TokenView::StringLiteral(s@),
            Token::EOF => TokenView::EOF,
        }
    }
}

impl Clone for Token {
    fn clone(&self) -> (r: Token)
        ensures
            r@ == self@,
    {
        match self {
            Token::Punct(p) => Token::Punct(*p),
            Token::Keyword(k) => Token::Keyword(*k),
            Token::BooleanLiteral(b) => Token::BooleanLiteral(*b),
            Token::Identifier(s) => Token::Identifier(s.clone()),
            Token::IntegerLiteral(n) => Token::IntegerLiteral(*n),
            Token::DoubleLiteral(s) => Token::DoubleLiteral(s.clone()),
            Token::StringLiteral(s) => Token::StringLiteral(s.clone()),
            Token::EOF => Token::EOF,
        }
    }
}

#[derive(Debug)]
pub enum LexingError {
    UnknownChar(char),
    UnparsableNumber,
    ReservedIdentifier(String),
}

pub enum LexingErrorView {
    UnknownChar(char),
    UnparsableNumber,
    ReservedIdentifier(Seq<char>),
}

impl View for LexingError {
    type V = LexingErrorView;

    open spec fn view(&self) -> LexingErrorView {
        match self {
            LexingError::UnknownChar(c) => LexingErrorView::UnknownChar(*c),
            LexingError::UnparsableNumber => LexingErrorView::UnparsableNumber,
            LexingError::ReservedIdentifier(s) => LexingErrorView::ReservedIdentifier(s@),
        }
    }
}

} // verus!
