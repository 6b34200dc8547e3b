use vstd::prelude::*;

use crate::span::{Span, Spanned};
use crate::token::{Keyword, LexingError, LexingErrorView, Punct, Token, TokenView};

verus! {

/// The character at `i`, or NUL past either end (no token starts with NUL).
pub open spec fn char_at(s: Seq<char>, i: int) -> char {
    if 0 <= i < s.len() {
        s[i]
    } else {
        '\0'
    }
}

/// Unicode white space.
pub open spec fn is_space(c: char) -> bool {
    ('\t' <= c && c <= '\r') || c == ' ' || c == '\u{85}' || c == '\u{a0}' || c == '\u{1680}' || (
    '\u{2000}' <= c && c <= '\u{200a}') || c == '\u{2028}' || c == '\u{2029}' || c == '\u{202f}'
        || c == '\u{205f}' || c == '\u{3000}'
}

pub open spec fn is_digit(c: char) -> bool {
    '0' <= c && c <= '9'
}

pub open spec fn is_ident_start(c: char) -> bool {
    ('a' <= c && c <= 'z') || ('A' <= c && c <= 'Z') || c == '_'
}

pub open spec fn is_ident_char(c: char) -> bool {
    is_ident_start(c) || is_digit(c)
}

/// The first position at or after `i` that holds a line feed, or the end.
pub open spec fn line_end(s: Seq<char>, i: int) -> int
    decreases s.len() - i,
{
    if 0 <= i < s.len() && s[i] != '\n' {
        line_end(s, i + 1)
    } else {
        i
    }
}

/// The position just after the first `*/` that starts at or after `i`, if any.
pub open spec fn block_close(s: Seq<char>, i: int) -> Option<int>
    decreases s.len() - i,
{
    if i < 0 || i + 1 >= s.len() {
        None
    } else if s[i] == '*' && s[i + 1] == '/' {
        Some(i + 2)
    } else {
        block_close(s, i + 1)
    }
}

/// Where the white space and comments that start at `i` end: runs of white space,
/// `//` and `#` comments up to the end of their line, and `/* ... */` comments that
/// are closed.
pub open spec fn skip_end(s: Seq<char>, i: int) -> int
    decreases s.len() - i,
{
    if i < 0 || i >= s.len() {
        i
    } else if is_space(s[i]) {
        skip_end(s, i + 1)
    } else if s[i] == '#' || (s[i] == '/' && char_at(s, i + 1) == '/') {
        let j = line_end(s, i + 1);
        if i < j <= s.len() {
            skip_end(s, j)
        } else {
            i
        }
    } else if s[i] == '/' && char_at(s, i + 1) == '*' && block_close(s, i + 2) is Some {
        let j = block_close(s, i + 2)->0;
        if i < j <= s.len() {
            skip_end(s, j)
        } else {
            i
        }
    } else {
        i
    }
}

/// The punctuation that starts at `i`, longest operators first, with its length.
pub open spec fn punct_at(s: Seq<char>, i: int) -> Option<(Punct, int)> {
    let c0 = char_at(s, i);
    let c1 = char_at(s, i + 1);
    let c2 = char_at(s, i + 2);
    if c0 == '.' && c1 == '.' && c2 == '.' {
        Some((Punct::DotDotDot, 3))
    } else if c0 == '(' {
        Some((Punct::LeftParenthesis, 1))
    } else if c0 == ')' {
        Some((Punct::RightParenthesis, 1))
    } else if c0 == '{' {
        Some((Punct::LeftBracket, 1))
    } else if c0 == '}' {
        Some((Punct::RightBracket, 1))
    } else if c0 == '[' {
        Some((Punct::LeftSquare, 1))
    } else if c0 == ']' {
        Some((Punct::RightSquare, 1))
    } else if c0 == ';' {
        Some((Punct::SemiColon, 1))
    } else if c0 == ':' {
        Some((Punct::Colon, 1))
    } else if c0 == ',' {
        Some((Punct::Comma, 1))
    } else if c0 == '.' {
        Some((Punct::Dot, 1))
    } else if c0 == '-' && c1 == '>' {
        Some((Punct::Arrow, 2))
    } else if c0 == '=' && c1 == '=' {
        Some((Punct::EqualEqual, 2))
    } else if c0 == '!' && c1 == '=' {
        Some((Punct::BangEqual, 2))
    } else if c0 == '+' && c1 == '+' {
        Some((Punct::PlusPlus, 2))
    } else if c0 == '-' && c1 == '-' {
        Some((Punct::MinusMinus, 2))
    } else if c0 == '<' && c1 == '=' {
        Some((Punct::LessEqual, 2))
    } else if c0 == '>' && c1 == '=' {
        Some((Punct::GreaterEqual, 2))
    } else if c0 == '|' && c1 == '|' {
        Some((Punct::PipePipe, 2))
    } else if c0 == '&' && c1 == '&' {
        Some((Punct::AmpAmp, 2))
    } else if c0 == '&' {
        Some((Punct::Amp, 1))
    } else if c0 == '=' {
        Some((Punct::Equal, 1))
    } else if c0 == '+' {
        Some((Punct::Plus, 1))
    } else if c0 == '-' {
        Some((Punct::Minus, 1))
    } else if c0 == '*' {
        Some((Punct::Star, 1))
    } else if c0 == '/' {
        Some((Punct::Slash, 1))
    } else if c0 == '%' {
        Some((Punct::Percent, 1))
    } else if c0 == '<' {
        Some((Punct::Less, 1))
    } else if c0 == '>' {
        Some((Punct::Greater, 1))
    } else if c0 == '!' {
        Some((Punct::Bang, 1))
    } else {
        None
    }
}

/// The end of the run of identifier characters that starts at `i`.
pub open spec fn ident_end(s: Seq<char>, i: int) -> int
    decreases s.len() - i,
{
    if 0 <= i < s.len() && is_ident_char(s[i]) {
        ident_end(s, i + 1)
    } else {
        i
    }
}

/// The end of the run of decimal digits that starts at `i`.
pub open spec fn digits_end(s: Seq<char>, i: int) -> int
    decreases s.len() - i,
{
    if 0 <= i < s.len() && is_digit(s[i]) {
        digits_end(s, i + 1)
    } else {
        i
    }
}

/// The end of a double literal at `i`: digits, a dot, at least one digit, and an
/// exponent (`e` or `E`, an optional sign, at least one digit) where one follows.
pub open spec fn double_end(s: Seq<char>, i: int) -> Option<int> {
    let d = digits_end(s, i);
    if char_at(s, d) == '.' && digits_end(s, d + 1) > d + 1 {
        let f = digits_end(s, d + 1);
        let e = char_at(s, f);
        let sign = if char_at(s, f + 1) == '+' || char_at(s, f + 1) == '-' {
            1int
        } else {
            0int
        };
        if (e == 'e' || e == 'E') && digits_end(s, f + 1 + sign) > f + 1 + sign {
            Some(digits_end(s, f + 1 + sign))
        } else {
            Some(f)
        }
    } else {
        None
    }
}

/// The position just after the quote that closes a string literal whose text starts
/// at `i`: a backslash before a quote escapes it.
pub open spec fn string_close(s: Seq<char>, i: int) -> Option<int>
    decreases s.len() - i,
{
    if i < 0 || i >= s.len() {
        None
    } else if s[i] == '"' {
        Some(i + 1)
    } else if s[i] == '\\' && char_at(s, i + 1) == '"' {
        string_close(s, i + 2)
    } else {
        string_close(s, i + 1)
    }
}

/// The value of a run of decimal digits.
pub open spec fn digits_value(d: Seq<char>) -> int
    decreases d.len(),
{
    if d.len() == 0 {
        0
    } else {
        digits_value(d.drop_last()) * 10 + (d.last() as int - '0' as int)
    }
}

/// The keyword, or boolean literal, that a word spells.
pub open spec fn keyword_of(w: Seq<char>) -> Option<TokenView> {
    if w =~= seq!['e', 'x', 't', 'e', 'r', 'n'] {
        Some(TokenView::Keyword(Keyword::Extern))
    } else if w =~= seq!['w', 'h', 'i', 'l', 'e'] {
        Some(TokenView::Keyword(Keyword::While))
    } else if w =~= seq!['f', 'o', 'r'] {
        Some(TokenView::Keyword(Keyword::For))
    } else if w =~= seq!['i', 'f'] {
        Some(TokenView::Keyword(Keyword::If))
    } else if w =~= seq!['e', 'l', 's', 'e'] {
        Some(TokenView::Keyword(Keyword::Else))
    } else if w =~= seq!['r', 'e', 't', 'u', 'r', 'n'] {
        Some(TokenView::Keyword(Keyword::Return))
    } else if w =~= seq!['t', 'r', 'u', 'e'] {
        Some(TokenView::BooleanLiteral(true))
    } else if w =~= seq!['f', 'a', 'l', 's', 'e'] {
        Some(TokenView::BooleanLiteral(false))
    } else if w =~= seq!['c', 'o', 'n', 't', 'i', 'n', 'u', 'e'] {
        Some(TokenView::Keyword(Keyword::Continue))
    } else if w =~= seq!['b', 'r', 'e', 'a', 'k'] {
        Some(TokenView::Keyword(Keyword::Break))
    } else if w =~= seq!['s', 't', 'r', 'u', 'c', 't'] {
        Some(TokenView::Keyword(Keyword::Struct))
    } else if w =~= seq!['a', 's'] {
        Some(TokenView::Keyword(Keyword::As))
    } else if w =~= seq!['f', 'n'] {
        Some(TokenView::Keyword(Keyword::Fn))
    } else if w =~= seq!['l', 'e', 't'] {
        Some(TokenView::Keyword(Keyword::Let))
    } else if w =~= seq!['n', 'u', 'l', 'l', 'p', 't', 'r'] {
        Some(TokenView::Keyword(Keyword::Nullptr))
    } else {
        None
    }
}

/// Whether a word is reserved: it starts with three underscores.
pub open spec fn is_reserved(w: Seq<char>) -> bool {
    w.len() >= 3 && w[0] == '_' && w[1] == '_' && w[2] == '_'
}

/// One step of the lexer: a token, or an error, with the start and length of its span.
pub enum LexStep {
    Token(TokenView, int, int),
    Error(LexingErrorView, int, int),
}

/// What the lexer reads at `i` once white space and comments are skipped. Tried in
/// order: end of input, punctuation, a word (keyword or identifier), a double
/// literal, an integer literal, a string literal; anything else is an unknown
/// character.
pub open spec fn lex_at(s: Seq<char>, i: int) -> LexStep {
    let start = skip_end(s, i);
    if start >= s.len() {
        LexStep::Token(TokenView::EOF, s.len() as int, 1)
    } else if punct_at(s, start) is Some {
        let (p, n) = punct_at(s, start)->0;
        LexStep::Token(TokenView::Punct(p), start, n)
    } else if is_ident_start(s[start]) {
        let e = ident_end(s, start);
        let w = s.subrange(start, e);
        if keyword_of(w) is Some {
            LexStep::Token(keyword_of(w)->0, start, e - start)
        } else if is_reserved(w) {
            LexStep::Error(LexingErrorView::ReservedIdentifier(w), start, e - start)
        } else {
            LexStep::Token(TokenView::Identifier(w), start, e - start)
        }
    } else if double_end(s, start) is Some {
        let e = double_end(s, start)->0;
        LexStep::Token(TokenView::DoubleLiteral(s.subrange(start, e)), start, e - start)
    } else if is_digit(s[start]) {
        let e = digits_end(s, start);
        let v = digits_value(s.subrange(start, e));
        if v <= i64::MAX {
            LexStep::Token(TokenView::IntegerLiteral(v as i64), start, e - start)
        } else {
            LexStep::Error(LexingErrorView::UnparsableNumber, start, e - start)
        }
    } else if s[start] == '"' && string_close(s, start + 1) is Some {
        let e = string_close(s, start + 1)->0;
        LexStep::Token(TokenView::StringLiteral(s.subrange(start, e)), start, e - start)
    } else {
        LexStep::Error(LexingErrorView::UnknownChar(s[start]), start, 1)
    }
}

/// Where the lexer stands after a step: past the token, or past the number or word
/// that was refused; at the end of input after `EOF`, and at an unknown character.
pub open spec fn pos_after(s: Seq<char>, step: LexStep) -> int {
    match step {
        LexStep::Token(TokenView::EOF, _, _) => s.len() as int,
        LexStep::Token(_, start, len) => start + len,
        LexStep::Error(LexingErrorView::UnknownChar(_), start, _) => start,
        LexStep::Error(_, start, len) => start + len,
    }
}

pub type LexingResult<T> = Result<T, Spanned<LexingError>>;

/// Whether a lexer result is the step `step`.
pub open spec fn result_is(r: LexingResult<Spanned<Token>>, step: LexStep) -> bool {
    match (r, step) {
        (Ok(t), LexStep::Token(v, start, len)) => t.inner@ == v && t.span.start == start
            && t.span.len == len,
        (Err(e), LexStep::Error(v, start, len)) => e.inner@ == v && e.span.start == start
            && e.span.len == len,
        _ => false,
    }
}


pub(crate) proof fn lemma_line_end_bounds(s: Seq<char>, i: int)
    requires
        0 <= i <= s.len(),
    ensures
        i <= line_end(s, i) <= s.len(),
    decreases s.len() - i,
{
    if i < s.len() && s[i] != '\n' {
        lemma_line_end_bounds(s, i + 1);
    }
}

pub(crate) proof fn lemma_block_close_bounds(s: Seq<char>, i: int)
    requires
        0 <= i,
    ensures
        block_close(s, i) is Some ==> i + 2 <= block_close(s, i)->0 <= s.len(),
    decreases s.len() - i,
{
    if i + 1 < s.len() && !(s[i] == '*' && s[i + 1] == '/') {
        lemma_block_close_bounds(s, i + 1);
    }
}

pub(crate) proof fn lemma_string_close_bounds(s: Seq<char>, i: int)
    requires
        0 <= i,
    ensures
        string_close(s, i) is Some ==> i + 1 <= string_close(s, i)->0 <= s.len(),
    decreases s.len() - i,
{
    if 0 <= i < s.len() && s[i] != '"' {
        if s[i] == '\\' && char_at(s, i + 1) == '"' {
            lemma_string_close_bounds(s, i + 2);
        } else {
            lemma_string_close_bounds(s, i + 1);
        }
    }
}

pub(crate) proof fn lemma_ident_end_bounds(s: Seq<char>, i: int)
    requires
        0 <= i <= s.len(),
    ensures
        i <= ident_end(s, i) <= s.len(),
        forall|k: int| i <= k < ident_end(s, i) ==> is_ident_char(#[trigger] s[k]),
    decreases s.len() - i,
{
    if i < s.len() && is_ident_char(s[i]) {
        lemma_ident_end_bounds(s, i + 1);
    }
}

pub(crate) proof fn lemma_digits_end_bounds(s: Seq<char>, i: int)
    requires
        0 <= i <= s.len(),
    ensures
        i <= digits_end(s, i) <= s.len(),
        forall|k: int| i <= k < digits_end(s, i) ==> is_digit(#[trigger] s[k]),
    decreases s.len() - i,
{
    if i < s.len() && is_digit(s[i]) {
        lemma_digits_end_bounds(s, i + 1);
    }
}

pub(crate) proof fn lemma_skip_end_bounds(s: Seq<char>, i: int)
    requires
        0 <= i <= s.len(),
    ensures
        i <= skip_end(s, i) <= s.len(),
    decreases s.len() - i,
{
    if i < s.len() {
        if is_space(s[i]) {
            lemma_skip_end_bounds(s, i + 1);
        } else if s[i] == '#' || (s[i] == '/' && char_at(s, i + 1) == '/') {
            lemma_line_end_bounds(s, i + 1);
            lemma_skip_end_bounds(s, line_end(s, i + 1));
        } else if s[i] == '/' && char_at(s, i + 1) == '*' && block_close(s, i + 2) is Some {
            lemma_block_close_bounds(s, i + 2);
            lemma_skip_end_bounds(s, block_close(s, i + 2)->0);
        }
    }
}

/// A run of digits is worth at least as much as any of its prefixes.
pub(crate) proof fn lemma_digits_value_prefix(d: Seq<char>, k: int)
    requires
        0 <= k <= d.len(),
        forall|j: int| 0 <= j < d.len() ==> is_digit(#[trigger] d[j]),
    ensures
        digits_value(d.subrange(0, k)) <= digits_value(d),
        0 <= digits_value(d.subrange(0, k)),
    decreases d.len(),
{
    if k < d.len() {
        assert(d.drop_last().subrange(0, k) =~= d.subrange(0, k));
        lemma_digits_value_prefix(d.drop_last(), k);
        lemma_digits_value_prefix(d.drop_last(), d.len() - 1);
        assert(d.drop_last().subrange(0, d.len() - 1) =~= d.drop_last());
    } else {
        assert(d.subrange(0, k) =~= d);
        if d.len() > 0 {
            lemma_digits_value_prefix(d.drop_last(), d.len() - 1);
            assert(d.drop_last().subrange(0, d.len() - 1) =~= d.drop_last());
        }
    }
}

fn exec_char_at(s: &Vec<char>, i: usize) -> (c: char)
    ensures
        c == char_at(s@, i as int),
{
    if i < s.len() {
        s[i]
    } else {
        '\0'
    }
}

fn exec_is_space(c: char) -> (r: bool)
    ensures
        r == is_space(c),
{
    ('\t' <= c && c <= '\r') || c == ' ' || c == '\u{85}' || c == '\u{a0}' || c == '\u{1680}' || (
    '\u{2000}' <= c && c <= '\u{200a}') || c == '\u{2028}' || c == '\u{2029}' || c == '\u{202f}'
        || c == '\u{205f}' || c == '\u{3000}'
}

fn exec_is_digit(c: char) -> (r: bool)
    ensures
        r == is_digit(c),
{
    '0' <= c && c <= '9'
}

fn exec_is_ident_start(c: char) -> (r: bool)
    ensures
        r == is_ident_start(c),
{
    ('a' <= c && c <= 'z') || ('A' <= c && c <= 'Z') || c == '_'
}

fn scan_line_end(s: &Vec<char>, i: usize) -> (r: usize)
    requires
        i <= s.len(),
    ensures
        r == line_end(s@, i as int),
{
    let mut k = i;
    while k < s.len() && s[k] != '\n'
        invariant
            i <= k <= s.len(),
            line_end(s@, k as int) == line_end(s@, i as int),
        decreases s.len() - k,
    {
        k = k + 1;
    }
    k
}

fn scan_block_close(s: &Vec<char>, i: usize) -> (r: Option<usize>)
    requires
        i <= s.len(),
    ensures
        r is Some <==> block_close(s@, i as int) is Some,
        r is Some ==> r->0 == block_close(s@, i as int)->0,
{
    let mut k = i;
    while k < s.len() && k + 1 < s.len()
        invariant
            i <= k <= s.len(),
            block_close(s@, k as int) == block_close(s@, i as int),
        decreases s.len() - k,
    {
        if s[k] == '*' && s[k + 1] == '/' {
            return Some(k + 2);
        }
        k = k + 1;
    }
    None
}

fn scan_ident_end(s: &Vec<char>, i: usize) -> (r: usize)
    requires
        i <= s.len(),
    ensures
        r == ident_end(s@, i as int),
{
    let mut k = i;
    while k < s.len() && (exec_is_ident_start(s[k]) || exec_is_digit(s[k]))
        invariant
            i <= k <= s.len(),
            ident_end(s@, k as int) == ident_end(s@, i as int),
        decreases s.len() - k,
    {
        k = k + 1;
    }
    k
}

fn scan_digits_end(s: &Vec<char>, i: usize) -> (r: usize)
    requires
        i <= s.len(),
    ensures
        r == digits_end(s@, i as int),
{
    let mut k = i;
    while k < s.len() && exec_is_digit(s[k])
        invariant
            i <= k <= s.len(),
            digits_end(s@, k as int) == digits_end(s@, i as int),
        decreases s.len() - k,
    {
        k = k + 1;
    }
    k
}

fn scan_double_end(s: &Vec<char>, i: usize) -> (r: Option<usize>)
    requires
        i <= s.len(),
    ensures
        r is Some <==> double_end(s@, i as int) is Some,
        r is Some ==> r->0 == double_end(s@, i as int)->0,
{
    let d = scan_digits_end(s, i);
    proof {
        lemma_digits_end_bounds(s@, i as int);
    }
    if exec_char_at(s, d) != '.' {
        return None;
    }
    let f = scan_digits_end(s, d + 1);
    if f <= d + 1 {
        return None;
    }
    proof {
        lemma_digits_end_bounds(s@, d + 1);
    }
    let e = exec_char_at(s, f);
    if e == 'e' || e == 'E' {
        let c = exec_char_at(s, f + 1);
        let sign: usize = if c == '+' || c == '-' {
            1
        } else {
            0
        };
        if f + 1 + sign <= s.len() {
            let x = scan_digits_end(s, f + 1 + sign);
            if x > f + 1 + sign {
                return Some(x);
            }
        } else {
            assert(digits_end(s@, f + 1 + sign) == f + 1 + sign);
        }
    }
    Some(f)
}

fn scan_string_close(s: &Vec<char>, i: usize) -> (r: Option<usize>)
    requires
        i <= s.len(),
    ensures
        r is Some <==> string_close(s@, i as int) is Some,
        r is Some ==> r->0 == string_close(s@, i as int)->0,
{
    let mut k = i;
    while k < s.len()
        invariant
            i <= k <= s.len() + 1,
            string_close(s@, k as int) == string_close(s@, i as int),
        decreases s.len() + 1 - k,
    {
        if s[k] == '"' {
            return Some(k + 1);
        }
        if s[k] == '\\' && exec_char_at(s, k + 1) == '"' {
            k = k + 2;
        } else {
            k = k + 1;
        }
    }
    None
}

fn parse_decimal(s: &Vec<char>, i: usize, e: usize) -> (r: Option<i64>)
    requires
        i <= e <= s.len(),
        forall|k: int| i <= k < e ==> is_digit(#[trigger] s@[k]),
    ensures
        r is Some <==> digits_value(s@.subrange(i as int, e as int)) <= i64::MAX,
        r is Some ==> r->0 == digits_value(s@.subrange(i as int, e as int)),
{
    let ghost d = s@.subrange(i as int, e as int);
    let mut acc: i64 = 0;
    let mut k = i;
    assert(s@.subrange(i as int, i as int) =~= seq![]);
    while k < e
        invariant
            i <= k <= e,
            e <= s.len(),
            d == s@.subrange(i as int, e as int),
            forall|j: int| i <= j < e ==> is_digit(#[trigger] s@[j]),
            acc as int == digits_value(s@.subrange(i as int, k as int)),
            0 <= acc,
        decreases e - k,
    {
        let digit = (s[k] as u32 - '0' as u32) as i64;
        assert(s@.subrange(i as int, k + 1).drop_last() =~= s@.subrange(i as int, k as int));
        if acc > (i64::MAX - digit) / 10 {
            proof {
                assert(acc * 10 + digit > i64::MAX) by (nonlinear_arith)
                    requires
                        acc > (i64::MAX - digit) / 10,
                        0 <= digit <= 9,
                ;
                assert(d.subrange(0, k + 1 - i) =~= s@.subrange(i as int, k + 1));
                lemma_digits_value_prefix(d, k + 1 - i);
            }
            return None;
        }
        proof {
            assert(acc * 10 + digit <= i64::MAX) by (nonlinear_arith)
                requires
                    acc <= (i64::MAX - digit) / 10,
                    0 <= digit <= 9,
            ;
        }
        acc = acc * 10 + digit;
        k = k + 1;
    }
    Some(acc)
}


fn match_punct(s: &Vec<char>, i: usize) -> (r: Option<(Punct, usize)>)
    requires
        i < s.len(),
    ensures
        r is Some <==> punct_at(s@, i as int) is Some,
        r is Some ==> (r->0).0 == (punct_at(s@, i as int)->0).0 && (r->0).1 == (punct_at(
            s@,
            i as int,
        )->0).1,
{
    let c0 = s[i];
    let c1 = exec_char_at(s, i + 1);
    let c2 = if i + 1 < s.len() {
        exec_char_at(s, i + 2)
    } else {
        '\0'
    };
    let p = if c0 == '.' && c1 == '.' && c2 == '.' {
        (Punct::DotDotDot, 3)
    } else if c0 == '(' {
        (Punct::LeftParenthesis, 1)
    } else if c0 == ')' {
        (Punct::RightParenthesis, 1)
    } else if c0 == '{' {
        (Punct::LeftBracket, 1)
    } else if c0 == '}' {
        (Punct::RightBracket, 1)
    } else if c0 == '[' {
        (Punct::LeftSquare, 1)
    } else if c0 == ']' {
        (Punct::RightSquare, 1)
    } else if c0 == ';' {
        (Punct::SemiColon, 1)
    } else if c0 == ':' {
        (Punct::Colon, 1)
    } else if c0 == ',' {
        (Punct::Comma, 1)
    } else if c0 == '.' {
        (Punct::Dot, 1)
    } else if c0 == '-' && c1 == '>' {
        (Punct::Arrow, 2)
    } else if c0 == '=' && c1 == '=' {
        (Punct::EqualEqual, 2)
    } else if c0 == '!' && c1 == '=' {
        (Punct::BangEqual, 2)
    } else if c0 == '+' && c1 == '+' {
        (Punct::PlusPlus, 2)
    } else if c0 == '-' && c1 == '-' {
        (Punct::MinusMinus, 2)
    } else if c0 == '<' && c1 == '=' {
        (Punct::LessEqual, 2)
    } else if c0 == '>' && c1 == '=' {
        (Punct::GreaterEqual, 2)
    } else if c0 == '|' && c1 == '|' {
        (Punct::PipePipe, 2)
    } else if c0 == '&' && c1 == '&' {
        (Punct::AmpAmp, 2)
    } else if c0 == '&' {
        (Punct::Amp, 1)
    } else if c0 == '=' {
        (Punct::Equal, 1)
    } else if c0 == '+' {
        (Punct::Plus, 1)
    } else if c0 == '-' {
        (Punct::Minus, 1)
    } else if c0 == '*' {
        (Punct::Star, 1)
    } else if c0 == '/' {
        (Punct::Slash, 1)
    } else if c0 == '%' {
        (Punct::Percent, 1)
    } else if c0 == '<' {
        (Punct::Less, 1)
    } else if c0 == '>' {
        (Punct::Greater, 1)
    } else if c0 == '!' {
        (Punct::Bang, 1)
    } else {
        return None;
    };
    Some(p)
}

/// Whether the characters of `s` from `i` to `e` spell `w`.
pub(crate) fn spells(s: &Vec<char>, i: usize, e: usize, w: &Vec<char>) -> (r: bool)
    requires
        i <= e <= s.len(),
    ensures
        r == (s@.subrange(i as int, e as int) == w@),
{
    if e - i != w.len() {
        return false;
    }
    let mut k: usize = 0;
    while k < w.len()
        invariant
            k <= w.len(),
            e - i == w.len(),
            i <= e <= s.len(),
            forall|j: int| 0 <= j < k ==> s@[i + j] == w@[j],
        decreases w.len() - k,
    {
        if s[i + k] != w[k] {
            assert(s@.subrange(i as int, e as int)[k as int] != w@[k as int]);
            return false;
        }
        k = k + 1;
    }
    assert(s@.subrange(i as int, e as int) =~= w@);
    true
}

fn keyword_token(s: &Vec<char>, i: usize, e: usize) -> (r: Option<Token>)
    requires
        i <= e <= s.len(),
    ensures
        r is Some <==> keyword_of(s@.subrange(i as int, e as int)) is Some,
        r is Some ==> r->0@ == keyword_of(s@.subrange(i as int, e as int))->0,
{
    let t = if spells(s, i, e, &vec!['e', 'x', 't', 'e', 'r', 'n']) {
        Token::Keyword(Keyword::Extern)
    } else if spells(s, i, e, &vec!['w', 'h', 'i', 'l', 'e']) {
        Token::Keyword(Keyword::While)
    } else if spells(s, i, e, &vec!['f', 'o', 'r']) {
        Token::Keyword(Keyword::For)
    } else if spells(s, i, e, &vec!['i', 'f']) {
        Token::Keyword(Keyword::If)
    } else if spells(s, i, e, &vec!['e', 'l', 's', 'e']) {
        Token::Keyword(Keyword::Else)
    } else if spells(s, i, e, &vec!['r', 'e', 't', 'u', 'r', 'n']) {
        Token::Keyword(Keyword::Return)
    } else if spells(s, i, e, &vec!['t', 'r', 'u', 'e']) {
        Token::BooleanLiteral(true)
    } else if spells(s, i, e, &vec!['f', 'a', 'l', 's', 'e']) {
        Token::BooleanLiteral(false)
    } else if spells(s, i, e, &vec!['c', 'o', 'n', 't', 'i', 'n', 'u', 'e']) {
        Token::Keyword(Keyword::Continue)
    } else if spells(s, i, e, &vec!['b', 'r', 'e', 'a', 'k']) {
        Token::Keyword(Keyword::Break)
    } else if spells(s, i, e, &vec!['s', 't', 'r', 'u', 'c', 't']) {
        Token::Keyword(Keyword::Struct)
    } else if spells(s, i, e, &vec!['a', 's']) {
        Token::Keyword(Keyword::As)
    } else if spells(s, i, e, &vec!['f', 'n']) {
        Token::Keyword(Keyword::Fn)
    } else if spells(s, i, e, &vec!['l', 'e', 't']) {
        Token::Keyword(Keyword::Let)
    } else if spells(s, i, e, &vec!['n', 'u', 'l', 'l', 'p', 't', 'r']) {
        Token::Keyword(Keyword::Nullptr)
    } else {
        return None;
    };
    Some(t)
}

/// A lexer over one source text, with room to put back one token.
pub struct Lexer<'input> {
    source: &'input str,
    input: Vec<char>,
    pos: usize,
    buffer: Option<Spanned<Token>>,
}

impl<'input> Lexer<'input> {
    /// The characters being read.
    pub closed spec fn text(&self) -> Seq<char> {
        self.input@
    }

    /// The position of the next character to read.
    pub closed spec fn position(&self) -> int {
        self.pos as int
    }

    /// The token that was peeked and not yet taken, with its span.
    pub closed spec fn buffered(&self) -> Option<(TokenView, Span)> {
        match self.buffer {
            Some(t) => Some((t.inner@, t.span)),
            None => None,
        }
    }

    pub closed spec fn wf(&self) -> bool {
        &&& self.input@ == self.source@
        &&& self.pos <= self.input.len()
    }

    pub fn new(input: &'input str) -> (r: Lexer<'input>)
        ensures
            r.wf(),
            r.text() == input@,
            r.position() == 0,
            r.buffered() is None,
    {
        let n = input.unicode_len();
        let mut chars: Vec<char> = Vec::new();
        let mut i: usize = 0;
        while i < n
            invariant
                i <= n,
                n == input@.len(),
                chars@ =~= input@.subrange(0, i as int),
            decreases n - i,
        {
            chars.push(input.get_char(i));
            i = i + 1;
        }
        assert(chars@ =~= input@);
        Lexer { source: input, input: chars, pos: 0, buffer: None }
    }

    fn text_between(&self, start: usize, end: usize) -> (r: String)
        requires
            self.wf(),
            start <= end <= self.input.len(),
        ensures
            r@ == self.text().subrange(start as int, end as int),
    {
        self.source.substring_char(start, end).to_owned()
    }

    /// Moves past the white space and comments at the current position.
    pub fn skip_whitespaces(&mut self)
        requires
            old(self).wf(),
        ensures
            final(self).wf(),
            final(self).text() == old(self).text(),
            final(self).buffered() == old(self).buffered(),
            final(self).position() == skip_end(old(self).text(), old(self).position()),
    {
        let ghost s = self.input@;
        let ghost start_pos = self.pos as int;
        loop
            invariant
                self.wf(),
                self.input@ == s,
                self.buffered() == old(self).buffered(),
                s == old(self).text(),
                start_pos == old(self).position(),
                start_pos <= self.pos,
                skip_end(s, self.pos as int) == skip_end(s, start_pos),
            ensures
                skip_end(s, self.pos as int) == self.pos,
            decreases s.len() - self.pos,
        {
            let i = self.pos;
            if i >= self.input.len() {
                assert(skip_end(s, i as int) == i);
                break;
            }
            let c = self.input[i];
            if exec_is_space(c) {
                self.pos = i + 1;
            } else if c == '#' || (c == '/' && exec_char_at(&self.input, i + 1) == '/') {
                let j = scan_line_end(&self.input, i + 1);
                proof {
                    lemma_line_end_bounds(s, i + 1);
                }
                self.pos = j;
            } else if c == '/' && exec_char_at(&self.input, i + 1) == '*' {
                if i + 2 > self.input.len() {
                    break;
                }
                match scan_block_close(&self.input, i + 2) {
                    Some(j) => {
                        proof {
                            lemma_block_close_bounds(s, i + 2);
                        }
                        self.pos = j;
                    },
                    None => {
                        assert(skip_end(s, i as int) == i);
                        break;
                    },
                }
            } else {
                assert(skip_end(s, i as int) == i);
                break;
            }
        }
    }

    /// The next token, or the lexing error at the current position.
    pub fn next_token(&mut self) -> (r: LexingResult<Spanned<Token>>)
        requires
            old(self).wf(),
        ensures
            final(self).wf(),
            final(self).text() == old(self).text(),
            final(self).buffered() is None,
            old(self).buffered() is Some ==> ({
                let (t, sp) = old(self).buffered()->0;
                &&& r is Ok
                &&& r->Ok_0.inner@ == t
                &&& r->Ok_0.span == sp
                &&& final(self).position() == old(self).position()
            }),
            old(self).buffered() is None ==> ({
                let step = lex_at(old(self).text(), old(self).position());
                &&& result_is(r, step)
                &&& final(self).position() == pos_after(old(self).text(), step)
            }),
    {
        if let Some(token) = self.buffer.take() {
            return Ok(token);
        }
        self.skip_whitespaces();
        let ghost s = self.input@;
        proof {
            lemma_skip_end_bounds(s, old(self).pos as int);
        }
        let start = self.pos;
        if start >= self.input.len() {
            let n = self.input.len();
            return Ok(Spanned::new(Token::EOF, Span::new_with_len(n, 1)));
        }
        if let Some((p, n)) = match_punct(&self.input, start) {
            proof {
                assert(start + n <= s.len()) by {
                    assert(n == 1 || (n == 2 && char_at(s, start + 1) != '\0') || (n == 3
                        && char_at(s, start + 2) != '\0'));
                }
            }
            self.pos = start + n;
            return Ok(Spanned::new(Token::Punct(p), Span::new_with_len(start, n)));
        }
        let c = self.input[start];
        if exec_is_ident_start(c) {
            let e = scan_ident_end(&self.input, start);
            proof {
                lemma_ident_end_bounds(s, start as int);
            }
            let len = e - start;
            self.pos = e;
            if let Some(t) = keyword_token(&self.input, start, e) {
                return Ok(Spanned::new(t, Span::new_with_len(start, len)));
            }
            let word = self.text_between(start, e);
            if len >= 3 && self.input[start] == '_' && self.input[start + 1] == '_'
                && self.input[start + 2] == '_' {
                return Err(
                    Spanned::new(LexingError::ReservedIdentifier(word), Span::new_with_len(start, len)),
                );
            }
            return Ok(Spanned::new(Token::Identifier(word), Span::new_with_len(start, len)));
        }
        if let Some(e) = scan_double_end(&self.input, start) {
            proof {
                lemma_digits_end_bounds(s, start as int);
                let d = digits_end(s, start as int);
                lemma_digits_end_bounds(s, d + 1);
                let f = digits_end(s, d + 1);
                if f + 1 <= s.len() {
                    lemma_digits_end_bounds(s, f + 1);
                }
                if f + 2 <= s.len() {
                    lemma_digits_end_bounds(s, f + 2);
                }
            }
            let text = self.text_between(start, e);
            self.pos = e;
            return Ok(Spanned::new(Token::DoubleLiteral(text), Span::new_with_len(start, e - start)));
        }
        if exec_is_digit(c) {
            let e = scan_digits_end(&self.input, start);
            proof {
                lemma_digits_end_bounds(s, start as int);
            }
            self.pos = e;
            match parse_decimal(&self.input, start, e) {
                Some(v) => {
                    return Ok(
                        Spanned::new(Token::IntegerLiteral(v), Span::new_with_len(start, e - start)),
                    );
                },
                None => {
                    return Err(
                        Spanned::new(LexingError::UnparsableNumber, Span::new_with_len(start, e - start)),
                    );
                },
            }
        }
        if c == '"' {
            if let Some(e) = scan_string_close(&self.input, start + 1) {
                proof {
                    lemma_string_close_bounds(s, start + 1);
                }
                let text = self.text_between(start, e);
                self.pos = e;
                return Ok(
                    Spanned::new(Token::StringLiteral(text), Span::new_with_len(start, e - start)),
                );
            }
        }
        Err(Spanned::new(LexingError::UnknownChar(c), Span::new_one(start)))
    }

    /// The next token, left in place so that the following `next_token` returns it.
    pub fn peek_token(&mut self) -> (r: LexingResult<Spanned<Token>>)
        requires
            old(self).wf(),
        ensures
            final(self).wf(),
            final(self).text() == old(self).text(),
            old(self).buffered() is Some ==> ({
                let (t, sp) = old(self).buffered()->0;
                &&& r is Ok
                &&& r->Ok_0.inner@ == t
                &&& r->Ok_0.span == sp
                &&& final(self).position() == old(self).position()
                &&& final(self).buffered() == old(self).buffered()
            }),
            old(self).buffered() is None ==> ({
                let step = lex_at(old(self).text(), old(self).position());
                &&& result_is(r, step)
                &&& final(self).position() == pos_after(old(self).text(), step)
                &&& r is Ok ==> final(self).buffered() == Some((r->Ok_0.inner@, r->Ok_0.span))
                &&& r is Err ==> final(self).buffered() is None
            }),
    {
        if let Some(t) = &self.buffer {
            return Ok(Spanned::new(t.inner.clone(), t.span));
        }
        match self.next_token() {
            Ok(t) => {
                self.buffer = Some(Spanned::new(t.inner.clone(), t.span));
                Ok(t)
            },
            Err(e) => Err(e),
        }
    }
}

} // verus!
