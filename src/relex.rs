use vstd::prelude::*;

use crate::lexer::{
    block_close, char_at, digits_end, digits_value, double_end, ident_end, is_digit,
    is_ident_char, is_ident_start, is_reserved, is_space, keyword_of, lex_at, line_end, punct_at,
    skip_end, string_close, LexStep,
};
use crate::token::{Keyword, LexingErrorView, Punct, Token, TokenView};

verus! {

/// A step of the lexer seen `d` positions further on.
pub open spec fn shift_step(step: LexStep, d: int) -> LexStep {
    match step {
        LexStep::Token(t, start, len) => LexStep::Token(t, start + d, len),
        LexStep::Error(e, start, len) => LexStep::Error(e, start + d, len),
    }
}

proof fn lemma_char_at_shift(p: Seq<char>, y: Seq<char>, i: int)
    requires
        0 <= i,
    ensures
        char_at(p + y, p.len() + i) == char_at(y, i),
{
}

proof fn lemma_line_end_shift(p: Seq<char>, y: Seq<char>, i: int)
    requires
        0 <= i,
    ensures
        line_end(p + y, p.len() + i) == p.len() + line_end(y, i),
    decreases y.len() - i,
{
    if i < y.len() && y[i] != '\n' {
        lemma_line_end_shift(p, y, i + 1);
    }
}

proof fn lemma_block_close_shift(p: Seq<char>, y: Seq<char>, i: int)
    requires
        0 <= i,
    ensures
        block_close(p + y, p.len() + i) == match block_close(y, i) {
            Some(k) => Some(p.len() + k),
            None => None::<int>,
        },
    decreases y.len() - i,
{
    if i + 1 < y.len() && !(y[i] == '*' && y[i + 1] == '/') {
        lemma_block_close_shift(p, y, i + 1);
    }
}

proof fn lemma_line_end_bound(s: Seq<char>, i: int)
    requires
        0 <= i,
    ensures
        line_end(s, i) >= i,
    decreases s.len() - i,
{
    if 0 <= i < s.len() && s[i] != '\n' {
        lemma_line_end_bound(s, i + 1);
    }
}

proof fn lemma_block_close_bound(s: Seq<char>, i: int)
    requires
        0 <= i,
    ensures
        block_close(s, i) is Some ==> block_close(s, i)->0 >= i + 2,
    decreases s.len() - i,
{
    if i + 1 < s.len() && !(s[i] == '*' && s[i + 1] == '/') {
        lemma_block_close_bound(s, i + 1);
    }
}

proof fn lemma_skip_end_shift(p: Seq<char>, y: Seq<char>, i: int)
    requires
        0 <= i,
    ensures
        skip_end(p + y, p.len() + i) == p.len() + skip_end(y, i),
    decreases y.len() - i,
{
    let s = p + y;
    let k = p.len() + i;
    if i < y.len() {
        lemma_char_at_shift(p, y, i + 1);
        if is_space(y[i]) {
            lemma_skip_end_shift(p, y, i + 1);
        } else if y[i] == '#' || (y[i] == '/' && char_at(y, i + 1) == '/') {
            lemma_line_end_shift(p, y, i + 1);
            lemma_line_end_bound(y, i + 1);
            let j = line_end(y, i + 1);
            if i < j <= y.len() {
                lemma_skip_end_shift(p, y, j);
            }
        } else if y[i] == '/' && char_at(y, i + 1) == '*' {
            lemma_block_close_shift(p, y, i + 2);
            lemma_block_close_bound(y, i + 2);
            if block_close(y, i + 2) is Some {
                let j = block_close(y, i + 2)->0;
                if i < j <= y.len() {
                    lemma_skip_end_shift(p, y, j);
                }
            }
        }
    }
}

proof fn lemma_ident_end_shift(p: Seq<char>, y: Seq<char>, i: int)
    requires
        0 <= i,
    ensures
        ident_end(p + y, p.len() + i) == p.len() + ident_end(y, i),
    decreases y.len() - i,
{
    if i < y.len() && is_ident_char(y[i]) {
        lemma_ident_end_shift(p, y, i + 1);
    }
}

proof fn lemma_digits_end_shift(p: Seq<char>, y: Seq<char>, i: int)
    requires
        0 <= i,
    ensures
        digits_end(p + y, p.len() + i) == p.len() + digits_end(y, i),
    decreases y.len() - i,
{
    if i < y.len() && is_digit(y[i]) {
        lemma_digits_end_shift(p, y, i + 1);
    }
}

proof fn lemma_string_close_shift(p: Seq<char>, y: Seq<char>, i: int)
    requires
        0 <= i,
    ensures
        string_close(p + y, p.len() + i) == match string_close(y, i) {
            Some(k) => Some(p.len() + k),
            None => None::<int>,
        },
    decreases y.len() - i,
{
    if i < y.len() && y[i] != '"' {
        lemma_char_at_shift(p, y, i + 1);
        if y[i] == '\\' && char_at(y, i + 1) == '"' {
            lemma_string_close_shift(p, y, i + 2);
        } else {
            lemma_string_close_shift(p, y, i + 1);
        }
    }
}

proof fn lemma_digits_end_ge(s: Seq<char>, i: int)
    requires
        0 <= i,
    ensures
        digits_end(s, i) >= i,
    decreases s.len() - i,
{
    if 0 <= i < s.len() && is_digit(s[i]) {
        lemma_digits_end_ge(s, i + 1);
    }
}

proof fn lemma_double_end_shift(p: Seq<char>, y: Seq<char>, i: int)
    requires
        0 <= i,
    ensures
        double_end(p + y, p.len() + i) == match double_end(y, i) {
            Some(k) => Some(p.len() + k),
            None => None::<int>,
        },
{
    let n = p.len() as int;
    lemma_digits_end_shift(p, y, i);
    lemma_digits_end_ge(y, i);
    let d = digits_end(y, i);
    lemma_char_at_shift(p, y, d);
    lemma_digits_end_shift(p, y, d + 1);
    lemma_digits_end_ge(y, d + 1);
    let f = digits_end(y, d + 1);
    lemma_char_at_shift(p, y, f);
    lemma_char_at_shift(p, y, f + 1);
    lemma_digits_end_shift(p, y, f + 1);
    lemma_digits_end_shift(p, y, f + 2);
    assert(n + d + 1 == n + (d + 1));
    assert(n + f + 1 == n + (f + 1));
}

proof fn lemma_punct_at_shift(p: Seq<char>, y: Seq<char>, i: int)
    requires
        0 <= i,
    ensures
        punct_at(p + y, p.len() + i) == punct_at(y, i),
{
    lemma_char_at_shift(p, y, i);
    lemma_char_at_shift(p, y, i + 1);
    lemma_char_at_shift(p, y, i + 2);
    assert(p.len() + i + 1 == p.len() + (i + 1));
    assert(p.len() + i + 2 == p.len() + (i + 2));
}

/// Lexing does not look behind its position: text before it only moves the spans.
pub proof fn lemma_lex_at_shift(p: Seq<char>, y: Seq<char>, i: int)
    requires
        0 <= i,
    ensures
        lex_at(p + y, p.len() + i) == shift_step(lex_at(y, i), p.len() as int),
{
    let s = p + y;
    let n = p.len() as int;
    lemma_skip_end_shift(p, y, i);
    let start = skip_end(y, i);
    if start < y.len() {
        assert(start >= 0) by {
            lemma_skip_end_ge(y, i);
        }
        assert(s[n + start] == y[start]);
        lemma_punct_at_shift(p, y, start);
        lemma_ident_end_shift(p, y, start);
        lemma_double_end_shift(p, y, start);
        lemma_digits_end_shift(p, y, start);
        lemma_string_close_shift(p, y, start + 1);
        assert(n + start + 1 == n + (start + 1));
        crate::lexer::lemma_ident_end_bounds(y, start);
        crate::lexer::lemma_digits_end_bounds(y, start);
        let e = ident_end(y, start);
        assert(s.subrange(n + start, n + e) =~= y.subrange(start, e));
        let de = digits_end(y, start);
        assert(s.subrange(n + start, n + de) =~= y.subrange(start, de));
        if double_end(y, start) is Some {
            lemma_double_end_bounds(y, start);
            let x = double_end(y, start)->0;
            assert(s.subrange(n + start, n + x) =~= y.subrange(start, x));
        }
        if string_close(y, start + 1) is Some {
            crate::lexer::lemma_string_close_bounds(y, start + 1);
            let x = string_close(y, start + 1)->0;
            assert(s.subrange(n + start, n + x) =~= y.subrange(start, x));
        }
    } else {
        lemma_skip_end_ge(y, i);
    }
}

proof fn lemma_double_end_bounds(s: Seq<char>, i: int)
    requires
        0 <= i <= s.len(),
    ensures
        double_end(s, i) is Some ==> i <= double_end(s, i)->0 <= s.len(),
{
    crate::lexer::lemma_digits_end_bounds(s, i);
    let d = digits_end(s, i);
    if char_at(s, d) == '.' {
        crate::lexer::lemma_digits_end_bounds(s, d + 1);
        let f = digits_end(s, d + 1);
        if f + 1 <= s.len() {
            crate::lexer::lemma_digits_end_bounds(s, f + 1);
        }
        if f + 2 <= s.len() {
            crate::lexer::lemma_digits_end_bounds(s, f + 2);
        }
        if f + 1 > s.len() {
            assert(digits_end(s, f + 1) == f + 1);
            assert(digits_end(s, f + 2) == f + 2);
        } else if f + 2 > s.len() {
            assert(digits_end(s, f + 2) == f + 2);
        }
    }
}

proof fn lemma_skip_end_ge(s: Seq<char>, i: int)
    requires
        0 <= i,
    ensures
        skip_end(s, i) >= i,
    decreases s.len() - i,
{
    if i < s.len() {
        if is_space(s[i]) {
            lemma_skip_end_ge(s, i + 1);
        } else if s[i] == '#' || (s[i] == '/' && char_at(s, i + 1) == '/') {
            let j = line_end(s, i + 1);
            if i < j <= s.len() {
                lemma_skip_end_ge(s, j);
            }
        } else if s[i] == '/' && char_at(s, i + 1) == '*' && block_close(s, i + 2) is Some {
            let j = block_close(s, i + 2)->0;
            if i < j <= s.len() {
                lemma_skip_end_ge(s, j);
            }
        }
    }
}


/// The text of a punctuation token.
pub open spec fn punct_text(p: Punct) -> Seq<char> {
    match p {
        Punct::DotDotDot => seq!['.', '.', '.'],
        Punct::LeftParenthesis => seq!['('],
        Punct::RightParenthesis => seq![')'],
        Punct::LeftBracket => seq!['{'],
        Punct::RightBracket => seq!['}'],
        Punct::LeftSquare => seq!['['],
        Punct::RightSquare => seq![']'],
        Punct::SemiColon => seq![';'],
        Punct::Colon => seq![':'],
        Punct::Comma => seq![','],
        Punct::Dot => seq!['.'],
        Punct::Arrow => seq!['-', '>'],
        Punct::EqualEqual => seq!['=', '='],
        Punct::BangEqual => seq!['!', '='],
        Punct::PlusPlus => seq!['+', '+'],
        Punct::MinusMinus => seq!['-', '-'],
        Punct::LessEqual => seq!['<', '='],
        Punct::GreaterEqual => seq!['>', '='],
        Punct::PipePipe => seq!['|', '|'],
        Punct::AmpAmp => seq!['&', '&'],
        Punct::Amp => seq!['&'],
        Punct::Equal => seq!['='],
        Punct::Plus => seq!['+'],
        Punct::Minus => seq!['-'],
        Punct::Star => seq!['*'],
        Punct::Slash => seq!['/'],
        Punct::Percent => seq!['%'],
        Punct::Less => seq!['<'],
        Punct::Greater => seq!['>'],
        Punct::Bang => seq!['!'],
    }
}

/// The text of a keyword.
pub open spec fn keyword_text(k: Keyword) -> Seq<char> {
    match k {
        Keyword::Extern => seq!['e', 'x', 't', 'e', 'r', 'n'],
        Keyword::While => seq!['w', 'h', 'i', 'l', 'e'],
        Keyword::For => seq!['f', 'o', 'r'],
        Keyword::If => seq!['i', 'f'],
        Keyword::Else => seq!['e', 'l', 's', 'e'],
        Keyword::Return => seq!['r', 'e', 't', 'u', 'r', 'n'],
        Keyword::Continue => seq!['c', 'o', 'n', 't', 'i', 'n', 'u', 'e'],
        Keyword::Break => seq!['b', 'r', 'e', 'a', 'k'],
        Keyword::Struct => seq!['s', 't', 'r', 'u', 'c', 't'],
        Keyword::As => seq!['a', 's'],
        Keyword::Fn => seq!['f', 'n'],
        Keyword::Let => seq!['l', 'e', 't'],
        Keyword::Nullptr => seq!['n', 'u', 'l', 'l', 'p', 't', 'r'],
    }
}

pub open spec fn digit_char(d: nat) -> char {
    (d + '0' as nat) as char
}

/// The decimal digits of `n`, most significant first, without leading zeros.
pub open spec fn decimal(n: nat) -> Seq<char>
    decreases n,
{
    if n < 10 {
        seq![digit_char(n)]
    } else {
        decimal(n / 10).push(digit_char(n % 10))
    }
}

/// The source text of a token.
pub open spec fn token_text(t: TokenView) -> Seq<char> {
    match t {
        TokenView::Punct(p) => punct_text(p),
        TokenView::Keyword(k) => keyword_text(k),
        TokenView::BooleanLiteral(b) => if b {
            seq!['t', 'r', 'u', 'e']
        } else {
            seq!['f', 'a', 'l', 's', 'e']
        },
        TokenView::Identifier(w) => w,
        TokenView::IntegerLiteral(n) => if n >= 0 {
            decimal(n as nat)
        } else {
            seq!['-'] + decimal((-n) as nat)
        },
        TokenView::DoubleLiteral(w) => w,
        TokenView::StringLiteral(w) => w,
        TokenView::EOF => Seq::empty(),
    }
}

/// The tokens in the forms the lexer produces: punctuation, keywords, booleans,
/// identifiers that are neither keywords nor reserved, non-negative integers, and
/// double and string literals whose text is exactly one literal.
pub open spec fn printable(t: TokenView) -> bool {
    match t {
        TokenView::Punct(_) | TokenView::Keyword(_) | TokenView::BooleanLiteral(_) => true,
        TokenView::Identifier(w) => w.len() > 0 && is_ident_start(w[0]) && (forall|k: int|
            0 <= k < w.len() ==> is_ident_char(#[trigger] w[k])) && keyword_of(w) is None
            && !is_reserved(w),
        TokenView::IntegerLiteral(n) => n >= 0,
        TokenView::DoubleLiteral(w) => w.len() > 0 && is_digit(w[0]) && double_end(w, 0) == Some(
            w.len() as int,
        ),
        TokenView::StringLiteral(w) => w.len() > 0 && w[0] == '"' && string_close(w, 1) == Some(
            w.len() as int,
        ),
        TokenView::EOF => false,
    }
}

proof fn lemma_digits_end_prefix(w: Seq<char>, r: Seq<char>, k: int)
    requires
        0 <= k <= w.len(),
        r.len() > 0,
        r[0] == ' ',
    ensures
        digits_end(w + r, k) == digits_end(w, k),
    decreases w.len() - k,
{
    if k < w.len() {
        assert((w + r)[k] == w[k]);
        if is_digit(w[k]) {
            lemma_digits_end_prefix(w, r, k + 1);
        }
    } else {
        assert((w + r)[k] == ' ');
    }
}

proof fn lemma_double_end_prefix(w: Seq<char>, r: Seq<char>)
    requires
        r.len() > 0,
        r[0] == ' ',
        double_end(w, 0) == Some(w.len() as int),
    ensures
        double_end(w + r, 0) == Some(w.len() as int),
{
    let s = w + r;
    crate::lexer::lemma_digits_end_bounds(w, 0);
    lemma_digits_end_prefix(w, r, 0);
    let d = digits_end(w, 0);
    assert(char_at(w, d) == '.');
    assert(d < w.len());
    assert(char_at(s, d) == char_at(w, d));
    lemma_digits_end_prefix(w, r, d + 1);
    crate::lexer::lemma_digits_end_bounds(w, d + 1);
    let f = digits_end(w, d + 1);
    if f < w.len() {
        assert(char_at(s, f) == char_at(w, f));
        if f + 1 < w.len() {
            assert(char_at(s, f + 1) == char_at(w, f + 1));
        } else {
            assert(char_at(s, f + 1) == ' ');
        }
        if f + 1 <= w.len() {
            lemma_digits_end_prefix(w, r, f + 1);
        }
        if f + 2 <= w.len() {
            lemma_digits_end_prefix(w, r, f + 2);
        }
    } else {
        assert(char_at(s, f) == ' ');
    }
}

proof fn lemma_string_close_prefix(w: Seq<char>, r: Seq<char>, k: int)
    requires
        0 <= k <= w.len(),
        r.len() > 0,
        r[0] == ' ',
        string_close(w, k) is Some,
    ensures
        string_close(w + r, k) == string_close(w, k),
    decreases w.len() - k,
{
    let s = w + r;
    if k < w.len() {
        assert(s[k] == w[k]);
        if w[k] != '"' {
            if k + 1 < w.len() {
                assert(char_at(s, k + 1) == char_at(w, k + 1));
            } else {
                assert(char_at(s, k + 1) == ' ');
            }
            if w[k] == '\\' && char_at(w, k + 1) == '"' {
                lemma_string_close_prefix(w, r, k + 2);
            } else {
                lemma_string_close_prefix(w, r, k + 1);
            }
        }
    }
}

/// Each token's text followed by one space.
pub open spec fn print_tokens(ts: Seq<TokenView>) -> Seq<char>
    decreases ts.len(),
{
    if ts.len() == 0 {
        Seq::empty()
    } else {
        token_text(ts[0]) + seq![' '] + print_tokens(ts.drop_first())
    }
}

/// The tokens read from `i` up to the end of input, in at most `fuel` steps; `None`
/// on an error or when the steps run out.
pub open spec fn lex_tokens(s: Seq<char>, i: int, fuel: nat) -> Option<Seq<TokenView>>
    decreases fuel,
{
    if fuel == 0 {
        None
    } else {
        match lex_at(s, i) {
            LexStep::Token(TokenView::EOF, _, _) => Some(Seq::empty()),
            LexStep::Token(t, start, len) => match lex_tokens(s, start + len, (fuel - 1) as nat) {
                Some(rest) => Some(seq![t] + rest),
                None => None,
            },
            LexStep::Error(_, _, _) => None,
        }
    }
}

proof fn lemma_lex_at_progress(y: Seq<char>, i: int)
    requires
        0 <= i,
    ensures
        lex_at(y, i) is Token ==> lex_at(y, i)->Token_1 + lex_at(y, i)->Token_2 >= 0,
{
    lemma_skip_end_ge(y, i);
    let start = skip_end(y, i);
    if start < y.len() {
        crate::lexer::lemma_ident_end_bounds(y, start);
        crate::lexer::lemma_digits_end_bounds(y, start);
        lemma_double_end_bounds(y, start);
        crate::lexer::lemma_string_close_bounds(y, start + 1);
    }
}

/// Reading tokens does not look behind the starting position.
proof fn lemma_lex_tokens_shift(p: Seq<char>, y: Seq<char>, i: int, fuel: nat)
    requires
        0 <= i,
    ensures
        lex_tokens(p + y, p.len() + i, fuel) == lex_tokens(y, i, fuel),
    decreases fuel,
{
    if fuel > 0 {
        lemma_lex_at_shift(p, y, i);
        lemma_lex_at_progress(y, i);
        match lex_at(y, i) {
            LexStep::Token(t, start, len) => {
                if t != TokenView::EOF {
                    lemma_lex_tokens_shift(p, y, start + len, (fuel - 1) as nat);
                    assert(p.len() + start + len == p.len() + (start + len));
                }
            },
            _ => {},
        }
    }
}

/// A space before the position changes nothing that is read.
proof fn lemma_lex_tokens_space(s: Seq<char>, i: int, fuel: nat)
    requires
        0 <= i < s.len(),
        is_space(s[i]),
    ensures
        lex_tokens(s, i, fuel) == lex_tokens(s, i + 1, fuel),
{
    assert(skip_end(s, i) == skip_end(s, i + 1));
    assert(lex_at(s, i) == lex_at(s, i + 1));
}

proof fn lemma_decimal(n: nat)
    ensures
        decimal(n).len() > 0,
        forall|k: int| 0 <= k < decimal(n).len() ==> is_digit(#[trigger] decimal(n)[k]),
        digits_value(decimal(n)) == n,
    decreases n,
{
    if n < 10 {
        assert(decimal(n).drop_last() =~= Seq::<char>::empty());
        assert(digit_char(n) as int == n + '0' as int);
        assert(digits_value(Seq::<char>::empty()) == 0);
        assert(digits_value(decimal(n)) == digits_value(decimal(n).drop_last()) * 10 + (decimal(
            n,
        ).last() as int - '0' as int));
    } else {
        lemma_decimal(n / 10);
        assert(decimal(n).drop_last() =~= decimal(n / 10));
        assert(decimal(n).last() == digit_char(n % 10));
        assert(digit_char(n % 10) as int == n % 10 + '0' as int);
        assert((n / 10) * 10 + n % 10 == n) by (nonlinear_arith);
        assert(digits_value(decimal(n)) == digits_value(decimal(n).drop_last()) * 10 + (decimal(
            n,
        ).last() as int - '0' as int));
    }
}

proof fn lemma_digits_run(s: Seq<char>, i: int, n: int)
    requires
        0 <= i <= n <= s.len(),
        forall|k: int| i <= k < n ==> is_digit(#[trigger] s[k]),
        n == s.len() || !is_digit(s[n]),
    ensures
        digits_end(s, i) == n,
    decreases n - i,
{
    if i < n {
        lemma_digits_run(s, i + 1, n);
    }
}

proof fn lemma_ident_run(s: Seq<char>, i: int, n: int)
    requires
        0 <= i <= n <= s.len(),
        forall|k: int| i <= k < n ==> is_ident_char(#[trigger] s[k]),
        n == s.len() || !is_ident_char(s[n]),
    ensures
        ident_end(s, i) == n,
    decreases n - i,
{
    if i < n {
        lemma_ident_run(s, i + 1, n);
    }
}

/// A word followed by a space reads as that word.
proof fn lemma_lex_word(w: Seq<char>, y: Seq<char>)
    requires
        w.len() > 0,
        is_ident_start(w[0]),
        forall|k: int| 0 <= k < w.len() ==> is_ident_char(#[trigger] w[k]),
    ensures
        ({
            let s = w + seq![' '] + y;
            &&& skip_end(s, 0) == 0
            &&& punct_at(s, 0) is None
            &&& is_ident_start(s[0])
            &&& ident_end(s, 0) == w.len()
            &&& s.subrange(0, w.len() as int) == w
        }),
{
    let s = w + seq![' '] + y;
    assert(s[0] == w[0]);
    assert(s[w.len() as int] == ' ');
    assert forall|k: int| 0 <= k < w.len() implies is_ident_char(#[trigger] s[k]) by {
        assert(s[k] == w[k]);
    }
    lemma_ident_run(s, 0, w.len() as int);
    assert(s.subrange(0, w.len() as int) =~= w);
}

/// A printable token followed by a space reads as that token.
proof fn lemma_lex_single(t: TokenView, y: Seq<char>)
    requires
        printable(t),
    ensures
        lex_at(token_text(t) + seq![' '] + y, 0) == LexStep::Token(t, 0, token_text(t).len() as int),
{
    let text = token_text(t);
    let s = text + seq![' '] + y;
    match t {
        TokenView::Punct(p) => {
            assert(s[text.len() as int] == ' ');
            assert(forall|k: int| 0 <= k < text.len() ==> s[k] == text[k]);
        },
        TokenView::Keyword(k) => {
            lemma_lex_word(text, y);
        },
        TokenView::BooleanLiteral(b) => {
            lemma_lex_word(text, y);
        },
        TokenView::Identifier(w) => {
            lemma_lex_word(text, y);
        },
        TokenView::IntegerLiteral(n) => {
            lemma_decimal(n as nat);
            assert(s[text.len() as int] == ' ');
            assert(s[0] == text[0]);
            assert forall|k: int| 0 <= k < text.len() implies is_digit(#[trigger] s[k]) by {
                assert(s[k] == text[k]);
            }
            lemma_digits_run(s, 0, text.len() as int);
            assert(s.subrange(0, text.len() as int) =~= text);
        },
        TokenView::DoubleLiteral(w) => {
            assert(s == w + (seq![' '] + y));
            assert((seq![' '] + y)[0] == ' ');
            lemma_double_end_prefix(w, seq![' '] + y);
            assert(s[0] == w[0]);
            assert(s.subrange(0, w.len() as int) =~= w);
        },
        TokenView::StringLiteral(w) => {
            assert(s == w + (seq![' '] + y));
            assert((seq![' '] + y)[0] == ' ');
            lemma_string_close_prefix(w, seq![' '] + y, 1);
            assert(s[0] == w[0]);
            assert(digits_end(s, 0) == 0);
            assert(s.subrange(0, w.len() as int) =~= w);
        },
        TokenView::EOF => {},
    }
}

/// Printing tokens in order, each followed by a space, and lexing the text again
/// gives back the same tokens, then the end of input.
pub proof fn lex_print_round_trip(ts: Seq<TokenView>)
    requires
        forall|k: int| 0 <= k < ts.len() ==> printable(#[trigger] ts[k]),
    ensures
        lex_tokens(print_tokens(ts), 0, ts.len() + 1) == Some(ts),
    decreases ts.len(),
{
    if ts.len() == 0 {
        assert(print_tokens(ts) == Seq::<char>::empty());
    } else {
        let t = ts[0];
        let rest = ts.drop_first();
        let text = token_text(t);
        let y = print_tokens(rest);
        let s = print_tokens(ts);
        assert(s == text + seq![' '] + y);
        assert(printable(t));
        lemma_lex_single(t, y);
        assert(t != TokenView::EOF);
        assert forall|k: int| 0 <= k < rest.len() implies printable(#[trigger] rest[k]) by {
            assert(rest[k] == ts[k + 1]);
        }
        lex_print_round_trip(rest);
        let n = rest.len() + 1;
        assert(s[text.len() as int] == ' ');
        lemma_lex_tokens_space(s, text.len() as int, n as nat);
        let p = text + seq![' '];
        assert(s == p + y);
        lemma_lex_tokens_shift(p, y, 0, n as nat);
        assert(p.len() + 0 == text.len() + 1);
        assert(seq![t] + rest =~= ts);
    }
}


fn decimal_chars(m: u64) -> (r: Vec<char>)
    ensures
        r@ == decimal(m as nat),
    decreases m,
{
    let d = (m % 10) as u8;
    let c = (48u8 + d) as char;
    assert(c == digit_char((m % 10) as nat));
    if m < 10 {
        vec![c]
    } else {
        let mut v = decimal_chars(m / 10);
        v.push(c);
        v
    }
}

pub(crate) fn string_chars(s: &String) -> (r: Vec<char>)
    ensures
        r@ == s@,
{
    let t = s.as_str();
    let n = t.unicode_len();
    let mut out: Vec<char> = Vec::new();
    let mut i: usize = 0;
    while i < n
        invariant
            i <= n,
            n == t@.len(),
            t@ == s@,
            out@ =~= t@.subrange(0, i as int),
        decreases n - i,
    {
        out.push(t.get_char(i));
        i = i + 1;
    }
    assert(out@ =~= t@);
    out
}

fn seq_chars(cs: &Vec<char>) -> (r: Vec<char>)
    ensures
        r@ == cs@,
{
    let mut out: Vec<char> = Vec::new();
    let mut i: usize = 0;
    while i < cs.len()
        invariant
            i <= cs.len(),
            out@ =~= cs@.subrange(0, i as int),
        decreases cs.len() - i,
    {
        out.push(cs[i]);
        i = i + 1;
    }
    assert(out@ =~= cs@);
    out
}

impl Token {
    /// The source text of the token; empty for the end of input.
    pub fn text(&self) -> (r: Vec<char>)
        ensures
            r@ == token_text(self@),
    {
        match self {
            Token::Punct(p) => {
                let r = match p {
                    Punct::DotDotDot => vec!['.', '.', '.'],
                    Punct::LeftParenthesis => vec!['('],
                    Punct::RightParenthesis => vec![')'],
                    Punct::LeftBracket => vec!['{'],
                    Punct::RightBracket => vec!['}'],
                    Punct::LeftSquare => vec!['['],
                    Punct::RightSquare => vec![']'],
                    Punct::SemiColon => vec![';'],
                    Punct::Colon => vec![':'],
                    Punct::Comma => vec![','],
                    Punct::Dot => vec!['.'],
                    Punct::Arrow => vec!['-', '>'],
                    Punct::EqualEqual => vec!['=', '='],
                    Punct::BangEqual => vec!['!', '='],
                    Punct::PlusPlus => vec!['+', '+'],
                    Punct::MinusMinus => vec!['-', '-'],
                    Punct::LessEqual => vec!['<', '='],
                    Punct::GreaterEqual => vec!['>', '='],
                    Punct::PipePipe => vec!['|', '|'],
                    Punct::AmpAmp => vec!['&', '&'],
                    Punct::Amp => vec!['&'],
                    Punct::Equal => vec!['='],
                    Punct::Plus => vec!['+'],
                    Punct::Minus => vec!['-'],
                    Punct::Star => vec!['*'],
                    Punct::Slash => vec!['/'],
                    Punct::Percent => vec!['%'],
                    Punct::Less => vec!['<'],
                    Punct::Greater => vec!['>'],
                    Punct::Bang => vec!['!'],
                };
                r
            },
            Token::Keyword(k) => {
                let r = match k {
                    Keyword::Extern => vec!['e', 'x', 't', 'e', 'r', 'n'],
                    Keyword::While => vec!['w', 'h', 'i', 'l', 'e'],
                    Keyword::For => vec!['f', 'o', 'r'],
                    Keyword::If => vec!['i', 'f'],
                    Keyword::Else => vec!['e', 'l', 's', 'e'],
                    Keyword::Return => vec!['r', 'e', 't', 'u', 'r', 'n'],
                    Keyword::Continue => vec!['c', 'o', 'n', 't', 'i', 'n', 'u', 'e'],
                    Keyword::Break => vec!['b', 'r', 'e', 'a', 'k'],
                    Keyword::Struct => vec!['s', 't', 'r', 'u', 'c', 't'],
                    Keyword::As => vec!['a', 's'],
                    Keyword::Fn => vec!['f', 'n'],
                    Keyword::Let => vec!['l', 'e', 't'],
                    Keyword::Nullptr => vec!['n', 'u', 'l', 'l', 'p', 't', 'r'],
                };
                r
            },
            Token::BooleanLiteral(b) => {
                if *b {
                    vec!['t', 'r', 'u', 'e']
                } else {
                    vec!['f', 'a', 'l', 's', 'e']
                }
            },
            Token::Identifier(w) => string_chars(w),
            Token::IntegerLiteral(n) => {
                if *n >= 0 {
                    decimal_chars(*n as u64)
                } else {
                    let m = (-(*n as i128)) as u64;
                    let digits = decimal_chars(m);
                    let mut r: Vec<char> = vec!['-'];
                    let mut i: usize = 0;
                    while i < digits.len()
                        invariant
                            i <= digits.len(),
                            r@ =~= seq!['-'] + digits@.subrange(0, i as int),
                        decreases digits.len() - i,
                    {
                        r.push(digits[i]);
                        i = i + 1;
                    }
                    assert(digits@.subrange(0, i as int) =~= digits@);
                    r
                }
            },
            Token::DoubleLiteral(w) => string_chars(w),
            Token::StringLiteral(w) => string_chars(w),
            Token::EOF => Vec::new(),
        }
    }
}

} // verus!
