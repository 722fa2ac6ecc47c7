use vstd::prelude::*;
use vstd::std_specs::iter::IteratorSpec;
use vstd::string::*;

use crate::bytes::{decimal, digit_char, lemma_decimal_spells, string_of_chars};
pub use crate::parser::commands::StatementParser;
use crate::parser::expression::{ExprView, Expression};
use crate::parser::predicate::{Predicate, Term, TermView};

verus! {

broadcast use vstd::string::axiom_spec_iter, vstd::string::next_postcondition;

/// Why a text was not accepted.
#[derive(Debug, Clone, Copy, PartialEq, Eq)]
pub enum ParseError {
    /// The text holds a character that starts no token, an unclosed string,
    /// or a number too large for an `i32`.
    InvalidToken,
    /// The tokens do not form what was asked for.
    UnrecognizedToken,
}

/// A token of the query language.
#[derive(Debug, Clone, PartialEq, Eq)]
pub enum Token {
    Int(i32),
    Str(String),
    Ident(String),
    Null,
    And,
    Is,
    Eq,
    Plus,
    Minus,
    Star,
    Slash,
    LParen,
    RParen,
    Comma,
}

/// The model of a token.
pub enum TokenView {
    Int(i32),
    Str(Seq<char>),
    Ident(Seq<char>),
    Null,
    And,
    Is,
    Eq,
    Plus,
    Minus,
    Star,
    Slash,
    LParen,
    RParen,
    Comma,
}

impl View for Token {
    type V = TokenView;

    open spec fn view(&self) -> TokenView {
        match self {
            Token::Int(i) => TokenView::Int(*i),
            Token::Str(s) => TokenView::Str(s@),
            Token::Ident(s) => TokenView::Ident(s@),
            Token::Null => TokenView::Null,
            Token::And => TokenView::And,
            Token::Is => TokenView::Is,
            Token::Eq => TokenView::Eq,
            Token::Plus => TokenView::Plus,
            Token::Minus => TokenView::Minus,
            Token::Star => TokenView::Star,
            Token::Slash => TokenView::Slash,
            Token::LParen => TokenView::LParen,
            Token::RParen => TokenView::RParen,
            Token::Comma => TokenView::Comma,
        }
    }
}

/// The models of a sequence of tokens.
pub open spec fn token_views(ts: Seq<Token>) -> Seq<TokenView> {
    ts.map_values(|t: Token| t@)
}

/// Blank characters, which separate tokens.
pub open spec fn is_blank(c: char) -> bool {
    c == ' ' || c == '\t' || c == '\n' || c == '\r'
}

/// Decimal digits.
pub open spec fn is_digit(c: char) -> bool {
    '0' <= c <= '9'
}

/// Characters that may start a name.
pub open spec fn is_name_start(c: char) -> bool {
    ('a' <= c <= 'z') || ('A' <= c <= 'Z') || c == '_'
}

/// Characters that may continue a name.
pub open spec fn is_name_char(c: char) -> bool {
    is_name_start(c) || is_digit(c)
}

/// The end of the run of digits that starts at `i`.
pub open spec fn digits_end(cs: Seq<char>, i: int) -> int
    decreases cs.len() - i,
{
    if 0 <= i < cs.len() && is_digit(cs[i]) {
        digits_end(cs, i + 1)
    } else {
        i
    }
}

/// The end of the run of name characters that starts at `i`.
pub open spec fn name_end(cs: Seq<char>, i: int) -> int
    decreases cs.len() - i,
{
    if 0 <= i < cs.len() && is_name_char(cs[i]) {
        name_end(cs, i + 1)
    } else {
        i
    }
}

/// The position of the first quote at or after `i`, or the length if there is none.
pub open spec fn quote_end(cs: Seq<char>, i: int) -> int
    decreases cs.len() - i,
{
    if 0 <= i < cs.len() && cs[i] != '\'' {
        quote_end(cs, i + 1)
    } else {
        i
    }
}

/// The number that a run of decimal digits spells.
pub open spec fn digits_value(ds: Seq<char>) -> int
    decreases ds.len(),
{
    if ds.len() == 0 {
        0
    } else {
        digits_value(ds.drop_last()) * 10 + (ds.last() as int - '0' as int)
    }
}

/// Whether a character is the given letter, in either case.
pub open spec fn letter_is(c: char, upper: char, lower: char) -> bool {
    c == upper || c == lower
}

/// The token that a name spells: a keyword (in any case) or a field name.
pub open spec fn word_token(w: Seq<char>) -> TokenView {
    if w.len() == 3 && letter_is(w[0], 'A', 'a') && letter_is(w[1], 'N', 'n') && letter_is(
        w[2],
        'D',
        'd',
    ) {
        TokenView::And
    } else if w.len() == 2 && letter_is(w[0], 'I', 'i') && letter_is(w[1], 'S', 's') {
        TokenView::Is
    } else if w.len() == 4 && letter_is(w[0], 'N', 'n') && letter_is(w[1], 'U', 'u') && letter_is(
        w[2],
        'L',
        'l',
    ) && letter_is(w[3], 'L', 'l') {
        TokenView::Null
    } else {
        TokenView::Ident(w)
    }
}

/// The token of a one-character symbol.
pub open spec fn symbol_token(c: char) -> Option<TokenView> {
    if c == '=' {
        Some(TokenView::Eq)
    } else if c == '+' {
        Some(TokenView::Plus)
    } else if c == '-' {
        Some(TokenView::Minus)
    } else if c == '*' {
        Some(TokenView::Star)
    } else if c == '/' {
        Some(TokenView::Slash)
    } else if c == '(' {
        Some(TokenView::LParen)
    } else if c == ')' {
        Some(TokenView::RParen)
    } else if c == ',' {
        Some(TokenView::Comma)
    } else {
        None
    }
}

/// The tokens of the text from position `i` on; `None` where some character
/// starts no token, a string is not closed, or a number exceeds `i32`.
pub open spec fn lex_from(cs: Seq<char>, i: int) -> Option<Seq<TokenView>>
    decreases cs.len() - i, 
{
    if i < 0 || i >= cs.len() {
        Some(Seq::empty())
    } else {
        let c = cs[i];
        if is_blank(c) {
            lex_from(cs, i + 1)
        } else if symbol_token(c).is_some() {
            prepend(symbol_token(c).unwrap(), lex_from(cs, i + 1))
        } else if c == '\'' {
            let j = quote_end(cs, i + 1);
            if j >= cs.len() || j <= i {
                None
            } else {
                prepend(TokenView::Str(cs.subrange(i + 1, j)), lex_from(cs, j + 1))
            }
        } else if is_digit(c) {
            let j = digits_end(cs, i);
            if j <= i || j > cs.len() || digits_value(cs.subrange(i, j)) > i32::MAX {
                None
            } else {
                prepend(
                    TokenView::Int(digits_value(cs.subrange(i, j)) as i32),
                    lex_from(cs, j),
                )
            }
        } else if is_name_start(c) {
            let j = name_end(cs, i);
            if j <= i || j > cs.len() {
                None
            } else {
                prepend(word_token(cs.subrange(i, j)), lex_from(cs, j))
            }
        } else {
            None
        }
    }
}

/// A token put in front of the tokens that follow it, if those were read.
pub open spec fn prepend(t: TokenView, rest: Option<Seq<TokenView>>) -> Option<Seq<TokenView>> {
    match rest {
        Some(ts) => Some(seq![t] + ts),
        None => None,
    }
}

/// The tokens of a text.
pub open spec fn lex(cs: Seq<char>) -> Option<Seq<TokenView>> {
    lex_from(cs, 0)
}

/// A primary expression at `p`: a constant, a field, or an expression in parentheses.
pub open spec fn parse_atom(ts: Seq<TokenView>, p: int) -> Option<(ExprView, int)>
    decreases ts.len() - p, 0int,
{
    if p < 0 || p >= ts.len() {
        None
    } else {
        match ts[p] {
            TokenView::Int(i) => Some((ExprView::I32(i), p + 1)),
            TokenView::Str(s) => Some((ExprView::Str(s), p + 1)),
            TokenView::Null => Some((ExprView::Null, p + 1)),
            TokenView::Ident(x) => Some((ExprView::Field(x), p + 1)),
            TokenView::LParen => match parse_expr(ts, p + 1) {
                Some((e, q)) => if p + 1 < q < ts.len() && ts[q] is RParen {
                    Some((e, q + 1))
                } else {
                    None
                },
                None => None,
            },
            _ => None,
        }
    }
}

/// A product at `p`: primaries joined by `*` and `/`, grouped from the left.
pub open spec fn parse_product(ts: Seq<TokenView>, p: int) -> Option<(ExprView, int)>
    decreases ts.len() - p, 1int,
{
    if p < 0 || p >= ts.len() {
        None
    } else {
        match parse_atom(ts, p) {
            Some((e, q)) => if p < q <= ts.len() {
                parse_product_rest(ts, q, e)
            } else {
                None
            },
            None => None,
        }
    }
}

/// The rest of a product after `acc`, from `q` on.
pub open spec fn parse_product_rest(ts: Seq<TokenView>, q: int, acc: ExprView) -> Option<
    (ExprView, int),
>
    decreases ts.len() - q, 0int,
{
    if 0 <= q < ts.len() && (ts[q] is Star || ts[q] is Slash) {
        match parse_atom(ts, q + 1) {
            Some((e, r)) => if q + 1 < r <= ts.len() {
                parse_product_rest(
                    ts,
                    r,
                    if ts[q] is Star {
                        ExprView::Mul(Box::new(acc), Box::new(e))
                    } else {
                        ExprView::Div(Box::new(acc), Box::new(e))
                    },
                )
            } else {
                None
            },
            None => None,
        }
    } else {
        Some((acc, q))
    }
}

/// An expression at `p`: products joined by `+` and `-`, grouped from the left.
pub open spec fn parse_expr(ts: Seq<TokenView>, p: int) -> Option<(ExprView, int)>
    decreases ts.len() - p, 3int,
{
    if p < 0 || p >= ts.len() {
        None
    } else {
        match parse_product(ts, p) {
            Some((e, q)) => if p < q <= ts.len() {
                parse_expr_rest(ts, q, e)
            } else {
                None
            },
            None => None,
        }
    }
}

/// The rest of a sum after `acc`, from `q` on.
pub open spec fn parse_expr_rest(ts: Seq<TokenView>, q: int, acc: ExprView) -> Option<
    (ExprView, int),
>
    decreases ts.len() - q, 2int,
{
    if 0 <= q < ts.len() && (ts[q] is Plus || ts[q] is Minus) {
        match parse_product(ts, q + 1) {
            Some((e, r)) => if q + 1 < r <= ts.len() {
                parse_expr_rest(
                    ts,
                    r,
                    if ts[q] is Plus {
                        ExprView::Add(Box::new(acc), Box::new(e))
                    } else {
                        ExprView::Sub(Box::new(acc), Box::new(e))
                    },
                )
            } else {
                None
            },
            None => None,
        }
    } else {
        Some((acc, q))
    }
}

/// A term at `p`: `e = e`, or `e IS NULL`.
pub open spec fn parse_term_at(ts: Seq<TokenView>, p: int) -> Option<(TermView, int)> {
    match parse_expr(ts, p) {
        Some((l, q)) => if 0 <= q < ts.len() && ts[q] is Eq {
            match parse_expr(ts, q + 1) {
                Some((r, q2)) => Some((TermView::Equality(l, r), q2)),
                None => None,
            }
        } else if 0 <= q && q + 1 < ts.len() && ts[q] is Is && ts[q + 1] is Null {
            Some((TermView::IsNull(l), q + 2))
        } else {
            None
        },
        None => None,
    }
}

/// The terms joined by `AND` from `p` on, to the end of the tokens.
pub open spec fn parse_terms(ts: Seq<TokenView>, p: int) -> Option<Seq<TermView>>
    decreases ts.len() - p,
{
    match parse_term_at(ts, p) {
        Some((t, q)) => if q == ts.len() {
            Some(seq![t])
        } else if p < q < ts.len() && ts[q] is And {
            match parse_terms(ts, q + 1) {
                Some(rest) => Some(seq![t] + rest),
                None => None,
            }
        } else {
            None
        },
        None => None,
    }
}

/// The term that all the tokens form.
pub open spec fn parse_term(ts: Seq<TokenView>) -> Option<TermView> {
    match parse_term_at(ts, 0) {
        Some((t, q)) => if q == ts.len() {
            Some(t)
        } else {
            None
        },
        None => None,
    }
}

proof fn lemma_decimal_digits_value(n: nat)
    ensures
        digits_value(decimal(n)) == n,
    decreases n,
{
    lemma_decimal_spells(n);
    if n >= 10 {
        lemma_decimal_digits_value(n / 10);
        let d = decimal(n);
        assert(d.drop_last() =~= decimal(n / 10));
        assert(d.last() == digit_char(n % 10));
        assert(digits_value(d) == digits_value(d.drop_last()) * 10 + (d.last() as int - '0' as int));
        assert(digit_char(n % 10) as int - '0' as int == n % 10);
        assert(n == (n / 10) * 10 + n % 10);
    } else {
        let d = decimal(n);
        assert(d.drop_last().len() == 0);
        assert(digits_value(d) == digits_value(d.drop_last()) * 10 + (d.last() as int - '0' as int));
        assert(digit_char(n) as int - '0' as int == n);
    }
}

proof fn lemma_digits_run(cs: Seq<char>, i: int)
    requires
        0 <= i <= cs.len(),
        forall|k: int| i <= k < cs.len() ==> is_digit(#[trigger] cs[k]),
    ensures
        digits_end(cs, i) == cs.len(),
    decreases cs.len() - i,
{
    if i < cs.len() {
        lemma_digits_run(cs, i + 1);
    }
}

/// The decimal text of a number that fits an `i32` reads as that number.
pub proof fn lemma_lex_number(n: nat)
    requires
        n <= i32::MAX,
    ensures
        lex(decimal(n)) == Some(seq![TokenView::Int(n as i32)]),
{
    let d = decimal(n);
    lemma_decimal_spells(n);
    lemma_decimal_digits_value(n);
    lemma_digits_run(d, 0);
    assert(d.subrange(0, d.len() as int) =~= d);
    assert(is_digit(d[0]));
    assert(!is_blank(d[0]));
    assert(symbol_token(d[0]).is_none());
    assert(lex_from(d, d.len() as int) == Some(Seq::<TokenView>::empty()));
    assert(seq![TokenView::Int(n as i32)] + Seq::<TokenView>::empty() =~= seq![TokenView::Int(n as i32)]);
}

/// Operators bind as in arithmetic: `*` and `/` before `+` and `-`, and
/// operators of the same kind group from the left.
pub proof fn lemma_operator_precedence(a: i32, b: i32, c: i32)
    ensures
        parse_whole_expr(seq![TokenView::Int(a), TokenView::Plus, TokenView::Int(b), TokenView::Star, TokenView::Int(c)])
            == Some(ExprView::Add(
                Box::new(ExprView::I32(a)),
                Box::new(ExprView::Mul(Box::new(ExprView::I32(b)), Box::new(ExprView::I32(c)))),
            )),
        parse_whole_expr(seq![TokenView::Int(a), TokenView::Star, TokenView::Int(b), TokenView::Minus, TokenView::Int(c)])
            == Some(ExprView::Sub(
                Box::new(ExprView::Mul(Box::new(ExprView::I32(a)), Box::new(ExprView::I32(b)))),
                Box::new(ExprView::I32(c)),
            )),
        parse_whole_expr(seq![TokenView::Int(a), TokenView::Minus, TokenView::Int(b), TokenView::Minus, TokenView::Int(c)])
            == Some(ExprView::Sub(
                Box::new(ExprView::Sub(Box::new(ExprView::I32(a)), Box::new(ExprView::I32(b)))),
                Box::new(ExprView::I32(c)),
            )),
        parse_whole_expr(seq![TokenView::Int(a), TokenView::Slash, TokenView::Int(b), TokenView::Slash, TokenView::Int(c)])
            == Some(ExprView::Div(
                Box::new(ExprView::Div(Box::new(ExprView::I32(a)), Box::new(ExprView::I32(b)))),
                Box::new(ExprView::I32(c)),
            )),
{
    reveal_with_fuel(parse_product_rest, 3);
    reveal_with_fuel(parse_expr_rest, 3);
    let ea = ExprView::I32(a);
    let eb = ExprView::I32(b);
    let ec = ExprView::I32(c);
    let t1 = seq![TokenView::Int(a), TokenView::Plus, TokenView::Int(b), TokenView::Star, TokenView::Int(c)];
    assert(parse_atom(t1, 0) == Some((ea, 1int)));
    assert(parse_product_rest(t1, 1, ea) == Some((ea, 1int)));
    assert(parse_product(t1, 0) == Some((ea, 1int)));
    assert(parse_atom(t1, 2) == Some((eb, 3int)));
    assert(parse_atom(t1, 4) == Some((ec, 5int)));
    let m = ExprView::Mul(Box::new(eb), Box::new(ec));
    assert(parse_product_rest(t1, 5, m) == Some((m, 5int)));
    assert(parse_product_rest(t1, 3, eb) == Some((m, 5int)));
    assert(parse_product(t1, 2) == Some((m, 5int)));
    let sum = ExprView::Add(Box::new(ea), Box::new(m));
    assert(parse_expr_rest(t1, 5, sum) == Some((sum, 5int)));
    assert(parse_expr_rest(t1, 1, ea) == Some((sum, 5int)));
    assert(parse_expr(t1, 0) == Some((sum, 5int)));
    let t2 = seq![TokenView::Int(a), TokenView::Star, TokenView::Int(b), TokenView::Minus, TokenView::Int(c)];
    let ab = ExprView::Mul(Box::new(ea), Box::new(eb));
    assert(parse_atom(t2, 0) == Some((ea, 1int)));
    assert(parse_atom(t2, 2) == Some((eb, 3int)));
    assert(parse_product_rest(t2, 3, ab) == Some((ab, 3int)));
    assert(parse_product_rest(t2, 1, ea) == Some((ab, 3int)));
    assert(parse_product(t2, 0) == Some((ab, 3int)));
    assert(parse_atom(t2, 4) == Some((ec, 5int)));
    assert(parse_product_rest(t2, 5, ec) == Some((ec, 5int)));
    assert(parse_product(t2, 4) == Some((ec, 5int)));
    let d = ExprView::Sub(Box::new(ab), Box::new(ec));
    assert(parse_expr_rest(t2, 5, d) == Some((d, 5int)));
    assert(parse_expr_rest(t2, 3, ab) == Some((d, 5int)));
    assert(parse_expr(t2, 0) == Some((d, 5int)));
    let t3 = seq![TokenView::Int(a), TokenView::Minus, TokenView::Int(b), TokenView::Minus, TokenView::Int(c)];
    assert(parse_atom(t3, 0) == Some((ea, 1int)));
    assert(parse_product_rest(t3, 1, ea) == Some((ea, 1int)));
    assert(parse_product(t3, 0) == Some((ea, 1int)));
    assert(parse_atom(t3, 2) == Some((eb, 3int)));
    assert(parse_product_rest(t3, 3, eb) == Some((eb, 3int)));
    assert(parse_product(t3, 2) == Some((eb, 3int)));
    assert(parse_atom(t3, 4) == Some((ec, 5int)));
    assert(parse_product_rest(t3, 5, ec) == Some((ec, 5int)));
    assert(parse_product(t3, 4) == Some((ec, 5int)));
    let s1 = ExprView::Sub(Box::new(ea), Box::new(eb));
    let s2 = ExprView::Sub(Box::new(s1), Box::new(ec));
    assert(parse_expr_rest(t3, 5, s2) == Some((s2, 5int)));
    assert(parse_expr_rest(t3, 3, s1) == Some((s2, 5int)));
    assert(parse_expr_rest(t3, 1, ea) == Some((s2, 5int)));
    assert(parse_expr(t3, 0) == Some((s2, 5int)));
    let t4 = seq![TokenView::Int(a), TokenView::Slash, TokenView::Int(b), TokenView::Slash, TokenView::Int(c)];
    let q1 = ExprView::Div(Box::new(ea), Box::new(eb));
    let q2 = ExprView::Div(Box::new(q1), Box::new(ec));
    assert(parse_atom(t4, 0) == Some((ea, 1int)));
    assert(parse_atom(t4, 2) == Some((eb, 3int)));
    assert(parse_atom(t4, 4) == Some((ec, 5int)));
    assert(parse_product_rest(t4, 5, q2) == Some((q2, 5int)));
    assert(parse_product_rest(t4, 3, q1) == Some((q2, 5int)));
    assert(parse_product_rest(t4, 1, ea) == Some((q2, 5int)));
    assert(parse_product(t4, 0) == Some((q2, 5int)));
    assert(parse_expr_rest(t4, 5, q2) == Some((q2, 5int)));
    assert(parse_expr(t4, 0) == Some((q2, 5int)));
}

/// A field compared with a number forms the term that equates them, and a
/// field followed by `IS NULL` the term that tests it.
pub proof fn lemma_simple_terms(name: Seq<char>, n: i32)
    ensures
        parse_term(seq![TokenView::Ident(name), TokenView::Eq, TokenView::Int(n)]) == Some(
            TermView::Equality(ExprView::Field(name), ExprView::I32(n)),
        ),
        parse_term(seq![TokenView::Ident(name), TokenView::Is, TokenView::Null]) == Some(
            TermView::IsNull(ExprView::Field(name)),
        ),
{
}

/// The expression that all the tokens form.
pub open spec fn parse_whole_expr(ts: Seq<TokenView>) -> Option<ExprView> {
    match parse_expr(ts, 0) {
        Some((e, q)) => if q == ts.len() {
            Some(e)
        } else {
            None
        },
        None => None,
    }
}


/// The number a run of digits spells grows with every digit added.
pub proof fn lemma_digits_prefix(ds: Seq<char>, k: int)
    requires
        0 <= k <= ds.len(),
        forall|i: int| 0 <= i < ds.len() ==> is_digit(#[trigger] ds[i]),
    ensures
        0 <= digits_value(ds.take(k)) <= digits_value(ds),
    decreases ds.len(),
{
    if ds.len() == 0 {
        assert(ds.take(k) =~= ds);
    } else if k == ds.len() {
        assert(ds.take(k) =~= ds);
        lemma_digits_prefix(ds.drop_last(), k - 1);
        assert(ds.drop_last().take(k - 1) =~= ds.drop_last());
    } else {
        lemma_digits_prefix(ds.drop_last(), k);
        assert(ds.drop_last().take(k) =~= ds.take(k));
        lemma_digits_prefix(ds.drop_last(), ds.len() - 1);
        assert(ds.drop_last().take(ds.len() - 1) =~= ds.drop_last());
    }
}

/// The characters of a string.
pub fn chars_of(s: &str) -> (r: Vec<char>)
    ensures
        r@ == s@,
{
    let mut out: Vec<char> = Vec::new();
    let mut it = s.chars();
    loop
        invariant
            out@ + it.remaining() == s@,
        decreases s@.len() - out@.len(),
    {
        let ghost before = it.remaining();
        match it.next() {
            Some(c) => {
                out.push(c);
                assert(out@ + it.remaining() =~= s@);
            },
            None => {
                assert(out@ =~= s@);
                return out;
            },
        }
    }
}

fn scan_digits(cs: &[char], i: usize) -> (j: usize)
    requires
        i <= cs@.len(),
    ensures
        j == digits_end(cs@, i as int),
        i <= j <= cs@.len(),
        i < cs@.len() && is_digit(cs@[i as int]) ==> j > i,
        forall|k: int| i <= k < j ==> is_digit(#[trigger] cs@[k]),
{
    let mut j = i;
    while j < cs.len() && '0' <= cs[j] && cs[j] <= '9'
        invariant
            i <= j <= cs@.len(),
            digits_end(cs@, i as int) == digits_end(cs@, j as int),
            forall|k: int| i <= k < j ==> is_digit(#[trigger] cs@[k]),
        decreases cs@.len() - j,
    {
        j = j + 1;
    }
    j
}

fn scan_name(cs: &[char], i: usize) -> (j: usize)
    requires
        i <= cs@.len(),
    ensures
        j == name_end(cs@, i as int),
        i <= j <= cs@.len(),
        i < cs@.len() && is_name_char(cs@[i as int]) ==> j > i,
{
    let mut j = i;
    while j < cs.len() && (('a' <= cs[j] && cs[j] <= 'z') || ('A' <= cs[j] && cs[j] <= 'Z')
        || cs[j] == '_' || ('0' <= cs[j] && cs[j] <= '9'))
        invariant
            i <= j <= cs@.len(),
            name_end(cs@, i as int) == name_end(cs@, j as int),
        decreases cs@.len() - j,
    {
        j = j + 1;
    }
    j
}

fn scan_quote(cs: &[char], i: usize) -> (j: usize)
    requires
        i <= cs@.len(),
    ensures
        j == quote_end(cs@, i as int),
        i <= j <= cs@.len(),
{
    let mut j = i;
    while j < cs.len() && cs[j] != '\''
        invariant
            i <= j <= cs@.len(),
            quote_end(cs@, i as int) == quote_end(cs@, j as int),
        decreases cs@.len() - j,
    {
        j = j + 1;
    }
    j
}

/// The value of the digits `cs[i..j]`, if it fits an `i32`.
fn digits_i32(cs: &[char], i: usize, j: usize) -> (r: Option<i32>)
    requires
        i <= j <= cs@.len(),
        forall|k: int| i <= k < j ==> is_digit(#[trigger] cs@[k]),
    ensures
        match r {
            Some(v) => digits_value(cs@.subrange(i as int, j as int)) == v,
            None => digits_value(cs@.subrange(i as int, j as int)) > i32::MAX,
        },
{
    let ghost ds = cs@.subrange(i as int, j as int);
    let mut acc: i64 = 0;
    let mut k = i;
    assert(ds.take(0) =~= Seq::<char>::empty());
    while k < j
        invariant
            i <= k <= j <= cs@.len(),
            ds == cs@.subrange(i as int, j as int),
            forall|m: int| i <= m < j ==> is_digit(#[trigger] cs@[m]),
            acc == digits_value(ds.take(k - i)),
            0 <= acc <= i32::MAX,
        decreases j - k,
    {
        assert(ds.take(k - i + 1).drop_last() =~= ds.take(k - i));
        assert(ds.take(k - i + 1).last() == cs@[k as int]);
        let d = (cs[k] as u32 - '0' as u32) as i64;
        acc = acc * 10 + d;
        k = k + 1;
        if acc > i32::MAX as i64 {
            proof {
                lemma_digits_prefix(ds, k - i);
            }
            return None;
        }
    }
    assert(ds.take(j - i) =~= ds);
    Some(acc as i32)
}

fn word_to_token(w: &[char]) -> (t: Token)
    ensures
        t@ == word_token(w@),
{
    let n = w.len();
    if n == 3 && (w[0] == 'A' || w[0] == 'a') && (w[1] == 'N' || w[1] == 'n') && (w[2] == 'D'
        || w[2] == 'd') {
        Token::And
    } else if n == 2 && (w[0] == 'I' || w[0] == 'i') && (w[1] == 'S' || w[1] == 's') {
        Token::Is
    } else if n == 4 && (w[0] == 'N' || w[0] == 'n') && (w[1] == 'U' || w[1] == 'u') && (w[2]
        == 'L' || w[2] == 'l') && (w[3] == 'L' || w[3] == 'l') {
        Token::Null
    } else {
        Token::Ident(string_of_chars(w))
    }
}

fn symbol_to_token(c: char) -> (t: Option<Token>)
    ensures
        match t {
            Some(x) => symbol_token(c) == Some(x@),
            None => symbol_token(c).is_none(),
        },
{
    if c == '=' {
        Some(Token::Eq)
    } else if c == '+' {
        Some(Token::Plus)
    } else if c == '-' {
        Some(Token::Minus)
    } else if c == '*' {
        Some(Token::Star)
    } else if c == '/' {
        Some(Token::Slash)
    } else if c == '(' {
        Some(Token::LParen)
    } else if c == ')' {
        Some(Token::RParen)
    } else if c == ',' {
        Some(Token::Comma)
    } else {
        None
    }
}

/// Prefixes the tokens already read to the reading of the rest.
pub open spec fn after(done: Seq<TokenView>, rest: Option<Seq<TokenView>>) -> Option<Seq<TokenView>> {
    match rest {
        Some(ts) => Some(done + ts),
        None => None,
    }
}

/// Splits a text into tokens.
pub fn tokenize(text: &str) -> (r: Option<Vec<Token>>)
    ensures
        match r {
            Some(ts) => lex(text@) == Some(token_views(ts@)),
            None => lex(text@).is_none(),
        },
{
    let cs = chars_of(text);
    let cs = cs.as_slice();
    let n = cs.len();
    let mut out: Vec<Token> = Vec::new();
    let mut i: usize = 0;
    while i < n
        invariant
            i <= n,
            n == cs@.len(),
            cs@ == text@,
            lex(text@) == after(token_views(out@), lex_from(cs@, i as int)),
        decreases n - i,
    {
        let ghost before = out@;
        let c = cs[i];
        if c == ' ' || c == '\t' || c == '\n' || c == '\r' {
            i = i + 1;
        } else if let Some(t) = symbol_to_token(c) {
            out.push(t);
            assert(token_views(out@) =~= token_views(before) + seq![t@]);
            i = i + 1;
        } else if c == '\'' {
            let j = scan_quote(cs, i + 1);
            if j >= n {
                return None;
            }
            let s = string_of_chars(vstd::slice::slice_subrange(cs, i + 1, j));
            out.push(Token::Str(s));
            assert(token_views(out@) =~= token_views(before) + seq![TokenView::Str(s@)]);
            i = j + 1;
        } else if '0' <= c && c <= '9' {
            let j = scan_digits(cs, i);
            match digits_i32(cs, i, j) {
                Some(v) => {
                    out.push(Token::Int(v));
                    assert(token_views(out@) =~= token_views(before) + seq![TokenView::Int(v)]);
                    i = j;
                },
                None => {
                    return None;
                },
            }
        } else if ('a' <= c && c <= 'z') || ('A' <= c && c <= 'Z') || c == '_' {
            let j = scan_name(cs, i);
            let t = word_to_token(vstd::slice::slice_subrange(cs, i, j));
            out.push(t);
            assert(token_views(out@) =~= token_views(before) + seq![t@]);
            i = j;
        } else {
            return None;
        }
    }
    assert(token_views(out@) + Seq::<TokenView>::empty() =~= token_views(out@));
    Some(out)
}


/// The model of an optional parse result.
pub open spec fn parsed_view(r: Option<(Expression, usize)>) -> Option<(ExprView, int)> {
    match r {
        Some((e, q)) => Some((e@, q as int)),
        None => None,
    }
}

fn exec_parse_atom(ts: &Vec<Token>, p: usize) -> (r: Option<(Expression, usize)>)
    ensures
        parsed_view(r) == parse_atom(token_views(ts@), p as int),
    decreases ts@.len() - p, 0int,
{
    let ghost v = token_views(ts@);
    if p >= ts.len() {
        return None;
    }
    assert(v[p as int] == ts@[p as int]@);
    match &ts[p] {
        Token::Int(i) => Some((Expression::I32Constant(*i), p + 1)),
        Token::Str(s) => Some((Expression::StringConstant(s.clone()), p + 1)),
        Token::Null => Some((Expression::NullConstant, p + 1)),
        Token::Ident(x) => Some((Expression::Field(x.clone()), p + 1)),
        Token::LParen => match exec_parse_expr(ts, p + 1) {
            Some((e, q)) => {
                if p + 1 < q && q < ts.len() && matches!(ts[q], Token::RParen) {
                    assert(v[q as int] == ts@[q as int]@);
                    Some((e, q + 1))
                } else {
                    proof {
                        if p + 1 < q && q < ts.len() {
                            assert(v[q as int] == ts@[q as int]@);
                        }
                    }
                    None
                }
            },
            None => None,
        },
        _ => None,
    }
}

fn exec_parse_product(ts: &Vec<Token>, p: usize) -> (r: Option<(Expression, usize)>)
    ensures
        parsed_view(r) == parse_product(token_views(ts@), p as int),
    decreases ts@.len() - p, 1int,
{
    if p >= ts.len() {
        return None;
    }
    match exec_parse_atom(ts, p) {
        Some((e, q)) => if p < q && q <= ts.len() {
            exec_parse_product_rest(ts, q, e)
        } else {
            None
        },
        None => None,
    }
}

fn exec_parse_product_rest(ts: &Vec<Token>, q: usize, acc: Expression) -> (r: Option<
    (Expression, usize),
>)
    ensures
        parsed_view(r) == parse_product_rest(token_views(ts@), q as int, acc@),
    decreases ts@.len() - q, 0int,
{
    let ghost v = token_views(ts@);
    if q < ts.len() && (matches!(ts[q], Token::Star) || matches!(ts[q], Token::Slash)) {
        assert(v[q as int] == ts@[q as int]@);
        let is_star = matches!(ts[q], Token::Star);
        match exec_parse_atom(ts, q + 1) {
            Some((e, r)) => if q + 1 < r && r <= ts.len() {
                let combined = if is_star {
                    Expression::Mul(Box::new(acc), Box::new(e))
                } else {
                    Expression::Div(Box::new(acc), Box::new(e))
                };
                exec_parse_product_rest(ts, r, combined)
            } else {
                None
            },
            None => None,
        }
    } else {
        proof {
            if q < ts.len() {
                assert(v[q as int] == ts@[q as int]@);
            }
        }
        Some((acc, q))
    }
}

pub(crate) fn exec_parse_expr(ts: &Vec<Token>, p: usize) -> (r: Option<(Expression, usize)>)
    ensures
        parsed_view(r) == parse_expr(token_views(ts@), p as int),
    decreases ts@.len() - p, 3int,
{
    if p >= ts.len() {
        return None;
    }
    match exec_parse_product(ts, p) {
        Some((e, q)) => if p < q && q <= ts.len() {
            exec_parse_expr_rest(ts, q, e)
        } else {
            None
        },
        None => None,
    }
}

fn exec_parse_expr_rest(ts: &Vec<Token>, q: usize, acc: Expression) -> (r: Option<
    (Expression, usize),
>)
    ensures
        parsed_view(r) == parse_expr_rest(token_views(ts@), q as int, acc@),
    decreases ts@.len() - q, 2int,
{
    let ghost v = token_views(ts@);
    if q < ts.len() && (matches!(ts[q], Token::Plus) || matches!(ts[q], Token::Minus)) {
        assert(v[q as int] == ts@[q as int]@);
        let is_plus = matches!(ts[q], Token::Plus);
        match exec_parse_product(ts, q + 1) {
            Some((e, r)) => if q + 1 < r && r <= ts.len() {
                let combined = if is_plus {
                    Expression::Add(Box::new(acc), Box::new(e))
                } else {
                    Expression::Sub(Box::new(acc), Box::new(e))
                };
                exec_parse_expr_rest(ts, r, combined)
            } else {
                None
            },
            None => None,
        }
    } else {
        proof {
            if q < ts.len() {
                assert(v[q as int] == ts@[q as int]@);
            }
        }
        Some((acc, q))
    }
}

/// The model of an optional term parse result.
pub open spec fn term_parsed_view(r: Option<(Term, usize)>) -> Option<(TermView, int)> {
    match r {
        Some((t, q)) => Some((t@, q as int)),
        None => None,
    }
}

pub(crate) fn exec_parse_term_at(ts: &Vec<Token>, p: usize) -> (r: Option<(Term, usize)>)
    ensures
        term_parsed_view(r) == parse_term_at(token_views(ts@), p as int),
{
    let ghost v = token_views(ts@);
    match exec_parse_expr(ts, p) {
        Some((l, q)) => {
            if q < ts.len() && matches!(ts[q], Token::Eq) {
                assert(v[q as int] == ts@[q as int]@);
                match exec_parse_expr(ts, q + 1) {
                    Some((r, q2)) => Some((Term::Equality(l, r), q2)),
                    None => None,
                }
            } else if q < ts.len() && q + 1 < ts.len() && matches!(ts[q], Token::Is) && matches!(
                ts[q + 1],
                Token::Null,
            ) {
                assert(v[q as int] == ts@[q as int]@);
                assert(v[q + 1] == ts@[q + 1]@);
                Some((Term::IsNull(l), q + 2))
            } else {
                proof {
                    if q < ts.len() {
                        assert(v[q as int] == ts@[q as int]@);
                    }
                    if q + 1 < ts.len() {
                        assert(v[q + 1] == ts@[q + 1]@);
                    }
                }
                None
            }
        },
        None => None,
    }
}

/// Parses a whole term, such as `a + 1 = b` or `f IS NULL`.
pub struct TermParser {}

/// Parses a whole predicate: terms joined by `AND`.
pub struct PredicateParser {}

/// Parses a whole expression.
pub struct ExpressionParser {}

/// The result of parsing a text with a given token grammar.
pub open spec fn parse_outcome<T>(
    text: Seq<char>,
    parsed: spec_fn(Seq<TokenView>) -> Option<T>,
) -> Result<T, ParseError> {
    match lex(text) {
        None => Err(ParseError::InvalidToken),
        Some(ts) => match parsed(ts) {
            Some(x) => Ok(x),
            None => Err(ParseError::UnrecognizedToken),
        },
    }
}

/// The model of a parse result.
pub open spec fn result_view<A: View>(r: Result<A, ParseError>) -> Result<A::V, ParseError> {
    match r {
        Ok(x) => Ok(x@),
        Err(e) => Err(e),
    }
}

impl TermParser {
    /// A parser of terms.
    pub fn new() -> Self {
        TermParser {  }
    }

    /// Parses the whole text as one term.
    pub fn parse(&self, text: &str) -> (r: Result<Term, ParseError>)
        ensures
            result_view(r) == parse_outcome(text@, |ts: Seq<TokenView>| parse_term(ts)),
    {
        match tokenize(text) {
            None => Err(ParseError::InvalidToken),
            Some(ts) => match exec_parse_term_at(&ts, 0) {
                Some((t, q)) => if q == ts.len() {
                    Ok(t)
                } else {
                    Err(ParseError::UnrecognizedToken)
                },
                None => Err(ParseError::UnrecognizedToken),
            },
        }
    }
}

impl ExpressionParser {
    /// A parser of expressions.
    pub fn new() -> Self {
        ExpressionParser {  }
    }

    /// Parses the whole text as one expression.
    pub fn parse(&self, text: &str) -> (r: Result<Expression, ParseError>)
        ensures
            result_view(r) == parse_outcome(text@, |ts: Seq<TokenView>| parse_whole_expr(ts)),
    {
        match tokenize(text) {
            None => Err(ParseError::InvalidToken),
            Some(ts) => match exec_parse_expr(&ts, 0) {
                Some((e, q)) => if q == ts.len() {
                    Ok(e)
                } else {
                    Err(ParseError::UnrecognizedToken)
                },
                None => Err(ParseError::UnrecognizedToken),
            },
        }
    }
}

impl PredicateParser {
    /// A parser of predicates.
    pub fn new() -> Self {
        PredicateParser {  }
    }

    /// Parses the whole text as terms joined by `AND`.
    pub fn parse(&self, text: &str) -> (r: Result<Predicate, ParseError>)
        ensures
            result_view(r) == parse_outcome(text@, |ts: Seq<TokenView>| parse_terms(ts, 0)),
    {
        match tokenize(text) {
            None => Err(ParseError::InvalidToken),
            Some(ts) => {
                let ghost v = token_views(ts@);
                let mut terms: Vec<Term> = Vec::new();
                let mut p: usize = 0;
                loop
                    invariant
                        v == token_views(ts@),
                        lex(text@) == Some(v),
                        p <= ts@.len(),
                        parse_terms(v, 0) == match parse_terms(v, p as int) {
                            Some(rest) => Some(crate::parser::predicate::term_views(terms@) + rest),
                            None => None,
                        },
                    decreases ts@.len() - p,
                {
                    let ghost before = terms@;
                    match exec_parse_term_at(&ts, p) {
                        Some((t, q)) => {
                            if q == ts.len() {
                                terms.push(t);
                                assert(crate::parser::predicate::term_views(terms@) =~= crate::parser::predicate::term_views(before) + seq![t@]);
                                return Ok(Predicate::new(terms));
                            } else if p < q && q < ts.len() && matches!(ts[q], Token::And) {
                                assert(v[q as int] == ts@[q as int]@);
                                terms.push(t);
                                assert(crate::parser::predicate::term_views(terms@) =~= crate::parser::predicate::term_views(before) + seq![t@]);
                                p = q + 1;
                            } else {
                                proof {
                                    if p < q && q < ts.len() {
                                        assert(v[q as int] == ts@[q as int]@);
                                    }
                                }
                                return Err(ParseError::UnrecognizedToken);
                            }
                        },
                        None => {
                            return Err(ParseError::UnrecognizedToken);
                        },
                    }
                }
            },
        }
    }
}

} // verus!
