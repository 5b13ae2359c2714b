//! Turns raw expression text into an ordered token sequence.
//!
//! The scanner walks the characters left to right: parentheses and commas
//! are emitted directly, operator characters resolve to operators (with `-`
//! read as the unary negation when no binary left operand can precede it),
//! digit runs become numbers through the caller-supplied number parser,
//! letter runs become function keywords or bare parameter names, and a
//! brace-delimited run becomes a variable reference. Unknown characters are
//! skipped.

use vstd::prelude::*;

use crate::chars::{
    alphabetic_of, is_alphabetic_char, is_numeric_char, is_whitespace_char, lower_char, lower_seq,
    numeric_of, to_lower_char, whitespace_of,
};
use crate::error::ParseError;
use crate::expression::{Function, Operator};
use crate::numeric::{parse_deterministic, parse_oracle, parse_total, PI_BITS};

verus! {

#[derive(Debug, PartialEq, Clone)]
pub enum Token {
    Operator(Operator),
    Func(Function),
    Number(u64),
    Left,
    Right,
    Comma,
    Parameter(String),
    Variable(String),
}

/// The mathematical shadow of a token: identical to `Token` except that
/// names are character sequences.
pub enum TokenView {
    Operator(Operator),
    Func(Function),
    Number(u64),
    Left,
    Right,
    Comma,
    Parameter(Seq<char>),
    Variable(Seq<char>),
}

impl View for Token {
    type V = TokenView;

    open spec fn view(&self) -> TokenView {
        match self {
            Token::Operator(o) => TokenView::Operator(*o),
            Token::Func(f) => TokenView::Func(*f),
            Token::Number(n) => TokenView::Number(*n),
            Token::Left => TokenView::Left,
            Token::Right => TokenView::Right,
            Token::Comma => TokenView::Comma,
            Token::Parameter(s) => TokenView::Parameter(s@),
            Token::Variable(s) => TokenView::Variable(s@),
        }
    }
}

pub open spec fn token_views(ts: Seq<Token>) -> Seq<TokenView> {
    ts.map_values(|t: Token| t@)
}

/// The characters the scanner treats as operator material.
pub open spec fn operator_char(c: char) -> bool {
    c == '+' || c == '-' || c == '\u{2212}' || c == '*' || c == '\u{d7}' || c == '/' || c
        == '\u{f7}' || c == '^' || c == '%' || c == '<' || c == '>' || c == ',' || c == '\u{3c0}'
}

pub trait IsOperator {
    spec fn is_operator_spec(&self) -> bool;

    fn is_operator(&self) -> (r: bool)
        ensures
            r == self.is_operator_spec(),
    ;
}

impl IsOperator for char {
    open spec fn is_operator_spec(&self) -> bool {
        operator_char(*self)
    }

    fn is_operator(&self) -> (r: bool) {
        let c = *self;
        c == '+' || c == '-' || c == '\u{2212}' || c == '*' || c == '\u{d7}' || c == '/' || c
            == '\u{f7}' || c == '^' || c == '%' || c == '<' || c == '>' || c == ',' || c
            == '\u{3c0}'
    }
}

/// A character that may continue a number literal: a digit, the decimal
/// point, or the exponent letter.
pub open spec fn number_char(c: char) -> bool {
    numeric_of(c) || c == '.' || c == 'e'
}

/// The first position at or after `i` that cannot continue a number.
pub open spec fn number_end(s: Seq<char>, i: int) -> int
    decreases s.len() - i when 0 <= i <= s.len()
{
    if i >= s.len() || !number_char(s[i]) {
        i
    } else {
        number_end(s, i + 1)
    }
}

/// The first position at or after `i` that is not a letter.
pub open spec fn alpha_end(s: Seq<char>, i: int) -> int
    decreases s.len() - i when 0 <= i <= s.len()
{
    if i >= s.len() || !alphabetic_of(s[i]) {
        i
    } else {
        alpha_end(s, i + 1)
    }
}

pub proof fn lemma_number_end_bounds(s: Seq<char>, i: int)
    requires
        0 <= i <= s.len(),
    ensures
        i <= number_end(s, i) <= s.len(),
        i < s.len() && number_char(s[i]) ==> number_end(s, i) >= i + 1,
    decreases s.len() - i,
{
    if i < s.len() && number_char(s[i]) {
        lemma_number_end_bounds(s, i + 1);
    }
}

pub proof fn lemma_alpha_end_bounds(s: Seq<char>, i: int)
    requires
        0 <= i <= s.len(),
    ensures
        i <= alpha_end(s, i) <= s.len(),
        i < s.len() && alphabetic_of(s[i]) ==> alpha_end(s, i) >= i + 1,
    decreases s.len() - i,
{
    if i < s.len() && alphabetic_of(s[i]) {
        lemma_alpha_end_bounds(s, i + 1);
    }
}

/// Which scanning failure occurred; each carries the offending lexeme.
pub enum TokenizeErr {
    BadNumber(Seq<char>),
    BadOperator(Seq<char>),
    BadName(Seq<char>),
}

pub open spec fn tokenize_err_message(e: TokenizeErr) -> Seq<char> {
    match e {
        TokenizeErr::BadNumber(_) => "Token is not a valid number"@,
        TokenizeErr::BadOperator(_) => "Token is not a valid operator"@,
        TokenizeErr::BadName(_) => "Token is not a valid variable name"@,
    }
}

pub open spec fn tokenize_err_lexeme(e: TokenizeErr) -> Seq<char> {
    match e {
        TokenizeErr::BadNumber(l) => l,
        TokenizeErr::BadOperator(l) => l,
        TokenizeErr::BadName(l) => l,
    }
}

pub open spec fn cons_token(t: TokenView, rest: Result<Seq<TokenView>, TokenizeErr>) -> Result<
    Seq<TokenView>,
    TokenizeErr,
> {
    match rest {
        Ok(ts) => Ok(seq![t] + ts),
        Err(e) => Err(e),
    }
}

/// The lowered spelling of the five function keywords.
pub open spec fn keyword_function(w: Seq<char>) -> Option<Function> {
    if w == seq!['m', 'a', 'x'] {
        Some(Function::Max)
    } else if w == seq!['m', 'i', 'n'] {
        Some(Function::Min)
    } else if w == seq!['s', 'i', 'n'] {
        Some(Function::Sin)
    } else if w == seq!['c', 'o', 's'] {
        Some(Function::Cos)
    } else if w == seq!['t', 'a', 'n'] {
        Some(Function::Tan)
    } else {
        None
    }
}

/// The token sequence of `s` from position `i` on. `blocks_binary` records
/// whether the previously emitted token rules out a binary left operand
/// (nothing yet, an opening parenthesis, or an operator), which turns a
/// minus sign into the unary negation. `gp` is the number parser's
/// mathematical function.
pub open spec fn tokenize_spec(
    s: Seq<char>,
    i: int,
    blocks_binary: bool,
    gp: spec_fn(Seq<char>) -> Option<u64>,
) -> Result<Seq<TokenView>, TokenizeErr>
    decreases s.len() - i when 0 <= i <= s.len() via tokenize_spec_decreases
{
    if i >= s.len() {
        Ok(Seq::empty())
    } else {
        let c = s[i];
        if c == '(' {
            cons_token(TokenView::Left, tokenize_spec(s, i + 1, true, gp))
        } else if c == ')' {
            cons_token(TokenView::Right, tokenize_spec(s, i + 1, false, gp))
        } else if whitespace_of(c) {
            tokenize_spec(s, i + 1, blocks_binary, gp)
        } else if operator_char(c) {
            if c == '-' && i + 1 < s.len() && s[i + 1] == '>' {
                cons_token(
                    TokenView::Operator(Operator::Conversion),
                    tokenize_spec(s, i + 2, true, gp),
                )
            } else if c == '+' {
                cons_token(
                    TokenView::Operator(Operator::Addition),
                    tokenize_spec(s, i + 1, true, gp),
                )
            } else if c == '-' || c == '\u{2212}' {
                let op = if blocks_binary {
                    Operator::Negative
                } else {
                    Operator::Subtraction
                };
                cons_token(TokenView::Operator(op), tokenize_spec(s, i + 1, true, gp))
            } else if c == '*' || c == '\u{d7}' {
                cons_token(
                    TokenView::Operator(Operator::Multiplication),
                    tokenize_spec(s, i + 1, true, gp),
                )
            } else if c == '/' || c == '\u{f7}' {
                cons_token(
                    TokenView::Operator(Operator::Division),
                    tokenize_spec(s, i + 1, true, gp),
                )
            } else if c == '^' {
                cons_token(
                    TokenView::Operator(Operator::Exponentiation),
                    tokenize_spec(s, i + 1, true, gp),
                )
            } else if c == '%' {
                cons_token(
                    TokenView::Operator(Operator::Modulus),
                    tokenize_spec(s, i + 1, true, gp),
                )
            } else if c == ',' {
                cons_token(TokenView::Comma, tokenize_spec(s, i + 1, false, gp))
            } else if c == '\u{3c0}' {
                cons_token(TokenView::Number(PI_BITS), tokenize_spec(s, i + 1, false, gp))
            } else {
                Err(TokenizeErr::BadOperator(seq![c]))
            }
        } else if numeric_of(c) {
            let j = number_end(s, i);
            let lexeme = s.subrange(i, j);
            match gp(lexeme) {
                Some(bits) => cons_token(TokenView::Number(bits), tokenize_spec(s, j, false, gp)),
                None => Err(TokenizeErr::BadNumber(lexeme)),
            }
        } else if alphabetic_of(c) {
            let j = alpha_end(s, i);
            let word = s.subrange(i, j);
            let lowered = lower_seq(word);
            match keyword_function(lowered) {
                Some(f) => cons_token(TokenView::Func(f), tokenize_spec(s, j, false, gp)),
                None => if lowered == seq!['t', 'o'] {
                    cons_token(
                        TokenView::Operator(Operator::Conversion),
                        tokenize_spec(s, j, true, gp),
                    )
                } else {
                    cons_token(TokenView::Parameter(word), tokenize_spec(s, j, false, gp))
                },
            }
        } else if c == '{' {
            let j = alpha_end(s, i + 1);
            if i + 1 < j && j < s.len() && s[j] == '}' {
                cons_token(
                    TokenView::Variable(s.subrange(i + 1, j)),
                    tokenize_spec(s, j + 1, false, gp),
                )
            } else {
                Err(TokenizeErr::BadName(s.subrange(i + 1, j)))
            }
        } else {
            tokenize_spec(s, i + 1, blocks_binary, gp)
        }
    }
}

#[via_fn]
proof fn tokenize_spec_decreases(
    s: Seq<char>,
    i: int,
    blocks_binary: bool,
    gp: spec_fn(Seq<char>) -> Option<u64>,
) {
    if 0 <= i < s.len() {
        lemma_number_end_bounds(s, i);
        lemma_alpha_end_bounds(s, i);
        if i + 1 <= s.len() {
            lemma_alpha_end_bounds(s, i + 1);
        }
    }
}

proof fn lemma_token_views_push(ts: Seq<Token>, t: Token)
    ensures
        token_views(ts.push(t)) == token_views(ts).push(t@),
{
    assert(token_views(ts.push(t)) =~= token_views(ts).push(t@));
}

fn scan_number_end(s: &str, n: usize, i: usize) -> (j: usize)
    requires
        n == s@.len(),
        i <= n,
    ensures
        j == number_end(s@, i as int),
        i <= j <= n,
    decreases n - i,
{
    if i == n {
        return i;
    }
    let c = s.get_char(i);
    if is_numeric_char(c) || c == '.' || c == 'e' {
        scan_number_end(s, n, i + 1)
    } else {
        i
    }
}

fn scan_alpha_end(s: &str, n: usize, i: usize) -> (j: usize)
    requires
        n == s@.len(),
        i <= n,
    ensures
        j == alpha_end(s@, i as int),
        i <= j <= n,
    decreases n - i,
{
    if i == n {
        return i;
    }
    if is_alphabetic_char(s.get_char(i)) {
        scan_alpha_end(s, n, i + 1)
    } else {
        i
    }
}

/// Lowercases an ASCII spelling of a word.
fn lower_word(s: &str, i: usize, j: usize) -> (w: Vec<char>)
    requires
        i <= j <= s@.len(),
    ensures
        w@ == lower_seq(s@.subrange(i as int, j as int)),
    decreases j - i,
{
    let ghost target = lower_seq(s@.subrange(i as int, j as int));
    let mut w: Vec<char> = Vec::new();
    let mut k = i;
    while k < j
        invariant
            i <= k <= j <= s@.len(),
            target == lower_seq(s@.subrange(i as int, j as int)),
            w@ == target.subrange(0, k - i),
        decreases j - k,
    {
        let c = to_lower_char(s.get_char(k));
        w.push(c);
        proof {
            assert(w@ =~= target.subrange(0, k + 1 - i));
        }
        k += 1;
    }
    proof {
        assert(w@ =~= target);
    }
    w
}

fn keyword_of(w: &Vec<char>) -> (r: Option<Function>)
    ensures
        r == keyword_function(w@),
{
    if w.len() == 3 {
        let (a, b, c) = (w[0], w[1], w[2]);
        let r = if a == 'm' && b == 'a' && c == 'x' {
            Some(Function::Max)
        } else if a == 'm' && b == 'i' && c == 'n' {
            Some(Function::Min)
        } else if a == 's' && b == 'i' && c == 'n' {
            Some(Function::Sin)
        } else if a == 'c' && b == 'o' && c == 's' {
            Some(Function::Cos)
        } else if a == 't' && b == 'a' && c == 'n' {
            Some(Function::Tan)
        } else {
            None
        };
        proof {
            assert(w@ =~= seq![w@[0], w@[1], w@[2]]);
        }
        r
    } else {
        proof {
            assert((seq!['m', 'a', 'x']).len() == 3);
            assert((seq!['m', 'i', 'n']).len() == 3);
            assert((seq!['s', 'i', 'n']).len() == 3);
            assert((seq!['c', 'o', 's']).len() == 3);
            assert((seq!['t', 'a', 'n']).len() == 3);
        }
        None
    }
}

fn is_word_to(w: &Vec<char>) -> (r: bool)
    ensures
        r == (w@ == seq!['t', 'o']),
{
    if w.len() == 2 {
        let r = w[0] == 't' && w[1] == 'o';
        proof {
            assert(w@ =~= seq![w@[0], w@[1]]);
        }
        r
    } else {
        proof {
            assert((seq!['t', 'o']).len() == 2);
        }
        false
    }
}

fn tokenize_rec<FP: Fn(String) -> Option<u64>>(
    s: &str,
    n: usize,
    i: usize,
    blocks_binary: bool,
    out: &mut Vec<Token>,
    fp: &FP,
) -> (r: Result<(), ParseError>)
    requires
        n == s@.len(),
        i <= n,
        parse_total(*fp),
        parse_deterministic(*fp),
    ensures
        match tokenize_spec(s@, i as int, blocks_binary, parse_oracle(*fp)) {
            Ok(ts) => r is Ok && token_views(final(out)@) == token_views(old(out)@) + ts,
            Err(e) => r is Err && r->Err_0.spec_token() == tokenize_err_lexeme(e)
                && r->Err_0.spec_message() == tokenize_err_message(e),
        },
    decreases n - i, 0int,
{
    let ghost gp = parse_oracle(*fp);
    if i == n {
        proof {
            assert(token_views(out@) =~= token_views(out@) + Seq::<TokenView>::empty());
        }
        return Ok(());
    }
    let c = s.get_char(i);
    if c == '(' {
        push_and_continue(s, n, i + 1, true, out, fp, Token::Left)
    } else if c == ')' {
        push_and_continue(s, n, i + 1, false, out, fp, Token::Right)
    } else if is_whitespace_char(c) {
        tokenize_rec(s, n, i + 1, blocks_binary, out, fp)
    } else if c.is_operator() {
        if c == '-' && i + 1 < n && s.get_char(i + 1) == '>' {
            push_and_continue(s, n, i + 2, true, out, fp, Token::Operator(Operator::Conversion))
        } else if c == '+' {
            push_and_continue(s, n, i + 1, true, out, fp, Token::Operator(Operator::Addition))
        } else if c == '-' || c == '\u{2212}' {
            let op = if blocks_binary {
                Operator::Negative
            } else {
                Operator::Subtraction
            };
            push_and_continue(s, n, i + 1, true, out, fp, Token::Operator(op))
        } else if c == '*' || c == '\u{d7}' {
            push_and_continue(s, n, i + 1, true, out, fp, Token::Operator(Operator::Multiplication))
        } else if c == '/' || c == '\u{f7}' {
            push_and_continue(s, n, i + 1, true, out, fp, Token::Operator(Operator::Division))
        } else if c == '^' {
            push_and_continue(s, n, i + 1, true, out, fp, Token::Operator(Operator::Exponentiation))
        } else if c == '%' {
            push_and_continue(s, n, i + 1, true, out, fp, Token::Operator(Operator::Modulus))
        } else if c == ',' {
            push_and_continue(s, n, i + 1, false, out, fp, Token::Comma)
        } else if c == '\u{3c0}' {
            push_and_continue(s, n, i + 1, false, out, fp, Token::Number(PI_BITS))
        } else {
            let lexeme = s.substring_char(i, i + 1);
            proof {
                assert(lexeme@ =~= seq![c]);
            }
            Err(ParseError::new("Token is not a valid operator", lexeme))
        }
    } else if is_numeric_char(c) {
        let j = scan_number_end(s, n, i);
        proof {
            lemma_number_end_bounds(s@, i as int);
        }
        let lexeme = s.substring_char(i, j);
        let owned: String = lexeme.to_owned();
        let ghost gowned = owned;
        let parsed = fp(owned);
        proof {
            crate::numeric::lemma_parse_oracle_value(*fp, gowned, parsed);
        }
        match parsed {
            Some(bits) => push_and_continue(s, n, j, false, out, fp, Token::Number(bits)),
            None => Err(ParseError::new("Token is not a valid number", lexeme)),
        }
    } else if is_alphabetic_char(c) {
        let j = scan_alpha_end(s, n, i);
        proof {
            lemma_alpha_end_bounds(s@, i as int);
        }
        let lowered = lower_word(s, i, j);
        match keyword_of(&lowered) {
            Some(f) => push_and_continue(s, n, j, false, out, fp, Token::Func(f)),
            None => if is_word_to(&lowered) {
                push_and_continue(s, n, j, true, out, fp, Token::Operator(Operator::Conversion))
            } else {
                let word: String = s.substring_char(i, j).to_owned();
                push_and_continue(s, n, j, false, out, fp, Token::Parameter(word))
            },
        }
    } else if c == '{' {
        let j = scan_alpha_end(s, n, i + 1);
        proof {
            lemma_alpha_end_bounds(s@, i as int + 1);
        }
        if i + 1 < j && j < n && s.get_char(j) == '}' {
            let name: String = s.substring_char(i + 1, j).to_owned();
            push_and_continue(s, n, j + 1, false, out, fp, Token::Variable(name))
        } else {
            let lexeme = s.substring_char(i + 1, j);
            Err(ParseError::new("Token is not a valid variable name", lexeme))
        }
    } else {
        tokenize_rec(s, n, i + 1, blocks_binary, out, fp)
    }
}

/// Emits one token and scans the rest of the input.
fn push_and_continue<FP: Fn(String) -> Option<u64>>(
    s: &str,
    n: usize,
    next: usize,
    blocks_binary: bool,
    out: &mut Vec<Token>,
    fp: &FP,
    t: Token,
) -> (r: Result<(), ParseError>)
    requires
        n == s@.len(),
        next <= n,
        parse_total(*fp),
        parse_deterministic(*fp),
    ensures
        match cons_token(t@, tokenize_spec(s@, next as int, blocks_binary, parse_oracle(*fp))) {
            Ok(ts) => r is Ok && token_views(final(out)@) == token_views(old(out)@) + ts,
            Err(e) => r is Err && r->Err_0.spec_token() == tokenize_err_lexeme(e)
                && r->Err_0.spec_message() == tokenize_err_message(e),
        },
    decreases n - next, 1int,
{
    let ghost t_view = t@;
    let ghost before = out@;
    out.push(t);
    proof {
        lemma_token_views_push(before, t);
    }
    let r = tokenize_rec(s, n, next, blocks_binary, out, fp);
    proof {
        match tokenize_spec(s@, next as int, blocks_binary, parse_oracle(*fp)) {
            Ok(ts) => {
                assert(token_views(before).push(t_view) + ts =~= token_views(before) + (seq![
                    t_view,
                ] + ts));
            },
            Err(e) => {},
        }
    }
    r
}

/// Scans the whole input into tokens; fails on an invalid number literal,
/// an operator character that names no operator, or a malformed
/// brace-delimited variable name, in each case carrying the offending
/// lexeme.
pub fn parse<FP: Fn(String) -> Option<u64>>(input: &str, fp: &FP) -> (r: Result<
    Vec<Token>,
    ParseError,
>)
    requires
        parse_total(*fp),
        parse_deterministic(*fp),
    ensures
        match tokenize_spec(input@, 0, true, parse_oracle(*fp)) {
            Ok(ts) => r is Ok && token_views(r->Ok_0@) == ts,
            Err(e) => r is Err && r->Err_0.spec_token() == tokenize_err_lexeme(e)
                && r->Err_0.spec_message() == tokenize_err_message(e),
        },
{
    let mut results: Vec<Token> = Vec::new();
    let n = input.unicode_len();
    proof {
        assert(token_views(Seq::<Token>::empty()) =~= Seq::<TokenView>::empty());
    }
    match tokenize_rec(input, n, 0, true, &mut results, fp) {
        Ok(_) => {
            proof {
                match tokenize_spec(input@, 0, true, parse_oracle(*fp)) {
                    Ok(ts) => {
                        assert(token_views(results@) =~= ts);
                    },
                    Err(_) => {},
                }
            }
            Ok(results)
        },
        Err(e) => Err(e),
    }
}

} // verus!
