//! The expression grammar: a lexer and a recursive-descent parser, each
//! pinned to a specification-level mirror (`spec_lex`, `sp_*`) so that
//! [`crate::syntax::parse`] returns exactly what the grammar says.
//!
//! The grammar, with the usual precedence and left associativity:
//!
//! ```text
//! expr   := term (('+' | '-') term)*
//! term   := factor (('*' | '/') factor)*
//! factor := number | ident | ident '(' args ')' | '(' expr ')'
//! args   := ')' | expr (',' expr)* ')'
//! number := digits ('.' digits)?
//! ```

use vstd::prelude::*;
use vstd::string::StrSliceExecFns;

use crate::syntax::ast::{Atom, AtomV, BinaryOp, BinaryOpV, Expr, ExprV, FunctionCall,
    FunctionCallV, Number, Op, lemma_pow10_pos, norm_spec, pow10, view_exprs};

verus! {

/// Why a source text was rejected.
#[derive(Debug, Clone, Copy, PartialEq, Eq, Structural)]
pub enum ParseError {
    /// A character that can start no token (or a point with no digit after
    /// it).
    InvalidCharacter,
    /// A numeric literal whose digits exceed the representable mantissa.
    NumberTooLarge,
    /// The tokens do not form an expression.
    SyntaxError,
    /// A complete expression was followed by more tokens.
    TrailingInput,
}

/// One token of the expression language.
#[derive(Debug, Clone, PartialEq)]
pub enum Token {
    Num(Number),
    Ident(String),
    Plus,
    Minus,
    Star,
    Slash,
    LParen,
    RParen,
    Comma,
}

/// Mathematical view of a [`Token`].
pub enum TokenV {
    Num(Number),
    Ident(Seq<char>),
    Plus,
    Minus,
    Star,
    Slash,
    LParen,
    RParen,
    Comma,
}

pub open spec fn view_token(t: Token) -> TokenV {
    match t {
        Token::Num(n) => TokenV::Num(n),
        Token::Ident(s) => TokenV::Ident(s@),
        Token::Plus => TokenV::Plus,
        Token::Minus => TokenV::Minus,
        Token::Star => TokenV::Star,
        Token::Slash => TokenV::Slash,
        Token::LParen => TokenV::LParen,
        Token::RParen => TokenV::RParen,
        Token::Comma => TokenV::Comma,
    }
}

impl View for Token {
    type V = TokenV;

    open spec fn view(&self) -> TokenV {
        view_token(*self)
    }
}

/// The views of a sequence of tokens, elementwise.
pub open spec fn view_tokens(ts: Seq<Token>) -> Seq<TokenV> {
    Seq::new(ts.len(), |i: int| view_token(ts[i]))
}

// ---------------------------------------------------------------------------
// Character classes
// ---------------------------------------------------------------------------

pub open spec fn is_space_char(c: char) -> bool {
    c == ' ' || c == '\t' || c == '\n' || c == '\r'
}

pub open spec fn is_digit_char(c: char) -> bool {
    48 <= c as u32 <= 57
}

pub open spec fn is_ident_start_char(c: char) -> bool {
    (65 <= c as u32 <= 90) || (97 <= c as u32 <= 122) || c as u32 == 95
}

pub open spec fn is_ident_char(c: char) -> bool {
    is_ident_start_char(c) || is_digit_char(c)
}

pub open spec fn digit_val(c: char) -> int {
    c as u32 - 48
}

fn is_space(c: char) -> (b: bool)
    ensures
        b == is_space_char(c),
{
    c == ' ' || c == '\t' || c == '\n' || c == '\r'
}

fn is_digit(c: char) -> (b: bool)
    ensures
        b == is_digit_char(c),
{
    let u = c as u32;
    48 <= u && u <= 57
}

fn is_ident_start(c: char) -> (b: bool)
    ensures
        b == is_ident_start_char(c),
{
    let u = c as u32;
    (65 <= u && u <= 90) || (97 <= u && u <= 122) || u == 95
}

fn is_ident_cont(c: char) -> (b: bool)
    ensures
        b == is_ident_char(c),
{
    is_ident_start(c) || is_digit(c)
}

// ---------------------------------------------------------------------------
// Scanning and digit values
// ---------------------------------------------------------------------------

/// The end of the run of digits beginning at `i`.
pub open spec fn digits_end(s: Seq<char>, i: int) -> int
    decreases s.len() - i,
{
    if i < s.len() && is_digit_char(s[i]) {
        digits_end(s, i + 1)
    } else {
        i
    }
}

/// The end of the run of identifier characters beginning at `i`.
pub open spec fn ident_end(s: Seq<char>, i: int) -> int
    decreases s.len() - i,
{
    if i < s.len() && is_ident_char(s[i]) {
        ident_end(s, i + 1)
    } else {
        i
    }
}

/// Every character of `s[i..j)` is a digit.
pub open spec fn all_digits(s: Seq<char>, i: int, j: int) -> bool {
    forall|t: int| i <= t < j ==> is_digit_char(#[trigger] s[t])
}

/// The value of the digit string `s[i..j)`.
pub open spec fn digits_val(s: Seq<char>, i: int, j: int) -> int
    decreases j - i,
{
    if i < j {
        digits_val(s, i, j - 1) * 10 + digit_val(s[j - 1])
    } else {
        0
    }
}

pub proof fn lemma_digits_end_props(s: Seq<char>, i: int)
    requires
        0 <= i <= s.len(),
    ensures
        i <= digits_end(s, i) <= s.len(),
        all_digits(s, i, digits_end(s, i)),
        digits_end(s, i) < s.len() ==> !is_digit_char(s[digits_end(s, i)]),
    decreases s.len() - i,
{
    if i < s.len() && is_digit_char(s[i]) {
        lemma_digits_end_props(s, i + 1);
    }
}

pub proof fn lemma_digits_end_at_least(s: Seq<char>, i: int, t: int)
    requires
        0 <= i <= t <= s.len(),
        all_digits(s, i, t),
    ensures
        digits_end(s, i) >= t,
    decreases t - i,
{
    lemma_digits_end_props(s, i);
    if i < t {
        assert(is_digit_char(s[i]));
        assert(all_digits(s, i + 1, t));
        lemma_digits_end_at_least(s, i + 1, t);
    }
}

/// The scan functions are pinned by what the text holds: a run of matching
/// characters up to a non-matching one (or the end) ends exactly there.
pub proof fn lemma_digits_end_is(s: Seq<char>, i: int, j: int)
    requires
        0 <= i <= j <= s.len(),
        all_digits(s, i, j),
        j < s.len() ==> !is_digit_char(s[j]),
    ensures
        digits_end(s, i) == j,
    decreases j - i,
{
    if i < j {
        lemma_digits_end_is(s, i + 1, j);
    }
}

pub proof fn lemma_ident_end_is(s: Seq<char>, i: int, j: int)
    requires
        0 <= i <= j <= s.len(),
        forall|t: int| i <= t < j ==> is_ident_char(#[trigger] s[t]),
        j < s.len() ==> !is_ident_char(s[j]),
    ensures
        ident_end(s, i) == j,
    decreases j - i,
{
    if i < j {
        lemma_ident_end_is(s, i + 1, j);
    }
}

pub proof fn lemma_digits_val_nonneg(s: Seq<char>, i: int, j: int)
    requires
        all_digits(s, i, j),
    ensures
        digits_val(s, i, j) >= 0,
    decreases j - i,
{
    if i < j {
        lemma_digits_val_nonneg(s, i, j - 1);
    }
}

pub proof fn lemma_digits_val_mono(s: Seq<char>, i: int, j: int, k: int)
    requires
        i <= j <= k,
        all_digits(s, i, k),
    ensures
        digits_val(s, i, j) <= digits_val(s, i, k),
    decreases k - j,
{
    if j < k {
        lemma_digits_val_mono(s, i, j, k - 1);
        lemma_digits_val_nonneg(s, i, k - 1);
    }
}

// ---------------------------------------------------------------------------
// Numeric literals
// ---------------------------------------------------------------------------

/// Whether the literal starting at `i` carries a fraction (a point followed
/// by at least one digit straight after its integer digits).
pub open spec fn num_has_frac(s: Seq<char>, i: int) -> bool {
    let j = digits_end(s, i);
    j < s.len() && s[j] == '.' && digits_end(s, j + 1) > j + 1
}

/// The end of the numeric literal starting at `i`.
pub open spec fn num_end(s: Seq<char>, i: int) -> int {
    let j = digits_end(s, i);
    if num_has_frac(s, i) {
        digits_end(s, j + 1)
    } else {
        j
    }
}

/// The literal's digits read as one integer: the mantissa before
/// normalization.
pub open spec fn num_val(s: Seq<char>, i: int) -> int {
    let j = digits_end(s, i);
    if num_has_frac(s, i) {
        let k = digits_end(s, j + 1);
        digits_val(s, i, j) * pow10(k - (j + 1)) + digits_val(s, j + 1, k)
    } else {
        digits_val(s, i, j)
    }
}

/// How many digits lie behind the point.
pub open spec fn num_scale(s: Seq<char>, i: int) -> int {
    let j = digits_end(s, i);
    if num_has_frac(s, i) {
        digits_end(s, j + 1) - (j + 1)
    } else {
        0
    }
}

/// A point straight after the integer digits with no digit behind it: the
/// literal is malformed.
pub open spec fn num_bad_dot(s: Seq<char>, i: int) -> bool {
    let j = digits_end(s, i);
    j < s.len() && s[j] == '.' && !num_has_frac(s, i)
}

/// The token a literal denotes: its mantissa/scale pair, normalized.
pub open spec fn num_of(v: int, sc: int) -> Number {
    let (m2, s2) = norm_spec(v, sc);
    Number { mantissa: m2 as u64, scale: s2 as u64 }
}

/// The running value of a partially scanned fraction: integer digits shifted
/// past the fraction digits seen so far.
pub open spec fn frac_acc(s: Seq<char>, i: int, j: int, t: int) -> int {
    digits_val(s, i, j) * pow10(t - (j + 1)) + digits_val(s, j + 1, t)
}

/// Scanning one more fraction digit multiplies the running value by ten and
/// adds that digit.
pub proof fn lemma_frac_acc_step(s: Seq<char>, i: int, j: int, t: int)
    requires
        j + 1 <= t,
    ensures
        frac_acc(s, i, j, t + 1) == frac_acc(s, i, j, t) * 10 + digit_val(s[t]),
{
    let iv = digits_val(s, i, j);
    let l = t - (j + 1);
    assert(pow10(l + 1) == 10 * pow10(l));
    assert(iv * (10 * pow10(l)) == (iv * pow10(l)) * 10) by (nonlinear_arith);
    assert(digits_val(s, j + 1, t + 1) == digits_val(s, j + 1, t) * 10 + digit_val(s[t]));
}

pub proof fn lemma_frac_acc_nonneg(s: Seq<char>, i: int, j: int, t: int)
    requires
        all_digits(s, i, j),
        all_digits(s, j + 1, t),
        i <= j,
        j + 1 <= t,
    ensures
        frac_acc(s, i, j, t) >= 0,
{
    lemma_digits_val_nonneg(s, i, j);
    lemma_digits_val_nonneg(s, j + 1, t);
    lemma_pow10_pos(t - (j + 1));
    assert(digits_val(s, i, j) * pow10(t - (j + 1)) >= 0) by (nonlinear_arith)
        requires
            digits_val(s, i, j) >= 0 && pow10(t - (j + 1)) >= 1,
    ;
}

/// The whole literal's value dominates the running value at any point of the
/// fraction scan.
pub proof fn lemma_frac_acc_mono(s: Seq<char>, i: int, j: int, t: int, k: int)
    requires
        all_digits(s, i, j),
        all_digits(s, j + 1, k),
        i <= j,
        j + 1 <= t <= k,
    ensures
        frac_acc(s, i, j, t) <= frac_acc(s, i, j, k),
    decreases k - t,
{
    if t < k {
        lemma_frac_acc_step(s, i, j, k - 1);
        lemma_frac_acc_nonneg(s, i, j, k - 1);
        lemma_frac_acc_mono(s, i, j, t, k - 1);
    }
}

/// The whole literal's value dominates the value of any prefix of its
/// integer digits.
pub proof fn lemma_num_val_dominates_int(s: Seq<char>, i: int, t: int)
    requires
        0 <= i <= t <= s.len(),
        all_digits(s, i, t),
    ensures
        num_val(s, i) >= digits_val(s, i, t),
{
    lemma_digits_end_at_least(s, i, t);
    lemma_digits_end_props(s, i);
    let j = digits_end(s, i);
    lemma_digits_val_mono(s, i, t, j);
    if num_has_frac(s, i) {
        let k = digits_end(s, j + 1);
        lemma_digits_end_props(s, j + 1);
        lemma_digits_val_nonneg(s, i, j);
        lemma_digits_val_nonneg(s, j + 1, k);
        lemma_pow10_pos(k - (j + 1));
        assert(digits_val(s, i, j) * pow10(k - (j + 1)) >= digits_val(s, i, j))
            by (nonlinear_arith)
            requires
                digits_val(s, i, j) >= 0 && pow10(k - (j + 1)) >= 1,
        ;
    }
}

// ---------------------------------------------------------------------------
// The lexer
// ---------------------------------------------------------------------------

/// Prepend one token to a lexing result.
pub open spec fn lex_cons(t: TokenV, rest: Result<Seq<TokenV>, ParseError>) -> Result<
    Seq<TokenV>,
    ParseError,
> {
    match rest {
        Result::Ok(ts) => Result::Ok(seq![t] + ts),
        Result::Err(e) => Result::Err(e),
    }
}

/// Prepend finished tokens to a lexing result.
pub open spec fn lex_app(done: Seq<TokenV>, rest: Result<Seq<TokenV>, ParseError>) -> Result<
    Seq<TokenV>,
    ParseError,
> {
    match rest {
        Result::Ok(ts) => Result::Ok(done + ts),
        Result::Err(e) => Result::Err(e),
    }
}

pub proof fn lemma_lex_app_cons(
    done: Seq<TokenV>,
    t: TokenV,
    rest: Result<Seq<TokenV>, ParseError>,
)
    ensures
        lex_app(done, lex_cons(t, rest)) == lex_app(done.push(t), rest),
{
    match rest {
        Result::Ok(ts) => {
            assert(done + (seq![t] + ts) =~= done.push(t) + ts);
        },
        Result::Err(_) => {},
    }
}

/// The tokens of the text from position `i` on. (The guarded recursions'
/// dead branches only bound the recursion; `lemma_digits_end_props` and its
/// kin show the guards hold.)
pub open spec fn spec_lex(s: Seq<char>, i: int) -> Result<Seq<TokenV>, ParseError>
    decreases s.len() - i,
{
    if i < 0 || i >= s.len() {
        Result::Ok(Seq::empty())
    } else {
        let c = s[i];
        if is_space_char(c) {
            spec_lex(s, i + 1)
        } else if c == '+' {
            lex_cons(TokenV::Plus, spec_lex(s, i + 1))
        } else if c == '-' {
            lex_cons(TokenV::Minus, spec_lex(s, i + 1))
        } else if c == '*' {
            lex_cons(TokenV::Star, spec_lex(s, i + 1))
        } else if c == '/' {
            lex_cons(TokenV::Slash, spec_lex(s, i + 1))
        } else if c == '(' {
            lex_cons(TokenV::LParen, spec_lex(s, i + 1))
        } else if c == ')' {
            lex_cons(TokenV::RParen, spec_lex(s, i + 1))
        } else if c == ',' {
            lex_cons(TokenV::Comma, spec_lex(s, i + 1))
        } else if is_digit_char(c) {
            if num_val(s, i) > u64::MAX {
                Result::Err(ParseError::NumberTooLarge)
            } else if num_bad_dot(s, i) {
                Result::Err(ParseError::InvalidCharacter)
            } else {
                let end = num_end(s, i);
                if i < end <= s.len() {
                    lex_cons(
                        TokenV::Num(num_of(num_val(s, i), num_scale(s, i))),
                        spec_lex(s, end),
                    )
                } else {
                    Result::Err(ParseError::InvalidCharacter)
                }
            }
        } else if is_ident_start_char(c) {
            let j = ident_end(s, i);
            if i < j <= s.len() {
                lex_cons(TokenV::Ident(s.subrange(i, j)), spec_lex(s, j))
            } else {
                Result::Err(ParseError::InvalidCharacter)
            }
        } else {
            Result::Err(ParseError::InvalidCharacter)
        }
    }
}

/// Lex one numeric literal starting at `start` (which must hold a digit):
/// integer digits, then optionally a point and its fraction digits, all
/// accumulated into one mantissa with its scale, normalized into a token.
#[verifier::loop_isolation(false)]
fn lex_number(src: &str, n: usize, start: usize) -> (r: Result<(Token, usize), ParseError>)
    requires
        n == src@.len(),
        start < n,
        is_digit_char(src@[start as int]),
    ensures
        ({
            let s = src@;
            let i = start as int;
            match r {
                Result::Ok((tok, end)) => {
                    &&& num_val(s, i) <= u64::MAX
                    &&& !num_bad_dot(s, i)
                    &&& tok@ == TokenV::Num(num_of(num_val(s, i), num_scale(s, i)))
                    &&& end as int == num_end(s, i)
                    &&& start < end <= n
                },
                Result::Err(e) => (e == ParseError::NumberTooLarge && num_val(s, i) > u64::MAX)
                    || (e == ParseError::InvalidCharacter && num_val(s, i) <= u64::MAX
                    && num_bad_dot(s, i)),
            }
        }),
{
    let ghost s = src@;
    let ghost i = start as int;
    // Integer digits.
    let mut j = start;
    let mut acc: u64 = 0;
    while j < n && is_digit(src.get_char(j))
        invariant
            n == src@.len(),
            start <= j <= n,
            all_digits(src@, start as int, j as int),
            acc == digits_val(src@, start as int, j as int),
        decreases n - j,
    {
        let c = src.get_char(j);
        let d = (c as u32 - 48) as u64;
        proof {
            assert(digits_val(s, i, j + 1) == digits_val(s, i, j as int) * 10 + digit_val(
                s[j as int],
            ));
        }
        let a = match acc.checked_mul(10) {
            Option::Some(a) => a,
            Option::None => {
                proof {
                    lemma_num_val_dominates_int(s, i, j + 1);
                }
                return Result::Err(ParseError::NumberTooLarge);
            },
        };
        acc = match a.checked_add(d) {
            Option::Some(b) => b,
            Option::None => {
                proof {
                    lemma_num_val_dominates_int(s, i, j + 1);
                }
                return Result::Err(ParseError::NumberTooLarge);
            },
        };
        j = j + 1;
    }
    proof {
        lemma_digits_end_is(s, i, j as int);
    }
    // Optional fraction.
    if j < n && src.get_char(j) == '.' {
        let frac_start = j + 1;
        let mut k = frac_start;
        proof {
            assert(pow10(0) == 1);
            assert(digits_val(s, j + 1, j + 1) == 0);
            assert(frac_acc(s, i, j as int, k as int) == acc);
        }
        while k < n && is_digit(src.get_char(k))
            invariant
                frac_start <= k <= n,
                all_digits(src@, frac_start as int, k as int),
                acc == frac_acc(src@, start as int, j as int, k as int),
            decreases n - k,
        {
            let c = src.get_char(k);
            let d = (c as u32 - 48) as u64;
            proof {
                // `num_val` will dominate the running value, whichever way
                // the rest of the scan goes.
                lemma_digits_end_at_least(s, j + 1, k + 1);
                lemma_digits_end_props(s, j + 1);
                lemma_frac_acc_step(s, i, j as int, k as int);
            }
            let a = match acc.checked_mul(10) {
                Option::Some(a) => a,
                Option::None => {
                    proof {
                        let kk = digits_end(s, j + 1);
                        lemma_frac_acc_mono(s, i, j as int, k + 1, kk);
                        assert(num_has_frac(s, i));
                    }
                    return Result::Err(ParseError::NumberTooLarge);
                },
            };
            acc = match a.checked_add(d) {
                Option::Some(b) => b,
                Option::None => {
                    proof {
                        let kk = digits_end(s, j + 1);
                        lemma_frac_acc_mono(s, i, j as int, k + 1, kk);
                        assert(num_has_frac(s, i));
                    }
                    return Result::Err(ParseError::NumberTooLarge);
                },
            };
            k = k + 1;
        }
        proof {
            lemma_digits_end_is(s, j + 1, k as int);
        }
        if k == frac_start {
            // A point with no digit behind it.
            proof {
                assert(num_bad_dot(s, i));
                assert(num_val(s, i) == digits_val(s, i, j as int));
            }
            return Result::Err(ParseError::InvalidCharacter);
        }
        let scale = (k - frac_start) as u64;
        let tok = Token::Num(Number::new(acc, scale));
        proof {
            assert(num_has_frac(s, i));
            assert(num_val(s, i) == frac_acc(s, i, j as int, k as int));
            assert(num_scale(s, i) == scale as int);
            crate::syntax::ast::lemma_norm_spec_value(acc as int, scale as int);
        }
        Result::Ok((tok, k))
    } else {
        proof {
            assert(!num_has_frac(s, i));
            assert(num_val(s, i) == digits_val(s, i, j as int));
            assert(num_end(s, i) == j as int);
            assert(j > start) by {
                lemma_digits_end_at_least(s, i, i + 1);
            }
            crate::syntax::ast::lemma_norm_spec_value(acc as int, 0int);
        }
        let tok = Token::Num(Number::new(acc, 0));
        Result::Ok((tok, j))
    }
}

/// Cut the source text into tokens: exactly the tokens `spec_lex` gives.
#[verifier::loop_isolation(false)]
fn lex(src: &str) -> (r: Result<Vec<Token>, ParseError>)
    ensures
        ({
            match (r, spec_lex(src@, 0)) {
                (Result::Ok(ts), Result::Ok(tsv)) => view_tokens(ts@) == tsv,
                (Result::Err(a), Result::Err(b)) => a == b,
                _ => false,
            }
        }),
{
    let ghost s = src@;
    let n = src.unicode_len();
    let mut toks: Vec<Token> = Vec::new();
    let mut i: usize = 0;
    proof {
        assert(view_tokens(toks@) =~= Seq::<TokenV>::empty());
    }
    while i < n
        invariant
            n == src@.len(),
            i <= n,
            spec_lex(src@, 0) == lex_app(view_tokens(toks@), spec_lex(src@, i as int)),
        decreases n - i,
    {
        let ghost done = view_tokens(toks@);
        let c = src.get_char(i);
        if is_space(c) {
            i = i + 1;
        } else if c == '+' {
            proof {
                lemma_lex_app_cons(done, TokenV::Plus, spec_lex(s, i + 1));
            }
            toks.push(Token::Plus);
            proof {
                assert(view_tokens(toks@) =~= done.push(TokenV::Plus));
            }
            i = i + 1;
        } else if c == '-' {
            proof {
                lemma_lex_app_cons(done, TokenV::Minus, spec_lex(s, i + 1));
            }
            toks.push(Token::Minus);
            proof {
                assert(view_tokens(toks@) =~= done.push(TokenV::Minus));
            }
            i = i + 1;
        } else if c == '*' {
            proof {
                lemma_lex_app_cons(done, TokenV::Star, spec_lex(s, i + 1));
            }
            toks.push(Token::Star);
            proof {
                assert(view_tokens(toks@) =~= done.push(TokenV::Star));
            }
            i = i + 1;
        } else if c == '/' {
            proof {
                lemma_lex_app_cons(done, TokenV::Slash, spec_lex(s, i + 1));
            }
            toks.push(Token::Slash);
            proof {
                assert(view_tokens(toks@) =~= done.push(TokenV::Slash));
            }
            i = i + 1;
        } else if c == '(' {
            proof {
                lemma_lex_app_cons(done, TokenV::LParen, spec_lex(s, i + 1));
            }
            toks.push(Token::LParen);
            proof {
                assert(view_tokens(toks@) =~= done.push(TokenV::LParen));
            }
            i = i + 1;
        } else if c == ')' {
            proof {
                lemma_lex_app_cons(done, TokenV::RParen, spec_lex(s, i + 1));
            }
            toks.push(Token::RParen);
            proof {
                assert(view_tokens(toks@) =~= done.push(TokenV::RParen));
            }
            i = i + 1;
        } else if c == ',' {
            proof {
                lemma_lex_app_cons(done, TokenV::Comma, spec_lex(s, i + 1));
            }
            toks.push(Token::Comma);
            proof {
                assert(view_tokens(toks@) =~= done.push(TokenV::Comma));
            }
            i = i + 1;
        } else if is_digit(c) {
            match lex_number(src, n, i) {
                Result::Ok((tok, end)) => {
                    let ghost tv = view_token(tok);
                    proof {
                        lemma_lex_app_cons(done, tv, spec_lex(s, end as int));
                    }
                    toks.push(tok);
                    proof {
                        assert(view_tokens(toks@) =~= done.push(tv));
                    }
                    i = end;
                },
                Result::Err(e) => {
                    return Result::Err(e);
                },
            }
        } else if is_ident_start(c) {
            let start = i;
            let mut j = i + 1;
            while j < n && is_ident_cont(src.get_char(j))
                invariant
                    n == src@.len(),
                    start < j <= n,
                    is_ident_start_char(src@[start as int]),
                    forall|t: int|
                        start <= t < j ==> is_ident_char(#[trigger] src@[t]),
                decreases n - j,
            {
                j = j + 1;
            }
            proof {
                lemma_ident_end_is(s, start as int, j as int);
            }
            let name = src.substring_char(start, j).to_owned();
            let tok = Token::Ident(name);
            let ghost tv = view_token(tok);
            proof {
                assert(tv == TokenV::Ident(s.subrange(start as int, j as int)));
                lemma_lex_app_cons(done, tv, spec_lex(s, j as int));
            }
            toks.push(tok);
            proof {
                assert(view_tokens(toks@) =~= done.push(tv));
            }
            i = j;
        } else {
            return Result::Err(ParseError::InvalidCharacter);
        }
    }
    proof {
        assert(spec_lex(s, n as int) == Result::<Seq<TokenV>, ParseError>::Ok(Seq::empty()));
        assert(view_tokens(toks@) + Seq::<TokenV>::empty() =~= view_tokens(toks@));
    }
    Result::Ok(toks)
}

// ---------------------------------------------------------------------------
// The parser over tokens
// ---------------------------------------------------------------------------

/// Wrap a binary node.
pub open spec fn mk_bin(op: Op, left: ExprV, right: ExprV) -> ExprV {
    ExprV::BinaryOp(Box::new(BinaryOpV { op, left, right }))
}

/// Parse one expression: a term, then any additive tail. (In the `sp_*`
/// family, the guarded recursions' dead branches only bound the recursion;
/// the executable parser shows the guards hold.)
pub open spec fn sp_expr(ts: Seq<TokenV>, i: int) -> Option<(ExprV, int)>
    decreases ts.len() - i, 3int,
{
    match sp_term(ts, i) {
        Option::Some((e, j)) => if i < j <= ts.len() {
            sp_expr_tail(ts, j, e)
        } else {
            Option::None
        },
        Option::None => Option::None,
    }
}

/// Fold additive operators onto `acc`, left associatively.
pub open spec fn sp_expr_tail(ts: Seq<TokenV>, i: int, acc: ExprV) -> Option<(ExprV, int)>
    decreases ts.len() - i, 0int,
{
    if 0 <= i < ts.len() && (ts[i] == TokenV::Plus || ts[i] == TokenV::Minus) {
        let o = if ts[i] == TokenV::Plus {
            Op::Add
        } else {
            Op::Subtract
        };
        match sp_term(ts, i + 1) {
            Option::Some((e2, j)) => if i < j <= ts.len() {
                sp_expr_tail(ts, j, mk_bin(o, acc, e2))
            } else {
                Option::None
            },
            Option::None => Option::None,
        }
    } else {
        Option::Some((acc, i))
    }
}

/// Parse one term: a factor, then any multiplicative tail.
pub open spec fn sp_term(ts: Seq<TokenV>, i: int) -> Option<(ExprV, int)>
    decreases ts.len() - i, 2int,
{
    match sp_factor(ts, i) {
        Option::Some((e, j)) => if i < j <= ts.len() {
            sp_term_tail(ts, j, e)
        } else {
            Option::None
        },
        Option::None => Option::None,
    }
}

/// Fold multiplicative operators onto `acc`, left associatively.
pub open spec fn sp_term_tail(ts: Seq<TokenV>, i: int, acc: ExprV) -> Option<(ExprV, int)>
    decreases ts.len() - i, 0int,
{
    if 0 <= i < ts.len() && (ts[i] == TokenV::Star || ts[i] == TokenV::Slash) {
        let o = if ts[i] == TokenV::Star {
            Op::Multiply
        } else {
            Op::Divide
        };
        match sp_factor(ts, i + 1) {
            Option::Some((e2, j)) => if i < j <= ts.len() {
                sp_term_tail(ts, j, mk_bin(o, acc, e2))
            } else {
                Option::None
            },
            Option::None => Option::None,
        }
    } else {
        Option::Some((acc, i))
    }
}

/// Parse one factor: a literal, an identifier, a call, or a parenthesized
/// expression.
pub open spec fn sp_factor(ts: Seq<TokenV>, i: int) -> Option<(ExprV, int)>
    decreases ts.len() - i, 1int,
{
    if 0 <= i < ts.len() {
        match ts[i] {
            TokenV::Num(n) => Option::Some((ExprV::Atom(AtomV::Number(n)), i + 1)),
            TokenV::Ident(name) => if i + 1 < ts.len() && ts[i + 1] == TokenV::LParen {
                match sp_args(ts, i + 2) {
                    Option::Some((args, j)) => Option::Some(
                        (ExprV::FunctionCall(FunctionCallV { name, arguments: args }), j),
                    ),
                    Option::None => Option::None,
                }
            } else {
                Option::Some((ExprV::Atom(AtomV::Ident(name)), i + 1))
            },
            TokenV::LParen => match sp_expr(ts, i + 1) {
                Option::Some((e, j)) => if i < j && j < ts.len() && ts[j] == TokenV::RParen {
                    Option::Some((e, j + 1))
                } else {
                    Option::None
                },
                Option::None => Option::None,
            },
            _ => Option::None,
        }
    } else {
        Option::None
    }
}

/// Parse a call's argument list, from just after the opening parenthesis up
/// to and including the closing one.
pub open spec fn sp_args(ts: Seq<TokenV>, i: int) -> Option<(Seq<ExprV>, int)>
    decreases ts.len() - i, 4int,
{
    if 0 <= i < ts.len() && ts[i] == TokenV::RParen {
        Option::Some((Seq::empty(), i + 1))
    } else {
        match sp_expr(ts, i) {
            Option::Some((e, j)) => if i < j <= ts.len() {
                sp_args_tail(ts, j, seq![e])
            } else {
                Option::None
            },
            Option::None => Option::None,
        }
    }
}

/// Fold further comma-separated arguments onto `acc` until the closing
/// parenthesis.
pub open spec fn sp_args_tail(ts: Seq<TokenV>, i: int, acc: Seq<ExprV>) -> Option<
    (Seq<ExprV>, int),
>
    decreases ts.len() - i, 0int,
{
    if 0 <= i < ts.len() {
        if ts[i] == TokenV::Comma {
            match sp_expr(ts, i + 1) {
                Option::Some((e, j)) => if i < j <= ts.len() {
                    sp_args_tail(ts, j, acc.push(e))
                } else {
                    Option::None
                },
                Option::None => Option::None,
            }
        } else if ts[i] == TokenV::RParen {
            Option::Some((acc, i + 1))
        } else {
            Option::None
        }
    } else {
        Option::None
    }
}

/// What parsing a token sequence must produce.
pub open spec fn spec_parse_tokens(ts: Seq<TokenV>) -> Result<ExprV, ParseError> {
    match sp_expr(ts, 0) {
        Option::Some((e, j)) => if j == ts.len() {
            Result::Ok(e)
        } else {
            Result::Err(ParseError::TrailingInput)
        },
        Option::None => Result::Err(ParseError::SyntaxError),
    }
}

/// What parsing a source text must produce.
pub open spec fn spec_parse(src: Seq<char>) -> Result<ExprV, ParseError> {
    match spec_lex(src, 0) {
        Result::Ok(ts) => spec_parse_tokens(ts),
        Result::Err(e) => Result::Err(e),
    }
}

fn parse_expr_at(toks: &Vec<Token>, i: usize) -> (r: Option<(Expr, usize)>)
    requires
        i <= toks@.len(),
    ensures
        ({
            match (r, sp_expr(view_tokens(toks@), i as int)) {
                (Option::Some((e, j)), Option::Some((ev, jv))) => e@ == ev && j as int == jv && i
                    < j <= toks@.len(),
                (Option::None, Option::None) => true,
                _ => false,
            }
        }),
    decreases toks@.len() - i, 3int,
{
    match parse_term_at(toks, i) {
        Option::Some((e, j)) => parse_expr_tail(toks, j, e),
        Option::None => Option::None,
    }
}

fn parse_expr_tail(toks: &Vec<Token>, i: usize, acc: Expr) -> (r: Option<(Expr, usize)>)
    requires
        i <= toks@.len(),
    ensures
        ({
            match (r, sp_expr_tail(view_tokens(toks@), i as int, acc@)) {
                (Option::Some((e, j)), Option::Some((ev, jv))) => e@ == ev && j as int == jv && i
                    <= j <= toks@.len(),
                (Option::None, Option::None) => true,
                _ => false,
            }
        }),
    decreases toks@.len() - i, 0int,
{
    let ghost ts = view_tokens(toks@);
    if i >= toks.len() {
        return Option::Some((acc, i));
    }
    proof {
        assert(ts[i as int] == toks@[i as int]@);
    }
    let o = match &toks[i] {
        Token::Plus => Op::Add,
        Token::Minus => Op::Subtract,
        _ => {
            return Option::Some((acc, i));
        },
    };
    match parse_term_at(toks, i + 1) {
        Option::Some((e2, j)) => {
            let next = Expr::BinaryOp(Box::new(BinaryOp { op: o, left: acc, right: e2 }));
            parse_expr_tail(toks, j, next)
        },
        Option::None => Option::None,
    }
}

fn parse_term_at(toks: &Vec<Token>, i: usize) -> (r: Option<(Expr, usize)>)
    requires
        i <= toks@.len(),
    ensures
        ({
            match (r, sp_term(view_tokens(toks@), i as int)) {
                (Option::Some((e, j)), Option::Some((ev, jv))) => e@ == ev && j as int == jv && i
                    < j <= toks@.len(),
                (Option::None, Option::None) => true,
                _ => false,
            }
        }),
    decreases toks@.len() - i, 2int,
{
    match parse_factor_at(toks, i) {
        Option::Some((e, j)) => parse_term_tail(toks, j, e),
        Option::None => Option::None,
    }
}

fn parse_term_tail(toks: &Vec<Token>, i: usize, acc: Expr) -> (r: Option<(Expr, usize)>)
    requires
        i <= toks@.len(),
    ensures
        ({
            match (r, sp_term_tail(view_tokens(toks@), i as int, acc@)) {
                (Option::Some((e, j)), Option::Some((ev, jv))) => e@ == ev && j as int == jv && i
                    <= j <= toks@.len(),
                (Option::None, Option::None) => true,
                _ => false,
            }
        }),
    decreases toks@.len() - i, 0int,
{
    let ghost ts = view_tokens(toks@);
    if i >= toks.len() {
        return Option::Some((acc, i));
    }
    proof {
        assert(ts[i as int] == toks@[i as int]@);
    }
    let o = match &toks[i] {
        Token::Star => Op::Multiply,
        Token::Slash => Op::Divide,
        _ => {
            return Option::Some((acc, i));
        },
    };
    match parse_factor_at(toks, i + 1) {
        Option::Some((e2, j)) => {
            let next = Expr::BinaryOp(Box::new(BinaryOp { op: o, left: acc, right: e2 }));
            parse_term_tail(toks, j, next)
        },
        Option::None => Option::None,
    }
}

fn parse_factor_at(toks: &Vec<Token>, i: usize) -> (r: Option<(Expr, usize)>)
    requires
        i <= toks@.len(),
    ensures
        ({
            match (r, sp_factor(view_tokens(toks@), i as int)) {
                (Option::Some((e, j)), Option::Some((ev, jv))) => e@ == ev && j as int == jv && i
                    < j <= toks@.len(),
                (Option::None, Option::None) => true,
                _ => false,
            }
        }),
    decreases toks@.len() - i, 1int,
{
    let ghost ts = view_tokens(toks@);
    if i >= toks.len() {
        return Option::None;
    }
    proof {
        assert(ts[i as int] == toks@[i as int]@);
    }
    match &toks[i] {
        Token::Num(n) => Option::Some((Expr::Atom(Atom::Number(*n)), i + 1)),
        Token::Ident(name) => {
            proof {
                if i + 1 < toks@.len() {
                    assert(ts[i as int + 1] == toks@[i as int + 1]@);
                }
            }
            let is_call = i + 1 < toks.len() && matches!(&toks[i + 1], Token::LParen);
            if is_call {
                match parse_args_at(toks, i + 2) {
                    Option::Some((args, j)) => Option::Some(
                        (
                            Expr::FunctionCall(
                                FunctionCall { name: name.clone(), arguments: args },
                            ),
                            j,
                        ),
                    ),
                    Option::None => Option::None,
                }
            } else {
                Option::Some((Expr::Atom(Atom::Ident(name.clone())), i + 1))
            }
        },
        Token::LParen => {
            match parse_expr_at(toks, i + 1) {
                Option::Some((e, j)) => {
                    proof {
                        if j < toks@.len() {
                            assert(ts[j as int] == toks@[j as int]@);
                        }
                    }
                    if j < toks.len() && matches!(&toks[j], Token::RParen) {
                        Option::Some((e, j + 1))
                    } else {
                        Option::None
                    }
                },
                Option::None => Option::None,
            }
        },
        _ => Option::None,
    }
}

fn parse_args_at(toks: &Vec<Token>, i: usize) -> (r: Option<(Vec<Expr>, usize)>)
    requires
        i <= toks@.len(),
    ensures
        ({
            match (r, sp_args(view_tokens(toks@), i as int)) {
                (Option::Some((args, j)), Option::Some((av, jv))) => view_exprs(args@) == av && j
                    as int == jv && i < j <= toks@.len(),
                (Option::None, Option::None) => true,
                _ => false,
            }
        }),
    decreases toks@.len() - i, 4int,
{
    let ghost ts = view_tokens(toks@);
    proof {
        if i < toks@.len() {
            assert(ts[i as int] == toks@[i as int]@);
        }
    }
    if i < toks.len() && matches!(&toks[i], Token::RParen) {
        let empty: Vec<Expr> = Vec::new();
        proof {
            assert(view_exprs(empty@) =~= Seq::<ExprV>::empty());
        }
        return Option::Some((empty, i + 1));
    }
    match parse_expr_at(toks, i) {
        Option::Some((e, j)) => {
            let ghost ev = e@;
            let mut acc: Vec<Expr> = Vec::new();
            acc.push(e);
            proof {
                assert(view_exprs(acc@) =~= seq![ev]);
            }
            parse_args_tail(toks, j, acc)
        },
        Option::None => Option::None,
    }
}

fn parse_args_tail(toks: &Vec<Token>, i: usize, acc: Vec<Expr>) -> (r: Option<(Vec<Expr>, usize)>)
    requires
        i <= toks@.len(),
    ensures
        ({
            match (r, sp_args_tail(view_tokens(toks@), i as int, view_exprs(acc@))) {
                (Option::Some((args, j)), Option::Some((av, jv))) => view_exprs(args@) == av && j
                    as int == jv && i < j <= toks@.len(),
                (Option::None, Option::None) => true,
                _ => false,
            }
        }),
    decreases toks@.len() - i, 0int,
{
    let ghost ts = view_tokens(toks@);
    if i >= toks.len() {
        return Option::None;
    }
    proof {
        assert(ts[i as int] == toks@[i as int]@);
    }
    match &toks[i] {
        Token::Comma => {
            match parse_expr_at(toks, i + 1) {
                Option::Some((e, j)) => {
                    let ghost ev = e@;
                    let ghost before = view_exprs(acc@);
                    let mut acc = acc;
                    acc.push(e);
                    proof {
                        assert(view_exprs(acc@) =~= before.push(ev));
                    }
                    parse_args_tail(toks, j, acc)
                },
                Option::None => Option::None,
            }
        },
        Token::RParen => Option::Some((acc, i + 1)),
        _ => Option::None,
    }
}

/// Parse a whole source text: lex it, parse one expression, and insist the
/// tokens are exhausted.
pub(crate) fn parse_text(src: &str) -> (r: Result<Expr, ParseError>)
    ensures
        ({
            match (r, spec_parse(src@)) {
                (Result::Ok(e), Result::Ok(ev)) => e@ == ev,
                (Result::Err(a), Result::Err(b)) => a == b,
                _ => false,
            }
        }),
{
    let toks = match lex(src) {
        Result::Ok(t) => t,
        Result::Err(e) => {
            return Result::Err(e);
        },
    };
    match parse_expr_at(&toks, 0) {
        Option::Some((e, j)) => {
            if j == toks.len() {
                Result::Ok(e)
            } else {
                Result::Err(ParseError::TrailingInput)
            }
        },
        Option::None => Result::Err(ParseError::SyntaxError),
    }
}

} // verus!
