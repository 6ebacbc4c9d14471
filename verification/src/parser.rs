//! Tokenization: from raw text to the ordered sequence of lexical tokens.
//!
//! A token is a number literal, a single-character operator, or a single
//! parenthesis.  Whitespace separates tokens and is skipped.  Any other
//! character fails with an "invalid operator" error naming it, and an input
//! with no token at all fails with a generic parse error.  The whole input
//! must decompose into tokens: nothing may be left over.

use crate::number::{chars_of, number_value, number_value_exec, string_from_chars};
use vstd::prelude::*;

verus! {

/// The four binary arithmetic operators; also used to tag unary sign nodes.
#[derive(Copy, Clone, Debug, PartialEq, Eq, Hash, Structural)]
pub enum Operator {
    Minus,
    Plus,
    Divide,
    Multiply,
}

impl Operator {
    /// Binding precedence: additive operators bind at 1, multiplicative at 2.
    pub open spec fn spec_precedence(self) -> usize {
        match self {
            Operator::Minus | Operator::Plus => 1,
            Operator::Divide | Operator::Multiply => 2,
        }
    }

    pub fn precedence(self) -> (p: usize)
        ensures
            p == self.spec_precedence(),
    {
        match self {
            Operator::Minus | Operator::Plus => 1,
            Operator::Divide | Operator::Multiply => 2,
        }
    }
}

/// A lexical token.  A number carries the IEEE-754 bit pattern of its value.
#[derive(Copy, Clone, Debug, PartialEq, Eq, Hash, Structural)]
pub enum Token {
    Number(u64),
    Operator(Operator),
    OpenParenthesis,
    CloseParenthesis,
}

impl Token {
    /// Precedence used by the expression builder: operators yield their own
    /// precedence, every other token never yields to an operator.
    pub open spec fn spec_precedence(self) -> usize {
        match self {
            Token::Operator(op) => op.spec_precedence(),
            _ => usize::MAX,
        }
    }

    pub fn precedence(&self) -> (p: usize)
        ensures
            p == self.spec_precedence(),
    {
        match self {
            Token::Operator(op) => op.precedence(),
            _ => usize::MAX,
        }
    }
}

/// A character that is not a token where one was expected.
#[derive(Copy, Clone, Debug, PartialEq, Eq, Structural)]
pub enum ParseUserError {
    InvalidOperator { operator: char },
}

/// Failure of tokenization.
#[derive(Copy, Clone, Debug, PartialEq, Eq, Structural)]
pub enum ParseError {
    /// A character that cannot start a token.
    User(ParseUserError),
    /// The input held no token at all.
    EmptyInput,
}

/// Whitespace skipped between tokens: space, tab, form feed, newline.
pub open spec fn is_whitespace_char(c: char) -> bool {
    c == ' ' || c == '\t' || c == '\x0c' || c == '\n'
}

pub open spec fn is_digit_char(c: char) -> bool {
    '0' <= c && c <= '9'
}

/// The operator denoted by a single character, if any.
pub open spec fn operator_of_char(c: char) -> Option<Operator> {
    if c == '+' {
        Some(Operator::Plus)
    } else if c == '-' {
        Some(Operator::Minus)
    } else if c == '*' {
        Some(Operator::Multiply)
    } else if c == '/' {
        Some(Operator::Divide)
    } else {
        None
    }
}

/// End of the run of decimal digits starting at `i`.
pub open spec fn digit_run_end(s: Seq<char>, i: int) -> int
    decreases s.len() - i,
{
    if 0 <= i < s.len() && is_digit_char(s[i]) {
        digit_run_end(s, i + 1)
    } else {
        i
    }
}

/// End of the optional fraction part (`. digits`) starting at `i`.
pub open spec fn fraction_end(s: Seq<char>, i: int) -> int {
    if 0 <= i && i + 1 < s.len() && s[i] == '.' && is_digit_char(s[i + 1]) {
        digit_run_end(s, i + 1)
    } else {
        i
    }
}

/// End of the optional exponent part (`(e|E) [sign] digits`) starting at `i`.
pub open spec fn exponent_end(s: Seq<char>, i: int) -> int {
    if 0 <= i < s.len() && (s[i] == 'e' || s[i] == 'E') {
        let j = if i + 1 < s.len() && (s[i + 1] == '+' || s[i + 1] == '-') {
            i + 2
        } else {
            i + 1
        };
        if j < s.len() && is_digit_char(s[j]) {
            digit_run_end(s, j)
        } else {
            i
        }
    } else {
        i
    }
}

/// End of the number literal starting at `i`: digits, an optional fraction,
/// an optional exponent.
pub open spec fn number_end(s: Seq<char>, i: int) -> int {
    exponent_end(s, fraction_end(s, digit_run_end(s, i)))
}

/// `s` is exactly one number literal.
pub open spec fn is_number_literal(s: Seq<char>) -> bool {
    s.len() > 0 && is_digit_char(s[0]) && number_end(s, 0) == s.len()
}

pub proof fn lemma_digit_run_end_bounds(s: Seq<char>, i: int)
    requires
        0 <= i <= s.len(),
    ensures
        i <= digit_run_end(s, i) <= s.len(),
    decreases s.len() - i,
{
    if i < s.len() && is_digit_char(s[i]) {
        lemma_digit_run_end_bounds(s, i + 1);
    }
}

pub proof fn lemma_number_end_bounds(s: Seq<char>, i: int)
    requires
        0 <= i < s.len(),
        is_digit_char(s[i]),
    ensures
        i < number_end(s, i) <= s.len(),
{
    lemma_digit_run_end_bounds(s, i + 1);
    let d = digit_run_end(s, i);
    assert(i + 1 <= d <= s.len());
    let f = fraction_end(s, d);
    if f != d {
        lemma_digit_run_end_bounds(s, d + 1);
    }
    assert(d <= f <= s.len());
    let e = exponent_end(s, f);
    if e != f {
        if f + 1 < s.len() && (s[f + 1] == '+' || s[f + 1] == '-') {
            lemma_digit_run_end_bounds(s, f + 2);
        } else {
            lemma_digit_run_end_bounds(s, f + 1);
        }
    }
    assert(f <= e <= s.len());
}

proof fn lemma_digit_run_chars(s: Seq<char>, i: int)
    requires
        0 <= i <= s.len(),
    ensures
        i <= digit_run_end(s, i) <= s.len(),
        forall|j: int| i <= j < digit_run_end(s, i) ==> is_digit_char(s[j]),
        digit_run_end(s, i) < s.len() ==> !is_digit_char(s[digit_run_end(s, i)]),
    decreases s.len() - i,
{
    if i < s.len() && is_digit_char(s[i]) {
        lemma_digit_run_chars(s, i + 1);
    }
}

proof fn lemma_digit_run_from_chars(s: Seq<char>, i: int, e: int)
    requires
        0 <= i <= e <= s.len(),
        forall|j: int| i <= j < e ==> is_digit_char(s[j]),
        e == s.len() || !is_digit_char(s[e]),
    ensures
        digit_run_end(s, i) == e,
    decreases e - i,
{
    if i < e {
        lemma_digit_run_from_chars(s, i + 1, e);
    }
}

/// Inside a longer text, a number literal followed by a space or the end
/// extends to exactly its own length: the lexer neither stops early inside
/// it nor munches past it.
pub proof fn lemma_literal_extent_at(s: Seq<char>, i: int, lit: Seq<char>)
    requires
        0 <= i,
        i + lit.len() <= s.len(),
        s.subrange(i, i + lit.len() as int) == lit,
        is_number_literal(lit),
        i + lit.len() == s.len() || s[i + lit.len()] == ' ',
    ensures
        number_end(s, i) == i + lit.len(),
{
    let ll = lit.len() as int;
    let e = i + ll;
    assert forall|k: int| 0 <= k < ll implies s[i + k] == lit[k] by {
        assert(s.subrange(i, e)[k] == s[i + k]);
    }
    let d0 = digit_run_end(lit, 0);
    let f0 = fraction_end(lit, d0);
    let x0 = exponent_end(lit, f0);
    lemma_digit_run_chars(lit, 0);
    if f0 != d0 {
        lemma_digit_run_chars(lit, d0 + 1);
    }
    assert(x0 == ll);
    // the leading digit run carries over
    assert forall|j: int| i <= j < i + d0 implies is_digit_char(s[j]) by {
        assert(s[j] == lit[j - i]);
    }
    if i + d0 < e {
        assert(s[i + d0] == lit[d0]);
    }
    lemma_digit_run_from_chars(s, i, i + d0);
    assert(digit_run_end(s, i) == i + d0);
    // the fraction part carries over
    if f0 != d0 {
        assert(lit[d0] == '.' && d0 + 1 < ll && is_digit_char(lit[d0 + 1]));
        assert(f0 == digit_run_end(lit, d0 + 1));
        assert forall|j: int| i + d0 + 1 <= j < i + f0 implies is_digit_char(s[j]) by {
            assert(s[j] == lit[j - i]);
        }
        if i + f0 < e {
            assert(s[i + f0] == lit[f0]);
        }
        lemma_digit_run_from_chars(s, i + d0 + 1, i + f0);
        assert(fraction_end(s, i + d0) == i + f0);
    } else {
        if i + d0 < e {
            if lit[d0] == '.' {
                // a dot not followed by a digit cannot close the literal:
                // the exponent step would stop at it
                if d0 + 1 < ll {
                    assert(!is_digit_char(lit[d0 + 1]));
                    assert(s[i + d0 + 1] == lit[d0 + 1]);
                } else {
                    assert(exponent_end(lit, f0) == f0);
                    assert(false);
                }
            } else {
                assert(s[i + d0] == lit[d0]);
            }
        }
        assert(fraction_end(s, i + d0) == i + d0);
    }
    // the exponent part carries over
    if x0 != f0 {
        assert(f0 < ll && (lit[f0] == 'e' || lit[f0] == 'E'));
        let j0 = if f0 + 1 < ll && (lit[f0 + 1] == '+' || lit[f0 + 1] == '-') {
            f0 + 2
        } else {
            f0 + 1
        };
        assert(j0 < ll && is_digit_char(lit[j0]));
        assert(x0 == digit_run_end(lit, j0));
        lemma_digit_run_chars(lit, j0);
        assert forall|j: int| i + j0 <= j < e implies is_digit_char(s[j]) by {
            assert(s[j] == lit[j - i]);
        }
        lemma_digit_run_from_chars(s, i + j0, e);
        assert(s[i + f0] == lit[f0]);
        if f0 + 1 < ll {
            assert(s[i + f0 + 1] == lit[f0 + 1]);
        }
        assert(exponent_end(s, i + f0) == e);
    } else {
        assert(f0 == ll);
        assert(exponent_end(s, i + f0) == e);
    }
}

/// The tokens found from position `i` on, or the first failure.
pub open spec fn spec_lex_from(s: Seq<char>, i: int) -> Result<Seq<Token>, ParseError>
    decreases s.len() - i,
{
    if i < 0 || i >= s.len() {
        Ok(Seq::empty())
    } else if is_whitespace_char(s[i]) {
        spec_lex_from(s, i + 1)
    } else {
        match operator_of_char(s[i]) {
            Some(op) => match spec_lex_from(s, i + 1) {
                Ok(toks) => Ok(seq![Token::Operator(op)] + toks),
                Err(e) => Err(e),
            },
            None => {
                if s[i] == '(' {
                    match spec_lex_from(s, i + 1) {
                        Ok(toks) => Ok(seq![Token::OpenParenthesis] + toks),
                        Err(e) => Err(e),
                    }
                } else if s[i] == ')' {
                    match spec_lex_from(s, i + 1) {
                        Ok(toks) => Ok(seq![Token::CloseParenthesis] + toks),
                        Err(e) => Err(e),
                    }
                } else if is_digit_char(s[i]) {
                    let end = number_end(s, i);
                    // the bounds hold whenever `s[i]` is a digit (see
                    // `lemma_number_end_bounds`); the test keeps the
                    // decreases measure obviously well-founded
                    if i < end <= s.len() {
                        match spec_lex_from(s, end) {
                            Ok(toks) => Ok(
                                seq![Token::Number(number_value(s.subrange(i, end)))] + toks,
                            ),
                            Err(e) => Err(e),
                        }
                    } else {
                        Err(ParseError::EmptyInput)
                    }
                } else {
                    Err(ParseError::User(ParseUserError::InvalidOperator { operator: s[i] }))
                }
            },
        }
    }
}

/// What tokenizing the whole input yields: the non-empty token sequence, or
/// the first failure, with an input holding no token at all rejected.
pub open spec fn spec_tokenize(s: Seq<char>) -> Result<Seq<Token>, ParseError> {
    match spec_lex_from(s, 0) {
        Ok(toks) => if toks.len() == 0 {
            Err(ParseError::EmptyInput)
        } else {
            Ok(toks)
        },
        Err(e) => Err(e),
    }
}

fn digit_run_end_exec(s: &Vec<char>, i: usize) -> (r: usize)
    requires
        i <= s@.len(),
    ensures
        r == digit_run_end(s@, i as int),
        i <= r <= s@.len(),
{
    let mut j = i;
    while j < s.len() && is_digit_char_exec(s[j])
        invariant
            i <= j <= s@.len(),
            digit_run_end(s@, i as int) == digit_run_end(s@, j as int),
        decreases s@.len() - j,
    {
        j = j + 1;
    }
    proof {
        lemma_digit_run_end_bounds(s@, j as int);
    }
    j
}

fn is_digit_char_exec(c: char) -> (r: bool)
    ensures
        r == is_digit_char(c),
{
    '0' <= c && c <= '9'
}

fn is_whitespace_char_exec(c: char) -> (r: bool)
    ensures
        r == is_whitespace_char(c),
{
    c == ' ' || c == '\t' || c == '\x0c' || c == '\n'
}

fn number_end_exec(s: &Vec<char>, i: usize) -> (r: usize)
    requires
        i <= s@.len(),
    ensures
        r == number_end(s@, i as int),
        i <= r <= s@.len(),
{
    let d = digit_run_end_exec(s, i);
    let f = if d < s.len() && d + 1 < s.len() && s[d] == '.' && is_digit_char_exec(s[d + 1]) {
        digit_run_end_exec(s, d + 1)
    } else {
        d
    };
    assert(f == fraction_end(s@, d as int));
    let e = if f < s.len() && (s[f] == 'e' || s[f] == 'E') {
        let j = if f + 1 < s.len() && (s[f + 1] == '+' || s[f + 1] == '-') {
            f + 2
        } else {
            f + 1
        };
        if j < s.len() && is_digit_char_exec(s[j]) {
            digit_run_end_exec(s, j)
        } else {
            f
        }
    } else {
        f
    };
    assert(e == exponent_end(s@, f as int));
    e
}

/// Tokenize the input.  The result is exactly what `spec_tokenize` says of
/// the input's characters.
pub fn parse(s: &str) -> (r: Result<Vec<Token>, ParseError>)
    ensures
        (match r {
            Ok(v) => spec_tokenize(s@) == Ok::<Seq<Token>, ParseError>(v@),
            Err(e) => spec_tokenize(s@) == Err::<Seq<Token>, ParseError>(e),
        }),
{
    let chars = chars_of(s);
    let mut tokens: Vec<Token> = Vec::new();
    let mut i: usize = 0;
    proof {
        match spec_lex_from(s@, 0) {
            Ok(rest) => {
                assert(Seq::<Token>::empty() + rest =~= rest);
            },
            Err(_) => {},
        }
    }
    while i < chars.len()
        invariant
            i <= chars@.len(),
            chars@ == s@,
            (match spec_lex_from(s@, i as int) {
                Ok(rest) => spec_lex_from(s@, 0) == Ok::<Seq<Token>, ParseError>(tokens@ + rest),
                Err(e) => spec_lex_from(s@, 0) == Err::<Seq<Token>, ParseError>(e),
            }),
        decreases chars@.len() - i,
    {
        let ghost i0 = i as int;
        let ghost toks0 = tokens@;
        let c = chars[i];
        if is_whitespace_char_exec(c) {
            i = i + 1;
        } else {
            let t: Token;
            if c == '+' {
                t = Token::Operator(Operator::Plus);
                i = i + 1;
            } else if c == '-' {
                t = Token::Operator(Operator::Minus);
                i = i + 1;
            } else if c == '*' {
                t = Token::Operator(Operator::Multiply);
                i = i + 1;
            } else if c == '/' {
                t = Token::Operator(Operator::Divide);
                i = i + 1;
            } else if c == '(' {
                t = Token::OpenParenthesis;
                i = i + 1;
            } else if c == ')' {
                t = Token::CloseParenthesis;
                i = i + 1;
            } else if is_digit_char_exec(c) {
                proof {
                    lemma_number_end_bounds(s@, i as int);
                }
                let end = number_end_exec(&chars, i);
                let bits = number_value_exec(&chars, i, end);
                t = Token::Number(bits);
                i = end;
            } else {
                return Err(ParseError::User(ParseUserError::InvalidOperator { operator: c }));
            }
            tokens.push(t);
            proof {
                assert(tokens@ =~= toks0 + seq![t]);
                match spec_lex_from(s@, i as int) {
                    Ok(rest) => {
                        assert(spec_lex_from(s@, i0) == Ok::<Seq<Token>, ParseError>(
                            seq![t] + rest,
                        ));
                        assert(toks0 + (seq![t] + rest) =~= (toks0 + seq![t]) + rest);
                    },
                    Err(_) => {},
                }
            }
        }
    }
    proof {
        match spec_lex_from(s@, i as int) {
            Ok(rest) => {
                assert(tokens@ + rest =~= tokens@);
            },
            Err(_) => {},
        }
    }
    if tokens.len() == 0 {
        Err(ParseError::EmptyInput)
    } else {
        Ok(tokens)
    }
}

/// End of the run of whitespace starting at `i`.
pub open spec fn whitespace_run_end(s: Seq<char>, i: int) -> int
    decreases s.len() - i,
{
    if 0 <= i < s.len() && is_whitespace_char(s[i]) {
        whitespace_run_end(s, i + 1)
    } else {
        i
    }
}

/// The input with its leading whitespace removed.
pub fn skip_whitespace(s: &str) -> (r: String)
    ensures
        r@ == s@.subrange(whitespace_run_end(s@, 0), s@.len() as int),
{
    let chars = chars_of(s);
    let mut i: usize = 0;
    while i < chars.len() && is_whitespace_char_exec(chars[i])
        invariant
            i <= chars@.len(),
            chars@ == s@,
            whitespace_run_end(s@, 0) == whitespace_run_end(s@, i as int),
        decreases chars@.len() - i,
    {
        i = i + 1;
    }
    let mut rest: Vec<char> = Vec::new();
    let mut j = i;
    while j < chars.len()
        invariant
            i <= j <= chars@.len(),
            chars@ == s@,
            rest@ == s@.subrange(i as int, j as int),
        decreases chars@.len() - j,
    {
        rest.push(chars[j]);
        j = j + 1;
    }
    assert(rest@ == s@.subrange(whitespace_run_end(s@, 0), s@.len() as int));
    string_from_chars(&rest)
}

/// Read the operator denoted by the first character of the input.
pub fn parse_operator(s: &str) -> (r: Result<Operator, ParseError>)
    ensures
        (match r {
            Ok(op) => s@.len() > 0 && operator_of_char(s@[0]) == Some(op),
            Err(e) => (s@.len() == 0 ==> e == ParseError::EmptyInput) && (s@.len() > 0
                ==> operator_of_char(s@[0]) is None && e == ParseError::User(
                ParseUserError::InvalidOperator { operator: s@[0] },
            )),
        }),
{
    let chars = chars_of(s);
    if chars.len() == 0 {
        return Err(ParseError::EmptyInput);
    }
    let c = chars[0];
    if c == '+' {
        Ok(Operator::Plus)
    } else if c == '-' {
        Ok(Operator::Minus)
    } else if c == '*' {
        Ok(Operator::Multiply)
    } else if c == '/' {
        Ok(Operator::Divide)
    } else {
        Err(ParseError::User(ParseUserError::InvalidOperator { operator: c }))
    }
}

} // verus!
