//! The expression builder: an operator-precedence (Pratt) parser from the
//! token sequence to an expression tree.
//!
//! `spec_parse_tokens` is the mathematical parser; the executable builder is
//! proved to return exactly what it says.  The parser consumes every token
//! or fails: at right binding power zero no token yields, so the infix loop
//! only stops at the end of the input.

use crate::errors::Error;
use crate::number::{is_renderable, number_text, number_text_exec, number_value, string_from_chars};
use crate::parser::{
    is_digit_char, is_number_literal, is_whitespace_char, lemma_literal_extent_at,
    operator_of_char, spec_lex_from, spec_tokenize, Operator, ParseError, Token,
};
use vstd::prelude::*;

verus! {

/// An expression tree.  A number leaf carries the IEEE-754 bit pattern of
/// its value.  Parenthesis nodes are preserved so that rendering the tree
/// reproduces explicit grouping.
#[derive(Debug, PartialEq)]
pub enum Ast {
    Number(u64),
    BinaryOperator { operator: Operator, left: Box<Ast>, right: Box<Ast> },
    UnaryOperator { operator: Operator, child: Box<Ast> },
    Parenthesis { child: Box<Ast> },
}

/// Failure of the expression builder.
#[derive(Copy, Clone, Debug, PartialEq, Eq, Structural)]
pub enum AstError {
    /// End of input where a token was expected.
    ExpectedToken,
    /// A non-operator token where an infix operator was expected.
    ExpectedOperator { token: Token },
    /// Multiply or divide used as a prefix sign.
    UnsupportedUnaryOperator { operator: Operator },
    /// A stray closing parenthesis.
    UnmatchedClosingParenthesis,
    /// An opening parenthesis with no matching close; `counter` groups are
    /// still open.
    UnmatchedOpeningParenthesis { counter: usize },
}

/// Every unary operator in the tree is a sign (plus or minus).  The builder
/// only ever produces such trees.
pub open spec fn unary_ok(t: Ast) -> bool
    decreases t,
{
    match t {
        Ast::Number(_) => true,
        Ast::UnaryOperator { operator, child } => (operator == Operator::Plus || operator
            == Operator::Minus) && unary_ok(*child),
        Ast::BinaryOperator { operator, left, right } => unary_ok(*left) && unary_ok(*right),
        Ast::Parenthesis { child } => unary_ok(*child),
    }
}

/// Split `ts` into the tokens before the closing parenthesis that brings the
/// nesting `counter` down to zero, and the tokens after it.
pub open spec fn spec_take_group(ts: Seq<Token>, counter: int) -> Result<
    (Seq<Token>, Seq<Token>),
    AstError,
>
    decreases ts.len(),
{
    if ts.len() == 0 {
        Err(AstError::UnmatchedOpeningParenthesis { counter: counter as usize })
    } else if ts[0] == Token::CloseParenthesis && counter == 1 {
        Ok((Seq::empty(), ts.drop_first()))
    } else {
        let c2 = if ts[0] == Token::OpenParenthesis {
            counter + 1
        } else if ts[0] == Token::CloseParenthesis {
            counter - 1
        } else {
            counter
        };
        match spec_take_group(ts.drop_first(), c2) {
            Ok(g) => Ok((seq![ts[0]] + g.0, g.1)),
            Err(e) => Err(e),
        }
    }
}

/// Prefix step: what the first token denotes, with the tokens left over.
pub open spec fn spec_nud(t: Token, rest: Seq<Token>) -> Result<(Ast, Seq<Token>), AstError>
    decreases rest.len(), 1int,
{
    match t {
        Token::Number(n) => Ok((Ast::Number(n), rest)),
        Token::Operator(op) => {
            if op == Operator::Plus || op == Operator::Minus {
                match spec_expr(rest, 0) {
                    Ok(p) => Ok((Ast::UnaryOperator { operator: op, child: Box::new(p.0) }, p.1)),
                    Err(e) => Err(e),
                }
            } else {
                Err(AstError::UnsupportedUnaryOperator { operator: op })
            }
        },
        Token::OpenParenthesis => match spec_take_group(rest, 1) {
            Ok(g) => {
                // a group is always shorter than what it was taken from
                // (see `lemma_take_group_splits`); the test keeps the
                // decreases measure obviously well-founded
                if g.0.len() < rest.len() {
                    match spec_parse_tokens(g.0) {
                        Ok(child) => Ok((Ast::Parenthesis { child: Box::new(child) }, g.1)),
                        Err(e) => Err(e),
                    }
                } else {
                    Err(AstError::ExpectedToken)
                }
            },
            Err(e) => Err(e),
        },
        Token::CloseParenthesis => Err(AstError::UnmatchedClosingParenthesis),
    }
}

/// Infix loop: extend `left` while the next token is an operator binding
/// more tightly than `rbp`.
pub open spec fn spec_led_loop(left: Ast, ts: Seq<Token>, rbp: usize) -> Result<
    (Ast, Seq<Token>),
    AstError,
>
    decreases ts.len(), 0int,
{
    if ts.len() == 0 {
        Ok((left, ts))
    } else if rbp >= ts[0].spec_precedence() {
        Ok((left, ts))
    } else {
        match ts[0] {
            Token::Operator(op) => match spec_expr(ts.drop_first(), op.spec_precedence()) {
                Ok(p) => if p.1.len() < ts.len() {
                    spec_led_loop(
                        Ast::BinaryOperator {
                            operator: op,
                            left: Box::new(left),
                            right: Box::new(p.0),
                        },
                        p.1,
                        rbp,
                    )
                } else {
                    // a parse consumes at least one token (see
                    // `lemma_expr_shape`); the test keeps the decreases
                    // measure obviously well-founded
                    Err(AstError::ExpectedToken)
                },
                Err(e) => Err(e),
            },
            t => Err(AstError::ExpectedOperator { token: t }),
        }
    }
}

/// One expression parsed from the front of `ts` at right binding power
/// `rbp`, with the tokens left over.
pub open spec fn spec_expr(ts: Seq<Token>, rbp: usize) -> Result<(Ast, Seq<Token>), AstError>
    decreases ts.len(), 0int,
{
    if ts.len() == 0 {
        Err(AstError::ExpectedToken)
    } else {
        match spec_nud(ts[0], ts.drop_first()) {
            Ok(p) => if p.1.len() < ts.len() {
                spec_led_loop(p.0, p.1, rbp)
            } else {
                Err(AstError::ExpectedToken)
            },
            Err(e) => Err(e),
        }
    }
}

/// What parsing a whole token sequence yields.
pub open spec fn spec_parse_tokens(ts: Seq<Token>) -> Result<Ast, AstError>
    decreases ts.len(), 3int,
{
    match spec_expr(ts, 0) {
        Ok(p) => Ok(p.0),
        Err(e) => Err(e),
    }
}

/// What building a tree from raw text yields: tokenize, then parse.
pub open spec fn spec_build_ast(s: Seq<char>) -> Result<Ast, Error> {
    match spec_tokenize(s) {
        Ok(toks) => match spec_parse_tokens(toks) {
            Ok(t) => Ok(t),
            Err(e) => Err(Error::AstError(e)),
        },
        Err(e) => Err(Error::ParseError(e)),
    }
}

/// The expression builder: a token sequence and a cursor into it.
pub struct AstBuilder {
    tokens: Vec<Token>,
    pos: usize,
}

impl AstBuilder {
    spec fn wf(self) -> bool {
        self.pos <= self.tokens@.len()
    }

    spec fn remaining(self) -> Seq<Token> {
        self.tokens@.skip(self.pos as int)
    }

    fn peek(&self) -> (r: Option<Token>)
        requires
            self.wf(),
        ensures
            self.remaining().len() == 0 ==> r is None,
            self.remaining().len() > 0 ==> r == Some(self.remaining()[0]),
    {
        if self.pos < self.tokens.len() {
            Some(self.tokens[self.pos])
        } else {
            None
        }
    }

    fn next(&mut self) -> (r: Option<Token>)
        requires
            old(self).wf(),
        ensures
            final(self).wf(),
            final(self).tokens == old(self).tokens,
            old(self).remaining().len() == 0 ==> r is None && *final(self) == *old(self),
            old(self).remaining().len() > 0 ==> r == Some(old(self).remaining()[0])
                && final(self).pos == old(self).pos + 1
                && final(self).remaining() == old(self).remaining().drop_first(),
    {
        if self.pos < self.tokens.len() {
            let t = self.tokens[self.pos];
            self.pos = self.pos + 1;
            proof {
                assert(self.tokens@.skip(self.pos as int) =~= self.tokens@.skip(
                    self.pos - 1,
                ).drop_first());
            }
            Some(t)
        } else {
            None
        }
    }

    /// Build the tree for the given text, or fail as tokenizing or building
    /// fails.
    pub fn build_ast(s: &str) -> (r: Result<Ast, Error>)
        ensures
            (match spec_build_ast(s@) {
                Ok(t) => r == Ok::<Ast, Error>(t),
                Err(e) => r == Err::<Ast, Error>(e),
            }),
    {
        let tokens = match crate::parser::parse(s) {
            Ok(tokens) => tokens,
            Err(e) => {
                return Err(Error::ParseError(e));
            },
        };
        AstBuilder::build_ast_from_tokens(tokens)
    }

    /// Build the tree for a token sequence: exactly what `spec_parse_tokens`
    /// says of it.
    pub fn build_ast_from_tokens(tokens: Vec<Token>) -> (r: Result<Ast, Error>)
        ensures
            (match spec_parse_tokens(tokens@) {
                Ok(t) => r == Ok::<Ast, Error>(t),
                Err(e) => r == Err::<Ast, Error>(Error::AstError(e)),
            }),
        decreases tokens@.len(), 3int,
    {
        let mut builder = AstBuilder { tokens, pos: 0 };
        proof {
            assert(builder.remaining() =~= builder.tokens@);
        }
        builder.expr(0)
    }

    #[verifier::loop_isolation(false)]
    fn nud(&mut self, t: Token) -> (r: Result<Ast, Error>)
        requires
            old(self).wf(),
            old(self).pos >= 1,
        ensures
            final(self).wf(),
            final(self).tokens == old(self).tokens,
            old(self).pos <= final(self).pos,
            (match spec_nud(t, old(self).remaining()) {
                Ok(p) => r == Ok::<Ast, Error>(p.0) && final(self).remaining() == p.1,
                Err(e) => r == Err::<Ast, Error>(Error::AstError(e)),
            }),
        decreases self.tokens@.len() - self.pos, 1int,
    {
        match t {
            Token::Number(n) => Ok(Ast::Number(n)),
            Token::Operator(operator) => {
                if operator == Operator::Plus || operator == Operator::Minus {
                    let right = match self.expr(0) {
                        Ok(a) => a,
                        Err(e) => {
                            return Err(e);
                        },
                    };
                    Ok(Ast::UnaryOperator { operator, child: Box::new(right) })
                } else {
                    Err(Error::AstError(AstError::UnsupportedUnaryOperator { operator }))
                }
            },
            Token::OpenParenthesis => {
                let ghost rem0 = self.remaining();
                let ghost entry_pos = self.pos as int;
                let mut parenthesis: Vec<Token> = Vec::new();
                let mut counter: usize = 1;
                loop
                    invariant
                        self.wf(),
                        self.tokens == old(self).tokens,
                        entry_pos <= self.pos,
                        1 <= counter,
                        counter <= self.pos - entry_pos + 1,
                        parenthesis@.len() <= self.pos - entry_pos,
                        (match spec_take_group(self.remaining(), counter as int) {
                            Ok(g) => spec_take_group(rem0, 1) == Ok::<
                                (Seq<Token>, Seq<Token>),
                                AstError,
                            >((parenthesis@ + g.0, g.1)),
                            Err(e) => spec_take_group(rem0, 1) == Err::<
                                (Seq<Token>, Seq<Token>),
                                AstError,
                            >(e),
                        }),
                    decreases self.tokens@.len() - self.pos,
                {
                    let ghost rem_i = self.remaining();
                    let ghost paren0 = parenthesis@;
                    match self.next() {
                        None => {
                            return Err(
                                Error::AstError(
                                    AstError::UnmatchedOpeningParenthesis { counter },
                                ),
                            );
                        },
                        Some(token) => {
                            match &token {
                                Token::OpenParenthesis => {
                                    counter = counter + 1;
                                },
                                Token::CloseParenthesis => {
                                    if counter == 1 {
                                        proof {
                                            assert(parenthesis@ + Seq::<Token>::empty()
                                                =~= parenthesis@);
                                        }
                                        let child = match AstBuilder::build_ast_from_tokens(
                                            parenthesis,
                                        ) {
                                            Ok(a) => a,
                                            Err(e) => {
                                                return Err(e);
                                            },
                                        };
                                        return Ok(Ast::Parenthesis { child: Box::new(child) });
                                    }
                                    counter = counter - 1;
                                },
                                _ => {},
                            };
                            parenthesis.push(token);
                            proof {
                                assert(parenthesis@ =~= paren0 + seq![token]);
                                match spec_take_group(self.remaining(), counter as int) {
                                    Ok(g) => {
                                        assert(spec_take_group(rem_i, (counter as int) - (
                                        if token == Token::OpenParenthesis {
                                            1int
                                        } else if token == Token::CloseParenthesis {
                                            -1int
                                        } else {
                                            0int
                                        })) == Ok::<(Seq<Token>, Seq<Token>), AstError>(
                                            (seq![token] + g.0, g.1),
                                        ));
                                        assert(paren0 + (seq![token] + g.0) =~= (paren0
                                            + seq![token]) + g.0);
                                    },
                                    Err(_) => {},
                                }
                            }
                        },
                    }
                }
            },
            Token::CloseParenthesis => Err(Error::AstError(AstError::UnmatchedClosingParenthesis)),
        }
    }

    fn led(&mut self, bp: usize, left: Ast, op: Token) -> (r: Result<Ast, Error>)
        requires
            old(self).wf(),
        ensures
            final(self).wf(),
            final(self).tokens == old(self).tokens,
            old(self).pos <= final(self).pos,
            (match op {
                Token::Operator(operator) => (match spec_expr(old(self).remaining(), bp) {
                    Ok(p) => r == Ok::<Ast, Error>(
                        Ast::BinaryOperator {
                            operator,
                            left: Box::new(left),
                            right: Box::new(p.0),
                        },
                    ) && final(self).remaining() == p.1 && old(self).pos < final(self).pos,
                    Err(e) => r == Err::<Ast, Error>(Error::AstError(e)),
                }),
                _ => r == Err::<Ast, Error>(Error::AstError(AstError::ExpectedOperator { token: op }))
                    && *final(self) == *old(self),
            }),
        decreases self.tokens@.len() - self.pos, 1int,
    {
        match op {
            Token::Operator(operator) => {
                let right = match self.expr(bp) {
                    Ok(a) => a,
                    Err(e) => {
                        return Err(e);
                    },
                };
                Ok(Ast::BinaryOperator { left: Box::new(left), right: Box::new(right), operator })
            },
            token => Err(Error::AstError(AstError::ExpectedOperator { token })),
        }
    }

    #[verifier::loop_isolation(false)]
    fn expr(&mut self, rbp: usize) -> (r: Result<Ast, Error>)
        requires
            old(self).wf(),
        ensures
            final(self).wf(),
            final(self).tokens == old(self).tokens,
            old(self).pos <= final(self).pos,
            (match spec_expr(old(self).remaining(), rbp) {
                Ok(p) => r == Ok::<Ast, Error>(p.0) && final(self).remaining() == p.1 && old(
                    self,
                ).pos < final(self).pos,
                Err(e) => r == Err::<Ast, Error>(Error::AstError(e)),
            }),
        decreases self.tokens@.len() - self.pos, 0int,
    {
        let first_token = match self.next() {
            Some(t) => t,
            None => {
                return Err(Error::AstError(AstError::ExpectedToken));
            },
        };
        let mut left = match self.nud(first_token) {
            Ok(a) => a,
            Err(e) => {
                return Err(e);
            },
        };
        loop
            invariant
                self.wf(),
                self.tokens == old(self).tokens,
                old(self).pos < self.pos,
                spec_expr(old(self).remaining(), rbp) == spec_led_loop(
                    left,
                    self.remaining(),
                    rbp,
                ),
            decreases self.tokens@.len() - self.pos,
        {
            let peeked = match self.peek() {
                Some(t) => t,
                None => {
                    return Ok(left);
                },
            };
            if rbp >= peeked.precedence() {
                return Ok(left);
            }
            let ghost rem_i = self.remaining();
            let op = match self.next() {
                Some(t) => t,
                None => {
                    return Ok(left);
                },
            };
            left = match self.led(op.precedence(), left, op) {
                Ok(a) => a,
                Err(e) => {
                    return Err(e);
                },
            };
        }
    }
}

/// The token run of a tree: its flattening back into tokens, in source
/// order, parentheses included.
pub open spec fn spec_tokens_of(t: Ast) -> Seq<Token>
    decreases t,
{
    match t {
        Ast::Number(n) => seq![Token::Number(n)],
        Ast::UnaryOperator { operator, child } => seq![Token::Operator(operator)]
            + spec_tokens_of(*child),
        Ast::BinaryOperator { operator, left, right } => spec_tokens_of(*left) + seq![
            Token::Operator(operator),
        ] + spec_tokens_of(*right),
        Ast::Parenthesis { child } => seq![Token::OpenParenthesis] + spec_tokens_of(*child) + seq![
            Token::CloseParenthesis,
        ],
    }
}

proof fn lemma_take_group_splits(ts: Seq<Token>, counter: int)
    ensures
        spec_take_group(ts, counter) matches Ok(g) ==> ts == g.0 + seq![
            Token::CloseParenthesis,
        ] + g.1,
    decreases ts.len(),
{
    if ts.len() == 0 {
    } else if ts[0] == Token::CloseParenthesis && counter == 1 {
        assert(ts =~= (Seq::<Token>::empty() + seq![Token::CloseParenthesis]) + ts.drop_first());
    } else {
        let c2 = if ts[0] == Token::OpenParenthesis {
            counter + 1
        } else if ts[0] == Token::CloseParenthesis {
            counter - 1
        } else {
            counter
        };
        lemma_take_group_splits(ts.drop_first(), c2);
        match spec_take_group(ts.drop_first(), c2) {
            Ok(g) => {
                assert(ts =~= seq![ts[0]] + ts.drop_first());
                assert(ts =~= ((seq![ts[0]] + g.0) + seq![Token::CloseParenthesis]) + g.1);
            },
            Err(_) => {},
        }
    }
}

/// At right binding power zero the infix loop stops only at the end of the
/// input: every token's precedence is at least one.
proof fn lemma_led_loop_zero(left: Ast, ts: Seq<Token>)
    ensures
        spec_led_loop(left, ts, 0) matches Ok(p) ==> p.1.len() == 0,
    decreases ts.len(),
{
    if ts.len() == 0 {
    } else {
        assert(ts[0].spec_precedence() >= 1);
        match ts[0] {
            Token::Operator(op) => {
                match spec_expr(ts.drop_first(), op.spec_precedence()) {
                    Ok(p) => {
                        if p.1.len() < ts.len() {
                            lemma_led_loop_zero(
                                Ast::BinaryOperator {
                                    operator: op,
                                    left: Box::new(left),
                                    right: Box::new(p.0),
                                },
                                p.1,
                            );
                        }
                    },
                    Err(_) => {},
                }
            },
            _ => {},
        }
    }
}

proof fn lemma_nud_shape(t: Token, rest: Seq<Token>)
    ensures
        spec_nud(t, rest) matches Ok(p) ==> seq![t] + rest == spec_tokens_of(p.0) + p.1
            && p.1.len() <= rest.len() && unary_ok(p.0),
    decreases rest.len(), 1int,
{
    match t {
        Token::Number(n) => {
            assert(seq![t] + rest =~= spec_tokens_of(Ast::Number(n)) + rest);
        },
        Token::Operator(op) => {
            if op == Operator::Plus || op == Operator::Minus {
                lemma_expr_shape(rest, 0);
                match spec_expr(rest, 0) {
                    Ok(p) => {
                        assert(seq![t] + (spec_tokens_of(p.0) + p.1) =~= (seq![
                            Token::Operator(op),
                        ] + spec_tokens_of(p.0)) + p.1);
                    },
                    Err(_) => {},
                }
            }
        },
        Token::OpenParenthesis => {
            lemma_take_group_splits(rest, 1);
            match spec_take_group(rest, 1) {
                Ok(g) => {
                    if g.0.len() < rest.len() {
                        lemma_parse_tokens_shape(g.0);
                        match spec_parse_tokens(g.0) {
                            Ok(child) => {
                                assert(seq![t] + ((g.0 + seq![Token::CloseParenthesis]) + g.1)
                                    =~= ((seq![Token::OpenParenthesis] + g.0) + seq![
                                    Token::CloseParenthesis,
                                ]) + g.1);
                            },
                            Err(_) => {},
                        }
                    }
                },
                Err(_) => {},
            }
        },
        Token::CloseParenthesis => {},
    }
}

proof fn lemma_led_loop_shape(left: Ast, ts: Seq<Token>, rbp: usize)
    ensures
        spec_led_loop(left, ts, rbp) matches Ok(p) ==> spec_tokens_of(left) + ts == spec_tokens_of(
            p.0,
        ) + p.1 && p.1.len() <= ts.len() && (unary_ok(left) ==> unary_ok(p.0)),
    decreases ts.len(), 0int,
{
    if ts.len() == 0 || rbp >= ts[0].spec_precedence() {
    } else {
        match ts[0] {
            Token::Operator(op) => {
                lemma_expr_shape(ts.drop_first(), op.spec_precedence());
                match spec_expr(ts.drop_first(), op.spec_precedence()) {
                    Ok(p) => {
                        if p.1.len() < ts.len() {
                            let nl = Ast::BinaryOperator {
                                operator: op,
                                left: Box::new(left),
                                right: Box::new(p.0),
                            };
                            lemma_led_loop_shape(nl, p.1, rbp);
                            assert(ts =~= seq![Token::Operator(op)] + ts.drop_first());
                            assert(spec_tokens_of(left) + (seq![Token::Operator(op)] + (
                            spec_tokens_of(p.0) + p.1)) =~= ((spec_tokens_of(left) + seq![
                                Token::Operator(op),
                            ]) + spec_tokens_of(p.0)) + p.1);
                        }
                    },
                    Err(_) => {},
                }
            },
            _ => {},
        }
    }
}

proof fn lemma_expr_shape(ts: Seq<Token>, rbp: usize)
    ensures
        spec_expr(ts, rbp) matches Ok(p) ==> ts == spec_tokens_of(p.0) + p.1 && p.1.len()
            < ts.len() && unary_ok(p.0),
    decreases ts.len(), 0int,
{
    if ts.len() > 0 {
        lemma_nud_shape(ts[0], ts.drop_first());
        match spec_nud(ts[0], ts.drop_first()) {
            Ok(p) => {
                if p.1.len() < ts.len() {
                    lemma_led_loop_shape(p.0, p.1, rbp);
                    assert(ts =~= seq![ts[0]] + ts.drop_first());
                }
            },
            Err(_) => {},
        }
    }
}

/// A successfully parsed token sequence is consumed whole: the tree
/// flattens back to exactly the input, and every unary operator in it is a
/// sign.
pub proof fn lemma_parse_tokens_shape(ts: Seq<Token>)
    ensures
        spec_parse_tokens(ts) matches Ok(a) ==> spec_tokens_of(a) == ts && unary_ok(a),
    decreases ts.len(), 3int,
{
    if ts.len() > 0 {
        lemma_expr_shape(ts, 0);
        match spec_nud(ts[0], ts.drop_first()) {
            Ok(p) => {
                if p.1.len() < ts.len() {
                    lemma_led_loop_zero(p.0, p.1);
                    match spec_led_loop(p.0, p.1, 0) {
                        Ok(q) => {
                            assert(spec_tokens_of(q.0) + q.1 =~= spec_tokens_of(q.0));
                        },
                        Err(_) => {},
                    }
                }
            },
            Err(_) => {},
        }
    }
}

/// Round trip: a successfully parsed tree flattens back to exactly the
/// tokens it was parsed from, and re-parsing that flattening returns the
/// structurally identical tree.
pub proof fn lemma_round_trip_tokens(ts: Seq<Token>, t: Ast)
    requires
        spec_parse_tokens(ts) == Ok::<Ast, AstError>(t),
    ensures
        spec_tokens_of(t) == ts,
        spec_parse_tokens(spec_tokens_of(t)) == Ok::<Ast, AstError>(t),
{
    lemma_parse_tokens_shape(ts);
}

/// The symbol of an operator.
pub open spec fn spec_operator_char(op: Operator) -> char {
    match op {
        Operator::Minus => '-',
        Operator::Plus => '+',
        Operator::Divide => '/',
        Operator::Multiply => '*',
    }
}

/// The rendering of a tree as text: binary operators spaced on both sides,
/// a unary sign attached to its operand, parentheses kept and spaced.
pub open spec fn spec_text_of(t: Ast) -> Seq<char>
    decreases t,
{
    match t {
        Ast::Number(n) => number_text(n),
        Ast::BinaryOperator { operator, left, right } => spec_text_of(*left) + seq![
            ' ',
            spec_operator_char(operator),
            ' ',
        ] + spec_text_of(*right),
        Ast::UnaryOperator { operator, child } => seq![spec_operator_char(operator)]
            + spec_text_of(*child),
        Ast::Parenthesis { child } => seq!['(', ' '] + spec_text_of(*child) + seq![' ', ')'],
    }
}

/// All number leaves hold non-negative finite values: exactly those whose
/// rendering is itself a number literal.
pub open spec fn spec_renderable(t: Ast) -> bool
    decreases t,
{
    match t {
        Ast::Number(n) => is_renderable(n),
        Ast::UnaryOperator { operator, child } => spec_renderable(*child),
        Ast::BinaryOperator { operator, left, right } => spec_renderable(*left) && spec_renderable(
            *right,
        ),
        Ast::Parenthesis { child } => spec_renderable(*child),
    }
}

/// What rendering guarantees of each non-negative finite leaf: its text is
/// one number literal and reads back to the same bit pattern.  `to_text`
/// establishes this for the tree it renders.
pub open spec fn spec_render_facts(t: Ast) -> bool
    decreases t,
{
    match t {
        Ast::Number(n) => is_renderable(n) ==> is_number_literal(number_text(n)) && number_value(
            number_text(n),
        ) == n,
        Ast::UnaryOperator { operator, child } => spec_render_facts(*child),
        Ast::BinaryOperator { operator, left, right } => spec_render_facts(*left)
            && spec_render_facts(*right),
        Ast::Parenthesis { child } => spec_render_facts(*child),
    }
}

fn operator_char(op: Operator) -> (c: char)
    ensures
        c == spec_operator_char(op),
{
    match op {
        Operator::Minus => '-',
        Operator::Plus => '+',
        Operator::Divide => '/',
        Operator::Multiply => '*',
    }
}

impl Ast {
    fn push_text(&self, out: &mut Vec<char>)
        ensures
            final(out)@ == old(out)@ + spec_text_of(*self),
            spec_render_facts(*self),
        decreases *self,
    {
        let ghost out0 = out@;
        match self {
            Ast::Number(n) => {
                let mut lit = number_text_exec(*n);
                out.append(&mut lit);
            },
            Ast::BinaryOperator { operator, left, right } => {
                left.push_text(out);
                out.push(' ');
                out.push(operator_char(*operator));
                out.push(' ');
                right.push_text(out);
                proof {
                    assert(out@ =~= out0 + spec_text_of(*self));
                }
            },
            Ast::UnaryOperator { operator, child } => {
                out.push(operator_char(*operator));
                child.push_text(out);
                proof {
                    assert(out@ =~= out0 + spec_text_of(*self));
                }
            },
            Ast::Parenthesis { child } => {
                out.push('(');
                out.push(' ');
                child.push_text(out);
                out.push(' ');
                out.push(')');
                proof {
                    assert(out@ =~= out0 + spec_text_of(*self));
                }
            },
        }
    }

    /// Render the tree as the text `spec_text_of` describes.
    pub fn to_text(&self) -> (r: String)
        ensures
            r@ == spec_text_of(*self),
            spec_render_facts(*self),
    {
        let mut out: Vec<char> = Vec::new();
        self.push_text(&mut out);
        string_from_chars(&out)
    }
}

/// Lexing a rendered tree inside a longer text: from position `i`, where
/// the tree's rendering sits followed by a space or the end, the lexer
/// yields exactly the tree's token run and then continues behind it.
proof fn lemma_lex_text_at(s: Seq<char>, i: int, t: Ast)
    requires
        spec_renderable(t),
        spec_render_facts(t),
        0 <= i,
        i + spec_text_of(t).len() <= s.len(),
        s.subrange(i, i + spec_text_of(t).len() as int) == spec_text_of(t),
        i + spec_text_of(t).len() == s.len() || s[i + spec_text_of(t).len()] == ' ',
    ensures
        (match spec_lex_from(s, i + spec_text_of(t).len()) {
            Ok(toks) => spec_lex_from(s, i) == Ok::<Seq<Token>, ParseError>(
                spec_tokens_of(t) + toks,
            ),
            Err(e) => spec_lex_from(s, i) == Err::<Seq<Token>, ParseError>(e),
        }),
    decreases t,
{
    let text = spec_text_of(t);
    let tl = text.len() as int;
    assert forall|k: int| 0 <= k < tl implies s[i + k] == #[trigger] text[k] by {
        assert(s.subrange(i, i + tl)[k] == s[i + k]);
    }
    match t {
        Ast::Number(n) => {
            let lit = number_text(n);
            lemma_literal_extent_at(s, i, lit);
            assert(text[0] == lit[0]);
            assert(s[i] == lit[0]);
            assert(is_digit_char(s[i]));
            assert(s.subrange(i, i + tl) == lit);
            match spec_lex_from(s, i + tl) {
                Ok(toks) => {
                    assert(spec_lex_from(s, i) == Ok::<Seq<Token>, ParseError>(seq![
                        Token::Number(n),
                    ] + toks));
                    assert(seq![Token::Number(n)] + toks =~= spec_tokens_of(t) + toks);
                },
                Err(_) => {},
            }
        },
        Ast::UnaryOperator { operator, child } => {
            let c = spec_operator_char(operator);
            let ct = spec_text_of(*child);
            assert(text[0] == c);
            assert(s[i] == c);
            assert(operator_of_char(c) == Some(operator));
            assert(!is_whitespace_char(c));
            assert forall|k: int| 0 <= k < ct.len() as int implies s.subrange(
                i + 1,
                i + 1 + ct.len() as int,
            )[k] == ct[k] by {
                assert(text[1 + k] == ct[k]);
                assert(s.subrange(i + 1, i + 1 + ct.len() as int)[k] == s[i + 1 + k]);
            }
            assert(s.subrange(i + 1, i + 1 + ct.len() as int) =~= ct);
            lemma_lex_text_at(s, i + 1, *child);
            match spec_lex_from(s, i + tl) {
                Ok(toks) => {
                    match spec_lex_from(s, i + 1) {
                        Ok(ts2) => {
                            assert(ts2 == spec_tokens_of(*child) + toks);
                            assert(seq![Token::Operator(operator)] + (spec_tokens_of(*child)
                                + toks) =~= spec_tokens_of(t) + toks);
                        },
                        Err(_) => {},
                    }
                },
                Err(_) => {},
            }
        },
        Ast::BinaryOperator { operator, left, right } => {
            let lt = spec_text_of(*left);
            let rt = spec_text_of(*right);
            let c = spec_operator_char(operator);
            let li = i + lt.len() as int;
            assert(text[lt.len() as int] == ' ' && text[lt.len() as int + 1] == c && text[lt.len()
                as int + 2] == ' ');
            assert(s[li] == ' ' && s[li + 1] == c && s[li + 2] == ' ');
            assert(operator_of_char(c) == Some(operator));
            assert(!is_whitespace_char(c));
            assert forall|k: int| 0 <= k < lt.len() as int implies s.subrange(i, li)[k]
                == lt[k] by {
                assert(text[k] == lt[k]);
                assert(s.subrange(i, li)[k] == s[i + k]);
            }
            assert(s.subrange(i, li) =~= lt);
            lemma_lex_text_at(s, i, *left);
            assert forall|k: int| 0 <= k < rt.len() as int implies s.subrange(
                li + 3,
                li + 3 + rt.len() as int,
            )[k] == rt[k] by {
                assert(text[lt.len() + 3 + k] == rt[k]);
                assert(s.subrange(li + 3, li + 3 + rt.len() as int)[k] == s[li + 3 + k]);
            }
            assert(s.subrange(li + 3, li + 3 + rt.len() as int) =~= rt);
            lemma_lex_text_at(s, li + 3, *right);
            // the spaces around the operator are skipped
            assert(spec_lex_from(s, li) == spec_lex_from(s, li + 1));
            assert(spec_lex_from(s, li + 2) == spec_lex_from(s, li + 3));
            match spec_lex_from(s, i + tl) {
                Ok(toks) => {
                    match spec_lex_from(s, li + 3) {
                        Ok(rts) => {
                            assert(rts == spec_tokens_of(*right) + toks);
                            assert(spec_lex_from(s, li + 1) == Ok::<Seq<Token>, ParseError>(seq![
                                Token::Operator(operator),
                            ] + rts));
                            match spec_lex_from(s, li) {
                                Ok(mid) => {
                                    assert(spec_lex_from(s, i) == Ok::<Seq<Token>, ParseError>(
                                        spec_tokens_of(*left) + mid,
                                    ));
                                    assert(spec_tokens_of(*left) + (seq![Token::Operator(operator)]
                                        + (spec_tokens_of(*right) + toks)) =~= spec_tokens_of(t)
                                        + toks);
                                },
                                Err(_) => {},
                            }
                        },
                        Err(_) => {},
                    }
                },
                Err(e) => {
                    assert(spec_lex_from(s, li + 3) == Err::<Seq<Token>, ParseError>(e));
                    assert(spec_lex_from(s, li + 1) == Err::<Seq<Token>, ParseError>(e));
                    assert(spec_lex_from(s, i) == Err::<Seq<Token>, ParseError>(e));
                },
            }
        },
        Ast::Parenthesis { child } => {
            let ct = spec_text_of(*child);
            let ci = i + 2;
            let j = ci + ct.len() as int;
            assert(text[0] == '(' && text[1] == ' ' && text[2 + ct.len() as int] == ' ' && text[3
                + ct.len() as int] == ')');
            assert(s[i] == '(' && s[i + 1] == ' ' && s[j] == ' ' && s[j + 1] == ')');
            assert(operator_of_char('(') is None && operator_of_char(')') is None);
            assert forall|k: int| 0 <= k < ct.len() as int implies s.subrange(
                ci,
                ci + ct.len() as int,
            )[k] == ct[k] by {
                assert(text[2 + k] == ct[k]);
                assert(s.subrange(ci, ci + ct.len() as int)[k] == s[ci + k]);
            }
            assert(s.subrange(ci, ci + ct.len() as int) =~= ct);
            lemma_lex_text_at(s, ci, *child);
            assert(spec_lex_from(s, i + 1) == spec_lex_from(s, ci));
            assert(spec_lex_from(s, j) == spec_lex_from(s, j + 1));
            match spec_lex_from(s, i + tl) {
                Ok(toks) => {
                    assert(spec_lex_from(s, j + 1) == Ok::<Seq<Token>, ParseError>(seq![
                        Token::CloseParenthesis,
                    ] + toks));
                    match spec_lex_from(s, ci) {
                        Ok(mid) => {
                            assert(mid == spec_tokens_of(*child) + (seq![Token::CloseParenthesis]
                                + toks));
                            assert(spec_lex_from(s, i) == Ok::<Seq<Token>, ParseError>(seq![
                                Token::OpenParenthesis,
                            ] + mid));
                            assert(seq![Token::OpenParenthesis] + (spec_tokens_of(*child) + (seq![
                                Token::CloseParenthesis,
                            ] + toks)) =~= spec_tokens_of(t) + toks);
                        },
                        Err(_) => {},
                    }
                },
                Err(e) => {
                    assert(spec_lex_from(s, j + 1) == Err::<Seq<Token>, ParseError>(e));
                    assert(spec_lex_from(s, ci) == Err::<Seq<Token>, ParseError>(e));
                    assert(spec_lex_from(s, i) == Err::<Seq<Token>, ParseError>(e));
                },
            }
        },
    }
}

/// Round trip through text: rendering a successfully parsed tree and
/// re-parsing the rendering yields the structurally identical tree, for
/// trees whose number leaves are non-negative finite values.  The renderer
/// itself supplies `spec_render_facts` for the tree it rendered.
pub proof fn lemma_text_round_trip(ts: Seq<Token>, t: Ast)
    requires
        spec_parse_tokens(ts) == Ok::<Ast, AstError>(t),
        spec_renderable(t),
        spec_render_facts(t),
    ensures
        spec_tokenize(spec_text_of(t)) == Ok::<Seq<Token>, ParseError>(spec_tokens_of(t)),
        spec_build_ast(spec_text_of(t)) == Ok::<Ast, Error>(t),
{
    lemma_parse_tokens_shape(ts);
    assert(ts.len() > 0);
    let text = spec_text_of(t);
    let tl = text.len() as int;
    assert(text.subrange(0, tl) =~= text);
    lemma_lex_text_at(text, 0, t);
    assert(spec_lex_from(text, tl) == Ok::<Seq<Token>, ParseError>(Seq::empty()));
    assert(spec_tokens_of(t) + Seq::<Token>::empty() =~= spec_tokens_of(t));
}

/// Build the tree for the given text.
pub fn build_ast(s: &str) -> (r: Result<Ast, Error>)
    ensures
        (match spec_build_ast(s@) {
            Ok(t) => r == Ok::<Ast, Error>(t),
            Err(e) => r == Err::<Ast, Error>(e),
        }),
{
    AstBuilder::build_ast(s)
}

} // verus!
