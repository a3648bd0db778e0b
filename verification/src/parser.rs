//! Parsing: a token sequence to a syntax tree.
//!
//! Statements are parsed by recursive descent and expressions by
//! precedence climbing with two binding levels, sums below products.
//! The mathematical parser is layered by precedence: a primary is one
//! token, `spec_parse_product` folds maximal `* /` runs and
//! `spec_parse_sum_rest` folds maximal `+ -` runs, which yields the
//! left-associative grouping; the executable `Parser` is proved to
//! return exactly what the mathematical one says.

use crate::ast::Expression;
use crate::ast::ExpressionView;
use crate::ast::LetStatement;
use crate::ast::LetStatementView;
use crate::ast::PrintStatement;
use crate::ast::PrintStatementView;
use crate::ast::Program;
use crate::ast::Statement;
use crate::ast::StatementView;
use crate::ast::statement_views;
use crate::lexer::Token;
use crate::lexer::TokenView;
use crate::lexer::token_views;
use vstd::prelude::*;

verus! {

/// A fatal parsing failure, carrying the unexpected token.
#[derive(Debug, Clone, PartialEq)]
pub enum ParseError {
    /// A token that cannot start a statement.
    ExpectedStatement { found: Token },
    /// A missing variable name after the `let` keyword.
    ExpectedIdentifier { found: Token },
    /// A missing `=` after the variable name of a `let`.
    ExpectedEquals { found: Token },
    /// A token that cannot start an expression.
    ExpectedExpression { found: Token },
}

/// The mathematical value of a `ParseError`.
pub enum ParseErrorView {
    ExpectedStatement { found: TokenView },
    ExpectedIdentifier { found: TokenView },
    ExpectedEquals { found: TokenView },
    ExpectedExpression { found: TokenView },
}

impl View for ParseError {
    type V = ParseErrorView;

    open spec fn view(&self) -> ParseErrorView {
        match self {
            ParseError::ExpectedStatement { found } => ParseErrorView::ExpectedStatement {
                found: found@,
            },
            ParseError::ExpectedIdentifier { found } => ParseErrorView::ExpectedIdentifier {
                found: found@,
            },
            ParseError::ExpectedEquals { found } => ParseErrorView::ExpectedEquals {
                found: found@,
            },
            ParseError::ExpectedExpression { found } => ParseErrorView::ExpectedExpression {
                found: found@,
            },
        }
    }
}

/// The token at `pos`, with end-of-input standing in for any position
/// outside the sequence.
pub open spec fn tok_at(toks: Seq<TokenView>, pos: int) -> TokenView {
    if 0 <= pos < toks.len() {
        toks[pos]
    } else {
        TokenView::Eof
    }
}

/// The binding strength of a token in operator position: products bind
/// above sums, and every non-operator token binds below both, which is
/// what ends an expression.
pub open spec fn prec_of(t: TokenView) -> int {
    match t {
        TokenView::Plus => 1,
        TokenView::Minus => 1,
        TokenView::Star => 2,
        TokenView::Slash => 2,
        _ => 0,
    }
}

/// A primary expression: one identifier or one number literal.
pub open spec fn spec_parse_primary(toks: Seq<TokenView>, pos: int) -> Result<
    (ExpressionView, int),
    ParseErrorView,
> {
    match tok_at(toks, pos) {
        TokenView::Identifier(name) => Ok((ExpressionView::Identifier(name), pos + 1)),
        TokenView::Number(bits) => Ok((ExpressionView::NumberLiteral(bits), pos + 1)),
        t => Err(ParseErrorView::ExpectedExpression { found: t }),
    }
}

/// Folds `* /` operators onto `left` while they stand at the cursor,
/// grouping to the left.
pub open spec fn spec_parse_product_rest(
    toks: Seq<TokenView>,
    left: ExpressionView,
    pos: int,
) -> Result<(ExpressionView, int), ParseErrorView>
    decreases toks.len() - pos,
    when 0 <= pos
{
    let t = tok_at(toks, pos);
    if t is Star || t is Slash {
        match spec_parse_primary(toks, pos + 1) {
            Ok((right, pos2)) => spec_parse_product_rest(
                toks,
                ExpressionView::Infix {
                    left: Box::new(left),
                    operator: t,
                    right: Box::new(right),
                },
                pos2,
            ),
            Err(e) => Err(e),
        }
    } else {
        Ok((left, pos))
    }
}

/// A product: a primary followed by its maximal `* /` run.
pub open spec fn spec_parse_product(toks: Seq<TokenView>, pos: int) -> Result<
    (ExpressionView, int),
    ParseErrorView,
> {
    match spec_parse_primary(toks, pos) {
        Ok((left, pos1)) => spec_parse_product_rest(toks, left, pos1),
        Err(e) => Err(e),
    }
}

/// The cursor after a product run stands below product strength and
/// inside the sequence.
pub proof fn lemma_product_rest_props(toks: Seq<TokenView>, left: ExpressionView, pos: int)
    requires
        0 <= pos <= toks.len(),
    ensures
        match spec_parse_product_rest(toks, left, pos) {
            Ok((l, p)) => pos <= p <= toks.len() && prec_of(tok_at(toks, p)) < 2,
            Err(_) => true,
        },
    decreases toks.len() - pos,
{
    let t = tok_at(toks, pos);
    if t is Star || t is Slash {
        match spec_parse_primary(toks, pos + 1) {
            Ok((right, pos2)) => {
                lemma_product_rest_props(
                    toks,
                    ExpressionView::Infix {
                        left: Box::new(left),
                        operator: t,
                        right: Box::new(right),
                    },
                    pos2,
                );
            },
            Err(_) => {},
        }
    }
}

/// The cursor after a product stands past its first token, below
/// product strength and inside the sequence.
pub proof fn lemma_product_props(toks: Seq<TokenView>, pos: int)
    requires
        0 <= pos <= toks.len(),
    ensures
        match spec_parse_product(toks, pos) {
            Ok((l, p)) => pos + 1 <= p <= toks.len() && prec_of(tok_at(toks, p)) < 2,
            Err(_) => true,
        },
{
    match spec_parse_primary(toks, pos) {
        Ok((left, pos1)) => {
            lemma_product_rest_props(toks, left, pos1);
        },
        Err(_) => {},
    }
}

/// Folds `+ -` operators onto `left` while they stand at the cursor,
/// each followed by a whole product, grouping to the left.
pub open spec fn spec_parse_sum_rest(
    toks: Seq<TokenView>,
    left: ExpressionView,
    pos: int,
) -> Result<(ExpressionView, int), ParseErrorView>
    decreases toks.len() - pos,
    when 0 <= pos <= toks.len()
    via spec_parse_sum_rest_decreases
{
    let t = tok_at(toks, pos);
    if t is Plus || t is Minus {
        match spec_parse_product(toks, pos + 1) {
            Ok((right, pos2)) => spec_parse_sum_rest(
                toks,
                ExpressionView::Infix {
                    left: Box::new(left),
                    operator: t,
                    right: Box::new(right),
                },
                pos2,
            ),
            Err(e) => Err(e),
        }
    } else {
        Ok((left, pos))
    }
}

#[via_fn]
proof fn spec_parse_sum_rest_decreases(toks: Seq<TokenView>, left: ExpressionView, pos: int) {
    let t = tok_at(toks, pos);
    if t is Plus || t is Minus {
        lemma_product_props(toks, pos + 1);
    }
}

/// The cursor after a sum run never moves backwards and stays inside
/// the sequence.
pub proof fn lemma_sum_rest_props(toks: Seq<TokenView>, left: ExpressionView, pos: int)
    requires
        0 <= pos <= toks.len(),
    ensures
        match spec_parse_sum_rest(toks, left, pos) {
            Ok((l, p)) => pos <= p <= toks.len(),
            Err(_) => true,
        },
    decreases toks.len() - pos,
{
    let t = tok_at(toks, pos);
    if t is Plus || t is Minus {
        lemma_product_props(toks, pos + 1);
        match spec_parse_product(toks, pos + 1) {
            Ok((right, pos2)) => {
                lemma_sum_rest_props(
                    toks,
                    ExpressionView::Infix {
                        left: Box::new(left),
                        operator: t,
                        right: Box::new(right),
                    },
                    pos2,
                );
            },
            Err(_) => {},
        }
    }
}

/// A whole expression at the lowest binding level: a product followed
/// by its maximal `+ -` run.
pub open spec fn spec_parse_expression(toks: Seq<TokenView>, pos: int) -> Result<
    (ExpressionView, int),
    ParseErrorView,
> {
    match spec_parse_product(toks, pos) {
        Ok((left, pos1)) => spec_parse_sum_rest(toks, left, pos1),
        Err(e) => Err(e),
    }
}

/// The cursor after an expression stands past its first token and
/// inside the sequence.
pub proof fn lemma_expression_props(toks: Seq<TokenView>, pos: int)
    requires
        0 <= pos <= toks.len(),
    ensures
        match spec_parse_expression(toks, pos) {
            Ok((l, p)) => pos + 1 <= p <= toks.len(),
            Err(_) => true,
        },
{
    lemma_product_props(toks, pos);
    match spec_parse_product(toks, pos) {
        Ok((left, pos1)) => {
            lemma_sum_rest_props(toks, left, pos1);
        },
        Err(_) => {},
    }
}

/// What the executable expression parser computes when called with the
/// given minimal binding level: the whole expression at level 0, a
/// product at level 1, a primary at level 2.
pub open spec fn spec_parse_at_level(toks: Seq<TokenView>, pos: int, level: int) -> Result<
    (ExpressionView, int),
    ParseErrorView,
> {
    if level == 0 {
        spec_parse_expression(toks, pos)
    } else if level == 1 {
        spec_parse_product(toks, pos)
    } else {
        spec_parse_primary(toks, pos)
    }
}

/// What remains of `spec_parse_at_level` once the leading primary has
/// been folded into `left`.
pub open spec fn spec_continue_at_level(
    toks: Seq<TokenView>,
    left: ExpressionView,
    pos: int,
    level: int,
) -> Result<(ExpressionView, int), ParseErrorView> {
    if level == 0 {
        match spec_parse_product_rest(toks, left, pos) {
            Ok((l2, p2)) => spec_parse_sum_rest(toks, l2, p2),
            Err(e) => Err(e),
        }
    } else if level == 1 {
        spec_parse_product_rest(toks, left, pos)
    } else {
        Ok((left, pos))
    }
}

/// Parsing at a level is the leading primary followed by the level's
/// continuation.
pub proof fn lemma_parse_at_level_decompose(toks: Seq<TokenView>, pos: int, level: int)
    ensures
        spec_parse_at_level(toks, pos, level) == (match spec_parse_primary(toks, pos) {
            Ok((l, p)) => spec_continue_at_level(toks, l, p, level),
            Err(e) => Err(e),
        }),
{
}

/// A `let` statement: the keyword, a name, `=`, an expression and an
/// optional terminator.
pub open spec fn spec_parse_let(toks: Seq<TokenView>, pos: int) -> Result<
    (StatementView, int),
    ParseErrorView,
> {
    match tok_at(toks, pos + 1) {
        TokenView::Identifier(name) => {
            if tok_at(toks, pos + 2) is Equals {
                match spec_parse_expression(toks, pos + 3) {
                    Ok((value, pos4)) => {
                        let pos5 = if tok_at(toks, pos4) is Semicolon {
                            pos4 + 1
                        } else {
                            pos4
                        };
                        Ok((StatementView::Let(LetStatementView { name, value }), pos5))
                    },
                    Err(e) => Err(e),
                }
            } else {
                Err(ParseErrorView::ExpectedEquals { found: tok_at(toks, pos + 2) })
            }
        },
        t => Err(ParseErrorView::ExpectedIdentifier { found: t }),
    }
}

/// A `print` statement: the keyword, an expression and an optional
/// terminator.
pub open spec fn spec_parse_print(toks: Seq<TokenView>, pos: int) -> Result<
    (StatementView, int),
    ParseErrorView,
> {
    match spec_parse_expression(toks, pos + 1) {
        Ok((value, pos2)) => {
            let pos3 = if tok_at(toks, pos2) is Semicolon {
                pos2 + 1
            } else {
                pos2
            };
            Ok((StatementView::Print(PrintStatementView { value }), pos3))
        },
        Err(e) => Err(e),
    }
}

/// One statement, selected by the token at the cursor.
pub open spec fn spec_parse_statement(toks: Seq<TokenView>, pos: int) -> Result<
    (StatementView, int),
    ParseErrorView,
> {
    match tok_at(toks, pos) {
        TokenView::Let => spec_parse_let(toks, pos),
        TokenView::Print => spec_parse_print(toks, pos),
        t => Err(ParseErrorView::ExpectedStatement { found: t }),
    }
}

/// The cursor after a statement stands past its first token and inside
/// the sequence.
pub proof fn lemma_statement_props(toks: Seq<TokenView>, pos: int)
    requires
        0 <= pos <= toks.len(),
    ensures
        match spec_parse_statement(toks, pos) {
            Ok((s, p)) => pos + 1 <= p <= toks.len(),
            Err(_) => true,
        },
{
    match tok_at(toks, pos) {
        TokenView::Let => {
            if tok_at(toks, pos + 1) is Identifier && tok_at(toks, pos + 2) is Equals {
                lemma_expression_props(toks, pos + 3);
            }
        },
        TokenView::Print => {
            lemma_expression_props(toks, pos + 1);
        },
        _ => {},
    }
}

/// Zero or more statements up to the end of the input.
pub open spec fn spec_parse_program(toks: Seq<TokenView>, pos: int) -> Result<
    Seq<StatementView>,
    ParseErrorView,
>
    decreases toks.len() - pos,
    when 0 <= pos <= toks.len()
    via spec_parse_program_decreases
{
    if tok_at(toks, pos) is Eof {
        Ok(Seq::empty())
    } else {
        match spec_parse_statement(toks, pos) {
            Ok((stmt, pos1)) => match spec_parse_program(toks, pos1) {
                Ok(rest) => Ok(seq![stmt] + rest),
                Err(e) => Err(e),
            },
            Err(e) => Err(e),
        }
    }
}

#[via_fn]
proof fn spec_parse_program_decreases(toks: Seq<TokenView>, pos: int) {
    if !(tok_at(toks, pos) is Eof) {
        lemma_statement_props(toks, pos);
    }
}

/// Prepends already-parsed statements to the outcome of parsing the
/// rest.
pub open spec fn with_statements(
    prefix: Seq<StatementView>,
    rest: Result<Seq<StatementView>, ParseErrorView>,
) -> Result<Seq<StatementView>, ParseErrorView> {
    match rest {
        Ok(ss) => Ok(prefix + ss),
        Err(e) => Err(e),
    }
}

/// Folding one statement into the parsed prefix.
proof fn lemma_with_statements_step(
    prefix: Seq<StatementView>,
    s: StatementView,
    rest: Result<Seq<StatementView>, ParseErrorView>,
)
    ensures
        with_statements(prefix, match rest {
            Ok(ss) => Ok(seq![s] + ss),
            Err(e) => Err(e),
        }) == with_statements(prefix.push(s), rest),
{
    match rest {
        Ok(ss) => {
            assert(prefix + (seq![s] + ss) =~= prefix.push(s) + ss);
        },
        Err(_) => {},
    }
}

/// The views of a statement sequence extended by one statement.
proof fn lemma_statement_views_push(statements: Seq<Statement>, s: Statement)
    ensures
        statement_views(statements.push(s)) == statement_views(statements).push(s@),
{
    assert(statement_views(statements.push(s)) =~= statement_views(statements).push(s@));
}

/// The parser: it owns the token sequence and a cursor into it.
pub struct Parser {
    tokens: Vec<Token>,
    position: usize,
}

impl View for Parser {
    type V = Seq<TokenView>;

    closed spec fn view(&self) -> Seq<TokenView> {
        token_views(self.tokens@)
    }
}

impl Parser {
    /// The cursor, as a token offset.
    pub closed spec fn pos(self) -> int {
        self.position as int
    }

    /// The cursor lies inside the token sequence or just past it.
    pub closed spec fn wf(self) -> bool {
        0 <= self.position <= self.tokens@.len()
    }

    /// A parser over `tokens`, with the cursor at the start.  Operator
    /// strength is given by `get_precedence`.
    pub fn new(tokens: Vec<Token>) -> (parser: Parser)
        ensures
            parser.wf(),
            parser@ == token_views(tokens@),
            parser.pos() == 0,
    {
        Parser { tokens, position: 0 }
    }

    /// The binding strength of a token in operator position.
    pub fn get_precedence(&self, token: &Token) -> (p: u8)
        ensures
            p as int == prec_of(token@),
    {
        match token {
            Token::Plus => 1,
            Token::Minus => 1,
            Token::Star => 2,
            Token::Slash => 2,
            _ => 0,
        }
    }

    /// True at the end-of-input token.
    fn is_at_end(&self) -> (r: bool)
        requires
            self.wf(),
        ensures
            r == (tok_at(self@, self.pos()) is Eof),
    {
        if self.position < self.tokens.len() {
            proof {
                assert(self@[self.pos()] == self.tokens@[self.pos()]@);
            }
            matches!(self.tokens[self.position], Token::Eof)
        } else {
            true
        }
    }

    /// The token at the cursor, end-of-input where the cursor is past
    /// the sequence.
    fn current_token(&self) -> (t: Token)
        requires
            self.wf(),
        ensures
            t@ == tok_at(self@, self.pos()),
    {
        if self.position < self.tokens.len() {
            proof {
                assert(self@[self.pos()] == self.tokens@[self.pos()]@);
            }
            self.tokens[self.position].dup()
        } else {
            Token::Eof
        }
    }

    /// The binding strength of the token at the cursor.
    fn cursor_precedence(&self) -> (p: u8)
        requires
            self.wf(),
        ensures
            p as int == prec_of(tok_at(self@, self.pos())),
    {
        let t = self.current_token();
        self.get_precedence(&t)
    }

    /// Moves the cursor one token forward, except at end-of-input.
    fn advance(&mut self)
        requires
            old(self).wf(),
        ensures
            final(self).wf(),
            final(self)@ == old(self)@,
            final(self).pos() == if tok_at(old(self)@, old(self).pos()) is Eof {
                old(self).pos()
            } else {
                old(self).pos() + 1
            },
    {
        if !self.is_at_end() {
            let n = self.tokens.len();
            proof {
                assert(self.tokens@.len() == self@.len());
                assert(self.pos() < n as int);
            }
            self.position = self.position + 1;
        }
    }

    /// Parses a primary expression at the cursor: what
    /// `spec_parse_primary` says.
    fn parse_prefix(&mut self) -> (r: Result<Expression, ParseError>)
        requires
            old(self).wf(),
        ensures
            final(self).wf(),
            final(self)@ == old(self)@,
            old(self).pos() <= final(self).pos(),
            match r {
                Ok(e) => spec_parse_primary(old(self)@, old(self).pos()) == Ok::<
                    (ExpressionView, int),
                    ParseErrorView,
                >((e@, final(self).pos())),
                Err(pe) => spec_parse_primary(old(self)@, old(self).pos()) == Err::<
                    (ExpressionView, int),
                    ParseErrorView,
                >(pe@) && final(self).pos() == old(self).pos(),
            },
    {
        let token = self.current_token();
        match token {
            Token::Identifier(name) => {
                self.advance();
                Ok(Expression::Identifier(name))
            },
            Token::Number(n) => {
                self.advance();
                Ok(Expression::NumberLiteral(n.0))
            },
            t => Err(ParseError::ExpectedExpression { found: t }),
        }
    }

    /// Parses an expression whose operators all bind above
    /// `precedence`: what `spec_parse_at_level` says.  Equal strengths
    /// do not continue a level, which groups runs of one level to the
    /// left.
    fn parse_expression(&mut self, precedence: u8) -> (r: Result<Expression, ParseError>)
        requires
            old(self).wf(),
            precedence <= 2,
        ensures
            final(self).wf(),
            final(self)@ == old(self)@,
            old(self).pos() <= final(self).pos(),
            match r {
                Ok(e) => spec_parse_at_level(old(self)@, old(self).pos(), precedence as int)
                    == Ok::<(ExpressionView, int), ParseErrorView>((e@, final(self).pos())),
                Err(pe) => spec_parse_at_level(old(self)@, old(self).pos(), precedence as int)
                    == Err::<(ExpressionView, int), ParseErrorView>(pe@),
            },
        decreases old(self)@.len() - old(self).pos(),
    {
        let ghost toks = self@;
        let ghost pos0 = self.pos();
        proof {
            lemma_parse_at_level_decompose(toks, pos0, precedence as int);
        }
        let mut left_expr = match self.parse_prefix() {
            Ok(e) => e,
            Err(e) => {
                return Err(e);
            },
        };
        while precedence < self.cursor_precedence()
            invariant
                self.wf(),
                self@ == toks,
                toks == old(self)@,
                precedence <= 2,
                0 <= pos0 <= toks.len(),
                pos0 == old(self).pos(),
                pos0 < self.pos() <= toks.len(),
                spec_continue_at_level(toks, left_expr@, self.pos(), precedence as int)
                    == spec_parse_at_level(toks, pos0, precedence as int),
            decreases toks.len() - self.pos(),
        {
            let ghost pos1 = self.pos();
            let operator = self.current_token();
            let op_prec = self.get_precedence(&operator);
            self.advance();
            let ghost t = tok_at(toks, pos1);
            let ghost lv = left_expr@;
            let right = match self.parse_expression(op_prec) {
                Ok(e) => e,
                Err(e) => {
                    proof {
                        if t is Plus || t is Minus {
                            assert(spec_parse_product_rest(toks, lv, pos1) == Ok::<
                                (ExpressionView, int),
                                ParseErrorView,
                            >((lv, pos1)));
                            assert(spec_parse_sum_rest(toks, lv, pos1) == Err::<
                                (ExpressionView, int),
                                ParseErrorView,
                            >(e@));
                        } else {
                            assert(spec_parse_product_rest(toks, lv, pos1) == Err::<
                                (ExpressionView, int),
                                ParseErrorView,
                            >(e@));
                        }
                    }
                    return Err(e);
                },
            };
            proof {
                let p2 = self.pos();
                let inf = ExpressionView::Infix {
                    left: Box::new(lv),
                    operator: t,
                    right: Box::new(right@),
                };
                lemma_product_props(toks, pos1 + 1);
                if t is Plus || t is Minus {
                    assert(spec_parse_product_rest(toks, lv, pos1) == Ok::<
                        (ExpressionView, int),
                        ParseErrorView,
                    >((lv, pos1)));
                    assert(spec_parse_sum_rest(toks, lv, pos1) == spec_parse_sum_rest(
                        toks,
                        inf,
                        p2,
                    ));
                    assert(spec_parse_product_rest(toks, inf, p2) == Ok::<
                        (ExpressionView, int),
                        ParseErrorView,
                    >((inf, p2)));
                } else {
                    assert(spec_parse_product_rest(toks, lv, pos1) == spec_parse_product_rest(
                        toks,
                        inf,
                        p2,
                    ));
                }
            }
            left_expr = Expression::Infix {
                left: Box::new(left_expr),
                operator,
                right: Box::new(right),
            };
        }
        proof {
            let t = tok_at(toks, self.pos());
            assert(prec_of(t) <= precedence as int);
            if precedence == 0 || precedence == 1 {
                assert(spec_parse_product_rest(toks, left_expr@, self.pos()) == Ok::<
                    (ExpressionView, int),
                    ParseErrorView,
                >((left_expr@, self.pos())));
                if precedence == 0 {
                    assert(spec_parse_sum_rest(toks, left_expr@, self.pos()) == Ok::<
                        (ExpressionView, int),
                        ParseErrorView,
                    >((left_expr@, self.pos())));
                }
            }
        }
        Ok(left_expr)
    }

    /// Parses a `let` statement at the cursor: what `spec_parse_let`
    /// says.
    fn parse_let_statement(&mut self) -> (r: Result<Statement, ParseError>)
        requires
            old(self).wf(),
            tok_at(old(self)@, old(self).pos()) is Let,
        ensures
            final(self).wf(),
            final(self)@ == old(self)@,
            old(self).pos() <= final(self).pos(),
            match r {
                Ok(stmt) => spec_parse_let(old(self)@, old(self).pos()) == Ok::<
                    (StatementView, int),
                    ParseErrorView,
                >((stmt@, final(self).pos())),
                Err(pe) => spec_parse_let(old(self)@, old(self).pos()) == Err::<
                    (StatementView, int),
                    ParseErrorView,
                >(pe@),
            },
        decreases old(self)@.len() - old(self).pos(),
    {
        self.advance();
        let name = match self.current_token() {
            Token::Identifier(name) => {
                self.advance();
                name
            },
            t => {
                return Err(ParseError::ExpectedIdentifier { found: t });
            },
        };
        match self.current_token() {
            Token::Equals => {
                self.advance();
            },
            t => {
                return Err(ParseError::ExpectedEquals { found: t });
            },
        }
        let value = match self.parse_expression(0) {
            Ok(v) => v,
            Err(e) => {
                return Err(e);
            },
        };
        match self.current_token() {
            Token::Semicolon => {
                self.advance();
            },
            _ => {},
        }
        Ok(Statement::Let(LetStatement { name, value }))
    }

    /// Parses a `print` statement at the cursor: what
    /// `spec_parse_print` says.
    fn parse_print_statement(&mut self) -> (r: Result<Statement, ParseError>)
        requires
            old(self).wf(),
            tok_at(old(self)@, old(self).pos()) is Print,
        ensures
            final(self).wf(),
            final(self)@ == old(self)@,
            old(self).pos() <= final(self).pos(),
            match r {
                Ok(stmt) => spec_parse_print(old(self)@, old(self).pos()) == Ok::<
                    (StatementView, int),
                    ParseErrorView,
                >((stmt@, final(self).pos())),
                Err(pe) => spec_parse_print(old(self)@, old(self).pos()) == Err::<
                    (StatementView, int),
                    ParseErrorView,
                >(pe@),
            },
        decreases old(self)@.len() - old(self).pos(),
    {
        self.advance();
        let value = match self.parse_expression(0) {
            Ok(v) => v,
            Err(e) => {
                return Err(e);
            },
        };
        match self.current_token() {
            Token::Semicolon => {
                self.advance();
            },
            _ => {},
        }
        Ok(Statement::Print(PrintStatement { value }))
    }

    /// Parses one statement at the cursor: what `spec_parse_statement`
    /// says.
    fn parse_statement(&mut self) -> (r: Result<Statement, ParseError>)
        requires
            old(self).wf(),
        ensures
            final(self).wf(),
            final(self)@ == old(self)@,
            old(self).pos() <= final(self).pos(),
            match r {
                Ok(stmt) => spec_parse_statement(old(self)@, old(self).pos()) == Ok::<
                    (StatementView, int),
                    ParseErrorView,
                >((stmt@, final(self).pos())),
                Err(pe) => spec_parse_statement(old(self)@, old(self).pos()) == Err::<
                    (StatementView, int),
                    ParseErrorView,
                >(pe@),
            },
        decreases old(self)@.len() - old(self).pos() + 1,
    {
        match self.current_token() {
            Token::Let => self.parse_let_statement(),
            Token::Print => self.parse_print_statement(),
            t => Err(ParseError::ExpectedStatement { found: t }),
        }
    }

    /// Parses the whole token sequence into a program: what
    /// `spec_parse_program` says from the cursor on.
    pub fn parse_program(&mut self) -> (r: Result<Program, ParseError>)
        requires
            old(self).wf(),
        ensures
            final(self).wf(),
            final(self)@ == old(self)@,
            match r {
                Ok(program) => spec_parse_program(old(self)@, old(self).pos()) == Ok::<
                    Seq<StatementView>,
                    ParseErrorView,
                >(program@),
                Err(pe) => spec_parse_program(old(self)@, old(self).pos()) == Err::<
                    Seq<StatementView>,
                    ParseErrorView,
                >(pe@),
            },
    {
        let ghost toks = self@;
        let ghost pos0 = self.pos();
        let mut statements: Vec<Statement> = Vec::new();
        while !self.is_at_end()
            invariant
                self.wf(),
                self@ == toks,
                toks == old(self)@,
                0 <= pos0 <= toks.len(),
                pos0 == old(self).pos(),
                pos0 <= self.pos() <= toks.len(),
                spec_parse_program(toks, pos0) == with_statements(
                    statement_views(statements@),
                    spec_parse_program(toks, self.pos()),
                ),
            decreases toks.len() - self.pos(),
        {
            let ghost pos1 = self.pos();
            proof {
                lemma_statement_props(toks, pos1);
            }
            match self.parse_statement() {
                Ok(stmt) => {
                    proof {
                        lemma_with_statements_step(
                            statement_views(statements@),
                            stmt@,
                            spec_parse_program(toks, self.pos()),
                        );
                        lemma_statement_views_push(statements@, stmt);
                    }
                    statements.push(stmt);
                },
                Err(e) => {
                    return Err(e);
                },
            }
        }
        proof {
            assert(spec_parse_program(toks, self.pos()) == Ok::<
                Seq<StatementView>,
                ParseErrorView,
            >(Seq::empty()));
            assert(statement_views(statements@) + Seq::<StatementView>::empty() =~= statement_views(
                statements@,
            ));
        }
        Ok(Program { statements })
    }
}

} // verus!

verus! {

/// Left associativity: two operators of the sum level around three
/// number literals group as `(a op1 b) op2 c`, never `a op1 (b op2 c)`,
/// whatever the literals are.
pub proof fn lemma_sum_level_left_associative(a: u64, op1: TokenView, b: u64, op2: TokenView, c: u64)
    requires
        op1 is Plus || op1 is Minus,
        op2 is Plus || op2 is Minus,
    ensures
        spec_parse_expression(
            seq![
                TokenView::Number(a),
                op1,
                TokenView::Number(b),
                op2,
                TokenView::Number(c),
                TokenView::Eof,
            ],
            0,
        ) == Ok::<(ExpressionView, int), ParseErrorView>(
            (
                ExpressionView::Infix {
                    left: Box::new(ExpressionView::Infix {
                        left: Box::new(ExpressionView::NumberLiteral(a)),
                        operator: op1,
                        right: Box::new(ExpressionView::NumberLiteral(b)),
                    }),
                    operator: op2,
                    right: Box::new(ExpressionView::NumberLiteral(c)),
                },
                5,
            ),
        ),
{
    reveal_with_fuel(spec_parse_sum_rest, 4);
    reveal_with_fuel(spec_parse_product_rest, 4);
}

/// The product level binds above the sum level: a sum operator followed
/// by a product groups the product on the right, `a opsum (b opprod c)`,
/// whatever the literals are.
pub proof fn lemma_product_binds_tighter(
    a: u64,
    opsum: TokenView,
    b: u64,
    opprod: TokenView,
    c: u64,
)
    requires
        opsum is Plus || opsum is Minus,
        opprod is Star || opprod is Slash,
    ensures
        spec_parse_expression(
            seq![
                TokenView::Number(a),
                opsum,
                TokenView::Number(b),
                opprod,
                TokenView::Number(c),
                TokenView::Eof,
            ],
            0,
        ) == Ok::<(ExpressionView, int), ParseErrorView>(
            (
                ExpressionView::Infix {
                    left: Box::new(ExpressionView::NumberLiteral(a)),
                    operator: opsum,
                    right: Box::new(ExpressionView::Infix {
                        left: Box::new(ExpressionView::NumberLiteral(b)),
                        operator: opprod,
                        right: Box::new(ExpressionView::NumberLiteral(c)),
                    }),
                },
                5,
            ),
        ),
{
    reveal_with_fuel(spec_parse_sum_rest, 4);
    reveal_with_fuel(spec_parse_product_rest, 4);
}

} // verus!

verus! {

/// A well-formed expression: every infix node carries one of the four
/// arithmetic operator tokens.
pub open spec fn wf_expression(e: ExpressionView) -> bool
    decreases e,
{
    match e {
        ExpressionView::Identifier(_) => true,
        ExpressionView::NumberLiteral(_) => true,
        ExpressionView::Infix { left, operator, right } => prec_of(operator) >= 1
            && wf_expression(*left) && wf_expression(*right),
    }
}

/// A well-formed statement: its expression is well-formed.
pub open spec fn wf_statement(s: StatementView) -> bool {
    match s {
        StatementView::Let(ls) => wf_expression(ls.value),
        StatementView::Print(ps) => wf_expression(ps.value),
    }
}

/// The product run preserves well-formedness: it only adds infix nodes
/// whose operator is `*` or `/`.
proof fn lemma_product_rest_wf(toks: Seq<TokenView>, left: ExpressionView, pos: int)
    requires
        0 <= pos,
        wf_expression(left),
    ensures
        match spec_parse_product_rest(toks, left, pos) {
            Ok((l, p)) => wf_expression(l),
            Err(_) => true,
        },
    decreases toks.len() - pos,
{
    let t = tok_at(toks, pos);
    if t is Star || t is Slash {
        match spec_parse_primary(toks, pos + 1) {
            Ok((right, pos2)) => {
                assert(wf_expression(right));
                lemma_product_rest_wf(
                    toks,
                    ExpressionView::Infix {
                        left: Box::new(left),
                        operator: t,
                        right: Box::new(right),
                    },
                    pos2,
                );
            },
            Err(_) => {},
        }
    }
}

/// A parsed product is well-formed.
proof fn lemma_product_wf(toks: Seq<TokenView>, pos: int)
    requires
        0 <= pos <= toks.len(),
    ensures
        match spec_parse_product(toks, pos) {
            Ok((l, p)) => wf_expression(l),
            Err(_) => true,
        },
{
    match spec_parse_primary(toks, pos) {
        Ok((left, pos1)) => {
            lemma_product_rest_wf(toks, left, pos1);
        },
        Err(_) => {},
    }
}

/// The sum run preserves well-formedness: it only adds infix nodes
/// whose operator is `+` or `-` and whose right side is a well-formed
/// product.
proof fn lemma_sum_rest_wf(toks: Seq<TokenView>, left: ExpressionView, pos: int)
    requires
        0 <= pos <= toks.len(),
        wf_expression(left),
    ensures
        match spec_parse_sum_rest(toks, left, pos) {
            Ok((l, p)) => wf_expression(l),
            Err(_) => true,
        },
    decreases toks.len() - pos,
{
    let t = tok_at(toks, pos);
    if t is Plus || t is Minus {
        lemma_product_props(toks, pos + 1);
        lemma_product_wf(toks, pos + 1);
        match spec_parse_product(toks, pos + 1) {
            Ok((right, pos2)) => {
                lemma_sum_rest_wf(
                    toks,
                    ExpressionView::Infix {
                        left: Box::new(left),
                        operator: t,
                        right: Box::new(right),
                    },
                    pos2,
                );
            },
            Err(_) => {},
        }
    }
}

/// Every expression the parser accepts is well-formed: each of its
/// infix nodes carries one of the four arithmetic operator tokens.
pub proof fn lemma_expression_wf(toks: Seq<TokenView>, pos: int)
    requires
        0 <= pos <= toks.len(),
    ensures
        match spec_parse_expression(toks, pos) {
            Ok((l, p)) => wf_expression(l),
            Err(_) => true,
        },
{
    lemma_product_props(toks, pos);
    lemma_product_wf(toks, pos);
    match spec_parse_product(toks, pos) {
        Ok((left, pos1)) => {
            lemma_sum_rest_wf(toks, left, pos1);
        },
        Err(_) => {},
    }
}

/// Every statement the parser accepts is well-formed.
pub proof fn lemma_statement_wf(toks: Seq<TokenView>, pos: int)
    requires
        0 <= pos <= toks.len(),
    ensures
        match spec_parse_statement(toks, pos) {
            Ok((s, p)) => wf_statement(s),
            Err(_) => true,
        },
{
    match tok_at(toks, pos) {
        TokenView::Let => {
            if tok_at(toks, pos + 1) is Identifier && tok_at(toks, pos + 2) is Equals {
                lemma_expression_wf(toks, pos + 3);
            }
        },
        TokenView::Print => {
            lemma_expression_wf(toks, pos + 1);
        },
        _ => {},
    }
}

/// Every statement of a program the parser accepts is well-formed.
pub proof fn lemma_program_wf(toks: Seq<TokenView>, pos: int)
    requires
        0 <= pos <= toks.len(),
    ensures
        match spec_parse_program(toks, pos) {
            Ok(stmts) => forall|i: int| 0 <= i < stmts.len() ==> wf_statement(#[trigger] stmts[i]),
            Err(_) => true,
        },
    decreases toks.len() - pos,
{
    if !(tok_at(toks, pos) is Eof) {
        lemma_statement_props(toks, pos);
        lemma_statement_wf(toks, pos);
        match spec_parse_statement(toks, pos) {
            Ok((stmt, pos1)) => {
                lemma_program_wf(toks, pos1);
                match spec_parse_program(toks, pos1) {
                    Ok(rest) => {
                        assert forall|i: int| 0 <= i < (seq![stmt] + rest).len() implies wf_statement(
                            #[trigger] (seq![stmt] + rest)[i],
                        ) by {
                            if i > 0 {
                                assert((seq![stmt] + rest)[i] == rest[i - 1]);
                            }
                        }
                    },
                    Err(_) => {},
                }
            },
            Err(_) => {},
        }
    }
}

} // verus!
