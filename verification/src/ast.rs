//! The syntax tree: programs, statements and expressions, with their
//! mathematical views.
//!
//! A numeric literal carries the bit pattern of its IEEE-754 binary64
//! value; identifier text is a `String` whose view is a `Seq<char>`.

use crate::lexer::Token;
use crate::lexer::TokenView;
use vstd::prelude::*;

verus! {

/// A fragment of code that produces a value.
#[derive(Debug, PartialEq)]
pub enum Expression {
    /// A variable reference.
    Identifier(String),
    /// A numeric literal, as the bit pattern of its binary64 value.
    NumberLiteral(u64),
    /// A binary operation; the operator token is one of the four
    /// arithmetic tokens whenever the parser built the node.
    Infix { left: Box<Expression>, operator: Token, right: Box<Expression> },
}

/// The mathematical value of an `Expression`.
pub enum ExpressionView {
    Identifier(Seq<char>),
    NumberLiteral(u64),
    Infix { left: Box<ExpressionView>, operator: TokenView, right: Box<ExpressionView> },
}

impl View for Expression {
    type V = ExpressionView;

    open spec fn view(&self) -> ExpressionView
        decreases self,
    {
        match self {
            Expression::Identifier(name) => ExpressionView::Identifier(name@),
            Expression::NumberLiteral(bits) => ExpressionView::NumberLiteral(*bits),
            Expression::Infix { left, operator, right } => ExpressionView::Infix {
                left: Box::new((**left)@),
                operator: operator@,
                right: Box::new((**right)@),
            },
        }
    }
}

/// A binding of a name to the value of an expression.
#[derive(Debug, PartialEq)]
pub struct LetStatement {
    pub name: String,
    pub value: Expression,
}

/// An output of the value of an expression.
#[derive(Debug, PartialEq)]
pub struct PrintStatement {
    pub value: Expression,
}

/// An action of the program.
#[derive(Debug, PartialEq)]
pub enum Statement {
    Let(LetStatement),
    Print(PrintStatement),
}

/// The root of the syntax tree: statements in execution order.
#[derive(Debug)]
pub struct Program {
    pub statements: Vec<Statement>,
}

/// The mathematical value of a `LetStatement`.
pub struct LetStatementView {
    pub name: Seq<char>,
    pub value: ExpressionView,
}

/// The mathematical value of a `PrintStatement`.
pub struct PrintStatementView {
    pub value: ExpressionView,
}

/// The mathematical value of a `Statement`.
pub enum StatementView {
    Let(LetStatementView),
    Print(PrintStatementView),
}

impl View for LetStatement {
    type V = LetStatementView;

    open spec fn view(&self) -> LetStatementView {
        LetStatementView { name: self.name@, value: self.value@ }
    }
}

impl View for PrintStatement {
    type V = PrintStatementView;

    open spec fn view(&self) -> PrintStatementView {
        PrintStatementView { value: self.value@ }
    }
}

impl View for Statement {
    type V = StatementView;

    open spec fn view(&self) -> StatementView {
        match self {
            Statement::Let(s) => StatementView::Let(s@),
            Statement::Print(s) => StatementView::Print(s@),
        }
    }
}

/// The views of a statement sequence.
pub open spec fn statement_views(statements: Seq<Statement>) -> Seq<StatementView> {
    statements.map_values(|s: Statement| s@)
}

impl View for Program {
    type V = Seq<StatementView>;

    open spec fn view(&self) -> Seq<StatementView> {
        statement_views(self.statements@)
    }
}

} // verus!
