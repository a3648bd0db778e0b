//! Evaluation: walking the syntax tree with a variable environment.
//!
//! `spec_eval_program` is the mathematical semantics: statements run in
//! order, `let` binds (last write wins), `print` appends the value to the
//! output, and the first runtime failure stops execution while keeping
//! every effect produced before it.  The executable `Evaluator` is proved
//! to leave exactly the environment and output that the semantics says.
//! The host renders and prints the output values; the evaluator only
//! collects them.

use crate::ast::Expression;
use crate::ast::LetStatement;
use crate::ast::PrintStatement;
use crate::ast::Program;
use crate::ast::Statement;
use crate::ast::StatementView;
use crate::lexer::Token;
use crate::lexer::TokenView;
use crate::parser::wf_expression;
use crate::numeric::add_bits;
use crate::numeric::add_bits_of;
use crate::numeric::div_bits;
use crate::numeric::div_bits_of;
use crate::numeric::is_zero_bits;
use crate::numeric::is_zero_bits_exec;
use crate::numeric::mul_bits;
use crate::numeric::mul_bits_of;
use crate::numeric::sub_bits;
use crate::numeric::sub_bits_of;
use crate::ast::ExpressionView;
use vstd::prelude::*;

verus! {

/// A runtime value: the single numeric kind, as a binary64 bit pattern.
#[derive(Debug, Clone, Copy, PartialEq, Eq, Structural)]
pub enum Value {
    Number(u64),
}

/// A fatal evaluation failure.
#[derive(Debug, Clone, PartialEq)]
pub enum RuntimeError {
    /// A reference to a name that no earlier `let` bound.
    UndefinedVariable { name: String },
    /// A division whose right operand is zero.
    DivisionByZero,
    /// An operator token outside the four arithmetic ones; the parser
    /// never builds such a node, but the evaluator does not assume that.
    UnsupportedOperator { operator: Token },
}

/// The mathematical value of a `RuntimeError`.
pub enum RuntimeErrorView {
    UndefinedVariable { name: Seq<char> },
    DivisionByZero,
    UnsupportedOperator { operator: TokenView },
}

impl View for RuntimeError {
    type V = RuntimeErrorView;

    open spec fn view(&self) -> RuntimeErrorView {
        match self {
            RuntimeError::UndefinedVariable { name } => RuntimeErrorView::UndefinedVariable {
                name: name@,
            },
            RuntimeError::DivisionByZero => RuntimeErrorView::DivisionByZero,
            RuntimeError::UnsupportedOperator { operator } => RuntimeErrorView::UnsupportedOperator {
                operator: operator@,
            },
        }
    }
}

/// The value of one arithmetic operator on two operands, or the failure
/// it raises: division by zero is an error, any non-arithmetic operator
/// is unsupported.
pub open spec fn apply_operator(op: TokenView, l: u64, r: u64) -> Result<u64, RuntimeErrorView> {
    match op {
        TokenView::Plus => Ok(add_bits_of(l, r)),
        TokenView::Minus => Ok(sub_bits_of(l, r)),
        TokenView::Star => Ok(mul_bits_of(l, r)),
        TokenView::Slash => if is_zero_bits(r) {
            Err(RuntimeErrorView::DivisionByZero)
        } else {
            Ok(div_bits_of(l, r))
        },
        t => Err(RuntimeErrorView::UnsupportedOperator { operator: t }),
    }
}

/// The value of an expression under an environment: literals are their
/// own value, identifiers look the environment up, and an infix node
/// evaluates its left side before its right one.
pub open spec fn spec_eval_expression(e: ExpressionView, env: Map<Seq<char>, Value>) -> Result<
    Value,
    RuntimeErrorView,
>
    decreases e,
{
    match e {
        ExpressionView::NumberLiteral(bits) => Ok(Value::Number(bits)),
        ExpressionView::Identifier(name) => if env.contains_key(name) {
            Ok(env[name])
        } else {
            Err(RuntimeErrorView::UndefinedVariable { name })
        },
        ExpressionView::Infix { left, operator, right } => match spec_eval_expression(*left, env) {
            Ok(Value::Number(l)) => match spec_eval_expression(*right, env) {
                Ok(Value::Number(r)) => match apply_operator(operator, l, r) {
                    Ok(bits) => Ok(Value::Number(bits)),
                    Err(e) => Err(e),
                },
                Err(e) => Err(e),
            },
            Err(e) => Err(e),
        },
    }
}

/// The effect of one statement on the environment and the output, or
/// the failure that leaves both untouched.
pub open spec fn spec_eval_statement(
    s: StatementView,
    env: Map<Seq<char>, Value>,
    output: Seq<Value>,
) -> Result<(Map<Seq<char>, Value>, Seq<Value>), RuntimeErrorView> {
    match s {
        StatementView::Let(ls) => match spec_eval_expression(ls.value, env) {
            Ok(v) => Ok((env.insert(ls.name, v), output)),
            Err(e) => Err(e),
        },
        StatementView::Print(ps) => match spec_eval_expression(ps.value, env) {
            Ok(v) => Ok((env, output.push(v))),
            Err(e) => Err(e),
        },
    }
}

/// Statements run in order until the end or the first failure; the
/// environment and the output reached by then are kept either way.
pub open spec fn spec_eval_program(
    stmts: Seq<StatementView>,
    env: Map<Seq<char>, Value>,
    output: Seq<Value>,
) -> (Map<Seq<char>, Value>, Seq<Value>, Option<RuntimeErrorView>)
    decreases stmts.len(),
{
    if stmts.len() == 0 {
        (env, output, None)
    } else {
        match spec_eval_statement(stmts[0], env, output) {
            Ok((env2, out2)) => spec_eval_program(stmts.drop_first(), env2, out2),
            Err(e) => (env, output, Some(e)),
        }
    }
}

/// The environment that an association list denotes: a later entry for
/// the same name wins.
pub open spec fn env_of(entries: Seq<(String, Value)>) -> Map<Seq<char>, Value>
    decreases entries.len(),
{
    if entries.len() == 0 {
        Map::empty()
    } else {
        env_of(entries.drop_last()).insert(entries.last().0@, entries.last().1)
    }
}

/// The evaluator: the variable environment and the output produced so
/// far.
pub struct Evaluator {
    variables: Vec<(String, Value)>,
    output: Vec<Value>,
}

impl Evaluator {
    /// The environment, as a map from name to value.
    pub closed spec fn env(self) -> Map<Seq<char>, Value> {
        env_of(self.variables@)
    }

    /// The output produced so far, in program order.
    pub closed spec fn out(self) -> Seq<Value> {
        self.output@
    }

    /// A fresh evaluator: empty environment, no output.
    pub fn new() -> (evaluator: Evaluator)
        ensures
            evaluator.env() == Map::<Seq<char>, Value>::empty(),
            evaluator.out() == Seq::<Value>::empty(),
    {
        Evaluator { variables: Vec::new(), output: Vec::new() }
    }

    /// The output values, for the host to render.
    pub fn output(&self) -> (out: &Vec<Value>)
        ensures
            out@ == self.out(),
    {
        &self.output
    }

    /// Looks `name` up in the association list, from the newest entry
    /// backwards: exactly the map that `env_of` denotes.
    fn lookup(entries: &Vec<(String, Value)>, name: &String) -> (r: Option<Value>)
        ensures
            r == if env_of(entries@).contains_key(name@) {
                Some(env_of(entries@)[name@])
            } else {
                None::<Value>
            },
    {
        let ghost full = entries@;
        let mut i: usize = entries.len();
        proof {
            assert(full.take(i as int) =~= full);
        }
        while i > 0
            invariant
                i <= entries@.len(),
                entries@ == full,
                env_of(full).contains_key(name@) == env_of(full.take(i as int)).contains_key(
                    name@,
                ),
                env_of(full).contains_key(name@) ==> env_of(full.take(i as int))[name@] == env_of(
                    full,
                )[name@],
            decreases i,
        {
            i = i - 1;
            proof {
                assert(full.take(i + 1).drop_last() =~= full.take(i as int));
                assert(full.take(i + 1).last() == full[i as int]);
            }
            if entries[i].0 == *name {
                return Some(entries[i].1);
            }
        }
        proof {
            assert(full.take(0) =~= Seq::<(String, Value)>::empty());
        }
        None
    }

    /// Evaluates an expression under the current environment: what
    /// `spec_eval_expression` says.
    fn eval_expression(&self, expr: &Expression) -> (r: Result<Value, RuntimeError>)
        ensures
            match r {
                Ok(v) => spec_eval_expression(expr@, self.env()) == Ok::<
                    Value,
                    RuntimeErrorView,
                >(v),
                Err(e) => spec_eval_expression(expr@, self.env()) == Err::<
                    Value,
                    RuntimeErrorView,
                >(e@),
            },
        decreases expr,
    {
        match expr {
            Expression::NumberLiteral(bits) => Ok(Value::Number(*bits)),
            Expression::Identifier(name) => match Self::lookup(&self.variables, name) {
                Some(v) => Ok(v),
                None => Err(RuntimeError::UndefinedVariable { name: name.clone() }),
            },
            Expression::Infix { left, operator, right } => {
                let left_val = match self.eval_expression(&**left) {
                    Ok(v) => v,
                    Err(e) => {
                        return Err(e);
                    },
                };
                let right_val = match self.eval_expression(&**right) {
                    Ok(v) => v,
                    Err(e) => {
                        return Err(e);
                    },
                };
                match (left_val, right_val) {
                    (Value::Number(l), Value::Number(r)) => match operator {
                        Token::Plus => Ok(Value::Number(add_bits(l, r))),
                        Token::Minus => Ok(Value::Number(sub_bits(l, r))),
                        Token::Star => Ok(Value::Number(mul_bits(l, r))),
                        Token::Slash => {
                            if is_zero_bits_exec(r) {
                                Err(RuntimeError::DivisionByZero)
                            } else {
                                Ok(Value::Number(div_bits(l, r)))
                            }
                        },
                        t => Err(RuntimeError::UnsupportedOperator { operator: t.dup() }),
                    },
                }
            },
        }
    }

    /// Runs one `let`: what `spec_eval_statement` says of it.
    fn eval_let(&mut self, stmt: &LetStatement) -> (r: Result<(), RuntimeError>)
        ensures
            match r {
                Ok(_) => spec_eval_statement(
                    StatementView::Let(stmt@),
                    old(self).env(),
                    old(self).out(),
                ) == Ok::<(Map<Seq<char>, Value>, Seq<Value>), RuntimeErrorView>(
                    (final(self).env(), final(self).out()),
                ),
                Err(e) => spec_eval_statement(
                    StatementView::Let(stmt@),
                    old(self).env(),
                    old(self).out(),
                ) == Err::<(Map<Seq<char>, Value>, Seq<Value>), RuntimeErrorView>(e@)
                    && final(self).env() == old(self).env() && final(self).out() == old(
                    self,
                ).out(),
            },
    {
        let value = match self.eval_expression(&stmt.value) {
            Ok(v) => v,
            Err(e) => {
                return Err(e);
            },
        };
        self.variables.push((stmt.name.clone(), value));
        proof {
            assert(self.variables@.drop_last() =~= old(self).variables@);
        }
        Ok(())
    }

    /// Runs one `print`: what `spec_eval_statement` says of it.
    fn eval_print(&mut self, stmt: &PrintStatement) -> (r: Result<(), RuntimeError>)
        ensures
            match r {
                Ok(_) => spec_eval_statement(
                    StatementView::Print(stmt@),
                    old(self).env(),
                    old(self).out(),
                ) == Ok::<(Map<Seq<char>, Value>, Seq<Value>), RuntimeErrorView>(
                    (final(self).env(), final(self).out()),
                ),
                Err(e) => spec_eval_statement(
                    StatementView::Print(stmt@),
                    old(self).env(),
                    old(self).out(),
                ) == Err::<(Map<Seq<char>, Value>, Seq<Value>), RuntimeErrorView>(e@)
                    && final(self).env() == old(self).env() && final(self).out() == old(
                    self,
                ).out(),
            },
    {
        let value = match self.eval_expression(&stmt.value) {
            Ok(v) => v,
            Err(e) => {
                return Err(e);
            },
        };
        self.output.push(value);
        Ok(())
    }

    /// Runs the program's statements in order: what `spec_eval_program`
    /// says from the current environment and output on.  On failure the
    /// effects of the statements before the failing one are kept.
    pub fn evaluate(&mut self, program: &Program) -> (r: Result<(), RuntimeError>)
        ensures
            ({
                let (env2, out2, err) = spec_eval_program(
                    program@,
                    old(self).env(),
                    old(self).out(),
                );
                final(self).env() == env2 && final(self).out() == out2 && match r {
                    Ok(_) => err is None,
                    Err(e) => err == Some(e@),
                }
            }),
    {
        let ghost stmts = program@;
        let n = program.statements.len();
        let mut i: usize = 0;
        proof {
            assert(stmts.skip(0) =~= stmts);
        }
        while i < n
            invariant
                i <= n,
                n == program.statements@.len(),
                stmts == program@,
                stmts.len() == n,
                spec_eval_program(stmts, old(self).env(), old(self).out()) == spec_eval_program(
                    stmts.skip(i as int),
                    self.env(),
                    self.out(),
                ),
            decreases n - i,
        {
            let ghost rest = stmts.skip(i as int);
            proof {
                assert(program@[i as int] == program.statements@[i as int]@);
                assert(rest[0] == stmts[i as int]);
                assert(rest.drop_first() =~= stmts.skip(i + 1));
            }
            let stmt = &program.statements[i];
            match stmt {
                Statement::Let(ls) => {
                    match self.eval_let(ls) {
                        Ok(_) => {},
                        Err(e) => {
                            return Err(e);
                        },
                    }
                },
                Statement::Print(ps) => {
                    match self.eval_print(ps) {
                        Ok(_) => {},
                        Err(e) => {
                            return Err(e);
                        },
                    }
                },
            }
            i = i + 1;
        }
        proof {
            assert(stmts.skip(n as int) =~= Seq::<StatementView>::empty());
        }
        Ok(())
    }
}

} // verus!

verus! {

/// True when no statement of the sequence is a `print`.
pub open spec fn has_no_print(stmts: Seq<StatementView>) -> bool {
    forall|i: int| 0 <= i < stmts.len() ==> !(#[trigger] stmts[i] is Print)
}

/// A program without `print` statements adds nothing to the output,
/// whether it runs to the end or stops at a failure: only `print`
/// produces output.
pub proof fn lemma_no_print_no_output(
    stmts: Seq<StatementView>,
    env: Map<Seq<char>, Value>,
    output: Seq<Value>,
)
    requires
        has_no_print(stmts),
    ensures
        spec_eval_program(stmts, env, output).1 == output,
    decreases stmts.len(),
{
    if stmts.len() > 0 {
        assert(!(stmts[0] is Print));
        match spec_eval_statement(stmts[0], env, output) {
            Ok((env2, out2)) => {
                assert(out2 == output);
                assert forall|i: int| 0 <= i < stmts.drop_first().len() implies !(#[trigger] stmts.drop_first()[i] is Print) by {
                    assert(stmts.drop_first()[i] == stmts[i + 1]);
                }
                lemma_no_print_no_output(stmts.drop_first(), env2, out2);
            },
            Err(_) => {},
        }
    }
}

} // verus!

verus! {

/// The unsupported-operator failure is unreachable on well-formed
/// expressions: an infix node whose operator is one of the four
/// arithmetic tokens either yields a value, fails on an unbound name,
/// or fails on a zero divisor.
pub proof fn lemma_wf_expression_no_unsupported_operator(
    e: ExpressionView,
    env: Map<Seq<char>, Value>,
)
    requires
        wf_expression(e),
    ensures
        !(spec_eval_expression(e, env) matches Err(RuntimeErrorView::UnsupportedOperator {
            ..
        })),
    decreases e,
{
    match e {
        ExpressionView::Infix { left, operator, right } => {
            lemma_wf_expression_no_unsupported_operator(*left, env);
            lemma_wf_expression_no_unsupported_operator(*right, env);
        },
        _ => {},
    }
}

} // verus!

verus! {

/// An expression that cannot fail at runtime: every name it reads is in
/// `bound`, and every operator is one of the total ones (`+ - *`; a
/// division can still fail, on a zero divisor, so it is left out).
pub open spec fn expr_total(e: ExpressionView, bound: Set<Seq<char>>) -> bool
    decreases e,
{
    match e {
        ExpressionView::Identifier(name) => bound.contains(name),
        ExpressionView::NumberLiteral(_) => true,
        ExpressionView::Infix { left, operator, right } => (operator is Plus || operator is Minus
            || operator is Star) && expr_total(*left, bound) && expr_total(*right, bound),
    }
}

/// A program that cannot fail at runtime: each statement's expression
/// is total over the names bound by the `let` statements before it.
pub open spec fn program_total(stmts: Seq<StatementView>, bound: Set<Seq<char>>) -> bool
    decreases stmts.len(),
{
    if stmts.len() == 0 {
        true
    } else {
        match stmts[0] {
            StatementView::Let(ls) => expr_total(ls.value, bound) && program_total(
                stmts.drop_first(),
                bound.insert(ls.name),
            ),
            StatementView::Print(ps) => expr_total(ps.value, bound) && program_total(
                stmts.drop_first(),
                bound,
            ),
        }
    }
}

/// A total expression evaluates successfully under any environment that
/// binds its names.
pub proof fn lemma_total_expression_succeeds(e: ExpressionView, env: Map<Seq<char>, Value>)
    requires
        expr_total(e, env.dom()),
    ensures
        spec_eval_expression(e, env) is Ok,
    decreases e,
{
    match e {
        ExpressionView::Infix { left, operator, right } => {
            lemma_total_expression_succeeds(*left, env);
            lemma_total_expression_succeeds(*right, env);
        },
        _ => {},
    }
}

/// A total program evaluates to the end without a runtime failure.
pub proof fn lemma_total_program_succeeds(
    stmts: Seq<StatementView>,
    env: Map<Seq<char>, Value>,
    output: Seq<Value>,
)
    requires
        program_total(stmts, env.dom()),
    ensures
        spec_eval_program(stmts, env, output).2 is None,
    decreases stmts.len(),
{
    if stmts.len() > 0 {
        match stmts[0] {
            StatementView::Let(ls) => {
                lemma_total_expression_succeeds(ls.value, env);
                match spec_eval_expression(ls.value, env) {
                    Ok(v) => {
                        assert(env.insert(ls.name, v).dom() =~= env.dom().insert(ls.name));
                        lemma_total_program_succeeds(
                            stmts.drop_first(),
                            env.insert(ls.name, v),
                            output,
                        );
                    },
                    Err(_) => {},
                }
            },
            StatementView::Print(ps) => {
                lemma_total_expression_succeeds(ps.value, env);
                match spec_eval_expression(ps.value, env) {
                    Ok(v) => {
                        lemma_total_program_succeeds(stmts.drop_first(), env, output.push(v));
                    },
                    Err(_) => {},
                }
            },
        }
    }
}

/// A print-free program whose expressions are total succeeds and
/// produces no output: the run ends without a failure and the output is
/// exactly what it was before.  A division can fail on a zero divisor,
/// so programs that divide lie outside `program_total`.
pub proof fn lemma_no_print_total_program_succeeds_silently(
    stmts: Seq<StatementView>,
    env: Map<Seq<char>, Value>,
    output: Seq<Value>,
)
    requires
        has_no_print(stmts),
        program_total(stmts, env.dom()),
    ensures
        spec_eval_program(stmts, env, output).2 is None,
        spec_eval_program(stmts, env, output).1 == output,
{
    lemma_total_program_succeeds(stmts, env, output);
    lemma_no_print_no_output(stmts, env, output);
}

} // verus!
