//! Lowering of operators.
use crate::compiler::codegen::expr::values::{digits_end, whole_part};
use crate::compiler::codegen::expr::{lower_expr, lowered_expr};
use crate::compiler::codegen::value::{LowerError, Value};
use crate::compiler::module::{Arithmetic, Comparison, Scalar, Step};
use crate::compiler::{agrees, Compiler, CompilerModel, Lowered};
use crate::parser::ast::{all_digits, decimal};
use crate::parser::expr::{Expr, ExprModel, Op};
use vstd::prelude::*;

verus! {

/// What negating a value gives: one step, for a number; no other value can
/// be negated. The negation of a constant is a constant, for which no
/// instruction is appended.
pub open spec fn negated(s: CompilerModel, value: Value) -> Lowered {
    match value {
        Value::Float { id, constant, .. } => Ok(
            (
                s.emit(Step::Negate { value: id, folded: constant }),
                Value::Float { id: s.next(), constant, literal: None },
            ),
        ),
        _ => Err(LowerError::TypeMismatch),
    }
}

/// What lowering a negation gives: the operand, then its negation.
pub open spec fn lowered_unary_minus(s: CompilerModel, e: ExprModel) -> Lowered
    decreases e, 0nat,
{
    match e {
        ExprModel::UnaryMinus(inner) => match lowered_expr(s, *inner) {
            Err(error) => Err(error),
            Ok((after, value)) => negated(after, value),
        },
        _ => Err(LowerError::Unimplemented),
    }
}

/// The arithmetic operation that an operator stands for.
pub open spec fn arithmetic(op: Op) -> Option<Arithmetic> {
    match op {
        Op::Add => Some(Arithmetic::Add),
        Op::Subtract => Some(Arithmetic::Sub),
        Op::Multiply => Some(Arithmetic::Mul),
        Op::Divide => Some(Arithmetic::Div),
        Op::Modulo => Some(Arithmetic::Rem),
        _ => None,
    }
}

/// The comparison that an operator stands for.
pub open spec fn comparison(op: Op) -> Option<Comparison> {
    match op {
        Op::Lt => Some(Comparison::Lt),
        Op::Gt => Some(Comparison::Gt),
        Op::Lte => Some(Comparison::Lte),
        Op::Gte => Some(Comparison::Gte),
        Op::Eq => Some(Comparison::Eq),
        Op::NotEq => Some(Comparison::NotEq),
        _ => None,
    }
}

/// How many numbers the range from `start` to `end` holds.
pub open spec fn range_len(start: u32, end: u32) -> u32 {
    if end > start {
        (end - start) as u32
    } else {
        0
    }
}

/// The numbers of the range from `start` to `end`: consecutive whole
/// numbers that begin at `start`, and `end` is the first that is left out.
pub open spec fn range_elements(start: u32, end: u32) -> Seq<int> {
    Seq::new(range_len(start, end) as nat, |i: int| start + i)
}

/// What applying an operator to two values gives.
///
/// The power operator has no lowering. Every other operator takes two
/// numbers. Arithmetic gives a number and a comparison a truth value, in
/// one step each; where both operands are constants the result is a
/// constant, for which no instruction is appended. A range takes two
/// literals and gives the constant array of the whole numbers from the
/// first up to, not including, the second.
pub open spec fn combined(s: CompilerModel, op: Op, lhs: Value, rhs: Value) -> Lowered {
    if op == Op::Power {
        Err(LowerError::Unimplemented)
    } else {
        match (lhs, rhs) {
            (
                Value::Float { id: left, constant: fixed, literal: start },
                Value::Float { id: right, constant: also, literal: end },
            ) => {
                let folded = fixed && also;
                if op == Op::Range {
                    match (start, end) {
                        (Some(start), Some(end)) => Ok(
                            (
                                s.emit(Step::ConstRange { start, end }),
                                Value::Array {
                                    id: s.next(),
                                    constant: true,
                                    len: range_len(start, end),
                                    element: Scalar::Number,
                                },
                            ),
                        ),
                        _ => Err(LowerError::NotConstant),
                    }
                } else {
                    match arithmetic(op) {
                        Some(operation) => Ok(
                            (
                                s.emit(
                                    Step::Arithmetic {
                                        op: operation,
                                        lhs: left,
                                        rhs: right,
                                        folded,
                                    },
                                ),
                                Value::Float { id: s.next(), constant: folded, literal: None },
                            ),
                        ),
                        None => match comparison(op) {
                            Some(predicate) => Ok(
                                (
                                    s.emit(
                                        Step::Compare {
                                            op: predicate,
                                            lhs: left,
                                            rhs: right,
                                            folded,
                                        },
                                    ),
                                    Value::Bool { id: s.next(), constant: folded },
                                ),
                            ),
                            None => Err(LowerError::Unimplemented),
                        },
                    }
                }
            },
            _ => Err(LowerError::TypeMismatch),
        }
    }
}

/// What lowering an infix operation gives: the left operand, the right
/// operand, then the operator applied to their values.
pub open spec fn lowered_binop(s: CompilerModel, e: ExprModel) -> Lowered
    decreases e, 0nat,
{
    match e {
        ExprModel::BinOp { lhs, op, rhs } => match lowered_expr(s, *lhs) {
            Err(error) => Err(error),
            Ok((after_lhs, left)) => match lowered_expr(after_lhs, *rhs) {
                Err(error) => Err(error),
                Ok((after_rhs, right)) => combined(after_rhs, op, left, right),
            },
        },
        _ => Err(LowerError::Unimplemented),
    }
}

/// Negates a value.
pub fn negate(compiler: &mut Compiler, value: Value) -> (r: Result<Value, LowerError>)
    ensures
        agrees(r, final(compiler)@, negated(old(compiler)@, value)),
{
    match value {
        Value::Float { id, constant, .. } => {
            let id = compiler.emit(Step::Negate { value: id, folded: constant });
            Ok(Value::Float { id, constant, literal: None })
        },
        _ => Err(LowerError::TypeMismatch),
    }
}

/// Lowers a negation.
pub fn lower_unary_minus(compiler: &mut Compiler, expr: &Expr) -> (r: Result<Value, LowerError>)
    ensures
        agrees(r, final(compiler)@, lowered_unary_minus(old(compiler)@, expr@)),
    decreases expr, 0nat,
{
    match expr {
        Expr::UnaryMinus(inner) => {
            let value = match lower_expr(compiler, inner) {
                Ok(value) => value,
                Err(error) => {
                    return Err(error);
                },
            };
            negate(compiler, value)
        },
        _ => Err(LowerError::Unimplemented),
    }
}

/// The arithmetic operation of an operator, as [`arithmetic`] defines it.
fn arithmetic_of(op: Op) -> (r: Option<Arithmetic>)
    ensures
        r == arithmetic(op),
{
    match op {
        Op::Add => Some(Arithmetic::Add),
        Op::Subtract => Some(Arithmetic::Sub),
        Op::Multiply => Some(Arithmetic::Mul),
        Op::Divide => Some(Arithmetic::Div),
        Op::Modulo => Some(Arithmetic::Rem),
        _ => None,
    }
}

/// The comparison of an operator, as [`comparison`] defines it.
fn comparison_of(op: Op) -> (r: Option<Comparison>)
    ensures
        r == comparison(op),
{
    match op {
        Op::Lt => Some(Comparison::Lt),
        Op::Gt => Some(Comparison::Gt),
        Op::Lte => Some(Comparison::Lte),
        Op::Gte => Some(Comparison::Gte),
        Op::Eq => Some(Comparison::Eq),
        Op::NotEq => Some(Comparison::NotEq),
        _ => None,
    }
}

/// Applies an operator to two values.
pub fn combine(compiler: &mut Compiler, op: Op, lhs: Value, rhs: Value) -> (r: Result<
    Value,
    LowerError,
>)
    ensures
        agrees(r, final(compiler)@, combined(old(compiler)@, op, lhs, rhs)),
{
    if op == Op::Power {
        return Err(LowerError::Unimplemented);
    }
    match (lhs, rhs) {
        (
            Value::Float { id: left, constant: fixed, literal: start },
            Value::Float { id: right, constant: also, literal: end },
        ) => {
            let folded = fixed && also;
            if op == Op::Range {
                match (start, end) {
                    (Some(start), Some(end)) => {
                        let id = compiler.emit(Step::ConstRange { start, end });
                        let len: u32 = if end > start {
                            end - start
                        } else {
                            0
                        };
                        Ok(Value::Array { id, constant: true, len, element: Scalar::Number })
                    },
                    _ => Err(LowerError::NotConstant),
                }
            } else {
                match arithmetic_of(op) {
                    Some(operation) => {
                        let id = compiler.emit(
                            Step::Arithmetic { op: operation, lhs: left, rhs: right, folded },
                        );
                        Ok(Value::Float { id, constant: folded, literal: None })
                    },
                    None => match comparison_of(op) {
                        Some(predicate) => {
                            let id = compiler.emit(
                                Step::Compare { op: predicate, lhs: left, rhs: right, folded },
                            );
                            Ok(Value::Bool { id, constant: folded })
                        },
                        None => Err(LowerError::Unimplemented),
                    },
                }
            }
        },
        _ => Err(LowerError::TypeMismatch),
    }
}

/// Lowers an infix operation.
pub fn lower_binop(compiler: &mut Compiler, expr: &Expr) -> (r: Result<Value, LowerError>)
    ensures
        agrees(r, final(compiler)@, lowered_binop(old(compiler)@, expr@)),
    decreases expr, 0nat,
{
    match expr {
        Expr::BinOp { lhs, op, rhs } => {
            let left = match lower_expr(compiler, lhs) {
                Ok(value) => value,
                Err(error) => {
                    return Err(error);
                },
            };
            let right = match lower_expr(compiler, rhs) {
                Ok(value) => value,
                Err(error) => {
                    return Err(error);
                },
            };
            combine(compiler, *op, left, right)
        },
        _ => Err(LowerError::Unimplemented),
    }
}

/// A text of decimal digits only ends where its digits end.
pub proof fn lemma_digits_reach_the_end(text: Seq<char>, from: int)
    requires
        all_digits(text),
        0 <= from <= text.len(),
    ensures
        digits_end(text, from) == text.len(),
    decreases text.len() - from,
{
    if from < text.len() {
        lemma_digits_reach_the_end(text, from + 1);
    }
}

/// The whole part of a literal that is a whole number which fits 32 bits
/// is that number.
pub proof fn lemma_whole_part_of_digits(text: Seq<char>)
    requires
        all_digits(text),
        decimal(text) <= u32::MAX,
    ensures
        whole_part(text) == decimal(text),
{
    lemma_digits_reach_the_end(text, 0);
    assert(text.take(text.len() as int) =~= text);
}

/// A range between two literals is lowered to the constant array of the
/// whole numbers from the whole part of the first up to, not including,
/// the whole part of the second: where the first is the smaller, as many
/// consecutive numbers as the two differ by, starting at the first.
pub proof fn lemma_range_of_literals(s: CompilerModel, start: Seq<char>, end: Seq<char>)
    ensures
        ({
            let from = whole_part(start);
            let to = whole_part(end);
            let e = ExprModel::BinOp {
                lhs: Box::new(ExprModel::Float(start)),
                op: Op::Range,
                rhs: Box::new(ExprModel::Float(end)),
            };
            &&& lowered_binop(s, e) matches Ok((after, value)) && {
                &&& after.steps.len() > 0
                &&& after.steps.last() == (Step::ConstRange { start: from, end: to })
                &&& value == (Value::Array {
                    id: (after.steps.len() - 1) as usize,
                    constant: true,
                    len: range_len(from, to),
                    element: Scalar::Number,
                })
            }
            &&& from < to ==> range_elements(from, to).len() == to - from
            &&& forall|i: int|
                0 <= i < range_elements(from, to).len() ==> range_elements(from, to)[i] == from + i
        }),
{
    let lhs = ExprModel::Float(start);
    let rhs = ExprModel::Float(end);
    assert(lowered_expr(s, lhs) is Ok);
    let (after_lhs, left) = lowered_expr(s, lhs)->Ok_0;
    assert(lowered_expr(after_lhs, rhs) is Ok);
}

/// Only a literal has a value that a range accepts as an operand: the
/// value of no other expression holds the whole part of a literal.
pub proof fn lemma_only_literals_are_literal(s: CompilerModel, e: ExprModel)
    requires
        !(e is Float),
    ensures
        lowered_expr(s, e) matches Ok((_, value)) ==> !(value matches Value::Float {
            literal: Some(_),
            ..
        }),
{
    match e {
        ExprModel::UnaryMinus(inner) => {},
        ExprModel::BinOp { lhs, op, rhs } => {},
        _ => {},
    }
}

/// A range with an operand that is no literal cannot be lowered.
pub proof fn lemma_range_needs_literals(s: CompilerModel, lhs: ExprModel, rhs: ExprModel)
    requires
        !(lhs is Float) || !(rhs is Float),
    ensures
        lowered_binop(
            s,
            ExprModel::BinOp { lhs: Box::new(lhs), op: Op::Range, rhs: Box::new(rhs) },
        ) is Err,
{
    if let Ok((after_lhs, left)) = lowered_expr(s, lhs) {
        if !(lhs is Float) {
            lemma_only_literals_are_literal(s, lhs);
        }
        if let Ok((after_rhs, right)) = lowered_expr(after_lhs, rhs) {
            if !(rhs is Float) {
                lemma_only_literals_are_literal(after_lhs, rhs);
            }
        }
    }
}

} // verus!
