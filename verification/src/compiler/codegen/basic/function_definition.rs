//! Lowering of function definitions.
use crate::compiler::codegen::{
    any_type, basic_type, get_any_type_from_type_hint, get_basic_type_metadata_from_type_hint,
    lower_block, lowered_block,
};
use crate::compiler::codegen::basic::assignment::{bind, with_binding};
use crate::compiler::codegen::scope::Binding;
use crate::compiler::codegen::value::{allocated, LowerError, Operand, Value};
use crate::compiler::module::{Label, Origin, Scalar, Step};
use crate::compiler::{agrees, Compiler, CompilerModel, FunctionModel, Lowered};
use crate::parser::ast::{parameters_view, Statement, StatementModel, Type, TypeModel};
use vstd::prelude::*;

verus! {

/// The machine types of the parameters from `at` on, after `found`. Fails
/// at the first parameter whose type has none.
pub open spec fn parameter_kinds(
    parameters: Seq<(Seq<char>, TypeModel)>,
    at: int,
    found: Seq<Scalar>,
) -> Result<Seq<Scalar>, LowerError>
    decreases parameters.len() - at,
{
    if at < 0 || at >= parameters.len() {
        Ok(found)
    } else {
        match basic_type(parameters[at].1) {
            Err(error) => Err(error),
            Ok(kind) => parameter_kinds(parameters, at + 1, found.push(kind)),
        }
    }
}

/// The state after the parameters from `at` on are declared, one step each,
/// and the numbers of those steps after `found`.
pub open spec fn declared_parameters(
    s: CompilerModel,
    kinds: Seq<Scalar>,
    at: int,
    found: Seq<usize>,
) -> (CompilerModel, Seq<usize>)
    decreases kinds.len() - at,
{
    if at < 0 || at >= kinds.len() {
        (s, found)
    } else {
        declared_parameters(
            s.emit(Step::Parameter { kind: kinds[at] }),
            kinds,
            at + 1,
            found.push(s.next()),
        )
    }
}

/// The state after the parameters from `at` on are bound: each gets a cell
/// on the stack, named after it, into which what the function receives is
/// stored, and its name is bound to that cell in the innermost frame.
pub open spec fn bound_parameters(
    s: CompilerModel,
    parameters: Seq<(Seq<char>, TypeModel)>,
    kinds: Seq<Scalar>,
    received: Seq<usize>,
    at: int,
) -> Result<CompilerModel, LowerError>
    decreases parameters.len() - at,
{
    if at < 0 || at >= parameters.len() || at >= kinds.len() || at >= received.len() {
        Ok(s)
    } else {
        let operand = Operand { id: received[at], kind: kinds[at].kind() };
        match allocated(s, Value::of(operand), parameters[at].0) {
            Err(error) => Err(error),
            Ok((made, pointer)) => match with_binding(
                made.emit(Step::Store { pointer, value: operand.id }),
                parameters[at].0,
                Binding { value: operand, pointer, global: false },
            ) {
                Err(error) => Err(error),
                Ok((after, _)) => bound_parameters(after, parameters, kinds, received, at + 1),
            },
        }
    }
}

/// The state in which the body of a function is lowered: the function is
/// declared under its name and added to those that the module holds, its
/// parameters are declared, a first block is appended to it, and a new
/// builder stands at the end of that block. A fresh frame is open.
pub open spec fn entered(
    s: CompilerModel,
    identifier: Seq<char>,
    result: Option<Scalar>,
    kinds: Seq<Scalar>,
) -> (CompilerModel, Seq<usize>) {
    let declared = s.intern(identifier).emit(
        Step::DeclareFunction {
            name: s.next_name(),
            result,
            arity: kinds.len() as usize,
            origin: Origin::Defined,
        },
    ).declare(FunctionModel { name: identifier, id: s.next(), result });
    let (with_parameters, received) = declared_parameters(declared, kinds, 0, Seq::empty());
    let block = with_parameters.next();
    let placed = with_parameters.emit(Step::AppendBlock { function: s.next(), label: Label::Body })
        .emit(Step::PushBuilder { block }).at(s.next(), false);
    (placed.with_scopes(placed.scopes.push(Map::empty())), received)
}

/// The state after the body of a function: a block that is left open
/// returns nothing; the frame of the function is closed; and the builder is
/// the one in use before, in the function and at the place where it stood.
pub open spec fn left(s: CompilerModel, before: CompilerModel) -> CompilerModel {
    let closed = if s.terminated {
        s
    } else {
        s.emit(Step::Return { value: None })
    };
    let popped = if closed.scopes.len() > 0 {
        closed.with_scopes(closed.scopes.drop_last())
    } else {
        closed
    };
    popped.emit(Step::PopBuilder).at(before.function, before.terminated)
}

/// What lowering a function definition gives.
///
/// The result type, where one is named, and the types of the parameters
/// must have machine types; a function that names no result type returns
/// nothing. The function is declared before its body is lowered, so the body
/// may call it. The body is lowered in a frame of its own, which is closed
/// at the end, and never at top level.
pub open spec fn lowered_function_definition(s: CompilerModel, statement: StatementModel) -> Lowered
    decreases statement, 0nat,
{
    match statement {
        StatementModel::FunctionDefinition {
            identifier,
            parameters,
            return_type_hint,
            body,
            ..
        } => match any_type(return_type_hint) {
            Err(error) => Err(error),
            Ok(result) => match parameter_kinds(parameters, 0, Seq::empty()) {
                Err(error) => Err(error),
                Ok(kinds) => {
                    let (inside, received) = entered(s, identifier, result, kinds);
                    match bound_parameters(inside, parameters, kinds, received, 0) {
                        Err(error) => Err(error),
                        Ok(ready) => match lowered_block(ready, body, 0, false) {
                            Err(error) => Err(error),
                            Ok(done) => Ok((left(done, s), Value::Void)),
                        },
                    }
                },
            },
        },
        _ => Err(LowerError::Unimplemented),
    }
}

/// Computes the machine types of the parameters.
fn kinds_of(parameters: &Vec<(String, Type)>) -> (r: Result<Vec<Scalar>, LowerError>)
    ensures
        match parameter_kinds(parameters_view(parameters@), 0, Seq::empty()) {
            Ok(kinds) => r is Ok && r->Ok_0@ == kinds,
            Err(error) => r == Err::<Vec<Scalar>, LowerError>(error),
        },
{
    let mut found: Vec<Scalar> = Vec::new();
    let mut at: usize = 0;
    while at < parameters.len()
        invariant
            at <= parameters.len(),
            parameter_kinds(parameters_view(parameters@), at as int, found@) == parameter_kinds(
                parameters_view(parameters@),
                0,
                Seq::empty(),
            ),
        decreases parameters.len() - at,
    {
        match get_basic_type_metadata_from_type_hint(&parameters[at].1) {
            Ok(kind) => {
                found.push(kind);
            },
            Err(error) => {
                return Err(error);
            },
        }
        at += 1;
    }
    Ok(found)
}

/// Declares the parameters, and returns the numbers of the steps.
fn declare_parameters(compiler: &mut Compiler, kinds: &Vec<Scalar>) -> (r: Vec<usize>)
    ensures
        (final(compiler)@, r@) == declared_parameters(old(compiler)@, kinds@, 0, Seq::empty()),
{
    let mut found: Vec<usize> = Vec::new();
    let mut at: usize = 0;
    while at < kinds.len()
        invariant
            at <= kinds.len(),
            declared_parameters(compiler@, kinds@, at as int, found@) == declared_parameters(
                old(compiler)@,
                kinds@,
                0,
                Seq::empty(),
            ),
        decreases kinds.len() - at,
    {
        let id = compiler.emit(Step::Parameter { kind: kinds[at] });
        found.push(id);
        at += 1;
    }
    found
}

/// Declares a function and its parameters, and moves into its first block
/// with a fresh frame open. Returns the numbers of the parameters.
fn enter(
    compiler: &mut Compiler,
    identifier: &str,
    result: Option<Scalar>,
    kinds: &Vec<Scalar>,
) -> (r: Vec<
    usize,
>)
    ensures
        (final(compiler)@, r@) == entered(old(compiler)@, identifier@, result, kinds@),
{
    let name = compiler.intern(identifier);
    let function = compiler.emit(
        Step::DeclareFunction {
            name,
            result,
            arity: kinds.len(),
            origin: Origin::Defined,
        },
    );
    compiler.declare(identifier, function, result);
    let received = declare_parameters(compiler, kinds);
    let block = compiler.emit(Step::AppendBlock { function, label: Label::Body });
    compiler.emit(Step::PushBuilder { block });
    compiler.function = function;
    compiler.terminated = false;
    compiler.variables.push_frame();
    received
}

/// Gives each parameter its cell and binds its name.
fn bind_parameters(
    compiler: &mut Compiler,
    parameters: &Vec<(String, Type)>,
    kinds: &Vec<Scalar>,
    received: &Vec<usize>,
) -> (r: Result<(), LowerError>)
    ensures
        match bound_parameters(
            old(compiler)@,
            parameters_view(parameters@),
            kinds@,
            received@,
            0,
        ) {
            Ok(state) => r is Ok && final(compiler)@ == state,
            Err(error) => r == Err::<(), LowerError>(error),
        },
{
    let mut at: usize = 0;
    while at < parameters.len() && at < kinds.len() && at < received.len()
        invariant
            bound_parameters(
                compiler@,
                parameters_view(parameters@),
                kinds@,
                received@,
                at as int,
            ) == bound_parameters(
                old(compiler)@,
                parameters_view(parameters@),
                kinds@,
                received@,
                0,
            ),
        decreases parameters.len() - at,
    {
        let operand = Operand { id: received[at], kind: kinds[at].kind() };
        let value = Value::from(operand);
        let name = parameters[at].0.as_str();
        let pointer = match value.alloca(compiler, name) {
            Ok(pointer) => pointer,
            Err(error) => {
                return Err(error);
            },
        };
        compiler.emit(Step::Store { pointer, value: operand.id });
        match bind(compiler, name, Binding { value: operand, pointer, global: false }) {
            Ok(_) => {},
            Err(error) => {
                return Err(error);
            },
        }
        at += 1;
    }
    Ok(())
}

/// Ends the body of a function and goes back to where the builder stood.
fn leave(compiler: &mut Compiler, function: usize, terminated: bool)
    ensures
        final(compiler)@ == left(old(compiler)@, old(compiler)@.at(function, terminated)),
{
    if !compiler.terminated {
        compiler.emit(Step::Return { value: None });
    }
    let _ = compiler.variables.pop_frame();
    compiler.emit(Step::PopBuilder);
    compiler.function = function;
    compiler.terminated = terminated;
}

/// Lowers a function definition.
///
/// The frame that is opened for the body is closed again: the scopes are
/// afterwards what they were before.
pub fn lower_function_definition(compiler: &mut Compiler, statement: &Statement) -> (r: Result<
    Value,
    LowerError,
>)
    ensures
        agrees(r, final(compiler)@, lowered_function_definition(old(compiler)@, statement@)),
    decreases statement, 0nat,
{
    match statement {
        Statement::FunctionDefinition { identifier, parameters, return_type_hint, body, .. } => {
            let result = match get_any_type_from_type_hint(return_type_hint) {
                Ok(result) => result,
                Err(error) => {
                    return Err(error);
                },
            };
            let kinds = match kinds_of(parameters) {
                Ok(kinds) => kinds,
                Err(error) => {
                    return Err(error);
                },
            };
            let function = compiler.function;
            let terminated = compiler.terminated;
            let received = enter(compiler, identifier.as_str(), result, &kinds);
            match bind_parameters(compiler, parameters, &kinds, &received) {
                Ok(()) => {},
                Err(error) => {
                    return Err(error);
                },
            }
            match lower_block(compiler, body, false) {
                Ok(()) => {},
                Err(error) => {
                    return Err(error);
                },
            }
            leave(compiler, function, terminated);
            Ok(Value::Void)
        },
        _ => Err(LowerError::Unimplemented),
    }
}

} // verus!
