//! Lowering of calls.
use crate::compiler::codegen::expr::array::{give_operands, with_operands};
use crate::compiler::codegen::expr::{lower_expr, lowered_expr};
use crate::compiler::codegen::value::{LowerError, Operand, Value};
use crate::compiler::module::Step;
use crate::compiler::{agrees, find_function, Compiler, CompilerModel, FunctionModel, Lowered};
use crate::parser::expr::{exprs_view, Expr, ExprModel};
use vstd::prelude::*;
use vstd::string::StringExecFns;

verus! {

broadcast use crate::parser::expr::group_exprs;

/// What lowering the arguments from `at` on gives, one after the other,
/// after `found`. Each argument is a number, a truth value or a character.
pub open spec fn lowered_arguments(
    s: CompilerModel,
    arguments: Seq<ExprModel>,
    at: int,
    found: Seq<Value>,
) -> Result<(CompilerModel, Seq<Value>), LowerError>
    decreases arguments, arguments.len() - at,
{
    if at < 0 || at >= arguments.len() {
        Ok((s, found))
    } else {
        match lowered_expr(s, arguments[at]) {
            Err(error) => Err(error),
            Ok((after, value)) => if value.scalar() is None {
                Err(LowerError::UnsupportedArgument)
            } else {
                lowered_arguments(after, arguments, at + 1, found.push(value))
            },
        }
    }
}

/// The letter that stands for the type of an argument: `n` for a number,
/// `b` for a truth value, `c` for a character.
pub open spec fn tag(value: Value) -> Seq<char> {
    match value {
        Value::Float { .. } => "n"@,
        Value::Bool { .. } => "b"@,
        Value::Char { .. } => "c"@,
        _ => Seq::empty(),
    }
}

/// The letters of the arguments, in order.
pub open spec fn tags(values: Seq<Value>) -> Seq<char>
    decreases values.len(),
{
    if values.len() == 0 {
        Seq::empty()
    } else {
        tags(values.drop_last()) + tag(values.last())
    }
}

/// The name under which a function is looked up by the types of its
/// arguments: the name, an underscore, and one letter for each argument.
pub open spec fn typed_name(identifier: Seq<char>, values: Seq<Value>) -> Seq<char> {
    identifier + "_"@ + tags(values)
}

/// The function that a call means: the one that the module holds under the
/// name, and where there is none, the one that it holds under the name with
/// the types of the arguments.
pub open spec fn callee(functions: Seq<FunctionModel>, identifier: Seq<char>, values: Seq<Value>) -> Option<
    FunctionModel,
> {
    match find_function(functions, identifier) {
        Some(function) => Some(function),
        None => find_function(functions, typed_name(identifier, values)),
    }
}

/// The call of the function that `identifier` means with the given values:
/// the values as operands, then the call. The result is nothing where the
/// function returns nothing.
pub open spec fn called(s: CompilerModel, identifier: Seq<char>, values: Seq<Value>) -> Lowered {
    match callee(s.functions, identifier, values) {
        None => Err(LowerError::UnknownFunction),
        Some(function) => {
            let given = with_operands(s, values, 0);
            Ok(
                (
                    given.emit(Step::Call { function: function.id, arity: values.len() as usize }),
                    match function.result {
                        None => Value::Void,
                        Some(scalar) => Value::of(Operand { id: given.next(), kind: scalar.kind() }),
                    },
                ),
            )
        },
    }
}

/// What lowering a call gives: the arguments in order, then the call.
pub open spec fn lowered_function_call(s: CompilerModel, e: ExprModel) -> Lowered
    decreases e, 0nat,
{
    match e {
        ExprModel::FunctionCall { identifier, parameters, .. } => match lowered_arguments(
            s,
            parameters,
            0,
            Seq::empty(),
        ) {
            Err(error) => Err(error),
            Ok((after, values)) => called(after, identifier, values),
        },
        _ => Err(LowerError::Unimplemented),
    }
}

/// Lowers the arguments of a call and returns their values.
#[verifier::loop_isolation(false)]
pub fn lower_arguments(compiler: &mut Compiler, arguments: &Vec<Expr>) -> (r: Result<
    Vec<Value>,
    LowerError,
>)
    ensures
        match lowered_arguments(old(compiler)@, exprs_view(arguments@), 0, Seq::empty()) {
            Ok((state, values)) => r is Ok && r->Ok_0@ == values && final(compiler)@ == state,
            Err(error) => r == Err::<Vec<Value>, LowerError>(error),
        },
    decreases arguments, 0nat,
{
    let mut found: Vec<Value> = Vec::new();
    let mut at: usize = 0;
    while at < arguments.len()
        invariant
            at <= arguments.len(),
            lowered_arguments(compiler@, exprs_view(arguments@), at as int, found@)
                == lowered_arguments(old(compiler)@, exprs_view(arguments@), 0, Seq::empty()),
        decreases arguments.len() - at,
    {
        match lower_expr(compiler, &arguments[at]) {
            Ok(value) => {
                if value.scalar_of().is_none() {
                    return Err(LowerError::UnsupportedArgument);
                }
                found.push(value);
            },
            Err(error) => {
                return Err(error);
            },
        }
        at += 1;
    }
    Ok(found)
}

/// Builds the name of a function with the types of its arguments.
fn typed_name_of(identifier: &str, values: &Vec<Value>) -> (r: String)
    ensures
        r@ == typed_name(identifier@, values@),
{
    let mut name = String::from_str(identifier);
    name.append("_");
    let mut at: usize = 0;
    proof {
        assert(values@.take(0) =~= Seq::<Value>::empty());
        assert(name@ =~= identifier@ + "_"@ + tags(values@.take(0)));
    }
    while at < values.len()
        invariant
            at <= values.len(),
            name@ == identifier@ + "_"@ + tags(values@.take(at as int)),
        decreases values.len() - at,
    {
        proof {
            let longer = values@.take(at + 1);
            assert(longer.drop_last() =~= values@.take(at as int));
            assert(longer.last() == values@[at as int]);
        }
        match values[at] {
            Value::Float { .. } => {
                name.append("n");
            },
            Value::Bool { .. } => {
                name.append("b");
            },
            Value::Char { .. } => {
                name.append("c");
            },
            _ => {},
        }
        proof {
            assert(name@ =~= identifier@ + "_"@ + tags(values@.take(at + 1)));
        }
        at += 1;
    }
    proof {
        assert(values@.take(values.len() as int) =~= values@);
    }
    name
}

/// Calls the function that `identifier` means with the given values.
pub fn call(compiler: &mut Compiler, identifier: &str, values: &Vec<Value>) -> (r: Result<
    Value,
    LowerError,
>)
    ensures
        agrees(r, final(compiler)@, called(old(compiler)@, identifier@, values@)),
{
    let found = match compiler.function_named(identifier) {
        Some(found) => Some(found),
        None => {
            let typed = typed_name_of(identifier, values);
            compiler.function_named(typed.as_str())
        },
    };
    match found {
        None => Err(LowerError::UnknownFunction),
        Some((function, result)) => {
            give_operands(compiler, values);
            let id = compiler.emit(Step::Call { function, arity: values.len() });
            match result {
                None => Ok(Value::Void),
                Some(scalar) => Ok(Value::from(Operand { id, kind: scalar.kind() })),
            }
        },
    }
}

/// Lowers a call.
///
/// The function is looked up under its name first, then under the name
/// with one letter appended for the type of each argument. The trailing
/// block of the call takes no part in lowering.
pub fn lower_function_call(compiler: &mut Compiler, expr: &Expr) -> (r: Result<Value, LowerError>)
    ensures
        agrees(r, final(compiler)@, lowered_function_call(old(compiler)@, expr@)),
    decreases expr, 0nat,
{
    match expr {
        Expr::FunctionCall { identifier, parameters, .. } => {
            let values = match lower_arguments(compiler, parameters) {
                Ok(values) => values,
                Err(error) => {
                    return Err(error);
                },
            };
            call(compiler, identifier.as_str(), &values)
        },
        _ => Err(LowerError::Unimplemented),
    }
}

} // verus!
