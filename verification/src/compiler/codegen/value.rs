//! Typed values.
use crate::compiler::module::{Kind, Scalar, Step};
use crate::compiler::{Compiler, CompilerModel};
use vstd::prelude::*;
use vstd::string::StringExecFns;

verus! {

/// Why a program cannot be lowered.
#[derive(Debug, Clone, Copy, PartialEq, Eq, Structural)]
pub enum LowerError {
    /// A name is read that no open frame binds.
    UnknownVariable,
    /// A function is called that the module does not hold, neither under
    /// its name nor under the name with the argument types appended.
    UnknownFunction,
    /// An operator is applied to operands that are not numbers, or a
    /// condition is no truth value.
    TypeMismatch,
    /// The construct is part of the syntax but has no lowering: the power
    /// operator, or a compound assignment to an element.
    Unimplemented,
    /// A type hint names a type without a machine type.
    UnsupportedType,
    /// An argument is neither number nor truth value nor character.
    UnsupportedArgument,
    /// Nothing was given where a value is needed.
    VoidValue,
    /// An array literal has no element.
    EmptyArray,
    /// The elements of an array literal are arrays or nothing.
    UnsupportedElement,
    /// The elements of an array literal differ in type.
    MixedArray,
    /// An array literal has more elements than 32 bits count.
    ArrayTooLong,
    /// An operand of a range is no constant.
    NotConstant,
    /// An index is applied to, or a loop walks, what is no array.
    NotAnArray,
    /// An index is no number.
    IndexNotNumber,
    /// No frame is open to bind a name in.
    NoFrame,
}

/// A value as the builder holds it: its number and its machine type.
#[derive(Debug, Clone, Copy, PartialEq, Eq)]
pub struct Operand {
    pub id: usize,
    pub kind: Kind,
}

/// A typed value: what lowering an expression gives.
#[derive(Debug, Clone, Copy, PartialEq, Eq)]
#[allow(inconsistent_fields)]
pub enum Value {
    /// A number. `literal` holds the whole part of the number where it is
    /// the value of a literal.
    Float { id: usize, constant: bool, literal: Option<u32> },
    Bool { id: usize, constant: bool },
    Char { id: usize, constant: bool },
    Array { id: usize, constant: bool, len: u32, element: Scalar },
    Void,
}

impl Value {
    /// The value as the builder holds it; nothing for `Void`.
    pub open spec fn operand(self) -> Option<Operand> {
        match self {
            Value::Float { id, .. } => Some(Operand { id, kind: Kind::Number }),
            Value::Bool { id, .. } => Some(Operand { id, kind: Kind::Bool }),
            Value::Char { id, .. } => Some(Operand { id, kind: Kind::Char }),
            Value::Array { id, len, element, .. } => Some(
                Operand { id, kind: Kind::Array { len, element } },
            ),
            Value::Void => None,
        }
    }

    /// The typed value of what the builder holds. It is no constant; an
    /// integer that is not one bit wide is a character.
    pub open spec fn of(operand: Operand) -> Value {
        match operand.kind {
            Kind::Number => Value::Float { id: operand.id, constant: false, literal: None },
            Kind::Bool => Value::Bool { id: operand.id, constant: false },
            Kind::Char => Value::Char { id: operand.id, constant: false },
            Kind::Index => Value::Char { id: operand.id, constant: false },
            Kind::Array { len, element } => Value::Array {
                id: operand.id,
                constant: false,
                len,
                element,
            },
        }
    }

    /// Whether the value is a constant: one that the back end holds without
    /// an instruction that computes it. Literals are constants, and so is
    /// what operations on constants give.
    pub open spec fn spec_is_constant(self) -> bool {
        match self {
            Value::Float { constant, .. } => constant,
            Value::Bool { constant, .. } => constant,
            Value::Char { constant, .. } => constant,
            Value::Array { constant, .. } => constant,
            Value::Void => false,
        }
    }

    /// The scalar type of the value, where it has one.
    pub open spec fn scalar(self) -> Option<Scalar> {
        match self {
            Value::Float { .. } => Some(Scalar::Number),
            Value::Bool { .. } => Some(Scalar::Bool),
            Value::Char { .. } => Some(Scalar::Char),
            _ => None,
        }
    }

    /// The value as the builder holds it. Fails with
    /// [`LowerError::VoidValue`] exactly for `Void`.
    pub fn into_basic_value(self) -> (r: Result<Operand, LowerError>)
        ensures
            r == match self.operand() {
                Some(operand) => Ok::<Operand, LowerError>(operand),
                None => Err(LowerError::VoidValue),
            },
    {
        match self {
            Value::Float { id, .. } => Ok(Operand { id, kind: Kind::Number }),
            Value::Bool { id, .. } => Ok(Operand { id, kind: Kind::Bool }),
            Value::Char { id, .. } => Ok(Operand { id, kind: Kind::Char }),
            Value::Array { id, len, element, .. } => Ok(
                Operand { id, kind: Kind::Array { len, element } },
            ),
            Value::Void => Err(LowerError::VoidValue),
        }
    }

    /// The typed value of what the builder holds.
    pub fn from(value: Operand) -> (r: Value)
        ensures
            r == Value::of(value),
    {
        match value.kind {
            Kind::Number => Value::Float { id: value.id, constant: false, literal: None },
            Kind::Bool => Value::Bool { id: value.id, constant: false },
            Kind::Char => Value::Char { id: value.id, constant: false },
            Kind::Index => Value::Char { id: value.id, constant: false },
            Kind::Array { len, element } => Value::Array {
                id: value.id,
                constant: false,
                len,
                element,
            },
        }
    }

    /// Whether the value is a constant.
    #[verifier::when_used_as_spec(spec_is_constant)]
    pub fn is_constant(self) -> (r: bool)
        ensures
            r == self.spec_is_constant(),
    {
        match self {
            Value::Float { constant, .. } => constant,
            Value::Bool { constant, .. } => constant,
            Value::Char { constant, .. } => constant,
            Value::Array { constant, .. } => constant,
            Value::Void => false,
        }
    }

    /// The scalar type of the value, where it has one.
    pub fn scalar_of(self) -> (r: Option<Scalar>)
        ensures
            r == self.scalar(),
    {
        match self {
            Value::Float { .. } => Some(Scalar::Number),
            Value::Bool { .. } => Some(Scalar::Bool),
            Value::Char { .. } => Some(Scalar::Char),
            _ => None,
        }
    }
}

/// The name of the cell that is reserved on the stack for `identifier`.
pub open spec fn stack_name(identifier: Seq<char>) -> Seq<char> {
    "alloca_"@ + identifier
}

/// The name of the global that is made for `identifier`. Under this name
/// the global is found in the module once it is built.
pub open spec fn global_name(identifier: Seq<char>) -> Seq<char> {
    "global_"@ + identifier
}

/// Computes [`stack_name`].
pub fn stack_name_of(identifier: &str) -> (r: String)
    ensures
        r@ == stack_name(identifier@),
{
    String::from_str("alloca_").concat(identifier)
}

/// Computes [`global_name`].
pub fn global_name_of(identifier: &str) -> (r: String)
    ensures
        r@ == global_name(identifier@),
{
    String::from_str("global_").concat(identifier)
}

/// What reserving a cell on the stack for a value gives: the state, and the
/// number of the cell's address. The cell is named after `identifier` and
/// has the type of the value. Nothing gets no cell.
pub open spec fn allocated(s: CompilerModel, value: Value, identifier: Seq<char>) -> Result<
    (CompilerModel, usize),
    LowerError,
> {
    match value.operand() {
        None => Err(LowerError::VoidValue),
        Some(operand) => Ok(
            (
                s.intern(stack_name(identifier)).emit(
                    Step::Alloca { kind: operand.kind, name: Some(s.next_name()) },
                ),
                s.next(),
            ),
        ),
    }
}

/// What adding a global cell for a value gives: the state, and the number
/// of the cell's address. The cell is named after `identifier` and has the
/// type of the value. It starts out holding the value where that is a
/// constant, and zero where it is not. Nothing gets no cell.
pub open spec fn allocated_global(s: CompilerModel, value: Value, identifier: Seq<char>) -> Result<
    (CompilerModel, usize),
    LowerError,
> {
    match value.operand() {
        None => Err(LowerError::VoidValue),
        Some(operand) => Ok(
            (
                s.intern(global_name(identifier)).emit(
                    Step::Global {
                        kind: operand.kind,
                        name: s.next_name(),
                        initializer: if value.is_constant() {
                            Some(operand.id)
                        } else {
                            None
                        },
                    },
                ),
                s.next(),
            ),
        ),
    }
}

/// Whether what an allocation returned, and the state it left, are what
/// `expected` says.
pub open spec fn allocation_agrees(
    r: Result<usize, LowerError>,
    after: CompilerModel,
    expected: Result<(CompilerModel, usize), LowerError>,
) -> bool {
    match expected {
        Ok((state, pointer)) => r == Ok::<usize, LowerError>(pointer) && after == state,
        Err(error) => r == Err::<usize, LowerError>(error),
    }
}

impl Value {
    /// Reserves a cell on the stack for the value and returns the number of
    /// its address.
    pub fn alloca(&self, compiler: &mut Compiler, identifier: &str) -> (r: Result<
        usize,
        LowerError,
    >)
        ensures
            allocation_agrees(
                r,
                final(compiler)@,
                allocated(old(compiler)@, *self, identifier@),
            ),
    {
        match self.into_basic_value() {
            Err(error) => Err(error),
            Ok(operand) => {
                let name = compiler.intern(stack_name_of(identifier).as_str());
                Ok(compiler.emit(Step::Alloca { kind: operand.kind, name: Some(name) }))
            },
        }
    }

    /// Adds a global cell for the value, which starts out holding it where
    /// it is a constant, and returns the number of its address.
    pub fn global_alloca(&self, compiler: &mut Compiler, identifier: &str) -> (r: Result<
        usize,
        LowerError,
    >)
        ensures
            allocation_agrees(
                r,
                final(compiler)@,
                allocated_global(old(compiler)@, *self, identifier@),
            ),
    {
        match self.into_basic_value() {
            Err(error) => Err(error),
            Ok(operand) => {
                let name = compiler.intern(global_name_of(identifier).as_str());
                let initializer = if self.is_constant() {
                    Some(operand.id)
                } else {
                    None
                };
                Ok(compiler.emit(Step::Global { kind: operand.kind, name, initializer }))
            },
        }
    }
}

} // verus!
