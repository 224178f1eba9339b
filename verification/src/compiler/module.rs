//! What lowering produces: the steps by which a back end builds the module.
use vstd::prelude::*;

verus! {

/// The type of a value that is no array.
#[derive(Debug, Clone, Copy, PartialEq, Eq, Structural)]
pub enum Scalar {
    /// A 32-bit floating-point number.
    Number,
    /// A truth value, one bit wide.
    Bool,
    /// A character, eight bits wide.
    Char,
}

/// The machine type of a value or of a storage cell.
#[derive(Debug, Clone, Copy, PartialEq, Eq, Structural)]
pub enum Kind {
    Number,
    Bool,
    Char,
    /// The 32-bit integer in which a `for` loop counts.
    Index,
    /// `len` values of one scalar type.
    Array { len: u32, element: Scalar },
}

/// The name under which a block is appended to its function.
#[derive(Debug, Clone, Copy, PartialEq, Eq, Structural)]
pub enum Label {
    /// The first block of the entry point.
    Entry,
    /// The first block of a defined function, named like the function.
    Body,
    Then,
    Else,
    Merge,
    Loop,
}

/// An arithmetic operation on two numbers.
#[derive(Debug, Clone, Copy, PartialEq, Eq, Structural)]
pub enum Arithmetic {
    Add,
    Sub,
    Mul,
    Div,
    Rem,
}

/// A comparison of two numbers. Each holds also where the operands are
/// unordered.
#[derive(Debug, Clone, Copy, PartialEq, Eq, Structural)]
pub enum Comparison {
    Lt,
    Gt,
    Lte,
    Gte,
    Eq,
    NotEq,
}

/// Where a declared function comes from.
#[derive(Debug, Clone, Copy, PartialEq, Eq, Structural)]
pub enum Origin {
    /// Defined by the program; its body follows.
    Defined,
    /// A native built-in, registered under its name.
    Builtin,
    /// Brought in by the support library.
    Support,
}

/// One step of building a module.
///
/// Steps are numbered from zero in the order in which they are taken. A
/// step that creates a value, a block or a function is referred to by its
/// number. Names are numbers too: places in the module's table of names.
#[derive(Debug, Clone, Copy, PartialEq, Eq)]
#[allow(inconsistent_fields)]
pub enum Step {
    /// Adds a function to the module. The next `arity` steps are its
    /// parameters. `result` is `None` for a function that returns nothing.
    DeclareFunction { name: usize, result: Option<Scalar>, arity: usize, origin: Origin },
    /// The next parameter of the function declared last; as a value, what
    /// the function receives for it.
    Parameter { kind: Scalar },
    /// Links the support library into the module.
    LinkSupportLibrary,
    /// Appends an empty block to a function.
    AppendBlock { function: usize, label: Label },
    /// Moves the builder in use to the end of a block.
    PositionAtEnd { block: usize },
    /// Starts to use a new builder, placed at the end of a block.
    PushBuilder { block: usize },
    /// Goes back to the builder in use before the last one was pushed.
    PopBuilder,
    /// A constant number; its literal is the name `literal`.
    ConstNumber { literal: usize },
    ConstBool { value: bool },
    ConstChar { code: u8 },
    ConstIndex { value: u32 },
    /// One operand of the `Array` or `Call` that follows.
    Element { value: usize },
    /// The array of the `len` operands given just before. Where `folded`
    /// holds all of them are constants, and so is the array: no instruction
    /// is appended for it. Else instructions put the elements together.
    Array { element: Scalar, len: u32, folded: bool },
    /// The constant array of the numbers from `start` up to, not including,
    /// `end`.
    ConstRange { start: u32, end: u32 },
    /// Reserves a cell on the stack; the value is its address.
    Alloca { kind: Kind, name: Option<usize> },
    /// Adds a global cell; the value is its address. The cell starts out
    /// holding `initializer`, which is a constant, or zero where none is
    /// given.
    Global { kind: Kind, name: usize, initializer: Option<usize> },
    Store { pointer: usize, value: usize },
    Load { kind: Kind, pointer: usize },
    /// The address of the element at `index` in the cells at `pointer`.
    ElementPointer { element: Scalar, pointer: usize, index: usize },
    /// A number cut down to an unsigned index. Where `folded` holds the
    /// number is a constant, and so is the index: no instruction is
    /// appended for it.
    ToIndex { value: usize, folded: bool },
    /// The negation of a number. Where `folded` holds the number is a
    /// constant, and so is the result: no instruction is appended for it.
    Negate { value: usize, folded: bool },
    /// An arithmetic operation. Where `folded` holds both operands are
    /// constants, and so is the result: no instruction is appended for it.
    Arithmetic { op: Arithmetic, lhs: usize, rhs: usize, folded: bool },
    /// A comparison. Where `folded` holds both operands are constants, and
    /// so is the result: no instruction is appended for it.
    Compare { op: Comparison, lhs: usize, rhs: usize, folded: bool },
    IndexAdd { lhs: usize, rhs: usize },
    IndexNotEqual { lhs: usize, rhs: usize },
    /// Calls a function with the `arity` operands given just before.
    Call { function: usize, arity: usize },
    Return { value: Option<usize> },
    Branch { target: usize },
    ConditionalBranch { condition: usize, then_block: usize, else_block: usize },
}

impl Step {
    /// Whether the step ends a block.
    pub open spec fn is_terminator(self) -> bool {
        self is Return || self is Branch || self is ConditionalBranch
    }

    /// Whether the step works on constants only, so that its result is a
    /// constant and no instruction is appended for it.
    pub open spec fn is_folded(self) -> bool {
        match self {
            Step::Array { folded, .. } => folded,
            Step::ToIndex { folded, .. } => folded,
            Step::Negate { folded, .. } => folded,
            Step::Arithmetic { folded, .. } => folded,
            Step::Compare { folded, .. } => folded,
            _ => false,
        }
    }

    /// Whether the step appends an instruction that does not end the block.
    /// An operation on constants appends none.
    pub open spec fn is_instruction(self) -> bool {
        (self is Array || self is Alloca || self is Store || self is Load
            || self is ElementPointer || self is ToIndex || self is Negate || self is Arithmetic
            || self is Compare || self is IndexAdd || self is IndexNotEqual || self is Call)
            && !self.is_folded()
    }

    /// Whether the step moves to the end of a block.
    pub open spec fn is_move(self) -> bool {
        self is PositionAtEnd || self is PushBuilder
    }

    /// Whether the block at whose end the builder stands ends in a
    /// terminator after the step, given whether it did before. A block
    /// moved to is taken to be open.
    pub open spec fn terminates(self, before: bool) -> bool {
        if self.is_terminator() {
            true
        } else if self.is_instruction() || self.is_move() {
            false
        } else {
            before
        }
    }

    /// Computes [`Step::terminates`].
    pub fn ends_block(&self, before: bool) -> (r: bool)
        ensures
            r == self.terminates(before),
    {
        match self {
            Step::Return { .. } | Step::Branch { .. } | Step::ConditionalBranch { .. } => true,
            Step::Array { folded, .. }
            | Step::ToIndex { folded, .. }
            | Step::Negate { folded, .. }
            | Step::Arithmetic { folded, .. }
            | Step::Compare { folded, .. } => *folded && before,
            Step::Alloca { .. }
            | Step::Store { .. }
            | Step::Load { .. }
            | Step::ElementPointer { .. }
            | Step::IndexAdd { .. }
            | Step::IndexNotEqual { .. }
            | Step::Call { .. }
            | Step::PositionAtEnd { .. }
            | Step::PushBuilder { .. } => false,
            _ => before,
        }
    }
}

impl Scalar {
    /// The machine type of a value of this type.
    pub open spec fn spec_kind(self) -> Kind {
        match self {
            Scalar::Number => Kind::Number,
            Scalar::Bool => Kind::Bool,
            Scalar::Char => Kind::Char,
        }
    }

    /// The machine type of a value of this type.
    #[verifier::when_used_as_spec(spec_kind)]
    pub fn kind(self) -> (r: Kind)
        ensures
            r == self.spec_kind(),
    {
        match self {
            Scalar::Number => Kind::Number,
            Scalar::Bool => Kind::Bool,
            Scalar::Char => Kind::Char,
        }
    }
}

} // verus!
