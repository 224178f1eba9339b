//! From the syntax tree to the build steps of a module.
use crate::compiler::builtins::{builtin_table, builtins, builtins_view, Builtin, BuiltinModel};
use crate::compiler::codegen::scope::{Binding, Frame, Scopes};
use crate::compiler::codegen::value::{LowerError, Value};
use crate::compiler::codegen::{lower_block, lowered_block};
use crate::compiler::module::{Label, Origin, Scalar, Step};
use crate::parser::{JamalangFile, JamalangFileModel};
use vstd::prelude::*;
use vstd::string::StringExecFns;

pub mod builtins;
pub mod codegen;
pub mod module;

verus! {

/// A function that the module holds: its name, the number of the step that
/// declared it, and the type of what it returns, `None` for nothing.
#[derive(Debug, PartialEq)]
pub struct FunctionEntry {
    pub name: String,
    pub id: usize,
    pub result: Option<Scalar>,
}

/// The mathematical model of a [`FunctionEntry`].
pub struct FunctionModel {
    pub name: Seq<char>,
    pub id: usize,
    pub result: Option<Scalar>,
}

impl FunctionEntry {
    pub open spec fn view(&self) -> FunctionModel {
        FunctionModel { name: self.name@, id: self.id, result: self.result }
    }
}

/// The models of the functions, one for one.
pub open spec fn functions_view(functions: Seq<FunctionEntry>) -> Seq<FunctionModel> {
    Seq::new(functions.len(), |i: int| functions[i]@)
}

/// The texts of the names, one for one.
pub open spec fn names_view(names: Seq<String>) -> Seq<Seq<char>> {
    Seq::new(names.len(), |i: int| names[i]@)
}

/// The function that the module holds under `name`: the one declared last
/// under it.
pub open spec fn find_function(functions: Seq<FunctionModel>, name: Seq<char>) -> Option<
    FunctionModel,
>
    decreases functions.len(),
{
    if functions.len() == 0 {
        None
    } else if functions.last().name == name {
        Some(functions.last())
    } else {
        find_function(functions.drop_last(), name)
    }
}

/// What lowering has produced for the back end: the steps, and the names
/// that the steps refer to.
#[derive(Debug)]
pub struct Module {
    pub steps: Vec<Step>,
    pub names: Vec<String>,
}

/// The state of one compilation.
#[derive(Debug)]
pub struct Compiler {
    /// The module built so far.
    pub module: Module,
    /// The native functions that are registered with every program.
    pub builtins: Vec<Builtin>,
    /// The functions that the module holds, in the order of their
    /// declaration.
    pub functions: Vec<FunctionEntry>,
    /// The stack of scopes.
    pub variables: Scopes,
    /// The function to which blocks are appended.
    pub function: usize,
    /// Whether the block at whose end the builder stands ends in a
    /// terminator.
    pub terminated: bool,
}

/// The mathematical model of a [`Compiler`].
pub struct CompilerModel {
    pub builtins: Seq<BuiltinModel>,
    pub steps: Seq<Step>,
    pub names: Seq<Seq<char>>,
    pub functions: Seq<FunctionModel>,
    pub scopes: Seq<Map<Seq<char>, Binding>>,
    pub function: usize,
    pub terminated: bool,
}

/// What lowering gives: the state after it and the value, or the reason
/// why the program cannot be lowered.
pub type Lowered = Result<(CompilerModel, Value), LowerError>;

impl CompilerModel {
    /// Whether the steps and the names can be numbered by the machine, as
    /// those of every [`Compiler`] can.
    pub open spec fn countable(self) -> bool {
        self.steps.len() <= usize::MAX && self.names.len() <= usize::MAX
    }

    /// The number of the step that is taken next.
    pub open spec fn next(self) -> usize {
        self.steps.len() as usize
    }

    /// The number of the name that is added next.
    pub open spec fn next_name(self) -> usize {
        self.names.len() as usize
    }

    /// The state after `step` is taken.
    pub open spec fn emit(self, step: Step) -> CompilerModel {
        CompilerModel {
            steps: self.steps.push(step),
            terminated: step.terminates(self.terminated),
            ..self
        }
    }

    /// The state after `name` is added to the names.
    pub open spec fn intern(self, name: Seq<char>) -> CompilerModel {
        CompilerModel { names: self.names.push(name), ..self }
    }

    /// The state after a function is added to those that the module holds.
    pub open spec fn declare(self, function: FunctionModel) -> CompilerModel {
        CompilerModel { functions: self.functions.push(function), ..self }
    }

    /// The state with other scopes.
    pub open spec fn with_scopes(self, scopes: Seq<Map<Seq<char>, Binding>>) -> CompilerModel {
        CompilerModel { scopes, ..self }
    }

    /// The state with the builder in another function, at the end of a
    /// block that is open or not.
    pub open spec fn at(self, function: usize, terminated: bool) -> CompilerModel {
        CompilerModel { function, terminated, ..self }
    }
}

/// Whether what a lowering function returned, and the state it left, are
/// what `expected` says. Where lowering fails, the state it leaves is not
/// determined.
pub open spec fn agrees(r: Result<Value, LowerError>, after: CompilerModel, expected: Lowered) -> bool {
    match expected {
        Ok((state, value)) => r == Ok::<Value, LowerError>(value) && after == state,
        Err(error) => r == Err::<Value, LowerError>(error),
    }
}

impl Compiler {
    pub open spec fn view(&self) -> CompilerModel {
        CompilerModel {
            builtins: builtins_view(self.builtins@),
            steps: self.module.steps@,
            names: names_view(self.module.names@),
            functions: functions_view(self.functions@),
            scopes: self.variables@,
            function: self.function,
            terminated: self.terminated,
        }
    }

    /// Takes a step, and returns its number.
    pub fn emit(&mut self, step: Step) -> (id: usize)
        ensures
            final(self)@ == old(self)@.emit(step),
            final(self).builtins == old(self).builtins,
            id == old(self)@.next(),
    {
        let id = self.module.steps.len();
        self.terminated = step.ends_block(self.terminated);
        self.module.steps.push(step);
        id
    }

    /// Adds a name, and returns its number.
    pub fn intern(&mut self, name: &str) -> (id: usize)
        ensures
            final(self)@ == old(self)@.intern(name@),
            final(self).builtins == old(self).builtins,
            id == old(self)@.next_name(),
    {
        let id = self.module.names.len();
        self.module.names.push(String::from_str(name));
        proof {
            assert(names_view(self.module.names@) =~= names_view(old(self).module.names@).push(
                name@,
            ));
        }
        id
    }

    /// Adds a function to those that the module holds.
    pub fn declare(&mut self, name: &str, id: usize, result: Option<Scalar>)
        ensures
            final(self)@ == old(self)@.declare(FunctionModel { name: name@, id, result }),
            final(self).builtins == old(self).builtins,
    {
        let entry = FunctionEntry { name: String::from_str(name), id, result };
        self.functions.push(entry);
        proof {
            assert(functions_view(self.functions@) =~= functions_view(old(self).functions@).push(
                FunctionModel { name: name@, id, result },
            ));
        }
    }

    /// Finds the function that the module holds under `name`: its number
    /// and the type of what it returns.
    pub fn function_named(&self, name: &str) -> (r: Option<(usize, Option<Scalar>)>)
        ensures
            match find_function(self@.functions, name@) {
                Some(function) => r == Some((function.id, function.result)),
                None => r is None,
            },
    {
        let key = String::from_str(name);
        let mut at = self.functions.len();
        proof {
            assert(self@.functions.take(at as int) =~= self@.functions);
        }
        while at > 0
            invariant
                at <= self.functions.len(),
                key@ == name@,
                find_function(self@.functions.take(at as int), name@) == find_function(
                    self@.functions,
                    name@,
                ),
            decreases at,
        {
            proof {
                let part = self@.functions.take(at as int);
                assert(part.drop_last() =~= self@.functions.take(at - 1));
                assert(part.last() == self.functions@[at - 1]@);
            }
            if self.functions[at - 1].name == key {
                return Some((self.functions[at - 1].id, self.functions[at - 1].result));
            }
            at -= 1;
        }
        None
    }
}

/// What a compilation leaves behind beside the module: the names that the
/// program binds at top level.
#[derive(Debug)]
pub struct CompileResult {
    pub variables: Frame,
}

/// The state after the built-ins from `at` on are registered: each is
/// declared under its name, as a function of one parameter that returns
/// nothing, and added to those that the module holds.
pub open spec fn registered(s: CompilerModel, builtins: Seq<BuiltinModel>, at: int) -> CompilerModel
    decreases builtins.len() - at,
{
    if at < 0 || at >= builtins.len() {
        s
    } else {
        registered(
            s.intern(builtins[at].name).emit(
                Step::DeclareFunction {
                    name: s.next_name(),
                    result: None,
                    arity: 1,
                    origin: Origin::Builtin,
                },
            ).declare(FunctionModel { name: builtins[at].name, id: s.next(), result: None }).emit(
                Step::Parameter { kind: builtins[at].parameter },
            ),
            builtins,
            at + 1,
        )
    }
}

/// The state after the support library is linked in. The library brings
/// one function, `stdlibTest`, which takes nothing and returns a number.
pub open spec fn linked(s: CompilerModel) -> CompilerModel {
    let joined = s.emit(Step::LinkSupportLibrary);
    joined.intern("stdlibTest"@).emit(
        Step::DeclareFunction {
            name: s.next_name(),
            result: Some(Scalar::Number),
            arity: 0,
            origin: Origin::Support,
        },
    ).declare(
        FunctionModel { name: "stdlibTest"@, id: joined.next(), result: Some(Scalar::Number) },
    )
}

/// The name of the entry point of a program: the name of its source file,
/// and `_entry` after it.
pub open spec fn entry_name(source_file: Seq<char>) -> Seq<char> {
    source_file + "_entry"@
}

/// The state in which the statements of a program are lowered: the entry
/// point is declared, as a function that takes and returns nothing; the
/// builder stands at the end of its first block; and one frame is open,
/// which binds nothing.
pub open spec fn started(s: CompilerModel, source_file: Seq<char>) -> CompilerModel {
    let main = s.next();
    let declared = s.intern(entry_name(source_file)).emit(
        Step::DeclareFunction {
            name: s.next_name(),
            result: None,
            arity: 0,
            origin: Origin::Defined,
        },
    ).declare(FunctionModel { name: entry_name(source_file), id: main, result: None });
    declared.emit(Step::AppendBlock { function: main, label: Label::Entry }).emit(
        Step::PositionAtEnd { block: declared.next() },
    ).at(main, false).with_scopes(Seq::empty().push(Map::empty()))
}

/// What compiling a program gives: the state after it, and what the
/// program binds at top level.
///
/// The built-ins of the state are registered, the support library is
/// linked in, and the statements are lowered at top level into the entry
/// point, which then returns. The built-ins stay as they are.
pub open spec fn compiled(s: CompilerModel, file: JamalangFileModel) -> Result<
    (CompilerModel, Map<Seq<char>, Binding>),
    LowerError,
> {
    match lowered_block(
        started(linked(registered(s, s.builtins, 0)), file.source_file),
        file.statements,
        0,
        true,
    ) {
        Err(error) => Err(error),
        Ok(done) => if done.scopes.len() == 0 {
            Err(LowerError::NoFrame)
        } else {
            Ok(
                (
                    done.emit(Step::Return { value: None }).with_scopes(done.scopes.drop_last()),
                    done.scopes.last(),
                ),
            )
        },
    }
}

/// The name of the entry point of the program read from `source_file`.
pub fn entry_point(source_file: &str) -> (r: String)
    ensures
        r@ == entry_name(source_file@),
{
    String::from_str(source_file).concat("_entry")
}

impl Compiler {
    /// A compiler with an empty module and the built-ins of
    /// [`builtin_table`].
    pub fn new() -> (r: Compiler)
        ensures
            r@.steps == Seq::<Step>::empty(),
            r@.names == Seq::<Seq<char>>::empty(),
            r@.functions == Seq::<FunctionModel>::empty(),
            r@.scopes == Seq::<Map<Seq<char>, Binding>>::empty(),
            r@.function == 0,
            !r@.terminated,
            r@.builtins == builtin_table(),
    {
        let r = Compiler {
            module: Module { steps: Vec::new(), names: Vec::new() },
            builtins: builtins(),
            functions: Vec::new(),
            variables: Scopes::new(),
            function: 0,
            terminated: false,
        };
        proof {
            assert(r@.names =~= Seq::<Seq<char>>::empty());
            assert(r@.functions =~= Seq::<FunctionModel>::empty());
        }
        r
    }

    /// Registers the built-ins with the module.
    fn register_builtins(&mut self)
        ensures
            final(self)@ == registered(old(self)@, old(self)@.builtins, 0),
    {
        let mut at: usize = 0;
        while at < self.builtins.len()
            invariant
                at <= self.builtins.len(),
                self.builtins == old(self).builtins,
                registered(self@, builtins_view(self.builtins@), at as int) == registered(
                    old(self)@,
                    builtins_view(old(self).builtins@),
                    0,
                ),
            decreases self.builtins.len() - at,
        {
            let name = self.builtins[at].name.clone();
            let kind = self.builtins[at].parameter;
            let id = self.intern(name.as_str());
            let function = self.emit(
                Step::DeclareFunction { name: id, result: None, arity: 1, origin: Origin::Builtin },
            );
            self.declare(name.as_str(), function, None);
            self.emit(Step::Parameter { kind });
            at += 1;
        }
    }

    /// Links the support library into the module.
    fn link_stdlib(&mut self)
        ensures
            final(self)@ == linked(old(self)@),
            final(self).builtins == old(self).builtins,
    {
        self.emit(Step::LinkSupportLibrary);
        let name = self.intern("stdlibTest");
        let function = self.emit(
            Step::DeclareFunction {
                name,
                result: Some(Scalar::Number),
                arity: 0,
                origin: Origin::Support,
            },
        );
        self.declare("stdlibTest", function, Some(Scalar::Number));
    }

    /// Declares the entry point and moves into it.
    fn start(&mut self, source_file: &str)
        ensures
            final(self)@ == started(old(self)@, source_file@),
            final(self).builtins == old(self).builtins,
    {
        let entry = entry_point(source_file);
        let name = self.intern(entry.as_str());
        let main = self.emit(
            Step::DeclareFunction { name, result: None, arity: 0, origin: Origin::Defined },
        );
        self.declare(entry.as_str(), main, None);
        let block = self.emit(Step::AppendBlock { function: main, label: Label::Entry });
        self.emit(Step::PositionAtEnd { block });
        self.function = main;
        self.terminated = false;
        self.variables = Scopes::new();
        self.variables.push_frame();
    }

    /// Compiles a program into the module.
    ///
    /// Succeeds exactly where every statement can be lowered, and fails
    /// with the reason of the first statement that cannot. On success the
    /// module holds the steps of the whole program after those it held
    /// before, and the result holds what the program binds at top level.
    /// The entry point is named after the source file, with `_entry`
    /// appended.
    pub fn compile(&mut self, file: &JamalangFile) -> (r: Result<CompileResult, LowerError>)
        ensures
            match compiled(old(self)@, file@) {
                Ok((state, variables)) => {
                    &&& r is Ok
                    &&& r->Ok_0.variables@ == variables
                    &&& final(self)@ == state
                },
                Err(error) => r == Err::<CompileResult, LowerError>(error),
            },
    {
        self.register_builtins();
        self.link_stdlib();
        self.start(file.source_file.as_str());
        match lower_block(self, &file.statements, true) {
            Ok(()) => {},
            Err(error) => {
                return Err(error);
            },
        }
        self.emit(Step::Return { value: None });
        match self.variables.pop_frame() {
            Some(variables) => Ok(CompileResult { variables }),
            None => Err(LowerError::NoFrame),
        }
    }
}

} // verus!
