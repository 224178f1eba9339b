//! Whole programs are compiled in order.
use crate::compiler::{
    compiled, entry_name, find_function, linked, registered, started, CompilerModel, FunctionModel,
};
use crate::compiler::builtins::BuiltinModel;
use crate::compiler::codegen::lowered_block;
use crate::compiler::codegen::order::{
    cell_before, function_before, grows, held, lemma_emit_grows, lemma_emit_sound, lemma_grows_on,
    lemma_step_stays, sound, step_in_order,
};
use crate::compiler::codegen::order::statements::{lemma_block_in_order, lemma_held_is_found};
use crate::compiler::module::{Label, Origin, Scalar, Step};
use crate::parser::JamalangFileModel;
use vstd::prelude::*;

verus! {

/// A step that is in order keeps in order what the state holds for good.
pub proof fn lemma_emit_held(s: CompilerModel, step: Step)
    requires
        held(s),
        s.steps.len() < usize::MAX,
        step_in_order(s.steps.push(step), s.names.len(), s.steps.len() as int),
    ensures
        held(s.emit(step)),
{
    let after = s.emit(step);
    assert forall|at: int| 0 <= at < after.steps.len() implies #[trigger] step_in_order(
        after.steps,
        after.names.len(),
        at,
    ) by {
        if at < s.steps.len() {
            assert(step_in_order(s.steps, s.names.len(), at));
            lemma_step_stays(s.steps, s.names.len(), after.steps, after.names.len(), at);
        }
    }
}

/// A new name keeps in order what the state holds for good.
pub proof fn lemma_intern_held(s: CompilerModel, name: Seq<char>)
    requires
        held(s),
        s.names.len() < usize::MAX,
    ensures
        held(s.intern(name)),
{
    let after = s.intern(name);
    assert forall|at: int| 0 <= at < after.steps.len() implies #[trigger] step_in_order(
        after.steps,
        after.names.len(),
        at,
    ) by {
        assert(step_in_order(s.steps, s.names.len(), at));
        lemma_step_stays(s.steps, s.names.len(), after.steps, after.names.len(), at);
    }
}

/// A function that is declared among the steps can be added to those that
/// the module holds.
pub proof fn lemma_declare_held(s: CompilerModel, function: FunctionModel)
    requires
        held(s),
        function_before(s.steps, function.id, s.steps.len() as int),
    ensures
        held(s.declare(function)),
{
    let after = s.declare(function);
    assert forall|k: int| 0 <= k < after.functions.len() implies function_before(
        after.steps,
        (#[trigger] after.functions[k]).id,
        after.steps.len() as int,
    ) by {
        if k < s.functions.len() {
            assert(after.functions[k] == s.functions[k]);
        }
    }
}

/// Declaring a function under a new name keeps in order what the state
/// holds for good.
pub proof fn lemma_declared_held(
    s: CompilerModel,
    name: Seq<char>,
    result: Option<Scalar>,
    arity: usize,
    origin: Origin,
)
    requires
        held(s),
        s.steps.len() < usize::MAX,
        s.names.len() < usize::MAX,
    ensures
        held(
            s.intern(name).emit(
                Step::DeclareFunction { name: s.next_name(), result, arity, origin },
            ).declare(FunctionModel { name, id: s.next(), result }),
        ),
{
    let step = Step::DeclareFunction { name: s.next_name(), result, arity, origin };
    lemma_intern_held(s, name);
    lemma_emit_held(s.intern(name), step);
    lemma_declare_held(s.intern(name).emit(step), FunctionModel { name, id: s.next(), result });
}

/// Registering the built-ins keeps in order what the state holds for good.
pub proof fn lemma_registered_held(s: CompilerModel, builtins: Seq<BuiltinModel>, at: int)
    ensures
        grows(s, registered(s, builtins, at)),
        held(s) && registered(s, builtins, at).countable() ==> held(registered(s, builtins, at)),
    decreases builtins.len() - at,
{
    if 0 <= at < builtins.len() {
        let declared = s.intern(builtins[at].name).emit(
            Step::DeclareFunction {
                name: s.next_name(),
                result: None,
                arity: 1,
                origin: Origin::Builtin,
            },
        ).declare(FunctionModel { name: builtins[at].name, id: s.next(), result: None });
        let next = declared.emit(Step::Parameter { kind: builtins[at].parameter });
        lemma_registered_held(next, builtins, at + 1);
        let after = registered(s, builtins, at);
        lemma_grows_on(s, next, after);
        if held(s) && after.countable() {
            lemma_declared_held(s, builtins[at].name, None, 1, Origin::Builtin);
            lemma_emit_held(declared, Step::Parameter { kind: builtins[at].parameter });
        }
    }
}

/// Linking the support library keeps in order what the state holds for
/// good.
pub proof fn lemma_linked_held(s: CompilerModel)
    ensures
        grows(s, linked(s)),
        held(s) && linked(s).countable() ==> held(linked(s)),
{
    if held(s) && linked(s).countable() {
        lemma_emit_held(s, Step::LinkSupportLibrary);
        lemma_declared_held(
            s.emit(Step::LinkSupportLibrary),
            "stdlibTest"@,
            Some(Scalar::Number),
            0,
            Origin::Support,
        );
    }
}

/// Starting the entry point makes the state sound.
pub proof fn lemma_started_sound(s: CompilerModel, source_file: Seq<char>)
    ensures
        grows(s, started(s, source_file)),
        started(s, source_file).scopes.len() == 1,
        held(s) && started(s, source_file).countable() ==> sound(started(s, source_file)),
{
    let after = started(s, source_file);
    if held(s) && after.countable() {
        let name = entry_name(source_file);
        lemma_declared_held(s, name, None, 0, Origin::Defined);
        let declared = s.intern(name).emit(
            Step::DeclareFunction {
                name: s.next_name(),
                result: None,
                arity: 0,
                origin: Origin::Defined,
            },
        ).declare(FunctionModel { name, id: s.next(), result: None });
        let appended = declared.emit(Step::AppendBlock { function: s.next(), label: Label::Entry });
        lemma_emit_held(declared, Step::AppendBlock { function: s.next(), label: Label::Entry });
        lemma_emit_held(appended, Step::PositionAtEnd { block: declared.next() });
    }
}

/// A program is compiled in order.
///
/// In the module that a compilation leaves, every step refers only to
/// values, blocks and functions that earlier steps have made, and to names
/// that the module holds; and what the program binds at top level is bound
/// to cells that are made among the steps.
pub proof fn lemma_compiled_in_order(s: CompilerModel, file: JamalangFileModel)
    requires
        held(s),
    ensures
        compiled(s, file) matches Ok((after, variables)) ==> grows(s, after) && (
        after.countable() ==> held(after) && forall|name: Seq<char>|
            variables.contains_key(name) ==> cell_before(
                after.steps,
                (#[trigger] variables[name]).pointer,
                after.steps.len() as int,
            )),
{
    let with_builtins = registered(s, s.builtins, 0);
    let with_library = linked(with_builtins);
    let ready = started(with_library, file.source_file);
    lemma_registered_held(s, s.builtins, 0);
    lemma_linked_held(with_builtins);
    lemma_started_sound(with_library, file.source_file);
    lemma_block_in_order(ready, file.statements, 0, true);
    if let Ok(done) = lowered_block(ready, file.statements, 0, true) {
        if let Ok((after, variables)) = compiled(s, file) {
            let returned = done.emit(Step::Return { value: None });
            lemma_emit_grows(done, Step::Return { value: None });
            lemma_grows_on(s, with_builtins, with_library);
            lemma_grows_on(s, with_library, ready);
            lemma_grows_on(s, ready, done);
            lemma_grows_on(s, done, after);
            lemma_grows_on(with_builtins, with_library, ready);
            lemma_grows_on(with_builtins, ready, done);
            lemma_grows_on(with_builtins, done, after);
            lemma_grows_on(with_library, ready, done);
            lemma_grows_on(with_library, done, after);
            lemma_grows_on(ready, done, after);
            if after.countable() {
                assert(held(with_builtins));
                assert(held(with_library));
                assert(sound(ready));
                assert(sound(done));
                lemma_emit_sound(done, Step::Return { value: None });
                assert forall|name: Seq<char>| variables.contains_key(name) implies cell_before(
                    after.steps,
                    (#[trigger] variables[name]).pointer,
                    after.steps.len() as int,
                ) by {
                    assert(done.scopes[done.scopes.len() - 1].contains_key(name));
                }
            }
        }
    }
}

/// The module that a compilation leaves holds the entry point of the
/// program: a function under the name of the source file with `_entry`
/// after it.
pub proof fn lemma_entry_point_is_held(s: CompilerModel, file: JamalangFileModel)
    ensures
        compiled(s, file) matches Ok((after, _)) ==> find_function(
            after.functions,
            entry_name(file.source_file),
        ) is Some,
{
    let with_library = linked(registered(s, s.builtins, 0));
    let ready = started(with_library, file.source_file);
    lemma_block_in_order(ready, file.statements, 0, true);
    if let Ok(done) = lowered_block(ready, file.statements, 0, true) {
        if let Ok((after, _)) = compiled(s, file) {
            let at = with_library.functions.len() as int;
            assert(ready.functions[at].name == entry_name(file.source_file));
            assert(after.functions[at] == ready.functions[at]);
            lemma_held_is_found(after.functions, at);
        }
    }
}

} // verus!
