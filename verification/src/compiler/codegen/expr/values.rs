//! Lowering of literals and of names.
use crate::compiler::codegen::scope::resolve;
use crate::compiler::codegen::value::{LowerError, Operand, Value};
use crate::compiler::module::Step;
use crate::compiler::{agrees, Compiler, CompilerModel, Lowered};
use crate::parser::ast::{decimal, lemma_decimal_prefix};
use crate::parser::text::to_chars;
use vstd::prelude::*;

verus! {

/// The first place at or after `from` that holds no decimal digit.
pub open spec fn digits_end(text: Seq<char>, from: int) -> int
    decreases text.len() - from,
{
    if 0 <= from < text.len() && '0' <= text[from] <= '9' {
        digits_end(text, from + 1)
    } else {
        from
    }
}

/// The whole part of the number that a literal spells: the value of the
/// digits it starts with, and the largest 32-bit number where that value is
/// larger.
pub open spec fn whole_part(text: Seq<char>) -> u32 {
    let value = decimal(text.take(digits_end(text, 0)));
    if value > u32::MAX {
        u32::MAX
    } else {
        value as u32
    }
}

/// The digits that start at `from` end at or after it, within the text.
pub proof fn lemma_digits_end(text: Seq<char>, from: int)
    requires
        0 <= from <= text.len(),
    ensures
        from <= digits_end(text, from) <= text.len(),
    decreases text.len() - from,
{
    if from < text.len() && '0' <= text[from] <= '9' {
        lemma_digits_end(text, from + 1);
    }
}

/// Computes [`whole_part`].
pub fn whole_part_of(text: &str) -> (r: u32)
    ensures
        r == whole_part(text@),
{
    let chars = to_chars(text);
    let mut value: u64 = 0;
    let mut at: usize = 0;
    while at < chars.len() && '0' <= chars[at] && chars[at] <= '9'
        invariant
            at <= chars.len(),
            chars@ == text@,
            digits_end(chars@, at as int) == digits_end(chars@, 0),
            value == decimal(chars@.take(at as int)),
            value <= u32::MAX,
        decreases chars.len() - at,
    {
        let digit = (chars[at] as u32 - '0' as u32) as u64;
        proof {
            let longer = chars@.take(at + 1);
            assert(longer.drop_last() =~= chars@.take(at as int));
            lemma_digits_end(chars@, at + 1);
            let end = digits_end(chars@, 0);
            lemma_decimal_prefix(chars@.take(end), at + 1);
            assert(chars@.take(end).subrange(0, at + 1) =~= longer);
        }
        value = value * 10 + digit;
        if value > u32::MAX as u64 {
            return u32::MAX;
        }
        at += 1;
    }
    value as u32
}

/// What lowering a number gives: its literal becomes a name, and one step
/// makes the constant. The value is a constant, and a literal.
pub open spec fn lowered_float(s: CompilerModel, text: Seq<char>) -> (CompilerModel, Value) {
    (
        s.intern(text).emit(Step::ConstNumber { literal: s.next_name() }),
        Value::Float { id: s.next(), constant: true, literal: Some(whole_part(text)) },
    )
}

/// What lowering a truth value gives.
pub open spec fn lowered_bool(s: CompilerModel, value: bool) -> (CompilerModel, Value) {
    (s.emit(Step::ConstBool { value }), Value::Bool { id: s.next(), constant: true })
}

/// The eight bits that stand for a character.
pub open spec fn char_code(value: char) -> u8 {
    (value as u32 % 256) as u8
}

/// What lowering a character gives.
pub open spec fn lowered_char(s: CompilerModel, value: char) -> (CompilerModel, Value) {
    (
        s.emit(Step::ConstChar { code: char_code(value) }),
        Value::Char { id: s.next(), constant: true },
    )
}

/// What reading a name gives: a load from the cell that the name is bound
/// to, of the type that the name was bound with. Fails where no frame binds
/// the name.
pub open spec fn lowered_identifier(s: CompilerModel, name: Seq<char>) -> Lowered {
    match resolve(s.scopes, name) {
        None => Err(LowerError::UnknownVariable),
        Some(binding) => Ok(
            (
                s.emit(Step::Load { kind: binding.value.kind, pointer: binding.pointer }),
                Value::of(Operand { id: s.next(), kind: binding.value.kind }),
            ),
        ),
    }
}

/// Lowers a number.
pub fn lower_float(compiler: &mut Compiler, text: &String) -> (r: Value)
    ensures
        (final(compiler)@, r) == lowered_float(old(compiler)@, text@),
{
    let literal = compiler.intern(text.as_str());
    let id = compiler.emit(Step::ConstNumber { literal });
    Value::Float { id, constant: true, literal: Some(whole_part_of(text.as_str())) }
}

/// Lowers a truth value.
pub fn lower_bool(compiler: &mut Compiler, value: bool) -> (r: Value)
    ensures
        (final(compiler)@, r) == lowered_bool(old(compiler)@, value),
{
    let id = compiler.emit(Step::ConstBool { value });
    Value::Bool { id, constant: true }
}

/// Lowers a character.
pub fn lower_char(compiler: &mut Compiler, value: char) -> (r: Value)
    ensures
        (final(compiler)@, r) == lowered_char(old(compiler)@, value),
{
    let id = compiler.emit(Step::ConstChar { code: (value as u32 % 256) as u8 });
    Value::Char { id, constant: true }
}

/// Lowers the reading of a name.
pub fn lower_identifier(compiler: &mut Compiler, name: &String) -> (r: Result<Value, LowerError>)
    ensures
        agrees(r, final(compiler)@, lowered_identifier(old(compiler)@, name@)),
{
    match compiler.variables.resolve(name.as_str()) {
        None => Err(LowerError::UnknownVariable),
        Some(binding) => {
            let id = compiler.emit(
                Step::Load { kind: binding.value.kind, pointer: binding.pointer },
            );
            Ok(Value::from(Operand { id, kind: binding.value.kind }))
        },
    }
}

} // verus!
