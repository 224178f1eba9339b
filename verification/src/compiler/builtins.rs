//! The native functions that every program can call.
use crate::compiler::module::Scalar;
use vstd::prelude::*;
use vstd::string::StringExecFns;

verus! {

/// A native function that prints one value: the name under which programs
/// reach it, the symbol under which the back end finds it, and the type of
/// the value it takes. It returns nothing.
#[derive(Debug, PartialEq)]
pub struct Builtin {
    pub name: String,
    pub c_name: String,
    pub parameter: Scalar,
}

/// The mathematical model of a [`Builtin`].
pub struct BuiltinModel {
    pub name: Seq<char>,
    pub c_name: Seq<char>,
    pub parameter: Scalar,
}

impl Builtin {
    pub open spec fn view(&self) -> BuiltinModel {
        BuiltinModel { name: self.name@, c_name: self.c_name@, parameter: self.parameter }
    }
}

/// The models of the built-ins, one for one.
pub open spec fn builtins_view(builtins: Seq<Builtin>) -> Seq<BuiltinModel> {
    Seq::new(builtins.len(), |i: int| builtins[i]@)
}

/// The built-ins: printing a number, a character and a truth value. Their
/// names are `println` with the letter of the argument's type, so that a
/// call of `println` finds the one that fits its argument.
pub open spec fn builtin_table() -> Seq<BuiltinModel> {
    seq![
        BuiltinModel {
            name: "println_n"@,
            c_name: "builtin_println_number"@,
            parameter: Scalar::Number,
        },
        BuiltinModel {
            name: "println_c"@,
            c_name: "builtin_println_char"@,
            parameter: Scalar::Char,
        },
        BuiltinModel {
            name: "println_b"@,
            c_name: "builtin_println_bool"@,
            parameter: Scalar::Bool,
        },
    ]
}

/// The built-ins, as [`builtin_table`] lists them.
pub fn builtins() -> (r: Vec<Builtin>)
    ensures
        builtins_view(r@) == builtin_table(),
{
    let mut list: Vec<Builtin> = Vec::new();
    list.push(
        Builtin {
            name: String::from_str("println_n"),
            c_name: String::from_str("builtin_println_number"),
            parameter: Scalar::Number,
        },
    );
    list.push(
        Builtin {
            name: String::from_str("println_c"),
            c_name: String::from_str("builtin_println_char"),
            parameter: Scalar::Char,
        },
    );
    list.push(
        Builtin {
            name: String::from_str("println_b"),
            c_name: String::from_str("builtin_println_bool"),
            parameter: Scalar::Bool,
        },
    );
    proof {
        assert(builtins_view(list@) =~= builtin_table());
    }
    list
}

} // verus!
