//! What the command line asks for, and what is written for it.
use crate::parser::text::text_is;
use vstd::prelude::*;

verus! {

/// What a compilation is written as.
#[derive(Debug, Clone, Copy, PartialEq, Eq, Structural)]
pub enum CompileTarget {
    /// Bitcode.
    Binary,
    /// Textual intermediate representation.
    IR,
}

/// What to do with a source file.
#[derive(Debug, PartialEq)]
pub enum Commands {
    /// Show the syntax tree.
    Ast { file: String, time_parsing: bool },
    /// Compile the file and run it at once.
    Run { file: String, time_execution: bool },
    /// Compile the file and write the module out.
    Compile {
        file: String,
        target: CompileTarget,
        destination: Option<String>,
        time_compilation: bool,
    },
}

/// The arguments of the command line.
#[derive(Debug, PartialEq)]
pub struct Args {
    pub command: Commands,
}

/// Where a compiled module goes. A file is named by `destination` with its
/// extension replaced by that of [`Emission::extension`].
#[derive(Debug, PartialEq)]
pub enum Emission {
    Bitcode { destination: String },
    IrToStderr,
    IrToFile { destination: String },
}

/// The mathematical model of an [`Emission`].
pub enum EmissionModel {
    Bitcode { destination: Seq<char> },
    IrToStderr,
    IrToFile { destination: Seq<char> },
}

impl Emission {
    pub open spec fn view(&self) -> EmissionModel {
        match self {
            Emission::Bitcode { destination } => EmissionModel::Bitcode {
                destination: destination@,
            },
            Emission::IrToStderr => EmissionModel::IrToStderr,
            Emission::IrToFile { destination } => EmissionModel::IrToFile {
                destination: destination@,
            },
        }
    }

    /// The extension of the file that is written: `.bitcode` for bitcode,
    /// dot included, and `ll` for text; none where no file is written.
    pub fn extension(&self) -> (r: &'static str)
        ensures
            r@ == match self@ {
                EmissionModel::Bitcode { .. } => ".bitcode"@,
                EmissionModel::IrToStderr => ""@,
                EmissionModel::IrToFile { .. } => "ll"@,
            },
    {
        match self {
            Emission::Bitcode { .. } => ".bitcode",
            Emission::IrToStderr => "",
            Emission::IrToFile { .. } => "ll",
        }
    }
}

/// Bitcode cannot be written to the terminal.
#[derive(Debug, Clone, Copy, PartialEq, Eq, Structural)]
pub struct BinaryToStdout;

/// Where a compilation of `path` goes.
///
/// The destination is the one given, and the path of the source file where
/// none is given. The destination `stdout` stands for the terminal: text is
/// printed there, and bitcode is refused.
pub open spec fn planned(
    path: Seq<char>,
    target: CompileTarget,
    destination: Option<Seq<char>>,
) -> Result<EmissionModel, BinaryToStdout> {
    let to = match destination {
        Some(given) => given,
        None => path,
    };
    match target {
        CompileTarget::Binary => if to == "stdout"@ {
            Err(BinaryToStdout)
        } else {
            Ok(EmissionModel::Bitcode { destination: to })
        },
        CompileTarget::IR => if to == "stdout"@ {
            Ok(EmissionModel::IrToStderr)
        } else {
            Ok(EmissionModel::IrToFile { destination: to })
        },
    }
}

/// Decides where a compilation of `path` goes.
pub fn plan_emission(path: String, target: CompileTarget, destination: Option<String>) -> (r: Result<
    Emission,
    BinaryToStdout,
>)
    ensures
        match planned(
            path@,
            target,
            match destination {
                Some(given) => Some(given@),
                None => None,
            },
        ) {
            Ok(emission) => r is Ok && r->Ok_0@ == emission,
            Err(error) => r == Err::<Emission, BinaryToStdout>(error),
        },
{
    let to = match destination {
        Some(given) => given,
        None => path,
    };
    let terminal = text_is(&to, "stdout");
    match target {
        CompileTarget::Binary => {
            if terminal {
                Err(BinaryToStdout)
            } else {
                Ok(Emission::Bitcode { destination: to })
            }
        },
        CompileTarget::IR => {
            if terminal {
                Ok(Emission::IrToStderr)
            } else {
                Ok(Emission::IrToFile { destination: to })
            }
        },
    }
}

} // verus!
