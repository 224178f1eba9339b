//! From source text to the abstract syntax tree.
use crate::parser::ast::{
    build_statements, parse_statements, statements_view, Statement, StatementModel,
};
use crate::parser::depth::{all_short, lemma_text_never_too_deep, short};
use crate::parser::engine::{match_at, run, Matching};
use crate::parser::peg::{Mark, Outcome, Peg};
use crate::parser::text::to_chars;
use crate::parser::total::lemma_text_parsed;
use crate::parser::tree::Rule;
use vstd::prelude::*;
use vstd::string::StringExecFns;

pub mod ast;
pub mod depth;
pub mod engine;
pub mod expr;
pub mod grammar;
pub mod peg;
pub mod shape;
pub mod shapes;
pub mod text;
pub mod total;
pub mod tree;

verus! {

broadcast use crate::parser::tree::group_forest;

/// A parsed source file: the name it was read under and its statements.
#[derive(Debug, PartialEq)]
pub struct JamalangFile {
    pub source_file: String,
    pub statements: Vec<Statement>,
}

/// The mathematical model of a [`JamalangFile`].
pub struct JamalangFileModel {
    pub source_file: Seq<char>,
    pub statements: Seq<StatementModel>,
}

/// The text of a file that an `import` may name.
#[derive(Debug, PartialEq)]
pub struct SourceFile {
    pub path: String,
    pub text: String,
}

/// Why a text could not be turned into a syntax tree.
#[derive(Debug, PartialEq)]
pub enum ParseError {
    /// The text of `file` does not fit the grammar. `position` counts the
    /// characters before the farthest place that did not fit, `line` the
    /// line feeds before it and `column` the characters since the last of
    /// them; `expected` is the rule that was being matched there.
    Syntax { file: String, position: usize, line: usize, column: usize, expected: Rule },
    /// Rules are nested more deeply in the text than the machine can
    /// count: more than [`NESTING_LIMIT`] inside one another. No text does
    /// that unless it is so long that the machine cannot count seven times
    /// its characters.
    TooDeep,
    /// The parse tree has a shape that the grammar does not yield. A tree
    /// made by hand can be refused for this; parsing a text never is.
    Malformed,
    /// An `import` names a file whose text is not among the sources.
    ImportUnavailable(String),
    /// Imports are nested more deeply than the machine can count: more
    /// than [`IMPORT_LIMIT`] files inside one another.
    ImportsTooDeep,
}

/// The mathematical model of a [`ParseError`].
pub enum ParseErrorModel {
    Syntax { file: Seq<char>, position: usize, line: usize, column: usize, expected: Rule },
    TooDeep,
    Malformed,
    ImportUnavailable(Seq<char>),
    ImportsTooDeep,
}

impl ParseError {
    pub open spec fn view(&self) -> ParseErrorModel {
        match self {
            ParseError::Syntax { file, position, line, column, expected } => ParseErrorModel::Syntax {
                file: file@,
                position: *position,
                line: *line,
                column: *column,
                expected: *expected,
            },
            ParseError::TooDeep => ParseErrorModel::TooDeep,
            ParseError::Malformed => ParseErrorModel::Malformed,
            ParseError::ImportUnavailable(path) => ParseErrorModel::ImportUnavailable(path@),
            ParseError::ImportsTooDeep => ParseErrorModel::ImportsTooDeep,
        }
    }
}

/// How many rules may be nested inside one another in a text: as many as
/// the machine can count. Every level takes room on the stack of the
/// thread, which is what ends first.
pub const NESTING_LIMIT: usize = usize::MAX;

/// How many files may import one another in a chain: as many as the
/// machine can count. Files that import one another in a circle are
/// followed without end.
pub const IMPORT_LIMIT: usize = usize::MAX;

/// The text that `sources` holds under `path`: that of the first entry with
/// this path.
pub open spec fn source_text(sources: Seq<SourceFile>, path: Seq<char>) -> Option<Seq<char>>
    decreases sources.len(),
{
    if sources.len() == 0 {
        None
    } else if sources[0].path@ == path {
        Some(sources[0].text@)
    } else {
        source_text(sources.subrange(1, sources.len() as int), path)
    }
}

impl JamalangFile {
    pub open spec fn view(&self) -> JamalangFileModel {
        JamalangFileModel {
            source_file: self.source_file@,
            statements: statements_view(self.statements@),
        }
    }
}

/// The number of line feeds before position `pos`.
pub open spec fn line_of(input: Seq<char>, pos: int) -> int
    decreases pos,
{
    if pos <= 0 || pos > input.len() {
        0
    } else if input[pos - 1] == '\n' {
        line_of(input, pos - 1) + 1
    } else {
        line_of(input, pos - 1)
    }
}

/// The number of characters between position `pos` and the line feed
/// before it, or the start of the text.
pub open spec fn column_of(input: Seq<char>, pos: int) -> int
    decreases pos,
{
    if pos <= 0 || pos > input.len() || input[pos - 1] == '\n' {
        0
    } else {
        column_of(input, pos - 1) + 1
    }
}

/// What the grammar makes of a whole text.
pub open spec fn file_outcome(input: Seq<char>) -> Outcome {
    match_at(
        Peg::Node(Rule::File),
        input,
        0,
        NESTING_LIMIT as nat,
        Rule::File,
        Mark { position: 0, rule: Rule::File },
    )
}

/// The syntax tree of the text `input`, read under the name `source_file`.
///
/// The text is matched against the grammar, and the statements are built
/// from the parse tree. An import is replaced by the syntax tree of the
/// text that `sources` holds under its path. `fuel` is the number of files
/// that may still be entered.
pub open spec fn parse_text(
    source_file: Seq<char>,
    input: Seq<char>,
    sources: Seq<SourceFile>,
    fuel: nat,
) -> Result<JamalangFileModel, ParseErrorModel>
    decreases fuel, 0nat,
{
    if fuel == 0 {
        Err(ParseErrorModel::ImportsTooDeep)
    } else {
        match file_outcome(input) {
            Outcome::TooDeep => Err(ParseErrorModel::TooDeep),
            Outcome::Failed { mark } => Err(
                ParseErrorModel::Syntax {
                    file: source_file,
                    position: mark.position,
                    line: line_of(input, mark.position as int) as usize,
                    column: column_of(input, mark.position as int) as usize,
                    expected: mark.rule,
                },
            ),
            Outcome::Matched { nodes, .. } => if nodes.len() != 1 {
                Err(ParseErrorModel::Malformed)
            } else {
                match build_statements(
                    nodes[0].children,
                    0,
                    Seq::empty(),
                    sources,
                    (fuel - 1) as nat,
                ) {
                    Err(error) => Err(error),
                    Ok(statements) => Ok(JamalangFileModel { source_file, statements }),
                }
            },
        }
    }
}

/// The model of what parsing a file gave.
pub open spec fn file_result(r: Result<JamalangFile, ParseError>) -> Result<
    JamalangFileModel,
    ParseErrorModel,
> {
    match r {
        Ok(file) => Ok(file@),
        Err(error) => Err(error@),
    }
}

/// Finds the first entry of `sources` whose path is `path`.
pub fn find_source(sources: &Vec<SourceFile>, path: &String) -> (r: Option<usize>)
    ensures
        match r {
            Some(at) => at < sources.len() && source_text(sources@, path@) == Some(
                sources@[at as int].text@,
            ),
            None => source_text(sources@, path@) is None,
        },
{
    let mut at: usize = 0;
    proof {
        assert(sources@.subrange(0, sources@.len() as int) =~= sources@);
    }
    while at < sources.len()
        invariant
            at <= sources.len(),
            source_text(sources@.subrange(at as int, sources@.len() as int), path@) == source_text(
                sources@,
                path@,
            ),
        decreases sources.len() - at,
    {
        proof {
            let rest = sources@.subrange(at as int, sources@.len() as int);
            assert(rest[0] == sources@[at as int]);
            assert(rest.subrange(1, rest.len() as int) =~= sources@.subrange(
                at + 1,
                sources@.len() as int,
            ));
        }
        if sources[at].path == *path {
            return Some(at);
        }
        at += 1;
    }
    None
}

/// Counts the line feeds before `pos`, and the characters since the last of
/// them.
fn locate(input: &Vec<char>, pos: usize) -> (r: (usize, usize))
    ensures
        r.0 == line_of(input@, pos as int),
        r.1 == column_of(input@, pos as int),
{
    if pos > input.len() {
        return (0, 0);
    }
    let mut line: usize = 0;
    let mut column: usize = 0;
    let mut at: usize = 0;
    while at < pos
        invariant
            at <= pos <= input.len(),
            line == line_of(input@, at as int),
            column == column_of(input@, at as int),
            line <= at,
            column <= at,
        decreases pos - at,
    {
        if input[at] == '\n' {
            line += 1;
            column = 0;
        } else {
            column += 1;
        }
        at += 1;
    }
    (line, column)
}

/// Parses the text `input`, read under the name `source_file`, with the
/// texts of the files that it may import, and at most `fuel` files entered
/// one inside the other.
pub fn parse_source(source_file: &str, input: &str, imports: &Vec<SourceFile>, fuel: usize) -> (r:
    Result<JamalangFile, ParseError>)
    ensures
        file_result(r) == parse_text(source_file@, input@, imports@, fuel as nat),
        !(r matches Err(ParseError::Malformed)),
        short(input@) && all_short(imports@) ==> !(r matches Err(ParseError::TooDeep)),
    decreases fuel, 0nat,
{
    proof {
        lemma_text_parsed(source_file@, input@, imports@, fuel as nat);
        if short(input@) && all_short(imports@) {
            lemma_text_never_too_deep(source_file@, input@, imports@, fuel as nat);
        }
    }
    if fuel == 0 {
        return Err(ParseError::ImportsTooDeep);
    }
    let chars = to_chars(input);
    let start = Mark { position: 0, rule: Rule::File };
    let plain = input.is_ascii();
    match run(&Peg::Node(Rule::File), &chars, input, plain, 0, NESTING_LIMIT, Rule::File, start) {
        Matching::TooDeep => Err(ParseError::TooDeep),
        Matching::Failed { mark } => {
            let (line, column) = locate(&chars, mark.position);
            Err(
                ParseError::Syntax {
                    file: String::from_str(source_file),
                    position: mark.position,
                    line,
                    column,
                    expected: mark.rule,
                },
            )
        },
        Matching::Matched { nodes, .. } => {
            if nodes.len() != 1 {
                return Err(ParseError::Malformed);
            }
            match parse_statements(&nodes[0].children, imports, fuel - 1) {
                Ok(statements) => Ok(
                    JamalangFile { source_file: String::from_str(source_file), statements },
                ),
                Err(error) => Err(error),
            }
        },
    }
}

/// Parses a source text that imports files whose texts are in `imports`.
///
/// Succeeds exactly where the text and the texts it imports fit the
/// grammar and every import can be resolved. An import whose path is not
/// among `imports` gives [`ParseError::ImportUnavailable`] with that path,
/// so that a caller can read the file and try again.
/// [`ParseError::Malformed`] never comes out, and [`ParseError::TooDeep`]
/// only for a text of so many characters that the machine cannot count
/// seven times as many.
pub fn parse_ast_with(source_file: &str, input: &str, imports: &Vec<SourceFile>) -> (r: Result<
    JamalangFile,
    ParseError,
>)
    ensures
        file_result(r) == parse_text(source_file@, input@, imports@, IMPORT_LIMIT as nat),
        !(r matches Err(ParseError::Malformed)),
        short(input@) && all_short(imports@) ==> !(r matches Err(ParseError::TooDeep)),
{
    parse_source(source_file, input, imports, IMPORT_LIMIT)
}

/// Parses a source text that stands alone: an import in it cannot be
/// resolved and gives [`ParseError::ImportUnavailable`].
pub fn parse_ast(source_file: &str, input: &str) -> (r: Result<JamalangFile, ParseError>)
    ensures
        file_result(r) == parse_text(source_file@, input@, Seq::empty(), IMPORT_LIMIT as nat),
        !(r matches Err(ParseError::Malformed)),
        short(input@) ==> !(r matches Err(ParseError::TooDeep)),
{
    let imports: Vec<SourceFile> = Vec::new();
    parse_source(source_file, input, &imports, IMPORT_LIMIT)
}

} // verus!
