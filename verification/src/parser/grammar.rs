//! The grammar of the language: for every rule the parsing expression that
//! is its body. Each expression stands here twice, as a specification and
//! as the function that builds it.
use crate::parser::peg::{chain, either, many, maybe, not, word, CharClass, Peg};
use crate::parser::tree::Rule;
use vstd::prelude::*;

verus! {

/// A letter or `_`, then letters, digits and `_`.
pub open spec fn spec_word_shape() -> Peg {
    chain(Peg::Class(CharClass::WordStart), many(Peg::Class(CharClass::WordPart)))
}

#[verifier::when_used_as_spec(spec_word_shape)]
pub fn word_shape() -> (r: Peg)
    ensures
        r == spec_word_shape(),
{
    chain(Peg::Class(CharClass::WordStart), many(Peg::Class(CharClass::WordPart)))
}

/// A keyword that starts a statement or a part of one.
pub open spec fn spec_statement_keyword() -> Peg {
    either(
        word("if"),
        either(
            word("elif"),
            either(
                word("else"),
                either(word("while"), either(word("for"), either(word("in"), word("return")))),
            ),
        ),
    )
}

#[verifier::when_used_as_spec(spec_statement_keyword)]
pub fn statement_keyword() -> (r: Peg)
    ensures
        r == spec_statement_keyword(),
{
    either(
        word("if"),
        either(
            word("elif"),
            either(
                word("else"),
                either(word("while"), either(word("for"), either(word("in"), word("return")))),
            ),
        ),
    )
}

/// A keyword of the language.
pub open spec fn spec_keyword() -> Peg {
    either(
        statement_keyword(),
        either(
            word("fn"),
            either(
                word("lambda"),
                either(word("import"), either(word("true"), either(word("false"), word("none")))),
            ),
        ),
    )
}

#[verifier::when_used_as_spec(spec_keyword)]
pub fn keyword() -> (r: Peg)
    ensures
        r == spec_keyword(),
{
    either(
        statement_keyword(),
        either(
            word("fn"),
            either(
                word("lambda"),
                either(word("import"), either(word("true"), either(word("false"), word("none")))),
            ),
        ),
    )
}

/// A word that is no keyword.
pub open spec fn spec_free_name() -> Peg {
    chain(not(keyword()), word_shape())
}

#[verifier::when_used_as_spec(spec_free_name)]
pub fn free_name() -> (r: Peg)
    ensures
        r == spec_free_name(),
{
    chain(not(keyword()), word_shape())
}

/// One decimal digit or more.
pub open spec fn spec_digits() -> Peg {
    chain(Peg::Class(CharClass::Digit), many(Peg::Class(CharClass::Digit)))
}

#[verifier::when_used_as_spec(spec_digits)]
pub fn digits() -> (r: Peg)
    ensures
        r == spec_digits(),
{
    chain(Peg::Class(CharClass::Digit), many(Peg::Class(CharClass::Digit)))
}

/// One character that is no whitespace.
pub open spec fn spec_visible() -> Peg {
    chain(not(Peg::Class(CharClass::Space)), Peg::Any)
}

#[verifier::when_used_as_spec(spec_visible)]
pub fn visible() -> (r: Peg)
    ensures
        r == spec_visible(),
{
    chain(not(Peg::Class(CharClass::Space)), Peg::Any)
}

/// Statements, with any whitespace after each.
pub open spec fn spec_statements() -> Peg {
    many(chain(Peg::Node(Rule::Statement), Peg::Gap))
}

#[verifier::when_used_as_spec(spec_statements)]
pub fn statements() -> (r: Peg)
    ensures
        r == spec_statements(),
{
    many(chain(Peg::Node(Rule::Statement), Peg::Gap))
}

/// A statement that branches or loops.
pub open spec fn spec_branching() -> Peg {
    either(
        Peg::Node(Rule::IfBlock),
        either(Peg::Node(Rule::WhileStatement), Peg::Node(Rule::ForStatement)),
    )
}

#[verifier::when_used_as_spec(spec_branching)]
pub fn branching() -> (r: Peg)
    ensures
        r == spec_branching(),
{
    either(
        Peg::Node(Rule::IfBlock),
        either(Peg::Node(Rule::WhileStatement), Peg::Node(Rule::ForStatement)),
    )
}

/// A name and its type.
pub open spec fn spec_parameter() -> Peg {
    chain(Peg::Node(Rule::IdentifierDefinition), chain(Peg::Gap, Peg::Node(Rule::TypeHint)))
}

#[verifier::when_used_as_spec(spec_parameter)]
pub fn parameter() -> (r: Peg)
    ensures
        r == spec_parameter(),
{
    chain(Peg::Node(Rule::IdentifierDefinition), chain(Peg::Gap, Peg::Node(Rule::TypeHint)))
}

/// An assignment operator; `=` is tried last.
pub open spec fn spec_assignment_operator() -> Peg {
    either(
        Peg::Node(Rule::AssAdd),
        either(
            Peg::Node(Rule::AssSub),
            either(
                Peg::Node(Rule::AssMul),
                either(
                    Peg::Node(Rule::AssDiv),
                    either(Peg::Node(Rule::AssPow), Peg::Node(Rule::AssSet)),
                ),
            ),
        ),
    )
}

#[verifier::when_used_as_spec(spec_assignment_operator)]
pub fn assignment_operator() -> (r: Peg)
    ensures
        r == spec_assignment_operator(),
{
    either(
        Peg::Node(Rule::AssAdd),
        either(
            Peg::Node(Rule::AssSub),
            either(
                Peg::Node(Rule::AssMul),
                either(
                    Peg::Node(Rule::AssDiv),
                    either(Peg::Node(Rule::AssPow), Peg::Node(Rule::AssSet)),
                ),
            ),
        ),
    )
}

/// A number, a truth value, a character or `none`.
pub open spec fn spec_literal() -> Peg {
    either(
        Peg::Node(Rule::Number),
        either(
            Peg::Node(Rule::Boolean),
            either(Peg::Node(Rule::Character), Peg::Node(Rule::Nothing)),
        ),
    )
}

#[verifier::when_used_as_spec(spec_literal)]
pub fn literal() -> (r: Peg)
    ensures
        r == spec_literal(),
{
    either(
        Peg::Node(Rule::Number),
        either(
            Peg::Node(Rule::Boolean),
            either(Peg::Node(Rule::Character), Peg::Node(Rule::Nothing)),
        ),
    )
}

/// What an operand is made around: a literal, a call, a name, an array, or an
/// expression in brackets.
pub open spec fn spec_primary() -> Peg {
    either(
        literal(),
        either(
            Peg::Node(Rule::FunctionCall),
            either(
                Peg::Node(Rule::Identifier),
                either(
                    Peg::Node(Rule::Array),
                    chain(
                        Peg::Text("("),
                        chain(
                            Peg::Gap,
                            chain(Peg::Node(Rule::Expr), chain(Peg::Gap, Peg::Text(")"))),
                        ),
                    ),
                ),
            ),
        ),
    )
}

#[verifier::when_used_as_spec(spec_primary)]
pub fn primary() -> (r: Peg)
    ensures
        r == spec_primary(),
{
    either(
        literal(),
        either(
            Peg::Node(Rule::FunctionCall),
            either(
                Peg::Node(Rule::Identifier),
                either(
                    Peg::Node(Rule::Array),
                    chain(
                        Peg::Text("("),
                        chain(
                            Peg::Gap,
                            chain(Peg::Node(Rule::Expr), chain(Peg::Gap, Peg::Text(")"))),
                        ),
                    ),
                ),
            ),
        ),
    )
}

/// A primary with any number of minus signs before it and of indexings after
/// it.
pub open spec fn spec_operand() -> Peg {
    chain(
        many(chain(Peg::Node(Rule::UnaryMinus), Peg::Gap)),
        chain(primary(), many(chain(Peg::Gap, Peg::Node(Rule::ArrayIndexing)))),
    )
}

#[verifier::when_used_as_spec(spec_operand)]
pub fn operand() -> (r: Peg)
    ensures
        r == spec_operand(),
{
    chain(
        many(chain(Peg::Node(Rule::UnaryMinus), Peg::Gap)),
        chain(primary(), many(chain(Peg::Gap, Peg::Node(Rule::ArrayIndexing)))),
    )
}

/// An operator of the tightest precedence.
pub open spec fn spec_product_operator() -> Peg {
    either(
        Peg::Node(Rule::Mul),
        either(
            Peg::Node(Rule::Div),
            either(Peg::Node(Rule::Mod), either(Peg::Node(Rule::Pow), Peg::Node(Rule::Range))),
        ),
    )
}

#[verifier::when_used_as_spec(spec_product_operator)]
pub fn product_operator() -> (r: Peg)
    ensures
        r == spec_product_operator(),
{
    either(
        Peg::Node(Rule::Mul),
        either(
            Peg::Node(Rule::Div),
            either(Peg::Node(Rule::Mod), either(Peg::Node(Rule::Pow), Peg::Node(Rule::Range))),
        ),
    )
}

/// A comparison; the operators of two characters are tried first.
pub open spec fn spec_comparison_operator() -> Peg {
    either(
        Peg::Node(Rule::Lte),
        either(
            Peg::Node(Rule::Gte),
            either(
                Peg::Node(Rule::Lt),
                either(
                    Peg::Node(Rule::Gt),
                    either(Peg::Node(Rule::Equal), Peg::Node(Rule::NotEqual)),
                ),
            ),
        ),
    )
}

#[verifier::when_used_as_spec(spec_comparison_operator)]
pub fn comparison_operator() -> (r: Peg)
    ensures
        r == spec_comparison_operator(),
{
    either(
        Peg::Node(Rule::Lte),
        either(
            Peg::Node(Rule::Gte),
            either(
                Peg::Node(Rule::Lt),
                either(
                    Peg::Node(Rule::Gt),
                    either(Peg::Node(Rule::Equal), Peg::Node(Rule::NotEqual)),
                ),
            ),
        ),
    )
}

/// An infix operator.
pub open spec fn spec_infix() -> Peg {
    either(
        Peg::Node(Rule::Add),
        either(Peg::Node(Rule::Sub), either(product_operator(), comparison_operator())),
    )
}

#[verifier::when_used_as_spec(spec_infix)]
pub fn infix() -> (r: Peg)
    ensures
        r == spec_infix(),
{
    either(
        Peg::Node(Rule::Add),
        either(Peg::Node(Rule::Sub), either(product_operator(), comparison_operator())),
    )
}

/// A whole source file: statements up to the end of the input.
pub open spec fn spec_file_rule() -> Peg {
    chain(Peg::Gap, chain(statements(), Peg::End))
}

#[verifier::when_used_as_spec(spec_file_rule)]
pub fn file_rule() -> (r: Peg)
    ensures
        r == spec_file_rule(),
{
    chain(Peg::Gap, chain(statements(), Peg::End))
}

/// One statement; the alternatives are tried in this order.
pub open spec fn spec_statement_rule() -> Peg {
    either(
        Peg::Node(Rule::Comment),
        either(
            Peg::Node(Rule::ImportStatement),
            either(
                Peg::Node(Rule::FunctionDefinition),
                either(
                    branching(),
                    either(
                        Peg::Node(Rule::ReturnStatement),
                        either(Peg::Node(Rule::Assignment), Peg::Node(Rule::Expr)),
                    ),
                ),
            ),
        ),
    )
}

#[verifier::when_used_as_spec(spec_statement_rule)]
pub fn statement_rule() -> (r: Peg)
    ensures
        r == spec_statement_rule(),
{
    either(
        Peg::Node(Rule::Comment),
        either(
            Peg::Node(Rule::ImportStatement),
            either(
                Peg::Node(Rule::FunctionDefinition),
                either(
                    branching(),
                    either(
                        Peg::Node(Rule::ReturnStatement),
                        either(Peg::Node(Rule::Assignment), Peg::Node(Rule::Expr)),
                    ),
                ),
            ),
        ),
    )
}

/// From `//` to the end of the line.
pub open spec fn spec_comment_rule() -> Peg {
    chain(Peg::Text("//"), many(chain(not(Peg::Text("\n")), Peg::Any)))
}

#[verifier::when_used_as_spec(spec_comment_rule)]
pub fn comment_rule() -> (r: Peg)
    ensures
        r == spec_comment_rule(),
{
    chain(Peg::Text("//"), many(chain(not(Peg::Text("\n")), Peg::Any)))
}

/// The keyword `import` and the path of the file to bring in.
pub open spec fn spec_import_statement_rule() -> Peg {
    chain(word("import"), chain(Peg::Gap, Peg::Node(Rule::Path)))
}

#[verifier::when_used_as_spec(spec_import_statement_rule)]
pub fn import_statement_rule() -> (r: Peg)
    ensures
        r == spec_import_statement_rule(),
{
    chain(word("import"), chain(Peg::Gap, Peg::Node(Rule::Path)))
}

/// A run of characters that holds no whitespace.
pub open spec fn spec_path_rule() -> Peg {
    chain(visible(), many(visible()))
}

#[verifier::when_used_as_spec(spec_path_rule)]
pub fn path_rule() -> (r: Peg)
    ensures
        r == spec_path_rule(),
{
    chain(visible(), many(visible()))
}

/// An optional `lambda`, then `fn`, the name, the parameters in brackets, an
/// optional result type and the body.
pub open spec fn spec_function_definition_rule() -> Peg {
    chain(
        maybe(chain(Peg::Node(Rule::Lambda), Peg::Gap)),
        chain(
            word("fn"),
            chain(
                Peg::Gap,
                chain(
                    Peg::Node(Rule::IdentifierDefinition),
                    chain(
                        Peg::Gap,
                        chain(
                            Peg::Text("("),
                            chain(
                                Peg::Gap,
                                chain(
                                    maybe(
                                        chain(
                                            Peg::Node(Rule::FunctionArgsDefinitionList),
                                            Peg::Gap,
                                        ),
                                    ),
                                    chain(
                                        Peg::Text(")"),
                                        chain(
                                            Peg::Gap,
                                            chain(
                                                maybe(chain(Peg::Node(Rule::TypeHint), Peg::Gap)),
                                                Peg::Node(Rule::Block),
                                            ),
                                        ),
                                    ),
                                ),
                            ),
                        ),
                    ),
                ),
            ),
        ),
    )
}

#[verifier::when_used_as_spec(spec_function_definition_rule)]
pub fn function_definition_rule() -> (r: Peg)
    ensures
        r == spec_function_definition_rule(),
{
    chain(
        maybe(chain(Peg::Node(Rule::Lambda), Peg::Gap)),
        chain(
            word("fn"),
            chain(
                Peg::Gap,
                chain(
                    Peg::Node(Rule::IdentifierDefinition),
                    chain(
                        Peg::Gap,
                        chain(
                            Peg::Text("("),
                            chain(
                                Peg::Gap,
                                chain(
                                    maybe(
                                        chain(
                                            Peg::Node(Rule::FunctionArgsDefinitionList),
                                            Peg::Gap,
                                        ),
                                    ),
                                    chain(
                                        Peg::Text(")"),
                                        chain(
                                            Peg::Gap,
                                            chain(
                                                maybe(chain(Peg::Node(Rule::TypeHint), Peg::Gap)),
                                                Peg::Node(Rule::Block),
                                            ),
                                        ),
                                    ),
                                ),
                            ),
                        ),
                    ),
                ),
            ),
        ),
    )
}

/// The keyword `lambda`.
pub open spec fn spec_lambda_rule() -> Peg {
    word("lambda")
}

#[verifier::when_used_as_spec(spec_lambda_rule)]
pub fn lambda_rule() -> (r: Peg)
    ensures
        r == spec_lambda_rule(),
{
    word("lambda")
}

/// The name that a definition introduces.
pub open spec fn spec_identifier_definition_rule() -> Peg {
    free_name()
}

#[verifier::when_used_as_spec(spec_identifier_definition_rule)]
pub fn identifier_definition_rule() -> (r: Peg)
    ensures
        r == spec_identifier_definition_rule(),
{
    free_name()
}

/// Parameters separated by commas.
pub open spec fn spec_function_args_definition_list_rule() -> Peg {
    chain(parameter(), many(chain(Peg::Gap, chain(Peg::Text(","), chain(Peg::Gap, parameter())))))
}

#[verifier::when_used_as_spec(spec_function_args_definition_list_rule)]
pub fn function_args_definition_list_rule() -> (r: Peg)
    ensures
        r == spec_function_args_definition_list_rule(),
{
    chain(parameter(), many(chain(Peg::Gap, chain(Peg::Text(","), chain(Peg::Gap, parameter())))))
}

/// A colon, at most one space, a type name and any array lengths in square
/// brackets.
pub open spec fn spec_type_hint_rule() -> Peg {
    chain(
        Peg::Text(":"),
        chain(
            maybe(Peg::Text(" ")),
            chain(word_shape(), many(chain(Peg::Text("["), chain(digits(), Peg::Text("]"))))),
        ),
    )
}

#[verifier::when_used_as_spec(spec_type_hint_rule)]
pub fn type_hint_rule() -> (r: Peg)
    ensures
        r == spec_type_hint_rule(),
{
    chain(
        Peg::Text(":"),
        chain(
            maybe(Peg::Text(" ")),
            chain(word_shape(), many(chain(Peg::Text("["), chain(digits(), Peg::Text("]"))))),
        ),
    )
}

/// Statements in curly brackets.
pub open spec fn spec_block_rule() -> Peg {
    chain(Peg::Text("{"), chain(Peg::Gap, chain(statements(), Peg::Text("}"))))
}

#[verifier::when_used_as_spec(spec_block_rule)]
pub fn block_rule() -> (r: Peg)
    ensures
        r == spec_block_rule(),
{
    chain(Peg::Text("{"), chain(Peg::Gap, chain(statements(), Peg::Text("}"))))
}

/// An `if`, any number of `elif`, and at most one `else`.
pub open spec fn spec_if_block_rule() -> Peg {
    chain(
        Peg::Node(Rule::IfStatement),
        chain(
            many(chain(Peg::Gap, Peg::Node(Rule::ElifStatement))),
            maybe(chain(Peg::Gap, Peg::Node(Rule::ElseStatement))),
        ),
    )
}

#[verifier::when_used_as_spec(spec_if_block_rule)]
pub fn if_block_rule() -> (r: Peg)
    ensures
        r == spec_if_block_rule(),
{
    chain(
        Peg::Node(Rule::IfStatement),
        chain(
            many(chain(Peg::Gap, Peg::Node(Rule::ElifStatement))),
            maybe(chain(Peg::Gap, Peg::Node(Rule::ElseStatement))),
        ),
    )
}

/// `if`, a condition and a block.
pub open spec fn spec_if_statement_rule() -> Peg {
    chain(
        word("if"),
        chain(Peg::Gap, chain(Peg::Node(Rule::Expr), chain(Peg::Gap, Peg::Node(Rule::Block)))),
    )
}

#[verifier::when_used_as_spec(spec_if_statement_rule)]
pub fn if_statement_rule() -> (r: Peg)
    ensures
        r == spec_if_statement_rule(),
{
    chain(
        word("if"),
        chain(Peg::Gap, chain(Peg::Node(Rule::Expr), chain(Peg::Gap, Peg::Node(Rule::Block)))),
    )
}

/// `elif`, a condition and a block.
pub open spec fn spec_elif_statement_rule() -> Peg {
    chain(
        word("elif"),
        chain(Peg::Gap, chain(Peg::Node(Rule::Expr), chain(Peg::Gap, Peg::Node(Rule::Block)))),
    )
}

#[verifier::when_used_as_spec(spec_elif_statement_rule)]
pub fn elif_statement_rule() -> (r: Peg)
    ensures
        r == spec_elif_statement_rule(),
{
    chain(
        word("elif"),
        chain(Peg::Gap, chain(Peg::Node(Rule::Expr), chain(Peg::Gap, Peg::Node(Rule::Block)))),
    )
}

/// `else` and a block.
pub open spec fn spec_else_statement_rule() -> Peg {
    chain(word("else"), chain(Peg::Gap, Peg::Node(Rule::Block)))
}

#[verifier::when_used_as_spec(spec_else_statement_rule)]
pub fn else_statement_rule() -> (r: Peg)
    ensures
        r == spec_else_statement_rule(),
{
    chain(word("else"), chain(Peg::Gap, Peg::Node(Rule::Block)))
}

/// `while`, a condition and a block.
pub open spec fn spec_while_statement_rule() -> Peg {
    chain(
        word("while"),
        chain(Peg::Gap, chain(Peg::Node(Rule::Expr), chain(Peg::Gap, Peg::Node(Rule::Block)))),
    )
}

#[verifier::when_used_as_spec(spec_while_statement_rule)]
pub fn while_statement_rule() -> (r: Peg)
    ensures
        r == spec_while_statement_rule(),
{
    chain(
        word("while"),
        chain(Peg::Gap, chain(Peg::Node(Rule::Expr), chain(Peg::Gap, Peg::Node(Rule::Block)))),
    )
}

/// `for`, a name with an optional type, `in`, the value to walk and a block.
pub open spec fn spec_for_statement_rule() -> Peg {
    chain(
        word("for"),
        chain(
            Peg::Gap,
            chain(
                Peg::Node(Rule::Identifier),
                chain(
                    Peg::Gap,
                    chain(
                        maybe(chain(Peg::Node(Rule::TypeHint), Peg::Gap)),
                        chain(
                            word("in"),
                            chain(
                                Peg::Gap,
                                chain(
                                    Peg::Node(Rule::Expr),
                                    chain(Peg::Gap, Peg::Node(Rule::Block)),
                                ),
                            ),
                        ),
                    ),
                ),
            ),
        ),
    )
}

#[verifier::when_used_as_spec(spec_for_statement_rule)]
pub fn for_statement_rule() -> (r: Peg)
    ensures
        r == spec_for_statement_rule(),
{
    chain(
        word("for"),
        chain(
            Peg::Gap,
            chain(
                Peg::Node(Rule::Identifier),
                chain(
                    Peg::Gap,
                    chain(
                        maybe(chain(Peg::Node(Rule::TypeHint), Peg::Gap)),
                        chain(
                            word("in"),
                            chain(
                                Peg::Gap,
                                chain(
                                    Peg::Node(Rule::Expr),
                                    chain(Peg::Gap, Peg::Node(Rule::Block)),
                                ),
                            ),
                        ),
                    ),
                ),
            ),
        ),
    )
}

/// `return` and the value.
pub open spec fn spec_return_statement_rule() -> Peg {
    chain(word("return"), chain(Peg::Gap, Peg::Node(Rule::Expr)))
}

#[verifier::when_used_as_spec(spec_return_statement_rule)]
pub fn return_statement_rule() -> (r: Peg)
    ensures
        r == spec_return_statement_rule(),
{
    chain(word("return"), chain(Peg::Gap, Peg::Node(Rule::Expr)))
}

/// A name, an optional index, an assignment operator and the value.
pub open spec fn spec_assignment_rule() -> Peg {
    chain(
        Peg::Node(Rule::Identifier),
        chain(
            Peg::Gap,
            chain(
                maybe(chain(Peg::Node(Rule::ArrayIndexing), Peg::Gap)),
                chain(assignment_operator(), chain(Peg::Gap, Peg::Node(Rule::Expr))),
            ),
        ),
    )
}

#[verifier::when_used_as_spec(spec_assignment_rule)]
pub fn assignment_rule() -> (r: Peg)
    ensures
        r == spec_assignment_rule(),
{
    chain(
        Peg::Node(Rule::Identifier),
        chain(
            Peg::Gap,
            chain(
                maybe(chain(Peg::Node(Rule::ArrayIndexing), Peg::Gap)),
                chain(assignment_operator(), chain(Peg::Gap, Peg::Node(Rule::Expr))),
            ),
        ),
    )
}

/// `=`, where no second `=` follows.
pub open spec fn spec_ass_set_rule() -> Peg {
    chain(Peg::Text("="), not(Peg::Text("=")))
}

#[verifier::when_used_as_spec(spec_ass_set_rule)]
pub fn ass_set_rule() -> (r: Peg)
    ensures
        r == spec_ass_set_rule(),
{
    chain(Peg::Text("="), not(Peg::Text("=")))
}

/// The operator `+=`.
pub open spec fn spec_ass_add_rule() -> Peg {
    Peg::Text("+=")
}

#[verifier::when_used_as_spec(spec_ass_add_rule)]
pub fn ass_add_rule() -> (r: Peg)
    ensures
        r == spec_ass_add_rule(),
{
    Peg::Text("+=")
}

/// The operator `-=`.
pub open spec fn spec_ass_sub_rule() -> Peg {
    Peg::Text("-=")
}

#[verifier::when_used_as_spec(spec_ass_sub_rule)]
pub fn ass_sub_rule() -> (r: Peg)
    ensures
        r == spec_ass_sub_rule(),
{
    Peg::Text("-=")
}

/// The operator `*=`.
pub open spec fn spec_ass_mul_rule() -> Peg {
    Peg::Text("*=")
}

#[verifier::when_used_as_spec(spec_ass_mul_rule)]
pub fn ass_mul_rule() -> (r: Peg)
    ensures
        r == spec_ass_mul_rule(),
{
    Peg::Text("*=")
}

/// The operator `/=`.
pub open spec fn spec_ass_div_rule() -> Peg {
    Peg::Text("/=")
}

#[verifier::when_used_as_spec(spec_ass_div_rule)]
pub fn ass_div_rule() -> (r: Peg)
    ensures
        r == spec_ass_div_rule(),
{
    Peg::Text("/=")
}

/// The operator `^=`.
pub open spec fn spec_ass_pow_rule() -> Peg {
    Peg::Text("^=")
}

#[verifier::when_used_as_spec(spec_ass_pow_rule)]
pub fn ass_pow_rule() -> (r: Peg)
    ensures
        r == spec_ass_pow_rule(),
{
    Peg::Text("^=")
}

/// Operands separated by infix operators.
pub open spec fn spec_expr_rule() -> Peg {
    chain(operand(), many(chain(Peg::Gap, chain(infix(), chain(Peg::Gap, operand())))))
}

#[verifier::when_used_as_spec(spec_expr_rule)]
pub fn expr_rule() -> (r: Peg)
    ensures
        r == spec_expr_rule(),
{
    chain(operand(), many(chain(Peg::Gap, chain(infix(), chain(Peg::Gap, operand())))))
}

/// An index in square brackets.
pub open spec fn spec_array_indexing_rule() -> Peg {
    chain(
        Peg::Text("["),
        chain(Peg::Gap, chain(Peg::Node(Rule::Expr), chain(Peg::Gap, Peg::Text("]")))),
    )
}

#[verifier::when_used_as_spec(spec_array_indexing_rule)]
pub fn array_indexing_rule() -> (r: Peg)
    ensures
        r == spec_array_indexing_rule(),
{
    chain(
        Peg::Text("["),
        chain(Peg::Gap, chain(Peg::Node(Rule::Expr), chain(Peg::Gap, Peg::Text("]")))),
    )
}

/// A name, the arguments in brackets directly after it, and an optional
/// trailing block.
pub open spec fn spec_function_call_rule() -> Peg {
    chain(
        Peg::Node(Rule::Identifier),
        chain(
            Peg::Text("("),
            chain(
                Peg::Gap,
                chain(
                    maybe(chain(Peg::Node(Rule::FunctionArgsList), Peg::Gap)),
                    chain(Peg::Text(")"), maybe(chain(Peg::Gap, Peg::Node(Rule::Block)))),
                ),
            ),
        ),
    )
}

#[verifier::when_used_as_spec(spec_function_call_rule)]
pub fn function_call_rule() -> (r: Peg)
    ensures
        r == spec_function_call_rule(),
{
    chain(
        Peg::Node(Rule::Identifier),
        chain(
            Peg::Text("("),
            chain(
                Peg::Gap,
                chain(
                    maybe(chain(Peg::Node(Rule::FunctionArgsList), Peg::Gap)),
                    chain(Peg::Text(")"), maybe(chain(Peg::Gap, Peg::Node(Rule::Block)))),
                ),
            ),
        ),
    )
}

/// Arguments separated by commas.
pub open spec fn spec_function_args_list_rule() -> Peg {
    chain(
        Peg::Node(Rule::Expr),
        many(chain(Peg::Gap, chain(Peg::Text(","), chain(Peg::Gap, Peg::Node(Rule::Expr))))),
    )
}

#[verifier::when_used_as_spec(spec_function_args_list_rule)]
pub fn function_args_list_rule() -> (r: Peg)
    ensures
        r == spec_function_args_list_rule(),
{
    chain(
        Peg::Node(Rule::Expr),
        many(chain(Peg::Gap, chain(Peg::Text(","), chain(Peg::Gap, Peg::Node(Rule::Expr))))),
    )
}

/// Elements in square brackets, separated by commas.
pub open spec fn spec_array_rule() -> Peg {
    chain(
        Peg::Text("["),
        chain(
            Peg::Gap,
            chain(
                maybe(
                    chain(
                        Peg::Node(Rule::Expr),
                        chain(
                            Peg::Gap,
                            many(
                                chain(
                                    Peg::Text(","),
                                    chain(Peg::Gap, chain(Peg::Node(Rule::Expr), Peg::Gap)),
                                ),
                            ),
                        ),
                    ),
                ),
                Peg::Text("]"),
            ),
        ),
    )
}

#[verifier::when_used_as_spec(spec_array_rule)]
pub fn array_rule() -> (r: Peg)
    ensures
        r == spec_array_rule(),
{
    chain(
        Peg::Text("["),
        chain(
            Peg::Gap,
            chain(
                maybe(
                    chain(
                        Peg::Node(Rule::Expr),
                        chain(
                            Peg::Gap,
                            many(
                                chain(
                                    Peg::Text(","),
                                    chain(Peg::Gap, chain(Peg::Node(Rule::Expr), Peg::Gap)),
                                ),
                            ),
                        ),
                    ),
                ),
                Peg::Text("]"),
            ),
        ),
    )
}

/// A name in use.
pub open spec fn spec_identifier_rule() -> Peg {
    free_name()
}

#[verifier::when_used_as_spec(spec_identifier_rule)]
pub fn identifier_rule() -> (r: Peg)
    ensures
        r == spec_identifier_rule(),
{
    free_name()
}

/// Digits, and optionally a point and more digits.
pub open spec fn spec_number_rule() -> Peg {
    chain(digits(), maybe(chain(Peg::Text("."), digits())))
}

#[verifier::when_used_as_spec(spec_number_rule)]
pub fn number_rule() -> (r: Peg)
    ensures
        r == spec_number_rule(),
{
    chain(digits(), maybe(chain(Peg::Text("."), digits())))
}

/// `true` or `false`.
pub open spec fn spec_boolean_rule() -> Peg {
    either(word("true"), word("false"))
}

#[verifier::when_used_as_spec(spec_boolean_rule)]
pub fn boolean_rule() -> (r: Peg)
    ensures
        r == spec_boolean_rule(),
{
    either(word("true"), word("false"))
}

/// One character between single quotes.
pub open spec fn spec_character_rule() -> Peg {
    chain(Peg::Text("'"), chain(Peg::Any, Peg::Text("'")))
}

#[verifier::when_used_as_spec(spec_character_rule)]
pub fn character_rule() -> (r: Peg)
    ensures
        r == spec_character_rule(),
{
    chain(Peg::Text("'"), chain(Peg::Any, Peg::Text("'")))
}

/// The keyword `none`.
pub open spec fn spec_nothing_rule() -> Peg {
    word("none")
}

#[verifier::when_used_as_spec(spec_nothing_rule)]
pub fn nothing_rule() -> (r: Peg)
    ensures
        r == spec_nothing_rule(),
{
    word("none")
}

/// The operator `-`.
pub open spec fn spec_unary_minus_rule() -> Peg {
    Peg::Text("-")
}

#[verifier::when_used_as_spec(spec_unary_minus_rule)]
pub fn unary_minus_rule() -> (r: Peg)
    ensures
        r == spec_unary_minus_rule(),
{
    Peg::Text("-")
}

/// The operator `+`.
pub open spec fn spec_add_rule() -> Peg {
    Peg::Text("+")
}

#[verifier::when_used_as_spec(spec_add_rule)]
pub fn add_rule() -> (r: Peg)
    ensures
        r == spec_add_rule(),
{
    Peg::Text("+")
}

/// The operator `-`.
pub open spec fn spec_sub_rule() -> Peg {
    Peg::Text("-")
}

#[verifier::when_used_as_spec(spec_sub_rule)]
pub fn sub_rule() -> (r: Peg)
    ensures
        r == spec_sub_rule(),
{
    Peg::Text("-")
}

/// The operator `*`.
pub open spec fn spec_mul_rule() -> Peg {
    Peg::Text("*")
}

#[verifier::when_used_as_spec(spec_mul_rule)]
pub fn mul_rule() -> (r: Peg)
    ensures
        r == spec_mul_rule(),
{
    Peg::Text("*")
}

/// The operator `/`.
pub open spec fn spec_div_rule() -> Peg {
    Peg::Text("/")
}

#[verifier::when_used_as_spec(spec_div_rule)]
pub fn div_rule() -> (r: Peg)
    ensures
        r == spec_div_rule(),
{
    Peg::Text("/")
}

/// The operator `%`.
pub open spec fn spec_mod_rule() -> Peg {
    Peg::Text("%")
}

#[verifier::when_used_as_spec(spec_mod_rule)]
pub fn mod_rule() -> (r: Peg)
    ensures
        r == spec_mod_rule(),
{
    Peg::Text("%")
}

/// The operator `^`.
pub open spec fn spec_pow_rule() -> Peg {
    Peg::Text("^")
}

#[verifier::when_used_as_spec(spec_pow_rule)]
pub fn pow_rule() -> (r: Peg)
    ensures
        r == spec_pow_rule(),
{
    Peg::Text("^")
}

/// The operator `..`.
pub open spec fn spec_range_rule() -> Peg {
    Peg::Text("..")
}

#[verifier::when_used_as_spec(spec_range_rule)]
pub fn range_rule() -> (r: Peg)
    ensures
        r == spec_range_rule(),
{
    Peg::Text("..")
}

/// The operator `<`.
pub open spec fn spec_lt_rule() -> Peg {
    Peg::Text("<")
}

#[verifier::when_used_as_spec(spec_lt_rule)]
pub fn lt_rule() -> (r: Peg)
    ensures
        r == spec_lt_rule(),
{
    Peg::Text("<")
}

/// The operator `>`.
pub open spec fn spec_gt_rule() -> Peg {
    Peg::Text(">")
}

#[verifier::when_used_as_spec(spec_gt_rule)]
pub fn gt_rule() -> (r: Peg)
    ensures
        r == spec_gt_rule(),
{
    Peg::Text(">")
}

/// The operator `<=`.
pub open spec fn spec_lte_rule() -> Peg {
    Peg::Text("<=")
}

#[verifier::when_used_as_spec(spec_lte_rule)]
pub fn lte_rule() -> (r: Peg)
    ensures
        r == spec_lte_rule(),
{
    Peg::Text("<=")
}

/// The operator `>=`.
pub open spec fn spec_gte_rule() -> Peg {
    Peg::Text(">=")
}

#[verifier::when_used_as_spec(spec_gte_rule)]
pub fn gte_rule() -> (r: Peg)
    ensures
        r == spec_gte_rule(),
{
    Peg::Text(">=")
}

/// The operator `==`.
pub open spec fn spec_equal_rule() -> Peg {
    Peg::Text("==")
}

#[verifier::when_used_as_spec(spec_equal_rule)]
pub fn equal_rule() -> (r: Peg)
    ensures
        r == spec_equal_rule(),
{
    Peg::Text("==")
}

/// The operator `!=`.
pub open spec fn spec_not_equal_rule() -> Peg {
    Peg::Text("!=")
}

#[verifier::when_used_as_spec(spec_not_equal_rule)]
pub fn not_equal_rule() -> (r: Peg)
    ensures
        r == spec_not_equal_rule(),
{
    Peg::Text("!=")
}

/// The body of `rule`.
pub open spec fn rule_body(rule: Rule) -> Peg {
    match rule {
        Rule::File => file_rule(),
        Rule::Statement => statement_rule(),
        Rule::Comment => comment_rule(),
        Rule::ImportStatement => import_statement_rule(),
        Rule::Path => path_rule(),
        Rule::FunctionDefinition => function_definition_rule(),
        Rule::Lambda => lambda_rule(),
        Rule::IdentifierDefinition => identifier_definition_rule(),
        Rule::FunctionArgsDefinitionList => function_args_definition_list_rule(),
        Rule::TypeHint => type_hint_rule(),
        Rule::Block => block_rule(),
        Rule::IfBlock => if_block_rule(),
        Rule::IfStatement => if_statement_rule(),
        Rule::ElifStatement => elif_statement_rule(),
        Rule::ElseStatement => else_statement_rule(),
        Rule::WhileStatement => while_statement_rule(),
        Rule::ForStatement => for_statement_rule(),
        Rule::ReturnStatement => return_statement_rule(),
        Rule::Assignment => assignment_rule(),
        Rule::AssSet => ass_set_rule(),
        Rule::AssAdd => ass_add_rule(),
        Rule::AssSub => ass_sub_rule(),
        Rule::AssMul => ass_mul_rule(),
        Rule::AssDiv => ass_div_rule(),
        Rule::AssPow => ass_pow_rule(),
        Rule::Expr => expr_rule(),
        Rule::ArrayIndexing => array_indexing_rule(),
        Rule::FunctionCall => function_call_rule(),
        Rule::FunctionArgsList => function_args_list_rule(),
        Rule::Array => array_rule(),
        Rule::Identifier => identifier_rule(),
        Rule::Number => number_rule(),
        Rule::Boolean => boolean_rule(),
        Rule::Character => character_rule(),
        Rule::Nothing => nothing_rule(),
        Rule::UnaryMinus => unary_minus_rule(),
        Rule::Add => add_rule(),
        Rule::Sub => sub_rule(),
        Rule::Mul => mul_rule(),
        Rule::Div => div_rule(),
        Rule::Mod => mod_rule(),
        Rule::Pow => pow_rule(),
        Rule::Range => range_rule(),
        Rule::Lt => lt_rule(),
        Rule::Gt => gt_rule(),
        Rule::Lte => lte_rule(),
        Rule::Gte => gte_rule(),
        Rule::Equal => equal_rule(),
        Rule::NotEqual => not_equal_rule(),
    }
}

/// Builds the body of `rule`.
pub fn body(rule: Rule) -> (r: Peg)
    ensures
        r == rule_body(rule),
{
    match rule {
        Rule::File => file_rule(),
        Rule::Statement => statement_rule(),
        Rule::Comment => comment_rule(),
        Rule::ImportStatement => import_statement_rule(),
        Rule::Path => path_rule(),
        Rule::FunctionDefinition => function_definition_rule(),
        Rule::Lambda => lambda_rule(),
        Rule::IdentifierDefinition => identifier_definition_rule(),
        Rule::FunctionArgsDefinitionList => function_args_definition_list_rule(),
        Rule::TypeHint => type_hint_rule(),
        Rule::Block => block_rule(),
        Rule::IfBlock => if_block_rule(),
        Rule::IfStatement => if_statement_rule(),
        Rule::ElifStatement => elif_statement_rule(),
        Rule::ElseStatement => else_statement_rule(),
        Rule::WhileStatement => while_statement_rule(),
        Rule::ForStatement => for_statement_rule(),
        Rule::ReturnStatement => return_statement_rule(),
        Rule::Assignment => assignment_rule(),
        Rule::AssSet => ass_set_rule(),
        Rule::AssAdd => ass_add_rule(),
        Rule::AssSub => ass_sub_rule(),
        Rule::AssMul => ass_mul_rule(),
        Rule::AssDiv => ass_div_rule(),
        Rule::AssPow => ass_pow_rule(),
        Rule::Expr => expr_rule(),
        Rule::ArrayIndexing => array_indexing_rule(),
        Rule::FunctionCall => function_call_rule(),
        Rule::FunctionArgsList => function_args_list_rule(),
        Rule::Array => array_rule(),
        Rule::Identifier => identifier_rule(),
        Rule::Number => number_rule(),
        Rule::Boolean => boolean_rule(),
        Rule::Character => character_rule(),
        Rule::Nothing => nothing_rule(),
        Rule::UnaryMinus => unary_minus_rule(),
        Rule::Add => add_rule(),
        Rule::Sub => sub_rule(),
        Rule::Mul => mul_rule(),
        Rule::Div => div_rule(),
        Rule::Mod => mod_rule(),
        Rule::Pow => pow_rule(),
        Rule::Range => range_rule(),
        Rule::Lt => lt_rule(),
        Rule::Gt => gt_rule(),
        Rule::Lte => lte_rule(),
        Rule::Gte => gte_rule(),
        Rule::Equal => equal_rule(),
        Rule::NotEqual => not_equal_rule(),
    }
}

} // verus!
