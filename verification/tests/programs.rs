use jamalang::compiler::codegen::value::LowerError;
use jamalang::compiler::module::{Arithmetic, Comparison, Kind, Origin, Step};
use jamalang::compiler::{CompileResult, Compiler, Module};
use jamalang::parser::parse_ast;
use std::collections::HashMap;

/// A value while a module is run.
#[derive(Debug, Clone, PartialEq)]
enum Val {
    Undefined,
    Number(f32),
    Bool(bool),
    Char(u8),
    Index(u32),
    Array(Vec<Val>),
    Pointer(usize),
}

struct Function {
    name: String,
    origin: Origin,
    parameters: Vec<usize>,
    first_block: Option<usize>,
}

/// Runs the steps of a module the way a back end would build and execute
/// them, and collects what the built-ins print.
struct Machine<'a> {
    module: &'a Module,
    functions: HashMap<usize, Function>,
    blocks: HashMap<usize, Vec<usize>>,
    constants: HashMap<usize, Val>,
    memory: Vec<Val>,
    output: String,
}

fn slots(kind: Kind) -> usize {
    match kind {
        Kind::Array { len, .. } => len as usize,
        _ => 1,
    }
}

impl<'a> Machine<'a> {
    fn new(module: &'a Module) -> Machine<'a> {
        let mut machine = Machine {
            module,
            functions: HashMap::new(),
            blocks: HashMap::new(),
            constants: HashMap::new(),
            memory: Vec::new(),
            output: String::new(),
        };
        let mut current: Option<usize> = None;
        let mut builders: Vec<Option<usize>> = Vec::new();
        let mut declared: Option<usize> = None;
        for (id, step) in module.steps.iter().enumerate() {
            match *step {
                Step::DeclareFunction { name, origin, .. } => {
                    machine.functions.insert(
                        id,
                        Function {
                            name: module.names[name].clone(),
                            origin,
                            parameters: Vec::new(),
                            first_block: None,
                        },
                    );
                    declared = Some(id);
                }
                Step::Parameter { .. } => {
                    let function = declared.expect("a parameter follows a declaration");
                    machine.functions.get_mut(&function).unwrap().parameters.push(id);
                }
                Step::LinkSupportLibrary => {}
                Step::AppendBlock { function, .. } => {
                    machine.blocks.insert(id, Vec::new());
                    let function = machine.functions.get_mut(&function).unwrap();
                    if function.first_block.is_none() {
                        function.first_block = Some(id);
                    }
                }
                Step::PositionAtEnd { block } => current = Some(block),
                Step::PushBuilder { block } => {
                    builders.push(current);
                    current = Some(block);
                }
                Step::PopBuilder => current = builders.pop().expect("a builder was pushed"),
                Step::ConstNumber { literal } => {
                    let value = module.names[literal].parse::<f32>().expect("a valid number");
                    machine.constants.insert(id, Val::Number(value));
                }
                Step::ConstBool { value } => {
                    machine.constants.insert(id, Val::Bool(value));
                }
                Step::ConstChar { code } => {
                    machine.constants.insert(id, Val::Char(code));
                }
                Step::ConstIndex { value } => {
                    machine.constants.insert(id, Val::Index(value));
                }
                Step::Element { .. } => {}
                Step::Array { len, folded: true, .. } => {
                    let elements = machine
                        .operands(id, len as usize)
                        .iter()
                        .map(|element| machine.constants[element].clone())
                        .collect();
                    machine.constants.insert(id, Val::Array(elements));
                }
                Step::ConstRange { start, end } => {
                    let elements = (start..end).map(|e| Val::Number(e as f64 as f32)).collect();
                    machine.constants.insert(id, Val::Array(elements));
                }
                Step::Global { kind, initializer, .. } => {
                    let address = machine.reserve(slots(kind));
                    let value = match initializer {
                        Some(initializer) => machine.constants[&initializer].clone(),
                        None => match kind {
                            Kind::Number => Val::Number(0.0),
                            Kind::Bool => Val::Bool(false),
                            Kind::Char => Val::Char(0),
                            Kind::Index => Val::Index(0),
                            Kind::Array { .. } => Val::Undefined,
                        },
                    };
                    machine.write(address, value);
                    machine.constants.insert(id, Val::Pointer(address));
                }
                Step::ToIndex { folded: true, .. }
                | Step::Negate { folded: true, .. }
                | Step::Arithmetic { folded: true, .. }
                | Step::Compare { folded: true, .. } => {
                    let value = machine.compute(&HashMap::new(), id);
                    machine.constants.insert(id, value);
                }
                _ => {
                    let block = current.expect("the builder stands in a block");
                    machine.blocks.get_mut(&block).unwrap().push(id);
                }
            }
        }
        machine
    }

    /// The values given by the `count` operand steps just before `id`.
    fn operands(&self, id: usize, count: usize) -> Vec<usize> {
        (id - count..id)
            .map(|at| match self.module.steps[at] {
                Step::Element { value } => value,
                other => panic!("expected an operand, found {:?}", other),
            })
            .collect()
    }

    /// What an operation on numbers gives.
    fn compute(&self, values: &HashMap<usize, Val>, id: usize) -> Val {
        let number = |id: usize| match values.get(&id).or_else(|| self.constants.get(&id)) {
            Some(Val::Number(x)) => *x,
            other => panic!("expected a number, found {:?}", other),
        };
        match self.module.steps[id] {
            Step::ToIndex { value, .. } => Val::Index(number(value) as u32),
            Step::Negate { value, .. } => Val::Number(-number(value)),
            Step::Arithmetic { op, lhs, rhs, .. } => {
                let (a, b) = (number(lhs), number(rhs));
                Val::Number(match op {
                    Arithmetic::Add => a + b,
                    Arithmetic::Sub => a - b,
                    Arithmetic::Mul => a * b,
                    Arithmetic::Div => a / b,
                    Arithmetic::Rem => a % b,
                })
            }
            Step::Compare { op, lhs, rhs, .. } => {
                let (a, b) = (number(lhs), number(rhs));
                let unordered = a.is_nan() || b.is_nan();
                Val::Bool(
                    unordered
                        || match op {
                            Comparison::Lt => a < b,
                            Comparison::Gt => a > b,
                            Comparison::Lte => a <= b,
                            Comparison::Gte => a >= b,
                            Comparison::Eq => a == b,
                            Comparison::NotEq => a != b,
                        },
                )
            }
            other => panic!("{:?} computes nothing", other),
        }
    }

    fn reserve(&mut self, count: usize) -> usize {
        let address = self.memory.len();
        self.memory.resize(address + count, Val::Undefined);
        address
    }

    fn write(&mut self, address: usize, value: Val) {
        match value {
            Val::Array(elements) => {
                for (offset, element) in elements.into_iter().enumerate() {
                    self.memory[address + offset] = element;
                }
            }
            other => self.memory[address] = other,
        }
    }

    fn read(&self, address: usize, kind: Kind) -> Val {
        let at = |address: usize| self.memory.get(address).cloned().unwrap_or(Val::Undefined);
        match kind {
            Kind::Array { len, .. } => Val::Array((0..len as usize).map(|i| at(address + i)).collect()),
            _ => at(address),
        }
    }

    fn function_named(&self, name: &str) -> usize {
        *self
            .functions
            .iter()
            .find(|(_, function)| function.name == name)
            .expect("the function should be defined")
            .0
    }

    fn call(&mut self, function: usize, arguments: Vec<Val>) -> Val {
        let (origin, name) = {
            let function = &self.functions[&function];
            (function.origin, function.name.clone())
        };
        match origin {
            Origin::Builtin => {
                match (name.as_str(), &arguments[0]) {
                    ("println_n", Val::Number(x)) => self.output.push_str(&format!("{}\n", x)),
                    ("println_c", Val::Char(x)) => self.output.push_str(&format!("{}\n", *x as char)),
                    ("println_b", Val::Bool(x)) => self.output.push_str(&format!("{}\n", x)),
                    other => panic!("unexpected call of a built-in: {:?}", other),
                }
                Val::Undefined
            }
            Origin::Support => {
                assert_eq!(name, "stdlibTest");
                let print = self.function_named("println_n");
                self.call(print, vec![Val::Number(2.8)]);
                Val::Number(5.5)
            }
            Origin::Defined => self.run(function, arguments),
        }
    }

    fn run(&mut self, function: usize, arguments: Vec<Val>) -> Val {
        let mut values: HashMap<usize, Val> = HashMap::new();
        for (parameter, argument) in self.functions[&function].parameters.iter().zip(arguments) {
            values.insert(*parameter, argument);
        }
        let mut block = self.functions[&function].first_block.expect("the function has a body");
        let mut rounds = 0;
        loop {
            rounds += 1;
            assert!(rounds < 100_000, "the program does not end");
            let steps = self.blocks[&block].clone();
            let mut next: Option<usize> = None;
            for id in steps {
                let get = |values: &HashMap<usize, Val>, machine: &Machine, id: usize| -> Val {
                    values
                        .get(&id)
                        .or_else(|| machine.constants.get(&id))
                        .cloned()
                        .unwrap_or(Val::Undefined)
                };
                let number = |value: Val| match value {
                    Val::Number(x) => x,
                    other => panic!("expected a number, found {:?}", other),
                };
                let index = |value: Val| match value {
                    Val::Index(x) => x,
                    other => panic!("expected an index, found {:?}", other),
                };
                let pointer = |value: Val| match value {
                    Val::Pointer(x) => x,
                    other => panic!("expected an address, found {:?}", other),
                };
                match self.module.steps[id] {
                    Step::Alloca { kind, .. } => {
                        let address = self.reserve(slots(kind));
                        values.insert(id, Val::Pointer(address));
                    }
                    Step::Array { len, .. } => {
                        let elements = self
                            .operands(id, len as usize)
                            .into_iter()
                            .map(|element| get(&values, self, element))
                            .collect();
                        values.insert(id, Val::Array(elements));
                    }
                    Step::Store { pointer: to, value } => {
                        let address = pointer(get(&values, self, to));
                        let value = get(&values, self, value);
                        if address < self.memory.len() {
                            self.write(address, value);
                        }
                    }
                    Step::Load { kind, pointer: from } => {
                        let address = pointer(get(&values, self, from));
                        values.insert(id, self.read(address, kind));
                    }
                    Step::ElementPointer { pointer: base, index: at, .. } => {
                        let address = pointer(get(&values, self, base));
                        let offset = index(get(&values, self, at));
                        values.insert(id, Val::Pointer(address + offset as usize));
                    }
                    Step::ToIndex { .. }
                    | Step::Negate { .. }
                    | Step::Arithmetic { .. }
                    | Step::Compare { .. } => {
                        let value = self.compute(&values, id);
                        values.insert(id, value);
                    }
                    Step::IndexAdd { lhs, rhs } => {
                        let a = index(get(&values, self, lhs));
                        let b = index(get(&values, self, rhs));
                        values.insert(id, Val::Index(a.wrapping_add(b)));
                    }
                    Step::IndexNotEqual { lhs, rhs } => {
                        let a = index(get(&values, self, lhs));
                        let b = index(get(&values, self, rhs));
                        values.insert(id, Val::Bool(a != b));
                    }
                    Step::Call { function, arity } => {
                        let arguments = self
                            .operands(id, arity)
                            .into_iter()
                            .map(|argument| get(&values, self, argument))
                            .collect();
                        let result = self.call(function, arguments);
                        values.insert(id, result);
                    }
                    Step::Return { value } => {
                        return match value {
                            Some(value) => get(&values, self, value),
                            None => Val::Undefined,
                        };
                    }
                    Step::Branch { target } => {
                        next = Some(target);
                        break;
                    }
                    Step::ConditionalBranch { condition, then_block, else_block } => {
                        next = match get(&values, self, condition) {
                            Val::Bool(true) => Some(then_block),
                            Val::Bool(false) => Some(else_block),
                            other => panic!("expected a truth value, found {:?}", other),
                        };
                        break;
                    }
                    other => panic!("{:?} is no instruction", other),
                }
            }
            block = next.expect("a block ends in a terminator");
        }
    }
}

fn compile(source: &str) -> Result<(Compiler, CompileResult), LowerError> {
    let script = parse_ast("test_file", source).expect("syntax should be valid");
    let mut compiler = Compiler::new();
    let result = compiler.compile(&script)?;
    Ok((compiler, result))
}

/// Compiles a program, runs its entry point, and returns what it printed.
fn output_of(source: &str) -> String {
    let (compiler, _) = compile(source).expect("the program should compile");
    let mut machine = Machine::new(&compiler.module);
    let main = machine.function_named(&format!("{}_entry", "test_file"));
    machine.run(main, Vec::new());
    machine.output
}

fn error_of(source: &str) -> LowerError {
    match compile(source) {
        Ok(_) => panic!("the program should not compile"),
        Err(error) => error,
    }
}

#[test]
fn print_number() {
    assert_eq!(output_of("println(1)"), "1\n");
}

#[test]
fn print_fraction_char_and_bool() {
    assert_eq!(output_of("println(2.5)\nprintln('a')\nprintln(true)"), "2.5\na\ntrue\n");
}

#[test]
fn arithmetic_and_comparison() {
    assert_eq!(output_of("println(1 + 2 * 3)"), "7\n");
    assert_eq!(output_of("println(7 % 4 - -1)"), "4\n");
    assert_eq!(output_of("println((1 + 2) * 3 / 2)"), "4.5\n");
    assert_eq!(output_of("println(1 < 2)\nprintln(2 <= 1)\nprintln(3 == 3)\nprintln(3 != 3)"), "true\nfalse\ntrue\nfalse\n");
    assert_eq!(output_of("println(2 > 1)\nprintln(1 >= 2)"), "true\nfalse\n");
}

#[test]
fn compound_assignment_changes_the_cell() {
    assert_eq!(output_of("x = 1\nx += 1\nprintln(x)"), "2\n");
    assert_eq!(output_of("x = 8\nx -= 2\nx *= 3\nx /= 4\nprintln(x)"), "4.5\n");
}

#[test]
fn compound_assignment_does_not_rebind() {
    let (_, before) = compile("x = 1").unwrap();
    let (_, after) = compile("x = 1\nx += 1").unwrap();
    assert_eq!(before.variables.get("x"), after.variables.get("x"));
    assert!(after.variables.get("x").unwrap().global);
}

#[test]
fn assignment_rebinds() {
    let (_, once) = compile("x = 1").unwrap();
    let (_, twice) = compile("x = 1\nx = 2").unwrap();
    assert_ne!(once.variables.get("x").unwrap().pointer, twice.variables.get("x").unwrap().pointer);
    assert_eq!(output_of("x = 1\nx = 2\nprintln(x)"), "2\n");
}

#[test]
fn for_loop_runs_body_once_per_element() {
    assert_eq!(output_of("for x in [4, 5, 6] { println(x) }"), "4\n5\n6\n");
    assert_eq!(output_of("n = 0\nfor x in [1, 1, 1, 1] { n += 1 }\nprintln(n)"), "4\n");
    assert_eq!(output_of("for c in ['a', 'b'] { println(c) }"), "a\nb\n");
}

#[test]
fn range_holds_consecutive_numbers() {
    assert_eq!(output_of("for x in 2..5 { println(x) }"), "2\n3\n4\n");
    assert_eq!(output_of("for x in 3..3 { println(x) }\nprintln(0)"), "0\n");
    let (compiler, _) = compile("2..5").unwrap();
    assert!(compiler.module.steps.contains(&Step::ConstRange { start: 2, end: 5 }));
    let (compiler, _) = compile("2.9..5.1").unwrap();
    assert!(compiler.module.steps.contains(&Step::ConstRange { start: 2, end: 5 }));
    let (compiler, _) = compile("0..5000000000").unwrap();
    assert!(compiler.module.steps.contains(&Step::ConstRange { start: 0, end: u32::MAX }));
}

#[test]
fn range_needs_constants() {
    assert_eq!(error_of("x = 1\nx..3"), LowerError::NotConstant);
    assert_eq!(error_of("1..(1 + 2)"), LowerError::NotConstant);
    assert_eq!(error_of("true..3"), LowerError::TypeMismatch);
}

#[test]
fn while_loop_tests_before_each_round() {
    assert_eq!(output_of("i = 0\nwhile i < 3 { println(i)\n i += 1 }"), "0\n1\n2\n");
    assert_eq!(output_of("while 1 < 0 { println(1) }\nprintln(2)"), "2\n");
}

#[test]
fn if_takes_the_first_branch_that_holds() {
    let program = |x: &str| {
        format!(
            "x = {}\nif x < 1 {{ println(1) }} elif x < 2 {{ println(2) }} elif x < 3 {{ println(3) }} else {{ println(4) }}\nprintln(0)",
            x
        )
    };
    assert_eq!(output_of(&program("0")), "1\n0\n");
    assert_eq!(output_of(&program("1")), "2\n0\n");
    assert_eq!(output_of(&program("2")), "3\n0\n");
    assert_eq!(output_of(&program("3")), "4\n0\n");
    assert_eq!(output_of("if 1 < 2 { println(1) }\nprintln(0)"), "1\n0\n");
}

#[test]
fn blocks_open_no_frame() {
    assert_eq!(output_of("if true { y = 5 }\nprintln(y)"), "5\n");
    assert_eq!(output_of("i = 0\nwhile i < 1 { z = 7\n i += 1 }\nprintln(z)"), "7\n");
    assert_eq!(output_of("for x in [1, 2] { w = x }\nprintln(w)"), "2\n");
    assert!(compile("for x in [1, 2] { }\nx += 1").is_ok());
    let (_, result) = compile("if true { y = 5 }").unwrap();
    assert!(!result.variables.get("y").unwrap().global);
}

#[test]
fn top_level_cells_are_globals() {
    let (compiler, result) = compile("x = 1\nfn f() { z = 2 }").unwrap();
    let x = result.variables.get("x").expect("x is bound at top level");
    assert!(x.global);
    assert!(matches!(compiler.module.steps[x.pointer], Step::Global { kind: Kind::Number, .. }));
    match compiler.module.steps[x.pointer] {
        Step::Global { name, .. } => assert_eq!(compiler.module.names[name], "global_x"),
        _ => unreachable!(),
    }
    assert_eq!(result.variables.get("z"), None);
    assert_eq!(error_of("fn f() { z = 2 }\nprintln(z)"), LowerError::UnknownVariable);
}

#[test]
fn functions_take_and_return_values() {
    assert_eq!(
        output_of("fn add(a: number, b: number): number { return a + b }\nprintln(add(1, 2))"),
        "3\n"
    );
    assert_eq!(output_of("fn show(c: char) { println(c) }\nshow('x')\nshow('y')"), "x\ny\n");
    assert_eq!(
        output_of("fn down(n: number) { if n > 0 { println(n)\n down(n - 1) } }\ndown(2)"),
        "2\n1\n"
    );
}

#[test]
fn arrays_are_indexed() {
    assert_eq!(output_of("a = [1, 2, 3]\nprintln(a[0])\nprintln(a[2])"), "1\n3\n");
    assert_eq!(output_of("a = [1, 2, 3]\na[1] = 9\nprintln(a[1])\nprintln(a[0])"), "9\n1\n");
    assert_eq!(output_of("println([true, false][1])"), "false\n");
}

#[test]
fn arrays_hold_one_type() {
    assert_eq!(error_of("[1, true]"), LowerError::MixedArray);
    assert_eq!(error_of("['a', true]"), LowerError::MixedArray);
    assert_eq!(error_of("[1, none]"), LowerError::MixedArray);
    assert_eq!(error_of("[]"), LowerError::EmptyArray);
    assert_eq!(error_of("[none]"), LowerError::UnsupportedElement);
    assert_eq!(error_of("[[1], [2]]"), LowerError::UnsupportedElement);
    assert!(compile("[1, 2]").is_ok());
    assert!(compile("['a', 'b']").is_ok());
    assert!(compile("[true]").is_ok());
}

#[test]
fn support_library_is_linked() {
    assert_eq!(output_of("println(stdlibTest())"), "2.8\n5.5\n");
    let (compiler, _) = compile("").unwrap();
    assert!(compiler.module.steps.contains(&Step::LinkSupportLibrary));
}

#[test]
fn fatal_conditions() {
    assert_eq!(error_of("println(y)"), LowerError::UnknownVariable);
    assert_eq!(error_of("y += 1"), LowerError::UnknownVariable);
    assert_eq!(error_of("missing(1)"), LowerError::UnknownFunction);
    assert_eq!(error_of("println(1, 2)"), LowerError::UnknownFunction);
    assert_eq!(error_of("1 + true"), LowerError::TypeMismatch);
    assert_eq!(error_of("-true"), LowerError::TypeMismatch);
    assert_eq!(error_of("if 1 { }"), LowerError::TypeMismatch);
    assert_eq!(error_of("x = true\nx += 1"), LowerError::TypeMismatch);
    assert_eq!(error_of("2 ^ 3"), LowerError::Unimplemented);
    assert_eq!(error_of("x = 2\nx ^= 3"), LowerError::Unimplemented);
    assert_eq!(error_of("a = [1]\na[0] += 1"), LowerError::Unimplemented);
    assert_eq!(error_of("fn f(a: thing) { }"), LowerError::UnsupportedType);
    assert_eq!(error_of("fn f(a: void) { }"), LowerError::UnsupportedType);
    assert_eq!(error_of("fn f(): number[2] { }"), LowerError::UnsupportedType);
    assert_eq!(error_of("println([1])"), LowerError::UnsupportedArgument);
    assert_eq!(error_of("println(none)"), LowerError::UnsupportedArgument);
    assert_eq!(error_of("x = none"), LowerError::VoidValue);
    assert_eq!(error_of("fn f() { return none }"), LowerError::VoidValue);
    assert_eq!(error_of("x = 1\nx[0]"), LowerError::NotAnArray);
    assert_eq!(error_of("x = 1\nx[0] = 2"), LowerError::NotAnArray);
    assert_eq!(error_of("for x in 1 { }"), LowerError::NotAnArray);
    assert_eq!(error_of("a = [1]\na[true]"), LowerError::IndexNotNumber);
    assert_eq!(error_of("a = [1]\na[true] = 1"), LowerError::IndexNotNumber);
}

#[test]
fn no_frame_to_bind_in() {
    let script = parse_ast("test_file", "x = 1").unwrap();
    let mut compiler = Compiler::new();
    let result = jamalang::compiler::codegen::lower_statement(&mut compiler, &script.statements[0], true);
    assert_eq!(result, Err(LowerError::NoFrame));
}

#[test]
fn entry_point_is_named_after_the_file() {
    let script = parse_ast("dir/program.jm", "println(1)").unwrap();
    let mut compiler = Compiler::new();
    compiler.compile(&script).unwrap();
    let machine = Machine::new(&compiler.module);
    let main = machine.function_named("dir/program.jm_entry");
    assert_eq!(machine.functions[&main].origin, Origin::Defined);
    assert_eq!(machine.functions[&main].parameters.len(), 0);
    assert!(matches!(compiler.module.steps.last(), Some(Step::Return { value: None })));
}

#[test]
fn calls_find_functions_by_argument_type() {
    let (compiler, _) = compile("println(1)\nprintln('c')\nprintln(false)").unwrap();
    let machine = Machine::new(&compiler.module);
    let called: Vec<String> = compiler
        .module
        .steps
        .iter()
        .filter_map(|step| match step {
            Step::Call { function, .. } => Some(machine.functions[function].name.clone()),
            _ => None,
        })
        .collect();
    assert_eq!(called, vec!["println_n", "println_c", "println_b"]);
    assert_eq!(
        output_of("fn println(x: number) { println_n(x + 1) }\nprintln(1)"),
        "2\n"
    );
}

/// Whether `id` is a step before `at` that makes a value.
fn is_value_before(steps: &[Step], id: usize, at: usize) -> bool {
    id < at
        && matches!(
            steps[id],
            Step::Parameter { .. }
                | Step::ConstNumber { .. }
                | Step::ConstBool { .. }
                | Step::ConstChar { .. }
                | Step::ConstIndex { .. }
                | Step::Array { .. }
                | Step::ConstRange { .. }
                | Step::Alloca { .. }
                | Step::Global { .. }
                | Step::Load { .. }
                | Step::ElementPointer { .. }
                | Step::ToIndex { .. }
                | Step::Negate { .. }
                | Step::Arithmetic { .. }
                | Step::Compare { .. }
                | Step::IndexAdd { .. }
                | Step::IndexNotEqual { .. }
                | Step::Call { .. }
        )
}

#[test]
fn steps_refer_to_earlier_steps() {
    let source = "a = [1, 2]\nb = a[0] + -(1 + 2)\nfn f(n: number): number { if n > 1 { return n }\n return n + 1 }\nfor x in a { while x < 2 { x += f(x) }\n a[0] = x }\nprintln(a[1])";
    let (compiler, result) = compile(source).unwrap();
    let steps = &compiler.module.steps;
    let names = compiler.module.names.len();
    let block = |id: usize, at: usize| id < at && matches!(steps[id], Step::AppendBlock { .. });
    let function = |id: usize, at: usize| id < at && matches!(steps[id], Step::DeclareFunction { .. });
    let operands = |at: usize, count: usize| {
        count <= at && steps[at - count..at].iter().all(|step| matches!(step, Step::Element { .. }))
    };
    for (at, step) in steps.iter().enumerate() {
        let value = |id: usize| is_value_before(steps, id, at);
        let fine = match *step {
            Step::DeclareFunction { name, .. } => name < names,
            Step::AppendBlock { function: id, .. } => function(id, at),
            Step::PositionAtEnd { block: id } | Step::PushBuilder { block: id } => block(id, at),
            Step::ConstNumber { literal } => literal < names,
            Step::Element { value: id } => value(id),
            Step::Array { len, .. } => operands(at, len as usize),
            Step::Alloca { name, .. } => name.map_or(true, |name| name < names),
            Step::Global { name, initializer, .. } => {
                name < names
                    && initializer.map_or(true, |id| {
                        value(id)
                            && matches!(
                                steps[id],
                                Step::ConstNumber { .. }
                                    | Step::ConstBool { .. }
                                    | Step::ConstChar { .. }
                                    | Step::Array { folded: true, .. }
                                    | Step::ConstRange { .. }
                                    | Step::Negate { folded: true, .. }
                                    | Step::Arithmetic { folded: true, .. }
                                    | Step::Compare { folded: true, .. }
                            )
                    })
            }
            Step::Store { pointer, value: stored } => value(pointer) && value(stored),
            Step::Load { pointer, .. } => value(pointer),
            Step::ElementPointer { pointer, index, .. } => value(pointer) && value(index),
            Step::ToIndex { value: id, .. } | Step::Negate { value: id, .. } => value(id),
            Step::Arithmetic { lhs, rhs, .. }
            | Step::Compare { lhs, rhs, .. }
            | Step::IndexAdd { lhs, rhs }
            | Step::IndexNotEqual { lhs, rhs } => value(lhs) && value(rhs),
            Step::Call { function: id, arity } => function(id, at) && operands(at, arity),
            Step::Return { value: id } => id.map_or(true, |id| value(id)),
            Step::Branch { target } => block(target, at),
            Step::ConditionalBranch { condition, then_block, else_block } => {
                value(condition) && block(then_block, at) && block(else_block, at)
            }
            _ => true,
        };
        assert!(fine, "step {} is out of order: {:?}", at, step);
    }
    for (_, binding) in result.variables.entries.iter() {
        assert!(is_value_before(steps, binding.pointer, steps.len()));
    }
}

#[test]
fn function_definition_leaves_the_scopes() {
    let script = parse_ast("test_file", "fn f(a: number) { b = a\n for c in [1] { d = c } }").unwrap();
    let mut compiler = Compiler::new();
    compiler.variables.push_frame();
    jamalang::compiler::codegen::lower_statement(&mut compiler, &script.statements[0], true).unwrap();
    assert_eq!(compiler.variables.frames.len(), 1);
    assert!(compiler.variables.frames[0].entries.is_empty());
    assert_eq!(compiler.function, 0);
}

#[test]
fn cells_are_named_after_their_variables() {
    let (compiler, result) = compile("fn f(a: number) { b = a }\nc = 1").unwrap();
    let names: Vec<&str> = compiler
        .module
        .steps
        .iter()
        .filter_map(|step| match step {
            Step::Alloca { name: Some(name), .. } | Step::Global { name, .. } => {
                Some(compiler.module.names[*name].as_str())
            }
            _ => None,
        })
        .collect();
    assert_eq!(names, vec!["alloca_a", "alloca_b", "global_c"]);
    assert_eq!(jamalang::compiler::codegen::value::global_name_of("c"), "global_c");
    assert!(result.variables.get("c").is_some());
}

#[test]
fn top_level_assignment_stores_what_is_computed() {
    assert_eq!(output_of("x = 1\ny = x + 1\nprintln(y)"), "2\n");
    assert_eq!(output_of("a = [1, 2]\nb = a\nprintln(b[1])"), "2\n");
    assert_eq!(output_of("fn f(): number { return 7 }\nz = f()\nprintln(z)"), "7\n");
    let (compiler, result) = compile("x = 1\ny = x + 1").unwrap();
    let y = result.variables.get("y").unwrap();
    assert!(y.global);
    assert!(matches!(compiler.module.steps[y.pointer], Step::Global { initializer: None, .. }));
    let stored = compiler.module.steps.iter().any(|step| matches!(step, Step::Store { pointer, .. } if *pointer == y.pointer));
    assert!(stored);
}

#[test]
fn constants_are_the_initial_content_of_globals() {
    let (compiler, result) = compile("x = 1\ny = -(2 * 3) + 1\nz = 1 < 2\na = [1, 2]").unwrap();
    for name in ["x", "y", "z", "a"] {
        let binding = result.variables.get(name).unwrap();
        match compiler.module.steps[binding.pointer] {
            Step::Global { initializer, .. } => assert_eq!(initializer, Some(binding.value.id)),
            other => panic!("expected a global, found {:?}", other),
        }
    }
    assert!(!compiler.module.steps.iter().any(|step| matches!(step, Step::Store { .. })));
    assert_eq!(output_of("y = -(2 * 3) + 1\nz = 1 < 2\nprintln(y)\nprintln(z)"), "-5\ntrue\n");
}

#[test]
fn operations_on_constants_append_nothing() {
    let returns = |source: &str| {
        let (compiler, _) = compile(source).unwrap();
        let from = compiler.module.steps.iter().position(|step| matches!(step, Step::PushBuilder { .. })).unwrap();
        let to = compiler.module.steps.iter().position(|step| matches!(step, Step::PopBuilder)).unwrap();
        compiler.module.steps[from..to].iter().filter(|step| matches!(step, Step::Return { .. })).count()
    };
    assert_eq!(returns("fn f(): number { return 1\n 2 + 3 }"), 1);
    assert_eq!(returns("fn f(): number { return 1\n -2 }"), 1);
    assert_eq!(returns("fn f(): number { return 1\n 2 < 3 }"), 1);
    assert_eq!(returns("fn f(n: number): number { return 1\n n + 3 }"), 2);
    assert_eq!(returns("fn f(): number { return 1 }"), 1);
    assert_eq!(returns("fn f() { }"), 1);
}

#[test]
fn a_function_without_result_type_returns_nothing() {
    let (compiler, _) = compile("fn f() { }\nf()").unwrap();
    assert!(compiler.module.steps.iter().any(|step| matches!(
        step,
        Step::DeclareFunction { result: None, origin: Origin::Defined, arity: 0, .. }
    )));
    assert_eq!(error_of("fn f() { }\nx = f()"), LowerError::VoidValue);
    assert_eq!(error_of("fn f() { }\nprintln(f())"), LowerError::UnsupportedArgument);
    assert_eq!(output_of("fn f() { println(1) }\nf()"), "1\n");
}

#[test]
fn builtins_stay() {
    let (compiler, _) = compile("println(1)").unwrap();
    assert_eq!(compiler.builtins, jamalang::compiler::builtins::builtins());
}

#[test]
fn arrays_of_computed_elements() {
    assert_eq!(output_of("fn f(a: number) { b = [a, a + 1, 5]\n println(b[1])\n println(b[2]) }\nf(1)"), "2\n5\n");
    assert_eq!(output_of("x = 3\na = [x, x * 2]\nprintln(a[1])"), "6\n");
    let (compiler, _) = compile("x = 3\na = [x, 1]\nb = [2, 1]").unwrap();
    let folded: Vec<bool> = compiler
        .module
        .steps
        .iter()
        .filter_map(|step| match step {
            Step::Array { folded, .. } => Some(*folded),
            _ => None,
        })
        .collect();
    assert_eq!(folded, vec![false, true]);
}

#[test]
fn defined_functions_can_be_called() {
    assert_eq!(output_of("fn one(): number { return 1 }\nfn two(): number { return one() + one() }\nprintln(two())"), "2\n");
    assert_eq!(error_of("println(later())\nfn later(): number { return 1 }"), LowerError::UnknownFunction);
    assert_eq!(output_of("fn f(): number { return 1 }\nfn f(): number { return 2 }\nprintln(f())"), "2\n");
}

#[test]
fn characters_are_cut_to_eight_bits() {
    assert_eq!(output_of("// héllo wörld\nprintln('é')"), "é\n");
    let (compiler, _) = compile("'€'").unwrap();
    assert!(compiler.module.steps.contains(&Step::ConstChar { code: 0xAC }));
}
