use vertex::ast::Node;
use vertex::compiler::Compiler;
use vertex::errors::compiler_errors::CompileError;
use vertex::instructions::{Instructions, NumberConst};
use vertex::lexer::Lexer;
use vertex::parser::Parser;
use vertex::types::ComptimeValueType;

fn parse_source(src: &str) -> Node {
    let mut lexer = Lexer::new(src.to_string());
    let tokens = lexer.tokenize().unwrap().clone();
    let mut parser = Parser::new(tokens);
    parser.parse().unwrap()
}

fn compile_source(src: &str) -> (Compiler, Result<ComptimeValueType, CompileError>) {
    let ast = parse_source(src);
    let mut compiler = Compiler::new();
    let result = match &ast {
        Node::Program(p) => compiler.compile_program(p),
        _ => panic!("the parser returns a program"),
    };
    (compiler, result)
}

fn num(n: i64) -> Instructions {
    Instructions::PushNumber(NumberConst::Int(n))
}

fn save(s: &str) -> Instructions {
    Instructions::SaveVar(s.to_string())
}

fn load(s: &str) -> Instructions {
    Instructions::LoadVar(s.to_string())
}

fn message_of(src: &str) -> String {
    let (_, r) = compile_source(src);
    r.unwrap_err().message()
}

#[test]
fn variable_definition_stores_the_value() {
    let (c, r) = compile_source("var x = 5;");
    assert!(matches!(r, Ok(ComptimeValueType::Void)));
    assert_eq!(c.out, vec![num(5), save("x_none"), Instructions::Jump(3)]);
}

#[test]
fn print_macro_prints_each_argument() {
    let (c, r) = compile_source("writeLn!(\"hi\", 3);");
    assert!(r.is_ok());
    assert_eq!(
        c.out,
        vec![
            Instructions::PushString("hi".to_string()),
            Instructions::WriteLnLastOnStack,
            num(3),
            Instructions::WriteLnLastOnStack,
            Instructions::Jump(5),
        ]
    );
}

#[test]
fn if_statement_jumps_over_its_branch() {
    let (c, r) = compile_source("if (1 < 2) { writeLn!(\"a\"); }");
    assert!(r.is_ok());
    assert_eq!(
        c.out,
        vec![
            num(1),
            num(2),
            Instructions::LessThan,
            Instructions::JumpIfFalse(7),
            Instructions::PushString("a".to_string()),
            Instructions::WriteLnLastOnStack,
            Instructions::Jump(7),
            Instructions::Jump(8),
        ]
    );
}

#[test]
fn if_else_statement_has_both_branches() {
    let (c, r) = compile_source("if (true) { write!(1); } else { write!(2); }");
    assert!(r.is_ok());
    assert_eq!(
        c.out,
        vec![
            Instructions::PushBool(true),
            Instructions::JumpIfFalse(5),
            num(1),
            Instructions::WriteLastOnStack,
            Instructions::Jump(7),
            num(2),
            Instructions::WriteLastOnStack,
            Instructions::Jump(8),
        ]
    );
}

#[test]
fn while_loop_tests_its_condition_at_the_end() {
    let (c, r) = compile_source("var i = 0; while (i < 3) { i = i + 1; }");
    assert!(r.is_ok());
    assert_eq!(
        c.out,
        vec![
            num(0),
            save("i_none"),
            load("i_none"),
            num(3),
            Instructions::LessThan,
            Instructions::JumpIfFalse(14),
            load("i_none"),
            num(1),
            Instructions::Add,
            save("i_none"),
            load("i_none"),
            num(3),
            Instructions::LessThan,
            Instructions::JumpIfTrue(6),
            Instructions::Jump(15),
        ]
    );
}

#[test]
fn while_loop_drops_its_variables() {
    let (c, r) = compile_source("while (false) { var t = 1; }");
    assert!(r.is_ok());
    assert_eq!(
        c.out,
        vec![
            Instructions::PushBool(false),
            Instructions::JumpIfFalse(7),
            num(1),
            save("t_none"),
            Instructions::Drop("t".to_string()),
            Instructions::PushBool(false),
            Instructions::JumpIfTrue(2),
            Instructions::Jump(8),
        ]
    );
}

#[test]
fn function_call_jumps_to_the_body() {
    let (c, r) = compile_source("fnc add(a: int, b: int): int { return a + b; } var r = add(1, 2);");
    assert!(r.is_ok());
    assert_eq!(
        c.out,
        vec![
            num(1),
            save("a_add"),
            num(2),
            save("b_add"),
            Instructions::PushJmpAdress(6),
            Instructions::Jump(8),
            save("r_none"),
            Instructions::Jump(13),
            load("a_add"),
            load("b_add"),
            Instructions::Add,
            Instructions::JumpOnLastOnStack,
            Instructions::JumpOnLastOnStack,
        ]
    );
}

#[test]
fn float_and_integer_arithmetic_is_float() {
    let (c, r) = compile_source("var f = 1.5 * 2;");
    assert!(r.is_ok());
    assert_eq!(c.out[0], Instructions::PushNumber(NumberConst::Literal("1.5".to_string())));
    assert_eq!(c.out[2], Instructions::Mul);
    let v = c.context.get_variable("f").unwrap();
    assert!(matches!(v.value_type, ComptimeValueType::Float));
}

#[test]
fn declared_type_without_value_gets_the_default() {
    let (c, r) = compile_source("var s: string; var n: int; var b: bool;");
    assert!(r.is_ok());
    assert_eq!(
        c.out,
        vec![
            Instructions::PushString(String::new()),
            save("s_none"),
            Instructions::PushNumber(NumberConst::Bits(0)),
            save("n_none"),
            Instructions::PushBool(false),
            save("b_none"),
            Instructions::Jump(7),
        ]
    );
}

#[test]
fn assigning_another_type_is_refused() {
    assert_eq!(message_of("var x = 1; x = \"s\";"), "[E0004]Type mismatch: expected Int, found StringValue");
}

#[test]
fn constants_cannot_be_assigned() {
    let (_, r) = compile_source("const c = 1; c = 2;");
    assert!(matches!(r, Err(CompileError::ConstReassignment { .. })));
    assert_eq!(r.unwrap_err().message(), "[E0009]Cannot reassign constant c");
}

#[test]
fn constant_needs_a_value() {
    assert_eq!(message_of("const c: int;"), "[E0008]Cannot have constant without value");
}

#[test]
fn if_condition_must_be_bool() {
    assert_eq!(message_of("if (1) { }"), "[E0004]Type mismatch: expected Bool, found Int");
}

#[test]
fn variables_of_a_branch_are_gone_after_it() {
    assert_eq!(
        message_of("if (true) { var z = 1; } writeLn!(z);"),
        "[E0006]Undefined variable: z"
    );
}

#[test]
fn operands_must_go_together() {
    assert_eq!(
        message_of("var s = \"a\" - 1;"),
        "[E0005]Invalid binary operation: - between Int and StringValue"
    );
    assert_eq!(
        message_of("var s = 1 == \"a\";"),
        "[E0005]Invalid binary operation: == between Int and StringValue"
    );
}

#[test]
fn strings_can_be_added() {
    let (c, r) = compile_source("var s = \"a\" + \"b\";");
    assert!(r.is_ok());
    let v = c.context.get_variable("s").unwrap();
    assert!(matches!(v.value_type, ComptimeValueType::StringValue));
}

#[test]
fn return_outside_a_function_is_refused() {
    assert_eq!(message_of("return 1;"), "[E0015]Cannot return outside of a function");
}

#[test]
fn unknown_macro_is_refused() {
    assert_eq!(message_of("foo!();"), "[E0001]Unknown macro: foo");
}

#[test]
fn macro_argument_count_is_checked() {
    assert_eq!(
        message_of("processExit!(1, 2);"),
        "[E0010]Wrong macro argument count: expected 1, found 2"
    );
}

#[test]
fn printing_a_bool_is_refused() {
    assert_eq!(message_of("writeLn!(true);"), "[E0011]Expected printable but found Bool");
}

#[test]
fn read_input_prints_the_prompt_then_reads() {
    let (c, r) = compile_source("var name = readInput!(\"name?\");");
    assert!(r.is_ok());
    assert_eq!(
        c.out,
        vec![
            Instructions::PushString("name?".to_string()),
            Instructions::WriteLastOnStack,
            Instructions::ReadInput,
            save("name_none"),
            Instructions::Jump(5),
        ]
    );
}

#[test]
fn a_macro_cannot_be_used_inside_its_own_call() {
    let (c, r) = compile_source("writeLn!(readInput!(readInput!(\"a\")));");
    assert_eq!(r.unwrap_err().message(), "[E0001]Unknown macro: readInput");
    // The calls that failed leave their macros out of the registry.
    let names: Vec<&str> = c.macros.macros.iter().map(|(n, _)| n.as_str()).collect();
    assert_eq!(names, vec!["write", "processExit"]);
}

#[test]
fn a_macro_is_back_after_its_call() {
    let (c, r) = compile_source("writeLn!(readInput!(\"a\"), readInput!(\"b\"));");
    assert!(r.is_ok());
    assert_eq!(c.macros.macros.len(), 4);
}

#[test]
fn unknown_function_is_refused() {
    assert_eq!(message_of("bar(1);"), "[E0013]Unknown function:bar");
}

#[test]
fn argument_count_is_checked() {
    assert_eq!(
        message_of("fnc f(a: int): int { return a; } f(1, 2);"),
        "[E0014]Unexpected number of arguments at function f: expected 1 but got 2"
    );
}

#[test]
fn function_needs_a_return_type() {
    assert_eq!(
        message_of("fnc f() { }"),
        "[E0016]Need to have specifed return type at function f"
    );
}

#[test]
fn function_defined_twice_is_refused() {
    assert_eq!(
        message_of("fnc f(): void { } fnc f(): void { }"),
        "[E0012]Function f is already defined"
    );
}

#[test]
fn variable_without_type_or_value_is_refused() {
    assert_eq!(message_of("var x;"), "[E0002]Cannot infer type for x");
}

#[test]
fn variable_defined_twice_is_refused() {
    assert_eq!(message_of("var x = 1; var x = 2;"), "[E0007]Variable x already exists");
}

#[test]
fn unknown_type_is_refused() {
    assert_eq!(message_of("var x: numb = 1;"), "[E0003]Undefined type: numb");
}

#[test]
fn function_parameters_are_not_visible_outside() {
    assert_eq!(
        message_of("fnc f(a: int): int { return a; } writeLn!(a);"),
        "[E0006]Undefined variable: a"
    );
}

#[test]
fn module_symbols_are_found_by_name() {
    let module = parse_source("var shared = 4;");
    let mut compiler = Compiler::new();
    compiler.add_to_lookup(&module).unwrap();
    compiler.add_to_type_check(&module).unwrap();
    let main = parse_source("writeLn!(shared);");
    let r = match &main {
        Node::Program(p) => compiler.compile_program(p),
        _ => panic!("the parser returns a program"),
    };
    assert!(r.is_ok());
    assert_eq!(compiler.out[0], load("shared_none"));
}

#[test]
fn type_pass_gives_declared_types() {
    let mut compiler = Compiler::new();
    let ast = parse_source("var a = 1 + 2.5;");
    let t = match &ast {
        Node::Program(p) => compiler.my_type(&p.program_nodes[0]).unwrap(),
        _ => panic!("the parser returns a program"),
    };
    assert!(matches!(t, ComptimeValueType::Float));
}

#[test]
fn function_bodies_follow_the_main_code_in_declaration_order() {
    let (c, r) = compile_source(
        "fnc f(): int { return 1; } fnc g(): int { return 2; } var x = g(); var y = f();",
    );
    assert!(r.is_ok());
    let out = &c.out;
    // main: call g, store, call f, store, then the jump over the bodies
    assert_eq!(out[0], Instructions::PushJmpAdress(2));
    assert_eq!(out[2], save("x_none"));
    assert_eq!(out[3], Instructions::PushJmpAdress(5));
    assert_eq!(out[5], save("y_none"));
    assert_eq!(out[6], Instructions::Jump(out.len()));
    // f's body first, then g's, each ending with the return
    assert_eq!(out[7], num(1));
    assert_eq!(out[8], Instructions::JumpOnLastOnStack);
    assert_eq!(out[9], Instructions::JumpOnLastOnStack);
    assert_eq!(out[10], num(2));
    assert_eq!(out[11], Instructions::JumpOnLastOnStack);
    assert_eq!(out[12], Instructions::JumpOnLastOnStack);
    assert_eq!(out.len(), 13);
    // each call jumps to its function's body
    assert_eq!(out[1], Instructions::Jump(10));
    assert_eq!(out[4], Instructions::Jump(7));
}

#[test]
fn type_pass_reports_operand_errors_of_a_comparison() {
    let mut compiler = Compiler::new();
    let ast = parse_source("var a = y == 1;");
    let e = match &ast {
        Node::Program(p) => compiler.my_type(&p.program_nodes[0]).unwrap_err(),
        _ => panic!("the parser returns a program"),
    };
    assert_eq!(e.message(), message_of("var b = y;"));
}
