use vertex::context::{CompileContext, CompileTimeFunctionForCheck, ComptimeVariable};
use vertex::errors::compiler_errors::CompileError;
use vertex::types::ComptimeValueType;

fn var(tag: &str) -> ComptimeVariable {
    ComptimeVariable { value_type: ComptimeValueType::Int, tag: tag.to_string(), is_const: false }
}

#[test]
fn a_variable_is_found_after_it_is_added() {
    let mut c = CompileContext::new();
    c.add_variable("x".to_string(), var("x_none")).unwrap();
    assert_eq!(c.get_variable("x").unwrap().tag, "x_none");
    assert!(c.get_variable("y").is_none());
}

#[test]
fn a_name_can_be_declared_once_per_scope() {
    let mut c = CompileContext::new();
    c.add_variable("x".to_string(), var("a")).unwrap();
    let e = c.add_variable("x".to_string(), var("b")).unwrap_err();
    assert!(matches!(e, CompileError::VariableRecreation { .. }));
    c.enter_scope();
    c.add_variable("x".to_string(), var("inner")).unwrap();
    assert_eq!(c.get_variable("x").unwrap().tag, "inner");
    c.exit_scope();
    assert_eq!(c.get_variable("x").unwrap().tag, "a");
}

#[test]
fn a_function_scope_hides_the_outer_variables() {
    let mut c = CompileContext::new();
    c.add_variable("outer".to_string(), var("o")).unwrap();
    c.enter_function_scope();
    assert!(c.get_variable("outer").is_none());
    c.add_variable("p".to_string(), var("p_f")).unwrap();
    c.enter_scope();
    assert_eq!(c.get_variable("p").unwrap().tag, "p_f");
    c.exit_function_scope();
    assert_eq!(c.scopes.len(), 1);
    assert_eq!(c.get_variable("outer").unwrap().tag, "o");
    assert!(c.get_variable("p").is_none());
}

#[test]
fn type_names_are_known() {
    let c = CompileContext::new();
    assert!(matches!(c.get_type("int"), Ok(ComptimeValueType::Int)));
    assert!(matches!(c.get_type("string"), Ok(ComptimeValueType::StringValue)));
    assert!(matches!(c.get_type("bool"), Ok(ComptimeValueType::Bool)));
    assert!(matches!(c.get_type("void"), Ok(ComptimeValueType::Void)));
    assert!(matches!(c.get_type("flt"), Ok(ComptimeValueType::Float)));
    assert!(matches!(c.get_type("numb"), Err(CompileError::UndefinedType { .. })));
}

#[test]
fn a_type_name_can_be_added_once() {
    let mut c = CompileContext::new();
    c.add_type("point".to_string()).unwrap();
    let e = c.add_type("point".to_string()).unwrap_err();
    assert_eq!(e.message(), "[E0015]Type point alredey exists");
}

#[test]
fn a_function_is_found_after_it_is_added() {
    let mut c = CompileContext::new();
    let f = CompileTimeFunctionForCheck { args: vec![], return_type: ComptimeValueType::Bool, body: vec![] };
    c.add_function("f".to_string(), f).unwrap();
    let g = c.get_fn("f").unwrap();
    assert!(matches!(g.return_type, ComptimeValueType::Bool));
    match c.get_fn("h") {
        Err(e) => assert_eq!(e.message(), "[E0013]Unknown function:h"),
        Ok(_) => panic!("no function h was added"),
    }
    let f2 = CompileTimeFunctionForCheck { args: vec![], return_type: ComptimeValueType::Int, body: vec![] };
    assert!(c.add_function("f".to_string(), f2).is_err());
}

#[test]
fn leaving_a_function_scope_discards_its_blocks() {
    let mut c = CompileContext::new();
    c.add_variable("g".to_string(), var("g_none")).unwrap();
    c.enter_scope();
    c.add_variable("h".to_string(), var("h_none")).unwrap();
    c.enter_function_scope();
    c.add_variable("p".to_string(), var("p_f")).unwrap();
    c.enter_scope();
    c.add_variable("q".to_string(), var("q_f")).unwrap();
    c.enter_scope();
    c.exit_scope();
    c.enter_scope();
    c.add_variable("r".to_string(), var("r_f")).unwrap();
    c.exit_function_scope();
    assert_eq!(c.scopes.len(), 2);
    assert_eq!(c.scopes[0].len(), 1);
    assert_eq!(c.scopes[0][0].0, "g");
    assert_eq!(c.scopes[1].len(), 1);
    assert_eq!(c.scopes[1][0].0, "h");
}
