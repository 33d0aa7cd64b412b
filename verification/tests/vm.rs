use vertex::bytecode::encode_instructions;
use vertex::instructions::{Instructions, NumberConst};
use vertex::vm::{NumOp, Request, Value, VM};

fn bits(n: u32) -> Instructions {
    Instructions::PushNumber(NumberConst::Bits(n))
}

#[test]
fn numbers_go_to_the_caller() {
    let mut vm = VM::new(vec![bits(7), bits(9), Instructions::Sub, Instructions::Halt]);
    assert!(matches!(vm.step(), Request::Continue));
    assert!(matches!(vm.step(), Request::Continue));
    match vm.step() {
        Request::Compute { op, left, right } => {
            assert_eq!(op, NumOp::Sub);
            assert_eq!((left, right), (7, 9));
        },
        other => panic!("expected a computation, got {:?}", other),
    }
    assert!(vm.stack.is_empty());
    vm.push_number(42);
    match vm.step() {
        Request::Halt(Some(Value::Number(42))) => {},
        other => panic!("expected a halt, got {:?}", other),
    }
}

#[test]
fn strings_are_joined_by_the_machine() {
    let mut vm = VM::new(vec![
        Instructions::PushString("ab".to_string()),
        Instructions::PushString("cd".to_string()),
        Instructions::Add,
        Instructions::WriteLnLastOnStack,
    ]);
    vm.step();
    vm.step();
    assert!(matches!(vm.step(), Request::Continue));
    match vm.step() {
        Request::Print { value: Value::StringValue(s), newline: true } => assert_eq!(s, "abcd"),
        other => panic!("expected a print, got {:?}", other),
    }
    match vm.step() {
        Request::Fail(m) => assert_eq!(m, "Unexpected EOF"),
        other => panic!("expected the end, got {:?}", other),
    }
}

#[test]
fn variables_are_saved_loaded_and_dropped() {
    let mut vm = VM::new(vec![
        Instructions::PushBool(true),
        Instructions::SaveVar("x".to_string()),
        Instructions::LoadVar("x".to_string()),
        Instructions::Drop("x".to_string()),
        Instructions::LoadVar("x".to_string()),
    ]);
    for _ in 0..4 {
        assert!(matches!(vm.step(), Request::Continue));
    }
    assert!(matches!(vm.stack[0], Value::Bool(true)));
    match vm.step() {
        Request::Fail(m) => assert_eq!(m, "Variable 'x' not found"),
        other => panic!("expected a failure, got {:?}", other),
    }
}

#[test]
fn conditional_jumps_follow_the_condition() {
    let mut vm = VM::new(vec![
        Instructions::PushBool(false),
        Instructions::JumpIfFalse(3),
        Instructions::Halt,
        Instructions::PushBool(true),
        Instructions::JumpIfTrue(0),
    ]);
    vm.step();
    vm.step();
    assert_eq!(vm.ip, 3);
    vm.step();
    vm.step();
    assert_eq!(vm.ip, 0);
}

#[test]
fn calls_return_to_the_pushed_address() {
    let mut vm = VM::new(vec![
        Instructions::PushJmpAdress(2),
        Instructions::Jump(3),
        Instructions::Halt,
        Instructions::JumpOnLastOnStack,
    ]);
    vm.step();
    vm.step();
    assert_eq!(vm.ip, 3);
    vm.step();
    assert_eq!(vm.ip, 2);
    assert!(matches!(vm.step(), Request::Halt(None)));
}

#[test]
fn machine_errors() {
    let mut vm = VM::new(vec![Instructions::Add]);
    match vm.step() {
        Request::Fail(m) => assert_eq!(m, "Stack underflow"),
        other => panic!("expected an underflow, got {:?}", other),
    }
    let mut vm = VM::new(vec![Instructions::PushBool(true), bits(1), Instructions::Mul]);
    vm.step();
    vm.step();
    match vm.step() {
        Request::Fail(m) => assert_eq!(m, "Type error: '*' expects numbers"),
        other => panic!("expected a type error, got {:?}", other),
    }
    let mut vm = VM::new(vec![Instructions::JumpOnLastOnStack]);
    assert!(matches!(vm.step(), Request::Broken(_)));
}

#[test]
fn equality_of_other_values_is_decided_by_the_machine() {
    let mut vm = VM::new(vec![
        Instructions::PushString("a".to_string()),
        Instructions::PushString("a".to_string()),
        Instructions::Equal,
        Instructions::PushBool(true),
        bits(1),
        Instructions::Equal,
    ]);
    for _ in 0..3 {
        vm.step();
    }
    assert!(matches!(vm.stack[0], Value::Bool(true)));
    for _ in 0..3 {
        vm.step();
    }
    assert!(matches!(vm.stack[1], Value::Bool(false)));
}

#[test]
fn input_and_exit_are_asked_for() {
    let mut vm = VM::new(vec![Instructions::ReadInput, bits(3), Instructions::ProcessExit]);
    assert!(matches!(vm.step(), Request::ReadLine));
    vm.push_string("typed".to_string());
    vm.step();
    assert!(matches!(vm.step(), Request::Exit(3)));
}

#[test]
fn a_machine_loads_encoded_code() {
    let code = vec![bits(5), Instructions::WriteLastOnStack, Instructions::Halt];
    let mut vm = VM::from_bytes(encode_instructions(&code)).unwrap();
    vm.step();
    assert!(matches!(vm.step(), Request::Print { value: Value::Number(5), newline: false }));
    assert!(matches!(vm.step(), Request::Halt(None)));
}

#[test]
fn division_by_zero_is_refused() {
    let five = 5.0f32.to_bits();
    for zero in [0.0f32.to_bits(), (-0.0f32).to_bits()] {
        let mut vm = VM::new(vec![bits(five), bits(zero), Instructions::Div]);
        vm.step();
        vm.step();
        match vm.step() {
            Request::Fail(m) => assert_eq!(m, "Cannot divide by zero"),
            other => panic!("expected a failure, got {:?}", other),
        }
    }
    let mut vm = VM::new(vec![bits(five), bits(2.0f32.to_bits()), Instructions::Div]);
    vm.step();
    vm.step();
    match vm.step() {
        Request::Compute { op, left, right } => {
            assert_eq!(op, NumOp::Div);
            assert_eq!((left, right), (five, 2.0f32.to_bits()));
        },
        other => panic!("expected a computation, got {:?}", other),
    }
}
