use vertex::instructions::Instructions;
use vertex::linker::{Linker, ObjFile};

fn obj(instructions: Vec<Instructions>) -> ObjFile {
    ObjFile { instructions, name: "m".to_string(), imports: vec![] }
}

#[test]
fn later_modules_have_their_jumps_moved() {
    let a = obj(vec![Instructions::Jump(1), Instructions::Halt]);
    let b = obj(vec![
        Instructions::JumpIfFalse(0),
        Instructions::JumpIfTrue(2),
        Instructions::Jump(1),
        Instructions::PushJmpAdress(1),
    ]);
    let program = Linker::link(vec![a, b]);
    assert_eq!(
        program,
        vec![
            Instructions::Jump(1),
            Instructions::Halt,
            Instructions::JumpIfFalse(2),
            Instructions::JumpIfTrue(4),
            Instructions::Jump(3),
            Instructions::PushJmpAdress(1),
        ]
    );
}

#[test]
fn a_lone_module_links_to_itself() {
    let code = vec![Instructions::Jump(0), Instructions::Add];
    assert_eq!(Linker::link(vec![obj(code.clone())]), code);
}

#[test]
fn nothing_links_to_nothing() {
    assert_eq!(Linker::link(vec![]), vec![]);
}
