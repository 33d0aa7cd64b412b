use vertex::bytecode::encode_instructions;
use vertex::instructions::{Instructions, NumberConst, JUMP, PUSH_BOOL, PUSH_NUMB, PUSH_STR, PUSH_USIZE};
use vertex::loader::{BytecodeLoader, LoadError};

#[test]
fn encoding_lays_out_operands_little_endian() {
    let code = vec![
        Instructions::PushString("hi".to_string()),
        Instructions::Jump(258),
        Instructions::PushBool(true),
        Instructions::Halt,
    ];
    let bytes = encode_instructions(&code);
    assert_eq!(bytes, vec![20, 2, 0, 0, 0, b'h', b'i', 40, 2, 1, 21, 1, 255]);
}

#[test]
fn numbers_are_written_as_their_bits() {
    let code = vec![Instructions::PushNumber(NumberConst::Bits(0x3f80_0000))];
    assert_eq!(encode_instructions(&code), vec![22, 0x00, 0x00, 0x80, 0x3f]);
}

#[test]
fn reading_gives_back_what_was_written() {
    let code = vec![
        Instructions::PushNumber(NumberConst::Bits(0x4048_f5c3)),
        Instructions::SaveVar("x_none".to_string()),
        Instructions::LoadVar("x_none".to_string()),
        Instructions::PushString("héllo".to_string()),
        Instructions::Drop("x".to_string()),
        Instructions::PushJmpAdress(70000),
        Instructions::JumpIfFalse(3),
        Instructions::JumpIfTrue(65535),
        Instructions::JumpOnLastOnStack,
        Instructions::PushBool(false),
        Instructions::Add,
        Instructions::Sub,
        Instructions::Mul,
        Instructions::Div,
        Instructions::Modulo,
        Instructions::GreaterThan,
        Instructions::LessThan,
        Instructions::Equal,
        Instructions::WriteLnLastOnStack,
        Instructions::WriteLastOnStack,
        Instructions::ReadInput,
        Instructions::ProcessExit,
        Instructions::Halt,
    ];
    let bytes = encode_instructions(&code);
    let back = BytecodeLoader::from_bytes(bytes).unwrap();
    assert_eq!(back, code);
}

#[test]
fn empty_stream_is_an_empty_program() {
    assert_eq!(BytecodeLoader::from_bytes(vec![]).unwrap(), vec![]);
}

#[test]
fn unknown_opcode_is_reported_with_its_position() {
    let e = BytecodeLoader::from_bytes(vec![1, 99]).unwrap_err();
    assert_eq!(e, LoadError::UnknownOpcode(99, 1));
    assert_eq!(e.message(), "Unknown opcode: 99 at position 1");
}

#[test]
fn truncated_operands_are_reported() {
    assert_eq!(BytecodeLoader::from_bytes(vec![PUSH_BOOL]).unwrap_err(), LoadError::EofU8);
    assert_eq!(BytecodeLoader::from_bytes(vec![JUMP, 1]).unwrap_err(), LoadError::EofU16);
    assert_eq!(BytecodeLoader::from_bytes(vec![PUSH_STR, 1, 0]).unwrap_err(), LoadError::EofU32);
    assert_eq!(BytecodeLoader::from_bytes(vec![PUSH_NUMB, 1, 2]).unwrap_err(), LoadError::EofF32);
    assert_eq!(BytecodeLoader::from_bytes(vec![PUSH_USIZE, 1, 2, 3]).unwrap_err(), LoadError::EofU32);
    let e = BytecodeLoader::from_bytes(vec![PUSH_STR, 5, 0, 0, 0, b'a']).unwrap_err();
    assert_eq!(e, LoadError::EofString(5));
    assert_eq!(e.message(), "Unexpected EOF reading string of length 5");
}

#[test]
fn invalid_text_is_reported() {
    let e = BytecodeLoader::from_bytes(vec![PUSH_STR, 1, 0, 0, 0, 0xff]).unwrap_err();
    assert_eq!(e, LoadError::InvalidUtf8);
    assert_eq!(e.message(), "Invalid UTF-8 in string");
}

#[test]
fn load_error_messages() {
    assert_eq!(LoadError::EofU8.message(), "Unexpected EOF reading u8");
    assert_eq!(LoadError::EofU16.message(), "Unexpected EOF reading u16");
    assert_eq!(LoadError::EofU32.message(), "Unexpected EOF reading u32");
    assert_eq!(LoadError::EofF32.message(), "Unexpected EOF reading f32");
}

#[test]
fn opcodes_match_the_encoding() {
    assert_eq!(Instructions::Add.opcode(), 1);
    assert_eq!(Instructions::PushString(String::new()).opcode(), 20);
    assert_eq!(Instructions::Drop(String::new()).opcode(), 125);
    assert_eq!(Instructions::Halt.opcode(), 255);
}
