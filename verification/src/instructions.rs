//! The instruction set of the virtual machine and its opcodes.
use vstd::prelude::*;

verus! {

// MATH
pub const ADD: u8 = 1;
pub const SUB: u8 = 2;
pub const DIV: u8 = 3;
pub const MUL: u8 = 4;
pub const MODULO: u8 = 5;
//COMP
pub const GREATER: u8 = 6;
pub const LESS: u8 = 7;
pub const EQUAL: u8 = 8;
//JUMPS
pub const JUMP: u8 = 40;
pub const JUMP_IF_FALSE: u8 = 41;
pub const JUMP_IF_TRUE: u8 = 42;
pub const JUMP_LAST_ON_STACK: u8 = 43;
// VALS
pub const PUSH_STR: u8 = 20;
pub const PUSH_BOOL: u8 = 21;
pub const PUSH_NUMB: u8 = 22;
pub const PUSH_USIZE: u8 = 23;
pub const DROP: u8 = 125;
// IO
pub const WRITE_LN: u8 = 30;
pub const WRITE: u8 = 31;
pub const READ_INPUT: u8 = 60;
pub const PROCESS_EXIT: u8 = 61;
// VARS
pub const STORE_VAR: u8 = 50;
pub const LOAD_VAR: u8 = 51;
//HALT
pub const HALT: u8 = 255;

/// A number pushed by `PushNumber`. The machine works on IEEE-754 single-precision
/// values, held here as their bit patterns (`Bits`). The compiler emits the literal as
/// written (`Int`, `Literal`); turning those into bits is floating-point work done
/// outside this library before the code is encoded.
#[derive(Debug, Clone, PartialEq)]
pub enum NumberConst {
    Bits(u32),
    Int(i64),
    Literal(String),
}

pub enum NumberConstV {
    Bits(u32),
    Int(int),
    Literal(Seq<char>),
}

impl View for NumberConst {
    type V = NumberConstV;

    open spec fn view(&self) -> NumberConstV {
        match self {
            NumberConst::Bits(b) => NumberConstV::Bits(*b),
            NumberConst::Int(i) => NumberConstV::Int(*i as int),
            NumberConst::Literal(s) => NumberConstV::Literal(s@),
        }
    }
}

#[derive(Debug, Clone, PartialEq)]
pub enum Instructions {
    Add,
    Sub,
    Div,
    Mul,
    Modulo,
    //Comparison
    GreaterThan,
    LessThan,
    Equal,
    //Variables
    LoadVar(String),
    SaveVar(String),
    //Values
    PushString(String),
    PushBool(bool),
    PushNumber(NumberConst),
    PushJmpAdress(usize),
    ReadInput,
    Drop(String),
    //Printing
    WriteLnLastOnStack,
    WriteLastOnStack,
    //Process
    ProcessExit,
    //Control flow
    JumpOnLastOnStack,
    Jump(usize),
    JumpIfFalse(usize),
    JumpIfTrue(usize),
    //Functions
    Call(String),
    // Halt
    Halt,
}

/// `Instructions` with texts as character sequences.
pub enum InstrV {
    Add,
    Sub,
    Div,
    Mul,
    Modulo,
    GreaterThan,
    LessThan,
    Equal,
    LoadVar(Seq<char>),
    SaveVar(Seq<char>),
    PushString(Seq<char>),
    PushBool(bool),
    PushNumber(NumberConstV),
    PushJmpAdress(usize),
    ReadInput,
    Drop(Seq<char>),
    WriteLnLastOnStack,
    WriteLastOnStack,
    ProcessExit,
    JumpOnLastOnStack,
    Jump(usize),
    JumpIfFalse(usize),
    JumpIfTrue(usize),
    Call(Seq<char>),
    Halt,
}

impl View for Instructions {
    type V = InstrV;

    open spec fn view(&self) -> InstrV {
        match self {
            Instructions::Add => InstrV::Add,
            Instructions::Sub => InstrV::Sub,
            Instructions::Div => InstrV::Div,
            Instructions::Mul => InstrV::Mul,
            Instructions::Modulo => InstrV::Modulo,
            Instructions::GreaterThan => InstrV::GreaterThan,
            Instructions::LessThan => InstrV::LessThan,
            Instructions::Equal => InstrV::Equal,
            Instructions::LoadVar(s) => InstrV::LoadVar(s@),
            Instructions::SaveVar(s) => InstrV::SaveVar(s@),
            Instructions::PushString(s) => InstrV::PushString(s@),
            Instructions::PushBool(b) => InstrV::PushBool(*b),
            Instructions::PushNumber(n) => InstrV::PushNumber(n@),
            Instructions::PushJmpAdress(a) => InstrV::PushJmpAdress(*a),
            Instructions::ReadInput => InstrV::ReadInput,
            Instructions::Drop(s) => InstrV::Drop(s@),
            Instructions::WriteLnLastOnStack => InstrV::WriteLnLastOnStack,
            Instructions::WriteLastOnStack => InstrV::WriteLastOnStack,
            Instructions::ProcessExit => InstrV::ProcessExit,
            Instructions::JumpOnLastOnStack => InstrV::JumpOnLastOnStack,
            Instructions::Jump(a) => InstrV::Jump(*a),
            Instructions::JumpIfFalse(a) => InstrV::JumpIfFalse(*a),
            Instructions::JumpIfTrue(a) => InstrV::JumpIfTrue(*a),
            Instructions::Call(s) => InstrV::Call(s@),
            Instructions::Halt => InstrV::Halt,
        }
    }
}

pub open spec fn instrs_view(s: Seq<Instructions>) -> Seq<InstrV> {
    s.map_values(|i: Instructions| i@)
}

/// The opcode of an instruction (there is none for `Call`).
pub open spec fn spec_opcode(i: InstrV) -> u8 {
    match i {
        InstrV::Add => ADD,
        InstrV::Sub => SUB,
        InstrV::Div => DIV,
        InstrV::Mul => MUL,
        InstrV::Modulo => MODULO,
        InstrV::GreaterThan => GREATER,
        InstrV::LessThan => LESS,
        InstrV::Equal => EQUAL,
        InstrV::PushString(_) => PUSH_STR,
        InstrV::PushBool(_) => PUSH_BOOL,
        InstrV::PushNumber(_) => PUSH_NUMB,
        InstrV::Drop(_) => DROP,
        InstrV::PushJmpAdress(_) => PUSH_USIZE,
        InstrV::WriteLnLastOnStack => WRITE_LN,
        InstrV::WriteLastOnStack => WRITE,
        InstrV::ReadInput => READ_INPUT,
        InstrV::ProcessExit => PROCESS_EXIT,
        InstrV::LoadVar(_) => LOAD_VAR,
        InstrV::SaveVar(_) => STORE_VAR,
        InstrV::Jump(_) => JUMP,
        InstrV::JumpIfFalse(_) => JUMP_IF_FALSE,
        InstrV::JumpIfTrue(_) => JUMP_IF_TRUE,
        InstrV::JumpOnLastOnStack => JUMP_LAST_ON_STACK,
        InstrV::Halt => HALT,
        InstrV::Call(_) => 0,
    }
}

impl NumberConst {
    pub fn duplicate(&self) -> (r: NumberConst)
        ensures
            r@ == self@,
    {
        match self {
            NumberConst::Bits(b) => NumberConst::Bits(*b),
            NumberConst::Int(i) => NumberConst::Int(*i),
            NumberConst::Literal(s) => NumberConst::Literal(s.clone()),
        }
    }
}

impl Instructions {
    /// A copy of this instruction.
    pub fn duplicate(&self) -> (r: Instructions)
        ensures
            r@ == self@,
    {
        match self {
            Instructions::Add => Instructions::Add,
            Instructions::Sub => Instructions::Sub,
            Instructions::Div => Instructions::Div,
            Instructions::Mul => Instructions::Mul,
            Instructions::Modulo => Instructions::Modulo,
            Instructions::GreaterThan => Instructions::GreaterThan,
            Instructions::LessThan => Instructions::LessThan,
            Instructions::Equal => Instructions::Equal,
            Instructions::LoadVar(s) => Instructions::LoadVar(s.clone()),
            Instructions::SaveVar(s) => Instructions::SaveVar(s.clone()),
            Instructions::PushString(s) => Instructions::PushString(s.clone()),
            Instructions::PushBool(b) => Instructions::PushBool(*b),
            Instructions::PushNumber(n) => Instructions::PushNumber(n.duplicate()),
            Instructions::PushJmpAdress(a) => Instructions::PushJmpAdress(*a),
            Instructions::ReadInput => Instructions::ReadInput,
            Instructions::Drop(s) => Instructions::Drop(s.clone()),
            Instructions::WriteLnLastOnStack => Instructions::WriteLnLastOnStack,
            Instructions::WriteLastOnStack => Instructions::WriteLastOnStack,
            Instructions::ProcessExit => Instructions::ProcessExit,
            Instructions::JumpOnLastOnStack => Instructions::JumpOnLastOnStack,
            Instructions::Jump(a) => Instructions::Jump(*a),
            Instructions::JumpIfFalse(a) => Instructions::JumpIfFalse(*a),
            Instructions::JumpIfTrue(a) => Instructions::JumpIfTrue(*a),
            Instructions::Call(s) => Instructions::Call(s.clone()),
            Instructions::Halt => Instructions::Halt,
        }
    }

    /// The opcode of this instruction. `Call` has none: it only stands in the code until
    /// the call is linked into a jump.
    pub fn opcode(&self) -> (r: u8)
        requires
            !(self@ is Call),
        ensures
            r == spec_opcode(self@),
    {
        match self {
            Instructions::Add => ADD,
            Instructions::Sub => SUB,
            Instructions::Div => DIV,
            Instructions::Mul => MUL,
            Instructions::Modulo => MODULO,
            Instructions::GreaterThan => GREATER,
            Instructions::LessThan => LESS,
            Instructions::Equal => EQUAL,
            Instructions::PushString(_) => PUSH_STR,
            Instructions::PushBool(_) => PUSH_BOOL,
            Instructions::PushNumber(_) => PUSH_NUMB,
            Instructions::Drop(_) => DROP,
            Instructions::PushJmpAdress(_) => PUSH_USIZE,
            Instructions::WriteLnLastOnStack => WRITE_LN,
            Instructions::WriteLastOnStack => WRITE,
            Instructions::ReadInput => READ_INPUT,
            Instructions::ProcessExit => PROCESS_EXIT,
            Instructions::LoadVar(_) => LOAD_VAR,
            Instructions::SaveVar(_) => STORE_VAR,
            Instructions::Jump(_) => JUMP,
            Instructions::JumpIfFalse(_) => JUMP_IF_FALSE,
            Instructions::JumpIfTrue(_) => JUMP_IF_TRUE,
            Instructions::JumpOnLastOnStack => JUMP_LAST_ON_STACK,
            Instructions::Halt => HALT,
            Instructions::Call(_) => 0,
        }
    }
}

} // verus!
