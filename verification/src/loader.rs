//! Reading the binary instruction stream back into instructions.
use vstd::prelude::*;
use vstd::utf8::{decode_utf8, encode_utf8, valid_utf8};
use crate::bytecode::{encodable, encode_all, encode_instr, text_field, u16_at, u32_at, u64_at};
use crate::instructions::{
    instrs_view, InstrV, Instructions, NumberConst, NumberConstV, ADD, DIV, DROP, EQUAL, GREATER,
    HALT, JUMP, JUMP_IF_FALSE, JUMP_IF_TRUE, JUMP_LAST_ON_STACK, LESS, LOAD_VAR, MODULO, MUL,
    PROCESS_EXIT, PUSH_BOOL, PUSH_NUMB, PUSH_STR, PUSH_USIZE, READ_INPUT, STORE_VAR, SUB, WRITE,
    WRITE_LN,
};
use crate::text::{owned, push_decimal, push_str};

verus! {

/// Why a byte stream is not a valid program.
#[derive(Debug, Clone, Copy, PartialEq, Eq, Structural)]
pub enum LoadError {
    /// The stream ends inside a one-byte field.
    EofU8,
    /// The stream ends inside a jump target.
    EofU16,
    /// The stream ends inside a text length or a return address.
    EofU32,
    /// The stream ends inside a number.
    EofF32,
    /// The stream ends inside a text of the given byte length.
    EofString(usize),
    /// A text is not valid UTF-8.
    InvalidUtf8,
    /// An unknown opcode, and the position of its byte.
    UnknownOpcode(u8, usize),
}

/// Calls `String::from_utf8`. Claimed, as its documentation states: it succeeds exactly
/// when the bytes are valid UTF-8, and the string then holds the characters they encode.
#[verifier::external_body]
fn string_from_utf8(bytes: Vec<u8>) -> (r: Option<String>)
    ensures
        r is Some <==> valid_utf8(bytes@),
        r matches Some(s) ==> s@ == decode_utf8(bytes@),
{
    match String::from_utf8(bytes) {
        Ok(s) => Some(s),
        Err(_) => None,
    }
}

// ---------------------------------------------------------------------------
// The format, read as a function of the bytes
// ---------------------------------------------------------------------------

/// The instruction an opcode stands for when it takes no operand.
pub open spec fn plain_op(op: u8) -> Option<InstrV> {
    if op == ADD {
        Some(InstrV::Add)
    } else if op == SUB {
        Some(InstrV::Sub)
    } else if op == MUL {
        Some(InstrV::Mul)
    } else if op == DIV {
        Some(InstrV::Div)
    } else if op == MODULO {
        Some(InstrV::Modulo)
    } else if op == WRITE_LN {
        Some(InstrV::WriteLnLastOnStack)
    } else if op == WRITE {
        Some(InstrV::WriteLastOnStack)
    } else if op == PROCESS_EXIT {
        Some(InstrV::ProcessExit)
    } else if op == JUMP_LAST_ON_STACK {
        Some(InstrV::JumpOnLastOnStack)
    } else if op == GREATER {
        Some(InstrV::GreaterThan)
    } else if op == LESS {
        Some(InstrV::LessThan)
    } else if op == EQUAL {
        Some(InstrV::Equal)
    } else if op == READ_INPUT {
        Some(InstrV::ReadInput)
    } else if op == HALT {
        Some(InstrV::Halt)
    } else {
        None
    }
}

/// A text field at `q`: a `u32` byte length and that many bytes of UTF-8. Gives the
/// characters and the number of bytes the field takes.
pub open spec fn text_at(b: Seq<u8>, q: int) -> Result<(Seq<char>, nat), LoadError> {
    if q + 4 > b.len() {
        Err(LoadError::EofU32)
    } else {
        let n = u32_at(b, q) as int;
        if q + 4 + n > b.len() {
            Err(LoadError::EofString(n as usize))
        } else {
            let bytes = b.subrange(q + 4, q + 4 + n);
            if !valid_utf8(bytes) {
                Err(LoadError::InvalidUtf8)
            } else {
                Ok((decode_utf8(bytes), (4 + n) as nat))
            }
        }
    }
}

/// The outcome of reading one instruction.
pub enum Step {
    /// The instruction, and the number of bytes after its opcode that it takes.
    Read(InstrV, nat),
    Failed(LoadError),
}

pub open spec fn text_step(b: Seq<u8>, q: int, make: spec_fn(Seq<char>) -> InstrV) -> Step {
    match text_at(b, q) {
        Ok((s, n)) => Step::Read(make(s), n),
        Err(e) => Step::Failed(e),
    }
}

/// Reads the instruction whose opcode stands at `p`.
pub open spec fn decode_step(b: Seq<u8>, p: int) -> Step {
    let op = b[p];
    let q = p + 1;
    if plain_op(op) is Some {
        Step::Read(plain_op(op)->0, 0)
    } else if op == PUSH_STR {
        text_step(b, q, |s: Seq<char>| InstrV::PushString(s))
    } else if op == DROP {
        text_step(b, q, |s: Seq<char>| InstrV::Drop(s))
    } else if op == LOAD_VAR {
        text_step(b, q, |s: Seq<char>| InstrV::LoadVar(s))
    } else if op == STORE_VAR {
        text_step(b, q, |s: Seq<char>| InstrV::SaveVar(s))
    } else if op == PUSH_BOOL {
        if q >= b.len() {
            Step::Failed(LoadError::EofU8)
        } else {
            Step::Read(InstrV::PushBool(b[q] != 0), 1)
        }
    } else if op == PUSH_NUMB {
        if q + 4 > b.len() {
            Step::Failed(LoadError::EofF32)
        } else {
            Step::Read(InstrV::PushNumber(NumberConstV::Bits(u32_at(b, q))), 4)
        }
    } else if op == PUSH_USIZE {
        if q + 8 > b.len() {
            Step::Failed(LoadError::EofU32)
        } else {
            Step::Read(InstrV::PushJmpAdress(u64_at(b, q) as usize), 8)
        }
    } else if op == JUMP || op == JUMP_IF_FALSE || op == JUMP_IF_TRUE {
        if q + 2 > b.len() {
            Step::Failed(LoadError::EofU16)
        } else {
            let a = u16_at(b, q) as usize;
            Step::Read(
                if op == JUMP {
                    InstrV::Jump(a)
                } else if op == JUMP_IF_FALSE {
                    InstrV::JumpIfFalse(a)
                } else {
                    InstrV::JumpIfTrue(a)
                },
                2,
            )
        }
    } else {
        Step::Failed(LoadError::UnknownOpcode(op, p as usize))
    }
}

/// Reads instructions from `p` to the end, after those already in `acc`; the first
/// failure ends the reading.
pub open spec fn decode_from(b: Seq<u8>, p: int, acc: Seq<InstrV>) -> Result<Seq<InstrV>, LoadError>
    decreases b.len() - p,
{
    if p < 0 || p >= b.len() {
        Ok(acc)
    } else {
        match decode_step(b, p) {
            Step::Read(i, n) => decode_from(b, p + 1 + n, acc.push(i)),
            Step::Failed(e) => Err(e),
        }
    }
}

/// The program that a byte stream holds, or why it holds none.
pub open spec fn decode_program(b: Seq<u8>) -> Result<Seq<InstrV>, LoadError> {
    decode_from(b, 0, seq![])
}

pub open spec fn program_view(r: Result<Vec<Instructions>, LoadError>) -> Result<Seq<InstrV>, LoadError> {
    match r {
        Ok(v) => Ok(instrs_view(v@)),
        Err(e) => Err(e),
    }
}

/// The message of an error, as the loader reports it.
pub open spec fn load_error_message(e: LoadError) -> Seq<char> {
    match e {
        LoadError::EofU8 => "Unexpected EOF reading u8"@,
        LoadError::EofU16 => "Unexpected EOF reading u16"@,
        LoadError::EofU32 => "Unexpected EOF reading u32"@,
        LoadError::EofF32 => "Unexpected EOF reading f32"@,
        LoadError::EofString(n) => "Unexpected EOF reading string of length "@ + crate::text::decimal(
            n as nat,
        ),
        LoadError::InvalidUtf8 => "Invalid UTF-8 in string"@,
        LoadError::UnknownOpcode(op, p) => "Unknown opcode: "@ + crate::text::decimal(op as nat)
            + " at position "@ + crate::text::decimal(p as nat),
    }
}

impl LoadError {
    /// The human-readable message of this error.
    pub fn message(&self) -> (s: String)
        ensures
            s@ == load_error_message(*self),
    {
        match self {
            LoadError::EofU8 => owned("Unexpected EOF reading u8"),
            LoadError::EofU16 => owned("Unexpected EOF reading u16"),
            LoadError::EofU32 => owned("Unexpected EOF reading u32"),
            LoadError::EofF32 => owned("Unexpected EOF reading f32"),
            LoadError::EofString(n) => {
                let mut s = owned("Unexpected EOF reading string of length ");
                push_decimal(&mut s, *n as u64);
                s
            },
            LoadError::InvalidUtf8 => owned("Invalid UTF-8 in string"),
            LoadError::UnknownOpcode(op, p) => {
                let mut s = owned("Unknown opcode: ");
                push_decimal(&mut s, *op as u64);
                push_str(&mut s, " at position ");
                push_decimal(&mut s, *p as u64);
                s
            },
        }
    }
}

// ---------------------------------------------------------------------------
// The loader
// ---------------------------------------------------------------------------

/// A cursor over a byte stream.
pub struct BytecodeLoader {
    bytes: Vec<u8>,
    pos: usize,
}

fn plain_instruction(op: u8) -> (r: Option<Instructions>)
    ensures
        r is Some <==> plain_op(op) is Some,
        r matches Some(i) ==> i@ == plain_op(op)->0,
{
    if op == ADD {
        Some(Instructions::Add)
    } else if op == SUB {
        Some(Instructions::Sub)
    } else if op == MUL {
        Some(Instructions::Mul)
    } else if op == DIV {
        Some(Instructions::Div)
    } else if op == MODULO {
        Some(Instructions::Modulo)
    } else if op == WRITE_LN {
        Some(Instructions::WriteLnLastOnStack)
    } else if op == WRITE {
        Some(Instructions::WriteLastOnStack)
    } else if op == PROCESS_EXIT {
        Some(Instructions::ProcessExit)
    } else if op == JUMP_LAST_ON_STACK {
        Some(Instructions::JumpOnLastOnStack)
    } else if op == GREATER {
        Some(Instructions::GreaterThan)
    } else if op == LESS {
        Some(Instructions::LessThan)
    } else if op == EQUAL {
        Some(Instructions::Equal)
    } else if op == READ_INPUT {
        Some(Instructions::ReadInput)
    } else if op == HALT {
        Some(Instructions::Halt)
    } else {
        None
    }
}

impl BytecodeLoader {
    /// Reads a whole program from `bytes`.
    pub fn from_bytes(bytes: Vec<u8>) -> (r: Result<Vec<Instructions>, LoadError>)
        ensures
            program_view(r) == decode_program(bytes@),
    {
        let mut loader = BytecodeLoader { bytes, pos: 0 };
        loader.parse()
    }

    fn parse(&mut self) -> (r: Result<Vec<Instructions>, LoadError>)
        requires
            old(self).pos <= old(self).bytes@.len(),
        ensures
            program_view(r) == decode_from(old(self).bytes@, old(self).pos as int, seq![]),
    {
        let ghost b = self.bytes@;
        let ghost p0 = self.pos as int;
        let mut out: Vec<Instructions> = Vec::new();
        assert(instrs_view(out@) =~= seq![]);
        while self.pos < self.bytes.len()
            invariant
                b == old(self).bytes@,
                p0 == old(self).pos,
                self.bytes@ == b,
                self.pos <= b.len(),
                decode_from(b, self.pos as int, instrs_view(out@)) == decode_from(b, p0, seq![]),
            decreases b.len() - self.pos,
        {
            let start = self.pos;
            let instr = match self.read_instruction() {
                Ok(i) => i,
                Err(e) => {
                    assert(decode_step(b, start as int) matches Step::Failed(f) && f == e);
                    assert(decode_from(b, start as int, instrs_view(out@)) == Err::<
                        Seq<InstrV>,
                        LoadError,
                    >(e));
                    return Err(e);
                },
            };
            proof {
                assert(instrs_view(out@.push(instr)) =~= instrs_view(out@).push(instr@));
            }
            out.push(instr);
        }
        Ok(out)
    }

    /// Reads the instruction at the cursor, which must not stand at the end.
    fn read_instruction(&mut self) -> (r: Result<Instructions, LoadError>)
        requires
            old(self).pos < old(self).bytes@.len(),
        ensures
            final(self).bytes@ == old(self).bytes@,
            final(self).pos <= final(self).bytes@.len(),
            match decode_step(old(self).bytes@, old(self).pos as int) {
                Step::Read(i, n) => r matches Ok(x) && x@ == i && final(self).pos == old(self).pos + 1
                    + n,
                Step::Failed(e) => r == Err::<Instructions, LoadError>(e),
            },
    {
        let ghost b = self.bytes@;
        let ghost p = self.pos as int;
        let len = self.bytes.len();
        let op = self.bytes[self.pos];
        self.pos = self.pos + 1;
        match plain_instruction(op) {
            Some(i) => {
                return Ok(i);
            },
            None => {},
        }
        if op == PUSH_STR || op == DROP || op == LOAD_VAR || op == STORE_VAR {
            let s = match self.read_text() {
                Ok(s) => s,
                Err(e) => {
                    return Err(e);
                },
            };
            if op == PUSH_STR {
                Ok(Instructions::PushString(s))
            } else if op == DROP {
                Ok(Instructions::Drop(s))
            } else if op == LOAD_VAR {
                Ok(Instructions::LoadVar(s))
            } else {
                Ok(Instructions::SaveVar(s))
            }
        } else if op == PUSH_BOOL {
            match self.read_u8() {
                Ok(v) => Ok(Instructions::PushBool(v != 0)),
                Err(e) => Err(e),
            }
        } else if op == PUSH_NUMB {
            match self.read_f32() {
                Ok(v) => Ok(Instructions::PushNumber(NumberConst::Bits(v))),
                Err(e) => Err(e),
            }
        } else if op == PUSH_USIZE {
            match self.read_usize() {
                Ok(v) => Ok(Instructions::PushJmpAdress(v)),
                Err(e) => Err(e),
            }
        } else if op == JUMP || op == JUMP_IF_FALSE || op == JUMP_IF_TRUE {
            match self.read_u16() {
                Ok(v) => {
                    let a = v as usize;
                    if op == JUMP {
                        Ok(Instructions::Jump(a))
                    } else if op == JUMP_IF_FALSE {
                        Ok(Instructions::JumpIfFalse(a))
                    } else {
                        Ok(Instructions::JumpIfTrue(a))
                    }
                },
                Err(e) => Err(e),
            }
        } else {
            Err(LoadError::UnknownOpcode(op, self.pos - 1))
        }
    }

    fn read_u8(&mut self) -> (r: Result<u8, LoadError>)
        requires
            old(self).pos <= old(self).bytes@.len(),
        ensures
            final(self).bytes@ == old(self).bytes@,
            final(self).pos <= final(self).bytes@.len(),
            old(self).pos < old(self).bytes@.len() ==> r == Ok::<u8, LoadError>(
                old(self).bytes@[old(self).pos as int],
            ) && final(self).pos == old(self).pos + 1,
            old(self).pos >= old(self).bytes@.len() ==> r == Err::<u8, LoadError>(LoadError::EofU8),
    {
        if self.pos >= self.bytes.len() {
            return Err(LoadError::EofU8);
        }
        let v = self.bytes[self.pos];
        self.pos = self.pos + 1;
        Ok(v)
    }

    fn read_u16(&mut self) -> (r: Result<u16, LoadError>)
        requires
            old(self).pos <= old(self).bytes@.len(),
        ensures
            final(self).bytes@ == old(self).bytes@,
            final(self).pos <= final(self).bytes@.len(),
            old(self).pos + 2 <= old(self).bytes@.len() ==> r == Ok::<u16, LoadError>(
                u16_at(old(self).bytes@, old(self).pos as int),
            ) && final(self).pos == old(self).pos + 2,
            old(self).pos + 2 > old(self).bytes@.len() ==> r == Err::<u16, LoadError>(
                LoadError::EofU16,
            ),
    {
        if self.bytes.len() - self.pos < 2 {
            return Err(LoadError::EofU16);
        }
        let p = self.pos;
        let v = (self.bytes[p] as u16) | ((self.bytes[p + 1] as u16) << 8u16);
        self.pos = p + 2;
        Ok(v)
    }

    fn read_u32(&mut self) -> (r: Result<u32, LoadError>)
        requires
            old(self).pos <= old(self).bytes@.len(),
        ensures
            final(self).bytes@ == old(self).bytes@,
            final(self).pos <= final(self).bytes@.len(),
            old(self).pos + 4 <= old(self).bytes@.len() ==> r == Ok::<u32, LoadError>(
                u32_at(old(self).bytes@, old(self).pos as int),
            ) && final(self).pos == old(self).pos + 4,
            old(self).pos + 4 > old(self).bytes@.len() ==> r == Err::<u32, LoadError>(
                LoadError::EofU32,
            ),
    {
        if self.bytes.len() - self.pos < 4 {
            return Err(LoadError::EofU32);
        }
        let p = self.pos;
        let v = (self.bytes[p] as u32) | ((self.bytes[p + 1] as u32) << 8u32) | ((self.bytes[p
            + 2] as u32) << 16u32) | ((self.bytes[p + 3] as u32) << 24u32);
        self.pos = p + 4;
        Ok(v)
    }

    /// Reads the bit pattern of a single-precision number.
    fn read_f32(&mut self) -> (r: Result<u32, LoadError>)
        requires
            old(self).pos <= old(self).bytes@.len(),
        ensures
            final(self).bytes@ == old(self).bytes@,
            final(self).pos <= final(self).bytes@.len(),
            old(self).pos + 4 <= old(self).bytes@.len() ==> r == Ok::<u32, LoadError>(
                u32_at(old(self).bytes@, old(self).pos as int),
            ) && final(self).pos == old(self).pos + 4,
            old(self).pos + 4 > old(self).bytes@.len() ==> r == Err::<u32, LoadError>(
                LoadError::EofF32,
            ),
    {
        if self.bytes.len() - self.pos < 4 {
            return Err(LoadError::EofF32);
        }
        let p = self.pos;
        let v = (self.bytes[p] as u32) | ((self.bytes[p + 1] as u32) << 8u32) | ((self.bytes[p
            + 2] as u32) << 16u32) | ((self.bytes[p + 3] as u32) << 24u32);
        self.pos = p + 4;
        Ok(v)
    }

    /// Reads an eight-byte little-endian address.
    fn read_usize(&mut self) -> (r: Result<usize, LoadError>)
        requires
            old(self).pos <= old(self).bytes@.len(),
        ensures
            final(self).bytes@ == old(self).bytes@,
            final(self).pos <= final(self).bytes@.len(),
            old(self).pos + 8 <= old(self).bytes@.len() ==> r == Ok::<usize, LoadError>(
                u64_at(old(self).bytes@, old(self).pos as int) as usize,
            ) && final(self).pos == old(self).pos + 8,
            old(self).pos + 8 > old(self).bytes@.len() ==> r == Err::<usize, LoadError>(
                LoadError::EofU32,
            ),
    {
        if self.bytes.len() - self.pos < 8 {
            return Err(LoadError::EofU32);
        }
        let p = self.pos;
        let v = (self.bytes[p] as u64) | ((self.bytes[p + 1] as u64) << 8u64) | ((self.bytes[p
            + 2] as u64) << 16u64) | ((self.bytes[p + 3] as u64) << 24u64) | ((self.bytes[p
            + 4] as u64) << 32u64) | ((self.bytes[p + 5] as u64) << 40u64) | ((self.bytes[p
            + 6] as u64) << 48u64) | ((self.bytes[p + 7] as u64) << 56u64);
        self.pos = p + 8;
        Ok(v as usize)
    }

    /// Reads `len` bytes of UTF-8 text.
    fn read_string(&mut self, len: usize) -> (r: Result<String, LoadError>)
        requires
            old(self).pos <= old(self).bytes@.len(),
        ensures
            final(self).bytes@ == old(self).bytes@,
            final(self).pos <= final(self).bytes@.len(),
            ({
                let b = old(self).bytes@;
                let p = old(self).pos as int;
                let sub = b.subrange(p, p + len);
                if p + len > b.len() {
                    r == Err::<String, LoadError>(LoadError::EofString(len))
                } else if !valid_utf8(sub) {
                    r == Err::<String, LoadError>(LoadError::InvalidUtf8)
                } else {
                    r matches Ok(s) && s@ == decode_utf8(sub) && final(self).pos == p + len
                }
            }),
    {
        if len > self.bytes.len() - self.pos {
            return Err(LoadError::EofString(len));
        }
        let ghost b = self.bytes@;
        let p = self.pos;
        let mut v: Vec<u8> = Vec::new();
        let mut i: usize = 0;
        while i < len
            invariant
                self.bytes@ == b,
                self.pos == p,
                p + len <= self.bytes.len(),
                i <= len,
                v@ == b.subrange(p as int, p + i),
            decreases len - i,
        {
            v.push(self.bytes[p + i]);
            i = i + 1;
            assert(v@ =~= b.subrange(p as int, p + i));
        }
        match string_from_utf8(v) {
            Some(s) => {
                self.pos = p + len;
                Ok(s)
            },
            None => Err(LoadError::InvalidUtf8),
        }
    }

    /// Reads a text field: a `u32` byte length, then the text.
    fn read_text(&mut self) -> (r: Result<String, LoadError>)
        requires
            old(self).pos <= old(self).bytes@.len(),
        ensures
            final(self).bytes@ == old(self).bytes@,
            final(self).pos <= final(self).bytes@.len(),
            match text_at(old(self).bytes@, old(self).pos as int) {
                Ok((s, n)) => r matches Ok(x) && x@ == s && final(self).pos == old(self).pos + n,
                Err(e) => r == Err::<String, LoadError>(e),
            },
    {
        let n = match self.read_u32() {
            Ok(n) => n,
            Err(e) => {
                return Err(e);
            },
        };
        self.read_string(n as usize)
    }
}

// ---------------------------------------------------------------------------
// Reading gives back what was written
// ---------------------------------------------------------------------------

/// An instruction whose binary form reads back as itself: it has a binary form, its
/// texts' byte lengths fit the `u32` length field, and its jump target fits the two-byte
/// field.
pub open spec fn round_trips(i: InstrV) -> bool {
    &&& encodable(i)
    &&& match i {
        InstrV::PushString(s) => encode_utf8(s).len() < 0x1_0000_0000,
        InstrV::Drop(s) => encode_utf8(s).len() < 0x1_0000_0000,
        InstrV::LoadVar(s) => encode_utf8(s).len() < 0x1_0000_0000,
        InstrV::SaveVar(s) => encode_utf8(s).len() < 0x1_0000_0000,
        InstrV::Jump(a) => a < 0x10000,
        InstrV::JumpIfFalse(a) => a < 0x10000,
        InstrV::JumpIfTrue(a) => a < 0x10000,
        _ => true,
    }
}

proof fn lemma_le16_back(a: usize)
    requires
        a < 0x10000,
    ensures
        ((((a & 0xff) as u8) as u16) | (((((a >> 8) & 0xff) as u8) as u16) << 8u16)) as usize
            == a,
{
    assert(((((a & 0xff) as u8) as u16) | (((((a >> 8) & 0xff) as u8) as u16) << 8u16)) as usize
        == a) by (bit_vector)
        requires
            a < 0x10000,
    ;
}

proof fn lemma_le32_back(x: u32)
    ensures
        (((x & 0xff) as u8) as u32) | (((((x >> 8) & 0xff) as u8) as u32) << 8u32) | (((((x
            >> 16) & 0xff) as u8) as u32) << 16u32) | (((((x >> 24) & 0xff) as u8) as u32)
            << 24u32) == x,
{
    assert((((x & 0xff) as u8) as u32) | (((((x >> 8) & 0xff) as u8) as u32) << 8u32) | (((((x
        >> 16) & 0xff) as u8) as u32) << 16u32) | (((((x >> 24) & 0xff) as u8) as u32)
        << 24u32) == x) by (bit_vector);
}

proof fn lemma_le64_back(x: u64)
    ensures
        (((x & 0xff) as u8) as u64) | (((((x >> 8) & 0xff) as u8) as u64) << 8u64) | (((((x
            >> 16) & 0xff) as u8) as u64) << 16u64) | (((((x >> 24) & 0xff) as u8) as u64)
            << 24u64) | (((((x >> 32) & 0xff) as u8) as u64) << 32u64) | (((((x >> 40) & 0xff)
            as u8) as u64) << 40u64) | (((((x >> 48) & 0xff) as u8) as u64) << 48u64) | (((((x
            >> 56) & 0xff) as u8) as u64) << 56u64) == x,
{
    assert((((x & 0xff) as u8) as u64) | (((((x >> 8) & 0xff) as u8) as u64) << 8u64) | (((((x
        >> 16) & 0xff) as u8) as u64) << 16u64) | (((((x >> 24) & 0xff) as u8) as u64)
        << 24u64) | (((((x >> 32) & 0xff) as u8) as u64) << 32u64) | (((((x >> 40) & 0xff)
        as u8) as u64) << 40u64) | (((((x >> 48) & 0xff) as u8) as u64) << 48u64) | (((((x
        >> 56) & 0xff) as u8) as u64) << 56u64) == x) by (bit_vector);
}

proof fn lemma_usize_u64_back(a: usize)
    ensures
        (a as u64) as usize == a,
{
    assert((a as u64) as usize == a) by (bit_vector);
}

proof fn lemma_encode_all_append(a: Seq<InstrV>, b: Seq<InstrV>)
    ensures
        encode_all(a + b) == encode_all(a) + encode_all(b),
    decreases b.len(),
{
    if b.len() == 0 {
        assert(a + b =~= a);
        assert(encode_all(a) + encode_all(b) =~= encode_all(a));
    } else {
        assert((a + b).drop_last() =~= a + b.drop_last());
        lemma_encode_all_append(a, b.drop_last());
        assert(encode_all(a + b) =~= encode_all(a) + encode_all(b));
    }
}

/// Reading at `p` a text field that was written for `s`.
proof fn lemma_text_back(bb: Seq<u8>, p: int, op: u8, s: Seq<char>)
    requires
        0 <= p,
        encode_utf8(s).len() < 0x1_0000_0000,
        p + text_field(op, s).len() <= bb.len(),
        bb.subrange(p, p + text_field(op, s).len()) == text_field(op, s),
    ensures
        text_at(bb, p + 1) == Ok::<(Seq<char>, nat), LoadError>(
            (s, (text_field(op, s).len() - 1) as nat),
        ),
{
    let e = text_field(op, s);
    let bytes = encode_utf8(s);
    let n = bytes.len();
    let x = (n % 0x1_0000_0000) as u32;
    assert(x == n);
    assert(e.len() == 5 + n);
    assert(bb[p + 1] == e[1]);
    assert(bb[p + 2] == e[2]);
    assert(bb[p + 3] == e[3]);
    assert(bb[p + 4] == e[4]);
    lemma_le32_back(x);
    assert(u32_at(bb, p + 1) == x);
    assert(bb.subrange(p + 5, p + 5 + n) =~= bytes) by {
        assert forall|j: int| 0 <= j < n implies bb.subrange(p + 5, p + 5 + n)[j] == bytes[j] by {
            assert(bb[p + 5 + j] == e[5 + j]);
        }
    }
    vstd::utf8::encode_utf8_valid_utf8(s);
    vstd::utf8::encode_utf8_decode_utf8(s);
}

/// Reading at `p` the binary form of `i` gives `i` back.
proof fn lemma_step_back(bb: Seq<u8>, p: int, i: InstrV)
    requires
        round_trips(i),
        0 <= p,
        p + encode_instr(i).len() <= bb.len(),
        bb.subrange(p, p + encode_instr(i).len()) == encode_instr(i),
    ensures
        encode_instr(i).len() >= 1,
        decode_step(bb, p) == Step::Read(i, (encode_instr(i).len() - 1) as nat),
{
    let e = encode_instr(i);
    assert(e.len() >= 1);
    assert(bb[p] == e[0]);
    match i {
        InstrV::PushString(s) => {
            lemma_text_back(bb, p, PUSH_STR, s);
        },
        InstrV::Drop(s) => {
            lemma_text_back(bb, p, DROP, s);
        },
        InstrV::LoadVar(s) => {
            lemma_text_back(bb, p, LOAD_VAR, s);
        },
        InstrV::SaveVar(s) => {
            lemma_text_back(bb, p, STORE_VAR, s);
        },
        InstrV::PushBool(v) => {
            assert(bb[p + 1] == e[1]);
        },
        InstrV::PushNumber(n) => {
            let x = n->Bits_0;
            assert(bb[p + 1] == e[1]);
            assert(bb[p + 2] == e[2]);
            assert(bb[p + 3] == e[3]);
            assert(bb[p + 4] == e[4]);
            lemma_le32_back(x);
        },
        InstrV::PushJmpAdress(a) => {
            let x = a as u64;
            assert(bb[p + 1] == e[1]);
            assert(bb[p + 2] == e[2]);
            assert(bb[p + 3] == e[3]);
            assert(bb[p + 4] == e[4]);
            assert(bb[p + 5] == e[5]);
            assert(bb[p + 6] == e[6]);
            assert(bb[p + 7] == e[7]);
            assert(bb[p + 8] == e[8]);
            lemma_le64_back(x);
            lemma_usize_u64_back(a);
        },
        InstrV::Jump(a) => {
            assert(bb[p + 1] == e[1]);
            assert(bb[p + 2] == e[2]);
            lemma_le16_back(a);
        },
        InstrV::JumpIfFalse(a) => {
            assert(bb[p + 1] == e[1]);
            assert(bb[p + 2] == e[2]);
            lemma_le16_back(a);
        },
        InstrV::JumpIfTrue(a) => {
            assert(bb[p + 1] == e[1]);
            assert(bb[p + 2] == e[2]);
            lemma_le16_back(a);
        },
        _ => {},
    }
}

proof fn lemma_decode_rest(code: Seq<InstrV>, k: int)
    requires
        0 <= k <= code.len(),
        forall|j: int| 0 <= j < code.len() ==> round_trips(#[trigger] code[j]),
    ensures
        decode_from(encode_all(code), encode_all(code.take(k)).len() as int, code.take(k)) == Ok::<
            Seq<InstrV>,
            LoadError,
        >(code),
    decreases code.len() - k,
{
    let bb = encode_all(code);
    if k == code.len() {
        assert(code.take(k) =~= code);
    } else {
        let head = code.take(k + 1);
        let tail = code.skip(k + 1);
        assert(code =~= head + tail);
        lemma_encode_all_append(head, tail);
        assert(head.drop_last() =~= code.take(k));
        assert(head.last() == code[k]);
        let off = encode_all(code.take(k)).len() as int;
        let e = encode_instr(code[k]);
        assert(encode_all(head) == encode_all(code.take(k)) + e);
        assert(bb.subrange(off, off + e.len()) =~= e);
        assert(round_trips(code[k]));
        lemma_step_back(bb, off, code[k]);
        assert(code.take(k).push(code[k]) =~= head);
        lemma_decode_rest(code, k + 1);
    }
}

/// Reading the binary form of a program gives the program back, for every program whose
/// instructions all have a binary form that keeps them whole (`round_trips`).
pub proof fn lemma_decode_encode(code: Seq<InstrV>)
    requires
        forall|j: int| 0 <= j < code.len() ==> round_trips(#[trigger] code[j]),
    ensures
        decode_program(encode_all(code)) == Ok::<Seq<InstrV>, LoadError>(code),
{
    lemma_decode_rest(code, 0);
    assert(code.take(0) =~= Seq::<InstrV>::empty());
}

} // verus!
