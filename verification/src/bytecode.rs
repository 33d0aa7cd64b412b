//! The binary form of the instruction stream.
//!
//! Every instruction is one opcode byte followed by its operand: a `u32` length and the
//! UTF-8 bytes for texts, one byte for booleans, four bytes (little-endian) for numbers,
//! eight for return addresses and two for jump targets. `BytecodeLoader` reads the form
//! back; `lemma_decode_encode` states that reading gives back what was written.
use vstd::prelude::*;
use vstd::utf8::{decode_utf8, encode_utf8, valid_utf8};
use crate::instructions::{
    instrs_view, spec_opcode, InstrV, Instructions, NumberConst, NumberConstV, ADD, DIV, DROP,
    EQUAL, GREATER, HALT, JUMP, JUMP_IF_FALSE, JUMP_IF_TRUE, JUMP_LAST_ON_STACK, LESS, LOAD_VAR,
    MODULO, MUL, PROCESS_EXIT, PUSH_BOOL, PUSH_NUMB, PUSH_STR, PUSH_USIZE, READ_INPUT,
    STORE_VAR, SUB, WRITE, WRITE_LN,
};

verus! {

// ---------------------------------------------------------------------------
// Byte layouts
// ---------------------------------------------------------------------------

pub open spec fn le16(a: usize) -> Seq<u8> {
    seq![(a & 0xff) as u8, ((a >> 8) & 0xff) as u8]
}

pub open spec fn le32(x: u32) -> Seq<u8> {
    seq![(x & 0xff) as u8, ((x >> 8) & 0xff) as u8, ((x >> 16) & 0xff) as u8, ((x >> 24) & 0xff) as u8]
}

pub open spec fn le64(x: u64) -> Seq<u8> {
    seq![
        (x & 0xff) as u8,
        ((x >> 8) & 0xff) as u8,
        ((x >> 16) & 0xff) as u8,
        ((x >> 24) & 0xff) as u8,
        ((x >> 32) & 0xff) as u8,
        ((x >> 40) & 0xff) as u8,
        ((x >> 48) & 0xff) as u8,
        ((x >> 56) & 0xff) as u8,
    ]
}

pub open spec fn u16_at(b: Seq<u8>, p: int) -> u16 {
    (b[p] as u16) | ((b[p + 1] as u16) << 8u16)
}

pub open spec fn u32_at(b: Seq<u8>, p: int) -> u32 {
    (b[p] as u32) | ((b[p + 1] as u32) << 8u32) | ((b[p + 2] as u32) << 16u32) | ((b[p + 3] as u32)
        << 24u32)
}

pub open spec fn u64_at(b: Seq<u8>, p: int) -> u64 {
    (b[p] as u64) | ((b[p + 1] as u64) << 8u64) | ((b[p + 2] as u64) << 16u64) | ((b[p + 3] as u64)
        << 24u64) | ((b[p + 4] as u64) << 32u64) | ((b[p + 5] as u64) << 40u64) | ((b[p + 6] as u64)
        << 48u64) | ((b[p + 7] as u64) << 56u64)
}

/// An opcode followed by a text: its UTF-8 byte length as `u32` (cut to 32 bits) and its
/// bytes.
pub open spec fn text_field(op: u8, s: Seq<char>) -> Seq<u8> {
    let b = encode_utf8(s);
    seq![op] + le32((b.len() % 0x1_0000_0000) as u32) + b
}

/// The bytes of one instruction.
pub open spec fn encode_instr(i: InstrV) -> Seq<u8> {
    match i {
        InstrV::PushString(s) => text_field(PUSH_STR, s),
        InstrV::Drop(s) => text_field(DROP, s),
        InstrV::LoadVar(s) => text_field(LOAD_VAR, s),
        InstrV::SaveVar(s) => text_field(STORE_VAR, s),
        InstrV::PushBool(b) => seq![PUSH_BOOL, if b {
            1u8
        } else {
            0u8
        }],
        InstrV::PushNumber(n) => match n {
            NumberConstV::Bits(x) => seq![PUSH_NUMB] + le32(x),
            _ => seq![PUSH_NUMB],
        },
        InstrV::PushJmpAdress(a) => seq![PUSH_USIZE] + le64(a as u64),
        InstrV::Jump(a) => seq![JUMP] + le16(a),
        InstrV::JumpIfFalse(a) => seq![JUMP_IF_FALSE] + le16(a),
        InstrV::JumpIfTrue(a) => seq![JUMP_IF_TRUE] + le16(a),
        _ => seq![spec_opcode(i)],
    }
}

/// An instruction that has a binary form: not a `Call`, and numbers as bit patterns.
pub open spec fn encodable(i: InstrV) -> bool {
    &&& !(i is Call)
    &&& (i matches InstrV::PushNumber(n) ==> n is Bits)
}

/// The binary form of each instruction: its opcode byte (`Add` 1, `Sub` 2, `Div` 3, `Mul` 4,
/// `Modulo` 5, `GreaterThan` 6, `LessThan` 7, `Equal` 8, `PushString` 20, `PushBool` 21,
/// `PushNumber` 22, `PushJmpAdress` 23, `WriteLnLastOnStack` 30, `WriteLastOnStack` 31,
/// `Jump` 40, `JumpIfFalse` 41, `JumpIfTrue` 42, `JumpOnLastOnStack` 43, `SaveVar` 50,
/// `LoadVar` 51, `ReadInput` 60, `ProcessExit` 61, `Drop` 125, `Halt` 255), then its
/// operand: a boolean as one byte 1 or 0, a number's bits in four bytes, a jump target in
/// two and a return address in eight, least significant first, and a text as its UTF-8
/// length in four bytes and then its UTF-8 bytes.
pub proof fn lemma_instruction_bytes(a: usize, x: u32, s: Seq<char>, b: bool)
    ensures
        encode_instr(InstrV::Add) == seq![1u8],
        encode_instr(InstrV::Sub) == seq![2u8],
        encode_instr(InstrV::Div) == seq![3u8],
        encode_instr(InstrV::Mul) == seq![4u8],
        encode_instr(InstrV::Modulo) == seq![5u8],
        encode_instr(InstrV::GreaterThan) == seq![6u8],
        encode_instr(InstrV::LessThan) == seq![7u8],
        encode_instr(InstrV::Equal) == seq![8u8],
        encode_instr(InstrV::WriteLnLastOnStack) == seq![30u8],
        encode_instr(InstrV::WriteLastOnStack) == seq![31u8],
        encode_instr(InstrV::JumpOnLastOnStack) == seq![43u8],
        encode_instr(InstrV::ReadInput) == seq![60u8],
        encode_instr(InstrV::ProcessExit) == seq![61u8],
        encode_instr(InstrV::Halt) == seq![255u8],
        encode_instr(InstrV::PushBool(b)) == seq![21u8, if b { 1u8 } else { 0u8 }],
        encode_instr(InstrV::PushNumber(NumberConstV::Bits(x))) == seq![
            22u8,
            (x % 256) as u8,
            (x / 256 % 256) as u8,
            (x / 65536 % 256) as u8,
            (x / 16777216) as u8,
        ],
        a < 65536 ==> encode_instr(InstrV::Jump(a)) == seq![40u8, (a % 256) as u8, (a / 256) as u8],
        a < 65536 ==> encode_instr(InstrV::JumpIfFalse(a)) == seq![41u8, (a % 256) as u8, (a / 256) as u8],
        a < 65536 ==> encode_instr(InstrV::JumpIfTrue(a)) == seq![42u8, (a % 256) as u8, (a / 256) as u8],
        encode_instr(InstrV::PushJmpAdress(a)).len() == 9 && encode_instr(InstrV::PushJmpAdress(a))[0] == 23u8,
        encode_utf8(s).len() < 0x1_0000_0000 ==> {
            let n = encode_utf8(s).len();
            let field = seq![(n % 256) as u8, (n / 256 % 256) as u8, (n / 65536 % 256) as u8, (n / 16777216) as u8]
                + encode_utf8(s);
            &&& encode_instr(InstrV::PushString(s)) == seq![20u8] + field
            &&& encode_instr(InstrV::SaveVar(s)) == seq![50u8] + field
            &&& encode_instr(InstrV::LoadVar(s)) == seq![51u8] + field
            &&& encode_instr(InstrV::Drop(s)) == seq![125u8] + field
        },
{
    assert((x & 0xff) as u8 == (x % 256) as u8 && ((x >> 8) & 0xff) as u8 == (x / 256 % 256) as u8
        && ((x >> 16) & 0xff) as u8 == (x / 65536 % 256) as u8 && ((x >> 24) & 0xff) as u8 == (x
        / 16777216) as u8) by (bit_vector);
    if a < 65536 {
        assert((a & 0xff) as u8 == (a % 256) as u8 && ((a >> 8) & 0xff) as u8 == (a / 256) as u8) by (bit_vector)
            requires
                a < 65536,
        ;
    }
    let n = encode_utf8(s).len();
    if n < 0x1_0000_0000 {
        let m = (n % 0x1_0000_0000) as u32;
        assert(m == n);
        assert((m & 0xff) as u8 == (m % 256) as u8 && ((m >> 8) & 0xff) as u8 == (m / 256 % 256) as u8
            && ((m >> 16) & 0xff) as u8 == (m / 65536 % 256) as u8 && ((m >> 24) & 0xff) as u8 == (m
            / 16777216) as u8) by (bit_vector);
    }
}

pub open spec fn encode_all(s: Seq<InstrV>) -> Seq<u8>
    decreases s.len(),
{
    if s.len() == 0 {
        Seq::empty()
    } else {
        encode_all(s.drop_last()) + encode_instr(s.last())
    }
}

// ---------------------------------------------------------------------------
// Encoding
// ---------------------------------------------------------------------------

fn push_le16(out: &mut Vec<u8>, a: usize)
    ensures
        final(out)@ == old(out)@ + le16(a),
{
    out.push((a & 0xff) as u8);
    out.push(((a >> 8) & 0xff) as u8);
    assert(final(out)@ =~= old(out)@ + le16(a));
}

fn push_le32(out: &mut Vec<u8>, x: u32)
    ensures
        final(out)@ == old(out)@ + le32(x),
{
    out.push((x & 0xff) as u8);
    out.push(((x >> 8) & 0xff) as u8);
    out.push(((x >> 16) & 0xff) as u8);
    out.push(((x >> 24) & 0xff) as u8);
    assert(final(out)@ =~= old(out)@ + le32(x));
}

fn push_le64(out: &mut Vec<u8>, x: u64)
    ensures
        final(out)@ == old(out)@ + le64(x),
{
    out.push((x & 0xff) as u8);
    out.push(((x >> 8) & 0xff) as u8);
    out.push(((x >> 16) & 0xff) as u8);
    out.push(((x >> 24) & 0xff) as u8);
    out.push(((x >> 32) & 0xff) as u8);
    out.push(((x >> 40) & 0xff) as u8);
    out.push(((x >> 48) & 0xff) as u8);
    out.push(((x >> 56) & 0xff) as u8);
    assert(final(out)@ =~= old(out)@ + le64(x));
}

fn push_text_field(out: &mut Vec<u8>, op: u8, s: &String)
    ensures
        final(out)@ == old(out)@ + text_field(op, s@),
{
    let bytes = s.as_str().as_bytes();
    out.push(op);
    let n = bytes.len();
    push_le32(out, ((n as u64) % 0x1_0000_0000) as u32);
    let ghost mid = out@;
    let mut i: usize = 0;
    while i < n
        invariant
            n == bytes@.len(),
            bytes@ == encode_utf8(s@),
            i <= n,
            out@ == mid + bytes@.take(i as int),
        decreases n - i,
    {
        out.push(bytes[i]);
        i = i + 1;
        assert(out@ =~= mid + bytes@.take(i as int));
    }
    assert(bytes@.take(n as int) =~= bytes@);
    assert(final(out)@ =~= old(out)@ + text_field(op, s@));
}

/// The bytes of `code`, in order.
pub fn encode_instructions(code: &Vec<Instructions>) -> (bytes: Vec<u8>)
    requires
        forall|i: int| 0 <= i < code@.len() ==> encodable(#[trigger] code@[i]@),
    ensures
        bytes@ == encode_all(instrs_view(code@)),
{
    let mut out: Vec<u8> = Vec::new();
    let mut k: usize = 0;
    while k < code.len()
        invariant
            k <= code@.len(),
            forall|i: int| 0 <= i < code@.len() ==> encodable(#[trigger] code@[i]@),
            out@ == encode_all(instrs_view(code@).take(k as int)),
        decreases code@.len() - k,
    {
        let ghost before = out@;
        let instr = &code[k];
        assert(encodable(code@[k as int]@));
        match instr {
            Instructions::PushString(s) => push_text_field(&mut out, instr.opcode(), s),
            Instructions::Drop(s) => push_text_field(&mut out, instr.opcode(), s),
            Instructions::LoadVar(s) => push_text_field(&mut out, instr.opcode(), s),
            Instructions::SaveVar(s) => push_text_field(&mut out, instr.opcode(), s),
            Instructions::PushBool(b) => {
                out.push(instr.opcode());
                out.push(if *b {
                    1u8
                } else {
                    0u8
                });
            },
            Instructions::PushNumber(n) => {
                out.push(instr.opcode());
                match n {
                    NumberConst::Bits(x) => push_le32(&mut out, *x),
                    _ => {},
                }
            },
            Instructions::PushJmpAdress(a) => {
                out.push(instr.opcode());
                push_le64(&mut out, *a as u64);
            },
            Instructions::Jump(a) => {
                out.push(instr.opcode());
                push_le16(&mut out, *a);
            },
            Instructions::JumpIfFalse(a) => {
                out.push(instr.opcode());
                push_le16(&mut out, *a);
            },
            Instructions::JumpIfTrue(a) => {
                out.push(instr.opcode());
                push_le16(&mut out, *a);
            },
            _ => {
                out.push(instr.opcode());
            },
        }
        proof {
            let v = instrs_view(code@);
            assert(v.take(k + 1).drop_last() =~= v.take(k as int));
            assert(v.take(k + 1).last() == code@[k as int]@);
            assert(out@ =~= before + encode_instr(code@[k as int]@));
        }
        k = k + 1;
    }
    assert(instrs_view(code@).take(code@.len() as int) =~= instrs_view(code@));
    out
}

} // verus!
