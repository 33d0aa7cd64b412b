//! The virtual machine that runs compiled programs.
//!
//! The machine keeps the stack, the return addresses, the variables and the place in the
//! code. Numbers are single-precision values, held here as their bit patterns; what is
//! computed on them, and reading and printing, is asked of the caller: `step` runs one
//! instruction and says what, if anything, it needs or why it stopped.
use vstd::prelude::*;
use crate::assoc::{
    lemma_get_put,
    assoc_get, assoc_put, assoc_set, find_key, find_last, keyed, lemma_find_last_range,
};
use crate::instructions::{instrs_view, InstrV, Instructions, NumberConst, NumberConstV};
use crate::loader::{decode_program, program_view, BytecodeLoader, LoadError};
use crate::text::{owned, push_str};

verus! {

/// A value on the machine's stack.
#[derive(Debug)]
pub enum Value {
    /// A single-precision number, as its bit pattern.
    Number(u32),
    StringValue(String),
    Bool(bool),
}

pub enum ValueV {
    Number(u32),
    Str(Seq<char>),
    Bool(bool),
}

impl View for Value {
    type V = ValueV;

    open spec fn view(&self) -> ValueV {
        match self {
            Value::Number(n) => ValueV::Number(*n),
            Value::StringValue(s) => ValueV::Str(s@),
            Value::Bool(b) => ValueV::Bool(*b),
        }
    }
}

impl Value {
    pub fn duplicate(&self) -> (r: Value)
        ensures
            r@ == self@,
    {
        match self {
            Value::Number(n) => Value::Number(*n),
            Value::StringValue(s) => Value::StringValue(s.clone()),
            Value::Bool(b) => Value::Bool(*b),
        }
    }
}

/// An operation on two numbers.
#[derive(Debug, Clone, Copy, PartialEq, Eq, Structural)]
pub enum NumOp {
    Add,
    Sub,
    Mul,
    Div,
    Modulo,
    Greater,
    Less,
    Equal,
}

/// What running one instruction asks of the caller, or why the machine stopped.
#[derive(Debug)]
pub enum Request {
    /// Nothing: run the next instruction.
    Continue,
    /// Compute `left op right` and put the result on the stack, a number (`push_number`)
    /// for arithmetic and a boolean (`push_bool`) for comparisons. A division is never
    /// asked with a zero divisor: `step` refuses it itself.
    Compute { op: NumOp, left: u32, right: u32 },
    /// Print the value, then a line break if `newline`.
    Print { value: Value, newline: bool },
    /// Read a line and put it, trimmed, on the stack (`push_string`).
    ReadLine,
    /// The program ends with this exit code.
    Exit(u32),
    /// The program ends; the value at the bottom of the stack, if there is one, is shown.
    Halt(Option<Value>),
    /// The program fails with this message.
    Fail(String),
    /// The code breaks an assumption of the machine (such as a return without a return
    /// address); running it cannot go on.
    Broken(String),
}

pub enum RequestV {
    Continue,
    Compute(NumOp, u32, u32),
    Print(ValueV, bool),
    ReadLine,
    Exit(u32),
    Halt(Option<ValueV>),
    Fail(Seq<char>),
    Broken(Seq<char>),
}

impl View for Request {
    type V = RequestV;

    open spec fn view(&self) -> RequestV {
        match self {
            Request::Continue => RequestV::Continue,
            Request::Compute { op, left, right } => RequestV::Compute(*op, *left, *right),
            Request::Print { value, newline } => RequestV::Print(value@, *newline),
            Request::ReadLine => RequestV::ReadLine,
            Request::Exit(n) => RequestV::Exit(*n),
            Request::Halt(v) => RequestV::Halt(
                match v {
                    Some(x) => Some(x@),
                    None => None,
                },
            ),
            Request::Fail(m) => RequestV::Fail(m@),
            Request::Broken(m) => RequestV::Broken(m@),
        }
    }
}

pub struct VM {
    pub ip: usize,
    pub stack: Vec<Value>,
    pub jump_stack: Vec<usize>,
    pub instructions: Vec<Instructions>,
    pub variables: Vec<(String, Value)>,
}

pub struct VmV {
    pub ip: usize,
    pub stack: Seq<ValueV>,
    pub jump_stack: Seq<usize>,
    pub code: Seq<InstrV>,
    pub variables: Seq<(Seq<char>, ValueV)>,
}

pub open spec fn values_view(s: Seq<Value>) -> Seq<ValueV> {
    s.map_values(|v: Value| v@)
}

impl View for VM {
    type V = VmV;

    open spec fn view(&self) -> VmV {
        VmV {
            ip: self.ip,
            stack: values_view(self.stack@),
            jump_stack: self.jump_stack@,
            code: instrs_view(self.instructions@),
            variables: keyed(self.variables@),
        }
    }
}

// ---------------------------------------------------------------------------
// One step, as a function of the state
// ---------------------------------------------------------------------------

/// The table without the entry named `k`.
pub open spec fn assoc_remove<W>(s: Seq<(Seq<char>, W)>, k: Seq<char>) -> Seq<(Seq<char>, W)> {
    let i = find_last(s, k);
    if i < 0 {
        s
    } else {
        s.remove(i)
    }
}

pub open spec fn next(s: VmV) -> VmV {
    VmV { ip: (s.ip + 1) as usize, ..s }
}

pub open spec fn with_stack(s: VmV, st: Seq<ValueV>) -> VmV {
    VmV { stack: st, ..s }
}

/// The two values on top of the stack, the top one second, and the stack without them.
pub open spec fn pop2(st: Seq<ValueV>) -> Option<(ValueV, ValueV, Seq<ValueV>)> {
    if st.len() < 2 {
        None
    } else {
        Some((st[st.len() - 2], st[st.len() - 1], st.take(st.len() - 2)))
    }
}

/// The stack a failed pair of pops leaves: whatever could be popped is gone.
pub open spec fn popped_some(st: Seq<ValueV>) -> Seq<ValueV> {
    if st.len() == 0 {
        st
    } else {
        st.drop_last()
    }
}

/// An arithmetic instruction: two numbers go to the caller.
pub open spec fn arith(s: VmV, op: NumOp, err: Seq<char>) -> (VmV, RequestV) {
    match pop2(s.stack) {
        None => (with_stack(s, popped_some(s.stack)), RequestV::Fail("Stack underflow"@)),
        Some((l, r, rest)) => match (l, r) {
            (ValueV::Number(a), ValueV::Number(b)) => (
                next(with_stack(s, rest)),
                RequestV::Compute(op, a, b),
            ),
            _ => (with_stack(s, rest), RequestV::Fail(err)),
        },
    }
}

/// Whether two values are equal: numbers are compared by the caller.
pub open spec fn same_value(l: ValueV, r: ValueV) -> bool {
    match (l, r) {
        (ValueV::Str(a), ValueV::Str(b)) => a == b,
        (ValueV::Bool(a), ValueV::Bool(b)) => a == b,
        _ => false,
    }
}

pub open spec fn vm_step(s: VmV) -> (VmV, RequestV) {
    if s.ip >= s.code.len() {
        (s, RequestV::Fail("Unexpected EOF"@))
    } else {
        let top = s.stack.len() - 1;
        match s.code[s.ip as int] {
            InstrV::Add => match pop2(s.stack) {
                Some((ValueV::Str(a), ValueV::Str(b), rest)) => (
                    next(with_stack(s, rest.push(ValueV::Str(a + b)))),
                    RequestV::Continue,
                ),
                _ => arith(s, NumOp::Add, "Type error: '+' expects number+number or string+string"@),
            },
            InstrV::Sub => arith(s, NumOp::Sub, "Type error: '-' expects numbers"@),
            InstrV::Mul => arith(s, NumOp::Mul, "Type error: '*' expects numbers"@),
            InstrV::Div => match pop2(s.stack) {
                Some((ValueV::Number(_), ValueV::Number(b), rest)) => if b == 0 || b == 0x8000_0000 {
                    (with_stack(s, rest), RequestV::Fail("Cannot divide by zero"@))
                } else {
                    arith(s, NumOp::Div, "Type error: '/' expects numbers"@)
                },
                _ => arith(s, NumOp::Div, "Type error: '/' expects numbers"@),
            },
            InstrV::Modulo => arith(s, NumOp::Modulo, "Type error: '%' expects numbers"@),
            InstrV::GreaterThan => arith(s, NumOp::Greater, "GreaterThan expects numbers"@),
            InstrV::LessThan => arith(s, NumOp::Less, "LessThan expects numbers"@),
            InstrV::Equal => match pop2(s.stack) {
                Some((ValueV::Number(a), ValueV::Number(b), rest)) => (
                    next(with_stack(s, rest)),
                    RequestV::Compute(NumOp::Equal, a, b),
                ),
                Some((l, r, rest)) => (
                    next(with_stack(s, rest.push(ValueV::Bool(same_value(l, r))))),
                    RequestV::Continue,
                ),
                None => (with_stack(s, popped_some(s.stack)), RequestV::Fail("Stack underflow"@)),
            },
            InstrV::PushString(v) => (
                next(with_stack(s, s.stack.push(ValueV::Str(v)))),
                RequestV::Continue,
            ),
            InstrV::PushBool(b) => (
                next(with_stack(s, s.stack.push(ValueV::Bool(b)))),
                RequestV::Continue,
            ),
            InstrV::PushNumber(NumberConstV::Bits(b)) => (
                next(with_stack(s, s.stack.push(ValueV::Number(b)))),
                RequestV::Continue,
            ),
            InstrV::PushNumber(_) => (s, RequestV::Broken("number without its bits"@)),
            InstrV::PushJmpAdress(a) => (
                next(VmV { jump_stack: s.jump_stack.push(a), ..s }),
                RequestV::Continue,
            ),
            InstrV::LoadVar(name) => match assoc_get(s.variables, name) {
                Some(v) => (next(with_stack(s, s.stack.push(v))), RequestV::Continue),
                None => (s, RequestV::Fail("Variable '"@ + name + "' not found"@)),
            },
            InstrV::SaveVar(name) => if s.stack.len() == 0 {
                (s, RequestV::Fail("Stack underflow"@))
            } else {
                (
                    next(
                        VmV {
                            stack: s.stack.drop_last(),
                            variables: assoc_put(s.variables, name, s.stack[top]),
                            ..s
                        },
                    ),
                    RequestV::Continue,
                )
            },
            InstrV::Drop(name) => (
                next(VmV { variables: assoc_remove(s.variables, name), ..s }),
                RequestV::Continue,
            ),
            InstrV::WriteLnLastOnStack => if s.stack.len() == 0 {
                (s, RequestV::Fail("Stack underflow"@))
            } else if s.stack[top] is Bool {
                (with_stack(s, s.stack.drop_last()), RequestV::Broken("a boolean cannot be printed"@))
            } else {
                (next(with_stack(s, s.stack.drop_last())), RequestV::Print(s.stack[top], true))
            },
            InstrV::WriteLastOnStack => if s.stack.len() == 0 {
                (s, RequestV::Fail("Stack underflow"@))
            } else if s.stack[top] is Bool {
                (with_stack(s, s.stack.drop_last()), RequestV::Broken("a boolean cannot be printed"@))
            } else {
                (next(with_stack(s, s.stack.drop_last())), RequestV::Print(s.stack[top], false))
            },
            InstrV::ProcessExit => if s.stack.len() == 0 {
                (s, RequestV::Fail("Stack underflow"@))
            } else {
                match s.stack[top] {
                    ValueV::Number(n) => (with_stack(s, s.stack.drop_last()), RequestV::Exit(n)),
                    _ => (with_stack(s, s.stack.drop_last()), RequestV::Broken("exit code is not a number"@)),
                }
            },
            InstrV::JumpIfTrue(a) => if s.stack.len() == 0 {
                (s, RequestV::Fail("Stack underflow"@))
            } else {
                let s1 = with_stack(s, s.stack.drop_last());
                match s.stack[top] {
                    ValueV::Bool(true) => (VmV { ip: a, ..s1 }, RequestV::Continue),
                    ValueV::Bool(false) => (next(s1), RequestV::Continue),
                    _ => (s1, RequestV::Fail("JumpIfFalse expects boolean"@)),
                }
            },
            InstrV::JumpIfFalse(a) => if s.stack.len() == 0 {
                (s, RequestV::Fail("Stack underflow"@))
            } else {
                let s1 = with_stack(s, s.stack.drop_last());
                match s.stack[top] {
                    ValueV::Bool(false) => (VmV { ip: a, ..s1 }, RequestV::Continue),
                    ValueV::Bool(true) => (next(s1), RequestV::Continue),
                    _ => (s1, RequestV::Fail("JumpIfFalse expects boolean"@)),
                }
            },
            InstrV::Jump(a) => (VmV { ip: a, ..s }, RequestV::Continue),
            InstrV::JumpOnLastOnStack => if s.jump_stack.len() == 0 {
                (s, RequestV::Broken("return without a return address"@))
            } else {
                (
                    VmV { ip: s.jump_stack.last(), jump_stack: s.jump_stack.drop_last(), ..s },
                    RequestV::Continue,
                )
            },
            InstrV::ReadInput => (next(s), RequestV::ReadLine),
            InstrV::Call(_) => (s, RequestV::Broken("call that was never linked"@)),
            InstrV::Halt => (
                s,
                RequestV::Halt(
                    if s.stack.len() > 0 {
                        Some(s.stack[0])
                    } else {
                        None
                    },
                ),
            ),
        }
    }
}

// ---------------------------------------------------------------------------
// Laws of one step
// ---------------------------------------------------------------------------

/// Each arithmetic and comparison instruction, with two numbers `a` (below) and `b`
/// (on top) on the stack, takes them off, moves to the next instruction and asks the
/// caller for its own operation on `a` and `b`, in that order: `Add` for `+`, `Sub` for
/// `-`, `Mul` for `*`, `Div` for `/` (a zero divisor being refused), `Modulo` for `%`,
/// `Greater` for `>`, `Less` for `<` and `Equal` for `==`.
pub proof fn lemma_step_numbers(s: VmV, rest: Seq<ValueV>, a: u32, b: u32)
    requires
        s.ip < s.code.len(),
        s.stack == rest.push(ValueV::Number(a)).push(ValueV::Number(b)),
    ensures
        ({
            let after = VmV { ip: (s.ip + 1) as usize, stack: rest, ..s };
            let i = s.code[s.ip as int];
            &&& i == InstrV::Add ==> vm_step(s) == (after, RequestV::Compute(NumOp::Add, a, b))
            &&& i == InstrV::Sub ==> vm_step(s) == (after, RequestV::Compute(NumOp::Sub, a, b))
            &&& i == InstrV::Mul ==> vm_step(s) == (after, RequestV::Compute(NumOp::Mul, a, b))
            &&& i == InstrV::Div && b != 0 && b != 0x8000_0000 ==> vm_step(s) == (
                after,
                RequestV::Compute(NumOp::Div, a, b),
            )
            &&& i == InstrV::Div && (b == 0 || b == 0x8000_0000) ==> vm_step(s).1 == RequestV::Fail(
                "Cannot divide by zero"@,
            )
            &&& i == InstrV::Modulo ==> vm_step(s) == (after, RequestV::Compute(NumOp::Modulo, a, b))
            &&& i == InstrV::GreaterThan ==> vm_step(s) == (
                after,
                RequestV::Compute(NumOp::Greater, a, b),
            )
            &&& i == InstrV::LessThan ==> vm_step(s) == (after, RequestV::Compute(NumOp::Less, a, b))
            &&& i == InstrV::Equal ==> vm_step(s) == (after, RequestV::Compute(NumOp::Equal, a, b))
        }),
{
    let st = s.stack;
    assert(st.len() >= 2);
    assert(st[st.len() - 2] == ValueV::Number(a));
    assert(st[st.len() - 1] == ValueV::Number(b));
    assert(st.take(st.len() - 2) =~= rest);
}

/// Two strings `a` (below) and `b` (on top) are joined by `Add` into `a` followed by `b`,
/// and compared by `Equal`, which pushes whether they are the same text.
pub proof fn lemma_step_strings(s: VmV, rest: Seq<ValueV>, a: Seq<char>, b: Seq<char>)
    requires
        s.ip < s.code.len(),
        s.stack == rest.push(ValueV::Str(a)).push(ValueV::Str(b)),
    ensures
        s.code[s.ip as int] == InstrV::Add ==> vm_step(s) == (
            VmV { ip: (s.ip + 1) as usize, stack: rest.push(ValueV::Str(a + b)), ..s },
            RequestV::Continue,
        ),
        s.code[s.ip as int] == InstrV::Equal ==> vm_step(s) == (
            VmV { ip: (s.ip + 1) as usize, stack: rest.push(ValueV::Bool(a == b)), ..s },
            RequestV::Continue,
        ),
{
    let st = s.stack;
    assert(st[st.len() - 2] == ValueV::Str(a));
    assert(st[st.len() - 1] == ValueV::Str(b));
    assert(st.take(st.len() - 2) =~= rest);
}

/// `Equal` on two booleans pushes whether they are the same.
pub proof fn lemma_step_bools(s: VmV, rest: Seq<ValueV>, a: bool, b: bool)
    requires
        s.ip < s.code.len(),
        s.stack == rest.push(ValueV::Bool(a)).push(ValueV::Bool(b)),
    ensures
        s.code[s.ip as int] == InstrV::Equal ==> vm_step(s) == (
            VmV { ip: (s.ip + 1) as usize, stack: rest.push(ValueV::Bool(a == b)), ..s },
            RequestV::Continue,
        ),
{
    let st = s.stack;
    assert(st[st.len() - 2] == ValueV::Bool(a));
    assert(st[st.len() - 1] == ValueV::Bool(b));
    assert(st.take(st.len() - 2) =~= rest);
}

/// Pushing puts the value on top and moves on, and `Jump` goes to its target.
pub proof fn lemma_step_push_jump(s: VmV)
    requires
        s.ip < s.code.len(),
    ensures
        s.code[s.ip as int] matches InstrV::PushNumber(NumberConstV::Bits(x)) ==> vm_step(s) == (
            VmV { ip: (s.ip + 1) as usize, stack: s.stack.push(ValueV::Number(x)), ..s },
            RequestV::Continue,
        ),
        s.code[s.ip as int] matches InstrV::PushString(x) ==> vm_step(s) == (
            VmV { ip: (s.ip + 1) as usize, stack: s.stack.push(ValueV::Str(x)), ..s },
            RequestV::Continue,
        ),
        s.code[s.ip as int] matches InstrV::PushBool(x) ==> vm_step(s) == (
            VmV { ip: (s.ip + 1) as usize, stack: s.stack.push(ValueV::Bool(x)), ..s },
            RequestV::Continue,
        ),
        s.code[s.ip as int] matches InstrV::Jump(a) ==> vm_step(s) == (
            VmV { ip: a, ..s },
            RequestV::Continue,
        ),
{
}

/// A conditional jump takes the boolean `c` on top off the stack and goes to its target
/// exactly when `c` is `true` (`JumpIfTrue`) or `false` (`JumpIfFalse`), moving on to the
/// next instruction otherwise.
pub proof fn lemma_step_branch(s: VmV, rest: Seq<ValueV>, c: bool)
    requires
        s.ip < s.code.len(),
        s.stack == rest.push(ValueV::Bool(c)),
    ensures
        s.code[s.ip as int] matches InstrV::JumpIfTrue(a) ==> vm_step(s) == (
            VmV { ip: if c { a } else { (s.ip + 1) as usize }, stack: rest, ..s },
            RequestV::Continue,
        ),
        s.code[s.ip as int] matches InstrV::JumpIfFalse(a) ==> vm_step(s) == (
            VmV { ip: if !c { a } else { (s.ip + 1) as usize }, stack: rest, ..s },
            RequestV::Continue,
        ),
{
    assert(s.stack.drop_last() =~= rest);
    assert(s.stack[s.stack.len() - 1] == ValueV::Bool(c));
}

/// `SaveVar` takes the value on top into the variable, and a `LoadVar` of that variable
/// at the next instruction puts the same value back.
pub proof fn lemma_save_then_load(s: VmV, rest: Seq<ValueV>, v: ValueV, name: Seq<char>)
    requires
        s.ip + 1 < s.code.len(),
        s.ip + 2 <= usize::MAX,
        s.stack == rest.push(v),
        s.code[s.ip as int] == InstrV::SaveVar(name),
        s.code[s.ip + 1] == InstrV::LoadVar(name),
    ensures
        vm_step(s).1 == RequestV::Continue,
        vm_step(s).0.stack == rest,
        vm_step(s).0.ip == s.ip + 1,
        vm_step(vm_step(s).0) == (
            VmV { ip: (s.ip + 2) as usize, stack: rest.push(v), ..vm_step(s).0 },
            RequestV::Continue,
        ),
{
    assert(s.stack.drop_last() =~= rest);
    assert(s.stack[s.stack.len() - 1] == v);
    lemma_get_put(s.variables, name, v);
}

/// The instructions that talk to the caller: `WriteLnLastOnStack` and `WriteLastOnStack`
/// take the value on top (a number or a text) off the stack and ask to print it, with and
/// without a line break; `ProcessExit` with a number on top asks to exit with it;
/// `ReadInput` asks for a line; `PushJmpAdress` saves a return address that a later
/// `JumpOnLastOnStack` jumps to.
pub proof fn lemma_step_io(s: VmV, rest: Seq<ValueV>, v: ValueV)
    requires
        s.ip < s.code.len(),
        s.stack == rest.push(v),
    ensures
        !(v is Bool) && s.code[s.ip as int] == InstrV::WriteLnLastOnStack ==> vm_step(s) == (
            VmV { ip: (s.ip + 1) as usize, stack: rest, ..s },
            RequestV::Print(v, true),
        ),
        !(v is Bool) && s.code[s.ip as int] == InstrV::WriteLastOnStack ==> vm_step(s) == (
            VmV { ip: (s.ip + 1) as usize, stack: rest, ..s },
            RequestV::Print(v, false),
        ),
        s.code[s.ip as int] == InstrV::ProcessExit ==> (v matches ValueV::Number(n) ==> vm_step(s).1
            == RequestV::Exit(n)),
        s.code[s.ip as int] == InstrV::ReadInput ==> vm_step(s) == (
            VmV { ip: (s.ip + 1) as usize, ..s },
            RequestV::ReadLine,
        ),
        s.code[s.ip as int] matches InstrV::PushJmpAdress(a) ==> vm_step(s).1 == RequestV::Continue
            && vm_step(s).0.jump_stack == s.jump_stack.push(a) && vm_step(s).0.ip == (s.ip + 1) as usize,
        s.code[s.ip as int] == InstrV::JumpOnLastOnStack && s.jump_stack.len() > 0 ==> vm_step(s) == (
            VmV { ip: s.jump_stack.last(), jump_stack: s.jump_stack.drop_last(), ..s },
            RequestV::Continue,
        ),
{
    assert(s.stack.drop_last() =~= rest);
    assert(s.stack[s.stack.len() - 1] == v);
}

/// `Halt` stops the machine where it is and shows the value at the bottom of the stack,
/// if there is one.
pub proof fn lemma_halt_shows_bottom(s: VmV)
    requires
        s.ip < s.code.len(),
        s.code[s.ip as int] == InstrV::Halt,
    ensures
        vm_step(s) == (s, RequestV::Halt(if s.stack.len() > 0 { Some(s.stack[0]) } else { None })),
{
}

// ---------------------------------------------------------------------------
// The machine
// ---------------------------------------------------------------------------

fn values_equal(l: &Value, r: &Value) -> (b: bool)
    ensures
        b == same_value(l@, r@),
{
    match (l, r) {
        (Value::StringValue(a), Value::StringValue(b)) => *a == *b,
        (Value::Bool(a), Value::Bool(b)) => *a == *b,
        _ => false,
    }
}

fn message(t: &str) -> (r: Request)
    ensures
        r@ == RequestV::Fail(t@),
{
    Request::Fail(owned(t))
}

impl VM {
    /// A machine at the start of `instructions`.
    pub fn new(instructions: Vec<Instructions>) -> (vm: Self)
        ensures
            vm@ == (VmV {
                ip: 0,
                stack: seq![],
                jump_stack: seq![],
                code: instrs_view(instructions@),
                variables: seq![],
            }),
    {
        let vm = VM {
            ip: 0,
            stack: Vec::new(),
            jump_stack: Vec::new(),
            instructions,
            variables: Vec::new(),
        };
        assert(vm@.stack =~= seq![]);
        assert(vm@.variables =~= seq![]);
        vm
    }

    /// A machine at the start of the program that `bytes` hold.
    pub fn from_bytes(bytes: Vec<u8>) -> (r: Result<Self, LoadError>)
        ensures
            match r {
                Ok(vm) => decode_program(bytes@) == Ok::<Seq<InstrV>, LoadError>(vm@.code) && vm@.ip
                    == 0 && vm@.stack.len() == 0 && vm@.jump_stack.len() == 0 && vm@.variables.len()
                    == 0,
                Err(e) => decode_program(bytes@) == Err::<Seq<InstrV>, LoadError>(e),
            },
    {
        match BytecodeLoader::from_bytes(bytes) {
            Ok(instructions) => Ok(VM::new(instructions)),
            Err(e) => Err(e),
        }
    }

    /// Puts a number on the stack.
    pub fn push_number(&mut self, bits: u32)
        ensures
            final(self)@ == with_stack(old(self)@, old(self)@.stack.push(ValueV::Number(bits))),
    {
        self.stack.push(Value::Number(bits));
        assert(values_view(self.stack@) =~= old(self)@.stack.push(ValueV::Number(bits)));
    }

    /// Puts a boolean on the stack.
    pub fn push_bool(&mut self, b: bool)
        ensures
            final(self)@ == with_stack(old(self)@, old(self)@.stack.push(ValueV::Bool(b))),
    {
        self.stack.push(Value::Bool(b));
        assert(values_view(self.stack@) =~= old(self)@.stack.push(ValueV::Bool(b)));
    }

    /// Puts a string on the stack.
    pub fn push_string(&mut self, s: String)
        ensures
            final(self)@ == with_stack(old(self)@, old(self)@.stack.push(ValueV::Str(s@))),
    {
        let ghost v = s@;
        self.stack.push(Value::StringValue(s));
        assert(values_view(self.stack@) =~= old(self)@.stack.push(ValueV::Str(v)));
    }

    fn pop(&mut self) -> (r: Option<Value>)
        ensures
            final(self)@ == with_stack(old(self)@, popped_some(old(self)@.stack)),
            match r {
                Some(v) => old(self)@.stack.len() > 0 && v@ == old(self)@.stack.last(),
                None => old(self)@.stack.len() == 0,
            },
    {
        let r = self.stack.pop();
        assert(values_view(self.stack@) =~= popped_some(old(self)@.stack));
        r
    }

    fn pop_two(&mut self) -> (r: Option<(Value, Value)>)
        ensures
            match pop2(old(self)@.stack) {
                Some((l, rt, rest)) => r matches Some((a, b)) && a@ == l && b@ == rt && final(self)@
                    == with_stack(old(self)@, rest),
                None => r is None && final(self)@ == with_stack(
                    old(self)@,
                    popped_some(old(self)@.stack),
                ),
            },
    {
        let right = match self.pop() {
            Some(v) => v,
            None => {
                return None;
            },
        };
        let left = match self.pop() {
            Some(v) => v,
            None => {
                assert(old(self)@.stack.len() == 1);
                return None;
            },
        };
        proof {
            let st = old(self)@.stack;
            assert(st.drop_last().drop_last() =~= st.take(st.len() - 2));
            assert(st.drop_last().last() == st[st.len() - 2]);
        }
        Some((left, right))
    }

    fn advance(&mut self)
        requires
            old(self)@.ip < old(self)@.code.len(),
        ensures
            final(self)@ == next(old(self)@),
    {
        assert(self.instructions@.len() == instrs_view(self.instructions@).len());
        assert(self.ip < self.instructions.len());
        self.ip = self.ip + 1;
    }

    fn arith(&mut self, op: NumOp, err: &str) -> (r: Request)
        requires
            old(self)@.ip < old(self)@.code.len(),
        ensures
            (final(self)@, r@) == arith(old(self)@, op, err@),
    {
        match self.pop_two() {
            None => message("Stack underflow"),
            Some((Value::Number(a), Value::Number(b))) => {
                self.advance();
                Request::Compute { op, left: a, right: b }
            },
            Some(_) => Request::Fail(owned(err)),
        }
    }

    /// Runs the instruction at the current place and says what it needs, if anything,
    /// or why the machine stopped.
    pub fn step(&mut self) -> (r: Request)
        ensures
            (final(self)@, r@) == vm_step(old(self)@),
    {
        if self.ip >= self.instructions.len() {
            return message("Unexpected EOF");
        }
        let ghost s = self@;
        assert(instrs_view(self.instructions@)[self.ip as int] == self.instructions@[self.ip as int]@);
        let n = self.stack.len();
        match &self.instructions[self.ip] {
            Instructions::Add => {
                if n >= 2 {
                    match (&self.stack[n - 2], &self.stack[n - 1]) {
                        (Value::StringValue(a), Value::StringValue(b)) => {
                            let mut joined = a.clone();
                            push_str(&mut joined, b.as_str());
                            let _ = self.pop_two();
                            self.push_string(joined);
                            self.advance();
                            return Request::Continue;
                        },
                        _ => {},
                    }
                }
                self.arith(NumOp::Add, "Type error: '+' expects number+number or string+string")
            },
            Instructions::Sub => self.arith(NumOp::Sub, "Type error: '-' expects numbers"),
            Instructions::Mul => self.arith(NumOp::Mul, "Type error: '*' expects numbers"),
            Instructions::Div => {
                if n >= 2 {
                    match (&self.stack[n - 2], &self.stack[n - 1]) {
                        (Value::Number(_), Value::Number(b)) => {
                            if *b == 0 || *b == 0x8000_0000 {
                                let _ = self.pop_two();
                                return message("Cannot divide by zero");
                            }
                        },
                        _ => {},
                    }
                }
                self.arith(NumOp::Div, "Type error: '/' expects numbers")
            },
            Instructions::Modulo => self.arith(NumOp::Modulo, "Type error: '%' expects numbers"),
            Instructions::GreaterThan => self.arith(NumOp::Greater, "GreaterThan expects numbers"),
            Instructions::LessThan => self.arith(NumOp::Less, "LessThan expects numbers"),
            Instructions::Equal => match self.pop_two() {
                Some((Value::Number(a), Value::Number(b))) => {
                    self.advance();
                    Request::Compute { op: NumOp::Equal, left: a, right: b }
                },
                Some((l, r)) => {
                    let same = values_equal(&l, &r);
                    self.push_bool(same);
                    self.advance();
                    Request::Continue
                },
                None => message("Stack underflow"),
            },
            Instructions::PushString(v) => {
                let v = v.clone();
                self.push_string(v);
                self.advance();
                Request::Continue
            },
            Instructions::PushBool(b) => {
                let b = *b;
                self.push_bool(b);
                self.advance();
                Request::Continue
            },
            Instructions::PushNumber(NumberConst::Bits(bits)) => {
                let bits = *bits;
                self.push_number(bits);
                self.advance();
                Request::Continue
            },
            Instructions::PushNumber(_) => Request::Broken(owned("number without its bits")),
            Instructions::PushJmpAdress(a) => {
                let a = *a;
                self.jump_stack.push(a);
                self.advance();
                Request::Continue
            },
            Instructions::LoadVar(name) => {
                let name = name.clone();
                let found = find_key(&self.variables, name.as_str());
                proof {
                    lemma_find_last_range(keyed(self.variables@), name@);
                }
                match found {
                    Some(i) => {
                        assert(keyed(self.variables@)[i as int].1 == self.variables@[i as int].1@);
                        let v = self.variables[i].1.duplicate();
                        self.stack.push(v);
                        assert(values_view(self.stack@) =~= s.stack.push(v@));
                        self.advance();
                        Request::Continue
                    },
                    None => {
                        let mut m = owned("Variable '");
                        push_str(&mut m, name.as_str());
                        push_str(&mut m, "' not found");
                        Request::Fail(m)
                    },
                }
            },
            Instructions::SaveVar(name) => {
                let name = name.clone();
                match self.pop() {
                    Some(v) => {
                        assoc_set(&mut self.variables, &name, v);
                        self.advance();
                        Request::Continue
                    },
                    None => message("Stack underflow"),
                }
            },
            Instructions::Drop(name) => {
                let name = name.clone();
                let found = find_key(&self.variables, name.as_str());
                proof {
                    lemma_find_last_range(keyed(self.variables@), name@);
                }
                match found {
                    Some(i) => {
                        let ghost before = self.variables@;
                        let _ = self.variables.remove(i);
                        assert(keyed(self.variables@) =~= keyed(before).remove(i as int));
                    },
                    None => {},
                }
                self.advance();
                Request::Continue
            },
            Instructions::WriteLnLastOnStack => self.print_top(true),
            Instructions::WriteLastOnStack => self.print_top(false),
            Instructions::ProcessExit => match self.pop() {
                Some(Value::Number(bits)) => Request::Exit(bits),
                Some(_) => Request::Broken(owned("exit code is not a number")),
                None => message("Stack underflow"),
            },
            Instructions::JumpIfTrue(a) => {
                let a = *a;
                match self.pop() {
                    Some(Value::Bool(true)) => {
                        self.ip = a;
                        Request::Continue
                    },
                    Some(Value::Bool(false)) => {
                        self.advance();
                        Request::Continue
                    },
                    Some(_) => message("JumpIfFalse expects boolean"),
                    None => message("Stack underflow"),
                }
            },
            Instructions::JumpIfFalse(a) => {
                let a = *a;
                match self.pop() {
                    Some(Value::Bool(false)) => {
                        self.ip = a;
                        Request::Continue
                    },
                    Some(Value::Bool(true)) => {
                        self.advance();
                        Request::Continue
                    },
                    Some(_) => message("JumpIfFalse expects boolean"),
                    None => message("Stack underflow"),
                }
            },
            Instructions::Jump(a) => {
                self.ip = *a;
                Request::Continue
            },
            Instructions::JumpOnLastOnStack => match self.jump_stack.pop() {
                Some(a) => {
                    self.ip = a;
                    Request::Continue
                },
                None => Request::Broken(owned("return without a return address")),
            },
            Instructions::ReadInput => {
                self.advance();
                Request::ReadLine
            },
            Instructions::Call(_) => Request::Broken(owned("call that was never linked")),
            Instructions::Halt => {
                if n > 0 {
                    Request::Halt(Some(self.stack[0].duplicate()))
                } else {
                    Request::Halt(None)
                }
            },
        }
    }

    fn print_top(&mut self, newline: bool) -> (r: Request)
        requires
            old(self)@.ip < old(self)@.code.len(),
            old(self)@.code[old(self).ip as int] == (if newline {
                InstrV::WriteLnLastOnStack
            } else {
                InstrV::WriteLastOnStack
            }),
        ensures
            (final(self)@, r@) == vm_step(old(self)@),
    {
        match self.pop() {
            Some(Value::Bool(_)) => Request::Broken(owned("a boolean cannot be printed")),
            Some(v) => {
                self.advance();
                Request::Print { value: v, newline }
            },
            None => message("Stack underflow"),
        }
    }
}

} // verus!
