//! The errors the compiler reports, each with its code.
use vstd::prelude::*;
use crate::text::{decimal, owned, push_decimal, push_str};
use crate::types::{type_debug, ComptimeValueType};

verus! {

#[derive(Debug)]
pub enum CompileError {
    UnknownMacro { name: String },
    CannotInferType { name: String },
    UndefinedType { undefined_type: String },
    TypeMismatch { expected: ComptimeValueType, found: ComptimeValueType },
    InvalidBinaryOp { op: &'static str, left: ComptimeValueType, right: ComptimeValueType },
    UndefinedVariable { name: String },
    VariableRecreation { name: String },
    ConstantWithoutValue { name: String },
    ConstReassignment { name: String },
    WrongMacroArgCount { expected: usize, found: usize },
    ExpectedPrintable { found: ComptimeValueType },
    FunctionAlredyExists { name: String },
    UnknownFunction { name: String },
    UnexpectedFunctionArguments { name: String, expected: usize, found: usize },
    TypeAlredyExists { name_of_type: String },
    CannotReturnOutisdeOfFunction {},
    NeedToHaveSpecifiedReturnType { function_name: String },
}

/// `CompileError` with its texts as character sequences.
pub enum CErr {
    UnknownMacro(Seq<char>),
    CannotInferType(Seq<char>),
    UndefinedType(Seq<char>),
    TypeMismatch(ComptimeValueType, ComptimeValueType),
    InvalidBinaryOp(Seq<char>, ComptimeValueType, ComptimeValueType),
    UndefinedVariable(Seq<char>),
    VariableRecreation(Seq<char>),
    ConstantWithoutValue(Seq<char>),
    ConstReassignment(Seq<char>),
    WrongMacroArgCount(usize, usize),
    ExpectedPrintable(ComptimeValueType),
    FunctionAlredyExists(Seq<char>),
    UnknownFunction(Seq<char>),
    UnexpectedFunctionArguments(Seq<char>, usize, usize),
    TypeAlredyExists(Seq<char>),
    CannotReturnOutisdeOfFunction,
    NeedToHaveSpecifiedReturnType(Seq<char>),
}

impl View for CompileError {
    type V = CErr;

    open spec fn view(&self) -> CErr {
        match self {
            CompileError::UnknownMacro { name } => CErr::UnknownMacro(name@),
            CompileError::CannotInferType { name } => CErr::CannotInferType(name@),
            CompileError::UndefinedType { undefined_type } => CErr::UndefinedType(undefined_type@),
            CompileError::TypeMismatch { expected, found } => CErr::TypeMismatch(*expected, *found),
            CompileError::InvalidBinaryOp { op, left, right } => CErr::InvalidBinaryOp(
                op@,
                *left,
                *right,
            ),
            CompileError::UndefinedVariable { name } => CErr::UndefinedVariable(name@),
            CompileError::VariableRecreation { name } => CErr::VariableRecreation(name@),
            CompileError::ConstantWithoutValue { name } => CErr::ConstantWithoutValue(name@),
            CompileError::ConstReassignment { name } => CErr::ConstReassignment(name@),
            CompileError::WrongMacroArgCount { expected, found } => CErr::WrongMacroArgCount(
                *expected,
                *found,
            ),
            CompileError::ExpectedPrintable { found } => CErr::ExpectedPrintable(*found),
            CompileError::FunctionAlredyExists { name } => CErr::FunctionAlredyExists(name@),
            CompileError::UnknownFunction { name } => CErr::UnknownFunction(name@),
            CompileError::UnexpectedFunctionArguments { name, expected, found } =>
                CErr::UnexpectedFunctionArguments(name@, *expected, *found),
            CompileError::TypeAlredyExists { name_of_type } => CErr::TypeAlredyExists(
                name_of_type@,
            ),
            CompileError::CannotReturnOutisdeOfFunction {  } => CErr::CannotReturnOutisdeOfFunction,
            CompileError::NeedToHaveSpecifiedReturnType { function_name } =>
                CErr::NeedToHaveSpecifiedReturnType(function_name@),
        }
    }
}

/// The message of an error, its code first.
pub open spec fn compile_error_message(e: CErr) -> Seq<char> {
    match e {
        CErr::UnknownMacro(n) => "[E0001]Unknown macro: "@ + n,
        CErr::CannotInferType(n) => "[E0002]Cannot infer type for "@ + n,
        CErr::UndefinedType(t) => "[E0003]Undefined type: "@ + t,
        CErr::TypeMismatch(x, f) => "[E0004]Type mismatch: expected "@ + type_debug(x)
            + ", found "@ + type_debug(f),
        CErr::InvalidBinaryOp(op, l, r) => "[E0005]Invalid binary operation: "@ + op
            + " between "@ + type_debug(l) + " and "@ + type_debug(r),
        CErr::UndefinedVariable(n) => "[E0006]Undefined variable: "@ + n,
        CErr::VariableRecreation(n) => "[E0007]Variable "@ + n + " already exists"@,
        CErr::ConstantWithoutValue(_) => "[E0008]Cannot have constant without value"@,
        CErr::ConstReassignment(n) => "[E0009]Cannot reassign constant "@ + n,
        CErr::WrongMacroArgCount(x, f) => "[E0010]Wrong macro argument count: expected "@
            + decimal(x as nat) + ", found "@ + decimal(f as nat),
        CErr::ExpectedPrintable(f) => "[E0011]Expected printable but found "@ + type_debug(f),
        CErr::FunctionAlredyExists(n) => "[E0012]Function "@ + n + " is already defined"@,
        CErr::UnknownFunction(n) => "[E0013]Unknown function:"@ + n,
        CErr::UnexpectedFunctionArguments(n, x, f) =>
            "[E0014]Unexpected number of arguments at function "@ + n + ": expected "@
                + decimal(x as nat) + " but got "@ + decimal(f as nat),
        CErr::TypeAlredyExists(t) => "[E0015]Type "@ + t + " alredey exists"@,
        CErr::CannotReturnOutisdeOfFunction => "[E0015]Cannot return outside of a function"@,
        CErr::NeedToHaveSpecifiedReturnType(n) =>
            "[E0016]Need to have specifed return type at function "@ + n,
    }
}

fn concat2(a: &str, b: &str) -> (s: String)
    ensures
        s@ == a@ + b@,
{
    let mut s = owned(a);
    push_str(&mut s, b);
    s
}

fn concat3(a: &str, b: &str, c: &str) -> (s: String)
    ensures
        s@ == a@ + b@ + c@,
{
    let mut s = owned(a);
    push_str(&mut s, b);
    push_str(&mut s, c);
    s
}

impl CompileError {
    /// The human-readable message of this error.
    pub fn message(&self) -> (s: String)
        ensures
            s@ == compile_error_message(self@),
    {
        match self {
            CompileError::UnknownMacro { name } => concat2("[E0001]Unknown macro: ", name.as_str()),
            CompileError::CannotInferType { name } => concat2(
                "[E0002]Cannot infer type for ",
                name.as_str(),
            ),
            CompileError::UndefinedType { undefined_type } => concat2(
                "[E0003]Undefined type: ",
                undefined_type.as_str(),
            ),
            CompileError::TypeMismatch { expected, found } => {
                let x = expected.debug_name();
                let f = found.debug_name();
                let mut s = concat3("[E0004]Type mismatch: expected ", x.as_str(), ", found ");
                push_str(&mut s, f.as_str());
                s
            },
            CompileError::InvalidBinaryOp { op, left, right } => {
                let l = left.debug_name();
                let r = right.debug_name();
                let mut s = concat3("[E0005]Invalid binary operation: ", op, " between ");
                push_str(&mut s, l.as_str());
                push_str(&mut s, " and ");
                push_str(&mut s, r.as_str());
                s
            },
            CompileError::UndefinedVariable { name } => concat2(
                "[E0006]Undefined variable: ",
                name.as_str(),
            ),
            CompileError::VariableRecreation { name } => concat3(
                "[E0007]Variable ",
                name.as_str(),
                " already exists",
            ),
            CompileError::ConstantWithoutValue { .. } => owned(
                "[E0008]Cannot have constant without value",
            ),
            CompileError::ConstReassignment { name } => concat2(
                "[E0009]Cannot reassign constant ",
                name.as_str(),
            ),
            CompileError::WrongMacroArgCount { expected, found } => {
                let mut s = owned("[E0010]Wrong macro argument count: expected ");
                push_decimal(&mut s, *expected as u64);
                push_str(&mut s, ", found ");
                push_decimal(&mut s, *found as u64);
                s
            },
            CompileError::ExpectedPrintable { found } => {
                let f = found.debug_name();
                concat2("[E0011]Expected printable but found ", f.as_str())
            },
            CompileError::FunctionAlredyExists { name } => concat3(
                "[E0012]Function ",
                name.as_str(),
                " is already defined",
            ),
            CompileError::UnknownFunction { name } => concat2(
                "[E0013]Unknown function:",
                name.as_str(),
            ),
            CompileError::UnexpectedFunctionArguments { name, expected, found } => {
                let mut s = concat3(
                    "[E0014]Unexpected number of arguments at function ",
                    name.as_str(),
                    ": expected ",
                );
                push_decimal(&mut s, *expected as u64);
                push_str(&mut s, " but got ");
                push_decimal(&mut s, *found as u64);
                s
            },
            CompileError::TypeAlredyExists { name_of_type } => concat3(
                "[E0015]Type ",
                name_of_type.as_str(),
                " alredey exists",
            ),
            CompileError::CannotReturnOutisdeOfFunction {  } => owned(
                "[E0015]Cannot return outside of a function",
            ),
            CompileError::NeedToHaveSpecifiedReturnType { function_name } => concat2(
                "[E0016]Need to have specifed return type at function ",
                function_name.as_str(),
            ),
        }
    }
}

} // verus!
