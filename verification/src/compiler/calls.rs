//! Recorded call sites: every site that the compiler records for a function holds the call
//! of that function, until the bodies are placed and the calls linked to them.
use vstd::prelude::*;
use crate::assoc::{assoc_get, assoc_put, find_last, lemma_find_last_range};
use crate::ast::NodeV;
use crate::context::{
    ctx_add_variable, ctx_enter_function_scope, ctx_exit_function_scope, ctx_exit_scope, ctx_get_fn,
    spec_get_type, CtxV, FnV, VarV,
};
use crate::types::ComptimeValueType;
use crate::instructions::InstrV;
use super::model::{
    bind_params, emit, extends, lemma_bind_params_keeps_out, lemma_compile_grows, lemma_seq_grows,
    lemma_patch_calls_len, patch_calls, patch_sites, record_call, sc_add_functions, sc_bodies, sc_call_args, sc_compile, sc_print_args, sc_seq, tag_of, with_ctx,
    without_macro, CompilerV, Outcome,
};
use super::layout::{body_exit, body_start, else_start};
use super::laws::{lemma_seq_keeps_scopes, scopes_kept};

verus! {

/// Every site recorded for a function lies in the code and holds the call of that function.
pub open spec fn sites_ok(out: Seq<InstrV>, calls: Seq<(Seq<char>, Seq<usize>)>) -> bool {
    forall|i: int, j: int|
        0 <= i < calls.len() && 0 <= j < calls[i].1.len() ==> (#[trigger] calls[i].1[j]) < out.len()
            && out[calls[i].1[j] as int] == InstrV::Call(calls[i].0)
}

pub open spec fn calls_ok(s: CompilerV) -> bool {
    sites_ok(s.out, s.calls)
}

pub proof fn lemma_sites_extend(out: Seq<InstrV>, more: Seq<InstrV>, calls: Seq<(Seq<char>, Seq<usize>)>)
    requires
        sites_ok(out, calls),
        extends(out, more),
    ensures
        sites_ok(more, calls),
{
    assert forall|i: int, j: int| 0 <= i < calls.len() && 0 <= j < calls[i].1.len() implies (#[trigger] calls[i].1[j])
        < more.len() && more[calls[i].1[j] as int] == InstrV::Call(calls[i].0) by {
        assert(more[calls[i].1[j] as int] == out[calls[i].1[j] as int]);
    }
}

/// Overwriting an instruction that is no call keeps every recorded site.
pub proof fn lemma_sites_update(out: Seq<InstrV>, calls: Seq<(Seq<char>, Seq<usize>)>, k: int, x: InstrV)
    requires
        sites_ok(out, calls),
        0 <= k < out.len(),
        !(out[k] is Call),
    ensures
        sites_ok(out.update(k, x), calls),
{
    assert forall|i: int, j: int| 0 <= i < calls.len() && 0 <= j < calls[i].1.len() implies (#[trigger] calls[i].1[j])
        < out.update(k, x).len() && out.update(k, x)[calls[i].1[j] as int] == InstrV::Call(calls[i].0) by {
        assert(calls[i].1[j] != k);
    }
}

proof fn lemma_sites_emit(s: CompilerV, x: InstrV)
    requires
        calls_ok(s),
    ensures
        calls_ok(emit(s, x)),
{
    lemma_sites_extend(s.out, s.out.push(x), s.calls);
}

proof fn lemma_sites_record(s: CompilerV, name: Seq<char>)
    requires
        calls_ok(s),
        s.out.len() > 0,
        s.out.last() == InstrV::Call(name),
        s.out.len() - 1 <= usize::MAX,
    ensures
        calls_ok(CompilerV { calls: record_call(s.calls, name, (s.out.len() - 1) as usize), ..s }),
{
    let at = (s.out.len() - 1) as usize;
    let calls = s.calls;
    lemma_find_last_range(calls, name);
    let k = find_last(calls, name);
    let before = match assoc_get(calls, name) {
        Some(v) => v,
        None => seq![],
    };
    let nc = assoc_put(calls, name, before.push(at));
    assert(nc == record_call(calls, name, at));
    assert forall|i: int, j: int| 0 <= i < nc.len() && 0 <= j < nc[i].1.len() implies (#[trigger] nc[i].1[j])
        < s.out.len() && s.out[nc[i].1[j] as int] == InstrV::Call(nc[i].0) by {
        if i == k || (k < 0 && i == calls.len()) {
            if j < before.len() {
                assert(nc[i].1[j] == calls[i].1[j]);
            }
        } else {
            assert(nc[i] == calls[i]);
        }
    }
}

/// Compiling keeps every recorded site, and records only sites that hold their calls.
#[verifier::rlimit(40)]
pub proof fn lemma_compile_sites(s: CompilerV, n: NodeV)
    requires
        calls_ok(s),
    ensures
        sc_compile(s, n) matches Outcome::Done(s1, _) ==> calls_ok(s1),
    decreases n,
{
    lemma_compile_grows(s, n);
    match n {
        NodeV::BinaryOp(l, r, op) => {
            lemma_compile_sites(s, *l);
            if let Outcome::Done(s1, _) = sc_compile(s, *l) {
                lemma_compile_sites(s1, *r);
                lemma_compile_grows(s1, *r);
            }
        },
        NodeV::VariableDefine(name, written, value, is_const, _) => {
            if let Some(v) = value {
                lemma_compile_sites(s, *v);
            }
        },
        NodeV::VariableAssign(name, value) => {
            lemma_compile_sites(s, *value);
        },
        NodeV::FunctionCall(args, name, call_type, _) => {
            let t = without_macro(s, name);
            lemma_print_args_sites(t, args, InstrV::WriteLnLastOnStack);
            lemma_print_args_sites(t, args, InstrV::WriteLastOnStack);
            if args.len() > 0 {
                lemma_compile_sites(t, args[0]);
            }
            if let Ok(f) = ctx_get_fn(s.ctx, name) {
                lemma_call_args_sites(s, args, f.args, name);
                if let Outcome::Done(s1, _) = sc_call_args(s, args, f.args, name) {
                    if s1.out.len() + 2 <= usize::MAX {
                        let s2 = emit(emit(s1, InstrV::PushJmpAdress((s1.out.len() + 2) as usize)), InstrV::Call(name));
                        lemma_sites_emit(s1, InstrV::PushJmpAdress((s1.out.len() + 2) as usize));
                        lemma_sites_emit(emit(s1, InstrV::PushJmpAdress((s1.out.len() + 2) as usize)), InstrV::Call(name));
                        lemma_sites_record(s2, name);
                    }
                }
            }
        },
        NodeV::Return(value) => {
            if let Some(v) = value {
                lemma_compile_sites(s, *v);
            }
        },
        NodeV::Loop(body) => {
            lemma_seq_sites(s, body);
        },
        NodeV::If(cond, then_branch, else_branch) => {
            lemma_compile_sites(s, *cond);
            if let Outcome::Done(s1, _) = sc_compile(s, *cond) {
                let s2e = body_start(s1);
                lemma_sites_emit(s1, InstrV::JumpIfFalse(0));
                lemma_seq_sites(s2e, then_branch);
                lemma_seq_grows(s2e, then_branch);
                if let Outcome::Done(s3, _) = sc_seq(s2e, then_branch) {
                    let s4 = with_ctx(s3, ctx_exit_scope(s3.ctx));
                    let s5 = emit(s4, InstrV::Jump(0));
                    lemma_sites_emit(s4, InstrV::Jump(0));
                    assert(s5.out[s1.out.len() as int] == InstrV::JumpIfFalse(0));
                    lemma_sites_update(s5.out, s5.calls, s1.out.len() as int, InstrV::JumpIfFalse(s5.out.len() as usize));
                    let s7 = else_start(s1, s3);
                    let s8 = match else_branch {
                        Some(e) => sc_seq(s7, e)->Done_0,
                        None => s7,
                    };
                    if let Some(e) = else_branch {
                        lemma_seq_sites(s7, e);
                        lemma_seq_grows(s7, e);
                    }
                    if else_branch is None || sc_seq(s7, else_branch->Some_0) is Done {
                        assert(s8.out[s3.out.len() as int] == InstrV::Jump(0));
                        lemma_sites_update(s8.out, s8.calls, s3.out.len() as int, InstrV::Jump(s8.out.len() as usize));
                    }
                }
            }
        },
        NodeV::While(cond, body) => {
            lemma_compile_sites(s, *cond);
            if let Outcome::Done(s1, _) = sc_compile(s, *cond) {
                let s2e = body_start(s1);
                lemma_sites_emit(s1, InstrV::JumpIfFalse(0));
                lemma_seq_sites(s2e, body);
                lemma_seq_grows(s2e, body);
                if let Outcome::Done(s3, _) = sc_seq(s2e, body) {
                    if s3.ctx.scopes.len() > 0 {
                        let s4 = body_exit(s3);
                        lemma_sites_extend(s3.out, s4.out, s3.calls);
                        lemma_compile_sites(s4, *cond);
                        lemma_compile_grows(s4, *cond);
                        if let Outcome::Done(s5, _) = sc_compile(s4, *cond) {
                            let s6 = emit(s5, InstrV::JumpIfTrue((s1.out.len() + 1) as usize));
                            lemma_sites_emit(s5, InstrV::JumpIfTrue((s1.out.len() + 1) as usize));
                            assert(s6.out[s1.out.len() as int] == InstrV::JumpIfFalse(0));
                            lemma_sites_update(s6.out, s6.calls, s1.out.len() as int, InstrV::JumpIfFalse(s6.out.len() as usize));
                        }
                    }
                }
            }
        },
        _ => {},
    }
    if let Outcome::Done(s1, _) = sc_compile(s, n) {
        if s1.calls == s.calls {
            lemma_sites_extend(s.out, s1.out, s.calls);
        }
    }
}

pub proof fn lemma_seq_sites(s: CompilerV, v: Seq<NodeV>)
    requires
        calls_ok(s),
    ensures
        sc_seq(s, v) matches Outcome::Done(s1, _) ==> calls_ok(s1),
    decreases v,
{
    if v.len() > 0 {
        lemma_compile_sites(s, v[0]);
        if let Outcome::Done(s1, _) = sc_compile(s, v[0]) {
            lemma_seq_sites(s1, v.drop_first());
        }
    }
}

pub proof fn lemma_call_args_sites(
    s: CompilerV,
    args: Seq<NodeV>,
    params: Seq<(Seq<char>, Seq<char>)>,
    fname: Seq<char>,
)
    requires
        calls_ok(s),
    ensures
        sc_call_args(s, args, params, fname) matches Outcome::Done(s1, _) ==> calls_ok(s1),
    decreases args,
{
    if args.len() > 0 && params.len() > 0 {
        lemma_compile_sites(s, args[0]);
        if let Outcome::Done(s1, t) = sc_compile(s, args[0]) {
            let s2 = emit(s1, InstrV::SaveVar(tag_of(params[0].0, fname)));
            lemma_sites_emit(s1, InstrV::SaveVar(tag_of(params[0].0, fname)));
            lemma_call_args_sites(s2, args.drop_first(), params.drop_first(), fname);
        }
    }
}

pub proof fn lemma_print_args_sites(s: CompilerV, args: Seq<NodeV>, print: InstrV)
    requires
        calls_ok(s),
    ensures
        sc_print_args(s, args, print) matches Outcome::Done(s1, _) ==> calls_ok(s1),
    decreases args,
{
    if args.len() > 0 {
        lemma_compile_sites(s, args[0]);
        if let Outcome::Done(s1, t) = sc_compile(s, args[0]) {
            lemma_sites_emit(s1, print);
            lemma_print_args_sites(emit(s1, print), args.drop_first(), print);
        }
    }
}

/// Where body `k` of `bs` ends in code of length `len`: where the next one starts, or at
/// the end of the code for the last.
pub open spec fn body_end(len: int, bs: Seq<(Seq<char>, usize)>, k: int) -> int {
    if k + 1 < bs.len() {
        bs[k + 1].1 as int
    } else {
        len
    }
}

/// Where the bodies `bs` lie in `out`, the first starting at `lo`: each body begins where
/// the one before it ended, and ends with the return to the caller; the last ends the code.
pub open spec fn bodies_placed(lo: int, out: Seq<InstrV>, bs: Seq<(Seq<char>, usize)>) -> bool {
    &&& bs.len() > 0 ==> bs[0].1 == lo
    &&& bs.len() == 0 ==> out.len() == lo
    &&& forall|k: int|
        0 <= k < bs.len() ==> (#[trigger] bs[k]).1 < body_end(out.len() as int, bs, k) && body_end(
            out.len() as int,
            bs,
            k,
        ) <= out.len() && out[body_end(out.len() as int, bs, k) - 1] == InstrV::JumpOnLastOnStack
}

/// Compiles the body of the function `name` as `sc_bodies` does, from its scope to the
/// return at its end.
pub open spec fn one_body(s: CompilerV, name: Seq<char>, f: FnV) -> Outcome<()> {
    let depth = s.ctx.function_depth;
    let c1 = ctx_enter_function_scope(s.ctx);
    let s1 = with_ctx(s, CtxV { function_depth: (depth + 1) as usize, ..c1 });
    match bind_params(s1, f.args, name) {
        Outcome::Done(s2, _) => {
            let s3 = with_ctx(s2, CtxV { return_type: f.return_type, ..s2.ctx });
            match sc_seq(s3, f.body) {
                Outcome::Done(s4, _) => {
                    let s5 = emit(s4, InstrV::JumpOnLastOnStack);
                    let c6 = ctx_exit_function_scope(s5.ctx);
                    Outcome::Done(
                        with_ctx(s5, CtxV { return_type: ComptimeValueType::Void, function_depth: depth, ..c6 }),
                        (),
                    )
                },
                Outcome::Fail(s4, e) => Outcome::Fail(s4, e),
                Outcome::Abort => Outcome::Abort,
            }
        },
        Outcome::Fail(s2, e) => Outcome::Fail(s2, e),
        Outcome::Abort => Outcome::Abort,
    }
}

proof fn lemma_one_body(s: CompilerV, fns: Seq<(Seq<char>, FnV)>, starts: Seq<(Seq<char>, usize)>)
    requires
        calls_ok(s),
        fns.len() > 0,
        s.ctx.function_depth < usize::MAX,
    ensures
        sc_bodies(s, fns, starts) == match one_body(s, fns[0].0, fns[0].1) {
            Outcome::Done(s6, _) => sc_bodies(
                s6,
                fns.drop_first(),
                starts.push((fns[0].0, s.out.len() as usize)),
            ),
            Outcome::Fail(s4, e) => Outcome::Fail(s4, e),
            Outcome::Abort => Outcome::Abort,
        },
        one_body(s, fns[0].0, fns[0].1) matches Outcome::Done(s6, _) ==> {
            &&& calls_ok(s6)
            &&& extends(s.out, s6.out)
            &&& s6.out.len() > s.out.len()
            &&& s6.out.last() == InstrV::JumpOnLastOnStack
        },
{
    let name = fns[0].0;
    let f = fns[0].1;
    let depth = s.ctx.function_depth;
    let c1 = ctx_enter_function_scope(s.ctx);
    let s1 = with_ctx(s, CtxV { function_depth: (depth + 1) as usize, ..c1 });
    lemma_bind_params_keeps_out(s1, f.args, name);
    if let Outcome::Done(s2, _) = bind_params(s1, f.args, name) {
        let s3 = with_ctx(s2, CtxV { return_type: f.return_type, ..s2.ctx });
        lemma_seq_sites(s3, f.body);
        lemma_seq_grows(s3, f.body);
        if let Outcome::Done(s4, _) = sc_seq(s3, f.body) {
            lemma_sites_emit(s4, InstrV::JumpOnLastOnStack);
        }
    }
}

proof fn lemma_placed_cons(lo: int, mid: int, out: Seq<InstrV>, bs: Seq<(Seq<char>, usize)>)
    requires
        bs.len() > 0,
        bs[0].1 == lo,
        lo < mid <= out.len(),
        out[mid - 1] == InstrV::JumpOnLastOnStack,
        bodies_placed(mid, out, bs.drop_first()),
    ensures
        bodies_placed(lo, out, bs),
{
    let bs1 = bs.drop_first();
    assert forall|k: int| 0 <= k < bs.len() implies (#[trigger] bs[k]).1 < body_end(out.len() as int, bs, k)
        && body_end(out.len() as int, bs, k) <= out.len() && out[body_end(out.len() as int, bs, k) - 1]
        == InstrV::JumpOnLastOnStack by {
        if k > 0 {
            assert(bs[k] == bs1[k - 1]);
            if k + 1 < bs.len() {
                assert(bs[k + 1] == bs1[k]);
            }
        } else if bs.len() > 1 {
            assert(bs[1] == bs1[0]);
        }
    }
}

#[verifier::rlimit(100)]
#[verifier::spinoff_prover]
proof fn lemma_bodies_sites(s: CompilerV, fns: Seq<(Seq<char>, FnV)>, starts: Seq<(Seq<char>, usize)>)
    requires
        calls_ok(s),
    ensures
        sc_bodies(s, fns, starts) matches Outcome::Done(s2, st2) ==> {
            &&& calls_ok(s2)
            &&& extends(s.out, s2.out)
            &&& st2.len() == starts.len() + fns.len()
            &&& st2.take(starts.len() as int) == starts
            &&& forall|k: int| 0 <= k < fns.len() ==> (#[trigger] st2[starts.len() + k]).0 == fns[k].0
            &&& (s2.out.len() <= usize::MAX ==> bodies_placed(
                s.out.len() as int,
                s2.out,
                st2.skip(starts.len() as int),
            ))
        },
    decreases fns.len(),
{
    if fns.len() == 0 {
        if let Outcome::Done(s2, st2) = sc_bodies(s, fns, starts) {
            assert(st2.take(starts.len() as int) =~= starts);
            assert(st2.skip(starts.len() as int) =~= Seq::<(Seq<char>, usize)>::empty());
        }
    } else if s.ctx.function_depth < usize::MAX {
        lemma_one_body(s, fns, starts);
        if let Outcome::Done(s6, _) = one_body(s, fns[0].0, fns[0].1) {
            let start = s.out.len() as usize;
            let starts1 = starts.push((fns[0].0, start));
            let rest = fns.drop_first();
            lemma_bodies_sites(s6, rest, starts1);
            if let Outcome::Done(sf, st2) = sc_bodies(s6, rest, starts1) {
                assert(st2.take(starts.len() as int) =~= starts1.take(starts.len() as int));
                assert(starts1.take(starts.len() as int) =~= starts);
                assert(st2[starts.len() as int] == starts1[starts.len() as int]);
                assert forall|k: int| 0 <= k < fns.len() implies (#[trigger] st2[starts.len() + k]).0
                    == fns[k].0 by {
                    if k > 0 {
                        assert(st2[starts1.len() + (k - 1)] == st2[starts.len() + k]);
                        assert(rest[k - 1] == fns[k]);
                    }
                }
                if sf.out.len() <= usize::MAX {
                    let bs = st2.skip(starts.len() as int);
                    assert(st2.skip(starts1.len() as int) =~= bs.drop_first());
                    assert(sf.out[s6.out.len() - 1] == s6.out[s6.out.len() - 1]);
                    lemma_placed_cons(s.out.len() as int, s6.out.len() as int, sf.out, bs);
                }
            }
        }
    }
}

/// The sites recorded for `name`.
pub open spec fn sites_of(calls: Seq<(Seq<char>, Seq<usize>)>, name: Seq<char>) -> Seq<usize> {
    match assoc_get(calls, name) {
        Some(v) => v,
        None => seq![],
    }
}

proof fn lemma_patch_sites(out: Seq<InstrV>, sites: Seq<usize>, addr: usize, name: Seq<char>)
    requires
        forall|j: int| 0 <= j < sites.len() ==> (#[trigger] sites[j]) < out.len() && (out[sites[j] as int]
            == InstrV::Call(name) || out[sites[j] as int] == InstrV::Jump(addr)),
    ensures
        patch_sites(out, sites, addr) matches Some(o) && o.len() == out.len() && (forall|j: int|
            0 <= j < sites.len() ==> o[(#[trigger] sites[j]) as int] == InstrV::Jump(addr)) && (forall|
            idx: int,
        | 0 <= idx < out.len() && out[idx] != InstrV::Call(name) ==> #[trigger] o[idx] == out[idx]),
    decreases sites.len(),
{
    if sites.len() > 0 {
        let o1 = out.update(sites[0] as int, InstrV::Jump(addr));
        let rest = sites.drop_first();
        assert forall|j: int| 0 <= j < rest.len() implies (#[trigger] rest[j]) < o1.len() && (o1[rest[j] as int]
            == InstrV::Call(name) || o1[rest[j] as int] == InstrV::Jump(addr)) by {
            assert(rest[j] == sites[j + 1]);
        }
        lemma_patch_sites(o1, rest, addr, name);
        let o = patch_sites(o1, rest, addr)->Some_0;
        assert forall|j: int| 0 <= j < sites.len() implies o[(#[trigger] sites[j]) as int] == InstrV::Jump(addr) by {
            if j > 0 {
                assert(sites[j] == rest[j - 1]);
            } else {
                assert(o1[sites[0] as int] == InstrV::Jump(addr));
            }
        }
    }
}

proof fn lemma_patch_calls(
    out: Seq<InstrV>,
    starts: Seq<(Seq<char>, usize)>,
    calls: Seq<(Seq<char>, Seq<usize>)>,
)
    requires
        forall|a: int, b: int| 0 <= a < b < starts.len() ==> (#[trigger] starts[a]).0 != (#[trigger] starts[b]).0,
        forall|k: int, j: int|
            0 <= k < starts.len() && 0 <= j < sites_of(calls, starts[k].0).len() ==> (#[trigger] sites_of(
                calls,
                starts[k].0,
            )[j]) < out.len() && out[sites_of(calls, starts[k].0)[j] as int] == InstrV::Call(starts[k].0),
    ensures
        patch_calls(out, starts, calls) matches Some(o) && o.len() == out.len() && (forall|idx: int|
            0 <= idx < out.len() && !(out[idx] is Call) ==> #[trigger] o[idx] == out[idx]) && (forall|
            k: int,
            j: int,
        |
            0 <= k < starts.len() && 0 <= j < sites_of(calls, starts[k].0).len() ==> o[(#[trigger] sites_of(
                calls,
                starts[k].0,
            )[j]) as int] == InstrV::Jump(starts[k].1)),
    decreases starts.len(),
{
    if starts.len() > 0 {
        let n0 = starts[0].0;
        let sites = sites_of(calls, n0);
        assert(sites == match assoc_get(calls, n0) {
            Some(v) => v,
            None => Seq::<usize>::empty(),
        });
        assert forall|j: int| 0 <= j < sites.len() implies (#[trigger] sites[j]) < out.len() && (out[sites[j] as int]
            == InstrV::Call(n0) || out[sites[j] as int] == InstrV::Jump(starts[0].1)) by {
            assert(sites_of(calls, starts[0].0)[j] == sites[j]);
        }
        lemma_patch_sites(out, sites, starts[0].1, n0);
        let o1 = patch_sites(out, sites, starts[0].1)->Some_0;
        let rest = starts.drop_first();
        assert forall|k: int, j: int|
            0 <= k < rest.len() && 0 <= j < sites_of(calls, rest[k].0).len() implies (#[trigger] sites_of(
                calls,
                rest[k].0,
            )[j]) < o1.len() && o1[sites_of(calls, rest[k].0)[j] as int] == InstrV::Call(rest[k].0) by {
            assert(rest[k] == starts[k + 1]);
            assert(starts[0].0 != starts[k + 1].0);
            let site = sites_of(calls, starts[k + 1].0)[j];
            assert(out[site as int] == InstrV::Call(starts[k + 1].0));
        }
        assert forall|a: int, b: int| 0 <= a < b < rest.len() implies (#[trigger] rest[a]).0 != (#[trigger] rest[b]).0 by {
            assert(rest[a] == starts[a + 1] && rest[b] == starts[b + 1]);
        }
        lemma_patch_calls(o1, rest, calls);
        let o = patch_calls(o1, rest, calls)->Some_0;
        assert forall|k: int, j: int|
            0 <= k < starts.len() && 0 <= j < sites_of(calls, starts[k].0).len() implies o[(#[trigger] sites_of(
                calls,
                starts[k].0,
            )[j]) as int] == InstrV::Jump(starts[k].1) by {
            if k == 0 {
                let site = sites[j];
                assert(o1[site as int] == InstrV::Jump(starts[0].1));
                assert(o[site as int] == o1[site as int]);
            } else {
                assert(rest[k - 1] == starts[k]);
                assert(sites_of(calls, rest[k - 1].0)[j] == sites_of(calls, starts[k].0)[j]);
            }
        }
        assert forall|idx: int| 0 <= idx < out.len() && !(out[idx] is Call) implies #[trigger] o[idx] == out[idx] by {
            assert(o1[idx] == out[idx]);
        }
    }
}

proof fn lemma_bind_params_scopes(s: CompilerV, params: Seq<(Seq<char>, Seq<char>)>, fname: Seq<char>)
    ensures
        bind_params(s, params, fname) matches Outcome::Done(s1, _) ==> scopes_kept(s.ctx, s1.ctx),
    decreases params.len(),
{
    if params.len() > 0 {
        if let Ok(t) = spec_get_type(params[0].1) {
            if s.ctx.scopes.len() > 0 {
                let v = VarV { value_type: t, tag: tag_of(params[0].0, fname), is_const: false };
                if let (c, Ok(_)) = ctx_add_variable(s.ctx, params[0].0, v) {
                    lemma_bind_params_scopes(with_ctx(s, c), params.drop_first(), fname);
                }
            }
        }
    }
}

proof fn lemma_one_body_scopes(s: CompilerV, name: Seq<char>, f: FnV)
    requires
        s.ctx.scopes.len() < usize::MAX,
    ensures
        one_body(s, name, f) matches Outcome::Done(s6, _) ==> s6.ctx.scopes == s.ctx.scopes,
{
    let depth = s.ctx.function_depth;
    let c1 = ctx_enter_function_scope(s.ctx);
    let s1 = with_ctx(s, CtxV { function_depth: (depth + 1) as usize, ..c1 });
    lemma_bind_params_scopes(s1, f.args, name);
    if let Outcome::Done(s2, _) = bind_params(s1, f.args, name) {
        let s3 = with_ctx(s2, CtxV { return_type: f.return_type, ..s2.ctx });
        lemma_seq_keeps_scopes(s3, f.body);
        if let Outcome::Done(s4, _) = sc_seq(s3, f.body) {
            let n = s.ctx.scopes.len() as int;
            assert(s4.ctx.scopes.take(n) =~= s.ctx.scopes) by {
                assert forall|i: int| 0 <= i < n implies s4.ctx.scopes[i] == s.ctx.scopes[i] by {
                    assert(s3.ctx.scopes[i] == s1.ctx.scopes[i]);
                    assert(s1.ctx.scopes[i] == s.ctx.scopes[i]);
                }
            }
        }
    }
}

/// Placing the bodies leaves the scopes of the code around them as they were.
proof fn lemma_bodies_scopes(s: CompilerV, fns: Seq<(Seq<char>, FnV)>, starts: Seq<(Seq<char>, usize)>)
    requires
        calls_ok(s),
        s.ctx.scopes.len() < usize::MAX,
    ensures
        sc_bodies(s, fns, starts) matches Outcome::Done(s2, _) ==> s2.ctx.scopes == s.ctx.scopes,
    decreases fns.len(),
{
    if fns.len() > 0 && s.ctx.function_depth < usize::MAX {
        lemma_one_body(s, fns, starts);
        lemma_one_body_scopes(s, fns[0].0, fns[0].1);
        if let Outcome::Done(s6, _) = one_body(s, fns[0].0, fns[0].1) {
            lemma_bodies_scopes(s6, fns.drop_first(), starts.push((fns[0].0, s.out.len() as usize)));
        }
    }
}

proof fn lemma_named_sites(out: Seq<InstrV>, st: Seq<(Seq<char>, usize)>, calls: Seq<(Seq<char>, Seq<usize>)>)
    requires
        sites_ok(out, calls),
    ensures
        forall|k: int, j: int|
            0 <= k < st.len() && 0 <= j < sites_of(calls, st[k].0).len() ==> (#[trigger] sites_of(
                calls,
                st[k].0,
            )[j]) < out.len() && out[sites_of(calls, st[k].0)[j] as int] == InstrV::Call(st[k].0),
{
    assert forall|k: int, j: int|
        0 <= k < st.len() && 0 <= j < sites_of(calls, st[k].0).len() implies (#[trigger] sites_of(
            calls,
            st[k].0,
        )[j]) < out.len() && out[sites_of(calls, st[k].0)[j] as int] == InstrV::Call(st[k].0) by {
        let name = st[k].0;
        lemma_find_last_range(calls, name);
        let i = find_last(calls, name);
        assert(sites_of(calls, name) == calls[i].1);
        assert(calls[i].1[j] == sites_of(calls, name)[j]);
    }
}

/// Linking the calls and aiming the jump at `p` over the bodies.
#[verifier::rlimit(60)]
proof fn lemma_link_bodies(out: Seq<InstrV>, st: Seq<(Seq<char>, usize)>, calls: Seq<(Seq<char>, Seq<usize>)>, p: int)
    requires
        sites_ok(out, calls),
        forall|a: int, b: int| 0 <= a < b < st.len() ==> (#[trigger] st[a]).0 != (#[trigger] st[b]).0,
        bodies_placed(p + 1, out, st),
        0 <= p < out.len(),
        out[p] == InstrV::Jump(0),
    ensures
        patch_calls(out, st, calls) matches Some(o) && ({
            let f = o.update(p, InstrV::Jump(o.len() as usize));
            &&& f.len() == out.len()
            &&& f[p] == InstrV::Jump(f.len() as usize)
            &&& bodies_placed(p + 1, f, st)
            &&& forall|k: int, j: int|
                0 <= k < st.len() && 0 <= j < sites_of(calls, st[k].0).len() ==> f[(#[trigger] sites_of(
                    calls,
                    st[k].0,
                )[j]) as int] == InstrV::Jump(st[k].1)
        }),
{
    lemma_named_sites(out, st, calls);
    lemma_patch_calls(out, st, calls);
    let o = patch_calls(out, st, calls)->Some_0;
    let f = o.update(p, InstrV::Jump(o.len() as usize));
    assert forall|k: int, j: int|
        0 <= k < st.len() && 0 <= j < sites_of(calls, st[k].0).len() implies f[(#[trigger] sites_of(
            calls,
            st[k].0,
        )[j]) as int] == InstrV::Jump(st[k].1) by {
        let site = sites_of(calls, st[k].0)[j];
        assert(out[site as int] == InstrV::Call(st[k].0));
        assert(site != p);
    }
    assert forall|idx: int| p + 1 <= idx < out.len() && out[idx] == InstrV::JumpOnLastOnStack implies #[trigger] f[idx]
        == InstrV::JumpOnLastOnStack by {
        assert(o[idx] == out[idx]);
    }
    lemma_placed_transfer(p + 1, out, f, st);
}

proof fn lemma_placed_transfer(lo: int, a: Seq<InstrV>, b: Seq<InstrV>, bs: Seq<(Seq<char>, usize)>)
    requires
        bodies_placed(lo, a, bs),
        b.len() == a.len(),
        forall|idx: int| lo <= idx < a.len() && a[idx] == InstrV::JumpOnLastOnStack ==> #[trigger] b[idx]
            == InstrV::JumpOnLastOnStack,
    ensures
        bodies_placed(lo, b, bs),
{
    assert forall|k: int| 0 <= k < bs.len() implies (#[trigger] bs[k]).1 < body_end(b.len() as int, bs, k)
        && body_end(b.len() as int, bs, k) <= b.len() && b[body_end(b.len() as int, bs, k) - 1]
        == InstrV::JumpOnLastOnStack by {
        let end = body_end(a.len() as int, bs, k);
        assert(bs[k].1 < end && end <= a.len() && a[end - 1] == InstrV::JumpOnLastOnStack);
        assert(end == body_end(b.len() as int, bs, k));
        lemma_starts_after(lo, a, bs, k);
    }
}

/// The code that `add_functions` appends and links: a jump over all the bodies at the end
/// of the main code, then each declared function's body in declaration order, each ending
/// with the return to its caller, and every recorded call of a function replaced by a jump
/// to the start of its body; the scopes of the code around the bodies stay as they were.
/// Function names are distinct, as declaring refuses a second one, and the recorded calls
/// are those compiling recorded.
#[verifier::rlimit(60)]
pub proof fn lemma_add_functions_layout(s: CompilerV)
    requires
        calls_ok(s),
        forall|a: int, b: int|
            0 <= a < b < s.ctx.functions.len() ==> (#[trigger] s.ctx.functions[a]).0
                != (#[trigger] s.ctx.functions[b]).0,
        sc_add_functions(s) is Done,
        sc_add_functions(s)->Done_0.out.len() <= usize::MAX,
        s.ctx.scopes.len() < usize::MAX,
    ensures
        ({
            let fns = s.ctx.functions;
            let s1 = emit(s, InstrV::Jump(0));
            let b = sc_bodies(s1, fns, seq![]);
            let s2 = b->Done_0;
            let st = b->Done_1;
            let f = sc_add_functions(s)->Done_0;
            &&& b is Done
            &&& f.ctx.scopes == s.ctx.scopes
            &&& f.out.len() == s2.out.len()
            &&& f.out[s.out.len() as int] == InstrV::Jump(f.out.len() as usize)
            &&& st.len() == fns.len()
            &&& forall|k: int| 0 <= k < fns.len() ==> (#[trigger] st[k]).0 == fns[k].0
            &&& bodies_placed(s.out.len() + 1int, f.out, st)
            &&& forall|k: int, j: int|
                0 <= k < st.len() && 0 <= j < sites_of(s2.calls, st[k].0).len() ==> f.out[(#[trigger] sites_of(
                    s2.calls,
                    st[k].0,
                )[j]) as int] == InstrV::Jump(st[k].1)
        }),
{
    let fns = s.ctx.functions;
    let s1 = emit(s, InstrV::Jump(0));
    lemma_sites_emit(s, InstrV::Jump(0));
    let empty: Seq<(Seq<char>, usize)> = seq![];
    lemma_bodies_sites(s1, fns, empty);
    lemma_bodies_scopes(s1, fns, empty);
    let b = sc_bodies(s1, fns, empty);
    let s2 = b->Done_0;
    let st = b->Done_1;
    assert(st.skip(0) =~= st);
    assert forall|k: int| 0 <= k < fns.len() implies (#[trigger] st[k]).0 == fns[k].0 by {
        assert(st[empty.len() + k] == st[k]);
    }
    assert forall|a: int, c: int| 0 <= a < c < st.len() implies (#[trigger] st[a]).0 != (#[trigger] st[c]).0 by {
        assert(st[a].0 == fns[a].0 && st[c].0 == fns[c].0);
    }
    assert(s2.out[s.out.len() as int] == s1.out[s.out.len() as int]);
    lemma_patch_calls_len(s2.out, st, s2.calls);
    lemma_link_bodies(s2.out, st, s2.calls, s.out.len() as int);
}

proof fn lemma_starts_after(lo: int, out: Seq<InstrV>, bs: Seq<(Seq<char>, usize)>, k: int)
    requires
        bodies_placed(lo, out, bs),
        0 <= k < bs.len(),
    ensures
        bs[k].1 >= lo,
    decreases k,
{
    if k > 0 {
        lemma_starts_after(lo, out, bs, k - 1);
        assert(body_end(out.len() as int, bs, k - 1) == bs[k].1);
        assert(bs[k - 1].1 < bs[k].1);
    }
}

} // verus!
