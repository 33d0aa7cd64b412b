//! Symbols shared between modules, and linking compiled modules into one program.
use vstd::prelude::*;
use crate::assoc::keyed;
use crate::instructions::{instrs_view, InstrV, Instructions};
use crate::types::ComptimeValueType;

verus! {

#[derive(Debug, Clone, Copy, PartialEq, Eq, Structural)]
pub enum SymbolType {
    Function,
    Variable,
}

/// A name defined at the top level of a module.
pub struct Symbol {
    pub symbol_value_type: Option<ComptimeValueType>,
    pub symbol_type: SymbolType,
    pub is_constant: bool,
    pub tag: String,
}

pub struct SymbolV {
    pub value_type: Option<ComptimeValueType>,
    pub symbol_type: SymbolType,
    pub is_constant: bool,
    pub tag: Seq<char>,
}

impl View for Symbol {
    type V = SymbolV;

    open spec fn view(&self) -> SymbolV {
        SymbolV {
            value_type: self.symbol_value_type,
            symbol_type: self.symbol_type,
            is_constant: self.is_constant,
            tag: self.tag@,
        }
    }
}

/// The names that modules make visible to one another.
pub struct GlobalSymbols {
    pub symbols: Vec<(String, Symbol)>,
}

impl View for GlobalSymbols {
    type V = Seq<(Seq<char>, SymbolV)>;

    open spec fn view(&self) -> Seq<(Seq<char>, SymbolV)> {
        keyed(self.symbols@)
    }
}

/// The compiled form of one source file.
pub struct ObjFile {
    pub instructions: Vec<Instructions>,
    pub name: String,
    pub imports: Vec<String>,
}

pub struct Linker;

/// An instruction moved `offset` places further down: jump targets follow it.
pub open spec fn shifted(i: InstrV, offset: int) -> InstrV {
    match i {
        InstrV::Jump(a) => InstrV::Jump((a + offset) as usize),
        InstrV::JumpIfTrue(a) => InstrV::JumpIfTrue((a + offset) as usize),
        InstrV::JumpIfFalse(a) => InstrV::JumpIfFalse((a + offset) as usize),
        _ => i,
    }
}

pub open spec fn shift_all(s: Seq<InstrV>, offset: int) -> Seq<InstrV> {
    s.map_values(|i: InstrV| shifted(i, offset))
}

/// Whether every jump target of `s`, moved by `offset`, still fits a `usize`.
pub open spec fn shift_fits(s: Seq<InstrV>, offset: int) -> bool {
    forall|k: int|
        0 <= k < s.len() ==> match #[trigger] s[k] {
            InstrV::Jump(a) => a + offset <= usize::MAX,
            InstrV::JumpIfTrue(a) => a + offset <= usize::MAX,
            InstrV::JumpIfFalse(a) => a + offset <= usize::MAX,
            _ => true,
        }
}

/// The modules' code one after another, each module's jump targets moved by the length of
/// the code before it.
pub open spec fn linked(objs: Seq<Seq<InstrV>>) -> Seq<InstrV>
    decreases objs.len(),
{
    if objs.len() == 0 {
        seq![]
    } else {
        let before = linked(objs.drop_last());
        before + shift_all(objs.last(), before.len() as int)
    }
}

/// Whether linking `objs` keeps every jump target within a `usize`.
pub open spec fn links(objs: Seq<Seq<InstrV>>) -> bool
    decreases objs.len(),
{
    objs.len() == 0 || (links(objs.drop_last()) && shift_fits(
        objs.last(),
        linked(objs.drop_last()).len() as int,
    ))
}

pub open spec fn objs_view(objs: Seq<ObjFile>) -> Seq<Seq<InstrV>> {
    objs.map_values(|o: ObjFile| instrs_view(o.instructions@))
}

proof fn lemma_linked_len(objs: Seq<Seq<InstrV>>)
    ensures
        linked(objs).len() == objs.fold_left(0int, |n: int, o: Seq<InstrV>| n + o.len()),
    decreases objs.len(),
{
    if objs.len() > 0 {
        lemma_linked_len(objs.drop_last());
    }
}

/// The linked program is as long as the modules together.
pub proof fn lemma_link_length(objs: Seq<Seq<InstrV>>)
    ensures
        linked(objs).len() == objs.fold_left(0int, |n: int, o: Seq<InstrV>| n + o.len()),
{
    lemma_linked_len(objs);
}

/// A lone module links to itself.
pub proof fn lemma_link_single(o: Seq<InstrV>)
    ensures
        linked(seq![o]) == o,
{
    assert(seq![o].drop_last() =~= Seq::<Seq<InstrV>>::empty());
    assert forall|k: int| 0 <= k < o.len() implies shifted(o[k], 0) == o[k] by {
        match o[k] {
            InstrV::Jump(a) => {
                assert((a + 0) as usize == a);
            },
            InstrV::JumpIfTrue(a) => {
                assert((a + 0) as usize == a);
            },
            InstrV::JumpIfFalse(a) => {
                assert((a + 0) as usize == a);
            },
            _ => {},
        }
    }
    assert(shift_all(o, 0) =~= o);
    let e: Seq<Seq<InstrV>> = Seq::empty();
    assert(linked(e) == Seq::<InstrV>::empty());
    assert(seq![o].last() == o);
    assert(linked(seq![o]) == linked(e) + shift_all(o, 0));
    assert(Seq::<InstrV>::empty() + o =~= o);
}

/// Each module's code stands, moved, right after the code of the modules before it.
pub proof fn lemma_link_prefix(objs: Seq<Seq<InstrV>>, o: Seq<InstrV>)
    ensures
        linked(objs.push(o)) == linked(objs) + shift_all(o, linked(objs).len() as int),
{
    assert(objs.push(o).drop_last() =~= objs);
}

/// Linking one more module keeps the code linked so far and puts the module's code after
/// it, each instruction at its own place moved by the length `n` of that code: a `Jump`,
/// `JumpIfTrue` or `JumpIfFalse` to `a` becomes one to `a + n`, and every other
/// instruction stays as it is.
pub proof fn lemma_link_moves_jumps(objs: Seq<Seq<InstrV>>, o: Seq<InstrV>, k: int)
    requires
        0 <= k < o.len(),
    ensures
        ({
            let n = linked(objs).len();
            let l = linked(objs.push(o));
            &&& l.len() == n + o.len()
            &&& l.take(n as int) == linked(objs)
            &&& o[k] matches InstrV::Jump(a) ==> l[n + k] == InstrV::Jump((a + n) as usize)
            &&& o[k] matches InstrV::JumpIfTrue(a) ==> l[n + k] == InstrV::JumpIfTrue((a + n) as usize)
            &&& o[k] matches InstrV::JumpIfFalse(a) ==> l[n + k] == InstrV::JumpIfFalse((a + n) as usize)
            &&& !(o[k] is Jump || o[k] is JumpIfTrue || o[k] is JumpIfFalse) ==> l[n + k] == o[k]
        }),
{
    let n = linked(objs).len();
    assert(objs.push(o).drop_last() =~= objs);
    let l = linked(objs.push(o));
    assert(l.take(n as int) =~= linked(objs));
    assert(l[n + k] == shifted(o[k], n as int));
}

fn shift_instr(i: Instructions, offset: usize) -> (r: Instructions)
    requires
        match i@ {
            InstrV::Jump(a) => a + offset <= usize::MAX,
            InstrV::JumpIfTrue(a) => a + offset <= usize::MAX,
            InstrV::JumpIfFalse(a) => a + offset <= usize::MAX,
            _ => true,
        },
    ensures
        r@ == shifted(i@, offset as int),
{
    match i {
        Instructions::Jump(addr) => Instructions::Jump(addr + offset),
        Instructions::JumpIfTrue(addr) => Instructions::JumpIfTrue(addr + offset),
        Instructions::JumpIfFalse(addr) => Instructions::JumpIfFalse(addr + offset),
        other => other,
    }
}

impl Linker {
    /// Joins compiled modules into one program, moving each module's jump targets by the
    /// length of the code before it.
    pub fn link(objects: Vec<ObjFile>) -> (program: Vec<Instructions>)
        requires
            links(objs_view(objects@)),
        ensures
            instrs_view(program@) == linked(objs_view(objects@)),
    {
        let ghost all = objs_view(objects@);
        let mut program: Vec<Instructions> = Vec::new();
        let mut offset: usize = 0;
        let mut k: usize = 0;
        while k < objects.len()
            invariant
                all == objs_view(objects@),
                k <= all.len(),
                instrs_view(program@) == linked(all.take(k as int)),
                offset == program@.len(),
                links(all),
            decreases all.len() - k,
        {
            proof {
                lemma_links_prefix(all, k + 1);
                assert(all.take(k + 1).drop_last() =~= all.take(k as int));
                assert(all.take(k + 1).last() == all[k as int]);
            }
            let ghost start = program@;
            let instrs = &objects[k].instructions;
            let mut i: usize = 0;
            while i < instrs.len()
                invariant
                    i <= instrs@.len(),
                    instrs_view(instrs@) == all[k as int],
                    shift_fits(all[k as int], offset as int),
                    offset == start.len(),
                    instrs_view(program@) == instrs_view(start) + shift_all(all[k as int], offset as int).take(
                        i as int,
                    ),
                decreases instrs@.len() - i,
            {
                let ghost before = program@;
                assert(instrs_view(instrs@)[i as int] == instrs@[i as int]@);
                let moved = shift_instr(instrs[i].duplicate(), offset);
                program.push(moved);
                proof {
                    assert(instrs_view(program@) =~= instrs_view(before).push(moved@));
                    assert(shift_all(all[k as int], offset as int).take(i + 1) =~= shift_all(
                        all[k as int],
                        offset as int,
                    ).take(i as int).push(shifted(all[k as int][i as int], offset as int)));
                }
                i = i + 1;
            }
            proof {
                assert(shift_all(all[k as int], offset as int).take(instrs@.len() as int) =~= shift_all(
                    all[k as int],
                    offset as int,
                ));
            }
            offset = program.len();
            k = k + 1;
        }
        assert(all.take(all.len() as int) =~= all);
        program
    }
}

/// Linking fits for the first `k` modules when it fits for all of them.
proof fn lemma_links_prefix(objs: Seq<Seq<InstrV>>, k: int)
    requires
        links(objs),
        0 <= k <= objs.len(),
    ensures
        links(objs.take(k)),
        k > 0 ==> shift_fits(objs[k - 1], linked(objs.take(k - 1)).len() as int),
    decreases objs.len() - k,
{
    if k < objs.len() {
        lemma_links_prefix(objs.drop_last(), k);
        assert(objs.drop_last().take(k) =~= objs.take(k));
        if k > 0 {
            assert(objs.drop_last().take(k - 1) =~= objs.take(k - 1));
        }
    } else {
        assert(objs.take(k) =~= objs);
        if k > 0 {
            assert(objs.take(k - 1) =~= objs.drop_last());
        }
    }
}

} // verus!
