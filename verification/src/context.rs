//! What the compiler knows while it compiles: the variables of each open scope, the
//! declared functions and the known type names.
use vstd::prelude::*;
use crate::assoc::{assoc_get, find_key, find_last, keyed, lemma_find_last_is, lemma_find_last_range};
use crate::ast::{copy_args, copy_nodes, nodes_view, FunctionArgs, Node, NodeV};
use crate::errors::compiler_errors::{CErr, CompileError};
use crate::types::ComptimeValueType;

verus! {

/// A variable known to the compiler: its type, the name it has in the generated code, and
/// whether it may be assigned.
pub struct ComptimeVariable {
    pub value_type: ComptimeValueType,
    pub tag: String,
    pub is_const: bool,
}

pub struct VarV {
    pub value_type: ComptimeValueType,
    pub tag: Seq<char>,
    pub is_const: bool,
}

impl View for ComptimeVariable {
    type V = VarV;

    open spec fn view(&self) -> VarV {
        VarV { value_type: self.value_type, tag: self.tag@, is_const: self.is_const }
    }
}

impl ComptimeVariable {
    pub fn duplicate(&self) -> (r: ComptimeVariable)
        ensures
            r@ == self@,
    {
        ComptimeVariable {
            value_type: self.value_type.duplicate(),
            tag: self.tag.clone(),
            is_const: self.is_const,
        }
    }
}

/// A declared function: its parameters, its return type and its body.
pub struct CompileTimeFunctionForCheck {
    pub args: Vec<FunctionArgs>,
    pub return_type: ComptimeValueType,
    pub body: Vec<Node>,
}

pub struct FnV {
    pub args: Seq<(Seq<char>, Seq<char>)>,
    pub return_type: ComptimeValueType,
    pub body: Seq<NodeV>,
}

pub open spec fn args_view(a: Seq<FunctionArgs>) -> Seq<(Seq<char>, Seq<char>)> {
    a.map_values(|x: FunctionArgs| (x.name@, x.argument_type@))
}

impl View for CompileTimeFunctionForCheck {
    type V = FnV;

    open spec fn view(&self) -> FnV {
        FnV {
            args: args_view(self.args@),
            return_type: self.return_type,
            body: nodes_view(self.body@),
        }
    }
}

impl CompileTimeFunctionForCheck {
    pub fn duplicate(&self) -> (r: CompileTimeFunctionForCheck)
        ensures
            r@ == self@,
    {
        CompileTimeFunctionForCheck {
            args: copy_args(&self.args),
            return_type: self.return_type.duplicate(),
            body: copy_nodes(&self.body),
        }
    }
}

pub struct CompileContext {
    pub variables: Vec<(String, ComptimeVariable)>,
    pub functions: Vec<(String, CompileTimeFunctionForCheck)>,
    pub scopes: Vec<Vec<(String, ComptimeVariable)>>,
    pub types: Vec<String>,
    pub function_depth: usize,
    pub curren_return_type: ComptimeValueType,
    pub is_in_function_contex: bool,
    pub last_fn_context: usize,
}

pub struct CtxV {
    pub variables: Seq<(Seq<char>, VarV)>,
    pub functions: Seq<(Seq<char>, FnV)>,
    pub scopes: Seq<Seq<(Seq<char>, VarV)>>,
    pub types: Seq<Seq<char>>,
    pub function_depth: usize,
    pub return_type: ComptimeValueType,
    pub in_fn: bool,
    pub last_fn_context: usize,
}

pub open spec fn scopes_view(s: Seq<Vec<(String, ComptimeVariable)>>) -> Seq<Seq<(Seq<char>, VarV)>> {
    s.map_values(|sc: Vec<(String, ComptimeVariable)>| keyed(sc@))
}

pub open spec fn strings_view(s: Seq<String>) -> Seq<Seq<char>> {
    s.map_values(|x: String| x@)
}

impl View for CompileContext {
    type V = CtxV;

    open spec fn view(&self) -> CtxV {
        CtxV {
            variables: keyed(self.variables@),
            functions: keyed(self.functions@),
            scopes: scopes_view(self.scopes@),
            types: strings_view(self.types@),
            function_depth: self.function_depth,
            return_type: self.curren_return_type,
            in_fn: self.is_in_function_contex,
            last_fn_context: self.last_fn_context,
        }
    }
}

// ---------------------------------------------------------------------------
// The model
// ---------------------------------------------------------------------------

/// The first scope a lookup may reach: inside a function, the function's own scope.
pub open spec fn first_visible(c: CtxV) -> int {
    if c.last_fn_context < c.scopes.len() {
        c.last_fn_context as int
    } else {
        0
    }
}

/// Looks `name` up in `scopes[lo..hi]`, innermost first.
pub open spec fn lookup_scopes(scopes: Seq<Seq<(Seq<char>, VarV)>>, lo: int, hi: int, name: Seq<char>) -> Option<VarV>
    decreases hi - lo,
{
    if hi <= lo || hi > scopes.len() {
        None
    } else {
        match assoc_get(scopes[hi - 1], name) {
            Some(v) => Some(v),
            None => lookup_scopes(scopes, lo, hi - 1, name),
        }
    }
}

/// The variable that `name` denotes at this point.
pub open spec fn ctx_get_variable(c: CtxV, name: Seq<char>) -> Option<VarV> {
    lookup_scopes(c.scopes, first_visible(c), c.scopes.len() as int, name)
}

pub open spec fn ctx_add_variable(c: CtxV, name: Seq<char>, v: VarV) -> (CtxV, Result<(), CErr>) {
    let cur = c.scopes.last();
    if find_last(cur, name) >= 0 {
        (c, Err(CErr::VariableRecreation(name)))
    } else {
        (CtxV { scopes: c.scopes.update(c.scopes.len() - 1, cur.push((name, v))), ..c }, Ok(()))
    }
}

pub open spec fn ctx_enter_scope(c: CtxV) -> CtxV {
    CtxV { scopes: c.scopes.push(seq![]), ..c }
}

pub open spec fn ctx_exit_scope(c: CtxV) -> CtxV {
    CtxV { scopes: c.scopes.drop_last(), ..c }
}

pub open spec fn ctx_enter_function_scope(c: CtxV) -> CtxV {
    CtxV {
        in_fn: true,
        last_fn_context: c.scopes.len() as usize,
        scopes: c.scopes.push(seq![]),
        ..c
    }
}

pub open spec fn ctx_exit_function_scope(c: CtxV) -> CtxV {
    CtxV {
        in_fn: false,
        scopes: if c.last_fn_context < c.scopes.len() {
            c.scopes.take(c.last_fn_context as int)
        } else {
            c.scopes
        },
        ..c
    }
}

pub open spec fn spec_get_type(t: Seq<char>) -> Result<ComptimeValueType, CErr> {
    if t == "int"@ {
        Ok(ComptimeValueType::Int)
    } else if t == "string"@ {
        Ok(ComptimeValueType::StringValue)
    } else if t == "bool"@ {
        Ok(ComptimeValueType::Bool)
    } else if t == "void"@ {
        Ok(ComptimeValueType::Void)
    } else if t == "flt"@ {
        Ok(ComptimeValueType::Float)
    } else {
        Err(CErr::UndefinedType(t))
    }
}

pub open spec fn ctx_add_function(c: CtxV, name: Seq<char>, f: FnV) -> (CtxV, Result<(), CErr>) {
    if find_last(c.functions, name) >= 0 {
        (c, Err(CErr::FunctionAlredyExists(name)))
    } else {
        (CtxV { functions: c.functions.push((name, f)), ..c }, Ok(()))
    }
}

pub open spec fn ctx_get_fn(c: CtxV, name: Seq<char>) -> Result<FnV, CErr> {
    match assoc_get(c.functions, name) {
        Some(f) => Ok(f),
        None => Err(CErr::UnknownFunction(name)),
    }
}

pub open spec fn ctx_add_type(c: CtxV, t: Seq<char>) -> (CtxV, Result<(), CErr>) {
    if c.types.contains(t) {
        (c, Err(CErr::TypeAlredyExists(t)))
    } else {
        (CtxV { types: c.types.push(t), ..c }, Ok(()))
    }
}

pub open spec fn fresh_ctx() -> CtxV {
    CtxV {
        variables: seq![],
        functions: seq![],
        scopes: seq![seq![]],
        types: seq![],
        function_depth: 0,
        return_type: ComptimeValueType::Void,
        in_fn: false,
        last_fn_context: 0,
    }
}

// ---------------------------------------------------------------------------
// Laws
// ---------------------------------------------------------------------------

/// A variable just added is what its name denotes.
pub proof fn lemma_get_after_add(c: CtxV, name: Seq<char>, v: VarV)
    requires
        c.scopes.len() > 0,
        ctx_add_variable(c, name, v).1 is Ok,
    ensures
        ctx_get_variable(ctx_add_variable(c, name, v).0, name) == Some(v),
{
    let d = ctx_add_variable(c, name, v).0;
    let cur = c.scopes.last();
    lemma_find_last_is(cur.push((name, v)), name, cur.len() as int);
    assert(d.scopes[d.scopes.len() - 1] == cur.push((name, v)));
}

/// Adding a name that the innermost scope already holds fails, and fails only then.
pub proof fn lemma_add_fails_iff_declared(c: CtxV, name: Seq<char>, v: VarV)
    requires
        c.scopes.len() > 0,
    ensures
        ctx_add_variable(c, name, v).1 is Err <==> assoc_get(c.scopes.last(), name) is Some,
        ctx_add_variable(c, name, v).1 is Err ==> ctx_add_variable(c, name, v).0 == c,
{
    lemma_find_last_range(c.scopes.last(), name);
}

/// Leaving a scope undoes entering it, whatever was declared inside.
pub proof fn lemma_scope_undone(c: CtxV, name: Seq<char>, v: VarV)
    ensures
        ctx_exit_scope(ctx_enter_scope(c)) == c,
        ctx_exit_scope(ctx_add_variable(ctx_enter_scope(c), name, v).0) == c,
{
    assert(ctx_enter_scope(c).scopes.drop_last() =~= c.scopes);
    let e = ctx_enter_scope(c);
    let d = ctx_add_variable(e, name, v).0;
    assert(d.scopes.drop_last() =~= c.scopes);
}

/// Inside a function's scope no variable of the code around it is visible.
pub proof fn lemma_function_scope_hides(c: CtxV, name: Seq<char>)
    requires
        c.scopes.len() <= usize::MAX,
    ensures
        ctx_get_variable(ctx_enter_function_scope(c), name) is None,
{
    let d = ctx_enter_function_scope(c);
    assert(first_visible(d) == c.scopes.len());
    let lo = c.scopes.len() as int;
    let empty: Seq<(Seq<char>, VarV)> = seq![];
    assert(d.scopes[lo] == empty);
    lemma_find_last_is(empty, name, -1);
    assert(lookup_scopes(d.scopes, lo, lo, name) is None);
}

/// Leaving a function's scope gives back the scopes that were open before it.
pub proof fn lemma_function_scope_undone(c: CtxV)
    requires
        c.scopes.len() <= usize::MAX,
    ensures
        ctx_exit_function_scope(ctx_enter_function_scope(c)).scopes == c.scopes,
        !ctx_exit_function_scope(ctx_enter_function_scope(c)).in_fn,
{
    assert(c.scopes.push(seq![]).take(c.scopes.len() as int) =~= c.scopes);
}

/// A function just declared is found under its name.
pub proof fn lemma_get_fn_after_add(c: CtxV, name: Seq<char>, f: FnV)
    requires
        ctx_add_function(c, name, f).1 is Ok,
    ensures
        ctx_get_fn(ctx_add_function(c, name, f).0, name) == Ok::<FnV, CErr>(f),
{
    lemma_find_last_is(c.functions.push((name, f)), name, c.functions.len() as int);
}

/// A type name can be added once.
pub proof fn lemma_add_type_twice(c: CtxV, t: Seq<char>)
    ensures
        ctx_add_type(ctx_add_type(c, t).0, t).1 is Err,
{
    let d = ctx_add_type(c, t).0;
    if !c.types.contains(t) {
        assert(d.types[c.types.len() as int] == t);
    }
}

// ---------------------------------------------------------------------------
// Operations
// ---------------------------------------------------------------------------

fn vec_strings_contains(v: &Vec<String>, t: &String) -> (r: bool)
    ensures
        r == strings_view(v@).contains(t@),
{
    let mut i: usize = 0;
    while i < v.len()
        invariant
            i <= v@.len(),
            forall|j: int| 0 <= j < i ==> strings_view(v@)[j] != t@,
        decreases v@.len() - i,
    {
        if v[i] == *t {
            assert(strings_view(v@)[i as int] == t@);
            return true;
        }
        i = i + 1;
    }
    false
}

impl CompileContext {
    pub fn new() -> (r: Self)
        ensures
            r@ == fresh_ctx(),
    {
        let mut scopes: Vec<Vec<(String, ComptimeVariable)>> = Vec::new();
        scopes.push(Vec::new());
        let r = CompileContext {
            variables: Vec::new(),
            functions: Vec::new(),
            scopes,
            types: Vec::new(),
            function_depth: 0,
            curren_return_type: ComptimeValueType::Void,
            is_in_function_contex: false,
            last_fn_context: 0,
        };
        assert(keyed(r.scopes@[0]@) =~= Seq::<(Seq<char>, VarV)>::empty());
        assert(r@.scopes =~= seq![seq![]]);
        assert(r@.variables =~= seq![]);
        assert(r@.functions =~= seq![]);
        assert(r@.types =~= seq![]);
        r
    }

    /// Records a new type name; a name already known is refused.
    pub fn add_type(&mut self, type_to_add: String) -> (r: Result<(), CompileError>)
        ensures
            (final(self)@, match r {
                Ok(_) => Ok(()),
                Err(e) => Err(e@),
            }) == ctx_add_type(old(self)@, type_to_add@),
    {
        if !vec_strings_contains(&self.types, &type_to_add) {
            let ghost t = type_to_add@;
            self.types.push(type_to_add);
            assert(strings_view(self.types@) =~= old(self)@.types.push(t));
            assert(self@ =~= ctx_add_type(old(self)@, t).0);
            return Ok(());
        }
        Err(CompileError::TypeAlredyExists { name_of_type: type_to_add })
    }

    /// The type a type name denotes.
    pub fn get_type(&self, type_to_identify: &str) -> (r: Result<ComptimeValueType, CompileError>)
        ensures
            match r {
                Ok(t) => Ok(t),
                Err(e) => Err(e@),
            } == spec_get_type(type_to_identify@),
    {
        let t = type_to_identify.to_owned();
        if t == "int".to_owned() {
            Ok(ComptimeValueType::Int)
        } else if t == "string".to_owned() {
            Ok(ComptimeValueType::StringValue)
        } else if t == "bool".to_owned() {
            Ok(ComptimeValueType::Bool)
        } else if t == "void".to_owned() {
            Ok(ComptimeValueType::Void)
        } else if t == "flt".to_owned() {
            Ok(ComptimeValueType::Float)
        } else {
            Err(CompileError::UndefinedType { undefined_type: t })
        }
    }

    /// Closes the innermost scope; there must be one.
    pub fn exit_scope(&mut self)
        requires
            old(self)@.scopes.len() > 0,
        ensures
            final(self)@ == ctx_exit_scope(old(self)@),
    {
        self.scopes.pop();
        assert(self@.scopes =~= old(self)@.scopes.drop_last());
        assert(self@ =~= ctx_exit_scope(old(self)@));
    }

    /// Opens the scope of a function body: only it is visible until it is closed.
    pub fn enter_function_scope(&mut self)
        ensures
            final(self)@ == ctx_enter_function_scope(old(self)@),
    {
        self.is_in_function_contex = true;
        self.last_fn_context = self.scopes.len();
        self.scopes.push(Vec::new());
        assert(keyed(self.scopes@.last()@) =~= Seq::<(Seq<char>, VarV)>::empty());
        assert(self@.scopes =~= old(self)@.scopes.push(seq![]));
        assert(self@ =~= ctx_enter_function_scope(old(self)@));
    }

    /// Closes the scopes opened since the function's scope, that one included.
    pub fn exit_function_scope(&mut self)
        ensures
            final(self)@ == ctx_exit_function_scope(old(self)@),
    {
        self.is_in_function_contex = false;
        self.scopes.truncate(self.last_fn_context);
        assert(self@.scopes =~= ctx_exit_function_scope(old(self)@).scopes);
        assert(self@ =~= ctx_exit_function_scope(old(self)@));
    }

    pub fn enter_scope(&mut self)
        ensures
            final(self)@ == ctx_enter_scope(old(self)@),
    {
        self.scopes.push(Vec::new());
        assert(keyed(self.scopes@.last()@) =~= Seq::<(Seq<char>, VarV)>::empty());
        assert(self@.scopes =~= old(self)@.scopes.push(seq![]));
        assert(self@ =~= ctx_enter_scope(old(self)@));
    }

    /// Declares a variable in the innermost scope, which must exist; a name that scope
    /// already holds is refused.
    pub fn add_variable(&mut self, name: String, variable: ComptimeVariable) -> (r: Result<(), CompileError>)
        requires
            old(self)@.scopes.len() > 0,
        ensures
            (final(self)@, match r {
                Ok(_) => Ok(()),
                Err(e) => Err(e@),
            }) == ctx_add_variable(old(self)@, name@, variable@),
    {
        let last = self.scopes.len() - 1;
        let found = find_key(&self.scopes[last], name.as_str());
        assert(keyed(self.scopes@[last as int]@) == old(self)@.scopes.last());
        match found {
            Some(_) => Err(CompileError::VariableRecreation { name }),
            None => {
                let ghost n = name@;
                let ghost v = variable@;
                let mut cur = self.scopes.pop().unwrap();
                cur.push((name, variable));
                self.scopes.push(cur);
                proof {
                    let c = old(self)@;
                    assert(keyed(cur@) =~= c.scopes.last().push((n, v)));
                    assert(self@.scopes =~= c.scopes.update(c.scopes.len() - 1, c.scopes.last().push((n, v))));
                    assert(self@ =~= ctx_add_variable(c, n, v).0);
                }
                Ok(())
            },
        }
    }

    /// The variable that `name` denotes: the innermost visible scope that holds it decides.
    pub fn get_variable(&self, name: &str) -> (r: Option<&ComptimeVariable>)
        ensures
            match r {
                Some(v) => Some(v@),
                None => None,
            } == ctx_get_variable(self@, name@),
    {
        let n = self.scopes.len();
        let visible_scopes = if self.last_fn_context < n {
            n - self.last_fn_context
        } else {
            n
        };
        let lo = n - visible_scopes;
        let ghost c = self@;
        let mut hi = n;
        while hi > lo
            invariant
                lo <= hi <= n,
                n == self.scopes@.len(),
                lo == first_visible(c),
                c == self@,
                lookup_scopes(c.scopes, lo as int, hi as int, name@) == ctx_get_variable(c, name@),
            decreases hi,
        {
            let sc = &self.scopes[hi - 1];
            assert(keyed(sc@) == c.scopes[hi - 1]);
            let found = find_key(sc, name);
            proof {
                lemma_find_last_range(keyed(sc@), name@);
            }
            match found {
                Some(j) => {
                    assert(keyed(sc@)[j as int].1 == sc@[j as int].1@);
                    return Some(&sc[j].1);
                },
                None => {},
            }
            hi = hi - 1;
        }
        None
    }

    /// Declares a function; a name already declared is refused.
    pub fn add_function(&mut self, name: String, fnc: CompileTimeFunctionForCheck) -> (r: Result<(), CompileError>)
        ensures
            (final(self)@, match r {
                Ok(_) => Ok(()),
                Err(e) => Err(e@),
            }) == ctx_add_function(old(self)@, name@, fnc@),
    {
        match find_key(&self.functions, name.as_str()) {
            Some(_) => Err(CompileError::FunctionAlredyExists { name }),
            None => {
                let ghost n = name@;
                let ghost f = fnc@;
                self.functions.push((name, fnc));
                assert(keyed(self.functions@) =~= old(self)@.functions.push((n, f)));
                assert(self@ =~= ctx_add_function(old(self)@, n, f).0);
                Ok(())
            },
        }
    }

    /// A copy of the function declared under `name`.
    pub fn get_fn(&mut self, name: &str) -> (r: Result<CompileTimeFunctionForCheck, CompileError>)
        ensures
            final(self)@ == old(self)@,
            match r {
                Ok(f) => Ok(f@),
                Err(e) => Err(e@),
            } == ctx_get_fn(old(self)@, name@),
    {
        let found = find_key(&self.functions, name);
        proof {
            lemma_find_last_range(keyed(self.functions@), name@);
        }
        match found {
            Some(i) => {
                assert(keyed(self.functions@)[i as int].1 == self.functions@[i as int].1@);
                Ok(self.functions[i].1.duplicate())
            },
            None => Err(CompileError::UnknownFunction { name: name.to_owned() }),
        }
    }
}

/// One step that code inside a function may take on the scopes.
pub enum ScopeStep {
    /// Opens a block scope.
    Enter,
    /// Declares a variable in the innermost scope.
    Declare(Seq<char>, VarV),
    /// Closes the innermost block scope.
    Leave,
}

pub open spec fn scope_step(c: CtxV, step: ScopeStep) -> CtxV {
    match step {
        ScopeStep::Enter => ctx_enter_scope(c),
        ScopeStep::Declare(name, v) => ctx_add_variable(c, name, v).0,
        ScopeStep::Leave => ctx_exit_scope(c),
    }
}

/// The context after the steps, one after another.
pub open spec fn scope_steps(c: CtxV, steps: Seq<ScopeStep>) -> CtxV
    decreases steps.len(),
{
    if steps.len() == 0 {
        c
    } else {
        scope_steps(scope_step(c, steps[0]), steps.drop_first())
    }
}

/// No step closes a scope that the steps before it did not open, `open` scopes being open
/// at the start.
pub open spec fn closes_only_own(steps: Seq<ScopeStep>, open: nat) -> bool
    decreases steps.len(),
{
    if steps.len() == 0 {
        true
    } else {
        match steps[0] {
            ScopeStep::Enter => closes_only_own(steps.drop_first(), open + 1),
            ScopeStep::Declare(_, _) => closes_only_own(steps.drop_first(), open),
            ScopeStep::Leave => open > 0 && closes_only_own(steps.drop_first(), (open - 1) as nat),
        }
    }
}

proof fn lemma_steps_keep_outer(c: CtxV, steps: Seq<ScopeStep>, base: int, open: nat)
    requires
        0 <= base,
        c.scopes.len() == base + 1 + open,
        closes_only_own(steps, open),
    ensures
        scope_steps(c, steps).scopes.len() > base,
        scope_steps(c, steps).scopes.take(base) == c.scopes.take(base),
        scope_steps(c, steps).last_fn_context == c.last_fn_context,
    decreases steps.len(),
{
    if steps.len() > 0 {
        let d = scope_step(c, steps[0]);
        let next = match steps[0] {
            ScopeStep::Enter => open + 1,
            ScopeStep::Declare(_, _) => open,
            ScopeStep::Leave => (open - 1) as nat,
        };
        assert(d.scopes.take(base) =~= c.scopes.take(base));
        lemma_steps_keep_outer(d, steps.drop_first(), base, next);
    }
}

/// Leaving a function's scope discards every scope and variable made inside the function,
/// whatever blocks it opened and closed, and gives back the scopes around it untouched.
pub proof fn lemma_function_scope_discards(c: CtxV, steps: Seq<ScopeStep>)
    requires
        c.scopes.len() < usize::MAX,
        closes_only_own(steps, 0),
    ensures
        ctx_exit_function_scope(scope_steps(ctx_enter_function_scope(c), steps)).scopes == c.scopes,
{
    let e = ctx_enter_function_scope(c);
    lemma_steps_keep_outer(e, steps, c.scopes.len() as int, 0);
    assert(e.scopes.take(c.scopes.len() as int) =~= c.scopes);
}

} // verus!
