//! The syntax tree built by the parser.
use vstd::prelude::*;
use crate::tokens::TokenKind;
use crate::types::ComptimeValueType;

verus! {

#[derive(Debug, Clone, Copy, PartialEq, Eq, Structural)]
pub enum CallType {
    Macro,
    Fn,
}

pub struct ProgramNode {
    pub program_nodes: Vec<Node>,
}

impl ProgramNode {
    /// A program without statements.
    pub fn new() -> (p: Self)
        ensures
            p.program_nodes@.len() == 0,
    {
        ProgramNode { program_nodes: Vec::new() }
    }
}

impl Default for ProgramNode {
    fn default() -> (p: Self)
        ensures
            p.program_nodes@.len() == 0,
    {
        Self::new()
    }
}

pub struct BinaryOpNode {
    pub left: Box<Node>,
    pub right: Box<Node>,
    pub op_tok: TokenKind,
}

pub struct PrefixExpressionNode {
    pub prefix: TokenKind,
    pub value: Box<Node>,
}

pub struct NumberNode {
    pub number: i64,
}

/// A floating-point literal, kept as the digits written in the source.
pub struct FloatNode {
    pub literal: String,
}

pub struct StringNode {
    pub value: String,
}

pub struct BoolNode {
    pub value: TokenKind,
}

pub struct ArrayNode {
    pub elements: Vec<Node>,
}

pub struct VariableAccessNode {
    pub variable_name: String,
}

pub struct VariableDefineNode {
    pub var_name: String,
    pub value_type: Option<String>,
    pub value: Option<Box<Node>>,
    pub is_const: bool,
    pub is_public: bool,
}

pub struct VariableAssignNode {
    pub name: String,
    pub value: Box<Node>,
}

pub struct FunctionCallNode {
    pub args: Vec<Node>,
    pub name: String,
    pub call_type: CallType,
    pub return_type: Option<ComptimeValueType>,
}

pub struct ImportNode {
    pub module: String,
}

pub struct ReturnNode {
    pub returns: Option<Box<Node>>,
}

pub struct LoopNode {
    pub body: Vec<Node>,
}

pub struct IfStatement {
    pub then_branch: Vec<Node>,
    pub condition: Box<Node>,
    pub else_branch: Option<Vec<Node>>,
}

pub struct WhileStatement {
    pub condition: Box<Node>,
    pub body: Vec<Node>,
}

pub struct FunctionArgs {
    pub name: String,
    pub argument_type: String,
}

pub struct FunctionDefineNode {
    pub id: String,
    pub return_type: Option<String>,
    pub body: Vec<Node>,
    pub args: Vec<FunctionArgs>,
}

pub struct StructVariable {
    pub var_type: String,
}

pub struct StructDefineNode {
    pub args: Vec<StructVariable>,
}

/// The statements a body is made of.
pub enum Statements {
    If(IfStatement),
    While(WhileStatement),
    FunctionCall(FunctionCallNode),
    VariableAcess(VariableAccessNode),
    VariableAssign(VariableAssignNode),
    VariableDefine(VariableDefineNode),
    FunctionDeclaration(FunctionDefineNode),
}

/// A node of the syntax tree.
pub enum Node {
    Program(ProgramNode),
    BinaryOp(BinaryOpNode),
    Prefix(PrefixExpressionNode),
    Number(NumberNode),
    Float(FloatNode),
    Str(StringNode),
    Bool(BoolNode),
    Array(ArrayNode),
    VariableAccess(VariableAccessNode),
    VariableDefine(VariableDefineNode),
    VariableAssign(VariableAssignNode),
    FunctionCall(FunctionCallNode),
    Import(ImportNode),
    Return(ReturnNode),
    Loop(LoopNode),
    If(IfStatement),
    While(WhileStatement),
    FunctionDefine(FunctionDefineNode),
    StructDefine(StructDefineNode),
}

/// A node with its texts as character sequences.
pub enum NodeV {
    Program(Seq<NodeV>),
    BinaryOp(Box<NodeV>, Box<NodeV>, TokenKind),
    Prefix(TokenKind, Box<NodeV>),
    Number(int),
    Float(Seq<char>),
    Str(Seq<char>),
    Bool(TokenKind),
    Array(Seq<NodeV>),
    VariableAccess(Seq<char>),
    VariableDefine(Seq<char>, Option<Seq<char>>, Option<Box<NodeV>>, bool, bool),
    VariableAssign(Seq<char>, Box<NodeV>),
    FunctionCall(Seq<NodeV>, Seq<char>, CallType, Option<ComptimeValueType>),
    Import(Seq<char>),
    Return(Option<Box<NodeV>>),
    Loop(Seq<NodeV>),
    If(Box<NodeV>, Seq<NodeV>, Option<Seq<NodeV>>),
    While(Box<NodeV>, Seq<NodeV>),
    FunctionDefine(Seq<char>, Option<Seq<char>>, Seq<NodeV>, Seq<(Seq<char>, Seq<char>)>),
    StructDefine(Seq<Seq<char>>),
}

pub open spec fn opt_str_view(o: Option<String>) -> Option<Seq<char>> {
    match o {
        Some(s) => Some(s@),
        None => None,
    }
}

pub open spec fn node_view(n: Node) -> NodeV
    decreases n,
{
    match n {
        Node::Program(p) => NodeV::Program(nodes_view(p.program_nodes@)),
        Node::BinaryOp(b) => NodeV::BinaryOp(
            Box::new(node_view(*b.left)),
            Box::new(node_view(*b.right)),
            b.op_tok,
        ),
        Node::Prefix(p) => NodeV::Prefix(p.prefix, Box::new(node_view(*p.value))),
        Node::Number(x) => NodeV::Number(x.number as int),
        Node::Float(x) => NodeV::Float(x.literal@),
        Node::Str(x) => NodeV::Str(x.value@),
        Node::Bool(x) => NodeV::Bool(x.value),
        Node::Array(a) => NodeV::Array(nodes_view(a.elements@)),
        Node::VariableAccess(x) => NodeV::VariableAccess(x.variable_name@),
        Node::VariableDefine(d) => NodeV::VariableDefine(
            d.var_name@,
            opt_str_view(d.value_type),
            match d.value {
                Some(v) => Some(Box::new(node_view(*v))),
                None => None,
            },
            d.is_const,
            d.is_public,
        ),
        Node::VariableAssign(a) => NodeV::VariableAssign(a.name@, Box::new(node_view(*a.value))),
        Node::FunctionCall(c) => NodeV::FunctionCall(
            nodes_view(c.args@),
            c.name@,
            c.call_type,
            c.return_type,
        ),
        Node::Import(i) => NodeV::Import(i.module@),
        Node::Return(r) => NodeV::Return(
            match r.returns {
                Some(v) => Some(Box::new(node_view(*v))),
                None => None,
            },
        ),
        Node::Loop(l) => NodeV::Loop(nodes_view(l.body@)),
        Node::If(i) => NodeV::If(
            Box::new(node_view(*i.condition)),
            nodes_view(i.then_branch@),
            match i.else_branch {
                Some(e) => Some(nodes_view(e@)),
                None => None,
            },
        ),
        Node::While(w) => NodeV::While(Box::new(node_view(*w.condition)), nodes_view(w.body@)),
        Node::FunctionDefine(f) => NodeV::FunctionDefine(
            f.id@,
            opt_str_view(f.return_type),
            nodes_view(f.body@),
            f.args@.map_values(|a: FunctionArgs| (a.name@, a.argument_type@)),
        ),
        Node::StructDefine(s) => NodeV::StructDefine(
            s.args@.map_values(|v: StructVariable| v.var_type@),
        ),
    }
}

pub open spec fn nodes_view(s: Seq<Node>) -> Seq<NodeV>
    decreases s,
{
    if s.len() == 0 {
        Seq::empty()
    } else {
        nodes_view(s.subrange(0, s.len() - 1)).push(node_view(s[s.len() - 1]))
    }
}

pub proof fn lemma_nodes_view_push(s: Seq<Node>, n: Node)
    ensures
        nodes_view(s.push(n)) == nodes_view(s).push(node_view(n)),
{
    assert(s.push(n).subrange(0, s.len() as int) =~= s);
}

pub proof fn lemma_nodes_view_len(s: Seq<Node>)
    ensures
        nodes_view(s).len() == s.len(),
    decreases s.len(),
{
    if s.len() > 0 {
        lemma_nodes_view_len(s.subrange(0, s.len() - 1));
    }
}

pub proof fn lemma_nodes_view_index(s: Seq<Node>, i: int)
    requires
        0 <= i < s.len(),
    ensures
        nodes_view(s).len() == s.len(),
        nodes_view(s)[i] == node_view(s[i]),
    decreases s.len(),
{
    lemma_nodes_view_len(s);
    if i < s.len() - 1 {
        lemma_nodes_view_index(s.subrange(0, s.len() - 1), i);
    }
}

impl View for Node {
    type V = NodeV;

    open spec fn view(&self) -> NodeV {
        node_view(*self)
    }
}

fn copy_opt_string(o: &Option<String>) -> (r: Option<String>)
    ensures
        opt_str_view(*o) == opt_str_view(r),
{
    match o {
        Some(s) => Some(s.clone()),
        None => None,
    }
}

fn copy_opt_type(o: &Option<ComptimeValueType>) -> (r: Option<ComptimeValueType>)
    ensures
        r == *o,
{
    match o {
        Some(t) => Some(t.duplicate()),
        None => None,
    }
}

fn copy_opt_node(o: &Option<Box<Node>>) -> (r: Option<Box<Node>>)
    ensures
        match (*o, r) {
            (Some(a), Some(b)) => node_view(*a) == node_view(*b),
            (None, None) => true,
            _ => false,
        },
    decreases o,
{
    match o {
        Some(b) => Some(Box::new(copy_node(&**b))),
        None => None,
    }
}

/// A copy of the argument list of a function.
pub fn copy_args(v: &Vec<FunctionArgs>) -> (r: Vec<FunctionArgs>)
    ensures
        r@.map_values(|a: FunctionArgs| (a.name@, a.argument_type@)) == v@.map_values(
            |a: FunctionArgs| (a.name@, a.argument_type@),
        ),
{
    let mut out: Vec<FunctionArgs> = Vec::new();
    let mut i: usize = 0;
    while i < v.len()
        invariant
            i <= v@.len(),
            out@.len() == i,
            forall|j: int|
                0 <= j < i ==> (#[trigger] out@[j]).name@ == v@[j].name@ && out@[j].argument_type@
                    == v@[j].argument_type@,
        decreases v@.len() - i,
    {
        out.push(FunctionArgs { name: v[i].name.clone(), argument_type: v[i].argument_type.clone() });
        i = i + 1;
    }
    assert(out@.map_values(|a: FunctionArgs| (a.name@, a.argument_type@)) =~= v@.map_values(
        |a: FunctionArgs| (a.name@, a.argument_type@),
    ));
    out
}

/// A copy of a list of nodes.
pub fn copy_nodes(v: &Vec<Node>) -> (r: Vec<Node>)
    ensures
        nodes_view(r@) == nodes_view(v@),
    decreases v@,
{
    let mut out: Vec<Node> = Vec::new();
    let mut i: usize = 0;
    while i < v.len()
        invariant
            i <= v@.len(),
            nodes_view(out@) == nodes_view(v@.take(i as int)),
        decreases v@.len() - i,
    {
        proof {
            assert(decreases_to!(v@ => v@[i as int]));
        }
        let c = copy_node(&v[i]);
        proof {
            lemma_nodes_view_push(out@, c);
            lemma_nodes_view_push(v@.take(i as int), v@[i as int]);
            assert(v@.take(i as int).push(v@[i as int]) =~= v@.take(i + 1));
        }
        out.push(c);
        i = i + 1;
    }
    assert(v@.take(v@.len() as int) =~= v@);
    out
}

/// A copy of a node and everything below it.
pub fn copy_node(n: &Node) -> (r: Node)
    ensures
        node_view(r) == node_view(*n),
    decreases n,
{
    match n {
        Node::Program(p) => Node::Program(ProgramNode { program_nodes: copy_nodes(&p.program_nodes) }),
        Node::BinaryOp(b) => Node::BinaryOp(
            BinaryOpNode {
                left: Box::new(copy_node(&*b.left)),
                right: Box::new(copy_node(&*b.right)),
                op_tok: b.op_tok,
            },
        ),
        Node::Prefix(p) => Node::Prefix(
            PrefixExpressionNode { prefix: p.prefix, value: Box::new(copy_node(&*p.value)) },
        ),
        Node::Number(x) => Node::Number(NumberNode { number: x.number }),
        Node::Float(x) => Node::Float(FloatNode { literal: x.literal.clone() }),
        Node::Str(x) => Node::Str(StringNode { value: x.value.clone() }),
        Node::Bool(x) => Node::Bool(BoolNode { value: x.value }),
        Node::Array(a) => Node::Array(ArrayNode { elements: copy_nodes(&a.elements) }),
        Node::VariableAccess(x) => Node::VariableAccess(
            VariableAccessNode { variable_name: x.variable_name.clone() },
        ),
        Node::VariableDefine(d) => Node::VariableDefine(
            VariableDefineNode {
                var_name: d.var_name.clone(),
                value_type: copy_opt_string(&d.value_type),
                value: copy_opt_node(&d.value),
                is_const: d.is_const,
                is_public: d.is_public,
            },
        ),
        Node::VariableAssign(a) => Node::VariableAssign(
            VariableAssignNode { name: a.name.clone(), value: Box::new(copy_node(&*a.value)) },
        ),
        Node::FunctionCall(c) => Node::FunctionCall(
            FunctionCallNode {
                args: copy_nodes(&c.args),
                name: c.name.clone(),
                call_type: c.call_type,
                return_type: copy_opt_type(&c.return_type),
            },
        ),
        Node::Import(i) => Node::Import(ImportNode { module: i.module.clone() }),
        Node::Return(r) => Node::Return(ReturnNode { returns: copy_opt_node(&r.returns) }),
        Node::Loop(l) => Node::Loop(LoopNode { body: copy_nodes(&l.body) }),
        Node::If(i) => {
            let else_branch = match &i.else_branch {
                Some(e) => Some(copy_nodes(e)),
                None => None,
            };
            Node::If(
                IfStatement {
                    then_branch: copy_nodes(&i.then_branch),
                    condition: Box::new(copy_node(&*i.condition)),
                    else_branch,
                },
            )
        },
        Node::While(w) => Node::While(
            WhileStatement {
                condition: Box::new(copy_node(&*w.condition)),
                body: copy_nodes(&w.body),
            },
        ),
        Node::FunctionDefine(f) => Node::FunctionDefine(
            FunctionDefineNode {
                id: f.id.clone(),
                return_type: copy_opt_string(&f.return_type),
                body: copy_nodes(&f.body),
                args: copy_args(&f.args),
            },
        ),
        Node::StructDefine(s) => {
            let mut args: Vec<StructVariable> = Vec::new();
            let mut i: usize = 0;
            while i < s.args.len()
                invariant
                    i <= s.args@.len(),
                    args@.len() == i,
                    forall|j: int| 0 <= j < i ==> (#[trigger] args@[j]).var_type@ == s.args@[j].var_type@,
                decreases s.args@.len() - i,
            {
                args.push(StructVariable { var_type: s.args[i].var_type.clone() });
                i = i + 1;
            }
            assert(args@.map_values(|v: StructVariable| v.var_type@) =~= s.args@.map_values(
                |v: StructVariable| v.var_type@,
            ));
            Node::StructDefine(StructDefineNode { args })
        },
    }
}

} // verus!
