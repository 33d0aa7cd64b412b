//! The indented text of a syntax tree, as the debug views show it.
use vstd::prelude::*;
use crate::ast::{lemma_nodes_view_index, lemma_nodes_view_len, node_view, nodes_view, Node, NodeV};
use crate::text::{decimal, owned, push_char, push_decimal, push_str};
use crate::tokens::kind_name;

verus! {

/// What `{:?}` prints for a string: quoted, with special characters escaped.
pub uninterp spec fn debug_text(s: Seq<char>) -> Seq<char>;

/// Formats a string with `{:?}`. Claimed: the result is `debug_text` of it, a function of
/// the text alone.
#[verifier::external_body]
fn debug_string(s: &str) -> (r: String)
    ensures
        r@ == debug_text(s@),
{
    format!("{:?}", s)
}

/// Two spaces per level.
pub open spec fn indent_text(n: nat) -> Seq<char> {
    Seq::new(2 * n, |i: int| ' ')
}

pub open spec fn blanks(n: nat) -> Seq<char> {
    Seq::new(n, |i: int| ' ')
}

/// How an `i64` is written.
pub open spec fn signed_decimal(x: int) -> Seq<char> {
    if x < 0 {
        "-"@ + decimal((-x) as nat)
    } else {
        decimal(x as nat)
    }
}

/// How `{:?}` writes an optional type name.
pub open spec fn opt_debug(o: Option<Seq<char>>) -> Seq<char> {
    match o {
        Some(t) => "Some("@ + debug_text(t) + ")"@,
        None => "None"@,
    }
}

/// The deepest indentation printed.
pub open spec fn max_indent() -> int {
    usize::MAX / 2 - 2
}

/// The text of a node at an indentation level; `None` for a node that has no text (the
/// debug views of imports, returns, loops, structures and function definitions are not
/// written) or that is nested too deep to indent.
pub open spec fn node_text(n: NodeV, indent: int) -> Option<Seq<char>>
    decreases n,
{
    if indent < 0 || indent > max_indent() {
        None
    } else {
        let pad = indent_text(indent as nat);
        match n {
            NodeV::Program(v) => match nodes_text(v, indent + 1) {
                Some(t) => Some(pad + "Program\n"@ + t),
                None => None,
            },
            NodeV::BinaryOp(l, r, op) => match (node_text(*l, indent + 2), node_text(*r, indent + 2)) {
                (Some(a), Some(b)) => Some(pad + "BinaryOp("@ + kind_name(op) + ")\n"@ + a + b),
                _ => None,
            },
            NodeV::Prefix(p, v) => match node_text(*v, 0) {
                Some(t) => Some(indent_text((indent + 1) as nat) + kind_name(p) + t),
                None => None,
            },
            NodeV::Number(x) => Some(pad + "Number("@ + signed_decimal(x) + ")\n"@),
            NodeV::Float(lit) => Some(pad + "Float("@ + lit + ")\n"@),
            NodeV::Str(v) => Some(pad + "String("@ + v + ")\n"@),
            NodeV::Bool(k) => Some(pad + "String("@ + kind_name(k) + ")\n"@),
            NodeV::Array(v) => match nodes_text(v, indent + 2) {
                Some(t) => Some(blanks(indent as nat) + "Array [\n"@ + t + blanks(indent as nat) + "]\n"@),
                None => None,
            },
            NodeV::VariableAccess(name) => Some(pad + "Var("@ + name + ")\n"@),
            NodeV::VariableDefine(_, written, value, _, _) => {
                let head = pad + "var:"@ + opt_debug(written) + "="@;
                match value {
                    Some(v) => match node_text(*v, 0) {
                        Some(t) => Some(head + t),
                        None => None,
                    },
                    None => Some(head + "None"@),
                }
            },
            NodeV::VariableAssign(name, value) => match node_text(*value, 0) {
                Some(t) => Some(pad + name + "=\n"@ + t),
                None => None,
            },
            NodeV::FunctionCall(_, name, _, _) => Some(pad + name + "(...)\n"@),
            NodeV::If(_, then_branch, _) => match nodes_text(then_branch, indent) {
                Some(t) => Some(pad + "if(...)\n"@ + t),
                None => None,
            },
            NodeV::While(_, _) => Some("if\n"@),
            _ => None,
        }
    }
}

/// The texts of nodes one after another, all at one indentation level.
pub open spec fn nodes_text(v: Seq<NodeV>, indent: int) -> Option<Seq<char>>
    decreases v,
{
    if v.len() == 0 {
        Some(seq![])
    } else {
        match (node_text(v[0], indent), nodes_text(v.drop_first(), indent)) {
            (Some(a), Some(b)) => Some(a + b),
            _ => None,
        }
    }
}

fn push_indent(s: &mut String, n: usize)
    requires
        n <= usize::MAX / 2,
    ensures
        final(s)@ == old(s)@ + indent_text(n as nat),
{
    let mut i: usize = 0;
    while i < 2 * n
        invariant
            n <= usize::MAX / 2,
            i <= 2 * n,
            s@ == old(s)@ + blanks(i as nat),
        decreases 2 * n - i,
    {
        push_char(s, ' ');
        assert(old(s)@ + blanks((i + 1) as nat) =~= (old(s)@ + blanks(i as nat)).push(' '));
        i = i + 1;
    }
    assert(blanks((2 * n) as nat) =~= indent_text(n as nat));
}

fn push_blanks(s: &mut String, n: usize)
    ensures
        final(s)@ == old(s)@ + blanks(n as nat),
{
    let mut i: usize = 0;
    while i < n
        invariant
            i <= n,
            s@ == old(s)@ + blanks(i as nat),
        decreases n - i,
    {
        push_char(s, ' ');
        assert(old(s)@ + blanks((i + 1) as nat) =~= (old(s)@ + blanks(i as nat)).push(' '));
        i = i + 1;
    }
}

fn push_signed(s: &mut String, x: i64)
    ensures
        final(s)@ == old(s)@ + signed_decimal(x as int),
{
    if x < 0 {
        push_char(s, '-');
        let magnitude: u64 = if x == i64::MIN {
            0x8000_0000_0000_0000u64
        } else {
            (-x) as u64
        };
        push_decimal(s, magnitude);
        proof {
            reveal_strlit("-");
            assert(magnitude as int == -(x as int));
            assert("-"@ =~= seq!['-']);
        }
        assert(old(s)@ + signed_decimal(x as int) =~= old(s)@.push('-') + decimal(magnitude as nat));
    } else {
        push_decimal(s, x as u64);
    }
}

impl Node {
    /// The text of this node and everything below it, indented `indent` levels.
    pub fn fmt_with_indent(&self, indent: usize) -> (r: String)
        requires
            node_text(self@, indent as int) is Some,
        ensures
            r@ == node_text(self@, indent as int)->0,
        decreases self,
    {
        let mut s = String::new();
        match self {
            Node::Program(p) => {
                push_indent(&mut s, indent);
                push_str(&mut s, "Program\n");
                let t = fmt_nodes(&p.program_nodes, indent + 1);
                push_str(&mut s, t.as_str());
            },
            Node::BinaryOp(b) => {
                push_indent(&mut s, indent);
                push_str(&mut s, "BinaryOp(");
                push_str(&mut s, b.op_tok.debug_name());
                push_str(&mut s, ")\n");
                let l = b.left.fmt_with_indent(indent + 2);
                let r = b.right.fmt_with_indent(indent + 2);
                push_str(&mut s, l.as_str());
                push_str(&mut s, r.as_str());
            },
            Node::Prefix(p) => {
                push_indent(&mut s, indent + 1);
                push_str(&mut s, p.prefix.debug_name());
                let t = p.value.fmt_with_indent(0);
                push_str(&mut s, t.as_str());
            },
            Node::Number(x) => {
                push_indent(&mut s, indent);
                push_str(&mut s, "Number(");
                push_signed(&mut s, x.number);
                push_str(&mut s, ")\n");
            },
            Node::Float(x) => {
                push_indent(&mut s, indent);
                push_str(&mut s, "Float(");
                push_str(&mut s, x.literal.as_str());
                push_str(&mut s, ")\n");
            },
            Node::Str(x) => {
                push_indent(&mut s, indent);
                push_str(&mut s, "String(");
                push_str(&mut s, x.value.as_str());
                push_str(&mut s, ")\n");
            },
            Node::Bool(x) => {
                push_indent(&mut s, indent);
                push_str(&mut s, "String(");
                push_str(&mut s, x.value.debug_name());
                push_str(&mut s, ")\n");
            },
            Node::Array(a) => {
                push_blanks(&mut s, indent);
                push_str(&mut s, "Array [\n");
                let t = fmt_nodes(&a.elements, indent + 2);
                push_str(&mut s, t.as_str());
                push_blanks(&mut s, indent);
                push_str(&mut s, "]\n");
            },
            Node::VariableAccess(x) => {
                push_indent(&mut s, indent);
                push_str(&mut s, "Var(");
                push_str(&mut s, x.variable_name.as_str());
                push_str(&mut s, ")\n");
            },
            Node::VariableDefine(d) => {
                push_indent(&mut s, indent);
                push_str(&mut s, "var:");
                match &d.value_type {
                    Some(t) => {
                        push_str(&mut s, "Some(");
                        let q = debug_string(t.as_str());
                        push_str(&mut s, q.as_str());
                        push_str(&mut s, ")");
                    },
                    None => push_str(&mut s, "None"),
                }
                push_str(&mut s, "=");
                match &d.value {
                    Some(v) => {
                        let t = v.fmt_with_indent(0);
                        push_str(&mut s, t.as_str());
                    },
                    None => push_str(&mut s, "None"),
                }
            },
            Node::VariableAssign(a) => {
                push_indent(&mut s, indent);
                push_str(&mut s, a.name.as_str());
                push_str(&mut s, "=\n");
                let t = a.value.fmt_with_indent(0);
                push_str(&mut s, t.as_str());
            },
            Node::FunctionCall(c) => {
                push_indent(&mut s, indent);
                push_str(&mut s, c.name.as_str());
                push_str(&mut s, "(...)\n");
            },
            Node::If(i) => {
                push_indent(&mut s, indent);
                push_str(&mut s, "if(...)\n");
                let t = fmt_nodes(&i.then_branch, indent);
                push_str(&mut s, t.as_str());
            },
            Node::While(_) => {
                push_str(&mut s, "if\n");
            },
            _ => {
                assert(false);
            },
        }
        assert(s@ =~= node_text(self@, indent as int)->0);
        s
    }
}

/// The texts of nodes one after another, all at one indentation level.
pub fn fmt_nodes(v: &Vec<Node>, indent: usize) -> (r: String)
    requires
        nodes_text(nodes_view(v@), indent as int) is Some,
    ensures
        r@ == nodes_text(nodes_view(v@), indent as int)->0,
    decreases v@,
{
    let ghost all = nodes_view(v@);
    proof {
        lemma_nodes_view_len(v@);
    }
    let mut s = String::new();
    let mut i: usize = 0;
    assert(all.skip(0) =~= all);
    while i < v.len()
        invariant
            all == nodes_view(v@),
            all.len() == v@.len(),
            i <= v@.len(),
            nodes_text(all, indent as int) is Some,
            nodes_text(all.skip(i as int), indent as int) is Some,
            nodes_text(all, indent as int)->0 == s@ + nodes_text(all.skip(i as int), indent as int)->0,
        decreases v@.len() - i,
    {
        proof {
            lemma_nodes_view_index(v@, i as int);
            assert(all.skip(i as int)[0] == all[i as int]);
            assert(all.skip(i as int).drop_first() =~= all.skip(i + 1));
            assert(decreases_to!(v@ => v@[i as int]));
        }
        let t = v[i].fmt_with_indent(indent);
        let ghost before = s@;
        push_str(&mut s, t.as_str());
        proof {
            let rest = nodes_text(all.skip(i + 1), indent as int)->0;
            assert(before + (t@ + rest) =~= (before + t@) + rest);
        }
        i = i + 1;
    }
    assert(all.skip(i as int) =~= Seq::<NodeV>::empty());
    assert(s@ + Seq::<char>::empty() =~= s@);
    s
}

} // verus!
