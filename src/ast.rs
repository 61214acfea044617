use vstd::prelude::*;

use crate::lexer::Decimal;

verus! {

#[derive(Debug, Clone, Copy, PartialEq, Eq, Structural)]
pub enum Op {
    Plus,
    Minus,
    Multiply,
    Divide,
}

#[derive(Debug, PartialEq)]
pub struct Assign {
    pub left: Box<ASTNode>,
    pub right: Box<ASTNode>,
}

/// One `name: value` field of a struct-instance literal.
#[derive(Debug, PartialEq)]
pub struct Property {
    pub name: String,
    pub value: Box<ASTNode>,
}

#[derive(Debug, PartialEq)]
pub struct StructIns {
    pub name: String,
    pub probs: Vec<Property>,
}

#[derive(Debug, PartialEq)]
pub struct Array {
    pub items: Vec<ASTNode>,
}

#[derive(Debug, PartialEq)]
pub struct Call {
    pub callee: Box<ASTNode>,
    pub args: Vec<ASTNode>,
}

/// One declared field of a type: its name and the name of its type.
#[derive(Debug, PartialEq)]
pub struct TypeField {
    pub name: String,
    pub typ: String,
}

#[derive(Debug, PartialEq)]
pub struct StructDef {
    pub name: String,
    pub fields: Vec<TypeField>,
}

#[derive(Debug, PartialEq)]
pub struct Fun {
    pub params: Vec<ASTNode>,
    pub body: Vec<ASTNode>,
}

/// A typed variable declaration `typ name`.
#[derive(Debug, PartialEq)]
pub struct Var {
    pub name: String,
    pub typ: String,
}

#[derive(Debug, PartialEq)]
pub struct ProbAccess {
    pub object: Box<ASTNode>,
    pub property: String,
}

#[derive(Debug, PartialEq)]
pub struct BinOp {
    pub left: Box<ASTNode>,
    pub op: Op,
    pub right: Box<ASTNode>,
}

#[derive(Debug, PartialEq)]
pub struct Ret {
    pub value: Box<Option<ASTNode>>,
}

#[derive(Debug, PartialEq)]
pub enum ASTNode {
    Ident(String),
    Assign(Assign),
    StructIns(StructIns),
    Array(Array),
    Call(Call),
    Str(String),
    Int(i64),
    Float(Decimal),
    Fun(Fun),
    StructDef(StructDef),
    Var(Var),
    ProbAccess(ProbAccess),
    Ret(Ret),
    BinOp(BinOp),
}

/// A syntax tree as a mathematical value: names are character sequences.
pub enum AstV {
    Ident(Seq<char>),
    Assign(Box<AstV>, Box<AstV>),
    StructIns(Seq<char>, Seq<(Seq<char>, AstV)>),
    Array(Seq<AstV>),
    Call(Box<AstV>, Seq<AstV>),
    Str(Seq<char>),
    Int(i64),
    Float(Decimal),
    Fun(Seq<AstV>, Seq<AstV>),
    StructDef(Seq<char>, Seq<(Seq<char>, Seq<char>)>),
    Var(Seq<char>, Seq<char>),
    ProbAccess(Box<AstV>, Seq<char>),
    Ret(Option<Box<AstV>>),
    BinOp(Box<AstV>, Op, Box<AstV>),
}

pub open spec fn node_view(n: ASTNode) -> AstV
    decreases n,
{
    match n {
        ASTNode::Ident(s) => AstV::Ident(s@),
        ASTNode::Assign(a) => AstV::Assign(
            Box::new(node_view(*a.left)),
            Box::new(node_view(*a.right)),
        ),
        ASTNode::StructIns(si) => AstV::StructIns(si.name@, props_view(si.probs@)),
        ASTNode::Array(a) => AstV::Array(nodes_view(a.items@)),
        ASTNode::Call(c) => AstV::Call(Box::new(node_view(*c.callee)), nodes_view(c.args@)),
        ASTNode::Str(s) => AstV::Str(s@),
        ASTNode::Int(v) => AstV::Int(v),
        ASTNode::Float(d) => AstV::Float(d),
        ASTNode::Fun(f) => AstV::Fun(nodes_view(f.params@), nodes_view(f.body@)),
        ASTNode::StructDef(d) => AstV::StructDef(d.name@, fields_view(d.fields@)),
        ASTNode::Var(v) => AstV::Var(v.name@, v.typ@),
        ASTNode::ProbAccess(p) => AstV::ProbAccess(Box::new(node_view(*p.object)), p.property@),
        ASTNode::Ret(r) => match *r.value {
            Some(v) => AstV::Ret(Some(Box::new(node_view(v)))),
            None => AstV::Ret(None),
        },
        ASTNode::BinOp(b) => AstV::BinOp(
            Box::new(node_view(*b.left)),
            b.op,
            Box::new(node_view(*b.right)),
        ),
    }
}

pub open spec fn nodes_view(s: Seq<ASTNode>) -> Seq<AstV>
    decreases s,
{
    if s.len() == 0 {
        Seq::empty()
    } else {
        nodes_view(s.drop_last()).push(node_view(s.last()))
    }
}

pub open spec fn props_view(s: Seq<Property>) -> Seq<(Seq<char>, AstV)>
    decreases s,
{
    if s.len() == 0 {
        Seq::empty()
    } else {
        props_view(s.drop_last()).push((s.last().name@, node_view(*s.last().value)))
    }
}

pub open spec fn fields_view(s: Seq<TypeField>) -> Seq<(Seq<char>, Seq<char>)> {
    s.map_values(|f: TypeField| (f.name@, f.typ@))
}

impl View for ASTNode {
    type V = AstV;

    open spec fn view(&self) -> AstV {
        node_view(*self)
    }
}

pub proof fn lemma_nodes_view_push(s: Seq<ASTNode>, n: ASTNode)
    ensures
        nodes_view(s.push(n)) == nodes_view(s).push(node_view(n)),
{
    assert(s.push(n).drop_last() =~= s);
}

pub proof fn lemma_props_view_push(s: Seq<Property>, p: Property)
    ensures
        props_view(s.push(p)) == props_view(s).push((p.name@, node_view(*p.value))),
{
    assert(s.push(p).drop_last() =~= s);
}

pub proof fn lemma_nodes_view_len(s: Seq<ASTNode>)
    ensures
        nodes_view(s).len() == s.len(),
    decreases s.len(),
{
    if s.len() > 0 {
        lemma_nodes_view_len(s.drop_last());
    }
}

} // verus!
