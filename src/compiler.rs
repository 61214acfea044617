use vstd::prelude::*;

use crate::ast::{
    lemma_nodes_view_len, lemma_nodes_view_push, node_view, nodes_view,
    props_view, ASTNode, AstV, Op, Property,
};
use crate::bytecode::ByteCode;
use crate::ident_map::IdentMap;
use crate::types::{lemma_values_view_push, value_view, values_view, Const, Value, ValueV};

verus! {

/// What compiling has produced so far: the identifier table with the number of names in it,
/// the constant pool, the instructions of the code being compiled, and the bodies of the
/// function literals met so far. The body `functions[k]` is block `k + 1` of the unit; block 0
/// is its main code.
pub struct CompileState {
    pub idents: Map<Seq<char>, usize>,
    pub count: nat,
    pub consts: Seq<ValueV>,
    pub code: Seq<ByteCode>,
    pub functions: Seq<Seq<ByteCode>>,
}

pub open spec fn empty_state() -> CompileState {
    CompileState { idents: Map::empty(), count: 0, consts: seq![], code: seq![], functions: seq![] }
}

/// The id of `name`: the one it has, or the next one, which it then gets.
pub open spec fn intern(s: CompileState, name: Seq<char>) -> (CompileState, usize) {
    if s.idents.contains_key(name) {
        (s, s.idents[name])
    } else {
        (
            CompileState {
                idents: s.idents.insert(name, s.count as usize),
                count: s.count + 1,
                ..s
            },
            s.count as usize,
        )
    }
}

pub open spec fn emit(s: CompileState, b: ByteCode) -> CompileState {
    CompileState { code: s.code.push(b), ..s }
}

/// Appends `v` to the constant pool and loads it.
pub open spec fn load_const(s: CompileState, v: ValueV) -> CompileState {
    emit(
        CompileState { consts: s.consts.push(v), ..s },
        ByteCode::LoadConst(s.consts.len() as usize),
    )
}

pub open spec fn arith(op: Op) -> ByteCode {
    match op {
        Op::Plus => ByteCode::Add,
        Op::Minus => ByteCode::Sub,
        Op::Multiply => ByteCode::Mul,
        Op::Divide => ByteCode::Div,
    }
}

/// What compiling `n` adds to `s`.
pub open spec fn compile_node_spec(n: AstV, s: CompileState) -> CompileState
    decreases n,
{
    match n {
        AstV::Ident(x) => {
            let (s1, id) = intern(s, x);
            emit(s1, ByteCode::LoadIdent(id))
        },
        AstV::Assign(l, r) => emit(
            compile_node_spec(*r, compile_node_spec(*l, s)),
            ByteCode::Store,
        ),
        AstV::StructIns(name, props) => {
            let (s1, id) = intern(compile_props_spec(props, s), name);
            emit(s1, ByteCode::LoadIdent(id))
        },
        AstV::Array(items) => emit(
            compile_seq_spec(items, s),
            ByteCode::MakeArray(items.len() as usize),
        ),
        AstV::Call(callee, args) => emit(
            compile_seq_spec(args, compile_node_spec(*callee, s)),
            ByteCode::Call(args.len() as usize),
        ),
        AstV::Str(t) => load_const(s, ValueV::Str(t)),
        AstV::Int(v) => load_const(s, ValueV::Int(v)),
        AstV::Float(d) => load_const(s, ValueV::Float(d)),
        AstV::Fun(params, body) => {
            let s1 = compile_seq_spec(params, s);
            let inner = compile_seq_spec(body, CompileState { code: seq![], ..s1 });
            emit(
                CompileState { code: s1.code, functions: inner.functions.push(inner.code), ..inner },
                ByteCode::MakeFn(params.len() as usize, (inner.functions.len() + 1) as usize),
            )
        },
        AstV::StructDef(name, fields) => {
            let (s1, id) = intern(compile_fields_spec(fields, s), name);
            emit(s1, ByteCode::CreateStruct(id))
        },
        AstV::Var(_, _) => s,
        AstV::ProbAccess(_, _) => s,
        AstV::Ret(v) => match v {
            Some(e) => compile_node_spec(*e, s),
            None => s,
        },
        AstV::BinOp(l, op, r) => emit(compile_node_spec(*r, compile_node_spec(*l, s)), arith(op)),
    }
}

/// Compiling the nodes `ns` one after another.
pub open spec fn compile_seq_spec(ns: Seq<AstV>, s: CompileState) -> CompileState
    decreases ns,
{
    if ns.len() == 0 {
        s
    } else {
        compile_node_spec(ns.last(), compile_seq_spec(ns.drop_last(), s))
    }
}

/// Each field value of a struct-instance literal, then the instruction that stores it.
pub open spec fn compile_props_spec(ps: Seq<(Seq<char>, AstV)>, s: CompileState) -> CompileState
    decreases ps,
{
    if ps.len() == 0 {
        s
    } else {
        let s1 = compile_node_spec(ps.last().1, compile_props_spec(ps.drop_last(), s));
        let (s2, id) = intern(s1, ps.last().0);
        emit(s2, ByteCode::StoreField(id))
    }
}

/// One instruction adding each declared field of a type.
pub open spec fn compile_fields_spec(fs: Seq<(Seq<char>, Seq<char>)>, s: CompileState) -> CompileState
    decreases fs.len(),
{
    if fs.len() == 0 {
        s
    } else {
        let (s1, id) = intern(compile_fields_spec(fs.drop_last(), s), fs.last().0);
        emit(s1, ByteCode::AddField(id))
    }
}

/// Interning is stable: a name that was interned keeps its id, and the table stays as it is.
pub proof fn lemma_intern_stable(s: CompileState, x: Seq<char>)
    ensures
        intern(intern(s, x).0, x) == intern(s, x),
{
}

/// An assignment of a name to itself loads the same id twice, then stores.
pub proof fn lemma_self_assign_same_id(s: CompileState, x: Seq<char>)
    ensures
        compile_node_spec(
            AstV::Assign(Box::new(AstV::Ident(x)), Box::new(AstV::Ident(x))),
            s,
        ).code == s.code + seq![
            ByteCode::LoadIdent(intern(s, x).1),
            ByteCode::LoadIdent(intern(s, x).1),
            ByteCode::Store,
        ],
{
    let id = intern(s, x).1;
    let s1 = emit(intern(s, x).0, ByteCode::LoadIdent(id));
    assert(compile_node_spec(AstV::Ident(x), s) == s1);
    assert(s1.idents.contains_key(x));
    assert(s1.idents[x] == id);
    assert(intern(s1, x) == (s1, id));
    let s2 = emit(s1, ByteCode::LoadIdent(id));
    assert(compile_node_spec(AstV::Ident(x), s1) == s2);
    assert(compile_node_spec(
        AstV::Assign(Box::new(AstV::Ident(x)), Box::new(AstV::Ident(x))),
        s,
    ) == emit(s2, ByteCode::Store));
    assert(s1.code + seq![ByteCode::LoadIdent(intern(s, x).1)] =~= s.code + seq![
        ByteCode::LoadIdent(intern(s, x).1),
        ByteCode::LoadIdent(intern(s, x).1),
    ]);
    assert(s.code + seq![
        ByteCode::LoadIdent(intern(s, x).1),
        ByteCode::LoadIdent(intern(s, x).1),
    ] + seq![ByteCode::Store] =~= s.code + seq![
        ByteCode::LoadIdent(intern(s, x).1),
        ByteCode::LoadIdent(intern(s, x).1),
        ByteCode::Store,
    ]);
}

/// An empty array literal compiles to `MakeArray(0)` alone, touching neither table.
pub proof fn lemma_empty_array(s: CompileState)
    ensures
        compile_node_spec(AstV::Array(seq![]), s) == emit(s, ByteCode::MakeArray(0)),
{
    assert(compile_seq_spec(seq![], s) == s);
}

/// The output of a compilation: the main code, the constants it loads, and the bodies of its
/// function literals (`functions[k]` is block `k + 1`).
#[derive(Debug)]
pub struct CompileRes {
    pub bytecode: Vec<ByteCode>,
    pub consts: Vec<Const>,
    pub functions: Vec<Vec<ByteCode>>,
}

pub open spec fn blocks_view(v: Seq<Vec<ByteCode>>) -> Seq<Seq<ByteCode>> {
    v.map_values(|b: Vec<ByteCode>| b@)
}

pub struct Compiler {
    pub consts: Vec<Value>,
    pub idents: IdentMap,
    pub bytecode: Vec<ByteCode>,
    pub functions: Vec<Vec<ByteCode>>,
}

impl Compiler {
    pub closed spec fn state(&self) -> CompileState {
        CompileState {
            idents: self.idents.view(),
            count: self.idents.count(),
            consts: values_view(self.consts@),
            code: self.bytecode@,
            functions: blocks_view(self.functions@),
        }
    }

    pub closed spec fn wf(&self) -> bool {
        self.idents.wf()
    }

    pub fn new() -> (r: Compiler)
        ensures
            r.wf(),
            r.state() == empty_state(),
    {
        let r = Compiler {
            consts: Vec::new(),
            idents: IdentMap::new(),
            bytecode: Vec::new(),
            functions: Vec::new(),
        };
        assert(values_view(r.consts@) =~= Seq::<ValueV>::empty());
        assert(blocks_view(r.functions@) =~= Seq::<Seq<ByteCode>>::empty());
        r
    }

    fn store_const(&mut self, v: Value) -> (r: usize)
        ensures
            final(self).consts@ == old(self).consts@.push(v),
            final(self).idents == old(self).idents,
            final(self).bytecode == old(self).bytecode,
            final(self).functions == old(self).functions,
            r == old(self).consts@.len(),
    {
        let id = self.consts.len();
        self.consts.push(v);
        id
    }

    fn store_ident(&mut self, ident: &String) -> (r: usize)
        requires
            old(self).wf(),
        ensures
            final(self).wf(),
            (final(self).state(), r) == intern(old(self).state(), ident@),
    {
        match self.idents.get(ident.as_str()) {
            Some(id) => id,
            None => {
                let id = self.idents.len();
                self.idents.insert(ident.clone(), id);
                id
            },
        }
    }

    fn emit(&mut self, b: ByteCode)
        ensures
            final(self).wf() == old(self).wf(),
            final(self).state() == emit(old(self).state(), b),
    {
        self.bytecode.push(b);
    }

    fn load_const(&mut self, v: Value)
        ensures
            final(self).wf() == old(self).wf(),
            final(self).state() == load_const(old(self).state(), v@),
    {
        proof {
            lemma_values_view_push(self.consts@, v);
            crate::types::lemma_values_view_len(self.consts@);
        }
        let id = self.store_const(v);
        self.emit(ByteCode::LoadConst(id));
    }

    fn compile_nodes(&mut self, nodes: &Vec<ASTNode>)
        requires
            old(self).wf(),
        ensures
            final(self).wf(),
            final(self).state() == compile_seq_spec(nodes_view(nodes@), old(self).state()),
        decreases nodes@,
    {
        let mut k: usize = 0;
        proof {
            lemma_nodes_view_len(nodes@);
        }
        assert(nodes_view(nodes@.subrange(0, 0)) =~= Seq::<AstV>::empty());
        while k < nodes.len()
            invariant
                self.wf(),
                k <= nodes@.len(),
                self.state() == compile_seq_spec(
                    nodes_view(nodes@.subrange(0, k as int)),
                    old(self).state(),
                ),
            decreases nodes@.len() - k,
        {
            proof {
                lemma_nodes_view_push(nodes@.subrange(0, k as int), nodes@[k as int]);
                assert(nodes@.subrange(0, k as int).push(nodes@[k as int]) =~= nodes@.subrange(
                    0,
                    k + 1,
                ));
                let vs = nodes_view(nodes@.subrange(0, k + 1));
                assert(vs.drop_last() == nodes_view(nodes@.subrange(0, k as int)));
                assert(decreases_to!(nodes@ => nodes@[k as int]));
            }
            self.compile_node(&nodes[k]);
            k += 1;
        }
        assert(nodes@.subrange(0, k as int) =~= nodes@);
    }

    fn compile_props(&mut self, props: &Vec<Property>)
        requires
            old(self).wf(),
        ensures
            final(self).wf(),
            final(self).state() == compile_props_spec(props_view(props@), old(self).state()),
        decreases props@,
    {
        let mut k: usize = 0;
        assert(props_view(props@.subrange(0, 0)) =~= Seq::<(Seq<char>, AstV)>::empty());
        while k < props.len()
            invariant
                self.wf(),
                k <= props@.len(),
                self.state() == compile_props_spec(
                    props_view(props@.subrange(0, k as int)),
                    old(self).state(),
                ),
            decreases props@.len() - k,
        {
            proof {
                crate::ast::lemma_props_view_push(props@.subrange(0, k as int), props@[k as int]);
                assert(props@.subrange(0, k as int).push(props@[k as int]) =~= props@.subrange(
                    0,
                    k + 1,
                ));
                let vs = props_view(props@.subrange(0, k + 1));
                assert(vs.drop_last() == props_view(props@.subrange(0, k as int)));
                assert(decreases_to!(props@ => props@[k as int]));
                assert(decreases_to!(props@[k as int] => props@[k as int].value));
            }
            self.compile_node(&props[k].value);
            self.store_field(&props[k].name);
            k += 1;
        }
        assert(props@.subrange(0, k as int) =~= props@);
    }

    fn store_field(&mut self, name: &String)
        requires
            old(self).wf(),
        ensures
            final(self).wf(),
            final(self).state() == ({
                let (s, id) = intern(old(self).state(), name@);
                emit(s, ByteCode::StoreField(id))
            }),
    {
        let id = self.store_ident(name);
        self.emit(ByteCode::StoreField(id));
    }

    fn compile_node(&mut self, node: &ASTNode)
        requires
            old(self).wf(),
        ensures
            final(self).wf(),
            final(self).state() == compile_node_spec(node_view(*node), old(self).state()),
        decreases node,
    {
        match node {
            ASTNode::Ident(ident) => {
                let id = self.store_ident(ident);
                self.emit(ByteCode::LoadIdent(id));
            },
            ASTNode::Assign(asg) => {
                self.compile_node(&asg.left);
                self.compile_node(&asg.right);
                self.emit(ByteCode::Store);
            },
            ASTNode::StructIns(obj) => {
                self.compile_props(&obj.probs);
                let id = self.store_ident(&obj.name);
                self.emit(ByteCode::LoadIdent(id));
            },
            ASTNode::Array(a) => {
                self.compile_nodes(&a.items);
                proof {
                    lemma_nodes_view_len(a.items@);
                }
                self.emit(ByteCode::MakeArray(a.items.len()));
            },
            ASTNode::Call(call) => {
                self.compile_node(&call.callee);
                self.compile_nodes(&call.args);
                proof {
                    lemma_nodes_view_len(call.args@);
                }
                self.emit(ByteCode::Call(call.args.len()));
            },
            ASTNode::Str(s) => {
                self.load_const(Value::Str(s.clone()));
            },
            ASTNode::Int(v) => {
                self.load_const(Value::Int(*v));
            },
            ASTNode::Float(d) => {
                self.load_const(Value::Float(*d));
            },
            ASTNode::Fun(def) => {
                self.compile_nodes(&def.params);
                let ghost s1 = self.state();
                let mut outer: Vec<ByteCode> = Vec::new();
                std::mem::swap(&mut outer, &mut self.bytecode);
                assert(self.state() == (CompileState { code: seq![], ..s1 }));
                self.compile_nodes(&def.body);
                let ghost inner = self.state();
                let mut body: Vec<ByteCode> = Vec::new();
                std::mem::swap(&mut body, &mut self.bytecode);
                std::mem::swap(&mut outer, &mut self.bytecode);
                self.functions.push(body);
                proof {
                    lemma_nodes_view_len(def.params@);
                    assert(blocks_view(self.functions@) =~= inner.functions.push(inner.code));
                }
                let b = self.functions.len();
                self.emit(ByteCode::MakeFn(def.params.len(), b));
            },
            ASTNode::StructDef(def) => {
                let mut k: usize = 0;
                let ghost fs = crate::ast::fields_view(def.fields@);
                let ghost s0 = self.state();
                assert(fs.subrange(0, 0) =~= Seq::<(Seq<char>, Seq<char>)>::empty());
                while k < def.fields.len()
                    invariant
                        self.wf(),
                        k <= def.fields@.len(),
                        fs == crate::ast::fields_view(def.fields@),
                        self.state() == compile_fields_spec(fs.subrange(0, k as int), s0),
                    decreases def.fields@.len() - k,
                {
                    let id = self.store_ident(&def.fields[k].name);
                    self.emit(ByteCode::AddField(id));
                    proof {
                        let sub = fs.subrange(0, k + 1);
                        assert(sub.drop_last() =~= fs.subrange(0, k as int));
                        assert(sub.last() == fs[k as int]);
                    }
                    k += 1;
                }
                assert(fs.subrange(0, k as int) =~= fs);
                let id = self.store_ident(&def.name);
                self.emit(ByteCode::CreateStruct(id));
            },
            ASTNode::Var(_) => {},
            ASTNode::ProbAccess(_) => {},
            ASTNode::Ret(r) => {
                match &*r.value {
                    Some(e) => {
                        assert(decreases_to!(*node => node->Ret_0));
                        assert(decreases_to!(node->Ret_0 => node->Ret_0.value));
                        self.compile_node(e);
                    },
                    None => {},
                }
            },
            ASTNode::BinOp(bin_op) => {
                self.compile_node(&bin_op.left);
                self.compile_node(&bin_op.right);
                let b = match bin_op.op {
                    Op::Plus => ByteCode::Add,
                    Op::Minus => ByteCode::Sub,
                    Op::Multiply => ByteCode::Mul,
                    Op::Divide => ByteCode::Div,
                };
                self.emit(b);
            },
        }
    }

    /// The instructions and the constant pool, each constant with its index as its id.
    pub fn finish(self) -> (r: CompileRes)
        ensures
            r.bytecode@ == self.state().code,
            blocks_view(r.functions@) == self.state().functions,
            r.consts@.len() == self.state().consts.len(),
            forall|k: int|
                0 <= k < r.consts@.len() ==> (#[trigger] r.consts@[k]).id == k && value_view(
                    r.consts@[k].value,
                ) == self.state().consts[k],
    {
        let mut consts: Vec<Const> = Vec::new();
        let mut k: usize = 0;
        proof {
            crate::types::lemma_values_view_len(self.consts@);
        }
        while k < self.consts.len()
            invariant
                k <= self.consts@.len(),
                consts@.len() == k,
                values_view(self.consts@).len() == self.consts@.len(),
                forall|j: int|
                    0 <= j < k ==> (#[trigger] consts@[j]).id == j && value_view(consts@[j].value)
                        == values_view(self.consts@)[j],
            decreases self.consts@.len() - k,
        {
            proof {
                crate::types::lemma_values_view_index(self.consts@, k as int);
            }
            consts.push(Const { id: k, value: self.consts[k].duplicate() });
            k += 1;
        }
        CompileRes { bytecode: self.bytecode, consts, functions: self.functions }
    }

    /// Compiles the statements of `ast` in order, after what was compiled before.
    pub fn compile(self, ast: Vec<ASTNode>) -> (r: Self)
        requires
            self.wf(),
        ensures
            r.wf(),
            r.state() == compile_seq_spec(nodes_view(ast@), self.state()),
    {
        let mut c = self;
        c.compile_nodes(&ast);
        c
    }
}

} // verus!
