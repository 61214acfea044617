use std::collections::HashMap;

use vstd::prelude::*;

use crate::bytecode::ByteCode;
use crate::lexer::Decimal;
use crate::machine::{
    arith_values, bind_params, construct_actions, dec_arith, frames_valid, instr_done, int_arith,
    lemma_frames_valid_same, lemma_resolve_all_err, names_of, rescale, resolve, resolve_all,
    return_to, return_value, run_from, work_spec, ActionV, Flow, MachineV, OperandV, RuntimeError,
    VmV, QUOTIENT_PLACES,
};
use crate::scope::{bindings_view, env_get, env_insert, env_view, lookup_chain, Scope};
use crate::types::{lemma_values_view_push, value_view, values_view, Action, Const, Value, ValueV};

verus! {

/// An operand on the machine's stack.
pub enum Operand {
    Name(usize),
    Val(Value),
}

pub open spec fn operand_view(o: Operand) -> OperandV {
    match o {
        Operand::Name(id) => OperandV::Name(id),
        Operand::Val(v) => OperandV::Val(value_view(v)),
    }
}

pub open spec fn action_view(a: Action) -> ActionV {
    match a {
        Action::Construct { id } => ActionV::Construct { id },
        Action::Destruct { id } => ActionV::Destruct { id },
        Action::LoadField { id, field } => ActionV::LoadField { id, field },
        Action::StoreField { id, field, val } => ActionV::StoreField {
            id,
            field,
            val: value_view(val),
        },
        Action::Call { id, args } => ActionV::Call { id, args: values_view(args@) },
        Action::Import { path } => ActionV::Import { path: path@ },
        Action::Quit => ActionV::Quit,
    }
}

pub open spec fn actions_view(s: Seq<Action>) -> Seq<ActionV> {
    s.map_values(|a: Action| action_view(a))
}

/// A frame: the block it runs, the index of its next instruction, and for a call the stack
/// height and the chain of environments to return to.
struct CallItem {
    blk: usize,
    pc: usize,
    ret: Option<(usize, Vec<usize>)>,
}

spec fn ret_view(r: Option<(usize, Vec<usize>)>) -> Option<(nat, Seq<usize>)> {
    match r {
        Some((h, c)) => Some((h as nat, c@)),
        None => None,
    }
}

spec fn frame_view(c: CallItem) -> (usize, nat, Option<(nat, Seq<usize>)>) {
    (c.blk, c.pc as nat, ret_view(c.ret))
}

/// A stack machine that runs compiled blocks one step at a time and queues host actions.
pub struct Vm {
    code_blocks: Vec<Vec<ByteCode>>,
    call_stack: Vec<CallItem>,
    started: bool,
    scope: Scope,
    stack: Vec<Operand>,
    actions: Vec<Action>,
    consts: HashMap<usize, Value>,
    fields: Vec<(usize, Value)>,
    decl: Vec<usize>,
    types: Vec<(usize, Vec<usize>)>,
    error: Option<RuntimeError>,
}

impl Vm {
    pub closed spec fn machine(&self) -> MachineV {
        MachineV {
            envs: self.scope.envs(),
            chain: self.scope.chain(),
            stack: self.stack@.map_values(|o: Operand| operand_view(o)),
            consts: env_view(self.consts@),
            actions: actions_view(self.actions@),
            fields: bindings_view(self.fields@),
            decl: self.decl@,
            types: self.types@.map_values(|p: (usize, Vec<usize>)| (p.0, p.1@)),
        }
    }

    pub closed spec fn view(&self) -> VmV {
        VmV {
            blocks: self.code_blocks@.map_values(|b: Vec<ByteCode>| b@),
            frames: self.call_stack@.map_values(|c: CallItem| frame_view(c)),
            started: self.started,
            m: self.machine(),
            error: self.error,
        }
    }

    pub closed spec fn wf(&self) -> bool {
        frames_valid(self.view())
    }

    pub fn new() -> (r: Vm)
        ensures
            r.wf(),
            r.view() == crate::machine::fresh_machine(),
    {
        let r = Vm {
            code_blocks: Vec::new(),
            call_stack: Vec::new(),
            started: false,
            scope: Scope::new(),
            stack: Vec::new(),
            actions: Vec::new(),
            consts: HashMap::new(),
            fields: Vec::new(),
            decl: Vec::new(),
            types: Vec::new(),
            error: None,
        };
        assert(r.machine() =~= MachineV {
            envs: seq![Map::empty()],
            chain: seq![0usize],
            stack: seq![],
            consts: Map::empty(),
            actions: seq![],
            fields: seq![],
            decl: seq![],
            types: seq![],
        });
        assert(r.view() =~= VmV {
            blocks: seq![],
            frames: seq![],
            started: false,
            m: r.machine(),
            error: None,
        });
        r
    }

    /// The actions queued since they were last cleared.
    pub fn actions(&self) -> (r: &Vec<Action>)
        ensures
            actions_view(r@) == self.view().m.actions,
    {
        &self.actions
    }

    /// The error that stopped the machine, if one did.
    pub fn error(&self) -> (r: Option<RuntimeError>)
        ensures
            r == self.view().error,
    {
        self.error
    }

    /// Stops the machine: from now on each step reports `Aborted`, or the error that stopped
    /// it before.
    pub fn abort(&mut self)
        ensures
            final(self).wf() == old(self).wf(),
            final(self).view() == (VmV {
                error: if old(self).view().error is Some {
                    old(self).view().error
                } else {
                    Some(RuntimeError::Aborted)
                },
                ..old(self).view()
            }),
    {
        if self.error.is_none() {
            self.error = Some(RuntimeError::Aborted);
        }
        proof {
            lemma_frames_valid_same(self.view(), old(self).view());
        }
    }

    pub fn clear_actions(&mut self)
        ensures
            final(self).wf() == old(self).wf(),
            final(self).view() == (VmV {
                m: MachineV { actions: seq![], ..old(self).view().m },
                ..old(self).view()
            }),
    {
        self.actions = Vec::new();
        assert(self.machine() =~= MachineV { actions: seq![], ..old(self).machine() });
        assert(self.view().frames =~= old(self).view().frames);
        assert(self.view().blocks =~= old(self).view().blocks);
        assert(self.view() =~= VmV {
            m: MachineV { actions: seq![], ..old(self).view().m },
            ..old(self).view()
        });
        proof {
            lemma_frames_valid_same(self.view(), old(self).view());
        }
    }

    /// Adds the constant `c` to the pool, in place of any earlier constant with its id.
    pub fn store_const(&mut self, c: Const)
        ensures
            final(self).wf() == old(self).wf(),
            final(self).view() == (VmV {
                m: MachineV {
                    consts: old(self).view().m.consts.insert(c.id, value_view(c.value)),
                    ..old(self).view().m
                },
                ..old(self).view()
            }),
    {
        env_insert(&mut self.consts, c.id, c.value);
        assert(self.machine() =~= MachineV {
            consts: old(self).machine().consts.insert(c.id, value_view(c.value)),
            ..old(self).machine()
        });
        assert(self.view().frames =~= old(self).view().frames);
        assert(self.view().blocks =~= old(self).view().blocks);
        proof {
            lemma_frames_valid_same(self.view(), old(self).view());
        }
    }

    /// Loads a block of code; its id is returned.
    pub fn create_code_block(&mut self, code: &[ByteCode]) -> (r: usize)
        requires
            old(self).wf(),
        ensures
            final(self).wf(),
            r == old(self).view().blocks.len(),
            final(self).view() == (VmV {
                blocks: old(self).view().blocks.push(code@),
                ..old(self).view()
            }),
    {
        let id = self.code_blocks.len();
        let mut block: Vec<ByteCode> = Vec::new();
        let mut k: usize = 0;
        while k < code.len()
            invariant
                k <= code@.len(),
                block@ == code@.subrange(0, k as int),
            decreases code@.len() - k,
        {
            block.push(code[k]);
            k += 1;
            assert(block@ =~= code@.subrange(0, k as int));
        }
        assert(block@ =~= code@);
        self.code_blocks.push(block);
        assert(self.view().blocks =~= old(self).view().blocks.push(code@));
        assert(self.view() =~= VmV { blocks: old(self).view().blocks.push(code@), ..old(self).view() });
        proof {
            let v = self.view();
            assert forall|j: int| 0 <= j < v.frames.len() implies {
                &&& (#[trigger] v.frames[j]).0 < v.blocks.len()
                &&& v.frames[j].1 <= v.blocks[v.frames[j].0 as int].len()
            } by {
                assert(old(self).view().frames[j] == v.frames[j]);
                assert(v.blocks[v.frames[j].0 as int] == old(self).view().blocks[v.frames[j].0 as int]);
            }
        }
        id
    }
}


fn rescale_exec(m: i64, k: u32) -> (r: Option<i64>)
    ensures
        r == rescale(m, k as nat),
{
    let mut acc: Option<i64> = Some(m);
    let mut j: u32 = 0;
    while j < k
        invariant
            j <= k,
            acc == rescale(m, j as nat),
        decreases k - j,
    {
        acc = match acc {
            Some(v) => v.checked_mul(10),
            None => None,
        };
        j += 1;
    }
    acc
}

/// `m * 10^(k + QUOTIENT_PLACES)`, where `k + QUOTIENT_PLACES` does not fit in `u32`.
fn rescale_big(m: i64, k: u32) -> (r: Option<i64>)
    requires
        k > u32::MAX - QUOTIENT_PLACES,
    ensures
        r == rescale(m, k as nat + QUOTIENT_PLACES as nat),
{
    let mut acc = rescale_exec(m, k);
    let mut j: u32 = 0;
    while j < QUOTIENT_PLACES
        invariant
            j <= QUOTIENT_PLACES,
            acc == rescale(m, k as nat + j as nat),
        decreases QUOTIENT_PLACES - j,
    {
        acc = match acc {
            Some(v) => v.checked_mul(10),
            None => None,
        };
        j += 1;
    }
    acc
}

fn fits_exec(r: Option<i64>) -> (out: Result<i64, RuntimeError>)
    ensures
        out == crate::machine::fits(r),
{
    match r {
        Some(v) => Ok(v),
        None => Err(RuntimeError::Overflow),
    }
}

fn int_arith_exec(b: ByteCode, x: i64, y: i64) -> (r: Result<Value, RuntimeError>)
    ensures
        match int_arith(b, x, y) {
            Ok(v) => r is Ok && value_view(r->Ok_0) == v,
            Err(e) => r == Err::<Value, RuntimeError>(e),
        },
{
    let res = match b {
        ByteCode::Add => fits_exec(x.checked_add(y)),
        ByteCode::Sub => fits_exec(x.checked_sub(y)),
        ByteCode::Mul => fits_exec(x.checked_mul(y)),
        _ => if y == 0 {
            Err(RuntimeError::DivisionByZero)
        } else {
            fits_exec(x.checked_div(y))
        },
    };
    match res {
        Ok(v) => Ok(Value::Int(v)),
        Err(e) => Err(e),
    }
}

fn dec_arith_exec(b: ByteCode, x: Decimal, y: Decimal) -> (r: Result<Value, RuntimeError>)
    ensures
        match dec_arith(b, x, y) {
            Ok(v) => r is Ok && value_view(r->Ok_0) == v,
            Err(e) => r == Err::<Value, RuntimeError>(e),
        },
{
    match b {
        ByteCode::Mul => match (x.mantissa.checked_mul(y.mantissa), x.scale.checked_add(y.scale)) {
            (Some(m), Some(s)) => Ok(Value::Float(Decimal { mantissa: m, scale: s })),
            _ => Err(RuntimeError::Overflow),
        },
        ByteCode::Div => if y.mantissa == 0 {
            Err(RuntimeError::DivisionByZero)
        } else {
            let n = if y.scale <= u32::MAX - QUOTIENT_PLACES {
                rescale_exec(x.mantissa, y.scale + QUOTIENT_PLACES)
            } else {
                rescale_big(x.mantissa, y.scale)
            };
            match (n, x.scale.checked_add(QUOTIENT_PLACES)) {
                (Some(n), Some(s)) => match n.checked_div(y.mantissa) {
                    Some(q) => Ok(Value::Float(Decimal { mantissa: q, scale: s })),
                    None => Err(RuntimeError::Overflow),
                },
                _ => Err(RuntimeError::Overflow),
            }
        },
        _ => {
            let s = if x.scale >= y.scale {
                x.scale
            } else {
                y.scale
            };
            match (rescale_exec(x.mantissa, s - x.scale), rescale_exec(y.mantissa, s - y.scale)) {
                (Some(a), Some(c)) => {
                    let r = if let ByteCode::Add = b {
                        a.checked_add(c)
                    } else {
                        a.checked_sub(c)
                    };
                    match r {
                        Some(m) => Ok(Value::Float(Decimal { mantissa: m, scale: s })),
                        None => Err(RuntimeError::Overflow),
                    }
                },
                _ => Err(RuntimeError::Overflow),
            }
        },
    }
}

fn arith_exec(b: ByteCode, l: &Value, r: &Value) -> (out: Result<Value, RuntimeError>)
    ensures
        match arith_values(b, value_view(*l), value_view(*r)) {
            Ok(v) => out is Ok && value_view(out->Ok_0) == v,
            Err(e) => out == Err::<Value, RuntimeError>(e),
        },
{
    match (l, r) {
        (Value::Int(x), Value::Int(y)) => int_arith_exec(b, *x, *y),
        _ => {
            let dl = match l {
                Value::Int(n) => Some(Decimal { mantissa: *n, scale: 0 }),
                Value::Float(d) => Some(*d),
                _ => None,
            };
            let dr = match r {
                Value::Int(n) => Some(Decimal { mantissa: *n, scale: 0 }),
                Value::Float(d) => Some(*d),
                _ => None,
            };
            match (dl, dr) {
                (Some(x), Some(y)) => dec_arith_exec(b, x, y),
                _ => Err(RuntimeError::TypeMismatch),
            }
        },
    }
}


pub open spec fn stack_view(s: Seq<Operand>) -> Seq<OperandV> {
    s.map_values(|o: Operand| operand_view(o))
}

impl Vm {
    /// Everything but the machine data is as in `o`.
    spec fn same_frame(&self, o: &Vm) -> bool {
        &&& self.code_blocks == o.code_blocks
        &&& self.call_stack == o.call_stack
        &&& self.started == o.started
        &&& self.error == o.error
    }

    fn resolve(&self, o: &Operand) -> (r: Result<Value, RuntimeError>)
        ensures
            match resolve(self.machine(), operand_view(*o)) {
                Ok(v) => r is Ok && value_view(r->Ok_0) == v,
                Err(e) => r == Err::<Value, RuntimeError>(e),
            },
    {
        match o {
            Operand::Val(v) => Ok(v.duplicate()),
            Operand::Name(id) => match self.scope.get(*id) {
                Some(v) => Ok(v.duplicate()),
                None => Err(RuntimeError::UnknownIdent(*id)),
            },
        }
    }

    /// The values of the top `c` operands, deepest first.
    fn resolve_top(&self, c: usize) -> (r: Result<Vec<Value>, RuntimeError>)
        requires
            c <= self.stack@.len(),
        ensures
            ({
                let st = self.machine().stack;
                match resolve_all(self.machine(), st.subrange(st.len() - c, st.len() as int)) {
                    Ok(vs) => r is Ok && values_view(r->Ok_0@) == vs,
                    Err(e) => r == Err::<Vec<Value>, RuntimeError>(e),
                }
            }),
    {
        let n = self.stack.len();
        let ghost m = self.machine();
        let ghost ops = m.stack.subrange(n - c, n as int);
        let mut out: Vec<Value> = Vec::new();
        let mut k: usize = 0;
        assert(ops.subrange(0, 0) =~= Seq::<OperandV>::empty());
        assert(values_view(out@) =~= Seq::<ValueV>::empty());
        while k < c
            invariant
                n == self.stack@.len(),
                c <= n,
                k <= c,
                m == self.machine(),
                ops == m.stack.subrange(n - c, n as int),
                resolve_all(m, ops.subrange(0, k as int)) == Ok::<Seq<ValueV>, RuntimeError>(
                    values_view(out@),
                ),
            decreases c - k,
        {
            let ghost pre = ops.subrange(0, k as int);
            let ghost next = ops.subrange(0, k + 1);
            assert(next.drop_last() =~= pre);
            assert(next.last() == operand_view(self.stack@[n - c + k]));
            match self.resolve(&self.stack[n - c + k]) {
                Ok(v) => {
                    proof {
                        lemma_values_view_push(out@, v);
                    }
                    out.push(v);
                },
                Err(e) => {
                    proof {
                        lemma_resolve_all_err(m, ops, k + 1);
                    }
                    return Err(e);
                },
            }
            k += 1;
        }
        assert(ops.subrange(0, c as int) =~= ops);
        Ok(out)
    }

    fn push_operand(&mut self, o: Operand)
        ensures
            final(self).same_frame(old(self)),
            final(self).machine() == (MachineV {
                stack: old(self).machine().stack.push(operand_view(o)),
                ..old(self).machine()
            }),
    {
        self.stack.push(o);
        assert(self.machine() =~= MachineV {
            stack: old(self).machine().stack.push(operand_view(o)),
            ..old(self).machine()
        });
    }

    fn load_ident(&mut self, id: usize) -> (r: Result<Flow, RuntimeError>)
        ensures
            final(self).same_frame(old(self)),
            instr_done(old(self).machine(), ByteCode::LoadIdent(id), r, final(self).machine()),
    {
        if self.fields.len() > 0 {
            let ghost m0 = self.machine();
            let mut more: Vec<Action> = Vec::new();
            more.push(Action::Construct { id });
            let mut k: usize = 0;
            assert(actions_view(more@) =~= seq![ActionV::Construct { id }] + m0.fields.subrange(
                0,
                0,
            ).map_values(|f: (usize, ValueV)| ActionV::StoreField { id, field: f.0, val: f.1 }));
            while k < self.fields.len()
                invariant
                    m0 == self.machine(),
                    k <= self.fields@.len(),
                    actions_view(more@) == seq![ActionV::Construct { id }] + m0.fields.subrange(
                        0,
                        k as int,
                    ).map_values(
                        |f: (usize, ValueV)| ActionV::StoreField { id, field: f.0, val: f.1 },
                    ),
                decreases self.fields@.len() - k,
            {
                let a = Action::StoreField {
                    id,
                    field: self.fields[k].0,
                    val: self.fields[k].1.duplicate(),
                };
                assert(m0.fields[k as int] == (self.fields@[k as int].0, value_view(
                    self.fields@[k as int].1,
                )));
                assert(action_view(a) == ActionV::StoreField {
                    id,
                    field: m0.fields[k as int].0,
                    val: m0.fields[k as int].1,
                });
                let ghost prev = more@;
                more.push(a);
                assert(actions_view(more@) =~= actions_view(prev).push(action_view(a)));
                assert(m0.fields.subrange(0, k + 1) =~= m0.fields.subrange(0, k as int).push(
                    m0.fields[k as int],
                ));
                k += 1;
                assert(actions_view(more@) =~= seq![ActionV::Construct { id }] + m0.fields.subrange(
                    0,
                    k as int,
                ).map_values(
                    |f: (usize, ValueV)| ActionV::StoreField { id, field: f.0, val: f.1 },
                ));
            }
            assert(m0.fields.subrange(0, k as int) =~= m0.fields);
            let ghost before = self.actions@;
            self.actions.append(&mut more);
            self.fields = Vec::new();
            self.stack.push(Operand::Name(id));
            assert(actions_view(self.actions@) =~= m0.actions + construct_actions(id, m0.fields));
            assert(self.machine() =~= MachineV {
                actions: m0.actions + construct_actions(id, m0.fields),
                fields: seq![],
                stack: m0.stack.push(OperandV::Name(id)),
                ..m0
            });
        } else {
            self.push_operand(Operand::Name(id));
        }
        Ok(Flow::Next)
    }

    fn store(&mut self) -> (r: Result<Flow, RuntimeError>)
        ensures
            final(self).same_frame(old(self)),
            instr_done(old(self).machine(), ByteCode::Store, r, final(self).machine()),
    {
        let n = self.stack.len();
        if n < 2 {
            return Err(RuntimeError::StackUnderflow);
        }
        let v = match self.resolve(&self.stack[n - 1]) {
            Ok(v) => v,
            Err(e) => {
                return Err(e);
            },
        };
        let id = match &self.stack[n - 2] {
            Operand::Name(id) => *id,
            _ => {
                return Err(RuntimeError::BadTarget);
            },
        };
        if !self.scope.can_bind() {
            return Err(RuntimeError::BadTarget);
        }
        let ghost m0 = self.machine();
        self.stack.truncate(n - 2);
        self.scope.insert(id, v);
        assert(stack_view(self.stack@) =~= m0.stack.subrange(0, n - 2));
        assert(self.machine() =~= MachineV {
            stack: m0.stack.subrange(0, n - 2),
            envs: m0.envs.update(
                m0.chain.last() as int,
                m0.envs[m0.chain.last() as int].insert(id, value_view(v)),
            ),
            ..m0
        });
        Ok(Flow::Next)
    }

    fn load_const(&mut self, id: usize) -> (r: Result<Flow, RuntimeError>)
        ensures
            final(self).same_frame(old(self)),
            instr_done(old(self).machine(), ByteCode::LoadConst(id), r, final(self).machine()),
    {
        let v = match env_get(&self.consts, id) {
            Some(v) => v.duplicate(),
            None => {
                return Err(RuntimeError::UnknownConst(id));
            },
        };
        self.push_operand(Operand::Val(v));
        Ok(Flow::Next)
    }

    fn create_struct(&mut self, t: usize) -> (r: Result<Flow, RuntimeError>)
        ensures
            final(self).same_frame(old(self)),
            instr_done(old(self).machine(), ByteCode::CreateStruct(t), r, final(self).machine()),
    {
        let ghost m0 = self.machine();
        let mut d: Vec<usize> = Vec::new();
        std::mem::swap(&mut d, &mut self.decl);
        self.types.push((t, d));
        assert(self.machine() =~= MachineV { types: m0.types.push((t, m0.decl)), decl: seq![], ..m0 });
        Ok(Flow::Next)
    }

    fn add_field(&mut self, f: usize) -> (r: Result<Flow, RuntimeError>)
        ensures
            final(self).same_frame(old(self)),
            instr_done(old(self).machine(), ByteCode::AddField(f), r, final(self).machine()),
    {
        let ghost m0 = self.machine();
        self.decl.push(f);
        assert(self.machine() =~= MachineV { decl: m0.decl.push(f), ..m0 });
        Ok(Flow::Next)
    }

    fn store_field(&mut self, f: usize) -> (r: Result<Flow, RuntimeError>)
        ensures
            final(self).same_frame(old(self)),
            instr_done(old(self).machine(), ByteCode::StoreField(f), r, final(self).machine()),
    {
        let n = self.stack.len();
        if n < 1 {
            return Err(RuntimeError::StackUnderflow);
        }
        let v = match self.resolve(&self.stack[n - 1]) {
            Ok(v) => v,
            Err(e) => {
                return Err(e);
            },
        };
        let ghost m0 = self.machine();
        self.stack.truncate(n - 1);
        self.fields.push((f, v));
        assert(stack_view(self.stack@) =~= m0.stack.drop_last());
        assert(bindings_view(self.fields@) =~= m0.fields.push((f, value_view(v))));
        assert(self.machine() =~= MachineV {
            stack: m0.stack.drop_last(),
            fields: m0.fields.push((f, value_view(v))),
            ..m0
        });
        Ok(Flow::Next)
    }

    fn make_array(&mut self, c: usize) -> (r: Result<Flow, RuntimeError>)
        ensures
            final(self).same_frame(old(self)),
            instr_done(old(self).machine(), ByteCode::MakeArray(c), r, final(self).machine()),
    {
        let n = self.stack.len();
        if n < c {
            return Err(RuntimeError::StackUnderflow);
        }
        let vs = match self.resolve_top(c) {
            Ok(vs) => vs,
            Err(e) => {
                return Err(e);
            },
        };
        let ghost m0 = self.machine();
        self.stack.truncate(n - c);
        let arr = Value::Array(vs);
        self.stack.push(Operand::Val(arr));
        assert(stack_view(self.stack@) =~= m0.stack.subrange(0, n - c).push(
            OperandV::Val(ValueV::Array(values_view(vs@))),
        ));
        assert(self.machine() =~= MachineV {
            stack: m0.stack.subrange(0, n - c).push(OperandV::Val(ValueV::Array(values_view(vs@)))),
            ..m0
        });
        Ok(Flow::Next)
    }

    fn call(&mut self, c: usize) -> (r: Result<Flow, RuntimeError>)
        ensures
            final(self).same_frame(old(self)),
            instr_done(old(self).machine(), ByteCode::Call(c), r, final(self).machine()),
    {
        let n = self.stack.len();
        if c >= n {
            return Err(RuntimeError::StackUnderflow);
        }
        let args = match self.resolve_top(c) {
            Ok(vs) => vs,
            Err(e) => {
                return Err(e);
            },
        };
        let host: Option<usize> = match &self.stack[n - c - 1] {
            Operand::Name(id) => if self.scope.get(*id).is_none() {
                Some(*id)
            } else {
                None
            },
            _ => None,
        };
        let id = match host {
            Some(id) => id,
            None => {
                return self.enter(c, args);
            },
        };
        let ghost m0 = self.machine();
        let ghost argv = values_view(args@);
        self.stack.truncate(n - c - 1);
        self.stack.push(Operand::Val(Value::Nil));
        self.actions.push(Action::Call { id, args });
        assert(stack_view(self.stack@) =~= m0.stack.subrange(0, n - c - 1).push(
            OperandV::Val(ValueV::Nil),
        ));
        assert(actions_view(self.actions@) =~= m0.actions.push(ActionV::Call { id, args: argv }));
        assert(self.machine() =~= MachineV {
            stack: m0.stack.subrange(0, n - c - 1).push(OperandV::Val(ValueV::Nil)),
            actions: m0.actions.push(ActionV::Call { id, args: argv }),
            ..m0
        });
        Ok(Flow::Wait)
    }

    /// The callee under the `c` arguments is not a host symbol: a closure is entered with its
    /// parameters bound to `args`.
    fn enter(&mut self, c: usize, args: Vec<Value>) -> (r: Result<Flow, RuntimeError>)
        requires
            c < old(self).stack@.len(),
            ({
                let m = old(self).machine();
                let n = m.stack.len();
                &&& resolve_all(m, m.stack.subrange(n - c, n as int)) == Ok::<Seq<ValueV>, RuntimeError>(
                    values_view(args@),
                )
                &&& !(m.stack[n - c - 1] matches OperandV::Name(id) && lookup_chain(
                    m.envs,
                    m.chain,
                    id,
                ) is None)
            }),
        ensures
            final(self).same_frame(old(self)),
            instr_done(old(self).machine(), ByteCode::Call(c), r, final(self).machine()),
    {
        let n = self.stack.len();
        let callee = match self.resolve(&self.stack[n - c - 1]) {
            Ok(v) => v,
            Err(e) => {
                return Err(e);
            },
        };
        let (blk, ps, cap) = match callee {
            Value::Closure(blk, ps, cap) => (blk, ps, cap),
            _ => {
                return Err(RuntimeError::NotCallable);
            },
        };
        if ps.len() != c {
            return Err(RuntimeError::ArityMismatch);
        }
        let ghost m0 = self.machine();
        let ghost argv = values_view(args@);
        proof {
            crate::types::lemma_values_view_len(args@);
            crate::machine::lemma_resolve_all_len(m0, m0.stack.subrange(n - c, n as int));
        }
        let mut bindings: HashMap<usize, Value> = HashMap::new();
        let mut k: usize = 0;
        assert(env_view(bindings@) =~= bind_params(ps@.subrange(0, 0), argv));
        while k < c
            invariant
                k <= c,
                ps@.len() == c,
                argv == values_view(args@),
                argv.len() == c,
                args@.len() == c,
                env_view(bindings@) == bind_params(ps@.subrange(0, k as int), argv),
            decreases c - k,
        {
            proof {
                crate::types::lemma_values_view_index(args@, k as int);
            }
            let v = args[k].duplicate();
            env_insert(&mut bindings, ps[k], v);
            assert(ps@.subrange(0, k + 1).drop_last() =~= ps@.subrange(0, k as int));
            k += 1;
        }
        assert(ps@.subrange(0, c as int) =~= ps@);
        self.stack.truncate(n - c - 1);
        self.scope.open(cap, bindings);
        assert(stack_view(self.stack@) =~= m0.stack.subrange(0, n - c - 1));
        assert(self.machine() =~= MachineV {
            stack: m0.stack.subrange(0, n - c - 1),
            envs: m0.envs.push(bind_params(ps@, argv)),
            chain: cap@.push(m0.envs.len() as usize),
            ..m0
        });
        Ok(Flow::Enter(blk))
    }

    fn make_fn(&mut self, c: usize, blk: usize) -> (r: Result<Flow, RuntimeError>)
        ensures
            final(self).same_frame(old(self)),
            instr_done(old(self).machine(), ByteCode::MakeFn(c, blk), r, final(self).machine()),
    {
        let n = self.stack.len();
        if n < c {
            return Err(RuntimeError::StackUnderflow);
        }
        let ghost m0 = self.machine();
        let ghost ops = m0.stack.subrange(n - c, n as int);
        let mut ids: Vec<usize> = Vec::new();
        let mut k: usize = 0;
        assert(ops.subrange(0, 0) =~= Seq::<OperandV>::empty());
        while k < c
            invariant
                n == self.stack@.len(),
                c <= n,
                k <= c,
                m0 == self.machine(),
                ops == m0.stack.subrange(n - c, n as int),
                names_of(ops.subrange(0, k as int)) == Some(ids@),
            decreases c - k,
        {
            let ghost next = ops.subrange(0, k + 1);
            assert(next.drop_last() =~= ops.subrange(0, k as int));
            assert(next.last() == operand_view(self.stack@[n - c + k]));
            match &self.stack[n - c + k] {
                Operand::Name(id) => {
                    ids.push(*id);
                },
                _ => {
                    proof {
                        crate::machine::lemma_names_of_none(ops, k + 1);
                    }
                    return Err(RuntimeError::TypeMismatch);
                },
            }
            k += 1;
        }
        assert(ops.subrange(0, c as int) =~= ops);
        let ghost idv = ids@;
        let cap = self.scope.current_chain();
        self.stack.truncate(n - c);
        self.stack.push(Operand::Val(Value::Closure(blk, ids, cap)));
        assert(stack_view(self.stack@) =~= m0.stack.subrange(0, n - c).push(
            OperandV::Val(ValueV::Closure(blk, idv, m0.chain)),
        ));
        assert(self.machine() =~= MachineV {
            stack: m0.stack.subrange(0, n - c).push(
                OperandV::Val(ValueV::Closure(blk, idv, m0.chain)),
            ),
            ..m0
        });
        Ok(Flow::Next)
    }

    fn arith(&mut self, b: ByteCode) -> (r: Result<Flow, RuntimeError>)
        requires
            b is Add || b is Sub || b is Mul || b is Div,
        ensures
            final(self).same_frame(old(self)),
            instr_done(old(self).machine(), b, r, final(self).machine()),
    {
        let n = self.stack.len();
        if n < 2 {
            return Err(RuntimeError::StackUnderflow);
        }
        let l = match self.resolve(&self.stack[n - 2]) {
            Ok(v) => v,
            Err(e) => {
                return Err(e);
            },
        };
        let r = match self.resolve(&self.stack[n - 1]) {
            Ok(v) => v,
            Err(e) => {
                return Err(e);
            },
        };
        let v = match arith_exec(b, &l, &r) {
            Ok(v) => v,
            Err(e) => {
                return Err(e);
            },
        };
        let ghost m0 = self.machine();
        self.stack.truncate(n - 2);
        self.stack.push(Operand::Val(v));
        assert(stack_view(self.stack@) =~= m0.stack.subrange(0, n - 2).push(
            OperandV::Val(value_view(v)),
        ));
        assert(self.machine() =~= MachineV {
            stack: m0.stack.subrange(0, n - 2).push(OperandV::Val(value_view(v))),
            ..m0
        });
        Ok(Flow::Next)
    }

    fn exec(&mut self, b: ByteCode) -> (r: Result<Flow, RuntimeError>)
        ensures
            final(self).same_frame(old(self)),
            instr_done(old(self).machine(), b, r, final(self).machine()),
    {
        match b {
            ByteCode::LoadIdent(id) => self.load_ident(id),
            ByteCode::Store => self.store(),
            ByteCode::LoadConst(id) => self.load_const(id),
            ByteCode::CreateStruct(t) => self.create_struct(t),
            ByteCode::AddField(f) => self.add_field(f),
            ByteCode::StoreField(f) => self.store_field(f),
            ByteCode::MakeArray(c) => self.make_array(c),
            ByteCode::MakeFn(c, blk) => self.make_fn(c, blk),
            ByteCode::Call(c) => self.call(c),
            _ => self.arith(b),
        }
    }

    /// Runs one step. A machine stopped by an error reports that error again and does
    /// nothing. Otherwise, when nothing ran yet, the first block is entered; then the top frame
    /// runs until its block is done (the frame is then dropped), an instruction fails (the
    /// error is recorded and returned) or a host call is queued. When no frame is left, `Quit`
    /// is queued.
    pub fn work(&mut self) -> (r: Result<(), RuntimeError>)
        requires
            old(self).wf(),
        ensures
            final(self).wf(),
            (final(self).view(), r) == work_spec(old(self).view()),
    {
        if let Some(e) = self.error {
            return Err(e);
        }
        if self.call_stack.len() == 0 && !self.started && self.code_blocks.len() > 0 {
            self.call_stack.push(CallItem { blk: 0, pc: 0, ret: None });
            self.started = true;
            assert(self.view().frames =~= seq![(0usize, 0nat, None::<(nat, Seq<usize>)>)]);
            assert(self.view() =~= VmV {
                frames: seq![(0usize, 0nat, None::<(nat, Seq<usize>)>)],
                started: true,
                ..old(self).view()
            });
        }
        if self.call_stack.len() == 0 {
            let ghost v1 = self.view();
            self.actions.push(Action::Quit);
            assert(actions_view(self.actions@) =~= v1.m.actions.push(ActionV::Quit));
            assert(self.view() =~= VmV {
                m: MachineV { actions: v1.m.actions.push(ActionV::Quit), ..v1.m },
                ..v1
            });
            proof {
                lemma_frames_valid_same(self.view(), v1);
            }
            return Ok(());
        }
        let ghost goal = work_spec(old(self).view());
        loop
            invariant
                self.wf(),
                self.error is None,
                self.call_stack@.len() > 0,
                run_from(self.view()) == goal,
                goal == work_spec(old(self).view()),
            decreases crate::machine::remaining(self.view()),
        {
            let ghost v = self.view();
            let top = self.call_stack.len() - 1;
            let blk = self.call_stack[top].blk;
            let pc = self.call_stack[top].pc;
            let base_of: Option<usize> = match &self.call_stack[top].ret {
                Some((h, _)) => Some(*h),
                None => None,
            };
            let ghost rv = ret_view(self.call_stack@[top as int].ret);
            assert(v.frames[top as int] == (blk, pc as nat, rv));
            assert(v.frames.last() == (blk, pc as nat, rv));
            assert(run_from(v) == goal);
            let n = self.code_blocks[blk].len();
            assert(v.blocks[blk as int].len() == n);
            if pc >= n {
                let value = match base_of {
                    Some(base) => {
                        let h = self.stack.len();
                        if h > base {
                            match self.resolve(&self.stack[h - 1]) {
                                Ok(x) => x,
                                Err(e) => {
                                    self.error = Some(e);
                                    assert(self.view() =~= VmV { error: Some(e), ..v });
                                    return Err(e);
                                },
                            }
                        } else {
                            Value::Nil
                        }
                    },
                    None => Value::Nil,
                };
                let item = self.call_stack.pop().unwrap();
                match item.ret {
                    Some((base, caller)) => {
                        let ghost cv = caller@;
                        assert(return_value(v.m, base as nat) == Ok::<ValueV, RuntimeError>(
                            value_view(value),
                        ));
                        let h = self.stack.len();
                        let keep = if base <= h { base } else { h };
                        self.stack.truncate(keep);
                        self.stack.push(Operand::Val(value));
                        self.scope.restore(caller);
                        assert(stack_view(self.stack@) =~= return_to(
                            v.m,
                            base as nat,
                            value_view(value),
                            cv,
                        ).stack);
                        assert(self.machine() =~= return_to(v.m, base as nat, value_view(value), cv));
                    },
                    None => {},
                }
                let ghost m1 = self.machine();
                assert(self.view().frames =~= v.frames.drop_last());
                if self.call_stack.len() == 0 {
                    self.actions.push(Action::Quit);
                    assert(actions_view(self.actions@) =~= m1.actions.push(ActionV::Quit));
                    assert(self.view() =~= VmV {
                        frames: v.frames.drop_last(),
                        m: MachineV { actions: m1.actions.push(ActionV::Quit), ..m1 },
                        ..v
                    });
                } else {
                    assert(self.view() =~= VmV { frames: v.frames.drop_last(), m: m1, ..v });
                }
                proof {
                    let vv = self.view();
                    assert forall|j: int| 0 <= j < vv.frames.len() implies {
                        &&& (#[trigger] vv.frames[j]).0 < vv.blocks.len()
                        &&& vv.frames[j].1 <= vv.blocks[vv.frames[j].0 as int].len()
                    } by {
                        assert(vv.frames[j] == v.frames[j]);
                    }
                }
                return Ok(());
            }
            let b = self.code_blocks[blk][pc];
            assert(b == v.blocks[blk as int][pc as int]);
            let saved: Option<Vec<usize>> = match b {
                ByteCode::Call(_) => Some(self.scope.current_chain()),
                _ => None,
            };
            let mut item = self.call_stack.pop().unwrap();
            item.pc = pc + 1;
            self.call_stack.push(item);
            let ghost v1 = VmV {
                frames: v.frames.update(v.frames.len() - 1, (blk, (pc + 1) as nat, rv)),
                ..v
            };
            assert(self.view().frames =~= v1.frames);
            assert(self.view() =~= v1);
            let ghost m_before = self.machine();
            assert(m_before == v.m);
            let res = self.exec(b);
            assert(self.view().frames == v1.frames);
            assert(self.view().blocks == v1.blocks);
            match res {
                Err(e) => {
                    self.error = Some(e);
                    assert(self.view() =~= VmV { error: Some(e), ..v1 });
                    return Err(e);
                },
                Ok(Flow::Wait) => {
                    assert(self.view() =~= VmV { m: self.machine(), ..v1 });
                    return Ok(());
                },
                Ok(Flow::Next) => {
                    assert(self.view() =~= VmV { m: self.machine(), ..v1 });
                },
                Ok(Flow::Enter(callee)) => {
                    if callee < self.code_blocks.len() {
                        let ghost m2 = self.machine();
                        let h = self.stack.len();
                        let caller = match saved {
                            Some(c) => c,
                            None => Vec::new(),
                        };
                        assert(caller@ == v.m.chain);
                        self.call_stack.push(CallItem { blk: callee, pc: 0, ret: Some((h, caller)) });
                        assert(self.view().frames =~= v1.frames.push(
                            (callee, 0nat, Some((m2.stack.len(), v.m.chain))),
                        ));
                        assert(self.view() =~= VmV {
                            m: m2,
                            frames: v1.frames.push((callee, 0nat, Some((m2.stack.len(), v.m.chain)))),
                            ..v1
                        });
                        return Ok(());
                    } else {
                        self.error = Some(RuntimeError::UnknownBlock(callee));
                        assert(self.view() =~= VmV {
                            m: self.machine(),
                            error: Some(RuntimeError::UnknownBlock(callee)),
                            ..v1
                        });
                        return Err(RuntimeError::UnknownBlock(callee));
                    }
                },
            }
        }
    }
}

} // verus!
