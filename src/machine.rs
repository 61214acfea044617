use vstd::prelude::*;

use crate::bytecode::ByteCode;
use crate::lexer::Decimal;
use crate::scope::lookup_chain;
use crate::types::ValueV;

verus! {

/// Why a step of the machine failed.
#[derive(Debug, Clone, Copy, PartialEq, Eq, Structural)]
pub enum RuntimeError {
    /// A name was used as a value where no scope binds it.
    UnknownIdent(usize),
    /// No constant has this id.
    UnknownConst(usize),
    /// An instruction needed more operands than the stack held.
    StackUnderflow,
    /// An operand was not of a kind the instruction accepts.
    TypeMismatch,
    /// `Store` found no name to bind.
    BadTarget,
    /// The callee is not a host symbol.
    NotCallable,
    /// The result does not fit.
    Overflow,
    DivisionByZero,
    /// The host stopped the machine.
    Aborted,
    /// A closure was called with a number of arguments other than its number of parameters.
    ArityMismatch,
    /// A closure's body is a block that the machine does not hold.
    UnknownBlock(usize),
}

/// How running an instruction goes on: with the next instruction, by waiting for the host, or
/// by entering the body of a closure, given as its block.
#[derive(Debug, Clone, Copy, PartialEq, Eq, Structural)]
pub enum Flow {
    Next,
    Wait,
    Enter(usize),
}

/// An operand: a name not yet resolved, or a value.
pub enum OperandV {
    Name(usize),
    Val(ValueV),
}

pub enum ActionV {
    Construct { id: usize },
    Destruct { id: usize },
    LoadField { id: usize, field: usize },
    StoreField { id: usize, field: usize, val: ValueV },
    Call { id: usize, args: Seq<ValueV> },
    Import { path: Seq<char> },
    Quit,
}

/// The data of the machine that instructions read and change.
#[verifier::ext_equal]
pub struct MachineV {
    /// Every environment made so far.
    pub envs: Seq<Map<usize, ValueV>>,
    /// The environments in force, as indices into `envs`, outermost first.
    pub chain: Seq<usize>,
    pub stack: Seq<OperandV>,
    pub consts: Map<usize, ValueV>,
    pub actions: Seq<ActionV>,
    /// Field values of the struct instance under construction.
    pub fields: Seq<(usize, ValueV)>,
    /// Fields declared for the next struct type.
    pub decl: Seq<usize>,
    /// Registered struct types with their fields.
    pub types: Seq<(usize, Seq<usize>)>,
}

/// The value an operand stands for.
pub open spec fn resolve(m: MachineV, o: OperandV) -> Result<ValueV, RuntimeError> {
    match o {
        OperandV::Val(v) => Ok(v),
        OperandV::Name(id) => match lookup_chain(m.envs, m.chain, id) {
            Some(v) => Ok(v),
            None => Err(RuntimeError::UnknownIdent(id)),
        },
    }
}

/// The values of `ops` in order; the first failure if one fails.
pub open spec fn resolve_all(m: MachineV, ops: Seq<OperandV>) -> Result<Seq<ValueV>, RuntimeError>
    decreases ops.len(),
{
    if ops.len() == 0 {
        Ok(seq![])
    } else {
        match resolve_all(m, ops.drop_last()) {
            Err(e) => Err(e),
            Ok(vs) => match resolve(m, ops.last()) {
                Err(e) => Err(e),
                Ok(v) => Ok(vs.push(v)),
            },
        }
    }
}

/// `m * 10^k`, where it fits.
pub open spec fn rescale(m: i64, k: nat) -> Option<i64>
    decreases k,
{
    if k == 0 {
        Some(m)
    } else {
        match rescale(m, (k - 1) as nat) {
            Some(v) => v.checked_mul(10),
            None => None,
        }
    }
}

pub open spec fn as_decimal(v: ValueV) -> Option<Decimal> {
    match v {
        ValueV::Int(n) => Some(Decimal { mantissa: n, scale: 0 }),
        ValueV::Float(d) => Some(d),
        _ => None,
    }
}

pub open spec fn fits(r: Option<i64>) -> Result<i64, RuntimeError> {
    match r {
        Some(v) => Ok(v),
        None => Err(RuntimeError::Overflow),
    }
}

pub open spec fn int_arith(b: ByteCode, x: i64, y: i64) -> Result<ValueV, RuntimeError> {
    let r = match b {
        ByteCode::Add => fits(x.checked_add(y)),
        ByteCode::Sub => fits(x.checked_sub(y)),
        ByteCode::Mul => fits(x.checked_mul(y)),
        _ => if y == 0 {
            Err(RuntimeError::DivisionByZero)
        } else {
            fits(x.checked_div(y))
        },
    };
    match r {
        Ok(v) => Ok(ValueV::Int(v)),
        Err(e) => Err(e),
    }
}

/// How many decimal places a quotient of decimals has beyond those of its dividend.
pub const QUOTIENT_PLACES: u32 = 6;

/// Decimal arithmetic. Sums and products are exact: sums at the larger scale, products at the
/// sum of the scales. A quotient `x / y` is truncated towards zero to `QUOTIENT_PLACES` more
/// places than `x` has: its mantissa is `x.mantissa * 10^(y.scale + QUOTIENT_PLACES)`
/// divided by `y.mantissa`. Unlike binary floating point, a quotient is thus cut off, not
/// rounded to the nearest representable value.
pub open spec fn dec_arith(b: ByteCode, x: Decimal, y: Decimal) -> Result<ValueV, RuntimeError> {
    match b {
        ByteCode::Mul => match (x.mantissa.checked_mul(y.mantissa), x.scale.checked_add(y.scale)) {
            (Some(m), Some(s)) => Ok(ValueV::Float(Decimal { mantissa: m, scale: s })),
            _ => Err(RuntimeError::Overflow),
        },
        ByteCode::Div => if y.mantissa == 0 {
            Err(RuntimeError::DivisionByZero)
        } else {
            match (
                rescale(x.mantissa, y.scale as nat + QUOTIENT_PLACES as nat),
                x.scale.checked_add(QUOTIENT_PLACES),
            ) {
                (Some(n), Some(s)) => match n.checked_div(y.mantissa) {
                    Some(q) => Ok(ValueV::Float(Decimal { mantissa: q, scale: s })),
                    None => Err(RuntimeError::Overflow),
                },
                _ => Err(RuntimeError::Overflow),
            }
        },
        _ => {
            let s = if x.scale >= y.scale {
                x.scale
            } else {
                y.scale
            };
            match (rescale(x.mantissa, (s - x.scale) as nat), rescale(y.mantissa, (s - y.scale) as nat)) {
                (Some(a), Some(c)) => {
                    let r = if b is Add {
                        a.checked_add(c)
                    } else {
                        a.checked_sub(c)
                    };
                    match r {
                        Some(m) => Ok(ValueV::Float(Decimal { mantissa: m, scale: s })),
                        None => Err(RuntimeError::Overflow),
                    }
                },
                _ => Err(RuntimeError::Overflow),
            }
        },
    }
}

/// `l b r` for an arithmetic instruction `b`: integers stay integers, and an integer meets a
/// decimal as a decimal of scale 0.
pub open spec fn arith_values(b: ByteCode, l: ValueV, r: ValueV) -> Result<ValueV, RuntimeError> {
    match (l, r) {
        (ValueV::Int(x), ValueV::Int(y)) => int_arith(b, x, y),
        _ => match (as_decimal(l), as_decimal(r)) {
            (Some(x), Some(y)) => dec_arith(b, x, y),
            _ => Err(RuntimeError::TypeMismatch),
        },
    }
}

pub open spec fn push_operand(m: MachineV, o: OperandV) -> MachineV {
    MachineV { stack: m.stack.push(o), ..m }
}

/// The actions that construct the instance `id` with the buffered fields.
pub open spec fn construct_actions(id: usize, fields: Seq<(usize, ValueV)>) -> Seq<ActionV> {
    seq![ActionV::Construct { id }] + fields.map_values(
        |f: (usize, ValueV)| ActionV::StoreField { id, field: f.0, val: f.1 },
    )
}

pub open spec fn is_arith(b: ByteCode) -> bool {
    b is Add || b is Sub || b is Mul || b is Div
}

/// The parameter ids that a run of operands names, if each of them is a name.
pub open spec fn names_of(ops: Seq<OperandV>) -> Option<Seq<usize>>
    decreases ops.len(),
{
    if ops.len() == 0 {
        Some(seq![])
    } else {
        match (names_of(ops.drop_last()), ops.last()) {
            (Some(ids), OperandV::Name(id)) => Some(ids.push(id)),
            _ => None,
        }
    }
}

/// The environment that binds each parameter `ps[k]` to its argument `args[k]`; where a name
/// repeats, the later parameter wins.
pub open spec fn bind_params(ps: Seq<usize>, args: Seq<ValueV>) -> Map<usize, ValueV>
    decreases ps.len(),
{
    if ps.len() == 0 {
        Map::empty()
    } else {
        bind_params(ps.drop_last(), args).insert(ps.last(), args[ps.len() - 1])
    }
}

/// One instruction on `m`: the new data and how running goes on; or the error, with `m` left as
/// it was.
///
/// `LoadIdent` pushes the name itself; it is resolved along the chain of environments in force,
/// innermost first, when an instruction needs its value, so that `Store` can bind it in the
/// innermost environment. Field values stored by
/// `StoreField` are collected until the next `LoadIdent`, which constructs an instance of that
/// name through `Construct` and `StoreField` actions. `Call` on a name that no scope binds is a
/// host call: it queues `Action::Call` with the argument values, leaves `Nil` as its result and
/// makes the machine wait. `MakeFn(c, b)` takes the `c` parameter names on top of the stack
/// and leaves a closure over block `b` that captures the chain in force. `Call` on a closure
/// with as many arguments as parameters pops the callee and the arguments, makes a new
/// environment binding each parameter to its argument, puts in force the captured chain
/// followed by that environment, and enters the closure's block. The body thus sees its
/// parameters and then the scopes where the closure was made, which stay shared: a binding made
/// there later is seen too.
pub open spec fn exec_instr(m: MachineV, b: ByteCode) -> Result<(MachineV, Flow), RuntimeError> {
    let n = m.stack.len();
    match b {
        ByteCode::LoadIdent(id) => if m.fields.len() > 0 {
            Ok(
                (
                    MachineV {
                        actions: m.actions + construct_actions(id, m.fields),
                        fields: seq![],
                        stack: m.stack.push(OperandV::Name(id)),
                        ..m
                    },
                    Flow::Next,
                ),
            )
        } else {
            Ok((push_operand(m, OperandV::Name(id)), Flow::Next))
        },
        ByteCode::Store => if n < 2 {
            Err(RuntimeError::StackUnderflow)
        } else {
            match resolve(m, m.stack[n - 1]) {
                Err(e) => Err(e),
                Ok(v) => match m.stack[n - 2] {
                    OperandV::Name(id) => {
                        if m.chain.len() == 0 || m.chain.last() >= m.envs.len() {
                            Err(RuntimeError::BadTarget)
                        } else {
                            let e = m.chain.last() as int;
                            Ok(
                                (
                                    MachineV {
                                        stack: m.stack.subrange(0, n - 2),
                                        envs: m.envs.update(e, m.envs[e].insert(id, v)),
                                        ..m
                                    },
                                    Flow::Next,
                                ),
                            )
                        }
                    },
                    _ => Err(RuntimeError::BadTarget),
                },
            }
        },
        ByteCode::LoadConst(id) => if m.consts.contains_key(id) {
            Ok((push_operand(m, OperandV::Val(m.consts[id])), Flow::Next))
        } else {
            Err(RuntimeError::UnknownConst(id))
        },
        ByteCode::CreateStruct(t) => Ok(
            (MachineV { types: m.types.push((t, m.decl)), decl: seq![], ..m }, Flow::Next),
        ),
        ByteCode::AddField(f) => Ok((MachineV { decl: m.decl.push(f), ..m }, Flow::Next)),
        ByteCode::StoreField(f) => if n < 1 {
            Err(RuntimeError::StackUnderflow)
        } else {
            match resolve(m, m.stack[n - 1]) {
                Err(e) => Err(e),
                Ok(v) => Ok(
                    (
                        MachineV {
                            stack: m.stack.drop_last(),
                            fields: m.fields.push((f, v)),
                            ..m
                        },
                        Flow::Next,
                    ),
                ),
            }
        },
        ByteCode::MakeArray(c) => if n < c {
            Err(RuntimeError::StackUnderflow)
        } else {
            match resolve_all(m, m.stack.subrange(n - c, n as int)) {
                Err(e) => Err(e),
                Ok(vs) => Ok(
                    (
                        MachineV {
                            stack: m.stack.subrange(0, n - c).push(
                                OperandV::Val(ValueV::Array(vs)),
                            ),
                            ..m
                        },
                        Flow::Next,
                    ),
                ),
            }
        },
        ByteCode::MakeFn(c, blk) => if n < c {
            Err(RuntimeError::StackUnderflow)
        } else {
            match names_of(m.stack.subrange(n - c, n as int)) {
                None => Err(RuntimeError::TypeMismatch),
                Some(ids) => Ok(
                    (
                        MachineV {
                            stack: m.stack.subrange(0, n - c).push(
                                OperandV::Val(ValueV::Closure(blk, ids, m.chain)),
                            ),
                            ..m
                        },
                        Flow::Next,
                    ),
                ),
            }
        },
        ByteCode::Call(c) => if n < c + 1 {
            Err(RuntimeError::StackUnderflow)
        } else {
            match resolve_all(m, m.stack.subrange(n - c, n as int)) {
                Err(e) => Err(e),
                Ok(args) => {
                    let callee = m.stack[n - c - 1];
                    if callee matches OperandV::Name(id) && lookup_chain(m.envs, m.chain, id) is None {
                        Ok(
                            (
                                MachineV {
                                    stack: m.stack.subrange(0, n - c - 1).push(
                                        OperandV::Val(ValueV::Nil),
                                    ),
                                    actions: m.actions.push(
                                        ActionV::Call { id: callee->Name_0, args },
                                    ),
                                    ..m
                                },
                                Flow::Wait,
                            ),
                        )
                    } else {
                        match resolve(m, callee) {
                            Err(e) => Err(e),
                            Ok(ValueV::Closure(blk, ps, cap)) => if ps.len() != c {
                                Err(RuntimeError::ArityMismatch)
                            } else {
                                Ok(
                                    (
                                        MachineV {
                                            stack: m.stack.subrange(0, n - c - 1),
                                            envs: m.envs.push(bind_params(ps, args)),
                                            chain: cap.push(m.envs.len() as usize),
                                            ..m
                                        },
                                        Flow::Enter(blk),
                                    ),
                                )
                            },
                            Ok(_) => Err(RuntimeError::NotCallable),
                        }
                    }
                },
            }
        },
        _ => if n < 2 {
            Err(RuntimeError::StackUnderflow)
        } else {
            match (resolve(m, m.stack[n - 2]), resolve(m, m.stack[n - 1])) {
                (Err(e), _) => Err(e),
                (Ok(_), Err(e)) => Err(e),
                (Ok(l), Ok(r)) => match arith_values(b, l, r) {
                    Err(e) => Err(e),
                    Ok(v) => Ok(
                        (
                            MachineV {
                                stack: m.stack.subrange(0, n - 2).push(OperandV::Val(v)),
                                ..m
                            },
                            Flow::Next,
                        ),
                    ),
                },
            }
        },
    }
}

/// `r` and `m2` are what running `b` on `m` gives.
pub open spec fn instr_done(m: MachineV, b: ByteCode, r: Result<Flow, RuntimeError>, m2: MachineV) -> bool {
    match exec_instr(m, b) {
        Ok((mm, s)) => r == Ok::<Flow, RuntimeError>(s) && m2 == mm,
        Err(e) => r == Err::<Flow, RuntimeError>(e) && m2 == m,
    }
}

pub proof fn lemma_resolve_all_err(m: MachineV, ops: Seq<OperandV>, j: int)
    requires
        0 <= j <= ops.len(),
        resolve_all(m, ops.subrange(0, j)) is Err,
    ensures
        resolve_all(m, ops) == resolve_all(m, ops.subrange(0, j)),
    decreases ops.len(),
{
    if j < ops.len() {
        let p = ops.drop_last();
        assert(p.subrange(0, j) =~= ops.subrange(0, j));
        lemma_resolve_all_err(m, p, j);
    } else {
        assert(ops.subrange(0, j) =~= ops);
    }
}

pub proof fn lemma_names_of_none(ops: Seq<OperandV>, j: int)
    requires
        0 <= j <= ops.len(),
        names_of(ops.subrange(0, j)) is None,
    ensures
        names_of(ops) is None,
    decreases ops.len(),
{
    if j < ops.len() {
        let p = ops.drop_last();
        assert(p.subrange(0, j) =~= ops.subrange(0, j));
        lemma_names_of_none(p, j);
    } else {
        assert(ops.subrange(0, j) =~= ops);
    }
}

pub proof fn lemma_resolve_all_len(m: MachineV, ops: Seq<OperandV>)
    ensures
        resolve_all(m, ops) matches Ok(vs) ==> vs.len() == ops.len(),
    decreases ops.len(),
{
    if ops.len() > 0 {
        lemma_resolve_all_len(m, ops.drop_last());
    }
}

/// The whole machine: code blocks, frames `(block, pc, ret)`, whether the first block was
/// entered, the data, and the error that stopped it. A frame entered by a call has `ret ==
/// Some((h, c))`: the stack height to return to and the caller's chain of environments.
#[verifier::ext_equal]
pub struct VmV {
    pub blocks: Seq<Seq<ByteCode>>,
    pub frames: Seq<(usize, nat, Option<(nat, Seq<usize>)>)>,
    pub started: bool,
    pub m: MachineV,
    pub error: Option<RuntimeError>,
}

pub open spec fn frames_valid(v: VmV) -> bool {
    forall|k: int|
        0 <= k < v.frames.len() ==> {
            &&& (#[trigger] v.frames[k]).0 < v.blocks.len()
            &&& v.frames[k].1 <= v.blocks[v.frames[k].0 as int].len()
        }
}

pub proof fn lemma_frames_valid_same(a: VmV, b: VmV)
    requires
        a.blocks == b.blocks,
        a.frames == b.frames,
    ensures
        frames_valid(a) == frames_valid(b),
{
}

pub open spec fn remaining(v: VmV) -> int {
    if v.frames.len() > 0 && v.frames.last().0 < v.blocks.len() {
        v.blocks[v.frames.last().0 as int].len() - v.frames.last().1
    } else {
        0
    }
}

/// The value a call returns: the value of the topmost operand its body left above the height
/// `base`, or `Nil` when it left none.
pub open spec fn return_value(m: MachineV, base: nat) -> Result<ValueV, RuntimeError> {
    if m.stack.len() > base {
        resolve(m, m.stack.last())
    } else {
        Ok(ValueV::Nil)
    }
}

/// Leaving a call whose frame returns to height `base` with the value `r`: the stack is cut
/// back to `base`, `r` is pushed, and the caller's chain `caller` is in force again.
pub open spec fn return_to(m: MachineV, base: nat, r: ValueV, caller: Seq<usize>) -> MachineV {
    let keep = if base <= m.stack.len() {
        base
    } else {
        m.stack.len()
    };
    MachineV {
        stack: m.stack.subrange(0, keep as int).push(OperandV::Val(r)),
        chain: caller,
        ..m
    }
}

/// Runs the top frame until its block is done, an instruction fails, the host is called, or a
/// closure is entered. A frame whose block is done is dropped, and a call frame returns its
/// value to its caller.
pub open spec fn run_from(v: VmV) -> (VmV, Result<(), RuntimeError>)
    decreases remaining(v),
{
    if v.frames.len() == 0 || v.frames.last().0 >= v.blocks.len() {
        (v, Ok(()))
    } else {
        let (blk, pc, ret) = v.frames.last();
        let code = v.blocks[blk as int];
        if pc >= code.len() {
            let f = v.frames.drop_last();
            let m1 = match ret {
                None => Ok(v.m),
                Some((base, caller)) => match return_value(v.m, base) {
                    Ok(r) => Ok(return_to(v.m, base, r, caller)),
                    Err(e) => Err(e),
                },
            };
            match m1 {
                Err(e) => (VmV { error: Some(e), ..v }, Err(e)),
                Ok(m1) => {
                    let m = if f.len() == 0 {
                        MachineV { actions: m1.actions.push(ActionV::Quit), ..m1 }
                    } else {
                        m1
                    };
                    (VmV { frames: f, m, ..v }, Ok(()))
                },
            }
        } else {
            let v1 = VmV { frames: v.frames.update(v.frames.len() - 1, (blk, pc + 1, ret)), ..v };
            match exec_instr(v.m, code[pc as int]) {
                Err(e) => (VmV { error: Some(e), ..v1 }, Err(e)),
                Ok((m2, Flow::Wait)) => (VmV { m: m2, ..v1 }, Ok(())),
                Ok((m2, Flow::Enter(b))) => if b < v.blocks.len() {
                    (
                        VmV {
                            m: m2,
                            frames: v1.frames.push((b, 0nat, Some((m2.stack.len(), v.m.chain)))),
                            ..v1
                        },
                        Ok(()),
                    )
                } else {
                    (
                        VmV { m: m2, error: Some(RuntimeError::UnknownBlock(b)), ..v1 },
                        Err(RuntimeError::UnknownBlock(b)),
                    )
                },
                Ok((m2, Flow::Next)) => run_from(VmV { m: m2, ..v1 }),
            }
        }
    }
}

/// One step: an error recorded before is reported again; else the first block is entered if
/// nothing ran yet, and the top frame runs. With no frame left, `Quit` is queued.
pub open spec fn work_spec(v: VmV) -> (VmV, Result<(), RuntimeError>) {
    if v.error is Some {
        (v, Err(v.error->0))
    } else {
        let v1 = if v.frames.len() == 0 && !v.started && v.blocks.len() > 0 {
            VmV { frames: seq![(0usize, 0nat, None::<(nat, Seq<usize>)>)], started: true, ..v }
        } else {
            v
        };
        if v1.frames.len() == 0 {
            (VmV { m: MachineV { actions: v1.m.actions.push(ActionV::Quit), ..v1.m }, ..v1 }, Ok(()))
        } else {
            run_from(v1)
        }
    }
}


/// A machine that holds no code and has not failed queues `Quit` when stepped, and changes
/// nothing else.
pub proof fn lemma_step_without_code_quits(v: VmV)
    requires
        v.blocks.len() == 0,
        v.frames.len() == 0,
        v.error is None,
    ensures
        work_spec(v) == (
            VmV { m: MachineV { actions: v.m.actions.push(ActionV::Quit), ..v.m }, ..v },
            Ok::<(), RuntimeError>(()),
        ),
{
}


/// A machine as `Vm::new` makes it: nothing loaded, nothing run, nothing failed.
pub open spec fn fresh_machine() -> VmV {
    VmV {
        blocks: seq![],
        frames: seq![],
        started: false,
        m: MachineV {
            envs: seq![Map::empty()],
            chain: seq![0usize],
            stack: seq![],
            consts: Map::empty(),
            actions: seq![],
            fields: seq![],
            decl: seq![],
            types: seq![],
        },
        error: None,
    }
}

/// A fresh machine with no code, stepped, holds one action, `Quit`, and is otherwise as it was.
pub proof fn lemma_fresh_step_quits()
    ensures
        work_spec(fresh_machine()) == (
            VmV {
                m: MachineV { actions: seq![ActionV::Quit], ..fresh_machine().m },
                ..fresh_machine()
            },
            Ok::<(), RuntimeError>(()),
        ),
{
    lemma_step_without_code_quits(fresh_machine());
    assert(fresh_machine().m.actions.push(ActionV::Quit) =~= seq![ActionV::Quit]);
}

} // verus!
