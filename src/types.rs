use vstd::prelude::*;

use crate::lexer::Decimal;

verus! {

/// A runtime value.
#[derive(Debug, PartialEq)]
pub enum Value {
    Int(i64),
    /// A number with a fractional part, kept as an exact decimal rather than binary floating
    /// point: sums, differences and products are exact, and a quotient is truncated to six
    /// more decimal places than its dividend (see `machine::dec_arith`).
    Float(Decimal),
    Str(String),
    Bool(bool),
    Array(Vec<Value>),
    Nil,
    /// A function: the block of its body, the ids of its parameters, and the chain of
    /// environments it was made in.
    Closure(usize, Vec<usize>, Vec<usize>),
}

pub enum ValueV {
    Int(i64),
    Float(Decimal),
    Str(Seq<char>),
    Bool(bool),
    Array(Seq<ValueV>),
    Nil,
    Closure(usize, Seq<usize>, Seq<usize>),
}

pub open spec fn value_view(v: Value) -> ValueV
    decreases v,
{
    match v {
        Value::Int(n) => ValueV::Int(n),
        Value::Float(d) => ValueV::Float(d),
        Value::Str(s) => ValueV::Str(s@),
        Value::Bool(b) => ValueV::Bool(b),
        Value::Array(items) => ValueV::Array(values_view(items@)),
        Value::Nil => ValueV::Nil,
        Value::Closure(b, ps, c) => ValueV::Closure(b, ps@, c@),
    }
}

pub open spec fn values_view(s: Seq<Value>) -> Seq<ValueV>
    decreases s,
{
    if s.len() == 0 {
        Seq::empty()
    } else {
        values_view(s.drop_last()).push(value_view(s.last()))
    }
}

impl View for Value {
    type V = ValueV;

    open spec fn view(&self) -> ValueV {
        value_view(*self)
    }
}

pub proof fn lemma_values_view_push(s: Seq<Value>, v: Value)
    ensures
        values_view(s.push(v)) == values_view(s).push(value_view(v)),
{
    assert(s.push(v).drop_last() =~= s);
}

pub proof fn lemma_values_view_len(s: Seq<Value>)
    ensures
        values_view(s).len() == s.len(),
    decreases s.len(),
{
    if s.len() > 0 {
        lemma_values_view_len(s.drop_last());
    }
}

pub proof fn lemma_values_view_index(s: Seq<Value>, k: int)
    requires
        0 <= k < s.len(),
    ensures
        values_view(s)[k] == value_view(s[k]),
    decreases s.len(),
{
    lemma_values_view_len(s.drop_last());
    if k < s.len() - 1 {
        lemma_values_view_index(s.drop_last(), k);
    }
}

fn copy_ids(ps: &Vec<usize>) -> (r: Vec<usize>)
    ensures
        r@ == ps@,
{
    let mut out: Vec<usize> = Vec::new();
    let mut k: usize = 0;
    while k < ps.len()
        invariant
            k <= ps@.len(),
            out@ == ps@.subrange(0, k as int),
        decreases ps@.len() - k,
    {
        out.push(ps[k]);
        k += 1;
        assert(out@ =~= ps@.subrange(0, k as int));
    }
    assert(out@ =~= ps@);
    out
}

impl Value {
    /// A deep copy: arrays are copied element by element.
    pub fn duplicate(&self) -> (r: Value)
        ensures
            r@ == self@,
        decreases self,
    {
        match self {
            Value::Int(n) => Value::Int(*n),
            Value::Float(d) => Value::Float(*d),
            Value::Str(s) => Value::Str(s.clone()),
            Value::Bool(b) => Value::Bool(*b),
            Value::Nil => Value::Nil,
            Value::Closure(b, ps, c) => Value::Closure(*b, copy_ids(ps), copy_ids(c)),
            Value::Array(items) => {
                let mut out: Vec<Value> = Vec::new();
                let mut k: usize = 0;
                assert(values_view(out@) =~= values_view(items@.subrange(0, 0)));
                while k < items.len()
                    invariant
                        self is Array,
                        self->Array_0 == *items,
                        k <= items@.len(),
                        values_view(out@) == values_view(items@.subrange(0, k as int)),
                    decreases items@.len() - k,
                {
                    assert(decreases_to!(*self => self->Array_0));
                    assert(decreases_to!(self->Array_0 => self->Array_0@));
                    assert(decreases_to!(items@ => items@[k as int]));
                    let c = items[k].duplicate();
                    proof {
                        lemma_values_view_push(out@, c);
                        lemma_values_view_push(items@.subrange(0, k as int), items@[k as int]);
                        assert(items@.subrange(0, k as int).push(items@[k as int]) =~= items@.subrange(
                            0,
                            k + 1,
                        ));
                    }
                    out.push(c);
                    k += 1;
                }
                assert(items@.subrange(0, k as int) =~= items@);
                Value::Array(out)
            },
        }
    }
}

/// A constant of a compiled unit: its index in the pool and its value.
#[derive(Debug, PartialEq)]
pub struct Const {
    pub id: usize,
    pub value: Value,
}

/// A host effect that the machine asks for.
#[derive(Debug, PartialEq)]
pub enum Action {
    Construct { id: usize },
    Destruct { id: usize },
    LoadField { id: usize, field: usize },
    StoreField { id: usize, field: usize, val: Value },
    Call { id: usize, args: Vec<Value> },
    Import { path: String },
    Quit,
}

} // verus!
