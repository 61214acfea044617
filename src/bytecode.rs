use vstd::prelude::*;

verus! {

/// One instruction. Names and constants are referred to by their ids.
#[derive(Debug, Clone, Copy, PartialEq, Eq, Structural)]
pub enum ByteCode {
    LoadIdent(usize),
    Store,
    LoadConst(usize),
    CreateStruct(usize),
    AddField(usize),
    StoreField(usize),
    MakeArray(usize),
    /// A closure of the given number of parameters, whose body is the given block.
    MakeFn(usize, usize),
    Call(usize),
    Add,
    Sub,
    Mul,
    Div,
}

} // verus!
