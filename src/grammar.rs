use vstd::prelude::*;

use crate::ast::{AstV, Op};
use crate::lexer::TokenV;

verus! {

/// The token at `i`, if there is one.
pub open spec fn tok(t: Seq<TokenV>, i: int) -> Option<TokenV> {
    if 0 <= i < t.len() {
        Some(t[i])
    } else {
        None
    }
}

/// A sub-parse that started at `i` and stopped at `j` consumed input and stayed within it.
pub open spec fn advanced(t: Seq<TokenV>, i: int, j: int) -> bool {
    i < j <= t.len()
}

/// Position of the `)` that closes a `(` opened before `j`, with `depth` more still open, or
/// the length of `t` when there is none.
pub open spec fn close_paren_at(t: Seq<TokenV>, j: int, depth: nat) -> int
    decreases t.len() - j,
{
    if j < 0 || j >= t.len() {
        t.len() as int
    } else if t[j] == TokenV::CloseParen {
        if depth == 0 {
            j
        } else {
            close_paren_at(t, j + 1, (depth - 1) as nat)
        }
    } else if t[j] == TokenV::OpenParen {
        close_paren_at(t, j + 1, depth + 1)
    } else {
        close_paren_at(t, j + 1, depth)
    }
}

/// A `(` at `i` opens a parameter list: the `)` that matches it is followed by `=>`.
pub open spec fn paren_opens_fun(t: Seq<TokenV>, i: int) -> bool {
    let c = close_paren_at(t, i + 1, 0);
    c < t.len() && tok(t, c + 1) == Some(TokenV::Arrow)
}

/// `return` takes no value where input ends or a closing token follows.
pub open spec fn ends_item(t: Seq<TokenV>, i: int) -> bool {
    match tok(t, i) {
        None => true,
        Some(TokenV::CloseBrace) | Some(TokenV::CloseParen) | Some(TokenV::CloseBracket) | Some(
            TokenV::Comma,
        ) => true,
        _ => false,
    }
}

/// A statement at `i`: the node and the position after it, or the position of the token where
/// the tokens stop forming one.
pub open spec fn item_at(t: Seq<TokenV>, i: int) -> Result<(AstV, int), int>
    decreases t.len() - i, 6int,
{
    if i < 0 || i >= t.len() {
        Err(i)
    } else {
        match t[i] {
            TokenV::Ident(name) => match tok(t, i + 1) {
                Some(TokenV::Assign) => match item_at(t, i + 2) {
                    Ok((r, j)) => Ok(
                        (AstV::Assign(Box::new(AstV::Ident(name)), Box::new(r)), j),
                    ),
                    Err(p) => Err(p),
                },
                Some(TokenV::Ident(var)) => Ok((AstV::Var(var, name), i + 2)),
                Some(TokenV::OpenBrace) => struct_ins_at(t, i),
                Some(TokenV::Arrow) => fun_at(t, i),
                _ => expr_at(t, i),
            },
            TokenV::OpenBracket => match list_at(t, i + 1, TokenV::CloseBracket, true, seq![]) {
                Ok((items, j)) => Ok((AstV::Array(items), j)),
                Err(p) => Err(p),
            },
            TokenV::OpenParen => if paren_opens_fun(t, i) {
                fun_at(t, i)
            } else {
                expr_at(t, i)
            },
            TokenV::Ret => if ends_item(t, i + 1) {
                Ok((AstV::Ret(None), i + 1))
            } else {
                match item_at(t, i + 1) {
                    Ok((v, j)) => Ok((AstV::Ret(Some(Box::new(v))), j)),
                    Err(p) => Err(p),
                }
            },
            _ => expr_at(t, i),
        }
    }
}

/// Statements from `j` up to the token `close`, after `acc`; with `commas`, commas between them
/// are skipped. Gives the statements and the position after `close`.
pub open spec fn list_at(t: Seq<TokenV>, j: int, close: TokenV, commas: bool, acc: Seq<AstV>) -> Result<
    (Seq<AstV>, int),
    int,
>
    decreases t.len() - j, 7int,
{
    if j < 0 || j >= t.len() {
        Err(j)
    } else if t[j] == close {
        Ok((acc, j + 1))
    } else if commas && t[j] == TokenV::Comma {
        list_at(t, j + 1, close, commas, acc)
    } else {
        match item_at(t, j) {
            Ok((n, k)) => if advanced(t, j, k) {
                list_at(t, k, close, commas, acc.push(n))
            } else {
                Err(j)
            },
            Err(p) => Err(p),
        }
    }
}

/// Parameter names from `j` up to `)`, commas between them skipped.
pub open spec fn params_at(t: Seq<TokenV>, j: int, acc: Seq<AstV>) -> Result<(Seq<AstV>, int), int>
    decreases t.len() - j, 0int,
{
    if j < 0 || j >= t.len() {
        Err(j)
    } else {
        match t[j] {
            TokenV::CloseParen => Ok((acc, j + 1)),
            TokenV::Comma => params_at(t, j + 1, acc),
            TokenV::Ident(n) => params_at(t, j + 1, acc.push(AstV::Ident(n))),
            _ => Err(j),
        }
    }
}

/// A function literal at `i`: a bare parameter or a parenthesized list, `=>`, then a braced
/// block or one statement.
pub open spec fn fun_at(t: Seq<TokenV>, i: int) -> Result<(AstV, int), int>
    decreases t.len() - i, 5int,
{
    if i < 0 || i >= t.len() {
        Err(i)
    } else {
        let ps = match t[i] {
            TokenV::OpenParen => params_at(t, i + 1, seq![]),
            TokenV::Ident(n) => Ok((seq![AstV::Ident(n)], i + 1)),
            _ => Err(i),
        };
        match ps {
            Err(p) => Err(p),
            Ok((params, j)) => if i < j && tok(t, j) == Some(TokenV::Arrow) {
                if tok(t, j + 1) == Some(TokenV::OpenBrace) {
                    match list_at(t, j + 2, TokenV::CloseBrace, false, seq![]) {
                        Ok((body, k)) => Ok((AstV::Fun(params, body), k)),
                        Err(p) => Err(p),
                    }
                } else {
                    match item_at(t, j + 1) {
                        Ok((b, k)) => Ok((AstV::Fun(params, seq![b]), k)),
                        Err(p) => Err(p),
                    }
                }
            } else {
                Err(j)
            },
        }
    }
}

/// Fields `name: value` from `j` up to `}`, commas between them skipped.
pub open spec fn props_at(t: Seq<TokenV>, j: int, acc: Seq<(Seq<char>, AstV)>) -> Result<
    (Seq<(Seq<char>, AstV)>, int),
    int,
>
    decreases t.len() - j, 7int,
{
    if j < 0 || j >= t.len() {
        Err(j)
    } else {
        match t[j] {
            TokenV::CloseBrace => Ok((acc, j + 1)),
            TokenV::Comma => props_at(t, j + 1, acc),
            TokenV::Ident(name) => if tok(t, j + 1) == Some(TokenV::Colon) {
                match item_at(t, j + 2) {
                    Ok((v, k)) => if advanced(t, j, k) {
                        props_at(t, k, acc.push((name, v)))
                    } else {
                        Err(j)
                    },
                    Err(p) => Err(p),
                }
            } else {
                Err(j + 1)
            },
            _ => Err(j),
        }
    }
}

/// A struct-instance literal `Name { field: value, ... }` at `i`.
pub open spec fn struct_ins_at(t: Seq<TokenV>, i: int) -> Result<(AstV, int), int>
    decreases t.len() - i, 5int,
{
    match (tok(t, i), tok(t, i + 1)) {
        (Some(TokenV::Ident(name)), Some(TokenV::OpenBrace)) => match props_at(
            t,
            i + 2,
            seq![],
        ) {
            Ok((props, j)) => Ok((AstV::StructIns(name, props), j)),
            Err(p) => Err(p),
        },
        _ => Err(i),
    }
}

pub open spec fn additive(t: TokenV) -> Option<Op> {
    match t {
        TokenV::Plus => Some(Op::Plus),
        TokenV::Minus => Some(Op::Minus),
        _ => None,
    }
}

pub open spec fn multiplicative(t: TokenV) -> Option<Op> {
    match t {
        TokenV::Multiply => Some(Op::Multiply),
        TokenV::Divide => Some(Op::Divide),
        _ => None,
    }
}

/// An expression at `i`: a term, then optionally `+` or `-` and an expression as its right
/// operand.
pub open spec fn expr_at(t: Seq<TokenV>, i: int) -> Result<(AstV, int), int>
    decreases t.len() - i, 4int,
{
    if i < 0 || i >= t.len() {
        Err(i)
    } else {
        match term_at(t, i) {
            Err(p) => Err(p),
            Ok((l, j)) => if !advanced(t, i, j) {
                Err(i)
            } else if j < t.len() && additive(t[j]) is Some {
                match expr_at(t, j + 1) {
                    Ok((r, k)) => Ok(
                        (AstV::BinOp(Box::new(l), additive(t[j])->0, Box::new(r)), k),
                    ),
                    Err(p) => Err(p),
                }
            } else {
                Ok((l, j))
            },
        }
    }
}

/// A term at `i`: a factor, then optionally `*` or `/` and a term as its right operand.
pub open spec fn term_at(t: Seq<TokenV>, i: int) -> Result<(AstV, int), int>
    decreases t.len() - i, 3int,
{
    if i < 0 || i >= t.len() {
        Err(i)
    } else {
        match factor_at(t, i) {
            Err(p) => Err(p),
            Ok((l, j)) => if !advanced(t, i, j) {
                Err(i)
            } else if j < t.len() && multiplicative(t[j]) is Some {
                match term_at(t, j + 1) {
                    Ok((r, k)) => Ok(
                        (AstV::BinOp(Box::new(l), multiplicative(t[j])->0, Box::new(r)), k),
                    ),
                    Err(p) => Err(p),
                }
            } else {
                Ok((l, j))
            },
        }
    }
}

/// A factor at `i`: a name, a literal or a parenthesized expression, then its calls and
/// property accesses.
pub open spec fn factor_at(t: Seq<TokenV>, i: int) -> Result<(AstV, int), int>
    decreases t.len() - i, 2int,
{
    if i < 0 || i >= t.len() {
        Err(i)
    } else {
        let primary = match t[i] {
            TokenV::Ident(n) => Ok((AstV::Ident(n), i + 1)),
            TokenV::Str(s) => Ok((AstV::Str(s), i + 1)),
            TokenV::Int(v) => Ok((AstV::Int(v), i + 1)),
            TokenV::Decimal(d) => Ok((AstV::Float(d), i + 1)),
            TokenV::OpenParen => match expr_at(t, i + 1) {
                Ok((e, j)) => if tok(t, j) == Some(TokenV::CloseParen) {
                    Ok((e, j + 1))
                } else {
                    Err(j)
                },
                Err(p) => Err(p),
            },
            _ => Err(i),
        };
        match primary {
            Ok((p, j)) => if advanced(t, i, j) {
                postfix_at(t, p, j)
            } else {
                Err(i)
            },
            Err(p) => Err(p),
        }
    }
}

/// What follows the expression `node` that ends before `j`: a call, or a property access that
/// may be called.
pub open spec fn postfix_at(t: Seq<TokenV>, node: AstV, j: int) -> Result<(AstV, int), int>
    decreases t.len() - j, 1int,
{
    match tok(t, j) {
        Some(TokenV::OpenParen) => call_at(t, node, j),
        Some(TokenV::Dot) => match tok(t, j + 1) {
            Some(TokenV::Ident(p)) => {
                let access = AstV::ProbAccess(Box::new(node), p);
                if tok(t, j + 2) == Some(TokenV::OpenParen) {
                    call_at(t, access, j + 2)
                } else {
                    Ok((access, j + 2))
                }
            },
            _ => Err(j + 1),
        },
        _ => Ok((node, j)),
    }
}

/// A call of `callee` whose arguments open at `j`, and the calls chained onto its result.
pub open spec fn call_at(t: Seq<TokenV>, callee: AstV, j: int) -> Result<(AstV, int), int>
    decreases t.len() - j, 0int,
{
    if j < 0 || j >= t.len() {
        Err(j)
    } else {
        match list_at(t, j + 1, TokenV::CloseParen, true, seq![]) {
            Err(p) => Err(p),
            Ok((args, k)) => {
                let call = AstV::Call(Box::new(callee), args);
                if !advanced(t, j, k) {
                    Err(j)
                } else if tok(t, k) == Some(TokenV::OpenParen) {
                    call_at(t, call, k)
                } else {
                    Ok((call, k))
                }
            },
        }
    }
}

/// Statements from `i` to the end of input, after `acc`.
pub open spec fn block_at(t: Seq<TokenV>, i: int, acc: Seq<AstV>) -> Result<Seq<AstV>, int>
    decreases t.len() - i,
{
    if i < 0 || i >= t.len() {
        Ok(acc)
    } else {
        match item_at(t, i) {
            Ok((n, k)) => if advanced(t, i, k) {
                block_at(t, k, acc.push(n))
            } else {
                Err(i)
            },
            Err(p) => Err(p),
        }
    }
}

/// A whole program: the statements that cover every token, or the position of the token where
/// parsing fails.
pub open spec fn program(t: Seq<TokenV>) -> Result<Seq<AstV>, int> {
    block_at(t, 0, seq![])
}


/// Where each statement of `r` that `block_at` added after `acc` starts, and where the last ends.
proof fn block_positions(t: Seq<TokenV>, i: int, acc: Seq<AstV>, r: Seq<AstV>) -> (pos: Seq<int>)
    requires
        0 <= i <= t.len(),
        block_at(t, i, acc) == Ok::<Seq<AstV>, int>(r),
    ensures
        r.len() >= acc.len(),
        r.subrange(0, acc.len() as int) == acc,
        pos.len() == r.len() - acc.len() + 1,
        pos[0] == i,
        pos.last() == t.len(),
        forall|k: int|
            0 <= k < r.len() - acc.len() ==> item_at(t, #[trigger] pos[k]) == Ok::<(AstV, int), int>(
                (r[acc.len() + k], pos[k + 1]),
            ),
    decreases t.len() - i,
{
    if i >= t.len() {
        assert(r.subrange(0, acc.len() as int) =~= acc);
        seq![i]
    } else {
        let (n, j) = item_at(t, i)->Ok_0;
        let rest = block_positions(t, j, acc.push(n), r);
        assert(r[acc.len() as int] == acc.push(n)[acc.len() as int]) by {
            assert(r.subrange(0, acc.len() as int + 1) == acc.push(n));
        }
        assert(r.subrange(0, acc.len() as int) =~= r.subrange(0, acc.len() as int + 1).subrange(
            0,
            acc.len() as int,
        ));
        assert(acc.push(n).subrange(0, acc.len() as int) =~= acc);
        let pos = seq![i] + rest;
        assert forall|k: int| 0 <= k < r.len() - acc.len() implies item_at(t, #[trigger] pos[k])
            == Ok::<(AstV, int), int>((r[acc.len() + k], pos[k + 1])) by {
            if k > 0 {
                assert(pos[k] == rest[k - 1]);
                assert(item_at(t, rest[k - 1]) == Ok::<(AstV, int), int>((r[acc.len() + 1 + (k - 1)], rest[k])));
            }
        }
        pos
    }
}

/// A program that parses leaves no token out: its statements follow one another from the first
/// token, each starting where the one before ended, and the last ends at the end of input.
pub proof fn lemma_program_covers_input(t: Seq<TokenV>)
    requires
        program(t) is Ok,
    ensures
        exists|pos: Seq<int>|
            {
                &&& pos.len() == program(t)->Ok_0.len() + 1
                &&& pos[0] == 0
                &&& pos.last() == t.len()
                &&& forall|k: int|
                    0 <= k < program(t)->Ok_0.len() ==> item_at(t, #[trigger] pos[k]) == Ok::<(AstV, int), int>(
                        (program(t)->Ok_0[k], pos[k + 1]),
                    )
            },
{
    let r = program(t)->Ok_0;
    let pos = block_positions(t, 0, seq![], r);
    assert forall|k: int| 0 <= k < r.len() implies item_at(t, #[trigger] pos[k]) == Ok::<(AstV, int), int>(
        (r[k], pos[k + 1]),
    ) by {
        assert(item_at(t, pos[k]) == Ok::<(AstV, int), int>((r[0 + k], pos[k + 1])));
    }
}


/// A statement that parses consumes at least one token and stays within the input.
pub proof fn lemma_item_advances(t: Seq<TokenV>, i: int)
    ensures
        item_at(t, i) matches Ok((_, j)) ==> i < j <= t.len(),
    decreases t.len() - i, 6int,
{
    if 0 <= i < t.len() {
        match t[i] {
            TokenV::Ident(_) => match tok(t, i + 1) {
                Some(TokenV::Assign) => lemma_item_advances(t, i + 2),
                Some(TokenV::Ident(_)) => {},
                Some(TokenV::OpenBrace) => lemma_struct_ins_advances(t, i),
                Some(TokenV::Arrow) => lemma_fun_advances(t, i),
                _ => lemma_expr_advances(t, i),
            },
            TokenV::OpenBracket => lemma_list_advances(t, i + 1, TokenV::CloseBracket, true, seq![]),
            TokenV::OpenParen => {
                lemma_fun_advances(t, i);
                lemma_expr_advances(t, i);
            },
            TokenV::Ret => {
                if !ends_item(t, i + 1) {
                    lemma_item_advances(t, i + 1);
                }
            },
            _ => lemma_expr_advances(t, i),
        }
    }
}

pub proof fn lemma_list_advances(t: Seq<TokenV>, j: int, close: TokenV, commas: bool, acc: Seq<AstV>)
    ensures
        list_at(t, j, close, commas, acc) matches Ok((_, k)) ==> j < k <= t.len(),
    decreases t.len() - j, 7int,
{
    if 0 <= j < t.len() && t[j] != close {
        if commas && t[j] == TokenV::Comma {
            lemma_list_advances(t, j + 1, close, commas, acc);
        } else {
            lemma_item_advances(t, j);
            if let Ok((n, k)) = item_at(t, j) {
                if advanced(t, j, k) {
                    lemma_list_advances(t, k, close, commas, acc.push(n));
                }
            }
        }
    }
}

proof fn lemma_params_advances(t: Seq<TokenV>, j: int, acc: Seq<AstV>)
    ensures
        params_at(t, j, acc) matches Ok((_, k)) ==> j < k <= t.len(),
    decreases t.len() - j, 0int,
{
    if 0 <= j < t.len() {
        match t[j] {
            TokenV::Comma => lemma_params_advances(t, j + 1, acc),
            TokenV::Ident(n) => lemma_params_advances(t, j + 1, acc.push(AstV::Ident(n))),
            _ => {},
        }
    }
}

proof fn lemma_fun_advances(t: Seq<TokenV>, i: int)
    ensures
        fun_at(t, i) matches Ok((_, k)) ==> i < k <= t.len(),
    decreases t.len() - i, 5int,
{
    if 0 <= i < t.len() {
        if t[i] is OpenParen {
            lemma_params_advances(t, i + 1, seq![]);
        }
        let ps = match t[i] {
            TokenV::OpenParen => params_at(t, i + 1, seq![]),
            TokenV::Ident(n) => Ok((seq![AstV::Ident(n)], i + 1)),
            _ => Err(i),
        };
        if let Ok((_, j)) = ps {
            if i < j && tok(t, j) == Some(TokenV::Arrow) {
                if tok(t, j + 1) == Some(TokenV::OpenBrace) {
                    lemma_list_advances(t, j + 2, TokenV::CloseBrace, false, seq![]);
                } else {
                    lemma_item_advances(t, j + 1);
                }
            }
        }
    }
}

proof fn lemma_props_advances(t: Seq<TokenV>, j: int, acc: Seq<(Seq<char>, AstV)>)
    ensures
        props_at(t, j, acc) matches Ok((_, k)) ==> j < k <= t.len(),
    decreases t.len() - j, 7int,
{
    if 0 <= j < t.len() {
        match t[j] {
            TokenV::Comma => lemma_props_advances(t, j + 1, acc),
            TokenV::Ident(name) => if tok(t, j + 1) == Some(TokenV::Colon) {
                lemma_item_advances(t, j + 2);
                if let Ok((v, k)) = item_at(t, j + 2) {
                    if advanced(t, j, k) {
                        lemma_props_advances(t, k, acc.push((name, v)));
                    }
                }
            },
            _ => {},
        }
    }
}

proof fn lemma_struct_ins_advances(t: Seq<TokenV>, i: int)
    ensures
        struct_ins_at(t, i) matches Ok((_, k)) ==> i < k <= t.len(),
    decreases t.len() - i, 5int,
{
    if 0 <= i && tok(t, i + 1) is Some {
        lemma_props_advances(t, i + 2, seq![]);
    }
}

pub proof fn lemma_expr_advances(t: Seq<TokenV>, i: int)
    ensures
        expr_at(t, i) matches Ok((_, k)) ==> i < k <= t.len(),
    decreases t.len() - i, 4int,
{
    if 0 <= i < t.len() {
        lemma_term_advances(t, i);
        if let Ok((_, j)) = term_at(t, i) {
            if advanced(t, i, j) && j < t.len() && additive(t[j]) is Some {
                lemma_expr_advances(t, j + 1);
            }
        }
    }
}

pub proof fn lemma_term_advances(t: Seq<TokenV>, i: int)
    ensures
        term_at(t, i) matches Ok((_, k)) ==> i < k <= t.len(),
    decreases t.len() - i, 3int,
{
    if 0 <= i < t.len() {
        lemma_factor_advances(t, i);
        if let Ok((_, j)) = factor_at(t, i) {
            if advanced(t, i, j) && j < t.len() && multiplicative(t[j]) is Some {
                lemma_term_advances(t, j + 1);
            }
        }
    }
}

pub proof fn lemma_factor_advances(t: Seq<TokenV>, i: int)
    ensures
        factor_at(t, i) matches Ok((_, k)) ==> i < k <= t.len(),
    decreases t.len() - i, 2int,
{
    if 0 <= i < t.len() {
        if t[i] is OpenParen {
            lemma_expr_advances(t, i + 1);
        }
        let primary = match t[i] {
            TokenV::Ident(n) => Ok((AstV::Ident(n), i + 1)),
            TokenV::Str(s) => Ok((AstV::Str(s), i + 1)),
            TokenV::Int(v) => Ok((AstV::Int(v), i + 1)),
            TokenV::Decimal(d) => Ok((AstV::Float(d), i + 1)),
            TokenV::OpenParen => match expr_at(t, i + 1) {
                Ok((e, j)) => if tok(t, j) == Some(TokenV::CloseParen) {
                    Ok((e, j + 1))
                } else {
                    Err(j)
                },
                Err(p) => Err(p),
            },
            _ => Err(i),
        };
        if let Ok((p, j)) = primary {
            if advanced(t, i, j) {
                lemma_postfix_advances(t, p, j);
            }
        }
    }
}

proof fn lemma_postfix_advances(t: Seq<TokenV>, node: AstV, j: int)
    requires
        0 <= j <= t.len(),
    ensures
        postfix_at(t, node, j) matches Ok((_, k)) ==> j <= k <= t.len(),
    decreases t.len() - j, 1int,
{
    match tok(t, j) {
        Some(TokenV::OpenParen) => lemma_call_advances(t, node, j),
        Some(TokenV::Dot) => if let Some(TokenV::Ident(p)) = tok(t, j + 1) {
            if tok(t, j + 2) == Some(TokenV::OpenParen) {
                lemma_call_advances(t, AstV::ProbAccess(Box::new(node), p), j + 2);
            }
        },
        _ => {},
    }
}

proof fn lemma_call_advances(t: Seq<TokenV>, callee: AstV, j: int)
    ensures
        call_at(t, callee, j) matches Ok((_, k)) ==> j < k <= t.len(),
    decreases t.len() - j, 0int,
{
    if 0 <= j < t.len() {
        lemma_list_advances(t, j + 1, TokenV::CloseParen, true, seq![]);
        if let Ok((args, k)) = list_at(t, j + 1, TokenV::CloseParen, true, seq![]) {
            if advanced(t, j, k) && tok(t, k) == Some(TokenV::OpenParen) {
                lemma_call_advances(t, AstV::Call(Box::new(callee), args), k);
            }
        }
    }
}

} // verus!
