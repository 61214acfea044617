use vstd::prelude::*;

use crate::ast::{
    lemma_nodes_view_push, lemma_props_view_push, node_view, nodes_view, props_view, ASTNode,
    Array, Assign, AstV, BinOp, Call, Fun, Op, ProbAccess, Property, Ret, StructIns, Var,
};
use crate::grammar::{
    additive, close_paren_at, ends_item, expr_at, factor_at, fun_at, item_at, list_at,
    multiplicative, paren_opens_fun, params_at, postfix_at, props_at, struct_ins_at, term_at, tok,
    call_at, block_at, program, lemma_item_advances, lemma_term_advances, lemma_factor_advances,
    lemma_expr_advances, lemma_list_advances,
};
use crate::lexer::{
    byte_spans_match, lemma_lex_from_len, lemma_lex_from_ordered, lex, spanned_view, tokenize, Span, Token, TokenV,
};

verus! {

/// The kinds of a spanned token sequence.
pub open spec fn kinds(v: Seq<(Token, Span)>) -> Seq<TokenV> {
    v.map_values(|p: (Token, Span)| p.0@)
}

/// The token kinds that `lex` finds in `s`.
pub open spec fn lex_kinds(s: Seq<char>) -> Seq<TokenV> {
    lex(s).map_values(|p: (TokenV, int, int)| p.0)
}

/// An executable result agrees with what the grammar says of the same position.
pub open spec fn answers(r: Result<(ASTNode, usize), usize>, s: Result<(AstV, int), int>) -> bool {
    match r {
        Ok((n, j)) => s == Ok::<(AstV, int), int>((node_view(n), j as int)),
        Err(p) => s == Err::<(AstV, int), int>(p as int),
    }
}

pub open spec fn answers_list(r: Result<(Vec<ASTNode>, usize), usize>, s: Result<(Seq<AstV>, int), int>) -> bool {
    match r {
        Ok((v, j)) => s == Ok::<(Seq<AstV>, int), int>((nodes_view(v@), j as int)),
        Err(p) => s == Err::<(Seq<AstV>, int), int>(p as int),
    }
}

/// The token that closes a list.
#[derive(Clone, Copy, PartialEq, Eq, Structural)]
enum Closer {
    Bracket,
    Paren,
    Brace,
}

spec fn closer_token(c: Closer) -> TokenV {
    match c {
        Closer::Bracket => TokenV::CloseBracket,
        Closer::Paren => TokenV::CloseParen,
        Closer::Brace => TokenV::CloseBrace,
    }
}

fn closes(t: &Token, c: Closer) -> (r: bool)
    ensures
        r == (t@ == closer_token(c)),
{
    match (t, c) {
        (Token::CloseBracket, Closer::Bracket) => true,
        (Token::CloseParen, Closer::Paren) => true,
        (Token::CloseBrace, Closer::Brace) => true,
        _ => false,
    }
}

fn is_token(t: &Vec<(Token, Span)>, i: usize, want: &Token) -> (r: bool)
    requires
        want@ is Comma || want@ is Arrow || want@ is OpenBrace || want@ is OpenParen || want@ is CloseParen
            || want@ is Colon,
    ensures
        r == (tok(kinds(t@), i as int) == Some(want@)),
{
    if i >= t.len() {
        return false;
    }
    assert(kinds(t@)[i as int] == t@[i as int].0@);
    match (&t[i].0, want) {
        (Token::Comma, Token::Comma) => true,
        (Token::Arrow, Token::Arrow) => true,
        (Token::OpenBrace, Token::OpenBrace) => true,
        (Token::OpenParen, Token::OpenParen) => true,
        (Token::CloseParen, Token::CloseParen) => true,
        (Token::Colon, Token::Colon) => true,
        _ => false,
    }
}

proof fn lemma_nodes_view_single(n: ASTNode)
    ensures
        nodes_view(seq![n]) == seq![node_view(n)],
{
    lemma_nodes_view_push(seq![], n);
    assert(Seq::<ASTNode>::empty().push(n) =~= seq![n]);
    assert(nodes_view(Seq::<ASTNode>::empty()) =~= Seq::<AstV>::empty());
    assert(Seq::<AstV>::empty().push(node_view(n)) =~= seq![node_view(n)]);
}

/// Statements from `j0` up to the closing token, commas between them skipped where `commas`.
fn parse_list(t: &Vec<(Token, Span)>, j0: usize, close: Closer, commas: bool) -> (r: Result<
    (Vec<ASTNode>, usize),
    usize,
>)
    requires
        t@.len() < usize::MAX - 2,
    ensures
        answers_list(r, list_at(kinds(t@), j0 as int, closer_token(close), commas, seq![])),
    decreases t@.len() - j0, 7int,
{
    let ghost k = kinds(t@);
    let mut acc: Vec<ASTNode> = Vec::new();
    let mut j = j0;
    assert(nodes_view(acc@) =~= Seq::<AstV>::empty());
    loop
        invariant
            k == kinds(t@),
            t@.len() < usize::MAX - 2,
            j0 <= j,
            list_at(k, j as int, closer_token(close), commas, nodes_view(acc@)) == list_at(
                k,
                j0 as int,
                closer_token(close),
                commas,
                seq![],
            ),
        decreases t@.len() - j,
    {
        if j >= t.len() {
            return Err(j);
        }
        assert(k[j as int] == t@[j as int].0@);
        if closes(&t[j].0, close) {
            return Ok((acc, j + 1));
        }
        if commas && is_token(t, j, &Token::Comma) {
            j += 1;
        } else {
            match parse_item(t, j) {
                Ok((n, e)) => {
                    proof {
                        lemma_item_advances(kinds(t@), j as int);
                    }
                    proof {
                        lemma_nodes_view_push(acc@, n);
                    }
                    acc.push(n);
                    j = e;
                },
                Err(p) => {
                    return Err(p);
                },
            }
        }
    }
}

/// Parameter names from `j0` up to `)`.
fn parse_params(t: &Vec<(Token, Span)>, j0: usize) -> (r: Result<(Vec<ASTNode>, usize), usize>)
    requires
        t@.len() < usize::MAX - 2,
    ensures
        answers_list(r, params_at(kinds(t@), j0 as int, seq![])),
{
    let ghost k = kinds(t@);
    let mut acc: Vec<ASTNode> = Vec::new();
    let mut j = j0;
    assert(nodes_view(acc@) =~= Seq::<AstV>::empty());
    loop
        invariant
            k == kinds(t@),
            t@.len() < usize::MAX - 2,
            params_at(k, j as int, nodes_view(acc@)) == params_at(k, j0 as int, seq![]),
        decreases t@.len() - j,
    {
        if j >= t.len() {
            return Err(j);
        }
        assert(k[j as int] == t@[j as int].0@);
        match &t[j].0 {
            Token::CloseParen => {
                return Ok((acc, j + 1));
            },
            Token::Comma => {
                j += 1;
            },
            Token::Ident(n) => {
                let node = ASTNode::Ident(n.clone());
                proof {
                    lemma_nodes_view_push(acc@, node);
                }
                acc.push(node);
                j += 1;
            },
            _ => {
                return Err(j);
            },
        }
    }
}

/// A statement at `i`.
fn parse_item(t: &Vec<(Token, Span)>, i: usize) -> (r: Result<(ASTNode, usize), usize>)
    requires
        t@.len() < usize::MAX - 2,
    ensures
        answers(r, item_at(kinds(t@), i as int)),
    decreases t@.len() - i, 6int,
{
    let ghost k = kinds(t@);
    if i >= t.len() {
        return Err(i);
    }
    assert(k[i as int] == t@[i as int].0@);
    match &t[i].0 {
        Token::Ident(name) => {
            if i + 1 < t.len() {
                assert(k[i + 1] == t@[i + 1].0@);
                match &t[i + 1].0 {
                    Token::Assign => match parse_item(t, i + 2) {
                        Ok((r, j)) => {
                            let left = ASTNode::Ident(name.clone());
                            assert(node_view(left) == AstV::Ident(name@));
                            Ok(
                                (
                                    ASTNode::Assign(
                                        Assign { left: Box::new(left), right: Box::new(r) },
                                    ),
                                    j,
                                ),
                            )
                        },
                        Err(p) => Err(p),
                    },
                    Token::Ident(var) => Ok(
                        (ASTNode::Var(Var { name: var.clone(), typ: name.clone() }), i + 2),
                    ),
                    Token::OpenBrace => parse_obj_ins(t, i),
                    Token::Arrow => parse_fun(t, i),
                    _ => parse_expr(t, i),
                }
            } else {
                parse_expr(t, i)
            }
        },
        Token::OpenBracket => match parse_list(t, i + 1, Closer::Bracket, true) {
            Ok((items, j)) => Ok((ASTNode::Array(Array { items }), j)),
            Err(p) => Err(p),
        },
        Token::OpenParen => {
            if paren_opens_fun_exec(t, i) {
                parse_fun(t, i)
            } else {
                parse_expr(t, i)
            }
        },
        Token::Ret => {
            if ends_item_exec(t, i + 1) {
                Ok((ASTNode::Ret(Ret { value: Box::new(None) }), i + 1))
            } else {
                match parse_item(t, i + 1) {
                    Ok((v, j)) => Ok((ASTNode::Ret(Ret { value: Box::new(Some(v)) }), j)),
                    Err(p) => Err(p),
                }
            }
        },
        _ => parse_expr(t, i),
    }
}

fn paren_opens_fun_exec(t: &Vec<(Token, Span)>, i: usize) -> (r: bool)
    requires
        i < t@.len() < usize::MAX - 2,
    ensures
        r == paren_opens_fun(kinds(t@), i as int),
{
    let ghost k = kinds(t@);
    let mut c = i + 1;
    let mut depth: usize = 0;
    let mut found = false;
    while c < t.len() && !found
        invariant
            k == kinds(t@),
            i < c <= t@.len(),
            depth <= c,
            found ==> c < t@.len() && close_paren_at(k, i + 1, 0) == c,
            !found ==> close_paren_at(k, c as int, depth as nat) == close_paren_at(k, i + 1, 0),
        decreases t@.len() - c, if found { 0int } else { 1int },
    {
        assert(k[c as int] == t@[c as int].0@);
        match &t[c].0 {
            Token::CloseParen => {
                if depth == 0 {
                    found = true;
                } else {
                    depth -= 1;
                    c += 1;
                }
            },
            Token::OpenParen => {
                depth += 1;
                c += 1;
            },
            _ => {
                c += 1;
            },
        }
    }
    c < t.len() && is_token(t, c + 1, &Token::Arrow)
}

fn ends_item_exec(t: &Vec<(Token, Span)>, i: usize) -> (r: bool)
    ensures
        r == ends_item(kinds(t@), i as int),
{
    if i >= t.len() {
        return true;
    }
    assert(kinds(t@)[i as int] == t@[i as int].0@);
    match &t[i].0 {
        Token::CloseBrace | Token::CloseParen | Token::CloseBracket | Token::Comma => true,
        _ => false,
    }
}

/// A function literal at `i`.
fn parse_fun(t: &Vec<(Token, Span)>, i: usize) -> (r: Result<(ASTNode, usize), usize>)
    requires
        t@.len() < usize::MAX - 2,
    ensures
        answers(r, fun_at(kinds(t@), i as int)),
    decreases t@.len() - i, 5int,
{
    let ghost k = kinds(t@);
    if i >= t.len() {
        return Err(i);
    }
    assert(k[i as int] == t@[i as int].0@);
    let (ps, j) = match &t[i].0 {
        Token::OpenParen => match parse_params(t, i + 1) {
            Ok(p) => p,
            Err(p) => {
                return Err(p);
            },
        },
        Token::Ident(n) => {
            let node = ASTNode::Ident(n.clone());
            proof {
                lemma_nodes_view_single(node);
            }
            let v = vec![node];
            assert(v@ =~= seq![node]);
            (v, i + 1)
        },
        _ => {
            return Err(i);
        },
    };
    if !(i < j && is_token(t, j, &Token::Arrow)) {
        return Err(j);
    }
    if is_token(t, j + 1, &Token::OpenBrace) {
        match parse_list(t, j + 2, Closer::Brace, false) {
            Ok((body, e)) => Ok((ASTNode::Fun(Fun { params: ps, body }), e)),
            Err(p) => Err(p),
        }
    } else {
        match parse_item(t, j + 1) {
            Ok((b, e)) => {
                proof {
                    lemma_nodes_view_single(b);
                }
                let body = vec![b];
                assert(body@ =~= seq![b]);
                Ok((ASTNode::Fun(Fun { params: ps, body }), e))
            },
            Err(p) => Err(p),
        }
    }
}

/// A struct-instance literal at `i`.
fn parse_obj_ins(t: &Vec<(Token, Span)>, i: usize) -> (r: Result<(ASTNode, usize), usize>)
    requires
        t@.len() < usize::MAX - 2,
    ensures
        answers(r, struct_ins_at(kinds(t@), i as int)),
    decreases t@.len() - i, 5int,
{
    let ghost k = kinds(t@);
    if !(i < t.len() && is_token(t, i + 1, &Token::OpenBrace)) {
        return Err(i);
    }
    assert(k[i as int] == t@[i as int].0@);
    let name = match &t[i].0 {
        Token::Ident(n) => n.clone(),
        _ => {
            return Err(i);
        },
    };
    let mut props: Vec<Property> = Vec::new();
    let mut j = i + 2;
    assert(props_view(props@) =~= Seq::<(Seq<char>, AstV)>::empty());
    loop
        invariant
            k == kinds(t@),
            t@.len() < usize::MAX - 2,
            i + 2 <= j,
            props_at(k, j as int, props_view(props@)) == props_at(k, i + 2, seq![]),
            struct_ins_at(k, i as int) == match props_at(k, i + 2, seq![]) {
                Ok((ps, e)) => Ok((AstV::StructIns(name@, ps), e)),
                Err(p) => Err(p),
            },
        decreases t@.len() - j,
    {
        if j >= t.len() {
            return Err(j);
        }
        assert(k[j as int] == t@[j as int].0@);
        match &t[j].0 {
            Token::CloseBrace => {
                return Ok((ASTNode::StructIns(StructIns { name, probs: props }), j + 1));
            },
            Token::Comma => {
                j += 1;
            },
            Token::Ident(pn) => {
                if !is_token(t, j + 1, &Token::Colon) {
                    return Err(j + 1);
                }
                match parse_item(t, j + 2) {
                    Ok((v, e)) => {
                        proof {
                            lemma_item_advances(kinds(t@), j + 2);
                        }
                        let p = Property { name: pn.clone(), value: Box::new(v) };
                        proof {
                            lemma_props_view_push(props@, p);
                        }
                        props.push(p);
                        j = e;
                    },
                    Err(p) => {
                        return Err(p);
                    },
                }
            },
            _ => {
                return Err(j);
            },
        }
    }
}

fn op_of(tk: &Token, additive_level: bool) -> (r: Option<Op>)
    ensures
        r == if additive_level {
            additive(tk@)
        } else {
            multiplicative(tk@)
        },
{
    match tk {
        Token::Plus => if additive_level {
            Some(Op::Plus)
        } else {
            None
        },
        Token::Minus => if additive_level {
            Some(Op::Minus)
        } else {
            None
        },
        Token::Multiply => if additive_level {
            None
        } else {
            Some(Op::Multiply)
        },
        Token::Divide => if additive_level {
            None
        } else {
            Some(Op::Divide)
        },
        _ => None,
    }
}

/// An expression at `i`.
fn parse_expr(t: &Vec<(Token, Span)>, i: usize) -> (r: Result<(ASTNode, usize), usize>)
    requires
        t@.len() < usize::MAX - 2,
    ensures
        answers(r, expr_at(kinds(t@), i as int)),
    decreases t@.len() - i, 4int,
{
    let ghost k = kinds(t@);
    if i >= t.len() {
        return Err(i);
    }
    let (l, j) = match parse_term(t, i) {
        Ok(p) => p,
        Err(p) => {
            return Err(p);
        },
    };
    proof {
        lemma_term_advances(kinds(t@), i as int);
    }
    if j < t.len() {
        assert(k[j as int] == t@[j as int].0@);
        match op_of(&t[j].0, true) {
            Some(op) => match parse_expr(t, j + 1) {
                Ok((r, e)) => {
                    return Ok(
                        (ASTNode::BinOp(BinOp { left: Box::new(l), op, right: Box::new(r) }), e),
                    );
                },
                Err(p) => {
                    return Err(p);
                },
            },
            None => {},
        }
    }
    Ok((l, j))
}

/// A term at `i`.
fn parse_term(t: &Vec<(Token, Span)>, i: usize) -> (r: Result<(ASTNode, usize), usize>)
    requires
        t@.len() < usize::MAX - 2,
    ensures
        answers(r, term_at(kinds(t@), i as int)),
    decreases t@.len() - i, 3int,
{
    let ghost k = kinds(t@);
    if i >= t.len() {
        return Err(i);
    }
    let (l, j) = match parse_factor(t, i) {
        Ok(p) => p,
        Err(p) => {
            return Err(p);
        },
    };
    proof {
        lemma_factor_advances(kinds(t@), i as int);
    }
    if j < t.len() {
        assert(k[j as int] == t@[j as int].0@);
        match op_of(&t[j].0, false) {
            Some(op) => match parse_term(t, j + 1) {
                Ok((r, e)) => {
                    return Ok(
                        (ASTNode::BinOp(BinOp { left: Box::new(l), op, right: Box::new(r) }), e),
                    );
                },
                Err(p) => {
                    return Err(p);
                },
            },
            None => {},
        }
    }
    Ok((l, j))
}

/// A factor at `i`, with the calls and property accesses that follow it.
fn parse_factor(t: &Vec<(Token, Span)>, i: usize) -> (r: Result<(ASTNode, usize), usize>)
    requires
        t@.len() < usize::MAX - 2,
    ensures
        answers(r, factor_at(kinds(t@), i as int)),
    decreases t@.len() - i, 2int,
{
    let ghost k = kinds(t@);
    if i >= t.len() {
        return Err(i);
    }
    assert(k[i as int] == t@[i as int].0@);
    let (p, j) = match &t[i].0 {
        Token::Ident(n) => (ASTNode::Ident(n.clone()), i + 1),
        Token::Str(s) => (ASTNode::Str(s.clone()), i + 1),
        Token::Int(v) => (ASTNode::Int(*v), i + 1),
        Token::Decimal(d) => (ASTNode::Float(*d), i + 1),
        Token::OpenParen => match parse_expr(t, i + 1) {
            Ok((e, j)) => {
                if !is_token(t, j, &Token::CloseParen) {
                    return Err(j);
                }
                (e, j + 1)
            },
            Err(p) => {
                return Err(p);
            },
        },
        _ => {
            return Err(i);
        },
    };
    proof {
        lemma_expr_advances(kinds(t@), i + 1);
    }
    parse_postfix(t, p, j)
}

/// The calls and property accesses that follow `node`, from `j` on.
fn parse_postfix(t: &Vec<(Token, Span)>, node: ASTNode, j: usize) -> (r: Result<(ASTNode, usize), usize>)
    requires
        t@.len() < usize::MAX - 2,
    ensures
        answers(r, postfix_at(kinds(t@), node_view(node), j as int)),
    decreases t@.len() - j, 1int,
{
    let ghost k = kinds(t@);
    if j >= t.len() {
        return Ok((node, j));
    }
    assert(k[j as int] == t@[j as int].0@);
    match &t[j].0 {
        Token::OpenParen => parse_call(t, node, j),
        Token::Dot => {
            if j + 1 >= t.len() {
                return Err(j + 1);
            }
            assert(k[j + 1] == t@[j + 1].0@);
            match &t[j + 1].0 {
                Token::Ident(prop) => {
                    let access = ASTNode::ProbAccess(
                        ProbAccess { object: Box::new(node), property: prop.clone() },
                    );
                    if is_token(t, j + 2, &Token::OpenParen) {
                        parse_call(t, access, j + 2)
                    } else {
                        Ok((access, j + 2))
                    }
                },
                _ => Err(j + 1),
            }
        },
        _ => Ok((node, j)),
    }
}

/// A call of `callee` whose arguments open at `j`, and the calls chained onto it.
fn parse_call(t: &Vec<(Token, Span)>, callee: ASTNode, j: usize) -> (r: Result<(ASTNode, usize), usize>)
    requires
        t@.len() < usize::MAX - 2,
    ensures
        answers(r, call_at(kinds(t@), node_view(callee), j as int)),
    decreases t@.len() - j, 0int,
{
    if j >= t.len() {
        return Err(j);
    }
    let (args, e) = match parse_list(t, j + 1, Closer::Paren, true) {
        Ok(p) => p,
        Err(p) => {
            return Err(p);
        },
    };
    let c = ASTNode::Call(Call { callee: Box::new(callee), args });
    proof {
        lemma_list_advances(kinds(t@), j + 1, TokenV::CloseParen, true, seq![]);
    }
    if is_token(t, e, &Token::OpenParen) {
        parse_call(t, c, e)
    } else {
        Ok((c, e))
    }
}


/// The source text around token `at` of the spanned tokens `toks`: from the start of the third
/// token before it to the end of the third token after it, or to either end of the input where
/// there are fewer, counted in characters.
pub open spec fn context_window(input: Seq<char>, toks: Seq<(TokenV, int, int)>, at: int) -> Seq<
    char,
> {
    let n = toks.len() as int;
    let start = if at >= 3 {
        at - 3
    } else {
        0
    };
    let end = if at <= n && n - at > 3 {
        at + 3
    } else {
        n
    };
    let from = if start > 0 && start < n {
        toks[start].1
    } else {
        0
    };
    let to = if end < n {
        toks[end].2
    } else {
        input.len() as int
    };
    input.subrange(from, to)
}

/// A parse that failed: the index of the token where it failed, and the source text around it.
#[derive(Debug)]
pub struct ParseError {
    pub at: usize,
    pub context: String,
}

pub struct Parser {
    tokens: Vec<(Token, Span)>,
    i: usize,
    input: String,
}

impl Parser {
    /// The kinds of the tokens that the parser reads.
    pub closed spec fn token_kinds(&self) -> Seq<TokenV> {
        kinds(self.tokens@)
    }

    /// The tokens that the parser reads, with their spans.
    pub closed spec fn tokens(&self) -> Seq<(Token, Span)> {
        self.tokens@
    }

    /// The source text that the tokens come from.
    pub closed spec fn input_text(&self) -> Seq<char> {
        self.input@
    }

    /// The index of the next token to read.
    pub closed spec fn position(&self) -> int {
        self.i as int
    }

    pub closed spec fn wf(&self) -> bool {
        &&& self.tokens@.len() < usize::MAX - 2
        &&& self.i <= self.tokens@.len()
        &&& spanned_view(self.tokens@) == lex(self.input@)
    }

    /// A parser at the first token of `input`.
    pub fn new(input: &str) -> (r: Parser)
        requires
            input@.len() <= usize::MAX / 4,
        ensures
            r.wf(),
            r.token_kinds() == lex_kinds(input@),
            r.token_kinds() == kinds(r.tokens()),
            spanned_view(r.tokens()) == lex(input@),
            byte_spans_match(input@, r.tokens()),
            r.input_text() == input@,
            r.position() == 0,
    {
        let tokens = tokenize(input);
        proof {
            lemma_lex_from_len(input@, 0);
            assert(kinds(tokens@) =~= lex_kinds(input@)) by {
                assert forall|k: int| 0 <= k < tokens@.len() implies kinds(tokens@)[k]
                    == lex_kinds(input@)[k] by {
                    assert(spanned_view(tokens@)[k].0 == tokens@[k].0@);
                }
            }
        }
        Parser { tokens, i: 0, input: input.to_owned() }
    }

    /// The source text around token `at`: from three tokens before it to three after it.
    fn context(&self, at: usize) -> (r: String)
        requires
            self.wf(),
        ensures
            r@ == context_window(self.input@, spanned_view(self.tokens@), at as int),
    {
        let n = self.tokens.len();
        let start: usize = if at >= 3 { at - 3 } else { 0 };
        let end: usize = if at <= n && n - at > 3 { at + 3 } else { n };
        let from: usize = if start > 0 && start < n { self.tokens[start].1.char_start } else { 0 };
        let chars = self.input.as_str().unicode_len();
        let to: usize = if end < n { self.tokens[end].1.char_end } else { chars };
        proof {
            let l = lex(self.input@);
            lemma_lex_from_ordered(self.input@, 0);
            assert(l == spanned_view(self.tokens@));
            if start > 0 && start < n {
                assert(l[start as int].1 == from);
            }
            if end < n {
                assert(l[end as int].2 == to);
                if start > 0 && start < n && start < end {
                    assert(l[start as int].2 <= l[end as int].1);
                }
            }
        }
        self.input.as_str().substring_char(from, to).to_owned()
    }

    /// Parses the statements from the current token to the end of input. On success every
    /// token has been read.
    pub fn parse(&mut self) -> (r: Result<Vec<ASTNode>, ParseError>)
        requires
            old(self).wf(),
        ensures
            final(self).wf(),
            final(self).token_kinds() == old(self).token_kinds(),
            final(self).tokens() == old(self).tokens(),
            final(self).input_text() == old(self).input_text(),
            match r {
                Ok(v) => {
                    &&& block_at(old(self).token_kinds(), old(self).position(), seq![]) == Ok::<
                        Seq<AstV>,
                        int,
                    >(nodes_view(v@))
                    &&& final(self).position() == final(self).token_kinds().len()
                },
                Err(e) => {
                    &&& block_at(old(self).token_kinds(), old(self).position(), seq![]) == Err::<
                        Seq<AstV>,
                        int,
                    >(e.at as int)
                    &&& e.context@ == context_window(
                        old(self).input_text(),
                        spanned_view(old(self).tokens()),
                        e.at as int,
                    )
                },
            },
    {
        let ghost k = kinds(self.tokens@);
        let ghost i0 = self.i as int;
        let mut acc: Vec<ASTNode> = Vec::new();
        assert(nodes_view(acc@) =~= Seq::<AstV>::empty());
        while self.i < self.tokens.len()
            invariant
                self.wf(),
                k == kinds(self.tokens@),
                self.tokens@ == old(self).tokens@,
                self.input == old(self).input,
                i0 == old(self).i,
                block_at(k, self.i as int, nodes_view(acc@)) == block_at(k, i0, seq![]),
            decreases self.tokens@.len() - self.i,
        {
            match parse_item(&self.tokens, self.i) {
                Ok((n, e)) => {
                    proof {
                        lemma_item_advances(k, self.i as int);
                        lemma_nodes_view_push(acc@, n);
                    }
                    acc.push(n);
                    self.i = e;
                },
                Err(at) => {
                    let context = self.context(at);
                    return Err(ParseError { at, context });
                },
            }
        }
        Ok(acc)
    }
}

/// Tokenizes and parses a whole program.
pub fn parse_code(code: &str) -> (r: Result<Vec<ASTNode>, ParseError>)
    requires
        code@.len() <= usize::MAX / 4,
    ensures
        match r {
            Ok(v) => program(lex_kinds(code@)) == Ok::<Seq<AstV>, int>(nodes_view(v@)),
            Err(e) => {
                &&& program(lex_kinds(code@)) == Err::<Seq<AstV>, int>(e.at as int)
                &&& e.context@ == context_window(code@, lex(code@), e.at as int)
            },
        },
{
    let mut p = Parser::new(code);
    p.parse()
}

} // verus!
