use vstd::prelude::*;
use vstd::string::StringExecFns;

use crate::ast::{node_view, props_view, nodes_view, ASTNode, AstV, Property};
use crate::bytecode::ByteCode;
use crate::lexer::Decimal;

verus! {

pub open spec fn digit_char(d: nat) -> char {
    if d == 0 { '0' } else if d == 1 { '1' } else if d == 2 { '2' } else if d == 3 { '3' } else if d
        == 4 { '4' } else if d == 5 { '5' } else if d == 6 { '6' } else if d == 7 { '7' } else if d
        == 8 { '8' } else { '9' }
}

fn push_digit(s: &mut String, d: usize)
    requires
        d < 10,
    ensures
        final(s)@ == old(s)@.push(digit_char(d as nat)),
{
    let t: &str = if d == 0 { "0" } else if d == 1 { "1" } else if d == 2 { "2" } else if d == 3 { "3" } else if d == 4 { "4" } else if d == 5 { "5" } else if d == 6 { "6" } else if d == 7 { "7" } else if d == 8 { "8" } else { "9" };
    proof {
        reveal_strlit("0");
        reveal_strlit("1");
        reveal_strlit("2");
        reveal_strlit("3");
        reveal_strlit("4");
        reveal_strlit("5");
        reveal_strlit("6");
        reveal_strlit("7");
        reveal_strlit("8");
        reveal_strlit("9");
    }
    assert(t@ =~= seq![digit_char(d as nat)]);
    s.append(t);
}


/// The decimal digits of `n`, without leading zeros.
pub open spec fn decimal_digits(n: nat) -> Seq<char>
    decreases n,
{
    if n < 10 {
        seq![digit_char(n)]
    } else {
        decimal_digits(n / 10).push(digit_char(n % 10))
    }
}

/// `n` in decimal, padded with zeros to at least four digits.
pub open spec fn index_text(n: nat) -> Seq<char> {
    let pad: Seq<char> = if n < 10 {
        "000"@
    } else if n < 100 {
        "00"@
    } else if n < 1000 {
        "0"@
    } else {
        seq![]
    };
    pad + decimal_digits(n)
}

/// An instruction as text: its name, then its operand in parentheses.
pub open spec fn instr_text(b: ByteCode) -> Seq<char> {
    match b {
        ByteCode::LoadIdent(k) => "LoadIdent("@ + decimal_digits(k as nat) + ")"@,
        ByteCode::Store => "Store"@,
        ByteCode::LoadConst(k) => "LoadConst("@ + decimal_digits(k as nat) + ")"@,
        ByteCode::CreateStruct(k) => "CreateStruct("@ + decimal_digits(k as nat) + ")"@,
        ByteCode::AddField(k) => "AddField("@ + decimal_digits(k as nat) + ")"@,
        ByteCode::StoreField(k) => "StoreField("@ + decimal_digits(k as nat) + ")"@,
        ByteCode::MakeArray(k) => "MakeArray("@ + decimal_digits(k as nat) + ")"@,
        ByteCode::MakeFn(k, b) => "MakeFn("@ + decimal_digits(k as nat) + ", "@ + decimal_digits(
            b as nat,
        ) + ")"@,
        ByteCode::Call(k) => "Call("@ + decimal_digits(k as nat) + ")"@,
        ByteCode::Add => "Add"@,
        ByteCode::Sub => "Sub"@,
        ByteCode::Mul => "Mul"@,
        ByteCode::Div => "Div"@,
    }
}

/// One line of a listing: the index, a space, the instruction.
pub open spec fn listing_line(i: nat, b: ByteCode) -> Seq<char> {
    index_text(i) + " "@ + instr_text(b) + "\n"@
}

/// The listing of `code[0..n]`.
pub open spec fn listing(code: Seq<ByteCode>, n: nat) -> Seq<char>
    decreases n,
{
    if n == 0 || n > code.len() {
        seq![]
    } else {
        listing(code, (n - 1) as nat) + listing_line((n - 1) as nat, code[n - 1])
    }
}

fn push_number(s: &mut String, n: usize)
    ensures
        final(s)@ == old(s)@ + decimal_digits(n as nat),
    decreases n,
{
    if n >= 10 {
        push_number(s, n / 10);
    }
    push_digit(s, n % 10);
    assert(final(s)@ =~= old(s)@ + decimal_digits(n as nat));
}

fn push_instr(s: &mut String, b: ByteCode)
    ensures
        final(s)@ == old(s)@ + instr_text(b),
{
    proof {
        reveal_strlit("LoadIdent(");
        reveal_strlit("Store");
        reveal_strlit("LoadConst(");
        reveal_strlit("CreateStruct(");
        reveal_strlit("AddField(");
        reveal_strlit("StoreField(");
        reveal_strlit("MakeArray(");
        reveal_strlit("MakeFn(");
        reveal_strlit(", ");
        reveal_strlit("Call(");
        reveal_strlit("Add");
        reveal_strlit("Sub");
        reveal_strlit("Mul");
        reveal_strlit("Div");
        reveal_strlit(")");
    }
    match b {
        ByteCode::LoadIdent(k) => {
            s.append("LoadIdent(");
            push_number(s, k);
            s.append(")");
        },
        ByteCode::Store => {
            s.append("Store");
        },
        ByteCode::LoadConst(k) => {
            s.append("LoadConst(");
            push_number(s, k);
            s.append(")");
        },
        ByteCode::CreateStruct(k) => {
            s.append("CreateStruct(");
            push_number(s, k);
            s.append(")");
        },
        ByteCode::AddField(k) => {
            s.append("AddField(");
            push_number(s, k);
            s.append(")");
        },
        ByteCode::StoreField(k) => {
            s.append("StoreField(");
            push_number(s, k);
            s.append(")");
        },
        ByteCode::MakeArray(k) => {
            s.append("MakeArray(");
            push_number(s, k);
            s.append(")");
        },
        ByteCode::MakeFn(k, b) => {
            s.append("MakeFn(");
            push_number(s, k);
            s.append(", ");
            push_number(s, b);
            s.append(")");
        },
        ByteCode::Call(k) => {
            s.append("Call(");
            push_number(s, k);
            s.append(")");
        },
        ByteCode::Add => {
            s.append("Add");
        },
        ByteCode::Sub => {
            s.append("Sub");
        },
        ByteCode::Mul => {
            s.append("Mul");
        },
        ByteCode::Div => {
            s.append("Div");
        },
    }
    assert(final(s)@ =~= old(s)@ + instr_text(b));
}

/// A listing of `bytecode`: one line per instruction, with its index in four or more digits.
pub fn bytecode_to_str(bytecode: &[ByteCode]) -> (r: String)
    ensures
        r@ == listing(bytecode@, bytecode@.len()),
{
    let mut s = String::new();
    let mut i: usize = 0;
    proof {
        reveal_strlit("000");
        reveal_strlit("00");
        reveal_strlit("0");
        reveal_strlit(" ");
        reveal_strlit("\n");
    }
    while i < bytecode.len()
        invariant
            i <= bytecode@.len(),
            s@ == listing(bytecode@, i as nat),
        decreases bytecode@.len() - i,
    {
        let ghost before = s@;
        if i < 10 {
            s.append("000");
        } else if i < 100 {
            s.append("00");
        } else if i < 1000 {
            s.append("0");
        }
        push_number(&mut s, i);
        assert(s@ =~= before + index_text(i as nat));
        s.append(" ");
        push_instr(&mut s, bytecode[i]);
        s.append("\n");
        assert(s@ =~= before + listing_line(i as nat, bytecode@[i as int]));
        i += 1;
    }
    s
}


/// An integer in decimal, with a leading `-` when negative.
pub open spec fn int_text(v: int) -> Seq<char> {
    if v < 0 {
        "-"@ + decimal_digits((-v) as nat)
    } else {
        decimal_digits(v as nat)
    }
}

/// The characters `padded[0..i]`, with `.` before position `point`.
pub open spec fn with_point(padded: Seq<char>, point: int, i: int) -> Seq<char>
    decreases i,
{
    if i <= 0 {
        seq![]
    } else {
        with_point(padded, point, i - 1) + (if i - 1 == point {
            "."@
        } else {
            seq![]
        }) + seq![padded[i - 1]]
    }
}

pub open spec fn abs(v: int) -> nat {
    if v < 0 {
        (-v) as nat
    } else {
        v as nat
    }
}

/// How many digits a decimal is written with: those of its mantissa, and at least one more
/// than its scale.
pub open spec fn decimal_width(d: Decimal) -> int {
    let n = decimal_digits(abs(d.mantissa as int)).len() as int;
    if n <= d.scale {
        d.scale + 1
    } else {
        n
    }
}

/// A decimal in positional notation: `-0.6` for mantissa -6 and scale 1.
pub open spec fn decimal_text(d: Decimal) -> Seq<char> {
    let ds = decimal_digits(abs(d.mantissa as int));
    let w = decimal_width(d);
    let padded = Seq::new((w - ds.len()) as nat, |i: int| '0') + ds;
    let point = if d.scale > 0 {
        w - d.scale
    } else {
        -1
    };
    (if d.mantissa < 0 {
        "-"@
    } else {
        seq![]
    }) + with_point(padded, point, w)
}

/// The text that `ast_pretty_string` gives for a node.
pub open spec fn pretty(n: AstV) -> Seq<char>
    decreases n,
{
    match n {
        AstV::StructDef(name, fields) => "StructDef: "@ + name + "\n"@ + fields_text(fields),
        AstV::Fun(_, body) => "() => {"@ + joined(body, "\n"@) + "}"@,
        AstV::Var(name, typ) => typ + " "@ + name,
        AstV::Assign(l, r) => pretty(*l) + " = "@ + pretty(*r),
        AstV::Ident(x) => x,
        AstV::Str(t) => "\""@ + t + "\""@,
        AstV::Int(v) => int_text(v as int),
        AstV::Float(d) => "LiteralDecimal: "@ + decimal_text(d) + "\n"@,
        AstV::StructIns(name, props) => name + " {\n"@ + props_text(props) + "}\n"@ + "Object: "@
            + name + "\n"@,
        AstV::Call(callee, _) => "Call: "@ + pretty(*callee) + "\n"@,
        AstV::Array(items) => "["@ + joined(items, ", "@) + "]"@,
        _ => seq![],
    }
}

/// The texts of `ns` with `sep` between them.
pub open spec fn joined(ns: Seq<AstV>, sep: Seq<char>) -> Seq<char>
    decreases ns,
{
    if ns.len() == 0 {
        seq![]
    } else if ns.len() == 1 {
        pretty(ns[0])
    } else {
        joined(ns.drop_last(), sep) + sep + pretty(ns.last())
    }
}

/// One line `  name: value` per field of a struct-instance literal.
pub open spec fn props_text(ps: Seq<(Seq<char>, AstV)>) -> Seq<char>
    decreases ps,
{
    if ps.len() == 0 {
        seq![]
    } else {
        props_text(ps.drop_last()) + "  "@ + ps.last().0 + ": "@ + pretty(ps.last().1) + "\n"@
    }
}

/// One line per declared field of a type.
pub open spec fn fields_text(fs: Seq<(Seq<char>, Seq<char>)>) -> Seq<char>
    decreases fs.len(),
{
    if fs.len() == 0 {
        seq![]
    } else {
        fields_text(fs.drop_last()) + "    Field: "@ + fs.last().0 + "\n"@
    }
}

/// The decimal digits of `n`, most significant first.
fn digits_of(n: u64) -> (r: Vec<usize>)
    ensures
        r@.len() == decimal_digits(n as nat).len(),
        forall|i: int| 0 <= i < r@.len() ==> #[trigger] r@[i] < 10 && digit_char(r@[i] as nat) == decimal_digits(n as nat)[i],
    decreases n,
{
    if n < 10 {
        let v = vec![n as usize];
        assert(v@ =~= seq![n as usize]);
        v
    } else {
        let mut v = digits_of(n / 10);
        assert(decimal_digits(n as nat) == decimal_digits((n / 10) as nat).push(
            digit_char((n % 10) as nat),
        ));
        let ghost old_v = v@;
        v.push((n % 10) as usize);
        assert forall|i: int| 0 <= i < v@.len() implies #[trigger] v@[i] < 10 && digit_char(v@[i] as nat) == decimal_digits(n as nat)[i] by {
            if i < old_v.len() {
                assert(v@[i] == old_v[i]);
            }
        }
        v
    }
}

fn push_u64(s: &mut String, n: u64)
    ensures
        final(s)@ == old(s)@ + decimal_digits(n as nat),
    decreases n,
{
    if n >= 10 {
        push_u64(s, n / 10);
    }
    push_digit(s, (n % 10) as usize);
    assert(final(s)@ =~= old(s)@ + decimal_digits(n as nat));
}

fn magnitude(v: i64) -> (r: u64)
    ensures
        r as nat == abs(v as int),
{
    if v < 0 {
        (-(v as i128)) as u64
    } else {
        v as u64
    }
}

fn write_int(s: &mut String, v: i64)
    ensures
        final(s)@ == old(s)@ + int_text(v as int),
{
    proof {
        reveal_strlit("-");
    }
    if v < 0 {
        s.append("-");
    }
    push_u64(s, magnitude(v));
    assert(final(s)@ =~= old(s)@ + int_text(v as int));
}

fn write_decimal(s: &mut String, d: Decimal)
    ensures
        final(s)@ == old(s)@ + decimal_text(d),
{
    proof {
        reveal_strlit("-");
        reveal_strlit(".");
    }
    let ghost start = s@;
    if d.mantissa < 0 {
        s.append("-");
    }
    let ghost signed = s@;
    let mag = magnitude(d.mantissa);
    let digits = digits_of(mag);
    let ghost ds = decimal_digits(abs(d.mantissa as int));
    assert(ds == decimal_digits(mag as nat));
    let n: u64 = digits.len() as u64;
    let k: u64 = d.scale as u64;
    let w: u64 = if n <= k { k + 1 } else { n };
    assert(w == decimal_width(d));
    let ghost padded = Seq::new((w - ds.len()) as nat, |i: int| '0') + ds;
    let ghost point: int = if d.scale > 0 { w - d.scale } else { -1 };
    let mut i: u64 = 0;
    while i < w
        invariant
            i <= w,
            n == ds.len(),
            n == digits@.len(),
            w >= n,
            k == d.scale,
            w == decimal_width(d),
            point == if d.scale > 0 { w - d.scale } else { -1 },
            padded == Seq::new((w - ds.len()) as nat, |i: int| '0') + ds,
            forall|j: int| 0 <= j < digits@.len() ==> #[trigger] digits@[j] < 10 && digit_char(digits@[j] as nat) == ds[j],
            s@ == signed + with_point(padded, point, i as int),
        decreases w - i,
    {
        if k > 0 && i == w - k {
            s.append(".");
        }
        let dg: usize = if i < w - n { 0 } else { digits[(i - (w - n)) as usize] };
        push_digit(s, dg);
        proof {
            let z = (w - ds.len()) as nat;
            if i < w - n {
                assert(padded[i as int] == Seq::new(z, |i: int| '0')[i as int]);
            } else {
                let j = i - (w - n);
                assert(digits@[j as int] < 10);
                assert(padded[i as int] == ds[j as int]);
            }
        }
        assert(padded[i as int] == digit_char(dg as nat));
        assert(s@ =~= signed + with_point(padded, point, i + 1));
        i += 1;
    }
    assert(s@ =~= start + decimal_text(d));
}

fn write_node(s: &mut String, node: &ASTNode)
    ensures
        final(s)@ == old(s)@ + pretty(node_view(*node)),
    decreases node,
{
    proof {
        reveal_strlit("StructDef: ");
        reveal_strlit("\n");
        reveal_strlit("() => {");
        reveal_strlit("}");
        reveal_strlit(" ");
        reveal_strlit(" = ");
        reveal_strlit("\"");
        reveal_strlit("LiteralDecimal: ");
        reveal_strlit(" {\n");
        reveal_strlit("}\n");
        reveal_strlit("Object: ");
        reveal_strlit("Call: ");
        reveal_strlit("[");
        reveal_strlit("]");
        reveal_strlit(", ");
        reveal_strlit("    Field: ");
    }
    let ghost start = s@;
    match node {
        ASTNode::StructDef(def) => {
            s.append("StructDef: ");
            s.append(def.name.as_str());
            s.append("\n");
            let ghost fs = crate::ast::fields_view(def.fields@);
            let ghost head = s@;
            let mut k: usize = 0;
            assert(fs.subrange(0, 0) =~= Seq::<(Seq<char>, Seq<char>)>::empty());
            while k < def.fields.len()
                invariant
                    k <= def.fields@.len(),
                    fs == crate::ast::fields_view(def.fields@),
                    s@ == head + fields_text(fs.subrange(0, k as int)),
                decreases def.fields@.len() - k,
            {
                s.append("    Field: ");
                s.append(def.fields[k].name.as_str());
                s.append("\n");
                proof {
                    let sub = fs.subrange(0, k + 1);
                    assert(sub.drop_last() =~= fs.subrange(0, k as int));
                }
                assert(s@ =~= head + fields_text(fs.subrange(0, k + 1)));
                k += 1;
            }
            assert(fs.subrange(0, k as int) =~= fs);
        },
        ASTNode::Fun(f) => {
            s.append("() => {");
            write_joined(s, &f.body, "\n");
            s.append("}");
        },
        ASTNode::Var(v) => {
            s.append(v.typ.as_str());
            s.append(" ");
            s.append(v.name.as_str());
        },
        ASTNode::Assign(a) => {
            write_node(s, &a.left);
            s.append(" = ");
            write_node(s, &a.right);
        },
        ASTNode::Ident(x) => {
            s.append(x.as_str());
        },
        ASTNode::Str(t) => {
            s.append("\"");
            s.append(t.as_str());
            s.append("\"");
        },
        ASTNode::Int(v) => {
            write_int(s, *v);
        },
        ASTNode::Float(d) => {
            s.append("LiteralDecimal: ");
            write_decimal(s, *d);
            s.append("\n");
        },
        ASTNode::StructIns(obj) => {
            s.append(obj.name.as_str());
            s.append(" {\n");
            write_props(s, &obj.probs);
            s.append("}\n");
            s.append("Object: ");
            s.append(obj.name.as_str());
            s.append("\n");
        },
        ASTNode::Call(c) => {
            s.append("Call: ");
            write_node(s, &c.callee);
            s.append("\n");
        },
        ASTNode::Array(a) => {
            s.append("[");
            write_joined(s, &a.items, ", ");
            s.append("]");
        },
        _ => {},
    }
    assert(s@ =~= start + pretty(node_view(*node)));
}

fn write_joined(s: &mut String, nodes: &Vec<ASTNode>, sep: &str)
    ensures
        final(s)@ == old(s)@ + joined(nodes_view(nodes@), sep@),
    decreases nodes@,
{
    let ghost start = s@;
    let mut k: usize = 0;
    proof {
        crate::ast::lemma_nodes_view_len(nodes@);
    }
    assert(nodes_view(nodes@.subrange(0, 0)) =~= Seq::<AstV>::empty());
    while k < nodes.len()
        invariant
            k <= nodes@.len(),
            s@ == start + joined(nodes_view(nodes@.subrange(0, k as int)), sep@),
        decreases nodes@.len() - k,
    {
        let ghost before = s@;
        proof {
            crate::ast::lemma_nodes_view_push(nodes@.subrange(0, k as int), nodes@[k as int]);
            assert(nodes@.subrange(0, k as int).push(nodes@[k as int]) =~= nodes@.subrange(0, k + 1));
            crate::ast::lemma_nodes_view_len(nodes@.subrange(0, k as int));
            assert(decreases_to!(nodes@ => nodes@[k as int]));
        }
        if k > 0 {
            s.append(sep);
        }
        write_node(s, &nodes[k]);
        proof {
            let vs = nodes_view(nodes@.subrange(0, k + 1));
            assert(vs.drop_last() == nodes_view(nodes@.subrange(0, k as int)));
            if k == 0 {
                assert(nodes_view(nodes@.subrange(0, 0)).len() == 0);
                assert(vs[0] == node_view(nodes@[0]));
                assert(s@ =~= start + joined(vs, sep@));
            } else {
                assert(s@ =~= start + joined(vs, sep@));
            }
        }
        k += 1;
    }
    assert(nodes@.subrange(0, k as int) =~= nodes@);
}

fn write_props(s: &mut String, props: &Vec<Property>)
    ensures
        final(s)@ == old(s)@ + props_text(props_view(props@)),
    decreases props@,
{
    proof {
        reveal_strlit("  ");
        reveal_strlit(": ");
        reveal_strlit("\n");
    }
    let ghost start = s@;
    let mut k: usize = 0;
    assert(props_view(props@.subrange(0, 0)) =~= Seq::<(Seq<char>, AstV)>::empty());
    while k < props.len()
        invariant
            k <= props@.len(),
            s@ == start + props_text(props_view(props@.subrange(0, k as int))),
        decreases props@.len() - k,
    {
        proof {
            crate::ast::lemma_props_view_push(props@.subrange(0, k as int), props@[k as int]);
            assert(props@.subrange(0, k as int).push(props@[k as int]) =~= props@.subrange(0, k + 1));
            assert(decreases_to!(props@ => props@[k as int]));
            assert(decreases_to!(props@[k as int] => props@[k as int].value));
        }
        s.append("  ");
        s.append(props[k].name.as_str());
        s.append(": ");
        write_node(s, &props[k].value);
        s.append("\n");
        proof {
            let vs = props_view(props@.subrange(0, k + 1));
            assert(vs.drop_last() == props_view(props@.subrange(0, k as int)));
        }
        assert(s@ =~= start + props_text(props_view(props@.subrange(0, k + 1))));
        k += 1;
    }
    assert(props@.subrange(0, k as int) =~= props@);
}

/// A readable rendering of a syntax tree, for inspecting what the parser produced.
pub fn ast_pretty_string(node: &ASTNode) -> (r: String)
    ensures
        r@ == pretty(node_view(*node)),
{
    let mut s = String::new();
    write_node(&mut s, node);
    assert(s@ =~= pretty(node_view(*node)));
    s
}

} // verus!
