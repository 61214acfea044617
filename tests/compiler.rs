use donitsi::ast::{ASTNode, Assign, BinOp, Op, Property, StructIns};
use donitsi::bytecode::ByteCode;
use donitsi::compiler::Compiler;
use donitsi::parser::parse_code;
use donitsi::types::Value;

fn compile_source(code: &str) -> Compiler {
    Compiler::new().compile(parse_code(code).unwrap())
}

#[test]
fn test_assign_num_lit() {
    let ast = vec![
        ASTNode::Assign(Assign {
            left: Box::new(ASTNode::Ident("x".to_string())),
            right: Box::new(ASTNode::Int(10)),
        })
    ];

    let compiler = Compiler::new().compile(ast);

    assert_eq!(compiler.consts, vec![Value::Int(10)]);
    assert_eq!(compiler.bytecode, vec![
        ByteCode::LoadIdent(0),
        ByteCode::LoadConst(0),
        ByteCode::Store,
    ]);
}

#[test]
fn test_assign_str_lit() {
    let ast = vec![
        ASTNode::Assign(Assign {
            left: Box::new(ASTNode::Ident("x".to_string())),
            right: Box::new(ASTNode::Str("Hello".to_string())),
        })
    ];

    let compiler = Compiler::new().compile(ast);

    println!("{:?}", compiler.bytecode);

    assert_eq!(compiler.consts, vec![
        Value::Str("Hello".to_string())
    ]);
    assert_eq!(compiler.bytecode, vec![
        ByteCode::LoadIdent(0),
        ByteCode::LoadConst(0),
        ByteCode::Store,
    ]);
}

#[test]
fn test_simple_binop() {
    let ast = vec![
        ASTNode::BinOp(BinOp {
            left: Box::new(ASTNode::Int(10)),
            right: Box::new(ASTNode::Int(20)),
            op: Op::Plus,
        })
    ];

    let compiler = Compiler::new().compile(ast);

    assert_eq!(compiler.consts, vec![
        Value::Int(10),
        Value::Int(20),
    ]);
    assert_eq!(compiler.bytecode, vec![
        ByteCode::LoadConst(0),
        ByteCode::LoadConst(1),
        ByteCode::Add,
    ]);
}

#[test]
fn test_more_complicated_binop() {
    let ast = vec![
        ASTNode::BinOp(BinOp {
            left: Box::new(ASTNode::BinOp(BinOp {
                left: Box::new(ASTNode::Int(10)),
                right: Box::new(ASTNode::Int(20)),
                op: Op::Plus,
            })),
            right: Box::new(ASTNode::Int(30)),
            op: Op::Plus,
        })
    ];

    let compiler = Compiler::new().compile(ast);

    assert_eq!(compiler.consts, vec![
        Value::Int(10),
        Value::Int(20),
        Value::Int(30),
    ]);
    assert_eq!(compiler.bytecode, vec![
        ByteCode::LoadConst(0),
        ByteCode::LoadConst(1),
        ByteCode::Add,
        ByteCode::LoadConst(2),
        ByteCode::Add,
    ]);
}

#[test]
fn compile_assign_sum_from_source() {
    let c = compile_source("a = 1 + 2");
    assert_eq!(c.consts, vec![Value::Int(1), Value::Int(2)]);
    assert_eq!(c.bytecode, vec![
        ByteCode::LoadIdent(0),
        ByteCode::LoadConst(0),
        ByteCode::LoadConst(1),
        ByteCode::Add,
        ByteCode::Store,
    ]);
}

#[test]
fn compile_self_assign_uses_one_id() {
    let c = compile_source("x = x");
    assert_eq!(c.bytecode, vec![ByteCode::LoadIdent(0), ByteCode::LoadIdent(0), ByteCode::Store]);
    assert_eq!(c.idents.len(), 1);
    assert_eq!(c.idents.get("x"), Some(0));
}

#[test]
fn compile_ids_follow_first_use() {
    let c = compile_source("b = 1\na = b");
    assert_eq!(c.bytecode, vec![
        ByteCode::LoadIdent(0),
        ByteCode::LoadConst(0),
        ByteCode::Store,
        ByteCode::LoadIdent(1),
        ByteCode::LoadIdent(0),
        ByteCode::Store,
    ]);
}

#[test]
fn compile_struct_instance_fields_in_order() {
    let c = compile_source("Ball { x: 1, y: 2 }");
    assert_eq!(c.consts, vec![Value::Int(1), Value::Int(2)]);
    assert_eq!(c.bytecode, vec![
        ByteCode::LoadConst(0),
        ByteCode::StoreField(0),
        ByteCode::LoadConst(1),
        ByteCode::StoreField(1),
        ByteCode::LoadIdent(2),
    ]);
    assert_eq!(c.idents.get("x"), Some(0));
    assert_eq!(c.idents.get("y"), Some(1));
    assert_eq!(c.idents.get("Ball"), Some(2));
}

#[test]
fn compile_struct_instance_from_nodes() {
    let ast = vec![ASTNode::StructIns(StructIns {
        name: "Ball".to_string(),
        probs: vec![Property { name: "x".to_string(), value: Box::new(ASTNode::Int(1)) }],
    })];
    let c = Compiler::new().compile(ast);
    assert_eq!(c.bytecode, vec![ByteCode::LoadConst(0), ByteCode::StoreField(0), ByteCode::LoadIdent(1)]);
}

#[test]
fn compile_empty_array() {
    let c = compile_source("[]");
    assert_eq!(c.bytecode, vec![ByteCode::MakeArray(0)]);
    assert!(c.consts.is_empty());
    assert_eq!(c.idents.len(), 0);
}

#[test]
fn compile_array_and_call() {
    let c = compile_source("f([1, 2], 3)");
    assert_eq!(c.bytecode, vec![
        ByteCode::LoadIdent(0),
        ByteCode::LoadConst(0),
        ByteCode::LoadConst(1),
        ByteCode::MakeArray(2),
        ByteCode::LoadConst(2),
        ByteCode::Call(2),
    ]);
}

#[test]
fn compile_function_literal_to_its_own_block() {
    let c = compile_source("f = (a, b) => a * b");
    assert_eq!(c.bytecode, vec![
        ByteCode::LoadIdent(0),
        ByteCode::LoadIdent(1),
        ByteCode::LoadIdent(2),
        ByteCode::MakeFn(2, 1),
        ByteCode::Store,
    ]);
    assert_eq!(c.functions, vec![vec![ByteCode::LoadIdent(1), ByteCode::LoadIdent(2), ByteCode::Mul]]);
}

#[test]
fn compile_nested_function_literals_number_inner_first() {
    let c = compile_source("f = () => { g = () => 1\n return g }");
    assert_eq!(c.bytecode, vec![ByteCode::LoadIdent(0), ByteCode::MakeFn(0, 2), ByteCode::Store]);
    assert_eq!(c.functions, vec![
        vec![ByteCode::LoadConst(0)],
        vec![ByteCode::LoadIdent(1), ByteCode::MakeFn(0, 1), ByteCode::Store, ByteCode::LoadIdent(1)],
    ]);
}

#[test]
fn compile_operators() {
    let c = compile_source("1 - 2 / 3");
    assert_eq!(c.bytecode, vec![
        ByteCode::LoadConst(0),
        ByteCode::LoadConst(1),
        ByteCode::LoadConst(2),
        ByteCode::Div,
        ByteCode::Sub,
    ]);
}

#[test]
fn compile_declarations_and_access_emit_nothing() {
    let c = compile_source("Int count\nfoo.bar\nreturn");
    assert!(c.bytecode.is_empty());
    let r = compile_source("return 5");
    assert_eq!(r.bytecode, vec![ByteCode::LoadConst(0)]);
}

#[test]
fn compile_continues_after_earlier_unit() {
    let first = compile_source("a = 1");
    let second = first.compile(parse_code("b = a").unwrap());
    assert_eq!(second.bytecode, vec![
        ByteCode::LoadIdent(0),
        ByteCode::LoadConst(0),
        ByteCode::Store,
        ByteCode::LoadIdent(1),
        ByteCode::LoadIdent(0),
        ByteCode::Store,
    ]);
}

#[test]
fn finish_numbers_constants() {
    let res = compile_source("a = \"hi\"\nb = 7").finish();
    assert_eq!(res.consts.len(), 2);
    assert_eq!(res.consts[0].id, 0);
    assert_eq!(res.consts[0].value, Value::Str("hi".to_string()));
    assert_eq!(res.consts[1].id, 1);
    assert_eq!(res.consts[1].value, Value::Int(7));
    assert_eq!(res.bytecode.len(), 6);
}
