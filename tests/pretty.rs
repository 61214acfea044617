use donitsi::ast::{ASTNode, StructDef, TypeField};
use donitsi::lexer::Decimal;
use donitsi::parser::parse_code;
use donitsi::pretty::ast_pretty_string;

fn render(code: &str) -> Vec<String> {
    parse_code(code).unwrap().iter().map(|n| ast_pretty_string(n)).collect()
}

#[test]
fn pretty_assign_and_array() {
    assert_eq!(render("a = [1, \"x\", -2, []]"), vec!["a = [1, \"x\", -2, []]".to_string()]);
}

#[test]
fn pretty_struct_instance_with_decimals() {
    assert_eq!(
        render("Vertex { x: -0.6, y: 0.005, z: 3.25 }"),
        vec!["Vertex {\n  x: LiteralDecimal: -0.6\n\n  y: LiteralDecimal: 0.005\n\n  z: LiteralDecimal: 3.25\n\n}\nObject: Vertex\n".to_string()]
    );
}

#[test]
fn pretty_function_and_calls() {
    assert_eq!(render("f = () => { x\n 1 }"), vec!["f = () => {x\n1}".to_string()]);
    assert_eq!(render("foo(1)(2)"), vec!["Call: Call: foo\n\n".to_string()]);
}

#[test]
fn pretty_declaration_and_unrendered_nodes() {
    assert_eq!(render("Int count"), vec!["Int count".to_string()]);
    assert_eq!(render("1 + 2"), vec![String::new()]);
    assert_eq!(render("return 1"), vec![String::new()]);
}

#[test]
fn pretty_struct_definition_and_limits() {
    let def = ASTNode::StructDef(StructDef {
        name: "P".to_string(),
        fields: vec![
            TypeField { name: "x".to_string(), typ: "Int".to_string() },
            TypeField { name: "y".to_string(), typ: "Int".to_string() },
        ],
    });
    assert_eq!(ast_pretty_string(&def), "StructDef: P\n    Field: x\n    Field: y\n");
    assert_eq!(ast_pretty_string(&ASTNode::Int(i64::MIN)), "-9223372036854775808");
    assert_eq!(ast_pretty_string(&ASTNode::Float(Decimal::new(0, 2))), "LiteralDecimal: 0.00\n");
    assert_eq!(ast_pretty_string(&ASTNode::Float(Decimal::new(7, 0))), "LiteralDecimal: 7\n");
}
