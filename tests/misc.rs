use donitsi::bytecode::ByteCode;
use donitsi::component::FlexDir;
use donitsi::ident_map::IdentMap;
use donitsi::pretty::bytecode_to_str;
use donitsi::types::Value;

#[test]
fn listing_pads_indices() {
    let code = vec![
        ByteCode::LoadIdent(0),
        ByteCode::LoadConst(12),
        ByteCode::Add,
        ByteCode::LoadConst(2),
        ByteCode::MakeArray(3),
        ByteCode::Store,
    ];
    assert_eq!(
        bytecode_to_str(&code),
        "0000 LoadIdent(0)\n0001 LoadConst(12)\n0002 Add\n0003 LoadConst(2)\n0004 MakeArray(3)\n0005 Store\n"
    );
    assert_eq!(bytecode_to_str(&[]), "");
}

#[test]
fn listing_wide_index() {
    let code = vec![ByteCode::Div; 10001];
    let text = bytecode_to_str(&code);
    assert!(text.ends_with("\n9999 Div\n10000 Div\n"));
    assert!(text.contains("\n0099 Div\n0100 Div\n"));
}

#[test]
fn ident_map_insert_and_get() {
    let mut m = IdentMap::new();
    assert_eq!(m.get("a"), None);
    m.insert("a".to_string(), 3);
    m.insert("b".to_string(), 1);
    assert_eq!(m.get("a"), Some(3));
    assert_eq!(m.get("b"), Some(1));
    assert_eq!(m.len(), 2);
    m.insert("a".to_string(), 7);
    assert_eq!(m.get("a"), Some(7));
    assert_eq!(m.len(), 2);
}

#[test]
fn flex_dir_defaults_to_column() {
    assert_eq!(FlexDir::default(), FlexDir::Col);
}

#[test]
fn duplicate_copies_deeply() {
    let v = Value::Array(vec![Value::Int(1), Value::Array(vec![Value::Str("a".to_string())]), Value::Nil]);
    assert_eq!(v.duplicate(), v);
}
