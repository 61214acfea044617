use donitsi::bytecode::ByteCode;
use donitsi::compiler::Compiler;
use donitsi::lexer::Decimal;
use donitsi::machine::RuntimeError;
use donitsi::parser::parse_code;
use donitsi::types::{Action, Const, Value};
use donitsi::vm::Vm;

fn load(code: &str) -> (Vm, Compiler) {
    let compiler = Compiler::new().compile(parse_code(code).unwrap());
    let mut vm = Vm::new();
    for (id, v) in compiler.consts.iter().enumerate() {
        vm.store_const(Const { id, value: v.duplicate() });
    }
    vm.create_code_block(&compiler.bytecode);
    for f in compiler.functions.iter() {
        vm.create_code_block(f);
    }
    (vm, compiler)
}

#[test]
fn step_without_code_quits() {
    let mut vm = Vm::new();
    assert_eq!(vm.work(), Ok(()));
    assert_eq!(vm.actions(), &vec![Action::Quit]);
    assert_eq!(vm.error(), None);
}

#[test]
fn block_runs_to_its_end_then_quits() {
    let (mut vm, _) = load("a = 1 + 2\nb = a * 3");
    assert_eq!(vm.work(), Ok(()));
    assert_eq!(vm.actions(), &vec![Action::Quit]);
}

#[test]
fn host_call_suspends_with_its_arguments() {
    let (mut vm, c) = load("a = 2 * 3 + 1\nshow(a, \"x\")\nshow(a - 10)");
    let show = c.idents.get("show").unwrap();
    assert_eq!(vm.work(), Ok(()));
    assert_eq!(vm.actions(), &vec![Action::Call { id: show, args: vec![Value::Int(7), Value::Str("x".to_string())] }]);
    vm.clear_actions();
    assert_eq!(vm.work(), Ok(()));
    assert_eq!(vm.actions(), &vec![Action::Call { id: show, args: vec![Value::Int(-3)] }]);
    vm.clear_actions();
    assert_eq!(vm.work(), Ok(()));
    assert_eq!(vm.actions(), &vec![Action::Quit]);
}

#[test]
fn arrays_collect_in_push_order() {
    let (mut vm, c) = load("show([1, [2], \"s\"])");
    let show = c.idents.get("show").unwrap();
    vm.work().unwrap();
    assert_eq!(vm.actions(), &vec![Action::Call {
        id: show,
        args: vec![Value::Array(vec![
            Value::Int(1),
            Value::Array(vec![Value::Int(2)]),
            Value::Str("s".to_string()),
        ])],
    }]);
}

#[test]
fn decimals_promote_integers() {
    let (mut vm, c) = load("show(1.5 + 2, 0.5 * 0.25, 1 - 0.75)");
    let show = c.idents.get("show").unwrap();
    vm.work().unwrap();
    assert_eq!(vm.actions(), &vec![Action::Call {
        id: show,
        args: vec![
            Value::Float(Decimal::new(35, 1)),
            Value::Float(Decimal::new(125, 3)),
            Value::Float(Decimal::new(25, 2)),
        ],
    }]);
}

#[test]
fn integer_division_truncates() {
    let (mut vm, c) = load("show(7 / 2, -7 / 2)");
    let show = c.idents.get("show").unwrap();
    vm.work().unwrap();
    assert_eq!(vm.actions(), &vec![Action::Call { id: show, args: vec![Value::Int(3), Value::Int(-3)] }]);
}

#[test]
fn struct_instance_constructs_with_fields() {
    let (mut vm, c) = load("Ball { x: 1, y: \"r\" }");
    let ball = c.idents.get("Ball").unwrap();
    let x = c.idents.get("x").unwrap();
    let y = c.idents.get("y").unwrap();
    vm.work().unwrap();
    assert_eq!(vm.actions(), &vec![
        Action::Construct { id: ball },
        Action::StoreField { id: ball, field: x, val: Value::Int(1) },
        Action::StoreField { id: ball, field: y, val: Value::Str("r".to_string()) },
        Action::Quit,
    ]);
}

#[test]
fn unknown_identifier_is_a_recorded_error() {
    let (mut vm, c) = load("a = b + 1");
    let b = c.idents.get("b").unwrap();
    assert_eq!(vm.work(), Err(RuntimeError::UnknownIdent(b)));
    assert_eq!(vm.error(), Some(RuntimeError::UnknownIdent(b)));
    assert!(vm.actions().is_empty());
    assert_eq!(vm.work(), Err(RuntimeError::UnknownIdent(b)));
    assert!(vm.actions().is_empty());
}

#[test]
fn division_by_zero_and_overflow() {
    let (mut vm, _) = load("1 / 0");
    assert_eq!(vm.work(), Err(RuntimeError::DivisionByZero));
    let (mut vm, _) = load("9223372036854775807 + 1");
    assert_eq!(vm.work(), Err(RuntimeError::Overflow));
}

#[test]
fn mismatched_operands() {
    let (mut vm, _) = load("\"a\" + 1");
    assert_eq!(vm.work(), Err(RuntimeError::TypeMismatch));
}

#[test]
fn calling_a_bound_name_fails() {
    let (mut vm, _) = load("f = 1\nf(2)");
    assert_eq!(vm.work(), Err(RuntimeError::NotCallable));
}

fn copy_action(a: &Action) -> Action {
    match a {
        Action::Construct { id } => Action::Construct { id: *id },
        Action::Destruct { id } => Action::Destruct { id: *id },
        Action::LoadField { id, field } => Action::LoadField { id: *id, field: *field },
        Action::StoreField { id, field, val } => Action::StoreField { id: *id, field: *field, val: val.duplicate() },
        Action::Call { id, args } => Action::Call { id: *id, args: args.iter().map(|v| v.duplicate()).collect() },
        Action::Import { path } => Action::Import { path: path.clone() },
        Action::Quit => Action::Quit,
    }
}

fn run_to_quit(vm: &mut Vm) -> Vec<Action> {
    let mut seen = Vec::new();
    for _ in 0..1000 {
        vm.work().unwrap();
        let mut quit = false;
        for a in vm.actions() {
            if *a == Action::Quit {
                quit = true;
            }
            seen.push(copy_action(a));
        }
        vm.clear_actions();
        if quit {
            return seen;
        }
    }
    panic!("no Quit");
}

#[test]
fn closures_are_called_with_parameters_bound() {
    let (mut vm, c) = load("f = (a, b) => a * b\nshow(f(6, 7))");
    let show = c.idents.get("show").unwrap();
    assert_eq!(run_to_quit(&mut vm), vec![Action::Call { id: show, args: vec![Value::Int(42)] }, Action::Quit]);
}

#[test]
fn closure_call_enters_its_block_as_a_step() {
    let (mut vm, c) = load("f = x => x + 1\nshow(f(1))");
    let show = c.idents.get("show").unwrap();
    assert_eq!(vm.work(), Ok(()));
    assert!(vm.actions().is_empty());
    assert_eq!(vm.work(), Ok(()));
    assert!(vm.actions().is_empty());
    assert_eq!(vm.work(), Ok(()));
    assert_eq!(vm.actions(), &vec![Action::Call { id: show, args: vec![Value::Int(2)] }]);
}

#[test]
fn closures_return_their_last_value_or_nil() {
    let (mut vm, c) = load("g = () => { return 3 }\nh = () => {}\nshow(g(), h())");
    let show = c.idents.get("show").unwrap();
    assert_eq!(run_to_quit(&mut vm), vec![Action::Call { id: show, args: vec![Value::Int(3), Value::Nil] }, Action::Quit]);
}

#[test]
fn closures_see_outer_bindings_and_nest() {
    let (mut vm, c) = load("k = 10\nadd = a => { inner = b => a + b + k\n return inner(1) }\nshow(add(5))");
    let show = c.idents.get("show").unwrap();
    assert_eq!(run_to_quit(&mut vm), vec![Action::Call { id: show, args: vec![Value::Int(16)] }, Action::Quit]);
}

#[test]
fn parameters_do_not_leak_out_of_the_call() {
    let (mut vm, c) = load("f = a => a + 0\nf(1)\nshow(a)");
    let a = c.idents.get("a").unwrap();
    vm.work().unwrap();
    vm.work().unwrap();
    assert_eq!(vm.work(), Err(RuntimeError::UnknownIdent(a)));
}

#[test]
fn closure_arity_must_match() {
    let (mut vm, _) = load("f = (a, b) => a + b\nf(1)");
    assert_eq!(vm.work(), Err(RuntimeError::ArityMismatch));
}

#[test]
fn closure_over_missing_block_fails() {
    let mut vm = Vm::new();
    vm.create_code_block(&[ByteCode::MakeFn(0, 5), ByteCode::Call(0)]);
    assert_eq!(vm.work(), Err(RuntimeError::UnknownBlock(5)));
}

#[test]
fn make_fn_needs_parameter_names() {
    let mut vm = Vm::new();
    vm.store_const(Const { id: 0, value: Value::Int(1) });
    vm.create_code_block(&[ByteCode::LoadConst(0), ByteCode::MakeFn(1, 0)]);
    assert_eq!(vm.work(), Err(RuntimeError::TypeMismatch));
}

#[test]
fn decimal_division_keeps_six_more_places() {
    let (mut vm, c) = load("show(1 / 3.0, 7.5 / 2, -1.0 / 8)");
    let show = c.idents.get("show").unwrap();
    vm.work().unwrap();
    assert_eq!(vm.actions(), &vec![Action::Call {
        id: show,
        args: vec![
            Value::Float(Decimal::new(333333, 6)),
            Value::Float(Decimal::new(37500000, 7)),
            Value::Float(Decimal::new(-1250000, 7)),
        ],
    }]);
    let (mut vm, _) = load("1.5 / 0");
    assert_eq!(vm.work(), Err(RuntimeError::DivisionByZero));
}

#[test]
fn underflow_and_missing_constant() {
    let mut vm = Vm::new();
    vm.create_code_block(&[ByteCode::Store]);
    assert_eq!(vm.work(), Err(RuntimeError::StackUnderflow));
    let mut vm = Vm::new();
    vm.create_code_block(&[ByteCode::LoadConst(4)]);
    assert_eq!(vm.work(), Err(RuntimeError::UnknownConst(4)));
}

#[test]
fn store_needs_a_name_target() {
    let mut vm = Vm::new();
    vm.store_const(Const { id: 0, value: Value::Int(1) });
    vm.create_code_block(&[ByteCode::LoadConst(0), ByteCode::LoadConst(0), ByteCode::Store]);
    assert_eq!(vm.work(), Err(RuntimeError::BadTarget));
}

#[test]
fn later_constant_with_same_id_wins() {
    let mut vm = Vm::new();
    vm.store_const(Const { id: 0, value: Value::Int(1) });
    vm.store_const(Const { id: 0, value: Value::Int(5) });
    vm.create_code_block(&[ByteCode::LoadIdent(9), ByteCode::LoadConst(0), ByteCode::Call(1)]);
    vm.work().unwrap();
    assert_eq!(vm.actions(), &vec![Action::Call { id: 9, args: vec![Value::Int(5)] }]);
}

#[test]
fn struct_types_register_without_actions() {
    let mut vm = Vm::new();
    let id = vm.create_code_block(&[ByteCode::AddField(1), ByteCode::AddField(2), ByteCode::CreateStruct(0)]);
    assert_eq!(id, 0);
    vm.work().unwrap();
    assert_eq!(vm.actions(), &vec![Action::Quit]);
}

#[test]
fn abort_stops_further_steps() {
    let (mut vm, _) = load("a = 1");
    vm.abort();
    assert_eq!(vm.error(), Some(RuntimeError::Aborted));
    assert_eq!(vm.work(), Err(RuntimeError::Aborted));
    assert!(vm.actions().is_empty());
}

#[test]
fn closures_capture_the_scope_they_were_made_in() {
    let (mut vm, c) = load("make = x => y => x + y\nf = make(1)\nshow(f(2))");
    let show = c.idents.get("show").unwrap();
    assert_eq!(run_to_quit(&mut vm), vec![Action::Call { id: show, args: vec![Value::Int(3)] }, Action::Quit]);
}

#[test]
fn closures_do_not_see_their_callers_locals() {
    let (mut vm, c) = load("g = () => secret + 0\nh = () => { secret = 1\n return g() }\nh()");
    let secret = c.idents.get("secret").unwrap();
    let mut result = Ok(());
    for _ in 0..10 {
        result = vm.work();
        if result.is_err() {
            break;
        }
    }
    assert_eq!(result, Err(RuntimeError::UnknownIdent(secret)));
}

#[test]
fn captured_scope_is_shared_not_copied() {
    let (mut vm, c) = load("get = () => later + 0\nlater = 5\nshow(get())");
    let show = c.idents.get("show").unwrap();
    assert_eq!(run_to_quit(&mut vm), vec![Action::Call { id: show, args: vec![Value::Int(5)] }, Action::Quit]);
}

#[test]
fn call_scope_holds_local_bindings() {
    let (mut vm, c) = load("count = n => { r = n\n return r }\nshow(count(4))");
    let show = c.idents.get("show").unwrap();
    assert_eq!(run_to_quit(&mut vm), vec![Action::Call { id: show, args: vec![Value::Int(4)] }, Action::Quit]);
}
