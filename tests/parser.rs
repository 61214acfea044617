use donitsi::ast::{ASTNode, Array, Assign, BinOp, Call, Fun, Op, ProbAccess, Property, Ret, StructIns, Var};
use donitsi::lexer::Decimal;
use donitsi::parser::{parse_code, Parser};

#[test]
fn test_simple_plus_expr() {
	let code = r#"
		a = 1 + 2
	"#;

	let ast = Parser::new(code)
		.parse()
		.unwrap();

	let expected = vec![
		ASTNode::Assign(
			Assign {
				left: Box::new(ASTNode::Ident("a".to_string())),
				right: Box::new(
					ASTNode::BinOp(
						BinOp {
							left: Box::new(ASTNode::Int(1)),
							op: Op::Plus,
							right: Box::new(ASTNode::Int(2)),
						}
					)
				)
			}
		)
	];

	assert_eq!(ast, expected);
}

#[test]
fn test_simple_minus_expr() {
	let code = r#"
		a = 1 - 2
	"#;

	let ast = Parser::new(code)
		.parse()
		.unwrap();

	let expected = vec![
		ASTNode::Assign(
			Assign {
				left: Box::new(ASTNode::Ident("a".to_string())),
				right: Box::new(
					ASTNode::BinOp(
						BinOp {
							left: Box::new(ASTNode::Int(1)),
							op: Op::Minus,
							right: Box::new(ASTNode::Int(2)),
						}
					)
				)
			}
		)
	];

	assert_eq!(ast, expected);
}

#[test]
fn test_simple_mul_expr() {
	let code = r#"
		a = 1 * 2
	"#;

	let ast = Parser::new(code)
		.parse()
		.unwrap();

	let expected = vec![
		ASTNode::Assign(
			Assign {
				left: Box::new(ASTNode::Ident("a".to_string())),
				right: Box::new(
					ASTNode::BinOp(
						BinOp {
							left: Box::new(ASTNode::Int(1)),
							op: Op::Multiply,
							right: Box::new(ASTNode::Int(2)),
						}
					)
				)
			}
		)
	];

	assert_eq!(ast, expected);
}

#[test]
fn test_simple_div_expr() {
	let code = r#"
		a = 1 / 2
	"#;

	let ast = Parser::new(code)
		.parse()
		.unwrap();

	let expected = vec![
		ASTNode::Assign(
			Assign {
				left: Box::new(ASTNode::Ident("a".to_string())),
				right: Box::new(
					ASTNode::BinOp(
						BinOp {
							left: Box::new(ASTNode::Int(1)),
							op: Op::Divide,
							right: Box::new(ASTNode::Int(2)),
						}
					)
				)
			}
		)
	];

	assert_eq!(ast, expected);
}

#[test]
fn test_paren_expr() {
	let code = r#"
		a = (1 + 2) * 3
	"#;

	let ast = Parser::new(code)
		.parse()
		.unwrap();

	let expected = vec![
		ASTNode::Assign(
			Assign {
				left: Box::new(ASTNode::Ident("a".to_string())),
				right: Box::new(
					ASTNode::BinOp(
						BinOp {
							left: Box::new(
								ASTNode::BinOp(
									BinOp {
										left: Box::new(ASTNode::Int(1)),
										op: Op::Plus,
										right: Box::new(ASTNode::Int(2)),
									}
								)
							),
							op: Op::Multiply,
							right: Box::new(ASTNode::Int(3)),
						}
					)
				)
			}
		)
	];

	assert_eq!(ast, expected);
}

#[test]
fn test_expr_ordering() {
	let code = r#"
		a = 1 + 2 * 3
	"#;

	let ast = Parser::new(code)
		.parse()
		.unwrap();

	let expected = vec![
		ASTNode::Assign(
			Assign {
				left: Box::new(ASTNode::Ident("a".to_string())),
				right: Box::new(
					ASTNode::BinOp(
						BinOp {
							left: Box::new(ASTNode::Int(1)),
							op: Op::Plus,
							right: Box::new(
								ASTNode::BinOp(
									BinOp {
										left: Box::new(ASTNode::Int(2)),
										op: Op::Multiply,
										right: Box::new(ASTNode::Int(3)),
									}
								)
							),
						}
					)
				)
			}
		)
	];

	assert_eq!(ast, expected);
}

#[test]
fn test_call_without_args() {
	let code = r#"
		a = foo()
	"#;

	let ast = Parser::new(code)
		.parse()
		.unwrap();

	let expected = vec![
		ASTNode::Assign(
			Assign {
				left: Box::new(ASTNode::Ident("a".to_string())),
				right: Box::new(
					ASTNode::Call(
						Call {
							callee: Box::new(ASTNode::Ident("foo".to_string())),
							args: vec![],
						}
					)
				)
			}
		)
	];

	assert_eq!(ast, expected);
}

#[test]
fn test_call_with_num_arg() {
	let code = r#"
		a = foo(1)
	"#;

	let ast = Parser::new(code)
		.parse()
		.unwrap();

	let expeted = vec![
		ASTNode::Assign(
			Assign {
				left: Box::new(ASTNode::Ident("a".to_string())),
				right: Box::new(
					ASTNode::Call(
						Call {
							callee: Box::new(ASTNode::Ident("foo".to_string())),
							args: vec![
								ASTNode::Int(1),
							],
						}
					)
				)
			}
		)
	];

	assert_eq!(ast, expeted);
}

#[test]
fn test_double_call() {
	let code = r#"
		a = foo(1)(2)
	"#;

	let ast = Parser::new(code)
		.parse()
		.unwrap();

	let expected = vec![
		ASTNode::Assign(
			Assign {
				left: Box::new(ASTNode::Ident("a".to_string())),
				right: Box::new(
					ASTNode::Call(
						Call {
							callee: Box::new(
								ASTNode::Call(
									Call {
										callee: Box::new(ASTNode::Ident("foo".to_string())),
										args: vec![
											ASTNode::Int(1),
										],
									}
								)
							),
							args: vec![
								ASTNode::Int(2),
							],
						}

					)
				),
			},
		)
	];

	assert_eq!(ast, expected);
}

#[test]
fn test_prob_access() {
	let code = r#"
		foo.bar
	"#;

	let ast = Parser::new(code)
		.parse()
		.unwrap();

	let expected = vec![
		ASTNode::ProbAccess(
			ProbAccess {
				object: Box::new(ASTNode::Ident("foo".to_string())),
				property: "bar".to_string(),
			}
		)
	];

	assert_eq!(ast, expected);
}

#[test]
fn test_method_call() {
	let code = r#"
		foo.bar(1)
	"#;

	let ast = Parser::new(code)
		.parse()
		.unwrap();

	let expected = vec![
		ASTNode::Call(
			Call {
				callee: Box::new(
					ASTNode::ProbAccess(
						ProbAccess {
							object: Box::new(ASTNode::Ident("foo".to_string())),
							property: "bar".to_string(),
						}
					)
				),
				args: vec![
					ASTNode::Int(1),
				],
			}
		)
	];

	assert_eq!(ast, expected);
}

#[test]
fn test_call_with_callback() {
	let code = r#"
		foo(() => 5)
	"#;

	let ast = Parser::new(code)
		.parse()
		.unwrap();

	let expected = vec![
		ASTNode::Call(
			Call {
				callee: Box::new(ASTNode::Ident("foo".to_string())),
				args: vec![
					ASTNode::Fun(
						Fun {
							params: vec![],
							body: vec![
								ASTNode::Int(5),
							],
						}
					),
				],
			}
		)
	];

	assert_eq!(ast, expected);
}

#[test]
fn test_empty_array() {
	let code = r#"
		l = []
	"#;

	let ast = Parser::new(code)
		.parse()
		.unwrap();

	let expected = vec![
		ASTNode::Assign(
			Assign {
				left: Box::new(ASTNode::Ident("l".to_string())),
				right: Box::new(
					ASTNode::Array(
						Array {
							items: vec![],
						}
					)
				),
			}
		)
	];

	assert_eq!(ast, expected);
}

#[test]
fn test_array_with_many_numbers() {
	let code = r#"
		l = [1, 2, 3]
	"#;

	let ast = Parser::new(code)
		.parse()
		.unwrap();

	let expected = vec![
		ASTNode::Assign(
			Assign {
				left: Box::new(ASTNode::Ident("l".to_string())),
				right: Box::new(
					ASTNode::Array(
						Array {
							items: vec![
								ASTNode::Int(1),
								ASTNode::Int(2),
								ASTNode::Int(3),
							],
						}
					)
				),
			}
		)
	];

	assert_eq!(ast, expected);
}

#[test]
fn test_empty_named_instance() {
	let code = r#"
		Ball {}
	"#;

	let ast = Parser::new(code)
		.parse()
		.unwrap();

	let expected = vec![
		ASTNode::StructIns(
			StructIns {
				name: "Ball".to_string(),
				probs: vec![],
			}
		)
	];

	assert_eq!(ast, expected);
}

#[test]
fn test_named_instance_fields() {
	let code = r#"
		Ball {
			x: 1,
			y: 2,
			name: "nakki"
		}
	"#;

	let ast = Parser::new(code)
		.parse()
		.unwrap();

	let expected = vec![
		ASTNode::StructIns(
			StructIns {
				name: "Ball".to_string(),
				probs: vec![
					Property {
						name: "x".to_string(),
						value: Box::new(ASTNode::Int(1)),
					},
					Property {
						name: "y".to_string(),
						value: Box::new(ASTNode::Int(2)),
					},
					Property {
						name: "name".to_string(),
						value: Box::new(ASTNode::Str("nakki".to_string())),
					},
				],
			}
		)
	];

	assert_eq!(ast, expected);
}

#[test]
fn test_fun_empty_param_and_body() {
	let code = r#"
		foo = () => {}
	"#;

	let ast = Parser::new(code)
		.parse()
		.unwrap();

	let expected = vec![
		ASTNode::Assign(
			Assign {
				left: Box::new(ASTNode::Ident("foo".to_string())),
				right: Box::new(
					ASTNode::Fun(
						Fun {
							params: vec![],
							body: vec![],
						}
					)
				),
			}
		)
	];

	assert_eq!(ast, expected);
}

#[test]
fn test_simple_fun() {
	let code = r#"
		foo = (a, b) => {
			a + b
		}
	"#;

	let ast = Parser::new(code)
		.parse()
		.unwrap();

	let expected = vec![
		ASTNode::Assign(
			Assign {
				left: Box::new(ASTNode::Ident("foo".to_string())),
				right: Box::new(
					ASTNode::Fun(
						Fun {
							params: vec![
								ASTNode::Ident("a".to_string()),
								ASTNode::Ident("b".to_string()),
							],
							body: vec![
								ASTNode::BinOp(
									BinOp {
										op: Op::Plus,
										left: Box::new(ASTNode::Ident("a".to_string())),
										right: Box::new(ASTNode::Ident("b".to_string())),
									}
								)
							],
						}
					)
				),
			}
		)
	];

	assert_eq!(ast, expected);
}

#[test]
fn test_obj_field_fun() {
	let code = r#"
		Div {
			on_click: () => {}
		}
	"#;

	let ast = Parser::new(code)
		.parse()
		.unwrap();

	let expected = vec![
		ASTNode::StructIns(
			StructIns {
				name: "Div".to_string(),
				probs: vec![
					Property {
						name: "on_click".to_string(),
						value: Box::new(
							ASTNode::Fun(
								Fun {
									params: vec![],
									body: vec![],
								}
							)
						),
					},
				],
			}
		)
	];

	assert_eq!(ast, expected);
}

#[test]
fn test_fun_without_paren() {
	let code = r#"
		foo = a => {
			a + 1
		}
	"#;

	let ast = Parser::new(code)
		.parse()
		.unwrap();

	let expected = vec![
		ASTNode::Assign(
			Assign {
				left: Box::new(ASTNode::Ident("foo".to_string())),
				right: Box::new(
					ASTNode::Fun(
						Fun {
							params: vec![
								ASTNode::Ident("a".to_string()),
							],
							body: vec![
								ASTNode::BinOp(
									BinOp {
										op: Op::Plus,
										left: Box::new(ASTNode::Ident("a".to_string())),
										right: Box::new(ASTNode::Int(1)),
									}
								)
							],
						}
					)
				),
			}
		)
	];

	assert_eq!(ast, expected);
}

#[test]
fn test_fun_without_block() {
	let code = r#"
		foo = a => a + 1
	"#;

	let ast = Parser::new(code)
		.parse()
		.unwrap();

	let expected = vec![
		ASTNode::Assign(
			Assign {
				left: Box::new(ASTNode::Ident("foo".to_string())),
				right: Box::new(
					ASTNode::Fun(
						Fun {
							params: vec![
								ASTNode::Ident("a".to_string()),
							],
							body: vec![
								ASTNode::BinOp(
									BinOp {
										op: Op::Plus,
										left: Box::new(ASTNode::Ident("a".to_string())),
										right: Box::new(ASTNode::Int(1)),
									}
								)
							],
						}
					)
				),
			}
		)
	];

	assert_eq!(ast, expected);
}

#[test]
fn test_return_expr() {
	let code = r#"
		return 1 + 5
	"#;

	let ast = Parser::new(code)
		.parse()
		.unwrap();

	let expected = vec![
		ASTNode::Ret(
			Ret {
				value: Box::new(
					Some(
						ASTNode::BinOp(
							BinOp {
								op: Op::Plus,
								left: Box::new(ASTNode::Int(1)),
								right: Box::new(ASTNode::Int(5)),
							}
						)
					)
				),
			}
		)
	];

	assert_eq!(ast, expected);
}

#[test]
fn test_empty_return() {
	let code = r#"
		return
	"#;

	let ast = Parser::new(code)
		.parse()
		.unwrap();

	let expected = vec![
		ASTNode::Ret(
			Ret {
				value: Box::new(None),
			}
		)
	];

	assert_eq!(ast, expected);
}

#[test]
fn test_parse_obj_instance_in_array() {
	let code = r#"
		[
			Div { }
		]
	"#;

	let ast = Parser::new(code)
		.parse()
		.unwrap();

	let expected = vec![
		ASTNode::Array(
			Array {
				items: vec![
					ASTNode::StructIns(
						StructIns {
							name: "Div".to_string(),
							probs: vec![],
						}
					)
				],
			}
		)
	];

	assert_eq!(ast, expected);
}

#[test]
fn test_parse_vertex() {
	let code = r#"
		Vertex { x: -0.6, y: 0.1, color: "black" }
	"#;

	let ast = Parser::new(code)
		.parse()
		.unwrap();

	let expected = vec![
		ASTNode::StructIns(
			StructIns {
				name: "Vertex".to_string(),
				probs: vec![
					Property {
						name: "x".to_string(),
						value: Box::new(ASTNode::Float(Decimal::new(-6, 1))),
					},
					Property {
						name: "y".to_string(),
						value: Box::new(ASTNode::Float(Decimal::new(1, 1))),
					},
					Property {
						name: "color".to_string(),
						value: Box::new(ASTNode::Str("black".to_string())),
					},
				],
			}
		)
	];

	assert_eq!(ast, expected);
}

#[test]
fn parse_additive_chain_groups_to_the_right() {
	let ast = Parser::new("1 - 2 - 3").parse().unwrap();
	let expected = vec![ASTNode::BinOp(BinOp {
		left: Box::new(ASTNode::Int(1)),
		op: Op::Minus,
		right: Box::new(ASTNode::BinOp(BinOp {
			left: Box::new(ASTNode::Int(2)),
			op: Op::Minus,
			right: Box::new(ASTNode::Int(3)),
		})),
	})];
	assert_eq!(ast, expected);
}

#[test]
fn parse_multiplicative_chain() {
	let ast = Parser::new("2 * 3 / 4").parse().unwrap();
	let expected = vec![ASTNode::BinOp(BinOp {
		left: Box::new(ASTNode::Int(2)),
		op: Op::Multiply,
		right: Box::new(ASTNode::BinOp(BinOp {
			left: Box::new(ASTNode::Int(3)),
			op: Op::Divide,
			right: Box::new(ASTNode::Int(4)),
		})),
	})];
	assert_eq!(ast, expected);
}

#[test]
fn parse_call_result_in_sum() {
	let ast = Parser::new("f(1) + 2").parse().unwrap();
	let expected = vec![ASTNode::BinOp(BinOp {
		left: Box::new(ASTNode::Call(Call {
			callee: Box::new(ASTNode::Ident("f".to_string())),
			args: vec![ASTNode::Int(1)],
		})),
		op: Op::Plus,
		right: Box::new(ASTNode::Int(2)),
	})];
	assert_eq!(ast, expected);
}

#[test]
fn parse_typed_declaration() {
	let ast = Parser::new("Int count").parse().unwrap();
	assert_eq!(ast, vec![ASTNode::Var(Var { name: "count".to_string(), typ: "Int".to_string() })]);
}

#[test]
fn parse_return_inside_block() {
	let ast = Parser::new("f = () => { return }").parse().unwrap();
	let expected = vec![ASTNode::Assign(Assign {
		left: Box::new(ASTNode::Ident("f".to_string())),
		right: Box::new(ASTNode::Fun(Fun {
			params: vec![],
			body: vec![ASTNode::Ret(Ret { value: Box::new(None) })],
		})),
	})];
	assert_eq!(ast, expected);
}

#[test]
fn parse_empty_input() {
	assert_eq!(Parser::new("").parse().unwrap(), vec![]);
	assert_eq!(parse_code("  \n ").unwrap(), vec![]);
}

#[test]
fn parse_errors_are_reported() {
	let err = Parser::new("a = (1 + 2").parse().unwrap_err();
	assert_eq!(err.at, 6);
	assert_eq!(err.context, "1 + 2");
	assert!(parse_code("a = ").is_err());
	assert!(parse_code("[1, 2").is_err());
	assert!(parse_code("foo(1").is_err());
	assert!(parse_code("Ball { x 1 }").is_err());
	assert!(parse_code("1 + * 2").is_err());
	assert!(parse_code("a # b").is_err());
	assert!(parse_code(")").is_err());
}

#[test]
fn parse_error_context_is_a_window() {
	let err = parse_code("a = 1\nb = 2\nc = )\nd = 4\ne = 5").unwrap_err();
	assert_eq!(err.at, 8);
	assert_eq!(err.context, "2\nc = )\nd = 4");
}

#[test]
fn parse_program_consumes_every_token() {
	let mut p = Parser::new("a = 1 b = 2");
	let ast = p.parse().unwrap();
	assert_eq!(ast.len(), 2);
	assert_eq!(p.parse().unwrap(), vec![]);
}

#[test]
fn parse_nested_parens_stay_an_expression() {
	let ast = Parser::new("(f(1) + 2) * 3").parse().unwrap();
	let expected = vec![ASTNode::BinOp(BinOp {
		left: Box::new(ASTNode::BinOp(BinOp {
			left: Box::new(ASTNode::Call(Call {
				callee: Box::new(ASTNode::Ident("f".to_string())),
				args: vec![ASTNode::Int(1)],
			})),
			op: Op::Plus,
			right: Box::new(ASTNode::Int(2)),
		})),
		op: Op::Multiply,
		right: Box::new(ASTNode::Int(3)),
	})];
	assert_eq!(ast, expected);
}

#[test]
fn parse_error_at_unknown_character() {
	let err = Parser::new("a = 1 $").parse().unwrap_err();
	assert_eq!(err.at, 3);
	assert_eq!(err.context, "a = 1 $");
	let err = parse_code("x = 1\ny = 2\nz = 3 $ w").unwrap_err();
	assert_eq!(err.at, 9);
	assert_eq!(err.context, "z = 3 $ w");
}
