use axolotl::frontend::gen::{float_literals, rec_replace_sym, CodeGenError, GenEnv};
use axolotl::frontend::parser::{parse, ParseError, Parsed};
use axolotl::frontend::token::{tokenlize, Token};
use axolotl::vm::bytecode::ByteCode;
use axolotl::vm::machine::{Step, VM};
use axolotl::vm::object::ObjType;
use axolotl::vm::value::Value;

fn sym(s: &str) -> Parsed {
    Parsed::Token(Token::Sym(s.to_string()))
}

fn compile(env: &mut GenEnv, text: &str) -> Result<Vec<ByteCode>, CodeGenError> {
    let tree = parse(&text.to_string()).unwrap();
    env.generate_with_halt(&tree)
}

#[test]
fn print_parse() {
    let input = r#"
("aaaa")
"#
    .to_string();
    println!("{:?}", parse(&input).unwrap());
}

#[test]
fn parser_test_parse_str() {
    let input = "123".to_string();
    assert_eq!(Parsed::Token(Token::Int(123)), parse(&input).unwrap());
}

#[test]
fn parser_test_simple_ast() {
    let input = "(+ 1 (+ 2 3))".to_string();
    assert_eq!(
        Parsed::List(vec![
            Parsed::Token(Token::Add),
            Parsed::Token(Token::Int(1)),
            Parsed::List(vec![
                Parsed::Token(Token::Add),
                Parsed::Token(Token::Int(2)),
                Parsed::Token(Token::Int(3)),
            ]),
        ]),
        parse(&input).unwrap()
    );
}

#[test]
fn parse_skips_commas_and_comments() {
    let input = "; a comment\n(x, y ; another\n z)".to_string();
    assert_eq!(Parsed::List(vec![sym("x"), sym("y"), sym("z")]), parse(&input).unwrap());
}

#[test]
fn parse_errors() {
    assert_eq!(parse(&"(+ 1 2".to_string()), Err(ParseError::MisMatchedBracket));
    assert_eq!(parse(&") (".to_string()), Err(ParseError::MisMatchedBracket));
    assert_eq!(parse(&"(a `b".to_string()), Err(ParseError::MisMatchedBracket));
    assert_eq!(parse(&"  , ; nothing".to_string()), Err(ParseError::Empty));
}

#[test]
fn unicode_whitespace_separates_atoms() {
    assert_eq!(
        parse(&"(a\u{a0}b\u{3000}c)".to_string()),
        Ok(Parsed::List(vec![sym("a"), sym("b"), sym("c")]))
    );
}

#[test]
fn backquotes_separate_atoms() {
    assert_eq!(parse(&"(a `b)".to_string()), Ok(Parsed::List(vec![sym("a"), sym("b")])));
}

#[test]
fn inner_lambda_rebinding_is_not_renamed() {
    let tree = parse(&"(lambda (x) (+ x y))".to_string()).unwrap();
    let params = vec!["x".to_string(), "y".to_string()];
    let renamed = rec_replace_sym(&tree, &params);
    assert_eq!(
        renamed,
        Parsed::List(vec![
            Parsed::Token(Token::Lambda),
            Parsed::List(vec![sym("x")]),
            Parsed::List(vec![
                Parsed::Token(Token::Add),
                sym("x"),
                Parsed::Token(Token::Param(1)),
            ]),
        ])
    );
}

#[test]
fn inner_lambda_may_shadow_a_parameter() {
    let mut env = GenEnv::new();
    let code = compile(&mut env, "(lambda (x y) (lambda (x) (+ x y)))").unwrap();
    match &code[0] {
        ByteCode::Push(Value::Ref(obj)) => match &**obj {
            ObjType::Func(2, body) => match &body[0] {
                ByteCode::Push(Value::Ref(inner)) => match &**inner {
                    ObjType::Func(1, inner_body) => {
                        assert_eq!(inner_body, &vec![ByteCode::Arg(0), ByteCode::Arg(1), ByteCode::Add]);
                    }
                    other => panic!("not a function: {:?}", other),
                },
                other => panic!("not a push: {:?}", other),
            },
            other => panic!("not a function: {:?}", other),
        },
        other => panic!("not a push: {:?}", other),
    }
}

#[test]
fn tokens_are_classified() {
    assert_eq!(tokenlize("def".to_string()), Token::Define);
    assert_eq!(tokenlize("lambda".to_string()), Token::Lambda);
    assert_eq!(tokenlize("!==".to_string()), Token::StrictNeq);
    assert_eq!(tokenlize("true".to_string()), Token::Bool(true));
    assert_eq!(tokenlize("42".to_string()), Token::Int(42));
    assert_eq!(tokenlize("99999999999999999999".to_string()), Token::Sym("99999999999999999999".to_string()));
    assert_eq!(tokenlize("3.25".to_string()), Token::Float("3.25".to_string()));
    assert_eq!(tokenlize("\\A".to_string()), Token::Char(65));
    assert_eq!(tokenlize("\"hi there\"".to_string()), Token::Str("hi there".to_string()));
    assert_eq!(tokenlize("-5".to_string()), Token::Sym("-5".to_string()));
    assert_eq!(tokenlize("foo".to_string()), Token::Sym("foo".to_string()));
}

#[test]
fn define_stores_and_reads_back() {
    let mut env = GenEnv::new();
    let code = compile(&mut env, "(def x 5)").unwrap();
    assert_eq!(
        code,
        vec![ByteCode::Push(Value::Int(5)), ByteCode::Store(0), ByteCode::Get(0), ByteCode::HALT]
    );
    let mut vm = VM::default();
    assert_eq!(vm.run(&code, 100), Step::Halted);
    assert_eq!(vm.stack, vec![Value::Int(5)]);
}

#[test]
fn redefinition_reuses_the_slot() {
    let mut env = GenEnv::new();
    compile(&mut env, "(def x 1)").unwrap();
    let size_after_one = env.sym[0].len();
    let second = compile(&mut env, "(def x 2)").unwrap();
    let third = compile(&mut env, "(def x 3)").unwrap();
    assert_eq!(second[1], ByteCode::Store(0));
    assert_eq!(third[2], ByteCode::Get(0));
    assert_eq!(env.sym[0].len(), size_after_one);
    assert_eq!(env.pool_index, 1);
    let fresh = compile(&mut env, "(def y 2)").unwrap();
    assert_eq!(fresh[1], ByteCode::Store(1));
    assert_eq!(env.sym[0].len(), 2);
}

#[test]
fn binary_operation_on_names() {
    let mut env = GenEnv::new();
    let mut vm = VM::default();
    let first = compile(&mut env, "(def a 20)").unwrap();
    assert_eq!(vm.run(&first, 100), Step::Halted);
    let code = compile(&mut env, "(- a 6)").unwrap();
    assert_eq!(code, vec![ByteCode::Get(0), ByteCode::Push(Value::Int(6)), ByteCode::Sub, ByteCode::HALT]);
    let mut vm2 = VM::default();
    vm2.constant_pool = vm.constant_pool.clone();
    assert_eq!(vm2.run(&code, 100), Step::Halted);
    assert_eq!(vm2.stack, vec![Value::Int(14)]);
}

#[test]
fn codegen_errors() {
    let mut env = GenEnv::new();
    assert_eq!(compile(&mut env, "y"), Err(CodeGenError::SymbolNotFound));
    assert_eq!(compile(&mut env, "(def 1 2)"), Err(CodeGenError::ArgTypeError));
    assert_eq!(compile(&mut env, "(+ (+ 1 2) 3)"), Err(CodeGenError::ArgTypeError));
    assert_eq!(compile(&mut env, "(+ 1 2 3)"), Err(CodeGenError::WrongNumberOfArgument(2, 3)));
    assert_eq!(compile(&mut env, "(lambda x x)"), Err(CodeGenError::NotValidLambda));
    assert_eq!(compile(&mut env, "(lambda (x 1) x)"), Err(CodeGenError::NotValidLambda));
    assert_eq!(compile(&mut env, "(cond 1 2)"), Err(CodeGenError::UnknownForm));
    assert_eq!(compile(&mut env, "(+ 1.5 2)"), Err(CodeGenError::UnknownFloat));
}

#[test]
fn decimal_literals_are_resolved_first() {
    let mut env = GenEnv::new();
    let tree = parse(&"(* 1.5 2)".to_string()).unwrap();
    let texts = float_literals(&tree);
    assert_eq!(texts, vec!["1.5".to_string()]);
    for t in texts {
        let bits = t.parse::<f64>().unwrap().to_bits();
        env.resolve_float(t, bits);
    }
    let code = env.generate_with_halt(&tree).unwrap();
    assert_eq!(code[0], ByteCode::Push(Value::Float(1.5f64.to_bits())));
}

#[test]
fn lambda_becomes_a_function_object() {
    let mut env = GenEnv::new();
    let code = compile(&mut env, "(lambda (x y) (+ x y))").unwrap();
    assert_eq!(code.len(), 2);
    assert_eq!(code[1], ByteCode::HALT);
    match &code[0] {
        ByteCode::Push(Value::Ref(obj)) => match &**obj {
            ObjType::Func(argc, body) => {
                assert_eq!(*argc, 2);
                assert_eq!(body, &vec![ByteCode::Arg(0), ByteCode::Arg(1), ByteCode::Add]);
            }
            other => panic!("not a function: {:?}", other),
        },
        other => panic!("not a push: {:?}", other),
    }
    assert_eq!(env.sym.len(), 1);
}

#[test]
fn lambda_body_sees_outer_names() {
    let mut env = GenEnv::new();
    compile(&mut env, "(def k 3)").unwrap();
    let code = compile(&mut env, "(lambda (x) (* x k))").unwrap();
    match &code[0] {
        ByteCode::Push(Value::Ref(obj)) => match &**obj {
            ObjType::Func(_, body) => {
                assert_eq!(body, &vec![ByteCode::Arg(0), ByteCode::Get(0), ByteCode::Mul]);
            }
            other => panic!("not a function: {:?}", other),
        },
        other => panic!("not a push: {:?}", other),
    }
}

#[test]
fn parameters_are_renamed_to_markers() {
    let tree = parse(&"(+ x (f y \"x\" 7 z x))".to_string()).unwrap();
    let params = vec!["x".to_string(), "y".to_string()];
    let renamed = rec_replace_sym(&tree, &params);
    assert_eq!(
        renamed,
        Parsed::List(vec![
            Parsed::Token(Token::Add),
            Parsed::Token(Token::Param(0)),
            Parsed::List(vec![
                sym("f"),
                Parsed::Token(Token::Param(1)),
                Parsed::Token(Token::Str("x".to_string())),
                Parsed::Token(Token::Int(7)),
                sym("z"),
                Parsed::Token(Token::Param(0)),
            ]),
        ])
    );
}
