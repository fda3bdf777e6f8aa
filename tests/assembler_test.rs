use axolotl::assembler::{compile_to_enum, AsmError};
use axolotl::vm::bytecode::ByteCode;
use axolotl::vm::machine::{Step, VM};
use axolotl::vm::object::ObjType;
use axolotl::vm::value::Value;

fn assemble(text: &str) -> Result<Vec<ByteCode>, AsmError> {
    compile_to_enum(text.to_string(), &vec![])
}

#[test]
fn labels_resolve_to_instruction_indices() {
    let text = "push 1\n\npush 2 <- here ;; the loop starts here\n+\njmp here\nHALT\n";
    let code = assemble(text).unwrap();
    assert_eq!(
        code,
        vec![
            ByteCode::Push(Value::Int(1)),
            ByteCode::Push(Value::Int(2)),
            ByteCode::Add,
            ByteCode::Jmp(1),
            ByteCode::HALT,
        ]
    );
}

#[test]
fn operand_forms() {
    let text = "push -12\npush 'a'\npush \"two words\"\ncopy -1\nget 3\nset 4\ncall 7\npop_jmp_if 2\npop_jmp_if_not 9\ncollect_list 3\n===\n!==\nHALT";
    let code = assemble(text).unwrap();
    assert_eq!(code[0], ByteCode::Push(Value::Int(-12)));
    assert_eq!(code[1], ByteCode::Push(Value::Char('a' as u32)));
    match &code[2] {
        ByteCode::Push(Value::Ref(obj)) => assert_eq!(**obj, ObjType::Str("two words".to_string())),
        other => panic!("not a string push: {:?}", other),
    }
    assert_eq!(
        code[3..].to_vec(),
        vec![
            ByteCode::Copy(1),
            ByteCode::Get(3),
            ByteCode::Store(4),
            ByteCode::Call(7),
            ByteCode::PopJmpIf(2),
            ByteCode::PopJmpIfNot(9),
            ByteCode::CollectList(3),
            ByteCode::StrictEq,
            ByteCode::StrictNeq,
            ByteCode::HALT,
        ]
    );
}

#[test]
fn extreme_integers() {
    let code = assemble("push -9223372036854775808\npush 9223372036854775807").unwrap();
    assert_eq!(code, vec![ByteCode::Push(Value::Int(i64::MIN)), ByteCode::Push(Value::Int(i64::MAX))]);
    assert_eq!(assemble("HALT\npush 9223372036854775808"), Err(AsmError::BadNumber(1)));
}

#[test]
fn assembler_errors() {
    assert_eq!(assemble("push 1\nfrobnicate"), Err(AsmError::UnknownInstruction(1)));
    assert_eq!(assemble("jmp nowhere"), Err(AsmError::UnknownLabel(0)));
    assert_eq!(assemble("get x"), Err(AsmError::UnknownInstruction(0)));
    assert_eq!(assemble("push 2.5"), Err(AsmError::UnknownFloat("2.5".to_string())));
}

#[test]
fn decimal_literals_come_from_the_table() {
    let floats = vec![("2.5".to_string(), 2.5f64.to_bits())];
    let code = compile_to_enum("push 2.5\nHALT".to_string(), &floats).unwrap();
    assert_eq!(code, vec![ByteCode::Push(Value::Float(2.5f64.to_bits())), ByteCode::HALT]);
}

#[test]
fn label_free_text_round_trips() {
    let program = vec![
        ByteCode::Push(Value::Int(4)),
        ByteCode::Store(0),
        ByteCode::Get(0),
        ByteCode::Dup,
        ByteCode::Mul,
        ByteCode::Jmp(6),
        ByteCode::HALT,
    ];
    let text = "push 4\nset 0\nget 0\ndup\n*\njmp 6\nHALT";
    assert_eq!(assemble(text).unwrap(), program);
}

#[test]
fn assembled_program_runs() {
    let text = "push 3 ;; counter\n-- <- top\ndup\npush 0\n>\npop_jmp_if cont\nHALT\npop <- cont\npop\njmp top";
    let code = assemble(text).unwrap();
    let mut vm = VM::default();
    assert_eq!(vm.run(&code, 1000), Step::Halted);
    assert_eq!(vm.stack, vec![Value::Int(0), Value::Int(0), Value::Int(0), Value::Bool(false)]);
}

#[test]
fn character_literals_take_unicode_word_characters() {
    let code = assemble("push '\u{e9}'\npush '_'\npush '\u{3bb}'").unwrap();
    assert_eq!(
        code,
        vec![
            ByteCode::Push(Value::Char(0xe9)),
            ByteCode::Push(Value::Char('_' as u32)),
            ByteCode::Push(Value::Char(0x3bb)),
        ]
    );
    assert_eq!(assemble("push '-'"), Err(AsmError::UnknownInstruction(0)));
}

#[test]
fn unicode_whitespace_precedes_comments_and_labels() {
    let text = "push 1\u{a0};; one\npush 2\u{2003}<- two\njmp two";
    let code = assemble(text).unwrap();
    assert_eq!(
        code,
        vec![ByteCode::Push(Value::Int(1)), ByteCode::Push(Value::Int(2)), ByteCode::Jmp(1)]
    );
}
