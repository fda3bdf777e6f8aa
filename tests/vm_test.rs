use axolotl::vm::bytecode::ByteCode::{
    self, Add, Call, CallTopFn, CollectList, StrictNeq, Dec, Div, Get, Greater, GreaterEq, Jmp, Less,
    LessEq, Mul, Not, Pop, PopJmpIf, PopJmpIfNot, Push, Rem, Ret, Store, StrictEq, Sub, Swap,
    Xor, HALT,
};
use axolotl::vm::float::{Arith, FloatAnswer, FloatArg, FloatOrder, FloatWork};
use axolotl::vm::machine::{Step, VM};
use axolotl::vm::value::{Fault, Tag, Value};

fn float_arg(a: FloatArg) -> f64 {
    match a {
        FloatArg::Float(bits) => f64::from_bits(bits),
        FloatArg::Int(i) => i as f64,
        FloatArg::Zero => 0.0,
    }
}

fn float_answer(work: FloatWork) -> FloatAnswer {
    match work {
        FloatWork::ToInt(bits) => FloatAnswer::Int(f64::from_bits(bits) as i64),
        FloatWork::ToChar(bits) => FloatAnswer::Char(f64::from_bits(bits) as u32),
        FloatWork::Arith(op, bits, arg) => {
            let a = f64::from_bits(bits);
            let b = float_arg(arg);
            let r = match op {
                Arith::Add => a + b,
                Arith::Sub => a - b,
                Arith::Mul => a * b,
                Arith::Div => a / b,
                Arith::Rem => a % b,
            };
            FloatAnswer::Float(r.to_bits())
        }
        FloatWork::Compare(bits, arg) => {
            let a = f64::from_bits(bits);
            let b = float_arg(arg);
            FloatAnswer::Order(match a.partial_cmp(&b) {
                Some(std::cmp::Ordering::Less) => FloatOrder::Less,
                Some(std::cmp::Ordering::Equal) => FloatOrder::Equal,
                Some(std::cmp::Ordering::Greater) => FloatOrder::Greater,
                None => FloatOrder::Unordered,
            })
        }
    }
}

fn run_to_end(machine: &mut VM, program: &Vec<ByteCode>) -> Step {
    loop {
        match machine.run(program, 10_000) {
            Step::Fault(Fault::Float(work)) => {
                let answer = float_answer(work);
                match machine.resume(program, answer) {
                    Step::Continue => {}
                    other => return other,
                }
            }
            other => return other,
        }
    }
}

fn run_prog(program: Vec<ByteCode>) -> VM {
    let mut machine = VM::default();
    let end = run_to_end(&mut machine, &program);
    assert_eq!(end, Step::Halted);
    machine
}

fn float(x: f64) -> Value {
    Value::Float(x.to_bits())
}

#[test]
fn test_add_two() {
    let program = vec![Push(Value::Int(1)), Push(Value::Int(1)), Add, HALT];

    let machine = run_prog(program);
    assert_eq!([Value::Int(2)], machine.stack[..])
}

#[test]
fn test_logical() {
    let program = vec![Push(Value::Int(5)), Push(Value::Int(3)), Xor, Not, HALT];

    let machine = run_prog(program);
    assert_eq!([Value::Int(-7)], machine.stack[..])
}

#[test]
fn test_different_type() {
    let program = vec![Push(Value::Int(1)), Push(float(2.0)), Add, HALT];
    let machine = run_prog(program);
    assert_eq!([Value::Int(3)], machine.stack[..])
}

#[test]
fn test_jump() {
    let program = vec![Jmp(2), Push(Value::Bool(false)), Push(Value::Bool(true)), HALT];
    let machine = run_prog(program);
    assert_eq!([Value::Bool(true)], machine.stack[..])
}

#[test]
fn test_conditional_jump() {
    let program = vec![
        Push(Value::Int(1)),
        Push(Value::Int(5)),
        Greater,
        PopJmpIfNot(5),
        PopJmpIf(7),
        Dec,
        Jmp(2),
        HALT,
    ];
    let machine = run_prog(program);
    assert_eq!([Value::Int(1), Value::Int(0)], machine.stack[..])
}

#[test]
fn stack_underflow() {
    let program = vec![Push(Value::Int(1)), Pop, Pop];
    let mut machine = VM::default();
    assert_eq!(machine.run(&program, 10), Step::Fault(Fault::StackUnderflow));
    assert!(machine.stack.is_empty());
    assert_eq!(machine.pc, 2);
}

#[test]
fn pop_on_empty_stack_faults() {
    let program = vec![Pop, HALT];
    let mut machine = VM::default();
    assert_eq!(machine.step(&program, None), Step::Fault(Fault::StackUnderflow));
    assert_eq!(machine.pc, 0);
}

#[test]
fn call_and_return_leave_an_empty_stack() {
    let program = vec![Push(Value::Int(1)), Call(3), HALT, Swap, Pop, Ret, HALT];
    let machine = run_prog(program);
    assert!(machine.stack.is_empty());
    assert_eq!(machine.pc, 2);
}

#[test]
fn add_coerces_to_the_left_tag() {
    let cases = vec![
        (Value::Int(2), Value::Char(65), Value::Int(67)),
        (Value::Char(65), Value::Int(1), Value::Char(66)),
        (Value::Int(7), Value::Nil, Value::Int(7)),
        (float(1.5), Value::Int(2), float(3.5)),
        (float(1.5), float(0.25), float(1.75)),
        (float(0.5), Value::Char(65), float(65.5)),
        (float(0.5), Value::Char(0x3bb), float(955.5)),
        (Value::Char(65), float(2.9), Value::Char(67)),
        (Value::Int(10), float(-2.5), Value::Int(8)),
    ];
    for (v, w, expected) in cases {
        let machine = run_prog(vec![Push(v), Push(w), Add, HALT]);
        assert_eq!(machine.stack, vec![expected]);
    }
}

#[test]
fn float_work_is_asked_for_and_resumed() {
    let program = vec![Push(Value::Int(1)), Push(float(2.0)), Add, HALT];
    let mut machine = VM::default();
    let asked = machine.run(&program, 10);
    assert_eq!(asked, Step::Fault(Fault::Float(FloatWork::ToInt(2.0f64.to_bits()))));
    assert_eq!(machine.pc, 2);
    assert_eq!(machine.resume(&program, FloatAnswer::Int(2)), Step::Continue);
    assert_eq!(machine.stack, vec![Value::Int(3)]);
    assert_eq!(machine.resume(&program, FloatAnswer::Int(0)), Step::Halted);
}

#[test]
fn wrong_float_answer_is_a_fault() {
    let program = vec![Push(float(1.0)), Push(float(2.0)), Add, HALT];
    let mut machine = VM::default();
    machine.run(&program, 2);
    assert_eq!(machine.resume(&program, FloatAnswer::Int(3)), Step::Fault(Fault::FloatAnswer));
}

#[test]
fn arithmetic_faults() {
    let mut machine = VM::default();
    let program = vec![Push(Value::Int(1)), Push(Value::Int(0)), Div, HALT];
    assert_eq!(machine.run(&program, 10), Step::Fault(Fault::DivideByZero));

    let mut machine = VM::default();
    let program = vec![Push(Value::Int(i64::MAX)), Push(Value::Int(1)), Add, HALT];
    assert_eq!(machine.run(&program, 10), Step::Fault(Fault::Overflow));
    assert_eq!(machine.stack, vec![Value::Int(i64::MAX), Value::Int(1)]);

    let mut machine = VM::default();
    let program = vec![Push(Value::Bool(true)), Push(Value::Int(1)), Add, HALT];
    assert_eq!(machine.run(&program, 10), Step::Fault(Fault::Type(Tag::Bool, Tag::Int)));

    let mut machine = VM::default();
    let program = vec![Push(Value::Int(1)), Push(Value::Bool(true)), Sub, HALT];
    assert_eq!(machine.run(&program, 10), Step::Fault(Fault::Type(Tag::Int, Tag::Bool)));
}

#[test]
fn integer_division_truncates() {
    let machine = run_prog(vec![Push(Value::Int(-7)), Push(Value::Int(2)), Div, HALT]);
    assert_eq!(machine.stack, vec![Value::Int(-3)]);
    let machine = run_prog(vec![Push(Value::Int(-7)), Push(Value::Int(2)), Rem, HALT]);
    assert_eq!(machine.stack, vec![Value::Int(-1)]);
}

#[test]
fn slots_are_written_and_read() {
    let program = vec![Push(Value::Int(4)), Store(0), Get(0), Get(0), Mul, HALT];
    let machine = run_prog(program);
    assert_eq!(machine.stack, vec![Value::Int(16)]);
    assert_eq!(machine.constant_pool, vec![Value::Int(4)]);

    let mut machine = VM::default();
    assert_eq!(machine.run(&vec![Get(0), HALT], 5), Step::Fault(Fault::UnsetSlot(0)));
    let mut machine = VM::default();
    assert_eq!(
        machine.run(&vec![Push(Value::Nil), Store(1), HALT], 5),
        Step::Fault(Fault::SparseSlot(1))
    );
}

#[test]
fn comparisons_push_a_boolean() {
    let machine = run_prog(vec![Push(Value::Int(2)), Push(Value::Int(3)), Less, HALT]);
    assert_eq!(machine.stack, vec![Value::Int(2), Value::Int(3), Value::Bool(true)]);
    let machine = run_prog(vec![Push(Value::Int(3)), Push(Value::Int(3)), GreaterEq, HALT]);
    assert_eq!(machine.stack[2], Value::Bool(true));
    let machine = run_prog(vec![Push(Value::Int(3)), Push(Value::Char(3)), ByteCode::Eq, HALT]);
    assert_eq!(machine.stack[2], Value::Bool(true));
    let machine = run_prog(vec![Push(Value::Int(3)), Push(Value::Char(3)), StrictEq, HALT]);
    assert_eq!(machine.stack[2], Value::Bool(false));
    let machine = run_prog(vec![Push(float(1.0)), Push(Value::Int(2)), LessEq, HALT]);
    assert_eq!(machine.stack[2], Value::Bool(true));
}

#[test]
fn collect_list_keeps_stack_order() {
    let program = vec![
        Push(Value::Int(1)),
        Push(Value::Int(2)),
        Push(Value::Int(3)),
        CollectList(3),
        HALT,
    ];
    let machine = run_prog(program);
    assert_eq!(machine.stack.len(), 1);
    match &machine.stack[0] {
        Value::Ref(obj) => match &**obj {
            axolotl::vm::object::ObjType::Cons(list) => {
                assert_eq!(list.head(), Some(&Value::Int(1)));
                assert_eq!(list.tail().head(), Some(&Value::Int(2)));
                assert_eq!(list.tail().tail().head(), Some(&Value::Int(3)));
                assert_eq!(list.tail().tail().tail().head(), None);
            }
            other => panic!("not a list: {:?}", other),
        },
        other => panic!("not a reference: {:?}", other),
    }
}

#[test]
fn return_needs_an_address() {
    let mut machine = VM::default();
    let program = vec![Push(Value::Int(0)), Ret, HALT];
    assert_eq!(machine.run(&program, 5), Step::Fault(Fault::BadReturn(Tag::Int)));
}

#[test]
fn running_off_the_end_faults() {
    let mut machine = VM::default();
    assert_eq!(machine.run(&vec![Push(Value::Nil)], 5), Step::Fault(Fault::PcOutOfRange(1)));
}

#[test]
fn fuel_bounds_a_run_and_halting_is_stable() {
    let program = vec![Jmp(0)];
    let mut machine = VM::default();
    assert_eq!(machine.run(&program, 100), Step::Continue);
    let program = vec![Push(Value::Int(1)), HALT];
    let mut machine = VM::default();
    assert_eq!(machine.run(&program, 2), Step::Halted);
    assert_eq!(machine.run(&program, 50), Step::Halted);
    assert_eq!(machine.stack, vec![Value::Int(1)]);
}

#[test]
fn unsupported_instruction_faults() {
    let mut machine = VM::default();
    assert_eq!(machine.run(&vec![CallTopFn, HALT], 5), Step::Fault(Fault::Unsupported));
}

#[test]
fn value_methods_update_in_place() {
    let mut v = Value::Int(6);
    assert_eq!(v.mul(Value::Int(7), None), Ok(()));
    assert_eq!(v, Value::Int(42));
    assert_eq!(v.not(), Ok(()));
    assert_eq!(v, Value::Int(-43));
    let mut c = Value::Char(1);
    assert_eq!(c.sub(Value::Int(2), None), Err(Fault::Overflow));
    assert_eq!(c, Value::Char(1));
    assert_eq!(Value::Int(3).gt(Value::Char(2), None), Ok(true));
    assert_eq!(Value::Int(3).lt(Value::Nil, None), Ok(false));
    assert_eq!(Value::Bool(true).eq(Value::Bool(true), None), Err(Fault::Type(Tag::Bool, Tag::Bool)));
}

#[test]
fn reset_clears_the_machine() {
    let mut machine = run_prog(vec![Push(Value::Int(1)), Store(0), HALT]);
    machine.reset();
    assert!(machine.stack.is_empty());
    assert!(machine.constant_pool.is_empty());
    assert_eq!(machine.pc, 0);
    let fresh = VM::new(5, true, true);
    assert_eq!((fresh.delay, fresh.render, fresh.debug), (5, true, true));
}

#[test]
fn strict_equality_compares_heap_objects_structurally() {
    let same = vec![
        Push(Value::Int(1)),
        Push(Value::Char(2)),
        CollectList(2),
        Push(Value::Int(1)),
        Push(Value::Char(2)),
        CollectList(2),
        StrictEq,
        HALT,
    ];
    let machine = run_prog(same);
    assert_eq!(machine.stack[2], Value::Bool(true));
    let different = vec![
        Push(Value::Int(1)),
        CollectList(1),
        Push(Value::Int(2)),
        CollectList(1),
        StrictEq,
        HALT,
    ];
    let machine = run_prog(different);
    assert_eq!(machine.stack[2], Value::Bool(false));
    let shorter = vec![
        Push(Value::Int(1)),
        CollectList(1),
        Push(Value::Int(1)),
        Push(Value::Int(1)),
        CollectList(2),
        StrictNeq,
        HALT,
    ];
    let machine = run_prog(shorter);
    assert_eq!(machine.stack[2], Value::Bool(true));
}
