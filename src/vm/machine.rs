//! The executor: one operand stack, one flat slot store shared by all calls, and a
//! program counter. `HALT` is the only regular end of a run.
//!
//! A call pushes its return address on the operand stack; the callee leaves its
//! result above that address and `Ret` pops it. There are no call frames.
use crate::builtin::linkedlist::{List, list_of};
use crate::vm::bytecode::ByteCode;
use crate::vm::float::{Arith, FloatAnswer};
use crate::vm::object::ObjType;
use crate::vm::value::{
    Cmp,
    Fault,
    Logic,
    Value,
    arith,
    arith_spec,
    compare,
    compare_spec,
    logic,
    logic_spec,
    not_spec,
    strict_eq,
    strict_eq_spec,
    tag_of,
};
use std::rc::Rc;
use vstd::prelude::*;

verus! {

/// What one instruction, or a run, ended with.
#[derive(Clone, Copy, Debug, PartialEq, Eq, Structural)]
pub enum Step {
    /// The instruction was executed; the machine can go on.
    Continue,
    /// The program counter stands on `HALT`.
    Halted,
    /// The instruction was not executed and the machine is unchanged. A
    /// `Fault::Float` is resumed with `VM::resume` and the embedder's answer.
    Fault(Fault),
}

/// The machine state in the model: operand stack, slot store, program counter.
pub type State = (Seq<Value>, Seq<Value>, int);

pub open spec fn go(s: Seq<Value>, p: Seq<Value>, pc: int) -> (Step, State) {
    (Step::Continue, (s, p, pc))
}

pub open spec fn stop(f: Fault, m: State) -> (Step, State) {
    (Step::Fault(f), m)
}

/// The value that `CollectList` pushes for the values `s`, in stack order.
pub open spec fn cons_value(s: Seq<Value>) -> Value {
    choose|v: Value| v is Ref && *(v->Ref_0) == ObjType::Cons(list_of(s))
}

/// The list that `CollectList(k)` pushes holds the top `k` values of `s`, the
/// deepest first.
pub open spec fn collected(s: Seq<Value>, k: usize) -> bool {
    let items = s.subrange(s.len() - k, s.len() as int);
    &&& cons_value(items) is Ref
    &&& *(cons_value(items)->Ref_0) == ObjType::Cons(list_of(items))
    &&& list_of(items)@ == items
}

/// The second value from the top is replaced by `res`, and the top is popped.
pub open spec fn binary_update(m: State, res: Result<Value, Fault>) -> (Step, State) {
    let s = m.0;
    match res {
        Ok(v) => go(s.drop_last().update(s.len() - 2, v), m.1, m.2 + 1),
        Err(e) => stop(e, m),
    }
}

/// The top value is replaced by `res`.
pub open spec fn unary_update(m: State, res: Result<Value, Fault>) -> (Step, State) {
    let s = m.0;
    match res {
        Ok(v) => go(s.update(s.len() - 1, v), m.1, m.2 + 1),
        Err(e) => stop(e, m),
    }
}

/// A comparison leaves both operands and pushes its answer, negated if `neg`.
pub open spec fn compare_push(m: State, res: Result<bool, Fault>, neg: bool) -> (Step, State) {
    match res {
        Ok(b) => go(m.0.push(Value::Bool(b != neg)), m.1, m.2 + 1),
        Err(e) => stop(e, m),
    }
}

/// One instruction: the instruction at the program counter, applied to the state.
/// `fl` is the embedder's answer to the floating-point work that the instruction
/// needs, if any.
pub open spec fn exec_spec(m: State, prog: Seq<ByteCode>, fl: Option<FloatAnswer>) -> (
    Step,
    State,
) {
    let (s, p, pc) = m;
    let n = s.len();
    if pc < 0 || pc >= prog.len() {
        stop(Fault::PcOutOfRange(pc as usize), m)
    } else {
        match prog[pc] {
            ByteCode::HALT => (Step::Halted, m),
            ByteCode::Push(v) => go(s.push(v), p, pc + 1),
            ByteCode::Pop => if n == 0 {
                stop(Fault::StackUnderflow, m)
            } else {
                go(s.drop_last(), p, pc + 1)
            },
            ByteCode::Dup => if n == 0 {
                stop(Fault::StackUnderflow, m)
            } else {
                go(s.push(s[n - 1]), p, pc + 1)
            },
            ByteCode::Copy(k) => if k >= n {
                stop(Fault::StackUnderflow, m)
            } else {
                go(s.push(s[n - 1 - k]), p, pc + 1)
            },
            ByteCode::Swap => if n < 2 {
                stop(Fault::StackUnderflow, m)
            } else {
                go(s.drop_last().drop_last().push(s[n - 1]).push(s[n - 2]), p, pc + 1)
            },
            ByteCode::Store(i) => if n == 0 {
                stop(Fault::StackUnderflow, m)
            } else if i < p.len() {
                go(s.drop_last(), p.update(i as int, s[n - 1]), pc + 1)
            } else if i == p.len() {
                go(s.drop_last(), p.push(s[n - 1]), pc + 1)
            } else {
                stop(Fault::SparseSlot(i), m)
            },
            ByteCode::Get(i) => if i < p.len() {
                go(s.push(p[i as int]), p, pc + 1)
            } else {
                stop(Fault::UnsetSlot(i), m)
            },
            ByteCode::Jmp(t) => go(s, p, t as int),
            ByteCode::PopJmpIf(t) => if n == 0 {
                stop(Fault::StackUnderflow, m)
            } else if s[n - 1] == Value::Bool(true) {
                go(s.drop_last(), p, t as int)
            } else {
                go(s, p, pc + 1)
            },
            ByteCode::PopJmpIfNot(t) => if n == 0 {
                stop(Fault::StackUnderflow, m)
            } else if s[n - 1] == Value::Bool(false) {
                go(s.drop_last(), p, t as int)
            } else {
                go(s, p, pc + 1)
            },
            ByteCode::Call(t) => go(s.push(Value::Addr(pc as usize)), p, t as int),
            ByteCode::Ret => if n == 0 {
                stop(Fault::StackUnderflow, m)
            } else {
                match s[n - 1] {
                    Value::Addr(a) => if a < usize::MAX {
                        go(s.drop_last(), p, a + 1)
                    } else {
                        stop(Fault::PcOutOfRange(a), m)
                    },
                    _ => stop(Fault::BadReturn(tag_of(s[n - 1])), m),
                }
            },
            ByteCode::Add => binary_arith_spec(m, Arith::Add, fl),
            ByteCode::Sub => binary_arith_spec(m, Arith::Sub, fl),
            ByteCode::Mul => binary_arith_spec(m, Arith::Mul, fl),
            ByteCode::Div => binary_arith_spec(m, Arith::Div, fl),
            ByteCode::Rem => binary_arith_spec(m, Arith::Rem, fl),
            ByteCode::Inc => if n == 0 {
                stop(Fault::StackUnderflow, m)
            } else {
                unary_update(m, arith_spec(Arith::Add, s[n - 1], Value::Int(1), fl))
            },
            ByteCode::Dec => if n == 0 {
                stop(Fault::StackUnderflow, m)
            } else {
                unary_update(m, arith_spec(Arith::Sub, s[n - 1], Value::Int(1), fl))
            },
            ByteCode::And => binary_logic_spec(m, Logic::And, fl),
            ByteCode::Or => binary_logic_spec(m, Logic::Or, fl),
            ByteCode::Xor => binary_logic_spec(m, Logic::Xor, fl),
            ByteCode::Not => if n == 0 {
                stop(Fault::StackUnderflow, m)
            } else {
                unary_update(m, not_spec(s[n - 1]))
            },
            ByteCode::Greater => compare_spec_at(m, Cmp::Gt, false, fl),
            ByteCode::GreaterEq => compare_spec_at(m, Cmp::Lt, true, fl),
            ByteCode::Less => compare_spec_at(m, Cmp::Lt, false, fl),
            ByteCode::LessEq => compare_spec_at(m, Cmp::Gt, true, fl),
            ByteCode::Eq => compare_spec_at(m, Cmp::Eq, false, fl),
            ByteCode::Neq => compare_spec_at(m, Cmp::Eq, true, fl),
            ByteCode::StrictEq => if n < 2 {
                stop(Fault::StackUnderflow, m)
            } else {
                compare_push(m, strict_eq_spec(s[n - 2], s[n - 1]), false)
            },
            ByteCode::StrictNeq => if n < 2 {
                stop(Fault::StackUnderflow, m)
            } else {
                compare_push(m, strict_eq_spec(s[n - 2], s[n - 1]), true)
            },
            ByteCode::CollectList(k) => if k > n {
                stop(Fault::StackUnderflow, m)
            } else {
                go(
                    s.subrange(0, n - k).push(cons_value(s.subrange(n - k, n as int))),
                    p,
                    pc + 1,
                )
            },
            ByteCode::Arg(_) => stop(Fault::Unsupported, m),
            ByteCode::CollectCharList(_) => stop(Fault::Unsupported, m),
            ByteCode::CallTopFn => stop(Fault::Unsupported, m),
        }
    }
}

pub open spec fn binary_arith_spec(m: State, op: Arith, fl: Option<FloatAnswer>) -> (Step, State) {
    let s = m.0;
    if s.len() < 2 {
        stop(Fault::StackUnderflow, m)
    } else {
        binary_update(m, arith_spec(op, s[s.len() - 2], s[s.len() - 1], fl))
    }
}

pub open spec fn binary_logic_spec(m: State, op: Logic, fl: Option<FloatAnswer>) -> (Step, State) {
    let s = m.0;
    if s.len() < 2 {
        stop(Fault::StackUnderflow, m)
    } else {
        binary_update(m, logic_spec(op, s[s.len() - 2], s[s.len() - 1], fl))
    }
}

pub open spec fn compare_spec_at(m: State, op: Cmp, neg: bool, fl: Option<FloatAnswer>) -> (
    Step,
    State,
) {
    let s = m.0;
    if s.len() < 2 {
        stop(Fault::StackUnderflow, m)
    } else {
        compare_push(m, compare_spec(op, s[s.len() - 2], s[s.len() - 1], fl), neg)
    }
}

/// Up to `fuel` instructions, stopping at the first that does not continue.
pub open spec fn run_spec(m: State, prog: Seq<ByteCode>, fuel: nat) -> (Step, State)
    decreases fuel,
{
    if fuel == 0 {
        (Step::Continue, m)
    } else {
        let (r, m2) = exec_spec(m, prog, None);
        if r is Continue {
            run_spec(m2, prog, (fuel - 1) as nat)
        } else {
            (r, m2)
        }
    }
}

/// A run that reaches `HALT` within `n` instructions stops there, on a `HALT`
/// instruction, and any larger budget of instructions ends in the same state.
pub proof fn lemma_halting_run_terminates(m: State, prog: Seq<ByteCode>, n: nat, fuel: nat)
    requires
        run_spec(m, prog, n).0 is Halted,
        n <= fuel,
    ensures
        run_spec(m, prog, fuel) == run_spec(m, prog, n),
        0 <= run_spec(m, prog, n).1.2 < prog.len(),
        prog[run_spec(m, prog, n).1.2] is HALT,
    decreases n,
{
    let (r, m2) = exec_spec(m, prog, None);
    if r is Continue {
        lemma_halting_run_terminates(m2, prog, (n - 1) as nat, (fuel - 1) as nat);
    }
}

/// `push v; push w; Add; HALT` leaves exactly `v + w`, coerced to the tag of `v`,
/// on the stack. Where a float is involved the machine first asks for the answer
/// `fl` and is resumed with it.
pub proof fn lemma_push_push_add(v: Value, w: Value, p: Seq<Value>, fl: Option<FloatAnswer>)
    requires
        arith_spec(Arith::Add, v, w, fl) is Ok,
    ensures
        ({
            let prog = seq![ByteCode::Push(v), ByteCode::Push(w), ByteCode::Add, ByteCode::HALT];
            let start: State = (Seq::empty(), p, 0);
            let before_add: State = (seq![v, w], p, 2);
            let sum = arith_spec(Arith::Add, v, w, fl)->Ok_0;
            let done: State = (seq![sum], p, 3);
            &&& run_spec(start, prog, 2) == (Step::Continue, before_add)
            &&& exec_spec(before_add, prog, fl) == (Step::Continue, done)
            &&& run_spec(done, prog, 1) == (Step::Halted, done)
            &&& fl is None ==> run_spec(start, prog, 4) == (Step::Halted, done)
        }),
{
    let prog = seq![ByteCode::Push(v), ByteCode::Push(w), ByteCode::Add, ByteCode::HALT];
    let start: State = (Seq::empty(), p, 0);
    let sum = arith_spec(Arith::Add, v, w, fl)->Ok_0;
    assert(Seq::<Value>::empty().push(v).push(w) =~= seq![v, w]);
    assert(seq![v, w].drop_last().update(0, sum) =~= seq![sum]);
    assert(run_spec(start, prog, 2) == (Step::Continue, (seq![v, w], p, 2int))) by {
        reveal_with_fuel(run_spec, 3);
    }
    assert(run_spec((seq![sum], p, 3int), prog, 1) == (Step::Halted, (seq![sum], p, 3int))) by {
        reveal_with_fuel(run_spec, 2);
    }
    if fl is None {
        assert(run_spec(start, prog, 4) == run_spec((seq![v, w], p, 2int), prog, 2)) by {
            reveal_with_fuel(run_spec, 3);
        }
        assert(run_spec((seq![v, w], p, 2int), prog, 2) == run_spec((seq![sum], p, 3int), prog, 1)) by {
            reveal_with_fuel(run_spec, 2);
        }
    }
}

/// `Pop` on an empty stack is a stack-underflow fault and changes nothing.
pub proof fn lemma_pop_empty_underflows(p: Seq<Value>, pc: int, prog: Seq<ByteCode>, fl: Option<FloatAnswer>)
    requires
        0 <= pc < prog.len(),
        prog[pc] is Pop,
    ensures
        exec_spec((Seq::empty(), p, pc), prog, fl) == (
            Step::Fault(Fault::StackUnderflow),
            (Seq::<Value>::empty(), p, pc),
        ),
{
}

#[derive(Debug)]
pub struct VM {
    pub stack: Vec<Value>,
    /// Program counter.
    pub pc: usize,
    /// The slot store.
    pub constant_pool: Vec<Value>,
    /// Pause between two instructions when rendered, in milliseconds.
    pub delay: u64,
    /// Whether the embedder shows each step.
    pub render: bool,
    /// Whether the embedder waits for a key before each step.
    pub debug: bool,
}

impl VM {
    pub open spec fn state(&self) -> State {
        (self.stack@, self.constant_pool@, self.pc as int)
    }

    pub open spec fn same_settings(&self, other: &VM) -> bool {
        self.delay == other.delay && self.render == other.render && self.debug == other.debug
    }

    pub fn default() -> (vm: Self)
        ensures
            vm.state() == (Seq::<Value>::empty(), Seq::<Value>::empty(), 0int),
            vm.delay == 100,
            !vm.render,
            !vm.debug,
    {
        VM::new(100, false, false)
    }

    pub fn new(delay: u64, render: bool, debug: bool) -> (vm: Self)
        ensures
            vm.state() == (Seq::<Value>::empty(), Seq::<Value>::empty(), 0int),
            vm.delay == delay,
            vm.render == render,
            vm.debug == debug,
    {
        VM {
            stack: Vec::with_capacity(256),
            pc: 0,
            constant_pool: Vec::with_capacity(16),
            delay,
            render,
            debug,
        }
    }

    pub fn reset(&mut self)
        ensures
            final(self).state() == (Seq::<Value>::empty(), Seq::<Value>::empty(), 0int),
            final(self).delay == 100,
            !final(self).render,
            !final(self).debug,
    {
        *self = VM::default();
    }

    fn binary_arith(&mut self, op: Arith, fl: Option<FloatAnswer>) -> (r: Step)
        requires
            old(self).pc < usize::MAX,
        ensures
            (r, final(self).state()) == binary_arith_spec(old(self).state(), op, fl),
            final(self).same_settings(old(self)),
    {
        let n = self.stack.len();
        if n < 2 {
            return Step::Fault(Fault::StackUnderflow);
        }
        match arith(op, &self.stack[n - 2], &self.stack[n - 1], fl) {
            Ok(v) => {
                self.stack.pop();
                self.stack.set(n - 2, v);
                self.pc = self.pc + 1;
                Step::Continue
            },
            Err(e) => Step::Fault(e),
        }
    }

    fn binary_logic(&mut self, op: Logic, fl: Option<FloatAnswer>) -> (r: Step)
        requires
            old(self).pc < usize::MAX,
        ensures
            (r, final(self).state()) == binary_logic_spec(old(self).state(), op, fl),
            final(self).same_settings(old(self)),
    {
        let n = self.stack.len();
        if n < 2 {
            return Step::Fault(Fault::StackUnderflow);
        }
        match logic(op, &self.stack[n - 2], &self.stack[n - 1], fl) {
            Ok(v) => {
                self.stack.pop();
                self.stack.set(n - 2, v);
                self.pc = self.pc + 1;
                Step::Continue
            },
            Err(e) => Step::Fault(e),
        }
    }

    fn unary(&mut self, res: Result<Value, Fault>) -> (r: Step)
        requires
            old(self).pc < usize::MAX,
            old(self).stack@.len() > 0,
        ensures
            (r, final(self).state()) == unary_update(old(self).state(), res),
            final(self).same_settings(old(self)),
    {
        match res {
            Ok(v) => {
                let n = self.stack.len();
                self.stack.set(n - 1, v);
                self.pc = self.pc + 1;
                Step::Continue
            },
            Err(e) => Step::Fault(e),
        }
    }

    fn push_answer(&mut self, res: Result<bool, Fault>, neg: bool) -> (r: Step)
        requires
            old(self).pc < usize::MAX,
        ensures
            (r, final(self).state()) == compare_push(old(self).state(), res, neg),
            final(self).same_settings(old(self)),
    {
        match res {
            Ok(b) => {
                self.stack.push(Value::Bool(b != neg));
                self.pc = self.pc + 1;
                Step::Continue
            },
            Err(e) => Step::Fault(e),
        }
    }

    fn compare_top(&mut self, op: Cmp, neg: bool, fl: Option<FloatAnswer>) -> (r: Step)
        requires
            old(self).pc < usize::MAX,
        ensures
            (r, final(self).state()) == compare_spec_at(old(self).state(), op, neg, fl),
            final(self).same_settings(old(self)),
    {
        let n = self.stack.len();
        if n < 2 {
            return Step::Fault(Fault::StackUnderflow);
        }
        let res = compare(op, &self.stack[n - 2], &self.stack[n - 1], fl);
        self.push_answer(res, neg)
    }

    fn strict_top(&mut self, neg: bool) -> (r: Step)
        requires
            old(self).pc < usize::MAX,
            old(self).stack@.len() >= 2,
        ensures
            (r, final(self).state()) == compare_push(
                old(self).state(),
                strict_eq_spec(
                    old(self).stack@[old(self).stack@.len() - 2],
                    old(self).stack@[old(self).stack@.len() - 1],
                ),
                neg,
            ),
            final(self).same_settings(old(self)),
    {
        let n = self.stack.len();
        let res = strict_eq(&self.stack[n - 2], &self.stack[n - 1]);
        self.push_answer(res, neg)
    }

    fn collect_list(&mut self, k: usize) -> (r: Step)
        requires
            old(self).pc < usize::MAX,
            k <= old(self).stack@.len(),
        ensures
            r == Step::Continue,
            collected(old(self).stack@, k),
            final(self).state() == (
                old(self).stack@.subrange(0, old(self).stack@.len() - k).push(
                    cons_value(old(self).stack@.subrange(old(self).stack@.len() - k, old(self).stack@.len() as int)),
                ),
                old(self).constant_pool@,
                old(self).pc + 1,
            ),
            final(self).same_settings(old(self)),
    {
        let ghost s = self.stack@;
        let n = self.stack.len();
        let mut list: List<Value> = List::new();
        let mut i: usize = 0;
        while i < k
            invariant
                i <= k,
                k <= n,
                n == s.len(),
                self.stack@ == s.subrange(0, n - i),
                list@ == s.subrange(n - i, n as int),
                self.pc == old(self).pc,
                self.constant_pool == old(self).constant_pool,
                self.same_settings(old(self)),
            decreases k - i,
        {
            let v = self.stack.pop().unwrap();
            list = list.prepend(v);
            i = i + 1;
            assert(list@ =~= s.subrange(n - i, n as int));
            assert(self.stack@ =~= s.subrange(0, n - i));
        }
        let ghost items = s.subrange(n - k, n as int);
        let v = Value::Ref(Rc::new(ObjType::Cons(list)));
        proof {
            crate::builtin::linkedlist::lemma_list_of_view(list);
            assert(v is Ref && *(v->Ref_0) == ObjType::Cons(list_of(items)));
            let c = cons_value(items);
            assert(c is Ref && *(c->Ref_0) == ObjType::Cons(list_of(items)));
            assert(c == v);
            assert(list_of(items)@ == items);
        }
        self.stack.push(v);
        self.pc = self.pc + 1;
        Step::Continue
    }

    /// Executes the instruction at the program counter. `fl` answers the
    /// floating-point work that the instruction asked for, if any.
    pub fn step(&mut self, program: &Vec<ByteCode>, fl: Option<FloatAnswer>) -> (r: Step)
        ensures
            (r, final(self).state()) == exec_spec(old(self).state(), program@, fl),
            final(self).same_settings(old(self)),
            r is Continue && old(self).pc < program@.len() && program@[old(self).pc as int] is CollectList
                ==> collected(old(self).stack@, program@[old(self).pc as int]->CollectList_0),
    {
        let pc = self.pc;
        if pc >= program.len() {
            return Step::Fault(Fault::PcOutOfRange(pc));
        }
        let n = self.stack.len();
        match &program[pc] {
            ByteCode::HALT => Step::Halted,
            ByteCode::Push(v) => {
                self.stack.push(v.copy_value());
                self.pc = pc + 1;
                Step::Continue
            },
            ByteCode::Pop => {
                if n == 0 {
                    return Step::Fault(Fault::StackUnderflow);
                }
                self.stack.pop();
                self.pc = pc + 1;
                Step::Continue
            },
            ByteCode::Dup => {
                if n == 0 {
                    return Step::Fault(Fault::StackUnderflow);
                }
                let v = self.stack[n - 1].copy_value();
                self.stack.push(v);
                self.pc = pc + 1;
                Step::Continue
            },
            ByteCode::Copy(k) => {
                if *k >= n {
                    return Step::Fault(Fault::StackUnderflow);
                }
                let v = self.stack[n - 1 - *k].copy_value();
                self.stack.push(v);
                self.pc = pc + 1;
                Step::Continue
            },
            ByteCode::Swap => {
                if n < 2 {
                    return Step::Fault(Fault::StackUnderflow);
                }
                let b = self.stack.pop().unwrap();
                let a = self.stack.pop().unwrap();
                self.stack.push(b);
                self.stack.push(a);
                self.pc = pc + 1;
                Step::Continue
            },
            ByteCode::Store(i) => {
                if n == 0 {
                    return Step::Fault(Fault::StackUnderflow);
                }
                let i = *i;
                if i < self.constant_pool.len() {
                    let v = self.stack.pop().unwrap();
                    self.constant_pool.set(i, v);
                } else if i == self.constant_pool.len() {
                    let v = self.stack.pop().unwrap();
                    self.constant_pool.push(v);
                } else {
                    return Step::Fault(Fault::SparseSlot(i));
                }
                self.pc = pc + 1;
                Step::Continue
            },
            ByteCode::Get(i) => {
                if *i >= self.constant_pool.len() {
                    return Step::Fault(Fault::UnsetSlot(*i));
                }
                let v = self.constant_pool[*i].copy_value();
                self.stack.push(v);
                self.pc = pc + 1;
                Step::Continue
            },
            ByteCode::Jmp(t) => {
                self.pc = *t;
                Step::Continue
            },
            ByteCode::PopJmpIf(t) => {
                if n == 0 {
                    return Step::Fault(Fault::StackUnderflow);
                }
                if let Value::Bool(true) = &self.stack[n - 1] {
                    self.stack.pop();
                    self.pc = *t;
                } else {
                    self.pc = pc + 1;
                }
                Step::Continue
            },
            ByteCode::PopJmpIfNot(t) => {
                if n == 0 {
                    return Step::Fault(Fault::StackUnderflow);
                }
                if let Value::Bool(false) = &self.stack[n - 1] {
                    self.stack.pop();
                    self.pc = *t;
                } else {
                    self.pc = pc + 1;
                }
                Step::Continue
            },
            ByteCode::Call(t) => {
                self.stack.push(Value::Addr(pc));
                self.pc = *t;
                Step::Continue
            },
            ByteCode::Ret => {
                if n == 0 {
                    return Step::Fault(Fault::StackUnderflow);
                }
                match &self.stack[n - 1] {
                    Value::Addr(a) => {
                        let a = *a;
                        if a == usize::MAX {
                            return Step::Fault(Fault::PcOutOfRange(a));
                        }
                        self.stack.pop();
                        self.pc = a + 1;
                        Step::Continue
                    },
                    other => Step::Fault(Fault::BadReturn(other.tag())),
                }
            },
            ByteCode::Add => self.binary_arith(Arith::Add, fl),
            ByteCode::Sub => self.binary_arith(Arith::Sub, fl),
            ByteCode::Mul => self.binary_arith(Arith::Mul, fl),
            ByteCode::Div => self.binary_arith(Arith::Div, fl),
            ByteCode::Rem => self.binary_arith(Arith::Rem, fl),
            ByteCode::Inc => {
                if n == 0 {
                    return Step::Fault(Fault::StackUnderflow);
                }
                let res = arith(Arith::Add, &self.stack[n - 1], &Value::Int(1), fl);
                self.unary(res)
            },
            ByteCode::Dec => {
                if n == 0 {
                    return Step::Fault(Fault::StackUnderflow);
                }
                let res = arith(Arith::Sub, &self.stack[n - 1], &Value::Int(1), fl);
                self.unary(res)
            },
            ByteCode::And => self.binary_logic(Logic::And, fl),
            ByteCode::Or => self.binary_logic(Logic::Or, fl),
            ByteCode::Xor => self.binary_logic(Logic::Xor, fl),
            ByteCode::Not => {
                if n == 0 {
                    return Step::Fault(Fault::StackUnderflow);
                }
                let res = self.stack[n - 1].not_value();
                self.unary(res)
            },
            ByteCode::Greater => self.compare_top(Cmp::Gt, false, fl),
            ByteCode::GreaterEq => self.compare_top(Cmp::Lt, true, fl),
            ByteCode::Less => self.compare_top(Cmp::Lt, false, fl),
            ByteCode::LessEq => self.compare_top(Cmp::Gt, true, fl),
            ByteCode::Eq => self.compare_top(Cmp::Eq, false, fl),
            ByteCode::Neq => self.compare_top(Cmp::Eq, true, fl),
            ByteCode::StrictEq => {
                if n < 2 {
                    return Step::Fault(Fault::StackUnderflow);
                }
                self.strict_top(false)
            },
            ByteCode::StrictNeq => {
                if n < 2 {
                    return Step::Fault(Fault::StackUnderflow);
                }
                self.strict_top(true)
            },
            ByteCode::CollectList(k) => {
                if *k > n {
                    return Step::Fault(Fault::StackUnderflow);
                }
                self.collect_list(*k)
            },
            ByteCode::Arg(_) => Step::Fault(Fault::Unsupported),
            ByteCode::CollectCharList(_) => Step::Fault(Fault::Unsupported),
            ByteCode::CallTopFn => Step::Fault(Fault::Unsupported),
        }
    }

    /// Executes the instruction at the program counter with the embedder's answer
    /// to the floating-point work that it asked for.
    pub fn resume(&mut self, program: &Vec<ByteCode>, answer: FloatAnswer) -> (r: Step)
        ensures
            (r, final(self).state()) == exec_spec(old(self).state(), program@, Some(answer)),
            final(self).same_settings(old(self)),
    {
        self.step(program, Some(answer))
    }

    /// Executes up to `fuel` instructions, until one does not continue.
    pub fn run(&mut self, program: &Vec<ByteCode>, fuel: usize) -> (r: Step)
        ensures
            (r, final(self).state()) == run_spec(old(self).state(), program@, fuel as nat),
            final(self).same_settings(old(self)),
    {
        let mut left: usize = fuel;
        while left > 0
            invariant
                run_spec(old(self).state(), program@, fuel as nat) == run_spec(
                    self.state(),
                    program@,
                    left as nat,
                ),
                self.same_settings(old(self)),
            decreases left,
        {
            let r = self.step(program, None);
            match r {
                Step::Continue => {},
                _ => return r,
            }
            left = left - 1;
        }
        Step::Continue
    }
}

} // verus!
