//! Tagged values and the coercion rules of the machine's operators.
//!
//! A binary operator coerces its right operand to the tag of its left operand.
use crate::vm::float::{Arith, FloatAnswer, FloatArg, FloatOrder, FloatWork};
use crate::builtin::linkedlist::{List, lemma_elements_decrease};
use crate::vm::bytecode::ByteCode;
use crate::vm::object::ObjType;
use std::rc::Rc;
use vstd::prelude::*;

verus! {

#[derive(Clone, Debug, PartialEq)]
pub enum Value {
    Int(i64),
    /// The bit pattern of an IEEE-754 binary64 number.
    Float(u64),
    /// A Unicode code point.
    Char(u32),
    Bool(bool),
    Ref(Rc<ObjType>),
    Nil,
    /// A return address, pushed by `Call` and consumed by `Ret`. A program cannot
    /// turn an ordinary integer into one.
    Addr(usize),
}

#[derive(Clone, Copy, Debug, PartialEq, Eq, Structural)]
pub enum Tag {
    Int,
    Float,
    Char,
    Bool,
    Ref,
    Nil,
    Addr,
}

/// Why the machine stopped before finishing an instruction.
#[derive(Clone, Copy, Debug, PartialEq, Eq, Structural)]
pub enum Fault {
    StackUnderflow,
    /// A read of a slot that was never written.
    UnsetSlot(usize),
    /// A write past the next unused slot.
    SparseSlot(usize),
    /// Operands whose tags the operator does not accept: left, then right.
    Type(Tag, Tag),
    Overflow,
    DivideByZero,
    /// `Ret` found a value that is no return address on top of the stack.
    BadReturn(Tag),
    /// The program counter left the instruction sequence without a `HALT`.
    PcOutOfRange(usize),
    /// An instruction that this machine does not execute.
    Unsupported,
    /// The instruction needs this floating-point result from the embedder.
    Float(FloatWork),
    /// The embedder answered with a result of the wrong kind.
    FloatAnswer,
}

#[derive(Clone, Copy, Debug, PartialEq, Eq, Structural)]
pub enum Logic {
    And,
    Or,
    Xor,
}

#[derive(Clone, Copy, Debug, PartialEq, Eq, Structural)]
pub enum Cmp {
    Gt,
    Lt,
    Eq,
}

pub open spec fn tag_of(v: Value) -> Tag {
    match v {
        Value::Int(_) => Tag::Int,
        Value::Float(_) => Tag::Float,
        Value::Char(_) => Tag::Char,
        Value::Bool(_) => Tag::Bool,
        Value::Ref(_) => Tag::Ref,
        Value::Nil => Tag::Nil,
        Value::Addr(_) => Tag::Addr,
    }
}

/// What the embedder's answer says of work that expects an integer.
pub open spec fn answered_int(work: FloatWork, fl: Option<FloatAnswer>) -> Result<i64, Fault> {
    match fl {
        None => Err(Fault::Float(work)),
        Some(FloatAnswer::Int(i)) => Ok(i),
        Some(_) => Err(Fault::FloatAnswer),
    }
}

pub open spec fn answered_char(work: FloatWork, fl: Option<FloatAnswer>) -> Result<u32, Fault> {
    match fl {
        None => Err(Fault::Float(work)),
        Some(FloatAnswer::Char(c)) => Ok(c),
        Some(_) => Err(Fault::FloatAnswer),
    }
}

pub open spec fn answered_float(work: FloatWork, fl: Option<FloatAnswer>) -> Result<u64, Fault> {
    match fl {
        None => Err(Fault::Float(work)),
        Some(FloatAnswer::Float(f)) => Ok(f),
        Some(_) => Err(Fault::FloatAnswer),
    }
}

pub open spec fn answered_order(work: FloatWork, fl: Option<FloatAnswer>) -> Result<
    FloatOrder,
    Fault,
> {
    match fl {
        None => Err(Fault::Float(work)),
        Some(FloatAnswer::Order(o)) => Ok(o),
        Some(_) => Err(Fault::FloatAnswer),
    }
}

/// The right operand coerced to an integer: a float is truncated, a character
/// gives its code point, nil gives zero.
pub open spec fn int_operand(v: Value, fl: Option<FloatAnswer>) -> Result<i64, Fault> {
    match v {
        Value::Int(i) => Ok(i),
        Value::Float(f) => answered_int(FloatWork::ToInt(f), fl),
        Value::Char(c) => Ok(c as i64),
        Value::Nil => Ok(0),
        _ => Err(Fault::Type(Tag::Int, tag_of(v))),
    }
}

/// The right operand coerced to a code point: an integer is truncated to 32 bits.
pub open spec fn char_operand(v: Value, fl: Option<FloatAnswer>) -> Result<u32, Fault> {
    match v {
        Value::Char(c) => Ok(c),
        Value::Int(i) => Ok(i as u32),
        Value::Float(f) => answered_char(FloatWork::ToChar(f), fl),
        _ => Err(Fault::Type(Tag::Char, tag_of(v))),
    }
}

/// The right operand as the argument of a floating-point operation.
pub open spec fn float_operand(v: Value) -> Result<FloatArg, Fault> {
    match v {
        Value::Float(g) => Ok(FloatArg::Float(g)),
        Value::Int(i) => Ok(FloatArg::Int(i)),
        Value::Char(c) => Ok(FloatArg::Int(c as i64)),
        Value::Nil => Ok(FloatArg::Zero),
        _ => Err(Fault::Type(Tag::Float, tag_of(v))),
    }
}

pub open spec fn bool_operand(v: Value) -> Result<bool, Fault> {
    match v {
        Value::Bool(b) => Ok(b),
        _ => Err(Fault::Type(Tag::Bool, tag_of(v))),
    }
}

pub open spec fn int_arith(op: Arith, x: i64, y: i64) -> Result<i64, Fault> {
    match op {
        Arith::Add => match x.checked_add(y) {
            Some(r) => Ok(r),
            None => Err(Fault::Overflow),
        },
        Arith::Sub => match x.checked_sub(y) {
            Some(r) => Ok(r),
            None => Err(Fault::Overflow),
        },
        Arith::Mul => match x.checked_mul(y) {
            Some(r) => Ok(r),
            None => Err(Fault::Overflow),
        },
        Arith::Div => if y == 0 {
            Err(Fault::DivideByZero)
        } else {
            match x.checked_div(y) {
                Some(r) => Ok(r),
                None => Err(Fault::Overflow),
            }
        },
        Arith::Rem => if y == 0 {
            Err(Fault::DivideByZero)
        } else {
            match x.checked_rem(y) {
                Some(r) => Ok(r),
                None => Err(Fault::Overflow),
            }
        },
    }
}

pub open spec fn char_arith(op: Arith, x: u32, y: u32) -> Result<u32, Fault> {
    match op {
        Arith::Add => if x + y <= u32::MAX {
            Ok((x + y) as u32)
        } else {
            Err(Fault::Overflow)
        },
        Arith::Sub => if x >= y {
            Ok((x - y) as u32)
        } else {
            Err(Fault::Overflow)
        },
        Arith::Mul => if x * y <= u32::MAX {
            Ok((x * y) as u32)
        } else {
            Err(Fault::Overflow)
        },
        Arith::Div => if y == 0 {
            Err(Fault::DivideByZero)
        } else {
            Ok(x / y)
        },
        Arith::Rem => if y == 0 {
            Err(Fault::DivideByZero)
        } else {
            Ok(x % y)
        },
    }
}

/// The value that `a op b` leaves in place of `a`.
pub open spec fn arith_spec(op: Arith, a: Value, b: Value, fl: Option<FloatAnswer>) -> Result<
    Value,
    Fault,
> {
    match a {
        Value::Int(x) => match int_operand(b, fl) {
            Ok(y) => match int_arith(op, x, y) {
                Ok(r) => Ok(Value::Int(r)),
                Err(e) => Err(e),
            },
            Err(e) => Err(e),
        },
        Value::Float(f) => match float_operand(b) {
            Ok(arg) => match answered_float(FloatWork::Arith(op, f, arg), fl) {
                Ok(r) => Ok(Value::Float(r)),
                Err(e) => Err(e),
            },
            Err(e) => Err(e),
        },
        Value::Char(x) => match char_operand(b, fl) {
            Ok(y) => match char_arith(op, x, y) {
                Ok(r) => Ok(Value::Char(r)),
                Err(e) => Err(e),
            },
            Err(e) => Err(e),
        },
        _ => Err(Fault::Type(tag_of(a), tag_of(b))),
    }
}

/// The value that `a op b` leaves in place of `a`, for a bitwise operator.
pub open spec fn logic_spec(op: Logic, a: Value, b: Value, fl: Option<FloatAnswer>) -> Result<
    Value,
    Fault,
> {
    match a {
        Value::Int(x) => match int_operand(b, fl) {
            Ok(y) => Ok(
                Value::Int(
                    match op {
                        Logic::And => x & y,
                        Logic::Or => x | y,
                        Logic::Xor => x ^ y,
                    },
                ),
            ),
            Err(e) => Err(e),
        },
        Value::Bool(p) => match bool_operand(b) {
            Ok(q) => Ok(
                Value::Bool(
                    match op {
                        Logic::And => p && q,
                        Logic::Or => p || q,
                        Logic::Xor => p != q,
                    },
                ),
            ),
            Err(e) => Err(e),
        },
        Value::Char(x) => match char_operand(b, fl) {
            Ok(y) => Ok(
                Value::Char(
                    match op {
                        Logic::And => x & y,
                        Logic::Or => x | y,
                        Logic::Xor => x ^ y,
                    },
                ),
            ),
            Err(e) => Err(e),
        },
        _ => Err(Fault::Type(tag_of(a), tag_of(b))),
    }
}

pub open spec fn not_spec(a: Value) -> Result<Value, Fault> {
    match a {
        Value::Int(x) => Ok(Value::Int(!x)),
        Value::Bool(p) => Ok(Value::Bool(!p)),
        Value::Char(x) => Ok(Value::Char(!x)),
        _ => Err(Fault::Type(tag_of(a), tag_of(a))),
    }
}

pub open spec fn order_holds(op: Cmp, o: FloatOrder) -> bool {
    match op {
        Cmp::Gt => o is Greater,
        Cmp::Lt => o is Less,
        Cmp::Eq => o is Equal,
    }
}

/// Whether `a op b` holds, the right operand coerced to the left's tag.
pub open spec fn compare_spec(op: Cmp, a: Value, b: Value, fl: Option<FloatAnswer>) -> Result<
    bool,
    Fault,
> {
    match a {
        Value::Int(x) => match int_operand(b, fl) {
            Ok(y) => Ok(
                match op {
                    Cmp::Gt => x > y,
                    Cmp::Lt => x < y,
                    Cmp::Eq => x == y,
                },
            ),
            Err(e) => Err(e),
        },
        Value::Float(f) => match float_operand(b) {
            Ok(arg) => match answered_order(FloatWork::Compare(f, arg), fl) {
                Ok(o) => Ok(order_holds(op, o)),
                Err(e) => Err(e),
            },
            Err(e) => Err(e),
        },
        Value::Char(x) => match char_operand(b, fl) {
            Ok(y) => Ok(
                match op {
                    Cmp::Gt => x > y,
                    Cmp::Lt => x < y,
                    Cmp::Eq => x == y,
                },
            ),
            Err(e) => Err(e),
        },
        _ => Err(Fault::Type(tag_of(a), tag_of(b))),
    }
}

/// Structural equality: the same tag and the same payload, with no coercion.
/// Floats compare by bit pattern; heap objects compare by what they hold.
pub open spec fn deep_eq(a: Value, b: Value) -> bool
    decreases a,
{
    match a {
        Value::Ref(x) => match b {
            Value::Ref(y) => obj_eq(*x, *y),
            _ => false,
        },
        _ => a == b,
    }
}

/// Strings by their text, lists and function bodies element by element.
pub open spec fn obj_eq(o: ObjType, p: ObjType) -> bool
    decreases o,
{
    match o {
        ObjType::Str(s) => p is Str && s@ == p->Str_0@,
        ObjType::Cons(l) => p is Cons && l@.len() == p->Cons_0@.len() && list_eq_from(
            l,
            p->Cons_0,
            0,
        ),
        ObjType::Func(n, body) => p is Func && n == p->Func_0 && body@.len() == p->Func_1@.len()
            && codes_eq_from(body, p->Func_1, 0),
    }
}

/// The elements of `l` and `m` from position `k` on are equal pairwise.
pub open spec fn list_eq_from(l: List<Value>, m: List<Value>, k: int) -> bool
    decreases l, l@.len() - k,
{
    if k < 0 || k >= l@.len() || k >= m@.len() {
        true
    } else {
        proof {
            lemma_elements_decrease(l, k);
        }
        deep_eq(l@[k], m@[k]) && list_eq_from(l, m, k + 1)
    }
}

/// The instructions of `b` and `c` from position `k` on are equal pairwise.
pub open spec fn codes_eq_from(b: Vec<ByteCode>, c: Vec<ByteCode>, k: int) -> bool
    decreases b, b@.len() - k,
{
    if k < 0 || k >= b@.len() || k >= c@.len() {
        true
    } else {
        proof {
            assert(decreases_to!(b => b@[k]));
        }
        code_eq(b@[k], c@[k]) && codes_eq_from(b, c, k + 1)
    }
}

pub open spec fn code_eq(x: ByteCode, y: ByteCode) -> bool
    decreases x,
{
    match x {
        ByteCode::Push(v) => y is Push && deep_eq(v, y->Push_0),
        _ => x == y,
    }
}

/// Strict equality always has an answer.
pub open spec fn strict_eq_spec(a: Value, b: Value) -> Result<bool, Fault> {
    Ok(deep_eq(a, b))
}

/// Applies an operator's result to the value it updates in place: on success the
/// value becomes the result, on a fault it is left as it was.
pub open spec fn updated(before: Value, after: Value, r: Result<(), Fault>, res: Result<Value, Fault>) -> bool {
    match res {
        Ok(v) => r is Ok && after == v,
        Err(e) => r == Err::<(), Fault>(e) && after == before,
    }
}

fn answer_int(work: FloatWork, fl: Option<FloatAnswer>) -> (r: Result<i64, Fault>)
    ensures
        r == answered_int(work, fl),
{
    match fl {
        None => Err(Fault::Float(work)),
        Some(FloatAnswer::Int(i)) => Ok(i),
        Some(_) => Err(Fault::FloatAnswer),
    }
}

fn answer_char(work: FloatWork, fl: Option<FloatAnswer>) -> (r: Result<u32, Fault>)
    ensures
        r == answered_char(work, fl),
{
    match fl {
        None => Err(Fault::Float(work)),
        Some(FloatAnswer::Char(c)) => Ok(c),
        Some(_) => Err(Fault::FloatAnswer),
    }
}

fn answer_float(work: FloatWork, fl: Option<FloatAnswer>) -> (r: Result<u64, Fault>)
    ensures
        r == answered_float(work, fl),
{
    match fl {
        None => Err(Fault::Float(work)),
        Some(FloatAnswer::Float(f)) => Ok(f),
        Some(_) => Err(Fault::FloatAnswer),
    }
}

fn answer_order(work: FloatWork, fl: Option<FloatAnswer>) -> (r: Result<FloatOrder, Fault>)
    ensures
        r == answered_order(work, fl),
{
    match fl {
        None => Err(Fault::Float(work)),
        Some(FloatAnswer::Order(o)) => Ok(o),
        Some(_) => Err(Fault::FloatAnswer),
    }
}

impl Value {
    /// A copy of the value; a heap object is shared, not copied.
    pub fn copy_value(&self) -> (r: Value)
        ensures
            r == *self,
    {
        match self {
            Value::Int(i) => Value::Int(*i),
            Value::Float(f) => Value::Float(*f),
            Value::Char(c) => Value::Char(*c),
            Value::Bool(b) => Value::Bool(*b),
            Value::Ref(o) => Value::Ref(Rc::clone(o)),
            Value::Nil => Value::Nil,
            Value::Addr(a) => Value::Addr(*a),
        }
    }

    pub fn tag(&self) -> (t: Tag)
        ensures
            t == tag_of(*self),
    {
        match self {
            Value::Int(_) => Tag::Int,
            Value::Float(_) => Tag::Float,
            Value::Char(_) => Tag::Char,
            Value::Bool(_) => Tag::Bool,
            Value::Ref(_) => Tag::Ref,
            Value::Nil => Tag::Nil,
            Value::Addr(_) => Tag::Addr,
        }
    }

    fn try_into_int(&self, fl: Option<FloatAnswer>) -> (r: Result<i64, Fault>)
        ensures
            r == int_operand(*self, fl),
    {
        match self {
            Value::Int(i) => Ok(*i),
            Value::Float(f) => answer_int(FloatWork::ToInt(*f), fl),
            Value::Char(c) => Ok(*c as i64),
            Value::Nil => Ok(0),
            _ => Err(Fault::Type(Tag::Int, self.tag())),
        }
    }

    fn try_into_char(&self, fl: Option<FloatAnswer>) -> (r: Result<u32, Fault>)
        ensures
            r == char_operand(*self, fl),
    {
        match self {
            Value::Char(c) => Ok(*c),
            Value::Int(i) => Ok(*i as u32),
            Value::Float(f) => answer_char(FloatWork::ToChar(*f), fl),
            _ => Err(Fault::Type(Tag::Char, self.tag())),
        }
    }

    fn try_into_float(&self) -> (r: Result<FloatArg, Fault>)
        ensures
            r == float_operand(*self),
    {
        match self {
            Value::Float(g) => Ok(FloatArg::Float(*g)),
            Value::Int(i) => Ok(FloatArg::Int(*i)),
            Value::Char(c) => Ok(FloatArg::Int(*c as i64)),
            Value::Nil => Ok(FloatArg::Zero),
            _ => Err(Fault::Type(Tag::Float, self.tag())),
        }
    }

    fn try_into_bool(&self) -> (r: Result<bool, Fault>)
        ensures
            r == bool_operand(*self),
    {
        match self {
            Value::Bool(b) => Ok(*b),
            _ => Err(Fault::Type(Tag::Bool, self.tag())),
        }
    }
}

fn int_arith_exec(op: Arith, x: i64, y: i64) -> (r: Result<i64, Fault>)
    ensures
        r == int_arith(op, x, y),
{
    let res = match op {
        Arith::Add => x.checked_add(y),
        Arith::Sub => x.checked_sub(y),
        Arith::Mul => x.checked_mul(y),
        Arith::Div => {
            if y == 0 {
                return Err(Fault::DivideByZero);
            }
            x.checked_div(y)
        },
        Arith::Rem => {
            if y == 0 {
                return Err(Fault::DivideByZero);
            }
            x.checked_rem(y)
        },
    };
    match res {
        Some(v) => Ok(v),
        None => Err(Fault::Overflow),
    }
}

fn char_arith_exec(op: Arith, x: u32, y: u32) -> (r: Result<u32, Fault>)
    ensures
        r == char_arith(op, x, y),
{
    match op {
        Arith::Add => if x <= u32::MAX - y {
            Ok(x + y)
        } else {
            Err(Fault::Overflow)
        },
        Arith::Sub => if x >= y {
            Ok(x - y)
        } else {
            Err(Fault::Overflow)
        },
        Arith::Mul => match x.checked_mul(y) {
            Some(v) => Ok(v),
            None => Err(Fault::Overflow),
        },
        Arith::Div => if y == 0 {
            Err(Fault::DivideByZero)
        } else {
            Ok(x / y)
        },
        Arith::Rem => if y == 0 {
            Err(Fault::DivideByZero)
        } else {
            Ok(x % y)
        },
    }
}

/// `a op b` for an arithmetic operator; `fl` is the embedder's answer where a
/// float is involved.
pub fn arith(op: Arith, a: &Value, b: &Value, fl: Option<FloatAnswer>) -> (r: Result<Value, Fault>)
    ensures
        r == arith_spec(op, *a, *b, fl),
{
    match a {
        Value::Int(x) => {
            let y = b.try_into_int(fl)?;
            let v = int_arith_exec(op, *x, y)?;
            Ok(Value::Int(v))
        },
        Value::Float(f) => {
            let arg = b.try_into_float()?;
            let v = answer_float(FloatWork::Arith(op, *f, arg), fl)?;
            Ok(Value::Float(v))
        },
        Value::Char(x) => {
            let y = b.try_into_char(fl)?;
            let v = char_arith_exec(op, *x, y)?;
            Ok(Value::Char(v))
        },
        _ => Err(Fault::Type(a.tag(), b.tag())),
    }
}

/// `a op b` for a bitwise operator.
pub fn logic(op: Logic, a: &Value, b: &Value, fl: Option<FloatAnswer>) -> (r: Result<Value, Fault>)
    ensures
        r == logic_spec(op, *a, *b, fl),
{
    match a {
        Value::Int(x) => {
            let y = b.try_into_int(fl)?;
            Ok(
                Value::Int(
                    match op {
                        Logic::And => *x & y,
                        Logic::Or => *x | y,
                        Logic::Xor => *x ^ y,
                    },
                ),
            )
        },
        Value::Bool(p) => {
            let q = b.try_into_bool()?;
            Ok(
                Value::Bool(
                    match op {
                        Logic::And => *p && q,
                        Logic::Or => *p || q,
                        Logic::Xor => *p != q,
                    },
                ),
            )
        },
        Value::Char(x) => {
            let y = b.try_into_char(fl)?;
            Ok(
                Value::Char(
                    match op {
                        Logic::And => *x & y,
                        Logic::Or => *x | y,
                        Logic::Xor => *x ^ y,
                    },
                ),
            )
        },
        _ => Err(Fault::Type(a.tag(), b.tag())),
    }
}

/// Whether `a op b` holds, the right operand coerced to the left's tag.
pub fn compare(op: Cmp, a: &Value, b: &Value, fl: Option<FloatAnswer>) -> (r: Result<bool, Fault>)
    ensures
        r == compare_spec(op, *a, *b, fl),
{
    match a {
        Value::Int(x) => {
            let y = b.try_into_int(fl)?;
            Ok(
                match op {
                    Cmp::Gt => *x > y,
                    Cmp::Lt => *x < y,
                    Cmp::Eq => *x == y,
                },
            )
        },
        Value::Float(f) => {
            let arg = b.try_into_float()?;
            let o = answer_order(FloatWork::Compare(*f, arg), fl)?;
            Ok(
                match op {
                    Cmp::Gt => o == FloatOrder::Greater,
                    Cmp::Lt => o == FloatOrder::Less,
                    Cmp::Eq => o == FloatOrder::Equal,
                },
            )
        },
        Value::Char(x) => {
            let y = b.try_into_char(fl)?;
            Ok(
                match op {
                    Cmp::Gt => *x > y,
                    Cmp::Lt => *x < y,
                    Cmp::Eq => *x == y,
                },
            )
        },
        _ => Err(Fault::Type(a.tag(), b.tag())),
    }
}

/// Strict equality: same tag and same payload; heap objects compare by what
/// they hold.
pub fn strict_eq(a: &Value, b: &Value) -> (r: Result<bool, Fault>)
    ensures
        r == strict_eq_spec(*a, *b),
{
    Ok(value_eq(a, b))
}

fn value_eq(a: &Value, b: &Value) -> (r: bool)
    ensures
        r == deep_eq(*a, *b),
    decreases *a,
{
    match a {
        Value::Ref(x) => match b {
            Value::Ref(y) => obj_eq_exec(&**x, &**y),
            _ => false,
        },
        Value::Int(x) => match b {
            Value::Int(y) => *x == *y,
            _ => false,
        },
        Value::Float(x) => match b {
            Value::Float(y) => *x == *y,
            _ => false,
        },
        Value::Char(x) => match b {
            Value::Char(y) => *x == *y,
            _ => false,
        },
        Value::Bool(x) => match b {
            Value::Bool(y) => *x == *y,
            _ => false,
        },
        Value::Addr(x) => match b {
            Value::Addr(y) => *x == *y,
            _ => false,
        },
        Value::Nil => match b {
            Value::Nil => true,
            _ => false,
        },
    }
}

fn obj_eq_exec(o: &ObjType, p: &ObjType) -> (r: bool)
    ensures
        r == obj_eq(*o, *p),
    decreases *o,
{
    match o {
        ObjType::Str(s) => match p {
            ObjType::Str(t) => s.eq(t),
            _ => false,
        },
        ObjType::Cons(l) => match p {
            ObjType::Cons(m) => lists_equal(l, m),
            _ => false,
        },
        ObjType::Func(n, body) => match p {
            ObjType::Func(k, other) => *n == *k && body.len() == other.len() && codes_equal(body, other),
            _ => false,
        },
    }
}

fn lists_equal(l: &List<Value>, m: &List<Value>) -> (r: bool)
    ensures
        r == (l@.len() == m@.len() && list_eq_from(*l, *m, 0)),
    decreases *l,
{
    let mut t1 = l.share();
    let mut t2 = m.share();
    let ghost mut k: int = 0;
    assert(l@.subrange(0, l@.len() as int) =~= l@);
    assert(m@.subrange(0, m@.len() as int) =~= m@);
    loop
        invariant
            0 <= k <= l@.len(),
            k <= m@.len(),
            t1@ == l@.subrange(k, l@.len() as int),
            t2@ == m@.subrange(k, m@.len() as int),
            (l@.len() == m@.len() && list_eq_from(*l, *m, 0)) == (l@.len() == m@.len()
                && list_eq_from(*l, *m, k)),
        decreases l@.len() - k,
    {
        let h1 = t1.head();
        let h2 = t2.head();
        match h1 {
            None => {
                return h2.is_none();
            },
            Some(x) => match h2 {
                None => {
                    return false;
                },
                Some(y) => {
                    assert(*x == l@[k]);
                    assert(*y == m@[k]);
                    proof {
                        lemma_elements_decrease(*l, k);
                    }
                    if !value_eq(x, y) {
                        return false;
                    }
                },
            },
        }
        t1 = t1.tail();
        t2 = t2.tail();
        proof {
            assert(t1@ =~= l@.subrange(k + 1, l@.len() as int));
            assert(t2@ =~= m@.subrange(k + 1, m@.len() as int));
            k = k + 1;
        }
    }
}

fn codes_equal(b: &Vec<ByteCode>, c: &Vec<ByteCode>) -> (r: bool)
    requires
        b@.len() == c@.len(),
    ensures
        r == codes_eq_from(*b, *c, 0),
    decreases *b,
{
    let mut k: usize = 0;
    while k < b.len()
        invariant
            k <= b@.len(),
            b@.len() == c@.len(),
            codes_eq_from(*b, *c, 0) == codes_eq_from(*b, *c, k as int),
        decreases b@.len() - k,
    {
        assert(decreases_to!(*b => b@[k as int]));
        if !code_eq_exec(&b[k], &c[k]) {
            return false;
        }
        k = k + 1;
    }
    true
}

fn code_eq_exec(x: &ByteCode, y: &ByteCode) -> (r: bool)
    ensures
        r == code_eq(*x, *y),
    decreases *x,
{
    match x {
        ByteCode::Push(v) => match y {
            ByteCode::Push(w) => value_eq(v, w),
            _ => false,
        },
        _ => same_op(x, y),
    }
}

/// Equality of two instructions that push nothing.
fn same_op(x: &ByteCode, y: &ByteCode) -> (r: bool)
    requires
        !(x is Push),
    ensures
        r == (*x == *y),
{
    match x {
        ByteCode::HALT => match y {
            ByteCode::HALT => true,
            _ => false,
        },
        ByteCode::Pop => match y {
            ByteCode::Pop => true,
            _ => false,
        },
        ByteCode::Swap => match y {
            ByteCode::Swap => true,
            _ => false,
        },
        ByteCode::Dup => match y {
            ByteCode::Dup => true,
            _ => false,
        },
        ByteCode::Ret => match y {
            ByteCode::Ret => true,
            _ => false,
        },
        ByteCode::Greater => match y {
            ByteCode::Greater => true,
            _ => false,
        },
        ByteCode::GreaterEq => match y {
            ByteCode::GreaterEq => true,
            _ => false,
        },
        ByteCode::Less => match y {
            ByteCode::Less => true,
            _ => false,
        },
        ByteCode::LessEq => match y {
            ByteCode::LessEq => true,
            _ => false,
        },
        ByteCode::Eq => match y {
            ByteCode::Eq => true,
            _ => false,
        },
        ByteCode::Neq => match y {
            ByteCode::Neq => true,
            _ => false,
        },
        ByteCode::StrictEq => match y {
            ByteCode::StrictEq => true,
            _ => false,
        },
        ByteCode::StrictNeq => match y {
            ByteCode::StrictNeq => true,
            _ => false,
        },
        ByteCode::Add => match y {
            ByteCode::Add => true,
            _ => false,
        },
        ByteCode::Sub => match y {
            ByteCode::Sub => true,
            _ => false,
        },
        ByteCode::Mul => match y {
            ByteCode::Mul => true,
            _ => false,
        },
        ByteCode::Div => match y {
            ByteCode::Div => true,
            _ => false,
        },
        ByteCode::Rem => match y {
            ByteCode::Rem => true,
            _ => false,
        },
        ByteCode::Inc => match y {
            ByteCode::Inc => true,
            _ => false,
        },
        ByteCode::Dec => match y {
            ByteCode::Dec => true,
            _ => false,
        },
        ByteCode::And => match y {
            ByteCode::And => true,
            _ => false,
        },
        ByteCode::Or => match y {
            ByteCode::Or => true,
            _ => false,
        },
        ByteCode::Not => match y {
            ByteCode::Not => true,
            _ => false,
        },
        ByteCode::Xor => match y {
            ByteCode::Xor => true,
            _ => false,
        },
        ByteCode::CallTopFn => match y {
            ByteCode::CallTopFn => true,
            _ => false,
        },
        ByteCode::Copy(n) => match y {
            ByteCode::Copy(m) => *n == *m,
            _ => false,
        },
        ByteCode::Get(n) => match y {
            ByteCode::Get(m) => *n == *m,
            _ => false,
        },
        ByteCode::Store(n) => match y {
            ByteCode::Store(m) => *n == *m,
            _ => false,
        },
        ByteCode::Arg(n) => match y {
            ByteCode::Arg(m) => *n == *m,
            _ => false,
        },
        ByteCode::Jmp(n) => match y {
            ByteCode::Jmp(m) => *n == *m,
            _ => false,
        },
        ByteCode::PopJmpIf(n) => match y {
            ByteCode::PopJmpIf(m) => *n == *m,
            _ => false,
        },
        ByteCode::PopJmpIfNot(n) => match y {
            ByteCode::PopJmpIfNot(m) => *n == *m,
            _ => false,
        },
        ByteCode::Call(n) => match y {
            ByteCode::Call(m) => *n == *m,
            _ => false,
        },
        ByteCode::CollectList(n) => match y {
            ByteCode::CollectList(m) => *n == *m,
            _ => false,
        },
        ByteCode::CollectCharList(n) => match y {
            ByteCode::CollectCharList(m) => *n == *m,
            _ => false,
        },
        ByteCode::Push(_) => false,
    }
}

impl Value {
    /// The bitwise (or, for a boolean, logical) negation.
    pub fn not_value(&self) -> (r: Result<Value, Fault>)
        ensures
            r == not_spec(*self),
    {
        match self {
            Value::Int(x) => Ok(Value::Int(!*x)),
            Value::Bool(p) => Ok(Value::Bool(!*p)),
            Value::Char(x) => Ok(Value::Char(!*x)),
            _ => Err(Fault::Type(self.tag(), self.tag())),
        }
    }

    fn assign(&mut self, res: Result<Value, Fault>) -> (r: Result<(), Fault>)
        ensures
            updated(*old(self), *final(self), r, res),
    {
        match res {
            Ok(v) => {
                *self = v;
                Ok(())
            },
            Err(e) => Err(e),
        }
    }

    /// Replaces the value with the sum of it and `val`.
    pub fn add(&mut self, val: Value, fl: Option<FloatAnswer>) -> (r: Result<(), Fault>)
        ensures
            updated(*old(self), *final(self), r, arith_spec(Arith::Add, *old(self), val, fl)),
    {
        let res = arith(Arith::Add, self, &val, fl);
        self.assign(res)
    }

    /// Replaces the value with the difference of it and `val`.
    pub fn sub(&mut self, val: Value, fl: Option<FloatAnswer>) -> (r: Result<(), Fault>)
        ensures
            updated(*old(self), *final(self), r, arith_spec(Arith::Sub, *old(self), val, fl)),
    {
        let res = arith(Arith::Sub, self, &val, fl);
        self.assign(res)
    }

    /// Replaces the value with the product of it and `val`.
    pub fn mul(&mut self, val: Value, fl: Option<FloatAnswer>) -> (r: Result<(), Fault>)
        ensures
            updated(*old(self), *final(self), r, arith_spec(Arith::Mul, *old(self), val, fl)),
    {
        let res = arith(Arith::Mul, self, &val, fl);
        self.assign(res)
    }

    /// Replaces the value with the quotient, truncated toward zero of it and `val`.
    pub fn div(&mut self, val: Value, fl: Option<FloatAnswer>) -> (r: Result<(), Fault>)
        ensures
            updated(*old(self), *final(self), r, arith_spec(Arith::Div, *old(self), val, fl)),
    {
        let res = arith(Arith::Div, self, &val, fl);
        self.assign(res)
    }

    /// Replaces the value with the remainder, with the sign of the left operand of it and `val`.
    pub fn rem(&mut self, val: Value, fl: Option<FloatAnswer>) -> (r: Result<(), Fault>)
        ensures
            updated(*old(self), *final(self), r, arith_spec(Arith::Rem, *old(self), val, fl)),
    {
        let res = arith(Arith::Rem, self, &val, fl);
        self.assign(res)
    }

    pub fn and(&mut self, val: Value, fl: Option<FloatAnswer>) -> (r: Result<(), Fault>)
        ensures
            updated(*old(self), *final(self), r, logic_spec(Logic::And, *old(self), val, fl)),
    {
        let res = logic(Logic::And, self, &val, fl);
        self.assign(res)
    }

    pub fn or(&mut self, val: Value, fl: Option<FloatAnswer>) -> (r: Result<(), Fault>)
        ensures
            updated(*old(self), *final(self), r, logic_spec(Logic::Or, *old(self), val, fl)),
    {
        let res = logic(Logic::Or, self, &val, fl);
        self.assign(res)
    }

    pub fn xor(&mut self, val: Value, fl: Option<FloatAnswer>) -> (r: Result<(), Fault>)
        ensures
            updated(*old(self), *final(self), r, logic_spec(Logic::Xor, *old(self), val, fl)),
    {
        let res = logic(Logic::Xor, self, &val, fl);
        self.assign(res)
    }

    pub fn not(&mut self) -> (r: Result<(), Fault>)
        ensures
            updated(*old(self), *final(self), r, not_spec(*old(self))),
    {
        let res = self.not_value();
        self.assign(res)
    }

    pub fn gt(&self, val: Value, fl: Option<FloatAnswer>) -> (r: Result<bool, Fault>)
        ensures
            r == compare_spec(Cmp::Gt, *self, val, fl),
    {
        compare(Cmp::Gt, self, &val, fl)
    }

    pub fn lt(&self, val: Value, fl: Option<FloatAnswer>) -> (r: Result<bool, Fault>)
        ensures
            r == compare_spec(Cmp::Lt, *self, val, fl),
    {
        compare(Cmp::Lt, self, &val, fl)
    }

    pub fn eq(&self, val: Value, fl: Option<FloatAnswer>) -> (r: Result<bool, Fault>)
        ensures
            r == compare_spec(Cmp::Eq, *self, val, fl),
    {
        compare(Cmp::Eq, self, &val, fl)
    }
}

} // verus!
